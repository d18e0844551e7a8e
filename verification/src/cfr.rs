//! Control-flow recovery: re-expanding recorded reductions into a tree.
//!
//! The assembler walks the primitives of a finished reduction, keyed by the
//! pair identity of each meta-node, and rebuilds the nested groups of
//! structured control flow that the reducer collapsed.

use vstd::prelude::*;

use crate::cfa::CFAPrim;
use crate::cfa::CFAPrims;
use crate::cfa::PrimV;
use crate::cfa::PrimsV;
use crate::cfa::prim_entry;
use crate::cfa::prim_exit;
use crate::cfg::CFGNode;
use crate::cfg::Name;
use crate::cfg::NameV;
use crate::cfg::NodeV;
use crate::util::unique_vec::eq_decides_view;

verus! {

/// Mathematical value of one recovered group.
pub enum GroupV {
    Block(NameV),
    PreconditionLoop { cond: Seq<GroupV>, body: Seq<GroupV> },
    PostconditionLoop { cond: Seq<GroupV> },
    OnewayConditional { cond: Seq<GroupV>, body: Seq<GroupV> },
    OnewayReturnConditional { cond: Seq<GroupV>, body: Seq<GroupV> },
    TwowayConditional {
        cond: Seq<GroupV>,
        body_true: Seq<GroupV>,
        body_false: Seq<GroupV>,
    },
}

/// A sequence of recovered control-flow groups.
#[derive(Debug)]
pub struct CFRGroups {
    pub groups: Vec<CFRGroup>,
}

/// One recovered control-flow construct.
#[derive(Debug)]
pub enum CFRGroup {
    /// A single original basic block.
    Block(Name),
    /// `while (cond) { body }`.
    PreconditionLoop { cond: CFRGroups, body: CFRGroups },
    /// `loop { if (!cond) break; }`.
    PostconditionLoop { cond: CFRGroups },
    /// `if (cond) { body }`.
    OnewayConditional { cond: CFRGroups, body: CFRGroups },
    /// `if (cond) { body; return; }`.
    OnewayReturnConditional { cond: CFRGroups, body: CFRGroups },
    /// `if (cond) { body_true } else { body_false }`.
    TwowayConditional {
        cond: CFRGroups,
        body_true: CFRGroups,
        body_false: CFRGroups,
    },
}

impl View for CFRGroup {
    type V = GroupV;

    open spec fn view(&self) -> GroupV
        decreases self,
    {
        match self {
            CFRGroup::Block(n) => GroupV::Block(n@),
            CFRGroup::PreconditionLoop { cond, body } => GroupV::PreconditionLoop {
                cond: cond@,
                body: body@,
            },
            CFRGroup::PostconditionLoop { cond } => GroupV::PostconditionLoop { cond: cond@ },
            CFRGroup::OnewayConditional { cond, body } => GroupV::OnewayConditional {
                cond: cond@,
                body: body@,
            },
            CFRGroup::OnewayReturnConditional { cond, body } => GroupV::OnewayReturnConditional {
                cond: cond@,
                body: body@,
            },
            CFRGroup::TwowayConditional { cond, body_true, body_false } => {
                GroupV::TwowayConditional {
                    cond: cond@,
                    body_true: body_true@,
                    body_false: body_false@,
                }
            },
        }
    }
}

impl View for CFRGroups {
    type V = Seq<GroupV>;

    open spec fn view(&self) -> Seq<GroupV>
        decreases self,
    {
        groups_view(self.groups@)
    }
}

/// The abstract values of a list of groups, in order.
pub open spec fn groups_view(gs: Seq<CFRGroup>) -> Seq<GroupV>
    decreases gs,
{
    if gs.len() == 0 {
        Seq::empty()
    } else {
        groups_view(gs.drop_last()).push(gs.last()@)
    }
}

/// Whether primitive `p` explains the meta-node `at`: the region it
/// collapsed was entered through `at`'s entry name and left through `at`'s
/// exit name.
pub open spec fn is_match(p: PrimV, at: NodeV) -> bool {
    &&& prim_entry(p).from_pred == at.from_pred
    &&& prim_exit(p).to_succ == at.to_succ
}

/// The first primitive among `prims[j..bound]` that explains `at`.
pub open spec fn spec_find_match(prims: Seq<PrimV>, at: NodeV, j: int, bound: int) -> Option<int>
    decreases bound - j,
{
    if j < 0 || j >= bound || j >= prims.len() {
        None
    } else if is_match(prims[j], at) {
        Some(j)
    } else {
        spec_find_match(prims, at, j + 1, bound)
    }
}

/// The groups recovered for the meta-node `at`, searching only primitives
/// recorded before `bound`: the primitive that created a meta-node always
/// precedes the one that later collapsed it, so the bound shrinks with each
/// descent and the recursion ends.
///
/// For the conditional shapes the condition is the last group recovered
/// from the `cond` branch; groups before it are statements that feed the
/// condition and stay in front. `None` marks an unexplained meta-node whose
/// two names differ, or a conditional whose condition recovers to nothing.
pub open spec fn spec_handle(b: PrimsV, at: NodeV, bound: int) -> Option<Seq<GroupV>>
    decreases bound, 0int,
{
    if bound < 0 {
        None
    } else {
        match spec_find_match(b.prims, at, 0, bound) {
            Some(i) => if 0 <= i < bound && i < b.prims.len() {
                spec_handle_prim(b, b.prims[i], i)
            } else {
                None
            },
            None => {
                if at.from_pred == at.to_succ {
                    if b.temps.contains(at.from_pred) {
                        Some(Seq::empty())
                    } else {
                        Some(seq![GroupV::Block(at.from_pred)])
                    }
                } else {
                    None
                }
            },
        }
    }
}

/// The groups recovered by expanding one matched primitive at bound `i`.
pub open spec fn spec_handle_prim(b: PrimsV, p: PrimV, i: int) -> Option<Seq<GroupV>>
    decreases i, 1int,
{
    if i < 0 {
        None
    } else {
        match p {
            PrimV::PreconditionLoop { cond, body, exit } => {
                let c = spec_handle(b, cond, i);
                let bo = spec_handle(b, body, i);
                let e = spec_handle(b, exit, i);
                if c is Some && bo is Some && e is Some {
                    Some(
                        seq![
                            GroupV::PreconditionLoop {
                                cond: c.unwrap(),
                                body: bo.unwrap(),
                            },
                        ] + e.unwrap(),
                    )
                } else {
                    None
                }
            },
            PrimV::PostconditionLoop { cond, exit } => {
                let c = spec_handle(b, cond, i);
                let e = spec_handle(b, exit, i);
                if c is Some && e is Some {
                    Some(seq![GroupV::PostconditionLoop { cond: c.unwrap() }] + e.unwrap())
                } else {
                    None
                }
            },
            PrimV::OnewayConditional { cond, body, exit } => {
                let c = spec_handle(b, cond, i);
                let bo = spec_handle(b, body, i);
                let e = spec_handle(b, exit, i);
                if c is Some && c.unwrap().len() >= 1 && bo is Some && e is Some {
                    Some(
                        c.unwrap().drop_last() + seq![
                            GroupV::OnewayConditional {
                                cond: seq![c.unwrap().last()],
                                body: bo.unwrap(),
                            },
                        ] + e.unwrap(),
                    )
                } else {
                    None
                }
            },
            PrimV::OnewayReturnConditional { cond, body, exit } => {
                let c = spec_handle(b, cond, i);
                let bo = spec_handle(b, body, i);
                let e = spec_handle(b, exit, i);
                if c is Some && c.unwrap().len() >= 1 && bo is Some && e is Some {
                    Some(
                        c.unwrap().drop_last() + seq![
                            GroupV::OnewayReturnConditional {
                                cond: seq![c.unwrap().last()],
                                body: bo.unwrap(),
                            },
                        ] + e.unwrap(),
                    )
                } else {
                    None
                }
            },
            PrimV::TwowayConditional { cond, body_a, body_b, exit } => {
                let c = spec_handle(b, cond, i);
                let ba = spec_handle(b, body_a, i);
                let bb = spec_handle(b, body_b, i);
                let e = spec_handle(b, exit, i);
                if c is Some && c.unwrap().len() >= 1 && ba is Some && bb is Some && e is Some {
                    Some(
                        c.unwrap().drop_last() + seq![
                            GroupV::TwowayConditional {
                                cond: seq![c.unwrap().last()],
                                body_true: ba.unwrap(),
                                body_false: bb.unwrap(),
                            },
                        ] + e.unwrap(),
                    )
                } else {
                    None
                }
            },
            PrimV::StatementSequence { entry, exit } => {
                let en = spec_handle(b, entry, i);
                let e = spec_handle(b, exit, i);
                if en is Some && e is Some {
                    Some(en.unwrap() + e.unwrap())
                } else {
                    None
                }
            },
        }
    }
}

/// The whole recovery: expand the bundle's entry meta-node with every
/// recorded primitive available.
pub open spec fn spec_recover(b: PrimsV) -> Option<Seq<GroupV>> {
    spec_handle(b, b.entry, b.prims.len() as int)
}

/// `groups_view` maps the list elementwise.
pub proof fn lemma_groups_view(gs: Seq<CFRGroup>)
    ensures
        groups_view(gs).len() == gs.len(),
        forall|i: int| 0 <= i < gs.len() ==> groups_view(gs)[i] == gs[i]@,
    decreases gs.len(),
{
    if gs.len() > 0 {
        lemma_groups_view(gs.drop_last());
        assert(groups_view(gs) == groups_view(gs.drop_last()).push(gs.last()@));
        assert(groups_view(gs.drop_last()).len() == gs.len() - 1);
        assert forall|i: int| 0 <= i < gs.len() implies groups_view(gs)[i] == gs[i]@ by {
            if i < gs.len() - 1 {
                assert(gs.drop_last()[i] == gs[i]);
                assert(groups_view(gs.drop_last()).push(gs.last()@)[i] == groups_view(
                    gs.drop_last(),
                )[i]);
            } else {
                assert(groups_view(gs.drop_last()).push(gs.last()@)[i] == gs.last()@);
            }
        }
    }
}

impl CFRGroups {
    /// Recover the group tree of a finished reduction, or `None` when a
    /// meta-node cannot be explained by any recorded primitive.
    pub fn new(prims: &CFAPrims) -> (r: Option<CFRGroups>)
        ensures
            match r {
                Some(gs) => spec_recover(prims@) == Some(gs@),
                None => spec_recover(prims@) is None,
            },
    {
        let bound = prims.prims().len();
        Self::handle(prims, prims.entry(), bound)
    }

    /// Recover the groups standing for the meta-node `at`, consulting only
    /// the first `bound` recorded primitives.
    fn handle(prims: &CFAPrims, at: &CFGNode, bound: usize) -> (r: Option<CFRGroups>)
        requires
            bound <= prims@.prims.len(),
        ensures
            match r {
                Some(gs) => spec_handle(prims@, at@, bound as int) == Some(gs@),
                None => spec_handle(prims@, at@, bound as int) is None,
            },
        decreases bound, 0int,
    {
        proof {
            assert(eq_decides_view::<Name>());
        }
        let ghost b = prims@;
        let plist = prims.prims();
        let mut j: usize = 0;
        while j < bound
            invariant
                b == prims@,
                bound <= b.prims.len(),
                bound <= plist@.len(),
                plist@.len() == b.prims.len(),
                forall|k: int| 0 <= k < plist@.len() ==> plist@[k]@ == b.prims[k],
                j <= bound,
                spec_find_match(b.prims, at@, 0, bound as int) == spec_find_match(
                    b.prims,
                    at@,
                    j as int,
                    bound as int,
                ),
            decreases bound - j,
        {
            let prim = &plist[j];
            let pe = prim.entry();
            let px = prim.exit();
            if *pe.from_pred() == *at.from_pred() && *px.to_succ() == *at.to_succ() {
                proof {
                    assert(is_match(b.prims[j as int], at@));
                    assert(spec_find_match(b.prims, at@, j as int, bound as int) == Some(
                        j as int,
                    ));
                }
                return Self::handle_prim(prims, prim, j);
            }
            proof {
                assert(!is_match(b.prims[j as int], at@));
                assert(spec_find_match(b.prims, at@, j as int, bound as int) == spec_find_match(
                    b.prims,
                    at@,
                    j as int + 1,
                    bound as int,
                ));
            }
            j = j + 1;
        }
        proof {
            assert(spec_find_match(b.prims, at@, bound as int, bound as int) is None);
        }
        if *at.from_pred() == *at.to_succ() {
            if prims.temps().contains(at.from_pred()) {
                let r = CFRGroups { groups: Vec::new() };
                proof {
                    assert(r@ =~= Seq::<GroupV>::empty());
                }
                Some(r)
            } else {
                let mut gs: Vec<CFRGroup> = Vec::new();
                gs.push(CFRGroup::Block(at.from_pred().clone()));
                let r = CFRGroups { groups: gs };
                proof {
                    lemma_groups_view(r.groups@);
                    assert(r@ =~= seq![GroupV::Block(at@.from_pred)]);
                }
                Some(r)
            }
        } else {
            None
        }
    }

    /// Expand one matched primitive: recover each constituent meta-node
    /// with the primitives recorded before `i`, and assemble the group of
    /// the matching shape.
    #[verifier::rlimit(100)]
    fn handle_prim(prims: &CFAPrims, prim: &CFAPrim, i: usize) -> (r: Option<CFRGroups>)
        requires
            i <= prims@.prims.len(),
        ensures
            match r {
                Some(gs) => spec_handle_prim(prims@, prim@, i as int) == Some(gs@),
                None => spec_handle_prim(prims@, prim@, i as int) is None,
            },
        decreases i, 1int,
    {
        let ghost b = prims@;
        match prim {
            CFAPrim::PreconditionLoop(p) => {
                let c = match Self::handle(prims, &p.cond, i) {
                    Some(x) => x,
                    None => {
                        return None;
                    },
                };
                let bo = match Self::handle(prims, &p.body, i) {
                    Some(x) => x,
                    None => {
                        return None;
                    },
                };
                let mut e = match Self::handle(prims, &p.exit, i) {
                    Some(x) => x,
                    None => {
                        return None;
                    },
                };
                let ghost cv = c@;
                let ghost bov = bo@;
                let ghost ev = e@;
                let ghost evg = e.groups@;
                let mut groups: Vec<CFRGroup> = Vec::new();
                groups.push(CFRGroup::PreconditionLoop { cond: c, body: bo });
                groups.append(&mut e.groups);
                let r = CFRGroups { groups };
                proof {
                    lemma_groups_view(r.groups@);
                    lemma_groups_view(evg);
                    assert(r@ =~= seq![
                        GroupV::PreconditionLoop { cond: cv, body: bov },
                    ] + ev);
                }
                Some(r)
            },
            CFAPrim::PostconditionLoop(p) => {
                let c = match Self::handle(prims, &p.cond, i) {
                    Some(x) => x,
                    None => {
                        return None;
                    },
                };
                let mut e = match Self::handle(prims, &p.exit, i) {
                    Some(x) => x,
                    None => {
                        return None;
                    },
                };
                let ghost cv = c@;
                let ghost ev = e@;
                let ghost evg = e.groups@;
                let mut groups: Vec<CFRGroup> = Vec::new();
                groups.push(CFRGroup::PostconditionLoop { cond: c });
                groups.append(&mut e.groups);
                let r = CFRGroups { groups };
                proof {
                    lemma_groups_view(r.groups@);
                    lemma_groups_view(evg);
                    assert(r@ =~= seq![GroupV::PostconditionLoop { cond: cv }] + ev);
                }
                Some(r)
            },
            CFAPrim::OnewayConditional(p) => {
                let mut out = match Self::handle(prims, &p.cond, i) {
                    Some(x) => x,
                    None => {
                        return None;
                    },
                };
                let ghost cv = out@;
                let ghost cvg = out.groups@;
                proof {
                    lemma_groups_view(cvg);
                }
                let last = match out.groups.pop() {
                    Some(x) => x,
                    None => {
                        return None;
                    },
                };
                let bo = match Self::handle(prims, &p.body, i) {
                    Some(x) => x,
                    None => {
                        return None;
                    },
                };
                let mut e = match Self::handle(prims, &p.exit, i) {
                    Some(x) => x,
                    None => {
                        return None;
                    },
                };
                let ghost bov = bo@;
                let ghost ev = e@;
                let ghost evg = e.groups@;
                let mut cond_list: Vec<CFRGroup> = Vec::new();
                cond_list.push(last);
                let cond = CFRGroups { groups: cond_list };
                proof {
                    lemma_groups_view(cond.groups@);
                    assert(cond@ =~= seq![cv.last()]);
                }
                out.groups.push(CFRGroup::OnewayConditional { cond, body: bo });
                out.groups.append(&mut e.groups);
                let r = CFRGroups { groups: out.groups };
                proof {
                    lemma_groups_view(r.groups@);
                    lemma_groups_view(evg);
                    lemma_groups_view(cvg.drop_last());
                    assert(forall|k: int|
                        0 <= k < cvg.len() - 1 ==> cvg.drop_last()[k] == cvg[k]);
                    assert(r@ =~= cv.drop_last() + seq![
                        GroupV::OnewayConditional { cond: seq![cv.last()], body: bov },
                    ] + ev);
                }
                Some(r)
            },
            CFAPrim::OnewayReturnConditional(p) => {
                let mut out = match Self::handle(prims, &p.cond, i) {
                    Some(x) => x,
                    None => {
                        return None;
                    },
                };
                let ghost cv = out@;
                let ghost cvg = out.groups@;
                proof {
                    lemma_groups_view(cvg);
                }
                let last = match out.groups.pop() {
                    Some(x) => x,
                    None => {
                        return None;
                    },
                };
                let bo = match Self::handle(prims, &p.body, i) {
                    Some(x) => x,
                    None => {
                        return None;
                    },
                };
                let mut e = match Self::handle(prims, &p.exit, i) {
                    Some(x) => x,
                    None => {
                        return None;
                    },
                };
                let ghost bov = bo@;
                let ghost ev = e@;
                let ghost evg = e.groups@;
                let mut cond_list: Vec<CFRGroup> = Vec::new();
                cond_list.push(last);
                let cond = CFRGroups { groups: cond_list };
                proof {
                    lemma_groups_view(cond.groups@);
                    assert(cond@ =~= seq![cv.last()]);
                }
                out.groups.push(CFRGroup::OnewayReturnConditional { cond, body: bo });
                out.groups.append(&mut e.groups);
                let r = CFRGroups { groups: out.groups };
                proof {
                    lemma_groups_view(r.groups@);
                    lemma_groups_view(evg);
                    lemma_groups_view(cvg.drop_last());
                    assert(forall|k: int|
                        0 <= k < cvg.len() - 1 ==> cvg.drop_last()[k] == cvg[k]);
                    assert(r@ =~= cv.drop_last() + seq![
                        GroupV::OnewayReturnConditional { cond: seq![cv.last()], body: bov },
                    ] + ev);
                }
                Some(r)
            },
            CFAPrim::TwowayConditional(p) => {
                let mut out = match Self::handle(prims, &p.cond, i) {
                    Some(x) => x,
                    None => {
                        return None;
                    },
                };
                let ghost cv = out@;
                let ghost cvg = out.groups@;
                proof {
                    lemma_groups_view(cvg);
                }
                let last = match out.groups.pop() {
                    Some(x) => x,
                    None => {
                        return None;
                    },
                };
                let ba = match Self::handle(prims, &p.body_a, i) {
                    Some(x) => x,
                    None => {
                        return None;
                    },
                };
                let bb = match Self::handle(prims, &p.body_b, i) {
                    Some(x) => x,
                    None => {
                        return None;
                    },
                };
                let mut e = match Self::handle(prims, &p.exit, i) {
                    Some(x) => x,
                    None => {
                        return None;
                    },
                };
                let ghost bav = ba@;
                let ghost bbv = bb@;
                let ghost ev = e@;
                let ghost evg = e.groups@;
                let mut cond_list: Vec<CFRGroup> = Vec::new();
                cond_list.push(last);
                let cond = CFRGroups { groups: cond_list };
                proof {
                    lemma_groups_view(cond.groups@);
                    assert(cond@ =~= seq![cv.last()]);
                }
                out.groups.push(
                    CFRGroup::TwowayConditional { cond, body_true: ba, body_false: bb },
                );
                out.groups.append(&mut e.groups);
                let r = CFRGroups { groups: out.groups };
                proof {
                    lemma_groups_view(r.groups@);
                    lemma_groups_view(evg);
                    lemma_groups_view(cvg.drop_last());
                    assert(forall|k: int|
                        0 <= k < cvg.len() - 1 ==> cvg.drop_last()[k] == cvg[k]);
                    assert(r@ =~= cv.drop_last() + seq![
                        GroupV::TwowayConditional {
                            cond: seq![cv.last()],
                            body_true: bav,
                            body_false: bbv,
                        },
                    ] + ev);
                }
                Some(r)
            },
            CFAPrim::StatementSequence(p) => {
                let mut out = match Self::handle(prims, &p.entry, i) {
                    Some(x) => x,
                    None => {
                        return None;
                    },
                };
                let ghost cv = out@;
                let ghost cvg = out.groups@;
                let mut e = match Self::handle(prims, &p.exit, i) {
                    Some(x) => x,
                    None => {
                        return None;
                    },
                };
                let ghost ev = e@;
                let ghost evg = e.groups@;
                out.groups.append(&mut e.groups);
                let r = CFRGroups { groups: out.groups };
                proof {
                    lemma_groups_view(r.groups@);
                    lemma_groups_view(cvg);
                    lemma_groups_view(evg);
                    assert(r@ =~= cv + ev);
                }
                Some(r)
            },
        }
    }
}

} // verus!
