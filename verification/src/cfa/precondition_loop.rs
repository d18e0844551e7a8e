use vstd::prelude::*;

use crate::cfa::PrimV;
use crate::cfa::hygiene_ok;
use crate::cfa::spec_fixup;
use crate::cfg::CFGNode;
use crate::cfg::CfgV;
use crate::cfg::ControlFlowGraph;
use crate::cfg::NodeV;
use crate::cfg::cfg_wf;
use crate::cfg::spec_dominates;
use crate::util::unique_vec::eq_decides_view;

verus! {

/// Whether `cond`, `body` and `exit` form a precondition loop in `g`:
/// `cond` branches to the loop body or past the loop, and the body comes
/// back to `cond` and is entered from nowhere else. `cond` must dominate
/// the other constituents, so a deceptive shape reachable around its head
/// is rejected.
pub open spec fn valid(g: CfgV, cond: NodeV, body: NodeV, exit: NodeV) -> bool {
    &&& hygiene_ok(g, cond, exit)
    &&& spec_dominates(g, cond, body)
    &&& spec_dominates(g, cond, exit)
    &&& g.succs_of(cond).len() == 2
    &&& g.succs_of(cond).contains(body)
    &&& g.succs_of(cond).contains(exit)
    &&& g.preds_of(body).len() == 1
    &&& g.succs_of(body).len() == 1
    &&& g.succs_of(body).contains(cond)
}

/// The first precondition loop at or after position `i` of the node list,
/// trying the two successors of a candidate in both roles, list order first.
pub open spec fn spec_find_from(g: CfgV, i: int) -> Option<PrimV>
    decreases g.nodes.len() - i,
{
    if i < 0 || i >= g.nodes.len() {
        None
    } else {
        let cond = g.nodes[i];
        let ss = g.succs_of(cond);
        if ss.len() == 2 && valid(g, cond, ss[0], ss[1]) {
            Some(PrimV::PreconditionLoop { cond, body: ss[0], exit: ss[1] })
        } else if ss.len() == 2 && valid(g, cond, ss[1], ss[0]) {
            Some(PrimV::PreconditionLoop { cond, body: ss[1], exit: ss[0] })
        } else {
            spec_find_from(g, i + 1)
        }
    }
}

/// The first precondition loop of `g`, in node insertion order.
pub open spec fn spec_find(g: CfgV) -> Option<PrimV> {
    spec_find_from(g, 0)
}

/// A `while` loop: `cond` decides between one more round of `body` and
/// going on to `exit`.
#[derive(Debug)]
pub struct CFAPreconditionLoop {
    pub cond: CFGNode,
    pub body: CFGNode,
    pub exit: CFGNode,
}

impl View for CFAPreconditionLoop {
    type V = PrimV;

    open spec fn view(&self) -> PrimV {
        PrimV::PreconditionLoop { cond: self.cond@, body: self.body@, exit: self.exit@ }
    }
}

impl CFAPreconditionLoop {
    fn is_valid(cfg: &ControlFlowGraph, cond: &CFGNode, body: &CFGNode, exit: &CFGNode) -> (r:
        bool)
        requires
            cfg.inv(),
            cfg_wf(cfg@),
        ensures
            r == valid(cfg@, cond@, body@, exit@),
    {
        proof {
            assert(eq_decides_view::<crate::cfg::Name>());
            assert(eq_decides_view::<CFGNode>());
        }
        if cfg.temps().contains(cond.to_succ()) {
            return false;
        }
        if cfg.temps().contains(exit.from_pred()) {
            return false;
        }
        if !cfg.dominates(cond, body) {
            return false;
        }
        if !cfg.dominates(cond, exit) {
            return false;
        }
        let cond_succs = match cfg.succs(cond) {
            Some(l) => l,
            None => {
                return false;
            },
        };
        if cond_succs.len() != 2 {
            return false;
        }
        if !cond_succs.contains(body) {
            return false;
        }
        if !cond_succs.contains(exit) {
            return false;
        }
        let body_preds = match cfg.preds(body) {
            Some(l) => l,
            None => {
                return false;
            },
        };
        if body_preds.len() != 1 {
            return false;
        }
        let body_succs = match cfg.succs(body) {
            Some(l) => l,
            None => {
                return false;
            },
        };
        if body_succs.len() != 1 {
            return false;
        }
        if !body_succs.contains(cond) {
            return false;
        }
        true
    }

    /// Find the first precondition loop of `cfg`, scanning nodes in
    /// insertion order.
    pub fn find_first(cfg: &ControlFlowGraph) -> (r: Option<Self>)
        requires
            cfg.inv(),
            cfg_wf(cfg@),
        ensures
            match r {
                Some(p) => spec_find(cfg@) == Some(p@),
                None => spec_find(cfg@) is None,
            },
    {
        let ghost g = cfg@;
        let ns = cfg.nodes().iter();
        let n = ns.len();
        let mut i: usize = 0;
        while i < n
            invariant
                cfg.inv(),
                cfg_wf(g),
                g == cfg@,
                n == g.nodes.len(),
                n == ns@.len(),
                forall|j: int| 0 <= j < n ==> ns@[j]@ == g.nodes[j],
                i <= n,
                spec_find_from(g, 0) == spec_find_from(g, i as int),
            decreases n - i,
        {
            let cond = &ns[i];
            if let Some(l) = cfg.succs(cond) {
                if l.len() == 2 {
                    let items = l.iter();
                    let a = &items[0];
                    let b = &items[1];
                    proof {
                        assert(a@ == g.succs_of(cond@)[0]);
                        assert(b@ == g.succs_of(cond@)[1]);
                    }
                    if Self::is_valid(cfg, cond, a, b) {
                        return Some(
                            CFAPreconditionLoop {
                                cond: cond.clone(),
                                body: a.clone(),
                                exit: b.clone(),
                            },
                        );
                    }
                    if Self::is_valid(cfg, cond, b, a) {
                        return Some(
                            CFAPreconditionLoop {
                                cond: cond.clone(),
                                body: b.clone(),
                                exit: a.clone(),
                            },
                        );
                    }
                }
            }
            proof {
                assert(spec_find_from(g, i as int) == spec_find_from(g, i as int + 1));
            }
            i = i + 1;
        }
        None
    }

    /// Splice a temporary in front of the exit when the exit has extra
    /// predecessors, so the merge that follows leaves a single clean exit.
    pub(crate) fn insert_needed_node(&mut self, cfg: &mut ControlFlowGraph)
        requires
            old(cfg).inv(),
        ensures
            final(cfg).inv(),
            (final(self)@, final(cfg)@) == spec_fixup(old(self)@, old(cfg)@),
            cfg_wf(old(cfg)@) ==> cfg_wf(final(cfg)@),
    {
        let preds_n = match cfg.preds(&self.exit) {
            Some(l) => l.len(),
            None => 0,
        };
        if preds_n != 1 {
            let temporary = cfg.create_temporary_node();
            let tnode = CFGNode::from_name(&temporary);
            cfg.insert_node(&tnode, &self.cond, &self.exit);
            self.exit = tnode;
        }
    }
}

} // verus!
