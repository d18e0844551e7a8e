use vstd::prelude::*;

use crate::cfa::PrimV;
use crate::cfa::hygiene_ok;
use crate::cfa::spec_fixup;
use crate::cfg::CFGNode;
use crate::cfg::CfgV;
use crate::cfg::ControlFlowGraph;
use crate::cfg::NodeV;
use crate::cfa::oneway_conditional::preds_regular;
use crate::cfg::cfg_wf;
use crate::cfg::spec_dominates;
use crate::util::unique_vec::eq_decides_view;

verus! {

/// Whether `cond`, `body_a`, `body_b` and `exit` form a two-way conditional
/// in `g`: `cond` enters one of the two bodies and both fall through to the
/// same `exit`. `cond` must dominate the other constituents and be
/// regularly entered.
pub open spec fn valid(g: CfgV, cond: NodeV, body_a: NodeV, body_b: NodeV, exit: NodeV) -> bool {
    &&& hygiene_ok(g, cond, exit)
    &&& spec_dominates(g, cond, body_a)
    &&& spec_dominates(g, cond, body_b)
    &&& spec_dominates(g, cond, exit)
    &&& preds_regular(g, cond)
    &&& g.succs_of(cond).len() == 2
    &&& g.succs_of(cond).contains(body_a)
    &&& g.succs_of(cond).contains(body_b)
    &&& g.preds_of(body_a).len() == 1
    &&& g.succs_of(body_a).len() == 1
    &&& g.succs_of(body_a).contains(exit)
    &&& g.preds_of(body_b).len() == 1
    &&& g.succs_of(body_b).len() == 1
    &&& g.succs_of(body_b).contains(exit)
}

/// The first two-way conditional at or after position `i` of the node list.
/// The bodies are taken in successor-list order and the exit is the sole
/// successor of the first body; the roles are not swapped, as the shape is
/// symmetric under the remaining checks.
pub open spec fn spec_find_from(g: CfgV, i: int) -> Option<PrimV>
    decreases g.nodes.len() - i,
{
    if i < 0 || i >= g.nodes.len() {
        None
    } else {
        let cond = g.nodes[i];
        let ss = g.succs_of(cond);
        if ss.len() == 2 && g.succs_of(ss[0]).len() == 1 && valid(
            g,
            cond,
            ss[0],
            ss[1],
            g.succs_of(ss[0])[0],
        ) {
            Some(
                PrimV::TwowayConditional {
                    cond,
                    body_a: ss[0],
                    body_b: ss[1],
                    exit: g.succs_of(ss[0])[0],
                },
            )
        } else {
            spec_find_from(g, i + 1)
        }
    }
}

/// The first two-way conditional of `g`, in node insertion order.
pub open spec fn spec_find(g: CfgV) -> Option<PrimV> {
    spec_find_from(g, 0)
}

/// An `if`/`else`: `cond` enters exactly one of `body_a` and `body_b`, and
/// both continue at `exit`.
#[derive(Debug)]
pub struct CFATwowayConditional {
    pub cond: CFGNode,
    pub body_a: CFGNode,
    pub body_b: CFGNode,
    pub exit: CFGNode,
}

impl View for CFATwowayConditional {
    type V = PrimV;

    open spec fn view(&self) -> PrimV {
        PrimV::TwowayConditional {
            cond: self.cond@,
            body_a: self.body_a@,
            body_b: self.body_b@,
            exit: self.exit@,
        }
    }
}

impl CFATwowayConditional {
    fn is_valid(
        cfg: &ControlFlowGraph,
        cond: &CFGNode,
        body_a: &CFGNode,
        body_b: &CFGNode,
        exit: &CFGNode,
    ) -> (r: bool)
        requires
            cfg.inv(),
            cfg_wf(cfg@),
        ensures
            r == valid(cfg@, cond@, body_a@, body_b@, exit@),
    {
        proof {
            assert(eq_decides_view::<crate::cfg::Name>());
            assert(eq_decides_view::<CFGNode>());
        }
        let ghost g = cfg@;
        if cfg.temps().contains(cond.to_succ()) {
            return false;
        }
        if cfg.temps().contains(exit.from_pred()) {
            return false;
        }
        if !cfg.dominates(cond, body_a) {
            return false;
        }
        if !cfg.dominates(cond, body_b) {
            return false;
        }
        if !cfg.dominates(cond, exit) {
            return false;
        }
        if let Some(cond_preds) = cfg.preds(cond) {
            let items = cond_preds.iter();
            let m = items.len();
            let mut j: usize = 0;
            while j < m
                invariant
                    cfg.inv(),
                    cfg_wf(g),
                    g == cfg@,
                    m == g.preds_of(cond@).len(),
                    m == items@.len(),
                    forall|k: int| 0 <= k < m ==> items@[k]@ == g.preds_of(cond@)[k],
                    j <= m,
                    forall|k: int| 0 <= k < j ==> spec_dominates(g, g.preds_of(cond@)[k], cond@),
                decreases m - j,
            {
                if !cfg.dominates(&items[j], cond) {
                    proof {
                        assert(!spec_dominates(g, g.preds_of(cond@)[j as int], cond@));
                        assert(!preds_regular(g, cond@));
                    }
                    return false;
                }
                j = j + 1;
            }
        }
        let cond_succs = match cfg.succs(cond) {
            Some(l) => l,
            None => {
                return false;
            },
        };
        if cond_succs.len() != 2 {
            return false;
        }
        if !cond_succs.contains(body_a) {
            return false;
        }
        if !cond_succs.contains(body_b) {
            return false;
        }
        let body_a_preds = match cfg.preds(body_a) {
            Some(l) => l,
            None => {
                return false;
            },
        };
        if body_a_preds.len() != 1 {
            return false;
        }
        let body_a_succs = match cfg.succs(body_a) {
            Some(l) => l,
            None => {
                return false;
            },
        };
        if body_a_succs.len() != 1 {
            return false;
        }
        if !body_a_succs.contains(exit) {
            return false;
        }
        let body_b_preds = match cfg.preds(body_b) {
            Some(l) => l,
            None => {
                return false;
            },
        };
        if body_b_preds.len() != 1 {
            return false;
        }
        let body_b_succs = match cfg.succs(body_b) {
            Some(l) => l,
            None => {
                return false;
            },
        };
        if body_b_succs.len() != 1 {
            return false;
        }
        if !body_b_succs.contains(exit) {
            return false;
        }
        true
    }

    /// Find the first two-way conditional of `cfg`, scanning nodes in
    /// insertion order.
    pub fn find_first(cfg: &ControlFlowGraph) -> (r: Option<Self>)
        requires
            cfg.inv(),
            cfg_wf(cfg@),
        ensures
            match r {
                Some(p) => spec_find(cfg@) == Some(p@),
                None => spec_find(cfg@) is None,
            },
    {
        let ghost g = cfg@;
        let ns = cfg.nodes().iter();
        let n = ns.len();
        let mut i: usize = 0;
        while i < n
            invariant
                cfg.inv(),
                cfg_wf(g),
                g == cfg@,
                n == g.nodes.len(),
                n == ns@.len(),
                forall|j: int| 0 <= j < n ==> ns@[j]@ == g.nodes[j],
                i <= n,
                spec_find_from(g, 0) == spec_find_from(g, i as int),
            decreases n - i,
        {
            let cond = &ns[i];
            if let Some(l) = cfg.succs(cond) {
                if l.len() == 2 {
                    let items = l.iter();
                    let body_a = &items[0];
                    let body_b = &items[1];
                    proof {
                        assert(body_a@ == g.succs_of(cond@)[0]);
                        assert(body_b@ == g.succs_of(cond@)[1]);
                    }
                    if let Some(la) = cfg.succs(body_a) {
                        if la.len() == 1 {
                            let a_items = la.iter();
                            let exit = &a_items[0];
                            proof {
                                assert(exit@ == g.succs_of(body_a@)[0]);
                            }
                            if Self::is_valid(cfg, cond, body_a, body_b, exit) {
                                return Some(
                                    CFATwowayConditional {
                                        cond: cond.clone(),
                                        body_a: body_a.clone(),
                                        body_b: body_b.clone(),
                                        exit: exit.clone(),
                                    },
                                );
                            }
                        }
                    }
                }
            }
            proof {
                assert(spec_find_from(g, i as int) == spec_find_from(g, i as int + 1));
            }
            i = i + 1;
        }
        None
    }

    /// Splice a temporary in front of the exit when the exit has extra
    /// predecessors, rerouting both body edges through it.
    pub(crate) fn insert_needed_node(&mut self, cfg: &mut ControlFlowGraph)
        requires
            old(cfg).inv(),
        ensures
            final(cfg).inv(),
            (final(self)@, final(cfg)@) == spec_fixup(old(self)@, old(cfg)@),
            cfg_wf(old(cfg)@) ==> cfg_wf(final(cfg)@),
    {
        let preds_n = match cfg.preds(&self.exit) {
            Some(l) => l.len(),
            None => 0,
        };
        if preds_n != 2 {
            let temporary = cfg.create_temporary_node();
            let tnode = CFGNode::from_name(&temporary);
            cfg.insert_node(&tnode, &self.body_a, &self.exit);
            cfg.insert_node(&tnode, &self.body_b, &self.exit);
            self.exit = tnode;
        }
    }
}

} // verus!
