use vstd::prelude::*;

use crate::cfa::PrimV;
use crate::cfa::hygiene_ok;
use crate::cfa::spec_fixup;
use crate::cfg::CFGNode;
use crate::cfg::CfgV;
use crate::cfg::ControlFlowGraph;
use crate::cfg::NodeV;
use crate::cfg::cfg_wf;
use crate::cfg::spec_dominates;
use crate::util::unique_vec::eq_decides_view;

verus! {

/// Whether `entry` and `exit` form a straight-line sequence in `g`:
/// `entry`'s only way out is `exit`, and `entry` dominates it. The exit
/// may have further predecessors; the fix-up regularises that before
/// merging.
pub open spec fn valid(g: CfgV, entry: NodeV, exit: NodeV) -> bool {
    &&& hygiene_ok(g, entry, exit)
    &&& spec_dominates(g, entry, exit)
    &&& g.succs_of(entry).len() == 1
    &&& g.succs_of(entry).contains(exit)
}

/// The first sequence at or after position `i` of the node list.
pub open spec fn spec_find_from(g: CfgV, i: int) -> Option<PrimV>
    decreases g.nodes.len() - i,
{
    if i < 0 || i >= g.nodes.len() {
        None
    } else {
        let entry = g.nodes[i];
        let ss = g.succs_of(entry);
        if ss.len() == 1 && valid(g, entry, ss[0]) {
            Some(PrimV::StatementSequence { entry, exit: ss[0] })
        } else {
            spec_find_from(g, i + 1)
        }
    }
}

/// The first sequence of `g`, in node insertion order.
pub open spec fn spec_find(g: CfgV) -> Option<PrimV> {
    spec_find_from(g, 0)
}

/// Two blocks in a row: `entry` always continues at `exit`.
#[derive(Debug)]
pub struct CFAStatementSequence {
    pub entry: CFGNode,
    pub exit: CFGNode,
}

impl View for CFAStatementSequence {
    type V = PrimV;

    open spec fn view(&self) -> PrimV {
        PrimV::StatementSequence { entry: self.entry@, exit: self.exit@ }
    }
}

impl CFAStatementSequence {
    fn is_valid(cfg: &ControlFlowGraph, entry: &CFGNode, exit: &CFGNode) -> (r: bool)
        requires
            cfg.inv(),
            cfg_wf(cfg@),
        ensures
            r == valid(cfg@, entry@, exit@),
    {
        proof {
            assert(eq_decides_view::<crate::cfg::Name>());
            assert(eq_decides_view::<CFGNode>());
        }
        if cfg.temps().contains(entry.to_succ()) {
            return false;
        }
        if cfg.temps().contains(exit.from_pred()) {
            return false;
        }
        if !cfg.dominates(entry, exit) {
            return false;
        }
        let entry_succs = match cfg.succs(entry) {
            Some(l) => l,
            None => {
                return false;
            },
        };
        if entry_succs.len() != 1 {
            return false;
        }
        if !entry_succs.contains(exit) {
            return false;
        }
        true
    }

    /// Find the first sequence of `cfg`, scanning nodes in insertion order.
    pub fn find_first(cfg: &ControlFlowGraph) -> (r: Option<Self>)
        requires
            cfg.inv(),
            cfg_wf(cfg@),
        ensures
            match r {
                Some(p) => spec_find(cfg@) == Some(p@),
                None => spec_find(cfg@) is None,
            },
    {
        let ghost g = cfg@;
        let ns = cfg.nodes().iter();
        let n = ns.len();
        let mut i: usize = 0;
        while i < n
            invariant
                cfg.inv(),
                cfg_wf(g),
                g == cfg@,
                n == g.nodes.len(),
                n == ns@.len(),
                forall|j: int| 0 <= j < n ==> ns@[j]@ == g.nodes[j],
                i <= n,
                spec_find_from(g, 0) == spec_find_from(g, i as int),
            decreases n - i,
        {
            let entry = &ns[i];
            if let Some(l) = cfg.succs(entry) {
                if l.len() == 1 {
                    let items = l.iter();
                    let exit = &items[0];
                    proof {
                        assert(exit@ == g.succs_of(entry@)[0]);
                    }
                    if Self::is_valid(cfg, entry, exit) {
                        return Some(
                            CFAStatementSequence { entry: entry.clone(), exit: exit.clone() },
                        );
                    }
                }
            }
            proof {
                assert(spec_find_from(g, i as int) == spec_find_from(g, i as int + 1));
            }
            i = i + 1;
        }
        None
    }

    /// Splice a temporary in front of the exit when the exit has extra
    /// predecessors, so the merge that follows leaves a single clean exit.
    pub(crate) fn insert_needed_node(&mut self, cfg: &mut ControlFlowGraph)
        requires
            old(cfg).inv(),
        ensures
            final(cfg).inv(),
            (final(self)@, final(cfg)@) == spec_fixup(old(self)@, old(cfg)@),
            cfg_wf(old(cfg)@) ==> cfg_wf(final(cfg)@),
    {
        let preds_n = match cfg.preds(&self.exit) {
            Some(l) => l.len(),
            None => 0,
        };
        if preds_n != 1 {
            let temporary = cfg.create_temporary_node();
            let tnode = CFGNode::from_name(&temporary);
            cfg.insert_node(&tnode, &self.entry, &self.exit);
            self.exit = tnode;
        }
    }
}

} // verus!
