use vstd::prelude::*;

use crate::cfa::CFAPrim;
use crate::cfa::PrimV;
use crate::cfa::prim_entry;
use crate::cfa::prim_exit;
use crate::cfa::prim_nodes;
use crate::cfa::spec_fixup;
use crate::cfg::CFGNode;
use crate::cfg::CfgV;
use crate::cfg::ControlFlowGraph;
use crate::cfg::NodeV;
use crate::cfg::cfg_wf;
use crate::cfg::spec_add_edge;
use crate::cfg::spec_remove_node;
use crate::util::unique_vec::UniqueVec;
use crate::util::unique_vec::clone_keeps_view;

verus! {

/// The graph with every node of `ns` erased, first to last.
pub open spec fn spec_remove_list(g: CfgV, ns: Seq<NodeV>) -> CfgV
    decreases ns.len(),
{
    if ns.len() == 0 {
        g
    } else {
        spec_remove_list(spec_remove_node(g, ns[0]), ns.drop_first())
    }
}

/// Remembered edges into the collapsed region are rerouted to the
/// meta-node: each predecessor that is not itself a member of the region
/// gets an edge to `meta`.
pub open spec fn spec_link_preds(g: CfgV, ps: Seq<NodeV>, members: Seq<NodeV>, meta: NodeV) -> CfgV
    decreases ps.len(),
{
    if ps.len() == 0 {
        g
    } else {
        let g1 = if members.contains(ps[0]) {
            g
        } else {
            spec_add_edge(g, ps[0], meta)
        };
        spec_link_preds(g1, ps.drop_first(), members, meta)
    }
}

/// Remembered edges out of the collapsed region are rerouted to leave the
/// meta-node.
pub open spec fn spec_link_succs(g: CfgV, ss: Seq<NodeV>, members: Seq<NodeV>, meta: NodeV) -> CfgV
    decreases ss.len(),
{
    if ss.len() == 0 {
        g
    } else {
        let g1 = if members.contains(ss[0]) {
            g
        } else {
            spec_add_edge(g, meta, ss[0])
        };
        spec_link_succs(g1, ss.drop_first(), members, meta)
    }
}

/// The meta-node a primitive collapses to: the region's entry name paired
/// with its exit name.
pub open spec fn merge_meta(p: PrimV) -> NodeV {
    NodeV { from_pred: prim_entry(p).from_pred, to_succ: prim_exit(p).to_succ }
}

/// The graph after collapsing the (already fixed-up) primitive `p`: the
/// member nodes disappear, the meta-node takes over their edges to and from
/// the rest of the graph, and the entry moves to the meta-node when the
/// region held it. Edges internal to the region are discarded.
pub open spec fn spec_merge_prim(p: PrimV, g: CfgV) -> CfgV {
    let entry = prim_entry(p);
    let exit = prim_exit(p);
    let ns = prim_nodes(p);
    let meta = merge_meta(p);
    let g1 = spec_remove_list(g, ns);
    let g2 = spec_link_preds(g1, g.preds_of(entry), ns, meta);
    let g3 = spec_link_succs(g2, g.succs_of(exit), ns, meta);
    if entry == g.entry {
        CfgV {
            entry: meta,
            nodes: g3.nodes,
            preds: g3.preds,
            succs: g3.succs,
            temps: g3.temps,
            next_temp: g3.next_temp,
        }
    } else {
        g3
    }
}

/// One whole reduction step: fix up the exit, then collapse the shape.
pub open spec fn spec_step(p: PrimV, g: CfgV) -> (PrimV, CfgV) {
    let (p2, g2) = spec_fixup(p, g);
    (p2, spec_merge_prim(p2, g2))
}

fn contains_node(nodes: &Vec<&CFGNode>, x: &CFGNode) -> (r: bool)
    ensures
        r == (exists|i: int| 0 <= i < nodes@.len() && (#[trigger] nodes@[i])@ == x@),
{
    let n = nodes.len();
    let mut i: usize = 0;
    while i < n
        invariant
            n == nodes@.len(),
            i <= n,
            forall|j: int| 0 <= j < i ==> (#[trigger] nodes@[j])@ != x@,
        decreases n - i,
    {
        if *nodes[i] == *x {
            return true;
        }
        i = i + 1;
    }
    false
}

/// Collapse the already fixed-up shape `p` on `cfg`. `entry`, `exit` and
/// `nodes` carry the shape's member nodes.
#[verifier::rlimit(100)]
fn collapse(
    cfg: &mut ControlFlowGraph,
    entry: &CFGNode,
    exit: &CFGNode,
    nodes: &Vec<&CFGNode>,
    Ghost(p2): Ghost<PrimV>,
)
    requires
        old(cfg).inv(),
        entry@ == prim_entry(p2),
        exit@ == prim_exit(p2),
        nodes@.len() == prim_nodes(p2).len(),
        forall|i: int| 0 <= i < nodes@.len() ==> (#[trigger] nodes@[i])@ == prim_nodes(p2)[i],
    ensures
        final(cfg).inv(),
        final(cfg)@ == spec_merge_prim(p2, old(cfg)@),
        cfg_wf(old(cfg)@) ==> cfg_wf(final(cfg)@),
{
    let ghost gmid = cfg@;
    let ghost ns = prim_nodes(p2);
    proof {
        assert(clone_keeps_view::<CFGNode>());
    }

    let is_root_node = *entry == *cfg.entry();

    let entry_preds: Option<UniqueVec<CFGNode>> = match cfg.preds(entry) {
        Some(l) => Some(l.clone()),
        None => None,
    };
    let exit_succs: Option<UniqueVec<CFGNode>> = match cfg.succs(exit) {
        Some(l) => Some(l.clone()),
        None => None,
    };
    let ghost epsv = gmid.preds_of(entry@);
    let ghost essv = gmid.succs_of(exit@);

    let n = nodes.len();
    let mut i: usize = 0;
    proof {
        assert(ns.skip(0) =~= ns);
    }
    while i < n
        invariant
            cfg.inv(),
            n == ns.len(),
            n == nodes@.len(),
            forall|j: int| 0 <= j < n ==> (#[trigger] nodes@[j])@ == ns[j],
            i <= n,
            spec_remove_list(cfg@, ns.skip(i as int)) == spec_remove_list(gmid, ns),
            cfg_wf(gmid) ==> cfg_wf(cfg@),
        decreases n - i,
    {
        cfg.remove_node(nodes[i]);
        proof {
            assert(ns.skip(i as int)[0] == ns[i as int]);
            assert(ns.skip(i as int).drop_first() =~= ns.skip(i as int + 1));
        }
        i = i + 1;
    }
    proof {
        assert(ns.skip(n as int) =~= Seq::<NodeV>::empty());
        assert(cfg@ == spec_remove_list(gmid, ns));
    }

    let new_node = CFGNode::new(entry.from_pred().clone(), exit.to_succ().clone());
    proof {
        assert(new_node@ == merge_meta(p2));
    }

    let ghost g1 = cfg@;
    match &entry_preds {
        Some(eps) => {
            let items = eps.iter();
            let m = items.len();
            let mut j: usize = 0;
            proof {
                assert(epsv.skip(0) =~= epsv);
            }
            while j < m
                invariant
                    cfg.inv(),
                    m == epsv.len(),
                    m == items@.len(),
                    forall|k: int| 0 <= k < m ==> items@[k]@ == epsv[k],
                    n == nodes@.len(),
                    n == ns.len(),
                    forall|k: int| 0 <= k < n ==> (#[trigger] nodes@[k])@ == ns[k],
                    new_node@ == merge_meta(p2),
                    j <= m,
                    spec_link_preds(cfg@, epsv.skip(j as int), ns, new_node@) == spec_link_preds(
                        g1,
                        epsv,
                        ns,
                        new_node@,
                    ),
                    cfg_wf(gmid) ==> cfg_wf(cfg@),
                decreases m - j,
            {
                let p_node = &items[j];
                proof {
                    assert(p_node@ == epsv[j as int]);
                    assert((exists|k: int|
                        0 <= k < nodes@.len() && (#[trigger] nodes@[k])@ == p_node@)
                        == ns.contains(p_node@)) by {
                        if exists|k: int|
                            0 <= k < nodes@.len() && (#[trigger] nodes@[k])@ == p_node@ {
                            let k = choose|k: int|
                                0 <= k < nodes@.len() && (#[trigger] nodes@[k])@ == p_node@;
                            assert(ns[k] == p_node@);
                        }
                        if ns.contains(p_node@) {
                            let k = choose|k: int| 0 <= k < ns.len() && ns[k] == p_node@;
                            assert(nodes@[k]@ == p_node@);
                        }
                    }
                }
                if !contains_node(nodes, p_node) {
                    cfg.add_edge(p_node, &new_node);
                }
                proof {
                    assert(epsv.skip(j as int)[0] == epsv[j as int]);
                    assert(epsv.skip(j as int).drop_first() =~= epsv.skip(j as int + 1));
                }
                j = j + 1;
            }
            proof {
                assert(epsv.skip(m as int) =~= Seq::<NodeV>::empty());
            }
        },
        None => {
            proof {
                assert(epsv =~= Seq::<NodeV>::empty());
            }
        },
    }
    proof {
        assert(cfg@ == spec_link_preds(g1, epsv, ns, new_node@));
    }

    let ghost g2 = cfg@;
    match &exit_succs {
        Some(ess) => {
            let items = ess.iter();
            let m = items.len();
            let mut j: usize = 0;
            proof {
                assert(essv.skip(0) =~= essv);
            }
            while j < m
                invariant
                    cfg.inv(),
                    m == essv.len(),
                    m == items@.len(),
                    forall|k: int| 0 <= k < m ==> items@[k]@ == essv[k],
                    n == nodes@.len(),
                    n == ns.len(),
                    forall|k: int| 0 <= k < n ==> (#[trigger] nodes@[k])@ == ns[k],
                    new_node@ == merge_meta(p2),
                    j <= m,
                    spec_link_succs(cfg@, essv.skip(j as int), ns, new_node@) == spec_link_succs(
                        g2,
                        essv,
                        ns,
                        new_node@,
                    ),
                    cfg_wf(gmid) ==> cfg_wf(cfg@),
                decreases m - j,
            {
                let s_node = &items[j];
                proof {
                    assert(s_node@ == essv[j as int]);
                    assert((exists|k: int|
                        0 <= k < nodes@.len() && (#[trigger] nodes@[k])@ == s_node@)
                        == ns.contains(s_node@)) by {
                        if exists|k: int|
                            0 <= k < nodes@.len() && (#[trigger] nodes@[k])@ == s_node@ {
                            let k = choose|k: int|
                                0 <= k < nodes@.len() && (#[trigger] nodes@[k])@ == s_node@;
                            assert(ns[k] == s_node@);
                        }
                        if ns.contains(s_node@) {
                            let k = choose|k: int| 0 <= k < ns.len() && ns[k] == s_node@;
                            assert(nodes@[k]@ == s_node@);
                        }
                    }
                }
                if !contains_node(nodes, s_node) {
                    cfg.add_edge(&new_node, s_node);
                }
                proof {
                    assert(essv.skip(j as int)[0] == essv[j as int]);
                    assert(essv.skip(j as int).drop_first() =~= essv.skip(j as int + 1));
                }
                j = j + 1;
            }
            proof {
                assert(essv.skip(m as int) =~= Seq::<NodeV>::empty());
            }
        },
        None => {
            proof {
                assert(essv =~= Seq::<NodeV>::empty());
            }
        },
    }
    proof {
        assert(cfg@ == spec_link_succs(g2, essv, ns, new_node@));
    }

    if is_root_node {
        cfg.set_entry(new_node);
    }
    proof {
        assert(cfg@ == spec_merge_prim(p2, gmid));
    }
}

impl CFAPrim {
    /// Collapse this primitive's nodes into a single meta-node on `cfg`,
    /// splicing in a temporary first where the exit needs regularising.
    ///
    /// The meta-node pairs the region's entry name with its exit name;
    /// edges from outside into the entry and from the exit outward carry
    /// over, edges internal to the region are dropped, and the graph entry
    /// follows the region when it was collapsed through.
    pub fn merge(&mut self, cfg: &mut ControlFlowGraph)
        requires
            old(cfg).inv(),
        ensures
            final(cfg).inv(),
            (final(self)@, final(cfg)@) == spec_step(old(self)@, old(cfg)@),
            cfg_wf(old(cfg)@) ==> cfg_wf(final(cfg)@),
    {
        match self {
            CFAPrim::PreconditionLoop(p) => p.insert_needed_node(cfg),
            CFAPrim::PostconditionLoop(p) => p.insert_needed_node(cfg),
            CFAPrim::OnewayConditional(p) => p.insert_needed_node(cfg),
            CFAPrim::OnewayReturnConditional(p) => p.insert_needed_node(cfg),
            CFAPrim::TwowayConditional(p) => p.insert_needed_node(cfg),
            CFAPrim::StatementSequence(p) => p.insert_needed_node(cfg),
        }
        let ghost p2 = self@;
        proof {
            assert((p2, cfg@) == spec_fixup(old(self)@, old(cfg)@));
        }
        let entry = self.entry();
        let exit = self.exit();
        let nodes = self.nodes();
        collapse(cfg, entry, exit, &nodes, Ghost(p2));
    }
}

} // verus!
