//! Control-flow analysis: recognising and collapsing primitive shapes.
//!
//! The reducer repeatedly finds one of six primitive sub-shapes in a graph,
//! splices in a synthetic node where the shape's exit is irregular, and
//! merges the shape into a single meta-node, until a single node remains.
//!
//! Each matcher checks three things: the topological shape (the successor
//! and predecessor counts of its members), the temporary-hygiene guard that
//! keeps a match from reaching through a previously spliced node, and the
//! dominance guards: the shape's entry must dominate its other members, a
//! conditional head must be entered regularly (every predecessor dominates
//! it), and a returning conditional's head may have no predecessors at
//! all. Loops are tried before conditionals and conditionals before
//! sequences.

pub mod merge;
pub mod oneway_conditional;
pub mod oneway_return_conditional;
pub mod postcondition_loop;
pub mod precondition_loop;
pub mod statement_sequence;
pub mod twoway_conditional;

pub use oneway_conditional::CFAOnewayConditional;
pub use oneway_return_conditional::CFAOnewayReturnConditional;
pub use postcondition_loop::CFAPostconditionLoop;
pub use precondition_loop::CFAPreconditionLoop;
pub use statement_sequence::CFAStatementSequence;
pub use twoway_conditional::CFATwowayConditional;

use vstd::prelude::*;

use crate::cfg::CFGNode;
use crate::cfg::CfgV;
use crate::cfg::ControlFlowGraph;
use crate::cfg::Name;
use crate::cfg::NameV;
use crate::cfg::NodeV;
use crate::cfg::cfg_wf;
use crate::cfg::node_of_name;
use crate::cfg::spec_create_temp;
use crate::cfg::spec_insert_node;
use crate::util::unique_vec::UniqueVec;
use crate::util::unique_vec::clone_keeps_view;

verus! {

/// Mathematical value of a primitive: the identities of its member nodes.
pub enum PrimV {
    PreconditionLoop { cond: NodeV, body: NodeV, exit: NodeV },
    PostconditionLoop { cond: NodeV, exit: NodeV },
    OnewayConditional { cond: NodeV, body: NodeV, exit: NodeV },
    OnewayReturnConditional { cond: NodeV, body: NodeV, exit: NodeV },
    TwowayConditional { cond: NodeV, body_a: NodeV, body_b: NodeV, exit: NodeV },
    StatementSequence { entry: NodeV, exit: NodeV },
}

/// The node through which control enters a primitive.
pub open spec fn prim_entry(p: PrimV) -> NodeV {
    match p {
        PrimV::PreconditionLoop { cond, .. } => cond,
        PrimV::PostconditionLoop { cond, .. } => cond,
        PrimV::OnewayConditional { cond, .. } => cond,
        PrimV::OnewayReturnConditional { cond, .. } => cond,
        PrimV::TwowayConditional { cond, .. } => cond,
        PrimV::StatementSequence { entry, .. } => entry,
    }
}

/// The node through which control leaves a primitive.
pub open spec fn prim_exit(p: PrimV) -> NodeV {
    match p {
        PrimV::PreconditionLoop { exit, .. } => exit,
        PrimV::PostconditionLoop { exit, .. } => exit,
        PrimV::OnewayConditional { exit, .. } => exit,
        PrimV::OnewayReturnConditional { exit, .. } => exit,
        PrimV::TwowayConditional { exit, .. } => exit,
        PrimV::StatementSequence { exit, .. } => exit,
    }
}

/// Every node of a primitive, in the order the reducer treats them.
pub open spec fn prim_nodes(p: PrimV) -> Seq<NodeV> {
    match p {
        PrimV::PreconditionLoop { cond, body, exit } => seq![cond, body, exit],
        PrimV::PostconditionLoop { cond, exit } => seq![cond, exit],
        PrimV::OnewayConditional { cond, body, exit } => seq![cond, body, exit],
        PrimV::OnewayReturnConditional { cond, body, exit } => seq![cond, body, exit],
        PrimV::TwowayConditional { cond, body_a, body_b, exit } => seq![cond, body_a, body_b, exit],
        PrimV::StatementSequence { entry, exit } => seq![entry, exit],
    }
}

/// The guard every primitive applies: a region must not be entered or left
/// through a previously synthesised temporary, so the entry's exit-name and
/// the exit's entry-name must both be ordinary.
pub open spec fn hygiene_ok(g: CfgV, entry: NodeV, exit: NodeV) -> bool {
    &&& !g.temps.contains(entry.to_succ)
    &&& !g.temps.contains(exit.from_pred)
}

/// How many predecessors a primitive's exit must have for the following
/// merge to leave a regular neighbourhood.
pub open spec fn fixup_threshold(p: PrimV) -> int {
    match p {
        PrimV::OnewayConditional { .. } => 2,
        PrimV::TwowayConditional { .. } => 2,
        _ => 1,
    }
}

/// The primitive with its exit renamed to `t`.
pub open spec fn prim_with_exit(p: PrimV, t: NodeV) -> PrimV {
    match p {
        PrimV::PreconditionLoop { cond, body, exit } => PrimV::PreconditionLoop {
            cond,
            body,
            exit: t,
        },
        PrimV::PostconditionLoop { cond, exit } => PrimV::PostconditionLoop { cond, exit: t },
        PrimV::OnewayConditional { cond, body, exit } => PrimV::OnewayConditional {
            cond,
            body,
            exit: t,
        },
        PrimV::OnewayReturnConditional { cond, body, exit } => PrimV::OnewayReturnConditional {
            cond,
            body,
            exit: t,
        },
        PrimV::TwowayConditional { cond, body_a, body_b, exit } => PrimV::TwowayConditional {
            cond,
            body_a,
            body_b,
            exit: t,
        },
        PrimV::StatementSequence { entry, exit } => PrimV::StatementSequence { entry, exit: t },
    }
}

/// The fix-up a primitive performs before merging: when the exit's
/// predecessor count is not the canonical one, a fresh temporary is spliced
/// in front of the exit on every edge belonging to the shape, and the
/// primitive's exit becomes the temporary.
pub open spec fn spec_fixup(p: PrimV, g: CfgV) -> (PrimV, CfgV) {
    if g.preds_of(prim_exit(p)).len() != fixup_threshold(p) {
        let (tn, g1) = spec_create_temp(g);
        let t = node_of_name(tn);
        let exit = prim_exit(p);
        let g2 = match p {
            PrimV::PreconditionLoop { cond, .. } => spec_insert_node(g1, t, cond, exit),
            PrimV::PostconditionLoop { cond, .. } => spec_insert_node(g1, t, cond, exit),
            PrimV::OnewayConditional { cond, body, .. } => spec_insert_node(
                spec_insert_node(g1, t, cond, exit),
                t,
                body,
                exit,
            ),
            PrimV::OnewayReturnConditional { cond, .. } => spec_insert_node(g1, t, cond, exit),
            PrimV::TwowayConditional { body_a, body_b, .. } => spec_insert_node(
                spec_insert_node(g1, t, body_a, exit),
                t,
                body_b,
                exit,
            ),
            PrimV::StatementSequence { entry, .. } => spec_insert_node(g1, t, entry, exit),
        };
        (prim_with_exit(p, t), g2)
    } else {
        (p, g)
    }
}

/// What one splice does to the predecessors of a fresh node `t` put
/// between `c` and `x`: exactly `c` points at it.
proof fn lemma_splice_preds_first(g1: CfgV, t: NodeV, c: NodeV, x: NodeV)
    requires
        !g1.preds.contains_key(t),
        t != x,
    ensures
        spec_insert_node(g1, t, c, x).preds_of(t) =~= seq![c],
        spec_insert_node(g1, t, c, x).preds.contains_key(t),
{
    let d = crate::cfg::spec_del_edge(g1, c, x);
    assert(!d.preds.contains_key(t));
    let a1 = crate::cfg::spec_add_edge(d, c, t);
    assert(a1.preds_of(t) == crate::util::unique_vec::seq_insert_unique(d.preds_of(t), c));
    assert(d.preds_of(t) =~= Seq::<NodeV>::empty());
    assert(!Seq::<NodeV>::empty().contains(c));
    let a2 = crate::cfg::spec_add_edge(a1, t, x);
    assert(a2.preds_of(t) == a1.preds_of(t));
}

/// What a further splice between `b` and `x` does to the predecessors of
/// the same node `t`: `b` is appended.
proof fn lemma_splice_preds_again(ga: CfgV, t: NodeV, b: NodeV, x: NodeV)
    requires
        ga.preds.contains_key(t),
        t != x,
        !ga.preds_of(t).contains(b),
    ensures
        spec_insert_node(ga, t, b, x).preds_of(t) =~= ga.preds_of(t).push(b),
        spec_insert_node(ga, t, b, x).preds.contains_key(t),
{
    let d = crate::cfg::spec_del_edge(ga, b, x);
    assert(d.preds_of(t) == ga.preds_of(t));
    let a1 = crate::cfg::spec_add_edge(d, b, t);
    assert(a1.preds_of(t) == crate::util::unique_vec::seq_insert_unique(d.preds_of(t), b));
    let a2 = crate::cfg::spec_add_edge(a1, t, x);
    assert(a2.preds_of(t) == a1.preds_of(t));
}

/// Running the fix-up a second time, right after a first run, changes
/// nothing: after the first run the exit's predecessor count is already
/// the canonical one for the shape.
///
/// The shape's member nodes must be nodes of the graph, the two branch
/// bodies of a conditional must differ, and the counter and registry must
/// be within the reach of a machine-sized graph.
#[verifier::rlimit(100)]
pub proof fn lemma_fixup_idempotent(p: PrimV, g: CfgV)
    requires
        cfg_wf(g),
        g.next_temp >= 0,
        2 * g.nodes.len() + g.temps.len() + 1 <= crate::cfg::counter_modulus(),
        forall|i: int| 0 <= i < prim_nodes(p).len() ==> g.nodes.contains(#[trigger] prim_nodes(p)[i]),
        p matches PrimV::OnewayConditional { cond, body, .. } ==> cond != body,
        p matches PrimV::TwowayConditional { body_a, body_b, .. } ==> body_a != body_b,
    ensures
        spec_fixup(spec_fixup(p, g).0, spec_fixup(p, g).1) == spec_fixup(p, g),
{
    if g.preds_of(prim_exit(p)).len() != fixup_threshold(p) {
        let m = spec_create_temp(g).0;
        let g1 = spec_create_temp(g).1;
        crate::cfg::lemma_create_temp_fresh(g);
        let t = node_of_name(m);
        let exit = prim_exit(p);
        assert forall|i: int|
            0 <= i < prim_nodes(p).len() implies #[trigger] prim_nodes(p)[i] != t by {
            if prim_nodes(p)[i] == t {
                let x = prim_nodes(p)[i];
                let k = choose|k: int| 0 <= k < g.nodes.len() && g.nodes[k] == x;
                assert(g.nodes[k].from_pred == m);
                assert(crate::cfg::mentioned(g, m));
            }
        }
        assert(!g1.preds.contains_key(t)) by {
            if g1.preds.contains_key(t) {
                assert(g.preds.contains_key(t));
                assert(g.nodes.contains(t));
                let k = choose|k: int| 0 <= k < g.nodes.len() && g.nodes[k] == t;
                assert(g.nodes[k].from_pred == m);
                assert(crate::cfg::mentioned(g, m));
            }
        }
        let p2 = prim_with_exit(p, t);
        let g2 = spec_fixup(p, g).1;
        match p {
            PrimV::PreconditionLoop { cond, body, exit: x } => {
                assert(prim_nodes(p)[2] == x && prim_nodes(p)[0] == cond);
                lemma_splice_preds_first(g1, t, cond, x);
                assert(g2.preds_of(prim_exit(p2)).len() == 1);
            },
            PrimV::PostconditionLoop { cond, exit: x } => {
                assert(prim_nodes(p)[1] == x && prim_nodes(p)[0] == cond);
                lemma_splice_preds_first(g1, t, cond, x);
                assert(g2.preds_of(prim_exit(p2)).len() == 1);
            },
            PrimV::OnewayConditional { cond, body, exit: x } => {
                assert(prim_nodes(p)[2] == x && prim_nodes(p)[0] == cond && prim_nodes(p)[1]
                    == body);
                let ga = spec_insert_node(g1, t, cond, x);
                lemma_splice_preds_first(g1, t, cond, x);
                lemma_splice_preds_again(ga, t, body, x);
                assert(ga.preds_of(t).push(body) =~= seq![cond, body]);
                assert(g2.preds_of(prim_exit(p2)).len() == 2);
            },
            PrimV::OnewayReturnConditional { cond, body, exit: x } => {
                assert(prim_nodes(p)[2] == x && prim_nodes(p)[0] == cond);
                lemma_splice_preds_first(g1, t, cond, x);
                assert(g2.preds_of(prim_exit(p2)).len() == 1);
            },
            PrimV::TwowayConditional { cond, body_a, body_b, exit: x } => {
                assert(prim_nodes(p)[3] == x && prim_nodes(p)[1] == body_a && prim_nodes(p)[2]
                    == body_b);
                let ga = spec_insert_node(g1, t, body_a, x);
                lemma_splice_preds_first(g1, t, body_a, x);
                lemma_splice_preds_again(ga, t, body_b, x);
                assert(ga.preds_of(t).push(body_b) =~= seq![body_a, body_b]);
                assert(g2.preds_of(prim_exit(p2)).len() == 2);
            },
            PrimV::StatementSequence { entry, exit: x } => {
                assert(prim_nodes(p)[1] == x && prim_nodes(p)[0] == entry);
                lemma_splice_preds_first(g1, t, entry, x);
                assert(g2.preds_of(prim_exit(p2)).len() == 1);
            },
        }
        assert(fixup_threshold(p2) == fixup_threshold(p));
        assert(spec_fixup(p2, g2) == (p2, g2));
    }
}

/// A group of control-flow-graph nodes forming one recognisable shape.
#[derive(Debug)]
pub enum CFAPrim {
    PreconditionLoop(CFAPreconditionLoop),
    PostconditionLoop(CFAPostconditionLoop),
    OnewayConditional(CFAOnewayConditional),
    OnewayReturnConditional(CFAOnewayReturnConditional),
    TwowayConditional(CFATwowayConditional),
    StatementSequence(CFAStatementSequence),
}

impl View for CFAPrim {
    type V = PrimV;

    open spec fn view(&self) -> PrimV {
        match self {
            CFAPrim::PreconditionLoop(p) => p@,
            CFAPrim::PostconditionLoop(p) => p@,
            CFAPrim::OnewayConditional(p) => p@,
            CFAPrim::OnewayReturnConditional(p) => p@,
            CFAPrim::TwowayConditional(p) => p@,
            CFAPrim::StatementSequence(p) => p@,
        }
    }
}

/// The first primitive the reducer accepts on `g`: the six shapes are tried
/// in a fixed priority order, loops before conditionals before sequences.
#[verifier::opaque]
pub open spec fn spec_find_first(g: CfgV) -> Option<PrimV> {
    if precondition_loop::spec_find(g) is Some {
        precondition_loop::spec_find(g)
    } else if postcondition_loop::spec_find(g) is Some {
        postcondition_loop::spec_find(g)
    } else if oneway_conditional::spec_find(g) is Some {
        oneway_conditional::spec_find(g)
    } else if oneway_return_conditional::spec_find(g) is Some {
        oneway_return_conditional::spec_find(g)
    } else if twoway_conditional::spec_find(g) is Some {
        twoway_conditional::spec_find(g)
    } else {
        statement_sequence::spec_find(g)
    }
}

impl CFAPrim {
    /// Reduce `cfg` completely: repeatedly collapse the first primitive
    /// found until one node remains, recording every collapsed shape.
    ///
    /// The result is a mathematical function of the graph alone, so
    /// reducing equal graphs yields equal primitive sequences. `None` is
    /// returned exactly when the reduction gets stuck on an irreducible
    /// graph (or, never in practice, when the generous fuel bound runs
    /// out). The surviving entry keeps the original entry block's name.
    #[verifier::rlimit(100)]
    pub fn find_all(cfg: ControlFlowGraph) -> (r: Option<CFAPrims>)
        requires
            cfg.inv(),
            cfg_wf(cfg@),
        ensures
            match r {
                Some(b) => spec_reduce(cfg@, reduce_fuel(cfg@)) == Some(b@),
                None => spec_reduce(cfg@, reduce_fuel(cfg@)) is None,
            },
            r matches Some(b) ==> b@.entry.from_pred == cfg@.entry.from_pred,
    {
        let ghost g0 = cfg@;
        proof {
            lemma_reduce_entry_name(g0, reduce_fuel(g0));
        }
        let mut graph = cfg;
        let n0 = graph.nodes().len();
        let mut fuel: u128 = 2 * (n0 as u128) + 2;
        let mut prims: Vec<CFAPrim> = Vec::new();
        proof {
            assert(fuel == reduce_fuel(g0));
            assert(prims@.map_values(|p: CFAPrim| p@) =~= Seq::<PrimV>::empty());
            assert(reduce_result_with(Seq::<PrimV>::empty(), spec_reduce(graph@, fuel as nat))
                == spec_reduce(graph@, fuel as nat)) by {
                match spec_reduce(graph@, fuel as nat) {
                    None => {},
                    Some(b) => {
                        assert(Seq::<PrimV>::empty() + b.prims =~= b.prims);
                    },
                }
            }
        }
        while graph.nodes().len() > 1 && fuel > 0
            invariant
                graph.inv(),
                cfg_wf(graph@),
                g0 == cfg@,
                fuel <= reduce_fuel(g0),
                spec_reduce(g0, reduce_fuel(g0)) == reduce_result_with(
                    prims@.map_values(|p: CFAPrim| p@),
                    spec_reduce(graph@, fuel as nat),
                ),
            decreases fuel,
        {
            let found = CFAPrim::find_first(&graph);
            let mut prim = match found {
                Some(prim) => prim,
                None => {
                    proof {
                        lemma_reduce_none(graph@, fuel as nat);
                        assert(spec_reduce(g0, reduce_fuel(g0)) is None);
                    }
                    return None;
                },
            };
            let ghost pv = prim@;
            let ghost pre = graph@;
            let ghost prefix = prims@.map_values(|p: CFAPrim| p@);
            prim.merge(&mut graph);
            proof {
                lemma_reduce_step(pre, fuel as nat, pv, prim@, graph@);
                lemma_reduce_prefix_assoc(prefix, prim@, spec_reduce(graph@, (fuel - 1) as nat));
            }
            prims.push(prim);
            proof {
                assert(prims@.map_values(|p: CFAPrim| p@) =~= prefix.push(prims@.last()@));
            }
            fuel = fuel - 1;
        }
        if graph.nodes().len() > 1 {
            proof {
                lemma_reduce_none(graph@, fuel as nat);
            }
            return None;
        }
        proof {
            lemma_reduce_base(graph@, fuel as nat);
            assert(clone_keeps_view::<Name>());
        }
        let r = CFAPrims { entry: graph.entry().clone(), temps: graph.temps().clone(), prims };
        proof {
            assert(spec_reduce(g0, reduce_fuel(g0)) == Some(r@)) by {
                let base = PrimsV {
                    entry: graph@.entry,
                    temps: graph@.temps,
                    prims: Seq::<PrimV>::empty(),
                };
                assert(reduce_result_with(r@.prims, Some(base)) == Some(r@)) by {
                    assert(r@.prims + base.prims =~= r@.prims);
                }
            }
        }
        Some(r)
    }

    /// Find the highest-priority primitive present in `cfg`, if any shape
    /// matches at all.
    pub fn find_first(cfg: &ControlFlowGraph) -> (r: Option<Self>)
        requires
            cfg.inv(),
            cfg_wf(cfg@),
        ensures
            match r {
                Some(p) => spec_find_first(cfg@) == Some(p@),
                None => spec_find_first(cfg@) is None,
            },
    {
        proof {
            reveal(spec_find_first);
        }
        if let Some(prim) = CFAPreconditionLoop::find_first(cfg) {
            return Some(CFAPrim::PreconditionLoop(prim));
        }
        if let Some(prim) = CFAPostconditionLoop::find_first(cfg) {
            return Some(CFAPrim::PostconditionLoop(prim));
        }
        if let Some(prim) = CFAOnewayConditional::find_first(cfg) {
            return Some(CFAPrim::OnewayConditional(prim));
        }
        if let Some(prim) = CFAOnewayReturnConditional::find_first(cfg) {
            return Some(CFAPrim::OnewayReturnConditional(prim));
        }
        if let Some(prim) = CFATwowayConditional::find_first(cfg) {
            return Some(CFAPrim::TwowayConditional(prim));
        }
        if let Some(prim) = CFAStatementSequence::find_first(cfg) {
            return Some(CFAPrim::StatementSequence(prim));
        }
        None
    }

    /// The entry node of the primitive.
    pub fn entry(&self) -> (r: &CFGNode)
        ensures
            r@ == prim_entry(self@),
    {
        match self {
            CFAPrim::PreconditionLoop(p) => &p.cond,
            CFAPrim::PostconditionLoop(p) => &p.cond,
            CFAPrim::OnewayConditional(p) => &p.cond,
            CFAPrim::OnewayReturnConditional(p) => &p.cond,
            CFAPrim::TwowayConditional(p) => &p.cond,
            CFAPrim::StatementSequence(p) => &p.entry,
        }
    }

    /// The exit node of the primitive.
    pub fn exit(&self) -> (r: &CFGNode)
        ensures
            r@ == prim_exit(self@),
    {
        match self {
            CFAPrim::PreconditionLoop(p) => &p.exit,
            CFAPrim::PostconditionLoop(p) => &p.exit,
            CFAPrim::OnewayConditional(p) => &p.exit,
            CFAPrim::OnewayReturnConditional(p) => &p.exit,
            CFAPrim::TwowayConditional(p) => &p.exit,
            CFAPrim::StatementSequence(p) => &p.exit,
        }
    }

    /// All nodes of the primitive, in the order the reducer treats them.
    pub fn nodes(&self) -> (r: Vec<&CFGNode>)
        ensures
            r@.len() == prim_nodes(self@).len(),
            forall|i: int| 0 <= i < r@.len() ==> r@[i]@ == prim_nodes(self@)[i],
    {
        match self {
            CFAPrim::PreconditionLoop(p) => vec![&p.cond, &p.body, &p.exit],
            CFAPrim::PostconditionLoop(p) => vec![&p.cond, &p.exit],
            CFAPrim::OnewayConditional(p) => vec![&p.cond, &p.body, &p.exit],
            CFAPrim::OnewayReturnConditional(p) => vec![&p.cond, &p.body, &p.exit],
            CFAPrim::TwowayConditional(p) => vec![&p.cond, &p.body_a, &p.body_b, &p.exit],
            CFAPrim::StatementSequence(p) => vec![&p.entry, &p.exit],
        }
    }
}

/// The fuel that always suffices for a full reduction: every step removes
/// at least one node or retires one non-temporary exit name, so a graph can
/// never take more steps than this.
pub open spec fn reduce_fuel(g: CfgV) -> nat {
    (2 * g.nodes.len() + 2) as nat
}

/// The reduction as a mathematical function: while more than one node
/// remains, find the first primitive, collapse it, and record it; the
/// result is the final entry, the temporaries, and the primitives in
/// reduction order. `None` when no primitive matches (the graph is
/// irreducible) or the fuel is exhausted, which sufficient fuel prevents.
#[verifier::opaque]
pub open spec fn spec_reduce(g: CfgV, fuel: nat) -> Option<PrimsV>
    decreases fuel,
{
    if g.nodes.len() <= 1 {
        Some(PrimsV { entry: g.entry, temps: g.temps, prims: Seq::empty() })
    } else if fuel == 0 {
        None
    } else {
        match spec_find_first(g) {
            None => None,
            Some(p) => {
                let stepped = merge::spec_step(p, g);
                match spec_reduce(stepped.1, (fuel - 1) as nat) {
                    None => None,
                    Some(b) => Some(
                        PrimsV {
                            entry: b.entry,
                            temps: b.temps,
                            prims: seq![stepped.0] + b.prims,
                        },
                    ),
                }
            },
        }
    }
}

/// Granting more fuel never changes a reduction that already completes:
/// the record of primitives is determined by the graph alone.
pub proof fn lemma_reduce_fuel_monotone(g: CfgV, f1: nat, f2: nat)
    requires
        f1 <= f2,
        spec_reduce(g, f1) is Some,
    ensures
        spec_reduce(g, f2) == spec_reduce(g, f1),
    decreases f1,
{
    reveal(spec_reduce);
    if g.nodes.len() <= 1 {
    } else {
        match spec_find_first(g) {
            None => {},
            Some(p) => {
                let stepped = merge::spec_step(p, g);
                lemma_reduce_fuel_monotone(stepped.1, (f1 - 1) as nat, (f2 - 1) as nat);
            },
        }
    }
}

/// `rest` with `prefix` prepended to its primitive record.
pub open spec fn reduce_result_with(prefix: Seq<PrimV>, rest: Option<PrimsV>) -> Option<PrimsV> {
    match rest {
        None => None,
        Some(b) => Some(PrimsV { entry: b.entry, temps: b.temps, prims: prefix + b.prims }),
    }
}

/// Erasing nodes never moves the graph entry.
proof fn lemma_remove_list_entry(g: CfgV, ns: Seq<NodeV>)
    ensures
        merge::spec_remove_list(g, ns).entry == g.entry,
    decreases ns.len(),
{
    if ns.len() > 0 {
        lemma_remove_list_entry(crate::cfg::spec_remove_node(g, ns[0]), ns.drop_first());
    }
}

/// Rerouting edges never moves the graph entry.
proof fn lemma_link_preds_entry(g: CfgV, ps: Seq<NodeV>, members: Seq<NodeV>, meta: NodeV)
    ensures
        merge::spec_link_preds(g, ps, members, meta).entry == g.entry,
    decreases ps.len(),
{
    if ps.len() > 0 {
        let g1 = if members.contains(ps[0]) {
            g
        } else {
            crate::cfg::spec_add_edge(g, ps[0], meta)
        };
        lemma_link_preds_entry(g1, ps.drop_first(), members, meta);
    }
}

proof fn lemma_link_succs_entry(g: CfgV, ss: Seq<NodeV>, members: Seq<NodeV>, meta: NodeV)
    ensures
        merge::spec_link_succs(g, ss, members, meta).entry == g.entry,
    decreases ss.len(),
{
    if ss.len() > 0 {
        let g1 = if members.contains(ss[0]) {
            g
        } else {
            crate::cfg::spec_add_edge(g, meta, ss[0])
        };
        lemma_link_succs_entry(g1, ss.drop_first(), members, meta);
    }
}

/// One reduction step keeps the name through which the function is entered:
/// the entry node either stays or is replaced by a meta-node carrying the
/// same `from_pred`.
proof fn lemma_step_entry_name(p: PrimV, g: CfgV)
    ensures
        merge::spec_step(p, g).1.entry.from_pred == g.entry.from_pred,
{
    let (p2, g2) = spec_fixup(p, g);
    assert(g2.entry == g.entry);
    let ns = prim_nodes(p2);
    let meta = merge::merge_meta(p2);
    let g_removed = merge::spec_remove_list(g2, ns);
    lemma_remove_list_entry(g2, ns);
    let g_linked = merge::spec_link_preds(g_removed, g2.preds_of(prim_entry(p2)), ns, meta);
    lemma_link_preds_entry(g_removed, g2.preds_of(prim_entry(p2)), ns, meta);
    lemma_link_succs_entry(g_linked, g2.succs_of(prim_exit(p2)), ns, meta);
}

/// A reduction that succeeds hands back an entry whose `from_pred` is the
/// name of the function's original entry block.
pub proof fn lemma_reduce_entry_name(g: CfgV, fuel: nat)
    ensures
        spec_reduce(g, fuel) matches Some(b) ==> b.entry.from_pred == g.entry.from_pred,
    decreases fuel,
{
    reveal(spec_reduce);
    if g.nodes.len() <= 1 {
    } else if fuel == 0 {
    } else {
        match spec_find_first(g) {
            None => {},
            Some(p) => {
                let stepped = merge::spec_step(p, g);
                lemma_step_entry_name(p, g);
                lemma_reduce_entry_name(stepped.1, (fuel - 1) as nat);
            },
        }
    }
}

/// Unfolding `spec_reduce` on a solved graph.
proof fn lemma_reduce_base(g: CfgV, fuel: nat)
    requires
        g.nodes.len() <= 1,
    ensures
        spec_reduce(g, fuel) == Some(
            PrimsV { entry: g.entry, temps: g.temps, prims: Seq::<PrimV>::empty() },
        ),
{
    reveal(spec_reduce);
}

/// Unfolding `spec_reduce` on a stuck or starved graph.
proof fn lemma_reduce_none(g: CfgV, fuel: nat)
    requires
        g.nodes.len() > 1,
        fuel == 0 || spec_find_first(g) is None,
    ensures
        spec_reduce(g, fuel) is None,
{
    reveal(spec_reduce);
}

/// One unfolding of `spec_reduce` along a successful step.
proof fn lemma_reduce_step(pre: CfgV, fuel: nat, pv: PrimV, p2: PrimV, g2: CfgV)
    requires
        pre.nodes.len() > 1,
        fuel > 0,
        spec_find_first(pre) == Some(pv),
        (p2, g2) == merge::spec_step(pv, pre),
    ensures
        spec_reduce(pre, fuel) == reduce_result_with(
            seq![p2],
            spec_reduce(g2, (fuel - 1) as nat),
        ),
{
    reveal(spec_reduce);
    match spec_reduce(g2, (fuel - 1) as nat) {
        None => {},
        Some(b) => {},
    }
}

/// Prepending in two goes is prepending in one.
proof fn lemma_reduce_prefix_assoc(prefix: Seq<PrimV>, p: PrimV, rest: Option<PrimsV>)
    ensures
        reduce_result_with(prefix, reduce_result_with(seq![p], rest)) == reduce_result_with(
            prefix.push(p),
            rest,
        ),
{
    match rest {
        None => {},
        Some(b) => {
            assert(prefix + (seq![p] + b.prims) =~= prefix.push(p) + b.prims);
        },
    }
}

/// Mathematical value of a finished reduction.
pub struct PrimsV {
    /// Entry of the fully collapsed graph.
    pub entry: NodeV,
    /// Every temporary name the reduction created.
    pub temps: Seq<NameV>,
    /// The primitives, earliest reduction first.
    pub prims: Seq<PrimV>,
}

/// The record of a finished reduction: the surviving entry node, the
/// temporary registry, and the primitives in reduction order.
#[derive(Debug)]
pub struct CFAPrims {
    entry: CFGNode,
    temps: UniqueVec<Name>,
    prims: Vec<CFAPrim>,
}

impl View for CFAPrims {
    type V = PrimsV;

    closed spec fn view(&self) -> PrimsV {
        PrimsV {
            entry: self.entry@,
            temps: self.temps@,
            prims: self.prims@.map_values(|p: CFAPrim| p@),
        }
    }
}

impl CFAPrims {
    /// The entry node of the collapsed graph.
    pub fn entry(&self) -> (r: &CFGNode)
        ensures
            r@ == self@.entry,
    {
        &self.entry
    }

    /// Every temporary name the reduction created.
    pub fn temps(&self) -> (r: &UniqueVec<Name>)
        ensures
            r@ == self@.temps,
    {
        &self.temps
    }

    /// The primitives found, earliest reduction first.
    pub fn prims(&self) -> (r: &Vec<CFAPrim>)
        ensures
            r@.len() == self@.prims.len(),
            forall|i: int| 0 <= i < r@.len() ==> r@[i]@ == self@.prims[i],
    {
        &self.prims
    }
}

} // verus!
