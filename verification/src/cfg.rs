//! Control-flow graphs.
//!
//! A [`ControlFlowGraph`] holds the nodes of one function together with its
//! predecessor and successor adjacency lists, a registry of synthesised
//! temporary names, and a dominance query.

pub mod adjacency;
pub mod dominance;
pub mod function;
pub mod name;
pub mod node;

pub use dominance::reaches_avoiding;
pub use dominance::spec_dominates;

pub use function::BasicBlock;
pub use function::BlockV;
pub use function::Function;
pub use function::TermV;
pub use function::Terminator;
pub use name::Name;
pub use name::NameV;
pub use node::CFGNode;
pub use node::NodeV;
pub use node::node_of_name;

use vstd::prelude::*;

use crate::cfg::adjacency::AdjMap;
use crate::cfg::adjacency::adj_lists_distinct;
use crate::cfg::adjacency::adj_of;
use crate::cfg::name::lemma_temp_name_injective;
use crate::cfg::name::temp_name_text;
use crate::cfg::name::temp_name_v;
use crate::util::unique_vec::UniqueVec;
use crate::util::unique_vec::eq_decides_view;
use crate::util::unique_vec::lemma_seq_insert_unique_props;
use crate::util::unique_vec::lemma_seq_remove_first_no_duplicates;
use crate::util::unique_vec::seq_insert_unique;
use crate::util::unique_vec::seq_remove_first;

verus! {

/// Mathematical value of a [`ControlFlowGraph`].
pub struct CfgV {
    /// Node at which the function is entered.
    pub entry: NodeV,
    /// Every node of the graph, in insertion order.
    pub nodes: Seq<NodeV>,
    /// Predecessors of each node, in insertion order.
    pub preds: Map<NodeV, Seq<NodeV>>,
    /// Successors of each node, in insertion order.
    pub succs: Map<NodeV, Seq<NodeV>>,
    /// Every temporary name ever handed out, in order of creation.
    pub temps: Seq<NameV>,
    /// Counter from which the next temporary name is formed.
    pub next_temp: int,
}

impl CfgV {
    /// The predecessor list of `n`; empty when none was recorded.
    pub open spec fn preds_of(self, n: NodeV) -> Seq<NodeV> {
        adj_of(self.preds, n)
    }

    /// The successor list of `n`; empty when none was recorded.
    pub open spec fn succs_of(self, n: NodeV) -> Seq<NodeV> {
        adj_of(self.succs, n)
    }

    /// Whether the graph has an edge from `u` to `v`.
    pub open spec fn has_edge(self, u: NodeV, v: NodeV) -> bool {
        self.succs_of(u).contains(v)
    }
}

/// Well-formedness of a graph value: node and temporary registries are
/// duplicate-free, adjacency is recorded only for known nodes and mentions
/// only known nodes, and an edge is in a successor list exactly when its
/// reverse is in the matching predecessor list.
pub open spec fn cfg_wf(g: CfgV) -> bool {
    &&& g.nodes.no_duplicates()
    &&& g.temps.no_duplicates()
    &&& forall|k: NodeV| #[trigger] g.preds.contains_key(k) ==> g.nodes.contains(k)
    &&& forall|k: NodeV| #[trigger] g.succs.contains_key(k) ==> g.nodes.contains(k)
    &&& adj_lists_distinct(g.preds)
    &&& adj_lists_distinct(g.succs)
    &&& forall|k: NodeV, x: NodeV|
        g.preds.contains_key(k) && #[trigger] g.preds[k].contains(x) ==> g.nodes.contains(x)
    &&& forall|k: NodeV, x: NodeV|
        g.succs.contains_key(k) && #[trigger] g.succs[k].contains(x) ==> g.nodes.contains(x)
    &&& forall|u: NodeV, v: NodeV|
        #![trigger g.succs_of(u).contains(v)]
        #![trigger g.preds_of(v).contains(u)]
        g.succs_of(u).contains(v) <==> g.preds_of(v).contains(u)
}

/// The graph after drawing an edge from `u` to `v`: each endpoint joins the
/// other's adjacency list and the node registry, all without duplication.
pub open spec fn spec_add_edge(g: CfgV, u: NodeV, v: NodeV) -> CfgV {
    CfgV {
        entry: g.entry,
        nodes: seq_insert_unique(seq_insert_unique(g.nodes, u), v),
        preds: g.preds.insert(v, seq_insert_unique(g.preds_of(v), u)),
        succs: g.succs.insert(u, seq_insert_unique(g.succs_of(u), v)),
        temps: g.temps,
        next_temp: g.next_temp,
    }
}

/// The graph after erasing `n`: it leaves the node registry, loses its own
/// adjacency lists, and is struck from every remaining list.
pub open spec fn spec_remove_node(g: CfgV, n: NodeV) -> CfgV {
    CfgV {
        entry: g.entry,
        nodes: seq_remove_first(g.nodes, n),
        preds: Map::<NodeV, Seq<NodeV>>::new(
            |k: NodeV| g.preds.contains_key(k) && k != n,
            |k: NodeV| seq_remove_first(g.preds[k], n),
        ),
        succs: Map::<NodeV, Seq<NodeV>>::new(
            |k: NodeV| g.succs.contains_key(k) && k != n,
            |k: NodeV| seq_remove_first(g.succs[k], n),
        ),
        temps: g.temps,
        next_temp: g.next_temp,
    }
}

/// The graph after erasing the edge from `a` to `b`, if present; nodes stay.
pub open spec fn spec_del_edge(g: CfgV, a: NodeV, b: NodeV) -> CfgV {
    CfgV {
        entry: g.entry,
        nodes: g.nodes,
        preds: if g.preds.contains_key(b) {
            g.preds.insert(b, seq_remove_first(g.preds[b], a))
        } else {
            g.preds
        },
        succs: if g.succs.contains_key(a) {
            g.succs.insert(a, seq_remove_first(g.succs[a], b))
        } else {
            g.succs
        },
        temps: g.temps,
        next_temp: g.next_temp,
    }
}

/// The graph after splicing `n` between `a` and `b`: the direct edge `a -> b`
/// goes away and `a -> n -> b` takes its place.
pub open spec fn spec_insert_node(g: CfgV, n: NodeV, a: NodeV, b: NodeV) -> CfgV {
    spec_add_edge(spec_add_edge(spec_del_edge(g, a, b), a, n), n, b)
}

/// In a well-formed graph, an edge is in the successor list of its source
/// exactly when its reverse is in the predecessor list of its target.
pub proof fn lemma_edge_symmetry(g: CfgV, u: NodeV, v: NodeV)
    requires
        cfg_wf(g),
    ensures
        g.has_edge(u, v) <==> g.preds_of(v).contains(u),
{
}

/// Drawing an edge preserves well-formedness.
pub proof fn lemma_add_edge_wf(g: CfgV, u: NodeV, v: NodeV)
    requires
        cfg_wf(g),
    ensures
        cfg_wf(spec_add_edge(g, u, v)),
{
    let g2 = spec_add_edge(g, u, v);
    lemma_seq_insert_unique_props(g.nodes, u);
    lemma_seq_insert_unique_props(seq_insert_unique(g.nodes, u), v);
    lemma_seq_insert_unique_props(g.preds_of(v), u);
    lemma_seq_insert_unique_props(g.succs_of(u), v);
    assert forall|a: NodeV, b: NodeV|
        #![trigger g2.succs_of(a).contains(b)]
        #![trigger g2.preds_of(b).contains(a)]
        g2.succs_of(a).contains(b) <==> g2.preds_of(b).contains(a) by {
        assert(g2.succs_of(a).contains(b) <==> (g.succs_of(a).contains(b) || (a == u && b == v)));
        assert(g2.preds_of(b).contains(a) <==> (g.preds_of(b).contains(a) || (a == u && b == v)));
        assert(g.succs_of(a).contains(b) <==> g.preds_of(b).contains(a));
    }
    assert forall|k: NodeV| #[trigger] g2.preds.contains_key(k) implies g2.nodes.contains(k) by {
        if k != v {
            assert(g.preds.contains_key(k));
        }
    }
    assert forall|k: NodeV| #[trigger] g2.succs.contains_key(k) implies g2.nodes.contains(k) by {
        if k != u {
            assert(g.succs.contains_key(k));
        }
    }
    assert forall|k: NodeV, x: NodeV|
        g2.preds.contains_key(k) && #[trigger] g2.preds[k].contains(x) implies g2.nodes.contains(
        x,
    ) by {
        if k == v {
            assert(g2.preds[k] == seq_insert_unique(g.preds_of(v), u));
            if x != u {
                assert(g.preds_of(v).contains(x));
                assert(g.nodes.contains(x));
            }
        } else {
            assert(g.preds.contains_key(k) && g.preds[k].contains(x));
        }
    }
    assert forall|k: NodeV, x: NodeV|
        g2.succs.contains_key(k) && #[trigger] g2.succs[k].contains(x) implies g2.nodes.contains(
        x,
    ) by {
        if k == u {
            assert(g2.succs[k] == seq_insert_unique(g.succs_of(u), v));
            if x != v {
                assert(g.succs_of(u).contains(x));
                assert(g.nodes.contains(x));
            }
        } else {
            assert(g.succs.contains_key(k) && g.succs[k].contains(x));
        }
    }
    assert forall|k: NodeV| #[trigger] g2.preds.contains_key(k) implies g2.preds[
        k
    ].no_duplicates() by {
        if k != v {
            assert(g.preds.contains_key(k));
        }
    }
    assert forall|k: NodeV| #[trigger] g2.succs.contains_key(k) implies g2.succs[
        k
    ].no_duplicates() by {
        if k != u {
            assert(g.succs.contains_key(k));
        }
    }
}

/// Erasing a node preserves well-formedness, and afterwards the node is
/// mentioned nowhere: not in the registry, not in any adjacency list.
pub proof fn lemma_remove_node_wf(g: CfgV, n: NodeV)
    requires
        cfg_wf(g),
    ensures
        cfg_wf(spec_remove_node(g, n)),
        !spec_remove_node(g, n).nodes.contains(n),
        forall|k: NodeV| !(#[trigger] spec_remove_node(g, n).preds_of(k)).contains(n),
        forall|k: NodeV| !(#[trigger] spec_remove_node(g, n).succs_of(k)).contains(n),
        !spec_remove_node(g, n).preds.contains_key(n),
        !spec_remove_node(g, n).succs.contains_key(n),
{
    let g2 = spec_remove_node(g, n);
    lemma_seq_remove_first_no_duplicates(g.nodes, n);
    assert forall|k: NodeV| #[trigger] g2.preds.contains_key(k) implies g2.nodes.contains(k)
        && g2.preds[k].no_duplicates() by {
        lemma_seq_remove_first_no_duplicates(g.preds[k], n);
        assert(g.nodes.contains(k));
    }
    assert forall|k: NodeV| #[trigger] g2.succs.contains_key(k) implies g2.nodes.contains(k)
        && g2.succs[k].no_duplicates() by {
        lemma_seq_remove_first_no_duplicates(g.succs[k], n);
        assert(g.nodes.contains(k));
    }
    assert forall|k: NodeV, x: NodeV|
        g2.preds.contains_key(k) && #[trigger] g2.preds[k].contains(x) implies g2.nodes.contains(
        x,
    ) by {
        lemma_seq_remove_first_no_duplicates(g.preds[k], n);
        assert(g.preds[k].contains(x));
        assert(x != n);
        assert(g.nodes.contains(x));
    }
    assert forall|k: NodeV, x: NodeV|
        g2.succs.contains_key(k) && #[trigger] g2.succs[k].contains(x) implies g2.nodes.contains(
        x,
    ) by {
        lemma_seq_remove_first_no_duplicates(g.succs[k], n);
        assert(g.succs[k].contains(x));
        assert(x != n);
        assert(g.nodes.contains(x));
    }
    assert forall|a: NodeV, b: NodeV|
        #![trigger g2.succs_of(a).contains(b)]
        #![trigger g2.preds_of(b).contains(a)]
        g2.succs_of(a).contains(b) <==> g2.preds_of(b).contains(a) by {
        if g.succs.contains_key(a) {
            lemma_seq_remove_first_no_duplicates(g.succs[a], n);
        }
        if g.preds.contains_key(b) {
            lemma_seq_remove_first_no_duplicates(g.preds[b], n);
        }
        assert(g2.succs_of(a).contains(b) <==> (a != n && b != n && g.succs_of(a).contains(b)));
        assert(g2.preds_of(b).contains(a) <==> (a != n && b != n && g.preds_of(b).contains(a)));
        assert(g.succs_of(a).contains(b) <==> g.preds_of(b).contains(a));
    }
    assert forall|k: NodeV| !(#[trigger] g2.preds_of(k)).contains(n) by {
        if g2.preds.contains_key(k) {
            lemma_seq_remove_first_no_duplicates(g.preds[k], n);
        }
    }
    assert forall|k: NodeV| !(#[trigger] g2.succs_of(k)).contains(n) by {
        if g2.succs.contains_key(k) {
            lemma_seq_remove_first_no_duplicates(g.succs[k], n);
        }
    }
}

/// Erasing one edge preserves well-formedness.
pub proof fn lemma_del_edge_wf(g: CfgV, a: NodeV, b: NodeV)
    requires
        cfg_wf(g),
    ensures
        cfg_wf(spec_del_edge(g, a, b)),
{
    let g2 = spec_del_edge(g, a, b);
    if g.preds.contains_key(b) {
        lemma_seq_remove_first_no_duplicates(g.preds[b], a);
    }
    if g.succs.contains_key(a) {
        lemma_seq_remove_first_no_duplicates(g.succs[a], b);
    }
    assert forall|k: NodeV| #[trigger] g2.preds.contains_key(k) implies g2.nodes.contains(k)
        && g2.preds[k].no_duplicates() by {
        assert(g.preds.contains_key(k));
    }
    assert forall|k: NodeV| #[trigger] g2.succs.contains_key(k) implies g2.nodes.contains(k)
        && g2.succs[k].no_duplicates() by {
        assert(g.succs.contains_key(k));
    }
    assert forall|k: NodeV, x: NodeV|
        g2.preds.contains_key(k) && #[trigger] g2.preds[k].contains(x) implies g2.nodes.contains(
        x,
    ) by {
        assert(g.preds.contains_key(k));
        if k == b && g.preds.contains_key(b) {
            assert(g.preds[k].contains(x));
        }
        assert(g.preds[k].contains(x));
    }
    assert forall|k: NodeV, x: NodeV|
        g2.succs.contains_key(k) && #[trigger] g2.succs[k].contains(x) implies g2.nodes.contains(
        x,
    ) by {
        assert(g.succs.contains_key(k));
        assert(g.succs[k].contains(x));
    }
    assert forall|u: NodeV, v: NodeV|
        #![trigger g2.succs_of(u).contains(v)]
        #![trigger g2.preds_of(v).contains(u)]
        g2.succs_of(u).contains(v) <==> g2.preds_of(v).contains(u) by {
        assert(g2.succs_of(u).contains(v) <==> (g.succs_of(u).contains(v) && !(u == a && v == b)));
        assert(g2.preds_of(v).contains(u) <==> (g.preds_of(v).contains(u) && !(u == a && v == b)));
        assert(g.succs_of(u).contains(v) <==> g.preds_of(v).contains(u));
    }
}

/// The graph after drawing an edge from `from` to each of `dests` in order.
pub open spec fn spec_add_edge_list(g: CfgV, from: NodeV, dests: Seq<NameV>) -> CfgV
    decreases dests.len(),
{
    if dests.len() == 0 {
        g
    } else {
        spec_add_edge_list(
            spec_add_edge(g, from, node_of_name(dests[0])),
            from,
            dests.drop_first(),
        )
    }
}

/// The edges one basic block contributes to the graph: its outgoing jumps,
/// in the order its terminator lists them.
pub open spec fn spec_block_edges(g: CfgV, b: BlockV) -> CfgV {
    let from = node_of_name(b.name);
    match b.term {
        TermV::Br { dest } => spec_add_edge(g, from, node_of_name(dest)),
        TermV::CondBr { true_dest, false_dest } => spec_add_edge(
            spec_add_edge(g, from, node_of_name(true_dest)),
            from,
            node_of_name(false_dest),
        ),
        TermV::Switch { dests, default_dest } => spec_add_edge(
            spec_add_edge_list(g, from, dests),
            from,
            node_of_name(default_dest),
        ),
        TermV::IndirectBr { possible_dests } => spec_add_edge_list(g, from, possible_dests),
        TermV::Ret => g,
        TermV::Unreachable => g,
    }
}

/// The graph after the blocks of `blocks` have contributed their edges in
/// order.
pub open spec fn spec_build(g: CfgV, blocks: Seq<BlockV>) -> CfgV
    decreases blocks.len(),
{
    if blocks.len() == 0 {
        g
    } else {
        spec_build(spec_block_edges(g, blocks[0]), blocks.drop_first())
    }
}

/// The empty graph a construction starts from: the first block is the entry
/// and nothing else is known yet.
pub open spec fn spec_cfg_init(f: Seq<BlockV>) -> CfgV {
    CfgV {
        entry: node_of_name(f[0].name),
        nodes: Seq::empty(),
        preds: Map::empty(),
        succs: Map::empty(),
        temps: Seq::empty(),
        next_temp: 0,
    }
}

/// The graph of a whole function.
pub open spec fn spec_cfg_new(f: Seq<BlockV>) -> CfgV {
    spec_build(spec_cfg_init(f), f)
}

/// One more than the largest value the temporary counter can hold.
pub open spec fn counter_modulus() -> int {
    u128::MAX as int + 1
}

/// The counter reduced to its 128-bit range.
pub open spec fn wrap_counter(x: int) -> int {
    x % counter_modulus()
}

/// Whether the name `m` occurs anywhere in the graph: as either half of a
/// node's identity or in the temporary registry.
pub open spec fn mentioned(g: CfgV, m: NameV) -> bool {
    ||| g.temps.contains(m)
    ||| exists|i: int| 0 <= i < g.nodes.len() && (#[trigger] g.nodes[i]).from_pred == m
    ||| exists|i: int| 0 <= i < g.nodes.len() && (#[trigger] g.nodes[i]).to_succ == m
}

/// `t` is the number of candidate counters skipped before the first whose
/// temporary name occurs nowhere in `g`.
pub open spec fn fresh_offset_ok(g: CfgV, t: nat) -> bool {
    &&& !mentioned(g, temp_name_v(wrap_counter(g.next_temp + t) as nat))
    &&& forall|j: nat|
        j < t ==> #[trigger] mentioned(g, temp_name_v(wrap_counter(g.next_temp + j) as nat))
}

/// The number of candidate counters skipped by the next temporary-name
/// request on `g`.
pub open spec fn spec_fresh_offset(g: CfgV) -> nat {
    choose|t: nat| fresh_offset_ok(g, t)
}

/// The name handed out by the next temporary-name request on `g`, together
/// with the graph afterwards: the name joins the registry and the counter
/// moves past it.
pub open spec fn spec_create_temp(g: CfgV) -> (NameV, CfgV) {
    let m = temp_name_v(wrap_counter(g.next_temp + spec_fresh_offset(g)) as nat);
    (
        m,
        CfgV {
            entry: g.entry,
            nodes: g.nodes,
            preds: g.preds,
            succs: g.succs,
            temps: g.temps.push(m),
            next_temp: wrap_counter(g.next_temp + spec_fresh_offset(g) + 1),
        },
    )
}

/// At most one offset satisfies `fresh_offset_ok`.
proof fn lemma_fresh_offset_unique(g: CfgV, t1: nat, t2: nat)
    requires
        fresh_offset_ok(g, t1),
        fresh_offset_ok(g, t2),
    ensures
        t1 == t2,
{
    if t1 < t2 {
        assert(mentioned(g, temp_name_v(wrap_counter(g.next_temp + t1) as nat)));
    }
    if t2 < t1 {
        assert(mentioned(g, temp_name_v(wrap_counter(g.next_temp + t2) as nat)));
    }
}

/// No more names can be mentioned in a graph than twice its node count plus
/// its temporary count.
proof fn lemma_mentioned_bound(g: CfgV, s: Seq<NameV>)
    requires
        s.no_duplicates(),
        forall|i: int| 0 <= i < s.len() ==> mentioned(g, #[trigger] s[i]),
    ensures
        s.len() <= 2 * g.nodes.len() + g.temps.len(),
{
    broadcast use vstd::seq_lib::seq_to_set_is_finite;

    let all = g.nodes.map_values(|n: NodeV| n.from_pred) + g.nodes.map_values(
        |n: NodeV| n.to_succ,
    ) + g.temps;
    assert forall|i: int| 0 <= i < s.len() implies all.contains(s[i]) by {
        assert(mentioned(g, s[i]));
        if g.temps.contains(s[i]) {
            let j = choose|j: int| 0 <= j < g.temps.len() && g.temps[j] == s[i];
            assert(all[2 * g.nodes.len() + j] == s[i]);
        } else if exists|j: int| 0 <= j < g.nodes.len() && (#[trigger] g.nodes[j]).from_pred
            == s[i] {
            let j = choose|j: int| 0 <= j < g.nodes.len() && (#[trigger] g.nodes[j]).from_pred
                == s[i];
            assert(all[j] == s[i]);
        } else {
            let j = choose|j: int| 0 <= j < g.nodes.len() && (#[trigger] g.nodes[j]).to_succ
                == s[i];
            assert(all[g.nodes.len() + j] == s[i]);
        }
    }
    s.unique_seq_to_set();
    all.lemma_cardinality_of_set();
    assert(s.to_set().subset_of(all.to_set())) by {
        assert forall|x: NameV| s.to_set().contains(x) implies all.to_set().contains(x) by {
            let i = choose|i: int| 0 <= i < s.len() && s[i] == x;
        }
    }
    vstd::set_lib::lemma_len_subset(s.to_set(), all.to_set());
}

/// How the 128-bit counter steps: adding one, falling back to zero at the
/// top of the range.
proof fn lemma_wrap_step(c: int)
    requires
        c >= 0,
    ensures
        0 <= wrap_counter(c) < counter_modulus(),
        wrap_counter(c + 1) == if wrap_counter(c) == counter_modulus() - 1 {
            0int
        } else {
            wrap_counter(c) + 1
        },
{
    let m = counter_modulus();
    broadcast use vstd::arithmetic::div_mod::lemma_mod_bound;
    broadcast use vstd::arithmetic::div_mod::lemma_fundamental_div_mod;

    let q = c / m;
    let r = c % m;
    assert(c == q * m + r) by {
        assert(c == m * (c / m) + c % m);
    }
    if r == m - 1 {
        vstd::arithmetic::div_mod::lemma_fundamental_div_mod_converse(c + 1, m, q + 1, 0);
    } else {
        vstd::arithmetic::div_mod::lemma_fundamental_div_mod_converse(c + 1, m, q, r + 1);
    }
}

/// The candidate names tried from counter `start` onwards are pairwise
/// distinct, so no more of them can be mentioned in `g` than `g` mentions
/// names at all.
proof fn lemma_tried_bound(g: CfgV, start: int, k: int)
    requires
        0 <= start,
        0 < k <= counter_modulus(),
        forall|j: nat|
            j < k ==> #[trigger] mentioned(g, temp_name_v(wrap_counter(start + j) as nat)),
    ensures
        k <= 2 * g.nodes.len() + g.temps.len(),
{
    broadcast use vstd::arithmetic::div_mod::lemma_mod_bound;

    let m = counter_modulus();
    let s = Seq::<NameV>::new(k as nat, |j: int| temp_name_v(wrap_counter(start + j) as nat));
    assert forall|j1: int, j2: int| 0 <= j1 < j2 < s.len() implies s[j1] != s[j2] by {
        if s[j1] == s[j2] {
            lemma_temp_name_injective(
                wrap_counter(start + j1) as nat,
                wrap_counter(start + j2) as nat,
            );
            let q1 = (start + j1) / m;
            let q2 = (start + j2) / m;
            assert(start + j1 == m * q1 + wrap_counter(start + j1)) by {
                broadcast use vstd::arithmetic::div_mod::lemma_fundamental_div_mod;

            }
            assert(start + j2 == m * q2 + wrap_counter(start + j2)) by {
                broadcast use vstd::arithmetic::div_mod::lemma_fundamental_div_mod;

            }
            assert(j2 - j1 == m * (q2 - q1));
            assert(0 < m * (q2 - q1) < m);
            assert(false) by (nonlinear_arith)
                requires
                    0 < m * (q2 - q1) < m,
            ;
        }
    }
    assert forall|i: int| 0 <= i < s.len() implies mentioned(g, #[trigger] s[i]) by {
        assert(mentioned(g, temp_name_v(wrap_counter(start + i) as nat)));
    }
    lemma_mentioned_bound(g, s);
}

/// Some number of skipped candidates leads to a fresh name: only finitely
/// many names are mentioned in the graph, and candidate names never repeat
/// within a whole wrap of the counter.
proof fn lemma_fresh_exists(g: CfgV, j: int)
    requires
        g.next_temp >= 0,
        2 * g.nodes.len() + g.temps.len() + 1 <= counter_modulus(),
        0 <= j <= 2 * g.nodes.len() + g.temps.len(),
        forall|i: nat|
            i < j ==> #[trigger] mentioned(g, temp_name_v(wrap_counter(g.next_temp + i) as nat)),
    ensures
        exists|t: nat| t <= 2 * g.nodes.len() + g.temps.len() && #[trigger] fresh_offset_ok(g, t),
    decreases 2 * g.nodes.len() + g.temps.len() + 1 - j,
{
    if !mentioned(g, temp_name_v(wrap_counter(g.next_temp + j) as nat)) {
        assert(fresh_offset_ok(g, j as nat));
    } else {
        assert(forall|i: nat|
            i < j + 1 ==> #[trigger] mentioned(
                g,
                temp_name_v(wrap_counter(g.next_temp + i) as nat),
            ));
        lemma_tried_bound(g, g.next_temp, j + 1);
        lemma_fresh_exists(g, j + 1);
    }
}

/// What coining a temporary does to the graph: the name handed out occurs
/// nowhere beforehand, joins the registry, and everything but the counter
/// and the registry stays as it was.
pub proof fn lemma_create_temp_fresh(g: CfgV)
    requires
        g.next_temp >= 0,
        2 * g.nodes.len() + g.temps.len() + 1 <= counter_modulus(),
    ensures
        !mentioned(g, spec_create_temp(g).0),
        spec_create_temp(g).1.entry == g.entry,
        spec_create_temp(g).1.nodes == g.nodes,
        spec_create_temp(g).1.preds == g.preds,
        spec_create_temp(g).1.succs == g.succs,
        spec_create_temp(g).1.temps == g.temps.push(spec_create_temp(g).0),
{
    lemma_fresh_exists(g, 0);
    let t = spec_fresh_offset(g);
    assert(fresh_offset_ok(g, t));
}

/// Short of the counter's 128-bit wrap, every request strictly advances
/// the counter, and the name handed out carries the exact counter value at
/// which it was coined — so the numeric suffixes of successive temporaries
/// strictly increase.
pub proof fn lemma_counter_strictly_increases(g: CfgV)
    requires
        g.next_temp >= 0,
        2 * g.nodes.len() + g.temps.len() + 1 <= counter_modulus(),
        g.next_temp + 2 * g.nodes.len() + g.temps.len() + 1 < counter_modulus(),
    ensures
        spec_create_temp(g).1.next_temp > g.next_temp,
        spec_create_temp(g).0 == temp_name_v((g.next_temp + spec_fresh_offset(g)) as nat),
        spec_fresh_offset(g) <= 2 * g.nodes.len() + g.temps.len(),
{
    lemma_fresh_exists(g, 0);
    let w = choose|t: nat|
        t <= 2 * g.nodes.len() + g.temps.len() && #[trigger] fresh_offset_ok(g, t);
    let t = spec_fresh_offset(g);
    assert(fresh_offset_ok(g, t));
    lemma_fresh_offset_unique(g, w, t);
    vstd::arithmetic::div_mod::lemma_small_mod(
        (g.next_temp + t) as nat,
        counter_modulus() as nat,
    );
    vstd::arithmetic::div_mod::lemma_small_mod(
        (g.next_temp + t + 1) as nat,
        counter_modulus() as nat,
    );
}

/// A mutable directed graph over [`CFGNode`]s, with an entry node, ordered
/// duplicate-free adjacency, and a registry of synthesised temporary names.
#[derive(Debug)]
pub struct ControlFlowGraph {
    entry: CFGNode,
    nodes: UniqueVec<CFGNode>,
    preds: AdjMap,
    succs: AdjMap,
    temps: UniqueVec<Name>,
    next_temp: u128,
}

impl Clone for ControlFlowGraph {
    fn clone(&self) -> (r: Self)
        ensures
            r@ == self@,
            self.inv() ==> r.inv(),
    {
        proof {
            assert(crate::util::unique_vec::clone_keeps_view::<CFGNode>());
            assert(crate::util::unique_vec::clone_keeps_view::<Name>());
        }
        ControlFlowGraph {
            entry: self.entry.clone(),
            nodes: self.nodes.clone(),
            preds: self.preds.clone(),
            succs: self.succs.clone(),
            temps: self.temps.clone(),
            next_temp: self.next_temp,
        }
    }
}

impl View for ControlFlowGraph {
    type V = CfgV;

    closed spec fn view(&self) -> CfgV {
        CfgV {
            entry: self.entry@,
            nodes: self.nodes@,
            preds: self.preds@,
            succs: self.succs@,
            temps: self.temps@,
            next_temp: self.next_temp as int,
        }
    }
}

impl ControlFlowGraph {
    /// Representation invariant of the stored adjacency.
    pub closed spec fn inv(&self) -> bool {
        &&& self.preds.inv()
        &&& self.succs.inv()
    }

    /// Build the control-flow graph of `function`: the first block is the
    /// entry node, and every terminator contributes its outgoing edges in
    /// the order it lists its targets.
    pub fn new(function: &Function) -> (r: Self)
        requires
            function.basic_blocks@.len() >= 1,
        ensures
            r.inv(),
            r@ == spec_cfg_new(function@),
            cfg_wf(r@),
    {
        let ghost f = function@;
        let mut cfg = ControlFlowGraph {
            entry: CFGNode::from_name(&function.basic_blocks[0].name),
            nodes: UniqueVec::new(),
            preds: AdjMap::new(),
            succs: AdjMap::new(),
            temps: UniqueVec::new(),
            next_temp: 0,
        };
        proof {
            assert(cfg@ == spec_cfg_init(f));
            assert(cfg_wf(cfg@));
            assert(f.skip(0) =~= f);
        }
        let n = function.basic_blocks.len();
        let mut i: usize = 0;
        while i < n
            invariant
                cfg.inv(),
                cfg_wf(cfg@),
                f == function@,
                n == f.len(),
                i <= n,
                spec_build(cfg@, f.skip(i as int)) == spec_cfg_new(f),
            decreases n - i,
        {
            let block = &function.basic_blocks[i];
            let from = CFGNode::from_name(&block.name);
            let ghost pre = cfg@;
            proof {
                assert(block@ == f[i as int]);
                assert(from@ == node_of_name(f[i as int].name));
            }
            match &block.term {
                Terminator::Br { dest } => {
                    cfg.add_edge(&from, &CFGNode::from_name(dest));
                },
                Terminator::CondBr { true_dest, false_dest } => {
                    cfg.add_edge(&from, &CFGNode::from_name(true_dest));
                    cfg.add_edge(&from, &CFGNode::from_name(false_dest));
                },
                Terminator::Switch { dests, default_dest } => {
                    let ghost dv = dests@.map_values(|nm: Name| nm@);
                    proof {
                        assert(dv.skip(0) =~= dv);
                    }
                    let m = dests.len();
                    let mut j: usize = 0;
                    while j < m
                        invariant
                            cfg.inv(),
                            cfg_wf(cfg@),
                            f == function@,
                            n == f.len(),
                            i < n,
                            m == dests@.len(),
                            dv == dests@.map_values(|nm: Name| nm@),
                            j <= m,
                            from@ == node_of_name(f[i as int].name),
                            spec_add_edge_list(cfg@, from@, dv.skip(j as int))
                                == spec_add_edge_list(pre, from@, dv),
                        decreases m - j,
                    {
                        cfg.add_edge(&from, &CFGNode::from_name(&dests[j]));
                        proof {
                            assert(dv.skip(j as int).drop_first() =~= dv.skip(j as int + 1));
                            assert(dv.skip(j as int)[0] == dv[j as int]);
                        }
                        j = j + 1;
                    }
                    proof {
                        assert(dv.skip(m as int) =~= Seq::<NameV>::empty());
                        assert(cfg@ == spec_add_edge_list(pre, from@, dv));
                    }
                    cfg.add_edge(&from, &CFGNode::from_name(default_dest));
                },
                Terminator::IndirectBr { possible_dests } => {
                    let ghost dv = possible_dests@.map_values(|nm: Name| nm@);
                    proof {
                        assert(dv.skip(0) =~= dv);
                    }
                    let m = possible_dests.len();
                    let mut j: usize = 0;
                    while j < m
                        invariant
                            cfg.inv(),
                            cfg_wf(cfg@),
                            f == function@,
                            n == f.len(),
                            i < n,
                            m == possible_dests@.len(),
                            dv == possible_dests@.map_values(|nm: Name| nm@),
                            j <= m,
                            from@ == node_of_name(f[i as int].name),
                            spec_add_edge_list(cfg@, from@, dv.skip(j as int))
                                == spec_add_edge_list(pre, from@, dv),
                        decreases m - j,
                    {
                        cfg.add_edge(&from, &CFGNode::from_name(&possible_dests[j]));
                        proof {
                            assert(dv.skip(j as int).drop_first() =~= dv.skip(j as int + 1));
                            assert(dv.skip(j as int)[0] == dv[j as int]);
                        }
                        j = j + 1;
                    }
                    proof {
                        assert(dv.skip(m as int) =~= Seq::<NameV>::empty());
                        assert(cfg@ == spec_add_edge_list(pre, from@, dv));
                    }
                },
                Terminator::Ret => {},
                Terminator::Unreachable => {},
            }
            proof {
                assert(cfg@ == spec_block_edges(pre, f[i as int]));
                assert(f.skip(i as int)[0] == f[i as int]);
                assert(f.skip(i as int).drop_first() =~= f.skip(i as int + 1));
                assert(spec_build(cfg@, f.skip(i as int + 1)) == spec_cfg_new(f));
            }
            i = i + 1;
        }
        proof {
            assert(f.skip(n as int) =~= Seq::<BlockV>::empty());
        }
        cfg
    }

    /// The entry node of the graph.
    pub fn entry(&self) -> (r: &CFGNode)
        ensures
            r@ == self@.entry,
    {
        &self.entry
    }

    pub(crate) fn set_entry(&mut self, node: CFGNode)
        requires
            old(self).inv(),
        ensures
            final(self).inv(),
            final(self)@ == (CfgV { entry: node@, ..old(self)@ }),
    {
        self.entry = node;
    }

    /// Every node currently in the graph, in insertion order.
    pub fn nodes(&self) -> (r: &UniqueVec<CFGNode>)
        ensures
            r@ == self@.nodes,
    {
        &self.nodes
    }

    /// The predecessors of `node`, when any were ever recorded.
    pub fn preds(&self, node: &CFGNode) -> (r: Option<&UniqueVec<CFGNode>>)
        requires
            self.inv(),
        ensures
            match r {
                Some(l) => {
                    &&& self@.preds.contains_key(node@)
                    &&& l@ == self@.preds[node@]
                    &&& l@ == self@.preds_of(node@)
                    &&& l.wf()
                },
                None => !self@.preds.contains_key(node@) && self@.preds_of(node@)
                    == Seq::<NodeV>::empty(),
            },
    {
        self.preds.get(node)
    }

    /// The successors of `node`, when any were ever recorded.
    pub fn succs(&self, node: &CFGNode) -> (r: Option<&UniqueVec<CFGNode>>)
        requires
            self.inv(),
        ensures
            match r {
                Some(l) => {
                    &&& self@.succs.contains_key(node@)
                    &&& l@ == self@.succs[node@]
                    &&& l@ == self@.succs_of(node@)
                    &&& l.wf()
                },
                None => !self@.succs.contains_key(node@) && self@.succs_of(node@)
                    == Seq::<NodeV>::empty(),
            },
    {
        self.succs.get(node)
    }

    /// Every temporary name ever created for this graph.
    pub fn temps(&self) -> (r: &UniqueVec<Name>)
        ensures
            r@ == self@.temps,
    {
        &self.temps
    }

    /// Draw an edge from `from` to `to`, registering both endpoints.
    ///
    /// Repeating an existing edge changes nothing.
    pub fn add_edge(&mut self, from: &CFGNode, to: &CFGNode)
        requires
            old(self).inv(),
        ensures
            final(self).inv(),
            final(self)@ == spec_add_edge(old(self)@, from@, to@),
            cfg_wf(old(self)@) ==> cfg_wf(final(self)@),
    {
        proof {
            assert(eq_decides_view::<CFGNode>());
        }
        self.preds.add_to(to, from.clone());
        self.succs.add_to(from, to.clone());
        self.nodes.insert(from.clone());
        self.nodes.insert(to.clone());
        proof {
            assert(final(self)@ == spec_add_edge(old(self)@, from@, to@));
            if cfg_wf(old(self)@) {
                lemma_add_edge_wf(old(self)@, from@, to@);
            }
        }
    }

    /// Erase `node` together with every edge into or out of it.
    pub fn remove_node(&mut self, node: &CFGNode)
        requires
            old(self).inv(),
        ensures
            final(self).inv(),
            final(self)@ == spec_remove_node(old(self)@, node@),
            cfg_wf(old(self)@) ==> {
                &&& cfg_wf(final(self)@)
                &&& !final(self)@.nodes.contains(node@)
                &&& forall|k: NodeV| !(#[trigger] final(self)@.preds_of(k)).contains(node@)
                &&& forall|k: NodeV| !(#[trigger] final(self)@.succs_of(k)).contains(node@)
            },
    {
        proof {
            assert(eq_decides_view::<CFGNode>());
        }
        self.nodes.remove(node);
        self.preds.remove_key(node);
        self.succs.remove_key(node);
        self.preds.remove_from_all(node);
        self.succs.remove_from_all(node);
        proof {
            let g = old(self)@;
            let n = node@;
            assert(self@.preds =~= spec_remove_node(g, n).preds);
            assert(self@.succs =~= spec_remove_node(g, n).succs);
            assert(self@ == spec_remove_node(g, n));
            if cfg_wf(g) {
                lemma_remove_node_wf(g, n);
            }
        }
    }

    /// Splice `node` between `after` and `before`: the direct edge from
    /// `after` to `before` is cut and both halves are routed through `node`.
    pub fn insert_node(&mut self, node: &CFGNode, after: &CFGNode, before: &CFGNode)
        requires
            old(self).inv(),
        ensures
            final(self).inv(),
            final(self)@ == spec_insert_node(old(self)@, node@, after@, before@),
            cfg_wf(old(self)@) ==> cfg_wf(final(self)@),
    {
        proof {
            assert(eq_decides_view::<CFGNode>());
        }
        self.succs.remove_from(after, before);
        self.preds.remove_from(before, after);
        proof {
            assert(self@ == spec_del_edge(old(self)@, after@, before@));
            if cfg_wf(old(self)@) {
                lemma_del_edge_wf(old(self)@, after@, before@);
            }
        }
        self.add_edge(after, node);
        self.add_edge(node, before);
    }

    /// Whether `m` occurs anywhere in the graph.
    fn name_mentioned(&self, m: &Name) -> (r: bool)
        requires
            self.inv(),
        ensures
            r == mentioned(self@, m@),
    {
        proof {
            assert(eq_decides_view::<Name>());
        }
        if self.temps.contains(m) {
            return true;
        }
        let ns = self.nodes.iter();
        let n = ns.len();
        let mut i: usize = 0;
        while i < n
            invariant
                n == ns@.len(),
                ns@.len() == self@.nodes.len(),
                forall|j: int| 0 <= j < ns@.len() ==> ns@[j]@ == self@.nodes[j],
                i <= n,
                forall|j: int|
                    0 <= j < i ==> (#[trigger] self@.nodes[j]).from_pred != m@
                        && self@.nodes[j].to_succ != m@,
            decreases n - i,
        {
            if *ns[i].from_pred() == *m {
                assert(self@.nodes[i as int].from_pred == m@);
                return true;
            }
            if *ns[i].to_succ() == *m {
                assert(self@.nodes[i as int].to_succ == m@);
                return true;
            }
            i = i + 1;
        }
        false
    }

    /// Coin a fresh temporary name: the first counter value whose rendered
    /// name occurs nowhere in the graph names the temporary, the name is
    /// recorded in the registry, and the counter moves past it. The name is
    /// handed back without being inserted as a node.
    pub fn create_temporary_node(&mut self) -> (r: Name)
        requires
            old(self).inv(),
        ensures
            final(self).inv(),
            r@ == spec_create_temp(old(self)@).0,
            final(self)@ == spec_create_temp(old(self)@).1,
            !mentioned(old(self)@, r@),
            cfg_wf(old(self)@) ==> cfg_wf(final(self)@),
    {
        let ghost g0 = self@;
        let ghost start: int = g0.next_temp;
        let n_nodes = self.nodes.len();
        let n_temps = self.temps.len();
        let ghost bound: int = 2 * n_nodes as int + n_temps as int;
        let ghost mut tries: int = 0;
        proof {
            assert(bound == 2 * g0.nodes.len() + g0.temps.len());
            assert(bound + 1 <= counter_modulus());
        }
        proof {
            lemma_wrap_step(start);
            vstd::arithmetic::div_mod::lemma_small_mod(start as nat, counter_modulus() as nat);
        }
        let mut name = Name::Ident(temp_name_text(self.next_temp));
        if self.next_temp == u128::MAX {
            self.next_temp = 0;
        } else {
            self.next_temp = self.next_temp + 1;
        }
        proof {
            assert(name@ == temp_name_v(wrap_counter(start + tries) as nat));
            assert(self@.next_temp == wrap_counter(start + tries + 1));
        }
        while self.name_mentioned(&name)
            invariant
                self.inv(),
                self@.entry == g0.entry,
                self@.nodes == g0.nodes,
                self@.preds == g0.preds,
                self@.succs == g0.succs,
                self@.temps == g0.temps,
                start == g0.next_temp,
                0 <= start < counter_modulus(),
                bound == 2 * g0.nodes.len() + g0.temps.len(),
                bound + 1 <= counter_modulus(),
                0 <= tries <= bound,
                name@ == temp_name_v(wrap_counter(start + tries) as nat),
                self@.next_temp == wrap_counter(start + tries + 1),
                forall|j: nat|
                    j < tries ==> #[trigger] mentioned(
                        g0,
                        temp_name_v(wrap_counter(start + j) as nat),
                    ),
            decreases bound - tries,
        {
            proof {
                assert(mentioned(g0, temp_name_v(wrap_counter(start + tries) as nat)));
                assert(forall|j: nat|
                    j < tries + 1 ==> #[trigger] mentioned(
                        g0,
                        temp_name_v(wrap_counter(start + j) as nat),
                    ));
                lemma_tried_bound(g0, start, tries + 1);
                tries = tries + 1;
                lemma_wrap_step(start + tries);
            }
            name = Name::Ident(temp_name_text(self.next_temp));
            if self.next_temp == u128::MAX {
                self.next_temp = 0;
            } else {
                self.next_temp = self.next_temp + 1;
            }
            proof {
                assert(name@ == temp_name_v(wrap_counter(start + tries) as nat));
                assert(self@.next_temp == wrap_counter(start + tries + 1));
            }
        }
        proof {
            assert(eq_decides_view::<Name>());
            assert(fresh_offset_ok(g0, tries as nat));
            lemma_fresh_offset_unique(g0, tries as nat, spec_fresh_offset(g0));
            assert(!g0.temps.contains(name@));
        }
        self.temps.insert(name.clone());
        proof {
            assert(self@.temps =~= spec_create_temp(g0).1.temps);
            assert(self@ == spec_create_temp(g0).1);
            if cfg_wf(g0) {
                lemma_seq_insert_unique_props(g0.temps, name@);
                assert(self@.temps == seq_insert_unique(g0.temps, name@));
                assert(self@.temps.no_duplicates());
                assert(self@.nodes == g0.nodes);
                assert(self@.preds == g0.preds);
                assert(self@.succs == g0.succs);
                assert(self@.nodes.no_duplicates());
                assert(forall|k: NodeV| #[trigger]
                    self@.preds.contains_key(k) ==> self@.nodes.contains(k));
                assert(forall|k: NodeV| #[trigger]
                    self@.succs.contains_key(k) ==> self@.nodes.contains(k));
                assert(adj_lists_distinct(self@.preds));
                assert(adj_lists_distinct(self@.succs));
                assert(forall|k: NodeV, x: NodeV|
                    self@.preds.contains_key(k) && #[trigger] self@.preds[k].contains(x)
                        ==> self@.nodes.contains(x));
                assert(forall|k: NodeV, x: NodeV|
                    self@.succs.contains_key(k) && #[trigger] self@.succs[k].contains(x)
                        ==> self@.nodes.contains(x));
                assert forall|u: NodeV, v: NodeV|
                    #![trigger self@.succs_of(u).contains(v)]
                    #![trigger self@.preds_of(v).contains(u)]
                    self@.succs_of(u).contains(v) <==> self@.preds_of(v).contains(u) by {
                    assert(self@.succs_of(u) == g0.succs_of(u));
                    assert(self@.preds_of(v) == g0.preds_of(v));
                    assert(g0.succs_of(u).contains(v) <==> g0.preds_of(v).contains(u));
                }
                assert(cfg_wf(self@));
            }
        }
        name
    }
}

} // verus!
