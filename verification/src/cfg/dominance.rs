use vstd::prelude::*;

use crate::cfg::CfgV;
use crate::cfg::ControlFlowGraph;
use crate::cfg::cfg_wf;
use crate::cfg::node::CFGNode;
use crate::cfg::node::NodeV;
use crate::util::unique_vec::UniqueVec;
use crate::util::unique_vec::eq_decides_view;

verus! {

/// Consecutive elements of `p` are joined by edges of `g`.
pub open spec fn is_path(g: CfgV, p: Seq<NodeV>) -> bool {
    forall|i: int| 0 <= i < p.len() - 1 ==> g.succs_of(#[trigger] p[i]).contains(p[i + 1])
}

/// `p` walks from `a` to `b` along edges of `g`.
pub open spec fn path_from_to(g: CfgV, p: Seq<NodeV>, a: NodeV, b: NodeV) -> bool {
    &&& p.len() >= 1
    &&& p[0] == a
    &&& p.last() == b
    &&& is_path(g, p)
}

/// No element of `p` is `n`.
pub open spec fn path_avoids(p: Seq<NodeV>, n: NodeV) -> bool {
    forall|i: int| 0 <= i < p.len() ==> #[trigger] p[i] != n
}

/// Some walk of `g` leads from `a` to `b` without ever touching `n`.
#[verifier::opaque]
pub open spec fn reaches_avoiding(g: CfgV, a: NodeV, b: NodeV, n: NodeV) -> bool {
    exists|p: Seq<NodeV>| path_from_to(g, p, a, b) && path_avoids(p, n)
}

/// `through` dominates `to`: every walk from the entry to `to` passes
/// through `through`. A node dominates itself.
pub open spec fn spec_dominates(g: CfgV, through: NodeV, to: NodeV) -> bool {
    through == to || !reaches_avoiding(g, g.entry, to, through)
}

/// Every node dominates itself.
pub proof fn lemma_dominates_self(g: CfgV, n: NodeV)
    ensures
        spec_dominates(g, n, n),
{
}

/// The entry dominates every node, reachable or not.
pub proof fn lemma_entry_dominates(g: CfgV, n: NodeV)
    ensures
        spec_dominates(g, g.entry, n),
{
    reveal(reaches_avoiding);
    if g.entry != n && reaches_avoiding(g, g.entry, n, g.entry) {
        let p = choose|p: Seq<NodeV>|
            path_from_to(g, p, g.entry, n) && path_avoids(p, g.entry);
        assert(p[0] == g.entry);
        assert(p[0] != g.entry);
    }
}

/// Walking a path that avoids `through` never leaves a set that is closed
/// under successors other than `through`.
proof fn lemma_path_stays(g: CfgV, vis: Seq<NodeV>, p: Seq<NodeV>, through: NodeV, i: int)
    requires
        is_path(g, p),
        path_avoids(p, through),
        0 <= i < p.len(),
        vis.contains(p[0]),
        forall|x: NodeV, s: NodeV|
            vis.contains(x) && #[trigger] g.succs_of(x).contains(s) && s != through
                ==> vis.contains(s),
    ensures
        vis.contains(p[i]),
    decreases i,
{
    if i > 0 {
        lemma_path_stays(g, vis, p, through, i - 1);
        assert(g.succs_of(p[i - 1]).contains(p[i]));
        assert(p[i] != through);
    }
}

/// A closed set holding the entry but not `to` shows `to` cannot be reached
/// while avoiding `through`.
proof fn lemma_closed_unreachable(g: CfgV, vis: Seq<NodeV>, to: NodeV, through: NodeV)
    requires
        vis.contains(g.entry),
        !vis.contains(to),
        forall|x: NodeV, s: NodeV|
            vis.contains(x) && #[trigger] g.succs_of(x).contains(s) && s != through
                ==> vis.contains(s),
    ensures
        !reaches_avoiding(g, g.entry, to, through),
{
    reveal(reaches_avoiding);
    if reaches_avoiding(g, g.entry, to, through) {
        let p = choose|p: Seq<NodeV>|
            path_from_to(g, p, g.entry, to) && path_avoids(p, through);
        lemma_path_stays(g, vis, p, through, p.len() - 1);
        assert(vis.contains(to));
    }
}

/// One edge extends a walk: a successor of a reached node is reached, as
/// long as it is not the avoided node.
proof fn lemma_extend_reach(g: CfgV, at: NodeV, next: NodeV, through: NodeV)
    requires
        reaches_avoiding(g, g.entry, at, through),
        g.succs_of(at).contains(next),
        next != through,
    ensures
        reaches_avoiding(g, g.entry, next, through),
{
    reveal(reaches_avoiding);
    let p = choose|p: Seq<NodeV>| path_from_to(g, p, g.entry, at) && path_avoids(p, through);
    let p2 = p.push(next);
    assert(path_from_to(g, p2, g.entry, next)) by {
        assert(p2[0] == p[0]);
        assert(p2.last() == next);
        assert forall|i: int| 0 <= i < p2.len() - 1 implies g.succs_of(
            #[trigger] p2[i],
        ).contains(p2[i + 1]) by {
            if i < p.len() - 1 {
                assert(p2[i] == p[i] && p2[i + 1] == p[i + 1]);
            } else {
                assert(p2[i] == at && p2[i + 1] == next);
            }
        }
    }
    assert(path_avoids(p2, through)) by {
        assert forall|i: int| 0 <= i < p2.len() implies #[trigger] p2[i] != through by {
            if i < p.len() {
                assert(p2[i] == p[i]);
            }
        }
    }
}

/// A duplicate-free sequence whose elements come from `nodes` or equal
/// `extra` cannot outgrow `nodes` by more than one.
proof fn lemma_visited_bound(nodes: Seq<NodeV>, vis: Seq<NodeV>, extra: NodeV)
    requires
        vis.no_duplicates(),
        forall|x: NodeV| #[trigger] vis.contains(x) ==> nodes.contains(x) || x == extra,
    ensures
        vis.len() <= nodes.len() + 1,
{
    broadcast use vstd::seq_lib::seq_to_set_is_finite;
    broadcast use vstd::set_lib::lemma_set_insert_finite_iff;

    vis.unique_seq_to_set();
    nodes.lemma_cardinality_of_set();
    let big = nodes.to_set().insert(extra);
    assert(vis.to_set().subset_of(big)) by {
        assert forall|x: NodeV| vis.to_set().contains(x) implies big.contains(x) by {
            assert(vis.contains(x));
        }
    }
    vstd::set_lib::lemma_len_subset(vis.to_set(), big);
    if nodes.to_set().contains(extra) {
        assert(big =~= nodes.to_set());
    } else {
        assert(big.len() == nodes.to_set().len() + 1);
    }
}

impl ControlFlowGraph {
    /// Whether `through` dominates `to`: `true` exactly when every walk from
    /// the entry to `to` passes through `through`. A node always dominates
    /// itself, and the entry dominates everything.
    #[verifier::rlimit(100)]
    pub fn dominates(&self, through: &CFGNode, to: &CFGNode) -> (r: bool)
        requires
            self.inv(),
            cfg_wf(self@),
        ensures
            r == spec_dominates(self@, through@, to@),
    {
        proof {
            assert(eq_decides_view::<CFGNode>());
        }
        let ghost g = self@;
        if *through == *to {
            return true;
        }
        let entry = self.entry().clone();
        if entry == *through {
            proof {
                lemma_entry_dominates(g, to@);
            }
            return true;
        }
        let mut visited = UniqueVec::<CFGNode>::new();
        let mut stack: Vec<CFGNode> = Vec::new();
        let ghost entry_v = entry@;
        stack.push(entry);
        proof {
            let p = seq![g.entry];
            assert(path_from_to(g, p, g.entry, g.entry));
            assert(path_avoids(p, through@));
            assert(reaches_avoiding(g, g.entry, g.entry, through@)) by {
                reveal(reaches_avoiding);
            }
            assert(stack@[0]@ == g.entry);
        }
        loop
            invariant
                self.inv(),
                cfg_wf(g),
                g == self@,
                through@ != to@,
                g.entry != through@,
                visited.wf(),
                forall|i: int|
                    0 <= i < visited@.len() ==> (#[trigger] visited@[i]) != through@
                        && visited@[i] != to@ && reaches_avoiding(g, g.entry, visited@[i], through@)
                        && (g.nodes.contains(visited@[i]) || visited@[i] == g.entry),
                forall|i: int|
                    0 <= i < stack@.len() ==> (#[trigger] stack@[i]@) != through@
                        && reaches_avoiding(g, g.entry, stack@[i]@, through@) && (g.nodes.contains(
                        stack@[i]@,
                    ) || stack@[i]@ == g.entry),
                visited@.contains(g.entry) || (exists|i: int|
                    0 <= i < stack@.len() && (#[trigger] stack@[i]@) == g.entry),
                forall|x: NodeV, s: NodeV|
                    visited@.contains(x) && #[trigger] g.succs_of(x).contains(s) && s != through@
                        ==> visited@.contains(s) || (exists|i: int|
                        0 <= i < stack@.len() && (#[trigger] stack@[i]@) == s),
            decreases g.nodes.len() + 1 - visited@.len(), stack@.len(),
        {
            proof {
                lemma_visited_bound(g.nodes, visited@, g.entry);
            }
            let ghost pre_stack = stack@;
            let u = match stack.pop() {
                Some(u) => u,
                None => {
                    proof {
                        lemma_closed_unreachable(g, visited@, to@, through@);
                    }
                    return true;
                },
            };
            if u == *to {
                proof {
                    assert(reaches_avoiding(g, g.entry, to@, through@));
                }
                return false;
            }
            if visited.contains(&u) {
                proof {
                    assert forall|s: NodeV|
                        (exists|i: int| 0 <= i < pre_stack.len() && (#[trigger] pre_stack[i]@)
                            == s) implies visited@.contains(s) || (exists|i: int|
                        0 <= i < stack@.len() && (#[trigger] stack@[i]@) == s) by {
                        let i = choose|i: int|
                            0 <= i < pre_stack.len() && (#[trigger] pre_stack[i]@) == s;
                        if i == pre_stack.len() - 1 {
                            assert(s == u@);
                        } else {
                            assert(stack@[i]@ == s);
                        }
                    }
                }
                continue;
            }
            let ghost pre_vis = visited@;
            visited.insert(u.clone());
            let ghost popped = u@;
            proof {
                assert(visited@ == pre_vis.push(popped));
                assert(visited@.contains(popped)) by {
                    assert(visited@[pre_vis.len() as int] == popped);
                }
                assert forall|x: NodeV| pre_vis.contains(x) implies visited@.contains(x) by {
                    let i = choose|i: int| 0 <= i < pre_vis.len() && pre_vis[i] == x;
                    assert(visited@[i] == x);
                }
                assert forall|x: NodeV| visited@.contains(x) implies pre_vis.contains(x) || x
                    == popped by {
                    let i = choose|i: int| 0 <= i < visited@.len() && visited@[i] == x;
                    if i < pre_vis.len() {
                        assert(pre_vis[i] == x);
                    }
                }
                assert forall|s: NodeV|
                    (exists|i: int| 0 <= i < pre_stack.len() && (#[trigger] pre_stack[i]@)
                        == s) implies visited@.contains(s) || (exists|i: int|
                    0 <= i < stack@.len() && (#[trigger] stack@[i]@) == s) by {
                    let i = choose|i: int|
                        0 <= i < pre_stack.len() && (#[trigger] pre_stack[i]@) == s;
                    if i == pre_stack.len() - 1 {
                        assert(s == popped);
                    } else {
                        assert(stack@[i]@ == s);
                    }
                }
                lemma_visited_bound(g.nodes, visited@, g.entry);
            }
            match self.succs(&u) {
                Some(l) => {
                    proof {
                        assert forall|x: NodeV, s: NodeV|
                            visited@.contains(x) && #[trigger] g.succs_of(x).contains(s) && s
                                != through@ && !(x == popped && exists|jj: int|
                                0 <= jj < g.succs_of(popped).len() && g.succs_of(popped)[jj]
                                    == s) implies visited@.contains(s) || (exists|i: int|
                            0 <= i < stack@.len() && (#[trigger] stack@[i]@) == s) by {
                            if x == popped {
                                let jj = choose|jj: int|
                                    0 <= jj < g.succs_of(popped).len() && g.succs_of(popped)[jj]
                                        == s;
                                assert(false);
                            } else {
                                assert(pre_vis.contains(x));
                            }
                        }
                    }
                    let items = l.iter();
                    let m = items.len();
                    let mut j: usize = 0;
                    while j < m
                        invariant
                            self.inv(),
                            cfg_wf(g),
                            g == self@,
                            through@ != to@,
                            g.entry != through@,
                            visited.wf(),
                            m == items@.len(),
                            forall|jj: int| 0 <= jj < m ==> items@[jj]@ == g.succs_of(popped)[jj],
                            m == g.succs_of(popped).len(),
                            j <= m,
                            visited@.contains(popped),
                            forall|i: int|
                                0 <= i < visited@.len() ==> (#[trigger] visited@[i]) != through@
                                    && visited@[i] != to@ && reaches_avoiding(
                                    g,
                                    g.entry,
                                    visited@[i],
                                    through@,
                                ) && (g.nodes.contains(visited@[i]) || visited@[i] == g.entry),
                            forall|i: int|
                                0 <= i < stack@.len() ==> (#[trigger] stack@[i]@) != through@
                                    && reaches_avoiding(g, g.entry, stack@[i]@, through@) && (
                                g.nodes.contains(stack@[i]@) || stack@[i]@ == g.entry),
                            visited@.contains(g.entry) || (exists|i: int|
                                0 <= i < stack@.len() && (#[trigger] stack@[i]@) == g.entry),
                            forall|x: NodeV, s: NodeV|
                                visited@.contains(x) && #[trigger] g.succs_of(x).contains(s) && s
                                    != through@ && !(x == popped && exists|jj: int|
                                    j <= jj < m && g.succs_of(popped)[jj] == s)
                                    ==> visited@.contains(s) || (exists|i: int|
                                    0 <= i < stack@.len() && (#[trigger] stack@[i]@) == s),
                        decreases m - j,
                    {
                        let s = &items[j];
                        let ghost pre_inner = stack@;
                        if !(*s == *through) {
                            stack.push(s.clone());
                            proof {
                                let ghost sv = s@;
                                assert(stack@[stack@.len() - 1]@ == sv);
                                assert forall|i: int|
                                    0 <= i < pre_inner.len() implies (#[trigger] stack@[i])
                                        == pre_inner[i] by {
                                    assert(stack@[i] == pre_inner[i]);
                                }
                                assert(g.succs_of(popped)[j as int] == sv);
                                assert(g.succs_of(popped).contains(sv));
                                let i = choose|i: int|
                                    0 <= i < visited@.len() && visited@[i] == popped;
                                lemma_extend_reach(g, popped, sv, through@);
                                assert(g.nodes.contains(sv));
                            }
                        }
                        proof {
                            let ghost sv = g.succs_of(popped)[j as int];
                            assert forall|i: int|
                                0 <= i < pre_inner.len() implies (#[trigger] stack@[i])
                                    == pre_inner[i] by {
                                assert(stack@[i] == pre_inner[i]);
                            }
                            assert(visited@.contains(g.entry) || (exists|i: int|
                                0 <= i < stack@.len() && (#[trigger] stack@[i]@) == g.entry)) by {
                                if !visited@.contains(g.entry) {
                                    let i = choose|i: int|
                                        0 <= i < pre_inner.len() && (#[trigger] pre_inner[i]@)
                                            == g.entry;
                                    assert(stack@[i]@ == g.entry);
                                }
                            }
                            assert forall|x: NodeV, s2: NodeV|
                                visited@.contains(x) && #[trigger] g.succs_of(x).contains(s2) && s2
                                    != through@ && !(x == popped && exists|jj: int|
                                    j + 1 <= jj < m && g.succs_of(popped)[jj]
                                        == s2) implies visited@.contains(s2) || (exists|i: int|
                                0 <= i < stack@.len() && (#[trigger] stack@[i]@) == s2) by {
                                if x == popped && (exists|jj: int|
                                    j <= jj < m && g.succs_of(popped)[jj] == s2) {
                                    let jj = choose|jj: int|
                                        j <= jj < m && g.succs_of(popped)[jj] == s2;
                                    assert(jj == j);
                                    assert(s2 == sv);
                                    assert(s2 != through@);
                                    assert(stack@[stack@.len() - 1]@ == sv);
                                } else {
                                    if !visited@.contains(s2) {
                                        let i = choose|i: int|
                                            0 <= i < pre_inner.len() && (#[trigger] pre_inner[i]@)
                                                == s2;
                                        assert(stack@[i]@ == s2);
                                    }
                                }
                            }
                        }
                        j = j + 1;
                    }
                    proof {
                        assert forall|x: NodeV, s: NodeV|
                            visited@.contains(x) && #[trigger] g.succs_of(x).contains(s) && s
                                != through@ implies visited@.contains(s) || (exists|i: int|
                            0 <= i < stack@.len() && (#[trigger] stack@[i]@) == s) by {
                            if x == popped {
                                assert(!(exists|jj: int|
                                    m <= jj < m && g.succs_of(popped)[jj] == s));
                            }
                        }
                    }
                },
                None => {},
            }
        }
    }
}

} // verus!
