use vstd::prelude::*;

use crate::cfg::node::CFGNode;
use crate::cfg::node::NodeV;
use crate::util::unique_vec::UniqueVec;
use crate::util::unique_vec::eq_decides_view;
use crate::util::unique_vec::seq_insert_unique;
use crate::util::unique_vec::seq_remove_first;

verus! {

/// The list `k` maps to, or the empty sequence when `k` is absent.
pub open spec fn adj_of(m: Map<NodeV, Seq<NodeV>>, k: NodeV) -> Seq<NodeV> {
    if m.contains_key(k) {
        m[k]
    } else {
        Seq::empty()
    }
}

/// Every adjacency list of `m` is free of duplicates.
pub open spec fn adj_lists_distinct(m: Map<NodeV, Seq<NodeV>>) -> bool {
    forall|k: NodeV| #[trigger] m.contains_key(k) ==> m[k].no_duplicates()
}

/// One adjacency side of a graph: a finite map from nodes to ordered lists
/// of neighbour nodes, stored as an association list so that all contracts
/// can speak of an abstract `Map`.
#[derive(Debug)]
pub struct AdjMap {
    entries: Vec<(CFGNode, UniqueVec<CFGNode>)>,
}

/// The map an association list denotes; later entries would shadow earlier
/// ones, though the representation keeps keys distinct.
pub closed spec fn entries_map(s: Seq<(CFGNode, UniqueVec<CFGNode>)>) -> Map<NodeV, Seq<NodeV>>
    decreases s.len(),
{
    if s.len() == 0 {
        Map::empty()
    } else {
        entries_map(s.drop_last()).insert(s.last().0@, s.last().1@)
    }
}

spec fn keys_distinct(s: Seq<(CFGNode, UniqueVec<CFGNode>)>) -> bool {
    forall|i: int, j: int| 0 <= i < j < s.len() ==> s[i].0@ != s[j].0@
}

proof fn lemma_entries_map_dom(s: Seq<(CFGNode, UniqueVec<CFGNode>)>)
    ensures
        forall|k: NodeV| #[trigger]
            entries_map(s).contains_key(k) <==> exists|i: int| 0 <= i < s.len() && s[i].0@ == k,
        entries_map(s).dom().finite(),
    decreases s.len(),
{
    if s.len() == 0 {
    } else {
        lemma_entries_map_dom(s.drop_last());
        assert forall|k: NodeV| #[trigger] entries_map(s).contains_key(k) implies exists|i: int|
            0 <= i < s.len() && s[i].0@ == k by {
            if k == s.last().0@ {
                assert(s[s.len() - 1].0@ == k);
            } else {
                let i = choose|i: int| 0 <= i < s.drop_last().len() && s.drop_last()[i].0@ == k;
                assert(s[i].0@ == k);
            }
        }
        assert forall|k: NodeV| (exists|i: int| 0 <= i < s.len() && s[i].0@ == k) implies #[trigger]
            entries_map(s).contains_key(k) by {
            let i = choose|i: int| 0 <= i < s.len() && s[i].0@ == k;
            if i == s.len() - 1 {
            } else {
                assert(s.drop_last()[i].0@ == k);
            }
        }
    }
}

proof fn lemma_entries_map_index(s: Seq<(CFGNode, UniqueVec<CFGNode>)>, i: int)
    requires
        keys_distinct(s),
        0 <= i < s.len(),
    ensures
        entries_map(s).contains_key(s[i].0@),
        entries_map(s)[s[i].0@] == s[i].1@,
    decreases s.len(),
{
    if i == s.len() - 1 {
    } else {
        assert(keys_distinct(s.drop_last()));
        assert(s.drop_last()[i] == s[i]);
        lemma_entries_map_index(s.drop_last(), i);
        assert(s[i].0@ != s.last().0@);
    }
}

proof fn lemma_entries_map_push(
    s: Seq<(CFGNode, UniqueVec<CFGNode>)>,
    p: (CFGNode, UniqueVec<CFGNode>),
)
    ensures
        entries_map(s.push(p)) == entries_map(s).insert(p.0@, p.1@),
{
    assert(s.push(p).drop_last() =~= s);
    assert(s.push(p).last() == p);
}

proof fn lemma_entries_map_update(
    s: Seq<(CFGNode, UniqueVec<CFGNode>)>,
    i: int,
    p: (CFGNode, UniqueVec<CFGNode>),
)
    requires
        keys_distinct(s),
        0 <= i < s.len(),
        p.0@ == s[i].0@,
    ensures
        entries_map(s.update(i, p)) == entries_map(s).insert(p.0@, p.1@),
    decreases s.len(),
{
    let t = s.update(i, p);
    if i == s.len() - 1 {
        assert(t.drop_last() =~= s.drop_last());
        assert(t.last() == p);
    } else {
        assert(keys_distinct(s.drop_last()));
        assert(s.drop_last()[i] == s[i]);
        lemma_entries_map_update(s.drop_last(), i, p);
        assert(t.drop_last() =~= s.drop_last().update(i, p));
        assert(t.last() == s.last());
        assert(s[i].0@ != s.last().0@);
        assert(entries_map(s).insert(p.0@, p.1@) =~= entries_map(s.drop_last()).insert(
            p.0@,
            p.1@,
        ).insert(s.last().0@, s.last().1@));
    }
}

proof fn lemma_entries_map_remove(s: Seq<(CFGNode, UniqueVec<CFGNode>)>, i: int)
    requires
        keys_distinct(s),
        0 <= i < s.len(),
    ensures
        entries_map(s.remove(i)) == entries_map(s).remove(s[i].0@),
    decreases s.len(),
{
    let t = s.remove(i);
    if i == s.len() - 1 {
        assert(t =~= s.drop_last());
        lemma_entries_map_dom(s.drop_last());
        assert(forall|j: int| 0 <= j < s.len() - 1 ==> s[j].0@ != s[i].0@);
        assert(!entries_map(s.drop_last()).contains_key(s[i].0@));
        assert(entries_map(t) =~= entries_map(s).remove(s[i].0@));
    } else {
        assert(keys_distinct(s.drop_last()));
        assert(s.drop_last()[i] == s[i]);
        lemma_entries_map_remove(s.drop_last(), i);
        assert(t.drop_last() =~= s.drop_last().remove(i));
        assert(t.last() == s.last());
        assert(s[i].0@ != s.last().0@);
        assert(entries_map(t) =~= entries_map(s).remove(s[i].0@));
    }
}

proof fn lemma_entries_map_congruent(
    s: Seq<(CFGNode, UniqueVec<CFGNode>)>,
    t: Seq<(CFGNode, UniqueVec<CFGNode>)>,
)
    requires
        s.len() == t.len(),
        forall|i: int|
            0 <= i < s.len() ==> (#[trigger] t[i]).0@ == s[i].0@ && t[i].1@ == s[i].1@,
    ensures
        entries_map(t) == entries_map(s),
    decreases s.len(),
{
    if s.len() > 0 {
        assert(forall|i: int|
            0 <= i < s.len() - 1 ==> (#[trigger] t.drop_last()[i]) == t[i] && s.drop_last()[i]
                == s[i]);
        lemma_entries_map_congruent(s.drop_last(), t.drop_last());
        assert(t[s.len() - 1].0@ == s[s.len() - 1].0@);
    }
}

impl View for AdjMap {
    type V = Map<NodeV, Seq<NodeV>>;

    closed spec fn view(&self) -> Map<NodeV, Seq<NodeV>> {
        entries_map(self.entries@)
    }
}

impl Clone for AdjMap {
    fn clone(&self) -> (r: Self)
        ensures
            r@ == self@,
            self.inv() ==> r.inv(),
    {
        proof {
            assert(crate::util::unique_vec::clone_keeps_view::<CFGNode>());
        }
        let mut entries: Vec<(CFGNode, UniqueVec<CFGNode>)> = Vec::new();
        let n = self.entries.len();
        let mut i: usize = 0;
        while i < n
            invariant
                n == self.entries@.len(),
                i <= n,
                entries@.len() == i,
                forall|j: int|
                    0 <= j < i ==> (#[trigger] entries@[j]).0 == self.entries@[j].0
                        && entries@[j].1@ == self.entries@[j].1@,
            decreases n - i,
        {
            let k = self.entries[i].0.clone();
            let l = self.entries[i].1.clone();
            entries.push((k, l));
            i = i + 1;
        }
        let r = AdjMap { entries };
        proof {
            lemma_entries_map_congruent(self.entries@, r.entries@);
            if self.inv() {
                assert(keys_distinct(r.entries@)) by {
                    assert(forall|j: int|
                        0 <= j < n ==> (#[trigger] r.entries@[j]).0@ == self.entries@[j].0@);
                }
                assert(forall|j: int|
                    0 <= j < r.entries@.len() ==> (#[trigger] r.entries@[j].1)@
                        == self.entries@[j].1@);
            }
        }
        r
    }
}

impl AdjMap {
    /// Keys are stored at most once and every stored list is duplicate-free.
    pub closed spec fn inv(&self) -> bool {
        &&& keys_distinct(self.entries@)
        &&& forall|i: int| 0 <= i < self.entries@.len() ==> (#[trigger] self.entries@[i].1).wf()
    }

    /// The abstract map always has finite domain.
    pub proof fn lemma_dom_finite(&self)
        ensures
            self@.dom().finite(),
    {
        lemma_entries_map_dom(self.entries@);
    }

    /// Well-formedness is visible on the abstract map: no list holds
    /// duplicates.
    pub proof fn lemma_lists_distinct(&self)
        requires
            self.inv(),
        ensures
            adj_lists_distinct(self@),
    {
        lemma_entries_map_dom(self.entries@);
        assert forall|k: NodeV| #[trigger] self@.contains_key(k) implies self@[k].no_duplicates()
            by {
            let i = choose|i: int| 0 <= i < self.entries@.len() && self.entries@[i].0@ == k;
            lemma_entries_map_index(self.entries@, i);
        }
    }

    /// An empty adjacency side.
    pub fn new() -> (r: Self)
        ensures
            r@ == Map::<NodeV, Seq<NodeV>>::empty(),
            r.inv(),
    {
        AdjMap { entries: Vec::new() }
    }

    fn position_of_key(&self, k: &CFGNode) -> (r: Option<usize>)
        ensures
            match r {
                Some(i) => {
                    &&& i < self.entries@.len()
                    &&& self.entries@[i as int].0@ == k@
                    &&& self@.contains_key(k@)
                },
                None => !self@.contains_key(k@),
            },
    {
        proof {
            lemma_entries_map_dom(self.entries@);
        }
        let n = self.entries.len();
        let mut i: usize = 0;
        while i < n
            invariant
                n == self.entries@.len(),
                i <= n,
                forall|j: int| 0 <= j < i ==> self.entries@[j].0@ != k@,
                forall|kk: NodeV| #[trigger]
                    entries_map(self.entries@).contains_key(kk) <==> exists|ii: int|
                        0 <= ii < self.entries@.len() && self.entries@[ii].0@ == kk,
            decreases n - i,
        {
            if self.entries[i].0 == *k {
                return Some(i);
            }
            i = i + 1;
        }
        None
    }

    /// The list of neighbours recorded for `k`, when one is recorded.
    pub fn get(&self, k: &CFGNode) -> (r: Option<&UniqueVec<CFGNode>>)
        requires
            self.inv(),
        ensures
            match r {
                Some(l) => {
                    &&& self@.contains_key(k@)
                    &&& l@ == self@[k@]
                    &&& l.wf()
                },
                None => !self@.contains_key(k@),
            },
    {
        match self.position_of_key(k) {
            Some(i) => {
                proof {
                    lemma_entries_map_index(self.entries@, i as int);
                }
                Some(&self.entries[i].1)
            },
            None => None,
        }
    }

    /// Append `v` to the list of `k`, creating the list when absent and
    /// leaving it unchanged when it already holds `v`.
    pub fn add_to(&mut self, k: &CFGNode, v: CFGNode) -> (nothing: ())
        requires
            old(self).inv(),
        ensures
            final(self).inv(),
            final(self)@ == old(self)@.insert(
                k@,
                seq_insert_unique(adj_of(old(self)@, k@), v@),
            ),
    {
        proof {
            assert(eq_decides_view::<CFGNode>());
        }
        match self.position_of_key(k) {
            Some(i) => {
                proof {
                    lemma_entries_map_index(self.entries@, i as int);
                }
                let ghost pre = self.entries@;
                let mut pair = self.entries.remove(i);
                pair.1.insert(v);
                self.entries.insert(i, pair);
                proof {
                    assert(self.entries@ =~= pre.update(i as int, self.entries@[i as int]));
                    assert(self.entries@[i as int].0@ == k@);
                    lemma_entries_map_update(pre, i as int, self.entries@[i as int]);
                    assert(self@ =~= old(self)@.insert(
                        k@,
                        seq_insert_unique(adj_of(old(self)@, k@), v@),
                    ));
                    assert(keys_distinct(self.entries@)) by {
                        assert(forall|j: int|
                            0 <= j < self.entries@.len() ==> (#[trigger] self.entries@[j]).0@
                                == pre[j].0@);
                    }
                    assert(forall|j: int|
                        0 <= j < self.entries@.len() && j != i ==> (#[trigger] self.entries@[j]).1
                            == pre[j].1);
                    assert(self.entries@[i as int].1.wf());
                }
            },
            None => {
                let mut l = UniqueVec::<CFGNode>::new();
                l.insert(v);
                let k2 = k.clone();
                let ghost pre = self.entries@;
                let ghost pair_v = l@;
                self.entries.push((k2, l));
                proof {
                    assert(self.entries@ =~= pre.push(self.entries@.last()));
                    lemma_entries_map_push(pre, self.entries@.last());
                    assert(pair_v =~= seq_insert_unique(adj_of(old(self)@, k@), v@));
                    assert(self@ =~= old(self)@.insert(
                        k@,
                        seq_insert_unique(adj_of(old(self)@, k@), v@),
                    ));
                    lemma_entries_map_dom(pre);
                    assert(keys_distinct(self.entries@)) by {
                        assert(forall|j: int| 0 <= j < pre.len() ==> (#[trigger] pre[j]).0@ != k@);
                        assert(forall|j: int|
                            0 <= j < pre.len() ==> (#[trigger] self.entries@[j]) == pre[j]);
                        assert(self.entries@[pre.len() as int].0@ == k@);
                    }
                    assert(forall|j: int|
                        0 <= j < pre.len() ==> (#[trigger] self.entries@[j]).1 == pre[j].1);
                    assert(self.entries@[pre.len() as int].1.wf());
                }
            },
        }
    }

    /// Drop the whole record of `k`.
    pub fn remove_key(&mut self, k: &CFGNode) -> (nothing: ())
        requires
            old(self).inv(),
        ensures
            final(self).inv(),
            final(self)@ == old(self)@.remove(k@),
    {
        match self.position_of_key(k) {
            Some(i) => {
                let ghost pre = self.entries@;
                self.entries.remove(i);
                proof {
                    assert(self.entries@ =~= pre.remove(i as int));
                    lemma_entries_map_remove(pre, i as int);
                }
            },
            None => {
                proof {
                    assert(self@ =~= old(self)@.remove(k@));
                }
            },
        }
    }

    /// Take `v` out of the list of `k`, when `k` has a list at all.
    pub fn remove_from(&mut self, k: &CFGNode, v: &CFGNode) -> (nothing: ())
        requires
            old(self).inv(),
        ensures
            final(self).inv(),
            final(self)@ == if old(self)@.contains_key(k@) {
                old(self)@.insert(k@, seq_remove_first(old(self)@[k@], v@))
            } else {
                old(self)@
            },
    {
        proof {
            assert(eq_decides_view::<CFGNode>());
        }
        match self.position_of_key(k) {
            Some(i) => {
                proof {
                    lemma_entries_map_index(self.entries@, i as int);
                }
                let ghost pre = self.entries@;
                let mut pair = self.entries.remove(i);
                pair.1.remove(v);
                self.entries.insert(i, pair);
                proof {
                    assert(self.entries@ =~= pre.update(i as int, self.entries@[i as int]));
                    assert(self.entries@[i as int].0@ == k@);
                    lemma_entries_map_update(pre, i as int, self.entries@[i as int]);
                }
            },
            None => {},
        }
    }

    /// Take `v` out of every list, keeping every key.
    pub fn remove_from_all(&mut self, v: &CFGNode) -> (nothing: ())
        requires
            old(self).inv(),
        ensures
            final(self).inv(),
            final(self)@ == Map::<NodeV, Seq<NodeV>>::new(
                |k: NodeV| old(self)@.contains_key(k),
                |k: NodeV| seq_remove_first(old(self)@[k], v@),
            ),
    {
        proof {
            assert(eq_decides_view::<CFGNode>());
        }
        let ghost orig = self.entries@;
        let n = self.entries.len();
        let mut i: usize = 0;
        while i < n
            invariant
                old(self).inv(),
                orig == old(self).entries@,
                n == self.entries@.len(),
                n == orig.len(),
                i <= n,
                forall|j: int|
                    0 <= j < i ==> (#[trigger] self.entries@[j]).0 == orig[j].0
                        && self.entries@[j].1@ == seq_remove_first(orig[j].1@, v@)
                        && self.entries@[j].1.wf(),
                forall|j: int| i <= j < n ==> #[trigger] self.entries@[j] == orig[j],
            decreases n - i,
        {
            let ghost pre = self.entries@;
            let mut pair = self.entries.remove(i);
            pair.1.remove(v);
            self.entries.insert(i, pair);
            proof {
                assert(self.entries@ =~= pre.update(i as int, self.entries@[i as int]));
            }
            i = i + 1;
        }
        proof {
            assert(keys_distinct(self.entries@)) by {
                assert(forall|j: int|
                    0 <= j < n ==> (#[trigger] self.entries@[j]).0@ == orig[j].0@);
            }
            let target = Map::<NodeV, Seq<NodeV>>::new(
                |k: NodeV| old(self)@.contains_key(k),
                |k: NodeV| seq_remove_first(old(self)@[k], v@),
            );
            lemma_entries_map_dom(orig);
            lemma_entries_map_dom(self.entries@);
            assert forall|k: NodeV| #[trigger]
                self@.contains_key(k) implies target.contains_key(k) by {
                let j = choose|j: int| 0 <= j < n && self.entries@[j].0@ == k;
                assert(orig[j].0@ == k);
            }
            assert forall|k: NodeV| #[trigger]
                target.contains_key(k) implies self@.contains_key(k) by {
                let j = choose|j: int| 0 <= j < n && orig[j].0@ == k;
                assert(self.entries@[j].0@ == k);
            }
            assert forall|k: NodeV| #[trigger] self@.contains_key(k) implies self@[k] == target[k]
                by {
                let j = choose|j: int| 0 <= j < n && self.entries@[j].0@ == k;
                lemma_entries_map_index(self.entries@, j);
                lemma_entries_map_index(orig, j);
                assert(orig[j].0@ == k);
                assert(old(self)@[k] == orig[j].1@);
            }
            assert(self@ =~= target);
        }
    }
}

} // verus!
