use vstd::prelude::*;
use vstd::std_specs::cmp::PartialEqSpec;

verus! {

/// An element equality test (`==`) decides equality of the abstract values:
/// `a == b` returns exactly whether `a@ == b@`.
///
/// The containers below deduplicate by `==`; this premise ties that test to
/// the mathematical contents, so the contracts can speak of views alone.
pub open spec fn eq_decides_view<T: View + PartialEq>() -> bool {
    &&& T::obeys_eq_spec()
    &&& forall|a: T, b: T| #[trigger] a.eq_spec(&b) <==> a@ == b@
}

/// The sequence `s` extended by `x` at the back, unless `x` is already held.
pub open spec fn seq_insert_unique<A>(s: Seq<A>, x: A) -> Seq<A> {
    if s.contains(x) {
        s
    } else {
        s.push(x)
    }
}

/// The sequence `s` with its first element equal to `x` taken out; `s`
/// unchanged when no element equals `x`.
pub open spec fn seq_remove_first<A>(s: Seq<A>, x: A) -> Seq<A>
    decreases s.len(),
{
    if s.len() == 0 {
        s
    } else if s[0] == x {
        s.drop_first()
    } else {
        seq![s[0]] + seq_remove_first(s.drop_first(), x)
    }
}

/// What `seq_insert_unique` holds: everything held before, and `x`.
pub proof fn lemma_seq_insert_unique_props<A>(s: Seq<A>, x: A)
    ensures
        forall|y: A| #[trigger] seq_insert_unique(s, x).contains(y) <==> s.contains(y) || y == x,
        s.no_duplicates() ==> seq_insert_unique(s, x).no_duplicates(),
        seq_insert_unique(s, x).len() >= s.len(),
{
    let r = seq_insert_unique(s, x);
    if s.contains(x) {
    } else {
        assert forall|y: A| #[trigger] r.contains(y) implies s.contains(y) || y == x by {
            let i = choose|i: int| 0 <= i < r.len() && r[i] == y;
            if i < s.len() {
                assert(s[i] == y);
            }
        }
        assert forall|y: A| s.contains(y) || y == x implies #[trigger] r.contains(y) by {
            if s.contains(y) {
                let i = choose|i: int| 0 <= i < s.len() && s[i] == y;
                assert(r[i] == y);
            } else {
                assert(r[s.len() as int] == x);
            }
        }
    }
}

/// Removing an element never lengthens a sequence.
pub proof fn lemma_seq_remove_first_len<A>(s: Seq<A>, x: A)
    ensures
        seq_remove_first(s, x).len() <= s.len(),
        s.contains(x) ==> seq_remove_first(s, x).len() == s.len() - 1,
        !s.contains(x) ==> seq_remove_first(s, x) == s,
    decreases s.len(),
{
    if s.len() == 0 {
        assert(!s.contains(x));
    } else if s[0] == x {
        assert(s.contains(x));
    } else {
        lemma_seq_remove_first_len(s.drop_first(), x);
        if s.contains(x) {
            let i = choose|i: int| 0 <= i < s.len() && s[i] == x;
            assert(s.drop_first()[i - 1] == x);
            assert(s.drop_first().contains(x));
        } else {
            assert(!s.drop_first().contains(x)) by {
                if s.drop_first().contains(x) {
                    let i = choose|i: int| 0 <= i < s.drop_first().len() && s.drop_first()[i] == x;
                    assert(s[i + 1] == x);
                }
            }
            assert(seq_remove_first(s, x) =~= s);
        }
    }
}

/// `seq_remove_first` at the position of the first occurrence: the element at
/// index `i` disappears and everything else keeps its order.
pub proof fn lemma_seq_remove_first_at<A>(s: Seq<A>, x: A, i: int)
    requires
        0 <= i < s.len(),
        s[i] == x,
        forall|j: int| 0 <= j < i ==> s[j] != x,
    ensures
        seq_remove_first(s, x) =~= s.subrange(0, i) + s.subrange(i + 1, s.len() as int),
    decreases i,
{
    if i == 0 {
        assert(seq_remove_first(s, x) =~= s.subrange(1, s.len() as int));
    } else {
        assert(s[0] != x);
        lemma_seq_remove_first_at(s.drop_first(), x, i - 1);
        assert(seq_remove_first(s, x) =~= seq![s[0]] + seq_remove_first(s.drop_first(), x));
        assert(s.drop_first().subrange(0, i - 1) =~= s.subrange(1, i));
        assert(s.drop_first().subrange(i, s.len() as int - 1) =~= s.subrange(
            i + 1,
            s.len() as int,
        ));
        assert(seq![s[0]] + (s.subrange(1, i) + s.subrange(i + 1, s.len() as int)) =~= s.subrange(
            0,
            i,
        ) + s.subrange(i + 1, s.len() as int));
    }
}

/// Taking an element out preserves distinctness and membership of the others.
pub proof fn lemma_seq_remove_first_no_duplicates<A>(s: Seq<A>, x: A)
    requires
        s.no_duplicates(),
    ensures
        seq_remove_first(s, x).no_duplicates(),
        forall|y: A| seq_remove_first(s, x).contains(y) ==> s.contains(y),
        forall|y: A| s.contains(y) && y != x ==> seq_remove_first(s, x).contains(y),
        !seq_remove_first(s, x).contains(x),
    decreases s.len(),
{
    if !s.contains(x) {
        lemma_seq_remove_first_len(s, x);
    } else {
        let i = choose|i: int| 0 <= i < s.len() && s[i] == x;
        assert(forall|j: int| 0 <= j < s.len() && j != i ==> s[j] != x);
        lemma_seq_remove_first_at(s, x, i);
        let r = seq_remove_first(s, x);
        assert forall|p: int, q: int| 0 <= p < q < r.len() implies r[p] != r[q] by {
            let pp: int = if p < i {
                p
            } else {
                p + 1
            };
            let qq: int = if q < i {
                q
            } else {
                q + 1
            };
            assert(r[p] == s[pp] && r[q] == s[qq]);
        }
        assert forall|y: A| r.contains(y) implies s.contains(y) by {
            let j = choose|j: int| 0 <= j < r.len() && r[j] == y;
            let jj: int = if j < i {
                j
            } else {
                j + 1
            };
            assert(s[jj] == y);
        }
        assert forall|y: A| s.contains(y) && y != x implies r.contains(y) by {
            let j = choose|j: int| 0 <= j < s.len() && s[j] == y;
            let jj: int = if j < i {
                j
            } else {
                j - 1
            };
            assert(r[jj] == y);
        }
        assert(!r.contains(x));
    }
}

/// The elements of `s` at the positions `keep` marks `true`, in order.
pub open spec fn mask_seq<A>(s: Seq<A>, keep: Seq<bool>) -> Seq<A>
    decreases s.len(),
{
    if s.len() == 0 {
        Seq::empty()
    } else {
        let rest = mask_seq(s.drop_last(), keep.drop_last());
        if keep.len() == s.len() && keep[s.len() - 1] {
            rest.push(s.last())
        } else {
            rest
        }
    }
}

/// Masking keeps only elements of `s`, without duplicating any.
pub proof fn lemma_mask_seq_no_duplicates<A>(s: Seq<A>, keep: Seq<bool>)
    requires
        s.no_duplicates(),
    ensures
        mask_seq(s, keep).no_duplicates(),
        forall|x: A| #[trigger] mask_seq(s, keep).contains(x) ==> s.contains(x),
    decreases s.len(),
{
    if s.len() > 0 {
        lemma_mask_seq_no_duplicates(s.drop_last(), keep.drop_last());
        let rest = mask_seq(s.drop_last(), keep.drop_last());
        assert forall|x: A| #[trigger] rest.contains(x) implies s.contains(x) by {
            assert(s.drop_last().contains(x));
            let j = choose|j: int| 0 <= j < s.drop_last().len() && s.drop_last()[j] == x;
            assert(s[j] == x);
        }
        if keep.len() == s.len() && keep[s.len() - 1] {
            assert(!s.drop_last().contains(s.last())) by {
                if s.drop_last().contains(s.last()) {
                    let j = choose|j: int|
                        0 <= j < s.drop_last().len() && s.drop_last()[j] == s.last();
                    assert(s[j] == s[s.len() - 1]);
                }
            }
            assert(!rest.contains(s.last()));
            assert forall|x: A| #[trigger] rest.push(s.last()).contains(x) implies s.contains(
                x,
            ) by {
                let j = choose|j: int|
                    0 <= j < rest.push(s.last()).len() && rest.push(s.last())[j] == x;
                if j < rest.len() {
                    assert(rest[j] == x);
                    assert(rest.contains(x));
                } else {
                    assert(s[s.len() - 1] == x);
                    assert(s.contains(x));
                }
            }
        }
    }
}

/// Cloning an element keeps its abstract value: whatever `clone` may return
/// for a value, it has the same view.
pub open spec fn clone_keeps_view<T: View + Clone>() -> bool {
    forall|a: T, b: T| #[trigger] cloned::<T>(a, b) ==> a@ == b@
}

/// A growable sequence with set-like insertion: an element equal (by `==`)
/// to one already present is not inserted again, so iteration order is the
/// order of first insertion.
#[derive(Debug)]
pub struct UniqueVec<T> {
    vec: Vec<T>,
}

impl<T: View> View for UniqueVec<T> {
    type V = Seq<T::V>;

    closed spec fn view(&self) -> Seq<T::V> {
        self.vec@.map_values(|t: T| t@)
    }
}

impl<T: View> UniqueVec<T> {
    /// No two elements hold the same abstract value.
    pub open spec fn wf(&self) -> bool {
        self@.no_duplicates()
    }

    /// The stored elements themselves, in order.
    pub closed spec fn elems(&self) -> Seq<T> {
        self.vec@
    }

    /// The abstract contents are the views of the stored elements.
    pub proof fn lemma_elems_view(&self)
        ensures
            self.elems().len() == self@.len(),
            forall|i: int| 0 <= i < self@.len() ==> (#[trigger] self.elems()[i])@ == self@[i],
    {
    }

    /// An empty container.
    pub fn new() -> (r: Self)
        ensures
            r@ == Seq::<T::V>::empty(),
            r.wf(),
    {
        let r = UniqueVec { vec: Vec::new() };
        proof {
            assert(r@ =~= Seq::<T::V>::empty());
        }
        r
    }

    /// An empty container with room for at least `capacity` elements.
    pub fn with_capacity(capacity: usize) -> (r: Self)
        ensures
            r@ == Seq::<T::V>::empty(),
            r.wf(),
    {
        let r = UniqueVec { vec: Vec::with_capacity(capacity) };
        proof {
            assert(r@ =~= Seq::<T::V>::empty());
        }
        r
    }

    /// Number of elements held.
    pub fn len(&self) -> (r: usize)
        ensures
            r == self@.len(),
    {
        self.vec.len()
    }

    /// Whether nothing is held.
    pub fn is_empty(&self) -> (r: bool)
        ensures
            r == (self@.len() == 0),
    {
        self.vec.is_empty()
    }

    /// Drop every element.
    pub fn clear(&mut self)
        ensures
            final(self)@ == Seq::<T::V>::empty(),
            final(self).wf(),
    {
        self.vec.clear();
        proof {
            assert(self@ =~= Seq::<T::V>::empty());
        }
    }

    /// Ask the underlying storage for room for `additional` more elements.
    pub fn reserve(&mut self, additional: usize)
        ensures
            final(self)@ == old(self)@,
    {
        self.vec.reserve(additional);
    }

    /// The element at position `index`, if the position is within bounds.
    pub fn get(&self, index: usize) -> (r: Option<&T>)
        ensures
            match r {
                Some(x) => index < self@.len() && x@ == self@[index as int],
                None => index >= self@.len(),
            },
    {
        if index < self.vec.len() {
            Some(&self.vec[index])
        } else {
            None
        }
    }

    /// Take out the elements at positions `start..end`, handing them back
    /// in order; the elements after the range close the gap.
    pub fn drain(&mut self, start: usize, end: usize) -> (r: Vec<T>)
        requires
            start <= end <= old(self)@.len(),
        ensures
            r@.len() == end - start,
            forall|i: int| 0 <= i < r@.len() ==> (#[trigger] r@[i])@ == old(self)@[start + i],
            final(self)@ == old(self)@.subrange(0, start as int) + old(self)@.subrange(
                end as int,
                old(self)@.len() as int,
            ),
            old(self).wf() ==> final(self).wf(),
    {
        let ghost pre = self@;
        let mut out: Vec<T> = Vec::new();
        let count = end - start;
        let mut k: usize = 0;
        while k < count
            invariant
                start <= end <= pre.len(),
                count == end - start,
                k <= count,
                out@.len() == k,
                forall|i: int| 0 <= i < k ==> (#[trigger] out@[i])@ == pre[start + i],
                self.vec@.len() == pre.len() - k,
                self@ =~= pre.subrange(0, start as int) + pre.subrange(
                    start + k,
                    pre.len() as int,
                ),
            decreases count - k,
        {
            let ghost mid = self@;
            let el = self.vec.remove(start);
            proof {
                assert(el@ == mid[start as int]);
                assert(mid[start as int] == pre[start + k]);
                assert(self@ =~= mid.subrange(0, start as int) + mid.subrange(
                    start as int + 1,
                    mid.len() as int,
                ));
                assert(self@ =~= pre.subrange(0, start as int) + pre.subrange(
                    start + k + 1,
                    pre.len() as int,
                ));
            }
            out.push(el);
            k = k + 1;
        }
        proof {
            if pre.no_duplicates() {
                let fin = self@;
                assert forall|p: int, q: int| 0 <= p < q < fin.len() implies fin[p] != fin[q] by {
                    let pp: int = if p < start {
                        p
                    } else {
                        p + (end - start)
                    };
                    let qq: int = if q < start {
                        q
                    } else {
                        q + (end - start)
                    };
                    assert(fin[p] == pre[pp] && fin[q] == pre[qq]);
                }
            }
        }
        out
    }

    /// The elements in insertion order.
    pub fn iter(&self) -> (r: &Vec<T>)
        ensures
            r@.len() == self@.len(),
            forall|i: int| 0 <= i < r@.len() ==> r@[i]@ == self@[i],
    {
        &self.vec
    }

    /// Keep only the elements the predicate accepts, visiting each once in
    /// order. The contract ties every kept or dropped position to an
    /// answer the predicate can give for an element with that abstract
    /// value.
    pub fn retain<F: Fn(&T) -> bool>(&mut self, f: F)
        requires
            forall|x: &T| #[trigger] call_requires(f, (x,)),
        ensures
            exists|keep: Seq<bool>|
                #![trigger mask_seq(old(self)@, keep)]
                {
                    &&& keep.len() == old(self)@.len()
                    &&& final(self)@ == mask_seq(old(self)@, keep)
                    &&& forall|i: int|
                        #![trigger keep[i]]
                        0 <= i < keep.len() ==> call_ensures(f, (&old(self).elems()[i],), keep[i])
                },
            old(self).wf() ==> final(self).wf(),
    {
        let ghost pre = self@;
        let ghost pre_elems = self.vec@;
        let mut out: Vec<T> = Vec::new();
        let ghost mut keep: Seq<bool> = Seq::empty();
        let n = self.vec.len();
        let mut i: usize = 0;
        while i < n
            invariant
                forall|x: &T| #[trigger] call_requires(f, (x,)),
                n == pre_elems.len(),
                pre.len() == n,
                pre == pre_elems.map_values(|t: T| t@),
                i <= n,
                self.vec@ =~= pre_elems.skip(i as int),
                keep.len() == i,
                out@.map_values(|t: T| t@) =~= mask_seq(pre.take(i as int), keep),
                forall|j: int|
                    #![trigger keep[j]]
                    0 <= j < i ==> call_ensures(f, (&pre_elems[j],), keep[j]),
            decreases n - i,
        {
            let el = self.vec.remove(0);
            let keep_it = f(&el);
            proof {
                assert(el == pre_elems[i as int]);
                assert(el@ == pre[i as int]);
                let ghost old_keep = keep;
                keep = keep.push(keep_it);
                assert(pre.take(i as int + 1).drop_last() =~= pre.take(i as int));
                assert(keep.drop_last() =~= old_keep);
                assert(pre.take(i as int + 1).last() == pre[i as int]);
                assert(mask_seq(pre.take(i as int + 1), keep) == if keep_it {
                    mask_seq(pre.take(i as int), old_keep).push(pre[i as int])
                } else {
                    mask_seq(pre.take(i as int), old_keep)
                });
                assert(call_ensures(f, (&el,), keep_it));
                assert(call_ensures(f, (&pre_elems[i as int],), keep[i as int]));
            }
            if keep_it {
                out.push(el);
            }
            proof {
                assert(out@.map_values(|t: T| t@) =~= mask_seq(pre.take(i as int + 1), keep));
                assert(self.vec@ =~= pre_elems.skip(i as int + 1));
            }
            i = i + 1;
        }
        self.vec = out;
        proof {
            assert(pre.take(n as int) =~= pre);
            assert(self@ == mask_seq(pre, keep));
            if pre.no_duplicates() {
                lemma_mask_seq_no_duplicates(pre, keep);
            }
            assert(keep.len() == old(self)@.len());
            assert(self@ == mask_seq(old(self)@, keep));
            assert(pre_elems == old(self).elems());
            assert(exists|k: Seq<bool>|
                #![trigger mask_seq(old(self)@, k)]
                {
                    &&& k.len() == old(self)@.len()
                    &&& self@ == mask_seq(old(self)@, k)
                    &&& forall|i: int|
                        #![trigger k[i]]
                        0 <= i < k.len() ==> call_ensures(f, (&old(self).elems()[i],), k[i])
                });
        }
    }
}

impl<T: View + Clone> Clone for UniqueVec<T> {
    fn clone(&self) -> (r: Self)
        ensures
            clone_keeps_view::<T>() ==> r@ == self@,
    {
        let mut v: Vec<T> = Vec::new();
        let n = self.vec.len();
        let mut i: usize = 0;
        while i < n
            invariant
                n == self.vec.len(),
                i <= n,
                v@.len() == i,
                clone_keeps_view::<T>() ==> forall|j: int|
                    0 <= j < i ==> (#[trigger] v@[j])@ == self.vec@[j]@,
            decreases n - i,
        {
            let y = self.vec[i].clone();
            proof {
                assert(cloned::<T>(self.vec@[i as int], y));
            }
            v.push(y);
            i = i + 1;
        }
        let r = UniqueVec { vec: v };
        proof {
            if clone_keeps_view::<T>() {
                assert(r@ =~= self@);
            }
        }
        r
    }
}

impl<T: View + PartialEq> UniqueVec<T> {
    /// Whether some element holds the abstract value of `x`.
    pub fn contains(&self, x: &T) -> (r: bool)
        requires
            eq_decides_view::<T>(),
        ensures
            r == self@.contains(x@),
    {
        let n = self.vec.len();
        let mut i: usize = 0;
        while i < n
            invariant
                eq_decides_view::<T>(),
                n == self@.len(),
                n == self.vec.len(),
                i <= n,
                forall|j: int| 0 <= j < i ==> self@[j] != x@,
            decreases n - i,
        {
            if self.vec[i] == *x {
                assert(self@[i as int] == x@);
                return true;
            }
            i = i + 1;
        }
        false
    }

    /// Position of the first element holding the abstract value of `x`.
    fn position_of(&self, x: &T) -> (r: Option<usize>)
        requires
            eq_decides_view::<T>(),
        ensures
            match r {
                Some(i) => {
                    &&& i < self@.len()
                    &&& self@[i as int] == x@
                    &&& forall|j: int| 0 <= j < i ==> self@[j] != x@
                },
                None => !self@.contains(x@),
            },
    {
        let n = self.vec.len();
        let mut i: usize = 0;
        while i < n
            invariant
                eq_decides_view::<T>(),
                n == self@.len(),
                n == self.vec.len(),
                i <= n,
                forall|j: int| 0 <= j < i ==> self@[j] != x@,
            decreases n - i,
        {
            if self.vec[i] == *x {
                return Some(i);
            }
            i = i + 1;
        }
        None
    }

    /// Append `x` unless an equal element is already held; reports whether
    /// the container grew.
    pub fn insert(&mut self, x: T) -> (r: bool)
        requires
            eq_decides_view::<T>(),
        ensures
            r == !old(self)@.contains(x@),
            final(self)@ == if old(self)@.contains(x@) {
                old(self)@
            } else {
                old(self)@.push(x@)
            },
            old(self).wf() ==> final(self).wf(),
    {
        if self.contains(&x) {
            false
        } else {
            let ghost pre = self@;
            self.vec.push(x);
            proof {
                assert(self@ =~= pre.push(x@));
                if pre.no_duplicates() {
                    assert(self@.no_duplicates());
                }
            }
            true
        }
    }

    /// Take out the element equal to `x`, keeping the order of the rest;
    /// reports whether one was present.
    pub fn remove(&mut self, x: &T) -> (r: bool)
        requires
            eq_decides_view::<T>(),
        ensures
            r == old(self)@.contains(x@),
            final(self)@ == seq_remove_first(old(self)@, x@),
            old(self).wf() ==> final(self).wf(),
    {
        match self.position_of(x) {
            Some(i) => {
                let ghost pre = self@;
                self.vec.remove(i);
                proof {
                    lemma_seq_remove_first_at(pre, x@, i as int);
                    assert(self@ =~= pre.subrange(0, i as int) + pre.subrange(
                        i as int + 1,
                        pre.len() as int,
                    ));
                    assert(pre.contains(x@));
                    if pre.no_duplicates() {
                        lemma_seq_remove_first_no_duplicates(pre, x@);
                    }
                }
                true
            },
            None => {
                proof {
                    lemma_seq_remove_first_len(self@, x@);
                }
                false
            },
        }
    }

    /// Like [`Self::remove`], handing the stored element back.
    pub fn take(&mut self, x: &T) -> (r: Option<T>)
        requires
            eq_decides_view::<T>(),
        ensures
            match r {
                Some(y) => old(self)@.contains(x@) && y@ == x@,
                None => !old(self)@.contains(x@),
            },
            final(self)@ == seq_remove_first(old(self)@, x@),
            old(self).wf() ==> final(self).wf(),
    {
        match self.position_of(x) {
            Some(i) => {
                let ghost pre = self@;
                let y = self.vec.remove(i);
                proof {
                    lemma_seq_remove_first_at(pre, x@, i as int);
                    assert(self@ =~= pre.subrange(0, i as int) + pre.subrange(
                        i as int + 1,
                        pre.len() as int,
                    ));
                    assert(pre.contains(x@));
                    if pre.no_duplicates() {
                        lemma_seq_remove_first_no_duplicates(pre, x@);
                    }
                }
                Some(y)
            },
            None => {
                proof {
                    lemma_seq_remove_first_len(self@, x@);
                }
                None
            },
        }
    }

    /// Swap the stored element equal to `x` for `x` itself, handing the old
    /// one back; nothing happens when no element is equal. The abstract
    /// contents never change.
    pub fn replace(&mut self, x: T) -> (r: Option<T>)
        requires
            eq_decides_view::<T>(),
        ensures
            final(self)@ == old(self)@,
            match r {
                Some(y) => old(self)@.contains(x@) && y@ == x@,
                None => !old(self)@.contains(x@),
            },
    {
        match self.position_of(&x) {
            Some(i) => {
                let ghost pre = self@;
                let y = self.vec.remove(i);
                self.vec.insert(i, x);
                proof {
                    assert(self@ =~= pre);
                    assert(pre.contains(x@));
                }
                Some(y)
            },
            None => None,
        }
    }
}

} // verus!
