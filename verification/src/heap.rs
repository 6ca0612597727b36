//! A priority container whose items can be changed in place.
//!
//! The container keeps its items in a vector, best first. Among items of equal
//! priority the one that entered first stays first, and neither `retain` nor
//! `modify` changes the relative order of two items that remain equal. A
//! vector that is sorted best first is also a valid binary-heap layout; the
//! price of the stronger invariant is that inserting and popping move up to
//! `len` items.

use vstd::prelude::*;

verus! {

/// Something that a priority container can rank.
pub trait Prioritized: Copy {
    /// The rank of the item: the greater, the better.
    spec fn priority(&self) -> int;

    /// The rank as a machine integer.
    fn priority_key(&self) -> (k: i128)
        ensures
            k == self.priority(),
            k > i128::MIN,
    ;
}

/// An item ranked the other way round: the lower the inner rank, the better.
#[derive(Debug, Clone, Copy)]
pub struct Reverse<T>(pub T);

impl<T: Prioritized> Prioritized for Reverse<T> {
    open spec fn priority(&self) -> int {
        -self.0.priority()
    }

    fn priority_key(&self) -> (k: i128) {
        -self.0.priority_key()
    }
}

/// No item is followed by a better one.
pub open spec fn is_sorted<T: Prioritized>(s: Seq<T>) -> bool {
    forall|i: int, j: int| 0 <= i < j < s.len() ==> s[i].priority() >= s[j].priority()
}

/// Where a new item goes: behind the leading items that are at least as good.
pub open spec fn insertion_point<T: Prioritized>(s: Seq<T>, x: T) -> int
    decreases s.len(),
{
    if s.len() == 0 || s.first().priority() < x.priority() {
        0
    } else {
        1 + insertion_point(s.drop_first(), x)
    }
}

/// The sequence with `x` put at its insertion point.
pub open spec fn insert_by_priority<T: Prioritized>(s: Seq<T>, x: T) -> Seq<T> {
    s.insert(insertion_point(s, x), x)
}

/// The items of `s` sorted best first, equal items in their order in `s`.
pub open spec fn sorted_by_priority<T: Prioritized>(s: Seq<T>) -> Seq<T>
    decreases s.len(),
{
    if s.len() == 0 {
        Seq::empty()
    } else {
        insert_by_priority(sorted_by_priority(s.drop_last()), s.last())
    }
}

/// The items of `s` whose place in `mask` holds `true`, in their order.
pub open spec fn select<T>(s: Seq<T>, mask: Seq<bool>) -> Seq<T>
    decreases s.len(),
{
    if s.len() == 0 || mask.len() != s.len() {
        Seq::empty()
    } else {
        let rest = select(s.drop_last(), mask.drop_last());
        if mask.last() {
            rest.push(s.last())
        } else {
            rest
        }
    }
}

/// The insertion point lies within the sequence; every item before it is at
/// least as good as `x`, and the item at it, if any, is worse.
pub proof fn lemma_insertion_point<T: Prioritized>(s: Seq<T>, x: T)
    ensures
        0 <= insertion_point(s, x) <= s.len(),
        forall|j: int| 0 <= j < insertion_point(s, x) ==> s[j].priority() >= x.priority(),
        insertion_point(s, x) < s.len() ==> s[insertion_point(s, x)].priority() < x.priority(),
    decreases s.len(),
{
    if s.len() == 0 || s.first().priority() < x.priority() {
    } else {
        let t = s.drop_first();
        lemma_insertion_point(t, x);
        assert forall|j: int| 0 <= j < insertion_point(s, x) implies s[j].priority()
            >= x.priority() by {
            if j > 0 {
                assert(s[j] == t[j - 1]);
            }
        }
        if insertion_point(s, x) < s.len() {
            assert(s[insertion_point(s, x)] == t[insertion_point(t, x)]);
        }
    }
}

/// A position that splits the sequence as the insertion point does is the
/// insertion point.
pub proof fn lemma_insertion_point_is<T: Prioritized>(s: Seq<T>, x: T, p: int)
    requires
        0 <= p <= s.len(),
        forall|j: int| 0 <= j < p ==> s[j].priority() >= x.priority(),
        p < s.len() ==> s[p].priority() < x.priority(),
    ensures
        insertion_point(s, x) == p,
    decreases s.len(),
{
    if p == 0 {
    } else {
        let t = s.drop_first();
        assert(s.first() == s[0]);
        assert forall|j: int| 0 <= j < p - 1 implies t[j].priority() >= x.priority() by {
            assert(t[j] == s[j + 1]);
        }
        if p - 1 < t.len() {
            assert(t[p - 1] == s[p]);
        }
        lemma_insertion_point_is(t, x, p - 1);
    }
}

/// Inserting by priority keeps a sorted sequence sorted.
pub proof fn lemma_insert_keeps_sorted<T: Prioritized>(s: Seq<T>, x: T)
    requires
        is_sorted(s),
    ensures
        is_sorted(insert_by_priority(s, x)),
        insert_by_priority(s, x).len() == s.len() + 1,
{
    lemma_insertion_point(s, x);
    let p = insertion_point(s, x);
    let r = insert_by_priority(s, x);
    assert forall|i: int, j: int| 0 <= i < j < r.len() implies r[i].priority()
        >= r[j].priority() by {
        if j < p {
            assert(r[i] == s[i] && r[j] == s[j]);
        } else if j == p {
            assert(r[i] == s[i]);
        } else if i < p {
            assert(r[i] == s[i] && r[j] == s[j - 1]);
            assert(p <= j - 1);
            if p < j - 1 {
                assert(s[p].priority() >= s[j - 1].priority());
            }
        } else if i == p {
            assert(r[j] == s[j - 1]);
            if p < j - 1 {
                assert(s[p].priority() >= s[j - 1].priority());
            }
        } else {
            assert(r[i] == s[i - 1] && r[j] == s[j - 1]);
        }
    }
}

/// Sorting gives a sorted sequence of the same length.
pub proof fn lemma_sorted_by_priority<T: Prioritized>(s: Seq<T>)
    ensures
        is_sorted(sorted_by_priority(s)),
        sorted_by_priority(s).len() == s.len(),
    decreases s.len(),
{
    if s.len() > 0 {
        lemma_sorted_by_priority(s.drop_last());
        lemma_insert_keeps_sorted(sorted_by_priority(s.drop_last()), s.last());
    }
}

/// Sorting leaves a sorted sequence as it is.
pub proof fn lemma_sorted_is_fixed<T: Prioritized>(s: Seq<T>)
    requires
        is_sorted(s),
    ensures
        sorted_by_priority(s) == s,
    decreases s.len(),
{
    if s.len() > 0 {
        let t = s.drop_last();
        assert(is_sorted(t)) by {
            assert forall|i: int, j: int| 0 <= i < j < t.len() implies t[i].priority()
                >= t[j].priority() by {
                assert(t[i] == s[i] && t[j] == s[j]);
            }
        }
        lemma_sorted_is_fixed(t);
        assert forall|j: int| 0 <= j < t.len() implies t[j].priority() >= s.last().priority() by {
            assert(t[j] == s[j]);
        }
        lemma_insertion_point_is(t, s.last(), t.len() as int);
        assert(t.insert(t.len() as int, s.last()) =~= s);
    } else {
        assert(sorted_by_priority(s) =~= s);
    }
}

/// What holds of every item before sorting holds of every item after it.
pub proof fn lemma_sorted_keeps_all<T: Prioritized>(s: Seq<T>, pred: spec_fn(T) -> bool)
    requires
        forall|i: int| 0 <= i < s.len() ==> pred(#[trigger] s[i]),
    ensures
        forall|k: int|
            0 <= k < sorted_by_priority(s).len() ==> pred(#[trigger] sorted_by_priority(s)[k]),
    decreases s.len(),
{
    if s.len() > 0 {
        let t = s.drop_last();
        assert forall|i: int| 0 <= i < t.len() implies pred(#[trigger] t[i]) by {
            assert(t[i] == s[i]);
        }
        lemma_sorted_keeps_all(t, pred);
        lemma_sorted_by_priority(t);
        let u = sorted_by_priority(t);
        lemma_insertion_point(u, s.last());
        let p = insertion_point(u, s.last());
        let r = sorted_by_priority(s);
        assert(pred(s[s.len() - 1]));
        assert forall|k: int| 0 <= k < r.len() implies pred(#[trigger] r[k]) by {
            if k < p {
                assert(r[k] == u[k]);
            } else if k == p {
                assert(r[k] == s.last());
            } else {
                assert(r[k] == u[k - 1]);
            }
        }
    }
}

/// Selecting by a mask that agrees with a predicate is filtering by it.
pub proof fn lemma_select_is_filter<T>(s: Seq<T>, mask: Seq<bool>, pred: spec_fn(T) -> bool)
    requires
        mask.len() == s.len(),
        forall|i: int| 0 <= i < s.len() ==> mask[i] == pred(s[i]),
    ensures
        select(s, mask) == s.filter(pred),
    decreases s.len(),
{
    reveal(Seq::filter);
    if s.len() > 0 {
        lemma_select_is_filter(s.drop_last(), mask.drop_last(), pred);
    } else {
        assert(select(s, mask) =~= s.filter(pred));
    }
}

/// What a selection holds: each item comes from a place of `s` that the mask
/// keeps, and later items come from later places.
pub proof fn lemma_select_sources<T>(s: Seq<T>, mask: Seq<bool>) -> (src: Seq<int>)
    requires
        mask.len() == s.len(),
    ensures
        src.len() == select(s, mask).len(),
        select(s, mask).len() <= s.len(),
        forall|k: int|
            0 <= k < src.len() ==> 0 <= #[trigger] src[k] < s.len() && mask[src[k]] && select(
                s,
                mask,
            )[k] == s[src[k]],
        forall|k: int, l: int| 0 <= k < l < src.len() ==> src[k] < src[l],
    decreases s.len(),
{
    if s.len() == 0 {
        Seq::empty()
    } else {
        let rest = lemma_select_sources(s.drop_last(), mask.drop_last());
        if mask.last() {
            let src = rest.push(s.len() - 1);
            assert forall|k: int| 0 <= k < src.len() implies 0 <= #[trigger] src[k] < s.len()
                && mask[src[k]] && select(s, mask)[k] == s[src[k]] by {
                if k < rest.len() {
                    assert(src[k] == rest[k]);
                    assert(mask.drop_last()[rest[k]] == mask[rest[k]]);
                    assert(s.drop_last()[rest[k]] == s[rest[k]]);
                }
            }
            src
        } else {
            assert forall|k: int| 0 <= k < rest.len() implies 0 <= #[trigger] rest[k] < s.len()
                && mask[rest[k]] && select(s, mask)[k] == s[rest[k]] by {
                assert(mask.drop_last()[rest[k]] == mask[rest[k]]);
                assert(s.drop_last()[rest[k]] == s[rest[k]]);
            }
            rest
        }
    }
}

/// A selection from a sorted sequence is sorted.
pub proof fn lemma_select_keeps_sorted<T: Prioritized>(s: Seq<T>, mask: Seq<bool>)
    requires
        is_sorted(s),
        mask.len() == s.len(),
    ensures
        is_sorted(select(s, mask)),
{
    let src = lemma_select_sources(s, mask);
    let r = select(s, mask);
    assert forall|i: int, j: int| 0 <= i < j < r.len() implies r[i].priority()
        >= r[j].priority() by {
        assert(r[i] == s[src[i]] && r[j] == s[src[j]]);
        assert(src[i] < src[j]);
    }
}

/// A sequence in which no item is directly followed by a better one is
/// sorted.
pub proof fn lemma_sorted_by_neighbours<T: Prioritized>(s: Seq<T>)
    requires
        forall|i: int| 0 <= i < s.len() - 1 ==> (#[trigger] s[i]).priority() >= s[i + 1].priority(),
    ensures
        is_sorted(s),
    decreases s.len(),
{
    if s.len() > 1 {
        let t = s.drop_last();
        assert forall|i: int| 0 <= i < t.len() - 1 implies (#[trigger] t[i]).priority() >= t[i
            + 1].priority() by {
            assert(t[i] == s[i] && t[i + 1] == s[i + 1]);
        }
        lemma_sorted_by_neighbours(t);
        assert forall|i: int, j: int| 0 <= i < j < s.len() implies s[i].priority()
            >= s[j].priority() by {
            if j < s.len() - 1 {
                assert(t[i] == s[i] && t[j] == s[j]);
            } else if i < s.len() - 2 {
                assert(t[i] == s[i] && t[s.len() - 2] == s[s.len() - 2]);
                assert(t[i].priority() >= t[s.len() - 2].priority());
                assert(s[s.len() - 2].priority() >= s[s.len() - 2 + 1].priority());
            } else {
                assert(s[i].priority() >= s[i + 1].priority());
            }
        }
    }
}

/// A container of ranked items, kept best first.
#[derive(Debug, Clone)]
pub struct ModifiableBinaryHeap<T: Prioritized> {
    heap: Vec<T>,
}

impl<T: Prioritized> View for ModifiableBinaryHeap<T> {
    type V = Seq<T>;

    /// The items, best first.
    closed spec fn view(&self) -> Seq<T> {
        self.heap@
    }
}

impl<T: Prioritized> ModifiableBinaryHeap<T> {
    /// The items are in order, best first.
    pub open spec fn wf(&self) -> bool {
        is_sorted(self@)
    }

    /// Whether the items are in order. A container that was made by `new` and
    /// changed through its methods always is.
    pub fn is_wf(&self) -> (ok: bool)
        ensures
            ok == self.wf(),
    {
        let n: usize = self.heap.len();
        if n < 2 {
            assert(is_sorted(self.heap@));
            return true;
        }
        let mut i: usize = 0;
        while i < n - 1
            invariant
                2 <= n,
                n == self.heap.len(),
                i <= n - 1,
                forall|j: int| 0 <= j < i ==> (#[trigger] self.heap@[j]).priority() >= self.heap@[j
                    + 1].priority(),
            decreases n - i,
        {
            if self.heap[i].priority_key() < self.heap[i + 1].priority_key() {
                return false;
            }
            i += 1;
        }
        proof {
            lemma_sorted_by_neighbours(self.heap@);
        }
        true
    }

    /// An empty container.
    pub fn new() -> (h: Self)
        ensures
            h@ == Seq::<T>::empty(),
            h.wf(),
    {
        ModifiableBinaryHeap { heap: Vec::new() }
    }

    /// Puts `item` behind the items that are at least as good as it.
    pub fn push(&mut self, item: T)
        requires
            old(self).wf(),
        ensures
            final(self).wf(),
            final(self)@ == insert_by_priority(old(self)@, item),
    {
        let key: i128 = item.priority_key();
        let mut lo: usize = 0;
        let mut hi: usize = self.heap.len();
        while lo < hi
            invariant
                lo <= hi <= self.heap.len(),
                is_sorted(self.heap@),
                key == item.priority(),
                forall|j: int| 0 <= j < lo ==> self.heap@[j].priority() >= key,
                forall|j: int| hi <= j < self.heap.len() ==> self.heap@[j].priority() < key,
            decreases hi - lo,
        {
            let mid: usize = lo + (hi - lo) / 2;
            let k: i128 = self.heap[mid].priority_key();
            if k >= key {
                lo = mid + 1;
            } else {
                hi = mid;
            }
        }
        proof {
            lemma_insertion_point_is(self.heap@, item, lo as int);
            lemma_insert_keeps_sorted(self.heap@, item);
        }
        self.heap.insert(lo, item);
    }

    /// A copy of the best item, if there is one: the first, which no item of
    /// a container in order outranks.
    pub fn peek(&self) -> (best: Option<T>)
        ensures
            best == (if self@.len() == 0 {
                None
            } else {
                Some(self@[0])
            }),
            self.wf() ==> forall|i: int|
                0 <= i < self@.len() ==> self@[0].priority() >= (#[trigger] self@[i]).priority(),
    {
        if self.heap.len() == 0 {
            None
        } else {
            Some(self.heap[0])
        }
    }

    /// Keeps the items for which `retain_fn` returns `true`, in their order.
    pub fn retain<F: Fn(&T) -> bool>(&mut self, retain_fn: F)
        requires
            old(self).wf(),
            forall|i: int| 0 <= i < old(self)@.len() ==> call_requires(retain_fn, (&old(self)@[i],)),
        ensures
            final(self).wf(),
            exists|mask: Seq<bool>|
                {
                    &&& mask.len() == old(self)@.len()
                    &&& forall|i: int|
                        0 <= i < mask.len() ==> call_ensures(
                            retain_fn,
                            (&old(self)@[i],),
                            #[trigger] mask[i],
                        )
                    &&& final(self)@ == select(old(self)@, mask)
                },
    {
        let ghost before = self.heap@;
        let ghost mut mask: Seq<bool> = Seq::empty();
        let mut kept: Vec<T> = Vec::new();
        let n: usize = self.heap.len();
        let mut i: usize = 0;
        while i < n
            invariant
                i <= n,
                n == self.heap.len(),
                self.heap@ == before,
                mask.len() == i,
                forall|j: int| 0 <= j < before.len() ==> call_requires(retain_fn, (&before[j],)),
                forall|j: int|
                    0 <= j < i ==> call_ensures(retain_fn, (&before[j],), #[trigger] mask[j]),
                kept@ == select(before.take(i as int), mask),
            decreases n - i,
        {
            let item: T = self.heap[i];
            let keep: bool = retain_fn(&item);
            proof {
                let ghost mask2 = mask.push(keep);
                assert(before.take(i + 1).drop_last() =~= before.take(i as int));
                assert(mask2.drop_last() =~= mask);
                assert(before.take(i + 1).last() == item);
                mask = mask2;
            }
            if keep {
                kept.push(item);
            }
            i += 1;
        }
        proof {
            assert(before.take(n as int) =~= before);
            lemma_select_keeps_sorted(before, mask);
        }
        self.heap = kept;
    }

    /// Takes the best item out, if there is one.
    pub fn pop(&mut self) -> (best: Option<T>)
        requires
            old(self).wf(),
        ensures
            final(self).wf(),
            old(self)@.len() == 0 ==> best.is_none() && final(self)@ == old(self)@,
            old(self)@.len() > 0 ==> best == Some(old(self)@[0]) && final(self)@ == old(
                self,
            )@.drop_first(),
    {
        if self.heap.len() == 0 {
            None
        } else {
            let best: T = self.heap.remove(0);
            proof {
                let s = old(self).heap@;
                assert(s.remove(0) =~= s.drop_first());
                assert forall|i: int, j: int| 0 <= i < j < self.heap@.len() implies self.heap@[i].priority()
                    >= self.heap@[j].priority() by {
                    assert(self.heap@[i] == s[i + 1] && self.heap@[j] == s[j + 1]);
                }
            }
            Some(best)
        }
    }

    /// Whether the container holds nothing.
    pub fn is_empty(&self) -> (empty: bool)
        ensures
            empty == (self@.len() == 0),
    {
        self.heap.len() == 0
    }

    /// A copy of the items in the order in which the container keeps them.
    pub fn iter(&self) -> (items: Vec<T>)
        ensures
            items@ == self@,
    {
        self.into_vec()
    }

    /// A copy of the items sorted from the best to the worst; items of one
    /// rank come in the order in which they entered.
    pub fn iter_sorted(&self) -> (items: Vec<T>)
        ensures
            items@ == self@,
            self.wf() ==> is_sorted(items@),
    {
        self.into_vec()
    }

    /// How many items the container holds.
    pub fn len(&self) -> (n: usize)
        ensures
            n == self@.len(),
    {
        self.heap.len()
    }

    /// A copy of the items as a vector, best first.
    pub fn into_vec(&self) -> (items: Vec<T>)
        ensures
            items@ == self@,
    {
        let n: usize = self.heap.len();
        let mut items: Vec<T> = Vec::new();
        let mut i: usize = 0;
        while i < n
            invariant
                i <= n,
                n == self.heap.len(),
                items@ == self.heap@.take(i as int),
            decreases n - i,
        {
            items.push(self.heap[i]);
            assert(self.heap@.take(i + 1) =~= self.heap@.take(i as int).push(self.heap@[i as int]));
            i += 1;
        }
        assert(self.heap@.take(n as int) =~= self.heap@);
        items
    }

    /// Replaces every item by what `modify_fn` makes of it, then puts the
    /// items back in order. Items that end up equal keep their order.
    pub fn modify<F: Fn(T) -> T>(&mut self, modify_fn: F)
        requires
            old(self).wf(),
            forall|i: int| 0 <= i < old(self)@.len() ==> call_requires(modify_fn, (old(self)@[i],)),
        ensures
            final(self).wf(),
            exists|images: Seq<T>|
                {
                    &&& images.len() == old(self)@.len()
                    &&& forall|i: int|
                        0 <= i < images.len() ==> call_ensures(
                            modify_fn,
                            (old(self)@[i],),
                            #[trigger] images[i],
                        )
                    &&& final(self)@ == sorted_by_priority(images)
                },
    {
        let ghost before = self.heap@;
        let ghost mut images: Seq<T> = Seq::empty();
        let mut rebuilt: ModifiableBinaryHeap<T> = ModifiableBinaryHeap::new();
        let n: usize = self.heap.len();
        let mut i: usize = 0;
        while i < n
            invariant
                i <= n,
                n == self.heap.len(),
                self.heap@ == before,
                images.len() == i,
                forall|j: int| 0 <= j < before.len() ==> call_requires(modify_fn, (before[j],)),
                forall|j: int|
                    0 <= j < i ==> call_ensures(modify_fn, (before[j],), #[trigger] images[j]),
                rebuilt.wf(),
                rebuilt@ == sorted_by_priority(images),
            decreases n - i,
        {
            let changed: T = modify_fn(self.heap[i]);
            proof {
                let ghost images2 = images.push(changed);
                assert(images2.drop_last() =~= images);
                images = images2;
            }
            rebuilt.push(changed);
            i += 1;
        }
        self.heap = rebuilt.heap;
    }
}

} // verus!
