//! The set of connections whose request has not been read yet. It holds a
//! bounded number of them: when one more is admitted to a full set, the one
//! that has waited longest gives up its place.

use futures::stream::FuturesUnordered;
use vstd::prelude::*;

verus! {

/// `futures::stream::FuturesUnordered`, taken as it is. What a set holds is
/// told by `pending_of`.
#[verifier::external_type_specification]
#[verifier::external_body]
#[verifier::reject_recursive_types(Fut)]
pub struct ExFuturesUnordered<Fut>(FuturesUnordered<Fut>);

/// What a set holds, in the order in which it was pushed: the oldest first.
pub uninterp spec fn pending_of(set: FuturesUnordered<u64>) -> Seq<u64>;

/// `FuturesUnordered::new` returns a set that holds nothing.
#[verifier::external_body]
fn empty_set() -> (set: FuturesUnordered<u64>)
    ensures
        pending_of(set) == Seq::<u64>::empty(),
{
    FuturesUnordered::new()
}

/// `FuturesUnordered::len` is the number of items held.
#[verifier::external_body]
fn set_len(set: &FuturesUnordered<u64>) -> (n: usize)
    ensures
        n == pending_of(*set).len(),
{
    set.len()
}

/// `FuturesUnordered::is_empty` tells whether nothing is held.
#[verifier::external_body]
fn set_is_empty(set: &FuturesUnordered<u64>) -> (b: bool)
    ensures
        b == (pending_of(*set).len() == 0),
{
    set.is_empty()
}

/// `FuturesUnordered::push` adds the item as the newest one. It links the
/// item at the head of the set's list and touches no other.
#[verifier::external_body]
fn set_push(set: &mut FuturesUnordered<u64>, item: u64)
    ensures
        pending_of(*final(set)) == pending_of(*old(set)).push(item),
{
    set.push(item)
}

/// The owning iterator of `FuturesUnordered` walks the set's list from its
/// head, so it hands the items out newest first.
#[verifier::external_body]
fn set_into_vec(set: FuturesUnordered<u64>) -> (items: Vec<u64>)
    ensures
        items@ == pending_of(set).reverse(),
{
    set.into_iter().collect()
}

/// The shared iterator of `FuturesUnordered` walks the set's list from its
/// head as well: a copy of each item, newest first.
#[verifier::external_body]
fn set_to_vec(set: &FuturesUnordered<u64>) -> (items: Vec<u64>)
    ensures
        items@ == pending_of(*set).reverse(),
{
    set.iter().copied().collect()
}

/// What a set that holds `held` and has room for `max` holds after `item`
/// was admitted: a full set lets go of its oldest item first.
pub open spec fn admitted(held: Seq<u64>, max: int, item: u64) -> Seq<u64> {
    if held.len() == max {
        held.skip(1).push(item)
    } else {
        held.push(item)
    }
}

/// The item that leaves when one more is admitted, if any does.
pub open spec fn evicted(held: Seq<u64>, max: int) -> Option<u64> {
    if held.len() == max {
        Some(held[0])
    } else {
        None
    }
}

/// `held` without every occurrence of `item`, the rest in their order.
pub open spec fn without(held: Seq<u64>, item: u64) -> Seq<u64>
    decreases held.len(),
{
    if held.len() == 0 {
        held
    } else if held.last() == item {
        without(held.drop_last(), item)
    } else {
        without(held.drop_last(), item).push(held.last())
    }
}

/// The first `k + 1` items hold `item` where the first `k` do, or where the
/// one after them is `item`.
proof fn lemma_contains_next(held: Seq<u64>, k: int, item: u64)
    requires
        0 <= k < held.len(),
    ensures
        held.take(k + 1).contains(item) <==> held.take(k).contains(item) || held[k] == item,
{
    let longer = held.take(k + 1);
    let shorter = held.take(k);
    if longer.contains(item) {
        let j = choose|j: int| 0 <= j < longer.len() && longer[j] == item;
        if j < k {
            assert(shorter[j] == item);
        }
    }
    if shorter.contains(item) {
        let j = choose|j: int| 0 <= j < shorter.len() && shorter[j] == item;
        assert(longer[j] == item);
    }
    if held[k] == item {
        assert(held.take(k + 1)[k] == item);
    }
}

/// A bounded set of admitted operations, each known by the number it was
/// admitted under.
pub struct BoundedFuturesUnordered {
    pending: FuturesUnordered<u64>,
    max: usize,
}

impl View for BoundedFuturesUnordered {
    type V = Seq<u64>;

    /// The operations held, oldest first.
    closed spec fn view(&self) -> Seq<u64> {
        pending_of(self.pending)
    }
}

impl BoundedFuturesUnordered {
    /// How many operations the set may hold.
    pub closed spec fn max(&self) -> usize {
        self.max
    }

    /// The set holds no more than it may.
    pub open spec fn wf(&self) -> bool {
        self@.len() <= self.max()
    }

    pub fn new(max: usize) -> (set: BoundedFuturesUnordered)
        ensures
            set@ == Seq::<u64>::empty(),
            set.max() == max,
            set.wf(),
    {
        BoundedFuturesUnordered { pending: empty_set(), max }
    }

    /// Admits `item`. A set that is full lets go of its oldest operation
    /// first, and the call returns it; the others keep their order. A set that
    /// may hold nothing cannot admit.
    pub fn push(&mut self, item: u64) -> (dropped: Option<u64>)
        requires
            old(self).max() > 0,
        ensures
            final(self).max() == old(self).max(),
            final(self)@ == admitted(old(self)@, old(self).max() as int, item),
            dropped == evicted(old(self)@, old(self).max() as int),
            old(self).wf() ==> final(self).wf(),
    {
        let ghost held = self@;
        let mut dropped = None;
        if set_len(&self.pending) == self.max {
            // The set hands its items out newest first; to keep their order
            // they go back in oldest first, all but the oldest.
            let mut fresh = empty_set();
            std::mem::swap(&mut self.pending, &mut fresh);
            let items = set_into_vec(fresh);
            let n = items.len();
            let mut i = n - 1;
            dropped = Some(items[i]);
            while i > 0
                invariant
                    i < n,
                    n == held.len(),
                    items@ == held.reverse(),
                    self.max == old(self).max,
                    pending_of(self.pending) == held.subrange(1, n - i),
                decreases i,
            {
                i -= 1;
                set_push(&mut self.pending, items[i]);
                assert(pending_of(self.pending) =~= held.subrange(1, n - i));
            }
            assert(pending_of(self.pending) =~= held.skip(1));
        }
        set_push(&mut self.pending, item);
        dropped
    }

    /// Takes `item` out of the set: its request has been read, or its
    /// connection is gone. The others keep their order. Returns whether the
    /// set held it.
    pub fn remove(&mut self, item: u64) -> (held: bool)
        ensures
            final(self).max() == old(self).max(),
            final(self)@ == without(old(self)@, item),
            held == old(self)@.contains(item),
            old(self).wf() ==> final(self).wf(),
    {
        let ghost before = self@;
        let mut fresh = empty_set();
        std::mem::swap(&mut self.pending, &mut fresh);
        let items = set_into_vec(fresh);
        let n = items.len();
        let mut i = n;
        let mut found = false;
        while i > 0
            invariant
                i <= n,
                n == before.len(),
                items@ == before.reverse(),
                self.max == old(self).max,
                pending_of(self.pending) == without(before.take(n - i), item),
                found == before.take(n - i).contains(item),
                pending_of(self.pending).len() <= n - i,
            decreases i,
        {
            i -= 1;
            let ghost k = n - 1 - i;
            assert(before.take(k + 1).drop_last() =~= before.take(k));
            assert(before.take(k + 1).last() == before[k]);
            assert(items@[i as int] == before[k]);
            proof {
                lemma_contains_next(before, k, item);
            }
            if items[i] == item {
                found = true;
            } else {
                set_push(&mut self.pending, items[i]);
            }
        }
        assert(before.take(n as int) =~= before);
        found
    }

    pub fn max_items(&self) -> (max: usize)
        ensures
            max == self.max(),
    {
        self.max
    }

    pub fn len(&self) -> (n: usize)
        ensures
            n == self@.len(),
    {
        set_len(&self.pending)
    }

    pub fn is_empty(&self) -> (b: bool)
        ensures
            b == (self@.len() == 0),
    {
        set_is_empty(&self.pending)
    }

    /// The operations held, oldest first.
    pub fn items(&self) -> (items: Vec<u64>)
        ensures
            items@ == self@,
    {
        let newest_first = set_to_vec(&self.pending);
        let n = newest_first.len();
        let mut items: Vec<u64> = Vec::new();
        let mut i = n;
        while i > 0
            invariant
                i <= n,
                n == self@.len(),
                newest_first@ == self@.reverse(),
                items@ == self@.take(n - i),
            decreases i,
        {
            i -= 1;
            items.push(newest_first[i]);
            assert(items@ =~= self@.take(n - i));
        }
        assert(self@.take(n as int) =~= self@);
        items
    }
}

/// What an empty set with room for `max` holds after the operations of
/// `items` were admitted one after the other.
pub open spec fn admitted_all(max: int, items: Seq<u64>) -> Seq<u64>
    decreases items.len(),
{
    if items.len() == 0 {
        items
    } else {
        admitted(admitted_all(max, items.drop_last()), max, items.last())
    }
}

/// The operations that left on the way, in the order in which they left.
pub open spec fn evicted_all(max: int, items: Seq<u64>) -> Seq<u64>
    decreases items.len(),
{
    if items.len() == 0 {
        items
    } else {
        match evicted(admitted_all(max, items.drop_last()), max) {
            Some(item) => evicted_all(max, items.drop_last()).push(item),
            None => evicted_all(max, items.drop_last()),
        }
    }
}

/// Admission is first in, first out. After any number of operations were
/// admitted to an empty set with room for `max`, the set holds the `max` last
/// admitted, in their order, and those that left are all the earlier ones, in
/// the order of their admission. So one more than `max` costs the first its
/// place, two more after that the second and the third, and every later one
/// is still held.
pub proof fn lemma_oldest_leave_first(max: int, items: Seq<u64>)
    requires
        max > 0,
    ensures
        items.len() <= max ==> admitted_all(max, items) == items && evicted_all(max, items)
            == Seq::<u64>::empty(),
        items.len() > max ==> admitted_all(max, items) == items.skip(items.len() - max)
            && evicted_all(max, items) == items.take(items.len() - max),
        admitted_all(max, items).len() <= max,
    decreases items.len(),
{
    if items.len() > 0 {
        let earlier = items.drop_last();
        lemma_oldest_leave_first(max, earlier);
        let n = items.len() as int;
        if n <= max {
            assert(admitted_all(max, items) =~= items);
        } else if n == max + 1 {
            assert(admitted_all(max, earlier) == earlier);
            assert(admitted_all(max, items) =~= items.skip(1));
            assert(evicted_all(max, items) =~= items.take(1));
        } else {
            assert(admitted_all(max, earlier) == earlier.skip(n - 1 - max));
            assert(admitted_all(max, items) =~= items.skip(n - max));
            assert(evicted_all(max, items) =~= items.take(n - max));
        }
    }
}

} // verus!
