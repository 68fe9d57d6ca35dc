//! The decisions of the loop that accepts connections and hands out their
//! requests. The loop itself waits on the network; here is what it may wait
//! for, and what becomes of the set of pending reads when something arrives.

use crate::bounded_futures_unordered::{admitted, evicted, without, BoundedFuturesUnordered};
use crate::request::RequestDecoder;
use vstd::prelude::*;

verus! {

/// Accepted connections waiting on reading a full request.
pub const MAX_QUEUED_REQUESTS: usize = 50;

/// The longest selector that is read from a connection.
pub const MAX_SELECTOR_LENGTH: usize = 1024;

/// What the loop may wait for.
#[derive(Debug, Copy, Clone, PartialEq, Eq, Structural)]
pub struct Wait {
    /// A pending read may finish.
    pub for_request: bool,
    /// A new connection may be accepted.
    pub for_connection: bool,
}

/// What arrived.
#[derive(Debug, Copy, Clone, PartialEq, Eq, Structural)]
pub enum Event {
    /// A connection was accepted.
    Accepted,
    /// Accepting a connection failed.
    AcceptFailed,
    /// The read that was admitted under this number has finished, well or
    /// not.
    Completed(u64),
}

/// What the loop does next.
#[derive(Debug, Copy, Clone, PartialEq, Eq, Structural)]
pub enum Action {
    /// Start reading the request of the new connection under `number`, with
    /// a decoder for selectors of up to `max_length` bytes, and drop the read
    /// admitted under `dropped`, if there is one.
    Read { number: u64, max_length: usize, dropped: Option<u64> },
    /// Hand the result of this read, and the connection's writing half, to
    /// the caller.
    Deliver(u64),
    /// Go on waiting.
    Continue,
}

/// Whether each number is larger than the one before it.
pub open spec fn increasing(numbers: Seq<u64>) -> bool {
    forall|i: int, j: int| 0 <= i < j < numbers.len() ==> numbers[i] < numbers[j]
}

pub struct RequestStream {
    pending: BoundedFuturesUnordered,
    count: u64,
}

impl RequestStream {
    /// The numbers of the pending reads, oldest first.
    pub closed spec fn pending(&self) -> Seq<u64> {
        self.pending@
    }

    /// How many connections have been admitted so far. The next one gets
    /// this number.
    pub closed spec fn count(&self) -> u64 {
        self.count
    }

    /// How many reads may be pending at a time.
    pub closed spec fn max(&self) -> usize {
        self.pending.max()
    }

    /// No more reads are pending than may be, and their numbers are those of
    /// admissions that have taken place, each later than the one before.
    pub open spec fn wf(&self) -> bool {
        &&& 0 < self.max()
        &&& self.pending().len() <= self.max()
        &&& increasing(self.pending())
        &&& forall|i: int| 0 <= i < self.pending().len() ==> (#[trigger] self.pending()[i]) < self.count()
    }

    /// A stream with no read pending. One that may hold no read could never
    /// admit a connection, so `max` has to be positive.
    pub fn new(max: usize) -> (stream: RequestStream)
        requires
            max > 0,
        ensures
            stream.wf(),
            stream.max() == max,
            stream.count() == 0,
            stream.pending() == Seq::<u64>::empty(),
    {
        RequestStream { pending: BoundedFuturesUnordered::new(max), count: 0 }
    }

    /// What to wait for: a request where a read is pending, a connection
    /// while there is room for one more read. Where the loop waits for both
    /// and both arrive together, it may take either first: no order between
    /// the two is promised.
    pub fn next_step(&self) -> (wait: Wait)
        ensures
            wait.for_request == (self.pending().len() > 0),
            wait.for_connection == (self.pending().len() < self.max()),
    {
        Wait {
            for_request: !self.pending.is_empty(),
            for_connection: self.pending.len() < self.max_reads(),
        }
    }

    pub fn connections(&self) -> (count: u64)
        ensures
            count == self.count(),
    {
        self.count
    }

    pub fn max_reads(&self) -> (max: usize)
        ensures
            max == self.max(),
    {
        self.pending.max_items()
    }

    /// Takes in what arrived and says what to do about it.
    ///
    /// A connection is admitted under the next number. Where the set is full
    /// the read with the lowest number, the one that has waited longest, gives
    /// up its place. A read that has finished leaves the set and is delivered,
    /// unless it had been dropped before. A failed accept changes nothing.
    pub fn on_event(&mut self, event: Event) -> (action: Action)
        requires
            old(self).wf(),
            event is Accepted ==> old(self).count() < u64::MAX,
        ensures
            final(self).wf(),
            final(self).max() == old(self).max(),
            match event {
                Event::Accepted => {
                    &&& final(self).count() == old(self).count() + 1
                    &&& final(self).pending() == admitted(
                        old(self).pending(),
                        old(self).max() as int,
                        old(self).count(),
                    )
                    &&& action == (Action::Read {
                        number: old(self).count(),
                        max_length: MAX_SELECTOR_LENGTH,
                        dropped: evicted(old(self).pending(), old(self).max() as int),
                    })
                },
                Event::AcceptFailed => {
                    &&& final(self).count() == old(self).count()
                    &&& final(self).pending() == old(self).pending()
                    &&& action == Action::Continue
                },
                Event::Completed(number) => {
                    &&& final(self).count() == old(self).count()
                    &&& final(self).pending() == without(old(self).pending(), number)
                    &&& action == if old(self).pending().contains(number) {
                        Action::Deliver(number)
                    } else {
                        Action::Continue
                    }
                },
            },
    {
        match event {
            Event::Accepted => {
                let number = self.count;
                let dropped = self.pending.push(number);
                self.count = number + 1;
                Action::Read { number, max_length: MAX_SELECTOR_LENGTH, dropped }
            },
            Event::AcceptFailed => Action::Continue,
            Event::Completed(number) => {
                proof {
                    lemma_without_keeps_order(self.pending@, number);
                }
                if self.pending.remove(number) {
                    Action::Deliver(number)
                } else {
                    Action::Continue
                }
            },
        }
    }

    /// The decoder for the request of a connection that was just admitted.
    pub fn decoder(&self) -> (decoder: RequestDecoder)
        ensures
            decoder.max_length() == MAX_SELECTOR_LENGTH,
            !decoder.finished(),
    {
        RequestDecoder::with_max_length(MAX_SELECTOR_LENGTH)
    }
}

/// Taking a number out leaves the others as they were: each is one of the
/// numbers held before, and they are still in growing order.
pub proof fn lemma_without_keeps_order(held: Seq<u64>, number: u64)
    requires
        increasing(held),
    ensures
        increasing(without(held, number)),
        without(held, number).len() <= held.len(),
        forall|k: int|
            0 <= k < without(held, number).len() ==> held.contains(
                #[trigger] without(held, number)[k],
            ),
    decreases held.len(),
{
    if held.len() > 0 {
        let init = held.drop_last();
        assert forall|i: int, j: int| 0 <= i < j < init.len() implies init[i] < init[j] by {
            assert(held[i] < held[j]);
        }
        lemma_without_keeps_order(init, number);
        let rest = without(init, number);
        assert forall|k: int| 0 <= k < rest.len() implies held.contains(#[trigger] rest[k])
            && rest[k] < held.last() by {
            assert(init.contains(rest[k]));
            let j = choose|j: int| 0 <= j < init.len() && init[j] == rest[k];
            assert(held[j] == rest[k]);
            assert(held[j] < held[held.len() - 1]);
        }
        if held.last() != number {
            let out = rest.push(held.last());
            assert(held[held.len() - 1] == held.last());
            assert forall|k: int| 0 <= k < out.len() implies held.contains(#[trigger] out[k]) by {
                if k < rest.len() {
                    assert(out[k] == rest[k]);
                }
            }
        }
    }
}

} // verus!
