//! The mathematical model of a lookahead window in front of a producer.
//!
//! A producer is modelled by the sequence of items it has not handed out yet.
//! Asking it for an item removes the first one; once the sequence is empty it
//! answers `None`, and goes on doing so.

use vstd::prelude::*;

verus! {

/// The answers to `count` successive requests, made of a producer that has
/// `rest` left.
pub open spec fn fetched<T>(rest: Seq<T>, count: nat) -> Seq<Option<T>> {
    Seq::new(
        count,
        |i: int|
            if i < rest.len() {
                Some(rest[i])
            } else {
                None
            },
    )
}

/// What a producer that had `rest` has left after `count` requests.
pub open spec fn left_after<T>(rest: Seq<T>, count: nat) -> Seq<T> {
    if count <= rest.len() {
        rest.skip(count as int)
    } else {
        Seq::empty()
    }
}

/// The items that stand before the first exhaustion marker.
pub open spec fn leading_items<T>(entries: Seq<Option<T>>) -> Seq<T>
    decreases entries.len(),
{
    if entries.len() == 0 || entries[0] is None {
        Seq::empty()
    } else {
        seq![entries[0]->0] + leading_items(entries.drop_first())
    }
}

/// A lookahead window and the producer behind it.
pub struct Lookahead<T> {
    /// The entries fetched ahead of time and not consumed yet, nearest first.
    /// `None` is an exhaustion marker: the producer had nothing left when the
    /// entry was fetched.
    pub cached: Seq<Option<T>>,
    /// The items that the producer has not handed out yet.
    pub rest: Seq<T>,
}

impl<T> Lookahead<T> {
    pub open spec fn new(cached: Seq<Option<T>>, rest: Seq<T>) -> Self {
        Lookahead { cached, rest }
    }

    /// The entry `n` places ahead: the cached one, or else the one that the
    /// producer would answer with once the entries before it were fetched.
    pub open spec fn item_at(self, n: nat) -> Option<T> {
        if n < self.cached.len() {
            self.cached[n as int]
        } else if n - self.cached.len() < self.rest.len() {
            Some(self.rest[n - self.cached.len()])
        } else {
            None
        }
    }

    /// The state after a look `n` places ahead: the window grows to hold
    /// `n + 1` entries, and never shrinks.
    pub open spec fn peek(self, n: nat) -> Self {
        if n < self.cached.len() {
            self
        } else {
            let count = (n + 1 - self.cached.len()) as nat;
            Lookahead {
                cached: self.cached + fetched(self.rest, count),
                rest: left_after(self.rest, count),
            }
        }
    }

    /// The state after one entry was consumed.
    pub open spec fn advance(self) -> Self {
        if self.cached.len() > 0 {
            Lookahead { cached: self.cached.drop_first(), rest: self.rest }
        } else {
            Lookahead { cached: self.cached, rest: left_after(self.rest, 1) }
        }
    }

    /// The state after `k` entries were consumed one by one.
    pub open spec fn advance_by(self, k: nat) -> Self
        decreases k,
    {
        if k == 0 {
            self
        } else {
            self.advance().advance_by((k - 1) as nat)
        }
    }

    /// The state after `n` entries were discarded and the next one taken.
    pub open spec fn skip_to(self, n: nat) -> Self {
        if n < self.cached.len() {
            Lookahead { cached: self.cached.skip((n + 1) as int), rest: self.rest }
        } else {
            Lookahead {
                cached: Seq::empty(),
                rest: left_after(self.rest, (n - self.cached.len() + 1) as nat),
            }
        }
    }

    /// The number of items counted: all that the producer has left, and the
    /// cached ones that stand before the first exhaustion marker.
    pub open spec fn tally(self) -> nat {
        self.rest.len() + leading_items(self.cached).len()
    }

    /// The items that a consumer gets before it is first told that there are
    /// no more.
    pub open spec fn stream(self) -> Seq<T> {
        let head = leading_items(self.cached);
        if head.len() == self.cached.len() {
            head + self.rest
        } else {
            head
        }
    }

    /// An exhaustion marker is only ever followed by exhaustion markers, and is
    /// only cached once the producer has nothing left.
    pub open spec fn settled(self) -> bool {
        forall|i: int|
            0 <= i < self.cached.len() && (#[trigger] self.cached[i]) is None ==> {
                &&& self.rest.len() == 0
                &&& forall|j: int| i < j < self.cached.len() ==> (#[trigger] self.cached[j]) is None
            }
    }
}

/// What a look `n` places ahead does to the window, whatever the producer
/// answers: the window comes to hold `n + 1` entries where it held fewer, the
/// entries it held stay where they were, and the entry shown is the one at
/// place `n`.
pub open spec fn look_keeps_window<T>(
    before: Seq<Option<T>>,
    n: nat,
    after: Seq<Option<T>>,
    shown: Option<T>,
) -> bool {
    &&& after.len() == if n < before.len() {
        before.len()
    } else {
        n + 1
    }
    &&& forall|i: int| 0 <= i < before.len() ==> #[trigger] after[i] == before[i]
    &&& shown == after[n as int]
}

/// What `next` does to the window, whatever the producer answers: where an
/// entry is cached, the first one is handed out and the others move up; an
/// empty window stays empty.
pub open spec fn next_takes_front<T>(
    before: Seq<Option<T>>,
    after: Seq<Option<T>>,
    given: Option<T>,
) -> bool {
    if before.len() > 0 {
        given == before[0] && after == before.drop_first()
    } else {
        after.len() == 0
    }
}

/// What `nth(n)` does to the window, whatever the producer answers: where the
/// entry at place `n` is cached, it is handed out and the entries behind it
/// move up; else the window is left empty.
pub open spec fn nth_takes_from_window<T>(
    before: Seq<Option<T>>,
    n: nat,
    after: Seq<Option<T>>,
    given: Option<T>,
) -> bool {
    if n < before.len() {
        given == before[n as int] && after == before.skip((n + 1) as int)
    } else {
        after.len() == 0
    }
}

/// `leading_items` is the longest run of items at the front: each of its members
/// is the item of the entry at the same place, and the entry that follows the
/// run, if there is one, is an exhaustion marker.
pub proof fn leading_items_run<T>(entries: Seq<Option<T>>)
    ensures
        leading_items(entries).len() <= entries.len(),
        forall|i: int|
            0 <= i < leading_items(entries).len() ==> #[trigger] entries[i] == Some(
                leading_items(entries)[i],
            ),
        leading_items(entries).len() < entries.len() ==> entries[leading_items(
            entries,
        ).len() as int] is None,
    decreases entries.len(),
{
    if entries.len() == 0 || entries[0] is None {
    } else {
        let tail = entries.drop_first();
        leading_items_run(tail);
        let run = leading_items(entries);
        assert forall|i: int| 0 <= i < run.len() implies #[trigger] entries[i] == Some(run[i]) by {
            if i > 0 {
                assert(tail[i - 1] == entries[i]);
            }
        }
        if run.len() < entries.len() {
            assert(tail[leading_items(tail).len() as int] == entries[run.len() as int]);
        }
    }
}

/// A run of `k` items that ends the window, or that an exhaustion marker
/// follows, is the whole of `leading_items`.
pub proof fn leading_items_len<T>(entries: Seq<Option<T>>, k: int)
    requires
        0 <= k <= entries.len(),
        forall|i: int| 0 <= i < k ==> (#[trigger] entries[i]) is Some,
        k < entries.len() ==> entries[k] is None,
    ensures
        leading_items(entries).len() == k,
{
    leading_items_run(entries);
    let run = leading_items(entries).len() as int;
    if run < k {
        assert(entries[run] is Some);
    } else if run > k {
        assert(entries[k] == Some(leading_items(entries)[k]));
    }
}

} // verus!
