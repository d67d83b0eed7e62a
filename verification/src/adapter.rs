//! The adapter: a producer with a ring of entries fetched ahead of time.

use vstd::prelude::*;
use vstd::std_specs::iter::IteratorSpec;
use crate::lookahead::Lookahead;
use crate::lookahead::leading_items;
use crate::bounds::widen_bounds;
use crate::bounds::widened;
use crate::lookahead::fetched;
use crate::lookahead::leading_items_len;
use crate::lookahead::leading_items_run;
use crate::lookahead::left_after;
use crate::lookahead::look_keeps_window;
use crate::lookahead::next_takes_front;
use crate::lookahead::nth_takes_from_window;
use crate::producer::exhaust;
use crate::producer::skip_ahead;
use crate::producer::source_bounds;
use crate::ring::ring_index;
use crate::ring::slot;
use crate::ring::slot_compose;
use crate::ring::slot_unfold;
use crate::ring::slots_distinct;

verus! {

/// The `len` entries of a ring that start at the slot `start`, in order.
spec fn window<T>(ring: Seq<Option<T>>, start: int, len: nat) -> Seq<Option<T>> {
    Seq::new(len, |i: int| ring[slot(start, i, ring.len() as int)])
}

/// The entry that a borrowed entry shows.
pub open spec fn shown<T>(entry: Option<&T>) -> Option<T> {
    match entry {
        Some(item) => Some(*item),
        None => None,
    }
}

/// A producer together with up to `N` entries fetched from it ahead of time.
#[derive(Clone, Hash, Debug)]
pub struct PeekNIterator<I: Iterator, const N: usize> {
    iter: I,
    queue: Vec<Option<I::Item>>,
    /// The slot of `queue` that holds the entry to hand out next.
    next_idx: usize,
    /// The number of entries that are cached, from `next_idx` on.
    num_peeked: usize,
}

impl<I: Iterator, const N: usize> PeekNIterator<I, N> {
    /// The ring has `N` slots, the cursor points into it, and no more than
    /// `N` entries are cached.
    pub closed spec fn wf(&self) -> bool {
        &&& self.queue@.len() == N
        &&& self.num_peeked <= N
        &&& (self.next_idx < N || (N == 0 && self.next_idx == 0))
    }

    /// The producer behind the window.
    pub closed spec fn source(&self) -> I {
        self.iter
    }

    /// The cached entries, nearest first. `None` is an exhaustion marker.
    pub closed spec fn cached(&self) -> Seq<Option<I::Item>> {
        window(self.queue@, self.next_idx as int, self.num_peeked as nat)
    }

    /// The producer answers requests as a sequence does: it hands out what it
    /// has left item by item, then `None`, and `None` from then on.
    pub open spec fn lawful(&self) -> bool {
        self.source().obeys_prophetic_iter_laws()
    }

    /// The slot of the ring that holds the nearest cached entry, or that will
    /// hold it once there is one.
    pub closed spec fn start(&self) -> nat {
        self.next_idx as nat
    }

    /// The cursor stays inside the ring, and the window never outgrows it.
    pub proof fn cursor_in_range(&self)
        requires
            self.wf(),
        ensures
            self.cached().len() <= N,
            self.start() < N || (N == 0 && self.start() == 0),
    {
    }

    /// Wraps a producer; nothing is fetched yet.
    pub fn new(iter: I) -> (r: Self)
        ensures
            r.wf(),
            r.source() == iter,
            r.cached() == Seq::<Option<I::Item>>::empty(),
            r.start() == 0,
    {
        let mut queue: Vec<Option<I::Item>> = Vec::new();
        let mut filled: usize = 0;
        while filled < N
            invariant
                filled <= N,
                queue@.len() == filled,
            decreases N - filled,
        {
            queue.push(None);
            filled += 1;
        }
        let r = PeekNIterator { iter, queue, next_idx: 0, num_peeked: 0 };
        assert(r.cached() =~= Seq::<Option<I::Item>>::empty());
        r
    }

    /// Discards the next `n` entries and hands out the one that follows them.
    ///
    /// Where that entry is cached, the window gives up its first `n + 1`
    /// entries. Where it is not, the whole window is given up, and the producer
    /// is asked to skip what the window did not account for.
    pub fn nth(&mut self, n: usize) -> (r: Option<I::Item>)
        requires
            old(self).wf(),
        ensures
            final(self).wf(),
            final(self).lawful() == old(self).lawful(),
            final(self).start() == if n < old(self).cached().len() {
                slot(old(self).start() as int, n + 1, N as int)
            } else {
                old(self).start() as int
            },
            nth_takes_from_window(old(self).cached(), n as nat, final(self).cached(), r),
            n < old(self).cached().len() ==> final(self).source() == old(self).source(),
            old(self).lawful() ==> ({
                let before = Lookahead::new(old(self).cached(), old(self).source().remaining());
                let after = Lookahead::new(final(self).cached(), final(self).source().remaining());
                &&& after == before.skip_to(n as nat)
                &&& r == before.item_at(n as nat)
            }),
    {
        if n < self.num_peeked {
            self.discard(n);
            let idx: usize = ring_index(self.next_idx, n, N);
            let ret = self.queue[idx].take();
            self.num_peeked -= n + 1;
            self.next_idx = ring_index(self.next_idx, n + 1, N);
            proof {
                let start = old(self).next_idx as int;
                assert forall|i: int| 0 <= i < self.num_peeked implies #[trigger] self.cached()[i]
                    == old(self).cached().skip(n + 1)[i] by {
                    slot_compose(start, n + 1, i, N as int);
                    slots_distinct(start, n as int, n + 1 + i, N as int);
                }
                assert(self.cached() =~= old(self).cached().skip(n + 1));
            }
            ret
        } else {
            let skipped: usize = self.num_peeked;
            self.discard(skipped);
            self.num_peeked = 0;
            assert(self.cached() =~= Seq::<Option<I::Item>>::empty());
            skip_ahead(&mut self.iter, n - skipped)
        }
    }

    /// Consumes the adapter and counts the items it had left: those of the
    /// producer, and the cached ones up to the first exhaustion marker.
    pub fn count(self) -> (c: usize)
        requires
            self.wf(),
            self.lawful(),
            Lookahead::new(self.cached(), self.source().remaining()).tally() <= usize::MAX,
        ensures
            c == Lookahead::new(self.cached(), self.source().remaining()).tally(),
    {
        let ghost entries = self.cached();
        let PeekNIterator { iter, queue, next_idx, num_peeked } = self;
        let mut c: usize = exhaust(iter);
        let mut seen: usize = 0;
        while seen < num_peeked
            invariant
                seen <= num_peeked <= N,
                next_idx < N || num_peeked == 0,
                queue@.len() == N,
                entries == window(queue@, next_idx as int, num_peeked as nat),
                entries == self.cached(),
                iter == self.source(),
                forall|i: int| 0 <= i < seen ==> (#[trigger] entries[i]) is Some,
                c == iter.remaining().len() + seen,
                iter.remaining().len() + leading_items(entries).len() <= usize::MAX,
            decreases num_peeked - seen,
        {
            let idx: usize = ring_index(next_idx, seen, N);
            assert(entries[seen as int] == queue@[idx as int]);
            if queue[idx].is_none() {
                proof {
                    leading_items_len(entries, seen as int);
                }
                return c;
            }
            proof {
                leading_items_run(entries);
                if leading_items(entries).len() <= seen {
                    assert(entries[leading_items(entries).len() as int] is Some);
                }
            }
            c += 1;
            seen += 1;
        }
        proof {
            leading_items_len(entries, num_peeked as int);
        }
        c
    }

    /// Looks `n` places ahead without consuming anything: the result is the
    /// item that the `n + 1`-th call of `next` from here would hand out, or
    /// `None` where the producer runs out before it.
    ///
    /// Entries that are not cached yet are fetched, up to the one asked for;
    /// those that are cached stay as they are.
    pub fn peek_nth(&mut self, n: usize) -> (r: Option<&I::Item>)
        requires
            old(self).wf(),
            n < N,
        ensures
            final(self).wf(),
            final(self).lawful() == old(self).lawful(),
            final(self).start() == old(self).start(),
            look_keeps_window(old(self).cached(), n as nat, final(self).cached(), shown(r)),
            n < old(self).cached().len() ==> final(self).source() == old(self).source(),
            old(self).lawful() ==> ({
                let before = Lookahead::new(old(self).cached(), old(self).source().remaining());
                let after = Lookahead::new(final(self).cached(), final(self).source().remaining());
                &&& after == before.peek(n as nat)
                &&& shown(r) == before.item_at(n as nat)
            }),
    {
        if self.num_peeked <= n {
            let ghost rest = self.iter.remaining();
            let mut depth: usize = self.num_peeked;
            while depth <= n
                invariant
                    n < N,
                    old(self).num_peeked <= depth <= n + 1,
                    self.wf(),
                    self.next_idx == old(self).next_idx,
                    self.num_peeked == old(self).num_peeked,
                    rest == old(self).iter.remaining(),
                    forall|i: int|
                        0 <= i < old(self).num_peeked ==> self.queue@[#[trigger] slot(
                            self.next_idx as int,
                            i,
                            N as int,
                        )] == old(self).queue@[slot(self.next_idx as int, i, N as int)],
                    self.iter.obeys_prophetic_iter_laws() == old(
                        self,
                    ).iter.obeys_prophetic_iter_laws(),
                    old(self).iter.obeys_prophetic_iter_laws() ==> {
                        &&& self.iter.remaining() == left_after(
                            rest,
                            (depth - old(self).num_peeked) as nat,
                        )
                        &&& window(self.queue@, self.next_idx as int, depth as nat) == old(
                            self,
                        ).cached() + fetched(rest, (depth - old(self).num_peeked) as nat)
                    },
                decreases n + 1 - depth,
            {
                let ghost ring = self.queue@;
                let ghost asked = (depth - self.num_peeked) as nat;
                let idx: usize = ring_index(self.next_idx, depth, N);
                let item = self.iter.next();
                self.queue[idx] = item;
                proof {
                    assert forall|i: int| 0 <= i < old(self).num_peeked implies self.queue@[
                        #[trigger] slot(self.next_idx as int, i, N as int)
                    ] == old(self).queue@[slot(self.next_idx as int, i, N as int)] by {
                        slots_distinct(self.next_idx as int, depth as int, i, N as int);
                    }
                    if old(self).iter.obeys_prophetic_iter_laws() {
                        let start = self.next_idx as int;
                        let grown = window(self.queue@, start, (depth + 1) as nat);
                        let wanted = old(self).cached() + fetched(rest, asked + 1);
                        assert(self.iter.remaining() =~= left_after(rest, asked + 1));
                        assert forall|i: int| 0 <= i < depth + 1 implies grown[i] == wanted[i] by {
                            if i < depth {
                                slots_distinct(start, depth as int, i, N as int);
                                assert(grown[i] == window(ring, start, depth as nat)[i]);
                            }
                        }
                        assert(grown =~= wanted);
                    }
                }
                depth += 1;
            }
            self.num_peeked = n + 1;
        }
        let idx: usize = ring_index(self.next_idx, n, N);
        let r = self.queue[idx].as_ref();
        assert(self.cached()[n as int] == self.queue@[idx as int]);
        r
    }

    /// Hands out the next entry and moves on by one: the cached entry where
    /// there is one, the producer's answer where there is none.
    pub fn next(&mut self) -> (r: Option<I::Item>)
        requires
            old(self).wf(),
        ensures
            final(self).wf(),
            final(self).lawful() == old(self).lawful(),
            final(self).start() == if old(self).cached().len() > 0 {
                slot(old(self).start() as int, 1, N as int)
            } else {
                old(self).start() as int
            },
            next_takes_front(old(self).cached(), final(self).cached(), r),
            old(self).cached().len() > 0 ==> final(self).source() == old(self).source(),
            old(self).lawful() ==> ({
                let before = Lookahead::new(old(self).cached(), old(self).source().remaining());
                let after = Lookahead::new(final(self).cached(), final(self).source().remaining());
                &&& after == before.advance()
                &&& r == before.item_at(0)
            }),
    {
        if self.num_peeked == 0 {
            let item = self.iter.next();
            proof {
                if old(self).lawful() {
                    assert(self.iter.remaining() =~= left_after(old(self).iter.remaining(), 1));
                }
            }
            item
        } else {
            let ret = self.queue[self.next_idx].take();
            self.num_peeked -= 1;
            self.next_idx = ring_index(self.next_idx, 1, N);
            proof {
                let start = old(self).next_idx as int;
                slot_unfold(start, 0, N as int);
                assert forall|i: int| 0 <= i < self.num_peeked implies #[trigger] self.cached()[i]
                    == old(self).cached().drop_first()[i] by {
                    slot_compose(start, 1, i, N as int);
                    slots_distinct(start, 0, 1 + i, N as int);
                }
                assert(self.cached() =~= old(self).cached().drop_first());
            }
            ret
        }
    }

    /// An estimate of how many items are left: the producer's own estimate,
    /// widened by the number of cached entries. Exhaustion markers count as
    /// entries here, so the estimate may be too high by as many as are cached.
    pub fn size_hint(&self) -> (r: (usize, Option<usize>))
        ensures
            exists|inner: (usize, Option<usize>)| r == widened(inner, self.cached().len()),
    {
        let inner = source_bounds(&self.iter);
        let r = widen_bounds(inner, self.num_peeked);
        assert(r == widened(inner, self.cached().len()));
        r
    }

    /// Empties the first `count` cached slots, so that the items in them are
    /// given up at once. The other slots, the cursor and the producer stay as
    /// they are.
    fn discard(&mut self, count: usize)
        requires
            old(self).wf(),
            count <= old(self).num_peeked,
        ensures
            final(self).wf(),
            final(self).iter == old(self).iter,
            final(self).next_idx == old(self).next_idx,
            final(self).num_peeked == old(self).num_peeked,
            forall|i: int|
                0 <= i < count ==> final(self).queue@[#[trigger] slot(
                    old(self).next_idx as int,
                    i,
                    N as int,
                )] is None,
            forall|i: int|
                count <= i < N ==> final(self).queue@[#[trigger] slot(
                    old(self).next_idx as int,
                    i,
                    N as int,
                )] == old(self).queue@[slot(old(self).next_idx as int, i, N as int)],
    {
        let mut done: usize = 0;
        while done < count
            invariant
                done <= count <= self.num_peeked,
                self.wf(),
                self.iter == old(self).iter,
                self.next_idx == old(self).next_idx,
                self.num_peeked == old(self).num_peeked,
                forall|i: int|
                    0 <= i < done ==> self.queue@[#[trigger] slot(
                        self.next_idx as int,
                        i,
                        N as int,
                    )] is None,
                forall|i: int|
                    done <= i < N ==> self.queue@[#[trigger] slot(
                        self.next_idx as int,
                        i,
                        N as int,
                    )] == old(self).queue@[slot(self.next_idx as int, i, N as int)],
            decreases count - done,
        {
            let idx: usize = ring_index(self.next_idx, done, N);
            self.queue[idx] = None;
            proof {
                assert forall|i: int| 0 <= i < done + 1 implies self.queue@[#[trigger] slot(
                    self.next_idx as int,
                    i,
                    N as int,
                )] is None by {
                    if i < done {
                        slots_distinct(self.next_idx as int, done as int, i, N as int);
                    }
                }
                assert forall|i: int| done + 1 <= i < N implies self.queue@[#[trigger] slot(
                    self.next_idx as int,
                    i,
                    N as int,
                )] == old(self).queue@[slot(self.next_idx as int, i, N as int)] by {
                    slots_distinct(self.next_idx as int, done as int, i, N as int);
                }
            }
            done += 1;
        }
    }
}

/// Lookahead for every producer.
pub trait PeekN: Iterator + Sized {
    /// Wraps the producer in an adapter that can look `N` entries ahead.
    fn peekn<const N: usize>(self) -> (r: PeekNIterator<Self, N>)
        ensures
            r.wf(),
            r.source() == self,
            r.cached() == Seq::<Option<Self::Item>>::empty(),
            r.start() == 0,
    ;
}

impl<I: Iterator> PeekN for I {
    fn peekn<const N: usize>(self) -> (r: PeekNIterator<Self, N>) {
        PeekNIterator::<I, N>::new(self)
    }
}

} // verus!
