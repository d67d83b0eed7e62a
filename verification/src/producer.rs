//! Requests made of a producer, stated over the items it has left.

use vstd::prelude::*;
use vstd::std_specs::iter::IteratorSpec;
use crate::lookahead::left_after;

verus! {

/// Discards `count` items of a producer and hands out the one that follows
/// them. The requests stop at the first `None`.
pub fn skip_ahead<I: Iterator>(iter: &mut I, count: usize) -> (r: Option<I::Item>)
    ensures
        (*final(iter)).obeys_prophetic_iter_laws() == (*old(iter)).obeys_prophetic_iter_laws(),
        (*old(iter)).obeys_prophetic_iter_laws() ==> {
            &&& (*final(iter)).remaining() == left_after(
                (*old(iter)).remaining(),
                (count + 1) as nat,
            )
            &&& r == if count < (*old(iter)).remaining().len() {
                Some((*old(iter)).remaining()[count as int])
            } else {
                None
            }
        },
{
    let mut skipped: usize = 0;
    while skipped < count
        invariant
            skipped <= count,
            (*iter).obeys_prophetic_iter_laws() == (*old(iter)).obeys_prophetic_iter_laws(),
            (*old(iter)).obeys_prophetic_iter_laws() ==> {
                &&& skipped <= (*old(iter)).remaining().len()
                &&& (*iter).remaining() == (*old(iter)).remaining().skip(skipped as int)
            },
        decreases count - skipped,
    {
        let item = iter.next();
        if item.is_none() {
            assert((*old(iter)).obeys_prophetic_iter_laws() ==> (*iter).remaining()
                =~= left_after((*old(iter)).remaining(), (count + 1) as nat));
            return None;
        }
        assert((*old(iter)).obeys_prophetic_iter_laws() ==> (*iter).remaining()
            =~= (*old(iter)).remaining().skip(skipped + 1));
        skipped += 1;
    }
    let item = iter.next();
    assert((*old(iter)).obeys_prophetic_iter_laws() ==> (*iter).remaining() =~= left_after(
        (*old(iter)).remaining(),
        (count + 1) as nat,
    ));
    item
}

/// Consumes a producer and counts the items it hands out, up to the largest
/// number there is.
pub fn exhaust<I: Iterator>(iter: I) -> (c: usize)
    ensures
        iter.obeys_prophetic_iter_laws() ==> c == if iter.remaining().len() <= usize::MAX {
            iter.remaining().len()
        } else {
            usize::MAX as nat
        },
{
    let mut source = iter;
    let mut c: usize = 0;
    while c < usize::MAX
        invariant
            source.obeys_prophetic_iter_laws() == iter.obeys_prophetic_iter_laws(),
            iter.obeys_prophetic_iter_laws() ==> c + source.remaining().len()
                == iter.remaining().len(),
        ensures
            iter.obeys_prophetic_iter_laws() ==> c == if iter.remaining().len() <= usize::MAX {
                iter.remaining().len()
            } else {
                usize::MAX as nat
            },
        decreases usize::MAX - c,
    {
        if source.next().is_none() {
            break;
        }
        c += 1;
    }
    c
}

/// The producer's own estimate of how many items it has left, from
/// `Iterator::size_hint`: a lower bound and, where it knows one, an upper
/// bound. Nothing is claimed of the two numbers, since a producer is free to
/// estimate badly.
#[verifier::external_body]
pub(crate) fn source_bounds<I: Iterator>(iter: &I) -> (bounds: (usize, Option<usize>)) {
    iter.size_hint()
}

} // verus!
