//! What holds of every lookahead window, whatever was asked of it before.

use vstd::prelude::*;
use crate::bounds::widened;
use crate::lookahead::Lookahead;
use crate::lookahead::leading_items;
use crate::lookahead::leading_items_len;
use crate::lookahead::leading_items_run;
use crate::lookahead::left_after;
use crate::lookahead::look_keeps_window;
use crate::lookahead::next_takes_front;
use crate::lookahead::nth_takes_from_window;

verus! {

/// Consuming one entry moves every entry one place nearer.
pub proof fn advance_shifts_entries<T>(m: Lookahead<T>, n: nat)
    ensures
        m.advance().item_at(n) == m.item_at(n + 1),
{
}

/// After `k` entries were consumed, the entry `n` places ahead is the one that
/// was `k + n` places ahead before.
pub proof fn advance_by_shifts_entries<T>(m: Lookahead<T>, k: nat, n: nat)
    ensures
        m.advance_by(k).item_at(n) == m.item_at(k + n),
    decreases k,
{
    if k > 0 {
        advance_by_shifts_entries(m.advance(), (k - 1) as nat, n);
        advance_shifts_entries(m, (k - 1 + n) as nat);
    }
}

/// A look ahead changes no entry, at whatever depth: it only moves entries
/// from the producer into the window.
pub proof fn peek_keeps_entries<T>(m: Lookahead<T>, n: nat, i: nat)
    ensures
        m.peek(n).item_at(i) == m.item_at(i),
{
}

/// A look ahead consumes nothing. The items still to come are the same after
/// it, and the `i + 1`-th call of `next` that follows a look `n >= i` places
/// ahead hands out what a look `i` places ahead showed.
pub proof fn peek_consumes_nothing<T>(m: Lookahead<T>, n: nat, i: nat)
    requires
        i <= n,
    ensures
        m.peek(n).stream() == m.stream(),
        m.peek(n).advance_by(i).item_at(0) == m.item_at(i),
{
    advance_by_shifts_entries(m.peek(n), i, 0);
    peek_keeps_entries(m, n, i);
    if n >= m.cached.len() {
        let count = (n + 1 - m.cached.len()) as nat;
        let grown = m.peek(n).cached;
        let run = leading_items(m.cached);
        leading_items_run(m.cached);
        leading_items_run(grown);
        if run.len() < m.cached.len() {
            leading_items_len(grown, run.len() as int);
            assert forall|k: int| 0 <= k < run.len() implies leading_items(grown)[k] == run[k] by {
                assert(grown[k] == m.cached[k]);
            }
            assert(leading_items(grown) =~= run);
        } else {
            let more: nat = if count <= m.rest.len() {
                count
            } else {
                m.rest.len()
            };
            leading_items_len(grown, (run.len() + more) as int);
            assert forall|k: int| 0 <= k < run.len() + more implies leading_items(grown)[k] == (run
                + m.rest)[k] by {
                if k < run.len() {
                    assert(grown[k] == m.cached[k]);
                } else {
                    assert(grown[k] == Some(m.rest[k - run.len()]));
                }
            }
            assert(m.peek(n).stream() =~= m.stream());
        }
    }
}

/// Looking twice at the same depth shows the same entry, and the second look
/// changes nothing.
pub proof fn peek_is_idempotent<T>(m: Lookahead<T>, n: nat)
    ensures
        m.peek(n).peek(n) == m.peek(n),
        m.peek(n).item_at(n) == m.item_at(n),
{
}

/// A look at the very next entry and the call of `next` that follows it give
/// the same answer, and leave the state that `next` alone would have left.
pub proof fn peek_front_is_next<T>(m: Lookahead<T>)
    ensures
        m.peek(0).item_at(0) == m.item_at(0),
        m.peek(0).advance() == m.advance(),
{
    assert(m.peek(0).advance().cached =~= m.advance().cached);
    assert(m.peek(0).advance().rest =~= m.advance().rest);
}

/// Skipping ahead is consuming one by one: `nth(n)` leaves the state that
/// `n + 1` calls of `next` leave, and hands out what the last of them would.
pub proof fn nth_is_repeated_next<T>(m: Lookahead<T>, n: nat)
    ensures
        m.skip_to(n) == m.advance_by(n + 1),
        m.item_at(n) == m.advance_by(n).item_at(0),
    decreases n,
{
    advance_by_shifts_entries(m, n, 0);
    if n == 0 {
        assert(m.advance().advance_by(0) == m.advance());
        assert(m.skip_to(0).cached =~= m.advance().cached);
        assert(m.skip_to(0).rest =~= m.advance().rest);
    } else {
        nth_is_repeated_next(m.advance(), (n - 1) as nat);
        assert(m.skip_to(n).cached =~= m.advance().skip_to((n - 1) as nat).cached);
        assert(m.skip_to(n).rest =~= m.advance().skip_to((n - 1) as nat).rest);
    }
}

/// Looking twice at the same depth shows the same entry, whatever the
/// producer: the second look is served from the window and leaves it as it is.
pub proof fn second_look_shows_the_same<T>(
    w0: Seq<Option<T>>,
    w1: Seq<Option<T>>,
    w2: Seq<Option<T>>,
    n: nat,
    first: Option<T>,
    second: Option<T>,
)
    requires
        look_keeps_window(w0, n, w1, first),
        look_keeps_window(w1, n, w2, second),
    ensures
        second == first,
        w2 == w1,
{
    assert(w2 =~= w1);
}

/// The entry that a look at the front shows is the one that the call of `next`
/// after it hands out, whatever the producer.
pub proof fn next_gives_what_the_look_showed<T>(
    w0: Seq<Option<T>>,
    w1: Seq<Option<T>>,
    w2: Seq<Option<T>>,
    shown: Option<T>,
    given: Option<T>,
)
    requires
        look_keeps_window(w0, 0, w1, shown),
        next_takes_front(w1, w2, given),
    ensures
        given == shown,
{
}

/// The entry that a look `n` places ahead shows is the one that `nth(n)` after
/// it hands out, whatever the producer, and the entries cached behind it stay
/// cached, in their order.
pub proof fn nth_gives_what_the_look_showed<T>(
    w0: Seq<Option<T>>,
    w1: Seq<Option<T>>,
    w2: Seq<Option<T>>,
    n: nat,
    shown: Option<T>,
    given: Option<T>,
)
    requires
        look_keeps_window(w0, n, w1, shown),
        nth_takes_from_window(w1, n, w2, given),
    ensures
        given == shown,
        w2 == w1.skip((n + 1) as int),
{
}

/// A window that has fetched nothing yet is settled.
pub proof fn fresh_is_settled<T>(rest: Seq<T>)
    ensures
        Lookahead::new(Seq::<Option<T>>::empty(), rest).settled(),
{
}

/// No operation unsettles a window: exhaustion markers come last, and only
/// once the producer has nothing left.
pub proof fn settled_is_kept<T>(m: Lookahead<T>, n: nat)
    requires
        m.settled(),
    ensures
        m.peek(n).settled(),
        m.advance().settled(),
        m.skip_to(n).settled(),
{
    let looked = m.peek(n);
    assert forall|i: int| 0 <= i < looked.cached.len() && (#[trigger] looked.cached[i]) is None
        implies looked.rest.len() == 0 && forall|j: int|
        i < j < looked.cached.len() ==> (#[trigger] looked.cached[j]) is None by {
        if i < m.cached.len() {
            assert(m.cached[i] is None);
        }
        assert forall|j: int| i < j < looked.cached.len() implies (#[trigger] looked.cached[j])
            is None by {
            if j < m.cached.len() {
                assert(m.cached[j] is None);
            }
        }
    }
    let moved = m.advance();
    assert forall|i: int| 0 <= i < moved.cached.len() && (#[trigger] moved.cached[i]) is None
        implies moved.rest.len() == 0 && forall|j: int|
        i < j < moved.cached.len() ==> (#[trigger] moved.cached[j]) is None by {
        assert(m.cached[i + 1] is None);
        assert forall|j: int| i < j < moved.cached.len() implies (#[trigger] moved.cached[j])
            is None by {
            assert(m.cached[j + 1] is None);
        }
    }
    let skipped = m.skip_to(n);
    assert forall|i: int| 0 <= i < skipped.cached.len() && (#[trigger] skipped.cached[i]) is None
        implies skipped.rest.len() == 0 && forall|j: int|
        i < j < skipped.cached.len() ==> (#[trigger] skipped.cached[j]) is None by {
        assert(m.cached[i + n + 1] is None);
        assert forall|j: int| i < j < skipped.cached.len() implies (#[trigger] skipped.cached[j])
            is None by {
            assert(m.cached[j + n + 1] is None);
        }
    }
}

/// A settled window hands out its stream and nothing else: the entry `k`
/// places ahead is the `k`-th item of the stream, and an exhaustion marker
/// from the end of the stream on.
pub proof fn entries_follow_stream<T>(m: Lookahead<T>, k: nat)
    requires
        m.settled(),
    ensures
        m.item_at(k) == if k < m.stream().len() {
            Some(m.stream()[k as int])
        } else {
            None
        },
{
    leading_items_run(m.cached);
    let run = leading_items(m.cached).len();
    if run < m.cached.len() {
        assert(m.cached[run as int] is None);
        if run <= k < m.cached.len() {
            assert(m.cached[k as int] is None);
        }
    }
}

/// The count is the number of calls of `next` that hand out an item before
/// the first that hands out none: it is the length of the stream, and the
/// `k + 1`-th call from here succeeds exactly if `k` is below the count.
pub proof fn count_is_number_of_items<T>(m: Lookahead<T>, k: nat)
    requires
        m.settled(),
    ensures
        m.tally() == m.stream().len(),
        m.advance_by(k).item_at(0) is Some <==> k < m.tally(),
{
    leading_items_run(m.cached);
    let run = leading_items(m.cached).len();
    if run < m.cached.len() {
        assert(m.cached[run as int] is None);
    }
    advance_by_shifts_entries(m, k, 0);
    entries_follow_stream(m, k);
}

/// Towards its consumer a settled window is the stream and nothing more: a
/// look ahead leaves the stream as it is, `next` removes its first item, and
/// `nth(n)` its first `n + 1` items.
pub proof fn operations_follow_stream<T>(m: Lookahead<T>, n: nat)
    requires
        m.settled(),
    ensures
        m.peek(n).stream() == m.stream(),
        m.advance().stream() == left_after(m.stream(), 1),
        m.skip_to(n).stream() == left_after(m.stream(), n + 1),
{
    peek_consumes_nothing(m, n, 0);
    settled_is_kept(m, n);
    assert(m.advance_by(1) == m.advance()) by {
        assert(m.advance().advance_by(0) == m.advance());
    }
    same_entries_same_stream(m.advance(), m, 1);
    nth_is_repeated_next(m, n);
    same_entries_same_stream(m.skip_to(n), m, n + 1);
}

/// Where every entry of one settled window is the entry `shift` places
/// further on in another, its stream is the other's without the first `shift`
/// items.
proof fn same_entries_same_stream<T>(a: Lookahead<T>, b: Lookahead<T>, shift: nat)
    requires
        a.settled(),
        b.settled(),
        a == b.advance_by(shift),
    ensures
        a.stream() == left_after(b.stream(), shift),
{
    let want = left_after(b.stream(), shift);
    assert forall|k: nat| a.item_at(k) == b.item_at(shift + k) by {
        advance_by_shifts_entries(b, shift, k);
    }
    assert forall|k: nat| #![trigger a.item_at(k)] a.item_at(k) is Some <==> k < want.len() by {
        assert(a.item_at(k) == b.item_at(shift + k));
        entries_follow_stream(b, shift + k);
    }
    if a.stream().len() < want.len() {
        let k = a.stream().len();
        entries_follow_stream(a, k);
        assert(a.item_at(k) is Some);
    } else if a.stream().len() > want.len() {
        let k = want.len();
        entries_follow_stream(a, k);
        assert(a.item_at(k) is Some);
    }
    assert forall|k: int| 0 <= k < want.len() implies a.stream()[k] == want[k] by {
        entries_follow_stream(a, k as nat);
        entries_follow_stream(b, (shift + k) as nat);
        assert(a.item_at(k as nat) == b.item_at((shift + k) as nat));
    }
    assert(a.stream() =~= want);
}

/// A widened estimate is as sound as the producer's own. Where the
/// producer has at most `upper` items left and the length of the stream fits
/// `usize`, the stream has at most the widened upper bound. Where the producer
/// has at least `lower` items left and no exhaustion marker is cached, the
/// stream has at least the widened lower bound.
pub proof fn widened_bounds_hold<T>(m: Lookahead<T>, inner: (usize, Option<usize>))
    requires
        inner.0 <= m.rest.len(),
        inner.1 matches Some(upper) ==> m.rest.len() <= upper,
    ensures
        m.stream().len() <= usize::MAX ==> (widened(inner, m.cached.len()).1 matches Some(upper)
            ==> m.stream().len() <= upper),
        leading_items(m.cached).len() == m.cached.len() ==> widened(inner, m.cached.len()).0
            <= m.stream().len(),
{
    leading_items_run(m.cached);
}

} // verus!
