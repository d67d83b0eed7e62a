use peekn::bounds::widen_bounds;
use peekn::producer::exhaust;
use peekn::producer::skip_ahead;
use peekn::ring::ring_index;

#[test]
fn ring_index_stays_below_the_capacity() {
    assert_eq!(ring_index(0, 0, 1), 0);
    assert_eq!(ring_index(0, 1, 1), 0);
    assert_eq!(ring_index(2, 0, 5), 2);
    assert_eq!(ring_index(2, 2, 5), 4);
    assert_eq!(ring_index(2, 3, 5), 0);
    assert_eq!(ring_index(4, 4, 5), 3);
    assert_eq!(ring_index(4, 5, 5), 4);
    assert_eq!(ring_index(0, 5, 5), 0);
}

#[test]
fn ring_index_does_not_overflow() {
    assert_eq!(ring_index(usize::MAX - 1, usize::MAX - 1, usize::MAX), usize::MAX - 2);
    assert_eq!(ring_index(usize::MAX - 1, 1, usize::MAX), 0);
    assert_eq!(ring_index(usize::MAX - 1, usize::MAX, usize::MAX), usize::MAX - 1);
}

#[test]
fn ring_index_is_the_remainder() {
    let capacity: usize = 7;
    let mut start: usize = 0;
    while start < capacity {
        let mut offset: usize = 0;
        while offset <= capacity {
            assert_eq!(ring_index(start, offset, capacity), (start + offset) % capacity);
            offset += 1;
        }
        start += 1;
    }
}

#[test]
fn widen_bounds_adds_the_depth() {
    assert_eq!(widen_bounds((0, None), 0), (0, None));
    assert_eq!(widen_bounds((0, Some(0)), 3), (3, Some(3)));
    assert_eq!(widen_bounds((3, Some(5)), 2), (5, Some(7)));
    assert_eq!(widen_bounds((3, None), 2), (5, None));
}

#[test]
fn widen_bounds_at_the_largest_number() {
    assert_eq!(widen_bounds((usize::MAX, Some(usize::MAX)), 0), (usize::MAX, Some(usize::MAX)));
    assert_eq!(widen_bounds((usize::MAX, Some(usize::MAX)), 1), (usize::MAX, Some(usize::MAX)));
    assert_eq!(widen_bounds((usize::MAX - 2, Some(usize::MAX - 2)), 2), (usize::MAX, Some(usize::MAX)));
    assert_eq!(widen_bounds((usize::MAX - 2, Some(usize::MAX - 1)), 2), (usize::MAX, Some(usize::MAX)));
    assert_eq!(widen_bounds((5, Some(6)), usize::MAX), (usize::MAX, Some(usize::MAX)));
    assert_eq!(widen_bounds((usize::MAX, None), usize::MAX), (usize::MAX, None));
}

#[test]
fn skip_ahead_discards_and_hands_out() {
    let mut it = vec![0, 1, 2, 3, 4].into_iter();
    assert_eq!(skip_ahead(&mut it, 0), Some(0));
    assert_eq!(skip_ahead(&mut it, 2), Some(3));
    assert_eq!(it.next(), Some(4));
    assert_eq!(skip_ahead(&mut it, 0), None);
}

#[test]
fn skip_ahead_past_the_end() {
    let mut it = vec![0, 1, 2].into_iter();
    assert_eq!(skip_ahead(&mut it, 3), None);
    assert_eq!(it.next(), None);
    let mut it = vec![0, 1, 2].into_iter();
    assert_eq!(skip_ahead(&mut it, usize::MAX), None);
    let mut it = vec![0, 1, 2].into_iter();
    assert_eq!(skip_ahead(&mut it, 2), Some(2));
    assert_eq!(it.next(), None);
}

#[test]
fn exhaust_counts_what_is_left() {
    assert_eq!(exhaust(Vec::<i32>::new().into_iter()), 0);
    assert_eq!(exhaust(vec![1, 2, 3].into_iter()), 3);
    let mut it = 0..10;
    it.next();
    assert_eq!(exhaust(it), 9);
}
