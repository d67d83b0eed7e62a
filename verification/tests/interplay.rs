use peekn::PeekN;
use peekn::PeekNIterator;

fn letters() -> Vec<char> {
    vec!['a', 'b', 'c', 'd', 'e', 'f', 'g']
}

#[test]
fn next_gives_what_the_looks_showed() {
    let mut n: usize = 0;
    while n < 5 {
        let mut p = letters().into_iter().peekn::<5>();
        let mut seen: Vec<Option<char>> = Vec::new();
        let mut i: usize = 0;
        while i <= n {
            seen.push(p.peek_nth(i).copied());
            i += 1;
        }
        assert_eq!(p.size_hint(), (7, Some(7)));
        let mut given: Vec<Option<char>> = Vec::new();
        let mut i: usize = 0;
        while i <= n {
            given.push(p.next());
            i += 1;
        }
        assert_eq!(given, seen);
        assert_eq!(given[n], Some(letters()[n]));
        n += 1;
    }
}

#[test]
fn next_gives_what_the_looks_showed_past_the_end() {
    let mut p = vec![1, 2].into_iter().peekn::<4>();
    let seen = vec![
        p.peek_nth(0).copied(),
        p.peek_nth(1).copied(),
        p.peek_nth(2).copied(),
        p.peek_nth(3).copied(),
    ];
    assert_eq!(seen, vec![Some(1), Some(2), None, None]);
    let given = vec![p.next(), p.next(), p.next(), p.next()];
    assert_eq!(given, seen);
}

#[test]
fn a_deep_look_consumes_nothing() {
    let mut p = letters().into_iter().peekn::<6>();
    assert_eq!(p.peek_nth(5), Some(&'f'));
    let mut rest: Vec<char> = Vec::new();
    while let Some(c) = p.next() {
        rest.push(c);
    }
    assert_eq!(rest, letters());
}

#[test]
fn looking_twice_shows_the_same() {
    let mut p = letters().into_iter().peekn::<4>();
    let mut n: usize = 0;
    while n < 4 {
        let first = p.peek_nth(n).copied();
        let second = p.peek_nth(n).copied();
        assert_eq!(first, second);
        assert_eq!(first, Some(letters()[n]));
        n += 1;
    }
    let mut q = vec![1u8].into_iter().peekn::<3>();
    assert_eq!(q.peek_nth(2), None);
    assert_eq!(q.peek_nth(2), None);
    assert_eq!(q.peek_nth(0), Some(&1));
    assert_eq!(q.peek_nth(0), Some(&1));
}

#[test]
fn a_look_at_the_front_is_what_next_gives() {
    let mut p = vec![3, 1, 4].into_iter().peekn::<2>();
    let mut rounds: usize = 0;
    while rounds < 5 {
        let shown = p.peek_nth(0).copied();
        assert_eq!(p.next(), shown);
        rounds += 1;
    }
    assert_eq!(p.peek_nth(0), None);
}

#[test]
fn nth_is_next_called_again_and_again() {
    let mut depth: usize = 0;
    while depth < 4 {
        let mut n: usize = 0;
        while n < 9 {
            let mut skipping = letters().into_iter().peekn::<4>();
            let mut stepping = letters().into_iter().peekn::<4>();
            if depth > 0 {
                skipping.peek_nth(depth - 1);
                stepping.peek_nth(depth - 1);
            }
            let skipped = skipping.nth(n);
            let mut stepped = None;
            let mut i: usize = 0;
            while i <= n {
                stepped = stepping.next();
                i += 1;
            }
            assert_eq!(skipped, stepped);
            let mut i: usize = 0;
            while i < 8 {
                assert_eq!(skipping.next(), stepping.next());
                i += 1;
            }
            n += 1;
        }
        depth += 1;
    }
}

#[test]
fn nth_gives_the_item_at_its_place() {
    let mut p = letters().into_iter().peekn::<4>();
    assert_eq!(p.peek_nth(2), Some(&'c'));
    assert_eq!(p.nth(4), Some('e'));
    assert_eq!(p.nth(0), Some('f'));
    assert_eq!(p.nth(0), Some('g'));
    assert_eq!(p.nth(0), None);
}

#[test]
fn count_is_the_number_of_items_next_would_give() {
    let mut looks: usize = 0;
    while looks < 6 {
        let mut taken: usize = 0;
        while taken < 4 {
            let mut counted = PeekNIterator::<_, 6>::new(vec![10, 20, 30].into_iter());
            let mut walked = PeekNIterator::<_, 6>::new(vec![10, 20, 30].into_iter());
            if looks > 0 {
                counted.peek_nth(looks - 1);
                walked.peek_nth(looks - 1);
            }
            let mut i: usize = 0;
            while i < taken {
                counted.next();
                walked.next();
                i += 1;
            }
            let mut steps: usize = 0;
            while walked.next().is_some() {
                steps += 1;
            }
            assert_eq!(counted.count(), steps);
            assert_eq!(steps, 3usize.saturating_sub(taken));
            taken += 1;
        }
        looks += 1;
    }
}

#[test]
fn the_estimate_holds_while_no_marker_is_cached() {
    let mut looks: usize = 0;
    while looks <= 4 {
        let mut p = (0..9).peekn::<4>();
        let mut q = (0..9).peekn::<4>();
        p.next();
        q.next();
        if looks > 0 {
            p.peek_nth(looks - 1);
            q.peek_nth(looks - 1);
        }
        let (lower, upper) = p.size_hint();
        let left = q.count();
        assert_eq!(left, 8);
        assert!(lower <= left);
        assert!(left <= upper.unwrap());
        assert_eq!((lower, upper), (8, Some(8)));
        looks += 1;
    }
}

#[test]
fn the_upper_estimate_holds_with_markers_cached() {
    let mut p = (0..2).peekn::<4>();
    let mut q = (0..2).peekn::<4>();
    assert_eq!(p.peek_nth(3), None);
    assert_eq!(q.peek_nth(3), None);
    let (lower, upper) = p.size_hint();
    let left = q.count();
    assert_eq!(left, 2);
    assert_eq!((lower, upper), (4, Some(4)));
    assert!(left <= upper.unwrap());
}

/// Hands out an item on every other call, and `None` in between.
struct Flicker {
    calls: u32,
}

impl Iterator for Flicker {
    type Item = u32;

    fn next(&mut self) -> Option<u32> {
        self.calls += 1;
        if self.calls % 2 == 1 {
            Some(self.calls)
        } else {
            None
        }
    }
}

#[test]
fn the_window_serves_whatever_the_producer_does() {
    let mut p = Flicker { calls: 0 }.peekn::<4>();
    assert_eq!(p.peek_nth(2), Some(&3));
    assert_eq!(p.peek_nth(2), Some(&3));
    assert_eq!(p.peek_nth(1), None);
    assert_eq!(p.peek_nth(0), Some(&1));
    assert_eq!(p.next(), Some(1));
    assert_eq!(p.peek_nth(1), Some(&3));
    assert_eq!(p.nth(1), Some(3));
    assert_eq!(p.next(), None);
    assert_eq!(p.next(), Some(5));
}

#[test]
fn nth_inside_the_window_leaves_the_producer_alone() {
    let mut p = Flicker { calls: 0 }.peekn::<4>();
    assert_eq!(p.peek_nth(3), None);
    assert_eq!(p.nth(1), None);
    assert_eq!(p.peek_nth(0), Some(&3));
    assert_eq!(p.peek_nth(1), None);
    assert_eq!(p.next(), Some(3));
    assert_eq!(p.next(), None);
    assert_eq!(p.next(), Some(5));
}
