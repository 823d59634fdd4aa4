use iia::{chain, copied, enumerate, fuse, inspect, rev, skip, take, zip};
use iia::{Cursor, IntoCursor, Outcomes};

fn drain<C: Cursor>(mut c: C, limit: usize) -> Vec<C::Item> {
    let mut out = Vec::new();
    for _ in 0..limit {
        match c.next() {
            Some(x) => out.push(x),
            None => break,
        }
    }
    out
}

#[test]
fn chain_through_borrowed_range_leaves_rest() {
    let mut range = 0usize..10;
    {
        let mut it = chain([1usize, 2, 3], &mut range);
        let mut got = Vec::new();
        for _ in 0..5 {
            got.push(it.next());
        }
        assert_eq!(got, vec![Some(1), Some(2), Some(3), Some(0), Some(1)]);
    }
    assert_eq!(range, 2..10);
    assert_eq!(Cursor::next(&mut range), Some(2));
}

#[test]
fn rev_then_enumerate() {
    let got = drain(enumerate(rev([1, 2, 3])), 10);
    assert_eq!(got, vec![(0, 3), (1, 2), (2, 1)]);
}

#[test]
fn zip_stops_at_shorter() {
    let mut it = zip([1, 2, 3], [4, 5]);
    assert_eq!(it.next(), Some((1, 4)));
    assert_eq!(it.next(), Some((2, 5)));
    assert_eq!(it.next(), None);
}

#[test]
fn fuse_stops_at_first_none() {
    let src = Outcomes::new(vec![Some(1), Some(2), None, Some(3), None]);
    let mut it = fuse(src);
    assert_eq!(it.next(), Some(1));
    assert_eq!(it.next(), Some(2));
    assert_eq!(it.next(), None);
    assert_eq!(it.next(), None);
    assert_eq!(it.next(), None);
}

#[test]
fn fuse_on_leading_none() {
    let mut it = fuse(Outcomes::new(vec![None, Some(1), None]));
    assert_eq!(it.next(), None);
    assert_eq!(it.next(), None);
}

#[test]
fn unfused_source_resumes() {
    let mut it = Outcomes::new(vec![Some(1), None, Some(2)]);
    assert_eq!(it.next(), Some(1));
    assert_eq!(it.next(), None);
    assert_eq!(it.next(), Some(2));
    assert_eq!(it.next(), None);
}

#[test]
fn map_doubles() {
    assert_eq!(drain(iia::map(vec![1, 2, 3], |x: i32| x * 2), 10), vec![2, 4, 6]);
}

#[test]
fn map_over_borrowed_cursor_leaves_rest() {
    let mut range = 0usize..6;
    {
        let mut it = iia::map(&mut range, |x: usize| x + 100);
        assert_eq!(it.next(), Some(100));
        assert_eq!(it.next(), Some(101));
    }
    assert_eq!(range, 2..6);
}

#[test]
fn inspect_sees_each_item() {
    let mut seen = Vec::new();
    {
        let it = inspect(vec![5, 6], |x: &i32| seen.push(*x));
        assert_eq!(drain(it, 10), vec![5, 6]);
    }
    assert_eq!(seen, vec![5, 6]);
}

#[test]
fn copied_follows_references() {
    let data = vec![7, 8, 9];
    let refs: Vec<&i32> = data.iter().collect();
    assert_eq!(drain(copied(refs), 10), vec![7, 8, 9]);
}

#[test]
fn take_limits() {
    assert_eq!(drain(take(0usize..100, 3), 10), vec![0, 1, 2]);
    assert_eq!(drain(take(vec![1, 2], 5), 10), vec![1, 2]);
    assert_eq!(drain(take(vec![1, 2], 0), 10), Vec::<i32>::new());
}

#[test]
fn skip_drops_prefix() {
    assert_eq!(drain(skip(vec![1, 2, 3, 4], 2), 10), vec![3, 4]);
    assert_eq!(drain(skip(vec![1, 2], 5), 10), Vec::<i32>::new());
}

#[test]
fn skip_stops_early_on_none() {
    let mut it = skip(Outcomes::new(vec![Some(1), None, Some(2), Some(3)]), 3);
    assert_eq!(it.next(), None);
    assert_eq!(it.next(), Some(2));
    assert_eq!(it.next(), Some(3));
}

#[test]
fn chain_of_unfused_first_moves_on_for_good() {
    let mut it = chain(Outcomes::new(vec![Some(1), None, Some(9)]), vec![2, 3]);
    assert_eq!(it.next(), Some(1));
    assert_eq!(it.next(), Some(2));
    assert_eq!(it.next(), Some(3));
    assert_eq!(it.next(), None);
}

#[test]
fn zip_asks_second_only_after_first_item() {
    let mut b = 10usize..20;
    {
        let mut it = zip(Outcomes::new(vec![None, Some(1usize)]), &mut b);
        assert_eq!(it.next(), None);
        assert_eq!(it.next(), Some((1, 10)));
    }
    assert_eq!(b, 11..20);
}

#[test]
fn rev_of_range() {
    assert_eq!(drain(rev(3usize..6), 10), vec![5, 4, 3]);
}

#[test]
fn enumerate_counts_items_only() {
    let mut it = enumerate(Outcomes::new(vec![Some('a'), None, Some('b')]));
    assert_eq!(it.next(), Some((0, 'a')));
    assert_eq!(it.next(), None);
    assert_eq!(it.next(), Some((1, 'b')));
}

#[test]
fn converting_first_changes_nothing() {
    let a = drain(enumerate(vec![4, 5, 6]), 10);
    let b = drain(enumerate(vec![4, 5, 6].into_cursor()), 10);
    assert_eq!(a, b);
    let c = drain(skip(vec![1, 2, 3], 1), 10);
    let d = drain(skip(vec![1, 2, 3].into_cursor(), 1), 10);
    assert_eq!(c, d);
    let e = drain(zip(vec![1, 2], 5usize..9), 10);
    let f = drain(zip(vec![1, 2].into_cursor(), 5usize..9), 10);
    assert_eq!(e, f);
}

#[test]
fn borrowed_cursor_keeps_unconsumed_rest() {
    let mut src = vec![1, 2, 3, 4, 5].into_cursor();
    {
        let got = drain(take(&mut src, 2), 10);
        assert_eq!(got, vec![1, 2]);
    }
    assert_eq!(drain(src, 10), vec![3, 4, 5]);
}

#[test]
fn chain_six_steps_leaves_range_at_three() {
    let mut range = 0usize..10;
    {
        let mut iter = chain([1usize, 2, 3], &mut range);
        let mut last = None;
        for _ in 0..6 {
            last = iter.next();
        }
        assert_eq!(last, Some(2));
    }
    assert_eq!(range, 3..10);
}
