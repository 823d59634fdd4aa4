use iia::{
    chain, cloned, cycle, filter, filter_map, flat_map, flatten, map_while, peekable, skip_while,
    step_by, take, take_while,
};
use iia::{Cursor, Outcomes};

fn collect<C: Cursor>(mut c: C, limit: usize) -> Vec<C::Item> {
    let mut out = Vec::new();
    for _ in 0..limit {
        match c.next() {
            Some(x) => out.push(x),
            None => break,
        }
    }
    out
}

#[test]
fn step_by_two() {
    assert_eq!(collect(step_by([0, 1, 2, 3, 4, 5], 2), 10), vec![0, 2, 4]);
}

#[test]
fn step_by_one_is_identity() {
    assert_eq!(collect(step_by(vec![7, 8, 9], 1), 10), vec![7, 8, 9]);
}

#[test]
fn step_by_three_on_range() {
    assert_eq!(collect(step_by(0usize..10, 3), 10), vec![0, 3, 6, 9]);
}

#[test]
fn cycle_take_five() {
    assert_eq!(collect(take(cycle([1, 2]), 5), 10), vec![1, 2, 1, 2, 1]);
}

#[test]
fn cycle_of_empty_is_empty() {
    let v: Vec<i32> = Vec::new();
    let mut it = cycle(v);
    assert_eq!(it.next(), None);
    assert_eq!(it.next(), None);
}

#[test]
fn cycle_over_range() {
    assert_eq!(collect(take(cycle(0usize..3), 7), 10), vec![0, 1, 2, 0, 1, 2, 0]);
}

#[test]
fn filter_keeps_even() {
    assert_eq!(collect(filter(vec![1, 2, 3, 4, 5, 6], |x: &i32| *x % 2 == 0), 10), vec![2, 4, 6]);
}

#[test]
fn filter_passes_source_none_on() {
    let mut it = filter(Outcomes::new(vec![Some(1), None, Some(2), Some(3)]), |x: &i32| *x != 1);
    assert_eq!(it.next(), None);
    assert_eq!(it.next(), Some(2));
    assert_eq!(it.next(), Some(3));
    assert_eq!(it.next(), None);
}

#[test]
fn filter_map_parses() {
    let it = filter_map(vec!["1", "x", "3"], |s: &str| s.parse::<i32>().ok());
    assert_eq!(collect(it, 10), vec![1, 3]);
}

#[test]
fn skip_while_small() {
    let it = skip_while(vec![1, 2, 5, 1, 7], |x: &i32| *x < 3);
    assert_eq!(collect(it, 10), vec![5, 1, 7]);
}

#[test]
fn skip_while_all_skipped() {
    let it = skip_while(vec![1, 2], |x: &i32| *x < 3);
    assert_eq!(collect(it, 10), Vec::<i32>::new());
}

#[test]
fn take_while_stops_for_good() {
    let mut it = take_while(vec![1, 2, 5, 1], |x: &i32| *x < 3);
    assert_eq!(it.next(), Some(1));
    assert_eq!(it.next(), Some(2));
    assert_eq!(it.next(), None);
    assert_eq!(it.next(), None);
}

#[test]
fn take_while_over_borrow_consumes_the_rejected_item() {
    let mut range = 0usize..10;
    {
        let it = take_while(&mut range, |x: &usize| *x < 3);
        assert_eq!(collect(it, 20), vec![0, 1, 2]);
    }
    assert_eq!(range, 4..10);
}

#[test]
fn map_while_stops_for_good() {
    let mut it = map_while(vec![4, 2, 0, 1], |x: i32| if x != 0 { Some(8 / x) } else { None });
    assert_eq!(it.next(), Some(2));
    assert_eq!(it.next(), Some(4));
    assert_eq!(it.next(), None);
    assert_eq!(it.next(), None);
    assert_eq!(it.next(), None);
}

#[test]
fn map_while_passes_source_none_on() {
    let mut it = map_while(Outcomes::new(vec![Some(1), None, Some(2)]), |x: i32| Some(x * 10));
    assert_eq!(it.next(), Some(10));
    assert_eq!(it.next(), None);
    assert_eq!(it.next(), Some(20));
}

#[test]
fn zip_over_borrowed_first_consumes_one_extra() {
    let mut r = 0usize..10;
    {
        let mut it = iia::zip(&mut r, vec![4, 5]);
        assert_eq!(it.next(), Some((0, 4)));
        assert_eq!(it.next(), Some((1, 5)));
        assert_eq!(it.next(), None);
    }
    assert_eq!(r, 3..10);
}

#[test]
fn peek_on_borrow_buffers_one_item() {
    let mut r = 0usize..10;
    {
        let mut p = peekable(&mut r);
        assert_eq!(p.peek(), Some(&0));
        assert_eq!(p.peek(), Some(&0));
    }
    assert_eq!(r, 1..10);
}

#[test]
fn rev_over_borrowed_range() {
    let mut r = 0usize..5;
    {
        let mut it = iia::rev(&mut r);
        assert_eq!(it.next(), Some(4));
        assert_eq!(it.next(), Some(3));
    }
    assert_eq!(r, 0..3);
}

#[test]
fn step_by_over_borrow_consumes_one_then_step() {
    let mut r = 0usize..10;
    {
        let mut it = step_by(&mut r, 3);
        assert_eq!(it.next(), Some(0));
        assert_eq!(it.next(), Some(3));
    }
    assert_eq!(r, 4..10);
}

#[test]
fn peek_does_not_consume() {
    let mut it = peekable(vec![3, 4]);
    assert_eq!(it.peek(), Some(&3));
    assert_eq!(it.peek(), Some(&3));
    assert_eq!(it.next(), Some(3));
    assert_eq!(it.next(), Some(4));
    assert_eq!(it.peek(), None);
    assert_eq!(it.next(), None);
}

#[test]
fn flatten_vectors() {
    let it = flatten(vec![vec![1, 2], vec![], vec![3]]);
    assert_eq!(collect(it, 10), vec![1, 2, 3]);
}

#[test]
fn flat_map_repeats() {
    let it = flat_map(vec![1usize, 2, 3], |n: usize| vec![n; n]);
    assert_eq!(collect(it, 10), vec![1, 2, 2, 3, 3, 3]);
}

#[test]
fn flatten_leaves_a_source_at_its_first_none() {
    let inner = vec![Outcomes::new(vec![Some(1), None, Some(9)]), Outcomes::new(vec![Some(2)])];
    let it = flatten(inner);
    assert_eq!(collect(it, 10), vec![1, 2]);
}

#[test]
fn cloned_strings() {
    let data = vec![String::from("a"), String::from("b")];
    let refs: Vec<&String> = data.iter().collect();
    assert_eq!(collect(cloned(refs), 10), vec![String::from("a"), String::from("b")]);
}

#[test]
fn chain_empty_first() {
    let v: Vec<i32> = Vec::new();
    assert_eq!(collect(chain(v, vec![1, 2]), 10), vec![1, 2]);
}
