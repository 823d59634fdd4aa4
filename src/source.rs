use crate::cursor::{seq_stream, BackCursor, Cursor, DupCursor, IntoCursor};
use std::collections::VecDeque;
use vstd::prelude::*;

verus! {

/// Moves the items of a vector into a double-ended queue, keeping their order.
fn to_deque<T>(v: Vec<T>) -> (d: VecDeque<T>)
    ensures
        d@ == v@,
{
    let ghost all = v@;
    let mut v = v;
    let mut d: VecDeque<T> = VecDeque::new();
    while v.len() > 0
        invariant
            v@ + d@ == all,
        decreases v.len(),
    {
        let ghost before = d@;
        let x = v.pop().unwrap();
        d.push_front(x);
        assert(v@ + d@ =~= all) by {
            assert(v@.push(x) + before =~= v@ + d@);
        }
    }
    assert(d@ =~= all);
    d
}

/// An owning cursor over the items of a vector.
pub struct VecCursor<T> {
    items: VecDeque<T>,
}

impl<T> VecCursor<T> {
    /// The items not yet produced, front first.
    pub closed spec fn rest(&self) -> Seq<T> {
        self.items@
    }
}

impl<T> Cursor for VecCursor<T> {
    type Item = T;

    open spec fn wf(&self) -> bool {
        true
    }

    open spec fn out(&self, i: nat) -> Option<T> {
        seq_stream(self.rest(), i)
    }

    open spec fn steps_to(&self, after: &Self) -> bool {
        true
    }

    fn next(&mut self) -> (r: Option<T>) {
        self.items.pop_front()
    }
}

impl<T> BackCursor for VecCursor<T> {
    open spec fn items(&self) -> Seq<T> {
        self.rest()
    }

    proof fn lemma_items(&self) {
    }

    fn next_back(&mut self) -> (r: Option<T>) {
        self.items.pop_back()
    }
}

impl<T: Copy> DupCursor for VecCursor<T> {
    fn dup(&self) -> (r: Self) {
        let mut items: VecDeque<T> = VecDeque::new();
        let n = self.items.len();
        let mut k: usize = 0;
        while k < n
            invariant
                n == self.items@.len(),
                k <= n,
                items@ == self.items@.subrange(0, k as int),
            decreases n - k,
        {
            items.push_back(self.items[k]);
            k = k + 1;
            assert(items@ =~= self.items@.subrange(0, k as int));
        }
        assert(items@ =~= self.items@);
        VecCursor { items }
    }
}

/// A vector converts into a cursor over its items, first to last.
impl<T> IntoCursor for Vec<T> {
    type Item = T;

    type IntoCursor = VecCursor<T>;

    open spec fn convertible(&self) -> bool {
        true
    }

    open spec fn stream(&self, i: nat) -> Option<T> {
        seq_stream(self@, i)
    }

    open spec fn is_cursor(&self) -> bool {
        false
    }

    open spec fn as_cursor(self) -> VecCursor<T> {
        choose|c: VecCursor<T>| c.rest() == self@
    }

    fn into_cursor(self) -> (c: VecCursor<T>) {
        let ghost all = self@;
        let c = VecCursor { items: to_deque(self) };
        assert(forall|i: nat| #[trigger] c.out(i) == seq_stream(all, i));
        c
    }
}

/// The stream of a half-open range of positions.
pub open spec fn range_stream(start: usize, end: usize, i: nat) -> Option<usize> {
    if start + i < end {
        Some((start + i) as usize)
    } else {
        None
    }
}

/// A range of positions counts up from its start to just below its end.
impl Cursor for core::ops::Range<usize> {
    type Item = usize;

    open spec fn wf(&self) -> bool {
        true
    }

    open spec fn out(&self, i: nat) -> Option<usize> {
        range_stream(self.start, self.end, i)
    }

    open spec fn steps_to(&self, after: &Self) -> bool {
        true
    }

    fn next(&mut self) -> (r: Option<usize>) {
        if self.start < self.end {
            let n = self.start;
            self.start = self.start + 1;
            Some(n)
        } else {
            None
        }
    }
}

impl BackCursor for core::ops::Range<usize> {
    open spec fn items(&self) -> Seq<usize> {
        Seq::new(
            (if self.start < self.end { self.end - self.start } else { 0int }) as nat,
            |k: int| (self.start + k) as usize,
        )
    }

    proof fn lemma_items(&self) {
    }

    fn next_back(&mut self) -> (r: Option<usize>) {
        if self.start < self.end {
            self.end = self.end - 1;
            proof {
                assert((*self).items() =~= (*old(self)).items().drop_last());
            }
            Some(self.end)
        } else {
            None
        }
    }
}

impl DupCursor for core::ops::Range<usize> {
    fn dup(&self) -> (r: Self) {
        self.start..self.end
    }
}

} // verus!

verus! {

/// A cursor that returns a given list of results in order, then `None`
/// for good. The list may hold `None` between items.
pub struct Outcomes<T> {
    results: VecDeque<Option<T>>,
}

impl<T> Outcomes<T> {
    /// The results not yet returned.
    pub closed spec fn pending(&self) -> Seq<Option<T>> {
        self.results@
    }

    pub fn new(results: Vec<Option<T>>) -> (r: Self)
        ensures
            r.pending() == results@,
    {
        Outcomes { results: to_deque(results) }
    }
}

impl<T> Cursor for Outcomes<T> {
    type Item = T;

    open spec fn wf(&self) -> bool {
        true
    }

    open spec fn out(&self, i: nat) -> Option<T> {
        if i < self.pending().len() {
            self.pending()[i as int]
        } else {
            None
        }
    }

    open spec fn steps_to(&self, after: &Self) -> bool {
        true
    }

    fn next(&mut self) -> (r: Option<T>) {
        match self.results.pop_front() {
            Some(x) => x,
            None => None,
        }
    }
}

} // verus!

verus! {

/// An array of copyable items converts into a cursor over its items, first to last.
impl<T: Copy, const N: usize> IntoCursor for [T; N] {
    type Item = T;

    type IntoCursor = VecCursor<T>;

    open spec fn convertible(&self) -> bool {
        true
    }

    open spec fn stream(&self, i: nat) -> Option<T> {
        seq_stream(self@, i)
    }

    open spec fn is_cursor(&self) -> bool {
        false
    }

    open spec fn as_cursor(self) -> VecCursor<T> {
        choose|c: VecCursor<T>| c.rest() == self@
    }

    fn into_cursor(self) -> (c: VecCursor<T>) {
        let mut items: VecDeque<T> = VecDeque::new();
        let mut k: usize = 0;
        while k < N
            invariant
                k <= N,
                N == self@.len(),
                items@ == self@.subrange(0, k as int),
            decreases N - k,
        {
            items.push_back(self[k]);
            k = k + 1;
            assert(items@ =~= self@.subrange(0, k as int));
        }
        assert(items@ =~= self@);
        VecCursor { items }
    }
}

} // verus!
