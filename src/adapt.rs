use crate::cursor::{lemma_seq_stream_eq, seq_stream, BackCursor, Cursor};
use crate::stream::{
    count_some, first_none, lemma_count_some_shift, lemma_first_none_shift, shift, shifted, stream_of,
};
use crate::func::{apply, call, functional};
use vstd::pervasive::strictly_cloned;
use vstd::prelude::*;

verus! {

/// The stream of `s` with `f` applied to each item.
pub open spec fn map_stream<A, B, F: FnMut(A) -> B>(s: Option<A>, f: F) -> Option<B> {
    match s {
        Some(a) => Some(apply(f, a)),
        None => None,
    }
}

/// Applies a function to each item.
pub struct MapEach<C, F> {
    pub inner: C,
    pub f: F,
}

impl<B, C: Cursor, F: FnMut(C::Item) -> B> Cursor for MapEach<C, F> {
    type Item = B;

    open spec fn wf(&self) -> bool {
        self.inner.wf() && functional(self.f)
    }

    open spec fn out(&self, i: nat) -> Option<B> {
        map_stream(self.inner.out(i), self.f)
    }

    open spec fn steps_to(&self, after: &Self) -> bool {
        after.f == self.f && stream_of(after.inner) == shift(stream_of(self.inner), 1)
    }

    fn next(&mut self) -> (r: Option<B>) {
        let ghost c0 = self.inner;
        let x = self.inner.next();
        proof {
            assert(stream_of(self.inner) =~= shift(stream_of(c0), 1));
        }
        match x {
            Some(a) => Some(call(&mut self.f, a)),
            None => None,
        }
    }
}

} // verus!

verus! {

/// A reference from which the referenced value can be read out.
pub trait ReadRef {
    type Target;

    spec fn target(&self) -> Self::Target;

    fn read(&self) -> (r: Self::Target)
        ensures
            r == self.target(),
    ;
}

impl<'a, T: Copy> ReadRef for &'a T {
    type Target = T;

    open spec fn target(&self) -> T {
        **self
    }

    fn read(&self) -> (r: T) {
        **self
    }
}

/// Copies each referenced item.
pub struct Copied<C> {
    pub inner: C,
}

impl<C: Cursor> Cursor for Copied<C> where C::Item: ReadRef {
    type Item = <C::Item as ReadRef>::Target;

    open spec fn wf(&self) -> bool {
        self.inner.wf()
    }

    open spec fn out(&self, i: nat) -> Option<Self::Item> {
        match self.inner.out(i) {
            Some(r) => Some(r.target()),
            None => None,
        }
    }

    open spec fn steps_to(&self, after: &Self) -> bool {
        stream_of(after.inner) == shift(stream_of(self.inner), 1)
    }

    fn next(&mut self) -> (r: Option<Self::Item>) {
        let ghost c0 = self.inner;
        let x = self.inner.next();
        proof {
            assert(stream_of(self.inner) =~= shift(stream_of(c0), 1));
        }
        match x {
            Some(a) => Some(a.read()),
            None => None,
        }
    }
}

/// Calls a function on a reference to each item as it passes.
pub struct Inspect<C, F> {
    pub inner: C,
    pub f: F,
}

impl<C: Cursor, F: FnMut(&C::Item)> Cursor for Inspect<C, F> {
    type Item = C::Item;

    open spec fn wf(&self) -> bool {
        &&& self.inner.wf()
        &&& forall|a: &C::Item| #[trigger] self.f.requires((a,))
    }

    open spec fn out(&self, i: nat) -> Option<C::Item> {
        self.inner.out(i)
    }

    open spec fn steps_to(&self, after: &Self) -> bool {
        stream_of(after.inner) == shift(stream_of(self.inner), 1)
    }

    fn next(&mut self) -> (r: Option<C::Item>) {
        let ghost c0 = self.inner;
        let r = self.inner.next();
        proof {
            assert(stream_of(self.inner) =~= shift(stream_of(c0), 1));
        }
        match &r {
            Some(a) => {
                (self.f)(a);
            },
            None => {},
        }
        r
    }
}

/// `clone` on `T` gives one possible result for each value.
pub open spec fn clone_deterministic<T: Clone>() -> bool {
    forall|a: T, b1: T, b2: T| #[trigger] strictly_cloned(a, b1) && #[trigger] strictly_cloned(a, b2) ==> b1 == b2
}

/// The clone of `a`, for a type whose `clone` is deterministic.
pub open spec fn clone_of<T: Clone>(a: T) -> T {
    choose|b: T| strictly_cloned(a, b)
}

/// A reference from which a clone of the referenced value can be made.
pub trait CloneRef {
    type Target: Clone;

    spec fn target(&self) -> Self::Target;

    fn clone_target(&self) -> (r: Self::Target)
        ensures
            strictly_cloned(self.target(), r),
    ;
}

impl<'a, T: Clone> CloneRef for &'a T {
    type Target = T;

    open spec fn target(&self) -> T {
        **self
    }

    fn clone_target(&self) -> (r: T) {
        let r = (**self).clone();
        proof {
            assert(strictly_cloned(**self, r));
        }
        r
    }
}

/// Clones each referenced item.
pub struct Cloned<C> {
    pub inner: C,
}

impl<C: Cursor> Cursor for Cloned<C> where C::Item: CloneRef {
    type Item = <C::Item as CloneRef>::Target;

    open spec fn wf(&self) -> bool {
        self.inner.wf() && clone_deterministic::<Self::Item>()
    }

    open spec fn out(&self, i: nat) -> Option<Self::Item> {
        match self.inner.out(i) {
            Some(r) => Some(clone_of(r.target())),
            None => None,
        }
    }

    open spec fn steps_to(&self, after: &Self) -> bool {
        stream_of(after.inner) == shift(stream_of(self.inner), 1)
    }

    fn next(&mut self) -> (r: Option<Self::Item>) {
        let ghost c0 = self.inner;
        let x = self.inner.next();
        proof {
            assert(stream_of(self.inner) =~= shift(stream_of(c0), 1));
        }
        match x {
            Some(a) => {
                let b = a.clone_target();
                proof {
                    assert(strictly_cloned(a.target(), clone_of(a.target())));
                }
                Some(b)
            },
            None => None,
        }
    }
}

/// Stops for good at the first `None`.
pub struct Fuse<C> {
    pub inner: C,
    pub done: bool,
}

/// The stream of `c` cut at its first `None`.
pub open spec fn fuse_stream<C: Cursor>(c: C, i: nat) -> Option<C::Item> {
    if first_none(stream_of(c), i + 1) > i {
        c.out(i)
    } else {
        None
    }
}

impl<C: Cursor> Cursor for Fuse<C> {
    type Item = C::Item;

    open spec fn wf(&self) -> bool {
        self.inner.wf()
    }

    open spec fn out(&self, i: nat) -> Option<C::Item> {
        if self.done {
            None
        } else {
            fuse_stream(self.inner, i)
        }
    }

    /// Once done, the cursor is not asked again.
    open spec fn steps_to(&self, after: &Self) -> bool {
        if self.done {
            after.done && after.inner == self.inner
        } else {
            &&& after.done == self.inner.out(0) is None
            &&& stream_of(after.inner) == shift(stream_of(self.inner), 1)
        }
    }

    fn next(&mut self) -> (r: Option<C::Item>) {
        if self.done {
            return None;
        }
        let ghost c0 = self.inner;
        let r = self.inner.next();
        proof {
            let c = self.inner;
            assert(shifted(stream_of(c0), stream_of(c)));
            assert(stream_of(c) =~= shift(stream_of(c0), 1));
            lemma_first_none_shift(stream_of(c0), stream_of(c), 0);
            if r.is_some() {
                assert forall|i: nat| #[trigger] fuse_stream(c, i) == fuse_stream(c0, i + 1) by {
                    lemma_first_none_shift(stream_of(c0), stream_of(c), i + 1);
                    assert(c.out(i) == c0.out(i + 1));
                }
            } else {
                assert forall|i: nat| #[trigger] fuse_stream(c0, i + 1) is None by {
                    lemma_first_none_shift(stream_of(c0), stream_of(c), i + 1);
                }
            }
        }
        if r.is_none() {
            self.done = true;
        }
        r
    }
}

/// Produces at most `n` results.
pub struct Take<C> {
    pub inner: C,
    pub n: usize,
}

impl<C: Cursor> Cursor for Take<C> {
    type Item = C::Item;

    open spec fn wf(&self) -> bool {
        self.inner.wf()
    }

    open spec fn out(&self, i: nat) -> Option<C::Item> {
        if i < self.n {
            self.inner.out(i)
        } else {
            None
        }
    }

    open spec fn steps_to(&self, after: &Self) -> bool {
        if self.n > 0 {
            after.n == self.n - 1 && stream_of(after.inner) == shift(stream_of(self.inner), 1)
        } else {
            after.n == 0 && after.inner == self.inner
        }
    }

    fn next(&mut self) -> (r: Option<C::Item>) {
        if self.n != 0 {
            self.n = self.n - 1;
            let ghost c0 = self.inner;
            let x = self.inner.next();
            proof {
                assert(stream_of(self.inner) =~= shift(stream_of(c0), 1));
            }
            x
        } else {
            None
        }
    }
}

/// Pairs each item with its position among the items.
pub struct Enumerate<C> {
    pub inner: C,
    pub count: usize,
}

/// The position that the item at step `i` of `c` gets, counting from `count`.
pub open spec fn enum_index<C: Cursor>(c: C, count: usize, i: nat) -> int {
    count + count_some(stream_of(c), i)
}

impl<C: Cursor> Cursor for Enumerate<C> {
    type Item = (usize, C::Item);

    open spec fn wf(&self) -> bool {
        &&& self.inner.wf()
        &&& forall|i: nat| #[trigger] self.inner.out(i) is Some ==> enum_index(self.inner, self.count, i) < usize::MAX
    }

    open spec fn out(&self, i: nat) -> Option<(usize, C::Item)> {
        match self.inner.out(i) {
            Some(a) => Some((enum_index(self.inner, self.count, i) as usize, a)),
            None => None,
        }
    }

    open spec fn steps_to(&self, after: &Self) -> bool {
        stream_of(after.inner) == shift(stream_of(self.inner), 1)
    }

    fn next(&mut self) -> (r: Option<(usize, C::Item)>) {
        let ghost c0 = self.inner;
        let ghost n0 = self.count;
        let x = self.inner.next();
        proof {
            assert(shifted(stream_of(c0), stream_of(self.inner)));
            assert(stream_of(self.inner) =~= shift(stream_of(c0), 1));
            assert forall|i: nat| #[trigger] count_some(stream_of(c0), i + 1) == count_some(stream_of(self.inner), i) + if c0.out(0) is Some {
                1nat
            } else {
                0nat
            } by {
                lemma_count_some_shift(stream_of(c0), stream_of(self.inner), i);
            }
            assert(count_some(stream_of(c0), 0) == 0);
        }
        match x {
            Some(a) => {
                let i = self.count;
                self.count = self.count + 1;
                proof {
                    assert forall|k: nat| #[trigger] self.inner.out(k) is Some implies enum_index(self.inner, self.count, k) < usize::MAX by {
                        assert(c0.out(k + 1) is Some);
                    }
                }
                Some((i, a))
            },
            None => {
                proof {
                    assert forall|k: nat| #[trigger] self.inner.out(k) is Some implies enum_index(self.inner, self.count, k) < usize::MAX by {
                        assert(c0.out(k + 1) is Some);
                    }
                }
                None
            },
        }
    }
}

/// Produces the items of a finite cursor from the back.
pub struct Rev<C> {
    pub inner: C,
}

impl<C: BackCursor> Cursor for Rev<C> {
    type Item = C::Item;

    open spec fn wf(&self) -> bool {
        self.inner.wf()
    }

    open spec fn out(&self, i: nat) -> Option<C::Item> {
        seq_stream(self.inner.items().reverse(), i)
    }

    open spec fn steps_to(&self, after: &Self) -> bool {
        after.inner.items() == if self.inner.items().len() > 0 {
            self.inner.items().drop_last()
        } else {
            self.inner.items()
        }
    }

    fn next(&mut self) -> (r: Option<C::Item>) {
        let ghost s0 = self.inner.items();
        let r = self.inner.next_back();
        proof {
            if s0.len() > 0 {
                assert(s0.drop_last().reverse() =~= s0.reverse().drop_first());
            }
        }
        r
    }
}

impl<C: BackCursor> BackCursor for Rev<C> {
    open spec fn items(&self) -> Seq<C::Item> {
        self.inner.items().reverse()
    }

    proof fn lemma_items(&self) {
    }

    fn next_back(&mut self) -> (r: Option<C::Item>) {
        let ghost c0 = self.inner;
        let r = self.inner.next();
        proof {
            c0.lemma_items();
            self.inner.lemma_items();
            let s0 = c0.items();
            let s1 = self.inner.items();
            if s0.len() > 0 {
                assert forall|i: nat| #[trigger] seq_stream(s1, i) == seq_stream(s0.drop_first(), i) by {
                    assert(self.inner.out(i) == c0.out(i + 1));
                }
                lemma_seq_stream_eq(s1, s0.drop_first());
                assert(s0.drop_first().reverse() =~= s0.reverse().drop_last());
                assert(c0.out(0) == seq_stream(s0, 0));
            } else {
                assert forall|i: nat| #[trigger] seq_stream(s1, i) == seq_stream(s0, i) by {
                    assert(self.inner.out(i) == c0.out(i + 1));
                    assert(c0.out(i) == seq_stream(s0, i));
                }
                lemma_seq_stream_eq(s1, s0);
                assert(c0.out(0) == seq_stream(s0, 0));
            }
        }
        r
    }
}

} // verus!
