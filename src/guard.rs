use crate::cursor::Cursor;
use crate::func::{apply, ask, call, decides, functional, holds};
use crate::stream::{first_hit, lemma_first_hit_shift, shift, stream_of};
use vstd::prelude::*;

verus! {

/// The item at step `i` of `c` is one that `p` rejects.
pub open spec fn rejected_at<C: Cursor, P: FnMut(&C::Item) -> bool>(c: C, p: P) -> spec_fn(nat) -> bool {
    |i: nat|
        match c.out(i) {
            Some(a) => !holds(p, a),
            None => false,
        }
}

/// Produces items while `pred` accepts them; the first rejected item ends the
/// stream for good. A `None` from the source is passed on without ending it.
pub struct TakeWhile<C, P> {
    pub inner: C,
    pub pred: P,
    pub done: bool,
}

pub open spec fn take_while_stream<C: Cursor, P: FnMut(&C::Item) -> bool>(c: C, p: P, i: nat) -> Option<C::Item> {
    if first_hit(rejected_at(c, p), i) < i {
        None
    } else {
        match c.out(i) {
            Some(a) => if holds(p, a) {
                Some(a)
            } else {
                None
            },
            None => None,
        }
    }
}

impl<C: Cursor, P: FnMut(&C::Item) -> bool> Cursor for TakeWhile<C, P> {
    type Item = C::Item;

    open spec fn wf(&self) -> bool {
        self.inner.wf() && decides(self.pred)
    }

    open spec fn out(&self, i: nat) -> Option<C::Item> {
        if self.done {
            None
        } else {
            take_while_stream(self.inner, self.pred, i)
        }
    }

    /// Once done, the cursor is not asked again.
    open spec fn steps_to(&self, after: &Self) -> bool {
        if self.done {
            after.done && after.inner == self.inner
        } else {
            &&& after.done == rejected_at(self.inner, self.pred)(0)
            &&& stream_of(after.inner) == shift(stream_of(self.inner), 1)
        }
    }

    fn next(&mut self) -> (r: Option<C::Item>) {
        if self.done {
            return None;
        }
        let ghost c0 = self.inner;
        let x = self.inner.next();
        proof {
            assert(stream_of(self.inner) =~= shift(stream_of(c0), 1));
            let h = rejected_at(c0, self.pred);
            let g = rejected_at(self.inner, self.pred);
            assert forall|i: nat| #[trigger] g(i) == h(i + 1) by {
                assert(self.inner.out(i) == c0.out(i + 1));
            }
            assert forall|i: nat| !h(0) implies #[trigger] take_while_stream(self.inner, self.pred, i) == take_while_stream(c0, self.pred, i + 1) by {
                lemma_first_hit_shift(h, g, i);
                assert(self.inner.out(i) == c0.out(i + 1));
            }
            assert forall|i: nat| h(0) implies #[trigger] take_while_stream(c0, self.pred, i + 1) is None by {
                lemma_first_hit_shift(h, g, i);
            }
            assert(first_hit(h, 0) == 0);
        }
        match x {
            Some(a) => {
                if ask(&mut self.pred, &a) {
                    Some(a)
                } else {
                    self.done = true;
                    None
                }
            },
            None => None,
        }
    }
}

/// The item at step `i` of `c` is one on which `f` gives `None`.
pub open spec fn unmapped_at<B, C: Cursor, F: FnMut(C::Item) -> Option<B>>(c: C, f: F) -> spec_fn(nat) -> bool {
    |i: nat|
        match c.out(i) {
            Some(a) => apply(f, a) is None,
            None => false,
        }
}

/// What `f` gives on the items of `c`, up to the first item on which it
/// gives `None`; that `None` ends the stream for good. A `None` from `c` is
/// passed on without ending it.
pub open spec fn map_while_stream<B, C: Cursor, F: FnMut(C::Item) -> Option<B>>(c: C, f: F, i: nat) -> Option<B> {
    if first_hit(unmapped_at(c, f), i) < i {
        None
    } else {
        match c.out(i) {
            Some(a) => apply(f, a),
            None => None,
        }
    }
}

/// Produces what `f` gives for each item, stopping for good at the first
/// `None` it gives.
pub struct MapWhile<C, F> {
    pub inner: C,
    pub f: F,
    pub done: bool,
}

impl<B, C: Cursor, F: FnMut(C::Item) -> Option<B>> Cursor for MapWhile<C, F> {
    type Item = B;

    open spec fn wf(&self) -> bool {
        self.inner.wf() && functional(self.f)
    }

    open spec fn out(&self, i: nat) -> Option<B> {
        if self.done {
            None
        } else {
            map_while_stream(self.inner, self.f, i)
        }
    }

    /// Once done, the cursor is not asked again.
    open spec fn steps_to(&self, after: &Self) -> bool {
        if self.done {
            after.done && after.inner == self.inner
        } else {
            &&& after.done == unmapped_at(self.inner, self.f)(0)
            &&& stream_of(after.inner) == shift(stream_of(self.inner), 1)
        }
    }

    fn next(&mut self) -> (r: Option<B>) {
        if self.done {
            return None;
        }
        let ghost c0 = self.inner;
        let x = self.inner.next();
        proof {
            let h = unmapped_at(c0, self.f);
            let g = unmapped_at(self.inner, self.f);
            assert(stream_of(self.inner) =~= shift(stream_of(c0), 1));
            assert forall|i: nat| #[trigger] g(i) == h(i + 1) by {
                assert(self.inner.out(i) == c0.out(i + 1));
            }
            assert forall|i: nat| !h(0) implies #[trigger] map_while_stream(self.inner, self.f, i) == map_while_stream(c0, self.f, i + 1) by {
                lemma_first_hit_shift(h, g, i);
                assert(self.inner.out(i) == c0.out(i + 1));
            }
            assert forall|i: nat| h(0) implies #[trigger] map_while_stream(c0, self.f, i + 1) is None by {
                lemma_first_hit_shift(h, g, i);
            }
            assert(first_hit(h, 0) == 0);
        }
        match x {
            Some(a) => {
                let b = call(&mut self.f, a);
                if b.is_none() {
                    self.done = true;
                }
                b
            },
            None => None,
        }
    }
}

} // verus!

verus! {

/// Allows a look at the next result without consuming it.
pub struct Peekable<C: Cursor> {
    pub inner: C,
    pub peeked: Option<Option<C::Item>>,
}

impl<C: Cursor> Cursor for Peekable<C> {
    type Item = C::Item;

    open spec fn wf(&self) -> bool {
        self.inner.wf()
    }

    open spec fn out(&self, i: nat) -> Option<C::Item> {
        match self.peeked {
            Some(v) => if i == 0 {
                v
            } else {
                self.inner.out((i - 1) as nat)
            },
            None => self.inner.out(i),
        }
    }

    /// A result looked at before is handed over without asking the cursor.
    open spec fn steps_to(&self, after: &Self) -> bool {
        &&& after.peeked is None
        &&& if self.peeked is Some {
            after.inner == self.inner
        } else {
            stream_of(after.inner) == shift(stream_of(self.inner), 1)
        }
    }

    fn next(&mut self) -> (r: Option<C::Item>) {
        match self.peeked.take() {
            Some(v) => v,
            None => {
                let ghost c0 = self.inner;
                let r = self.inner.next();
                proof {
                    assert(stream_of(self.inner) =~= shift(stream_of(c0), 1));
                }
                r
            },
        }
    }
}

impl<C: Cursor> Peekable<C> {
    /// The next result, left in place for the following call of `next`.
    pub fn peek(&mut self) -> (r: Option<&C::Item>)
        requires
            (*old(self)).wf(),
        ensures
            (*final(self)).wf(),
            forall|i: nat| #[trigger] (*final(self)).out(i) == (*old(self)).out(i),
            (*final(self)).peeked == Some((*old(self)).out(0)),
            if (*old(self)).peeked is Some {
                (*final(self)).inner == (*old(self)).inner
            } else {
                stream_of((*final(self)).inner) == shift(stream_of((*old(self)).inner), 1)
            },
            match r {
                Some(a) => (*old(self)).out(0) == Some(*a),
                None => (*old(self)).out(0) is None,
            },
    {
        if self.peeked.is_none() {
            let ghost c0 = self.inner;
            let v = self.inner.next();
            proof {
                assert(stream_of(self.inner) =~= shift(stream_of(c0), 1));
            }
            self.peeked = Some(v);
        }
        match &self.peeked {
            Some(Some(a)) => Some(a),
            _ => None,
        }
    }
}

} // verus!
