use crate::cursor::Cursor;
use crate::func::{apply, ask, call, decides, functional, holds};
use crate::stream::{ends, first_of, lemma_first_of, shift, stream_of};
use vstd::prelude::*;

verus! {

/// Step `j` of `s` ends a search for an item that `p` accepts.
pub open spec fn accept_hit<T, P: FnMut(&T) -> bool>(s: spec_fn(nat) -> Option<T>, p: P) -> spec_fn(nat) -> bool {
    |j: nat|
        match s(j) {
            Some(a) => holds(p, a),
            None => true,
        }
}

/// From every step on, a search for an item that `p` accepts ends.
pub open spec fn accept_ends<T, P: FnMut(&T) -> bool>(s: spec_fn(nat) -> Option<T>, p: P) -> bool {
    forall|d: nat| #[trigger] ends(accept_hit(shift(s, d), p))
}

/// The stream of the items of `s` that `p` accepts; each `None` of `s` is passed on.
pub open spec fn filter_out<T, P: FnMut(&T) -> bool>(s: spec_fn(nat) -> Option<T>, p: P, i: nat) -> Option<T>
    decreases i,
{
    let k = first_of(accept_hit(s, p));
    if i == 0 {
        s(k)
    } else {
        filter_out(shift(s, k + 1), p, (i - 1) as nat)
    }
}

/// Produces the items that a predicate accepts.
pub struct Filter<C, P> {
    pub inner: C,
    pub pred: P,
}

impl<C: Cursor, P: FnMut(&C::Item) -> bool> Cursor for Filter<C, P> {
    type Item = C::Item;

    open spec fn wf(&self) -> bool {
        &&& self.inner.wf()
        &&& decides(self.pred)
        &&& accept_ends(stream_of(self.inner), self.pred)
    }

    open spec fn out(&self, i: nat) -> Option<C::Item> {
        filter_out(stream_of(self.inner), self.pred, i)
    }

    /// One call takes the items up to and including the one it returns, or
    /// up to the `None` it passes on.
    open spec fn steps_to(&self, after: &Self) -> bool {
        let s = stream_of(self.inner);
        &&& after.pred == self.pred
        &&& stream_of(after.inner) == shift(s, first_of(accept_hit(s, self.pred)) + 1)
    }

    fn next(&mut self) -> (r: Option<C::Item>) {
        let ghost s0 = stream_of(self.inner);
        let ghost h0 = accept_hit(s0, self.pred);
        let ghost k0 = first_of(h0);
        proof {
            assert(shift(s0, 0) =~= s0);
            assert(ends(accept_hit(shift(s0, 0), self.pred)));
            lemma_first_of(h0);
        }
        let ghost mut t: nat = 0;
        loop
            invariant
                self.inner.wf(),
                decides(self.pred),
                self.pred == old(self).pred,
                s0 == stream_of(old(self).inner),
                h0 == accept_hit(s0, self.pred),
                accept_ends(s0, self.pred),
                k0 == first_of(h0),
                h0(k0),
                forall|j: nat| j < k0 ==> !(#[trigger] h0(j)),
                t <= k0,
                forall|j: nat| #[trigger] self.inner.out(j) == s0(j + t),
            decreases k0 - t,
        {
            let ghost prev = self.inner;
            let x = self.inner.next();
            proof {
                assert(x == s0(t)) by {
                    assert(prev.out(0) == s0(0 + t));
                }
                assert forall|j: nat| #[trigger] self.inner.out(j) == s0(j + t + 1) by {
                    assert(prev.out(j + 1) == s0(j + 1 + t));
                }
                assert(stream_of(self.inner) =~= shift(s0, t + 1));
                assert forall|d: nat| #[trigger] ends(accept_hit(shift(stream_of(self.inner), d), self.pred)) by {
                    assert(shift(stream_of(self.inner), d) =~= shift(s0, t + 1 + d));
                    assert(ends(accept_hit(shift(s0, t + 1 + d), self.pred)));
                }
            }
            match x {
                None => {
                    proof {
                        assert(h0(t));
                        assert(t == k0);
                        assert(filter_out(stream_of(self.inner), self.pred, 0) == filter_out(s0, self.pred, 1));
                    }
                    return None;
                },
                Some(a) => {
                    if ask(&mut self.pred, &a) {
                        proof {
                            assert(h0(t));
                            assert(t == k0);
                        }
                        return Some(a);
                    }
                    proof {
                        assert(!h0(t));
                    }
                    proof {
                        t = t + 1;
                    }
                },
            }
        }
    }
}

} // verus!

verus! {

/// Step `j` of `s` ends a search for an item on which `f` gives something.
pub open spec fn some_hit<A, B, F: FnMut(A) -> Option<B>>(s: spec_fn(nat) -> Option<A>, f: F) -> spec_fn(nat) -> bool {
    |j: nat|
        match s(j) {
            Some(a) => apply(f, a) is Some,
            None => true,
        }
}

/// From every step on, a search for an item on which `f` gives something ends.
pub open spec fn some_ends<A, B, F: FnMut(A) -> Option<B>>(s: spec_fn(nat) -> Option<A>, f: F) -> bool {
    forall|d: nat| #[trigger] ends(some_hit(shift(s, d), f))
}

/// The stream of what `f` gives on the items of `s`, leaving out each `None`
/// that `f` gives; each `None` of `s` is passed on.
pub open spec fn filter_map_out<A, B, F: FnMut(A) -> Option<B>>(s: spec_fn(nat) -> Option<A>, f: F, i: nat) -> Option<B>
    decreases i,
{
    let k = first_of(some_hit(s, f));
    if i == 0 {
        match s(k) {
            Some(a) => apply(f, a),
            None => None,
        }
    } else {
        filter_map_out(shift(s, k + 1), f, (i - 1) as nat)
    }
}

/// Produces what a function gives on the items, leaving out its `None`s.
pub struct FilterMap<C, F> {
    pub inner: C,
    pub f: F,
}

impl<B, C: Cursor, F: FnMut(C::Item) -> Option<B>> Cursor for FilterMap<C, F> {
    type Item = B;

    open spec fn wf(&self) -> bool {
        &&& self.inner.wf()
        &&& functional(self.f)
        &&& some_ends(stream_of(self.inner), self.f)
    }

    open spec fn out(&self, i: nat) -> Option<B> {
        filter_map_out(stream_of(self.inner), self.f, i)
    }

    /// One call takes the items up to and including the one whose result it
    /// returns, or up to the `None` it passes on.
    open spec fn steps_to(&self, after: &Self) -> bool {
        let s = stream_of(self.inner);
        &&& after.f == self.f
        &&& stream_of(after.inner) == shift(s, first_of(some_hit(s, self.f)) + 1)
    }

    fn next(&mut self) -> (r: Option<B>) {
        let ghost s0 = stream_of(self.inner);
        let ghost h0 = some_hit(s0, self.f);
        let ghost k0 = first_of(h0);
        proof {
            assert(shift(s0, 0) =~= s0);
            assert(ends(some_hit(shift(s0, 0), self.f)));
            lemma_first_of(h0);
        }
        let ghost mut t: nat = 0;
        loop
            invariant
                self.inner.wf(),
                functional(self.f),
                self.f == old(self).f,
                s0 == stream_of(old(self).inner),
                h0 == some_hit(s0, self.f),
                some_ends(s0, self.f),
                k0 == first_of(h0),
                h0(k0),
                forall|j: nat| j < k0 ==> !(#[trigger] h0(j)),
                t <= k0,
                forall|j: nat| #[trigger] self.inner.out(j) == s0(j + t),
            decreases k0 - t,
        {
            let ghost prev = self.inner;
            let x = self.inner.next();
            proof {
                assert(x == s0(t)) by {
                    assert(prev.out(0) == s0(0 + t));
                }
                assert forall|j: nat| #[trigger] self.inner.out(j) == s0(j + t + 1) by {
                    assert(prev.out(j + 1) == s0(j + 1 + t));
                }
                assert(stream_of(self.inner) =~= shift(s0, t + 1));
                assert forall|d: nat| #[trigger] ends(some_hit(shift(stream_of(self.inner), d), self.f)) by {
                    assert(shift(stream_of(self.inner), d) =~= shift(s0, t + 1 + d));
                    assert(ends(some_hit(shift(s0, t + 1 + d), self.f)));
                }
            }
            match x {
                None => {
                    proof {
                        assert(h0(t));
                        assert(t == k0);
                    }
                    return None;
                },
                Some(a) => {
                    let b = call(&mut self.f, a);
                    if b.is_some() {
                        proof {
                            assert(h0(t));
                            assert(t == k0);
                        }
                        return b;
                    }
                    proof {
                        assert(!h0(t));
                        t = t + 1;
                    }
                },
            }
        }
    }
}

/// Step `j` of `s` ends a search for an item that `p` rejects.
pub open spec fn reject_hit<T, P: FnMut(&T) -> bool>(s: spec_fn(nat) -> Option<T>, p: P) -> spec_fn(nat) -> bool {
    |j: nat|
        match s(j) {
            Some(a) => !holds(p, a),
            None => true,
        }
}

/// From every step on, a search for an item that `p` rejects ends.
pub open spec fn reject_ends<T, P: FnMut(&T) -> bool>(s: spec_fn(nat) -> Option<T>, p: P) -> bool {
    forall|d: nat| #[trigger] ends(reject_hit(shift(s, d), p))
}

/// The stream of `s` from its first item that `p` rejects on; each `None`
/// met before that item is passed on, and the search goes on after it.
pub open spec fn skip_while_out<T, P: FnMut(&T) -> bool>(s: spec_fn(nat) -> Option<T>, p: P, i: nat) -> Option<T>
    decreases i,
{
    let k = first_of(reject_hit(s, p));
    if s(k) is None {
        if i == 0 {
            None
        } else {
            skip_while_out(shift(s, k + 1), p, (i - 1) as nat)
        }
    } else {
        s(k + i)
    }
}

/// Drops the leading items that a predicate accepts, then produces the rest.
pub struct SkipWhile<C, P> {
    pub inner: C,
    pub pred: P,
    pub done: bool,
}

impl<C: Cursor, P: FnMut(&C::Item) -> bool> Cursor for SkipWhile<C, P> {
    type Item = C::Item;

    open spec fn wf(&self) -> bool {
        &&& self.inner.wf()
        &&& decides(self.pred)
        &&& (self.done || reject_ends(stream_of(self.inner), self.pred))
    }

    open spec fn out(&self, i: nat) -> Option<C::Item> {
        if self.done {
            self.inner.out(i)
        } else {
            skip_while_out(stream_of(self.inner), self.pred, i)
        }
    }

    /// Before the first rejected item, one call takes the items up to and
    /// including that item or the `None` it passes on; after it, one step.
    open spec fn steps_to(&self, after: &Self) -> bool {
        let s = stream_of(self.inner);
        &&& after.pred == self.pred
        &&& if self.done {
            after.done && stream_of(after.inner) == shift(s, 1)
        } else {
            let k = first_of(reject_hit(s, self.pred));
            &&& after.done == s(k) is Some
            &&& stream_of(after.inner) == shift(s, k + 1)
        }
    }

    fn next(&mut self) -> (r: Option<C::Item>) {
        if self.done {
            let ghost c0 = self.inner;
            let r = self.inner.next();
            proof {
                assert(stream_of(self.inner) =~= shift(stream_of(c0), 1));
            }
            return r;
        }
        let ghost s0 = stream_of(self.inner);
        let ghost h0 = reject_hit(s0, self.pred);
        let ghost k0 = first_of(h0);
        proof {
            assert(shift(s0, 0) =~= s0);
            assert(ends(reject_hit(shift(s0, 0), self.pred)));
            lemma_first_of(h0);
        }
        let ghost mut t: nat = 0;
        loop
            invariant
                !self.done,
                !old(self).done,
                self.inner.wf(),
                decides(self.pred),
                self.pred == old(self).pred,
                s0 == stream_of(old(self).inner),
                h0 == reject_hit(s0, self.pred),
                reject_ends(s0, self.pred),
                k0 == first_of(h0),
                h0(k0),
                forall|j: nat| j < k0 ==> !(#[trigger] h0(j)),
                t <= k0,
                forall|j: nat| #[trigger] self.inner.out(j) == s0(j + t),
            decreases k0 - t,
        {
            let ghost prev = self.inner;
            let x = self.inner.next();
            proof {
                assert(x == s0(t)) by {
                    assert(prev.out(0) == s0(0 + t));
                }
                assert forall|j: nat| #[trigger] self.inner.out(j) == s0(j + t + 1) by {
                    assert(prev.out(j + 1) == s0(j + 1 + t));
                }
                assert(stream_of(self.inner) =~= shift(s0, t + 1));
                assert forall|d: nat| #[trigger] ends(reject_hit(shift(stream_of(self.inner), d), self.pred)) by {
                    assert(shift(stream_of(self.inner), d) =~= shift(s0, t + 1 + d));
                    assert(ends(reject_hit(shift(s0, t + 1 + d), self.pred)));
                }
            }
            match x {
                None => {
                    proof {
                        assert(h0(t));
                        assert(t == k0);
                        assert(skip_while_out(s0, self.pred, 0) is None);
                        assert forall|i: nat| #[trigger] skip_while_out(stream_of(self.inner), self.pred, i) == skip_while_out(s0, self.pred, i + 1) by {
                            assert(stream_of(self.inner) == shift(s0, k0 + 1));
                        }
                    }
                    return None;
                },
                Some(a) => {
                    if !ask(&mut self.pred, &a) {
                        self.done = true;
                        proof {
                            assert(h0(t));
                            assert(t == k0);
                            assert forall|i: nat| #[trigger] self.inner.out(i) == skip_while_out(s0, self.pred, i + 1) by {
                                assert(self.inner.out(i) == s0(i + t + 1));
                            }
                        }
                        return Some(a);
                    }
                    proof {
                        assert(!h0(t));
                        t = t + 1;
                    }
                },
            }
        }
    }
}

} // verus!
