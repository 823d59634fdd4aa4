use crate::cursor::Cursor;
use crate::repeat::{nth, nth_steps};
use crate::stream::{
    count_some, first_none, lemma_count_some_shift, lemma_first_none, lemma_first_none_at,
    lemma_first_none_shift, shift, shifted, stream_of,
};
use vstd::prelude::*;

verus! {

/// Skips the first `n` results, all on the first call.
pub struct Skip<C> {
    pub inner: C,
    pub n: usize,
}

/// The stream of `c` with its first `n` results dropped. A `None` among them
/// ends the first call early, and that call returns `None`.
pub open spec fn skip_stream<C: Cursor>(c: C, n: nat, i: nat) -> Option<C::Item> {
    let j = first_none(stream_of(c), n);
    if j < n {
        if i == 0 {
            None
        } else {
            c.out(j + i)
        }
    } else {
        c.out(n + i)
    }
}

impl<C: Cursor> Cursor for Skip<C> {
    type Item = C::Item;

    open spec fn wf(&self) -> bool {
        self.inner.wf()
    }

    open spec fn out(&self, i: nat) -> Option<C::Item> {
        skip_stream(self.inner, self.n as nat, i)
    }

    /// The first call takes what `nth(n)` takes; every later call takes one step.
    open spec fn steps_to(&self, after: &Self) -> bool {
        &&& after.n == 0
        &&& stream_of(after.inner) == shift(stream_of(self.inner), nth_steps(stream_of(self.inner), self.n as nat))
    }

    fn next(&mut self) -> (r: Option<C::Item>) {
        let ghost c0 = self.inner;
        let ghost s0 = stream_of(self.inner);
        let n = self.n;
        self.n = 0;
        let r = nth(&mut self.inner, n);
        proof {
            lemma_first_none_at(stream_of(self.inner), 0, 0);
            lemma_first_none(s0, n as nat);
            assert forall|i: nat| #[trigger] self.inner.out(i) == s0(i + nth_steps(s0, n as nat)) by {
                assert(stream_of(self.inner)(i) == shift(s0, nth_steps(s0, n as nat))(i));
            }
            assert forall|i: nat| #[trigger] skip_stream(self.inner, 0, i) == skip_stream(c0, n as nat, i + 1) by {
                assert(self.inner.out(i) == s0(i + nth_steps(s0, n as nat)));
            }
        }
        r
    }
}

/// Produces the results of `a` up to its first `None`, then those of `b`.
/// Once `a` has given `None` it is not asked again.
pub struct Chain<A, B> {
    pub a: A,
    pub b: B,
    pub a_done: bool,
}

/// The stream of `a` up to its first `None`, then the stream of `b`.
pub open spec fn chain_stream<A: Cursor, B: Cursor<Item = A::Item>>(
    a: A,
    b: B,
    a_done: bool,
    i: nat,
) -> Option<A::Item> {
    if a_done {
        b.out(i)
    } else {
        let k = first_none(stream_of(a), i + 1);
        if k > i {
            a.out(i)
        } else {
            b.out((i - k) as nat)
        }
    }
}

impl<A: Cursor, B: Cursor<Item = A::Item>> Cursor for Chain<A, B> {
    type Item = A::Item;

    open spec fn wf(&self) -> bool {
        self.a.wf() && self.b.wf()
    }

    open spec fn out(&self, i: nat) -> Option<A::Item> {
        chain_stream(self.a, self.b, self.a_done, i)
    }

    /// `b` is left untouched while `a` gives items; the call on which `a`
    /// gives `None` asks `b` at once.
    open spec fn steps_to(&self, after: &Self) -> bool {
        if self.a_done {
            &&& after.a_done
            &&& after.a == self.a
            &&& stream_of(after.b) == shift(stream_of(self.b), 1)
        } else if self.a.out(0) is Some {
            &&& !after.a_done
            &&& stream_of(after.a) == shift(stream_of(self.a), 1)
            &&& after.b == self.b
        } else {
            &&& after.a_done
            &&& stream_of(after.a) == shift(stream_of(self.a), 1)
            &&& stream_of(after.b) == shift(stream_of(self.b), 1)
        }
    }

    fn next(&mut self) -> (r: Option<A::Item>) {
        if !self.a_done {
            let ghost a0 = self.a;
            let x = self.a.next();
            proof {
                assert(shifted(stream_of(a0), stream_of(self.a)));
                assert(stream_of(self.a) =~= shift(stream_of(a0), 1));
                lemma_first_none_shift(stream_of(a0), stream_of(self.a), 0);
            }
            if x.is_some() {
                proof {
                    assert forall|i: nat| #[trigger] chain_stream(self.a, self.b, false, i) == chain_stream(a0, self.b, false, i + 1) by {
                        lemma_first_none_shift(stream_of(a0), stream_of(self.a), i + 1);
                        assert(self.a.out(i) == a0.out(i + 1));
                    }
                }
                return x;
            }
            proof {
                assert forall|i: nat| #[trigger] chain_stream(a0, self.b, false, i) == self.b.out(i) by {
                    lemma_first_none_shift(stream_of(a0), stream_of(self.a), i);
                }
            }
            self.a_done = true;
        }
        let ghost b0 = self.b;
        let y = self.b.next();
        proof {
            assert(stream_of(self.b) =~= shift(stream_of(b0), 1));
        }
        y
    }
}

/// Pairs the items of `a` and `b` position by position; `b` is only asked
/// for an item when `a` has produced one.
pub struct Zip<A, B> {
    pub a: A,
    pub b: B,
}

pub open spec fn zip_stream<A: Cursor, B: Cursor>(a: A, b: B, i: nat) -> Option<(A::Item, B::Item)> {
    match a.out(i) {
        Some(x) => match b.out(count_some(stream_of(a), i)) {
            Some(y) => Some((x, y)),
            None => None,
        },
        None => None,
    }
}

impl<A: Cursor, B: Cursor> Cursor for Zip<A, B> {
    type Item = (A::Item, B::Item);

    open spec fn wf(&self) -> bool {
        self.a.wf() && self.b.wf()
    }

    open spec fn out(&self, i: nat) -> Option<(A::Item, B::Item)> {
        zip_stream(self.a, self.b, i)
    }

    /// `b` is asked only when `a` has given an item.
    open spec fn steps_to(&self, after: &Self) -> bool {
        &&& stream_of(after.a) == shift(stream_of(self.a), 1)
        &&& if self.a.out(0) is Some {
            stream_of(after.b) == shift(stream_of(self.b), 1)
        } else {
            after.b == self.b
        }
    }

    fn next(&mut self) -> (r: Option<(A::Item, B::Item)>) {
        let ghost a0 = self.a;
        let ghost b0 = self.b;
        let x = self.a.next();
        proof {
            assert(shifted(stream_of(a0), stream_of(self.a)));
            assert(count_some(stream_of(a0), 0) == 0);
            assert(stream_of(self.a) =~= shift(stream_of(a0), 1));
        }
        match x {
            None => {
                proof {
                    assert forall|i: nat| #[trigger] zip_stream(self.a, self.b, i) == zip_stream(a0, b0, i + 1) by {
                        lemma_count_some_shift(stream_of(a0), stream_of(self.a), i);
                        assert(self.a.out(i) == a0.out(i + 1));
                    }
                }
                None
            },
            Some(x) => {
                let y = self.b.next();
                proof {
                    assert(stream_of(self.b) =~= shift(stream_of(b0), 1));
                    assert forall|i: nat| #[trigger] zip_stream(self.a, self.b, i) == zip_stream(a0, b0, i + 1) by {
                        lemma_count_some_shift(stream_of(a0), stream_of(self.a), i);
                        assert(self.a.out(i) == a0.out(i + 1));
                        assert(self.b.out(count_some(stream_of(self.a), i)) == b0.out(count_some(stream_of(self.a), i) + 1));
                    }
                }
                match y {
                    Some(y) => Some((x, y)),
                    None => None,
                }
            },
        }
    }
}

} // verus!
