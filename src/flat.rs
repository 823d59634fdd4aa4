use crate::cursor::{Cursor, IntoCursor};
use crate::stream::{ends, first_of, lemma_first_of, shift, stream_of};
use vstd::prelude::*;

verus! {

/// The stream of the cursor that `u` converts into.
pub open spec fn item_stream<U: IntoCursor>(u: U) -> spec_fn(nat) -> Option<U::Item> {
    |n: nat| u.stream(n)
}

/// An optional cursor, where there is one, is well formed.
pub open spec fn opt_wf<C: Cursor>(c: Option<C>) -> bool {
    match c {
        Some(c) => c.wf(),
        None => true,
    }
}

/// The stream of an optional cursor, if there is one.
pub open spec fn opt_stream_fn<C: Cursor>(c: Option<C>) -> Option<spec_fn(nat) -> Option<C::Item>> {
    match c {
        Some(c) => Some(stream_of(c)),
        None => None,
    }
}

/// Step `j` of `o` ends a search for a source that yields an item at once.
pub open spec fn productive_hit<U: IntoCursor>(o: spec_fn(nat) -> Option<U>) -> spec_fn(nat) -> bool {
    |j: nat|
        match o(j) {
            Some(u) => u.stream(0) is Some,
            None => true,
        }
}

/// From every step on, a search for a source that yields an item at once ends.
pub open spec fn flat_ends<U: IntoCursor>(o: spec_fn(nat) -> Option<U>) -> bool {
    forall|d: nat| #[trigger] ends(productive_hit(shift(o, d)))
}

/// Every source that `o` produces converts.
pub open spec fn all_convertible<U: IntoCursor>(o: spec_fn(nat) -> Option<U>) -> bool {
    forall|j: nat|
        match #[trigger] o(j) {
            Some(u) => u.convertible(),
            None => true,
        }
}

/// The stream of the items of the sources that `o` produces, one source
/// after another, after the rest of the source in use with stream `front`.
/// A source is left at its first `None`; the first `None` of `o` ends it all.
pub open spec fn flat_out<U: IntoCursor>(
    o: Option<spec_fn(nat) -> Option<U>>,
    front: Option<spec_fn(nat) -> Option<U::Item>>,
    i: nat,
) -> Option<U::Item>
    decreases i,
{
    if front is Some && (front->0)(0) is Some {
        if i == 0 {
            (front->0)(0)
        } else {
            flat_out(o, Some(shift(front->0, 1)), (i - 1) as nat)
        }
    } else {
        match o {
            None => None,
            Some(o) => {
                let k = first_of(productive_hit(o));
                match o(k) {
                    None => None,
                    Some(u) => if i == 0 {
                        u.stream(0)
                    } else {
                        flat_out(Some(shift(o, k + 1)), Some(shift(item_stream(u), 1)), (i - 1) as nat)
                    },
                }
            },
        }
    }
}

/// Produces the items of each source that a cursor produces, in turn.
pub struct Flatten<C: Cursor> where C::Item: IntoCursor {
    pub outer: Option<C>,
    pub front: Option<<C::Item as IntoCursor>::IntoCursor>,
}

impl<C: Cursor> Cursor for Flatten<C> where C::Item: IntoCursor {
    type Item = <C::Item as IntoCursor>::Item;

    open spec fn wf(&self) -> bool {
        &&& opt_wf(self.front)
        &&& match self.outer {
            Some(c) => c.wf() && flat_ends(stream_of(c)) && all_convertible(stream_of(c)),
            None => true,
        }
    }

    open spec fn out(&self, i: nat) -> Option<Self::Item> {
        flat_out(opt_stream_fn(self.outer), opt_stream_fn(self.front), i)
    }

    /// Once the outer cursor has given `None`, it is not asked again.
    open spec fn steps_to(&self, after: &Self) -> bool {
        self.outer is None ==> after.outer is None
    }

    fn next(&mut self) -> (r: Option<Self::Item>) {
        let ghost o_opt = opt_stream_fn(self.outer);
        match &mut self.front {
            Some(f) => {
                let ghost f0 = stream_of(*f);
                let x = f.next();
                if x.is_some() {
                    proof {
                        assert(stream_of(*f) =~= shift(f0, 1));
                    }
                    return x;
                }
                proof {
                    assert forall|i: nat| #[trigger] flat_out(o_opt, Some(f0), i) == flat_out(o_opt, None, i) by {
                    }
                }
            },
            None => {},
        }
        self.front = None;
        proof {
            assert forall|i: nat| #[trigger] flat_out(o_opt, opt_stream_fn(old(self).front), i) == flat_out(o_opt, None, i) by {
            }
        }
        let cur = self.outer.take();
        match cur {
            None => None,
            Some(mut oc) => {
                let ghost o0 = stream_of(oc);
                let ghost h0 = productive_hit(o0);
                let ghost k0 = first_of(h0);
                proof {
                    assert(shift(o0, 0) =~= o0);
                    assert(ends(productive_hit(shift(o0, 0))));
                    lemma_first_of(h0);
                }
                let ghost mut t: nat = 0;
                loop
                    invariant
                        self.outer is None,
                        self.front is None,
                        o_opt == Some(o0),
                        o_opt == opt_stream_fn(old(self).outer),
                        forall|i: nat| #[trigger] flat_out(o_opt, opt_stream_fn(old(self).front), i) == flat_out(o_opt, None, i),
                        oc.wf(),
                        flat_ends(o0),
                        all_convertible(o0),
                        h0 == productive_hit(o0),
                        k0 == first_of(h0),
                        h0(k0),
                        forall|j: nat| j < k0 ==> !(#[trigger] h0(j)),
                        t <= k0,
                        forall|j: nat| #[trigger] oc.out(j) == o0(j + t),
                    decreases k0 - t,
                {
                    let ghost prev = oc;
                    let x = oc.next();
                    proof {
                        assert(x == o0(t)) by {
                            assert(prev.out(0) == o0(0 + t));
                        }
                        assert forall|j: nat| #[trigger] oc.out(j) == o0(j + t + 1) by {
                            assert(prev.out(j + 1) == o0(j + 1 + t));
                        }
                    }
                    match x {
                        None => {
                            proof {
                                assert(h0(t));
                                assert(t == k0);
                                assert(flat_out(o_opt, None, 0) is None);
                                assert forall|i: nat| #[trigger] flat_out(o_opt, None, i + 1) is None by {
                                }
                                assert forall|i: nat| #[trigger] flat_out(opt_stream_fn(self.outer), opt_stream_fn(self.front), i) is None by {
                                }
                                assert(flat_out(o_opt, opt_stream_fn(old(self).front), 0) is None);
                                assert forall|i: nat| #[trigger] flat_out(o_opt, opt_stream_fn(old(self).front), i + 1) is None by {
                                    assert(flat_out(o_opt, None, i + 1) is None);
                                }
                            }
                            return None;
                        },
                        Some(u) => {
                            proof {
                                assert(u.convertible());
                            }
                            let ghost g = item_stream(u);
                            let mut c = u.into_cursor();
                            proof {
                                assert(stream_of(c) =~= g);
                            }
                            let y = c.next();
                            if y.is_some() {
                                proof {
                                    assert(h0(t));
                                    assert(t == k0);
                                    assert(stream_of(c) =~= shift(g, 1));
                                    assert(stream_of(oc) =~= shift(o0, k0 + 1));
                                    assert forall|d: nat| #[trigger] ends(productive_hit(shift(stream_of(oc), d))) by {
                                        assert(shift(stream_of(oc), d) =~= shift(o0, k0 + 1 + d));
                                        assert(ends(productive_hit(shift(o0, k0 + 1 + d))));
                                    }
                                    assert forall|j: nat| #[trigger] stream_of(oc)(j) == o0(j + k0 + 1) by {
                                    }
                                }
                                self.front = Some(c);
                                self.outer = Some(oc);
                                return y;
                            }
                            proof {
                                assert(!h0(t));
                                t = t + 1;
                            }
                        },
                    }
                }
            },
        }
    }
}

} // verus!
