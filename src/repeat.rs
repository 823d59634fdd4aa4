use crate::cursor::{Cursor, DupCursor};
use crate::stream::{first_none, lemma_first_none_at, shift, stream_of};
use vstd::prelude::*;

verus! {

/// What `nth(m)` returns on a cursor with stream `s`: `None` if a `None` comes
/// among the first `m` results, else the result after them.
pub open spec fn nth_result<T>(s: spec_fn(nat) -> Option<T>, m: nat) -> Option<T> {
    if first_none(s, m) < m {
        None
    } else {
        s(m)
    }
}

/// How many steps `nth(m)` takes on a cursor with stream `s`.
pub open spec fn nth_steps<T>(s: spec_fn(nat) -> Option<T>, m: nat) -> nat {
    if first_none(s, m) < m {
        first_none(s, m) + 1
    } else {
        m + 1
    }
}

/// Drops `m` results, stopping early at a `None`, and returns the one after them.
pub fn nth<C: Cursor>(c: &mut C, m: usize) -> (r: Option<C::Item>)
    requires
        (*old(c)).wf(),
    ensures
        (*final(c)).wf(),
        r == nth_result(stream_of(*old(c)), m as nat),
        stream_of(*final(c)) == shift(stream_of(*old(c)), nth_steps(stream_of(*old(c)), m as nat)),
{
    let ghost s0 = stream_of(*c);
    let mut t: usize = 0;
    while t < m
        invariant
            t <= m,
            s0 == stream_of(*old(c)),
            (*c).wf(),
            forall|k: nat| #[trigger] (*c).out(k) == s0((k + t) as nat),
            forall|j: nat| j < t ==> (#[trigger] s0(j)) is Some,
        decreases m - t,
    {
        let ghost prev = *c;
        let x = c.next();
        proof {
            assert(x == s0(t as nat)) by {
                assert(prev.out(0) == s0((0 + t) as nat));
            }
            assert forall|k: nat| #[trigger] (*c).out(k) == s0((k + t + 1) as nat) by {
                assert(prev.out(k + 1) == s0((k + 1 + t) as nat));
            }
        }
        if x.is_none() {
            proof {
                lemma_first_none_at(s0, m as nat, t as nat);
                assert(stream_of(*c) =~= shift(s0, nth_steps(s0, m as nat)));
            }
            return None;
        }
        t = t + 1;
    }
    let ghost prev = *c;
    let r = c.next();
    proof {
        lemma_first_none_at(s0, m as nat, m as nat);
        assert(r == s0(m as nat)) by {
            assert(prev.out(0) == s0((0 + m) as nat));
        }
        assert forall|k: nat| #[trigger] (*c).out(k) == s0((k + m + 1) as nat) by {
            assert(prev.out(k + 1) == s0((k + 1 + m) as nat));
        }
        assert(stream_of(*c) =~= shift(s0, nth_steps(s0, m as nat)));
    }
    r
}

/// The stream of a `StepBy` whose source has stream `s`: the first call skips
/// nothing when `first` holds, every other call skips `gap` results.
pub open spec fn step_out<T>(s: spec_fn(nat) -> Option<T>, gap: nat, first: bool, i: nat) -> Option<T>
    decreases i,
{
    let m = if first {
        0
    } else {
        gap
    };
    if i == 0 {
        nth_result(s, m)
    } else {
        step_out(shift(s, nth_steps(s, m)), gap, false, (i - 1) as nat)
    }
}

/// Produces the first item, then every `gap + 1`-th one after it.
pub struct StepBy<C> {
    pub inner: C,
    pub gap: usize,
    pub first_take: bool,
}

impl<C: Cursor> Cursor for StepBy<C> {
    type Item = C::Item;

    open spec fn wf(&self) -> bool {
        self.inner.wf()
    }

    open spec fn out(&self, i: nat) -> Option<C::Item> {
        step_out(stream_of(self.inner), self.gap as nat, self.first_take, i)
    }

    /// One call takes what `nth` takes: nothing skipped on the first call,
    /// `gap` results skipped on every later one.
    open spec fn steps_to(&self, after: &Self) -> bool {
        let s = stream_of(self.inner);
        &&& !after.first_take
        &&& after.gap == self.gap
        &&& stream_of(after.inner) == shift(s, nth_steps(s, if self.first_take { 0 } else { self.gap as nat }))
    }

    fn next(&mut self) -> (r: Option<C::Item>) {
        let m = if self.first_take {
            0
        } else {
            self.gap
        };
        self.first_take = false;
        nth(&mut self.inner, m)
    }
}

/// The stream of a `Cycle` whose copy in use has stream `s` and whose
/// kept cursor has stream `o`: when the copy gives `None`, a fresh copy of the
/// kept cursor takes its place and is asked at once.
pub open spec fn cycle_out<T>(o: spec_fn(nat) -> Option<T>, s: spec_fn(nat) -> Option<T>, i: nat) -> Option<T>
    decreases i,
{
    if s(0) is Some {
        if i == 0 {
            s(0)
        } else {
            cycle_out(o, shift(s, 1), (i - 1) as nat)
        }
    } else {
        if i == 0 {
            o(0)
        } else {
            cycle_out(o, shift(o, 1), (i - 1) as nat)
        }
    }
}

/// Repeats a cursor for ever, starting over from a copy of a kept cursor
/// each time the copy in use gives `None`.
pub struct Cycle<C> {
    pub kept: C,
    pub cur: C,
}

impl<C: DupCursor> Cursor for Cycle<C> {
    type Item = C::Item;

    open spec fn wf(&self) -> bool {
        self.kept.wf() && self.cur.wf()
    }

    open spec fn out(&self, i: nat) -> Option<C::Item> {
        cycle_out(stream_of(self.kept), stream_of(self.cur), i)
    }

    open spec fn steps_to(&self, after: &Self) -> bool {
        after.kept == self.kept
    }

    fn next(&mut self) -> (r: Option<C::Item>) {
        let ghost s0 = stream_of(self.cur);
        let x = self.cur.next();
        proof {
            assert(stream_of(self.cur) =~= shift(s0, 1));
        }
        match x {
            None => {
                self.cur = self.kept.dup();
                let ghost o = stream_of(self.cur);
                let y = self.cur.next();
                proof {
                    assert(o =~= stream_of(self.kept));
                    assert(stream_of(self.cur) =~= shift(stream_of(self.kept), 1));
                }
                y
            },
            y => y,
        }
    }
}

} // verus!
