//! Cursor adapters that take anything convertible into a cursor: an owned
//! container, a cursor, or a mutable borrow of a cursor.
//!
//! Every cursor is modelled by the stream of results that its successive
//! calls of `next` return (`out(i)` is what the call `i` steps from now
//! returns). A cursor need not be fused: `None` may be followed by more items.
//!
//! Each function below converts its source and wraps the cursor in one
//! adapter. Its contract gives the stream of the result in terms of the
//! source's stream alone, so an adapter over a converted value and the same
//! adapter over the value's cursor produce the same results. Each
//! constructor also gives the starting streams of the cursors the adapter
//! draws on, and each adapter's `steps_to` states how far one call of `next`
//! advances them; a source passed as `&mut c` is such a cursor, so `c` is
//! left exactly where those steps put it.
mod adapt;
mod combine;
mod cursor;
mod flat;
mod func;
mod guard;
mod repeat;
mod search;
mod source;
mod stream;

pub use adapt::{
    clone_deterministic, clone_of, CloneRef, Cloned, Copied, Enumerate, Fuse, Inspect, MapEach, ReadRef, Rev, Take,
};
pub use combine::{chain_stream, skip_stream, zip_stream, Chain, Skip, Zip};
pub use cursor::{seq_stream, BackCursor, Cursor, DupCursor, IntoCursor};
pub use flat::{all_convertible, flat_ends, flat_out, item_stream, productive_hit, Flatten};
pub use func::{apply, decides, functional, holds};
pub use guard::{
    map_while_stream, rejected_at, take_while_stream, unmapped_at, MapWhile, Peekable, TakeWhile,
};
pub use repeat::{cycle_out, nth_result, nth_steps, step_out, Cycle, StepBy};
pub use search::{
    accept_ends, accept_hit, filter_map_out, filter_out, reject_ends, reject_hit, skip_while_out,
    some_ends, some_hit, Filter, FilterMap, SkipWhile,
};
pub use source::{Outcomes, VecCursor};
pub use stream::{count_some, ends, first_hit, first_none, first_of, shift, stream_of};

use vstd::prelude::*;

verus! {

/// The stream of a source, as a spec function.
pub open spec fn source_stream<I: IntoCursor>(iter: I) -> spec_fn(nat) -> Option<I::Item> {
    |i: nat| iter.stream(i)
}

/// Converting a source before handing it to any function here changes
/// nothing: the cursor it converts into is itself a source with the same
/// stream, and every function states its result over its source's stream.
pub proof fn lemma_convert_first<I: IntoCursor>(iter: I, c: I::IntoCursor)
    requires
        c.wf(),
        forall|i: nat| #[trigger] c.out(i) == iter.stream(i),
    ensures
        c.convertible(),
        source_stream(c) == source_stream(iter),
{
    assert(source_stream(c) =~= source_stream(iter));
}

/// A mutable borrow of a cursor is a cursor with the very stream and
/// invariant of the cursor it borrows. By the contract of `next`, each step
/// taken through the borrow thus advances the borrowed cursor by one step.
pub proof fn lemma_borrow_shares_stream<'a, C: Cursor>(c: &'a mut C, d: C)
    requires
        *c == d,
    ensures
        c.wf() == d.wf(),
        forall|i: nat| #[trigger] c.out(i) == d.out(i),
        source_stream(c) == stream_of(d),
{
    assert(source_stream(c) =~= stream_of(d));
}

proof fn lemma_stream_of_source<I: IntoCursor>(iter: I, c: I::IntoCursor)
    requires
        forall|i: nat| #[trigger] c.out(i) == iter.stream(i),
    ensures
        stream_of(c) == source_stream(iter),
{
    assert(stream_of(c) =~= source_stream(iter));
}

/// Applies `f` to each item of `iter`.
pub fn map<I: IntoCursor, B, F: FnMut(I::Item) -> B>(iter: I, f: F) -> (r: MapEach<I::IntoCursor, F>)
    requires
        iter.convertible(),
        functional(f),
    ensures
        r.wf(),
        iter.is_cursor() ==> r.inner == iter.as_cursor(),
        stream_of(r.inner) == source_stream(iter),
        forall|i: nat|
            #[trigger] r.out(i) == match iter.stream(i) {
                Some(a) => Some(apply(f, a)),
                None => None,
            },
{
    MapEach { inner: iter.into_cursor(), f }
}

/// Calls `f` on a reference to each item of `iter` as it passes, changing nothing.
pub fn inspect<I: IntoCursor, F: FnMut(&I::Item)>(iter: I, f: F) -> (r: Inspect<I::IntoCursor, F>)
    requires
        iter.convertible(),
        forall|a: &I::Item| #[trigger] f.requires((a,)),
    ensures
        r.wf(),
        iter.is_cursor() ==> r.inner == iter.as_cursor(),
        stream_of(r.inner) == source_stream(iter),
        forall|i: nat| #[trigger] r.out(i) == iter.stream(i),
{
    Inspect { inner: iter.into_cursor(), f }
}

/// Copies each referenced item of `iter`.
pub fn copied<I: IntoCursor>(iter: I) -> (r: Copied<I::IntoCursor>) where I::Item: ReadRef
    requires
        iter.convertible(),
    ensures
        r.wf(),
        iter.is_cursor() ==> r.inner == iter.as_cursor(),
        stream_of(r.inner) == source_stream(iter),
        forall|i: nat|
            #[trigger] r.out(i) == match iter.stream(i) {
                Some(a) => Some(a.target()),
                None => None,
            },
{
    Copied { inner: iter.into_cursor() }
}

/// Clones each referenced item of `iter`; the type's `clone` must give one
/// possible result for each value.
pub fn cloned<I: IntoCursor>(iter: I) -> (r: Cloned<I::IntoCursor>) where I::Item: CloneRef
    requires
        iter.convertible(),
        clone_deterministic::<<I::Item as CloneRef>::Target>(),
    ensures
        r.wf(),
        iter.is_cursor() ==> r.inner == iter.as_cursor(),
        stream_of(r.inner) == source_stream(iter),
        forall|i: nat|
            #[trigger] r.out(i) == match iter.stream(i) {
                Some(a) => Some(clone_of(a.target())),
                None => None,
            },
{
    Cloned { inner: iter.into_cursor() }
}

/// Produces the results of `iter` up to its first `None`, then `None` for good.
pub fn fuse<I: IntoCursor>(iter: I) -> (r: Fuse<I::IntoCursor>)
    requires
        iter.convertible(),
    ensures
        r.wf(),
        iter.is_cursor() ==> r.inner == iter.as_cursor(),
        stream_of(r.inner) == source_stream(iter),
        !r.done,
        forall|i: nat|
            #[trigger] r.out(i) == if first_none(source_stream(iter), i + 1) > i {
                iter.stream(i)
            } else {
                None
            },
{
    let c = iter.into_cursor();
    proof {
        lemma_stream_of_source(iter, c);
    }
    Fuse { inner: c, done: false }
}

/// Produces at most the first `n` results of `iter`.
pub fn take<I: IntoCursor>(iter: I, n: usize) -> (r: Take<I::IntoCursor>)
    requires
        iter.convertible(),
    ensures
        r.wf(),
        iter.is_cursor() ==> r.inner == iter.as_cursor(),
        stream_of(r.inner) == source_stream(iter),
        r.n == n,
        forall|i: nat|
            #[trigger] r.out(i) == if i < n {
                iter.stream(i)
            } else {
                None
            },
{
    Take { inner: iter.into_cursor(), n }
}

/// Pairs each item of `iter` with the number of items before it.
pub fn enumerate<I: IntoCursor>(iter: I) -> (r: Enumerate<I::IntoCursor>)
    requires
        iter.convertible(),
        forall|i: nat| #[trigger] iter.stream(i) is Some ==> count_some(source_stream(iter), i) < usize::MAX,
    ensures
        r.wf(),
        iter.is_cursor() ==> r.inner == iter.as_cursor(),
        stream_of(r.inner) == source_stream(iter),
        r.count == 0,
        forall|i: nat|
            #[trigger] r.out(i) == match iter.stream(i) {
                Some(a) => Some((count_some(source_stream(iter), i) as usize, a)),
                None => None,
            },
{
    let c = iter.into_cursor();
    proof {
        lemma_stream_of_source(iter, c);
    }
    Enumerate { inner: c, count: 0 }
}

/// Produces the items of a finite, double-ended `iter` from the back.
pub fn rev<I: IntoCursor>(iter: I) -> (r: Rev<I::IntoCursor>) where I::IntoCursor: BackCursor
    requires
        iter.convertible(),
    ensures
        r.wf(),
        iter.is_cursor() ==> r.inner == iter.as_cursor(),
        forall|i: nat| #[trigger] iter.stream(i) == seq_stream(r.items().reverse(), i),
        forall|i: nat| #[trigger] r.out(i) == seq_stream(r.items(), i),
{
    let c = iter.into_cursor();
    let r = Rev { inner: c };
    proof {
        c.lemma_items();
        assert(r.items().reverse() =~= c.items());
        assert forall|i: nat| #[trigger] iter.stream(i) == seq_stream(r.items().reverse(), i) by {
            assert(c.out(i) == iter.stream(i));
        }
    }
    r
}

/// Drops the first `n` results of `iter` on the first call; a `None` among
/// them ends that call early with `None`.
pub fn skip<I: IntoCursor>(iter: I, n: usize) -> (r: Skip<I::IntoCursor>)
    requires
        iter.convertible(),
    ensures
        r.wf(),
        iter.is_cursor() ==> r.inner == iter.as_cursor(),
        stream_of(r.inner) == source_stream(iter),
        r.n == n,
        forall|i: nat|
            #[trigger] r.out(i) == {
                let j = first_none(source_stream(iter), n as nat);
                if j < n {
                    if i == 0 {
                        None
                    } else {
                        iter.stream(j + i)
                    }
                } else {
                    iter.stream((n + i) as nat)
                }
            },
{
    let c = iter.into_cursor();
    proof {
        lemma_stream_of_source(iter, c);
    }
    Skip { inner: c, n }
}

/// Produces the results of `a` up to its first `None`, then those of `b`.
pub fn chain<A: IntoCursor, B: IntoCursor<Item = A::Item>>(a: A, b: B) -> (r: Chain<
    A::IntoCursor,
    B::IntoCursor,
>)
    requires
        a.convertible(),
        b.convertible(),
    ensures
        r.wf(),
        a.is_cursor() ==> r.a == a.as_cursor(),
        b.is_cursor() ==> r.b == b.as_cursor(),
        stream_of(r.a) == source_stream(a),
        stream_of(r.b) == source_stream(b),
        !r.a_done,
        forall|i: nat|
            #[trigger] r.out(i) == {
                let k = first_none(source_stream(a), i + 1);
                if k > i {
                    a.stream(i)
                } else {
                    b.stream((i - k) as nat)
                }
            },
{
    let ca = a.into_cursor();
    let cb = b.into_cursor();
    proof {
        lemma_stream_of_source(a, ca);
    }
    Chain { a: ca, b: cb, a_done: false }
}

/// Pairs the items of `a` and `b` position by position, stopping with the
/// shorter; `b` is only asked for an item when `a` has produced one.
pub fn zip<A: IntoCursor, B: IntoCursor>(a: A, b: B) -> (r: Zip<A::IntoCursor, B::IntoCursor>)
    requires
        a.convertible(),
        b.convertible(),
    ensures
        r.wf(),
        a.is_cursor() ==> r.a == a.as_cursor(),
        b.is_cursor() ==> r.b == b.as_cursor(),
        stream_of(r.a) == source_stream(a),
        stream_of(r.b) == source_stream(b),
        forall|i: nat|
            #[trigger] r.out(i) == match a.stream(i) {
                Some(x) => match b.stream(count_some(source_stream(a), i)) {
                    Some(y) => Some((x, y)),
                    None => None,
                },
                None => None,
            },
{
    let ca = a.into_cursor();
    let cb = b.into_cursor();
    proof {
        lemma_stream_of_source(a, ca);
    }
    Zip { a: ca, b: cb }
}

/// The source's item at step `i` is one that `p` rejects.
pub open spec fn source_rejects<I: IntoCursor, P: FnMut(&I::Item) -> bool>(iter: I, p: P) -> spec_fn(nat) -> bool {
    |i: nat|
        match iter.stream(i) {
            Some(a) => !holds(p, a),
            None => false,
        }
}

/// Produces the items of `iter` while `predicate` accepts them; the first
/// rejected item ends the result for good. A `None` from the source is passed
/// on without ending it.
pub fn take_while<I: IntoCursor, P: FnMut(&I::Item) -> bool>(iter: I, predicate: P) -> (r: TakeWhile<
    I::IntoCursor,
    P,
>)
    requires
        iter.convertible(),
        decides(predicate),
    ensures
        r.wf(),
        iter.is_cursor() ==> r.inner == iter.as_cursor(),
        stream_of(r.inner) == source_stream(iter),
        !r.done,
        forall|i: nat|
            #[trigger] r.out(i) == if first_hit(source_rejects(iter, predicate), i) < i {
                None
            } else {
                match iter.stream(i) {
                    Some(a) => if holds(predicate, a) {
                        Some(a)
                    } else {
                        None
                    },
                    None => None,
                }
            },
{
    let c = iter.into_cursor();
    let r = TakeWhile { inner: c, pred: predicate, done: false };
    proof {
        assert(rejected_at(c, predicate) =~= source_rejects(iter, predicate));
    }
    r
}

/// Produces what `predicate` gives for each item of `iter`, stopping for
/// good at the first `None` it gives; a `None` from the source is passed on
/// without ending the result.
pub fn map_while<I: IntoCursor, B, P: FnMut(I::Item) -> Option<B>>(iter: I, predicate: P) -> (r: MapWhile<
    I::IntoCursor,
    P,
>)
    requires
        iter.convertible(),
        functional(predicate),
    ensures
        r.wf(),
        iter.is_cursor() ==> r.inner == iter.as_cursor(),
        !r.done,
        stream_of(r.inner) == source_stream(iter),
        forall|i: nat|
            #[trigger] r.out(i) == if first_hit(source_unmapped(iter, predicate), i) < i {
                None
            } else {
                match iter.stream(i) {
                    Some(a) => apply(predicate, a),
                    None => None,
                }
            },
{
    let c = iter.into_cursor();
    let r = MapWhile { inner: c, f: predicate, done: false };
    proof {
        lemma_stream_of_source(iter, c);
        assert(unmapped_at(c, predicate) =~= source_unmapped(iter, predicate));
    }
    r
}

/// The source's item at step `i` is one on which `f` gives `None`.
pub open spec fn source_unmapped<I: IntoCursor, B, F: FnMut(I::Item) -> Option<B>>(iter: I, f: F) -> spec_fn(nat) -> bool {
    |i: nat|
        match iter.stream(i) {
            Some(a) => apply(f, a) is None,
            None => false,
        }
}

/// Wraps `iter` so that its next result can be looked at without consuming it.
pub fn peekable<I: IntoCursor>(iter: I) -> (r: Peekable<I::IntoCursor>)
    requires
        iter.convertible(),
    ensures
        r.wf(),
        iter.is_cursor() ==> r.inner == iter.as_cursor(),
        stream_of(r.inner) == source_stream(iter),
        r.peeked is None,
        forall|i: nat| #[trigger] r.out(i) == iter.stream(i),
{
    Peekable { inner: iter.into_cursor(), peeked: None }
}

/// Produces the items of `iter` that `predicate` accepts; each `None` of the
/// source is passed on.
pub fn filter<I: IntoCursor, P: FnMut(&I::Item) -> bool>(iter: I, predicate: P) -> (r: Filter<
    I::IntoCursor,
    P,
>)
    requires
        iter.convertible(),
        decides(predicate),
        accept_ends(source_stream(iter), predicate),
    ensures
        r.wf(),
        iter.is_cursor() ==> r.inner == iter.as_cursor(),
        stream_of(r.inner) == source_stream(iter),
        forall|i: nat| #[trigger] r.out(i) == filter_out(source_stream(iter), predicate, i),
{
    let c = iter.into_cursor();
    proof {
        lemma_stream_of_source(iter, c);
    }
    Filter { inner: c, pred: predicate }
}

/// Produces what `f` gives on the items of `iter`, leaving out each `None`
/// that `f` gives; each `None` of the source is passed on.
pub fn filter_map<I: IntoCursor, B, F: FnMut(I::Item) -> Option<B>>(iter: I, f: F) -> (r: FilterMap<
    I::IntoCursor,
    F,
>)
    requires
        iter.convertible(),
        functional(f),
        some_ends(source_stream(iter), f),
    ensures
        r.wf(),
        iter.is_cursor() ==> r.inner == iter.as_cursor(),
        stream_of(r.inner) == source_stream(iter),
        forall|i: nat| #[trigger] r.out(i) == filter_map_out(source_stream(iter), f, i),
{
    let c = iter.into_cursor();
    proof {
        lemma_stream_of_source(iter, c);
    }
    FilterMap { inner: c, f }
}

/// Drops the leading items of `iter` that `predicate` accepts, then produces
/// the rest unfiltered.
pub fn skip_while<I: IntoCursor, P: FnMut(&I::Item) -> bool>(iter: I, predicate: P) -> (r: SkipWhile<
    I::IntoCursor,
    P,
>)
    requires
        iter.convertible(),
        decides(predicate),
        reject_ends(source_stream(iter), predicate),
    ensures
        r.wf(),
        iter.is_cursor() ==> r.inner == iter.as_cursor(),
        stream_of(r.inner) == source_stream(iter),
        !r.done,
        forall|i: nat| #[trigger] r.out(i) == skip_while_out(source_stream(iter), predicate, i),
{
    let c = iter.into_cursor();
    proof {
        lemma_stream_of_source(iter, c);
    }
    SkipWhile { inner: c, pred: predicate, done: false }
}

/// Produces the first result of `iter`, then every `step`-th one after it.
pub fn step_by<I: IntoCursor>(iter: I, step: usize) -> (r: StepBy<I::IntoCursor>)
    requires
        iter.convertible(),
        step > 0,
    ensures
        r.wf(),
        iter.is_cursor() ==> r.inner == iter.as_cursor(),
        stream_of(r.inner) == source_stream(iter),
        r.first_take,
        r.gap == step - 1,
        forall|i: nat| #[trigger] r.out(i) == step_out(source_stream(iter), (step - 1) as nat, true, i),
{
    let c = iter.into_cursor();
    proof {
        lemma_stream_of_source(iter, c);
    }
    StepBy { inner: c, gap: step - 1, first_take: true }
}

/// Repeats `iter` for ever: each time the copy in use gives `None`, a fresh
/// copy of the kept cursor takes its place and is asked at once.
pub fn cycle<I: IntoCursor>(iter: I) -> (r: Cycle<I::IntoCursor>) where I::IntoCursor: DupCursor
    requires
        iter.convertible(),
    ensures
        r.wf(),
        stream_of(r.kept) == source_stream(iter),
        stream_of(r.cur) == source_stream(iter),
        forall|i: nat| #[trigger] r.out(i) == cycle_out(source_stream(iter), source_stream(iter), i),
{
    let c = iter.into_cursor();
    let orig = c.dup();
    proof {
        lemma_stream_of_source(iter, c);
        assert(stream_of(orig) =~= stream_of(c));
    }
    Cycle { kept: orig, cur: c }
}

/// The stream of the source `iter` with `f` applied to each item.
pub open spec fn mapped_stream<I: IntoCursor, B, F: FnMut(I::Item) -> B>(iter: I, f: F) -> spec_fn(nat) -> Option<B> {
    |j: nat|
        match iter.stream(j) {
            Some(a) => Some(apply(f, a)),
            None => None,
        }
}

/// Produces the items of each source that `iter` produces, in turn; a source
/// is left at its first `None`, and the first `None` of `iter` ends it all.
pub fn flatten<I: IntoCursor>(iter: I) -> (r: Flatten<I::IntoCursor>) where I::Item: IntoCursor
    requires
        iter.convertible(),
        flat_ends(source_stream(iter)),
        all_convertible(source_stream(iter)),
    ensures
        r.wf(),
        forall|i: nat| #[trigger] r.out(i) == flat_out(Some(source_stream(iter)), None, i),
{
    let c = iter.into_cursor();
    proof {
        lemma_stream_of_source(iter, c);
    }
    Flatten { outer: Some(c), front: None }
}

/// Maps each item of `iter` to a source with `f` and produces the items of
/// those sources in turn, as `flatten` does.
pub fn flat_map<I: IntoCursor, U: IntoCursor, F: FnMut(I::Item) -> U>(iter: I, f: F) -> (r: Flatten<
    MapEach<I::IntoCursor, F>,
>)
    requires
        iter.convertible(),
        functional(f),
        flat_ends(mapped_stream(iter, f)),
        all_convertible(mapped_stream(iter, f)),
    ensures
        r.wf(),
        forall|i: nat| #[trigger] r.out(i) == flat_out(Some(mapped_stream(iter, f)), None, i),
{
    let m = MapEach { inner: iter.into_cursor(), f };
    proof {
        assert(stream_of(m) =~= mapped_stream(iter, f));
    }
    Flatten { outer: Some(m), front: None }
}

} // verus!
