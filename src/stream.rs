use crate::cursor::Cursor;
use vstd::prelude::*;

verus! {

/// The stream of results of a cursor, as a spec function.
pub open spec fn stream_of<C: Cursor>(c: C) -> spec_fn(nat) -> Option<C::Item> {
    |i: nat| c.out(i)
}

/// `t` is `s` advanced by one step.
pub open spec fn shifted<T>(s: spec_fn(nat) -> Option<T>, t: spec_fn(nat) -> Option<T>) -> bool {
    forall|i: nat| #[trigger] t(i) == s(i + 1)
}

/// The position of the first `None` among the first `n` results of `s`, or `n` if there is none.
pub open spec fn first_none<T>(s: spec_fn(nat) -> Option<T>, n: nat) -> nat
    decreases n,
{
    if n == 0 {
        0
    } else {
        let p = first_none(s, (n - 1) as nat);
        if p < n - 1 {
            p
        } else if s((n - 1) as nat) is None {
            (n - 1) as nat
        } else {
            n
        }
    }
}

/// How many of the first `n` results of `s` are items.
pub open spec fn count_some<T>(s: spec_fn(nat) -> Option<T>, n: nat) -> nat
    decreases n,
{
    if n == 0 {
        0
    } else {
        count_some(s, (n - 1) as nat) + if s((n - 1) as nat) is Some {
            1nat
        } else {
            0nat
        }
    }
}

pub proof fn lemma_first_none<T>(s: spec_fn(nat) -> Option<T>, n: nat)
    ensures
        first_none(s, n) <= n,
        first_none(s, n) < n ==> s(first_none(s, n)) is None,
        forall|j: nat| j < first_none(s, n) ==> (#[trigger] s(j)) is Some,
    decreases n,
{
    if n > 0 {
        lemma_first_none(s, (n - 1) as nat);
    }
}

/// The first `None` of a stream lies one step later than in the stream advanced by one.
pub proof fn lemma_first_none_shift<T>(
    s: spec_fn(nat) -> Option<T>,
    t: spec_fn(nat) -> Option<T>,
    n: nat,
)
    requires
        shifted(s, t),
    ensures
        first_none(s, n + 1) == if s(0) is None {
            0
        } else {
            first_none(t, n) + 1
        },
    decreases n,
{
    if n > 0 {
        lemma_first_none_shift(s, t, (n - 1) as nat);
        assert(t((n - 1) as nat) == s(n));
    }
}

pub proof fn lemma_count_some_shift<T>(
    s: spec_fn(nat) -> Option<T>,
    t: spec_fn(nat) -> Option<T>,
    n: nat,
)
    requires
        shifted(s, t),
    ensures
        count_some(s, n + 1) == count_some(t, n) + if s(0) is Some {
            1nat
        } else {
            0nat
        },
    decreases n,
{
    if n > 0 {
        lemma_count_some_shift(s, t, (n - 1) as nat);
        assert(t((n - 1) as nat) == s(n));
        assert(count_some(t, n) == count_some(t, (n - 1) as nat) + if t((n - 1) as nat) is Some {
            1nat
        } else {
            0nat
        });
    }
    assert(count_some(s, n + 1) == count_some(s, n) + if s(n) is Some {
        1nat
    } else {
        0nat
    });
}

} // verus!

verus! {

/// The first `None` among the first `n` results sits where the items stop.
pub proof fn lemma_first_none_at<T>(s: spec_fn(nat) -> Option<T>, n: nat, t: nat)
    requires
        t <= n,
        forall|j: nat| j < t ==> (#[trigger] s(j)) is Some,
        t < n ==> s(t) is None,
    ensures
        first_none(s, n) == t,
{
    lemma_first_none(s, n);
    let f = first_none(s, n);
    if f < t {
        assert(s(f) is Some);
    }
    if f > t {
        assert(s(t) is Some);
    }
}

} // verus!

verus! {

/// The first position below `n` where `h` holds, or `n` if there is none.
pub open spec fn first_hit(h: spec_fn(nat) -> bool, n: nat) -> nat
    decreases n,
{
    if n == 0 {
        0
    } else {
        let p = first_hit(h, (n - 1) as nat);
        if p < n - 1 {
            p
        } else if h((n - 1) as nat) {
            (n - 1) as nat
        } else {
            n
        }
    }
}

pub proof fn lemma_first_hit(h: spec_fn(nat) -> bool, n: nat)
    ensures
        first_hit(h, n) <= n,
        first_hit(h, n) < n ==> h(first_hit(h, n)),
        forall|j: nat| j < first_hit(h, n) ==> !(#[trigger] h(j)),
    decreases n,
{
    if n > 0 {
        lemma_first_hit(h, (n - 1) as nat);
    }
}

pub proof fn lemma_first_hit_shift(h: spec_fn(nat) -> bool, g: spec_fn(nat) -> bool, n: nat)
    requires
        forall|i: nat| #[trigger] g(i) == h(i + 1),
    ensures
        first_hit(h, n + 1) == if h(0) {
            0
        } else {
            first_hit(g, n) + 1
        },
    decreases n,
{
    if n > 0 {
        lemma_first_hit_shift(h, g, (n - 1) as nat);
        assert(g((n - 1) as nat) == h(n));
    }
}

} // verus!

verus! {

/// The stream `s` advanced by `d` steps.
pub open spec fn shift<T>(s: spec_fn(nat) -> Option<T>, d: nat) -> spec_fn(nat) -> Option<T> {
    |j: nat| s(j + d)
}

/// Some position satisfies `h`.
pub open spec fn ends(h: spec_fn(nat) -> bool) -> bool {
    exists|j: nat| #[trigger] h(j)
}

/// The least position that satisfies `h`, where there is one.
pub open spec fn first_of(h: spec_fn(nat) -> bool) -> nat {
    choose|k: nat| #[trigger] h(k) && forall|j: nat| j < k ==> !(#[trigger] h(j))
}

pub proof fn lemma_first_of(h: spec_fn(nat) -> bool)
    requires
        ends(h),
    ensures
        h(first_of(h)),
        forall|j: nat| j < first_of(h) ==> !(#[trigger] h(j)),
{
    let j = choose|j: nat| #[trigger] h(j);
    lemma_first_hit(h, j + 1);
    let k = first_hit(h, j + 1);
    assert(k < j + 1);
    assert(h(k) && forall|i: nat| i < k ==> !(#[trigger] h(i)));
}

} // verus!
