use vstd::prelude::*;

verus! {

/// `f` accepts every argument and gives exactly one possible result for each.
pub open spec fn functional<A, B, F: FnMut(A) -> B>(f: F) -> bool {
    &&& forall|a: A| #[trigger] f.requires((a,))
    &&& forall|a: A, b1: B, b2: B|
        #[trigger] f.ensures((a,), b1) && #[trigger] f.ensures((a,), b2) ==> b1 == b2
}

/// The result of `f` on `a`, for a functional `f`.
pub open spec fn apply<A, B, F: FnMut(A) -> B>(f: F, a: A) -> B {
    choose|b: B| f.ensures((a,), b)
}

/// Calls `f` on `a`; the result is `apply(f, a)`.
pub fn call<A, B, F: FnMut(A) -> B>(f: &mut F, a: A) -> (b: B)
    requires
        functional(*old(f)),
    ensures
        *final(f) == *old(f),
        b == apply(*old(f), a),
{
    let ghost g = *f;
    let b = f(a);
    proof {
        assert(g.ensures((a,), b));
        assert(g.ensures((a,), apply(g, a)));
    }
    b
}

} // verus!

verus! {

/// `p` accepts every reference and gives exactly one possible answer for each.
pub open spec fn decides<T, P: FnMut(&T) -> bool>(p: P) -> bool {
    &&& forall|a: &T| #[trigger] p.requires((a,))
    &&& forall|a: &T, b1: bool, b2: bool|
        #[trigger] p.ensures((a,), b1) && #[trigger] p.ensures((a,), b2) ==> b1 == b2
}

/// `p` answers `true` on `a`.
pub open spec fn holds<T, P: FnMut(&T) -> bool>(p: P, a: T) -> bool {
    p.ensures((&a,), true)
}

/// Asks `p` about `a`; the answer is `holds(p, a)`.
pub fn ask<T, P: FnMut(&T) -> bool>(p: &mut P, a: &T) -> (b: bool)
    requires
        decides(*old(p)),
    ensures
        *final(p) == *old(p),
        b == holds(*old(p), *a),
{
    let ghost g = *p;
    let b = p(a);
    proof {
        assert(g.ensures((a,), b));
        if !b {
            if g.ensures((a,), true) {
                assert(false);
            }
        }
    }
    b
}

} // verus!
