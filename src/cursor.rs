use vstd::prelude::*;

verus! {

/// A single-pass handle that produces items one at a time.
pub trait Cursor: Sized {
    type Item;

    /// The cursor's internal invariant.
    spec fn wf(&self) -> bool;

    /// What the call of `next` made `i` steps from now returns.
    spec fn out(&self, i: nat) -> Option<Self::Item>;

    /// How the cursors that this one draws on move in one call of `next`.
    spec fn steps_to(&self, after: &Self) -> bool;

    /// Produces the next result and advances the stream by one step.
    fn next(&mut self) -> (r: Option<Self::Item>)
        requires
            (*old(self)).wf(),
        ensures
            (*final(self)).wf(),
            (*old(self)).steps_to(&*final(self)),
            r == (*old(self)).out(0),
            forall|i: nat| #[trigger] (*final(self)).out(i) == (*old(self)).out(i + 1),
    ;
}

/// A value that can be turned into a cursor.
pub trait IntoCursor: Sized {
    type Item;

    type IntoCursor: Cursor<Item = Self::Item>;

    /// The condition under which the conversion gives a well-formed cursor.
    spec fn convertible(&self) -> bool;

    /// The stream of the cursor that the conversion gives.
    spec fn stream(&self, i: nat) -> Option<Self::Item>;

    /// The value is already a cursor, and converts into itself.
    spec fn is_cursor(&self) -> bool;

    /// The cursor that the value is, where it is one.
    spec fn as_cursor(self) -> Self::IntoCursor;

    fn into_cursor(self) -> (c: Self::IntoCursor)
        requires
            self.convertible(),
        ensures
            c.wf(),
            forall|i: nat| #[trigger] c.out(i) == self.stream(i),
            self.is_cursor() ==> c == self.as_cursor(),
    ;
}

/// Every cursor converts into itself.
impl<C: Cursor> IntoCursor for C {
    type Item = C::Item;

    type IntoCursor = C;

    open spec fn convertible(&self) -> bool {
        self.wf()
    }

    open spec fn stream(&self, i: nat) -> Option<C::Item> {
        self.out(i)
    }

    open spec fn is_cursor(&self) -> bool {
        true
    }

    open spec fn as_cursor(self) -> C {
        self
    }

    fn into_cursor(self) -> (c: C) {
        self
    }
}

/// A mutable borrow of a cursor is a cursor that advances the borrowed one.
impl<'a, C: Cursor> Cursor for &'a mut C {
    type Item = C::Item;

    open spec fn wf(&self) -> bool {
        (**self).wf()
    }

    open spec fn out(&self, i: nat) -> Option<C::Item> {
        (**self).out(i)
    }

    open spec fn steps_to(&self, after: &Self) -> bool {
        (**self).steps_to(&**after)
    }

    fn next(&mut self) -> (r: Option<C::Item>) {
        (**self).next()
    }
}

} // verus!

verus! {

/// The stream of a cursor over the finite sequence `s`: its items, then `None` forever.
pub open spec fn seq_stream<T>(s: Seq<T>, i: nat) -> Option<T> {
    if i < s.len() {
        Some(s[i as int])
    } else {
        None
    }
}

/// A cursor over a finite sequence that can also be consumed from the back.
pub trait BackCursor: Cursor {
    /// The items left between the two ends.
    spec fn items(&self) -> Seq<Self::Item>;

    /// The stream is exactly the items left, then `None` forever.
    proof fn lemma_items(&self)
        requires
            self.wf(),
        ensures
            forall|i: nat| #[trigger] self.out(i) == seq_stream(self.items(), i),
    ;

    /// Produces the last item left.
    fn next_back(&mut self) -> (r: Option<Self::Item>)
        requires
            (*old(self)).wf(),
        ensures
            (*final(self)).wf(),
            r == (if (*old(self)).items().len() > 0 {
                Some((*old(self)).items().last())
            } else {
                None
            }),
            (*final(self)).items() == (if (*old(self)).items().len() > 0 {
                (*old(self)).items().drop_last()
            } else {
                (*old(self)).items()
            }),
    ;
}

/// A mutable borrow of a double-ended cursor is double-ended too.
impl<'a, C: BackCursor> BackCursor for &'a mut C {
    open spec fn items(&self) -> Seq<C::Item> {
        (**self).items()
    }

    proof fn lemma_items(&self) {
        (**self).lemma_items();
    }

    fn next_back(&mut self) -> (r: Option<C::Item>) {
        (**self).next_back()
    }
}

/// A cursor that can be duplicated, the copy starting where it stands.
pub trait DupCursor: Cursor {
    fn dup(&self) -> (r: Self)
        requires
            self.wf(),
        ensures
            r.wf(),
            forall|i: nat| #[trigger] r.out(i) == self.out(i),
    ;
}

} // verus!

verus! {

/// Two finite sequences with the same stream are equal.
pub proof fn lemma_seq_stream_eq<T>(a: Seq<T>, b: Seq<T>)
    requires
        forall|i: nat| #[trigger] seq_stream(a, i) == seq_stream(b, i),
    ensures
        a == b,
{
    if a.len() < b.len() {
        assert(seq_stream(a, a.len()) == seq_stream(b, a.len()));
    }
    if b.len() < a.len() {
        assert(seq_stream(a, b.len()) == seq_stream(b, b.len()));
    }
    assert forall|k: int| 0 <= k < a.len() implies a[k] == b[k] by {
        assert(seq_stream(a, k as nat) == seq_stream(b, k as nat));
    }
    assert(a =~= b);
}

} // verus!
