use vstd::prelude::*;

verus! {

/// A sequence of elements held in one or more contiguous pieces.
pub trait Sequence<T> {
    /// The elements, in order.
    spec fn elements(&self) -> Seq<T>;

    /// The number of contiguous pieces that hold the elements.
    spec fn pieces(&self) -> nat;

    /// The number of elements.
    fn len(&self) -> (r: usize)
        ensures
            r == self.elements().len(),
    ;

    /// The number of contiguous pieces that hold the elements.
    fn num_chunks(&self) -> (r: usize)
        ensures
            r == self.pieces(),
    ;
}

/// A vector is one contiguous piece.
impl<T> Sequence<T> for Vec<T> {
    open spec fn elements(&self) -> Seq<T> {
        self@
    }

    open spec fn pieces(&self) -> nat {
        1
    }

    fn len(&self) -> (r: usize) {
        Vec::len(self)
    }

    fn num_chunks(&self) -> (r: usize) {
        1
    }
}

/// A single column of `u64` values held in any sequence.
pub struct A<S: Sequence<u64>> {
    pub a: S,
}

} // verus!
