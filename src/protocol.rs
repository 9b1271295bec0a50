use vstd::prelude::*;

verus! {

/// A row type: a plain record that has one column-storage type.
pub trait ArrayRow: Sized + Copy {
    /// The column storage that holds rows of this type field by field.
    type Ptr: ArrayPtr<Row = Self>;

    /// A value of the type, used to seed scratch arrays before they are filled.
    fn blank() -> Self;
}

/// A column-storage type: one array per field of its row type, all of one length.
/// Its own accesses are unchecked: callers keep indices in range.
pub trait ArrayPtr: Sized {
    /// The row type whose fields this storage holds; its `ArrayRow::Ptr` is this type.
    type Row: Copy;

    /// The rows that the storage holds, reassembled from its field arrays.
    spec fn rows(&self) -> Seq<Self::Row>;

    /// Whether the field arrays agree on their length.
    spec fn wf(&self) -> bool;

    /// Reserves storage for `len` rows whose contents are unspecified until written.
    fn new(len: usize) -> (r: Self)
        ensures
            r.wf(),
            r.rows().len() == len,
    ;

    /// Reads row `idx` back from the field arrays.
    fn row(&self, idx: usize) -> (r: Self::Row)
        requires
            self.wf(),
            idx < self.rows().len(),
        ensures
            r == self.rows()[idx as int],
    ;

    /// Reads the `N` rows from `idx` on, in index order.
    fn chunk<const N: usize>(&self, idx: usize) -> (r: [Self::Row; N])
        requires
            self.wf(),
            idx + N <= self.rows().len(),
        ensures
            r@ == self.rows().subrange(idx as int, idx + N),
    ;

    /// Writes `row` at `idx`, field by field.
    fn set_row(&mut self, idx: usize, row: Self::Row)
        requires
            old(self).wf(),
            idx < old(self).rows().len(),
        ensures
            final(self).wf(),
            final(self).rows() == old(self).rows().update(idx as int, row),
    ;
}

} // verus!
