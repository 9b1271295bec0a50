use vstd::prelude::*;
use crate::optional::{bit_set, empty_words, OptionMap};
use crate::protocol::{ArrayPtr, ArrayRow};

verus! {

/// A collection of rows stored as a structure of arrays: the column storage
/// `inner` and the number of rows `len` that it logically holds.
/// Single-row access is checked here; batch access is not.
#[derive(Debug, Clone, PartialEq)]
pub struct StructOfArrays<T: ArrayPtr> {
    inner: T,
    len: usize,
}

impl<T: ArrayPtr> View for StructOfArrays<T> {
    type V = Seq<T::Row>;

    /// The rows of the collection, in index order.
    closed spec fn view(&self) -> Seq<T::Row> {
        self.inner.rows().subrange(0, self.len as int)
    }
}

impl<T: ArrayPtr> StructOfArrays<T> {
    /// The storage is well formed and holds at least `len` rows.
    pub closed spec fn wf(&self) -> bool {
        &&& self.inner.wf()
        &&& self.len <= self.inner.rows().len()
    }

    /// Allocates storage for `len` rows; their values are unspecified until written.
    pub fn new(len: usize) -> (r: Self)
        ensures
            r.wf(),
            r@.len() == len,
    {
        let inner = T::new(len);
        StructOfArrays { inner, len }
    }

    /// The number of rows.
    pub fn len(&self) -> (r: usize)
        requires
            self.wf(),
        ensures
            r == self@.len(),
    {
        self.len
    }

    /// The column storage, for unchecked access by callers who keep indices in range.
    pub fn inner(&self) -> (r: &T)
        requires
            self.wf(),
        ensures
            r.wf(),
            self@.len() <= r.rows().len(),
            r.rows().subrange(0, self@.len() as int) == self@,
    {
        &self.inner
    }

    /// The row at `idx`, or `None` when `idx` is not below the row count.
    pub fn row(&self, idx: usize) -> (r: Option<T::Row>)
        requires
            self.wf(),
        ensures
            r == (if idx < self@.len() {
                Some(self@[idx as int])
            } else {
                None
            }),
    {
        if idx < self.len {
            Some(self.inner.row(idx))
        } else {
            None
        }
    }

    /// The `N` rows from `idx` on, in index order. Unchecked: the caller keeps
    /// `idx + N` within the row count.
    pub fn chunk<const N: usize>(&self, idx: usize) -> (r: [T::Row; N])
        requires
            self.wf(),
            idx + N <= self@.len(),
        ensures
            r@ == self@.subrange(idx as int, idx + N),
    {
        let r = self.inner.chunk::<N>(idx);
        proof {
            assert(r@ =~= self@.subrange(idx as int, idx + N));
        }
        r
    }

    /// Writes `row` at `idx`, which must be below the row count.
    pub fn set_row(&mut self, idx: usize, row: T::Row)
        requires
            old(self).wf(),
            idx < old(self)@.len(),
        ensures
            final(self).wf(),
            final(self)@ == old(self)@.update(idx as int, row),
    {
        self.inner.set_row(idx, row);
        proof {
            assert(self@ =~= old(self)@.update(idx as int, row));
        }
    }

    /// An iterator over all rows, from either end.
    pub fn iter(&self) -> (r: StructOfArraysIter<'_, T>)
        requires
            self.wf(),
        ensures
            r.wf(),
            r.source() == self@,
            r.front() == 0,
            r.back() == self@.len(),
    {
        StructOfArraysIter { soa: self, front: 0, back: self.len }
    }

    /// All rows, in index order, gathered into a vector by walking `iter`.
    pub fn transpose(&self) -> (r: Vec<T::Row>)
        requires
            self.wf(),
        ensures
            r@ == self@,
    {
        let mut it = self.iter();
        let mut out: Vec<T::Row> = Vec::new();
        while it.len() > 0
            invariant
                it.wf(),
                it.source() == self@,
                it.back() == self@.len(),
                out@ == self@.subrange(0, it.front()),
            decreases it.back() - it.front(),
        {
            if let Some(row) = it.next() {
                out.push(row);
            }
        }
        proof {
            assert(out@ =~= self@);
        }
        out
    }
}

impl<T: ArrayPtr> StructOfArrays<T> where T::Row: ArrayRow {
    /// An iterator that reads the rows `N` at a time with `chunk`, at indices
    /// `0, N, 2N, ...`, and yields them one by one. The last `len % N` rows,
    /// which fill no whole chunk, are never yielded. `N` must be positive.
    pub fn iter_chunked<const N: usize>(&self) -> (r: ChunkedArrayIter<'_, T, N>)
        requires
            self.wf(),
            N > 0,
        ensures
            r.wf(),
            r.remaining() == self@.subrange(0, whole_chunk_rows(self@.len() as int, N as int)),
    {
        let r = ChunkedArrayIter { soa: self, chunk: 0, idx: N, buf: [T::Row::blank(); N] };
        proof {
            lemma_whole_chunk_rows_bounds(self@.len() as int, N as int);
            assert(r.chunk * N == 0) by (nonlinear_arith)
                requires
                    r.chunk == 0,
            ;
            assert(r.buf@.subrange(N as int, N as int) =~= Seq::<T::Row>::empty());
            assert(r.remaining() =~= self@.subrange(0, whole_chunk_rows(self@.len() as int, N as int)));
        }
        r
    }
}

/// The number of rows that whole chunks of `n` rows cover among `len` rows.
pub open spec fn whole_chunk_rows(len: int, n: int) -> int {
    n * (len / n)
}

/// The whole chunks of `len` rows end within the rows.
proof fn lemma_whole_chunk_rows_bounds(len: int, n: int)
    requires
        len >= 0,
        n > 0,
    ensures
        0 <= whole_chunk_rows(len, n) <= len,
{
    assert(0 <= n * (len / n) <= len) by (nonlinear_arith)
        requires
            n > 0,
            len >= 0,
    ;
}

/// After the last whole chunk no row is left.
proof fn lemma_last_chunk(len: int, n: int, c: int)
    requires
        len >= 0,
        n > 0,
        c == len / n,
    ensures
        c * n == whole_chunk_rows(len, n),
{
    assert(c * n == n * c) by (nonlinear_arith);
}

/// An emptied buffer followed by an empty range of rows leaves nothing.
proof fn lemma_nothing_left<R>(buf: Seq<R>, idx: int, n: int, rows: Seq<R>, start: int)
    requires
        buf.len() == n,
        idx == n,
        n > 0,
        start == whole_chunk_rows(rows.len() as int, n),
    ensures
        buf.subrange(idx, n) + rows.subrange(start, whole_chunk_rows(rows.len() as int, n))
            =~= Seq::<R>::empty(),
{
    lemma_whole_chunk_rows_bounds(rows.len() as int, n);
}

/// The end of the whole chunks of `len` rows lies within the rows.
proof fn lemma_whole_chunks(len: int, n: int, c: int)
    requires
        len >= 0,
        n > 0,
        0 <= c < len / n,
    ensures
        0 <= c * n,
        c * n + n <= whole_chunk_rows(len, n),
        whole_chunk_rows(len, n) <= len,
{
    assert(c * n + n <= n * (len / n)) by (nonlinear_arith)
        requires
            n > 0,
            c + 1 <= len / n,
    ;
    assert(n * (len / n) <= len) by (nonlinear_arith)
        requires
            n > 0,
            len >= 0,
    ;
    assert(0 <= c * n) by (nonlinear_arith)
        requires
            n > 0,
            c >= 0,
    ;
}

/// An iterator over the rows of a `StructOfArrays` that reads them a whole chunk
/// of `N` at a time: `chunk` is the index of the next chunk to read and
/// `buf[idx..]` the rows of the current chunk not yet yielded.
#[derive(Debug, Clone)]
pub struct ChunkedArrayIter<'a, T: ArrayPtr, const N: usize> {
    soa: &'a StructOfArrays<T>,
    chunk: usize,
    idx: usize,
    buf: [T::Row; N],
}

impl<'a, T: ArrayPtr, const N: usize> ChunkedArrayIter<'a, T, N> {
    /// The rows not yet yielded, in index order.
    pub closed spec fn remaining(&self) -> Seq<T::Row> {
        self.buf@.subrange(self.idx as int, N as int) + self.soa@.subrange(
            self.chunk * N,
            whole_chunk_rows(self.soa@.len() as int, N as int),
        )
    }

    /// The chunk size is positive, and a buffer in use holds the chunk just read.
    pub closed spec fn wf(&self) -> bool {
        &&& self.soa.wf()
        &&& N > 0
        &&& self.idx <= N
        &&& self.chunk <= self.soa@.len() / (N as nat)
        &&& self.chunk * N <= whole_chunk_rows(self.soa@.len() as int, N as int)
        &&& self.idx < N ==> self.chunk >= 1 && self.buf@ == self.soa@.subrange(
            (self.chunk - 1) * N,
            self.chunk * N,
        )
    }

    /// The next row, or `None` once every whole chunk has been yielded.
    pub fn next(&mut self) -> (r: Option<T::Row>)
        requires
            old(self).wf(),
        ensures
            final(self).wf(),
            old(self).remaining().len() > 0 ==> r == Some(old(self).remaining()[0])
                && final(self).remaining() == old(self).remaining().drop_first(),
            old(self).remaining().len() == 0 ==> r is None && final(self).remaining()
                == old(self).remaining(),
    {
        let ghost old_rem = self.remaining();
        if self.idx < N {
            let r = self.buf[self.idx];
            self.idx = self.idx + 1;
            proof {
                assert(self.remaining() =~= old_rem.drop_first());
            }
            Some(r)
        } else {
            let len = self.soa.len();
            if self.chunk < len / N {
                proof {
                    lemma_whole_chunks(len as int, N as int, self.chunk as int);
                }
                self.buf = self.soa.chunk::<N>(self.chunk * N);
                self.chunk = self.chunk + 1;
                self.idx = 1;
                proof {
                    assert(self.chunk * N == (self.chunk - 1) * N + N) by (nonlinear_arith)
                        requires
                            self.chunk >= 1,
                    ;
                    assert(old_rem =~= self.soa@.subrange(
                        (self.chunk - 1) * N,
                        whole_chunk_rows(self.soa@.len() as int, N as int),
                    ));
                    assert(self.remaining() =~= old_rem.drop_first());
                }
                Some(self.buf[0])
            } else {
                proof {
                    lemma_last_chunk(self.soa@.len() as int, N as int, self.chunk as int);
                    assert(self.buf@.len() == N);
                    lemma_nothing_left(
                        self.buf@,
                        self.idx as int,
                        N as int,
                        self.soa@,
                        self.chunk * N,
                    );
                }
                None
            }
        }
    }
}

/// An iterator over the rows of a `StructOfArrays` that yields rows
/// `front..back` from either end.
#[derive(Debug, Clone)]
pub struct StructOfArraysIter<'a, T: ArrayPtr> {
    soa: &'a StructOfArrays<T>,
    front: usize,
    back: usize,
}

impl<'a, T: ArrayPtr> StructOfArraysIter<'a, T> {
    /// The rows of the collection that is walked.
    pub closed spec fn source(&self) -> Seq<T::Row> {
        self.soa@
    }

    /// The index of the next row from the front.
    pub closed spec fn front(&self) -> int {
        self.front as int
    }

    /// One past the index of the next row from the back.
    pub closed spec fn back(&self) -> int {
        self.back as int
    }

    /// The rows not yet yielded, in index order.
    pub open spec fn remaining(&self) -> Seq<T::Row> {
        self.source().subrange(self.front(), self.back())
    }

    /// The rows left lie within the collection.
    pub closed spec fn wf(&self) -> bool {
        &&& self.soa.wf()
        &&& self.front <= self.back <= self.soa@.len()
    }

    /// The next row from the front, or `None` once every row has been yielded.
    pub fn next(&mut self) -> (r: Option<T::Row>)
        requires
            old(self).wf(),
        ensures
            final(self).wf(),
            final(self).source() == old(self).source(),
            final(self).back() == old(self).back(),
            old(self).front() < old(self).back() ==> r == Some(old(self).source()[old(self).front()])
                && final(self).front() == old(self).front() + 1,
            old(self).front() == old(self).back() ==> r is None && final(self).front()
                == old(self).front(),
    {
        if self.front < self.back {
            let r = self.soa.inner.row(self.front);
            self.front = self.front + 1;
            Some(r)
        } else {
            None
        }
    }

    /// The next row from the back, or `None` once every row has been yielded.
    pub fn next_back(&mut self) -> (r: Option<T::Row>)
        requires
            old(self).wf(),
        ensures
            final(self).wf(),
            final(self).source() == old(self).source(),
            final(self).front() == old(self).front(),
            old(self).front() < old(self).back() ==> r == Some(
                old(self).source()[old(self).back() - 1],
            ) && final(self).back() == old(self).back() - 1,
            old(self).front() == old(self).back() ==> r is None && final(self).back()
                == old(self).back(),
    {
        if self.front < self.back {
            self.back = self.back - 1;
            let r = self.soa.inner.row(self.back);
            Some(r)
        } else {
            None
        }
    }

    /// The number of rows not yet yielded.
    pub fn len(&self) -> (r: usize)
        requires
            self.wf(),
        ensures
            r == self.back() - self.front(),
    {
        self.back - self.front
    }
}

/// Writing a row at `i` and reading row `i` back gives the row written; the
/// other rows and the row count stay as they were.
pub proof fn lemma_write_then_read<T: ArrayPtr>(
    before: StructOfArrays<T>,
    after: StructOfArrays<T>,
    i: int,
    v: T::Row,
)
    requires
        before.wf(),
        0 <= i < before@.len(),
        after@ == before@.update(i, v),
    ensures
        after@.len() == before@.len(),
        after@[i] == v,
        forall|j: int| 0 <= j < after@.len() && j != i ==> after@[j] == before@[j],
{
}

/// The `n` rows that a chunk read returns from `idx` are, in order, the rows
/// that `n` single-row reads from `idx` return.
pub proof fn lemma_chunk_matches_rows<T: ArrayPtr>(soa: StructOfArrays<T>, idx: int, n: int)
    requires
        soa.wf(),
        0 <= idx,
        0 <= n,
        idx + n <= soa@.len(),
    ensures
        soa@.subrange(idx, idx + n).len() == n,
        forall|k: int| 0 <= k < n ==> #[trigger] soa@.subrange(idx, idx + n)[k] == soa@[idx + k],
{
}

/// Chunked iteration over `len` rows covers `n * (len / n)` of them: all but
/// the last `len % n`.
pub proof fn lemma_chunked_count(len: int, n: int)
    requires
        len >= 0,
        n > 0,
    ensures
        whole_chunk_rows(len, n) == len - len % n,
        0 <= len - whole_chunk_rows(len, n) < n,
{
    assert(n * (len / n) == len - len % n) by (nonlinear_arith)
        requires
            n > 0,
    ;
}

/// Whether the bitmap marks row `i` as missing.
pub open spec fn row_missing(words: Seq<u64>, i: int) -> bool {
    i / 64 < words.len() && bit_set(words, i)
}

/// A collection whose rows may be missing: column storage, a bitmap of the
/// missing rows, and the number of rows it is meant to hold.
#[derive(Debug, Clone, PartialEq)]
pub struct StructOfMaybeArrays<T: ArrayPtr> {
    inner: T,
    nones: OptionMap,
    len: usize,
}

impl<T: ArrayPtr> View for StructOfMaybeArrays<T> {
    type V = Seq<Option<T::Row>>;

    /// Each row in index order: `None` where the bitmap marks it missing.
    closed spec fn view(&self) -> Seq<Option<T::Row>> {
        Seq::new(
            self.len as nat,
            |i: int|
                if row_missing(self.nones.words(), i) {
                    None
                } else {
                    Some(self.inner.rows()[i])
                },
        )
    }
}

impl<T: ArrayPtr> StructOfMaybeArrays<T> {
    /// The bitmap of missing rows.
    pub closed spec fn nones(&self) -> OptionMap {
        self.nones
    }

    /// Every row that the bitmap does not mark missing is held by the storage,
    /// and the bitmap marks nothing past the last row.
    pub closed spec fn wf(&self) -> bool {
        &&& self.inner.wf()
        &&& forall|i: int|
            0 <= i < self.len && !row_missing(self.nones.words(), i) ==> i
                < self.inner.rows().len()
        &&& forall|i: int|
            self.len <= i < 64 * self.nones.words().len() ==> !bit_set(self.nones.words(), i)
    }

    /// A collection meant for `len` rows, all of them missing: the storage
    /// starts empty and the bitmap marks every row.
    pub fn new(len: usize) -> (r: Self)
        ensures
            r.wf(),
            r@ == Seq::new(len as nat, |i: int| None::<T::Row>),
            r.nones().words() == empty_words(len as nat),
    {
        let nones = OptionMap::new_empty(len);
        let r = StructOfMaybeArrays { inner: T::new(0), nones, len };
        proof {
            assert forall|i: int| 0 <= i < len implies row_missing(r.nones.words(), i) by {
                assert(i / 64 < r.nones.words().len());
            }
            assert(r@ =~= Seq::new(len as nat, |i: int| None::<T::Row>));
        }
        r
    }

    /// The row at `idx`: `None` when `idx` is not below the row count or the
    /// row is missing.
    pub fn row(&self, idx: usize) -> (r: Option<T::Row>)
        requires
            self.wf(),
        ensures
            r == (if idx < self@.len() {
                self@[idx as int]
            } else {
                None
            }),
    {
        if idx < self.len && !self.nones.is_none(idx) {
            Some(self.inner.row(idx))
        } else {
            None
        }
    }
}

impl<T: ArrayPtr> StructOfArrays<T> {
    /// Turns a collection with no missing row into a `StructOfArrays`; one whose
    /// bitmap marks a row missing comes back unchanged as the error.
    pub fn try_from_maybe(value: StructOfMaybeArrays<T>) -> (r: Result<
        StructOfArrays<T>,
        StructOfMaybeArrays<T>,
    >)
        requires
            value.wf(),
        ensures
            r is Ok <==> !value.nones().has_none(),
            r matches Ok(s) ==> s.wf() && s@.len() == value@.len() && forall|i: int|
                0 <= i < s@.len() ==> value@[i] == Some(s@[i]),
            r matches Err(e) ==> e == value,
    {
        if value.nones.contains_nones() {
            Err(value)
        } else {
            let ghost words = value.nones.words();
            proof {
                assert forall|i: int| 0 <= i < value.len implies !row_missing(words, i) by {
                    if row_missing(words, i) {
                        let w = words[i / 64];
                        let b = (i % 64) as u64;
                        assert(w == 0);
                        assert((0u64 >> b) & 1u64 == 0u64) by (bit_vector);
                    }
                }
                if value.len > 0 {
                    let k = value.len - 1;
                    assert(!row_missing(words, k));
                    assert(k < value.inner.rows().len());
                }
            }
            Ok(StructOfArrays { inner: value.inner, len: value.len })
        }
    }
}

} // verus!
