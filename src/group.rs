use vstd::prelude::*;
use crate::protocol::{ArrayPtr, ArrayRow};

verus! {

/// A row of two fields.
#[derive(Debug, Clone, Copy, PartialEq)]
pub struct AB {
    pub a: u64,
    pub b: i64,
}

/// A row with a nested `AB` row and a field of its own.
#[derive(Debug, Clone, Copy, PartialEq)]
pub struct ABC {
    pub ab: AB,
    pub c: u32,
}

/// The column storage of `AB`: one array per field.
#[derive(Debug, Clone, PartialEq)]
pub struct ABPointers {
    pub a: <u64 as ArrayRow>::Ptr,
    pub b: <i64 as ArrayRow>::Ptr,
}

/// The column storage of `ABC`: the nested row's storage and one array.
#[derive(Debug, Clone, PartialEq)]
pub struct ABCPointers {
    pub ab: <AB as ArrayRow>::Ptr,
    pub c: <u32 as ArrayRow>::Ptr,
}

impl ArrayRow for AB {
    type Ptr = ABPointers;

    fn blank() -> AB {
        AB { a: u64::blank(), b: i64::blank() }
    }
}

impl ArrayRow for ABC {
    type Ptr = ABCPointers;

    fn blank() -> ABC {
        ABC { ab: AB::blank(), c: u32::blank() }
    }
}

impl ArrayPtr for ABPointers {
    type Row = AB;

    open spec fn rows(&self) -> Seq<AB> {
        Seq::new(self.a.rows().len(), |i: int| AB { a: self.a.rows()[i], b: self.b.rows()[i] })
    }

    open spec fn wf(&self) -> bool {
        &&& self.a.wf()
        &&& self.b.wf()
        &&& self.a.rows().len() == self.b.rows().len()
    }

    fn new(len: usize) -> (r: Self) {
        let a = <<u64 as ArrayRow>::Ptr as ArrayPtr>::new(len);
        let b = <<i64 as ArrayRow>::Ptr as ArrayPtr>::new(len);
        ABPointers { a, b }
    }

    fn row(&self, idx: usize) -> (r: AB) {
        let a = self.a.row(idx);
        let b = self.b.row(idx);
        AB { a, b }
    }

    fn chunk<const N: usize>(&self, idx: usize) -> (r: [AB; N]) {
        let a: [u64; N] = self.a.chunk(idx);
        let b: [i64; N] = self.b.chunk(idx);
        let mut out: [AB; N] = [AB::blank(); N];
        let mut i: usize = 0;
        while i < N
            invariant
                i <= N,
                a@ == self.a.rows().subrange(idx as int, idx + N),
                b@ == self.b.rows().subrange(idx as int, idx + N),
                forall|k: int| 0 <= k < i ==> out@[k] == (AB { a: a@[k], b: b@[k] }),
            decreases N - i,
        {
            out[i] = AB { a: a[i], b: b[i] };
            i = i + 1;
        }
        proof {
            assert(out@ =~= self.rows().subrange(idx as int, idx + N));
        }
        out
    }

    fn set_row(&mut self, idx: usize, row: AB) {
        self.a.set_row(idx, row.a);
        self.b.set_row(idx, row.b);
        proof {
            assert(self.rows() =~= old(self).rows().update(idx as int, row));
        }
    }
}

impl ArrayPtr for ABCPointers {
    type Row = ABC;

    open spec fn rows(&self) -> Seq<ABC> {
        Seq::new(self.ab.rows().len(), |i: int| ABC { ab: self.ab.rows()[i], c: self.c.rows()[i] })
    }

    open spec fn wf(&self) -> bool {
        &&& self.ab.wf()
        &&& self.c.wf()
        &&& self.ab.rows().len() == self.c.rows().len()
    }

    fn new(len: usize) -> (r: Self) {
        let ab = <<AB as ArrayRow>::Ptr as ArrayPtr>::new(len);
        let c = <<u32 as ArrayRow>::Ptr as ArrayPtr>::new(len);
        ABCPointers { ab, c }
    }

    fn row(&self, idx: usize) -> (r: ABC) {
        let ab = self.ab.row(idx);
        let c = self.c.row(idx);
        ABC { ab, c }
    }

    fn chunk<const N: usize>(&self, idx: usize) -> (r: [ABC; N]) {
        let ab: [AB; N] = self.ab.chunk(idx);
        let c: [u32; N] = self.c.chunk(idx);
        let mut out: [ABC; N] = [ABC::blank(); N];
        let mut i: usize = 0;
        while i < N
            invariant
                i <= N,
                ab@ == self.ab.rows().subrange(idx as int, idx + N),
                c@ == self.c.rows().subrange(idx as int, idx + N),
                forall|k: int| 0 <= k < i ==> out@[k] == (ABC { ab: ab@[k], c: c@[k] }),
            decreases N - i,
        {
            out[i] = ABC { ab: ab[i], c: c[i] };
            i = i + 1;
        }
        proof {
            assert(out@ =~= self.rows().subrange(idx as int, idx + N));
        }
        out
    }

    fn set_row(&mut self, idx: usize, row: ABC) {
        self.ab.set_row(idx, row.ab);
        self.c.set_row(idx, row.c);
        proof {
            assert(self.rows() =~= old(self).rows().update(idx as int, row));
        }
    }
}

/// Reading `ABC` rows, one at a time or `n` at a time from `idx`, gives each
/// nested `AB` field the values of the nested storage at the same index, down
/// to its primitive arrays.
pub proof fn lemma_nested_reads(p: ABCPointers, idx: int, n: int)
    requires
        p.wf(),
        p.ab.wf(),
        0 <= idx,
        0 <= n,
        idx + n <= p.rows().len(),
    ensures
        forall|k: int|
            0 <= k < n ==> {
                let r = #[trigger] p.rows().subrange(idx, idx + n)[k];
                &&& r == p.rows()[idx + k]
                &&& r.ab == p.ab.rows()[idx + k]
                &&& r.ab.a == p.ab.a@[idx + k]
                &&& r.ab.b == p.ab.b@[idx + k]
                &&& r.c == p.c@[idx + k]
            },
{
}

} // verus!
