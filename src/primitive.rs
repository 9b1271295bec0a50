use vstd::prelude::*;
use crate::protocol::{ArrayPtr, ArrayRow};

verus! {

/// A primitive column is one contiguous array of the scalar.
impl<T: ArrayRow<Ptr = Vec<T>>> ArrayPtr for Vec<T> {
    type Row = T;

    open spec fn rows(&self) -> Seq<T> {
        self@
    }

    open spec fn wf(&self) -> bool {
        true
    }

    fn new(len: usize) -> (r: Self) {
        let fill = T::blank();
        let mut v: Vec<T> = Vec::with_capacity(len);
        let mut i: usize = 0;
        while i < len
            invariant
                i <= len,
                v@.len() == i,
            decreases len - i,
        {
            v.push(fill);
            i = i + 1;
        }
        v
    }

    fn row(&self, idx: usize) -> (r: T) {
        self[idx]
    }

    fn chunk<const N: usize>(&self, idx: usize) -> (r: [T; N]) {
        let mut out: [T; N] = [T::blank(); N];
        let len: usize = self.len();
        let mut i: usize = 0;
        while i < N
            invariant
                i <= N,
                len == self@.len(),
                idx + N <= self@.len(),
                forall|k: int| 0 <= k < i ==> out@[k] == self@[idx + k],
            decreases N - i,
        {
            out[i] = self[idx + i];
            i = i + 1;
        }
        proof {
            assert(out@ =~= self@.subrange(idx as int, idx + N));
        }
        out
    }

    fn set_row(&mut self, idx: usize, row: T) {
        self.set(idx, row);
    }
}

impl ArrayRow for i16 {
    type Ptr = Vec<i16>;

    fn blank() -> i16 {
        0
    }
}

impl ArrayRow for i32 {
    type Ptr = Vec<i32>;

    fn blank() -> i32 {
        0
    }
}

impl ArrayRow for i64 {
    type Ptr = Vec<i64>;

    fn blank() -> i64 {
        0
    }
}

impl ArrayRow for i128 {
    type Ptr = Vec<i128>;

    fn blank() -> i128 {
        0
    }
}

impl ArrayRow for isize {
    type Ptr = Vec<isize>;

    fn blank() -> isize {
        0
    }
}

impl ArrayRow for u16 {
    type Ptr = Vec<u16>;

    fn blank() -> u16 {
        0
    }
}

impl ArrayRow for u32 {
    type Ptr = Vec<u32>;

    fn blank() -> u32 {
        0
    }
}

impl ArrayRow for u64 {
    type Ptr = Vec<u64>;

    fn blank() -> u64 {
        0
    }
}

impl ArrayRow for usize {
    type Ptr = Vec<usize>;

    fn blank() -> usize {
        0
    }
}

impl ArrayRow for bool {
    type Ptr = Vec<bool>;

    fn blank() -> bool {
        false
    }
}

impl ArrayRow for char {
    type Ptr = Vec<char>;

    fn blank() -> char {
        '\0'
    }
}

} // verus!
