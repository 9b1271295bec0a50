use vstd::prelude::*;
use std::rc::Rc;

verus! {

/// One word of an `OptionMap`: each bit marks one row.
pub type BitContainer = u64;

/// Bytes held by one `BitContainer`.
const WORD_BYTES: usize = 8;

/// Whether bit `i` of a word sequence is set: bit `i % 64`, counted from the
/// least significant end, of word `i / 64`.
pub open spec fn bit_set(words: Seq<u64>, i: int) -> bool {
    (words[i / 64] >> ((i % 64) as u64)) & 1u64 == 1u64
}

/// Whether some word, hence some bit, of the sequence is set.
pub open spec fn has_none_words(words: Seq<u64>) -> bool {
    exists|j: int| 0 <= j < words.len() && words[j] != 0
}

/// The number of words that hold `len` bits: `len / 64` rounded up.
pub open spec fn word_count(len: nat) -> nat {
    if len % 64 == 0 {
        len / 64
    } else {
        len / 64 + 1
    }
}

/// A word whose lowest `r` bits are set and whose other bits are clear.
pub open spec fn low_mask(r: nat) -> u64 {
    if r >= 64 {
        u64::MAX
    } else {
        ((1u64 << (r as u64)) - 1) as u64
    }
}

/// The words of a bitmap over `len` rows where every row is present.
pub open spec fn full_words(len: nat) -> Seq<u64> {
    Seq::new(word_count(len), |j: int| 0u64)
}

/// The words of a bitmap over `len` rows where every row is missing; the bits
/// past `len` in the last word are clear.
pub open spec fn empty_words(len: nat) -> Seq<u64> {
    Seq::new(
        word_count(len),
        |j: int|
            if j < len / 64 {
                u64::MAX
            } else {
                low_mask(len % 64)
            },
    )
}

/// A set bit makes its word nonzero.
proof fn lemma_bit_set_word_nonzero(words: Seq<u64>, i: int)
    requires
        0 <= i < 64 * words.len(),
        bit_set(words, i),
    ensures
        has_none_words(words),
{
    let w = words[i / 64];
    let b = (i % 64) as u64;
    assert(((w >> b) & 1u64 == 1u64) ==> w != 0) by (bit_vector);
    assert(0 <= i / 64 < words.len());
}

/// In the words of `empty_words(len)` exactly the bits below `len` are set.
proof fn lemma_empty_words_bits(len: nat, i: int)
    requires
        0 <= i < 64 * word_count(len),
    ensures
        bit_set(empty_words(len), i) <==> i < len,
{
    let j = i / 64;
    let b = (i % 64) as u64;
    assert(0 <= j < word_count(len));
    if j < len / 64 {
        assert((0xffff_ffff_ffff_ffffu64 >> b) & 1u64 == 1u64) by (bit_vector)
            requires
                b < 64,
        ;
        assert(i < len);
    } else {
        let r = (len % 64) as u64;
        assert(j == len / 64);
        assert(len % 64 != 0);
        assert(((((1u64 << r) - 1) as u64 >> b) & 1u64 == 1u64) <==> b < r) by (bit_vector)
            requires
                b < 64,
                0 < r < 64,
        ;
        assert(i < len <==> b < r);
    }
}

/// A bitmap that marks which rows are missing: a set bit means the row is absent.
/// Row `i` is bit `i % 64` (counted from the least significant bit) of word `i / 64`.
/// The words are shared between clones and never change after construction.
#[derive(Debug, Clone, PartialEq)]
pub struct OptionMap(Rc<Vec<BitContainer>>);

/// The sum of the eight bytes of a word: zero exactly when the word is.
fn byte_sum(w: u64) -> (r: u64)
    ensures
        r <= 2040,
        r == 0 <==> w == 0,
{
    proof {
        assert((w & 0xff) <= 0xff && ((w >> 8) & 0xff) <= 0xff && ((w >> 16) & 0xff) <= 0xff
            && ((w >> 24) & 0xff) <= 0xff && ((w >> 32) & 0xff) <= 0xff && ((w >> 40) & 0xff)
            <= 0xff && ((w >> 48) & 0xff) <= 0xff && ((w >> 56) & 0xff) <= 0xff) by (bit_vector);
        assert(w == 0 <==> ((w & 0xff) == 0 && ((w >> 8) & 0xff) == 0 && ((w >> 16) & 0xff) == 0
            && ((w >> 24) & 0xff) == 0 && ((w >> 32) & 0xff) == 0 && ((w >> 40) & 0xff) == 0
            && ((w >> 48) & 0xff) == 0 && ((w >> 56) & 0xff) == 0)) by (bit_vector);
    }
    (w & 0xff) + ((w >> 8) & 0xff) + ((w >> 16) & 0xff) + ((w >> 24) & 0xff) + ((w >> 32) & 0xff)
        + ((w >> 40) & 0xff) + ((w >> 48) & 0xff) + ((w >> 56) & 0xff)
}

/// The sum of the bytes of `words[lo..hi]`: zero exactly when all those words are.
fn range_byte_sum(words: &Vec<u64>, lo: usize, hi: usize) -> (r: u64)
    requires
        lo <= hi <= words@.len(),
        hi - lo <= OptionMap::NONES_CHUNK_SIZE / WORD_BYTES,
    ensures
        r == 0 <==> forall|j: int| lo <= j < hi ==> words@[j] == 0,
{
    let mut acc: u64 = 0;
    let mut i: usize = lo;
    while i < hi
        invariant
            lo <= i <= hi <= words@.len(),
            hi - lo <= 320,
            acc <= 2040 * (i - lo),
            acc == 0 <==> forall|j: int| lo <= j < i ==> words@[j] == 0,
        decreases hi - i,
    {
        let s = byte_sum(words[i]);
        acc = acc + s;
        i = i + 1;
    }
    acc
}

impl OptionMap {
    /// Bytes scanned together by `contains_nones` before it decides.
    pub const NONES_CHUNK_SIZE: usize = 2560;

    /// Bits held by one `BitContainer`.
    pub const STORAGE_BITS: u32 = 64;

    /// The words of the bitmap, in order.
    pub closed spec fn words(&self) -> Seq<u64> {
        (*self.0)@
    }

    /// Whether the bitmap marks some row as missing.
    pub open spec fn has_none(&self) -> bool {
        has_none_words(self.words())
    }

    /// Constructs a bitmap over `len` rows where every row is present: all bits clear.
    pub fn new_full(len: usize) -> (r: Self)
        ensures
            r.words() == full_words(len as nat),
    {
        let n: usize = if len % 64 == 0 {
            len / 64
        } else {
            len / 64 + 1
        };
        let mut v: Vec<u64> = Vec::new();
        let mut j: usize = 0;
        while j < n
            invariant
                j <= n,
                n == word_count(len as nat),
                v@ == full_words(len as nat).subrange(0, j as int),
            decreases n - j,
        {
            v.push(0);
            j = j + 1;
        }
        proof {
            assert(v@ =~= full_words(len as nat));
        }
        OptionMap(Rc::new(v))
    }

    /// Constructs a bitmap over `len` rows where every row is missing: the
    /// first `len` bits set, the bits after them in the last word clear.
    pub fn new_empty(len: usize) -> (r: Self)
        ensures
            r.words() == empty_words(len as nat),
            forall|i: int|
                0 <= i < 64 * r.words().len() ==> (bit_set(r.words(), i) <==> i < len),
    {
        let full: usize = len / 64;
        let rem: usize = len % 64;
        let mut v: Vec<u64> = Vec::new();
        let mut j: usize = 0;
        while j < full
            invariant
                j <= full,
                full == len / 64,
                rem == len % 64,
                v@ == empty_words(len as nat).subrange(0, j as int),
            decreases full - j,
        {
            v.push(u64::MAX);
            j = j + 1;
        }
        if rem != 0 {
            let sh: u64 = rem as u64;
            assert(1u64 << sh >= 1) by (bit_vector)
                requires
                    sh < 64,
            ;
            let last: u64 = (1u64 << sh) - 1;
            v.push(last);
        }
        proof {
            assert(v@ =~= empty_words(len as nat));
            assert forall|i: int| 0 <= i < 64 * v@.len() implies (bit_set(v@, i) <==> i < len) by {
                lemma_empty_words_bits(len as nat, i);
            }
        }
        OptionMap(Rc::new(v))
    }

    /// Whether some row is marked missing. The words are scanned in chunks of
    /// `Self::NONES_CHUNK_SIZE` bytes, the tail that fills no whole chunk first; a
    /// chunk whose bytes sum to nonzero holds a set bit and ends the scan.
    pub fn contains_nones(&self) -> (r: bool)
        ensures
            r == self.has_none(),
    {
        let words: &Vec<u64> = &*self.0;
        let n: usize = words.len();
        let per_chunk: usize = Self::NONES_CHUNK_SIZE / WORD_BYTES;
        assert(per_chunk == 320);
        let chunks: usize = n / per_chunk;
        let tail: usize = chunks * per_chunk;
        proof {
            assert(tail <= n) by (nonlinear_arith)
                requires
                    chunks == n / 320,
                    tail == chunks * 320,
            ;
            assert(n - tail < 320) by (nonlinear_arith)
                requires
                    chunks == n / 320,
                    tail == chunks * 320,
            ;
        }
        if range_byte_sum(words, tail, n) != 0 {
            return true;
        }
        let mut c: usize = 0;
        while c < chunks
            invariant
                words@ == self.words(),
                n == words@.len(),
                per_chunk == 320,
                chunks == n / 320,
                tail == chunks * 320,
                tail <= n,
                c <= chunks,
                forall|j: int| tail <= j < n ==> words@[j] == 0,
                forall|j: int| 0 <= j < c * 320 ==> words@[j] == 0,
            decreases chunks - c,
        {
            let lo: usize = c * per_chunk;
            proof {
                assert((c + 1) * 320 <= chunks * 320) by (nonlinear_arith)
                    requires
                        c < chunks,
                ;
            }
            let hi: usize = lo + per_chunk;
            if range_byte_sum(words, lo, hi) != 0 {
                return true;
            }
            c = c + 1;
        }
        proof {
            assert forall|j: int| 0 <= j < n implies words@[j] == 0 by {
                if j < tail {
                    assert(j < c * 320);
                }
            }
        }
        false
    }

    /// Whether row `idx` is marked missing; a row past the last word is not.
    pub fn is_none(&self, idx: usize) -> (r: bool)
        ensures
            r == (idx / 64 < self.words().len() && bit_set(self.words(), idx as int)),
    {
        let words: &Vec<u64> = &*self.0;
        let j: usize = idx / 64;
        if j < words.len() {
            let b: u64 = (idx % 64) as u64;
            (words[j] >> b) & 1 == 1
        } else {
            false
        }
    }

    /// Every bit of the bitmap, in row order.
    pub fn as_bits(&self) -> (r: Vec<bool>)
        requires
            64 * self.words().len() <= usize::MAX,
        ensures
            r@.len() == 64 * self.words().len(),
            forall|i: int| 0 <= i < r@.len() ==> r@[i] == bit_set(self.words(), i),
    {
        let words: &Vec<u64> = &*self.0;
        let total: usize = 64 * words.len();
        let mut bits: Vec<bool> = Vec::new();
        let mut i: usize = 0;
        while i < total
            invariant
                words@ == self.words(),
                total == 64 * words@.len(),
                i <= total,
                bits@.len() == i,
                forall|k: int| 0 <= k < i ==> bits@[k] == bit_set(words@, k),
            decreases total - i,
        {
            let b: u64 = (i % 64) as u64;
            bits.push((words[i / 64] >> b) & 1 == 1);
            i = i + 1;
        }
        bits
    }

    /// Constructs a bitmap from the given words, kept as they are.
    pub fn from_slice(slice: &[BitContainer]) -> (r: Self)
        ensures
            r.words() == slice@,
    {
        let mut v: Vec<u64> = Vec::new();
        let mut i: usize = 0;
        while i < slice.len()
            invariant
                i <= slice@.len(),
                v@ == slice@.subrange(0, i as int),
            decreases slice@.len() - i,
        {
            v.push(slice[i]);
            i = i + 1;
        }
        OptionMap(Rc::new(v))
    }
}

/// A bitmap built with `new_full` reports no missing row, and one built with
/// `new_empty` over at least one row reports a missing row.
pub proof fn lemma_full_and_empty(k: nat)
    ensures
        !has_none_words(full_words(k)),
        k > 0 ==> has_none_words(empty_words(k)),
{
    if k > 0 {
        assert(0 < 64 * word_count(k));
        lemma_empty_words_bits(k, 0);
        lemma_bit_set_word_nonzero(empty_words(k), 0);
    }
}

/// Words with some bit set report a missing row; words that are all zero do not.
pub proof fn lemma_from_slice_detects(words: Seq<u64>, p: int)
    ensures
        0 <= p < 64 * words.len() && bit_set(words, p) ==> has_none_words(words),
        (forall|j: int| 0 <= j < words.len() ==> words[j] == 0) ==> !has_none_words(words),
{
    if 0 <= p < 64 * words.len() && bit_set(words, p) {
        lemma_bit_set_word_nonzero(words, p);
    }
}

} // verus!
