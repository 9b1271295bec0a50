//! Rows stored as a structure of arrays: each field of a row type in its own
//! column, with checked single-row reads, unchecked batch reads, iteration,
//! and a bitmap of missing rows.

mod container;
mod group;
mod optional;
mod primitive;
mod protocol;
mod sequence;

pub use group::{lemma_nested_reads, ABCPointers, ABPointers, ABC, AB};
pub use optional::{
    bit_set, empty_words, full_words, has_none_words, lemma_from_slice_detects,
    lemma_full_and_empty, low_mask, word_count, BitContainer, OptionMap,
};
pub use container::{
    lemma_chunk_matches_rows, lemma_chunked_count, lemma_write_then_read, row_missing,
    whole_chunk_rows, ChunkedArrayIter, StructOfArrays, StructOfArraysIter,
    StructOfMaybeArrays,
};
pub use protocol::{ArrayPtr, ArrayRow};
pub use sequence::{Sequence, A};
