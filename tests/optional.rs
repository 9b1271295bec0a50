use columnar::{OptionMap, StructOfArrays, StructOfMaybeArrays};

const NONES_CHUNK_SIZE: usize = OptionMap::NONES_CHUNK_SIZE;

#[test]
fn test_ff() {
    assert_eq!(1, 1);
}

#[test]
fn test_foo() {}

#[test]
fn full_has_no_nones() {
    for k in [0, 1, 63, 64, 65, NONES_CHUNK_SIZE - 1, NONES_CHUNK_SIZE, NONES_CHUNK_SIZE + 1] {
        assert!(!OptionMap::new_full(k).contains_nones(), "k = {}", k);
    }
    let bits = NONES_CHUNK_SIZE * 8;
    for k in [bits - 1, bits, bits + 1, 64 * bits - 1, 64 * bits, 64 * bits + 1] {
        assert!(!OptionMap::new_full(k).contains_nones(), "k = {}", k);
    }
}

#[test]
fn empty_has_nones() {
    for k in [1, 63, 64, 65, NONES_CHUNK_SIZE - 1, NONES_CHUNK_SIZE, NONES_CHUNK_SIZE + 1] {
        assert!(OptionMap::new_empty(k).contains_nones(), "k = {}", k);
    }
    let bits = NONES_CHUNK_SIZE * 8;
    for k in [bits - 1, bits, bits + 1, 64 * bits - 1, 64 * bits, 64 * bits + 1] {
        assert!(OptionMap::new_empty(k).contains_nones(), "k = {}", k);
    }
}

#[test]
fn empty_over_no_rows_has_no_nones() {
    assert!(!OptionMap::new_empty(0).contains_nones());
}

#[test]
fn new_empty_sets_exactly_the_rows() {
    let m = OptionMap::new_empty(70);
    let bits = m.as_bits();
    assert_eq!(bits.len(), 128);
    for i in 0..128 {
        assert_eq!(bits[i], i < 70, "bit {}", i);
    }
    assert_eq!(m, OptionMap::from_slice(&[u64::MAX, (1u64 << 6) - 1]));
}

#[test]
fn new_full_word_count() {
    assert_eq!(OptionMap::new_full(0).as_bits().len(), 0);
    assert_eq!(OptionMap::new_full(1).as_bits().len(), 64);
    assert_eq!(OptionMap::new_full(64).as_bits().len(), 64);
    assert_eq!(OptionMap::new_full(65).as_bits().len(), 128);
}

#[test]
fn from_slice_all_zero_has_no_nones() {
    assert!(!OptionMap::from_slice(&[0; 10]).contains_nones());
    assert!(!OptionMap::from_slice(&[]).contains_nones());
    assert!(!OptionMap::from_slice(&vec![0; 1000]).contains_nones());
}

#[test]
fn from_slice_single_bit_has_nones() {
    for len in [1usize, 10, 319, 320, 321, 700, 1000] {
        for word in [0, len / 2, len - 1] {
            for bit in [0u32, 7, 8, 31, 63] {
                let mut words = vec![0u64; len];
                words[word] = 1u64 << bit;
                assert!(
                    OptionMap::from_slice(&words).contains_nones(),
                    "len {} word {} bit {}",
                    len,
                    word,
                    bit
                );
            }
        }
    }
}

#[test]
fn from_slice_bytes_that_would_wrap_still_count() {
    let words = vec![0x8080u64; 400];
    assert!(OptionMap::from_slice(&words).contains_nones());
}

#[test]
fn as_bits_is_lsb_first() {
    let m = OptionMap::from_slice(&[0b101, 1u64 << 63]);
    let bits = m.as_bits();
    assert_eq!(bits.len(), 128);
    assert!(bits[0]);
    assert!(!bits[1]);
    assert!(bits[2]);
    assert!(bits[127]);
    assert_eq!(bits.iter().filter(|b| **b).count(), 3);
}

#[test]
fn is_none_reads_one_row() {
    let m = OptionMap::from_slice(&[0b10]);
    assert!(!m.is_none(0));
    assert!(m.is_none(1));
    assert!(!m.is_none(64));
}

#[test]
fn maybe_arrays_rows_are_missing() {
    let m = StructOfMaybeArrays::<Vec<u64>>::new(5);
    assert_eq!(m.row(0), None);
    assert_eq!(m.row(4), None);
    assert_eq!(m.row(5), None);
}

#[test]
fn maybe_arrays_with_nones_do_not_convert() {
    let m = StructOfMaybeArrays::<Vec<u64>>::new(5);
    let back = StructOfArrays::try_from_maybe(m.clone());
    assert_eq!(back, Err(m));
}

#[test]
fn maybe_arrays_without_rows_convert() {
    let m = StructOfMaybeArrays::<Vec<u64>>::new(0);
    let soa = StructOfArrays::try_from_maybe(m).unwrap();
    assert_eq!(soa.len(), 0);
    assert_eq!(soa.row(0), None);
}
