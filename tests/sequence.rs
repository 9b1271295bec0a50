use columnar::{Sequence, A};

#[test]
fn single_col() {
    let a1 = A { a: vec![0_u64] };
    assert_eq!(a1.a.len(), 1);
    assert_eq!(a1.a.num_chunks(), 1);
    assert_eq!(a1.a[0], 0);
    assert_eq!(a1.a.into_iter().collect::<Vec<_>>(), vec![0_u64]);
}

#[test]
fn sequence_len_counts_elements() {
    let v: Vec<u64> = vec![1, 2, 3];
    assert_eq!(Sequence::len(&v), 3);
    assert_eq!(v.num_chunks(), 1);
}
