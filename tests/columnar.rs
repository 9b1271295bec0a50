use columnar::{ArrayPtr, StructOfArrays, ABCPointers, ABPointers, ABC, AB};

fn filled_u64(len: usize) -> StructOfArrays<Vec<u64>> {
    let mut soa = StructOfArrays::<Vec<u64>>::new(len);
    for i in 0..len {
        soa.set_row(i, (i as u64) * 10);
    }
    soa
}

fn ab(i: usize) -> AB {
    AB { a: i as u64, b: -(i as i64) * 3 }
}

fn abc(i: usize) -> ABC {
    ABC { ab: ab(i), c: (i as u32) + 100 }
}

fn filled_abc(len: usize) -> StructOfArrays<ABCPointers> {
    let mut soa = StructOfArrays::<ABCPointers>::new(len);
    for i in 0..len {
        soa.set_row(i, abc(i));
    }
    soa
}

#[test]
fn test_size() {
    let v = vec![0.0; 1023];
    assert_eq!(v.capacity(), 1023);

    let bv: Box<[_]> = Box::from(v);
    assert_eq!(bv.len(), 1023);
}

#[test]
fn row_present_only_below_len() {
    let soa = filled_u64(10);
    assert_eq!(soa.len(), 10);
    assert_eq!(soa.row(0), Some(0));
    assert_eq!(soa.row(9), Some(90));
    assert_eq!(soa.row(10), None);
    assert_eq!(soa.row(usize::MAX), None);
}

#[test]
fn row_of_empty_collection_is_absent() {
    let soa = StructOfArrays::<Vec<u64>>::new(0);
    assert_eq!(soa.len(), 0);
    assert_eq!(soa.row(0), None);
}

#[test]
fn write_then_read_primitive_and_nested() {
    let mut soa = StructOfArrays::<ABPointers>::new(4);
    soa.set_row(2, AB { a: 7, b: -7 });
    assert_eq!(soa.row(2), Some(AB { a: 7, b: -7 }));
    assert_eq!(soa.inner().a[2], 7);
    assert_eq!(soa.inner().b[2], -7);

    let mut nested = StructOfArrays::<ABCPointers>::new(3);
    let value = ABC { ab: AB { a: 1, b: -2 }, c: 3 };
    nested.set_row(1, value);
    assert_eq!(nested.row(1), Some(value));
    assert_eq!(nested.inner().ab.a[1], 1);
    assert_eq!(nested.inner().ab.b[1], -2);
    assert_eq!(nested.inner().c[1], 3);
}

#[test]
fn unchecked_row_reads_the_written_value() {
    let soa = filled_abc(5);
    assert_eq!(soa.inner().row(4), abc(4));
    assert_eq!(soa.inner().row(0), abc(0));
}

#[test]
fn overwrite_keeps_other_rows() {
    let mut soa = filled_u64(3);
    soa.set_row(1, 5);
    assert_eq!(soa.row(0), Some(0));
    assert_eq!(soa.row(1), Some(5));
    assert_eq!(soa.row(2), Some(20));
}

#[test]
fn chunk_matches_single_reads() {
    let soa = filled_u64(10);
    let c: [u64; 3] = soa.chunk::<3>(2);
    assert_eq!(c, [20, 30, 40]);
    let last: [u64; 4] = soa.chunk::<4>(6);
    assert_eq!(last, [60, 70, 80, 90]);
    let none: [u64; 0] = soa.chunk::<0>(10);
    assert_eq!(none.len(), 0);
}

#[test]
fn nested_chunk_reassembles_rows() {
    let soa = filled_abc(8);
    let c: [ABC; 3] = soa.chunk::<3>(4);
    assert_eq!(c, [abc(4), abc(5), abc(6)]);
    for k in 0..3 {
        assert_eq!(Some(c[k]), soa.row(4 + k));
    }
}

#[test]
fn iter_yields_rows_in_order() {
    let soa = filled_u64(5);
    let mut it = soa.iter();
    assert_eq!(it.len(), 5);
    let mut seen = Vec::new();
    while let Some(x) = it.next() {
        seen.push(x);
        assert_eq!(it.len(), 5 - seen.len());
    }
    assert_eq!(seen, vec![0, 10, 20, 30, 40]);
    assert_eq!(it.next(), None);
    assert_eq!(it.len(), 0);
}

#[test]
fn iter_from_back_yields_reverse() {
    let soa = filled_u64(5);
    let mut it = soa.iter();
    let mut seen = Vec::new();
    while let Some(x) = it.next_back() {
        seen.push(x);
        assert_eq!(it.len(), 5 - seen.len());
    }
    assert_eq!(seen, vec![40, 30, 20, 10, 0]);
    assert_eq!(it.next_back(), None);
}

#[test]
fn iter_from_both_ends_meets_once() {
    let soa = filled_u64(4);
    let mut it = soa.iter();
    assert_eq!(it.next(), Some(0));
    assert_eq!(it.next_back(), Some(30));
    assert_eq!(it.len(), 2);
    assert_eq!(it.next(), Some(10));
    assert_eq!(it.next_back(), Some(20));
    assert_eq!(it.next(), None);
    assert_eq!(it.next_back(), None);
}

#[test]
fn iter_restarts() {
    let soa = filled_u64(3);
    let first: Vec<u64> = {
        let mut it = soa.iter();
        let mut v = Vec::new();
        while let Some(x) = it.next() {
            v.push(x);
        }
        v
    };
    assert_eq!(first, soa.transpose());
    assert_eq!(soa.transpose(), vec![0, 10, 20]);
}

#[test]
fn transpose_nested_rows() {
    let soa = filled_abc(3);
    assert_eq!(soa.transpose(), vec![abc(0), abc(1), abc(2)]);
}

#[test]
fn iter_chunked_drops_trailing_rows() {
    let soa = filled_u64(10);
    let mut it = soa.iter_chunked::<3>();
    let mut seen = Vec::new();
    while let Some(x) = it.next() {
        seen.push(x);
    }
    assert_eq!(seen.len(), 9);
    assert_eq!(seen, vec![0, 10, 20, 30, 40, 50, 60, 70, 80]);
    assert_eq!(it.next(), None);
}

#[test]
fn iter_chunked_exact_multiple_and_short() {
    let soa = filled_u64(6);
    let mut it = soa.iter_chunked::<2>();
    let mut n = 0;
    while let Some(_) = it.next() {
        n += 1;
    }
    assert_eq!(n, 6);

    let short = filled_u64(2);
    let mut it = short.iter_chunked::<3>();
    assert_eq!(it.next(), None);
}

#[test]
fn iter_chunked_nested_rows() {
    let soa = filled_abc(7);
    let mut it = soa.iter_chunked::<2>();
    let mut seen = Vec::new();
    while let Some(x) = it.next() {
        seen.push(x);
    }
    assert_eq!(seen, (0..6).map(abc).collect::<Vec<_>>());
}
