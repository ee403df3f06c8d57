use chunked_gather::array::{ChunkedArray, IdxCa, PrimitiveArray};
use chunked_gather::bounds::{check_bounds, check_bounds_ca, check_bounds_nulls, GatherError};
use chunked_gather::gather::gather_idx_array_unchecked;
use chunked_gather::resolve::{cumulative_lengths, resolve_chunked_idx};
use chunked_gather::sorted::{_update_gather_sorted_flag, IsSorted};

fn dense(values: Vec<u64>) -> PrimitiveArray<u64> {
    PrimitiveArray { values, validity: None }
}

fn nullable(values: Vec<u64>, validity: Vec<bool>) -> PrimitiveArray<u64> {
    PrimitiveArray { values, validity: Some(validity) }
}

fn column(chunks: Vec<PrimitiveArray<u64>>, sorted: IsSorted) -> ChunkedArray<u64> {
    ChunkedArray { chunks, sorted }
}

fn idx_column(chunks: Vec<PrimitiveArray<u32>>, sorted: IsSorted) -> IdxCa {
    ChunkedArray { chunks, sorted }
}

fn rows(a: &ChunkedArray<u64>) -> Vec<Option<u64>> {
    let mut out = Vec::new();
    for c in &a.chunks {
        for i in 0..c.values.len() {
            out.push(c.get(i));
        }
    }
    out
}

#[test]
fn single_chunk_with_null_index() {
    let target = column(vec![dense(vec![10, 20, 30, 40])], IsSorted::Not);
    let idx = idx_column(
        vec![PrimitiveArray { values: vec![3, 0, 0, 1], validity: Some(vec![true, true, false, true]) }],
        IsSorted::Not,
    );
    let out = target.take(&idx).unwrap();
    assert_eq!(rows(&out), vec![Some(40), Some(10), None, Some(20)]);
    assert_eq!(out.chunks.len(), 1);
    assert_eq!(out.chunks[0].validity, Some(vec![true, true, false, true]));
}

#[test]
fn two_chunks_dense_index() {
    let target = column(vec![dense(vec![10, 20]), dense(vec![30, 40])], IsSorted::Not);
    let idx = idx_column(vec![PrimitiveArray::new(vec![2, 0, 3])], IsSorted::Not);
    let out = target.take(&idx).unwrap();
    assert_eq!(rows(&out), vec![Some(30), Some(10), Some(40)]);
    assert!(out.chunks[0].validity.is_none());
    let via_slice = target.take_slice(&[2, 0, 3]).unwrap();
    assert_eq!(rows(&via_slice), vec![Some(30), Some(10), Some(40)]);
}

#[test]
fn out_of_bounds_index_is_refused() {
    let target = column(vec![dense(vec![1, 2, 3])], IsSorted::Not);
    let idx = idx_column(vec![PrimitiveArray::new(vec![5])], IsSorted::Not);
    assert_eq!(target.take(&idx).err(), Some(GatherError::OutOfBounds));
    assert_eq!(target.take_slice(&[0, 3]).err(), Some(GatherError::OutOfBounds));
}

#[test]
fn null_slot_index_is_not_checked() {
    let target = column(vec![dense(vec![1, 2, 3])], IsSorted::Not);
    let idx = idx_column(
        vec![PrimitiveArray { values: vec![1, 99], validity: Some(vec![true, false]) }],
        IsSorted::Not,
    );
    let out = target.take(&idx).unwrap();
    assert_eq!(rows(&out), vec![Some(2), None]);
}

#[test]
fn descending_through_descending_is_ascending() {
    let target = column(vec![dense(vec![40, 30, 20, 10])], IsSorted::Descending);
    let idx = idx_column(vec![PrimitiveArray::new(vec![3, 2, 0])], IsSorted::Descending);
    let out = target.take(&idx).unwrap();
    assert_eq!(out.sorted, IsSorted::Ascending);
    assert_eq!(rows(&out), vec![Some(10), Some(20), Some(40)]);
}

#[test]
fn sorted_flag_table() {
    let cases = [
        (IsSorted::Ascending, IsSorted::Ascending, IsSorted::Ascending),
        (IsSorted::Ascending, IsSorted::Descending, IsSorted::Descending),
        (IsSorted::Ascending, IsSorted::Not, IsSorted::Not),
        (IsSorted::Descending, IsSorted::Ascending, IsSorted::Descending),
        (IsSorted::Descending, IsSorted::Descending, IsSorted::Ascending),
        (IsSorted::Descending, IsSorted::Not, IsSorted::Not),
        (IsSorted::Not, IsSorted::Ascending, IsSorted::Not),
        (IsSorted::Not, IsSorted::Descending, IsSorted::Not),
        (IsSorted::Not, IsSorted::Not, IsSorted::Not),
    ];
    for (t, i, r) in cases {
        assert_eq!(_update_gather_sorted_flag(t, i), r);
    }
}

#[test]
fn dense_gather_has_no_validity() {
    let target = column(vec![dense(vec![5, 6, 7])], IsSorted::Not);
    let idx = idx_column(vec![PrimitiveArray::new(vec![2, 2, 1, 0])], IsSorted::Not);
    let out = target.take(&idx).unwrap();
    assert_eq!(rows(&out), vec![Some(7), Some(7), Some(6), Some(5)]);
    assert!(out.chunks.iter().all(|c| c.validity.is_none()));
}

#[test]
fn null_target_row_gives_null() {
    let target = column(
        vec![dense(vec![1, 2]), nullable(vec![3, 4], vec![false, true])],
        IsSorted::Not,
    );
    let idx = idx_column(vec![PrimitiveArray::new(vec![2, 3, 0])], IsSorted::Not);
    let out = target.take(&idx).unwrap();
    assert_eq!(rows(&out), vec![None, Some(4), Some(1)]);
    assert!(out.chunks[0].validity.is_some());
}

#[test]
fn unchecked_agrees_with_checked() {
    let target = column(
        vec![dense(vec![1, 2]), nullable(vec![3, 4, 5], vec![true, false, true])],
        IsSorted::Ascending,
    );
    let idx = idx_column(
        vec![
            PrimitiveArray { values: vec![4, 0, 7], validity: Some(vec![true, true, false]) },
            PrimitiveArray::new(vec![3, 1]),
        ],
        IsSorted::Not,
    );
    let checked = target.take(&idx).unwrap();
    let unchecked = target.take_unchecked(&idx);
    assert_eq!(rows(&checked), rows(&unchecked));
    assert_eq!(rows(&checked), vec![Some(5), Some(1), None, None, Some(2)]);
    assert_eq!(checked.chunks.len(), 2);
    assert_eq!(checked.sorted, IsSorted::Not);
}

#[test]
fn chunking_does_not_change_result() {
    let one = column(vec![dense(vec![1, 2, 3, 4, 5, 6])], IsSorted::Not);
    let many = column(
        vec![dense(vec![1]), dense(vec![]), dense(vec![2, 3, 4]), dense(vec![5, 6])],
        IsSorted::Not,
    );
    let idx = idx_column(
        vec![PrimitiveArray { values: vec![5, 0, 3, 2, 9, 1, 4], validity: Some(vec![true, true, true, true, false, true, true]) }],
        IsSorted::Not,
    );
    assert_eq!(rows(&one.take(&idx).unwrap()), rows(&many.take(&idx).unwrap()));
    assert_eq!(
        rows(&many.take(&idx).unwrap()),
        vec![Some(6), Some(1), Some(4), Some(3), None, Some(2), Some(5)]
    );
}

#[test]
fn empty_index_gives_empty_column() {
    let target = column(vec![dense(vec![1, 2])], IsSorted::Ascending);
    let idx = idx_column(vec![PrimitiveArray::new(vec![])], IsSorted::Ascending);
    let out = target.take(&idx).unwrap();
    assert_eq!(rows(&out), Vec::<Option<u64>>::new());
    assert_eq!(out.sorted, IsSorted::Ascending);
}

#[test]
fn bounds_checks() {
    assert!(check_bounds(&[0, 1, 2], 3).is_ok());
    assert_eq!(check_bounds(&[0, 3], 3), Err(GatherError::OutOfBounds));
    let mut values: Vec<u32> = (0..70).collect();
    let mut validity = vec![true; 70];
    values[65] = 1000;
    validity[65] = false;
    let idx = PrimitiveArray { values: values.clone(), validity: Some(validity.clone()) };
    assert!(check_bounds_nulls(&idx, 70).is_ok());
    validity[65] = true;
    let idx = PrimitiveArray { values, validity: Some(validity) };
    assert_eq!(check_bounds_nulls(&idx, 70), Err(GatherError::OutOfBounds));
    let ca = idx_column(vec![PrimitiveArray::new(vec![1]), idx], IsSorted::Not);
    assert_eq!(check_bounds_ca(&ca, 70), Err(GatherError::OutOfBounds));
}

#[test]
fn cumulative_lengths_and_resolution() {
    let chunks = vec![dense(vec![1, 2]), dense(vec![]), dense(vec![3, 4, 5])];
    let cum = cumulative_lengths(&chunks);
    assert_eq!(cum, vec![0, 2, 2]);
    assert_eq!(resolve_chunked_idx(0, &cum), (0, 0));
    assert_eq!(resolve_chunked_idx(1, &cum), (0, 1));
    assert_eq!(resolve_chunked_idx(2, &cum), (2, 0));
    assert_eq!(resolve_chunked_idx(4, &cum), (2, 2));
}

#[test]
fn gather_from_slice_of_chunks() {
    let chunks = vec![dense(vec![7, 8]), nullable(vec![9, 10], vec![true, false])];
    let out = gather_idx_array_unchecked(&chunks, true, &[3, 2, 1]);
    assert_eq!(out.validity, Some(vec![false, true, true]));
    assert_eq!(out.values[1], 9);
    assert_eq!(out.values[2], 8);
    assert_eq!(target_len(&column(chunks, IsSorted::Not)), 4);
}

fn target_len(a: &ChunkedArray<u64>) -> usize {
    a.len()
}

#[test]
fn column_without_chunks_and_empty_index() {
    let target = column(vec![], IsSorted::Not);
    let idx = idx_column(vec![PrimitiveArray::new(vec![])], IsSorted::Not);
    let out = target.take(&idx).unwrap();
    assert_eq!(rows(&out), Vec::<Option<u64>>::new());
    assert_eq!(out.chunks.len(), 1);
    let nulls = idx_column(vec![PrimitiveArray { values: vec![7], validity: Some(vec![false]) }], IsSorted::Not);
    assert_eq!(rows(&target.take(&nulls).unwrap()), vec![None]);
    assert_eq!(target.take_slice(&[0]).err(), Some(GatherError::OutOfBounds));
}
