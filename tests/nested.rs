use chunked_gather::array::{ChunkedArray, IdxCa, PrimitiveArray};
use chunked_gather::binview::{BinaryViewArray, StringChunked};
use chunked_gather::bounds::GatherError;
use chunked_gather::fixed::{ArrayChunked, FixedSizeListArray};
use chunked_gather::gather::NullableIdxSize;
use chunked_gather::list::{ListArray, ListChunked};
use chunked_gather::series::{checked_gather, unchecked_gather, Series};
use chunked_gather::sorted::IsSorted;
use chunked_gather::structs::{StructArray, StructChunked};

fn idx(values: Vec<u32>, validity: Option<Vec<bool>>) -> IdxCa {
    ChunkedArray { chunks: vec![PrimitiveArray { values, validity }], sorted: IsSorted::Not }
}

fn list_rows(a: &ListArray<i64>) -> Vec<Option<Vec<i64>>> {
    (0..a.offsets.len() - 1)
        .map(|i| {
            let valid = a.validity.as_ref().map_or(true, |v| v[i]);
            if valid {
                Some(a.values[a.offsets[i]..a.offsets[i + 1]].to_vec())
            } else {
                None
            }
        })
        .collect()
}

fn fixed_rows(a: &FixedSizeListArray<i64>) -> Vec<Option<Vec<i64>>> {
    (0..a.length)
        .map(|i| {
            let valid = a.validity.as_ref().map_or(true, |v| v[i]);
            if valid {
                Some(a.values[i * a.width..(i + 1) * a.width].to_vec())
            } else {
                None
            }
        })
        .collect()
}

fn struct_rows(a: &StructArray<i64>) -> Vec<Option<Vec<Option<i64>>>> {
    (0..a.length)
        .map(|i| {
            let valid = a.validity.as_ref().map_or(true, |v| v[i]);
            if valid {
                Some(a.fields.iter().map(|f| f.get(i)).collect())
            } else {
                None
            }
        })
        .collect()
}

#[test]
fn lists_from_two_chunks() {
    let first = ListArray { offsets: vec![0, 2, 2], values: vec![1, 2], validity: Some(vec![true, false]) };
    let second = ListArray { offsets: vec![0, 3], values: vec![7, 8, 9], validity: None };
    let col = ListChunked { chunks: vec![first, second], sorted: IsSorted::Not };
    let out = col.take(&idx(vec![2, 1, 0, 5], Some(vec![true, true, true, false]))).unwrap();
    assert_eq!(out.chunks.len(), 1);
    assert_eq!(list_rows(&out.chunks[0]), vec![Some(vec![7, 8, 9]), None, Some(vec![1, 2]), None]);
    assert_eq!(col.take(&idx(vec![3], None)).err(), Some(GatherError::OutOfBounds));
}

#[test]
fn fixed_size_lists_from_two_chunks() {
    let first = FixedSizeListArray { width: 2, length: 2, values: vec![1, 2, 3, 4], validity: None };
    let second = FixedSizeListArray { width: 2, length: 1, values: vec![5, 6], validity: Some(vec![false]) };
    let col = ArrayChunked { chunks: vec![first, second], sorted: IsSorted::Not };
    let merged = col.rechunk();
    assert_eq!(fixed_rows(&merged), vec![Some(vec![1, 2]), Some(vec![3, 4]), None]);
    let out = col.take_unchecked(&idx(vec![1, 2, 0], None));
    assert_eq!(fixed_rows(&out.chunks[0]), vec![Some(vec![3, 4]), None, Some(vec![1, 2])]);
}

#[test]
fn struct_rows_from_two_chunks() {
    let first = StructArray {
        fields: vec![PrimitiveArray::new(vec![1, 2]), PrimitiveArray::new(vec![10, 20])],
        length: 2,
        validity: None,
    };
    let second = StructArray {
        fields: vec![
            PrimitiveArray { values: vec![3, 4], validity: Some(vec![false, true]) },
            PrimitiveArray::new(vec![30, 40]),
        ],
        length: 2,
        validity: Some(vec![true, false]),
    };
    let col = StructChunked { chunks: vec![first, second], sorted: IsSorted::Not };
    let out = col.take(&idx(vec![2, 0, 3, 9], Some(vec![true, true, true, false]))).unwrap();
    assert_eq!(
        struct_rows(&out.chunks[0]),
        vec![Some(vec![None, Some(30)]), Some(vec![Some(1), Some(10)]), None, None]
    );
}

#[test]
fn dispatch_by_category() {
    let ints = Series::Int64(ChunkedArray { chunks: vec![PrimitiveArray::new(vec![5, 6, 7])], sorted: IsSorted::Ascending });
    let index = ChunkedArray { chunks: vec![PrimitiveArray::new(vec![2u32, 0])], sorted: IsSorted::Descending };
    match checked_gather(&ints, &index).unwrap() {
        Series::Int64(out) => {
            assert_eq!(out.chunks[0].values, vec![7, 5]);
            assert_eq!(out.sorted, IsSorted::Descending);
        },
        _ => panic!("category changed"),
    }
    let text = Series::String(StringChunked::from_strs(&vec!["a", "bb", "ccc"]));
    assert!(matches!(checked_gather(&text, &idx(vec![5], None)), Err(GatherError::OutOfBounds)));
    match unchecked_gather(&text, &idx(vec![2, 1], None)) {
        Series::String(out) => {
            let c: &BinaryViewArray = &out.inner.chunks[0];
            let v = c.views[0];
            assert_eq!(&c.buffers[v.buffer_idx][v.offset..v.offset + v.length], b"ccc");
        },
        _ => panic!("category changed"),
    }
}

#[test]
fn nullable_indices_become_validity() {
    let raw = vec![NullableIdxSize { inner: 2 }, NullableIdxSize { inner: u32::MAX }, NullableIdxSize { inner: 0 }];
    let target = ChunkedArray { chunks: vec![PrimitiveArray::new(vec![4u64, 5, 6])], sorted: IsSorted::Not };
    let out = ChunkedArray::with_nullable_idx(&raw, |ca| target.take(ca).unwrap());
    let got: Vec<Option<u64>> = (0..3).map(|i| out.chunks[0].get(i)).collect();
    assert_eq!(got, vec![Some(6), None, Some(4)]);
}

#[test]
fn index_column_rechunk() {
    let ca: IdxCa = ChunkedArray {
        chunks: vec![PrimitiveArray::new(vec![1, 2]), PrimitiveArray { values: vec![3], validity: Some(vec![false]) }],
        sorted: IsSorted::Not,
    };
    let one = ca.rechunk();
    assert_eq!(one.values, vec![1, 2, 3]);
    assert_eq!(one.validity, Some(vec![true, true, false]));
}
