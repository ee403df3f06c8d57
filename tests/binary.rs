use chunked_gather::array::{ChunkedArray, PrimitiveArray};
use chunked_gather::binview::{BinaryChunked, BinaryViewArray};
use chunked_gather::bounds::GatherError;
use chunked_gather::sorted::IsSorted;

fn chunk(items: &[&str]) -> BinaryViewArray {
    let values: Vec<Vec<u8>> = items.iter().map(|s| s.as_bytes().to_vec()).collect();
    BinaryViewArray::from_values(&values)
}

fn bytes_of(a: &BinaryViewArray, i: usize) -> Option<Vec<u8>> {
    if let Some(v) = &a.validity {
        if !v[i] {
            return None;
        }
    }
    let view = a.views[i];
    if view.length == 0 {
        return Some(Vec::new());
    }
    Some(a.buffers[view.buffer_idx][view.offset..view.offset + view.length].to_vec())
}

fn rows(a: &BinaryChunked) -> Vec<Option<String>> {
    let mut out = Vec::new();
    for c in &a.chunks {
        for i in 0..c.views.len() {
            out.push(bytes_of(c, i).map(|b| String::from_utf8(b).unwrap()));
        }
    }
    out
}

fn some(s: &str) -> Option<String> {
    Some(s.to_string())
}

#[test]
fn text_index_out_of_bounds() {
    let target = BinaryChunked { chunks: vec![chunk(&["a", "bb", "ccc"])], sorted: IsSorted::Not };
    let idx = ChunkedArray { chunks: vec![PrimitiveArray::new(vec![5u32])], sorted: IsSorted::Not };
    assert_eq!(target.take(&idx).err(), Some(GatherError::OutOfBounds));
}

#[test]
fn text_single_chunk_shares_buffers() {
    let target = BinaryChunked { chunks: vec![chunk(&["a", "bb", "", "ccc"])], sorted: IsSorted::Not };
    let idx = ChunkedArray {
        chunks: vec![PrimitiveArray { values: vec![3u32, 2, 0, 1], validity: Some(vec![true, true, false, true]) }],
        sorted: IsSorted::Not,
    };
    let out = target.take(&idx).unwrap();
    assert_eq!(rows(&out), vec![some("ccc"), some(""), None, some("bb")]);
    assert!(std::sync::Arc::ptr_eq(&out.chunks[0].buffers[0], &target.chunks[0].buffers[0]));
}

#[test]
fn text_several_chunks() {
    let target = BinaryChunked {
        chunks: vec![chunk(&["x", "yy"]), chunk(&["zzz", "w"])],
        sorted: IsSorted::Descending,
    };
    let idx = ChunkedArray {
        chunks: vec![PrimitiveArray::new(vec![2u32, 0]), PrimitiveArray::new(vec![3u32, 1])],
        sorted: IsSorted::Ascending,
    };
    let out = target.take(&idx).unwrap();
    assert_eq!(rows(&out), vec![some("zzz"), some("x"), some("w"), some("yy")]);
    assert_eq!(out.chunks.len(), 2);
    assert!(out.chunks[0].validity.is_none());
    assert_eq!(out.sorted, IsSorted::Descending);
    assert_eq!(target.len(), 4);
}

#[test]
fn text_null_rows_in_several_chunks() {
    let mut second = chunk(&["p", "q"]);
    second.validity = Some(vec![true, false]);
    let target = BinaryChunked { chunks: vec![chunk(&["m"]), second], sorted: IsSorted::Not };
    let idx = ChunkedArray { chunks: vec![PrimitiveArray::new(vec![2u32, 1, 0])], sorted: IsSorted::Not };
    let out = target.take_unchecked(&idx);
    assert_eq!(rows(&out), vec![None, some("p"), some("m")]);
    assert!(target.has_nulls());
}
