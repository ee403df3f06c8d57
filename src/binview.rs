use std::sync::Arc;

use vstd::prelude::*;
use vstd::string::{StrSliceExecFns, StringSliceAdditionalSpecFns};

use crate::array::{
    chunk_views, concat_all, total_len, cum_len, lemma_concat_all_index, lemma_concat_all_take_full,
    lemma_concat_all_take_step, lemma_cum_len_mono, rows_of, IdxCa, IdxSize, PrimitiveArray,
    StaticArray, IDX_MAX,
};
use crate::bounds::{check_bounds_ca, idx_in_bounds, GatherError};
use crate::gather::{gather_view, lemma_chunk_in_bounds, no_nulls};
use crate::resolve::{
    cumulative_lengths, is_cumulative_table, lemma_concat_single, lemma_resolved, lemma_table_is_cumulative,
    resolve_chunked_idx,
};
use crate::sorted::{_update_gather_sorted_flag, gathered_sorted_flag, IsSorted};

verus! {

/// Descriptor of one variable-length element: `length` bytes from `offset`
/// in the backing buffer `buffer_idx`. An empty element refers to no buffer.
#[derive(Clone, Copy, Debug, PartialEq, Eq, Structural)]
pub struct BytesView {
    pub buffer_idx: usize,
    pub offset: usize,
    pub length: usize,
}

impl BytesView {
    /// The descriptor of an empty element.
    pub fn empty() -> (r: Self)
        ensures
            r.length == 0,
    {
        BytesView { buffer_idx: 0, offset: 0, length: 0 }
    }
}

/// The descriptor points inside one of `buffers`.
pub open spec fn view_wf(v: BytesView, buffers: Seq<Arc<Vec<u8>>>) -> bool {
    v.length == 0 || (v.buffer_idx < buffers.len() && v.offset + v.length
        <= buffers[v.buffer_idx as int]@.len())
}

/// The bytes a descriptor stands for.
pub open spec fn view_bytes(v: BytesView, buffers: Seq<Arc<Vec<u8>>>) -> Seq<u8> {
    if v.length == 0 {
        Seq::empty()
    } else {
        buffers[v.buffer_idx as int]@.subrange(v.offset as int, v.offset + v.length)
    }
}

/// One chunk of variable-length binary elements, stored as descriptors into
/// shared, immutable byte buffers.
pub struct BinaryViewArray {
    pub views: Vec<BytesView>,
    pub buffers: Vec<Arc<Vec<u8>>>,
    pub validity: Option<Vec<bool>>,
}

impl BinaryViewArray {
    pub open spec fn wf(&self) -> bool {
        &&& match self.validity {
            Some(v) => v@.len() == self.views@.len(),
            None => true,
        }
        &&& forall|i: int| 0 <= i < self.views@.len() ==> view_wf(#[trigger] self.views@[i], self.buffers@)
    }

    pub open spec fn valid_at(&self, i: int) -> bool {
        match self.validity {
            Some(v) => v@[i],
            None => true,
        }
    }

    /// Builds a chunk without nulls holding `values`, all in one buffer.
    pub fn from_values(values: &Vec<Vec<u8>>) -> (r: Self)
        ensures
            r.wf(),
            r.validity is None,
            r.rows() == values@.map_values(|v: Vec<u8>| Some(v@)),
    {
        let mut buf: Vec<u8> = Vec::new();
        let mut views: Vec<BytesView> = Vec::with_capacity(values.len());
        let mut i: usize = 0;
        while i < values.len()
            invariant
                i <= values@.len(),
                views@.len() == i,
                forall|j: int|
                    0 <= j < i ==> {
                        let v = #[trigger] views@[j];
                        &&& v.length == 0 || (v.buffer_idx == 0 && v.offset + v.length
                            <= buf@.len())
                        &&& v.length == 0 ==> values@[j]@.len() == 0
                        &&& v.length != 0 ==> buf@.subrange(v.offset as int, v.offset + v.length)
                            == values@[j]@
                    },
            decreases values.len() - i,
        {
            let item = &values[i];
            let ghost before = buf@;
            if item.len() == 0 {
                views.push(BytesView::empty());
            } else {
                let offset = buf.len();
                let mut b: usize = 0;
                while b < item.len()
                    invariant
                        b <= item@.len(),
                        offset == before.len(),
                        buf@.len() == offset + b,
                        buf@.subrange(0, offset as int) == before,
                        buf@.subrange(offset as int, offset + b) == item@.subrange(0, b as int),
                    decreases item.len() - b,
                {
                    buf.push(item[b]);
                    b += 1;
                    assert(buf@.subrange(0, offset as int) =~= before);
                    assert(buf@.subrange(offset as int, offset + b) =~= item@.subrange(0, b as int));
                }
                assert(item@.subrange(0, b as int) =~= item@);
                views.push(BytesView { buffer_idx: 0, offset, length: item.len() });
            }
            assert forall|j: int| 0 <= j < i && views@[j].length != 0 implies buf@.subrange(
                views@[j].offset as int,
                views@[j].offset + views@[j].length,
            ) == values@[j]@ by {
                let v = views@[j];
                assert(buf@.subrange(v.offset as int, v.offset + v.length) =~= before.subrange(
                    v.offset as int,
                    v.offset + v.length,
                ));
            }
            i += 1;
        }
        let mut buffers: Vec<Arc<Vec<u8>>> = Vec::new();
        let ghost bytes = buf@;
        buffers.push(Arc::new(buf));
        let r = BinaryViewArray { views, buffers, validity: None };
        assert(r.rows() =~= values@.map_values(|v: Vec<u8>| Some(v@))) by {
            assert(r.buffers@[0]@ == bytes);
            assert forall|j: int| 0 <= j < values@.len() implies r.rows()[j] == Some(
                values@[j]@,
            ) by {
                if r.views@[j].length == 0 {
                    assert(values@[j]@ =~= Seq::<u8>::empty());
                }
            }
        }
        r
    }

    /// Whether any slot of the chunk is null.
    pub fn has_nulls(&self) -> (r: bool)
        requires
            self.wf(),
        ensures
            r == !no_nulls(self.rows()),
    {
        match &self.validity {
            None => false,
            Some(v) => {
                let mut i: usize = 0;
                while i < v.len()
                    invariant
                        v@.len() == self.views@.len(),
                        self.validity == Some(*v),
                        i <= v.len(),
                        forall|j: int| 0 <= j < i ==> self.rows()[j] is Some,
                    decreases v.len() - i,
                {
                    if !v[i] {
                        assert(self.rows()[i as int] is None);
                        return true;
                    }
                    i += 1;
                }
                false
            },
        }
    }
}

impl StaticArray for BinaryViewArray {
    type ValueT = Seq<u8>;

    open spec fn rows(&self) -> Seq<Option<Seq<u8>>> {
        Seq::new(
            self.views@.len(),
            |i: int|
                if self.valid_at(i) {
                    Some(view_bytes(self.views@[i], self.buffers@))
                } else {
                    None
                },
        )
    }

    fn len(&self) -> (r: usize) {
        self.views.len()
    }
}

/// Shares every buffer of `buffers`: the bytes are not copied.
fn share_buffers(buffers: &Vec<Arc<Vec<u8>>>) -> (r: Vec<Arc<Vec<u8>>>)
    ensures
        r@ == buffers@,
{
    let mut out: Vec<Arc<Vec<u8>>> = Vec::with_capacity(buffers.len());
    let mut i: usize = 0;
    while i < buffers.len()
        invariant
            i <= buffers@.len(),
            out@ == buffers@.subrange(0, i as int),
        decreases buffers.len() - i,
    {
        out.push(buffers[i].clone());
        i += 1;
        assert(out@ =~= buffers@.subrange(0, i as int));
    }
    assert(buffers@.subrange(0, i as int) =~= buffers@);
    out
}

/// Gathers from one chunk by one index chunk, copying descriptors and sharing
/// the chunk's buffers. A null index, or a null row, gives a null row.
pub fn take_views_unchecked(target: &BinaryViewArray, idx: &PrimitiveArray<IdxSize>) -> (r:
    BinaryViewArray)
    requires
        target.wf(),
        idx.wf(),
        idx_in_bounds(idx@, target.rows().len() as int),
    ensures
        r.wf(),
        r.rows() == gather_view(target.rows(), idx@),
        r.validity is None <==> (no_nulls(target.rows()) && no_nulls(idx@)),
{
    let target_nulls = target.has_nulls();
    let idx_nulls = idx.has_nulls();
    let has_nulls = target_nulls || idx_nulls;
    let buffers = share_buffers(&target.buffers);
    let ghost t = target.rows();
    let n = idx.values.len();
    let mut views: Vec<BytesView> = Vec::with_capacity(n);
    let mut validity: Vec<bool> = Vec::new();
    let mut k: usize = 0;
    while k < n
        invariant
            target.wf(),
            idx.wf(),
            t == target.rows(),
            buffers@ == target.buffers@,
            idx_in_bounds(idx@, t.len() as int),
            !has_nulls ==> no_nulls(t) && no_nulls(idx@),
            n == idx@.len(),
            k <= n,
            views@.len() == k,
            has_nulls ==> validity@.len() == k,
            forall|j: int| 0 <= j < k ==> view_wf(#[trigger] views@[j], buffers@),
            forall|j: int|
                0 <= j < k ==> {
                    let e = #[trigger] gather_view(t, idx@)[j];
                    &&& e is Some ==> e == Some(view_bytes(views@[j], buffers@))
                    &&& has_nulls ==> (validity@[j] <==> e is Some)
                },
        decreases n - k,
    {
        let o = match idx.get(k) {
            None => None,
            Some(i) => {
                let i = i as usize;
                let valid = match &target.validity {
                    Some(v) => v[i],
                    None => true,
                };
                if valid {
                    Some(target.views[i])
                } else {
                    None
                }
            },
        };
        match o {
            Some(v) => {
                views.push(v);
                if has_nulls {
                    validity.push(true);
                }
            },
            None => {
                views.push(BytesView::empty());
                if has_nulls {
                    validity.push(false);
                }
            },
        }
        proof {
            let e = gather_view(t, idx@)[k as int];
            if !has_nulls {
                assert(idx@[k as int] is Some);
                assert(t[idx@[k as int]->0 as int] is Some);
            }
        }
        k += 1;
    }
    let r = BinaryViewArray {
        views,
        buffers,
        validity: if has_nulls { Some(validity) } else { None },
    };
    proof {
        assert(r.rows() =~= gather_view(t, idx@)) by {
            assert forall|j: int| 0 <= j < n implies r.rows()[j] == gather_view(t, idx@)[j] by {
                let e = gather_view(t, idx@)[j];
                if !has_nulls {
                    assert(idx@[j] is Some);
                    assert(t[idx@[j]->0 as int] is Some);
                }
            }
        }
        if !has_nulls {
            assert(!target_nulls && !idx_nulls);
        }
    }
    r
}

/// The buffers of each chunk.
pub open spec fn buffers_of(chunks: Seq<BinaryViewArray>) -> Seq<Seq<Arc<Vec<u8>>>> {
    chunks.map_values(|a: BinaryViewArray| a.buffers@)
}

pub open spec fn bin_chunks_wf(chunks: Seq<BinaryViewArray>) -> bool {
    forall|c: int| 0 <= c < chunks.len() ==> (#[trigger] chunks[c]).wf()
}

/// The buffers of all chunks one after the other, and where each chunk's
/// buffers start in that list.
fn merge_buffers(targets: &Vec<BinaryViewArray>) -> (r: (Vec<Arc<Vec<u8>>>, Vec<usize>))
    ensures
        r.0@ == concat_all(buffers_of(targets@)),
        r.1@.len() == targets@.len(),
        forall|c: int| 0 <= c < targets@.len() ==> r.1@[c] == cum_len(buffers_of(targets@), c),
{
    let ghost s = buffers_of(targets@);
    let mut out: Vec<Arc<Vec<u8>>> = Vec::new();
    let mut bases: Vec<usize> = Vec::with_capacity(targets.len());
    let mut c: usize = 0;
    proof {
        assert(s.take(0) =~= Seq::<Seq<Arc<Vec<u8>>>>::empty());
    }
    while c < targets.len()
        invariant
            s == buffers_of(targets@),
            c <= targets@.len(),
            out@ == concat_all(s.take(c as int)),
            bases@.len() == c,
            forall|j: int| 0 <= j < c ==> bases@[j] == cum_len(s, j),
        decreases targets.len() - c,
    {
        bases.push(out.len());
        let bufs = &targets[c].buffers;
        let ghost start = out@;
        let mut b: usize = 0;
        while b < bufs.len()
            invariant
                b <= bufs@.len(),
                out@ == start + bufs@.subrange(0, b as int),
            decreases bufs.len() - b,
        {
            out.push(bufs[b].clone());
            b += 1;
            assert(out@ =~= start + bufs@.subrange(0, b as int));
        }
        proof {
            lemma_concat_all_take_step(s, c as int);
            assert(bufs@.subrange(0, b as int) =~= bufs@);
        }
        c += 1;
    }
    proof {
        lemma_concat_all_take_full(s);
    }
    (out, bases)
}

/// Gathers from a column of several chunks by one index chunk. The result
/// refers to the buffers of all chunks, each descriptor moved to where its
/// chunk's buffers start in the merged list.
fn take_views_chunked_unchecked(
    targets: &Vec<BinaryViewArray>,
    cumlens: &Vec<IdxSize>,
    targets_have_nulls: bool,
    idx: &PrimitiveArray<IdxSize>,
) -> (r: BinaryViewArray)
    requires
        bin_chunks_wf(targets@),
        cumlens@.len() == targets@.len(),
        forall|c: int|
            0 <= c < targets@.len() ==> cumlens@[c] == cum_len(rows_of(targets@), c),
        !targets_have_nulls ==> no_nulls(concat_all(rows_of(targets@))),
        idx.wf(),
        idx_in_bounds(idx@, concat_all(rows_of(targets@)).len() as int),
    ensures
        r.wf(),
        r.rows() == gather_view(concat_all(rows_of(targets@)), idx@),
        r.validity is None <==> (!targets_have_nulls && no_nulls(idx@)),
{
    let ghost t = concat_all(rows_of(targets@));
    let ghost s = rows_of(targets@);
    let ghost bs = buffers_of(targets@);
    let (buffers, bases) = merge_buffers(targets);
    proof {
        if s.len() >= 1 {
            lemma_table_is_cumulative(s, cumlens@);
        }
        if targets@.len() == 0 {
            assert(s.len() == 0);
        }
        lemma_concat_all_take_full(bs);
    }
    let n_buffers = buffers.len();
    let idx_nulls = idx.has_nulls();
    let has_nulls = targets_have_nulls || idx_nulls;
    let n = idx.values.len();
    let mut views: Vec<BytesView> = Vec::with_capacity(n);
    let mut validity: Vec<bool> = Vec::new();
    let mut k: usize = 0;
    while k < n
        invariant
            t.len() > 0 ==> targets@.len() >= 1,
            bin_chunks_wf(targets@),
            s == rows_of(targets@),
            t == concat_all(s),
            bs == buffers_of(targets@),
            buffers@ == concat_all(bs),
            n_buffers == buffers@.len(),
            bases@.len() == targets@.len(),
            forall|c: int| 0 <= c < targets@.len() ==> bases@[c] == cum_len(bs, c),
            cumlens@.len() == targets@.len(),
            forall|c: int| 0 <= c < targets@.len() ==> cumlens@[c] == cum_len(s, c),
            targets@.len() >= 1 ==> is_cumulative_table(cumlens@),
            idx.wf(),
            idx_in_bounds(idx@, t.len() as int),
            !has_nulls ==> no_nulls(t) && no_nulls(idx@),
            n == idx@.len(),
            k <= n,
            views@.len() == k,
            has_nulls ==> validity@.len() == k,
            forall|j: int| 0 <= j < k ==> view_wf(#[trigger] views@[j], buffers@),
            forall|j: int|
                0 <= j < k ==> {
                    let e = #[trigger] gather_view(t, idx@)[j];
                    &&& e is Some ==> e == Some(view_bytes(views@[j], buffers@))
                    &&& has_nulls ==> (validity@[j] <==> e is Some)
                },
        decreases n - k,
    {
        let o = match idx.get(k) {
            None => None,
            Some(i) => {
                let (c, off) = resolve_chunked_idx(i, cumlens.as_slice());
                proof {
                    lemma_resolved(s, cumlens@, i as int, c as int);
                }
                let a = &targets[c];
                let valid = match &a.validity {
                    Some(v) => v[off],
                    None => true,
                };
                if !valid {
                    None
                } else {
                    let v = a.views[off];
                    assert(view_wf(v, a.buffers@));
                    if v.length == 0 {
                        Some(BytesView::empty())
                    } else {
                        proof {
                            let g = cum_len(bs, c as int) + v.buffer_idx;
                            lemma_concat_all_take_step(bs, c as int);
                            lemma_cum_len_mono(bs, c + 1, bs.len() as int);
                            lemma_concat_all_index(bs, bs.len() as int, c as int, g);
                            lemma_concat_all_take_full(bs);
                            assert(bs[c as int] == a.buffers@);
                            assert(buffers@[g] == a.buffers@[v.buffer_idx as int]);
                        }
                        Some(
                            BytesView {
                                buffer_idx: bases[c] + v.buffer_idx,
                                offset: v.offset,
                                length: v.length,
                            },
                        )
                    }
                }
            },
        };
        match o {
            Some(v) => {
                views.push(v);
                if has_nulls {
                    validity.push(true);
                }
            },
            None => {
                views.push(BytesView::empty());
                if has_nulls {
                    validity.push(false);
                }
            },
        }
        proof {
            if !has_nulls {
                assert(idx@[k as int] is Some);
                assert(t[idx@[k as int]->0 as int] is Some);
            }
        }
        k += 1;
    }
    let r = BinaryViewArray {
        views,
        buffers,
        validity: if has_nulls { Some(validity) } else { None },
    };
    proof {
        assert(r.rows() =~= gather_view(t, idx@)) by {
            assert forall|j: int| 0 <= j < n implies r.rows()[j] == gather_view(t, idx@)[j] by {
                if !has_nulls {
                    assert(idx@[j] is Some);
                    assert(t[idx@[j]->0 as int] is Some);
                }
            }
        }
    }
    r
}

/// A column of variable-length binary elements split into chunks, with its
/// cached order hint.
pub struct BinaryChunked {
    pub chunks: Vec<BinaryViewArray>,
    pub sorted: IsSorted,
}

impl BinaryChunked {
    /// The column's rows, chunk after chunk.
    pub open spec fn rows(&self) -> Seq<Option<Seq<u8>>> {
        concat_all(rows_of(self.chunks@))
    }

    /// Every chunk is well formed and every row has an index.
    pub open spec fn wf(&self) -> bool {
        &&& bin_chunks_wf(self.chunks@)
        &&& self.rows().len() <= IDX_MAX
    }

    /// A column of one chunk without an order hint.
    pub fn from_chunk(chunk: BinaryViewArray) -> (r: Self)
        requires
            chunk.wf(),
            chunk.rows().len() <= IDX_MAX,
        ensures
            r.wf(),
            r.rows() == chunk.rows(),
            r.chunks@ == seq![chunk],
            r.sorted == IsSorted::Not,
    {
        let mut chunks: Vec<BinaryViewArray> = Vec::new();
        chunks.push(chunk);
        let r = BinaryChunked { chunks, sorted: IsSorted::Not };
        proof {
            assert(r.chunks@ =~= seq![chunk]);
            lemma_concat_single(rows_of(r.chunks@));
        }
        r
    }

    /// Number of logical rows.
    pub fn len(&self) -> (r: usize)
        requires
            self.wf(),
        ensures
            r == self.rows().len(),
    {
        total_len(&self.chunks)
    }

    /// Whether any row of the column is null.
    pub fn has_nulls(&self) -> (r: bool)
        requires
            self.wf(),
        ensures
            r == !no_nulls(self.rows()),
    {
        let ghost s = rows_of(self.chunks@);
        let mut c: usize = 0;
        proof {
            assert(s.take(0) =~= Seq::<Seq<Option<Seq<u8>>>>::empty());
        }
        while c < self.chunks.len()
            invariant
                self.wf(),
                s == rows_of(self.chunks@),
                c <= s.len(),
                no_nulls(concat_all(s.take(c as int))),
            decreases self.chunks.len() - c,
        {
            let a = &self.chunks[c];
            proof {
                lemma_concat_all_take_step(s, c as int);
                assert(s[c as int] == a.rows());
            }
            if a.has_nulls() {
                proof {
                    let i = choose|i: int| 0 <= i < a.rows().len() && !(a.rows()[i] is Some);
                    let g = cum_len(s, c as int) + i;
                    lemma_concat_all_index(s, s.len() as int, c as int, g);
                    lemma_concat_all_take_full(s);
                    assert(self.rows()[g] is None);
                }
                return true;
            }
            proof {
                let p = concat_all(s.take(c as int));
                let q = concat_all(s.take(c + 1));
                assert forall|g: int| 0 <= g < q.len() implies (#[trigger] q[g]) is Some by {
                    if g < p.len() {
                        assert(q[g] == p[g]);
                    } else {
                        assert(q[g] == a.rows()[g - p.len()]);
                    }
                }
            }
            c += 1;
        }
        proof {
            lemma_concat_all_take_full(s);
        }
        false
    }

    /// Gathers the rows named by `indices`, which every non-null index must be
    /// in bounds for: one result chunk per index chunk, each without a
    /// validity map exactly when neither the column nor that index chunk holds
    /// a null. A single-chunk column keeps its buffers; a column of several
    /// chunks gives chunks that refer to the buffers of all of them.
    pub fn take_unchecked(&self, indices: &IdxCa) -> (r: BinaryChunked)
        requires
            self.wf(),
            indices.wf(),
            idx_in_bounds(indices@, self.rows().len() as int),
        ensures
            r.wf(),
            r.rows() == gather_view(self.rows(), indices@),
            r.chunks@.len() == indices.chunks@.len(),
            forall|c: int|
                0 <= c < r.chunks@.len() ==> (#[trigger] r.chunks@[c]).rows().len()
                    == indices.chunks@[c]@.len(),
            forall|c: int|
                0 <= c < r.chunks@.len() ==> ((#[trigger] r.chunks@[c]).validity is None <==> (
                no_nulls(self.rows()) && no_nulls(indices.chunks@[c]@))),
            r.sorted == gathered_sorted_flag(self.sorted, indices.sorted),
    {
        let ghost t = self.rows();
        let ghost s = chunk_views(indices.chunks@);
        let targets = &self.chunks;
        let has_nulls = self.has_nulls();
        let cumlens = if targets.len() == 1 {
            Vec::new()
        } else {
            cumulative_lengths(targets)
        };
        let mut out: Vec<BinaryViewArray> = Vec::new();
        let mut c: usize = 0;
        proof {
            assert(s.take(0) =~= Seq::<Seq<Option<IdxSize>>>::empty());
            assert(rows_of(out@) =~= Seq::<Seq<Option<Seq<u8>>>>::empty());
            assert(gather_view(t, Seq::<Option<IdxSize>>::empty()) =~= Seq::<Option<Seq<u8>>>::empty());
        }
        while c < indices.chunks.len()
            invariant
                self.wf(),
                indices.wf(),
                t == self.rows(),
                targets == &self.chunks,
                s == chunk_views(indices.chunks@),
                idx_in_bounds(concat_all(s), t.len() as int),
                has_nulls == !no_nulls(t),
                targets@.len() != 1 ==> cumlens@.len() == targets@.len(),
                targets@.len() != 1 ==> forall|j: int|
                    0 <= j < targets@.len() ==> cumlens@[j] == cum_len(rows_of(targets@), j),
                c <= s.len(),
                out@.len() == c,
                concat_all(rows_of(out@)) == gather_view(t, concat_all(s.take(c as int))),
                bin_chunks_wf(out@),
                forall|j: int| 0 <= j < c ==> (#[trigger] out@[j]).rows().len() == s[j].len(),
                forall|j: int|
                    0 <= j < c ==> ((#[trigger] out@[j]).validity is None <==> (no_nulls(t)
                        && no_nulls(s[j]))),
            decreases indices.chunks.len() - c,
        {
            let idx_arr = &indices.chunks[c];
            proof {
                assert(s[c as int] == idx_arr@);
                lemma_chunk_in_bounds(s, c as int, t.len() as int);
            }
            let arr = if targets.len() == 1 {
                proof {
                    lemma_concat_single(rows_of(targets@));
                }
                take_views_unchecked(&targets[0], idx_arr)
            } else {
                take_views_chunked_unchecked(targets, &cumlens, has_nulls, idx_arr)
            };
            proof {
                lemma_concat_all_take_step(s, c as int);
                assert(gather_view(t, concat_all(s.take(c + 1))) =~= gather_view(
                    t,
                    concat_all(s.take(c as int)),
                ) + gather_view(t, s[c as int]));
                assert(rows_of(out@.push(arr)).drop_last() =~= rows_of(out@));
            }
            out.push(arr);
            c += 1;
        }
        proof {
            lemma_concat_all_take_full(s);
        }
        let sorted = _update_gather_sorted_flag(self.sorted, indices.sorted);
        BinaryChunked { chunks: out, sorted }
    }

    /// Gathers the rows named by `indices` after checking that every non-null
    /// index is in bounds; fails, producing nothing, where one is not.
    pub fn take(&self, indices: &IdxCa) -> (r: Result<BinaryChunked, GatherError>)
        requires
            self.wf(),
            indices.wf(),
        ensures
            r is Err <==> !idx_in_bounds(indices@, self.rows().len() as int),
            r matches Ok(a) ==> {
                &&& a.wf()
                &&& a.rows() == gather_view(self.rows(), indices@)
                &&& a.chunks@.len() == indices.chunks@.len()
                &&& forall|c: int|
                    0 <= c < a.chunks@.len() ==> (#[trigger] a.chunks@[c]).rows().len()
                        == indices.chunks@[c]@.len()
                &&& forall|c: int|
                    0 <= c < a.chunks@.len() ==> ((#[trigger] a.chunks@[c]).validity is None
                        <==> (no_nulls(self.rows()) && no_nulls(indices.chunks@[c]@)))
                &&& a.sorted == gathered_sorted_flag(self.sorted, indices.sorted)
            },
    {
        let len = self.len() as IdxSize;
        match check_bounds_ca(indices, len) {
            Err(e) => Err(e),
            Ok(()) => Ok(self.take_unchecked(indices)),
        }
    }
}

/// A column of text, held as the UTF-8 bytes of each element. A gather moves
/// whole elements, so every element stays the text it was.
pub struct StringChunked {
    pub inner: BinaryChunked,
}

impl StringChunked {
    /// The UTF-8 bytes of each row.
    pub open spec fn rows(&self) -> Seq<Option<Seq<u8>>> {
        self.inner.rows()
    }

    pub open spec fn wf(&self) -> bool {
        self.inner.wf()
    }

    /// A column of one chunk holding `values`, without nulls.
    pub fn from_strs(values: &Vec<&str>) -> (r: Self)
        requires
            values@.len() <= IDX_MAX,
        ensures
            r.wf(),
            r.rows() == values@.map_values(|v: &str| Some(v.spec_bytes())),
            r.inner.sorted == IsSorted::Not,
    {
        let mut bytes: Vec<Vec<u8>> = Vec::with_capacity(values.len());
        let mut i: usize = 0;
        while i < values.len()
            invariant
                i <= values@.len(),
                bytes@.len() == i,
                forall|j: int|
                    0 <= j < i ==> (#[trigger] bytes@[j])@ == values@[j].spec_bytes(),
            decreases values.len() - i,
        {
            bytes.push(values[i].as_bytes_vec());
            i += 1;
        }
        let chunk = BinaryViewArray::from_values(&bytes);
        let r = StringChunked { inner: BinaryChunked::from_chunk(chunk) };
        assert(r.rows() =~= values@.map_values(|v: &str| Some(v.spec_bytes())));
        r
    }

    /// Gathers the rows named by `indices`, which every non-null index must be
    /// in bounds for.
    pub fn take_unchecked(&self, indices: &IdxCa) -> (r: StringChunked)
        requires
            self.wf(),
            indices.wf(),
            idx_in_bounds(indices@, self.rows().len() as int),
        ensures
            r.wf(),
            r.rows() == gather_view(self.rows(), indices@),
            r.inner.chunks@.len() == indices.chunks@.len(),
            forall|c: int|
                0 <= c < r.inner.chunks@.len() ==> (#[trigger] r.inner.chunks@[c]).rows().len()
                    == indices.chunks@[c]@.len(),
            forall|c: int|
                0 <= c < r.inner.chunks@.len() ==> ((#[trigger] r.inner.chunks@[c]).validity
                    is None <==> (no_nulls(self.rows()) && no_nulls(indices.chunks@[c]@))),
            r.inner.sorted == gathered_sorted_flag(self.inner.sorted, indices.sorted),
    {
        StringChunked { inner: self.inner.take_unchecked(indices) }
    }

    /// Gathers the rows named by `indices` after checking that every non-null
    /// index is in bounds; fails, producing nothing, where one is not.
    pub fn take(&self, indices: &IdxCa) -> (r: Result<StringChunked, GatherError>)
        requires
            self.wf(),
            indices.wf(),
        ensures
            r is Err <==> !idx_in_bounds(indices@, self.rows().len() as int),
            r matches Ok(a) ==> {
                &&& a.wf()
                &&& a.rows() == gather_view(self.rows(), indices@)
                &&& a.inner.chunks@.len() == indices.chunks@.len()
                &&& forall|c: int|
                    0 <= c < a.inner.chunks@.len() ==> (#[trigger] a.inner.chunks@[c]).rows().len()
                        == indices.chunks@[c]@.len()
                &&& forall|c: int|
                    0 <= c < a.inner.chunks@.len() ==> ((#[trigger] a.inner.chunks@[c]).validity
                        is None <==> (no_nulls(self.rows()) && no_nulls(indices.chunks@[c]@)))
                &&& a.inner.sorted == gathered_sorted_flag(self.inner.sorted, indices.sorted)
            },
    {
        match self.inner.take(indices) {
            Err(e) => Err(e),
            Ok(inner) => Ok(StringChunked { inner }),
        }
    }
}

} // verus!
