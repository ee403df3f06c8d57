use vstd::prelude::*;

use crate::array::{
    chunk_views, concat_all, cum_len, lemma_concat_all_index, lemma_concat_all_take_full,
    lemma_concat_all_take_step, lemma_cum_len_mono, ChunkedArray, IdxCa, IdxSize,
    lemma_rows_of_primitive, PrimitiveArray, StaticArray, IDX_MAX,
};
use crate::bounds::{check_bounds, check_bounds_ca, idx_in_bounds, slice_in_bounds, GatherError};
use crate::sorted::{_update_gather_sorted_flag, gathered_sorted_flag, IsSorted};
use crate::resolve::{
    cumulative_lengths, lemma_concat_single, lemma_resolved, lemma_table_is_cumulative,
    resolve_chunked_idx,
};

verus! {

/// Element `k` of the result is the target's row `idx[k]`, or null where
/// `idx[k]` is null.
pub open spec fn gather_view<T>(t: Seq<Option<T>>, idx: Seq<Option<IdxSize>>) -> Seq<Option<T>> {
    Seq::new(
        idx.len(),
        |k: int|
            match idx[k] {
                Some(i) => t[i as int],
                None => None,
            },
    )
}

/// What a checked gather gives: the gathered rows where every non-null index
/// is in bounds, and nothing otherwise.
pub open spec fn checked_gather_view<T>(t: Seq<Option<T>>, idx: Seq<Option<IdxSize>>) -> Option<
    Seq<Option<T>>,
> {
    if idx_in_bounds(idx, t.len() as int) {
        Some(gather_view(t, idx))
    } else {
        None
    }
}

/// A dense index slice seen as an index column without nulls.
pub open spec fn dense_idx(idx: Seq<IdxSize>) -> Seq<Option<IdxSize>> {
    idx.map_values(|i: IdxSize| Some(i))
}

/// No row of `t` is null.
pub open spec fn no_nulls<T>(t: Seq<Option<T>>) -> bool {
    forall|g: int| 0 <= g < t.len() ==> (#[trigger] t[g]) is Some
}

pub open spec fn chunks_wf<T>(targets: Seq<PrimitiveArray<T>>) -> bool {
    forall|c: int| 0 <= c < targets.len() ==> (#[trigger] targets[c]).wf()
}

/// What the chunk-resolving helpers ask of the table they are handed: for a
/// single chunk no table is needed, else it is the chunks' prefix sums.
pub open spec fn table_for<T>(targets: Seq<PrimitiveArray<T>>, cumlens: Seq<IdxSize>) -> bool {
    targets.len() != 1 ==> {
        &&& cumlens.len() == targets.len()
        &&& forall|c: int|
            0 <= c < targets.len() ==> cumlens[c] == cum_len(chunk_views(targets), c)
    }
}

impl<T: Copy> PrimitiveArray<T> {
    /// The slot at `i`, or `None` where it is null.
    pub fn get(&self, i: usize) -> (r: Option<T>)
        requires
            self.wf(),
            i < self@.len(),
        ensures
            r == self@[i as int],
    {
        let valid = match &self.validity {
            Some(v) => v[i],
            None => true,
        };
        if valid {
            Some(self.values[i])
        } else {
            None
        }
    }
}

/// Looks a row up in a column made of `targets`, resolving its chunk.
fn target_get_unchecked<T: Copy>(
    targets: &Vec<PrimitiveArray<T>>,
    cumlens: &Vec<IdxSize>,
    idx: IdxSize,
) -> (r: Option<T>)
    requires
        targets@.len() >= 1,
        chunks_wf(targets@),
        table_for(targets@, cumlens@),
        idx < concat_all(chunk_views(targets@)).len(),
    ensures
        r == concat_all(chunk_views(targets@))[idx as int],
{
    if targets.len() == 1 {
        proof {
            lemma_concat_single(chunk_views(targets@));
        }
        targets[0].get(idx as usize)
    } else {
        proof {
            lemma_table_is_cumulative(chunk_views(targets@), cumlens@);
        }
        let (chunk_idx, arr_idx) = resolve_chunked_idx(idx, cumlens.as_slice());
        proof {
            lemma_resolved(chunk_views(targets@), cumlens@, idx as int, chunk_idx as int);
        }
        targets[chunk_idx].get(arr_idx)
    }
}

/// Looks a row up in a column made of `targets`, ignoring validity: where the
/// row is not null, this is its value.
fn target_value_unchecked<T: Copy>(
    targets: &Vec<PrimitiveArray<T>>,
    cumlens: &Vec<IdxSize>,
    idx: IdxSize,
) -> (r: T)
    requires
        targets@.len() >= 1,
        chunks_wf(targets@),
        table_for(targets@, cumlens@),
        idx < concat_all(chunk_views(targets@)).len(),
    ensures
        concat_all(chunk_views(targets@))[idx as int] is Some ==> concat_all(
            chunk_views(targets@),
        )[idx as int] == Some(r),
{
    if targets.len() == 1 {
        proof {
            lemma_concat_single(chunk_views(targets@));
        }
        targets[0].values[idx as usize]
    } else {
        proof {
            lemma_table_is_cumulative(chunk_views(targets@), cumlens@);
        }
        let (chunk_idx, arr_idx) = resolve_chunked_idx(idx, cumlens.as_slice());
        proof {
            lemma_resolved(chunk_views(targets@), cumlens@, idx as int, chunk_idx as int);
        }
        targets[chunk_idx].values[arr_idx]
    }
}

/// The prefix sums for a column of several chunks; nothing for a single one.
fn table_of<T>(targets: &Vec<PrimitiveArray<T>>) -> (r: Vec<IdxSize>)
    requires
        concat_all(chunk_views(targets@)).len() <= IDX_MAX,
    ensures
        table_for(targets@, r@),
{
    if targets.len() == 1 {
        Vec::new()
    } else {
        proof {
            lemma_rows_of_primitive(targets@);
        }
        cumulative_lengths(targets)
    }
}

/// Gathers the rows `indices` of the column made of `targets` into one new
/// chunk. `has_nulls` tells whether the column may hold nulls; the result has
/// a validity map exactly when it does.
pub fn gather_idx_array_unchecked<T: Copy + Default>(
    targets: &Vec<PrimitiveArray<T>>,
    has_nulls: bool,
    indices: &[IdxSize],
) -> (r: PrimitiveArray<T>)
    requires
        chunks_wf(targets@),
        concat_all(chunk_views(targets@)).len() <= IDX_MAX,
        !has_nulls ==> no_nulls(concat_all(chunk_views(targets@))),
        slice_in_bounds(indices@, concat_all(chunk_views(targets@)).len() as int),
    ensures
        r.wf(),
        r@ == gather_view(concat_all(chunk_views(targets@)), dense_idx(indices@)),
        r.validity is None <==> !has_nulls,
{
    let ghost t = concat_all(chunk_views(targets@));
    proof {
        if targets@.len() == 0 {
            assert(chunk_views(targets@).len() == 0);
        }
    }
    let cumlens = table_of(targets);
    let n = indices.len();
    let mut values: Vec<T> = Vec::with_capacity(n);
    let mut validity: Vec<bool> = Vec::new();
    let mut k: usize = 0;
    while k < n
        invariant
            t == concat_all(chunk_views(targets@)),
            t.len() > 0 ==> targets@.len() >= 1,
            chunks_wf(targets@),
            table_for(targets@, cumlens@),
            !has_nulls ==> no_nulls(t),
            slice_in_bounds(indices@, t.len() as int),
            n == indices@.len(),
            k <= n,
            values@.len() == k,
            has_nulls ==> validity@.len() == k,
            forall|j: int|
                0 <= j < k ==> {
                    let e = #[trigger] t[indices@[j] as int];
                    &&& e is Some ==> e == Some(values@[j])
                    &&& has_nulls ==> (validity@[j] <==> e is Some)
                },
        decreases n - k,
    {
        let i = indices[k];
        if has_nulls {
            match target_get_unchecked(targets, &cumlens, i) {
                Some(v) => {
                    values.push(v);
                    validity.push(true);
                },
                None => {
                    values.push(T::default());
                    validity.push(false);
                },
            }
        } else {
            values.push(target_value_unchecked(targets, &cumlens, i));
        }
        k += 1;
    }
    let r = PrimitiveArray { values, validity: if has_nulls { Some(validity) } else { None } };
    proof {
        assert(r@ =~= gather_view(t, dense_idx(indices@))) by {
            assert forall|j: int| 0 <= j < n implies r@[j] == gather_view(t, dense_idx(indices@))[j] by {
                let e = t[indices@[j] as int];
                if !has_nulls {
                    assert(e is Some);
                }
            }
        }
    }
    r
}

/// Gathers through one index chunk that holds nulls: a null index gives a
/// null row and the target is not read for it.
fn gather_nullable_idx_unchecked<T: Copy + Default>(
    targets: &Vec<PrimitiveArray<T>>,
    cumlens: &Vec<IdxSize>,
    has_nulls: bool,
    idx_arr: &PrimitiveArray<IdxSize>,
) -> (r: PrimitiveArray<T>)
    requires
        chunks_wf(targets@),
        table_for(targets@, cumlens@),
        !has_nulls ==> no_nulls(concat_all(chunk_views(targets@))),
        idx_arr.wf(),
        idx_in_bounds(idx_arr@, concat_all(chunk_views(targets@)).len() as int),
    ensures
        r.wf(),
        r@ == gather_view(concat_all(chunk_views(targets@)), idx_arr@),
        r.validity is Some,
{
    let ghost t = concat_all(chunk_views(targets@));
    proof {
        if targets@.len() == 0 {
            assert(chunk_views(targets@).len() == 0);
        }
    }
    let n = idx_arr.len();
    let mut values: Vec<T> = Vec::with_capacity(n);
    let mut validity: Vec<bool> = Vec::with_capacity(n);
    let mut k: usize = 0;
    while k < n
        invariant
            t == concat_all(chunk_views(targets@)),
            t.len() > 0 ==> targets@.len() >= 1,
            chunks_wf(targets@),
            table_for(targets@, cumlens@),
            !has_nulls ==> no_nulls(t),
            idx_arr.wf(),
            idx_in_bounds(idx_arr@, t.len() as int),
            n == idx_arr@.len(),
            k <= n,
            values@.len() == k,
            validity@.len() == k,
            forall|j: int|
                0 <= j < k ==> #[trigger] gather_view(t, idx_arr@)[j] == (if validity@[j] {
                    Some(values@[j])
                } else {
                    None
                }),
        decreases n - k,
    {
        let o = match idx_arr.get(k) {
            None => None,
            Some(i) => {
                if has_nulls {
                    target_get_unchecked(targets, cumlens, i)
                } else {
                    Some(target_value_unchecked(targets, cumlens, i))
                }
            },
        };
        match o {
            Some(v) => {
                values.push(v);
                validity.push(true);
            },
            None => {
                values.push(T::default());
                validity.push(false);
            },
        }
        k += 1;
    }
    let r = PrimitiveArray { values, validity: Some(validity) };
    proof {
        assert(r@ =~= gather_view(t, idx_arr@));
    }
    r
}

/// An index column that is in bounds as a whole is so chunk by chunk.
pub proof fn lemma_chunk_in_bounds(s: Seq<Seq<Option<IdxSize>>>, c: int, len: int)
    requires
        0 <= c < s.len(),
        idx_in_bounds(concat_all(s), len),
    ensures
        idx_in_bounds(s[c], len),
{
    assert forall|k: int| 0 <= k < s[c].len() && (#[trigger] s[c][k]) is Some implies s[c][k]->0
        < len by {
        lemma_concat_all_take_step(s, c);
        lemma_cum_len_mono(s, c + 1, s.len() as int);
        lemma_concat_all_take_full(s);
        lemma_concat_all_index(s, s.len() as int, c, cum_len(s, c) + k);
    }
}

proof fn lemma_gather_concat<T>(t: Seq<Option<T>>, p: Seq<Option<IdxSize>>, q: Seq<Option<IdxSize>>)
    ensures
        gather_view(t, p + q) == gather_view(t, p) + gather_view(t, q),
{
    assert(gather_view(t, p + q) =~= gather_view(t, p) + gather_view(t, q));
}

impl<T: Copy + Default> ChunkedArray<T> {
    /// Merges the chunks into one, with a validity map exactly when some
    /// chunk has one.
    pub fn rechunk(&self) -> (r: PrimitiveArray<T>)
        requires
            self.wf(),
        ensures
            r.wf(),
            r@ == self@,
    {
        let ghost s = chunk_views(self.chunks@);
        let mut values: Vec<T> = Vec::new();
        let mut validity: Vec<bool> = Vec::new();
        let mut c: usize = 0;
        proof {
            assert(s.take(0) =~= Seq::<Seq<Option<T>>>::empty());
        }
        while c < self.chunks.len()
            invariant
                self.wf(),
                s == chunk_views(self.chunks@),
                c <= s.len(),
                values@.len() == validity@.len(),
                (PrimitiveArray { values, validity: Some(validity) })@ == concat_all(
                    s.take(c as int),
                ),
            decreases self.chunks.len() - c,
        {
            let a = &self.chunks[c];
            let m = a.values.len();
            let ghost start = concat_all(s.take(c as int));
            let mut i: usize = 0;
            while i < m
                invariant
                    a.wf(),
                    m == a@.len(),
                    i <= m,
                    values@.len() == validity@.len(),
                    (PrimitiveArray { values, validity: Some(validity) })@ == start + a@.subrange(
                        0,
                        i as int,
                    ),
                decreases m - i,
            {
                let ghost before = (PrimitiveArray { values, validity: Some(validity) })@;
                let valid = match &a.validity {
                    Some(v) => v[i],
                    None => true,
                };
                values.push(a.values[i]);
                validity.push(valid);
                proof {
                    let now = (PrimitiveArray { values, validity: Some(validity) })@;
                    assert forall|j: int| 0 <= j < before.len() implies now[j] == before[j] by {}
                    assert(now[i as int + start.len()] == a@[i as int]);
                    let want = start + a@.subrange(0, i + 1);
                    assert(before == start + a@.subrange(0, i as int));
                    assert(now.len() == want.len());
                    assert forall|j: int| 0 <= j < now.len() implies now[j] == want[j] by {
                        if j < before.len() {
                            assert(want[j] == before[j]);
                        }
                    }
                    assert(now =~= want);
                }
                i += 1;
            }
            proof {
                lemma_concat_all_take_step(s, c as int);
                assert(s[c as int] == a@);
                assert(a@.subrange(0, m as int) =~= a@);
            }
            c += 1;
        }
        proof {
            lemma_concat_all_take_full(s);
        }
        PrimitiveArray { values, validity: Some(validity) }
    }

    /// Gathers the rows named by `indices`, which every non-null index must be
    /// in bounds for. The result has one chunk per index chunk, each without a
    /// validity map exactly when neither the column nor that index chunk holds
    /// a null.
    pub fn take_unchecked(&self, indices: &IdxCa) -> (r: ChunkedArray<T>)
        requires
            self.wf(),
            indices.wf(),
            idx_in_bounds(indices@, self@.len() as int),
        ensures
            r.wf(),
            r@ == gather_view(self@, indices@),
            r.chunks@.len() == indices.chunks@.len(),
            forall|c: int|
                0 <= c < r.chunks@.len() ==> (#[trigger] r.chunks@[c])@.len()
                    == indices.chunks@[c]@.len(),
            forall|c: int|
                0 <= c < r.chunks@.len() ==> ((#[trigger] r.chunks@[c]).validity is None <==> (
                no_nulls(self@) && no_nulls(indices.chunks@[c]@))),
            r.sorted == gathered_sorted_flag(self.sorted, indices.sorted),
    {
        let ghost t = self@;
        let ghost s = chunk_views(indices.chunks@);
        let targets = &self.chunks;
        let has_nulls = self.has_nulls();
        let cumlens = table_of(targets);
        let mut out: Vec<PrimitiveArray<T>> = Vec::new();
        let mut c: usize = 0;
        proof {
            assert(s.take(0) =~= Seq::<Seq<Option<IdxSize>>>::empty());
            assert(chunk_views(out@) =~= Seq::<Seq<Option<T>>>::empty());
            assert(gather_view(t, Seq::<Option<IdxSize>>::empty()) =~= Seq::<Option<T>>::empty());
        }
        while c < indices.chunks.len()
            invariant
                self.wf(),
                indices.wf(),
                t == self@,
                t == concat_all(chunk_views(targets@)),
                targets == &self.chunks,
                s == chunk_views(indices.chunks@),
                idx_in_bounds(concat_all(s), t.len() as int),
                has_nulls == !no_nulls(t),
                table_for(targets@, cumlens@),
                c <= s.len(),
                out@.len() == c,
                concat_all(chunk_views(out@)) == gather_view(t, concat_all(s.take(c as int))),
                forall|j: int| 0 <= j < c ==> (#[trigger] out@[j]).wf(),
                forall|j: int| 0 <= j < c ==> (#[trigger] out@[j])@.len() == s[j].len(),
                forall|j: int|
                    0 <= j < c ==> ((#[trigger] out@[j]).validity is None <==> (no_nulls(t)
                        && no_nulls(s[j]))),
            decreases indices.chunks.len() - c,
        {
            let idx_arr = &indices.chunks[c];
            proof {
                assert(s[c as int] == idx_arr@);
                lemma_chunk_in_bounds(s, c as int, t.len() as int);
            }
            let arr = if !idx_arr.has_nulls() {
                proof {
                    assert(idx_arr@ =~= dense_idx(idx_arr.values@));
                    assert forall|k: int| 0 <= k < idx_arr.values@.len() implies (
                    #[trigger] idx_arr.values@[k]) < t.len() by {
                        assert(idx_arr@[k] is Some);
                    }
                }
                gather_idx_array_unchecked(targets, has_nulls, idx_arr.values.as_slice())
            } else {
                gather_nullable_idx_unchecked(targets, &cumlens, has_nulls, idx_arr)
            };
            proof {
                lemma_concat_all_take_step(s, c as int);
                lemma_gather_concat(t, concat_all(s.take(c as int)), s[c as int]);
                assert(chunk_views(out@.push(arr)).drop_last() =~= chunk_views(out@));
            }
            out.push(arr);
            c += 1;
        }
        proof {
            lemma_concat_all_take_full(s);
        }
        let sorted = _update_gather_sorted_flag(self.sorted, indices.sorted);
        ChunkedArray { chunks: out, sorted }
    }

    /// Gathers the rows named by `indices` after checking that every non-null
    /// index is in bounds; fails, producing nothing, where one is not.
    pub fn take(&self, indices: &IdxCa) -> (r: Result<ChunkedArray<T>, GatherError>)
        requires
            self.wf(),
            indices.wf(),
        ensures
            r is Err <==> !idx_in_bounds(indices@, self@.len() as int),
            r is Err ==> checked_gather_view(self@, indices@) is None,
            r matches Ok(a) ==> checked_gather_view(self@, indices@) == Some(a@),
            r matches Ok(a) ==> {
                &&& a.wf()
                &&& a@ == gather_view(self@, indices@)
                &&& a.chunks@.len() == indices.chunks@.len()
                &&& forall|c: int|
                    0 <= c < a.chunks@.len() ==> (#[trigger] a.chunks@[c])@.len()
                        == indices.chunks@[c]@.len()
                &&& forall|c: int|
                    0 <= c < a.chunks@.len() ==> ((#[trigger] a.chunks@[c]).validity is None
                        <==> (no_nulls(self@) && no_nulls(indices.chunks@[c]@)))
                &&& a.sorted == gathered_sorted_flag(self.sorted, indices.sorted)
            },
    {
        let len = self.len() as IdxSize;
        match check_bounds_ca(indices, len) {
            Err(e) => Err(e),
            Ok(()) => Ok(self.take_unchecked(indices)),
        }
    }

    /// Gathers the rows named by a dense index slice, every one of which must
    /// be in bounds, into a column of one chunk without an order hint.
    pub fn take_unchecked_slice(&self, indices: &[IdxSize]) -> (r: ChunkedArray<T>)
        requires
            self.wf(),
            indices@.len() <= IDX_MAX,
            slice_in_bounds(indices@, self@.len() as int),
        ensures
            r.wf(),
            r@ == gather_view(self@, dense_idx(indices@)),
            r.chunks@.len() == 1,
            r.chunks@[0].validity is None <==> no_nulls(self@),
            r.sorted == IsSorted::Not,
    {
        let has_nulls = self.has_nulls();
        let arr = gather_idx_array_unchecked(&self.chunks, has_nulls, indices);
        ChunkedArray::from_chunk(arr)
    }

    /// Gathers the rows named by a dense index slice after checking that every
    /// index is in bounds; fails, producing nothing, where one is not.
    pub fn take_slice(&self, indices: &[IdxSize]) -> (r: Result<ChunkedArray<T>, GatherError>)
        requires
            self.wf(),
            indices@.len() <= IDX_MAX,
        ensures
            r is Err <==> !slice_in_bounds(indices@, self@.len() as int),
            r matches Ok(a) ==> {
                &&& a.wf()
                &&& a@ == gather_view(self@, dense_idx(indices@))
                &&& a.chunks@.len() == 1
                &&& a.chunks@[0].validity is None <==> no_nulls(self@)
                &&& a.sorted == IsSorted::Not
            },
    {
        let len = self.len() as IdxSize;
        match check_bounds(indices, len) {
            Err(e) => Err(e),
            Ok(()) => Ok(self.take_unchecked_slice(indices)),
        }
    }
}

/// A row index that may be null: the largest index value marks the null.
#[derive(Clone, Copy, Debug, PartialEq, Eq, Structural)]
pub struct NullableIdxSize {
    pub inner: IdxSize,
}

impl NullableIdxSize {
    pub open spec fn spec_is_null(&self) -> bool {
        self.inner == IdxSize::MAX
    }

    #[verifier::when_used_as_spec(spec_is_null)]
    pub fn is_null_idx(&self) -> (r: bool)
        ensures
            r == self.spec_is_null(),
    {
        self.inner == IdxSize::MAX
    }
}

/// The index column that nullable indices stand for.
pub open spec fn nullable_idx_view(idx: Seq<NullableIdxSize>) -> Seq<Option<IdxSize>> {
    idx.map_values(|i: NullableIdxSize| if i.spec_is_null() { None } else { Some(i.inner) })
}

impl ChunkedArray<IdxSize> {
    /// Builds the index column of one chunk that `idx` stands for and hands
    /// it to `f`.
    pub fn with_nullable_idx<R, F: FnOnce(&IdxCa) -> R>(idx: &[NullableIdxSize], f: F) -> (r: R)
        requires
            idx@.len() <= IDX_MAX,
            forall|ca: IdxCa|
                ca.wf() && ca.chunks@.len() == 1 && ca@ == nullable_idx_view(idx@) ==> f.requires(
                    (&ca,),
                ),
        ensures
            exists|ca: IdxCa|
                ca.wf() && ca.chunks@.len() == 1 && ca@ == nullable_idx_view(idx@) && f.ensures(
                    (&ca,),
                    r,
                ),
    {
        let mut values: Vec<IdxSize> = Vec::with_capacity(idx.len());
        let mut validity: Vec<bool> = Vec::with_capacity(idx.len());
        let mut i: usize = 0;
        while i < idx.len()
            invariant
                i <= idx@.len(),
                values@.len() == i,
                validity@.len() == i,
                forall|j: int| 0 <= j < i ==> values@[j] == (#[trigger] idx@[j]).inner,
                forall|j: int| 0 <= j < i ==> validity@[j] == !(#[trigger] idx@[j]).spec_is_null(),
            decreases idx.len() - i,
        {
            values.push(idx[i].inner);
            validity.push(!idx[i].is_null_idx());
            i += 1;
        }
        let arr = PrimitiveArray { values, validity: Some(validity) };
        assert(arr@ =~= nullable_idx_view(idx@));
        let ca = ChunkedArray::from_chunk(arr);
        f(&ca)
    }
}

} // verus!
