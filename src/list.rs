use vstd::prelude::*;

use crate::array::{
    concat_all, lemma_concat_all_take_full, lemma_concat_all_take_step, rows_of, total_len, IdxCa,
    IdxSize, PrimitiveArray, StaticArray, IDX_MAX,
};
use crate::bounds::{check_bounds_ca, idx_in_bounds, GatherError};
use crate::gather::gather_view;
use crate::resolve::lemma_concat_single;
use crate::sorted::{_update_gather_sorted_flag, gathered_sorted_flag, IsSorted};

verus! {

/// Offsets are non-decreasing and the last one lies within `len` values.
pub open spec fn offsets_wf(offsets: Seq<usize>, len: nat) -> bool {
    &&& offsets.len() >= 1
    &&& forall|i: int, j: int| 0 <= i <= j < offsets.len() ==> offsets[i] <= offsets[j]
    &&& offsets.last() <= len
}

/// One chunk of variable-length lists: list `i` is
/// `values[offsets[i]..offsets[i + 1]]`.
pub struct ListArray<T> {
    pub offsets: Vec<usize>,
    pub values: Vec<T>,
    pub validity: Option<Vec<bool>>,
}

impl<T> ListArray<T> {
    pub open spec fn wf(&self) -> bool {
        &&& offsets_wf(self.offsets@, self.values@.len())
        &&& match self.validity {
            Some(v) => v@.len() + 1 == self.offsets@.len(),
            None => true,
        }
    }

    pub open spec fn row_count(&self) -> nat {
        if self.offsets@.len() == 0 {
            0
        } else {
            (self.offsets@.len() - 1) as nat
        }
    }

    pub open spec fn valid_at(&self, i: int) -> bool {
        match self.validity {
            Some(v) => v@[i],
            None => true,
        }
    }

    /// An empty chunk with a validity map, to be filled row by row.
    pub fn empty() -> (r: Self)
        ensures
            r.wf(),
            r.validity is Some,
            r.offsets@.last() == r.values@.len(),
            r.rows() == Seq::<Option<Seq<T>>>::empty(),
    {
        let mut offsets: Vec<usize> = Vec::new();
        offsets.push(0);
        let r = ListArray { offsets, values: Vec::new(), validity: Some(Vec::new()) };
        assert(r.rows() =~= Seq::<Option<Seq<T>>>::empty());
        r
    }
}

impl<T: Copy> ListArray<T> {
    /// Appends a row: `src[start..end]` when `valid`, else a null row.
    pub fn push_row(&mut self, src: &Vec<T>, start: usize, end: usize, valid: bool)
        requires
            old(self).wf(),
            old(self).validity is Some,
            old(self).offsets@.last() == old(self).values@.len(),
            start <= end <= src@.len(),
        ensures
            final(self).wf(),
            final(self).validity is Some,
            final(self).offsets@.last() == final(self).values@.len(),
            final(self).rows() == old(self).rows().push(
                if valid {
                    Some(src@.subrange(start as int, end as int))
                } else {
                    None
                },
            ),
    {
        let ghost old_values = self.values@;
        let ghost old_offsets = self.offsets@;
        let ghost old_rows = self.rows();
        if valid {
            let mut i = start;
            while i < end
                invariant
                    start <= i <= end <= src@.len(),
                    self.values@.len() == old_values.len() + (i - start),
                    self.values@.subrange(0, old_values.len() as int) == old_values,
                    self.values@.subrange(old_values.len() as int, self.values@.len() as int)
                        == src@.subrange(start as int, i as int),
                    self.offsets@ == old_offsets,
                    self.validity == old(self).validity,
                decreases end - i,
            {
                self.values.push(src[i]);
                i += 1;
                assert(self.values@.subrange(0, old_values.len() as int) =~= old_values);
                assert(self.values@.subrange(old_values.len() as int, self.values@.len() as int)
                    =~= src@.subrange(start as int, i as int));
            }
        }
        let end_offset = self.values.len();
        self.offsets.push(end_offset);
        match &mut self.validity {
            Some(v) => v.push(valid),
            None => {},
        }
        proof {
            let ov = old_values;
            let nv = self.values@;
            if !valid {
                assert(nv =~= ov);
            }
            assert forall|i: int, j: int| 0 <= i <= j < self.offsets@.len() implies self.offsets@[i]
                <= self.offsets@[j] by {
                if j == self.offsets@.len() - 1 && i < j {
                    assert(old_offsets[i] <= old_offsets.last());
                }
            }
            assert forall|i: int| 0 <= i < old_rows.len() implies self.rows()[i] == old_rows[i] by {
                assert(old_offsets[i] <= old_offsets[i + 1] <= old_offsets.last());
                assert(nv.subrange(old_offsets[i] as int, old_offsets[i + 1] as int)
                    =~= ov.subrange(old_offsets[i] as int, old_offsets[i + 1] as int)) by {
                    assert(nv.subrange(0, ov.len() as int) == ov);
                    assert forall|k: int|
                        old_offsets[i] <= k < old_offsets[i + 1] implies nv[k] == ov[k] by {
                        assert(nv.subrange(0, ov.len() as int)[k] == nv[k]);
                    }
                }
            }
            let n = old_rows.len() as int;
            assert(self.offsets@[n] == ov.len());
            assert(self.valid_at(n) == valid);
            if valid {
                assert(nv.subrange(ov.len() as int, nv.len() as int) == src@.subrange(
                    start as int,
                    end as int,
                ));
            }
            assert(self.rows() =~= old_rows.push(
                if valid {
                    Some(src@.subrange(start as int, end as int))
                } else {
                    None
                },
            ));
        }
    }
}

impl<T> StaticArray for ListArray<T> {
    type ValueT = Seq<T>;

    open spec fn rows(&self) -> Seq<Option<Seq<T>>> {
        Seq::new(
            self.row_count(),
            |i: int|
                if self.valid_at(i) {
                    Some(self.values@.subrange(self.offsets@[i] as int, self.offsets@[i + 1] as int))
                } else {
                    None
                },
        )
    }

    fn len(&self) -> (r: usize) {
        if self.offsets.len() == 0 {
            0
        } else {
            self.offsets.len() - 1
        }
    }
}

impl<T: Copy> ListArray<T> {
    /// Appends row `i` of `src`, or a null row where `valid` is false.
    fn push_row_of(&mut self, src: &ListArray<T>, i: usize, valid: bool)
        requires
            old(self).wf(),
            old(self).validity is Some,
            old(self).offsets@.last() == old(self).values@.len(),
            src.wf(),
            i < src.rows().len(),
        ensures
            final(self).wf(),
            final(self).validity is Some,
            final(self).offsets@.last() == final(self).values@.len(),
            final(self).rows() == old(self).rows().push(
                if valid {
                    src.rows()[i as int]
                } else {
                    None
                },
            ),
    {
        let row_valid = match &src.validity {
            Some(v) => v[i],
            None => true,
        };
        let n_offsets = src.offsets.len();
        let start = src.offsets[i];
        let end = src.offsets[i + 1];
        proof {
            assert(src.offsets@[i + 1] <= src.offsets@.last());
        }
        self.push_row(&src.values, start, end, valid && row_valid);
    }
}

/// A column of list chunks, with its cached order hint.
pub struct ListChunked<T> {
    pub chunks: Vec<ListArray<T>>,
    pub sorted: IsSorted,
}

pub open spec fn list_chunks_wf<T>(chunks: Seq<ListArray<T>>) -> bool {
    forall|c: int| 0 <= c < chunks.len() ==> (#[trigger] chunks[c]).wf()
}

/// Gathers the lists named by `idx` from one chunk into a new chunk. A null
/// index, or a null list, gives a null row.
pub fn take_list_unchecked<T: Copy>(target: &ListArray<T>, idx: &PrimitiveArray<IdxSize>) -> (r:
    ListArray<T>)
    requires
        target.wf(),
        idx.wf(),
        idx_in_bounds(idx@, target.rows().len() as int),
    ensures
        r.wf(),
        r.rows() == gather_view(target.rows(), idx@),
{
    let mut out = ListArray::empty();
    let no_values: Vec<T> = Vec::new();
    let n = idx.values.len();
    let mut k: usize = 0;
    while k < n
        invariant
            target.wf(),
            idx.wf(),
            idx_in_bounds(idx@, target.rows().len() as int),
            n == idx@.len(),
            k <= n,
            out.wf(),
            out.validity is Some,
            out.offsets@.last() == out.values@.len(),
            out.rows() == gather_view(target.rows(), idx@).subrange(0, k as int),
        decreases n - k,
    {
        let ghost before = out.rows();
        match idx.get(k) {
            Some(i) => out.push_row_of(target, i as usize, true),
            None => out.push_row(&no_values, 0, 0, false),
        }
        assert(out.rows() =~= gather_view(target.rows(), idx@).subrange(0, k + 1));
        k += 1;
    }
    assert(gather_view(target.rows(), idx@).subrange(0, n as int) =~= gather_view(target.rows(), idx@));
    out
}

impl<T: Copy> ListChunked<T> {
    /// The column's rows, chunk after chunk.
    pub open spec fn rows(&self) -> Seq<Option<Seq<T>>> {
        concat_all(rows_of(self.chunks@))
    }

    pub open spec fn wf(&self) -> bool {
        &&& self.chunks@.len() >= 1
        &&& list_chunks_wf(self.chunks@)
        &&& self.rows().len() <= IDX_MAX
    }

    /// Merges the chunks into one.
    pub fn rechunk(&self) -> (r: ListArray<T>)
        requires
            self.wf(),
        ensures
            r.wf(),
            r.rows() == self.rows(),
    {
        let ghost s = rows_of(self.chunks@);
        let mut out = ListArray::empty();
        let mut c: usize = 0;
        proof {
            assert(s.take(0) =~= Seq::<Seq<Option<Seq<T>>>>::empty());
        }
        while c < self.chunks.len()
            invariant
                self.wf(),
                s == rows_of(self.chunks@),
                c <= s.len(),
                out.wf(),
                out.validity is Some,
                out.offsets@.last() == out.values@.len(),
                out.rows() == concat_all(s.take(c as int)),
            decreases self.chunks.len() - c,
        {
            let a = &self.chunks[c];
            let m = a.len();
            let ghost start = out.rows();
            let mut i: usize = 0;
            while i < m
                invariant
                    a.wf(),
                    m == a.rows().len(),
                    i <= m,
                    out.wf(),
                    out.validity is Some,
                    out.offsets@.last() == out.values@.len(),
                    out.rows() == start + a.rows().subrange(0, i as int),
                decreases m - i,
            {
                out.push_row_of(a, i, true);
                assert(out.rows() =~= start + a.rows().subrange(0, i + 1));
                i += 1;
            }
            proof {
                lemma_concat_all_take_step(s, c as int);
                assert(s[c as int] == a.rows());
                assert(a.rows().subrange(0, m as int) =~= a.rows());
            }
            c += 1;
        }
        proof {
            lemma_concat_all_take_full(s);
        }
        out
    }

    /// Gathers the lists named by `indices`, which every non-null index must
    /// be in bounds for. Column and index are first merged into one chunk
    /// each, so the result has one chunk.
    pub fn take_unchecked(&self, indices: &IdxCa) -> (r: ListChunked<T>)
        requires
            self.wf(),
            indices.wf(),
            idx_in_bounds(indices@, self.rows().len() as int),
        ensures
            r.wf(),
            r.rows() == gather_view(self.rows(), indices@),
            r.chunks@.len() == 1,
            r.sorted == gathered_sorted_flag(self.sorted, indices.sorted),
    {
        let idx = indices.rechunk();
        let arr = if self.chunks.len() == 1 {
            proof {
                lemma_concat_single(rows_of(self.chunks@));
            }
            take_list_unchecked(&self.chunks[0], &idx)
        } else {
            let merged = self.rechunk();
            take_list_unchecked(&merged, &idx)
        };
        let mut chunks: Vec<ListArray<T>> = Vec::new();
        chunks.push(arr);
        let r = ListChunked {
            chunks,
            sorted: _update_gather_sorted_flag(self.sorted, indices.sorted),
        };
        proof {
            assert(r.chunks@ =~= seq![arr]);
            lemma_concat_single(rows_of(r.chunks@));
        }
        r
    }

    /// Gathers the lists named by `indices` after checking that every
    /// non-null index is in bounds; fails, producing nothing, where one is
    /// not.
    pub fn take(&self, indices: &IdxCa) -> (r: Result<ListChunked<T>, GatherError>)
        requires
            self.wf(),
            indices.wf(),
        ensures
            r is Err <==> !idx_in_bounds(indices@, self.rows().len() as int),
            r matches Ok(a) ==> {
                &&& a.wf()
                &&& a.rows() == gather_view(self.rows(), indices@)
                &&& a.chunks@.len() == 1
                &&& a.sorted == gathered_sorted_flag(self.sorted, indices.sorted)
            },
    {
        let len = total_len(&self.chunks) as IdxSize;
        match check_bounds_ca(indices, len) {
            Err(e) => Err(e),
            Ok(()) => Ok(self.take_unchecked(indices)),
        }
    }
}

} // verus!
