use vstd::prelude::*;

use crate::array::{
    concat_all, lemma_concat_all_take_full, lemma_concat_all_take_step, rows_of, total_len, IdxCa,
    IdxSize, PrimitiveArray, StaticArray, IDX_MAX,
};
use crate::bounds::{check_bounds_ca, idx_in_bounds, GatherError};
use crate::gather::gather_view;
use crate::resolve::lemma_concat_single;
use crate::sorted::{_update_gather_sorted_flag, gathered_sorted_flag, IsSorted};

verus! {

/// One chunk of lists that all have `width` elements: row `i` is
/// `values[i * width..(i + 1) * width]`.
pub struct FixedSizeListArray<T> {
    pub width: usize,
    pub length: usize,
    pub values: Vec<T>,
    pub validity: Option<Vec<bool>>,
}

impl<T> FixedSizeListArray<T> {
    pub open spec fn wf(&self) -> bool {
        &&& self.length * self.width <= self.values@.len()
        &&& match self.validity {
            Some(v) => v@.len() == self.length,
            None => true,
        }
    }

    pub open spec fn valid_at(&self, i: int) -> bool {
        match self.validity {
            Some(v) => v@[i],
            None => true,
        }
    }

    /// An empty chunk of lists of `width` elements, with a validity map.
    pub fn empty(width: usize) -> (r: Self)
        ensures
            r.wf(),
            r.width == width,
            r.validity is Some,
            r.length == 0,
            r.values@.len() == 0,
            r.rows() == Seq::<Option<Seq<T>>>::empty(),
    {
        let r = FixedSizeListArray { width, length: 0, values: Vec::new(), validity: Some(Vec::new()) };
        assert(r.rows() =~= Seq::<Option<Seq<T>>>::empty());
        r
    }
}

impl<T> StaticArray for FixedSizeListArray<T> {
    type ValueT = Seq<T>;

    open spec fn rows(&self) -> Seq<Option<Seq<T>>> {
        Seq::new(
            self.length as nat,
            |i: int|
                if self.valid_at(i) {
                    Some(self.values@.subrange(i * self.width, i * self.width + self.width))
                } else {
                    None
                },
        )
    }

    fn len(&self) -> (r: usize) {
        self.length
    }
}

proof fn lemma_row_end(i: int, k: int, w: int)
    requires
        0 <= i < k,
        0 <= w,
    ensures
        0 <= i * w,
        i * w + w <= k * w,
{
    assert(0 <= i * w) by (nonlinear_arith)
        requires
            0 <= i,
            0 <= w,
    ;
    assert(i * w + w <= k * w) by (nonlinear_arith)
        requires
            i < k,
            0 <= w,
    ;
}

impl<T: Copy + Default> FixedSizeListArray<T> {
    /// Appends a row: the `width` values from `src[start]` when `valid`, else
    /// a null row.
    pub fn push_row(&mut self, src: &Vec<T>, start: usize, valid: bool)
        requires
            old(self).wf(),
            old(self).validity is Some,
            old(self).values@.len() == old(self).length * old(self).width,
            old(self).length < IDX_MAX,
            valid ==> start + old(self).width <= src@.len(),
        ensures
            final(self).wf(),
            final(self).validity is Some,
            final(self).width == old(self).width,
            final(self).values@.len() == final(self).length * final(self).width,
            final(self).length == old(self).length + 1,
            final(self).rows() == old(self).rows().push(
                if valid {
                    Some(src@.subrange(start as int, start + old(self).width))
                } else {
                    None
                },
            ),
    {
        let ghost old_values = self.values@;
        let ghost old_rows = self.rows();
        let w = self.width;
        let n_src = src.len();
        let mut b: usize = 0;
        while b < w
            invariant
                n_src == src@.len(),
                b <= w,
                w == self.width,
                valid ==> start + w <= src@.len(),
                self.values@.len() == old_values.len() + b,
                self.values@.subrange(0, old_values.len() as int) == old_values,
                valid ==> self.values@.subrange(old_values.len() as int, self.values@.len() as int)
                    == src@.subrange(start as int, start + b),
                self.length == old(self).length,
                self.validity == old(self).validity,
            decreases w - b,
        {
            if valid {
                self.values.push(src[start + b]);
            } else {
                self.values.push(T::default());
            }
            b += 1;
            assert(self.values@.subrange(0, old_values.len() as int) =~= old_values);
            if valid {
                assert(self.values@.subrange(old_values.len() as int, self.values@.len() as int)
                    =~= src@.subrange(start as int, start + b));
            }
        }
        match &mut self.validity {
            Some(v) => v.push(valid),
            None => {},
        }
        self.length = self.length + 1;
        proof {
            let n = old(self).length as int;
            let nv = self.values@;
            assert(nv.len() == (n + 1) * w) by (nonlinear_arith)
                requires
                    nv.len() == n * w + w,
            ;
            assert forall|i: int| 0 <= i < n implies self.rows()[i] == old_rows[i] by {
                lemma_row_end(i, n, w as int);
                assert(nv.subrange(i * w, i * w + w) =~= old_values.subrange(i * w, i * w + w)) by {
                    assert forall|x: int| i * w <= x < i * w + w implies nv[x] == old_values[x] by {
                        assert(nv.subrange(0, old_values.len() as int)[x] == nv[x]);
                    }
                }
            }
            assert(self.valid_at(n) == valid);
            if valid {
                assert(nv.subrange(n * w, n * w + w) =~= src@.subrange(start as int, start + w));
            }
            assert(self.rows() =~= old_rows.push(
                if valid {
                    Some(src@.subrange(start as int, start + w))
                } else {
                    None
                },
            ));
        }
    }

    /// Appends row `i` of `src`, or a null row where `valid` is false.
    fn push_row_of(&mut self, src: &FixedSizeListArray<T>, i: usize, valid: bool)
        requires
            old(self).wf(),
            old(self).validity is Some,
            old(self).values@.len() == old(self).length * old(self).width,
            old(self).length < IDX_MAX,
            old(self).width == src.width,
            src.wf(),
            i < src.length,
        ensures
            final(self).wf(),
            final(self).validity is Some,
            final(self).width == old(self).width,
            final(self).values@.len() == final(self).length * final(self).width,
            final(self).length == old(self).length + 1,
            final(self).rows() == old(self).rows().push(
                if valid {
                    src.rows()[i as int]
                } else {
                    None
                },
            ),
    {
        let row_valid = match &src.validity {
            Some(v) => v[i],
            None => true,
        };
        let n_values = src.values.len();
        proof {
            lemma_row_end(i as int, src.length as int, src.width as int);
        }
        let start = i * src.width;
        self.push_row(&src.values, start, valid && row_valid);
    }
}

/// Gathers lists from one chunk into a new chunk of the same width. A null
/// index, or a null list, gives a null row.
pub fn take_fixed_unchecked<T: Copy + Default>(
    target: &FixedSizeListArray<T>,
    idx: &PrimitiveArray<IdxSize>,
) -> (r: FixedSizeListArray<T>)
    requires
        target.wf(),
        idx.wf(),
        idx@.len() <= IDX_MAX,
        idx_in_bounds(idx@, target.length as int),
    ensures
        r.wf(),
        r.width == target.width,
        r.rows() == gather_view(target.rows(), idx@),
{
    let mut out = FixedSizeListArray::empty(target.width);
    let n = idx.values.len();
    let mut k: usize = 0;
    while k < n
        invariant
            target.wf(),
            idx.wf(),
            idx_in_bounds(idx@, target.length as int),
            n == idx@.len(),
            n <= IDX_MAX,
            k <= n,
            out.wf(),
            out.validity is Some,
            out.width == target.width,
            out.length == k,
            out.values@.len() == out.length * out.width,
            out.rows() == gather_view(target.rows(), idx@).subrange(0, k as int),
        decreases n - k,
    {
        match idx.get(k) {
            Some(i) => out.push_row_of(target, i as usize, true),
            None => out.push_row(&target.values, 0, false),
        }
        assert(out.rows() =~= gather_view(target.rows(), idx@).subrange(0, k + 1));
        k += 1;
    }
    assert(gather_view(target.rows(), idx@).subrange(0, n as int) =~= gather_view(target.rows(), idx@));
    out
}

/// A column of fixed-size lists split into chunks of one width, with its
/// cached order hint.
pub struct ArrayChunked<T> {
    pub chunks: Vec<FixedSizeListArray<T>>,
    pub sorted: IsSorted,
}

pub open spec fn fixed_chunks_wf<T>(chunks: Seq<FixedSizeListArray<T>>, width: usize) -> bool {
    forall|c: int| 0 <= c < chunks.len() ==> (#[trigger] chunks[c]).wf() && chunks[c].width == width
}

impl<T: Copy + Default> ArrayChunked<T> {
    /// The column's rows, chunk after chunk.
    pub open spec fn rows(&self) -> Seq<Option<Seq<T>>> {
        concat_all(rows_of(self.chunks@))
    }

    pub open spec fn wf(&self) -> bool {
        &&& self.chunks@.len() >= 1
        &&& fixed_chunks_wf(self.chunks@, self.chunks@[0].width)
        &&& self.rows().len() <= IDX_MAX
    }

    /// Merges the chunks into one.
    pub fn rechunk(&self) -> (r: FixedSizeListArray<T>)
        requires
            self.wf(),
        ensures
            r.wf(),
            r.width == self.chunks@[0].width,
            r.rows() == self.rows(),
    {
        let ghost s = rows_of(self.chunks@);
        let width = self.chunks[0].width;
        let mut out = FixedSizeListArray::empty(width);
        let mut c: usize = 0;
        proof {
            assert(s.take(0) =~= Seq::<Seq<Option<Seq<T>>>>::empty());
        }
        while c < self.chunks.len()
            invariant
                self.wf(),
                width == self.chunks@[0].width,
                s == rows_of(self.chunks@),
                c <= s.len(),
                out.wf(),
                out.validity is Some,
                out.width == width,
                out.values@.len() == out.length * out.width,
                out.rows() == concat_all(s.take(c as int)),
            decreases self.chunks.len() - c,
        {
            let a = &self.chunks[c];
            let m = a.length;
            let ghost start = out.rows();
            proof {
                lemma_concat_all_take_step(s, c as int);
                assert(s[c as int] == a.rows());
                crate::array::lemma_cum_len_mono(s, c + 1, s.len() as int);
                lemma_concat_all_take_full(s);
            }
            let mut i: usize = 0;
            while i < m
                invariant
                    a.wf(),
                    a.width == width,
                    m == a.length,
                    i <= m,
                    start.len() + m <= IDX_MAX,
                    out.wf(),
                    out.validity is Some,
                    out.width == width,
                    out.values@.len() == out.length * out.width,
                    out.rows() == start + a.rows().subrange(0, i as int),
                decreases m - i,
            {
                assert(out.length == out.rows().len());
                assert(out.rows().len() == start.len() + i);
                out.push_row_of(a, i, true);
                assert(out.rows() =~= start + a.rows().subrange(0, i + 1));
                i += 1;
            }
            proof {
                assert(a.rows().subrange(0, m as int) =~= a.rows());
            }
            c += 1;
        }
        proof {
            lemma_concat_all_take_full(s);
        }
        out
    }

    /// Gathers the lists named by `indices`, which every non-null index must
    /// be in bounds for. Column and index are first merged into one chunk
    /// each, so the result has one chunk.
    pub fn take_unchecked(&self, indices: &IdxCa) -> (r: ArrayChunked<T>)
        requires
            self.wf(),
            indices.wf(),
            idx_in_bounds(indices@, self.rows().len() as int),
        ensures
            r.wf(),
            r.rows() == gather_view(self.rows(), indices@),
            r.chunks@.len() == 1,
            r.chunks@[0].width == self.chunks@[0].width,
            r.sorted == gathered_sorted_flag(self.sorted, indices.sorted),
    {
        let idx = indices.rechunk();
        let arr = if self.chunks.len() == 1 {
            proof {
                lemma_concat_single(rows_of(self.chunks@));
            }
            take_fixed_unchecked(&self.chunks[0], &idx)
        } else {
            let merged = self.rechunk();
            take_fixed_unchecked(&merged, &idx)
        };
        let mut chunks: Vec<FixedSizeListArray<T>> = Vec::new();
        chunks.push(arr);
        let r = ArrayChunked {
            chunks,
            sorted: _update_gather_sorted_flag(self.sorted, indices.sorted),
        };
        proof {
            assert(r.chunks@ =~= seq![arr]);
            lemma_concat_single(rows_of(r.chunks@));
        }
        r
    }

    /// Gathers the lists named by `indices` after checking that every
    /// non-null index is in bounds; fails, producing nothing, where one is
    /// not.
    pub fn take(&self, indices: &IdxCa) -> (r: Result<ArrayChunked<T>, GatherError>)
        requires
            self.wf(),
            indices.wf(),
        ensures
            r is Err <==> !idx_in_bounds(indices@, self.rows().len() as int),
            r matches Ok(a) ==> {
                &&& a.wf()
                &&& a.rows() == gather_view(self.rows(), indices@)
                &&& a.chunks@.len() == 1
                &&& a.chunks@[0].width == self.chunks@[0].width
                &&& a.sorted == gathered_sorted_flag(self.sorted, indices.sorted)
            },
    {
        let len = total_len(&self.chunks) as IdxSize;
        match check_bounds_ca(indices, len) {
            Err(e) => Err(e),
            Ok(()) => Ok(self.take_unchecked(indices)),
        }
    }
}

} // verus!
