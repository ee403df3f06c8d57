use vstd::prelude::*;

use crate::array::{ChunkedArray, IdxCa};
use crate::binview::{BinaryChunked, StringChunked};
use crate::bounds::{idx_in_bounds, GatherError};
use crate::fixed::ArrayChunked;
use crate::gather::{gather_view, no_nulls};
use crate::list::ListChunked;
use crate::sorted::{gathered_sorted_flag, IsSorted};
use crate::structs::StructChunked;

verus! {

/// A column of one of the element categories that a gather knows: fixed-width
/// scalars, view-encoded binary and text, lists, fixed-size lists and structs.
pub enum Series {
    Int64(ChunkedArray<i64>),
    UInt32(ChunkedArray<u32>),
    Binary(BinaryChunked),
    String(StringChunked),
    List(ListChunked<i64>),
    Array(ArrayChunked<i64>),
    Struct(StructChunked<i64>),
}

impl Series {
    pub open spec fn wf(&self) -> bool {
        match self {
            Series::Int64(a) => a.wf(),
            Series::UInt32(a) => a.wf(),
            Series::Binary(a) => a.wf(),
            Series::String(a) => a.wf(),
            Series::List(a) => a.wf(),
            Series::Array(a) => a.wf(),
            Series::Struct(a) => a.wf(),
        }
    }

    /// Number of logical rows.
    pub open spec fn row_count(&self) -> nat {
        match self {
            Series::Int64(a) => a@.len(),
            Series::UInt32(a) => a@.len(),
            Series::Binary(a) => a.rows().len(),
            Series::String(a) => a.rows().len(),
            Series::List(a) => a.rows().len(),
            Series::Array(a) => a.rows().len(),
            Series::Struct(a) => a.rows().len(),
        }
    }

    pub open spec fn sorted_flag(&self) -> IsSorted {
        match self {
            Series::Int64(a) => a.sorted,
            Series::UInt32(a) => a.sorted,
            Series::Binary(a) => a.sorted,
            Series::String(a) => a.inner.sorted,
            Series::List(a) => a.sorted,
            Series::Array(a) => a.sorted,
            Series::Struct(a) => a.sorted,
        }
    }

    /// `out` is `self` gathered through `indices`: same category, rows picked
    /// by the index, the combined order hint, and the chunk layout each
    /// category gives. Scalar, binary and text results have one chunk per
    /// index chunk, each without a validity map exactly when neither side
    /// holds a null; nested results have one chunk and keep the list width
    /// or the struct's fields.
    pub open spec fn gathers_to(&self, indices: IdxCa, out: Series) -> bool {
        let idx = indices@;
        &&& out.wf()
        &&& out.sorted_flag() == gathered_sorted_flag(self.sorted_flag(), indices.sorted)
        &&& match (self, out) {
            (Series::Int64(a), Series::Int64(b)) => {
                &&& b@ == gather_view(a@, idx)
                &&& b.chunks@.len() == indices.chunks@.len()
                &&& forall|c: int|
                    0 <= c < b.chunks@.len() ==> ((#[trigger] b.chunks@[c]).validity is None <==> (
                    no_nulls(a@) && no_nulls(indices.chunks@[c]@)))
            },
            (Series::UInt32(a), Series::UInt32(b)) => {
                &&& b@ == gather_view(a@, idx)
                &&& b.chunks@.len() == indices.chunks@.len()
                &&& forall|c: int|
                    0 <= c < b.chunks@.len() ==> ((#[trigger] b.chunks@[c]).validity is None <==> (
                    no_nulls(a@) && no_nulls(indices.chunks@[c]@)))
            },
            (Series::Binary(a), Series::Binary(b)) => {
                &&& b.rows() == gather_view(a.rows(), idx)
                &&& b.chunks@.len() == indices.chunks@.len()
                &&& forall|c: int|
                    0 <= c < b.chunks@.len() ==> ((#[trigger] b.chunks@[c]).validity is None <==> (
                    no_nulls(a.rows()) && no_nulls(indices.chunks@[c]@)))
            },
            (Series::String(a), Series::String(b)) => {
                &&& b.rows() == gather_view(a.rows(), idx)
                &&& b.inner.chunks@.len() == indices.chunks@.len()
                &&& forall|c: int|
                    0 <= c < b.inner.chunks@.len() ==> ((#[trigger] b.inner.chunks@[c]).validity
                        is None <==> (no_nulls(a.rows()) && no_nulls(indices.chunks@[c]@)))
            },
            (Series::List(a), Series::List(b)) => {
                &&& b.rows() == gather_view(a.rows(), idx)
                &&& b.chunks@.len() == 1
            },
            (Series::Array(a), Series::Array(b)) => {
                &&& b.rows() == gather_view(a.rows(), idx)
                &&& b.chunks@.len() == 1
                &&& b.chunks@[0].width == a.chunks@[0].width
            },
            (Series::Struct(a), Series::Struct(b)) => {
                &&& b.rows() == gather_view(a.rows(), idx)
                &&& b.chunks@.len() == 1
                &&& b.field_count() == a.field_count()
            },
            _ => false,
        }
    }
}

/// Gathers the rows of `target` named by `indices`, which every non-null
/// index must be in bounds for. The category is chosen once for the call.
pub fn unchecked_gather(target: &Series, indices: &IdxCa) -> (r: Series)
    requires
        target.wf(),
        indices.wf(),
        idx_in_bounds(indices@, target.row_count() as int),
    ensures
        target.gathers_to(*indices, r),
{
    match target {
        Series::Int64(a) => Series::Int64(a.take_unchecked(indices)),
        Series::UInt32(a) => Series::UInt32(a.take_unchecked(indices)),
        Series::Binary(a) => Series::Binary(a.take_unchecked(indices)),
        Series::String(a) => Series::String(a.take_unchecked(indices)),
        Series::List(a) => Series::List(a.take_unchecked(indices)),
        Series::Array(a) => Series::Array(a.take_unchecked(indices)),
        Series::Struct(a) => Series::Struct(a.take_unchecked(indices)),
    }
}

/// Gathers the rows of `target` named by `indices` after checking that every
/// non-null index is in bounds; fails, producing nothing, where one is not.
pub fn checked_gather(target: &Series, indices: &IdxCa) -> (r: Result<Series, GatherError>)
    requires
        target.wf(),
        indices.wf(),
    ensures
        r is Err <==> !idx_in_bounds(indices@, target.row_count() as int),
        r matches Ok(s) ==> target.gathers_to(*indices, s),
{
    match target {
        Series::Int64(a) => match a.take(indices) {
            Ok(b) => Ok(Series::Int64(b)),
            Err(e) => Err(e),
        },
        Series::UInt32(a) => match a.take(indices) {
            Ok(b) => Ok(Series::UInt32(b)),
            Err(e) => Err(e),
        },
        Series::Binary(a) => match a.take(indices) {
            Ok(b) => Ok(Series::Binary(b)),
            Err(e) => Err(e),
        },
        Series::String(a) => match a.take(indices) {
            Ok(b) => Ok(Series::String(b)),
            Err(e) => Err(e),
        },
        Series::List(a) => match a.take(indices) {
            Ok(b) => Ok(Series::List(b)),
            Err(e) => Err(e),
        },
        Series::Array(a) => match a.take(indices) {
            Ok(b) => Ok(Series::Array(b)),
            Err(e) => Err(e),
        },
        Series::Struct(a) => match a.take(indices) {
            Ok(b) => Ok(Series::Struct(b)),
            Err(e) => Err(e),
        },
    }
}

} // verus!
