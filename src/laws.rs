use vstd::prelude::*;

use crate::array::{concat_all, IdxSize};
use crate::bounds::idx_in_bounds;
use crate::gather::{checked_gather_view, gather_view, no_nulls};
use crate::sorted::{gathered_sorted_flag, IsSorted};

verus! {

/// Gathering a column without nulls through an in-bounds index without nulls
/// gives, at each position `k`, the row `idx[k]`, and holds no null.
pub proof fn lemma_dense_gather<T>(t: Seq<Option<T>>, idx: Seq<Option<IdxSize>>)
    requires
        no_nulls(t),
        no_nulls(idx),
        idx_in_bounds(idx, t.len() as int),
    ensures
        gather_view(t, idx).len() == idx.len(),
        forall|k: int|
            0 <= k < idx.len() ==> #[trigger] gather_view(t, idx)[k] == t[idx[k]->0 as int],
        no_nulls(gather_view(t, idx)),
{
    assert forall|k: int| 0 <= k < idx.len() implies #[trigger] gather_view(t, idx)[k] is Some by {
        assert(idx[k] is Some);
        assert(t[idx[k]->0 as int] is Some);
    }
    assert forall|k: int| 0 <= k < idx.len() implies #[trigger] gather_view(t, idx)[k] == t[idx[k]->0 as int] by {
        assert(idx[k] is Some);
    }
}

/// A null index gives a null row, whatever the column holds.
pub proof fn lemma_null_index_gives_null<T>(t: Seq<Option<T>>, idx: Seq<Option<IdxSize>>, k: int)
    requires
        0 <= k < idx.len(),
        idx[k] is None,
    ensures
        gather_view(t, idx)[k] is None,
{
}

/// A non-null index that points at a null row gives a null row.
pub proof fn lemma_null_target_gives_null<T>(t: Seq<Option<T>>, idx: Seq<Option<IdxSize>>, k: int)
    requires
        0 <= k < idx.len(),
        idx[k] is Some,
        idx[k]->0 < t.len(),
        t[idx[k]->0 as int] is None,
    ensures
        gather_view(t, idx)[k] is None,
{
}

/// Where every non-null index is in bounds, the checked gather succeeds with
/// exactly the rows that the unchecked gather returns.
pub proof fn lemma_checked_agrees_with_unchecked<T>(t: Seq<Option<T>>, idx: Seq<Option<IdxSize>>)
    requires
        idx_in_bounds(idx, t.len() as int),
    ensures
        checked_gather_view(t, idx) == Some(gather_view(t, idx)),
{
}

/// Where some non-null index is out of bounds, the checked gather gives
/// nothing.
pub proof fn lemma_checked_refuses_out_of_bounds<T>(
    t: Seq<Option<T>>,
    idx: Seq<Option<IdxSize>>,
    k: int,
)
    requires
        0 <= k < idx.len(),
        idx[k] is Some,
        idx[k]->0 >= t.len(),
    ensures
        checked_gather_view(t, idx) is None,
{
}

/// The order hint of a gathered column, case by case: `Not` on either side
/// gives `Not`; equal hints give `Ascending`; opposite hints give
/// `Descending`.
pub proof fn lemma_sorted_flag_table()
    ensures
        gathered_sorted_flag(IsSorted::Ascending, IsSorted::Ascending) == IsSorted::Ascending,
        gathered_sorted_flag(IsSorted::Ascending, IsSorted::Descending) == IsSorted::Descending,
        gathered_sorted_flag(IsSorted::Ascending, IsSorted::Not) == IsSorted::Not,
        gathered_sorted_flag(IsSorted::Descending, IsSorted::Ascending) == IsSorted::Descending,
        gathered_sorted_flag(IsSorted::Descending, IsSorted::Descending) == IsSorted::Ascending,
        gathered_sorted_flag(IsSorted::Descending, IsSorted::Not) == IsSorted::Not,
        gathered_sorted_flag(IsSorted::Not, IsSorted::Ascending) == IsSorted::Not,
        gathered_sorted_flag(IsSorted::Not, IsSorted::Descending) == IsSorted::Not,
        gathered_sorted_flag(IsSorted::Not, IsSorted::Not) == IsSorted::Not,
{
}

/// How a column is split into chunks does not change what a gather returns:
/// chunks whose concatenation is `flat` give the same rows as `flat` stored
/// as one chunk.
pub proof fn lemma_gather_ignores_chunking<T>(
    chunks: Seq<Seq<Option<T>>>,
    flat: Seq<Option<T>>,
    idx: Seq<Option<IdxSize>>,
)
    requires
        concat_all(chunks) == flat,
    ensures
        gather_view(concat_all(chunks), idx) == gather_view(concat_all(seq![flat]), idx),
{
    let one = seq![flat];
    assert(one.drop_last() =~= Seq::<Seq<Option<T>>>::empty());
    assert(concat_all(one.drop_last()) =~= Seq::<Option<T>>::empty());
    assert(concat_all(one) =~= flat);
}

} // verus!
