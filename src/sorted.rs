use vstd::prelude::*;

verus! {

/// Cached order hint of a column. It is advisory only: nothing relies on it
/// for correctness.
#[derive(Clone, Copy, Debug, PartialEq, Eq, Structural)]
pub enum IsSorted {
    Ascending,
    Descending,
    Not,
}

/// The order hint of `target` gathered through an index whose hint is `idx`.
pub open spec fn gathered_sorted_flag(target: IsSorted, idx: IsSorted) -> IsSorted {
    if target == IsSorted::Not || idx == IsSorted::Not {
        IsSorted::Not
    } else if target == idx {
        IsSorted::Ascending
    } else {
        IsSorted::Descending
    }
}

/// Combines the order hint of a gathered column with that of the index.
pub fn _update_gather_sorted_flag(sorted_arr: IsSorted, sorted_idx: IsSorted) -> (r: IsSorted)
    ensures
        r == gathered_sorted_flag(sorted_arr, sorted_idx),
{
    match (sorted_arr, sorted_idx) {
        (_, IsSorted::Not) => IsSorted::Not,
        (IsSorted::Not, _) => IsSorted::Not,
        (IsSorted::Ascending, IsSorted::Ascending) => IsSorted::Ascending,
        (IsSorted::Ascending, IsSorted::Descending) => IsSorted::Descending,
        (IsSorted::Descending, IsSorted::Ascending) => IsSorted::Descending,
        (IsSorted::Descending, IsSorted::Descending) => IsSorted::Ascending,
    }
}

} // verus!
