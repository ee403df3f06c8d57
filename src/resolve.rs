use vstd::prelude::*;

use crate::array::{
    concat_all, cum_len, lemma_concat_all_index, lemma_concat_all_take_full,
    lemma_concat_all_take_step, lemma_cum_len_mono, rows_of, IdxSize, StaticArray, IDX_MAX,
};

verus! {

/// The table is non-decreasing and starts at zero.
pub open spec fn is_cumulative_table(cumlens: Seq<IdxSize>) -> bool {
    &&& cumlens.len() >= 1
    &&& cumlens[0] == 0
    &&& forall|a: int, b: int| 0 <= a <= b < cumlens.len() ==> cumlens[a] <= cumlens[b]
}

/// Prefix sums of the chunks' lengths: entry `c` is the number of rows stored
/// before chunk `c`. The end of the last chunk is not part of the table.
pub fn cumulative_lengths<A: StaticArray>(arrs: &Vec<A>) -> (r: Vec<IdxSize>)
    requires
        concat_all(rows_of(arrs@)).len() <= IDX_MAX,
    ensures
        r@.len() == arrs@.len(),
        forall|c: int| 0 <= c < arrs@.len() ==> r@[c] == cum_len(rows_of(arrs@), c),
{
    let ghost s = rows_of(arrs@);
    let mut ret: Vec<IdxSize> = Vec::with_capacity(arrs.len());
    let mut cumsum: IdxSize = 0;
    let mut i: usize = 0;
    proof {
        assert(s.take(0) =~= Seq::<Seq<Option<A::ValueT>>>::empty());
        lemma_concat_all_take_full(s);
    }
    while i < arrs.len()
        invariant
            s == rows_of(arrs@),
            concat_all(s).len() <= IDX_MAX,
            i <= arrs@.len(),
            ret@.len() == i,
            cumsum == cum_len(s, i as int),
            forall|c: int| 0 <= c < i ==> ret@[c] == cum_len(s, c),
        decreases arrs.len() - i,
    {
        ret.push(cumsum);
        proof {
            lemma_concat_all_take_step(s, i as int);
            lemma_cum_len_mono(s, i + 1, s.len() as int);
            lemma_concat_all_take_full(s);
        }
        let n = arrs[i].len();
        cumsum = cumsum + n as IdxSize;
        i += 1;
    }
    ret
}

/// Resolves a row number into the chunk that holds it and the offset inside
/// that chunk: the chunk is the last one whose start is at most `idx`.
pub fn resolve_chunked_idx(idx: IdxSize, cumlens: &[IdxSize]) -> (r: (usize, usize))
    requires
        is_cumulative_table(cumlens@),
    ensures
        r.0 < cumlens@.len(),
        cumlens@[r.0 as int] <= idx,
        forall|c: int| r.0 < c < cumlens@.len() ==> idx < cumlens@[c],
        r.1 == idx - cumlens@[r.0 as int],
{
    let mut lo: usize = 0;
    let mut hi: usize = cumlens.len();
    while lo < hi
        invariant
            is_cumulative_table(cumlens@),
            0 <= lo <= hi <= cumlens@.len(),
            forall|j: int| 0 <= j < lo ==> cumlens@[j] <= idx,
            forall|j: int| hi <= j < cumlens@.len() ==> idx < cumlens@[j],
        decreases hi - lo,
    {
        let mid = lo + (hi - lo) / 2;
        if idx >= cumlens[mid] {
            lo = mid + 1;
        } else {
            hi = mid;
        }
    }
    assert(lo >= 1) by {
        if lo == 0 {
            assert(idx < cumlens@[0]);
        }
    }
    let chunk_idx = lo - 1;
    (chunk_idx, (idx - cumlens[chunk_idx]) as usize)
}

/// A table of prefix sums, for at least one chunk, is a cumulative table.
pub proof fn lemma_table_is_cumulative<A>(s: Seq<Seq<A>>, cumlens: Seq<IdxSize>)
    requires
        s.len() >= 1,
        cumlens.len() == s.len(),
        forall|c: int| 0 <= c < s.len() ==> cumlens[c] == cum_len(s, c),
    ensures
        is_cumulative_table(cumlens),
{
    assert(s.take(0) =~= Seq::<Seq<A>>::empty());
    assert forall|a: int, b: int| 0 <= a <= b < cumlens.len() implies cumlens[a] <= cumlens[b] by {
        lemma_cum_len_mono(s, a, b);
    }
}

/// Where the resolver puts a row, the concatenation has that chunk's element.
pub proof fn lemma_resolved<A>(s: Seq<Seq<A>>, cumlens: Seq<IdxSize>, idx: int, c: int)
    requires
        s.len() >= 1,
        cumlens.len() == s.len(),
        forall|j: int| 0 <= j < s.len() ==> cumlens[j] == cum_len(s, j),
        0 <= idx < concat_all(s).len(),
        0 <= c < cumlens.len(),
        cumlens[c] <= idx,
        forall|j: int| c < j < cumlens.len() ==> idx < cumlens[j],
    ensures
        0 <= idx - cumlens[c] < s[c].len(),
        concat_all(s)[idx] == s[c][idx - cumlens[c]],
{
    let n = s.len() as int;
    lemma_concat_all_take_step(s, c);
    lemma_concat_all_take_full(s);
    if c + 1 < n {
        assert(idx < cumlens[c + 1]);
    } else {
        assert(s.take(c + 1) =~= s);
    }
    lemma_concat_all_index(s, n, c, idx);
}

/// One chunk's rows are the whole column.
pub proof fn lemma_concat_single<A>(s: Seq<Seq<A>>)
    requires
        s.len() == 1,
    ensures
        concat_all(s) == s[0],
{
    assert(s.drop_last() =~= Seq::<Seq<A>>::empty());
    assert(concat_all(s.drop_last()) =~= Seq::<A>::empty());
    assert(concat_all(s) =~= s[0]);
}

} // verus!
