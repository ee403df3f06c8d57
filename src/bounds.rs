use vstd::prelude::*;

use crate::array::{
    chunk_views, concat_all, cum_len, lemma_concat_all_index, lemma_concat_all_take_full,
    lemma_concat_all_take_step, IdxCa, IdxSize, PrimitiveArray,
};

verus! {

/// The one recoverable failure of a gather: some index is out of bounds.
#[derive(Clone, Copy, Debug, PartialEq, Eq, Structural)]
pub enum GatherError {
    OutOfBounds,
}

/// Every non-null index is below `len`.
pub open spec fn idx_in_bounds(idx: Seq<Option<IdxSize>>, len: int) -> bool {
    forall|k: int| 0 <= k < idx.len() && (#[trigger] idx[k]) is Some ==> idx[k]->0 < len
}

/// Every index of a dense index slice is below `len`.
pub open spec fn slice_in_bounds(idx: Seq<IdxSize>, len: int) -> bool {
    forall|k: int| 0 <= k < idx.len() ==> (#[trigger] idx[k]) < len
}

/// Checks a dense index slice against `len`.
pub fn check_bounds(idx: &[IdxSize], len: IdxSize) -> (r: Result<(), GatherError>)
    ensures
        r is Ok <==> slice_in_bounds(idx@, len as int),
{
    let mut i: usize = 0;
    while i < idx.len()
        invariant
            i <= idx@.len(),
            forall|k: int| 0 <= k < i ==> idx@[k] < len,
        decreases idx.len() - i,
    {
        if idx[i] >= len {
            return Err(GatherError::OutOfBounds);
        }
        i += 1;
    }
    Ok(())
}

/// Size of the blocks in which `check_bounds_nulls` reads the indices.
pub const BLOCK: usize = 32;

pub open spec fn bit(x: u32, j: u32) -> bool {
    (x >> j) & 1 == 1
}

proof fn lemma_set_bit_other(acc: u32, b: u32, i: u32, j: u32)
    requires
        i < 32,
        j < 32,
        b <= 1,
        j != i,
    ensures
        ((acc | (b << i)) >> j) & 1 == (acc >> j) & 1,
{
    assert(((acc | (b << i)) >> j) & 1 == (acc >> j) & 1) by (bit_vector)
        requires
            i < 32,
            j < 32,
            b <= 1,
            j != i,
    ;
}

proof fn lemma_set_bit_same(acc: u32, b: u32, i: u32)
    requires
        i < 32,
        b <= 1,
        (acc >> i) & 1 != 1,
    ensures
        ((acc | (b << i)) >> i) & 1 == b,
{
    assert(((acc | (b << i)) >> i) & 1 == b) by (bit_vector)
        requires
            i < 32,
            b <= 1,
            (acc >> i) & 1 != 1,
    ;
}

proof fn lemma_zero_bits(j: u32)
    requires
        j < 32,
    ensures
        (0u32 >> j) & 1 == 0,
{
    assert((0u32 >> j) & 1 == 0) by (bit_vector)
        requires
            j < 32,
    ;
}

proof fn lemma_covered(m: u32, a: u32, j: u32)
    requires
        m & !a == 0,
        j < 32,
        (m >> j) & 1 == 1,
    ensures
        (a >> j) & 1 == 1,
{
    assert((a >> j) & 1 == 1) by (bit_vector)
        requires
            m & !a == 0,
            j < 32,
            (m >> j) & 1 == 1,
    ;
}

/// Checks an index chunk that may hold nulls against `len`. The index stored
/// in a null slot is never looked at. The indices are read in blocks of
/// `BLOCK`: each block gives a mask of its valid slots and a mask of its
/// in-bounds slots, and every valid slot must be in bounds.
pub fn check_bounds_nulls(idx: &PrimitiveArray<IdxSize>, len: IdxSize) -> (r: Result<
    (),
    GatherError,
>)
    requires
        idx.wf(),
    ensures
        r is Ok <==> idx_in_bounds(idx@, len as int),
{
    let n = idx.values.len();
    let mut start: usize = 0;
    while start < n
        invariant
            idx.wf(),
            n == idx.values@.len(),
            start <= n,
            forall|k: int| 0 <= k < start && (#[trigger] idx@[k]) is Some ==> idx@[k]->0 < len,
        decreases n - start,
    {
        let end = if n - start < BLOCK {
            n
        } else {
            start + BLOCK
        };
        let mut in_bounds: u32 = 0;
        let mut mask: u32 = 0;
        let mut i = start;
        proof {
            assert forall|j: u32| 0 <= j < 32 implies !bit(in_bounds, j) && !bit(mask, j) by {
                lemma_zero_bits(j);
            }
        }
        while i < end
            invariant
                idx.wf(),
                n == idx.values@.len(),
                start <= i <= end <= n,
                end - start <= 32,
                forall|j: u32|
                    0 <= j < i - start ==> (#[trigger] bit(in_bounds, j) <==> idx.values@[start
                        + j] < len),
                forall|j: u32|
                    0 <= j < i - start ==> (bit(mask, j) <==> (#[trigger] idx@[start + j]) is Some),
                forall|j: u32| i - start <= j < 32 ==> !bit(in_bounds, j) && !bit(mask, j),
            decreases end - i,
        {
            let valid = match &idx.validity {
                Some(v) => v[i],
                None => true,
            };
            let shift = (i - start) as u32;
            let in_range: u32 = if idx.values[i] < len {
                1
            } else {
                0
            };
            let is_valid: u32 = if valid {
                1
            } else {
                0
            };
            let ghost old_in = in_bounds;
            let ghost old_mask = mask;
            in_bounds = in_bounds | (in_range << shift);
            mask = mask | (is_valid << shift);
            proof {
                assert(!bit(old_in, shift) && !bit(old_mask, shift));
                assert(idx@[i as int] is Some <==> valid);
                assert forall|j: u32| 0 <= j < 32 && j != shift implies bit(in_bounds, j) == bit(
                    old_in,
                    j,
                ) && bit(mask, j) == bit(old_mask, j) by {
                    lemma_set_bit_other(old_in, in_range, shift, j);
                    lemma_set_bit_other(old_mask, is_valid, shift, j);
                }
                lemma_set_bit_same(old_in, in_range, shift);
                lemma_set_bit_same(old_mask, is_valid, shift);
                assert forall|j: u32|
                    0 <= j < i + 1 - start implies (bit(mask, j) <==> (#[trigger] idx@[start
                    + j]) is Some) by {
                    if j == shift {
                        assert(start + j == i);
                    }
                }
                assert forall|j: u32|
                    0 <= j < i + 1 - start implies (#[trigger] bit(in_bounds, j)
                    <==> idx.values@[start + j] < len) by {
                    if j == shift {
                        assert(start + j == i);
                    }
                }
            }
            i += 1;
        }
        let block_ok = mask & !in_bounds == 0;
        if !block_ok {
            // The masks disagree: a plain pass over the block finds the slot.
            let mut q = start;
            while q < end
                invariant
                    idx.wf(),
                    n == idx.values@.len(),
                    start <= q <= end <= n,
                    forall|k: int|
                        start <= k < q && (#[trigger] idx@[k]) is Some ==> idx@[k]->0 < len,
                decreases end - q,
            {
                let valid = match &idx.validity {
                    Some(v) => v[q],
                    None => true,
                };
                if valid && idx.values[q] >= len {
                    assert(idx@[q as int] is Some);
                    return Err(GatherError::OutOfBounds);
                }
                q += 1;
            }
            assert(forall|k: int|
                start <= k < end && (#[trigger] idx@[k]) is Some ==> idx@[k]->0 < len);
        }
        proof {
            assert forall|k: int| 0 <= k < end && (#[trigger] idx@[k]) is Some implies idx@[k]->0
                < len by {
                if k >= start && block_ok {
                    let j = (k - start) as u32;
                    assert(start + j == k);
                    assert(idx@[start + j] is Some);
                    assert(bit(mask, j));
                    lemma_covered(mask, in_bounds, j);
                    assert(bit(in_bounds, j));
                    assert(idx@[k]->0 == idx.values@[k]);
                }
            }
        }
        start = end;
    }
    Ok(())
}

/// Checks every chunk of an index column against `len`: the dense check for
/// a chunk without nulls, the null-aware one otherwise.
pub fn check_bounds_ca(indices: &IdxCa, len: IdxSize) -> (r: Result<(), GatherError>)
    requires
        indices.wf(),
    ensures
        r is Ok <==> idx_in_bounds(indices@, len as int),
{
    let ghost s = chunk_views(indices.chunks@);
    let mut c: usize = 0;
    proof {
        assert(s.take(0) =~= Seq::<Seq<Option<IdxSize>>>::empty());
        lemma_concat_all_take_full(s);
    }
    while c < indices.chunks.len()
        invariant
            indices.wf(),
            s == chunk_views(indices.chunks@),
            c <= s.len(),
            idx_in_bounds(concat_all(s.take(c as int)), len as int),
        decreases indices.chunks.len() - c,
    {
        let a = &indices.chunks[c];
        let ok = if !a.has_nulls() {
            let res = check_bounds(a.values.as_slice(), len);
            proof {
                assert(res is Ok <==> idx_in_bounds(a@, len as int)) by {
                    if res is Ok {
                        assert forall|k: int| 0 <= k < a@.len() && (#[trigger] a@[k]) is Some
                            implies a@[k]->0 < len by {
                            assert(a.values@[k] < len);
                        }
                    } else {
                        let k = choose|k: int| 0 <= k < a.values@.len() && !(a.values@[k] < len);
                        assert(a@[k] is Some);
                    }
                }
            }
            res.is_ok()
        } else {
            check_bounds_nulls(a, len).is_ok()
        };
        proof {
            lemma_concat_all_take_step(s, c as int);
            assert(s[c as int] == a@);
        }
        if !ok {
            proof {
                let k = choose|k: int| 0 <= k < a@.len() && (#[trigger] a@[k]) is Some
                    && !(a@[k]->0 < len);
                let g = cum_len(s, c as int) + k;
                lemma_concat_all_index(s, s.len() as int, c as int, g);
                lemma_concat_all_take_full(s);
                assert(indices@[g] == a@[k]);
            }
            return Err(GatherError::OutOfBounds);
        }
        proof {
            let p = concat_all(s.take(c as int));
            let q = concat_all(s.take(c + 1));
            assert forall|k: int| 0 <= k < q.len() && (#[trigger] q[k]) is Some implies q[k]->0
                < len by {
                if k < p.len() {
                    assert(q[k] == p[k]);
                } else {
                    assert(q[k] == a@[k - p.len()]);
                }
            }
        }
        c += 1;
    }
    proof {
        lemma_concat_all_take_full(s);
    }
    Ok(())
}

} // verus!
