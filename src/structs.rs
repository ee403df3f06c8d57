use vstd::prelude::*;

use crate::array::{
    concat_all, cum_len, lemma_concat_all_index, lemma_concat_all_take_full,
    lemma_concat_all_take_step, rows_of, total_len, IdxCa, IdxSize, PrimitiveArray, StaticArray,
    IDX_MAX,
};
use crate::bounds::{check_bounds_ca, idx_in_bounds, GatherError};
use crate::gather::gather_view;
use crate::resolve::lemma_concat_single;
use crate::sorted::{_update_gather_sorted_flag, gathered_sorted_flag, IsSorted};

verus! {

/// One chunk of a struct column: `length` rows, each made of the row of the
/// same position in every field, and a validity map of its own.
pub struct StructArray<T> {
    pub fields: Vec<PrimitiveArray<T>>,
    pub length: usize,
    pub validity: Option<Vec<bool>>,
}

impl<T> StructArray<T> {
    pub open spec fn wf(&self) -> bool {
        &&& forall|f: int|
            0 <= f < self.fields@.len() ==> (#[trigger] self.fields@[f]).wf()
                && self.fields@[f]@.len() == self.length
        &&& match self.validity {
            Some(v) => v@.len() == self.length,
            None => true,
        }
    }

    pub open spec fn valid_at(&self, i: int) -> bool {
        match self.validity {
            Some(v) => v@[i],
            None => true,
        }
    }

    /// The struct validity as a sequence.
    pub open spec fn valid_seq(&self) -> Seq<bool> {
        Seq::new(self.length as nat, |i: int| self.valid_at(i))
    }
}

impl<T> StaticArray for StructArray<T> {
    type ValueT = Seq<Option<T>>;

    open spec fn rows(&self) -> Seq<Option<Seq<Option<T>>>> {
        Seq::new(
            self.length as nat,
            |i: int|
                if self.valid_at(i) {
                    Some(Seq::new(self.fields@.len(), |f: int| self.fields@[f]@[i]))
                } else {
                    None
                },
        )
    }

    fn len(&self) -> (r: usize) {
        self.length
    }
}

/// Takes rows of one chunk of values: a null index gives a null row.
pub fn take_primitive_unchecked<T: Copy + Default>(
    target: &PrimitiveArray<T>,
    idx: &PrimitiveArray<IdxSize>,
) -> (r: PrimitiveArray<T>)
    requires
        target.wf(),
        idx.wf(),
        idx_in_bounds(idx@, target@.len() as int),
    ensures
        r.wf(),
        r@ == gather_view(target@, idx@),
{
    let n = idx.values.len();
    let mut values: Vec<T> = Vec::with_capacity(n);
    let mut validity: Vec<bool> = Vec::with_capacity(n);
    let mut k: usize = 0;
    while k < n
        invariant
            target.wf(),
            idx.wf(),
            idx_in_bounds(idx@, target@.len() as int),
            n == idx@.len(),
            k <= n,
            values@.len() == k,
            validity@.len() == k,
            forall|j: int|
                0 <= j < k ==> #[trigger] gather_view(target@, idx@)[j] == (if validity@[j] {
                    Some(values@[j])
                } else {
                    None
                }),
        decreases n - k,
    {
        let o = match idx.get(k) {
            None => None,
            Some(i) => target.get(i as usize),
        };
        match o {
            Some(v) => {
                values.push(v);
                validity.push(true);
            },
            None => {
                values.push(T::default());
                validity.push(false);
            },
        }
        k += 1;
    }
    let r = PrimitiveArray { values, validity: Some(validity) };
    assert(r@ =~= gather_view(target@, idx@));
    r
}

/// The validity of gathered struct rows: a row is valid where its index is
/// not null and points at a valid row.
fn take_struct_validity<T>(target: &StructArray<T>, idx: &PrimitiveArray<IdxSize>) -> (r: Vec<
    bool,
>)
    requires
        target.wf(),
        idx.wf(),
        idx_in_bounds(idx@, target.length as int),
    ensures
        r@.len() == idx@.len(),
        forall|k: int|
            0 <= k < idx@.len() ==> (#[trigger] r@[k]) == (idx@[k] is Some && target.valid_at(
                idx@[k]->0 as int,
            )),
{
    let n = idx.values.len();
    let mut out: Vec<bool> = Vec::with_capacity(n);
    let mut k: usize = 0;
    while k < n
        invariant
            target.wf(),
            idx.wf(),
            idx_in_bounds(idx@, target.length as int),
            n == idx@.len(),
            k <= n,
            out@.len() == k,
            forall|j: int|
                0 <= j < k ==> (#[trigger] out@[j]) == (idx@[j] is Some && target.valid_at(
                    idx@[j]->0 as int,
                )),
        decreases n - k,
    {
        let valid = match idx.get(k) {
            None => false,
            Some(i) => match &target.validity {
                Some(v) => v[i as usize],
                None => true,
            },
        };
        out.push(valid);
        k += 1;
    }
    out
}

/// Gathers struct rows from one chunk: every field is gathered by the same
/// index, and a null index, or a null struct row, gives a null row.
pub fn take_struct_unchecked<T: Copy + Default>(
    target: &StructArray<T>,
    idx: &PrimitiveArray<IdxSize>,
) -> (r: StructArray<T>)
    requires
        target.wf(),
        idx.wf(),
        idx_in_bounds(idx@, target.length as int),
    ensures
        r.wf(),
        r.rows() == gather_view(target.rows(), idx@),
        r.fields@.len() == target.fields@.len(),
{
    let nf = target.fields.len();
    let mut fields: Vec<PrimitiveArray<T>> = Vec::with_capacity(nf);
    let mut f: usize = 0;
    while f < nf
        invariant
            target.wf(),
            idx.wf(),
            idx_in_bounds(idx@, target.length as int),
            nf == target.fields@.len(),
            f <= nf,
            fields@.len() == f,
            forall|g: int|
                0 <= g < f ==> (#[trigger] fields@[g]).wf() && fields@[g]@ == gather_view(
                    target.fields@[g]@,
                    idx@,
                ),
        decreases nf - f,
    {
        fields.push(take_primitive_unchecked(&target.fields[f], idx));
        f += 1;
    }
    let validity = take_struct_validity(target, idx);
    let r = StructArray { fields, length: idx.values.len(), validity: Some(validity) };
    proof {
        let t = target.rows();
        assert forall|k: int| 0 <= k < idx@.len() implies r.rows()[k] == gather_view(t, idx@)[k] by {
            if idx@[k] is Some {
                let i = idx@[k]->0 as int;
                if target.valid_at(i) {
                    assert(Seq::new(r.fields@.len(), |g: int| r.fields@[g]@[k]) =~= Seq::new(
                        target.fields@.len(),
                        |g: int| target.fields@[g]@[i],
                    ));
                }
            }
        }
        assert(r.rows() =~= gather_view(t, idx@));
    }
    r
}

/// Rows of field `f` in each chunk.
pub open spec fn field_views<T>(chunks: Seq<StructArray<T>>, f: int) -> Seq<Seq<Option<T>>> {
    chunks.map_values(|a: StructArray<T>| a.fields@[f]@)
}

/// The struct validity of each chunk.
pub open spec fn validity_views<T>(chunks: Seq<StructArray<T>>) -> Seq<Seq<bool>> {
    chunks.map_values(|a: StructArray<T>| a.valid_seq())
}

pub open spec fn struct_chunks_wf<T>(chunks: Seq<StructArray<T>>, nf: nat) -> bool {
    forall|c: int|
        0 <= c < chunks.len() ==> (#[trigger] chunks[c]).wf() && chunks[c].fields@.len() == nf
}

/// Sequences of sequences of equal lengths have the same prefix sums.
proof fn lemma_cum_len_same<A, B>(s1: Seq<Seq<A>>, s2: Seq<Seq<B>>, c: int)
    requires
        s1.len() == s2.len(),
        0 <= c <= s1.len(),
        forall|j: int| 0 <= j < s1.len() ==> (#[trigger] s1[j]).len() == s2[j].len(),
    ensures
        cum_len(s1, c) == cum_len(s2, c),
    decreases c,
{
    if c == 0 {
        assert(s1.take(0) =~= Seq::<Seq<A>>::empty());
        assert(s2.take(0) =~= Seq::<Seq<B>>::empty());
    } else {
        lemma_cum_len_same(s1, s2, c - 1);
        lemma_concat_all_take_step(s1, c - 1);
        lemma_concat_all_take_step(s2, c - 1);
    }
}

/// Every row of the concatenation lies in some chunk.
proof fn lemma_locate<A>(s: Seq<Seq<A>>, g: int) -> (c: int)
    requires
        0 <= g < concat_all(s).len(),
    ensures
        0 <= c < s.len(),
        cum_len(s, c) <= g < cum_len(s, c) + s[c].len(),
    decreases s.len(),
{
    let n = s.len() as int;
    lemma_concat_all_take_full(s);
    if n == 0 {
        0
    } else {
        lemma_concat_all_take_step(s, n - 1);
        assert(s.take(n - 1) =~= s.drop_last());
        if g < concat_all(s.drop_last()).len() {
            let c = lemma_locate(s.drop_last(), g);
            assert(s.drop_last().take(c) =~= s.take(c));
            lemma_concat_all_take_step(s.drop_last(), c);
            lemma_concat_all_take_step(s, c);
            c
        } else {
            n - 1
        }
    }
}

/// Merges field `f` of every chunk into one chunk of values.
fn merge_field<T: Copy>(chunks: &Vec<StructArray<T>>, f: usize, nf: Ghost<nat>) -> (r:
    PrimitiveArray<T>)
    requires
        struct_chunks_wf(chunks@, nf@),
        f < nf@,
    ensures
        r.wf(),
        r@ == concat_all(field_views(chunks@, f as int)),
{
    let ghost s = field_views(chunks@, f as int);
    let mut values: Vec<T> = Vec::new();
    let mut validity: Vec<bool> = Vec::new();
    let mut c: usize = 0;
    proof {
        assert(s.take(0) =~= Seq::<Seq<Option<T>>>::empty());
    }
    while c < chunks.len()
        invariant
            struct_chunks_wf(chunks@, nf@),
            f < nf@,
            s == field_views(chunks@, f as int),
            c <= s.len(),
            values@.len() == validity@.len(),
            (PrimitiveArray { values, validity: Some(validity) })@ == concat_all(s.take(c as int)),
        decreases chunks.len() - c,
    {
        let a = &chunks[c].fields[f];
        let m = a.values.len();
        let ghost start = concat_all(s.take(c as int));
        assert(a.wf());
        let mut i: usize = 0;
        while i < m
            invariant
                a.wf(),
                m == a@.len(),
                i <= m,
                values@.len() == validity@.len(),
                (PrimitiveArray { values, validity: Some(validity) })@ == start + a@.subrange(
                    0,
                    i as int,
                ),
            decreases m - i,
        {
            let ghost before = (PrimitiveArray { values, validity: Some(validity) })@;
            let valid = match &a.validity {
                Some(v) => v[i],
                None => true,
            };
            values.push(a.values[i]);
            validity.push(valid);
            proof {
                let now = (PrimitiveArray { values, validity: Some(validity) })@;
                let want = start + a@.subrange(0, i + 1);
                assert(before == start + a@.subrange(0, i as int));
                assert(before.len() == start.len() + i);
                assert(now.len() == before.len() + 1);
                assert(now.len() == want.len());
                assert(now[i as int + start.len()] == a@[i as int]);
                assert forall|j: int| 0 <= j < now.len() implies now[j] == want[j] by {
                    if j < before.len() {
                        assert(want[j] == before[j]);
                    }
                }
                assert(now =~= want);
            }
            i += 1;
        }
        proof {
            lemma_concat_all_take_step(s, c as int);
            assert(s[c as int] == a@);
            assert(a@.subrange(0, m as int) =~= a@);
        }
        c += 1;
    }
    proof {
        lemma_concat_all_take_full(s);
    }
    PrimitiveArray { values, validity: Some(validity) }
}

/// Merges the struct validity of every chunk.
fn merge_validity<T>(chunks: &Vec<StructArray<T>>, nf: Ghost<nat>) -> (r: Vec<bool>)
    requires
        struct_chunks_wf(chunks@, nf@),
    ensures
        r@ == concat_all(validity_views(chunks@)),
{
    let ghost s = validity_views(chunks@);
    let mut out: Vec<bool> = Vec::new();
    let mut c: usize = 0;
    proof {
        assert(s.take(0) =~= Seq::<Seq<bool>>::empty());
    }
    while c < chunks.len()
        invariant
            struct_chunks_wf(chunks@, nf@),
            s == validity_views(chunks@),
            c <= s.len(),
            out@ == concat_all(s.take(c as int)),
        decreases chunks.len() - c,
    {
        let a = &chunks[c];
        let ghost start = out@;
        let mut i: usize = 0;
        while i < a.length
            invariant
                a.wf(),
                i <= a.length,
                out@ == start + a.valid_seq().subrange(0, i as int),
            decreases a.length - i,
        {
            let valid = match &a.validity {
                Some(v) => v[i],
                None => true,
            };
            out.push(valid);
            i += 1;
            assert(out@ =~= start + a.valid_seq().subrange(0, i as int));
        }
        proof {
            lemma_concat_all_take_step(s, c as int);
            assert(a.valid_seq().subrange(0, i as int) =~= a.valid_seq());
        }
        c += 1;
    }
    proof {
        lemma_concat_all_take_full(s);
    }
    out
}

/// A struct column split into chunks that all have the same fields, with
/// its cached order hint.
pub struct StructChunked<T> {
    pub chunks: Vec<StructArray<T>>,
    pub sorted: IsSorted,
}

impl<T: Copy + Default> StructChunked<T> {
    /// The column's rows, chunk after chunk.
    pub open spec fn rows(&self) -> Seq<Option<Seq<Option<T>>>> {
        concat_all(rows_of(self.chunks@))
    }

    pub open spec fn field_count(&self) -> nat {
        self.chunks@[0].fields@.len()
    }

    pub open spec fn wf(&self) -> bool {
        &&& self.chunks@.len() >= 1
        &&& struct_chunks_wf(self.chunks@, self.field_count())
        &&& self.rows().len() <= IDX_MAX
    }

    /// Merges the chunks into one.
    pub fn rechunk(&self) -> (r: StructArray<T>)
        requires
            self.wf(),
        ensures
            r.wf(),
            r.rows() == self.rows(),
            r.fields@.len() == self.field_count(),
    {
        let ghost nfg = self.field_count();
        let nf = self.chunks[0].fields.len();
        let mut fields: Vec<PrimitiveArray<T>> = Vec::with_capacity(nf);
        let mut f: usize = 0;
        while f < nf
            invariant
                self.wf(),
                nf == nfg,
                nfg == self.field_count(),
                f <= nf,
                fields@.len() == f,
                forall|g: int|
                    0 <= g < f ==> (#[trigger] fields@[g]).wf() && fields@[g]@ == concat_all(
                        field_views(self.chunks@, g),
                    ),
            decreases nf - f,
        {
            fields.push(merge_field(&self.chunks, f, Ghost(nfg)));
            f += 1;
        }
        let validity = merge_validity(&self.chunks, Ghost(nfg));
        let length = total_len(&self.chunks);
        let r = StructArray { fields, length, validity: Some(validity) };
        proof {
            let s = rows_of(self.chunks@);
            let vs = validity_views(self.chunks@);
            let n = s.len() as int;
            assert forall|c: int| 0 <= c < n implies (#[trigger] s[c]).len() == vs[c].len() by {}
            lemma_cum_len_same(s, vs, n);
            lemma_concat_all_take_full(s);
            lemma_concat_all_take_full(vs);
            assert forall|g: int| 0 <= g < nf implies (#[trigger] r.fields@[g]).wf() && r.fields@[g]@.len() == length by {
                let fs = field_views(self.chunks@, g);
                assert forall|c: int| 0 <= c < n implies (#[trigger] fs[c]).len() == s[c].len() by {}
                lemma_cum_len_same(fs, s, n);
                lemma_concat_all_take_full(fs);
            }
            assert(r.wf());
            assert forall|x: int| 0 <= x < length implies r.rows()[x] == self.rows()[x] by {
                let c = lemma_locate(s, x);
                let i = x - cum_len(s, c);
                lemma_concat_all_index(s, n, c, x);
                lemma_cum_len_same(vs, s, c);
                lemma_concat_all_index(vs, n, c, x);
                let a = self.chunks@[c];
                assert(r.valid_at(x) == a.valid_at(i));
                if a.valid_at(i) {
                    assert forall|g: int| 0 <= g < nf implies r.fields@[g]@[x] == a.fields@[g]@[i] by {
                        let fs = field_views(self.chunks@, g);
                        assert forall|d: int| 0 <= d < n implies (#[trigger] fs[d]).len() == s[d].len() by {}
                        lemma_cum_len_same(fs, s, c);
                        lemma_concat_all_index(fs, n, c, x);
                        lemma_concat_all_take_full(fs);
                    }
                    assert(Seq::new(r.fields@.len(), |g: int| r.fields@[g]@[x]) =~= Seq::new(
                        a.fields@.len(),
                        |g: int| a.fields@[g]@[i],
                    ));
                }
            }
            assert(r.rows() =~= self.rows());
        }
        r
    }

    /// Gathers the rows named by `indices`, which every non-null index must be
    /// in bounds for. Column and index are first merged into one chunk each,
    /// so the result has one chunk.
    pub fn take_unchecked(&self, indices: &IdxCa) -> (r: StructChunked<T>)
        requires
            self.wf(),
            indices.wf(),
            idx_in_bounds(indices@, self.rows().len() as int),
        ensures
            r.wf(),
            r.rows() == gather_view(self.rows(), indices@),
            r.chunks@.len() == 1,
            r.field_count() == self.field_count(),
            r.sorted == gathered_sorted_flag(self.sorted, indices.sorted),
    {
        let idx = indices.rechunk();
        let arr = if self.chunks.len() == 1 {
            proof {
                lemma_concat_single(rows_of(self.chunks@));
            }
            take_struct_unchecked(&self.chunks[0], &idx)
        } else {
            let merged = self.rechunk();
            take_struct_unchecked(&merged, &idx)
        };
        let mut chunks: Vec<StructArray<T>> = Vec::new();
        chunks.push(arr);
        let r = StructChunked {
            chunks,
            sorted: _update_gather_sorted_flag(self.sorted, indices.sorted),
        };
        proof {
            assert(r.chunks@ =~= seq![arr]);
            lemma_concat_single(rows_of(r.chunks@));
        }
        r
    }

    /// Gathers the rows named by `indices` after checking that every non-null
    /// index is in bounds; fails, producing nothing, where one is not.
    pub fn take(&self, indices: &IdxCa) -> (r: Result<StructChunked<T>, GatherError>)
        requires
            self.wf(),
            indices.wf(),
        ensures
            r is Err <==> !idx_in_bounds(indices@, self.rows().len() as int),
            r matches Ok(a) ==> {
                &&& a.wf()
                &&& a.rows() == gather_view(self.rows(), indices@)
                &&& a.chunks@.len() == 1
                &&& a.field_count() == self.field_count()
                &&& a.sorted == gathered_sorted_flag(self.sorted, indices.sorted)
            },
    {
        let len = total_len(&self.chunks) as IdxSize;
        match check_bounds_ca(indices, len) {
            Err(e) => Err(e),
            Ok(()) => Ok(self.take_unchecked(indices)),
        }
    }
}

} // verus!
