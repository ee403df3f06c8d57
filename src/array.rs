use vstd::prelude::*;

use crate::sorted::IsSorted;

verus! {

/// Unsigned machine word used for row indices.
pub type IdxSize = u32;

/// Largest logical length a column may have, so that every row has an index.
pub const IDX_MAX: u32 = 0xffff_ffff;

/// One contiguous chunk of fixed-width values with an optional validity map.
/// A `false` in the validity map marks a null slot; the value stored there is
/// meaningless.
pub struct PrimitiveArray<T> {
    pub values: Vec<T>,
    pub validity: Option<Vec<bool>>,
}

impl<T> PrimitiveArray<T> {
    /// The validity map, when present, covers every value.
    pub open spec fn wf(&self) -> bool {
        match self.validity {
            Some(v) => v@.len() == self.values@.len(),
            None => true,
        }
    }

    pub open spec fn valid_at(&self, i: int) -> bool {
        match self.validity {
            Some(v) => v@[i],
            None => true,
        }
    }

    /// A chunk without a validity map.
    pub fn new(values: Vec<T>) -> (r: Self)
        ensures
            r.wf(),
            r.validity is None,
            r.values@ == values@,
    {
        PrimitiveArray { values, validity: None }
    }

    /// Whether any slot of the chunk is null.
    pub fn has_nulls(&self) -> (r: bool)
        requires
            self.wf(),
        ensures
            r == exists|i: int| 0 <= i < self@.len() && self@[i] is None,
    {
        match &self.validity {
            None => false,
            Some(v) => {
                let mut i: usize = 0;
                while i < v.len()
                    invariant
                        v@.len() == self.values@.len(),
                        self.validity == Some(*v),
                        i <= v.len(),
                        forall|j: int| 0 <= j < i ==> self@[j] is Some,
                    decreases v.len() - i,
                {
                    if !v[i] {
                        assert(self@[i as int] is None);
                        return true;
                    }
                    i += 1;
                }
                false
            },
        }
    }
}

impl<T> View for PrimitiveArray<T> {
    type V = Seq<Option<T>>;

    open spec fn view(&self) -> Seq<Option<T>> {
        Seq::new(
            self.values@.len(),
            |i: int|
                if self.valid_at(i) {
                    Some(self.values@[i])
                } else {
                    None
                },
        )
    }
}

/// The chunks' contents, one after the other.
pub open spec fn concat_all<A>(s: Seq<Seq<A>>) -> Seq<A>
    decreases s.len(),
{
    if s.len() == 0 {
        Seq::empty()
    } else {
        concat_all(s.drop_last()) + s.last()
    }
}

/// Number of logical rows stored before chunk `c`.
pub open spec fn cum_len<A>(s: Seq<Seq<A>>, c: int) -> nat {
    concat_all(s.take(c)).len()
}

/// What the gather engine needs of a chunk: its rows, and their number.
pub trait StaticArray {
    type ValueT;

    spec fn rows(&self) -> Seq<Option<Self::ValueT>>;

    fn len(&self) -> (r: usize)
        ensures
            r == self.rows().len(),
    ;
}

/// The rows of each chunk.
pub open spec fn rows_of<A: StaticArray>(chunks: Seq<A>) -> Seq<Seq<Option<A::ValueT>>> {
    chunks.map_values(|a: A| a.rows())
}

impl<T> StaticArray for PrimitiveArray<T> {
    type ValueT = T;

    open spec fn rows(&self) -> Seq<Option<T>> {
        self@
    }

    fn len(&self) -> (r: usize) {
        self.values.len()
    }
}

pub proof fn lemma_rows_of_primitive<T>(chunks: Seq<PrimitiveArray<T>>)
    ensures
        rows_of(chunks) == chunk_views(chunks),
{
    assert(rows_of(chunks) =~= chunk_views(chunks));
}

pub open spec fn chunk_views<T>(chunks: Seq<PrimitiveArray<T>>) -> Seq<Seq<Option<T>>> {
    chunks.map_values(|a: PrimitiveArray<T>| a@)
}

pub proof fn lemma_concat_all_take_step<A>(s: Seq<Seq<A>>, c: int)
    requires
        0 <= c < s.len(),
    ensures
        concat_all(s.take(c + 1)) == concat_all(s.take(c)) + s[c],
{
    assert(s.take(c + 1).drop_last() =~= s.take(c));
}

pub proof fn lemma_concat_all_take_full<A>(s: Seq<Seq<A>>)
    ensures
        concat_all(s.take(s.len() as int)) == concat_all(s),
{
    assert(s.take(s.len() as int) =~= s);
}

pub proof fn lemma_cum_len_mono<A>(s: Seq<Seq<A>>, a: int, b: int)
    requires
        0 <= a <= b <= s.len(),
    ensures
        cum_len(s, a) <= cum_len(s, b),
    decreases b - a,
{
    if a < b {
        lemma_cum_len_mono(s, a, b - 1);
        lemma_concat_all_take_step(s, b - 1);
    }
}

/// Row `g` of the concatenation lies in chunk `c` when `c`'s rows cover it.
pub proof fn lemma_concat_all_index<A>(s: Seq<Seq<A>>, n: int, c: int, g: int)
    requires
        0 <= c < n <= s.len(),
        cum_len(s, c) <= g < cum_len(s, c) + s[c].len(),
    ensures
        g < concat_all(s.take(n)).len(),
        concat_all(s.take(n))[g] == s[c][g - cum_len(s, c)],
    decreases n - c,
{
    lemma_concat_all_take_step(s, n - 1);
    if n == c + 1 {
    } else {
        lemma_concat_all_index(s, n - 1, c, g);
        lemma_concat_all_take_step(s, c);
        lemma_cum_len_mono(s, c + 1, n - 1);
    }
}

/// Number of rows over all `chunks`.
pub fn total_len<A: StaticArray>(chunks: &Vec<A>) -> (r: usize)
    requires
        concat_all(rows_of(chunks@)).len() <= IDX_MAX,
    ensures
        r == concat_all(rows_of(chunks@)).len(),
{
    let ghost s = rows_of(chunks@);
    let mut total: usize = 0;
    let mut c: usize = 0;
    proof {
        assert(s.take(0) =~= Seq::<Seq<Option<A::ValueT>>>::empty());
        lemma_concat_all_take_full(s);
    }
    while c < chunks.len()
        invariant
            s == rows_of(chunks@),
            concat_all(s).len() <= IDX_MAX,
            c <= s.len(),
            total == cum_len(s, c as int),
        decreases chunks.len() - c,
    {
        proof {
            lemma_concat_all_take_step(s, c as int);
            lemma_cum_len_mono(s, c + 1, s.len() as int);
            lemma_concat_all_take_full(s);
        }
        total = total + chunks[c].len();
        c += 1;
    }
    proof {
        lemma_concat_all_take_full(s);
    }
    total
}

/// A column split into chunks, with its cached order hint.
pub struct ChunkedArray<T> {
    pub chunks: Vec<PrimitiveArray<T>>,
    pub sorted: IsSorted,
}

/// A column of row indices.
pub type IdxCa = ChunkedArray<IdxSize>;

impl<T> View for ChunkedArray<T> {
    type V = Seq<Option<T>>;

    open spec fn view(&self) -> Seq<Option<T>> {
        concat_all(chunk_views(self.chunks@))
    }
}

impl<T> ChunkedArray<T> {
    /// Every chunk is well formed and every row has an index.
    pub open spec fn wf(&self) -> bool {
        &&& forall|c: int| 0 <= c < self.chunks@.len() ==> (#[trigger] self.chunks@[c]).wf()
        &&& self@.len() <= IDX_MAX
    }

    /// Number of logical rows.
    pub fn len(&self) -> (r: usize)
        requires
            self.wf(),
        ensures
            r == self@.len(),
    {
        proof {
            lemma_rows_of_primitive(self.chunks@);
        }
        total_len(&self.chunks)
    }

    /// Whether any row of the column is null.
    pub fn has_nulls(&self) -> (r: bool)
        requires
            self.wf(),
        ensures
            r == exists|g: int| 0 <= g < self@.len() && self@[g] is None,
    {
        let ghost s = chunk_views(self.chunks@);
        let mut c: usize = 0;
        proof {
            assert(s.take(0) =~= Seq::<Seq<Option<T>>>::empty());
        }
        while c < self.chunks.len()
            invariant
                self.wf(),
                s == chunk_views(self.chunks@),
                c <= s.len(),
                forall|g: int|
                    0 <= g < concat_all(s.take(c as int)).len() ==> (#[trigger] concat_all(
                        s.take(c as int),
                    )[g]) is Some,
            decreases self.chunks.len() - c,
        {
            let a = &self.chunks[c];
            proof {
                lemma_concat_all_take_step(s, c as int);
                assert(s[c as int] == a@);
            }
            if a.has_nulls() {
                proof {
                    let i = choose|i: int| 0 <= i < a@.len() && a@[i] is None;
                    let g = cum_len(s, c as int) + i;
                    lemma_concat_all_index(s, s.len() as int, c as int, g);
                    lemma_concat_all_take_full(s);
                    assert(self@[g] is None);
                }
                return true;
            }
            proof {
                let p = concat_all(s.take(c as int));
                let q = concat_all(s.take(c + 1));
                assert forall|g: int| 0 <= g < q.len() implies (#[trigger] q[g]) is Some by {
                    if g < p.len() {
                        assert(q[g] == p[g]);
                    } else {
                        assert(q[g] == a@[g - p.len()]);
                    }
                }
            }
            c += 1;
        }
        proof {
            lemma_concat_all_take_full(s);
        }
        false
    }

    /// A column of one chunk without an order hint.
    pub fn from_chunk(chunk: PrimitiveArray<T>) -> (r: Self)
        requires
            chunk.wf(),
            chunk@.len() <= IDX_MAX,
        ensures
            r.wf(),
            r@ == chunk@,
            r.chunks@ == seq![chunk],
            r.sorted == IsSorted::Not,
    {
        let mut chunks: Vec<PrimitiveArray<T>> = Vec::new();
        chunks.push(chunk);
        let r = ChunkedArray { chunks, sorted: IsSorted::Not };
        proof {
            assert(r.chunks@ =~= seq![chunk]);
            let s = chunk_views(r.chunks@);
            assert(s.drop_last() =~= Seq::<Seq<Option<T>>>::empty());
            assert(concat_all(s.drop_last()) =~= Seq::<Option<T>>::empty());
            assert(s.last() == chunk@);
            assert(concat_all(s) =~= chunk@);
        }
        r
    }
}

} // verus!
