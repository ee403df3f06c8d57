use vstd::prelude::*;

verus! {

/// Where a leaf column sits in the schema: the names from the root down.
pub struct ColumnDescriptor {
    pub path_in_schema: Vec<String>,
}

/// Metadata of one column chunk of a row group.
pub struct ColumnChunkMetadata {
    pub descriptor: ColumnDescriptor,
}

impl ColumnChunkMetadata {
    pub fn descriptor(&self) -> (r: &ColumnDescriptor)
        ensures
            *r == self.descriptor,
    {
        &self.descriptor
    }
}

/// The top-level field that a column chunk belongs to.
pub open spec fn root_name(m: ColumnChunkMetadata) -> Seq<char> {
    m.descriptor.path_in_schema@[0]@
}

/// The items of the first `n` pairs of `columns` and `items` whose column
/// belongs to the field `name`, in order.
pub open spec fn field_pages<T>(
    columns: Seq<ColumnChunkMetadata>,
    items: Seq<T>,
    name: Seq<char>,
    n: int,
) -> Seq<T>
    decreases n,
{
    if n <= 0 {
        Seq::empty()
    } else {
        let p = field_pages(columns, items, name, n - 1);
        if root_name(columns[n - 1]) == name {
            p.push(items[n - 1])
        } else {
            p
        }
    }
}

/// Returns the items paired with the column chunks of `field_name`, in
/// order; a non-nested field has one column chunk. Columns and items are
/// paired up to the shorter of the two; a column past the last item is
/// never read.
pub fn get_field_pages<'a, T>(
    columns: &'a [ColumnChunkMetadata],
    items: &'a [T],
    field_name: &str,
) -> (r: Vec<&'a T>)
    requires
        forall|i: int|
            0 <= i < columns@.len() && i < items@.len() ==> (#[trigger] columns@[i]).descriptor.path_in_schema@.len()
                >= 1,
    ensures
        ({
            let pages = field_pages(
                columns@,
                items@,
                field_name@,
                if columns@.len() <= items@.len() {
                    columns@.len() as int
                } else {
                    items@.len() as int
                },
            );
            &&& r@.len() == pages.len()
            &&& forall|k: int| 0 <= k < pages.len() ==> *r@[k] == pages[k]
        }),
{
    let name = String::from_str(field_name);
    let n = if columns.len() <= items.len() {
        columns.len()
    } else {
        items.len()
    };
    let mut out: Vec<&'a T> = Vec::new();
    let mut i: usize = 0;
    while i < n
        invariant
            n <= columns@.len(),
            n <= items@.len(),
            i <= n,
            name@ == field_name@,
            forall|j: int|
                0 <= j < columns@.len() && j < items@.len() ==> (#[trigger] columns@[j]).descriptor.path_in_schema@.len()
                    >= 1,
            out@.len() == field_pages(columns@, items@, field_name@, i as int).len(),
            forall|k: int|
                0 <= k < out@.len() ==> *out@[k] == field_pages(
                    columns@,
                    items@,
                    field_name@,
                    i as int,
                )[k],
        decreases n - i,
    {
        let metadata = &columns[i];
        if metadata.descriptor().path_in_schema[0] == name {
            out.push(&items[i]);
        }
        i += 1;
    }
    out
}

/// The unsigned value of four little-endian bytes, as the 32-bit two's
/// complement integer with the same bits.
pub open spec fn le_i32(b0: u8, b1: u8, b2: u8, b3: u8) -> i32 {
    (b0 as int + b1 as int * 0x100 + b2 as int * 0x1_0000 + b3 as int * 0x100_0000) as u32 as i32
}

fn read_le_i32(value: &[u8], start: usize) -> (r: i32)
    requires
        start + 4 <= value@.len(),
    ensures
        r == le_i32(value@[start as int], value@[start + 1], value@[start + 2], value@[start + 3]),
{
    let u: u32 = value[start] as u32 + value[start + 1] as u32 * 0x100 + value[start + 2] as u32
        * 0x1_0000 + value[start + 3] as u32 * 0x100_0000;
    u as i32
}

/// A parquet INTERVAL's year-month part: the first four bytes, little endian.
pub fn convert_year_month(value: &[u8]) -> (r: i32)
    requires
        value@.len() >= 4,
    ensures
        r == le_i32(value@[0], value@[1], value@[2], value@[3]),
{
    read_le_i32(value, 0)
}

/// A day count and a millisecond count.
#[derive(Clone, Copy, Debug, PartialEq, Eq, Structural)]
pub struct DaysMs {
    pub days: i32,
    pub milliseconds: i32,
}

/// A parquet INTERVAL's day-time part: bytes four to eight give the days and
/// bytes eight to twelve the milliseconds, little endian.
pub fn convert_days_ms(value: &[u8]) -> (r: DaysMs)
    requires
        value@.len() >= 12,
    ensures
        r.days == le_i32(value@[4], value@[5], value@[6], value@[7]),
        r.milliseconds == le_i32(value@[8], value@[9], value@[10], value@[11]),
{
    DaysMs { days: read_le_i32(value, 4), milliseconds: read_le_i32(value, 8) }
}

pub open spec fn pow256(n: nat) -> int
    decreases n,
{
    if n == 0 {
        1
    } else {
        256 * pow256((n - 1) as nat)
    }
}

/// The two's complement value of big-endian bytes: the first byte is signed,
/// each following one shifts the value left by eight bits and adds itself.
pub open spec fn be_signed(b: Seq<u8>) -> int
    decreases b.len(),
{
    if b.len() <= 1 {
        if b.len() == 0 {
            0
        } else if b[0] < 128 {
            b[0] as int
        } else {
            b[0] as int - 256
        }
    } else {
        be_signed(b.drop_last()) * 256 + b.last() as int
    }
}

proof fn lemma_pow256_mono(a: nat, b: nat)
    requires
        a <= b,
    ensures
        1 <= pow256(a) <= pow256(b),
    decreases b,
{
    if b > 0 {
        if a < b {
            lemma_pow256_mono(a, (b - 1) as nat);
        } else {
            lemma_pow256_mono(0, (b - 1) as nat);
        }
    }
}

/// A sign-extended big-endian integer of `n` bytes, as parquet stores a
/// decimal in a fixed-size byte array.
/// One more byte keeps a signed value of `i + 1` bytes in its range.
proof fn lemma_i128_step(acc: int, b: int, i: nat)
    requires
        1 <= i <= 15,
        -pow256(i) / 2 <= acc < pow256(i) / 2,
        0 <= b < 256,
    ensures
        -pow256(i + 1) / 2 <= acc * 256 + b < pow256(i + 1) / 2,
        pow256(i + 1) <= pow256(16),
{
    lemma_pow256_mono((i - 1) as nat, 16);
    lemma_pow256_mono(i + 1, 16);
    let q = 128 * pow256((i - 1) as nat);
    assert(pow256(i) == 2 * q);
    assert(pow256(i + 1) == 2 * (256 * q));
    assert(pow256(i) / 2 == q);
    assert(pow256(i + 1) / 2 == 256 * q);
    assert(-(256 * q) <= acc * 256 + b < 256 * q) by (nonlinear_arith)
        requires
            -q <= acc < q,
            0 <= b < 256,
    ;
}

pub fn convert_i128(value: &[u8], n: usize) -> (r: i128)
    requires
        1 <= n <= 16,
        value@.len() == n,
    ensures
        r == be_signed(value@),
{
    let first = value[0];
    let mut acc: i128 = if first < 128 {
        first as i128
    } else {
        first as i128 - 256
    };
    let mut i: usize = 1;
    proof {
        assert(value@.subrange(0, 1).drop_last() =~= Seq::<u8>::empty());
        assert(pow256(1) == 256) by {
            reveal_with_fuel(pow256, 2);
        }
    }
    assert(pow256(16) == 0x1_0000_0000_0000_0000_0000_0000_0000_0000) by {
        reveal_with_fuel(pow256, 17);
    }
    while i < n
        invariant
            1 <= i <= n <= 16,
            value@.len() == n,
            pow256(16) == 0x1_0000_0000_0000_0000_0000_0000_0000_0000,
            acc == be_signed(value@.subrange(0, i as int)),
            -pow256(i as nat) / 2 <= acc < pow256(i as nat) / 2,
        decreases n - i,
    {
        let b = value[i];
        proof {
            assert(value@.subrange(0, i + 1).drop_last() =~= value@.subrange(0, i as int));
            lemma_i128_step(acc as int, b as int, i as nat);
        }
        acc = acc * 256 + b as i128;
        i += 1;
    }
    proof {
        assert(value@.subrange(0, n as int) =~= value@);
    }
    acc
}

/// The unsigned value of big-endian bytes.
pub open spec fn be_unsigned(b: Seq<u8>) -> int
    decreases b.len(),
{
    if b.len() == 0 {
        0
    } else {
        be_unsigned(b.drop_last()) * 256 + b.last() as int
    }
}

proof fn lemma_be_unsigned_bound(b: Seq<u8>)
    ensures
        0 <= be_unsigned(b) < pow256(b.len()),
    decreases b.len(),
{
    if b.len() > 0 {
        lemma_be_unsigned_bound(b.drop_last());
        let u = be_unsigned(b.drop_last());
        let p = pow256(b.drop_last().len());
        assert(u * 256 + b.last() < 256 * p) by (nonlinear_arith)
            requires
                0 <= u < p,
                0 <= b.last() < 256,
        ;
        assert(0 <= u * 256) by (nonlinear_arith)
            requires
                0 <= u,
        ;
    }
}

/// Appending bytes shifts the signed value left and adds their unsigned value.
proof fn lemma_be_signed_concat(a: Seq<u8>, b: Seq<u8>)
    requires
        a.len() >= 1,
    ensures
        be_signed(a + b) == be_signed(a) * pow256(b.len()) + be_unsigned(b),
    decreases b.len(),
{
    if b.len() == 0 {
        assert(a + b =~= a);
    } else {
        let b2 = b.drop_last();
        assert((a + b).drop_last() =~= a + b2);
        lemma_be_signed_concat(a, b2);
        let x = be_signed(a);
        let p = pow256(b2.len());
        let u = be_unsigned(b2);
        assert((x * p + u) * 256 + b.last() == x * (256 * p) + (u * 256 + b.last()))
            by (nonlinear_arith);
    }
}

/// Bytes that all equal `fill`.
pub open spec fn filled(fill: u8, k: nat) -> Seq<u8> {
    Seq::new(k, |i: int| fill)
}

proof fn lemma_be_signed_filled(fill: u8, k: nat)
    requires
        k >= 1,
        fill == 0 || fill == 255,
    ensures
        be_signed(filled(fill, k)) == (if fill == 0 {
            0int
        } else {
            -1int
        }),
    decreases k,
{
    if k > 1 {
        assert(filled(fill, k).drop_last() =~= filled(fill, (k - 1) as nat));
        lemma_be_signed_filled(fill, (k - 1) as nat);
    }
}

/// Leading copies of the sign byte do not change the value.
proof fn lemma_sign_extend(v: Seq<u8>, k: nat)
    requires
        v.len() >= 1,
    ensures
        be_signed(filled(if v[0] >= 128 { 255u8 } else { 0u8 }, k) + v) == be_signed(v),
    decreases v.len(),
{
    let fill: u8 = if v[0] >= 128 {
        255u8
    } else {
        0u8
    };
    if k == 0 {
        assert(filled(fill, k) + v =~= v);
    } else {
        let f = filled(fill, k);
        lemma_be_signed_filled(fill, k);
        lemma_be_signed_concat(f, v);
        let head = v.subrange(0, 1);
        let rest = v.subrange(1, v.len() as int);
        assert(head + rest =~= v);
        lemma_be_signed_concat(head, rest);
        assert(head.drop_last() =~= Seq::<u8>::empty());
        lemma_be_unsigned_bound(rest);
        let p = pow256(rest.len());
        assert(pow256(v.len()) == 256 * p) by {
            assert(rest.len() + 1 == v.len());
        }
        assert(be_unsigned(head) == v[0]) by {
            assert(be_unsigned(head.drop_last()) == 0);
        }
        assert(be_unsigned(v) == be_unsigned(head) * p + be_unsigned(rest)) by {
            lemma_be_unsigned_concat(head, rest);
        }
        if v[0] >= 128 {
            assert(-1 * (256 * p) + (v[0] * p + be_unsigned(rest)) == (v[0] - 256) * p
                + be_unsigned(rest)) by (nonlinear_arith);
        } else {
            assert(0 * (256 * p) + (v[0] * p + be_unsigned(rest)) == v[0] * p + be_unsigned(
                rest,
            )) by (nonlinear_arith);
        }
    }
}

proof fn lemma_be_unsigned_concat(a: Seq<u8>, b: Seq<u8>)
    ensures
        be_unsigned(a + b) == be_unsigned(a) * pow256(b.len()) + be_unsigned(b),
    decreases b.len(),
{
    if b.len() == 0 {
        assert(a + b =~= a);
    } else {
        let b2 = b.drop_last();
        assert((a + b).drop_last() =~= a + b2);
        lemma_be_unsigned_concat(a, b2);
        let x = be_unsigned(a);
        let p = pow256(b2.len());
        let u = be_unsigned(b2);
        assert((x * p + u) * 256 + b.last() == x * (256 * p) + (u * 256 + b.last()))
            by (nonlinear_arith);
    }
}

/// A 256-bit signed integer: `hi * 2^128 + lo`.
#[derive(Clone, Copy, Debug, PartialEq, Eq, Structural)]
pub struct I256 {
    pub hi: i128,
    pub lo: u128,
}

impl I256 {
    pub open spec fn value(&self) -> int {
        self.hi * pow256(16) + self.lo
    }
}

/// The unsigned value of sixteen big-endian bytes.
fn be_u128(b: &Vec<u8>) -> (r: u128)
    requires
        b@.len() == 16,
    ensures
        r == be_unsigned(b@),
{
    let mut acc: u128 = 0;
    let mut i: usize = 0;
    proof {
        assert(b@.subrange(0, 0) =~= Seq::<u8>::empty());
    }
    while i < 16
        invariant
            b@.len() == 16,
            i <= 16,
            acc == be_unsigned(b@.subrange(0, i as int)),
        decreases 16 - i,
    {
        proof {
            assert(b@.subrange(0, i + 1).drop_last() =~= b@.subrange(0, i as int));
            lemma_be_unsigned_bound(b@.subrange(0, i + 1));
            lemma_pow256_mono((i + 1) as nat, 16);
            assert(pow256(16) == 0x1_0000_0000_0000_0000_0000_0000_0000_0000) by {
                reveal_with_fuel(pow256, 17);
            }
        }
        acc = acc * 256 + b[i] as u128;
        i += 1;
    }
    assert(b@.subrange(0, 16) =~= b@);
    acc
}

/// A sign-extended big-endian integer of up to 32 bytes, as parquet stores a
/// wide decimal in a fixed-size byte array.
pub fn convert_i256(value: &[u8]) -> (r: I256)
    requires
        1 <= value@.len() <= 32,
    ensures
        r.value() == be_signed(value@),
{
    let n = value.len();
    let fill: u8 = if value[0] >= 128 {
        255
    } else {
        0
    };
    let ghost all = filled(fill, (32 - n) as nat) + value@;
    let mut hi_bytes: Vec<u8> = Vec::with_capacity(16);
    let mut lo_bytes: Vec<u8> = Vec::with_capacity(16);
    let mut t: usize = 0;
    while t < 32
        invariant
            n == value@.len(),
            1 <= n <= 32,
            all == filled(fill, (32 - n) as nat) + value@,
            all.len() == 32,
            t <= 32,
            t <= 16 ==> hi_bytes@ == all.subrange(0, t as int) && lo_bytes@.len() == 0,
            t > 16 ==> hi_bytes@ == all.subrange(0, 16) && lo_bytes@ == all.subrange(16, t as int),
        decreases 32 - t,
    {
        let byte = if t < 32 - n {
            fill
        } else {
            value[t - (32 - n)]
        };
        assert(byte == all[t as int]);
        if t < 16 {
            hi_bytes.push(byte);
            assert(hi_bytes@ =~= all.subrange(0, t + 1));
        } else {
            lo_bytes.push(byte);
            assert(lo_bytes@ =~= all.subrange(16, t + 1));
        }
        t += 1;
    }
    let hi = convert_i128(hi_bytes.as_slice(), 16);
    let lo = be_u128(&lo_bytes);
    proof {
        assert(hi_bytes@ + lo_bytes@ =~= all);
        lemma_be_signed_concat(hi_bytes@, lo_bytes@);
        lemma_sign_extend(value@, (32 - n) as nat);
    }
    I256 { hi, lo }
}

} // verus!
