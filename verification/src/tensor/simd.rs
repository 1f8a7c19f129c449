//! Integer kernels on bytes and packed bits.
use super::bits;
use super::shape;
use vstd::prelude::*;

verus! {

/// The kernels of this module are scalar.
pub fn detect_simd_info() -> (r: &'static str)
    ensures
        r@ == "scalar"@,
{
    "scalar"
}

/// The name of the widest vector unit that a processor reports.
pub open spec fn widest(avx512f: bool, avx2: bool, sse41: bool) -> Seq<char> {
    if avx512f {
        "avx512"@
    } else if avx2 {
        "avx2"@
    } else if sse41 {
        "sse4.1"@
    } else {
        "sse2"@
    }
}

/// The name of the widest vector unit that a processor reports.
pub fn simd_tier(avx512f: bool, avx2: bool, sse41: bool) -> (r: &'static str)
    ensures
        r@ == widest(avx512f, avx2, sse41),
{
    if avx512f {
        "avx512"
    } else if avx2 {
        "avx2"
    } else if sse41 {
        "sse4.1"
    } else {
        "sse2"
    }
}

/// A byte read as a signed number.
pub open spec fn signed(b: u8) -> int {
    if b < 128 {
        b as int
    } else {
        b - 256
    }
}

/// The inner product of the first `n` bytes, read as signed numbers.
pub open spec fn signed_dot(a: Seq<u8>, b: Seq<u8>, n: int) -> int
    decreases n,
{
    if n <= 0 {
        0
    } else {
        signed_dot(a, b, n - 1) + signed(a[n - 1]) * signed(b[n - 1])
    }
}

fn signed_value(b: u8) -> (r: i128)
    ensures
        r == signed(b),
{
    if b < 128 {
        b as i128
    } else {
        b as i128 - 256
    }
}

/// The inner product of the first `len` bytes, read as signed numbers.
pub fn i8_dot_product(a: &[u8], b: &[u8], len: usize) -> (r: i32)
    requires
        len <= a@.len(),
        len <= b@.len(),
        i32::MIN <= signed_dot(a@, b@, len as int) <= i32::MAX,
    ensures
        r == signed_dot(a@, b@, len as int),
{
    let mut sum: i128 = 0;
    let mut i: usize = 0;
    while i < len
        invariant
            i <= len,
            len <= a@.len(),
            len <= b@.len(),
            sum == signed_dot(a@, b@, i as int),
            -16384 * (i as int) <= sum <= 16384 * i,
        decreases len - i,
    {
        let x: i128 = signed_value(a[i]);
        let y: i128 = signed_value(b[i]);
        assert(-16384 <= x * y <= 16384) by (nonlinear_arith)
            requires
                -128 <= x <= 127,
                -128 <= y <= 127,
        ;
        sum = sum + x * y;
        i = i + 1;
    }
    sum as i32
}

/// How many of the lowest `n` bits of two bytes agree.
pub open spec fn agreeing(a: u8, b: u8, n: int) -> nat
    decreases n,
{
    if n <= 0 {
        0
    } else {
        agreeing(a, b, n - 1) + (if bits::bit_set(a, n - 1) == bits::bit_set(b, n - 1) {
            1nat
        } else {
            0nat
        })
    }
}

/// How many bits of byte `i` belong to the first `n_bits` bits.
pub open spec fn used_bits(n_bits: int, i: int) -> int {
    if n_bits - 8 * i >= 8 {
        8
    } else {
        n_bits - 8 * i
    }
}

fn count_agreeing(a: u8, b: u8, n: usize) -> (r: u32)
    requires
        n <= 8,
    ensures
        r == agreeing(a, b, n as int),
{
    let mut r: u32 = 0;
    let mut k: usize = 0;
    while k < n
        invariant
            k <= n,
            n <= 8,
            r == agreeing(a, b, k as int),
            r <= k,
        decreases n - k,
    {
        if bits::test_bit(a, k) == bits::test_bit(b, k) {
            r = r + 1;
        }
        k = k + 1;
    }
    r
}

/// Counts, byte by byte, the bits in which two packed bit rows agree; bits past the end of the
/// rows do not count. A set bit is +1 and a clear one is -1, so twice the sum of the counts
/// less the number of bits is the inner product.
pub fn xnor_popcount_1bit(a: &[u8], b: &[u8], popcounts: &mut [u32], n_bits: usize)
    requires
        a@.len() == shape::packed_len(n_bits as nat, 1),
        b@.len() == a@.len(),
        old(popcounts)@.len() == a@.len(),
    ensures
        final(popcounts)@.len() == a@.len(),
        forall|i: int| 0 <= i < a@.len() ==> #[trigger] final(popcounts)@[i] == agreeing(a@[i], b@[i], used_bits(n_bits as int, i)),
{
    let n: usize = a.len();
    let mut i: usize = 0;
    while i < n
        invariant
            n == a@.len(),
            n == shape::packed_len(n_bits as nat, 1),
            b@.len() == n,
            popcounts@.len() == n,
            i <= n,
            forall|j: int| 0 <= j < i ==> #[trigger] popcounts@[j] == agreeing(a@[j], b@[j], used_bits(n_bits as int, j)),
        decreases n - i,
    {
        let rest: usize = n_bits - 8 * i;
        let used: usize = if rest >= 8 { 8 } else { rest };
        popcounts[i] = count_agreeing(a[i], b[i], used);
        i = i + 1;
    }
}

/// The sum of a list of counts.
pub open spec fn total(counts: Seq<u32>) -> int
    decreases counts.len(),
{
    if counts.len() == 0 {
        0
    } else {
        total(counts.drop_last()) + counts.last()
    }
}

/// Bit `p` of a packed row, as +1 or -1.
pub open spec fn unit(row: Seq<u8>, p: int) -> int {
    if bits::bit_set(row[p / 8], p % 8) {
        1
    } else {
        -1
    }
}

/// The inner product of the first `n` bits of two packed rows, each bit as +1 or -1.
pub open spec fn unit_dot(a: Seq<u8>, b: Seq<u8>, n: int) -> int
    decreases n,
{
    if n <= 0 {
        0
    } else {
        unit_dot(a, b, n - 1) + unit(a, n - 1) * unit(b, n - 1)
    }
}

proof fn unit_dot_byte(a: Seq<u8>, b: Seq<u8>, i: int, k: int)
    requires
        0 <= i,
        0 <= k <= 8,
    ensures
        unit_dot(a, b, 8 * i + k) == unit_dot(a, b, 8 * i) + 2 * agreeing(a[i], b[i], k) - k,
    decreases k,
{
    if k > 0 {
        unit_dot_byte(a, b, i, k - 1);
        let p = 8 * i + k - 1;
        assert(p / 8 == i && p % 8 == k - 1);
    }
}

/// Twice the sum of the agreeing bits less the number of bits is the inner product.
pub proof fn agreeing_bits_give_inner_product(a: Seq<u8>, b: Seq<u8>, counts: Seq<u32>, n_bits: int)
    requires
        0 <= n_bits,
        a.len() == (n_bits + 7) / 8,
        b.len() == a.len(),
        counts.len() == a.len(),
        forall|i: int| 0 <= i < a.len() ==> #[trigger] counts[i] == agreeing(a[i], b[i], used_bits(n_bits, i)),
    ensures
        2 * total(counts) - n_bits == unit_dot(a, b, n_bits),
{
    agreeing_prefix(a, b, counts, n_bits, counts.len() as int);
    assert(counts.take(counts.len() as int) =~= counts);
}

proof fn agreeing_prefix(a: Seq<u8>, b: Seq<u8>, counts: Seq<u32>, n_bits: int, m: int)
    requires
        0 <= n_bits,
        a.len() == (n_bits + 7) / 8,
        b.len() == a.len(),
        counts.len() == a.len(),
        0 <= m <= counts.len(),
        forall|i: int| 0 <= i < a.len() ==> #[trigger] counts[i] == agreeing(a[i], b[i], used_bits(n_bits, i)),
    ensures
        ({
            let n = if 8 * m < n_bits { 8 * m } else { n_bits };
            2 * total(counts.take(m)) - n == unit_dot(a, b, n)
        }),
    decreases m,
{
    if m > 0 {
        agreeing_prefix(a, b, counts, n_bits, m - 1);
        assert(counts.take(m).drop_last() =~= counts.take(m - 1));
        assert(counts[m - 1] == agreeing(a[m - 1], b[m - 1], used_bits(n_bits, m - 1)));
        unit_dot_byte(a, b, m - 1, used_bits(n_bits, m - 1));
    }
}

/// Trit `p` of a row that packs four trits to a byte: 01 is +1, 10 is -1, the rest is zero.
pub open spec fn trit_at(row: Seq<u8>, p: int) -> int {
    let low = bits::bit_set(row[p / 4], 2 * (p % 4));
    let high = bits::bit_set(row[p / 4], 2 * (p % 4) + 1);
    if low && !high {
        1
    } else if high && !low {
        -1
    } else {
        0
    }
}

fn read_trit(row: &[u8], p: usize) -> (r: i8)
    requires
        p < 4 * row@.len(),
    ensures
        r == trit_at(row@, p as int),
{
    let low: bool = bits::test_bit(row[p / 4], 2 * (p % 4));
    let high: bool = bits::test_bit(row[p / 4], 2 * (p % 4) + 1);
    if low && !high {
        1
    } else if high && !low {
        -1
    } else {
        0
    }
}

/// Marks, one bit for each of `n` positions, where two rows of trits have a positive product.
/// The bits of the last byte past the end are cleared; later bytes stay as they are.
pub fn xnor_popcount_2bit(a: &[u8], b: &[u8], out: &mut [u8], n: usize)
    requires
        n <= 4 * a@.len(),
        n <= 4 * b@.len(),
        n <= 8 * old(out)@.len(),
    ensures
        final(out)@.len() == old(out)@.len(),
        forall|p: int| 0 <= p < 8 * ((n + 7) / 8) ==> #[trigger] bits::bit_set(final(out)@[p / 8], p % 8)
            == (p < n && trit_at(a@, p) * trit_at(b@, p) > 0),
        forall|j: int| (n + 7) / 8 <= j < old(out)@.len() ==> #[trigger] final(out)@[j] == old(out)@[j],
{
    let mut i: usize = 0;
    while i < n
        invariant
            i <= n,
            n <= 4 * a@.len(),
            n <= 4 * b@.len(),
            n <= 8 * out@.len(),
            out@.len() == old(out)@.len(),
            forall|p: int| 0 <= p < 8 * ((i + 7) / 8) ==> #[trigger] bits::bit_set(out@[p / 8], p % 8)
                == (p < i && trit_at(a@, p) * trit_at(b@, p) > 0),
            forall|j: int| (i + 7) / 8 <= j < out@.len() ==> #[trigger] out@[j] == old(out)@[j],
        decreases n - i,
    {
        let ghost before = out@;
        let x: i8 = read_trit(a, i);
        let y: i8 = read_trit(b, i);
        let on: bool = x != 0 && x == y;
        assert(on == (x * y > 0)) by (nonlinear_arith)
            requires
                -1 <= x <= 1,
                -1 <= y <= 1,
                on == (x != 0 && x == y),
        ;
        let byte: u8 = if i % 8 == 0 { 0 } else { out[i / 8] };
        let set: u8 = bits::with_bit(byte, i % 8, on);
        out[i / 8] = set;
        proof {
            assert forall|p: int| 0 <= p < 8 * ((i + 1 + 7) / 8) implies #[trigger] bits::bit_set(out@[p / 8], p % 8)
                == (p < i + 1 && trit_at(a@, p) * trit_at(b@, p) > 0) by {
                if p / 8 == i / 8 {
                    assert(bits::bit_set(set, p % 8) == (if p % 8 == i % 8 { on } else { bits::bit_set(byte, p % 8) }));
                    if i % 8 == 0 {
                        bits::zero_has_no_bit(p % 8);
                    } else {
                        assert(bits::bit_set(before[p / 8], p % 8) == (p < i && trit_at(a@, p) * trit_at(b@, p) > 0));
                    }
                } else {
                    assert(bits::bit_set(before[p / 8], p % 8) == (p < i && trit_at(a@, p) * trit_at(b@, p) > 0));
                }
            }
        }
        i = i + 1;
    }
}

} // verus!
