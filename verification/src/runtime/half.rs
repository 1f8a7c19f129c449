//! Floats from narrower number formats, as bit patterns.
use vstd::arithmetic::power2;
use vstd::prelude::*;

verus! {

/// The sign bit of a half float, in the place of a float's.
pub open spec fn half_sign(u: u16) -> int {
    (u / 0x8000) as int * 0x8000_0000
}

/// The exponent of a half float.
pub open spec fn half_exponent(u: u16) -> int {
    (u / 0x400) as int % 32
}

/// The mantissa of a half float.
pub open spec fn half_mantissa(u: u16) -> int {
    u as int % 0x400
}

/// How often a mantissa must be doubled to reach its leading bit.
pub open spec fn doublings(m: int) -> nat
    decreases 0x800 - m,
{
    if m <= 0 || m >= 0x400 {
        0
    } else {
        1 + doublings(2 * m)
    }
}

/// A half float as the float of the same value.
pub open spec fn half_exact(u: u16) -> int {
    let e = half_exponent(u);
    let m = half_mantissa(u);
    let k = doublings(m);
    half_sign(u) + (if e == 0 && m == 0 {
        0
    } else if e == 0 {
        (113 - k) * 0x80_0000 + (m * power2::pow2(k) - 0x400) * 0x2000
    } else if e == 31 {
        0x7f80_0000 + m * 0x2000
    } else {
        (e + 112) * 0x80_0000 + m * 0x2000
    })
}

/// Converts a half float to the float of the same value.
pub fn exact_half(u: u16) -> (r: u32)
    ensures
        r == half_exact(u),
{
    let sign: u32 = ((u / 0x8000) as u32) * 0x8000_0000;
    let e: u32 = ((u / 0x400) % 32) as u32;
    let m: u32 = (u % 0x400) as u32;
    if e == 0 && m == 0 {
        sign
    } else if e == 0 {
        let mut x: u32 = m;
        let mut k: u32 = 0;
        proof {
            power2::lemma2_to64();
            doublings_bound(m as int);
        }
        while x < 0x400
            invariant
                0 < m < 0x400,
                0 < x < 0x800,
                k <= 10,
                x == m * power2::pow2(k as nat),
                doublings(m as int) == k + doublings(x as int),
                doublings(m as int) <= 10,
            decreases 0x800 - x,
        {
            proof {
                power2::lemma_pow2_unfold((k + 1) as nat);
                assert(m * (2 * power2::pow2(k as nat)) == 2 * (m * power2::pow2(k as nat))) by (nonlinear_arith);
            }
            x = 2 * x;
            k = k + 1;
        }
        sign + (113 - k) * 0x80_0000 + (x - 0x400) * 0x2000
    } else if e == 31 {
        sign + 0x7f80_0000 + m * 0x2000
    } else {
        sign + (e + 112) * 0x80_0000 + m * 0x2000
    }
}

/// A mantissa of ten bits is doubled at most ten times.
proof fn doublings_bound(m: int)
    requires
        0 < m,
    ensures
        m >= 0x400 ==> doublings(m) == 0,
        m < 0x400 ==> doublings(m) <= 10,
        m >= 0x200 && m < 0x400 ==> doublings(m) == 1,
{
    reveal_with_fuel(doublings, 12);
}

/// A shortened float as a float: its bits are the upper half.
pub fn from_upper(u: u16) -> (r: u32)
    ensures
        r == u * 0x1_0000,
{
    (u as u32) * 0x1_0000
}

/// The least power of two, at or after `k`, by which `m` must be multiplied for the quotient by
/// `b` to have 24 bits.
pub open spec fn shift_for(m: int, b: int, k: nat) -> nat
    decreases 64 - k,
{
    if k >= 64 || (m * power2::pow2(k)) / b >= 0x80_0000 {
        k
    } else {
        shift_for(m, b, k + 1)
    }
}

/// The bits of the float nearest to the quotient of two positive integers, the second odd.
pub open spec fn quotient_bits(m: int, b: int) -> int {
    let k = shift_for(m, b, 0);
    let n = m * power2::pow2(k);
    let rounded = n / b + (if 2 * (n % b) > b {
        1int
    } else {
        0
    });
    (150 - k) * 0x80_0000 + (rounded - 0x80_0000)
}

/// The bits of the float nearest to a small integer over a small odd one.
pub open spec fn ratio_bits(a: int, b: int) -> int {
    if a == 0 {
        0
    } else if a > 0 {
        quotient_bits(a, b)
    } else {
        0x8000_0000 + quotient_bits(-a, b)
    }
}

/// The float nearest to a small integer over a small odd one.
pub fn ratio(a: i32, b: u32) -> (r: u32)
    requires
        -0x100 <= a <= 0x100,
        0 < b < 0x100,
        b % 2 == 1,
    ensures
        r == ratio_bits(a as int, b as int),
{
    if a == 0 {
        return 0;
    }
    let m: u64 = if a > 0 { a as u64 } else { (-a) as u64 };
    let d: u64 = b as u64;
    let mut n: u64 = m;
    let mut k: u32 = 0;
    proof {
        power2::lemma2_to64();
    }
    while n / d < 0x80_0000
        invariant
            0 < m <= 0x100,
            0 < d < 0x100,
            k <= 31,
            n == m * power2::pow2(k as nat),
            shift_for(m as int, d as int, 0) == shift_for(m as int, d as int, k as nat),
            n < 0x100_0000 * d,
            n >= power2::pow2(k as nat),
        decreases 0x100_0000 * d - n,
    {
        proof {
            power2::lemma2_to64();
            vstd::arithmetic::div_mod::lemma_fundamental_div_mod(n as int, d as int);
            assert(n < 0x80_0000 * d) by (nonlinear_arith)
                requires
                    n == d * (n / d) + n % d,
                    0 <= n % d < d,
                    n / d < 0x80_0000,
                    0 < d < 0x100,
            ;
            if k >= 31 {
                power2::lemma_pow2_strictly_increases(30, k as nat);
            }
            power2::lemma_pow2_unfold((k + 1) as nat);
            assert(m * (2 * power2::pow2(k as nat)) == 2 * (m * power2::pow2(k as nat))) by (nonlinear_arith);
            power2::lemma_pow2_pos(k as nat);
        }
        n = 2 * n;
        k = k + 1;
    }
    let q: u64 = n / d;
    let rest: u64 = n % d;
    proof {
        vstd::arithmetic::div_mod::lemma_fundamental_div_mod(n as int, d as int);
        assert(n / d < 0x100_0000) by (nonlinear_arith)
            requires
                n == d * (n / d) + n % d,
                0 <= n % d,
                n < 0x100_0000 * d,
                0 < d,
        ;
    }
    let rounded: u64 = if 2 * rest > d { q + 1 } else { q };
    let bits: u32 = ((150 - k) as u64 * 0x80_0000 + (rounded - 0x80_0000)) as u32;
    if a > 0 {
        bits
    } else {
        0x8000_0000 + bits
    }
}

/// How often a number must be halved, at or after `k` times, to have 24 bits.
pub open spec fn cut_for(m: int, k: nat) -> nat
    decreases 64 - k,
{
    if k >= 64 || m / (power2::pow2(k) as int) < 0x100_0000 {
        k
    } else {
        cut_for(m, k + 1)
    }
}

/// The bits of the float nearest to a positive integer; of two that are equally near, the even
/// one.
pub open spec fn whole_bits(m: int) -> int {
    if m < 0x100_0000 {
        quotient_bits(m, 1)
    } else {
        let k = cut_for(m, 0);
        let p = power2::pow2(k) as int;
        let q = m / p;
        let r = m % p;
        let rounded = q + (if 2 * r > p || (2 * r == p && q % 2 == 1) {
            1int
        } else {
            0
        });
        (150 + k) * 0x80_0000 + (rounded - 0x80_0000)
    }
}

/// The bits of the float nearest to an integer.
pub open spec fn int_bits(v: int) -> int {
    if v == 0 {
        0
    } else if v > 0 {
        whole_bits(v)
    } else {
        0x8000_0000 + whole_bits(-v)
    }
}

/// The float nearest to a positive integer.
fn whole(m: u64) -> (r: u32)
    requires
        m > 0,
    ensures
        r == whole_bits(m as int),
        r < 0x8000_0000,
{
    proof {
        power2::lemma2_to64();
    }
    if m < 0x100_0000 {
        let mut n: u64 = m;
        let mut k: u32 = 0;
        while n < 0x80_0000
            invariant
                0 < m < 0x100_0000,
                k <= 24,
                n == m * power2::pow2(k as nat),
                shift_for(m as int, 1, 0) == shift_for(m as int, 1, k as nat),
                n < 0x100_0000,
                n >= power2::pow2(k as nat),
            decreases 0x100_0000 - n,
        {
            proof {
                power2::lemma2_to64();
                if k >= 24 {
                    power2::lemma_pow2_strictly_increases(23, k as nat);
                }
                power2::lemma_pow2_unfold((k + 1) as nat);
                assert(m * (2 * power2::pow2(k as nat)) == 2 * (m * power2::pow2(k as nat))) by (nonlinear_arith);
                power2::lemma_pow2_pos(k as nat);
            }
            n = 2 * n;
            k = k + 1;
        }
        assert(n as int / 1 == n && n as int % 1 == 0);
        return ((150 - k) as u64 * 0x80_0000 + (n - 0x80_0000)) as u32;
    }
    let mut q: u64 = m;
    let mut p: u64 = 1;
    let mut k: u32 = 0;
    while q >= 0x100_0000
        invariant
            m >= 0x100_0000,
            k <= 40,
            p == power2::pow2(k as nat),
            q == m as int / (p as int),
            q >= 0x80_0000,
            q * p <= m,
            cut_for(m as int, 0) == cut_for(m as int, k as nat),
        decreases q,
    {
        proof {
            power2::lemma2_to64();
            power2::lemma2_to64_rest();
            power2::lemma_pow2_unfold((k + 1) as nat);
            power2::lemma_pow2_pos(k as nat);
            if k >= 40 {
                assert(q * p >= 0x100_0000 * 0x100_0000_0000) by (nonlinear_arith)
                    requires
                        q >= 0x100_0000,
                        p >= 0x100_0000_0000,
                ;
            } else {
                power2::lemma_pow2_strictly_increases(k as nat, 40);
            }
            vstd::arithmetic::div_mod::lemma_div_denominator(m as int, p as int, 2);
            vstd::arithmetic::div_mod::lemma_fundamental_div_mod(m as int, 2 * p as int);
            vstd::arithmetic::div_mod::lemma_mod_bound(m as int, 2 * p as int);
            assert((q / 2) * (2 * p) <= m) by (nonlinear_arith)
                requires
                    m == (2 * p) * (m as int / (2 * p as int)) + m as int % (2 * p as int),
                    m as int % (2 * p as int) >= 0,
                    q / 2 == m as int / (2 * p as int),
            ;
        }
        q = q / 2;
        p = 2 * p;
        k = k + 1;
    }
    proof {
        power2::lemma2_to64_rest();
        power2::lemma_pow2_pos(k as nat);
        if k < 40 {
            power2::lemma_pow2_strictly_increases(k as nat, 40);
        }
    }
    let r: u64 = m % p;
    let rounded: u64 = if 2 * r > p || (2 * r == p && q % 2 == 1) { q + 1 } else { q };
    ((150 + k) as u64 * 0x80_0000 + (rounded - 0x80_0000)) as u32
}

/// The float nearest to an integer.
pub fn int_float(v: i64) -> (r: u32)
    ensures
        r == int_bits(v as int),
{
    if v == 0 {
        0
    } else if v > 0 {
        whole(v as u64)
    } else {
        let m: u64 = (-(v + 1)) as u64 + 1;
        0x8000_0000 + whole(m)
    }
}

/// The float nearest to an unsigned integer.
pub fn unsigned_float(v: u64) -> (r: u32)
    ensures
        r == int_bits(v as int),
{
    if v == 0 {
        0
    } else {
        whole(v)
    }
}

} // verus!
