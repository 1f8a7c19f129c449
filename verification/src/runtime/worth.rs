//! What the bits of floats are worth, and that narrower numbers are worth the same after they
//! have been made floats.
//!
//! The least positive float is worth one here, so that every finite float is worth an integer; the
//! number one is worth two to the power of 149.
use super::half;
use super::sampler;
use vstd::arithmetic::power2;
use vstd::prelude::*;

verus! {

/// The exponent field of a float.
pub open spec fn exponent(bits: int) -> int {
    bits / 0x80_0000 % 256
}

/// The mantissa field of a float.
pub open spec fn mantissa(bits: int) -> int {
    bits % 0x80_0000
}

/// Bits that stand for a number, and not for an infinity or for none.
pub open spec fn finite(bits: int) -> bool {
    0 <= bits < 0x1_0000_0000 && exponent(bits) < 255
}

/// How far the neighbours of a float are away.
pub open spec fn spacing(bits: int) -> int {
    power2::pow2(if exponent(bits) == 0 {
        0
    } else {
        (exponent(bits) - 1) as nat
    }) as int
}

/// What a finite float is worth.
pub open spec fn worth(bits: int) -> int {
    let size = (if exponent(bits) == 0 {
        mantissa(bits)
    } else {
        0x80_0000 + mantissa(bits)
    }) * spacing(bits);
    if bits < 0x8000_0000 {
        size
    } else {
        -size
    }
}

/// What the number one is worth.
pub open spec fn one() -> int {
    power2::pow2(149) as int
}

/// Powers of two multiply by adding what they are raised to.
proof fn pow2_sum(a: nat, b: nat)
    ensures
        power2::pow2(a + b) == power2::pow2(a) * power2::pow2(b),
{
    power2::lemma_pow2_adds(a, b);
}

/// The fields of bits that were put together from fields.
proof fn fields(sign: int, e: int, m: int)
    requires
        sign == 0 || sign == 0x8000_0000,
        0 <= e < 256,
        0 <= m < 0x80_0000,
    ensures
        exponent(sign + e * 0x80_0000 + m) == e,
        mantissa(sign + e * 0x80_0000 + m) == m,
        sign + e * 0x80_0000 + m < 0x8000_0000 <==> sign == 0,
        0 <= sign + e * 0x80_0000 + m < 0x1_0000_0000,
{
}

/// A mantissa doubled until it reaches its leading bit has just that bit in front.
proof fn doubled(m: int)
    requires
        0 < m < 0x400,
    ensures
        1 <= half::doublings(m) <= 10,
        0x400 <= m * power2::pow2(half::doublings(m)) < 0x800,
    decreases 0x400 - m,
{
    power2::lemma2_to64();
    assert(1 <= half::doublings(m) <= 10) by {
        reveal_with_fuel(half::doublings, 12);
    }
    if 2 * m < 0x400 {
        doubled(2 * m);
        let k = half::doublings(2 * m);
        pow2_sum(1, k);
        let p = power2::pow2(k) as int;
        assert(half::doublings(m) == 1 + k);
        assert(m * (2 * p) == (2 * m) * p) by (nonlinear_arith);
        assert(power2::pow2(half::doublings(m)) == 2 * p);
    } else {
        assert(half::doublings(2 * m) == 0);
        assert(half::doublings(m) == 1);
        assert(power2::pow2(1) == 2);
    }
}

/// The bits are those of a half float made a float: with sign `s`, exponent `e` and mantissa `m` a
/// finite half float is the number `m / 1024` or `1 + m / 1024`, times two to the power of
/// `e - 15` (of -14 where the exponent is zero), and negative where the sign is set.
#[verifier::opaque]
pub open spec fn like_half(bits: int, u: int) -> bool {
    let e = u / 0x400 % 32;
    let m = u % 0x400;
    let size = if e == 0 {
        m * power2::pow2(125)
    } else {
        (0x400 + m) * power2::pow2((e - 1) as nat) * power2::pow2(125)
    };
    &&& 0 <= bits < 0x1_0000_0000
    &&& bits >= 0x8000_0000 <==> u >= 0x8000
    &&& e < 31 ==> finite(bits) && worth(bits) == (if u < 0x8000 {
        size
    } else {
        -size
    })
    &&& e == 31 ==> exponent(bits) == 255 && (mantissa(bits) == 0 <==> m == 0)
}

/// A half float is made the float that is worth the same.
pub proof fn half_is_worth_the_same(u: u16)
    ensures
        like_half(half::half_exact(u), u as int),
        0 <= half::half_exact(u) < 0x1_0000_0000,
{
    reveal(like_half);
    let bits = half::half_exact(u);
    let e = half::half_exponent(u);
    let m = half::half_mantissa(u);
    let sign = half::half_sign(u);
    power2::lemma2_to64();
    if e == 0 && m == 0 {
        fields(sign, 0, 0);
        assert(0 * power2::pow2(125) == 0 && 0 * spacing(bits) == 0) by (nonlinear_arith);
    } else if e == 0 {
        let k = half::doublings(m);
        doubled(m);
        let x = m * power2::pow2(k);
        fields(sign, 113 - k, (x - 0x400) * 0x2000);
        assert(bits == sign + (113 - k) * 0x80_0000 + (x - 0x400) * 0x2000);
        pow2_sum(k, (125 - k) as nat);
        pow2_sum(13, (112 - k) as nat);
        let p = power2::pow2(k) as int;
        let q = power2::pow2((125 - k) as nat) as int;
        let r = power2::pow2((112 - k) as nat) as int;
        assert(spacing(bits) == r);
        assert((0x80_0000 + (x - 0x400) * 0x2000) * r == m * (p * q)) by (nonlinear_arith)
            requires
                x == m * p,
                q == 0x2000 * r,
        ;
    } else if e == 31 {
        fields(sign, 255, m * 0x2000);
    } else {
        fields(sign, e + 112, m * 0x2000);
        pow2_sum((e - 1) as nat, 125);
        pow2_sum(13, (e + 111) as nat);
        let p = power2::pow2((e - 1) as nat) as int;
        let q = power2::pow2(125) as int;
        let r = power2::pow2((e + 111) as nat) as int;
        assert((e - 1) as nat + 125 == 13 + (e + 111) as nat);
        assert((0x80_0000 + m * 0x2000) * r == (0x400 + m) * p * q) by (nonlinear_arith)
            requires
                p * q == 0x2000 * r,
        ;
    }
}

/// The size of a half float that is not negative, in units of the least positive one.
spec fn half_size(v: int) -> int {
    if v / 0x400 == 0 {
        v % 0x400
    } else {
        (0x400 + v % 0x400) * power2::pow2((v / 0x400 - 1) as nat)
    }
}

/// Half floats grow with their bits.
proof fn half_grows(u: int)
    requires
        0 <= u,
        u + 1 < 0x7c00,
    ensures
        0 <= half_size(u) < half_size(u + 1),
{
    let e = u / 0x400;
    let m = u % 0x400;
    power2::lemma2_to64();
    if e > 0 {
        let p = power2::pow2((e - 1) as nat) as int;
        power2::lemma_pow2_pos((e - 1) as nat);
        pow2_sum(1, (e - 1) as nat);
        assert(0 <= (0x400 + m) * p < (0x400 + m + 1) * p) by (nonlinear_arith)
            requires
                p > 0,
                m >= 0,
        ;
        assert((0x400 + 0x3ff) * p < 0x400 * (2 * p)) by (nonlinear_arith)
            requires
                p > 0,
        ;
        if m == 0x3ff {
            assert((u + 1) / 0x400 == e + 1 && (u + 1) % 0x400 == 0);
            assert(1 + (e - 1) as nat == e as nat);
            assert(half_size(u) == (0x400 + 0x3ff) * p);
            assert(half_size(u + 1) == (0x400 + 0) * power2::pow2(e as nat));
            assert(power2::pow2(e as nat) == 2 * p);
        } else {
            assert((u + 1) / 0x400 == e && (u + 1) % 0x400 == m + 1);
            assert(half_size(u) == (0x400 + m) * p);
            assert(half_size(u + 1) == (0x400 + (m + 1)) * p);
        }
    } else if m == 0x3ff {
        assert((u + 1) / 0x400 == 1 && (u + 1) % 0x400 == 0);
        assert(power2::pow2(0) == 1);
    } else {
        assert((u + 1) / 0x400 == 0 && (u + 1) % 0x400 == m + 1);
    }
}

/// A half float that is not negative is worth its size.
proof fn half_sized(u: u16)
    requires
        u < 0x7c00,
    ensures
        worth(half::half_exact(u)) == half_size(u as int) * power2::pow2(125),
        worth(half::half_exact((u + 0x8000) as u16)) == -worth(half::half_exact(u)),
{
    reveal(like_half);
    half_is_worth_the_same(u);
    let v = (u + 0x8000) as u16;
    half_is_worth_the_same(v);
    assert(v as int / 0x400 % 32 == u as int / 0x400 && v as int % 0x400 == u as int % 0x400);
    assert(u as int / 0x400 % 32 == u as int / 0x400);
}

/// Half floats keep their order: of two that are not negative the one with the larger bits is
/// made the larger float, and setting the sign turns the float around. So no two half floats but
/// the zeros are made floats that are worth the same.
pub proof fn halves_keep_their_order(a: u16, b: u16)
    requires
        a < b < 0x7c00,
    ensures
        0 <= worth(half::half_exact(a)) < worth(half::half_exact(b)),
        worth(half::half_exact((a + 0x8000) as u16)) == -worth(half::half_exact(a)),
        worth(half::half_exact((b + 0x8000) as u16)) == -worth(half::half_exact(b)),
    decreases b - a,
{
    half_sized(a);
    half_sized(b);
    power2::lemma_pow2_pos(125);
    let c = (b - 1) as u16;
    half_sized(c);
    half_grows(c as int);
    let q = power2::pow2(125) as int;
    let x = half_size(c as int);
    let y = half_size(b as int);
    assert(0 <= x * q < y * q) by (nonlinear_arith)
        requires
            0 <= x < y,
            q > 0,
    ;
    if a < c {
        halves_keep_their_order(a, c);
    }
}

/// A float is as near to a fraction as floats get: it is off by no more than half of the way to
/// its neighbours.
#[verifier::opaque]
pub open spec fn nearest(bits: int, a: int, b: int) -> bool {
    &&& finite(bits)
    &&& 2 * (worth(bits) * b - a * one()) <= spacing(bits) * b
    &&& 2 * (a * one() - worth(bits) * b) <= spacing(bits) * b
}

/// With as many doublings as it takes, the quotient has 24 bits.
proof fn shifted(m: int, b: int, k: nat)
    requires
        0 < m,
        0 < b,
        m < 0x100_0000 * b,
        b < 0x100,
        k <= 31,
        k > 0 ==> m * power2::pow2(k) < 0x100_0000 * b,
    ensures
        half::shift_for(m, b, k) <= 31,
        0x80_0000 <= (m * power2::pow2(half::shift_for(m, b, k))) / b < 0x100_0000,
    decreases 64 - k,
{
    power2::lemma2_to64();
    let n = m * power2::pow2(k);
    vstd::arithmetic::div_mod::lemma_fundamental_div_mod(n, b);
    vstd::arithmetic::div_mod::lemma_mod_bound(n, b);
    let q = n / b;
    if q < 0x80_0000 {
        assert(n < 0x80_0000 * b) by (nonlinear_arith)
            requires
                n == b * q + n % b,
                n % b < b,
                q < 0x80_0000,
                0 < b,
        ;
        pow2_sum(1, k);
        let p = power2::pow2(k) as int;
        assert(m * (2 * p) == 2 * (m * p)) by (nonlinear_arith);
        if k == 31 {
            assert(m * p >= p) by (nonlinear_arith)
                requires
                    m >= 1,
                    p > 0,
            ;
        }
        shifted(m, b, k + 1);
    } else {
        assert(m * 1 == m);
        assert(q < 0x100_0000) by (nonlinear_arith)
            requires
                n == b * q + n % b,
                n % b >= 0,
                n < 0x100_0000 * b,
                0 < b,
        ;
    }
}

/// A rounded quotient is the float nearest to the fraction.
proof fn quotient_is_nearest(m: int, b: int)
    requires
        0 < m,
        0 < b < 0x100,
        m < 0x100_0000 * b,
    ensures
        nearest(half::quotient_bits(m, b), m, b),
        0 < half::quotient_bits(m, b) < 0x8000_0000,
        b == 1 ==> worth(half::quotient_bits(m, b)) == m * one(),
{
    reveal(nearest);
    power2::lemma2_to64();
    shifted(m, b, 0);
    let k = half::shift_for(m, b, 0);
    let n = m * power2::pow2(k);
    let q = n / b;
    let rest = n % b;
    vstd::arithmetic::div_mod::lemma_fundamental_div_mod(n, b);
    vstd::arithmetic::div_mod::lemma_mod_bound(n, b);
    let up: int = if 2 * rest > b {
        1
    } else {
        0
    };
    let rounded = q + up;
    let bits = half::quotient_bits(m, b);
    let r = power2::pow2((149 - k) as nat) as int;
    let p = power2::pow2(k) as int;
    power2::lemma_pow2_pos((149 - k) as nat);
    pow2_sum(k, (149 - k) as nat);
    if rounded == 0x100_0000 {
        fields(0, 151 - k, 0);
        pow2_sum(1, (149 - k) as nat);
        assert(spacing(bits) == 2 * r);
    } else {
        fields(0, 150 - k, rounded - 0x80_0000);
        assert(spacing(bits) == r);
    }
    let front = 0x80_0000 + mantissa(bits);
    let gap = spacing(bits);
    assert(front * gap == rounded * r) by (nonlinear_arith)
        requires
            (front == rounded && gap == r) || (front == 0x80_0000 && rounded == 0x100_0000 && gap == 2 * r),
    ;
    assert(worth(bits) == rounded * r);
    assert(one() == p * r);
    let off = b * up - rest;
    assert(b * 1 == b && b * 0 == 0);
    assert(rounded * r * b - m * (p * r) == off * r) by (nonlinear_arith)
        requires
            rounded == q + up,
            m * p == b * q + rest,
            off == b * up - rest,
    ;
    assert(2 * (off * r) <= r * b && -(r * b) <= 2 * (off * r)) by (nonlinear_arith)
        requires
            2 * off <= b,
            -b <= 2 * off,
            r > 0,
    ;
    assert(r * b <= spacing(bits) * b) by (nonlinear_arith)
        requires
            r <= spacing(bits),
            0 < b,
    ;
    if b == 1 {
        assert(0 * r == 0);
        assert(worth(bits) * 1 == worth(bits));
    }
}

/// A small integer over a small odd one is made the float nearest to the quotient; none of the
/// integers but zero is made zero.
pub proof fn ratio_is_nearest(a: int, b: int)
    requires
        -0x100 <= a <= 0x100,
        0 < b < 0x100,
    ensures
        nearest(half::ratio_bits(a, b), a, b),
        half::ratio_bits(a, b) >= 0x8000_0000 <==> a < 0,
        half::ratio_bits(a, b) == 0 <==> a == 0,
        0 <= half::ratio_bits(a, b) < 0x1_0000_0000,
{
    reveal(nearest);
    power2::lemma2_to64();
    if a == 0 {
        fields(0, 0, 0);
        assert(0 * spacing(0) == 0 && 0 * b == 0 && 0 * one() == 0 && 1 * b == b);
    } else {
        let m = if a > 0 {
            a
        } else {
            -a
        };
        quotient_is_nearest(m, b);
        if a < 0 {
            let plain = half::quotient_bits(m, b);
            let bits = plain + 0x8000_0000;
            turned(plain);
            assert(worth(bits) * b == -(worth(plain) * b)) by (nonlinear_arith)
                requires
                    worth(bits) == -worth(plain),
            ;
            assert((-m) * one() == -(m * one())) by (nonlinear_arith);
        }
    }
}

/// Setting the sign turns a float around.
pub proof fn turned(bits: int)
    requires
        0 <= bits < 0x8000_0000,
    ensures
        exponent(bits + 0x8000_0000) == exponent(bits),
        mantissa(bits + 0x8000_0000) == mantissa(bits),
        spacing(bits + 0x8000_0000) == spacing(bits),
        worth(bits + 0x8000_0000) == -worth(bits),
{
}

/// An integer of up to 24 bits is made the float that is worth as much.
pub proof fn small_integer_is_exact(v: int)
    requires
        -0x100_0000 < v < 0x100_0000,
    ensures
        finite(half::int_bits(v)),
        worth(half::int_bits(v)) == v * one(),
{
    reveal(nearest);
    power2::lemma2_to64();
    if v == 0 {
        fields(0, 0, 0);
        assert(0 * spacing(0) == 0 && 0 * one() == 0);
    } else {
        let m = if v > 0 {
            v
        } else {
            -v
        };
        quotient_is_nearest(m, 1);
        if v < 0 {
            turned(half::quotient_bits(m, 1));
            assert((-m) * one() == -(m * one())) by (nonlinear_arith);
        }
    }
}

/// The next larger bits of a float that is not negative are worth more.
proof fn float_grows(bits: int)
    requires
        0 <= bits,
        bits + 1 < 0x7f80_0000,
    ensures
        0 <= worth(bits) < worth(bits + 1),
{
    let e = exponent(bits);
    let m = mantissa(bits);
    power2::lemma2_to64();
    let gap = spacing(bits);
    power2::lemma_pow2_pos(if e == 0 {
        0
    } else {
        (e - 1) as nat
    });
    if m == 0x7f_ffff {
        assert(exponent(bits + 1) == e + 1 && mantissa(bits + 1) == 0);
        if e == 0 {
            assert(gap == 1);
            assert(spacing(bits + 1) == 1);
            assert(worth(bits) == 0x7f_ffff * 1);
            assert(worth(bits + 1) == (0x80_0000 + 0) * 1);
        } else {
            pow2_sum(1, (e - 1) as nat);
            assert(1 + (e - 1) as nat == (e + 1 - 1) as nat);
            assert(spacing(bits + 1) == 2 * gap);
            assert(0 <= (0x80_0000 + 0x7f_ffff) * gap < 0x80_0000 * (2 * gap)) by (nonlinear_arith)
                requires
                    gap > 0,
            ;
            assert(worth(bits) == (0x80_0000 + 0x7f_ffff) * gap);
            assert(worth(bits + 1) == (0x80_0000 + 0) * (2 * gap));
        }
    } else {
        assert(exponent(bits + 1) == e && mantissa(bits + 1) == m + 1);
        assert(spacing(bits + 1) == gap);
        let front = if e == 0 {
            m
        } else {
            0x80_0000 + m
        };
        assert(0 <= front * gap < (front + 1) * gap) by (nonlinear_arith)
            requires
                gap > 0,
                front >= 0,
        ;
        assert(worth(bits) == front * gap);
        let after = if e == 0 {
            m + 1
        } else {
            0x80_0000 + (m + 1)
        };
        assert(after == front + 1);
        assert(worth(bits + 1) == after * gap);
    }
}

/// A float without a sign is worth nothing or more.
pub proof fn sizes_are_not_negative(bits: int)
    requires
        0 <= bits < 0x8000_0000,
    ensures
        worth(bits) >= 0,
{
    power2::lemma_pow2_pos(if exponent(bits) == 0 {
        0
    } else {
        (exponent(bits) - 1) as nat
    });
    let s = spacing(bits);
    let m = if exponent(bits) == 0 {
        mantissa(bits)
    } else {
        0x80_0000 + mantissa(bits)
    };
    assert(m * s >= 0) by (nonlinear_arith)
        requires
            s >= 0,
            m >= 0,
    ;
}

/// Of two floats that are not negative the one with the larger bits is worth more.
proof fn bits_order_floats(a: int, b: int)
    requires
        0 <= a < b < 0x7f80_0000,
    ensures
        0 <= worth(a) < worth(b),
    decreases b - a,
{
    float_grows(b - 1);
    if a < b - 1 {
        bits_order_floats(a, b - 1);
    }
}

/// A finite float is at most another just where it is worth no more.
pub proof fn at_most_is_worth_no_more(a: u32, b: u32)
    requires
        finite(a as int),
        finite(b as int),
    ensures
        sampler::at_most(a, b) <==> worth(a as int) <= worth(b as int),
        sampler::rank(a) <= sampler::rank(b) <==> worth(a as int) <= worth(b as int),
        !sampler::is_nan(a),
{
    let x = a as int % 0x8000_0000;
    let y = b as int % 0x8000_0000;
    assert(exponent(a as int) == x / 0x80_0000 && exponent(b as int) == y / 0x80_0000);
    assert(x < 0x7f80_0000 && y < 0x7f80_0000);
    if a >= 0x8000_0000 {
        turned(x);
    }
    if b >= 0x8000_0000 {
        turned(y);
    }
    power2::lemma2_to64();
    assert(worth(0) == 0) by {
        assert(0 * spacing(0) == 0);
    }
    if 0 < x {
        bits_order_floats(0, x);
    }
    if 0 < y {
        bits_order_floats(0, y);
    }
    if x < y {
        bits_order_floats(x, y);
    }
    if y < x {
        bits_order_floats(y, x);
    }
}

} // verus!
