//! Integers as floats.
use super::config::Real;
use super::gguf::MetaModel;
use super::half;
use super::worth;
use vstd::arithmetic::power2;
use vstd::prelude::*;

verus! {

proof fn cut_is_found(m: int, k: nat)
    requires
        0x100_0000 <= m < 0x1_0000_0000_0000_0000,
        k <= 40,
        k > 0 ==> m / (power2::pow2((k - 1) as nat) as int) >= 0x100_0000,
    ensures
        ({
            let j = half::cut_for(m, k);
            &&& 0 < j <= 40
            &&& 0x80_0000 <= m / (power2::pow2(j) as int) < 0x100_0000
        }),
    decreases 40 - k,
{
    power2::lemma2_to64();
    power2::lemma_pow2_adds(20, 20);
    power2::lemma_pow2_pos(k);
    let p = power2::pow2(k) as int;
    if m / p < 0x100_0000 {
        if k == 0 {
            assert(m / 1 == m);
        } else {
            let h = power2::pow2((k - 1) as nat) as int;
            power2::lemma_pow2_pos((k - 1) as nat);
            power2::lemma_pow2_unfold(k);
            vstd::arithmetic::div_mod::lemma_div_denominator(m, h, 2);
            assert(p == h * 2);
        }
    } else if k == 40 {
        vstd::arithmetic::div_mod::lemma_fundamental_div_mod(m, p);
        vstd::arithmetic::div_mod::lemma_mod_bound(m, p);
        assert(p == 0x100_0000_0000);
        assert(false);
    } else {
        cut_is_found(m, k + 1);
    }
}

proof fn whole_is_nearest(m: int)
    requires
        0x100_0000 <= m < 0x1_0000_0000_0000_0000,
    ensures
        worth::nearest(half::whole_bits(m), m, 1),
        0 <= half::whole_bits(m) < 0x7f80_0000,
{
    reveal(worth::nearest);
    power2::lemma2_to64();
    cut_is_found(m, 0);
    let k = half::cut_for(m, 0);
    let p = power2::pow2(k) as int;
    power2::lemma_pow2_pos(k);
    let q = m / p;
    let r = m % p;
    vstd::arithmetic::div_mod::lemma_fundamental_div_mod(m, p);
    vstd::arithmetic::div_mod::lemma_mod_bound(m, p);
    let up = if 2 * r > p || (2 * r == p && q % 2 == 1) {
        1int
    } else {
        0
    };
    let rounded = q + up;
    let bits = half::whole_bits(m);
    assert(bits == (150 + k) * 0x80_0000 + (rounded - 0x80_0000));
    let one = worth::one();
    power2::lemma_pow2_adds(k, 149);
    power2::lemma_pow2_pos(149);
    let gap = power2::pow2(k + 149) as int;
    assert(gap == p * one);
    if rounded < 0x100_0000 {
        assert(worth::exponent(bits) == 150 + k);
        assert(worth::mantissa(bits) == rounded - 0x80_0000);
        assert(worth::spacing(bits) == gap);
        assert(worth::worth(bits) == (0x80_0000 + (rounded - 0x80_0000)) * gap);
    } else {
        assert(rounded == 0x100_0000);
        assert(bits == (151 + k) * 0x80_0000);
        assert(worth::exponent(bits) == 151 + k);
        assert(worth::mantissa(bits) == 0);
        power2::lemma_pow2_unfold((k + 150) as nat);
        assert(worth::spacing(bits) == 2 * gap);
        assert(worth::worth(bits) == 0x80_0000 * (2 * gap));
        assert(0x80_0000 * (2 * gap) == 0x100_0000 * gap) by (nonlinear_arith);
    }
    assert(gap > 0) by (nonlinear_arith)
        requires
            gap == p * one,
            p > 0,
            one > 0,
    ;
    let w = worth::worth(bits);
    assert(w == rounded * gap);
    assert(2 * (w - m * one) <= gap && 2 * (m * one - w) <= gap) by (nonlinear_arith)
        requires
            w == rounded * gap,
            gap == p * one,
            rounded == q + up,
            m == p * q + r,
            0 <= r < p,
            up == 1 ==> 2 * r >= p,
            up == 0 ==> 2 * r <= p,
            up == 0 || up == 1,
            one > 0,
    ;
    assert(w * 1 == w && gap * 1 == gap && m * one == m * one);
}

/// An integer of up to 64 bits is made the float nearest to it, with its sign; no float is nearer.
pub proof fn integer_is_made_the_nearest_float(v: int)
    requires
        -0x1_0000_0000_0000_0000 < v < 0x1_0000_0000_0000_0000,
    ensures
        worth::nearest(half::int_bits(v), v, 1),
        half::int_bits(v) >= 0x8000_0000 <==> v < 0,
{
    reveal(worth::nearest);
    if -0x100_0000 < v < 0x100_0000 {
        worth::small_integer_is_exact(v);
        let s = worth::spacing(half::int_bits(v));
        power2::lemma_pow2_pos(if worth::exponent(half::int_bits(v)) == 0 {
            0
        } else {
            (worth::exponent(half::int_bits(v)) - 1) as nat
        });
        assert(s * 1 == s && worth::worth(half::int_bits(v)) * 1 == worth::worth(half::int_bits(v)));
        small_sign(v);
    } else {
        let m = if v > 0 {
            v
        } else {
            -v
        };
        whole_is_nearest(m);
        if v < 0 {
            let plain = half::whole_bits(m);
            worth::turned(plain);
            assert((-m) * worth::one() == -(m * worth::one())) by (nonlinear_arith);
        }
    }
}

proof fn small_sign(v: int)
    requires
        -0x100_0000 < v < 0x100_0000,
    ensures
        half::int_bits(v) >= 0x8000_0000 <==> v < 0,
{
    worth::small_integer_is_exact(v);
    power2::lemma_pow2_pos(149);
    let b = half::int_bits(v);
    let one = worth::one();
    assert(v > 0 ==> v * one > 0) by (nonlinear_arith)
        requires
            one > 0,
    ;
    assert(v < 0 ==> v * one < 0) by (nonlinear_arith)
        requires
            one > 0,
    ;
    if b < 0x8000_0000 {
        worth::sizes_are_not_negative(b);
    } else {
        worth::sizes_are_not_negative(b - 0x8000_0000);
        worth::turned(b - 0x8000_0000);
    }
}

/// A float of a file is taken as it is, and an integer as the float nearest to it.
pub proof fn numbers_of_files_are_floats(m: MetaModel)
    ensures
        m matches MetaModel::Float32(x) ==> m.real_value() == Some(Real::Single(x)),
        m matches MetaModel::Float64(x) ==> m.real_value() == Some(Real::Double(x)),
        m matches MetaModel::Uint32(v) ==> (m.real_value() matches Some(Real::Single(x)) && worth::nearest(x as int, v as int, 1)),
        m matches MetaModel::Int32(v) ==> (m.real_value() matches Some(Real::Single(x)) && worth::nearest(x as int, v as int, 1)),
        m matches MetaModel::Uint64(v) ==> (m.real_value() matches Some(Real::Single(x)) && worth::nearest(x as int, v as int, 1)),
        m matches MetaModel::Int64(v) ==> (m.real_value() matches Some(Real::Single(x)) && worth::nearest(x as int, v as int, 1)),
        m is Text || m is Bool || m is Array ==> m.real_value() is None,
{
    match m {
        MetaModel::Uint32(v) => {
            fits(v as int);
        },
        MetaModel::Int32(v) => {
            fits(v as int);
        },
        MetaModel::Uint64(v) => {
            fits(v as int);
        },
        MetaModel::Int64(v) => {
            fits(v as int);
        },
        _ => {},
    }
}

proof fn fits(v: int)
    requires
        -0x1_0000_0000_0000_0000 < v < 0x1_0000_0000_0000_0000,
    ensures
        worth::nearest(half::int_bits(v) as u32 as int, v, 1),
{
    integer_is_made_the_nearest_float(v);
    reveal(worth::nearest);
}

} // verus!
