//! What packed bits, signs and places mean.
use super::binary;
use super::binary::BinaryTensor;
use super::bits;
use super::init;
use super::init::InitMethod;
use super::ops;
use super::pnword;
use super::shape;
use super::simd;
use super::tensor;
use super::tensor::{Tensor, TensorModel};
use super::types::{DType, TensorError};
use super::view;
use crate::runtime::worth;
use vstd::arithmetic::power2;
use vstd::prelude::*;

verus! {

/// The size of a number.
pub open spec fn size_of(x: int) -> int {
    if x < 0 {
        -x
    } else {
        x
    }
}

/// The bits of a byte are its binary digits, the lowest first.
pub proof fn bits_are_binary_digits(b: u8)
    ensures
        bits::bit_set(b, 0) == (b % 2 == 1),
        bits::bit_set(b, 1) == (b / 2 % 2 == 1),
        bits::bit_set(b, 2) == (b / 4 % 2 == 1),
        bits::bit_set(b, 3) == (b / 8 % 2 == 1),
        bits::bit_set(b, 4) == (b / 16 % 2 == 1),
        bits::bit_set(b, 5) == (b / 32 % 2 == 1),
        bits::bit_set(b, 6) == (b / 64 % 2 == 1),
        bits::bit_set(b, 7) == (b / 128 % 2 == 1),
{
    assert(((b >> 0u8) & 1 == 1) == (b % 2 == 1) && ((b >> 1u8) & 1 == 1) == (b / 2 % 2 == 1) && ((b >> 2u8) & 1 == 1) == (b / 4 % 2 == 1)
        && ((b >> 3u8) & 1 == 1) == (b / 8 % 2 == 1) && ((b >> 4u8) & 1 == 1) == (b / 16 % 2 == 1) && ((b >> 5u8) & 1 == 1) == (b / 32 % 2
        == 1) && ((b >> 6u8) & 1 == 1) == (b / 64 % 2 == 1) && ((b >> 7u8) & 1 == 1) == (b / 128 % 2 == 1)) by (bit_vector);
}

/// The bits of words are their binary digits, the lowest first.
pub proof fn long_bits_are_binary_digits(w: u64, k: int)
    requires
        0 <= k < 64,
    ensures
        pnword::word_bit(w, k) == (w as int / power2::pow2(k as nat) as int % 2 == 1),
{
    let kk = k as u64;
    vstd::bits::lemma_u64_shr_is_div(w, kk);
    let q = w >> kk;
    assert((q & 1 == 1) == (q % 2 == 1)) by (bit_vector);
}

/// A single bit stands for the float that is one or minus one.
pub proof fn signs_are_worth_one(positive: bool)
    ensures
        worth::finite(bits::sign_bits(positive) as int),
        worth::worth(bits::sign_bits(positive) as int) == (if positive {
            worth::one()
        } else {
            -worth::one()
        }),
{
    assert(worth::exponent(0x3f80_0000) == 127 && worth::mantissa(0x3f80_0000) == 0);
    power2::lemma_pow2_adds(23, 126);
    power2::lemma2_to64();
    worth::turned(0x3f80_0000);
}

/// A float is above zero where it is worth more than nothing.
pub proof fn above_zero_is_worth_something(b: u32)
    requires
        worth::finite(b as int),
    ensures
        bits::above_zero(b) <==> worth::worth(b as int) > 0,
{
    assert(0 * worth::spacing(0) == 0);
    assert(worth::exponent(0) == 0 && worth::mantissa(0) == 0);
    worth::at_most_is_worth_no_more(b, 0);
}

/// Without its sign a float is worth its size, and with the other sign the opposite.
pub proof fn signs_are_taken_away(b: u32)
    requires
        worth::finite(b as int),
    ensures
        worth::finite(binary::magnitude(b) as int),
        worth::worth(binary::magnitude(b) as int) == size_of(worth::worth(b as int)),
        worth::worth(binary::negated(b) as int) == -worth::worth(b as int),
        binary::negated(binary::negated(b)) == b,
{
    let x = b as int % 0x8000_0000;
    worth::turned(x);
    worth::sizes_are_not_negative(x);
    assert(worth::exponent(b as int) == worth::exponent(x));
}

/// No element of a row is larger than the scale of the row; some element is as large, or all are
/// zero and the scale is one.
pub proof fn scale_is_the_largest_size(row: Seq<u32>, i: int) -> (k: int)
    requires
        forall|j: int| 0 <= j < row.len() ==> worth::finite(#[trigger] row[j] as int),
        0 <= i < row.len(),
    ensures
        size_of(worth::worth(row[i] as int)) <= worth::worth(binary::row_scale(row) as int),
        worth::worth(binary::row_scale(row) as int) > 0,
        0 <= k < row.len(),
        size_of(worth::worth(row[k] as int)) == worth::worth(binary::row_scale(row) as int) || worth::worth(binary::row_scale(row) as int)
            == worth::one() && forall|j: int| 0 <= j < row.len() ==> worth::worth(#[trigger] row[j] as int) == 0,
{
    let n = row.len() as int;
    let m = binary::greatest(row, n);
    let k = greatest_is_taken(row, n);
    greatest_is_reached(row, n, i);
    signs_are_taken_away(row[i]);
    signs_are_worth_one(true);
    power2::lemma_pow2_pos(149);
    assert(0 * worth::spacing(0) == 0);
    assert(worth::exponent(0) == 0 && worth::mantissa(0) == 0);
    if m == 0 {
        assert forall|j: int| 0 <= j < row.len() implies worth::worth(#[trigger] row[j] as int) == 0 by {
            greatest_is_reached(row, n, j);
            signs_are_taken_away(row[j]);
        }
    } else {
        signs_are_taken_away(row[k]);
        worth::at_most_is_worth_no_more(binary::magnitude(row[i]), m);
        worth::at_most_is_worth_no_more(m, 0);
    }
    k
}

proof fn greatest_is_taken(row: Seq<u32>, n: int) -> (k: int)
    requires
        0 <= n <= row.len(),
    ensures
        binary::greatest(row, n) > 0 ==> 0 <= k < n && binary::magnitude(row[k]) == binary::greatest(row, n),
        n > 0 ==> 0 <= k < n,
    decreases n,
{
    if n <= 0 {
        0
    } else {
        let k = greatest_is_taken(row, n - 1);
        let rest = binary::greatest(row, n - 1);
        let m = binary::magnitude(row[n - 1]);
        if rest < m <= bits::INFINITY {
            n - 1
        } else if rest > 0 {
            k
        } else {
            n - 1
        }
    }
}

proof fn greatest_is_reached(row: Seq<u32>, n: int, i: int)
    requires
        0 <= i < n <= row.len(),
        forall|j: int| 0 <= j < row.len() ==> worth::finite(#[trigger] row[j] as int),
    ensures
        binary::magnitude(row[i]) <= binary::greatest(row, n),
        binary::greatest(row, n) < 0x8000_0000,
    decreases n,
{
    assert(worth::finite(row[n - 1] as int));
    assert(worth::finite(row[i] as int));
    assert(binary::magnitude(row[n - 1]) < 0x7f80_0000);
    if i < n - 1 {
        greatest_is_reached(row, n - 1, i);
    } else if n - 1 > 0 {
        greatest_is_reached(row, n - 1, 0);
    } else {
        assert(binary::greatest(row, 0) == 0);
    }
}

/// Rows of bits start at whole bytes, and take no more bytes than they have to.
pub proof fn rows_start_at_bytes(cols: int)
    requires
        0 <= cols,
    ensures
        cols <= 8 * binary::row_bytes(cols) < cols + 8,
{
}

/// The leading zeros end at the first value that is not zero.
pub proof fn zeros_lead_up_to_a_value(values: Seq<i8>, n: int, i: int)
    requires
        0 <= n <= values.len(),
    ensures
        pnword::leading_zeros(values, n) <= n,
        0 <= i < pnword::leading_zeros(values, n) ==> values[i] == 0,
        pnword::leading_zeros(values, n) < n ==> values[pnword::leading_zeros(values, n) as int] != 0,
    decreases n,
{
    if n > 0 {
        zeros_lead_up_to_a_value(values, n - 1, i);
    }
}

/// A mask has as many ones as digits that are one: one more digit adds itself.
pub proof fn ones_are_counted_digit_by_digit(m: u128, n: int)
    requires
        0 <= n < 128,
    ensures
        pnword::ones(m, 0) == 0,
        pnword::ones(m, n + 1) - pnword::ones(m, n) == m as int / power2::pow2(n as nat) as int % 2,
{
    let k = n as u128;
    vstd::bits::lemma_u128_shr_is_div(m, k);
    let q = m >> k;
    assert((q & 1 == 1) == (q % 2 == 1)) by (bit_vector);
}

/// A trit is one or minus one as its two digits say, and zero without them; no trit is both.
pub proof fn trits_have_two_digits(row: Seq<u8>, p: int)
    requires
        0 <= p < 4 * row.len(),
    ensures
        simd::trit_at(row, p) == ({
            let d = row[p / 4] as int / power2::pow2((2 * (p % 4)) as nat) as int % 4;
            if d == 1 {
                1int
            } else if d == 2 {
                -1
            } else {
                0
            }
        }),
{
    power2::lemma2_to64();
    bits_are_binary_digits(row[p / 4]);
    let k = p % 4;
    let b = row[p / 4] as int;
    if k == 0 {
        assert(b / 1 % 4 == b % 2 + 2 * (b / 2 % 2));
    } else if k == 1 {
        assert(b / 4 % 4 == b / 4 % 2 + 2 * (b / 8 % 2));
    } else if k == 2 {
        assert(b / 16 % 4 == b / 16 % 2 + 2 * (b / 32 % 2));
    } else {
        assert(b / 64 % 4 == b / 64 % 2 + 2 * (b / 128 % 2));
    }
}

/// A byte is a signed number between -128 and 127 that differs from it by a multiple of 256.
pub proof fn bytes_are_signed(b: u8)
    ensures
        -128 <= simd::signed(b) < 128,
        (b - simd::signed(b)) % 256 == 0,
{
}

/// An inner product is a sum of products, one for each place.
pub proof fn inner_products_are_sums(a: Seq<u8>, b: Seq<u8>, n: int)
    requires
        0 <= n,
    ensures
        simd::signed_dot(a, b, 0) == 0,
        simd::unit_dot(a, b, 0) == 0,
        simd::signed_dot(a, b, n + 1) == simd::signed_dot(a, b, n) + simd::signed(a[n]) * simd::signed(b[n]),
        simd::unit_dot(a, b, n + 1) == simd::unit_dot(a, b, n) + (if bits::bit_set(a[n / 8], n % 8) == bits::bit_set(b[n / 8], n % 8) {
            1int
        } else {
            -1
        }),
{
    let x = simd::unit(a, n);
    let y = simd::unit(b, n);
    assert(x * y == (if x == y {
        1int
    } else {
        -1
    })) by (nonlinear_arith)
        requires
            x == 1 || x == -1,
            y == 1 || y == -1,
    ;
}

/// The widest vector unit is named that a processor has.
pub proof fn widest_unit_is_named(avx2: bool, sse41: bool)
    ensures
        simd::widest(true, avx2, sse41) == "avx512"@,
        simd::widest(false, true, sse41) == "avx2"@,
        simd::widest(false, false, true) == "sse4.1"@,
        simd::widest(false, false, false) == "sse2"@,
{
}

/// A shape has as many elements as its dimensions multiplied, and its last dimension runs fastest:
/// one more there is the next place, and one more before it is as many places on as the last
/// dimension has.
pub proof fn last_dimension_runs_fastest(dims: Seq<usize>, index: Seq<usize>, d: usize, k: usize)
    requires
        dims.len() == index.len(),
    ensures
        shape::product(dims.push(d)) == shape::product(dims) * d,
        shape::product(Seq::empty()) == 1,
        shape::position(dims.push(d), index.push(k)) == shape::position(dims, index) * d + k,
        shape::position(Seq::empty(), Seq::empty()) == 0,
{
    assert(dims.push(d).drop_last() =~= dims);
    assert(index.push(k).drop_last() =~= index);
}

/// Elements are packed without gaps, and the last byte is filled up.
pub proof fn elements_are_packed_without_gaps(count: nat, width: nat)
    ensures
        count * width <= 8 * shape::packed_len(count, width) < count * width + 8,
{
}

/// A step along a dimension of a view is as long as its stride.
pub proof fn steps_are_strides(index: Seq<usize>, strides: Seq<usize>, k: int, more: usize)
    requires
        0 <= k < index.len(),
        index.len() <= strides.len(),
        index[k] <= more,
    ensures
        view::strided(index.update(k, more), strides, index.len() as int) - view::strided(index, strides, index.len() as int) == (more
            - index[k]) * strides[k],
        view::strided(index, strides, 0) == 0,
{
    steps_up_to(index, strides, k, more, index.len() as int);
}

proof fn steps_up_to(index: Seq<usize>, strides: Seq<usize>, k: int, more: usize, n: int)
    requires
        0 <= k < index.len(),
        0 <= n <= index.len() <= strides.len(),
    ensures
        view::strided(index.update(k, more), strides, n) - view::strided(index, strides, n) == (if k < n {
            (more - index[k]) * strides[k]
        } else {
            0
        }),
    decreases n,
{
    if n > 0 {
        steps_up_to(index, strides, k, more, n - 1);
        if n - 1 == k {
            let s = strides[k] as int;
            let a = more as int;
            let b = index[k] as int;
            assert(a * s - b * s == (a - b) * s) by (nonlinear_arith);
        }
    }
}

/// Weights are drawn from bounds as wide as their map is narrow: Xavier counts inputs and outputs,
/// He inputs alone.
pub proof fn bounds_follow_the_map(rows: usize, cols: usize)
    ensures
        InitMethod::XavierUniform.squared_bound(seq![rows, cols]) == Some((6int, rows + cols)),
        InitMethod::XavierNormal.squared_bound(seq![rows, cols]) == Some((6int, rows + cols)),
        InitMethod::HeUniform.squared_bound(seq![rows, cols]) == Some((6int, rows as int)),
        InitMethod::HeNormal.squared_bound(seq![rows, cols]) == Some((2int, rows as int)),
        InitMethod::XavierUniform.squared_bound(seq![cols]) == Some((6int, 1 + cols)),
        init::fan_in(seq![cols]) == 1,
        init::fan_out(seq![rows, cols]) == cols,
{
}

/// The elements of a matrix stand row by row: the element of row `r`, column `c` is number
/// `r * columns + c`, in the row, in the column and in the chunks of that width alike.
pub proof fn matrices_stand_row_by_row(t: TensorModel, r: int, c: int)
    requires
        t.shape.len() == 2,
        0 <= r < t.shape[0],
        0 <= c < t.shape[1],
    ensures
        t.row(r).len() == t.shape[1],
        t.column(c).len() == t.shape[0],
        t.row(r)[c] == t.lane(r * t.shape[1] + c),
        t.column(c)[r] == t.lane(r * t.shape[1] + c),
        t.chunk(r, t.shape[1] as int)[c] == t.lane(r * t.shape[1] + c),
        t.lanes().len() == t.shape[0] * t.shape[1],
        t.lanes()[r * t.shape[1] + c] == t.lane(r * t.shape[1] + c),
{
    let m = t.shape[0];
    let n = t.shape[1];
    assert(t.shape =~= seq![m, n]);
    shape::product_two(m, n);
    assert(0 <= r * n + c < m * n) by (nonlinear_arith)
        requires
            0 <= r < m,
            0 <= c < n,
    ;
}

/// A float takes four bytes, the lowest first, and a sign one bit.
pub proof fn elements_have_their_bytes(t: TensorModel, i: int)
    requires
        t.wf(),
        0 <= i < t.count(),
    ensures
        t.dtype is F32 ==> t.data.len() == 4 * t.count() && t.lane(i) == t.data[4 * i] + 0x100 * t.data[4 * i + 1] + 0x1_0000 * t.data[4 * i + 2]
            + 0x100_0000 * t.data[4 * i + 3],
        t.dtype is BIT1 ==> t.lane(i) == bits::sign_bits(bits::bit_set(t.data[i / 8], i % 8)),
        DType::F32.width() == 32,
        DType::BIT1.width() == 1,
        DType::F32.label() == "f32"@,
        DType::BIT1.label() == "bit1"@,
{
    t.sizes();
}

/// A type of signs keeps of a float that it is above zero, and a type of floats keeps it whole.
pub proof fn types_keep_what_they_can(b: u32)
    requires
        worth::finite(b as int),
    ensures
        tensor::kept(DType::F32, b) == b,
        worth::worth(b as int) > 0 ==> worth::worth(tensor::kept(DType::BIT1, b) as int) == worth::one(),
        worth::worth(b as int) <= 0 ==> worth::worth(tensor::kept(DType::BIT1, b) as int) == -worth::one(),
{
    above_zero_is_worth_something(b);
    signs_are_worth_one(true);
    signs_are_worth_one(false);
}

/// Transposing puts the element of row `r`, column `c` into row `c`, column `r`.
pub proof fn transposing_exchanges_rows_and_columns(a: TensorModel, t: TensorModel, r: int, c: int)
    requires
        tensor::transposed(a, t),
        0 <= r < a.shape[0],
        0 <= c < a.shape[1],
    ensures
        t.shape.len() == 2,
        t.shape[0] == a.shape[1],
        t.shape[1] == a.shape[0],
        t.lane(c * a.shape[0] + r) == a.lane(r * a.shape[1] + c),
        t.dtype == a.dtype,
{
    assert(a.lane(crate::grid::cell(r, c, a.shape[1] as int)) == a.lane(r * a.shape[1] + c));
}

/// Two tensors of one shape are taken element by element, each with the one at its own place; tensors
/// of different shapes are refused.
pub proof fn elements_meet_at_their_places<F: Fn(u32, u32) -> u32>(
    a: Tensor,
    b: Tensor,
    op: F,
    complaint: Seq<char>,
    r: Result<Tensor, TensorError>,
    i: int,
)
    requires
        ops::zipped(a, b, op, complaint, r),
    ensures
        r is Ok <==> a@.shape == b@.shape,
        r matches Ok(t) ==> t@.shape == a@.shape && (0 <= i < a@.count() ==> call_ensures(op, (a@.lane(i), b@.lane(i)), t@.lane(i))),
        r matches Err(e) ==> (e matches TensorError::ShapeMismatch(m) && m@ == complaint),
{
}

/// Through a view the first dimension runs fastest: the next element is one stride on, and where the
/// first dimension is through, the others go on as if it were not there.
pub proof fn views_run_along_the_first_dimension(idx: int, d: usize, dims: Seq<usize>, s: usize, strides: Seq<usize>)
    requires
        0 <= idx,
        0 < d,
        dims.len() <= strides.len(),
    ensures
        view::unrolled(idx, seq![d] + dims, seq![s] + strides, 0) == (idx % d as int) * s + view::unrolled(idx / d as int, dims, strides, 0),
        view::unrolled(idx, Seq::empty(), strides, 0) == 0,
{
    rest_of_a_view(idx / d as int, d, dims, s, strides, 0);
}

proof fn rest_of_a_view(idx: int, d: usize, dims: Seq<usize>, s: usize, strides: Seq<usize>, from: int)
    requires
        0 <= from <= dims.len() <= strides.len(),
    ensures
        view::unrolled(idx, seq![d] + dims, seq![s] + strides, from + 1) == view::unrolled(idx, dims, strides, from),
    decreases dims.len() - from,
{
    if from < dims.len() {
        assert((seq![d] + dims)[from + 1] == dims[from]);
        assert((seq![s] + strides)[from + 1] == strides[from]);
        rest_of_a_view(idx / (dims[from] as int), d, dims, s, strides, from + 1);
    }
}

/// In a matrix of signs row `r` starts at a byte of its own, and column `c` is bit `c % 8` of byte
/// `c / 8` of the row.
pub proof fn signs_stand_bit_by_bit(t: BinaryTensor, r: int, c: int)
    requires
        t.wf(),
        0 <= r < t.rows,
        0 <= c < t.cols,
    ensures
        ({
            let width = (t.cols + 7) / 8;
            let on = bits::bit_set(t.data@[r * width + c / 8], c % 8);
            &&& t.positive(r, c) == on
            &&& t.signs(r).len() == t.cols
            &&& worth::worth(t.signs(r)[c] as int) == (if on {
                worth::one()
            } else {
                -worth::one()
            })
            &&& t.packed_row(r).len() == width
            &&& t.packed_row(r)[c / 8] == t.data@[r * width + c / 8]
            &&& t.scales@.len() == t.rows
        }),
{
    let width = (t.cols + 7) / 8;
    signs_are_worth_one(t.positive(r, c));
    assert(0 <= r * width && (r + 1) * width <= t.rows * width && (r + 1) * width == r * width + width) by (nonlinear_arith)
        requires
            0 <= r < t.rows,
            0 <= width,
    ;
}

} // verus!
