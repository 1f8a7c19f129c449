//! Matrices of +1 and -1 with one scale per row.
use super::bits;
use super::shape;
use super::simd;
use super::tensor;
use super::tensor::Tensor;
use super::types::{DType, Device};
use crate::grid;
use vstd::prelude::*;

verus! {

/// A matrix whose elements are plus or minus the scale of their row. A row takes whole bytes,
/// eight elements to a byte, lowest bit first; the scales are given by their bits.
pub struct BinaryTensor {
    pub data: Vec<u8>,
    pub rows: usize,
    pub cols: usize,
    pub scales: Vec<u32>,
}

/// Bytes of a row with this many columns.
pub open spec fn row_bytes(cols: int) -> int {
    (cols + 7) / 8
}

/// The bits of a float without its sign.
pub open spec fn magnitude(bits: u32) -> u32 {
    if bits >= 0x8000_0000 {
        (bits - 0x8000_0000) as u32
    } else {
        bits
    }
}

/// The bits of a float with the other sign.
pub open spec fn negated(bits: u32) -> u32 {
    if bits >= 0x8000_0000 {
        (bits - 0x8000_0000) as u32
    } else {
        (bits + 0x8000_0000) as u32
    }
}

/// The greatest magnitude among the first `n` floats; what is no number does not count.
pub open spec fn greatest(row: Seq<u32>, n: int) -> u32
    decreases n,
{
    if n <= 0 {
        0
    } else {
        let rest = greatest(row, n - 1);
        let m = magnitude(row[n - 1]);
        if rest < m <= bits::INFINITY {
            m
        } else {
            rest
        }
    }
}

/// The scale of a row: its greatest magnitude, or one where that is zero.
pub open spec fn row_scale(row: Seq<u32>) -> u32 {
    let m = greatest(row, row.len() as int);
    if m == 0 {
        bits::ONE
    } else {
        m
    }
}

/// `on` says whether a quotient of `x` by `scale` that the function may give is positive.
pub open spec fn sign_by<Q: Fn(u32, u32) -> u32>(quotient: Q, x: u32, scale: u32, on: bool) -> bool {
    exists|q: u32| #[trigger] call_ensures(quotient, (x, scale), q) && on == bits::above_zero(q)
}

/// `r` is an inner product of `x` and `y` that the kernel may give, times the scale.
pub open spec fn scaled_by<K: Fn(&[u32], &[u32]) -> u32, S: Fn(u32, u32) -> u32>(
    inner: K,
    times: S,
    x: Seq<u32>,
    y: Seq<u32>,
    scale: u32,
    r: u32,
) -> bool {
    exists|d: u32| tensor::gives(inner, x, y, d) && #[trigger] call_ensures(times, (d, scale), r)
}

impl BinaryTensor {
    /// The storage fits the dimensions.
    pub open spec fn wf(self) -> bool {
        &&& self.data@.len() == self.rows * row_bytes(self.cols as int)
        &&& self.scales@.len() == self.rows
    }

    /// Whether the element of row `r`, column `c` is positive.
    pub open spec fn positive(self, r: int, c: int) -> bool {
        bits::bit_set(self.data@[r * row_bytes(self.cols as int) + c / 8], c % 8)
    }

    /// The elements of row `r` as floats +1 and -1.
    pub open spec fn signs(self, r: int) -> Seq<u32> {
        Seq::new(self.cols as nat, |c: int| bits::sign_bits(self.positive(r, c)))
    }

    /// The packed bytes of row `r`.
    pub open spec fn packed_row(self, r: int) -> Seq<u8> {
        self.data@.subrange(r * row_bytes(self.cols as int), (r + 1) * row_bytes(self.cols as int))
    }

    /// Quantizes a matrix: each row keeps its greatest magnitude as scale, and each element the
    /// sign of its quotient by that scale. `quotient` gives the bits of an element divided by a
    /// scale.
    pub fn from_tensor<Q: Fn(u32, u32) -> u32>(weight: &Tensor, quotient: Q) -> (r: Self)
        requires
            weight@.wf(),
            weight@.shape.len() == 2,
            forall|x: u32, y: u32| call_requires(quotient, (x, y)),
        ensures
            r.wf(),
            r.rows == weight@.shape[0],
            r.cols == weight@.shape[1],
            forall|i: int| 0 <= i < r.rows ==> #[trigger] r.scales@[i] == row_scale(weight@.row(i)),
            forall|i: int, j: int| 0 <= i < r.rows && 0 <= j < r.cols ==> sign_by(quotient, weight@.row(i)[j], row_scale(weight@.row(i)), #[trigger] r.positive(i, j)),
    {
        let rows: usize = weight.shape()[0];
        let cols: usize = weight.shape()[1];
        proof {
            assert(weight@.shape =~= seq![rows, cols]);
            shape::product_two(rows, cols);
            weight@.sizes();
        }
        let bytes_per_row: usize = if cols % 8 == 0 { cols / 8 } else { cols / 8 + 1 };
        let mut data: Vec<u8> = Vec::new();
        let mut scales: Vec<u32> = Vec::new();
        let mut row: usize = 0;
        while row < rows
            invariant
                weight@.wf(),
                weight@.shape == seq![rows, cols],
                weight@.count() == rows * cols,
                rows * cols <= usize::MAX,
                forall|x: u32, y: u32| call_requires(quotient, (x, y)),
                bytes_per_row == row_bytes(cols as int),
                row <= rows,
                data@.len() == row * bytes_per_row,
                scales@.len() == row,
                forall|i: int| 0 <= i < row ==> #[trigger] scales@[i] == row_scale(weight@.row(i)),
                forall|i: int, j: int| 0 <= i < row && 0 <= j < cols ==> sign_by(quotient, weight@.row(i)[j], row_scale(weight@.row(i)), #[trigger] bits::bit_set(data@[i * row_bytes(cols as int) + j / 8], j % 8)),
            decreases rows - row,
        {
            let vals: Vec<u32> = row_lanes(weight, row, rows, cols);
            let s: u32 = scale_of(vals.as_slice());
            let mut marks: Vec<u32> = Vec::new();
            let mut j: usize = 0;
            while j < cols
                invariant
                    forall|x: u32, y: u32| call_requires(quotient, (x, y)),
                    vals@.len() == cols,
                    j <= cols,
                    marks@.len() == j,
                    forall|k: int| 0 <= k < j ==> call_ensures(quotient, (vals@[k], s), #[trigger] marks@[k]),
                decreases cols - j,
            {
                let q: u32 = quotient(vals[j], s);
                marks.push(q);
                j = j + 1;
            }
            let packed: Tensor = {
                let dims: Vec<usize> = vec![cols];
                proof {
                    assert(dims@ =~= seq![cols]);
                    shape::product_one(cols);
                }
                Tensor::from_lanes(marks.as_slice(), dims.as_slice(), DType::BIT1)
            };
            let ghost before = data@;
            data.extend_from_slice(packed.data());
            scales.push(s);
            proof {
                packed@.sizes();
                assert(packed@.data.len() == bytes_per_row);
                assert(data@ =~= before + packed@.data);
                assert((row + 1) * bytes_per_row == row * bytes_per_row + bytes_per_row) by (nonlinear_arith);
                assert forall|i: int, j: int| 0 <= i < row + 1 && 0 <= j < cols implies sign_by(quotient, weight@.row(i)[j], row_scale(weight@.row(i)), #[trigger] bits::bit_set(data@[i * row_bytes(cols as int) + j / 8], j % 8)) by {
                    if i < row {
                        grid::cell_inside(i, j / 8, row as int, bytes_per_row as int);
                        assert(data@[i * row_bytes(cols as int) + j / 8] == before[i * row_bytes(cols as int) + j / 8]);
                        assert(bits::bit_set(before[i * row_bytes(cols as int) + j / 8], j % 8) == bits::bit_set(data@[i * row_bytes(cols as int) + j / 8], j % 8));
                    } else {
                        assert(packed@.lane(j) == tensor::kept(DType::BIT1, marks@[j]));
                        assert(data@[i * row_bytes(cols as int) + j / 8] == packed@.data[j / 8]);
                        assert(call_ensures(quotient, (vals@[j], s), marks@[j]));
                        assert(sign_by(quotient, weight@.row(i)[j], s, bits::above_zero(marks@[j])));
                    }
                }
            }
            row = row + 1;
        }
        let r: BinaryTensor = BinaryTensor { data, rows, cols, scales };
        assert forall|i: int, j: int| 0 <= i < rows && 0 <= j < cols implies sign_by(quotient, weight@.row(i)[j], row_scale(weight@.row(i)), #[trigger] r.positive(i, j)) by {
            assert(bits::bit_set(data@[i * row_bytes(cols as int) + j / 8], j % 8) == r.positive(i, j));
        }
        r
    }

    /// Bytes of one row.
    pub fn bytes_per_row(&self) -> (r: usize)
        ensures
            r == row_bytes(self.cols as int),
    {
        if self.cols % 8 == 0 {
            self.cols / 8
        } else {
            self.cols / 8 + 1
        }
    }

    /// Bytes of all rows.
    pub fn nbytes(&self) -> (r: usize)
        ensures
            r == self.data@.len(),
    {
        self.data.len()
    }

    /// The matrix of floats: each element is plus or minus the scale of its row.
    pub fn dequantize(&self) -> (t: Tensor)
        requires
            self.wf(),
            tensor::storable(seq![self.rows, self.cols], DType::F32),
        ensures
            t@.wf(),
            t@.shape == seq![self.rows, self.cols],
            t@.dtype is F32,
            t@.device == Device::Cpu,
            forall|r: int, c: int| 0 <= r < self.rows && 0 <= c < self.cols ==> #[trigger] t@.lane(
                grid::cell(r, c, self.cols as int),
            ) == (if self.positive(r, c) { self.scales@[r] } else { negated(self.scales@[r]) }),
    {
        let rows: usize = self.rows;
        let cols: usize = self.cols;
        let bpr: usize = self.bytes_per_row();
        proof {
            shape::product_two(rows, cols);
            assert(rows * cols * 32 == (rows * cols) * 32);
        }
        let mut out: Vec<u32> = Vec::new();
        let mut r: usize = 0;
        while r < rows
            invariant
                self.wf(),
                rows == self.rows,
                cols == self.cols,
                bpr == row_bytes(cols as int),
                rows * cols <= usize::MAX,
                r <= rows,
                out@.len() == r * cols,
                forall|i: int, j: int| 0 <= i < r && 0 <= j < cols ==> #[trigger] out@[grid::cell(i, j, cols as int)]
                    == (if self.positive(i, j) { self.scales@[i] } else { negated(self.scales@[i]) }),
            decreases rows - r,
        {
            let scale: u32 = self.scales[r];
            let opposite: u32 = if scale >= 0x8000_0000 { scale - 0x8000_0000 } else { scale + 0x8000_0000 };
            let mut c: usize = 0;
            while c < cols
                invariant
                    self.wf(),
                    rows == self.rows,
                    cols == self.cols,
                    bpr == row_bytes(cols as int),
                    rows * cols <= usize::MAX,
                    r < rows,
                    c <= cols,
                    scale == self.scales@[r as int],
                    opposite == negated(scale),
                    out@.len() == r * cols + c,
                    forall|i: int, j: int| 0 <= i < r && 0 <= j < cols ==> #[trigger] out@[grid::cell(i, j, cols as int)]
                        == (if self.positive(i, j) { self.scales@[i] } else { negated(self.scales@[i]) }),
                    forall|j: int| 0 <= j < c ==> #[trigger] out@[grid::cell(r as int, j, cols as int)]
                        == (if self.positive(r as int, j) { scale } else { opposite }),
                decreases cols - c,
            {
                proof {
                    grid::cell_inside(r as int, (c / 8) as int, rows as int, bpr as int);
                    assert(self.data@.len() == self.data.len());
                }
                let ghost before = out@;
                let on: bool = bits::test_bit(self.data[r * bpr + c / 8], c % 8);
                out.push(if on { scale } else { opposite });
                proof {
                    assert forall|i: int, j: int| 0 <= i < r && 0 <= j < cols implies #[trigger] out@[grid::cell(i, j, cols as int)]
                        == (if self.positive(i, j) { self.scales@[i] } else { negated(self.scales@[i]) }) by {
                        grid::cell_inside(i, j, r as int, cols as int);
                        assert(out@[grid::cell(i, j, cols as int)] == before[grid::cell(i, j, cols as int)]);
                    }
                    assert forall|j: int| 0 <= j < c + 1 implies #[trigger] out@[grid::cell(r as int, j, cols as int)]
                        == (if self.positive(r as int, j) { scale } else { opposite }) by {
                        if j < c {
                            assert(out@[grid::cell(r as int, j, cols as int)] == before[grid::cell(r as int, j, cols as int)]);
                        }
                    }
                }
                c = c + 1;
            }
            assert((r + 1) * cols == r * cols + cols) by (nonlinear_arith);
            r = r + 1;
        }
        let dims: Vec<usize> = vec![rows, cols];
        assert(dims@ =~= seq![rows, cols]);
        let t: Tensor = Tensor::from_lanes(out.as_slice(), dims.as_slice(), DType::F32);
        assert forall|i: int, j: int| 0 <= i < rows && 0 <= j < cols implies #[trigger] t@.lane(grid::cell(i, j, cols as int))
            == (if self.positive(i, j) { self.scales@[i] } else { negated(self.scales@[i]) }) by {
            grid::cell_inside(i, j, rows as int, cols as int);
            assert(t@.lane(grid::cell(i, j, cols as int)) == out@[grid::cell(i, j, cols as int)]);
        }
        t
    }

    /// The inner products of packed bit rows with the rows of this matrix, before their scales:
    /// entry `b * rows + r` belongs to input row `b` and matrix row `r`. Twice the number of
    /// agreeing bits less the number of columns is the inner product of the signs.
    pub fn matmul_binary(&self, input_binary: &[u8], input_n_bits: usize, batch: usize) -> (out: Vec<i64>)
        requires
            self.wf(),
            input_n_bits == self.cols,
            self.cols <= 0xffff_ffff,
            input_binary@.len() == batch * row_bytes(self.cols as int),
        ensures
            out@.len() == batch * self.rows,
            forall|b: int, r: int| 0 <= b < batch && 0 <= r < self.rows ==> #[trigger] out@[grid::cell(b, r, self.rows as int)]
                == simd::unit_dot(
                input_binary@.subrange(b * row_bytes(self.cols as int), (b + 1) * row_bytes(self.cols as int)),
                self.packed_row(r),
                self.cols as int,
            ),
    {
        let k: usize = self.cols;
        let bpr: usize = self.bytes_per_row();
        let mut out: Vec<i64> = Vec::new();
        let mut b: usize = 0;
        while b < batch
            invariant
                self.wf(),
                k == self.cols,
                k <= 0xffff_ffff,
                bpr == row_bytes(k as int),
                input_binary@.len() == batch * bpr,
                b <= batch,
                out@.len() == b * self.rows,
                forall|i: int, r: int| 0 <= i < b && 0 <= r < self.rows ==> #[trigger] out@[grid::cell(i, r, self.rows as int)]
                    == simd::unit_dot(
                    input_binary@.subrange(i * bpr, (i + 1) * bpr),
                    self.packed_row(r),
                    k as int,
                ),
            decreases batch - b,
        {
            proof {
                grid::cell_inside(b as int, 0, batch as int, bpr + 1);
                assert(b * bpr + bpr == (b + 1) * bpr && (b + 1) * bpr <= batch * bpr && 0 <= b * bpr) by (nonlinear_arith)
                    requires
                        b < batch,
                ;
                assert(input_binary.len() == input_binary@.len());
            }
            let in_bits: &[u8] = vstd::slice::slice_subrange(input_binary, b * bpr, b * bpr + bpr);
            let mut r: usize = 0;
            while r < self.rows
                invariant
                    self.wf(),
                    k == self.cols,
                    k <= 0xffff_ffff,
                    bpr == row_bytes(k as int),
                    input_binary@.len() == batch * bpr,
                    b < batch,
                    in_bits@ == input_binary@.subrange(b * bpr, (b + 1) * bpr),
                    in_bits@.len() == bpr,
                    r <= self.rows,
                    out@.len() == b * self.rows + r,
                    forall|i: int, r: int| 0 <= i < b && 0 <= r < self.rows ==> #[trigger] out@[grid::cell(i, r, self.rows as int)]
                        == simd::unit_dot(
                        input_binary@.subrange(i * bpr, (i + 1) * bpr),
                        self.packed_row(r),
                        k as int,
                    ),
                    forall|j: int| 0 <= j < r ==> #[trigger] out@[grid::cell(b as int, j, self.rows as int)]
                        == simd::unit_dot(in_bits@, self.packed_row(j), k as int),
                decreases self.rows - r,
            {
                proof {
                    assert(r * bpr + bpr == (r + 1) * bpr && (r + 1) * bpr <= self.rows * bpr && 0 <= r * bpr) by (nonlinear_arith)
                        requires
                            r < self.rows,
                    ;
                    assert(self.data.len() == self.data@.len());
                }
                let weight_row: &[u8] = vstd::slice::slice_subrange(self.data.as_slice(), r * bpr, r * bpr + bpr);
                assert(weight_row@ =~= self.packed_row(r as int));
                let mut popcounts: Vec<u32> = vec![0u32; bpr];
                simd::xnor_popcount_1bit(in_bits, weight_row, popcounts.as_mut_slice(), k);
                let pop: i64 = sum_counts(popcounts.as_slice(), in_bits, weight_row, k);
                let ghost before = out@;
                out.push(2 * pop - k as i64);
                proof {
                    simd::agreeing_bits_give_inner_product(in_bits@, weight_row@, popcounts@, k as int);
                    assert forall|i: int, j: int| 0 <= i < b && 0 <= j < self.rows implies #[trigger] out@[grid::cell(i, j, self.rows as int)]
                        == simd::unit_dot(input_binary@.subrange(i * bpr, (i + 1) * bpr), self.packed_row(j), k as int) by {
                        grid::cell_inside(i, j, b as int, self.rows as int);
                        assert(out@[grid::cell(i, j, self.rows as int)] == before[grid::cell(i, j, self.rows as int)]);
                    }
                    assert forall|j: int| 0 <= j < r + 1 implies #[trigger] out@[grid::cell(b as int, j, self.rows as int)]
                        == simd::unit_dot(in_bits@, self.packed_row(j), k as int) by {
                        if j < r {
                            assert(out@[grid::cell(b as int, j, self.rows as int)] == before[grid::cell(b as int, j, self.rows as int)]);
                        }
                    }
                }
                r = r + 1;
            }
            assert((b + 1) * self.rows == b * self.rows + self.rows) by (nonlinear_arith);
            b = b + 1;
        }
        out
    }

    /// The product of float rows with the transposed matrix: entry (b, r) is the given inner
    /// product of input row `b` with the signs of matrix row `r`, times the scale of row `r`.
    pub fn matmul<K: Fn(&[u32], &[u32]) -> u32, S: Fn(u32, u32) -> u32>(&self, input: &Tensor, inner: K, times: S) -> (t: Tensor)
        requires
            self.wf(),
            input@.wf(),
            input@.shape.len() == 2,
            input@.shape[1] == self.cols,
            tensor::storable(seq![input@.shape[0], self.rows], DType::F32),
            forall|x: &[u32], y: &[u32]| x@.len() == y@.len() ==> call_requires(inner, (x, y)),
            forall|x: u32, y: u32| call_requires(times, (x, y)),
        ensures
            t@.wf(),
            t@.shape == seq![input@.shape[0], self.rows],
            t@.dtype is F32,
            t@.device == Device::Cpu,
            forall|b: int, r: int| 0 <= b < input@.shape[0] && 0 <= r < self.rows ==> scaled_by(inner, times, input@.row(b), self.signs(r), self.scales@[r], #[trigger] t@.lane(grid::cell(b, r, self.rows as int))),
    {
        let batch: usize = input.shape()[0];
        let k: usize = self.cols;
        proof {
            assert(input@.shape =~= seq![batch, k]);
            shape::product_two(batch, k);
            shape::product_two(batch, self.rows);
            input@.sizes();
        }
        let mut out: Vec<u32> = Vec::new();
        let mut b: usize = 0;
        while b < batch
            invariant
                self.wf(),
                k == self.cols,
                input@.wf(),
                input@.shape == seq![batch, k],
                forall|x: &[u32], y: &[u32]| x@.len() == y@.len() ==> call_requires(inner, (x, y)),
                forall|x: u32, y: u32| call_requires(times, (x, y)),
                b <= batch,
                out@.len() == b * self.rows,
                forall|i: int, r: int| 0 <= i < b && 0 <= r < self.rows ==> scaled_by(inner, times, input@.row(i), self.signs(r), self.scales@[r], #[trigger] out@[grid::cell(i, r, self.rows as int)]),
            decreases batch - b,
        {
            let row: Vec<u32> = row_lanes(input, b, batch, k);
            let mut r: usize = 0;
            while r < self.rows
                invariant
                    self.wf(),
                    k == self.cols,
                    input@.wf(),
                    input@.shape == seq![batch, k],
                    forall|x: &[u32], y: &[u32]| x@.len() == y@.len() ==> call_requires(inner, (x, y)),
                    forall|x: u32, y: u32| call_requires(times, (x, y)),
                    b < batch,
                    row@ == input@.row(b as int),
                    row@.len() == k,
                    r <= self.rows,
                    out@.len() == b * self.rows + r,
                    forall|i: int, r: int| 0 <= i < b && 0 <= r < self.rows ==> scaled_by(inner, times, input@.row(i), self.signs(r), self.scales@[r], #[trigger] out@[grid::cell(i, r, self.rows as int)]),
                    forall|j: int| 0 <= j < r ==> scaled_by(inner, times, input@.row(b as int), self.signs(j), self.scales@[j], #[trigger] out@[grid::cell(b as int, j, self.rows as int)]),
                decreases self.rows - r,
            {
                let signs: Vec<u32> = self.sign_row(r);
                let d: u32 = inner(row.as_slice(), signs.as_slice());
                assert(tensor::gives(inner, input@.row(b as int), self.signs(r as int), d));
                let ghost before = out@;
                let v: u32 = times(d, self.scales[r]);
                assert(scaled_by(inner, times, input@.row(b as int), self.signs(r as int), self.scales@[r as int], v));
                out.push(v);
                proof {
                    assert forall|i: int, j: int| 0 <= i < b && 0 <= j < self.rows implies scaled_by(inner, times, input@.row(i), self.signs(j), self.scales@[j], #[trigger] out@[grid::cell(i, j, self.rows as int)]) by {
                        grid::cell_inside(i, j, b as int, self.rows as int);
                        assert(out@[grid::cell(i, j, self.rows as int)] == before[grid::cell(i, j, self.rows as int)]);
                    }
                    assert forall|j: int| 0 <= j < r + 1 implies scaled_by(inner, times, input@.row(b as int), self.signs(j), self.scales@[j], #[trigger] out@[grid::cell(b as int, j, self.rows as int)]) by {
                        if j < r {
                            assert(out@[grid::cell(b as int, j, self.rows as int)] == before[grid::cell(b as int, j, self.rows as int)]);
                        }
                    }
                }
                r = r + 1;
            }
            assert((b + 1) * self.rows == b * self.rows + self.rows) by (nonlinear_arith);
            b = b + 1;
        }
        let dims: Vec<usize> = vec![batch, self.rows];
        assert(dims@ =~= seq![batch, self.rows]);
        let t: Tensor = Tensor::from_lanes(out.as_slice(), dims.as_slice(), DType::F32);
        assert forall|i: int, j: int| 0 <= i < batch && 0 <= j < self.rows implies scaled_by(inner, times, input@.row(i), self.signs(j), self.scales@[j], #[trigger] t@.lane(grid::cell(i, j, self.rows as int))) by {
            grid::cell_inside(i, j, batch as int, self.rows as int);
            assert(t@.lane(grid::cell(i, j, self.rows as int)) == out@[grid::cell(i, j, self.rows as int)]);
        }
        t
    }

    fn sign_row(&self, r: usize) -> (out: Vec<u32>)
        requires
            self.wf(),
            r < self.rows,
        ensures
            out@ == self.signs(r as int),
    {
        let bpr: usize = self.bytes_per_row();
        let mut out: Vec<u32> = Vec::new();
        let mut c: usize = 0;
        while c < self.cols
            invariant
                self.wf(),
                r < self.rows,
                bpr == row_bytes(self.cols as int),
                c <= self.cols,
                out@ == self.signs(r as int).take(c as int),
            decreases self.cols - c,
        {
            proof {
                grid::cell_inside(r as int, (c / 8) as int, self.rows as int, bpr as int);
                assert(self.data@.len() == self.data.len());
            }
            out.push(bits::sign_value(bits::test_bit(self.data[r * bpr + c / 8], c % 8)));
            c = c + 1;
            assert(out@ =~= self.signs(r as int).take(c as int));
        }
        assert(out@ =~= self.signs(r as int));
        out
    }
}

/// The sum of the counts of agreeing bits.
fn sum_counts(counts: &[u32], a: &[u8], b: &[u8], n_bits: usize) -> (r: i64)
    requires
        n_bits <= 0xffff_ffff,
        a@.len() == shape::packed_len(n_bits as nat, 1),
        b@.len() == a@.len(),
        counts@.len() == a@.len(),
        forall|i: int| 0 <= i < a@.len() ==> #[trigger] counts@[i] == simd::agreeing(a@[i], b@[i], simd::used_bits(n_bits as int, i)),
    ensures
        r == simd::total(counts@),
        0 <= r <= n_bits + 8,
{
    let mut sum: i64 = 0;
    let mut i: usize = 0;
    assert(counts@.take(0) =~= Seq::<u32>::empty());
    while i < counts.len()
        invariant
            n_bits <= 0xffff_ffff,
            counts@.len() == shape::packed_len(n_bits as nat, 1),
            a@.len() == counts@.len(),
            b@.len() == counts@.len(),
            forall|i: int| 0 <= i < a@.len() ==> #[trigger] counts@[i] == simd::agreeing(a@[i], b@[i], simd::used_bits(n_bits as int, i)),
            i <= counts@.len(),
            sum == simd::total(counts@.take(i as int)),
            0 <= sum <= 8 * i,
        decreases counts.len() - i,
    {
        proof {
            assert(counts@.take(i + 1).drop_last() =~= counts@.take(i as int));
            agreeing_bound(a@[i as int], b@[i as int], simd::used_bits(n_bits as int, i as int));
        }
        sum = sum + counts[i] as i64;
        i = i + 1;
    }
    assert(counts@.take(i as int) =~= counts@);
    sum
}

proof fn agreeing_bound(a: u8, b: u8, n: int)
    requires
        0 <= n,
    ensures
        simd::agreeing(a, b, n) <= n,
    decreases n,
{
    if n > 0 {
        agreeing_bound(a, b, n - 1);
    }
}

/// The elements of a row of a matrix.
pub fn row_lanes(t: &Tensor, at: usize, rows: usize, cols: usize) -> (r: Vec<u32>)
    requires
        t@.wf(),
        t@.shape == seq![rows, cols],
        at < rows,
    ensures
        r@ == t@.row(at as int),
{
    proof {
        shape::product_two(rows, cols);
        t@.sizes();
    }
    let mut out: Vec<u32> = Vec::new();
    let mut c: usize = 0;
    while c < cols
        invariant
            t@.wf(),
            t@.shape == seq![rows, cols],
            t@.count() == rows * cols,
            t@.count() <= usize::MAX,
            at < rows,
            c <= cols,
            out@ == t@.row(at as int).take(c as int),
        decreases cols - c,
    {
        proof {
            grid::cell_inside(at as int, c as int, rows as int, cols as int);
        }
        out.push(t.get_flat_f32(at * cols + c));
        c = c + 1;
        assert(out@ =~= t@.row(at as int).take(c as int));
    }
    assert(out@ =~= t@.row(at as int));
    out
}

fn scale_of(row: &[u32]) -> (r: u32)
    ensures
        r == row_scale(row@),
{
    let mut m: u32 = 0;
    let mut i: usize = 0;
    while i < row.len()
        invariant
            i <= row@.len(),
            m == greatest(row@, i as int),
        decreases row.len() - i,
    {
        let x: u32 = row[i];
        let v: u32 = if x >= 0x8000_0000 { x - 0x8000_0000 } else { x };
        if m < v && v <= bits::INFINITY {
            m = v;
        }
        i = i + 1;
    }
    if m == 0 {
        bits::ONE
    } else {
        m
    }
}

} // verus!
