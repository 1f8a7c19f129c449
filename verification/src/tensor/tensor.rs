//! Dense tensors over bytes.
use super::bits;
use super::shape;
use super::types::{DType, Device, TensorError};
use crate::bytes;
use crate::grid;
use crate::text;
use vstd::prelude::*;

verus! {

/// A dense row-major tensor. Floats take four little-endian bytes each; bits are packed eight
/// to a byte, lowest bit first.
pub struct Tensor {
    data: Vec<u8>,
    shape: Vec<usize>,
    dtype: DType,
    device: Device,
}

/// What a tensor holds.
pub struct TensorModel {
    pub data: Seq<u8>,
    pub shape: Seq<usize>,
    pub dtype: DType,
    pub device: Device,
}

/// Whether a shape's elements of this type can be stored at all.
pub open spec fn storable(shape: Seq<usize>, dtype: DType) -> bool {
    shape::product(shape) * dtype.width() <= usize::MAX
}

/// The elements of a tensor as floats; a float tensor stays as it is.
pub open spec fn as_floats(t: TensorModel, r: TensorModel) -> bool {
    &&& r.wf()
    &&& r.shape == t.shape
    &&& r.dtype is F32
    &&& t.dtype is F32 ==> r == t
    &&& t.dtype is BIT1 ==> r.device == Device::Cpu
    &&& r.lanes() == t.lanes()
}

/// Converting to floats a second time changes nothing, and every element keeps its value: one
/// where a bit is set and minus one where it is not.
pub proof fn floats_of_floats(t: TensorModel, once: TensorModel, twice: TensorModel)
    requires
        as_floats(t, once),
        as_floats(once, twice),
    ensures
        twice == once,
        forall|i: int| 0 <= i < t.count() ==> #[trigger] once.lane(i) == t.lane(i),
        t.dtype is BIT1 ==> forall|i: int| 0 <= i < t.count() ==> #[trigger] once.lane(i) == bits::sign_bits(
            bits::bit_set(t.data[i / 8], i % 8),
        ),
{
    assert forall|i: int| 0 <= i < t.count() implies #[trigger] once.lane(i) == t.lane(i) by {
        assert(once.lanes()[i] == t.lanes()[i]);
    }
}

impl TensorModel {
    /// The number of elements.
    pub open spec fn count(self) -> nat {
        shape::product(self.shape)
    }

    /// The storage is as long as the shape and the element type ask for.
    pub open spec fn wf(self) -> bool {
        &&& storable(self.shape, self.dtype)
        &&& self.data.len() == shape::packed_len(self.count(), self.dtype.width())
    }

    /// The bits of the float that element `i` stands for.
    pub open spec fn lane(self, i: int) -> u32 {
        match self.dtype {
            DType::F32 => bytes::le32(self.data, 4 * i) as u32,
            DType::BIT1 => bits::sign_bits(bits::bit_set(self.data[i / 8], i % 8)),
        }
    }

    /// The bits of all elements, in row-major order.
    pub open spec fn lanes(self) -> Seq<u32> {
        Seq::new(self.count(), |i: int| self.lane(i))
    }

    /// The number of bytes for each element type.
    pub proof fn sizes(self)
        requires
            self.wf(),
        ensures
            self.count() <= usize::MAX,
            self.dtype is F32 ==> self.data.len() == 4 * self.count() && 32 * self.count() <= usize::MAX,
            self.dtype is BIT1 ==> self.data.len() == (self.count() + 7) / 8,
    {
        let n = self.count();
        let w = self.dtype.width();
        assert(n <= n * w && n * 32 == 32 * n && n * 1 == n) by (nonlinear_arith)
            requires
                w >= 1,
        ;
        assert(w == 32 ==> n * w == 32 * n);
        assert(w == 1 ==> n * w == n);
    }

    /// The bits of elements `i * width` up to `(i + 1) * width`.
    pub open spec fn chunk(self, i: int, width: int) -> Seq<u32> {
        Seq::new(width as nat, |c: int| self.lane(grid::cell(i, c, width)))
    }

    /// The bits of the elements of row `r` of a matrix.
    pub open spec fn row(self, r: int) -> Seq<u32> {
        Seq::new(self.shape[1] as nat, |c: int| self.lane(grid::cell(r, c, self.shape[1] as int)))
    }

    /// The bits of the elements of column `c` of a matrix.
    pub open spec fn column(self, c: int) -> Seq<u32> {
        Seq::new(self.shape[0] as nat, |r: int| self.lane(grid::cell(r, c, self.shape[1] as int)))
    }
}

/// What an element type keeps of a float: all of it, or its sign.
pub open spec fn kept(dtype: DType, bits: u32) -> u32 {
    match dtype {
        DType::F32 => bits,
        DType::BIT1 => bits::sign_bits(bits::above_zero(bits)),
    }
}

/// A kernel over two float sequences may give `r` for `x` and `y`.
pub open spec fn gives<K: Fn(&[u32], &[u32]) -> u32>(kernel: K, x: Seq<u32>, y: Seq<u32>, r: u32) -> bool {
    exists|a: &[u32], b: &[u32]| a@ == x && b@ == y && call_ensures(kernel, (a, b), r)
}

/// `t` is the matrix `a` with rows and columns exchanged, on the CPU.
pub open spec fn transposed(a: TensorModel, t: TensorModel) -> bool {
    &&& t.wf()
    &&& t.shape == seq![a.shape[1], a.shape[0]]
    &&& t.dtype == a.dtype
    &&& t.device == Device::Cpu
    &&& forall|r: int, c: int| 0 <= r < a.shape[0] && 0 <= c < a.shape[1] ==> t.lane(
        grid::cell(c, r, a.shape[0] as int),
    ) == #[trigger] a.lane(grid::cell(r, c, a.shape[1] as int))
}

/// Transposing twice gives the elements back in their places.
pub proof fn transpose_twice(a: TensorModel, t: TensorModel, u: TensorModel)
    requires
        a.wf(),
        a.shape.len() == 2,
        transposed(a, t),
        transposed(t, u),
    ensures
        u.shape == a.shape,
        u.dtype == a.dtype,
        u.lanes() == a.lanes(),
{
    let rows = a.shape[0];
    let cols = a.shape[1];
    assert(a.shape =~= seq![rows, cols]);
    assert(u.shape =~= a.shape);
    shape::product_two(rows, cols);
    assert forall|p: int| 0 <= p < a.count() implies u.lane(p) == a.lane(p) by {
        grid::cell_onto(p, rows as int, cols as int);
        let r = p / (cols as int);
        let c = p % (cols as int);
        assert(t.lane(grid::cell(c, r, rows as int)) == a.lane(grid::cell(r, c, cols as int)));
        assert(u.lane(grid::cell(r, c, cols as int)) == t.lane(grid::cell(c, r, rows as int)));
    }
    assert(u.lanes() =~= a.lanes());
}

/// Turning floats into signs twice is turning them into signs once.
pub proof fn signs_of_signs(bits: u32)
    ensures
        kept(DType::BIT1, kept(DType::BIT1, bits)) == kept(DType::BIT1, bits),
{
}

/// Packing signs and reading them as floats gives +1 where the float was greater than zero and
/// -1 elsewhere, so floats that were +1 or -1 come back unchanged.
pub proof fn signs_keep_units(bits: u32)
    requires
        bits == bits::ONE || bits == bits::MINUS_ONE,
    ensures
        kept(DType::BIT1, bits) == bits,
{
}

/// Packs floats as little-endian bytes.
fn pack_floats(vals: &[u32]) -> (out: Vec<u8>)
    ensures
        out@.len() == 4 * vals@.len(),
        forall|i: int| 0 <= i < vals@.len() ==> bytes::le32(out@, 4 * i) == #[trigger] vals@[i],
{
    let mut out: Vec<u8> = Vec::new();
    let mut i: usize = 0;
    while i < vals.len()
        invariant
            i <= vals@.len(),
            out@.len() == 4 * i,
            forall|j: int| 0 <= j < i ==> bytes::le32(out@, 4 * j) == #[trigger] vals@[j],
        decreases vals.len() - i,
    {
        let ghost before = out@;
        bytes::push_u32(&mut out, vals[i]);
        proof {
            let b = bytes::le32_bytes(vals@[i as int]);
            bytes::le32_round_trip(vals@[i as int]);
            assert(out@ == before + b);
            assert forall|j: int| 0 <= j <= i implies bytes::le32(out@, 4 * j) == #[trigger] vals@[j] by {
                if j < i {
                    assert(bytes::le32(before, 4 * j) == vals@[j]);
                    bytes::le32_local(out@, 4 * j, before, 4 * j);
                } else {
                    bytes::le32_local(out@, 4 * j, b, 0);
                }
            }
        }
        i = i + 1;
    }
    out
}

/// Packs the signs of floats as bits, lowest bit first; bits past the end are clear.
fn pack_signs(vals: &[u32]) -> (out: Vec<u8>)
    ensures
        out@.len() == shape::packed_len(vals@.len(), 1),
        forall|p: int| 0 <= p < 8 * out@.len() ==> #[trigger] bits::bit_set(out@[p / 8], p % 8)
            == (p < vals@.len() && bits::above_zero(vals@[p])),
{
    let n: usize = vals.len();
    let packed: usize = if n % 8 == 0 { n / 8 } else { n / 8 + 1 };
    let mut out: Vec<u8> = Vec::new();
    let mut i: usize = 0;
    while i < packed
        invariant
            n == vals@.len(),
            packed == shape::packed_len(n as nat, 1),
            i <= packed,
            out@.len() == i,
            forall|p: int| 0 <= p < 8 * i ==> #[trigger] bits::bit_set(out@[p / 8], p % 8)
                == (p < n && bits::above_zero(vals@[p])),
        decreases packed - i,
    {
        let mut byte: u8 = 0;
        let mut b: usize = 0;
        proof {
            assert forall|k: int| 0 <= k < 8 implies !bits::bit_set(byte, k) by {
                bits::zero_has_no_bit(k);
            }
        }
        while b < 8
            invariant
                n == vals@.len(),
                i < packed,
                packed == shape::packed_len(n as nat, 1),
                b <= 8,
                forall|k: int| 0 <= k < 8 ==> #[trigger] bits::bit_set(byte, k)
                    == (k < b && 8 * i + k < n && bits::above_zero(vals@[8 * i + k])),
            decreases 8 - b,
        {
            let on: bool = if b < n - i * 8 { bits::is_above_zero(vals[i * 8 + b]) } else { false };
            byte = bits::with_bit(byte, b, on);
            b = b + 1;
        }
        let ghost before = out@;
        out.push(byte);
        proof {
            assert forall|p: int| 0 <= p < 8 * (i + 1) implies #[trigger] bits::bit_set(out@[p / 8], p % 8)
                == (p < n && bits::above_zero(vals@[p])) by {
                if p < 8 * i {
                    assert(bits::bit_set(before[p / 8], p % 8) == (p < n && bits::above_zero(vals@[p])));
                } else {
                    assert(p / 8 == i && p % 8 == p - 8 * i);
                    assert(bits::bit_set(byte, p % 8) == (8 * i + p % 8 < n && bits::above_zero(vals@[8 * i + p % 8])));
                }
            }
        }
        i = i + 1;
    }
    out
}

impl View for Tensor {
    type V = TensorModel;

    closed spec fn view(&self) -> TensorModel {
        TensorModel { data: self.data@, shape: self.shape@, dtype: self.dtype, device: self.device }
    }
}

impl Clone for Tensor {
    fn clone(&self) -> (r: Self)
        ensures
            r@ == self@,
    {
        let r: Tensor = Tensor {
            data: self.data.clone(),
            shape: self.shape.clone(),
            dtype: self.dtype,
            device: self.device,
        };
        assert(r.data@ =~= self.data@);
        assert(r.shape@ =~= self.shape@);
        r
    }
}

/// The same elements, as a vector of their own.
pub fn owned_shape(shape: &[usize]) -> (r: Vec<usize>)
    ensures
        r@ == shape@,
{
    let mut r: Vec<usize> = Vec::new();
    r.extend_from_slice(shape);
    assert(r@ =~= shape@);
    r
}

impl Tensor {
    /// A tensor on the CPU that keeps of each float what the element type can hold.
    pub fn from_lanes(vals: &[u32], shape: &[usize], dtype: DType) -> (t: Tensor)
        requires
            vals@.len() == shape::product(shape@),
            storable(shape@, dtype),
        ensures
            t@.wf(),
            t@.shape == shape@,
            t@.dtype == dtype,
            t@.device == Device::Cpu,
            forall|i: int| 0 <= i < vals@.len() ==> #[trigger] t@.lane(i) == kept(dtype, vals@[i]),
            dtype is BIT1 ==> forall|p: int| vals@.len() <= p < 8 * t@.data.len()
                ==> !#[trigger] bits::bit_set(t@.data[p / 8], p % 8),
    {
        let data: Vec<u8> = match dtype {
            DType::F32 => pack_floats(vals),
            DType::BIT1 => pack_signs(vals),
        };
        let t: Tensor = Tensor { data, shape: owned_shape(shape), dtype, device: Device::Cpu };
        proof {
            assert forall|i: int| 0 <= i < vals@.len() implies #[trigger] t@.lane(i) == kept(dtype, vals@[i]) by {
                if dtype is BIT1 {
                    assert(bits::bit_set(data@[i / 8], i % 8) == bits::above_zero(vals@[i]));
                } else {
                    assert(bytes::le32(data@, 4 * i) == vals@[i]);
                }
            }
        }
        t
    }

    /// A tensor on the CPU with this storage.
    pub fn from_packed(data: Vec<u8>, shape: &[usize], dtype: DType) -> (t: Tensor)
        requires
            storable(shape@, dtype),
            data@.len() == shape::packed_len(shape::product(shape@), dtype.width()),
        ensures
            t@ == (TensorModel { data: data@, shape: shape@, dtype, device: Device::Cpu }),
            t@.wf(),
    {
        Tensor { data, shape: owned_shape(shape), dtype, device: Device::Cpu }
    }

    /// Creates a tensor of the given shape and element type with all bytes zero.
    pub fn new(shape: &[usize], dtype: DType) -> (t: Tensor)
        requires
            storable(shape@, dtype),
        ensures
            t@.wf(),
            t@.shape == shape@,
            t@.dtype == dtype,
            t@.device == Device::Cpu,
            forall|i: int| 0 <= i < t@.data.len() ==> t@.data[i] == 0,
    {
        proof {
            let p = shape::product(shape@);
            assert(p <= p * dtype.width()) by (nonlinear_arith)
                requires
                    dtype.width() >= 1,
            ;
        }
        let num: usize = shape::count(shape);
        let bits: usize = num * dtype.bit_width();
        let bytes: usize = if bits % 8 == 0 { bits / 8 } else { bits / 8 + 1 };
        let data: Vec<u8> = vec![0u8; bytes];
        Tensor { data, shape: owned_shape(shape), dtype, device: Device::Cpu }
    }

    /// Creates a float tensor from the bits of its elements.
    pub fn from_slice(data: &[u32], shape: &[usize]) -> (t: Tensor)
        requires
            data@.len() == shape::product(shape@),
            storable(shape@, DType::F32),
        ensures
            t@.wf(),
            t@.shape == shape@,
            t@.dtype == DType::F32,
            t@.device == Device::Cpu,
            t@.lanes() == data@,
    {
        let t: Tensor = Tensor::from_lanes(data, shape, DType::F32);
        assert(t@.lanes() =~= data@);
        t
    }

    /// Creates a float tensor from the bits of its elements, or says that their number does not
    /// fit the shape.
    pub fn try_from_slice(data: &[u32], shape: &[usize]) -> (r: Result<Tensor, TensorError>)
        requires
            storable(shape@, DType::F32),
        ensures
            match r {
                Ok(t) => {
                    &&& data@.len() == shape::product(shape@)
                    &&& t@.wf()
                    &&& t@.shape == shape@
                    &&& t@.dtype == DType::F32
                    &&& t@.device == Device::Cpu
                    &&& t@.lanes() == data@
                },
                Err(e) => {
                    &&& data@.len() != shape::product(shape@)
                    &&& e is ShapeMismatch
                    &&& e->ShapeMismatch_0@ == "from_slice: data len "@ + text::decimal(data@.len())
                        + " != shape product "@ + text::decimal(shape::product(shape@))
                },
            },
    {
        let num: usize = shape::count(shape);
        if data.len() != num {
            let mut msg: String = text::joined("from_slice: data len ", text::decimal_text(data.len() as u64).as_str());
            msg = text::joined(msg.as_str(), " != shape product ");
            msg = text::joined(msg.as_str(), text::decimal_text(num as u64).as_str());
            return Err(TensorError::ShapeMismatch(msg));
        }
        Ok(Tensor::from_slice(data, shape))
    }

    /// Creates a zero-filled tensor that belongs to a device.
    pub fn on_device(shape: &[usize], dtype: DType, device: Device) -> (t: Tensor)
        requires
            storable(shape@, dtype),
        ensures
            t@.wf(),
            t@.shape == shape@,
            t@.dtype == dtype,
            t@.device == device,
            forall|i: int| 0 <= i < t@.data.len() ==> t@.data[i] == 0,
    {
        let mut t: Tensor = Tensor::new(shape, dtype);
        t.device = device;
        t
    }

    /// The tensor on another device.
    pub fn tagged(self, device: Device) -> (t: Tensor)
        ensures
            t@ == (TensorModel { device, ..self@ }),
    {
        let mut t: Tensor = self;
        t.device = device;
        t
    }

    /// Creates a zero-filled tensor.
    pub fn zeros(shape: &[usize], dtype: DType) -> (t: Tensor)
        requires
            storable(shape@, dtype),
        ensures
            t@.wf(),
            t@.shape == shape@,
            t@.dtype == dtype,
            t@.device == Device::Cpu,
            forall|i: int| 0 <= i < t@.data.len() ==> t@.data[i] == 0,
    {
        Tensor::new(shape, dtype)
    }

    /// Creates a tensor with every element one.
    pub fn ones(shape: &[usize], dtype: DType) -> (t: Tensor)
        requires
            storable(shape@, DType::F32),
        ensures
            t@.wf(),
            t@.shape == shape@,
            t@.dtype == dtype,
            t@.device == Device::Cpu,
            forall|i: int| 0 <= i < t@.count() ==> #[trigger] t@.lane(i) == bits::ONE,
    {
        let num: usize = shape::count(shape);
        let vals: Vec<u32> = vec![bits::ONE; num];
        Tensor::from_lanes(vals.as_slice(), shape, dtype)
    }

    /// The dimensions.
    pub fn shape(&self) -> (r: &[usize])
        ensures
            r@ == self@.shape,
    {
        self.shape.as_slice()
    }

    /// The element type.
    pub fn dtype(&self) -> (r: DType)
        ensures
            r == self@.dtype,
    {
        self.dtype
    }

    /// The device.
    pub fn device(&self) -> (r: Device)
        ensures
            r == self@.device,
    {
        self.device
    }

    /// Whether the tensor belongs to a GPU.
    pub fn is_gpu(&self) -> (r: bool)
        ensures
            r == (self@.device is Gpu),
    {
        matches!(self.device, Device::Gpu { .. })
    }

    /// The bytes.
    pub fn data(&self) -> (r: &[u8])
        ensures
            r@ == self@.data,
    {
        self.data.as_slice()
    }

    /// The bytes, to be written; their number stays as it is.
    pub fn data_mut(&mut self) -> (r: &mut [u8])
        ensures
            r@ == old(self)@.data,
            final(self)@ == (TensorModel { data: final(r)@, ..old(self)@ }),
    {
        self.data.as_mut_slice()
    }

    /// The number of bytes.
    pub fn nbytes(&self) -> (r: usize)
        ensures
            r == self@.data.len(),
    {
        self.data.len()
    }

    /// The number of dimensions.
    pub fn ndim(&self) -> (r: usize)
        ensures
            r == self@.shape.len(),
    {
        self.shape.len()
    }

    /// The number of elements.
    pub fn num_elements(&self) -> (r: usize)
        requires
            self@.wf(),
        ensures
            r == self@.count(),
    {
        proof {
            self@.sizes();
        }
        shape::count(self.shape.as_slice())
    }

    /// The same elements under another shape with as many elements.
    pub fn reshape(&self, new_shape: &[usize]) -> (t: Tensor)
        requires
            self@.wf(),
            shape::product(new_shape@) == self@.count(),
        ensures
            t@ == (TensorModel { shape: new_shape@, ..self@ }),
            t@.wf(),
            t@.lanes() == self@.lanes(),
    {
        let mut t: Tensor = self.clone();
        t.shape = owned_shape(new_shape);
        assert(t@.lanes() =~= self@.lanes());
        t
    }

    /// Takes the tensor over under another shape with as many elements.
    pub fn reshape_owned(self, new_shape: &[usize]) -> (t: Tensor)
        requires
            self@.wf(),
            shape::product(new_shape@) == self@.count(),
        ensures
            t@ == (TensorModel { shape: new_shape@, ..self@ }),
            t@.wf(),
            t@.lanes() == self@.lanes(),
    {
        let mut t: Tensor = self;
        t.shape = owned_shape(new_shape);
        assert(t@.lanes() =~= self@.lanes());
        t
    }

    /// The same elements under another shape, or the error that their numbers differ.
    pub fn try_reshape(&self, new_shape: &[usize]) -> (r: Result<Tensor, TensorError>)
        requires
            self@.wf(),
            shape::product(new_shape@) <= usize::MAX,
        ensures
            match r {
                Ok(t) => {
                    &&& shape::product(new_shape@) == self@.count()
                    &&& t@ == (TensorModel { shape: new_shape@, ..self@ })
                    &&& t@.wf()
                    &&& t@.lanes() == self@.lanes()
                },
                Err(e) => {
                    &&& shape::product(new_shape@) != self@.count()
                    &&& e is ShapeMismatch
                    &&& e->ShapeMismatch_0@ == "reshape: new shape product "@
                        + text::decimal(shape::product(new_shape@)) + " != current "@
                        + text::decimal(self@.count())
                },
            },
    {
        let new_num: usize = shape::count(new_shape);
        let num: usize = self.num_elements();
        if new_num != num {
            let mut msg: String = text::joined("reshape: new shape product ", text::decimal_text(new_num as u64).as_str());
            msg = text::joined(msg.as_str(), " != current ");
            msg = text::joined(msg.as_str(), text::decimal_text(num as u64).as_str());
            return Err(TensorError::ShapeMismatch(msg));
        }
        Ok(self.reshape(new_shape))
    }

    /// All elements in one dimension.
    pub fn flatten(&self) -> (t: Tensor)
        requires
            self@.wf(),
        ensures
            t@ == (TensorModel { shape: seq![self@.count() as usize], ..self@ }),
            t@.wf(),
            t@.lanes() == self@.lanes(),
    {
        let n: usize = self.num_elements();
        let shape: Vec<usize> = vec![n];
        proof {
            assert(shape@ =~= seq![n]);
            shape::product_one(n);
        }
        self.reshape(shape.as_slice())
    }

    /// The bits of element `idx`.
    pub fn get_flat_f32(&self, idx: usize) -> (r: u32)
        requires
            self@.wf(),
            idx < self@.count(),
        ensures
            r == self@.lane(idx as int),
    {
        proof {
            self@.sizes();
        }
        match self.dtype {
            DType::F32 => bytes::u32_at(self.data.as_slice(), idx * 4),
            DType::BIT1 => bits::sign_value(bits::test_bit(self.data[idx / 8], idx % 8)),
        }
    }

    /// Stores a float, given by its bits, as element `idx`.
    pub fn set_flat_f32(&mut self, idx: usize, val: u32)
        requires
            old(self)@.wf(),
            idx < old(self)@.count(),
        ensures
            final(self)@.wf(),
            final(self)@.shape == old(self)@.shape,
            final(self)@.dtype == old(self)@.dtype,
            final(self)@.device == old(self)@.device,
            final(self)@.lanes() == old(self)@.lanes().update(idx as int, kept(old(self)@.dtype, val)),
    {
        proof {
            self@.sizes();
        }
        match self.dtype {
            DType::F32 => {
                let ghost before = self.data@;
                let base: usize = idx * 4;
                self.data[base] = (val % 0x100) as u8;
                self.data[base + 1] = (val / 0x100 % 0x100) as u8;
                self.data[base + 2] = (val / 0x1_0000 % 0x100) as u8;
                self.data[base + 3] = (val / 0x100_0000) as u8;
                proof {
                    let n = self@.count();
                    assert forall|i: int| 0 <= i < n implies #[trigger] self@.lane(i) == (if i == idx { val } else { old(self)@.lane(i) }) by {
                        if i == idx {
                            bytes::le32_round_trip(val);
                            bytes::le32_local(self.data@, 4 * i, bytes::le32_bytes(val), 0);
                        } else {
                            bytes::le32_local(self.data@, 4 * i, before, 4 * i);
                        }
                    }
                }
            },
            DType::BIT1 => {
                let ghost before = self.data@;
                let byte: u8 = bits::with_bit(self.data[idx / 8], idx % 8, bits::is_above_zero(val));
                self.data[idx / 8] = byte;
                proof {
                    let n = self@.count();
                    assert forall|i: int| 0 <= i < n implies #[trigger] self@.lane(i) == (if i == idx {
                        kept(DType::BIT1, val)
                    } else {
                        old(self)@.lane(i)
                    }) by {
                        if i / 8 == idx / 8 {
                            assert(i == 8 * (i / 8) + i % 8);
                            assert(bits::bit_set(byte, i % 8) == (if i % 8 == idx % 8 {
                                bits::above_zero(val)
                            } else {
                                bits::bit_set(before[(idx / 8) as int], i % 8)
                            }));
                        }
                    }
                }
            },
        }
        assert(self@.lanes() =~= old(self)@.lanes().update(idx as int, kept(old(self)@.dtype, val)));
    }

    /// The bits of the element at an index.
    pub fn get_f32(&self, indices: &[usize]) -> (r: u32)
        requires
            self@.wf(),
            shape::inside(self@.shape, indices@),
        ensures
            r == self@.lane(shape::position(self@.shape, indices@)),
    {
        proof {
            self@.sizes();
            shape::position_inside(self@.shape, indices@);
        }
        let idx: usize = shape::flat_index(self.shape.as_slice(), indices);
        self.get_flat_f32(idx)
    }

    /// Stores a float, given by its bits, at an index.
    pub fn set_f32(&mut self, indices: &[usize], val: u32)
        requires
            old(self)@.wf(),
            shape::inside(old(self)@.shape, indices@),
        ensures
            final(self)@.wf(),
            final(self)@.shape == old(self)@.shape,
            final(self)@.dtype == old(self)@.dtype,
            final(self)@.device == old(self)@.device,
            final(self)@.lanes() == old(self)@.lanes().update(
                shape::position(old(self)@.shape, indices@),
                kept(old(self)@.dtype, val),
            ),
    {
        proof {
            self@.sizes();
            shape::position_inside(self@.shape, indices@);
        }
        let idx: usize = shape::flat_index(self.shape.as_slice(), indices);
        self.set_flat_f32(idx, val);
    }

    /// The bits of all elements.
    pub fn all_lanes(&self) -> (r: Vec<u32>)
        requires
            self@.wf(),
        ensures
            r@ == self@.lanes(),
    {
        let n: usize = self.num_elements();
        let mut out: Vec<u32> = Vec::new();
        let mut i: usize = 0;
        while i < n
            invariant
                self@.wf(),
                n == self@.count(),
                i <= n,
                out@ == self@.lanes().take(i as int),
            decreases n - i,
        {
            out.push(self.get_flat_f32(i));
            i = i + 1;
            assert(out@ =~= self@.lanes().take(i as int));
        }
        assert(self@.lanes().take(n as int) =~= self@.lanes());
        out
    }

    /// The bits of all elements of a float tensor.
    pub fn as_f32_slice(&self) -> (r: Vec<u32>)
        requires
            self@.wf(),
            self@.dtype is F32,
        ensures
            r@ == self@.lanes(),
    {
        self.all_lanes()
    }

    /// The elements as another element type.
    pub fn to_dtype(&self, target: DType) -> (t: Tensor)
        requires
            self@.wf(),
            storable(self@.shape, DType::F32),
        ensures
            t@.wf(),
            t@.shape == self@.shape,
            t@.dtype == target,
            t@.device == (if target is F32 && self@.dtype is F32 { self@.device } else { Device::Cpu }),
            forall|i: int| 0 <= i < self@.count() ==> #[trigger] t@.lane(i) == kept(target, self@.lane(i)),
    {
        match target {
            DType::F32 => {
                let t: Tensor = self.to_f32();
                proof {
                    assert forall|i: int| 0 <= i < self@.count() implies #[trigger] t@.lane(i) == self@.lane(i) by {
                        assert(t@.lanes()[i] == self@.lanes()[i]);
                    }
                }
                t
            },
            DType::BIT1 => self.to_bit1(),
        }
    }

    /// The elements as floats; a float tensor is copied as it is.
    pub fn to_f32(&self) -> (t: Tensor)
        requires
            self@.wf(),
            storable(self@.shape, DType::F32),
        ensures
            as_floats(self@, t@),
    {
        if let DType::F32 = self.dtype {
            return self.clone();
        }
        let vals: Vec<u32> = self.all_lanes();
        let t: Tensor = Tensor::from_lanes(vals.as_slice(), self.shape.as_slice(), DType::F32);
        assert(t@.lanes() =~= self@.lanes());
        t
    }

    /// The signs of the elements as bits: set where the element is greater than zero.
    pub fn to_bit1(&self) -> (t: Tensor)
        requires
            self@.wf(),
        ensures
            t@.wf(),
            t@.shape == self@.shape,
            t@.dtype is BIT1,
            t@.device == Device::Cpu,
            forall|i: int| 0 <= i < self@.count() ==> #[trigger] t@.lane(i) == kept(DType::BIT1, self@.lane(i)),
            forall|p: int| self@.count() <= p < 8 * t@.data.len() ==> !#[trigger] bits::bit_set(t@.data[p / 8], p % 8),
    {
        proof {
            self@.sizes();
        }
        let vals: Vec<u32> = self.all_lanes();
        Tensor::from_lanes(vals.as_slice(), self.shape.as_slice(), DType::BIT1)
    }

    /// The matrix with rows and columns exchanged.
    pub fn transpose(&self) -> (t: Tensor)
        requires
            self@.wf(),
            self@.shape.len() == 2,
        ensures
            transposed(self@, t@),
    {
        let rows: usize = self.shape[0];
        let cols: usize = self.shape[1];
        proof {
            self@.sizes();
            assert(self@.shape =~= seq![rows, cols]);
            shape::product_two(rows, cols);
            shape::product_two(cols, rows);
            assert(rows * cols == cols * rows) by (nonlinear_arith);
        }
        let mut vals: Vec<u32> = Vec::new();
        let mut c: usize = 0;
        while c < cols
            invariant
                self@.wf(),
                self@.count() == rows * cols,
                rows * cols <= usize::MAX,
                c <= cols,
                vals@.len() == c * rows,
                forall|i: int, j: int| 0 <= i < rows && 0 <= j < c ==> vals@[grid::cell(j, i, rows as int)]
                    == #[trigger] self@.lane(grid::cell(i, j, cols as int)),
            decreases cols - c,
        {
            let mut r: usize = 0;
            while r < rows
                invariant
                    self@.wf(),
                    self@.count() == rows * cols,
                    rows * cols <= usize::MAX,
                    c < cols,
                    r <= rows,
                    vals@.len() == c * rows + r,
                    forall|i: int, j: int| 0 <= i < rows && 0 <= j < c ==> vals@[grid::cell(j, i, rows as int)]
                        == #[trigger] self@.lane(grid::cell(i, j, cols as int)),
                    forall|i: int| 0 <= i < r ==> vals@[grid::cell(c as int, i, rows as int)]
                        == #[trigger] self@.lane(grid::cell(i, c as int, cols as int)),
                decreases rows - r,
            {
                proof {
                    grid::cell_inside(r as int, c as int, rows as int, cols as int);
                }
                let ghost before = vals@;
                vals.push(self.get_flat_f32(r * cols + c));
                proof {
                    assert forall|i: int, j: int| 0 <= i < rows && 0 <= j < c implies vals@[grid::cell(j, i, rows as int)]
                        == #[trigger] self@.lane(grid::cell(i, j, cols as int)) by {
                        grid::cell_inside(j, i, c as int, rows as int);
                        assert(before[grid::cell(j, i, rows as int)] == self@.lane(grid::cell(i, j, cols as int)));
                    }
                }
                r = r + 1;
            }
            proof {
                grid::cell_inside(c as int, 0, c + 1, rows + 1);
                assert((c + 1) * rows == c * rows + rows) by (nonlinear_arith);
                assert forall|i: int, j: int| 0 <= i < rows && 0 <= j < c + 1 implies vals@[grid::cell(j, i, rows as int)]
                    == #[trigger] self@.lane(grid::cell(i, j, cols as int)) by {
                    if j == c {
                        assert(vals@[grid::cell(c as int, i, rows as int)] == self@.lane(grid::cell(i, c as int, cols as int)));
                    }
                }
            }
            c = c + 1;
        }
        let shape: Vec<usize> = vec![cols, rows];
        assert(shape@ =~= seq![cols, rows]);
        let t: Tensor = Tensor::from_lanes(vals.as_slice(), shape.as_slice(), self.dtype);
        proof {
            assert forall|r: int, c: int| 0 <= r < rows && 0 <= c < cols implies t@.lane(grid::cell(c, r, rows as int))
                == #[trigger] self@.lane(grid::cell(r, c, cols as int)) by {
                grid::cell_inside(c, r, cols as int, rows as int);
                assert(vals@[grid::cell(c, r, rows as int)] == self@.lane(grid::cell(r, c, cols as int)));
            }
        }
        t
    }

    /// The transposed matrix, or the error that the tensor is no matrix.
    pub fn try_transpose(&self) -> (r: Result<Tensor, TensorError>)
        requires
            self@.wf(),
        ensures
            match r {
                Ok(t) => {
                    &&& self@.shape.len() == 2
                    &&& transposed(self@, t@)
                },
                Err(e) => {
                    &&& self@.shape.len() != 2
                    &&& e is ShapeMismatch
                    &&& e->ShapeMismatch_0@ == "transpose: expected 2d tensor, got "@
                        + text::decimal(self@.shape.len()) + "d"@
                },
            },
    {
        if self.shape.len() != 2 {
            let mut msg: String = text::joined(
                "transpose: expected 2d tensor, got ",
                text::decimal_text(self.shape.len() as u64).as_str(),
            );
            msg = text::joined(msg.as_str(), "d");
            return Err(TensorError::ShapeMismatch(msg));
        }
        Ok(self.transpose())
    }
}

} // verus!
