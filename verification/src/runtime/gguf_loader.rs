//! Tensors and configurations out of GGUF files.
use super::assign;
use super::config::{Activation, Architecture, ModelConfig, NormType, Real, TEN_THOUSAND, TEN_TO_MINUS_FIVE};
use super::gguf;
use super::gguf::{GgmlType, GgufError, GgufFault, GgufHeader, GgufInfoModel, GgufModel, GgufTensorInfo, MetaModel, MetadataValue};
use super::half;
use super::loading;
use super::model::Model;
use super::network::Network;
use super::weights;
use super::weights::{Slot, WeightTarget};
use crate::bytes;
use crate::tensor::shape;
use crate::tensor::tensor;
use crate::tensor::tensor::{Tensor, TensorModel};
use crate::tensor::types::{DType, Device};
use crate::text;
use vstd::arithmetic::power2;
use vstd::prelude::*;

verus! {

impl MetaModel {
    /// The float that the value is, or that is nearest to it.
    pub open spec fn real_value(self) -> Option<Real> {
        match self {
            MetaModel::Float32(v) => Some(Real::Single(v)),
            MetaModel::Float64(v) => Some(Real::Double(v)),
            MetaModel::Uint32(v) => Some(Real::Single(half::int_bits(v as int) as u32)),
            MetaModel::Int32(v) => Some(Real::Single(half::int_bits(v as int) as u32)),
            MetaModel::Uint64(v) => Some(Real::Single(half::int_bits(v as int) as u32)),
            MetaModel::Int64(v) => Some(Real::Single(half::int_bits(v as int) as u32)),
            _ => None,
        }
    }
}

impl MetadataValue {
    /// The float that the value is, or that is nearest to it.
    pub fn as_f32(&self) -> (r: Option<Real>)
        ensures
            r == self@.real_value(),
    {
        match self {
            MetadataValue::Float32(v) => Some(Real::Single(*v)),
            MetadataValue::Float64(v) => Some(Real::Double(*v)),
            MetadataValue::Uint32(v) => Some(Real::Single(half::unsigned_float(*v as u64))),
            MetadataValue::Int32(v) => Some(Real::Single(half::int_float(*v as i64))),
            MetadataValue::Uint64(v) => Some(Real::Single(half::unsigned_float(*v))),
            MetadataValue::Int64(v) => Some(Real::Single(half::int_float(*v))),
            _ => None,
        }
    }
}

/// A place moved up to a boundary.
pub open spec fn aligned(offset: u64, alignment: u64) -> u64 {
    ((offset + alignment - 1) as u64) & !((alignment - 1) as u64)
}

/// A place can be moved up to a boundary.
pub open spec fn alignable(offset: int, alignment: u64) -> bool {
    alignment > 0 && offset + alignment - 1 <= u64::MAX
}

/// Moves a place up to a boundary.
pub fn align_offset(offset: u64, alignment: u64) -> (r: u64)
    requires
        alignable(offset as int, alignment),
    ensures
        r == aligned(offset, alignment),
{
    (offset + (alignment - 1)) & !(alignment - 1)
}

/// With a power of two, the place moves to the nearest multiple that is not before it.
pub proof fn aligned_is_next_multiple(offset: u64, k: u64)
    requires
        k < 64,
        alignable(offset as int, power2::pow2(k as nat) as u64),
    ensures
        aligned(offset, power2::pow2(k as nat) as u64) % power2::pow2(k as nat) as u64 == 0,
        offset <= aligned(offset, power2::pow2(k as nat) as u64) < offset + power2::pow2(k as nat),
{
    vstd::bits::lemma_u64_pow2_no_overflow(k as nat);
    let a = power2::pow2(k as nat) as u64;
    vstd::bits::lemma_u64_shl_is_mul(1, k);
    assert(1u64 << k == a);
    let m = (a - 1) as u64;
    let x = (offset + m) as u64;
    let r = x & !m;
    assert(x & !m <= x && x - (x & !m) <= m) by (bit_vector);
    assert((x & !m) >> k << k == (x & !m)) by (bit_vector)
        requires
            k < 64,
            m + 1 == 1u64 << k,
    ;
    let q = r >> k;
    vstd::bits::lemma_u64_shr_is_div(r, k);
    assert(q * a <= r) by {
        vstd::arithmetic::div_mod::lemma_fundamental_div_mod(r as int, a as int);
        vstd::arithmetic::div_mod::lemma_mod_bound(r as int, a as int);
        assert(q * a == a * (r as int / a as int)) by (nonlinear_arith)
            requires
                q == r as int / a as int,
        ;
    }
    vstd::bits::lemma_u64_shl_is_mul(q, k);
    assert(r == q * a);
    vstd::arithmetic::div_mod::lemma_mod_multiples_basic(q as int, a as int);
}

/// What is said of a tensor of that name; the first one counts.
pub open spec fn find_info(tensors: Seq<GgufInfoModel>, name: Seq<char>) -> Option<GgufInfoModel>
    decreases tensors.len(),
{
    if tensors.len() == 0 {
        None
    } else if tensors[0].name == name {
        Some(tensors[0])
    } else {
        find_info(tensors.drop_first(), name)
    }
}

/// The dimensions as sizes.
pub open spec fn dims_of(info: GgufInfoModel) -> Seq<usize> {
    Seq::new(info.dimensions.len(), |i: int| info.dimensions[i] as usize)
}

/// Tensors of this type can be read.
pub open spec fn has_reader(t: GgmlType) -> bool {
    t is F32 || t is F16 || t is BF16 || t is I8 || t is Q8_0 || t is Q4_0
}

/// The bytes that so many elements take.
pub open spec fn bytes_for(t: GgmlType, n: int) -> int {
    match t {
        GgmlType::F32 => 4 * n,
        GgmlType::F16 | GgmlType::BF16 => 2 * n,
        GgmlType::I8 => n,
        GgmlType::Q8_0 => (n + 15) / 16 * 17,
        GgmlType::Q4_0 => (n + 31) / 32 * 18,
        _ => 0,
    }
}

/// A tensor of a type that can be read has sizes for dimensions, and its bytes lie in the file.
pub open spec fn readable(info: GgufInfoModel, len: int, data_offset: int) -> bool {
    has_reader(info.ggml_type) ==> {
        &&& forall|i: int| 0 <= i < info.dimensions.len() ==> #[trigger] info.dimensions[i] <= usize::MAX
        &&& tensor::storable(dims_of(info), DType::F32)
        &&& data_offset + info.offset + bytes_for(info.ggml_type, shape::product(dims_of(info)) as int) <= len
    }
}

/// A byte as a signed number.
pub open spec fn byte_int(b: u8) -> int {
    gguf::signed(b as int, 0x100)
}

/// Half a byte less eight: the lower half for even places.
pub open spec fn nibble(b: u8, i: int) -> int {
    (if i % 2 == 0 {
        b as int % 16
    } else {
        b as int / 16
    }) - 8
}

/// An element of a tensor whose bytes start at a place. Types of eight and of four bits come in
/// blocks with a scale in front; `times` multiplies.
pub open spec fn element<M: Fn(u32, u32) -> u32>(t: GgmlType, data: Seq<u8>, start: int, i: int, times: M, v: u32) -> bool {
    match t {
        GgmlType::F32 => v == bytes::le32(data, start + 4 * i),
        GgmlType::F16 => v == half::half_exact(bytes::le16(data, start + 2 * i) as u16),
        GgmlType::BF16 => v == bytes::le16(data, start + 2 * i) * 0x1_0000,
        GgmlType::I8 => v == half::int_bits(byte_int(data[start + i])),
        GgmlType::Q8_0 => {
            let base = start + i / 16 * 17;
            call_ensures(
                times,
                (half::int_bits(byte_int(data[base + 1 + i % 16])) as u32, half::int_bits(byte_int(data[base])) as u32),
                v,
            )
        },
        GgmlType::Q4_0 => {
            let base = start + i / 32 * 18;
            call_ensures(
                times,
                (
                    half::int_bits(nibble(data[base + 2 + i % 32 / 2], i)) as u32,
                    half::half_exact(bytes::le16(data, base) as u16) as u32,
                ),
                v,
            )
        },
        _ => false,
    }
}

/// The tensor that is said to lie at a place.
pub open spec fn read_as<M: Fn(u32, u32) -> u32>(info: GgufInfoModel, data: Seq<u8>, data_offset: int, times: M, t: TensorModel) -> bool {
    &&& t.wf()
    &&& t.dtype is F32
    &&& t.device == Device::Cpu
    &&& t.shape == dims_of(info)
    &&& forall|i: int|
        0 <= i < t.count() ==> element(info.ggml_type, data, data_offset + info.offset, i, times, #[trigger] t.lane(i))
}

/// A byte as a signed number.
fn byte_float(b: u8) -> (r: u32)
    ensures
        r == half::int_bits(byte_int(b)),
{
    half::int_float(if b >= 0x80 { b as i64 - 0x100 } else { b as i64 })
}

/// Half a byte less eight, as a float.
fn nibble_float(b: u8, even: bool) -> (r: u32)
    ensures
        r == half::int_bits(nibble(b, if even { 0 } else { 1 })),
{
    let v: u8 = if even { b % 16 } else { b / 16 };
    half::int_float(v as i64 - 8)
}

/// Reads an element.
fn read_element<M: Fn(u32, u32) -> u32>(kind: GgmlType, data: &[u8], start: usize, n: usize, i: usize, times: &M) -> (v: u32)
    requires
        has_reader(kind),
        i < n,
        start + bytes_for(kind, n as int) <= data@.len(),
        forall|a: u32, b: u32| #[trigger] call_requires(*times, (a, b)),
    ensures
        element(kind, data@, start as int, i as int, *times, v),
{
    assert(data.len() == data@.len());
    match kind {
        GgmlType::F32 => bytes::u32_at(data, start + 4 * i),
        GgmlType::F16 => half::exact_half(bytes::u16_at(data, start + 2 * i)),
        GgmlType::BF16 => half::from_upper(bytes::u16_at(data, start + 2 * i)),
        GgmlType::I8 => byte_float(data[start + i]),
        GgmlType::Q8_0 => {
            assert(i / 16 * 17 + 17 <= (n + 15) / 16 * 17);
            let base: usize = start + i / 16 * 17;
            let scale: u32 = byte_float(data[base]);
            times(byte_float(data[base + 1 + i % 16]), scale)
        },
        GgmlType::Q4_0 => {
            assert(i / 32 * 18 + 18 <= (n + 31) / 32 * 18);
            let base: usize = start + i / 32 * 18;
            let scale: u32 = half::exact_half(bytes::u16_at(data, base));
            times(nibble_float(data[base + 2 + i % 32 / 2], i % 2 == 0), scale)
        },
        _ => 0,
    }
}

/// A GGUF file whose bytes are at hand.
#[derive(Debug)]
pub struct GgufLoader<'a> {
    pub header: GgufHeader,
    pub data: &'a [u8],
    pub data_offset: u64,
}

/// What loading a tensor gives.
pub open spec fn gives<M: Fn(u32, u32) -> u32>(
    h: GgufModel,
    data: Seq<u8>,
    data_offset: int,
    name: Seq<char>,
    times: M,
    r: Result<Tensor, GgufError>,
) -> bool {
    match find_info(h.tensors, name) {
        None => r matches Err(e) && e@ == GgufFault::MissingField(name),
        Some(info) => if has_reader(info.ggml_type) {
            r matches Ok(t) && read_as(info, data, data_offset, times, t@)
        } else {
            r matches Err(e) && e@ == GgufFault::InvalidGgmlType(info.ggml_type.code())
        },
    }
}

/// A tensor of that name can be read, if its type can.
pub open spec fn gives_readable(h: GgufModel, len: int, data_offset: int, name: Seq<char>) -> bool {
    find_info(h.tensors, name) matches Some(info) ==> readable(info, len, data_offset)
}

impl<'a> GgufLoader<'a> {
    /// Takes the bytes of a file; the data start at the first boundary after the header.
    pub fn load(data: &'a [u8]) -> (r: Result<GgufLoader<'a>, GgufError>)
        requires
            gguf::header_at(data@) matches Ok((h, end)) ==> alignable(end, h.alignment),
        ensures
            match r {
                Ok(l) => {
                    &&& gguf::header_at(data@) matches Ok((h, end)) && l.header@ == h && l.data_offset == aligned(end as u64, h.alignment)
                    &&& l.data@ == data@
                },
                Err(e) => gguf::header_at(data@) == Err::<(GgufModel, int), GgufFault>(e@),
            },
    {
        match GgufHeader::read(data) {
            Ok((header, end)) => {
                let data_offset: u64 = align_offset(end as u64, header.alignment);
                Ok(GgufLoader { header, data, data_offset })
            },
            Err(e) => Err(e),
        }
    }

    /// Takes the bytes of a file, where the end of its header can be moved up to a boundary.
    pub fn load_checked(data: &'a [u8]) -> (r: Option<Result<GgufLoader<'a>, GgufError>>)
        ensures
            match r {
                Some(Ok(l)) => {
                    &&& gguf::header_at(data@) matches Ok((h, end)) && alignable(end, h.alignment) && l.header@ == h && l.data_offset
                        == aligned(end as u64, h.alignment)
                    &&& l.data@ == data@
                },
                Some(Err(e)) => gguf::header_at(data@) == Err::<(GgufModel, int), GgufFault>(e@),
                None => gguf::header_at(data@) matches Ok((h, end)) && !alignable(end, h.alignment),
            },
    {
        match GgufHeader::read(data) {
            Ok((header, end)) => {
                let alignment: u64 = header.alignment;
                if alignment == 0 || alignment - 1 > u64::MAX - end as u64 {
                    None
                } else {
                    Some(GgufLoader::load(data))
                }
            },
            Err(e) => Some(Err(e)),
        }
    }

    /// The header.
    pub fn header(&self) -> (r: &GgufHeader)
        ensures
            *r == self.header,
    {
        &self.header
    }

    /// The named values.
    pub fn metadata(&self) -> (r: &Vec<(String, MetadataValue)>)
        ensures
            gguf::entries(r@) == self.header@.metadata,
    {
        &self.header.metadata
    }

    /// The text under a key.
    pub fn metadata_str(&self, key: &str) -> (r: Option<&str>)
        ensures
            match (r, gguf::last_entry(self.header@.metadata, key@)) {
                (Some(s), Some(v)) => v.text() == Some(s@),
                (Some(_), None) => false,
                (None, Some(v)) => v.text() is None,
                (None, None) => true,
            },
    {
        match gguf::look_up(&self.header.metadata, key) {
            Some(v) => v.as_str(),
            None => None,
        }
    }

    /// The integer under a key.
    pub fn metadata_u64(&self, key: &str) -> (r: Option<u64>)
        ensures
            r == (match gguf::last_entry(self.header@.metadata, key@) {
                Some(v) => v.natural(),
                None => None,
            }),
    {
        match gguf::look_up(&self.header.metadata, key) {
            Some(v) => v.as_u64(),
            None => None,
        }
    }

    /// The float under a key.
    pub fn metadata_f32(&self, key: &str) -> (r: Option<Real>)
        ensures
            r == (match gguf::last_entry(self.header@.metadata, key@) {
                Some(v) => v.real_value(),
                None => None,
            }),
    {
        match gguf::look_up(&self.header.metadata, key) {
            Some(v) => v.as_f32(),
            None => None,
        }
    }

    /// The names of the tensors.
    pub fn tensor_names(&self) -> (r: Vec<&str>)
        ensures
            r@.len() == self.header@.tensors.len(),
            forall|i: int| 0 <= i < r@.len() ==> #[trigger] r@[i]@ == self.header@.tensors[i].name,
    {
        let mut out: Vec<&str> = Vec::new();
        let n: usize = self.header.tensor_infos.len();
        let mut i: usize = 0;
        while i < n
            invariant
                n == self.header.tensor_infos@.len(),
                i <= n,
                out@.len() == i,
                forall|j: int| 0 <= j < i ==> #[trigger] out@[j]@ == self.header@.tensors[j].name,
            decreases n - i,
        {
            out.push(self.header.tensor_infos[i].name.as_str());
            i = i + 1;
        }
        out
    }

    /// What is said of the tensors.
    pub fn tensor_infos(&self) -> (r: &[GgufTensorInfo])
        ensures
            gguf::tensor_models(r@) == self.header@.tensors,
    {
        self.header.tensor_infos.as_slice()
    }

    /// What is said of a tensor.
    pub fn tensor_info(&self, name: &str) -> (r: Option<&GgufTensorInfo>)
        ensures
            match r {
                Some(info) => find_info(self.header@.tensors, name@) == Some(info@),
                None => find_info(self.header@.tensors, name@) is None,
            },
    {
        let ghost model = self.header@.tensors;
        let n: usize = self.header.tensor_infos.len();
        let mut i: usize = 0;
        assert(model.skip(0) =~= model);
        while i < n
            invariant
                n == self.header.tensor_infos@.len(),
                model == gguf::tensor_models(self.header.tensor_infos@),
                i <= n,
                find_info(model, name@) == find_info(model.skip(i as int), name@),
            decreases n - i,
        {
            assert(model.skip(i as int).drop_first() =~= model.skip(i + 1));
            assert(model.skip(i as int)[0] == model[i as int]);
            if text::same(&self.header.tensor_infos[i].name, name) {
                return Some(&self.header.tensor_infos[i]);
            }
            i = i + 1;
        }
        None
    }

    /// Whether there is a tensor of that name.
    pub fn has_tensor(&self, name: &str) -> (r: bool)
        ensures
            r == find_info(self.header@.tensors, name@) is Some,
    {
        self.tensor_info(name).is_some()
    }

    /// Loads a tensor; everything becomes floats.
    pub fn load_tensor<M: Fn(u32, u32) -> u32>(&self, name: &str, times: &M) -> (r: Result<Tensor, GgufError>)
        requires
            gives_readable(self.header@, self.data@.len() as int, self.data_offset as int, name@),
            forall|a: u32, b: u32| #[trigger] call_requires(*times, (a, b)),
        ensures
            gives(self.header@, self.data@, self.data_offset as int, name@, *times, r),
    {
        let info: &GgufTensorInfo = match self.tensor_info(name) {
            Some(info) => info,
            None => {
                return Err(GgufError::MissingField(name.to_owned()));
            },
        };
        if !test_reader(info.ggml_type) {
            return Err(GgufError::InvalidGgmlType(info.ggml_type.to_u32()));
        }
        let dims: Vec<usize> = sizes(info);
        let n: usize = shape::count(dims.as_slice());
        let kind: GgmlType = info.ggml_type;
        assert(self.data.len() == self.data@.len());
        assert(bytes_for(kind, n as int) >= 0);
        let start: usize = (self.data_offset + info.offset) as usize;
        let mut lanes: Vec<u32> = Vec::new();
        let mut i: usize = 0;
        while i < n
            invariant
                has_reader(kind),
                start + bytes_for(kind, n as int) <= self.data@.len(),
                forall|a: u32, b: u32| #[trigger] call_requires(*times, (a, b)),
                i <= n,
                lanes@.len() == i,
                forall|j: int| 0 <= j < i ==> element(kind, self.data@, start as int, j, *times, #[trigger] lanes@[j]),
            decreases n - i,
        {
            lanes.push(read_element(kind, self.data, start, n, i, times));
            i = i + 1;
        }
        let t: Tensor = Tensor::from_slice(lanes.as_slice(), dims.as_slice());
        proof {
            assert forall|j: int| 0 <= j < t@.count() implies element(kind, self.data@, start as int, j, *times, #[trigger] t@.lane(j)) by {
                assert(t@.lanes()[j] == lanes@[j]);
            }
        }
        Ok(t)
    }

    /// Whether a tensor can be read, if its type can.
    pub fn test_readable(&self, name: &str) -> (r: bool)
        ensures
            r == gives_readable(self.header@, self.data@.len() as int, self.data_offset as int, name@),
    {
        match self.tensor_info(name) {
            None => true,
            Some(info) => test_info(info, self.data.len(), self.data_offset),
        }
    }
}

/// Whether tensors of this type can be read.
fn test_reader(t: GgmlType) -> (r: bool)
    ensures
        r == has_reader(t),
{
    matches!(t, GgmlType::F32 | GgmlType::F16 | GgmlType::BF16 | GgmlType::I8 | GgmlType::Q8_0 | GgmlType::Q4_0)
}

/// The dimensions as sizes.
fn sizes(info: &GgufTensorInfo) -> (r: Vec<usize>)
    requires
        forall|i: int| 0 <= i < info@.dimensions.len() ==> #[trigger] info@.dimensions[i] <= usize::MAX,
    ensures
        r@ == dims_of(info@),
{
    let mut out: Vec<usize> = Vec::new();
    let n: usize = info.dimensions.len();
    let mut i: usize = 0;
    while i < n
        invariant
            n == info.dimensions@.len(),
            i <= n,
            out@.len() == i,
            forall|j: int| 0 <= j < i ==> #[trigger] out@[j] == info.dimensions@[j] as usize,
        decreases n - i,
    {
        out.push(info.dimensions[i] as usize);
        i = i + 1;
    }
    assert(out@ =~= dims_of(info@));
    out
}

/// Whether what is said of a tensor fits a file of that length.
fn test_info(info: &GgufTensorInfo, len: usize, data_offset: u64) -> (r: bool)
    ensures
        r == readable(info@, len as int, data_offset as int),
{
    if !test_reader(info.ggml_type) {
        return true;
    }
    let n: usize = info.dimensions.len();
    let mut i: usize = 0;
    while i < n
        invariant
            n == info.dimensions@.len(),
            i <= n,
            has_reader(info.ggml_type),
            forall|j: int| 0 <= j < i ==> #[trigger] info@.dimensions[j] <= usize::MAX,
        decreases n - i,
    {
        if info.dimensions[i] > usize::MAX as u64 {
            assert(info@.dimensions[i as int] > usize::MAX);
            return false;
        }
        i = i + 1;
    }
    let dims: Vec<usize> = sizes(info);
    let count: usize = match shape::checked_count(dims.as_slice()) {
        Some(count) => count,
        None => {
            return false;
        },
    };
    if count > usize::MAX / 32 {
        return false;
    }
    let wide: u128 = count as u128;
    let need: u128 = match info.ggml_type {
        GgmlType::F32 => 4 * wide,
        GgmlType::F16 | GgmlType::BF16 => 2 * wide,
        GgmlType::I8 => wide,
        GgmlType::Q8_0 => (wide + 15) / 16 * 17,
        GgmlType::Q4_0 => (wide + 31) / 32 * 18,
        _ => 0,
    };
    data_offset as u128 + info.offset as u128 + need <= len as u128
}

/// The value under a key, or else under the key that starts with the name of the architecture.
pub open spec fn either(entries: Seq<(Seq<char>, MetaModel)>, arch: Seq<char>, key: Seq<char>) -> Option<MetaModel> {
    match gguf::last_entry(entries, key) {
        Some(v) => Some(v),
        None => gguf::last_entry(entries, arch + "."@ + key),
    }
}

/// The size under a key.
pub open spec fn size_under(entries: Seq<(Seq<char>, MetaModel)>, arch: Seq<char>, key: Seq<char>) -> Option<usize> {
    match either(entries, arch, key) {
        Some(v) => match v.natural() {
            Some(n) => Some(n as usize),
            None => None,
        },
        None => None,
    }
}

/// The float under a key, or the default.
pub open spec fn real_under(entries: Seq<(Seq<char>, MetaModel)>, arch: Seq<char>, key: Seq<char>, default: u32) -> Real {
    match either(entries, arch, key) {
        Some(v) => match v.real_value() {
            Some(x) => x,
            None => Real::Single(default),
        },
        None => Real::Single(default),
    }
}

/// The truth value under a key.
pub open spec fn truth_under(entries: Seq<(Seq<char>, MetaModel)>, arch: Seq<char>, key: Seq<char>) -> bool {
    match either(entries, arch, key) {
        Some(v) => v.truth() == Some(true),
        None => false,
    }
}

/// A size, or the default where there is none.
pub open spec fn or_size(n: Option<usize>, default: usize) -> usize {
    match n {
        Some(n) => n,
        None => default,
    }
}

/// The number of tokens that are listed.
pub open spec fn listed_tokens(entries: Seq<(Seq<char>, MetaModel)>) -> int {
    match gguf::last_entry(entries, "tokenizer.ggml.tokens"@) {
        Some(v) => match v.list() {
            Some(list) => list.len() as int,
            None => 32000,
        },
        None => 32000,
    }
}

/// The name of the architecture.
pub open spec fn architecture_name(entries: Seq<(Seq<char>, MetaModel)>) -> Option<Seq<char>> {
    match gguf::last_entry(entries, "general.architecture"@) {
        Some(v) => v.text(),
        None => None,
    }
}

/// The values that a configuration cannot do without are there.
pub open spec fn has_config(entries: Seq<(Seq<char>, MetaModel)>) -> bool {
    match architecture_name(entries) {
        Some(arch) => {
            &&& size_under(entries, arch, "embedding_length"@) is Some
            &&& size_under(entries, arch, "block_count"@) is Some
            &&& size_under(entries, arch, "attention.head_count"@) is Some
        },
        None => false,
    }
}

/// The configuration that named values describe.
pub open spec fn described(entries: Seq<(Seq<char>, MetaModel)>, c: ModelConfig) -> bool {
    let arch = architecture_name(entries).unwrap();
    let hidden = size_under(entries, arch, "embedding_length"@).unwrap();
    let heads = size_under(entries, arch, "attention.head_count"@).unwrap();
    &&& c.vocab_size == listed_tokens(entries)
    &&& c.hidden_size == hidden
    &&& c.num_layers == size_under(entries, arch, "block_count"@).unwrap()
    &&& c.num_heads == heads
    &&& c.num_kv_heads == Some(or_size(size_under(entries, arch, "attention.head_count_kv"@), heads))
    &&& c.intermediate_size == or_size(size_under(entries, arch, "feed_forward_length"@), hidden.wrapping_mul(4))
    &&& c.norm_eps == real_under(entries, arch, "attention.layer_norm_rms_epsilon"@, TEN_TO_MINUS_FIVE)
    &&& c.max_seq_len == or_size(size_under(entries, arch, "context_length"@), 2048)
    &&& c.rope_theta == real_under(entries, arch, "rope.freq_base"@, TEN_THOUSAND)
    &&& c.tie_word_embeddings == truth_under(entries, arch, "tie_word_embeddings"@)
    &&& family_defaults(c, arch)
}

/// What a file does not say follows from the family: its activation, its norms and whether it
/// rotates positions in. Nothing else is switched on.
pub open spec fn family_defaults(c: ModelConfig, arch: Seq<char>) -> bool {
    &&& c.architecture@ == super::config::type_family(arch, true)
    &&& c.activation == c.architecture@.activation()
    &&& c.norm_type == (if c.architecture@.classic() {
        NormType::LayerNorm
    } else {
        NormType::RmsNorm
    })
    &&& c.use_rope == !c.architecture@.classic()
    &&& !c.sub_ln
    &&& c.rope_scaling is None
    &&& c.position_embeddings is None
    &&& !c.qk_norm
    &&& c.sliding_window is None
    &&& c.head_dim is None
    &&& super::config::plain_extras(c)
}

impl<'a> GgufLoader<'a> {
    /// Finds the value under a key, or else under the key of the architecture.
    fn find_either(&self, arch: &str, key: &str) -> (r: Option<&MetadataValue>)
        ensures
            match r {
                Some(v) => either(self.header@.metadata, arch@, key@) == Some(v.view()),
                None => either(self.header@.metadata, arch@, key@) is None,
            },
    {
        match gguf::look_up(&self.header.metadata, key) {
            Some(v) => Some(v),
            None => {
                let dotted: String = text::joined(arch, ".");
                let full: String = text::joined(&dotted, key);
                gguf::look_up(&self.header.metadata, &full)
            },
        }
    }

    /// Finds the size under a key.
    fn find_size(&self, arch: &str, key: &str) -> (r: Option<usize>)
        ensures
            r == size_under(self.header@.metadata, arch@, key@),
    {
        match self.find_either(arch, key) {
            Some(v) => match v.as_u64() {
                Some(n) => Some(n as usize),
                None => None,
            },
            None => None,
        }
    }

    /// Finds the float under a key.
    fn find_real(&self, arch: &str, key: &str, default: u32) -> (r: Real)
        ensures
            r == real_under(self.header@.metadata, arch@, key@, default),
    {
        match self.find_either(arch, key) {
            Some(v) => match v.as_f32() {
                Some(x) => x,
                None => Real::Single(default),
            },
            None => Real::Single(default),
        }
    }

    /// Finds the truth value under a key.
    fn find_truth(&self, arch: &str, key: &str) -> (r: bool)
        ensures
            r == truth_under(self.header@.metadata, arch@, key@),
    {
        match self.find_either(arch, key) {
            Some(v) => match v.as_bool() {
                Some(b) => b,
                None => false,
            },
            None => false,
        }
    }

    /// The configuration that the file describes, if it has the values for one.
    pub fn config_from_metadata(&self) -> (r: Option<ModelConfig>)
        ensures
            match r {
                Some(c) => has_config(self.header@.metadata) && described(self.header@.metadata, c),
                None => !has_config(self.header@.metadata),
            },
    {
        let arch: &str = match self.metadata_str("general.architecture") {
            Some(s) => s,
            None => {
                return None;
            },
        };
        let hidden_size: usize = match self.find_size(arch, "embedding_length") {
            Some(n) => n,
            None => {
                return None;
            },
        };
        let num_layers: usize = match self.find_size(arch, "block_count") {
            Some(n) => n,
            None => {
                return None;
            },
        };
        let num_heads: usize = match self.find_size(arch, "attention.head_count") {
            Some(n) => n,
            None => {
                return None;
            },
        };
        let num_kv_heads: usize = match self.find_size(arch, "attention.head_count_kv") {
            Some(n) => n,
            None => num_heads,
        };
        let intermediate_size: usize = match self.find_size(arch, "feed_forward_length") {
            Some(n) => n,
            None => hidden_size.wrapping_mul(4),
        };
        let max_seq_len: usize = match self.find_size(arch, "context_length") {
            Some(n) => n,
            None => 2048,
        };
        let vocab_size: usize = match gguf::look_up(&self.header.metadata, "tokenizer.ggml.tokens") {
            Some(v) => match v.as_array() {
                Some(list) => list.len(),
                None => 32000,
            },
            None => 32000,
        };
        let architecture: Architecture = Architecture::from_gguf(arch);
        let activation: Activation = architecture.default_activation();
        let norm_type: NormType = if architecture.uses_rms_norm() { NormType::RmsNorm } else { NormType::LayerNorm };
        let use_rope: bool = architecture.uses_rope();
        Some(
            ModelConfig {
                vocab_size,
                hidden_size,
                num_layers,
                num_heads,
                num_kv_heads: Some(num_kv_heads),
                intermediate_size,
                norm_eps: self.find_real(arch, "attention.layer_norm_rms_epsilon", TEN_TO_MINUS_FIVE),
                max_seq_len,
                rope_theta: self.find_real(arch, "rope.freq_base", TEN_THOUSAND),
                tie_word_embeddings: self.find_truth(arch, "tie_word_embeddings"),
                sub_ln: false,
                rope_scaling: None,
                architecture,
                activation,
                norm_type,
                use_rope,
                position_embeddings: None,
                qk_norm: false,
                sliding_window: None,
                head_dim: None,
                one_centered_norm: false,
                post_ffn_norm: false,
                attn_logit_softcap: None,
                final_logit_softcap: None,
            },
        )
    }
}

/// The weight of the whole model that a name stands for.
pub open spec fn gguf_top(s: Seq<char>) -> Option<WeightTarget> {
    if s == "token_embd.weight"@ {
        Some(WeightTarget::Embedding)
    } else if s == "output_norm.weight"@ {
        Some(WeightTarget::FinalNorm)
    } else if s == "output.weight"@ {
        Some(WeightTarget::LmHead)
    } else {
        None
    }
}

/// The weight of a layer that the rest of a name stands for.
pub open spec fn gguf_slot(s: Seq<char>) -> Option<Slot> {
    if s == "attn_q.weight"@ {
        Some(Slot::AttentionQ)
    } else if s == "attn_k.weight"@ {
        Some(Slot::AttentionK)
    } else if s == "attn_v.weight"@ {
        Some(Slot::AttentionV)
    } else if s == "attn_output.weight"@ {
        Some(Slot::AttentionO)
    } else if s == "attn_q.bias"@ {
        Some(Slot::AttentionQBias)
    } else if s == "attn_k.bias"@ {
        Some(Slot::AttentionKBias)
    } else if s == "attn_v.bias"@ {
        Some(Slot::AttentionVBias)
    } else if s == "ffn_gate.weight"@ {
        Some(Slot::FfnGate)
    } else if s == "ffn_down.weight"@ {
        Some(Slot::FfnDown)
    } else if s == "ffn_up.weight"@ {
        Some(Slot::FfnUp)
    } else if s == "attn_norm.weight"@ {
        Some(Slot::AttnNorm)
    } else if s == "ffn_norm.weight"@ {
        Some(Slot::FfnNorm)
    } else {
        None
    }
}

/// The layer and the rest of a name such as `blk.0.rest`.
pub open spec fn gguf_place(name: Seq<char>) -> Option<(usize, Seq<char>)> {
    let parts = text::split(name, '.');
    if parts.len() >= 3 && parts[0] == "blk"@ {
        weights::numbered(parts, 1)
    } else {
        None
    }
}

/// The weight that a name stands for.
pub open spec fn gguf_target(name: Seq<char>) -> Option<WeightTarget> {
    match gguf_top(name) {
        Some(t) => Some(t),
        None => match gguf_place(name) {
            Some((layer, rest)) => weights::placed(layer, gguf_slot(rest)),
            None => None,
        },
    }
}

/// Finds the weight of a layer that the rest of a name stands for.
fn slot_of(s: &str) -> (r: Option<Slot>)
    ensures
        r == gguf_slot(s@),
{
    if text::same(s, "attn_q.weight") {
        Some(Slot::AttentionQ)
    } else if text::same(s, "attn_k.weight") {
        Some(Slot::AttentionK)
    } else if text::same(s, "attn_v.weight") {
        Some(Slot::AttentionV)
    } else if text::same(s, "attn_output.weight") {
        Some(Slot::AttentionO)
    } else if text::same(s, "attn_q.bias") {
        Some(Slot::AttentionQBias)
    } else if text::same(s, "attn_k.bias") {
        Some(Slot::AttentionKBias)
    } else if text::same(s, "attn_v.bias") {
        Some(Slot::AttentionVBias)
    } else if text::same(s, "ffn_gate.weight") {
        Some(Slot::FfnGate)
    } else if text::same(s, "ffn_down.weight") {
        Some(Slot::FfnDown)
    } else if text::same(s, "ffn_up.weight") {
        Some(Slot::FfnUp)
    } else if text::same(s, "attn_norm.weight") {
        Some(Slot::AttnNorm)
    } else if text::same(s, "ffn_norm.weight") {
        Some(Slot::FfnNorm)
    } else {
        None
    }
}

/// GGUF names.
pub struct GgufWeightMapper;

impl GgufWeightMapper {
    /// The weight that a name stands for.
    pub fn map_weight(name: &str) -> (r: WeightTarget)
        ensures
            weights::answers(r, name@, gguf_target(name@)),
    {
        if text::same(name, "token_embd.weight") {
            return WeightTarget::Embedding;
        }
        if text::same(name, "output_norm.weight") {
            return WeightTarget::FinalNorm;
        }
        if text::same(name, "output.weight") {
            return WeightTarget::LmHead;
        }
        let parts: Vec<String> = text::split_text(name, '.');
        if parts.len() >= 3 && text::same(parts[0].as_str(), "blk") {
            if let Some((layer_idx, rest)) = weights::number_in(parts.as_slice(), 1) {
                return match slot_of(rest.as_str()) {
                    Some(s) => s.target(layer_idx),
                    None => weights::unknown(name),
                };
            }
        }
        weights::unknown(name)
    }
}

/// A name never stands for a weight that has to be split: every tensor of a GGUF file can be
/// placed or refused.
pub proof fn gguf_targets_do_not_split(name: Seq<char>, target: WeightTarget, t: TensorModel, config: ModelConfig)
    requires
        weights::answers(target, name, gguf_target(name)),
    ensures
        assign::assignable(target, t, config),
{
}

/// The tensor with its dimensions in the order of rows and columns: files list them from the
/// innermost to the outermost.
pub fn to_torch_layout(t: Tensor) -> (r: Tensor)
    requires
        t@.wf(),
    ensures
        r@ == (TensorModel { shape: t@.shape.reverse(), ..t@ }),
        r@.wf(),
        r@.lanes() == t@.lanes(),
{
    let n: usize = t.shape().len();
    let mut dims: Vec<usize> = Vec::new();
    let mut i: usize = 0;
    while i < n
        invariant
            n == t@.shape.len(),
            i <= n,
            dims@.len() == i,
            forall|j: int| 0 <= j < i ==> #[trigger] dims@[j] == t@.shape[n - 1 - j],
        decreases n - i,
    {
        dims.push(t.shape()[n - 1 - i]);
        i = i + 1;
    }
    assert(dims@ =~= t@.shape.reverse());
    proof {
        shape::product_reversed(t@.shape);
    }
    t.reshape_owned(dims.as_slice())
}

/// What loading and placing one tensor does: whether it succeeds, and the parts after it.
pub open spec fn brought<M: Fn(u32, u32) -> u32>(
    h: GgufModel,
    data: Seq<u8>,
    data_offset: int,
    times: M,
    device: Device,
    name: Seq<char>,
    before: Network,
    after: Network,
    ok: bool,
) -> bool {
    ||| exists|e: GgufError| #[trigger] gives(h, data, data_offset, name, times, Err(e)) && !ok && after == before
    ||| exists|target: WeightTarget, t: Tensor, u: Tensor|
        #[trigger] weights::answers(target, name, gguf_target(name)) && #[trigger] gives(h, data, data_offset, name, times, Ok(t))
            && #[trigger] turned(t, u, device) && assign::assigned(before, after, target, u, ok)
}

/// A tensor with its dimensions turned round, on a device.
pub open spec fn turned(t: Tensor, u: Tensor, device: Device) -> bool {
    u@ == (TensorModel { shape: t@.shape.reverse(), device, ..t@ })
}

/// The step at a place.
pub open spec fn brought_at<M: Fn(u32, u32) -> u32>(
    h: GgufModel,
    data: Seq<u8>,
    data_offset: int,
    times: M,
    device: Device,
    trace: Seq<Network>,
    done: Seq<bool>,
    i: int,
) -> bool {
    brought(h, data, data_offset, times, device, h.tensors[i].name, trace[i], trace[i + 1], done[i])
}

/// The tensors of a file are brought one by one, in the order of the header.
pub open spec fn brought_along<M: Fn(u32, u32) -> u32>(
    h: GgufModel,
    data: Seq<u8>,
    data_offset: int,
    times: M,
    device: Device,
    trace: Seq<Network>,
    done: Seq<bool>,
) -> bool {
    &&& trace.len() == done.len() + 1
    &&& done.len() <= h.tensors.len()
    &&& forall|i: int| 0 <= i < done.len() ==> #[trigger] brought_at(h, data, data_offset, times, device, trace, done, i)
}

/// One of the first tensors is the readout.
pub open spec fn has_readout(h: GgufModel, n: int) -> bool {
    exists|i: int| 0 <= i < n && gguf_target(#[trigger] h.tensors[i].name) == Some(WeightTarget::LmHead)
}

/// What filling a model does: the tensors are brought one by one, and the readout is tied where the
/// configuration asks for it or the file has none. The rest of the model stays.
pub open spec fn filled_from<M: Fn(u32, u32) -> u32>(
    h: GgufModel,
    data: Seq<u8>,
    data_offset: int,
    times: M,
    device: Device,
    config: ModelConfig,
    before: Model,
    after: Model,
) -> bool {
    &&& exists|trace: Seq<Network>, done: Seq<bool>|
        {
            &&& #[trigger] brought_along(h, data, data_offset, times, device, trace, done)
            &&& done.len() == h.tensors.len()
            &&& trace[0] == before.parts()
            &&& loading::tied(
                trace.last(),
                after.parts(),
                config.tie_word_embeddings || !has_readout(h, h.tensors.len() as int),
            )
        }
    &&& after.config == before.config
    &&& after.bit_layers == before.bit_layers
    &&& after.cache == before.cache
}

/// Fills a model with the tensors of a file, and ties the readout where it has no weight of its
/// own.
pub fn load_gguf_weights<M: Fn(u32, u32) -> u32>(
    model: &mut Model,
    loader: &GgufLoader<'_>,
    device: Device,
    config: &ModelConfig,
    times: &M,
)
    requires
        forall|i: int|
            0 <= i < loader.header@.tensors.len() ==> gives_readable(
                loader.header@,
                loader.data@.len() as int,
                loader.data_offset as int,
                #[trigger] loader.header@.tensors[i].name,
            ),
        forall|a: u32, b: u32| #[trigger] call_requires(*times, (a, b)),
    ensures
        filled_from(
            loader.header@,
            loader.data@,
            loader.data_offset as int,
            *times,
            device,
            *config,
            *old(model),
            *final(model),
        ),
{
    let ghost head = loader.header@;
    let ghost at = loader.data_offset as int;
    let n: usize = loader.header.tensor_infos.len();
    let mut lm_head_loaded: bool = false;
    let ghost mut trace: Seq<Network> = seq![model.parts()];
    let ghost mut done: Seq<bool> = Seq::empty();
    let mut i: usize = 0;
    while i < n
        invariant
            head == loader.header@,
            at == loader.data_offset,
            n == loader.header.tensor_infos@.len(),
            i <= n,
            done.len() == i,
            brought_along(head, loader.data@, at, *times, device, trace, done),
            trace[0] == old(model).parts(),
            trace[i as int] == model.parts(),
            model.config == old(model).config,
            model.bit_layers == old(model).bit_layers,
            model.cache == old(model).cache,
            forall|j: int|
                0 <= j < head.tensors.len() ==> gives_readable(head, loader.data@.len() as int, at, #[trigger] head.tensors[j].name),
            forall|a: u32, b: u32| #[trigger] call_requires(*times, (a, b)),
            lm_head_loaded == has_readout(head, i as int),
        decreases n - i,
    {
        let ghost before = model.parts();
        let name: &str = loader.header.tensor_infos[i].name.as_str();
        assert(name@ == head.tensors[i as int].name);
        let target: WeightTarget = GgufWeightMapper::map_weight(name);
        assert(target is LmHead == (gguf_target(name@) == Some(WeightTarget::LmHead)));
        if matches!(target, WeightTarget::LmHead) {
            lm_head_loaded = true;
        }
        let ok: bool = match loader.load_tensor(name, times) {
            Ok(t) => {
                let turned_round: Tensor = to_torch_layout(t);
                let u: Tensor = turned_round.tagged(device);
                proof {
                    assert(weights::answers(target, name@, gguf_target(name@)));
                    assert(gives(head, loader.data@, at, name@, *times, Ok(t)));
                    assert(turned(t, u, device));
                    gguf_targets_do_not_split(name@, target, u@, model.config);
                }
                assign::apply_weight_target(model, &target, u)
            },
            Err(e) => {
                assert(gives(head, loader.data@, at, name@, *times, Err(e)));
                false
            },
        };
        assert(brought(head, loader.data@, at, *times, device, name@, before, model.parts(), ok));
        proof {
            let longer = trace.push(model.parts());
            let more = done.push(ok);
            assert forall|k: int| 0 <= k < more.len() implies #[trigger] brought_at(
                head,
                loader.data@,
                at,
                *times,
                device,
                longer,
                more,
                k,
            ) by {
                if k < i {
                    assert(brought_at(head, loader.data@, at, *times, device, trace, done, k));
                }
            }
            if has_readout(head, i as int) {
                let k = choose|k: int| 0 <= k < i && gguf_target(#[trigger] head.tensors[k].name) == Some(WeightTarget::LmHead);
                assert(gguf_target(head.tensors[k].name) == Some(WeightTarget::LmHead));
            }
            if has_readout(head, i + 1) && !(target is LmHead) {
                let k = choose|k: int| 0 <= k < i + 1 && gguf_target(#[trigger] head.tensors[k].name) == Some(WeightTarget::LmHead);
                assert(gguf_target(head.tensors[k].name) == Some(WeightTarget::LmHead) && k != i);
            }
            trace = longer;
            done = more;
        }
        i = i + 1;
    }
    let ghost placed = model.parts();
    let tie: bool = config.tie_word_embeddings || !lm_head_loaded;
    if tie {
        model.tie_embeddings();
    }
    assert(loading::tied(placed, model.parts(), tie));
    assert(brought_along(head, loader.data@, at, *times, device, trace, done));
}

} // verus!
