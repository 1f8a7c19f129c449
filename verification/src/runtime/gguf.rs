//! GGUF files: a header with named values and a list of tensors.
use crate::bytes;
use crate::tensor::types::DType;
use crate::text;
use vstd::prelude::*;

verus! {

/// The first four bytes of a file, as a little-endian number.
pub const GGUF_MAGIC: u32 = 0x4655_4747;

/// The alignment of the data where the file does not say another.
pub const GGUF_DEFAULT_ALIGNMENT: u64 = 32;

/// How the elements of a tensor are stored.
#[derive(Debug, Clone, Copy, PartialEq, Eq, Structural)]
pub enum GgmlType {
    F32,
    F16,
    Q4_0,
    Q4_1,
    Q5_0,
    Q5_1,
    Q8_0,
    Q8_1,
    Q2K,
    Q3K,
    Q4K,
    Q5K,
    Q6K,
    Q8K,
    I8,
    I16,
    I32,
    BF16,
}

impl GgmlType {
    /// The number that stands for the type in files.
    pub open spec fn code(self) -> u32 {
        match self {
            GgmlType::F32 => 0,
            GgmlType::F16 => 1,
            GgmlType::Q4_0 => 2,
            GgmlType::Q4_1 => 3,
            GgmlType::Q5_0 => 6,
            GgmlType::Q5_1 => 7,
            GgmlType::Q8_0 => 8,
            GgmlType::Q8_1 => 9,
            GgmlType::Q2K => 10,
            GgmlType::Q3K => 11,
            GgmlType::Q4K => 12,
            GgmlType::Q5K => 13,
            GgmlType::Q6K => 14,
            GgmlType::Q8K => 15,
            GgmlType::I8 => 24,
            GgmlType::I16 => 25,
            GgmlType::I32 => 26,
            GgmlType::BF16 => 30,
        }
    }

    /// The type that a number stands for.
    pub fn from_u32(v: u32) -> (r: Option<GgmlType>)
        ensures
            match r {
                Some(t) => t.code() == v,
                None => forall|t: GgmlType| #[trigger] t.code() != v,
            },
    {
        match v {
            0 => Some(GgmlType::F32),
            1 => Some(GgmlType::F16),
            2 => Some(GgmlType::Q4_0),
            3 => Some(GgmlType::Q4_1),
            6 => Some(GgmlType::Q5_0),
            7 => Some(GgmlType::Q5_1),
            8 => Some(GgmlType::Q8_0),
            9 => Some(GgmlType::Q8_1),
            10 => Some(GgmlType::Q2K),
            11 => Some(GgmlType::Q3K),
            12 => Some(GgmlType::Q4K),
            13 => Some(GgmlType::Q5K),
            14 => Some(GgmlType::Q6K),
            15 => Some(GgmlType::Q8K),
            24 => Some(GgmlType::I8),
            25 => Some(GgmlType::I16),
            26 => Some(GgmlType::I32),
            30 => Some(GgmlType::BF16),
            _ => None,
        }
    }

    /// The number that stands for the type.
    pub fn to_u32(&self) -> (r: u32)
        ensures
            r == self.code(),
    {
        match self {
            GgmlType::F32 => 0,
            GgmlType::F16 => 1,
            GgmlType::Q4_0 => 2,
            GgmlType::Q4_1 => 3,
            GgmlType::Q5_0 => 6,
            GgmlType::Q5_1 => 7,
            GgmlType::Q8_0 => 8,
            GgmlType::Q8_1 => 9,
            GgmlType::Q2K => 10,
            GgmlType::Q3K => 11,
            GgmlType::Q4K => 12,
            GgmlType::Q5K => 13,
            GgmlType::Q6K => 14,
            GgmlType::Q8K => 15,
            GgmlType::I8 => 24,
            GgmlType::I16 => 25,
            GgmlType::I32 => 26,
            GgmlType::BF16 => 30,
        }
    }

    /// The size of a block.
    pub fn block_size(&self) -> (r: usize)
        ensures
            r == (match *self {
                GgmlType::F32 | GgmlType::I32 => 4int,
                GgmlType::F16 | GgmlType::BF16 | GgmlType::I16 => 2,
                GgmlType::Q8_0 | GgmlType::Q8_1 | GgmlType::I8 => 16,
                _ => 32,
            }),
    {
        match self {
            GgmlType::F32 => 4,
            GgmlType::F16 | GgmlType::BF16 | GgmlType::I16 => 2,
            GgmlType::Q4_0 | GgmlType::Q4_1 | GgmlType::Q5_0 | GgmlType::Q5_1 => 32,
            GgmlType::Q8_0 | GgmlType::Q8_1 | GgmlType::I8 => 16,
            GgmlType::Q2K => 32,
            GgmlType::Q3K => 32,
            GgmlType::Q4K => 32,
            GgmlType::Q5K => 32,
            GgmlType::Q6K => 32,
            GgmlType::Q8K => 32,
            GgmlType::I32 => 4,
        }
    }

    /// The element type of a tensor in memory, for the types of floats and of eight bits: they all
    /// become floats.
    pub fn to_dtype(&self) -> (r: Option<DType>)
        ensures
            r == (match *self {
                GgmlType::F32 | GgmlType::F16 | GgmlType::BF16 | GgmlType::I8 | GgmlType::Q8_0 | GgmlType::Q8_1 | GgmlType::Q8K => Some(
                    DType::F32,
                ),
                _ => None::<DType>,
            }),
    {
        match self {
            GgmlType::F32 => Some(DType::F32),
            GgmlType::F16 | GgmlType::BF16 => Some(DType::F32),
            GgmlType::I8 | GgmlType::Q8_0 | GgmlType::Q8_1 | GgmlType::Q8K => Some(DType::F32),
            _ => None,
        }
    }
}

/// A type is the only one with its number.
pub proof fn codes_differ(a: GgmlType, b: GgmlType)
    requires
        a.code() == b.code(),
    ensures
        a == b,
{
}

/// A named value of a header; floats by their bits.
#[derive(Debug)]
pub enum MetadataValue {
    Uint8(u8),
    Int8(i8),
    Uint16(u16),
    Int16(i16),
    Uint32(u32),
    Int32(i32),
    Float32(u32),
    Bool(bool),
    String(String),
    Array(Vec<MetadataValue>),
    Uint64(u64),
    Int64(i64),
    Float64(u64),
}

/// What a value holds.
pub enum MetaModel {
    Uint8(u8),
    Int8(i8),
    Uint16(u16),
    Int16(i16),
    Uint32(u32),
    Int32(i32),
    Float32(u32),
    Bool(bool),
    Text(Seq<char>),
    Array(Seq<MetaModel>),
    Uint64(u64),
    Int64(i64),
    Float64(u64),
}

impl MetadataValue {
    /// What the value holds.
    pub open spec fn view(self) -> MetaModel
        decreases self,
    {
        match self {
            MetadataValue::Uint8(v) => MetaModel::Uint8(v),
            MetadataValue::Int8(v) => MetaModel::Int8(v),
            MetadataValue::Uint16(v) => MetaModel::Uint16(v),
            MetadataValue::Int16(v) => MetaModel::Int16(v),
            MetadataValue::Uint32(v) => MetaModel::Uint32(v),
            MetadataValue::Int32(v) => MetaModel::Int32(v),
            MetadataValue::Float32(v) => MetaModel::Float32(v),
            MetadataValue::Bool(v) => MetaModel::Bool(v),
            MetadataValue::String(v) => MetaModel::Text(v@),
            MetadataValue::Array(v) => MetaModel::Array(
                Seq::new(
                    v@.len(),
                    |i: int|
                        if 0 <= i < v@.len() {
                            v@[i].view()
                        } else {
                            MetaModel::Bool(false)
                        },
                ),
            ),
            MetadataValue::Uint64(v) => MetaModel::Uint64(v),
            MetadataValue::Int64(v) => MetaModel::Int64(v),
            MetadataValue::Float64(v) => MetaModel::Float64(v),
        }
    }
}

/// A signed number as an unsigned one of 64 bits: negative numbers count down from the top.
pub open spec fn wide(v: int) -> u64 {
    (if v < 0 {
        v + 0x1_0000_0000_0000_0000
    } else {
        v
    }) as u64
}

impl MetaModel {
    /// The integer that the value is.
    pub open spec fn natural(self) -> Option<u64> {
        match self {
            MetaModel::Uint8(v) => Some(v as u64),
            MetaModel::Int8(v) => Some(wide(v as int)),
            MetaModel::Uint16(v) => Some(v as u64),
            MetaModel::Int16(v) => Some(wide(v as int)),
            MetaModel::Uint32(v) => Some(v as u64),
            MetaModel::Int32(v) => Some(wide(v as int)),
            MetaModel::Uint64(v) => Some(v),
            MetaModel::Int64(v) => Some(wide(v as int)),
            _ => None,
        }
    }

    /// The truth value that the value is.
    pub open spec fn truth(self) -> Option<bool> {
        match self {
            MetaModel::Bool(v) => Some(v),
            _ => None,
        }
    }

    /// The text that the value is.
    pub open spec fn text(self) -> Option<Seq<char>> {
        match self {
            MetaModel::Text(v) => Some(v),
            _ => None,
        }
    }

    /// The list that the value is.
    pub open spec fn list(self) -> Option<Seq<MetaModel>> {
        match self {
            MetaModel::Array(v) => Some(v),
            _ => None,
        }
    }
}

/// A signed number as an unsigned one.
fn widened(v: i64) -> (r: u64)
    ensures
        r == wide(v as int),
{
    if v >= 0 {
        v as u64
    } else {
        u64::MAX - (-(v + 1)) as u64
    }
}

impl MetadataValue {
    /// The integer that the value is.
    pub fn as_u64(&self) -> (r: Option<u64>)
        ensures
            r == self@.natural(),
    {
        match self {
            MetadataValue::Uint8(v) => Some(*v as u64),
            MetadataValue::Int8(v) => Some(widened(*v as i64)),
            MetadataValue::Uint16(v) => Some(*v as u64),
            MetadataValue::Int16(v) => Some(widened(*v as i64)),
            MetadataValue::Uint32(v) => Some(*v as u64),
            MetadataValue::Int32(v) => Some(widened(*v as i64)),
            MetadataValue::Uint64(v) => Some(*v),
            MetadataValue::Int64(v) => Some(widened(*v)),
            _ => None,
        }
    }

    /// The truth value that the value is.
    pub fn as_bool(&self) -> (r: Option<bool>)
        ensures
            r == self@.truth(),
    {
        match self {
            MetadataValue::Bool(v) => Some(*v),
            _ => None,
        }
    }

    /// The text that the value is.
    pub fn as_str(&self) -> (r: Option<&str>)
        ensures
            match r {
                Some(s) => self@.text() == Some(s@),
                None => self@.text() is None,
            },
    {
        match self {
            MetadataValue::String(v) => Some(v.as_str()),
            _ => None,
        }
    }

    /// The list that the value is.
    pub fn as_array(&self) -> (r: Option<&[MetadataValue]>)
        ensures
            match r {
                Some(v) => {
                    &&& self@.list() is Some
                    &&& self@.list().unwrap().len() == v@.len()
                    &&& forall|i: int| 0 <= i < v@.len() ==> #[trigger] v@[i].view() == self@.list().unwrap()[i]
                },
                None => self@.list() is None,
            },
    {
        match self {
            MetadataValue::Array(v) => Some(v.as_slice()),
            _ => None,
        }
    }
}

/// Why a file or a tensor could not be read.
#[derive(Debug)]
pub enum GgufError {
    Io(String),
    InvalidMagic,
    UnsupportedVersion(u32),
    InvalidMetadataType(u32),
    InvalidGgmlType(u32),
    MissingField(String),
}

/// What an error says.
pub enum GgufFault {
    Io(Seq<char>),
    InvalidMagic,
    UnsupportedVersion(u32),
    InvalidMetadataType(u32),
    InvalidGgmlType(u32),
    MissingField(Seq<char>),
}

impl View for GgufError {
    type V = GgufFault;

    open spec fn view(&self) -> GgufFault {
        match *self {
            GgufError::Io(m) => GgufFault::Io(m@),
            GgufError::InvalidMagic => GgufFault::InvalidMagic,
            GgufError::UnsupportedVersion(v) => GgufFault::UnsupportedVersion(v),
            GgufError::InvalidMetadataType(t) => GgufFault::InvalidMetadataType(t),
            GgufError::InvalidGgmlType(t) => GgufFault::InvalidGgmlType(t),
            GgufError::MissingField(k) => GgufFault::MissingField(k@),
        }
    }
}

impl GgufError {
    /// The error's full text.
    pub open spec fn text(self) -> Seq<char> {
        match self {
            GgufError::Io(m) => "IO error: "@ + m@,
            GgufError::InvalidMagic => "Invalid GGUF magic number"@,
            GgufError::UnsupportedVersion(v) => "Unsupported GGUF version: "@ + text::decimal(v as nat),
            GgufError::InvalidMetadataType(t) => "Invalid metadata value type: "@ + text::decimal(t as nat),
            GgufError::InvalidGgmlType(t) => "Invalid GGML type: "@ + text::decimal(t as nat),
            GgufError::MissingField(k) => "Missing required field: "@ + k@,
        }
    }

    /// The error's full text.
    pub fn message(&self) -> (r: String)
        ensures
            r@ == self.text(),
    {
        match self {
            GgufError::Io(m) => text::joined("IO error: ", m),
            GgufError::InvalidMagic => "Invalid GGUF magic number".to_owned(),
            GgufError::UnsupportedVersion(v) => text::joined("Unsupported GGUF version: ", &text::decimal_text(*v as u64)),
            GgufError::InvalidMetadataType(t) => text::joined("Invalid metadata value type: ", &text::decimal_text(*t as u64)),
            GgufError::InvalidGgmlType(t) => text::joined("Invalid GGML type: ", &text::decimal_text(*t as u64)),
            GgufError::MissingField(k) => text::joined("Missing required field: ", k),
        }
    }
}

/// What is read at a place, with the place after it.
pub type At<T> = Result<(T, int), GgufFault>;

/// The error of reading past the end.
pub open spec fn overrun() -> GgufFault {
    GgufFault::Io("overrun"@)
}

/// A signed number of the given span out of an unsigned one.
pub open spec fn signed(v: int, span: int) -> int {
    if 2 * v >= span {
        v - span
    } else {
        v
    }
}

/// The text at a place: its length in bytes, then the bytes.
pub open spec fn text_at(data: Seq<u8>, pos: int) -> At<Seq<char>> {
    if pos + 8 > data.len() || pos + 8 + bytes::le64(data, pos) > data.len() {
        Err(overrun())
    } else {
        let end = pos + 8 + bytes::le64(data, pos);
        let part = data.subrange(pos + 8, end);
        if vstd::utf8::valid_utf8(part) {
            Ok((vstd::utf8::decode_utf8(part), end))
        } else {
            Err(GgufFault::Io(text::utf8_fault(part)))
        }
    }
}

/// How many bytes a value of a kind takes; none for texts and lists.
pub open spec fn width_of(kind: u32) -> int {
    if kind == 0 || kind == 1 || kind == 7 {
        1
    } else if kind == 2 || kind == 3 {
        2
    } else if kind == 4 || kind == 5 || kind == 6 {
        4
    } else if kind == 10 || kind == 11 || kind == 12 {
        8
    } else {
        0
    }
}

/// The value of a kind of fixed width.
pub open spec fn fixed_value(data: Seq<u8>, pos: int, kind: u32) -> MetaModel {
    if kind == 0 {
        MetaModel::Uint8(data[pos])
    } else if kind == 1 {
        MetaModel::Int8(signed(data[pos] as int, 0x100) as i8)
    } else if kind == 2 {
        MetaModel::Uint16(bytes::le16(data, pos) as u16)
    } else if kind == 3 {
        MetaModel::Int16(signed(bytes::le16(data, pos), 0x1_0000) as i16)
    } else if kind == 4 {
        MetaModel::Uint32(bytes::le32(data, pos) as u32)
    } else if kind == 5 {
        MetaModel::Int32(signed(bytes::le32(data, pos), 0x1_0000_0000) as i32)
    } else if kind == 6 {
        MetaModel::Float32(bytes::le32(data, pos) as u32)
    } else if kind == 7 {
        MetaModel::Bool(data[pos] != 0)
    } else if kind == 10 {
        MetaModel::Uint64(bytes::le64(data, pos) as u64)
    } else if kind == 11 {
        MetaModel::Int64(signed(bytes::le64(data, pos), 0x1_0000_0000_0000_0000) as i64)
    } else {
        MetaModel::Float64(bytes::le64(data, pos) as u64)
    }
}

/// The value of a kind at a place.
pub open spec fn value_at(data: Seq<u8>, pos: int, kind: u32) -> At<MetaModel>
    decreases data.len() - pos, 0nat,
{
    if kind == 9 {
        if pos + 12 > data.len() {
            Err(overrun())
        } else {
            match values_at(data, pos + 12, bytes::le32(data, pos) as u32, bytes::le64(data, pos + 4) as nat) {
                Ok((list, end)) => Ok((MetaModel::Array(list), end)),
                Err(f) => Err(f),
            }
        }
    } else if kind == 8 {
        match text_at(data, pos) {
            Ok((s, end)) => Ok((MetaModel::Text(s), end)),
            Err(f) => Err(f),
        }
    } else if width_of(kind) == 0 {
        Err(GgufFault::InvalidMetadataType(kind))
    } else if pos + width_of(kind) > data.len() {
        Err(overrun())
    } else {
        Ok((fixed_value(data, pos, kind), pos + width_of(kind)))
    }
}

/// Values of a kind, one after another. Each takes up bytes: reading goes on behind it.
pub open spec fn values_at(data: Seq<u8>, pos: int, kind: u32, n: nat) -> At<Seq<MetaModel>>
    decreases data.len() - pos, n,
{
    if n == 0 {
        Ok((Seq::empty(), pos))
    } else {
        match value_at(data, pos, kind) {
            Err(f) => Err(f),
            Ok((v, next)) => if pos < next <= data.len() {
                match values_at(data, next, kind, (n - 1) as nat) {
                    Ok((list, end)) => Ok((seq![v] + list, end)),
                    Err(f) => Err(f),
                }
            } else {
                Err(overrun())
            },
        }
    }
}

/// A value takes up bytes, and a list of values goes no farther than the data.
pub proof fn values_take_bytes(data: Seq<u8>, pos: int, kind: u32, n: nat)
    requires
        0 <= pos <= data.len(),
    ensures
        value_at(data, pos, kind) matches Ok((_, next)) ==> pos < next <= data.len(),
        values_at(data, pos, kind, n) matches Ok((list, end)) ==> pos <= end <= data.len() && list.len() == n && pos + n <= end,
    decreases data.len() - pos, n,
{
    if kind == 9 && pos + 12 <= data.len() {
        let len = bytes::le64(data, pos + 4) as nat;
        values_take_bytes(data, pos + 12, bytes::le32(data, pos) as u32, len);
    }
    if n > 0 {
        match value_at(data, pos, kind) {
            Ok((_, next)) => {
                if pos < next <= data.len() {
                    values_take_bytes(data, next, kind, (n - 1) as nat);
                }
            },
            Err(_) => {},
        }
    }
}

/// Named values, one after another: a name, the kind of the value, the value.
pub open spec fn entries_at(data: Seq<u8>, pos: int, n: nat) -> At<Seq<(Seq<char>, MetaModel)>>
    decreases n,
{
    if n == 0 {
        Ok((Seq::empty(), pos))
    } else {
        match entry_at(data, pos) {
            Err(f) => Err(f),
            Ok((e, next)) => match entries_at(data, next, (n - 1) as nat) {
                Ok((list, end)) => Ok((seq![e] + list, end)),
                Err(f) => Err(f),
            },
        }
    }
}

/// The named value at a place.
pub open spec fn entry_at(data: Seq<u8>, pos: int) -> At<(Seq<char>, MetaModel)> {
    match text_at(data, pos) {
        Err(f) => Err(f),
        Ok((key, p)) => if p + 4 > data.len() {
            Err(overrun())
        } else {
            match value_at(data, p + 4, bytes::le32(data, p) as u32) {
                Ok((v, end)) => Ok(((key, v), end)),
                Err(f) => Err(f),
            }
        },
    }
}

/// The value under a key: where a key occurs more than once, the last one counts.
pub open spec fn last_entry(entries: Seq<(Seq<char>, MetaModel)>, key: Seq<char>) -> Option<MetaModel>
    decreases entries.len(),
{
    if entries.len() == 0 {
        None
    } else if entries.last().0 == key {
        Some(entries.last().1)
    } else {
        last_entry(entries.drop_last(), key)
    }
}

/// What a header says of a tensor.
#[derive(Debug)]
pub struct GgufTensorInfo {
    pub name: String,
    pub n_dimensions: u32,
    pub dimensions: Vec<u64>,
    pub ggml_type: GgmlType,
    pub offset: u64,
}

/// What is said of a tensor.
#[verifier::ext_equal]
pub struct GgufInfoModel {
    pub name: Seq<char>,
    pub n_dimensions: u32,
    pub dimensions: Seq<u64>,
    pub ggml_type: GgmlType,
    pub offset: u64,
}

impl View for GgufTensorInfo {
    type V = GgufInfoModel;

    open spec fn view(&self) -> GgufInfoModel {
        GgufInfoModel {
            name: self.name@,
            n_dimensions: self.n_dimensions,
            dimensions: self.dimensions@,
            ggml_type: self.ggml_type,
            offset: self.offset,
        }
    }
}

/// The type that a number stands for.
pub open spec fn type_of(code: u32) -> Option<GgmlType> {
    if exists|t: GgmlType| #[trigger] t.code() == code {
        Some(choose|t: GgmlType| #[trigger] t.code() == code)
    } else {
        None
    }
}

/// Numbers of 64 bits, one after another.
pub open spec fn numbers(data: Seq<u8>, pos: int, n: nat) -> Seq<u64> {
    Seq::new(n, |i: int| bytes::le64(data, pos + 8 * i) as u64)
}

/// What is said of a tensor at a place: its name, how many dimensions it has, the dimensions, its
/// type, where its data lie.
pub open spec fn info_at(data: Seq<u8>, pos: int) -> At<GgufInfoModel> {
    match text_at(data, pos) {
        Err(f) => Err(f),
        Ok((name, p)) => if p + 4 > data.len() {
            Err(overrun())
        } else {
            let n = bytes::le32(data, p);
            let q = p + 4 + 8 * n;
            if q + 4 > data.len() {
                Err(overrun())
            } else {
                match type_of(bytes::le32(data, q) as u32) {
                    None => Err(GgufFault::InvalidGgmlType(bytes::le32(data, q) as u32)),
                    Some(t) => if q + 12 > data.len() {
                        Err(overrun())
                    } else {
                        Ok(
                            (
                                GgufInfoModel {
                                    name,
                                    n_dimensions: n as u32,
                                    dimensions: numbers(data, p + 4, n as nat),
                                    ggml_type: t,
                                    offset: bytes::le64(data, q + 4) as u64,
                                },
                                q + 12,
                            ),
                        )
                    },
                }
            }
        },
    }
}

/// What is said of tensors, one after another.
pub open spec fn infos_at(data: Seq<u8>, pos: int, n: nat) -> At<Seq<GgufInfoModel>>
    decreases n,
{
    if n == 0 {
        Ok((Seq::empty(), pos))
    } else {
        match info_at(data, pos) {
            Err(f) => Err(f),
            Ok((e, next)) => match infos_at(data, next, (n - 1) as nat) {
                Ok((list, end)) => Ok((seq![e] + list, end)),
                Err(f) => Err(f),
            },
        }
    }
}

/// What a header says.
#[verifier::ext_equal]
pub struct GgufModel {
    pub version: u32,
    pub tensor_count: u64,
    pub metadata: Seq<(Seq<char>, MetaModel)>,
    pub tensors: Seq<GgufInfoModel>,
    pub alignment: u64,
}

/// The alignment that named values ask for.
pub open spec fn alignment_of(entries: Seq<(Seq<char>, MetaModel)>) -> u64 {
    match last_entry(entries, "general.alignment"@) {
        Some(v) => match v.natural() {
            Some(n) => n,
            None => GGUF_DEFAULT_ALIGNMENT,
        },
        None => GGUF_DEFAULT_ALIGNMENT,
    }
}

/// The header of a file, with the place after it: the magic number, the version, how many tensors
/// and how many named values there are, the named values, the tensors.
pub open spec fn header_at(data: Seq<u8>) -> At<GgufModel> {
    if data.len() < 4 {
        Err(overrun())
    } else if bytes::le32(data, 0) != GGUF_MAGIC {
        Err(GgufFault::InvalidMagic)
    } else if data.len() < 8 {
        Err(overrun())
    } else if !(2 <= bytes::le32(data, 4) <= 3) {
        Err(GgufFault::UnsupportedVersion(bytes::le32(data, 4) as u32))
    } else if data.len() < 24 {
        Err(overrun())
    } else {
        match entries_at(data, 24, bytes::le64(data, 16) as nat) {
            Err(f) => Err(f),
            Ok((metadata, p)) => match infos_at(data, p, bytes::le64(data, 8) as nat) {
                Err(f) => Err(f),
                Ok((tensors, end)) => Ok(
                    (
                        GgufModel {
                            version: bytes::le32(data, 4) as u32,
                            tensor_count: bytes::le64(data, 8) as u64,
                            metadata,
                            tensors,
                            alignment: alignment_of(metadata),
                        },
                        end,
                    ),
                ),
            },
        }
    }
}

/// Named values.
pub open spec fn entries(v: Seq<(String, MetadataValue)>) -> Seq<(Seq<char>, MetaModel)> {
    Seq::new(v.len(), |i: int| (v[i].0@, v[i].1.view()))
}

/// What is said of tensors.
pub open spec fn tensor_models(v: Seq<GgufTensorInfo>) -> Seq<GgufInfoModel> {
    Seq::new(v.len(), |i: int| v[i]@)
}

/// The header of a file.
#[derive(Debug)]
pub struct GgufHeader {
    pub version: u32,
    pub tensor_count: u64,
    pub metadata: Vec<(String, MetadataValue)>,
    pub tensor_infos: Vec<GgufTensorInfo>,
    pub alignment: u64,
}

impl View for GgufHeader {
    type V = GgufModel;

    open spec fn view(&self) -> GgufModel {
        GgufModel {
            version: self.version,
            tensor_count: self.tensor_count,
            metadata: entries(self.metadata@),
            tensors: tensor_models(self.tensor_infos@),
            alignment: self.alignment,
        }
    }
}

/// A place in a file.
struct Cursor<'a> {
    data: &'a [u8],
    pos: usize,
}

impl<'a> Cursor<'a> {
    /// The place lies in the file.
    spec fn wf(self) -> bool {
        self.pos <= self.data@.len()
    }

    fn new(data: &'a [u8]) -> (r: Cursor<'a>)
        ensures
            r.wf(),
            r.data@ == data@,
            r.pos == 0,
    {
        Cursor { data, pos: 0 }
    }

    /// Takes so many bytes; gives the place where they start.
    fn advance(&mut self, n: usize) -> (r: Result<usize, GgufError>)
        requires
            old(self).wf(),
        ensures
            final(self).wf(),
            final(self).data == old(self).data,
            match r {
                Ok(at) => at == old(self).pos && final(self).pos == at + n,
                Err(e) => e@ == overrun() && old(self).pos + n > old(self).data@.len(),
            },
    {
        assert(self.data.len() == self.data@.len());
        if n > self.data.len() - self.pos {
            return Err(GgufError::Io("overrun".to_owned()));
        }
        let at: usize = self.pos;
        self.pos = at + n;
        Ok(at)
    }

    fn read_u8(&mut self) -> (r: Result<u8, GgufError>)
        requires
            old(self).wf(),
        ensures
            final(self).wf(),
            final(self).data == old(self).data,
            match r {
                Ok(v) => old(self).pos + 1 == final(self).pos && v == old(self).data@[old(self).pos as int],
                Err(e) => e@ == overrun() && old(self).pos + 1 > old(self).data@.len(),
            },
    {
        match self.advance(1) {
            Ok(at) => Ok(self.data[at]),
            Err(e) => Err(e),
        }
    }

    fn read_u16(&mut self) -> (r: Result<u16, GgufError>)
        requires
            old(self).wf(),
        ensures
            final(self).wf(),
            final(self).data == old(self).data,
            match r {
                Ok(v) => old(self).pos + 2 == final(self).pos && v == bytes::le16(old(self).data@, old(self).pos as int),
                Err(e) => e@ == overrun() && old(self).pos + 2 > old(self).data@.len(),
            },
    {
        match self.advance(2) {
            Ok(at) => Ok(bytes::u16_at(self.data, at)),
            Err(e) => Err(e),
        }
    }

    fn read_u32(&mut self) -> (r: Result<u32, GgufError>)
        requires
            old(self).wf(),
        ensures
            final(self).wf(),
            final(self).data == old(self).data,
            match r {
                Ok(v) => old(self).pos + 4 == final(self).pos && v == bytes::le32(old(self).data@, old(self).pos as int),
                Err(e) => e@ == overrun() && old(self).pos + 4 > old(self).data@.len(),
            },
    {
        match self.advance(4) {
            Ok(at) => Ok(bytes::u32_at(self.data, at)),
            Err(e) => Err(e),
        }
    }

    fn read_u64(&mut self) -> (r: Result<u64, GgufError>)
        requires
            old(self).wf(),
        ensures
            final(self).wf(),
            final(self).data == old(self).data,
            match r {
                Ok(v) => old(self).pos + 8 == final(self).pos && v == bytes::le64(old(self).data@, old(self).pos as int),
                Err(e) => e@ == overrun() && old(self).pos + 8 > old(self).data@.len(),
            },
    {
        match self.advance(8) {
            Ok(at) => Ok(bytes::u64_at(self.data, at)),
            Err(e) => Err(e),
        }
    }

    fn read_gguf_string(&mut self) -> (r: Result<String, GgufError>)
        requires
            old(self).wf(),
        ensures
            final(self).wf(),
            final(self).data == old(self).data,
            match r {
                Ok(s) => text_at(old(self).data@, old(self).pos as int) == Ok::<(Seq<char>, int), GgufFault>((s@, final(self).pos as int)),
                Err(e) => text_at(old(self).data@, old(self).pos as int) == Err::<(Seq<char>, int), GgufFault>(e@),
            },
    {
        let n: u64 = match self.read_u64() {
            Ok(n) => n,
            Err(e) => {
                return Err(e);
            },
        };
        assert(self.data.len() == self.data@.len());
        let left: usize = self.data.len() - self.pos;
        if n > left as u64 {
            return Err(GgufError::Io("overrun".to_owned()));
        }
        let start: usize = self.pos;
        let end: usize = start + n as usize;
        let part: &[u8] = vstd::slice::slice_subrange(self.data, start, end);
        let mut copy: Vec<u8> = Vec::new();
        copy.extend_from_slice(part);
        assert(copy@ =~= part@);
        self.pos = end;
        match text::text_of_utf8(copy) {
            Ok(s) => Ok(s),
            Err(m) => Err(GgufError::Io(m)),
        }
    }
}

/// Reads the value of a kind.
fn read_metadata_value(cursor: &mut Cursor<'_>, type_id: u32) -> (r: Result<MetadataValue, GgufError>)
    requires
        old(cursor).wf(),
    ensures
        final(cursor).wf(),
        final(cursor).data == old(cursor).data,
        match r {
            Ok(v) => value_at(old(cursor).data@, old(cursor).pos as int, type_id) == Ok::<(MetaModel, int), GgufFault>(
                (v.view(), final(cursor).pos as int),
            ),
            Err(e) => value_at(old(cursor).data@, old(cursor).pos as int, type_id) == Err::<(MetaModel, int), GgufFault>(e@),
        },
    decreases old(cursor).data@.len() - old(cursor).pos, 1nat,
{
    match type_id {
        0 => match cursor.read_u8() {
            Ok(v) => Ok(MetadataValue::Uint8(v)),
            Err(e) => Err(e),
        },
        1 => match cursor.read_u8() {
            Ok(v) => Ok(MetadataValue::Int8(if v >= 0x80 { (v as i16 - 0x100) as i8 } else { v as i8 })),
            Err(e) => Err(e),
        },
        2 => match cursor.read_u16() {
            Ok(v) => Ok(MetadataValue::Uint16(v)),
            Err(e) => Err(e),
        },
        3 => match cursor.read_u16() {
            Ok(v) => Ok(MetadataValue::Int16(if v >= 0x8000 { (v as i32 - 0x1_0000) as i16 } else { v as i16 })),
            Err(e) => Err(e),
        },
        4 => match cursor.read_u32() {
            Ok(v) => Ok(MetadataValue::Uint32(v)),
            Err(e) => Err(e),
        },
        5 => match cursor.read_u32() {
            Ok(v) => Ok(MetadataValue::Int32(if v >= 0x8000_0000 { (v as i64 - 0x1_0000_0000) as i32 } else { v as i32 })),
            Err(e) => Err(e),
        },
        6 => match cursor.read_u32() {
            Ok(v) => Ok(MetadataValue::Float32(v)),
            Err(e) => Err(e),
        },
        7 => match cursor.read_u8() {
            Ok(v) => Ok(MetadataValue::Bool(v != 0)),
            Err(e) => Err(e),
        },
        8 => match cursor.read_gguf_string() {
            Ok(v) => Ok(MetadataValue::String(v)),
            Err(e) => Err(e),
        },
        9 => read_metadata_array(cursor),
        10 => match cursor.read_u64() {
            Ok(v) => Ok(MetadataValue::Uint64(v)),
            Err(e) => Err(e),
        },
        11 => match cursor.read_u64() {
            Ok(v) => Ok(
                MetadataValue::Int64(if v >= 0x8000_0000_0000_0000 { (v as i128 - 0x1_0000_0000_0000_0000) as i64 } else { v as i64 }),
            ),
            Err(e) => Err(e),
        },
        12 => match cursor.read_u64() {
            Ok(v) => Ok(MetadataValue::Float64(v)),
            Err(e) => Err(e),
        },
        _ => Err(GgufError::InvalidMetadataType(type_id)),
    }
}

/// Values before others.
spec fn prepended(done: Seq<MetaModel>, more: At<Seq<MetaModel>>) -> At<Seq<MetaModel>> {
    match more {
        Ok((list, end)) => Ok((done + list, end)),
        Err(f) => Err(f),
    }
}

/// The models of values.
spec fn models(v: Seq<MetadataValue>) -> Seq<MetaModel> {
    Seq::new(v.len(), |i: int| v[i].view())
}

/// Reads a list: the kind of its values, how many there are, the values.
fn read_metadata_array(cursor: &mut Cursor<'_>) -> (r: Result<MetadataValue, GgufError>)
    requires
        old(cursor).wf(),
    ensures
        final(cursor).wf(),
        final(cursor).data == old(cursor).data,
        match r {
            Ok(v) => value_at(old(cursor).data@, old(cursor).pos as int, 9) == Ok::<(MetaModel, int), GgufFault>(
                (v.view(), final(cursor).pos as int),
            ),
            Err(e) => value_at(old(cursor).data@, old(cursor).pos as int, 9) == Err::<(MetaModel, int), GgufFault>(e@),
        },
    decreases old(cursor).data@.len() - old(cursor).pos, 0nat,
{
    let ghost data = cursor.data@;
    let ghost at = cursor.pos as int;
    let kind: u32 = match cursor.read_u32() {
        Ok(v) => v,
        Err(e) => {
            return Err(e);
        },
    };
    let n: u64 = match cursor.read_u64() {
        Ok(v) => v,
        Err(e) => {
            return Err(e);
        },
    };
    let mut list: Vec<MetadataValue> = Vec::new();
    let ghost whole = values_at(data, at + 12, kind, n as nat);
    let mut i: u64 = 0;
    proof {
        assert(models(list@) =~= Seq::empty());
        match whole {
            Ok((rest, _)) => {
                assert(models(list@) + rest =~= rest);
            },
            Err(_) => {},
        }
    }
    while i < n
        invariant
            cursor.wf(),
            cursor.data == old(cursor).data,
            data == cursor.data@,
            at == old(cursor).pos,
            at + 12 <= cursor.pos,
            i <= n,
            whole == values_at(data, at + 12, kind, n as nat),
            at + 12 <= data.len(),
            kind == bytes::le32(data, at),
            n == bytes::le64(data, at + 4),
            whole == prepended(models(list@), values_at(data, cursor.pos as int, kind, (n - i) as nat)),
        decreases n - i,
    {
        let ghost here = cursor.pos as int;
        let ghost held = models(list@);
        proof {
            values_take_bytes(data, here, kind, (n - i) as nat);
        }
        match read_metadata_value(cursor, kind) {
            Ok(v) => {
                list.push(v);
                proof {
                    assert(models(list@) =~= held.push(v.view()));
                    match values_at(data, cursor.pos as int, kind, (n - i - 1) as nat) {
                        Ok((rest, _)) => {
                            assert(held + (seq![v.view()] + rest) =~= models(list@) + rest);
                        },
                        Err(_) => {},
                    }
                }
            },
            Err(e) => {
                return Err(e);
            },
        }
        i = i + 1;
    }
    proof {
        assert(models(list@) + Seq::<MetaModel>::empty() =~= models(list@));
    }
    let r: MetadataValue = MetadataValue::Array(list);
    assert(r.view()->Array_0 =~= models(list@));
    Ok(r)
}

/// Reads a named value.
fn read_entry(cursor: &mut Cursor<'_>) -> (r: Result<(String, MetadataValue), GgufError>)
    requires
        old(cursor).wf(),
    ensures
        final(cursor).wf(),
        final(cursor).data == old(cursor).data,
        match r {
            Ok(p) => entry_at(old(cursor).data@, old(cursor).pos as int) == Ok::<((Seq<char>, MetaModel), int), GgufFault>(
                ((p.0@, p.1.view()), final(cursor).pos as int),
            ),
            Err(e) => entry_at(old(cursor).data@, old(cursor).pos as int) == Err::<((Seq<char>, MetaModel), int), GgufFault>(e@),
        },
{
    let key: String = match cursor.read_gguf_string() {
        Ok(s) => s,
        Err(e) => {
            return Err(e);
        },
    };
    let kind: u32 = match cursor.read_u32() {
        Ok(v) => v,
        Err(e) => {
            return Err(e);
        },
    };
    match read_metadata_value(cursor, kind) {
        Ok(v) => Ok((key, v)),
        Err(e) => Err(e),
    }
}

/// Reads named values.
fn read_entries(cursor: &mut Cursor<'_>, n: u64) -> (r: Result<Vec<(String, MetadataValue)>, GgufError>)
    requires
        old(cursor).wf(),
    ensures
        final(cursor).wf(),
        final(cursor).data == old(cursor).data,
        match r {
            Ok(v) => entries_at(old(cursor).data@, old(cursor).pos as int, n as nat) == Ok::<
                (Seq<(Seq<char>, MetaModel)>, int),
                GgufFault,
            >((entries(v@), final(cursor).pos as int)),
            Err(e) => entries_at(old(cursor).data@, old(cursor).pos as int, n as nat) == Err::<
                (Seq<(Seq<char>, MetaModel)>, int),
                GgufFault,
            >(e@),
        },
{
    let ghost data = cursor.data@;
    let ghost whole = entries_at(data, cursor.pos as int, n as nat);
    let mut list: Vec<(String, MetadataValue)> = Vec::new();
    let mut i: u64 = 0;
    proof {
        match whole {
            Ok((rest, _)) => {
                assert(entries(list@) + rest =~= rest);
            },
            Err(_) => {},
        }
    }
    while i < n
        invariant
            cursor.wf(),
            cursor.data == old(cursor).data,
            data == cursor.data@,
            i <= n,
            whole == entries_at(data, old(cursor).pos as int, n as nat),
            match entries_at(data, cursor.pos as int, (n - i) as nat) {
                Ok((rest, end)) => whole == Ok::<(Seq<(Seq<char>, MetaModel)>, int), GgufFault>((entries(list@) + rest, end)),
                Err(f) => whole == Err::<(Seq<(Seq<char>, MetaModel)>, int), GgufFault>(f),
            },
        decreases n - i,
    {
        let ghost held = entries(list@);
        match read_entry(cursor) {
            Ok(p) => {
                let ghost one = (p.0@, p.1.view());
                list.push(p);
                proof {
                    assert(entries(list@) =~= held.push(one));
                    match entries_at(data, cursor.pos as int, (n - i - 1) as nat) {
                        Ok((rest, _)) => {
                            assert(held + (seq![one] + rest) =~= entries(list@) + rest);
                        },
                        Err(_) => {},
                    }
                }
            },
            Err(e) => {
                return Err(e);
            },
        }
        i = i + 1;
    }
    assert(entries(list@) + Seq::<(Seq<char>, MetaModel)>::empty() =~= entries(list@));
    Ok(list)
}

/// Reads what is said of a tensor.
fn read_info(cursor: &mut Cursor<'_>) -> (r: Result<GgufTensorInfo, GgufError>)
    requires
        old(cursor).wf(),
    ensures
        final(cursor).wf(),
        final(cursor).data == old(cursor).data,
        match r {
            Ok(t) => info_at(old(cursor).data@, old(cursor).pos as int) == Ok::<(GgufInfoModel, int), GgufFault>(
                (t@, final(cursor).pos as int),
            ),
            Err(e) => info_at(old(cursor).data@, old(cursor).pos as int) == Err::<(GgufInfoModel, int), GgufFault>(e@),
        },
{
    let ghost data = cursor.data@;
    let name: String = match cursor.read_gguf_string() {
        Ok(s) => s,
        Err(e) => {
            return Err(e);
        },
    };
    let ghost p = cursor.pos as int;
    let n_dimensions: u32 = match cursor.read_u32() {
        Ok(v) => v,
        Err(e) => {
            return Err(e);
        },
    };
    let mut dimensions: Vec<u64> = Vec::new();
    let mut i: u32 = 0;
    while i < n_dimensions
        invariant
            cursor.wf(),
            cursor.data == old(cursor).data,
            data == cursor.data@,
            text_at(data, old(cursor).pos as int) == Ok::<(Seq<char>, int), GgufFault>((name@, p)),
            n_dimensions == bytes::le32(data, p),
            p + 4 <= data.len(),
            cursor.pos == p + 4 + 8 * i,
            i <= n_dimensions,
            dimensions@.len() == i,
            forall|j: int| 0 <= j < i ==> #[trigger] dimensions@[j] == bytes::le64(data, p + 4 + 8 * j),
        decreases n_dimensions - i,
    {
        match cursor.read_u64() {
            Ok(v) => {
                dimensions.push(v);
            },
            Err(e) => {
                return Err(e);
            },
        }
        i = i + 1;
    }
    assert(dimensions@ =~= numbers(data, p + 4, n_dimensions as nat));
    let ggml_type_id: u32 = match cursor.read_u32() {
        Ok(v) => v,
        Err(e) => {
            return Err(e);
        },
    };
    let ggml_type: GgmlType = match GgmlType::from_u32(ggml_type_id) {
        Some(t) => t,
        None => {
            return Err(GgufError::InvalidGgmlType(ggml_type_id));
        },
    };
    proof {
        codes_differ(type_of(ggml_type_id).unwrap(), ggml_type);
    }
    match cursor.read_u64() {
        Ok(offset) => Ok(GgufTensorInfo { name, n_dimensions, dimensions, ggml_type, offset }),
        Err(e) => Err(e),
    }
}

/// Reads what is said of tensors.
fn read_infos(cursor: &mut Cursor<'_>, n: u64) -> (r: Result<Vec<GgufTensorInfo>, GgufError>)
    requires
        old(cursor).wf(),
    ensures
        final(cursor).wf(),
        final(cursor).data == old(cursor).data,
        match r {
            Ok(v) => infos_at(old(cursor).data@, old(cursor).pos as int, n as nat) == Ok::<(Seq<GgufInfoModel>, int), GgufFault>(
                (tensor_models(v@), final(cursor).pos as int),
            ),
            Err(e) => infos_at(old(cursor).data@, old(cursor).pos as int, n as nat) == Err::<(Seq<GgufInfoModel>, int), GgufFault>(e@),
        },
{
    let ghost data = cursor.data@;
    let ghost whole = infos_at(data, cursor.pos as int, n as nat);
    let mut list: Vec<GgufTensorInfo> = Vec::new();
    let mut i: u64 = 0;
    proof {
        match whole {
            Ok((rest, _)) => {
                assert(tensor_models(list@) + rest =~= rest);
            },
            Err(_) => {},
        }
    }
    while i < n
        invariant
            cursor.wf(),
            cursor.data == old(cursor).data,
            data == cursor.data@,
            i <= n,
            whole == infos_at(data, old(cursor).pos as int, n as nat),
            match infos_at(data, cursor.pos as int, (n - i) as nat) {
                Ok((rest, end)) => whole == Ok::<(Seq<GgufInfoModel>, int), GgufFault>((tensor_models(list@) + rest, end)),
                Err(f) => whole == Err::<(Seq<GgufInfoModel>, int), GgufFault>(f),
            },
        decreases n - i,
    {
        let ghost held = tensor_models(list@);
        match read_info(cursor) {
            Ok(t) => {
                let ghost one = t@;
                list.push(t);
                proof {
                    assert(tensor_models(list@) =~= held.push(one));
                    match infos_at(data, cursor.pos as int, (n - i - 1) as nat) {
                        Ok((rest, _)) => {
                            assert(held + (seq![one] + rest) =~= tensor_models(list@) + rest);
                        },
                        Err(_) => {},
                    }
                }
            },
            Err(e) => {
                return Err(e);
            },
        }
        i = i + 1;
    }
    assert(tensor_models(list@) + Seq::<GgufInfoModel>::empty() =~= tensor_models(list@));
    Ok(list)
}

/// Finds the value under a key; the last one counts.
pub fn look_up<'a>(list: &'a Vec<(String, MetadataValue)>, key: &str) -> (r: Option<&'a MetadataValue>)
    ensures
        match r {
            Some(v) => last_entry(entries(list@), key@) == Some(v.view()),
            None => last_entry(entries(list@), key@) is None,
        },
{
    let ghost model = entries(list@);
    let mut i: usize = list.len();
    assert(model.take(i as int) =~= model);
    while i > 0
        invariant
            model == entries(list@),
            i <= list@.len(),
            last_entry(model, key@) == last_entry(model.take(i as int), key@),
        decreases i,
    {
        i = i - 1;
        assert(model.take(i + 1).drop_last() =~= model.take(i as int));
        assert(model.take(i + 1).last() == model[i as int]);
        if text::same(&list[i].0, key) {
            return Some(&list[i].1);
        }
    }
    None
}

impl GgufHeader {
    /// Reads the header of a file; gives the place after it too.
    pub fn read(data: &[u8]) -> (r: Result<(GgufHeader, usize), GgufError>)
        ensures
            match r {
                Ok(p) => header_at(data@) == Ok::<(GgufModel, int), GgufFault>((p.0@, p.1 as int)) && p.1 <= data@.len(),
                Err(e) => header_at(data@) == Err::<(GgufModel, int), GgufFault>(e@),
            },
    {
        let mut cursor: Cursor<'_> = Cursor::new(data);
        let magic: u32 = match cursor.read_u32() {
            Ok(v) => v,
            Err(e) => {
                return Err(e);
            },
        };
        if magic != GGUF_MAGIC {
            return Err(GgufError::InvalidMagic);
        }
        let version: u32 = match cursor.read_u32() {
            Ok(v) => v,
            Err(e) => {
                return Err(e);
            },
        };
        if !(2 <= version && version <= 3) {
            return Err(GgufError::UnsupportedVersion(version));
        }
        let tensor_count: u64 = match cursor.read_u64() {
            Ok(v) => v,
            Err(e) => {
                return Err(e);
            },
        };
        let metadata_kv_count: u64 = match cursor.read_u64() {
            Ok(v) => v,
            Err(e) => {
                return Err(e);
            },
        };
        let metadata: Vec<(String, MetadataValue)> = match read_entries(&mut cursor, metadata_kv_count) {
            Ok(v) => v,
            Err(e) => {
                return Err(e);
            },
        };
        let alignment: u64 = match look_up(&metadata, "general.alignment") {
            Some(v) => match v.as_u64() {
                Some(n) => n,
                None => GGUF_DEFAULT_ALIGNMENT,
            },
            None => GGUF_DEFAULT_ALIGNMENT,
        };
        match read_infos(&mut cursor, tensor_count) {
            Ok(tensor_infos) => Ok((GgufHeader { version, tensor_count, metadata, tensor_infos, alignment }, cursor.pos)),
            Err(e) => Err(e),
        }
    }
}

} // verus!
