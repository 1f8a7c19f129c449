//! What is written into a GGUF file is read back.
use super::gguf;
use super::gguf::{GgmlType, GgufInfoModel, GgufModel, MetaModel};
use crate::bytes;
use crate::text;
use vstd::prelude::*;

verus! {

/// The bytes stand in the data from a place on.
#[verifier::opaque]
pub open spec fn stands(data: Seq<u8>, pos: int, part: Seq<u8>) -> bool {
    &&& 0 <= pos
    &&& pos + part.len() <= data.len()
    &&& forall|k: int| 0 <= k < part.len() ==> #[trigger] part[k] == data[pos + k]
}

/// So many bytes of a number, the lowest first.
pub open spec fn low_first(x: int, n: nat) -> Seq<u8>
    decreases n,
{
    if n == 0 {
        Seq::empty()
    } else {
        seq![(x % 256) as u8] + low_first(x / 256, (n - 1) as nat)
    }
}

/// A text: how many bytes it has, and the bytes.
pub open spec fn text_bytes(s: Seq<char>) -> Seq<u8> {
    low_first(vstd::utf8::encode_utf8(s).len() as int, 8) + vstd::utf8::encode_utf8(s)
}

/// The number that stands for the kind of a value.
pub open spec fn kind_of(m: MetaModel) -> int {
    match m {
        MetaModel::Uint8(_) => 0,
        MetaModel::Int8(_) => 1,
        MetaModel::Uint16(_) => 2,
        MetaModel::Int16(_) => 3,
        MetaModel::Uint32(_) => 4,
        MetaModel::Int32(_) => 5,
        MetaModel::Float32(_) => 6,
        MetaModel::Bool(_) => 7,
        MetaModel::Text(_) => 8,
        MetaModel::Array(_) => 9,
        MetaModel::Uint64(_) => 10,
        MetaModel::Int64(_) => 11,
        MetaModel::Float64(_) => 12,
    }
}

/// The bytes of a value.
pub open spec fn value_bytes(m: MetaModel) -> Seq<u8>
    decreases m,
{
    match m {
        MetaModel::Uint8(v) => low_first(v as int, 1),
        MetaModel::Int8(v) => low_first(v as int, 1),
        MetaModel::Uint16(v) => low_first(v as int, 2),
        MetaModel::Int16(v) => low_first(v as int, 2),
        MetaModel::Uint32(v) => low_first(v as int, 4),
        MetaModel::Int32(v) => low_first(v as int, 4),
        MetaModel::Float32(v) => low_first(v as int, 4),
        MetaModel::Bool(v) => low_first(if v { 1 } else { 0 }, 1),
        MetaModel::Text(s) => text_bytes(s),
        MetaModel::Array(list) => low_first(
            if list.len() > 0 {
                kind_of(list[0])
            } else {
                0
            },
            4,
        ) + low_first(list.len() as int, 8) + values_bytes(list),
        MetaModel::Uint64(v) => low_first(v as int, 8),
        MetaModel::Int64(v) => low_first(v as int, 8),
        MetaModel::Float64(v) => low_first(v as int, 8),
    }
}

/// The bytes of values, one after another.
pub open spec fn values_bytes(list: Seq<MetaModel>) -> Seq<u8>
    decreases list,
{
    if list.len() == 0 {
        Seq::empty()
    } else {
        value_bytes(list[0]) + values_bytes(list.drop_first())
    }
}

/// A text has no more bytes than can be counted.
pub open spec fn text_writable(s: Seq<char>) -> bool {
    vstd::utf8::encode_utf8(s).len() <= u64::MAX
}

/// A value can be written: texts and lists can be counted, and the values of a list are of one kind.
pub open spec fn writable(m: MetaModel) -> bool
    decreases m,
{
    match m {
        MetaModel::Text(s) => text_writable(s),
        MetaModel::Array(list) => list.len() <= u64::MAX && all_writable(list),
        _ => true,
    }
}

/// All values can be written, and are of the kind of the first.
pub open spec fn all_writable(list: Seq<MetaModel>) -> bool
    decreases list,
{
    list.len() > 0 ==> {
        &&& writable(list[0])
        &&& list.len() > 1 ==> kind_of(list[1]) == kind_of(list[0])
        &&& all_writable(list.drop_first())
    }
}

/// Bytes that stand in the data do so part by part.
pub proof fn stands_in_two(data: Seq<u8>, pos: int, a: Seq<u8>, b: Seq<u8>)
    requires
        stands(data, pos, a + b),
    ensures
        stands(data, pos, a),
        stands(data, pos + a.len(), b),
        0 <= pos,
        pos + a.len() + b.len() <= data.len(),
{
    reveal(stands);
    assert forall|k: int| 0 <= k < a.len() implies #[trigger] a[k] == data[pos + k] by {
        assert((a + b)[k] == a[k]);
    }
    assert forall|k: int| 0 <= k < b.len() implies #[trigger] b[k] == data[pos + a.len() + k] by {
        assert((a + b)[a.len() + k] == b[k]);
    }
}

/// Bytes that stand in the data are a part of it.
pub proof fn stands_as_part(data: Seq<u8>, pos: int, part: Seq<u8>)
    requires
        stands(data, pos, part),
    ensures
        0 <= pos,
        pos + part.len() <= data.len(),
        data.subrange(pos, pos + part.len()) == part,
{
    reveal(stands);
    assert(data.subrange(pos, pos + part.len()) =~= part);
}

/// So many bytes are written as are asked for.
pub proof fn low_first_len(x: int, n: nat)
    ensures
        low_first(x, n).len() == n,
    decreases n,
{
    if n > 0 {
        low_first_len(x / 256, (n - 1) as nat);
    }
}

proof fn one_reads_back(data: Seq<u8>, pos: int, x: int)
    requires
        stands(data, pos, low_first(x, 1)),
    ensures
        0 <= pos,
        pos + 1 <= data.len(),
        data[pos] == x % 256,
{
    reveal_with_fuel(low_first, 2);
    let b = low_first(x, 1);
    stands_as_part(data, pos, b);
    assert(data.subrange(pos, pos + 1)[0] == b[0]);
}

proof fn two_read_back(data: Seq<u8>, pos: int, x: int)
    requires
        stands(data, pos, low_first(x, 2)),
    ensures
        0 <= pos,
        pos + 2 <= data.len(),
        bytes::le16(data, pos) == x % 0x1_0000,
{
    reveal_with_fuel(low_first, 3);
    let b = low_first(x, 2);
    assert(b =~= low_first(x, 1) + low_first(x / 256, 1));
    stands_in_two(data, pos, low_first(x, 1), low_first(x / 256, 1));
    one_reads_back(data, pos, x);
    one_reads_back(data, pos + 1, x / 256);
}

proof fn two_first(x: int, n: nat)
    ensures
        low_first(x, n + 2) == low_first(x, 2) + low_first(x / 0x1_0000, n),
{
    assert(x / 256 / 256 == x / 0x1_0000);
    let y = x / 256;
    assert(low_first(x, n + 2) == seq![(x % 256) as u8] + low_first(y, n + 1));
    assert(low_first(y, n + 1) == seq![(y % 256) as u8] + low_first(y / 256, n));
    reveal_with_fuel(low_first, 3);
    assert(low_first(x, 2) =~= seq![(x % 256) as u8, (y % 256) as u8]);
    assert(low_first(x, n + 2) =~= low_first(x, 2) + low_first(x / 0x1_0000, n));
}

proof fn four_read_back(data: Seq<u8>, pos: int, x: int)
    requires
        stands(data, pos, low_first(x, 4)),
    ensures
        0 <= pos,
        pos + 4 <= data.len(),
        bytes::le32(data, pos) == x % 0x1_0000_0000,
{
    let y = x / 0x1_0000;
    two_first(x, 2);
    low_first_len(x, 2);
    low_first_len(y, 2);
    stands_in_two(data, pos, low_first(x, 2), low_first(y, 2));
    two_read_back(data, pos, x);
    two_read_back(data, pos + 2, y);
}

/// The eight bytes of a number, the lowest first, hold the number.
pub proof fn eight_read_back(data: Seq<u8>, pos: int, x: int)
    requires
        stands(data, pos, low_first(x, 8)),
    ensures
        0 <= pos,
        pos + 8 <= data.len(),
        bytes::le64(data, pos) == x % 0x1_0000_0000_0000_0000,
{
    let y = x / 0x1_0000;
    let z = x / 0x1_0000_0000;
    assert(y / 0x1_0000 == z);
    two_first(x, 6);
    two_first(y, 4);
    two_first(x, 2);
    assert(low_first(x, 8) =~= low_first(x, 4) + low_first(z, 4));
    low_first_len(x, 4);
    low_first_len(z, 4);
    stands_in_two(data, pos, low_first(x, 4), low_first(z, 4));
    four_read_back(data, pos, x);
    four_read_back(data, pos + 4, z);
}

/// A text that stands in the data is read as it is.
pub proof fn text_is_read_back(data: Seq<u8>, pos: int, s: Seq<char>)
    requires
        stands(data, pos, text_bytes(s)),
        text_writable(s),
    ensures
        gguf::text_at(data, pos) == Ok::<(Seq<char>, int), gguf::GgufFault>((s, pos + text_bytes(s).len())),
        text_bytes(s).len() >= 8,
{
    let coded = vstd::utf8::encode_utf8(s);
    low_first_len(coded.len() as int, 8);
    stands_in_two(data, pos, low_first(coded.len() as int, 8), coded);
    eight_read_back(data, pos, coded.len() as int);
    stands_as_part(data, pos + 8, coded);
    vstd::utf8::encode_utf8_valid_utf8(s);
    vstd::utf8::encode_utf8_decode_utf8(s);
}

proof fn fixed_is_read_back(data: Seq<u8>, pos: int, m: MetaModel)
    requires
        stands(data, pos, value_bytes(m)),
        !(m is Text),
        !(m is Array),
    ensures
        gguf::width_of(kind_of(m) as u32) == value_bytes(m).len() > 0,
        gguf::fixed_value(data, pos, kind_of(m) as u32) == m,
        0 <= pos,
        pos + value_bytes(m).len() <= data.len(),
{
    match m {
        MetaModel::Uint8(v) => {
            low_first_len(v as int, 1);
            one_reads_back(data, pos, v as int);
        },
        MetaModel::Int8(v) => {
            low_first_len(v as int, 1);
            one_reads_back(data, pos, v as int);
        },
        MetaModel::Bool(v) => {
            low_first_len(if v { 1 } else { 0 }, 1);
            one_reads_back(data, pos, if v { 1 } else { 0 });
        },
        MetaModel::Uint16(v) => {
            low_first_len(v as int, 2);
            two_read_back(data, pos, v as int);
        },
        MetaModel::Int16(v) => {
            low_first_len(v as int, 2);
            two_read_back(data, pos, v as int);
        },
        MetaModel::Uint32(v) => {
            low_first_len(v as int, 4);
            four_read_back(data, pos, v as int);
        },
        MetaModel::Int32(v) => {
            low_first_len(v as int, 4);
            four_read_back(data, pos, v as int);
        },
        MetaModel::Float32(v) => {
            low_first_len(v as int, 4);
            four_read_back(data, pos, v as int);
        },
        MetaModel::Uint64(v) => {
            low_first_len(v as int, 8);
            eight_read_back(data, pos, v as int);
        },
        MetaModel::Int64(v) => {
            low_first_len(v as int, 8);
            eight_read_back(data, pos, v as int);
        },
        MetaModel::Float64(v) => {
            low_first_len(v as int, 8);
            eight_read_back(data, pos, v as int);
        },
        _ => {},
    }
}

proof fn list_is_read_back(data: Seq<u8>, pos: int, list: Seq<MetaModel>, end: int)
    requires
        0 <= pos,
        pos + 12 <= data.len(),
        list.len() > 0 ==> bytes::le32(data, pos) == kind_of(list[0]),
        bytes::le64(data, pos + 4) == list.len(),
        gguf::values_at(data, pos + 12, bytes::le32(data, pos) as u32, list.len()) == Ok::<(Seq<MetaModel>, int), gguf::GgufFault>((list, end)),
    ensures
        gguf::value_at(data, pos, 9) == Ok::<(MetaModel, int), gguf::GgufFault>((MetaModel::Array(list), end)),
{
}

/// A value that stands in the data is read as it is, and reading goes on behind it.
#[verifier::spinoff_prover]
#[verifier::rlimit(40)]
pub proof fn value_is_read_back(data: Seq<u8>, pos: int, m: MetaModel)
    requires
        stands(data, pos, value_bytes(m)),
        writable(m),
    ensures
        gguf::value_at(data, pos, kind_of(m) as u32) == Ok::<(MetaModel, int), gguf::GgufFault>((m, pos + value_bytes(m).len())),
        value_bytes(m).len() > 0,
    decreases m, 0nat,
{
    if let MetaModel::Text(s) = m {
        text_is_read_back(data, pos, s);
    } else if let MetaModel::Array(list) = m {
        let k = if list.len() > 0 {
            kind_of(list[0])
        } else {
            0
        };
        let a = low_first(k, 4);
        let b = low_first(list.len() as int, 8);
        low_first_len(k, 4);
        low_first_len(list.len() as int, 8);
        assert(value_bytes(m) == a + b + values_bytes(list));
        stands_in_two(data, pos, a + b, values_bytes(list));
        stands_in_two(data, pos, a, b);
        four_read_back(data, pos, k);
        eight_read_back(data, pos + 4, list.len() as int);
        values_are_read_back(data, pos + 12, k as u32, list);
        list_is_read_back(data, pos, list, pos + 12 + values_bytes(list).len());
    } else {
        fixed_is_read_back(data, pos, m);
    }
}

/// Values that stand in the data one after another are read as they are.
pub proof fn values_are_read_back(data: Seq<u8>, pos: int, kind: u32, list: Seq<MetaModel>)
    requires
        stands(data, pos, values_bytes(list)),
        all_writable(list),
        list.len() > 0 ==> kind == kind_of(list[0]),
    ensures
        gguf::values_at(data, pos, kind, list.len()) == Ok::<(Seq<MetaModel>, int), gguf::GgufFault>((list, pos + values_bytes(list).len())),
    decreases list, 1nat,
{
    if list.len() > 0 {
        let rest = list.drop_first();
        stands_in_two(data, pos, value_bytes(list[0]), values_bytes(rest));
        value_is_read_back(data, pos, list[0]);
        values_are_read_back(data, pos + value_bytes(list[0]).len(), kind, rest);
        assert(seq![list[0]] + rest =~= list);
    } else {
        assert(list =~= Seq::<MetaModel>::empty());
    }
}

/// A named value: its name, the number of its kind, and its bytes.
pub open spec fn entry_bytes(e: (Seq<char>, MetaModel)) -> Seq<u8> {
    text_bytes(e.0) + low_first(kind_of(e.1), 4) + value_bytes(e.1)
}

/// Named values, one after another.
pub open spec fn entries_bytes(list: Seq<(Seq<char>, MetaModel)>) -> Seq<u8>
    decreases list.len(),
{
    if list.len() == 0 {
        Seq::empty()
    } else {
        entry_bytes(list[0]) + entries_bytes(list.drop_first())
    }
}

proof fn entry_is_read_back(data: Seq<u8>, pos: int, e: (Seq<char>, MetaModel))
    requires
        stands(data, pos, entry_bytes(e)),
        text_writable(e.0),
        writable(e.1),
    ensures
        gguf::entry_at(data, pos) == Ok::<((Seq<char>, MetaModel), int), gguf::GgufFault>((e, pos + entry_bytes(e).len())),
{
    let p = pos + text_bytes(e.0).len();
    let k = low_first(kind_of(e.1), 4);
    low_first_len(kind_of(e.1), 4);
    stands_in_two(data, pos, text_bytes(e.0) + k, value_bytes(e.1));
    stands_in_two(data, pos, text_bytes(e.0), k);
    text_is_read_back(data, pos, e.0);
    four_read_back(data, p, kind_of(e.1));
    value_is_read_back(data, p + 4, e.1);
}

/// Named values that stand in the data are read as they are.
pub proof fn entries_are_read_back(data: Seq<u8>, pos: int, list: Seq<(Seq<char>, MetaModel)>)
    requires
        stands(data, pos, entries_bytes(list)),
        forall|i: int| 0 <= i < list.len() ==> text_writable(#[trigger] list[i].0) && writable(list[i].1),
    ensures
        gguf::entries_at(data, pos, list.len()) == Ok::<(Seq<(Seq<char>, MetaModel)>, int), gguf::GgufFault>(
            (list, pos + entries_bytes(list).len()),
        ),
    decreases list.len(),
{
    if list.len() > 0 {
        let e = list[0];
        let rest = list.drop_first();
        stands_in_two(data, pos, entry_bytes(e), entries_bytes(rest));
        entry_is_read_back(data, pos, e);
        assert forall|i: int| 0 <= i < rest.len() implies text_writable(#[trigger] rest[i].0) && writable(rest[i].1) by {
            assert(rest[i] == list[i + 1]);
        }
        entries_are_read_back(data, pos + entry_bytes(e).len(), rest);
        assert(seq![e] + rest =~= list);
    } else {
        assert(list =~= Seq::<(Seq<char>, MetaModel)>::empty());
    }
}

/// The number that stands for a type of tensor.
pub open spec fn type_number(t: GgmlType) -> int {
    match t {
        GgmlType::F32 => 0,
        GgmlType::F16 => 1,
        GgmlType::Q4_0 => 2,
        GgmlType::Q4_1 => 3,
        GgmlType::Q5_0 => 6,
        GgmlType::Q5_1 => 7,
        GgmlType::Q8_0 => 8,
        GgmlType::Q8_1 => 9,
        GgmlType::Q2K => 10,
        GgmlType::Q3K => 11,
        GgmlType::Q4K => 12,
        GgmlType::Q5K => 13,
        GgmlType::Q6K => 14,
        GgmlType::Q8K => 15,
        GgmlType::I8 => 24,
        GgmlType::I16 => 25,
        GgmlType::I32 => 26,
        GgmlType::BF16 => 30,
    }
}

/// Numbers of 64 bits, one after another.
pub open spec fn numbers_bytes(list: Seq<u64>) -> Seq<u8>
    decreases list.len(),
{
    if list.len() == 0 {
        Seq::empty()
    } else {
        low_first(list[0] as int, 8) + numbers_bytes(list.drop_first())
    }
}

proof fn numbers_are_read_back(data: Seq<u8>, pos: int, list: Seq<u64>)
    requires
        stands(data, pos, numbers_bytes(list)),
    ensures
        gguf::numbers(data, pos, list.len()) == list,
        numbers_bytes(list).len() == 8 * list.len(),
    decreases list.len(),
{
    if list.len() > 0 {
        let rest = list.drop_first();
        low_first_len(list[0] as int, 8);
        stands_in_two(data, pos, low_first(list[0] as int, 8), numbers_bytes(rest));
        eight_read_back(data, pos, list[0] as int);
        numbers_are_read_back(data, pos + 8, rest);
        assert forall|i: int| 0 <= i < list.len() implies gguf::numbers(data, pos, list.len())[i] == list[i] by {
            if i > 0 {
                assert(gguf::numbers(data, pos + 8, rest.len())[i - 1] == rest[i - 1]);
                assert(pos + 8 + 8 * (i - 1) == pos + 8 * i);
            }
        }
    }
    assert(gguf::numbers(data, pos, list.len()) =~= list);
}

/// What is said of a tensor: its name, how many dimensions it has, the dimensions, the number of its
/// type, and where its data lie.
pub open spec fn info_bytes(t: GgufInfoModel) -> Seq<u8> {
    text_bytes(t.name) + low_first(t.n_dimensions as int, 4) + numbers_bytes(t.dimensions) + low_first(type_number(t.ggml_type), 4)
        + low_first(t.offset as int, 8)
}

/// What is said of tensors, one after another.
pub open spec fn infos_bytes(list: Seq<GgufInfoModel>) -> Seq<u8>
    decreases list.len(),
{
    if list.len() == 0 {
        Seq::empty()
    } else {
        info_bytes(list[0]) + infos_bytes(list.drop_first())
    }
}

/// What is said of a tensor can be written: its name can be counted, and it says how many dimensions
/// it has.
pub open spec fn info_writable(t: GgufInfoModel) -> bool {
    text_writable(t.name) && t.n_dimensions == t.dimensions.len()
}

proof fn info_is_read_back(data: Seq<u8>, pos: int, t: GgufInfoModel)
    requires
        stands(data, pos, info_bytes(t)),
        info_writable(t),
    ensures
        gguf::info_at(data, pos) == Ok::<(GgufInfoModel, int), gguf::GgufFault>((t, pos + info_bytes(t).len())),
{
    let a = text_bytes(t.name);
    let b = low_first(t.n_dimensions as int, 4);
    let c = numbers_bytes(t.dimensions);
    let d = low_first(type_number(t.ggml_type), 4);
    let e = low_first(t.offset as int, 8);
    stands_in_two(data, pos, a + b + c + d, e);
    stands_in_two(data, pos, a + b + c, d);
    stands_in_two(data, pos, a + b, c);
    stands_in_two(data, pos, a, b);
    low_first_len(t.n_dimensions as int, 4);
    low_first_len(type_number(t.ggml_type), 4);
    low_first_len(t.offset as int, 8);
    text_is_read_back(data, pos, t.name);
    let p = pos + a.len();
    four_read_back(data, p, t.n_dimensions as int);
    numbers_are_read_back(data, p + 4, t.dimensions);
    let q = p + 4 + 8 * t.dimensions.len();
    four_read_back(data, q, type_number(t.ggml_type));
    eight_read_back(data, q + 4, t.offset as int);
    let code = type_number(t.ggml_type) as u32;
    assert(t.ggml_type.code() == code);
    let found = gguf::type_of(code).unwrap();
    gguf::codes_differ(found, t.ggml_type);
}

/// What is said of tensors is read as it is.
pub proof fn infos_are_read_back(data: Seq<u8>, pos: int, list: Seq<GgufInfoModel>)
    requires
        stands(data, pos, infos_bytes(list)),
        forall|i: int| 0 <= i < list.len() ==> info_writable(#[trigger] list[i]),
    ensures
        gguf::infos_at(data, pos, list.len()) == Ok::<(Seq<GgufInfoModel>, int), gguf::GgufFault>((list, pos + infos_bytes(list).len())),
    decreases list.len(),
{
    if list.len() > 0 {
        let rest = list.drop_first();
        stands_in_two(data, pos, info_bytes(list[0]), infos_bytes(rest));
        info_is_read_back(data, pos, list[0]);
        assert forall|i: int| 0 <= i < rest.len() implies info_writable(#[trigger] rest[i]) by {
            assert(rest[i] == list[i + 1]);
        }
        infos_are_read_back(data, pos + info_bytes(list[0]).len(), rest);
        assert(seq![list[0]] + rest =~= list);
    } else {
        assert(list =~= Seq::<GgufInfoModel>::empty());
    }
}

/// A header: the letters GGUF, the version, how many tensors and how many named values there are,
/// the named values, the tensors.
pub open spec fn header_bytes(m: GgufModel) -> Seq<u8> {
    seq![0x47u8, 0x47u8, 0x55u8, 0x46u8] + low_first(m.version as int, 4) + low_first(m.tensors.len() as int, 8) + low_first(
        m.metadata.len() as int,
        8,
    ) + entries_bytes(m.metadata) + infos_bytes(m.tensors)
}

proof fn front_is_read_back(data: Seq<u8>, m: GgufModel)
    requires
        stands(data, 0, header_bytes(m)),
        m.metadata.len() <= u64::MAX,
        m.tensors.len() <= u64::MAX,
    ensures
        data.len() >= 24,
        bytes::le32(data, 0) == gguf::GGUF_MAGIC,
        bytes::le32(data, 4) == m.version,
        bytes::le64(data, 8) == m.tensors.len(),
        bytes::le64(data, 16) == m.metadata.len(),
        stands(data, 24, entries_bytes(m.metadata)),
        stands(data, 24int + entries_bytes(m.metadata).len(), infos_bytes(m.tensors)),
        header_bytes(m).len() == 24 + entries_bytes(m.metadata).len() + infos_bytes(m.tensors).len(),
{
    let a = seq![0x47u8, 0x47u8, 0x55u8, 0x46u8];
    let b = low_first(m.version as int, 4);
    let c = low_first(m.tensors.len() as int, 8);
    let d = low_first(m.metadata.len() as int, 8);
    let e = entries_bytes(m.metadata);
    let f = infos_bytes(m.tensors);
    low_first_len(m.version as int, 4);
    low_first_len(m.tensors.len() as int, 8);
    low_first_len(m.metadata.len() as int, 8);
    stands_in_two(data, 0, a + b + c + d + e, f);
    stands_in_two(data, 0, a + b + c + d, e);
    stands_in_two(data, 0, a + b + c, d);
    stands_in_two(data, 0, a + b, c);
    stands_in_two(data, 0, a, b);
    stands_as_part(data, 0, a);
    let front = data.subrange(0, 4);
    assert(a[0] == front[0] && a[1] == front[1] && a[2] == front[2] && a[3] == front[3]);
    four_read_back(data, 4, m.version as int);
    eight_read_back(data, 8, m.tensors.len() as int);
    eight_read_back(data, 16, m.metadata.len() as int);
}

/// A header that a file starts with is read as it is, and the place behind it is known; so it is
/// for every version from two to three, and for no other.
pub proof fn header_is_read_back(data: Seq<u8>, m: GgufModel)
    requires
        stands(data, 0, header_bytes(m)),
        m.metadata.len() <= u64::MAX,
        m.tensors.len() <= u64::MAX,
        forall|i: int| 0 <= i < m.metadata.len() ==> text_writable(#[trigger] m.metadata[i].0) && writable(m.metadata[i].1),
        forall|i: int| 0 <= i < m.tensors.len() ==> info_writable(#[trigger] m.tensors[i]),
    ensures
        2 <= m.version <= 3 ==> (gguf::header_at(data) matches Ok((h, end)) && {
            &&& h.version == m.version
            &&& h.tensor_count == m.tensors.len()
            &&& h.metadata == m.metadata
            &&& h.tensors == m.tensors
            &&& end == header_bytes(m).len()
        }),
        !(2 <= m.version <= 3) ==> gguf::header_at(data) == Err::<(GgufModel, int), gguf::GgufFault>(gguf::GgufFault::UnsupportedVersion(m.version)),
{
    front_is_read_back(data, m);
    entries_are_read_back(data, 24, m.metadata);
    infos_are_read_back(data, 24int + entries_bytes(m.metadata).len(), m.tensors);
}

/// A file that does not start with the letters GGUF has no header.
pub proof fn other_files_have_no_header(data: Seq<u8>)
    requires
        data.len() >= 4,
    ensures
        data.take(4) != seq![0x47u8, 0x47u8, 0x55u8, 0x46u8] <==> gguf::header_at(data) == Err::<(GgufModel, int), gguf::GgufFault>(
            gguf::GgufFault::InvalidMagic,
        ),
{
    let a = seq![0x47u8, 0x47u8, 0x55u8, 0x46u8];
    if data.take(4) == a {
        assert(data[0] == a[0] && data[1] == a[1] && data[2] == a[2] && data[3] == a[3]);
        if data.len() >= 24 {
            entries_fail_by_reading(data, 24, bytes::le64(data, 16) as nat);
            match gguf::entries_at(data, 24, bytes::le64(data, 16) as nat) {
                Ok((_, p)) => {
                    infos_fail_by_reading(data, p, bytes::le64(data, 8) as nat);
                },
                Err(_) => {},
            }
        }
    } else {
        assert(data.take(4) != a);
        if data[0] == a[0] && data[1] == a[1] && data[2] == a[2] && data[3] == a[3] {
            assert(data.take(4) =~= a);
        }
    }
}

proof fn value_fails_by_reading(data: Seq<u8>, pos: int, kind: u32, n: nat)
    requires
        0 <= pos <= data.len(),
    ensures
        gguf::value_at(data, pos, kind) matches Err(f) ==> f !is InvalidMagic,
        gguf::values_at(data, pos, kind, n) matches Err(f) ==> f !is InvalidMagic,
    decreases data.len() - pos, n,
{
    if kind == 9 && pos + 12 <= data.len() {
        value_fails_by_reading(data, pos + 12, bytes::le32(data, pos) as u32, bytes::le64(data, pos + 4) as nat);
    }
    gguf::values_take_bytes(data, pos, kind, n);
    if n > 0 {
        match gguf::value_at(data, pos, kind) {
            Ok((_, next)) => {
                value_fails_by_reading(data, next, kind, (n - 1) as nat);
            },
            Err(_) => {},
        }
    }
}

proof fn entries_fail_by_reading(data: Seq<u8>, pos: int, n: nat)
    requires
        0 <= pos <= data.len(),
    ensures
        gguf::entries_at(data, pos, n) matches Err(f) ==> f !is InvalidMagic,
        gguf::entries_at(data, pos, n) matches Ok((_, end)) ==> pos <= end <= data.len(),
    decreases n,
{
    if n > 0 {
        match gguf::text_at(data, pos) {
            Ok((_, p)) => {
                if p + 4 <= data.len() {
                    value_fails_by_reading(data, p + 4, bytes::le32(data, p) as u32, 0);
                    gguf::values_take_bytes(data, p + 4, bytes::le32(data, p) as u32, 0);
                }
            },
            Err(_) => {},
        }
        match gguf::entry_at(data, pos) {
            Ok((_, next)) => {
                entries_fail_by_reading(data, next, (n - 1) as nat);
            },
            Err(_) => {},
        }
    }
}

proof fn infos_fail_by_reading(data: Seq<u8>, pos: int, n: nat)
    ensures
        gguf::infos_at(data, pos, n) matches Err(f) ==> f !is InvalidMagic,
    decreases n,
{
    if n > 0 {
        match gguf::info_at(data, pos) {
            Ok((_, next)) => {
                infos_fail_by_reading(data, next, (n - 1) as nat);
            },
            Err(_) => {},
        }
    }
}

/// Of several values under one name the last one counts; a name that does not occur has none.
pub proof fn last_value_counts(list: Seq<(Seq<char>, MetaModel)>, key: Seq<char>, i: int)
    requires
        -1 <= i < list.len(),
        i >= 0 ==> list[i].0 == key,
        forall|j: int| i < j < list.len() ==> (#[trigger] list[j]).0 != key,
    ensures
        gguf::last_entry(list, key) == (if i >= 0 {
            Some(list[i].1)
        } else {
            None
        }),
    decreases list.len(),
{
    if list.len() > 0 && i < list.len() - 1 {
        assert(list.last() == list[list.len() - 1]);
        let front = list.drop_last();
        assert forall|j: int| i < j < front.len() implies (#[trigger] front[j]).0 != key by {
            assert(front[j] == list[j]);
        }
        last_value_counts(front, key, i);
    }
}

/// The data are aligned as the last value under `general.alignment` says, if it is an integer;
/// otherwise to 32 bytes.
pub proof fn alignment_is_asked_for(list: Seq<(Seq<char>, MetaModel)>, i: int, n: u64)
    requires
        -1 <= i < list.len(),
        i >= 0 ==> list[i].0 == "general.alignment"@,
        forall|j: int| i < j < list.len() ==> (#[trigger] list[j]).0 != "general.alignment"@,
    ensures
        i == -1 ==> gguf::alignment_of(list) == 32,
        i >= 0 && list[i].1 == MetaModel::Uint32(n as u32) ==> gguf::alignment_of(list) == n as u32,
        i >= 0 && list[i].1 == MetaModel::Uint64(n) ==> gguf::alignment_of(list) == n,
        i >= 0 && list[i].1 is Text ==> gguf::alignment_of(list) == 32,
        i >= 0 && list[i].1 is Float32 ==> gguf::alignment_of(list) == 32,
{
    last_value_counts(list, "general.alignment"@, i);
}

/// Integers are taken as they are; negative ones wrap around at 2 to the power of 64.
pub proof fn integers_are_taken_as_they_are(m: MetaModel)
    ensures
        m matches MetaModel::Uint8(v) ==> m.natural() == Some(v as u64),
        m matches MetaModel::Uint16(v) ==> m.natural() == Some(v as u64),
        m matches MetaModel::Uint32(v) ==> m.natural() == Some(v as u64),
        m matches MetaModel::Uint64(v) ==> m.natural() == Some(v),
        m matches MetaModel::Int8(v) ==> (m.natural() matches Some(n) && (n - v) % 0x1_0000_0000_0000_0000 == 0),
        m matches MetaModel::Int16(v) ==> (m.natural() matches Some(n) && (n - v) % 0x1_0000_0000_0000_0000 == 0),
        m matches MetaModel::Int32(v) ==> (m.natural() matches Some(n) && (n - v) % 0x1_0000_0000_0000_0000 == 0),
        m matches MetaModel::Int64(v) ==> (m.natural() matches Some(n) && (n - v) % 0x1_0000_0000_0000_0000 == 0),
        m is Text || m is Bool || m is Array || m is Float32 || m is Float64 ==> m.natural() is None,
{
}

} // verus!
