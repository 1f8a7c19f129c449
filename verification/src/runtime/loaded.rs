//! Tensors that were loaded are worth what the file holds.
use super::gguf::{GgmlType, GgufInfoModel};
use super::gguf_loader;
use super::half;
use super::safetensors;
use super::safetensors::HeaderModel;
use super::worth;
use crate::bytes;
use crate::tensor::tensor::{Tensor, TensorModel};
use vstd::prelude::*;

verus! {

/// The number of a tensor's own bytes in a file, as far as they go.
pub open spec fn pair(data: Seq<u8>, at: int) -> int {
    data[at] + 256 * data[at + 1]
}

/// A byte in two's complement.
pub open spec fn of_byte(b: u8) -> int {
    (b + 128) % 256 - 128
}

/// Four bits in two's complement.
pub open spec fn of_nibble(n: int) -> int {
    (n + 8) % 16 - 8
}

/// The element at a place is worth what the bytes of a tensor say under the name of their type:
/// four bytes are a float, two are its upper half or a half float, one is a part of 127 and half
/// of one, the lower half first, is a part of 7.
pub open spec fn stored_right(dtype: Seq<char>, data: Seq<u8>, start: int, i: int, bits: int) -> bool {
    &&& (dtype == "F32"@ || dtype == "float32"@ || dtype == "Float32"@) ==> bits == pair(data, start + 4 * i) + 0x1_0000 * pair(
        data,
        start + 4 * i + 2,
    )
    &&& (dtype == "F16"@ || dtype == "float16"@ || dtype == "Float16"@ || dtype == "half"@) ==> worth::like_half(
        bits,
        pair(data, start + 2 * i),
    )
    &&& (dtype == "BF16"@ || dtype == "bfloat16"@ || dtype == "BFloat16"@) ==> bits == 0x1_0000 * pair(data, start + 2 * i)
    &&& (dtype == "I8"@ || dtype == "int8"@ || dtype == "Int8"@) ==> worth::nearest(bits, of_byte(data[start + i]), 127)
    &&& (dtype == "I4"@ || dtype == "int4"@ || dtype == "Int4"@) ==> worth::nearest(
        bits,
        of_nibble(
            if i % 2 == 0 {
                data[start + i / 2] as int % 16
            } else {
                data[start + i / 2] as int / 16
            },
        ),
        7,
    )
    &&& (dtype == "BIT1"@ || dtype == "bit1"@ || dtype == "Bit1"@ || dtype == "1bit"@) ==> bits == (if (data[start + i / 8] >> ((i % 8) as u8)) & 1 == 1 {
        0x3f80_0000int
    } else {
        0xbf80_0000int
    })
}

/// The names of types differ.
proof fn type_names()
    ensures
        safetensors::stored_as("F32"@) == Some(safetensors::Stored::F32),
        safetensors::stored_as("float32"@) == Some(safetensors::Stored::F32),
        safetensors::stored_as("Float32"@) == Some(safetensors::Stored::F32),
        safetensors::stored_as("F16"@) == Some(safetensors::Stored::F16),
        safetensors::stored_as("float16"@) == Some(safetensors::Stored::F16),
        safetensors::stored_as("Float16"@) == Some(safetensors::Stored::F16),
        safetensors::stored_as("half"@) == Some(safetensors::Stored::F16),
        safetensors::stored_as("BF16"@) == Some(safetensors::Stored::BF16),
        safetensors::stored_as("bfloat16"@) == Some(safetensors::Stored::BF16),
        safetensors::stored_as("BFloat16"@) == Some(safetensors::Stored::BF16),
        safetensors::stored_as("I8"@) == Some(safetensors::Stored::I8),
        safetensors::stored_as("int8"@) == Some(safetensors::Stored::I8),
        safetensors::stored_as("Int8"@) == Some(safetensors::Stored::I8),
        safetensors::stored_as("I4"@) == Some(safetensors::Stored::I4),
        safetensors::stored_as("int4"@) == Some(safetensors::Stored::I4),
        safetensors::stored_as("Int4"@) == Some(safetensors::Stored::I4),
        safetensors::stored_as("BIT1"@) == Some(safetensors::Stored::Bit1),
        safetensors::stored_as("bit1"@) == Some(safetensors::Stored::Bit1),
        safetensors::stored_as("Bit1"@) == Some(safetensors::Stored::Bit1),
        safetensors::stored_as("1bit"@) == Some(safetensors::Stored::Bit1),
{
    reveal_strlit("F32");
    reveal_strlit("float32");
    reveal_strlit("Float32");
    reveal_strlit("F16");
    reveal_strlit("float16");
    reveal_strlit("Float16");
    reveal_strlit("half");
    reveal_strlit("BF16");
    reveal_strlit("bfloat16");
    reveal_strlit("BFloat16");
    reveal_strlit("I8");
    reveal_strlit("int8");
    reveal_strlit("Int8");
    reveal_strlit("I4");
    reveal_strlit("int4");
    reveal_strlit("Int4");
    reveal_strlit("BIT1");
    reveal_strlit("bit1");
    reveal_strlit("Bit1");
    reveal_strlit("1bit");
    let f32s = seq!["F32"@, "float32"@, "Float32"@];
    let f16s = seq!["F16"@, "float16"@, "Float16"@, "half"@];
    let bf16s = seq!["BF16"@, "bfloat16"@, "BFloat16"@];
    let i8s = seq!["I8"@, "int8"@, "Int8"@];
    let i4s = seq!["I4"@, "int4"@, "Int4"@];
    let ones = seq!["BIT1"@, "bit1"@, "Bit1"@, "1bit"@];
    assert("F32"@[1] == '3' && "F16"@[1] == '1' && "float32"@[5] == '3' && "Float32"@[5] == '3' && "float16"@[5] == '1' && "Float16"@[5] == '1');
    assert("BF16"@[1] == 'F' && "half"@[0] == 'h' && "BIT1"@[1] == 'I' && "bit1"@[0] == 'b' && "Bit1"@[1] == 'i' && "1bit"@[0] == '1');
    assert("bfloat16"@.len() == 8 && "BFloat16"@.len() == 8);
    assert("I8"@[1] == '8' && "I4"@[1] == '4' && "int8"@[3] == '8' && "int4"@[3] == '4' && "Int8"@[3] == '8' && "Int4"@[3] == '4');
    assert("int8"@[0] == 'i' && "Int8"@[0] == 'I' && "int4"@[0] == 'i' && "Int4"@[0] == 'I' && "BF16"@[0] == 'B' && "BIT1"@[0] == 'B' && "Bit1"@[0] == 'B');
}

/// The same, with the type told apart.
spec fn kind_right(kind: safetensors::Stored, data: Seq<u8>, start: int, i: int, bits: int) -> bool {
    match kind {
        safetensors::Stored::F32 => bits == pair(data, start + 4 * i) + 0x1_0000 * pair(data, start + 4 * i + 2),
        safetensors::Stored::F16 => worth::like_half(bits, pair(data, start + 2 * i)),
        safetensors::Stored::BF16 => bits == 0x1_0000 * pair(data, start + 2 * i),
        safetensors::Stored::I8 => worth::nearest(bits, of_byte(data[start + i]), 127),
        safetensors::Stored::I4 => worth::nearest(
            bits,
            of_nibble(
                if i % 2 == 0 {
                    data[start + i / 2] as int % 16
                } else {
                    data[start + i / 2] as int / 16
                },
            ),
            7,
        ),
        safetensors::Stored::Bit1 => bits == (if (data[start + i / 8] >> ((i % 8) as u8)) & 1 == 1 {
            0x3f80_0000int
        } else {
            0xbf80_0000int
        }),
    }
}

/// The right element of a kind is the right one under each of its names.
proof fn kind_is_named(dtype: Seq<char>, data: Seq<u8>, start: int, i: int, bits: int)
    requires
        safetensors::stored_as(dtype) is Some,
        kind_right(safetensors::stored_as(dtype).unwrap(), data, start, i, bits),
    ensures
        stored_right(dtype, data, start, i, bits),
{
    type_names();
}

/// A decoded element is the right one.
proof fn decoded_right(kind: safetensors::Stored, data: Seq<u8>, start: int, end: int, i: int)
    requires
        kind !is Bit1,
        0 <= start <= end <= data.len(),
        0 <= i < safetensors::held(kind, end - start),
    ensures
        kind_right(kind, data, start, i, safetensors::decoded(kind, data.subrange(start, end), i) as int),
{
    match kind {
        safetensors::Stored::F16 => {
            worth::half_is_worth_the_same(pair(data, start + 2 * i) as u16);
        },
        safetensors::Stored::I8 => {
            worth::ratio_is_nearest(of_byte(data[start + i]), 127);
        },
        safetensors::Stored::I4 => {
            worth::ratio_is_nearest(of_nibble(data[start + i / 2] as int % 16), 7);
            worth::ratio_is_nearest(of_nibble(data[start + i / 2] as int / 16), 7);
        },
        _ => {},
    }
}

/// A tensor that a header places between two offsets of the data has the shape that the header
/// says, and each of its elements is worth what the bytes at its place say.
pub proof fn loaded_is_worth_what_is_stored(h: HeaderModel, data: Seq<u8>, k: int, t: Tensor, i: int)
    requires
        safetensors::names_differ(h.tensors),
        0 <= k < h.tensors.len(),
        safetensors::loads(h, data, h.tensors[k].0, Ok(t)),
        safetensors::loadable(h, data, h.tensors[k].0),
        0 <= i < t@.count(),
    ensures
        h.tensors[k].1.start <= h.tensors[k].1.end <= data.len(),
        t@.shape == h.tensors[k].1.shape,
        stored_right(h.tensors[k].1.dtype, data, h.tensors[k].1.start as int, i, t@.lane(i) as int),
{
    let info = h.tensors[k].1;
    let start = info.start as int;
    safetensors::found_at_its_place(h.tensors, k);
    let kind = safetensors::stored_as(info.dtype).unwrap();
    if kind is Bit1 {
        t@.sizes();
        assert(safetensors::part(info, data)[i / 8] == data[start + i / 8]);
    } else {
        assert(t@.lane(i) == safetensors::decoded(kind, safetensors::part(info, data), i));
        decoded_right(kind, data, start, info.end as int, i);
    }
    kind_is_named(info.dtype, data, start, i, t@.lane(i) as int);
}

/// The element at a place of a GGUF tensor is worth what its bytes say: four bytes are a float,
/// two are its upper half or a half float, one is a number from -128 to 127. Blocks of sixteen
/// elements have their scale as a byte in front of a byte each; blocks of thirty-two have theirs as
/// a half float in front of half a byte each, the lower half first and less eight. Where there is a
/// scale the element is the product of both under the given multiplication.
pub open spec fn read_right<M: Fn(u32, u32) -> u32>(kind: GgmlType, data: Seq<u8>, start: int, i: int, times: M, bits: u32) -> bool {
    match kind {
        GgmlType::F32 => bits == pair(data, start + 4 * i) + 0x1_0000 * pair(data, start + 4 * i + 2),
        GgmlType::F16 => worth::like_half(bits as int, pair(data, start + 2 * i)),
        GgmlType::BF16 => bits == 0x1_0000 * pair(data, start + 2 * i),
        GgmlType::I8 => whole(bits, of_byte(data[start + i])),
        GgmlType::Q8_0 => exists|x: u32, scale: u32| #[trigger]
            call_ensures(times, (x, scale), bits) && whole(x, of_byte(data[start + 17 * (i / 16) + 1 + i % 16])) && whole(
                scale,
                of_byte(data[start + 17 * (i / 16)]),
            ),
        GgmlType::Q4_0 => exists|x: u32, scale: u32| #[trigger]
            call_ensures(times, (x, scale), bits) && whole(
                x,
                if i % 2 == 0 {
                    data[start + 18 * (i / 32) + 2 + i % 32 / 2] as int % 16 - 8
                } else {
                    data[start + 18 * (i / 32) + 2 + i % 32 / 2] as int / 16 - 8
                },
            ) && worth::like_half(scale as int, pair(data, start + 18 * (i / 32))),
        _ => false,
    }
}

/// A float is worth a whole number.
pub open spec fn whole(bits: u32, v: int) -> bool {
    worth::finite(bits as int) && worth::worth(bits as int) == v * worth::one()
}

/// An element that was read is worth what its bytes say.
#[verifier::spinoff_prover]
#[verifier::rlimit(60)]
proof fn element_right<M: Fn(u32, u32) -> u32>(kind: GgmlType, data: Seq<u8>, start: int, i: int, times: M, v: u32)
    requires
        gguf_loader::has_reader(kind),
        gguf_loader::element(kind, data, start, i, times, v),
        0 <= i,
    ensures
        read_right(kind, data, start, i, times, v),
{
    match kind {
        GgmlType::F16 => {
            worth::half_is_worth_the_same(pair(data, start + 2 * i) as u16);
        },
        GgmlType::I8 => {
            worth::small_integer_is_exact(of_byte(data[start + i]));
        },
        GgmlType::Q8_0 => {
            let a = of_byte(data[start + 17 * (i / 16) + 1 + i % 16]);
            let b = of_byte(data[start + 17 * (i / 16)]);
            worth::small_integer_is_exact(a);
            worth::small_integer_is_exact(b);
            assert(call_ensures(times, (half::int_bits(a) as u32, half::int_bits(b) as u32), v));
        },
        GgmlType::Q4_0 => {
            let base = start + 18 * (i / 32);
            let n = gguf_loader::nibble(data[base + 2 + i % 32 / 2], i);
            worth::small_integer_is_exact(n);
            worth::half_is_worth_the_same(pair(data, base) as u16);
            assert(call_ensures(times, (half::int_bits(n) as u32, half::half_exact(bytes::le16(data, base) as u16) as u32), v));
        },
        _ => {},
    }
}

/// A tensor that was read from a GGUF file has the dimensions that the file says, and each of its
/// elements is worth what the bytes at its place say.
pub proof fn read_is_worth_what_is_stored<M: Fn(u32, u32) -> u32>(
    info: GgufInfoModel,
    data: Seq<u8>,
    data_offset: int,
    times: M,
    t: TensorModel,
    i: int,
)
    requires
        gguf_loader::has_reader(info.ggml_type),
        gguf_loader::readable(info, data.len() as int, data_offset),
        gguf_loader::read_as(info, data, data_offset, times, t),
        0 <= i < t.count(),
    ensures
        t.shape.len() == info.dimensions.len(),
        forall|d: int| 0 <= d < t.shape.len() ==> #[trigger] t.shape[d] == info.dimensions[d],
        read_right(info.ggml_type, data, data_offset + info.offset, i, times, t.lane(i)),
{
    let start = data_offset + info.offset;
    let v = t.lane(i);
    assert(gguf_loader::element(info.ggml_type, data, start, i, times, v));
    assert forall|d: int| 0 <= d < t.shape.len() implies #[trigger] t.shape[d] == info.dimensions[d] by {
        assert(info.dimensions[d] <= usize::MAX);
    }
    element_right(info.ggml_type, data, start, i, times, v);
}

} // verus!
