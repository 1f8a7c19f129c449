//! Little-endian integers in byte sequences.
use vstd::prelude::*;

verus! {

/// The unsigned 16-bit value stored little-endian at `at`.
pub open spec fn le16(s: Seq<u8>, at: int) -> int {
    s[at] + 0x100 * s[at + 1]
}

/// The unsigned 32-bit value stored little-endian at `at`.
pub open spec fn le32(s: Seq<u8>, at: int) -> int {
    le16(s, at) + 0x1_0000 * le16(s, at + 2)
}

/// The unsigned 64-bit value stored little-endian at `at`.
pub open spec fn le64(s: Seq<u8>, at: int) -> int {
    le32(s, at) + 0x1_0000_0000 * le32(s, at + 4)
}

/// The four little-endian bytes of a 32-bit value.
pub open spec fn le32_bytes(x: u32) -> Seq<u8> {
    seq![
        (x % 0x100) as u8,
        (x / 0x100 % 0x100) as u8,
        (x / 0x1_0000 % 0x100) as u8,
        (x / 0x100_0000) as u8,
    ]
}

/// Reading back the four bytes of a value gives the value.
pub proof fn le32_round_trip(x: u32)
    ensures
        le32_bytes(x).len() == 4,
        le32(le32_bytes(x), 0) == x,
{
}

/// A little-endian value depends on its own bytes only.
pub proof fn le32_local(s: Seq<u8>, at: int, t: Seq<u8>, bt: int)
    requires
        forall|k: int| 0 <= k < 4 ==> s[at + k] == #[trigger] t[bt + k],
    ensures
        le32(s, at) == le32(t, bt),
{
    assert(s[at + 0] == t[bt + 0]);
    assert(s[at + 1] == t[bt + 1]);
    assert(s[at + 2] == t[bt + 2]);
    assert(s[at + 3] == t[bt + 3]);
}

/// Reads the 16-bit value at `at`.
pub fn u16_at(s: &[u8], at: usize) -> (x: u16)
    requires
        at + 2 <= s@.len(),
    ensures
        x == le16(s@, at as int),
{
    s[at] as u16 + 0x100 * (s[at + 1] as u16)
}

/// Reads the 32-bit value at `at`.
pub fn u32_at(s: &[u8], at: usize) -> (x: u32)
    requires
        at + 4 <= s@.len(),
    ensures
        x == le32(s@, at as int),
{
    assert(s.len() <= usize::MAX);
    u16_at(s, at) as u32 + 0x1_0000 * (u16_at(s, at + 2) as u32)
}

/// Reads the 64-bit value at `at`.
pub fn u64_at(s: &[u8], at: usize) -> (x: u64)
    requires
        at + 8 <= s@.len(),
    ensures
        x == le64(s@, at as int),
{
    assert(s.len() <= usize::MAX);
    u32_at(s, at) as u64 + 0x1_0000_0000 * (u32_at(s, at + 4) as u64)
}

/// Appends the four bytes of a value.
pub fn push_u32(out: &mut Vec<u8>, x: u32)
    ensures
        final(out)@ == old(out)@ + le32_bytes(x),
{
    out.push((x % 0x100) as u8);
    out.push((x / 0x100 % 0x100) as u8);
    out.push((x / 0x1_0000 % 0x100) as u8);
    out.push((x / 0x100_0000) as u8);
    assert(out@ =~= old(out)@ + le32_bytes(x));
}

} // verus!
