//! Little-endian integers, as they stand in bundles and on the serial line.

use vstd::prelude::*;

verus! {

/// The two bytes of `value`, least significant first.
pub open spec fn u16_bytes(value: u16) -> Seq<u8> {
    seq![(value & 0xFF) as u8, (value >> 8) as u8]
}

/// The four bytes of `value`, least significant first.
pub open spec fn u32_bytes(value: u32) -> Seq<u8> {
    seq![
        (value & 0xFF) as u8,
        ((value >> 8) & 0xFF) as u8,
        ((value >> 16) & 0xFF) as u8,
        (value >> 24) as u8,
    ]
}

/// The number that two bytes spell, least significant first.
pub open spec fn u16_at(bytes: Seq<u8>, at: int) -> u16 {
    (bytes[at] as u16) | ((bytes[at + 1] as u16) << 8)
}

/// The number that four bytes spell, least significant first.
pub open spec fn u32_at(bytes: Seq<u8>, at: int) -> u32 {
    (bytes[at] as u32) | ((bytes[at + 1] as u32) << 8) | ((bytes[at + 2] as u32) << 16) | ((
    bytes[at + 3] as u32) << 24)
}

/// Reading two bytes back gives the number they were written from.
pub proof fn u16_read_undoes_write(value: u16)
    ensures
        u16_at(u16_bytes(value), 0) == value,
{
    assert(((((value & 0xFF) as u8) as u16) | ((((value >> 8) as u8) as u16) << 8)) == value)
        by (bit_vector);
}

/// Reading four bytes back gives the number they were written from.
pub proof fn u32_read_undoes_write(value: u32)
    ensures
        u32_at(u32_bytes(value), 0) == value,
{
    assert(((((value & 0xFF) as u8) as u32) | (((((value >> 8) & 0xFF) as u8) as u32) << 8) | (((((
    value >> 16) & 0xFF) as u8) as u32) << 16) | ((((value >> 24) as u8) as u32) << 24)) == value)
        by (bit_vector);
}

/// Writing the number that two bytes spell gives the bytes back.
pub proof fn u16_write_undoes_read(bytes: Seq<u8>)
    requires
        bytes.len() == 2,
    ensures
        u16_bytes(u16_at(bytes, 0)) == bytes,
{
    let a = bytes[0];
    let b = bytes[1];
    let value = u16_at(bytes, 0);
    assert((((a as u16) | ((b as u16) << 8)) & 0xFF) as u8 == a) by (bit_vector);
    assert((((a as u16) | ((b as u16) << 8)) >> 8) as u8 == b) by (bit_vector);
    assert(u16_bytes(value) =~= bytes);
}

/// Writing the number that four bytes spell gives the bytes back.
pub proof fn u32_write_undoes_read(bytes: Seq<u8>)
    requires
        bytes.len() == 4,
    ensures
        u32_bytes(u32_at(bytes, 0)) == bytes,
{
    let a = bytes[0];
    let b = bytes[1];
    let c = bytes[2];
    let d = bytes[3];
    let value = u32_at(bytes, 0);
    assert({
        let v = (a as u32) | ((b as u32) << 8) | ((c as u32) << 16) | ((d as u32) << 24);
        &&& (v & 0xFF) as u8 == a
        &&& ((v >> 8) & 0xFF) as u8 == b
        &&& ((v >> 16) & 0xFF) as u8 == c
        &&& (v >> 24) as u8 == d
    }) by (bit_vector);
    assert(u32_bytes(value) =~= bytes);
}

/// The number that the four bytes at `at` spell.
pub fn read_u32(bytes: &[u8], at: usize) -> (res: u32)
    requires
        at + 4 <= bytes@.len(),
    ensures
        res == u32_at(bytes@, at as int),
{
    (bytes[at] as u32) | ((bytes[at + 1] as u32) << 8) | ((bytes[at + 2] as u32) << 16) | ((
    bytes[at + 3] as u32) << 24)
}

/// The number that the two bytes at `at` spell.
pub fn read_u16(bytes: &[u8], at: usize) -> (res: u16)
    requires
        at + 2 <= bytes@.len(),
    ensures
        res == u16_at(bytes@, at as int),
{
    (bytes[at] as u16) | ((bytes[at + 1] as u16) << 8)
}

/// Appends the two bytes of `value`.
pub fn push_u16(out: &mut Vec<u8>, value: u16)
    ensures
        final(out)@ == old(out)@ + u16_bytes(value),
{
    out.push((value & 0xFF) as u8);
    out.push((value >> 8) as u8);
    proof {
        assert(out@ =~= old(out)@ + u16_bytes(value));
    }
}

/// Appends the four bytes of `value`.
pub fn push_u32(out: &mut Vec<u8>, value: u32)
    ensures
        final(out)@ == old(out)@ + u32_bytes(value),
{
    out.push((value & 0xFF) as u8);
    out.push(((value >> 8) & 0xFF) as u8);
    out.push(((value >> 16) & 0xFF) as u8);
    out.push((value >> 24) as u8);
    proof {
        assert(out@ =~= old(out)@ + u32_bytes(value));
    }
}

} // verus!
