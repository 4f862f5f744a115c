//! CRC-32/ISO-HDLC, the checksum of zlib, gzip and PNG.
//!
//! One definition, [`crc32`], and three computations of it: the bit-at-a-time
//! [`Crc32`] that the device runs, the table-driven one of the `crc` crate
//! behind [`checksum`](crate::bundle::checksum), and the accelerated one of
//! the `crc32fast` crate that the host runs on every chunk. All three are
//! stated against the same function, so a checksum taken on one side can be
//! compared with one taken on another.

use vstd::prelude::*;

verus! {

/// The generator polynomial, bit-reversed.
pub const POLYNOMIAL: u32 = 0xEDB8_8320;

/// Shifts one bit out of the register.
pub open spec fn crc32_bit(register: u32) -> u32 {
    if register & 1 != 0 {
        (register >> 1) ^ 0xEDB8_8320
    } else {
        register >> 1
    }
}

/// Shifts eight bits out of the register.
pub open spec fn crc32_bits(register: u32) -> u32 {
    crc32_bit(crc32_bit(crc32_bit(crc32_bit(crc32_bit(crc32_bit(crc32_bit(crc32_bit(register))))))))
}

/// Adds one byte to the register.
pub open spec fn crc32_byte(register: u32, byte: u8) -> u32 {
    crc32_bits(register ^ (byte as u32))
}

/// The register after `data`, starting from all ones.
pub open spec fn crc32_register(data: Seq<u8>) -> u32
    decreases data.len(),
{
    if data.len() == 0 {
        0xFFFF_FFFF
    } else {
        crc32_byte(crc32_register(data.drop_last()), data.last())
    }
}

/// CRC-32/ISO-HDLC of `data`.
pub open spec fn crc32(data: Seq<u8>) -> u32 {
    !crc32_register(data)
}

/// A checksum under computation, one byte at a time and without a table.
pub struct Crc32 {
    register: u32,
    seen: Ghost<Seq<u8>>,
}

impl View for Crc32 {
    type V = Seq<u8>;

    /// The bytes added so far.
    closed spec fn view(&self) -> Seq<u8> {
        self.seen@
    }
}

impl Crc32 {
    #[verifier::type_invariant]
    spec fn holds(self) -> bool {
        self.register == crc32_register(self.seen@)
    }

    /// Starts one.
    pub fn new() -> (res: Crc32)
        ensures
            res@ == Seq::<u8>::empty(),
    {
        Crc32 { register: 0xFFFF_FFFF, seen: Ghost(Seq::empty()) }
    }

    /// Adds the next byte.
    pub fn update(&mut self, byte: u8)
        ensures
            final(self)@ == old(self)@.push(byte),
    {
        proof {
            use_type_invariant(&*self);
        }
        let ghost seen = self.seen@.push(byte);
        let mut register: u32 = self.register ^ (byte as u32);
        register = shift(register);
        register = shift(register);
        register = shift(register);
        register = shift(register);
        register = shift(register);
        register = shift(register);
        register = shift(register);
        register = shift(register);
        proof {
            assert(seen.drop_last() =~= self.seen@);
        }
        *self = Crc32 { register, seen: Ghost(seen) };
    }

    /// The checksum of everything added.
    pub fn finish(&self) -> (res: u32)
        ensures
            res == crc32(self@),
    {
        proof {
            use_type_invariant(self);
        }
        !self.register
    }
}

/// Shifts one bit out of a register.
fn shift(register: u32) -> (res: u32)
    ensures
        res == crc32_bit(register),
{
    if register & 1 != 0 {
        (register >> 1) ^ POLYNOMIAL
    } else {
        register >> 1
    }
}

/// The CRC-32 of `data` as the device computes it.
pub fn crc32_of(data: &[u8]) -> (res: u32)
    ensures
        res == crc32(data@),
{
    let mut crc = Crc32::new();
    let mut at: usize = 0;
    while at < data.len()
        invariant
            at <= data@.len(),
            crc@ == data@.take(at as int),
        decreases data@.len() - at,
    {
        crc.update(data[at]);
        proof {
            assert(data@.take(at as int).push(data@[at as int]) =~= data@.take(at + 1));
        }
        at += 1;
    }
    proof {
        assert(data@.take(at as int) =~= data@);
    }
    crc.finish()
}

/// Shifting a bit loses nothing: the polynomial's top bit records which bit
/// went out.
proof fn lemma_bit_injective(a: u32, b: u32)
    requires
        crc32_bit(a) == crc32_bit(b),
    ensures
        a == b,
{
    assert((if a & 1 != 0 { (a >> 1) ^ 0xEDB8_8320u32 } else { a >> 1 }) == (if b & 1 != 0 {
        (b >> 1) ^ 0xEDB8_8320u32
    } else {
        b >> 1
    }) ==> a == b) by (bit_vector);
}

proof fn lemma_bits_injective(a: u32, b: u32)
    requires
        crc32_bits(a) == crc32_bits(b),
    ensures
        a == b,
{
    let a1 = crc32_bit(a);
    let b1 = crc32_bit(b);
    let a2 = crc32_bit(a1);
    let b2 = crc32_bit(b1);
    let a3 = crc32_bit(a2);
    let b3 = crc32_bit(b2);
    let a4 = crc32_bit(a3);
    let b4 = crc32_bit(b3);
    let a5 = crc32_bit(a4);
    let b5 = crc32_bit(b4);
    let a6 = crc32_bit(a5);
    let b6 = crc32_bit(b5);
    let a7 = crc32_bit(a6);
    let b7 = crc32_bit(b6);
    lemma_bit_injective(a7, b7);
    lemma_bit_injective(a6, b6);
    lemma_bit_injective(a5, b5);
    lemma_bit_injective(a4, b4);
    lemma_bit_injective(a3, b3);
    lemma_bit_injective(a2, b2);
    lemma_bit_injective(a1, b1);
    lemma_bit_injective(a, b);
}

/// Adding the same byte to two registers keeps them apart.
proof fn lemma_byte_keeps_difference(a: u32, b: u32, byte: u8)
    requires
        crc32_byte(a, byte) == crc32_byte(b, byte),
    ensures
        a == b,
{
    let word = byte as u32;
    lemma_bits_injective(a ^ word, b ^ word);
    assert(a ^ word == b ^ word ==> a == b) by (bit_vector);
}

/// Adding two bytes to one register tells them apart.
proof fn lemma_byte_makes_difference(register: u32, x: u8, y: u8)
    requires
        crc32_byte(register, x) == crc32_byte(register, y),
    ensures
        x == y,
{
    lemma_bits_injective(register ^ (x as u32), register ^ (y as u32));
    assert(register ^ (x as u32) == register ^ (y as u32) ==> x == y) by (bit_vector);
}

/// Registers that differ still differ after the same bytes.
proof fn lemma_suffix_keeps_difference(a: Seq<u8>, b: Seq<u8>, suffix: Seq<u8>)
    requires
        crc32_register(a) != crc32_register(b),
    ensures
        crc32_register(a + suffix) != crc32_register(b + suffix),
    decreases suffix.len(),
{
    if suffix.len() == 0 {
        assert(a + suffix =~= a);
        assert(b + suffix =~= b);
    } else {
        lemma_suffix_keeps_difference(a, b, suffix.drop_last());
        assert((a + suffix).drop_last() =~= a + suffix.drop_last());
        assert((b + suffix).drop_last() =~= b + suffix.drop_last());
        assert((a + suffix).last() == suffix.last());
        assert((b + suffix).last() == suffix.last());
        if crc32_register(a + suffix) == crc32_register(b + suffix) {
            lemma_byte_keeps_difference(
                crc32_register(a + suffix.drop_last()),
                crc32_register(b + suffix.drop_last()),
                suffix.last(),
            );
        }
    }
}

proof fn lemma_not_injective(a: u32, b: u32)
    requires
        !a == !b,
    ensures
        a == b,
{
    assert(!a == !b ==> a == b) by (bit_vector);
}

/// Changing one byte of a message changes its checksum, wherever the byte is
/// and whatever it becomes.
pub proof fn one_damaged_byte_changes_the_checksum(data: Seq<u8>, at: int, byte: u8)
    requires
        0 <= at < data.len(),
        data[at] != byte,
    ensures
        crc32(data.update(at, byte)) != crc32(data),
{
    let prefix = data.take(at);
    let suffix = data.skip(at + 1);
    let good = prefix.push(data[at]);
    let bad = prefix.push(byte);
    assert(good.drop_last() =~= prefix);
    assert(bad.drop_last() =~= prefix);
    if crc32_register(good) == crc32_register(bad) {
        lemma_byte_makes_difference(crc32_register(prefix), data[at], byte);
    }
    lemma_suffix_keeps_difference(good, bad, suffix);
    assert(good + suffix =~= data);
    assert(bad + suffix =~= data.update(at, byte));
    if crc32(data.update(at, byte)) == crc32(data) {
        lemma_not_injective(crc32_register(bad + suffix), crc32_register(good + suffix));
    }
}

} // verus!
