//! The 32-bit hash under which an archive stores every name.

use vstd::prelude::*;

verus! {

/// The reflected CRC-32 polynomial.
pub const POLYNOMIAL: u32 = 0xEDB8_8320;

/// One bit of polynomial division: shift right, and subtract the polynomial
/// when a one was shifted out.
pub open spec fn crc_shift(crc: u32) -> u32 {
    if crc & 1 == 1 {
        (crc >> 1) ^ POLYNOMIAL
    } else {
        crc >> 1
    }
}

/// `crc_shift` applied `n` times.
pub open spec fn crc_shifts(crc: u32, n: nat) -> u32
    decreases n,
{
    if n == 0 {
        crc
    } else {
        crc_shift(crc_shifts(crc, (n - 1) as nat))
    }
}

/// The register after one more byte of input.
pub open spec fn crc_byte(crc: u32, byte: u8) -> u32 {
    crc_shifts(crc ^ (byte as u32), 8)
}

/// The register after all of `bytes`, starting from `crc`.
pub open spec fn crc_bytes(crc: u32, bytes: Seq<u8>) -> u32
    decreases bytes.len(),
{
    if bytes.len() == 0 {
        crc
    } else {
        crc_byte(crc_bytes(crc, bytes.drop_last()), bytes.last())
    }
}

/// CRC-32 of a byte string: the register starts with all bits set and is
/// inverted at the end.
pub open spec fn crc32(bytes: Seq<u8>) -> u32 {
    crc_bytes(0xFFFF_FFFF, bytes) ^ 0xFFFF_FFFF
}

/// The hash of a name: CRC-32 of its UTF-8 encoding.
pub open spec fn name_hash(name: Seq<char>) -> u32 {
    crc32(vstd::utf8::encode_utf8(name))
}

fn update(crc: u32, byte: u8) -> (r: u32)
    ensures
        r == crc_byte(crc, byte),
{
    let mut reg: u32 = crc ^ (byte as u32);
    let mut k: u8 = 0;
    while k < 8
        invariant
            k <= 8,
            reg == crc_shifts(crc ^ (byte as u32), k as nat),
        decreases 8 - k,
    {
        reg = if reg & 1 == 1 {
            (reg >> 1) ^ POLYNOMIAL
        } else {
            reg >> 1
        };
        k = k + 1;
    }
    reg
}

/// CRC-32 of `bytes`.
pub fn hash_bytes(bytes: &[u8]) -> (r: u32)
    ensures
        r == crc32(bytes@),
{
    let mut reg: u32 = 0xFFFF_FFFF;
    let mut i: usize = 0;
    while i < bytes.len()
        invariant
            i <= bytes.len(),
            reg == crc_bytes(0xFFFF_FFFF, bytes@.take(i as int)),
        decreases bytes.len() - i,
    {
        proof {
            assert(bytes@.take(i + 1).drop_last() == bytes@.take(i as int));
        }
        reg = update(reg, bytes[i]);
        i = i + 1;
    }
    proof {
        assert(bytes@.take(i as int) == bytes@);
    }
    reg ^ 0xFFFF_FFFF
}

/// The hash under which an archive stores `name`.
pub fn hash_name(name: &str) -> (r: u32)
    ensures
        r == name_hash(name@),
{
    hash_bytes(name.as_bytes())
}

/// The key of an entry: the hash of its name.
#[derive(Clone, Copy, Debug, PartialEq, Eq, Structural, Hash)]
pub struct Name {
    pub hash: u32,
}

impl Name {
    /// The key with this hash.
    pub fn new(hash: u32) -> (r: Name)
        ensures
            r.hash == hash,
    {
        Name { hash }
    }

    /// The key of the entry called `name`.
    pub fn from_str(name: &str) -> (r: Name)
        ensures
            r.hash == name_hash(name@),
    {
        Name { hash: hash_name(name) }
    }
}

} // verus!
