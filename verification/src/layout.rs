//! Reading little-endian fields out of account bytes.

use vstd::prelude::*;

use crate::pubkey::Pubkey;

verus! {

/// The unsigned number in the two bytes from `at` on.
pub open spec fn le_u16(data: Seq<u8>, at: int) -> int {
    data[at] + 0x100 * data[at + 1]
}

/// The unsigned number in the four bytes from `at` on.
pub open spec fn le_u32(data: Seq<u8>, at: int) -> int {
    le_u16(data, at) + 0x1_0000 * le_u16(data, at + 2)
}

/// The unsigned number in the eight bytes from `at` on.
pub open spec fn le_u64(data: Seq<u8>, at: int) -> int {
    le_u32(data, at) + 0x1_0000_0000 * le_u32(data, at + 4)
}

/// The number that 32 bits mean in two's complement.
pub open spec fn signed_32(bits: int) -> int {
    if bits < 0x8000_0000 {
        bits
    } else {
        bits - 0x1_0000_0000
    }
}

/// The number that 64 bits mean in two's complement.
pub open spec fn signed_64(bits: int) -> int {
    if bits < 0x8000_0000_0000_0000 {
        bits
    } else {
        bits - 0x1_0000_0000_0000_0000
    }
}

/// Reads a `u16`.
pub fn read_u16(data: &[u8], at: usize) -> (v: u16)
    requires
        at + 2 <= data.len(),
    ensures
        v == le_u16(data@, at as int),
{
    data[at] as u16 + 0x100 * data[at + 1] as u16
}

/// Reads a `u32`.
pub fn read_u32(data: &[u8], at: usize) -> (v: u32)
    requires
        at + 4 <= data.len(),
    ensures
        v == le_u32(data@, at as int),
{
    read_u16(data, at) as u32 + 0x1_0000 * read_u16(data, at + 2) as u32
}

/// Reads a `u64`.
pub fn read_u64(data: &[u8], at: usize) -> (v: u64)
    requires
        at + 8 <= data.len(),
    ensures
        v == le_u64(data@, at as int),
{
    read_u32(data, at) as u64 + 0x1_0000_0000 * read_u32(data, at + 4) as u64
}

/// The two's-complement reading of 64 bits.
pub fn to_signed_64(bits: u64) -> (v: i64)
    ensures
        v == signed_64(bits as int),
{
    if bits < 0x8000_0000_0000_0000 {
        bits as i64
    } else {
        -((0xffff_ffff_ffff_ffff - bits) as i64) - 1
    }
}

/// Reads an `i64`.
pub fn read_i64(data: &[u8], at: usize) -> (v: i64)
    requires
        at + 8 <= data.len(),
    ensures
        v == signed_64(le_u64(data@, at as int)),
{
    to_signed_64(read_u64(data, at))
}

/// Reads an `i32`.
pub fn read_i32(data: &[u8], at: usize) -> (v: i32)
    requires
        at + 4 <= data.len(),
    ensures
        v == signed_32(le_u32(data@, at as int)),
{
    let bits: u32 = read_u32(data, at);
    if bits < 0x8000_0000 {
        bits as i32
    } else {
        -((0xffff_ffff - bits) as i32) - 1
    }
}

/// Reads an address.
pub fn read_pubkey(data: &[u8], at: usize) -> (key: Pubkey)
    requires
        at + 32 <= data.len(),
    ensures
        key.bytes@ == data@.subrange(at as int, at + 32),
{
    let mut bytes: [u8; 32] = [0u8; 32];
    let mut i: usize = 0;
    while i < 32
        invariant
            i <= 32,
            at + 32 <= data.len(),
            forall|j: int| 0 <= j < i ==> bytes[j] == data@[at + j],
        decreases 32 - i,
    {
        bytes[i] = data[at + i];
        i = i + 1;
    }
    assert(bytes@ =~= data@.subrange(at as int, at + 32));
    Pubkey { bytes }
}

/// Reads an eight-byte tag.
pub fn read_tag(data: &[u8]) -> (tag: [u8; 8])
    requires
        8 <= data.len(),
    ensures
        tag@ == data@.take(8),
{
    let tag: [u8; 8] = [data[0], data[1], data[2], data[3], data[4], data[5], data[6], data[7]];
    assert(tag@ =~= data@.take(8));
    tag
}

/// Whether the data starts with an eight-byte tag.
pub open spec fn has_tag(data: Seq<u8>, tag: [u8; 8]) -> bool {
    data.len() >= 8 && data.take(8) == tag@
}

/// Whether the data starts with `tag`.
pub fn starts_with_tag(data: &[u8], tag: [u8; 8]) -> (r: bool)
    ensures
        r == has_tag(data@, tag),
{
    if data.len() < 8 {
        return false;
    }
    let mut i: usize = 0;
    while i < 8
        invariant
            i <= 8,
            8 <= data.len(),
            forall|j: int| 0 <= j < i ==> data@[j] == tag[j],
        decreases 8 - i,
    {
        if data[i] != tag[i] {
            assert(data@.take(8)[i as int] != tag@[i as int]);
            return false;
        }
        i = i + 1;
    }
    assert(data@.take(8) =~= tag@);
    true
}

} // verus!
