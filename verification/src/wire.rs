//! Little-endian byte-order primitives shared by the container decoders.

use vstd::prelude::*;

verus! {

/// Value of two little-endian bytes.
pub open spec fn u16_le(s: Seq<u8>) -> u16
    recommends
        s.len() == 2,
{
    (s[0] + s[1] * 0x100) as u16
}

/// Value of four little-endian bytes.
pub open spec fn u32_le(s: Seq<u8>) -> u32
    recommends
        s.len() == 4,
{
    (s[0] + s[1] * 0x100 + s[2] * 0x1_0000 + s[3] * 0x100_0000) as u32
}

/// Value of eight little-endian bytes.
pub open spec fn u64_le(s: Seq<u8>) -> u64
    recommends
        s.len() == 8,
{
    (s[0] + s[1] * 0x100 + s[2] * 0x1_0000 + s[3] * 0x100_0000 + s[4] * 0x1_0000_0000 + s[5]
        * 0x100_0000_0000 + s[6] * 0x1_0000_0000_0000 + s[7] * 0x100_0000_0000_0000) as u64
}

/// Two little-endian bytes read as a signed value (two's complement).
pub open spec fn i16_le(s: Seq<u8>) -> i16
    recommends
        s.len() == 2,
{
    u16_le(s) as i16
}

pub fn load_u16_le(d: &Vec<u8>, offset: usize) -> (r: u16)
    requires
        offset + 2 <= d.len(),
    ensures
        r == u16_le(d@.subrange(offset as int, offset as int + 2)),
{
    let b0 = d[offset];
    let b1 = d[offset + 1];
    (b0 as u16) + (b1 as u16) * 0x100
}

pub fn load_u32_le(d: &Vec<u8>, offset: usize) -> (r: u32)
    requires
        offset + 4 <= d.len(),
    ensures
        r == u32_le(d@.subrange(offset as int, offset as int + 4)),
{
    let b0 = d[offset];
    let b1 = d[offset + 1];
    let b2 = d[offset + 2];
    let b3 = d[offset + 3];
    (b0 as u32) + (b1 as u32) * 0x100 + (b2 as u32) * 0x1_0000 + (b3 as u32) * 0x100_0000
}

pub fn load_u64_le(d: &Vec<u8>, offset: usize) -> (r: u64)
    requires
        offset + 8 <= d.len(),
    ensures
        r == u64_le(d@.subrange(offset as int, offset as int + 8)),
{
    let b0 = d[offset];
    let b1 = d[offset + 1];
    let b2 = d[offset + 2];
    let b3 = d[offset + 3];
    let b4 = d[offset + 4];
    let b5 = d[offset + 5];
    let b6 = d[offset + 6];
    let b7 = d[offset + 7];
    (b0 as u64) + (b1 as u64) * 0x100 + (b2 as u64) * 0x1_0000 + (b3 as u64) * 0x100_0000 + (
    b4 as u64) * 0x1_0000_0000 + (b5 as u64) * 0x100_0000_0000 + (b6 as u64) * 0x1_0000_0000_0000
        + (b7 as u64) * 0x100_0000_0000_0000
}

pub fn load_i16_le(d: &Vec<u8>, offset: usize) -> (r: i16)
    requires
        offset + 2 <= d.len(),
    ensures
        r == i16_le(d@.subrange(offset as int, offset as int + 2)),
{
    load_u16_le(d, offset) as i16
}

/// Copies `len` bytes starting at `start` into a fresh buffer.
pub fn copy_range(d: &Vec<u8>, start: usize, len: usize) -> (r: Vec<u8>)
    requires
        start + len <= d.len(),
    ensures
        r@ == d@.subrange(start as int, start as int + len as int),
{
    let mut r: Vec<u8> = Vec::new();
    let mut i: usize = 0;
    while i < len
        invariant
            i <= len,
            start + len <= d.len(),
            r@ == d@.subrange(start as int, start as int + i as int),
        decreases len - i,
    {
        r.push(d[start + i]);
        proof {
            assert(r@ =~= d@.subrange(start as int, start as int + (i + 1) as int));
        }
        i = i + 1;
    }
    r
}

} // verus!
