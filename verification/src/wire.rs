//! Fixed-width integers in byte sequences.
use vstd::prelude::*;

verus! {

/// The 16-bit integer in network order at a position.
pub open spec fn be16(bytes: Seq<u8>, p: int) -> u16 {
    (bytes[p] * 256 + bytes[p + 1]) as u16
}

/// The 24-bit integer in network order at a position.
pub open spec fn be24(bytes: Seq<u8>, p: int) -> int {
    bytes[p] * 0x1_0000 + bytes[p + 1] * 256 + bytes[p + 2]
}

/// The 32-bit integer in network order at a position.
pub open spec fn be32(bytes: Seq<u8>, p: int) -> u32 {
    (bytes[p] * 0x100_0000 + bytes[p + 1] * 0x1_0000 + bytes[p + 2] * 256 + bytes[p + 3]) as u32
}

/// One sequence of bytes starts with another.
pub open spec fn begins_with(bytes: Seq<u8>, beginning: Seq<u8>) -> bool {
    beginning.len() <= bytes.len() && bytes.take(beginning.len() as int) == beginning
}

/// The four bytes of a 32-bit integer, least significant first.
pub open spec fn le32(n: u32) -> Seq<u8> {
    seq![
        (n % 256) as u8,
        (n / 256 % 256) as u8,
        (n / 0x1_0000 % 256) as u8,
        (n / 0x100_0000) as u8,
    ]
}

/// Reads a 16-bit integer in network order.
pub fn read_be16(bytes: &[u8], p: usize) -> (r: u16)
    requires
        p + 2 <= bytes@.len(),
    ensures
        r == be16(bytes@, p as int),
        r == bytes@[p as int] * 256 + bytes@[p + 1],
{
    bytes[p] as u16 * 256 + bytes[p + 1] as u16
}

/// Reads a 24-bit integer in network order.
pub fn read_be24(bytes: &[u8], p: usize) -> (r: usize)
    requires
        p + 3 <= bytes@.len(),
    ensures
        r == be24(bytes@, p as int),
        r < 0x100_0000,
{
    bytes[p] as usize * 0x1_0000 + bytes[p + 1] as usize * 256 + bytes[p + 2] as usize
}

/// Reads a 32-bit integer in network order.
pub fn read_be32(bytes: &[u8], p: usize) -> (r: u32)
    requires
        p + 4 <= bytes@.len(),
    ensures
        r == be32(bytes@, p as int),
{
    bytes[p] as u32 * 0x100_0000 + bytes[p + 1] as u32 * 0x1_0000 + bytes[p + 2] as u32 * 256
        + bytes[p + 3] as u32
}

/// Appends a 32-bit integer, least significant byte first.
pub fn push_le32(out: &mut Vec<u8>, n: u32)
    ensures
        final(out)@ == old(out)@ + le32(n),
{
    out.push((n % 256) as u8);
    out.push((n / 256 % 256) as u8);
    out.push((n / 0x1_0000 % 256) as u8);
    out.push((n / 0x100_0000) as u8);
    assert(out@ =~= old(out)@ + le32(n));
}

/// Appends bytes.
pub fn push_bytes(out: &mut Vec<u8>, bytes: &[u8])
    ensures
        final(out)@ == old(out)@ + bytes@,
{
    let ghost start = out@;
    let mut i: usize = 0;
    while i < bytes.len()
        invariant
            i <= bytes@.len(),
            out@ =~= start + bytes@.take(i as int),
        decreases bytes@.len() - i,
    {
        out.push(bytes[i]);
        i += 1;
    }
    assert(bytes@.take(i as int) =~= bytes@);
}

} // verus!
