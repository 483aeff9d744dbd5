//! Fixed-width integers on the wire, in either byte order.
use vstd::prelude::*;

verus! {

/// The byte order in which a peer writes integers. Wayland uses the
/// host's own order; the caller says which one that is.
#[derive(Clone, Copy, Debug, PartialEq, Eq, Structural)]
pub enum Endian {
    Little,
    Big,
}

/// The four bytes that hold `v` in order `e`.
pub open spec fn u32_bytes(e: Endian, v: u32) -> Seq<u8> {
    match e {
        Endian::Little => seq![
            (v & 0xff) as u8,
            ((v >> 8u32) & 0xff) as u8,
            ((v >> 16u32) & 0xff) as u8,
            ((v >> 24u32) & 0xff) as u8,
        ],
        Endian::Big => seq![
            ((v >> 24u32) & 0xff) as u8,
            ((v >> 16u32) & 0xff) as u8,
            ((v >> 8u32) & 0xff) as u8,
            (v & 0xff) as u8,
        ],
    }
}

/// Four bytes read as a value of order `e`.
pub open spec fn u32_of_bytes(e: Endian, b0: u8, b1: u8, b2: u8, b3: u8) -> u32 {
    match e {
        Endian::Little => (b0 as u32) | ((b1 as u32) << 8u32) | ((b2 as u32) << 16u32) | ((
        b3 as u32) << 24u32),
        Endian::Big => (b3 as u32) | ((b2 as u32) << 8u32) | ((b1 as u32) << 16u32) | ((
        b0 as u32) << 24u32),
    }
}

/// The value that the four bytes of `b` starting at `pos` hold.
pub open spec fn u32_at(e: Endian, b: Seq<u8>, pos: int) -> u32 {
    u32_of_bytes(e, b[pos], b[pos + 1], b[pos + 2], b[pos + 3])
}

proof fn lemma_le_roundtrip(v: u32)
    ensures
        ((v & 0xff) as u8 as u32) | ((((v >> 8u32) & 0xff) as u8 as u32) << 8u32) | ((((v
            >> 16u32) & 0xff) as u8 as u32) << 16u32) | ((((v >> 24u32) & 0xff) as u8 as u32)
            << 24u32) == v,
{
    assert(((v & 0xff) as u8 as u32) | ((((v >> 8u32) & 0xff) as u8 as u32) << 8u32) | ((((v
        >> 16u32) & 0xff) as u8 as u32) << 16u32) | ((((v >> 24u32) & 0xff) as u8 as u32)
        << 24u32) == v) by (bit_vector);
}

/// Reading back what was written gives the value.
pub proof fn lemma_u32_roundtrip(e: Endian, v: u32)
    ensures
        u32_at(e, u32_bytes(e, v), 0) == v,
        u32_bytes(e, v).len() == 4,
{
    lemma_le_roundtrip(v);
}

/// Bytes that a value was read from are the bytes it writes.
pub proof fn lemma_bytes_roundtrip(e: Endian, b: Seq<u8>, pos: int)
    requires
        0 <= pos,
        pos + 4 <= b.len(),
    ensures
        u32_bytes(e, u32_at(e, b, pos)) == b.subrange(pos, pos + 4),
{
    let b0 = b[pos];
    let b1 = b[pos + 1];
    let b2 = b[pos + 2];
    let b3 = b[pos + 3];
    let v = (b0 as u32) | ((b1 as u32) << 8u32) | ((b2 as u32) << 16u32) | ((b3 as u32)
        << 24u32);
    assert((v & 0xff) as u8 == b0 && ((v >> 8u32) & 0xff) as u8 == b1 && ((v >> 16u32)
        & 0xff) as u8 == b2 && ((v >> 24u32) & 0xff) as u8 == b3) by (bit_vector)
        requires
            v == (b0 as u32) | ((b1 as u32) << 8u32) | ((b2 as u32) << 16u32) | ((b3 as u32)
                << 24u32),
    ;
    let w = (b3 as u32) | ((b2 as u32) << 8u32) | ((b1 as u32) << 16u32) | ((b0 as u32)
        << 24u32);
    assert((w & 0xff) as u8 == b3 && ((w >> 8u32) & 0xff) as u8 == b2 && ((w >> 16u32)
        & 0xff) as u8 == b1 && ((w >> 24u32) & 0xff) as u8 == b0) by (bit_vector)
        requires
            w == (b3 as u32) | ((b2 as u32) << 8u32) | ((b1 as u32) << 16u32) | ((b0 as u32)
                << 24u32),
    ;
    assert(u32_bytes(e, u32_at(e, b, pos)) =~= b.subrange(pos, pos + 4));
}

/// Appends the four bytes of `v` in order `e`.
pub fn put_u32(e: Endian, v: u32, out: &mut Vec<u8>)
    ensures
        final(out)@ == old(out)@ + u32_bytes(e, v),
{
    let b0 = (v & 0xff) as u8;
    let b1 = ((v >> 8u32) & 0xff) as u8;
    let b2 = ((v >> 16u32) & 0xff) as u8;
    let b3 = ((v >> 24u32) & 0xff) as u8;
    match e {
        Endian::Little => {
            out.push(b0);
            out.push(b1);
            out.push(b2);
            out.push(b3);
        },
        Endian::Big => {
            out.push(b3);
            out.push(b2);
            out.push(b1);
            out.push(b0);
        },
    }
    assert(final(out)@ =~= old(out)@ + u32_bytes(e, v));
}

/// Reads the value held by the four bytes of `b` starting at `pos`.
pub fn get_u32(e: Endian, b: &[u8], pos: usize) -> (r: u32)
    requires
        pos + 4 <= b@.len(),
    ensures
        r == u32_at(e, b@, pos as int),
{
    let b0 = b[pos] as u32;
    let b1 = b[pos + 1] as u32;
    let b2 = b[pos + 2] as u32;
    let b3 = b[pos + 3] as u32;
    match e {
        Endian::Little => b0 | (b1 << 8u32) | (b2 << 16u32) | (b3 << 24u32),
        Endian::Big => b3 | (b2 << 8u32) | (b1 << 16u32) | (b0 << 24u32),
    }
}

} // verus!
