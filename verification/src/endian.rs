//! Explicit endianness for the container format, and the byte codecs for
//! the integers stored in it.

use vstd::prelude::*;

verus! {

/// Byte order of integers in an encoded container. `Native` resolves to
/// little-endian when a container is written, so that encoded bytes never
/// depend on the machine that wrote them.
#[derive(Clone, Copy, PartialEq, Eq, Structural, Debug)]
pub enum EEndianType {
    Big,
    Little,
    Native,
}

/// Tag byte stored at the head of a container for big-endian integers.
pub const ENDIAN_TAG_BIG: u8 = 0;

/// Tag byte stored at the head of a container for little-endian integers.
pub const ENDIAN_TAG_LITTLE: u8 = 1;

impl EEndianType {
    /// The tag byte this byte order writes; `Native` writes little-endian.
    pub open spec fn spec_tag(self) -> u8 {
        match self {
            EEndianType::Big => ENDIAN_TAG_BIG,
            EEndianType::Little => ENDIAN_TAG_LITTLE,
            EEndianType::Native => ENDIAN_TAG_LITTLE,
        }
    }

    /// The tag byte under which this byte order is encoded.
    pub fn tag(self) -> (r: u8)
        ensures
            r == self.spec_tag(),
    {
        match self {
            EEndianType::Big => ENDIAN_TAG_BIG,
            EEndianType::Little => ENDIAN_TAG_LITTLE,
            EEndianType::Native => ENDIAN_TAG_LITTLE,
        }
    }
}

/// The four bytes of `v` under the byte order of `tag`; any tag other
/// than the big-endian one writes little-endian.
pub open spec fn spec_u32_to_bytes(tag: u8, v: u32) -> Seq<u8> {
    if tag == ENDIAN_TAG_BIG {
        seq![
            ((v >> 24) & 0xff) as u8,
            ((v >> 16) & 0xff) as u8,
            ((v >> 8) & 0xff) as u8,
            (v & 0xff) as u8,
        ]
    } else {
        seq![
            (v & 0xff) as u8,
            ((v >> 8) & 0xff) as u8,
            ((v >> 16) & 0xff) as u8,
            ((v >> 24) & 0xff) as u8,
        ]
    }
}

/// The value read back from four bytes under the byte order of `tag`.
pub open spec fn spec_u32_of4(tag: u8, b0: u8, b1: u8, b2: u8, b3: u8) -> u32 {
    if tag == ENDIAN_TAG_BIG {
        ((b0 as u32) << 24) | ((b1 as u32) << 16) | ((b2 as u32) << 8) | (b3 as u32)
    } else {
        (b0 as u32) | ((b1 as u32) << 8) | ((b2 as u32) << 16) | ((b3 as u32) << 24)
    }
}

/// Reading four bytes written from `v` gives back `v`, in either byte
/// order.
pub proof fn lemma_u32_bytes_round_trip(tag: u8, v: u32)
    ensures
        ({
            let b = spec_u32_to_bytes(tag, v);
            spec_u32_of4(tag, b[0], b[1], b[2], b[3]) == v
        }),
{
    let b0 = ((v >> 24) & 0xff) as u8;
    let b1 = ((v >> 16) & 0xff) as u8;
    let b2 = ((v >> 8) & 0xff) as u8;
    let b3 = (v & 0xff) as u8;
    assert(((b0 as u32) << 24) | ((b1 as u32) << 16) | ((b2 as u32) << 8) | (b3 as u32)
        == v) by (bit_vector)
        requires
            b0 == ((v >> 24) & 0xff) as u8,
            b1 == ((v >> 16) & 0xff) as u8,
            b2 == ((v >> 8) & 0xff) as u8,
            b3 == (v & 0xff) as u8,
    ;
    assert((b3 as u32) | ((b2 as u32) << 8) | ((b1 as u32) << 16) | ((b0 as u32) << 24)
        == v) by (bit_vector)
        requires
            b0 == ((v >> 24) & 0xff) as u8,
            b1 == ((v >> 16) & 0xff) as u8,
            b2 == ((v >> 8) & 0xff) as u8,
            b3 == (v & 0xff) as u8,
    ;
}

/// The eight bytes of `v` under the byte order of `tag`.
pub open spec fn spec_u64_to_bytes(tag: u8, v: u64) -> Seq<u8> {
    if tag == ENDIAN_TAG_BIG {
        seq![
            ((v >> 56) & 0xff) as u8,
            ((v >> 48) & 0xff) as u8,
            ((v >> 40) & 0xff) as u8,
            ((v >> 32) & 0xff) as u8,
            ((v >> 24) & 0xff) as u8,
            ((v >> 16) & 0xff) as u8,
            ((v >> 8) & 0xff) as u8,
            (v & 0xff) as u8,
        ]
    } else {
        seq![
            (v & 0xff) as u8,
            ((v >> 8) & 0xff) as u8,
            ((v >> 16) & 0xff) as u8,
            ((v >> 24) & 0xff) as u8,
            ((v >> 32) & 0xff) as u8,
            ((v >> 40) & 0xff) as u8,
            ((v >> 48) & 0xff) as u8,
            ((v >> 56) & 0xff) as u8,
        ]
    }
}

/// The value read back from eight bytes under the byte order of `tag`.
pub open spec fn spec_u64_of8(
    tag: u8,
    b0: u8,
    b1: u8,
    b2: u8,
    b3: u8,
    b4: u8,
    b5: u8,
    b6: u8,
    b7: u8,
) -> u64 {
    if tag == ENDIAN_TAG_BIG {
        ((b0 as u64) << 56) | ((b1 as u64) << 48) | ((b2 as u64) << 40) | ((b3 as u64) << 32) | (
        (b4 as u64) << 24) | ((b5 as u64) << 16) | ((b6 as u64) << 8) | (b7 as u64)
    } else {
        (b0 as u64) | ((b1 as u64) << 8) | ((b2 as u64) << 16) | ((b3 as u64) << 24) | ((b4
            as u64) << 32) | ((b5 as u64) << 40) | ((b6 as u64) << 48) | ((b7 as u64) << 56)
    }
}

/// Reading eight bytes written from `v` gives back `v`, in either byte
/// order.
pub proof fn lemma_u64_bytes_round_trip(tag: u8, v: u64)
    ensures
        ({
            let b = spec_u64_to_bytes(tag, v);
            spec_u64_of8(tag, b[0], b[1], b[2], b[3], b[4], b[5], b[6], b[7]) == v
        }),
{
    let b0 = ((v >> 56) & 0xff) as u8;
    let b1 = ((v >> 48) & 0xff) as u8;
    let b2 = ((v >> 40) & 0xff) as u8;
    let b3 = ((v >> 32) & 0xff) as u8;
    let b4 = ((v >> 24) & 0xff) as u8;
    let b5 = ((v >> 16) & 0xff) as u8;
    let b6 = ((v >> 8) & 0xff) as u8;
    let b7 = (v & 0xff) as u8;
    assert(((b0 as u64) << 56) | ((b1 as u64) << 48) | ((b2 as u64) << 40) | ((b3 as u64) << 32) | (
    (b4 as u64) << 24) | ((b5 as u64) << 16) | ((b6 as u64) << 8) | (b7 as u64) == v)
        by (bit_vector)
        requires
            b0 == ((v >> 56) & 0xff) as u8,
            b1 == ((v >> 48) & 0xff) as u8,
            b2 == ((v >> 40) & 0xff) as u8,
            b3 == ((v >> 32) & 0xff) as u8,
            b4 == ((v >> 24) & 0xff) as u8,
            b5 == ((v >> 16) & 0xff) as u8,
            b6 == ((v >> 8) & 0xff) as u8,
            b7 == (v & 0xff) as u8,
    ;
    assert((b7 as u64) | ((b6 as u64) << 8) | ((b5 as u64) << 16) | ((b4 as u64) << 24) | ((b3
        as u64) << 32) | ((b2 as u64) << 40) | ((b1 as u64) << 48) | ((b0 as u64) << 56) == v)
        by (bit_vector)
        requires
            b0 == ((v >> 56) & 0xff) as u8,
            b1 == ((v >> 48) & 0xff) as u8,
            b2 == ((v >> 40) & 0xff) as u8,
            b3 == ((v >> 32) & 0xff) as u8,
            b4 == ((v >> 24) & 0xff) as u8,
            b5 == ((v >> 16) & 0xff) as u8,
            b6 == ((v >> 8) & 0xff) as u8,
            b7 == (v & 0xff) as u8,
    ;
}

/// Appends the four bytes of `v` under the byte order of `tag`.
pub fn write_u32(buf: &mut Vec<u8>, tag: u8, v: u32)
    ensures
        final(buf)@ == old(buf)@ + spec_u32_to_bytes(tag, v),
{
    if tag == ENDIAN_TAG_BIG {
        buf.push(((v >> 24) & 0xff) as u8);
        buf.push(((v >> 16) & 0xff) as u8);
        buf.push(((v >> 8) & 0xff) as u8);
        buf.push((v & 0xff) as u8);
    } else {
        buf.push((v & 0xff) as u8);
        buf.push(((v >> 8) & 0xff) as u8);
        buf.push(((v >> 16) & 0xff) as u8);
        buf.push(((v >> 24) & 0xff) as u8);
    }
    proof {
        assert(buf@ =~= old(buf)@ + spec_u32_to_bytes(tag, v));
    }
}

/// Appends the eight bytes of `v` under the byte order of `tag`.
pub fn write_u64(buf: &mut Vec<u8>, tag: u8, v: u64)
    ensures
        final(buf)@ == old(buf)@ + spec_u64_to_bytes(tag, v),
{
    if tag == ENDIAN_TAG_BIG {
        buf.push(((v >> 56) & 0xff) as u8);
        buf.push(((v >> 48) & 0xff) as u8);
        buf.push(((v >> 40) & 0xff) as u8);
        buf.push(((v >> 32) & 0xff) as u8);
        buf.push(((v >> 24) & 0xff) as u8);
        buf.push(((v >> 16) & 0xff) as u8);
        buf.push(((v >> 8) & 0xff) as u8);
        buf.push((v & 0xff) as u8);
    } else {
        buf.push((v & 0xff) as u8);
        buf.push(((v >> 8) & 0xff) as u8);
        buf.push(((v >> 16) & 0xff) as u8);
        buf.push(((v >> 24) & 0xff) as u8);
        buf.push(((v >> 32) & 0xff) as u8);
        buf.push(((v >> 40) & 0xff) as u8);
        buf.push(((v >> 48) & 0xff) as u8);
        buf.push(((v >> 56) & 0xff) as u8);
    }
    proof {
        assert(buf@ =~= old(buf)@ + spec_u64_to_bytes(tag, v));
    }
}

/// Reads the `u32` at `pos` under the byte order of `tag`.
pub fn read_u32(buf: &Vec<u8>, pos: usize, tag: u8) -> (r: u32)
    requires
        pos + 4 <= buf.len(),
    ensures
        r == spec_u32_of4(tag, buf@[pos as int], buf@[pos + 1], buf@[pos + 2], buf@[pos + 3]),
{
    let b0 = buf[pos];
    let b1 = buf[pos + 1];
    let b2 = buf[pos + 2];
    let b3 = buf[pos + 3];
    if tag == ENDIAN_TAG_BIG {
        ((b0 as u32) << 24) | ((b1 as u32) << 16) | ((b2 as u32) << 8) | (b3 as u32)
    } else {
        (b0 as u32) | ((b1 as u32) << 8) | ((b2 as u32) << 16) | ((b3 as u32) << 24)
    }
}

/// Reads the `u64` at `pos` under the byte order of `tag`.
pub fn read_u64(buf: &Vec<u8>, pos: usize, tag: u8) -> (r: u64)
    requires
        pos + 8 <= buf.len(),
    ensures
        r == spec_u64_of8(
            tag,
            buf@[pos as int],
            buf@[pos + 1],
            buf@[pos + 2],
            buf@[pos + 3],
            buf@[pos + 4],
            buf@[pos + 5],
            buf@[pos + 6],
            buf@[pos + 7],
        ),
{
    let b0 = buf[pos];
    let b1 = buf[pos + 1];
    let b2 = buf[pos + 2];
    let b3 = buf[pos + 3];
    let b4 = buf[pos + 4];
    let b5 = buf[pos + 5];
    let b6 = buf[pos + 6];
    let b7 = buf[pos + 7];
    if tag == ENDIAN_TAG_BIG {
        ((b0 as u64) << 56) | ((b1 as u64) << 48) | ((b2 as u64) << 40) | ((b3 as u64) << 32) | (
        (b4 as u64) << 24) | ((b5 as u64) << 16) | ((b6 as u64) << 8) | (b7 as u64)
    } else {
        (b0 as u64) | ((b1 as u64) << 8) | ((b2 as u64) << 16) | ((b3 as u64) << 24) | ((b4
            as u64) << 32) | ((b5 as u64) << 40) | ((b6 as u64) << 48) | ((b7 as u64) << 56)
    }
}

} // verus!
