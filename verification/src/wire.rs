use vstd::prelude::*;

verus! {

/// Little-endian bytes of a 16-bit word.
pub open spec fn le16(v: u16) -> Seq<u8> {
    seq![(v % 256) as u8, (v / 256) as u8]
}

/// Little-endian bytes of a 32-bit word.
pub open spec fn le32(v: u32) -> Seq<u8> {
    seq![
        (v % 256) as u8,
        ((v / 256) % 256) as u8,
        ((v / 65536) % 256) as u8,
        (v / 16777216) as u8,
    ]
}

/// Little-endian bytes of a 64-bit word.
pub open spec fn le64(v: u64) -> Seq<u8> {
    seq![
        (v % 256) as u8,
        ((v / 256) % 256) as u8,
        ((v / 65536) % 256) as u8,
        ((v / 16777216) % 256) as u8,
        ((v / 4294967296) % 256) as u8,
        ((v / 1099511627776) % 256) as u8,
        ((v / 281474976710656) % 256) as u8,
        (v / 72057594037927936) as u8,
    ]
}

/// The 16-bit word read from two little-endian bytes.
pub open spec fn word16(b0: u8, b1: u8) -> u16 {
    (b0 + b1 * 256) as u16
}

/// The 32-bit word read from four little-endian bytes.
pub open spec fn word32(b0: u8, b1: u8, b2: u8, b3: u8) -> u32 {
    (b0 + b1 * 256 + b2 * 65536 + b3 * 16777216) as u32
}

/// The 64-bit word read from eight little-endian bytes.
pub open spec fn word64(b0: u8, b1: u8, b2: u8, b3: u8, b4: u8, b5: u8, b6: u8, b7: u8) -> u64 {
    (b0 + b1 * 256 + b2 * 65536 + b3 * 16777216 + b4 * 4294967296 + b5 * 1099511627776 + b6
        * 281474976710656 + b7 * 72057594037927936) as u64
}

/// Reading back the bytes of a word yields the word: the little-endian
/// layout is lossless in both directions.
pub proof fn lemma_le16_round_trip(v: u16, b0: u8, b1: u8)
    ensures
        word16(le16(v)[0], le16(v)[1]) == v,
        le16(word16(b0, b1)) =~= seq![b0, b1],
{
    assert(((v % 256) as u8) as u16 + (((v / 256) as u8) as u16) * 256 == v) by (bit_vector);
    assert((b0 as u16 + b1 as u16 * 256) % 256 == b0 as u16 && (b0 as u16 + b1 as u16 * 256) / 256
        == b1 as u16) by (bit_vector);
}

pub proof fn lemma_le32_round_trip(v: u32, b0: u8, b1: u8, b2: u8, b3: u8)
    ensures
        word32(le32(v)[0], le32(v)[1], le32(v)[2], le32(v)[3]) == v,
        le32(word32(b0, b1, b2, b3)) =~= seq![b0, b1, b2, b3],
{
    assert(((v % 256) as u8) as u32 + (((v / 256) % 256) as u8) as u32 * 256 + (((v / 65536) % 256)
        as u8) as u32 * 65536 + ((v / 16777216) as u8) as u32 * 16777216 == v) by (bit_vector);
    assert({
        let w = (b0 as u32 + b1 as u32 * 256 + b2 as u32 * 65536 + b3 as u32 * 16777216) as u32;
        w % 256 == b0 as u32 && (w / 256) % 256 == b1 as u32 && (w / 65536) % 256 == b2 as u32
            && w / 16777216 == b3 as u32
    }) by (bit_vector);
}

pub proof fn lemma_le64_round_trip(v: u64)
    ensures
        word64(
            le64(v)[0],
            le64(v)[1],
            le64(v)[2],
            le64(v)[3],
            le64(v)[4],
            le64(v)[5],
            le64(v)[6],
            le64(v)[7],
        ) == v,
{
    assert(((v % 256) as u8) as u64 + (((v / 256) % 256) as u8) as u64 * 256 + (((v / 65536) % 256)
        as u8) as u64 * 65536 + (((v / 16777216) % 256) as u8) as u64 * 16777216 + (((v
        / 4294967296) % 256) as u8) as u64 * 4294967296 + (((v / 1099511627776) % 256) as u8)
        as u64 * 1099511627776 + (((v / 281474976710656) % 256) as u8) as u64 * 281474976710656 + (
    (v / 72057594037927936) as u8) as u64 * 72057594037927936 == v) by (bit_vector);
}

/// Append the two little-endian bytes of a 16-bit word.
pub fn push_u16(buf: &mut Vec<u8>, v: u16)
    ensures
        final(buf)@ == old(buf)@ + le16(v),
{
    buf.push((v % 256) as u8);
    buf.push((v / 256) as u8);
    proof {
        assert(buf@ =~= old(buf)@ + le16(v));
    }
}

/// Append the four little-endian bytes of a 32-bit word.
pub fn push_u32(buf: &mut Vec<u8>, v: u32)
    ensures
        final(buf)@ == old(buf)@ + le32(v),
{
    buf.push((v % 256) as u8);
    buf.push((v / 256 % 256) as u8);
    buf.push((v / 65536 % 256) as u8);
    buf.push((v / 16777216) as u8);
    proof {
        assert(buf@ =~= old(buf)@ + le32(v));
    }
}

/// Append the eight little-endian bytes of a 64-bit word.
pub fn push_u64(buf: &mut Vec<u8>, v: u64)
    ensures
        final(buf)@ == old(buf)@ + le64(v),
{
    buf.push((v % 256) as u8);
    buf.push((v / 256 % 256) as u8);
    buf.push((v / 65536 % 256) as u8);
    buf.push((v / 16777216 % 256) as u8);
    buf.push((v / 4294967296 % 256) as u8);
    buf.push((v / 1099511627776 % 256) as u8);
    buf.push((v / 281474976710656 % 256) as u8);
    buf.push((v / 72057594037927936) as u8);
    proof {
        assert(buf@ =~= old(buf)@ + le64(v));
    }
}

/// Combine two little-endian bytes into a 16-bit word.
pub fn make_u16(b0: u8, b1: u8) -> (v: u16)
    ensures
        v == word16(b0, b1),
        le16(v) =~= seq![b0, b1],
{
    proof {
        lemma_le16_round_trip(0, b0, b1);
    }
    b0 as u16 + b1 as u16 * 256
}

/// Combine four little-endian bytes into a 32-bit word.
pub fn make_u32(b0: u8, b1: u8, b2: u8, b3: u8) -> (v: u32)
    ensures
        v == word32(b0, b1, b2, b3),
        le32(v) =~= seq![b0, b1, b2, b3],
{
    proof {
        lemma_le32_round_trip(0, b0, b1, b2, b3);
    }
    b0 as u32 + b1 as u32 * 256 + b2 as u32 * 65536 + b3 as u32 * 16777216
}

/// Combine eight little-endian bytes into a 64-bit word.
pub fn make_u64(b0: u8, b1: u8, b2: u8, b3: u8, b4: u8, b5: u8, b6: u8, b7: u8) -> (v: u64)
    ensures
        v == word64(b0, b1, b2, b3, b4, b5, b6, b7),
        le64(v) =~= seq![b0, b1, b2, b3, b4, b5, b6, b7],
{
    let v: u64 = b0 as u64 + b1 as u64 * 256 + b2 as u64 * 65536 + b3 as u64 * 16777216 + b4
        as u64 * 4294967296 + b5 as u64 * 1099511627776 + b6 as u64 * 281474976710656 + b7 as u64
        * 72057594037927936;
    proof {
        assert({
            let w = (b0 as u64 + b1 as u64 * 256 + b2 as u64 * 65536 + b3 as u64 * 16777216 + b4
                as u64 * 4294967296 + b5 as u64 * 1099511627776 + b6 as u64 * 281474976710656 + b7
                as u64 * 72057594037927936) as u64;
            w % 256 == b0 as u64 && (w / 256) % 256 == b1 as u64 && (w / 65536) % 256 == b2 as u64
                && (w / 16777216) % 256 == b3 as u64 && (w / 4294967296) % 256 == b4 as u64 && (w
                / 1099511627776) % 256 == b5 as u64 && (w / 281474976710656) % 256 == b6 as u64
                && w / 72057594037927936 == b7 as u64
        }) by (bit_vector);
    }
    v
}

} // verus!
