//! Little-endian decoding of fixed-width integers from a byte buffer.
use vstd::prelude::*;

verus! {

/// The unsigned value of the two bytes at `i` and `i + 1`, least significant first.
pub open spec fn le16(s: Seq<u8>, i: int) -> int {
    s[i] + 256 * s[i + 1]
}

/// The unsigned value of the four bytes starting at `i`, least significant first.
pub open spec fn le32(s: Seq<u8>, i: int) -> int {
    le16(s, i) + 65536 * le16(s, i + 2)
}

/// The unsigned value of the eight bytes starting at `i`, least significant first.
pub open spec fn le64(s: Seq<u8>, i: int) -> int {
    le32(s, i) + 4294967296 * le32(s, i + 4)
}

/// The two's complement reading of an unsigned `bits`-wide value `u`.
pub open spec fn twos(u: int, bits: nat) -> int {
    if u >= vstd::arithmetic::power2::pow2((bits - 1) as nat) {
        u - vstd::arithmetic::power2::pow2(bits)
    } else {
        u
    }
}

pub fn read_u16(data: &[u8], pos: usize) -> (r: u16)
    requires
        pos + 2 <= data.len(),
    ensures
        r == le16(data@, pos as int),
{
    (data[pos] as u16) + (data[pos + 1] as u16) * 256
}

pub fn read_u32(data: &[u8], pos: usize) -> (r: u32)
    requires
        pos + 4 <= data.len(),
    ensures
        r == le32(data@, pos as int),
{
    (data[pos] as u32) + (data[pos + 1] as u32) * 256 + (data[pos + 2] as u32) * 65536
        + (data[pos + 3] as u32) * 16777216
}

pub fn read_u64(data: &[u8], pos: usize) -> (r: u64)
    requires
        pos + 8 <= data.len(),
    ensures
        r == le64(data@, pos as int),
{
    let lo = read_u32(data, pos) as u64;
    let hi = read_u32(data, pos + 4) as u64;
    lo + hi * 4294967296
}


/// `x` is the number that `bytes` write in little-endian order: its lowest
/// byte is the first byte, and so on, with nothing left over once the bytes
/// run out. (This holds of exactly one `x`.)
pub open spec fn le_encodes(bytes: Seq<u8>, x: int) -> bool
    decreases bytes.len(),
{
    if bytes.len() == 0 {
        x == 0
    } else {
        x % 256 == bytes[0] as int && le_encodes(bytes.drop_first(), x / 256)
    }
}

/// `x` read as an unsigned value modulo `modulus` (two's complement).
pub open spec fn as_unsigned(x: int, modulus: int) -> int {
    if x < 0 { x + modulus } else { x }
}

/// Putting a byte in front multiplies the encoded number by 256 and adds the byte.
pub proof fn lemma_le_encodes_cons(bytes: Seq<u8>, y: int)
    requires
        bytes.len() > 0,
        y >= 0,
        le_encodes(bytes.drop_first(), y),
    ensures
        le_encodes(bytes, bytes[0] + 256 * y),
{
    let x = bytes[0] + 256 * y;
    vstd::arithmetic::div_mod::lemma_fundamental_div_mod_converse(x, 256, y, bytes[0] as int);
}

/// The two bytes at `i` encode [`le16`] of them.
pub proof fn lemma_le16_encodes(d: Seq<u8>, i: int)
    requires
        0 <= i,
        i + 2 <= d.len(),
    ensures
        le_encodes(d.subrange(i, i + 2), le16(d, i)),
{
    let s = d.subrange(i, i + 2);
    assert(s.drop_first().drop_first() =~= Seq::<u8>::empty());
    lemma_le_encodes_cons(s.drop_first(), 0);
    lemma_le_encodes_cons(s, d[i + 1] as int);
}

/// The four bytes at `i` encode [`le32`] of them.
pub proof fn lemma_le32_encodes(d: Seq<u8>, i: int)
    requires
        0 <= i,
        i + 4 <= d.len(),
    ensures
        le_encodes(d.subrange(i, i + 4), le32(d, i)),
{
    let s = d.subrange(i, i + 4);
    let s1 = s.drop_first();
    let s2 = s1.drop_first();
    let s3 = s2.drop_first();
    assert(s3.drop_first() =~= Seq::<u8>::empty());
    lemma_le_encodes_cons(s3, 0);
    lemma_le_encodes_cons(s2, s3[0] as int);
    lemma_le_encodes_cons(s1, s2[0] + 256 * s3[0]);
    lemma_le_encodes_cons(s, s1[0] + 256 * (s2[0] + 256 * s3[0]));
}

/// The eight bytes at `i` encode [`le64`] of them.
pub proof fn lemma_le64_encodes(d: Seq<u8>, i: int)
    requires
        0 <= i,
        i + 8 <= d.len(),
    ensures
        le_encodes(d.subrange(i, i + 8), le64(d, i)),
{
    let s = d.subrange(i, i + 8);
    let s1 = s.drop_first();
    let s2 = s1.drop_first();
    let s3 = s2.drop_first();
    let s4 = s3.drop_first();
    let s5 = s4.drop_first();
    let s6 = s5.drop_first();
    let s7 = s6.drop_first();
    assert(s7.drop_first() =~= Seq::<u8>::empty());
    let v7 = s7[0] as int;
    let v6 = s6[0] + 256 * v7;
    let v5 = s5[0] + 256 * v6;
    let v4 = s4[0] + 256 * v5;
    let v3 = s3[0] + 256 * v4;
    let v2 = s2[0] + 256 * v3;
    let v1 = s1[0] + 256 * v2;
    lemma_le_encodes_cons(s7, 0);
    lemma_le_encodes_cons(s6, v7);
    lemma_le_encodes_cons(s5, v6);
    lemma_le_encodes_cons(s4, v5);
    lemma_le_encodes_cons(s3, v4);
    lemma_le_encodes_cons(s2, v3);
    lemma_le_encodes_cons(s1, v2);
    lemma_le_encodes_cons(s, v1);
}

} // verus!
