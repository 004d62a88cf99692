//! The fixed 24-byte header at the start of every GGUF file.
use vstd::prelude::*;
use crate::bytes::{le32, le64, le_encodes, lemma_le32_encodes, lemma_le64_encodes, read_u32, read_u64};

verus! {

/// The counts and version that the header announces.
pub struct GgufHeader {
    pub version: u32,
    pub kv_count: u64,
    pub tensor_count: u64,
}

/// The first four bytes spell `GGUF`.
pub open spec fn has_gguf_magic(s: Seq<u8>) -> bool {
    &&& s.len() >= 4
    &&& s[0] == 0x47u8
    &&& s[1] == 0x47u8
    &&& s[2] == 0x55u8
    &&& s[3] == 0x46u8
}

/// Decodes a header: magic `GGUF`, then the version (u32), the tensor
/// count (u64) and the key-value count (u64), all little-endian.
pub fn parse(header: &[u8; 24]) -> (r: Result<GgufHeader, String>)
    ensures
        r is Ok <==> has_gguf_magic(header@),
        r matches Ok(h) ==> {
            &&& h.version == le32(header@, 4)
            &&& h.tensor_count == le64(header@, 8)
            &&& h.kv_count == le64(header@, 16)
            &&& le_encodes(header@.subrange(4, 8), h.version as int)
            &&& le_encodes(header@.subrange(8, 16), h.tensor_count as int)
            &&& le_encodes(header@.subrange(16, 24), h.kv_count as int)
        },
        r matches Err(msg) ==> msg@ == "Invalid magic number"@,
{
    let bytes: &[u8] = header.as_slice();
    if !(bytes[0] == 0x47u8 && bytes[1] == 0x47u8 && bytes[2] == 0x55u8 && bytes[3] == 0x46u8) {
        return Err("Invalid magic number".to_owned());
    }
    let version = read_u32(bytes, 4);
    let tensor_count = read_u64(bytes, 8);
    let kv_count = read_u64(bytes, 16);
    proof {
        lemma_le32_encodes(header@, 4);
        lemma_le64_encodes(header@, 8);
        lemma_le64_encodes(header@, 16);
    }
    Ok(GgufHeader { version: version, kv_count: kv_count, tensor_count: tensor_count })
}

} // verus!
