//! A whole GGUF file: header, metadata, then tensors.
use vstd::prelude::*;
use vstd::hash_map::StringHashMap;
use crate::bytes::{le32, le64, le_encodes, lemma_le32_encodes, lemma_le64_encodes};
use crate::gguf::error::{GgufError, GgufField};
use crate::gguf::header::{self, has_gguf_magic, GgufHeader};
use crate::gguf::metadata::{self, entries_map, entry_keys, lemma_entries_bounds, lemma_entries_map_from_pair, lemma_entries_map_len, metadata_view, spec_entries, spec_metadata, GgufMetadataValue, MetadataView};
use crate::gguf::tensors::{self, align32, lemma_infos_bounds, lemma_tensor_list_len, spec_infos, spec_tensor_list, spec_tensors, tensor_names, tensors_view, GgufTensor, TensorView};

verus! {

/// A decoded GGUF file.
pub struct GgufFile {
    pub header: GgufHeader,
    pub metadata: StringHashMap<GgufMetadataValue>,
    pub tensors: StringHashMap<GgufTensor>,
}

/// The mathematical value of a [`GgufFile`].
pub struct FileView {
    pub header: GgufHeader,
    pub metadata: Map<Seq<char>, MetadataView>,
    pub tensors: Map<Seq<char>, TensorView>,
}

impl View for GgufFile {
    type V = FileView;

    open spec fn view(&self) -> FileView {
        FileView { header: self.header, metadata: metadata_view(self.metadata@), tensors: tensors_view(self.tensors@) }
    }
}

/// The header that the first 24 bytes announce.
pub open spec fn spec_header(d: Seq<u8>) -> GgufHeader {
    GgufHeader { version: le32(d, 4) as u32, kv_count: le64(d, 16) as u64, tensor_count: le64(d, 8) as u64 }
}

/// The file that the bytes encode: a 24-byte header, `kv_count` metadata
/// pairs from byte 24, then `tensor_count` tensor descriptions and the
/// tensors' weights.
pub open spec fn spec_file(d: Seq<u8>) -> Result<FileView, GgufError> {
    if d.len() < 24 {
        Err(GgufError::UnexpectedEnd(GgufField::Header))
    } else if !has_gguf_magic(d) {
        Err(GgufError::InvalidMagic)
    } else {
        let h = spec_header(d);
        match spec_metadata(d, 24, h.kv_count as nat) {
            Err(e) => Err(e),
            Ok((m, p)) => match spec_tensors(d, p, h.tensor_count as nat) {
                Err(e) => Err(e),
                Ok(t) => Ok(FileView { header: h, metadata: m, tensors: t }),
            },
        }
    }
}

/// Decodes the bytes of a GGUF file (see [`spec_file`]).
pub fn parse_file(data: &[u8]) -> (r: Result<GgufFile, GgufError>)
    ensures
        match r {
            Ok(f) => spec_file(data@) == Ok::<FileView, GgufError>(f@),
            Err(e) => spec_file(data@) == Err::<FileView, GgufError>(e),
        },
{
    if data.len() < 24 {
        return Err(GgufError::UnexpectedEnd(GgufField::Header));
    }
    let header_bytes: [u8; 24] = [
        data[0], data[1], data[2], data[3], data[4], data[5], data[6], data[7],
        data[8], data[9], data[10], data[11], data[12], data[13], data[14], data[15],
        data[16], data[17], data[18], data[19], data[20], data[21], data[22], data[23],
    ];
    assert(header_bytes@ =~= data@.subrange(0, 24));
    let header = match header::parse(&header_bytes) {
        Ok(h) => h,
        Err(_) => return Err(GgufError::InvalidMagic),
    };
    assert(header == spec_header(data@));
    let (metadata, p) = match metadata::parse(data, 24, header.kv_count) {
        Ok(res) => res,
        Err(e) => return Err(e),
    };
    let tensors = match tensors::parse(data, p, header.tensor_count) {
        Ok(t) => t,
        Err(e) => return Err(e),
    };
    Ok(GgufFile { header: header, metadata: metadata, tensors: tensors })
}


/// The metadata pairs of the file, in file order (empty where they do not decode).
pub open spec fn file_entries(d: Seq<u8>) -> Seq<(Seq<char>, MetadataView)> {
    match spec_entries(d, 24, spec_header(d).kv_count as nat) {
        Ok((es, _)) => es,
        Err(_) => Seq::empty(),
    }
}

/// The tensors of the file, in file order (empty where they do not decode).
pub open spec fn file_tensors(d: Seq<u8>) -> Seq<TensorView> {
    match spec_metadata(d, 24, spec_header(d).kv_count as nat) {
        Ok((_, p)) => match spec_infos(d, p, spec_header(d).tensor_count as nat) {
            Ok((infos, p2)) => match spec_tensor_list(d, align32(p2), infos) {
                Ok(ts) => ts,
                Err(_) => Seq::empty(),
            },
            Err(_) => Seq::empty(),
        },
        Err(_) => Seq::empty(),
    }
}

/// A decoded file has at most as many metadata entries as the header
/// announces, and exactly as many when no key occurs twice; likewise for
/// the tensors and their names.
pub proof fn lemma_file_counts(d: Seq<u8>)
    requires
        spec_file(d) is Ok,
    ensures
        spec_file(d) matches Ok(f) && {
            &&& f.metadata.len() <= f.header.kv_count
            &&& f.tensors.len() <= f.header.tensor_count
            &&& entry_keys(file_entries(d)).no_duplicates() ==> f.metadata.len() == f.header.kv_count
            &&& tensor_names(file_tensors(d)).no_duplicates() ==> f.tensors.len() == f.header.tensor_count
        },
{
    let h = spec_header(d);
    lemma_entries_bounds(d, 24, h.kv_count as nat);
    let (es, p) = spec_entries(d, 24, h.kv_count as nat).unwrap();
    lemma_entries_map_len(es);
    lemma_infos_bounds(d, p, h.tensor_count as nat);
    let (infos, p2) = spec_infos(d, p, h.tensor_count as nat).unwrap();
    lemma_tensor_list_len(d, align32(p2), infos);
    let ts = spec_tensor_list(d, align32(p2), infos).unwrap();
    let pairs = Seq::new(ts.len(), |i: int| (ts[i].info.name, ts[i]));
    lemma_entries_map_len(pairs);
    assert(entry_keys(pairs) =~= tensor_names(ts));
}

/// In a decoded file every tensor is stored under its own name.
pub proof fn lemma_tensors_keyed_by_name(d: Seq<u8>)
    requires
        spec_file(d) is Ok,
    ensures
        spec_file(d) matches Ok(f) && forall|k: Seq<char>| #[trigger] f.tensors.contains_key(k) ==> f.tensors[k].info.name == k,
{
    let h = spec_header(d);
    let (es, p) = spec_entries(d, 24, h.kv_count as nat).unwrap();
    let (infos, p2) = spec_infos(d, p, h.tensor_count as nat).unwrap();
    let ts = spec_tensor_list(d, align32(p2), infos).unwrap();
    let pairs = Seq::new(ts.len(), |i: int| (ts[i].info.name, ts[i]));
    assert forall|k: Seq<char>| #[trigger] entries_map(pairs).contains_key(k) implies entries_map(pairs)[k].info.name == k by {
        lemma_entries_map_from_pair(pairs, k);
    }
}

/// A decoded file starts with the bytes `GGUF`, and its header holds the
/// little-endian numbers of bytes 4..8 (version), 8..16 (tensor count) and
/// 16..24 (metadata count).
pub proof fn lemma_file_header(d: Seq<u8>)
    ensures
        spec_file(d) matches Ok(f) ==> {
            &&& d.subrange(0, 4) == seq![0x47u8, 0x47u8, 0x55u8, 0x46u8]
            &&& le_encodes(d.subrange(4, 8), f.header.version as int)
            &&& le_encodes(d.subrange(8, 16), f.header.tensor_count as int)
            &&& le_encodes(d.subrange(16, 24), f.header.kv_count as int)
        },
{
    if let Ok(f) = spec_file(d) {
        assert(d.subrange(0, 4) =~= seq![0x47u8, 0x47u8, 0x55u8, 0x46u8]);
        lemma_le32_encodes(d, 4);
        lemma_le64_encodes(d, 8);
        lemma_le64_encodes(d, 16);
    }
}
} // verus!
