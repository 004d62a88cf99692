//! The GPT-2 (byte-pair encoding) tokenizer.
use vstd::prelude::*;
use crate::gguf::loader::GgufFile;
use crate::gguf::metadata::{views, MetadataView};
use crate::tokenizer::{TokenizeError, TokenizeErrorView, TokenizerKey};

verus! {

/// Every value is a string.
pub open spec fn all_strings(vs: Seq<MetadataView>) -> bool {
    forall|i: int| 0 <= i < vs.len() ==> #[trigger] vs[i] is String
}

/// How an array-of-strings entry of the metadata fails to be one, if it does.
pub open spec fn string_array_error(md: Map<Seq<char>, MetadataView>, key: Seq<char>, k: TokenizerKey) -> Option<TokenizeErrorView> {
    if !md.contains_key(key) {
        Some(TokenizeErrorView::MissingKey(k))
    } else {
        match md[key] {
            MetadataView::Array(vs) => if all_strings(vs) { None } else { Some(TokenizeErrorView::NonStringValue(k)) },
            _ => Some(TokenizeErrorView::NotAnArray(k)),
        }
    }
}

/// How GPT-2 tokenizing fails: the token list, then the merge list (arrays
/// of strings), then the end-of-sequence id (a `UInt32`) are checked in
/// turn; with all three in order it fails as not implemented.
pub open spec fn spec_gpt2_error(md: Map<Seq<char>, MetadataView>) -> TokenizeErrorView {
    let eos = "tokenizer.ggml.eos_token_id"@;
    match string_array_error(md, "tokenizer.ggml.tokens"@, TokenizerKey::Tokens) {
        Some(e) => e,
        None => match string_array_error(md, "tokenizer.ggml.merges"@, TokenizerKey::Merges) {
            Some(e) => e,
            None => if !md.contains_key(eos) {
                TokenizeErrorView::MissingKey(TokenizerKey::EosTokenId)
            } else if !(md[eos] is UInt32) {
                TokenizeErrorView::NotUInt32(TokenizerKey::EosTokenId)
            } else {
                TokenizeErrorView::NotImplemented
            },
        },
    }
}

/// Checks that `file.metadata[key]` is an array of strings (see [`string_array_error`]).
fn check_string_array(file: &GgufFile, key: &str, k: TokenizerKey) -> (r: Result<(), TokenizeError>)
    ensures
        match string_array_error(file@.metadata, key@, k) {
            Some(e) => r matches Err(x) && x@ == e,
            None => r is Ok,
        },
{
    let value = match file.metadata.get(key) {
        Some(v) => v,
        None => return Err(TokenizeError::MissingKey(k)),
    };
    let items = match value.as_array() {
        Some(a) => a,
        None => return Err(TokenizeError::NotAnArray(k)),
    };
    let mut i: usize = 0;
    while i < items.len()
        invariant
            file@.metadata.contains_key(key@),
            file@.metadata[key@] == MetadataView::Array(views(items@)),
            i <= items.len(),
            forall|j: int| 0 <= j < i ==> #[trigger] views(items@)[j] is String,
        decreases items.len() - i,
    {
        if items[i].as_string().is_none() {
            assert(!(views(items@)[i as int] is String));
            return Err(TokenizeError::NonStringValue(k));
        }
        i = i + 1;
    }
    Ok(())
}

/// Tokenizes `input` with the GPT-2 tokenizer described by the metadata.
/// Tokenizing is not implemented: this checks the tokenizer entries and
/// always fails (see [`spec_gpt2_error`]).
pub fn tokenize(file: &GgufFile, input: &str) -> (r: Result<Vec<u32>, TokenizeError>)
    ensures
        r matches Err(e) && e@ == spec_gpt2_error(file@.metadata),
{
    check_string_array(file, "tokenizer.ggml.tokens", TokenizerKey::Tokens)?;
    check_string_array(file, "tokenizer.ggml.merges", TokenizerKey::Merges)?;
    let eos = match file.metadata.get("tokenizer.ggml.eos_token_id") {
        Some(v) => v,
        None => return Err(TokenizeError::MissingKey(TokenizerKey::EosTokenId)),
    };
    if eos.as_uint32().is_none() {
        return Err(TokenizeError::NotUInt32(TokenizerKey::EosTokenId));
    }
    Err(TokenizeError::NotImplemented)
}

} // verus!
