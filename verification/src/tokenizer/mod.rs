//! Turning text into token ids with the tokenizer that a model's metadata names.
use vstd::prelude::*;
use crate::gguf::loader::GgufFile;
use crate::gguf::metadata::{GgufMetadataValue, MetadataView};

pub mod gpt2;
pub mod loader;

verus! {

/// The tokenizer metadata entries that the GPT-2 tokenizer reads.
#[derive(Debug, Clone, Copy, PartialEq, Eq, Structural)]
pub enum TokenizerKey {
    /// `tokenizer.ggml.tokens`
    Tokens,
    /// `tokenizer.ggml.merges`
    Merges,
    /// `tokenizer.ggml.eos_token_id`
    EosTokenId,
}

/// Why text could not be tokenized.
#[derive(Debug)]
pub enum TokenizeError {
    /// The metadata has no `tokenizer.ggml.model` entry.
    MissingTokenizerMetadata,
    /// `tokenizer.ggml.model` names a tokenizer that is not supported.
    UnsupportedModel(String),
    /// `tokenizer.ggml.model` is not a string; the payload is its type code.
    UnsupportedModelType(u32),
    /// A tokenizer entry is missing.
    MissingKey(TokenizerKey),
    /// A tokenizer entry that should be an array is not one.
    NotAnArray(TokenizerKey),
    /// A tokenizer array holds a value that is not a string.
    NonStringValue(TokenizerKey),
    /// A tokenizer entry that should be a `UInt32` is not one.
    NotUInt32(TokenizerKey),
    /// The tokenizer is recognised but tokenizing is not implemented.
    NotImplemented,
}

/// The mathematical value of a [`TokenizeError`].
pub enum TokenizeErrorView {
    MissingTokenizerMetadata,
    UnsupportedModel(Seq<char>),
    UnsupportedModelType(u32),
    MissingKey(TokenizerKey),
    NotAnArray(TokenizerKey),
    NonStringValue(TokenizerKey),
    NotUInt32(TokenizerKey),
    NotImplemented,
}

impl View for TokenizeError {
    type V = TokenizeErrorView;

    open spec fn view(&self) -> TokenizeErrorView {
        match self {
            TokenizeError::MissingTokenizerMetadata => TokenizeErrorView::MissingTokenizerMetadata,
            TokenizeError::UnsupportedModel(s) => TokenizeErrorView::UnsupportedModel(s@),
            TokenizeError::UnsupportedModelType(c) => TokenizeErrorView::UnsupportedModelType(*c),
            TokenizeError::MissingKey(k) => TokenizeErrorView::MissingKey(*k),
            TokenizeError::NotAnArray(k) => TokenizeErrorView::NotAnArray(*k),
            TokenizeError::NonStringValue(k) => TokenizeErrorView::NonStringValue(*k),
            TokenizeError::NotUInt32(k) => TokenizeErrorView::NotUInt32(*k),
            TokenizeError::NotImplemented => TokenizeErrorView::NotImplemented,
        }
    }
}

/// The key that names the tokenizer model.
pub open spec fn model_key() -> Seq<char> {
    "tokenizer.ggml.model"@
}

/// How tokenizing fails for the given metadata: the model entry must exist
/// and be a string; `gpt2` goes to the GPT-2 tokenizer (see
/// [`gpt2::spec_gpt2_error`]), any other name is unsupported.
pub open spec fn spec_tokenize_error(md: Map<Seq<char>, MetadataView>) -> TokenizeErrorView {
    if !md.contains_key(model_key()) {
        TokenizeErrorView::MissingTokenizerMetadata
    } else {
        match md[model_key()] {
            MetadataView::String(m) => if m == "gpt2"@ {
                gpt2::spec_gpt2_error(md)
            } else {
                TokenizeErrorView::UnsupportedModel(m)
            },
            other => TokenizeErrorView::UnsupportedModelType(other.type_code()),
        }
    }
}

/// Tokenizes `input` with the tokenizer that the model's metadata names.
/// No tokenizer is implemented, so this always fails, and the error says
/// why (see [`spec_tokenize_error`]).
pub fn tokenize(file: &GgufFile, input: &str) -> (r: Result<Vec<u32>, TokenizeError>)
    ensures
        r matches Err(e) && e@ == spec_tokenize_error(file@.metadata),
{
    if !file.metadata.contains_key("tokenizer.ggml.model") {
        return Err(TokenizeError::MissingTokenizerMetadata);
    }
    let model_gguf_value = match file.metadata.get("tokenizer.ggml.model") {
        Some(v) => v,
        None => return Err(TokenizeError::MissingTokenizerMetadata),
    };
    match model_gguf_value {
        GgufMetadataValue::String(model) => {
            let gpt2_name = "gpt2".to_owned();
            if *model == gpt2_name {
                gpt2::tokenize(file, input)
            } else {
                Err(TokenizeError::UnsupportedModel(model.clone()))
            }
        },
        other => Err(TokenizeError::UnsupportedModelType(other.value_type())),
    }
}

} // verus!
