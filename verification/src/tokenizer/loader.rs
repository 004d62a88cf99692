//! An earlier tokenizer front end, in which the GPT-2 tokenizer checks nothing.
use vstd::prelude::*;
use crate::gguf::loader::GgufFile;
use crate::gguf::metadata::{GgufMetadataValue, MetadataView};
use crate::tokenizer::{model_key, TokenizeError, TokenizeErrorView};

verus! {

/// How tokenizing fails here: as [`crate::tokenizer::spec_tokenize_error`],
/// except that `gpt2` fails at once as not implemented.
pub open spec fn spec_loader_tokenize_error(md: Map<Seq<char>, MetadataView>) -> TokenizeErrorView {
    if !md.contains_key(model_key()) {
        TokenizeErrorView::MissingTokenizerMetadata
    } else {
        match md[model_key()] {
            MetadataView::String(m) => if m == "gpt2"@ {
                TokenizeErrorView::NotImplemented
            } else {
                TokenizeErrorView::UnsupportedModel(m)
            },
            other => TokenizeErrorView::UnsupportedModelType(other.type_code()),
        }
    }
}

/// Tokenizes `input` with the tokenizer that the model's metadata names;
/// always fails (see [`spec_loader_tokenize_error`]).
pub fn tokenize(file: &GgufFile, input: &str) -> (r: Result<Vec<u32>, TokenizeError>)
    ensures
        r matches Err(e) && e@ == spec_loader_tokenize_error(file@.metadata),
{
    if !file.metadata.contains_key("tokenizer.ggml.model") {
        return Err(TokenizeError::MissingTokenizerMetadata);
    }
    let model_gguf_value = match file.metadata.get("tokenizer.ggml.model") {
        Some(v) => v,
        None => return Err(TokenizeError::MissingTokenizerMetadata),
    };
    match model_gguf_value {
        GgufMetadataValue::String(model) => {
            let gpt2_name = "gpt2".to_owned();
            if *model == gpt2_name {
                tokenize_gpt2(file, input)
            } else {
                Err(TokenizeError::UnsupportedModel(model.clone()))
            }
        },
        other => Err(TokenizeError::UnsupportedModelType(other.value_type())),
    }
}

/// The GPT-2 tokenizer of this front end: not implemented, it always fails.
pub fn tokenize_gpt2(file: &GgufFile, input: &str) -> (r: Result<Vec<u32>, TokenizeError>)
    ensures
        r matches Err(e) && e@ == TokenizeErrorView::NotImplemented,
{
    Err(TokenizeError::NotImplemented)
}

} // verus!
