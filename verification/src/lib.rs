//! Reading GGUF model files: header, metadata, tensor descriptions and
//! weights, decoded from the bytes of a file, and the tokenizer front end
//! that dispatches on the model's tokenizer metadata.
pub mod bytes;
pub mod gguf;
pub mod text;
pub mod tokenizer;
