pub mod error;
pub mod header;
pub mod metadata;
pub mod tensors;
pub mod loader;
