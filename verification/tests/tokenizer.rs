use lib::gguf::loader::{parse_file, GgufFile};
use lib::tokenizer::{self, gpt2, loader, TokenizeError, TokenizerKey};

fn put_u32(out: &mut Vec<u8>, v: u32) {
    out.extend_from_slice(&v.to_le_bytes());
}

fn put_u64(out: &mut Vec<u8>, v: u64) {
    out.extend_from_slice(&v.to_le_bytes());
}

fn put_str(out: &mut Vec<u8>, s: &str) {
    put_u64(out, s.len() as u64);
    out.extend_from_slice(s.as_bytes());
}

enum Entry<'a> {
    Str(&'a str),
    U32(u32),
    StrArray(&'a [&'a str]),
    U32Array(&'a [u32]),
}

fn file_with(entries: &[(&str, Entry)]) -> GgufFile {
    let mut data = b"GGUF".to_vec();
    put_u32(&mut data, 3);
    put_u64(&mut data, 0);
    put_u64(&mut data, entries.len() as u64);
    for (key, value) in entries {
        put_str(&mut data, key);
        match value {
            Entry::Str(s) => {
                put_u32(&mut data, 8);
                put_str(&mut data, s);
            }
            Entry::U32(v) => {
                put_u32(&mut data, 4);
                put_u32(&mut data, *v);
            }
            Entry::StrArray(items) => {
                put_u32(&mut data, 9);
                put_u32(&mut data, 8);
                put_u64(&mut data, items.len() as u64);
                for s in items.iter() {
                    put_str(&mut data, s);
                }
            }
            Entry::U32Array(items) => {
                put_u32(&mut data, 9);
                put_u32(&mut data, 4);
                put_u64(&mut data, items.len() as u64);
                for v in items.iter() {
                    put_u32(&mut data, *v);
                }
            }
        }
    }
    parse_file(&data).unwrap()
}

#[test]
fn missing_tokenizer_metadata() {
    let file = file_with(&[("general.name", Entry::Str("m"))]);
    assert!(matches!(tokenizer::tokenize(&file, "hi"), Err(TokenizeError::MissingTokenizerMetadata)));
    assert!(matches!(loader::tokenize(&file, "hi"), Err(TokenizeError::MissingTokenizerMetadata)));
}

#[test]
fn unsupported_model_name() {
    let file = file_with(&[("tokenizer.ggml.model", Entry::Str("llama"))]);
    match tokenizer::tokenize(&file, "hi") {
        Err(TokenizeError::UnsupportedModel(m)) => assert_eq!(m, "llama"),
        other => panic!("{:?}", other),
    }
    match loader::tokenize(&file, "hi") {
        Err(TokenizeError::UnsupportedModel(m)) => assert_eq!(m, "llama"),
        other => panic!("{:?}", other),
    }
}

#[test]
fn model_of_wrong_type() {
    let file = file_with(&[("tokenizer.ggml.model", Entry::U32(2))]);
    assert!(matches!(tokenizer::tokenize(&file, "hi"), Err(TokenizeError::UnsupportedModelType(4))));
    assert!(matches!(loader::tokenize(&file, "hi"), Err(TokenizeError::UnsupportedModelType(4))));
}

#[test]
fn gpt2_checks_entries_in_order() {
    let file = file_with(&[("tokenizer.ggml.model", Entry::Str("gpt2"))]);
    assert!(matches!(tokenizer::tokenize(&file, "hi"), Err(TokenizeError::MissingKey(TokenizerKey::Tokens))));

    let file = file_with(&[("tokenizer.ggml.model", Entry::Str("gpt2")), ("tokenizer.ggml.tokens", Entry::U32(1))]);
    assert!(matches!(gpt2::tokenize(&file, "hi"), Err(TokenizeError::NotAnArray(TokenizerKey::Tokens))));

    let file = file_with(&[("tokenizer.ggml.model", Entry::Str("gpt2")), ("tokenizer.ggml.tokens", Entry::U32Array(&[1]))]);
    assert!(matches!(gpt2::tokenize(&file, "hi"), Err(TokenizeError::NonStringValue(TokenizerKey::Tokens))));

    let file = file_with(&[
        ("tokenizer.ggml.model", Entry::Str("gpt2")),
        ("tokenizer.ggml.tokens", Entry::StrArray(&["a", "b"])),
    ]);
    assert!(matches!(gpt2::tokenize(&file, "hi"), Err(TokenizeError::MissingKey(TokenizerKey::Merges))));

    let file = file_with(&[
        ("tokenizer.ggml.model", Entry::Str("gpt2")),
        ("tokenizer.ggml.tokens", Entry::StrArray(&["a", "b"])),
        ("tokenizer.ggml.merges", Entry::StrArray(&["a b"])),
    ]);
    assert!(matches!(gpt2::tokenize(&file, "hi"), Err(TokenizeError::MissingKey(TokenizerKey::EosTokenId))));

    let file = file_with(&[
        ("tokenizer.ggml.model", Entry::Str("gpt2")),
        ("tokenizer.ggml.tokens", Entry::StrArray(&["a", "b"])),
        ("tokenizer.ggml.merges", Entry::StrArray(&["a b"])),
        ("tokenizer.ggml.eos_token_id", Entry::Str("b")),
    ]);
    assert!(matches!(gpt2::tokenize(&file, "hi"), Err(TokenizeError::NotUInt32(TokenizerKey::EosTokenId))));
}

#[test]
fn gpt2_is_not_implemented() {
    let file = file_with(&[
        ("tokenizer.ggml.model", Entry::Str("gpt2")),
        ("tokenizer.ggml.tokens", Entry::StrArray(&["a", "b"])),
        ("tokenizer.ggml.merges", Entry::StrArray(&["a b"])),
        ("tokenizer.ggml.eos_token_id", Entry::U32(1)),
    ]);
    assert!(matches!(tokenizer::tokenize(&file, "This is a test message!"), Err(TokenizeError::NotImplemented)));
    assert!(matches!(gpt2::tokenize(&file, "x"), Err(TokenizeError::NotImplemented)));

    let bare = file_with(&[("tokenizer.ggml.model", Entry::Str("gpt2"))]);
    assert!(matches!(loader::tokenize(&bare, "x"), Err(TokenizeError::NotImplemented)));
    assert!(matches!(loader::tokenize_gpt2(&bare, "x"), Err(TokenizeError::NotImplemented)));
}
