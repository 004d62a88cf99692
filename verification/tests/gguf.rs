use lib::bytes::{read_u16, read_u32, read_u64};
use lib::gguf::error::{GgufError, GgufField};
use lib::gguf::header;
use lib::gguf::loader::parse_file;
use lib::gguf::metadata::{self, GgufMetadataValue};
use lib::gguf::tensors::{self, GgufQuantType, GgufTensorInfo, GgufTensorWeights};

fn put_u32(out: &mut Vec<u8>, v: u32) {
    out.extend_from_slice(&v.to_le_bytes());
}

fn put_u64(out: &mut Vec<u8>, v: u64) {
    out.extend_from_slice(&v.to_le_bytes());
}

fn put_str(out: &mut Vec<u8>, s: &str) {
    put_u64(out, s.len() as u64);
    out.extend_from_slice(s.as_bytes());
}

fn header_bytes(version: u32, tensor_count: u64, kv_count: u64) -> Vec<u8> {
    let mut out = b"GGUF".to_vec();
    put_u32(&mut out, version);
    put_u64(&mut out, tensor_count);
    put_u64(&mut out, kv_count);
    out
}

fn kv_u32(out: &mut Vec<u8>, key: &str, v: u32) {
    put_str(out, key);
    put_u32(out, 4);
    put_u32(out, v);
}

fn kv_string(out: &mut Vec<u8>, key: &str, v: &str) {
    put_str(out, key);
    put_u32(out, 8);
    put_str(out, v);
}

fn tensor_info(out: &mut Vec<u8>, name: &str, shape: &[u64], quant: u32, offset: u64) {
    put_str(out, name);
    put_u32(out, shape.len() as u32);
    for d in shape {
        put_u64(out, *d);
    }
    put_u32(out, quant);
    put_u64(out, offset);
}

fn pad_to_32(out: &mut Vec<u8>) {
    while out.len() % 32 != 0 {
        out.push(0xAA);
    }
}

/// The weights of a ternary byte, written out as in the format's description.
fn expected_trits(byte: u8) -> Vec<i8> {
    let combined = ((byte as u16) * 243) / 256;
    let base3 = combined % 81;
    vec![
        (base3 % 3) as i8 - 1,
        ((base3 / 3) % 3) as i8 - 1,
        ((base3 / 9) % 3) as i8 - 1,
        (base3 / 27) as i8 - 1,
        (((byte as u16) * 3) >> 8) as i8 - 1,
    ]
}

#[test]
fn header_parses_fields_little_endian() {
    let bytes = header_bytes(3, 0x0102_0304_0506_0708, 35);
    let arr: [u8; 24] = bytes.try_into().unwrap();
    let h = header::parse(&arr).unwrap();
    assert_eq!(h.version, 3);
    assert_eq!(h.tensor_count, 0x0102_0304_0506_0708);
    assert_eq!(h.kv_count, 35);
}

#[test]
fn header_rejects_bad_magic() {
    let mut bytes = header_bytes(3, 1, 1);
    bytes[3] = b'X';
    let arr: [u8; 24] = bytes.try_into().unwrap();
    match header::parse(&arr) {
        Err(msg) => assert_eq!(msg, "Invalid magic number"),
        Ok(_) => panic!("bad magic accepted"),
    }
}

#[test]
fn little_endian_readers() {
    let data = [0x01u8, 0x02, 0x03, 0x04, 0x05, 0x06, 0x07, 0x08];
    assert_eq!(read_u16(&data, 0), 0x0201);
    assert_eq!(read_u32(&data, 1), 0x0504_0302);
    assert_eq!(read_u64(&data, 0), 0x0807_0605_0403_0201);
}

#[test]
fn file_counts_match_header() {
    let mut data = header_bytes(3, 2, 3);
    kv_u32(&mut data, "general.alignment", 32);
    kv_string(&mut data, "general.name", "tiny");
    kv_string(&mut data, "tokenizer.ggml.model", "gpt2");
    tensor_info(&mut data, "a", &[2], 0, 0);
    tensor_info(&mut data, "b", &[64], 42, 32);
    pad_to_32(&mut data);
    let base = data.len();
    put_u32(&mut data, 1.5f32.to_bits());
    put_u32(&mut data, (-2.0f32).to_bits());
    while data.len() < base + 32 {
        data.push(0);
    }
    data.extend_from_slice(&[0u8; 13]);
    let file = parse_file(&data).unwrap();
    assert_eq!(file.header.kv_count, 3);
    assert_eq!(file.metadata.len(), 3);
    assert_eq!(file.header.tensor_count, 2);
    assert_eq!(file.tensors.len(), 2);
    match file.metadata.get("general.name") {
        Some(GgufMetadataValue::String(s)) => assert_eq!(s, "tiny"),
        _ => panic!("missing name"),
    }
    let a = file.tensors.get("a").unwrap();
    assert_eq!(a.info.name, "a");
    assert_eq!(a.info.offset, base as u64);
    assert_eq!(a.info.shape, vec![2]);
    match &a.weights {
        GgufTensorWeights::F32(w) => {
            assert_eq!(w.len(), 2);
            assert_eq!(f32::from_bits(w[0]), 1.5);
            assert_eq!(f32::from_bits(w[1]), -2.0);
        }
        _ => panic!("wrong weights"),
    }
    let b = file.tensors.get("b").unwrap();
    assert_eq!(b.info.offset, base as u64 + 32);
    assert_eq!(b.info.quant_type, GgufQuantType::TernaryBonsai);
    match &b.weights {
        GgufTensorWeights::Ternary(w) => {
            assert_eq!(w.len(), 60);
            assert!(w.iter().all(|&x| x == -1));
        }
        _ => panic!("wrong weights"),
    }
}

#[test]
fn duplicate_keys_keep_last_value() {
    let mut data = header_bytes(3, 0, 2);
    kv_u32(&mut data, "k", 1);
    kv_u32(&mut data, "k", 2);
    let file = parse_file(&data).unwrap();
    assert_eq!(file.header.kv_count, 2);
    assert_eq!(file.metadata.len(), 1);
    assert!(matches!(file.metadata.get("k"), Some(GgufMetadataValue::UInt32(2))));
}

#[test]
fn weights_start_on_32_byte_boundary() {
    let mut data = header_bytes(3, 1, 0);
    tensor_info(&mut data, "w", &[1], 0, 4);
    let end = data.len();
    let aligned = (end + 31) / 32 * 32;
    while data.len() < aligned + 8 {
        data.push(0);
    }
    data[aligned + 4..aligned + 8].copy_from_slice(&7.0f32.to_bits().to_le_bytes());
    let file = parse_file(&data).unwrap();
    let t = file.tensors.get("w").unwrap();
    assert_eq!(t.info.offset as usize, aligned + 4);
    assert_eq!(t.info.offset % 32, 4);
    match &t.weights {
        GgufTensorWeights::F32(w) => assert_eq!(f32::from_bits(w[0]), 7.0),
        _ => panic!("wrong weights"),
    }
}

#[test]
fn ternary_block_decoding() {
    let block: Vec<u8> = vec![0, 1, 27, 80, 81, 100, 128, 170, 200, 242, 250, 255, 99];
    let mut data = header_bytes(3, 1, 0);
    tensor_info(&mut data, "t", &[8, 8], 42, 0);
    pad_to_32(&mut data);
    data.extend_from_slice(&block);
    let file = parse_file(&data).unwrap();
    let t = file.tensors.get("t").unwrap();
    let mut expected = Vec::new();
    for b in &block[..12] {
        expected.extend(expected_trits(*b));
    }
    match &t.weights {
        GgufTensorWeights::Ternary(w) => {
            assert_eq!(w, &expected);
            assert_eq!(w.len(), 60);
        }
        _ => panic!("wrong weights"),
    }
    assert_eq!(expected_trits(255), vec![1, 1, 1, 1, 1]);
    assert_eq!(expected_trits(0), vec![-1, -1, -1, -1, -1]);
}

#[test]
fn ternary_partial_block_is_dropped() {
    let mut data = header_bytes(3, 1, 0);
    tensor_info(&mut data, "t", &[63], 42, 0);
    pad_to_32(&mut data);
    let file = parse_file(&data).unwrap();
    match &file.tensors.get("t").unwrap().weights {
        GgufTensorWeights::Ternary(w) => assert!(w.is_empty()),
        _ => panic!("wrong weights"),
    }
}

#[test]
fn zero_dimension_gives_no_weights() {
    let mut data = header_bytes(3, 1, 0);
    tensor_info(&mut data, "z", &[u64::MAX, u64::MAX, 0], 0, 0);
    let file = parse_file(&data).unwrap();
    match &file.tensors.get("z").unwrap().weights {
        GgufTensorWeights::F32(w) => assert!(w.is_empty()),
        _ => panic!("wrong weights"),
    }
}

#[test]
fn weights_past_end_are_rejected() {
    let mut data = header_bytes(3, 1, 0);
    tensor_info(&mut data, "big", &[u64::MAX, u64::MAX], 0, 0);
    pad_to_32(&mut data);
    assert!(matches!(parse_file(&data), Err(GgufError::UnexpectedEnd(GgufField::TensorWeights))));

    let mut data = header_bytes(3, 1, 0);
    tensor_info(&mut data, "far", &[1], 0, u64::MAX);
    pad_to_32(&mut data);
    data.extend_from_slice(&[0u8; 64]);
    assert!(matches!(parse_file(&data), Err(GgufError::UnexpectedEnd(GgufField::TensorWeights))));
}

#[test]
fn short_file_is_rejected() {
    let data = b"GGUF\x03\x00".to_vec();
    assert!(matches!(parse_file(&data), Err(GgufError::UnexpectedEnd(GgufField::Header))));
    let mut bad = header_bytes(3, 0, 0);
    bad[0] = b'g';
    assert!(matches!(parse_file(&bad), Err(GgufError::InvalidMagic)));
}

#[test]
fn metadata_errors() {
    let data = header_bytes(3, 0, 1);
    assert!(matches!(parse_file(&data), Err(GgufError::UnexpectedEnd(GgufField::KeyLength))));

    let mut data = header_bytes(3, 0, 1);
    put_u64(&mut data, 10);
    data.extend_from_slice(b"abc");
    assert!(matches!(parse_file(&data), Err(GgufError::UnexpectedEnd(GgufField::Key))));

    let mut data = header_bytes(3, 0, 1);
    put_u64(&mut data, 2);
    data.extend_from_slice(&[0xC3, 0x28]);
    assert!(matches!(parse_file(&data), Err(GgufError::InvalidUtf8(GgufField::Key))));

    let mut data = header_bytes(3, 0, 1);
    put_str(&mut data, "k");
    assert!(matches!(parse_file(&data), Err(GgufError::UnexpectedEnd(GgufField::ValueType))));

    let mut data = header_bytes(3, 0, 1);
    put_str(&mut data, "k");
    put_u32(&mut data, 13);
    assert!(matches!(parse_file(&data), Err(GgufError::UnsupportedValueType(13))));

    let mut data = header_bytes(3, 0, 1);
    put_str(&mut data, "k");
    put_u32(&mut data, 7);
    data.push(2);
    assert!(matches!(parse_file(&data), Err(GgufError::InvalidBool(2))));
}

#[test]
fn scalar_values_decode() {
    let mut data = Vec::new();
    data.push(0xff);
    assert!(matches!(metadata::parse_value(&data, 0, 0), Ok((GgufMetadataValue::UInt8(255), 1))));
    assert!(matches!(metadata::parse_value(&data, 0, 1), Ok((GgufMetadataValue::Int8(-1), 1))));
    assert!(matches!(metadata::parse_value(&data, 0, 2), Err(GgufError::UnexpectedEnd(GgufField::UInt16))));
    data.push(0x80);
    assert!(matches!(metadata::parse_value(&data, 0, 3), Ok((GgufMetadataValue::Int16(-32513), 2))));
    assert!(matches!(metadata::parse_value(&data, 0, 2), Ok((GgufMetadataValue::UInt16(0x80ff), 2))));
    let neg = (-5i32).to_le_bytes();
    assert!(matches!(metadata::parse_value(&neg, 0, 5), Ok((GgufMetadataValue::Int32(-5), 4))));
    let neg64 = i64::MIN.to_le_bytes();
    assert!(matches!(metadata::parse_value(&neg64, 0, 11), Ok((GgufMetadataValue::Int64(i64::MIN), 8))));
    assert!(matches!(metadata::parse_value(&neg64, 0, 10), Ok((GgufMetadataValue::UInt64(0x8000_0000_0000_0000), 8))));
    let f = 0.25f32.to_le_bytes();
    match metadata::parse_value(&f, 0, 6) {
        Ok((GgufMetadataValue::Float32(bits), 4)) => assert_eq!(f32::from_bits(bits), 0.25),
        _ => panic!("float32"),
    }
    let g = (-3.5f64).to_le_bytes();
    match metadata::parse_value(&g, 0, 12) {
        Ok((GgufMetadataValue::Float64(bits), 8)) => assert_eq!(f64::from_bits(bits), -3.5),
        _ => panic!("float64"),
    }
    assert!(matches!(metadata::parse_value(&[1], 0, 7), Ok((GgufMetadataValue::Bool(true), 1))));
    assert!(matches!(metadata::parse_value(&[0], 0, 7), Ok((GgufMetadataValue::Bool(false), 1))));
}

#[test]
fn string_and_nested_array_values() {
    let mut data = Vec::new();
    put_u32(&mut data, 9);
    put_u64(&mut data, 2);
    put_u32(&mut data, 8);
    put_u64(&mut data, 1);
    put_str(&mut data, "ключ");
    put_u32(&mut data, 8);
    put_u64(&mut data, 0);
    let (value, end) = metadata::parse_value(&data, 0, 9).unwrap();
    assert_eq!(end, data.len());
    match value {
        GgufMetadataValue::Array(outer) => {
            assert_eq!(outer.len(), 2);
            match &outer[0] {
                GgufMetadataValue::Array(inner) => match &inner[0] {
                    GgufMetadataValue::String(s) => assert_eq!(s, "ключ"),
                    _ => panic!("inner"),
                },
                _ => panic!("outer[0]"),
            }
            assert!(matches!(&outer[1], GgufMetadataValue::Array(v) if v.is_empty()));
        }
        _ => panic!("array"),
    }
}

#[test]
fn array_errors() {
    let data = [9u8, 0, 0];
    assert!(matches!(metadata::parse_value(&data, 0, 9), Err(GgufError::UnexpectedEnd(GgufField::ArrayElementType))));
    let mut data = Vec::new();
    put_u32(&mut data, 0);
    assert!(matches!(metadata::parse_value(&data, 0, 9), Err(GgufError::UnexpectedEnd(GgufField::ArrayLength))));
    put_u64(&mut data, 3);
    data.push(1);
    data.push(2);
    assert!(matches!(metadata::parse_value(&data, 0, 9), Err(GgufError::UnexpectedEnd(GgufField::UInt8))));
    let mut data = Vec::new();
    put_u32(&mut data, 8);
    put_u64(&mut data, 1);
    put_u64(&mut data, 1);
    data.push(0xff);
    assert!(matches!(metadata::parse_value(&data, 0, 9), Err(GgufError::InvalidUtf8(GgufField::String))));
}

#[test]
fn tensor_info_errors() {
    let mut data = Vec::new();
    put_str(&mut data, "t");
    assert!(matches!(tensors::parse_info(&data, 0), Err(GgufError::UnexpectedEnd(GgufField::DimensionCount))));
    put_u32(&mut data, 2);
    put_u64(&mut data, 4);
    assert!(matches!(tensors::parse_info(&data, 0), Err(GgufError::UnexpectedEnd(GgufField::DimensionSize))));
    put_u64(&mut data, 4);
    assert!(matches!(tensors::parse_info(&data, 0), Err(GgufError::UnexpectedEnd(GgufField::QuantType))));
    let mut unknown = data.clone();
    put_u32(&mut unknown, 1);
    assert!(matches!(tensors::parse_info(&unknown, 0), Err(GgufError::UnknownQuantType(1))));
    put_u32(&mut data, 0);
    assert!(matches!(tensors::parse_info(&data, 0), Err(GgufError::UnexpectedEnd(GgufField::DataOffset))));
    put_u64(&mut data, 96);
    let (info, end) = tensors::parse_info(&data, 0).unwrap();
    assert_eq!(end, data.len());
    assert_eq!(info.name, "t");
    assert_eq!(info.shape, vec![4, 4]);
    assert_eq!(info.quant_type, GgufQuantType::F32);
    assert_eq!(info.offset, 96);
}

#[test]
fn quant_type_codes() {
    assert_eq!(GgufQuantType::from(0), GgufQuantType::F32);
    assert_eq!(GgufQuantType::from(42), GgufQuantType::TernaryBonsai);
    assert_eq!(GgufQuantType::from_code(42), Some(GgufQuantType::TernaryBonsai));
    assert_eq!(GgufQuantType::from_code(1), None);
}

#[test]
fn parse_weights_direct() {
    let data: Vec<u8> = (0u8..16).collect();
    let info = GgufTensorInfo { name: "x".to_string(), shape: vec![2, 2], quant_type: GgufQuantType::F32, offset: 0 };
    match tensors::parse_weights(&data, &info).unwrap() {
        GgufTensorWeights::F32(w) => assert_eq!(w, vec![0x0302_0100, 0x0706_0504, 0x0b0a_0908, 0x0f0e_0d0c]),
        _ => panic!("wrong weights"),
    }
    let info = GgufTensorInfo { name: "x".to_string(), shape: vec![5], quant_type: GgufQuantType::F32, offset: 0 };
    assert!(matches!(tensors::parse_weights(&data, &info), Err(GgufError::UnexpectedEnd(GgufField::TensorWeights))));
}
