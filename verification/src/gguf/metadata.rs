//! Metadata key-value pairs: their values and their decoding.
use vstd::prelude::*;
use vstd::hash_map::StringHashMap;
use vstd::utf8::{decode_utf8, decode_utf8_encode_utf8, encode_utf8, valid_utf8};
use crate::bytes::{as_unsigned, le16, le32, le64, le_encodes, lemma_le_encodes_cons, lemma_le16_encodes, lemma_le32_encodes, lemma_le64_encodes, read_u16, read_u32, read_u64};
use crate::gguf::error::{GgufError, GgufField};
use crate::text::{copy_range, string_from_utf8};

verus! {

/// A metadata value. Floating-point values are held as the bits of their
/// IEEE 754 encoding (`f32::from_bits` and `f64::from_bits` give the number).
#[derive(Debug)]
pub enum GgufMetadataValue {
    UInt8(u8),
    Int8(i8),
    UInt16(u16),
    Int16(i16),
    UInt32(u32),
    Int32(i32),
    Float32(u32),
    Bool(bool),
    String(String),
    Array(Vec<GgufMetadataValue>),
    UInt64(u64),
    Int64(i64),
    Float64(u64),
}

/// The mathematical value of a [`GgufMetadataValue`].
pub enum MetadataView {
    UInt8(u8),
    Int8(i8),
    UInt16(u16),
    Int16(i16),
    UInt32(u32),
    Int32(i32),
    Float32(u32),
    Bool(bool),
    String(Seq<char>),
    Array(Seq<MetadataView>),
    UInt64(u64),
    Int64(i64),
    Float64(u64),
}

impl GgufMetadataValue {
    pub open spec fn view_value(self) -> MetadataView
        decreases self,
    {
        match self {
            GgufMetadataValue::UInt8(x) => MetadataView::UInt8(x),
            GgufMetadataValue::Int8(x) => MetadataView::Int8(x),
            GgufMetadataValue::UInt16(x) => MetadataView::UInt16(x),
            GgufMetadataValue::Int16(x) => MetadataView::Int16(x),
            GgufMetadataValue::UInt32(x) => MetadataView::UInt32(x),
            GgufMetadataValue::Int32(x) => MetadataView::Int32(x),
            GgufMetadataValue::Float32(x) => MetadataView::Float32(x),
            GgufMetadataValue::Bool(x) => MetadataView::Bool(x),
            GgufMetadataValue::String(s) => MetadataView::String(s@),
            GgufMetadataValue::Array(v) => MetadataView::Array(
                Seq::new(v@.len(), |i: int| if 0 <= i < v@.len() { v@[i].view_value() } else { MetadataView::Bool(false) }),
            ),
            GgufMetadataValue::UInt64(x) => MetadataView::UInt64(x),
            GgufMetadataValue::Int64(x) => MetadataView::Int64(x),
            GgufMetadataValue::Float64(x) => MetadataView::Float64(x),
        }
    }
}


/// The views of a sequence of values, element by element.
pub open spec fn views(s: Seq<GgufMetadataValue>) -> Seq<MetadataView> {
    Seq::new(s.len(), |i: int| s[i].view_value())
}

/// The two's complement reading of a byte.
pub open spec fn twos8(u: int) -> int {
    if u >= 0x80 { u - 0x100 } else { u }
}

/// The two's complement reading of a 16-bit value.
pub open spec fn twos16(u: int) -> int {
    if u >= 0x8000 { u - 0x1_0000 } else { u }
}

/// The two's complement reading of a 32-bit value.
pub open spec fn twos32(u: int) -> int {
    if u >= 0x8000_0000 { u - 0x1_0000_0000 } else { u }
}

/// The two's complement reading of a 64-bit value.
pub open spec fn twos64(u: int) -> int {
    if u >= 0x8000_0000_0000_0000 { u - 0x1_0000_0000_0000_0000 } else { u }
}

/// Whether `n` bytes remain at `pos`.
pub open spec fn fits(d: Seq<u8>, pos: int, n: int) -> bool {
    pos + n <= d.len()
}

/// A length-prefixed UTF-8 string at `pos`: a u64 byte count, then the bytes.
/// `lf` and `bf` name the length and the bytes in errors.
pub open spec fn spec_string(d: Seq<u8>, pos: int, lf: GgufField, bf: GgufField) -> Result<(Seq<char>, int), GgufError> {
    if !fits(d, pos, 8) {
        Err(GgufError::UnexpectedEnd(lf))
    } else if !fits(d, pos + 8, le64(d, pos)) {
        Err(GgufError::UnexpectedEnd(bf))
    } else {
        let b = d.subrange(pos + 8, pos + 8 + le64(d, pos));
        if valid_utf8(b) {
            Ok((decode_utf8(b), pos + 8 + le64(d, pos)))
        } else {
            Err(GgufError::InvalidUtf8(bf))
        }
    }
}

/// The value of type code `ty` at `pos`, and the position after it.
pub open spec fn spec_value(d: Seq<u8>, pos: int, ty: u32) -> Result<(MetadataView, int), GgufError>
    decreases d.len() - pos, 1int, 0int,
{
    if ty == 0 {
        if fits(d, pos, 1) { Ok((MetadataView::UInt8(d[pos]), pos + 1)) }
        else { Err(GgufError::UnexpectedEnd(GgufField::UInt8)) }
    } else if ty == 1 {
        if fits(d, pos, 1) { Ok((MetadataView::Int8(twos8(d[pos] as int) as i8), pos + 1)) }
        else { Err(GgufError::UnexpectedEnd(GgufField::Int8)) }
    } else if ty == 2 {
        if fits(d, pos, 2) { Ok((MetadataView::UInt16(le16(d, pos) as u16), pos + 2)) }
        else { Err(GgufError::UnexpectedEnd(GgufField::UInt16)) }
    } else if ty == 3 {
        if fits(d, pos, 2) { Ok((MetadataView::Int16(twos16(le16(d, pos)) as i16), pos + 2)) }
        else { Err(GgufError::UnexpectedEnd(GgufField::Int16)) }
    } else if ty == 4 {
        if fits(d, pos, 4) { Ok((MetadataView::UInt32(le32(d, pos) as u32), pos + 4)) }
        else { Err(GgufError::UnexpectedEnd(GgufField::UInt32)) }
    } else if ty == 5 {
        if fits(d, pos, 4) { Ok((MetadataView::Int32(twos32(le32(d, pos)) as i32), pos + 4)) }
        else { Err(GgufError::UnexpectedEnd(GgufField::Int32)) }
    } else if ty == 6 {
        if fits(d, pos, 4) { Ok((MetadataView::Float32(le32(d, pos) as u32), pos + 4)) }
        else { Err(GgufError::UnexpectedEnd(GgufField::Float32)) }
    } else if ty == 7 {
        if !fits(d, pos, 1) { Err(GgufError::UnexpectedEnd(GgufField::Bool)) }
        else if d[pos] == 0 { Ok((MetadataView::Bool(false), pos + 1)) }
        else if d[pos] == 1 { Ok((MetadataView::Bool(true), pos + 1)) }
        else { Err(GgufError::InvalidBool(d[pos])) }
    } else if ty == 8 {
        match spec_string(d, pos, GgufField::StringLength, GgufField::String) {
            Ok((s, p)) => Ok((MetadataView::String(s), p)),
            Err(e) => Err(e),
        }
    } else if ty == 9 {
        if !(0 <= pos && fits(d, pos, 4)) {
            Err(GgufError::UnexpectedEnd(GgufField::ArrayElementType))
        } else if !fits(d, pos, 12) {
            Err(GgufError::UnexpectedEnd(GgufField::ArrayLength))
        } else {
            match spec_elems(d, pos + 12, le32(d, pos) as u32, le64(d, pos + 4) as nat) {
                Ok((vs, p)) => Ok((MetadataView::Array(vs), p)),
                Err(e) => Err(e),
            }
        }
    } else if ty == 10 {
        if fits(d, pos, 8) { Ok((MetadataView::UInt64(le64(d, pos) as u64), pos + 8)) }
        else { Err(GgufError::UnexpectedEnd(GgufField::UInt64)) }
    } else if ty == 11 {
        if fits(d, pos, 8) { Ok((MetadataView::Int64(twos64(le64(d, pos)) as i64), pos + 8)) }
        else { Err(GgufError::UnexpectedEnd(GgufField::Int64)) }
    } else if ty == 12 {
        if fits(d, pos, 8) { Ok((MetadataView::Float64(le64(d, pos) as u64), pos + 8)) }
        else { Err(GgufError::UnexpectedEnd(GgufField::Float64)) }
    } else {
        Err(GgufError::UnsupportedValueType(ty))
    }
}

/// `n` consecutive values of type code `ty` starting at `pos`, and the
/// position after the last; the first failing element decides the error.
pub open spec fn spec_elems(d: Seq<u8>, pos: int, ty: u32, n: nat) -> Result<(Seq<MetadataView>, int), GgufError>
    decreases d.len() - pos, 2int, n,
{
    if n == 0 {
        Ok((Seq::empty(), pos))
    } else {
        match spec_elems(d, pos, ty, (n - 1) as nat) {
            Err(e) => Err(e),
            Ok((vs, p)) => if pos <= p <= d.len() {
                match spec_value(d, p, ty) {
                    Ok((v, p2)) => Ok((vs.push(v), p2)),
                    Err(e) => Err(e),
                }
            } else {
                Err(GgufError::UnexpectedEnd(GgufField::ArrayLength))
            },
        }
    }
}

/// A decoded value seen through its view.
pub open spec fn value_result(r: Result<(GgufMetadataValue, usize), GgufError>) -> Result<(MetadataView, int), GgufError> {
    match r {
        Ok((v, p)) => Ok((v.view_value(), p as int)),
        Err(e) => Err(e),
    }
}

/// A decoded string seen through its view.
pub open spec fn string_result(r: Result<(String, usize), GgufError>) -> Result<(Seq<char>, int), GgufError> {
    match r {
        Ok((s, p)) => Ok((s@, p as int)),
        Err(e) => Err(e),
    }
}

/// The view of an array value is the array of the element views.
pub proof fn lemma_array_view(x: Vec<GgufMetadataValue>)
    ensures
        GgufMetadataValue::Array(x).view_value() == MetadataView::Array(views(x@)),
{
    let lhs = GgufMetadataValue::Array(x).view_value();
    if let MetadataView::Array(s) = lhs {
        assert(s =~= views(x@));
    }
}

/// A successful decoding moves forward and stays inside the data.
pub proof fn lemma_value_bounds(d: Seq<u8>, pos: int, ty: u32)
    requires
        0 <= pos <= d.len(),
    ensures
        spec_value(d, pos, ty) matches Ok((v, p)) ==> pos < p <= d.len(),
    decreases d.len() - pos, 1int, 0int,
{
    if ty == 9 && fits(d, pos, 12) {
        lemma_elems_bounds(d, pos + 12, le32(d, pos) as u32, le64(d, pos + 4) as nat);
    }
}

/// A successful run of elements stays inside the data and has `n` elements.
pub proof fn lemma_elems_bounds(d: Seq<u8>, pos: int, ty: u32, n: nat)
    requires
        0 <= pos <= d.len(),
    ensures
        spec_elems(d, pos, ty, n) matches Ok((vs, p)) ==> pos <= p <= d.len() && vs.len() == n,
    decreases d.len() - pos, 2int, n,
{
    if n > 0 {
        lemma_elems_bounds(d, pos, ty, (n - 1) as nat);
        if let Ok((vs, p)) = spec_elems(d, pos, ty, (n - 1) as nat) {
            lemma_value_bounds(d, p, ty);
        }
    }
}

/// Once a prefix of the elements fails, every longer run fails the same way.
pub proof fn lemma_elems_err(d: Seq<u8>, pos: int, ty: u32, i: nat, n: nat)
    requires
        i <= n,
        spec_elems(d, pos, ty, i) is Err,
    ensures
        spec_elems(d, pos, ty, n) == spec_elems(d, pos, ty, i),
    decreases n,
{
    if n > i {
        lemma_elems_err(d, pos, ty, i, (n - 1) as nat);
    }
}


/// The two's complement reading of a byte.
pub fn to_i8(u: u8) -> (r: i8)
    ensures
        r == twos8(u as int),
{
    if u >= 128 { ((u - 128) as i8) - 127 - 1 } else { u as i8 }
}

/// The two's complement reading of a 16-bit value.
pub fn to_i16(u: u16) -> (r: i16)
    ensures
        r == twos16(u as int),
{
    if u >= 0x8000 { ((u - 0x8000) as i16) - 0x7fff - 1 } else { u as i16 }
}

/// The two's complement reading of a 32-bit value.
pub fn to_i32(u: u32) -> (r: i32)
    ensures
        r == twos32(u as int),
{
    if u >= 0x8000_0000 { ((u - 0x8000_0000) as i32) - 0x7fff_ffff - 1 } else { u as i32 }
}

/// The two's complement reading of a 64-bit value.
pub fn to_i64(u: u64) -> (r: i64)
    ensures
        r == twos64(u as int),
{
    if u >= 0x8000_0000_0000_0000 {
        ((u - 0x8000_0000_0000_0000) as i64) - 0x7fff_ffff_ffff_ffff - 1
    } else {
        u as i64
    }
}

/// Reads a length-prefixed UTF-8 string at `pos` (see [`spec_string`]).
pub fn read_string(data: &[u8], pos: usize, lf: GgufField, bf: GgufField) -> (r: Result<(String, usize), GgufError>)
    requires
        pos <= data.len(),
    ensures
        string_result(r) == spec_string(data@, pos as int, lf, bf),
{
    if data.len() - pos < 8 {
        return Err(GgufError::UnexpectedEnd(lf));
    }
    let n = read_u64(data, pos);
    let start = pos + 8;
    if n > (data.len() - start) as u64 {
        return Err(GgufError::UnexpectedEnd(bf));
    }
    let len = n as usize;
    let bytes = copy_range(data, start, len);
    match string_from_utf8(bytes) {
        Some(text) => Ok((text, start + len)),
        None => Err(GgufError::InvalidUtf8(bf)),
    }
}

fn parse_uint8(data: &[u8], pos: usize) -> (r: Result<(u8, usize), GgufError>)
    requires
        pos <= data.len(),
    ensures
        r == (if fits(data@, pos as int, 1) { Ok((data@[pos as int], (pos + 1) as usize)) }
            else { Err(GgufError::UnexpectedEnd(GgufField::UInt8)) }),
{
    if data.len() - pos < 1 {
        return Err(GgufError::UnexpectedEnd(GgufField::UInt8));
    }
    Ok((data[pos], pos + 1))
}

fn parse_int8(data: &[u8], pos: usize) -> (r: Result<(i8, usize), GgufError>)
    requires
        pos <= data.len(),
    ensures
        r == (if fits(data@, pos as int, 1) { Ok((twos8(data@[pos as int] as int) as i8, (pos + 1) as usize)) }
            else { Err(GgufError::UnexpectedEnd(GgufField::Int8)) }),
{
    if data.len() - pos < 1 {
        return Err(GgufError::UnexpectedEnd(GgufField::Int8));
    }
    Ok((to_i8(data[pos]), pos + 1))
}

fn parse_uint16(data: &[u8], pos: usize) -> (r: Result<(u16, usize), GgufError>)
    requires
        pos <= data.len(),
    ensures
        r == (if fits(data@, pos as int, 2) { Ok((le16(data@, pos as int) as u16, (pos + 2) as usize)) }
            else { Err(GgufError::UnexpectedEnd(GgufField::UInt16)) }),
{
    if data.len() - pos < 2 {
        return Err(GgufError::UnexpectedEnd(GgufField::UInt16));
    }
    Ok((read_u16(data, pos), pos + 2))
}

fn parse_int16(data: &[u8], pos: usize) -> (r: Result<(i16, usize), GgufError>)
    requires
        pos <= data.len(),
    ensures
        r == (if fits(data@, pos as int, 2) { Ok((twos16(le16(data@, pos as int)) as i16, (pos + 2) as usize)) }
            else { Err(GgufError::UnexpectedEnd(GgufField::Int16)) }),
{
    if data.len() - pos < 2 {
        return Err(GgufError::UnexpectedEnd(GgufField::Int16));
    }
    Ok((to_i16(read_u16(data, pos)), pos + 2))
}

fn parse_uint32(data: &[u8], pos: usize) -> (r: Result<(u32, usize), GgufError>)
    requires
        pos <= data.len(),
    ensures
        r == (if fits(data@, pos as int, 4) { Ok((le32(data@, pos as int) as u32, (pos + 4) as usize)) }
            else { Err(GgufError::UnexpectedEnd(GgufField::UInt32)) }),
{
    if data.len() - pos < 4 {
        return Err(GgufError::UnexpectedEnd(GgufField::UInt32));
    }
    Ok((read_u32(data, pos), pos + 4))
}

fn parse_int32(data: &[u8], pos: usize) -> (r: Result<(i32, usize), GgufError>)
    requires
        pos <= data.len(),
    ensures
        r == (if fits(data@, pos as int, 4) { Ok((twos32(le32(data@, pos as int)) as i32, (pos + 4) as usize)) }
            else { Err(GgufError::UnexpectedEnd(GgufField::Int32)) }),
{
    if data.len() - pos < 4 {
        return Err(GgufError::UnexpectedEnd(GgufField::Int32));
    }
    Ok((to_i32(read_u32(data, pos)), pos + 4))
}

/// The bits of a little-endian IEEE 754 single.
fn parse_float32(data: &[u8], pos: usize) -> (r: Result<(u32, usize), GgufError>)
    requires
        pos <= data.len(),
    ensures
        r == (if fits(data@, pos as int, 4) { Ok((le32(data@, pos as int) as u32, (pos + 4) as usize)) }
            else { Err(GgufError::UnexpectedEnd(GgufField::Float32)) }),
{
    if data.len() - pos < 4 {
        return Err(GgufError::UnexpectedEnd(GgufField::Float32));
    }
    Ok((read_u32(data, pos), pos + 4))
}

fn parse_bool(data: &[u8], pos: usize) -> (r: Result<(bool, usize), GgufError>)
    requires
        pos <= data.len(),
    ensures
        r == (if !fits(data@, pos as int, 1) { Err(GgufError::UnexpectedEnd(GgufField::Bool)) }
            else if data@[pos as int] == 0 { Ok((false, (pos + 1) as usize)) }
            else if data@[pos as int] == 1 { Ok((true, (pos + 1) as usize)) }
            else { Err(GgufError::InvalidBool(data@[pos as int])) }),
{
    if data.len() - pos < 1 {
        return Err(GgufError::UnexpectedEnd(GgufField::Bool));
    }
    match data[pos] {
        0 => Ok((false, pos + 1)),
        1 => Ok((true, pos + 1)),
        other => Err(GgufError::InvalidBool(other)),
    }
}

fn parse_string(data: &[u8], pos: usize) -> (r: Result<(String, usize), GgufError>)
    requires
        pos <= data.len(),
    ensures
        string_result(r) == spec_string(data@, pos as int, GgufField::StringLength, GgufField::String),
{
    read_string(data, pos, GgufField::StringLength, GgufField::String)
}

fn parse_uint64(data: &[u8], pos: usize) -> (r: Result<(u64, usize), GgufError>)
    requires
        pos <= data.len(),
    ensures
        r == (if fits(data@, pos as int, 8) { Ok((le64(data@, pos as int) as u64, (pos + 8) as usize)) }
            else { Err(GgufError::UnexpectedEnd(GgufField::UInt64)) }),
{
    if data.len() - pos < 8 {
        return Err(GgufError::UnexpectedEnd(GgufField::UInt64));
    }
    Ok((read_u64(data, pos), pos + 8))
}

fn parse_int64(data: &[u8], pos: usize) -> (r: Result<(i64, usize), GgufError>)
    requires
        pos <= data.len(),
    ensures
        r == (if fits(data@, pos as int, 8) { Ok((twos64(le64(data@, pos as int)) as i64, (pos + 8) as usize)) }
            else { Err(GgufError::UnexpectedEnd(GgufField::Int64)) }),
{
    if data.len() - pos < 8 {
        return Err(GgufError::UnexpectedEnd(GgufField::Int64));
    }
    Ok((to_i64(read_u64(data, pos)), pos + 8))
}

/// The bits of a little-endian IEEE 754 double.
fn parse_float64(data: &[u8], pos: usize) -> (r: Result<(u64, usize), GgufError>)
    requires
        pos <= data.len(),
    ensures
        r == (if fits(data@, pos as int, 8) { Ok((le64(data@, pos as int) as u64, (pos + 8) as usize)) }
            else { Err(GgufError::UnexpectedEnd(GgufField::Float64)) }),
{
    if data.len() - pos < 8 {
        return Err(GgufError::UnexpectedEnd(GgufField::Float64));
    }
    Ok((read_u64(data, pos), pos + 8))
}

/// Decodes the value of type code `value_type` at `pos` (see [`spec_value`]).
pub fn parse_value(data: &[u8], pos: usize, value_type: u32) -> (r: Result<(GgufMetadataValue, usize), GgufError>)
    requires
        pos <= data.len(),
    ensures
        value_result(r) == spec_value(data@, pos as int, value_type),
    decreases data.len() - pos, 1int,
{
    match value_type {
        0 => { let (x, p) = parse_uint8(data, pos)?; Ok((GgufMetadataValue::UInt8(x), p)) },
        1 => { let (x, p) = parse_int8(data, pos)?; Ok((GgufMetadataValue::Int8(x), p)) },
        2 => { let (x, p) = parse_uint16(data, pos)?; Ok((GgufMetadataValue::UInt16(x), p)) },
        3 => { let (x, p) = parse_int16(data, pos)?; Ok((GgufMetadataValue::Int16(x), p)) },
        4 => { let (x, p) = parse_uint32(data, pos)?; Ok((GgufMetadataValue::UInt32(x), p)) },
        5 => { let (x, p) = parse_int32(data, pos)?; Ok((GgufMetadataValue::Int32(x), p)) },
        6 => { let (x, p) = parse_float32(data, pos)?; Ok((GgufMetadataValue::Float32(x), p)) },
        7 => { let (x, p) = parse_bool(data, pos)?; Ok((GgufMetadataValue::Bool(x), p)) },
        8 => { let (x, p) = parse_string(data, pos)?; Ok((GgufMetadataValue::String(x), p)) },
        9 => {
            let (x, p) = parse_array(data, pos)?;
            proof {
                lemma_array_view(x);
            }
            Ok((GgufMetadataValue::Array(x), p))
        },
        10 => { let (x, p) = parse_uint64(data, pos)?; Ok((GgufMetadataValue::UInt64(x), p)) },
        11 => { let (x, p) = parse_int64(data, pos)?; Ok((GgufMetadataValue::Int64(x), p)) },
        12 => { let (x, p) = parse_float64(data, pos)?; Ok((GgufMetadataValue::Float64(x), p)) },
        other => Err(GgufError::UnsupportedValueType(other)),
    }
}

/// Decodes an array value at `pos`: element type (u32), element count (u64),
/// then the elements.
fn parse_array(data: &[u8], pos: usize) -> (r: Result<(Vec<GgufMetadataValue>, usize), GgufError>)
    requires
        pos <= data.len(),
    ensures
        match spec_value(data@, pos as int, 9) {
            Ok((MetadataView::Array(vs), p)) => r matches Ok((v, q)) && views(v@) == vs && q == p,
            Ok(_) => false,
            Err(e) => r == Err::<(Vec<GgufMetadataValue>, usize), GgufError>(e),
        },
    decreases data.len() - pos, 0int,
{
    if data.len() - pos < 4 {
        return Err(GgufError::UnexpectedEnd(GgufField::ArrayElementType));
    }
    let element_type = read_u32(data, pos);
    if data.len() - pos < 12 {
        return Err(GgufError::UnexpectedEnd(GgufField::ArrayLength));
    }
    let len = read_u64(data, pos + 4);
    let ghost d = data@;
    let ghost start = pos + 12;
    let mut p: usize = pos + 12;
    let mut values: Vec<GgufMetadataValue> = Vec::new();
    let mut i: u64 = 0;
    assert(views(values@) =~= Seq::<MetadataView>::empty());
    while i < len
        invariant
            d == data@,
            start == pos + 12,
            element_type == le32(d, pos as int),
            len == le64(d, pos + 4),
            i <= len,
            pos + 12 <= p <= data.len(),
            spec_elems(d, start, element_type, i as nat) == Ok::<(Seq<MetadataView>, int), GgufError>((views(values@), p as int)),
        decreases len - i,
    {
        proof {
            lemma_elems_bounds(d, start, element_type, i as nat);
        }
        match parse_value(data, p, element_type) {
            Ok((v, p2)) => {
                proof {
                    lemma_value_bounds(d, p as int, element_type);
                }
                let ghost old_values = values@;
                values.push(v);
                assert(views(values@) =~= views(old_values).push(v.view_value()));
                p = p2;
                i = i + 1;
            },
            Err(e) => {
                assert(spec_elems(d, start, element_type, (i + 1) as nat) == Err::<(Seq<MetadataView>, int), GgufError>(e));
                proof {
                    lemma_elems_err(d, start, element_type, (i + 1) as nat, len as nat);
                }
                return Err(e);
            },
        }
    }
    Ok((values, p))
}

/// A key-value pair at `pos`: the key (length-prefixed UTF-8), the value's
/// type code (u32), then the value; and the position after it.
pub open spec fn spec_entry(d: Seq<u8>, pos: int) -> Result<((Seq<char>, MetadataView), int), GgufError> {
    match spec_string(d, pos, GgufField::KeyLength, GgufField::Key) {
        Err(e) => Err(e),
        Ok((k, p)) => if !fits(d, p, 4) {
            Err(GgufError::UnexpectedEnd(GgufField::ValueType))
        } else {
            match spec_value(d, p + 4, le32(d, p) as u32) {
                Ok((v, p2)) => Ok(((k, v), p2)),
                Err(e) => Err(e),
            }
        },
    }
}

/// `n` consecutive key-value pairs from `pos`, in file order.
pub open spec fn spec_entries(d: Seq<u8>, pos: int, n: nat) -> Result<(Seq<(Seq<char>, MetadataView)>, int), GgufError>
    decreases n,
{
    if n == 0 {
        Ok((Seq::empty(), pos))
    } else {
        match spec_entries(d, pos, (n - 1) as nat) {
            Err(e) => Err(e),
            Ok((es, p)) => match spec_entry(d, p) {
                Ok((kv, p2)) => Ok((es.push(kv), p2)),
                Err(e) => Err(e),
            },
        }
    }
}

/// The map that inserting the pairs in order builds: a later pair with the
/// same key replaces an earlier one.
pub open spec fn entries_map<V>(es: Seq<(Seq<char>, V)>) -> Map<Seq<char>, V>
    decreases es.len(),
{
    if es.len() == 0 {
        Map::empty()
    } else {
        entries_map(es.drop_last()).insert(es.last().0, es.last().1)
    }
}

/// The keys of the pairs, in order.
pub open spec fn entry_keys<V>(es: Seq<(Seq<char>, V)>) -> Seq<Seq<char>> {
    Seq::new(es.len(), |i: int| es[i].0)
}

/// The metadata section: `n` pairs from `pos` gathered into a map.
pub open spec fn spec_metadata(d: Seq<u8>, pos: int, n: nat) -> Result<(Map<Seq<char>, MetadataView>, int), GgufError> {
    match spec_entries(d, pos, n) {
        Ok((es, p)) => Ok((entries_map(es), p)),
        Err(e) => Err(e),
    }
}

/// A map of values seen through the views of its values.
pub open spec fn metadata_view(m: Map<Seq<char>, GgufMetadataValue>) -> Map<Seq<char>, MetadataView> {
    m.map_values(|v: GgufMetadataValue| v.view_value())
}

/// A decoded metadata map seen through its view.
pub open spec fn metadata_result(r: Result<(StringHashMap<GgufMetadataValue>, usize), GgufError>) -> Result<(Map<Seq<char>, MetadataView>, int), GgufError> {
    match r {
        Ok((m, p)) => Ok((metadata_view(m@), p as int)),
        Err(e) => Err(e),
    }
}

/// A successful run of pairs stays inside the data and has `n` pairs.
pub proof fn lemma_entries_bounds(d: Seq<u8>, pos: int, n: nat)
    requires
        0 <= pos <= d.len(),
    ensures
        spec_entries(d, pos, n) matches Ok((es, p)) ==> pos <= p <= d.len() && es.len() == n,
    decreases n,
{
    if n > 0 {
        lemma_entries_bounds(d, pos, (n - 1) as nat);
        if let Ok((es, p)) = spec_entries(d, pos, (n - 1) as nat) {
            if let Ok((k, p1)) = spec_string(d, p, GgufField::KeyLength, GgufField::Key) {
                if fits(d, p1, 4) {
                    lemma_value_bounds(d, p1 + 4, le32(d, p1) as u32);
                }
            }
        }
    }
}

/// Once a prefix of the pairs fails, every longer run fails the same way.
pub proof fn lemma_entries_err(d: Seq<u8>, pos: int, i: nat, n: nat)
    requires
        i <= n,
        spec_entries(d, pos, i) is Err,
    ensures
        spec_entries(d, pos, n) == spec_entries(d, pos, i),
    decreases n,
{
    if n > i {
        lemma_entries_err(d, pos, i, (n - 1) as nat);
    }
}

/// Decodes `kv_count` key-value pairs starting at `pos` into a map
/// (see [`spec_metadata`]); returns the map and the position after the last pair.
pub fn parse(data: &[u8], pos: usize, kv_count: u64) -> (r: Result<(StringHashMap<GgufMetadataValue>, usize), GgufError>)
    requires
        pos <= data.len(),
    ensures
        metadata_result(r) == spec_metadata(data@, pos as int, kv_count as nat),
        r matches Ok((_, p)) ==> pos <= p <= data.len(),
{
    let ghost d = data@;
    let mut metadata: StringHashMap<GgufMetadataValue> = StringHashMap::new();
    let mut p: usize = pos;
    let mut i: u64 = 0;
    let ghost mut es: Seq<(Seq<char>, MetadataView)> = Seq::empty();
    assert(metadata_view(metadata@) =~= entries_map(es));
    while i < kv_count
        invariant
            d == data@,
            i <= kv_count,
            pos <= p <= data.len(),
            spec_entries(d, pos as int, i as nat) == Ok::<(Seq<(Seq<char>, MetadataView)>, int), GgufError>((es, p as int)),
            metadata_view(metadata@) == entries_map(es),
        decreases kv_count - i,
    {
        proof {
            lemma_entries_bounds(d, pos as int, i as nat);
        }
        let step = parse_entry(data, p);
        match step {
            Ok((key, value, p2)) => {
                let ghost kv = (key@, value.view_value());
                let ghost old_map = metadata@;
                metadata.insert(key, value);
                proof {
                    let old_es = es;
                    es = es.push(kv);
                    assert(es.drop_last() =~= old_es);
                    assert(metadata_view(metadata@) =~= metadata_view(old_map).insert(kv.0, kv.1));
                }
                p = p2;
                i = i + 1;
            },
            Err(e) => {
                proof {
                    lemma_entries_err(d, pos as int, (i + 1) as nat, kv_count as nat);
                }
                return Err(e);
            },
        }
    }
    Ok((metadata, p))
}

/// Decodes one key-value pair at `pos` (see [`spec_entry`]).
fn parse_entry(data: &[u8], pos: usize) -> (r: Result<(String, GgufMetadataValue, usize), GgufError>)
    requires
        pos <= data.len(),
    ensures
        match r {
            Ok((k, v, p)) => spec_entry(data@, pos as int) == Ok::<((Seq<char>, MetadataView), int), GgufError>(((k@, v.view_value()), p as int)) && pos < p <= data.len(),
            Err(e) => spec_entry(data@, pos as int) == Err::<((Seq<char>, MetadataView), int), GgufError>(e),
        },
{
    let (key, p) = read_string(data, pos, GgufField::KeyLength, GgufField::Key)?;
    if data.len() - p < 4 {
        return Err(GgufError::UnexpectedEnd(GgufField::ValueType));
    }
    let value_type = read_u32(data, p);
    let (value, p2) = parse_value(data, p + 4, value_type)?;
    proof {
        lemma_value_bounds(data@, p + 4, value_type);
    }
    Ok((key, value, p2))
}

impl MetadataView {
    /// The type code of the value's kind, as the file writes it.
    pub open spec fn type_code(self) -> u32 {
        match self {
            MetadataView::UInt8(_) => 0,
            MetadataView::Int8(_) => 1,
            MetadataView::UInt16(_) => 2,
            MetadataView::Int16(_) => 3,
            MetadataView::UInt32(_) => 4,
            MetadataView::Int32(_) => 5,
            MetadataView::Float32(_) => 6,
            MetadataView::Bool(_) => 7,
            MetadataView::String(_) => 8,
            MetadataView::Array(_) => 9,
            MetadataView::UInt64(_) => 10,
            MetadataView::Int64(_) => 11,
            MetadataView::Float64(_) => 12,
        }
    }
}

impl GgufMetadataValue {
    /// The type code of the value's kind, as the file writes it.
    pub fn value_type(&self) -> (r: u32)
        ensures
            r == self.view_value().type_code(),
    {
        match self {
            GgufMetadataValue::UInt8(_) => 0,
            GgufMetadataValue::Int8(_) => 1,
            GgufMetadataValue::UInt16(_) => 2,
            GgufMetadataValue::Int16(_) => 3,
            GgufMetadataValue::UInt32(_) => 4,
            GgufMetadataValue::Int32(_) => 5,
            GgufMetadataValue::Float32(_) => 6,
            GgufMetadataValue::Bool(_) => 7,
            GgufMetadataValue::String(_) => 8,
            GgufMetadataValue::Array(_) => 9,
            GgufMetadataValue::UInt64(_) => 10,
            GgufMetadataValue::Int64(_) => 11,
            GgufMetadataValue::Float64(_) => 12,
        }
    }

    /// The elements, where the value is an array.
    pub fn as_array(&self) -> (r: Option<&Vec<GgufMetadataValue>>)
        ensures
            r is Some <==> self.view_value() is Array,
            r matches Some(a) ==> self.view_value() == MetadataView::Array(views(a@)),
    {
        match self {
            GgufMetadataValue::Array(a) => {
                proof {
                    lemma_array_view(*a);
                }
                Some(a)
            },
            _ => None,
        }
    }

    /// The text, where the value is a string.
    pub fn as_string(&self) -> (r: Option<&String>)
        ensures
            r is Some <==> self.view_value() is String,
            r matches Some(s) ==> self.view_value() == MetadataView::String(s@),
    {
        match self {
            GgufMetadataValue::String(s) => Some(s),
            _ => None,
        }
    }

    /// The number, where the value is a `UInt32`.
    pub fn as_uint32(&self) -> (r: Option<u32>)
        ensures
            r == (match self.view_value() {
                MetadataView::UInt32(x) => Some(x),
                _ => None,
            }),
    {
        match self {
            GgufMetadataValue::UInt32(x) => Some(*x),
            _ => None,
        }
    }
}

/// Gathering pairs into a map keeps at most one entry per pair, and exactly
/// one per pair when no key occurs twice.
pub proof fn lemma_entries_map_len<V>(es: Seq<(Seq<char>, V)>)
    ensures
        entries_map(es).dom().finite(),
        entries_map(es).len() <= es.len(),
        entry_keys(es).no_duplicates() ==> entries_map(es).len() == es.len(),
    decreases es.len(),
{
    if es.len() > 0 {
        let rest = es.drop_last();
        lemma_entries_map_len(rest);
        let k = es.last().0;
        if entry_keys(es).no_duplicates() {
            assert(entry_keys(rest).no_duplicates()) by {
                assert forall|i: int, j: int| 0 <= i < entry_keys(rest).len() && 0 <= j < entry_keys(rest).len() && i != j
                    implies entry_keys(rest)[i] != entry_keys(rest)[j] by {
                    assert(entry_keys(rest)[i] == entry_keys(es)[i]);
                    assert(entry_keys(rest)[j] == entry_keys(es)[j]);
                }
            }
            lemma_entries_map_keys(rest);
            assert(!entries_map(rest).contains_key(k)) by {
                if entries_map(rest).contains_key(k) {
                    let i = choose|i: int| 0 <= i < rest.len() && rest[i].0 == k;
                    assert(entry_keys(es)[i] == entry_keys(es)[es.len() - 1]);
                }
            }
        }
    }
}

/// The keys of the map are the keys of the pairs.
pub proof fn lemma_entries_map_keys<V>(es: Seq<(Seq<char>, V)>)
    ensures
        forall|k: Seq<char>| #[trigger] entries_map(es).contains_key(k) <==> exists|i: int| 0 <= i < es.len() && es[i].0 == k,
    decreases es.len(),
{
    if es.len() > 0 {
        let rest = es.drop_last();
        lemma_entries_map_keys(rest);
        assert forall|k: Seq<char>| #[trigger] entries_map(es).contains_key(k) <==> exists|i: int| 0 <= i < es.len() && es[i].0 == k by {
            let last = es.len() - 1;
            if k == es[last].0 {
                assert(es[last].0 == k);
            } else {
                assert(entries_map(es).contains_key(k) == entries_map(rest).contains_key(k));
                if entries_map(rest).contains_key(k) {
                    let i = choose|i: int| 0 <= i < rest.len() && rest[i].0 == k;
                    assert(es[i] == rest[i]);
                }
                if exists|i: int| 0 <= i < es.len() && es[i].0 == k {
                    let i = choose|i: int| 0 <= i < es.len() && es[i].0 == k;
                    assert(i < last);
                    assert(rest[i] == es[i]);
                    assert(entries_map(rest).contains_key(k));
                }
            }
        }
    }
}

/// Each key of the map holds the value of the last pair with that key: a
/// later pair replaces an earlier one with the same key.
pub proof fn lemma_entries_map_last<V>(es: Seq<(Seq<char>, V)>, i: int)
    requires
        0 <= i < es.len(),
        forall|j: int| i < j < es.len() ==> es[j].0 != es[i].0,
    ensures
        entries_map(es).contains_key(es[i].0),
        entries_map(es)[es[i].0] == es[i].1,
    decreases es.len(),
{
    if i < es.len() - 1 {
        lemma_entries_map_last(es.drop_last(), i);
    }
}

/// Each entry of the map comes from a pair with that key.
pub proof fn lemma_entries_map_from_pair<V>(es: Seq<(Seq<char>, V)>, k: Seq<char>)
    requires
        entries_map(es).contains_key(k),
    ensures
        exists|i: int| 0 <= i < es.len() && es[i].0 == k && #[trigger] es[i].1 == entries_map(es)[k],
    decreases es.len(),
{
    let last = es.len() - 1;
    if es[last].0 == k {
        assert(es[last].1 == entries_map(es)[k]);
    } else {
        lemma_entries_map_from_pair(es.drop_last(), k);
        let i = choose|i: int| 0 <= i < es.drop_last().len() && es.drop_last()[i].0 == k && #[trigger] es.drop_last()[i].1 == entries_map(es.drop_last())[k];
        assert(es[i] == es.drop_last()[i]);
    }
}

/// A fixed-width value decodes from exactly its width of bytes, and those
/// bytes are its little-endian encoding (signed values read as two's
/// complement, floating-point values as their bits): writing the decoded
/// value back gives the bytes that were read.
pub proof fn lemma_fixed_width_values(d: Seq<u8>, pos: int)
    requires
        0 <= pos,
    ensures
        fits(d, pos, 1) ==> (spec_value(d, pos, 0) matches Ok((MetadataView::UInt8(x), p))
            && p == pos + 1 && le_encodes(d.subrange(pos, pos + 1), x as int)),
        fits(d, pos, 1) ==> (spec_value(d, pos, 1) matches Ok((MetadataView::Int8(x), p))
            && p == pos + 1 && le_encodes(d.subrange(pos, pos + 1), as_unsigned(x as int, 0x100))),
        fits(d, pos, 2) ==> (spec_value(d, pos, 2) matches Ok((MetadataView::UInt16(x), p))
            && p == pos + 2 && le_encodes(d.subrange(pos, pos + 2), x as int)),
        fits(d, pos, 2) ==> (spec_value(d, pos, 3) matches Ok((MetadataView::Int16(x), p))
            && p == pos + 2 && le_encodes(d.subrange(pos, pos + 2), as_unsigned(x as int, 0x1_0000))),
        fits(d, pos, 4) ==> (spec_value(d, pos, 4) matches Ok((MetadataView::UInt32(x), p))
            && p == pos + 4 && le_encodes(d.subrange(pos, pos + 4), x as int)),
        fits(d, pos, 4) ==> (spec_value(d, pos, 5) matches Ok((MetadataView::Int32(x), p))
            && p == pos + 4 && le_encodes(d.subrange(pos, pos + 4), as_unsigned(x as int, 0x1_0000_0000))),
        fits(d, pos, 4) ==> (spec_value(d, pos, 6) matches Ok((MetadataView::Float32(x), p))
            && p == pos + 4 && le_encodes(d.subrange(pos, pos + 4), x as int)),
        fits(d, pos, 8) ==> (spec_value(d, pos, 10) matches Ok((MetadataView::UInt64(x), p))
            && p == pos + 8 && le_encodes(d.subrange(pos, pos + 8), x as int)),
        fits(d, pos, 8) ==> (spec_value(d, pos, 11) matches Ok((MetadataView::Int64(x), p))
            && p == pos + 8 && le_encodes(d.subrange(pos, pos + 8), as_unsigned(x as int, 0x1_0000_0000_0000_0000))),
        fits(d, pos, 8) ==> (spec_value(d, pos, 12) matches Ok((MetadataView::Float64(x), p))
            && p == pos + 8 && le_encodes(d.subrange(pos, pos + 8), x as int)),
{
    if fits(d, pos, 1) {
        let s = d.subrange(pos, pos + 1);
        assert(s.drop_first() =~= Seq::<u8>::empty());
        lemma_le_encodes_cons(s, 0);
        assert(s[0] == d[pos]);
    }
    if fits(d, pos, 2) {
        lemma_le16_encodes(d, pos);
    }
    if fits(d, pos, 4) {
        lemma_le32_encodes(d, pos);
    }
    if fits(d, pos, 8) {
        lemma_le64_encodes(d, pos);
    }
}

/// A boolean is one byte, 0 for false and 1 for true; any other byte is refused.
pub proof fn lemma_bool_value(d: Seq<u8>, pos: int)
    requires
        0 <= pos,
        fits(d, pos, 1),
    ensures
        spec_value(d, pos, 7) matches Ok((MetadataView::Bool(b), p)) ==> p == pos + 1 && d[pos] == (if b { 1u8 } else { 0u8 }),
        spec_value(d, pos, 7) is Err <==> d[pos] > 1,
{
}

/// A length-prefixed string is a u64 byte count followed by that many bytes,
/// and those bytes are the UTF-8 encoding of the decoded text.
pub proof fn lemma_string_layout(d: Seq<u8>, pos: int, lf: GgufField, bf: GgufField)
    requires
        0 <= pos,
    ensures
        spec_string(d, pos, lf, bf) matches Ok((text, p)) ==> {
            &&& pos + 8 <= p <= d.len()
            &&& le_encodes(d.subrange(pos, pos + 8), p - (pos + 8))
            &&& encode_utf8(text) == d.subrange(pos + 8, p)
        },
{
    if let Ok((text, p)) = spec_string(d, pos, lf, bf) {
        lemma_le64_encodes(d, pos);
        decode_utf8_encode_utf8(d.subrange(pos + 8, p));
    }
}

/// Consecutive decodings: `ps` marks where each of the values `vs` starts
/// and where the next begins, each `vs[i]` being what type code `ty` decodes
/// at `ps[i]`, ending at `ps[i + 1]`.
pub open spec fn consecutive_values(d: Seq<u8>, ty: u32, vs: Seq<MetadataView>, ps: Seq<int>) -> bool {
    &&& ps.len() == vs.len() + 1
    &&& forall|i: int| 0 <= i < vs.len() ==> spec_value(d, #[trigger] ps[i], ty) == Ok::<(MetadataView, int), GgufError>((vs[i], ps[i + 1]))
}

proof fn lemma_elems_positions(d: Seq<u8>, pos: int, ty: u32, n: nat) -> (ps: Seq<int>)
    requires
        0 <= pos <= d.len(),
        spec_elems(d, pos, ty, n) is Ok,
    ensures
        spec_elems(d, pos, ty, n) matches Ok((vs, p)) && consecutive_values(d, ty, vs, ps) && ps[0] == pos && ps[vs.len() as int] == p,
    decreases n,
{
    if n == 0 {
        seq![pos]
    } else {
        lemma_elems_bounds(d, pos, ty, (n - 1) as nat);
        let prev = lemma_elems_positions(d, pos, ty, (n - 1) as nat);
        let (vs0, p0) = spec_elems(d, pos, ty, (n - 1) as nat).unwrap();
        let (v, p2) = spec_value(d, p0, ty).unwrap();
        let ps = prev.push(p2);
        let vs = vs0.push(v);
        assert forall|i: int| 0 <= i < vs.len() implies spec_value(d, #[trigger] ps[i], ty) == Ok::<(MetadataView, int), GgufError>((vs[i], ps[i + 1])) by {
            if i < vs0.len() {
                assert(spec_value(d, prev[i], ty) == Ok::<(MetadataView, int), GgufError>((vs0[i], prev[i + 1])));
            }
        }
        ps
    }
}

/// An array value is an element type code (u32) and an element count (u64),
/// then that many values of that type, one right after the other; the array
/// ends where its last element ends.
pub proof fn lemma_array_layout(d: Seq<u8>, pos: int)
    requires
        0 <= pos <= d.len(),
    ensures
        spec_value(d, pos, 9) matches Ok((MetadataView::Array(vs), p)) ==> {
            &&& le_encodes(d.subrange(pos + 4, pos + 12), vs.len() as int)
            &&& exists|ps: Seq<int>| consecutive_values(d, le32(d, pos) as u32, vs, ps) && ps[0] == pos + 12 && ps[vs.len() as int] == p
        },
        spec_value(d, pos, 9) matches Ok((v, _)) ==> v is Array,
{
    if let Ok((MetadataView::Array(vs), p)) = spec_value(d, pos, 9) {
        let ety = le32(d, pos) as u32;
        let n = le64(d, pos + 4) as nat;
        lemma_elems_bounds(d, pos + 12, ety, n);
        lemma_le64_encodes(d, pos + 4);
        let ps = lemma_elems_positions(d, pos + 12, ety, n);
        assert(consecutive_values(d, ety, vs, ps) && ps[0] == pos + 12 && ps[vs.len() as int] == p);
    }
}

/// The pair `kv` sits at `q` and ends at `next`: its key is the string at
/// `q`, followed by a u32 type code, then the value of that type.
pub open spec fn pair_at(d: Seq<u8>, q: int, kv: (Seq<char>, MetadataView), next: int) -> bool {
    exists|r: int| {
        &&& #[trigger] spec_string(d, q, GgufField::KeyLength, GgufField::Key) == Ok::<(Seq<char>, int), GgufError>((kv.0, r))
        &&& fits(d, r, 4)
        &&& spec_value(d, r + 4, le32(d, r) as u32) == Ok::<(MetadataView, int), GgufError>((kv.1, next))
    }
}

proof fn lemma_entries_positions(d: Seq<u8>, pos: int, n: nat) -> (ps: Seq<int>)
    requires
        spec_entries(d, pos, n) is Ok,
    ensures
        spec_entries(d, pos, n) matches Ok((es, p)) && {
            &&& ps.len() == n + 1
            &&& es.len() == n
            &&& ps[0] == pos
            &&& ps[n as int] == p
            &&& forall|i: int| 0 <= i < n ==> pair_at(d, #[trigger] ps[i], es[i], ps[i + 1])
        },
    decreases n,
{
    if n == 0 {
        seq![pos]
    } else {
        let prev = lemma_entries_positions(d, pos, (n - 1) as nat);
        let (es0, p0) = spec_entries(d, pos, (n - 1) as nat).unwrap();
        let (kv, p2) = spec_entry(d, p0).unwrap();
        let (k, r) = spec_string(d, p0, GgufField::KeyLength, GgufField::Key).unwrap();
        assert(pair_at(d, p0, kv, p2));
        let ps = prev.push(p2);
        let es = es0.push(kv);
        assert forall|i: int| 0 <= i < n implies pair_at(d, #[trigger] ps[i], es[i], ps[i + 1]) by {
            if i < n - 1 {
                assert(pair_at(d, prev[i], es0[i], prev[i + 1]));
            }
        }
        ps
    }
}

/// The metadata section is `n` pairs, one right after the other from `pos`
/// (see [`pair_at`]); the map holds, for each key, the value of its last pair.
pub proof fn lemma_metadata_layout(d: Seq<u8>, pos: int, n: nat)
    ensures
        spec_metadata(d, pos, n) matches Ok((m, p)) ==> exists|es: Seq<(Seq<char>, MetadataView)>, ps: Seq<int>| {
            &&& es.len() == n
            &&& ps.len() == n + 1
            &&& ps[0] == pos
            &&& ps[n as int] == p
            &&& (forall|i: int| 0 <= i < n ==> pair_at(d, #[trigger] ps[i], es[i], ps[i + 1]))
            &&& m == entries_map(es)
        },
{
    if let Ok((m, p)) = spec_metadata(d, pos, n) {
        let ps = lemma_entries_positions(d, pos, n);
        let (es, _) = spec_entries(d, pos, n).unwrap();
        assert(es.len() == n && ps.len() == n + 1 && ps[0] == pos && ps[n as int] == p && m == entries_map(es));
    }
}
} // verus!
