//! Tensor descriptions and tensor weights.
use vstd::prelude::*;
use vstd::hash_map::StringHashMap;
use crate::bytes::{le32, le64, le_encodes, lemma_le32_encodes, lemma_le64_encodes, read_u32, read_u64};
use crate::gguf::error::{GgufError, GgufField};
use crate::gguf::metadata::{entries_map, fits, lemma_entries_map_from_pair, lemma_string_layout, read_string, spec_string};
use vstd::utf8::encode_utf8;

verus! {

/// How the weights of a tensor are stored.
#[derive(Debug, Clone, Copy, PartialEq, Eq, Structural)]
pub enum GgufQuantType {
    /// Four-byte little-endian IEEE 754 singles (code 0).
    F32,
    /// Blocks of 64 ternary weights in 13 bytes (code 42).
    TernaryBonsai,
}

impl GgufQuantType {
    /// The quantization type that a code stands for, if it is supported.
    pub open spec fn spec_from_code(value: u32) -> Option<GgufQuantType> {
        if value == 0 {
            Some(GgufQuantType::F32)
        } else if value == 42 {
            Some(GgufQuantType::TernaryBonsai)
        } else {
            None
        }
    }

    /// The quantization type of a supported code: 0 is `F32`, 42 is `TernaryBonsai`.
    pub fn from(value: u32) -> (r: GgufQuantType)
        requires
            value == 0 || value == 42,
        ensures
            Self::spec_from_code(value) == Some(r),
    {
        if value == 0 {
            GgufQuantType::F32
        } else {
            GgufQuantType::TernaryBonsai
        }
    }

    /// The quantization type of a code, or `None` where the code is not supported.
    pub fn from_code(value: u32) -> (r: Option<GgufQuantType>)
        ensures
            r == Self::spec_from_code(value),
    {
        if value == 0 || value == 42 {
            Some(Self::from(value))
        } else {
            None
        }
    }
}

/// The description of a tensor: its name, its dimensions, how its weights
/// are stored and where they start.
pub struct GgufTensorInfo {
    pub name: String,
    pub shape: Vec<u64>,
    pub quant_type: GgufQuantType,
    pub offset: u64,
}

/// The mathematical value of a [`GgufTensorInfo`].
pub struct TensorInfoView {
    pub name: Seq<char>,
    pub shape: Seq<u64>,
    pub quant_type: GgufQuantType,
    pub offset: u64,
}

impl View for GgufTensorInfo {
    type V = TensorInfoView;

    open spec fn view(&self) -> TensorInfoView {
        TensorInfoView { name: self.name@, shape: self.shape@, quant_type: self.quant_type, offset: self.offset }
    }
}

/// The decoded weights of a tensor. Single-precision weights are held as the
/// bits of their IEEE 754 encoding (`f32::from_bits` gives the number).
pub enum GgufTensorWeights {
    F16(Vec<u32>),
    F32(Vec<u32>),
    Ternary(Vec<i8>),
}

/// The mathematical value of [`GgufTensorWeights`].
pub enum WeightsView {
    F16(Seq<u32>),
    F32(Seq<u32>),
    Ternary(Seq<i8>),
}

impl View for GgufTensorWeights {
    type V = WeightsView;

    open spec fn view(&self) -> WeightsView {
        match self {
            GgufTensorWeights::F16(v) => WeightsView::F16(v@),
            GgufTensorWeights::F32(v) => WeightsView::F32(v@),
            GgufTensorWeights::Ternary(v) => WeightsView::Ternary(v@),
        }
    }
}

/// A tensor: its description and its weights.
pub struct GgufTensor {
    pub info: GgufTensorInfo,
    pub weights: GgufTensorWeights,
}

/// The mathematical value of a [`GgufTensor`].
pub struct TensorView {
    pub info: TensorInfoView,
    pub weights: WeightsView,
}

impl View for GgufTensor {
    type V = TensorView;

    open spec fn view(&self) -> TensorView {
        TensorView { info: self.info@, weights: self.weights@ }
    }
}

/// The product of the dimensions, taken left to right (1 for no dimension).
pub open spec fn spec_product(s: Seq<u64>) -> int
    decreases s.len(),
{
    if s.len() == 0 {
        1
    } else {
        spec_product(s.drop_last()) * s.last()
    }
}

/// How many bytes the weights of `n` elements take.
pub open spec fn weight_size(q: GgufQuantType, n: int) -> int {
    match q {
        GgufQuantType::F32 => n * 4,
        GgufQuantType::TernaryBonsai => (n / 64) * 13,
    }
}

/// The five weights that one byte of a ternary block holds, each -1, 0 or 1:
/// four base-3 digits of `(b * 243) / 256 % 81`, lowest first, then
/// `(b * 3) / 256`, each less one.
pub open spec fn byte_trits(b: u8) -> Seq<i8> {
    let t = ((b * 243) / 256) % 81;
    seq![
        (t % 3 - 1) as i8,
        ((t / 3) % 3 - 1) as i8,
        ((t / 9) % 3 - 1) as i8,
        (t / 27 - 1) as i8,
        ((b * 3) / 256 - 1) as i8,
    ]
}

/// The weights of the first `k` bytes from `start`, in order.
pub open spec fn block_trits(d: Seq<u8>, start: int, k: nat) -> Seq<i8>
    decreases k,
{
    if k == 0 {
        Seq::empty()
    } else {
        block_trits(d, start, (k - 1) as nat) + byte_trits(d[start + k - 1])
    }
}

/// The weights of `nb` ternary blocks of 13 bytes from `off`: each block
/// gives the weights of its first twelve bytes.
pub open spec fn ternary_weights(d: Seq<u8>, off: int, nb: nat) -> Seq<i8>
    decreases nb,
{
    if nb == 0 {
        Seq::empty()
    } else {
        ternary_weights(d, off, (nb - 1) as nat) + block_trits(d, off + 13 * (nb - 1), 12)
    }
}

/// The weights that `info` describes, read from its offset, given that they
/// lie inside the data.
pub open spec fn weight_values(d: Seq<u8>, info: TensorInfoView) -> WeightsView {
    let n = spec_product(info.shape);
    match info.quant_type {
        GgufQuantType::F32 => WeightsView::F32(
            Seq::new(n as nat, |i: int| le32(d, info.offset + 4 * i) as u32),
        ),
        GgufQuantType::TernaryBonsai => WeightsView::Ternary(ternary_weights(d, info.offset as int, (n / 64) as nat)),
    }
}

/// The weights that `info` describes, or an error where they take some
/// bytes and run past the end of the data. Weights that take no byte are
/// read wherever their offset points.
pub open spec fn spec_weights(d: Seq<u8>, info: TensorInfoView) -> Result<WeightsView, GgufError> {
    let size = weight_size(info.quant_type, spec_product(info.shape));
    if size > 0 && info.offset + size > d.len() {
        Err(GgufError::UnexpectedEnd(GgufField::TensorWeights))
    } else {
        Ok(weight_values(d, info))
    }
}

/// `n` dimensions (u64 each) from `pos`.
pub open spec fn spec_dims(d: Seq<u8>, pos: int, n: nat) -> Result<(Seq<u64>, int), GgufError> {
    if fits(d, pos, 8 * n as int) {
        Ok((Seq::new(n, |i: int| le64(d, pos + 8 * i) as u64), pos + 8 * n))
    } else {
        Err(GgufError::UnexpectedEnd(GgufField::DimensionSize))
    }
}

/// A tensor description at `pos`: name (length-prefixed UTF-8), dimension
/// count (u32), dimensions (u64 each), quantization code (u32) and data
/// offset (u64); and the position after it.
pub open spec fn spec_info(d: Seq<u8>, pos: int) -> Result<(TensorInfoView, int), GgufError> {
    match spec_string(d, pos, GgufField::TensorNameLength, GgufField::TensorName) {
        Err(e) => Err(e),
        Ok((name, p)) => if !fits(d, p, 4) {
            Err(GgufError::UnexpectedEnd(GgufField::DimensionCount))
        } else {
            match spec_dims(d, p + 4, le32(d, p) as nat) {
                Err(e) => Err(e),
                Ok((shape, p2)) => if !fits(d, p2, 4) {
                    Err(GgufError::UnexpectedEnd(GgufField::QuantType))
                } else {
                    match GgufQuantType::spec_from_code(le32(d, p2) as u32) {
                        None => Err(GgufError::UnknownQuantType(le32(d, p2) as u32)),
                        Some(q) => if !fits(d, p2 + 4, 8) {
                            Err(GgufError::UnexpectedEnd(GgufField::DataOffset))
                        } else {
                            Ok((TensorInfoView { name: name, shape: shape, quant_type: q, offset: le64(d, p2 + 4) as u64 }, p2 + 12))
                        },
                    }
                },
            }
        },
    }
}

/// `n` consecutive tensor descriptions from `pos`.
pub open spec fn spec_infos(d: Seq<u8>, pos: int, n: nat) -> Result<(Seq<TensorInfoView>, int), GgufError>
    decreases n,
{
    if n == 0 {
        Ok((Seq::empty(), pos))
    } else {
        match spec_infos(d, pos, (n - 1) as nat) {
            Err(e) => Err(e),
            Ok((infos, p)) => match spec_info(d, p) {
                Ok((info, p2)) => Ok((infos.push(info), p2)),
                Err(e) => Err(e),
            },
        }
    }
}

/// The first multiple of 32 at or after `p`.
pub open spec fn align32(p: int) -> int {
    p + (32 - p % 32) % 32
}

/// The tensor that `info` describes once its offset is counted from `base`;
/// an offset past `u64::MAX` is an error.
pub open spec fn spec_tensor(d: Seq<u8>, base: int, info: TensorInfoView) -> Result<TensorView, GgufError> {
    let abs = base + info.offset;
    let placed = TensorInfoView { offset: abs as u64, ..info };
    if abs > u64::MAX {
        Err(GgufError::UnexpectedEnd(GgufField::TensorWeights))
    } else {
        match spec_weights(d, placed) {
            Ok(w) => Ok(TensorView { info: placed, weights: w }),
            Err(e) => Err(e),
        }
    }
}

/// The tensors of the descriptions, in order; the first failing one decides the error.
pub open spec fn spec_tensor_list(d: Seq<u8>, base: int, infos: Seq<TensorInfoView>) -> Result<Seq<TensorView>, GgufError>
    decreases infos.len(),
{
    if infos.len() == 0 {
        Ok(Seq::empty())
    } else {
        match spec_tensor_list(d, base, infos.drop_last()) {
            Err(e) => Err(e),
            Ok(ts) => match spec_tensor(d, base, infos.last()) {
                Ok(t) => Ok(ts.push(t)),
                Err(e) => Err(e),
            },
        }
    }
}

/// The tensors keyed by name, a later one replacing an earlier one of the same name.
pub open spec fn tensor_map(ts: Seq<TensorView>) -> Map<Seq<char>, TensorView> {
    entries_map(Seq::new(ts.len(), |i: int| (ts[i].info.name, ts[i])))
}

/// The tensor section: `n` descriptions from `pos`, then the weights of
/// each, with offsets counted from the first multiple of 32 after the
/// descriptions.
pub open spec fn spec_tensors(d: Seq<u8>, pos: int, n: nat) -> Result<Map<Seq<char>, TensorView>, GgufError> {
    match spec_infos(d, pos, n) {
        Err(e) => Err(e),
        Ok((infos, p)) => match spec_tensor_list(d, align32(p), infos) {
            Ok(ts) => Ok(tensor_map(ts)),
            Err(e) => Err(e),
        },
    }
}

/// A map of tensors seen through the views of its tensors.
pub open spec fn tensors_view(m: Map<Seq<char>, GgufTensor>) -> Map<Seq<char>, TensorView> {
    m.map_values(|t: GgufTensor| t@)
}


/// Appends the five weights of one byte of a ternary block (see [`byte_trits`]).
fn push_byte_trits(w: &mut Vec<i8>, b: u8)
    ensures
        final(w)@ == old(w)@ + byte_trits(b),
{
    let scaled: u16 = (b as u16) * 243;
    let base3: u16 = (scaled / 256) % 81;
    let tripled: u16 = (b as u16) * 3;
    let top: u16 = tripled >> 8;
    assert(top == tripled / 256) by (bit_vector)
        requires
            top == tripled >> 8,
    ;
    let ghost start = w@;
    w.push((base3 % 3) as i8 - 1);
    w.push(((base3 / 3) % 3) as i8 - 1);
    w.push(((base3 / 9) % 3) as i8 - 1);
    w.push((base3 / 27) as i8 - 1);
    w.push(top as i8 - 1);
    assert(w@ =~= start + byte_trits(b));
}

/// Decodes `nb` ternary blocks of 13 bytes from `off` (see [`ternary_weights`]).
fn decode_ternary(data: &[u8], off: usize, nb: usize) -> (r: Vec<i8>)
    requires
        off + 13 * nb <= data.len(),
    ensures
        r@ == ternary_weights(data@, off as int, nb as nat),
{
    let mut weights: Vec<i8> = Vec::new();
    let mut b: usize = 0;
    while b < nb
        invariant
            b <= nb,
            off + 13 * nb <= data.len(),
            weights@ == ternary_weights(data@, off as int, b as nat),
        decreases nb - b,
    {
        let block = off + 13 * b;
        let ghost before = weights@;
        let mut j: usize = 0;
        while j < 12
            invariant
                j <= 12,
                b < nb,
                block == off + 13 * b,
                off + 13 * nb <= data.len(),
                weights@ == before + block_trits(data@, block as int, j as nat),
            decreases 12 - j,
        {
            push_byte_trits(&mut weights, data[block + j]);
            assert(before + block_trits(data@, block as int, (j + 1) as nat)
                =~= before + block_trits(data@, block as int, j as nat) + byte_trits(data@[block + j]));
            j = j + 1;
        }
        b = b + 1;
    }
    weights
}


/// The product of a prefix one longer is the product of the prefix times the next dimension.
proof fn lemma_product_step(s: Seq<u64>, i: int)
    requires
        0 <= i < s.len(),
    ensures
        spec_product(s.take(i + 1)) == spec_product(s.take(i)) * s[i],
{
    assert(s.take(i + 1).drop_last() =~= s.take(i));
}

/// A product of dimensions is never negative.
proof fn lemma_product_nonneg(s: Seq<u64>)
    ensures
        spec_product(s) >= 0,
    decreases s.len(),
{
    if s.len() > 0 {
        lemma_product_nonneg(s.drop_last());
        let a = spec_product(s.drop_last());
        let b = s.last() as int;
        assert(a * b >= 0) by (nonlinear_arith)
            requires
                a >= 0,
                b >= 0,
        ;
    }
}

/// A zero dimension makes the product zero.
proof fn lemma_product_zero(s: Seq<u64>, i: int)
    requires
        0 <= i < s.len(),
        s[i] == 0,
    ensures
        spec_product(s) == 0,
    decreases s.len(),
{
    if i < s.len() - 1 {
        lemma_product_zero(s.drop_last(), i);
    }
}

/// With no zero dimension, the product of a prefix is at least 1 and at most the product of all.
proof fn lemma_product_grows(s: Seq<u64>, i: int)
    requires
        0 <= i <= s.len(),
        forall|j: int| 0 <= j < s.len() ==> s[j] >= 1,
    ensures
        1 <= spec_product(s.take(i)) <= spec_product(s),
    decreases s.len(),
{
    if i == s.len() {
        assert(s.take(i) =~= s);
        if s.len() > 0 {
            lemma_product_grows(s.drop_last(), i - 1);
            assert(s.drop_last().take(i - 1) =~= s.drop_last());
            let a = spec_product(s.drop_last());
            let b = s.last() as int;
            assert(a * b >= a) by (nonlinear_arith)
                requires
                    a >= 1,
                    b >= 1,
            ;
        }
    } else {
        lemma_product_grows(s.drop_last(), i);
        assert(s.drop_last().take(i) =~= s.take(i));
        let a = spec_product(s.drop_last());
        let b = s.last() as int;
        assert(a * b >= a) by (nonlinear_arith)
            requires
                a >= 1,
                b >= 1,
        ;
    }
}

/// Comparing `p` with `cap / d` decides whether `p * d` exceeds `cap`.
proof fn lemma_mul_cap(p: int, d: int, cap: int)
    requires
        p >= 0,
        d >= 1,
        cap >= 0,
    ensures
        p <= cap / d ==> p * d <= cap,
        p > cap / d ==> p * d > cap,
{
    vstd::arithmetic::div_mod::lemma_fundamental_div_mod(cap, d);
    let q = cap / d;
    let r = cap % d;
    assert(0 <= r < d) by {
        vstd::arithmetic::div_mod::lemma_mod_bound(cap, d);
    }
    assert(p <= q ==> p * d <= cap) by (nonlinear_arith)
        requires
            cap == d * q + r,
            0 <= r < d,
            d >= 1,
    ;
    assert(p > q ==> p * d > cap) by (nonlinear_arith)
        requires
            cap == d * q + r,
            0 <= r < d,
            d >= 1,
    ;
}

/// The number of elements of `shape`, where it is at most `cap`; `None`
/// where it exceeds `cap`.
fn bounded_product(shape: &Vec<u64>, cap: u128) -> (r: Option<u128>)
    requires
        1 <= cap <= 0x1_0000_0000_0000_0000_0000,
    ensures
        r matches Some(n) ==> n == spec_product(shape@) && n <= cap,
        r is None ==> spec_product(shape@) > cap,
{
    let mut i: usize = 0;
    while i < shape.len()
        invariant
            i <= shape.len(),
            forall|j: int| 0 <= j < i ==> shape@[j] >= 1,
        decreases shape.len() - i,
    {
        if shape[i] == 0 {
            proof {
                lemma_product_zero(shape@, i as int);
            }
            return Some(0);
        }
        i = i + 1;
    }
    let mut p: u128 = 1;
    let mut i: usize = 0;
    assert(shape@.take(0) =~= Seq::<u64>::empty());
    while i < shape.len()
        invariant
            i <= shape.len(),
            1 <= cap <= 0x1_0000_0000_0000_0000_0000,
            forall|j: int| 0 <= j < shape.len() ==> shape@[j] >= 1,
            p == spec_product(shape@.take(i as int)),
            1 <= p <= cap,
        decreases shape.len() - i,
    {
        let dim = shape[i] as u128;
        proof {
            lemma_mul_cap(p as int, dim as int, cap as int);
            lemma_product_step(shape@, i as int);
        }
        if p > cap / dim {
            proof {
                lemma_product_grows(shape@, i + 1);
            }
            return None;
        }
        assert(p * dim >= p) by (nonlinear_arith)
            requires
                p >= 1,
                dim >= 1,
        ;
        p = p * dim;
        i = i + 1;
    }
    assert(shape@.take(shape.len() as int) =~= shape@);
    Some(p)
}

/// Reads `n` little-endian four-byte words from `off`.
fn decode_words(data: &[u8], off: usize, n: usize) -> (r: Vec<u32>)
    requires
        off + 4 * n <= data.len(),
    ensures
        r@ == Seq::new(n as nat, |i: int| le32(data@, off + 4 * i) as u32),
{
    let mut words: Vec<u32> = Vec::new();
    let mut i: usize = 0;
    while i < n
        invariant
            i <= n,
            off + 4 * n <= data.len(),
            words@ =~= Seq::new(i as nat, |k: int| le32(data@, off + 4 * k) as u32),
        decreases n - i,
    {
        words.push(read_u32(data, off + 4 * i));
        i = i + 1;
    }
    words
}

/// Reads the weights that `info` describes from the data (see [`spec_weights`]):
/// the product of the dimensions gives the element count; `F32` weights take
/// four bytes each, `TernaryBonsai` weights 13 bytes per 64 elements.
pub fn parse_weights(data: &[u8], info: &GgufTensorInfo) -> (r: Result<GgufTensorWeights, GgufError>)
    ensures
        match r {
            Ok(w) => spec_weights(data@, info@) == Ok::<WeightsView, GgufError>(w@),
            Err(e) => spec_weights(data@, info@) == Err::<WeightsView, GgufError>(e),
        },
{
    let len = data.len() as u128;
    let cap: u128 = 64 * len + 63;
    let n = match bounded_product(&info.shape, cap) {
        Some(n) => n,
        None => {
            assert(info.offset + weight_size(info.quant_type, spec_product(info.shape@)) > data@.len());
            return Err(GgufError::UnexpectedEnd(GgufField::TensorWeights));
        },
    };
    let size: u128 = match info.quant_type {
        GgufQuantType::F32 => n * 4,
        GgufQuantType::TernaryBonsai => (n / 64) * 13,
    };
    if size == 0 {
        assert(n == 0 || (info.quant_type == GgufQuantType::TernaryBonsai && n / 64 == 0));
        return match info.quant_type {
            GgufQuantType::F32 => {
                assert(Seq::new(n as nat, |i: int| le32(data@, info.offset + 4 * i) as u32) =~= Seq::<u32>::empty());
                Ok(GgufTensorWeights::F32(Vec::new()))
            },
            GgufQuantType::TernaryBonsai => Ok(GgufTensorWeights::Ternary(Vec::new())),
        };
    }
    if (info.offset as u128) + size > len {
        return Err(GgufError::UnexpectedEnd(GgufField::TensorWeights));
    }
    let off = info.offset as usize;
    match info.quant_type {
        GgufQuantType::F32 => {
            let words = decode_words(data, off, n as usize);
            Ok(GgufTensorWeights::F32(words))
        },
        GgufQuantType::TernaryBonsai => {
            let trits = decode_ternary(data, off, (n / 64) as usize);
            Ok(GgufTensorWeights::Ternary(trits))
        },
    }
}


/// A decoded tensor description seen through its view.
pub open spec fn info_result(r: Result<(GgufTensorInfo, usize), GgufError>) -> Result<(TensorInfoView, int), GgufError> {
    match r {
        Ok((info, p)) => Ok((info@, p as int)),
        Err(e) => Err(e),
    }
}

/// Decodes one tensor description at `pos` (see [`spec_info`]).
pub fn parse_info(data: &[u8], pos: usize) -> (r: Result<(GgufTensorInfo, usize), GgufError>)
    requires
        pos <= data.len(),
    ensures
        info_result(r) == spec_info(data@, pos as int),
        r matches Ok((_, p)) ==> pos < p <= data.len(),
{
    let (name, p) = read_string(data, pos, GgufField::TensorNameLength, GgufField::TensorName)?;
    if data.len() - p < 4 {
        return Err(GgufError::UnexpectedEnd(GgufField::DimensionCount));
    }
    let dim_count = read_u32(data, p) as usize;
    let start = p + 4;
    let mut shape: Vec<u64> = Vec::new();
    let mut i: usize = 0;
    while i < dim_count
        invariant
            spec_string(data@, pos as int, GgufField::TensorNameLength, GgufField::TensorName)
                == Ok::<(Seq<char>, int), GgufError>((name@, p as int)),
            p <= data.len(),
            start == p + 4,
            start <= data.len(),
            i <= dim_count,
            dim_count == le32(data@, p as int),
            start + 8 * i <= data.len(),
            shape@ =~= Seq::new(i as nat, |k: int| le64(data@, start + 8 * k) as u64),
        decreases dim_count - i,
    {
        if data.len() - (start + 8 * i) < 8 {
            assert(!fits(data@, start as int, 8 * dim_count as int));
            return Err(GgufError::UnexpectedEnd(GgufField::DimensionSize));
        }
        shape.push(read_u64(data, start + 8 * i));
        i = i + 1;
    }
    let p2 = start + 8 * dim_count;
    if data.len() - p2 < 4 {
        return Err(GgufError::UnexpectedEnd(GgufField::QuantType));
    }
    let code = read_u32(data, p2);
    let quant_type = match GgufQuantType::from_code(code) {
        Some(q) => q,
        None => return Err(GgufError::UnknownQuantType(code)),
    };
    if data.len() - (p2 + 4) < 8 {
        return Err(GgufError::UnexpectedEnd(GgufField::DataOffset));
    }
    let offset = read_u64(data, p2 + 4);
    Ok((GgufTensorInfo { name: name, shape: shape, quant_type: quant_type, offset: offset }, p2 + 12))
}

/// A successful run of descriptions stays inside the data and has `n` of them.
pub proof fn lemma_infos_bounds(d: Seq<u8>, pos: int, n: nat)
    requires
        0 <= pos <= d.len(),
    ensures
        spec_infos(d, pos, n) matches Ok((infos, p)) ==> pos <= p <= d.len() && infos.len() == n,
    decreases n,
{
    if n > 0 {
        lemma_infos_bounds(d, pos, (n - 1) as nat);
    }
}

/// Once a prefix of the descriptions fails, every longer run fails the same way.
pub proof fn lemma_infos_err(d: Seq<u8>, pos: int, i: nat, n: nat)
    requires
        i <= n,
        spec_infos(d, pos, i) is Err,
    ensures
        spec_infos(d, pos, n) == spec_infos(d, pos, i),
    decreases n,
{
    if n > i {
        lemma_infos_err(d, pos, i, (n - 1) as nat);
    }
}

/// Once a prefix of the tensors fails, the whole list fails the same way.
pub proof fn lemma_tensor_list_err(d: Seq<u8>, base: int, infos: Seq<TensorInfoView>, i: int)
    requires
        0 <= i <= infos.len(),
        spec_tensor_list(d, base, infos.take(i)) is Err,
    ensures
        spec_tensor_list(d, base, infos) == spec_tensor_list(d, base, infos.take(i)),
    decreases infos.len(),
{
    if i < infos.len() {
        assert(infos.drop_last().take(i) =~= infos.take(i));
        lemma_tensor_list_err(d, base, infos.drop_last(), i);
    } else {
        assert(infos.take(i) =~= infos);
    }
}

/// A decoded tensor map seen through its view.
pub open spec fn tensors_result(r: Result<StringHashMap<GgufTensor>, GgufError>) -> Result<Map<Seq<char>, TensorView>, GgufError> {
    match r {
        Ok(m) => Ok(tensors_view(m@)),
        Err(e) => Err(e),
    }
}

/// Decodes `tensors_count` tensor descriptions starting at `pos`, then the
/// weights of each (see [`spec_tensors`]); tensors are keyed by name.
pub fn parse(data: &[u8], pos: usize, tensors_count: u64) -> (r: Result<StringHashMap<GgufTensor>, GgufError>)
    requires
        pos <= data.len(),
    ensures
        tensors_result(r) == spec_tensors(data@, pos as int, tensors_count as nat),
{
    let ghost d = data@;
    let mut tensor_infos: Vec<GgufTensorInfo> = Vec::new();
    let mut p: usize = pos;
    let mut i: u64 = 0;
    let ghost mut infos: Seq<TensorInfoView> = Seq::empty();
    while i < tensors_count
        invariant
            d == data@,
            i <= tensors_count,
            pos <= p <= data.len(),
            spec_infos(d, pos as int, i as nat) == Ok::<(Seq<TensorInfoView>, int), GgufError>((infos, p as int)),
            tensor_infos@.len() == infos.len(),
            forall|k: int| 0 <= k < infos.len() ==> #[trigger] tensor_infos@[k]@ == infos[k],
        decreases tensors_count - i,
    {
        match parse_info(data, p) {
            Ok((info, p2)) => {
                proof {
                    infos = infos.push(info@);
                }
                tensor_infos.push(info);
                p = p2;
                i = i + 1;
            },
            Err(e) => {
                proof {
                    lemma_infos_err(d, pos as int, (i + 1) as nat, tensors_count as nat);
                }
                return Err(e);
            },
        }
    }
    let base: u128 = (p as u128) + ((32 - (p % 32)) % 32) as u128;
    let ghost all_infos = infos;
    let mut tensors: StringHashMap<GgufTensor> = StringHashMap::new();
    let ghost mut ts: Seq<TensorView> = Seq::empty();
    let mut k: usize = 0;
    let count = tensor_infos.len();
    assert(all_infos.take(0) =~= Seq::<TensorInfoView>::empty());
    assert(tensors_view(tensors@) =~= tensor_map(ts));
    while k < count
        invariant
            d == data@,
            spec_infos(d, pos as int, tensors_count as nat) == Ok::<(Seq<TensorInfoView>, int), GgufError>((all_infos, p as int)),
            base == align32(p as int),
            count == all_infos.len(),
            tensor_infos@.len() == count - k,
            k <= count,
            forall|j: int| 0 <= j < count - k ==> #[trigger] tensor_infos@[j]@ == all_infos[j + k],
            spec_tensor_list(d, base as int, all_infos.take(k as int)) == Ok::<Seq<TensorView>, GgufError>(ts),
            tensors_view(tensors@) == tensor_map(ts),
        decreases count - k,
    {
        let mut info = tensor_infos.remove(0);
        let ghost orig = info@;
        assert(orig == all_infos[k as int]);
        assert(all_infos.take(k + 1).drop_last() =~= all_infos.take(k as int));
        let abs = base + info.offset as u128;
        if abs > 0xffff_ffff_ffff_ffff {
            assert(spec_tensor_list(d, base as int, all_infos.take(k + 1))
                == Err::<Seq<TensorView>, GgufError>(GgufError::UnexpectedEnd(GgufField::TensorWeights)));
            proof {
                lemma_tensor_list_err(d, base as int, all_infos, k + 1);
            }
            return Err(GgufError::UnexpectedEnd(GgufField::TensorWeights));
        }
        let placed_offset: u64 = abs as u64;
        info.offset = placed_offset;
        assert(info@ == TensorInfoView { offset: (base + orig.offset) as u64, ..orig });
        let weights = match parse_weights(data, &info) {
            Ok(w) => w,
            Err(e) => {
                assert(spec_tensor_list(d, base as int, all_infos.take(k + 1)) == Err::<Seq<TensorView>, GgufError>(e));
                proof {
                    lemma_tensor_list_err(d, base as int, all_infos, k + 1);
                }
                return Err(e);
            },
        };
        let name = info.name.clone();
        let tensor = GgufTensor { info: info, weights: weights };
        assert(spec_tensor(d, base as int, orig) == Ok::<TensorView, GgufError>(tensor@));
        let ghost old_map = tensors@;
        tensors.insert(name, tensor);
        proof {
            let old_ts = ts;
            ts = ts.push(tensor@);
            assert(tensors_view(tensors@) =~= tensors_view(old_map).insert(tensor@.info.name, tensor@));
            let es = Seq::new(ts.len(), |j: int| (ts[j].info.name, ts[j]));
            assert(es.drop_last() =~= Seq::new(old_ts.len(), |j: int| (old_ts[j].info.name, old_ts[j])));
        }
        k = k + 1;
    }
    assert(all_infos.take(count as int) =~= all_infos);
    Ok(tensors)
}

/// The names of the tensors, in order.
pub open spec fn tensor_names(ts: Seq<TensorView>) -> Seq<Seq<char>> {
    Seq::new(ts.len(), |i: int| ts[i].info.name)
}

/// A successful tensor list has one tensor per description.
pub proof fn lemma_tensor_list_len(d: Seq<u8>, base: int, infos: Seq<TensorInfoView>)
    ensures
        spec_tensor_list(d, base, infos) matches Ok(ts) ==> ts.len() == infos.len(),
    decreases infos.len(),
{
    if infos.len() > 0 {
        lemma_tensor_list_len(d, base, infos.drop_last());
    }
}

/// The first multiple of 32 at or after `p` is a multiple of 32, at least
/// `p` and less than `p + 32`: the weights start on a 32-byte boundary right
/// after the tensor descriptions.
pub proof fn lemma_align32(p: int)
    requires
        p >= 0,
    ensures
        align32(p) % 32 == 0,
        p <= align32(p) < p + 32,
{
}

/// Every weight of a byte of a ternary block is -1, 0 or 1.
proof fn lemma_byte_trits_range(b: u8)
    ensures
        byte_trits(b).len() == 5,
        forall|i: int| 0 <= i < 5 ==> -1 <= #[trigger] byte_trits(b)[i] <= 1,
{
}

/// The first `k` bytes of a block give `5 * k` weights, each -1, 0 or 1.
proof fn lemma_block_trits(d: Seq<u8>, start: int, k: nat)
    ensures
        block_trits(d, start, k).len() == 5 * k,
        forall|i: int| 0 <= i < 5 * k ==> -1 <= #[trigger] block_trits(d, start, k)[i] <= 1,
    decreases k,
{
    if k > 0 {
        lemma_block_trits(d, start, (k - 1) as nat);
        lemma_byte_trits_range(d[start + k - 1]);
        let a = block_trits(d, start, (k - 1) as nat);
        let b = byte_trits(d[start + k - 1]);
        assert forall|i: int| 0 <= i < 5 * k implies -1 <= #[trigger] block_trits(d, start, k)[i] <= 1 by {
            if i < a.len() {
                assert(block_trits(d, start, k)[i] == a[i]);
            } else {
                assert(block_trits(d, start, k)[i] == b[i - a.len()]);
            }
        }
    }
}

/// `nb` ternary blocks give 60 weights each (five from each of the first
/// twelve bytes), each -1, 0 or 1.
pub proof fn lemma_ternary_weights(d: Seq<u8>, off: int, nb: nat)
    ensures
        ternary_weights(d, off, nb).len() == 60 * nb,
        forall|i: int| 0 <= i < 60 * nb ==> -1 <= #[trigger] ternary_weights(d, off, nb)[i] <= 1,
    decreases nb,
{
    if nb > 0 {
        lemma_ternary_weights(d, off, (nb - 1) as nat);
        lemma_block_trits(d, off + 13 * (nb - 1), 12);
        let a = ternary_weights(d, off, (nb - 1) as nat);
        let b = block_trits(d, off + 13 * (nb - 1), 12);
        assert forall|i: int| 0 <= i < 60 * nb implies -1 <= #[trigger] ternary_weights(d, off, nb)[i] <= 1 by {
            if i < a.len() {
                assert(ternary_weights(d, off, nb)[i] == a[i]);
            } else {
                assert(ternary_weights(d, off, nb)[i] == b[i - a.len()]);
            }
        }
    }
}

/// The weights that a tensor description yields: `F32` gives one weight per
/// element; `TernaryBonsai` gives 60 weights per whole block of 64 elements,
/// each -1, 0 or 1.
pub proof fn lemma_weights_shape(d: Seq<u8>, info: TensorInfoView)
    requires
        spec_weights(d, info) is Ok,
    ensures
        spec_weights(d, info) matches Ok(w) && match w {
            WeightsView::F32(ws) => ws.len() == spec_product(info.shape),
            WeightsView::Ternary(ts) => {
                &&& ts.len() == 60 * (spec_product(info.shape) / 64)
                &&& (ts.len() > 0 ==> info.offset + 13 * (spec_product(info.shape) / 64) <= d.len())
                &&& forall|i: int| 0 <= i < ts.len() ==> -1 <= #[trigger] ts[i] <= 1
            },
            WeightsView::F16(_) => false,
        },
{
    lemma_product_nonneg(info.shape);
    if info.quant_type == GgufQuantType::TernaryBonsai {
        lemma_ternary_weights(d, info.offset as int, (spec_product(info.shape) / 64) as nat);
    }
}

/// In a decoded tensor description, the name is the UTF-8 encoding of the
/// bytes after its length, the dimension count and each dimension (in file
/// order) are the little-endian numbers that follow, the quantization type is
/// the one whose code comes next (0 for `F32`, 42 for `TernaryBonsai`), then
/// the offset; the description ends right after the offset.
pub proof fn lemma_info_layout(d: Seq<u8>, pos: int)
    requires
        0 <= pos,
    ensures
        spec_info(d, pos) matches Ok((info, p)) ==> {
            let q = pos + 8 + le64(d, pos);
            let n = info.shape.len() as int;
            let r = q + 4 + 8 * n;
            &&& encode_utf8(info.name) == d.subrange(pos + 8, q)
            &&& le_encodes(d.subrange(q, q + 4), n)
            &&& forall|i: int| 0 <= i < n ==> le_encodes(d.subrange(q + 4 + 8 * i, q + 12 + 8 * i), #[trigger] info.shape[i] as int)
            &&& (info.quant_type == GgufQuantType::F32 ==> d.subrange(r, r + 4) == seq![0u8, 0u8, 0u8, 0u8])
            &&& (info.quant_type == GgufQuantType::TernaryBonsai ==> d.subrange(r, r + 4) == seq![42u8, 0u8, 0u8, 0u8])
            &&& le_encodes(d.subrange(r + 4, r + 12), info.offset as int)
            &&& p == r + 12
        },
{
    if let Ok((info, p)) = spec_info(d, pos) {
        lemma_string_layout(d, pos, GgufField::TensorNameLength, GgufField::TensorName);
        let q = pos + 8 + le64(d, pos);
        let n = info.shape.len() as int;
        let r = q + 4 + 8 * n;
        lemma_le32_encodes(d, q);
        assert forall|i: int| 0 <= i < n implies le_encodes(d.subrange(q + 4 + 8 * i, q + 12 + 8 * i), #[trigger] info.shape[i] as int) by {
            lemma_le64_encodes(d, q + 4 + 8 * i);
        }
        if info.quant_type == GgufQuantType::F32 {
            assert(d.subrange(r, r + 4) =~= seq![0u8, 0u8, 0u8, 0u8]);
        } else {
            assert(d.subrange(r, r + 4) =~= seq![42u8, 0u8, 0u8, 0u8]);
        }
        lemma_le64_encodes(d, r + 4);
    }
}

/// The five weights `g` of a byte `b` of a ternary block: each is -1, 0 or 1;
/// the first four, each plus one, are the base-3 digits (lowest first) of
/// `((b * 243) / 256) % 81`, and the fifth plus one is `(b * 3) / 256`.
pub open spec fn trits_of_byte(g: Seq<i8>, b: u8) -> bool {
    &&& g.len() == 5
    &&& forall|t: int| 0 <= t < 5 ==> -1 <= #[trigger] g[t] <= 1
    &&& (g[0] + 1) + 3 * (g[1] + 1) + 9 * (g[2] + 1) + 27 * (g[3] + 1) == ((b * 243) / 256) % 81
    &&& g[4] + 1 == (b * 3) / 256
}

/// The five weights that the `m`-th used byte gives.
pub open spec fn weight_group(ws: Seq<i8>, m: int) -> Seq<i8> {
    ws.subrange(5 * m, 5 * m + 5)
}

proof fn lemma_byte_trits_digits(b: u8)
    ensures
        trits_of_byte(byte_trits(b), b),
{
    let c = ((b * 243) / 256) % 81;
    assert(0 <= c < 81);
    assert(c % 3 + 3 * ((c / 3) % 3) + 9 * ((c / 9) % 3) + 27 * (c / 27) == c);
}

proof fn lemma_block_trits_index(d: Seq<u8>, start: int, k: nat, j: int, t: int)
    requires
        0 <= j < k,
        0 <= t < 5,
    ensures
        block_trits(d, start, k).len() == 5 * k,
        block_trits(d, start, k)[5 * j + t] == byte_trits(d[start + j])[t],
    decreases k,
{
    lemma_block_trits(d, start, k);
    lemma_block_trits(d, start, (k - 1) as nat);
    if j < k - 1 {
        lemma_block_trits_index(d, start, (k - 1) as nat, j, t);
    }
}

proof fn lemma_ternary_index(d: Seq<u8>, off: int, nb: nat, k: int, i: int)
    requires
        0 <= k < nb,
        0 <= i < 60,
    ensures
        ternary_weights(d, off, nb)[60 * k + i] == block_trits(d, off + 13 * k, 12)[i],
    decreases nb,
{
    lemma_ternary_weights(d, off, (nb - 1) as nat);
    lemma_block_trits(d, off + 13 * (nb - 1), 12);
    if k < nb - 1 {
        lemma_ternary_index(d, off, (nb - 1) as nat, k, i);
    }
}

/// The weights of a tensor as they sit in the data. `F32`: one weight per
/// element, the `i`-th being the little-endian word at `offset + 4 * i`.
/// `TernaryBonsai`: block `k` is the 13 bytes at `offset + 13 * k`, and the
/// five weights `5 * m .. 5 * m + 5` come from byte `m % 12` of block `m / 12`
/// (see [`trits_of_byte`]); the thirteenth byte of a block gives no weight.
pub proof fn lemma_weights_layout(d: Seq<u8>, info: TensorInfoView)
    requires
        spec_weights(d, info) is Ok,
    ensures
        spec_weights(d, info) matches Ok(w) && match w {
            WeightsView::F32(ws) => {
                &&& ws.len() == spec_product(info.shape)
                &&& (ws.len() > 0 ==> info.offset + 4 * ws.len() <= d.len())
                &&& forall|i: int| 0 <= i < ws.len() ==>
                    le_encodes(d.subrange(info.offset + 4 * i, info.offset + 4 * i + 4), #[trigger] ws[i] as int)
            },
            WeightsView::Ternary(ts) => {
                &&& ts.len() == 60 * (spec_product(info.shape) / 64)
                &&& (ts.len() > 0 ==> info.offset + 13 * (spec_product(info.shape) / 64) <= d.len())
                &&& forall|m: int| 0 <= m < 12 * (spec_product(info.shape) / 64) ==>
                    trits_of_byte(#[trigger] weight_group(ts, m), d[info.offset + 13 * (m / 12) + m % 12])
            },
            WeightsView::F16(_) => false,
        },
{
    lemma_product_nonneg(info.shape);
    let n = spec_product(info.shape);
    let off = info.offset as int;
    match info.quant_type {
        GgufQuantType::F32 => {
            assert forall|i: int| 0 <= i < n implies
                le_encodes(d.subrange(off + 4 * i, off + 4 * i + 4), #[trigger] (le32(d, off + 4 * i) as u32) as int) by {
                lemma_le32_encodes(d, off + 4 * i);
            }
        },
        GgufQuantType::TernaryBonsai => {
            let nb = (n / 64) as nat;
            let ts = ternary_weights(d, off, nb);
            lemma_ternary_weights(d, off, nb);
            assert forall|m: int| 0 <= m < 12 * nb implies
                trits_of_byte(#[trigger] weight_group(ts, m), d[off + 13 * (m / 12) + m % 12]) by {
                let k = m / 12;
                let j = m % 12;
                let b = d[off + 13 * k + j];
                assert(5 * m == 60 * k + 5 * j);
                assert forall|t: int| 0 <= t < 5 implies #[trigger] weight_group(ts, m)[t] == byte_trits(b)[t] by {
                    lemma_ternary_index(d, off, nb, k, 5 * j + t);
                    lemma_block_trits_index(d, off + 13 * k, 12, j, t);
                }
                assert(weight_group(ts, m) =~= byte_trits(b));
                lemma_byte_trits_digits(b);
            }
        },
    }
}

proof fn lemma_tensor_list_index(d: Seq<u8>, base: int, infos: Seq<TensorInfoView>, i: int)
    requires
        0 <= i < infos.len(),
        spec_tensor_list(d, base, infos) is Ok,
    ensures
        spec_tensor_list(d, base, infos) matches Ok(ts) && ts.len() == infos.len()
            && spec_tensor(d, base, infos[i]) == Ok::<TensorView, GgufError>(ts[i]),
    decreases infos.len(),
{
    lemma_tensor_list_len(d, base, infos);
    lemma_tensor_list_len(d, base, infos.drop_last());
    if i < infos.len() - 1 {
        lemma_tensor_list_index(d, base, infos.drop_last(), i);
    }
}

/// Each tensor of the tensor section comes from one of the descriptions with
/// its name: same name, dimensions and quantization type; its offset is the
/// declared one moved forward by the start of the weight area, a multiple of
/// 32 at most 31 bytes after the end of the descriptions; and its weights are
/// the ones read at that offset.
pub proof fn lemma_tensors_placement(d: Seq<u8>, pos: int, n: nat)
    requires
        0 <= pos <= d.len(),
    ensures
        spec_tensors(d, pos, n) matches Ok(m) ==> spec_infos(d, pos, n) matches Ok((infos, p)) && forall|k: Seq<char>| #[trigger] m.contains_key(k) ==>
            exists|i: int| {
                &&& 0 <= i < infos.len()
                &&& #[trigger] infos[i].name == k
                &&& m[k].info.name == k
                &&& m[k].info.shape == infos[i].shape
                &&& m[k].info.quant_type == infos[i].quant_type
                &&& (m[k].info.offset - infos[i].offset) % 32 == 0
                &&& p <= m[k].info.offset - infos[i].offset < p + 32
                &&& spec_weights(d, m[k].info) == Ok::<WeightsView, GgufError>(m[k].weights)
            },
{
    if let Ok(m) = spec_tensors(d, pos, n) {
        let (infos, p) = spec_infos(d, pos, n).unwrap();
        lemma_infos_bounds(d, pos, n);
        let base = align32(p);
        let ts = spec_tensor_list(d, base, infos).unwrap();
        lemma_tensor_list_len(d, base, infos);
        let pairs = Seq::new(ts.len(), |i: int| (ts[i].info.name, ts[i]));
        assert forall|k: Seq<char>| #[trigger] m.contains_key(k) implies exists|i: int| {
                &&& 0 <= i < infos.len()
                &&& #[trigger] infos[i].name == k
                &&& m[k].info.name == k
                &&& m[k].info.shape == infos[i].shape
                &&& m[k].info.quant_type == infos[i].quant_type
                &&& (m[k].info.offset - infos[i].offset) % 32 == 0
                &&& p <= m[k].info.offset - infos[i].offset < p + 32
                &&& spec_weights(d, m[k].info) == Ok::<WeightsView, GgufError>(m[k].weights)
            } by {
            lemma_entries_map_from_pair(pairs, k);
            let i = choose|i: int| 0 <= i < pairs.len() && pairs[i].0 == k && #[trigger] pairs[i].1 == entries_map(pairs)[k];
            lemma_tensor_list_index(d, base, infos, i);
            assert(pairs[i].1 == ts[i]);
            assert(infos[i].name == k);
        }
    }
}

/// Reading weights fails exactly when they take some bytes and those run past
/// the end of the data: four bytes per element for `F32`, thirteen per whole
/// block of 64 elements for `TernaryBonsai`.
pub proof fn lemma_weights_fail(d: Seq<u8>, info: TensorInfoView)
    ensures
        spec_weights(d, info) is Err <==> match info.quant_type {
            GgufQuantType::F32 => spec_product(info.shape) > 0 && info.offset + 4 * spec_product(info.shape) > d.len(),
            GgufQuantType::TernaryBonsai => spec_product(info.shape) / 64 > 0
                && info.offset + 13 * (spec_product(info.shape) / 64) > d.len(),
        },
{
    lemma_product_nonneg(info.shape);
}

proof fn lemma_infos_positions(d: Seq<u8>, pos: int, n: nat) -> (ps: Seq<int>)
    requires
        spec_infos(d, pos, n) is Ok,
    ensures
        spec_infos(d, pos, n) matches Ok((infos, p)) && {
            &&& ps.len() == n + 1
            &&& infos.len() == n
            &&& ps[0] == pos
            &&& ps[n as int] == p
            &&& forall|i: int| 0 <= i < n ==> spec_info(d, #[trigger] ps[i]) == Ok::<(TensorInfoView, int), GgufError>((infos[i], ps[i + 1]))
        },
    decreases n,
{
    if n == 0 {
        seq![pos]
    } else {
        let prev = lemma_infos_positions(d, pos, (n - 1) as nat);
        let (infos0, p0) = spec_infos(d, pos, (n - 1) as nat).unwrap();
        let (info, p2) = spec_info(d, p0).unwrap();
        let ps = prev.push(p2);
        let infos = infos0.push(info);
        assert forall|i: int| 0 <= i < n implies spec_info(d, #[trigger] ps[i]) == Ok::<(TensorInfoView, int), GgufError>((infos[i], ps[i + 1])) by {
            if i < n - 1 {
                assert(spec_info(d, prev[i]) == Ok::<(TensorInfoView, int), GgufError>((infos0[i], prev[i + 1])));
            }
        }
        ps
    }
}

/// The tensor descriptions are `n` descriptions one right after the other
/// from `pos` (each laid out as [`lemma_info_layout`] states).
pub proof fn lemma_infos_layout(d: Seq<u8>, pos: int, n: nat)
    ensures
        spec_infos(d, pos, n) matches Ok((infos, p)) ==> exists|ps: Seq<int>| {
            &&& ps.len() == n + 1
            &&& infos.len() == n
            &&& ps[0] == pos
            &&& ps[n as int] == p
            &&& forall|i: int| 0 <= i < n ==> spec_info(d, #[trigger] ps[i]) == Ok::<(TensorInfoView, int), GgufError>((infos[i], ps[i + 1]))
        },
{
    if let Ok((infos, p)) = spec_infos(d, pos, n) {
        let ps = lemma_infos_positions(d, pos, n);
    }
}
} // verus!
