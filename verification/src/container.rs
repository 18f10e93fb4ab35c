//! The on-disk tensor container: variants, element encodings, tensor records.
//!
//! A container is, in order: a magic word, a format version (absent in the
//! legacy variant), a fixed-size hyperparameter record, the vocabulary, and a
//! tensor index that runs to the end of the file.  Every multi-byte field is
//! little-endian.  The codec never copies tensor payloads: it records the byte
//! offset of each payload and skips past it.

use crate::bytes::read_u32;
use vstd::prelude::*;

verus! {

/// The magic word of the legacy unversioned container.
pub const MAGIC_UNVERSIONED: u32 = 0x67676d6c;

/// The magic word of the versioned unaligned container.
pub const MAGIC_VERSIONED: u32 = 0x67676d66;

/// The magic word of the versioned aligned container, the only one that
/// supports memory mapping.
pub const MAGIC_ALIGNED: u32 = 0x67676a74;

/// The only format version currently accepted in versioned containers.
pub const FORMAT_VERSION: u32 = 1;

/// Tensor payloads of an aligned container start at multiples of this.
pub const TENSOR_ALIGNMENT: usize = 32;

/// The container variants.
#[derive(Debug, Clone, Copy, PartialEq, Eq, Structural)]
pub enum ContainerType {
    /// Legacy container, unversioned.
    Ggml,
    /// Versioned container, tensor payloads unaligned.
    Ggmf,
    /// Versioned container, tensor payloads aligned; supports memory mapping.
    Ggjt,
}

impl ContainerType {
    /// Whether payloads of this variant may be bound straight to a mapped file.
    pub fn support_mmap(&self) -> (r: bool)
        ensures
            r == (*self == ContainerType::Ggjt),
    {
        matches!(self, ContainerType::Ggjt)
    }
}

/// The element encodings a tensor payload can use.  Block-quantized encodings
/// pack a fixed number of elements into a fixed-size block.
#[derive(Debug, Clone, Copy, PartialEq, Eq, Structural)]
#[allow(non_camel_case_types)]
pub enum ElementType {
    /// 32-bit floats, one element per 4 bytes.
    F32,
    /// 16-bit floats, one element per 2 bytes.
    F16,
    /// 32 elements per 20-byte block (scale + 4-bit values).
    Q4_0,
    /// 32 elements per 24-byte block (scale, minimum + 4-bit values).
    Q4_1,
    /// 16 elements per 10-byte block (16-bit scale + 4-bit values).
    Q4_2,
    /// 32 elements per 22-byte block (16-bit scale, high bits + 4-bit values).
    Q5_0,
    /// 32 elements per 24-byte block (16-bit scale, minimum, high bits + 4-bit values).
    Q5_1,
    /// 32 elements per 36-byte block (scale + 8-bit values).
    Q8_0,
}

/// The numeric code of an element encoding; the codes match the file-type
/// profile codes where one exists.
pub open spec fn element_type_code(t: ElementType) -> int {
    match t {
        ElementType::F32 => 0,
        ElementType::F16 => 1,
        ElementType::Q4_0 => 2,
        ElementType::Q4_1 => 3,
        ElementType::Q4_2 => 5,
        ElementType::Q5_0 => 8,
        ElementType::Q5_1 => 9,
        ElementType::Q8_0 => 7,
    }
}

/// The element encoding a numeric code stands for, if any.
pub open spec fn element_type_of_code(v: int) -> Option<ElementType> {
    if v == 0 {
        Some(ElementType::F32)
    } else if v == 1 {
        Some(ElementType::F16)
    } else if v == 2 {
        Some(ElementType::Q4_0)
    } else if v == 3 {
        Some(ElementType::Q4_1)
    } else if v == 5 {
        Some(ElementType::Q4_2)
    } else if v == 8 {
        Some(ElementType::Q5_0)
    } else if v == 9 {
        Some(ElementType::Q5_1)
    } else if v == 7 {
        Some(ElementType::Q8_0)
    } else {
        None
    }
}

/// Number of elements that share one block.
pub open spec fn spec_block_size(t: ElementType) -> int {
    match t {
        ElementType::F32 => 1,
        ElementType::F16 => 1,
        ElementType::Q4_0 => 32,
        ElementType::Q4_1 => 32,
        ElementType::Q4_2 => 16,
        ElementType::Q5_0 => 32,
        ElementType::Q5_1 => 32,
        ElementType::Q8_0 => 32,
    }
}

/// Bytes one block occupies.
pub open spec fn spec_type_size(t: ElementType) -> int {
    match t {
        ElementType::F32 => 4,
        ElementType::F16 => 2,
        ElementType::Q4_0 => 20,
        ElementType::Q4_1 => 24,
        ElementType::Q4_2 => 10,
        ElementType::Q5_0 => 22,
        ElementType::Q5_1 => 24,
        ElementType::Q8_0 => 36,
    }
}

impl ElementType {
    /// The encoding a numeric code stands for, if any.
    pub fn from_code(v: u32) -> (r: Option<ElementType>)
        ensures
            r == element_type_of_code(v as int),
    {
        match v {
            0 => Some(ElementType::F32),
            1 => Some(ElementType::F16),
            2 => Some(ElementType::Q4_0),
            3 => Some(ElementType::Q4_1),
            5 => Some(ElementType::Q4_2),
            8 => Some(ElementType::Q5_0),
            9 => Some(ElementType::Q5_1),
            7 => Some(ElementType::Q8_0),
            _ => None,
        }
    }

    /// The numeric code of this encoding.
    pub fn code(&self) -> (r: u32)
        ensures
            r == element_type_code(*self),
    {
        match self {
            ElementType::F32 => 0,
            ElementType::F16 => 1,
            ElementType::Q4_0 => 2,
            ElementType::Q4_1 => 3,
            ElementType::Q4_2 => 5,
            ElementType::Q5_0 => 8,
            ElementType::Q5_1 => 9,
            ElementType::Q8_0 => 7,
        }
    }

    /// Number of elements that share one block.
    pub fn block_size(&self) -> (r: usize)
        ensures
            r == spec_block_size(*self),
    {
        match self {
            ElementType::F32 => 1,
            ElementType::F16 => 1,
            ElementType::Q4_0 => 32,
            ElementType::Q4_1 => 32,
            ElementType::Q4_2 => 16,
            ElementType::Q5_0 => 32,
            ElementType::Q5_1 => 32,
            ElementType::Q8_0 => 32,
        }
    }

    /// Bytes one block occupies.
    pub fn type_size(&self) -> (r: usize)
        ensures
            r == spec_type_size(*self),
    {
        match self {
            ElementType::F32 => 4,
            ElementType::F16 => 2,
            ElementType::Q4_0 => 20,
            ElementType::Q4_1 => 24,
            ElementType::Q4_2 => 10,
            ElementType::Q5_0 => 22,
            ElementType::Q5_1 => 24,
            ElementType::Q8_0 => 36,
        }
    }

    /// Whether this is one of the block-quantized encodings.
    pub fn is_quantized(&self) -> (r: bool)
        ensures
            r == (spec_block_size(*self) != 1),
    {
        !matches!(self, ElementType::F32 | ElementType::F16)
    }
}

/// Payload bytes of a tensor with the given shape and encoding: the leading
/// dimension is stored in whole blocks, the remaining dimensions multiply.
pub open spec fn spec_payload_size(dims: Seq<int>, t: ElementType) -> int
    recommends
        1 <= dims.len() <= 3,
        dims[0] % spec_block_size(t) == 0,
{
    (dims[0] / spec_block_size(t)) * spec_type_size(t) * if dims.len() >= 2 {
        dims[1] * if dims.len() >= 3 {
            dims[2]
        } else {
            1
        }
    } else {
        1
    }
}

/// A well-formedness condition of the tensor index that a container can break.
#[derive(Debug, Clone, Copy, PartialEq, Eq, Structural)]
pub enum BrokenInvariant {
    /// A tensor record declared this dimension count, outside `1..=3`.
    DimCount(u32),
    /// A tensor's fastest dimension is not a multiple of its encoding's block size.
    LeadingDimNotBlockMultiple,
}

/// What the codec can find wrong with a container.
#[derive(Debug, Clone, Copy, PartialEq, Eq, Structural)]
pub enum FormatError {
    /// The magic word identifies no known container variant.
    InvalidMagic(u32),
    /// A versioned container declares a version this codec does not read.
    InvalidFormatVersion(ContainerType, u32),
    /// The file ends before the structure it declares; carries the byte
    /// offset of the structure that was cut short.
    UnexpectedEof(usize),
    /// A tensor name is not valid UTF-8.
    InvalidUtf8,
    /// A count field does not fit the type that consumes it.
    InvalidIntegerConversion,
    /// The hyperparameters name a tensor-encoding profile code that does not exist.
    UnsupportedFileType(i32),
    /// A tensor record names an element-encoding code that does not exist.
    UnsupportedElementType(u32),
    /// The tensor index breaks a structural invariant.
    InvariantBroken(BrokenInvariant),
}

/// A tensor discovered in the container: its name, shape, element encoding,
/// and the absolute byte offset of its payload within the file.
pub struct TensorLoadInfo {
    /// Tensor name; unique within one container.
    pub name: String,
    /// Shape, between 1 and 3 dimensions, element 0 the fastest axis.
    pub dims: Vec<usize>,
    /// Element encoding of the payload.
    pub element_type: ElementType,
    /// Absolute byte offset of the payload within the file.
    pub start_offset: usize,
}

impl TensorLoadInfo {
    /// Shape and offset bounds every record of a parsed container meets.
    pub open spec fn wf(&self) -> bool {
        &&& 1 <= self.dims.len() <= 3
        &&& forall|i: int| 0 <= i < self.dims.len() ==> #[trigger] self.dims[i] <= u32::MAX
        &&& self.dims[0] as int % spec_block_size(self.element_type) == 0
        &&& self.start_offset + spec_payload_size(self.dims@.map_values(|d: usize| d as int), self.element_type) <= usize::MAX
    }

    /// Payload size in bytes.
    pub open spec fn spec_calc_size(&self) -> int {
        spec_payload_size(self.dims@.map_values(|d: usize| d as int), self.element_type)
    }

    /// Payload size in bytes.
    pub fn calc_size(&self) -> (r: usize)
        requires
            self.wf(),
        ensures
            r == self.spec_calc_size(),
    {
        let size = payload_size_u128(&self.dims, self.element_type);
        size as usize
    }
}


/// Payload alignment of the aligned container: the next multiple of the
/// tensor alignment.
pub open spec fn spec_align32(p: int) -> int {
    ((p + (TENSOR_ALIGNMENT - 1)) / (TENSOR_ALIGNMENT as int)) * (TENSOR_ALIGNMENT as int)
}

/// A tensor record as the spec-level parser sees it: raw name bytes, shape,
/// encoding, and the absolute payload offset.
pub ghost struct SpecTensorInfo {
    /// Raw name bytes (valid UTF-8 in a well-formed container).
    pub name: Seq<u8>,
    /// Shape, between 1 and 3 dimensions.
    pub dims: Seq<int>,
    /// Element encoding of the payload.
    pub element_type: ElementType,
    /// Absolute byte offset of the payload within the file.
    pub start_offset: int,
}

/// Everything one parse of a container discovers.
pub ghost struct SpecContainer {
    /// The container variant.
    pub container_type: ContainerType,
    /// The hyperparameter record.
    pub hyperparameters: crate::hyperparameters::Hyperparameters,
    /// The vocabulary: (token bytes, raw 32-bit float score pattern) pairs.
    pub vocabulary: Seq<(Seq<u8>, u32)>,
    /// The tensor index, in file order.
    pub tensors: Seq<SpecTensorInfo>,
    /// Where the tensor index starts (the end of the vocabulary section).
    pub tensor_index_start: int,
}

/// Identifying the container variant: magic word, then, for the versioned
/// variants, the format version.
pub open spec fn spec_parse_magic(data: Seq<u8>) -> Result<(ContainerType, int), FormatError> {
    if data.len() < 4 {
        Err(FormatError::UnexpectedEof(0))
    } else {
        let magic = crate::bytes::le32(data.subrange(0, 4));
        if magic == MAGIC_UNVERSIONED {
            Ok((ContainerType::Ggml, 4))
        } else if magic == MAGIC_VERSIONED || magic == MAGIC_ALIGNED {
            let ct = if magic == MAGIC_VERSIONED {
                ContainerType::Ggmf
            } else {
                ContainerType::Ggjt
            };
            if data.len() < 8 {
                Err(FormatError::UnexpectedEof(4))
            } else {
                let version = crate::bytes::le32(data.subrange(4, 8));
                if version == FORMAT_VERSION {
                    Ok((ct, 8))
                } else {
                    Err(FormatError::InvalidFormatVersion(ct, version as u32))
                }
            }
        } else {
            Err(FormatError::InvalidMagic(magic as u32))
        }
    }
}

/// Parsing `count` vocabulary entries at `pos`: each entry is a length, the
/// token bytes, and the 32-bit float score pattern.  Yields the entries and
/// the position after them.
pub open spec fn spec_parse_vocab(data: Seq<u8>, pos: int, count: nat) -> Result<
    (Seq<(Seq<u8>, u32)>, int),
    FormatError,
>
    decreases count,
{
    if count == 0 {
        Ok((Seq::empty(), pos))
    } else if pos + 4 > data.len() {
        Err(FormatError::UnexpectedEof(pos as usize))
    } else {
        let len = crate::bytes::le32(data.subrange(pos, pos + 4));
        if pos + 8 + len > data.len() {
            Err(FormatError::UnexpectedEof(pos as usize))
        } else {
            let token = data.subrange(pos + 4, pos + 4 + len);
            let score_bits = crate::bytes::le32(data.subrange(pos + 4 + len, pos + 8 + len)) as u32;
            match spec_parse_vocab(data, pos + 8 + len, (count - 1) as nat) {
                Ok((rest, end)) => Ok((seq![(token, score_bits)] + rest, end)),
                Err(e) => Err(e),
            }
        }
    }
}

/// Parsing one tensor record at `pos`: the dimension count, name length and
/// encoding code, then the dimensions and the name, then (in the aligned
/// variant) padding to a 32-byte boundary, then the payload, which the codec
/// only skips.  Yields the record and the position after its payload.
pub open spec fn spec_parse_tensor_record(data: Seq<u8>, pos: int, aligned: bool) -> Result<
    (SpecTensorInfo, int),
    FormatError,
> {
    if pos + 12 > data.len() {
        Err(FormatError::UnexpectedEof(pos as usize))
    } else {
        let n_dims = crate::bytes::le32(data.subrange(pos, pos + 4));
        let name_len = crate::bytes::le32(data.subrange(pos + 4, pos + 8));
        let ftype = crate::bytes::le32(data.subrange(pos + 8, pos + 12));
        if !(1 <= n_dims <= 3) {
            Err(FormatError::InvariantBroken(BrokenInvariant::DimCount(n_dims as u32)))
        } else if pos + 12 + 4 * n_dims + name_len > data.len() {
            Err(FormatError::UnexpectedEof(pos as usize))
        } else {
            let dims = Seq::new(
                n_dims as nat,
                |i: int| crate::bytes::le32(data.subrange(pos + 12 + 4 * i, pos + 16 + 4 * i)),
            );
            let name = data.subrange(pos + 12 + 4 * n_dims, pos + 12 + 4 * n_dims + name_len);
            if !vstd::utf8::valid_utf8(name) {
                Err(FormatError::InvalidUtf8)
            } else {
                match element_type_of_code(ftype) {
                    None => Err(FormatError::UnsupportedElementType(ftype as u32)),
                    Some(et) => {
                        if dims[0] % spec_block_size(et) != 0 {
                            Err(
                                FormatError::InvariantBroken(
                                    BrokenInvariant::LeadingDimNotBlockMultiple,
                                ),
                            )
                        } else {
                            let start = if aligned {
                                spec_align32(pos + 12 + 4 * n_dims + name_len)
                            } else {
                                pos + 12 + 4 * n_dims + name_len
                            };
                            let size = spec_payload_size(dims, et);
                            if start + size > data.len() {
                                Err(FormatError::UnexpectedEof(pos as usize))
                            } else {
                                let rec = SpecTensorInfo {
                                    name,
                                    dims,
                                    element_type: et,
                                    start_offset: start,
                                };
                                Ok((rec, start + size))
                            }
                        }
                    },
                }
            }
        }
    }
}

/// A parsed tensor record always advances the position and stays within the
/// file: its header alone is at least 16 bytes.
pub proof fn lemma_tensor_record_advances(data: Seq<u8>, pos: int, aligned: bool)
    requires
        0 <= pos,
        spec_parse_tensor_record(data, pos, aligned) is Ok,
    ensures
        pos < spec_parse_tensor_record(data, pos, aligned)->Ok_0.1 <= data.len(),
{
    let n_dims = crate::bytes::le32(data.subrange(pos, pos + 4));
    let name_len = crate::bytes::le32(data.subrange(pos + 4, pos + 8));
    let ftype = crate::bytes::le32(data.subrange(pos + 8, pos + 12));
    let dims = Seq::new(
        n_dims as nat,
        |i: int| crate::bytes::le32(data.subrange(pos + 12 + 4 * i, pos + 16 + 4 * i)),
    );
    let et = element_type_of_code(ftype)->Some_0;
    let header_end = pos + 12 + 4 * n_dims + name_len;
    let start = if aligned {
        spec_align32(header_end)
    } else {
        header_end
    };
    assert(header_end <= start) by {
        vstd::arithmetic::div_mod::lemma_fundamental_div_mod(header_end + 31, 32);
        vstd::arithmetic::div_mod::lemma_mod_bound(header_end + 31, 32);
    }
    let size = spec_payload_size(dims, et);
    assert(size >= 0) by {
        let bs = spec_block_size(et);
        let ts = spec_type_size(et);
        vstd::arithmetic::div_mod::lemma_div_pos_is_pos(dims[0], bs);
        vstd::arithmetic::mul::lemma_mul_nonnegative(dims[0] / bs, ts);
        if dims.len() >= 3 {
            vstd::arithmetic::mul::lemma_mul_nonnegative(dims[1], dims[2]);
        }
        vstd::arithmetic::mul::lemma_mul_nonnegative(
            (dims[0] / bs) * ts,
            if dims.len() >= 2 {
                dims[1] * if dims.len() >= 3 {
                    dims[2]
                } else {
                    1
                }
            } else {
                1
            },
        );
    }
}

#[via_fn]
proof fn spec_parse_tensors_decreases(data: Seq<u8>, pos: int, aligned: bool) {
    if 0 <= pos < data.len() {
        if spec_parse_tensor_record(data, pos, aligned) is Ok {
            lemma_tensor_record_advances(data, pos, aligned);
        }
    }
}

/// Parsing the tensor index at `pos`: records until exactly the end of the
/// file.
pub open spec fn spec_parse_tensors(data: Seq<u8>, pos: int, aligned: bool) -> Result<
    Seq<SpecTensorInfo>,
    FormatError,
>
    decreases data.len() - pos when 0 <= pos
    via spec_parse_tensors_decreases
{
    if pos >= data.len() {
        Ok(Seq::empty())
    } else {
        match spec_parse_tensor_record(data, pos, aligned) {
            Err(e) => Err(e),
            Ok((rec, next)) => match spec_parse_tensors(data, next, aligned) {
                Ok(rest) => Ok(seq![rec] + rest),
                Err(e) => Err(e),
            },
        }
    }
}

/// One parse of a whole container: variant, hyperparameters, vocabulary,
/// tensor index.
pub open spec fn spec_parse_container(data: Seq<u8>) -> Result<
    SpecContainer,
    FormatError,
> {
    let magic = spec_parse_magic(data);
    if magic is Err {
        Err(magic->Err_0)
    } else {
        let ct = magic->Ok_0.0;
        let p = magic->Ok_0.1;
        let hp_r = crate::hyperparameters::spec_read_hyperparameters(data, p);
        if hp_r is Err {
            Err(hp_r->Err_0)
        } else {
            let hp = hp_r->Ok_0;
            let vocab_r = spec_parse_vocab(data, p + 24, hp.n_vocab as nat);
            if vocab_r is Err {
                Err(vocab_r->Err_0)
            } else {
                let vocab = vocab_r->Ok_0.0;
                let p2 = vocab_r->Ok_0.1;
                let aligned = ct == ContainerType::Ggjt;
                let tensors_r = spec_parse_tensors(data, p2, aligned);
                if tensors_r is Err {
                    Err(tensors_r->Err_0)
                } else {
                    Ok(
                        SpecContainer {
                            container_type: ct,
                            hyperparameters: hp,
                            vocabulary: vocab,
                            tensors: tensors_r->Ok_0,
                            tensor_index_start: p2,
                        },
                    )
                }
            }
        }
    }
}


/// Payload bytes of a tensor with the given shape and encoding, computed
/// wide enough that no intermediate product can overflow.
pub(crate) fn payload_size_u128(dims: &Vec<usize>, t: ElementType) -> (r: u128)
    requires
        1 <= dims@.len() <= 3,
        forall|i: int| 0 <= i < dims@.len() ==> #[trigger] dims@[i] <= u32::MAX,
    ensures
        r == spec_payload_size(dims@.map_values(|d: usize| d as int), t),
        r <= 0x24_0000_0000_0000_0000_0000_0000u128,
{
    let bs = t.block_size() as u128;
    let ts = t.type_size() as u128;
    let d0 = dims[0] as u128;
    let a: u128 = (d0 / bs) * ts;
    proof {
        assert(d0 / bs <= d0 && d0 as int / bs as int == d0 / bs) by (nonlinear_arith)
            requires
                bs >= 1,
        ;
        assert((d0 / bs) * ts <= 0x1_0000_0000u128 * 36) by (nonlinear_arith)
            requires
                d0 / bs <= 0x1_0000_0000u128 && ts <= 36,
        ;
    }
    if dims.len() >= 2 {
        if dims.len() >= 3 {
            let d1 = dims[1] as u128;
            let d2 = dims[2] as u128;
            proof {
                assert(a * d1 <= 0x24_0000_0000u128 * 0x1_0000_0000u128 && a * (d1 * d2) == a * d1
                    * d2 && a * d1 * d2 <= 0x24_0000_0000u128 * 0x1_0000_0000u128
                    * 0x1_0000_0000u128) by (nonlinear_arith)
                    requires
                        a <= 0x24_0000_0000u128 && d1 <= 0xffff_ffffu128 && d2 <= 0xffff_ffffu128,
                ;
            }
            a * d1 * d2
        } else {
            let d1 = dims[1] as u128;
            proof {
                assert(a * d1 <= 0x24_0000_0000u128 * 0x1_0000_0000u128) by (nonlinear_arith)
                    requires
                        a <= 0x24_0000_0000u128 && d1 <= 0xffff_ffffu128,
                ;
            }
            a * d1
        }
    } else {
        a
    }
}

/// Copies the byte range `[a, b)` out of the file.
pub(crate) fn bytes_range(data: &Vec<u8>, a: usize, b: usize) -> (r: Vec<u8>)
    requires
        a <= b <= data.len(),
    ensures
        r@ == data@.subrange(a as int, b as int),
{
    let mut r: Vec<u8> = Vec::new();
    let mut j: usize = a;
    while j < b
        invariant
            a <= j <= b <= data.len(),
            r@ == data@.subrange(a as int, j as int),
        decreases b - j,
    {
        r.push(data[j]);
        j = j + 1;
        proof {
            assert(data@.subrange(a as int, j as int) =~= data@.subrange(a as int, j - 1).push(
                data@[j - 1],
            ));
        }
    }
    r
}

/// Relies on `String::from_utf8`: it returns `Ok` exactly when the bytes are
/// valid UTF-8, and the string then reads back as exactly those bytes.
#[verifier::external_body]
fn string_from_utf8(v: Vec<u8>) -> (r: Option<String>)
    ensures
        r is Some <==> vstd::utf8::valid_utf8(v@),
        r is Some ==> vstd::utf8::encode_utf8(r->Some_0@) == v@,
{
    String::from_utf8(v).ok()
}

/// The exec record carries the same name bytes, shape, encoding and offset as
/// the spec-level record.
pub open spec fn tensor_info_matches(t: TensorLoadInfo, s: SpecTensorInfo) -> bool {
    &&& vstd::utf8::encode_utf8(t.name@) == s.name
    &&& t.dims@.map_values(|d: usize| d as int) == s.dims
    &&& t.element_type == s.element_type
    &&& t.start_offset == s.start_offset
}


/// Parses one tensor record at `pos`, yielding the record and the position
/// after its payload.
fn parse_tensor_record(data: &Vec<u8>, pos: usize, aligned: bool) -> (r: Result<
    (TensorLoadInfo, usize),
    FormatError,
>)
    requires
        pos <= data.len(),
    ensures
        match spec_parse_tensor_record(data@, pos as int, aligned) {
            Ok(sr) => r is Ok && tensor_info_matches(r->Ok_0.0, sr.0) && r->Ok_0.0.wf()
                && r->Ok_0.1 == sr.1,
            Err(e) => r == Err::<(TensorLoadInfo, usize), FormatError>(e),
        },
{
    if data.len() - pos < 12 {
        return Err(FormatError::UnexpectedEof(pos));
    }
    let n_dims_u = read_u32(data, pos);
    let name_len_u = read_u32(data, pos + 4);
    let ftype = read_u32(data, pos + 8);
    if n_dims_u < 1 || n_dims_u > 3 {
        return Err(FormatError::InvariantBroken(BrokenInvariant::DimCount(n_dims_u)));
    }
    let n_dims = n_dims_u as usize;
    if (pos as u128) + 12 + 4 * (n_dims as u128) + (name_len_u as u128) > data.len() as u128 {
        return Err(FormatError::UnexpectedEof(pos));
    }
    let name_len = name_len_u as usize;
    let ghost sdims = Seq::new(
        n_dims as nat,
        |i: int| crate::bytes::le32(
            data@.subrange(pos + 12 + 4 * i, pos + 16 + 4 * i),
        ),
    );
    let mut dims: Vec<usize> = Vec::new();
    dims.push(read_u32(data, pos + 12) as usize);
    if n_dims >= 2 {
        dims.push(read_u32(data, pos + 16) as usize);
    }
    if n_dims >= 3 {
        dims.push(read_u32(data, pos + 20) as usize);
    }
    proof {
        assert(dims@.map_values(|d: usize| d as int) =~= sdims);
    }
    let name_start = pos + 12 + 4 * n_dims;
    let name_bytes = bytes_range(data, name_start, name_start + name_len);
    let name = match string_from_utf8(name_bytes) {
        Some(s) => s,
        None => {
            return Err(FormatError::InvalidUtf8);
        },
    };
    let et = match ElementType::from_code(ftype) {
        Some(t) => t,
        None => {
            return Err(FormatError::UnsupportedElementType(ftype));
        },
    };
    if dims[0] % et.block_size() != 0 {
        return Err(FormatError::InvariantBroken(BrokenInvariant::LeadingDimNotBlockMultiple));
    }
    let size128 = payload_size_u128(&dims, et);
    let header_end = name_start + name_len;
    let start128: u128 = if aligned {
        ((header_end as u128) + 31) / 32 * 32
    } else {
        header_end as u128
    };
    proof {
        if aligned {
            vstd::arithmetic::div_mod::lemma_fundamental_div_mod(header_end + 31, 32);
            vstd::arithmetic::div_mod::lemma_mod_bound(header_end + 31, 32);
        }
        assert(start128 <= header_end as u128 + 31);
    }
    if start128 + size128 > data.len() as u128 {
        return Err(FormatError::UnexpectedEof(pos));
    }
    let info = TensorLoadInfo {
        name,
        dims,
        element_type: et,
        start_offset: start128 as usize,
    };
    Ok((info, (start128 + size128) as usize))
}


/// The loader holds exactly what one parse of the container discovers.
pub open spec fn loader_matches(l: crate::loader::Loader, sc: SpecContainer) -> bool {
    &&& l.container_type == sc.container_type
    &&& l.tensor_index_start == sc.tensor_index_start
    &&& l.hyperparameters == sc.hyperparameters
    &&& l.vocabulary.wf()
    &&& l.vocabulary.id_to_token@.len() == sc.vocabulary.len()
    &&& forall|i: int|
        0 <= i < sc.vocabulary.len() ==> #[trigger] l.vocabulary.id_to_token@[i]@
            == sc.vocabulary[i].0
    &&& forall|i: int|
        0 <= i < sc.vocabulary.len() ==> #[trigger] l.vocabulary.id_to_token_score@[i] as int
            == crate::vocabulary::fixed_from_f32_bits(sc.vocabulary[i].1)
    &&& l.tensors@.len() == sc.tensors.len()
    &&& forall|i: int|
        0 <= i < sc.tensors.len() ==> #[trigger] tensor_info_matches(
            l.tensors@[i],
            sc.tensors[i],
        )
    &&& forall|i: int| 0 <= i < sc.tensors.len() ==> #[trigger] l.tensors@[i].wf()
}


/// Walks the vocabulary section at `pos0`, reporting each entry to the
/// handler; yields the position after the section.
#[verifier::loop_isolation(false)]
fn load_vocabulary(
    data: &Vec<u8>,
    handler: &mut crate::loader::Loader,
    pos0: usize,
    n_vocab: usize,
) -> (r: Result<usize, FormatError>)
    requires
        pos0 <= data.len(),
        n_vocab <= i32::MAX,
        old(handler).vocabulary.wf(),
        old(handler).vocabulary.id_to_token@.len() == 0,
    ensures
        match spec_parse_vocab(data@, pos0 as int, n_vocab as nat) {
            Ok(p) => {
                &&& r is Ok
                &&& r->Ok_0 == p.1
                &&& p.1 <= data.len()
                &&& final(handler).vocabulary.wf()
                &&& final(handler).vocabulary.id_to_token@.len() == p.0.len()
                &&& final(handler).vocabulary.id_to_token_score@.len() == p.0.len()
                &&& forall|j: int|
                    0 <= j < p.0.len() ==> #[trigger] final(handler).vocabulary.id_to_token@[j]@
                        == p.0[j].0
                &&& forall|j: int|
                    0 <= j < p.0.len()
                        ==> #[trigger] final(handler).vocabulary.id_to_token_score@[j] as int
                        == crate::vocabulary::fixed_from_f32_bits(p.0[j].1)
                &&& final(handler).container_type == old(handler).container_type
                &&& final(handler).hyperparameters == old(handler).hyperparameters
                &&& final(handler).tensors == old(handler).tensors
                &&& final(handler).tensor_index_start == old(handler).tensor_index_start
                &&& final(handler).events == old(handler).events
            },
            Err(e) => r == Err::<usize, FormatError>(e),
        },
{
    let ghost mut entries: Seq<(Seq<u8>, u32)> = Seq::empty();
    proof {
        let r0 = spec_parse_vocab(data@, pos0 as int, n_vocab as nat);
        if r0 is Ok {
            assert(Seq::<(Seq<u8>, u32)>::empty() + r0->Ok_0.0 =~= r0->Ok_0.0);
        }
    }
    let mut pos: usize = pos0;
    let mut i: usize = 0;
    while i < n_vocab
        invariant
            i <= n_vocab,
            pos <= data.len(),
            handler.vocabulary.wf(),
            handler.vocabulary.id_to_token@.len() == i,
            handler.vocabulary.id_to_token_score@.len() == i,
            handler.container_type == old(handler).container_type,
            handler.hyperparameters == old(handler).hyperparameters,
            handler.tensors == old(handler).tensors,
            handler.tensor_index_start == old(handler).tensor_index_start,
            handler.events == old(handler).events,
            entries.len() == i,
            forall|j: int|
                0 <= j < i ==> #[trigger] handler.vocabulary.id_to_token@[j]@ == entries[j].0,
            forall|j: int|
                0 <= j < i ==> #[trigger] handler.vocabulary.id_to_token_score@[j] as int
                    == crate::vocabulary::fixed_from_f32_bits(entries[j].1),
            spec_parse_vocab(data@, pos0 as int, n_vocab as nat) == (match spec_parse_vocab(
                data@,
                pos as int,
                (n_vocab - i) as nat,
            ) {
                Ok(p) => Ok::<(Seq<(Seq<u8>, u32)>, int), FormatError>((entries + p.0, p.1)),
                Err(e) => Err(e),
            }),
        decreases n_vocab - i,
    {
        if data.len() - pos < 4 {
            return Err(FormatError::UnexpectedEof(pos));
        }
        let l_u = read_u32(data, pos);
        if (pos as u128) + 8 + (l_u as u128) > data.len() as u128 {
            return Err(FormatError::UnexpectedEof(pos));
        }
        let l = l_u as usize;
        let token = bytes_range(data, pos + 4, pos + 4 + l);
        let score_bits = read_u32(data, pos + 4 + l);
        let ghost entry = (token@, score_bits);
        proof {
            crate::vocabulary::lemma_fixed_score_bounds(score_bits);
        }
        match handler.vocabulary_token(i, token, score_bits) {
            Ok(_) => {},
            Err(e) => {
                proof {
                    assert(false);
                }
                return Err(e);
            },
        }
        proof {
            let next = spec_parse_vocab(data@, pos + 8 + l, (n_vocab - i - 1) as nat);
            if next is Ok {
                assert(entries + (seq![entry] + next->Ok_0.0) =~= entries.push(entry)
                    + next->Ok_0.0);
            }
            entries = entries.push(entry);
        }
        pos = pos + 8 + l;
        i = i + 1;
    }
    proof {
        assert(entries + Seq::<(Seq<u8>, u32)>::empty() =~= entries);
    }
    Ok(pos)
}

/// Walks the tensor index at `pos0`, reporting each record to the handler.
#[verifier::loop_isolation(false)]
fn load_tensor_index(
    data: &Vec<u8>,
    handler: &mut crate::loader::Loader,
    pos0: usize,
    aligned: bool,
) -> (r: Result<(), FormatError>)
    requires
        pos0 <= data.len(),
        old(handler).tensors@.len() == 0,
    ensures
        match spec_parse_tensors(data@, pos0 as int, aligned) {
            Ok(ts) => {
                &&& r is Ok
                &&& final(handler).tensors@.len() == ts.len()
                &&& forall|j: int|
                    0 <= j < ts.len() ==> #[trigger] tensor_info_matches(
                        final(handler).tensors@[j],
                        ts[j],
                    )
                &&& forall|j: int| 0 <= j < ts.len() ==> #[trigger] final(handler).tensors@[j].wf()
                &&& final(handler).container_type == old(handler).container_type
                &&& final(handler).hyperparameters == old(handler).hyperparameters
                &&& final(handler).vocabulary == old(handler).vocabulary
                &&& final(handler).tensor_index_start == old(handler).tensor_index_start
                &&& final(handler).events == old(handler).events
            },
            Err(e) => r == Err::<(), FormatError>(e),
        },
{
    let ghost mut tensors_seq: Seq<SpecTensorInfo> = Seq::empty();
    proof {
        let r0 = spec_parse_tensors(data@, pos0 as int, aligned);
        if r0 is Ok {
            assert(Seq::<SpecTensorInfo>::empty() + r0->Ok_0 =~= r0->Ok_0);
        }
    }
    let mut pos: usize = pos0;
    while pos < data.len()
        invariant
            pos <= data.len(),
            handler.container_type == old(handler).container_type,
            handler.hyperparameters == old(handler).hyperparameters,
            handler.vocabulary == old(handler).vocabulary,
            handler.tensor_index_start == old(handler).tensor_index_start,
            handler.events == old(handler).events,
            handler.tensors@.len() == tensors_seq.len(),
            forall|j: int|
                0 <= j < tensors_seq.len() ==> #[trigger] tensor_info_matches(
                    handler.tensors@[j],
                    tensors_seq[j],
                ),
            forall|j: int| 0 <= j < tensors_seq.len() ==> #[trigger] handler.tensors@[j].wf(),
            spec_parse_tensors(data@, pos0 as int, aligned) == (match spec_parse_tensors(
                data@,
                pos as int,
                aligned,
            ) {
                Ok(rest) => Ok::<Seq<SpecTensorInfo>, FormatError>(tensors_seq + rest),
                Err(e) => Err(e),
            }),
        decreases data.len() - pos,
    {
        let (info, next) = match parse_tensor_record(data, pos, aligned) {
            Ok(x) => x,
            Err(e) => {
                return Err(e);
            },
        };
        let ghost srec = spec_parse_tensor_record(data@, pos as int, aligned)->Ok_0.0;
        proof {
            lemma_tensor_record_advances(data@, pos as int, aligned);
        }
        match handler.tensor_buffer(info) {
            Ok(_) => {},
            Err(e) => {
                proof {
                    assert(false);
                }
                return Err(e);
            },
        }
        proof {
            let rest_r = spec_parse_tensors(data@, next as int, aligned);
            if rest_r is Ok {
                assert(tensors_seq + (seq![srec] + rest_r->Ok_0) =~= tensors_seq.push(srec)
                    + rest_r->Ok_0);
            }
            tensors_seq = tensors_seq.push(srec);
        }
        pos = next;
    }
    proof {
        assert(tensors_seq + Seq::<SpecTensorInfo>::empty() =~= tensors_seq);
    }
    Ok(())
}

/// Drives one streaming pass over a container held in `data`, reporting each
/// discovery to the handler: the container variant, the hyperparameters, each
/// vocabulary entry, and each tensor record.  Tensor payloads are never read;
/// their offsets are recorded and skipped.
pub fn load(data: &Vec<u8>, handler: &mut crate::loader::Loader) -> (r: Result<(), FormatError>)
    requires
        old(handler).vocabulary.wf(),
        old(handler).vocabulary.id_to_token@.len() == 0,
        old(handler).tensors@.len() == 0,
    ensures
        match spec_parse_container(data@) {
            Ok(sc) => r is Ok && loader_matches(*final(handler), sc) && final(handler).events@
                == old(handler).events@.push(crate::loader::LoadProgress::HyperparametersLoaded),
            Err(e) => r == Err::<(), FormatError>(e),
        },
{
    if data.len() < 4 {
        return Err(FormatError::UnexpectedEof(0));
    }
    let magic = read_u32(data, 0);
    let ct: ContainerType;
    let pos0: usize;
    if magic == MAGIC_UNVERSIONED {
        ct = ContainerType::Ggml;
        pos0 = 4;
    } else if magic == MAGIC_VERSIONED || magic == MAGIC_ALIGNED {
        let c = if magic == MAGIC_VERSIONED {
            ContainerType::Ggmf
        } else {
            ContainerType::Ggjt
        };
        if data.len() < 8 {
            return Err(FormatError::UnexpectedEof(4));
        }
        let version = read_u32(data, 4);
        if version != FORMAT_VERSION {
            return Err(FormatError::InvalidFormatVersion(c, version));
        }
        ct = c;
        pos0 = 8;
    } else {
        return Err(FormatError::InvalidMagic(magic));
    }
    handler.container_type(ct);
    let partial = match handler.read_hyperparameters(data, pos0) {
        Ok(p) => p,
        Err(e) => {
            return Err(e);
        },
    };
    let vocab_end = match load_vocabulary(data, handler, pos0 + 24, partial.n_vocab) {
        Ok(p) => p,
        Err(e) => {
            return Err(e);
        },
    };
    handler.tensor_index_start = vocab_end;
    let aligned = matches!(ct, ContainerType::Ggjt);
    match load_tensor_index(data, handler, vocab_end, aligned) {
        Ok(_) => {},
        Err(e) => {
            return Err(e);
        },
    }
    Ok(())
}


/// Every record of a parsed tensor index lies inside the file.
pub proof fn lemma_parse_tensors_in_file(data: Seq<u8>, pos: int, aligned: bool)
    requires
        0 <= pos,
        spec_parse_tensors(data, pos, aligned) is Ok,
    ensures
        ({
            let ts = spec_parse_tensors(data, pos, aligned)->Ok_0;
            forall|i: int|
                0 <= i < ts.len() ==> 0 <= #[trigger] ts[i].start_offset && ts[i].start_offset
                    + spec_payload_size(ts[i].dims, ts[i].element_type) <= data.len()
        }),
    decreases data.len() - pos,
{
    if pos < data.len() {
        let r = spec_parse_tensor_record(data, pos, aligned);
        let rec = r->Ok_0.0;
        let next = r->Ok_0.1;
        lemma_tensor_record_advances(data, pos, aligned);
        assert(rec.start_offset >= 0 && rec.start_offset + spec_payload_size(
            rec.dims,
            rec.element_type,
        ) <= data.len()) by {
            let header_end = pos + 12 + 4 * crate::bytes::le32(data.subrange(pos, pos + 4))
                + crate::bytes::le32(data.subrange(pos + 4, pos + 8));
            if aligned {
                vstd::arithmetic::div_mod::lemma_fundamental_div_mod(header_end + 31, 32);
                vstd::arithmetic::div_mod::lemma_mod_bound(header_end + 31, 32);
            }
        }
        lemma_parse_tensors_in_file(data, next, aligned);
        let ts = spec_parse_tensors(data, pos, aligned)->Ok_0;
        let rest = spec_parse_tensors(data, next, aligned)->Ok_0;
        assert forall|i: int|
            0 <= i < ts.len() implies 0 <= #[trigger] ts[i].start_offset && ts[i].start_offset
            + spec_payload_size(ts[i].dims, ts[i].element_type) <= data.len() by {
            if i == 0 {
                assert(ts[0] == rec);
            } else {
                assert(ts[i] == rest[i - 1]);
            }
        }
    }
}


/// Parsing vocabulary entries never moves the position backwards, nor past
/// the end of the file.
pub proof fn lemma_parse_vocab_advances(data: Seq<u8>, pos: int, count: nat)
    requires
        spec_parse_vocab(data, pos, count) is Ok,
    ensures
        pos <= spec_parse_vocab(data, pos, count)->Ok_0.1,
        pos <= data.len() ==> spec_parse_vocab(data, pos, count)->Ok_0.1 <= data.len(),
    decreases count,
{
    if count > 0 {
        let len = crate::bytes::le32(data.subrange(pos, pos + 4));
        lemma_parse_vocab_advances(data, pos + 8 + len, (count - 1) as nat);
    }
}


/// Loader determinism: the whole parse is a function of the file's bytes, so
/// loading the same file twice discovers the same container variant,
/// hyperparameters, vocabulary and tensor index, in the same order.
pub proof fn lemma_load_deterministic(d1: Seq<u8>, d2: Seq<u8>)
    requires
        d1 == d2,
    ensures
        spec_parse_container(d1) == spec_parse_container(d2),
{
}


/// The vocabulary parser reads only the bytes it consumes: any carrier that
/// holds the same bytes over the consumed range, and extends at least as
/// far, parses to the same entries and the same end.
pub proof fn lemma_parse_vocab_frame(d1: Seq<u8>, d2: Seq<u8>, pos: int, count: nat)
    requires
        0 <= pos <= d1.len(),
        spec_parse_vocab(d1, pos, count) is Ok,
        spec_parse_vocab(d1, pos, count)->Ok_0.1 <= d2.len(),
        d2.subrange(pos, spec_parse_vocab(d1, pos, count)->Ok_0.1) == d1.subrange(
            pos,
            spec_parse_vocab(d1, pos, count)->Ok_0.1,
        ),
    ensures
        spec_parse_vocab(d2, pos, count) == spec_parse_vocab(d1, pos, count),
    decreases count,
{
    if count > 0 {
        let end = spec_parse_vocab(d1, pos, count)->Ok_0.1;
        let len = crate::bytes::le32(d1.subrange(pos, pos + 4));
        let next = pos + 8 + len;
        lemma_parse_vocab_advances(d1, next, (count - 1) as nat);
        assert(spec_parse_vocab(d1, next, (count - 1) as nat)->Ok_0.1 == end);
        assert forall|j: int| pos <= j < end implies d2[j] == d1[j] by {
            assert(d2.subrange(pos, end)[j - pos] == d1.subrange(pos, end)[j - pos]);
        }
        assert(d2.subrange(pos, pos + 4) =~= d1.subrange(pos, pos + 4));
        assert(d2.subrange(pos + 4, pos + 4 + len) =~= d1.subrange(pos + 4, pos + 4 + len));
        assert(d2.subrange(pos + 4 + len, pos + 8 + len) =~= d1.subrange(
            pos + 4 + len,
            pos + 8 + len,
        ));
        assert(d2.subrange(next, end) =~= d1.subrange(next, end));
        lemma_parse_vocab_frame(d1, d2, next, (count - 1) as nat);
    }
}


/// Structural facts of every record a successful parse yields: shape within
/// bounds, leading dimension on its block grid, and a valid UTF-8 name
/// shorter than its 32-bit length field allows.
pub proof fn lemma_parse_tensors_records_wf(data: Seq<u8>, pos: int, aligned: bool)
    requires
        0 <= pos,
        spec_parse_tensors(data, pos, aligned) is Ok,
    ensures
        ({
            let ts = spec_parse_tensors(data, pos, aligned)->Ok_0;
            forall|i: int|
                0 <= i < ts.len() ==> {
                    let t = #[trigger] ts[i];
                    &&& 1 <= t.dims.len() <= 3
                    &&& forall|j: int| 0 <= j < t.dims.len() ==> 0 <= #[trigger] t.dims[j] < 0x1_0000_0000
                    &&& t.dims[0] % spec_block_size(t.element_type) == 0
                    &&& vstd::utf8::valid_utf8(t.name)
                    &&& t.name.len() < 0x1_0000_0000
                }
        }),
    decreases data.len() - pos,
{
    if pos < data.len() {
        let r = spec_parse_tensor_record(data, pos, aligned);
        let rec = r->Ok_0.0;
        let next = r->Ok_0.1;
        lemma_tensor_record_advances(data, pos, aligned);
        lemma_parse_tensors_records_wf(data, next, aligned);
        let ts = spec_parse_tensors(data, pos, aligned)->Ok_0;
        let rest = spec_parse_tensors(data, next, aligned)->Ok_0;
        assert(1 <= rec.dims.len() <= 3 && rec.dims[0] % spec_block_size(rec.element_type) == 0
            && vstd::utf8::valid_utf8(rec.name) && rec.name.len() < 0x1_0000_0000);
        assert(forall|j: int| 0 <= j < rec.dims.len() ==> 0 <= #[trigger] rec.dims[j] < 0x1_0000_0000);
        assert forall|i: int| 0 <= i < ts.len() implies {
            let t = #[trigger] ts[i];
            &&& 1 <= t.dims.len() <= 3
            &&& forall|j: int| 0 <= j < t.dims.len() ==> 0 <= #[trigger] t.dims[j] < 0x1_0000_0000
            &&& t.dims[0] % spec_block_size(t.element_type) == 0
            &&& vstd::utf8::valid_utf8(t.name)
            &&& t.name.len() < 0x1_0000_0000
        } by {
            if i == 0 {
                assert(ts[0] == rec);
            } else {
                assert(ts[i] == rest[i - 1]);
            }
        }
    }
}

} // verus!
