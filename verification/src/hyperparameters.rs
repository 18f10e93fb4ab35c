//! The fixed-size hyperparameter record at the head of a model container.
//!
//! The record is six little-endian 32-bit fields in a fixed order: vocabulary
//! size, embedding width, feed-forward multiple, head count, layer count, and
//! the tensor-encoding profile code.  Field order matters: the bytes are laid
//! out in the file exactly in this order.

use crate::bytes::{as_signed32, le32, lemma_le32_round_trip, read_u32, to_signed32, u32_le_bytes, write_u32};
use crate::container::FormatError;
use crate::filetype::{file_type_code, file_type_of_code, FileType};
use vstd::prelude::*;

verus! {

/// The model shape constants read from the container.
#[derive(Debug, Clone, Copy, PartialEq, Eq, Structural)]
pub struct Hyperparameters {
    /// Size of the model's vocabulary.
    pub n_vocab: usize,
    /// Size of the model's embedding layer.
    pub n_embd: usize,
    /// Feed-forward length multiple.
    pub n_mult: usize,
    /// Number of attention heads.
    pub n_head: usize,
    /// Number of layers in the model.
    pub n_layer: usize,
    /// Tensor-encoding profile of the container.
    pub file_type: FileType,
}

impl Default for Hyperparameters {
    /// All counts zero, with the default tensor-encoding profile.
    fn default() -> (r: Hyperparameters)
        ensures
            r == (Hyperparameters {
                n_vocab: 0,
                n_embd: 0,
                n_mult: 0,
                n_head: 0,
                n_layer: 0,
                file_type: FileType::MostlyF16,
            }),
    {
        Hyperparameters {
            n_vocab: 0,
            n_embd: 0,
            n_mult: 0,
            n_head: 0,
            n_layer: 0,
            file_type: FileType::MostlyF16,
        }
    }
}

/// Each count is stored as a signed 32-bit field, so a writable record keeps
/// every count within that range.
pub open spec fn hyperparameters_wf(hp: Hyperparameters) -> bool {
    &&& hp.n_vocab <= i32::MAX
    &&& hp.n_embd <= i32::MAX
    &&& hp.n_mult <= i32::MAX
    &&& hp.n_head <= i32::MAX
    &&& hp.n_layer <= i32::MAX
}

/// The 24 bytes of a hyperparameter record.
pub open spec fn spec_hyperparameters_bytes(hp: Hyperparameters) -> Seq<u8> {
    u32_le_bytes(hp.n_vocab as u32) + u32_le_bytes(hp.n_embd as u32) + u32_le_bytes(
        hp.n_mult as u32,
    ) + u32_le_bytes(hp.n_head as u32) + u32_le_bytes(hp.n_layer as u32) + u32_le_bytes(
        file_type_code(hp.file_type) as u32,
    )
}

/// Reading the record at `pos`: each count field must be non-negative as a
/// signed 32-bit value, and the profile code must name a known profile.
/// Fields are checked in file order, so the first offending field decides the
/// error.
pub open spec fn spec_read_hyperparameters(data: Seq<u8>, pos: int) -> Result<
    Hyperparameters,
    FormatError,
> {
    if pos + 24 > data.len() {
        Err(FormatError::UnexpectedEof(pos as usize))
    } else {
        let v0 = le32(data.subrange(pos, pos + 4));
        let v1 = le32(data.subrange(pos + 4, pos + 8));
        let v2 = le32(data.subrange(pos + 8, pos + 12));
        let v3 = le32(data.subrange(pos + 12, pos + 16));
        let v4 = le32(data.subrange(pos + 16, pos + 20));
        let v5 = le32(data.subrange(pos + 20, pos + 24));
        if v0 > i32::MAX {
            Err(FormatError::InvalidIntegerConversion)
        } else if v1 > i32::MAX {
            Err(FormatError::InvalidIntegerConversion)
        } else if v2 > i32::MAX {
            Err(FormatError::InvalidIntegerConversion)
        } else if v3 > i32::MAX {
            Err(FormatError::InvalidIntegerConversion)
        } else if v4 > i32::MAX {
            Err(FormatError::InvalidIntegerConversion)
        } else {
            match file_type_of_code(as_signed32(v5 as u32)) {
                Some(t) => Ok(
                    Hyperparameters {
                        n_vocab: v0 as usize,
                        n_embd: v1 as usize,
                        n_mult: v2 as usize,
                        n_head: v3 as usize,
                        n_layer: v4 as usize,
                        file_type: t,
                    },
                ),
                None => Err(FormatError::UnsupportedFileType(as_signed32(v5 as u32) as i32)),
            }
        }
    }
}

impl Hyperparameters {
    /// Reads the record at `pos`; field order matters, the data is laid out in
    /// the file exactly in declaration order.
    pub fn read(data: &Vec<u8>, pos: usize) -> (r: Result<Hyperparameters, FormatError>)
        requires
            pos <= data.len(),
        ensures
            r == spec_read_hyperparameters(data@, pos as int),
    {
        if data.len() - pos < 24 {
            return Err(FormatError::UnexpectedEof(pos));
        }
        let v0 = read_u32(data, pos);
        let v1 = read_u32(data, pos + 4);
        let v2 = read_u32(data, pos + 8);
        let v3 = read_u32(data, pos + 12);
        let v4 = read_u32(data, pos + 16);
        let v5 = read_u32(data, pos + 20);
        if v0 > i32::MAX as u32 || v1 > i32::MAX as u32 || v2 > i32::MAX as u32 || v3 > i32::MAX
            as u32 || v4 > i32::MAX as u32 {
            if v0 > i32::MAX as u32 {
                return Err(FormatError::InvalidIntegerConversion);
            }
            if v1 > i32::MAX as u32 {
                return Err(FormatError::InvalidIntegerConversion);
            }
            if v2 > i32::MAX as u32 {
                return Err(FormatError::InvalidIntegerConversion);
            }
            if v3 > i32::MAX as u32 {
                return Err(FormatError::InvalidIntegerConversion);
            }
            return Err(FormatError::InvalidIntegerConversion);
        }
        let ft_code = to_signed32(v5);
        match FileType::try_from(ft_code) {
            Ok(t) => Ok(
                Hyperparameters {
                    n_vocab: v0 as usize,
                    n_embd: v1 as usize,
                    n_mult: v2 as usize,
                    n_head: v3 as usize,
                    n_layer: v4 as usize,
                    file_type: t,
                },
            ),
            Err(_) => Err(FormatError::UnsupportedFileType(ft_code)),
        }
    }

    /// Appends the 24 bytes of the record, fields in declaration order.
    pub fn write(&self, out: &mut Vec<u8>)
        requires
            hyperparameters_wf(*self),
        ensures
            final(out)@ == old(out)@ + spec_hyperparameters_bytes(*self),
    {
        write_u32(out, self.n_vocab as u32);
        write_u32(out, self.n_embd as u32);
        write_u32(out, self.n_mult as u32);
        write_u32(out, self.n_head as u32);
        write_u32(out, self.n_layer as u32);
        let code: i32 = (*self).file_type.into();
        write_u32(out, code as u32);
        proof {
            assert(final(out)@ =~= old(out)@ + spec_hyperparameters_bytes(*self));
        }
    }

    /// The vocabulary size the record declares.
    pub fn n_vocabulary(&self) -> (r: usize)
        ensures
            r == self.n_vocab,
    {
        self.n_vocab
    }
}

/// Reading a written record, at any position of any carrier, yields the
/// record itself.
pub proof fn lemma_hyperparameters_round_trip(hp: Hyperparameters, data: Seq<u8>, pos: int)
    requires
        hyperparameters_wf(hp),
        0 <= pos,
        pos + 24 <= data.len(),
        data.subrange(pos, pos + 24) == spec_hyperparameters_bytes(hp),
    ensures
        spec_read_hyperparameters(data, pos) == Ok::<Hyperparameters, FormatError>(hp),
{
    let b = spec_hyperparameters_bytes(hp);
    assert(data.subrange(pos, pos + 4) =~= b.subrange(0, 4));
    assert(data.subrange(pos + 4, pos + 8) =~= b.subrange(4, 8));
    assert(data.subrange(pos + 8, pos + 12) =~= b.subrange(8, 12));
    assert(data.subrange(pos + 12, pos + 16) =~= b.subrange(12, 16));
    assert(data.subrange(pos + 16, pos + 20) =~= b.subrange(16, 20));
    assert(data.subrange(pos + 20, pos + 24) =~= b.subrange(20, 24));
    assert(b.subrange(0, 4) =~= u32_le_bytes(hp.n_vocab as u32));
    assert(b.subrange(4, 8) =~= u32_le_bytes(hp.n_embd as u32));
    assert(b.subrange(8, 12) =~= u32_le_bytes(hp.n_mult as u32));
    assert(b.subrange(12, 16) =~= u32_le_bytes(hp.n_head as u32));
    assert(b.subrange(16, 20) =~= u32_le_bytes(hp.n_layer as u32));
    assert(b.subrange(20, 24) =~= u32_le_bytes(file_type_code(hp.file_type) as u32));
    lemma_le32_round_trip(hp.n_vocab as u32);
    lemma_le32_round_trip(hp.n_embd as u32);
    lemma_le32_round_trip(hp.n_mult as u32);
    lemma_le32_round_trip(hp.n_head as u32);
    lemma_le32_round_trip(hp.n_layer as u32);
    lemma_le32_round_trip(file_type_code(hp.file_type) as u32);
}

} // verus!
