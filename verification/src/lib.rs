//! Runtime for decoder-only transformer language models stored in a compact
//! quantized binary container.
//!
//! The crate covers the container codec (magic, versions, vocabulary, tensor
//! index), the model loader, the vocabulary and its scored tokenizer, the
//! inference session with its key/value cache bookkeeping, session snapshots,
//! and the streaming quantizer.  The tensor kernels themselves (matrix
//! multiplication, softmax, quantized block codecs) are external
//! collaborators: this crate plans and validates every call into them, and
//! accounts for their results, but does not recompute them.

pub mod bloom;
pub mod bytes;
pub mod container;
pub mod filetype;
pub mod hyperparameters;
pub mod loader;
pub mod prompt;
pub mod quantize;
pub mod session;
pub mod snapshot;
pub mod vocabulary;

use vstd::prelude::*;

verus! {

/// Identifier of a vocabulary entry; ids are dense in `[0, n_vocab)`.
pub type TokenId = i32;

} // verus!
