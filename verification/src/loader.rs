//! Loading a model: progress events, load errors, and the codec handler that
//! accumulates what one pass over the container discovers.
//!
//! The codec drives a `Loader` once per file.  The `Loader` records the
//! container variant, the hyperparameters, the vocabulary and the tensor
//! index; the model builder then binds tensors from that index.

use crate::container::{BrokenInvariant, ContainerType, FormatError, TensorLoadInfo};
use crate::hyperparameters::{spec_read_hyperparameters, Hyperparameters};
use crate::vocabulary::{fixed_from_f32_bits, score_from_f32_bits, Vocabulary};
use crate::session::{InferenceParameters, InferenceWithPromptParameters};
use vstd::prelude::*;
use vstd::string::StringSliceAdditionalSpecFns;

verus! {

/// Each variant represents a step within the process of loading the model;
/// they report progress to the caller.
#[derive(Clone, PartialEq, Eq, Debug, Structural)]
pub enum LoadProgress {
    /// The hyperparameters have been loaded from the model.
    HyperparametersLoaded,
    /// The tensor arena has been sized.
    ContextSize {
        /// The size of the arena, in bytes.
        bytes: usize,
    },
    /// A tensor has been bound.
    TensorLoaded {
        /// The number of tensors bound so far.
        current_tensor: usize,
        /// The number of tensors the container declares.
        tensor_count: usize,
    },
    /// The model has finished fully loading.
    Loaded {
        /// The number of bytes in the file.
        file_size: u64,
        /// The number of tensors in the file.
        tensor_count: usize,
    },
}

/// Errors encountered during the loading process.
#[derive(Clone, PartialEq, Debug)]
pub enum LoadError {
    /// A file failed to open.
    OpenFileFailed {
        /// The path that failed.
        path: String,
    },
    /// There is no parent path for a given path.
    NoParentPath {
        /// The path without a parent.
        path: String,
    },
    /// The file ends before the structure it declares.
    ReadExactFailed {
        /// The byte offset of the structure that was cut short.
        offset: usize,
    },
    /// A non-specific I/O failure.
    Io,
    /// One of the strings encountered was not valid UTF-8.
    InvalidUtf8,
    /// One of the integers encountered could not be converted to a more
    /// appropriate type.
    InvalidIntegerConversion,
    /// The tensor-encoding profile code in the hyperparameters is unsupported.
    UnsupportedFileType(i32),
    /// An invalid magic number was encountered during the loading process.
    InvalidMagic {
        /// The path that failed.
        path: String,
        /// The magic number that was encountered.
        magic: u32,
    },
    /// The version of the format is not supported.
    InvalidFormatVersion {
        /// The container variant that was encountered.
        container_type: ContainerType,
        /// The version that was encountered.
        version: u32,
    },
    /// The tensor-encoding profile field of the hyperparameters had an
    /// invalid value.
    HyperparametersF16Invalid {
        /// The profile code that was encountered.
        ftype: i32,
    },
    /// A tensor required by the model builder is absent from the file.
    UnknownTensor {
        /// The name of the tensor.
        tensor_name: String,
        /// The path that failed.
        path: String,
    },
    /// A tensor did not match its expected size.
    TensorWrongSize {
        /// The name of the tensor.
        tensor_name: String,
        /// The path that failed.
        path: String,
    },
    /// A tensor record names an element-encoding code that does not exist.
    UnsupportedElementType {
        /// The encoding code that was encountered.
        ftype: u32,
        /// The path that failed.
        path: String,
    },
    /// An invariant of the container structure was broken.
    InvariantBroken {
        /// The path that failed, when one is known.
        path: Option<String>,
        /// The condition that was broken.
        broken: BrokenInvariant,
    },
    /// The model could not be created.
    ModelNotCreated {
        /// The path that failed.
        path: String,
    },
    /// Multiple parts of the model were found; multi-part models are not
    /// supported.
    MultipartNotSupported {
        /// The paths that were found.
        paths: Vec<String>,
    },
}

/// The load error a codec error surfaces as, for a given path.
pub open spec fn spec_load_error_of(value: FormatError, path: String) -> LoadError {
    match value {
        FormatError::InvalidMagic(magic) => LoadError::InvalidMagic { path, magic },
        FormatError::InvalidFormatVersion(container_type, version) => {
            LoadError::InvalidFormatVersion { container_type, version }
        },
        FormatError::UnexpectedEof(offset) => LoadError::ReadExactFailed { offset },
        FormatError::InvalidUtf8 => LoadError::InvalidUtf8,
        FormatError::InvalidIntegerConversion => LoadError::InvalidIntegerConversion,
        FormatError::UnsupportedFileType(code) => LoadError::UnsupportedFileType(code),
        FormatError::UnsupportedElementType(ftype) => LoadError::UnsupportedElementType {
            ftype,
            path,
        },
        FormatError::InvariantBroken(broken) => LoadError::InvariantBroken {
            path: Some(path),
            broken,
        },
    }
}

impl LoadError {
    /// Surfaces a codec error as a load error for the given path.
    pub fn from_format_error(value: FormatError, path: String) -> (r: LoadError)
        ensures
            r == spec_load_error_of(value, path),
    {
        match value {
            FormatError::InvalidMagic(magic) => LoadError::InvalidMagic { path, magic },
            FormatError::InvalidFormatVersion(container_type, version) => {
                LoadError::InvalidFormatVersion { container_type, version }
            },
            FormatError::UnexpectedEof(offset) => LoadError::ReadExactFailed { offset },
            FormatError::InvalidUtf8 => LoadError::InvalidUtf8,
            FormatError::InvalidIntegerConversion => LoadError::InvalidIntegerConversion,
            FormatError::UnsupportedFileType(code) => LoadError::UnsupportedFileType(code),
            FormatError::UnsupportedElementType(ftype) => LoadError::UnsupportedElementType {
                ftype,
                path,
            },
            FormatError::InvariantBroken(broken) => LoadError::InvariantBroken {
                path: Some(path),
                broken,
            },
        }
    }
}

/// The vocabulary size announced by the hyperparameters, which the codec
/// needs before it can walk the vocabulary section.
#[derive(Clone, Copy, PartialEq, Eq, Debug, Structural)]
pub struct PartialHyperparameters {
    /// Number of vocabulary entries that follow the hyperparameters.
    pub n_vocab: usize,
}

/// A container-format loader: accumulates what the codec discovers in one
/// pass over the file.
pub struct Loader {
    /// The container variant of the model.
    pub container_type: ContainerType,
    /// The hyperparameters of the model.
    pub hyperparameters: Hyperparameters,
    /// The vocabulary of the model.
    pub vocabulary: Vocabulary,
    /// The tensor index of the model, in file order.
    pub tensors: Vec<TensorLoadInfo>,
    /// Absolute byte offset at which the tensor index starts (the end of the
    /// vocabulary section).
    pub tensor_index_start: usize,
    /// The progress events recorded so far.
    pub events: Vec<LoadProgress>,
}

impl Loader {
    /// Creates a fresh loader.
    pub fn new() -> (r: Loader)
        ensures
            r.container_type == ContainerType::Ggjt,
            r.hyperparameters == (Hyperparameters {
                n_vocab: 0,
                n_embd: 0,
                n_mult: 0,
                n_head: 0,
                n_layer: 0,
                file_type: crate::filetype::FileType::MostlyF16,
            }),
            r.vocabulary.wf(),
            r.vocabulary.id_to_token@.len() == 0,
            r.tensors@.len() == 0,
            r.tensor_index_start == 0,
            r.events@.len() == 0,
    {
        Loader {
            container_type: ContainerType::Ggjt,
            hyperparameters: Hyperparameters::default(),
            vocabulary: Vocabulary::new(),
            tensors: Vec::new(),
            tensor_index_start: 0,
            events: Vec::new(),
        }
    }

    /// Records the container variant the codec identified.
    pub fn container_type(&mut self, t: ContainerType)
        ensures
            *final(self) == (Loader { container_type: t, ..*old(self) }),
    {
        self.container_type = t;
    }

    /// Reads the hyperparameter record at `pos` and records it.  Field order
    /// matters: the data is laid out in the file exactly in field order.
    pub fn read_hyperparameters(&mut self, data: &Vec<u8>, pos: usize) -> (r: Result<
        PartialHyperparameters,
        FormatError,
    >)
        requires
            pos <= data.len(),
        ensures
            match spec_read_hyperparameters(data@, pos as int) {
                Ok(hp) => {
                    &&& r == Ok::<PartialHyperparameters, FormatError>(
                        PartialHyperparameters { n_vocab: hp.n_vocab },
                    )
                    &&& final(self).hyperparameters == hp
                    &&& final(self).container_type == old(self).container_type
                    &&& final(self).vocabulary == old(self).vocabulary
                    &&& final(self).tensors == old(self).tensors
                    &&& final(self).tensor_index_start == old(self).tensor_index_start
                    &&& final(self).events@ == old(self).events@.push(
                        LoadProgress::HyperparametersLoaded,
                    )
                },
                Err(e) => r == Err::<PartialHyperparameters, FormatError>(e) && *final(self)
                    == *old(self),
            },
    {
        let hp = match Hyperparameters::read(data, pos) {
            Ok(hp) => hp,
            Err(e) => {
                return Err(e);
            },
        };
        let partial = PartialHyperparameters { n_vocab: hp.n_vocabulary() };
        self.hyperparameters = hp;
        self.events.push(LoadProgress::HyperparametersLoaded);
        Ok(partial)
    }

    /// Records vocabulary entry `i`, whose id must be the next dense token id;
    /// the 32-bit float score pattern is read into the fixed-point scale.
    pub fn vocabulary_token(&mut self, i: usize, token: Vec<u8>, score_bits: u32) -> (r: Result<
        (),
        FormatError,
    >)
        requires
            old(self).vocabulary.wf(),
            i == old(self).vocabulary.id_to_token@.len(),
        ensures
            i <= i32::MAX ==> {
                &&& r is Ok
                &&& final(self).vocabulary.wf()
                &&& final(self).vocabulary.id_to_token@ == old(
                    self,
                ).vocabulary.id_to_token@.push(token)
                &&& final(self).vocabulary.id_to_token_score@ == old(
                    self,
                ).vocabulary.id_to_token_score@.push(fixed_from_f32_bits(score_bits) as i64)
                &&& final(self).container_type == old(self).container_type
                &&& final(self).hyperparameters == old(self).hyperparameters
                &&& final(self).tensors == old(self).tensors
                &&& final(self).tensor_index_start == old(self).tensor_index_start
                &&& final(self).events == old(self).events
            },
            i > i32::MAX ==> r == Err::<(), FormatError>(FormatError::InvalidIntegerConversion)
                && *final(self) == *old(self),
    {
        if i > i32::MAX as usize {
            return Err(FormatError::InvalidIntegerConversion);
        }
        let id = i as i32;
        let score = score_from_f32_bits(score_bits);
        self.vocabulary.push_token(id, token, score);
        Ok(())
    }

    /// Records a tensor discovered by the codec.  A name that repeats an
    /// earlier record shadows it, as the later record is what binding finds.
    pub fn tensor_buffer(&mut self, info: TensorLoadInfo) -> (r: Result<(), FormatError>)
        ensures
            r is Ok,
            final(self).tensors@ == old(self).tensors@.push(info),
            final(self).container_type == old(self).container_type,
            final(self).hyperparameters == old(self).hyperparameters,
            final(self).vocabulary == old(self).vocabulary,
            final(self).tensor_index_start == old(self).tensor_index_start,
            final(self).events == old(self).events,
    {
        self.tensors.push(info);
        Ok(())
    }
}


/// Whether two string slices hold the same characters.
pub fn str_eq(a: &str, b: &str) -> (r: bool)
    ensures
        r == (a@ == b@),
{
    broadcast use vstd::utf8::encode_utf8_decode_utf8;

    let ab = a.as_bytes();
    let bb = b.as_bytes();
    if ab.len() != bb.len() {
        proof {
            assert(a@ != b@);
        }
        return false;
    }
    let n = ab.len();
    let mut i: usize = 0;
    while i < n
        invariant
            i <= n,
            n == ab@.len() == bb@.len(),
            ab@ == a.spec_bytes(),
            bb@ == b.spec_bytes(),
            forall|j: int| 0 <= j < i ==> #[trigger] ab@[j] == bb@[j],
        decreases n - i,
    {
        if ab[i] != bb[i] {
            proof {
                assert(a.spec_bytes() != b.spec_bytes());
            }
            return false;
        }
        i = i + 1;
    }
    proof {
        assert(a.spec_bytes() =~= b.spec_bytes());
        vstd::utf8::encode_utf8_decode_utf8(a@);
        vstd::utf8::encode_utf8_decode_utf8(b@);
        assert(vstd::utf8::encode_utf8(a@) == vstd::utf8::encode_utf8(b@));
    }
    true
}

/// Where a tensor's payload lives: its own buffer, or a region of the mapped
/// file.
pub enum TensorData {
    /// The tensor owns its payload.
    Owned(Vec<u8>),
    /// The payload is the given byte span of the mapped file; the mapping
    /// must outlive the tensor.
    Mapped {
        /// Absolute byte offset of the payload within the file.
        offset: usize,
        /// Payload length in bytes.
        len: usize,
    },
}

/// A bound tensor: shape, element encoding, and payload.
pub struct Tensor {
    /// Element encoding of the payload.
    pub element_type: crate::container::ElementType,
    /// Shape, between 1 and 3 dimensions, element 0 the fastest axis.
    pub dims: Vec<usize>,
    /// The payload, owned or mapped.
    pub data: TensorData,
}

/// The record binding finds for a name: the last one, since a repeated name
/// shadows earlier records.
pub open spec fn spec_find_tensor(ts: Seq<TensorLoadInfo>, name: Seq<char>) -> Option<
    TensorLoadInfo,
>
    decreases ts.len(),
{
    if ts.len() == 0 {
        None
    } else if ts.last().name@ == name {
        Some(ts.last())
    } else {
        spec_find_tensor(ts.drop_last(), name)
    }
}

/// Finds the index of the last record with the given name.
fn find_tensor(ts: &Vec<TensorLoadInfo>, name: &str) -> (r: Option<usize>)
    ensures
        match spec_find_tensor(ts@, name@) {
            None => r is None,
            Some(info) => r is Some && r->Some_0 < ts@.len() && ts@[r->Some_0 as int] == info,
        },
{
    let mut i: usize = ts.len();
    proof {
        assert(ts@.subrange(0, ts@.len() as int) =~= ts@);
    }
    while i > 0
        invariant
            i <= ts@.len(),
            spec_find_tensor(ts@, name@) == spec_find_tensor(ts@.subrange(0, i as int), name@),
        decreases i,
    {
        i = i - 1;
        proof {
            assert(ts@.subrange(0, i + 1).last() == ts@[i as int]);
            assert(ts@.subrange(0, i + 1).drop_last() =~= ts@.subrange(0, i as int));
        }
        if str_eq(ts[i].name.as_str(), name) {
            return Some(i);
        }
    }
    proof {
        assert(ts@.subrange(0, 0) =~= Seq::<TensorLoadInfo>::empty());
    }
    None
}

/// Parameters of a model load.
#[derive(Clone, Debug, PartialEq)]
pub struct ModelParameters {
    /// Whether to bind tensors straight to the mapped file when the
    /// container variant allows it.
    pub prefer_mmap: bool,
    /// Context window length for sessions of this model.
    pub n_context_tokens: usize,
    /// Generation parameters the model hands to new inference runs.
    pub inference_params: InferenceParameters,
    /// Prompt-loop parameters the model hands to new inference runs.
    pub inference_prompt_params: InferenceWithPromptParameters,
}

impl Default for ModelParameters {
    /// Memory mapping preferred, a 2048-token context window, and default
    /// generation parameters.
    fn default() -> (r: ModelParameters)
        ensures
            r.prefer_mmap == true,
            r.n_context_tokens == 2048,
    {
        ModelParameters {
            prefer_mmap: true,
            n_context_tokens: 2048,
            inference_params: Default::default(),
            inference_prompt_params: Default::default(),
        }
    }
}

/// The binder's tensor counter after `i` more bindings, saturating at the
/// address-space limit.
pub open spec fn spec_loaded_counter(n0: int, i: int) -> int {
    if n0 + i > usize::MAX {
        usize::MAX as int
    } else {
        n0 + i
    }
}

/// The progress events `k` successive bindings record, starting from counter
/// `n0`, against an index of `total` tensors.
pub open spec fn spec_bind_events(n0: int, total: int, k: nat) -> Seq<LoadProgress> {
    Seq::new(
        k,
        |i: int| LoadProgress::TensorLoaded {
            current_tensor: spec_loaded_counter(n0, i + 1) as usize,
            tensor_count: total as usize,
        },
    )
}

/// One more binding appends one more progress event.
pub proof fn lemma_bind_events_push(n0: int, total: int, k: nat)
    ensures
        spec_bind_events(n0, total, k + 1) == spec_bind_events(n0, total, k).push(
            LoadProgress::TensorLoaded {
                current_tensor: spec_loaded_counter(n0, k as int + 1) as usize,
                tensor_count: total as usize,
            },
        ),
{
    assert(spec_bind_events(n0, total, k + 1) =~= spec_bind_events(n0, total, k).push(
        LoadProgress::TensorLoaded {
            current_tensor: spec_loaded_counter(n0, k as int + 1) as usize,
            tensor_count: total as usize,
        },
    ));
}

/// Fetches tensors from the file for a model builder: binds each requested
/// name either to a fresh owned buffer read from the file, or to its span of
/// the mapped file.
pub struct TensorLoader<'a> {
    /// The whole model file.
    pub data: &'a Vec<u8>,
    /// The path the file was read from, for error reports.
    pub path: String,
    /// The tensor index discovered by the codec.
    pub tensors: Vec<TensorLoadInfo>,
    /// Whether tensors bind to the mapped file instead of owning buffers.
    pub use_mmap: bool,
    /// How many tensors have been bound so far.
    pub n_loaded: usize,
    /// Progress events recorded by binding.
    pub events: Vec<LoadProgress>,
}

/// Every record of the index lies inside the file.
pub open spec fn tensors_in_file(ts: Seq<TensorLoadInfo>, file_len: int) -> bool {
    forall|i: int|
        0 <= i < ts.len() ==> #[trigger] ts[i].wf() && ts[i].start_offset + ts[i].spec_calc_size()
            <= file_len
}

/// The tensor a binding yields for a record: the record's shape and
/// encoding, and its exact payload bytes (owned) or payload span (mapped).
pub open spec fn tensor_bound_to(t: Tensor, info: TensorLoadInfo, data: Seq<u8>, mmap: bool)
    -> bool {
    &&& t.element_type == info.element_type
    &&& t.dims@ == info.dims@
    &&& if mmap {
        (t.data matches TensorData::Mapped { offset, len } && offset == info.start_offset && len
            == info.spec_calc_size())
    } else {
        (t.data matches TensorData::Owned(buf) && buf@ == data.subrange(
            info.start_offset as int,
            info.start_offset + info.spec_calc_size(),
        ))
    }
}

impl<'a> TensorLoader<'a> {
    /// The record found for each name, and every record in bounds.
    pub open spec fn wf(&self) -> bool {
        tensors_in_file(self.tensors@, self.data@.len() as int)
    }

    /// Gets a tensor from the loader, with the shape recorded in the file.
    pub fn load(&mut self, name: &str) -> (r: Result<Tensor, LoadError>)
        requires
            old(self).wf(),
        ensures
            final(self).wf(),
            final(self).data == old(self).data,
            final(self).path == old(self).path,
            final(self).tensors == old(self).tensors,
            final(self).use_mmap == old(self).use_mmap,
            match spec_find_tensor(old(self).tensors@, name@) {
                None => r is Err && (r->Err_0 matches LoadError::UnknownTensor {
                    tensor_name,
                    path,
                } && tensor_name@ == name@ && path@ == old(self).path@) && *final(self) == *old(
                    self,
                ),
                Some(info) => {
                    &&& r is Ok
                    &&& tensor_bound_to(r->Ok_0, info, old(self).data@, old(self).use_mmap)
                    &&& final(self).n_loaded == spec_loaded_counter(old(self).n_loaded as int, 1)
                    &&& final(self).events@ == old(self).events@.push(
                        LoadProgress::TensorLoaded {
                            current_tensor: final(self).n_loaded,
                            tensor_count: old(self).tensors@.len() as usize,
                        },
                    )
                },
            },
    {
        let idx = match find_tensor(&self.tensors, name) {
            Some(i) => i,
            None => {
                return Err(
                    LoadError::UnknownTensor {
                        tensor_name: String::from_str(name),
                        path: String::from_str(self.path.as_str()),
                    },
                );
            },
        };
        proof {
            let ts = self.tensors@;
            assert(tensors_in_file(ts, self.data@.len() as int));
            assert(ts[idx as int].wf());
            assert(ts[idx as int].start_offset + ts[idx as int].spec_calc_size()
                <= self.data@.len());
        }
        let file_len = self.data.len();
        let info = &self.tensors[idx];
        let size = info.calc_size();
        let data = if self.use_mmap {
            TensorData::Mapped { offset: info.start_offset, len: size }
        } else {
            TensorData::Owned(
                crate::container::bytes_range(
                    self.data,
                    info.start_offset,
                    info.start_offset + size,
                ),
            )
        };
        let mut dims: Vec<usize> = Vec::new();
        let mut d: usize = 0;
        while d < self.tensors[idx].dims.len()
            invariant
                idx < self.tensors@.len(),
                d <= self.tensors@[idx as int].dims@.len(),
                dims@ == self.tensors@[idx as int].dims@.subrange(0, d as int),
            decreases self.tensors@[idx as int].dims@.len() - d,
        {
            dims.push(self.tensors[idx].dims[d]);
            d = d + 1;
            proof {
                assert(self.tensors@[idx as int].dims@.subrange(0, d as int)
                    =~= self.tensors@[idx as int].dims@.subrange(0, d - 1).push(
                    self.tensors@[idx as int].dims@[d - 1],
                ));
            }
        }
        proof {
            assert(self.tensors@[idx as int].dims@.subrange(
                0,
                self.tensors@[idx as int].dims@.len() as int,
            ) =~= self.tensors@[idx as int].dims@);
        }
        let t = Tensor { element_type: self.tensors[idx].element_type, dims, data };
        if self.n_loaded < usize::MAX {
            self.n_loaded = self.n_loaded + 1;
        }
        let total = self.tensors.len();
        self.events.push(
            LoadProgress::TensorLoaded { current_tensor: self.n_loaded, tensor_count: total },
        );
        Ok(t)
    }

    /// Gets a tensor from the loader, checking the caller's expected shape:
    /// a dimensionality that differs from the file's record is refused.
    pub fn load_manual(&mut self, name: &str, ne: &Vec<usize>) -> (r: Result<Tensor, LoadError>)
        requires
            old(self).wf(),
        ensures
            final(self).wf(),
            final(self).tensors == old(self).tensors,
            match spec_find_tensor(old(self).tensors@, name@) {
                None => r is Err && (r->Err_0 matches LoadError::UnknownTensor {
                    tensor_name,
                    path,
                } && tensor_name@ == name@ && path@ == old(self).path@) && *final(self) == *old(
                    self,
                ),
                Some(info) => {
                    &&& ne@.len() != info.dims@.len() ==> r is Err && (
                    r->Err_0 matches LoadError::InvariantBroken { .. }) && *final(self) == *old(
                        self,
                    )
                    &&& ne@.len() == info.dims@.len() ==> r is Ok && tensor_bound_to(
                        r->Ok_0,
                        info,
                        old(self).data@,
                        old(self).use_mmap,
                    ) && final(self).n_loaded == spec_loaded_counter(old(self).n_loaded as int, 1)
                        && final(self).events@ == old(self).events@.push(
                        LoadProgress::TensorLoaded {
                            current_tensor: final(self).n_loaded,
                            tensor_count: old(self).tensors@.len() as usize,
                        },
                    )
                },
            },
    {
        let idx = match find_tensor(&self.tensors, name) {
            Some(i) => i,
            None => {
                return Err(
                    LoadError::UnknownTensor {
                        tensor_name: String::from_str(name),
                        path: String::from_str(self.path.as_str()),
                    },
                );
            },
        };
        if ne.len() != self.tensors[idx].dims.len() {
            return Err(
                LoadError::InvariantBroken {
                    path: Some(String::from_str(self.path.as_str())),
                    broken: crate::container::BrokenInvariant::DimCount(ne.len() as u32),
                },
            );
        }
        self.load(name)
    }

    /// Finish loading the model, and extract the recorded progress events.
    pub fn finish(self) -> (events: Vec<LoadProgress>)
        ensures
            events == self.events,
    {
        self.events
    }
}


/// Bytes the tensor arena reserves for one tensor object's header.
pub const TENSOR_TYPE_SIZE: usize = 224;

/// Bytes the tensor arena reserves for one allocation record.
pub const OBJECT_SIZE: usize = 32;

/// The arena size a load reserves: per tensor of the parsed index, the
/// object headers plus the payload — unless the payload stays in the mapped
/// file.  The sum saturates at the address-space limit.
pub open spec fn spec_arena_size(ts: Seq<crate::container::SpecTensorInfo>, mmap: bool) -> int
    decreases ts.len(),
{
    if ts.len() == 0 {
        0
    } else {
        let prev = spec_arena_size(ts.drop_last(), mmap);
        let term = TENSOR_TYPE_SIZE + OBJECT_SIZE + if mmap {
            0
        } else {
            crate::container::spec_payload_size(ts.last().dims, ts.last().element_type)
        };
        if prev + term > usize::MAX {
            usize::MAX as int
        } else {
            prev + term
        }
    }
}


/// Whether the parsed index holds a record whose raw name bytes spell the
/// given name.
pub open spec fn spec_has_name(
    ts: Seq<crate::container::SpecTensorInfo>,
    name: Seq<char>,
) -> bool {
    exists|i: int| 0 <= i < ts.len() && ts[i].name == vstd::utf8::encode_utf8(name)
}

/// The binder finds a record for a name exactly when some record carries it.
pub proof fn lemma_find_iff_exists(hts: Seq<TensorLoadInfo>, name: Seq<char>)
    ensures
        spec_find_tensor(hts, name) is Some <==> exists|i: int|
            0 <= i < hts.len() && #[trigger] hts[i].name@ == name,
    decreases hts.len(),
{
    if hts.len() > 0 {
        lemma_find_iff_exists(hts.drop_last(), name);
        if hts.last().name@ == name {
            assert(hts[hts.len() - 1].name@ == name);
        } else {
            if exists|i: int| 0 <= i < hts.len() && #[trigger] hts[i].name@ == name {
                let i = choose|i: int| 0 <= i < hts.len() && #[trigger] hts[i].name@ == name;
                if i < hts.len() - 1 {
                    assert(hts.drop_last()[i].name@ == name);
                }
            }
        }
    }
}

/// The binder finds a record for a name exactly when the parsed index holds
/// one whose raw bytes spell it.
pub proof fn lemma_find_matches_parse(
    hts: Seq<TensorLoadInfo>,
    sts: Seq<crate::container::SpecTensorInfo>,
    name: Seq<char>,
)
    requires
        hts.len() == sts.len(),
        forall|i: int|
            0 <= i < hts.len() ==> crate::container::tensor_info_matches(
                #[trigger] hts[i],
                sts[i],
            ),
    ensures
        spec_find_tensor(hts, name) is Some <==> spec_has_name(sts, name),
{
    lemma_find_iff_exists(hts, name);
    if exists|i: int| 0 <= i < hts.len() && #[trigger] hts[i].name@ == name {
        let i = choose|i: int| 0 <= i < hts.len() && #[trigger] hts[i].name@ == name;
        assert(sts[i].name == vstd::utf8::encode_utf8(name));
    }
    if spec_has_name(sts, name) {
        let i = choose|i: int|
            0 <= i < sts.len() && #[trigger] sts[i].name == vstd::utf8::encode_utf8(name);
        vstd::utf8::encode_utf8_decode_utf8(hts[i].name@);
        vstd::utf8::encode_utf8_decode_utf8(name);
        assert(hts[i].name@ == name);
    }
}


/// The record the binder finds in the parsed index for a name: the last one
/// whose raw bytes spell it.
pub open spec fn spec_find_parsed(
    ts: Seq<crate::container::SpecTensorInfo>,
    name: Seq<char>,
) -> Option<crate::container::SpecTensorInfo>
    decreases ts.len(),
{
    if ts.len() == 0 {
        None
    } else if ts.last().name == vstd::utf8::encode_utf8(name) {
        Some(ts.last())
    } else {
        spec_find_parsed(ts.drop_last(), name)
    }
}

/// The tensor a binding yields for a parsed record: the record's shape and
/// encoding, and its exact payload bytes (owned) or payload span (mapped).
pub open spec fn tensor_bound_to_parsed(
    t: Tensor,
    s: crate::container::SpecTensorInfo,
    data: Seq<u8>,
    mmap: bool,
) -> bool {
    &&& t.element_type == s.element_type
    &&& t.dims@.map_values(|d: usize| d as int) == s.dims
    &&& if mmap {
        (t.data matches TensorData::Mapped { offset, len } && offset == s.start_offset && len
            == crate::container::spec_payload_size(s.dims, s.element_type))
    } else {
        (t.data matches TensorData::Owned(buf) && buf@ == data.subrange(
            s.start_offset,
            s.start_offset + crate::container::spec_payload_size(s.dims, s.element_type),
        ))
    }
}

/// The binder's lookup agrees with the parsed index: it finds a record for a
/// name exactly when the parsed index holds one, and then the two records
/// mirror each other.
pub proof fn lemma_find_parsed(
    hts: Seq<TensorLoadInfo>,
    sts: Seq<crate::container::SpecTensorInfo>,
    name: Seq<char>,
)
    requires
        hts.len() == sts.len(),
        forall|i: int|
            0 <= i < hts.len() ==> crate::container::tensor_info_matches(
                #[trigger] hts[i],
                sts[i],
            ),
    ensures
        spec_find_tensor(hts, name) is Some <==> spec_find_parsed(sts, name) is Some,
        spec_find_tensor(hts, name) is Some ==> crate::container::tensor_info_matches(
            spec_find_tensor(hts, name)->Some_0,
            spec_find_parsed(sts, name)->Some_0,
        ),
    decreases hts.len(),
{
    if hts.len() > 0 {
        assert(crate::container::tensor_info_matches(hts[hts.len() - 1], sts[hts.len() - 1]));
        vstd::utf8::encode_utf8_decode_utf8(hts.last().name@);
        vstd::utf8::encode_utf8_decode_utf8(name);
        assert(hts.last().name@ == name <==> sts.last().name == vstd::utf8::encode_utf8(name));
        assert forall|i: int|
            0 <= i < hts.drop_last().len() implies crate::container::tensor_info_matches(
            #[trigger] hts.drop_last()[i],
            sts.drop_last()[i],
        ) by {
            assert(hts.drop_last()[i] == hts[i]);
            assert(sts.drop_last()[i] == sts[i]);
        }
        lemma_find_parsed(hts.drop_last(), sts.drop_last(), name);
    }
}

/// A tensor bound to a record is bound to the parsed record it mirrors.
pub proof fn lemma_bound_bridge(
    t: Tensor,
    ei: TensorLoadInfo,
    si: crate::container::SpecTensorInfo,
    data: Seq<u8>,
    mmap: bool,
)
    requires
        crate::container::tensor_info_matches(ei, si),
        tensor_bound_to(t, ei, data, mmap),
    ensures
        tensor_bound_to_parsed(t, si, data, mmap),
{
    assert(ei.spec_calc_size() == crate::container::spec_payload_size(si.dims, si.element_type));
    assert(t.dims@.map_values(|d: usize| d as int) == si.dims);
}

/// The model a successful load yields: the parsed hyperparameters and
/// vocabulary, the caller's context window length, and every required tensor
/// bound to the parsed record of its name — to its span of the mapped file
/// exactly when mapping is preferred and the container variant supports it,
/// and to an owned copy of its payload bytes otherwise.
pub open spec fn loaded_model_matches(
    m: crate::bloom::Bloom,
    sc: crate::container::SpecContainer,
    params: ModelParameters,
    data: Seq<u8>,
) -> bool {
    let mmap = params.prefer_mmap && sc.container_type == crate::container::ContainerType::Ggjt;
    &&& m.hyperparameters == sc.hyperparameters
    &&& m.n_context_tokens == params.n_context_tokens
    &&& m.layers@.len() == sc.hyperparameters.n_layer
    &&& m.vocabulary.wf()
    &&& m.vocabulary.id_to_token@.len() == sc.vocabulary.len()
    &&& forall|i: int|
        0 <= i < sc.vocabulary.len() ==> #[trigger] m.vocabulary.id_to_token@[i]@
            == sc.vocabulary[i].0
    &&& forall|i: int|
        0 <= i < sc.vocabulary.len() ==> #[trigger] m.vocabulary.id_to_token_score@[i] as int
            == crate::vocabulary::fixed_from_f32_bits(sc.vocabulary[i].1)
    &&& tensor_bound_to_parsed(
        m.tok_embeddings,
        spec_find_parsed(sc.tensors, "tok_embeddings.weight"@)->Some_0,
        data,
        mmap,
    )
    &&& tensor_bound_to_parsed(
        m.norm,
        spec_find_parsed(sc.tensors, "norm.weight"@)->Some_0,
        data,
        mmap,
    )
    &&& tensor_bound_to_parsed(
        m.norm_b,
        spec_find_parsed(sc.tensors, "norm.bias"@)->Some_0,
        data,
        mmap,
    )
    &&& tensor_bound_to_parsed(
        m.output_norm,
        spec_find_parsed(sc.tensors, "output_norm.weight"@)->Some_0,
        data,
        mmap,
    )
    &&& tensor_bound_to_parsed(
        m.output_norm_b,
        spec_find_parsed(sc.tensors, "output_norm.bias"@)->Some_0,
        data,
        mmap,
    )
    &&& tensor_bound_to_parsed(
        m.output,
        spec_find_parsed(sc.tensors, "output.weight"@)->Some_0,
        data,
        mmap,
    )
    &&& forall|l: int|
        0 <= l < sc.hyperparameters.n_layer ==> #[trigger] crate::bloom::layer_bound_parsed(
            m.layers@[l],
            sc.tensors,
            l,
            data,
            mmap,
        )
}

/// Loads a model from the bytes of a single-part container file.
///
/// The caller supplies the model files it found next to `path` (the file
/// itself included); more than one means a multi-part model, which is not
/// supported.  One pass of the codec discovers the hyperparameters,
/// vocabulary and tensor index; the arena is sized from the index; tensors
/// are bound to owned buffers, or to their spans of the file when the caller
/// prefers memory mapping and the container variant supports it; and the
/// model is built from the bound tensors.  Progress events are returned
/// alongside the model.
#[verifier::loop_isolation(false)]
#[verifier::rlimit(100)]
pub fn load(
    data: &Vec<u8>,
    path: String,
    sibling_paths: Vec<String>,
    params: ModelParameters,
) -> (r: Result<(crate::bloom::Bloom, Vec<LoadProgress>), LoadError>)
    ensures
        sibling_paths@.len() != 1 ==> r == Err::<(crate::bloom::Bloom, Vec<LoadProgress>),
            LoadError,
        >(LoadError::MultipartNotSupported { paths: sibling_paths }),
        sibling_paths@.len() == 1 ==> match crate::container::spec_parse_container(data@) {
            Err(e) => r == Err::<(crate::bloom::Bloom, Vec<LoadProgress>), LoadError>(
                spec_load_error_of(e, path),
            ),
            Ok(sc) => {
                &&& (r is Ok <==> crate::bloom::bloom_tensors_present_parsed(
                    sc.tensors,
                    sc.hyperparameters.n_layer as int,
                ))
                &&& (r is Err ==> r->Err_0 matches LoadError::UnknownTensor { .. })
                &&& (r is Ok ==> loaded_model_matches(r->Ok_0.0, sc, params, data@))
                &&& (r is Ok ==> r->Ok_0.1@ == seq![
                    LoadProgress::HyperparametersLoaded,
                    LoadProgress::ContextSize {
                        bytes: spec_arena_size(
                            sc.tensors,
                            params.prefer_mmap && sc.container_type
                                == crate::container::ContainerType::Ggjt,
                        ) as usize,
                    },
                ] + spec_bind_events(
                    0,
                    sc.tensors.len() as int,
                    (6 + 12 * sc.hyperparameters.n_layer) as nat,
                ) + seq![
                    LoadProgress::Loaded {
                        file_size: data@.len() as u64,
                        tensor_count: sc.tensors.len() as usize,
                    },
                ])
            },
        },
{
    if sibling_paths.len() != 1 {
        return Err(LoadError::MultipartNotSupported { paths: sibling_paths });
    }
    let mut handler = Loader::new();
    match crate::container::load(data, &mut handler) {
        Ok(_) => {},
        Err(e) => {
            return Err(LoadError::from_format_error(e, path));
        },
    }
    let ghost sc = crate::container::spec_parse_container(data@)->Ok_0;
    let use_mmap = params.prefer_mmap && handler.container_type.support_mmap();
    proof {
        let magic_end = crate::container::spec_parse_magic(data@)->Ok_0.1;
        crate::container::lemma_parse_vocab_advances(
            data@,
            magic_end + 24,
            sc.hyperparameters.n_vocab as nat,
        );
        crate::container::lemma_parse_tensors_in_file(
            data@,
            sc.tensor_index_start,
            sc.container_type == crate::container::ContainerType::Ggjt,
        );
        assert forall|i: int|
            0 <= i < handler.tensors@.len() implies #[trigger] handler.tensors@[i].wf()
            && handler.tensors@[i].start_offset + handler.tensors@[i].spec_calc_size()
            <= data@.len() by {
            assert(crate::container::tensor_info_matches(handler.tensors@[i], sc.tensors[i]));
            assert(handler.tensors@[i].dims@.map_values(|d: usize| d as int) == sc.tensors[i].dims);
        }
    }
    let mut ctx_size: u128 = 0;
    let mut i: usize = 0;
    while i < handler.tensors.len()
        invariant
            i <= handler.tensors@.len(),
            ctx_size <= usize::MAX,
            handler.tensors@.len() == sc.tensors.len(),
            ctx_size == spec_arena_size(sc.tensors.subrange(0, i as int), use_mmap),
        decreases handler.tensors@.len() - i,
    {
        proof {
            assert(handler.tensors@[i as int].wf());
            assert(crate::container::tensor_info_matches(
                handler.tensors@[i as int],
                sc.tensors[i as int],
            ));
            assert(handler.tensors@[i as int].dims@.map_values(|d: usize| d as int)
                == sc.tensors[i as int].dims);
            assert(handler.tensors@[i as int].spec_calc_size() == crate::container::spec_payload_size(
                sc.tensors[i as int].dims,
                sc.tensors[i as int].element_type,
            ));
            assert(sc.tensors.subrange(0, i + 1).drop_last() =~= sc.tensors.subrange(0, i as int));
            assert(sc.tensors.subrange(0, i + 1).last() == sc.tensors[i as int]);
        }
        let term: u128 = (TENSOR_TYPE_SIZE as u128) + (OBJECT_SIZE as u128) + if use_mmap {
            0
        } else {
            handler.tensors[i].calc_size() as u128
        };
        ctx_size = if ctx_size + term > usize::MAX as u128 {
            usize::MAX as u128
        } else {
            ctx_size + term
        };
        i = i + 1;
    }
    proof {
        assert(sc.tensors.subrange(0, sc.tensors.len() as int) =~= sc.tensors);
    }
    handler.events.push(LoadProgress::ContextSize { bytes: ctx_size as usize });
    let tensor_count = handler.tensors.len();
    let ghost hts = handler.tensors@;
    proof {
        crate::bloom::lemma_bloom_presence_lift(
            hts,
            sc.tensors,
            sc.hyperparameters.n_layer as int,
        );
    }
    let tl = TensorLoader {
        data,
        path,
        tensors: handler.tensors,
        use_mmap,
        n_loaded: 0,
        events: handler.events,
    };
    let (model, mut events) = match crate::bloom::Bloom::new(
        handler.hyperparameters,
        params,
        handler.vocabulary,
        tl,
    ) {
        Ok(x) => x,
        Err(e) => {
            return Err(e);
        },
    };
    proof {
        crate::bloom::lemma_bloom_binding_lift(
            model,
            hts,
            sc.tensors,
            data@,
            use_mmap,
            sc.hyperparameters.n_layer as int,
        );
    }
    events.push(LoadProgress::Loaded { file_size: data.len() as u64, tensor_count });
    proof {
        assert(events@ =~= seq![
            LoadProgress::HyperparametersLoaded,
            LoadProgress::ContextSize { bytes: spec_arena_size(sc.tensors, use_mmap) as usize },
        ] + spec_bind_events(0, sc.tensors.len() as int, (6 + 12
            * sc.hyperparameters.n_layer) as nat) + seq![
            LoadProgress::Loaded {
                file_size: data@.len() as u64,
                tensor_count: sc.tensors.len() as usize,
            },
        ]);
    }
    Ok((model, events))
}

} // verus!
