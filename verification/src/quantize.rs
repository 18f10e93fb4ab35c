//! The quantizer: a streaming rewrite of an unquantized container into a
//! quantized one, preserving layout while substituting tensor element
//! encodings.
//!
//! The rewrite keeps the magic word, the format version and the vocabulary
//! byte for byte, patches the tensor-encoding profile in the hyperparameters,
//! and walks the tensor index: a tensor of rank one, or one in the
//! architecture's never-quantize set (names beginning with `norm`), is copied
//! verbatim; every other tensor keeps its shape and name but is re-encoded
//! into the target encoding.  The float block encoding itself is the tensor
//! kernels' work: the caller supplies one re-encoded payload per quantized
//! tensor, in file order, and this module checks every count and size and
//! assembles the output exactly.

use crate::bytes::{u32_le_bytes, write_u32};
use crate::container::{
    bytes_range, spec_align32, spec_parse_container, spec_payload_size, tensor_info_matches,
    ElementType, FormatError, SpecTensorInfo,
};
use crate::filetype::FileType;
use crate::hyperparameters::Hyperparameters;
use crate::loader::Loader;
use crate::snapshot::{words_bytes, write_bytes};
use vstd::prelude::*;
use vstd::string::StringSliceAdditionalSpecFns;

verus! {

/// Progress of one quantization run.
#[derive(Clone, PartialEq, Debug)]
pub enum QuantizeProgress {
    /// A tensor was copied verbatim under the skip rule.
    TensorSkipped {
        /// The name of the tensor.
        name: String,
        /// Its payload size in bytes.
        size: usize,
    },
    /// A tensor is being re-encoded.
    TensorQuantizing {
        /// The name of the tensor.
        name: String,
    },
    /// A tensor has been re-encoded.
    TensorQuantized {
        /// The name of the tensor.
        name: String,
        /// Its payload size before, in bytes.
        original_size: usize,
        /// Its payload size after, in bytes.
        reduced_size: usize,
    },
    /// The whole container has been rewritten.
    Finished {
        /// Total payload bytes before.
        original_size: usize,
        /// Total payload bytes after.
        reduced_size: usize,
    },
}

/// What can go wrong with a quantization run.
#[derive(Clone, Copy, Debug, PartialEq, Eq, Structural)]
pub enum QuantizeError {
    /// The target profile is not a block-quantized one.
    UnsupportedTargetType(FileType),
    /// The source container could not be parsed.
    Format(FormatError),
    /// A candidate tensor's fastest dimension is not a multiple of the
    /// target encoding's block size.
    LeadingDimNotBlockMultiple,
    /// The caller supplied too few or too many re-encoded payloads.
    PayloadCountMismatch,
    /// A supplied payload does not have the size the target encoding
    /// demands.
    PayloadSizeMismatch,
}

/// The element encoding a quantization target profile re-encodes into, for
/// the profiles the quantizer accepts.
pub open spec fn spec_quantize_element_type(t: FileType) -> Option<ElementType> {
    match t {
        FileType::MostlyQ4_0 => Some(ElementType::Q4_0),
        FileType::MostlyQ4_1 => Some(ElementType::Q4_1),
        FileType::MostlyQ4_2 => Some(ElementType::Q4_2),
        FileType::MostlyQ5_0 => Some(ElementType::Q5_0),
        FileType::MostlyQ5_1 => Some(ElementType::Q5_1),
        FileType::MostlyQ8_0 => Some(ElementType::Q8_0),
        _ => None,
    }
}

/// The element encoding a target profile re-encodes into.
pub fn quantize_element_type(t: FileType) -> (r: Option<ElementType>)
    ensures
        r == spec_quantize_element_type(t),
{
    match t {
        FileType::MostlyQ4_0 => Some(ElementType::Q4_0),
        FileType::MostlyQ4_1 => Some(ElementType::Q4_1),
        FileType::MostlyQ4_2 => Some(ElementType::Q4_2),
        FileType::MostlyQ5_0 => Some(ElementType::Q5_0),
        FileType::MostlyQ5_1 => Some(ElementType::Q5_1),
        FileType::MostlyQ8_0 => Some(ElementType::Q8_0),
        _ => None,
    }
}

/// The skip rule, over a tensor's UTF-8 name bytes: tensors of rank one stay
/// as they are, and so does every tensor whose name begins with `norm`.
#[verifier::opaque]
pub open spec fn spec_skip_tensor(n_dims: int, name: Seq<u8>) -> bool {
    n_dims == 1 || (name.len() >= 4 && name.subrange(0, 4) == "norm".spec_bytes())
}

/// Whether the skip rule keeps this tensor unquantized.
#[verifier::loop_isolation(false)]
pub fn skip_tensor(n_dims: usize, name: &str) -> (r: bool)
    ensures
        r == spec_skip_tensor(n_dims as int, name.spec_bytes()),
{
    proof {
        reveal(spec_skip_tensor);
    }
    if n_dims == 1 {
        return true;
    }
    let nb = name.as_bytes();
    let pb = "norm".as_bytes();
    proof {
        reveal_strlit("norm");
        assert("norm".spec_bytes().len() == 4) by {
            vstd::utf8::is_ascii_chars_encode_utf8("norm"@);
        }
    }
    if nb.len() < 4 {
        return false;
    }
    let mut i: usize = 0;
    while i < 4
        invariant
            i <= 4,
            nb@.len() >= 4,
            nb@ == name.spec_bytes(),
            pb@ == "norm".spec_bytes(),
            pb@.len() == 4,
            forall|j: int| 0 <= j < i ==> #[trigger] nb@[j] == pb@[j],
        decreases 4 - i,
    {
        if nb[i] != pb[i] {
            proof {
                assert(nb@[i as int] != pb@[i as int]);
                if name.spec_bytes().subrange(0, 4) == "norm".spec_bytes() {
                    assert(name.spec_bytes().subrange(0, 4)[i as int] == "norm".spec_bytes()[
                        i as int
                    ]);
                    assert(name.spec_bytes().subrange(0, 4)[i as int] == name.spec_bytes()[
                        i as int
                    ]);
                    assert(false);
                }
            }
            return false;
        }
        i = i + 1;
    }
    proof {
        assert(name.spec_bytes().subrange(0, 4) =~= "norm".spec_bytes());
    }
    true
}

/// A run of zero bytes.
pub open spec fn spec_zeros(n: int) -> Seq<u8> {
    Seq::new(n as nat, |i: int| 0u8)
}

/// One rewritten tensor record at absolute output position `pos`: the header
/// (dimension count, name length, element code, dimensions, name), then, in
/// the aligned variant, padding to a 32-byte boundary, then the payload.
#[verifier::opaque]
pub open spec fn spec_record_chunk(
    t: SpecTensorInfo,
    et: ElementType,
    payload: Seq<u8>,
    pos: int,
    aligned: bool,
) -> Seq<u8> {
    let header = u32_le_bytes(t.dims.len() as u32) + u32_le_bytes(t.name.len() as u32)
        + u32_le_bytes(crate::container::element_type_code(et) as u32) + words_bytes(
        t.dims.map_values(|d: int| d as u32),
    ) + t.name;
    let pad = if aligned {
        spec_zeros(spec_align32(pos + header.len()) - (pos + header.len()))
    } else {
        Seq::empty()
    };
    header + pad + payload
}

/// What the fold over the tensor index produces.
pub ghost struct QuantizeOutcome {
    /// The rewritten tensor section.
    pub section: Seq<u8>,
    /// Event descriptors: kind (0 skipped, 1 quantizing, 2 quantized), name
    /// bytes, and two sizes.
    pub events: Seq<(int, Seq<u8>, int, int)>,
    /// Total payload bytes before.
    pub original_size: int,
    /// Total payload bytes after.
    pub reduced_size: int,
}

/// A sum that saturates at the address-space limit.
pub open spec fn sat_add(a: int, b: int) -> int {
    if a + b > usize::MAX {
        usize::MAX as int
    } else {
        a + b
    }
}

/// The fold over the tensor index from record `k` on, with the output
/// standing at absolute position `pos` and `p` payloads already consumed:
/// each record is copied verbatim under the skip rule or re-encoded into
/// `tet`, and every payload the caller supplied must be consumed, in order,
/// with exactly the size the target encoding demands.
#[verifier::opaque]
pub open spec fn spec_quantize_fold(
    data: Seq<u8>,
    ts: Seq<SpecTensorInfo>,
    k: nat,
    pos: int,
    tet: ElementType,
    payloads: Seq<Seq<u8>>,
    p: nat,
    aligned: bool,
) -> Result<QuantizeOutcome, QuantizeError>
    decreases ts.len() - k,
    when k <= ts.len()
{
    if k == ts.len() {
        if p == payloads.len() {
            Ok(
                QuantizeOutcome {
                    section: Seq::empty(),
                    events: Seq::empty(),
                    original_size: 0,
                    reduced_size: 0,
                },
            )
        } else {
            Err(QuantizeError::PayloadCountMismatch)
        }
    } else {
        let t = ts[k as int];
        let src_size = spec_payload_size(t.dims, t.element_type);
        let skip = spec_skip_tensor(t.dims.len() as int, t.name);
        if skip {
            let payload = data.subrange(t.start_offset, t.start_offset + src_size);
            let chunk = spec_record_chunk(t, t.element_type, payload, pos, aligned);
            match spec_quantize_fold(data, ts, k + 1, pos + chunk.len(), tet, payloads, p, aligned) {
                Err(e) => Err(e),
                Ok(rest) => Ok(
                    QuantizeOutcome {
                        section: chunk + rest.section,
                        events: seq![(0int, t.name, src_size, src_size)] + rest.events,
                        original_size: src_size + rest.original_size,
                        reduced_size: src_size + rest.reduced_size,
                    },
                ),
            }
        } else if t.dims[0] % crate::container::spec_block_size(tet) != 0 {
            Err(QuantizeError::LeadingDimNotBlockMultiple)
        } else if p >= payloads.len() {
            Err(QuantizeError::PayloadCountMismatch)
        } else if payloads[p as int].len() != spec_payload_size(t.dims, tet) {
            Err(QuantizeError::PayloadSizeMismatch)
        } else {
            let tgt_size = spec_payload_size(t.dims, tet);
            let chunk = spec_record_chunk(t, tet, payloads[p as int], pos, aligned);
            match spec_quantize_fold(
                data,
                ts,
                k + 1,
                pos + chunk.len(),
                tet,
                payloads,
                p + 1,
                aligned,
            ) {
                Err(e) => Err(e),
                Ok(rest) => Ok(
                    QuantizeOutcome {
                        section: chunk + rest.section,
                        events: seq![
                            (1int, t.name, 0int, 0int),
                            (2int, t.name, src_size, tgt_size),
                        ] + rest.events,
                        original_size: src_size + rest.original_size,
                        reduced_size: tgt_size + rest.reduced_size,
                    },
                ),
            }
        }
    }
}

/// Whether an emitted event reports what its descriptor says.
pub open spec fn quantize_event_matches(e: QuantizeProgress, d: (int, Seq<u8>, int, int)) -> bool {
    if d.0 == 0 {
        (e matches QuantizeProgress::TensorSkipped { name, size } && vstd::utf8::encode_utf8(
            name@,
        ) == d.1 && size == d.2)
    } else if d.0 == 1 {
        (e matches QuantizeProgress::TensorQuantizing { name } && vstd::utf8::encode_utf8(name@)
            == d.1)
    } else {
        (e matches QuantizeProgress::TensorQuantized { name, original_size, reduced_size }
            && vstd::utf8::encode_utf8(name@) == d.1 && original_size == d.2 && reduced_size
            == d.3)
    }
}

/// Everything one quantization run does, as a function of the source bytes,
/// the target profile, and the re-encoded payloads: either an error, or the
/// rewritten container's bytes with the run's event descriptors and size
/// totals.
pub open spec fn spec_quantize(data: Seq<u8>, target: FileType, payloads: Seq<Seq<u8>>) -> Result<
    (Seq<u8>, QuantizeOutcome),
    QuantizeError,
> {
    match spec_quantize_element_type(target) {
        None => Err(QuantizeError::UnsupportedTargetType(target)),
        Some(tet) => match spec_parse_container(data) {
            Err(e) => Err(QuantizeError::Format(e)),
            Ok(sc) => {
                let magic_end: int = if sc.container_type
                    == crate::container::ContainerType::Ggml {
                    4
                } else {
                    8
                };
                let hp = crate::hyperparameters::Hyperparameters {
                    file_type: target,
                    ..sc.hyperparameters
                };
                let prefix = data.subrange(0, magic_end)
                    + crate::hyperparameters::spec_hyperparameters_bytes(hp) + data.subrange(
                    magic_end + 24,
                    sc.tensor_index_start,
                );
                let aligned = sc.container_type == crate::container::ContainerType::Ggjt;
                match spec_quantize_fold(
                    data,
                    sc.tensors,
                    0,
                    prefix.len() as int,
                    tet,
                    payloads,
                    0,
                    aligned,
                ) {
                    Err(e) => Err(e),
                    Ok(out) => Ok((prefix + out.section, out)),
                }
            },
        },
    }
}


/// The exec tensor index mirrors the parsed one, record for record, and every
/// record lies inside the file.
#[verifier::opaque]
pub open spec fn tensors_ok(
    hts: Seq<crate::container::TensorLoadInfo>,
    sts: Seq<SpecTensorInfo>,
    flen: int,
) -> bool {
    &&& hts.len() == sts.len()
    &&& forall|i: int| 0 <= i < hts.len() ==> tensor_info_matches(#[trigger] hts[i], sts[i])
    &&& forall|i: int|
        0 <= i < hts.len() ==> #[trigger] hts[i].wf() && hts[i].start_offset
            + hts[i].spec_calc_size() <= flen
}

/// The record at `k` mirrors the parsed one and lies inside the file.
proof fn lemma_tensor_at(
    hts: Seq<crate::container::TensorLoadInfo>,
    sts: Seq<SpecTensorInfo>,
    flen: int,
    k: int,
)
    requires
        tensors_ok(hts, sts, flen),
        0 <= k < hts.len(),
    ensures
        tensor_info_matches(hts[k], sts[k]),
        hts[k].wf(),
        hts[k].start_offset + hts[k].spec_calc_size() <= flen,
        hts.len() == sts.len(),
{
    reveal(tensors_ok);
    assert(hts[k].wf());
    assert(hts[k].start_offset + hts[k].spec_calc_size() <= flen);
}

/// The emitted events report exactly the descriptors so far.
#[verifier::opaque]
pub open spec fn events_ok(
    evs: Seq<QuantizeProgress>,
    descs: Seq<(int, Seq<u8>, int, int)>,
) -> bool {
    &&& evs.len() == descs.len()
    &&& forall|j: int| 0 <= j < descs.len() ==> quantize_event_matches(#[trigger] evs[j], descs[j])
}

/// Appends the UTF-8 bytes of a string slice.
fn push_str_bytes(out: &mut Vec<u8>, sstr: &str)
    ensures
        final(out)@ == old(out)@ + sstr.spec_bytes(),
{
    let bs = sstr.as_bytes();
    let n = bs.len();
    let mut i: usize = 0;
    while i < n
        invariant
            i <= n,
            n == bs@.len(),
            bs@ == sstr.spec_bytes(),
            out@ == old(out)@ + bs@.subrange(0, i as int),
        decreases n - i,
    {
        out.push(bs[i]);
        i = i + 1;
        proof {
            assert(old(out)@ + bs@.subrange(0, i as int) =~= (old(out)@ + bs@.subrange(
                0,
                i - 1,
            )).push(bs@[i - 1]));
        }
    }
    proof {
        assert(bs@.subrange(0, n as int) =~= bs@);
    }
}

/// Appends each dimension as a little-endian 32-bit field.
fn write_dims(out: &mut Vec<u8>, dims: &Vec<usize>)
    requires
        forall|i: int| 0 <= i < dims@.len() ==> #[trigger] dims@[i] <= u32::MAX,
    ensures
        final(out)@ == old(out)@ + words_bytes(dims@.map_values(|d: usize| d as u32)),
{
    let n = dims.len();
    let mut i: usize = 0;
    while i < n
        invariant
            i <= n,
            n == dims@.len(),
            forall|j: int| 0 <= j < dims@.len() ==> #[trigger] dims@[j] <= u32::MAX,
            out@ == old(out)@ + words_bytes(
                dims@.subrange(0, i as int).map_values(|d: usize| d as u32),
            ),
        decreases n - i,
    {
        write_u32(out, dims[i] as u32);
        i = i + 1;
        proof {
            let wsi = dims@.subrange(0, i as int).map_values(|d: usize| d as u32);
            assert(wsi.drop_last() =~= dims@.subrange(0, i - 1).map_values(|d: usize| d as u32));
            assert(out@ =~= old(out)@ + words_bytes(wsi));
        }
    }
    proof {
        assert(dims@.subrange(0, n as int) =~= dims@);
    }
}

/// Appends `n` zero bytes.
fn write_zeros(out: &mut Vec<u8>, n: usize)
    ensures
        final(out)@ == old(out)@ + spec_zeros(n as int),
{
    let mut i: usize = 0;
    while i < n
        invariant
            i <= n,
            out@ == old(out)@ + spec_zeros(i as int),
        decreases n - i,
    {
        out.push(0);
        i = i + 1;
        proof {
            assert(old(out)@ + spec_zeros(i as int) =~= (old(out)@ + spec_zeros(i - 1)).push(0u8));
        }
    }
}


/// Writes one rewritten record: header, alignment padding when the container
/// is aligned, then the payload.
#[verifier::loop_isolation(false)]
#[verifier::rlimit(100)]
fn write_record_chunk(
    out: &mut Vec<u8>,
    info: &crate::container::TensorLoadInfo,
    Ghost(t): Ghost<SpecTensorInfo>,
    et: ElementType,
    payload: &Vec<u8>,
    aligned: bool,
)
    requires
        tensor_info_matches(*info, t),
        info.wf(),
    ensures
        final(out)@ == old(out)@ + spec_record_chunk(
            t,
            et,
            payload@,
            old(out)@.len() as int,
            aligned,
        ),
{
    proof {
        reveal(spec_record_chunk);
    }
    let ghost out_before = out@;
    write_u32(out, info.dims.len() as u32);
    let name_len = str_byte_len(info.name.as_str());
    write_u32(out, name_len as u32);
    write_u32(out, et.code());
    write_dims(out, &info.dims);
    push_str_bytes(out, info.name.as_str());
    let ghost header = u32_le_bytes(t.dims.len() as u32) + u32_le_bytes(t.name.len() as u32)
        + u32_le_bytes(crate::container::element_type_code(et) as u32) + words_bytes(
        t.dims.map_values(|d: int| d as u32),
    ) + t.name;
    proof {
        assert(t.dims.map_values(|d: int| d as u32) =~= info.dims@.map_values(
            |d: usize| d as u32,
        ));
        assert(out@ =~= out_before + header);
    }
    if aligned {
        let cur = out.len();
        let aligned_to = ((cur as u128) + 31) / 32 * 32;
        proof {
            vstd::arithmetic::div_mod::lemma_fundamental_div_mod(cur + 31, 32);
            vstd::arithmetic::div_mod::lemma_mod_bound(cur + 31, 32);
            assert(aligned_to == spec_align32(cur as int));
            assert(cur as u128 <= aligned_to < cur as u128 + 32);
        }
        let pad = (aligned_to - (cur as u128)) as usize;
        write_zeros(out, pad);
    }
    write_bytes(out, payload);
    proof {
        assert(final(out)@ =~= old(out)@ + spec_record_chunk(
            t,
            et,
            payload@,
            old(out)@.len() as int,
            aligned,
        ));
    }
}



/// The ghost state the quantizer threads through its walk of the tensor
/// index.
pub ghost struct QuantizeGhostState {
    /// The whole fold's answer, fixed up front.
    pub whole: Result<QuantizeOutcome, QuantizeError>,
    /// The parsed tensor index.
    pub ts: Seq<SpecTensorInfo>,
    /// The caller's payloads.
    pub pls: Seq<Seq<u8>>,
    /// The output's fixed head: magic, patched hyperparameters, vocabulary.
    pub prefix: Seq<u8>,
    /// How many records have been rewritten.
    pub k: nat,
    /// The tensor section written so far.
    pub section: Seq<u8>,
    /// The event descriptors so far.
    pub acc_events: Seq<(int, Seq<u8>, int, int)>,
    /// Source payload bytes so far.
    pub acc_orig: int,
    /// Emitted payload bytes so far.
    pub acc_red: int,
}

/// What the whole fold equals, given the state after `k` records: the fold of
/// the remaining records, composed with what has accumulated.
pub open spec fn fold_state_compose(
    data: Seq<u8>,
    st: QuantizeGhostState,
    pos: int,
    tet: ElementType,
    p: nat,
    aligned: bool,
) -> Result<QuantizeOutcome, QuantizeError> {
    match spec_quantize_fold(data, st.ts, st.k, pos, tet, st.pls, p, aligned) {
        Err(e) => Err(e),
        Ok(rest) => Ok(
            QuantizeOutcome {
                section: st.section + rest.section,
                events: st.acc_events + rest.events,
                original_size: st.acc_orig + rest.original_size,
                reduced_size: st.acc_red + rest.reduced_size,
            },
        ),
    }
}

/// Rewrites one tensor: decides the skip rule, checks the caller's payload
/// when the tensor is re-encoded, writes the record, and reports the event.
/// The ghost arguments carry the fold state; on success the returned ghost
/// state extends them by exactly this record's chunk, descriptors and sizes,
/// and on failure the whole fold fails with the returned error.
#[verifier::rlimit(100)]
#[verifier::spinoff_prover]
fn quantize_one(
    out: &mut Vec<u8>,
    events: &mut Vec<QuantizeProgress>,
    data: &Vec<u8>,
    info: &crate::container::TensorLoadInfo,
    Ghost(t): Ghost<SpecTensorInfo>,
    Ghost(st): Ghost<QuantizeGhostState>,
    tet: ElementType,
    payloads: &Vec<Vec<u8>>,
    p: usize,
    aligned: bool,
) -> (r: Result<(usize, usize, usize, Ghost<QuantizeGhostState>), QuantizeError>)
    requires
        tensor_info_matches(*info, t),
        info.wf(),
        info.start_offset + info.spec_calc_size() <= data@.len(),
        p <= payloads@.len(),
        st.k < st.ts.len(),
        t == st.ts[st.k as int],
        st.pls == payloads@.map_values(|q: Vec<u8>| q@),
        old(out)@ == st.prefix + st.section,
        events_ok(old(events)@, st.acc_events),
        0 <= st.acc_orig,
        0 <= st.acc_red,
        st.whole == fold_state_compose(data@, st, old(out)@.len() as int, tet, p as nat, aligned),
    ensures
        match r {
            Err(e) => st.whole == Err::<QuantizeOutcome, QuantizeError>(e) && *final(out) == *old(
                out,
            ) && *final(events) == *old(events),
            Ok((src, tgt, p2, gst)) => {
                let st2 = gst@;
                &&& st2.ts == st.ts
                &&& st2.pls == st.pls
                &&& st2.prefix == st.prefix
                &&& st2.whole == st.whole
                &&& st2.k == st.k + 1
                &&& st2.acc_orig == st.acc_orig + src
                &&& st2.acc_red == st.acc_red + tgt
                &&& 0 <= st2.acc_orig
                &&& 0 <= st2.acc_red
                &&& p2 <= payloads@.len()
                &&& final(out)@ == st2.prefix + st2.section
                &&& events_ok(final(events)@, st2.acc_events)
                &&& st.whole == fold_state_compose(
                    data@,
                    st2,
                    final(out)@.len() as int,
                    tet,
                    p2 as nat,
                    aligned,
                )
            },
        },
{
    proof {
        reveal(spec_skip_tensor);
    }
    let info_dims_len = info.dims.len();
    let skip = skip_tensor(info_dims_len, info.name.as_str());
    proof {
        assert(vstd::utf8::encode_utf8(info.name@) == t.name);
        assert(info.dims@.map_values(|d: usize| d as int) == t.dims);
    }
    let src_size = info.calc_size();
    let ghost out_before = out@;
    if skip {
        let payload = bytes_range(data, info.start_offset, info.start_offset + src_size);
        write_record_chunk(out, info, Ghost(t), info.element_type, &payload, aligned);
        let ev_name = String::from_str(info.name.as_str());
        events.push(QuantizeProgress::TensorSkipped { name: ev_name, size: src_size });
        let ghost chunk = spec_record_chunk(
            t,
            t.element_type,
            data@.subrange(t.start_offset, t.start_offset + src_size),
            out_before.len() as int,
            aligned,
        );
        let ghost descs: Seq<(int, Seq<u8>, int, int)> = seq![
            (0int, t.name, src_size as int, src_size as int),
        ];
        let ghost st2 = QuantizeGhostState {
            k: (st.k + 1) as nat,
            section: st.section + chunk,
            acc_events: st.acc_events + descs,
            acc_orig: st.acc_orig + src_size,
            acc_red: st.acc_red + src_size,
            ..st
        };
        proof {
            reveal(events_ok);
            assert forall|jj: int| 0 <= jj < st2.acc_events.len() implies quantize_event_matches(
                #[trigger] events@[jj],
                st2.acc_events[jj],
            ) by {
                if jj < st.acc_events.len() {
                    assert(events@[jj] == old(events)@[jj]);
                }
            }
            lemma_assoc_bytes(st.prefix, st.section, chunk);
            lemma_quantize_step(
                data@,
                st.ts,
                st.k,
                out_before.len() as int,
                tet,
                st.pls,
                p as nat,
                aligned,
            );
            let rest = spec_quantize_fold(
                data@,
                st.ts,
                st2.k,
                out@.len() as int,
                tet,
                st.pls,
                p as nat,
                aligned,
            );
            if rest is Ok {
                lemma_assoc_bytes(st.section, chunk, rest->Ok_0.section);
                lemma_assoc_descs(st.acc_events, descs, rest->Ok_0.events);
            }
        }
        Ok((src_size, src_size, p, Ghost(st2)))
    } else {
        let bs = tet.block_size();
        if info.dims[0] % bs != 0 {
            proof {
                lemma_quantize_step_err(
                    data@,
                    st.ts,
                    st.k,
                    out_before.len() as int,
                    tet,
                    st.pls,
                    p as nat,
                    aligned,
                );
            }
            return Err(QuantizeError::LeadingDimNotBlockMultiple);
        }
        let tgt128 = crate::container::payload_size_u128(&info.dims, tet);
        if p >= payloads.len() {
            proof {
                lemma_quantize_step_err(
                    data@,
                    st.ts,
                    st.k,
                    out_before.len() as int,
                    tet,
                    st.pls,
                    p as nat,
                    aligned,
                );
            }
            return Err(QuantizeError::PayloadCountMismatch);
        }
        if payloads[p].len() as u128 != tgt128 {
            proof {
                lemma_quantize_step_err(
                    data@,
                    st.ts,
                    st.k,
                    out_before.len() as int,
                    tet,
                    st.pls,
                    p as nat,
                    aligned,
                );
            }
            return Err(QuantizeError::PayloadSizeMismatch);
        }
        let tgt_size = tgt128 as usize;
        write_record_chunk(out, info, Ghost(t), tet, &payloads[p], aligned);
        let ev_name1 = String::from_str(info.name.as_str());
        let ev_name2 = String::from_str(info.name.as_str());
        events.push(QuantizeProgress::TensorQuantizing { name: ev_name1 });
        events.push(
            QuantizeProgress::TensorQuantized {
                name: ev_name2,
                original_size: src_size,
                reduced_size: tgt_size,
            },
        );
        let ghost chunk = spec_record_chunk(
            t,
            tet,
            st.pls[p as int],
            out_before.len() as int,
            aligned,
        );
        let ghost descs: Seq<(int, Seq<u8>, int, int)> = seq![
            (1int, t.name, 0int, 0int),
            (2int, t.name, src_size as int, tgt_size as int),
        ];
        let ghost st2 = QuantizeGhostState {
            k: (st.k + 1) as nat,
            section: st.section + chunk,
            acc_events: st.acc_events + descs,
            acc_orig: st.acc_orig + src_size,
            acc_red: st.acc_red + tgt_size,
            ..st
        };
        proof {
            reveal(events_ok);
            assert forall|jj: int| 0 <= jj < st2.acc_events.len() implies quantize_event_matches(
                #[trigger] events@[jj],
                st2.acc_events[jj],
            ) by {
                if jj < st.acc_events.len() {
                    assert(events@[jj] == old(events)@[jj]);
                }
            }
            lemma_assoc_bytes(st.prefix, st.section, chunk);
            lemma_quantize_step(
                data@,
                st.ts,
                st.k,
                out_before.len() as int,
                tet,
                st.pls,
                p as nat,
                aligned,
            );
            let rest = spec_quantize_fold(
                data@,
                st.ts,
                st2.k,
                out@.len() as int,
                tet,
                st.pls,
                (p + 1) as nat,
                aligned,
            );
            if rest is Ok {
                lemma_assoc_bytes(st.section, chunk, rest->Ok_0.section);
                lemma_assoc_descs(st.acc_events, descs, rest->Ok_0.events);
            }
        }
        Ok((src_size, tgt_size, p + 1, Ghost(st2)))
    }
}

/// One successful step of the fold: the record at `k` contributes its chunk,
/// its event descriptors and its sizes, and the fold continues after it.
#[verifier::spinoff_prover]
#[verifier::rlimit(100)]
proof fn lemma_quantize_step(
    data: Seq<u8>,
    ts: Seq<SpecTensorInfo>,
    k: nat,
    pos: int,
    tet: ElementType,
    pls: Seq<Seq<u8>>,
    p: nat,
    aligned: bool,
)
    requires
        k < ts.len(),
        ({
            let t = ts[k as int];
            spec_skip_tensor(t.dims.len() as int, t.name) || (t.dims[0]
                % crate::container::spec_block_size(tet) == 0 && p < pls.len() && pls[
                p as int
            ].len() == spec_payload_size(t.dims, tet))
        }),
    ensures
        ({
            let t = ts[k as int];
            let skip = spec_skip_tensor(t.dims.len() as int, t.name);
            let src = spec_payload_size(t.dims, t.element_type);
            let tgt = if skip {
                src
            } else {
                spec_payload_size(t.dims, tet)
            };
            let et = if skip {
                t.element_type
            } else {
                tet
            };
            let payload = if skip {
                data.subrange(t.start_offset, t.start_offset + src)
            } else {
                pls[p as int]
            };
            let chunk = spec_record_chunk(t, et, payload, pos, aligned);
            let descs: Seq<(int, Seq<u8>, int, int)> = if skip {
                seq![(0int, t.name, src, src)]
            } else {
                seq![(1int, t.name, 0int, 0int), (2int, t.name, src, tgt)]
            };
            let p2: nat = if skip {
                p
            } else {
                p + 1
            };
            spec_quantize_fold(data, ts, k, pos, tet, pls, p, aligned) == (match spec_quantize_fold(
                data,
                ts,
                k + 1,
                pos + chunk.len(),
                tet,
                pls,
                p2,
                aligned,
            ) {
                Err(e) => Err::<QuantizeOutcome, QuantizeError>(e),
                Ok(rest) => Ok(
                    QuantizeOutcome {
                        section: chunk + rest.section,
                        events: descs + rest.events,
                        original_size: src + rest.original_size,
                        reduced_size: tgt + rest.reduced_size,
                    },
                ),
            })
        }),
{
    reveal_with_fuel(spec_quantize_fold, 2);
    reveal(spec_record_chunk);
}

/// The failing steps of the fold: each check that fails decides the error.
#[verifier::spinoff_prover]
#[verifier::rlimit(100)]
proof fn lemma_quantize_step_err(
    data: Seq<u8>,
    ts: Seq<SpecTensorInfo>,
    k: nat,
    pos: int,
    tet: ElementType,
    pls: Seq<Seq<u8>>,
    p: nat,
    aligned: bool,
)
    requires
        k < ts.len(),
    ensures
        ({
            let t = ts[k as int];
            let skip = spec_skip_tensor(t.dims.len() as int, t.name);
            &&& (!skip && t.dims[0] % crate::container::spec_block_size(tet) != 0
                ==> spec_quantize_fold(data, ts, k, pos, tet, pls, p, aligned) == Err::<
                QuantizeOutcome,
                QuantizeError,
            >(QuantizeError::LeadingDimNotBlockMultiple))
            &&& (!skip && t.dims[0] % crate::container::spec_block_size(tet) == 0 && p
                >= pls.len() ==> spec_quantize_fold(data, ts, k, pos, tet, pls, p, aligned)
                == Err::<QuantizeOutcome, QuantizeError>(QuantizeError::PayloadCountMismatch))
            &&& (!skip && t.dims[0] % crate::container::spec_block_size(tet) == 0 && p < pls.len()
                && pls[p as int].len() != spec_payload_size(t.dims, tet) ==> spec_quantize_fold(
                data,
                ts,
                k,
                pos,
                tet,
                pls,
                p,
                aligned,
            ) == Err::<QuantizeOutcome, QuantizeError>(QuantizeError::PayloadSizeMismatch))
        }),
{
    reveal_with_fuel(spec_quantize_fold, 1);
}

/// Concatenation of byte runs associates.
proof fn lemma_assoc_bytes(a: Seq<u8>, b: Seq<u8>, c: Seq<u8>)
    ensures
        a + (b + c) == (a + b) + c,
{
    assert(a + (b + c) =~= (a + b) + c);
}

/// Concatenation of descriptor runs associates.
proof fn lemma_assoc_descs(
    a: Seq<(int, Seq<u8>, int, int)>,
    b: Seq<(int, Seq<u8>, int, int)>,
    c: Seq<(int, Seq<u8>, int, int)>,
)
    ensures
        a + (b + c) == (a + b) + c,
{
    assert(a + (b + c) =~= (a + b) + c);
}


/// Walks the tensor index from record `k` on, rewriting each record, and
/// yields the saturated size totals.
#[verifier::rlimit(100)]
#[verifier::spinoff_prover]
fn quantize_records(
    out: &mut Vec<u8>,
    events: &mut Vec<QuantizeProgress>,
    data: &Vec<u8>,
    tensors: &Vec<crate::container::TensorLoadInfo>,
    k: usize,
    p: usize,
    orig_total: usize,
    red_total: usize,
    Ghost(st): Ghost<QuantizeGhostState>,
    tet: ElementType,
    payloads: &Vec<Vec<u8>>,
    aligned: bool,
) -> (r: Result<(usize, usize), QuantizeError>)
    requires
        k == st.k,
        k <= tensors@.len(),
        tensors@.len() == st.ts.len(),
        p <= payloads@.len(),
        st.pls == payloads@.map_values(|q: Vec<u8>| q@),
        tensors_ok(tensors@, st.ts, data@.len() as int),
        old(out)@ == st.prefix + st.section,
        events_ok(old(events)@, st.acc_events),
        orig_total == sat_add(st.acc_orig, 0),
        red_total == sat_add(st.acc_red, 0),
        0 <= st.acc_orig,
        0 <= st.acc_red,
        st.whole == fold_state_compose(data@, st, old(out)@.len() as int, tet, p as nat, aligned),
    ensures
        match r {
            Err(e) => st.whole == Err::<QuantizeOutcome, QuantizeError>(e),
            Ok((ot, rt)) => {
                &&& st.whole is Ok
                &&& final(out)@ == st.prefix + st.whole->Ok_0.section
                &&& events_ok(final(events)@, st.whole->Ok_0.events)
                &&& ot == sat_add(st.whole->Ok_0.original_size, 0)
                &&& rt == sat_add(st.whole->Ok_0.reduced_size, 0)
            },
        },
    decreases tensors@.len() - k,
{
    if k == tensors.len() {
        proof {
            reveal_with_fuel(spec_quantize_fold, 1);
        }
        if p != payloads.len() {
            return Err(QuantizeError::PayloadCountMismatch);
        }
        proof {
            assert(st.section + Seq::<u8>::empty() =~= st.section);
            assert(st.acc_events + Seq::<(int, Seq<u8>, int, int)>::empty() =~= st.acc_events);
        }
        return Ok((orig_total, red_total));
    }
    let ghost t = st.ts[k as int];
    proof {
        lemma_tensor_at(tensors@, st.ts, data@.len() as int, k as int);
    }
    let step = quantize_one(out, events, data, &tensors[k], Ghost(t), Ghost(st), tet, payloads, p, aligned);
    let (src_size, tgt_size, p2, gst2) = match step {
        Ok(x) => x,
        Err(e) => {
            return Err(e);
        },
    };
    let orig2 = if orig_total as u128 + src_size as u128 > usize::MAX as u128 {
        usize::MAX
    } else {
        orig_total + src_size
    };
    let red2 = if red_total as u128 + tgt_size as u128 > usize::MAX as u128 {
        usize::MAX
    } else {
        red_total + tgt_size
    };
    quantize_records(out, events, data, tensors, k + 1, p2, orig2, red2, Ghost(gst2@), tet, payloads, aligned)
}

/// Rewrites the container in `data` into the target profile: magic, version
/// and vocabulary stay byte for byte, the hyperparameters' profile field is
/// patched, and each tensor is copied verbatim under the skip rule or
/// replaced by the caller's matching re-encoded payload.  Returns the new
/// container and the progress events, ending with the size totals.
#[verifier::rlimit(100)]
#[verifier::spinoff_prover]
pub fn quantize(data: &Vec<u8>, target: FileType, payloads: &Vec<Vec<u8>>) -> (r: Result<
    (Vec<u8>, Vec<QuantizeProgress>),
    QuantizeError,
>)
    ensures
        match spec_quantize(data@, target, payloads@.map_values(|p: Vec<u8>| p@)) {
            Err(e) => r == Err::<(Vec<u8>, Vec<QuantizeProgress>), QuantizeError>(e),
            Ok(outp) => {
                &&& r is Ok
                &&& r->Ok_0.0@ == outp.0
                &&& r->Ok_0.1@.len() == outp.1.events.len() + 1
                &&& forall|j: int|
                    0 <= j < outp.1.events.len() ==> quantize_event_matches(
                        #[trigger] r->Ok_0.1@[j],
                        outp.1.events[j],
                    )
                &&& (r->Ok_0.1@.last() matches QuantizeProgress::Finished {
                    original_size,
                    reduced_size,
                } && original_size == sat_add(outp.1.original_size, 0) && reduced_size == sat_add(
                    outp.1.reduced_size,
                    0,
                ))
            },
        },
{
    let ghost pls = payloads@.map_values(|p: Vec<u8>| p@);
    let tet = match quantize_element_type(target) {
        Some(t) => t,
        None => {
            return Err(QuantizeError::UnsupportedTargetType(target));
        },
    };
    let mut handler = Loader::new();
    match crate::container::load(data, &mut handler) {
        Ok(_) => {},
        Err(e) => {
            return Err(QuantizeError::Format(e));
        },
    }
    let ghost sc = spec_parse_container(data@)->Ok_0;
    let magic_end: usize = if matches!(
        handler.container_type,
        crate::container::ContainerType::Ggml,
    ) {
        4
    } else {
        8
    };
    let aligned = matches!(handler.container_type, crate::container::ContainerType::Ggjt);
    proof {
        let p0 = crate::container::spec_parse_magic(data@)->Ok_0.1;
        crate::container::lemma_parse_vocab_advances(
            data@,
            p0 + 24,
            sc.hyperparameters.n_vocab as nat,
        );
        crate::container::lemma_parse_tensors_in_file(
            data@,
            sc.tensor_index_start,
            sc.container_type == crate::container::ContainerType::Ggjt,
        );
        assert forall|i: int|
            0 <= i < handler.tensors@.len() implies #[trigger] handler.tensors@[i].wf()
            && handler.tensors@[i].start_offset + handler.tensors@[i].spec_calc_size()
            <= data@.len() by {
            assert(tensor_info_matches(handler.tensors@[i], sc.tensors[i]));
            assert(handler.tensors@[i].dims@.map_values(|d: usize| d as int) == sc.tensors[i].dims);
        }
        reveal(tensors_ok);
        assert(tensors_ok(handler.tensors@, sc.tensors, data@.len() as int));
    }
    let mut out: Vec<u8> = bytes_range(data, 0, magic_end);
    let hp = Hyperparameters { file_type: target, ..handler.hyperparameters };
    hp.write(&mut out);
    let vocab_bytes = bytes_range(data, magic_end + 24, handler.tensor_index_start);
    write_bytes(&mut out, &vocab_bytes);
    let ghost prefix = out@;
    proof {
        assert(prefix =~= data@.subrange(0, magic_end as int)
            + crate::hyperparameters::spec_hyperparameters_bytes(hp) + data@.subrange(
            magic_end + 24,
            sc.tensor_index_start,
        ));
    }

    let mut events: Vec<QuantizeProgress> = Vec::new();
    let mut orig_total: usize = 0;
    let mut red_total: usize = 0;
    let mut p: usize = 0;
    let mut k: usize = 0;
    let ghost whole = spec_quantize_fold(
        data@,
        sc.tensors,
        0,
        prefix.len() as int,
        tet,
        pls,
        0,
        aligned,
    );
    let ghost mut st = QuantizeGhostState {
        whole,
        ts: sc.tensors,
        pls,
        prefix,
        k: 0,
        section: Seq::empty(),
        acc_events: Seq::empty(),
        acc_orig: 0,
        acc_red: 0,
    };
    proof {
        reveal(events_ok);
        assert(events_ok(events@, st.acc_events));
        assert(out@ =~= prefix + st.section);
        if spec_quantize_fold(data@, sc.tensors, 0, prefix.len() as int, tet, pls, 0, aligned)
            is Ok {
            let w0 = spec_quantize_fold(
                data@,
                sc.tensors,
                0,
                prefix.len() as int,
                tet,
                pls,
                0,
                aligned,
            )->Ok_0;
            assert(Seq::<u8>::empty() + w0.section =~= w0.section);
            assert(Seq::<(int, Seq<u8>, int, int)>::empty() + w0.events =~= w0.events);
        }
    }
    let totals = match quantize_records(
        &mut out,
        &mut events,
        data,
        &handler.tensors,
        k,
        p,
        orig_total,
        red_total,
        Ghost(st),
        tet,
        payloads,
        aligned,
    ) {
        Ok(x) => x,
        Err(e) => {
            return Err(e);
        },
    };
    let (orig_final, red_final) = totals;
    events.push(
        QuantizeProgress::Finished { original_size: orig_final, reduced_size: red_final },
    );
    Ok((out, events))
}

/// Copies a dimension list.
fn copy_dims(src: &Vec<usize>) -> (r: Vec<usize>)
    ensures
        r@ == src@,
{
    let mut r: Vec<usize> = Vec::new();
    let mut i: usize = 0;
    while i < src.len()
        invariant
            i <= src@.len(),
            r@ == src@.subrange(0, i as int),
        decreases src@.len() - i,
    {
        r.push(src[i]);
        i = i + 1;
        proof {
            assert(src@.subrange(0, i as int) =~= src@.subrange(0, i - 1).push(src@[i - 1]));
        }
    }
    proof {
        assert(src@.subrange(0, src@.len() as int) =~= src@);
    }
    r
}

/// The UTF-8 byte length of a string slice.
fn str_byte_len(sstr: &str) -> (r: usize)
    ensures
        r == sstr.spec_bytes().len(),
{
    sstr.as_bytes().len()
}


/// The quantized container reads back with the same variant, the same
/// hyperparameters save the patched profile, and the same vocabulary, ending
/// exactly where its tensor index starts: the layout-preservation half of
/// the lossy quantization round trip.  (The rewritten tensor index itself is
/// pinned byte for byte by `spec_quantize`.)
#[verifier::rlimit(100)]
#[verifier::spinoff_prover]
pub proof fn lemma_quantize_preserves_header(
    data: Seq<u8>,
    target: FileType,
    payloads: Seq<Seq<u8>>,
)
    requires
        spec_quantize(data, target, payloads) is Ok,
    ensures
        ({
            let out = spec_quantize(data, target, payloads)->Ok_0.0;
            let sc = spec_parse_container(data)->Ok_0;
            let me: int = if sc.container_type == crate::container::ContainerType::Ggml {
                4
            } else {
                8
            };
            let hp2 = Hyperparameters { file_type: target, ..sc.hyperparameters };
            &&& spec_parse_container(data) is Ok
            &&& crate::container::spec_parse_magic(out) == Ok::<
                (crate::container::ContainerType, int),
                FormatError,
            >((sc.container_type, me))
            &&& crate::hyperparameters::spec_read_hyperparameters(out, me) == Ok::<
                Hyperparameters,
                FormatError,
            >(hp2)
            &&& crate::container::spec_parse_vocab(
                out,
                me + 24,
                sc.hyperparameters.n_vocab as nat,
            ) == Ok::<(Seq<(Seq<u8>, u32)>, int), FormatError>(
                (sc.vocabulary, sc.tensor_index_start),
            )
        }),
{
    let out = spec_quantize(data, target, payloads)->Ok_0.0;
    let sc = spec_parse_container(data)->Ok_0;
    let me: int = if sc.container_type == crate::container::ContainerType::Ggml {
        4
    } else {
        8
    };
    let hp2 = Hyperparameters { file_type: target, ..sc.hyperparameters };
    let tb = sc.tensor_index_start;
    let a = data.subrange(0, me);
    let b = crate::hyperparameters::spec_hyperparameters_bytes(hp2);
    let c = data.subrange(me + 24, tb);
    let prefix = a + b + c;
    let section = spec_quantize(data, target, payloads)->Ok_0.1.section;
    let p0 = crate::container::spec_parse_magic(data)->Ok_0.1;
    assert(p0 == me);
    crate::container::lemma_parse_vocab_advances(
        data,
        me + 24,
        sc.hyperparameters.n_vocab as nat,
    );
    assert(me + 24 <= tb <= data.len());
    assert(out == prefix + section);
    assert(b.len() == 24);
    assert(prefix.len() == tb);

    crate::snapshot::lemma_concat_sub_left(prefix, section, 0, me);
    crate::snapshot::lemma_concat_sub_left(a + b, c, 0, me);
    crate::snapshot::lemma_concat_sub_left(a, b, 0, me);
    assert(a.subrange(0, me) =~= a);
    assert(out.subrange(0, me) == a);

    crate::snapshot::lemma_concat_sub_left(prefix, section, me, me + 24);
    crate::snapshot::lemma_concat_sub_left(a + b, c, me, me + 24);
    crate::snapshot::lemma_concat_sub_right(a, b);
    assert(out.subrange(me, me + 24) == b);

    crate::snapshot::lemma_concat_sub_left(prefix, section, me + 24, tb);
    crate::snapshot::lemma_concat_sub_right(a + b, c);
    assert(out.subrange(me + 24, tb) == c);

    // the magic word, and the version in the versioned variants
    assert(out.subrange(0, 4) =~= data.subrange(0, 4)) by {
        assert forall|j: int| 0 <= j < 4 implies out.subrange(0, 4)[j] == data.subrange(0, 4)[
            j
        ] by {
            assert(out.subrange(0, me)[j] == a[j]);
        }
    }
    if me == 8 {
        assert(out.subrange(4, 8) =~= data.subrange(4, 8)) by {
            assert forall|j: int| 0 <= j < 4 implies out.subrange(4, 8)[j] == data.subrange(4, 8)[
                j
            ] by {
                assert(out.subrange(0, me)[j + 4] == a[j + 4]);
            }
        }
    }
    assert(crate::container::spec_parse_magic(out) == Ok::<
        (crate::container::ContainerType, int),
        FormatError,
    >((sc.container_type, me)));

    // the hyperparameters, with the profile field patched
    assert(crate::hyperparameters::hyperparameters_wf(hp2));
    crate::hyperparameters::lemma_hyperparameters_round_trip(hp2, out, me);

    // the vocabulary, byte for byte
    crate::container::lemma_parse_vocab_frame(data, out, me + 24, sc.hyperparameters.n_vocab as nat);
}


/// A rewritten record reads back as written: parsing the chunk at its
/// position yields the same name and shape, the encoding it was written
/// with, the aligned payload offset, and ends exactly after the payload.
#[verifier::rlimit(100)]
#[verifier::spinoff_prover]
pub proof fn lemma_record_chunk_parses(
    out: Seq<u8>,
    t: SpecTensorInfo,
    et: ElementType,
    payload: Seq<u8>,
    pos: int,
    aligned: bool,
)
    requires
        0 <= pos,
        1 <= t.dims.len() <= 3,
        forall|j: int| 0 <= j < t.dims.len() ==> 0 <= #[trigger] t.dims[j] < 0x1_0000_0000,
        t.name.len() < 0x1_0000_0000,
        vstd::utf8::valid_utf8(t.name),
        t.dims[0] % crate::container::spec_block_size(et) == 0,
        payload.len() == spec_payload_size(t.dims, et),
        pos + spec_record_chunk(t, et, payload, pos, aligned).len() <= out.len(),
        out.subrange(pos, pos + spec_record_chunk(t, et, payload, pos, aligned).len())
            == spec_record_chunk(t, et, payload, pos, aligned),
    ensures
        ({
            let header_end = pos + 12 + 4 * t.dims.len() + t.name.len();
            let start = if aligned {
                spec_align32(header_end)
            } else {
                header_end as int
            };
            &&& start + payload.len() == pos + spec_record_chunk(
                t,
                et,
                payload,
                pos,
                aligned,
            ).len()
            &&& spec_record_chunk(t, et, payload, pos, aligned).len() >= 16
            &&& crate::container::spec_parse_tensor_record(out, pos, aligned) == Ok::<
                (SpecTensorInfo, int),
                FormatError,
            >(
                (
                    SpecTensorInfo {
                        name: t.name,
                        dims: t.dims,
                        element_type: et,
                        start_offset: start,
                    },
                    start + payload.len(),
                ),
            )
        }),
{
    reveal(spec_record_chunk);
    let n = t.dims.len() as int;
    let nl = t.name.len() as int;
    let h1 = u32_le_bytes(t.dims.len() as u32);
    let h2 = u32_le_bytes(t.name.len() as u32);
    let h3 = u32_le_bytes(crate::container::element_type_code(et) as u32);
    let hd = words_bytes(t.dims.map_values(|d: int| d as u32));
    let header = h1 + h2 + h3 + hd + t.name;
    let header_end = pos + 12 + 4 * n + nl;
    let pad = if aligned {
        spec_zeros(spec_align32(header_end) - header_end)
    } else {
        Seq::<u8>::empty()
    };
    let start = if aligned {
        spec_align32(header_end)
    } else {
        header_end
    };
    let chunk = spec_record_chunk(t, et, payload, pos, aligned);
    crate::snapshot::lemma_words_bytes_len(t.dims.map_values(|d: int| d as u32));
    if aligned {
        vstd::arithmetic::div_mod::lemma_fundamental_div_mod(header_end + 31, 32);
        vstd::arithmetic::div_mod::lemma_mod_bound(header_end + 31, 32);
    }
    assert(header.len() == 12 + 4 * n + nl);
    assert(chunk == header + pad + payload);
    assert(chunk.len() == header.len() + pad.len() + payload.len());

    assert forall|j: int| 0 <= j < chunk.len() implies out[pos + j] == chunk[j] by {
        assert(out.subrange(pos, pos + chunk.len())[j] == chunk[j]);
    }

    crate::bytes::lemma_le32_round_trip(t.dims.len() as u32);
    crate::bytes::lemma_le32_round_trip(t.name.len() as u32);
    crate::bytes::lemma_le32_round_trip(crate::container::element_type_code(et) as u32);
    crate::snapshot::lemma_concat_sub_left(header + pad, payload, 0, header.len() as int);
    crate::snapshot::lemma_concat_sub_left(header, pad, 0, header.len() as int);
    assert(header.subrange(0, header.len() as int) =~= header);

    // the three leading fields
    assert(out.subrange(pos, pos + 4) =~= h1) by {
        crate::snapshot::lemma_concat_sub_left(h1 + h2 + h3 + hd, t.name, 0, 4);
        crate::snapshot::lemma_concat_sub_left(h1 + h2 + h3, hd, 0, 4);
        crate::snapshot::lemma_concat_sub_left(h1 + h2, h3, 0, 4);
        crate::snapshot::lemma_concat_sub_left(h1, h2, 0, 4);
        assert(h1.subrange(0, 4) =~= h1);
        assert forall|j: int| 0 <= j < 4 implies out.subrange(pos, pos + 4)[j] == h1[j] by {
            assert(out[pos + j] == chunk[j]);
            assert(chunk[j] == header[j]);
        }
    }
    assert(out.subrange(pos + 4, pos + 8) =~= h2) by {
        crate::snapshot::lemma_concat_sub_left(h1 + h2 + h3 + hd, t.name, 4, 8);
        crate::snapshot::lemma_concat_sub_left(h1 + h2 + h3, hd, 4, 8);
        crate::snapshot::lemma_concat_sub_left(h1 + h2, h3, 4, 8);
        crate::snapshot::lemma_concat_sub_right(h1, h2);
        assert forall|j: int| 0 <= j < 4 implies out.subrange(pos + 4, pos + 8)[j] == h2[j] by {
            assert(out[pos + 4 + j] == chunk[4 + j]);
            assert(chunk[4 + j] == header[4 + j]);
        }
    }
    assert(out.subrange(pos + 8, pos + 12) =~= h3) by {
        crate::snapshot::lemma_concat_sub_left(h1 + h2 + h3 + hd, t.name, 8, 12);
        crate::snapshot::lemma_concat_sub_right(h1 + h2, h3);
        assert forall|j: int| 0 <= j < 4 implies out.subrange(pos + 8, pos + 12)[j] == h3[j] by {
            assert(out[pos + 8 + j] == chunk[8 + j]);
            assert(chunk[8 + j] == header[8 + j]);
        }
    }
    assert(crate::bytes::le32(out.subrange(pos, pos + 4)) == n);
    assert(crate::bytes::le32(out.subrange(pos + 4, pos + 8)) == nl);
    assert(crate::bytes::le32(out.subrange(pos + 8, pos + 12))
        == crate::container::element_type_code(et));

    // the dimensions
    let sdims = Seq::new(
        t.dims.len(),
        |i: int| crate::bytes::le32(out.subrange(pos + 12 + 4 * i, pos + 16 + 4 * i)),
    );
    assert forall|i: int| 0 <= i < n implies sdims[i] == t.dims[i] by {
        crate::snapshot::lemma_words_bytes_index(t.dims.map_values(|d: int| d as u32), i);
        crate::bytes::lemma_le32_round_trip(t.dims.map_values(|d: int| d as u32)[i]);
        assert(out[pos + 12 + 4 * i] == chunk[12 + 4 * i] && chunk[12 + 4 * i] == header[12 + 4
            * i] && header[12 + 4 * i] == hd[4 * i]);
        assert(out[pos + 12 + 4 * i + 1] == chunk[12 + 4 * i + 1] && chunk[12 + 4 * i + 1]
            == header[12 + 4 * i + 1] && header[12 + 4 * i + 1] == hd[4 * i + 1]);
        assert(out[pos + 12 + 4 * i + 2] == chunk[12 + 4 * i + 2] && chunk[12 + 4 * i + 2]
            == header[12 + 4 * i + 2] && header[12 + 4 * i + 2] == hd[4 * i + 2]);
        assert(out[pos + 12 + 4 * i + 3] == chunk[12 + 4 * i + 3] && chunk[12 + 4 * i + 3]
            == header[12 + 4 * i + 3] && header[12 + 4 * i + 3] == hd[4 * i + 3]);
        assert(out.subrange(pos + 12 + 4 * i, pos + 16 + 4 * i) =~= hd.subrange(
            4 * i,
            4 * i + 4,
        ));
    }
    assert(sdims =~= t.dims);

    // the name
    assert(out.subrange(pos + 12 + 4 * n, header_end) =~= t.name) by {
        assert forall|j: int|
            0 <= j < nl implies out.subrange(pos + 12 + 4 * n, header_end)[j] == t.name[j] by {
            assert(out[pos + 12 + 4 * n + j] == chunk[12 + 4 * n + j]);
            assert(chunk[12 + 4 * n + j] == header[12 + 4 * n + j]);
        }
    }

    // bounds for the parse's checks
    assert(pos + 12 <= out.len());
    assert(header_end <= out.len());
    assert(start + payload.len() == pos + chunk.len());
    assert(crate::container::element_type_of_code(crate::container::element_type_code(et))
        == Some(et));
}


/// The rewritten tensor section reads back record for record: parsing it at
/// its position yields one record per source record, with the source's name
/// and shape, and the source encoding under the skip rule or the target
/// encoding otherwise.
#[verifier::rlimit(100)]
#[verifier::spinoff_prover]
proof fn lemma_section_parses(
    data: Seq<u8>,
    ts: Seq<SpecTensorInfo>,
    k: nat,
    pos: int,
    tet: ElementType,
    pls: Seq<Seq<u8>>,
    p: nat,
    aligned: bool,
    out: Seq<u8>,
)
    requires
        0 <= pos,
        k <= ts.len(),
        spec_quantize_fold(data, ts, k, pos, tet, pls, p, aligned) is Ok,
        out.len() == pos + spec_quantize_fold(data, ts, k, pos, tet, pls, p, aligned)
            ->Ok_0.section.len(),
        out.subrange(pos, out.len() as int) == spec_quantize_fold(
            data,
            ts,
            k,
            pos,
            tet,
            pls,
            p,
            aligned,
        )->Ok_0.section,
        forall|i: int|
            0 <= i < ts.len() ==> {
                let t = #[trigger] ts[i];
                &&& 1 <= t.dims.len() <= 3
                &&& forall|j: int| 0 <= j < t.dims.len() ==> 0 <= #[trigger] t.dims[j] < 0x1_0000_0000
                &&& t.dims[0] % crate::container::spec_block_size(t.element_type) == 0
                &&& vstd::utf8::valid_utf8(t.name)
                &&& t.name.len() < 0x1_0000_0000
            },
        forall|i: int|
            0 <= i < ts.len() ==> 0 <= #[trigger] ts[i].start_offset && ts[i].start_offset
                + spec_payload_size(ts[i].dims, ts[i].element_type) <= data.len(),
    ensures
        ({
            let r = crate::container::spec_parse_tensors(out, pos, aligned);
            &&& r is Ok
            &&& r->Ok_0.len() == ts.len() - k
            &&& forall|i: int|
                0 <= i < r->Ok_0.len() ==> {
                    let rec = #[trigger] r->Ok_0[i];
                    let t = ts[k + i];
                    &&& rec.name == t.name
                    &&& rec.dims == t.dims
                    &&& rec.element_type == (if spec_skip_tensor(t.dims.len() as int, t.name) {
                        t.element_type
                    } else {
                        tet
                    })
                }
        }),
    decreases ts.len() - k,
{
    reveal_with_fuel(spec_quantize_fold, 2);
    let whole = spec_quantize_fold(data, ts, k, pos, tet, pls, p, aligned);
    if k == ts.len() {
        assert(out.len() == pos);
        assert(crate::container::spec_parse_tensors(out, pos, aligned) == Ok::<
            Seq<SpecTensorInfo>,
            FormatError,
        >(Seq::empty()));
    } else {
        let t = ts[k as int];
        let skip = spec_skip_tensor(t.dims.len() as int, t.name);
        let src = spec_payload_size(t.dims, t.element_type);
        let et = if skip {
            t.element_type
        } else {
            tet
        };
        let payload = if skip {
            data.subrange(t.start_offset, t.start_offset + src)
        } else {
            pls[p as int]
        };
        let p2: nat = if skip {
            p
        } else {
            p + 1
        };
        assert(src >= 0) by {
            vstd::arithmetic::div_mod::lemma_div_pos_is_pos(
                t.dims[0],
                crate::container::spec_block_size(t.element_type),
            );
            vstd::arithmetic::mul::lemma_mul_nonnegative(
                t.dims[0] / crate::container::spec_block_size(t.element_type),
                crate::container::spec_type_size(t.element_type),
            );
            if t.dims.len() >= 3 {
                vstd::arithmetic::mul::lemma_mul_nonnegative(t.dims[1], t.dims[2]);
            }
            vstd::arithmetic::mul::lemma_mul_nonnegative(
                (t.dims[0] / crate::container::spec_block_size(t.element_type))
                    * crate::container::spec_type_size(t.element_type),
                if t.dims.len() >= 2 {
                    t.dims[1] * if t.dims.len() >= 3 {
                        t.dims[2]
                    } else {
                        1
                    }
                } else {
                    1
                },
            );
        }
        assert(payload.len() == spec_payload_size(t.dims, et));
        let chunk = spec_record_chunk(t, et, payload, pos, aligned);
        let rest = spec_quantize_fold(data, ts, k + 1, pos + chunk.len(), tet, pls, p2, aligned);
        assert(whole->Ok_0.section == chunk + rest->Ok_0.section);
        assert forall|j: int| 0 <= j < whole->Ok_0.section.len() implies out[pos + j]
            == whole->Ok_0.section[j] by {
            assert(out.subrange(pos, out.len() as int)[j] == whole->Ok_0.section[j]);
        }
        assert(out.subrange(pos, pos + chunk.len()) =~= chunk) by {
            assert forall|j: int| 0 <= j < chunk.len() implies out.subrange(
                pos,
                pos + chunk.len(),
            )[j] == chunk[j] by {
                assert(out[pos + j] == whole->Ok_0.section[j]);
            }
        }
        lemma_record_chunk_parses(out, t, et, payload, pos, aligned);
        assert(out.subrange(pos + chunk.len(), out.len() as int) =~= rest->Ok_0.section) by {
            assert forall|j: int|
                0 <= j < rest->Ok_0.section.len() implies out.subrange(
                pos + chunk.len(),
                out.len() as int,
            )[j] == rest->Ok_0.section[j] by {
                assert(out[pos + chunk.len() + j] == whole->Ok_0.section[chunk.len() + j]);
            }
        }
        lemma_section_parses(data, ts, k + 1, pos + chunk.len(), tet, pls, p2, aligned, out);
        let header_end = pos + 12 + 4 * t.dims.len() + t.name.len();
        let start = if aligned {
            spec_align32(header_end)
        } else {
            header_end as int
        };
        let rec0 = SpecTensorInfo { name: t.name, dims: t.dims, element_type: et, start_offset: start };
        let recs_rest = crate::container::spec_parse_tensors(out, pos + chunk.len(), aligned)
            ->Ok_0;
        assert(crate::container::spec_parse_tensors(out, pos, aligned) == Ok::<
            Seq<SpecTensorInfo>,
            FormatError,
        >(seq![rec0] + recs_rest));
        let recs = seq![rec0] + recs_rest;
        assert forall|i: int| 0 <= i < recs.len() implies {
            let rec = #[trigger] recs[i];
            let tt = ts[k + i];
            &&& rec.name == tt.name
            &&& rec.dims == tt.dims
            &&& rec.element_type == (if spec_skip_tensor(tt.dims.len() as int, tt.name) {
                tt.element_type
            } else {
                tet
            })
        } by {
            if i == 0 {
                assert(recs[0] == rec0);
            } else {
                assert(recs[i] == recs_rest[i - 1]);
            }
        }
    }
}


/// The lossy quantization round trip, layout half: re-parsing a quantized
/// container succeeds and reproduces the source's container variant, its
/// hyperparameters with only the profile patched, its vocabulary byte for
/// byte, and its tensor index's names and shapes exactly — each tensor in its
/// source encoding under the skip rule, and in the target encoding otherwise.
/// (The per-element error bound of the re-encoded payloads belongs to the
/// caller's block codec.)
#[verifier::rlimit(100)]
#[verifier::spinoff_prover]
pub proof fn lemma_quantize_round_trip(data: Seq<u8>, target: FileType, payloads: Seq<Seq<u8>>)
    requires
        spec_quantize(data, target, payloads) is Ok,
    ensures
        ({
            let out = spec_quantize(data, target, payloads)->Ok_0.0;
            let sc = spec_parse_container(data)->Ok_0;
            let tet = spec_quantize_element_type(target)->Some_0;
            &&& spec_parse_container(out) is Ok
            &&& ({
                let sc2 = spec_parse_container(out)->Ok_0;
                &&& sc2.container_type == sc.container_type
                &&& sc2.hyperparameters == (Hyperparameters {
                    file_type: target,
                    ..sc.hyperparameters
                })
                &&& sc2.vocabulary == sc.vocabulary
                &&& sc2.tensor_index_start == sc.tensor_index_start
                &&& sc2.tensors.len() == sc.tensors.len()
                &&& forall|i: int|
                    0 <= i < sc2.tensors.len() ==> {
                        let rec = #[trigger] sc2.tensors[i];
                        let t = sc.tensors[i];
                        &&& rec.name == t.name
                        &&& rec.dims == t.dims
                        &&& rec.element_type == (if spec_skip_tensor(
                            t.dims.len() as int,
                            t.name,
                        ) {
                            t.element_type
                        } else {
                            tet
                        })
                    }
            })
        }),
{
    let out = spec_quantize(data, target, payloads)->Ok_0.0;
    let sc = spec_parse_container(data)->Ok_0;
    let tet = spec_quantize_element_type(target)->Some_0;
    let me: int = if sc.container_type == crate::container::ContainerType::Ggml {
        4
    } else {
        8
    };
    let hp2 = Hyperparameters { file_type: target, ..sc.hyperparameters };
    let tb = sc.tensor_index_start;
    let aligned = sc.container_type == crate::container::ContainerType::Ggjt;
    let a = data.subrange(0, me);
    let b = crate::hyperparameters::spec_hyperparameters_bytes(hp2);
    let c = data.subrange(me + 24, tb);
    let prefix = a + b + c;
    let section = spec_quantize(data, target, payloads)->Ok_0.1.section;
    let pls = payloads;

    lemma_quantize_preserves_header(data, target, payloads);
    crate::container::lemma_parse_vocab_advances(
        data,
        me + 24,
        sc.hyperparameters.n_vocab as nat,
    );
    crate::container::lemma_parse_tensors_records_wf(data, tb, aligned);
    crate::container::lemma_parse_tensors_in_file(data, tb, aligned);

    assert(out == prefix + section);
    assert(prefix.len() == tb);
    crate::snapshot::lemma_concat_sub_right(prefix, section);
    assert(out.subrange(tb, out.len() as int) == section);
    lemma_section_parses(data, sc.tensors, 0, tb, tet, pls, 0, aligned, out);
}

} // verus!
