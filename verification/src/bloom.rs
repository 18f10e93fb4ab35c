//! The BLOOM architecture: its tensor name schema, its model value, and the
//! per-call geometry of its forward graph.
//!
//! The forward pass itself (matrix multiplies, norms, softmax) runs on the
//! external tensor kernels; what this module owns and verifies is everything
//! the architecture decides: which tensors a file must supply, how the
//! key/value cache is addressed, the causal masking policy, the ALiBi bias
//! hook, and the scratch-memory growth heuristic.

use crate::container::{ElementType, SpecTensorInfo, TensorLoadInfo};
use crate::hyperparameters::Hyperparameters;
use crate::loader::{
    spec_find_parsed, spec_find_tensor, tensor_bound_to, tensor_bound_to_parsed, LoadError,
    LoadProgress, ModelParameters, Tensor, TensorLoader,
};
use crate::session::{
    kv_element_size, EvaluateOutputRequest, InferenceParameters, InferenceSession,
    InferenceSessionParameters, InferenceWithPromptParameters, KernelOutput, TokenBias,
};
use crate::vocabulary::Vocabulary;
use crate::TokenId;
use vstd::prelude::*;

verus! {

/// The decimal digit character of a value below ten.
pub open spec fn spec_digit_char(d: int) -> char {
    if d == 0 {
        '0'
    } else if d == 1 {
        '1'
    } else if d == 2 {
        '2'
    } else if d == 3 {
        '3'
    } else if d == 4 {
        '4'
    } else if d == 5 {
        '5'
    } else if d == 6 {
        '6'
    } else if d == 7 {
        '7'
    } else if d == 8 {
        '8'
    } else {
        '9'
    }
}

/// The decimal digits of a non-negative value, most significant first.
pub open spec fn spec_digits(n: int) -> Seq<char>
    decreases n,
    when n >= 0
{
    if n < 10 {
        seq![spec_digit_char(n)]
    } else {
        spec_digits(n / 10).push(spec_digit_char(n % 10))
    }
}

/// The string slice holding one decimal digit.
fn digit_str(d: usize) -> (r: &'static str)
    requires
        d < 10,
    ensures
        r@ == seq![spec_digit_char(d as int)],
{
    proof {
        reveal_strlit("0");
        reveal_strlit("1");
        reveal_strlit("2");
        reveal_strlit("3");
        reveal_strlit("4");
        reveal_strlit("5");
        reveal_strlit("6");
        reveal_strlit("7");
        reveal_strlit("8");
        reveal_strlit("9");
    }
    let r = match d {
        0 => "0",
        1 => "1",
        2 => "2",
        3 => "3",
        4 => "4",
        5 => "5",
        6 => "6",
        7 => "7",
        8 => "8",
        _ => "9",
    };
    proof {
        assert(r@ =~= seq![spec_digit_char(d as int)]);
    }
    r
}

/// The decimal spelling of a value.
pub fn decimal_string(n: usize) -> (r: String)
    ensures
        r@ == spec_digits(n as int),
    decreases n,
{
    if n < 10 {
        String::from_str(digit_str(n))
    } else {
        let mut s = decimal_string(n / 10);
        s.append(digit_str(n % 10));
        proof {
            assert(spec_digits(n as int / 10) + seq![spec_digit_char(n as int % 10)]
                =~= spec_digits(n as int / 10).push(spec_digit_char(n as int % 10)));
        }
        s
    }
}

/// The name of one of layer `l`'s tensors, for a given suffix.
pub open spec fn spec_layer_name(l: int, suffix: Seq<char>) -> Seq<char> {
    "layers."@ + spec_digits(l) + suffix
}

/// Whether all twelve tensors of layer `l` are in the index.
pub open spec fn bloom_layer_present(ts: Seq<TensorLoadInfo>, l: int) -> bool {
    &&& spec_find_tensor(ts, spec_layer_name(l, ".attention_norm.weight"@)) is Some
    &&& spec_find_tensor(ts, spec_layer_name(l, ".attention_norm.bias"@)) is Some
    &&& spec_find_tensor(ts, spec_layer_name(l, ".attention.query_key_value.weight"@)) is Some
    &&& spec_find_tensor(ts, spec_layer_name(l, ".attention.query_key_value.bias"@)) is Some
    &&& spec_find_tensor(ts, spec_layer_name(l, ".attention.wo.weight"@)) is Some
    &&& spec_find_tensor(ts, spec_layer_name(l, ".attention.wo.bias"@)) is Some
    &&& spec_find_tensor(ts, spec_layer_name(l, ".ffn_norm.weight"@)) is Some
    &&& spec_find_tensor(ts, spec_layer_name(l, ".ffn_norm.bias"@)) is Some
    &&& spec_find_tensor(ts, spec_layer_name(l, ".feed_forward.w1.weight"@)) is Some
    &&& spec_find_tensor(ts, spec_layer_name(l, ".feed_forward.w1.bias"@)) is Some
    &&& spec_find_tensor(ts, spec_layer_name(l, ".feed_forward.w2.weight"@)) is Some
    &&& spec_find_tensor(ts, spec_layer_name(l, ".feed_forward.w2.bias"@)) is Some
}

/// Whether every tensor the architecture requires is in the index.
pub open spec fn bloom_tensors_present(ts: Seq<TensorLoadInfo>, n_layer: int) -> bool {
    &&& spec_find_tensor(ts, "tok_embeddings.weight"@) is Some
    &&& spec_find_tensor(ts, "norm.weight"@) is Some
    &&& spec_find_tensor(ts, "norm.bias"@) is Some
    &&& spec_find_tensor(ts, "output_norm.weight"@) is Some
    &&& spec_find_tensor(ts, "output_norm.bias"@) is Some
    &&& spec_find_tensor(ts, "output.weight"@) is Some
    &&& forall|l: int| 0 <= l < n_layer ==> bloom_layer_present(ts, l)
}

/// The scratch budget of the first graph run.
pub const DEFAULT_SCRATCH_BYTES: usize = 0x4000_0000;

/// The scratch budget of one graph run over `n` positions: a generous default
/// until the per-token use has been measured, then one tenth above the
/// measured need whenever that need outgrows the default.
pub open spec fn spec_scratch_size(mem_per_token: int, n: int) -> int {
    if mem_per_token > 0 && mem_per_token * n > DEFAULT_SCRATCH_BYTES {
        mem_per_token * n + (mem_per_token * n) / 10
    } else {
        DEFAULT_SCRATCH_BYTES as int
    }
}

/// The scratch budget of one graph run over `n` positions.
pub fn scratch_buffer_size(mem_per_token: usize, n: usize) -> (r: usize)
    requires
        mem_per_token * n + (mem_per_token * n) / 10 <= usize::MAX,
    ensures
        r == spec_scratch_size(mem_per_token as int, n as int),
{
    let need = (mem_per_token as u128) * (n as u128);
    if mem_per_token > 0 && need > DEFAULT_SCRATCH_BYTES as u128 {
        (need + need / 10) as usize
    } else {
        DEFAULT_SCRATCH_BYTES
    }
}

/// The scratch budget always covers the measured need, so a second run over
/// the same number of positions never grows the buffer.
pub proof fn lemma_scratch_sufficient(mem_per_token: int, n: int)
    requires
        0 <= mem_per_token,
        0 <= n,
    ensures
        mem_per_token * n <= spec_scratch_size(mem_per_token, n),
{
    vstd::arithmetic::mul::lemma_mul_nonnegative(mem_per_token, n);
    vstd::arithmetic::div_mod::lemma_div_pos_is_pos(mem_per_token * n, 10);
    assert(mem_per_token == 0 ==> mem_per_token * n == 0) by (nonlinear_arith);
}

/// The causal masking policy: within one attention row `i` of a batch
/// evaluated at offset `n_past`, the score at cache position `j` is replaced
/// by negative infinity exactly when `j` lies beyond the row's own position.
pub open spec fn causal_masked(i: int, j: int, n_past: int) -> bool {
    j > i + n_past
}

/// Causal mask law: in row `i` of the scores (over the `n_past + n` cache
/// positions the batch attends to), the unmasked positions are exactly
/// `0 ..= i + n_past` — every later position is masked, and there are exactly
/// `i + n_past + 1` unmasked ones.
pub proof fn lemma_causal_mask(n_past: int, n: int, i: int)
    requires
        0 <= n_past,
        0 <= i < n,
    ensures
        forall|j: int|
            0 <= j < n_past + n ==> (#[trigger] causal_masked(i, j, n_past) <==> j > i + n_past),
        Set::new(|j: int| 0 <= j < n_past + n && !causal_masked(i, j, n_past)).finite(),
        Set::new(|j: int| 0 <= j < n_past + n && !causal_masked(i, j, n_past)).len() == i + n_past
            + 1,
{
    let unmasked = Set::new(|j: int| 0 <= j < n_past + n && !causal_masked(i, j, n_past));
    vstd::set_lib::lemma_int_range(0, i + n_past + 1);
    assert(unmasked =~= vstd::set_lib::set_int_range(0, i + n_past + 1));
}


/// One transformer layer's bound tensors.
pub struct Layer {
    /// Pre-attention norm scale.
    pub attention_norm: Tensor,
    /// Pre-attention norm bias.
    pub attention_norm_b: Tensor,
    /// Fused query/key/value projection.
    pub query_key_value: Tensor,
    /// Fused query/key/value projection bias.
    pub query_key_value_b: Tensor,
    /// Attention output projection.
    pub wo: Tensor,
    /// Attention output projection bias.
    pub wo_b: Tensor,
    /// Pre-feed-forward norm scale.
    pub ffn_norm: Tensor,
    /// Pre-feed-forward norm bias.
    pub ffn_norm_b: Tensor,
    /// First feed-forward projection.
    pub w1: Tensor,
    /// First feed-forward projection bias.
    pub w1_b: Tensor,
    /// Second feed-forward projection.
    pub w2: Tensor,
    /// Second feed-forward projection bias.
    pub w2_b: Tensor,
}

/// Whether every tensor of `layer` is bound to the record the index holds
/// for layer `l`'s name of it.
pub open spec fn layer_bound(
    layer: Layer,
    ts: Seq<TensorLoadInfo>,
    l: int,
    data: Seq<u8>,
    mmap: bool,
) -> bool {
    &&& tensor_bound_to(
        layer.attention_norm,
        spec_find_tensor(ts, spec_layer_name(l, ".attention_norm.weight"@))->Some_0,
        data,
        mmap,
    )
    &&& tensor_bound_to(
        layer.attention_norm_b,
        spec_find_tensor(ts, spec_layer_name(l, ".attention_norm.bias"@))->Some_0,
        data,
        mmap,
    )
    &&& tensor_bound_to(
        layer.query_key_value,
        spec_find_tensor(ts, spec_layer_name(l, ".attention.query_key_value.weight"@))->Some_0,
        data,
        mmap,
    )
    &&& tensor_bound_to(
        layer.query_key_value_b,
        spec_find_tensor(ts, spec_layer_name(l, ".attention.query_key_value.bias"@))->Some_0,
        data,
        mmap,
    )
    &&& tensor_bound_to(
        layer.wo,
        spec_find_tensor(ts, spec_layer_name(l, ".attention.wo.weight"@))->Some_0,
        data,
        mmap,
    )
    &&& tensor_bound_to(
        layer.wo_b,
        spec_find_tensor(ts, spec_layer_name(l, ".attention.wo.bias"@))->Some_0,
        data,
        mmap,
    )
    &&& tensor_bound_to(
        layer.ffn_norm,
        spec_find_tensor(ts, spec_layer_name(l, ".ffn_norm.weight"@))->Some_0,
        data,
        mmap,
    )
    &&& tensor_bound_to(
        layer.ffn_norm_b,
        spec_find_tensor(ts, spec_layer_name(l, ".ffn_norm.bias"@))->Some_0,
        data,
        mmap,
    )
    &&& tensor_bound_to(
        layer.w1,
        spec_find_tensor(ts, spec_layer_name(l, ".feed_forward.w1.weight"@))->Some_0,
        data,
        mmap,
    )
    &&& tensor_bound_to(
        layer.w1_b,
        spec_find_tensor(ts, spec_layer_name(l, ".feed_forward.w1.bias"@))->Some_0,
        data,
        mmap,
    )
    &&& tensor_bound_to(
        layer.w2,
        spec_find_tensor(ts, spec_layer_name(l, ".feed_forward.w2.weight"@))->Some_0,
        data,
        mmap,
    )
    &&& tensor_bound_to(
        layer.w2_b,
        spec_find_tensor(ts, spec_layer_name(l, ".feed_forward.w2.bias"@))->Some_0,
        data,
        mmap,
    )
}

/// The BLOOM model: immutable after construction.
pub struct Bloom {
    /// The model's shape constants.
    pub hyperparameters: Hyperparameters,
    /// Context window length for sessions of this model.
    pub n_context_tokens: usize,
    /// The model's vocabulary.
    pub vocabulary: Vocabulary,
    /// Token embedding table.
    pub tok_embeddings: Tensor,
    /// Word-embedding norm scale.
    pub norm: Tensor,
    /// Word-embedding norm bias.
    pub norm_b: Tensor,
    /// Final norm scale.
    pub output_norm: Tensor,
    /// Final norm bias.
    pub output_norm_b: Tensor,
    /// Output projection.
    pub output: Tensor,
    /// The transformer layers.
    pub layers: Vec<Layer>,
    /// Generation parameters handed to new inference runs.
    pub inference_params: InferenceParameters,
    /// Prompt-loop parameters handed to new inference runs.
    pub inference_prompt_params: InferenceWithPromptParameters,
}

impl Bloom {
    /// Builds the model from a tensor index: binds the embedding, norm and
    /// output tensors and all twelve tensors of each layer.  Succeeds exactly
    /// when every required tensor name is in the index; the first missing
    /// name is reported as unknown.
    #[verifier::loop_isolation(false)]
    #[verifier::rlimit(100)]
    pub fn new(
        hyperparameters: Hyperparameters,
        params: ModelParameters,
        vocabulary: Vocabulary,
        tensor_loader: TensorLoader<'_>,
    ) -> (r: Result<(Bloom, Vec<LoadProgress>), LoadError>)
        requires
            tensor_loader.wf(),
        ensures
            r is Ok <==> bloom_tensors_present(
                tensor_loader.tensors@,
                hyperparameters.n_layer as int,
            ),
            r is Err ==> r->Err_0 matches LoadError::UnknownTensor { .. },
            r is Ok ==> r->Ok_0.1@ == tensor_loader.events@ + crate::loader::spec_bind_events(
                tensor_loader.n_loaded as int,
                tensor_loader.tensors@.len() as int,
                (6 + 12 * hyperparameters.n_layer) as nat,
            ),
            r is Ok ==> ({
                let m = r->Ok_0.0;
                let ts = tensor_loader.tensors@;
                let data = tensor_loader.data@;
                let mmap = tensor_loader.use_mmap;
                &&& m.hyperparameters == hyperparameters
                &&& m.n_context_tokens == params.n_context_tokens
                &&& m.vocabulary == vocabulary
                &&& m.layers@.len() == hyperparameters.n_layer
                &&& tensor_bound_to(
                    m.tok_embeddings,
                    spec_find_tensor(ts, "tok_embeddings.weight"@)->Some_0,
                    data,
                    mmap,
                )
                &&& tensor_bound_to(m.norm, spec_find_tensor(ts, "norm.weight"@)->Some_0, data, mmap)
                &&& tensor_bound_to(m.norm_b, spec_find_tensor(ts, "norm.bias"@)->Some_0, data, mmap)
                &&& tensor_bound_to(
                    m.output_norm,
                    spec_find_tensor(ts, "output_norm.weight"@)->Some_0,
                    data,
                    mmap,
                )
                &&& tensor_bound_to(
                    m.output_norm_b,
                    spec_find_tensor(ts, "output_norm.bias"@)->Some_0,
                    data,
                    mmap,
                )
                &&& tensor_bound_to(
                    m.output,
                    spec_find_tensor(ts, "output.weight"@)->Some_0,
                    data,
                    mmap,
                )
                &&& forall|l: int|
                    0 <= l < hyperparameters.n_layer ==> #[trigger] layer_bound(
                        m.layers@[l],
                        ts,
                        l,
                        data,
                        mmap,
                    )
            }),
    {
        let ghost n0 = tensor_loader.n_loaded as int;
        let ghost ev0 = tensor_loader.events@;
        let ghost total = tensor_loader.tensors@.len() as int;
        let mut tl = tensor_loader;
        proof {
            assert(ev0 + crate::loader::spec_bind_events(n0, total, 0) =~= ev0);
        }
        let tok_embeddings = match tl.load("tok_embeddings.weight") {
            Ok(t) => t,
            Err(e) => {
                return Err(e);
            },
        };
        let norm = match tl.load("norm.weight") {
            Ok(t) => t,
            Err(e) => {
                return Err(e);
            },
        };
        let norm_b = match tl.load("norm.bias") {
            Ok(t) => t,
            Err(e) => {
                return Err(e);
            },
        };
        let output_norm = match tl.load("output_norm.weight") {
            Ok(t) => t,
            Err(e) => {
                return Err(e);
            },
        };
        let output_norm_b = match tl.load("output_norm.bias") {
            Ok(t) => t,
            Err(e) => {
                return Err(e);
            },
        };
        let output = match tl.load("output.weight") {
            Ok(t) => t,
            Err(e) => {
                return Err(e);
            },
        };
        proof {
            crate::loader::lemma_bind_events_push(n0, total, 0);
            crate::loader::lemma_bind_events_push(n0, total, 1);
            crate::loader::lemma_bind_events_push(n0, total, 2);
            crate::loader::lemma_bind_events_push(n0, total, 3);
            crate::loader::lemma_bind_events_push(n0, total, 4);
            crate::loader::lemma_bind_events_push(n0, total, 5);
            assert(tl.events@ == ev0 + crate::loader::spec_bind_events(n0, total, 6));
        }
        let mut layers: Vec<Layer> = Vec::new();
        let mut i: usize = 0;
        while i < hyperparameters.n_layer
            invariant
                i <= hyperparameters.n_layer,
                layers@.len() == i,
                tl.wf(),
                tl.data == tensor_loader.data,
                tl.path == tensor_loader.path,
                tl.tensors == tensor_loader.tensors,
                tl.use_mmap == tensor_loader.use_mmap,
                tl.n_loaded == crate::loader::spec_loaded_counter(n0, 6 + 12 * i),
                tl.events@ == ev0 + crate::loader::spec_bind_events(
                    n0,
                    total,
                    (6 + 12 * i) as nat,
                ),
                forall|l: int|
                    0 <= l < i ==> #[trigger] layer_bound(
                        layers@[l],
                        tensor_loader.tensors@,
                        l,
                        tensor_loader.data@,
                        tensor_loader.use_mmap,
                    ),
                forall|l: int| 0 <= l < i ==> bloom_layer_present(tensor_loader.tensors@, l),
            decreases hyperparameters.n_layer - i,
        {
            proof {
                if bloom_tensors_present(tensor_loader.tensors@, hyperparameters.n_layer as int) {
                    assert(bloom_layer_present(tensor_loader.tensors@, i as int));
                }
            }
            let num = decimal_string(i);
            let mut prefix = String::from_str("layers.");
            prefix.append(num.as_str());
            let mut n01 = String::from_str(prefix.as_str());
            n01.append(".attention_norm.weight");
            let mut n02 = String::from_str(prefix.as_str());
            n02.append(".attention_norm.bias");
            let mut n03 = String::from_str(prefix.as_str());
            n03.append(".attention.query_key_value.weight");
            let mut n04 = String::from_str(prefix.as_str());
            n04.append(".attention.query_key_value.bias");
            let mut n05 = String::from_str(prefix.as_str());
            n05.append(".attention.wo.weight");
            let mut n06 = String::from_str(prefix.as_str());
            n06.append(".attention.wo.bias");
            let mut n07 = String::from_str(prefix.as_str());
            n07.append(".ffn_norm.weight");
            let mut n08 = String::from_str(prefix.as_str());
            n08.append(".ffn_norm.bias");
            let mut n09 = String::from_str(prefix.as_str());
            n09.append(".feed_forward.w1.weight");
            let mut n10 = String::from_str(prefix.as_str());
            n10.append(".feed_forward.w1.bias");
            let mut n11 = String::from_str(prefix.as_str());
            n11.append(".feed_forward.w2.weight");
            let mut n12 = String::from_str(prefix.as_str());
            n12.append(".feed_forward.w2.bias");
            let attention_norm = match tl.load(n01.as_str()) {
                Ok(t) => t,
                Err(e) => {
                    return Err(e);
                },
            };
            let attention_norm_b = match tl.load(n02.as_str()) {
                Ok(t) => t,
                Err(e) => {
                    return Err(e);
                },
            };
            let query_key_value = match tl.load(n03.as_str()) {
                Ok(t) => t,
                Err(e) => {
                    return Err(e);
                },
            };
            let query_key_value_b = match tl.load(n04.as_str()) {
                Ok(t) => t,
                Err(e) => {
                    return Err(e);
                },
            };
            let wo = match tl.load(n05.as_str()) {
                Ok(t) => t,
                Err(e) => {
                    return Err(e);
                },
            };
            let wo_b = match tl.load(n06.as_str()) {
                Ok(t) => t,
                Err(e) => {
                    return Err(e);
                },
            };
            let ffn_norm = match tl.load(n07.as_str()) {
                Ok(t) => t,
                Err(e) => {
                    return Err(e);
                },
            };
            let ffn_norm_b = match tl.load(n08.as_str()) {
                Ok(t) => t,
                Err(e) => {
                    return Err(e);
                },
            };
            let w1 = match tl.load(n09.as_str()) {
                Ok(t) => t,
                Err(e) => {
                    return Err(e);
                },
            };
            let w1_b = match tl.load(n10.as_str()) {
                Ok(t) => t,
                Err(e) => {
                    return Err(e);
                },
            };
            let w2 = match tl.load(n11.as_str()) {
                Ok(t) => t,
                Err(e) => {
                    return Err(e);
                },
            };
            let w2_b = match tl.load(n12.as_str()) {
                Ok(t) => t,
                Err(e) => {
                    return Err(e);
                },
            };
            proof {
                crate::loader::lemma_bind_events_push(n0, total, (6 + 12 * i) as nat);
                crate::loader::lemma_bind_events_push(n0, total, (7 + 12 * i) as nat);
                crate::loader::lemma_bind_events_push(n0, total, (8 + 12 * i) as nat);
                crate::loader::lemma_bind_events_push(n0, total, (9 + 12 * i) as nat);
                crate::loader::lemma_bind_events_push(n0, total, (10 + 12 * i) as nat);
                crate::loader::lemma_bind_events_push(n0, total, (11 + 12 * i) as nat);
                crate::loader::lemma_bind_events_push(n0, total, (12 + 12 * i) as nat);
                crate::loader::lemma_bind_events_push(n0, total, (13 + 12 * i) as nat);
                crate::loader::lemma_bind_events_push(n0, total, (14 + 12 * i) as nat);
                crate::loader::lemma_bind_events_push(n0, total, (15 + 12 * i) as nat);
                crate::loader::lemma_bind_events_push(n0, total, (16 + 12 * i) as nat);
                crate::loader::lemma_bind_events_push(n0, total, (17 + 12 * i) as nat);
            }
            let layer = Layer {
                attention_norm,
                attention_norm_b,
                query_key_value,
                query_key_value_b,
                wo,
                wo_b,
                ffn_norm,
                ffn_norm_b,
                w1,
                w1_b,
                w2,
                w2_b,
            };
            layers.push(layer);
            i = i + 1;
        }
        let events = tl.finish();
        Ok(
            (
                Bloom {
                    hyperparameters,
                    n_context_tokens: params.n_context_tokens,
                    vocabulary,
                    tok_embeddings,
                    norm,
                    norm_b,
                    output_norm,
                    output_norm_b,
                    output,
                    layers,
                    inference_params: params.inference_params,
                    inference_prompt_params: params.inference_prompt_params,
                },
                events,
            ),
        )
    }
}


/// The cache addressing of one layer in one graph run, in bytes: where the
/// batch's keys and values are written, and where the layer's cache views
/// start.
pub struct LayerGeometry {
    /// Destination of the batch's key rows:
    /// `(l * n_context + n_past) * n_embd * element_size`.
    pub k_cache_write_offset: usize,
    /// Destination of the batch's value rows.
    pub v_cache_write_offset: usize,
    /// Start of the layer's key-cache view: `l * n_context * n_embd *
    /// element_size`.
    pub k_view_offset: usize,
    /// Start of the layer's value-cache view.
    pub v_view_offset: usize,
}

/// The integer geometry of one forward graph run: batch size, positions, head
/// split, attention extent, scratch budget, and per-layer cache addressing.
/// The floating-point work (projections, ALiBi bias, softmax) is carried out
/// by the tensor kernels over exactly these extents.
pub struct GraphPlan {
    /// Degree of parallelism handed to the kernels.
    pub n_threads: usize,
    /// Number of positions this run evaluates.
    pub n: usize,
    /// Positions already in the cache when the run starts.
    pub n_past: usize,
    /// Number of attention heads.
    pub n_head: usize,
    /// Width of one head: `n_embd / n_head`.
    pub head_dim: usize,
    /// How many cache positions each row attends to: `n_past + n`.  The
    /// causal mask then zeroes row `i`'s weights beyond position
    /// `i + n_past` (see `causal_masked`).
    pub attention_rows: usize,
    /// Scratch budget of this run (see `spec_scratch_size`).
    pub scratch_bytes: usize,
    /// Cache addressing per layer.
    pub layers: Vec<LayerGeometry>,
}

impl Bloom {
    /// Loads a BLOOM model from the bytes of a single-part container file;
    /// see `crate::loader::load`, which this forwards to.
    pub fn load(
        data: &Vec<u8>,
        path: String,
        sibling_paths: Vec<String>,
        params: ModelParameters,
    ) -> (r: Result<(Bloom, Vec<LoadProgress>), LoadError>)
        ensures
            sibling_paths@.len() != 1 ==> r == Err::<(Bloom, Vec<LoadProgress>), LoadError>(
                LoadError::MultipartNotSupported { paths: sibling_paths },
            ),
            sibling_paths@.len() == 1 ==> match crate::container::spec_parse_container(data@) {
                Err(e) => r == Err::<(Bloom, Vec<LoadProgress>), LoadError>(
                    crate::loader::spec_load_error_of(e, path),
                ),
                Ok(sc) => {
                    &&& (r is Ok <==> bloom_tensors_present_parsed(
                        sc.tensors,
                        sc.hyperparameters.n_layer as int,
                    ))
                    &&& (r is Err ==> r->Err_0 matches LoadError::UnknownTensor { .. })
                    &&& (r is Ok ==> crate::loader::loaded_model_matches(
                        r->Ok_0.0,
                        sc,
                        params,
                        data@,
                    ))
                    &&& (r is Ok ==> r->Ok_0.1@ == seq![
                        LoadProgress::HyperparametersLoaded,
                        LoadProgress::ContextSize {
                            bytes: crate::loader::spec_arena_size(
                                sc.tensors,
                                params.prefer_mmap && sc.container_type
                                    == crate::container::ContainerType::Ggjt,
                            ) as usize,
                        },
                    ] + crate::loader::spec_bind_events(
                        0,
                        sc.tensors.len() as int,
                        (6 + 12 * sc.hyperparameters.n_layer) as nat,
                    ) + seq![
                        LoadProgress::Loaded {
                            file_size: data@.len() as u64,
                            tensor_count: sc.tensors.len() as usize,
                        },
                    ])
                },
            },
    {
        crate::loader::load(data, path, sibling_paths, params)
    }

    /// Whether a session has this model's shape.
    pub open spec fn session_shape_ok(&self, session: InferenceSession) -> bool {
        &&& session.n_ctx == self.n_context_tokens
        &&& session.n_layer == self.hyperparameters.n_layer
        &&& session.n_embd == self.hyperparameters.n_embd
        &&& session.n_vocab == self.hyperparameters.n_vocab
    }

    /// Builds the geometry of one graph run and commits the run's results to
    /// the session: the batch's key and value rows land in the caches at
    /// positions `n_past .. n_past + n` of every layer (nothing else moves),
    /// the history grows by the batch, the last position's logits are kept,
    /// the per-token scratch measure is re-measured, and any requested output
    /// sink is filled.
    #[verifier::loop_isolation(false)]
    #[verifier::rlimit(100)]
    pub fn evaluate(
        &self,
        session: &mut InferenceSession,
        params: &InferenceParameters,
        input_tokens: &Vec<TokenId>,
        out: &KernelOutput,
        output_request: &mut EvaluateOutputRequest,
    ) -> (plan: GraphPlan)
        requires
            old(session).wf(),
            self.session_shape_ok(*old(session)),
            self.hyperparameters.n_head >= 1,
            old(session).n_past + input_tokens@.len() <= old(session).n_ctx,
            old(session).kernel_output_wf(*out, input_tokens@.len() as int),
            old(session).mem_per_token * input_tokens@.len() + (old(session).mem_per_token
                * input_tokens@.len()) / 10 <= usize::MAX,
        ensures
            final(session).wf(),
            final(session).n_past == old(session).n_past + input_tokens@.len(),
            final(session).tokens@ == old(session).tokens@ + input_tokens@,
            self.session_shape_ok(*final(session)),
            final(session).params == old(session).params,
            input_tokens@.len() > 0 ==> final(session).last_logits@ == out.logits@.subrange(
                (input_tokens@.len() - 1) * old(session).n_vocab,
                input_tokens@.len() * old(session).n_vocab,
            ),
            input_tokens@.len() == 0 ==> final(session).last_logits@ == old(
                session,
            ).last_logits@,
            input_tokens@.len() > 0 ==> final(session).mem_per_token == out.used_bytes as int
                / input_tokens@.len() as int,
            input_tokens@.len() == 0 ==> final(session).mem_per_token == old(
                session,
            ).mem_per_token,
            input_tokens@.len() > 0 ==> final(session).memory_k@ == crate::session::spec_write_rows(
                old(session).memory_k@,
                out.k_rows@,
                old(session).n_layer as nat,
                old(session).n_past as int,
                input_tokens@.len() as int,
                old(session).k_row_bytes(),
                old(session).n_ctx * old(session).k_row_bytes(),
            ),
            input_tokens@.len() > 0 ==> final(session).memory_v@ == crate::session::spec_write_rows(
                old(session).memory_v@,
                out.v_rows@,
                old(session).n_layer as nat,
                old(session).n_past as int,
                input_tokens@.len() as int,
                old(session).v_row_bytes(),
                old(session).n_ctx * old(session).v_row_bytes(),
            ),
            input_tokens@.len() == 0 ==> final(session).memory_k@ == old(session).memory_k@
                && final(session).memory_v@ == old(session).memory_v@,
            old(output_request).all_logits is Some ==> final(output_request).all_logits is Some
                && final(output_request).all_logits->Some_0@ == out.logits@,
            old(output_request).all_logits is None ==> final(output_request).all_logits is None,
            old(output_request).embeddings is Some ==> final(output_request).embeddings is Some
                && final(output_request).embeddings->Some_0@ == out.embeddings@,
            old(output_request).embeddings is None ==> final(output_request).embeddings is None,
            plan.n == input_tokens@.len(),
            plan.n_past == old(session).n_past,
            plan.n_threads == params.n_threads,
            plan.n_head == self.hyperparameters.n_head,
            plan.head_dim == self.hyperparameters.n_embd as int / self.hyperparameters.n_head as int,
            plan.attention_rows == old(session).n_past + input_tokens@.len(),
            plan.scratch_bytes == spec_scratch_size(
                old(session).mem_per_token as int,
                input_tokens@.len() as int,
            ),
            plan.layers@.len() == self.hyperparameters.n_layer,
            forall|l: int|
                0 <= l < plan.layers@.len() ==> {
                    let g = #[trigger] plan.layers@[l];
                    &&& g.k_cache_write_offset == (l * old(session).n_ctx + old(session).n_past)
                        * old(session).k_row_bytes()
                    &&& g.v_cache_write_offset == (l * old(session).n_ctx + old(session).n_past)
                        * old(session).v_row_bytes()
                    &&& g.k_view_offset == l * (old(session).n_ctx * old(session).k_row_bytes())
                    &&& g.v_view_offset == l * (old(session).n_ctx * old(session).v_row_bytes())
                },
    {
        let n = input_tokens.len();
        let scratch = scratch_buffer_size(session.mem_per_token, n);
        proof {
            assert(session.n_embd * kv_element_size(session.params.memory_k_type) <= session.n_embd
                * 4 && session.n_embd * kv_element_size(session.params.memory_v_type)
                <= session.n_embd * 4) by (nonlinear_arith)
                requires
                    session.n_embd >= 0 && 0 <= kv_element_size(session.params.memory_k_type) <= 4
                        && 0 <= kv_element_size(session.params.memory_v_type) <= 4,
            ;
        }
        let row_k = session.n_embd * session.params.memory_k_type.element_size();
        let row_v = session.n_embd * session.params.memory_v_type.element_size();
        let cap_k = session.memory_k.len();
        let cap_v = session.memory_v.len();
        let mut layers: Vec<LayerGeometry> = Vec::new();
        let mut l: usize = 0;
        while l < session.n_layer
            invariant
                l <= session.n_layer,
                layers@.len() == l,
                forall|j: int|
                    0 <= j < l ==> {
                        let g = #[trigger] layers@[j];
                        &&& g.k_cache_write_offset == (j * session.n_ctx + session.n_past) * row_k
                        &&& g.v_cache_write_offset == (j * session.n_ctx + session.n_past) * row_v
                        &&& g.k_view_offset == j * (session.n_ctx * row_k)
                        &&& g.v_view_offset == j * (session.n_ctx * row_v)
                    },
            decreases session.n_layer - l,
        {
            proof {
                crate::session::lemma_layer_bounds(
                    l as int,
                    session.n_layer as int,
                    session.n_ctx as int,
                    session.n_past as int,
                    n as int,
                    row_k as int,
                );
                crate::session::lemma_layer_bounds(
                    l as int,
                    session.n_layer as int,
                    session.n_ctx as int,
                    session.n_past as int,
                    n as int,
                    row_v as int,
                );
                assert((session.n_layer * session.n_ctx) * row_k == session.n_layer * session.n_ctx
                    * row_k && (session.n_layer * session.n_ctx) * row_v == session.n_layer
                    * session.n_ctx * row_v) by (nonlinear_arith);
                assert(session.n_ctx * row_k <= (session.n_layer * session.n_ctx) * row_k
                    && session.n_ctx * row_v <= (session.n_layer * session.n_ctx) * row_v)
                    by (nonlinear_arith)
                    requires
                        session.n_layer >= 1 && session.n_ctx >= 0 && row_k >= 0 && row_v >= 0,
                ;
                assert(l * (session.n_ctx * row_k) <= (l * session.n_ctx + session.n_past) * row_k
                    && l * (session.n_ctx * row_v) <= (l * session.n_ctx + session.n_past) * row_v)
                    by (nonlinear_arith)
                    requires
                        l >= 0 && session.n_ctx >= 0 && session.n_past >= 0 && row_k >= 0 && row_v
                            >= 0,
                ;
            }
            let g = LayerGeometry {
                k_cache_write_offset: (l * session.n_ctx + session.n_past) * row_k,
                v_cache_write_offset: (l * session.n_ctx + session.n_past) * row_v,
                k_view_offset: l * (session.n_ctx * row_k),
                v_view_offset: l * (session.n_ctx * row_v),
            };
            layers.push(g);
            l = l + 1;
        }
        let plan = GraphPlan {
            n_threads: params.n_threads,
            n,
            n_past: session.n_past,
            n_head: self.hyperparameters.n_head,
            head_dim: self.hyperparameters.n_embd / self.hyperparameters.n_head,
            attention_rows: session.n_past + n,
            scratch_bytes: scratch,
            layers,
        };
        session.evaluate(input_tokens, out, output_request);
        plan
    }

    /// Opens a fresh session against this model: empty history, and caches
    /// and logits zero-initialized.
    pub fn start_session(&self, params: InferenceSessionParameters) -> (r: InferenceSession)
        requires
            self.hyperparameters.n_layer * self.n_context_tokens * self.hyperparameters.n_embd * 4
                <= usize::MAX,
            self.hyperparameters.n_layer * self.n_context_tokens <= usize::MAX,
            self.hyperparameters.n_embd * 4 <= usize::MAX,
        ensures
            r.wf(),
            r.params == params,
            self.session_shape_ok(r),
            r.n_past == 0,
            r.tokens@.len() == 0,
            r.mem_per_token == 0,
            r.last_logits@.len() == self.hyperparameters.n_vocab,
            forall|i: int| 0 <= i < r.last_logits@.len() ==> #[trigger] r.last_logits@[i] == 0,
            r.memory_k@.len() == self.hyperparameters.n_layer * self.n_context_tokens
                * r.k_row_bytes(),
            r.memory_v@.len() == self.hyperparameters.n_layer * self.n_context_tokens
                * r.v_row_bytes(),
            forall|i: int| 0 <= i < r.memory_k@.len() ==> #[trigger] r.memory_k@[i] == 0,
            forall|i: int| 0 <= i < r.memory_v@.len() ==> #[trigger] r.memory_v@[i] == 0,
    {
        InferenceSession::new(
            params,
            self.n_context_tokens,
            self.hyperparameters.n_layer,
            self.hyperparameters.n_embd,
            self.hyperparameters.n_vocab,
        )
    }

    /// The vocabulary used by this model.
    pub fn vocabulary(&self) -> (r: &Vocabulary)
        ensures
            r == &self.vocabulary,
    {
        &self.vocabulary
    }

    /// The model's context window length.
    pub fn n_context_tokens(&self) -> (r: usize)
        ensures
            r == self.n_context_tokens,
    {
        self.n_context_tokens
    }

    /// The end-of-text token of this architecture.
    pub fn eot_token_id(&self) -> (r: TokenId)
        ensures
            r == 0,
    {
        0
    }

    /// The generation parameters the model was loaded with.
    pub fn inference_params(&self) -> (r: &InferenceParameters)
        ensures
            r == &self.inference_params,
    {
        &self.inference_params
    }

    /// The prompt-loop parameters the model was loaded with.
    pub fn inference_prompt_params(&self) -> (r: InferenceWithPromptParameters)
        ensures
            r == self.inference_prompt_params,
    {
        self.inference_prompt_params
    }
}


/// Whether all twelve tensors of layer `l` are in the parsed index, by raw
/// name bytes.
pub open spec fn bloom_layer_present_parsed(
    ts: Seq<crate::container::SpecTensorInfo>,
    l: int,
) -> bool {
    &&& crate::loader::spec_has_name(ts, spec_layer_name(l, ".attention_norm.weight"@))
    &&& crate::loader::spec_has_name(ts, spec_layer_name(l, ".attention_norm.bias"@))
    &&& crate::loader::spec_has_name(ts, spec_layer_name(l, ".attention.query_key_value.weight"@))
    &&& crate::loader::spec_has_name(ts, spec_layer_name(l, ".attention.query_key_value.bias"@))
    &&& crate::loader::spec_has_name(ts, spec_layer_name(l, ".attention.wo.weight"@))
    &&& crate::loader::spec_has_name(ts, spec_layer_name(l, ".attention.wo.bias"@))
    &&& crate::loader::spec_has_name(ts, spec_layer_name(l, ".ffn_norm.weight"@))
    &&& crate::loader::spec_has_name(ts, spec_layer_name(l, ".ffn_norm.bias"@))
    &&& crate::loader::spec_has_name(ts, spec_layer_name(l, ".feed_forward.w1.weight"@))
    &&& crate::loader::spec_has_name(ts, spec_layer_name(l, ".feed_forward.w1.bias"@))
    &&& crate::loader::spec_has_name(ts, spec_layer_name(l, ".feed_forward.w2.weight"@))
    &&& crate::loader::spec_has_name(ts, spec_layer_name(l, ".feed_forward.w2.bias"@))
}

/// Whether every tensor the architecture requires is in the parsed index, by
/// raw name bytes.
pub open spec fn bloom_tensors_present_parsed(
    ts: Seq<crate::container::SpecTensorInfo>,
    n_layer: int,
) -> bool {
    &&& crate::loader::spec_has_name(ts, "tok_embeddings.weight"@)
    &&& crate::loader::spec_has_name(ts, "norm.weight"@)
    &&& crate::loader::spec_has_name(ts, "norm.bias"@)
    &&& crate::loader::spec_has_name(ts, "output_norm.weight"@)
    &&& crate::loader::spec_has_name(ts, "output_norm.bias"@)
    &&& crate::loader::spec_has_name(ts, "output.weight"@)
    &&& forall|l: int| 0 <= l < n_layer ==> bloom_layer_present_parsed(ts, l)
}

/// The binder's view of presence agrees with the parsed index's: the model
/// can be built exactly when the file names every required tensor.
pub proof fn lemma_bloom_presence_lift(
    hts: Seq<TensorLoadInfo>,
    sts: Seq<crate::container::SpecTensorInfo>,
    n_layer: int,
)
    requires
        hts.len() == sts.len(),
        forall|i: int|
            0 <= i < hts.len() ==> crate::container::tensor_info_matches(
                #[trigger] hts[i],
                sts[i],
            ),
    ensures
        bloom_tensors_present(hts, n_layer) <==> bloom_tensors_present_parsed(sts, n_layer),
{
    crate::loader::lemma_find_matches_parse(hts, sts, "tok_embeddings.weight"@);
    crate::loader::lemma_find_matches_parse(hts, sts, "norm.weight"@);
    crate::loader::lemma_find_matches_parse(hts, sts, "norm.bias"@);
    crate::loader::lemma_find_matches_parse(hts, sts, "output_norm.weight"@);
    crate::loader::lemma_find_matches_parse(hts, sts, "output_norm.bias"@);
    crate::loader::lemma_find_matches_parse(hts, sts, "output.weight"@);
    assert forall|l: int|
        0 <= l < n_layer implies (bloom_layer_present(hts, l) <==> bloom_layer_present_parsed(
        sts,
        l,
    )) by {
        crate::loader::lemma_find_matches_parse(hts, sts, spec_layer_name(l, ".attention_norm.weight"@));
        crate::loader::lemma_find_matches_parse(hts, sts, spec_layer_name(l, ".attention_norm.bias"@));
        crate::loader::lemma_find_matches_parse(hts, sts, spec_layer_name(l, ".attention.query_key_value.weight"@));
        crate::loader::lemma_find_matches_parse(hts, sts, spec_layer_name(l, ".attention.query_key_value.bias"@));
        crate::loader::lemma_find_matches_parse(hts, sts, spec_layer_name(l, ".attention.wo.weight"@));
        crate::loader::lemma_find_matches_parse(hts, sts, spec_layer_name(l, ".attention.wo.bias"@));
        crate::loader::lemma_find_matches_parse(hts, sts, spec_layer_name(l, ".ffn_norm.weight"@));
        crate::loader::lemma_find_matches_parse(hts, sts, spec_layer_name(l, ".ffn_norm.bias"@));
        crate::loader::lemma_find_matches_parse(hts, sts, spec_layer_name(l, ".feed_forward.w1.weight"@));
        crate::loader::lemma_find_matches_parse(hts, sts, spec_layer_name(l, ".feed_forward.w1.bias"@));
        crate::loader::lemma_find_matches_parse(hts, sts, spec_layer_name(l, ".feed_forward.w2.weight"@));
        crate::loader::lemma_find_matches_parse(hts, sts, spec_layer_name(l, ".feed_forward.w2.bias"@));
    }
}


/// Whether every tensor of `layer` is bound to the parsed record the index
/// holds for layer `l`'s name of it.
pub open spec fn layer_bound_parsed(
    layer: Layer,
    ts: Seq<SpecTensorInfo>,
    l: int,
    data: Seq<u8>,
    mmap: bool,
) -> bool {
    &&& tensor_bound_to_parsed(
        layer.attention_norm,
        spec_find_parsed(ts, spec_layer_name(l, ".attention_norm.weight"@))->Some_0,
        data,
        mmap,
    )
    &&& tensor_bound_to_parsed(
        layer.attention_norm_b,
        spec_find_parsed(ts, spec_layer_name(l, ".attention_norm.bias"@))->Some_0,
        data,
        mmap,
    )
    &&& tensor_bound_to_parsed(
        layer.query_key_value,
        spec_find_parsed(ts, spec_layer_name(l, ".attention.query_key_value.weight"@))->Some_0,
        data,
        mmap,
    )
    &&& tensor_bound_to_parsed(
        layer.query_key_value_b,
        spec_find_parsed(ts, spec_layer_name(l, ".attention.query_key_value.bias"@))->Some_0,
        data,
        mmap,
    )
    &&& tensor_bound_to_parsed(
        layer.wo,
        spec_find_parsed(ts, spec_layer_name(l, ".attention.wo.weight"@))->Some_0,
        data,
        mmap,
    )
    &&& tensor_bound_to_parsed(
        layer.wo_b,
        spec_find_parsed(ts, spec_layer_name(l, ".attention.wo.bias"@))->Some_0,
        data,
        mmap,
    )
    &&& tensor_bound_to_parsed(
        layer.ffn_norm,
        spec_find_parsed(ts, spec_layer_name(l, ".ffn_norm.weight"@))->Some_0,
        data,
        mmap,
    )
    &&& tensor_bound_to_parsed(
        layer.ffn_norm_b,
        spec_find_parsed(ts, spec_layer_name(l, ".ffn_norm.bias"@))->Some_0,
        data,
        mmap,
    )
    &&& tensor_bound_to_parsed(
        layer.w1,
        spec_find_parsed(ts, spec_layer_name(l, ".feed_forward.w1.weight"@))->Some_0,
        data,
        mmap,
    )
    &&& tensor_bound_to_parsed(
        layer.w1_b,
        spec_find_parsed(ts, spec_layer_name(l, ".feed_forward.w1.bias"@))->Some_0,
        data,
        mmap,
    )
    &&& tensor_bound_to_parsed(
        layer.w2,
        spec_find_parsed(ts, spec_layer_name(l, ".feed_forward.w2.weight"@))->Some_0,
        data,
        mmap,
    )
    &&& tensor_bound_to_parsed(
        layer.w2_b,
        spec_find_parsed(ts, spec_layer_name(l, ".feed_forward.w2.bias"@))->Some_0,
        data,
        mmap,
    )
}

/// One tensor binding, lifted to the parsed index: what `Bloom::new` states
/// against the binder's records holds of the records the parse discovered.
proof fn lemma_lift_one_binding(
    t: Tensor,
    hts: Seq<TensorLoadInfo>,
    sts: Seq<SpecTensorInfo>,
    name: Seq<char>,
    data: Seq<u8>,
    mmap: bool,
)
    requires
        hts.len() == sts.len(),
        forall|i: int|
            0 <= i < hts.len() ==> crate::container::tensor_info_matches(
                #[trigger] hts[i],
                sts[i],
            ),
        spec_find_tensor(hts, name) is Some,
        tensor_bound_to(t, spec_find_tensor(hts, name)->Some_0, data, mmap),
    ensures
        spec_find_parsed(sts, name) is Some,
        tensor_bound_to_parsed(t, spec_find_parsed(sts, name)->Some_0, data, mmap),
{
    crate::loader::lemma_find_parsed(hts, sts, name);
    crate::loader::lemma_bound_bridge(
        t,
        spec_find_tensor(hts, name)->Some_0,
        spec_find_parsed(sts, name)->Some_0,
        data,
        mmap,
    );
}

/// The whole model's bindings, lifted to the parsed index.
pub proof fn lemma_bloom_binding_lift(
    m: Bloom,
    hts: Seq<TensorLoadInfo>,
    sts: Seq<SpecTensorInfo>,
    data: Seq<u8>,
    mmap: bool,
    n_layer: int,
)
    requires
        hts.len() == sts.len(),
        forall|i: int|
            0 <= i < hts.len() ==> crate::container::tensor_info_matches(
                #[trigger] hts[i],
                sts[i],
            ),
        bloom_tensors_present(hts, n_layer),
        m.layers@.len() == n_layer,
        tensor_bound_to(
            m.tok_embeddings,
            spec_find_tensor(hts, "tok_embeddings.weight"@)->Some_0,
            data,
            mmap,
        ),
        tensor_bound_to(m.norm, spec_find_tensor(hts, "norm.weight"@)->Some_0, data, mmap),
        tensor_bound_to(m.norm_b, spec_find_tensor(hts, "norm.bias"@)->Some_0, data, mmap),
        tensor_bound_to(
            m.output_norm,
            spec_find_tensor(hts, "output_norm.weight"@)->Some_0,
            data,
            mmap,
        ),
        tensor_bound_to(
            m.output_norm_b,
            spec_find_tensor(hts, "output_norm.bias"@)->Some_0,
            data,
            mmap,
        ),
        tensor_bound_to(m.output, spec_find_tensor(hts, "output.weight"@)->Some_0, data, mmap),
        forall|l: int|
            0 <= l < n_layer ==> #[trigger] layer_bound(m.layers@[l], hts, l, data, mmap),
    ensures
        tensor_bound_to_parsed(
            m.tok_embeddings,
            spec_find_parsed(sts, "tok_embeddings.weight"@)->Some_0,
            data,
            mmap,
        ),
        tensor_bound_to_parsed(m.norm, spec_find_parsed(sts, "norm.weight"@)->Some_0, data, mmap),
        tensor_bound_to_parsed(m.norm_b, spec_find_parsed(sts, "norm.bias"@)->Some_0, data, mmap),
        tensor_bound_to_parsed(
            m.output_norm,
            spec_find_parsed(sts, "output_norm.weight"@)->Some_0,
            data,
            mmap,
        ),
        tensor_bound_to_parsed(
            m.output_norm_b,
            spec_find_parsed(sts, "output_norm.bias"@)->Some_0,
            data,
            mmap,
        ),
        tensor_bound_to_parsed(
            m.output,
            spec_find_parsed(sts, "output.weight"@)->Some_0,
            data,
            mmap,
        ),
        forall|l: int|
            0 <= l < n_layer ==> #[trigger] layer_bound_parsed(m.layers@[l], sts, l, data, mmap),
{
    lemma_lift_one_binding(m.tok_embeddings, hts, sts, "tok_embeddings.weight"@, data, mmap);
    lemma_lift_one_binding(m.norm, hts, sts, "norm.weight"@, data, mmap);
    lemma_lift_one_binding(m.norm_b, hts, sts, "norm.bias"@, data, mmap);
    lemma_lift_one_binding(m.output_norm, hts, sts, "output_norm.weight"@, data, mmap);
    lemma_lift_one_binding(m.output_norm_b, hts, sts, "output_norm.bias"@, data, mmap);
    lemma_lift_one_binding(m.output, hts, sts, "output.weight"@, data, mmap);
    assert forall|l: int|
        0 <= l < n_layer implies #[trigger] layer_bound_parsed(
        m.layers@[l],
        sts,
        l,
        data,
        mmap,
    ) by {
        assert(bloom_layer_present(hts, l));
        assert(layer_bound(m.layers@[l], hts, l, data, mmap));
        let lay = m.layers@[l];
        lemma_lift_one_binding(lay.attention_norm, hts, sts, spec_layer_name(l, ".attention_norm.weight"@), data, mmap);
        lemma_lift_one_binding(lay.attention_norm_b, hts, sts, spec_layer_name(l, ".attention_norm.bias"@), data, mmap);
        lemma_lift_one_binding(lay.query_key_value, hts, sts, spec_layer_name(l, ".attention.query_key_value.weight"@), data, mmap);
        lemma_lift_one_binding(lay.query_key_value_b, hts, sts, spec_layer_name(l, ".attention.query_key_value.bias"@), data, mmap);
        lemma_lift_one_binding(lay.wo, hts, sts, spec_layer_name(l, ".attention.wo.weight"@), data, mmap);
        lemma_lift_one_binding(lay.wo_b, hts, sts, spec_layer_name(l, ".attention.wo.bias"@), data, mmap);
        lemma_lift_one_binding(lay.ffn_norm, hts, sts, spec_layer_name(l, ".ffn_norm.weight"@), data, mmap);
        lemma_lift_one_binding(lay.ffn_norm_b, hts, sts, spec_layer_name(l, ".ffn_norm.bias"@), data, mmap);
        lemma_lift_one_binding(lay.w1, hts, sts, spec_layer_name(l, ".feed_forward.w1.weight"@), data, mmap);
        lemma_lift_one_binding(lay.w1_b, hts, sts, spec_layer_name(l, ".feed_forward.w1.bias"@), data, mmap);
        lemma_lift_one_binding(lay.w2, hts, sts, spec_layer_name(l, ".feed_forward.w2.weight"@), data, mmap);
        lemma_lift_one_binding(lay.w2_b, hts, sts, spec_layer_name(l, ".feed_forward.w2.bias"@), data, mmap);
    }
}

} // verus!
