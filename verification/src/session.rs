//! The inference session: key/value cache, token history, last logits.
//!
//! A session owns the two cache tensors `memory_k` and `memory_v` (held here
//! as raw bytes, zero-initialized, of shape all layers by context by
//! embedding), the number of positions already committed (`n_past`), the
//! token history, and the logits of the last evaluated position.  The tensor
//! kernels are external collaborators: a session commits what one graph run
//! hands back (`KernelOutput`), and this module accounts exactly for where
//! every byte of it lands in the cache.
//!
//! Logits are carried as raw 32-bit float patterns; the session never does
//! arithmetic on them, it stores, snapshots and hands them out.

use crate::vocabulary::Vocabulary;
use crate::TokenId;
use vstd::prelude::*;

verus! {

/// Element types allowed for the session's key/value cache tensors.
#[derive(Clone, Copy, Debug, PartialEq, Eq, Structural)]
pub enum ModelKVMemoryType {
    /// 16-bit floats.
    Float16,
    /// 32-bit floats.
    Float32,
}

/// Bytes one cache element occupies.
pub open spec fn kv_element_size(t: ModelKVMemoryType) -> int {
    match t {
        ModelKVMemoryType::Float16 => 2,
        ModelKVMemoryType::Float32 => 4,
    }
}

impl ModelKVMemoryType {
    /// Bytes one cache element occupies.
    pub fn element_size(&self) -> (r: usize)
        ensures
            r == kv_element_size(*self),
    {
        match self {
            ModelKVMemoryType::Float16 => 2,
            ModelKVMemoryType::Float32 => 4,
        }
    }
}

impl From<ModelKVMemoryType> for i32 {
    /// The element-encoding code of the cache element type.
    fn from(value: ModelKVMemoryType) -> (r: i32)
        ensures
            r == match value {
                ModelKVMemoryType::Float16 => 1int,
                ModelKVMemoryType::Float32 => 0int,
            },
    {
        match value {
            ModelKVMemoryType::Float16 => 1,
            ModelKVMemoryType::Float32 => 0,
        }
    }
}

impl vstd::std_specs::convert::FromSpecImpl<ModelKVMemoryType> for i32 {
    open spec fn obeys_from_spec() -> bool {
        true
    }

    open spec fn from_spec(value: ModelKVMemoryType) -> i32 {
        match value {
            ModelKVMemoryType::Float16 => 1,
            ModelKVMemoryType::Float32 => 0,
        }
    }
}

/// Parameters for an inference session.
#[derive(Clone, Copy, Debug, PartialEq, Eq, Structural)]
pub struct InferenceSessionParameters {
    /// How many of the most recent tokens the repetition penalty considers.
    pub repetition_penalty_last_n: usize,
    /// Element type of the key cache.
    pub memory_k_type: ModelKVMemoryType,
    /// Element type of the value cache.
    pub memory_v_type: ModelKVMemoryType,
}

impl Default for InferenceSessionParameters {
    /// A 512-token penalty window and 32-bit cache elements.
    fn default() -> (r: InferenceSessionParameters)
        ensures
            r == (InferenceSessionParameters {
                repetition_penalty_last_n: 512,
                memory_k_type: ModelKVMemoryType::Float32,
                memory_v_type: ModelKVMemoryType::Float32,
            }),
    {
        InferenceSessionParameters {
            repetition_penalty_last_n: 512,
            memory_k_type: ModelKVMemoryType::Float32,
            memory_v_type: ModelKVMemoryType::Float32,
        }
    }
}

/// Additive per-token score overrides for sampling, in the fixed-point score
/// scale; a strongly negative bias bans a token.
#[derive(Clone, Debug, PartialEq)]
pub struct TokenBias(pub Vec<(TokenId, i64)>);

impl TokenBias {
    /// An empty bias table.
    pub fn new() -> (r: TokenBias)
        ensures
            r.0@.len() == 0,
    {
        TokenBias(Vec::new())
    }

    /// The bias for a token id, if one is set: the first entry wins.
    pub fn get(&self, id: TokenId) -> (r: Option<i64>)
        ensures
            r == spec_token_bias(self.0@, id),
    {
        let mut i: usize = 0;
        proof {
            assert(self.0@.skip(0) =~= self.0@);
        }
        while i < self.0.len()
            invariant
                i <= self.0@.len(),
                spec_token_bias(self.0@, id) == spec_token_bias(self.0@.skip(i as int), id),
            decreases self.0@.len() - i,
        {
            proof {
                assert(self.0@.skip(i as int)[0] == self.0@[i as int]);
                assert(self.0@.skip(i as int).skip(1) =~= self.0@.skip(i + 1));
            }
            if self.0[i].0 == id {
                return Some(self.0[i].1);
            }
            i = i + 1;
        }
        None
    }
}

/// The bias an entry list assigns to a token id: the first entry wins.
pub open spec fn spec_token_bias(entries: Seq<(TokenId, i64)>, id: TokenId) -> Option<i64>
    decreases entries.len(),
{
    if entries.len() == 0 {
        None
    } else if entries[0].0 == id {
        Some(entries[0].1)
    } else {
        spec_token_bias(entries.skip(1), id)
    }
}

impl Default for TokenBias {
    /// No biases.
    fn default() -> (r: TokenBias)
        ensures
            r.0@.len() == 0,
    {
        TokenBias(Vec::new())
    }
}

/// The parameters that drive text generation.  The probability-like knobs
/// (`top_p`, `repeat_penalty`, `temp`) are carried in thousandths, so that
/// the session logic stays in integer arithmetic; the sampler that consumes
/// them converts to its own scale.
#[derive(Clone, Debug, PartialEq)]
pub struct InferenceParameters {
    /// Degree of parallelism handed to the tensor kernels per call.
    pub n_threads: usize,
    /// How many prompt tokens one graph run consumes.
    pub n_batch: usize,
    /// The sampler keeps this many of the largest logits.
    pub top_k: usize,
    /// Nucleus-sampling mass, in thousandths.
    pub top_p: u32,
    /// Repetition-penalty divisor, in thousandths.
    pub repeat_penalty: u32,
    /// Sampling temperature, in thousandths.
    pub temp: u32,
    /// Additive per-token score overrides.
    pub bias_tokens: TokenBias,
    /// Whether restored sessions replay their history to the caller.
    pub play_back_previous_tokens: bool,
    /// Whether the evaluator favours deterministic kernel scheduling.
    pub increased_determinism: bool,
}

impl Default for InferenceParameters {
    /// Eight threads, batches of eight, top-40 / 0.95-mass sampling, a 1.30
    /// repetition penalty and a 0.80 temperature.
    fn default() -> (r: InferenceParameters)
        ensures
            r.n_threads == 8,
            r.n_batch == 8,
            r.top_k == 40,
            r.top_p == 950,
            r.repeat_penalty == 1300,
            r.temp == 800,
            r.bias_tokens.0@.len() == 0,
            r.play_back_previous_tokens == false,
            r.increased_determinism == true,
    {
        InferenceParameters {
            n_threads: 8,
            n_batch: 8,
            top_k: 40,
            top_p: 950,
            repeat_penalty: 1300,
            temp: 800,
            bias_tokens: TokenBias::new(),
            play_back_previous_tokens: false,
            increased_determinism: true,
        }
    }
}

/// Parameters of one whole prompt-and-generate run.
#[derive(Clone, Copy, Debug, PartialEq, Eq, Structural)]
pub struct InferenceWithPromptParameters {
    /// Whether a restored session replays its history to the caller first.
    pub play_back_previous_tokens: bool,
    /// Stop after generating this many tokens, when set.
    pub maximum_token_count: Option<usize>,
}

impl Default for InferenceWithPromptParameters {
    /// No playback and no generation cap.
    fn default() -> (r: InferenceWithPromptParameters)
        ensures
            r == (InferenceWithPromptParameters {
                play_back_previous_tokens: false,
                maximum_token_count: None::<usize>,
            }),
    {
        InferenceWithPromptParameters {
            play_back_previous_tokens: false,
            maximum_token_count: None,
        }
    }
}

/// Timings and counts of one prompt-and-generate run.  Durations are in
/// milliseconds, measured by the caller that drives the loop.
#[derive(Clone, Copy, Debug, PartialEq, Eq, Structural)]
pub struct InferenceStats {
    /// Milliseconds spent feeding the prompt.
    pub feed_prompt_duration: u64,
    /// Number of prompt tokens consumed.
    pub prompt_tokens: usize,
    /// Milliseconds spent generating.
    pub predict_duration: u64,
    /// Number of positions evaluated in all.
    pub predict_tokens: usize,
}

impl Default for InferenceStats {
    /// All counts and durations zero.
    fn default() -> (r: InferenceStats)
        ensures
            r == (InferenceStats {
                feed_prompt_duration: 0,
                prompt_tokens: 0,
                predict_duration: 0,
                predict_tokens: 0,
            }),
    {
        InferenceStats {
            feed_prompt_duration: 0,
            prompt_tokens: 0,
            predict_duration: 0,
            predict_tokens: 0,
        }
    }
}

/// What can cut an inference run short.
#[derive(Clone, Debug, PartialEq)]
pub enum InferenceError {
    /// The end-of-text token was generated.
    EndOfText,
    /// An invalid token was encountered during tokenization.
    TokenizationFailed,
    /// The context window is full.
    ContextFull,
    /// The caller's per-token callback failed; the loop stops cleanly.
    UserCallback(String),
}

/// Optional per-call output sinks: the evaluator fills those that are
/// requested (`Some`).  Values are raw 32-bit float patterns.
pub struct EvaluateOutputRequest {
    /// When requested, receives the logits of every evaluated position.
    pub all_logits: Option<Vec<u32>>,
    /// When requested, receives the pre-projection embedding of every
    /// evaluated position.
    pub embeddings: Option<Vec<u32>>,
}

impl Default for EvaluateOutputRequest {
    /// Requests nothing.
    fn default() -> (r: EvaluateOutputRequest)
        ensures
            r.all_logits is None,
            r.embeddings is None,
    {
        EvaluateOutputRequest { all_logits: None, embeddings: None }
    }
}

/// What one transformer graph run hands back to the session, for a batch of
/// `n` positions: the logits column per position, the pre-projection
/// embeddings, the key and value rows to commit to the cache (one row of
/// `n_embd` elements per layer and position, layers outermost), and how many
/// scratch bytes the run used.
pub struct KernelOutput {
    /// Logits, `n_vocab` 32-bit float patterns per position.
    pub logits: Vec<u32>,
    /// Embeddings, `n_embd` 32-bit float patterns per position.
    pub embeddings: Vec<u32>,
    /// Key rows to commit, layers outermost.
    pub k_rows: Vec<u8>,
    /// Value rows to commit, layers outermost.
    pub v_rows: Vec<u8>,
    /// Scratch bytes the graph run used.
    pub used_bytes: usize,
}

/// `s` with `sub` written at offset `at`.
pub open spec fn seq_splice<T>(s: Seq<T>, at: int, sub: Seq<T>) -> Seq<T>
    recommends
        0 <= at,
        at + sub.len() <= s.len(),
{
    s.subrange(0, at) + sub + s.subrange(at + sub.len(), s.len() as int)
}

/// The cache after the rows of one batch are written: for each of the first
/// `layers` layers, the batch's `n` rows for that layer land at positions
/// `n_past..n_past + n` of the layer's context window.
pub open spec fn spec_write_rows(
    mem: Seq<u8>,
    rows: Seq<u8>,
    layers: nat,
    n_past: int,
    n: int,
    row_bytes: int,
    ctx_bytes: int,
) -> Seq<u8>
    decreases layers,
{
    if layers == 0 {
        mem
    } else {
        let l = layers - 1;
        seq_splice(
            spec_write_rows(mem, rows, (layers - 1) as nat, n_past, n, row_bytes, ctx_bytes),
            l * ctx_bytes + n_past * row_bytes,
            rows.subrange(l * (n * row_bytes), l * (n * row_bytes) + n * row_bytes),
        )
    }
}

/// Writes `len` bytes of `src` starting at `src_off` into `dst` at `at`.
fn splice_bytes(dst: &mut Vec<u8>, at: usize, src: &Vec<u8>, src_off: usize, len: usize)
    requires
        at + len <= old(dst).len(),
        src_off + len <= src.len(),
    ensures
        final(dst)@ == seq_splice(old(dst)@, at as int, src@.subrange(
            src_off as int,
            src_off + len,
        )),
{
    let mut i: usize = 0;
    while i < len
        invariant
            i <= len,
            at + len <= dst.len(),
            src_off + len <= src.len(),
            dst@.len() == old(dst)@.len(),
            forall|j: int|
                at <= j < at + i ==> #[trigger] dst@[j] == src@[src_off + (j - at)],
            forall|j: int|
                0 <= j < dst@.len() && !(at <= j < at + i) ==> #[trigger] dst@[j] == old(dst)@[j],
        decreases len - i,
    {
        let b = src[src_off + i];
        dst.set(at + i, b);
        i = i + 1;
    }
    proof {
        assert(final(dst)@ =~= seq_splice(old(dst)@, at as int, src@.subrange(
            src_off as int,
            src_off + len,
        )));
    }
}

/// A vector of `n` zero bytes.
fn zero_bytes(n: usize) -> (r: Vec<u8>)
    ensures
        r@.len() == n,
        forall|i: int| 0 <= i < n ==> #[trigger] r@[i] == 0,
{
    let mut r: Vec<u8> = Vec::new();
    let mut i: usize = 0;
    while i < n
        invariant
            i <= n,
            r@.len() == i,
            forall|j: int| 0 <= j < i ==> #[trigger] r@[j] == 0,
        decreases n - i,
    {
        r.push(0);
        i = i + 1;
    }
    r
}

/// A vector of `n` zero 32-bit patterns.
fn zero_words(n: usize) -> (r: Vec<u32>)
    ensures
        r@.len() == n,
        forall|i: int| 0 <= i < n ==> #[trigger] r@[i] == 0,
{
    let mut r: Vec<u32> = Vec::new();
    let mut i: usize = 0;
    while i < n
        invariant
            i <= n,
            r@.len() == i,
            forall|j: int| 0 <= j < i ==> #[trigger] r@[j] == 0,
        decreases n - i,
    {
        r.push(0);
        i = i + 1;
    }
    r
}

/// Copies a vector of 32-bit patterns.
fn copy_words(src: &Vec<u32>) -> (r: Vec<u32>)
    ensures
        r@ == src@,
{
    let mut r: Vec<u32> = Vec::new();
    let mut i: usize = 0;
    while i < src.len()
        invariant
            i <= src@.len(),
            r@ == src@.subrange(0, i as int),
        decreases src@.len() - i,
    {
        r.push(src[i]);
        i = i + 1;
        proof {
            assert(src@.subrange(0, i as int) =~= src@.subrange(0, i - 1).push(src@[i - 1]));
        }
    }
    proof {
        assert(src@.subrange(0, src@.len() as int) =~= src@);
    }
    r
}

/// An inference session: the state of one text generation against an
/// otherwise immutable model.
pub struct InferenceSession {
    /// Parameters the session was opened with.
    pub params: InferenceSessionParameters,
    /// Context window length: how many positions the cache can hold.
    pub n_ctx: usize,
    /// Number of model layers.
    pub n_layer: usize,
    /// Embedding width.
    pub n_embd: usize,
    /// Vocabulary size; the length of `last_logits`.
    pub n_vocab: usize,
    /// The key cache, zero-initialized, all layers by context by embedding.
    pub memory_k: Vec<u8>,
    /// The value cache, laid out as the key cache.
    pub memory_v: Vec<u8>,
    /// How many positions have been committed to the cache so far.
    pub n_past: usize,
    /// Scratch bytes one token takes in the working graph; 0 until measured
    /// by the first evaluation.
    pub mem_per_token: usize,
    /// All tokens this session has committed.
    pub tokens: Vec<TokenId>,
    /// The logits of the last evaluated position, `n_vocab` float patterns;
    /// zeroed until the first evaluation.
    pub last_logits: Vec<u32>,
}

impl InferenceSession {
    /// Bytes one key-cache row (one position of one layer) occupies.
    pub open spec fn k_row_bytes(&self) -> int {
        self.n_embd * kv_element_size(self.params.memory_k_type)
    }

    /// Bytes one value-cache row occupies.
    pub open spec fn v_row_bytes(&self) -> int {
        self.n_embd * kv_element_size(self.params.memory_v_type)
    }

    /// The session invariant: the history matches the committed positions,
    /// the caches have exactly their declared shape, and the logits have one
    /// entry per vocabulary word.
    pub open spec fn wf(&self) -> bool {
        &&& self.n_past <= self.n_ctx
        &&& self.tokens@.len() == self.n_past
        &&& self.last_logits@.len() == self.n_vocab
        &&& self.memory_k@.len() == self.n_layer * self.n_ctx * self.k_row_bytes()
        &&& self.memory_v@.len() == self.n_layer * self.n_ctx * self.v_row_bytes()
        &&& self.n_layer * self.n_ctx <= usize::MAX
        &&& self.n_embd * 4 <= usize::MAX
    }

    /// The sizes one kernel run for a batch of `n` positions must hand back.
    pub open spec fn kernel_output_wf(&self, out: KernelOutput, n: int) -> bool {
        &&& out.logits@.len() == n * self.n_vocab
        &&& out.embeddings@.len() == n * self.n_embd
        &&& out.k_rows@.len() == self.n_layer * (n * self.k_row_bytes())
        &&& out.v_rows@.len() == self.n_layer * (n * self.v_row_bytes())
    }

    /// Opens a fresh session: empty history, zeroed caches and logits.
    pub fn new(
        params: InferenceSessionParameters,
        n_ctx: usize,
        n_layer: usize,
        n_embd: usize,
        n_vocab: usize,
    ) -> (r: InferenceSession)
        requires
            n_layer * n_ctx * n_embd * 4 <= usize::MAX,
            n_layer * n_ctx <= usize::MAX,
            n_embd * 4 <= usize::MAX,
        ensures
            r.wf(),
            r.params == params,
            r.n_ctx == n_ctx,
            r.n_layer == n_layer,
            r.n_embd == n_embd,
            r.n_vocab == n_vocab,
            r.n_past == 0,
            r.mem_per_token == 0,
            r.tokens@.len() == 0,
            forall|i: int| 0 <= i < n_vocab ==> #[trigger] r.last_logits@[i] == 0,
            forall|i: int| 0 <= i < r.memory_k@.len() ==> #[trigger] r.memory_k@[i] == 0,
            forall|i: int| 0 <= i < r.memory_v@.len() ==> #[trigger] r.memory_v@[i] == 0,
    {
        let k_size: usize;
        let v_size: usize;
        if n_layer == 0 || n_ctx == 0 || n_embd == 0 {
            k_size = 0;
            v_size = 0;
            proof {
                assert(n_layer as int * n_ctx as int * (n_embd as int * kv_element_size(
                    params.memory_k_type,
                )) == 0) by (nonlinear_arith)
                    requires
                        n_layer == 0 || n_ctx == 0 || n_embd == 0,
                ;
                assert(n_layer as int * n_ctx as int * (n_embd as int * kv_element_size(
                    params.memory_v_type,
                )) == 0) by (nonlinear_arith)
                    requires
                        n_layer == 0 || n_ctx == 0 || n_embd == 0,
                ;
            }
        } else {
            proof {
                assert(n_layer as int * n_ctx as int <= n_layer as int * n_ctx as int * n_embd
                    as int * 4 && n_layer as int * n_ctx as int * n_embd as int <= n_layer as int
                    * n_ctx as int * n_embd as int * 4) by (nonlinear_arith)
                    requires
                        n_layer >= 1 && n_ctx >= 1 && n_embd >= 1,
                ;
                assert(n_layer as int * n_ctx as int * n_embd as int * kv_element_size(
                    params.memory_k_type,
                ) <= n_layer as int * n_ctx as int * n_embd as int * 4) by (nonlinear_arith)
                    requires
                        0 <= kv_element_size(params.memory_k_type) <= 4,
                ;
                assert(n_layer as int * n_ctx as int * n_embd as int * kv_element_size(
                    params.memory_v_type,
                ) <= n_layer as int * n_ctx as int * n_embd as int * 4) by (nonlinear_arith)
                    requires
                        0 <= kv_element_size(params.memory_v_type) <= 4,
                ;
            }
            k_size = n_layer * n_ctx * n_embd * params.memory_k_type.element_size();
            v_size = n_layer * n_ctx * n_embd * params.memory_v_type.element_size();
        }
        proof {
            lemma_cache_size_rearranged(
                n_layer as int,
                n_ctx as int,
                n_embd as int,
                kv_element_size(params.memory_k_type),
            );
            lemma_cache_size_rearranged(
                n_layer as int,
                n_ctx as int,
                n_embd as int,
                kv_element_size(params.memory_v_type),
            );
        }
        InferenceSession {
            params,
            n_ctx,
            n_layer,
            n_embd,
            n_vocab,
            memory_k: zero_bytes(k_size),
            memory_v: zero_bytes(v_size),
            n_past: 0,
            mem_per_token: 0,
            tokens: Vec::new(),
            last_logits: zero_words(n_vocab),
        }
    }

    /// The ids the repetition penalty applies to: the last
    /// `repetition_penalty_last_n` committed tokens.
    pub fn repetition_penalty_tokens(&self) -> (r: Vec<TokenId>)
        ensures
            r@ == self.tokens@.skip(
                if self.tokens@.len() >= self.params.repetition_penalty_last_n {
                    self.tokens@.len() - self.params.repetition_penalty_last_n
                } else {
                    0
                },
            ),
    {
        let start = if self.tokens.len() >= self.params.repetition_penalty_last_n {
            self.tokens.len() - self.params.repetition_penalty_last_n
        } else {
            0
        };
        let mut r: Vec<TokenId> = Vec::new();
        let mut i: usize = start;
        while i < self.tokens.len()
            invariant
                start <= i <= self.tokens@.len(),
                r@ == self.tokens@.subrange(start as int, i as int),
            decreases self.tokens@.len() - i,
        {
            r.push(self.tokens[i]);
            i = i + 1;
            proof {
                assert(self.tokens@.subrange(start as int, i as int) =~= self.tokens@.subrange(
                    start as int,
                    i - 1,
                ).push(self.tokens@[i - 1]));
            }
        }
        proof {
            assert(self.tokens@.subrange(start as int, self.tokens@.len() as int)
                =~= self.tokens@.skip(start as int));
        }
        r
    }
}

/// The cache size products can be grouped either way.
proof fn lemma_cache_size_rearranged(n_layer: int, n_ctx: int, n_embd: int, elsize: int)
    ensures
        n_layer * n_ctx * n_embd * elsize == n_layer * n_ctx * (n_embd * elsize),
        n_layer * n_ctx * (n_embd * elsize) == n_layer * (n_ctx * (n_embd * elsize)),
{
    assert(n_layer * n_ctx * n_embd * elsize == n_layer * n_ctx * (n_embd * elsize) && n_layer
        * n_ctx * (n_embd * elsize) == n_layer * (n_ctx * (n_embd * elsize))) by (nonlinear_arith);
}


/// Offset arithmetic of the cache write for one layer: the destination of
/// layer `l` starts `(l * n_ctx + n_past)` rows in, everything stays inside
/// the cache, and the source rows stay inside the batch buffer.
pub(crate) proof fn lemma_layer_bounds(l: int, n_layer: int, n_ctx: int, n_past: int, n: int, row: int)
    requires
        0 <= l < n_layer,
        0 <= n_past,
        0 <= n,
        n_past + n <= n_ctx,
        0 <= row,
    ensures
        0 <= l * n_ctx + n_past,
        l * n_ctx + n_past <= n_layer * n_ctx,
        (l * n_ctx + n_past) * row + n * row <= (n_layer * n_ctx) * row,
        (l * n_ctx + n_past) * row == l * (n_ctx * row) + n_past * row,
        0 <= l * (n * row),
        l * (n * row) + n * row <= n_layer * (n * row),
        n * row <= (n_layer * n_ctx) * row,
{
    assert(0 <= l * n_ctx + n_past && l * n_ctx + n_past <= n_layer * n_ctx && (l * n_ctx + n_past)
        * row + n * row <= (n_layer * n_ctx) * row && (l * n_ctx + n_past) * row == l * (n_ctx
        * row) + n_past * row && 0 <= l * (n * row) && l * (n * row) + n * row <= n_layer * (n
        * row) && n * row <= (n_layer * n_ctx) * row) by (nonlinear_arith)
        requires
            0 <= l < n_layer && 0 <= n_past && 0 <= n && n_past + n <= n_ctx && 0 <= row,
    ;
}

impl InferenceSession {
    /// Commits the results of one transformer graph run over the batch
    /// `input_tokens`: the batch's key and value rows land in the caches at
    /// positions `n_past .. n_past + n` of every layer, the history grows by
    /// the batch, the last position's logits are kept, the per-token scratch
    /// measure is updated, and any requested output sink is filled.
    pub fn evaluate(
        &mut self,
        input_tokens: &Vec<TokenId>,
        out: &KernelOutput,
        output_request: &mut EvaluateOutputRequest,
    )
        requires
            old(self).wf(),
            old(self).n_past + input_tokens@.len() <= old(self).n_ctx,
            old(self).kernel_output_wf(*out, input_tokens@.len() as int),
        ensures
            final(self).wf(),
            final(self).n_past == old(self).n_past + input_tokens@.len(),
            final(self).tokens@ == old(self).tokens@ + input_tokens@,
            input_tokens@.len() > 0 ==> final(self).last_logits@ == out.logits@.subrange(
                (input_tokens@.len() - 1) * old(self).n_vocab,
                input_tokens@.len() * old(self).n_vocab,
            ),
            input_tokens@.len() == 0 ==> final(self).last_logits@ == old(self).last_logits@,
            input_tokens@.len() > 0 ==> final(self).mem_per_token == out.used_bytes as int
                / input_tokens@.len() as int,
            input_tokens@.len() == 0 ==> final(self).mem_per_token == old(self).mem_per_token,
            input_tokens@.len() > 0 ==> final(self).memory_k@ == spec_write_rows(
                old(self).memory_k@,
                out.k_rows@,
                old(self).n_layer as nat,
                old(self).n_past as int,
                input_tokens@.len() as int,
                old(self).k_row_bytes(),
                old(self).n_ctx * old(self).k_row_bytes(),
            ),
            input_tokens@.len() > 0 ==> final(self).memory_v@ == spec_write_rows(
                old(self).memory_v@,
                out.v_rows@,
                old(self).n_layer as nat,
                old(self).n_past as int,
                input_tokens@.len() as int,
                old(self).v_row_bytes(),
                old(self).n_ctx * old(self).v_row_bytes(),
            ),
            input_tokens@.len() == 0 ==> final(self).memory_k@ == old(self).memory_k@
                && final(self).memory_v@ == old(self).memory_v@,
            final(self).params == old(self).params,
            final(self).n_ctx == old(self).n_ctx,
            final(self).n_layer == old(self).n_layer,
            final(self).n_embd == old(self).n_embd,
            final(self).n_vocab == old(self).n_vocab,
            old(output_request).all_logits is Some ==> final(output_request).all_logits is Some
                && final(output_request).all_logits->Some_0@ == out.logits@,
            old(output_request).all_logits is None ==> final(output_request).all_logits is None,
            old(output_request).embeddings is Some ==> final(output_request).embeddings is Some
                && final(output_request).embeddings->Some_0@ == out.embeddings@,
            old(output_request).embeddings is None ==> final(output_request).embeddings is None,
    {
        let n = input_tokens.len();
        proof {
            assert(self.n_embd * kv_element_size(self.params.memory_k_type) <= self.n_embd * 4
                && self.n_embd * kv_element_size(self.params.memory_v_type) <= self.n_embd * 4)
                by (nonlinear_arith)
                requires
                    self.n_embd >= 0 && 0 <= kv_element_size(self.params.memory_k_type) <= 4 && 0
                        <= kv_element_size(self.params.memory_v_type) <= 4,
            ;
        }
        let row_k = self.n_embd * self.params.memory_k_type.element_size();
        let row_v = self.n_embd * self.params.memory_v_type.element_size();
        let ghost mem0_k = self.memory_k@;
        let ghost mem0_v = self.memory_v@;
        let ghost n_past0 = self.n_past as int;
        let cap_k = self.memory_k.len();
        let cap_v = self.memory_v.len();
        proof {
            assert(mem0_k.len() <= usize::MAX && mem0_v.len() <= usize::MAX);
        }

        if n >= 1 {
            let rows_k_len = out.k_rows.len();
            let rows_v_len = out.v_rows.len();
            let mut l: usize = 0;
            while l < self.n_layer
                invariant
                    0 <= l <= self.n_layer,
                    n == input_tokens@.len(),
                    n >= 1,
                    n_past0 == self.n_past as int,
                    row_k == self.k_row_bytes(),
                    row_v == self.v_row_bytes(),
                    self.wf(),
                    self.n_past == old(self).n_past,
                    self.n_past + n <= self.n_ctx,
                    self.params == old(self).params,
                    self.n_ctx == old(self).n_ctx,
                    self.n_layer == old(self).n_layer,
                    self.n_embd == old(self).n_embd,
                    self.n_vocab == old(self).n_vocab,
                    self.tokens == old(self).tokens,
                    self.last_logits == old(self).last_logits,
                    self.mem_per_token == old(self).mem_per_token,
                    out.k_rows@.len() == self.n_layer * (n * row_k),
                    out.v_rows@.len() == self.n_layer * (n * row_v),
                    out.k_rows@.len() <= usize::MAX,
                    out.v_rows@.len() <= usize::MAX,
                    mem0_k.len() <= usize::MAX,
                    mem0_v.len() <= usize::MAX,
                    self.memory_k@.len() == mem0_k.len(),
                    self.memory_v@.len() == mem0_v.len(),
                    mem0_k.len() == self.n_layer * self.n_ctx * row_k,
                    mem0_v.len() == self.n_layer * self.n_ctx * row_v,
                    self.memory_k@ == spec_write_rows(
                        mem0_k,
                        out.k_rows@,
                        l as nat,
                        n_past0,
                        n as int,
                        row_k as int,
                        self.n_ctx * row_k,
                    ),
                    self.memory_v@ == spec_write_rows(
                        mem0_v,
                        out.v_rows@,
                        l as nat,
                        n_past0,
                        n as int,
                        row_v as int,
                        self.n_ctx * row_v,
                    ),
                decreases self.n_layer - l,
            {
                proof {
                    lemma_layer_bounds(
                        l as int,
                        self.n_layer as int,
                        self.n_ctx as int,
                        n_past0,
                        n as int,
                        row_k as int,
                    );
                    lemma_layer_bounds(
                        l as int,
                        self.n_layer as int,
                        self.n_ctx as int,
                        n_past0,
                        n as int,
                        row_v as int,
                    );
                    assert((self.n_layer * self.n_ctx) * row_k == self.n_layer * self.n_ctx
                        * row_k) by (nonlinear_arith);
                    assert((self.n_layer * self.n_ctx) * row_v == self.n_layer * self.n_ctx
                        * row_v) by (nonlinear_arith);
                }
                let batch_k = n * row_k;
                let batch_v = n * row_v;
                let dest_k = (l * self.n_ctx + self.n_past) * row_k;
                let dest_v = (l * self.n_ctx + self.n_past) * row_v;
                let src_k = l * batch_k;
                let src_v = l * batch_v;
                splice_bytes(&mut self.memory_k, dest_k, &out.k_rows, src_k, batch_k);
                splice_bytes(&mut self.memory_v, dest_v, &out.v_rows, src_v, batch_v);
                l = l + 1;
            }
        }

        let ghost memk1 = self.memory_k@;
        let ghost memv1 = self.memory_v@;
        let mut i: usize = 0;
        while i < n
            invariant
                i <= n,
                n == input_tokens@.len(),
                self.tokens@ == old(self).tokens@ + input_tokens@.subrange(0, i as int),
                old(self).wf(),
                self.params == old(self).params,
                self.n_ctx == old(self).n_ctx,
                self.n_layer == old(self).n_layer,
                self.n_embd == old(self).n_embd,
                self.n_vocab == old(self).n_vocab,
                self.n_past == old(self).n_past,
                self.n_past + n <= self.n_ctx,
                self.mem_per_token == old(self).mem_per_token,
                self.last_logits == old(self).last_logits,
                self.memory_k@ == memk1,
                self.memory_v@ == memv1,
            decreases n - i,
        {
            self.tokens.push(input_tokens[i]);
            i = i + 1;
            proof {
                assert(old(self).tokens@ + input_tokens@.subrange(0, i as int) =~= (old(
                    self,
                ).tokens@ + input_tokens@.subrange(0, i - 1)).push(input_tokens@[i - 1]));
            }
        }
        proof {
            assert(old(self).tokens@ + input_tokens@.subrange(0, n as int) =~= old(self).tokens@
                + input_tokens@);
        }
        self.n_past = self.n_past + n;

        if n >= 1 {
            let logits_len = out.logits.len();
            proof {
                assert((n - 1) * self.n_vocab + self.n_vocab == n * self.n_vocab && 0 <= (n - 1)
                    * self.n_vocab) by (nonlinear_arith)
                    requires
                        n >= 1 && self.n_vocab >= 0,
                ;
                assert(n * self.n_vocab == logits_len);
            }
            self.last_logits = copy_words_range(&out.logits, (n - 1) * self.n_vocab, self.n_vocab);
            self.mem_per_token = out.used_bytes / n;
        }

        if output_request.all_logits.is_some() {
            output_request.all_logits = Some(copy_words(&out.logits));
        }
        if output_request.embeddings.is_some() {
            output_request.embeddings = Some(copy_words(&out.embeddings));
        }
    }
}

/// Copies `len` 32-bit patterns starting at `off`.
fn copy_words_range(src: &Vec<u32>, off: usize, len: usize) -> (r: Vec<u32>)
    requires
        off + len <= src.len(),
    ensures
        r@ == src@.subrange(off as int, off + len),
{
    let src_len = src.len();
    let mut r: Vec<u32> = Vec::new();
    let mut i: usize = 0;
    while i < len
        invariant
            i <= len,
            off + len <= src_len,
            src_len == src@.len(),
            r@ == src@.subrange(off as int, off + i),
        decreases len - i,
    {
        proof {
            assert(off + i < src@.len());
        }
        r.push(src[off + i]);
        i = i + 1;
        proof {
            assert(src@.subrange(off as int, off + i) =~= src@.subrange(off as int, off + i
                - 1).push(src@[off + i - 1]));
        }
    }
    r
}


/// The token sequence a prompt feeds into a session: the tokenizer's answer,
/// with the beginning-of-sentence token prepended exactly when the session
/// has no past.
pub open spec fn spec_prompt_tokens(
    vocab: Vocabulary,
    n_past: int,
    prompt: Seq<u8>,
) -> Option<Seq<TokenId>> {
    let toks = vocab.id_to_token@.map_values(|v: Vec<u8>| v@);
    let scs = vocab.id_to_token_score@;
    match crate::vocabulary::spec_tokenize(toks, scs, prompt, prompt.len() as int) {
        None => None,
        Some(ids) => Some(
            if n_past == 0 {
                seq![1 as TokenId] + ids
            } else {
                ids
            },
        ),
    }
}

/// How many prompt tokens a feed consumes: all of them, or exactly the
/// remaining context space when the prompt overflows it.
pub open spec fn spec_consumed(token_count: int, n_ctx: int, n_past: int) -> int {
    if token_count > n_ctx - n_past {
        n_ctx - n_past
    } else {
        token_count
    }
}

/// Length of batch `b` when `consumed` tokens are fed in batches of
/// `n_batch`.
pub open spec fn spec_batch_len(consumed: int, n_batch: int, b: int) -> int {
    if consumed - b * n_batch < n_batch {
        consumed - b * n_batch
    } else {
        n_batch
    }
}

/// Copies the token range `[off, off + len)`.
fn copy_ids_range(src: &Vec<TokenId>, off: usize, len: usize) -> (r: Vec<TokenId>)
    requires
        off + len <= src.len(),
    ensures
        r@ == src@.subrange(off as int, off + len),
{
    let src_len = src.len();
    let mut r: Vec<TokenId> = Vec::new();
    let mut i: usize = 0;
    while i < len
        invariant
            i <= len,
            off + len <= src_len,
            src_len == src@.len(),
            r@ == src@.subrange(off as int, off + i),
        decreases len - i,
    {
        r.push(src[off + i]);
        i = i + 1;
        proof {
            assert(src@.subrange(off as int, off + i) =~= src@.subrange(off as int, off + i
                - 1).push(src@[off + i - 1]));
        }
    }
    r
}

impl InferenceSession {
    /// Feeds a prompt: tokenizes it (with the beginning-of-sentence token
    /// exactly when the session has no past), then commits it batch by batch,
    /// one kernel run per batch.  When the prompt is longer than the space
    /// left in the context window, exactly the remaining space is fed and the
    /// call reports a full context; the session stays usable.
    #[verifier::loop_isolation(false)]
    #[verifier::rlimit(60)]
    pub fn feed_prompt(
        &mut self,
        vocab: &Vocabulary,
        params: &InferenceParameters,
        prompt: &Vec<u8>,
        batch_outputs: &Vec<KernelOutput>,
    ) -> (r: Result<(), InferenceError>)
        requires
            old(self).wf(),
            vocab.wf(),
            prompt@.len() < usize::MAX,
            old(self).n_past == 0 ==> vocab.id_to_token@.len() >= 2,
            params.n_batch >= 1,
            ({
                match spec_prompt_tokens(*vocab, old(self).n_past as int, prompt@) {
                    None => true,
                    Some(all) => {
                        let consumed = spec_consumed(
                            all.len() as int,
                            old(self).n_ctx as int,
                            old(self).n_past as int,
                        );
                        &&& batch_outputs@.len() * params.n_batch >= consumed
                        &&& forall|b: int|
                            0 <= b && b * params.n_batch < consumed ==> old(
                                self,
                            ).kernel_output_wf(
                                #[trigger] batch_outputs@[b],
                                spec_batch_len(consumed, params.n_batch as int, b),
                            )
                    },
                }
            }),
        ensures
            match spec_prompt_tokens(*vocab, old(self).n_past as int, prompt@) {
                None => r == Err::<(), InferenceError>(InferenceError::TokenizationFailed)
                    && *final(self) == *old(self),
                Some(all) => {
                    let consumed = spec_consumed(
                        all.len() as int,
                        old(self).n_ctx as int,
                        old(self).n_past as int,
                    );
                    &&& final(self).wf()
                    &&& final(self).n_past == old(self).n_past + consumed
                    &&& final(self).tokens@ == old(self).tokens@ + all.subrange(0, consumed)
                    &&& r == if all.len() > old(self).n_ctx - old(self).n_past {
                        Err::<(), InferenceError>(InferenceError::ContextFull)
                    } else {
                        Ok::<(), InferenceError>(())
                    }
                    &&& final(self).params == old(self).params
                    &&& final(self).n_ctx == old(self).n_ctx
                    &&& final(self).n_layer == old(self).n_layer
                    &&& final(self).n_embd == old(self).n_embd
                    &&& final(self).n_vocab == old(self).n_vocab
                },
            },
    {
        let bos = self.n_past == 0;
        let all = match vocab.tokenize(prompt, bos) {
            Ok(ids) => ids,
            Err(_) => {
                return Err(InferenceError::TokenizationFailed);
            },
        };
        let ghost all_s = spec_prompt_tokens(*vocab, old(self).n_past as int, prompt@)->Some_0;
        let space = self.n_ctx - self.n_past;
        let token_count = all.len();
        let consumed = if token_count > space {
            space
        } else {
            token_count
        };
        let mut fed: usize = 0;
        let mut b: usize = 0;
        while fed < consumed
            invariant
                fed <= consumed,
                fed == if b * params.n_batch <= consumed {
                    b * params.n_batch as int
                } else {
                    consumed as int
                },
                self.wf(),
                self.n_past == old(self).n_past + fed,
                self.tokens@ == old(self).tokens@ + all_s.subrange(0, fed as int),
                self.params == old(self).params,
                self.n_ctx == old(self).n_ctx,
                self.n_layer == old(self).n_layer,
                self.n_embd == old(self).n_embd,
                self.n_vocab == old(self).n_vocab,
            decreases consumed - fed,
        {
            let len = if consumed - fed < params.n_batch {
                consumed - fed
            } else {
                params.n_batch
            };
            proof {
                assert(b * params.n_batch == fed);
                assert(b <= b * params.n_batch) by (nonlinear_arith)
                    requires
                        params.n_batch >= 1 && b >= 0,
                ;
                assert(b * batch_outputs@.len() >= 0) by (nonlinear_arith)
                    requires
                        b >= 0 && batch_outputs@.len() >= 0,
                ;
                assert(b < batch_outputs@.len()) by (nonlinear_arith)
                    requires
                        b * params.n_batch < consumed && batch_outputs@.len() * params.n_batch
                            >= consumed && params.n_batch >= 1 && b >= 0,
                ;
                assert(spec_batch_len(consumed as int, params.n_batch as int, b as int)
                    == len as int);
            }
            let batch = copy_ids_range(&all, fed, len);
            let mut req = EvaluateOutputRequest::default();
            let bo = &batch_outputs[b];
            self.evaluate(&batch, bo, &mut req);
            fed = fed + len;
            b = b + 1;
            proof {
                assert(self.tokens@ =~= old(self).tokens@ + all_s.subrange(0, fed as int));
                assert((b - 1) * params.n_batch + params.n_batch == b * params.n_batch)
                    by (nonlinear_arith);
            }
        }
        if token_count > space {
            Err(InferenceError::ContextFull)
        } else {
            Ok(())
        }
    }

    /// Commits one sampled token: appends it to the history and evaluates a
    /// batch of one to refresh the last logits.  Reports a full context, with
    /// the session unchanged, when no position is left.  Returns whether the
    /// sampled token is the end-of-text token.
    pub fn infer_next_token(
        &mut self,
        next_token: TokenId,
        out: &KernelOutput,
        eot_token_id: TokenId,
    ) -> (r: Result<bool, InferenceError>)
        requires
            old(self).wf(),
            old(self).kernel_output_wf(*out, 1),
        ensures
            old(self).n_past >= old(self).n_ctx ==> r == Err::<bool, InferenceError>(
                InferenceError::ContextFull,
            ) && *final(self) == *old(self),
            old(self).n_past < old(self).n_ctx ==> {
                &&& r == Ok::<bool, InferenceError>(next_token == eot_token_id)
                &&& final(self).wf()
                &&& final(self).n_past == old(self).n_past + 1
                &&& final(self).tokens@ == old(self).tokens@.push(next_token)
                &&& final(self).last_logits@ == out.logits@.subrange(0, old(self).n_vocab as int)
                &&& final(self).memory_k@ == spec_write_rows(
                    old(self).memory_k@,
                    out.k_rows@,
                    old(self).n_layer as nat,
                    old(self).n_past as int,
                    1,
                    old(self).k_row_bytes(),
                    old(self).n_ctx * old(self).k_row_bytes(),
                )
                &&& final(self).memory_v@ == spec_write_rows(
                    old(self).memory_v@,
                    out.v_rows@,
                    old(self).n_layer as nat,
                    old(self).n_past as int,
                    1,
                    old(self).v_row_bytes(),
                    old(self).n_ctx * old(self).v_row_bytes(),
                )
                &&& final(self).params == old(self).params
                &&& final(self).n_ctx == old(self).n_ctx
                &&& final(self).n_layer == old(self).n_layer
                &&& final(self).n_embd == old(self).n_embd
                &&& final(self).n_vocab == old(self).n_vocab
            },
    {
        if self.n_past >= self.n_ctx {
            return Err(InferenceError::ContextFull);
        }
        let mut batch: Vec<TokenId> = Vec::new();
        batch.push(next_token);
        let mut req = EvaluateOutputRequest::default();
        self.evaluate(&batch, out, &mut req);
        proof {
            assert(old(self).tokens@ + batch@ =~= old(self).tokens@.push(next_token));
            assert(self.last_logits@ =~= out.logits@.subrange(0, old(self).n_vocab as int));
            assert(self.memory_k@ =~= spec_write_rows(
                old(self).memory_k@,
                out.k_rows@,
                old(self).n_layer as nat,
                old(self).n_past as int,
                1,
                old(self).k_row_bytes(),
                old(self).n_ctx * old(self).k_row_bytes(),
            ));
            assert(self.memory_v@ =~= spec_write_rows(
                old(self).memory_v@,
                out.v_rows@,
                old(self).n_layer as nat,
                old(self).n_past as int,
                1,
                old(self).v_row_bytes(),
                old(self).n_ctx * old(self).v_row_bytes(),
            ));
        }
        Ok(next_token == eot_token_id)
    }
}


/// Batched feeding fills the cache like one concatenated feed: two adjacent
/// writes land exactly the bytes of the combined write.  Together with
/// `evaluate`'s history clause (the token list grows by exactly the batch),
/// feeding a prompt in any batch sizes commits the same history, position and
/// cache region as feeding it in one run; what the kernels then compute from
/// that equal state is theirs.
pub proof fn lemma_adjacent_writes_compose(s: Seq<u8>, at: int, b1: Seq<u8>, b2: Seq<u8>)
    requires
        0 <= at,
        at + b1.len() + b2.len() <= s.len(),
    ensures
        seq_splice(seq_splice(s, at, b1), at + b1.len(), b2) == seq_splice(s, at, b1 + b2),
{
    assert(seq_splice(seq_splice(s, at, b1), at + b1.len(), b2) =~= seq_splice(s, at, b1 + b2));
}


/// What a run of caller-drawn tokens commits: ids are committed in order
/// until the generation cap is reached, the supplied draws run out, the
/// context fills (reported as a full context), or the end-of-text token is
/// committed; the end-of-text token itself is committed and kept.
pub open spec fn spec_generated(ids: Seq<TokenId>, eot: TokenId, cap: int, space: int) -> (
    Seq<TokenId>,
    bool,
)
    decreases ids.len(),
{
    if cap <= 0 || ids.len() == 0 {
        (Seq::empty(), false)
    } else if space <= 0 {
        (Seq::empty(), true)
    } else if ids[0] == eot {
        (seq![ids[0]], false)
    } else {
        let rest = spec_generated(ids.skip(1), eot, cap - 1, space - 1);
        (seq![ids[0]] + rest.0, rest.1)
    }
}

impl InferenceSession {
    /// Runs one whole prompt-and-generate pass: feeds the prompt (one kernel
    /// run per batch), then commits the caller's drawn tokens one kernel run
    /// each, stopping at the end-of-text token, the generation cap, a full
    /// context, or the end of the supplied draws.  The draws themselves are
    /// the caller's sampler's work, as is stopping early when its per-token
    /// sink fails: the caller then simply supplies no further draws.  Returns
    /// the token ids the caller's sink should see — the replayed history when
    /// playback is requested, then the fed prompt, then the committed draws —
    /// and the run's counts; durations are the caller's to measure.
    #[verifier::loop_isolation(false)]
    #[verifier::rlimit(100)]
    pub fn inference_with_prompt(
        &mut self,
        vocab: &Vocabulary,
        params: &InferenceParameters,
        prompt_params: &InferenceWithPromptParameters,
        prompt: &Vec<u8>,
        prompt_outputs: &Vec<KernelOutput>,
        sampled: &Vec<(TokenId, KernelOutput)>,
        eot_token_id: TokenId,
    ) -> (r: Result<(Vec<TokenId>, InferenceStats), InferenceError>)
        requires
            old(self).wf(),
            vocab.wf(),
            prompt@.len() < usize::MAX,
            old(self).n_past == 0 ==> vocab.id_to_token@.len() >= 2,
            params.n_batch >= 1,
            ({
                match spec_prompt_tokens(*vocab, old(self).n_past as int, prompt@) {
                    None => true,
                    Some(all) => {
                        let consumed = spec_consumed(
                            all.len() as int,
                            old(self).n_ctx as int,
                            old(self).n_past as int,
                        );
                        &&& prompt_outputs@.len() * params.n_batch >= consumed
                        &&& forall|b: int|
                            0 <= b && b * params.n_batch < consumed ==> old(
                                self,
                            ).kernel_output_wf(
                                #[trigger] prompt_outputs@[b],
                                spec_batch_len(consumed, params.n_batch as int, b),
                            )
                    },
                }
            }),
            forall|j: int|
                0 <= j < sampled@.len() ==> old(self).kernel_output_wf(
                    (#[trigger] sampled@[j]).1,
                    1,
                ),
        ensures
            match spec_prompt_tokens(*vocab, old(self).n_past as int, prompt@) {
                None => r == Err::<(Vec<TokenId>, InferenceStats), InferenceError>(
                    InferenceError::TokenizationFailed,
                ) && *final(self) == *old(self),
                Some(all) => {
                    let space0 = old(self).n_ctx - old(self).n_past;
                    if all.len() > space0 {
                        &&& r == Err::<(Vec<TokenId>, InferenceStats), InferenceError>(
                            InferenceError::ContextFull,
                        )
                        &&& final(self).wf()
                        &&& final(self).n_past == old(self).n_ctx
                        &&& final(self).tokens@ == old(self).tokens@ + all.subrange(0, space0)
                    } else {
                        let cap: int = match prompt_params.maximum_token_count {
                            Some(m) => m as int,
                            None => usize::MAX as int,
                        };
                        let ids = sampled@.map_values(|p: (TokenId, KernelOutput)| p.0);
                        let gen = spec_generated(
                            ids,
                            eot_token_id,
                            cap,
                            old(self).n_ctx - (old(self).n_past + all.len()),
                        );
                        &&& final(self).wf()
                        &&& final(self).tokens@ == old(self).tokens@ + all + gen.0
                        &&& final(self).n_past == old(self).n_past + all.len() + gen.0.len()
                        &&& (gen.1 ==> r == Err::<(Vec<TokenId>, InferenceStats),
                            InferenceError,
                        >(InferenceError::ContextFull))
                        &&& (!gen.1 ==> r is Ok && r->Ok_0.0@ == (if prompt_params.play_back_previous_tokens {
                            old(self).tokens@
                        } else {
                            Seq::empty()
                        }) + all + gen.0 && r->Ok_0.1 == (InferenceStats {
                            feed_prompt_duration: 0,
                            prompt_tokens: (old(self).n_past + all.len()) as usize,
                            predict_duration: 0,
                            predict_tokens: (old(self).n_past + all.len() + gen.0.len()) as usize,
                        }))
                    }
                },
            },
    {
        let base_tokens = self.tokens.len();
        match self.feed_prompt(vocab, params, prompt, prompt_outputs) {
            Ok(_) => {},
            Err(e) => {
                return Err(e);
            },
        }
        let ghost all = spec_prompt_tokens(*vocab, old(self).n_past as int, prompt@)->Some_0;
        let ghost ids = sampled@.map_values(|p: (TokenId, KernelOutput)| p.0);
        let mut out_list: Vec<TokenId> = if prompt_params.play_back_previous_tokens {
            copy_ids_range(&self.tokens, 0, self.tokens.len())
        } else {
            copy_ids_range(&self.tokens, base_tokens, self.tokens.len() - base_tokens)
        };
        let prompt_token_count = self.n_past;
        let cap: usize = match prompt_params.maximum_token_count {
            Some(m) => m,
            None => usize::MAX,
        };
        let ghost cap0: int = cap as int;
        let ghost space2: int = old(self).n_ctx - (old(self).n_past + all.len());
        let ghost whole = spec_generated(ids, eot_token_id, cap0, space2);
        proof {
            assert(ids.skip(0) =~= ids);
            assert(ids.take(0) + whole.0 =~= whole.0);
            assert(ids.take(0) =~= Seq::<TokenId>::empty());
            assert(self.tokens@ =~= old(self).tokens@ + all + ids.take(0));
            assert(out_list@ =~= (if prompt_params.play_back_previous_tokens {
                old(self).tokens@
            } else {
                Seq::<TokenId>::empty()
            }) + all + ids.take(0));
        }
        let mut k: usize = 0;
        let mut done = false;
        while k < sampled.len() && k < cap && !done
            invariant
                k <= sampled@.len(),
                k <= cap,
                self.wf(),
                self.params == old(self).params,
                self.n_ctx == old(self).n_ctx,
                self.n_layer == old(self).n_layer,
                self.n_embd == old(self).n_embd,
                self.n_vocab == old(self).n_vocab,
                self.n_past == old(self).n_past + all.len() + k,
                self.tokens@ == old(self).tokens@ + all + ids.take(k as int),
                out_list@ == (if prompt_params.play_back_previous_tokens {
                    old(self).tokens@
                } else {
                    Seq::<TokenId>::empty()
                }) + all + ids.take(k as int),
                !done ==> ({
                    let rest = spec_generated(
                        ids.skip(k as int),
                        eot_token_id,
                        cap0 - k,
                        space2 - k,
                    );
                    whole.0 == ids.take(k as int) + rest.0 && whole.1 == rest.1
                }),
                done ==> whole.0 == ids.take(k as int) && whole.1 == false,
            decreases sampled@.len() - k,
        {
            let pair = &sampled[k];
            let id = pair.0;
            let is_eot = match self.infer_next_token(id, &pair.1, eot_token_id) {
                Ok(b) => b,
                Err(e) => {
                    proof {
                        assert(whole.0 == ids.take(k as int) && whole.1 == true);
                    }
                    return Err(e);
                },
            };
            out_list.push(id);
            proof {
                assert(ids.skip(k as int)[0] == ids[k as int]);
                assert(ids.skip(k as int).skip(1) =~= ids.skip(k + 1));
                assert(ids.take(k + 1) =~= ids.take(k as int) + seq![ids[k as int]]);
                if ids[k as int] != eot_token_id {
                    let rest2 = spec_generated(
                        ids.skip(k + 1),
                        eot_token_id,
                        cap0 - k - 1,
                        space2 - k - 1,
                    );
                    assert(ids.take(k as int) + (seq![ids[k as int]] + rest2.0) =~= ids.take(k + 1)
                        + rest2.0);
                }
            }
            k = k + 1;
            if is_eot {
                done = true;
            }
        }
        proof {
            assert(whole.0 == ids.take(k as int) && whole.1 == false);
        }
        let stats = InferenceStats {
            feed_prompt_duration: 0,
            prompt_tokens: prompt_token_count,
            predict_duration: 0,
            predict_tokens: self.n_past,
        };
        Ok((out_list, stats))
    }
}

} // verus!
