//! Serializable snapshots of an inference session.
//!
//! A snapshot is the session's observable state: committed position count,
//! session parameters, token history, last logits, and the raw bytes of the
//! two cache tensors.  On disk it is a versioned sequence of length-prefixed
//! sections, every field little-endian.  Restoring a snapshot rebuilds a
//! session bound to a model, and refuses cache bytes whose length does not
//! match what the model's shape demands.

use crate::bytes::{
    as_signed32, as_unsigned32, le32, le64, lemma_le32_round_trip, read_u32, read_u64,
    to_signed32, to_unsigned32, u32_le_bytes, u64_le_bytes, write_u32, write_u64,
};
use crate::session::{
    kv_element_size, InferenceSession, InferenceSessionParameters, ModelKVMemoryType,
};
use crate::TokenId;
use vstd::prelude::*;

verus! {

/// The version tag at the head of every snapshot this crate writes.
pub const SNAPSHOT_VERSION: u32 = 1;

/// What can go wrong with writing or restoring a snapshot.
#[derive(Clone, Copy, Debug, PartialEq, Eq, Structural)]
pub enum SnapshotError {
    /// The carrier could not be read or written.
    Io,
    /// The bytes do not hold a snapshot this crate reads.
    Serialization,
    /// The snapshot's cache bytes do not fit the model the caller restored
    /// against.
    MemorySizeMismatch {
        /// The cache size the model expects.
        self_size: usize,
        /// The cache size the snapshot holds.
        input_size: usize,
    },
}

/// A snapshot of an inference session; can be restored into a session bound
/// to a model of the same shape.
#[derive(Clone, Debug, PartialEq)]
pub struct InferenceSnapshot {
    /// How many positions have been committed to the cache.
    pub npast: usize,
    /// Parameters associated with the saved inference session.
    pub session_params: InferenceSessionParameters,
    /// All tokens committed by the saved session.
    pub tokens: Vec<TokenId>,
    /// The logits of the last evaluated position.
    pub last_logits: Vec<u32>,
    /// The contents of the key cache tensor.
    pub memory_k: Vec<u8>,
    /// The contents of the value cache tensor.
    pub memory_v: Vec<u8>,
}

/// A borrowed snapshot of a live session, as handed out by `get_snapshot`;
/// the cache contents stay with the session.
pub struct InferenceSnapshotRef<'a> {
    /// How many positions have been committed to the cache.
    pub npast: usize,
    /// Parameters associated with the saved inference session.
    pub session_params: InferenceSessionParameters,
    /// All tokens committed by the saved session.
    pub tokens: Vec<TokenId>,
    /// The logits of the last evaluated position.
    pub logits: Vec<u32>,
    /// The contents of the key cache tensor.
    pub memory_k: &'a Vec<u8>,
    /// The contents of the value cache tensor.
    pub memory_v: &'a Vec<u8>,
}

/// The wire code of a cache element type.
pub open spec fn kv_type_code(t: ModelKVMemoryType) -> int {
    match t {
        ModelKVMemoryType::Float32 => 0,
        ModelKVMemoryType::Float16 => 1,
    }
}

/// The cache element type a wire code stands for.
pub open spec fn kv_type_of_code(v: int) -> Option<ModelKVMemoryType> {
    if v == 0 {
        Some(ModelKVMemoryType::Float32)
    } else if v == 1 {
        Some(ModelKVMemoryType::Float16)
    } else {
        None
    }
}

/// The little-endian bytes of a list of 32-bit patterns.
pub open spec fn words_bytes(ws: Seq<u32>) -> Seq<u8>
    decreases ws.len(),
{
    if ws.len() == 0 {
        Seq::empty()
    } else {
        words_bytes(ws.drop_last()) + u32_le_bytes(ws.last())
    }
}

/// Each word's bytes sit at four times its index.
pub proof fn lemma_words_bytes_index(ws: Seq<u32>, i: int)
    requires
        0 <= i < ws.len(),
    ensures
        words_bytes(ws).len() == 4 * ws.len(),
        words_bytes(ws).subrange(4 * i, 4 * i + 4) == u32_le_bytes(ws[i]),
    decreases ws.len(),
{
    lemma_words_bytes_len(ws);
    if i == ws.len() - 1 {
        lemma_words_bytes_len(ws.drop_last());
        assert(words_bytes(ws).subrange(4 * i, 4 * i + 4) =~= u32_le_bytes(ws.last()));
    } else {
        lemma_words_bytes_index(ws.drop_last(), i);
        lemma_words_bytes_len(ws.drop_last());
        assert(words_bytes(ws).subrange(4 * i, 4 * i + 4) =~= words_bytes(
            ws.drop_last(),
        ).subrange(4 * i, 4 * i + 4));
    }
}

/// A word list occupies four bytes per word.
pub proof fn lemma_words_bytes_len(ws: Seq<u32>)
    ensures
        words_bytes(ws).len() == 4 * ws.len(),
    decreases ws.len(),
{
    if ws.len() > 0 {
        lemma_words_bytes_len(ws.drop_last());
    }
}

/// The 32-bit patterns of a token list.
pub open spec fn tokens_words(ts: Seq<TokenId>) -> Seq<u32> {
    ts.map_values(|t: TokenId| as_unsigned32(t) as u32)
}

/// The on-disk bytes of a snapshot: a version tag, then the committed
/// position count, the session parameters, and the length-prefixed token,
/// logits, key-cache and value-cache sections, all little-endian.
pub open spec fn spec_snapshot_bytes(
    npast: int,
    params: InferenceSessionParameters,
    tokens: Seq<TokenId>,
    logits: Seq<u32>,
    memory_k: Seq<u8>,
    memory_v: Seq<u8>,
) -> Seq<u8> {
    u32_le_bytes(SNAPSHOT_VERSION) + u64_le_bytes(npast as u64) + u64_le_bytes(
        params.repetition_penalty_last_n as u64,
    ) + u32_le_bytes(kv_type_code(params.memory_k_type) as u32) + u32_le_bytes(
        kv_type_code(params.memory_v_type) as u32,
    ) + u64_le_bytes(tokens.len() as u64) + words_bytes(tokens_words(tokens)) + u64_le_bytes(
        logits.len() as u64,
    ) + words_bytes(logits) + u64_le_bytes(memory_k.len() as u64) + memory_k + u64_le_bytes(
        memory_v.len() as u64,
    ) + memory_v
}

/// What one parse of snapshot bytes finds, as ghost fields.
pub ghost struct SpecSnapshot {
    /// Committed position count.
    pub npast: int,
    /// Session parameters.
    pub params: InferenceSessionParameters,
    /// Token history.
    pub tokens: Seq<TokenId>,
    /// Last logits, 32-bit patterns.
    pub logits: Seq<u32>,
    /// Key cache bytes.
    pub memory_k: Seq<u8>,
    /// Value cache bytes.
    pub memory_v: Seq<u8>,
}

/// Reading a snapshot: the version must be the one this crate writes, every
/// section must be complete, and the bytes must end exactly with the value
/// cache.
pub open spec fn spec_read_snapshot(data: Seq<u8>) -> Option<SpecSnapshot> {
    if data.len() < 36 {
        None
    } else {
        let version = le32(data.subrange(0, 4));
        let npast = le64(data.subrange(4, 12));
        let rep = le64(data.subrange(12, 20));
        let kt = kv_type_of_code(le32(data.subrange(20, 24)));
        let vt = kv_type_of_code(le32(data.subrange(24, 28)));
        let tc = le64(data.subrange(28, 36));
        if version != SNAPSHOT_VERSION || kt is None || vt is None || npast > usize::MAX || rep
            > usize::MAX {
            None
        } else if 36 + 4 * tc + 8 > data.len() {
            None
        } else {
            let tokens = Seq::new(
                tc as nat,
                |i: int| as_signed32(le32(data.subrange(36 + 4 * i, 40 + 4 * i)) as u32) as TokenId,
            );
            let p1 = 36 + 4 * tc;
            let lc = le64(data.subrange(p1, p1 + 8));
            if p1 + 8 + 4 * lc + 8 > data.len() {
                None
            } else {
                let logits = Seq::new(
                    lc as nat,
                    |i: int| le32(data.subrange(p1 + 8 + 4 * i, p1 + 12 + 4 * i)) as u32,
                );
                let p2 = p1 + 8 + 4 * lc;
                let klen = le64(data.subrange(p2, p2 + 8));
                if p2 + 8 + klen + 8 > data.len() {
                    None
                } else {
                    let memory_k = data.subrange(p2 + 8, p2 + 8 + klen);
                    let p3 = p2 + 8 + klen;
                    let vlen = le64(data.subrange(p3, p3 + 8));
                    if p3 + 8 + vlen != data.len() {
                        None
                    } else {
                        let memory_v = data.subrange(p3 + 8, p3 + 8 + vlen);
                        Some(
                            SpecSnapshot {
                                npast: npast,
                                params: InferenceSessionParameters {
                                    repetition_penalty_last_n: rep as usize,
                                    memory_k_type: kt->Some_0,
                                    memory_v_type: vt->Some_0,
                                },
                                tokens,
                                logits,
                                memory_k,
                                memory_v,
                            },
                        )
                    }
                }
            }
        }
    }
}

impl InferenceSession {
    /// A borrowed snapshot of the session's observable state.
    pub fn get_snapshot<'a>(&'a self) -> (r: InferenceSnapshotRef<'a>)
        ensures
            r.npast == self.n_past,
            r.session_params == self.params,
            r.tokens@ == self.tokens@,
            r.logits@ == self.last_logits@,
            r.memory_k@ == self.memory_k@,
            r.memory_v@ == self.memory_v@,
    {
        InferenceSnapshotRef {
            npast: self.n_past,
            session_params: self.params,
            tokens: copy_ids(&self.tokens),
            logits: copy_logits(&self.last_logits),
            memory_k: &self.memory_k,
            memory_v: &self.memory_v,
        }
    }
}

/// Copies a token list.
fn copy_ids(src: &Vec<TokenId>) -> (r: Vec<TokenId>)
    ensures
        r@ == src@,
{
    let mut r: Vec<TokenId> = Vec::new();
    let mut i: usize = 0;
    while i < src.len()
        invariant
            i <= src@.len(),
            r@ == src@.subrange(0, i as int),
        decreases src@.len() - i,
    {
        r.push(src[i]);
        i = i + 1;
        proof {
            assert(src@.subrange(0, i as int) =~= src@.subrange(0, i - 1).push(src@[i - 1]));
        }
    }
    proof {
        assert(src@.subrange(0, src@.len() as int) =~= src@);
    }
    r
}

/// Copies a logits list.
fn copy_logits(src: &Vec<u32>) -> (r: Vec<u32>)
    ensures
        r@ == src@,
{
    let mut r: Vec<u32> = Vec::new();
    let mut i: usize = 0;
    while i < src.len()
        invariant
            i <= src@.len(),
            r@ == src@.subrange(0, i as int),
        decreases src@.len() - i,
    {
        r.push(src[i]);
        i = i + 1;
        proof {
            assert(src@.subrange(0, i as int) =~= src@.subrange(0, i - 1).push(src@[i - 1]));
        }
    }
    proof {
        assert(src@.subrange(0, src@.len() as int) =~= src@);
    }
    r
}

/// Appends the little-endian bytes of each word.
fn write_words(out: &mut Vec<u8>, ws: &Vec<u32>)
    ensures
        final(out)@ == old(out)@ + words_bytes(ws@),
{
    let mut i: usize = 0;
    while i < ws.len()
        invariant
            i <= ws@.len(),
            out@ == old(out)@ + words_bytes(ws@.subrange(0, i as int)),
        decreases ws@.len() - i,
    {
        write_u32(out, ws[i]);
        i = i + 1;
        proof {
            assert(ws@.subrange(0, i as int).drop_last() =~= ws@.subrange(0, i - 1));
            assert(out@ =~= old(out)@ + words_bytes(ws@.subrange(0, i as int)));
        }
    }
    proof {
        assert(ws@.subrange(0, ws@.len() as int) =~= ws@);
    }
}

/// Appends every byte of `src`.
pub(crate) fn write_bytes(out: &mut Vec<u8>, src: &Vec<u8>)
    ensures
        final(out)@ == old(out)@ + src@,
{
    let mut i: usize = 0;
    while i < src.len()
        invariant
            i <= src@.len(),
            out@ == old(out)@ + src@.subrange(0, i as int),
        decreases src@.len() - i,
    {
        out.push(src[i]);
        i = i + 1;
        proof {
            assert(old(out)@ + src@.subrange(0, i as int) =~= (old(out)@ + src@.subrange(
                0,
                i - 1,
            )).push(src@[i - 1]));
        }
    }
    proof {
        assert(src@.subrange(0, src@.len() as int) =~= src@);
    }
}

impl<'a> InferenceSnapshotRef<'a> {
    /// The snapshot's on-disk bytes.
    pub fn write(&self) -> (r: Vec<u8>)
        ensures
            r@ == spec_snapshot_bytes(
                self.npast as int,
                self.session_params,
                self.tokens@,
                self.logits@,
                self.memory_k@,
                self.memory_v@,
            ),
    {
        let mut out: Vec<u8> = Vec::new();
        write_u32(&mut out, SNAPSHOT_VERSION);
        write_u64(&mut out, self.npast as u64);
        write_u64(&mut out, self.session_params.repetition_penalty_last_n as u64);
        let kt: u32 = match self.session_params.memory_k_type {
            ModelKVMemoryType::Float32 => 0,
            ModelKVMemoryType::Float16 => 1,
        };
        let vt: u32 = match self.session_params.memory_v_type {
            ModelKVMemoryType::Float32 => 0,
            ModelKVMemoryType::Float16 => 1,
        };
        write_u32(&mut out, kt);
        write_u32(&mut out, vt);
        write_u64(&mut out, self.tokens.len() as u64);
        let tw = token_words_vec(&self.tokens);
        write_words(&mut out, &tw);
        write_u64(&mut out, self.logits.len() as u64);
        write_words(&mut out, &self.logits);
        write_u64(&mut out, self.memory_k.len() as u64);
        write_bytes(&mut out, self.memory_k);
        write_u64(&mut out, self.memory_v.len() as u64);
        write_bytes(&mut out, self.memory_v);
        proof {
            assert(out@ =~= spec_snapshot_bytes(
                self.npast as int,
                self.session_params,
                self.tokens@,
                self.logits@,
                self.memory_k@,
                self.memory_v@,
            ));
        }
        out
    }
}

/// The 32-bit patterns of a token list.
fn token_words_vec(ts: &Vec<TokenId>) -> (r: Vec<u32>)
    ensures
        r@ == tokens_words(ts@),
{
    let mut r: Vec<u32> = Vec::new();
    let mut i: usize = 0;
    while i < ts.len()
        invariant
            i <= ts@.len(),
            r@ == tokens_words(ts@.subrange(0, i as int)),
        decreases ts@.len() - i,
    {
        r.push(to_unsigned32(ts[i]));
        i = i + 1;
        proof {
            assert(r@ =~= tokens_words(ts@.subrange(0, i as int)));
        }
    }
    proof {
        assert(ts@.subrange(0, ts@.len() as int) =~= ts@);
    }
    r
}


impl InferenceSnapshot {
    /// Reads a snapshot back from its on-disk bytes.
    #[verifier::loop_isolation(false)]
    #[verifier::rlimit(60)]
    pub fn read(data: &Vec<u8>) -> (r: Result<InferenceSnapshot, SnapshotError>)
        ensures
            match spec_read_snapshot(data@) {
                Some(ss) => {
                    &&& r is Ok
                    &&& r->Ok_0.npast == ss.npast
                    &&& r->Ok_0.session_params == ss.params
                    &&& r->Ok_0.tokens@ == ss.tokens
                    &&& r->Ok_0.last_logits@ == ss.logits
                    &&& r->Ok_0.memory_k@ == ss.memory_k
                    &&& r->Ok_0.memory_v@ == ss.memory_v
                },
                None => r == Err::<InferenceSnapshot, SnapshotError>(SnapshotError::Serialization),
            },
    {
        let len = data.len();
        if len < 36 {
            return Err(SnapshotError::Serialization);
        }
        let version = read_u32(data, 0);
        let npast64 = read_u64(data, 4);
        let rep64 = read_u64(data, 12);
        let ktc = read_u32(data, 20);
        let vtc = read_u32(data, 24);
        let tc64 = read_u64(data, 28);
        if version != SNAPSHOT_VERSION {
            return Err(SnapshotError::Serialization);
        }
        let kt = if ktc == 0 {
            ModelKVMemoryType::Float32
        } else if ktc == 1 {
            ModelKVMemoryType::Float16
        } else {
            return Err(SnapshotError::Serialization);
        };
        let vt = if vtc == 0 {
            ModelKVMemoryType::Float32
        } else if vtc == 1 {
            ModelKVMemoryType::Float16
        } else {
            return Err(SnapshotError::Serialization);
        };
        if npast64 > usize::MAX as u64 || rep64 > usize::MAX as u64 {
            return Err(SnapshotError::Serialization);
        }
        if 36 + 4 * (tc64 as u128) + 8 > len as u128 {
            return Err(SnapshotError::Serialization);
        }
        let tc = tc64 as usize;
        let mut tokens: Vec<TokenId> = Vec::new();
        let mut i: usize = 0;
        while i < tc
            invariant
                i <= tc,
                tokens@.len() == i,
                forall|j: int|
                    0 <= j < i ==> #[trigger] tokens@[j] == as_signed32(
                        le32(data@.subrange(36 + 4 * j, 40 + 4 * j)) as u32,
                    ) as TokenId,
            decreases tc - i,
        {
            let w = read_u32(data, 36 + 4 * i);
            tokens.push(to_signed32(w));
            i = i + 1;
        }
        proof {
            assert(tokens@ =~= Seq::new(
                tc64 as nat,
                |j: int| as_signed32(le32(data@.subrange(36 + 4 * j, 40 + 4 * j)) as u32)
                    as TokenId,
            ));
        }
        let p1: usize = 36 + 4 * tc;
        let lc64 = read_u64(data, p1);
        if (p1 as u128) + 8 + 4 * (lc64 as u128) + 8 > len as u128 {
            return Err(SnapshotError::Serialization);
        }
        let lc = lc64 as usize;
        let mut logits: Vec<u32> = Vec::new();
        let mut i2: usize = 0;
        while i2 < lc
            invariant
                i2 <= lc,
                logits@.len() == i2,
                forall|j: int|
                    0 <= j < i2 ==> #[trigger] logits@[j] == le32(
                        data@.subrange(p1 + 8 + 4 * j, p1 + 12 + 4 * j),
                    ) as u32,
            decreases lc - i2,
        {
            let w = read_u32(data, p1 + 8 + 4 * i2);
            logits.push(w);
            i2 = i2 + 1;
        }
        proof {
            assert(logits@ =~= Seq::new(
                lc64 as nat,
                |j: int| le32(data@.subrange(p1 + 8 + 4 * j, p1 + 12 + 4 * j)) as u32,
            ));
        }
        let p2: usize = p1 + 8 + 4 * lc;
        let klen64 = read_u64(data, p2);
        if (p2 as u128) + 8 + (klen64 as u128) + 8 > len as u128 {
            return Err(SnapshotError::Serialization);
        }
        let klen = klen64 as usize;
        let memory_k = crate::container::bytes_range(data, p2 + 8, p2 + 8 + klen);
        let p3: usize = p2 + 8 + klen;
        let vlen64 = read_u64(data, p3);
        if (p3 as u128) + 8 + (vlen64 as u128) != len as u128 {
            return Err(SnapshotError::Serialization);
        }
        let vlen = vlen64 as usize;
        let memory_v = crate::container::bytes_range(data, p3 + 8, p3 + 8 + vlen);
        Ok(
            InferenceSnapshot {
                npast: npast64 as usize,
                session_params: InferenceSessionParameters {
                    repetition_penalty_last_n: rep64 as usize,
                    memory_k_type: kt,
                    memory_v_type: vt,
                },
                tokens,
                last_logits: logits,
                memory_k,
                memory_v,
            },
        )
    }
}

impl InferenceSession {
    /// Rebuilds a session from a snapshot, bound to a model of the given
    /// shape.  Cache bytes whose length does not match what the shape
    /// demands are refused with the expected and actual sizes; a history or
    /// logits section inconsistent with the snapshot's own counts is refused
    /// as unreadable.
    pub fn from_snapshot(
        snapshot: InferenceSnapshot,
        n_ctx: usize,
        n_layer: usize,
        n_embd: usize,
        n_vocab: usize,
    ) -> (r: Result<InferenceSession, SnapshotError>)
        requires
            n_layer * n_ctx * n_embd * 4 <= usize::MAX,
            n_layer * n_ctx <= usize::MAX,
            n_embd * 4 <= usize::MAX,
        ensures
            ({
                let expected_k = n_layer * n_ctx * (n_embd * kv_element_size(
                    snapshot.session_params.memory_k_type,
                ));
                let expected_v = n_layer * n_ctx * (n_embd * kv_element_size(
                    snapshot.session_params.memory_v_type,
                ));
                if snapshot.memory_k@.len() != expected_k {
                    r == Err::<InferenceSession, SnapshotError>(
                        SnapshotError::MemorySizeMismatch {
                            self_size: expected_k as usize,
                            input_size: snapshot.memory_k@.len() as usize,
                        },
                    )
                } else if snapshot.memory_v@.len() != expected_v {
                    r == Err::<InferenceSession, SnapshotError>(
                        SnapshotError::MemorySizeMismatch {
                            self_size: expected_v as usize,
                            input_size: snapshot.memory_v@.len() as usize,
                        },
                    )
                } else if snapshot.npast > n_ctx || snapshot.tokens@.len() != snapshot.npast
                    || snapshot.last_logits@.len() != n_vocab {
                    r == Err::<InferenceSession, SnapshotError>(SnapshotError::Serialization)
                } else {
                    &&& r is Ok
                    &&& r->Ok_0.wf()
                    &&& r->Ok_0.params == snapshot.session_params
                    &&& r->Ok_0.n_ctx == n_ctx
                    &&& r->Ok_0.n_layer == n_layer
                    &&& r->Ok_0.n_embd == n_embd
                    &&& r->Ok_0.n_vocab == n_vocab
                    &&& r->Ok_0.n_past == snapshot.npast
                    &&& r->Ok_0.mem_per_token == 0
                    &&& r->Ok_0.tokens@ == snapshot.tokens@
                    &&& r->Ok_0.last_logits@ == snapshot.last_logits@
                    &&& r->Ok_0.memory_k@ == snapshot.memory_k@
                    &&& r->Ok_0.memory_v@ == snapshot.memory_v@
                }
            }),
    {
        proof {
            assert(n_embd * kv_element_size(snapshot.session_params.memory_k_type) <= n_embd * 4
                && n_embd * kv_element_size(snapshot.session_params.memory_v_type) <= n_embd * 4)
                by (nonlinear_arith)
                requires
                    n_embd >= 0 && 0 <= kv_element_size(snapshot.session_params.memory_k_type) <= 4
                        && 0 <= kv_element_size(snapshot.session_params.memory_v_type) <= 4,
            ;
            assert(n_layer * n_ctx * (n_embd * kv_element_size(
                snapshot.session_params.memory_k_type,
            )) <= n_layer * n_ctx * (n_embd * 4) && n_layer * n_ctx * (n_embd * kv_element_size(
                snapshot.session_params.memory_v_type,
            )) <= n_layer * n_ctx * (n_embd * 4) && n_layer * n_ctx * (n_embd * 4) == n_layer
                * n_ctx * n_embd * 4 && 0 <= n_layer * n_ctx * (n_embd * kv_element_size(
                snapshot.session_params.memory_k_type,
            )) && 0 <= n_layer * n_ctx * (n_embd * kv_element_size(
                snapshot.session_params.memory_v_type,
            ))) by (nonlinear_arith)
                requires
                    n_layer >= 0 && n_ctx >= 0 && n_embd >= 0 && 0 <= kv_element_size(
                        snapshot.session_params.memory_k_type,
                    ) <= 4 && 0 <= kv_element_size(snapshot.session_params.memory_v_type) <= 4
                        && n_layer * n_ctx <= usize::MAX,
            ;
        }
        let row_k = n_embd * snapshot.session_params.memory_k_type.element_size();
        let row_v = n_embd * snapshot.session_params.memory_v_type.element_size();
        let expected_k = n_layer * n_ctx * row_k;
        let expected_v = n_layer * n_ctx * row_v;
        if snapshot.memory_k.len() != expected_k {
            return Err(
                SnapshotError::MemorySizeMismatch {
                    self_size: expected_k,
                    input_size: snapshot.memory_k.len(),
                },
            );
        }
        if snapshot.memory_v.len() != expected_v {
            return Err(
                SnapshotError::MemorySizeMismatch {
                    self_size: expected_v,
                    input_size: snapshot.memory_v.len(),
                },
            );
        }
        if snapshot.npast > n_ctx || snapshot.tokens.len() != snapshot.npast
            || snapshot.last_logits.len() != n_vocab {
            return Err(SnapshotError::Serialization);
        }
        proof {
            assert(n_layer * n_ctx * row_k == n_layer * n_ctx * (n_embd * kv_element_size(
                snapshot.session_params.memory_k_type,
            )) && n_layer * n_ctx * row_v == n_layer * n_ctx * (n_embd * kv_element_size(
                snapshot.session_params.memory_v_type,
            ))) by (nonlinear_arith)
                requires
                    row_k == n_embd * kv_element_size(snapshot.session_params.memory_k_type)
                        && row_v == n_embd * kv_element_size(
                        snapshot.session_params.memory_v_type,
                    ),
            ;
        }
        Ok(
            InferenceSession {
                params: snapshot.session_params,
                n_ctx,
                n_layer,
                n_embd,
                n_vocab,
                memory_k: snapshot.memory_k,
                memory_v: snapshot.memory_v,
                n_past: snapshot.npast,
                mem_per_token: 0,
                tokens: snapshot.tokens,
                last_logits: snapshot.last_logits,
            },
        )
    }
}



/// A subrange that lies within the left part of a concatenation.
pub(crate) proof fn lemma_concat_sub_left(a: Seq<u8>, b: Seq<u8>, i: int, j: int)
    requires
        0 <= i <= j <= a.len(),
    ensures
        (a + b).subrange(i, j) == a.subrange(i, j),
{
    assert((a + b).subrange(i, j) =~= a.subrange(i, j));
}

/// The right part of a concatenation, as a subrange.
pub(crate) proof fn lemma_concat_sub_right(a: Seq<u8>, b: Seq<u8>)
    ensures
        (a + b).subrange(a.len() as int, a.len() + b.len() as int) == b,
{
    assert((a + b).subrange(a.len() as int, a.len() + b.len() as int) =~= b);
}

/// The byte positions of every section of a written snapshot.
#[verifier::spinoff_prover]
#[verifier::rlimit(100)]
proof fn lemma_snapshot_segments(
    npast: int,
    params: InferenceSessionParameters,
    tokens: Seq<TokenId>,
    logits: Seq<u32>,
    memory_k: Seq<u8>,
    memory_v: Seq<u8>,
)
    requires
        0 <= npast <= usize::MAX,
        tokens.len() <= usize::MAX,
        logits.len() <= usize::MAX,
        memory_k.len() <= usize::MAX,
        memory_v.len() <= usize::MAX,
    ensures
        ({
            let data = spec_snapshot_bytes(npast, params, tokens, logits, memory_k, memory_v);
            let t = tokens.len() as int;
            let l = logits.len() as int;
            let k = memory_k.len() as int;
            let v = memory_v.len() as int;
            let p1 = 36 + 4 * t;
            let p2 = p1 + 8 + 4 * l;
            let p3 = p2 + 8 + k;
            &&& data.len() == p3 + 8 + v
            &&& data.subrange(0, 4) == u32_le_bytes(SNAPSHOT_VERSION)
            &&& data.subrange(4, 12) == u64_le_bytes(npast as u64)
            &&& data.subrange(12, 20) == u64_le_bytes(params.repetition_penalty_last_n as u64)
            &&& data.subrange(20, 24) == u32_le_bytes(kv_type_code(params.memory_k_type) as u32)
            &&& data.subrange(24, 28) == u32_le_bytes(kv_type_code(params.memory_v_type) as u32)
            &&& data.subrange(28, 36) == u64_le_bytes(tokens.len() as u64)
            &&& data.subrange(36, p1) == words_bytes(tokens_words(tokens))
            &&& data.subrange(p1, p1 + 8) == u64_le_bytes(logits.len() as u64)
            &&& data.subrange(p1 + 8, p2) == words_bytes(logits)
            &&& data.subrange(p2, p2 + 8) == u64_le_bytes(memory_k.len() as u64)
            &&& data.subrange(p2 + 8, p2 + 8 + k) == memory_k
            &&& data.subrange(p3, p3 + 8) == u64_le_bytes(memory_v.len() as u64)
            &&& data.subrange(p3 + 8, p3 + 8 + v) == memory_v
        }),
{
    let data = spec_snapshot_bytes(npast, params, tokens, logits, memory_k, memory_v);
    let t = tokens.len() as int;
    let l = logits.len() as int;
    let k = memory_k.len() as int;
    let v = memory_v.len() as int;
    lemma_words_bytes_len(tokens_words(tokens));
    lemma_words_bytes_len(logits);
    crate::bytes::lemma_le64_round_trip(npast as u64);
    crate::bytes::lemma_le64_round_trip(params.repetition_penalty_last_n as u64);
    crate::bytes::lemma_le64_round_trip(tokens.len() as u64);
    crate::bytes::lemma_le64_round_trip(logits.len() as u64);
    crate::bytes::lemma_le64_round_trip(memory_k.len() as u64);
    crate::bytes::lemma_le64_round_trip(memory_v.len() as u64);
    let c0 = u32_le_bytes(SNAPSHOT_VERSION);
    let c1 = c0 + u64_le_bytes(npast as u64);
    let c2 = c1 + u64_le_bytes(params.repetition_penalty_last_n as u64);
    let c3 = c2 + u32_le_bytes(kv_type_code(params.memory_k_type) as u32);
    let c4 = c3 + u32_le_bytes(kv_type_code(params.memory_v_type) as u32);
    let c5 = c4 + u64_le_bytes(tokens.len() as u64);
    let c6 = c5 + words_bytes(tokens_words(tokens));
    let c7 = c6 + u64_le_bytes(logits.len() as u64);
    let c8 = c7 + words_bytes(logits);
    let c9 = c8 + u64_le_bytes(memory_k.len() as u64);
    let c10 = c9 + memory_k;
    let c11 = c10 + u64_le_bytes(memory_v.len() as u64);
    let c12 = c11 + memory_v;
    assert(data == c12);
    lemma_concat_sub_left(c11, memory_v, 0int, (0 + 4) as int);
    lemma_concat_sub_left(c10, u64_le_bytes(memory_v.len() as u64), 0int, (0 + 4) as int);
    lemma_concat_sub_left(c9, memory_k, 0int, (0 + 4) as int);
    lemma_concat_sub_left(c8, u64_le_bytes(memory_k.len() as u64), 0int, (0 + 4) as int);
    lemma_concat_sub_left(c7, words_bytes(logits), 0int, (0 + 4) as int);
    lemma_concat_sub_left(c6, u64_le_bytes(logits.len() as u64), 0int, (0 + 4) as int);
    lemma_concat_sub_left(c5, words_bytes(tokens_words(tokens)), 0int, (0 + 4) as int);
    lemma_concat_sub_left(c4, u64_le_bytes(tokens.len() as u64), 0int, (0 + 4) as int);
    lemma_concat_sub_left(c3, u32_le_bytes(kv_type_code(params.memory_v_type) as u32), 0int, (0 + 4) as int);
    lemma_concat_sub_left(c2, u32_le_bytes(kv_type_code(params.memory_k_type) as u32), 0int, (0 + 4) as int);
    lemma_concat_sub_left(c1, u64_le_bytes(params.repetition_penalty_last_n as u64), 0int, (0 + 4) as int);
    lemma_concat_sub_left(c0, u64_le_bytes(npast as u64), 0int, (0 + 4) as int);
    assert(c0.subrange(0, 4) =~= c0);
    lemma_concat_sub_left(c11, memory_v, ((0 + 4)) as int, (((0 + 4) + 8)) as int);
    lemma_concat_sub_left(c10, u64_le_bytes(memory_v.len() as u64), ((0 + 4)) as int, (((0 + 4) + 8)) as int);
    lemma_concat_sub_left(c9, memory_k, ((0 + 4)) as int, (((0 + 4) + 8)) as int);
    lemma_concat_sub_left(c8, u64_le_bytes(memory_k.len() as u64), ((0 + 4)) as int, (((0 + 4) + 8)) as int);
    lemma_concat_sub_left(c7, words_bytes(logits), ((0 + 4)) as int, (((0 + 4) + 8)) as int);
    lemma_concat_sub_left(c6, u64_le_bytes(logits.len() as u64), ((0 + 4)) as int, (((0 + 4) + 8)) as int);
    lemma_concat_sub_left(c5, words_bytes(tokens_words(tokens)), ((0 + 4)) as int, (((0 + 4) + 8)) as int);
    lemma_concat_sub_left(c4, u64_le_bytes(tokens.len() as u64), ((0 + 4)) as int, (((0 + 4) + 8)) as int);
    lemma_concat_sub_left(c3, u32_le_bytes(kv_type_code(params.memory_v_type) as u32), ((0 + 4)) as int, (((0 + 4) + 8)) as int);
    lemma_concat_sub_left(c2, u32_le_bytes(kv_type_code(params.memory_k_type) as u32), ((0 + 4)) as int, (((0 + 4) + 8)) as int);
    lemma_concat_sub_left(c1, u64_le_bytes(params.repetition_penalty_last_n as u64), ((0 + 4)) as int, (((0 + 4) + 8)) as int);
    lemma_concat_sub_right(c0, u64_le_bytes(npast as u64));
    lemma_concat_sub_left(c11, memory_v, (((0 + 4) + 8)) as int, ((((0 + 4) + 8) + 8)) as int);
    lemma_concat_sub_left(c10, u64_le_bytes(memory_v.len() as u64), (((0 + 4) + 8)) as int, ((((0 + 4) + 8) + 8)) as int);
    lemma_concat_sub_left(c9, memory_k, (((0 + 4) + 8)) as int, ((((0 + 4) + 8) + 8)) as int);
    lemma_concat_sub_left(c8, u64_le_bytes(memory_k.len() as u64), (((0 + 4) + 8)) as int, ((((0 + 4) + 8) + 8)) as int);
    lemma_concat_sub_left(c7, words_bytes(logits), (((0 + 4) + 8)) as int, ((((0 + 4) + 8) + 8)) as int);
    lemma_concat_sub_left(c6, u64_le_bytes(logits.len() as u64), (((0 + 4) + 8)) as int, ((((0 + 4) + 8) + 8)) as int);
    lemma_concat_sub_left(c5, words_bytes(tokens_words(tokens)), (((0 + 4) + 8)) as int, ((((0 + 4) + 8) + 8)) as int);
    lemma_concat_sub_left(c4, u64_le_bytes(tokens.len() as u64), (((0 + 4) + 8)) as int, ((((0 + 4) + 8) + 8)) as int);
    lemma_concat_sub_left(c3, u32_le_bytes(kv_type_code(params.memory_v_type) as u32), (((0 + 4) + 8)) as int, ((((0 + 4) + 8) + 8)) as int);
    lemma_concat_sub_left(c2, u32_le_bytes(kv_type_code(params.memory_k_type) as u32), (((0 + 4) + 8)) as int, ((((0 + 4) + 8) + 8)) as int);
    lemma_concat_sub_right(c1, u64_le_bytes(params.repetition_penalty_last_n as u64));
    lemma_concat_sub_left(c11, memory_v, ((((0 + 4) + 8) + 8)) as int, (((((0 + 4) + 8) + 8) + 4)) as int);
    lemma_concat_sub_left(c10, u64_le_bytes(memory_v.len() as u64), ((((0 + 4) + 8) + 8)) as int, (((((0 + 4) + 8) + 8) + 4)) as int);
    lemma_concat_sub_left(c9, memory_k, ((((0 + 4) + 8) + 8)) as int, (((((0 + 4) + 8) + 8) + 4)) as int);
    lemma_concat_sub_left(c8, u64_le_bytes(memory_k.len() as u64), ((((0 + 4) + 8) + 8)) as int, (((((0 + 4) + 8) + 8) + 4)) as int);
    lemma_concat_sub_left(c7, words_bytes(logits), ((((0 + 4) + 8) + 8)) as int, (((((0 + 4) + 8) + 8) + 4)) as int);
    lemma_concat_sub_left(c6, u64_le_bytes(logits.len() as u64), ((((0 + 4) + 8) + 8)) as int, (((((0 + 4) + 8) + 8) + 4)) as int);
    lemma_concat_sub_left(c5, words_bytes(tokens_words(tokens)), ((((0 + 4) + 8) + 8)) as int, (((((0 + 4) + 8) + 8) + 4)) as int);
    lemma_concat_sub_left(c4, u64_le_bytes(tokens.len() as u64), ((((0 + 4) + 8) + 8)) as int, (((((0 + 4) + 8) + 8) + 4)) as int);
    lemma_concat_sub_left(c3, u32_le_bytes(kv_type_code(params.memory_v_type) as u32), ((((0 + 4) + 8) + 8)) as int, (((((0 + 4) + 8) + 8) + 4)) as int);
    lemma_concat_sub_right(c2, u32_le_bytes(kv_type_code(params.memory_k_type) as u32));
    lemma_concat_sub_left(c11, memory_v, (((((0 + 4) + 8) + 8) + 4)) as int, ((((((0 + 4) + 8) + 8) + 4) + 4)) as int);
    lemma_concat_sub_left(c10, u64_le_bytes(memory_v.len() as u64), (((((0 + 4) + 8) + 8) + 4)) as int, ((((((0 + 4) + 8) + 8) + 4) + 4)) as int);
    lemma_concat_sub_left(c9, memory_k, (((((0 + 4) + 8) + 8) + 4)) as int, ((((((0 + 4) + 8) + 8) + 4) + 4)) as int);
    lemma_concat_sub_left(c8, u64_le_bytes(memory_k.len() as u64), (((((0 + 4) + 8) + 8) + 4)) as int, ((((((0 + 4) + 8) + 8) + 4) + 4)) as int);
    lemma_concat_sub_left(c7, words_bytes(logits), (((((0 + 4) + 8) + 8) + 4)) as int, ((((((0 + 4) + 8) + 8) + 4) + 4)) as int);
    lemma_concat_sub_left(c6, u64_le_bytes(logits.len() as u64), (((((0 + 4) + 8) + 8) + 4)) as int, ((((((0 + 4) + 8) + 8) + 4) + 4)) as int);
    lemma_concat_sub_left(c5, words_bytes(tokens_words(tokens)), (((((0 + 4) + 8) + 8) + 4)) as int, ((((((0 + 4) + 8) + 8) + 4) + 4)) as int);
    lemma_concat_sub_left(c4, u64_le_bytes(tokens.len() as u64), (((((0 + 4) + 8) + 8) + 4)) as int, ((((((0 + 4) + 8) + 8) + 4) + 4)) as int);
    lemma_concat_sub_right(c3, u32_le_bytes(kv_type_code(params.memory_v_type) as u32));
    lemma_concat_sub_left(c11, memory_v, ((((((0 + 4) + 8) + 8) + 4) + 4)) as int, (((((((0 + 4) + 8) + 8) + 4) + 4) + 8)) as int);
    lemma_concat_sub_left(c10, u64_le_bytes(memory_v.len() as u64), ((((((0 + 4) + 8) + 8) + 4) + 4)) as int, (((((((0 + 4) + 8) + 8) + 4) + 4) + 8)) as int);
    lemma_concat_sub_left(c9, memory_k, ((((((0 + 4) + 8) + 8) + 4) + 4)) as int, (((((((0 + 4) + 8) + 8) + 4) + 4) + 8)) as int);
    lemma_concat_sub_left(c8, u64_le_bytes(memory_k.len() as u64), ((((((0 + 4) + 8) + 8) + 4) + 4)) as int, (((((((0 + 4) + 8) + 8) + 4) + 4) + 8)) as int);
    lemma_concat_sub_left(c7, words_bytes(logits), ((((((0 + 4) + 8) + 8) + 4) + 4)) as int, (((((((0 + 4) + 8) + 8) + 4) + 4) + 8)) as int);
    lemma_concat_sub_left(c6, u64_le_bytes(logits.len() as u64), ((((((0 + 4) + 8) + 8) + 4) + 4)) as int, (((((((0 + 4) + 8) + 8) + 4) + 4) + 8)) as int);
    lemma_concat_sub_left(c5, words_bytes(tokens_words(tokens)), ((((((0 + 4) + 8) + 8) + 4) + 4)) as int, (((((((0 + 4) + 8) + 8) + 4) + 4) + 8)) as int);
    lemma_concat_sub_right(c4, u64_le_bytes(tokens.len() as u64));
    lemma_concat_sub_left(c11, memory_v, (((((((0 + 4) + 8) + 8) + 4) + 4) + 8)) as int, ((((((((0 + 4) + 8) + 8) + 4) + 4) + 8) + 4 * t)) as int);
    lemma_concat_sub_left(c10, u64_le_bytes(memory_v.len() as u64), (((((((0 + 4) + 8) + 8) + 4) + 4) + 8)) as int, ((((((((0 + 4) + 8) + 8) + 4) + 4) + 8) + 4 * t)) as int);
    lemma_concat_sub_left(c9, memory_k, (((((((0 + 4) + 8) + 8) + 4) + 4) + 8)) as int, ((((((((0 + 4) + 8) + 8) + 4) + 4) + 8) + 4 * t)) as int);
    lemma_concat_sub_left(c8, u64_le_bytes(memory_k.len() as u64), (((((((0 + 4) + 8) + 8) + 4) + 4) + 8)) as int, ((((((((0 + 4) + 8) + 8) + 4) + 4) + 8) + 4 * t)) as int);
    lemma_concat_sub_left(c7, words_bytes(logits), (((((((0 + 4) + 8) + 8) + 4) + 4) + 8)) as int, ((((((((0 + 4) + 8) + 8) + 4) + 4) + 8) + 4 * t)) as int);
    lemma_concat_sub_left(c6, u64_le_bytes(logits.len() as u64), (((((((0 + 4) + 8) + 8) + 4) + 4) + 8)) as int, ((((((((0 + 4) + 8) + 8) + 4) + 4) + 8) + 4 * t)) as int);
    lemma_concat_sub_right(c5, words_bytes(tokens_words(tokens)));
    lemma_concat_sub_left(c11, memory_v, ((((((((0 + 4) + 8) + 8) + 4) + 4) + 8) + 4 * t)) as int, (((((((((0 + 4) + 8) + 8) + 4) + 4) + 8) + 4 * t) + 8)) as int);
    lemma_concat_sub_left(c10, u64_le_bytes(memory_v.len() as u64), ((((((((0 + 4) + 8) + 8) + 4) + 4) + 8) + 4 * t)) as int, (((((((((0 + 4) + 8) + 8) + 4) + 4) + 8) + 4 * t) + 8)) as int);
    lemma_concat_sub_left(c9, memory_k, ((((((((0 + 4) + 8) + 8) + 4) + 4) + 8) + 4 * t)) as int, (((((((((0 + 4) + 8) + 8) + 4) + 4) + 8) + 4 * t) + 8)) as int);
    lemma_concat_sub_left(c8, u64_le_bytes(memory_k.len() as u64), ((((((((0 + 4) + 8) + 8) + 4) + 4) + 8) + 4 * t)) as int, (((((((((0 + 4) + 8) + 8) + 4) + 4) + 8) + 4 * t) + 8)) as int);
    lemma_concat_sub_left(c7, words_bytes(logits), ((((((((0 + 4) + 8) + 8) + 4) + 4) + 8) + 4 * t)) as int, (((((((((0 + 4) + 8) + 8) + 4) + 4) + 8) + 4 * t) + 8)) as int);
    lemma_concat_sub_right(c6, u64_le_bytes(logits.len() as u64));
    lemma_concat_sub_left(c11, memory_v, (((((((((0 + 4) + 8) + 8) + 4) + 4) + 8) + 4 * t) + 8)) as int, ((((((((((0 + 4) + 8) + 8) + 4) + 4) + 8) + 4 * t) + 8) + 4 * l)) as int);
    lemma_concat_sub_left(c10, u64_le_bytes(memory_v.len() as u64), (((((((((0 + 4) + 8) + 8) + 4) + 4) + 8) + 4 * t) + 8)) as int, ((((((((((0 + 4) + 8) + 8) + 4) + 4) + 8) + 4 * t) + 8) + 4 * l)) as int);
    lemma_concat_sub_left(c9, memory_k, (((((((((0 + 4) + 8) + 8) + 4) + 4) + 8) + 4 * t) + 8)) as int, ((((((((((0 + 4) + 8) + 8) + 4) + 4) + 8) + 4 * t) + 8) + 4 * l)) as int);
    lemma_concat_sub_left(c8, u64_le_bytes(memory_k.len() as u64), (((((((((0 + 4) + 8) + 8) + 4) + 4) + 8) + 4 * t) + 8)) as int, ((((((((((0 + 4) + 8) + 8) + 4) + 4) + 8) + 4 * t) + 8) + 4 * l)) as int);
    lemma_concat_sub_right(c7, words_bytes(logits));
    lemma_concat_sub_left(c11, memory_v, ((((((((((0 + 4) + 8) + 8) + 4) + 4) + 8) + 4 * t) + 8) + 4 * l)) as int, (((((((((((0 + 4) + 8) + 8) + 4) + 4) + 8) + 4 * t) + 8) + 4 * l) + 8)) as int);
    lemma_concat_sub_left(c10, u64_le_bytes(memory_v.len() as u64), ((((((((((0 + 4) + 8) + 8) + 4) + 4) + 8) + 4 * t) + 8) + 4 * l)) as int, (((((((((((0 + 4) + 8) + 8) + 4) + 4) + 8) + 4 * t) + 8) + 4 * l) + 8)) as int);
    lemma_concat_sub_left(c9, memory_k, ((((((((((0 + 4) + 8) + 8) + 4) + 4) + 8) + 4 * t) + 8) + 4 * l)) as int, (((((((((((0 + 4) + 8) + 8) + 4) + 4) + 8) + 4 * t) + 8) + 4 * l) + 8)) as int);
    lemma_concat_sub_right(c8, u64_le_bytes(memory_k.len() as u64));
    lemma_concat_sub_left(c11, memory_v, (((((((((((0 + 4) + 8) + 8) + 4) + 4) + 8) + 4 * t) + 8) + 4 * l) + 8)) as int, ((((((((((((0 + 4) + 8) + 8) + 4) + 4) + 8) + 4 * t) + 8) + 4 * l) + 8) + k)) as int);
    lemma_concat_sub_left(c10, u64_le_bytes(memory_v.len() as u64), (((((((((((0 + 4) + 8) + 8) + 4) + 4) + 8) + 4 * t) + 8) + 4 * l) + 8)) as int, ((((((((((((0 + 4) + 8) + 8) + 4) + 4) + 8) + 4 * t) + 8) + 4 * l) + 8) + k)) as int);
    lemma_concat_sub_right(c9, memory_k);
    lemma_concat_sub_left(c11, memory_v, ((((((((((((0 + 4) + 8) + 8) + 4) + 4) + 8) + 4 * t) + 8) + 4 * l) + 8) + k)) as int, (((((((((((((0 + 4) + 8) + 8) + 4) + 4) + 8) + 4 * t) + 8) + 4 * l) + 8) + k) + 8)) as int);
    lemma_concat_sub_right(c10, u64_le_bytes(memory_v.len() as u64));
    lemma_concat_sub_right(c11, memory_v);
}

/// Snapshot round trip: reading back the bytes a snapshot writes yields the
/// snapshot itself, field for field.  Together with `from_snapshot`, a
/// restored session carries exactly the observable state that was saved.
#[verifier::spinoff_prover]
#[verifier::rlimit(100)]
pub proof fn lemma_snapshot_round_trip(
    npast: int,
    params: InferenceSessionParameters,
    tokens: Seq<TokenId>,
    logits: Seq<u32>,
    memory_k: Seq<u8>,
    memory_v: Seq<u8>,
)
    requires
        0 <= npast <= usize::MAX,
        tokens.len() <= usize::MAX,
        logits.len() <= usize::MAX,
        memory_k.len() <= usize::MAX,
        memory_v.len() <= usize::MAX,
    ensures
        ({
            let r = spec_read_snapshot(
                spec_snapshot_bytes(npast, params, tokens, logits, memory_k, memory_v),
            );
            &&& r is Some
            &&& r->Some_0.npast == npast
            &&& r->Some_0.params == params
            &&& r->Some_0.tokens == tokens
            &&& r->Some_0.logits == logits
            &&& r->Some_0.memory_k == memory_k
            &&& r->Some_0.memory_v == memory_v
        }),
{
    let data = spec_snapshot_bytes(npast, params, tokens, logits, memory_k, memory_v);
    let tw = tokens_words(tokens);
    lemma_words_bytes_len(tw);
    lemma_words_bytes_len(logits);
    let t = tokens.len() as int;
    let l = logits.len() as int;
    let k = memory_k.len() as int;
    let v = memory_v.len() as int;
    let p1 = 36 + 4 * t;
    let p2 = p1 + 8 + 4 * l;
    let p3 = p2 + 8 + k;
    lemma_snapshot_segments(npast, params, tokens, logits, memory_k, memory_v);
    lemma_le32_round_trip(SNAPSHOT_VERSION);
    crate::bytes::lemma_le64_round_trip(npast as u64);
    crate::bytes::lemma_le64_round_trip(params.repetition_penalty_last_n as u64);
    lemma_le32_round_trip(kv_type_code(params.memory_k_type) as u32);
    lemma_le32_round_trip(kv_type_code(params.memory_v_type) as u32);
    crate::bytes::lemma_le64_round_trip(tokens.len() as u64);
    crate::bytes::lemma_le64_round_trip(logits.len() as u64);
    crate::bytes::lemma_le64_round_trip(memory_k.len() as u64);
    crate::bytes::lemma_le64_round_trip(memory_v.len() as u64);

    let rtokens = Seq::new(
        tokens.len(),
        |i: int| as_signed32(le32(data.subrange(36 + 4 * i, 40 + 4 * i)) as u32) as TokenId,
    );
    assert forall|i: int| 0 <= i < t implies rtokens[i] == tokens[i] by {
        lemma_words_bytes_index(tw, i);
        assert(data.subrange(36 + 4 * i, 40 + 4 * i) =~= data.subrange(36, p1).subrange(
            4 * i,
            4 * i + 4,
        ));
        lemma_le32_round_trip(tw[i]);
        crate::bytes::lemma_signed32_round_trip(tokens[i], tw[i]);
    }
    assert(rtokens =~= tokens);

    let rlogits = Seq::new(
        logits.len(),
        |i: int| le32(data.subrange(p1 + 8 + 4 * i, p1 + 12 + 4 * i)) as u32,
    );
    assert forall|i: int| 0 <= i < l implies rlogits[i] == logits[i] by {
        lemma_words_bytes_index(logits, i);
        assert(data.subrange(p1 + 8 + 4 * i, p1 + 12 + 4 * i) =~= data.subrange(
            p1 + 8,
            p2,
        ).subrange(4 * i, 4 * i + 4));
        lemma_le32_round_trip(logits[i]);
    }
    assert(rlogits =~= logits);
}

} // verus!
