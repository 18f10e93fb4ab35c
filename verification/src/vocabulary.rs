//! The vocabulary: byte-pieces, their scores, and dense token ids.
//!
//! A vocabulary is an ordered sequence of (token-bytes, score) pairs; the
//! token id is the position, so ids are dense in `[0, n_vocab)`.  Scores are
//! stored on disk as 32-bit floats; this crate reads them into a fixed-point
//! integer scale (units of 2 to the -24th), which keeps tokenizer scoring in
//! exact integer arithmetic.  The conversion truncates toward zero, flushes
//! subnormal magnitudes to zero, and saturates magnitudes of 2 to the 40th
//! and beyond (including infinities and NaN patterns).

use crate::TokenId;
use vstd::arithmetic::power2::{
    lemma2_to64, lemma2_to64_rest, lemma_pow2_pos, lemma_pow2_strictly_increases,
    lemma_pow2_unfold, pow2,
};
use vstd::prelude::*;

verus! {

/// One whole unit of the fixed-point token-score scale.
pub const SCORE_ONE: i64 = 0x100_0000;

/// The saturation value for score magnitudes too large for the scale.
pub const SCORE_SATURATED: i64 = 0x7fff_ffff_ffff_ffff;

/// The fixed-point reading of an IEEE 754 single-precision bit pattern, in
/// units of 2 to the -24th: sign times (2^23 + mantissa) times 2^(exponent -
/// 126), truncated toward zero, with zero and subnormal magnitudes reading as
/// zero and magnitudes of 2^40 and beyond (including infinities and NaNs)
/// saturated.
pub open spec fn fixed_from_f32_bits(bits: u32) -> int {
    let m = bits as int % 0x80_0000;
    let e = (bits as int / 0x80_0000) % 0x100;
    let mag: int = if e == 0 {
        0
    } else if e >= 166 {
        SCORE_SATURATED as int
    } else if e >= 126 {
        (0x80_0000 + m) * pow2((e - 126) as nat)
    } else {
        (0x80_0000 + m) / pow2((126 - e) as nat) as int
    };
    if bits >= 0x8000_0000 {
        -mag
    } else {
        mag
    }
}

/// Every fixed-point score fits the saturation bound.
pub proof fn lemma_fixed_score_bounds(bits: u32)
    ensures
        -0x7fff_ffff_ffff_ffff <= fixed_from_f32_bits(bits) <= 0x7fff_ffff_ffff_ffff,
{
    let m = bits as int % 0x80_0000;
    let e = (bits as int / 0x80_0000) % 0x100;
    if 126 <= e < 166 {
        lemma_pow2_pos((e - 126) as nat);
        if e - 126 < 39 {
            lemma_pow2_strictly_increases((e - 126) as nat, 39);
        }
        lemma2_to64();
        lemma2_to64_rest();
        assert((0x80_0000 + m) * pow2((e - 126) as nat) <= 0xff_ffff * 0x80_0000_0000)
            by (nonlinear_arith)
            requires
                0x80_0000 + m <= 0xff_ffff && 1 <= pow2((e - 126) as nat) <= 0x80_0000_0000,
        ;
        assert((0x80_0000 + m) * pow2((e - 126) as nat) >= 0) by (nonlinear_arith)
            requires
                0x80_0000 + m >= 0 && pow2((e - 126) as nat) >= 1,
        ;
    } else if 0 < e < 126 {
        lemma_pow2_pos((126 - e) as nat);
        vstd::arithmetic::div_mod::lemma_div_is_ordered_by_denominator(
            0x80_0000 + m,
            1,
            pow2((126 - e) as nat) as int,
        );
        vstd::arithmetic::div_mod::lemma_div_pos_is_pos(
            0x80_0000 + m,
            pow2((126 - e) as nat) as int,
        );
    }
}

/// Two raised to the power `k`.
fn pow2_u64(k: u64) -> (r: u64)
    requires
        k <= 63,
    ensures
        r == pow2(k as nat),
{
    let mut r: u64 = 1;
    let mut i: u64 = 0;
    proof {
        lemma2_to64();
    }
    while i < k
        invariant
            i <= k <= 63,
            r == pow2(i as nat),
        decreases k - i,
    {
        proof {
            lemma_pow2_strictly_increases(i as nat, 63);
            lemma2_to64();
            lemma2_to64_rest();
            lemma_pow2_unfold((i + 1) as nat);
        }
        r = r * 2;
        i = i + 1;
    }
    r
}

/// The fixed-point token score encoded by a 32-bit float pattern.
pub fn score_from_f32_bits(bits: u32) -> (r: i64)
    ensures
        r as int == fixed_from_f32_bits(bits),
{
    let m = (bits % 0x80_0000) as u64;
    let e = (bits / 0x80_0000) % 0x100;
    let mag: u64 = if e == 0 {
        0
    } else if e >= 166 {
        0x7fff_ffff_ffff_ffffu64
    } else if e >= 126 {
        let p = pow2_u64((e - 126) as u64);
        proof {
            lemma_pow2_pos((e - 126) as nat);
            if e - 126 < 39 {
                lemma_pow2_strictly_increases((e - 126) as nat, 39);
            }
            lemma2_to64();
            lemma2_to64_rest();
            assert(1 <= p as int <= 0x80_0000_0000);
            assert((0x80_0000 + m as int) * (p as int) <= 0xff_ffff * 0x80_0000_0000)
                by (nonlinear_arith)
                requires
                    0x80_0000 + m as int <= 0xff_ffff && 1 <= p as int <= 0x80_0000_0000,
            ;
        }
        (0x80_0000u64 + m) * p
    } else {
        if 126 - e >= 24 {
            proof {
                if 126 - e > 24 {
                    lemma_pow2_strictly_increases(24, (126 - e) as nat);
                }
                lemma2_to64();
                vstd::arithmetic::div_mod::lemma_basic_div(
                    0x80_0000 + m as int,
                    pow2((126 - e) as nat) as int,
                );
            }
            0
        } else {
            let p = pow2_u64((126 - e) as u64);
            proof {
                lemma_pow2_pos((126 - e) as nat);
            }
            (0x80_0000u64 + m) / p
        }
    };
    proof {
        assert(mag <= 0x7fff_ffff_ffff_ffffu64);
    }
    if bits >= 0x8000_0000 {
        -(mag as i64)
    } else {
        mag as i64
    }
}

/// The longest token length among the pieces.
pub open spec fn spec_max_token_len(toks: Seq<Seq<u8>>) -> int
    decreases toks.len(),
{
    if toks.len() == 0 {
        0
    } else {
        let prev = spec_max_token_len(toks.drop_last());
        if toks.last().len() > prev {
            toks.last().len() as int
        } else {
            prev
        }
    }
}

/// Ordered sequence of (token-bytes, score); token id = position.
pub struct Vocabulary {
    /// Maps every token id to its byte piece.
    pub id_to_token: Vec<Vec<u8>>,
    /// Maps every token id to its score, in fixed-point units of 2^-24.
    pub id_to_token_score: Vec<i64>,
    /// The longest token length, in bytes.
    pub max_token_length: usize,
}

impl Vocabulary {
    /// One score per token, and the cached longest length is exact.
    pub open spec fn wf(&self) -> bool {
        &&& self.id_to_token_score.len() == self.id_to_token.len()
        &&& self.id_to_token@.len() <= 0x8000_0000
        &&& self.max_token_length == spec_max_token_len(
            self.id_to_token@.map_values(|t: Vec<u8>| t@),
        )
    }

    /// An empty vocabulary.
    pub fn new() -> (r: Vocabulary)
        ensures
            r.wf(),
            r.id_to_token@.len() == 0,
    {
        Vocabulary { id_to_token: Vec::new(), id_to_token_score: Vec::new(), max_token_length: 0 }
    }

    /// Number of tokens; ids are dense in `[0, len)`.
    pub fn len(&self) -> (r: usize)
        ensures
            r == self.id_to_token@.len(),
    {
        self.id_to_token.len()
    }

    /// Appends the token with the next dense id.
    pub fn push_token(&mut self, id: TokenId, content: Vec<u8>, score: i64)
        requires
            old(self).wf(),
            id == old(self).id_to_token@.len(),
        ensures
            final(self).wf(),
            final(self).id_to_token@ == old(self).id_to_token@.push(content),
            final(self).id_to_token_score@ == old(self).id_to_token_score@.push(score),
    {
        // `id` only names the position the contract already fixes.
        let _ = id;
        if content.len() > self.max_token_length {
            self.max_token_length = content.len();
        }
        self.id_to_token.push(content);
        self.id_to_token_score.push(score);
        proof {
            let toks = final(self).id_to_token@.map_values(|t: Vec<u8>| t@);
            assert(toks.drop_last() =~= old(self).id_to_token@.map_values(|t: Vec<u8>| t@));
        }
    }

    /// The byte piece of a token id.
    pub fn token_bytes(&self, id: TokenId) -> (r: &Vec<u8>)
        requires
            0 <= id < self.id_to_token@.len(),
        ensures
            r@ == self.id_to_token@[id as int]@,
    {
        &self.id_to_token[id as usize]
    }
}


/// Whether the vocabulary piece ends exactly at position `i` of `s`.  An
/// empty piece never matches.
pub open spec fn token_matches_at(s: Seq<u8>, piece: Seq<u8>, i: int) -> bool {
    1 <= piece.len() <= i && s.subrange(i - piece.len(), i) == piece
}

/// The best (score, piece length, id) of a tokenization of `s[..i]` whose
/// last piece is one of the first `t` vocabulary entries: the dynamic program
/// of greedy longest-match scored tokenization.  Ties are broken by the
/// longest piece, then by the smallest id.
pub open spec fn spec_best_at(
    toks: Seq<Seq<u8>>,
    scores: Seq<i64>,
    s: Seq<u8>,
    i: int,
    t: nat,
) -> Option<(int, int, int)>
    decreases i, t, 0nat,
    when 0 <= i && t <= toks.len()
{
    if i <= 0 || t == 0 {
        None
    } else {
        let prev = spec_best_at(toks, scores, s, i, (t - 1) as nat);
        let tid = t - 1;
        let cand: Option<(int, int, int)> = if token_matches_at(s, toks[tid as int], i)
            && spec_score(toks, scores, s, i - toks[tid as int].len()) is Some {
            Some(
                (
                    spec_score(toks, scores, s, i - toks[tid as int].len())->Some_0 + scores[tid as int],
                    toks[tid as int].len() as int,
                    tid as int,
                ),
            )
        } else {
            None
        };
        if cand is None {
            prev
        } else if prev is None {
            cand
        } else {
            let c = cand->Some_0;
            let p = prev->Some_0;
            if c.0 > p.0 || (c.0 == p.0 && c.1 > p.1) {
                cand
            } else {
                prev
            }
        }
    }
}

/// The best total score of a tokenization of `s[..i]`, when one exists.
pub open spec fn spec_score(toks: Seq<Seq<u8>>, scores: Seq<i64>, s: Seq<u8>, i: int) -> Option<
    int,
>
    decreases i, toks.len(), 1nat,
    when 0 <= i
{
    if i <= 0 {
        Some(0)
    } else {
        match spec_best_at(toks, scores, s, i, toks.len()) {
            Some(c) => Some(c.0),
            None => None,
        }
    }
}

/// Ranges of the dynamic program's answers: scores grow at most one
/// saturated score per consumed byte, pieces are nonempty and fit, ids name
/// vocabulary entries.
pub proof fn lemma_best_at_bounds(toks: Seq<Seq<u8>>, scores: Seq<i64>, s: Seq<u8>, i: int, t: nat)
    requires
        0 <= i,
        t <= toks.len(),
    ensures
        spec_best_at(toks, scores, s, i, t) is Some ==> {
            let c = spec_best_at(toks, scores, s, i, t)->Some_0;
            &&& 1 <= c.1 <= i
            &&& 0 <= c.2 < t
            &&& toks[c.2].len() == c.1
            &&& spec_score(toks, scores, s, i - c.1) is Some
            &&& c.0 == spec_score(toks, scores, s, i - c.1)->Some_0 + scores[c.2]
            &&& -(i * 0x8000_0000_0000_0000) <= c.0 <= i * 0x8000_0000_0000_0000
        },
    decreases i, t, 0nat,
{
    if i > 0 && t > 0 {
        lemma_best_at_bounds(toks, scores, s, i, (t - 1) as nat);
        let tid = (t - 1) as int;
        if token_matches_at(s, toks[tid], i) && spec_score(
            toks,
            scores,
            s,
            i - toks[tid].len(),
        ) is Some {
            lemma_score_bounds(toks, scores, s, i - toks[tid].len());
        }
    }
}

/// The best score of a prefix is bounded by one saturated score per byte.
pub proof fn lemma_score_bounds(toks: Seq<Seq<u8>>, scores: Seq<i64>, s: Seq<u8>, i: int)
    requires
        0 <= i,
    ensures
        spec_score(toks, scores, s, i) is Some ==> -(i * 0x8000_0000_0000_0000) <= spec_score(
            toks,
            scores,
            s,
            i,
        )->Some_0 <= i * 0x8000_0000_0000_0000,
    decreases i, toks.len(), 1nat,
{
    if i > 0 {
        lemma_best_at_bounds(toks, scores, s, i, toks.len());
    }
}

#[via_fn]
proof fn spec_tokenize_decreases(toks: Seq<Seq<u8>>, scores: Seq<i64>, s: Seq<u8>, i: int) {
    if i > 0 {
        lemma_best_at_bounds(toks, scores, s, i, toks.len());
    }
}

/// The token sequence the dynamic program picks for `s[..i]`, when the bytes
/// are covered by the vocabulary.
pub open spec fn spec_tokenize(toks: Seq<Seq<u8>>, scores: Seq<i64>, s: Seq<u8>, i: int) -> Option<
    Seq<crate::TokenId>,
>
    decreases i
    when 0 <= i
    via spec_tokenize_decreases
{
    if i <= 0 {
        Some(Seq::empty())
    } else {
        match spec_best_at(toks, scores, s, i, toks.len()) {
            None => None,
            Some(c) => match spec_tokenize(toks, scores, s, i - c.1) {
                None => None,
                Some(pre) => Some(pre.push(c.2 as crate::TokenId)),
            },
        }
    }
}

/// Whether `piece` equals `text[at .. at + piece.len()]`.
pub(crate) fn matches_at(piece: &Vec<u8>, text: &Vec<u8>, at: usize) -> (r: bool)
    requires
        at + piece@.len() <= text@.len(),
    ensures
        r == (text@.subrange(at as int, at + piece@.len()) == piece@),
{
    let text_len = text.len();
    let piece_len = piece.len();
    let mut j: usize = 0;
    while j < piece_len
        invariant
            j <= piece_len,
            piece_len == piece@.len(),
            text_len == text@.len(),
            at + piece_len <= text_len,
            forall|k: int| 0 <= k < j ==> #[trigger] text@[at + k] == piece@[k],
        decreases piece_len - j,
    {
        if text[at + j] != piece[j] {
            proof {
                assert(text@.subrange(at as int, at + piece@.len())[j as int] != piece@[j as int]);
            }
            return false;
        }
        j = j + 1;
    }
    proof {
        assert forall|k: int| 0 <= k < piece@.len() implies text@.subrange(
            at as int,
            at + piece@.len(),
        )[k] == piece@[k] by {
            assert(text@[at + k] == piece@[k]);
        }
        assert(text@.subrange(at as int, at + piece@.len()) =~= piece@);
    }
    true
}


/// A prefix with a best score has a tokenization.
pub proof fn lemma_tokenize_some(toks: Seq<Seq<u8>>, scores: Seq<i64>, s: Seq<u8>, i: int)
    requires
        0 <= i,
        spec_score(toks, scores, s, i) is Some,
    ensures
        spec_tokenize(toks, scores, s, i) is Some,
    decreases i,
{
    if i > 0 {
        lemma_best_at_bounds(toks, scores, s, i, toks.len());
        let c = spec_best_at(toks, scores, s, i, toks.len())->Some_0;
        lemma_tokenize_some(toks, scores, s, i - c.1);
    }
}

/// How one dynamic-program cell relates to the spec answer for prefix length
/// `k`: position 0 holds the seed, every other position holds exactly the
/// spec's best choice, or nothing where no tokenization covers the prefix.
pub open spec fn dp_cell_matches(
    cell: Option<(i128, usize, crate::TokenId)>,
    toks: Seq<Seq<u8>>,
    scores: Seq<i64>,
    s: Seq<u8>,
    k: int,
) -> bool {
    if k == 0 {
        cell == Some((0i128, 0usize, 0i32))
    } else {
        match spec_best_at(toks, scores, s, k, toks.len()) {
            None => cell is None,
            Some(c) => {
                &&& cell is Some
                &&& cell->Some_0.0 as int == c.0
                &&& cell->Some_0.1 as int == c.1
                &&& cell->Some_0.2 as int == c.2
            },
        }
    }
}

impl Vocabulary {
    /// Tokenizes `text` by the greedy longest-match scored dynamic program:
    /// the result maximizes the total score among all coverings of the bytes
    /// by vocabulary pieces, ties broken by the longest last piece, then by
    /// the smallest id.  Bytes covered by no piece fail tokenization.  When
    /// `bos` is set, the beginning-of-sentence token (id 1) is prepended.
    #[verifier::loop_isolation(false)]
    #[verifier::rlimit(60)]
    pub fn tokenize(&self, text: &Vec<u8>, bos: bool) -> (r: Result<
        Vec<crate::TokenId>,
        crate::session::InferenceError,
    >)
        requires
            self.wf(),
            text@.len() < usize::MAX,
            bos ==> self.id_to_token@.len() >= 2,
        ensures
            ({
                let toks = self.id_to_token@.map_values(|v: Vec<u8>| v@);
                let scs = self.id_to_token_score@;
                match spec_tokenize(toks, scs, text@, text@.len() as int) {
                    Some(ids) => r is Ok && r->Ok_0@ == if bos {
                        seq![1 as crate::TokenId] + ids
                    } else {
                        ids
                    },
                    None => r == Err::<Vec<crate::TokenId>, crate::session::InferenceError>(
                        crate::session::InferenceError::TokenizationFailed,
                    ),
                }
            }),
    {
        let ghost toks = self.id_to_token@.map_values(|v: Vec<u8>| v@);
        let ghost scs = self.id_to_token_score@;
        let ghost s = text@;
        let n = text.len();
        let v = self.id_to_token.len();

        let mut best: Vec<Option<(i128, usize, crate::TokenId)>> = Vec::new();
        best.push(Some((0i128, 0usize, 0i32)));
        let mut i: usize = 1;
        while i <= n
            invariant
                1 <= i <= n + 1,
                best@.len() == i,
                forall|k: int| 0 <= k < i ==> dp_cell_matches(#[trigger] best@[k], toks, scs, s, k),
            decreases n + 1 - i,
        {
            let mut cand: Option<(i128, usize, crate::TokenId)> = None;
            let mut t: usize = 0;
            while t < v
                invariant
                    t <= v,
                    (match spec_best_at(toks, scs, s, i as int, t as nat) {
                        None => cand is None,
                        Some(c) => {
                            &&& cand is Some
                            &&& cand->Some_0.0 as int == c.0
                            &&& cand->Some_0.1 as int == c.1
                            &&& cand->Some_0.2 as int == c.2
                        },
                    }),
                decreases v - t,
            {
                let piece_len = self.id_to_token[t].len();
                if piece_len >= 1 && piece_len <= i && matches_at(&self.id_to_token[t], text, i
                    - piece_len) {
                    let prev = best[i - piece_len];
                    match prev {
                        Some(p) => {
                            proof {
                                lemma_score_bounds(toks, scs, s, i - piece_len);
                            }
                            let sc = p.0 + (self.id_to_token_score[t] as i128);
                            let better = match cand {
                                None => true,
                                Some(c) => sc > c.0 || (sc == c.0 && piece_len > c.1),
                            };
                            if better {
                                cand = Some((sc, piece_len, t as i32));
                            }
                        },
                        None => {},
                    }
                }
                t = t + 1;
                proof {
                    assert(toks[t - 1] =~= self.id_to_token@[t - 1]@);
                }
            }
            best.push(cand);
            i = i + 1;
        }

        if n > 0 {
            if best[n].is_none() {
                return Err(crate::session::InferenceError::TokenizationFailed);
            }
        }
        proof {
            if n > 0 {
                lemma_tokenize_some(toks, scs, s, n as int);
            }
        }

        let mut ids: Vec<crate::TokenId> = Vec::new();
        let mut pos: usize = n;
        while pos > 0
            invariant
                pos <= n,
                spec_tokenize(toks, scs, s, pos as int) is Some,
                spec_tokenize(toks, scs, s, n as int) is Some,
                spec_tokenize(toks, scs, s, n as int)->Some_0 == spec_tokenize(
                    toks,
                    scs,
                    s,
                    pos as int,
                )->Some_0 + ids@,
            decreases pos,
        {
            proof {
                lemma_best_at_bounds(toks, scs, s, pos as int, toks.len());
            }
            match best[pos] {
                Some(cc) => {
                    let ghost pre = spec_tokenize(toks, scs, s, pos - cc.1 as int)->Some_0;
                    let ghost ids_before = ids@;
                    proof {
                        lemma_tokenize_some(toks, scs, s, pos - cc.1 as int);
                        assert(pre + (seq![cc.2] + ids_before) =~= pre.push(cc.2) + ids_before);
                    }
                    ids.insert(0, cc.2);
                    proof {
                        assert(ids@ =~= seq![cc.2] + ids_before);
                    }
                    pos = pos - cc.1;
                },
                None => {
                    proof {
                        assert(false);
                    }
                },
            }
        }
        proof {
            assert(Seq::<crate::TokenId>::empty() + ids@ =~= ids@);
        }
        if bos {
            let ghost ids0 = ids@;
            ids.insert(0, 1);
            proof {
                assert(ids@ =~= seq![1 as crate::TokenId] + ids0);
            }
        }
        Ok(ids)
    }
}

} // verus!
