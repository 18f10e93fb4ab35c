//! Prompt templating: splicing the user's prompt into a prompt file.
//!
//! A prompt file may hold the placeholder `{{PROMPT}}`; every occurrence is
//! replaced by the prompt the caller supplied.  The scan is left to right and
//! non-overlapping: after a replacement it continues after the spliced-in
//! prompt.  Prompts are byte strings, as everywhere in this crate.

use crate::vocabulary::matches_at;
use vstd::prelude::*;
use vstd::string::StringSliceAdditionalSpecFns;

verus! {

/// The placeholder's bytes.
pub open spec fn prompt_pattern() -> Seq<u8> {
    "{{PROMPT}}".spec_bytes()
}

/// `s` with every occurrence of `pat` replaced by `rep`, scanning left to
/// right without overlap.
pub open spec fn spec_replace(s: Seq<u8>, pat: Seq<u8>, rep: Seq<u8>) -> Seq<u8>
    decreases s.len(),
    when pat.len() >= 1
{
    if s.len() < pat.len() {
        s
    } else if s.subrange(0, pat.len() as int) == pat {
        rep + spec_replace(s.skip(pat.len() as int), pat, rep)
    } else {
        seq![s[0]] + spec_replace(s.skip(1), pat, rep)
    }
}

/// The placeholder as a byte vector.
fn pattern_vec() -> (r: Vec<u8>)
    ensures
        r@ == prompt_pattern(),
        r@.len() >= 1,
{
    let bs = "{{PROMPT}}".as_bytes();
    proof {
        reveal_strlit("{{PROMPT}}");
        vstd::utf8::is_ascii_chars_encode_utf8("{{PROMPT}}"@);
    }
    let n = bs.len();
    let mut r: Vec<u8> = Vec::new();
    let mut i: usize = 0;
    while i < n
        invariant
            i <= n,
            n == bs@.len(),
            bs@ == prompt_pattern(),
            r@ == bs@.subrange(0, i as int),
        decreases n - i,
    {
        r.push(bs[i]);
        i = i + 1;
        proof {
            assert(bs@.subrange(0, i as int) =~= bs@.subrange(0, i - 1).push(bs@[i - 1]));
        }
    }
    proof {
        assert(bs@.subrange(0, n as int) =~= bs@);
    }
    r
}

/// Splices `prompt` into `raw_prompt` at every occurrence of the
/// `{{PROMPT}}` placeholder.
#[verifier::loop_isolation(false)]
#[verifier::rlimit(60)]
pub fn process_prompt(raw_prompt: &Vec<u8>, prompt: &Vec<u8>) -> (r: Vec<u8>)
    ensures
        r@ == spec_replace(raw_prompt@, prompt_pattern(), prompt@),
{
    let pat = pattern_vec();
    let plen = pat.len();
    let n = raw_prompt.len();
    let mut out: Vec<u8> = Vec::new();
    let mut i: usize = 0;
    proof {
        assert(raw_prompt@.skip(0) =~= raw_prompt@);
        assert(Seq::<u8>::empty() + spec_replace(raw_prompt@, prompt_pattern(), prompt@)
            =~= spec_replace(raw_prompt@, prompt_pattern(), prompt@));
    }
    while i < n
        invariant
            i <= n,
            spec_replace(raw_prompt@, prompt_pattern(), prompt@) == out@ + spec_replace(
                raw_prompt@.skip(i as int),
                prompt_pattern(),
                prompt@,
            ),
        decreases n - i,
    {
        let ghost rem = raw_prompt@.skip(i as int);
        if plen <= n - i && matches_at(&pat, raw_prompt, i) {
            proof {
                assert(rem.subrange(0, plen as int) =~= raw_prompt@.subrange(i as int, i + plen));
                assert(rem.skip(plen as int) =~= raw_prompt@.skip(i + plen));
            }
            let mut j: usize = 0;
            let ghost out_mid = out@;
            while j < prompt.len()
                invariant
                    j <= prompt@.len(),
                    out@ == out_mid + prompt@.subrange(0, j as int),
                decreases prompt@.len() - j,
            {
                out.push(prompt[j]);
                j = j + 1;
                proof {
                    assert(out_mid + prompt@.subrange(0, j as int) =~= (out_mid + prompt@.subrange(
                        0,
                        j - 1,
                    )).push(prompt@[j - 1]));
                }
            }
            proof {
                assert(prompt@.subrange(0, prompt@.len() as int) =~= prompt@);
                assert((out_mid + prompt@) + spec_replace(
                    raw_prompt@.skip(i + plen),
                    prompt_pattern(),
                    prompt@,
                ) =~= out_mid + (prompt@ + spec_replace(
                    raw_prompt@.skip(i + plen),
                    prompt_pattern(),
                    prompt@,
                )));
            }
            i = i + plen;
        } else {
            proof {
                if rem.len() >= plen {
                    assert(rem.subrange(0, plen as int) =~= raw_prompt@.subrange(
                        i as int,
                        i + plen,
                    ));
                }
                assert(rem.skip(1) =~= raw_prompt@.skip(i + 1));
                assert(rem[0] == raw_prompt@[i as int]);
            }
            let ghost out_mid = out@;
            out.push(raw_prompt[i]);
            proof {
                assert((out_mid + seq![raw_prompt@[i as int]]) + spec_replace(
                    raw_prompt@.skip(i + 1),
                    prompt_pattern(),
                    prompt@,
                ) =~= out_mid + (seq![raw_prompt@[i as int]] + spec_replace(
                    raw_prompt@.skip(i + 1),
                    prompt_pattern(),
                    prompt@,
                )));
            }
            i = i + 1;
        }
    }
    proof {
        assert(raw_prompt@.skip(n as int) =~= Seq::<u8>::empty());
        assert(out@ + Seq::<u8>::empty() =~= out@);
    }
    out
}

} // verus!
