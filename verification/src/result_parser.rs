//! Lane results are trusted only inside a single sentinel block.
use crate::text::{
    chars_of, first_two_occurrences, lemma_occurrences_below_members, occurrences,
    occurrences_below, occurs_at, string_of, trim, trim_range,
};
use vstd::prelude::*;

verus! {

/// Marks the start of the block that holds a lane's result.
pub const SENTINEL_START: &'static str = "<<<EXECUTAINER_RESULT_START>>>";

/// Marks the end of the block that holds a lane's result.
pub const SENTINEL_END: &'static str = "<<<EXECUTAINER_RESULT_END>>>";

/// A lane's structured result, as decoded from its sentinel payload.
#[derive(Debug, Clone, PartialEq, Eq)]
pub struct ParsedLaneResult {
    pub lane_id: String,
    pub status: String,
    pub summary: String,
    pub proposed_files: Vec<String>,
    pub deferred_files: Vec<String>,
    pub notes: String,
}

#[verifier::external_type_specification]
#[verifier::external_body]
pub struct ExJsonError(serde_json::Error);

/// Why a lane result could not be read.
#[derive(Debug)]
pub enum ParseError {
    /// The start or end sentinel is missing or occurs more than once,
    /// or the end sentinel does not follow the start sentinel.
    MissingSentinel,
    /// The payload between the sentinels is not a valid result document.
    InvalidJson(serde_json::Error),
}

/// The trimmed text between the start and end sentinel of `raw`, when each sentinel
/// occurs exactly once and the end sentinel begins after the start sentinel ends.
pub open spec fn sentinel_payload_spec(raw: Seq<char>) -> Option<Seq<char>> {
    let starts = occurrences(raw, SENTINEL_START@);
    let ends = occurrences(raw, SENTINEL_END@);
    if starts.len() == 1 && ends.len() == 1 && ends[0] > starts[0] + SENTINEL_START@.len() {
        Some(trim(raw.subrange(starts[0] + SENTINEL_START@.len(), ends[0])))
    } else {
        None
    }
}

/// Extracts the payload of the single sentinel block of a lane's output.
/// Fails closed: any other shape of output is `MissingSentinel`.
pub fn sentinel_payload(raw: &str) -> (res: Result<String, ParseError>)
    ensures
        match res {
            Ok(p) => sentinel_payload_spec(raw@) == Some(p@),
            Err(e) => sentinel_payload_spec(raw@) is None && e is MissingSentinel,
        },
{
    let cs = chars_of(raw);
    let start_pat = chars_of(SENTINEL_START);
    let end_pat = chars_of(SENTINEL_END);
    let starts = first_two_occurrences(&cs, &start_pat);
    let ends = first_two_occurrences(&cs, &end_pat);
    if starts.len() != 1 || ends.len() != 1 {
        return Err(ParseError::MissingSentinel);
    }
    let s0 = starts[0];
    let e0 = ends[0];
    proof {
        lemma_occurrences_below_members(cs@, start_pat@, cs@.len() as int);
        lemma_occurrences_below_members(cs@, end_pat@, cs@.len() as int);
        let so = occurrences_below(cs@, start_pat@, cs@.len() as int)[0];
        let eo = occurrences_below(cs@, end_pat@, cs@.len() as int)[0];
        assert(occurs_at(cs@, start_pat@, so));
        assert(occurs_at(cs@, end_pat@, eo));
        assert(s0 as int == so);
        assert(cs@.len() == cs.len());
    }
    let start_idx = s0 + start_pat.len();
    let end_idx = e0;
    if end_idx <= start_idx {
        return Err(ParseError::MissingSentinel);
    }
    let (a, b) = trim_range(&cs, start_idx, end_idx);
    Ok(string_of(&cs, a, b))
}

/// The parser fails closed: a payload is found only when each sentinel occurs exactly
/// once in the output and the end sentinel comes after the start sentinel; output
/// without an end sentinel, or without a start sentinel, gives none.
pub proof fn law_payload_needs_one_of_each_sentinel(raw: Seq<char>)
    ensures
        sentinel_payload_spec(raw) is Some ==> {
            &&& occurrences(raw, SENTINEL_START@).len() == 1
            &&& occurrences(raw, SENTINEL_END@).len() == 1
            &&& occurrences(raw, SENTINEL_START@)[0] + SENTINEL_START@.len() < occurrences(
                raw,
                SENTINEL_END@,
            )[0]
        },
        occurrences(raw, SENTINEL_END@).len() == 0 ==> sentinel_payload_spec(raw) is None,
        occurrences(raw, SENTINEL_START@).len() == 0 ==> sentinel_payload_spec(raw) is None,
{
}

/// A single sentinel block is read back exactly: when `raw` is some text, the start
/// sentinel, a non-empty body, the end sentinel and some more text, and each sentinel
/// occurs in `raw` only there, the payload is the body, trimmed.
pub proof fn law_single_block_reads_back(pre: Seq<char>, body: Seq<char>, post: Seq<char>)
    requires
        body.len() > 0,
        occurrences(pre + SENTINEL_START@ + body + SENTINEL_END@ + post, SENTINEL_START@).len()
            == 1,
        occurrences(pre + SENTINEL_START@ + body + SENTINEL_END@ + post, SENTINEL_END@).len() == 1,
    ensures
        sentinel_payload_spec(pre + SENTINEL_START@ + body + SENTINEL_END@ + post) == Some(
            trim(body),
        ),
{
    reveal_strlit("<<<EXECUTAINER_RESULT_END>>>");
    let s = SENTINEL_START@;
    let e = SENTINEL_END@;
    let raw = pre + s + body + e + post;
    let a = pre.len() as int;
    let b = a + s.len() + body.len();
    assert(raw.subrange(a, a + s.len()) =~= s);
    assert(raw.subrange(b, b + e.len()) =~= e);
    assert(occurs_at(raw, s, a));
    assert(occurs_at(raw, e, b));
    lemma_occurrences_below_members(raw, s, raw.len() as int);
    lemma_occurrences_below_members(raw, e, raw.len() as int);
    let so = occurrences(raw, s);
    let eo = occurrences(raw, e);
    assert(so.contains(a));
    assert(eo.contains(b));
    assert(so[0] == a);
    assert(eo[0] == b);
    assert(raw.subrange(a + s.len(), b) =~= body);
}

} // verus!
