//! The target-search pattern of a connection intent: exact text with
//! optionally one `*`, matched anchored against a whole port name, the `*`
//! standing for any substring.
//!
//! The split is made at the first `*`; any further `*` byte is matched
//! literally as part of the suffix.

use vstd::prelude::*;

use crate::names::{
    copy_range, eq_bytes, find_first, first_index_of, lemma_first_index_of, match_at,
    seq_contains_byte, STAR,
};

verus! {

/// Anchored match of pattern `pat` against the whole of `s`: without a
/// `*`, `s` must equal `pat`; with one, `s` must carry the text before the
/// first `*` as its prefix and the text after it as its suffix, without
/// overlap.
pub open spec fn wildcard_match(pat: Seq<u8>, s: Seq<u8>) -> bool {
    if seq_contains_byte(pat, STAR) {
        let i = first_index_of(pat, STAR);
        let pre = pat.subrange(0, i);
        let suf = pat.subrange(i + 1, pat.len() as int);
        s.len() >= pre.len() + suf.len() && s.subrange(0, pre.len() as int) == pre && s.subrange(
            s.len() - suf.len(),
            s.len() as int,
        ) == suf
    } else {
        s == pat
    }
}

/// Decide [`wildcard_match`] of `pat` against `s`.
pub fn matches_pattern(pat: &[u8], s: &[u8]) -> (r: bool)
    ensures
        r == wildcard_match(pat@, s@),
{
    proof {
        lemma_first_index_of(pat@, STAR);
    }
    proof {
        assert(pat.len() == pat@.len());
    }
    match find_first(pat, STAR) {
        Some(i) => {
            let pre = copy_range(pat, 0, i);
            let suf = copy_range(pat, i + 1, pat.len());
            if s.len() < pre.len() || s.len() - pre.len() < suf.len() {
                return false;
            }
            let pre_ok = match_at(s, pre.as_slice(), 0);
            let suf_ok = match_at(s, suf.as_slice(), s.len() - suf.len());
            pre_ok && suf_ok
        },
        None => eq_bytes(pat, s),
    }
}

} // verus!
