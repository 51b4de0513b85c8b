//! Helpers on byte-string names: searching, trimming, splitting on the
//! `node:port` separator, and whitespace tokenization of filter strings.
//!
//! Port, node, command and filter names are byte strings (`Vec<u8>` /
//! `&[u8]`); every helper carries a contract over the corresponding
//! `Seq<u8>` view.

use vstd::prelude::*;

verus! {

pub const COLON: u8 = 58;

pub const STAR: u8 = 42;

pub const COMMA: u8 = 44;

pub const NL: u8 = 10;

pub const CR: u8 = 13;

pub const TAB: u8 = 9;

pub const SPACE: u8 = 32;

pub const PLUS: u8 = 43;

/// ASCII whitespace, as `char::is_whitespace` sees it on ASCII text:
/// tab, line feed, vertical tab, form feed, carriage return, space.
pub open spec fn is_space(b: u8) -> bool {
    b == 9 || b == 10 || b == 11 || b == 12 || b == 13 || b == 32
}

/// Executable test for [`is_space`].
pub fn byte_is_space(b: u8) -> (r: bool)
    ensures
        r == is_space(b),
{
    b == 9 || b == 10 || b == 11 || b == 12 || b == 13 || b == 32
}

/// True when byte `b` occurs in `s`.
pub open spec fn seq_contains_byte(s: Seq<u8>, b: u8) -> bool {
    exists|i: int| 0 <= i < s.len() && s[i] == b
}

/// Scan `s` for byte `b`.
#[verifier::loop_isolation(false)]
pub fn contains_byte(s: &[u8], b: u8) -> (r: bool)
    ensures
        r == seq_contains_byte(s@, b),
{
    let mut i: usize = 0;
    while i < s.len()
        invariant
            i <= s.len(),
            forall|j: int| 0 <= j < i ==> s@[j] != b,
        decreases s.len() - i,
    {
        if s[i] == b {
            return true;
        }
        i += 1;
    }
    false
}

/// Index of the first occurrence of `b` in `s`, or -1 when absent.
pub open spec fn first_index_of(s: Seq<u8>, b: u8) -> int
    decreases s.len(),
{
    if s.len() == 0 {
        -1
    } else if s[0] == b {
        0
    } else {
        let r = first_index_of(s.drop_first(), b);
        if r < 0 {
            -1
        } else {
            r + 1
        }
    }
}

/// [`first_index_of`] finds the least index holding `b`, and -1 exactly
/// when `b` is absent.
pub proof fn lemma_first_index_of(s: Seq<u8>, b: u8)
    ensures
        seq_contains_byte(s, b) ==> {
            let r = first_index_of(s, b);
            0 <= r < s.len() && s[r] == b && (forall|j: int| 0 <= j < r ==> s[j] != b)
        },
        !seq_contains_byte(s, b) ==> first_index_of(s, b) == -1,
    decreases s.len(),
{
    if s.len() > 0 && s[0] != b {
        let t = s.drop_first();
        lemma_first_index_of(t, b);
        if seq_contains_byte(s, b) {
            let w = choose|i: int| 0 <= i < s.len() && s[i] == b;
            assert(t[w - 1] == b);
        }
        if seq_contains_byte(t, b) {
            let w = choose|i: int| 0 <= i < t.len() && t[i] == b;
            assert(s[w + 1] == b);
            let r = first_index_of(s, b);
            let rt = first_index_of(t, b);
            assert(t[rt] == s[rt + 1]);
            assert forall|j: int| 0 <= j < r implies s[j] != b by {
                if j > 0 {
                    assert(t[j - 1] != b);
                    assert(t[j - 1] == s[j]);
                }
            }
        }
    }
}

/// Find the first occurrence of `b` in `s`.
#[verifier::loop_isolation(false)]
pub fn find_first(s: &[u8], b: u8) -> (r: Option<usize>)
    ensures
        match r {
            Some(i) => i == first_index_of(s@, b) && i < s@.len() && s@[i as int] == b,
            None => !seq_contains_byte(s@, b) && first_index_of(s@, b) == -1,
        },
{
    proof {
        lemma_first_index_of(s@, b);
    }
    let mut i: usize = 0;
    while i < s.len()
        invariant
            i <= s.len(),
            forall|j: int| 0 <= j < i ==> s@[j] != b,
        decreases s.len() - i,
    {
        if s[i] == b {
            proof {
                let r = first_index_of(s@, b);
                assert(seq_contains_byte(s@, b));
                if r < i {
                    assert(s@[r] != b);
                }
                if i < r {
                    assert(s@[i as int] != b);
                }
            }
            return Some(i);
        }
        i += 1;
    }
    None
}

/// Index of the last occurrence of `b` in `s`, or -1 when absent.
pub open spec fn last_index_of(s: Seq<u8>, b: u8) -> int
    decreases s.len(),
{
    if s.len() == 0 {
        -1
    } else if s.last() == b {
        s.len() - 1
    } else {
        last_index_of(s.drop_last(), b)
    }
}

/// [`last_index_of`] finds the greatest index holding `b`, and -1 exactly
/// when `b` is absent.
pub proof fn lemma_last_index_of(s: Seq<u8>, b: u8)
    ensures
        seq_contains_byte(s, b) ==> {
            let r = last_index_of(s, b);
            0 <= r < s.len() && s[r] == b && (forall|j: int| r < j < s.len() ==> s[j] != b)
        },
        !seq_contains_byte(s, b) ==> last_index_of(s, b) == -1,
    decreases s.len(),
{
    if s.len() > 0 && s.last() != b {
        lemma_last_index_of(s.drop_last(), b);
        assert(forall|i: int| 0 <= i < s.len() - 1 ==> s.drop_last()[i] == s[i]);
        if seq_contains_byte(s, b) {
            let w = choose|i: int| 0 <= i < s.len() && s[i] == b;
            assert(s.drop_last()[w] == b);
        }
        if seq_contains_byte(s.drop_last(), b) {
            let w = choose|i: int| 0 <= i < s.len() - 1 && s.drop_last()[i] == b;
            assert(s[w] == b);
        }
    }
}

/// Compare two byte strings for equality.
#[verifier::loop_isolation(false)]
pub fn eq_bytes(a: &[u8], b: &[u8]) -> (r: bool)
    ensures
        r == (a@ == b@),
{
    if a.len() != b.len() {
        return false;
    }
    let mut i: usize = 0;
    while i < a.len()
        invariant
            i <= a.len(),
            a@.len() == b@.len(),
            forall|j: int| 0 <= j < i ==> a@[j] == b@[j],
        decreases a.len() - i,
    {
        if a[i] != b[i] {
            return false;
        }
        i += 1;
    }
    proof {
        assert(a@ =~= b@);
    }
    true
}

/// True when `pre` is a prefix of `s`.
pub open spec fn has_prefix(s: Seq<u8>, pre: Seq<u8>) -> bool {
    s.len() >= pre.len() && s.subrange(0, pre.len() as int) == pre
}

/// Test whether `pre` is a prefix of `s`.
#[verifier::loop_isolation(false)]
pub fn is_prefix(s: &[u8], pre: &[u8]) -> (r: bool)
    ensures
        r == has_prefix(s@, pre@),
{
    if s.len() < pre.len() {
        return false;
    }
    let mut i: usize = 0;
    while i < pre.len()
        invariant
            i <= pre.len(),
            pre@.len() <= s@.len(),
            forall|j: int| 0 <= j < i ==> s@[j] == pre@[j],
        decreases pre.len() - i,
    {
        if s[i] != pre[i] {
            proof {
                assert(s@.subrange(0, pre@.len() as int)[i as int] != pre@[i as int]);
            }
            return false;
        }
        i += 1;
    }
    proof {
        assert(s@.subrange(0, pre@.len() as int) =~= pre@);
    }
    true
}

/// True when `needle` occurs somewhere in `hay` as a contiguous run.
pub open spec fn contains_sub(hay: Seq<u8>, needle: Seq<u8>) -> bool {
    exists|i: int|
        0 <= i && i + needle.len() <= hay.len() && #[trigger] hay.subrange(
            i,
            i + needle.len() as int,
        ) == needle
}

/// Compare `needle` against the bytes of `hay` starting at `at`.
#[verifier::loop_isolation(false)]
pub(crate) fn match_at(hay: &[u8], needle: &[u8], at: usize) -> (r: bool)
    requires
        at + needle@.len() <= hay@.len(),
    ensures
        r == (hay@.subrange(at as int, at + needle@.len() as int) == needle@),
{
    let h = hay.len();
    let n = needle.len();
    let mut j: usize = 0;
    while j < n
        invariant
            h == hay@.len(),
            n == needle@.len(),
            at + n <= h,
            j <= n,
            forall|m: int| 0 <= m < j ==> hay@[at + m] == needle@[m],
        decreases n - j,
    {
        if hay[at + j] != needle[j] {
            proof {
                assert(hay@.subrange(at as int, at + needle@.len() as int)[j as int] != needle@[
                    j as int
                ]);
            }
            return false;
        }
        j += 1;
    }
    proof {
        assert(hay@.subrange(at as int, at + needle@.len() as int) =~= needle@);
    }
    true
}

/// Substring search: does `needle` occur in `hay`?
#[verifier::loop_isolation(false)]
pub fn find_sub(hay: &[u8], needle: &[u8]) -> (r: bool)
    ensures
        r == contains_sub(hay@, needle@),
{
    if needle.len() > hay.len() {
        return false;
    }
    if needle.len() == 0 {
        proof {
            assert(hay@.subrange(0, 0 + needle@.len() as int) =~= needle@);
        }
        return true;
    }
    let bound = hay.len() - needle.len();
    let mut i: usize = 0;
    while i <= bound
        invariant
            needle@.len() <= hay@.len(),
            bound == hay@.len() - needle@.len(),
            i <= bound + 1,
            forall|k: int|
                0 <= k < i ==> #[trigger] hay@.subrange(k, k + needle@.len() as int) != needle@,
        decreases bound + 1 - i,
    {
        if match_at(hay, needle, i) {
            return true;
        }
        i += 1;
    }
    false
}

/// Copy a range of `s` into a fresh vector.
#[verifier::loop_isolation(false)]
pub fn copy_range(s: &[u8], from: usize, to: usize) -> (r: Vec<u8>)
    requires
        from <= to <= s@.len(),
    ensures
        r@ == s@.subrange(from as int, to as int),
{
    let mut r: Vec<u8> = Vec::new();
    let mut i: usize = from;
    proof {
        assert(r@ =~= s@.subrange(from as int, from as int));
    }
    while i < to
        invariant
            from <= i <= to <= s@.len(),
            r@ == s@.subrange(from as int, i as int),
        decreases to - i,
    {
        r.push(s[i]);
        proof {
            assert(r@ =~= s@.subrange(from as int, i + 1));
        }
        i += 1;
    }
    r
}

/// Copy a byte string.
pub fn copy_bytes(s: &[u8]) -> (r: Vec<u8>)
    ensures
        r@ == s@,
{
    let r = copy_range(s, 0, s.len());
    proof {
        assert(s@.subrange(0, s@.len() as int) =~= s@);
    }
    r
}

/// `a`, a colon, then `b` — the `node:port` form.
#[verifier::loop_isolation(false)]
pub fn join_colon(a: &[u8], b: &[u8]) -> (r: Vec<u8>)
    ensures
        r@ == a@ + seq![COLON] + b@,
{
    let mut r = copy_range(a, 0, a.len());
    r.push(COLON);
    proof {
        assert(r@ =~= a@ + seq![COLON]);
    }
    let mut i: usize = 0;
    while i < b.len()
        invariant
            i <= b.len(),
            r@ == a@ + seq![COLON] + b@.subrange(0, i as int),
        decreases b.len() - i,
    {
        r.push(b[i]);
        proof {
            assert(r@ =~= a@ + seq![COLON] + b@.subrange(0, i + 1));
        }
        i += 1;
    }
    proof {
        assert(a@ + seq![COLON] + b@.subrange(0, b@.len() as int) =~= a@ + seq![COLON] + b@);
    }
    r
}

/// The part of `t` after its last colon, or all of `t` when it has none.
pub open spec fn suffix_after_last_colon(t: Seq<u8>) -> Seq<u8> {
    if seq_contains_byte(t, COLON) {
        t.subrange(last_index_of(t, COLON) + 1, t.len() as int)
    } else {
        t
    }
}

/// Extract [`suffix_after_last_colon`] of `t`.
#[verifier::loop_isolation(false)]
pub fn port_suffix(t: &[u8]) -> (r: Vec<u8>)
    ensures
        r@ == suffix_after_last_colon(t@),
{
    proof {
        lemma_last_index_of(t@, COLON);
    }
    let mut i: usize = t.len();
    while i > 0
        invariant
            i <= t.len(),
            forall|j: int| i <= j < t@.len() ==> t@[j] != COLON,
        decreases i,
    {
        if t[i - 1] == COLON {
            proof {
                assert(seq_contains_byte(t@, COLON));
                let r = last_index_of(t@, COLON);
                if r < i - 1 {
                    assert(t@[i - 1] != COLON);
                }
                if r > i - 1 {
                    assert(t@[r] != COLON);
                }
            }
            return copy_range(t, i, t.len());
        }
        i -= 1;
    }
    proof {
        assert(!seq_contains_byte(t@, COLON));
        assert(t@.subrange(0, t@.len() as int) =~= t@);
    }
    copy_range(t, 0, t.len())
}

/// The part of `t` before its first colon, or all of `t` when it has none:
/// the node name of a `node:port` port name.
pub open spec fn node_prefix(t: Seq<u8>) -> Seq<u8> {
    if seq_contains_byte(t, COLON) {
        t.subrange(0, first_index_of(t, COLON))
    } else {
        t
    }
}

/// Extract [`node_prefix`] of `t`.
pub fn node_of(t: &[u8]) -> (r: Vec<u8>)
    ensures
        r@ == node_prefix(t@),
{
    proof {
        lemma_first_index_of(t@, COLON);
        assert(t@.subrange(0, t@.len() as int) =~= t@);
    }
    match find_first(t, COLON) {
        Some(i) => copy_range(t, 0, i),
        None => copy_range(t, 0, t.len()),
    }
}

/// Drop leading ASCII whitespace.
pub open spec fn trim_start(s: Seq<u8>) -> Seq<u8>
    decreases s.len(),
{
    if s.len() > 0 && is_space(s[0]) {
        trim_start(s.drop_first())
    } else {
        s
    }
}

/// Drop trailing ASCII whitespace.
pub open spec fn trim_end(s: Seq<u8>) -> Seq<u8>
    decreases s.len(),
{
    if s.len() > 0 && is_space(s.last()) {
        trim_end(s.drop_last())
    } else {
        s
    }
}

/// Drop leading and trailing ASCII whitespace.
pub open spec fn trim_spec(s: Seq<u8>) -> Seq<u8> {
    trim_end(trim_start(s))
}

/// When the first `i` bytes are whitespace and byte `i` (if any) is not,
/// [`trim_start`] is exactly `s` without those `i` bytes.
proof fn lemma_trim_start_at(s: Seq<u8>, i: int)
    requires
        0 <= i <= s.len(),
        forall|k: int| 0 <= k < i ==> is_space(s[k]),
        i == s.len() || !is_space(s[i]),
    ensures
        trim_start(s) == s.skip(i),
    decreases i,
{
    if i == 0 {
        assert(s.skip(0) =~= s);
    } else {
        assert(is_space(s[0]));
        lemma_trim_start_at(s.drop_first(), i - 1);
        assert(s.drop_first().skip(i - 1) =~= s.skip(i));
    }
}

/// When the bytes from `j` on are whitespace and byte `j - 1` (if any) is
/// not, [`trim_end`] is exactly the first `j` bytes of `s`.
proof fn lemma_trim_end_at(s: Seq<u8>, j: int)
    requires
        0 <= j <= s.len(),
        forall|k: int| j <= k < s.len() ==> is_space(s[k]),
        j == 0 || !is_space(s[j - 1]),
    ensures
        trim_end(s) == s.take(j),
    decreases s.len() - j,
{
    if j == s.len() {
        assert(s.take(j) =~= s);
    } else {
        assert(is_space(s.last()));
        lemma_trim_end_at(s.drop_last(), j);
        assert(s.drop_last().take(j) =~= s.take(j));
    }
}

/// Copy `s` with leading and trailing ASCII whitespace removed.
#[verifier::loop_isolation(false)]
pub fn trim(s: &[u8]) -> (r: Vec<u8>)
    ensures
        r@ == trim_spec(s@),
{
    let mut from: usize = 0;
    while from < s.len() && byte_is_space(s[from])
        invariant
            from <= s.len(),
            forall|k: int| 0 <= k < from ==> is_space(s@[k]),
        decreases s.len() - from,
    {
        from += 1;
    }
    proof {
        lemma_trim_start_at(s@, from as int);
    }
    let mut to: usize = s.len();
    while to > from && byte_is_space(s[to - 1])
        invariant
            from <= to <= s.len(),
            forall|k: int| to <= k < s@.len() ==> is_space(s@[k]),
        decreases to,
    {
        to -= 1;
    }
    proof {
        let tail = s@.skip(from as int);
        lemma_trim_end_at(tail, to - from);
        assert(tail.take(to - from) =~= s@.subrange(from as int, to as int));
    }
    copy_range(s, from, to)
}

/// The whitespace-separated tokens of `s`, given that `cur` holds the
/// partial token read so far: the running state of a left-to-right scan.
pub open spec fn tokens_go(s: Seq<u8>, cur: Seq<u8>) -> Seq<Seq<u8>>
    decreases s.len(),
{
    if s.len() == 0 {
        if cur.len() > 0 {
            seq![cur]
        } else {
            seq![]
        }
    } else if is_space(s[0]) {
        if cur.len() > 0 {
            seq![cur] + tokens_go(s.drop_first(), seq![])
        } else {
            tokens_go(s.drop_first(), seq![])
        }
    } else {
        tokens_go(s.drop_first(), cur.push(s[0]))
    }
}

/// The whitespace-separated tokens of `s`, in order.
pub open spec fn tokens_spec(s: Seq<u8>) -> Seq<Seq<u8>> {
    tokens_go(s, seq![])
}

/// Split `s` into whitespace-separated tokens.
#[verifier::loop_isolation(false)]
pub fn split_tokens(s: &[u8]) -> (r: Vec<Vec<u8>>)
    ensures
        r.deep_view() == tokens_spec(s@),
{
    let mut r: Vec<Vec<u8>> = Vec::new();
    let mut cur: Vec<u8> = Vec::new();
    let mut i: usize = 0;
    proof {
        assert(s@.skip(0) =~= s@);
        assert(r.deep_view() + tokens_go(s@, cur@) =~= tokens_spec(s@));
    }
    while i < s.len()
        invariant
            i <= s.len(),
            tokens_spec(s@) == r.deep_view() + tokens_go(s@.skip(i as int), cur@),
        decreases s.len() - i,
    {
        proof {
            assert(s@.skip(i as int).drop_first() =~= s@.skip(i + 1));
            assert(s@.skip(i as int)[0] == s@[i as int]);
        }
        if byte_is_space(s[i]) {
            proof {
                if cur@.len() == 0 {
                    assert(cur@ =~= Seq::<u8>::empty());
                }
            }
            if cur.len() > 0 {
                let ghost old_r = r.deep_view();
                let ghost old_cur = cur@;
                let done = cur;
                cur = Vec::new();
                r.push(done);
                proof {
                    assert(cur@ =~= Seq::<u8>::empty());
                    assert(r.deep_view() =~~= old_r.push(old_cur));
                    assert(tokens_go(s@.skip(i as int), old_cur) == seq![old_cur] + tokens_go(
                        s@.skip(i + 1),
                        seq![],
                    ));
                    assert(old_r + (seq![old_cur] + tokens_go(s@.skip(i + 1), seq![])) =~~= (
                    r.deep_view() + tokens_go(s@.skip(i + 1), cur@)));
                }
            }
        } else {
            let ghost old_cur = cur@;
            cur.push(s[i]);
            proof {
                assert(tokens_go(s@.skip(i as int), old_cur) == tokens_go(
                    s@.skip(i + 1),
                    old_cur.push(s@[i as int]),
                ));
                assert(cur@ == old_cur.push(s@[i as int]));
            }
        }
        i += 1;
    }
    proof {
        assert(s@.skip(s@.len() as int) =~= Seq::<u8>::empty());
    }
    if cur.len() > 0 {
        let ghost old_r = r.deep_view();
        let ghost old_cur = cur@;
        let done = cur;
        r.push(done);
        proof {
            assert(r.deep_view() =~~= old_r.push(old_cur));
            assert(old_r + seq![old_cur] =~~= r.deep_view());
        }
    }
    proof {
        assert(r.deep_view() + Seq::<Seq<u8>>::empty() =~= r.deep_view());
    }
    r
}

/// True when `x` is one of the byte strings in `l`.
pub open spec fn seq_has(l: Seq<Seq<u8>>, x: Seq<u8>) -> bool {
    exists|i: int| 0 <= i < l.len() && l[i] == x
}

/// Membership of `x` in a list of byte strings.
#[verifier::loop_isolation(false)]
pub fn list_has(l: &Vec<Vec<u8>>, x: &[u8]) -> (r: bool)
    ensures
        r == seq_has(l.deep_view(), x@),
{
    let mut i: usize = 0;
    while i < l.len()
        invariant
            i <= l.len(),
            forall|j: int| 0 <= j < i ==> l.deep_view()[j] != x@,
        decreases l.len() - i,
    {
        proof {
            assert(l.deep_view()[i as int] =~= l@[i as int]@);
        }
        if eq_bytes(l[i].as_slice(), x) {
            return true;
        }
        i += 1;
    }
    false
}

} // verus!
