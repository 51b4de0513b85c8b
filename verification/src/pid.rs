//! Decimal text form of process ids, as kept in a program's liveness
//! marker: rendering a pid as decimal bytes and parsing such bytes back,
//! with the round trip proved.

use vstd::prelude::*;

use crate::names::{is_space, trim_spec, trim, PLUS};
use vstd::arithmetic::div_mod::lemma_fundamental_div_mod;

verus! {

/// True for the ASCII digits `0` to `9`.
pub open spec fn is_digit(b: u8) -> bool {
    48 <= b <= 57
}

/// True when every byte of `s` is an ASCII digit.
pub open spec fn all_digits(s: Seq<u8>) -> bool {
    forall|i: int| 0 <= i < s.len() ==> is_digit(s[i])
}

/// The number that the digit string `s` denotes, read left to right.
pub open spec fn dec_value(s: Seq<u8>) -> nat
    decreases s.len(),
{
    if s.len() == 0 {
        0
    } else {
        dec_value(s.drop_last()) * 10 + (if s.last() >= 48 {
            (s.last() - 48) as nat
        } else {
            0
        })
    }
}

/// The shortest decimal digit string denoting `n`.
pub open spec fn dec_rep(n: nat) -> Seq<u8>
    decreases n,
{
    if n < 10 {
        seq![(n + 48) as u8]
    } else {
        dec_rep(n / 10).push((n % 10 + 48) as u8)
    }
}

/// What `u32` parsing makes of the marker bytes `s`: leading and trailing
/// whitespace is ignored, one leading `+` is allowed, and the digits must
/// be non-empty and denote a value that fits in a `u32`.
pub open spec fn parse_u32_spec(s: Seq<u8>) -> Option<u32> {
    let t = trim_spec(s);
    let d = if t.len() > 0 && t[0] == PLUS {
        t.drop_first()
    } else {
        t
    };
    if d.len() > 0 && all_digits(d) && dec_value(d) <= u32::MAX {
        Some(dec_value(d) as u32)
    } else {
        None
    }
}

/// Render `n` as decimal bytes.
pub fn format_u32(n: u32) -> (r: Vec<u8>)
    ensures
        r@ == dec_rep(n as nat),
    decreases n,
{
    if n < 10 {
        let mut r: Vec<u8> = Vec::new();
        r.push(n as u8 + 48);
        proof {
            assert(r@ =~= dec_rep(n as nat));
        }
        r
    } else {
        let mut r = format_u32(n / 10);
        r.push((n % 10) as u8 + 48);
        proof {
            assert(r@ =~= dec_rep(n as nat));
        }
        r
    }
}

/// Parse decimal bytes as a `u32`, as the liveness marker is read.
#[verifier::loop_isolation(false)]
pub fn parse_u32(s: &[u8]) -> (r: Option<u32>)
    ensures
        r == parse_u32_spec(s@),
{
    let t = trim(s);
    let from: usize = if t.len() > 0 && t[0] == PLUS {
        1
    } else {
        0
    };
    let ghost d = if trim_spec(s@).len() > 0 && trim_spec(s@)[0] == PLUS {
        trim_spec(s@).drop_first()
    } else {
        trim_spec(s@)
    };
    proof {
        assert(t@.subrange(from as int, t@.len() as int) =~= d);
    }
    if t.len() == from {
        return None;
    }
    let mut acc: u64 = 0;
    let mut over: bool = false;
    let mut i: usize = from;
    while i < t.len()
        invariant
            from <= i <= t@.len(),
            all_digits(t@.subrange(from as int, i as int)),
            !over ==> acc == dec_value(t@.subrange(from as int, i as int)) && acc <= u32::MAX,
            over ==> dec_value(t@.subrange(from as int, i as int)) > u32::MAX,
        decreases t@.len() - i,
    {
        let b = t[i];
        if b < 48 || b > 57 {
            proof {
                assert(d[i - from] == t@[i as int]);
            }
            return None;
        }
        proof {
            assert(t@.subrange(from as int, i + 1).drop_last() =~= t@.subrange(
                from as int,
                i as int,
            ));
            assert(t@.subrange(from as int, i + 1).last() == t@[i as int]);
        }
        if over {
            proof {
                assert(dec_value(t@.subrange(from as int, i + 1)) >= dec_value(
                    t@.subrange(from as int, i as int),
                ) * 10);
            }
        } else {
            let next = acc * 10 + (b - 48) as u64;
            if next > u32::MAX as u64 {
                over = true;
            } else {
                acc = next;
            }
        }
        i += 1;
    }
    proof {
        assert(t@.subrange(from as int, t@.len() as int) == d);
    }
    if over {
        None
    } else {
        Some(acc as u32)
    }
}

/// Every byte that [`dec_rep`] emits is a digit, and it emits at least
/// one.
pub proof fn lemma_dec_rep_digits(n: nat)
    ensures
        all_digits(dec_rep(n)),
        dec_rep(n).len() > 0,
    decreases n,
{
    if n >= 10 {
        lemma_dec_rep_digits(n / 10);
        assert forall|i: int| 0 <= i < dec_rep(n).len() implies is_digit(dec_rep(n)[i]) by {
            if i < dec_rep(n).len() - 1 {
                assert(dec_rep(n)[i] == dec_rep(n / 10)[i]);
            }
        }
    }
}

/// Reading back the digits of `n` yields `n`.
pub proof fn lemma_dec_value_of_rep(n: nat)
    ensures
        dec_value(dec_rep(n)) == n,
    decreases n,
{
    if n < 10 {
        assert(dec_rep(n).drop_last() =~= Seq::<u8>::empty());
        assert(dec_value(dec_rep(n).drop_last()) == 0);
    } else {
        lemma_dec_value_of_rep(n / 10);
        let d = (n % 10 + 48) as u8;
        assert(dec_rep(n) == dec_rep(n / 10).push(d));
        assert(dec_rep(n).drop_last() =~= dec_rep(n / 10));
        assert(dec_rep(n).last() == d);
        assert(d >= 48 && (d - 48) as nat == n % 10);
        assert(dec_value(dec_rep(n)) == dec_value(dec_rep(n / 10)) * 10 + n % 10);
        lemma_fundamental_div_mod(n as int, 10);
        assert(n / 10 * 10 + n % 10 == n);
    }
}

/// Round trip: a marker written as [`dec_rep`] of a pid parses back to
/// exactly that pid.
pub proof fn lemma_pid_round_trip(n: u32)
    ensures
        parse_u32_spec(dec_rep(n as nat)) == Some(n),
{
    lemma_dec_rep_digits(n as nat);
    lemma_dec_value_of_rep(n as nat);
    let s = dec_rep(n as nat);
    assert(!is_space(s[0]));
    assert(!is_space(s.last()));
    assert(trim_spec(s) == s);
    assert(s[0] != PLUS);
}

} // verus!
