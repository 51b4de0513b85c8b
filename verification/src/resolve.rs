//! Resolution of a connection intent's target against the live port list:
//! a non-empty node affinity pins the target to that node; otherwise a
//! wildcard pattern picks the first match not claimed as another program's
//! affinity, falling back to the first match overall; otherwise the target
//! name stands verbatim.

use vstd::prelude::*;

use crate::model::{port_names, ports_view, JackPort, JackPortInfo};
use crate::names::{
    contains_byte, copy_bytes, join_colon, lemma_last_index_of, list_has, port_suffix,
    seq_contains_byte, seq_has, suffix_after_last_colon, COLON, STAR,
};
use crate::pattern::{matches_pattern, wildcard_match};

verus! {

/// The names among `names` that match `pat`, in listing order.
pub open spec fn matching_names(names: Seq<Seq<u8>>, pat: Seq<u8>) -> Seq<Seq<u8>>
    decreases names.len(),
{
    if names.len() == 0 {
        seq![]
    } else {
        let rest = matching_names(names.drop_last(), pat);
        if wildcard_match(pat, names.last()) {
            rest.push(names.last())
        } else {
            rest
        }
    }
}

/// Index of the first entry of `matches` that is not in `claimed`, or -1
/// when every entry is claimed.
pub open spec fn first_unclaimed(matches: Seq<Seq<u8>>, claimed: Seq<Seq<u8>>) -> int
    decreases matches.len(),
{
    if matches.len() == 0 {
        -1
    } else if !seq_has(claimed, matches[0]) {
        0
    } else {
        let r = first_unclaimed(matches.drop_first(), claimed);
        if r < 0 {
            -1
        } else {
            r + 1
        }
    }
}

/// When the first `k` entries of `matches` are claimed and entry `k` (if
/// any) is not, [`first_unclaimed`] is `k`, or -1 when `k` runs off the end.
pub proof fn lemma_first_unclaimed_at(matches: Seq<Seq<u8>>, claimed: Seq<Seq<u8>>, k: int)
    requires
        0 <= k <= matches.len(),
        forall|j: int| 0 <= j < k ==> seq_has(claimed, matches[j]),
        k == matches.len() || !seq_has(claimed, matches[k]),
    ensures
        first_unclaimed(matches, claimed) == if k < matches.len() {
            k
        } else {
            -1
        },
    decreases k,
{
    if matches.len() > 0 && k > 0 {
        lemma_first_unclaimed_at(matches.drop_first(), claimed, k - 1);
        assert(forall|j: int|
            0 <= j < matches.len() - 1 ==> matches.drop_first()[j] == matches[j + 1]);
    }
}

/// The match to use: the first unclaimed one, else the first overall.
pub open spec fn pick_match(matches: Seq<Seq<u8>>, claimed: Seq<Seq<u8>>) -> Seq<u8> {
    let i = first_unclaimed(matches, claimed);
    if i >= 0 {
        matches[i]
    } else {
        matches[0]
    }
}

/// The resolved concrete target for an intent whose stored target is
/// `target_name`, owned by a program whose node affinity is `affinity`,
/// against ports `names` while `claimed` lists every program's affinity.
pub open spec fn resolve_target_spec(
    names: Seq<Seq<u8>>,
    claimed: Seq<Seq<u8>>,
    affinity: Seq<u8>,
    target_name: Seq<u8>,
) -> Seq<u8> {
    if affinity.len() > 0 {
        affinity + seq![COLON] + suffix_after_last_colon(target_name)
    } else if seq_contains_byte(target_name, STAR) {
        let ms = matching_names(names, target_name);
        if ms.len() == 0 {
            target_name
        } else {
            pick_match(ms, claimed)
        }
    } else {
        target_name
    }
}

/// Resolve the concrete target port name for the intent `port` of a
/// program whose node affinity is `app_jack_node_name`, given the current
/// port list and every managed program's affinity name.
#[verifier::loop_isolation(false)]
pub fn get_jack_name(
    ports: &Vec<JackPortInfo>,
    apps_jack_node_names: &Vec<Vec<u8>>,
    app_jack_node_name: &[u8],
    port: &JackPort,
) -> (r: Vec<u8>)
    ensures
        r@ == resolve_target_spec(
            port_names(ports_view(ports@)),
            apps_jack_node_names.deep_view(),
            app_jack_node_name@,
            port@.target_name,
        ),
{
    let ghost names = port_names(ports_view(ports@));
    let ghost claimed = apps_jack_node_names.deep_view();
    if app_jack_node_name.len() > 0 {
        let suffix = port_suffix(port.target_name.as_slice());
        join_colon(app_jack_node_name, suffix.as_slice())
    } else if contains_byte(port.target_name.as_slice(), STAR) {
        let pat = port.target_name.as_slice();
        let mut ms: Vec<Vec<u8>> = Vec::new();
        let mut i: usize = 0;
        proof {
            assert(ms.deep_view() =~= matching_names(names.take(0), pat@));
        }
        while i < ports.len()
            invariant
                i <= ports@.len(),
                ms.deep_view() == matching_names(names.take(i as int), pat@),
            decreases ports@.len() - i,
        {
            proof {
                assert(names.take(i + 1).drop_last() =~= names.take(i as int));
                assert(names.take(i + 1).last() == ports@[i as int].name@);
            }
            if matches_pattern(pat, ports[i].name.as_slice()) {
                let ghost old_ms = ms.deep_view();
                let m = copy_bytes(ports[i].name.as_slice());
                ms.push(m);
                proof {
                    assert(ms.deep_view() =~~= old_ms.push(ports@[i as int].name@));
                }
            }
            i += 1;
        }
        proof {
            assert(names.take(names.len() as int) =~= names);
        }
        if ms.len() == 0 {
            return copy_bytes(port.target_name.as_slice());
        }
        let ghost all = matching_names(names, pat@);
        let mut k: usize = 0;
        while k < ms.len()
            invariant
                k <= ms@.len(),
                ms.deep_view() == all,
                forall|j: int| 0 <= j < k ==> seq_has(claimed, all[j]),
            decreases ms@.len() - k,
        {
            proof {
                assert(ms.deep_view()[k as int] =~= ms@[k as int]@);
            }
            if !list_has(apps_jack_node_names, ms[k].as_slice()) {
                proof {
                    lemma_first_unclaimed_at(all, claimed, k as int);
                }
                return copy_bytes(ms[k].as_slice());
            }
            k += 1;
        }
        proof {
            lemma_first_unclaimed_at(all, claimed, all.len() as int);
        }
        proof {
            assert(ms.deep_view()[0] =~= ms@[0]@);
        }
        copy_bytes(ms[0].as_slice())
    } else {
        copy_bytes(port.target_name.as_slice())
    }
}

/// Affinity pinning: once a program's node affinity is set, an intent
/// whose target is already a port of that node resolves to exactly that
/// target, whatever other matching ports appear.
pub proof fn lemma_affinity_pinning(
    names: Seq<Seq<u8>>,
    claimed: Seq<Seq<u8>>,
    affinity: Seq<u8>,
    suffix: Seq<u8>,
)
    requires
        affinity.len() > 0,
        !seq_contains_byte(suffix, COLON),
    ensures
        resolve_target_spec(names, claimed, affinity, affinity + seq![COLON] + suffix) == affinity
            + seq![COLON] + suffix,
{
    let t = affinity + seq![COLON] + suffix;
    let a = affinity.len() as int;
    assert(t[a] == COLON);
    lemma_last_index_of(t, COLON);
    let r = last_index_of_colon_witness(t, a, suffix);
    assert(suffix_after_last_colon(t) =~= suffix);
}

/// The last colon of `affinity + ":" + suffix` stands exactly at the end
/// of `affinity` when `suffix` holds none.
proof fn last_index_of_colon_witness(t: Seq<u8>, a: int, suffix: Seq<u8>) -> (r: int)
    requires
        0 <= a < t.len(),
        t[a] == COLON,
        t.len() == a + 1 + suffix.len(),
        forall|j: int| 0 <= j < suffix.len() ==> t[a + 1 + j] == suffix[j],
        !seq_contains_byte(suffix, COLON),
    ensures
        r == crate::names::last_index_of(t, COLON),
        r == a,
{
    lemma_last_index_of(t, COLON);
    assert(seq_contains_byte(t, COLON));
    let r = crate::names::last_index_of(t, COLON);
    if r > a {
        assert(suffix[r - a - 1] == t[r]);
    }
    r
}

/// Wildcard resolution prefers the first match not claimed as another
/// program's affinity: with no affinity of its own, a pattern whose match
/// list has its first unclaimed entry at `k` resolves to that entry.
pub proof fn lemma_wildcard_prefers_unclaimed(
    names: Seq<Seq<u8>>,
    claimed: Seq<Seq<u8>>,
    pat: Seq<u8>,
    k: int,
)
    requires
        seq_contains_byte(pat, STAR),
        0 <= k < matching_names(names, pat).len(),
        !seq_has(claimed, matching_names(names, pat)[k]),
        forall|j: int| 0 <= j < k ==> seq_has(claimed, matching_names(names, pat)[j]),
    ensures
        resolve_target_spec(names, claimed, seq![], pat) == matching_names(names, pat)[k],
{
    lemma_first_unclaimed_at(matching_names(names, pat), claimed, k);
}

} // verus!
