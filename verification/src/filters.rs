//! Collection of use-case tags: every whitespace-separated filter tag
//! across all intents of all managed programs, de-duplicated in first-seen
//! order, with one synthetic default tag when none is declared so that at
//! least one use case always exists.

use vstd::prelude::*;

use crate::model::{programs_view, JackPortV, ManagedAudioProgram, ManagedAudioProgramV};
use crate::names::{list_has, seq_has, split_tokens, tokens_spec};

verus! {

/// The bytes of the synthetic default tag `start`.
pub open spec fn default_filter() -> Seq<u8> {
    seq![115u8, 116u8, 97u8, 114u8, 116u8]
}

/// Build the synthetic default tag `start`.
pub fn default_filter_bytes() -> (r: Vec<u8>)
    ensures
        r@ == default_filter(),
{
    let v: Vec<u8> = vec![115u8, 116u8, 97u8, 114u8, 116u8];
    proof {
        assert(v@ =~= default_filter());
    }
    v
}

/// The filter tokens of one program's intents, in declaration order.
pub open spec fn intents_tokens(ports: Seq<JackPortV>) -> Seq<Seq<u8>>
    decreases ports.len(),
{
    if ports.len() == 0 {
        seq![]
    } else {
        tokens_spec(ports[0].filter) + intents_tokens(ports.drop_first())
    }
}

/// The filter tokens of all programs' intents, in order.
pub open spec fn all_tokens(programs: Seq<ManagedAudioProgramV>) -> Seq<Seq<u8>>
    decreases programs.len(),
{
    if programs.len() == 0 {
        seq![]
    } else {
        intents_tokens(programs[0].config.jack_ports) + all_tokens(programs.drop_first())
    }
}

/// `s` with every name already in `seen`, or seen earlier in `s`, removed:
/// first occurrences survive in order.
pub open spec fn dedup_go(s: Seq<Seq<u8>>, seen: Seq<Seq<u8>>) -> Seq<Seq<u8>>
    decreases s.len(),
{
    if s.len() == 0 {
        seq![]
    } else if seq_has(seen, s[0]) {
        dedup_go(s.drop_first(), seen)
    } else {
        seq![s[0]] + dedup_go(s.drop_first(), seen.push(s[0]))
    }
}

/// `s` with duplicates removed, first occurrences kept in order.
pub open spec fn dedup_first(s: Seq<Seq<u8>>) -> Seq<Seq<u8>> {
    dedup_go(s, seq![])
}

/// The use-case tags of a set of managed programs: all filter tokens,
/// de-duplicated in first-seen order, or the single default tag when no
/// intent declares any.
pub open spec fn filters_spec(programs: Seq<ManagedAudioProgramV>) -> Seq<Seq<u8>> {
    let d = dedup_first(all_tokens(programs));
    if d.len() == 0 {
        seq![default_filter()]
    } else {
        d
    }
}

/// Collect the use-case tags declared by `programs`.
#[verifier::loop_isolation(false)]
pub fn get_filters(programs: &Vec<ManagedAudioProgram>) -> (r: Vec<Vec<u8>>)
    ensures
        r.deep_view() == filters_spec(programs_view(programs@)),
{
    let ghost pv = programs_view(programs@);
    let mut toks: Vec<Vec<u8>> = Vec::new();
    let mut i: usize = 0;
    proof {
        assert(pv.skip(0) =~= pv);
        assert(toks.deep_view() + all_tokens(pv) =~= all_tokens(pv));
    }
    while i < programs.len()
        invariant
            i <= programs@.len(),
            pv == programs_view(programs@),
            all_tokens(pv) == toks.deep_view() + all_tokens(pv.skip(i as int)),
        decreases programs@.len() - i,
    {
        proof {
            assert(pv.skip(i as int).drop_first() =~= pv.skip(i + 1));
            assert(pv.skip(i as int)[0] == pv[i as int]);
        }
        let ghost ports_i = pv[i as int].config.jack_ports;
        let mut j: usize = 0;
        proof {
            assert(ports_i.skip(0) =~= ports_i);
        }
        while j < programs[i].config.jack_ports.len()
            invariant
                i < programs@.len(),
                j <= programs@[i as int].config.jack_ports@.len(),
                pv == programs_view(programs@),
                ports_i == pv[i as int].config.jack_ports,
                all_tokens(pv) == toks.deep_view() + intents_tokens(ports_i.skip(j as int))
                    + all_tokens(pv.skip(i + 1)),
            decreases programs@[i as int].config.jack_ports@.len() - j,
        {
            proof {
                assert(ports_i.skip(j as int).drop_first() =~= ports_i.skip(j + 1));
                assert(ports_i.skip(j as int)[0] == ports_i[j as int]);
                assert(ports_i[j as int] == programs@[i as int].config.jack_ports@[j as int]@);
            }
            let ghost old_toks = toks.deep_view();
            let mut tvec = split_tokens(programs[i].config.jack_ports[j].filter.as_slice());
            let ghost tv = tvec.deep_view();
            toks.append(&mut tvec);
            proof {
                assert(toks.deep_view() =~~= old_toks + tv);
                assert((old_toks + tv) + (intents_tokens(ports_i.skip(j + 1)) + all_tokens(
                    pv.skip(i + 1),
                )) =~~= (old_toks + (tv + intents_tokens(ports_i.skip(j + 1)))) + all_tokens(
                    pv.skip(i + 1),
                ));
            }
            j += 1;
        }
        proof {
            assert(ports_i.skip(ports_i.len() as int) =~= Seq::<JackPortV>::empty());
            assert(toks.deep_view() + Seq::<Seq<u8>>::empty() + all_tokens(pv.skip(i + 1))
                =~= toks.deep_view() + all_tokens(pv.skip(i + 1)));
        }
        i += 1;
    }
    proof {
        assert(pv.skip(pv.len() as int) =~= Seq::<ManagedAudioProgramV>::empty());
        assert(toks.deep_view() + Seq::<Seq<u8>>::empty() =~= toks.deep_view());
    }
    let mut r: Vec<Vec<u8>> = Vec::new();
    let mut k: usize = 0;
    proof {
        assert(toks.deep_view().skip(0) =~= toks.deep_view());
        assert(r.deep_view() =~= Seq::<Seq<u8>>::empty());
        assert(r.deep_view() + dedup_go(toks.deep_view(), r.deep_view()) =~= dedup_first(
            toks.deep_view(),
        ));
    }
    while k < toks.len()
        invariant
            k <= toks@.len(),
            toks.deep_view() == all_tokens(pv),
            dedup_first(toks.deep_view()) == r.deep_view() + dedup_go(
                toks.deep_view().skip(k as int),
                r.deep_view(),
            ),
        decreases toks@.len() - k,
    {
        proof {
            assert(toks.deep_view().skip(k as int).drop_first() =~= toks.deep_view().skip(k + 1));
            assert(toks.deep_view().skip(k as int)[0] =~= toks@[k as int]@);
        }
        let ghost old_r = r.deep_view();
        if !list_has(&r, toks[k].as_slice()) {
            let t = crate::names::copy_bytes(toks[k].as_slice());
            r.push(t);
            proof {
                assert(r.deep_view() =~~= old_r.push(toks@[k as int]@));
                assert(old_r + (seq![toks@[k as int]@] + dedup_go(
                    toks.deep_view().skip(k + 1),
                    old_r.push(toks@[k as int]@),
                )) =~~= (r.deep_view() + dedup_go(toks.deep_view().skip(k + 1), r.deep_view())));
            }
        }
        k += 1;
    }
    proof {
        assert(toks.deep_view().skip(toks@.len() as int) =~= Seq::<Seq<u8>>::empty());
        assert(r.deep_view() + Seq::<Seq<u8>>::empty() =~= r.deep_view());
    }
    if r.len() == 0 {
        let d = default_filter_bytes();
        r.push(d);
        proof {
            assert(r.deep_view() =~~= seq![default_filter()]);
        }
    }
    r
}

} // verus!
