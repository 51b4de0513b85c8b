//! Use-case reconciliation planning: which intents a use case activates,
//! which concrete edge a single intent connects, and which live edges are
//! to be disconnected because no enabled intent wants them.
//!
//! Everything here plans against snapshots — the port list and connection
//! list as last fetched from the daemon — and returns plain values; the
//! surrounding binary issues the actual connect and disconnect commands.

use vstd::prelude::*;

use crate::model::{
    claimed_names, port_names, ports_view, programs_view, JackPortInfo, ManagedAudioProgram,
    ManagedAudioProgramV,
};
use crate::names::{copy_bytes, eq_bytes, list_has, node_of, node_prefix, seq_has, split_tokens,
    tokens_spec};
use crate::resolve::{get_jack_name, resolve_target_spec};

verus! {

/// True when an intent with filter `filter` belongs to use case `uc`: an
/// empty filter is always on; otherwise `uc` must be one of the filter's
/// whitespace-separated tags.
pub open spec fn filter_matches(filter: Seq<u8>, uc: Seq<u8>) -> bool {
    filter.len() == 0 || seq_has(tokens_spec(filter), uc)
}

/// Decide [`filter_matches`] for one intent's filter.
pub fn filter_matches_use_case(filter: &[u8], uc: &[u8]) -> (r: bool)
    ensures
        r == filter_matches(filter@, uc@),
{
    if filter.len() == 0 {
        return true;
    }
    let toks = split_tokens(filter);
    list_has(&toks, uc)
}

/// True when some program's intent enabled by use case `uc` desires the
/// edge `conn`: the intent's filter matches, its source is the edge's
/// source, and its target resolves to the edge's target against the port
/// names `names` with every program's affinity claimed.
pub open spec fn is_wanted(
    programs: Seq<ManagedAudioProgramV>,
    names: Seq<Seq<u8>>,
    uc: Seq<u8>,
    conn: (Seq<u8>, Seq<u8>),
) -> bool {
    exists|i: int, j: int|
        #![trigger programs[i].config.jack_ports[j]]
        0 <= i < programs.len() && 0 <= j < programs[i].config.jack_ports.len()
            && filter_matches(programs[i].config.jack_ports[j].filter, uc) && conn.0
            == programs[i].config.jack_ports[j].source_name && conn.1 == resolve_target_spec(
            names,
            claimed_names(programs),
            programs[i].jack_node_name,
            programs[i].config.jack_ports[j].target_name,
        )
}

/// Collect every program's node-affinity name, in order.
#[verifier::loop_isolation(false)]
pub fn collect_claimed(programs: &Vec<ManagedAudioProgram>) -> (r: Vec<Vec<u8>>)
    ensures
        r.deep_view() == claimed_names(programs_view(programs@)),
{
    let ghost pv = programs_view(programs@);
    let mut r: Vec<Vec<u8>> = Vec::new();
    let mut i: usize = 0;
    while i < programs.len()
        invariant
            i <= programs@.len(),
            pv == programs_view(programs@),
            r.deep_view() =~~= claimed_names(pv).take(i as int),
        decreases programs@.len() - i,
    {
        let ghost old_r = r.deep_view();
        let a = copy_bytes(programs[i].jack_node_name.as_slice());
        r.push(a);
        proof {
            assert(r.deep_view() =~~= old_r.push(pv[i as int].jack_node_name));
            assert(old_r.push(pv[i as int].jack_node_name) =~~= claimed_names(pv).take(i + 1));
        }
        i += 1;
    }
    proof {
        assert(claimed_names(pv).take(pv.len() as int) =~= claimed_names(pv));
    }
    r
}

/// Whether a port named `name` is in the current port list.
#[verifier::loop_isolation(false)]
pub fn port_list_has(ports: &Vec<JackPortInfo>, name: &[u8]) -> (r: bool)
    ensures
        r == seq_has(port_names(ports_view(ports@)), name@),
{
    let ghost names = port_names(ports_view(ports@));
    let mut i: usize = 0;
    while i < ports.len()
        invariant
            i <= ports@.len(),
            forall|j: int| 0 <= j < i ==> names[j] != name@,
        decreases ports@.len() - i,
    {
        if eq_bytes(ports[i].name.as_slice(), name) {
            proof {
                assert(names[i as int] == name@);
            }
            return true;
        }
        i += 1;
    }
    false
}

/// Whether the edge `(a, b)` occurs in a list of edges.
#[verifier::loop_isolation(false)]
pub fn edges_contain(l: &Vec<(Vec<u8>, Vec<u8>)>, a: &[u8], b: &[u8]) -> (r: bool)
    ensures
        r == l.deep_view().contains((a@, b@)),
{
    let mut i: usize = 0;
    while i < l.len()
        invariant
            i <= l@.len(),
            forall|j: int| 0 <= j < i ==> l.deep_view()[j] != (a@, b@),
        decreases l@.len() - i,
    {
        proof {
            assert(l.deep_view()[i as int] =~= (l@[i as int].0@, l@[i as int].1@));
        }
        if eq_bytes(l[i].0.as_slice(), a) && eq_bytes(l[i].1.as_slice(), b) {
            proof {
                assert(l.deep_view()[i as int] == (a@, b@));
            }
            return true;
        }
        i += 1;
    }
    false
}

/// Compute the edges desired under use case `uc`: one edge per enabled
/// intent, from the intent's source to its resolved target. The result
/// holds an edge exactly when some enabled intent desires it.
#[verifier::loop_isolation(false)]
pub fn wanted_connections(
    programs: &Vec<ManagedAudioProgram>,
    ports: &Vec<JackPortInfo>,
    use_case: &[u8],
) -> (r: Vec<(Vec<u8>, Vec<u8>)>)
    ensures
        forall|c: (Seq<u8>, Seq<u8>)|
            #[trigger] r.deep_view().contains(c) <==> is_wanted(
                programs_view(programs@),
                port_names(ports_view(ports@)),
                use_case@,
                c,
            ),
{
    let ghost pv = programs_view(programs@);
    let ghost names = port_names(ports_view(ports@));
    let claimed = collect_claimed(programs);
    let mut r: Vec<(Vec<u8>, Vec<u8>)> = Vec::new();
    let mut i: usize = 0;
    while i < programs.len()
        invariant
            i <= programs@.len(),
            pv == programs_view(programs@),
            names == port_names(ports_view(ports@)),
            claimed.deep_view() == claimed_names(pv),
            forall|k: int|
                0 <= k < r.deep_view().len() ==> is_wanted(
                    pv,
                    names,
                    use_case@,
                    #[trigger] r.deep_view()[k],
                ),
            forall|i2: int, j2: int|
                #![trigger pv[i2].config.jack_ports[j2]]
                0 <= i2 < i && 0 <= j2 < pv[i2].config.jack_ports.len() && filter_matches(
                    pv[i2].config.jack_ports[j2].filter,
                    use_case@,
                ) ==> r.deep_view().contains(
                    (
                        pv[i2].config.jack_ports[j2].source_name,
                        resolve_target_spec(
                            names,
                            claimed_names(pv),
                            pv[i2].jack_node_name,
                            pv[i2].config.jack_ports[j2].target_name,
                        ),
                    ),
                ),
        decreases programs@.len() - i,
    {
        let mut j: usize = 0;
        while j < programs[i].config.jack_ports.len()
            invariant
                i < programs@.len(),
                j <= programs@[i as int].config.jack_ports@.len(),
                pv == programs_view(programs@),
                names == port_names(ports_view(ports@)),
                claimed.deep_view() == claimed_names(pv),
                forall|k: int|
                    0 <= k < r.deep_view().len() ==> is_wanted(
                        pv,
                        names,
                        use_case@,
                        #[trigger] r.deep_view()[k],
                    ),
                forall|i2: int, j2: int|
                    #![trigger pv[i2].config.jack_ports[j2]]
                    (0 <= i2 < i || (i2 == i && 0 <= j2 < j)) && 0 <= j2
                        < pv[i2].config.jack_ports.len() && 0 <= i2 && filter_matches(
                        pv[i2].config.jack_ports[j2].filter,
                        use_case@,
                    ) ==> r.deep_view().contains(
                        (
                            pv[i2].config.jack_ports[j2].source_name,
                            resolve_target_spec(
                                names,
                                claimed_names(pv),
                                pv[i2].jack_node_name,
                                pv[i2].config.jack_ports[j2].target_name,
                            ),
                        ),
                    ),
            decreases programs@[i as int].config.jack_ports@.len() - j,
        {
            proof {
                assert(pv[i as int].config.jack_ports[j as int]
                    == programs@[i as int].config.jack_ports@[j as int]@);
            }
            let port = &programs[i].config.jack_ports[j];
            if filter_matches_use_case(port.filter.as_slice(), use_case) {
                let ghost old_r = r.deep_view();
                let src = copy_bytes(port.source_name.as_slice());
                let tgt = get_jack_name(
                    ports,
                    &claimed,
                    programs[i].jack_node_name.as_slice(),
                    port,
                );
                r.push((src, tgt));
                proof {
                    let edge = (
                        pv[i as int].config.jack_ports[j as int].source_name,
                        resolve_target_spec(
                            names,
                            claimed_names(pv),
                            pv[i as int].jack_node_name,
                            pv[i as int].config.jack_ports[j as int].target_name,
                        ),
                    );
                    assert(r.deep_view() =~~= old_r.push(edge));
                    assert(is_wanted(pv, names, use_case@, edge));
                    assert(forall|k: int|
                        0 <= k < old_r.len() ==> r.deep_view()[k] == old_r[k]);
                    assert(r.deep_view().contains(edge)) by {
                        assert(r.deep_view()[old_r.len() as int] == edge);
                    }
                    assert(forall|c: (Seq<u8>, Seq<u8>)|
                        old_r.contains(c) ==> #[trigger] r.deep_view().contains(c)) by {
                        assert forall|c: (Seq<u8>, Seq<u8>)| old_r.contains(c) implies #[trigger] r
                            .deep_view().contains(c) by {
                            let k = choose|k: int| 0 <= k < old_r.len() && old_r[k] == c;
                            assert(r.deep_view()[k] == c);
                        }
                    }
                }
            }
            j += 1;
        }
        i += 1;
    }
    proof {
        assert forall|c: (Seq<u8>, Seq<u8>)|
            #[trigger] r.deep_view().contains(c) <==> is_wanted(
                pv,
                names,
                use_case@,
                c,
            ) by {
            if r.deep_view().contains(c) {
                let k = choose|k: int| 0 <= k < r.deep_view().len() && r.deep_view()[k] == c;
                assert(is_wanted(pv, names, use_case@, r.deep_view()[k]));
            }
            if is_wanted(pv, names, use_case@, c) {
                let (i2, j2) = choose|i2: int, j2: int|
                    #![trigger pv[i2].config.jack_ports[j2]]
                    0 <= i2 < pv.len() && 0 <= j2 < pv[i2].config.jack_ports.len()
                        && filter_matches(pv[i2].config.jack_ports[j2].filter, use_case@) && c.0
                        == pv[i2].config.jack_ports[j2].source_name && c.1 == resolve_target_spec(
                        names,
                        claimed_names(pv),
                        pv[i2].jack_node_name,
                        pv[i2].config.jack_ports[j2].target_name,
                    );
                assert(r.deep_view().contains(
                    (
                        pv[i2].config.jack_ports[j2].source_name,
                        resolve_target_spec(
                            names,
                            claimed_names(pv),
                            pv[i2].jack_node_name,
                            pv[i2].config.jack_ports[j2].target_name,
                        ),
                    ),
                ));
            }
        }
    }
    r
}


/// The live edges that reconciliation under use case `uc` disconnects:
/// those of `conns`, in order, whose two endpoints are both in the current
/// port list and which no enabled intent desires.
pub open spec fn unwanted_edges(
    programs: Seq<ManagedAudioProgramV>,
    names: Seq<Seq<u8>>,
    conns: Seq<(Seq<u8>, Seq<u8>)>,
    uc: Seq<u8>,
) -> Seq<(Seq<u8>, Seq<u8>)>
    decreases conns.len(),
{
    if conns.len() == 0 {
        seq![]
    } else {
        let rest = unwanted_edges(programs, names, conns.drop_last(), uc);
        let c = conns.last();
        if seq_has(names, c.0) && seq_has(names, c.1) && !is_wanted(programs, names, uc, c) {
            rest.push(c)
        } else {
            rest
        }
    }
}

/// Plan the disconnects of one reconciliation pass: every live edge
/// between two known ports that no intent enabled by `use_case` desires.
/// An empty `use_case` enables only empty-filter intents, so every
/// tag-restricted edge is torn down.
#[verifier::loop_isolation(false)]
pub fn plan_disconnects(
    programs: &Vec<ManagedAudioProgram>,
    ports: &Vec<JackPortInfo>,
    connections: &Vec<(Vec<u8>, Vec<u8>)>,
    use_case: &[u8],
) -> (r: Vec<(Vec<u8>, Vec<u8>)>)
    ensures
        r.deep_view() == unwanted_edges(
            programs_view(programs@),
            port_names(ports_view(ports@)),
            connections.deep_view(),
            use_case@,
        ),
{
    let ghost pv = programs_view(programs@);
    let ghost names = port_names(ports_view(ports@));
    let ghost cv = connections.deep_view();
    let wanted = wanted_connections(programs, ports, use_case);
    let mut r: Vec<(Vec<u8>, Vec<u8>)> = Vec::new();
    let mut k: usize = 0;
    proof {
        assert(cv.take(0) =~= Seq::<(Seq<u8>, Seq<u8>)>::empty());
        assert(r.deep_view() =~= unwanted_edges(pv, names, cv.take(0), use_case@));
    }
    while k < connections.len()
        invariant
            k <= connections@.len(),
            pv == programs_view(programs@),
            names == port_names(ports_view(ports@)),
            cv == connections.deep_view(),
            forall|c: (Seq<u8>, Seq<u8>)|
                #[trigger] wanted.deep_view().contains(c) <==> is_wanted(pv, names, use_case@, c),
            r.deep_view() == unwanted_edges(pv, names, cv.take(k as int), use_case@),
        decreases connections@.len() - k,
    {
        proof {
            assert(cv.take(k + 1).drop_last() =~= cv.take(k as int));
            assert(cv.take(k + 1).last() =~= cv[k as int]);
            assert(cv[k as int] =~= (connections@[k as int].0@, connections@[k as int].1@));
        }
        let c = &connections[k];
        let both_known = port_list_has(ports, c.0.as_slice()) && port_list_has(
            ports,
            c.1.as_slice(),
        );
        if both_known && !edges_contain(&wanted, c.0.as_slice(), c.1.as_slice()) {
            let ghost old_r = r.deep_view();
            let edge = (copy_bytes(c.0.as_slice()), copy_bytes(c.1.as_slice()));
            r.push(edge);
            proof {
                assert(r.deep_view() =~~= old_r.push(cv[k as int]));
            }
        }
        k += 1;
    }
    proof {
        assert(cv.take(cv.len() as int) =~= cv);
    }
    r
}

/// An edge of the connection list that is unwanted stays in the plan,
/// wherever in the list it stands.
proof fn lemma_unwanted_monotone(
    programs: Seq<ManagedAudioProgramV>,
    names: Seq<Seq<u8>>,
    conns: Seq<(Seq<u8>, Seq<u8>)>,
    uc: Seq<u8>,
    c: (Seq<u8>, Seq<u8>),
)
    requires
        conns.contains(c),
        seq_has(names, c.0),
        seq_has(names, c.1),
        !is_wanted(programs, names, uc, c),
    ensures
        unwanted_edges(programs, names, conns, uc).contains(c),
    decreases conns.len(),
{
    let rest = unwanted_edges(programs, names, conns.drop_last(), uc);
    if conns.last() == c {
        assert(unwanted_edges(programs, names, conns, uc).last() == c);
    } else {
        let w = choose|i: int| 0 <= i < conns.len() && conns[i] == c;
        assert(conns.drop_last()[w] == c);
        lemma_unwanted_monotone(programs, names, conns.drop_last(), uc, c);
        let j = choose|i: int| 0 <= i < rest.len() && rest[i] == c;
        assert(unwanted_edges(programs, names, conns, uc)[j] == c);
    }
}

/// Reconciliation set law: after the planned disconnects are issued,
/// every remaining live edge between two known ports is desired by some
/// intent that use case `uc` enables (one with an empty filter, or one
/// whose filter tags include `uc`). Stated contrapositively: a live edge
/// between known ports that the plan leaves alone is wanted.
pub proof fn lemma_reconcile_leaves_only_wanted(
    programs: Seq<ManagedAudioProgramV>,
    names: Seq<Seq<u8>>,
    conns: Seq<(Seq<u8>, Seq<u8>)>,
    uc: Seq<u8>,
    c: (Seq<u8>, Seq<u8>),
)
    requires
        conns.contains(c),
        seq_has(names, c.0),
        seq_has(names, c.1),
        !unwanted_edges(programs, names, conns, uc).contains(c),
    ensures
        is_wanted(programs, names, uc, c),
{
    if !is_wanted(programs, names, uc, c) {
        lemma_unwanted_monotone(programs, names, conns, uc, c);
    }
}



/// What connecting one intent amounts to.
pub enum ConnectPlan {
    /// The program or intent index is out of range: nothing to do.
    NoSuchIntent,
    /// The intent's source, or its resolved target, is not in the current
    /// port list: no connect is attempted and the intent's stored pair is
    /// reported.
    PortMissing { source: Vec<u8>, target: Vec<u8> },
    /// Connect `source` to `target`; once the daemon reports success the
    /// owning program's node affinity becomes `node_name`, the node prefix
    /// of the target.
    Connect { source: Vec<u8>, target: Vec<u8>, node_name: Vec<u8> },
}

/// Plan the connect of intent `jack_index` of program `app_index`:
/// resolve the target against the current port list, and connect exactly
/// when both the source and the resolved target are known ports.
pub fn plan_connect(
    programs: &Vec<ManagedAudioProgram>,
    app_index: usize,
    jack_index: usize,
    ports: &Vec<JackPortInfo>,
) -> (r: ConnectPlan)
    ensures
        ({
            let pv = programs_view(programs@);
            let names = port_names(ports_view(ports@));
            match r {
                ConnectPlan::NoSuchIntent => app_index >= pv.len() || jack_index
                    >= pv[app_index as int].config.jack_ports.len(),
                ConnectPlan::PortMissing { source, target } => app_index < pv.len() && jack_index
                    < pv[app_index as int].config.jack_ports.len() && {
                    let intent = pv[app_index as int].config.jack_ports[jack_index as int];
                    let resolved = resolve_target_spec(
                        names,
                        claimed_names(pv),
                        pv[app_index as int].jack_node_name,
                        intent.target_name,
                    );
                    (!seq_has(names, intent.source_name) || !seq_has(names, resolved)) && source@
                        == intent.source_name && target@ == intent.target_name
                },
                ConnectPlan::Connect { source, target, node_name } => app_index < pv.len()
                    && jack_index < pv[app_index as int].config.jack_ports.len() && {
                    let intent = pv[app_index as int].config.jack_ports[jack_index as int];
                    let resolved = resolve_target_spec(
                        names,
                        claimed_names(pv),
                        pv[app_index as int].jack_node_name,
                        intent.target_name,
                    );
                    seq_has(names, intent.source_name) && seq_has(names, resolved) && source@
                        == intent.source_name && target@ == resolved && node_name@ == node_prefix(
                        resolved,
                    )
                },
            }
        }),
{
    if app_index >= programs.len() {
        return ConnectPlan::NoSuchIntent;
    }
    if jack_index >= programs[app_index].config.jack_ports.len() {
        return ConnectPlan::NoSuchIntent;
    }
    let claimed = collect_claimed(programs);
    let port = &programs[app_index].config.jack_ports[jack_index];
    let target = get_jack_name(
        ports,
        &claimed,
        programs[app_index].jack_node_name.as_slice(),
        port,
    );
    let source_known = port_list_has(ports, port.source_name.as_slice());
    let target_known = port_list_has(ports, target.as_slice());
    if source_known && target_known {
        let node_name = node_of(target.as_slice());
        ConnectPlan::Connect { source: copy_bytes(port.source_name.as_slice()), target, node_name }
    } else {
        ConnectPlan::PortMissing {
            source: copy_bytes(port.source_name.as_slice()),
            target: copy_bytes(port.target_name.as_slice()),
        }
    }
}

/// Select the intents that activating use case `use_case` connects: each
/// pair is a program index and an intent index whose filter matches the
/// use case, every matching intent appears, and the pairs come in
/// program-then-intent order.
#[verifier::loop_isolation(false)]
pub fn plan_activation(programs: &Vec<ManagedAudioProgram>, use_case: &[u8]) -> (r: Vec<
    (usize, usize),
>)
    ensures
        forall|k: int|
            0 <= k < r@.len() ==> (#[trigger] r@[k]).0 < programs@.len() && (r@[k].1 as int)
                < programs_view(programs@)[r@[k].0 as int].config.jack_ports.len()
                && filter_matches(
                programs_view(programs@)[r@[k].0 as int].config.jack_ports[r@[k].1 as int].filter,
                use_case@,
            ),
        forall|i: int, j: int|
            #![trigger programs_view(programs@)[i].config.jack_ports[j]]
            0 <= i < programs@.len() && 0 <= j
                < programs_view(programs@)[i].config.jack_ports.len() && filter_matches(
                programs_view(programs@)[i].config.jack_ports[j].filter,
                use_case@,
            ) ==> r@.contains((i as usize, j as usize)),
        forall|k1: int, k2: int|
            0 <= k1 < k2 < r@.len() ==> ((#[trigger] r@[k1]).0 < (#[trigger] r@[k2]).0 || (
            r@[k1].0 == r@[k2].0 && r@[k1].1 < r@[k2].1)),
{
    let ghost pv = programs_view(programs@);
    let mut r: Vec<(usize, usize)> = Vec::new();
    let mut i: usize = 0;
    while i < programs.len()
        invariant
            i <= programs@.len(),
            pv == programs_view(programs@),
            forall|k: int|
                0 <= k < r@.len() ==> (#[trigger] r@[k]).0 < i && (r@[k].1 as int)
                    < pv[r@[k].0 as int].config.jack_ports.len() && filter_matches(
                    pv[r@[k].0 as int].config.jack_ports[r@[k].1 as int].filter,
                    use_case@,
                ),
            forall|i2: int, j2: int|
                #![trigger pv[i2].config.jack_ports[j2]]
                0 <= i2 < i && 0 <= j2 < pv[i2].config.jack_ports.len() && filter_matches(
                    pv[i2].config.jack_ports[j2].filter,
                    use_case@,
                ) ==> r@.contains((i2 as usize, j2 as usize)),
            forall|k1: int, k2: int|
                0 <= k1 < k2 < r@.len() ==> ((#[trigger] r@[k1]).0 < (#[trigger] r@[k2]).0 || (
                r@[k1].0 == r@[k2].0 && r@[k1].1 < r@[k2].1)),
        decreases programs@.len() - i,
    {
        let mut j: usize = 0;
        while j < programs[i].config.jack_ports.len()
            invariant
                i < programs@.len(),
                j <= programs@[i as int].config.jack_ports@.len(),
                pv == programs_view(programs@),
                forall|k: int|
                    0 <= k < r@.len() ==> ((#[trigger] r@[k]).0 < i || (r@[k].0 == i && (
                    r@[k].1 as int) < j)) && (r@[k].1 as int) < pv[r@[k].0 as int].config.jack_ports.len()
                        && filter_matches(
                        pv[r@[k].0 as int].config.jack_ports[r@[k].1 as int].filter,
                        use_case@,
                    ),
                forall|i2: int, j2: int|
                    #![trigger pv[i2].config.jack_ports[j2]]
                    0 <= i2 && 0 <= j2 < pv[i2].config.jack_ports.len() && (i2 < i || (i2 == i && j2
                        < j)) && filter_matches(pv[i2].config.jack_ports[j2].filter, use_case@)
                        ==> r@.contains((i2 as usize, j2 as usize)),
                forall|k1: int, k2: int|
                    0 <= k1 < k2 < r@.len() ==> ((#[trigger] r@[k1]).0 < (#[trigger] r@[k2]).0 || (
                    r@[k1].0 == r@[k2].0 && r@[k1].1 < r@[k2].1)),
            decreases programs@[i as int].config.jack_ports@.len() - j,
        {
            proof {
                assert(pv[i as int].config.jack_ports[j as int]
                    == programs@[i as int].config.jack_ports@[j as int]@);
            }
            let port = &programs[i].config.jack_ports[j];
            if filter_matches_use_case(port.filter.as_slice(), use_case) {
                let ghost old_r = r@;
                r.push((i, j));
                proof {
                    assert(r@ =~= old_r.push((i, j)));
                    assert forall|i2: int, j2: int|
                        #![trigger pv[i2].config.jack_ports[j2]]
                        0 <= i2 && 0 <= j2 < pv[i2].config.jack_ports.len() && (i2 < i || (i2 == i
                            && j2 <= j)) && filter_matches(
                            pv[i2].config.jack_ports[j2].filter,
                            use_case@,
                        ) implies r@.contains((i2 as usize, j2 as usize)) by {
                        if i2 == i && j2 == j {
                            assert(r@[old_r.len() as int] == (i2 as usize, j2 as usize));
                        } else {
                            let k = choose|k: int|
                                0 <= k < old_r.len() && old_r[k] == (i2 as usize, j2 as usize);
                            assert(r@[k] == (i2 as usize, j2 as usize));
                        }
                    }
                }
            }
            j += 1;
        }
        i += 1;
    }
    r
}

impl ManagedAudioProgram {
    /// Record the routing-graph node a connect actually reached, so that
    /// later resolutions stay pinned to it; called only once the daemon
    /// has reported the connect successful.
    pub fn set_node_affinity(&mut self, node: Vec<u8>)
        ensures
            final(self)@.jack_node_name == node@,
            final(self)@.config == old(self)@.config,
            final(self)@.pid_marker == old(self)@.pid_marker,
    {
        self.jack_node_name = node;
    }
}


} // verus!
