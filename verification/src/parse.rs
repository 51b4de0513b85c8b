//! Parsing of the routing daemon's text protocol.
//!
//! Port listing: a non-indented line names a port; an indented
//! `properties:` line carries its comma-separated capability list.
//!
//! Combined listing with connections: a non-indented line opens a new port
//! context; indented lines under it are either peer port names, buffered
//! until the port's `properties:` line arrives, or that `properties:` line
//! itself, which emits one `(port, peer)` edge per buffered peer exactly
//! when `output` is among the properties, and clears the buffer either way.

use vstd::prelude::*;

use crate::model::{ports_view, JackPortInfo, JackPortInfoV};
use crate::names::{
    copy_bytes, copy_range, has_prefix, is_prefix, list_has, seq_has, trim, trim_spec, COMMA, CR,
    NL, SPACE, TAB,
};

verus! {

/// The bytes of the key `properties:`.
pub open spec fn properties_key() -> Seq<u8> {
    seq![112u8, 114u8, 111u8, 112u8, 101u8, 114u8, 116u8, 105u8, 101u8, 115u8, 58u8]
}

/// Build the key `properties:`.
pub fn properties_key_bytes() -> (r: Vec<u8>)
    ensures
        r@ == properties_key(),
{
    let v: Vec<u8> = vec![112u8, 114u8, 111u8, 112u8, 101u8, 114u8, 116u8, 105u8, 101u8, 115u8, 58u8];
    proof {
        assert(v@ =~= properties_key());
    }
    v
}

/// The bytes of the capability name `output`.
pub open spec fn output_kw() -> Seq<u8> {
    seq![111u8, 117u8, 116u8, 112u8, 117u8, 116u8]
}

/// Build the capability name `output`.
pub fn output_kw_bytes() -> (r: Vec<u8>)
    ensures
        r@ == output_kw(),
{
    let v: Vec<u8> = vec![111u8, 117u8, 116u8, 112u8, 117u8, 116u8];
    proof {
        assert(v@ =~= output_kw());
    }
    v
}

/// A line as split at a line feed: one trailing carriage return is
/// dropped.
pub open spec fn strip_cr(l: Seq<u8>) -> Seq<u8> {
    if l.len() > 0 && l.last() == CR {
        l.drop_last()
    } else {
        l
    }
}

/// The lines of `s` after the partial line `cur`: the running state of a
/// left-to-right split at line feeds. A final line needs no line feed; a
/// trailing one opens no empty line.
pub open spec fn lines_go(s: Seq<u8>, cur: Seq<u8>) -> Seq<Seq<u8>>
    decreases s.len(),
{
    if s.len() == 0 {
        if cur.len() > 0 {
            seq![cur]
        } else {
            seq![]
        }
    } else if s[0] == NL {
        seq![strip_cr(cur)] + lines_go(s.drop_first(), seq![])
    } else {
        lines_go(s.drop_first(), cur.push(s[0]))
    }
}

/// The lines of `s`, split as `str::lines` splits.
pub open spec fn lines_of(s: Seq<u8>) -> Seq<Seq<u8>> {
    lines_go(s, seq![])
}

/// Split `s` into lines.
#[verifier::loop_isolation(false)]
pub fn split_lines(s: &[u8]) -> (r: Vec<Vec<u8>>)
    ensures
        r.deep_view() == lines_of(s@),
{
    let mut r: Vec<Vec<u8>> = Vec::new();
    let mut cur: Vec<u8> = Vec::new();
    let mut i: usize = 0;
    proof {
        assert(s@.skip(0) =~= s@);
        assert(r.deep_view() + lines_go(s@, cur@) =~= lines_of(s@));
    }
    while i < s.len()
        invariant
            i <= s.len(),
            lines_of(s@) == r.deep_view() + lines_go(s@.skip(i as int), cur@),
        decreases s.len() - i,
    {
        proof {
            assert(s@.skip(i as int).drop_first() =~= s@.skip(i + 1));
            assert(s@.skip(i as int)[0] == s@[i as int]);
        }
        if s[i] == NL {
            let ghost old_r = r.deep_view();
            let ghost old_cur = cur@;
            let mut done = cur;
            cur = Vec::new();
            if done.len() > 0 && done[done.len() - 1] == CR {
                done.pop();
            }
            proof {
                assert(done@ == strip_cr(old_cur));
            }
            r.push(done);
            proof {
                assert(cur@ =~= Seq::<u8>::empty());
                assert(r.deep_view() =~~= old_r.push(strip_cr(old_cur)));
                assert(old_r + (seq![strip_cr(old_cur)] + lines_go(s@.skip(i + 1), seq![])) =~~= (
                r.deep_view() + lines_go(s@.skip(i + 1), cur@)));
            }
        } else {
            let ghost old_cur = cur@;
            cur.push(s[i]);
            proof {
                assert(lines_go(s@.skip(i as int), old_cur) == lines_go(
                    s@.skip(i + 1),
                    old_cur.push(s@[i as int]),
                ));
            }
        }
        i += 1;
    }
    proof {
        assert(s@.skip(s@.len() as int) =~= Seq::<u8>::empty());
    }
    if cur.len() > 0 {
        let ghost old_r = r.deep_view();
        let ghost old_cur = cur@;
        r.push(cur);
        proof {
            assert(r.deep_view() =~~= old_r.push(old_cur));
            assert(old_r + seq![old_cur] =~~= r.deep_view());
        }
    }
    proof {
        assert(r.deep_view() + Seq::<Seq<u8>>::empty() =~= r.deep_view());
    }
    r
}

/// The capability names in the comma-separated list `s` after the partial
/// piece `cur`: each piece is trimmed and dropped when empty.
pub open spec fn props_go(s: Seq<u8>, cur: Seq<u8>) -> Seq<Seq<u8>>
    decreases s.len(),
{
    if s.len() == 0 {
        if trim_spec(cur).len() > 0 {
            seq![trim_spec(cur)]
        } else {
            seq![]
        }
    } else if s[0] == COMMA {
        (if trim_spec(cur).len() > 0 {
            seq![trim_spec(cur)]
        } else {
            seq![]
        }) + props_go(s.drop_first(), seq![])
    } else {
        props_go(s.drop_first(), cur.push(s[0]))
    }
}

/// The capability names of a port-listing `properties:` value.
pub open spec fn props_spec(s: Seq<u8>) -> Seq<Seq<u8>> {
    props_go(s, seq![])
}

/// Split a port-listing `properties:` value at commas, trimming each piece
/// and dropping empty ones.
#[verifier::loop_isolation(false)]
pub fn parse_props(s: &[u8]) -> (r: Vec<Vec<u8>>)
    ensures
        r.deep_view() == props_spec(s@),
{
    let mut r: Vec<Vec<u8>> = Vec::new();
    let mut cur: Vec<u8> = Vec::new();
    let mut i: usize = 0;
    proof {
        assert(s@.skip(0) =~= s@);
        assert(r.deep_view() + props_go(s@, cur@) =~= props_spec(s@));
    }
    while i < s.len()
        invariant
            i <= s.len(),
            props_spec(s@) == r.deep_view() + props_go(s@.skip(i as int), cur@),
        decreases s.len() - i,
    {
        proof {
            assert(s@.skip(i as int).drop_first() =~= s@.skip(i + 1));
            assert(s@.skip(i as int)[0] == s@[i as int]);
        }
        if s[i] == COMMA {
            let ghost old_r = r.deep_view();
            let ghost old_cur = cur@;
            let piece = trim(cur.as_slice());
            cur = Vec::new();
            if piece.len() > 0 {
                r.push(piece);
                proof {
                    assert(r.deep_view() =~~= old_r.push(trim_spec(old_cur)));
                    assert(old_r + (seq![trim_spec(old_cur)] + props_go(s@.skip(i + 1), seq![]))
                        =~~= (r.deep_view() + props_go(s@.skip(i + 1), cur@)));
                }
            } else {
                proof {
                    assert(cur@ =~= Seq::<u8>::empty());
                    assert(old_r + props_go(s@.skip(i + 1), seq![]) =~~= (r.deep_view()
                        + props_go(s@.skip(i + 1), cur@)));
                }
            }
        } else {
            let ghost old_cur = cur@;
            cur.push(s[i]);
            proof {
                assert(props_go(s@.skip(i as int), old_cur) == props_go(
                    s@.skip(i + 1),
                    old_cur.push(s@[i as int]),
                ));
            }
        }
        i += 1;
    }
    proof {
        assert(s@.skip(s@.len() as int) =~= Seq::<u8>::empty());
    }
    let piece = trim(cur.as_slice());
    if piece.len() > 0 {
        let ghost old_r = r.deep_view();
        r.push(piece);
        proof {
            assert(r.deep_view() =~~= old_r.push(trim_spec(cur@)));
            assert(old_r + seq![trim_spec(cur@)] =~~= r.deep_view());
        }
    }
    proof {
        assert(r.deep_view() + Seq::<Seq<u8>>::empty() =~= r.deep_view());
    }
    r
}

/// The port that a pending context denotes: none before the first port
/// line, else one port with the properties read so far.
pub open spec fn opt_port_seq(cur: Option<JackPortInfoV>) -> Seq<JackPortInfoV> {
    match cur {
        Some(p) => seq![p],
        None => seq![],
    }
}

/// The ports that the port-listing lines `lines` yield, with `cur` the
/// port context open from the lines already read. A non-indented, non-empty
/// line opens a new port named by its trimmed text; under an open context a
/// trimmed `properties:` line replaces the context's capability list; every
/// other line is ignored.
pub open spec fn ports_go(lines: Seq<Seq<u8>>, cur: Option<JackPortInfoV>) -> Seq<JackPortInfoV>
    decreases lines.len(),
{
    if lines.len() == 0 {
        opt_port_seq(cur)
    } else {
        let line = lines[0];
        if line.len() > 0 && line[0] != TAB {
            opt_port_seq(cur) + ports_go(
                lines.drop_first(),
                Some(JackPortInfoV { name: trim_spec(line), properties: seq![] }),
            )
        } else {
            match cur {
                Some(p) => {
                    let t = trim_spec(line);
                    if has_prefix(t, properties_key()) {
                        ports_go(
                            lines.drop_first(),
                            Some(
                                JackPortInfoV {
                                    name: p.name,
                                    properties: props_spec(
                                        t.skip(properties_key().len() as int),
                                    ),
                                },
                            ),
                        )
                    } else {
                        ports_go(lines.drop_first(), cur)
                    }
                },
                None => ports_go(lines.drop_first(), cur),
            }
        }
    }
}

/// The ports that the port-listing output `s` yields.
pub open spec fn parse_ports_spec(s: Seq<u8>) -> Seq<JackPortInfoV> {
    ports_go(lines_of(s), None)
}

/// The view of an open exec port context.
pub open spec fn opt_port_view(cur: Option<JackPortInfo>) -> Option<JackPortInfoV> {
    match cur {
        Some(p) => Some(p@),
        None => None,
    }
}

/// Parse the daemon's port-listing output into the ports it describes.
#[verifier::loop_isolation(false)]
pub fn parse_jack_ports(text: &[u8]) -> (r: Vec<JackPortInfo>)
    ensures
        ports_view(r@) == parse_ports_spec(text@),
{
    let lines = split_lines(text);
    let key = properties_key_bytes();
    let mut r: Vec<JackPortInfo> = Vec::new();
    let mut cur: Option<JackPortInfo> = None;
    let mut i: usize = 0;
    proof {
        assert(lines.deep_view().skip(0) =~= lines.deep_view());
        assert(ports_view(r@) + ports_go(lines.deep_view(), opt_port_view(cur)) =~= parse_ports_spec(
            text@,
        ));
    }
    while i < lines.len()
        invariant
            i <= lines@.len(),
            lines.deep_view() == lines_of(text@),
            key@ == properties_key(),
            parse_ports_spec(text@) == ports_view(r@) + ports_go(
                lines.deep_view().skip(i as int),
                opt_port_view(cur),
            ),
        decreases lines@.len() - i,
    {
        proof {
            assert(lines.deep_view().skip(i as int).drop_first() =~= lines.deep_view().skip(i + 1));
            assert(lines.deep_view().skip(i as int)[0] =~= lines@[i as int]@);
        }
        let line = lines[i].as_slice();
        if line.len() > 0 && line[0] != TAB {
            let ghost old_r = ports_view(r@);
            let ghost old_cur = opt_port_view(cur);
            let name = trim(line);
            let opened = JackPortInfo { name, properties: Vec::new() };
            proof {
                assert(opened@.properties =~= Seq::<Seq<u8>>::empty());
            }
            match cur {
                Some(p) => {
                    r.push(p);
                    proof {
                        assert(ports_view(r@) =~= old_r + opt_port_seq(old_cur));
                    }
                },
                None => {
                    proof {
                        assert(ports_view(r@) =~= old_r + opt_port_seq(old_cur));
                    }
                },
            }
            cur = Some(opened);
            proof {
                assert((old_r + opt_port_seq(old_cur)) + ports_go(
                    lines.deep_view().skip(i + 1),
                    opt_port_view(cur),
                ) =~= old_r + (opt_port_seq(old_cur) + ports_go(
                    lines.deep_view().skip(i + 1),
                    opt_port_view(cur),
                )));
            }
        } else {
            let t = trim(line);
            let is_props = match cur {
                Some(_) => is_prefix(t.as_slice(), key.as_slice()),
                None => false,
            };
            if is_props {
                let value = copy_range(t.as_slice(), key.len(), t.len());
                let props = parse_props(value.as_slice());
                let name = match cur {
                    Some(p) => p.name,
                    None => Vec::new(),
                };
                let replaced = JackPortInfo { name, properties: props };
                cur = Some(replaced);
                proof {
                    assert(value@ =~= trim_spec(lines@[i as int]@).skip(
                        properties_key().len() as int,
                    ));
                }
            }
        }
        i += 1;
    }
    proof {
        assert(lines.deep_view().skip(lines@.len() as int) =~= Seq::<Seq<u8>>::empty());
    }
    let ghost old_r = ports_view(r@);
    let ghost old_cur = opt_port_view(cur);
    match cur {
        Some(p) => {
            r.push(p);
            proof {
                assert(ports_view(r@) =~= old_r + opt_port_seq(old_cur));
            }
        },
        None => {
            proof {
                assert(ports_view(r@) =~= old_r + opt_port_seq(old_cur));
            }
        },
    }
    r
}

/// The capability names in a connections-listing `properties:` value:
/// each comma-separated piece that is non-empty before trimming is kept,
/// trimmed (so a piece of bare whitespace stays as an empty name).
pub open spec fn conn_props_go(s: Seq<u8>, cur: Seq<u8>) -> Seq<Seq<u8>>
    decreases s.len(),
{
    if s.len() == 0 {
        if cur.len() > 0 {
            seq![trim_spec(cur)]
        } else {
            seq![]
        }
    } else if s[0] == COMMA {
        (if cur.len() > 0 {
            seq![trim_spec(cur)]
        } else {
            seq![]
        }) + conn_props_go(s.drop_first(), seq![])
    } else {
        conn_props_go(s.drop_first(), cur.push(s[0]))
    }
}

/// The capability names of a connections-listing `properties:` value.
pub open spec fn conn_props_spec(s: Seq<u8>) -> Seq<Seq<u8>> {
    conn_props_go(s, seq![])
}

/// Split a connections-listing `properties:` value at commas, keeping each
/// piece that is non-empty before trimming.
#[verifier::loop_isolation(false)]
pub fn parse_conn_props(s: &[u8]) -> (r: Vec<Vec<u8>>)
    ensures
        r.deep_view() == conn_props_spec(s@),
{
    let mut r: Vec<Vec<u8>> = Vec::new();
    let mut cur: Vec<u8> = Vec::new();
    let mut i: usize = 0;
    proof {
        assert(s@.skip(0) =~= s@);
        assert(r.deep_view() + conn_props_go(s@, cur@) =~= conn_props_spec(s@));
    }
    while i < s.len()
        invariant
            i <= s.len(),
            conn_props_spec(s@) == r.deep_view() + conn_props_go(s@.skip(i as int), cur@),
        decreases s.len() - i,
    {
        proof {
            assert(s@.skip(i as int).drop_first() =~= s@.skip(i + 1));
            assert(s@.skip(i as int)[0] == s@[i as int]);
        }
        if s[i] == COMMA {
            let ghost old_r = r.deep_view();
            let ghost old_cur = cur@;
            if cur.len() > 0 {
                let piece = trim(cur.as_slice());
                cur = Vec::new();
                r.push(piece);
                proof {
                    assert(r.deep_view() =~~= old_r.push(trim_spec(old_cur)));
                    assert(old_r + (seq![trim_spec(old_cur)] + conn_props_go(
                        s@.skip(i + 1),
                        seq![],
                    )) =~~= (r.deep_view() + conn_props_go(s@.skip(i + 1), cur@)));
                }
            } else {
                proof {
                    assert(cur@ =~= Seq::<u8>::empty());
                }
            }
        } else {
            let ghost old_cur = cur@;
            cur.push(s[i]);
            proof {
                assert(conn_props_go(s@.skip(i as int), old_cur) == conn_props_go(
                    s@.skip(i + 1),
                    old_cur.push(s@[i as int]),
                ));
            }
        }
        i += 1;
    }
    proof {
        assert(s@.skip(s@.len() as int) =~= Seq::<u8>::empty());
    }
    if cur.len() > 0 {
        let ghost old_r = r.deep_view();
        let piece = trim(cur.as_slice());
        r.push(piece);
        proof {
            assert(r.deep_view() =~~= old_r.push(trim_spec(cur@)));
            assert(old_r + seq![trim_spec(cur@)] =~~= r.deep_view());
        }
    }
    proof {
        assert(r.deep_view() + Seq::<Seq<u8>>::empty() =~= r.deep_view());
    }
    r
}

/// The edges emitted when a port context's `properties:` line arrives:
/// one `(port, peer)` pair per buffered peer when `out` holds, none
/// otherwise.
pub open spec fn flush_edges(port: Seq<u8>, pending: Seq<Seq<u8>>, out: bool) -> Seq<
    (Seq<u8>, Seq<u8>),
> {
    if out {
        Seq::new(pending.len(), |i: int| (port, pending[i]))
    } else {
        seq![]
    }
}

/// The connections that the combined-listing lines `lines` yield, with
/// `cur` the open port context and `pending` its buffered peer names. A
/// non-indented, non-empty line opens a new port context, leaving the
/// buffer as it stands; under an open context a trimmed `properties:` line
/// flushes the buffer as edges exactly when `output` is among the listed
/// capabilities, and clears it either way; any other indented non-empty
/// line buffers one peer name.
pub open spec fn conns_go(
    lines: Seq<Seq<u8>>,
    cur: Option<Seq<u8>>,
    pending: Seq<Seq<u8>>,
) -> Seq<(Seq<u8>, Seq<u8>)>
    decreases lines.len(),
{
    if lines.len() == 0 {
        seq![]
    } else {
        let line = lines[0];
        if line.len() > 0 && line[0] != SPACE && line[0] != TAB {
            conns_go(lines.drop_first(), Some(trim_spec(line)), pending)
        } else {
            match cur {
                Some(p) => {
                    let t = trim_spec(line);
                    if has_prefix(t, properties_key()) {
                        let props = conn_props_spec(t.skip(properties_key().len() as int));
                        flush_edges(p, pending, seq_has(props, output_kw())) + conns_go(
                            lines.drop_first(),
                            cur,
                            seq![],
                        )
                    } else if t.len() > 0 {
                        conns_go(lines.drop_first(), cur, pending.push(t))
                    } else {
                        conns_go(lines.drop_first(), cur, pending)
                    }
                },
                None => conns_go(lines.drop_first(), cur, pending),
            }
        }
    }
}

/// The connections that the combined listing output `s` yields.
pub open spec fn parse_connections_spec(s: Seq<u8>) -> Seq<(Seq<u8>, Seq<u8>)> {
    conns_go(lines_of(s), None, seq![])
}

/// The view of the open exec port context of the connections parser.
pub open spec fn opt_name_view(cur: Option<Vec<u8>>) -> Option<Seq<u8>> {
    match cur {
        Some(p) => Some(p@),
        None => None,
    }
}

/// Parse the daemon's combined listing-with-connections output into the
/// edges it describes.
#[verifier::loop_isolation(false)]
pub fn parse_jack_connections(text: &[u8]) -> (r: Vec<(Vec<u8>, Vec<u8>)>)
    ensures
        r.deep_view() == parse_connections_spec(text@),
{
    let lines = split_lines(text);
    let key = properties_key_bytes();
    let okw = output_kw_bytes();
    let mut r: Vec<(Vec<u8>, Vec<u8>)> = Vec::new();
    let mut cur: Option<Vec<u8>> = None;
    let mut pending: Vec<Vec<u8>> = Vec::new();
    let mut i: usize = 0;
    proof {
        assert(lines.deep_view().skip(0) =~= lines.deep_view());
        assert(pending.deep_view() =~= Seq::<Seq<u8>>::empty());
        assert(r.deep_view() + conns_go(lines.deep_view(), opt_name_view(cur), pending.deep_view())
            =~= parse_connections_spec(text@));
    }
    while i < lines.len()
        invariant
            i <= lines@.len(),
            lines.deep_view() == lines_of(text@),
            key@ == properties_key(),
            okw@ == output_kw(),
            parse_connections_spec(text@) == r.deep_view() + conns_go(
                lines.deep_view().skip(i as int),
                opt_name_view(cur),
                pending.deep_view(),
            ),
        decreases lines@.len() - i,
    {
        proof {
            assert(lines.deep_view().skip(i as int).drop_first() =~= lines.deep_view().skip(i + 1));
            assert(lines.deep_view().skip(i as int)[0] =~= lines@[i as int]@);
        }
        let line = lines[i].as_slice();
        if line.len() > 0 && line[0] != SPACE && line[0] != TAB {
            let name = trim(line);
            cur = Some(name);
        } else {
            match &cur {
                Some(p) => {
                    let t = trim(line);
                    if is_prefix(t.as_slice(), key.as_slice()) {
                        let value = copy_range(t.as_slice(), key.len(), t.len());
                        let props = parse_conn_props(value.as_slice());
                        let out = list_has(&props, okw.as_slice());
                        let ghost pn = p@;
                        let ghost pend0 = pending.deep_view();
                        let ghost base = r.deep_view();
                        proof {
                            assert(value@ =~= trim_spec(lines@[i as int]@).skip(
                                properties_key().len() as int,
                            ));
                        }
                        if out {
                            let mut j: usize = 0;
                            while j < pending.len()
                                invariant
                                    j <= pending@.len(),
                                    pending.deep_view() == pend0,
                                    r.deep_view() =~~= base + Seq::new(
                                        j as nat,
                                        |m: int| (pn, pend0[m]),
                                    ),
                                decreases pending@.len() - j,
                            {
                                let ghost old_r = r.deep_view();
                                let src = copy_bytes(p.as_slice());
                                let dst = copy_bytes(pending[j].as_slice());
                                r.push((src, dst));
                                proof {
                                    assert(pending.deep_view()[j as int] =~= pending@[j as int]@);
                                    assert(r.deep_view() =~~= old_r.push((pn, pend0[j as int])));
                                    assert(old_r.push((pn, pend0[j as int])) =~~= base + Seq::new(
                                        (j + 1) as nat,
                                        |m: int| (pn, pend0[m]),
                                    ));
                                }
                                j += 1;
                            }
                            proof {
                                assert(Seq::new(pending@.len(), |m: int| (pn, pend0[m]))
                                    =~= flush_edges(pn, pend0, true));
                            }
                        }
                        pending = Vec::new();
                        proof {
                            assert(pending.deep_view() =~= Seq::<Seq<u8>>::empty());
                            assert(r.deep_view() =~~= base + flush_edges(
                                pn,
                                pend0,
                                seq_has(
                                    conn_props_spec(
                                        trim_spec(lines@[i as int]@).skip(
                                            properties_key().len() as int,
                                        ),
                                    ),
                                    output_kw(),
                                ),
                            ));
                        }
                    } else if t.len() > 0 {
                        let ghost old_pending = pending.deep_view();
                        pending.push(t);
                        proof {
                            assert(pending.deep_view() =~~= old_pending.push(
                                trim_spec(lines@[i as int]@),
                            ));
                        }
                    }
                },
                None => {},
            }
        }
        i += 1;
    }
    proof {
        assert(lines.deep_view().skip(lines@.len() as int) =~= Seq::<Seq<u8>>::empty());
        assert(r.deep_view() + Seq::<(Seq<u8>, Seq<u8>)>::empty() =~= r.deep_view());
    }
    r
}


} // verus!
