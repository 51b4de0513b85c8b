//! Tests of intent-target resolution and wildcard matching.

use jack_streaming_manager::model::{JackPort, JackPortInfo};
use jack_streaming_manager::pattern::matches_pattern;
use jack_streaming_manager::resolve::get_jack_name;

fn port(name: &str) -> JackPortInfo {
    JackPortInfo {
        name: name.as_bytes().to_vec(),
        properties: vec![b"input".to_vec()],
    }
}

fn intent(target: &str) -> JackPort {
    JackPort {
        filter: Vec::new(),
        source_name: b"system:capture_1".to_vec(),
        target_search_name: target.as_bytes().to_vec(),
        target_name: target.as_bytes().to_vec(),
    }
}

fn claimed(names: &[&str]) -> Vec<Vec<u8>> {
    names.iter().map(|n| n.as_bytes().to_vec()).collect()
}

#[test]
fn wildcard_matching() {
    assert!(matches_pattern(b"baresip-*", b"baresip-01:input"));
    assert!(matches_pattern(b"*:in_1", b"a:in_1"));
    assert!(matches_pattern(b"a*b", b"ab"));
    assert!(matches_pattern(b"a*b", b"axyzb"));
    assert!(!matches_pattern(b"a*b", b"a"));
    assert!(!matches_pattern(b"a*b", b"axyz"));
    assert!(matches_pattern(b"exact", b"exact"));
    assert!(!matches_pattern(b"exact", b"exactly"));
    assert!(matches_pattern(b"*", b"anything"));
    assert!(matches_pattern(b"*", b""));
}

#[test]
fn affinity_pins_resolution() {
    // Affinity nodeX: the target stays nodeX:in_1 no matter which other
    // wildcard-matching ports have appeared.
    let ports = vec![port("nodeX:in_1"), port("freshnode:in_1"), port("other:in_1")];
    let r = get_jack_name(&ports, &claimed(&["nodeX"]), b"nodeX", &intent("nodeX:in_1"));
    assert_eq!(r, b"nodeX:in_1".to_vec());
}

#[test]
fn affinity_rewrites_node_of_stored_target() {
    let ports = vec![port("somewhere:in_1")];
    let r = get_jack_name(&ports, &claimed(&[]), b"nodeY", &intent("old_node:in_1"));
    assert_eq!(r, b"nodeY:in_1".to_vec());
}

#[test]
fn affinity_with_plain_target_name() {
    let r = get_jack_name(&Vec::new(), &claimed(&[]), b"nodeY", &intent("in_1"));
    assert_eq!(r, b"nodeY:in_1".to_vec());
}

#[test]
fn wildcard_prefers_first_unclaimed_match() {
    // a:in_1 is already another program's affinity target, so the pattern
    // falls through to b:in_1.
    let ports = vec![port("a:in_1"), port("b:in_1")];
    let r = get_jack_name(&ports, &claimed(&["a:in_1"]), b"", &intent("*:in_1"));
    assert_eq!(r, b"b:in_1".to_vec());
}

#[test]
fn wildcard_takes_first_match_when_all_claimed() {
    let ports = vec![port("a:in_1"), port("b:in_1")];
    let r = get_jack_name(&ports, &claimed(&["a:in_1", "b:in_1"]), b"", &intent("*:in_1"));
    assert_eq!(r, b"a:in_1".to_vec());
}

#[test]
fn wildcard_without_match_stays_literal() {
    let ports = vec![port("x:out")];
    let r = get_jack_name(&ports, &claimed(&[]), b"", &intent("baresip-*"));
    assert_eq!(r, b"baresip-*".to_vec());
}

#[test]
fn plain_target_resolves_verbatim() {
    let ports = vec![port("a:in_1")];
    let r = get_jack_name(&ports, &claimed(&[]), b"", &intent("missing:port"));
    assert_eq!(r, b"missing:port".to_vec());
}
