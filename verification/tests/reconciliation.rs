//! Tests of use-case filters, activation selection, connect planning and
//! disconnect reconciliation.

use jack_streaming_manager::filters::get_filters;
use jack_streaming_manager::model::{
    AudioProgramConfig, JackPort, JackPortInfo, ManagedAudioProgram,
};
use jack_streaming_manager::reconcile::{
    plan_activation, plan_connect, plan_disconnects, wanted_connections, ConnectPlan,
};

fn intent(filter: &str, source: &str, target: &str) -> JackPort {
    JackPort {
        filter: filter.as_bytes().to_vec(),
        source_name: source.as_bytes().to_vec(),
        target_search_name: target.as_bytes().to_vec(),
        target_name: target.as_bytes().to_vec(),
    }
}

fn program(name: &str, affinity: &str, intents: Vec<JackPort>) -> ManagedAudioProgram {
    ManagedAudioProgram {
        config: AudioProgramConfig {
            program_name: name.as_bytes().to_vec(),
            command_name: name.as_bytes().to_vec(),
            start_params: Vec::new(),
            jack_ports: intents,
        },
        pid_marker: None,
        jack_node_name: affinity.as_bytes().to_vec(),
    }
}

fn port(name: &str) -> JackPortInfo {
    JackPortInfo {
        name: name.as_bytes().to_vec(),
        properties: vec![b"output".to_vec()],
    }
}

fn edge(a: &str, b: &str) -> (Vec<u8>, Vec<u8>) {
    (a.as_bytes().to_vec(), b.as_bytes().to_vec())
}

#[test]
fn filters_are_deduplicated_in_first_seen_order() {
    let programs = vec![program(
        "p",
        "",
        vec![intent("start extra", "s", "t"), intent("extra", "s", "t")],
    )];
    let filters = get_filters(&programs);
    assert_eq!(filters, vec![b"start".to_vec(), b"extra".to_vec()]);
}

#[test]
fn filters_default_when_none_declared() {
    let programs = vec![program("p", "", vec![intent("", "s", "t")])];
    assert_eq!(get_filters(&programs), vec![b"start".to_vec()]);
    assert_eq!(get_filters(&Vec::new()), vec![b"start".to_vec()]);
}

#[test]
fn whitespace_only_filter_is_not_always_on() {
    // A filter of bare whitespace has no tags and is not empty, so it
    // matches no use case.
    let programs = vec![program("p", "", vec![intent("  ", "s", "t")])];
    assert!(plan_activation(&programs, b"live").is_empty());
    assert!(plan_activation(&programs, b"").is_empty());
}

#[test]
fn activation_selects_matching_and_always_on_intents() {
    let programs = vec![
        program("p0", "", vec![intent("live", "s0", "t0"), intent("", "s1", "t1")]),
        program("p1", "", vec![intent("studio live", "s2", "t2"), intent("studio", "s3", "t3")]),
    ];
    let plan = plan_activation(&programs, b"live");
    assert_eq!(plan, vec![(0, 0), (0, 1), (1, 0)]);
    let empty = plan_activation(&programs, b"");
    assert_eq!(empty, vec![(0, 1)]);
}

#[test]
fn connect_plan_resolves_and_reports() {
    let programs = vec![program("p", "", vec![intent("", "system:capture_1", "*:in_1")])];
    let ports = vec![port("system:capture_1"), port("node7:in_1")];
    match plan_connect(&programs, 0, 0, &ports) {
        ConnectPlan::Connect { source, target, node_name } => {
            assert_eq!(source, b"system:capture_1".to_vec());
            assert_eq!(target, b"node7:in_1".to_vec());
            assert_eq!(node_name, b"node7".to_vec());
        }
        _ => panic!("expected a connect"),
    }
}

#[test]
fn connect_plan_missing_source_or_target() {
    let programs = vec![program("p", "", vec![intent("", "ghost:out", "also:missing")])];
    let ports = vec![port("unrelated:port")];
    match plan_connect(&programs, 0, 0, &ports) {
        ConnectPlan::PortMissing { source, target } => {
            assert_eq!(source, b"ghost:out".to_vec());
            assert_eq!(target, b"also:missing".to_vec());
        }
        _ => panic!("expected a missing-port report"),
    }
    assert!(matches!(plan_connect(&programs, 1, 0, &ports), ConnectPlan::NoSuchIntent));
    assert!(matches!(plan_connect(&programs, 0, 1, &ports), ConnectPlan::NoSuchIntent));
}

#[test]
fn connect_plan_records_affinity_after_success() {
    let mut programs = vec![program("p", "", vec![intent("", "src:out", "*:in")])];
    let ports = vec![port("src:out"), port("node9:in")];
    let node = match plan_connect(&programs, 0, 0, &ports) {
        ConnectPlan::Connect { node_name, .. } => node_name,
        _ => panic!("expected a connect"),
    };
    programs[0].set_node_affinity(node);
    assert_eq!(programs[0].jack_node_name, b"node9".to_vec());
}

#[test]
fn reconcile_disconnects_exactly_the_unwanted_known_edges() {
    // One intent enabled under "live" wants (system:capture_1, fx:in); a
    // second, tag-restricted elsewhere, wants nothing here. Live edges:
    // the wanted one (kept), a foreign one between known ports (torn
    // down), and one with an unknown endpoint (left alone).
    let programs = vec![program(
        "p",
        "",
        vec![intent("live", "system:capture_1", "fx:in"), intent("studio", "system:capture_2", "fx:in")],
    )];
    let ports = vec![
        port("system:capture_1"),
        port("system:capture_2"),
        port("fx:in"),
        port("monitor:in"),
    ];
    let connections = vec![
        edge("system:capture_1", "fx:in"),
        edge("system:capture_2", "fx:in"),
        edge("system:capture_2", "monitor:in"),
        edge("system:capture_2", "vanished:port"),
    ];
    let plan = plan_disconnects(&programs, &ports, &connections, b"live");
    assert_eq!(
        plan,
        vec![edge("system:capture_2", "fx:in"), edge("system:capture_2", "monitor:in")]
    );
}

#[test]
fn empty_use_case_keeps_only_always_on_edges() {
    let programs = vec![program(
        "p",
        "",
        vec![intent("", "a:out", "b:in"), intent("live", "c:out", "d:in")],
    )];
    let ports = vec![port("a:out"), port("b:in"), port("c:out"), port("d:in")];
    let connections = vec![edge("a:out", "b:in"), edge("c:out", "d:in")];
    let plan = plan_disconnects(&programs, &ports, &connections, b"");
    assert_eq!(plan, vec![edge("c:out", "d:in")]);
}

#[test]
fn wanted_set_uses_each_programs_affinity() {
    // The program is pinned to node3, so its wildcard intent is wanted at
    // node3:in even though node1:in matches the pattern first.
    let programs = vec![program("p", "node3", vec![intent("", "src:out", "node1:in")])];
    let ports = vec![port("src:out"), port("node1:in"), port("node3:in")];
    let wanted = wanted_connections(&programs, &ports, b"");
    assert_eq!(wanted, vec![edge("src:out", "node3:in")]);
    let connections = vec![edge("src:out", "node1:in"), edge("src:out", "node3:in")];
    let plan = plan_disconnects(&programs, &ports, &connections, b"");
    assert_eq!(plan, vec![edge("src:out", "node1:in")]);
}
