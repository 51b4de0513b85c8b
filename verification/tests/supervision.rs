//! Tests of the process-supervision decisions.

use jack_streaming_manager::model::{AudioProgramConfig, ManagedAudioProgram, ProcessEntry};
use jack_streaming_manager::supervisor::{MarkerCleanup, StartCheck};

fn program(command: &str) -> ManagedAudioProgram {
    ManagedAudioProgram {
        config: AudioProgramConfig {
            program_name: b"stream".to_vec(),
            command_name: command.as_bytes().to_vec(),
            start_params: Vec::new(),
            jack_ports: Vec::new(),
        },
        pid_marker: None,
        jack_node_name: Vec::new(),
    }
}

fn entry(pid: u32, name: &str) -> ProcessEntry {
    ProcessEntry { pid, name: name.as_bytes().to_vec() }
}

#[test]
fn start_is_idempotent() {
    // First start: no marker, the check proceeds; the spawned pid is
    // recorded. Second start against a table where that pid runs the
    // command: already running, and the marker is untouched.
    let mut prog = program("baresip");
    let table = vec![entry(4242, "baresip")];
    assert!(matches!(prog.start_check(&table), StartCheck::Proceed { marker_issue: false }));
    prog.record_spawn(4242);
    assert_eq!(prog.pid_marker, Some(b"4242".to_vec()));
    match prog.start_check(&table) {
        StartCheck::AlreadyRunning { pid } => assert_eq!(pid, 4242),
        StartCheck::Proceed { .. } => panic!("second start must report already running"),
    }
    assert_eq!(prog.pid_marker, Some(b"4242".to_vec()));
}

#[test]
fn start_proceeds_when_process_gone() {
    let mut prog = program("baresip");
    prog.record_spawn(4242);
    let table = vec![entry(7, "unrelated")];
    assert!(matches!(prog.start_check(&table), StartCheck::Proceed { marker_issue: false }));
}

#[test]
fn start_proceeds_when_pid_runs_other_command() {
    let mut prog = program("baresip");
    prog.record_spawn(4242);
    let table = vec![entry(4242, "editor")];
    assert!(matches!(prog.start_check(&table), StartCheck::Proceed { marker_issue: false }));
}

#[test]
fn already_running_matches_name_substring() {
    let mut prog = program("baresip");
    prog.record_spawn(10);
    let table = vec![entry(10, "some-baresip-wrapper")];
    assert!(matches!(prog.start_check(&table), StartCheck::AlreadyRunning { pid: 10 }));
}

#[test]
fn stale_unparsable_marker_is_reported_but_does_not_block() {
    let mut prog = program("baresip");
    prog.pid_marker = Some(b"not a pid".to_vec());
    let table = vec![entry(1, "baresip")];
    assert!(matches!(prog.start_check(&table), StartCheck::Proceed { marker_issue: true }));
}

#[test]
fn dead_marker_is_removed_and_start_unblocked() {
    let mut prog = program("baresip");
    prog.pid_marker = Some(b"999".to_vec());
    let table: Vec<ProcessEntry> = Vec::new();
    assert!(matches!(prog.remove_dead_pids(&table), MarkerCleanup::Removed));
    assert_eq!(prog.pid_marker, None);
    assert!(matches!(prog.start_check(&table), StartCheck::Proceed { marker_issue: false }));
}

#[test]
fn live_marker_survives_cleanup() {
    let mut prog = program("baresip");
    prog.pid_marker = Some(b"31".to_vec());
    let table = vec![entry(31, "whatever")];
    assert!(matches!(prog.remove_dead_pids(&table), MarkerCleanup::StillRunning));
    assert_eq!(prog.pid_marker, Some(b"31".to_vec()));
}

#[test]
fn cleanup_reports_missing_and_unparsable_markers() {
    let mut prog = program("baresip");
    let table: Vec<ProcessEntry> = Vec::new();
    assert!(matches!(prog.remove_dead_pids(&table), MarkerCleanup::NoMarker));
    prog.pid_marker = Some(b"???".to_vec());
    assert!(matches!(prog.remove_dead_pids(&table), MarkerCleanup::Unparsable));
    assert_eq!(prog.pid_marker, Some(b"???".to_vec()));
}

#[test]
fn startup_trigger_only_for_the_interactive_command() {
    assert!(program("baresip").wants_startup_trigger());
    assert!(!program("mpv").wants_startup_trigger());
    assert!(!program("baresip2").wants_startup_trigger());
}
