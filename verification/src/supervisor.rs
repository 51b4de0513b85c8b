//! Process-supervision decisions for one managed program, against a
//! snapshot of the operating system's process table: whether a start may
//! spawn or must report "already running", recording a spawned process id
//! in the liveness marker, cleanup of markers whose process is gone, and
//! whether the started command wants its startup trigger byte.
//!
//! The surrounding binary reads the marker file, snapshots the process
//! table, performs the spawn and the file writes, and applies what these
//! functions decide.

use vstd::prelude::*;

use crate::model::{ManagedAudioProgram, ManagedAudioProgramV, ProcessEntry, ProcessEntryV};
use crate::names::{contains_sub, eq_bytes, find_sub};
use crate::pid::{dec_rep, format_u32, lemma_pid_round_trip, parse_u32, parse_u32_spec};

verus! {

/// The bytes of `baresip`, the one interactive command that takes a
/// trigger byte on its input stream after starting.
pub open spec fn trigger_command() -> Seq<u8> {
    seq![98u8, 97u8, 114u8, 101u8, 115u8, 105u8, 112u8]
}

/// Build the command name `baresip`.
pub fn trigger_command_bytes() -> (r: Vec<u8>)
    ensures
        r@ == trigger_command(),
{
    let v: Vec<u8> = vec![98u8, 97u8, 114u8, 101u8, 115u8, 105u8, 112u8];
    proof {
        assert(v@ =~= trigger_command());
    }
    v
}

/// The views of a process-table snapshot.
pub open spec fn table_view(table: Seq<ProcessEntry>) -> Seq<ProcessEntryV> {
    Seq::new(table.len(), |i: int| table[i]@)
}

/// True when some entry of the table carries process id `pid`.
pub open spec fn table_has_pid(table: Seq<ProcessEntryV>, pid: u32) -> bool {
    exists|i: int| 0 <= i < table.len() && table[i].pid == pid
}

/// The reported name of the first table entry with id `pid`.
pub open spec fn lookup_name(table: Seq<ProcessEntryV>, pid: u32) -> Option<Seq<u8>>
    decreases table.len(),
{
    if table.len() == 0 {
        None
    } else if table[0].pid == pid {
        Some(table[0].name)
    } else {
        lookup_name(table.drop_first(), pid)
    }
}

/// When the first `i` entries carry other ids and entry `i` (if any)
/// carries `pid`, [`lookup_name`] answers from entry `i`.
proof fn lemma_lookup_name_at(table: Seq<ProcessEntryV>, pid: u32, i: int)
    requires
        0 <= i <= table.len(),
        forall|j: int| 0 <= j < i ==> table[j].pid != pid,
        i == table.len() || table[i].pid == pid,
    ensures
        lookup_name(table, pid) == if i < table.len() {
            Some(table[i].name)
        } else {
            None::<Seq<u8>>
        },
    decreases i,
{
    if table.len() > 0 && i > 0 {
        lemma_lookup_name_at(table.drop_first(), pid, i - 1);
        assert(forall|j: int|
            0 <= j < table.len() - 1 ==> table.drop_first()[j] == table[j + 1]);
    }
}

/// True when process `pid` exists and its reported name holds `cmd` as a
/// substring: the "already running" condition of a start.
pub open spec fn pid_runs_command(table: Seq<ProcessEntryV>, pid: u32, cmd: Seq<u8>) -> bool {
    match lookup_name(table, pid) {
        Some(n) => contains_sub(n, cmd),
        None => false,
    }
}

/// Decide [`pid_runs_command`] against a process-table snapshot.
#[verifier::loop_isolation(false)]
pub fn process_runs_command(table: &Vec<ProcessEntry>, pid: u32, cmd: &[u8]) -> (r: bool)
    ensures
        r == pid_runs_command(table_view(table@), pid, cmd@),
{
    let ghost tv = table_view(table@);
    let mut i: usize = 0;
    while i < table.len()
        invariant
            i <= table@.len(),
            forall|j: int| 0 <= j < i ==> tv[j].pid != pid,
        decreases table@.len() - i,
    {
        if table[i].pid == pid {
            proof {
                lemma_lookup_name_at(tv, pid, i as int);
            }
            return find_sub(table[i].name.as_slice(), cmd);
        }
        i += 1;
    }
    proof {
        lemma_lookup_name_at(tv, pid, tv.len() as int);
    }
    false
}

/// Whether a process with id `pid` appears in the table at all.
#[verifier::loop_isolation(false)]
pub fn table_contains_pid(table: &Vec<ProcessEntry>, pid: u32) -> (r: bool)
    ensures
        r == table_has_pid(table_view(table@), pid),
{
    let ghost tv = table_view(table@);
    let mut i: usize = 0;
    while i < table.len()
        invariant
            i <= table@.len(),
            forall|j: int| 0 <= j < i ==> tv[j].pid != pid,
        decreases table@.len() - i,
    {
        if table[i].pid == pid {
            proof {
                assert(tv[i as int].pid == pid);
            }
            return true;
        }
        i += 1;
    }
    false
}

/// The pid that blocks a new start: the liveness marker must exist, parse,
/// and name a live process whose reported name holds the configured
/// command name.
pub open spec fn live_marker_pid(prog: ManagedAudioProgramV, table: Seq<ProcessEntryV>) -> Option<
    u32,
> {
    match prog.pid_marker {
        Some(m) => match parse_u32_spec(m) {
            Some(p) => if pid_runs_command(table, p, prog.config.command_name) {
                Some(p)
            } else {
                None
            },
            None => None,
        },
        None => None,
    }
}

/// True when a liveness marker exists but does not parse as a pid.
pub open spec fn marker_unparsable(prog: ManagedAudioProgramV) -> bool {
    match prog.pid_marker {
        Some(m) => parse_u32_spec(m) is None,
        None => false,
    }
}

/// What a start decides before any process is spawned.
pub enum StartCheck {
    /// The marker names a live process of the configured command: start
    /// fails softly and nothing is spawned.
    AlreadyRunning { pid: u32 },
    /// Spawning may proceed; `marker_issue` reports a marker that exists
    /// but did not parse (stale content), which is reported but does not
    /// stop the start.
    Proceed { marker_issue: bool },
}

/// What cleanup of the liveness marker decides.
pub enum MarkerCleanup {
    /// The marker named a process id absent from the table: the marker was
    /// dropped, and its file is to be deleted.
    Removed,
    /// The marker's process still exists: the marker stays.
    StillRunning,
    /// No marker exists; reported, nothing to do.
    NoMarker,
    /// The marker did not parse; reported, the marker stays.
    Unparsable,
}

impl ManagedAudioProgram {
    /// Decide whether a start may spawn, against a process-table
    /// snapshot: "already running" exactly when the liveness marker names
    /// a live process of the configured command.
    pub fn start_check(&self, table: &Vec<ProcessEntry>) -> (r: StartCheck)
        ensures
            match r {
                StartCheck::AlreadyRunning { pid } => live_marker_pid(self@, table_view(table@))
                    == Some(pid),
                StartCheck::Proceed { marker_issue } => live_marker_pid(self@, table_view(table@))
                    is None && marker_issue == marker_unparsable(self@),
            },
    {
        match &self.pid_marker {
            None => StartCheck::Proceed { marker_issue: false },
            Some(m) => match parse_u32(m.as_slice()) {
                None => StartCheck::Proceed { marker_issue: true },
                Some(p) => {
                    if process_runs_command(table, p, self.config.command_name.as_slice()) {
                        StartCheck::AlreadyRunning { pid: p }
                    } else {
                        StartCheck::Proceed { marker_issue: false }
                    }
                },
            },
        }
    }

    /// Record a freshly spawned process id in the liveness marker,
    /// overwriting any stale one; configuration and affinity stay as they
    /// were.
    pub fn record_spawn(&mut self, pid: u32)
        ensures
            final(self)@.pid_marker == Some(dec_rep(pid as nat)),
            final(self)@.config == old(self)@.config,
            final(self)@.jack_node_name == old(self)@.jack_node_name,
    {
        self.pid_marker = Some(format_u32(pid));
    }

    /// Drop the liveness marker when its process id is absent from the
    /// table; report a missing or unparsable marker without touching
    /// anything.
    pub fn remove_dead_pids(&mut self, table: &Vec<ProcessEntry>) -> (r: MarkerCleanup)
        ensures
            final(self)@.config == old(self)@.config,
            final(self)@.jack_node_name == old(self)@.jack_node_name,
            match r {
                MarkerCleanup::Removed => old(self)@.pid_marker matches Some(m)
                    && parse_u32_spec(m) matches Some(p) && !table_has_pid(table_view(table@), p)
                    && final(self)@.pid_marker is None,
                MarkerCleanup::StillRunning => old(self)@.pid_marker matches Some(m)
                    && parse_u32_spec(m) matches Some(p) && table_has_pid(table_view(table@), p)
                    && final(self)@ == old(self)@,
                MarkerCleanup::NoMarker => old(self)@.pid_marker is None && final(self)@ == old(self)@,
                MarkerCleanup::Unparsable => marker_unparsable(old(self)@) && final(self)@ == old(self)@,
            },
    {
        match &self.pid_marker {
            None => MarkerCleanup::NoMarker,
            Some(m) => match parse_u32(m.as_slice()) {
                None => MarkerCleanup::Unparsable,
                Some(p) => {
                    if table_contains_pid(table, p) {
                        MarkerCleanup::StillRunning
                    } else {
                        self.pid_marker = None;
                        MarkerCleanup::Removed
                    }
                },
            },
        }
    }

    /// Whether the configured command is the interactive one that takes a
    /// trigger byte on its input stream after starting.
    pub fn wants_startup_trigger(&self) -> (r: bool)
        ensures
            r == (self@.config.command_name == trigger_command()),
    {
        let t = trigger_command_bytes();
        eq_bytes(self.config.command_name.as_slice(), t.as_slice())
    }
}

/// Idempotent start: once a spawned pid is recorded in the marker and a
/// process with that id runs under the configured command name, a second
/// start check reports "already running" with that pid — so no second
/// process is spawned and no second marker written.
pub proof fn lemma_start_idempotent(
    prog: ManagedAudioProgramV,
    table: Seq<ProcessEntryV>,
    pid: u32,
)
    requires
        prog.pid_marker == Some(dec_rep(pid as nat)),
        pid_runs_command(table, pid, prog.config.command_name),
    ensures
        live_marker_pid(prog, table) == Some(pid),
{
    lemma_pid_round_trip(pid);
}

/// Dead-marker cleanup unblocks the next start: with the marker gone, the
/// start check never reports "already running".
pub proof fn lemma_cleanup_unblocks_start(prog: ManagedAudioProgramV, table: Seq<ProcessEntryV>)
    requires
        prog.pid_marker is None,
    ensures
        live_marker_pid(prog, table) is None,
        !marker_unparsable(prog),
{
}

} // verus!
