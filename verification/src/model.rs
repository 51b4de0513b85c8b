//! The data model: connection intents, program configurations, ports as
//! the routing daemon reports them, process-table entries, and the managed
//! program with its persisted liveness marker and node affinity.
//!
//! Each executable type has a spec-level view over `Seq<u8>` byte strings.

use vstd::prelude::*;

verus! {

/// A declared connection intent of one program: connect `source_name` to
/// the port that `target_name` resolves to. `filter` is a
/// whitespace-separated tag list (empty means always on); `target_search_name`
/// keeps the original search pattern once `target_name` has been rewritten
/// to a concrete port.
#[derive(Clone)]
pub struct JackPort {
    pub filter: Vec<u8>,
    pub source_name: Vec<u8>,
    pub target_search_name: Vec<u8>,
    pub target_name: Vec<u8>,
}

/// Spec view of [`JackPort`].
pub struct JackPortV {
    pub filter: Seq<u8>,
    pub source_name: Seq<u8>,
    pub target_search_name: Seq<u8>,
    pub target_name: Seq<u8>,
}

impl View for JackPort {
    type V = JackPortV;

    open spec fn view(&self) -> JackPortV {
        JackPortV {
            filter: self.filter@,
            source_name: self.source_name@,
            target_search_name: self.target_search_name@,
            target_name: self.target_name@,
        }
    }
}

/// A program's launch configuration and its declared connection intents.
#[derive(Clone)]
pub struct AudioProgramConfig {
    pub program_name: Vec<u8>,
    pub command_name: Vec<u8>,
    pub start_params: Vec<Vec<u8>>,
    pub jack_ports: Vec<JackPort>,
}

/// Spec view of [`AudioProgramConfig`].
pub struct AudioProgramConfigV {
    pub program_name: Seq<u8>,
    pub command_name: Seq<u8>,
    pub start_params: Seq<Seq<u8>>,
    pub jack_ports: Seq<JackPortV>,
}

impl View for AudioProgramConfig {
    type V = AudioProgramConfigV;

    open spec fn view(&self) -> AudioProgramConfigV {
        AudioProgramConfigV {
            program_name: self.program_name@,
            command_name: self.command_name@,
            start_params: self.start_params.deep_view(),
            jack_ports: Seq::new(self.jack_ports@.len(), |i: int| self.jack_ports@[i]@),
        }
    }
}

/// One port as the routing daemon lists it: a fully qualified
/// `node:port` name and its capability flags.
#[derive(Clone)]
pub struct JackPortInfo {
    pub name: Vec<u8>,
    pub properties: Vec<Vec<u8>>,
}

/// Spec view of [`JackPortInfo`].
pub struct JackPortInfoV {
    pub name: Seq<u8>,
    pub properties: Seq<Seq<u8>>,
}

impl View for JackPortInfo {
    type V = JackPortInfoV;

    open spec fn view(&self) -> JackPortInfoV {
        JackPortInfoV { name: self.name@, properties: self.properties.deep_view() }
    }
}

/// One entry of a snapshot of the operating system's process table: a
/// process id and the process's reported executable name.
#[derive(Clone)]
pub struct ProcessEntry {
    pub pid: u32,
    pub name: Vec<u8>,
}

/// Spec view of [`ProcessEntry`].
pub struct ProcessEntryV {
    pub pid: u32,
    pub name: Seq<u8>,
}

impl View for ProcessEntry {
    type V = ProcessEntryV;

    open spec fn view(&self) -> ProcessEntryV {
        ProcessEntryV { pid: self.pid, name: self.name@ }
    }
}

/// A managed audio program: its configuration, the content of its
/// persisted liveness marker (`None` when no marker file exists), and the
/// routing-graph node name it resolved to on a previous successful connect
/// (empty when unresolved).
#[derive(Clone)]
pub struct ManagedAudioProgram {
    pub config: AudioProgramConfig,
    pub pid_marker: Option<Vec<u8>>,
    pub jack_node_name: Vec<u8>,
}

/// Spec view of [`ManagedAudioProgram`].
pub struct ManagedAudioProgramV {
    pub config: AudioProgramConfigV,
    pub pid_marker: Option<Seq<u8>>,
    pub jack_node_name: Seq<u8>,
}

impl View for ManagedAudioProgram {
    type V = ManagedAudioProgramV;

    open spec fn view(&self) -> ManagedAudioProgramV {
        ManagedAudioProgramV {
            config: self.config@,
            pid_marker: match self.pid_marker {
                Some(m) => Some(m@),
                None => None,
            },
            jack_node_name: self.jack_node_name@,
        }
    }
}

/// The views of a list of managed programs.
pub open spec fn programs_view(programs: Seq<ManagedAudioProgram>) -> Seq<ManagedAudioProgramV> {
    Seq::new(programs.len(), |i: int| programs[i]@)
}

/// The views of a list of daemon-reported ports.
pub open spec fn ports_view(ports: Seq<JackPortInfo>) -> Seq<JackPortInfoV> {
    Seq::new(ports.len(), |i: int| ports[i]@)
}

/// The names of a list of daemon-reported ports, in listing order.
pub open spec fn port_names(ports: Seq<JackPortInfoV>) -> Seq<Seq<u8>> {
    Seq::new(ports.len(), |i: int| ports[i].name)
}

/// The node-affinity names of a list of managed programs, in order.
pub open spec fn claimed_names(programs: Seq<ManagedAudioProgramV>) -> Seq<Seq<u8>> {
    Seq::new(programs.len(), |i: int| programs[i].jack_node_name)
}

} // verus!
