//! What the machine reports about itself and its processes, and the random
//! source for node ids.
//!
//! The readings come from `sysinfo`. Nothing is known of a reading before it
//! is taken, so the functions that take one promise nothing about its value;
//! the rest of the library is verified for every value that may come back.

use crate::text::{has_prefix, starts_with};
use rand::Rng;
use sysinfo::{ComponentExt, ProcessExt, ProcessorExt, SystemExt};
use vstd::prelude::*;

verus! {

/// `System` of sysinfo: the handle on the machine. What it holds is not
/// visible here; it is only handed on to the functions below.
#[verifier::external_type_specification]
#[verifier::external_body]
pub struct ExSystem(sysinfo::System);

/// Processor share and memory of one process. The share is a single-precision
/// number, kept as its bit pattern.
#[derive(Clone, Copy, Debug, PartialEq, Eq, Structural)]
pub struct ProcUsage {
    pub cpu: u32,
    pub ram: u64,
}

/// One line of the machine's process table.
pub struct ProcessEntry {
    pub pid: i32,
    pub name: String,
    pub usage: ProcUsage,
}

/// One temperature sensor: its label and its reading, a single-precision
/// number kept as its bit pattern.
pub struct SensorReading {
    pub label: String,
    pub temperature: u32,
}

/// The state of the node's hardware at one moment.
pub struct NodeSnapshot {
    pub cores: usize,
    pub threads: usize,
    pub cpu_usage: u32,
    pub total_ram: u64,
    pub used_ram: u64,
    pub temperatures: Vec<u32>,
}

/// A node snapshot as a mathematical value.
pub struct SnapshotView {
    pub cores: usize,
    pub threads: usize,
    pub cpu_usage: u32,
    pub total_ram: u64,
    pub used_ram: u64,
    pub temperatures: Seq<u32>,
}

impl View for NodeSnapshot {
    type V = SnapshotView;

    open spec fn view(&self) -> SnapshotView {
        SnapshotView {
            cores: self.cores,
            threads: self.threads,
            cpu_usage: self.cpu_usage,
            total_ram: self.total_ram,
            used_ram: self.used_ram,
            temperatures: self.temperatures@,
        }
    }
}

/// Whether a sensor with this label measures a processor core: its label
/// begins with `Core `.
pub open spec fn is_core_label(label: Seq<char>) -> bool {
    has_prefix(vstd::utf8::encode_utf8(label), vstd::utf8::encode_utf8("Core "@))
}

/// The readings of the core sensors among `readings`, in their order.
pub open spec fn core_readings(readings: Seq<SensorReading>) -> Seq<u32>
    decreases readings.len(),
{
    if readings.len() == 0 {
        Seq::empty()
    } else if is_core_label(readings.last().label@) {
        core_readings(readings.drop_last()).push(readings.last().temperature)
    } else {
        core_readings(readings.drop_last())
    }
}

/// Picks the temperatures of the processor cores out of all sensor readings.
pub fn core_temperatures(readings: &Vec<SensorReading>) -> (temps: Vec<u32>)
    ensures
        temps@ == core_readings(readings@),
{
    let mut temps: Vec<u32> = Vec::new();
    let mut i: usize = 0;
    while i < readings.len()
        invariant
            i <= readings@.len(),
            temps@ == core_readings(readings@.take(i as int)),
        decreases readings@.len() - i,
    {
        let reading = &readings[i];
        assert(readings@.take(i + 1).drop_last() =~= readings@.take(i as int));
        if starts_with(reading.label.as_str().as_bytes(), "Core ".as_bytes()) {
            temps.push(reading.temperature);
        }
        i += 1;
    }
    assert(readings@.take(i as int) =~= readings@);
    temps
}

/// `SystemExt::new_all` of sysinfo: a handle on the machine with every kind of
/// reading loaded once. Nothing is claimed of what it holds.
#[verifier::external_body]
pub(crate) fn new_system() -> sysinfo::System {
    sysinfo::System::new_all()
}

/// `SystemExt::refresh_all` of sysinfo: reads the machine's state anew.
/// Nothing is claimed of the handle afterwards.
#[verifier::external_body]
pub(crate) fn refresh(sys: &mut sysinfo::System) {
    sys.refresh_all();
}

/// `SystemExt::used_memory` of sysinfo, as of the last refresh.
#[verifier::external_body]
pub(crate) fn used_memory(sys: &sysinfo::System) -> u64 {
    sys.used_memory()
}

/// `SystemExt::total_memory` of sysinfo, as of the last refresh.
#[verifier::external_body]
pub(crate) fn total_memory(sys: &sysinfo::System) -> u64 {
    sys.total_memory()
}

/// `SystemExt::physical_core_count` of sysinfo: the number of physical cores,
/// where the machine tells it.
#[verifier::external_body]
pub(crate) fn physical_core_count(sys: &sysinfo::System) -> Option<usize> {
    sys.physical_core_count()
}

/// The length of `SystemExt::processors` of sysinfo: the number of logical
/// processors.
#[verifier::external_body]
pub(crate) fn processor_count(sys: &sysinfo::System) -> usize {
    sys.processors().len()
}

/// `ProcessorExt::cpu_usage` of sysinfo on `SystemExt::global_processor_info`:
/// the load of all processors together, as the bit pattern of the number that
/// sysinfo returns.
#[verifier::external_body]
pub(crate) fn global_cpu_usage(sys: &sysinfo::System) -> u32 {
    sys.global_processor_info().cpu_usage().to_bits()
}

/// `SystemExt::components` of sysinfo: every sensor with its label and its
/// temperature, the latter as the bit pattern of the number that sysinfo
/// returns.
#[verifier::external_body]
pub(crate) fn sensor_readings(sys: &sysinfo::System) -> Vec<SensorReading> {
    sys.components().iter().map(
        |c| SensorReading { label: c.label().to_string(), temperature: c.temperature().to_bits() },
    ).collect()
}

/// `SystemExt::process` of sysinfo: processor share and memory of the process
/// `pid` as of the last refresh, `None` where the table has no such process.
#[verifier::external_body]
pub(crate) fn process_usage(sys: &sysinfo::System, pid: i32) -> Option<ProcUsage> {
    sys.process(pid).map(|p| ProcUsage { cpu: p.cpu_usage().to_bits(), ram: p.memory() })
}

/// `SystemExt::processes` of sysinfo: the process table as of the last
/// refresh, in no particular order.
#[verifier::external_body]
pub(crate) fn process_entries(sys: &sysinfo::System) -> Vec<ProcessEntry> {
    sys.processes().iter().map(
        |(pid, p)|
            ProcessEntry {
                pid: *pid,
                name: p.name().to_string(),
                usage: ProcUsage { cpu: p.cpu_usage().to_bits(), ram: p.memory() },
            },
    ).collect()
}

/// `Rng::gen` of rand on the thread's generator: one random byte.
#[verifier::external_body]
pub(crate) fn random_id() -> u8 {
    rand::thread_rng().gen()
}

/// Reads the state of the node's hardware from `sys`, as of its last refresh.
/// A machine that does not tell its number of physical cores counts as
/// having none.
pub(crate) fn node_snapshot(sys: &sysinfo::System) -> (snap: NodeSnapshot)
    ensures
        snap@.is_reading(),
{
    let cores = physical_core_count(sys);
    let threads = processor_count(sys);
    let cpu_usage = global_cpu_usage(sys);
    let total_ram = total_memory(sys);
    let used_ram = used_memory(sys);
    let readings = sensor_readings(sys);
    let snap = NodeSnapshot::from_readings(
        cores,
        threads,
        cpu_usage,
        total_ram,
        used_ram,
        &readings,
    );
    assert(snap@ == SnapshotView::from_readings(
        cores,
        threads,
        cpu_usage,
        total_ram,
        used_ram,
        readings@,
    ));
    snap
}

impl SnapshotView {
    /// The snapshot that the readings of a machine make up. A machine that
    /// does not tell its number of physical cores counts as having none, and
    /// of all the sensors only those of the cores give a temperature, in the
    /// order of the sensors.
    pub open spec fn from_readings(
        cores: Option<usize>,
        threads: usize,
        cpu_usage: u32,
        total_ram: u64,
        used_ram: u64,
        readings: Seq<SensorReading>,
    ) -> SnapshotView {
        SnapshotView {
            cores: match cores {
                Some(n) => n,
                None => 0,
            },
            threads,
            cpu_usage,
            total_ram,
            used_ram,
            temperatures: core_readings(readings),
        }
    }

    /// Whether the snapshot is what some readings of a machine make up.
    pub open spec fn is_reading(self) -> bool {
        exists|
            cores: Option<usize>,
            threads: usize,
            cpu_usage: u32,
            total_ram: u64,
            used_ram: u64,
            readings: Seq<SensorReading>,
        |
            self == #[trigger] Self::from_readings(
                cores,
                threads,
                cpu_usage,
                total_ram,
                used_ram,
                readings,
            )
    }
}

impl NodeSnapshot {
    /// Makes up the snapshot from the readings of a machine.
    pub fn from_readings(
        cores: Option<usize>,
        threads: usize,
        cpu_usage: u32,
        total_ram: u64,
        used_ram: u64,
        readings: &Vec<SensorReading>,
    ) -> (snap: NodeSnapshot)
        ensures
            snap@ == SnapshotView::from_readings(
                cores,
                threads,
                cpu_usage,
                total_ram,
                used_ram,
                readings@,
            ),
    {
        NodeSnapshot {
            cores: match cores {
                Some(n) => n,
                None => 0,
            },
            threads,
            cpu_usage,
            total_ram,
            used_ram,
            temperatures: core_temperatures(readings),
        }
    }
}

} // verus!
