//! The node's record and the records of its worker processes.
//!
//! Single-precision quantities (loads, temperatures, progress, timings) are
//! kept as their bit patterns. Zero stands for the number zero.

use crate::communication::http_requests::{text_at, texts, RequestSerializable};
use crate::communication::tcp::END_OF_STREAM;
use crate::monitor::probe::{
    new_system, node_snapshot, process_entries, process_usage, random_id, refresh, NodeSnapshot,
    ProcUsage, ProcessEntry, SnapshotView,
};
use crate::text::{decimal, push_decimal, push_signed_decimal, signed_decimal};
use std::collections::HashMap;
use vstd::prelude::*;
use vstd::string::StringExecFns;

verus! {

/// What is known about the node: the hardware it has and how busy it is.
pub struct NodeData {
    node_id: u8,
    cores: usize,
    threads: usize,
    cpu_usage: u32,
    total_ram: u64,
    used_ram: u64,
    temperature: Vec<u32>,
}

/// A node record as a mathematical value.
pub struct NodeView {
    pub node_id: u8,
    pub cores: usize,
    pub threads: usize,
    pub cpu_usage: u32,
    pub total_ram: u64,
    pub used_ram: u64,
    pub temperature: Seq<u32>,
}

impl NodeView {
    /// The record of a node with this id whose hardware is in this state.
    pub open spec fn from_snapshot(node_id: u8, snap: SnapshotView) -> NodeView {
        NodeView {
            node_id,
            cores: snap.cores,
            threads: snap.threads,
            cpu_usage: snap.cpu_usage,
            total_ram: snap.total_ram,
            used_ram: snap.used_ram,
            temperature: snap.temperatures,
        }
    }

    /// The record after a new look at the hardware: load, memory in use and
    /// temperatures are those of `snap`, the temperatures as a whole; what
    /// does not change while the node runs stays.
    pub open spec fn refreshed(self, snap: SnapshotView) -> NodeView {
        NodeView {
            cpu_usage: snap.cpu_usage,
            used_ram: snap.used_ram,
            temperature: snap.temperatures,
            ..self
        }
    }

    /// The record under another id.
    pub open spec fn with_id(self, id: u8) -> NodeView {
        NodeView { node_id: id, ..self }
    }

    /// The temperature part of the payload: the texts from the second on, one
    /// for each temperature, with a comma and a blank between two of them.
    pub open spec fn temperature_list(count: nat, floats: Seq<Seq<char>>) -> Seq<char>
        decreases count,
    {
        if count == 0 {
            Seq::empty()
        } else if count == 1 {
            text_at(floats, 1)
        } else {
            Self::temperature_list((count - 1) as nat, floats) + ", "@ + text_at(
                floats,
                count as int,
            )
        }
    }

    /// The node's status payload, given the texts of `float_fields`.
    pub open spec fn payload(self, floats: Seq<Seq<char>>) -> Seq<char> {
        "{\"nodeId\":"@ + decimal(self.node_id as nat) + ",\"cores\":"@ + decimal(
            self.cores as nat,
        ) + ",\"threads\":"@ + decimal(self.threads as nat) + ",\"cpu\":"@ + text_at(floats, 0)
            + ",\"totalRam\":"@ + decimal(self.total_ram as nat) + ",\"usedRam\":"@ + decimal(
            self.used_ram as nat,
        ) + ",\"temperature\":["@ + Self::temperature_list(self.temperature.len(), floats)
            + "]}"@
    }

    /// The load, then the temperatures.
    pub open spec fn float_fields(self) -> Seq<u32> {
        seq![self.cpu_usage] + self.temperature
    }
}

impl View for NodeData {
    type V = NodeView;

    closed spec fn view(&self) -> NodeView {
        NodeView {
            node_id: self.node_id,
            cores: self.cores,
            threads: self.threads,
            cpu_usage: self.cpu_usage,
            total_ram: self.total_ram,
            used_ram: self.used_ram,
            temperature: self.temperature@,
        }
    }
}

impl NodeData {
    /// The record of this machine as it is now, under a random id.
    pub fn new() -> (node: NodeData)
        ensures
            exists|id: u8, snap: SnapshotView|
                snap.is_reading() && node@ == #[trigger] NodeView::from_snapshot(id, snap),
    {
        let sys = new_system();
        let snap = node_snapshot(&sys);
        let id = random_id();
        let ghost seen = snap@;
        let node = NodeData::from_snapshot(id, snap);
        assert(seen.is_reading() && node@ == NodeView::from_snapshot(id, seen));
        node
    }

    /// The record of a node with this id whose hardware is in this state.
    pub fn from_snapshot(node_id: u8, snap: NodeSnapshot) -> (node: NodeData)
        ensures
            node@ == NodeView::from_snapshot(node_id, snap@),
    {
        NodeData {
            node_id,
            cores: snap.cores,
            threads: snap.threads,
            cpu_usage: snap.cpu_usage,
            total_ram: snap.total_ram,
            used_ram: snap.used_ram,
            temperature: snap.temperatures,
        }
    }

    /// Looks at the hardware again and takes over load, memory in use and
    /// temperatures. Whatever the machine reports, the id, the core and
    /// thread counts and the total memory stay.
    pub fn update(&mut self, sys: &mut sysinfo::System)
        ensures
            exists|snap: SnapshotView| final(self)@ == old(self)@.refreshed(snap),
    {
        refresh(sys);
        let snap = node_snapshot(sys);
        let ghost seen = snap@;
        self.refresh(snap);
        assert(self@ == old(self)@.refreshed(seen));
    }

    /// Takes over load, memory in use and temperatures from `snap`.
    pub fn refresh(&mut self, snap: NodeSnapshot)
        ensures
            final(self)@ == old(self)@.refreshed(snap@),
        no_unwind
    {
        self.cpu_usage = snap.cpu_usage;
        self.used_ram = snap.used_ram;
        self.temperature = snap.temperatures;
    }

    /// The node's id.
    pub fn get_id(&self) -> (id: u8)
        ensures
            id == self@.node_id,
    {
        self.node_id
    }

    /// Puts the node under another id.
    pub fn set_id(&mut self, id: u8)
        ensures
            final(self)@ == old(self)@.with_id(id),
        no_unwind
    {
        self.node_id = id;
    }

    /// The number of physical cores.
    pub fn cores(&self) -> (n: usize)
        ensures
            n == self@.cores,
    {
        self.cores
    }

    /// The number of logical processors.
    pub fn threads(&self) -> (n: usize)
        ensures
            n == self@.threads,
    {
        self.threads
    }

    /// The load of all processors together, in percent.
    pub fn cpu_usage(&self) -> (bits: u32)
        ensures
            bits == self@.cpu_usage,
    {
        self.cpu_usage
    }

    /// The memory that the node has.
    pub fn total_ram(&self) -> (n: u64)
        ensures
            n == self@.total_ram,
    {
        self.total_ram
    }

    /// The memory in use.
    pub fn used_ram(&self) -> (n: u64)
        ensures
            n == self@.used_ram,
    {
        self.used_ram
    }

    /// The temperature of each core, in degrees Celsius.
    pub fn temperature(&self) -> (bits: &Vec<u32>)
        ensures
            bits@ == self@.temperature,
    {
        &self.temperature
    }

    /// A second record with the same content.
    pub fn duplicate(&self) -> (copy: NodeData)
        ensures
            copy@ == self@,
    {
        let temperature = self.temperature.clone();
        assert(temperature@ =~= self.temperature@);
        NodeData {
            node_id: self.node_id,
            cores: self.cores,
            threads: self.threads,
            cpu_usage: self.cpu_usage,
            total_ram: self.total_ram,
            used_ram: self.used_ram,
            temperature,
        }
    }
}

impl RequestSerializable for NodeData {
    open spec fn float_fields(&self) -> Seq<u32> {
        self@.float_fields()
    }

    open spec fn payload(&self, floats: Seq<Seq<char>>) -> Seq<char> {
        self@.payload(floats)
    }

    fn floats(&self) -> (bits: Vec<u32>) {
        let mut bits: Vec<u32> = Vec::new();
        bits.push(self.cpu_usage);
        let mut i: usize = 0;
        while i < self.temperature.len()
            invariant
                i <= self.temperature@.len(),
                bits@ == seq![self.cpu_usage] + self.temperature@.take(i as int),
            decreases self.temperature@.len() - i,
        {
            bits.push(self.temperature[i]);
            assert(self.temperature@.take(i + 1) =~= self.temperature@.take(i as int).push(
                self.temperature@[i as int],
            ));
            i += 1;
        }
        assert(self.temperature@.take(i as int) =~= self.temperature@);
        bits
    }

    fn serialize(&self, floats: &Vec<String>) -> (s: String) {
        let ghost given = texts(floats@);
        let mut s = String::from_str("{\"nodeId\":");
        push_decimal(&mut s, self.node_id as u64);
        s.append(",\"cores\":");
        push_decimal(&mut s, self.cores as u64);
        s.append(",\"threads\":");
        push_decimal(&mut s, self.threads as u64);
        s.append(",\"cpu\":");
        if 0 < floats.len() {
            s.append(floats[0].as_str());
        }
        s.append(",\"totalRam\":");
        push_decimal(&mut s, self.total_ram);
        s.append(",\"usedRam\":");
        push_decimal(&mut s, self.used_ram);
        s.append(",\"temperature\":[");
        let ghost head = s@;
        assert(head =~= "{\"nodeId\":"@ + decimal(self.node_id as nat) + ",\"cores\":"@ + decimal(
            self.cores as nat,
        ) + ",\"threads\":"@ + decimal(self.threads as nat) + ",\"cpu\":"@ + text_at(given, 0)
            + ",\"totalRam\":"@ + decimal(self.total_ram as nat) + ",\"usedRam\":"@ + decimal(
            self.used_ram as nat,
        ) + ",\"temperature\":["@);
        let siz = self.temperature.len();
        let mut i: usize = 0;
        while i < siz
            invariant
                i <= siz,
                siz == self.temperature@.len(),
                given == texts(floats@),
                s@ == head + NodeView::temperature_list(i as nat, given),
            decreases siz - i,
        {
            if i > 0 {
                s.append(", ");
            }
            if i + 1 < floats.len() {
                s.append(floats[i + 1].as_str());
            }
            assert(s@ =~= head + NodeView::temperature_list((i + 1) as nat, given));
            i += 1;
        }
        s.append("]}");
        assert(s@ =~= self@.payload(given));
        s
    }
}

/// What is known about one worker process.
#[derive(Clone, Copy, Debug)]
pub struct ProcData {
    node_id: u8,
    pid: i32,
    cpu: u32,
    ram: u64,
    send_t: u32,
    recv_t: u32,
    delay_t: u32,
    scatter_t: u32,
    progress: u32,
}

/// A process record as a mathematical value.
pub struct ProcView {
    pub node_id: u8,
    pub pid: i32,
    pub cpu: u32,
    pub ram: u64,
    pub send_t: u32,
    pub recv_t: u32,
    pub delay_t: u32,
    pub scatter_t: u32,
    pub progress: u32,
}

impl ProcView {
    /// The record of a process met for the first time: no progress, no
    /// timings. If the machine knows the process, the record has its usage and
    /// belongs to `node_id`; if not, all but the pid is zero.
    pub open spec fn created(pid: i32, node_id: u8, usage: Option<ProcUsage>) -> ProcView {
        match usage {
            Some(u) => ProcView {
                node_id,
                pid,
                cpu: u.cpu,
                ram: u.ram,
                send_t: 0,
                recv_t: 0,
                delay_t: 0,
                scatter_t: 0,
                progress: 0,
            },
            None => ProcView {
                node_id: 0,
                pid,
                cpu: 0,
                ram: 0,
                send_t: 0,
                recv_t: 0,
                delay_t: 0,
                scatter_t: 0,
                progress: 0,
            },
        }
    }

    /// The record after a report of the process: progress and timings are
    /// those reported, the usage is what the machine says now, and zero if it
    /// does not know the process. Pid and node stay.
    pub open spec fn updated(
        self,
        progress: u32,
        send_t: u32,
        recv_t: u32,
        delay_t: u32,
        scatter_t: u32,
        usage: Option<ProcUsage>,
    ) -> ProcView {
        ProcView {
            cpu: match usage {
                Some(u) => u.cpu,
                None => 0,
            },
            ram: match usage {
                Some(u) => u.ram,
                None => 0,
            },
            send_t,
            recv_t,
            delay_t,
            scatter_t,
            progress,
            ..self
        }
    }

    /// No record holds the end-of-stream mark as its progress.
    pub open spec fn wf(self) -> bool {
        self.progress != END_OF_STREAM
    }

    /// The process's status payload, given the texts of `float_fields`.
    pub open spec fn payload(self, floats: Seq<Seq<char>>) -> Seq<char> {
        "{\"pid\":"@ + signed_decimal(self.pid as int) + ",\"nodeId\":"@ + decimal(
            self.node_id as nat,
        ) + ",\"cpu\":"@ + text_at(floats, 0) + ",\"ram\":"@ + decimal(self.ram as nat)
            + ",\"progress\":"@ + text_at(floats, 1) + ",\"sendTime\":"@ + text_at(floats, 2)
            + ",\"receiveTime\":"@ + text_at(floats, 3) + ",\"delayTime\":"@ + text_at(floats, 4)
            + ",\"scatterTime\":"@ + text_at(floats, 5) + "}"@
    }

    /// Load, progress, then the four timings.
    pub open spec fn float_fields(self) -> Seq<u32> {
        seq![self.cpu, self.progress, self.send_t, self.recv_t, self.delay_t, self.scatter_t]
    }
}

/// The records that a table holds, as mathematical values.
pub open spec fn records(table: Map<i32, ProcData>) -> Map<i32, ProcView> {
    Map::new(|pid: i32| table.contains_key(pid), |pid: i32| table[pid]@)
}

/// The fresh records of the processes called `name` among `entries`, by pid.
/// Of two entries with one pid the later counts.
pub open spec fn gathered(entries: Seq<ProcessEntry>, name: Seq<char>, node_id: u8) -> Map<
    i32,
    ProcView,
>
    decreases entries.len(),
{
    if entries.len() == 0 {
        Map::empty()
    } else {
        let rest = gathered(entries.drop_last(), name, node_id);
        let e = entries.last();
        if e.name@ == name {
            rest.insert(e.pid, ProcView::created(e.pid, node_id, Some(e.usage)))
        } else {
            rest
        }
    }
}

impl View for ProcData {
    type V = ProcView;

    closed spec fn view(&self) -> ProcView {
        ProcView {
            node_id: self.node_id,
            pid: self.pid,
            cpu: self.cpu,
            ram: self.ram,
            send_t: self.send_t,
            recv_t: self.recv_t,
            delay_t: self.delay_t,
            scatter_t: self.scatter_t,
            progress: self.progress,
        }
    }
}

impl ProcData {
    /// The fresh records of all processes called `proc_name` that the machine
    /// runs now, by pid.
    pub fn fetch_all(proc_name: &str, node_id: u8, sys: &mut sysinfo::System) -> (table: HashMap<
        i32,
        ProcData,
    >)
        ensures
            exists|entries: Seq<ProcessEntry>|
                records(table@) == gathered(entries, proc_name@, node_id),
    {
        refresh(sys);
        let entries = process_entries(sys);
        ProcData::gather(&entries, proc_name, node_id)
    }

    /// The fresh records of the processes called `proc_name` among `entries`,
    /// by pid.
    pub fn gather(entries: &Vec<ProcessEntry>, proc_name: &str, node_id: u8) -> (table: HashMap<
        i32,
        ProcData,
    >)
        ensures
            records(table@) == gathered(entries@, proc_name@, node_id),
    {
        let wanted = String::from_str(proc_name);
        let mut table: HashMap<i32, ProcData> = HashMap::new();
        assert(records(table@) =~= Map::<i32, ProcView>::empty());
        let mut i: usize = 0;
        while i < entries.len()
            invariant
                i <= entries@.len(),
                wanted@ == proc_name@,
                records(table@) == gathered(entries@.take(i as int), proc_name@, node_id),
            decreases entries@.len() - i,
        {
            let e = &entries[i];
            assert(entries@.take(i + 1).drop_last() =~= entries@.take(i as int));
            if e.name == wanted {
                let ghost before = table@;
                let rec = ProcData::create(e.pid, node_id, Some(e.usage));
                table.insert(e.pid, rec);
                assert(records(table@) =~= records(before).insert(e.pid, rec@));
            }
            i += 1;
        }
        assert(entries@.take(i as int) =~= entries@);
        table
    }

    /// The record of a process met for the first time, with the usage that the
    /// machine reports for it now.
    pub fn new(pid: i32, node_id: u8, sys: &mut sysinfo::System) -> (rec: ProcData)
        ensures
            exists|usage: Option<ProcUsage>| rec@ == ProcView::created(pid, node_id, usage),
    {
        refresh(sys);
        let usage = process_usage(sys, pid);
        ProcData::create(pid, node_id, usage)
    }

    /// The record of a process met for the first time, given what the machine
    /// reports for it.
    pub fn create(pid: i32, node_id: u8, usage: Option<ProcUsage>) -> (rec: ProcData)
        ensures
            rec@ == ProcView::created(pid, node_id, usage),
            rec@.wf(),
    {
        match usage {
            Some(u) => ProcData {
                node_id,
                pid,
                cpu: u.cpu,
                ram: u.ram,
                send_t: 0,
                recv_t: 0,
                delay_t: 0,
                scatter_t: 0,
                progress: 0,
            },
            None => ProcData {
                node_id: 0,
                pid,
                cpu: 0,
                ram: 0,
                send_t: 0,
                recv_t: 0,
                delay_t: 0,
                scatter_t: 0,
                progress: 0,
            },
        }
    }

    /// Records a report of the process, with the usage that the machine
    /// reports for it now.
    pub fn update(
        &mut self,
        progress: u32,
        send_t: u32,
        recv_t: u32,
        delay_t: u32,
        scatter_t: u32,
        sys: &mut sysinfo::System,
    )
        requires
            progress != END_OF_STREAM,
        ensures
            exists|usage: Option<ProcUsage>|
                final(self)@ == old(self)@.updated(
                    progress,
                    send_t,
                    recv_t,
                    delay_t,
                    scatter_t,
                    usage,
                ),
            final(self)@.wf(),
    {
        refresh(sys);
        let usage = process_usage(sys, self.pid);
        self.record(progress, send_t, recv_t, delay_t, scatter_t, usage);
        assert(self@ == old(self)@.updated(progress, send_t, recv_t, delay_t, scatter_t, usage));
    }

    /// Records a report of the process, given what the machine reports for
    /// it.
    pub fn record(
        &mut self,
        progress: u32,
        send_t: u32,
        recv_t: u32,
        delay_t: u32,
        scatter_t: u32,
        usage: Option<ProcUsage>,
    )
        requires
            progress != END_OF_STREAM,
        ensures
            final(self)@ == old(self)@.updated(
                progress,
                send_t,
                recv_t,
                delay_t,
                scatter_t,
                usage,
            ),
            final(self)@.wf(),
    {
        match usage {
            Some(u) => {
                self.cpu = u.cpu;
                self.ram = u.ram;
            },
            None => {
                self.cpu = 0;
                self.ram = 0;
            },
        }
        self.progress = progress;
        self.send_t = send_t;
        self.recv_t = recv_t;
        self.delay_t = delay_t;
        self.scatter_t = scatter_t;
    }

    /// The id of the node that the process belongs to.
    pub fn node_id(&self) -> (id: u8)
        ensures
            id == self@.node_id,
    {
        self.node_id
    }

    /// The pid of the process.
    pub fn pid(&self) -> (pid: i32)
        ensures
            pid == self@.pid,
    {
        self.pid
    }

    /// The processor share of the process, in percent.
    pub fn cpu(&self) -> (bits: u32)
        ensures
            bits == self@.cpu,
    {
        self.cpu
    }

    /// The memory that the process takes.
    pub fn ram(&self) -> (n: u64)
        ensures
            n == self@.ram,
    {
        self.ram
    }

    /// How far the process has come with its task, in percent.
    pub fn progress(&self) -> (bits: u32)
        ensures
            bits == self@.progress,
    {
        self.progress
    }

    /// The time it took to send data to the neighbours.
    pub fn send_t(&self) -> (bits: u32)
        ensures
            bits == self@.send_t,
    {
        self.send_t
    }

    /// The time it took to receive data from the neighbours.
    pub fn recv_t(&self) -> (bits: u32)
        ensures
            bits == self@.recv_t,
    {
        self.recv_t
    }

    /// The time that the delay pass took.
    pub fn delay_t(&self) -> (bits: u32)
        ensures
            bits == self@.delay_t,
    {
        self.delay_t
    }

    /// The time that the scatter pass took.
    pub fn scatter_t(&self) -> (bits: u32)
        ensures
            bits == self@.scatter_t,
    {
        self.scatter_t
    }
}

impl RequestSerializable for ProcData {
    open spec fn float_fields(&self) -> Seq<u32> {
        self@.float_fields()
    }

    open spec fn payload(&self, floats: Seq<Seq<char>>) -> Seq<char> {
        self@.payload(floats)
    }

    fn floats(&self) -> (bits: Vec<u32>) {
        let mut bits: Vec<u32> = Vec::new();
        bits.push(self.cpu);
        bits.push(self.progress);
        bits.push(self.send_t);
        bits.push(self.recv_t);
        bits.push(self.delay_t);
        bits.push(self.scatter_t);
        assert(bits@ =~= self@.float_fields());
        bits
    }

    fn serialize(&self, floats: &Vec<String>) -> (s: String) {
        let ghost given = texts(floats@);
        let mut s = String::from_str("{\"pid\":");
        push_signed_decimal(&mut s, self.pid as i64);
        s.append(",\"nodeId\":");
        push_decimal(&mut s, self.node_id as u64);
        s.append(",\"cpu\":");
        if 0 < floats.len() {
            s.append(floats[0].as_str());
        }
        s.append(",\"ram\":");
        push_decimal(&mut s, self.ram);
        s.append(",\"progress\":");
        if 1 < floats.len() {
            s.append(floats[1].as_str());
        }
        s.append(",\"sendTime\":");
        if 2 < floats.len() {
            s.append(floats[2].as_str());
        }
        s.append(",\"receiveTime\":");
        if 3 < floats.len() {
            s.append(floats[3].as_str());
        }
        s.append(",\"delayTime\":");
        if 4 < floats.len() {
            s.append(floats[4].as_str());
        }
        s.append(",\"scatterTime\":");
        if 5 < floats.len() {
            s.append(floats[5].as_str());
        }
        s.append("}");
        assert(s@ =~= self@.payload(given));
        s
    }
}

} // verus!
