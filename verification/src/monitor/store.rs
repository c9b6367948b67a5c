//! The registry that the connection handlers share: the node's record and the
//! process records, by pid.
//!
//! The store itself is an ordinary owned value. Whoever shares it between
//! handlers guards it with one lock and calls into it only while holding
//! that lock.

use crate::communication::tcp::{Telemetry, END_OF_STREAM};
use crate::monitor::probe::{
    process_entries, process_usage, refresh, NodeSnapshot, ProcUsage, ProcessEntry, SnapshotView,
};
use crate::monitor::stats::{gathered, records, NodeData, NodeView, ProcData, ProcView};
use std::collections::HashMap;
use vstd::prelude::*;

verus! {

/// The node's record and the process records. Every process record is filed
/// under its own pid, and none holds the end-of-stream mark as its progress.
pub struct StateStore {
    node: NodeData,
    procs: HashMap<i32, ProcData>,
}

/// A store as a mathematical value.
pub struct StoreView {
    pub node: NodeView,
    pub procs: Map<i32, ProcView>,
}

/// Whether every record of `procs` is filed under its own pid and none holds
/// the end-of-stream mark as its progress.
pub open spec fn well_filed(procs: Map<i32, ProcView>) -> bool {
    forall|pid: i32| #[trigger]
        procs.contains_key(pid) ==> procs[pid].pid == pid && procs[pid].wf()
}

impl StoreView {
    /// What holds of every store: see `well_filed`.
    pub open spec fn wf(self) -> bool {
        well_filed(self.procs)
    }

    /// The store after a new look at the node's hardware.
    pub open spec fn node_refreshed(self, snap: SnapshotView) -> StoreView {
        StoreView { node: self.node.refreshed(snap), ..self }
    }

    /// The store with the node under another id.
    pub open spec fn node_renamed(self, id: u8) -> StoreView {
        StoreView { node: self.node.with_id(id), ..self }
    }

    /// The store once it is sure to hold a record for `pid`: unchanged if it
    /// held one, else with a fresh record that belongs to this node.
    pub open spec fn upserted(self, pid: i32, usage: Option<ProcUsage>) -> StoreView {
        if self.procs.contains_key(pid) {
            self
        } else {
            StoreView {
                procs: self.procs.insert(pid, ProcView::created(pid, self.node.node_id, usage)),
                ..self
            }
        }
    }

    /// The store after a report of the process `msg.pid`: its record, made
    /// for the occasion if there was none, has taken the report in. No other
    /// record and nothing of the node has changed.
    pub open spec fn reported(self, msg: Telemetry, usage: Option<ProcUsage>) -> StoreView {
        let held = self.upserted(msg.pid, usage);
        StoreView {
            procs: held.procs.insert(
                msg.pid,
                held.procs[msg.pid].updated(
                    msg.progress,
                    msg.send_t,
                    msg.recv_t,
                    msg.delay_t,
                    msg.scatter_t,
                    usage,
                ),
            ),
            ..held
        }
    }
}

/// The fresh records gathered from a process table are well filed.
pub proof fn lemma_gathered_well_filed(entries: Seq<ProcessEntry>, name: Seq<char>, node_id: u8)
    ensures
        well_filed(gathered(entries, name, node_id)),
    decreases entries.len(),
{
    if entries.len() > 0 {
        lemma_gathered_well_filed(entries.drop_last(), name, node_id);
    }
}

/// Upserting keeps a store well filed and adds at most the record of `pid`.
pub proof fn lemma_upserted_wf(s: StoreView, pid: i32, usage: Option<ProcUsage>)
    requires
        s.wf(),
    ensures
        s.upserted(pid, usage).wf(),
        s.upserted(pid, usage).procs.dom() == s.procs.dom().insert(pid),
{
    assert(s.upserted(pid, usage).procs.dom() =~= s.procs.dom().insert(pid));
}

/// A report that is not the end-of-stream mark keeps a store well filed and
/// adds at most the record of its sender.
pub proof fn lemma_reported_wf(s: StoreView, msg: Telemetry, usage: Option<ProcUsage>)
    requires
        s.wf(),
        msg.progress != END_OF_STREAM,
    ensures
        s.reported(msg, usage).wf(),
        s.reported(msg, usage).procs.dom() == s.procs.dom().insert(msg.pid),
{
    lemma_upserted_wf(s, msg.pid, usage);
    assert(s.reported(msg, usage).procs.dom() =~= s.procs.dom().insert(msg.pid));
}

/// Upserting returns the same record however often it is asked: once a store
/// holds a record for `pid`, upserting `pid` again changes nothing, whatever
/// the machine reports then.
pub proof fn lemma_upsert_is_stable(
    s: StoreView,
    pid: i32,
    first: Option<ProcUsage>,
    later: Option<ProcUsage>,
)
    ensures
        s.upserted(pid, first).upserted(pid, later) == s.upserted(pid, first),
        s.procs.contains_key(pid) ==> s.upserted(pid, first) == s,
{
}

/// A report changes the record that upserting returns, and only that one:
/// after a report of `msg.pid`, upserting it finds the record that the report
/// left.
pub proof fn lemma_report_lands_in_upserted(
    s: StoreView,
    msg: Telemetry,
    usage: Option<ProcUsage>,
    later: Option<ProcUsage>,
)
    ensures
        s.reported(msg, usage).upserted(msg.pid, later) == s.reported(msg, usage),
        s.reported(msg, usage).procs[msg.pid] == s.upserted(msg.pid, usage).procs[msg.pid].updated(
            msg.progress,
            msg.send_t,
            msg.recv_t,
            msg.delay_t,
            msg.scatter_t,
            usage,
        ),
        forall|other: i32|
            other != msg.pid && s.procs.contains_key(other) ==> #[trigger] s.reported(
                msg,
                usage,
            ).procs[other] == s.procs[other],
{
}

impl View for StateStore {
    type V = StoreView;

    closed spec fn view(&self) -> StoreView {
        StoreView { node: self.node@, procs: records(self.procs@) }
    }
}

impl StateStore {
    /// What holds of every store at every moment.
    #[verifier::type_invariant]
    pub open spec fn well_formed(self) -> bool {
        self@.wf()
    }

    /// The store of a node that knows no process yet.
    pub fn new(node: NodeData) -> (store: StateStore)
        ensures
            store@.node == node@,
            store@.procs == Map::<i32, ProcView>::empty(),
            store@.wf(),
    {
        let procs: HashMap<i32, ProcData> = HashMap::new();
        assert(records(procs@) =~= Map::<i32, ProcView>::empty());
        StateStore { node, procs }
    }

    /// The store of a node that starts with a fresh record for each process
    /// called `proc_name` among `entries`.
    pub fn with_entries(node: NodeData, entries: &Vec<ProcessEntry>, proc_name: &str) -> (store:
        StateStore)
        ensures
            store@.node == node@,
            store@.procs == gathered(entries@, proc_name@, node@.node_id),
            store@.wf(),
    {
        let procs = ProcData::gather(entries, proc_name, node.get_id());
        proof {
            lemma_gathered_well_filed(entries@, proc_name@, node@.node_id);
        }
        StateStore { node, procs }
    }

    /// The store of this machine as it is now: a node record under a random
    /// id, and a fresh record for each running process called `proc_name`.
    pub fn start(proc_name: &str, sys: &mut sysinfo::System) -> (store: StateStore)
        ensures
            exists|entries: Seq<ProcessEntry>|
                store@.procs == gathered(entries, proc_name@, store@.node.node_id),
            store@.wf(),
    {
        let node = NodeData::new();
        refresh(sys);
        let entries = process_entries(sys);
        StateStore::with_entries(node, &entries, proc_name)
    }

    /// The node's record.
    pub fn node(&self) -> (node: &NodeData)
        ensures
            node@ == self@.node,
    {
        &self.node
    }

    /// The record of the process `pid`, if the store has one.
    pub fn process(&self, pid: i32) -> (found: Option<ProcData>)
        ensures
            self@.wf(),
            found is Some == self@.procs.contains_key(pid),
            found is Some ==> found->0@ == self@.procs[pid],
    {
        proof {
            use_type_invariant(self);
        }
        match self.procs.get(&pid) {
            Some(rec) => Some(*rec),
            None => None,
        }
    }

    /// The number of process records.
    pub fn count(&self) -> (n: usize)
        ensures
            n == self@.procs.dom().len(),
    {
        assert(self@.procs.dom() =~= self.procs@.dom());
        self.procs.len()
    }

    /// Takes a new look at the node's hardware from `snap`.
    pub fn refresh_node(&mut self, snap: NodeSnapshot)
        ensures
            final(self)@ == old(self)@.node_refreshed(snap@),
            final(self)@.wf(),
    {
        proof {
            use_type_invariant(&*self);
        }
        self.node.refresh(snap);
    }

    /// Puts the node under another id.
    pub fn rename_node(&mut self, id: u8)
        ensures
            final(self)@ == old(self)@.node_renamed(id),
            final(self)@.wf(),
    {
        proof {
            use_type_invariant(&*self);
        }
        self.node.set_id(id);
    }

    /// Files `rec` under `pid`, in place of what was filed there.
    fn file(&mut self, pid: i32, rec: ProcData)
        requires
            rec@.pid == pid,
            rec@.wf(),
        ensures
            final(self)@.node == old(self)@.node,
            final(self)@.procs == old(self)@.procs.insert(pid, rec@),
    {
        proof {
            use_type_invariant(&*self);
        }
        // The table is taken out for the insertion and put back, so that the
        // store is whole at every moment.
        let mut procs: HashMap<i32, ProcData> = HashMap::new();
        assert(records(procs@) =~= Map::<i32, ProcView>::empty());
        core::mem::swap(&mut self.procs, &mut procs);
        let ghost before = procs@;
        procs.insert(pid, rec);
        assert(records(procs@) =~= records(before).insert(pid, rec@));
        self.procs = procs;
    }

    /// The record of the process `pid`, made now if the store had none, with
    /// the usage that the machine reports for the process. Of a process that
    /// the store knows the machine is not asked.
    pub fn upsert_process(&mut self, pid: i32, sys: &mut sysinfo::System) -> (rec: ProcData)
        ensures
            exists|usage: Option<ProcUsage>| final(self)@ == old(self)@.upserted(pid, usage),
            final(self)@.procs.contains_key(pid),
            rec@ == final(self)@.procs[pid],
            rec@.pid == pid,
            final(self)@.wf(),
    {
        proof {
            use_type_invariant(&*self);
        }
        match self.procs.get(&pid) {
            Some(rec) => {
                let rec = *rec;
                assert(self@ == old(self)@.upserted(pid, None));
                rec
            },
            None => {
                refresh(sys);
                let usage = process_usage(sys, pid);
                self.upsert_with(pid, usage)
            },
        }
    }

    /// The record of the process `pid`, made now if the store had none, from
    /// what the machine reports for the process.
    pub fn upsert_with(&mut self, pid: i32, usage: Option<ProcUsage>) -> (rec: ProcData)
        ensures
            final(self)@ == old(self)@.upserted(pid, usage),
            final(self)@.procs.contains_key(pid),
            rec@ == final(self)@.procs[pid],
            rec@.pid == pid,
            final(self)@.wf(),
    {
        proof {
            use_type_invariant(&*self);
            lemma_upserted_wf(self@, pid, usage);
        }
        match self.procs.get(&pid) {
            Some(rec) => *rec,
            None => {
                let rec = ProcData::create(pid, self.node.get_id(), usage);
                self.file(pid, rec);
                rec
            },
        }
    }

    /// Takes in a report of the process `msg.pid` and returns its record as it
    /// is afterwards.
    pub fn report(&mut self, msg: &Telemetry, usage: Option<ProcUsage>) -> (rec: ProcData)
        requires
            msg.progress != END_OF_STREAM,
        ensures
            final(self)@ == old(self)@.reported(*msg, usage),
            rec@ == final(self)@.procs[msg.pid],
            rec@.pid == msg.pid,
            final(self)@.wf(),
    {
        proof {
            use_type_invariant(&*self);
            lemma_reported_wf(self@, *msg, usage);
        }
        let mut rec = self.upsert_with(msg.pid, usage);
        rec.record(msg.progress, msg.send_t, msg.recv_t, msg.delay_t, msg.scatter_t, usage);
        self.file(msg.pid, rec);
        rec
    }
}

} // verus!
