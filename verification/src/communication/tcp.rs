//! The telemetry message that workers send, what the handler of a worker's
//! connection does with it, and the frame in which a status travels to the
//! collector.

use crate::communication::http_requests::{texts, RequestSerializable};
use crate::monitor::probe::{
    node_snapshot, process_usage, refresh, NodeSnapshot, ProcUsage, SnapshotView,
};
use crate::monitor::stats::{NodeData, ProcData};
use crate::monitor::store::{lemma_reported_wf, StateStore, StoreView};
use vstd::prelude::*;
use vstd::slice::slice_subrange;
use vstd::string::StringSliceAdditionalSpecFns;

verus! {

/// Bytes in one telemetry message.
pub const MESSAGE_LEN: usize = 24;

/// Bytes in one status frame.
pub const FRAME_LEN: usize = 256;

/// The progress value by which a worker says that it has finished: the bit
/// pattern of the single-precision number -1.
pub const END_OF_STREAM: u32 = 0xBF80_0000;

/// What one telemetry message carries. All but the pid are single-precision
/// numbers, kept as their bit patterns.
#[derive(Clone, Copy, Debug, PartialEq, Eq, Structural)]
pub struct Telemetry {
    pub pid: i32,
    pub progress: u32,
    pub send_t: u32,
    pub recv_t: u32,
    pub delay_t: u32,
    pub scatter_t: u32,
}

/// The number that the first four bytes of `b` spell, least significant byte
/// first.
pub open spec fn le_u32(b: Seq<u8>) -> u32 {
    (b[0] as int + 256 * (b[1] as int) + 65536 * (b[2] as int) + 16777216 * (b[3] as int)) as u32
}

/// The four bytes that spell `x`, least significant byte first.
pub open spec fn le_bytes(x: u32) -> Seq<u8> {
    seq![
        (x as int % 256) as u8,
        (x as int / 256 % 256) as u8,
        (x as int / 65536 % 256) as u8,
        (x as int / 16777216) as u8,
    ]
}

/// The signed number with the two's-complement bit pattern `x`.
pub open spec fn as_signed(x: u32) -> i32 {
    if x < 0x8000_0000 {
        x as i32
    } else {
        (x as int - 0x1_0000_0000) as i32
    }
}

/// The two's-complement bit pattern of `x`.
pub open spec fn as_unsigned(x: i32) -> u32 {
    if x >= 0 {
        x as u32
    } else {
        (x as int + 0x1_0000_0000) as u32
    }
}

/// The message that 24 bytes spell: six little-endian words, the pid first.
pub open spec fn decoded(bytes: Seq<u8>) -> Telemetry {
    Telemetry {
        pid: as_signed(le_u32(bytes.subrange(0, 4))),
        progress: le_u32(bytes.subrange(4, 8)),
        send_t: le_u32(bytes.subrange(8, 12)),
        recv_t: le_u32(bytes.subrange(12, 16)),
        delay_t: le_u32(bytes.subrange(16, 20)),
        scatter_t: le_u32(bytes.subrange(20, 24)),
    }
}

/// The 24 bytes that spell a message.
pub open spec fn encoded(msg: Telemetry) -> Seq<u8> {
    le_bytes(as_unsigned(msg.pid)) + le_bytes(msg.progress) + le_bytes(msg.send_t) + le_bytes(
        msg.recv_t,
    ) + le_bytes(msg.delay_t) + le_bytes(msg.scatter_t)
}

/// Reading back the bytes of a word gives the word.
pub proof fn lemma_word_round_trip(x: u32)
    ensures
        le_bytes(x).len() == 4,
        le_u32(le_bytes(x)) == x,
{
}

/// Writing out the word that four bytes spell gives the four bytes.
pub proof fn lemma_bytes_round_trip(b: Seq<u8>)
    requires
        b.len() == 4,
    ensures
        le_bytes(le_u32(b)) == b,
{
    let b0 = b[0] as int;
    let b1 = b[1] as int;
    let b2 = b[2] as int;
    let b3 = b[3] as int;
    let x = b0 + 256 * b1 + 65536 * b2 + 16777216 * b3;
    assert(x == le_u32(b));
    assert(x % 256 == b0 && x / 256 == b1 + 256 * b2 + 65536 * b3);
    assert(x / 256 % 256 == b1);
    assert(x / 65536 == b2 + 256 * b3);
    assert(x / 65536 % 256 == b2);
    assert(x / 16777216 == b3);
    assert(le_bytes(le_u32(b)) =~= b);
}

/// Read as signed and then as unsigned, a bit pattern is what it was.
pub proof fn lemma_signed_round_trip(x: u32)
    ensures
        as_unsigned(as_signed(x)) == x,
{
}

/// Read as unsigned and then as signed, a number is what it was.
pub proof fn lemma_unsigned_round_trip(i: i32)
    ensures
        as_signed(as_unsigned(i)) == i,
{
}

/// Decoding recovers exactly the message that was encoded.
pub proof fn lemma_decode_encode(msg: Telemetry)
    ensures
        encoded(msg).len() == 24,
        decoded(encoded(msg)) == msg,
{
    let bytes = encoded(msg);
    lemma_word_round_trip(as_unsigned(msg.pid));
    lemma_word_round_trip(msg.progress);
    lemma_word_round_trip(msg.send_t);
    lemma_word_round_trip(msg.recv_t);
    lemma_word_round_trip(msg.delay_t);
    lemma_word_round_trip(msg.scatter_t);
    lemma_unsigned_round_trip(msg.pid);
    assert(bytes.subrange(0, 4) =~= le_bytes(as_unsigned(msg.pid)));
    assert(bytes.subrange(4, 8) =~= le_bytes(msg.progress));
    assert(bytes.subrange(8, 12) =~= le_bytes(msg.send_t));
    assert(bytes.subrange(12, 16) =~= le_bytes(msg.recv_t));
    assert(bytes.subrange(16, 20) =~= le_bytes(msg.delay_t));
    assert(bytes.subrange(20, 24) =~= le_bytes(msg.scatter_t));
}

/// Encoding the message that 24 bytes spell gives the same 24 bytes: no two
/// inputs decode alike.
pub proof fn lemma_encode_decode(bytes: Seq<u8>)
    requires
        bytes.len() == 24,
    ensures
        encoded(decoded(bytes)) == bytes,
{
    let msg = decoded(bytes);
    lemma_signed_round_trip(le_u32(bytes.subrange(0, 4)));
    lemma_bytes_round_trip(bytes.subrange(0, 4));
    lemma_bytes_round_trip(bytes.subrange(4, 8));
    lemma_bytes_round_trip(bytes.subrange(8, 12));
    lemma_bytes_round_trip(bytes.subrange(12, 16));
    lemma_bytes_round_trip(bytes.subrange(16, 20));
    lemma_bytes_round_trip(bytes.subrange(20, 24));
    assert(encoded(msg) =~= bytes);
}

/// Reads a little-endian unsigned word from the first four bytes of `buff`.
pub fn read_u32(buff: &[u8]) -> (r: u32)
    requires
        buff@.len() >= 4,
    ensures
        r == le_u32(buff@),
{
    let b0: u32 = buff[0] as u32;
    let b1: u32 = buff[1] as u32;
    let b2: u32 = buff[2] as u32;
    let b3: u32 = buff[3] as u32;
    b0 + 256 * b1 + 65536 * b2 + 16777216 * b3
}

/// Reads a little-endian signed word from the first four bytes of `buff`.
pub fn read_i32(buff: &[u8]) -> (r: i32)
    requires
        buff@.len() >= 4,
    ensures
        r == as_signed(le_u32(buff@)),
{
    let x: u32 = read_u32(buff);
    if x < 0x8000_0000 {
        x as i32
    } else {
        ((x - 0x8000_0000) as i32) - 0x7FFF_FFFF - 1
    }
}

/// Decodes one telemetry message.
pub fn process_input(input: &[u8]) -> (msg: Telemetry)
    requires
        input@.len() == MESSAGE_LEN,
    ensures
        msg == decoded(input@),
{
    Telemetry {
        pid: read_i32(slice_subrange(input, 0, 4)),
        progress: read_u32(slice_subrange(input, 4, 8)),
        send_t: read_u32(slice_subrange(input, 8, 12)),
        recv_t: read_u32(slice_subrange(input, 12, 16)),
        delay_t: read_u32(slice_subrange(input, 16, 20)),
        scatter_t: read_u32(slice_subrange(input, 20, 24)),
    }
}

fn push_word(out: &mut Vec<u8>, x: u32)
    ensures
        final(out)@ == old(out)@ + le_bytes(x),
{
    out.push((x % 256) as u8);
    out.push((x / 256 % 256) as u8);
    out.push((x / 65536 % 256) as u8);
    out.push((x / 16777216) as u8);
    assert(out@ =~= old(out)@ + le_bytes(x));
}

/// Encodes one telemetry message.
pub fn encode_telemetry(msg: &Telemetry) -> (bytes: Vec<u8>)
    ensures
        bytes@ == encoded(*msg),
{
    let pid: u32 = if msg.pid >= 0 {
        msg.pid as u32
    } else {
        ((msg.pid + 0x7FFF_FFFF + 1) as u32) + 0x8000_0000
    };
    let mut bytes: Vec<u8> = Vec::new();
    push_word(&mut bytes, pid);
    push_word(&mut bytes, msg.progress);
    push_word(&mut bytes, msg.send_t);
    push_word(&mut bytes, msg.recv_t);
    push_word(&mut bytes, msg.delay_t);
    push_word(&mut bytes, msg.scatter_t);
    assert(bytes@ =~= encoded(*msg));
    bytes
}

/// `buf` with its beginning overwritten by `src`, as far as `src` fits. What
/// of `src` does not fit is left out; what `src` does not reach stays.
pub open spec fn overlay(buf: Seq<u8>, src: Seq<u8>) -> Seq<u8> {
    Seq::new(
        buf.len(),
        |i: int|
            if i < src.len() {
                src[i]
            } else {
                buf[i]
            },
    )
}

/// The frame that carries `text`: 256 bytes, the text first, cut off where
/// the frame ends, zeros after it.
pub open spec fn framed(text: Seq<u8>) -> Seq<u8> {
    overlay(Seq::new(FRAME_LEN as nat, |i: int| 0u8), text)
}

/// A frame has 256 bytes. A text of up to 256 bytes stands at its beginning,
/// with zeros up to the end; of a longer text the frame holds the first 256
/// bytes and nothing tells that more were cut off.
pub proof fn lemma_frame_shape(text: Seq<u8>)
    ensures
        framed(text).len() == FRAME_LEN,
        text.len() <= FRAME_LEN ==> framed(text) == text + Seq::new(
            (FRAME_LEN - text.len()) as nat,
            |i: int| 0u8,
        ),
        text.len() >= FRAME_LEN ==> framed(text) == text.take(FRAME_LEN as int),
{
    if text.len() <= FRAME_LEN {
        assert(framed(text) =~= text + Seq::new((FRAME_LEN - text.len()) as nat, |i: int| 0u8));
    }
    if text.len() >= FRAME_LEN {
        assert(framed(text) =~= text.take(FRAME_LEN as int));
    }
}

/// Copies the bytes of `data` to the beginning of `a`. A text longer than `a`
/// is cut off at the end of `a`, with no sign of it; the rest of `a` keeps
/// what it held.
pub fn fetch_message(a: &mut [u8], data: &str)
    ensures
        final(a)@ == overlay(old(a)@, data.spec_bytes()),
{
    let bytes = data.as_bytes();
    let mut i: usize = 0;
    while i < a.len() && i < bytes.len()
        invariant
            bytes@ == data.spec_bytes(),
            a@.len() == old(a)@.len(),
            i <= a@.len(),
            i <= bytes@.len(),
            forall|k: int| 0 <= k < i ==> a@[k] == bytes@[k],
            forall|k: int| i <= k < a@.len() ==> a@[k] == old(a)@[k],
        decreases a@.len() - i,
    {
        a[i] = bytes[i];
        i += 1;
    }
    assert(a@ =~= overlay(old(a)@, data.spec_bytes()));
}

/// The frame in which the status text `data` is sent to the collector.
pub fn status_frame(data: &str) -> (frame: [u8; FRAME_LEN])
    ensures
        frame@ == framed(data.spec_bytes()),
{
    let mut frame = [0u8; FRAME_LEN];
    assert(frame@ =~= Seq::new(FRAME_LEN as nat, |i: int| 0u8));
    fetch_message(&mut frame, data);
    frame
}

/// The frame that carries the status of `request`, given the decimal texts of
/// its single-precision fields.
pub fn status_message<T: RequestSerializable>(request: &T, floats: &Vec<String>) -> (frame: [u8;
    FRAME_LEN])
    ensures
        frame@ == framed(vstd::utf8::encode_utf8(request.payload(texts(floats@)))),
{
    let text = request.serialize(floats);
    status_frame(text.as_str())
}

/// What one read on a worker's connection gave: so many bytes, or an error.
#[derive(Clone, Copy, Debug, PartialEq, Eq, Structural)]
pub enum ReadEvent {
    Bytes(usize),
    Failed,
}

/// What follows the node's status after a message.
#[derive(Clone, Copy, Debug)]
pub enum FollowUp {
    /// The worker has finished: the node's files go downstream, under this
    /// node id.
    SendFiles { node_id: u8 },
    /// The worker has reported: the status of its record goes to the
    /// collector.
    Report { status: ProcData },
}

/// What the handler has to send after a message: first the node's status to
/// the collector, then the follow-up.
pub struct Dispatch {
    pub node_status: NodeData,
    pub follow_up: FollowUp,
}

/// What the handler does after a read.
pub enum Reaction {
    /// A message came: send what it asks for, then read again.
    Forward(Dispatch),
    /// The peer has hung up: end.
    Close,
    /// The read failed: shut the connection down in both directions and end.
    Shutdown,
}

/// The low eight bits of a pid: the id that the node takes from a message.
pub open spec fn low_byte(pid: i32) -> u8 {
    (pid as int % 256) as u8
}

/// The store after a message. The node's hardware is looked at again and the
/// node takes its id from the sender's pid. The end-of-stream mark changes no
/// process record; any other message is a report of its sender.
pub open spec fn step(
    s: StoreView,
    msg: Telemetry,
    snap: SnapshotView,
    usage: Option<ProcUsage>,
) -> StoreView {
    let seen = s.node_refreshed(snap).node_renamed(low_byte(msg.pid));
    if msg.progress == END_OF_STREAM {
        seen
    } else {
        seen.reported(msg, usage)
    }
}

/// Whether `d` is what has to be sent after the message `msg` came to the
/// store `before`: the node's status as it is once the hardware has been
/// looked at, under the id it had; then the files, under the new id, if the
/// worker has finished, and else the sender's record as the message leaves
/// it.
pub open spec fn answers(
    d: Dispatch,
    before: StoreView,
    msg: Telemetry,
    snap: SnapshotView,
    usage: Option<ProcUsage>,
) -> bool {
    &&& d.node_status@ == before.node.refreshed(snap)
    &&& match d.follow_up {
        FollowUp::SendFiles { node_id } => msg.progress == END_OF_STREAM && node_id == low_byte(
            msg.pid,
        ),
        FollowUp::Report { status } => msg.progress != END_OF_STREAM && status@ == step(
            before,
            msg,
            snap,
            usage,
        ).procs[msg.pid],
    }
}

fn low_byte_of(pid: i32) -> (id: u8)
    ensures
        id == low_byte(pid),
{
    let id = #[verifier::truncate] (pid as u8);
    assert(id as int == (pid as int) % 256) by (bit_vector)
        requires
            id == #[verifier::truncate] (pid as u8),
    ;
    id
}

/// Takes a message into the store, given what the machine reports of the
/// node's hardware and of the sender, and says what has to be sent.
pub fn handle_message(
    store: &mut StateStore,
    msg: &Telemetry,
    snap: NodeSnapshot,
    usage: Option<ProcUsage>,
) -> (d: Dispatch)
    ensures
        final(store)@ == step(old(store)@, *msg, snap@, usage),
        final(store)@.wf(),
        answers(d, old(store)@, *msg, snap@, usage),
{
    store.refresh_node(snap);
    let node_status = store.node().duplicate();
    let id = low_byte_of(msg.pid);
    store.rename_node(id);
    if msg.progress == END_OF_STREAM {
        Dispatch { node_status, follow_up: FollowUp::SendFiles { node_id: id } }
    } else {
        let status = store.report(msg, usage);
        Dispatch { node_status, follow_up: FollowUp::Report { status } }
    }
}

/// Reacts to one read on a worker's connection. `data` is the buffer that the
/// read filled from its beginning; it is decoded as a whole, whatever the
/// number of bytes that came, so a short read decodes together with what the
/// buffer held before.
///
/// An error ends the connection by shutdown, no bytes end it by close, and
/// neither touches the store. Otherwise the machine is asked about the node's
/// hardware and, unless the worker has finished, about the sender, and the
/// message is taken in as `handle_message` does for what the machine
/// reported.
pub fn on_read(
    store: &mut StateStore,
    sys: &mut sysinfo::System,
    data: &[u8; MESSAGE_LEN],
    event: ReadEvent,
) -> (r: Reaction)
    ensures
        final(store)@.wf(),
        event == ReadEvent::Failed ==> r is Shutdown && final(store)@ == old(store)@,
        event == ReadEvent::Bytes(0) ==> r is Close && final(store)@ == old(store)@,
        event != ReadEvent::Failed && event != ReadEvent::Bytes(0) ==> r is Forward && exists|
            snap: SnapshotView,
            usage: Option<ProcUsage>,
        |
            final(store)@ == step(old(store)@, decoded(data@), snap, usage) && answers(
                r->Forward_0,
                old(store)@,
                decoded(data@),
                snap,
                usage,
            ),
{
    proof {
        use_type_invariant(&*store);
    }
    match event {
        ReadEvent::Failed => Reaction::Shutdown,
        ReadEvent::Bytes(size) => {
            if size == 0 {
                Reaction::Close
            } else {
                refresh(sys);
                let snap = node_snapshot(sys);
                let msg = process_input(data.as_slice());
                let usage = if msg.progress == END_OF_STREAM {
                    None
                } else {
                    refresh(sys);
                    process_usage(sys, msg.pid)
                };
                let ghost seen = snap@;
                let d = handle_message(store, &msg, snap, usage);
                assert(store@ == step(old(store)@, decoded(data@), seen, usage) && answers(
                    d,
                    old(store)@,
                    decoded(data@),
                    seen,
                    usage,
                ));
                Reaction::Forward(d)
            }
        },
    }
}

/// One message that came to the store, with what the machine reported then.
pub struct Event {
    pub msg: Telemetry,
    pub snap: SnapshotView,
    pub usage: Option<ProcUsage>,
}

/// The store after a run of messages, the first of `events` first.
pub open spec fn run(s: StoreView, events: Seq<Event>) -> StoreView
    decreases events.len(),
{
    if events.len() == 0 {
        s
    } else {
        let e = events.last();
        step(run(s, events.drop_last()), e.msg, e.snap, e.usage)
    }
}

/// The messages of `events` that the process `pid` sent, in their order.
pub open spec fn sent_by(events: Seq<Event>, pid: i32) -> Seq<Event>
    decreases events.len(),
{
    if events.len() == 0 {
        Seq::empty()
    } else if events.last().msg.pid == pid {
        sent_by(events.drop_last(), pid).push(events.last())
    } else {
        sent_by(events.drop_last(), pid)
    }
}

/// A message keeps the store well filed. It leaves every record but its
/// sender's as it was, adds at most the sender's, and removes none.
pub proof fn lemma_step_touches_one_record(
    s: StoreView,
    msg: Telemetry,
    snap: SnapshotView,
    usage: Option<ProcUsage>,
)
    requires
        s.wf(),
    ensures
        step(s, msg, snap, usage).wf(),
        forall|other: i32|
            other != msg.pid ==> #[trigger] step(s, msg, snap, usage).procs.contains_key(other)
                == s.procs.contains_key(other),
        forall|other: i32|
            other != msg.pid && s.procs.contains_key(other) ==> #[trigger] step(
                s,
                msg,
                snap,
                usage,
            ).procs[other] == s.procs[other],
        s.procs.contains_key(msg.pid) ==> step(s, msg, snap, usage).procs.contains_key(msg.pid),
{
    let seen = s.node_refreshed(snap).node_renamed(low_byte(msg.pid));
    if msg.progress != END_OF_STREAM {
        lemma_reported_wf(seen, msg, usage);
    }
}

/// The end-of-stream mark changes no process record and asks for the files to
/// be sent, once; every other message asks for a report and never for the
/// files.
pub proof fn lemma_end_of_stream(
    d: Dispatch,
    s: StoreView,
    msg: Telemetry,
    snap: SnapshotView,
    usage: Option<ProcUsage>,
)
    requires
        answers(d, s, msg, snap, usage),
    ensures
        msg.progress == END_OF_STREAM ==> step(s, msg, snap, usage).procs == s.procs
            && d.follow_up is SendFiles,
        msg.progress != END_OF_STREAM ==> d.follow_up is Report,
{
}

/// However many messages one process sends, the store keeps a single record
/// for it, filed under its pid. The first report makes the record, every
/// later one changes that same record, and no other record is made, removed
/// or changed.
pub proof fn lemma_one_record_per_pid(s: StoreView, events: Seq<Event>, pid: i32)
    requires
        s.wf(),
        forall|i: int| 0 <= i < events.len() ==> events[i].msg.pid == pid,
    ensures
        run(s, events).wf(),
        forall|other: i32|
            other != pid ==> #[trigger] run(s, events).procs.contains_key(other)
                == s.procs.contains_key(other),
        forall|other: i32|
            other != pid && s.procs.contains_key(other) ==> #[trigger] run(s, events).procs[other]
                == s.procs[other],
        s.procs.contains_key(pid) ==> run(s, events).procs.contains_key(pid),
        run(s, events).procs.contains_key(pid) ==> run(s, events).procs[pid].pid == pid,
        events.len() > 0 && events.last().msg.progress != END_OF_STREAM ==> {
            let before = run(s, events.drop_last());
            let e = events.last();
            &&& run(s, events).procs.contains_key(pid)
            &&& before.procs.contains_key(pid) ==> run(s, events).procs[pid]
                == before.procs[pid].updated(
                e.msg.progress,
                e.msg.send_t,
                e.msg.recv_t,
                e.msg.delay_t,
                e.msg.scatter_t,
                e.usage,
            )
        },
    decreases events.len(),
{
    if events.len() > 0 {
        let e = events.last();
        let before = run(s, events.drop_last());
        lemma_one_record_per_pid(s, events.drop_last(), pid);
        lemma_step_touches_one_record(before, e.msg, e.snap, e.usage);
        assert(run(s, events) == step(before, e.msg, e.snap, e.usage));
    }
}

/// No report is lost among those of other processes: what the store holds
/// for a process after a run of messages is what the messages of that process
/// alone would have left there.
pub proof fn lemma_no_lost_update(s: StoreView, events: Seq<Event>, pid: i32)
    requires
        s.wf(),
    ensures
        run(s, events).wf(),
        run(s, sent_by(events, pid)).wf(),
        run(s, events).procs.contains_key(pid) == run(s, sent_by(events, pid)).procs.contains_key(
            pid,
        ),
        run(s, events).procs.contains_key(pid) ==> run(s, events).procs[pid] == run(
            s,
            sent_by(events, pid),
        ).procs[pid],
    decreases events.len(),
{
    if events.len() > 0 {
        let e = events.last();
        let rest = events.drop_last();
        lemma_no_lost_update(s, rest, pid);
        lemma_step_touches_one_record(run(s, rest), e.msg, e.snap, e.usage);
        if e.msg.pid == pid {
            let own = sent_by(rest, pid);
            assert(sent_by(events, pid).last() == e);
            assert(sent_by(events, pid).drop_last() =~= own);
            lemma_step_touches_one_record(run(s, own), e.msg, e.snap, e.usage);
            assert(run(s, sent_by(events, pid)) == step(run(s, own), e.msg, e.snap, e.usage));
        }
        assert(run(s, events) == step(run(s, rest), e.msg, e.snap, e.usage));
    }
}

} // verus!
