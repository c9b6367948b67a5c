use monitor::communication::http_requests::{request_url, RequestSerializable};
use monitor::communication::tcp::status_message;
use monitor::monitor::probe::{NodeSnapshot, ProcUsage, ProcessEntry};
use monitor::monitor::stats::{NodeData, ProcData};

fn decimal_texts(bits: &[u32]) -> Vec<String> {
    bits.iter().map(|b| f32::from_bits(*b).to_string()).collect()
}

fn snapshot(cpu: f32, used: u64, temps: &[f32]) -> NodeSnapshot {
    NodeSnapshot {
        cores: 4,
        threads: 8,
        cpu_usage: cpu.to_bits(),
        total_ram: 16_000_000,
        used_ram: used,
        temperatures: temps.iter().map(|t| t.to_bits()).collect(),
    }
}

#[test]
fn node_record_takes_the_snapshot() {
    let node = NodeData::from_snapshot(9, snapshot(12.5, 1234, &[40.0, 41.5]));
    assert_eq!(node.get_id(), 9);
    assert_eq!(node.cores(), 4);
    assert_eq!(node.threads(), 8);
    assert_eq!(f32::from_bits(node.cpu_usage()), 12.5);
    assert_eq!(node.total_ram(), 16_000_000);
    assert_eq!(node.used_ram(), 1234);
    assert_eq!(node.temperature(), &vec![40.0f32.to_bits(), 41.5f32.to_bits()]);
}

#[test]
fn node_refresh_replaces_only_what_changes() {
    let mut node = NodeData::from_snapshot(9, snapshot(12.5, 1234, &[40.0, 41.5]));
    let mut later = snapshot(80.0, 99, &[55.0]);
    later.cores = 64;
    later.threads = 128;
    later.total_ram = 1;
    node.refresh(later);
    assert_eq!(node.get_id(), 9);
    assert_eq!(node.cores(), 4);
    assert_eq!(node.threads(), 8);
    assert_eq!(node.total_ram(), 16_000_000);
    assert_eq!(f32::from_bits(node.cpu_usage()), 80.0);
    assert_eq!(node.used_ram(), 99);
    assert_eq!(node.temperature(), &vec![55.0f32.to_bits()]);
    node.refresh(snapshot(0.0, 0, &[1.0, 2.0, 3.0]));
    assert_eq!(node.temperature().len(), 3);
}

#[test]
fn node_id_can_be_set() {
    let mut node = NodeData::from_snapshot(1, snapshot(0.0, 0, &[]));
    node.set_id(200);
    assert_eq!(node.get_id(), 200);
    assert_eq!(node.cores(), 4);
}

#[test]
fn node_duplicate_is_equal_and_apart() {
    let mut node = NodeData::from_snapshot(3, snapshot(1.0, 2, &[3.0]));
    let copy = node.duplicate();
    node.set_id(4);
    node.refresh(snapshot(9.0, 9, &[]));
    assert_eq!(copy.get_id(), 3);
    assert_eq!(copy.used_ram(), 2);
    assert_eq!(copy.temperature(), &vec![3.0f32.to_bits()]);
    assert_eq!(f32::from_bits(copy.cpu_usage()), 1.0);
}

#[test]
fn node_payload_lists_the_temperatures() {
    let node = NodeData::from_snapshot(7, snapshot(12.5, 1234, &[40.0, 41.5, 39.0]));
    let bits = node.floats();
    assert_eq!(bits, vec![12.5f32.to_bits(), 40.0f32.to_bits(), 41.5f32.to_bits(), 39.0f32.to_bits()]);
    assert_eq!(
        node.serialize(&decimal_texts(&bits)),
        "{\"nodeId\":7,\"cores\":4,\"threads\":8,\"cpu\":12.5,\"totalRam\":16000000,\"usedRam\":1234,\"temperature\":[40, 41.5, 39]}"
    );
}

#[test]
fn node_payload_with_one_or_no_temperature() {
    let one = NodeData::from_snapshot(0, snapshot(0.0, 0, &[61.25]));
    assert_eq!(
        one.serialize(&decimal_texts(&one.floats())),
        "{\"nodeId\":0,\"cores\":4,\"threads\":8,\"cpu\":0,\"totalRam\":16000000,\"usedRam\":0,\"temperature\":[61.25]}"
    );
    let none = NodeData::from_snapshot(255, snapshot(100.0, 5, &[]));
    assert_eq!(none.floats(), vec![100.0f32.to_bits()]);
    assert_eq!(
        none.serialize(&decimal_texts(&none.floats())),
        "{\"nodeId\":255,\"cores\":4,\"threads\":8,\"cpu\":100,\"totalRam\":16000000,\"usedRam\":5,\"temperature\":[]}"
    );
}

#[test]
fn node_payload_takes_a_missing_text_as_empty() {
    let node = NodeData::from_snapshot(7, snapshot(12.5, 1234, &[40.0, 41.5]));
    assert_eq!(
        node.serialize(&vec![String::from("12.5"), String::from("40")]),
        "{\"nodeId\":7,\"cores\":4,\"threads\":8,\"cpu\":12.5,\"totalRam\":16000000,\"usedRam\":1234,\"temperature\":[40, ]}"
    );
    assert_eq!(
        node.serialize(&Vec::new()),
        "{\"nodeId\":7,\"cores\":4,\"threads\":8,\"cpu\":,\"totalRam\":16000000,\"usedRam\":1234,\"temperature\":[, ]}"
    );
}

#[test]
fn new_process_record_has_usage_and_no_progress() {
    let rec = ProcData::create(42, 3, Some(ProcUsage { cpu: 1.5f32.to_bits(), ram: 2048 }));
    assert_eq!(rec.pid(), 42);
    assert_eq!(rec.node_id(), 3);
    assert_eq!(f32::from_bits(rec.cpu()), 1.5);
    assert_eq!(rec.ram(), 2048);
    assert_eq!(rec.progress(), 0);
    assert_eq!(rec.send_t(), 0);
    assert_eq!(rec.recv_t(), 0);
    assert_eq!(rec.delay_t(), 0);
    assert_eq!(rec.scatter_t(), 0);
}

#[test]
fn record_of_an_unknown_process_is_zero_but_for_the_pid() {
    let rec = ProcData::create(42, 3, None);
    assert_eq!(rec.pid(), 42);
    assert_eq!(rec.node_id(), 0);
    assert_eq!(rec.cpu(), 0);
    assert_eq!(rec.ram(), 0);
    assert_eq!(rec.progress(), 0);
    assert_eq!(rec.send_t(), 0);
    assert_eq!(rec.recv_t(), 0);
    assert_eq!(rec.delay_t(), 0);
    assert_eq!(rec.scatter_t(), 0);
}

#[test]
fn report_sets_progress_timings_and_usage() {
    let mut rec = ProcData::create(42, 3, Some(ProcUsage { cpu: 1.5f32.to_bits(), ram: 2048 }));
    rec.record(
        50.0f32.to_bits(),
        1.0f32.to_bits(),
        2.0f32.to_bits(),
        3.0f32.to_bits(),
        4.0f32.to_bits(),
        Some(ProcUsage { cpu: 9.0f32.to_bits(), ram: 4096 }),
    );
    assert_eq!(rec.pid(), 42);
    assert_eq!(rec.node_id(), 3);
    assert_eq!(f32::from_bits(rec.cpu()), 9.0);
    assert_eq!(rec.ram(), 4096);
    assert_eq!(f32::from_bits(rec.progress()), 50.0);
    assert_eq!(f32::from_bits(rec.send_t()), 1.0);
    assert_eq!(f32::from_bits(rec.recv_t()), 2.0);
    assert_eq!(f32::from_bits(rec.delay_t()), 3.0);
    assert_eq!(f32::from_bits(rec.scatter_t()), 4.0);
}

#[test]
fn report_of_a_process_that_is_gone_keeps_the_report() {
    let mut rec = ProcData::create(42, 3, Some(ProcUsage { cpu: 1.5f32.to_bits(), ram: 2048 }));
    rec.record(75.0f32.to_bits(), 1, 2, 3, 4, None);
    assert_eq!(rec.cpu(), 0);
    assert_eq!(rec.ram(), 0);
    assert_eq!(f32::from_bits(rec.progress()), 75.0);
    assert_eq!((rec.send_t(), rec.recv_t(), rec.delay_t(), rec.scatter_t()), (1, 2, 3, 4));
    assert_eq!(rec.pid(), 42);
    assert_eq!(rec.node_id(), 3);
}

#[test]
fn process_payload_names_every_field() {
    let mut rec = ProcData::create(-5, 3, Some(ProcUsage { cpu: 1.5f32.to_bits(), ram: 2048 }));
    rec.record(
        50.0f32.to_bits(),
        0.25f32.to_bits(),
        2.0f32.to_bits(),
        3.5f32.to_bits(),
        4.0f32.to_bits(),
        Some(ProcUsage { cpu: 9.75f32.to_bits(), ram: 4096 }),
    );
    let bits = rec.floats();
    assert_eq!(
        bits,
        vec![
            9.75f32.to_bits(),
            50.0f32.to_bits(),
            0.25f32.to_bits(),
            2.0f32.to_bits(),
            3.5f32.to_bits(),
            4.0f32.to_bits()
        ]
    );
    assert_eq!(
        rec.serialize(&decimal_texts(&bits)),
        "{\"pid\":-5,\"nodeId\":3,\"cpu\":9.75,\"ram\":4096,\"progress\":50,\"sendTime\":0.25,\"receiveTime\":2,\"delayTime\":3.5,\"scatterTime\":4}"
    );
}

#[test]
fn process_payload_takes_a_missing_text_as_empty() {
    let rec = ProcData::create(1, 2, None);
    assert_eq!(
        rec.serialize(&vec![String::from("a"), String::from("b")]),
        "{\"pid\":1,\"nodeId\":0,\"cpu\":a,\"ram\":0,\"progress\":b,\"sendTime\":,\"receiveTime\":,\"delayTime\":,\"scatterTime\":}"
    );
}

#[test]
fn status_message_frames_the_payload() {
    let rec = ProcData::create(42, 0, None);
    let texts = decimal_texts(&rec.floats());
    let text = rec.serialize(&texts);
    let frame = status_message(&rec, &texts);
    assert_eq!(&frame[..text.len()], text.as_bytes());
    assert!(frame[text.len()..].iter().all(|b| *b == 0));
    assert!(text.len() < 256);
}

#[test]
fn status_message_cuts_a_long_payload() {
    let temps: Vec<f32> = (0..80).map(|i| 30.0 + i as f32 * 0.25).collect();
    let node = NodeData::from_snapshot(1, snapshot(1.0, 2, &temps));
    let texts = decimal_texts(&node.floats());
    let text = node.serialize(&texts);
    assert!(text.len() > 256);
    let frame = status_message(&node, &texts);
    assert_eq!(&frame[..], &text.as_bytes()[..256]);
}

#[test]
fn request_url_appends_the_payload() {
    let rec = ProcData::create(42, 0, None);
    let texts = decimal_texts(&rec.floats());
    assert_eq!(
        request_url(&rec, &texts, "http://127.0.0.1/update"),
        format!("http://127.0.0.1/update{}", rec.serialize(&texts))
    );
}

#[test]
fn gather_keeps_the_processes_with_the_name() {
    let entry = |pid: i32, name: &str, cpu: f32, ram: u64| ProcessEntry {
        pid,
        name: String::from(name),
        usage: ProcUsage { cpu: cpu.to_bits(), ram },
    };
    let entries = vec![
        entry(10, "dwm", 1.0, 100),
        entry(11, "bash", 2.0, 200),
        entry(12, "dwm", 3.0, 300),
        entry(13, "dwm2", 4.0, 400),
        entry(14, "", 5.0, 500),
    ];
    let table = ProcData::gather(&entries, "dwm", 6);
    assert_eq!(table.len(), 2);
    let a = table.get(&10).unwrap();
    assert_eq!((a.pid(), a.node_id(), f32::from_bits(a.cpu()), a.ram(), a.progress()), (10, 6, 1.0, 100, 0));
    let b = table.get(&12).unwrap();
    assert_eq!((b.pid(), b.node_id(), f32::from_bits(b.cpu()), b.ram(), b.progress()), (12, 6, 3.0, 300, 0));
    assert!(ProcData::gather(&entries, "none", 6).is_empty());
    assert!(ProcData::gather(&Vec::new(), "dwm", 6).is_empty());
    assert_eq!(ProcData::gather(&entries, "", 6).len(), 1);
}

#[test]
fn gather_takes_the_later_of_two_entries_with_one_pid() {
    let entries = vec![
        ProcessEntry { pid: 10, name: String::from("dwm"), usage: ProcUsage { cpu: 1, ram: 100 } },
        ProcessEntry { pid: 10, name: String::from("dwm"), usage: ProcUsage { cpu: 2, ram: 200 } },
        ProcessEntry { pid: 10, name: String::from("other"), usage: ProcUsage { cpu: 3, ram: 300 } },
    ];
    let table = ProcData::gather(&entries, "dwm", 0);
    assert_eq!(table.len(), 1);
    assert_eq!(table.get(&10).unwrap().ram(), 200);
}
