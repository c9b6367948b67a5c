use monitor::config::{bind_address, Config};

#[test]
fn config_keeps_what_it_is_given() {
    let cfg = Config::new(String::from("127.0.0.1"), 49152, 49153, String::from("test_client"));
    assert_eq!(cfg.ip(), "127.0.0.1");
    assert_eq!(cfg.cluster_port(), 49152);
    assert_eq!(cfg.file_transfer_port(), 49153);
    assert_eq!(cfg.proc_name(), "test_client");
}

#[test]
fn config_checks_nothing() {
    let cfg = Config::new(String::new(), 0, usize::MAX, String::new());
    assert_eq!(cfg.ip(), "");
    assert_eq!(cfg.cluster_port(), 0);
    assert_eq!(cfg.file_transfer_port(), usize::MAX);
    assert_eq!(cfg.proc_name(), "");
}

#[test]
fn addresses_join_ip_and_port() {
    let cfg = Config::new(String::from("10.0.0.7"), 49152, 49153, String::from("dwm"));
    assert_eq!(cfg.cluster_address(), "10.0.0.7:49152");
    assert_eq!(cfg.file_transfer_address(), "10.0.0.7:49153");
    assert_eq!(bind_address("localhost", 0), "localhost:0");
    assert_eq!(bind_address("", 65535), ":65535");
    assert_eq!(bind_address("::1", 80), "::1:80");
}
