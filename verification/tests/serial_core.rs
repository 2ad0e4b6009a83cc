use serial_bridge::classify::is_virtual_port;
use serial_bridge::discovery::ScanStrategy;
use serial_bridge::discovery::list_serial_ports;
use serial_bridge::discovery::merge_port_lists;
use serial_bridge::discovery::scan_candidates;
use serial_bridge::lines::LineBuffer;
use serial_bridge::lines::trimmed_line;
use serial_bridge::reader::ReaderMachine;
use serial_bridge::reader::SerialEvent;
use serial_bridge::session::ReaderVariant;
use serial_bridge::session::SerialConfig;
use serial_bridge::session::SerialState;
use serial_bridge::session::connect_serial;
use serial_bridge::session::disconnect_serial;

fn lines_as_strings(lines: Vec<Vec<u8>>) -> Vec<String> {
    lines
        .into_iter()
        .map(|l| String::from_utf8(l).unwrap())
        .collect()
}

fn data_payloads(evs: Vec<SerialEvent>) -> Vec<String> {
    evs.into_iter()
        .map(|e| match e {
            SerialEvent::Data(l) => String::from_utf8(l).unwrap(),
            _ => panic!("expected a data event"),
        })
        .collect()
}

#[test]
fn classifier_marks_pseudo_terminals() {
    assert!(is_virtual_port("/dev/pts/3"));
    assert!(is_virtual_port("/dev/ttys009"));
    assert!(is_virtual_port("/dev/ptyp5"));
    assert!(!is_virtual_port("/dev/cu.usbserial-1234"));
    assert!(!is_virtual_port("/dev/ttyUSB0"));
    assert!(!is_virtual_port(""));
    assert!(!is_virtual_port("/dev/fake0"));
}

#[test]
fn classifier_is_stable() {
    for path in ["/dev/pts/0", "/dev/ttyACM0", "ptyp", "/ptyp"] {
        let first = is_virtual_port(path);
        let second = is_virtual_port(path);
        assert_eq!(first, second);
    }
}

#[test]
fn line_buffer_splits_whole_stream() {
    let mut buf = LineBuffer::new();
    let lines = buf.push_chunk(b"A\nB\n\nC");
    assert_eq!(lines_as_strings(lines), vec!["A", "B"]);
    // The trailing partial line stays pending until a newline arrives.
    let lines = buf.push_chunk(b"\n");
    assert_eq!(lines_as_strings(lines), vec!["C"]);
}

#[test]
fn line_buffer_is_chunking_independent() {
    let stream = b"A\nB\n\nC";
    for cut1 in 0..stream.len() {
        for cut2 in cut1..stream.len() {
            let mut buf = LineBuffer::new();
            let mut got: Vec<String> = Vec::new();
            got.extend(lines_as_strings(buf.push_chunk(&stream[..cut1])));
            got.extend(lines_as_strings(buf.push_chunk(&stream[cut1..cut2])));
            got.extend(lines_as_strings(buf.push_chunk(&stream[cut2..])));
            assert_eq!(got, vec!["A", "B"]);
        }
    }
}

#[test]
fn line_buffer_drops_whitespace_only_lines() {
    let mut buf = LineBuffer::new();
    let lines = buf.push_chunk(b"  \t \r\nreal\n \n");
    assert_eq!(lines_as_strings(lines), vec!["real"]);
}

#[test]
fn trimming_strips_surrounding_whitespace() {
    assert_eq!(trimmed_line(b"  hello \r"), b"hello".to_vec());
    assert_eq!(trimmed_line(b"hello"), b"hello".to_vec());
    assert_eq!(trimmed_line(b"   \t\r\n"), Vec::<u8>::new());
    assert_eq!(trimmed_line(b""), Vec::<u8>::new());
}

#[test]
fn reader_emits_trimmed_virtual_lines() {
    let mut m = ReaderMachine::new();
    m.on_open_ok();
    let evs = m.on_line(b"  hello \r");
    assert_eq!(data_payloads(evs), vec!["hello"]);
    let evs = m.on_line(b"   \r\n");
    assert!(evs.is_empty());
}

#[test]
fn reader_stops_on_cleared_flag_with_one_disconnect() {
    let mut m = ReaderMachine::new();
    m.on_open_ok();
    let evs = m.poll_flag(true);
    assert!(evs.is_empty());
    let evs = m.poll_flag(false);
    assert_eq!(evs.len(), 1);
    assert!(matches!(evs[0], SerialEvent::Disconnected));
}

#[test]
fn reader_open_failure_emits_error_only() {
    let mut m = ReaderMachine::new();
    let evs = m.on_open_err("cannot open device".to_string());
    assert_eq!(evs.len(), 1);
    match &evs[0] {
        SerialEvent::Error(msg) => assert_eq!(msg, "cannot open device"),
        _ => panic!("expected an error event"),
    }
}

#[test]
fn reader_fatal_read_error_emits_error_then_disconnect() {
    let mut m = ReaderMachine::new();
    m.on_open_ok();
    let evs = m.on_read_error("read failed".to_string(), false);
    assert_eq!(evs.len(), 2);
    assert!(matches!(&evs[0], SerialEvent::Error(m) if m == "read failed"));
    assert!(matches!(evs[1], SerialEvent::Disconnected));
}

#[test]
fn reader_timeout_is_transient() {
    let mut m = ReaderMachine::new();
    m.on_open_ok();
    let evs = m.on_read_error("timed out".to_string(), true);
    assert!(evs.is_empty());
    // Still reading: data keeps flowing afterwards.
    let evs = m.on_chunk(b"x\n");
    assert_eq!(data_payloads(evs), vec!["x"]);
}

#[test]
fn reader_idle_keeps_reading_and_emits_nothing() {
    let mut m = ReaderMachine::new();
    m.on_open_ok();
    let evs = m.on_chunk(b"partial");
    assert!(evs.is_empty());
    let evs = m.on_idle();
    assert!(evs.is_empty());
    // The pending text survives the idle step.
    let evs = m.on_chunk(b" line\n");
    assert_eq!(data_payloads(evs), vec!["partial line"]);
}

#[test]
fn reader_chunks_keep_partial_lines() {
    let mut m = ReaderMachine::new();
    m.on_open_ok();
    let mut got: Vec<String> = Vec::new();
    got.extend(data_payloads(m.on_chunk(b"A\nB")));
    got.extend(data_payloads(m.on_chunk(b"\n\nC")));
    assert_eq!(got, vec!["A", "B"]);
    got.extend(data_payloads(m.on_chunk(b"\n")));
    assert_eq!(got, vec!["A", "B", "C"]);
}

#[test]
fn reader_does_not_flush_partial_line_on_stop() {
    let mut m = ReaderMachine::new();
    m.on_open_ok();
    let evs = m.on_chunk(b"A\nB\n\nC");
    assert_eq!(data_payloads(evs), vec!["A", "B"]);
    // The session ends: only the disconnect marker, never the pending "C".
    let evs = m.poll_flag(false);
    assert_eq!(evs.len(), 1);
    assert!(matches!(evs[0], SerialEvent::Disconnected));
}

#[test]
fn merge_is_sorted_and_deduplicated() {
    let hw = vec![
        "/dev/ttyUSB1".to_string(),
        "/dev/ttyUSB0".to_string(),
        "/dev/ttyUSB1".to_string(),
    ];
    let scanned = vec![
        "/dev/pts/2".to_string(),
        "/dev/ttyUSB0".to_string(),
        "/dev/pts/1".to_string(),
    ];
    let merged = merge_port_lists(&hw, &scanned);
    assert_eq!(
        merged,
        vec![
            "/dev/pts/1".to_string(),
            "/dev/pts/2".to_string(),
            "/dev/ttyUSB0".to_string(),
            "/dev/ttyUSB1".to_string(),
        ]
    );
}

#[test]
fn merge_with_empty_hardware_source() {
    let hw: Vec<String> = Vec::new();
    let scanned = vec!["/dev/pts/5".to_string(), "/dev/pts/0".to_string()];
    let merged = merge_port_lists(&hw, &scanned);
    assert_eq!(merged, vec!["/dev/pts/0".to_string(), "/dev/pts/5".to_string()]);
}

#[test]
fn discovery_swallows_hardware_errors() {
    let scanned = vec![
        "/dev/pts/9".to_string(),
        "/dev/pts/1".to_string(),
        "/dev/pts/9".to_string(),
    ];
    let ports = list_serial_ports(Err("enumeration failed".to_string()), &scanned).unwrap();
    assert_eq!(ports, vec!["/dev/pts/1".to_string(), "/dev/pts/9".to_string()]);
}

#[test]
fn discovery_merges_both_sources_sorted() {
    let hw = Ok(vec!["/dev/ttyUSB0".to_string(), "/dev/pts/1".to_string()]);
    let scanned = vec!["/dev/pts/2".to_string(), "/dev/pts/1".to_string()];
    let ports = list_serial_ports(hw, &scanned).unwrap();
    assert_eq!(
        ports,
        vec![
            "/dev/pts/1".to_string(),
            "/dev/pts/2".to_string(),
            "/dev/ttyUSB0".to_string(),
        ]
    );
}

#[test]
fn mac_scan_keeps_allow_listed_prefixes() {
    let names = vec![
        "ttys001".to_string(),
        "cu.usbserial".to_string(),
        "ptyp3".to_string(),
        "null".to_string(),
        "ttyp0".to_string(),
    ];
    let candidates = scan_candidates(&ScanStrategy::MacScan, &names);
    assert_eq!(
        candidates,
        vec!["/dev/ttys001".to_string(), "/dev/ptyp3".to_string()]
    );
}

#[test]
fn linux_scan_excludes_control_and_dot_entries() {
    let names = vec![
        "0".to_string(),
        "ptmx".to_string(),
        ".".to_string(),
        "..".to_string(),
        "17".to_string(),
    ];
    let candidates = scan_candidates(&ScanStrategy::LinuxScan, &names);
    assert_eq!(
        candidates,
        vec!["/dev/pts/0".to_string(), "/dev/pts/17".to_string()]
    );
}

#[test]
fn no_scan_keeps_nothing() {
    let names = vec!["ttys001".to_string(), "0".to_string()];
    assert!(scan_candidates(&ScanStrategy::NoScan, &names).is_empty());
}

#[test]
fn connect_picks_variant_by_classifier() {
    let mut state = SerialState::default();
    let virt = SerialConfig { path: "/dev/pts/4".to_string(), baud_rate: 115200 };
    let plan = connect_serial(&mut state, &virt);
    assert!(state.running);
    assert_eq!(plan.message, "连接成功");
    assert!(matches!(plan.variant, ReaderVariant::VirtualPort));

    let real = SerialConfig { path: "/dev/fake0".to_string(), baud_rate: 115200 };
    let plan = connect_serial(&mut state, &real);
    assert!(matches!(plan.variant, ReaderVariant::RealPort));
}

#[test]
fn disconnect_is_idempotent() {
    let mut state = SerialState::default();
    assert!(!state.running);
    let msg = disconnect_serial(&mut state);
    assert_eq!(msg, "断开连接");
    assert!(!state.running);
    // After a session, disconnect clears the flag; a second call changes nothing.
    let cfg = SerialConfig { path: "/dev/pts/7".to_string(), baud_rate: 9600 };
    connect_serial(&mut state, &cfg);
    assert!(state.running);
    disconnect_serial(&mut state);
    assert!(!state.running);
    disconnect_serial(&mut state);
    assert!(!state.running);
}
