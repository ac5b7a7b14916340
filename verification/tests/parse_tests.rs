use sofa_registry::model::{ConnectId, ProcessId};
use sofa_registry::parse::{find_first, find_last, parse_connect_id, parse_i32, parse_i64, parse_process_id, parse_u16};

const SAMPLES: &[&str] = &[
    "", "+", "-", "0", "00", "7", "+7", "-7", "-0", "65535", "65536", "+65535", "99999999999",
    "2147483647", "2147483648", "-2147483648", "-2147483649", "9223372036854775807",
    "9223372036854775808", "-9223372036854775808", "-9223372036854775809",
    "18446744073709551616", "123456789012345678901234567890", "1a", " 1", "1 ", "++1", "+-1",
    "--1", "0x10", "１",
];

#[test]
fn integers_parse_like_std() {
    for s in SAMPLES {
        assert_eq!(parse_u16(s), s.parse::<u16>().ok(), "u16 {:?}", s);
        assert_eq!(parse_i32(s), s.parse::<i32>().ok(), "i32 {:?}", s);
        assert_eq!(parse_i64(s), s.parse::<i64>().ok(), "i64 {:?}", s);
    }
}

#[test]
fn find_positions() {
    assert_eq!(find_first("a-b-c", '-'), Some(1));
    assert_eq!(find_last("a-b-c", '-'), Some(3));
    assert_eq!(find_first("abc", '-'), None);
    assert_eq!(find_last("", ':'), None);
    assert_eq!(find_first("é-x", '-'), Some(1));
}

#[test]
fn connect_id_parses_both_ends() {
    let c = parse_connect_id("10.0.0.1:12345-10.0.0.100:9600");
    assert_eq!(c.client_host_address, "10.0.0.1");
    assert_eq!(c.client_port, 12345);
    assert_eq!(c.session_host_address, "10.0.0.100");
    assert_eq!(c.session_port, 9600);
}

#[test]
fn connect_id_round_trips_through_text() {
    let c = ConnectId::new("::1", 80, "host-with-dash", 65535);
    let back = parse_connect_id(&c.to_string());
    assert_eq!(back.to_string(), c.to_string());
    assert_eq!(back.client_host_address, "::1");
    assert_eq!(back.session_host_address, "host-with-dash");
    assert_eq!(back.session_port, 65535);
}

#[test]
fn connect_id_bad_ports_are_zero() {
    let c = parse_connect_id("a:x-b:70000");
    assert_eq!(c.client_host_address, "a");
    assert_eq!(c.client_port, 0);
    assert_eq!(c.session_host_address, "b");
    assert_eq!(c.session_port, 0);
}

#[test]
fn connect_id_of_other_shape_is_all_client_host() {
    for s in ["plain", "a-b", "a:1-b", "nonexistent:0"] {
        let c = parse_connect_id(s);
        assert_eq!(c.client_host_address, s);
        assert_eq!(c.client_port, 0);
        assert_eq!(c.session_host_address, "");
        assert_eq!(c.session_port, 0);
    }
}

#[test]
fn process_id_parses_three_parts() {
    let p = parse_process_id("10.0.0.1-1000-1");
    assert_eq!(p.host_address, "10.0.0.1");
    assert_eq!(p.timestamp, 1000);
    assert_eq!(p.sequence, 1);
    let q = parse_process_id("h-5--3");
    assert_eq!(q.timestamp, 5);
    assert_eq!(q.sequence, -3);
    let r = parse_process_id("h-x-y-z");
    assert_eq!(r.host_address, "h");
    assert_eq!(r.timestamp, 0);
    assert_eq!(r.sequence, 0);
}

#[test]
fn process_id_with_fewer_parts_is_all_host() {
    for s in ["host", "host-1", ""] {
        let p = parse_process_id(s);
        assert_eq!(p.host_address, s);
        assert_eq!(p.timestamp, 0);
        assert_eq!(p.sequence, 0);
    }
}

#[test]
fn process_id_round_trips_through_text() {
    let p = ProcessId::new("10.0.0.9", 1_700_000_000_000, -42);
    let back = parse_process_id(&p.to_string());
    assert_eq!(back.host_address, "10.0.0.9");
    assert_eq!(back.timestamp, 1_700_000_000_000);
    assert_eq!(back.sequence, -42);
}
