use armada_lib::args::{
    get_listening_port, get_ports, get_rate_limit, get_retries, get_timeout, parse_port,
    parse_port_range, streaming_allowed, PortSpecError,
};

fn strings(texts: &[&str]) -> Vec<String> {
    texts.iter().map(|text| text.to_string()).collect()
}

#[test]
fn ports_are_decimal_numbers_up_to_65535() {
    assert_eq!(parse_port(b"0"), Ok(0));
    assert_eq!(parse_port(b"80"), Ok(80));
    assert_eq!(parse_port(b"00443"), Ok(443));
    assert_eq!(parse_port(b"65535"), Ok(65535));
    assert_eq!(parse_port(b"65536"), Err(PortSpecError::TooLarge));
    assert_eq!(parse_port(b"99999999999999999999999"), Err(PortSpecError::TooLarge));
    assert_eq!(parse_port(b""), Err(PortSpecError::Malformed));
    assert_eq!(parse_port(b"+80"), Err(PortSpecError::Malformed));
    assert_eq!(parse_port(b"8 0"), Err(PortSpecError::Malformed));
    assert_eq!(parse_port(b"99999x"), Err(PortSpecError::Malformed));
    assert_eq!(parse_port("٣".as_bytes()), Err(PortSpecError::Malformed));
}

#[test]
fn port_ranges_are_a_port_or_two_with_a_dash() {
    assert_eq!(parse_port_range(b"22"), Ok((22, 22)));
    assert_eq!(parse_port_range(b"1-1000"), Ok((1, 1000)));
    assert_eq!(parse_port_range(b"0-65535"), Ok((0, 65535)));
    assert_eq!(parse_port_range(b"7-7"), Ok((7, 7)));
    assert_eq!(parse_port_range(b"9-8"), Err(PortSpecError::Reversed));
    assert_eq!(parse_port_range(b"1-"), Err(PortSpecError::Malformed));
    assert_eq!(parse_port_range(b"-1"), Err(PortSpecError::Malformed));
    assert_eq!(parse_port_range(b"-"), Err(PortSpecError::Malformed));
    assert_eq!(parse_port_range(b"1-2-3"), Err(PortSpecError::Malformed));
    assert_eq!(parse_port_range(b"1--2"), Err(PortSpecError::Malformed));
    assert_eq!(parse_port_range(b"80\n"), Err(PortSpecError::Malformed));
    assert_eq!(parse_port_range(b"1-65536"), Err(PortSpecError::TooLarge));
    assert_eq!(parse_port_range(b"65536-1"), Err(PortSpecError::TooLarge));
    assert_eq!(parse_port_range(b"x-65536"), Err(PortSpecError::Malformed));
}

#[test]
fn port_lists_become_port_sequences() {
    let mut ports = get_ports(&strings(&["80", "443", "8000-8002"])).unwrap();
    assert_eq!(ports.size(), 5);
    let mut all = Vec::new();
    while let Some(port) = ports.next() {
        all.push(port);
    }
    assert_eq!(all, vec![80, 443, 8000, 8001, 8002]);
    assert_eq!(get_ports(&strings(&[])).unwrap().size(), 0);
}

#[test]
fn the_first_bad_port_decides_the_error() {
    assert_eq!(
        get_ports(&strings(&["80", "http", "70000"])).err(),
        Some(PortSpecError::Malformed)
    );
    assert_eq!(
        get_ports(&strings(&["80", "70000", "http"])).err(),
        Some(PortSpecError::TooLarge)
    );
    assert_eq!(get_ports(&strings(&["5-4"])).err(), Some(PortSpecError::Reversed));
}

#[test]
fn rate_limit_choices() {
    assert_eq!(get_rate_limit(None, false), Some(10_000));
    assert_eq!(get_rate_limit(Some(0), false), None);
    assert_eq!(get_rate_limit(Some(250), false), Some(250));
    assert_eq!(get_rate_limit(Some(250), true), None);
    assert_eq!(get_rate_limit(None, true), None);
}

#[test]
fn retry_choices() {
    assert_eq!(get_retries(None, false), 2);
    assert_eq!(get_retries(None, true), 0);
    assert_eq!(get_retries(Some(5), false), 5);
    assert_eq!(get_retries(Some(5), true), 5);
    assert_eq!(get_retries(Some(0), false), 0);
}

#[test]
fn timeout_choices() {
    assert_eq!(get_timeout(None), 1_000);
    assert_eq!(get_timeout(Some(0)), 0);
    assert_eq!(get_timeout(Some(75)), 75);
}

#[test]
fn listening_port_choices() {
    assert_eq!(get_listening_port(Some(1234)), 1234);
    let mut picked = Vec::new();
    for _ in 0..200 {
        let port = get_listening_port(None);
        assert!(port >= 50_000 && port < 60_000);
        if !picked.contains(&port) {
            picked.push(port);
        }
    }
    assert!(picked.len() > 1);
}

#[test]
fn streaming_needs_quiet_mode_or_a_pipe() {
    assert!(streaming_allowed(true, true));
    assert!(streaming_allowed(true, false));
    assert!(streaming_allowed(false, false));
    assert!(!streaming_allowed(false, true));
}
