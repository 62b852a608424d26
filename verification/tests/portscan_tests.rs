use lantern::portscan::{
    count_open, default_ports, parse_ports_spec, port_state, well_known_service, ConnectOutcome,
    PortState,
};

#[test]
fn parses_lists_and_ranges() {
    assert_eq!(parse_ports_spec("80").unwrap(), vec![80]);
    assert_eq!(parse_ports_spec("22,80,443").unwrap(), vec![22, 80, 443]);
    assert_eq!(
        parse_ports_spec("8000-8002").unwrap(),
        vec![8000, 8001, 8002]
    );
    assert_eq!(
        parse_ports_spec("22, 8000-8001, 443").unwrap(),
        vec![22, 443, 8000, 8001]
    );
}

#[test]
fn empty_spec_uses_defaults() {
    let ports = parse_ports_spec("").unwrap();
    assert!(ports.contains(&22));
    assert!(ports.contains(&80));
    assert!(ports.contains(&443));
}

#[test]
fn rejects_invalid_ranges() {
    assert!(parse_ports_spec("10-1").is_err());
    assert!(parse_ports_spec("abc").is_err());
    assert!(parse_ports_spec("0").is_err());
}

#[test]
fn port_spec_error_messages() {
    assert_eq!(
        parse_ports_spec("10-1").unwrap_err(),
        "Invalid port range '10-1' (end < start)"
    );
    assert_eq!(parse_ports_spec("abc").unwrap_err(), "Invalid port 'abc'");
    assert_eq!(parse_ports_spec("0").unwrap_err(), "Port 0 is not allowed");
    assert_eq!(parse_ports_spec("0-5").unwrap_err(), "Port 0 is not allowed");
    assert_eq!(
        parse_ports_spec("x-5").unwrap_err(),
        "Invalid port range start in 'x-5'"
    );
    assert_eq!(
        parse_ports_spec("5-70000").unwrap_err(),
        "Invalid port range end in '5-70000'"
    );
    assert_eq!(
        parse_ports_spec("1-513").unwrap_err(),
        "Port range '1-513' is too large (max 512 ports per range)"
    );
    assert_eq!(parse_ports_spec(" , ;").unwrap_err(), "No ports to scan");
    assert_eq!(
        parse_ports_spec("1-512,1000-1511,2000-2101").unwrap_err(),
        "Too many ports (1126). Maximum is 1024."
    );
}

#[test]
fn ports_are_sorted_and_deduplicated() {
    assert_eq!(
        parse_ports_spec("443;80 80,22-23 23").unwrap(),
        vec![22, 23, 80, 443]
    );
    assert_eq!(parse_ports_spec("1-512,500-1011,1000-1024").unwrap().len(), 1024);
}

#[test]
fn default_ports_are_the_top_services() {
    let d = default_ports();
    assert_eq!(d.len(), 25);
    assert_eq!(d[0], 21);
    assert_eq!(d[24], 9100);
    assert_eq!(parse_ports_spec("   ").unwrap(), d);
}

#[test]
fn well_known_services() {
    assert_eq!(well_known_service(22), Some("ssh"));
    assert_eq!(well_known_service(445), Some("smb"));
    assert_eq!(well_known_service(9100), Some("jetdirect"));
    assert_eq!(well_known_service(12345), None);
}

#[test]
fn connect_outcomes_classify_ports() {
    assert_eq!(port_state(ConnectOutcome::Connected), PortState::Open);
    assert_eq!(port_state(ConnectOutcome::Refused), PortState::Closed);
    assert_eq!(port_state(ConnectOutcome::OtherError), PortState::Filtered);
    assert_eq!(port_state(ConnectOutcome::TimedOut), PortState::Filtered);
    let states = [PortState::Open, PortState::Closed, PortState::Open, PortState::Filtered];
    assert_eq!(count_open(&states), 2);
}
