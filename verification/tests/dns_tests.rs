use lantern::dns::{
    check_query_host, check_reverse_target, clean_reverse_name, normalize_server,
    parse_record_type, ptr_answer, record_type_name, server_label, RecordKind,
};
use lantern::ipv4::ipv4_from_octets;

#[test]
fn parses_supported_record_types() {
    assert_eq!(parse_record_type("a").unwrap(), RecordKind::A);
    assert_eq!(parse_record_type("AAAA").unwrap(), RecordKind::Aaaa);
    assert_eq!(parse_record_type("Mx").unwrap(), RecordKind::Mx);
    assert!(parse_record_type("SOA").is_err());
}

#[test]
fn unsupported_record_type_message() {
    assert_eq!(
        parse_record_type(" soa ").unwrap_err(),
        "Unsupported record type 'SOA'. Use A, AAAA, CNAME, TXT, MX, NS, or PTR."
    );
}

#[test]
fn record_type_names_round_trip() {
    for name in ["A", "AAAA", "CNAME", "TXT", "MX", "NS", "PTR"] {
        let kind = parse_record_type(name).unwrap();
        assert_eq!(record_type_name(kind), name);
    }
    assert_eq!(parse_record_type(" ptr ").unwrap(), RecordKind::Ptr);
}

#[test]
fn normalizes_system_server() {
    assert_eq!(normalize_server(None), None);
    assert_eq!(normalize_server(Some("")), None);
    assert_eq!(normalize_server(Some("system")), None);
    assert_eq!(normalize_server(Some("1.1.1.1")), Some("1.1.1.1".into()));
}

#[test]
fn server_label_defaults_to_system() {
    assert_eq!(server_label(None), "system");
    assert_eq!(server_label(Some("  SYSTEM ")), "system");
    assert_eq!(server_label(Some(" 9.9.9.9 ")), "9.9.9.9");
}

#[test]
fn query_host_is_trimmed_and_required() {
    assert_eq!(check_query_host("  example.com ").unwrap(), "example.com");
    assert_eq!(check_query_host("   ").unwrap_err(), "Hostname is required");
}

#[test]
fn reverse_target_must_be_an_address() {
    assert_eq!(check_reverse_target(" 10.0.0.1 ").unwrap(), "10.0.0.1");
    assert_eq!(check_reverse_target("fe80::1").unwrap(), "fe80::1");
    assert_eq!(
        check_reverse_target("router").unwrap_err(),
        "Invalid IP address router: invalid IP address syntax"
    );
}

#[test]
fn ptr_answers_lose_trailing_dots() {
    assert_eq!(ptr_answer("host.lan.").as_deref(), Some("host.lan"));
    assert_eq!(ptr_answer("..."), None);
}

#[test]
fn reverse_name_equal_to_address_is_dropped() {
    let ip = ipv4_from_octets(192, 168, 1, 7);
    assert_eq!(clean_reverse_name("printer.lan.", ip).as_deref(), Some("printer.lan"));
    assert_eq!(clean_reverse_name("192.168.1.7", ip), None);
    assert_eq!(clean_reverse_name("", ip), None);
}
