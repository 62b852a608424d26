use lantern::neighbors::normalize_mac;
use lantern::wol::{mac_bytes, magic_packet, plan_wake, wake_result};

#[test]
fn magic_packet_layout() {
    let mac = [0x01, 0x23, 0x45, 0x67, 0x89, 0xab];
    let pkt = magic_packet(&mac);
    assert!(pkt[..6].iter().all(|b| *b == 0xff));
    assert_eq!(&pkt[6..12], &mac);
    assert_eq!(&pkt[96..102], &mac);
    assert_eq!(pkt.len(), 102);
}

#[test]
fn rejects_bad_mac() {
    assert!(normalize_mac("zz:zz:zz:zz:zz:zz").is_none());
}

#[test]
fn mac_bytes_reads_normalized_text() {
    let normalized = normalize_mac("01-23-45-67-89-ab").unwrap();
    let bytes = mac_bytes(&normalized).unwrap();
    assert_eq!(bytes, [0x01, 0x23, 0x45, 0x67, 0x89, 0xab]);
    let printed: Vec<String> = bytes.iter().map(|b| format!("{b:02X}")).collect();
    assert_eq!(printed.join(":"), normalized);
}

#[test]
fn mac_bytes_names_the_bad_octet() {
    assert_eq!(
        mac_bytes("01:zz:45:67:89:ab").unwrap_err(),
        "Invalid MAC octet 'zz': invalid digit found in string"
    );
    assert_eq!(
        mac_bytes("01::45").unwrap_err(),
        "Invalid MAC octet '': cannot parse integer from empty string"
    );
    assert_eq!(
        mac_bytes("100:01").unwrap_err(),
        "Invalid MAC octet '100': number too large to fit in target type"
    );
    assert_eq!(mac_bytes("+A:b"), Ok([0x0a, 0x0b, 0, 0, 0, 0]));
}

#[test]
fn wake_plan_defaults_to_limited_broadcast() {
    let plan = plan_wake("01-23-45-67-89-ab", None).unwrap();
    assert_eq!(plan.mac, "01:23:45:67:89:AB");
    assert_eq!(plan.broadcast, 0xFFFF_FFFF);
    assert_eq!(plan.packet.len(), 102);
    assert_eq!(&plan.packet[6..12], &[0x01, 0x23, 0x45, 0x67, 0x89, 0xab]);
    let blank = plan_wake("01-23-45-67-89-ab", Some("   ")).unwrap();
    assert_eq!(blank.broadcast, 0xFFFF_FFFF);
}

#[test]
fn wake_plan_uses_given_broadcast() {
    let plan = plan_wake("0123456789ab", Some(" 192.168.1.255 ")).unwrap();
    assert_eq!(plan.broadcast, 0xC0A8_01FF);
    let report = wake_result(&plan);
    assert!(report.success);
    assert_eq!(report.broadcast, "192.168.1.255");
    assert_eq!(
        report.message,
        "Magic packet sent to 01:23:45:67:89:AB via 192.168.1.255"
    );
}

#[test]
fn wake_plan_errors() {
    assert_eq!(
        plan_wake("zz:zz:zz:zz:zz:zz", None).unwrap_err(),
        "Invalid MAC address: zz:zz:zz:zz:zz:zz"
    );
    assert_eq!(
        plan_wake("01:23:45:67:89:ab", Some("192.168.1")).unwrap_err(),
        "Invalid broadcast address 192.168.1: invalid IPv4 address syntax"
    );
}
