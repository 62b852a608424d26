use lantern::dhcp::{
    build_discover, magic_cookie_bytes, parse_offer, privilege_note, DiscoverSession, BOOTREPLY,
    BOOTREQUEST, DHCPDISCOVER, DHCPNAK, DHCPOFFER, OPT_DNS, OPT_DOMAIN, OPT_END, OPT_LEASE_TIME,
    OPT_MESSAGE_TYPE, OPT_ROUTER, OPT_SERVER_ID, OPT_SUBNET_MASK, PRIVILEGE_NOTE,
};

#[test]
fn builds_discover_with_magic_cookie_and_type() {
    let pkt = build_discover(0x01020304, &[0xaa, 0xbb, 0xcc, 0xdd, 0xee, 0xff]);
    assert_eq!(pkt[0], BOOTREQUEST);
    assert_eq!(&pkt[4..8], &[1, 2, 3, 4]);
    assert_eq!(&pkt[28..34], &[0xaa, 0xbb, 0xcc, 0xdd, 0xee, 0xff]);
    assert_eq!(&pkt[236..240], &magic_cookie_bytes());
    assert!(pkt
        .windows(3)
        .any(|w| w == [OPT_MESSAGE_TYPE, 1, DHCPDISCOVER]));
}

fn offer_packet(xid: u32, kind: u8) -> Vec<u8> {
    let mut pkt = build_discover(xid, &[1, 2, 3, 4, 5, 6]);
    pkt[0] = BOOTREPLY;
    pkt[16..20].copy_from_slice(&[192, 168, 1, 50]);
    pkt[20..24].copy_from_slice(&[192, 168, 1, 1]);
    pkt.truncate(240);
    pkt.extend_from_slice(&[OPT_MESSAGE_TYPE, 1, kind]);
    pkt.extend_from_slice(&[OPT_SERVER_ID, 4, 192, 168, 1, 1]);
    pkt.extend_from_slice(&[OPT_LEASE_TIME, 4, 0, 0, 0x0e, 0x10]);
    pkt.extend_from_slice(&[OPT_ROUTER, 4, 192, 168, 1, 1]);
    pkt.extend_from_slice(&[OPT_DNS, 4, 1, 1, 1, 1]);
    pkt.push(OPT_END);
    pkt
}

#[test]
fn parses_minimal_offer() {
    let xid = 0x11223344u32;
    let pkt = offer_packet(xid, DHCPOFFER);
    let offer = parse_offer(&pkt, xid, 12_000_000).unwrap();
    assert_eq!(offer.message_type, "OFFER");
    assert_eq!(offer.offered_ip, "192.168.1.50");
    assert_eq!(offer.server_ip.as_deref(), Some("192.168.1.1"));
    assert_eq!(offer.lease_seconds, Some(3600));
    assert_eq!(offer.gateway.as_deref(), Some("192.168.1.1"));
    assert_eq!(offer.dns_servers, vec!["1.1.1.1".to_string()]);
    assert_eq!(offer.elapsed_ns, 12_000_000);
}

#[test]
fn offer_for_another_transaction_is_ignored() {
    let pkt = offer_packet(0x11223344, DHCPOFFER);
    assert!(parse_offer(&pkt, 0x55667788, 0).is_none());
}

#[test]
fn request_packets_are_not_offers() {
    let pkt = build_discover(7, &[1, 2, 3, 4, 5, 6]);
    assert!(parse_offer(&pkt, 7, 0).is_none());
}

#[test]
fn short_datagram_is_not_an_offer() {
    assert!(parse_offer(&[2u8; 100], 0x02020202, 0).is_none());
}

#[test]
fn session_keeps_offers_and_reports_success() {
    let (mut session, discover) = DiscoverSession::start(Some([1, 2, 3, 4, 5, 6]));
    assert_eq!(discover[0], BOOTREQUEST);
    assert_eq!(&discover[28..34], &[1, 2, 3, 4, 5, 6]);
    let xid = session.xid;
    assert_eq!(&discover[4..8], &xid.to_be_bytes());
    session.on_reply(&offer_packet(xid, DHCPOFFER), 5);
    session.on_reply(&offer_packet(xid ^ 1, DHCPOFFER), 6);
    assert_eq!(session.offers.len(), 1);
    let result = session.finish(4000);
    assert!(result.success);
    assert_eq!(result.offers.len(), 1);
    assert_eq!(result.timeout_ms, 4000);
    assert!(result.error.is_none());
    assert_eq!(result.privilege_note, PRIVILEGE_NOTE);
}

#[test]
fn session_without_mac_uses_fallback_address() {
    let (_, discover) = DiscoverSession::start(None);
    assert_eq!(&discover[28..34], &[0x02, 0, 0, 0, 0, 1]);
}

#[test]
fn session_reports_nak() {
    let (mut session, _) = DiscoverSession::start(None);
    let xid = session.xid;
    session.on_reply(&offer_packet(xid, DHCPNAK), 1);
    assert!(session.saw_nak);
    let result = session.finish(1000);
    assert!(!result.success);
    assert_eq!(
        result.error.as_deref(),
        Some("DHCP server responded with NAK (no offer).")
    );
}

#[test]
fn session_reports_timeout() {
    let (session, _) = DiscoverSession::start(None);
    let result = session.finish(250);
    assert!(!result.success);
    assert_eq!(
        result.error.as_deref(),
        Some("No DHCP offer received before timeout.")
    );
}

#[test]
fn session_reports_failure() {
    let (session, _) = DiscoverSession::start(None);
    let result = session.fail(300, "bind failed".to_string());
    assert!(!result.success);
    assert!(result.offers.is_empty());
    assert_eq!(result.error.as_deref(), Some("bind failed"));
}

#[test]
fn privilege_note_mentions_port_68() {
    let note = privilege_note();
    assert_eq!(note, PRIVILEGE_NOTE);
    assert!(note.contains("port 68"));
}

fn offer_with_options(xid: u32, options: &[u8]) -> Vec<u8> {
    let mut pkt = build_discover(xid, &[1, 2, 3, 4, 5, 6]);
    pkt[0] = BOOTREPLY;
    pkt[16..20].copy_from_slice(&[10, 0, 0, 77]);
    pkt.truncate(240);
    pkt.extend_from_slice(&[OPT_MESSAGE_TYPE, 1, DHCPOFFER]);
    pkt.extend_from_slice(options);
    pkt.push(OPT_END);
    pkt
}

#[test]
fn offer_reads_mask_domain_and_all_dns_servers() {
    let mut opts = vec![OPT_SUBNET_MASK, 4, 255, 255, 255, 0];
    opts.extend_from_slice(&[OPT_DOMAIN, 10]);
    opts.extend_from_slice(b" home.lan ");
    opts.extend_from_slice(&[OPT_DNS, 9, 9, 9, 9, 9, 1, 0, 0, 1, 7]);
    let offer = parse_offer(&offer_with_options(5, &opts), 5, 0).unwrap();
    assert_eq!(offer.subnet_mask.as_deref(), Some("255.255.255.0"));
    assert_eq!(offer.domain.as_deref(), Some("home.lan"));
    assert_eq!(offer.dns_servers, vec!["9.9.9.9".to_string(), "1.0.0.1".to_string()]);
    assert_eq!(offer.server_ip, None);
    assert_eq!(offer.offered_ip, "10.0.0.77");
}

#[test]
fn offer_ignores_domain_that_is_not_utf8() {
    let opts = [OPT_DOMAIN, 2, 0xff, 0xfe];
    let offer = parse_offer(&offer_with_options(5, &opts), 5, 0).unwrap();
    assert_eq!(offer.domain, None);
}

#[test]
fn offer_without_address_is_dropped() {
    let mut pkt = offer_with_options(9, &[]);
    pkt[16..20].copy_from_slice(&[0, 0, 0, 0]);
    assert!(parse_offer(&pkt, 9, 0).is_none());
}
