use lantern::interfaces::{
    detect_network, hosts_to_scan, list_networks, sanitize_network, InterfaceAddr,
};
use lantern::textmap::TextMap;
use lantern::ipv4::{
    guess_gateway, ipv4_from_octets, is_rfc1918, mask_to_prefix, parse_ipv4_str, parse_network,
};
use lantern::model::NetworkInfo;
use lantern::neighbors::{
    extract_ip_in_parens, extract_mac, normalize_mac, parse_bsd_arp, parse_ip_neigh,
    parse_proc_arp, parse_windows_arp, read_neighbors, ArpFormat,
};
use lantern::oui::{lookup_vendor, OuiTable};
use lantern::ping::{output_indicates_reply, ping_time_text};
use lantern::scan::network_info;
use network_interface::{Addr, NetworkInterface, NetworkInterfaceConfig};

/// A few real IEEE OUI assignments, in the table's text form.
const OUI_FIXTURE: &str = "00:00:00\tXEROX CORPORATION\n00:00:01\tXEROX CORPORATION\n00:00:02\tXEROX CORPORATION\n00:00:0C\tCisco Systems, Inc\n00:03:93\tApple, Inc.\n00:05:69\tVMware, Inc.\n00:0C:29\tVMware, Inc.\n00:15:5D\tMicrosoft Corporation\n00:1A:11\tGoogle, Inc.\n00:1C:14\tVMware, Inc.\n00:50:56\tVMware, Inc.\n08:00:27\tPCS Systemtechnik GmbH\n3C:5A:B4\tGoogle, Inc.\nB8:27:EB\tRaspberry Pi Foundation\nDC:A6:32\tRaspberry Pi Trading Ltd\nF0:18:98\tApple, Inc.\n";

fn oui() -> OuiTable {
    OuiTable::load(OUI_FIXTURE)
}

fn sample_network(cidr: &str, local_ip: &str, host_count: u32) -> NetworkInfo {
    let prefix: u8 = cidr.split('/').nth(1).unwrap().parse().unwrap();
    NetworkInfo {
        interface_name: "eth0".into(),
        local_ip: local_ip.into(),
        cidr: cidr.into(),
        prefix,
        gateway: Some("192.168.1.1".into()),
        host_count,
        fingerprint: format!("net:eth0|{cidr}|192.168.1.1"),
        display_name: Some(format!("eth0 ({cidr})")),
        auto_name: format!("eth0 ({cidr})"),
        media: "ethernet".into(),
        ssid: None,
        search_domain: None,
        external_ip: None,
        db_id: None,
    }
}

fn bare_network(
    interface_name: &str,
    cidr: &str,
    local_ip: &str,
    gateway: Option<&str>,
    host_count: u32,
) -> NetworkInfo {
    let prefix: u8 = cidr
        .split('/')
        .nth(1)
        .and_then(|p| p.parse().ok())
        .unwrap_or(24);
    NetworkInfo {
        interface_name: interface_name.into(),
        local_ip: local_ip.into(),
        cidr: cidr.into(),
        prefix,
        gateway: gateway.map(str::to_string),
        host_count,
        fingerprint: String::new(),
        display_name: None,
        auto_name: String::new(),
        media: "unknown".into(),
        ssid: None,
        search_domain: None,
        external_ip: None,
        db_id: None,
    }
}

/// The scannable networks of this machine, best first, built the way the
/// application does it (without SSID or search-domain detection).
fn local_networks() -> Result<Vec<NetworkInfo>, String> {
    let interfaces =
        NetworkInterface::show().map_err(|e| format!("Failed to list interfaces: {e}"))?;
    let mut addrs = Vec::new();
    for iface in interfaces {
        for addr in &iface.addr {
            let (ip, netmask) = match addr {
                Addr::V4(v4) => (
                    parse_ipv4_str(&v4.ip.to_string()),
                    v4.netmask.and_then(|m| parse_ipv4_str(&m.to_string())),
                ),
                Addr::V6(_) => (None, None),
            };
            addrs.push(InterfaceAddr {
                name: iface.name.clone(),
                ip,
                netmask,
            });
        }
    }
    Ok(list_networks(&addrs, &TextMap::new(), None))
}

#[test]
fn oui_looks_up_known_xerox_prefix() {
    let vendor = lookup_vendor(&oui(), "00:00:01:aa:bb:cc");
    assert!(vendor.is_some(), "expected OUI hit for 00:00:01");
}

#[test]
fn oui_accepts_dashed_and_bare_macs() {
    let a = lookup_vendor(&oui(), "00-00-01-aa-bb-cc");
    let b = lookup_vendor(&oui(), "000001aabbcc");
    assert_eq!(a, b);
    assert!(a.is_some());
}

#[test]
fn oui_rejects_short_mac() {
    assert!(lookup_vendor(&oui(), "00:00").is_none());
}

#[test]
fn normalize_mac_formats() {
    assert_eq!(
        normalize_mac("aa-bb-cc-dd-ee-ff").as_deref(),
        Some("AA:BB:CC:DD:EE:FF")
    );
    assert_eq!(
        normalize_mac("aabbccddeeff").as_deref(),
        Some("AA:BB:CC:DD:EE:FF")
    );
    assert!(normalize_mac("00:00:00:00:00:00").is_none());
    assert!(normalize_mac("not-a-mac").is_none());
}

#[test]
fn parse_proc_arp_skips_incomplete_entries() {
    let text = "\
IP address       HW type     Flags       HW address            Mask     Device
192.168.1.1      0x1         0x2         aa:bb:cc:dd:ee:ff     *        eth0
192.168.1.2      0x1         0x0         00:00:00:00:00:00     *        eth0
";
    let map = parse_proc_arp(text);
    assert_eq!(map.len(), 1);
    assert_eq!(map.get("192.168.1.1").unwrap(), "AA:BB:CC:DD:EE:FF");
}

#[test]
fn parse_ip_neigh_extracts_lladdr() {
    let text = "\
192.168.1.1 dev eth0 lladdr aa:bb:cc:dd:ee:01 REACHABLE
192.168.1.5 dev eth0 FAILED
fe80::1 dev eth0 lladdr aa:bb:cc:dd:ee:02 STALE
";
    let map = parse_ip_neigh(text);
    assert_eq!(map.len(), 1);
    assert_eq!(map.get("192.168.1.1").unwrap(), "AA:BB:CC:DD:EE:01");
}

#[test]
fn parse_bsd_arp_extracts_paren_ips() {
    let text = "? (192.168.1.1) at aa:bb:cc:dd:ee:ff on en0 ifscope [ethernet]\n";
    let map = parse_bsd_arp(text);
    assert_eq!(map.get("192.168.1.1").unwrap(), "AA:BB:CC:DD:EE:FF");
}

#[test]
fn parse_windows_arp_table() {
    let text = "\
Interface: 192.168.1.10 --- 0xb
  Internet Address      Physical Address      Type
  192.168.1.1           aa-bb-cc-dd-ee-ff     dynamic
  192.168.1.255         ff-ff-ff-ff-ff-ff     static
";
    let map = parse_windows_arp(text);
    assert_eq!(map.get("192.168.1.1").unwrap(), "AA:BB:CC:DD:EE:FF");
    assert_eq!(map.get("192.168.1.255").unwrap(), "FF:FF:FF:FF:FF:FF");
}

#[test]
fn mask_to_prefix_common_masks() {
    assert_eq!(mask_to_prefix(ipv4_from_octets(255, 255, 255, 0)), 24);
    assert_eq!(mask_to_prefix(ipv4_from_octets(255, 255, 0, 0)), 16);
    assert_eq!(mask_to_prefix(ipv4_from_octets(255, 255, 255, 252)), 30);
}

#[test]
fn rfc1918_classification() {
    assert!(is_rfc1918(ipv4_from_octets(10, 0, 0, 1)));
    assert!(is_rfc1918(ipv4_from_octets(172, 16, 0, 1)));
    assert!(is_rfc1918(ipv4_from_octets(192, 168, 1, 1)));
    assert!(!is_rfc1918(ipv4_from_octets(8, 8, 8, 8)));
    assert!(!is_rfc1918(ipv4_from_octets(172, 15, 0, 1)));
}

#[test]
fn guess_gateway_is_first_usable_host() {
    let net = parse_network("192.168.1.0/24").unwrap();
    assert_eq!(guess_gateway(net), Some(ipv4_from_octets(192, 168, 1, 1)));
}

#[test]
fn hosts_to_scan_excludes_network_and_broadcast() {
    let info = sample_network("192.168.1.0/30", "192.168.1.2", 2);
    let hosts = hosts_to_scan(&info).unwrap();
    assert_eq!(hosts.len(), 2);
    assert!(!hosts.contains(&ipv4_from_octets(192, 168, 1, 0)));
    assert!(!hosts.contains(&ipv4_from_octets(192, 168, 1, 3)));
}

#[test]
fn hosts_to_scan_rejects_oversized_subnets() {
    let info = sample_network("10.0.0.0/16", "10.0.0.1", 65_534);
    let err = hosts_to_scan(&info).unwrap_err();
    assert!(err.contains("max"));
}

#[test]
fn sanitize_network_normalizes_valid_selection() {
    let info = bare_network("eth1", "192.168.5.77/24", "192.168.5.77", None, 0);
    let out = sanitize_network(info, None, None).unwrap();
    assert_eq!(out.cidr, "192.168.5.0/24");
    assert_eq!(out.prefix, 24);
    assert_eq!(out.host_count, 254);
    assert_eq!(out.gateway.as_deref(), Some("192.168.5.1"));
    assert_eq!(out.interface_name, "eth1");
    assert!(!out.fingerprint.is_empty());
}

#[test]
fn sanitize_network_keeps_valid_gateway() {
    let info = bare_network("eth0", "10.1.2.0/24", "10.1.2.30", Some("10.1.2.254"), 254);
    let out = sanitize_network(info, None, None).unwrap();
    assert_eq!(out.gateway.as_deref(), Some("10.1.2.254"));
}

#[test]
fn sanitize_network_replaces_foreign_gateway() {
    let info = bare_network("eth0", "10.1.2.0/24", "10.1.2.30", Some("192.168.1.1"), 254);
    let out = sanitize_network(info, None, None).unwrap();
    assert_eq!(out.gateway.as_deref(), Some("10.1.2.1"));
}

#[test]
fn sanitize_network_rejects_ip_outside_subnet() {
    let info = bare_network("eth0", "192.168.1.0/24", "10.0.0.5", None, 254);
    let err = sanitize_network(info, None, None).unwrap_err();
    assert!(err.contains("not inside"), "unexpected error: {err}");
}

#[test]
fn sanitize_network_rejects_bad_cidr() {
    let info = bare_network("eth0", "not-a-cidr", "10.0.0.5", None, 0);
    assert!(sanitize_network(info, None, None).is_err());
}

#[test]
fn list_networks_contains_detected_default() {
    match (local_networks(), detect_network(local_networks())) {
        (Ok(list), Ok(default)) => {
            assert!(!list.is_empty());
            assert_eq!(list[0].cidr, default.cidr);
            assert_eq!(list[0].local_ip, default.local_ip);
            for n in &list {
                assert!(n.cidr.contains('/'));
                assert!((8..=30).contains(&n.prefix));
            }
        }
        (Err(e), _) | (_, Err(e)) => println!("skipping interface assertions: {e}"),
    }
}

fn ping_ms(out: &str) -> Option<f64> {
    ping_time_text(out).map(|t| t.parse::<f64>().unwrap())
}

#[test]
fn ping_parse_linux_output() {
    let out = "\
PING 192.168.1.1 (192.168.1.1) 56(84) bytes of data.
64 bytes from 192.168.1.1: icmp_seq=1 ttl=64 time=0.845 ms

--- 192.168.1.1 ping statistics ---
1 packets transmitted, 1 received, 0% packet loss, time 0ms
";
    assert!(output_indicates_reply(out));
    assert_eq!(ping_ms(out), Some(0.845));
}

#[test]
fn ping_parse_macos_output() {
    let out = "\
PING 10.0.0.1 (10.0.0.1): 56 data bytes
64 bytes from 10.0.0.1: icmp_seq=0 ttl=64 time=1.334 ms
";
    assert!(output_indicates_reply(out));
    assert_eq!(ping_ms(out), Some(1.334));
}

#[test]
fn ping_parse_windows_output() {
    let out = "\
Pinging 192.168.1.1 with 32 bytes of data:
Reply from 192.168.1.1: bytes=32 time=3ms TTL=64
";
    assert!(output_indicates_reply(out));
    assert_eq!(ping_ms(out), Some(3.0));
}

#[test]
fn ping_parse_windows_sub_millisecond() {
    let out = "Reply from 127.0.0.1: bytes=32 time<1ms TTL=128\n";
    assert!(output_indicates_reply(out));
    assert_eq!(ping_ms(out), Some(1.0));
}

#[test]
fn ping_parse_localized_output() {
    let out = "Antwort von 192.168.1.1: Bytes=32 Zeit=2ms TTL=64\n";
    assert!(output_indicates_reply(out));
    assert_eq!(ping_ms(out), Some(2.0));
}

#[test]
fn ping_unreachable_is_not_a_reply() {
    let out = "Reply from 192.168.1.10: Destination host unreachable.\n";
    assert!(!output_indicates_reply(out));
}

#[test]
fn ping_parse_rejects_unrelated_ms_text() {
    let out = "1 packets transmitted, 0 received, 100% packet loss, time 0ms\n";
    assert!(!output_indicates_reply(out));
    assert_eq!(ping_ms(out), None);
}

#[test]
fn detect_network_info_or_skip() {
    match network_info(local_networks()) {
        Ok(info) => {
            assert!(!info.local_ip.is_empty());
            assert!(info.cidr.contains('/'));
            assert!((8..=30).contains(&info.prefix));
        }
        Err(e) => println!("skipping interface assertion: {e}"),
    }
}

#[test]
fn neighbors_readable_without_panic() {
    let sources = vec![
        (ArpFormat::ProcNetArp, None),
        (
            ArpFormat::IpNeigh,
            Some("192.168.1.1 dev eth0 lladdr aa:bb:cc:dd:ee:01 REACHABLE\n".to_string()),
        ),
    ];
    let map = read_neighbors(&sources);
    println!("neighbor entries: {}", map.len());
}

#[test]
fn first_readable_neighbor_source_decides() {
    let proc_text = "IP address HW type Flags HW address Mask Device\n".to_string();
    let sources = vec![
        (ArpFormat::ProcNetArp, Some(proc_text)),
        (
            ArpFormat::IpNeigh,
            Some("192.168.1.1 dev eth0 lladdr aa:bb:cc:dd:ee:01 REACHABLE\n".to_string()),
        ),
    ];
    assert!(read_neighbors(&sources).is_empty());
    assert!(read_neighbors(&[(ArpFormat::Bsd, None)]).is_empty());
}

#[test]
fn no_network_listed_is_an_error() {
    assert_eq!(
        detect_network(Ok(Vec::new())).unwrap_err(),
        "No suitable IPv4 network interface found"
    );
    assert_eq!(
        network_info(Err("Failed to list interfaces: denied".to_string())).unwrap_err(),
        "Failed to list interfaces: denied"
    );
}

#[test]
fn bsd_line_parts() {
    let line = "? (192.168.1.1) at aa:bb:cc:dd:ee:ff on en0 ifscope [ethernet]";
    assert_eq!(extract_ip_in_parens(line).as_deref(), Some("192.168.1.1"));
    assert_eq!(extract_mac(line).as_deref(), Some("AA:BB:CC:DD:EE:FF"));
    let incomplete = "? (192.168.1.9) at (incomplete) on en0 ifscope [ethernet]";
    assert_eq!(extract_mac(incomplete), None);
    assert_eq!(extract_ip_in_parens("? (gateway) at aa:bb:cc:dd:ee:ff"), None);
    assert_eq!(extract_ip_in_parens("no parentheses"), None);
}

#[test]
fn later_neighbor_line_wins() {
    let text = "? (10.0.0.1) at aa:aa:aa:aa:aa:01 on en0\n? (10.0.0.1) at aa:aa:aa:aa:aa:02 on en0\n";
    let map = parse_bsd_arp(text);
    assert_eq!(map.len(), 1);
    assert_eq!(map.get("10.0.0.1").unwrap(), "AA:AA:AA:AA:AA:02");
}

#[test]
fn normalized_mac_has_same_vendor() {
    let raw = "00-00-01-aa-bb-cc";
    let normalized = normalize_mac(raw).unwrap();
    assert_eq!(normalize_mac(&normalized).as_deref(), Some(normalized.as_str()));
    assert_eq!(lookup_vendor(&oui(), &normalized), lookup_vendor(&oui(), raw));
}

#[test]
fn largest_allowed_subnet_is_scanned_whole() {
    let info = sample_network("10.0.0.0/22", "10.0.1.7", 1022);
    let hosts = hosts_to_scan(&info).unwrap();
    assert_eq!(hosts.len(), 1022);
    assert_eq!(hosts[0], ipv4_from_octets(10, 0, 0, 1));
    assert_eq!(hosts[1021], ipv4_from_octets(10, 0, 3, 254));
    let wider = sample_network("10.0.0.0/21", "10.0.1.7", 2046);
    assert_eq!(
        hosts_to_scan(&wider).unwrap_err(),
        "Subnet 10.0.0.0/21 has 2046 hosts (max 1024). Narrower networks are required for a full scan."
    );
}

#[test]
fn wide_subnet_is_refused_whatever_its_host_count_says() {
    let info = sample_network("10.0.0.0/16", "10.0.0.1", 254);
    assert_eq!(
        hosts_to_scan(&info).unwrap_err(),
        "Subnet 10.0.0.0/16 has 65534 hosts (max 1024). Narrower networks are required for a full scan."
    );
}

#[test]
fn bsd_address_with_twelve_hex_digits_is_not_a_mac() {
    let text = "? (192.168.100.200) at aa:bb:cc:dd:ee:ff on en0 ifscope [ethernet]\n";
    let map = parse_bsd_arp(text);
    assert_eq!(map.len(), 1);
    assert_eq!(map.get("192.168.100.200").unwrap(), "AA:BB:CC:DD:EE:FF");
    let incomplete = "? (192.168.100.201) at (incomplete) on en0 ifscope [ethernet]\n";
    assert!(parse_bsd_arp(incomplete).is_empty());
}

#[test]
fn listed_networks_are_ranked_and_scannable() {
    let addrs = vec![
        InterfaceAddr { name: "lo".into(), ip: Some(ipv4_from_octets(127, 0, 0, 1)), netmask: Some(ipv4_from_octets(255, 0, 0, 0)) },
        InterfaceAddr { name: "eth0".into(), ip: Some(ipv4_from_octets(8, 8, 4, 4)), netmask: Some(ipv4_from_octets(255, 255, 255, 0)) },
        InterfaceAddr { name: "wlan0".into(), ip: Some(ipv4_from_octets(192, 168, 1, 23)), netmask: Some(ipv4_from_octets(255, 255, 255, 0)) },
        InterfaceAddr { name: "eth1".into(), ip: Some(ipv4_from_octets(10, 1, 2, 3)), netmask: Some(ipv4_from_octets(255, 255, 255, 255)) },
        InterfaceAddr { name: "eth2".into(), ip: None, netmask: None },
    ];
    let mut ssids = TextMap::new();
    ssids.insert("wlan0".into(), "Home".into());
    let list = list_networks(&addrs, &ssids, Some("lan".into()));
    assert_eq!(list.len(), 2);
    assert_eq!(list[0].interface_name, "wlan0");
    assert_eq!(list[0].cidr, "192.168.1.0/24");
    assert_eq!(list[0].ssid.as_deref(), Some("Home"));
    assert_eq!(list[0].media, "wifi");
    assert_eq!(list[0].gateway.as_deref(), Some("192.168.1.1"));
    assert_eq!(list[1].interface_name, "eth0");
    assert_eq!(list[1].ssid, None);
    let default = detect_network(Ok(list)).unwrap();
    assert_eq!(default.local_ip, "192.168.1.23");
}
