use lantern::ipv4::{ipv4_from_octets, ipv4_to_string, parse_ipv4_str, parse_network};
use lantern::model::{Device, NetworkInfo, NetworkRecord};
use lantern::oui::OuiTable;
use lantern::records::{
    apply_record, count_online, device_key, network_from_record, prefix_of_cidr,
    record_display_name, resolve_nickname, stored_name,
};
use lantern::scan::{
    merge_offline, present_hosts, report_probe_progress, sort_devices, Enrichment,
};
use lantern::textmap::TextMap;

/// A few real IEEE OUI assignments, in the table's text form.
const OUI_FIXTURE: &str = "00:00:00\tXEROX CORPORATION\n00:00:01\tXEROX CORPORATION\n00:00:02\tXEROX CORPORATION\n00:00:0C\tCisco Systems, Inc\n00:03:93\tApple, Inc.\n00:05:69\tVMware, Inc.\n00:0C:29\tVMware, Inc.\n00:15:5D\tMicrosoft Corporation\n00:1A:11\tGoogle, Inc.\n00:1C:14\tVMware, Inc.\n00:50:56\tVMware, Inc.\n08:00:27\tPCS Systemtechnik GmbH\n3C:5A:B4\tGoogle, Inc.\nB8:27:EB\tRaspberry Pi Foundation\nDC:A6:32\tRaspberry Pi Trading Ltd\nF0:18:98\tApple, Inc.\n";

fn ip(a: u8, b: u8, c: u8, d: u8) -> u32 {
    ipv4_from_octets(a, b, c, d)
}

fn device(ip: &str, mac: Option<&str>, online: bool) -> Device {
    Device {
        ip: ip.into(),
        mac: mac.map(str::to_string),
        hostname: None,
        vendor: None,
        nickname: None,
        online,
        last_seen: 1_700_000_000,
        is_gateway: false,
        is_local: false,
    }
}

fn neighbors(pairs: &[(&str, &str)]) -> TextMap {
    let mut m = TextMap::new();
    for (k, v) in pairs {
        m.insert(k.to_string(), v.to_string());
    }
    m
}

#[test]
fn present_hosts_are_sorted_unique_and_include_local_and_gateway() {
    let net = parse_network("192.168.1.0/24").unwrap();
    let table = neighbors(&[
        ("192.168.1.40", "AA:BB:CC:DD:EE:01"),
        ("10.0.0.9", "AA:BB:CC:DD:EE:02"),
        ("bogus", "AA:BB:CC:DD:EE:03"),
    ]);
    let live = [ip(192, 168, 1, 30), ip(192, 168, 1, 20), ip(192, 168, 1, 30)];
    let hosts = present_hosts(&live, ip(192, 168, 1, 10), &table, &net, Some(ip(192, 168, 1, 1)));
    assert_eq!(
        hosts,
        vec![
            ip(192, 168, 1, 1),
            ip(192, 168, 1, 10),
            ip(192, 168, 1, 20),
            ip(192, 168, 1, 30),
            ip(192, 168, 1, 40)
        ]
    );
}

#[test]
fn enriched_device_takes_mac_vendor_and_nickname() {
    let table = neighbors(&[("192.168.1.20", "00:00:01:AA:BB:CC")]);
    let nicknames = neighbors(&[("00:00:01:AA:BB:CC", "Printer"), ("192.168.1.30", "NAS")]);
    let oui = OuiTable::load(OUI_FIXTURE);
    let e = Enrichment::begin(Some(ip(192, 168, 1, 1)), ip(192, 168, 1, 10));
    let d = e.device(ip(192, 168, 1, 20), &table, Some("printer.lan".into()), &oui, &nicknames);
    assert_eq!(d.ip, "192.168.1.20");
    assert_eq!(d.mac.as_deref(), Some("00:00:01:AA:BB:CC"));
    assert_eq!(d.vendor.as_deref(), Some("XEROX CORPORATION"));
    assert_eq!(d.hostname.as_deref(), Some("printer.lan"));
    assert_eq!(d.nickname.as_deref(), Some("Printer"));
    assert!(d.online && !d.is_gateway && !d.is_local);
    assert_eq!(d.last_seen, e.now);

    let nas = e.device(ip(192, 168, 1, 30), &table, None, &oui, &nicknames);
    assert_eq!(nas.mac, None);
    assert_eq!(nas.vendor, None);
    assert_eq!(nas.nickname.as_deref(), Some("NAS"));

    let gw = e.device(ip(192, 168, 1, 1), &table, None, &oui, &nicknames);
    assert!(gw.is_gateway);
    let me = e.device(ip(192, 168, 1, 10), &table, None, &oui, &nicknames);
    assert!(me.is_local);
}

#[test]
fn offline_devices_are_appended_with_fresh_nicknames() {
    let seen = vec![device("192.168.1.20", None, true)];
    let mut old_tv = device("192.168.1.50", Some("AA:BB:CC:DD:EE:FF"), true);
    old_tv.nickname = Some("Old name".into());
    let previous = vec![device("192.168.1.20", None, true), old_tv];
    let nicknames = neighbors(&[("AA:BB:CC:DD:EE:FF", "Living room TV")]);
    let merged = merge_offline(seen, &previous, &nicknames);
    assert_eq!(merged.len(), 2);
    assert_eq!(merged[0].ip, "192.168.1.20");
    assert!(merged[0].online);
    assert_eq!(merged[1].ip, "192.168.1.50");
    assert!(!merged[1].online);
    assert_eq!(merged[1].nickname.as_deref(), Some("Living room TV"));
    let mut ips: Vec<&str> = merged.iter().map(|d| d.ip.as_str()).collect();
    ips.sort();
    ips.dedup();
    assert_eq!(ips.len(), merged.len());
}

#[test]
fn devices_sort_local_gateway_online_then_address() {
    let mut local = device("192.168.1.10", None, true);
    local.is_local = true;
    let mut gw = device("192.168.1.1", None, true);
    gw.is_gateway = true;
    let list = vec![
        device("192.168.1.9", None, false),
        device("192.168.1.100", None, true),
        gw,
        device("192.168.1.20", None, true),
        local,
        device("not-an-ip", None, true),
    ];
    let sorted = sort_devices(list);
    let ips: Vec<&str> = sorted.iter().map(|d| d.ip.as_str()).collect();
    assert_eq!(
        ips,
        vec![
            "192.168.1.10",
            "192.168.1.1",
            "not-an-ip",
            "192.168.1.20",
            "192.168.1.100",
            "192.168.1.9"
        ]
    );
}

#[test]
fn sorting_keeps_order_of_equal_ranks() {
    let a = device("192.168.1.5", Some("AA:AA:AA:AA:AA:01"), true);
    let b = device("192.168.1.5", Some("AA:AA:AA:AA:AA:02"), true);
    let sorted = sort_devices(vec![a, b]);
    assert_eq!(sorted[0].mac.as_deref(), Some("AA:AA:AA:AA:AA:01"));
    assert_eq!(sorted[1].mac.as_deref(), Some("AA:AA:AA:AA:AA:02"));
}

#[test]
fn progress_is_reported_every_eighth_host_and_at_the_end() {
    assert!(report_probe_progress(8, 100));
    assert!(!report_probe_progress(9, 100));
    assert!(report_probe_progress(100, 100));
}

#[test]
fn address_text_round_trips() {
    for x in [0u32, 1, 0x0A00_0001, 0xC0A8_0101, 0xFFFF_FFFF] {
        assert_eq!(parse_ipv4_str(&ipv4_to_string(x)), Some(x));
    }
    assert_eq!(ipv4_to_string(ip(10, 0, 0, 1)), "10.0.0.1");
    assert_eq!(parse_ipv4_str("010.0.0.1"), None);
    assert_eq!(parse_ipv4_str("1.2.3"), None);
    assert_eq!(parse_ipv4_str("256.0.0.1"), None);
}

#[test]
fn stored_names_are_trimmed_and_blank_clears() {
    assert_eq!(stored_name(Some("  Living room TV  ".into())).as_deref(), Some("Living room TV"));
    assert_eq!(stored_name(Some("   ".into())), None);
    assert_eq!(stored_name(None), None);
    let once = stored_name(Some("\tCafe ".into()));
    assert_eq!(stored_name(once.clone()), once);
}

#[test]
fn device_keys_and_nicknames() {
    let with_mac = device("192.168.1.2", Some("AA:BB:CC:DD:EE:FF"), true);
    let without = device("192.168.1.3", None, true);
    assert_eq!(device_key(&with_mac), "AA:BB:CC:DD:EE:FF");
    assert_eq!(device_key(&without), "192.168.1.3");
    let nicknames = neighbors(&[("192.168.1.2", "By IP")]);
    assert_eq!(
        resolve_nickname(&nicknames, "AA:BB:CC:DD:EE:FF", "192.168.1.2").as_deref(),
        Some("By IP")
    );
    assert_eq!(resolve_nickname(&nicknames, "x", "y"), None);
    assert_eq!(count_online(&[with_mac, without, device("1.1.1.1", None, false)]), 2);
}

fn record() -> NetworkRecord {
    NetworkRecord {
        id: 7,
        fingerprint: "lan:home|192.168.1.0/24|192.168.1.1".into(),
        display_name: None,
        auto_name: "Home".into(),
        media: "ethernet".into(),
        ssid: None,
        search_domain: Some("lan".into()),
        interface_name: "eth0".into(),
        cidr: "192.168.1.0/26".into(),
        gateway: Some("192.168.1.1".into()),
        local_ip: "192.168.1.10".into(),
        external_ip: Some("203.0.113.9".into()),
        last_seen_at: 100,
    }
}

fn live() -> NetworkInfo {
    NetworkInfo {
        interface_name: "eth0".into(),
        local_ip: "192.168.1.10".into(),
        cidr: "192.168.1.0/24".into(),
        prefix: 24,
        gateway: Some("192.168.1.1".into()),
        host_count: 254,
        fingerprint: "lan:home|192.168.1.0/24|192.168.1.1".into(),
        display_name: None,
        auto_name: "Home".into(),
        media: "ethernet".into(),
        ssid: None,
        search_domain: Some("lan".into()),
        external_ip: None,
        db_id: None,
    }
}

#[test]
fn stored_record_names_and_addresses_apply() {
    let mut rec = record();
    assert_eq!(record_display_name(&rec), "Home");
    rec.display_name = Some("Cafe Wi-Fi".into());
    let out = apply_record(live(), Some(&rec));
    assert_eq!(out.db_id, Some(7));
    assert_eq!(out.display_name.as_deref(), Some("Cafe Wi-Fi"));
    assert_eq!(out.external_ip.as_deref(), Some("203.0.113.9"));
    let unknown = apply_record(live(), None);
    assert_eq!(unknown.display_name.as_deref(), Some("Home"));
    assert_eq!(unknown.db_id, None);
}

#[test]
fn network_rebuilt_from_record() {
    let n = network_from_record(&record());
    assert_eq!(n.prefix, 26);
    assert_eq!(n.host_count, 0);
    assert_eq!(n.db_id, Some(7));
    assert_eq!(n.display_name, None);
    assert_eq!(prefix_of_cidr("10.0.0.0"), 24);
    assert_eq!(prefix_of_cidr("10.0.0.0/x"), 24);
    assert_eq!(prefix_of_cidr("10.0.0.0/16"), 16);
}

#[test]
fn text_map_insert_overrides() {
    let mut m = TextMap::new();
    assert!(m.is_empty());
    m.insert("a".into(), "1".into());
    m.insert("b".into(), "2".into());
    m.insert("a".into(), "3".into());
    assert_eq!(m.len(), 2);
    assert_eq!(m.get("a").map(String::as_str), Some("3"));
    assert!(m.contains_key("b"));
    assert!(!m.contains_key("c"));
}
