use lantern::identity::{
    auto_name, classify_media, detect_ssid, fingerprint, is_plausible_ip, plausible_reply,
    read_tool_output, LineFormat, SsidTool,
};

#[test]
fn fingerprint_prefers_ssid() {
    let fp = fingerprint(
        "wifi",
        Some("Cafe"),
        Some("lan"),
        "wlan0",
        "192.168.1.0/24",
        Some("192.168.1.1"),
    );
    assert_eq!(fp, "wifi:cafe|192.168.1.0/24|192.168.1.1");
}

#[test]
fn fingerprint_falls_back_to_search_domain() {
    let fp = fingerprint(
        "ethernet",
        None,
        Some("office.local"),
        "eth0",
        "10.0.0.0/24",
        Some("10.0.0.1"),
    );
    assert_eq!(fp, "lan:office.local|10.0.0.0/24|10.0.0.1");
}

#[test]
fn fingerprint_falls_back_to_interface() {
    let fp = fingerprint("ethernet", Some(""), None, "eth0", "10.0.0.0/24", None);
    assert_eq!(fp, "ethernet:eth0|10.0.0.0/24|");
}

#[test]
fn auto_name_priority() {
    assert_eq!(
        auto_name(Some("Home"), Some("lan"), "wlan0", "192.168.1.0/24"),
        "Home"
    );
    assert_eq!(
        auto_name(None, Some("lan"), "eth0", "192.168.1.0/24"),
        "lan"
    );
    assert_eq!(
        auto_name(None, None, "eth0", "192.168.1.0/24"),
        "eth0 (192.168.1.0/24)"
    );
}

#[test]
fn media_classification() {
    assert_eq!(classify_media("en0", Some("Home")), "wifi");
    assert_eq!(classify_media("wlp3s0", None), "wifi");
    assert_eq!(classify_media("Wi-Fi", None), "wifi");
    assert_eq!(classify_media("enp0s31f6", None), "ethernet");
    assert_eq!(classify_media("Ethernet 2", None), "ethernet");
    assert_eq!(classify_media("en0", None), "unknown");
}

#[test]
fn ssid_from_iwgetid() {
    assert_eq!(
        detect_ssid("wlan0", SsidTool::Iwgetid, Some("  HomeNet \n")).as_deref(),
        Some("HomeNet")
    );
    assert_eq!(detect_ssid("wlan0", SsidTool::Iwgetid, Some("  \n")), None);
    assert_eq!(detect_ssid("wlan0", SsidTool::Iwgetid, None), None);
}

#[test]
fn ssid_from_nmcli_matches_interface() {
    let out = "wlan1:yes:Other\nwlan0:no:Old\nwlan0:yes:Cafe: Guest\n";
    assert_eq!(
        detect_ssid("wlan0", SsidTool::Nmcli, Some(out)).as_deref(),
        Some("Cafe: Guest")
    );
    assert_eq!(detect_ssid("eth0", SsidTool::Nmcli, Some(out)), None);
}

#[test]
fn ssid_from_networksetup() {
    assert_eq!(
        detect_ssid("en0", SsidTool::Networksetup, Some("Current Wi-Fi Network: Home 5G\n"))
            .as_deref(),
        Some("Home 5G")
    );
    assert_eq!(
        detect_ssid(
            "en0",
            SsidTool::Networksetup,
            Some("You are not associated with an AirPort network.\n")
        ),
        None
    );
}

#[test]
fn ssid_from_ipconfig_summary_and_netsh() {
    let summary = "<dictionary> {\n  BSSID : aa:bb\n  SSID : Office\n}\n";
    assert_eq!(
        detect_ssid("en0", SsidTool::IpconfigSummary, Some(summary)).as_deref(),
        Some("Office")
    );
    let netsh = "    Name : Wi-Fi\n    BSSID : aa:bb:cc:dd:ee:ff\n    SSID : Cafe\n";
    assert_eq!(
        detect_ssid("Wi-Fi", SsidTool::Netsh, Some(netsh)).as_deref(),
        Some("Cafe")
    );
}

#[test]
fn search_domain_from_resolv_conf() {
    let conf = "# generated\nnameserver 1.1.1.1\nsearch home.arpa corp.example\n";
    assert_eq!(
        read_tool_output(&LineFormat::ResolvConf, conf).as_deref(),
        Some("home.arpa")
    );
    assert_eq!(read_tool_output(&LineFormat::ResolvConf, "domain .\n"), None);
    assert_eq!(
        read_tool_output(&LineFormat::ResolvConf, "search\nsearch b\n").as_deref(),
        Some("b")
    );
}

#[test]
fn search_domain_from_ipconfig_all() {
    let out = "   Primary Dns Suffix  . . . . . . . : \n   Connection-specific DNS Suffix  . : corp.example\n";
    assert_eq!(
        read_tool_output(&LineFormat::IpconfigAll, out).as_deref(),
        Some("corp.example")
    );
}

#[test]
fn plausible_addresses() {
    assert!(is_plausible_ip("203.0.113.9"));
    assert!(is_plausible_ip("2001:db8::1"));
    assert!(!is_plausible_ip("<html>"));
    assert!(!is_plausible_ip("256.1.1.1"));
    assert_eq!(plausible_reply(" 203.0.113.9\n").as_deref(), Some("203.0.113.9"));
    assert_eq!(plausible_reply("error"), None);
}

#[test]
fn same_ssid_on_different_subnets_differs() {
    let a = fingerprint("wifi", Some("Guest"), None, "wlan0", "192.168.1.0/24", Some("192.168.1.1"));
    let b = fingerprint("wifi", Some("Guest"), None, "wlan0", "10.0.0.0/24", Some("192.168.1.1"));
    assert_ne!(a, b);
    let c = fingerprint("wifi", Some("GUEST"), None, "wlan0", "192.168.1.0/24", Some("192.168.1.1"));
    assert_eq!(a, c);
}
