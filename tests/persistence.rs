use arp_notify::interface::{select_interface, InterfaceCandidate, InterfaceError};
use arp_notify::mac::MacAddr;
use arp_notify::state::{
    properties_from_text, properties_to_text, uncached_macs, vendor_name,
    StateProperties, StateText,
};
use arp_notify::sweep::Subnet;
use arp_notify::table::MacTable;

fn host(n: u8) -> MacAddr {
    MacAddr(0xaa, 0xbb, 0xcc, 0xdd, 0xee, n)
}

#[test]
fn mac_text_is_canonical() {
    let p = StateProperties { stored_vendors: MacTable::new(), monitor_macs: vec![MacAddr(0, 0x0f, 0x10, 0x9a, 0xff, 7)] };
    assert_eq!(properties_to_text(&p).monitor_macs, vec!["00:0f:10:9a:ff:07".to_string()]);
    let text = |m: &str| StateText { stored_vendors: vec![], monitor_macs: vec![m.to_string()] };
    assert_eq!(properties_from_text(&text("aa:bb:cc:dd:ee:01")).unwrap().monitor_macs, vec![host(1)]);
    assert_eq!(properties_from_text(&text("AA:BB:CC:DD:EE:1")).unwrap().monitor_macs, vec![host(1)]);
    assert!(properties_from_text(&text("aa:bb:cc:dd:ee")).is_none());
    assert!(properties_from_text(&text("aa:bb:cc:dd:ee:01:02")).is_none());
    assert!(properties_from_text(&text("aa:bb:cc:dd:ee:zz")).is_none());
    assert!(properties_from_text(&text("")).is_none());
}

#[test]
fn state_round_trip() {
    let mut vendors: MacTable<String> = MacTable::new();
    vendors.insert(host(1), "Acme Networks".to_string());
    vendors.insert(host(2), "Unknown".to_string());
    let p = StateProperties { stored_vendors: vendors, monitor_macs: vec![host(2), host(3)] };
    let text = properties_to_text(&p);
    assert_eq!(
        text.stored_vendors,
        vec![
            ("aa:bb:cc:dd:ee:01".to_string(), "Acme Networks".to_string()),
            ("aa:bb:cc:dd:ee:02".to_string(), "Unknown".to_string())
        ]
    );
    assert_eq!(text.monitor_macs, vec!["aa:bb:cc:dd:ee:02".to_string(), "aa:bb:cc:dd:ee:03".to_string()]);
    let back = properties_from_text(&text).unwrap();
    assert_eq!(back.stored_vendors.entries(), p.stored_vendors.entries());
    assert_eq!(back.monitor_macs, p.monitor_macs);
}

#[test]
fn empty_state_round_trip() {
    let p = StateProperties::empty();
    let text = properties_to_text(&p);
    assert!(text.stored_vendors.is_empty() && text.monitor_macs.is_empty());
    let back = properties_from_text(&text).unwrap();
    assert_eq!(back.stored_vendors.len(), 0);
    assert!(back.monitor_macs.is_empty());
}

#[test]
fn unreadable_address_rejects_state() {
    let bad = StateText { stored_vendors: vec![("not-a-mac".to_string(), "X".to_string())], monitor_macs: vec![] };
    assert!(properties_from_text(&bad).is_none());
    let bad_watch = StateText { stored_vendors: vec![], monitor_macs: vec!["aa:bb".to_string()] };
    assert!(properties_from_text(&bad_watch).is_none());
}

#[test]
fn only_uncached_macs_are_looked_up() {
    let mut cache: MacTable<String> = MacTable::new();
    cache.insert(host(2), "Cached Inc".to_string());
    let todo = uncached_macs(&vec![host(1), host(2), host(3)], &cache);
    assert_eq!(todo, vec![host(1), host(3)]);
    assert_eq!(vendor_name(&cache, &host(2)), "Cached Inc");
    assert_eq!(vendor_name(&cache, &host(1)), "Unknown");
}

fn candidate(name: &str, loopback: bool, mac: Option<MacAddr>, nets: Vec<Subnet>) -> InterfaceCandidate {
    InterfaceCandidate { name: name.to_string(), is_loopback: loopback, mac, ipv4_networks: nets }
}

#[test]
fn interface_selection() {
    let net = Subnet::new(0xC0A8_0102, 24).unwrap();
    let list = vec![
        candidate("lo", true, None, vec![Subnet::new(0x7F00_0001, 8).unwrap()]),
        candidate("wlan0", false, Some(host(4)), vec![]),
        candidate("eth1", false, None, vec![net]),
        candidate("eth0", false, Some(host(5)), vec![net]),
    ];
    assert_eq!(select_interface(&list, &"lo".to_string()).unwrap_err(), InterfaceError::Loopback);
    assert_eq!(select_interface(&list, &"wlan0".to_string()).unwrap_err(), InterfaceError::NoIpv4Address);
    assert_eq!(select_interface(&list, &"eth1".to_string()).unwrap_err(), InterfaceError::NoHardwareAddress);
    assert_eq!(select_interface(&list, &"eth9".to_string()).unwrap_err(), InterfaceError::NotFound);
    let chosen = select_interface(&list, &"eth0".to_string()).unwrap();
    assert_eq!(chosen.name, "eth0");
    assert_eq!(chosen.hardware_address, host(5));
    assert_eq!(chosen.source_ipv4, 0xC0A8_0102);
    assert_eq!(chosen.subnet, net);
}
