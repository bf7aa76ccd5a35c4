use arp_notify::mac::MacAddr;
use arp_notify::sweep::SweepResult;
use arp_notify::table::MacTable;
use arp_notify::tracker::{
    monitor_check, HostState, MonitorStatus, TrackerConfig, TrackerState, DEFAULT_DEBOUNCE,
};

fn ip(a: u8, b: u8, c: u8, d: u8) -> u32 {
    ((a as u32) << 24) | ((b as u32) << 16) | ((c as u32) << 8) | (d as u32)
}

fn host(n: u8) -> MacAddr {
    MacAddr(0xaa, 0xbb, 0xcc, 0xdd, 0xee, n)
}

fn sweep_of(pairs: &[(MacAddr, u32)]) -> SweepResult {
    let mut t: SweepResult = MacTable::new();
    for (m, a) in pairs {
        t.insert(*m, *a);
    }
    t
}

fn config(notify: bool) -> TrackerConfig {
    TrackerConfig { debounce_threshold: DEFAULT_DEBOUNCE, notify_on_new: notify }
}

#[test]
fn first_sighting_creates_pending_record() {
    let mut t = TrackerState::new(&Vec::new());
    let events = t.observe(&sweep_of(&[(host(1), ip(192, 168, 1, 10))]), &config(true));
    assert!(events.is_empty());
    let rec = t.record(&host(1)).unwrap();
    assert_eq!(rec.mac, host(1));
    assert_eq!(rec.ip, ip(192, 168, 1, 10));
    assert_eq!(rec.last_seen_poll, 0);
    assert_eq!(rec.consecutive_hits, 1);
    assert_eq!(t.poll_index(), 1);
    assert_eq!(t.host_state(&host(1), DEFAULT_DEBOUNCE), HostState::Pending(1));
    assert_eq!(t.host_state(&host(2), DEFAULT_DEBOUNCE), HostState::Unseen);
}

#[test]
fn debounce_confirms_once_and_notifies_once() {
    let mut t = TrackerState::new(&Vec::new());
    let cfg = config(true);
    let seen = sweep_of(&[(host(1), ip(192, 168, 1, 10))]);
    for _ in 0..6 {
        assert!(t.observe(&seen, &cfg).is_empty());
    }
    assert_eq!(t.host_state(&host(1), 7), HostState::Pending(6));
    assert!(!t.is_known(&host(1)));
    let events = t.observe(&seen, &cfg);
    assert_eq!(events, vec![host(1)]);
    assert_eq!(t.host_state(&host(1), 7), HostState::Confirmed);
    assert!(t.is_known(&host(1)));
    for _ in 0..3 {
        assert!(t.observe(&seen, &cfg).is_empty());
    }
    assert_eq!(t.record(&host(1)).unwrap().consecutive_hits, 10);
}

#[test]
fn missed_polls_neither_demote_nor_decrement() {
    let mut t = TrackerState::new(&Vec::new());
    let cfg = TrackerConfig { debounce_threshold: 2, notify_on_new: true };
    let seen = sweep_of(&[(host(1), ip(192, 168, 1, 10))]);
    let empty = sweep_of(&[]);
    t.observe(&seen, &cfg);
    t.observe(&empty, &cfg);
    assert_eq!(t.record(&host(1)).unwrap().consecutive_hits, 1);
    assert_eq!(t.observe(&seen, &cfg), vec![host(1)]);
    t.observe(&empty, &cfg);
    assert_eq!(t.host_state(&host(1), 2), HostState::Confirmed);
    assert_eq!(t.record(&host(1)).unwrap().last_seen_poll, 2);
    assert_eq!(t.poll_index(), 4);
}

#[test]
fn address_change_updates_record() {
    let mut t = TrackerState::new(&Vec::new());
    let cfg = config(false);
    t.observe(&sweep_of(&[(host(1), ip(192, 168, 1, 10))]), &cfg);
    t.observe(&sweep_of(&[(host(1), ip(192, 168, 1, 99))]), &cfg);
    let rec = t.record(&host(1)).unwrap();
    assert_eq!(rec.ip, ip(192, 168, 1, 99));
    assert_eq!(rec.consecutive_hits, 2);
    assert_eq!(rec.last_seen_poll, 1);
}

#[test]
fn known_hosts_and_disabled_notification_emit_nothing() {
    let mut t = TrackerState::new(&vec![host(1)]);
    let cfg = TrackerConfig { debounce_threshold: 1, notify_on_new: true };
    let events = t.observe(&sweep_of(&[(host(1), ip(10, 0, 0, 1)), (host(2), ip(10, 0, 0, 2))]), &cfg);
    assert_eq!(events, vec![host(2)]);
    let mut quiet = TrackerState::new(&Vec::new());
    let off = TrackerConfig { debounce_threshold: 1, notify_on_new: false };
    assert!(quiet.observe(&sweep_of(&[(host(3), ip(10, 0, 0, 3))]), &off).is_empty());
    assert!(quiet.is_known(&host(3)));
}

#[test]
fn monitor_reports_exists_or_unavailable() {
    let result = sweep_of(&[(host(1), ip(192, 168, 1, 50))]);
    let watch = vec![host(1), host(9)];
    let status = monitor_check(&watch, &result);
    assert_eq!(status, vec![MonitorStatus::Exists(ip(192, 168, 1, 50)), MonitorStatus::Unavailable]);
    assert!(monitor_check(&Vec::new(), &result).is_empty());
}

#[test]
fn table_keeps_one_entry_per_mac() {
    let mut t: MacTable<u32> = MacTable::new();
    t.insert(host(1), 1);
    t.insert(host(2), 2);
    t.insert(host(1), 3);
    assert_eq!(t.len(), 2);
    assert_eq!(t.entries(), &vec![(host(1), 3), (host(2), 2)]);
    assert!(t.contains(&host(2)));
    assert!(!t.contains(&host(3)));
}
