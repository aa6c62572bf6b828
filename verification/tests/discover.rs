use lan_mesh::discovery::{encode_announcement, parse_announcement, process_announcement,
    broadcast_addr_text, broadcast_octets};
use lan_mesh::registry::DebounceTable;
use lan_mesh::DEBOUNCE_WINDOW_SECS;

#[test]
fn announcement_round_trip() {
    let ts = b"2024-05-01T10:00:00+00:00".to_vec();
    for flag in [true, false] {
        let bytes = encode_announcement(flag, &ts);
        let (b, t) = parse_announcement(&bytes).expect("round trip");
        assert_eq!(b, flag);
        assert_eq!(t, ts);
    }
}

#[test]
fn announcement_layout_is_exact() {
    let bytes = encode_announcement(true, &b"T0".to_vec());
    assert_eq!(bytes, b"ONLINE|true|T0".to_vec());
}

#[test]
fn announcement_rejects_other_datagrams() {
    assert!(parse_announcement(&b"OFFLINE|true|T0".to_vec()).is_none());
    assert!(parse_announcement(&b"ONLINE|maybe|T0".to_vec()).is_none());
    assert!(parse_announcement(&b"ONLINE".to_vec()).is_none());
    assert!(parse_announcement(&Vec::new()).is_none());
}

#[test]
fn debounce_suppresses_within_window() {
    let mut seen = DebounceTable::new();
    let src = String::from("192.168.1.7");
    let w = DEBOUNCE_WINDOW_SECS;
    // First sighting is passed on.
    assert!(process_announcement(&mut seen, &src, false, 1000, w));
    // Re-announcements inside the window are suppressed, every time.
    assert!(!process_announcement(&mut seen, &src, false, 1000 + w - 1, w));
    assert!(!process_announcement(&mut seen, &src, false, 1000 + w - 1, w));
    // Once the window has elapsed, the source is passed on again.
    assert!(process_announcement(&mut seen, &src, false, 1000 + w, w));
    // And the clock of record moved with it.
    assert!(!process_announcement(&mut seen, &src, false, 1000 + w + 1, w));
}

#[test]
fn debounce_tracks_sources_independently() {
    let mut seen = DebounceTable::new();
    let w = DEBOUNCE_WINDOW_SECS;
    assert!(process_announcement(&mut seen, &String::from("192.168.1.7"), false, 1000, w));
    assert!(process_announcement(&mut seen, &String::from("192.168.1.8"), false, 1000, w));
    assert!(!process_announcement(&mut seen, &String::from("192.168.1.7"), false, 1001, w));
}

#[test]
fn own_address_is_never_emitted() {
    let mut seen = DebounceTable::new();
    let src = String::from("192.168.1.2");
    assert!(!process_announcement(&mut seen, &src, true, 1000, DEBOUNCE_WINDOW_SECS));
    // The self-filter does not even record the source.
    assert!(process_announcement(&mut seen, &src, false, 1001, DEBOUNCE_WINDOW_SECS));
}

#[test]
fn own_addresses_are_recognized() {
    let own = vec![String::from("192.168.1.2"), String::from("10.0.0.4")];
    assert!(lan_mesh::discovery::is_my_ip(&String::from("10.0.0.4"), &own));
    assert!(!lan_mesh::discovery::is_my_ip(&String::from("10.0.0.5"), &own));
    assert!(!lan_mesh::discovery::is_my_ip(&String::from("10.0.0.4"), &Vec::new()));
}

#[test]
fn broadcast_address_forces_host_octet() {
    assert_eq!(broadcast_octets(192, 168, 1, 37), (192, 168, 1, 255));
    assert_eq!(broadcast_addr_text(192, 168, 1, 5000), b"192.168.1.255:5000".to_vec());
    assert_eq!(broadcast_addr_text(10, 0, 0, 5000), b"10.0.0.255:5000".to_vec());
}
