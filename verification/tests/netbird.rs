//! What netbird prints.

use controlcenter::netbird::{parse_profiles, parse_status};

#[test]
fn parses_profile_list() {
    let raw = "NAME     ACTIVE\ndefault  \nmup      \ntn       ✓\n";
    let profiles = parse_profiles(raw);
    assert_eq!(profiles.len(), 3);
    assert_eq!(profiles[0].name, "default");
    assert!(!profiles[0].active);
    assert_eq!(profiles[2].name, "tn");
    assert!(profiles[2].active);
}

#[test]
fn parses_status_connected() {
    let raw = "OS: linux/amd64\nDaemon version: 0.75.0\nProfile: tn\nManagement: Connected\nSignal: Connected\nNetBird IP: 100.120.192.110/16\nPeers count: 12/26 Connected\n";
    let st = parse_status(raw);
    assert!(st.connected);
    assert_eq!(st.field("Profile"), Some("tn"));
    assert_eq!(st.field("NetBird IP"), Some("100.120.192.110/16"));
}

#[test]
fn parses_status_disconnected() {
    let raw = "Daemon status: NeedsLogin\nManagement: Disconnected\n";
    let st = parse_status(raw);
    assert!(!st.connected);
}

#[test]
fn a_field_that_is_not_there_has_no_value() {
    let st = parse_status("Profile: a\nProfile: b\n");
    assert_eq!(st.field("Profile"), Some("a"));
    assert_eq!(st.field("Signal"), None);
    assert!(parse_profiles("").is_empty());
}
