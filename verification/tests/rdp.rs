//! Remote desktop command lines and files.

use controlcenter::path::Os;
use controlcenter::rdp::{
    build_args, rdp_file_for, render_rdp_file, resolve_client, split_extra, to_hex, Client,
    RdpStatus,
};
use controlcenter::types::{default_rdp_port, RdpConnection};


fn conn(domain: &str, extra: &str) -> RdpConnection {
    RdpConnection {
        name: "desk".into(),
        group: String::new(),
        host: "10.0.0.5".into(),
        port: default_rdp_port(),
        domain: domain.into(),
        username: "flo".into(),
        extra_args: extra.into(),
        depends_on: String::new(),
        requires_vpn: String::new(),
    }
}

#[test]
fn the_password_is_never_an_argument() {
    let args = build_args(&conn("acme", ""), Client::Freerdp, None);
    assert!(args.contains(&"/from-stdin".to_string()));
    assert!(!args.iter().any(|a| a.starts_with("/p:")));
    assert!(args.contains(&"/d:acme".to_string()));
}

#[test]
fn no_domain_means_no_domain_flag_at_all() {
    let args = build_args(&conn("", "/f /sound"), Client::Freerdp, None);
    assert!(!args.iter().any(|a| a.starts_with("/d:")));
    // Extra args are appended in the order they were typed.
    assert_eq!(&args[args.len() - 2..], &["/f".to_string(), "/sound".to_string()]);
}

#[test]
fn mstsc_is_handed_the_file_and_nothing_that_describes_the_connection() {
    let path = "/run/controlcenter/rdp-desk.rdp";
    let args = build_args(&conn("acme", "/f"), Client::Mstsc, Some(path));
    assert_eq!(args[0], "mstsc");
    assert_eq!(args[1], path);
    assert_eq!(args[2], "/f");
    // Everything about the host lives in the file, never in the argv.
    assert!(!args.iter().any(|a| a.contains("10.0.0.5")));
}

#[test]
fn without_a_file_the_preview_says_so_rather_than_inventing_one() {
    let args = build_args(&conn("", ""), Client::Mstsc, None);
    assert_eq!(args[1], "<desk.rdp>");
}

#[test]
fn extra_args_are_split_into_settings_and_switches() {
    let split = split_extra("/f, redirectclipboard:i:0, /multimon");
    assert_eq!(split.switches, vec!["/f", "/multimon"]);
    assert_eq!(split.settings, vec!["redirectclipboard:i:0"]);
}

#[test]
fn a_bare_run_of_switches_is_still_a_run_of_switches() {
    // The freerdp form of the field — no commas at all — has to keep working.
    let split = split_extra("/f /sound /multimon");
    assert_eq!(split.switches, vec!["/f", "/sound", "/multimon"]);
    assert!(split.settings.is_empty());
}

#[test]
fn a_generated_file_carries_the_connection_and_no_password() {
    let file = render_rdp_file(&conn("acme", ""), None);
    assert!(file.contains("full address:s:10.0.0.5:3389"));
    assert!(file.contains("username:s:acme\\flo"));
    assert!(file.contains("authentication level:i:0"));
    assert!(!file.contains("password"));
    // mstsc reads the file as Windows text.
    assert!(file.ends_with("\r\n"));
}

#[test]
fn without_a_domain_the_username_stands_alone() {
    assert!(render_rdp_file(&conn("", ""), None).contains("username:s:flo\r\n"));
}

#[test]
fn a_sealed_password_goes_in_as_the_field_windows_uses() {
    let file = render_rdp_file(&conn("", ""), Some("DEADBEEF"));
    assert!(file.contains("password 51:b:DEADBEEF"));
}

#[test]
fn a_user_setting_replaces_the_generated_one_instead_of_fighting_it() {
    let file = render_rdp_file(&conn("", "screen mode id:i:2, audiomode:i:2"), None);
    assert!(file.contains("screen mode id:i:2"));
    assert!(!file.contains("screen mode id:i:1"));
    // One that has no generated counterpart is simply added.
    assert!(file.contains("audiomode:i:2"));
}

#[test]
fn a_connection_name_cannot_walk_out_of_the_run_directory() {
    let path = rdp_file_for(Os::Unix, "../../etc/passwd", "/run/cc");
    assert_eq!(path, "/run/cc/rdp-.._.._etc_passwd.rdp");
}

#[test]
fn the_client_preference_picks_the_client() {
    assert_eq!(resolve_client(Os::Unix, "freerdp"), Client::Freerdp);
    assert_eq!(resolve_client(Os::Unix, "mstsc"), Client::Mstsc);
    assert_eq!(resolve_client(Os::Unix, "auto"), Client::native(Os::Unix));
    assert_eq!(resolve_client(Os::Unix, ""), Client::native(Os::Unix));
}

#[test]
fn a_sealed_blob_is_hex_the_way_the_file_wants_it() {
    assert_eq!(to_hex(&[0x01, 0xab, 0xff]), "01ABFF");
}

#[test]
fn each_platform_has_a_client_of_its_own() {
    assert_eq!(Client::native(Os::Unix), Client::Freerdp);
    assert_eq!(Client::native(Os::Windows), Client::Mstsc);
    assert_eq!(resolve_client(Os::Windows, "auto"), Client::Mstsc);
    assert_eq!(Client::Mstsc.log_source(), "mstsc");
}

#[test]
fn a_session_that_ended_well_was_closed() {
    assert_eq!(RdpStatus::Running.label(), "running");
    assert_eq!(RdpStatus::Exited(0).label(), "closed");
    assert_eq!(RdpStatus::Exited(-1).label(), "exited (-1)");
}
