//! What a report shows of secrets, and what its files are called.

use controlcenter::logs::LogTarget;
use controlcenter::redact::{command_line, redact, secret_note, REDACTED};
use controlcenter::report::{file_stem, CHAIN_LOG_SUFFIX};

#[test]
fn a_password_typed_into_extra_args_never_reaches_the_report() {
    // The forms take free text; xfreerdp really does take /p:.
    assert_eq!(
        redact("xfreerdp3 /v:host:3389 /p:hunter2 /f"),
        format!("xfreerdp3 /v:host:3389 /p:{REDACTED} /f")
    );
    assert_eq!(
        redact("openvpn --config x.ovpn --password hunter2"),
        format!("openvpn --config x.ovpn --password {REDACTED}")
    );
    assert_eq!(
        redact("tool --auth-token=abc123"),
        format!("tool --auth-token={REDACTED}")
    );
    assert_eq!(
        redact("PrivateKey = wOEI9rqqbDwn"),
        format!("PrivateKey = {REDACTED}")
    );
}

#[test]
fn a_single_letter_flag_is_read_by_the_prefix_it_came_with() {
    // xfreerdp: /p: is the password.
    assert_eq!(
        redact("xfreerdp3 /v:host /p:hunter2"),
        format!("xfreerdp3 /v:host /p:{REDACTED}")
    );
    // ssh: -p is the port, and a stacked tunnel is full of them.
    assert_eq!(
        redact("ssh -N -p 12222 127.0.0.1"),
        "ssh -N -p 12222 127.0.0.1"
    );
}

#[test]
fn the_ssh_options_controlcenter_passes_itself_stay_readable() {
    // Set for every host with a stored password, and not a secret.
    assert_eq!(
        redact("ssh -o NumberOfPasswordPrompts=1 host"),
        "ssh -o NumberOfPasswordPrompts=1 host"
    );
    // openvpn is told where to read the credentials, not what they are.
    assert_eq!(
        redact("openvpn --auth-user-pass /dev/stdin"),
        "openvpn --auth-user-pass /dev/stdin"
    );
}

#[test]
fn an_ordinary_command_line_is_left_exactly_as_it_is() {
    let line = "ssh -N -o BatchMode=yes -L 127.0.0.1:5432:db.internal:5432 bastion";
    assert_eq!(redact(line), line);
    // -p is a port on ssh, but a password on xfreerdp: the flag that takes
    // a value is masked either way, and a port number is not a secret worth
    // keeping. Being wrong in this direction is the safe one.
    assert_eq!(redact("ssh -i ~/.ssh/id_ed25519 host"), "ssh -i ~/.ssh/id_ed25519 host");
}

#[test]
fn a_stored_secret_is_reported_as_present_and_nothing_more() {
    assert_eq!(secret_note(""), "not set");
    let note = secret_note("hunter2");
    assert!(note.contains('7'), "{note}");
    assert!(!note.contains("hunter"), "{note}");
}

#[test]
fn every_file_of_one_export_is_named_after_the_same_stem() {
    let at = 1_787_752_991;
    let stem = file_stem(&LogTarget::Tunnel("db prod".into()), at);
    assert_eq!(stem, "controlcenter-tunnel-db-prod-20260826-140311");
    assert_eq!(
        format!("{stem}{CHAIN_LOG_SUFFIX}"),
        "controlcenter-tunnel-db-prod-20260826-140311-chain.log"
    );
}

#[test]
fn masking_twice_changes_nothing_more() {
    let once = redact("tool --auth-token=abc123 /p:hunter2");
    assert_eq!(redact(&once), once);
}

#[test]
fn a_command_line_is_one_string_with_its_secrets_masked() {
    let argv = vec!["xfreerdp3".to_string(), "/p:hunter2".to_string()];
    assert_eq!(command_line(&argv), format!("xfreerdp3 /p:{REDACTED}"));
}
