//! Command lines, tables and paths of the platforms.

use controlcenter::path::{expand_home, Os};
use controlcenter::platform::{
    candidates, csv_field, csv_row, extra_dirs, is_path, kill_argv, null_device, parse_csv,
    places_to_look, split_command_line,
};
use controlcenter::ssh::Machine;

#[test]
fn a_windows_command_line_splits_the_way_the_kernel_wrote_it() {
    assert_eq!(
        split_command_line(r#""C:\Program Files\OpenVPN\bin\openvpn.exe" --config "C:\a b\config.ovpn""#),
        vec![
            r"C:\Program Files\OpenVPN\bin\openvpn.exe",
            "--config",
            r"C:\a b\config.ovpn",
        ]
    );
}

#[test]
fn a_trailing_backslash_before_a_quote_is_a_backslash() {
    // "C:\dir\" is a path ending in a separator, not an unterminated quote.
    assert_eq!(
        split_command_line(r#"openvpn --cd "C:\dir\\" --verb 3"#),
        vec!["openvpn", "--cd", r"C:\dir\", "--verb", "3"]
    );
}

#[test]
fn an_empty_command_line_has_no_arguments() {
    assert!(split_command_line("").is_empty());
    assert!(split_command_line("   ").is_empty());
}

#[test]
fn csv_rows_come_back_keyed_by_their_header() {
    let raw = "\"Name\",\"Status\"\r\n\"wg0\",\"Up\"\r\n\"Ethernet\",\"Disconnected\"\r\n";
    let rows = parse_csv(raw);
    assert_eq!(rows.len(), 2);
    assert_eq!(csv_field(&rows[0], "Name"), Some("wg0"));
    assert_eq!(csv_field(&rows[1], "status"), Some("Disconnected"));
    assert_eq!(csv_field(&rows[0], "nothing"), None);
}

#[test]
fn a_comma_inside_a_quoted_field_is_not_a_separator() {
    let raw = "\"Name\",\"Description\"\n\"wg0\",\"WireGuard Tunnel, v0.5\"\n";
    let rows = parse_csv(raw);
    assert_eq!(
        csv_field(&rows[0], "Description"),
        Some("WireGuard Tunnel, v0.5")
    );
}

#[test]
fn an_empty_column_reads_as_absent() {
    // PowerShell writes a null property as an empty field, which is what a
    // command line we are not allowed to read looks like.
    let raw = "\"ProcessId\",\"CommandLine\"\n\"1234\",\"\"\n";
    let rows = parse_csv(raw);
    assert_eq!(csv_field(&rows[0], "ProcessId"), Some("1234"));
    assert_eq!(csv_field(&rows[0], "CommandLine"), None);
}

#[test]
fn a_home_relative_path_needs_a_home_to_resolve_against() {
    // Whatever the platform calls it, `home` either answers or it does not;
    // the callers all have a fallback and none of them may panic.
    let nobody = Machine { os: Os::Unix, home: None };
    let _ = nobody.home();
    assert_eq!(nobody.home(), None);
    assert_eq!(expand_home(Os::Unix, "~/x", nobody.home()), "~/x");
}



#[test]
fn a_program_that_names_a_directory_is_a_path() {
    assert!(is_path("/definitely/not/here"));
    assert!(!is_path("ssh"));
}

#[test]
fn a_name_on_windows_is_tried_with_each_extension() {
    assert_eq!(candidates(Os::Unix, "ssh", ".EXE"), vec!["ssh"]);
    let all = candidates(Os::Windows, "ssh", ".EXE;.CMD");
    assert!(all.len() >= 2);
}

#[test]
fn a_process_is_ended_the_way_the_platform_does_it() {
    assert_eq!(kill_argv(Os::Unix, 42, false), vec!["kill", "-TERM", "42"]);
    assert_eq!(kill_argv(Os::Unix, 42, true), vec!["kill", "-KILL", "42"]);
    assert_eq!(null_device(Os::Unix), "/dev/null");
    assert_eq!(null_device(Os::Windows), "NUL");
}

#[test]
fn a_doubled_quote_in_a_field_is_one_quote() {
    assert_eq!(csv_row("\"a\"\"b\",c"), vec!["a\"b", "c"]);
}

#[test]
fn an_absolute_path_is_not_looked_up_on_path() {
    let dirs = vec!["/usr/bin".to_string()];
    let places = places_to_look(Os::Unix, "/definitely/not/here", &dirs, "");
    assert_eq!(places, vec!["/definitely/not/here"]);
    assert!(!std::path::Path::new(&places[0]).is_file());
}

#[test]
fn a_name_is_looked_for_in_every_directory_in_turn() {
    let dirs = vec!["/usr/bin".to_string(), "/opt/bin/".to_string()];
    assert_eq!(
        places_to_look(Os::Unix, "ssh", &dirs, ""),
        vec!["/usr/bin/ssh", "/opt/bin/ssh"]
    );
    let dirs = vec!["C:\\Windows".to_string()];
    assert_eq!(
        places_to_look(Os::Windows, "ssh", &dirs, ".EXE"),
        vec!["C:\\Windows\\ssh.EXE", "C:\\Windows\\ssh"]
    );
}

#[test]
fn windows_installers_leave_path_alone() {
    assert!(extra_dirs(Os::Unix, &vec!["/x".to_string()], None, None).is_empty());
    assert_eq!(
        extra_dirs(Os::Windows, &vec!["C:\\PF".to_string()], Some("C:\\L"), Some("C:\\W")),
        vec![
            "C:\\PF\\WireGuard",
            "C:\\PF\\OpenVPN\\bin",
            "C:\\PF\\Tailscale",
            "C:\\PF\\Netbird",
            "C:\\PF\\Pangolin",
            "C:\\L\\Programs\\Pangolin",
            "C:\\L\\Pangolin",
            "C:\\W\\System32",
        ]
    );
}
