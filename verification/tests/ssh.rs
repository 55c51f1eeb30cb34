//! Ssh command lines, windows and passwords.

use controlcenter::path::Os;
use controlcenter::platform::null_device;
use controlcenter::ssh::{
    build_args, carry_password, command_preview, password_helper, resolve_launch, session_argv,
    session_script, shell_quote, transfer_args, window_args, Launch, Machine, PasswordHelper,
    SessionOutcome, Terminal,
};
use controlcenter::types::SshHost;

fn machine() -> Machine {
    Machine { os: Os::Unix, home: Some("/home/me".into()) }
}

fn host() -> SshHost {
    SshHost {
        name: "h".into(),
        group: String::new(),
        host: "example.com".into(),
        port: 22,
        username: String::new(),
        key_path: String::new(),
        password: String::new(),
        skip_host_key_check: false,
        extra_args: String::new(),
        depends_on: String::new(),
        requires_vpn: String::new(),
    }
}

#[test]
fn default_port_and_user_stay_off_the_command_line() {
    assert_eq!(build_args(&host(), &machine()), vec!["example.com".to_string()]);
}

#[test]
fn user_port_key_and_extra_args_are_passed() {
    let h = SshHost {
        username: "root".into(),
        port: 2222,
        key_path: "/keys/id_ed25519".into(),
        extra_args: "-A".into(),
        ..host()
    };
    assert_eq!(
        build_args(&h, &machine()),
        vec![
            "-p",
            "2222",
            "-i",
            "/keys/id_ed25519",
            "-o",
            "IdentitiesOnly=yes",
            "-A",
            "root@example.com",
        ]
    );
}

#[test]
fn a_transfer_gets_the_same_options_with_the_port_flag_sftp_understands() {
    let h = SshHost {
        port: 2222,
        key_path: "/keys/id_ed25519".into(),
        // A `-p` of the user's own must not be mistaken for the port flag.
        extra_args: "-o Compression=yes -p".into(),
        ..host()
    };
    assert_eq!(
        transfer_args(&h, &machine()),
        vec![
            "-P",
            "2222",
            "-i",
            "/keys/id_ed25519",
            "-o",
            "IdentitiesOnly=yes",
            "-o",
            "Compression=yes",
            "-p",
        ]
    );
    // A default port is not on the command line at all, so nothing is swapped.
    assert_eq!(transfer_args(&host(), &machine()), Vec::<String>::new());
}

#[test]
fn skipping_host_key_verification_disables_both_checks() {
    let h = SshHost {
        skip_host_key_check: true,
        ..host()
    };
    let args = build_args(&h, &machine());
    assert!(args.contains(&"StrictHostKeyChecking=no".to_string()));
    assert!(args
        .iter()
        .any(|a| a.starts_with("UserKnownHostsFile=") && a.ends_with(null_device(Os::Unix))));
}

#[test]
fn a_windowed_session_script_quotes_what_the_shell_would_eat() {
    let h = SshHost {
        extra_args: "-o ProxyCommand=none".into(),
        ..host()
    };
    let script = session_script(&h, &PasswordHelper::Sshpass, &machine());
    assert!(script.starts_with("ssh -o ProxyCommand=none example.com"));
    // The window stays up after a failure so the error can be read.
    assert!(script.contains("read -r _"));
}

#[test]
fn a_password_goes_into_the_window_through_the_environment() {
    let h = SshHost {
        password: "hunter2".into(),
        ..host()
    };
    let script = session_script(&h, &PasswordHelper::Sshpass, &machine());
    assert!(script.starts_with("sshpass -e ssh"));
    assert!(!script.contains("hunter2"));

    // With no sshpass to wrap it, ssh is run directly and answers its own
    // prompt — but the password is still nowhere near the command line.
    let askpass = PasswordHelper::Askpass("/opt/controlcenter".into());
    let script = session_script(&h, &askpass, &machine());
    assert!(script.starts_with("ssh "));
    assert!(!script.contains("hunter2"));
}

#[test]
fn quoting_survives_spaces_and_quotes() {
    assert_eq!(shell_quote(Os::Unix, "plain"), "plain");
    assert_eq!(shell_quote(Os::Unix, "/home/me/id rsa"), "'/home/me/id rsa'");
    assert_eq!(shell_quote(Os::Unix, "it's"), "'it'\\''s'");
}

#[test]
fn quoting_survives_what_cmd_would_otherwise_eat() {
    assert_eq!(shell_quote(Os::Windows, "plain"), "plain");
    assert_eq!(shell_quote(Os::Windows, r"C:\Users\me\id rsa"), "\"C:\\Users\\me\\id rsa\"");
    // `&` starts a second command as far as cmd is concerned.
    assert_eq!(shell_quote(Os::Windows, "a&b"), "\"a&b\"");
}

#[test]
fn the_launch_preference_picks_the_mode() {
    assert_eq!(resolve_launch(Os::Unix, "inline", None, &Vec::new()), Launch::Inline);
    assert_eq!(
        resolve_launch(Os::Unix, "alacritty -e", None, &Vec::new()),
        Launch::Window(Terminal {
            program: "alacritty".into(),
            args: vec!["-e".into()],
        })
    );
}

#[test]
fn stored_password_never_appears_in_the_preview() {
    let h = SshHost {
        password: "hunter2".into(),
        ..host()
    };
    let preview = command_preview(&h, &PasswordHelper::Sshpass, &machine());
    assert!(!preview.contains("hunter2"));
    assert!(preview.starts_with("sshpass -e ssh"));
    // Nothing to wrap ssh with means nothing is claimed to wrap it.
    let preview = command_preview(&h, &PasswordHelper::Nothing, &machine());
    assert!(preview.starts_with("ssh "));
    assert!(!preview.contains("hunter2"));
}

#[test]
fn a_terminal_without_a_placeholder_gets_the_script_appended() {
    let term = Terminal { program: "sh".into(), args: vec!["-c".into(), "x".into()] };
    let script = session_script(&host(), &PasswordHelper::Sshpass, &machine());
    let args = window_args(Os::Unix, &term, &script);
    // The launcher appends `sh -c <script>`.
    assert_eq!(&args[..2], &["-c", "x"]);
    assert_eq!(&args[2..4], &["sh", "-c"]);
    assert!(args[4].starts_with("ssh example.com;"), "got {}", args[4]);
}

#[test]
fn a_placeholder_takes_the_script_wherever_it_sits() {
    let term = Terminal {
        program: "sh".into(),
        args: vec!["-c".into(), "x".into(), "{cmd}".into()],
    };
    let script = session_script(&host(), &PasswordHelper::Sshpass, &machine());
    let args = window_args(Os::Unix, &term, &script);
    assert_eq!(args.len(), 3);
    assert!(args[2].starts_with("ssh example.com;"), "got {}", args[2]);
}

#[test]
fn the_window_reads_the_password_from_the_environment() {
    let env = carry_password("hunter2", &PasswordHelper::Sshpass);
    assert!(env.iter().any(|(k, v)| k == "SSHPASS" && v == "hunter2"));
    assert!(carry_password("", &PasswordHelper::Sshpass).is_empty());
}

#[test]
fn without_sshpass_the_program_answers_for_itself() {
    assert_eq!(password_helper(true, None), PasswordHelper::Sshpass);
    assert_eq!(
        password_helper(false, Some("/opt/cc".into())),
        PasswordHelper::Askpass("/opt/cc".into())
    );
    assert_eq!(password_helper(false, None), PasswordHelper::Nothing);
}

#[test]
fn a_session_is_started_with_the_command_that_is_shown() {
    let argv = session_argv(&host(), &PasswordHelper::Nothing, &machine());
    assert_eq!(
        argv.join(" "),
        command_preview(&host(), &PasswordHelper::Nothing, &machine())
    );
}

#[test]
fn a_window_does_not_say_how_ssh_ended() {
    let windowed = SessionOutcome { code: 1, duration: 0, finished_at: 0, windowed: true };
    assert_eq!(windowed.label(), "window closed");
    assert!(!windowed.failed());
    let inline = SessionOutcome { code: 255, duration: 0, finished_at: 0, windowed: false };
    assert_eq!(inline.label(), "exited (255)");
    assert!(inline.failed());
}
