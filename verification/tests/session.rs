//! The conversation with sftp, and what Windows is told.

use controlcenter::app::Scan;
use controlcenter::platform::{icacls_argv, icacls_refusal, read_powershell, trustees};
use controlcenter::rdp::launch_notes;
use controlcenter::sftp::{MsgKind, Request};
use controlcenter::scanning::scan_lines;
use controlcenter::sftp_session::{meter_on, Reading, Reply};
use controlcenter::vpn::ProviderId;
use controlcenter::vpn_view::{Link, LinkKind, Process};

fn read_all(raws: &[&str]) -> Result<Reply, Reading> {
    let mut reading = Reading::new();
    for raw in raws {
        match reading.heard(raw) {
            Ok(reply) => return Ok(reply),
            Err(on) => reading = on,
        }
    }
    Err(reading)
}

#[test]
fn a_reply_is_complete_when_the_directory_answers() {
    let reply = read_all(&[
        "sftp> -ls -la \"/srv\"\n",
        "-rw-r--r--    1 0        0               5 Jan  1 10:00 a.txt\n",
        "\n",
        "sftp> -pwd\n",
        "Remote working directory: /srv\n",
        "never read",
    ])
    .expect("the marker ends it");
    assert_eq!(reply.cwd, "/srv");
    assert_eq!(reply.lines.len(), 1);
    let still = read_all(&["sftp> -pwd\n", "something\n"]).expect_err("no marker yet");
    assert_eq!(still.lines, vec!["something"]);
}

#[test]
fn the_meter_is_believed_when_it_says_it_is_on() {
    assert!(meter_on(&vec!["Progress meter enabled".to_string()]));
    assert!(!meter_on(&vec!["Progress meter disabled".to_string()]));
    assert!(!meter_on(&Vec::new()));
}

fn reply(lines: &[&str]) -> Reply {
    Reply { lines: lines.iter().map(|l| l.to_string()).collect(), cwd: "/srv".into() }
}

#[test]
fn a_listing_that_came_back_is_not_a_failure() {
    let errors = vec!["Couldn't stat remote file".to_string()];
    let req = Request::List("/srv".into());
    let found = "-rw-r--r--    1 0        0               5 Jan  1 10:00 a.txt";
    match req.report(Ok(reply(&[found])), &errors, 0) {
        MsgKind::Listed { dir, listing, error } => {
            assert_eq!(dir, "/srv");
            assert_eq!(listing.entries[0].name, "a.txt");
            assert_eq!(error, None);
        }
        _ => panic!("a listing"),
    }
    match req.report(Ok(reply(&[])), &errors, 0) {
        MsgKind::Listed { error, .. } => {
            assert_eq!(error.as_deref(), Some("Couldn't stat remote file"))
        }
        _ => panic!("a listing"),
    }
    assert!(!req.logged());
}

#[test]
fn a_copy_reports_what_was_complained_about() {
    let req = Request::Get { remote: "/srv/a".into(), local: "/tmp/a".into() };
    let errors = vec!["remote open(\"/srv/a\"): Permission denied".to_string()];
    match req.report(Ok(reply(&[])), &errors, 1500) {
        MsgKind::Transferred { error, took } => {
            assert_eq!(error.as_deref(), Some("remote open(\"/srv/a\"): Permission denied"));
            assert_eq!(took, 1500);
        }
        _ => panic!("a copy"),
    }
    assert!(req.logged());
}

#[test]
fn a_session_that_does_not_answer_is_closed() {
    let req = Request::Put { local: "/tmp/a".into(), remote: "/srv/a".into() };
    let news = req.report(Err("sftp ended".into()), &Vec::new(), 0);
    assert!(news.ends());
    match news {
        MsgKind::Closed { reason } => assert_eq!(reason, "sftp ended"),
        _ => panic!("closed"),
    }
    assert!(!req.report(Ok(reply(&[])), &Vec::new(), 0).ends());
}

#[test]
fn an_account_is_named_up_to_three_ways() {
    assert_eq!(trustees(Some("ann"), Some("CORP")), vec!["CORP\\ann", "ann", "*S-1-3-4"]);
    assert_eq!(trustees(Some("ann"), None), vec!["ann", "*S-1-3-4"]);
    assert_eq!(trustees(Some("ann"), Some("")), vec!["ann", "*S-1-3-4"]);
    assert_eq!(trustees(Some(""), Some("CORP")), vec!["*S-1-3-4"]);
    assert_eq!(trustees(None, Some("CORP")), vec!["*S-1-3-4"]);
}

#[test]
fn a_file_is_kept_to_one_account() {
    assert_eq!(
        icacls_argv("C:\\k", "ann", false),
        vec!["icacls", "C:\\k", "/inheritance:r", "/grant:r", "ann:F"]
    );
    assert_eq!(icacls_argv("C:\\d", "ann", true)[4], "ann:(OI)(CI)F");
    assert_eq!(icacls_refusal(" no such account \nmore", "", "ann:F"), "no such account ");
    assert_eq!(icacls_refusal("out", " err ", "ann:F"), "err");
    assert_eq!(icacls_refusal("", " ", "ann:F"), "icacls refused ann:F");
}

#[test]
fn powershell_fails_in_one_line() {
    assert_eq!(read_powershell(true, "a\n", "ignored"), Ok("a\n".to_string()));
    assert_eq!(read_powershell(false, "", " why\nwhere"), Err("why".to_string()));
    assert_eq!(read_powershell(false, "out", ""), Err("powershell failed".to_string()));
}

#[test]
fn mstsc_is_a_window_and_only_what_it_was_asked_is_said() {
    assert_eq!(launch_notes("C:\\x.rdp", false, false), vec!["── mstsc launched with C:\\x.rdp ──"]);
    assert_eq!(
        launch_notes("x", true, false),
        vec![
            "── Windows would not seal the password; mstsc will ask for it ──",
            "── mstsc launched with x ──",
        ]
    );
    assert_eq!(launch_notes("x", true, true).len(), 2);
    assert!(launch_notes("x", true, true)[1].contains("sealed to this account"));
}

#[test]
fn a_sweep_is_printed_without_secrets() {
    let empty = Scan { processes: Vec::new(), links: Vec::new(), error: None };
    assert_eq!(
        scan_lines(&empty, &Vec::new(), &Vec::new()),
        vec!["processes", "  none", "", "tunnel devices", "  none"]
    );
    let found = Scan {
        processes: vec![Process {
            pid: 42,
            provider: ProviderId::Openvpn,
            argv: vec!["openvpn".into(), "--password".into(), "hunter2".into()],
            uid: 0,
            age_secs: None,
        }],
        links: vec![Link { name: "tun0".into(), kind: LinkKind::Tun, addrs: Vec::new() }],
        error: None,
    };
    let lines = scan_lines(&found, &vec!["work.ovpn".to_string()], &vec!["10.8.0.2/24".to_string()]);
    assert_eq!(lines[1], "  openvpn  pid 42       root work.ovpn");
    assert!(lines[2].starts_with("           openvpn --password"), "{lines:?}");
    assert!(!lines[2].contains("hunter2"), "{lines:?}");
    assert_eq!(lines[5], "  tun0       10.8.0.2/24");
}
