//! What is run for a tunnel, and how it is doing.

use controlcenter::tunnel::{build_args, poll, Seen, Status};
use controlcenter::types::{ForwardType, Tunnel};

fn tunnel(forward: ForwardType) -> Tunnel {
    Tunnel {
        name: "db".into(),
        group: String::new(),
        ssh_host: "bastion".into(),
        forward,
        local_port: 5432,
        remote_host: "db.internal".into(),
        remote_port: 5432,
        extra_args: "-J jump".into(),
        auto_reconnect: false,
        requires_vpn: String::new(),
        depends_on: String::new(),
    }
}

#[test]
fn a_local_forward_binds_the_internal_port_and_the_relay_takes_the_real_one() {
    let args = build_args(&tunnel(ForwardType::Local), Some(40001));
    assert_eq!(args[0], "ssh");
    assert!(args.contains(&"-L".to_string()));
    assert!(args.contains(&"127.0.0.1:40001:db.internal:5432".to_string()));
    // extra args come before the destination, which is always last.
    assert_eq!(args.last().unwrap(), "bastion");
    assert!(args.contains(&"-J".to_string()));
}

#[test]
fn a_remote_forward_has_no_internal_port_at_all() {
    let args = build_args(&tunnel(ForwardType::Remote), None);
    assert!(args.contains(&"5432:db.internal:5432".to_string()));
    assert!(!args.iter().any(|a| a.contains("<port>")));
}

#[test]
fn without_a_port_the_preview_says_so_rather_than_inventing_one() {
    // What the report prints for a tunnel that is not running.
    let args = build_args(&tunnel(ForwardType::Dynamic), None);
    assert!(args.contains(&"127.0.0.1:<port>".to_string()));
}

#[test]
fn a_tunnel_whose_ssh_exits_has_failed_with_the_last_thing_it_said() {
    let exit = Seen::Exited("exit status: 255".into());
    let (status, why) = poll(Status::Up, None, &exit, Some("Connection refused"));
    assert_eq!(status, Status::Failed);
    assert_eq!(why.as_deref(), Some("Connection refused"));
    let (_, why) = poll(Status::Connecting, None, &exit, None);
    assert_eq!(why.as_deref(), Some("ssh exited (exit status: 255)"));
    let (_, why) = poll(Status::Up, None, &Seen::Unknown("no child".into()), None);
    assert_eq!(why.as_deref(), Some("wait failed: no child"));
}

#[test]
fn a_tunnel_is_up_once_its_port_answers() {
    let quiet = Seen::Alive { answers: Some(false), age: 60_000 };
    assert_eq!(poll(Status::Connecting, None, &quiet, None).0, Status::Connecting);
    let answers = Seen::Alive { answers: Some(true), age: 0 };
    assert_eq!(poll(Status::Connecting, None, &answers, None).0, Status::Up);
}

#[test]
fn a_remote_forward_is_up_after_a_grace_period() {
    let young = Seen::Alive { answers: None, age: 3_000 };
    assert_eq!(poll(Status::Connecting, None, &young, None).0, Status::Connecting);
    let old = Seen::Alive { answers: None, age: 3_001 };
    assert_eq!(poll(Status::Connecting, None, &old, None).0, Status::Up);
}

#[test]
fn a_failed_tunnel_stays_failed() {
    let answers = Seen::Alive { answers: Some(true), age: 0 };
    let (status, why) = poll(Status::Failed, Some("gone".into()), &answers, None);
    assert_eq!(status, Status::Failed);
    assert_eq!(why.as_deref(), Some("gone"));
}
