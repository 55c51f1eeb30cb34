//! Browsing a remote machine.

use controlcenter::path::Os;
use controlcenter::remote_path::{base_name, join_remote, parent_remote, split_remote};
use controlcenter::sftp::{
    command_line, death_note, is_chatter, parse_listing, parse_ls_line, quote, reply_line,
    take_error, LineKind, Listing, RemoteBrowser, RemoteEntry, RemoteKind, Request,
};
use controlcenter::ssh::{Machine, PasswordHelper};
use controlcenter::types::SshHost;

fn machine() -> Machine {
    Machine { os: Os::Unix, home: Some("/home/me".into()) }
}

fn host() -> SshHost {
    SshHost {
        name: "h".into(),
        group: String::new(),
        host: "example.com".into(),
        port: 22,
        username: "app".into(),
        key_path: String::new(),
        password: String::new(),
        skip_host_key_check: false,
        extra_args: String::new(),
        depends_on: String::new(),
        requires_vpn: String::new(),
    }
}

#[test]
fn a_listing_line_gives_the_kind_the_size_and_the_whole_name() {
    let e = parse_ls_line("-rw-r--r--    1 app  app      124000 Sep 20 11:23 a file.txt")
        .expect("a file");
    assert_eq!(e.name, "a file.txt");
    assert_eq!(e.kind, RemoteKind::File);
    assert_eq!(e.size, 124_000);

    let d = parse_ls_line("drwxr-xr-x    5 app  app        4096 Sep 20 11:23 logs")
        .expect("a directory");
    assert!(d.is_dir());
    assert_eq!(d.name, "logs");
}

#[test]
fn a_listing_asked_for_by_path_comes_back_by_path_and_is_read_by_name() {
    // `ls -la /srv/app` answers with what it matched, in full.
    let e = parse_ls_line("-rw-r--r-- 1 app app 22 Sep 20 11:23 /srv/app/notes.txt")
        .expect("a file");
    assert_eq!(e.name, "notes.txt");
    let lines = vec![
        "drwxr-xr-x ? app app 120 Sep 20 11:23 /srv/app/.".to_string(),
        "drwxr-xr-x ? app app 240 Sep 20 11:23 /srv/app/..".to_string(),
        "-rw-r--r-- ? app app  22 Sep 20 11:23 /srv/app/notes.txt".to_string(),
    ];
    let names: Vec<String> = parse_listing(&lines)
        .entries
        .into_iter()
        .map(|e| e.name)
        .collect();
    assert_eq!(names, vec!["notes.txt"]);
}

#[test]
fn getting_there_is_not_an_error_however_much_ssh_says_about_it() {
    assert!(is_chatter("Connected to 127.0.0.1."));
    assert!(is_chatter(
        "Warning: Permanently added '[127.0.0.1]:2222' (ED25519) to the list of known hosts."
    ));
    assert!(!is_chatter("remote readdir(\"/root\"): Permission denied"));
}

#[test]
fn a_symlink_keeps_its_name_and_not_its_target() {
    let l = parse_ls_line("lrwxrwxrwx    1 app  app           7 Sep 20 11:23 current -> v3")
        .expect("a link");
    assert_eq!(l.name, "current");
    assert_eq!(l.kind, RemoteKind::Link);
    // Walking into one is worth a try; the listing that comes back says
    // whether it was a directory.
    assert!(l.navigable());
}

#[test]
fn a_line_that_is_not_a_listing_is_dropped_rather_than_guessed_at() {
    assert!(parse_ls_line("total 48").is_none());
    assert!(parse_ls_line("srwxr-xr-x 1 app app 0 Sep 20 11:23 sock").is_none());
    assert!(parse_ls_line("").is_none());
    assert!(parse_ls_line("-rw-r--r-- 1 app app").is_none());
}

#[test]
fn dot_entries_go_and_folders_come_first() {
    let lines: Vec<String> = [
        "drwxr-xr-x 5 app app 4096 Sep 20 11:23 .",
        "drwxr-xr-x 5 app app 4096 Sep 20 11:23 ..",
        "-rw-r--r-- 1 app app   12 Sep 20 11:23 b.conf",
        "drwxr-xr-x 2 app app 4096 Sep 20 11:23 Zeta",
        "-rw-r--r-- 1 app app   12 Sep 20 11:23 a.conf",
        "drwxr-xr-x 2 app app 4096 Sep 20 11:23 alpha",
    ]
    .iter()
    .map(|s| s.to_string())
    .collect();
    let names: Vec<String> = parse_listing(&lines)
        .entries
        .into_iter()
        .map(|e| e.name)
        .collect();
    assert_eq!(names, vec!["alpha", "Zeta", "a.conf", "b.conf"]);
}

#[test]
fn listing_a_file_gives_back_the_file_itself() {
    let listing =
        parse_listing(&["-rw-r--r-- 1 app app 12 Sep 20 11:23 /srv/notes.txt".to_string()]);
    assert!(listing.single_file("/srv/notes.txt"));
    assert!(!listing.single_file("/srv/other.txt"));

    // A directory of one file that shares its name is still a directory,
    // and says so by listing itself.
    let dir = parse_listing(&[
        "drwxr-xr-x ? app app 60 Sep 20 11:23 /srv/app/.".to_string(),
        "drwxr-xr-x ? app app 80 Sep 20 11:23 /srv/app/..".to_string(),
        "-rw-r--r-- ? app app 12 Sep 20 11:23 /srv/app/app".to_string(),
    ]);
    assert!(!dir.single_file("/srv/app"));
}

#[test]
fn the_pwd_reply_ends_a_command_and_the_echo_is_our_own() {
    assert_eq!(
        reply_line("Remote working directory: /srv/app\n"),
        LineKind::Marker("/srv/app".into())
    );
    assert_eq!(reply_line("sftp> -ls -la \"/srv\"\n"), LineKind::Skip);
    assert_eq!(reply_line("\n"), LineKind::Skip);
    assert_eq!(
        reply_line("Fetching /srv/a to /tmp/a\n"),
        LineKind::Output("Fetching /srv/a to /tmp/a".into())
    );
    // A meter that redrew itself is one line, not the whole reel of them.
    assert_eq!(
        reply_line("a  10%\ra  60%\ra 100%\n"),
        LineKind::Output("a 100%".into())
    );
}

#[test]
fn a_path_is_quoted_so_a_space_stays_one_argument() {
    assert_eq!(quote("/srv/a file"), "\"/srv/a file\"");
    assert_eq!(quote("/srv/say \"hi\""), "\"/srv/say \\\"hi\\\"\"");
}

#[test]
fn remote_paths_are_posix_whatever_this_machine_is() {
    assert_eq!(split_remote("/srv/app/"), ("/srv/app".into(), "".into()));
    assert_eq!(split_remote("/srv/ap"), ("/srv".into(), "ap".into()));
    assert_eq!(split_remote("/sr"), ("/".into(), "sr".into()));
    assert_eq!(split_remote("notes"), (".".into(), "notes".into()));

    assert_eq!(parent_remote("/srv/app/"), "/srv");
    assert_eq!(parent_remote("/srv"), "/");
    assert_eq!(parent_remote("/"), "/");
    assert_eq!(join_remote("/srv", "a"), "/srv/a");
    assert_eq!(join_remote("/", "a"), "/a");
    assert_eq!(base_name("/srv/app/"), "app");
}

fn listing(names: &[(&str, bool)]) -> Listing {
    Listing {
        entries: names
            .iter()
            .map(|(n, dir)| RemoteEntry {
                name: (*n).to_string(),
                kind: if *dir { RemoteKind::Dir } else { RemoteKind::File },
                size: 0,
            })
            .collect(),
        listed_self: true,
    }
}

#[test]
fn typing_filters_what_is_here_and_only_a_new_directory_is_asked_for() {
    let mut b = RemoteBrowser::new("/srv");
    assert_eq!(b.needs().as_deref(), Some("/srv"));
    // Asked once: until it comes back, typing must not ask again.
    assert_eq!(b.needs(), None);
    b.apply(
        "/srv",
        listing(&[("app", true), ("notes.txt", false), ("nope.txt", false)]),
        None,
    );
    assert_eq!(b.entries.len(), 3);

    for c in "not".chars() {
        b.push(c);
    }
    // Still the same directory, so nothing is asked for.
    assert_eq!(b.needs(), None);
    assert_eq!(b.entries.len(), 1);
    assert_eq!(b.entries[0].name, "notes.txt");

    b.backspace();
    b.backspace();
    b.backspace();
    assert_eq!(b.entries.len(), 3);
}

#[test]
fn walking_in_and_out_asks_for_the_directory_either_way() {
    let mut b = RemoteBrowser::new("/srv");
    b.needs();
    b.apply("/srv", listing(&[("app", true), ("keep.txt", false)]), None);

    b.descend();
    assert_eq!(b.input, "/srv/app/");
    assert_eq!(b.needs().as_deref(), Some("/srv/app"));
    b.apply("/srv/app", listing(&[("inner.txt", false)]), None);
    assert_eq!(b.entries[0].name, "inner.txt");

    b.ascend();
    assert_eq!(b.needs().as_deref(), Some("/srv"));
    b.apply("/srv", listing(&[("app", true), ("keep.txt", false)]), None);
    // Back where we came from, with it under the cursor.
    assert_eq!(b.selected_entry().map(|e| e.name.as_str()), Some("app"));
}

#[test]
fn a_listing_for_a_directory_nobody_is_looking_at_any_more_is_dropped() {
    let mut b = RemoteBrowser::new("/srv");
    b.needs();
    b.apply("/etc", listing(&[("passwd", false)]), None);
    assert!(b.entries.is_empty());
    assert_eq!(b.dir, "");
}

#[test]
fn a_listing_that_comes_after_the_path_was_changed_back_is_dropped() {
    let mut b = RemoteBrowser::new("/srv");
    b.needs();
    b.apply("/srv", listing(&[("app", true), ("keep.txt", false)]), None);
    b.descend();
    assert_eq!(b.needs().as_deref(), Some("/srv/app"));
    b.backspace();
    assert_eq!(b.needs(), None);
    b.apply("/srv/app", listing(&[("inner.txt", false)]), None);
    assert_eq!(b.dir, "/srv");
    assert_eq!(b.input, "/srv/app");
    assert_eq!(b.all.len(), 2);
    assert_eq!(b.all[0].name, "app");
    assert_eq!(b.error, None);
    // Nothing is asked for any more, so it can be asked for again.
    assert_eq!(b.pending, None);
}

#[test]
fn a_host_without_a_password_cannot_be_asked_for_one() {
    let argv = command_line(&host(), &PasswordHelper::Sshpass, &machine());
    assert_eq!(argv[0], "sftp");
    assert!(argv.windows(2).any(|w| w == ["-o", "BatchMode=yes"]));
    assert_eq!(argv.last().unwrap(), "app@example.com");
}

#[test]
fn a_stored_password_goes_through_sshpass_and_never_an_argument() {
    let h = SshHost {
        password: "hunter2".into(),
        port: 2222,
        ..host()
    };
    let argv = command_line(&h, &PasswordHelper::Sshpass, &machine());
    assert_eq!(&argv[..3], &["sshpass", "-e", "sftp"]);
    assert!(!argv.iter().any(|a| a.contains("hunter2")));
    // sftp spells the port `-P`, and BatchMode would forbid the very
    // password we have.
    assert!(argv.windows(2).any(|w| w == ["-P", "2222"]));
    assert!(!argv.iter().any(|a| a == "BatchMode=yes"));
}

#[test]
fn an_error_is_the_first_line_that_is_not_chatter() {
    let lines = vec!["Connected to host.".to_string(), "no such file".to_string()];
    assert_eq!(take_error(&lines).as_deref(), Some("no such file"));
    assert_eq!(take_error(&Vec::new()), None);
    assert!(!death_note(&Vec::new()).is_empty());
}

#[test]
fn what_turns_out_not_to_be_a_directory_is_given_up_on() {
    let mut b = RemoteBrowser::new("/srv");
    b.needs();
    b.apply("/srv", listing(&[("link", true)]), None);
    b.descend();
    assert_eq!(b.needs().as_deref(), Some("/srv/link"));
    b.cancel("/srv/link");
    assert_eq!(b.input, "/srv/");
    assert_eq!(b.needs(), None);
}

#[test]
fn joining_and_taking_the_parent_undo_each_other() {
    assert_eq!(parent_remote(&join_remote("/srv/app", "logs")), "/srv/app");
    assert_eq!(base_name(&join_remote("/srv/app", "logs")), "logs");
}

#[test]
fn a_request_is_one_command() {
    let r = Request::List("/srv/a b".into());
    assert!(r.command().contains("\"/srv/a b\""));
}
