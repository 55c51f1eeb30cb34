//! The file picker.

use controlcenter::browser::{
    expand_tilde, sort_entries, split_input, starts_with_ci, Entry, FileBrowser,
};
use controlcenter::path::{file_name, join, parent, same_path, with_trailing_slash, Os};

#[test]
fn a_trailing_slash_lists_the_directory_itself() {
    assert_eq!(
        split_input(Os::Unix, "/etc/ssh/"),
        ("/etc/ssh".to_string(), String::new())
    );
}

#[test]
fn a_partial_name_filters_its_parent() {
    assert_eq!(
        split_input(Os::Unix, "/etc/ss"),
        ("/etc".to_string(), "ss".to_string())
    );
}

#[test]
fn a_name_in_the_root_still_lists_the_root() {
    assert_eq!(split_input(Os::Unix, "/us"), ("/".to_string(), "us".to_string()));
}

#[test]
fn folders_come_before_files() {
    let e = sort_entries(vec![
        Entry { name: "b.conf".into(), is_dir: false },
        Entry { name: "Zeta".into(), is_dir: true },
        Entry { name: "a.conf".into(), is_dir: false },
        Entry { name: "alpha".into(), is_dir: true },
    ]);
    let names: Vec<&str> = e.iter().map(|x| x.name.as_str()).collect();
    assert_eq!(names, vec!["alpha", "Zeta", "a.conf", "b.conf"]);
}

#[test]
fn filtering_ignores_case() {
    assert!(starts_with_ci("Documents", "doc"));
    assert!(starts_with_ci("anything", ""));
    assert!(!starts_with_ci("Documents", "x"));
}

#[test]
fn a_drive_root_lists_the_drive_and_not_its_working_directory() {
    assert_eq!(split_input(Os::Windows, r"C:\"), (r"C:\".to_string(), String::new()));
    assert_eq!(
        split_input(Os::Windows, r"C:\Users\fl"),
        (r"C:\Users".to_string(), "fl".to_string())
    );
    // Typed the other way round, which Windows also accepts.
    assert_eq!(
        split_input(Os::Windows, "C:/Users/fl"),
        ("C:/Users".to_string(), "fl".to_string())
    );
}
/// What is in the directory.
fn found(dirs: &[&str], files: &[&str]) -> Result<Vec<Entry>, String> {
    let mut all = Vec::new();
    for f in files {
        all.push(Entry { name: f.to_string(), is_dir: false });
    }
    for d in dirs {
        all.push(Entry { name: d.to_string(), is_dir: true });
    }
    Ok(all)
}

#[test]
fn listing_a_real_directory_finds_its_entries() {
    let mut b = FileBrowser::open(Os::Unix, "/tmp/controlcenter-browser-test/", None);
    assert_eq!(b.dir, "/tmp/controlcenter-browser-test");
    b.refresh(found(&["sub"], &["key.pem"]));
    assert_eq!(
        b.entries,
        vec![
            Entry { name: "sub".into(), is_dir: true },
            Entry { name: "key.pem".into(), is_dir: false },
        ]
    );

    // Typing narrows the listing to the matching file, and Enter picks it.
    for c in "key".chars() {
        b.push(c);
        b.refresh(found(&["sub"], &["key.pem"]));
    }
    assert_eq!(b.entries.len(), 1);
    assert_eq!(
        b.accept(),
        Some("/tmp/controlcenter-browser-test/key.pem".to_string())
    );
}

#[test]
fn enter_on_a_folder_walks_into_it_instead_of_picking_it() {
    let mut b = FileBrowser::open(Os::Unix, "/tmp/controlcenter-browser-descend/", None);
    b.refresh(found(&["sub"], &[]));
    assert_eq!(b.accept(), None);
    assert_eq!(
        b.input,
        with_trailing_slash(Os::Unix, "/tmp/controlcenter-browser-descend/sub")
    );
    b.refresh(found(&[], &[]));

    // And back out again, with the directory we left selected.
    b.ascend();
    b.refresh(found(&["sub"], &[]));
    assert_eq!(b.selected_entry().map(|e| e.name.as_str()), Some("sub"));
}

#[test]
fn an_empty_field_opens_on_the_home_directory() {
    let b = FileBrowser::open(Os::Unix, "  ", Some("/home/me".to_string()));
    assert_eq!(b.input, "/home/me/");
    assert_eq!(b.dir, "/home/me");
    let c = FileBrowser::open(Os::Unix, "", None);
    assert_eq!(c.input, "./");
}

#[test]
fn a_tilde_is_the_home_directory() {
    let b = FileBrowser::open(Os::Unix, "~/.ssh/id", Some("/home/me".to_string()));
    assert_eq!(b.dir, "/home/me/.ssh");
    assert_eq!(expand_tilde(Os::Unix, "~", Some("/home/me")), "/home/me");
    assert_eq!(expand_tilde(Os::Unix, "~/x", Some("/home/me")), "/home/me/x");
    assert_eq!(expand_tilde(Os::Unix, "/etc", Some("/home/me")), "/etc");
}

#[test]
fn a_directory_that_cannot_be_read_says_so() {
    let mut b = FileBrowser::open(Os::Unix, "/root/", None);
    b.refresh(Err("permission denied".to_string()));
    assert_eq!(b.error.as_deref(), Some("/root: permission denied"));
    assert!(b.entries.is_empty());
}

#[test]
fn the_cursor_goes_round() {
    let mut b = FileBrowser::open(Os::Unix, "/x/", None);
    b.refresh(found(&["a", "b"], &[]));
    b.down();
    assert_eq!(b.selected, 1);
    b.down();
    assert_eq!(b.selected, 0);
    b.up();
    assert_eq!(b.selected, 1);
    b.descend();
    assert_eq!(b.input, "/x/b/");
}

#[test]
fn with_nothing_listed_the_typed_path_is_taken_at_its_word() {
    let mut b = FileBrowser::open(Os::Unix, "/x/new.pem", None);
    b.refresh(found(&[], &[]));
    assert_eq!(b.accept(), Some("/x/new.pem".to_string()));
}

#[test]
fn a_relative_directory_has_the_working_directory_above_it() {
    let mut b = FileBrowser::open(Os::Unix, "sub/", None);
    assert_eq!(b.dir, "sub");
    b.refresh(found(&[], &["x"]));
    b.ascend();
    assert_eq!(b.input, "./");
    b.refresh(found(&["other", "sub"], &[]));
    assert_eq!(b.selected_entry().map(|e| e.name.as_str()), Some("sub"));
    // And further up from there.
    b.ascend();
    assert_eq!(b.input, "../");
}

#[test]
fn on_windows_a_backslash_walks_too() {
    let mut b = FileBrowser::open(Os::Windows, r"C:\keys\", None);
    assert_eq!(b.dir, r"C:\keys");
    b.refresh(found(&["old"], &[]));
    b.descend();
    assert_eq!(b.input, r"C:\keys\old\");
    b.refresh(found(&[], &[]));
    b.ascend();
    assert_eq!(b.input, r"C:\keys\");
    b.refresh(found(&["new", "old"], &[]));
    assert_eq!(b.selected_entry().map(|e| e.name.as_str()), Some("old"));
}

#[test]
fn two_paths_are_the_same_by_their_segments() {
    assert!(same_path(Os::Unix, "/run//cc/x.pid", "/run/cc/./x.pid"));
    assert!(same_path(Os::Unix, "/run/cc/", "/run/cc"));
    assert!(!same_path(Os::Unix, "/run/cc", "run/cc"));
    assert!(!same_path(Os::Unix, "/run/cc/x", "/run/cc/y"));
    assert!(!same_path(Os::Unix, "/a/b/../c", "/a/c"));
    assert!(same_path(Os::Windows, r"C:\run\cc", "C:/run/cc"));
    assert!(!same_path(Os::Windows, r"C:\run", r"D:\run"));
}

#[test]
fn a_path_comes_apart_the_way_the_system_writes_it() {
    assert_eq!(join(Os::Windows, r"C:\cfg", "ssh.toml"), r"C:\cfg\ssh.toml");
    assert_eq!(join(Os::Unix, "/cfg", "/etc/x"), "/etc/x");
    assert_eq!(parent(Os::Windows, r"C:\cfg\ssh.toml").as_deref(), Some(r"C:\cfg"));
    assert_eq!(file_name(Os::Windows, r"C:\cfg\ssh.toml").as_deref(), Some("ssh.toml"));
    assert_eq!(file_name(Os::Unix, r"/cfg/a\b").as_deref(), Some(r"a\b"));
}
