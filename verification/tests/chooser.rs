//! The picker over a list.

use controlcenter::chooser::{Choice, Chooser, Row};

fn choices() -> Vec<Choice> {
    vec![
        Choice::plain("", "(none)"),
        Choice::plain("loose", "loose"),
        Choice::in_folder("prod-db", "db", "prod"),
        Choice::in_folder("prod-web", "web", "prod"),
        Choice::in_folder("test-db", "db", "test"),
    ]
}

fn labels(c: &Chooser) -> Vec<String> {
    c.rows
        .iter()
        .map(|r| match r {
            Row::Folder(f) => format!("{f}/"),
            Row::Choice { label, .. } => label.clone(),
        })
        .collect()
}

#[test]
fn the_top_level_is_what_is_in_no_group_and_then_the_groups() {
    // The same shape as every list in the program: ungrouped first.
    let c = Chooser::open("dep", choices(), "");
    assert_eq!(labels(&c), vec!["(none)", "loose", "prod/", "test/"]);
}

#[test]
fn a_folder_lists_its_own_members_by_their_short_names() {
    let mut c = Chooser::open("dep", choices(), "");
    c.selected = 2; // prod/
    assert_eq!(c.accept(), None);
    assert_eq!(c.folder, "prod");
    assert_eq!(labels(&c), vec!["db", "web"]);
    assert_eq!(c.accept(), Some("prod-db".to_string()));
}

#[test]
fn typing_at_the_top_level_searches_every_folder_at_once() {
    let mut c = Chooser::open("dep", choices(), "");
    for ch in "db".chars() {
        c.push(ch);
    }
    // Both "db" entries, each saying which group it came from.
    assert_eq!(labels(&c), vec!["prod / db", "test / db"]);
    assert_eq!(c.accept(), Some("prod-db".to_string()));
}

#[test]
fn typing_inside_a_folder_stays_inside_it() {
    let mut c = Chooser::open("dep", choices(), "prod-web");
    assert_eq!(c.folder, "prod");
    for ch in "d".chars() {
        c.push(ch);
    }
    assert_eq!(labels(&c), vec!["db"]);
}

#[test]
fn it_opens_on_the_value_the_field_already_holds() {
    let c = Chooser::open("dep", choices(), "test-db");
    assert_eq!(c.folder, "test");
    assert_eq!(
        c.selected_row(),
        Some(&Row::Choice {
            value: "test-db".into(),
            label: "db".into()
        })
    );
}

#[test]
fn backspace_clears_the_filter_and_then_leaves_the_folder() {
    let mut c = Chooser::open("dep", choices(), "prod-db");
    c.push('w');
    assert_eq!(labels(&c), vec!["web"]);
    c.backspace();
    assert_eq!(labels(&c), vec!["db", "web"]);
    c.backspace();
    assert_eq!(c.folder, "");
    // And the folder it came out of is what the cursor is on.
    assert_eq!(c.selected_row(), Some(&Row::Folder("prod".into())));
}

#[test]
fn a_search_that_matches_nothing_picks_nothing() {
    let mut c = Chooser::open("dep", choices(), "");
    for ch in "zzz".chars() {
        c.push(ch);
    }
    assert!(c.rows.is_empty());
    assert_eq!(c.accept(), None);
}

#[test]
fn the_total_counts_every_choice_once() {
    let c = Chooser::open("dep", choices(), "");
    assert_eq!(c.total(), 5);
}

#[test]
fn walking_into_a_folder_and_out_again_ends_on_it() {
    let mut c = Chooser::open("dep", choices(), "");
    c.selected = 3;
    c.descend();
    assert_eq!(c.folder, "test");
    c.ascend();
    assert_eq!(c.folder, "");
    assert_eq!(c.selected_row(), Some(&Row::Folder("test".into())));
}

#[test]
fn the_cursor_goes_round_the_rows() {
    let mut c = Chooser::open("dep", choices(), "");
    c.up();
    assert_eq!(c.selected, 3);
    c.down();
    assert_eq!(c.selected, 0);
}
