//! Text as it is drawn.

use controlcenter::logs::{Entry, LogTarget};
use controlcenter::ui::{
    centered_rect, fmt_duration, human_bytes, human_rate, log_entry_lines, log_pane_title, scrolled,
    truncate_pub, wrap_text, Area,
};

#[test]
fn a_line_breaks_between_words_and_never_loses_one() {
    let text = "ssh -N -o BatchMode=yes bastion";
    let lines = wrap_text(text, 16);
    assert!(lines.len() > 1, "{lines:?}");
    assert!(lines.iter().all(|l| l.chars().count() <= 16), "{lines:?}");
    assert_eq!(lines.join(" "), text);
}

#[test]
fn a_word_wider_than_the_pane_is_cut_rather_than_left_to_overflow() {
    // A long path has nowhere to break.
    let lines = wrap_text("/very/long/path/to/a/config.ovpn", 10);
    assert!(lines.iter().all(|l| l.chars().count() <= 10), "{lines:?}");
    assert_eq!(lines.concat(), "/very/long/path/to/a/config.ovpn");
}

#[test]
fn an_empty_line_still_draws_as_one_row() {
    assert_eq!(wrap_text("", 20), vec![String::new()]);
}

#[test]
fn sizes_are_written_for_people() {
    assert_eq!(human_bytes(0), "0 B");
    assert_eq!(human_bytes(1023), "1023 B");
    assert_eq!(human_bytes(1024), "1.0 KiB");
    assert_eq!(human_bytes(1536), "1.5 KiB");
    assert_eq!(human_bytes(1_048_576), "1.0 MiB");
    assert_eq!(human_rate(1536), "1.5 KiB/s");
}

#[test]
fn times_are_written_for_people() {
    assert_eq!(fmt_duration(59), "59s");
    assert_eq!(fmt_duration(61), "1m01s");
    assert_eq!(fmt_duration(3_661), "1h01m");
}

#[test]
fn a_text_that_is_too_long_loses_its_tail() {
    assert_eq!(truncate_pub("abc", 3), "abc");
    assert_eq!(truncate_pub("abcd", 3), "ab…");
}

#[test]
fn a_value_that_is_too_long_shows_its_end() {
    assert_eq!(scrolled("abc", 10), "abc");
    assert!(scrolled("abcdefghij", 5).ends_with("ij"));
}

#[test]
fn a_box_is_in_the_middle() {
    let area = Area { x: 0, y: 0, width: 100, height: 40 };
    let r = centered_rect(60, 10, area);
    assert_eq!((r.x, r.y, r.width, r.height), (20, 15, 60, 10));
}

#[test]
fn a_log_line_is_stamped() {
    let e = Entry { at: 1_787_752_991_000, source: "ssh", text: "hello".into(), error: false };
    let rows = log_entry_lines(&e, 80);
    assert_eq!(rows.len(), 1);
    assert!(log_pane_title(&LogTarget::Program, 0).contains("controlcenter"));
}
