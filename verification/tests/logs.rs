//! Log lines, and the times they carry.

use controlcenter::calendar::{civil_from_days, clock, file_stamp, stamp};
use controlcenter::logs::{Journal, LogTarget, Ring, JOURNAL_CAP, RING_CAP};
use controlcenter::vpn::ProviderId;

fn at(epoch_secs: u64) -> u64 {
    epoch_secs
}

#[test]
fn the_epoch_and_a_known_date_come_out_right() {
    assert_eq!(stamp(at(0)), "1970-01-01 00:00:00 UTC");
    // 2026-08-26 14:03:11 UTC.
    assert_eq!(stamp(at(1_787_752_991)), "2026-08-26 14:03:11 UTC");
    assert_eq!(file_stamp(at(1_787_752_991)), "20260826-140311");
    assert_eq!(clock(at(1_787_752_991)), "14:03:11");
}

#[test]
fn a_leap_day_is_a_day_of_its_own() {
    // 2024-02-29 00:00:00 UTC.
    assert_eq!(stamp(at(1_709_164_800)), "2024-02-29 00:00:00 UTC");
    // And the century that is not a leap year: 2100-03-01.
    assert_eq!(stamp(at(4_107_542_400)), "2100-03-01 00:00:00 UTC");
}

#[test]
fn a_ring_keeps_the_last_lines_and_drops_the_rest() {
    let mut ring = Ring::new("ssh");
    for i in 0..(RING_CAP + 10) {
        ring.push(i as u64, &format!("line {i}"));
    }
    let all = ring.all();
    assert_eq!(all.len(), RING_CAP);
    assert_eq!(all[0].text, "line 10");
    assert_eq!(ring.last_text().unwrap(), format!("line {}", RING_CAP + 9));
    assert_eq!(ring.recent(2).len(), 2);
    ring.clear();
    assert!(ring.all().is_empty());
}

#[test]
fn a_pane_shows_its_own_entries_and_the_program_pane_shows_them_all() {
    let mut j = Journal::default();
    j.note(0, LogTarget::Tunnel("db".into()), "started");
    j.fail(0, LogTarget::Tunnel("web".into()), "refused");
    j.note(0, LogTarget::Program, "plan built");

    let db = j.entries_for(&LogTarget::Tunnel("db".into()));
    assert_eq!(db.len(), 1);
    assert_eq!(db[0].text, "started");
    assert_eq!(j.entries_for(&LogTarget::Program).len(), 3);
    assert!(j.entries_for(&LogTarget::Tunnel("web".into()))[0].error);
}

#[test]
fn a_vpn_client_pane_shows_what_its_profiles_did() {
    let mut j = Journal::default();
    j.note(0, LogTarget::Vpn(ProviderId::Openvpn, "work".into()), "up");
    j.note(0, LogTarget::vpn(ProviderId::Openvpn), "refreshed");
    j.note(0, LogTarget::Vpn(ProviderId::Wireguard, "home".into()), "up");

    // The client itself sees both its own entries and its profiles'.
    assert_eq!(j.entries_for(&LogTarget::vpn(ProviderId::Openvpn)).len(), 2);
    // A profile sees its own, plus what the client did while it was up.
    let work = j.entries_for(&LogTarget::Vpn(ProviderId::Openvpn, "work".into()));
    assert_eq!(work.len(), 2);
    // And never another client's.
    assert_eq!(
        j.entries_for(&LogTarget::Vpn(ProviderId::Openvpn, "other".into()))
            .len(),
        1
    );
}

#[test]
fn clearing_a_pane_leaves_the_other_panes_alone() {
    let mut j = Journal::default();
    j.note(0, LogTarget::Tunnel("db".into()), "started");
    j.note(0, LogTarget::Rdp("desk".into()), "connected");
    j.clear_for(&LogTarget::Tunnel("db".into()));
    assert_eq!(j.all().len(), 1);
    assert_eq!(j.all()[0].1.text, "connected");
}

#[test]
fn a_name_with_spaces_and_slashes_still_makes_a_filename() {
    assert_eq!(LogTarget::Tunnel("DB / prod".into()).slug(), "tunnel-db-prod");
    assert_eq!(LogTarget::Program.slug(), "everything");
    assert_eq!(
        LogTarget::Vpn(ProviderId::Openvpn, "Work VPN".into()).slug(),
        "openvpn-work-vpn"
    );
}

#[test]
fn days_become_dates() {
    assert_eq!(civil_from_days(0), (1970, 1, 1));
    assert_eq!(civil_from_days(31 + 27), (1970, 2, 28));
    assert_eq!(civil_from_days(31 + 28), (1970, 3, 1));
    // 2000 is a leap year although it ends a century.
    assert_eq!(stamp(at(951_782_400)), "2000-02-29 00:00:00 UTC");
    assert_eq!(stamp(at(951_868_799)), "2000-02-29 23:59:59 UTC");
    assert_eq!(stamp(at(951_868_800)), "2000-03-01 00:00:00 UTC");
}

#[test]
fn a_ring_remembers_what_printed_the_line_and_when() {
    let mut ring = Ring::new("openvpn");
    ring.push(1234, "up");
    let e = &ring.all()[0];
    assert_eq!(e.at, 1234);
    assert_eq!(e.source, "openvpn");
    assert_eq!(e.text, "up");
    assert!(!e.error);
    assert_eq!(Ring::new("ssh").last_text(), None);
    assert_eq!(ring.recent(5).len(), 1);
}

#[test]
fn a_journal_drops_its_oldest_entries() {
    let mut j = Journal::default();
    for i in 0..(JOURNAL_CAP + 3) {
        j.note(i as u64, LogTarget::Program, &format!("entry {i}"));
    }
    assert_eq!(j.all().len(), JOURNAL_CAP);
    assert_eq!(j.all()[0].1.text, "entry 3");
    assert_eq!(j.all()[0].1.source, "controlcenter");
}

#[test]
fn a_pane_is_titled_after_what_it_is_about() {
    assert_eq!(LogTarget::Program.title(), "controlcenter");
    assert_eq!(LogTarget::Tunnel("db".into()).title(), "tunnel 'db'");
    assert!(LogTarget::Program.covers(&LogTarget::Rdp("x".into())));
    assert!(!LogTarget::Rdp("x".into()).covers(&LogTarget::Program));
}

#[test]
fn a_blank_line_is_not_kept_and_trailing_space_goes() {
    let mut ring = Ring::new("xfreerdp");
    ring.push_said(1, "  loading  \t");
    ring.push_said(2, " \t ");
    ring.push_said(3, "");
    let all = ring.all();
    assert_eq!(all.len(), 1);
    assert_eq!(all[0].text, "  loading");
    assert_eq!(all[0].source, "xfreerdp");
    assert_eq!(all[0].at, 1);
    assert!(!all[0].error);
}
