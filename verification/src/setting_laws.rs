//! What the settings mean, and what the smaller readers and writers owe.

use vstd::prelude::*;
use crate::app::{App, Awaited};
use crate::browser::{opt_string, Entry, FileBrowser};
use crate::chooser::{Chooser, Shown};
use crate::config::ticket_wanted;
use crate::driving::shortfall;
use crate::effects::{Act, Effect, Store};
use crate::list::{first_where, lemma_first_where};
use crate::live::{
    lemma_has_name, lemma_place, place_of, LiveOvpn, LiveRdp, Named, OvpnStatus,
};
use crate::activation_laws::is_running;
use crate::logs::Subject;
use crate::netbird::says_connected;
use crate::number::decimal;
use crate::panes::{settled, stored_acts};
use crate::path::Os;
use crate::platform::{column, paired, trustees_of};
use crate::rdp::{client_of, hex_digit, hex_of, Client, RdpStatus};
use crate::running::{fresh_ovpn, fresh_rdp, OvpnStart};
use crate::sftp::{RemoteBrowser, RemoteEntry};
use crate::split::starts;
use crate::ssh_tab::opening_acts;
use crate::text::{ascii_lowered, texts, trimmed};
use crate::theme::{law_themes_cycle, theme_for, ThemeId};
use crate::tick::tick_acts;
use crate::types::{OpenvpnProfile, VpnConfig};
use crate::ui::{nearest, rounded, size_text, spacing};
use crate::vpn::ProviderId;
use crate::vpn_form::VpnKey;
use crate::vpn_profiles::{
    checked_wireguard, import_outcome, imported_openvpn, key_made, wrote_wireguard, ImportFound,
};
use crate::vpn_view::behind;

verus! {

// ---------------------------------------------------------------------------
// Settings
// ---------------------------------------------------------------------------

/// `auto`, nothing and anything that is not known mean the client that the system
/// comes with; a client that is named is taken on either system.
pub proof fn law_rdp_client_follows_the_setting(os: Os, pref: Seq<char>)
    ensures
        ({
            let p = ascii_lowered(trimmed(pref));
            let c = client_of(os, pref);
            &&& p == "mstsc"@ ==> c == Client::Mstsc
            &&& p == "freerdp"@ || p == "xfreerdp3"@ ==> c == Client::Freerdp
            &&& p.len() == 0 || p == "auto"@ ==> c == if os == Os::Windows {
                Client::Mstsc
            } else {
                Client::Freerdp
            }
        }),
{
    reveal_strlit("mstsc");
    reveal_strlit("windows");
    reveal_strlit("freerdp");
    reveal_strlit("xfreerdp");
    reveal_strlit("xfreerdp3");
    reveal_strlit("auto");
    assert("windows"@[0] == 'w' && "freerdp"@[0] == 'f');
    assert("mstsc"@.len() == 5 && "windows"@.len() == 7 && "freerdp"@.len() == 7);
    assert("xfreerdp"@.len() == 8 && "xfreerdp3"@.len() == 9 && "auto"@.len() == 4);
}

/// A sudo ticket is asked for only where a client is installed that needs root, and
/// never where the setting says so.
pub proof fn law_ticket_is_asked_for_with_reason(mode: Seq<char>, clients: Seq<ProviderId>, os: Os)
    ensures
        ticket_wanted(mode, clients, os) ==> exists|i: int|
            0 <= i < clients.len() && (#[trigger] clients[i]) != ProviderId::Netbird,
        ascii_lowered(trimmed(mode)) == "never"@ ==> !ticket_wanted(mode, clients, os),
        ascii_lowered(trimmed(mode)) == "always"@ && (exists|i: int|
            0 <= i < clients.len() && ((#[trigger] clients[i]) == ProviderId::Openvpn || clients[i]
                == ProviderId::Wireguard)) ==> ticket_wanted(mode, clients, os),
{
    reveal_strlit("never");
    reveal_strlit("auto");
    reveal_strlit("always");
    assert("always"@.len() == 6 && "never"@.len() == 5 && "auto"@.len() == 4);
    if exists|i: int|
        0 <= i < clients.len() && ((#[trigger] clients[i]) == ProviderId::Openvpn || clients[i]
            == ProviderId::Wireguard) {
        let i = choose|i: int|
            0 <= i < clients.len() && ((#[trigger] clients[i]) == ProviderId::Openvpn || clients[i]
                == ProviderId::Wireguard);
        assert(clients[i].needs_root_spec(os));
    }
    if ticket_wanted(mode, clients, os) {
        let i = choose|i: int| 0 <= i < clients.len() && (#[trigger] clients[i]).needs_root_spec(os);
        assert(clients[i] != ProviderId::Netbird);
    }
}

/// A theme is found by its name, whatever its case and the white space round it; a
/// name that no theme has gives the dark one.
pub proof fn law_theme_is_found_by_name(t: ThemeId, name: Seq<char>)
    ensures
        ascii_lowered(trimmed(name)) == t.name_spec() ==> theme_for(name) == t,
        (forall|u: ThemeId| ascii_lowered(trimmed(name)) != #[trigger] u.name_spec()) ==> theme_for(
            name,
        ) == ThemeId::Dark,
{
    law_themes_cycle(t);
    if forall|u: ThemeId| ascii_lowered(trimmed(name)) != #[trigger] u.name_spec() {
        assert(ascii_lowered(trimmed(name)) != ThemeId::Dracula.name_spec());
        assert(ascii_lowered(trimmed(name)) != ThemeId::Nord.name_spec());
        assert(ascii_lowered(trimmed(name)) != ThemeId::Gruvbox.name_spec());
    }
}

// ---------------------------------------------------------------------------
// Numbers
// ---------------------------------------------------------------------------

/// What a hexadecimal digit stands for.
pub open spec fn hex_value(c: char) -> int {
    if '0' <= c && c <= '9' {
        c as int - '0' as int
    } else {
        c as int - 'A' as int + 10
    }
}

/// Bytes written as hexadecimal digits can be read back: two for each, the higher
/// one first.
pub proof fn law_hex_reads_back(bytes: Seq<u8>, i: int)
    requires
        0 <= i < bytes.len(),
    ensures
        hex_of(bytes).len() == 2 * bytes.len(),
        hex_value(hex_of(bytes)[2 * i]) * 16 + hex_value(hex_of(bytes)[2 * i + 1]) == bytes[i],
    decreases bytes.len(),
{
    let head = bytes.drop_last();
    if head.len() == 0 {
        assert(hex_of(head).len() == 0);
    } else {
        let k: int = if i < head.len() { i } else { 0 };
        law_hex_reads_back(head, k);
        assert(head[k] == bytes[k]);
    }
    if i == head.len() {
        let b = bytes.last() as int;
        assert(0 <= b / 16 < 16 && 0 <= b % 16 < 16);
        lemma_hex_digit(b / 16);
        lemma_hex_digit(b % 16);
        assert(hex_of(bytes)[2 * i] == hex_digit(b / 16));
        assert(hex_of(bytes)[2 * i + 1] == hex_digit(b % 16));
    } else {
        assert(hex_of(bytes)[2 * i] == hex_of(head)[2 * i]);
        assert(hex_of(bytes)[2 * i + 1] == hex_of(head)[2 * i + 1]);
    }
}

proof fn lemma_hex_digit(n: int)
    requires
        0 <= n < 16,
    ensures
        hex_value(hex_digit(n)) == n,
{
}

/// A whole number of kibi-, mebi- or gibibytes is written as that number, and less
/// than a kibibyte in bytes.
pub proof fn law_sizes_are_written_in_their_unit(k: nat)
    ensures
        k < 1024 ==> size_text(k) == decimal(k) + " B"@,
        1 <= k < 1024 ==> size_text(k * 0x400) == decimal(k) + "."@ + decimal(0) + " "@ + "KiB"@,
        1 <= k < 1024 ==> size_text(k * 0x100000) == decimal(k) + "."@ + decimal(0) + " "@ + "MiB"@,
        1 <= k < 1024 ==> size_text(k * 0x40000000) == decimal(k) + "."@ + decimal(0) + " "@
            + "GiB"@,
{
    if k < 1024 {
        lemma_small(k);
        lemma_small(k * 0x400);
        lemma_small(k * 0x100000);
        lemma_small(k * 0x40000000);
        assert((k * 0x400) * 10 == (k * 10) * 0x400);
        assert((k * 0x100000) * 10 == (k * 10) * 0x100000);
        assert((k * 0x40000000) * 10 == (k * 10) * 0x40000000);
        lemma_exact(k * 10, 0x400);
        lemma_exact(k * 10, 0x100000);
        lemma_exact(k * 10, 0x40000000);
        assert((k * 10) / 10 == k && (k * 10) % 10 == 0);
    }
}

proof fn lemma_small(n: nat)
    requires
        n < 0x20_0000_0000_0000,
    ensures
        rounded(n) == n,
{
    assert(spacing(n) == 1);
    assert(n / 1 == n && n % 1 == 0);
}

proof fn lemma_exact(q: nat, m: nat)
    requires
        m > 0,
    ensures
        nearest(q * m, m) == q,
{
    vstd::arithmetic::div_mod::lemma_div_multiples_vanish(q as int, m as int);
    vstd::arithmetic::div_mod::lemma_mod_multiples_basic(q as int, m as int);
    assert(q * m == m * q) by (nonlinear_arith);
}

// ---------------------------------------------------------------------------
// Tables and command lines
// ---------------------------------------------------------------------------

/// Each field of a row stands under its own header.
pub proof fn law_fields_stand_under_their_headers(header: Seq<Seq<char>>, row: Seq<Seq<char>>, i: int)
    requires
        0 <= i < header.len(),
        i < row.len(),
    ensures
        paired(header, row)[i] == (header[i], row[i]),
        paired(header, row).len() <= header.len(),
        paired(header, row).len() <= row.len(),
{
}

/// A column is found by its header, whatever the case; where it is empty or not
/// there, there is no value.
pub proof fn law_column_is_found_by_its_header(row: Seq<(String, String)>, key: Seq<char>, i: int)
    requires
        0 <= i < row.len(),
        ascii_lowered(row[i].0@) == ascii_lowered(key),
        forall|k: int| 0 <= k < i ==> ascii_lowered((#[trigger] row[k]).0@) != ascii_lowered(key),
    ensures
        row[i].1@.len() > 0 ==> column(row, key) == Some(row[i].1@),
        row[i].1@.len() == 0 ==> column(row, key) is None,
{
    let p = crate::platform::header_is(key);
    assert forall|k: int| 0 <= k < i implies !p(#[trigger] row[k]) by {}
    crate::list::lemma_first_where_is(row, p, i);
}

/// What a process was given with a flag is the argument right behind it.
pub proof fn law_argument_stands_behind_its_flag(args: Seq<Seq<char>>, flag: Seq<char>, i: int)
    requires
        0 <= i < args.len() - 1,
        args[i] == flag,
        forall|k: int| 0 <= k < i ==> #[trigger] args[k] != flag,
    ensures
        behind(args, flag) == Some(args[i + 1]),
{
    let p = crate::vpn_view::is_text(flag);
    assert forall|k: int| 0 <= k < i implies !p(#[trigger] args[k]) by {}
    crate::list::lemma_first_where_is(args, p, i);
}

/// Netbird counts as connected exactly where it says that of its management server.
pub proof fn law_netbird_says_when_it_is_connected(fs: Seq<(Seq<char>, Seq<char>)>, i: int)
    requires
        0 <= i < fs.len(),
    ensures
        fs[i].0 == "Management"@ && starts(fs[i].1, "Connected"@) ==> says_connected(fs),
        (forall|k: int| 0 <= k < fs.len() && (#[trigger] fs[k]).0 == "Management"@ ==> !starts(
            fs[k].1,
            "Connected"@,
        )) ==> !says_connected(fs),
{
}

/// An access list names the user, with the domain first where there is one, and
/// falls back on whoever owns the file.
pub proof fn law_access_is_granted_to_the_user(user: Seq<char>, domain: Option<Seq<char>>)
    requires
        user.len() > 0,
    ensures
        trustees_of(Some(user), domain).contains(user),
        trustees_of(Some(user), domain).last() == "*S-1-3-4"@,
        domain is Some && (domain->0).len() > 0 ==> trustees_of(Some(user), domain)[0] == domain->0
            + "\\"@ + user,
        trustees_of(None, domain) == seq!["*S-1-3-4"@],
{
    let all = trustees_of(Some(user), domain);
    assert(all[all.len() - 2] == user);
    assert(trustees_of(None, domain) =~= seq!["*S-1-3-4"@]);
}

// ---------------------------------------------------------------------------
// What is said and kept
// ---------------------------------------------------------------------------

/// What is said stands in the status bar, and what is noted is the newest entry of
/// the journal, about what it is about.
pub proof fn law_news_is_shown_and_kept(a: App, b: App, e: Effect, now: u64)
    requires
        settled(a, b, e, now),
    ensures
        e matches Effect::Flash(text, error) ==> b.status_msg is Some && (b.status_msg->0).text@
            == text@ && (b.status_msg->0).error == error && b.journal == a.journal,
        e matches Effect::Note(to, text, error) ==> b.journal.held().len() > 0
            && b.journal.held().last().0@ == to@ && b.journal.held().last().1.text@ == text@
            && b.journal.held().last().1.error == error && b.journal.held().last().1.at == now
            && b.status_msg == a.status_msg,
        !(e is Flash) && !(e is Note) ==> b == a,
{
}

/// A file of settings that could not be written is reported as an error; one that
/// was written says what it was to say, and no error of its own.
pub proof fn law_failed_save_is_reported(
    store: Store,
    result: Result<(), String>,
    then_say: Option<(String, bool)>,
)
    ensures
        result is Err && store != Store::Config ==> stored_acts(store, result, then_say).len() == 1
            && (stored_acts(store, result, then_say)[0] matches Act::Flash(_, error) && error),
        result is Ok && then_say is None ==> stored_acts(store, result, then_say).len() == 0,
        result is Ok ==> (then_say matches Some((text, error)) ==> stored_acts(
            store,
            result,
            then_say,
        ) == seq![Act::Flash(text@, error)]),
{
}

/// A step that was begun falls short exactly where what it was to start is not
/// running, or its client refused.
pub proof fn law_shortfall_is_what_is_not_running(a: App, w: Awaited)
    ensures
        w matches Awaited::Tunnel(n) ==> (shortfall(a, w) is None <==> is_running(a.active@, n@)),
        w matches Awaited::Openvpn(n) ==> (shortfall(a, w) is None <==> is_running(
            a.ovpn_active@,
            n@,
        )),
        w matches Awaited::Client(failed) ==> (shortfall(a, w) is None <==> failed is None),
        w is Nothing ==> shortfall(a, w) is None,
{
    match w {
        Awaited::Tunnel(n) => lemma_has_name(a.active@, n@),
        Awaited::Openvpn(n) => lemma_has_name(a.ovpn_active@, n@),
        _ => {},
    }
}

/// A fresh session goes by the name it was started under, runs or connects, and
/// remembers the command it was started with.
pub proof fn law_fresh_sessions(
    l: LiveRdp,
    o: LiveOvpn,
    name: Seq<char>,
    argv: Seq<Seq<char>>,
    s: OvpnStart,
    now: u64,
)
    requires
        fresh_rdp(l, name, argv, now),
        fresh_ovpn(o, name, s, now),
    ensures
        l.name@ == name && l.status == RdpStatus::Running && l.started_at == now && texts(l.argv@)
            == argv,
        o.name@ == name && o.status == OvpnStatus::Connecting && o.started_at == now && o.argv@
            == s.argv@ && o.pid_file@ == s.pid_file@,
        o.fault is None && !o.ended(),
{
}

/// The machine is swept every five seconds, and the sudo ticket kept from running
/// out every two minutes.
pub proof fn law_what_is_due(a: App, now: u64)
    ensures
        a.scan_at is None || now - a.scan_at->0 >= 5_000 ==> tick_acts(a, now).contains(Act::Scan),
        now - a.ticket_at >= 120_000 ==> tick_acts(a, now).contains(Act::KeepTicket),
{
    let all = tick_acts(a, now);
    let n = crate::tick::due_acts(a.vpn.providers@, now).len() as int;
    if a.scan_at is None || now - a.scan_at->0 >= 5_000 {
        assert(all[n] == Act::Scan);
    }
    if now - a.ticket_at >= 120_000 {
        assert(all[all.len() - 1] == Act::KeepTicket);
    }
}

/// What is noted of a session that is opened goes into its host's log; one that
/// cannot be opened for want of a way to carry its password says so as an error.
pub proof fn law_opened_session_is_noted(a: App, k: int)
    requires
        0 <= k < a.ssh_hosts@.len(),
        forall|i: int| 0 <= i < k ==> (#[trigger] a.ssh_hosts@[i]).name@ != a.ssh_hosts@[k].name@,
    ensures
        ({
            let h = a.ssh_hosts@[k];
            let out = opening_acts(a, h.name@);
            &&& h.password@.len() > 0 && a.ssh_password_helper is Nothing ==> out.len() == 2 && (
            out[1] matches Act::Flash(_, error) && error)
            &&& h.password@.len() == 0 || !(a.ssh_password_helper is Nothing) ==> out.len() == 1 && (
            out[0] matches Act::Note(to, _, error) && to == Subject::Ssh(h.name@) && !error)
        }),
{
    let n = a.ssh_hosts@[k].name@;
    lemma_place(a.ssh_hosts@, n);
    assert(a.ssh_hosts@[k].name_spec() == n);
    if place_of(a.ssh_hosts@, n) < k {
        assert(a.ssh_hosts@[place_of(a.ssh_hosts@, n)].name_spec() == n);
    }
}

// ---------------------------------------------------------------------------
// Cursors of the pickers
// ---------------------------------------------------------------------------

/// The cursor of a listing goes to the directory that was left, where it is listed,
/// and stays in the list.
pub proof fn law_cursor_goes_to_what_was_left(
    shown: Seq<Entry>,
    remote: Seq<RemoteEntry>,
    at: int,
    leaf: Seq<char>,
    i: int,
)
    requires
        0 <= i,
    ensures
        i < shown.len() && shown[i].name@ == leaf ==> {
            let c = FileBrowser::cursor(shown, at, Some(leaf));
            0 <= c <= i && shown[c].name@ == leaf
        },
        i < remote.len() && remote[i].name@ == leaf ==> {
            let c = RemoteBrowser::cursor(remote, Some(leaf));
            0 <= c <= i && remote[c].name@ == leaf
        },
        RemoteBrowser::cursor(remote, None) == 0,
{
    let p = crate::browser::entry_named(leaf);
    let q = crate::sftp::remote_named(leaf);
    lemma_first_where(shown, p);
    lemma_first_where(remote, q);
    if i < shown.len() && shown[i].name@ == leaf {
        assert(p(shown[i]));
    }
    if i < remote.len() && remote[i].name@ == leaf {
        assert(q(remote[i]));
    }
}

/// Leaving a folder of a chooser leads to the top level, with nothing typed and
/// that folder under the cursor.
pub proof fn law_left_folder_is_under_the_cursor(was: Chooser, now: Chooser, i: int)
    requires
        Chooser::ascended(was, now),
        was.folder@.len() > 0,
        0 <= i < now.rows@.len(),
        now.rows@[i]@ == Shown::Folder(was.folder@),
    ensures
        now.folder@.len() == 0 && now.filter@.len() == 0,
        now.selected < now.rows@.len() && now.rows@[now.selected as int]@ == Shown::Folder(
            was.folder@,
        ),
{
    let rows = crate::chooser::shown_rows(now.rows@);
    let p = crate::chooser::is_folder(was.folder@);
    lemma_first_where(rows, p);
    assert(rows[i] == now.rows@[i]@);
    assert(p(rows[i]));
    let k = first_where(rows, p);
    assert(p(rows[k]));
    assert(rows[k] == now.rows@[k]@);
}

// ---------------------------------------------------------------------------
// Profiles that are made of files
// ---------------------------------------------------------------------------

/// A profile can be imported exactly where its file is there and everything it
/// needs was copied, or where it was imported before; one that is run in place
/// only where its file is there.
pub proof fn law_import_needs_its_files(o: OpenvpnProfile, f: ImportFound)
    ensures
        !o.import ==> (import_outcome(o, f) is Ok <==> f.source),
        o.import && !f.source ==> (import_outcome(o, f) is Ok <==> f.copy),
        o.import && f.source ==> (import_outcome(o, f) is Ok <==> (f.copied is Ok && (
        f.copied->Ok_0).0@.len() == 0)),
{
}

/// A profile is kept only once its files could be dealt with: where that failed
/// nothing is stored, the form stays open and says why.
pub proof fn law_failed_import_stores_nothing(
    a: App,
    b: App,
    copied: Result<Option<String>, String>,
    out: Seq<Act>,
)
    requires
        imported_openvpn(a, b, copied, out),
        a.vpn_mode is Form && a.vpn_mode->Form_provider == ProviderId::Openvpn,
    ensures
        copied is Err ==> b.vpn_cfg == a.vpn_cfg && b.vpn_mode == a.vpn_mode && opt_string(
            b.vpn_form.error,
        ) == Some((copied->Err_0)@) && out.len() == 0,
        copied is Ok && a.vpn_form.openvpn_fault(a.machine.os, a.machine.home_spec()) is None ==> {
            &&& b.vpn_mode is Closed
            &&& out.contains(Act::Save(Store::Vpn))
            &&& a.vpn_mode->Form_edit is None ==> b.vpn_cfg.openvpn@.len()
                == a.vpn_cfg.openvpn@.len() + 1 && b.vpn_cfg.openvpn@.drop_last()
                == a.vpn_cfg.openvpn@
            &&& a.vpn_mode->Form_edit matches Some(i) ==> b.vpn_cfg.openvpn@
                == a.vpn_cfg.openvpn@.update(i as int, b.vpn_cfg.openvpn@[i as int])
            &&& b.vpn_cfg == (VpnConfig { openvpn: b.vpn_cfg.openvpn, ..a.vpn_cfg })
        },
{
    if copied is Ok && a.vpn_form.openvpn_fault(a.machine.os, a.machine.home_spec()) is None {
        assert(out[out.len() - 3] == Act::Save(Store::Vpn));
        if a.vpn_mode->Form_edit is None {
            assert(b.vpn_cfg.openvpn@.drop_last() =~= a.vpn_cfg.openvpn@);
        }
    }
}

/// A WireGuard profile that the client's own rules refuse, or whose file could not
/// be written, leaves the form open with the reason in it.
pub proof fn law_refused_profile_keeps_the_form(
    a: App,
    b: App,
    c: App,
    result: Result<(), String>,
    out: Seq<Act>,
    more: Seq<Act>,
)
    requires
        checked_wireguard(a, b, result, out),
        wrote_wireguard(a, c, result, more),
        a.vpn_mode is Form && a.vpn_mode->Form_provider == ProviderId::Wireguard,
    ensures
        result is Err ==> b.vpn_cfg == a.vpn_cfg && b.vpn_mode == a.vpn_mode && opt_string(
            b.vpn_form.error,
        ) == Some((result->Err_0)@) && out.len() == 0,
        result is Err ==> c.vpn_mode == a.vpn_mode && opt_string(c.vpn_form.error) == Some(
            (result->Err_0)@,
        ) && more.len() == 0,
        result is Ok ==> c.vpn_mode is Closed && more.contains(Act::Save(Store::Vpn)),
{
    if result is Ok {
        assert(more[0] == Act::Save(Store::Vpn));
    }
}

/// A generated key goes into the field for the private key, and no other field
/// changes; the half that is shown is the public one.
pub proof fn law_generated_key_goes_into_its_field(
    a: App,
    b: App,
    private: String,
    public: String,
    out: Seq<Act>,
)
    requires
        key_made(a, b, Ok((private, public)), out),
    ensures
        b.vpn_form.word(VpnKey::PrivateKey) == private@,
        b.vpn_form.word(VpnKey::Name) == a.vpn_form.word(VpnKey::Name),
        b.vpn_cfg == a.vpn_cfg && b.vpn_mode == a.vpn_mode,
        out.len() == 1 && (out[0] matches Act::Flash(text, error) && !error && crate::split::ends(
            text,
            public@,
        )),
{
    let front = "generated a key — its public half is "@;
    let text = front + public@;
    assert(text.skip(text.len() - public@.len()) =~= public@);
}

} // verus!
