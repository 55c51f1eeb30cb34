//! The table of what is active, and the status bar.

use vstd::prelude::*;
use crate::activation::progress_of;
use crate::app::App;
use crate::dashboard::{running_names, session_names};
use crate::lists::{column, in_column};
use crate::live::{has_name, place_of, position, LiveTunnel};
use crate::number::{self, decimal};
use crate::parts::{ink_of_status, lasting, secs_since, status_ink};
use crate::screen::Tab;
use crate::session_lists::{ink_of_rdp, rdp_ink};
use crate::sheet::{
    add_bit, align, aligned, bit, bold, ink, line1, line3, line4, pieces, strong, Bit, Ink, Piece,
    Sheet,
};
use crate::text::{cat, cat3};
use crate::types::{ForwardType, Tunnel};
use crate::ui::{self, duration_text, fill, filled, size_text};

verus! {

// ---------------------------------------------------------------------------
// What is active
// ---------------------------------------------------------------------------

/// The last six columns of the table.
pub open spec fn six_columns(
    a: Seq<char>,
    b: Seq<char>,
    c: Seq<char>,
    d: Seq<char>,
    e: Seq<char>,
    f: Seq<char>,
) -> Seq<char> {
    aligned(a, 8) + " "@ + aligned(b, 13) + " "@ + aligned(c, 10) + " "@ + aligned(d, 10) + " "@
        + aligned(e, 9) + " "@ + aligned(f, 9)
}

fn columns(a: &str, b: &str, c: &str, d: &str, e: &str, f: &str) -> (r: String)
    ensures
        r@ == six_columns(a@, b@, c@, d@, e@, f@),
{
    let mut s = cat3(align(a, 8).as_str(), " ", align(b, 13).as_str());
    s.push_str(" ");
    s.push_str(align(c, 10).as_str());
    s.push_str(" ");
    s.push_str(align(d, 10).as_str());
    s.push_str(" ");
    s.push_str(align(e, 9).as_str());
    s.push_str(" ");
    s.push_str(align(f, 9).as_str());
    s
}

/// The head of the table.
pub open spec fn table_head() -> Seq<Piece> {
    seq![
        strong(
            " "@ + filled("name"@, 18) + " "@ + filled("type"@, 5) + " "@ + filled("status"@, 11)
                + " "@ + six_columns(
                "uptime"@,
                "conns"@,
                "↑/s"@,
                "↓/s"@,
                "↑ total"@,
                "↓ total"@,
            ),
            Ink::Dim,
        ),
    ]
}

fn head_bits() -> (r: Vec<Bit>)
    ensures
        pieces(r@) == table_head(),
{
    let mut s = cat3(" ", fill("name", 18).as_str(), " ");
    s.push_str(fill("type", 5).as_str());
    s.push_str(" ");
    s.push_str(fill("status", 11).as_str());
    s.push_str(" ");
    s.push_str(columns("uptime", "conns", "↑/s", "↓/s", "↑ total", "↓ total").as_str());
    line1(bold(s.as_str(), Ink::Dim))
}

/// The tunnel of that name forwards from the other end, where nothing is
/// counted.
pub open spec fn is_remote(ts: Seq<Tunnel>, name: Seq<char>) -> bool {
    has_name(ts, name) && ts[place_of(ts, name)].forward == ForwardType::Remote
}

/// A row of the table.
pub open spec fn table_row(
    name: Seq<char>,
    kind: Seq<char>,
    label: Seq<char>,
    colour: Ink,
    rest: Seq<char>,
) -> Seq<Piece> {
    seq![
        ink(" "@ + column(name, 18) + " "@, Ink::Text),
        ink(kind, Ink::Dim),
        ink(filled(label, 11) + " "@, colour),
        ink(rest, Ink::Text),
    ]
}

fn row_bits(name: &str, kind: &str, label: &str, colour: Ink, rest: &str) -> (r: Vec<Bit>)
    ensures
        pieces(r@) == table_row(name@, kind@, label@, colour, rest@),
{
    line4(
        bit(cat3(" ", in_column(name, 18).as_str(), " ").as_str(), Ink::Text),
        bit(kind, Ink::Dim),
        bit(cat(fill(label, 11).as_str(), " ").as_str(), colour),
        bit(rest, Ink::Text),
    )
}

pub open spec fn tunnel_columns(a: App, l: LiveTunnel, now: u64) -> Seq<char> {
    let age = duration_text(secs_since(now, l.started_at));
    if is_remote(a.tunnels@, l.name@) {
        six_columns(age, "-"@, "-"@, "-"@, "-"@, "-"@)
    } else {
        six_columns(
            age,
            decimal(l.counters.active_conns as nat) + " / "@ + decimal(
                l.counters.total_conns as nat,
            ),
            size_text(l.rate_tx as nat) + "/s"@,
            size_text(l.rate_rx as nat) + "/s"@,
            size_text(l.counters.tx as nat),
            size_text(l.counters.rx as nat),
        )
    }
}

pub open spec fn with_tunnel_rows(out: Seq<Seq<Piece>>, a: App, names: Seq<String>, now: u64) -> Seq<
    Seq<Piece>,
>
    decreases names.len(),
{
    if names.len() == 0 {
        out
    } else {
        let before = with_tunnel_rows(out, a, names.drop_last(), now);
        let name = names.last()@;
        if has_name(a.active@, name) {
            let l = a.active@[place_of(a.active@, name)];
            before.push(
                table_row(
                    name,
                    "ssh   "@,
                    l.status.label_spec(),
                    status_ink(l.status),
                    tunnel_columns(a, l, now),
                ),
            )
        } else {
            before
        }
    }
}

pub open spec fn with_rdp_rows(out: Seq<Seq<Piece>>, a: App, names: Seq<String>, now: u64) -> Seq<
    Seq<Piece>,
>
    decreases names.len(),
{
    if names.len() == 0 {
        out
    } else {
        let before = with_rdp_rows(out, a, names.drop_last(), now);
        let name = names.last()@;
        if has_name(a.rdp_active@, name) {
            let l = a.rdp_active@[place_of(a.rdp_active@, name)];
            before.push(
                table_row(
                    name,
                    "rdp   "@,
                    l.status.label_spec(),
                    rdp_ink(l.status),
                    six_columns(
                        duration_text(secs_since(now, l.started_at)),
                        "-"@,
                        "-"@,
                        "-"@,
                        "-"@,
                        "-"@,
                    ),
                ),
            )
        } else {
            before
        }
    }
}

/// The table of what is active: the tunnels by name, then the rdp sessions, or how
/// to start something where nothing is.
pub open spec fn active_rows(a: App, now: u64) -> Seq<Seq<Piece>> {
    let head = Seq::<Seq<Piece>>::empty().push(table_head());
    if running_names(a).len() == 0 && session_names(a).len() == 0 {
        head.push(
            seq![
                ink("  nothing active — start a tunnel [3] or an RDP session [5]"@, Ink::Dim),
            ],
        )
    } else {
        with_rdp_rows(
            with_tunnel_rows(head, a, running_names(a), now),
            a,
            session_names(a),
            now,
        )
    }
}

impl App {
    fn tunnel_numbers(&self, l: &LiveTunnel, now: u64) -> (r: String)
        ensures
            r@ == tunnel_columns(*self, *l, now),
    {
        let age = lasting(now, l.started_at);
        let remote = match position(self.tunnels.as_slice(), l.name.as_str()) {
            Some(i) => self.tunnels[i].forward == ForwardType::Remote,
            None => false,
        };
        if remote {
            columns(age.as_str(), "-", "-", "-", "-", "-")
        } else {
            let conns = cat3(
                number::write(l.counters.active_conns).as_str(),
                " / ",
                number::write(l.counters.total_conns).as_str(),
            );
            columns(
                age.as_str(),
                conns.as_str(),
                ui::human_rate(l.rate_tx).as_str(),
                ui::human_rate(l.rate_rx).as_str(),
                ui::human_bytes(l.counters.tx).as_str(),
                ui::human_bytes(l.counters.rx).as_str(),
            )
        }
    }

    /// The table of what is active.
    pub fn active_table(&self, now: u64) -> (r: Sheet)
        ensures
            r@ == active_rows(*self, now),
    {
        let mut out = Sheet::new();
        out.add(head_bits());
        let ghost start = out@;
        let names = self.active_tunnel_names();
        let sessions = self.rdp_session_names();
        if names.len() == 0 && sessions.len() == 0 {
            out.say("  nothing active — start a tunnel [3] or an RDP session [5]", Ink::Dim);
            return out;
        }
        let ghost all = running_names(*self);
        let mut i: usize = 0;
        assert(all.take(0) =~= Seq::<String>::empty());
        while i < names.len()
            invariant
                i <= names@.len(),
                all == names@,
                out@ == with_tunnel_rows(start, *self, all.take(i as int), now),
            decreases names@.len() - i,
        {
            assert(all.take(i + 1).drop_last() =~= all.take(i as int));
            match position(self.active.as_slice(), names[i].as_str()) {
                Some(k) => {
                    let l = &self.active[k];
                    let rest = self.tunnel_numbers(l, now);
                    out.add(
                        row_bits(
                            names[i].as_str(),
                            "ssh   ",
                            l.status.label(),
                            ink_of_status(l.status),
                            rest.as_str(),
                        ),
                    );
                },
                None => {},
            }
            i = i + 1;
        }
        assert(all.take(i as int) =~= all);
        let ghost middle = out@;
        let ghost ss = session_names(*self);
        let mut j: usize = 0;
        assert(ss.take(0) =~= Seq::<String>::empty());
        while j < sessions.len()
            invariant
                j <= sessions@.len(),
                ss == sessions@,
                out@ == with_rdp_rows(middle, *self, ss.take(j as int), now),
            decreases sessions@.len() - j,
        {
            assert(ss.take(j + 1).drop_last() =~= ss.take(j as int));
            match position(self.rdp_active.as_slice(), sessions[j].as_str()) {
                Some(k) => {
                    let l = &self.rdp_active[k];
                    let age = lasting(now, l.started_at);
                    let rest = columns(age.as_str(), "-", "-", "-", "-", "-");
                    out.add(
                        row_bits(
                            sessions[j].as_str(),
                            "rdp   ",
                            l.status.label().as_str(),
                            ink_of_rdp(l.status),
                            rest.as_str(),
                        ),
                    );
                },
                None => {},
            }
            j = j + 1;
        }
        assert(ss.take(j as int) =~= ss);
        out
    }
}

// ---------------------------------------------------------------------------
// The status bar
// ---------------------------------------------------------------------------

/// A key and what it does.
pub open spec fn hint_pieces(key: Seq<char>, what: Seq<char>) -> Seq<Piece> {
    seq![ink(" "@ + key + " "@, Ink::Accent), ink(what + " "@, Ink::Dim)]
}

fn add_hint(line: &mut Vec<Bit>, key: &str, what: &str)
    ensures
        pieces(final(line)@) == pieces(old(line)@) + hint_pieces(key@, what@),
{
    let ghost was = pieces(line@);
    add_bit(line, bit(cat3(" ", key, " ").as_str(), Ink::Accent));
    add_bit(line, bit(cat(what, " ").as_str(), Ink::Dim));
    assert(pieces(line@) =~= was + hint_pieces(key@, what@));
}

/// The same keys in the same order everywhere; only what each one acts on
/// differs, so only the words after the key change.
pub open spec fn key_hints(tab: Tab) -> Seq<Piece> {
    match tab {
        Tab::Dashboard => hint_pieces("1-5/tab"@, "tab"@) + hint_pieces("r"@, "reload"@)
            + hint_pieces("l"@, "log"@) + hint_pieces("s"@, "report"@) + hint_pieces(
            "c"@,
            "clear"@,
        ) + hint_pieces("x"@, "panic"@) + hint_pieces("t"@, "theme"@) + hint_pieces("?"@, "help"@)
            + hint_pieces("q"@, "quit"@),
        Tab::Vpn => hint_pieces("↵"@, "connect/disconnect"@) + hint_pieces("a/e/d"@, "profile"@)
            + hint_pieces("ctrl↑↓"@, "move"@) + hint_pieces("r"@, "refresh"@) + hint_pieces(
            "p"@,
            "password"@,
        ) + hint_pieces("l"@, "log"@) + hint_pieces("s"@, "report"@) + hint_pieces("x"@, "panic"@)
            + hint_pieces("?"@, "help"@) + hint_pieces("k"@, "keys"@),
        Tab::Tunnels => hint_pieces("↵"@, "start/stop"@) + hint_pieces("a/e/d"@, "tunnel"@)
            + hint_pieces("ctrl↑↓"@, "move"@) + hint_pieces("r"@, "restart"@) + hint_pieces(
            "l"@,
            "log"@,
        ) + hint_pieces("s"@, "report"@) + hint_pieces("c"@, "clear"@) + hint_pieces(
            "x"@,
            "panic"@,
        ) + hint_pieces("?"@, "help"@) + hint_pieces("k"@, "keys"@),
        Tab::Ssh => hint_pieces("↵"@, "open session"@) + hint_pieces("a/e/d"@, "host"@)
            + hint_pieces("ctrl↑↓"@, "move"@) + hint_pieces("r"@, "new session"@) + hint_pieces(
            "p"@,
            "password"@,
        ) + hint_pieces("l"@, "log"@) + hint_pieces("s"@, "report"@) + hint_pieces("c"@, "clear"@)
            + hint_pieces("x"@, "panic"@) + hint_pieces("?"@, "help"@),
        Tab::Rdp => hint_pieces("↵"@, "connect/disconnect"@) + hint_pieces(
            "a/e/d"@,
            "connection"@,
        ) + hint_pieces("ctrl↑↓"@, "move"@) + hint_pieces("r"@, "reconnect"@) + hint_pieces(
            "l"@,
            "log"@,
        ) + hint_pieces("s"@, "report"@) + hint_pieces("c"@, "clear"@) + hint_pieces(
            "x"@,
            "panic"@,
        ) + hint_pieces("?"@, "help"@) + hint_pieces("k"@, "keys"@),
    }
}

fn hint_bits(tab: Tab) -> (r: Vec<Bit>)
    ensures
        pieces(r@) == key_hints(tab),
{
    let mut v: Vec<Bit> = Vec::new();
    assert(pieces(v@) =~= Seq::<Piece>::empty());
    match tab {
        Tab::Dashboard => {
            add_hint(&mut v, "1-5/tab", "tab");
            assert(pieces(v@) =~= hint_pieces("1-5/tab"@, "tab"@));
            add_hint(&mut v, "r", "reload");
            add_hint(&mut v, "l", "log");
            add_hint(&mut v, "s", "report");
            add_hint(&mut v, "c", "clear");
            add_hint(&mut v, "x", "panic");
            add_hint(&mut v, "t", "theme");
            add_hint(&mut v, "?", "help");
            add_hint(&mut v, "q", "quit");
        },
        Tab::Vpn => {
            add_hint(&mut v, "↵", "connect/disconnect");
            assert(pieces(v@) =~= hint_pieces("↵"@, "connect/disconnect"@));
            add_hint(&mut v, "a/e/d", "profile");
            add_hint(&mut v, "ctrl↑↓", "move");
            add_hint(&mut v, "r", "refresh");
            add_hint(&mut v, "p", "password");
            add_hint(&mut v, "l", "log");
            add_hint(&mut v, "s", "report");
            add_hint(&mut v, "x", "panic");
            add_hint(&mut v, "?", "help");
            add_hint(&mut v, "k", "keys");
        },
        Tab::Tunnels => {
            add_hint(&mut v, "↵", "start/stop");
            assert(pieces(v@) =~= hint_pieces("↵"@, "start/stop"@));
            add_hint(&mut v, "a/e/d", "tunnel");
            add_hint(&mut v, "ctrl↑↓", "move");
            add_hint(&mut v, "r", "restart");
            add_hint(&mut v, "l", "log");
            add_hint(&mut v, "s", "report");
            add_hint(&mut v, "c", "clear");
            add_hint(&mut v, "x", "panic");
            add_hint(&mut v, "?", "help");
            add_hint(&mut v, "k", "keys");
        },
        Tab::Ssh => {
            add_hint(&mut v, "↵", "open session");
            assert(pieces(v@) =~= hint_pieces("↵"@, "open session"@));
            add_hint(&mut v, "a/e/d", "host");
            add_hint(&mut v, "ctrl↑↓", "move");
            add_hint(&mut v, "r", "new session");
            add_hint(&mut v, "p", "password");
            add_hint(&mut v, "l", "log");
            add_hint(&mut v, "s", "report");
            add_hint(&mut v, "c", "clear");
            add_hint(&mut v, "x", "panic");
            add_hint(&mut v, "?", "help");
        },
        Tab::Rdp => {
            add_hint(&mut v, "↵", "connect/disconnect");
            assert(pieces(v@) =~= hint_pieces("↵"@, "connect/disconnect"@));
            add_hint(&mut v, "a/e/d", "connection");
            add_hint(&mut v, "ctrl↑↓", "move");
            add_hint(&mut v, "r", "reconnect");
            add_hint(&mut v, "l", "log");
            add_hint(&mut v, "s", "report");
            add_hint(&mut v, "c", "clear");
            add_hint(&mut v, "x", "panic");
            add_hint(&mut v, "?", "help");
            add_hint(&mut v, "k", "keys");
        },
    }
    v
}

/// The status bar. A running plan owns it: it is the only thing that keeps
/// moving on its own, and its steps are what the user is waiting for.
pub open spec fn bar(a: App) -> Seq<Piece> {
    match a.activation {
        Some(act) => seq![
            strong(" ⟳ "@, Ink::Warn),
            ink("starting "@ + act.target@ + " "@, Ink::Text),
            ink(progress_of(act@), Ink::Accent),
        ],
        None => match a.status_msg {
            Some(m) => seq![
                ink(
                    " "@ + m.text@,
                    if m.error {
                        Ink::Danger
                    } else {
                        Ink::Good
                    },
                ),
            ],
            None => key_hints(a.tab),
        },
    }
}

impl App {
    /// The status bar.
    pub fn status_line(&self) -> (r: Vec<Bit>)
        requires
            self.wf(),
        ensures
            pieces(r@) == bar(*self),
    {
        match &self.activation {
            Some(act) => line3(
                bold(" ⟳ ", Ink::Warn),
                bit(cat3("starting ", act.target.as_str(), " ").as_str(), Ink::Text),
                bit(act.progress().as_str(), Ink::Accent),
            ),
            None => match &self.status_msg {
                Some(m) => line1(
                    bit(
                        cat(" ", m.text.as_str()).as_str(),
                        if m.error {
                            Ink::Danger
                        } else {
                            Ink::Good
                        },
                    ),
                ),
                None => hint_bits(self.tab),
            },
        }
    }
}

}
