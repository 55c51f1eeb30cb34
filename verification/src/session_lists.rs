//! The lists of ssh hosts and rdp connections, and what is said of the entry
//! under the cursor.

use vstd::prelude::*;
use crate::app::{lemma_row_in_range, App};
use crate::cursor::{chosen, ints};
use crate::live::{has_name, place_of, position, LiveRdp};
use crate::lists::{add_recent, column, in_column, tail, with_recent};
use crate::number::{self, decimal};
use crate::parts::{
    add_chain, add_field, add_group, add_needs, field_line, group_bits, group_row, lasting,
    press_bits, press_line, requires_bits, requires_pieces, secs_since, with_chain, with_group,
    with_needs,
};
use crate::plan::{Job, Step};
use crate::rdp::RdpStatus;
use crate::rdp_tab::conn_runs;
use crate::rows::{groups_of, places, RowItem};
use crate::sheet::{
    add_bit, add_bits, bit, bold, ink, line2, line3, pieces, strong, Bit, Ink, Piece, Sheet,
};
use crate::ssh::{self, preview_of, PasswordHelper, SessionOutcome};
use crate::text::{cat, joined};
use crate::types::{RdpConnection, SshHost};
use crate::ui::{self, duration_text, fill, filled, truncate_pub, truncated};

verus! {

// ---------------------------------------------------------------------------
// SSH hosts
// ---------------------------------------------------------------------------

/// A host has a window open.
pub open spec fn host_open(a: App) -> spec_fn(int) -> bool {
    |i: int| a.windows_spec(a.ssh_hosts@[i].name@) > 0
}

/// A row of the SSH tab.
pub open spec fn ssh_row(a: App, r: RowItem) -> Seq<Piece> {
    match r {
        RowItem::Group(g) => {
            let m = places(groups_of(a.ssh_hosts@), g@);
            group_row(g@, chosen(m, host_open(a)).len(), m.len(), "open"@)
        },
        RowItem::Item(i) => {
            let h = a.ssh_hosts@[i as int];
            seq![
                ink(
                    if h.group@.len() == 0 {
                        ""@
                    } else {
                        "  "@
                    },
                    Ink::Plain,
                ),
                if a.windows_spec(h.name@) > 0 {
                    ink("●"@, Ink::Good)
                } else {
                    ink(" "@, Ink::Plain)
                },
                if h.password@.len() == 0 {
                    ink(" "@, Ink::Plain)
                } else {
                    strong("!"@, Ink::Warn)
                },
                ink(" "@ + column(h.name@, 16), Ink::Text),
                ink(
                    column(h.destination_spec() + ":"@ + decimal(h.port as nat), 24),
                    Ink::Dim,
                ),
                ink("via "@, Ink::Dim),
            ] + requires_pieces(a, h.requires_vpn@, h.depends_on@)
        },
    }
}

pub open spec fn ssh_row_list(a: App) -> Seq<Seq<Piece>> {
    a.ssh_rows@.map_values(|r: RowItem| ssh_row(a, r))
}

/// What is said of how a host's last session ended.
pub open spec fn with_last(out: Seq<Seq<Piece>>, o: SessionOutcome, now: u64) -> Seq<Seq<Piece>> {
    let out = out.push(Seq::empty());
    let out = out.push(
        seq![
            ink("last run   "@, Ink::Dim),
            ink(
                o.label_spec(),
                if !o.windowed && o.code != 0 {
                    Ink::Danger
                } else {
                    Ink::Dim
                },
            ),
        ],
    );
    let out = out.push(field_line("lasted"@, duration_text((o.duration / 1000) as nat)));
    out.push(
        field_line("ended"@, duration_text(secs_since(now, o.finished_at)) + " ago"@),
    )
}

/// What is said of a host's stored password.
pub open spec fn with_password_note(out: Seq<Seq<Piece>>, a: App) -> Seq<Seq<Piece>> {
    let out = out.push(Seq::empty());
    let out = out.push(seq![ink("password stored in cleartext in ssh.toml"@, Ink::Warn)]);
    let out = out.push(press_line("p"@, " to remove it"@));
    if a.ssh_password_helper is Nothing {
        out.push(seq![ink("sshpass is not on PATH — it cannot be used"@, Ink::Danger)])
    } else {
        out
    }
}

/// What is said of a host.
pub open spec fn with_ssh_details(out: Seq<Seq<Piece>>, a: App, h: SshHost, now: u64) -> Seq<
    Seq<Piece>,
> {
    let out = out.push(field_line("name"@, h.name@));
    let out = out.push(
        field_line("target"@, h.destination_spec() + ":"@ + decimal(h.port as nat)),
    );
    let out = out.push(field_line("auth"@, h.auth_spec()));
    let out = if h.skip_host_key_check {
        out.push(
            seq![ink("host key   "@, Ink::Dim), ink("verification skipped"@, Ink::Warn)],
        )
    } else {
        out
    };
    let out = with_needs(out, a, h.requires_vpn@, h.depends_on@);
    let out = with_chain(out, a, Job::Ssh(h.name@));
    let out = if h.extra_args@.len() > 0 {
        out.push(field_line("extra args"@, h.extra_args@))
    } else {
        out
    };
    let out = if h.password@.len() > 0 {
        with_password_note(out, a)
    } else {
        out
    };
    let open = a.windows_spec(h.name@);
    let out = if open > 0 {
        out.push(Seq::empty()).push(
            seq![
                ink("session    "@, Ink::Dim),
                ink(
                    decimal(open) + (if open == 1 {
                        " window open"@
                    } else {
                        " windows open"@
                    }),
                    Ink::Good,
                ),
            ],
        )
    } else {
        out
    };
    let out = if has_name(a.ssh_last@, h.name@) {
        with_last(out, a.ssh_last@[place_of(a.ssh_last@, h.name@)].outcome, now)
    } else {
        out
    };
    let out = out.push(Seq::empty());
    let out = out.push(
        seq![
            ink(
                truncated(joined(preview_of(a.machine, h, a.ssh_password_helper), " "@), 60),
                Ink::Dim,
            ),
        ],
    );
    let out = out.push(Seq::empty());
    out.push(press_line("Enter"@, " to open a session in "@ + a.ssh_launcher.label_spec(a.machine.os)))
}

/// The details panel of the SSH tab.
pub open spec fn ssh_details(a: App, now: u64) -> Seq<Seq<Piece>> {
    let none = Seq::<Seq<Piece>>::empty();
    if a.ssh_selected >= a.ssh_rows@.len() {
        none.push(seq![ink("nothing selected"@, Ink::Dim)])
    } else {
        match a.ssh_rows@[a.ssh_selected as int] {
            RowItem::Group(g) => {
                let m = places(groups_of(a.ssh_hosts@), g@);
                let out = with_group(none, g@, m.len(), chosen(m, host_open(a)).len(), "open"@);
                let out = out.push(seq![ink("Enter opens a session for every member,"@, Ink::Dim)]);
                out.push(seq![ink("bringing a shared VPN or tunnel up once."@, Ink::Dim)])
            },
            RowItem::Item(i) => with_ssh_details(none, a, a.ssh_hosts@[i as int], now),
        }
    }
}

impl App {
    /// How many of these hosts have a window open.
    fn count_open(&self, idxs: &Vec<usize>) -> (r: usize)
        requires
            forall|k: int| 0 <= k < idxs@.len() ==> #[trigger] idxs@[k] < self.ssh_hosts@.len(),
        ensures
            r == chosen(ints(idxs@), host_open(*self)).len(),
    {
        let ghost all = ints(idxs@);
        let ghost p = host_open(*self);
        let mut n: usize = 0;
        let mut i: usize = 0;
        assert(all.take(0) =~= Seq::<int>::empty());
        while i < idxs.len()
            invariant
                i <= idxs@.len(),
                n <= i,
                all == ints(idxs@),
                p == host_open(*self),
                forall|k: int| 0 <= k < idxs@.len() ==> #[trigger] idxs@[k] < self.ssh_hosts@.len(),
                n == chosen(all.take(i as int), p).len(),
            decreases idxs@.len() - i,
        {
            assert(all.take(i + 1).drop_last() =~= all.take(i as int));
            if self.ssh_windows_open(self.ssh_hosts[idxs[i]].name.as_str()) > 0 {
                n = n + 1;
            }
            i = i + 1;
        }
        assert(all.take(i as int) =~= all);
        n
    }

    fn ssh_row_bits(&self, at: usize) -> (r: Vec<Bit>)
        requires
            self.wf(),
            at < self.ssh_rows@.len(),
        ensures
            pieces(r@) == ssh_row(*self, self.ssh_rows@[at as int]),
    {
        proof {
            lemma_row_in_range(self.ssh_rows@, self.ssh_hosts@, at as int);
        }
        match &self.ssh_rows[at] {
            RowItem::Group(g) => {
                let m = self.ssh_group_members(g.as_str());
                let up: usize = self.count_open(&m);
                assert(ints(m@).len() == m@.len());
                group_bits(g.as_str(), up, m.len(), "open")
            },
            RowItem::Item(i) => {
                let h = &self.ssh_hosts[*i];
                let indent = if h.group.as_str().is_empty() {
                    ""
                } else {
                    "  "
                };
                let open = if self.ssh_windows_open(h.name.as_str()) > 0 {
                    bit("●", Ink::Good)
                } else {
                    bit(" ", Ink::Plain)
                };
                let lock = if h.password.as_str().is_empty() {
                    bit(" ", Ink::Plain)
                } else {
                    bold("!", Ink::Warn)
                };
                let mut line = line3(bit(indent, Ink::Plain), open, lock);
                add_bit(
                    &mut line,
                    bit(cat(" ", in_column(h.name.as_str(), 16).as_str()).as_str(), Ink::Text),
                );
                add_bit(
                    &mut line,
                    bit(in_column(h.target_summary().as_str(), 24).as_str(), Ink::Dim),
                );
                add_bit(&mut line, bit("via ", Ink::Dim));
                let needs = requires_bits(self, h.requires_vpn.as_str(), h.depends_on.as_str());
                add_bits(&mut line, needs);
                assert(pieces(line@) =~= ssh_row(*self, self.ssh_rows@[at as int]));
                line
            },
        }
    }

    /// The rows of the SSH tab.
    pub fn ssh_list(&self) -> (r: Sheet)
        requires
            self.wf(),
        ensures
            r@ == ssh_row_list(*self),
    {
        let ghost all = ssh_row_list(*self);
        let mut out = Sheet::new();
        let mut i: usize = 0;
        assert(out@ =~= all.take(0));
        while i < self.ssh_rows.len()
            invariant
                i <= self.ssh_rows@.len(),
                self.wf(),
                all == ssh_row_list(*self),
                out@ == all.take(i as int),
            decreases self.ssh_rows@.len() - i,
        {
            out.add(self.ssh_row_bits(i));
            i = i + 1;
            assert(all.take(i as int) =~= all.take(i - 1).push(all[i - 1]));
        }
        assert(all.take(i as int) =~= all);
        out
    }

    fn add_last(&self, out: &mut Sheet, o: &SessionOutcome, now: u64)
        ensures
            final(out)@ == with_last(old(out)@, *o, now),
    {
        out.gap();
        let colour = if o.failed() {
            Ink::Danger
        } else {
            Ink::Dim
        };
        out.add(line2(bit("last run   ", Ink::Dim), bit(o.label().as_str(), colour)));
        add_field(out, "lasted", ui::fmt_duration(o.duration / 1000).as_str());
        add_field(out, "ended", cat(lasting(now, o.finished_at).as_str(), " ago").as_str());
    }

    fn add_password_note(&self, out: &mut Sheet)
        ensures
            final(out)@ == with_password_note(old(out)@, *self),
    {
        out.gap();
        out.say("password stored in cleartext in ssh.toml", Ink::Warn);
        out.add(press_bits("p", " to remove it"));
        if matches!(self.ssh_password_helper, PasswordHelper::Nothing) {
            out.say("sshpass is not on PATH — it cannot be used", Ink::Danger);
        }
    }

    fn add_ssh_details(&self, out: &mut Sheet, h: &SshHost, now: u64)
        requires
            self.wf(),
        ensures
            final(out)@ == with_ssh_details(old(out)@, *self, *h, now),
    {
        add_field(out, "name", h.name.as_str());
        add_field(out, "target", h.target_summary().as_str());
        add_field(out, "auth", h.auth_summary().as_str());
        if h.skip_host_key_check {
            out.add(
                line2(bit("host key   ", Ink::Dim), bit("verification skipped", Ink::Warn)),
            );
        }
        add_needs(out, self, h.requires_vpn.as_str(), h.depends_on.as_str());
        add_chain(out, self, Step::Ssh(h.name.clone()));
        if !h.extra_args.as_str().is_empty() {
            add_field(out, "extra args", h.extra_args.as_str());
        }
        if !h.password.as_str().is_empty() {
            self.add_password_note(out);
        }
        let open: usize = self.ssh_windows_open(h.name.as_str());
        if open > 0 {
            out.gap();
            let words = if open == 1 {
                " window open"
            } else {
                " windows open"
            };
            let n = cat(number::write(open as u64).as_str(), words);
            out.add(line2(bit("session    ", Ink::Dim), bit(n.as_str(), Ink::Good)));
        }
        match position(self.ssh_last.as_slice(), h.name.as_str()) {
            Some(k) => self.add_last(out, &self.ssh_last[k].outcome, now),
            None => {},
        }
        out.gap();
        let preview = ssh::command_preview(h, &self.ssh_password_helper, &self.machine);
        out.say(truncate_pub(preview.as_str(), 60).as_str(), Ink::Dim);
        out.gap();
        let label = self.ssh_launcher.label(self.machine.os);
        out.add(press_bits("Enter", cat(" to open a session in ", label.as_str()).as_str()));
    }

    /// The details panel of the SSH tab.
    pub fn ssh_panel(&self, now: u64) -> (r: Sheet)
        requires
            self.wf(),
        ensures
            r@ == ssh_details(*self, now),
    {
        let mut out = Sheet::new();
        if self.ssh_selected >= self.ssh_rows.len() {
            out.say("nothing selected", Ink::Dim);
            return out;
        }
        proof {
            lemma_row_in_range(self.ssh_rows@, self.ssh_hosts@, self.ssh_selected as int);
        }
        match &self.ssh_rows[self.ssh_selected] {
            RowItem::Group(g) => {
                let m = self.ssh_group_members(g.as_str());
                let open: usize = self.count_open(&m);
                assert(ints(m@).len() == m@.len());
                add_group(&mut out, g.as_str(), m.len(), open, "open");
                out.say("Enter opens a session for every member,", Ink::Dim);
                out.say("bringing a shared VPN or tunnel up once.", Ink::Dim);
            },
            RowItem::Item(i) => self.add_ssh_details(&mut out, &self.ssh_hosts[*i], now),
        }
        out
    }
}

// ---------------------------------------------------------------------------
// RDP connections
// ---------------------------------------------------------------------------

pub open spec fn rdp_ink(s: RdpStatus) -> Ink {
    match s {
        RdpStatus::Running => Ink::Good,
        RdpStatus::Exited(c) => if c == 0 {
            Ink::Dim
        } else {
            Ink::Danger
        },
    }
}

pub fn ink_of_rdp(s: RdpStatus) -> (r: Ink)
    ensures
        r == rdp_ink(s),
{
    match s {
        RdpStatus::Running => Ink::Good,
        RdpStatus::Exited(c) => if c == 0 {
            Ink::Dim
        } else {
            Ink::Danger
        },
    }
}

pub open spec fn rdp_dot(s: RdpStatus) -> Piece {
    ink(
        match s {
            RdpStatus::Running => "●"@,
            RdpStatus::Exited(c) => if c == 0 {
                "○"@
            } else {
                "✖"@
            },
        },
        rdp_ink(s),
    )
}

pub fn rdp_dot_bit(s: RdpStatus) -> (r: Bit)
    ensures
        r@ == rdp_dot(s),
{
    let mark = match s {
        RdpStatus::Running => "●",
        RdpStatus::Exited(c) => if c == 0 {
            "○"
        } else {
            "✖"
        },
    };
    bit(mark, ink_of_rdp(s))
}

pub open spec fn conn_dot(a: App, name: Seq<char>) -> Piece {
    if has_name(a.rdp_active@, name) {
        rdp_dot(a.rdp_active@[place_of(a.rdp_active@, name)].status)
    } else {
        ink("○"@, Ink::Dim)
    }
}

/// A row of the RDP tab.
pub open spec fn rdp_row(a: App, r: RowItem) -> Seq<Piece> {
    match r {
        RowItem::Group(g) => {
            let m = places(groups_of(a.rdp_conns@), g@);
            group_row(
                g@,
                chosen(m, conn_runs(a.rdp_conns@, a.rdp_active@)).len(),
                m.len(),
                "connected"@,
            )
        },
        RowItem::Item(i) => {
            let c = a.rdp_conns@[i as int];
            seq![
                ink(
                    if c.group@.len() == 0 {
                        " "@
                    } else {
                        "   "@
                    },
                    Ink::Plain,
                ),
                conn_dot(a, c.name@),
                ink(" "@ + column(c.name@, 16), Ink::Text),
                ink(column(c.host@ + ":"@ + decimal(c.port as nat), 20), Ink::Dim),
                ink(filled("as "@ + truncated(c.login_spec(), 12), 15), Ink::Dim),
                ink("via "@, Ink::Dim),
            ] + requires_pieces(a, c.requires_vpn@, c.depends_on@)
        },
    }
}

pub open spec fn rdp_row_list(a: App) -> Seq<Seq<Piece>> {
    a.rdp_rows@.map_values(|r: RowItem| rdp_row(a, r))
}

/// What is said of a session.
pub open spec fn with_session(out: Seq<Seq<Piece>>, l: LiveRdp, now: u64) -> Seq<Seq<Piece>> {
    let out = out.push(Seq::empty());
    let out = out.push(
        seq![ink("status     "@, Ink::Dim), strong(l.status.label_spec(), rdp_ink(l.status))],
    );
    let out = out.push(field_line("uptime"@, duration_text(secs_since(now, l.started_at))));
    let recent = tail(l.log.held(), 6);
    if recent.len() > 0 {
        let out = out.push(Seq::empty());
        let out = out.push(
            seq![
                ink("log ("@, Ink::Dim),
                strong("l"@, Ink::Accent),
                ink(" for full view):"@, Ink::Dim),
            ],
        );
        with_recent(out, recent, Some(60))
    } else {
        out
    }
}

/// What is said of a connection.
pub open spec fn with_rdp_details(
    out: Seq<Seq<Piece>>,
    a: App,
    c: RdpConnection,
    now: u64,
) -> Seq<Seq<Piece>> {
    let out = out.push(field_line("name"@, c.name@));
    let out = out.push(field_line("host"@, c.host@ + ":"@ + decimal(c.port as nat)));
    let out = if c.domain@.len() > 0 {
        out.push(field_line("domain"@, c.domain@))
    } else {
        out
    };
    let out = out.push(field_line("username"@, c.username@));
    let out = with_needs(out, a, c.requires_vpn@, c.depends_on@);
    let out = with_chain(out, a, Job::Rdp(c.name@, Seq::empty()));
    let out = if c.extra_args@.len() > 0 {
        out.push(field_line("extra args"@, c.extra_args@))
    } else {
        out
    };
    if has_name(a.rdp_active@, c.name@) {
        with_session(out, a.rdp_active@[place_of(a.rdp_active@, c.name@)], now)
    } else {
        out.push(Seq::empty()).push(press_line("Enter"@, " to connect (password prompt)"@))
    }
}

/// The details panel of the RDP tab.
pub open spec fn rdp_details(a: App, now: u64) -> Seq<Seq<Piece>> {
    let none = Seq::<Seq<Piece>>::empty();
    if a.rdp_selected >= a.rdp_rows@.len() {
        none.push(seq![ink("nothing selected"@, Ink::Dim)])
    } else {
        match a.rdp_rows@[a.rdp_selected as int] {
            RowItem::Group(g) => {
                let m = places(groups_of(a.rdp_conns@), g@);
                let out = with_group(
                    none,
                    g@,
                    m.len(),
                    chosen(m, conn_runs(a.rdp_conns@, a.rdp_active@)).len(),
                    "connected"@,
                );
                let out = out.push(seq![ink("Enter connects every idle member —"@, Ink::Dim)]);
                let out = out.push(
                    seq![ink("each is asked for its password in turn —"@, Ink::Dim)],
                );
                out.push(seq![ink("or disconnects all when everything is up."@, Ink::Dim)])
            },
            RowItem::Item(i) => with_rdp_details(none, a, a.rdp_conns@[i as int], now),
        }
    }
}

impl App {
    fn count_connected(&self, idxs: &Vec<usize>) -> (r: usize)
        requires
            forall|k: int| 0 <= k < idxs@.len() ==> #[trigger] idxs@[k] < self.rdp_conns@.len(),
        ensures
            r == chosen(ints(idxs@), conn_runs(self.rdp_conns@, self.rdp_active@)).len(),
    {
        let up = self.conns_that(idxs, true);
        assert(ints(up@).len() == up@.len());
        up.len()
    }

    fn rdp_row_bits(&self, at: usize) -> (r: Vec<Bit>)
        requires
            self.wf(),
            at < self.rdp_rows@.len(),
        ensures
            pieces(r@) == rdp_row(*self, self.rdp_rows@[at as int]),
    {
        proof {
            lemma_row_in_range(self.rdp_rows@, self.rdp_conns@, at as int);
        }
        match &self.rdp_rows[at] {
            RowItem::Group(g) => {
                let m = self.rdp_group_members(g.as_str());
                let up: usize = self.count_connected(&m);
                assert(ints(m@).len() == m@.len());
                group_bits(g.as_str(), up, m.len(), "connected")
            },
            RowItem::Item(i) => {
                let c = &self.rdp_conns[*i];
                let indent = if c.group.as_str().is_empty() {
                    " "
                } else {
                    "   "
                };
                let dot = match position(self.rdp_active.as_slice(), c.name.as_str()) {
                    Some(k) => rdp_dot_bit(self.rdp_active[k].status),
                    None => bit("○", Ink::Dim),
                };
                let mut line = line3(
                    bit(indent, Ink::Plain),
                    dot,
                    bit(cat(" ", in_column(c.name.as_str(), 16).as_str()).as_str(), Ink::Text),
                );
                add_bit(
                    &mut line,
                    bit(in_column(c.target_summary().as_str(), 20).as_str(), Ink::Dim),
                );
                let login = cat("as ", truncate_pub(c.login_summary().as_str(), 12).as_str());
                add_bit(&mut line, bit(fill(login.as_str(), 15).as_str(), Ink::Dim));
                add_bit(&mut line, bit("via ", Ink::Dim));
                let needs = requires_bits(self, c.requires_vpn.as_str(), c.depends_on.as_str());
                add_bits(&mut line, needs);
                assert(pieces(line@) =~= rdp_row(*self, self.rdp_rows@[at as int]));
                line
            },
        }
    }

    /// The rows of the RDP tab.
    pub fn rdp_list(&self) -> (r: Sheet)
        requires
            self.wf(),
        ensures
            r@ == rdp_row_list(*self),
    {
        let ghost all = rdp_row_list(*self);
        let mut out = Sheet::new();
        let mut i: usize = 0;
        assert(out@ =~= all.take(0));
        while i < self.rdp_rows.len()
            invariant
                i <= self.rdp_rows@.len(),
                self.wf(),
                all == rdp_row_list(*self),
                out@ == all.take(i as int),
            decreases self.rdp_rows@.len() - i,
        {
            out.add(self.rdp_row_bits(i));
            i = i + 1;
            assert(all.take(i as int) =~= all.take(i - 1).push(all[i - 1]));
        }
        assert(all.take(i as int) =~= all);
        out
    }

    fn add_session(&self, out: &mut Sheet, l: &LiveRdp, now: u64)
        ensures
            final(out)@ == with_session(old(out)@, *l, now),
    {
        out.gap();
        out.add(
            line2(
                bit("status     ", Ink::Dim),
                bold(l.status.label().as_str(), ink_of_rdp(l.status)),
            ),
        );
        add_field(out, "uptime", lasting(now, l.started_at).as_str());
        let recent = l.log.recent(6);
        assert(recent@ == tail(l.log.held(), 6));
        if recent.len() > 0 {
            out.gap();
            out.add(
                line3(
                    bit("log (", Ink::Dim),
                    bold("l", Ink::Accent),
                    bit(" for full view):", Ink::Dim),
                ),
            );
            add_recent(out, &recent, Some(60));
        }
    }

    fn add_rdp_details(&self, out: &mut Sheet, c: &RdpConnection, now: u64)
        requires
            self.wf(),
        ensures
            final(out)@ == with_rdp_details(old(out)@, *self, *c, now),
    {
        add_field(out, "name", c.name.as_str());
        add_field(out, "host", c.target_summary().as_str());
        if !c.domain.as_str().is_empty() {
            add_field(out, "domain", c.domain.as_str());
        }
        add_field(out, "username", c.username.as_str());
        add_needs(out, self, c.requires_vpn.as_str(), c.depends_on.as_str());
        let password = String::new();
        assert(password@ =~= Seq::<char>::empty());
        add_chain(out, self, Step::Rdp { name: c.name.clone(), password });
        if !c.extra_args.as_str().is_empty() {
            add_field(out, "extra args", c.extra_args.as_str());
        }
        match position(self.rdp_active.as_slice(), c.name.as_str()) {
            Some(k) => self.add_session(out, &self.rdp_active[k], now),
            None => {
                out.gap();
                out.add(press_bits("Enter", " to connect (password prompt)"));
            },
        }
    }

    /// The details panel of the RDP tab.
    pub fn rdp_panel(&self, now: u64) -> (r: Sheet)
        requires
            self.wf(),
        ensures
            r@ == rdp_details(*self, now),
    {
        let mut out = Sheet::new();
        if self.rdp_selected >= self.rdp_rows.len() {
            out.say("nothing selected", Ink::Dim);
            return out;
        }
        proof {
            lemma_row_in_range(self.rdp_rows@, self.rdp_conns@, self.rdp_selected as int);
        }
        match &self.rdp_rows[self.rdp_selected] {
            RowItem::Group(g) => {
                let m = self.rdp_group_members(g.as_str());
                let up: usize = self.count_connected(&m);
                assert(ints(m@).len() == m@.len());
                add_group(&mut out, g.as_str(), m.len(), up, "connected");
                out.say("Enter connects every idle member —", Ink::Dim);
                out.say("each is asked for its password in turn —", Ink::Dim);
                out.say("or disconnects all when everything is up.", Ink::Dim);
            },
            RowItem::Item(i) => self.add_rdp_details(&mut out, &self.rdp_conns[*i], now),
        }
        out
    }
}

/// What the panels say of a host is the same for any other password of it: the
/// password itself is never shown.
pub proof fn law_panel_hides_the_password(
    out: Seq<Seq<Piece>>,
    a: App,
    h: SshHost,
    k: SshHost,
    now: u64,
)
    requires
        ssh::same_but_password(h, k),
        h.name@ == k.name@ && h.requires_vpn@ == k.requires_vpn@ && h.depends_on@ == k.depends_on@,
        h.password@.len() > 0 && k.password@.len() > 0,
    ensures
        with_ssh_details(out, a, h, now) == with_ssh_details(out, a, k, now),
{
    ssh::law_password_is_never_an_argument(a.machine, h, k, a.ssh_password_helper);
}

}
