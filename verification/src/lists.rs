//! The list of tunnels, and what is said of the one under the cursor.

use vstd::prelude::*;
use crate::activation::satisfied;
use crate::app::{lemma_row_in_range, App};
use crate::cursor::{chosen, ints};
use crate::live::{has_name, place_of, position, status_of_tunnel, tunnel_status, LiveTunnel};
use crate::logs::Entry;
use crate::number::{self, decimal};
use crate::parts::{
    add_chain, add_field, add_group, add_needs, field_line, group_bits, group_row, ink_of_status,
    lasting, press_bits, press_line, secs_since, status_ink, with_chain, with_group, with_needs,
};
use crate::plan::{Job, Step};
use crate::queries::{wishing, Wanted};
use crate::rows::{groups_of, places, RowItem};
use crate::sheet::{add_bit, bit, bold, ink, line2, line3, pieces, strong, Bit, Ink, Piece, Sheet};
use crate::text::{self, cat, cat4, joined, texts};
use crate::tunnel::Status;
use crate::tunnels_tab::is_running;
use crate::types::{ForwardType, Tunnel};
use crate::ui::{self, duration_text, fill, filled, size_text, truncate_pub, truncated};

verus! {

/// A text cut and filled to a column.
pub open spec fn column(s: Seq<char>, width: nat) -> Seq<char> {
    filled(truncated(s, width), width as int)
}

pub fn in_column(s: &str, width: usize) -> (r: String)
    ensures
        r@ == column(s@, width as nat),
{
    let cut = truncate_pub(s, width);
    fill(cut.as_str(), width)
}

/// The last lines of a log.
pub open spec fn with_recent(out: Seq<Seq<Piece>>, es: Seq<Entry>, cut: Option<nat>) -> Seq<Seq<Piece>>
    decreases es.len(),
{
    if es.len() == 0 {
        out
    } else {
        let t = es.last().text@;
        with_recent(out, es.drop_last(), cut).push(
            seq![
                ink(
                    match cut {
                        Some(n) => truncated(t, n),
                        None => t,
                    },
                    Ink::Dim,
                ),
            ],
        )
    }
}

pub fn add_recent(out: &mut Sheet, es: &Vec<Entry>, cut: Option<usize>)
    ensures
        final(out)@ == with_recent(
            old(out)@,
            es@,
            match cut {
                Some(n) => Some(n as nat),
                None => None,
            },
        ),
{
    let ghost start = out@;
    let ghost at = match cut {
        Some(n) => Some(n as nat),
        None => None,
    };
    let mut i: usize = 0;
    assert(es@.take(0) =~= Seq::<Entry>::empty());
    while i < es.len()
        invariant
            i <= es@.len(),
            at == (match cut {
                Some(n) => Some(n as nat),
                None => None,
            }),
            out@ == with_recent(start, es@.take(i as int), at),
        decreases es@.len() - i,
    {
        assert(es@.take(i + 1).drop_last() =~= es@.take(i as int));
        match cut {
            Some(n) => {
                let t = truncate_pub(es[i].text.as_str(), n);
                out.say(t.as_str(), Ink::Dim);
            },
            None => {
                out.say(es[i].text.as_str(), Ink::Dim);
            },
        }
        i = i + 1;
    }
    assert(es@.take(i as int) =~= es@);
}

/// The last `n` of a list.
pub open spec fn tail<T>(s: Seq<T>, n: int) -> Seq<T> {
    if n >= s.len() {
        s
    } else {
        s.skip(s.len() - n)
    }
}

// ---------------------------------------------------------------------------
// Tunnels
// ---------------------------------------------------------------------------

/// Compact "needs …" tail for a tunnel row; the details panel spells out which
/// profile and which tunnel.
pub open spec fn needs_piece(a: App, t: Tunnel) -> Piece {
    if t.requires_vpn@.len() == 0 && t.depends_on@.len() == 0 {
        ink(Seq::empty(), Ink::Plain)
    } else {
        ink(
            if t.depends_on@.len() == 0 {
                "needs vpn"@
            } else if t.requires_vpn@.len() == 0 {
                "needs tun"@
            } else {
                "needs vpn+tun"@
            },
            if t.depends_on@.len() > 0 && !has_name(a.tunnels@, t.depends_on@) {
                Ink::Danger
            } else if satisfied(a.vpn.providers@, t.requires_vpn@) && (t.depends_on@.len() == 0
                || tunnel_status(a.active@, t.depends_on@) == Some(Status::Up)) {
                Ink::Good
            } else {
                Ink::Dim
            },
        )
    }
}

pub open spec fn tunnel_dot(a: App, name: Seq<char>) -> Piece {
    match tunnel_status(a.active@, name) {
        Some(Status::Up) => ink("●"@, Ink::Good),
        Some(Status::Connecting) => ink("◐"@, Ink::Warn),
        Some(Status::Failed) => ink("✖"@, Ink::Danger),
        None => ink("○"@, Ink::Dim),
    }
}

/// A row of the Tunnels tab.
pub open spec fn tunnel_row(a: App, r: RowItem) -> Seq<Piece> {
    match r {
        RowItem::Group(g) => {
            let m = places(groups_of(a.tunnels@), g@);
            group_row(
                g@,
                chosen(m, is_running(a.tunnels@, a.active@)).len(),
                m.len(),
                "active"@,
            )
        },
        RowItem::Item(i) => {
            let t = a.tunnels@[i as int];
            seq![
                ink(
                    if t.group@.len() == 0 {
                        " "@
                    } else {
                        "   "@
                    },
                    Ink::Plain,
                ),
                tunnel_dot(a, t.name@),
                ink(" "@ + column(t.name@, 16), Ink::Text),
                ink(column(t.forward_spec(), 22), Ink::Dim),
                ink("via "@ + column(t.ssh_host@, 12), Ink::Dim),
                needs_piece(a, t),
            ]
        },
    }
}

pub open spec fn tunnel_rows(a: App) -> Seq<Seq<Piece>> {
    a.rows@.map_values(|r: RowItem| tunnel_row(a, r))
}

/// What is said of a tunnel that is running.
pub open spec fn with_running_tunnel(
    out: Seq<Seq<Piece>>,
    t: Tunnel,
    l: LiveTunnel,
    now: u64,
) -> Seq<Seq<Piece>> {
    let out = out.push(Seq::empty());
    let out = out.push(
        seq![
            ink("status     "@, Ink::Dim),
            strong(l.status.label_spec(), status_ink(l.status)),
        ],
    );
    let out = out.push(field_line("uptime"@, duration_text(secs_since(now, l.started_at))));
    let out = if t.forward != ForwardType::Remote {
        let out = out.push(
            field_line(
                "conns"@,
                decimal(l.counters.active_conns as nat) + " active / "@ + decimal(
                    l.counters.total_conns as nat,
                ) + " total"@,
            ),
        );
        out.push(
            field_line(
                "traffic"@,
                "↑ "@ + size_text(l.counters.tx as nat) + "  ↓ "@ + size_text(
                    l.counters.rx as nat,
                ),
            ),
        )
    } else {
        out
    };
    let out = if l.restarts > 0 {
        out.push(field_line("restarts"@, decimal(l.restarts as nat)))
    } else {
        out
    };
    let out = match l.error {
        Some(e) => out.push(Seq::empty()).push(seq![ink(e@, Ink::Danger)]),
        None => out,
    };
    let recent = tail(l.log.held(), 5);
    if recent.len() > 0 {
        with_recent(
            out.push(Seq::empty()).push(seq![ink("ssh output:"@, Ink::Dim)]),
            recent,
            None,
        )
    } else {
        out
    }
}

/// What is said of a tunnel.
pub open spec fn with_tunnel_details(out: Seq<Seq<Piece>>, a: App, t: Tunnel, now: u64) -> Seq<
    Seq<Piece>,
> {
    let out = out.push(field_line("name"@, t.name@));
    let out = if t.group@.len() > 0 {
        out.push(field_line("group"@, t.group@))
    } else {
        out
    };
    let out = out.push(field_line("ssh host"@, t.ssh_host@));
    let out = out.push(field_line("type"@, t.forward.label_spec()));
    let out = out.push(field_line("forward"@, t.forward_spec()));
    let out = if t.extra_args@.len() > 0 {
        out.push(field_line("extra args"@, t.extra_args@))
    } else {
        out
    };
    let out = out.push(
        field_line(
            "reconnect"@,
            if t.auto_reconnect {
                "auto"@
            } else {
                "manual"@
            },
        ),
    );
    let out = with_needs(out, a, t.requires_vpn@, t.depends_on@);
    let out = with_chain(out, a, Job::Tunnel(t.name@));
    let users = wishing(a.tunnels@, a.ssh_hosts@, a.rdp_conns@, Wanted::Tunnel(t.name@));
    let out = if users.len() > 0 {
        out.push(field_line("needed by"@, joined(users, ", "@)))
    } else {
        out
    };
    if has_name(a.active@, t.name@) {
        with_running_tunnel(out, t, a.active@[place_of(a.active@, t.name@)], now)
    } else {
        out.push(Seq::empty()).push(press_line("Enter"@, " to start this tunnel"@))
    }
}

/// The details panel of the Tunnels tab.
pub open spec fn tunnel_details(a: App, now: u64) -> Seq<Seq<Piece>> {
    let none = Seq::<Seq<Piece>>::empty();
    if a.selected >= a.rows@.len() {
        none.push(seq![ink("nothing selected"@, Ink::Dim)])
    } else {
        match a.rows@[a.selected as int] {
            RowItem::Group(g) => {
                let m = places(groups_of(a.tunnels@), g@);
                let out = with_group(
                    none,
                    g@,
                    m.len(),
                    chosen(m, is_running(a.tunnels@, a.active@)).len(),
                    "active"@,
                );
                let out = out.push(seq![ink("Enter starts every inactive member,"@, Ink::Dim)]);
                out.push(seq![ink("or stops all when everything is up."@, Ink::Dim)])
            },
            RowItem::Item(i) => with_tunnel_details(none, a, a.tunnels@[i as int], now),
        }
    }
}

impl App {
    fn needs_bit(&self, t: &Tunnel) -> (r: Bit)
        requires
            self.wf(),
        ensures
            r@ == needs_piece(*self, *t),
    {
        let vpn = !t.requires_vpn.as_str().is_empty();
        let tun = !t.depends_on.as_str().is_empty();
        if !vpn && !tun {
            proof {
                reveal_strlit("");
                assert(""@ =~= Seq::<char>::empty());
            }
            return bit("", Ink::Plain);
        }
        let words = if !tun {
            "needs vpn"
        } else if !vpn {
            "needs tun"
        } else {
            "needs vpn+tun"
        };
        let up = match status_of_tunnel(&self.active, t.depends_on.as_str()) {
            Some(s) => s == Status::Up,
            None => false,
        };
        let colour = if self.dependency_missing(t.depends_on.as_str()) {
            Ink::Danger
        } else if self.vpn_satisfied(t.requires_vpn.as_str()) && (!tun || up) {
            Ink::Good
        } else {
            Ink::Dim
        };
        bit(words, colour)
    }

    fn tunnel_dot_bit(&self, name: &str) -> (r: Bit)
        ensures
            r@ == tunnel_dot(*self, name@),
    {
        match status_of_tunnel(&self.active, name) {
            Some(Status::Up) => bit("●", Ink::Good),
            Some(Status::Connecting) => bit("◐", Ink::Warn),
            Some(Status::Failed) => bit("✖", Ink::Danger),
            None => bit("○", Ink::Dim),
        }
    }

    /// How many of these tunnels are running.
    fn count_running(&self, idxs: &Vec<usize>) -> (r: usize)
        requires
            forall|k: int| 0 <= k < idxs@.len() ==> #[trigger] idxs@[k] < self.tunnels@.len(),
        ensures
            r == chosen(ints(idxs@), is_running(self.tunnels@, self.active@)).len(),
    {
        let up = self.running_of(idxs);
        assert(ints(up@).len() == up@.len());
        up.len()
    }

    fn tunnel_row_bits(&self, at: usize) -> (r: Vec<Bit>)
        requires
            self.wf(),
            at < self.rows@.len(),
        ensures
            pieces(r@) == tunnel_row(*self, self.rows@[at as int]),
    {
        proof {
            lemma_row_in_range(self.rows@, self.tunnels@, at as int);
        }
        match &self.rows[at] {
            RowItem::Group(g) => {
                let m = self.group_members(g.as_str());
                let up: usize = self.count_running(&m);
                assert(ints(m@).len() == m@.len());
                group_bits(g.as_str(), up, m.len(), "active")
            },
            RowItem::Item(i) => {
                let t = &self.tunnels[*i];
                let indent = if t.group.as_str().is_empty() {
                    " "
                } else {
                    "   "
                };
                let mut line = line3(
                    bit(indent, Ink::Plain),
                    self.tunnel_dot_bit(t.name.as_str()),
                    bit(cat(" ", in_column(t.name.as_str(), 16).as_str()).as_str(), Ink::Text),
                );
                add_bit(
                    &mut line,
                    bit(in_column(t.forward_summary().as_str(), 22).as_str(), Ink::Dim),
                );
                add_bit(
                    &mut line,
                    bit(
                        cat("via ", in_column(t.ssh_host.as_str(), 12).as_str()).as_str(),
                        Ink::Dim,
                    ),
                );
                add_bit(&mut line, self.needs_bit(t));
                assert(pieces(line@) =~= tunnel_row(*self, self.rows@[at as int]));
                line
            },
        }
    }

    /// The rows of the Tunnels tab.
    pub fn tunnel_list(&self) -> (r: Sheet)
        requires
            self.wf(),
        ensures
            r@ == tunnel_rows(*self),
    {
        let ghost all = tunnel_rows(*self);
        let mut out = Sheet::new();
        let mut i: usize = 0;
        assert(out@ =~= all.take(0));
        while i < self.rows.len()
            invariant
                i <= self.rows@.len(),
                self.wf(),
                all == tunnel_rows(*self),
                out@ == all.take(i as int),
            decreases self.rows@.len() - i,
        {
            out.add(self.tunnel_row_bits(i));
            i = i + 1;
            assert(all.take(i as int) =~= all.take(i - 1).push(all[i - 1]));
        }
        assert(all.take(i as int) =~= all);
        out
    }

    fn add_running_tunnel(&self, out: &mut Sheet, t: &Tunnel, l: &LiveTunnel, now: u64)
        ensures
            final(out)@ == with_running_tunnel(old(out)@, *t, *l, now),
    {
        out.gap();
        out.add(
            line2(
                bit("status     ", Ink::Dim),
                bold(l.status.label(), ink_of_status(l.status)),
            ),
        );
        add_field(out, "uptime", lasting(now, l.started_at).as_str());
        if t.forward != ForwardType::Remote {
            let conns = cat4(
                number::write(l.counters.active_conns).as_str(),
                " active / ",
                number::write(l.counters.total_conns).as_str(),
                " total",
            );
            add_field(out, "conns", conns.as_str());
            let traffic = cat4(
                "↑ ",
                ui::human_bytes(l.counters.tx).as_str(),
                "  ↓ ",
                ui::human_bytes(l.counters.rx).as_str(),
            );
            add_field(out, "traffic", traffic.as_str());
        }
        if l.restarts > 0 {
            add_field(out, "restarts", number::write(l.restarts as u64).as_str());
        }
        match &l.error {
            Some(e) => {
                out.gap();
                out.say(e.as_str(), Ink::Danger);
            },
            None => {},
        }
        let recent = l.log.recent(5);
        assert(recent@ == tail(l.log.held(), 5));
        if recent.len() > 0 {
            out.gap();
            out.say("ssh output:", Ink::Dim);
            add_recent(out, &recent, None);
        }
    }

    fn add_tunnel_details(&self, out: &mut Sheet, t: &Tunnel, now: u64)
        requires
            self.wf(),
        ensures
            final(out)@ == with_tunnel_details(old(out)@, *self, *t, now),
    {
        add_field(out, "name", t.name.as_str());
        if !t.group.as_str().is_empty() {
            add_field(out, "group", t.group.as_str());
        }
        add_field(out, "ssh host", t.ssh_host.as_str());
        add_field(out, "type", t.forward.label());
        add_field(out, "forward", t.forward_summary().as_str());
        if !t.extra_args.as_str().is_empty() {
            add_field(out, "extra args", t.extra_args.as_str());
        }
        add_field(
            out,
            "reconnect",
            if t.auto_reconnect {
                "auto"
            } else {
                "manual"
            },
        );
        add_needs(out, self, t.requires_vpn.as_str(), t.depends_on.as_str());
        add_chain(out, self, Step::Tunnel(t.name.clone()));
        let users = self.dependents_of(t.name.as_str());
        assert(texts(users@).len() == users@.len());
        if users.len() > 0 {
            add_field(out, "needed by", text::join(&users, ", ").as_str());
        }
        match position(self.active.as_slice(), t.name.as_str()) {
            Some(k) => self.add_running_tunnel(out, t, &self.active[k], now),
            None => {
                out.gap();
                out.add(press_bits("Enter", " to start this tunnel"));
            },
        }
    }

    /// The details panel of the Tunnels tab.
    pub fn tunnel_panel(&self, now: u64) -> (r: Sheet)
        requires
            self.wf(),
        ensures
            r@ == tunnel_details(*self, now),
    {
        let mut out = Sheet::new();
        if self.selected >= self.rows.len() {
            out.say("nothing selected", Ink::Dim);
            return out;
        }
        proof {
            lemma_row_in_range(self.rows@, self.tunnels@, self.selected as int);
        }
        match &self.rows[self.selected] {
            RowItem::Group(g) => {
                let m = self.group_members(g.as_str());
                let up: usize = self.count_running(&m);
                assert(ints(m@).len() == m@.len());
                add_group(&mut out, g.as_str(), m.len(), up, "active");
                out.say("Enter starts every inactive member,", Ink::Dim);
                out.say("or stops all when everything is up.", Ink::Dim);
            },
            RowItem::Item(i) => self.add_tunnel_details(&mut out, &self.tunnels[*i], now),
        }
        out
    }
}

}
