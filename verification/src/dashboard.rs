//! What the header and the dashboard show.

use vstd::prelude::*;
use crate::activation::progress_of;
use crate::app::App;
use crate::clearing::plus;
use crate::list::{first_where, lemma_first_where, lemma_first_where_is};
use crate::live::{has_name, place_of, position, LiveRdp, LiveTunnel};
use crate::number::{self, decimal};
use crate::parts::{lasting, secs_since};
use crate::queries::{in_alphabet, running_count};
use crate::rdp::RdpStatus;
use crate::session_lists::{ink_of_rdp, rdp_dot, rdp_dot_bit, rdp_ink};
use crate::sheet::{bit, bold, ink, line3, pieces, strong, Bit, Ink, Piece, Sheet};
use crate::text::{self, cat, cat3, cat4, cat5, joined, texts};
use crate::tunnel::Status;
use crate::types::{SshHost, Tunnel};
use crate::ui::{self, duration_text, fill, filled, size_text, truncate_pub, truncated};
use crate::vpn::ProviderId;
use crate::vpn_panes::{add_kv, client_mark, kv_line, mark_of};
use crate::vpn_view::{is_connected_fn, is_foreign_fn, key_is, kept, ProviderState, VpnProfile};

verus! {

// ---------------------------------------------------------------------------
// Counting
// ---------------------------------------------------------------------------

/// How many tunnels are in a state.
pub open spec fn status_count(live: Seq<LiveTunnel>, s: Status) -> nat
    decreases live.len(),
{
    if live.len() == 0 {
        0
    } else {
        status_count(live.drop_last(), s) + (if live.last().status == s {
            1nat
        } else {
            0
        })
    }
}

/// What all tunnels have carried, as far as it can be counted.
pub open spec fn total_sent(live: Seq<LiveTunnel>) -> int
    decreases live.len(),
{
    if live.len() == 0 {
        0
    } else {
        plus(total_sent(live.drop_last()), live.last().counters.tx as int)
    }
}

pub open spec fn total_received(live: Seq<LiveTunnel>) -> int
    decreases live.len(),
{
    if live.len() == 0 {
        0
    } else {
        plus(total_received(live.drop_last()), live.last().counters.rx as int)
    }
}

/// How many tunnels need something else.
pub open spec fn chained_count(ts: Seq<Tunnel>) -> nat
    decreases ts.len(),
{
    if ts.len() == 0 {
        0
    } else {
        chained_count(ts.drop_last()) + (if ts.last().requires_vpn@.len() > 0
            || ts.last().depends_on@.len() > 0 {
            1nat
        } else {
            0
        })
    }
}

/// How many hosts store a password.
pub open spec fn password_count(hs: Seq<SshHost>) -> nat
    decreases hs.len(),
{
    if hs.len() == 0 {
        0
    } else {
        password_count(hs.drop_last()) + (if hs.last().password@.len() > 0 {
            1nat
        } else {
            0
        })
    }
}

/// How many windows the hosts have open, as far as they can be counted.
pub open spec fn windows_of(a: App, hs: Seq<SshHost>) -> int
    decreases hs.len(),
{
    if hs.len() == 0 {
        0
    } else {
        plus(windows_of(a, hs.drop_last()), a.windows_spec(hs.last().name@) as int)
    }
}

/// How many connections are found on the machine and not held here.
pub open spec fn stray_count(ps: Seq<ProviderState>) -> int
    decreases ps.len(),
{
    if ps.len() == 0 {
        0
    } else {
        plus(stray_count(ps.drop_last()), kept(ps.last().profiles@, is_foreign_fn()).len() as int)
    }
}

fn sum(a: u64, b: u64) -> (r: u64)
    ensures
        r == plus(a as int, b as int),
{
    if b <= u64::MAX - a {
        a + b
    } else {
        u64::MAX
    }
}

impl App {
    fn count_status(&self, s: Status) -> (r: usize)
        ensures
            r == status_count(self.active@, s),
    {
        let ghost live = self.active@;
        let mut n: usize = 0;
        let mut i: usize = 0;
        assert(live.take(0) =~= Seq::<LiveTunnel>::empty());
        while i < self.active.len()
            invariant
                i <= live.len(),
                n <= i,
                live == self.active@,
                n == status_count(live.take(i as int), s),
            decreases live.len() - i,
        {
            assert(live.take(i + 1).drop_last() =~= live.take(i as int));
            if self.active[i].status == s {
                n = n + 1;
            }
            i = i + 1;
        }
        assert(live.take(i as int) =~= live);
        n
    }

    fn traffic(&self) -> (r: (u64, u64))
        ensures
            r.0 == total_sent(self.active@),
            r.1 == total_received(self.active@),
    {
        let ghost live = self.active@;
        let mut tx: u64 = 0;
        let mut rx: u64 = 0;
        let mut i: usize = 0;
        assert(live.take(0) =~= Seq::<LiveTunnel>::empty());
        while i < self.active.len()
            invariant
                i <= live.len(),
                live == self.active@,
                tx == total_sent(live.take(i as int)),
                rx == total_received(live.take(i as int)),
            decreases live.len() - i,
        {
            assert(live.take(i + 1).drop_last() =~= live.take(i as int));
            tx = sum(tx, self.active[i].counters.tx);
            rx = sum(rx, self.active[i].counters.rx);
            i = i + 1;
        }
        assert(live.take(i as int) =~= live);
        (tx, rx)
    }

    fn count_chained(&self) -> (r: usize)
        ensures
            r == chained_count(self.tunnels@),
    {
        let ghost ts = self.tunnels@;
        let mut n: usize = 0;
        let mut i: usize = 0;
        assert(ts.take(0) =~= Seq::<Tunnel>::empty());
        while i < self.tunnels.len()
            invariant
                i <= ts.len(),
                n <= i,
                ts == self.tunnels@,
                n == chained_count(ts.take(i as int)),
            decreases ts.len() - i,
        {
            assert(ts.take(i + 1).drop_last() =~= ts.take(i as int));
            let t = &self.tunnels[i];
            if !t.requires_vpn.as_str().is_empty() || !t.depends_on.as_str().is_empty() {
                n = n + 1;
            }
            i = i + 1;
        }
        assert(ts.take(i as int) =~= ts);
        n
    }

    fn count_passwords(&self) -> (r: usize)
        ensures
            r == password_count(self.ssh_hosts@),
    {
        let ghost hs = self.ssh_hosts@;
        let mut n: usize = 0;
        let mut i: usize = 0;
        assert(hs.take(0) =~= Seq::<SshHost>::empty());
        while i < self.ssh_hosts.len()
            invariant
                i <= hs.len(),
                n <= i,
                hs == self.ssh_hosts@,
                n == password_count(hs.take(i as int)),
            decreases hs.len() - i,
        {
            assert(hs.take(i + 1).drop_last() =~= hs.take(i as int));
            if !self.ssh_hosts[i].password.as_str().is_empty() {
                n = n + 1;
            }
            i = i + 1;
        }
        assert(hs.take(i as int) =~= hs);
        n
    }

    fn count_windows(&self) -> (r: u64)
        ensures
            r == windows_of(*self, self.ssh_hosts@),
    {
        let ghost hs = self.ssh_hosts@;
        let mut n: u64 = 0;
        let mut i: usize = 0;
        assert(hs.take(0) =~= Seq::<SshHost>::empty());
        while i < self.ssh_hosts.len()
            invariant
                i <= hs.len(),
                hs == self.ssh_hosts@,
                n == windows_of(*self, hs.take(i as int)),
            decreases hs.len() - i,
        {
            assert(hs.take(i + 1).drop_last() =~= hs.take(i as int));
            let open: usize = self.ssh_windows_open(self.ssh_hosts[i].name.as_str());
            n = sum(n, open as u64);
            i = i + 1;
        }
        assert(hs.take(i as int) =~= hs);
        n
    }

    fn count_strays(&self) -> (r: u64)
        ensures
            r == stray_count(self.vpn.providers@),
    {
        let ghost ps = self.vpn.providers@;
        let mut n: u64 = 0;
        let mut i: usize = 0;
        assert(ps.take(0) =~= Seq::<ProviderState>::empty());
        while i < self.vpn.providers.len()
            invariant
                i <= ps.len(),
                ps == self.vpn.providers@,
                n == stray_count(ps.take(i as int)),
            decreases ps.len() - i,
        {
            assert(ps.take(i + 1).drop_last() =~= ps.take(i as int));
            let away = self.vpn.providers[i].foreign();
            let ghost fs = away@.map_values(|p: &VpnProfile| *p);
            assert(away@.len() == fs.len());
            let k: usize = away.len();
            n = sum(n, k as u64);
            i = i + 1;
        }
        assert(ps.take(i as int) =~= ps);
        n
    }

    fn count_rdp(&self) -> (r: usize)
        ensures
            r == running_count(self.rdp_active@),
    {
        let ghost live = self.rdp_active@;
        let mut n: usize = 0;
        let mut i: usize = 0;
        assert(live.take(0) =~= Seq::<LiveRdp>::empty());
        while i < self.rdp_active.len()
            invariant
                i <= live.len(),
                n <= i,
                live == self.rdp_active@,
                n == running_count(live.take(i as int)),
            decreases live.len() - i,
        {
            assert(live.take(i + 1).drop_last() =~= live.take(i as int));
            if matches!(self.rdp_active[i].status, RdpStatus::Running) {
                n = n + 1;
            }
            i = i + 1;
        }
        assert(live.take(i as int) =~= live);
        n
    }
}

// ---------------------------------------------------------------------------
// The header
// ---------------------------------------------------------------------------

pub open spec fn slug_if(a: App, id: ProviderId) -> Seq<Seq<char>> {
    if a.vpn.providers@[id.index_spec()].status.connected {
        seq![id.slug_spec()]
    } else {
        Seq::empty()
    }
}

/// The clients that are up, in alphabetical order: more than one VPN can be
/// connected at a time.
pub open spec fn up_slugs(a: App) -> Seq<Seq<char>> {
    slug_if(a, ProviderId::Netbird) + slug_if(a, ProviderId::Openvpn) + slug_if(
        a,
        ProviderId::Tailscale,
    ) + slug_if(a, ProviderId::Wireguard)
}

pub open spec fn vpn_word(a: App) -> Seq<char> {
    let ps = a.vpn.providers@;
    if !exists|i: int| 0 <= i < ps.len() && (#[trigger] ps[i]).installed {
        "-"@
    } else if up_slugs(a).len() == 0 {
        if exists|i: int| 0 <= i < ps.len() && (#[trigger] ps[i]).busy is Some {
            "…"@
        } else {
            "down"@
        }
    } else {
        joined(up_slugs(a), "+"@)
    }
}

/// What is up, for the header.
pub open spec fn header_text(a: App) -> Seq<char> {
    " ssh "@ + decimal(status_count(a.active@, Status::Up)) + "/"@ + decimal(a.active@.len())
        + " up · vpn "@ + vpn_word(a) + " · rdp "@ + decimal(running_count(a.rdp_active@)) + " "@
}

impl App {
    fn add_slug(&self, v: &mut Vec<String>, id: ProviderId)
        requires
            self.wf(),
        ensures
            texts(final(v)@) == texts(old(v)@) + slug_if(*self, id),
    {
        let ghost was = texts(v@);
        if self.vpn.get(id).status.connected {
            text::add_str(v, id.slug());
        }
        assert(texts(v@) =~= was + slug_if(*self, id));
    }

    /// What is up, for the header.
    pub fn header_line(&self) -> (r: String)
        requires
            self.wf(),
        ensures
            r@ == header_text(*self),
    {
        let mut names = text::no_texts();
        self.add_slug(&mut names, ProviderId::Netbird);
        self.add_slug(&mut names, ProviderId::Openvpn);
        self.add_slug(&mut names, ProviderId::Tailscale);
        self.add_slug(&mut names, ProviderId::Wireguard);
        assert(texts(names@) =~= up_slugs(*self));
        assert(texts(names@).len() == names@.len());
        let vpn = if !self.vpn.any_installed() {
            "-".to_owned()
        } else if names.len() == 0 {
            if self.vpn.any_busy() {
                "…".to_owned()
            } else {
                "down".to_owned()
            }
        } else {
            text::join(&names, "+")
        };
        let up: usize = self.count_status(Status::Up);
        let all: usize = self.active.len();
        let rdp: usize = self.count_rdp();
        let mut s = cat5(
            " ssh ",
            number::write(up as u64).as_str(),
            "/",
            number::write(all as u64).as_str(),
            " up · vpn ",
        );
        s.push_str(vpn.as_str());
        s.push_str(" · rdp ");
        s.push_str(number::write(rdp as u64).as_str());
        s.push_str(" ");
        s
    }
}

// ---------------------------------------------------------------------------
// The summaries
// ---------------------------------------------------------------------------

/// A count that is coloured where there is something to count.
pub open spec fn count_piece(n: nat, colour: Ink) -> Piece {
    strong(
        decimal(n),
        if n > 0 {
            colour
        } else {
            Ink::Dim
        },
    )
}

fn count_bit(n: usize, colour: Ink) -> (r: Bit)
    ensures
        r@ == count_piece(n as nat, colour),
{
    bold(
        number::write(n as u64).as_str(),
        if n > 0 {
            colour
        } else {
            Ink::Dim
        },
    )
}

pub open spec fn tunnels_summary(a: App) -> Seq<Seq<Piece>> {
    let out = Seq::<Seq<Piece>>::empty();
    let out = out.push(kv_line("configured"@, ink(decimal(a.tunnels@.len()), Ink::Text)));
    let out = out.push(
        kv_line("up"@, count_piece(status_count(a.active@, Status::Up), Ink::Good)),
    );
    let out = out.push(
        kv_line("connecting"@, count_piece(status_count(a.active@, Status::Connecting), Ink::Warn)),
    );
    let out = out.push(
        kv_line("failed"@, count_piece(status_count(a.active@, Status::Failed), Ink::Danger)),
    );
    let out = out.push(
        kv_line(
            "traffic"@,
            ink(
                "↑ "@ + size_text(total_sent(a.active@) as nat) + "  ↓ "@ + size_text(
                    total_received(a.active@) as nat,
                ),
                Ink::Text,
            ),
        ),
    );
    let chained = chained_count(a.tunnels@);
    let out = if chained > 0 {
        out.push(kv_line("chained"@, ink(decimal(chained), Ink::Text)))
    } else {
        out
    };
    if a.active@.len() == 0 {
        out.push(Seq::empty()).push(seq![ink(" no active tunnels"@, Ink::Dim)])
    } else {
        out
    }
}

/// How a client is doing, in a word.
pub open spec fn client_detail(s: ProviderState) -> Seq<char> {
    if !s.installed {
        "not installed"@
    } else {
        match s.busy {
            Some(b) => b@ + "…"@,
            None => if s.status.connected {
                match s.active_spec() {
                    Some(p) => p,
                    None => "connected"@,
                }
            } else {
                "down"@
            },
        }
    }
}

pub open spec fn client_summary(s: ProviderState) -> Seq<Piece> {
    let (mark, colour) = client_mark(s);
    seq![
        ink(" "@ + mark + " "@, colour),
        ink(filled(s.id.slug_spec(), 11), Ink::Text),
        ink(
            truncated(client_detail(s), 18),
            if s.status.connected {
                Ink::Accent
            } else {
                Ink::Dim
            },
        ),
    ]
}

/// The value a client gave for a key.
pub open spec fn field_of(s: ProviderState, key: Seq<char>) -> Option<Seq<char>> {
    let i = first_where(s.status.fields@, key_is(key));
    if i < s.status.fields@.len() {
        Some(s.status.fields@[i].1@)
    } else {
        None
    }
}

/// Where a client puts you.
pub open spec fn address_of(s: ProviderState) -> Option<Seq<char>> {
    match field_of(s, "NetBird IP"@) {
        Some(v) => Some(v),
        None => match field_of(s, "Tailscale IP"@) {
            Some(v) => Some(v),
            None => field_of(s, "Address"@),
        },
    }
}

pub open spec fn has_error() -> spec_fn(ProviderState) -> bool {
    |s: ProviderState| s.error is Some
}

pub open spec fn with_clients_summary(out: Seq<Seq<Piece>>, ps: Seq<ProviderState>) -> Seq<
    Seq<Piece>,
>
    decreases ps.len(),
{
    if ps.len() == 0 {
        out
    } else {
        with_clients_summary(out, ps.drop_last()).push(client_summary(ps.last()))
    }
}

/// One line per client, and the details worth the space.
pub open spec fn vpn_summary(a: App) -> Seq<Seq<Piece>> {
    let ps = a.vpn.providers@;
    let none = Seq::<Seq<Piece>>::empty();
    if !exists|i: int| 0 <= i < ps.len() && (#[trigger] ps[i]).installed {
        none.push(Seq::empty()).push(seq![ink(" no VPN client found on PATH"@, Ink::Dim)])
    } else {
        let out = with_clients_summary(none, ps);
        let up = kept(ps, is_connected_fn());
        let out = if up.len() > 0 {
            match address_of(up[0]) {
                Some(v) => out.push(kv_line("ip"@, ink(v, Ink::Text))),
                None => out,
            }
        } else {
            out
        };
        let strays = stray_count(ps);
        let out = if strays > 0 {
            out.push(seq![ink(" ◆ "@ + decimal(strays as nat) + " not started here"@, Ink::Warn)])
        } else {
            out
        };
        let k = first_where(ps, has_error());
        if k < ps.len() {
            out.push(seq![ink(" "@ + truncated(ps[k].error->0@, 40), Ink::Danger)])
        } else {
            out
        }
    }
}

pub open spec fn ssh_summary(a: App) -> Seq<Seq<Piece>> {
    let out = Seq::<Seq<Piece>>::empty();
    let out = out.push(kv_line("configured"@, ink(decimal(a.ssh_hosts@.len()), Ink::Text)));
    let open = windows_of(a, a.ssh_hosts@);
    let out = if open > 0 {
        out.push(
            kv_line("sessions"@, ink(decimal(open as nat) + " window(s) open"@, Ink::Good)),
        )
    } else {
        out
    };
    let kept_ = password_count(a.ssh_hosts@);
    let out = if kept_ > 0 {
        out.push(kv_line("cleartext"@, ink(decimal(kept_) + " password(s)"@, Ink::Warn)))
    } else {
        out
    };
    let out = match a.activation {
        Some(act) => out.push(
            kv_line("starting"@, ink(truncated(progress_of(act@), 16), Ink::Warn)),
        ),
        None => out,
    };
    out.push(Seq::empty()).push(seq![ink(" sessions run in this terminal"@, Ink::Dim)])
}

/// The sessions of these names, as far as they are there.
pub open spec fn with_sessions(out: Seq<Seq<Piece>>, a: App, names: Seq<String>, now: u64) -> Seq<
    Seq<Piece>,
>
    decreases names.len(),
{
    if names.len() == 0 {
        out
    } else {
        let before = with_sessions(out, a, names.drop_last(), now);
        let name = names.last()@;
        if has_name(a.rdp_active@, name) {
            let l = a.rdp_active@[place_of(a.rdp_active@, name)];
            before.push(
                seq![
                    ink(" "@ + rdp_dot(l.status).text + " "@, rdp_ink(l.status)),
                    ink(truncated(name, 16), Ink::Text),
                    ink("  "@ + duration_text(secs_since(now, l.started_at)), Ink::Dim),
                ],
            )
        } else {
            before
        }
    }
}

/// The rdp sessions, by name.
pub open spec fn session_names(a: App) -> Seq<String> {
    in_alphabet(a.rdp_active@.map_values(|l: LiveRdp| l.name))
}

/// The running tunnels, by name.
pub open spec fn running_names(a: App) -> Seq<String> {
    in_alphabet(a.active@.map_values(|l: LiveTunnel| l.name))
}

pub open spec fn rdp_summary(a: App, now: u64) -> Seq<Seq<Piece>> {
    let out = Seq::<Seq<Piece>>::empty();
    let out = out.push(kv_line("configured"@, ink(decimal(a.rdp_conns@.len()), Ink::Text)));
    let out = out.push(
        kv_line("running"@, count_piece(running_count(a.rdp_active@), Ink::Good)),
    );
    let out = if !a.rdp_installed {
        out.push(seq![ink(" xfreerdp3 not found on PATH"@, Ink::Dim)])
    } else {
        out
    };
    let names = session_names(a);
    with_sessions(
        out,
        a,
        if names.len() > 4 {
            names.take(4)
        } else {
            names
        },
        now,
    )
}

impl App {
    /// The dashboard's summary of the tunnels.
    pub fn tunnels_summary_panel(&self) -> (r: Sheet)
        ensures
            r@ == tunnels_summary(*self),
    {
        let mut out = Sheet::new();
        let n: usize = self.tunnels.len();
        add_kv(&mut out, "configured", bit(number::write(n as u64).as_str(), Ink::Text));
        add_kv(&mut out, "up", count_bit(self.count_status(Status::Up), Ink::Good));
        add_kv(&mut out, "connecting", count_bit(self.count_status(Status::Connecting), Ink::Warn));
        add_kv(&mut out, "failed", count_bit(self.count_status(Status::Failed), Ink::Danger));
        let (tx, rx) = self.traffic();
        let traffic = cat4(
            "↑ ",
            ui::human_bytes(tx).as_str(),
            "  ↓ ",
            ui::human_bytes(rx).as_str(),
        );
        add_kv(&mut out, "traffic", bit(traffic.as_str(), Ink::Text));
        let chained: usize = self.count_chained();
        if chained > 0 {
            add_kv(&mut out, "chained", bit(number::write(chained as u64).as_str(), Ink::Text));
        }
        if self.active.len() == 0 {
            out.gap();
            out.say(" no active tunnels", Ink::Dim);
        }
        out
    }

    fn client_summary_bits(&self, s: &ProviderState) -> (r: Vec<Bit>)
        ensures
            pieces(r@) == client_summary(*s),
    {
        let (mark, colour) = mark_of(s);
        let detail = if !s.installed {
            "not installed".to_owned()
        } else {
            match &s.busy {
                Some(b) => cat(b.as_str(), "…"),
                None => if s.status.connected {
                    match s.active_profile() {
                        Some(p) => p.to_owned(),
                        None => "connected".to_owned(),
                    }
                } else {
                    "down".to_owned()
                },
            }
        };
        line3(
            bit(cat3(" ", mark, " ").as_str(), colour),
            bit(fill(s.id.slug(), 11).as_str(), Ink::Text),
            bit(
                truncate_pub(detail.as_str(), 18).as_str(),
                if s.status.connected {
                    Ink::Accent
                } else {
                    Ink::Dim
                },
            ),
        )
    }

    fn address(&self, s: &ProviderState) -> (r: Option<String>)
        ensures
            crate::browser::opt_string(r) == address_of(*s),
    {
        proof {
            lemma_first_where(s.status.fields@, key_is("NetBird IP"@));
            lemma_first_where(s.status.fields@, key_is("Tailscale IP"@));
            lemma_first_where(s.status.fields@, key_is("Address"@));
        }
        match s.status.field("NetBird IP") {
            Some(v) => Some(v.to_owned()),
            None => match s.status.field("Tailscale IP") {
                Some(v) => Some(v.to_owned()),
                None => match s.status.field("Address") {
                    Some(v) => Some(v.to_owned()),
                    None => None,
                },
            },
        }
    }

    fn first_error(&self) -> (r: Option<usize>)
        ensures
            r is Some <==> first_where(self.vpn.providers@, has_error())
                < self.vpn.providers@.len(),
            r is Some ==> r->0 == first_where(self.vpn.providers@, has_error()),
    {
        let ghost p = has_error();
        let mut i: usize = 0;
        while i < self.vpn.providers.len()
            invariant
                i <= self.vpn.providers@.len(),
                p == has_error(),
                forall|k: int| 0 <= k < i ==> !p(#[trigger] self.vpn.providers@[k]),
            decreases self.vpn.providers@.len() - i,
        {
            if self.vpn.providers[i].error.is_some() {
                proof {
                    lemma_first_where_is(self.vpn.providers@, p, i as int);
                }
                return Some(i);
            }
            i = i + 1;
        }
        proof {
            lemma_first_where_is(self.vpn.providers@, p, i as int);
        }
        None
    }

    fn clients_part(&self) -> (r: Sheet)
        ensures
            r@ == with_clients_summary(Seq::empty(), self.vpn.providers@),
    {
        let ghost ps = self.vpn.providers@;
        let mut out = Sheet::new();
        let mut i: usize = 0;
        assert(ps.take(0) =~= Seq::<ProviderState>::empty());
        while i < self.vpn.providers.len()
            invariant
                i <= ps.len(),
                ps == self.vpn.providers@,
                out@ == with_clients_summary(Seq::empty(), ps.take(i as int)),
            decreases ps.len() - i,
        {
            assert(ps.take(i + 1).drop_last() =~= ps.take(i as int));
            out.add(self.client_summary_bits(&self.vpn.providers[i]));
            i = i + 1;
        }
        assert(ps.take(i as int) =~= ps);
        out
    }

    /// The dashboard's summary of the VPN clients.
    pub fn vpn_summary_panel(&self) -> (r: Sheet)
        ensures
            r@ == vpn_summary(*self),
    {
        if !self.vpn.any_installed() {
            let mut out = Sheet::new();
            out.gap();
            out.say(" no VPN client found on PATH", Ink::Dim);
            return out;
        }
        let mut out = self.clients_part();
        let up = self.vpn.connected();
        let ghost connected = up@.map_values(|p: &ProviderState| *p);
        assert(connected.len() == up@.len());
        if up.len() > 0 {
            assert(connected[0] == *up@[0]);
            match self.address(up[0]) {
                Some(v) => {
                    add_kv(&mut out, "ip", bit(v.as_str(), Ink::Text));
                },
                None => {},
            }
        }
        let strays: u64 = self.count_strays();
        if strays > 0 {
            out.say(
                cat3(" ◆ ", number::write(strays).as_str(), " not started here").as_str(),
                Ink::Warn,
            );
        }
        match self.first_error() {
            Some(k) => match &self.vpn.providers[k].error {
                Some(e) => {
                    out.say(cat(" ", truncate_pub(e.as_str(), 40).as_str()).as_str(), Ink::Danger);
                },
                None => {
                    proof {
                        lemma_first_where(self.vpn.providers@, has_error());
                    }
                },
            },
            None => {},
        }
        out
    }

    /// The dashboard's summary of the ssh hosts.
    pub fn ssh_summary_panel(&self) -> (r: Sheet)
        requires
            self.wf(),
        ensures
            r@ == ssh_summary(*self),
    {
        let mut out = Sheet::new();
        let n: usize = self.ssh_hosts.len();
        add_kv(&mut out, "configured", bit(number::write(n as u64).as_str(), Ink::Text));
        let open: u64 = self.count_windows();
        if open > 0 {
            add_kv(
                &mut out,
                "sessions",
                bit(cat(number::write(open).as_str(), " window(s) open").as_str(), Ink::Good),
            );
        }
        let stored: usize = self.count_passwords();
        if stored > 0 {
            add_kv(
                &mut out,
                "cleartext",
                bit(cat(number::write(stored as u64).as_str(), " password(s)").as_str(), Ink::Warn),
            );
        }
        match &self.activation {
            Some(act) => {
                let p = truncate_pub(act.progress().as_str(), 16);
                add_kv(&mut out, "starting", bit(p.as_str(), Ink::Warn));
            },
            None => {},
        }
        out.gap();
        out.say(" sessions run in this terminal", Ink::Dim);
        out
    }

    /// The dashboard's summary of the rdp sessions.
    pub fn rdp_summary_panel(&self, now: u64) -> (r: Sheet)
        ensures
            r@ == rdp_summary(*self, now),
    {
        let mut out = Sheet::new();
        let n: usize = self.rdp_conns.len();
        add_kv(&mut out, "configured", bit(number::write(n as u64).as_str(), Ink::Text));
        add_kv(&mut out, "running", count_bit(self.count_rdp(), Ink::Good));
        if !self.rdp_installed {
            out.say(" xfreerdp3 not found on PATH", Ink::Dim);
        }
        let names = self.rdp_session_names();
        let ghost start = out@;
        let ghost all = session_names(*self);
        let most: usize = if names.len() > 4 {
            4
        } else {
            names.len()
        };
        let mut i: usize = 0;
        assert(all.take(0) =~= Seq::<String>::empty());
        while i < most
            invariant
                i <= most <= names@.len(),
                all == names@,
                out@ == with_sessions(start, *self, all.take(i as int), now),
            decreases most - i,
        {
            assert(all.take(i + 1).drop_last() =~= all.take(i as int));
            match position(self.rdp_active.as_slice(), names[i].as_str()) {
                Some(k) => {
                    let l = &self.rdp_active[k];
                    let dot = rdp_dot_bit(l.status);
                    let mark = cat3(" ", dot.text.as_str(), " ");
                    out.add(
                        line3(
                            bit(mark.as_str(), ink_of_rdp(l.status)),
                            bit(truncate_pub(names[i].as_str(), 16).as_str(), Ink::Text),
                            bit(
                                cat("  ", lasting(now, l.started_at).as_str()).as_str(),
                                Ink::Dim,
                            ),
                        ),
                    );
                },
                None => {},
            }
            i = i + 1;
        }
        assert(all.take(all.len() as int) =~= all);
        out
    }
}

}
