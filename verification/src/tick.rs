//! What happens as time passes: what became of the processes, and what is due.

use vstd::prelude::*;
use crate::app::App;
use crate::browser::opt_string;
use crate::clearing::plus;
use crate::effects::{self, acts, Act, Effect};
use crate::live::{LiveOvpn, LiveRdp, LiveTunnel, OvpnStatus};
use crate::logs::{pushed, LogTarget, Ring, Subject, RING_CAP};
use crate::number::{self, signed};
use crate::rdp::RdpStatus;
use crate::text::{cat3, cat5};
use crate::tunnel::{self, after_look, Counters, Seen, Status};
use crate::types::Tunnel;
use crate::vpn::ProviderId;
use crate::vpn_sync::{has_passed, passed, SCAN_EVERY};
use crate::vpn_view::ProviderState;

verus! {

/// How many samples the throughput graph shows.
pub const THROUGHPUT_HISTORY: usize = 120;

/// How often a client is asked how it is, in milliseconds.
pub const VPN_EVERY: u64 = 5_000;

/// How often the sudo ticket is kept from running out, in milliseconds.
pub const TICKET_EVERY: u64 = 120_000;

/// How long the status bar says a thing, in milliseconds.
pub const STATUS_FOR: u64 = 6_000;

/// How long after a failure a tunnel is first tried again, in milliseconds. It
/// is tried again later the more often it has failed.
pub const RETRY_AFTER: u64 = 3_000;

// ---------------------------------------------------------------------------
// What became of the processes
// ---------------------------------------------------------------------------

/// How a state reads, with what went wrong where something did.
pub open spec fn state_text(label: Seq<char>, why: Option<Seq<char>>) -> Seq<char> {
    match why {
        Some(e) => label + " — "@ + e,
        None => label,
    }
}

fn state_line(label: &str, why: &Option<String>) -> (r: String)
    ensures
        r@ == state_text(label@, opt_string(*why)),
{
    match why {
        Some(e) => cat3(label, " — ", e.as_str()),
        None => label.to_owned(),
    }
}

/// What a look at a tunnel found.
pub struct TunnelLook {
    pub seen: Seen,
    pub counters: Counters,
    pub rate_tx: u64,
    pub rate_rx: u64,
}

/// The last thing a process said.
pub open spec fn last_said(r: Ring) -> Option<Seq<char>> {
    if r.held().len() == 0 {
        None
    } else {
        Some(r.held().last().text@)
    }
}

/// A tunnel after a look at it.
pub open spec fn tunnel_after(x: LiveTunnel, y: LiveTunnel, look: TunnelLook) -> bool {
    let (status, error) = after_look(x.status, opt_string(x.error), look.seen, last_said(x.log));
    &&& y == (LiveTunnel {
        status,
        error: y.error,
        counters: look.counters,
        rate_tx: look.rate_tx,
        rate_rx: look.rate_rx,
        ..x
    })
    &&& opt_string(y.error) == error
}

/// What is kept of a tunnel whose state changed.
pub open spec fn tunnel_news(x: LiveTunnel, y: LiveTunnel) -> Seq<Act> {
    if y.status == x.status {
        Seq::empty()
    } else {
        seq![
            Act::Note(
                Subject::Tunnel(x.name@),
                state_text(y.status.label_spec(), opt_string(y.error)),
                y.status == Status::Failed,
            ),
        ]
    }
}

/// What is kept of an openvpn session whose state changed.
pub open spec fn ovpn_news(x: LiveOvpn, y: LiveOvpn) -> Seq<Act> {
    if y.status == x.status {
        Seq::empty()
    } else {
        seq![
            Act::Note(
                Subject::Vpn(ProviderId::Openvpn, x.name@),
                state_text(y.label@, opt_string(y.fault)),
                y.status matches OvpnStatus::Exited(c) && c != 0,
            ),
        ]
    }
}

/// What a look at an openvpn session found.
pub struct OvpnLook {
    pub status: OvpnStatus,
    /// How its state reads.
    pub label: String,
    pub fault: Option<String>,
    pub root_pid: Option<u32>,
    pub device: Option<String>,
}

impl App {
    /// What a look at the tunnel at this place of the running ones found.
    pub fn tunnel_looked(&mut self, at: usize, look: TunnelLook) -> (r: Vec<Effect>)
        requires
            old(self).wf(),
            at < old(self).active@.len(),
        ensures
            final(self).wf(),
            *final(self) == (App { active: final(self).active, ..*old(self) }),
            final(self).active@ == old(self).active@.update(
                at as int,
                final(self).active@[at as int],
            ),
            tunnel_after(old(self).active@[at as int], final(self).active@[at as int], look),
            acts(r@) == tunnel_news(old(self).active@[at as int], final(self).active@[at as int]),
    {
        let ghost a = *self;
        let ghost x = self.active@[at as int];
        let before = self.active[at].status;
        let said = self.active[at].log.last_text();
        let last: Option<&str> = match &said {
            Some(s) => Some(s.as_str()),
            None => None,
        };
        let error = self.active[at].error.take();
        let (status, error) = tunnel::poll(before, error, &look.seen, last);
        let mut out = effects::nothing();
        if status != before {
            effects::ask(
                &mut out,
                Effect::Note(
                    LogTarget::Tunnel(self.active[at].name.clone()),
                    state_line(status.label(), &error),
                    status == Status::Failed,
                ),
            );
        }
        self.active[at].status = status;
        self.active[at].error = error;
        self.active[at].counters = look.counters;
        self.active[at].rate_tx = look.rate_tx;
        self.active[at].rate_rx = look.rate_rx;
        assert(self.active@ =~= a.active@.update(at as int, self.active@[at as int]));
        assert(acts(out@) =~= tunnel_news(x, self.active@[at as int]));
        out
    }

    /// What a look at the rdp session at this place found: the code it ended
    /// with, where it has ended.
    pub fn rdp_looked(&mut self, at: usize, ended: Option<i32>, now: u64) -> (r: Vec<Effect>)
        requires
            old(self).wf(),
            at < old(self).rdp_active@.len(),
        ensures
            final(self).wf(),
            *final(self) == (App { rdp_active: final(self).rdp_active, ..*old(self) }),
            final(self).rdp_active@ == old(self).rdp_active@.update(
                at as int,
                final(self).rdp_active@[at as int],
            ),
            ({
                let x = old(self).rdp_active@[at as int];
                let y = final(self).rdp_active@[at as int];
                match (x.status, ended) {
                    (RdpStatus::Running, Some(code)) => {
                        let line = y.log.held().last();
                        &&& y == (LiveRdp { status: RdpStatus::Exited(code), log: y.log, ..x })
                        &&& y.log.of() == x.log.of()
                        &&& y.log.held() == pushed(x.log.held(), line, RING_CAP as nat)
                        &&& line.source == x.log.of() && !line.error
                        &&& line.text@ == "── "@ + old(self).rdp_client.program_spec()
                            + " exited ("@ + signed(code as int) + ") ──"@
                        &&& line.at == now
                        &&& acts(r@) == seq![
                            Act::Note(
                                Subject::Rdp(x.name@),
                                RdpStatus::Exited(code).label_spec(),
                                code != 0,
                            ),
                        ]
                    },
                    _ => y == x && acts(r@).len() == 0,
                }
            }),
    {
        let ghost a = *self;
        let running = matches!(self.rdp_active[at].status, RdpStatus::Running);
        match ended {
            Some(code) => {
                if !running {
                    assert(self.rdp_active@ =~= a.rdp_active@.update(
                        at as int,
                        self.rdp_active@[at as int],
                    ));
                    return effects::nothing();
                }
                let status = RdpStatus::Exited(code);
                let line = cat5(
                    "── ",
                    self.rdp_client.program(),
                    " exited (",
                    number::write_signed(code).as_str(),
                    ") ──",
                );
                self.rdp_active[at].status = status;
                self.rdp_active[at].log.push(now, line.as_str());
                assert(self.rdp_active@ =~= a.rdp_active@.update(
                    at as int,
                    self.rdp_active@[at as int],
                ));
                effects::just(
                    Effect::Note(
                        LogTarget::Rdp(self.rdp_active[at].name.clone()),
                        status.label(),
                        code != 0,
                    ),
                )
            },
            None => {
                assert(self.rdp_active@ =~= a.rdp_active@.update(
                    at as int,
                    self.rdp_active@[at as int],
                ));
                effects::nothing()
            },
        }
    }

    /// What a look at the openvpn session at this place found.
    pub fn ovpn_looked(&mut self, at: usize, look: OvpnLook) -> (r: Vec<Effect>)
        requires
            old(self).wf(),
            at < old(self).ovpn_active@.len(),
        ensures
            final(self).wf(),
            *final(self) == (App { ovpn_active: final(self).ovpn_active, ..*old(self) }),
            final(self).ovpn_active@ == old(self).ovpn_active@.update(
                at as int,
                final(self).ovpn_active@[at as int],
            ),
            final(self).ovpn_active@[at as int] == (LiveOvpn {
                status: look.status,
                label: look.label,
                fault: look.fault,
                root_pid: look.root_pid,
                device: look.device,
                ..old(self).ovpn_active@[at as int]
            }),
            acts(r@) == ovpn_news(
                old(self).ovpn_active@[at as int],
                final(self).ovpn_active@[at as int],
            ),
    {
        let ghost a = *self;
        let ghost x = self.ovpn_active@[at as int];
        let mut out = effects::nothing();
        if look.status != self.ovpn_active[at].status {
            let failed = match look.status {
                OvpnStatus::Exited(c) => c != 0,
                _ => false,
            };
            effects::ask(
                &mut out,
                Effect::Note(
                    LogTarget::Vpn(ProviderId::Openvpn, self.ovpn_active[at].name.clone()),
                    state_line(look.label.as_str(), &look.fault),
                    failed,
                ),
            );
        }
        self.ovpn_active[at].status = look.status;
        self.ovpn_active[at].label = look.label;
        self.ovpn_active[at].fault = look.fault;
        self.ovpn_active[at].root_pid = look.root_pid;
        self.ovpn_active[at].device = look.device;
        assert(self.ovpn_active@ =~= a.ovpn_active@.update(
            at as int,
            self.ovpn_active@[at as int],
        ));
        assert(acts(out@) =~= ovpn_news(x, self.ovpn_active@[at as int]));
        out
    }
}

// ---------------------------------------------------------------------------
// Throughput
// ---------------------------------------------------------------------------

/// What all tunnels carry together, as far as it can be counted.
pub open spec fn total_rate(live: Seq<LiveTunnel>) -> int
    decreases live.len(),
{
    if live.len() == 0 {
        0
    } else {
        plus(
            total_rate(live.drop_last()),
            plus(live.last().rate_tx as int, live.last().rate_rx as int),
        )
    }
}

fn add_rates(a: u64, b: u64) -> (r: u64)
    ensures
        r == plus(a as int, b as int),
{
    if b <= u64::MAX - a {
        a + b
    } else {
        u64::MAX
    }
}

impl App {
    /// Put one more sample on the throughput graph; the oldest goes once it is
    /// full.
    pub fn sample_throughput(&mut self)
        requires
            old(self).wf(),
        ensures
            final(self).wf(),
            *final(self) == (App {
                throughput_history: final(self).throughput_history,
                ..*old(self)
            }),
            final(self).throughput_history@ == pushed(
                old(self).throughput_history@,
                total_rate(old(self).active@) as u64,
                THROUGHPUT_HISTORY as nat,
            ),
    {
        let ghost live = self.active@;
        let mut total: u64 = 0;
        let mut i: usize = 0;
        assert(live.take(0) =~= Seq::<LiveTunnel>::empty());
        while i < self.active.len()
            invariant
                i <= live.len(),
                live == self.active@,
                total == total_rate(live.take(i as int)),
            decreases live.len() - i,
        {
            assert(live.take(i + 1).drop_last() =~= live.take(i as int));
            total = add_rates(total, add_rates(self.active[i].rate_tx, self.active[i].rate_rx));
            i = i + 1;
        }
        assert(live.take(i as int) =~= live);
        let ghost was = self.throughput_history@;
        if self.throughput_history.len() >= THROUGHPUT_HISTORY {
            let _ = self.throughput_history.remove(0);
            assert(self.throughput_history@ =~= was.drop_first());
        }
        self.throughput_history.push(total);
    }
}

// ---------------------------------------------------------------------------
// What is due
// ---------------------------------------------------------------------------

/// A client is due to be asked: each on its own clock, and never while one of
/// its own actions is still in flight.
pub open spec fn is_due(s: ProviderState, now: u64) -> bool {
    s.installed && s.id != ProviderId::Openvpn && s.busy is None && passed(
        now,
        s.last_refresh,
        VPN_EVERY as int,
    )
}

pub open spec fn due_acts(ps: Seq<ProviderState>, now: u64) -> Seq<Act>
    decreases ps.len(),
{
    if ps.len() == 0 {
        Seq::empty()
    } else if is_due(ps.last(), now) {
        due_acts(ps.drop_last(), now).push(Act::Refresh(ps.last().id))
    } else {
        due_acts(ps.drop_last(), now)
    }
}

/// What is due now: the clients, a sweep of the machine, the sudo ticket.
pub open spec fn tick_acts(a: App, now: u64) -> Seq<Act> {
    due_acts(a.vpn.providers@, now) + (if passed(now, a.scan_at, SCAN_EVERY as int) {
        seq![Act::Scan]
    } else {
        Seq::empty()
    }) + (if passed(now, Some(a.ticket_at), TICKET_EVERY as int) {
        seq![Act::KeepTicket]
    } else {
        Seq::empty()
    })
}

impl App {
    /// What is due now.
    pub fn due(&mut self, now: u64) -> (r: Vec<Effect>)
        requires
            old(self).wf(),
        ensures
            final(self).wf(),
            *final(self) == (App {
                ticket_at: if passed(now, Some(old(self).ticket_at), TICKET_EVERY as int) {
                    now
                } else {
                    old(self).ticket_at
                },
                ..*old(self)
            }),
            acts(r@) == tick_acts(*old(self), now),
    {
        let ghost ps = self.vpn.providers@;
        let mut out = effects::nothing();
        let mut i: usize = 0;
        assert(ps.take(0) =~= Seq::<ProviderState>::empty());
        while i < self.vpn.providers.len()
            invariant
                i <= ps.len(),
                ps == self.vpn.providers@,
                *self == *old(self),
                acts(out@) == due_acts(ps.take(i as int), now),
            decreases ps.len() - i,
        {
            assert(ps.take(i + 1).drop_last() =~= ps.take(i as int));
            let s = &self.vpn.providers[i];
            if s.installed && s.id != ProviderId::Openvpn && s.busy.is_none() && has_passed(
                now,
                s.last_refresh,
                VPN_EVERY,
            ) {
                effects::ask(&mut out, Effect::Refresh(s.id));
            }
            i = i + 1;
        }
        assert(ps.take(i as int) =~= ps);
        if has_passed(now, self.scan_at, SCAN_EVERY) {
            effects::ask(&mut out, Effect::Scan);
        }
        if has_passed(now, Some(self.ticket_at), TICKET_EVERY) {
            self.ticket_at = now;
            effects::ask(&mut out, Effect::KeepTicket);
        }
        assert(acts(out@) =~= tick_acts(*old(self), now));
        out
    }

    /// The status bar stops saying what it has said for long enough.
    pub fn expire_status(&mut self, now: u64)
        requires
            old(self).wf(),
        ensures
            final(self).wf(),
            match old(self).status_msg {
                Some(m) => *final(self) == (App {
                    status_msg: if now - m.at > STATUS_FOR {
                        None
                    } else {
                        old(self).status_msg
                    },
                    ..*old(self)
                }),
                None => *final(self) == *old(self),
            },
    {
        let over = match &self.status_msg {
            Some(m) => now > m.at && now - m.at > STATUS_FOR,
            None => false,
        };
        if over {
            self.status_msg = None;
        }
    }
}

}
