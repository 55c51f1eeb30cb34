//! Starting and stopping: what running a plan does to the program, and what it
//! asks of the machine.

use vstd::prelude::*;
use crate::activation::Running;
use crate::app::App;
use crate::effects::{self, acts, reported, Act, Effect};
use crate::live::{
    has_name, holds_name, law_put_in_is_there, law_taken_out_is_gone, one_each, place_of, position,
    put, take_out, with_one, without, LiveOvpn, LiveRdp, LiveTunnel, Named, OvpnStatus,
};
use crate::logs::{LogTarget, Ring, Subject};
use crate::rdp::RdpStatus;
use crate::redact::{self, redacted};
use crate::text::{cat, cat3, cat4, joined, texts};
use crate::tunnel::{Counters, Status};
use crate::vpn::ProviderId;

verus! {

// ---------------------------------------------------------------------------
// Taking things down
// ---------------------------------------------------------------------------

/// What stopping a tunnel takes.
pub open spec fn stop_acts(live: Seq<LiveTunnel>, name: Seq<char>) -> Seq<Act> {
    if has_name(live, name) {
        seq![Act::StopTunnel(name), Act::Note(Subject::Tunnel(name), "stopped"@, false)]
    } else {
        Seq::empty()
    }
}

/// What stopping an rdp session takes.
pub open spec fn close_acts(live: Seq<LiveRdp>, name: Seq<char>) -> Seq<Act> {
    if has_name(live, name) {
        seq![Act::StopRdp(name)]
    } else {
        Seq::empty()
    }
}

/// A list without the members of these names, taken out one after another.
pub open spec fn without_all<T: Named>(s: Seq<T>, names: Seq<Seq<char>>) -> Seq<T>
    decreases names.len(),
{
    if names.len() == 0 {
        s
    } else {
        without(without_all(s, names.drop_last()), names.last())
    }
}

/// What stopping these tunnels takes.
pub open spec fn stop_all_acts(live: Seq<LiveTunnel>, names: Seq<Seq<char>>) -> Seq<Act>
    decreases names.len(),
{
    if names.len() == 0 {
        Seq::empty()
    } else {
        stop_all_acts(live, names.drop_last()) + stop_acts(
            without_all(live, names.drop_last()),
            names.last(),
        )
    }
}

/// What stopping these rdp sessions takes.
pub open spec fn close_all_acts(live: Seq<LiveRdp>, names: Seq<Seq<char>>) -> Seq<Act>
    decreases names.len(),
{
    if names.len() == 0 {
        Seq::empty()
    } else {
        close_all_acts(live, names.drop_last()) + close_acts(
            without_all(live, names.drop_last()),
            names.last(),
        )
    }
}

/// The program once these tunnels and rdp sessions are down.
pub open spec fn taken_down(
    a: App,
    b: App,
    tunnels: Seq<Seq<char>>,
    sessions: Seq<Seq<char>>,
) -> bool {
    &&& b.active@ == without_all(a.active@, tunnels)
    &&& b.reconnect@ == without_all(a.reconnect@, tunnels)
    &&& b.rdp_active@ == without_all(a.rdp_active@, sessions)
    &&& b == (App { active: b.active, reconnect: b.reconnect, rdp_active: b.rdp_active, ..a })
}

/// Taking names out of a list leaves none of them behind.
pub proof fn law_all_taken_out<T: Named>(s: Seq<T>, names: Seq<Seq<char>>)
    requires
        one_each(s),
    ensures
        one_each(without_all(s, names)),
        forall|i: int| 0 <= i < names.len() ==> !has_name(without_all(s, names), #[trigger] names[i]),
    decreases names.len(),
{
    if names.len() > 0 {
        let head = names.drop_last();
        law_all_taken_out(s, head);
        law_taken_out_is_gone(without_all(s, head), names.last(), names.last());
        assert forall|i: int| 0 <= i < names.len() implies !has_name(
            without_all(s, names),
            #[trigger] names[i],
        ) by {
            law_taken_out_is_gone(without_all(s, head), names.last(), names[i]);
            if i < head.len() {
                assert(head[i] == names[i]);
            }
        }
    }
}

impl App {
    /// Take a tunnel down.
    pub fn stop_tunnel(&mut self, name: &str, out: &mut Vec<Effect>)
        requires
            old(self).wf(),
        ensures
            final(self).wf(),
            final(self).active@ == without(old(self).active@, name@),
            final(self).reconnect@ == without(old(self).reconnect@, name@),
            *final(self) == (App {
                active: final(self).active,
                reconnect: final(self).reconnect,
                ..*old(self)
            }),
            acts(final(out)@) == acts(old(out)@) + stop_acts(old(self).active@, name@),
    {
        proof {
            law_taken_out_is_gone(self.active@, name@, name@);
            law_taken_out_is_gone(self.reconnect@, name@, name@);
        }
        let ghost was = acts(out@);
        let _ = take_out(&mut self.reconnect, name);
        if take_out(&mut self.active, name).is_some() {
            effects::ask(out, Effect::StopTunnel(name.to_owned()));
            effects::ask(
                out,
                Effect::Note(LogTarget::Tunnel(name.to_owned()), "stopped".to_owned(), false),
            );
        }
        assert(acts(out@) =~= was + stop_acts(old(self).active@, name@));
    }

    /// Take tunnels down, one after another.
    pub fn stop_tunnels(&mut self, names: &Vec<String>, out: &mut Vec<Effect>)
        requires
            old(self).wf(),
        ensures
            final(self).wf(),
            taken_down(*old(self), *final(self), texts(names@), Seq::empty()),
            acts(final(out)@) == acts(old(out)@) + stop_all_acts(
                old(self).active@,
                texts(names@),
            ),
    {
        let ghost start = *self;
        let ghost was = acts(out@);
        let ghost all = texts(names@);
        let mut i: usize = 0;
        assert(all.take(0) =~= Seq::<Seq<char>>::empty());
        assert(was + stop_all_acts(start.active@, all.take(0)) =~= was);
        while i < names.len()
            invariant
                i <= names@.len(),
                all == texts(names@),
                self.wf(),
                taken_down(start, *self, all.take(i as int), Seq::empty()),
                acts(out@) == was + stop_all_acts(start.active@, all.take(i as int)),
            decreases names@.len() - i,
        {
            assert(all.take(i + 1).drop_last() =~= all.take(i as int));
            assert(all.take(i + 1).last() == names@[i as int]@);
            let ghost before = acts(out@);
            let ghost here = stop_acts(self.active@, names@[i as int]@);
            self.stop_tunnel(names[i].as_str(), out);
            assert(acts(out@) =~= was + (stop_all_acts(start.active@, all.take(i as int)) + here));
            i = i + 1;
        }
        assert(all.take(i as int) =~= all);
    }

    /// Close an rdp session.
    pub fn drop_rdp(&mut self, name: &str, out: &mut Vec<Effect>) -> (r: bool)
        requires
            old(self).wf(),
        ensures
            final(self).wf(),
            r == has_name(old(self).rdp_active@, name@),
            final(self).rdp_active@ == without(old(self).rdp_active@, name@),
            *final(self) == (App { rdp_active: final(self).rdp_active, ..*old(self) }),
            acts(final(out)@) == acts(old(out)@) + close_acts(old(self).rdp_active@, name@),
    {
        proof {
            law_taken_out_is_gone(self.rdp_active@, name@, name@);
        }
        let ghost was = acts(out@);
        let there = take_out(&mut self.rdp_active, name).is_some();
        if there {
            effects::ask(out, Effect::StopRdp(name.to_owned()));
        }
        assert(acts(out@) =~= was + close_acts(old(self).rdp_active@, name@));
        there
    }

    /// Close rdp sessions, one after another.
    pub fn drop_rdps(&mut self, names: &Vec<String>, out: &mut Vec<Effect>)
        requires
            old(self).wf(),
        ensures
            final(self).wf(),
            taken_down(*old(self), *final(self), Seq::empty(), texts(names@)),
            acts(final(out)@) == acts(old(out)@) + close_all_acts(
                old(self).rdp_active@,
                texts(names@),
            ),
    {
        let ghost start = *self;
        let ghost was = acts(out@);
        let ghost all = texts(names@);
        let mut i: usize = 0;
        assert(all.take(0) =~= Seq::<Seq<char>>::empty());
        assert(was + close_all_acts(start.rdp_active@, all.take(0)) =~= was);
        while i < names.len()
            invariant
                i <= names@.len(),
                all == texts(names@),
                self.wf(),
                taken_down(start, *self, Seq::empty(), all.take(i as int)),
                acts(out@) == was + close_all_acts(start.rdp_active@, all.take(i as int)),
            decreases names@.len() - i,
        {
            assert(all.take(i + 1).drop_last() =~= all.take(i as int));
            assert(all.take(i + 1).last() == names@[i as int]@);
            let ghost here = close_acts(self.rdp_active@, names@[i as int]@);
            let _ = self.drop_rdp(names[i].as_str(), out);
            assert(acts(out@) =~= was + (close_all_acts(start.rdp_active@, all.take(i as int))
                + here));
            i = i + 1;
        }
        assert(all.take(i as int) =~= all);
    }
}

// ---------------------------------------------------------------------------
// Bringing things up
// ---------------------------------------------------------------------------

/// A command line as the logs show it: secrets masked.
pub open spec fn command_text(argv: Seq<Seq<char>>) -> Seq<char> {
    redacted(joined(argv, " "@))
}

/// A tunnel as it starts.
pub open spec fn fresh_tunnel(l: LiveTunnel, name: Seq<char>, argv: Seq<Seq<char>>, now: u64) -> bool {
    &&& l.name@ == name
    &&& l.status == Status::Connecting && l.error is None
    &&& l.started_at == now
    &&& texts(l.argv@) == argv
    &&& l.counters == (Counters { tx: 0, rx: 0, active_conns: 0, total_conns: 0 })
    &&& l.rate_tx == 0 && l.rate_rx == 0 && l.restarts == 0
    &&& l.log.held().len() == 0 && l.log.of()@ == "ssh"@ && l.log.wf()
}

pub fn new_tunnel(name: String, argv: Vec<String>, now: u64) -> (r: LiveTunnel)
    ensures
        fresh_tunnel(r, name@, texts(argv@), now),
{
    LiveTunnel {
        name,
        status: Status::Connecting,
        error: None,
        started_at: now,
        argv,
        counters: Counters::default(),
        rate_tx: 0,
        rate_rx: 0,
        restarts: 0,
        log: Ring::new("ssh"),
    }
}

/// The program once the ssh of a tunnel has been asked for, and what is said of
/// it.
pub open spec fn tunnel_answered(
    a: App,
    b: App,
    name: Seq<char>,
    result: Result<Vec<String>, String>,
    now: u64,
    out: Seq<Act>,
) -> bool {
    match result {
        Ok(argv) => {
            &&& b == (App { active: b.active, reconnect: b.reconnect, ..a })
            &&& b.reconnect@ == without(a.reconnect@, name)
            &&& b.active@.len() > 0
            &&& fresh_tunnel(b.active@.last(), name, texts(argv@), now)
            &&& b.active@ == with_one(a.active@, b.active@.last())
            &&& out == seq![
                Act::Note(
                    Subject::Tunnel(name),
                    "starting: "@ + command_text(texts(argv@)),
                    false,
                ),
            ]
        },
        Err(e) => {
            &&& b == a
            &&& out == reported(Subject::Tunnel(name), "'"@ + name + "': "@ + e@, true)
        },
    }
}

/// An rdp session as it starts.
pub open spec fn fresh_rdp(l: LiveRdp, name: Seq<char>, argv: Seq<Seq<char>>, now: u64) -> bool {
    &&& l.name@ == name
    &&& l.status == RdpStatus::Running
    &&& l.started_at == now
    &&& texts(l.argv@) == argv
    &&& l.log.held().len() == 0 && l.log.wf()
}

/// What opening an rdp session takes: what is left of an earlier one goes first.
pub open spec fn spawn_acts(a: App, name: Seq<char>, password: Seq<char>) -> Seq<Act> {
    if has_name(a.rdp_conns@, name) {
        close_acts(a.rdp_active@, name).push(Act::StartRdp(name, password))
    } else {
        seq![Act::Flash("rdp connection '"@ + name + "' is gone"@, true)]
    }
}

/// The rdp sessions once one is about to be opened.
pub open spec fn spawn_leaves(a: App, name: Seq<char>) -> Seq<LiveRdp> {
    if has_name(a.rdp_conns@, name) {
        without(a.rdp_active@, name)
    } else {
        a.rdp_active@
    }
}

/// The openvpn session of that name has not ended.
pub open spec fn ovpn_live(live: Seq<LiveOvpn>, name: Seq<char>) -> bool {
    has_name(live, name) && !live[place_of(live, name)].ended()
}

/// What starting an openvpn session takes.
pub open spec fn openvpn_acts(a: App, name: Seq<char>) -> Seq<Act> {
    if ovpn_live(a.ovpn_active@, name) {
        seq![Act::Flash("openvpn '"@ + name + "' is already up"@, true)]
    } else if !has_name(a.vpn_cfg.openvpn@, name) {
        seq![Act::Flash("openvpn profile '"@ + name + "' no longer exists"@, true)]
    } else {
        seq![Act::StartOpenvpn(name)]
    }
}

/// What is known of an openvpn session that was started.
pub struct OvpnStart {
    pub argv: Vec<String>,
    pub pid_file: String,
    /// How its state reads.
    pub label: String,
}

/// An openvpn session as it starts.
pub open spec fn fresh_ovpn(l: LiveOvpn, name: Seq<char>, s: OvpnStart, now: u64) -> bool {
    &&& l.name@ == name
    &&& l.status == OvpnStatus::Connecting
    &&& l.label@ == s.label@
    &&& l.started_at == now
    &&& l.argv@ == s.argv@
    &&& l.fault is None && l.root_pid is None && l.device is None
    &&& l.pid_file@ == s.pid_file@
    &&& l.log.held().len() == 0 && l.log.of()@ == "openvpn"@ && l.log.wf()
}

impl App {
    /// What became of starting the tunnel at this place: the command line it was
    /// started with, or why it was not.
    pub fn tunnel_started(
        &mut self,
        idx: usize,
        result: Result<Vec<String>, String>,
        now: u64,
    ) -> (r: Vec<Effect>)
        requires
            old(self).wf(),
            idx < old(self).tunnels@.len(),
        ensures
            final(self).wf(),
            tunnel_answered(
                *old(self),
                *final(self),
                old(self).tunnels@[idx as int].name@,
                result,
                now,
                acts(r@),
            ),
    {
        let name = self.tunnels[idx].name.clone();
        let mut out = effects::nothing();
        match result {
            Ok(argv) => {
                let cmd = redact::command_line(&argv);
                let msg = cat("starting: ", cmd.as_str());
                effects::ask(
                    &mut out,
                    Effect::Note(LogTarget::Tunnel(name.clone()), msg, false),
                );
                proof {
                    law_taken_out_is_gone(self.reconnect@, name@, name@);
                }
                let _ = take_out(&mut self.reconnect, name.as_str());
                let ghost who = name@;
                let fresh = new_tunnel(name, argv, now);
                proof {
                    law_put_in_is_there(self.active@, fresh);
                }
                put(&mut self.active, fresh);
                assert(acts(out@) =~= seq![
                    Act::Note(
                        Subject::Tunnel(who),
                        "starting: "@ + command_text(texts(argv@)),
                        false,
                    ),
                ]);
            },
            Err(e) => {
                let msg = cat4("'", name.as_str(), "': ", e.as_str());
                effects::report(&mut out, LogTarget::Tunnel(name.clone()), msg.as_str(), true);
                assert(acts(out@) =~= reported(
                    Subject::Tunnel(name@),
                    "'"@ + name@ + "': "@ + e@,
                    true,
                ));
            },
        }
        out
    }

    /// Open an rdp session, in place of what is left of an earlier one.
    pub fn spawn_rdp(&mut self, name: &str, password: &str, out: &mut Vec<Effect>)
        requires
            old(self).wf(),
        ensures
            final(self).wf(),
            final(self).rdp_active@ == spawn_leaves(*old(self), name@),
            *final(self) == (App { rdp_active: final(self).rdp_active, ..*old(self) }),
            acts(final(out)@) == acts(old(out)@) + spawn_acts(*old(self), name@, password@),
    {
        let ghost was = acts(out@);
        if !holds_name(self.rdp_conns.as_slice(), name) {
            let msg = cat3("rdp connection '", name, "' is gone");
            effects::flash(out, msg.as_str(), true);
        } else {
            let _ = self.drop_rdp(name, out);
            effects::ask(out, Effect::StartRdp(name.to_owned(), password.to_owned()));
        }
        assert(acts(out@) =~= was + spawn_acts(*old(self), name@, password@));
    }

    /// What became of opening an rdp session: the command line of it, or why
    /// there is none.
    pub fn rdp_started(
        &mut self,
        name: &str,
        result: Result<Vec<String>, String>,
        now: u64,
    ) -> (r: Vec<Effect>)
        requires
            old(self).wf(),
        ensures
            final(self).wf(),
            match result {
                Ok(argv) => {
                    &&& *final(self) == (App { rdp_active: final(self).rdp_active, ..*old(self) })
                    &&& final(self).rdp_active@.len() > 0
                    &&& fresh_rdp(final(self).rdp_active@.last(), name@, texts(argv@), now)
                    &&& final(self).rdp_active@.last().log.of()@
                        == old(self).rdp_client.log_source_spec()
                    &&& final(self).rdp_active@ == with_one(
                        old(self).rdp_active@,
                        final(self).rdp_active@.last(),
                    )
                    &&& acts(r@) == seq![
                        Act::Note(
                            Subject::Rdp(name@),
                            "starting: "@ + command_text(texts(argv@)),
                            false,
                        ),
                        Act::Flash("connecting to '"@ + name@ + "'"@, false),
                    ]
                },
                Err(e) => {
                    &&& *final(self) == *old(self)
                    &&& acts(r@) == reported(
                        Subject::Rdp(name@),
                        "'"@ + name@ + "': "@ + e@,
                        true,
                    )
                },
            },
    {
        let mut out = effects::nothing();
        match result {
            Ok(argv) => {
                let cmd = redact::command_line(&argv);
                let msg = cat("starting: ", cmd.as_str());
                effects::ask(&mut out, Effect::Note(LogTarget::Rdp(name.to_owned()), msg, false));
                let said = cat3("connecting to '", name, "'");
                effects::flash(&mut out, said.as_str(), false);
                assert(acts(out@) =~= seq![
                    Act::Note(
                        Subject::Rdp(name@),
                        "starting: "@ + command_text(texts(argv@)),
                        false,
                    ),
                    Act::Flash("connecting to '"@ + name@ + "'"@, false),
                ]);
                let source = self.rdp_client.log_source();
                let fresh = LiveRdp {
                    name: name.to_owned(),
                    status: RdpStatus::Running,
                    started_at: now,
                    argv,
                    log: Ring::new(source),
                };
                proof {
                    law_put_in_is_there(self.rdp_active@, fresh);
                }
                put(&mut self.rdp_active, fresh);
            },
            Err(e) => {
                let msg = cat4("'", name, "': ", e.as_str());
                effects::report(&mut out, LogTarget::Rdp(name.to_owned()), msg.as_str(), true);
                assert(acts(out@) =~= reported(
                    Subject::Rdp(name@),
                    "'"@ + name@ + "': "@ + e@,
                    true,
                ));
            },
        }
        out
    }

    /// Start the openvpn session of a profile.
    pub fn start_openvpn(&self, name: &str) -> (r: Vec<Effect>)
        ensures
            acts(r@) == openvpn_acts(*self, name@),
    {
        let live = match position(self.ovpn_active.as_slice(), name) {
            Some(i) => !self.ovpn_active[i].has_ended(),
            None => false,
        };
        if live {
            return effects::just(
                Effect::Flash(cat3("openvpn '", name, "' is already up"), true),
            );
        }
        if !holds_name(self.vpn_cfg.openvpn.as_slice(), name) {
            return effects::just(
                Effect::Flash(cat3("openvpn profile '", name, "' no longer exists"), true),
            );
        }
        effects::just(Effect::StartOpenvpn(name.to_owned()))
    }

    /// What became of starting an openvpn session.
    pub fn openvpn_started(
        &mut self,
        name: &str,
        result: Result<OvpnStart, String>,
        now: u64,
    ) -> (r: Vec<Effect>)
        requires
            old(self).wf(),
        ensures
            final(self).wf(),
            match result {
                Ok(s) => {
                    &&& *final(self) == (App { ovpn_active: final(self).ovpn_active, ..*old(self) })
                    &&& final(self).ovpn_active@.len() > 0
                    &&& fresh_ovpn(final(self).ovpn_active@.last(), name@, s, now)
                    &&& final(self).ovpn_active@ == with_one(
                        old(self).ovpn_active@,
                        final(self).ovpn_active@.last(),
                    )
                    &&& acts(r@) == seq![
                        Act::Note(
                            Subject::Vpn(ProviderId::Openvpn, name@),
                            "starting as root: "@ + command_text(texts(s.argv@)),
                            false,
                        ),
                        Act::Flash("openvpn: connecting '"@ + name@ + "'…"@, false),
                        Act::SyncOpenvpn,
                    ]
                },
                Err(e) => {
                    &&& *final(self) == (App { vpn: final(self).vpn, ..*old(self) })
                    &&& final(self).vpn.with_error(old(self).vpn, ProviderId::Openvpn, Some(e@))
                    &&& acts(r@) == reported(
                        Subject::Vpn(ProviderId::Openvpn, name@),
                        "openvpn '"@ + name@ + "': "@ + e@,
                        true,
                    ).push(Act::SyncOpenvpn)
                },
            },
    {
        let target = LogTarget::Vpn(ProviderId::Openvpn, name.to_owned());
        let mut out = effects::nothing();
        match result {
            Ok(s) => {
                let cmd = redact::command_line(&s.argv);
                let msg = cat("starting as root: ", cmd.as_str());
                effects::ask(&mut out, Effect::Note(target, msg, false));
                let said = cat3("openvpn: connecting '", name, "'…");
                effects::flash(&mut out, said.as_str(), false);
                effects::ask(&mut out, Effect::SyncOpenvpn);
                assert(acts(out@) =~= seq![
                    Act::Note(
                        Subject::Vpn(ProviderId::Openvpn, name@),
                        "starting as root: "@ + command_text(texts(s.argv@)),
                        false,
                    ),
                    Act::Flash("openvpn: connecting '"@ + name@ + "'…"@, false),
                    Act::SyncOpenvpn,
                ]);
                let fresh = LiveOvpn {
                    name: name.to_owned(),
                    status: OvpnStatus::Connecting,
                    label: s.label,
                    started_at: now,
                    argv: s.argv,
                    fault: None,
                    root_pid: None,
                    pid_file: s.pid_file,
                    device: None,
                    log: Ring::new("openvpn"),
                };
                proof {
                    law_put_in_is_there(self.ovpn_active@, fresh);
                }
                put(&mut self.ovpn_active, fresh);
            },
            Err(e) => {
                let msg = cat4("openvpn '", name, "': ", e.as_str());
                effects::report(&mut out, target, msg.as_str(), true);
                effects::ask(&mut out, Effect::SyncOpenvpn);
                assert(acts(out@) =~= reported(
                    Subject::Vpn(ProviderId::Openvpn, name@),
                    "openvpn '"@ + name@ + "': "@ + e@,
                    true,
                ).push(Act::SyncOpenvpn));
                self.vpn.set_error(ProviderId::Openvpn, Some(e));
            },
        }
        out
    }

    /// Stop the openvpn session of a profile.
    pub fn stop_openvpn(&mut self, name: &str, out: &mut Vec<Effect>)
        requires
            old(self).wf(),
        ensures
            final(self).wf(),
            final(self).ovpn_active@ == without(old(self).ovpn_active@, name@),
            *final(self) == (App { ovpn_active: final(self).ovpn_active, ..*old(self) }),
            acts(final(out)@) == acts(old(out)@).push(stop_ovpn_act(old(self).ovpn_active@, name@)),
    {
        proof {
            law_taken_out_is_gone(self.ovpn_active@, name@, name@);
        }
        if take_out(&mut self.ovpn_active, name).is_some() {
            effects::ask(out, Effect::StopOpenvpn(name.to_owned()));
        } else {
            let msg = cat3("openvpn '", name, "' is not running");
            effects::flash(out, msg.as_str(), true);
        }
    }

    /// What became of stopping an openvpn session.
    pub fn openvpn_stopped(&self, name: &str, error: Option<String>) -> (r: Vec<Effect>)
        ensures
            acts(r@) == (match error {
                Some(e) => reported(
                    Subject::Vpn(ProviderId::Openvpn, name@),
                    "openvpn '"@ + name@ + "': "@ + e@,
                    true,
                ),
                None => reported(
                    Subject::Vpn(ProviderId::Openvpn, name@),
                    "openvpn: '"@ + name@ + "' stopped"@,
                    false,
                ),
            }).push(Act::SyncOpenvpn),
    {
        let target = LogTarget::Vpn(ProviderId::Openvpn, name.to_owned());
        let mut out = effects::nothing();
        match error {
            Some(e) => {
                let msg = cat4("openvpn '", name, "': ", e.as_str());
                effects::report(&mut out, target, msg.as_str(), true);
                assert(acts(out@) =~= reported(
                    Subject::Vpn(ProviderId::Openvpn, name@),
                    "openvpn '"@ + name@ + "': "@ + e@,
                    true,
                ));
            },
            None => {
                let msg = cat3("openvpn: '", name, "' stopped");
                effects::report(&mut out, target, msg.as_str(), false);
                assert(acts(out@) =~= reported(
                    Subject::Vpn(ProviderId::Openvpn, name@),
                    "openvpn: '"@ + name@ + "' stopped"@,
                    false,
                ));
            },
        }
        effects::ask(&mut out, Effect::SyncOpenvpn);
        out
    }
}

/// What stopping an openvpn session takes.
pub open spec fn stop_ovpn_act(live: Seq<LiveOvpn>, name: Seq<char>) -> Act {
    if has_name(live, name) {
        Act::StopOpenvpn(name)
    } else {
        Act::Flash("openvpn '"@ + name + "' is not running"@, true)
    }
}

}
