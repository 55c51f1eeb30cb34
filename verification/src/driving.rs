//! Driving a plan: each step is begun, waited for and followed by the next, and
//! what stands in the way is asked about.

use vstd::prelude::*;
use crate::activation::{
    begun, beginning, blocking_of, driven, law_plan_goes_in_order, progress_of, step_begun,
    Activation, Begin, Beginning, Clash, Running, Stand, Standing,
};
use crate::app::{App, Awaited, Pending};
use crate::browser::opt_string;
use crate::effects::{self, acts, reported, Act, Effect};
use crate::live::{has_name, holds_name, without};
use crate::logs::{LogTarget, Subject};
use crate::number::{self, decimal};
use crate::plan::{describe_of, jobs, log_of, short_of, Job, Step};
use crate::queries::short_steps;
use crate::running::{
    close_all_acts, openvpn_acts, spawn_acts, spawn_leaves, stop_acts, stop_all_acts, taken_down,
};
use crate::text::{self, cat, cat3, cat4, cat5, joined, texts};

verus! {

// ---------------------------------------------------------------------------
// Beginning a step
// ---------------------------------------------------------------------------

/// A step can begin.
pub open spec fn can_begin(a: App, j: Job) -> bool {
    !(beginning(a.stage(), j) is Retry) && !(beginning(a.stage(), j) is Fail)
}

/// What beginning a step asks for.
pub open spec fn begin_acts(a: App, j: Job) -> Seq<Act> {
    (match beginning(a.stage(), j) {
        Beginning::Tunnel { idx, dead } => (if dead {
            stop_acts(a.active@, a.tunnels@[idx].name@)
        } else {
            Seq::empty()
        }).push(Act::StartTunnel(idx)),
        Beginning::Openvpn(name) => openvpn_acts(a, name),
        Beginning::Client { provider, profile, desc } => seq![
            Act::Vpn { provider, profile, desc, up: true },
        ],
        Beginning::Ssh(name) => seq![Act::OpenSsh(name)],
        Beginning::Rdp(name, password) => spawn_acts(a, name, password),
        _ => Seq::empty(),
    }).push(Act::Proceed)
}

/// The program once a step has been begun and waits for its answer.
pub open spec fn step_asked(a: App, b: App, j: Job, in_plan: bool) -> bool {
    let what = beginning(a.stage(), j);
    &&& b == (App {
        active: b.active,
        reconnect: b.reconnect,
        rdp_active: b.rdp_active,
        pending: b.pending,
        ..a
    })
    &&& match what {
        Beginning::Tunnel { idx, dead } => if dead {
            &&& b.active@ == without(a.active@, a.tunnels@[idx].name@)
            &&& b.reconnect@ == without(a.reconnect@, a.tunnels@[idx].name@)
        } else {
            b.active == a.active && b.reconnect == a.reconnect
        },
        _ => b.active == a.active && b.reconnect == a.reconnect,
    }
    &&& match what {
        Beginning::Rdp(name, _) => b.rdp_active@ == spawn_leaves(a, name),
        _ => b.rdp_active == a.rdp_active,
    }
    &&& b.pending is Some
    &&& (b.pending->0).step@ == j
    &&& (b.pending->0).in_plan == in_plan
    &&& match what {
        Beginning::Tunnel { idx, .. } => (b.pending->0).awaits matches Awaited::Tunnel(n) && n@
            == a.tunnels@[idx].name@,
        Beginning::Openvpn(name) => (b.pending->0).awaits matches Awaited::Openvpn(n) && n@ == name,
        Beginning::Client { .. } => (b.pending->0).awaits == Awaited::Client(None),
        _ => (b.pending->0).awaits is Nothing,
    }
}

/// Why a step that was begun is not running; `None` where it is.
pub open spec fn shortfall(a: App, w: Awaited) -> Option<Seq<char>> {
    match w {
        Awaited::Tunnel(n) => if has_name(a.active@, n@) {
            None
        } else {
            // The reason was said when it failed, usually a bind error.
            Some("tunnel '"@ + n@ + "' could not be started"@)
        },
        Awaited::Openvpn(n) => if has_name(a.ovpn_active@, n@) {
            None
        } else {
            Some("openvpn '"@ + n@ + "' would not start"@)
        },
        Awaited::Client(failed) => opt_string(failed),
        Awaited::Nothing => None,
    }
}

/// What beginning a step came to.
#[derive(Debug)]
pub enum Outset {
    /// Not yet possible for a reason that should pass on its own.
    Retry,
    Fail(String),
    /// It has been asked for.
    Asked,
}

// ---------------------------------------------------------------------------
// Driving a plan
// ---------------------------------------------------------------------------

/// A plan has been driven from `run` as far as it goes now: `a` is the program
/// before, whatever its plan, `b` the program after, and `out` what is asked
/// for.
pub open spec fn drove(a: App, run: Running, b: App, now: int, out: Seq<Act>) -> bool {
    let (stand, said) = driven(a.stage(), run, now);
    match stand {
        Standing::Waits(r) => {
            &&& b == (App { activation: b.activation, ..a })
            &&& b.activation is Some && b.activation->0@ == r
            &&& out == said
        },
        Standing::Asks(r, c) => {
            &&& b == (App { activation: b.activation, conflict: b.conflict, ..a })
            &&& b.activation is Some && b.activation->0@ == r
            &&& b.conflict is Some && b.conflict->0@ == c
            &&& out == said
        },
        Standing::Over => {
            &&& b == (App { activation: None, ..a })
            &&& out == said
        },
        Standing::Begins(r) => began_first(a, r, b, said, out),
    }
}

/// The first step of a plan has been begun, or it was said why not; `said` is
/// what there was to say before.
pub open spec fn began_first(a: App, r: Running, b: App, said: Seq<Act>, out: Seq<Act>) -> bool {
    let j = r.steps[0];
    match beginning(a.stage(), j) {
        // The step stays at the front for the next tick.
        Beginning::Retry => {
            &&& b == (App { activation: b.activation, ..a })
            &&& b.activation is Some && b.activation->0@ == r
            &&& out == said
        },
        Beginning::Fail(why) => {
            &&& b == (App { activation: None, ..a })
            &&& out == said + reported(log_of(j), r.target + ": "@ + why, true)
        },
        _ => {
            &&& b.activation is Some && b.activation->0@ == r
            &&& step_asked(App { activation: b.activation, ..a }, b, j, true)
            &&& out == said + begin_acts(a, j)
        },
    }
}

/// What is asked for, in words.
pub open spec fn plan_target(targets: Seq<Job>) -> Seq<char> {
    if targets.len() == 1 {
        describe_of(targets[0])
    } else {
        decimal(targets.len()) + " connections"@
    }
}

/// A plan about to begin.
pub open spec fn outset(steps: Seq<Job>, target: Seq<char>) -> Running {
    Running {
        steps,
        waiting: None,
        target,
        total: steps.len() as int,
        done: 0,
        started: Seq::empty(),
        approved: None,
    }
}

/// A plan for these targets has been started, or it was said why not.
pub open spec fn activated(a: App, b: App, targets: Seq<Job>, now: int, out: Seq<Act>) -> bool {
    let target = plan_target(targets);
    match a.activation {
        Some(act) => {
            &&& b == a
            &&& out == seq![
                Act::Flash("busy: "@ + act.target@ + " ("@ + progress_of(act@) + ")"@, true),
            ]
        },
        None => match a.lists().plan(targets) {
            Err(e) => {
                &&& b == a
                &&& out == reported(Subject::Program, target + ": "@ + e, true)
            },
            Ok(steps) => {
                let first = Act::Note(
                    Subject::Program,
                    "activating "@ + target + ": "@ + joined(
                        steps.map_values(|j: Job| short_of(j)),
                        " → "@,
                    ),
                    false,
                );
                &&& out.len() > 0 && out[0] == first
                &&& if a.conflict is Some || a.pending is Some {
                    &&& b == (App { activation: b.activation, ..a })
                    &&& b.activation is Some && b.activation->0@ == outset(steps, target)
                    &&& out.len() == 1
                } else {
                    drove(a, outset(steps, target), b, now, out.skip(1))
                }
            },
        },
    }
}

/// What is said once the way is clear.
pub open spec fn evicted(c: Clash) -> Seq<Seq<char>> {
    match c.note {
        Some(n) => blocking_of(c).push(n),
        None => blocking_of(c),
    }
}

/// What is said of a step that is not to be.
pub open spec fn cancelled_text(c: Clash) -> Seq<char> {
    describe_of(c.step) + " cancelled"@ + (if blocking_of(c).len() == 0 {
        Seq::empty()
    } else {
        " — "@ + joined(blocking_of(c), ", "@) + " stays"@
    })
}

/// What clearing the way asks for.
pub open spec fn clearing_acts(a: App, c: Clash) -> Seq<Act> {
    stop_all_acts(a.active@, c.stop_tunnels) + close_all_acts(a.rdp_active@, c.stop_rdp) + (
    if evicted(c).len() == 0 {
        Seq::empty()
    } else {
        reported(
            log_of(c.step),
            "for "@ + describe_of(c.step) + ": "@ + joined(evicted(c), ", "@),
            false,
        )
    })
}

/// The program once the way of a step is clear.
pub open spec fn cleared(a: App, m: App, c: Clash) -> bool {
    taken_down(App { conflict: None, pending: None, ..a }, m, c.stop_tunnels, c.stop_rdp)
}

/// A step is the one that a plan comes to next, so it was the plan that ran into
/// its conflict.
pub open spec fn comes_next(a: Running, j: Job) -> bool {
    a.waiting is None && a.steps.len() > 0 && a.steps[0] == j
}

/// The step of a conflict has been gone on with, from the program `m` in which
/// the way is clear: by the plan that ran into it, or else on its own, and then
/// a plan that is under way stays as it is.
pub open spec fn went_on(m: App, b: App, c: Clash, now: int, out: Seq<Act>) -> bool {
    if m.activation is Some && comes_next((m.activation->0)@, c.step) {
        drove(m, Running { approved: Some(c.step), ..(m.activation->0)@ }, b, now, out)
    } else {
        match beginning(m.stage(), c.step) {
            Beginning::Retry => {
                &&& b == m
                &&& out == reported(
                    log_of(c.step),
                    describe_of(c.step) + " is not ready yet — try again"@,
                    true,
                )
            },
            Beginning::Fail(why) => {
                &&& b == m
                &&& out == reported(log_of(c.step), describe_of(c.step) + ": "@ + why, true)
            },
            _ => {
                &&& step_asked(m, b, c.step, false)
                &&& out == begin_acts(m, c.step)
            },
        }
    }
}

/// A conflict has been decided.
pub open spec fn resolved(a: App, b: App, accept: bool, now: int, out: Seq<Act>) -> bool {
    match a.conflict {
        None => b == a && out.len() == 0,
        Some(c) => if !accept {
            &&& b == (App { conflict: None, activation: None, pending: None, ..a })
            &&& out == reported(log_of(c.step@), cancelled_text(c@), true)
        } else {
            exists|m: App, rest: Seq<Act>|
                #![trigger went_on(m, b, c@, now, rest)]
                {
                    &&& cleared(a, m, c@)
                    &&& went_on(m, b, c@, now, rest)
                    &&& out == clearing_acts(a, c@) + rest
                }
        },
    }
}

impl Activation {
    fn is_next(&self, step: &Step) -> (r: bool)
        ensures
            r == comes_next(self@, step@),
    {
        self.waiting.is_none() && self.steps.len() > 0 && self.steps[0].same_as(step)
    }
}

impl App {
    /// Begin a step.
    #[verifier::rlimit(30)]
    fn begin_step(&mut self, step: &Step, in_plan: bool, out: &mut Vec<Effect>) -> (r: Outset)
        requires
            old(self).wf(),
            in_plan ==> old(self).activation is Some && old(self).activation->0@.steps.len() > 0
                && old(self).activation->0@.waiting is None,
        ensures
            final(self).wf(),
            match r {
                Outset::Retry => {
                    &&& beginning(old(self).stage(), step@) is Retry
                    &&& *final(self) == *old(self)
                    &&& acts(final(out)@) == acts(old(out)@)
                },
                Outset::Fail(why) => {
                    &&& beginning(old(self).stage(), step@) == Beginning::Fail(why@)
                    &&& *final(self) == *old(self)
                    &&& acts(final(out)@) == acts(old(out)@)
                },
                Outset::Asked => {
                    &&& can_begin(*old(self), step@)
                    &&& step_asked(*old(self), *final(self), step@, in_plan)
                    &&& acts(final(out)@) == acts(old(out)@) + begin_acts(*old(self), step@)
                },
            },
    {
        let ghost a = *self;
        let ghost was = acts(out@);
        let what = self.scene().start_step(step);
        let awaits = match what {
            Begin::Retry => {
                return Outset::Retry;
            },
            Begin::Fail(why) => {
                return Outset::Fail(why);
            },
            Begin::Tunnel { idx, dead } => {
                proof {
                    crate::live::lemma_place(self.tunnels@, step@->Tunnel_0);
                }
                let name = self.tunnels[idx].name.clone();
                // A dead tunnel is replaced rather than waited on.
                if dead {
                    self.stop_tunnel(name.as_str(), out);
                }
                effects::ask(out, Effect::StartTunnel(idx));
                Awaited::Tunnel(name)
            },
            Begin::Openvpn(name) => {
                let more = self.start_openvpn(name.as_str());
                effects::ask_all(out, more);
                Awaited::Openvpn(name)
            },
            Begin::Client { provider, profile, desc } => {
                effects::ask(out, Effect::Vpn { provider, profile, desc, up: true });
                Awaited::Client(None)
            },
            Begin::Ssh(name) => {
                effects::ask(out, Effect::OpenSsh(name));
                Awaited::Nothing
            },
            Begin::Rdp(name, password) => {
                self.spawn_rdp(name.as_str(), password.as_str(), out);
                Awaited::Nothing
            },
        };
        effects::ask(out, Effect::Proceed);
        self.pending = Some(Pending { step: step.clone(), in_plan, awaits });
        assert(acts(out@) =~= was + begin_acts(a, step@));
        Outset::Asked
    }

    /// Begin the first step of a plan; `said` is what there is to say before.
    fn begin_first(&mut self, act: Activation, said: Vec<Effect>) -> (r: Vec<Effect>)
        requires
            old(self).wf(),
            old(self).pending is None,
            act@.wf(),
            act@.steps.len() > 0,
            act@.waiting is None,
        ensures
            final(self).wf(),
            began_first(*old(self), act@, *final(self), acts(said@), acts(r@)),
    {
        let ghost a = *self;
        let ghost spoken = acts(said@);
        let ghost run = act@;
        let mut out = said;
        assert(jobs(act.steps@)[0] == act.steps@[0]@);
        let step = act.steps[0].clone();
        let target = act.target.clone();
        self.activation = Some(act);
        let ghost m = *self;
        assert(m.stage() == a.stage());
        match self.begin_step(&step, true, &mut out) {
            Outset::Retry => {},
            Outset::Fail(why) => {
                self.activation = None;
                let msg = cat3(target.as_str(), ": ", why.as_str());
                effects::report(&mut out, step.log_target(), msg.as_str(), true);
            },
            Outset::Asked => {
                assert(begin_acts(m, step@) == begin_acts(a, step@));
                assert(m == (App { activation: self.activation, ..a }));
            },
        }
        out
    }

    /// Drive a plan from where it stands.
    fn drive(&mut self, act: Activation, now: u64) -> (r: Vec<Effect>)
        requires
            old(self).wf(),
            old(self).pending is None,
            act@.wf(),
        ensures
            final(self).wf(),
            drove(*old(self), act@, *final(self), now as int, acts(r@)),
    {
        let ghost run = act@;
        proof {
            law_plan_goes_in_order(self.stage(), run, now as int);
        }
        let (stand, said) = self.scene().advance(act, now);
        match stand {
            Stand::Waits(r) => {
                self.activation = Some(r);
                said
            },
            Stand::Asks(r, c) => {
                self.activation = Some(r);
                self.conflict = Some(c);
                said
            },
            Stand::Over => {
                self.activation = None;
                said
            },
            Stand::Begins(r) => self.begin_first(r, said),
        }
    }

    /// Drive the plan as far as it will go without blocking.
    pub fn advance_activation(&mut self, now: u64) -> (r: Vec<Effect>)
        requires
            old(self).wf(),
        ensures
            final(self).wf(),
            old(self).conflict is Some || old(self).pending is Some || old(self).activation is None
                ==> *final(self) == *old(self) && acts(r@).len() == 0,
            old(self).conflict is None && old(self).pending is None && old(self).activation is Some
                ==> drove(
                *old(self),
                old(self).activation->0@,
                *final(self),
                now as int,
                acts(r@),
            ),
    {
        if self.conflict.is_some() || self.pending.is_some() {
            return effects::nothing();
        }
        let ghost a = *self;
        match self.activation.take() {
            None => effects::nothing(),
            Some(act) => {
                let ghost run = act@;
                let ghost m = *self;
                assert(m == (App { activation: None, ..a }));
                assert(m.stage() == a.stage());
                let out = self.drive(act, now);
                proof {
                    lemma_drove_from(a, m, run, *self, now as int, acts(out@));
                }
                out
            },
        }
    }

    /// What became of the step that was begun: the plan goes on, or it is said
    /// why it does not.
    pub fn step_started(&mut self, now: u64) -> (r: Vec<Effect>)
        requires
            old(self).wf(),
        ensures
            final(self).wf(),
            match old(self).pending {
                None => *final(self) == *old(self) && acts(r@).len() == 0,
                Some(p) => match shortfall(*old(self), p.awaits) {
                    None => if !p.in_plan {
                        *final(self) == (App { pending: None, ..*old(self) }) && acts(r@).len() == 0
                    } else {
                        drove(
                            App { pending: None, ..*old(self) },
                            begun(old(self).activation->0@, now as int),
                            *final(self),
                            now as int,
                            acts(r@),
                        )
                    },
                    Some(why) => if !p.in_plan {
                        &&& *final(self) == (App { pending: None, ..*old(self) })
                        &&& acts(r@) == reported(
                            log_of(p.step@),
                            describe_of(p.step@) + ": "@ + why,
                            true,
                        )
                    } else {
                        &&& *final(self) == (App { pending: None, activation: None, ..*old(self) })
                        &&& acts(r@) == reported(
                            log_of(p.step@),
                            old(self).activation->0.target@ + ": "@ + why,
                            true,
                        )
                    },
                },
            },
    {
        let mut out = effects::nothing();
        let ghost a = *self;
        let p = match self.pending.take() {
            None => {
                return out;
            },
            Some(p) => p,
        };
        let ghost b = *self;
        assert(b == (App { pending: None, ..a }));
        match self.missing(&p.awaits) {
            None => {
                if p.in_plan {
                    match self.activation.take() {
                        Some(act) => {
                            let ghost m = *self;
                            assert(m == (App { activation: None, ..b }));
                            let act = step_begun(act, now);
                            let ghost run = act@;
                            out = self.drive(act, now);
                            proof {
                                lemma_drove_from(b, m, run, *self, now as int, acts(out@));
                            }
                        },
                        None => {},
                    }
                }
                out
            },
            Some(why) => {
                if p.in_plan {
                    match self.activation.take() {
                        Some(act) => {
                            let msg = cat3(act.target.as_str(), ": ", why.as_str());
                            effects::report(&mut out, p.step.log_target(), msg.as_str(), true);
                            assert(acts(out@) =~= reported(log_of(p.step@), msg@, true));
                        },
                        None => {},
                    }
                } else {
                    let msg = cat3(p.step.describe().as_str(), ": ", why.as_str());
                    effects::report(&mut out, p.step.log_target(), msg.as_str(), true);
                    assert(acts(out@) =~= reported(log_of(p.step@), msg@, true));
                }
                out
            },
        }
    }

    fn missing(&self, w: &Awaited) -> (r: Option<String>)
        ensures
            opt_string(r) == shortfall(*self, *w),
    {
        match w {
            Awaited::Tunnel(n) => if holds_name(self.active.as_slice(), n.as_str()) {
                None
            } else {
                Some(cat3("tunnel '", n.as_str(), "' could not be started"))
            },
            Awaited::Openvpn(n) => if holds_name(self.ovpn_active.as_slice(), n.as_str()) {
                None
            } else {
                Some(cat3("openvpn '", n.as_str(), "' would not start"))
            },
            Awaited::Client(failed) => failed.clone(),
            Awaited::Nothing => None,
        }
    }
}

impl App {
    /// Start a plan for the given targets, or say why it cannot be built.
    pub fn activate(&mut self, targets: Vec<Step>, now: u64) -> (r: Vec<Effect>)
        requires
            old(self).wf(),
        ensures
            final(self).wf(),
            activated(*old(self), *final(self), jobs(targets@), now as int, acts(r@)),
    {
        let ghost a = *self;
        let ghost want = jobs(targets@);
        match &self.activation {
            Some(act) => {
                let msg = cat5(
                    "busy: ",
                    act.target.as_str(),
                    " (",
                    act.progress().as_str(),
                    ")",
                );
                return effects::just(Effect::Flash(msg, true));
            },
            None => {},
        }
        let target = if targets.len() == 1 {
            assert(want[0] == targets@[0]@);
            targets[0].describe()
        } else {
            let n: usize = targets.len();
            cat(number::write(n as u64).as_str(), " connections")
        };
        let steps = match self.catalog().build_plan(targets) {
            Ok(s) => s,
            Err(e) => {
                let mut out = effects::nothing();
                let msg = cat3(target.as_str(), ": ", e.as_str());
                effects::report(&mut out, LogTarget::Program, msg.as_str(), true);
                assert(acts(out@) =~= reported(Subject::Program, target@ + ": "@ + e@, true));
                return out;
            },
        };
        let chain = text::join(&short_steps(&steps), " → ");
        let mut out = effects::just(
            Effect::Note(
                LogTarget::Program,
                cat4("activating ", target.as_str(), ": ", chain.as_str()),
                false,
            ),
        );
        let ghost first = acts(out@)[0];
        let act = Activation::new(steps, target);
        let ghost run = act@;
        if self.conflict.is_some() || self.pending.is_some() {
            self.activation = Some(act);
            return out;
        }
        let more = self.drive(act, now);
        let ghost rest = acts(more@);
        effects::ask_all(&mut out, more);
        assert(acts(out@).skip(1) =~= rest);
        out
    }

    /// Accept or refuse the conflict prompt. Accepting clears what is in the
    /// way and then goes on with the step itself: a plan carries on where a plan
    /// raised it, and the step is started on its own where a tab did.
    pub fn resolve_conflict(&mut self, accept: bool, now: u64) -> (r: Vec<Effect>)
        requires
            old(self).wf(),
        ensures
            final(self).wf(),
            resolved(*old(self), *final(self), accept, now as int, acts(r@)),
    {
        let ghost a = *self;
        let c = match self.conflict.take() {
            None => {
                return effects::nothing();
            },
            Some(c) => c,
        };
        self.pending = None;
        let blocking = c.blocking();
        assert(texts(blocking@).len() == blocking@.len());
        if !accept {
            self.activation = None;
            let mut msg = cat(c.step.describe().as_str(), " cancelled");
            if blocking.len() > 0 {
                let detail = cat3(" — ", text::join(&blocking, ", ").as_str(), " stays");
                msg.push_str(detail.as_str());
            }
            assert(msg@ =~= cancelled_text(c@));
            let mut out = effects::nothing();
            effects::report(&mut out, c.step.log_target(), msg.as_str(), true);
            assert(acts(out@) =~= reported(log_of(c.step@), cancelled_text(c@), true));
            return out;
        }
        let ghost clash = c@;
        let ghost open = *self;
        let mut out = effects::nothing();
        self.stop_tunnels(&c.stop_tunnels, &mut out);
        self.drop_rdps(&c.stop_rdp, &mut out);
        let ghost m = *self;
        assert(cleared(a, m, clash));
        let mut gone = blocking;
        match &c.note {
            Some(n) => {
                text::add_text(&mut gone, n.clone());
            },
            None => {},
        }
        assert(texts(gone@) == evicted(clash));
        assert(texts(gone@).len() == gone@.len());
        if gone.len() > 0 {
            let msg = cat4(
                "for ",
                c.step.describe().as_str(),
                ": ",
                text::join(&gone, ", ").as_str(),
            );
            effects::report(&mut out, c.step.log_target(), msg.as_str(), false);
        }
        assert(acts(out@) =~= clearing_acts(a, clash));
        let more = self.go_on(c.step, now);
        let ghost rest = acts(more@);
        assert(went_on(m, *self, clash, now as int, rest));
        effects::ask_all(&mut out, more);
        out
    }

    /// Go on with a step once its way is clear.
    fn go_on(&mut self, step: Step, now: u64) -> (r: Vec<Effect>)
        requires
            old(self).wf(),
            old(self).pending is None,
        ensures
            final(self).wf(),
            forall|c: Clash|
                c.step == step@ ==> #[trigger] went_on(
                    *old(self),
                    *final(self),
                    c,
                    now as int,
                    acts(r@),
                ),
    {
        let ghost m = *self;
        let next = match &self.activation {
            Some(act) => act.is_next(&step),
            None => false,
        };
        let resumed = if next {
            self.activation.take()
        } else {
            None
        };
        match resumed {
            Some(act) => {
                let ghost run = act@;
                let mut act = act;
                act.approved = Some(step);
                let ghost n = *self;
                assert(n == (App { activation: None, ..m }));
                assert(act@ == (Running { approved: Some(step@), ..run }));
                let ghost going = act@;
                let out = self.drive(act, now);
                proof {
                    lemma_drove_from(m, n, going, *self, now as int, acts(out@));
                }
                out
            },
            // Raised straight from a tab, so it is no plan's to go on with.
            None => {
                assert(*self == m);
                let mut out = effects::nothing();
                match self.begin_step(&step, false, &mut out) {
                    Outset::Asked => {
                        assert(acts(out@) =~= begin_acts(m, step@));
                    },
                    Outset::Retry => {
                        let msg = cat(step.describe().as_str(), " is not ready yet — try again");
                        effects::report(&mut out, step.log_target(), msg.as_str(), true);
                        assert(acts(out@) =~= reported(log_of(step@), msg@, true));
                    },
                    Outset::Fail(why) => {
                        let msg = cat3(step.describe().as_str(), ": ", why.as_str());
                        effects::report(&mut out, step.log_target(), msg.as_str(), true);
                        assert(acts(out@) =~= reported(log_of(step@), msg@, true));
                    },
                }
                out
            },
        }
    }
}

proof fn lemma_drove_from(a: App, m: App, run: Running, b: App, now: int, out: Seq<Act>)
    requires
        m == (App { activation: None, ..a }),
        drove(m, run, b, now, out),
    ensures
        drove(a, run, b, now, out),
{
    assert(m.stage() == a.stage());
    match driven(a.stage(), run, now).0 {
        Standing::Begins(r) => {
            let j = r.steps[0];
            assert(begin_acts(m, j) == begin_acts(a, j));
            assert((App { activation: b.activation, ..m }) == (App {
                activation: b.activation,
                ..a
            }));
        },
        _ => {},
    }
}

}
