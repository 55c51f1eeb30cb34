//! What the keys of the VPN tab do to connections.

use vstd::prelude::*;
use crate::activation::{bringing_up, clash_of, describe_bringing_up};
use crate::app::{App, Awaited, Pending};
use crate::browser::opt_string;
use crate::cursor::Motion;
use crate::effects::{self, acts, reported, Act, Effect};
use crate::live::without;
use crate::logs::{LogTarget, Subject};
use crate::plan::{Job, Step};
use crate::redact;
use crate::running::{command_text, openvpn_acts, stop_ovpn_act};
use crate::text::{cat, cat3, cat4, cat5, texts};
use crate::vpn::ProviderId;
use crate::vpn_view::{Foreign, ProviderState, VpnPane, VpnProfile, VpnView};

verus! {

impl VpnView {
    /// The client under the cursor.
    pub open spec fn here(&self) -> ProviderState {
        self.providers@[self.current_spec()]
    }
}

impl ProviderState {
    /// The name of the row under the cursor.
    pub open spec fn name_here(&self) -> Option<Seq<char>> {
        if self.selected < self.profiles@.len() {
            Some(self.profiles@[self.selected as int].name@)
        } else {
            None
        }
    }

    pub fn selected_name(&self) -> (r: Option<String>)
        ensures
            opt_string(r) == self.name_here(),
    {
        match self.selected_profile() {
            Some(p) => Some(p.name.clone()),
            None => None,
        }
    }

    /// The row under the cursor is a connection that was not started here.
    pub open spec fn foreign_here(&self) -> bool {
        self.selected < self.profiles@.len() && !self.profiles@[self.selected as int].stored_spec()
    }

    pub fn on_foreign(&self) -> (r: bool)
        ensures
            r == self.foreign_here(),
    {
        match self.selected_profile() {
            Some(p) => !p.is_stored(),
            None => false,
        }
    }

    /// The row under the cursor is up.
    pub open spec fn up_here(&self) -> bool {
        self.selected < self.profiles@.len() && self.profiles@[self.selected as int].active
    }
}

// ---------------------------------------------------------------------------
// Moving about
// ---------------------------------------------------------------------------

/// Up or down on the VPN tab: from client to client, or from profile to profile.
pub open spec fn moved_on_vpn(a: App, b: App, m: Motion) -> bool {
    match a.vpn.focus {
        VpnPane::Clients => {
            &&& b == (App { vpn: b.vpn, ..a })
            &&& b.vpn == (VpnView { client_idx: b.vpn.client_idx, ..a.vpn })
            &&& b.vpn.client_idx == m.goes(a.vpn.client_idx as int, 4)
        },
        VpnPane::Profiles => {
            let i = a.vpn.current_spec();
            let s = a.vpn.providers@[i];
            let t = b.vpn.providers@[i];
            &&& b == (App { vpn: b.vpn, ..a })
            &&& b.vpn.but_for(a.vpn, s.id)
            &&& t == (ProviderState { selected: t.selected, ..s })
            &&& t.selected == m.goes(s.selected as int, s.profiles@.len() as int)
        },
    }
}

// ---------------------------------------------------------------------------
// Connecting and disconnecting
// ---------------------------------------------------------------------------

/// What a client is told to do, unless it is busy: one action per client at a
/// time, so a slow login cannot be stacked on itself.
pub open spec fn vpn_acts(
    a: App,
    id: ProviderId,
    desc: Seq<char>,
    profile: Option<Seq<char>>,
    up: bool,
) -> Seq<Act> {
    match a.vpn.providers@[id.index_spec()].busy {
        Some(busy) => seq![Act::Flash(id.slug_spec() + " is busy ("@ + busy@ + ")"@, true)],
        None => seq![Act::Vpn { provider: id, profile, desc, up }],
    }
}

/// What a client is asked for, as a requirement.
pub open spec fn requirement_of(id: ProviderId, profile: Option<Seq<char>>) -> Seq<char> {
    match profile {
        Some(p) => id.slug_spec() + ":"@ + p,
        None => id.slug_spec(),
    }
}

/// The profile under the cursor is brought up.
pub open spec fn connected_here(a: App, b: App, out: Seq<Act>) -> bool {
    let s = a.vpn.here();
    let profile = s.name_here();
    if !s.installed {
        b == a && out == seq![Act::Flash(s.id.slug_spec() + " is not installed"@, true)]
    } else {
        match clash_of(a.stage(), Job::Vpn(requirement_of(s.id, profile))) {
            // Switching an exclusive client's profile here cuts whatever rides
            // on the one going down, exactly as it does inside a plan, so it
            // asks with the same prompt.
            Some(c) => {
                &&& b == (App { conflict: b.conflict, ..a })
                &&& b.conflict is Some && b.conflict->0@ == c
                &&& out.len() == 0
            },
            None => {
                &&& b == a
                &&& out == if s.id == ProviderId::Openvpn {
                    match profile {
                        Some(name) => openvpn_acts(a, name),
                        None => seq![Act::Flash("no openvpn profile selected"@, true)],
                    }
                } else {
                    vpn_acts(a, s.id, bringing_up(profile), profile, true)
                }
            },
        }
    }
}

/// The profile under the cursor is taken down.
pub open spec fn disconnected_here(a: App, b: App, out: Seq<Act>) -> bool {
    let s = a.vpn.here();
    let profile = s.name_here();
    if !s.installed {
        b == a && out.len() == 0
    } else if s.id == ProviderId::Openvpn {
        match profile {
            Some(name) => {
                &&& b == (App { ovpn_active: b.ovpn_active, ..a })
                &&& b.ovpn_active@ == without(a.ovpn_active@, name)
                &&& out == seq![stop_ovpn_act(a.ovpn_active@, name)]
            },
            None => b == a && out == seq![Act::Flash("no openvpn profile selected"@, true)],
        }
    } else {
        b == a && out == vpn_acts(a, s.id, "disconnecting"@, profile, false)
    }
}

/// What stopping a connection that was not started here is called.
pub open spec fn stopping(name: Seq<char>, force: bool) -> Seq<char> {
    if force {
        "killing '"@ + name + "' — it ignored SIGTERM"@
    } else {
        "stopping '"@ + name + "', which was not started here"@
    }
}

/// A process that has already been asked once and is still here gets the signal
/// it cannot ignore.
pub open spec fn is_forced(row: VpnProfile, termed: Seq<u32>) -> bool {
    row.foreign matches Some(Foreign::Process(p)) && termed.contains(p.pid)
}

/// The processes that have been asked to end, with that of one more row.
pub open spec fn asked_to_end(row: VpnProfile, termed: Seq<u32>) -> Seq<u32> {
    match row.foreign {
        Some(Foreign::Process(p)) => if termed.contains(p.pid) {
            termed
        } else {
            termed.push(p.pid)
        },
        _ => termed,
    }
}

/// What stopping the connection in a row takes.
pub open spec fn foreign_stop_acts(id: ProviderId, at: int, row: VpnProfile, termed: Seq<u32>) -> Seq<
    Act,
> {
    let force = is_forced(row, termed);
    let desc = stopping(row.name@, force);
    seq![
        Act::StopForeign { provider: id, row: at, force, desc },
        Act::Flash(id.slug_spec() + ": "@ + desc + "…"@, false),
    ]
}

/// The program once the connection in a row has been told to stop.
pub open spec fn foreign_stopping(a: App, b: App, id: ProviderId, at: int) -> bool {
    let row = a.vpn.providers@[id.index_spec()].profiles@[at];
    &&& b == (App { vpn: b.vpn, termed: b.termed, ..a })
    &&& b.termed@ == asked_to_end(row, a.termed@)
    &&& b.vpn.with_busy(
        a.vpn,
        id,
        Some(stopping(row.name@, is_forced(row, a.termed@))),
        opt_string(a.vpn.providers@[id.index_spec()].error),
    )
}

/// Enter on the VPN tab: the profile under the cursor is brought up, or taken
/// down if it already is. On a connection that was not started here there is
/// only one thing it can mean.
pub open spec fn toggled_vpn(a: App, b: App, out: Seq<Act>) -> bool {
    let s = a.vpn.here();
    if s.foreign_here() {
        match s.busy {
            Some(busy) => {
                &&& b == a
                &&& out == seq![Act::Flash(s.id.slug_spec() + " is busy ("@ + busy@ + ")"@, true)]
            },
            None => {
                &&& foreign_stopping(a, b, s.id, s.selected as int)
                &&& out == foreign_stop_acts(
                    s.id,
                    s.selected as int,
                    s.profiles@[s.selected as int],
                    a.termed@,
                )
            },
        }
    } else if s.up_here() {
        disconnected_here(a, b, out)
    } else {
        connected_here(a, b, out)
    }
}

/// Why a profile key does nothing on a row that is not a stored profile.
pub open spec fn foreign_note(a: App, what: Seq<char>) -> Act {
    let name = match a.vpn.here().name_here() {
        Some(n) => n,
        None => Seq::empty(),
    };
    Act::Flash(
        "'"@ + name + "' was not started here — there is no profile to "@ + what
            + "; Enter stops it"@,
        false,
    )
}

/// The notes of the commands that were run.
pub open spec fn ran_notes(to: Subject, ran: Seq<Seq<char>>) -> Seq<Act> {
    ran.map_values(|c: Seq<char>| Act::Note(to, "ran: "@ + c, false))
}

/// What became of telling a client to connect or disconnect. As a step of a
/// plan it is the plan that says what went wrong.
pub open spec fn vpn_answered(
    a: App,
    b: App,
    id: ProviderId,
    profile: Option<Seq<char>>,
    desc: Seq<char>,
    result: Result<Vec<String>, String>,
    out: Seq<Act>,
) -> bool {
    let target = Subject::Vpn(
        id,
        match profile {
            Some(p) => p,
            None => Seq::empty(),
        },
    );
    let in_step = a.pending matches Some(p) && p.awaits is Client;
    match result {
        Ok(ran) => {
            &&& b == (App { vpn: b.vpn, ..a })
            &&& b.vpn.with_busy(a.vpn, id, Some(desc), None)
            &&& out == ran_notes(target, texts(ran@)) + (if in_step {
                Seq::empty()
            } else {
                seq![Act::Flash(id.slug_spec() + ": "@ + desc + "…"@, false)]
            })
        },
        Err(e) => if in_step {
            &&& b == (App { pending: b.pending, ..a })
            &&& b.pending is Some
            &&& b.pending->0 == (Pending { awaits: Awaited::Client(Some(e)), ..a.pending->0 })
            &&& out.len() == 0
        } else {
            &&& b == (App { vpn: b.vpn, ..a })
            &&& b.vpn.with_error(a.vpn, id, Some(e@))
            &&& out == reported(target, id.slug_spec() + ": "@ + e@, true)
        },
    }
}

impl App {
    /// Up or down on the VPN tab.
    pub fn move_on_vpn(&mut self, m: Motion)
        requires
            old(self).wf(),
        ensures
            final(self).wf(),
            moved_on_vpn(*old(self), *final(self), m),
    {
        match self.vpn.focus {
            VpnPane::Clients => {
                self.vpn.client_idx = m.from(self.vpn.client_idx, 4);
            },
            VpnPane::Profiles => {
                let id = self.vpn.current_id();
                assert(id.index_spec() == self.vpn.current_spec());
                let s = self.vpn.get_mut(id);
                let n: usize = s.profiles.len();
                s.selected = m.from(s.selected, n);
            },
        }
    }

    /// Tell a client to connect or disconnect.
    pub fn vpn_start(
        &self,
        id: ProviderId,
        desc: String,
        profile: Option<String>,
        up: bool,
    ) -> (r: Vec<Effect>)
        requires
            self.wf(),
        ensures
            acts(r@) == vpn_acts(*self, id, desc@, opt_string(profile), up),
    {
        match &self.vpn.get(id).busy {
            Some(busy) => effects::just(
                Effect::Flash(cat4(id.slug(), " is busy (", busy.as_str(), ")"), true),
            ),
            None => effects::just(Effect::Vpn { provider: id, profile, desc, up }),
        }
    }

    /// What became of telling a client to connect or disconnect: the commands
    /// that were run, or why none were.
    #[verifier::rlimit(30)]
    pub fn vpn_started(
        &mut self,
        id: ProviderId,
        profile: Option<String>,
        desc: String,
        result: Result<Vec<String>, String>,
    ) -> (r: Vec<Effect>)
        requires
            old(self).wf(),
        ensures
            final(self).wf(),
            vpn_answered(
                *old(self),
                *final(self),
                id,
                opt_string(profile),
                desc@,
                result,
                acts(r@),
            ),
    {
        let ghost a = *self;
        let name = match profile {
            Some(p) => p,
            None => String::new(),
        };
        assert(name@ =~= match opt_string(profile) {
            Some(p) => p,
            None => Seq::empty(),
        });
        let target = LogTarget::Vpn(id, name);
        let in_step = match &self.pending {
            Some(p) => matches!(p.awaits, Awaited::Client(_)),
            None => false,
        };
        match result {
            Ok(ran) => {
                let mut out = notes_of(&target, &ran);
                if !in_step {
                    let msg = cat4(id.slug(), ": ", desc.as_str(), "…");
                    effects::flash(&mut out, msg.as_str(), false);
                }
                let ghost what = desc@;
                self.vpn.begin(id, desc);
                assert(acts(out@) =~= ran_notes(target@, texts(ran@)) + (if in_step {
                    Seq::empty()
                } else {
                    seq![Act::Flash(id.slug_spec() + ": "@ + what + "…"@, false)]
                }));
                out
            },
            Err(e) => {
                let mut out = effects::nothing();
                if in_step {
                    match self.pending.take() {
                        Some(p) => {
                            let mut p = p;
                            p.awaits = Awaited::Client(Some(e));
                            self.pending = Some(p);
                        },
                        None => {},
                    }
                } else {
                    let msg = cat3(id.slug(), ": ", e.as_str());
                    effects::report(&mut out, target, msg.as_str(), true);
                    assert(acts(out@) =~= reported(target@, msg@, true));
                    self.vpn.set_error(id, Some(e));
                }
                out
            },
        }
    }

    /// Why a profile key does nothing on a row that is not a stored profile.
    /// Every key means the same thing on every tab, so the ones that cannot
    /// apply here say why rather than going quiet.
    pub fn foreign_row_note(&self, what: &str) -> (r: Vec<Effect>)
        requires
            self.wf(),
        ensures
            acts(r@) == seq![foreign_note(*self, what@)],
    {
        let name = match self.vpn.current().selected_name() {
            Some(n) => n,
            None => String::new(),
        };
        assert(name@ =~= match self.vpn.here().name_here() {
            Some(n) => n,
            None => Seq::empty(),
        });
        let msg = cat5(
            "'",
            name.as_str(),
            "' was not started here — there is no profile to ",
            what,
            "; Enter stops it",
        );
        effects::just(Effect::Flash(msg, false))
    }

    /// Bring up the profile under the cursor.
    pub fn vpn_connect_selected(&mut self) -> (r: Vec<Effect>)
        requires
            old(self).wf(),
        ensures
            final(self).wf(),
            connected_here(*old(self), *final(self), acts(r@)),
    {
        let id = self.vpn.current_id();
        assert(id.index_spec() == self.vpn.current_spec());
        if !self.vpn.current().installed {
            return effects::just(Effect::Flash(cat(id.slug(), " is not installed"), true));
        }
        let profile = self.vpn.current().selected_name();
        let req = match &profile {
            Some(p) => cat3(id.slug(), ":", p.as_str()),
            None => id.slug().to_owned(),
        };
        let step = Step::Vpn(req);
        match self.scene().step_conflict(&step) {
            Some(prompt) => {
                self.conflict = Some(prompt);
                return effects::nothing();
            },
            None => {},
        }
        if id == ProviderId::Openvpn {
            match profile {
                Some(name) => self.start_openvpn(name.as_str()),
                None => effects::just(Effect::Flash("no openvpn profile selected".to_owned(), true)),
            }
        } else {
            let desc = describe_bringing_up(&profile);
            self.vpn_start(id, desc, profile, true)
        }
    }

    /// Take down the profile under the cursor.
    pub fn vpn_disconnect_selected(&mut self) -> (r: Vec<Effect>)
        requires
            old(self).wf(),
        ensures
            final(self).wf(),
            disconnected_here(*old(self), *final(self), acts(r@)),
    {
        let id = self.vpn.current_id();
        assert(id.index_spec() == self.vpn.current_spec());
        if !self.vpn.current().installed {
            return effects::nothing();
        }
        let profile = self.vpn.current().selected_name();
        if id == ProviderId::Openvpn {
            match profile {
                Some(name) => {
                    let ghost live = self.ovpn_active@;
                    let mut out = effects::nothing();
                    self.stop_openvpn(name.as_str(), &mut out);
                    assert(acts(out@) =~= seq![stop_ovpn_act(live, name@)]);
                    out
                },
                None => effects::just(Effect::Flash("no openvpn profile selected".to_owned(), true)),
            }
        } else {
            self.vpn_start(id, "disconnecting".to_owned(), profile, false)
        }
    }

    /// Take down something that was not started here. A second attempt on the
    /// same process is one it cannot ignore: the first one has already been
    /// ignored, and an openvpn that will not leave keeps the server's slot for
    /// as long as it stays.
    #[verifier::rlimit(30)]
    pub fn spawn_foreign_stop(&mut self, id: ProviderId, at: usize, out: &mut Vec<Effect>)
        requires
            old(self).wf(),
            at < old(self).vpn.providers@[id.index_spec()].profiles@.len(),
        ensures
            final(self).wf(),
            foreign_stopping(*old(self), *final(self), id, at as int),
            acts(final(out)@) == acts(old(out)@) + foreign_stop_acts(
                id,
                at as int,
                old(self).vpn.providers@[id.index_spec()].profiles@[at as int],
                old(self).termed@,
            ),
    {
        let ghost was = acts(out@);
        let ghost row = self.vpn.providers@[id.index_spec()].profiles@[at as int];
        let name = self.vpn.get(id).profiles[at].name.clone();
        let pid: Option<u32> = match &self.vpn.get(id).profiles[at].foreign {
            Some(Foreign::Process(p)) => Some(p.pid),
            _ => None,
        };
        let force = match pid {
            Some(p) => {
                let again = holds_pid(&self.termed, p);
                if !again {
                    self.termed.push(p);
                }
                again
            },
            None => false,
        };
        let desc = if force {
            cat3("killing '", name.as_str(), "' — it ignored SIGTERM")
        } else {
            cat3("stopping '", name.as_str(), "', which was not started here")
        };
        let msg = cat4(id.slug(), ": ", desc.as_str(), "…");
        effects::ask(out, Effect::StopForeign { provider: id, row: at, force, desc: desc.clone() });
        effects::flash(out, msg.as_str(), false);
        self.vpn.set_busy(id, Some(desc));
        assert(acts(out@) =~= was + foreign_stop_acts(id, at as int, row, old(self).termed@));
    }

    /// What is kept of the command that stops a connection that was not started
    /// here.
    pub fn foreign_stop_run(&self, id: ProviderId, name: &str, argv: &Vec<String>) -> (r: Vec<Effect>)
        ensures
            acts(r@) == seq![
                Act::Note(
                    Subject::Vpn(id, name@),
                    "as root: "@ + command_text(texts(argv@)),
                    false,
                ),
            ],
    {
        let cmd = redact::command_line(argv);
        effects::just(
            Effect::Note(
                LogTarget::Vpn(id, name.to_owned()),
                cat("as root: ", cmd.as_str()),
                false,
            ),
        )
    }

    /// Enter on the VPN tab.
    pub fn vpn_toggle_selected(&mut self) -> (r: Vec<Effect>)
        requires
            old(self).wf(),
        ensures
            final(self).wf(),
            toggled_vpn(*old(self), *final(self), acts(r@)),
    {
        let id = self.vpn.current_id();
        assert(id.index_spec() == self.vpn.current_spec());
        if self.vpn.current().on_foreign() {
            match &self.vpn.current().busy {
                Some(busy) => {
                    return effects::just(
                        Effect::Flash(cat4(id.slug(), " is busy (", busy.as_str(), ")"), true),
                    );
                },
                None => {},
            }
            let at: usize = self.vpn.current().selected;
            let ghost a = *self;
            let mut out = effects::nothing();
            self.spawn_foreign_stop(id, at, &mut out);
            assert(acts(out@) =~= foreign_stop_acts(
                id,
                at as int,
                a.vpn.here().profiles@[at as int],
                a.termed@,
            ));
            return out;
        }
        let already_up = match self.vpn.current().selected_profile() {
            Some(p) => p.active,
            None => false,
        };
        if already_up {
            self.vpn_disconnect_selected()
        } else {
            self.vpn_connect_selected()
        }
    }
}

pub fn holds_pid(pids: &Vec<u32>, pid: u32) -> (r: bool)
    ensures
        r == pids@.contains(pid),
{
    let mut i: usize = 0;
    while i < pids.len()
        invariant
            i <= pids@.len(),
            forall|k: int| 0 <= k < i ==> #[trigger] pids@[k] != pid,
        decreases pids@.len() - i,
    {
        if pids[i] == pid {
            return true;
        }
        i = i + 1;
    }
    false
}

fn notes_of(target: &LogTarget, ran: &Vec<String>) -> (r: Vec<Effect>)
    ensures
        acts(r@) == ran_notes(target@, texts(ran@)),
{
    let ghost all = ran_notes(target@, texts(ran@));
    let mut out = effects::nothing();
    let mut i: usize = 0;
    assert(acts(out@) =~= all.take(0));
    while i < ran.len()
        invariant
            i <= ran@.len(),
            all == ran_notes(target@, texts(ran@)),
            acts(out@) == all.take(i as int),
        decreases ran@.len() - i,
    {
        effects::ask(
            &mut out,
            Effect::Note(target.clone(), cat("ran: ", ran[i].as_str()), false),
        );
        i = i + 1;
        assert(all.take(i as int) =~= all.take(i - 1).push(all[i - 1]));
    }
    assert(all.take(i as int) =~= all);
    out
}

}
