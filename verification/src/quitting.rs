//! Leaving the program, and what happens to the openvpn sessions it holds.
//!
//! Quitting is not free: an openvpn session runs as root, and controlcenter is
//! the only thing holding the pid that can stop it. The sessions still up get a
//! say in whether the program is allowed to walk away from them.

use vstd::prelude::*;
use crate::app::App;
use crate::effects::{self, acts, Act, Effect};
use crate::live::LiveOvpn;
use crate::logs::{LogTarget, Subject};
use crate::number::{self, decimal};
use crate::screen::QuitPrompt;
use crate::sort::{self, sorted};
use crate::teardown::{all_names, law_nothing_left, name_list, stop_ovpn_acts};
use crate::text::{self, ascii_lowered, cat3, cat5, texts, trimmed};
use crate::vpn::ProviderId;

verus! {

/// What the prompt lists of the sessions that have not ended, in their order.
pub open spec fn live_lines(live: Seq<LiveOvpn>) -> Seq<Seq<char>>
    decreases live.len(),
{
    if live.len() == 0 {
        Seq::empty()
    } else if live.last().ended() {
        live_lines(live.drop_last())
    } else {
        live_lines(live.drop_last()).push(live.last().name@ + " — "@ + live.last().label@)
    }
}

/// What is kept of a session that is left running.
pub open spec fn left_text(pid: Option<u32>) -> Seq<char> {
    match pid {
        Some(p) => "left running as root on exit (pid "@ + decimal(p as nat)
            + "); stop it with `sudo kill "@ + decimal(p as nat) + "`"@,
        None => "left running as root on exit"@,
    }
}

/// The notes on the sessions that are left running.
pub open spec fn left_notes(live: Seq<LiveOvpn>) -> Seq<Act>
    decreases live.len(),
{
    if live.len() == 0 {
        Seq::empty()
    } else if live.last().ended() {
        left_notes(live.drop_last())
    } else {
        left_notes(live.drop_last()).push(
            Act::Note(
                Subject::Vpn(ProviderId::Openvpn, live.last().name@),
                left_text(live.last().root_pid),
                false,
            ),
        )
    }
}

/// What leaving the sessions up says: the next run will find them as orphans,
/// and the log is where it says where they came from.
pub open spec fn leave_acts(live: Seq<LiveOvpn>) -> Seq<Act> {
    left_notes(live).push(
        Act::Note(
            Subject::Program,
            "quit with "@ + decimal(left_notes(live).len()) + " openvpn session(s) left running"@,
            false,
        ),
    )
}

/// The program is left with every openvpn session stopped.
pub open spec fn quit_stopping(a: App, b: App, out: Seq<Act>) -> bool {
    &&& b == (App {
        quit_prompt: None,
        ovpn_active: b.ovpn_active,
        should_quit: true,
        ..a
    })
    &&& b.ovpn_active@.len() == 0
    &&& out == stop_ovpn_acts(a.ovpn_active@, all_names(a.ovpn_active@))
}

/// The program is left with the openvpn sessions still up.
pub open spec fn quit_keeping(a: App, b: App, out: Seq<Act>) -> bool {
    b == (App { quit_prompt: None, should_quit: true, ..a }) && out == leave_acts(a.ovpn_active@)
}

/// `q` with nothing left to close.
pub open spec fn quit_requested(a: App, b: App, out: Seq<Act>) -> bool {
    let lines = live_lines(a.ovpn_active@);
    let want = ascii_lowered(trimmed(a.app_config.vpn.on_exit@));
    if lines.len() == 0 {
        b == (App { should_quit: true, ..a }) && out.len() == 0
    } else if want == "stop"@ {
        quit_stopping(a, b, out)
    } else if want == "keep"@ {
        quit_keeping(a, b, out)
    } else {
        &&& b == (App { quit_prompt: b.quit_prompt, ..a })
        &&& b.quit_prompt is Some
        &&& exists|v: Seq<String>|
            #[trigger] texts(v) == lines && (b.quit_prompt->0).sessions@ == sorted(v)
        &&& out.len() == 0
    }
}

impl App {
    /// Stop every openvpn session and leave.
    pub fn quit_and_stop(&mut self) -> (r: Vec<Effect>)
        requires
            old(self).wf(),
        ensures
            final(self).wf(),
            quit_stopping(*old(self), *final(self), acts(r@)),
    {
        let ghost live = self.ovpn_active@;
        self.quit_prompt = None;
        self.should_quit = true;
        let names = name_list(&self.ovpn_active);
        let mut out = effects::nothing();
        proof {
            law_nothing_left(live);
        }
        self.stop_openvpns(&names, &mut out);
        assert(acts(out@) =~= stop_ovpn_acts(live, texts(names@)));
        out
    }

    /// Leave with the sessions still up, and write down that this is what
    /// happened.
    pub fn quit_and_keep(&mut self) -> (r: Vec<Effect>)
        requires
            old(self).wf(),
        ensures
            final(self).wf(),
            quit_keeping(*old(self), *final(self), acts(r@)),
    {
        self.quit_prompt = None;
        self.should_quit = true;
        self.leave_openvpn_running()
    }

    fn leave_openvpn_running(&self) -> (r: Vec<Effect>)
        ensures
            acts(r@) == leave_acts(self.ovpn_active@),
    {
        let ghost live = self.ovpn_active@;
        let mut out = effects::nothing();
        let mut i: usize = 0;
        assert(live.take(0) =~= Seq::<LiveOvpn>::empty());
        while i < self.ovpn_active.len()
            invariant
                i <= live.len(),
                live == self.ovpn_active@,
                acts(out@) == left_notes(live.take(i as int)),
            decreases live.len() - i,
        {
            assert(live.take(i + 1).drop_last() =~= live.take(i as int));
            let s = &self.ovpn_active[i];
            if !s.has_ended() {
                let msg = match s.root_pid {
                    Some(pid) => {
                        let p = number::write(pid as u64);
                        cat5(
                            "left running as root on exit (pid ",
                            p.as_str(),
                            "); stop it with `sudo kill ",
                            p.as_str(),
                            "`",
                        )
                    },
                    None => "left running as root on exit".to_owned(),
                };
                effects::ask(
                    &mut out,
                    Effect::Note(
                        LogTarget::Vpn(ProviderId::Openvpn, s.name.clone()),
                        msg,
                        false,
                    ),
                );
            }
            i = i + 1;
        }
        assert(live.take(i as int) =~= live);
        let n: usize = out.len();
        assert(acts(out@).len() == out@.len());
        let msg = cat3(
            "quit with ",
            number::write(n as u64).as_str(),
            " openvpn session(s) left running",
        );
        effects::ask(&mut out, Effect::Note(LogTarget::Program, msg, false));
        out
    }

    fn sessions_left(&self) -> (r: Vec<String>)
        ensures
            texts(r@) == live_lines(self.ovpn_active@),
    {
        let ghost live = self.ovpn_active@;
        let mut out = text::no_texts();
        let mut i: usize = 0;
        assert(live.take(0) =~= Seq::<LiveOvpn>::empty());
        while i < self.ovpn_active.len()
            invariant
                i <= live.len(),
                live == self.ovpn_active@,
                texts(out@) == live_lines(live.take(i as int)),
            decreases live.len() - i,
        {
            assert(live.take(i + 1).drop_last() =~= live.take(i as int));
            let s = &self.ovpn_active[i];
            if !s.has_ended() {
                text::add_text(&mut out, cat3(s.name.as_str(), " — ", s.label.as_str()));
            }
            i = i + 1;
        }
        assert(live.take(i as int) =~= live);
        out
    }

    /// `q` with nothing left to close.
    pub fn request_quit(&mut self) -> (r: Vec<Effect>)
        requires
            old(self).wf(),
        ensures
            final(self).wf(),
            quit_requested(*old(self), *final(self), acts(r@)),
    {
        let live = self.sessions_left();
        assert(texts(live@).len() == live@.len());
        if live.len() == 0 {
            self.should_quit = true;
            return effects::nothing();
        }
        let want = text::to_ascii_lower(text::trim(self.app_config.vpn.on_exit.as_str()).as_str());
        if text::same(want.as_str(), "stop") {
            self.quit_and_stop()
        } else if text::same(want.as_str(), "keep") {
            self.quit_and_keep()
        } else {
            let ghost v = live@;
            let sessions = sort::sort(live);
            assert(texts(v) == live_lines(self.ovpn_active@));
            self.quit_prompt = Some(QuitPrompt { sessions });
            effects::nothing()
        }
    }
}

/// The program never leaves an openvpn session running unasked: either the user
/// has settled what happens, or none is up.
pub proof fn law_quitting_settles_sessions(a: App, b: App, out: Seq<Act>)
    requires
        quit_requested(a, b, out),
        !a.should_quit,
        b.should_quit,
    ensures
        live_lines(a.ovpn_active@).len() == 0 || b.ovpn_active@.len() == 0 || ascii_lowered(
            trimmed(a.app_config.vpn.on_exit@),
        ) == "keep"@,
{
}

}
