//! What the keys of the RDP tab do.

use vstd::prelude::*;
use crate::app::{rows_ok, App};
use crate::browser::opt_string;
use crate::cursor::{
    chosen, group_at, group_under, ints, names_at, names_of, under, under_cursor,
};
use crate::driving::activated;
use crate::effects::{self, acts, Act, Effect, Store};
use crate::form_keys::drop_char;
use crate::live::{
    has_name, law_taken_out_is_gone, place_of, position, rdp_is_running, take_out, without, LiveRdp,
};
use crate::plan::{jobs, Job, Step};
use crate::rdp::RdpStatus;
use crate::rdp_form::{RdpForm, RdpMode};
use crate::rows::{build_rows, groups_of};
use crate::running::{close_acts, close_all_acts, taken_down, without_all};
use crate::screen::{Key, KeyCode};
use crate::ssh_tab::{follow, following};
use crate::text::{cat3, texts};
use crate::tunnels_tab::{name_in_use, name_taken, placed};
use crate::types::RdpConnection;
use crate::vpn_view::{clamp, clamped};

verus! {

// ---------------------------------------------------------------------------
// Connecting and disconnecting
// ---------------------------------------------------------------------------

/// A connection has a session that runs.
pub open spec fn conn_runs(cs: Seq<RdpConnection>, live: Seq<LiveRdp>) -> spec_fn(int) -> bool {
    |i: int| rdp_is_running(live, cs[i].name@)
}

/// A connection has no session that runs.
pub open spec fn conn_idle(cs: Seq<RdpConnection>, live: Seq<LiveRdp>) -> spec_fn(int) -> bool {
    |i: int| !rdp_is_running(live, cs[i].name@)
}

/// The password prompt stands at these connections, with these answers given.
pub open spec fn prompts(
    mode: RdpMode,
    pending: Seq<int>,
    collected: Seq<Job>,
    input: Seq<char>,
) -> bool {
    mode matches RdpMode::Password { pending: p, collected: c, input: i } && ints(p@) == pending
        && jobs(c@) == collected && i@ == input
}

/// What closing these sessions takes, each with a word on it.
pub open spec fn disconnect_acts(live: Seq<LiveRdp>, names: Seq<Seq<char>>) -> Seq<Act>
    decreases names.len(),
{
    if names.len() == 0 {
        Seq::empty()
    } else {
        disconnect_acts(live, names.drop_last()) + close_acts(
            without_all(live, names.drop_last()),
            names.last(),
        ).push(Act::Flash("disconnected '"@ + names.last() + "'"@, false))
    }
}

/// Enter on the RDP tab: what is under the cursor is closed where all of it
/// runs; otherwise what is idle is asked for a password in turn, to be started
/// together. Members that are already up stay up.
pub open spec fn toggled_rdp(a: App, b: App, out: Seq<Act>) -> bool {
    match under(a.rdp_rows@, a.rdp_selected as int, groups_of(a.rdp_conns@)) {
        None => b == a && out.len() == 0,
        Some(idxs) => {
            let running = chosen(idxs, conn_runs(a.rdp_conns@, a.rdp_active@));
            let idle = chosen(idxs, conn_idle(a.rdp_conns@, a.rdp_active@));
            let names = names_at(a.rdp_conns@, running);
            if idxs.len() == 0 {
                b == a && out.len() == 0
            } else if running.len() == idxs.len() {
                &&& taken_down(a, b, Seq::empty(), names)
                &&& out == disconnect_acts(a.rdp_active@, names)
            } else if !a.rdp_installed {
                b == a && out == seq![Act::Flash("xfreerdp3 not found on PATH"@, true)]
            } else if idle.len() == 0 {
                b == a && out.len() == 0
            } else {
                &&& b == (App { rdp_mode: b.rdp_mode, ..a })
                &&& prompts(b.rdp_mode, idle, Seq::empty(), Seq::empty())
                &&& out.len() == 0
            }
        },
    }
}

/// `r` on the RDP tab: what runs under the cursor is closed and connected again
/// — which asks for the password a second time, because it is handed over at
/// start and nothing keeps a copy.
pub open spec fn reconnected_rdp(a: App, b: App, out: Seq<Act>) -> bool {
    match under(a.rdp_rows@, a.rdp_selected as int, groups_of(a.rdp_conns@)) {
        None => b == a && out.len() == 0,
        Some(idxs) => {
            let running = chosen(idxs, conn_runs(a.rdp_conns@, a.rdp_active@));
            let names = names_at(a.rdp_conns@, running);
            if running.len() == 0 {
                b == a && out == seq![Act::Flash("nothing running to reconnect here"@, true)]
            } else {
                &&& taken_down(App { rdp_mode: b.rdp_mode, ..a }, b, Seq::empty(), names)
                &&& prompts(b.rdp_mode, running, Seq::empty(), Seq::empty())
                &&& out == close_all_acts(a.rdp_active@, names)
            }
        },
    }
}

/// `c` on the RDP tab: a finished session under the cursor is forgotten, and a
/// running one is kept.
pub open spec fn cleared_rdp(a: App, b: App) -> bool {
    match App::entry_at(a.rdp_rows@, a.rdp_selected as int) {
        None => b == a,
        Some(i) => {
            let name = a.rdp_conns@[i].name@;
            if has_name(a.rdp_active@, name) && a.rdp_active@[place_of(a.rdp_active@, name)].status
                is Exited {
                &&& b == (App { rdp_active: b.rdp_active, ..a })
                &&& b.rdp_active@ == without(a.rdp_active@, name)
            } else {
                b == a
            }
        },
    }
}

/// The answers given, with one more for the connection at `idx`, as far as it is
/// still there.
pub open spec fn answered(
    collected: Seq<Job>,
    cs: Seq<RdpConnection>,
    idx: int,
    input: Seq<char>,
) -> Seq<Job> {
    if idx < cs.len() {
        collected.push(Job::Rdp(cs[idx].name@, input))
    } else {
        collected
    }
}

/// A key in the password prompt.
pub open spec fn password_keyed(a: App, b: App, key: Key, now: int, out: Seq<Act>) -> bool {
    match a.rdp_mode {
        RdpMode::Password { pending, collected, input } => {
            let p = ints(pending@);
            let c = jobs(collected@);
            match key.code {
                // The whole group is dropped, not just the one being asked
                // about.
                KeyCode::Esc => b == (App { rdp_mode: RdpMode::Closed, ..a }) && out.len() == 0,
                KeyCode::Enter => if p.len() == 0 {
                    b == (App { rdp_mode: RdpMode::Closed, ..a }) && out.len() == 0
                } else {
                    let given = answered(c, a.rdp_conns@, p[0], input@);
                    if p.len() > 1 {
                        &&& b == (App { rdp_mode: b.rdp_mode, ..a })
                        &&& prompts(b.rdp_mode, p.drop_first(), given, Seq::empty())
                        &&& out.len() == 0
                    } else if given.len() == 0 {
                        b == (App { rdp_mode: RdpMode::Closed, ..a }) && out.len() == 0
                    } else {
                        activated(App { rdp_mode: RdpMode::Closed, ..a }, b, given, now, out)
                    }
                },
                KeyCode::Backspace => {
                    &&& b == (App { rdp_mode: b.rdp_mode, ..a })
                    &&& prompts(b.rdp_mode, p, c, drop_char()(input@))
                    &&& out.len() == 0
                },
                KeyCode::Char(ch) => {
                    &&& b == (App { rdp_mode: b.rdp_mode, ..a })
                    &&& prompts(b.rdp_mode, p, c, input@.push(ch))
                    &&& out.len() == 0
                },
                _ => b == a && out.len() == 0,
            }
        },
        _ => b == a && out.len() == 0,
    }
}

impl App {
    /// Which of these connections have, or have not, a session that runs.
    pub fn conns_that(&self, idxs: &Vec<usize>, run: bool) -> (r: Vec<usize>)
        requires
            forall|k: int| 0 <= k < idxs@.len() ==> #[trigger] idxs@[k] < self.rdp_conns@.len(),
        ensures
            ints(r@) == chosen(
                ints(idxs@),
                if run {
                    conn_runs(self.rdp_conns@, self.rdp_active@)
                } else {
                    conn_idle(self.rdp_conns@, self.rdp_active@)
                },
            ),
            forall|k: int| 0 <= k < r@.len() ==> #[trigger] r@[k] < self.rdp_conns@.len(),
    {
        let ghost all = ints(idxs@);
        let ghost p = if run {
            conn_runs(self.rdp_conns@, self.rdp_active@)
        } else {
            conn_idle(self.rdp_conns@, self.rdp_active@)
        };
        let mut out: Vec<usize> = Vec::new();
        let mut i: usize = 0;
        assert(all.take(0) =~= Seq::<int>::empty());
        assert(ints(out@) =~= Seq::<int>::empty());
        while i < idxs.len()
            invariant
                i <= idxs@.len(),
                all == ints(idxs@),
                p == if run {
                    conn_runs(self.rdp_conns@, self.rdp_active@)
                } else {
                    conn_idle(self.rdp_conns@, self.rdp_active@)
                },
                forall|k: int| 0 <= k < idxs@.len() ==> #[trigger] idxs@[k] < self.rdp_conns@.len(),
                forall|k: int| 0 <= k < out@.len() ==> #[trigger] out@[k] < self.rdp_conns@.len(),
                ints(out@) == chosen(all.take(i as int), p),
            decreases idxs@.len() - i,
        {
            assert(all.take(i + 1).drop_last() =~= all.take(i as int));
            let at: usize = idxs[i];
            if self.rdp_running(self.rdp_conns[at].name.as_str()) == run {
                assert(ints(out@.push(at)) =~= ints(out@).push(at as int));
                out.push(at);
            }
            i = i + 1;
        }
        assert(all.take(i as int) =~= all);
        out
    }

    /// Close sessions, with a word on each.
    fn disconnect(&mut self, names: &Vec<String>) -> (r: Vec<Effect>)
        requires
            old(self).wf(),
        ensures
            final(self).wf(),
            taken_down(*old(self), *final(self), Seq::empty(), texts(names@)),
            acts(r@) == disconnect_acts(old(self).rdp_active@, texts(names@)),
    {
        let ghost start = *self;
        let ghost all = texts(names@);
        let mut out = effects::nothing();
        let mut i: usize = 0;
        assert(all.take(0) =~= Seq::<Seq<char>>::empty());
        while i < names.len()
            invariant
                i <= names@.len(),
                all == texts(names@),
                self.wf(),
                taken_down(start, *self, Seq::empty(), all.take(i as int)),
                acts(out@) == disconnect_acts(start.rdp_active@, all.take(i as int)),
            decreases names@.len() - i,
        {
            assert(all.take(i + 1).drop_last() =~= all.take(i as int));
            assert(all.take(i + 1).last() == names@[i as int]@);
            let ghost before = acts(out@);
            let ghost here = close_acts(self.rdp_active@, names@[i as int]@);
            let _ = self.drop_rdp(names[i].as_str(), &mut out);
            let msg = cat3("disconnected '", names[i].as_str(), "'");
            effects::flash(&mut out, msg.as_str(), false);
            assert(acts(out@) =~= before + here.push(Act::Flash(msg@, false)));
            i = i + 1;
        }
        assert(all.take(i as int) =~= all);
        out
    }

    /// Enter on the RDP tab.
    pub fn toggle_selected_rdp(&mut self) -> (r: Vec<Effect>)
        requires
            old(self).wf(),
        ensures
            final(self).wf(),
            toggled_rdp(*old(self), *final(self), acts(r@)),
    {
        let idxs = match under_cursor(&self.rdp_rows, self.rdp_selected, self.rdp_conns.as_slice()) {
            None => {
                return effects::nothing();
            },
            Some(v) => v,
        };
        assert(ints(idxs@).len() == idxs@.len());
        if idxs.len() == 0 {
            return effects::nothing();
        }
        let running = self.conns_that(&idxs, true);
        assert(ints(running@).len() == running@.len());
        if running.len() == idxs.len() {
            let names = names_of(self.rdp_conns.as_slice(), &running);
            return self.disconnect(&names);
        }
        if !self.rdp_installed {
            return effects::just(Effect::Flash("xfreerdp3 not found on PATH".to_owned(), true));
        }
        let idle = self.conns_that(&idxs, false);
        assert(ints(idle@).len() == idle@.len());
        if idle.len() == 0 {
            return effects::nothing();
        }
        self.ask_passwords(idle);
        effects::nothing()
    }

    /// Ask for the passwords of these connections, one after another.
    fn ask_passwords(&mut self, pending: Vec<usize>)
        requires
            old(self).wf(),
        ensures
            final(self).wf(),
            *final(self) == (App { rdp_mode: final(self).rdp_mode, ..*old(self) }),
            prompts(final(self).rdp_mode, ints(pending@), Seq::empty(), Seq::empty()),
    {
        let collected: Vec<Step> = Vec::new();
        let input = String::new();
        assert(jobs(collected@) =~= Seq::<Job>::empty());
        assert(input@ =~= Seq::<char>::empty());
        self.rdp_mode = RdpMode::Password { pending, collected, input };
    }

    /// `r` on the RDP tab.
    pub fn reconnect_selected_rdp(&mut self) -> (r: Vec<Effect>)
        requires
            old(self).wf(),
        ensures
            final(self).wf(),
            reconnected_rdp(*old(self), *final(self), acts(r@)),
    {
        let idxs = match under_cursor(&self.rdp_rows, self.rdp_selected, self.rdp_conns.as_slice()) {
            None => {
                return effects::nothing();
            },
            Some(v) => v,
        };
        let running = self.conns_that(&idxs, true);
        assert(ints(running@).len() == running@.len());
        if running.len() == 0 {
            return effects::just(
                Effect::Flash("nothing running to reconnect here".to_owned(), true),
            );
        }
        let ghost live = self.rdp_active@;
        let names = names_of(self.rdp_conns.as_slice(), &running);
        let mut out = effects::nothing();
        self.drop_rdps(&names, &mut out);
        assert(acts(out@) =~= close_all_acts(live, texts(names@)));
        self.ask_passwords(running);
        out
    }

    /// `c` on the RDP tab.
    pub fn clear_finished_rdp(&mut self)
        requires
            old(self).wf(),
        ensures
            final(self).wf(),
            cleared_rdp(*old(self), *final(self)),
    {
        let i: usize = match self.selected_rdp_conn() {
            None => {
                return ;
            },
            Some(i) => i,
        };
        let name = self.rdp_conns[i].name.clone();
        match position(self.rdp_active.as_slice(), name.as_str()) {
            Some(k) => {
                if matches!(self.rdp_active[k].status, RdpStatus::Exited(_)) {
                    proof {
                        law_taken_out_is_gone(self.rdp_active@, name@, name@);
                    }
                    let _ = take_out(&mut self.rdp_active, name.as_str());
                }
            },
            None => {},
        }
    }

    /// A key in the password prompt.
    pub fn on_password_key(&mut self, key: Key, now: u64) -> (r: Vec<Effect>)
        requires
            old(self).wf(),
        ensures
            final(self).wf(),
            password_keyed(*old(self), *final(self), key, now as int, acts(r@)),
    {
        let ghost a = *self;
        match key.code {
            KeyCode::Esc => {
                if matches!(self.rdp_mode, RdpMode::Password { .. }) {
                    self.rdp_mode = RdpMode::Closed;
                }
                effects::nothing()
            },
            KeyCode::Enter => self.answer_password(now),
            KeyCode::Backspace => {
                match &mut self.rdp_mode {
                    RdpMode::Password { input, .. } => {
                        let _ = input.pop();
                    },
                    _ => {},
                }
                effects::nothing()
            },
            KeyCode::Char(c) => {
                match &mut self.rdp_mode {
                    RdpMode::Password { input, .. } => {
                        input.push(c);
                    },
                    _ => {},
                }
                effects::nothing()
            },
            _ => effects::nothing(),
        }
    }

    /// Enter in the password prompt.
    fn answer_password(&mut self, now: u64) -> (r: Vec<Effect>)
        requires
            old(self).wf(),
        ensures
            final(self).wf(),
            password_keyed(
                *old(self),
                *final(self),
                Key::plain_spec(KeyCode::Enter),
                now as int,
                acts(r@),
            ),
    {
        let ghost a = *self;
        let mut mode = RdpMode::Closed;
        std::mem::swap(&mut self.rdp_mode, &mut mode);
        match mode {
            RdpMode::Password { pending, collected, input } => {
                let ghost p = ints(pending@);
                let ghost c = jobs(collected@);
                let mut pending = pending;
                let mut collected = collected;
                if pending.len() == 0 {
                    return effects::nothing();
                }
                let idx: usize = pending.remove(0);
                assert(ints(pending@) =~= p.drop_first());
                if idx < self.rdp_conns.len() {
                    let step = Step::Rdp {
                        name: self.rdp_conns[idx].name.clone(),
                        password: input.clone(),
                    };
                    assert(jobs(collected@.push(step)) =~= c.push(step@));
                    collected.push(step);
                }
                assert(jobs(collected@) == answered(c, a.rdp_conns@, p[0], input@));
                assert(jobs(collected@).len() == collected@.len());
                if pending.len() == 0 {
                    if collected.len() == 0 {
                        effects::nothing()
                    } else {
                        self.activate(collected, now)
                    }
                } else {
                    // On to the next member of the group.
                    let input = String::new();
                    assert(input@ =~= Seq::<char>::empty());
                    self.rdp_mode = RdpMode::Password { pending, collected, input };
                    effects::nothing()
                }
            },
            other => {
                self.rdp_mode = other;
                effects::nothing()
            },
        }
    }
}

// ---------------------------------------------------------------------------
// The form
// ---------------------------------------------------------------------------

/// An error of a form.
pub open spec fn rdp_form_says(a: RdpForm, b: RdpForm, why: Seq<char>) -> bool {
    b == (RdpForm { error: b.error, ..a }) && opt_string(b.error) == Some(why)
}

/// The entry a form edits.
pub open spec fn edited_conn(mode: RdpMode) -> Option<int> {
    match mode {
        RdpMode::Edit(i) => Some(i as int),
        _ => None,
    }
}

/// The form has been submitted with a connection that it gives.
pub open spec fn stored_conn(a: App, b: App, c: RdpConnection, out: Seq<Act>) -> bool {
    let editing = edited_conn(a.rdp_mode);
    if name_in_use(a.rdp_conns@, c.name@, editing) {
        &&& b == (App { rdp_form: b.rdp_form, ..a })
        &&& rdp_form_says(
            a.rdp_form,
            b.rdp_form,
            "a connection named '"@ + c.name@ + "' already exists"@,
        )
        &&& out.len() == 0
    } else {
        let idx = match editing {
            Some(i) => i,
            None => a.rdp_conns@.len() as int,
        };
        &&& b == (App {
            rdp_conns: b.rdp_conns,
            rdp_rows: b.rdp_rows,
            rdp_selected: b.rdp_selected,
            rdp_active: b.rdp_active,
            rdp_mode: RdpMode::Closed,
            ..a
        })
        &&& b.rdp_conns@ == placed(a.rdp_conns@, c, editing)
        &&& rows_ok(b.rdp_rows@, b.rdp_conns@)
        // Grouping it moved its row; the cursor follows it.
        &&& b.rdp_selected == following(
            b.rdp_rows@,
            idx,
            clamped(a.rdp_selected as int, b.rdp_rows@.len() as int),
        )
        &&& match editing {
            Some(i) => {
                let was = a.rdp_conns@[i].name@;
                &&& b.rdp_active@ == without(a.rdp_active@, was)
                &&& out == (if has_name(a.rdp_active@, was) {
                    seq![
                        Act::StopRdp(was),
                        Act::Flash(
                            "session closed — press Enter to reconnect with new settings"@,
                            false,
                        ),
                        Act::Save(Store::Rdp),
                    ]
                } else {
                    seq![Act::Save(Store::Rdp)]
                })
            },
            None => b.rdp_active@ == a.rdp_active@ && out == seq![Act::Save(Store::Rdp)],
        }
    }
}

/// The rdp form has been submitted.
pub open spec fn submitted_conn(a: App, b: App, out: Seq<Act>) -> bool {
    match a.rdp_form.fault() {
        Some(why) => {
            &&& b == (App { rdp_form: b.rdp_form, ..a })
            &&& rdp_form_says(a.rdp_form, b.rdp_form, why)
            &&& out.len() == 0
        },
        None => exists|c: RdpConnection|
            a.rdp_form.gives(c) && #[trigger] stored_conn(a, b, c, out),
    }
}

/// A connection has been deleted.
pub open spec fn deleted_conn(a: App, b: App, idx: int, out: Seq<Act>) -> bool {
    if idx >= a.rdp_conns@.len() {
        b == (App { rdp_mode: RdpMode::Closed, ..a }) && out.len() == 0
    } else {
        let name = a.rdp_conns@[idx].name@;
        &&& b == (App {
            rdp_conns: b.rdp_conns,
            rdp_rows: b.rdp_rows,
            rdp_selected: b.rdp_selected,
            rdp_active: b.rdp_active,
            rdp_mode: RdpMode::Closed,
            ..a
        })
        &&& b.rdp_conns@ == a.rdp_conns@.remove(idx)
        &&& b.rdp_active@ == without(a.rdp_active@, name)
        &&& rows_ok(b.rdp_rows@, b.rdp_conns@)
        &&& b.rdp_selected == clamped(a.rdp_selected as int, b.rdp_rows@.len() as int)
        &&& out == close_acts(a.rdp_active@, name).push(
            Act::SaveThen(Store::Rdp, "deleted '"@ + name + "'"@, false),
        )
    }
}

impl App {
    /// Lay the rdp connections out again.
    pub fn rebuild_rdp_rows(&mut self)
        ensures
            rows_ok(final(self).rdp_rows@, old(self).rdp_conns@),
            final(self).rdp_selected == clamped(
                old(self).rdp_selected as int,
                final(self).rdp_rows@.len() as int,
            ),
            *final(self) == (App {
                rdp_rows: final(self).rdp_rows,
                rdp_selected: final(self).rdp_selected,
                ..*old(self)
            }),
    {
        self.rdp_rows = build_rows(self.rdp_conns.as_slice());
        self.rdp_selected = clamp(self.rdp_selected, self.rdp_rows.len());
    }

    /// `a` on the RDP tab: an empty form, in the group under the cursor.
    pub fn add_rdp(&mut self)
        requires
            old(self).wf(),
        ensures
            final(self).wf(),
            final(self).rdp_form.blank(old(self).vpn.providers@, old(self).tunnels@),
            final(self).rdp_form.group@ == group_under(
                old(self).rdp_rows@,
                old(self).rdp_selected as int,
                old(self).rdp_conns@,
            ),
            *final(self) == (App {
                rdp_form: final(self).rdp_form,
                rdp_mode: RdpMode::Add,
                ..*old(self)
            }),
    {
        let mut form = RdpForm::empty(self.form_ctx());
        form.group = group_at(&self.rdp_rows, self.rdp_selected, self.rdp_conns.as_slice());
        self.rdp_form = form;
        self.rdp_mode = RdpMode::Add;
    }

    /// `e` on the RDP tab: the form on the connection under the cursor.
    pub fn edit_rdp(&mut self)
        requires
            old(self).wf(),
        ensures
            final(self).wf(),
            match App::entry_at(old(self).rdp_rows@, old(self).rdp_selected as int) {
                None => *final(self) == *old(self),
                Some(i) => {
                    &&& final(self).rdp_form.opened(
                        old(self).rdp_conns@[i],
                        old(self).vpn.providers@,
                        old(self).tunnels@,
                    )
                    &&& *final(self) == (App {
                        rdp_form: final(self).rdp_form,
                        rdp_mode: RdpMode::Edit(i as usize),
                        ..*old(self)
                    })
                },
            },
    {
        match self.selected_rdp_conn() {
            Some(i) => {
                let form = RdpForm::from_connection(&self.rdp_conns[i], self.form_ctx());
                self.rdp_form = form;
                self.rdp_mode = RdpMode::Edit(i);
            },
            None => {},
        }
    }

    /// `d` on the RDP tab: ask whether to delete the connection under the
    /// cursor.
    pub fn ask_delete_rdp(&mut self)
        requires
            old(self).wf(),
        ensures
            final(self).wf(),
            match App::entry_at(old(self).rdp_rows@, old(self).rdp_selected as int) {
                None => *final(self) == *old(self),
                Some(i) => *final(self) == (App {
                    rdp_mode: RdpMode::DeleteConfirm(i as usize),
                    ..*old(self)
                }),
            },
    {
        match self.selected_rdp_conn() {
            Some(i) => {
                self.rdp_mode = RdpMode::DeleteConfirm(i);
            },
            None => {},
        }
    }

    /// Enter in the rdp form.
    pub fn submit_rdp_form(&mut self) -> (r: Vec<Effect>)
        requires
            old(self).wf(),
        ensures
            final(self).wf(),
            submitted_conn(*old(self), *final(self), acts(r@)),
    {
        match self.rdp_form.to_connection() {
            Err(e) => {
                self.rdp_form.error = Some(e);
                effects::nothing()
            },
            Ok(c) => {
                let ghost a = *self;
                let r = self.store_conn(c);
                assert(stored_conn(a, *self, c, acts(r@)));
                r
            },
        }
    }

    fn store_conn(&mut self, c: RdpConnection) -> (r: Vec<Effect>)
        requires
            old(self).wf(),
        ensures
            final(self).wf(),
            stored_conn(*old(self), *final(self), c, acts(r@)),
    {
        let ghost a = *self;
        let editing: Option<usize> = match &self.rdp_mode {
            RdpMode::Edit(i) => Some(*i),
            _ => None,
        };
        if name_taken(self.rdp_conns.as_slice(), c.name.as_str(), editing) {
            self.rdp_form.error = Some(
                cat3("a connection named '", c.name.as_str(), "' already exists"),
            );
            return effects::nothing();
        }
        let mut out = effects::nothing();
        let idx: usize = match editing {
            Some(i) => {
                let old_name = self.rdp_conns[i].name.clone();
                if self.drop_rdp(old_name.as_str(), &mut out) {
                    effects::flash(
                        &mut out,
                        "session closed — press Enter to reconnect with new settings",
                        false,
                    );
                }
                self.rdp_conns[i] = c;
                i
            },
            None => {
                self.rdp_conns.push(c);
                self.rdp_conns.len() - 1
            },
        };
        self.rdp_mode = RdpMode::Closed;
        self.rebuild_rdp_rows();
        self.rdp_selected = follow(&self.rdp_rows, idx, self.rdp_selected);
        effects::ask(&mut out, Effect::Save(Store::Rdp));
        assert(match editing {
            Some(i) => acts(out@) =~= (if has_name(a.rdp_active@, a.rdp_conns@[i as int].name@) {
                seq![
                    Act::StopRdp(a.rdp_conns@[i as int].name@),
                    Act::Flash(
                        "session closed — press Enter to reconnect with new settings"@,
                        false,
                    ),
                    Act::Save(Store::Rdp),
                ]
            } else {
                seq![Act::Save(Store::Rdp)]
            }),
            None => acts(out@) =~= seq![Act::Save(Store::Rdp)],
        });
        out
    }

    /// Delete a connection.
    pub fn delete_rdp(&mut self, idx: usize) -> (r: Vec<Effect>)
        requires
            old(self).wf(),
        ensures
            final(self).wf(),
            deleted_conn(*old(self), *final(self), idx as int, acts(r@)),
    {
        let ghost a = *self;
        self.rdp_mode = RdpMode::Closed;
        let mut out = effects::nothing();
        if idx >= self.rdp_conns.len() {
            return out;
        }
        let name = self.rdp_conns[idx].name.clone();
        let _ = self.drop_rdp(name.as_str(), &mut out);
        assert(acts(out@) =~= close_acts(a.rdp_active@, name@));
        let _ = self.rdp_conns.remove(idx);
        self.rebuild_rdp_rows();
        effects::ask(
            &mut out,
            Effect::SaveThen(Store::Rdp, cat3("deleted '", name.as_str(), "'"), false),
        );
        out
    }
}

}
