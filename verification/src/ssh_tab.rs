//! What the keys of the SSH tab do, and what becomes of its sessions.

use vstd::prelude::*;
use crate::app::{cursor_ok, rows_ok, App};
use crate::browser::opt_string;
use crate::cursor::{group_at, group_under, names_at, names_of, under, under_cursor};
use crate::driving::activated;
use crate::effects::{self, acts, reported, Act, Effect, Store};
use crate::list::{first_where, lemma_first_where_is};
use crate::live::{
    has_name, law_put_in_is_there, law_taken_out_is_gone, lemma_place, place_of, position, put,
    take_out, with_one, without, LastSession, Windows,
};
use crate::logs::{LogTarget, Subject};
use crate::plan::{jobs, Job, Step};
use crate::queries::{lemma_windows_removed, window_count};
use crate::rows::{build_rows, groups_of, RowItem};
use crate::ssh::{self, preview_of, Launch, PasswordHelper, SessionOutcome};
use crate::ssh_form::{SshForm, SshMode};
use crate::text::{self, cat, cat3, cat4, cat5, joined, texts};
use crate::tunnels_tab::{name_in_use, name_taken, placed};
use crate::types::SshHost;
use crate::ui::{self, duration_text};
use crate::vpn_view::{clamp, clamped};

verus! {

// ---------------------------------------------------------------------------
// Opening sessions
// ---------------------------------------------------------------------------

/// Ssh steps for these names.
pub open spec fn ssh_jobs(names: Seq<Seq<char>>) -> Seq<Job> {
    names.map_values(|n: Seq<char>| Job::Ssh(n))
}

fn ssh_steps(names: &Vec<String>) -> (r: Vec<Step>)
    ensures
        jobs(r@) == ssh_jobs(texts(names@)),
        r@.len() == names@.len(),
{
    let ghost all = ssh_jobs(texts(names@));
    let mut out: Vec<Step> = Vec::new();
    let mut i: usize = 0;
    assert(jobs(out@) =~= all.take(0));
    while i < names.len()
        invariant
            i <= names@.len(),
            all == ssh_jobs(texts(names@)),
            jobs(out@) == all.take(i as int),
            out@.len() == i,
        decreases names@.len() - i,
    {
        let s = Step::Ssh(names[i].clone());
        assert(jobs(out@.push(s)) =~= jobs(out@).push(s@));
        out.push(s);
        i = i + 1;
        assert(all.take(i as int) =~= all.take(i - 1).push(all[i - 1]));
    }
    assert(all.take(i as int) =~= all);
    out
}

/// Enter on the SSH tab: a session for the host under the cursor, or one for
/// every member of the group under a group header. A group goes into a single
/// plan, so a VPN or tunnel they share is brought up once.
pub open spec fn opened_ssh(a: App, b: App, now: int, out: Seq<Act>) -> bool {
    match under(a.ssh_rows@, a.ssh_selected as int, groups_of(a.ssh_hosts@)) {
        None => b == a && out.len() == 0,
        Some(idxs) => if idxs.len() == 0 {
            b == a && out.len() == 0
        } else {
            activated(a, b, ssh_jobs(names_at(a.ssh_hosts@, idxs)), now, out)
        },
    }
}

/// How a session that is wanted is to be opened.
pub enum Opening {
    /// Not at all.
    Nowhere,
    /// In a window of its own.
    Window,
    /// In this terminal, until it ends.
    Here,
}

/// How a session of that name is opened.
pub open spec fn way_to_open(a: App, name: Seq<char>) -> Opening {
    let i = place_of(a.ssh_hosts@, name);
    if !has_name(a.ssh_hosts@, name) {
        Opening::Nowhere
    } else if a.ssh_hosts@[i].password@.len() > 0 && a.ssh_password_helper is Nothing {
        Opening::Nowhere
    } else {
        match a.ssh_launcher {
            Launch::Window(_) => Opening::Window,
            Launch::Inline => Opening::Here,
        }
    }
}

/// What is said of a session that is wanted. Its own output goes to its window
/// or to this terminal, so the command line is the one thing about it worth
/// keeping.
pub open spec fn opening_acts(a: App, name: Seq<char>) -> Seq<Act> {
    let i = place_of(a.ssh_hosts@, name);
    if !has_name(a.ssh_hosts@, name) {
        Seq::empty()
    } else if a.ssh_hosts@[i].password@.len() > 0 && a.ssh_password_helper is Nothing {
        reported(
            Subject::Ssh(name),
            "'"@ + name + "' has a stored password but sshpass is not on PATH"@,
            true,
        )
    } else {
        seq![
            Act::Note(
                Subject::Ssh(name),
                "opening in "@ + a.ssh_launcher.label_spec(a.machine.os) + ": "@ + joined(
                    preview_of(a.machine, a.ssh_hosts@[i], a.ssh_password_helper),
                    " "@,
                ),
                false,
            ),
        ]
    }
}

/// The windows of a host with one more open, as far as they can be counted.
pub open spec fn one_more(ws: Seq<Windows>, name: Seq<char>) -> nat {
    let n = if has_name(ws, name) {
        ws[place_of(ws, name)].open as nat
    } else {
        0
    };
    if window_count(ws) < usize::MAX {
        n + 1
    } else {
        n
    }
}

proof fn lemma_windows_changed(ws: Seq<Windows>, x: Windows)
    ensures
        window_count(without(ws, x.name@)) + (if has_name(ws, x.name@) {
            ws[place_of(ws, x.name@)].open as nat
        } else {
            0
        }) == window_count(ws),
        window_count(with_one(ws, x)) == window_count(without(ws, x.name@)) + x.open as nat,
{
    lemma_place(ws, x.name@);
    if has_name(ws, x.name@) {
        lemma_windows_removed(ws, place_of(ws, x.name@));
    }
    assert(with_one(ws, x).drop_last() =~= without(ws, x.name@));
}

/// How a session that has ended reads.
pub open spec fn ending_text(o: SessionOutcome) -> Seq<char> {
    o.label_spec() + " after "@ + duration_text((o.duration / 1000) as nat)
}

fn ending(o: &SessionOutcome) -> (r: String)
    ensures
        r@ == ending_text(*o),
{
    cat3(o.label().as_str(), " after ", ui::fmt_duration(o.duration / 1000).as_str())
}

impl App {
    /// Enter or `r` on the SSH tab. A session is a window of its own, so
    /// reconnecting is opening another one.
    pub fn open_selected_ssh(&mut self, now: u64) -> (r: Vec<Effect>)
        requires
            old(self).wf(),
        ensures
            final(self).wf(),
            opened_ssh(*old(self), *final(self), now as int, acts(r@)),
    {
        let idxs = match under_cursor(&self.ssh_rows, self.ssh_selected, self.ssh_hosts.as_slice()) {
            None => {
                return effects::nothing();
            },
            Some(v) => v,
        };
        assert(crate::cursor::ints(idxs@).len() == idxs@.len());
        if idxs.len() == 0 {
            return effects::nothing();
        }
        let names = names_of(self.ssh_hosts.as_slice(), &idxs);
        self.activate(ssh_steps(&names), now)
    }

    /// Put a session into the queue of those the terminal is to open.
    pub fn queue_ssh(&mut self, name: String)
        requires
            old(self).wf(),
        ensures
            final(self).wf(),
            texts(final(self).ssh_launch@) == texts(old(self).ssh_launch@).push(name@),
            *final(self) == (App { ssh_launch: final(self).ssh_launch, ..*old(self) }),
    {
        text::add_text(&mut self.ssh_launch, name);
    }

    /// The session that has waited longest.
    pub fn next_ssh(&mut self) -> (r: Option<String>)
        requires
            old(self).wf(),
        ensures
            final(self).wf(),
            r is Some <==> old(self).ssh_launch@.len() > 0,
            r is Some ==> r->0 == old(self).ssh_launch@[0] && final(self).ssh_launch@
                == old(self).ssh_launch@.drop_first(),
            r is None ==> final(self).ssh_launch@ == old(self).ssh_launch@,
            *final(self) == (App { ssh_launch: final(self).ssh_launch, ..*old(self) }),
    {
        if self.ssh_launch.len() == 0 {
            None
        } else {
            let first = self.ssh_launch.remove(0);
            assert(self.ssh_launch@ =~= old(self).ssh_launch@.drop_first());
            Some(first)
        }
    }

    /// How to open a session: in a window of its own, so the TUI stays usable,
    /// or — when there is no terminal emulator to open one with — by handing
    /// this terminal to ssh until the session ends.
    pub fn open_session(&self, name: &str) -> (r: (Opening, Vec<Effect>))
        ensures
            r.0 == way_to_open(*self, name@),
            acts(r.1@) == opening_acts(*self, name@),
    {
        let i: usize = match position(self.ssh_hosts.as_slice(), name) {
            None => {
                return (Opening::Nowhere, effects::nothing());
            },
            Some(i) => i,
        };
        let host = &self.ssh_hosts[i];
        let mut out = effects::nothing();
        let helpless = matches!(self.ssh_password_helper, PasswordHelper::Nothing);
        if !host.password.as_str().is_empty() && helpless {
            let msg = cat3("'", name, "' has a stored password but sshpass is not on PATH");
            effects::report(&mut out, LogTarget::Ssh(name.to_owned()), msg.as_str(), true);
            assert(acts(out@) =~= opening_acts(*self, name@));
            return (Opening::Nowhere, out);
        }
        let preview = ssh::command_preview(host, &self.ssh_password_helper, &self.machine);
        let msg = cat4("opening in ", self.ssh_launcher.label(self.machine.os).as_str(), ": ", preview.as_str());
        effects::ask(&mut out, Effect::Note(LogTarget::Ssh(name.to_owned()), msg, false));
        assert(acts(out@) =~= opening_acts(*self, name@));
        match &self.ssh_launcher {
            Launch::Window(_) => (Opening::Window, out),
            Launch::Inline => (Opening::Here, out),
        }
    }

    /// What became of opening a window; `program` is the terminal emulator.
    pub fn window_opened(
        &mut self,
        name: &str,
        program: &str,
        result: Result<(), String>,
    ) -> (r: Vec<Effect>)
        requires
            old(self).wf(),
        ensures
            final(self).wf(),
            match result {
                Ok(()) => {
                    &&& *final(self) == (App {
                        ssh_windows: final(self).ssh_windows,
                        ssh_last: final(self).ssh_last,
                        ..*old(self)
                    })
                    &&& final(self).ssh_last@ == without(old(self).ssh_last@, name@)
                    &&& final(self).ssh_windows@.len() > 0
                    &&& final(self).ssh_windows@.last().name@ == name@
                    &&& final(self).ssh_windows@.last().open == one_more(
                        old(self).ssh_windows@,
                        name@,
                    )
                    &&& final(self).ssh_windows@ == with_one(
                        old(self).ssh_windows@,
                        final(self).ssh_windows@.last(),
                    )
                    &&& acts(r@) == reported(
                        Subject::Ssh(name@),
                        "'"@ + name@ + "' opened in a new "@ + program@ + " window"@,
                        false,
                    )
                },
                Err(e) => {
                    &&& *final(self) == *old(self)
                    &&& acts(r@) == reported(
                        Subject::Ssh(name@),
                        "'"@ + name@ + "': "@ + e@,
                        true,
                    )
                },
            },
    {
        let mut out = effects::nothing();
        match result {
            Ok(()) => {
                let was: usize = self.ssh_windows_open(name);
                let total: usize = self.windows_total();
                proof {
                    lemma_place(self.ssh_windows@, name@);
                    if has_name(self.ssh_windows@, name@) {
                        lemma_windows_changed(
                            self.ssh_windows@,
                            self.ssh_windows@[place_of(self.ssh_windows@, name@)],
                        );
                    }
                }
                let fresh = Windows {
                    name: name.to_owned(),
                    open: if total < usize::MAX {
                        was + 1
                    } else {
                        was
                    },
                };
                proof {
                    law_put_in_is_there(self.ssh_windows@, fresh);
                    lemma_windows_changed(self.ssh_windows@, fresh);
                    law_taken_out_is_gone(self.ssh_last@, name@, name@);
                }
                put(&mut self.ssh_windows, fresh);
                let _ = take_out(&mut self.ssh_last, name);
                let msg = cat5("'", name, "' opened in a new ", program, " window");
                effects::report(&mut out, LogTarget::Ssh(name.to_owned()), msg.as_str(), false);
                assert(acts(out@) =~= reported(Subject::Ssh(name@), msg@, false));
            },
            Err(e) => {
                let msg = cat4("'", name, "': ", e.as_str());
                effects::report(&mut out, LogTarget::Ssh(name.to_owned()), msg.as_str(), true);
                assert(acts(out@) =~= reported(Subject::Ssh(name@), msg@, true));
            },
        }
        out
    }

    /// What became of a session that ran in this terminal.
    pub fn session_ended(
        &mut self,
        name: &str,
        result: Result<SessionOutcome, String>,
    ) -> (r: Vec<Effect>)
        requires
            old(self).wf(),
        ensures
            final(self).wf(),
            match result {
                Ok(o) => {
                    &&& last_is(*old(self), *final(self), name@, o)
                    &&& acts(r@) == reported(
                        Subject::Ssh(name@),
                        "'"@ + name@ + "' session "@ + ending_text(o),
                        !o.windowed && o.code != 0,
                    )
                },
                Err(e) => {
                    &&& *final(self) == *old(self)
                    &&& acts(r@) == reported(
                        Subject::Ssh(name@),
                        "'"@ + name@ + "': "@ + e@,
                        true,
                    )
                },
            },
    {
        let mut out = effects::nothing();
        match result {
            Ok(o) => {
                let msg = cat4("'", name, "' session ", ending(&o).as_str());
                let bad = o.failed();
                self.remember(name, o);
                effects::report(&mut out, LogTarget::Ssh(name.to_owned()), msg.as_str(), bad);
                assert(msg@ =~= "'"@ + name@ + "' session "@ + ending_text(o));
                assert(acts(out@) =~= reported(Subject::Ssh(name@), msg@, bad));
            },
            Err(e) => {
                let msg = cat4("'", name, "': ", e.as_str());
                effects::report(&mut out, LogTarget::Ssh(name.to_owned()), msg.as_str(), true);
                assert(acts(out@) =~= reported(Subject::Ssh(name@), msg@, true));
            },
        }
        out
    }

    /// Keep how a host's last session ended.
    fn remember(&mut self, name: &str, outcome: SessionOutcome)
        requires
            old(self).wf(),
        ensures
            final(self).wf(),
            last_is(*old(self), *final(self), name@, outcome),
    {
        let fresh = LastSession { name: name.to_owned(), outcome };
        proof {
            law_put_in_is_there(self.ssh_last@, fresh);
        }
        put(&mut self.ssh_last, fresh);
    }

    /// A window was closed since the last look.
    #[verifier::rlimit(30)]
    pub fn window_closed(&mut self, name: &str, outcome: SessionOutcome) -> (r: Vec<Effect>)
        requires
            old(self).wf(),
        ensures
            final(self).wf(),
            last_is(
                App { ssh_windows: final(self).ssh_windows, ..*old(self) },
                *final(self),
                name@,
                outcome,
            ),
            one_fewer(old(self).ssh_windows@, final(self).ssh_windows@, name@),
            acts(r@) == seq![
                Act::Note(Subject::Ssh(name@), "session "@ + ending_text(outcome), false),
            ],
    {
        let ghost a = *self;
        let open: usize = self.ssh_windows_open(name);
        proof {
            law_taken_out_is_gone(self.ssh_windows@, name@, name@);
            if has_name(self.ssh_windows@, name@) {
                lemma_place(self.ssh_windows@, name@);
                lemma_windows_changed(
                    self.ssh_windows@,
                    self.ssh_windows@[place_of(self.ssh_windows@, name@)],
                );
            } else {
                assert(without(self.ssh_windows@, name@) == self.ssh_windows@);
            }
        }
        let _ = take_out(&mut self.ssh_windows, name);
        if open > 1 {
            let left = Windows { name: name.to_owned(), open: open - 1 };
            proof {
                law_put_in_is_there(self.ssh_windows@, left);
                lemma_windows_changed(self.ssh_windows@, left);
                assert(without(without(a.ssh_windows@, name@), name@) == without(
                    a.ssh_windows@,
                    name@,
                ));
            }
            put(&mut self.ssh_windows, left);
        }
        self.remember(name, outcome);
        effects::just(
            Effect::Note(
                LogTarget::Ssh(name.to_owned()),
                cat("session ", ending(&outcome).as_str()),
                false,
            ),
        )
    }
}

/// How a host's last session ended has been kept.
pub open spec fn last_is(a: App, b: App, name: Seq<char>, o: SessionOutcome) -> bool {
    &&& b == (App { ssh_last: b.ssh_last, ..a })
    &&& b.ssh_last@.len() > 0
    &&& b.ssh_last@.last().name@ == name
    &&& b.ssh_last@.last().outcome == o
    &&& b.ssh_last@ == with_one(a.ssh_last@, b.ssh_last@.last())
}

/// The windows with one of a host closed; a host with none left is gone.
pub open spec fn one_fewer(a: Seq<Windows>, b: Seq<Windows>, name: Seq<char>) -> bool {
    if has_name(a, name) && a[place_of(a, name)].open > 1 {
        &&& b.len() > 0
        &&& b.last().name@ == name
        &&& b.last().open == a[place_of(a, name)].open - 1
        &&& b == with_one(a, b.last())
    } else {
        b == without(a, name)
    }
}

// ---------------------------------------------------------------------------
// The form
// ---------------------------------------------------------------------------

/// A row that shows the entry at this place.
pub open spec fn row_for(idx: int) -> spec_fn(RowItem) -> bool {
    |r: RowItem| r@ == crate::rows::Line::Item(idx)
}

/// A cursor that follows an entry to its row, and stays where it is where there
/// is none.
pub open spec fn following(rows: Seq<RowItem>, idx: int, at: int) -> int {
    let k = first_where(rows, row_for(idx));
    if k < rows.len() {
        k
    } else {
        at
    }
}

pub fn follow(rows: &Vec<RowItem>, idx: usize, at: usize) -> (r: usize)
    requires
        cursor_ok(at as int, rows@.len() as int),
    ensures
        r == following(rows@, idx as int, at as int),
        cursor_ok(r as int, rows@.len() as int),
{
    let ghost p = row_for(idx as int);
    let mut i: usize = 0;
    while i < rows.len()
        invariant
            i <= rows@.len(),
            p == row_for(idx as int),
            cursor_ok(at as int, rows@.len() as int),
            forall|k: int| 0 <= k < i ==> !p(#[trigger] rows@[k]),
        decreases rows@.len() - i,
    {
        let here = match &rows[i] {
            RowItem::Item(n) => *n == idx,
            RowItem::Group(_) => false,
        };
        if here {
            proof {
                lemma_first_where_is(rows@, p, i as int);
            }
            return i;
        }
        i = i + 1;
    }
    proof {
        lemma_first_where_is(rows@, p, i as int);
    }
    at
}

/// An error of a form.
pub open spec fn ssh_form_says(a: SshForm, b: SshForm, why: Seq<char>) -> bool {
    b == (SshForm { error: b.error, ..a }) && opt_string(b.error) == Some(why)
}

/// The entry a form edits.
pub open spec fn edited_host(mode: SshMode) -> Option<int> {
    match mode {
        SshMode::Edit(i) => Some(i as int),
        _ => None,
    }
}

/// The form has been submitted with a host that it gives.
pub open spec fn stored_host(a: App, b: App, h: SshHost, out: Seq<Act>) -> bool {
    let editing = edited_host(a.ssh_mode);
    let idx = match editing {
        Some(i) => i,
        None => a.ssh_hosts@.len() as int,
    };
    if name_in_use(a.ssh_hosts@, h.name@, editing) {
        &&& b == (App { ssh_form: b.ssh_form, ..a })
        &&& ssh_form_says(a.ssh_form, b.ssh_form, "a host named '"@ + h.name@ + "' already exists"@)
        &&& out.len() == 0
    } else if h.password@.len() > 0 && !a.ssh_form.password_ack {
        // Storing a password writes it to disk in the clear; the user has to
        // say so.
        &&& b == (App { ssh_return_mode: a.ssh_mode, ssh_mode: SshMode::PasswordWarning, ..a })
        &&& out.len() == 0
    } else {
        &&& b == (App {
            ssh_hosts: b.ssh_hosts,
            ssh_rows: b.ssh_rows,
            ssh_selected: b.ssh_selected,
            ssh_mode: SshMode::Closed,
            ..a
        })
        &&& b.ssh_hosts@ == placed(a.ssh_hosts@, h, editing)
        &&& rows_ok(b.ssh_rows@, b.ssh_hosts@)
        // Grouping it moved its row; the cursor follows it rather than sit on
        // whatever took its place.
        &&& b.ssh_selected == following(
            b.ssh_rows@,
            idx,
            clamped(a.ssh_selected as int, b.ssh_rows@.len() as int),
        )
        &&& out == seq![Act::Save(Store::Ssh)]
    }
}

/// The ssh form has been submitted.
pub open spec fn submitted_host(a: App, b: App, out: Seq<Act>) -> bool {
    match a.ssh_form.fault() {
        Some(why) => {
            &&& b == (App { ssh_form: b.ssh_form, ..a })
            &&& ssh_form_says(a.ssh_form, b.ssh_form, why)
            &&& out.len() == 0
        },
        None => exists|h: SshHost| a.ssh_form.gives(h) && #[trigger] stored_host(a, b, h, out),
    }
}

/// A host has been deleted.
pub open spec fn deleted_host(a: App, b: App, idx: int, out: Seq<Act>) -> bool {
    if idx >= a.ssh_hosts@.len() {
        b == (App { ssh_mode: SshMode::Closed, ..a }) && out.len() == 0
    } else {
        let name = a.ssh_hosts@[idx].name@;
        &&& b == (App {
            ssh_hosts: b.ssh_hosts,
            ssh_rows: b.ssh_rows,
            ssh_selected: b.ssh_selected,
            ssh_last: b.ssh_last,
            ssh_mode: SshMode::Closed,
            ssh_return_mode: SshMode::Closed,
            ..a
        })
        &&& b.ssh_hosts@ == a.ssh_hosts@.remove(idx)
        &&& b.ssh_last@ == without(a.ssh_last@, name)
        &&& rows_ok(b.ssh_rows@, b.ssh_hosts@)
        &&& b.ssh_selected == clamped(a.ssh_selected as int, b.ssh_rows@.len() as int)
        &&& out == seq![Act::Save(Store::Ssh), Act::Flash("deleted '"@ + name + "'"@, false)]
    }
}

/// `p` on the SSH tab: a stored cleartext password is dropped without opening
/// the form.
pub open spec fn forgot_password(a: App, b: App, out: Seq<Act>) -> bool {
    match App::entry_at(a.ssh_rows@, a.ssh_selected as int) {
        None => b == a && out.len() == 0,
        Some(i) => {
            let h = a.ssh_hosts@[i];
            if h.password@.len() == 0 {
                b == a && out == seq![Act::Flash("no password stored for this host"@, false)]
            } else {
                &&& b == (App { ssh_hosts: b.ssh_hosts, ..a })
                &&& b.ssh_hosts@ == a.ssh_hosts@.update(i, b.ssh_hosts@[i])
                &&& b.ssh_hosts@[i] == (SshHost { password: b.ssh_hosts@[i].password, ..h })
                &&& b.ssh_hosts@[i].password@.len() == 0
                &&& out == seq![
                    Act::Save(Store::Ssh),
                    Act::Flash("cleared stored password for '"@ + h.name@ + "'"@, false),
                ]
            }
        },
    }
}

/// `c` on the SSH tab: how the last session of the host under the cursor ended
/// is forgotten.
pub open spec fn cleared_ssh(a: App, b: App, out: Seq<Act>) -> bool {
    match App::entry_at(a.ssh_rows@, a.ssh_selected as int) {
        None => b == a && out.len() == 0,
        Some(i) => {
            let name = a.ssh_hosts@[i].name@;
            &&& b == (App { ssh_last: b.ssh_last, ..a })
            &&& b.ssh_last@ == without(a.ssh_last@, name)
            &&& out == seq![
                if has_name(a.ssh_last@, name) {
                    Act::Flash("cleared the last session of '"@ + name + "'"@, false)
                } else {
                    Act::Flash("nothing finished to clear"@, false)
                },
            ]
        },
    }
}

impl App {
    /// Lay the ssh hosts out again.
    pub fn rebuild_ssh_rows(&mut self)
        ensures
            rows_ok(final(self).ssh_rows@, old(self).ssh_hosts@),
            final(self).ssh_selected == clamped(
                old(self).ssh_selected as int,
                final(self).ssh_rows@.len() as int,
            ),
            *final(self) == (App {
                ssh_rows: final(self).ssh_rows,
                ssh_selected: final(self).ssh_selected,
                ..*old(self)
            }),
    {
        self.ssh_rows = build_rows(self.ssh_hosts.as_slice());
        self.ssh_selected = clamp(self.ssh_selected, self.ssh_rows.len());
    }

    /// `a` on the SSH tab: an empty form, in the group under the cursor.
    pub fn add_ssh(&mut self)
        requires
            old(self).wf(),
        ensures
            final(self).wf(),
            final(self).ssh_form.blank(old(self).vpn.providers@, old(self).tunnels@),
            final(self).ssh_form.group@ == group_under(
                old(self).ssh_rows@,
                old(self).ssh_selected as int,
                old(self).ssh_hosts@,
            ),
            *final(self) == (App {
                ssh_form: final(self).ssh_form,
                ssh_mode: SshMode::Add,
                ..*old(self)
            }),
    {
        let mut form = SshForm::empty(self.form_ctx());
        form.group = group_at(&self.ssh_rows, self.ssh_selected, self.ssh_hosts.as_slice());
        self.ssh_form = form;
        self.ssh_mode = SshMode::Add;
    }

    /// `e` on the SSH tab: the form on the host under the cursor.
    pub fn edit_ssh(&mut self)
        requires
            old(self).wf(),
        ensures
            final(self).wf(),
            match App::entry_at(old(self).ssh_rows@, old(self).ssh_selected as int) {
                None => *final(self) == *old(self),
                Some(i) => {
                    &&& final(self).ssh_form.opened(
                        old(self).ssh_hosts@[i],
                        old(self).vpn.providers@,
                        old(self).tunnels@,
                    )
                    &&& *final(self) == (App {
                        ssh_form: final(self).ssh_form,
                        ssh_mode: SshMode::Edit(i as usize),
                        ..*old(self)
                    })
                },
            },
    {
        match self.selected_ssh_host() {
            Some(i) => {
                let form = SshForm::from_host(&self.ssh_hosts[i], self.form_ctx());
                self.ssh_form = form;
                self.ssh_mode = SshMode::Edit(i);
            },
            None => {},
        }
    }

    /// `d` on the SSH tab: ask whether to delete the host under the cursor.
    pub fn ask_delete_ssh(&mut self)
        requires
            old(self).wf(),
        ensures
            final(self).wf(),
            match App::entry_at(old(self).ssh_rows@, old(self).ssh_selected as int) {
                None => *final(self) == *old(self),
                Some(i) => *final(self) == (App {
                    ssh_mode: SshMode::DeleteConfirm(i as usize),
                    ..*old(self)
                }),
            },
    {
        match self.selected_ssh_host() {
            Some(i) => {
                self.ssh_mode = SshMode::DeleteConfirm(i);
            },
            None => {},
        }
    }

    /// Enter in the ssh form.
    pub fn submit_ssh_form(&mut self) -> (r: Vec<Effect>)
        requires
            old(self).wf(),
        ensures
            final(self).wf(),
            submitted_host(*old(self), *final(self), acts(r@)),
    {
        match self.ssh_form.to_host() {
            Err(e) => {
                self.ssh_form.error = Some(e);
                effects::nothing()
            },
            Ok(h) => {
                let ghost a = *self;
                let r = self.store_host(h);
                assert(stored_host(a, *self, h, acts(r@)));
                r
            },
        }
    }

    #[verifier::rlimit(30)]
    fn store_host(&mut self, h: SshHost) -> (r: Vec<Effect>)
        requires
            old(self).wf(),
        ensures
            final(self).wf(),
            stored_host(*old(self), *final(self), h, acts(r@)),
    {
        let editing: Option<usize> = match self.ssh_mode {
            SshMode::Edit(i) => Some(i),
            _ => None,
        };
        if name_taken(self.ssh_hosts.as_slice(), h.name.as_str(), editing) {
            self.ssh_form.error = Some(cat3("a host named '", h.name.as_str(), "' already exists"));
            return effects::nothing();
        }
        if !h.password.as_str().is_empty() && !self.ssh_form.password_ack {
            self.ssh_return_mode = self.ssh_mode;
            self.ssh_mode = SshMode::PasswordWarning;
            return effects::nothing();
        }
        let idx: usize = match editing {
            Some(i) => {
                self.ssh_hosts[i] = h;
                i
            },
            None => {
                self.ssh_hosts.push(h);
                self.ssh_hosts.len() - 1
            },
        };
        self.ssh_mode = SshMode::Closed;
        self.rebuild_ssh_rows();
        self.ssh_selected = follow(&self.ssh_rows, idx, self.ssh_selected);
        effects::just(Effect::Save(Store::Ssh))
    }

    /// Delete a host.
    pub fn delete_ssh(&mut self, idx: usize) -> (r: Vec<Effect>)
        requires
            old(self).wf(),
        ensures
            final(self).wf(),
            deleted_host(*old(self), *final(self), idx as int, acts(r@)),
    {
        self.ssh_mode = SshMode::Closed;
        let mut out = effects::nothing();
        if idx >= self.ssh_hosts.len() {
            return out;
        }
        self.ssh_return_mode = SshMode::Closed;
        let name = self.ssh_hosts[idx].name.clone();
        proof {
            law_taken_out_is_gone(self.ssh_last@, name@, name@);
        }
        let _ = take_out(&mut self.ssh_last, name.as_str());
        let _ = self.ssh_hosts.remove(idx);
        self.rebuild_ssh_rows();
        effects::ask(&mut out, Effect::Save(Store::Ssh));
        effects::ask(&mut out, Effect::Flash(cat3("deleted '", name.as_str(), "'"), false));
        assert(acts(out@) =~= seq![
            Act::Save(Store::Ssh),
            Act::Flash("deleted '"@ + name@ + "'"@, false),
        ]);
        out
    }

    /// `p` on the SSH tab.
    pub fn clear_stored_password(&mut self) -> (r: Vec<Effect>)
        requires
            old(self).wf(),
        ensures
            final(self).wf(),
            forgot_password(*old(self), *final(self), acts(r@)),
    {
        let i: usize = match self.selected_ssh_host() {
            None => {
                return effects::nothing();
            },
            Some(i) => i,
        };
        if self.ssh_hosts[i].password.as_str().is_empty() {
            return effects::just(
                Effect::Flash("no password stored for this host".to_owned(), false),
            );
        }
        let ghost a = *self;
        let name = self.ssh_hosts[i].name.clone();
        self.ssh_hosts[i].password = String::new();
        assert(groups_of(self.ssh_hosts@) =~= groups_of(a.ssh_hosts@));
        let mut out = effects::nothing();
        effects::ask(&mut out, Effect::Save(Store::Ssh));
        effects::ask(
            &mut out,
            Effect::Flash(cat3("cleared stored password for '", name.as_str(), "'"), false),
        );
        assert(acts(out@) =~= seq![
            Act::Save(Store::Ssh),
            Act::Flash("cleared stored password for '"@ + name@ + "'"@, false),
        ]);
        out
    }

    /// `c` on the SSH tab.
    pub fn clear_finished_ssh(&mut self) -> (r: Vec<Effect>)
        requires
            old(self).wf(),
        ensures
            final(self).wf(),
            cleared_ssh(*old(self), *final(self), acts(r@)),
    {
        let i: usize = match self.selected_ssh_host() {
            None => {
                return effects::nothing();
            },
            Some(i) => i,
        };
        let name = self.ssh_hosts[i].name.clone();
        proof {
            law_taken_out_is_gone(self.ssh_last@, name@, name@);
        }
        if take_out(&mut self.ssh_last, name.as_str()).is_some() {
            effects::just(
                Effect::Flash(cat3("cleared the last session of '", name.as_str(), "'"), false),
            )
        } else {
            effects::just(Effect::Flash("nothing finished to clear".to_owned(), false))
        }
    }
}

/// A password is never written to disk before the warning was accepted.
pub proof fn law_no_password_stored_unasked(a: App, b: App, out: Seq<Act>)
    requires
        submitted_host(a, b, out),
        a.ssh_form.fault() is None,
        a.ssh_form.password@.len() > 0,
        !a.ssh_form.password_ack,
    ensures
        b.ssh_hosts == a.ssh_hosts,
        out.len() == 0,
{
    let h = choose|h: SshHost| a.ssh_form.gives(h) && #[trigger] stored_host(a, b, h, out);
    assert(stored_host(a, b, h, out));
}

}
