//! The log pane, the file picker, and what is told to the user.

use vstd::prelude::*;
use crate::app::App;
use crate::browser::{opt_string, FileBrowser};
use crate::cursor::{row_above, row_below};
use crate::effects::{self, acts, reported, Act, Effect, Store};
use crate::form_keys::{drop_char, set_to};
use crate::live::{LiveOvpn, LiveRdp, LiveTunnel};
use crate::logs::{covers_spec, hidden, shown, Entry, Journal, LogTarget, Ring, Subject};
use crate::path::{above, joined_path, name_of, slashed};
use crate::queries::{ovpn_lines, rdp_lines, tunnel_lines};
use crate::screen::{scroll_back, scroll_on, scrolled_to, Key, KeyCode, LogPane, StatusMsg};
use crate::ssh_form::{SshField, SshForm, SshMode};
use crate::text::cat;
use crate::vpn::ProviderId;
use crate::vpn_form::{VpnForm, VpnKey, VpnMode};

verus! {

// ---------------------------------------------------------------------------
// Telling the user
// ---------------------------------------------------------------------------

/// Something has been said or kept, or it is not of that kind.
pub open spec fn settled(a: App, b: App, e: Effect, now: u64) -> bool {
    match e {
        Effect::Flash(text, error) => {
            &&& b == (App { status_msg: b.status_msg, ..a })
            &&& b.status_msg is Some
            &&& (b.status_msg->0).text == text
            &&& (b.status_msg->0).error == error
            &&& (b.status_msg->0).at == now
        },
        Effect::Note(to, text, error) => {
            &&& b == (App { journal: b.journal, ..a })
            &&& Journal::recorded(a.journal.held(), b.journal.held(), now, to, text@, error)
        },
        _ => b == a,
    }
}

/// What is said of a file of settings that was to be written.
pub open spec fn stored_acts(
    store: Store,
    result: Result<(), String>,
    then_say: Option<(String, bool)>,
) -> Seq<Act> {
    match result {
        Ok(()) => match then_say {
            Some((t, error)) => seq![Act::Flash(t@, error)],
            None => Seq::empty(),
        },
        Err(e) => match store {
            Store::Config => Seq::empty(),
            Store::Vpn => seq![Act::Flash("could not save vpn.toml: "@ + e@, true)],
            _ => seq![Act::Flash("save failed: "@ + e@, true)],
        },
    }
}

impl App {
    /// Say it in the status bar, or keep it in a log. Whatever else is asked for
    /// is left alone.
    pub fn settle(&mut self, e: Effect, now: u64)
        requires
            old(self).wf(),
        ensures
            final(self).wf(),
            settled(*old(self), *final(self), e, now),
    {
        match e {
            Effect::Flash(text, error) => {
                self.status_msg = Some(StatusMsg { text, error, at: now });
            },
            Effect::Note(to, text, error) => {
                if error {
                    self.journal.fail(now, to, text.as_str());
                } else {
                    self.journal.note(now, to, text.as_str());
                }
            },
            _ => {},
        }
    }

    /// What became of writing a file of settings.
    pub fn store_written(
        &self,
        store: Store,
        result: Result<(), String>,
        then_say: Option<(String, bool)>,
    ) -> (r: Vec<Effect>)
        ensures
            acts(r@) == stored_acts(store, result, then_say),
    {
        match result {
            Ok(()) => match then_say {
                Some((t, error)) => effects::just(Effect::Flash(t, error)),
                None => effects::nothing(),
            },
            Err(e) => match store {
                Store::Config => effects::nothing(),
                Store::Vpn => effects::just(
                    Effect::Flash(cat("could not save vpn.toml: ", e.as_str()), true),
                ),
                _ => effects::just(Effect::Flash(cat("save failed: ", e.as_str()), true)),
            },
        }
    }

    /// What became of writing a report: where it went, or why it did not.
    pub fn report_written(&self, target: LogTarget, result: Result<String, String>) -> (r: Vec<
        Effect,
    >)
        ensures
            acts(r@) == match result {
                Ok(path) => reported(target@, "report written to "@ + path@, false),
                Err(e) => reported(target@, "report failed: "@ + e@, true),
            },
    {
        let mut out = effects::nothing();
        let ghost who = target@;
        match result {
            Ok(path) => {
                let msg = cat("report written to ", path.as_str());
                effects::report(&mut out, target, msg.as_str(), false);
                assert(acts(out@) =~= reported(who, msg@, false));
            },
            Err(e) => {
                let msg = cat("report failed: ", e.as_str());
                effects::report(&mut out, target, msg.as_str(), true);
                assert(acts(out@) =~= reported(who, msg@, true));
            },
        }
        out
    }
}

// ---------------------------------------------------------------------------
// The log pane
//
// One pane, opened from every tab with `l` and exported with `s`. What it shows
// is what controlcenter did about a connection merged with what the process it
// started printed — the two halves of any answer to "why did that not come up".
// ---------------------------------------------------------------------------

/// `l` on any tab.
pub open spec fn opened_log(a: App, b: App, out: Seq<Act>) -> bool {
    match a.target_spec() {
        Ok(t) => {
            &&& b == (App { log_pane: b.log_pane, ..a })
            &&& b.log_pane is Some
            &&& (b.log_pane->0).target@ == t
            &&& (b.log_pane->0).scroll == 0
            &&& out.len() == 0
        },
        Err(why) => b == a && out == seq![Act::Flash(why, true)],
    }
}

/// `s`: a report is written on what the pane is about, or on what is under the
/// cursor. It is deliberately far more than the pane shows, because the file is
/// read somewhere else, by someone without the program in front of them.
pub open spec fn export_acts(a: App) -> Seq<Act> {
    match a.log_pane {
        Some(p) => seq![Act::Export(p.target@)],
        None => match a.target_spec() {
            Ok(t) => seq![Act::Export(t)],
            Err(why) => seq![Act::Flash(why, true)],
        },
    }
}

/// A ring whose lines have been thrown away, or one that was left alone.
pub open spec fn ring_cleared(a: Ring, b: Ring, hit: bool) -> bool {
    if hit {
        b.held().len() == 0 && b.of() == a.of()
    } else {
        b == a
    }
}

/// `c` in the pane: what is in it is thrown away, on both sides of the merge.
pub open spec fn cleared_log(a: App, b: App, t: Subject) -> bool {
    &&& b == (App {
        active: b.active,
        rdp_active: b.rdp_active,
        ovpn_active: b.ovpn_active,
        journal: b.journal,
        log_pane: b.log_pane,
        ..a
    })
    &&& b.journal.held() == hidden(a.journal.held(), t)
    &&& b.log_pane is Some && (b.log_pane->0).scroll == 0
    &&& a.log_pane is Some && (b.log_pane->0).target == (a.log_pane->0).target
    &&& b.active@.len() == a.active@.len()
    &&& forall|i: int|
        0 <= i < a.active@.len() ==> {
            let x = #[trigger] b.active@[i];
            &&& x == (LiveTunnel { log: x.log, ..a.active@[i] })
            &&& ring_cleared(
                a.active@[i].log,
                x.log,
                covers_spec(t, Subject::Tunnel(a.active@[i].name@)),
            )
        }
    &&& b.rdp_active@.len() == a.rdp_active@.len()
    &&& forall|i: int|
        0 <= i < a.rdp_active@.len() ==> {
            let x = #[trigger] b.rdp_active@[i];
            &&& x == (LiveRdp { log: x.log, ..a.rdp_active@[i] })
            &&& ring_cleared(
                a.rdp_active@[i].log,
                x.log,
                covers_spec(t, Subject::Rdp(a.rdp_active@[i].name@)),
            )
        }
    &&& b.ovpn_active@.len() == a.ovpn_active@.len()
    &&& forall|i: int|
        0 <= i < a.ovpn_active@.len() ==> {
            let x = #[trigger] b.ovpn_active@[i];
            &&& x == (LiveOvpn { log: x.log, ..a.ovpn_active@[i] })
            &&& ring_cleared(
                a.ovpn_active@[i].log,
                x.log,
                covers_spec(t, Subject::Vpn(ProviderId::Openvpn, a.ovpn_active@[i].name@)),
            )
        }
}

/// The pane has been scrolled by so many lines.
pub open spec fn pane_scrolled(a: App, b: App, p: LogPane, by: int) -> bool {
    &&& b == (App { log_pane: b.log_pane, ..a })
    &&& b.log_pane is Some
    &&& b.log_pane->0 == (LogPane { scroll: (b.log_pane->0).scroll, ..p })
    &&& (b.log_pane->0).scroll == scrolled_to(
        p.scroll as int,
        by,
        a.lines_for(p.target@).len() as int,
    )
}

/// A key in the pane, which means the same thing wherever it was opened.
pub open spec fn log_keyed(a: App, b: App, key: Key, out: Seq<Act>) -> bool {
    match a.log_pane {
        None => b == a && out.len() == 0,
        Some(p) => match key.code {
            KeyCode::Up => pane_scrolled(a, b, p, 1) && out.len() == 0,
            KeyCode::Down => pane_scrolled(a, b, p, -1) && out.len() == 0,
            KeyCode::PageUp => pane_scrolled(a, b, p, a.log_page as int) && out.len() == 0,
            KeyCode::PageDown => pane_scrolled(a, b, p, -(a.log_page as int)) && out.len() == 0,
            KeyCode::Char(c) => if c == 'c' {
                cleared_log(a, b, p.target@) && out.len() == 0
            } else if c == 's' {
                b == a && out == export_acts(a)
            } else if key.closes_view_spec() {
                b == (App { log_pane: None, ..a }) && out.len() == 0
            } else {
                b == a && out.len() == 0
            },
            _ => if key.closes_view_spec() {
                b == (App { log_pane: None, ..a }) && out.len() == 0
            } else {
                b == a && out.len() == 0
            },
        },
    }
}

fn clear_tunnel_logs(v: &mut Vec<LiveTunnel>, t: &LogTarget)
    ensures
        final(v)@.len() == old(v)@.len(),
        forall|i: int|
            0 <= i < old(v)@.len() ==> {
                let x = #[trigger] final(v)@[i];
                &&& x == (LiveTunnel { log: x.log, ..old(v)@[i] })
                &&& ring_cleared(
                    old(v)@[i].log,
                    x.log,
                    covers_spec(t@, Subject::Tunnel(old(v)@[i].name@)),
                )
            },
{
    let ghost a = v@;
    let mut i: usize = 0;
    while i < v.len()
        invariant
            i <= v@.len(),
            v@.len() == a.len(),
            forall|k: int| i <= k < a.len() ==> #[trigger] v@[k] == a[k],
            forall|k: int|
                0 <= k < i ==> {
                    let x = #[trigger] v@[k];
                    &&& x == (LiveTunnel { log: x.log, ..a[k] })
                    &&& ring_cleared(
                        a[k].log,
                        x.log,
                        covers_spec(t@, Subject::Tunnel(a[k].name@)),
                    )
                },
        decreases v@.len() - i,
    {
        let who = LogTarget::Tunnel(v[i].name.clone());
        if t.covers(&who) {
            v[i].log.clear();
        }
        i = i + 1;
    }
}

fn clear_rdp_logs(v: &mut Vec<LiveRdp>, t: &LogTarget)
    ensures
        final(v)@.len() == old(v)@.len(),
        forall|i: int|
            0 <= i < old(v)@.len() ==> {
                let x = #[trigger] final(v)@[i];
                &&& x == (LiveRdp { log: x.log, ..old(v)@[i] })
                &&& ring_cleared(
                    old(v)@[i].log,
                    x.log,
                    covers_spec(t@, Subject::Rdp(old(v)@[i].name@)),
                )
            },
{
    let ghost a = v@;
    let mut i: usize = 0;
    while i < v.len()
        invariant
            i <= v@.len(),
            v@.len() == a.len(),
            forall|k: int| i <= k < a.len() ==> #[trigger] v@[k] == a[k],
            forall|k: int|
                0 <= k < i ==> {
                    let x = #[trigger] v@[k];
                    &&& x == (LiveRdp { log: x.log, ..a[k] })
                    &&& ring_cleared(a[k].log, x.log, covers_spec(t@, Subject::Rdp(a[k].name@)))
                },
        decreases v@.len() - i,
    {
        let who = LogTarget::Rdp(v[i].name.clone());
        if t.covers(&who) {
            v[i].log.clear();
        }
        i = i + 1;
    }
}

fn clear_ovpn_logs(v: &mut Vec<LiveOvpn>, t: &LogTarget)
    ensures
        final(v)@.len() == old(v)@.len(),
        forall|i: int|
            0 <= i < old(v)@.len() ==> {
                let x = #[trigger] final(v)@[i];
                &&& x == (LiveOvpn { log: x.log, ..old(v)@[i] })
                &&& ring_cleared(
                    old(v)@[i].log,
                    x.log,
                    covers_spec(t@, Subject::Vpn(ProviderId::Openvpn, old(v)@[i].name@)),
                )
            },
{
    let ghost a = v@;
    let mut i: usize = 0;
    while i < v.len()
        invariant
            i <= v@.len(),
            v@.len() == a.len(),
            forall|k: int| i <= k < a.len() ==> #[trigger] v@[k] == a[k],
            forall|k: int|
                0 <= k < i ==> {
                    let x = #[trigger] v@[k];
                    &&& x == (LiveOvpn { log: x.log, ..a[k] })
                    &&& ring_cleared(
                        a[k].log,
                        x.log,
                        covers_spec(t@, Subject::Vpn(ProviderId::Openvpn, a[k].name@)),
                    )
                },
        decreases v@.len() - i,
    {
        let who = LogTarget::Vpn(ProviderId::Openvpn, v[i].name.clone());
        if t.covers(&who) {
            v[i].log.clear();
        }
        i = i + 1;
    }
}

impl App {
    /// `l` on any tab.
    pub fn open_log(&mut self) -> (r: Vec<Effect>)
        requires
            old(self).wf(),
        ensures
            final(self).wf(),
            opened_log(*old(self), *final(self), acts(r@)),
    {
        match self.selection_target() {
            Ok(target) => {
                self.log_pane = Some(LogPane { target, scroll: 0 });
                effects::nothing()
            },
            Err(why) => effects::just(Effect::Flash(why, true)),
        }
    }

    /// `s` on any tab, and in the pane.
    pub fn export_log(&self) -> (r: Vec<Effect>)
        requires
            self.wf(),
        ensures
            acts(r@) == export_acts(*self),
    {
        match &self.log_pane {
            Some(p) => effects::just(Effect::Export(p.target.clone())),
            None => match self.selection_target() {
                Ok(t) => effects::just(Effect::Export(t)),
                Err(why) => effects::just(Effect::Flash(why, true)),
            },
        }
    }

    /// `c` in the pane.
    fn clear_log(&mut self)
        requires
            old(self).wf(),
            old(self).log_pane is Some,
        ensures
            final(self).wf(),
            cleared_log(*old(self), *final(self), (old(self).log_pane->0).target@),
    {
        let target = match &self.log_pane {
            Some(p) => p.target.clone(),
            None => {
                return ;
            },
        };
        clear_tunnel_logs(&mut self.active, &target);
        clear_rdp_logs(&mut self.rdp_active, &target);
        clear_ovpn_logs(&mut self.ovpn_active, &target);
        self.journal.clear_for(&target);
        self.log_pane = Some(LogPane { target, scroll: 0 });
    }

    fn scroll_log(&mut self, back: bool, by: usize)
        requires
            old(self).wf(),
            old(self).log_pane is Some,
        ensures
            final(self).wf(),
            pane_scrolled(
                *old(self),
                *final(self),
                old(self).log_pane->0,
                if back {
                    by as int
                } else {
                    -(by as int)
                },
            ),
    {
        let ghost a = *self;
        let lines: usize = match &self.log_pane {
            Some(p) => {
                let all = self.log_lines(&p.target);
                proof {
                    crate::sort::law_sorted(a.lines_for(p.target@));
                }
                all.len()
            },
            None => 0,
        };
        match self.log_pane.take() {
            Some(p) => {
                let mut p = p;
                p.scroll = if back {
                    scroll_back(p.scroll, by, lines)
                } else {
                    scroll_on(p.scroll, by, lines)
                };
                self.log_pane = Some(p);
            },
            None => {},
        }
    }

    /// A key in the pane.
    pub fn on_log_key(&mut self, key: Key) -> (r: Vec<Effect>)
        requires
            old(self).wf(),
        ensures
            final(self).wf(),
            log_keyed(*old(self), *final(self), key, acts(r@)),
    {
        if self.log_pane.is_none() {
            return effects::nothing();
        }
        match key.code {
            KeyCode::Up => self.scroll_log(true, 1),
            KeyCode::Down => self.scroll_log(false, 1),
            KeyCode::PageUp => self.scroll_log(true, self.log_page),
            KeyCode::PageDown => self.scroll_log(false, self.log_page),
            KeyCode::Char(c) => {
                if c == 'c' {
                    self.clear_log();
                } else if c == 's' {
                    return self.export_log();
                } else if key.closes_view() {
                    self.log_pane = None;
                }
            },
            _ => {
                if key.closes_view() {
                    self.log_pane = None;
                }
            },
        }
        effects::nothing()
    }
}

/// A pane that was cleared shows nothing.
pub proof fn law_cleared_pane_is_empty(a: App, b: App, t: Subject)
    requires
        cleared_log(a, b, t),
    ensures
        b.lines_for(t).len() == 0,
{
    lemma_nothing_shown(a.journal.held(), t);
    lemma_no_tunnel_lines(b.active@, t);
    lemma_no_rdp_lines(b.rdp_active@, t);
    lemma_no_ovpn_lines(b.ovpn_active@, t);
}

proof fn lemma_nothing_shown(es: Seq<(LogTarget, Entry)>, t: Subject)
    ensures
        shown(hidden(es, t), t).len() == 0,
    decreases es.len(),
{
    if es.len() > 0 {
        lemma_nothing_shown(es.drop_last(), t);
        let before = hidden(es.drop_last(), t);
        if !covers_spec(t, es.last().0@) {
            assert(before.push(es.last()).drop_last() =~= before);
        }
    }
}

proof fn lemma_no_tunnel_lines(live: Seq<LiveTunnel>, t: Subject)
    requires
        forall|i: int|
            0 <= i < live.len() ==> covers_spec(t, Subject::Tunnel((#[trigger] live[i]).name@))
                ==> live[i].log.held().len() == 0,
    ensures
        tunnel_lines(live, t).len() == 0,
    decreases live.len(),
{
    if live.len() > 0 {
        let head = live.drop_last();
        assert forall|i: int|
            0 <= i < head.len() && covers_spec(
                t,
                Subject::Tunnel((#[trigger] head[i]).name@),
            ) implies head[i].log.held().len() == 0 by {
            assert(head[i] == live[i]);
        }
        lemma_no_tunnel_lines(head, t);
        assert(live[live.len() - 1] == live.last());
    }
}

proof fn lemma_no_rdp_lines(live: Seq<LiveRdp>, t: Subject)
    requires
        forall|i: int|
            0 <= i < live.len() ==> covers_spec(t, Subject::Rdp((#[trigger] live[i]).name@))
                ==> live[i].log.held().len() == 0,
    ensures
        rdp_lines(live, t).len() == 0,
    decreases live.len(),
{
    if live.len() > 0 {
        let head = live.drop_last();
        assert forall|i: int|
            0 <= i < head.len() && covers_spec(
                t,
                Subject::Rdp((#[trigger] head[i]).name@),
            ) implies head[i].log.held().len() == 0 by {
            assert(head[i] == live[i]);
        }
        lemma_no_rdp_lines(head, t);
        assert(live[live.len() - 1] == live.last());
    }
}

proof fn lemma_no_ovpn_lines(live: Seq<LiveOvpn>, t: Subject)
    requires
        forall|i: int|
            0 <= i < live.len() ==> covers_spec(
                t,
                Subject::Vpn(ProviderId::Openvpn, (#[trigger] live[i]).name@),
            ) ==> live[i].log.held().len() == 0,
    ensures
        ovpn_lines(live, t).len() == 0,
    decreases live.len(),
{
    if live.len() > 0 {
        let head = live.drop_last();
        assert forall|i: int|
            0 <= i < head.len() && covers_spec(
                t,
                Subject::Vpn(ProviderId::Openvpn, (#[trigger] head[i]).name@),
            ) implies head[i].log.held().len() == 0 by {
            assert(head[i] == live[i]);
        }
        lemma_no_ovpn_lines(head, t);
        assert(live[live.len() - 1] == live.last());
    }
}

// ---------------------------------------------------------------------------
// The file picker
// ---------------------------------------------------------------------------

/// What a key in the file picker leads to.
pub enum BrowserStep {
    Stay,
    Close,
    /// The directory it points at has to be read.
    List,
    /// This path is picked.
    Pick(String),
}

/// What a key in the file picker leads to, as text.
pub enum BrowserTurn {
    Stay,
    Close,
    List,
    Pick(Seq<char>),
}

impl View for BrowserStep {
    type V = BrowserTurn;

    open spec fn view(&self) -> BrowserTurn {
        match self {
            BrowserStep::Stay => BrowserTurn::Stay,
            BrowserStep::Close => BrowserTurn::Close,
            BrowserStep::List => BrowserTurn::List,
            BrowserStep::Pick(p) => BrowserTurn::Pick(p@),
        }
    }
}

impl FileBrowser {
    /// The picker points at another directory, with the cursor at the top.
    pub open spec fn retyped(a: FileBrowser, b: FileBrowser, input: Seq<char>) -> bool {
        &&& b.input@ == input
        &&& b.aimed()
        &&& b.selected == 0
        &&& b.entries == a.entries && b.home == a.home && b.os == a.os && b.error == a.error
    }

    /// It has walked into the directory under the cursor.
    pub open spec fn entered(a: FileBrowser, b: FileBrowser) -> bool {
        &&& Self::retyped(
            a,
            b,
            slashed(a.os, joined_path(a.os, a.dir@, a.entries@[a.selected as int].name@)),
        )
        &&& b.came_from == a.came_from
    }

    /// It has walked out of its directory, which is to be selected.
    pub open spec fn left(a: FileBrowser, b: FileBrowser) -> bool {
        &&& Self::retyped(a, b, above(a.os, a.dir@)->0)
        &&& opt_string(b.came_from) == name_of(a.os, a.dir@)
    }

    /// What a key does to the picker.
    pub open spec fn keyed(a: FileBrowser, b: FileBrowser, key: Key) -> bool {
        let n = a.entries@.len() as int;
        match key.code {
            KeyCode::Down | KeyCode::Tab => b == (FileBrowser { selected: b.selected, ..a })
                && b.selected == row_below(a.selected as int, n),
            KeyCode::Up | KeyCode::BackTab => b == (FileBrowser { selected: b.selected, ..a })
                && b.selected == row_above(a.selected as int, n),
            KeyCode::Right | KeyCode::Enter => if a.on_dir() {
                Self::entered(a, b)
            } else {
                b == a
            },
            KeyCode::Left => if above(a.os, a.dir@) is Some {
                Self::left(a, b)
            } else {
                b == a
            },
            KeyCode::Backspace => Self::retyped(a, b, drop_char()(a.input@)) && b.came_from
                == a.came_from,
            KeyCode::Char(c) => if key.ctrl {
                b == a
            } else {
                Self::retyped(a, b, a.input@.push(c)) && b.came_from == a.came_from
            },
            _ => b == a,
        }
    }

    /// What a key in the picker leads to.
    pub open spec fn leads_to(a: FileBrowser, key: Key) -> BrowserTurn {
        match key.code {
            KeyCode::Esc => BrowserTurn::Close,
            KeyCode::Right => if a.on_dir() {
                BrowserTurn::List
            } else {
                BrowserTurn::Stay
            },
            KeyCode::Enter => if a.on_dir() {
                BrowserTurn::List
            } else {
                match a.picked() {
                    Some(p) => BrowserTurn::Pick(p),
                    None => BrowserTurn::Stay,
                }
            },
            KeyCode::Left => if above(a.os, a.dir@) is Some {
                BrowserTurn::List
            } else {
                BrowserTurn::Stay
            },
            KeyCode::Backspace => BrowserTurn::List,
            KeyCode::Char(_) => if key.ctrl {
                BrowserTurn::Stay
            } else {
                BrowserTurn::List
            },
            _ => BrowserTurn::Stay,
        }
    }

    fn dir_here(&self) -> (r: bool)
        ensures
            r == self.on_dir(),
    {
        match self.selected_entry() {
            Some(e) => e.is_dir,
            None => false,
        }
    }

    /// A key in the picker. Left and right walk the tree; there is no cursor to
    /// move in the text.
    pub fn press(&mut self, key: Key) -> (r: BrowserStep)
        requires
            old(self).wf(),
        ensures
            final(self).wf(),
            Self::keyed(*old(self), *final(self), key),
            r@ == Self::leads_to(*old(self), key),
    {
        match key.code {
            KeyCode::Esc => BrowserStep::Close,
            KeyCode::Down | KeyCode::Tab => {
                self.down();
                BrowserStep::Stay
            },
            KeyCode::Up | KeyCode::BackTab => {
                self.up();
                BrowserStep::Stay
            },
            KeyCode::Right => {
                let walks = self.dir_here();
                self.descend();
                if walks {
                    BrowserStep::List
                } else {
                    BrowserStep::Stay
                }
            },
            KeyCode::Left => {
                let walks = crate::path::up(self.os, self.dir.as_str()).is_some();
                self.ascend();
                if walks {
                    BrowserStep::List
                } else {
                    BrowserStep::Stay
                }
            },
            KeyCode::Backspace => {
                self.backspace();
                BrowserStep::List
            },
            KeyCode::Enter => {
                let walks = self.dir_here();
                match self.accept() {
                    Some(path) => BrowserStep::Pick(path),
                    None => if walks {
                        BrowserStep::List
                    } else {
                        BrowserStep::Stay
                    },
                }
            },
            KeyCode::Char(c) => {
                // Ctrl+O opened this; don't type an o with it.
                if key.ctrl {
                    return BrowserStep::Stay;
                }
                self.push(c);
                BrowserStep::List
            },
            _ => BrowserStep::Stay,
        }
    }
}

/// The ssh form is open for typing.
pub open spec fn ssh_form_open(a: App) -> bool {
    a.ssh_mode is Add || a.ssh_mode is Edit
}

/// The value of the path field under the cursor, if the field takes a path.
pub open spec fn path_under_cursor(a: App) -> Option<Seq<char>> {
    if ssh_form_open(a) {
        if SshField::at_spec(a.ssh_form.field_idx as int) == SshField::KeyPath {
            Some(a.ssh_form.key_path@)
        } else {
            None
        }
    } else if a.vpn_mode is Form && a.vpn_form.key_at() == Some(VpnKey::ConfigPath) {
        Some(a.vpn_form.word(VpnKey::ConfigPath))
    } else {
        None
    }
}

/// Ctrl+O: the picker opens on the value the field already holds.
pub open spec fn opened_browser(a: App, b: App, out: Seq<Act>) -> bool {
    match path_under_cursor(a) {
        Some(current) => {
            &&& b == (App { browser: b.browser, ..a })
            &&& b.browser is Some
            &&& (b.browser->0).wf()
            &&& (b.browser->0).input@ == FileBrowser::start(
                a.machine.os,
                current,
                a.machine.home_spec(),
            )
            &&& (b.browser->0).os == a.machine.os
            &&& opt_string((b.browser->0).home) == a.machine.home_spec()
            &&& (b.browser->0).entries@.len() == 0 && (b.browser->0).selected == 0
            &&& (b.browser->0).error is None && (b.browser->0).came_from is None
            &&& out == seq![Act::ListDirectory]
        },
        None => {
            &&& b == a
            &&& out == seq![Act::Flash("Ctrl+O picks a file — only on the path fields"@, false)]
        },
    }
}

/// A path has been put into the form the picker was opened from.
pub open spec fn path_taken(a: App, b: App, path: Seq<char>) -> bool {
    if ssh_form_open(a) {
        &&& b == (App { browser: None, ssh_form: b.ssh_form, ..a })
        &&& SshForm::edited(a.ssh_form, b.ssh_form, set_to(path))
    } else if a.vpn_mode is Form {
        &&& b == (App { browser: None, vpn_form: b.vpn_form, ..a })
        &&& VpnForm::edited(a.vpn_form, b.vpn_form, set_to(path))
    } else {
        b == (App { browser: None, ..a })
    }
}

/// A key in the file picker.
pub open spec fn browser_keyed(a: App, b: App, key: Key, out: Seq<Act>) -> bool {
    match a.browser {
        None => b == a && out.len() == 0,
        Some(p) => match FileBrowser::leads_to(p, key) {
            BrowserTurn::Close => b == (App { browser: None, ..a }) && out.len() == 0,
            BrowserTurn::Pick(path) => path_taken(a, b, path) && out.len() == 0,
            BrowserTurn::List => {
                &&& b == (App { browser: b.browser, ..a })
                &&& b.browser is Some
                &&& FileBrowser::keyed(p, b.browser->0, key)
                &&& out == seq![Act::ListDirectory]
            },
            BrowserTurn::Stay => {
                &&& b == (App { browser: b.browser, ..a })
                &&& b.browser is Some
                &&& FileBrowser::keyed(p, b.browser->0, key)
                &&& out.len() == 0
            },
        },
    }
}

impl App {
    fn active_path_value(&self) -> (r: Option<String>)
        requires
            self.wf(),
        ensures
            opt_string(r) == path_under_cursor(*self),
    {
        if matches!(self.ssh_mode, SshMode::Add | SshMode::Edit(_)) {
            return if self.ssh_form.field() == SshField::KeyPath {
                Some(self.ssh_form.key_path.clone())
            } else {
                None
            };
        }
        if matches!(self.vpn_mode, VpnMode::Form { .. }) {
            return match self.vpn_form.field() {
                Some(f) => if f.key == VpnKey::ConfigPath {
                    Some(self.vpn_form.typed(VpnKey::ConfigPath).to_owned())
                } else {
                    None
                },
                None => None,
            };
        }
        None
    }

    /// Ctrl+O over a path field.
    pub fn open_path_browser(&mut self) -> (r: Vec<Effect>)
        requires
            old(self).wf(),
        ensures
            final(self).wf(),
            opened_browser(*old(self), *final(self), acts(r@)),
    {
        match self.active_path_value() {
            Some(current) => {
                let home = match &self.machine.home {
                    Some(h) => Some(h.clone()),
                    None => None,
                };
                self.browser = Some(FileBrowser::open(self.machine.os, current.as_str(), home));
                effects::just(Effect::ListDirectory)
            },
            None => effects::just(
                Effect::Flash(
                    "Ctrl+O picks a file — only on the path fields".to_owned(),
                    false,
                ),
            ),
        }
    }

    fn take_path(&mut self, path: String)
        requires
            old(self).wf(),
        ensures
            final(self).wf(),
            path_taken(*old(self), *final(self), path@),
    {
        self.browser = None;
        if matches!(self.ssh_mode, SshMode::Add | SshMode::Edit(_)) {
            self.ssh_form.put_text(path);
        } else if matches!(self.vpn_mode, VpnMode::Form { .. }) {
            self.vpn_form.put_text(path);
        }
    }

    /// A key in the file picker.
    pub fn on_browser_key(&mut self, key: Key) -> (r: Vec<Effect>)
        requires
            old(self).wf(),
        ensures
            final(self).wf(),
            browser_keyed(*old(self), *final(self), key, acts(r@)),
    {
        let ghost a = *self;
        let p = match self.browser.take() {
            None => {
                return effects::nothing();
            },
            Some(p) => p,
        };
        let mut p = p;
        match p.press(key) {
            BrowserStep::Close => effects::nothing(),
            BrowserStep::Stay => {
                self.browser = Some(p);
                effects::nothing()
            },
            BrowserStep::List => {
                self.browser = Some(p);
                effects::just(Effect::ListDirectory)
            },
            BrowserStep::Pick(path) => {
                self.take_path(path);
                effects::nothing()
            },
        }
    }

    /// What the directory the picker points at holds, or why it could not be
    /// read.
    pub fn directory_read(&mut self, found: Result<Vec<crate::browser::Entry>, String>)
        requires
            old(self).wf(),
        ensures
            final(self).wf(),
            *final(self) == (App { browser: final(self).browser, ..*old(self) }),
            old(self).browser is None ==> final(self).browser is None,
            old(self).browser matches Some(p) ==> {
                let q = final(self).browser->0;
                &&& final(self).browser is Some
                &&& q.input == p.input && q.dir == p.dir && q.home == p.home && q.os == p.os
                &&& q.came_from is None
                &&& match found {
                    Ok(all) => {
                        let shown = FileBrowser::listing(p.os, p.input@, all@);
                        &&& q.entries@ == shown
                        &&& q.error is None
                        &&& q.selected == FileBrowser::cursor(
                            shown,
                            p.selected as int,
                            opt_string(p.came_from),
                        )
                    },
                    Err(e) => {
                        &&& q.entries@.len() == 0 && q.selected == 0
                        &&& opt_string(q.error) == Some(p.dir@ + ": "@ + e@)
                    },
                }
            },
    {
        match self.browser.take() {
            None => {},
            Some(p) => {
                let mut p = p;
                p.refresh(found);
                self.browser = Some(p);
            },
        }
    }
}

}
