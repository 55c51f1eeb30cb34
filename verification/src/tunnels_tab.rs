//! What the keys of the Tunnels tab do.

use vstd::prelude::*;
use crate::app::{rows_ok, App};
use crate::browser::opt_string;
use crate::cursor::{chosen, group_at, group_under, ints, names_at, names_of, under, under_cursor};
use crate::driving::activated;
use crate::effects::{self, acts, Act, Effect, Store};
use crate::list::lemma_first_where_same;
use crate::live::{has_name, holds_name, without, LiveTunnel, Named};
use crate::number::{self, decimal};
use crate::plan::{
    jobs, lemma_tunnel_index, loops_at, nth_base, stack, tunnel_cycle, tunnel_named, Job, Step,
};
use crate::queries::{wishing, Wanted};
use crate::rows::{build_rows, groups_of};
use crate::running::{stop_acts, stop_all_acts, taken_down, without_all};
use crate::text::{self, cat, cat3, cat4, joined, texts};
use crate::tunnel::Status;
use crate::tunnel_form::{FormContext, FormMode, TunnelForm};
use crate::types::{RdpConnection, SshHost, Tunnel};
use crate::vpn_view::{clamp, clamped};

verus! {

// ---------------------------------------------------------------------------
// Starting and stopping
// ---------------------------------------------------------------------------

/// A tunnel is running.
pub open spec fn is_running(ts: Seq<Tunnel>, live: Seq<LiveTunnel>) -> spec_fn(int) -> bool {
    |i: int| has_name(live, ts[i].name@)
}

/// Tunnel steps for these names.
pub open spec fn tunnel_jobs(names: Seq<Seq<char>>) -> Seq<Job> {
    names.map_values(|n: Seq<char>| Job::Tunnel(n))
}

pub fn tunnel_steps(names: &Vec<String>) -> (r: Vec<Step>)
    ensures
        jobs(r@) == tunnel_jobs(texts(names@)),
{
    let ghost all = tunnel_jobs(texts(names@));
    let mut out: Vec<Step> = Vec::new();
    let mut i: usize = 0;
    assert(jobs(out@) =~= all.take(0));
    while i < names.len()
        invariant
            i <= names@.len(),
            all == tunnel_jobs(texts(names@)),
            jobs(out@) == all.take(i as int),
        decreases names@.len() - i,
    {
        let s = Step::Tunnel(names[i].clone());
        assert(jobs(out@.push(s)) =~= jobs(out@).push(s@));
        out.push(s);
        i = i + 1;
        assert(all.take(i as int) =~= all.take(i - 1).push(all[i - 1]));
    }
    assert(all.take(i as int) =~= all);
    out
}

/// Enter on the Tunnels tab: what is running under the cursor is stopped, and
/// what is not is brought up. A group is stopped once all of it is running.
pub open spec fn toggled_tunnels(a: App, b: App, now: int, out: Seq<Act>) -> bool {
    match under(a.rows@, a.selected as int, groups_of(a.tunnels@)) {
        None => b == a && out.len() == 0,
        Some(idxs) => {
            let names = names_at(a.tunnels@, idxs);
            if exists|k: int| 0 <= k < names.len() && !has_name(a.active@, #[trigger] names[k]) {
                // One plan for the whole group: shared dependencies are brought
                // up once, and members that fight each other are reported
                // instead of prompting for every one of them.
                activated(a, b, tunnel_jobs(names), now, out)
            } else {
                taken_down(a, b, names, Seq::empty()) && out == stop_all_acts(a.active@, names)
            }
        },
    }
}

/// What restarting these tunnels takes.
pub open spec fn restart_acts(live: Seq<LiveTunnel>, ts: Seq<Tunnel>, idxs: Seq<int>) -> Seq<Act>
    decreases idxs.len(),
{
    if idxs.len() == 0 {
        Seq::empty()
    } else {
        restart_acts(live, ts, idxs.drop_last()) + stop_acts(
            without_all(live, names_at(ts, idxs.drop_last())),
            ts[idxs.last()].name@,
        ).push(Act::StartTunnel(idxs.last()))
    }
}

/// `r` on the Tunnels tab: stop and start again what is under the cursor — every
/// running member when it is a group header.
pub open spec fn restarted_tunnels(a: App, b: App, out: Seq<Act>) -> bool {
    match under(a.rows@, a.selected as int, groups_of(a.tunnels@)) {
        None => b == a && out.len() == 0,
        Some(idxs) => {
            let running = chosen(idxs, is_running(a.tunnels@, a.active@));
            if running.len() == 0 {
                b == a && out == seq![Act::Flash("nothing running to reconnect here"@, true)]
            } else {
                &&& taken_down(a, b, names_at(a.tunnels@, running), Seq::empty())
                &&& out == restart_acts(a.active@, a.tunnels@, running).push(
                    Act::Flash("restarted "@ + decimal(running.len()) + " tunnel(s)"@, false),
                )
            }
        },
    }
}

/// The names of the tunnels that have failed.
pub open spec fn failed_names(live: Seq<LiveTunnel>) -> Seq<Seq<char>>
    decreases live.len(),
{
    if live.len() == 0 {
        Seq::empty()
    } else if live.last().status == Status::Failed {
        failed_names(live.drop_last()).push(live.last().name@)
    } else {
        failed_names(live.drop_last())
    }
}

/// `c` on the Tunnels tab: drop the entries of tunnels that have failed, so what
/// is left in the list is what is actually running.
pub open spec fn cleared_tunnels(a: App, b: App, out: Seq<Act>) -> bool {
    let failed = failed_names(a.active@);
    if failed.len() == 0 {
        b == a && out == seq![Act::Flash("no failed tunnels to clear"@, false)]
    } else {
        &&& taken_down(a, b, failed, Seq::empty())
        &&& out == stop_all_acts(a.active@, failed).push(
            Act::Flash("cleared "@ + decimal(failed.len()) + " failed tunnel(s)"@, false),
        )
    }
}

impl App {
    /// Whether one of these tunnels is not running.
    fn any_inactive(&self, names: &Vec<String>) -> (r: bool)
        ensures
            r == exists|k: int|
                0 <= k < texts(names@).len() && !has_name(self.active@, #[trigger] texts(names@)[k]),
    {
        let ghost ns = texts(names@);
        let mut i: usize = 0;
        while i < names.len()
            invariant
                i <= names@.len(),
                ns == texts(names@),
                forall|k: int| 0 <= k < i ==> has_name(self.active@, #[trigger] ns[k]),
            decreases names@.len() - i,
        {
            assert(ns[i as int] == names@[i as int]@);
            if !holds_name(self.active.as_slice(), names[i].as_str()) {
                return true;
            }
            i = i + 1;
        }
        false
    }

    /// Enter on the Tunnels tab.
    pub fn toggle_selected(&mut self, now: u64) -> (r: Vec<Effect>)
        requires
            old(self).wf(),
        ensures
            final(self).wf(),
            toggled_tunnels(*old(self), *final(self), now as int, acts(r@)),
    {
        let idxs = match under_cursor(&self.rows, self.selected, self.tunnels.as_slice()) {
            None => {
                return effects::nothing();
            },
            Some(v) => v,
        };
        let names = names_of(self.tunnels.as_slice(), &idxs);
        if self.any_inactive(&names) {
            self.activate(tunnel_steps(&names), now)
        } else {
            let mut out = effects::nothing();
            let ghost live = self.active@;
            self.stop_tunnels(&names, &mut out);
            assert(acts(out@) =~= stop_all_acts(live, texts(names@)));
            out
        }
    }

    /// Which of these tunnels are running.
    pub fn running_of(&self, idxs: &Vec<usize>) -> (r: Vec<usize>)
        requires
            forall|k: int| 0 <= k < idxs@.len() ==> #[trigger] idxs@[k] < self.tunnels@.len(),
        ensures
            ints(r@) == chosen(ints(idxs@), is_running(self.tunnels@, self.active@)),
            forall|k: int| 0 <= k < r@.len() ==> #[trigger] r@[k] < self.tunnels@.len(),
    {
        let ghost all = ints(idxs@);
        let ghost p = is_running(self.tunnels@, self.active@);
        let mut out: Vec<usize> = Vec::new();
        let mut i: usize = 0;
        assert(all.take(0) =~= Seq::<int>::empty());
        assert(ints(out@) =~= Seq::<int>::empty());
        while i < idxs.len()
            invariant
                i <= idxs@.len(),
                all == ints(idxs@),
                p == is_running(self.tunnels@, self.active@),
                forall|k: int| 0 <= k < idxs@.len() ==> #[trigger] idxs@[k] < self.tunnels@.len(),
                forall|k: int| 0 <= k < out@.len() ==> #[trigger] out@[k] < self.tunnels@.len(),
                ints(out@) == chosen(all.take(i as int), p),
            decreases idxs@.len() - i,
        {
            assert(all.take(i + 1).drop_last() =~= all.take(i as int));
            let at: usize = idxs[i];
            if holds_name(self.active.as_slice(), self.tunnels[at].name.as_str()) {
                assert(ints(out@.push(at)) =~= ints(out@).push(at as int));
                out.push(at);
            }
            i = i + 1;
        }
        assert(all.take(i as int) =~= all);
        out
    }

    /// `r` on the Tunnels tab.
    pub fn restart_selected_tunnels(&mut self) -> (r: Vec<Effect>)
        requires
            old(self).wf(),
        ensures
            final(self).wf(),
            restarted_tunnels(*old(self), *final(self), acts(r@)),
    {
        let idxs = match under_cursor(&self.rows, self.selected, self.tunnels.as_slice()) {
            None => {
                return effects::nothing();
            },
            Some(v) => v,
        };
        let running = self.running_of(&idxs);
        assert(ints(running@).len() == running@.len());
        if running.len() == 0 {
            return effects::just(
                Effect::Flash("nothing running to reconnect here".to_owned(), true),
            );
        }
        let mut out = self.restart(&running);
        let n: usize = running.len();
        let msg = cat3("restarted ", number::write(n as u64).as_str(), " tunnel(s)");
        effects::flash(&mut out, msg.as_str(), false);
        out
    }

    fn restart(&mut self, running: &Vec<usize>) -> (r: Vec<Effect>)
        requires
            old(self).wf(),
            forall|k: int|
                0 <= k < running@.len() ==> #[trigger] running@[k] < old(self).tunnels@.len(),
        ensures
            final(self).wf(),
            taken_down(
                *old(self),
                *final(self),
                names_at(old(self).tunnels@, ints(running@)),
                Seq::empty(),
            ),
            acts(r@) == restart_acts(old(self).active@, old(self).tunnels@, ints(running@)),
    {
        let ghost a = *self;
        let ghost all = ints(running@);
        let ghost ns = names_at(a.tunnels@, all);
        let mut out = effects::nothing();
        let mut i: usize = 0;
        assert(all.take(0) =~= Seq::<int>::empty());
        assert(ns.take(0) =~= Seq::<Seq<char>>::empty());
        while i < running.len()
            invariant
                i <= running@.len(),
                all == ints(running@),
                ns == names_at(a.tunnels@, all),
                self.wf(),
                self.tunnels == a.tunnels,
                forall|k: int|
                    0 <= k < running@.len() ==> #[trigger] running@[k] < a.tunnels@.len(),
                taken_down(a, *self, ns.take(i as int), Seq::empty()),
                acts(out@) == restart_acts(a.active@, a.tunnels@, all.take(i as int)),
            decreases running@.len() - i,
        {
            assert(all.take(i + 1).drop_last() =~= all.take(i as int));
            assert(ns.take(i + 1).drop_last() =~= ns.take(i as int));
            assert(names_at(a.tunnels@, all.take(i as int)) =~= ns.take(i as int));
            let at: usize = running[i];
            let name = self.tunnels[at].name.clone();
            let ghost before = acts(out@);
            let ghost here = stop_acts(self.active@, name@);
            self.stop_tunnel(name.as_str(), &mut out);
            effects::ask(&mut out, Effect::StartTunnel(at));
            assert(acts(out@) =~= before + here.push(Act::StartTunnel(at as int)));
            i = i + 1;
        }
        assert(all.take(i as int) =~= all);
        assert(ns.take(i as int) =~= ns);
        out
    }

    /// The tunnels that have failed.
    pub fn failed_tunnels(&self) -> (r: Vec<String>)
        ensures
            texts(r@) == failed_names(self.active@),
    {
        let ghost all = self.active@;
        let mut out = text::no_texts();
        let mut i: usize = 0;
        assert(all.take(0) =~= Seq::<LiveTunnel>::empty());
        while i < self.active.len()
            invariant
                i <= all.len(),
                all == self.active@,
                texts(out@) == failed_names(all.take(i as int)),
            decreases all.len() - i,
        {
            assert(all.take(i + 1).drop_last() =~= all.take(i as int));
            if self.active[i].status == Status::Failed {
                text::add_text(&mut out, self.active[i].name.clone());
            }
            i = i + 1;
        }
        assert(all.take(i as int) =~= all);
        out
    }

    /// `c` on the Tunnels tab.
    pub fn clear_finished_tunnels(&mut self) -> (r: Vec<Effect>)
        requires
            old(self).wf(),
        ensures
            final(self).wf(),
            cleared_tunnels(*old(self), *final(self), acts(r@)),
    {
        let failed = self.failed_tunnels();
        assert(texts(failed@).len() == failed@.len());
        if failed.len() == 0 {
            return effects::just(Effect::Flash("no failed tunnels to clear".to_owned(), false));
        }
        let ghost live = self.active@;
        let mut out = effects::nothing();
        self.stop_tunnels(&failed, &mut out);
        assert(acts(out@) =~= stop_all_acts(live, texts(failed@)));
        let n: usize = failed.len();
        let msg = cat3("cleared ", number::write(n as u64).as_str(), " failed tunnel(s)");
        effects::flash(&mut out, msg.as_str(), false);
        out
    }
}

// ---------------------------------------------------------------------------
// The form
// ---------------------------------------------------------------------------

/// An error of a form.
pub open spec fn form_says(a: TunnelForm, b: TunnelForm, why: Seq<char>) -> bool {
    b == (TunnelForm { error: b.error, ..a }) && opt_string(b.error) == Some(why)
}

/// The entry a form edits.
pub open spec fn edited_tunnel(mode: FormMode) -> Option<int> {
    match mode {
        FormMode::Edit(i) => Some(i as int),
        _ => None,
    }
}

/// Another entry than the one being edited goes by the name.
pub open spec fn name_in_use<T: Named>(s: Seq<T>, name: Seq<char>, editing: Option<int>) -> bool {
    exists|i: int| 0 <= i < s.len() && (#[trigger] s[i]).name_spec() == name && editing != Some(i)
}

pub fn name_taken<T: Named>(v: &[T], name: &str, editing: Option<usize>) -> (r: bool)
    ensures
        r == name_in_use(
            v@,
            name@,
            match editing {
                Some(i) => Some(i as int),
                None => None,
            },
        ),
{
    let mut i: usize = 0;
    while i < v.len()
        invariant
            i <= v@.len(),
            forall|k: int|
                0 <= k < i ==> (#[trigger] v@[k]).name_spec() != name@ || editing == Some(k as usize),
        decreases v@.len() - i,
    {
        let other = match editing {
            Some(e) => e != i,
            None => true,
        };
        if other && text::same(v[i].known_as(), name) {
            return true;
        }
        i = i + 1;
    }
    false
}

/// A list with an entry put in: in the place of the one being edited, or at the
/// end.
pub open spec fn placed<T>(s: Seq<T>, x: T, editing: Option<int>) -> Seq<T> {
    match editing {
        Some(i) => s.update(i, x),
        None => s.push(x),
    }
}

/// The tunnels, with those that ran through `from` now running through `to`.
pub open spec fn tunnels_repointed(
    a: Seq<Tunnel>,
    b: Seq<Tunnel>,
    from: Seq<char>,
    to: Seq<char>,
) -> bool {
    &&& b.len() == a.len()
    &&& forall|i: int|
        0 <= i < a.len() ==> if a[i].depends_on@ == from {
            (#[trigger] b[i]).depends_on@ == to && b[i] == (Tunnel {
                depends_on: b[i].depends_on,
                ..a[i]
            })
        } else {
            b[i] == a[i]
        }
}

pub open spec fn hosts_repointed(
    a: Seq<SshHost>,
    b: Seq<SshHost>,
    from: Seq<char>,
    to: Seq<char>,
) -> bool {
    &&& b.len() == a.len()
    &&& forall|i: int|
        0 <= i < a.len() ==> if a[i].depends_on@ == from {
            (#[trigger] b[i]).depends_on@ == to && b[i] == (SshHost {
                depends_on: b[i].depends_on,
                ..a[i]
            })
        } else {
            b[i] == a[i]
        }
}

pub open spec fn conns_repointed(
    a: Seq<RdpConnection>,
    b: Seq<RdpConnection>,
    from: Seq<char>,
    to: Seq<char>,
) -> bool {
    &&& b.len() == a.len()
    &&& forall|i: int|
        0 <= i < a.len() ==> if a[i].depends_on@ == from {
            (#[trigger] b[i]).depends_on@ == to && b[i] == (RdpConnection {
                depends_on: b[i].depends_on,
                ..a[i]
            })
        } else {
            b[i] == a[i]
        }
}

/// Some tunnel runs through `name`.
pub open spec fn tunnels_use(s: Seq<Tunnel>, name: Seq<char>) -> bool {
    exists|i: int| 0 <= i < s.len() && (#[trigger] s[i]).depends_on@ == name
}

pub open spec fn hosts_use(s: Seq<SshHost>, name: Seq<char>) -> bool {
    exists|i: int| 0 <= i < s.len() && (#[trigger] s[i]).depends_on@ == name
}

pub open spec fn conns_use(s: Seq<RdpConnection>, name: Seq<char>) -> bool {
    exists|i: int| 0 <= i < s.len() && (#[trigger] s[i]).depends_on@ == name
}

/// The files a renamed tunnel has to be written to.
pub open spec fn rename_saves(
    ts: Seq<Tunnel>,
    hs: Seq<SshHost>,
    cs: Seq<RdpConnection>,
    from: Seq<char>,
) -> Seq<Act> {
    (if tunnels_use(ts, from) {
        seq![Act::Save(Store::Tunnels)]
    } else {
        Seq::empty()
    }) + (if hosts_use(hs, from) {
        seq![Act::Save(Store::Ssh)]
    } else {
        Seq::empty()
    }) + (if conns_use(cs, from) {
        seq![Act::Save(Store::Rdp)]
    } else {
        Seq::empty()
    })
}

fn repoint_tunnels(v: &mut Vec<Tunnel>, from: &str, to: &str) -> (r: bool)
    ensures
        tunnels_repointed(old(v)@, final(v)@, from@, to@),
        r == tunnels_use(old(v)@, from@),
{
    let ghost a = v@;
    let mut touched = false;
    let mut i: usize = 0;
    while i < v.len()
        invariant
            i <= v@.len(),
            tunnels_repointed(a.take(i as int), v@.take(i as int), from@, to@),
            v@.len() == a.len(),
            forall|k: int| i <= k < a.len() ==> #[trigger] v@[k] == a[k],
            touched == tunnels_use(a.take(i as int), from@),
        decreases v@.len() - i,
    {
        let ghost before = v@;
        assert(a.take(i + 1)[i as int] == a[i as int]);
        assert(forall|k: int| 0 <= k < i ==> a.take(i + 1)[k] == a.take(i as int)[k]);
        let hit = text::same(v[i].depends_on.as_str(), from);
        assert(tunnels_use(a.take(i + 1), from@) == (touched || hit)) by {
            if touched {
                let k = choose|k: int|
                    0 <= k < i && (#[trigger] a.take(i as int)[k]).depends_on@ == from@;
                assert(a.take(i + 1)[k].depends_on@ == from@);
            }
            if tunnels_use(a.take(i + 1), from@) && !hit {
                let k = choose|k: int|
                    0 <= k < i + 1 && (#[trigger] a.take(i + 1)[k]).depends_on@ == from@;
                assert(a.take(i as int)[k].depends_on@ == from@);
            }
        }
        if hit {
            v[i].depends_on = to.to_owned();
            touched = true;
        }
        assert forall|k: int| 0 <= k < i + 1 implies if a.take(i + 1)[k].depends_on@ == from@ {
            (#[trigger] v@.take(i + 1)[k]).depends_on@ == to@ && v@.take(i + 1)[k] == (Tunnel {
                depends_on: v@.take(i + 1)[k].depends_on,
                ..a.take(i + 1)[k]
            })
        } else {
            v@.take(i + 1)[k] == a.take(i + 1)[k]
        } by {
            if k < i {
                assert(v@.take(i + 1)[k] == before.take(i as int)[k]);
                assert(a.take(i + 1)[k] == a.take(i as int)[k]);
            }
        }
        i = i + 1;
    }
    assert(a.take(i as int) =~= a);
    assert(v@.take(i as int) =~= v@);
    touched
}

fn repoint_hosts(v: &mut Vec<SshHost>, from: &str, to: &str) -> (r: bool)
    ensures
        hosts_repointed(old(v)@, final(v)@, from@, to@),
        r == hosts_use(old(v)@, from@),
{
    let ghost a = v@;
    let mut touched = false;
    let mut i: usize = 0;
    while i < v.len()
        invariant
            i <= v@.len(),
            hosts_repointed(a.take(i as int), v@.take(i as int), from@, to@),
            v@.len() == a.len(),
            forall|k: int| i <= k < a.len() ==> #[trigger] v@[k] == a[k],
            touched == hosts_use(a.take(i as int), from@),
        decreases v@.len() - i,
    {
        let ghost before = v@;
        assert(a.take(i + 1)[i as int] == a[i as int]);
        assert(forall|k: int| 0 <= k < i ==> a.take(i + 1)[k] == a.take(i as int)[k]);
        let hit = text::same(v[i].depends_on.as_str(), from);
        assert(hosts_use(a.take(i + 1), from@) == (touched || hit)) by {
            if touched {
                let k = choose|k: int|
                    0 <= k < i && (#[trigger] a.take(i as int)[k]).depends_on@ == from@;
                assert(a.take(i + 1)[k].depends_on@ == from@);
            }
            if hosts_use(a.take(i + 1), from@) && !hit {
                let k = choose|k: int|
                    0 <= k < i + 1 && (#[trigger] a.take(i + 1)[k]).depends_on@ == from@;
                assert(a.take(i as int)[k].depends_on@ == from@);
            }
        }
        if hit {
            v[i].depends_on = to.to_owned();
            touched = true;
        }
        assert forall|k: int| 0 <= k < i + 1 implies if a.take(i + 1)[k].depends_on@ == from@ {
            (#[trigger] v@.take(i + 1)[k]).depends_on@ == to@ && v@.take(i + 1)[k] == (SshHost {
                depends_on: v@.take(i + 1)[k].depends_on,
                ..a.take(i + 1)[k]
            })
        } else {
            v@.take(i + 1)[k] == a.take(i + 1)[k]
        } by {
            if k < i {
                assert(v@.take(i + 1)[k] == before.take(i as int)[k]);
                assert(a.take(i + 1)[k] == a.take(i as int)[k]);
            }
        }
        i = i + 1;
    }
    assert(a.take(i as int) =~= a);
    assert(v@.take(i as int) =~= v@);
    touched
}

fn repoint_conns(v: &mut Vec<RdpConnection>, from: &str, to: &str) -> (r: bool)
    ensures
        conns_repointed(old(v)@, final(v)@, from@, to@),
        r == conns_use(old(v)@, from@),
{
    let ghost a = v@;
    let mut touched = false;
    let mut i: usize = 0;
    while i < v.len()
        invariant
            i <= v@.len(),
            conns_repointed(a.take(i as int), v@.take(i as int), from@, to@),
            v@.len() == a.len(),
            forall|k: int| i <= k < a.len() ==> #[trigger] v@[k] == a[k],
            touched == conns_use(a.take(i as int), from@),
        decreases v@.len() - i,
    {
        let ghost before = v@;
        assert(a.take(i + 1)[i as int] == a[i as int]);
        assert(forall|k: int| 0 <= k < i ==> a.take(i + 1)[k] == a.take(i as int)[k]);
        let hit = text::same(v[i].depends_on.as_str(), from);
        assert(conns_use(a.take(i + 1), from@) == (touched || hit)) by {
            if touched {
                let k = choose|k: int|
                    0 <= k < i && (#[trigger] a.take(i as int)[k]).depends_on@ == from@;
                assert(a.take(i + 1)[k].depends_on@ == from@);
            }
            if conns_use(a.take(i + 1), from@) && !hit {
                let k = choose|k: int|
                    0 <= k < i + 1 && (#[trigger] a.take(i + 1)[k]).depends_on@ == from@;
                assert(a.take(i as int)[k].depends_on@ == from@);
            }
        }
        if hit {
            v[i].depends_on = to.to_owned();
            touched = true;
        }
        assert forall|k: int| 0 <= k < i + 1 implies if a.take(i + 1)[k].depends_on@ == from@ {
            (#[trigger] v@.take(i + 1)[k]).depends_on@ == to@ && v@.take(i + 1)[k] == (RdpConnection {
                depends_on: v@.take(i + 1)[k].depends_on,
                ..a.take(i + 1)[k]
            })
        } else {
            v@.take(i + 1)[k] == a.take(i + 1)[k]
        } by {
            if k < i {
                assert(v@.take(i + 1)[k] == before.take(i as int)[k]);
                assert(a.take(i + 1)[k] == a.take(i as int)[k]);
            }
        }
        i = i + 1;
    }
    assert(a.take(i as int) =~= a);
    assert(v@.take(i as int) =~= v@);
    touched
}

/// The list as it is to be once a tunnel has been put in: what depended on it
/// follows it to a new name.
pub open spec fn to_be(a: App, t: Tunnel, r: Seq<Tunnel>) -> bool {
    let editing = edited_tunnel(a.form_mode);
    let all = placed(a.tunnels@, t, editing);
    match editing {
        Some(i) if a.tunnels@[i].name@ != t.name@ => tunnels_repointed(
            all,
            r,
            a.tunnels@[i].name@,
            t.name@,
        ),
        _ => r == all,
    }
}

/// The form has been submitted with a tunnel that it gives.
pub open spec fn stored_tunnel(a: App, b: App, t: Tunnel, out: Seq<Act>) -> bool {
    let editing = edited_tunnel(a.form_mode);
    if name_in_use(a.tunnels@, t.name@, editing) {
        &&& b == (App { form: b.form, ..a })
        &&& form_says(a.form, b.form, "a tunnel named '"@ + t.name@ + "' already exists"@)
        &&& out.len() == 0
    } else if exists|r: Seq<Tunnel>, k: nat|
        to_be(a, t, r) && #[trigger] loops_at(r, t.name@, k) {
        // Caught before it is saved; the picker already rules out a → a.
        &&& b == (App { form: b.form, ..a })
        &&& exists|r: Seq<Tunnel>, k: nat|
            to_be(a, t, r) && #[trigger] loops_at(r, t.name@, k) && form_says(
                a.form,
                b.form,
                "that makes a dependency cycle: "@ + joined(stack(r, t.name@, k), " → "@),
            )
        &&& out.len() == 0
    } else {
        kept_tunnel(a, b, t, out)
    }
}

proof fn lemma_same_bases(x: Seq<Tunnel>, y: Seq<Tunnel>, start: Seq<char>, i: nat)
    requires
        x.len() == y.len(),
        forall|j: int|
            0 <= j < x.len() ==> (#[trigger] x[j]).name@ == y[j].name@ && x[j].depends_on@
                == y[j].depends_on@,
    ensures
        nth_base(x, start, i) == nth_base(y, start, i),
    decreases i,
{
    if i > 0 {
        lemma_same_bases(x, y, start, (i - 1) as nat);
        let n = nth_base(x, start, (i - 1) as nat);
        lemma_first_where_same(x, y, tunnel_named(n));
        lemma_tunnel_index(x, n);
    }
}

proof fn lemma_same_loops(x: Seq<Tunnel>, y: Seq<Tunnel>, start: Seq<char>, k: nat)
    requires
        x.len() == y.len(),
        forall|j: int|
            0 <= j < x.len() ==> (#[trigger] x[j]).name@ == y[j].name@ && x[j].depends_on@
                == y[j].depends_on@,
        loops_at(x, start, k),
    ensures
        loops_at(y, start, k),
{
    assert forall|i: nat| #[trigger] nth_base(x, start, i) == nth_base(y, start, i) by {
        lemma_same_bases(x, y, start, i);
    }
    assert forall|i: nat| 1 <= i <= k implies (#[trigger] nth_base(y, start, i)).len() > 0 by {
        assert(nth_base(x, start, i) == nth_base(y, start, i));
    }
    assert(stack(x, start, (k - 1) as nat) =~= stack(y, start, (k - 1) as nat));
}

/// However the list to be is written down, it loops where it loops.
proof fn lemma_nothing_loops(a: App, t: Tunnel, coming: Seq<Tunnel>)
    requires
        to_be(a, t, coming),
        !exists|k: nat| #[trigger] loops_at(coming, t.name@, k),
    ensures
        !exists|r: Seq<Tunnel>, k: nat| to_be(a, t, r) && #[trigger] loops_at(r, t.name@, k),
{
    assert forall|r: Seq<Tunnel>, k: nat| to_be(a, t, r) implies !#[trigger] loops_at(
        r,
        t.name@,
        k,
    ) by {
        if loops_at(r, t.name@, k) {
            let all = placed(a.tunnels@, t, edited_tunnel(a.form_mode));
            assert forall|j: int| 0 <= j < r.len() implies (#[trigger] r[j]).name@ == coming[j].name@
                && r[j].depends_on@ == coming[j].depends_on@ by {
                assert(coming[j].name@ == all[j].name@);
            }
            lemma_same_loops(r, coming, t.name@, k);
        }
    }
}

/// No tunnel that has been stored comes back on itself, a rename among it.
pub proof fn law_stored_tunnel_has_no_cycle(a: App, b: App, t: Tunnel, out: Seq<Act>, k: nat)
    requires
        a.wf(),
        stored_tunnel(a, b, t, out),
        !(a.form_mode is Closed),
        b.form_mode is Closed,
    ensures
        !loops_at(b.tunnels@, t.name@, k),
{
    assert(kept_tunnel(a, b, t, out));
    assert(to_be(a, t, b.tunnels@));
}

/// A tunnel has been put into the list.
pub open spec fn kept_tunnel(a: App, b: App, t: Tunnel, out: Seq<Act>) -> bool {
    let editing = edited_tunnel(a.form_mode);
    let all = placed(a.tunnels@, t, editing);
    let was = match editing {
        Some(i) => a.tunnels@[i].name@,
        None => t.name@,
    };
    // An active tunnel is stopped; the user restarts it with the new
    // settings.
    let stops = editing is Some && has_name(a.active@, was);
    &&& b == (App {
        tunnels: b.tunnels,
        ssh_hosts: b.ssh_hosts,
        rdp_conns: b.rdp_conns,
        active: b.active,
        reconnect: b.reconnect,
        rows: b.rows,
        selected: b.selected,
        form_mode: b.form_mode,
        ..a
    })
    &&& b.form_mode is Closed
    &&& rows_ok(b.rows@, b.tunnels@)
    &&& b.selected == clamped(a.selected as int, b.rows@.len() as int)
    &&& if stops {
        &&& b.active@ == without(a.active@, was)
        &&& b.reconnect@ == without(a.reconnect@, was)
    } else {
        b.active == a.active && b.reconnect == a.reconnect
    }
    &&& if was != t.name@ {
        &&& tunnels_repointed(all, b.tunnels@, was, t.name@)
        &&& hosts_repointed(a.ssh_hosts@, b.ssh_hosts@, was, t.name@)
        &&& conns_repointed(a.rdp_conns@, b.rdp_conns@, was, t.name@)
    } else {
        b.tunnels@ == all && b.ssh_hosts == a.ssh_hosts && b.rdp_conns == a.rdp_conns
    }
    &&& out == (if stops {
        stop_acts(a.active@, was).push(
            Act::Flash(
                "tunnel stopped — press Enter to start with new settings"@,
                false,
            ),
        )
    } else {
        Seq::empty()
    }) + (if was != t.name@ {
        rename_saves(all, a.ssh_hosts@, a.rdp_conns@, was)
    } else {
        Seq::empty()
    }) + seq![Act::Save(Store::Tunnels)]
}

/// The tunnel form has been submitted.
pub open spec fn submitted_tunnel(a: App, b: App, out: Seq<Act>) -> bool {
    match a.form.fault() {
        Some(why) => {
            &&& b == (App { form: b.form, ..a })
            &&& form_says(a.form, b.form, why)
            &&& out.len() == 0
        },
        None => exists|t: Tunnel| a.form.gives(t) && #[trigger] stored_tunnel(a, b, t, out),
    }
}

/// A tunnel has been deleted.
pub open spec fn deleted_tunnel(a: App, b: App, idx: int, out: Seq<Act>) -> bool {
    if idx >= a.tunnels@.len() {
        b == (App { form_mode: b.form_mode, ..a }) && b.form_mode is Closed && out.len() == 0
    } else {
        let name = a.tunnels@[idx].name@;
        let orphaned = wishing(a.tunnels@, a.ssh_hosts@, a.rdp_conns@, Wanted::Tunnel(name));
        &&& b == (App {
            tunnels: b.tunnels,
            active: b.active,
            reconnect: b.reconnect,
            rows: b.rows,
            selected: b.selected,
            form_mode: b.form_mode,
            ..a
        })
        &&& b.tunnels@ == a.tunnels@.remove(idx)
        &&& if has_name(a.active@, name) {
            &&& b.active@ == without(a.active@, name)
            &&& b.reconnect@ == without(a.reconnect@, name)
        } else {
            b.active == a.active && b.reconnect == a.reconnect
        }
        &&& rows_ok(b.rows@, b.tunnels@)
        &&& b.selected == clamped(a.selected as int, b.rows@.len() as int)
        &&& b.form_mode is Closed
        &&& out == stop_acts(a.active@, name).push(
            if orphaned.len() == 0 {
                Act::SaveThen(Store::Tunnels, "deleted '"@ + name + "'"@, false)
            } else {
                Act::SaveThen(
                    Store::Tunnels,
                    "deleted '"@ + name + "' — "@ + joined(orphaned, ", "@)
                        + " now depend(s) on a missing tunnel"@,
                    true,
                )
            },
        )
    }
}

impl App {
    /// Lay the tunnels out again.
    pub fn rebuild_rows(&mut self)
        ensures
            rows_ok(final(self).rows@, old(self).tunnels@),
            final(self).selected == clamped(
                old(self).selected as int,
                final(self).rows@.len() as int,
            ),
            *final(self) == (App {
                rows: final(self).rows,
                selected: final(self).selected,
                ..*old(self)
            }),
    {
        self.rows = build_rows(self.tunnels.as_slice());
        self.selected = clamp(self.selected, self.rows.len());
    }

    pub fn form_ctx(&self) -> (r: FormContext<'_>)
        ensures
            r.tunnels@ == self.tunnels@,
            *r.vpn == self.vpn,
    {
        FormContext { tunnels: self.tunnels.as_slice(), vpn: &self.vpn }
    }

    /// `a` on the Tunnels tab: an empty form, in the group under the cursor.
    pub fn add_tunnel(&mut self)
        requires
            old(self).wf(),
        ensures
            final(self).wf(),
            final(self).form.blank(old(self).vpn.providers@, old(self).tunnels@),
            final(self).form.group@ == group_under(
                old(self).rows@,
                old(self).selected as int,
                old(self).tunnels@,
            ),
            final(self).form_mode is Add,
            *final(self) == (App {
                form: final(self).form,
                form_mode: final(self).form_mode,
                ..*old(self)
            }),
    {
        let mut form = TunnelForm::empty(self.form_ctx());
        form.group = group_at(&self.rows, self.selected, self.tunnels.as_slice());
        self.form = form;
        self.form_mode = FormMode::Add;
    }

    /// `e` on the Tunnels tab: the form on the tunnel under the cursor.
    pub fn edit_tunnel(&mut self)
        requires
            old(self).wf(),
        ensures
            final(self).wf(),
            match App::entry_at(old(self).rows@, old(self).selected as int) {
                None => *final(self) == *old(self),
                Some(i) => {
                    &&& final(self).form.opened(
                        old(self).tunnels@[i],
                        old(self).vpn.providers@,
                        old(self).tunnels@,
                    )
                    &&& final(self).form_mode == FormMode::Edit(i as usize)
                    &&& *final(self) == (App {
                        form: final(self).form,
                        form_mode: final(self).form_mode,
                        ..*old(self)
                    })
                },
            },
    {
        match self.selected_tunnel() {
            Some(i) => {
                let form = TunnelForm::from_tunnel(&self.tunnels[i], self.form_ctx());
                self.form = form;
                self.form_mode = FormMode::Edit(i);
            },
            None => {},
        }
    }

    /// `d` on the Tunnels tab: ask whether to delete the tunnel under the cursor.
    pub fn ask_delete_tunnel(&mut self)
        requires
            old(self).wf(),
        ensures
            final(self).wf(),
            match App::entry_at(old(self).rows@, old(self).selected as int) {
                None => *final(self) == *old(self),
                Some(i) => {
                    &&& final(self).form_mode == FormMode::DeleteConfirm(i as usize)
                    &&& *final(self) == (App { form_mode: final(self).form_mode, ..*old(self) })
                },
            },
    {
        match self.selected_tunnel() {
            Some(i) => {
                self.form_mode = FormMode::DeleteConfirm(i);
            },
            None => {},
        }
    }
}

proof fn lemma_repointed_groups(
    hs: Seq<SshHost>,
    new_hs: Seq<SshHost>,
    cs: Seq<RdpConnection>,
    new_cs: Seq<RdpConnection>,
    from: Seq<char>,
    to: Seq<char>,
)
    requires
        hosts_repointed(hs, new_hs, from, to),
        conns_repointed(cs, new_cs, from, to),
    ensures
        groups_of(new_hs) == groups_of(hs),
        groups_of(new_cs) == groups_of(cs),
{
    assert forall|i: int| 0 <= i < hs.len() implies #[trigger] groups_of(new_hs)[i] == groups_of(
        hs,
    )[i] by {
        assert(new_hs[i].group == hs[i].group);
    }
    assert forall|i: int| 0 <= i < cs.len() implies #[trigger] groups_of(new_cs)[i] == groups_of(
        cs,
    )[i] by {
        assert(new_cs[i].group == cs[i].group);
    }
    assert(groups_of(new_hs) =~= groups_of(hs));
    assert(groups_of(new_cs) =~= groups_of(cs));
}

impl App {
    /// Keep dependencies pointing at a renamed tunnel.
    fn rename_dependency(&mut self, from: &str, to: &str, out: &mut Vec<Effect>)
        ensures
            tunnels_repointed(old(self).tunnels@, final(self).tunnels@, from@, to@),
            hosts_repointed(old(self).ssh_hosts@, final(self).ssh_hosts@, from@, to@),
            conns_repointed(old(self).rdp_conns@, final(self).rdp_conns@, from@, to@),
            *final(self) == (App {
                tunnels: final(self).tunnels,
                ssh_hosts: final(self).ssh_hosts,
                rdp_conns: final(self).rdp_conns,
                ..*old(self)
            }),
            acts(final(out)@) == acts(old(out)@) + rename_saves(
                old(self).tunnels@,
                old(self).ssh_hosts@,
                old(self).rdp_conns@,
                from@,
            ),
    {
        let ghost was = acts(out@);
        if repoint_tunnels(&mut self.tunnels, from, to) {
            effects::ask(out, Effect::Save(Store::Tunnels));
        }
        if repoint_hosts(&mut self.ssh_hosts, from, to) {
            effects::ask(out, Effect::Save(Store::Ssh));
        }
        if repoint_conns(&mut self.rdp_conns, from, to) {
            effects::ask(out, Effect::Save(Store::Rdp));
        }
        assert(acts(out@) =~= was + rename_saves(
            old(self).tunnels@,
            old(self).ssh_hosts@,
            old(self).rdp_conns@,
            from@,
        ));
    }

    /// Enter in the tunnel form.
    pub fn submit_form(&mut self) -> (r: Vec<Effect>)
        requires
            old(self).wf(),
        ensures
            final(self).wf(),
            submitted_tunnel(*old(self), *final(self), acts(r@)),
    {
        match self.form.to_tunnel() {
            Err(e) => {
                self.form.error = Some(e);
                effects::nothing()
            },
            Ok(t) => {
                let ghost a = *self;
                let r = self.store_tunnel(t);
                assert(stored_tunnel(a, *self, t, acts(r@)));
                r
            },
        }
    }

    #[verifier::rlimit(30)]
    fn store_tunnel(&mut self, t: Tunnel) -> (r: Vec<Effect>)
        requires
            old(self).wf(),
        ensures
            final(self).wf(),
            stored_tunnel(*old(self), *final(self), t, acts(r@)),
    {
        let ghost a = *self;
        let editing: Option<usize> = match self.form_mode {
            FormMode::Edit(i) => Some(i),
            _ => None,
        };
        let ghost place = edited_tunnel(a.form_mode);
        if name_taken(self.tunnels.as_slice(), t.name.as_str(), editing) {
            self.form.error = Some(cat3("a tunnel named '", t.name.as_str(), "' already exists"));
            return effects::nothing();
        }
        // Catch a → b → a before it is saved; the picker already rules out
        // a → a.
        let candidate = self.with_tunnel(&t, editing);
        let coming = self.coming(&t, editing);
        match tunnel_cycle(coming.as_slice(), t.name.as_str()) {
            Some(cycle) => {
                self.form.error = Some(cat("that makes a dependency cycle: ", cycle.as_str()));
                return effects::nothing();
            },
            None => {},
        }
        proof {
            lemma_nothing_loops(a, t, coming@);
        }
        self.keep_tunnel(t, editing, candidate)
    }

    /// The tunnels with one put in, and what depended on it still pointing at it.
    fn coming(&self, t: &Tunnel, editing: Option<usize>) -> (r: Vec<Tunnel>)
        requires
            match editing {
                Some(i) => self.form_mode == FormMode::Edit(i) && i < self.tunnels@.len(),
                None => !(self.form_mode is Edit),
            },
        ensures
            to_be(*self, *t, r@),
    {
        let mut all = self.with_tunnel(t, editing);
        match editing {
            Some(i) => {
                let was = &self.tunnels[i].name;
                if !text::same(was.as_str(), t.name.as_str()) {
                    let _ = repoint_tunnels(&mut all, was.as_str(), t.name.as_str());
                }
            },
            None => {},
        }
        all
    }

    #[verifier::rlimit(30)]
    fn keep_tunnel(
        &mut self,
        t: Tunnel,
        editing: Option<usize>,
        candidate: Vec<Tunnel>,
    ) -> (r: Vec<Effect>)
        requires
            old(self).wf(),
            match editing {
                Some(i) => old(self).form_mode == FormMode::Edit(i),
                None => !(old(self).form_mode is Edit),
            },
            candidate@ == placed(old(self).tunnels@, t, edited_tunnel(old(self).form_mode)),
        ensures
            final(self).wf(),
            kept_tunnel(*old(self), *final(self), t, acts(r@)),
    {
        let ghost a = *self;
        let ghost all = candidate@;
        let mut out = effects::nothing();
        let new_name = t.name.clone();
        let old_name = match editing {
            Some(i) => self.tunnels[i].name.clone(),
            None => t.name.clone(),
        };
        if editing.is_some() && holds_name(self.active.as_slice(), old_name.as_str()) {
            self.stop_tunnel(old_name.as_str(), &mut out);
            effects::flash(
                &mut out,
                "tunnel stopped — press Enter to start with new settings",
                false,
            );
        }
        let ghost m = *self;
        self.tunnels = candidate;
        if !text::same(old_name.as_str(), new_name.as_str()) {
            self.rename_dependency(old_name.as_str(), new_name.as_str(), &mut out);
            proof {
                lemma_repointed_groups(
                    a.ssh_hosts@,
                    self.ssh_hosts@,
                    a.rdp_conns@,
                    self.rdp_conns@,
                    old_name@,
                    new_name@,
                );
            }
        }
        self.form_mode = FormMode::Closed;
        self.rebuild_rows();
        effects::ask(&mut out, Effect::Save(Store::Tunnels));
        let ghost stops = editing is Some && has_name(a.active@, old_name@);
        assert(acts(out@) =~= (if stops {
            stop_acts(a.active@, old_name@).push(
                Act::Flash(
                    "tunnel stopped — press Enter to start with new settings"@,
                    false,
                ),
            )
        } else {
            Seq::empty()
        }) + (if old_name@ != t.name@ {
            rename_saves(all, a.ssh_hosts@, a.rdp_conns@, old_name@)
        } else {
            Seq::empty()
        }) + seq![Act::Save(Store::Tunnels)]);
        out
    }

    /// The tunnels with one put in.
    fn with_tunnel(&self, t: &Tunnel, editing: Option<usize>) -> (r: Vec<Tunnel>)
        requires
            editing matches Some(i) ==> i < self.tunnels@.len(),
        ensures
            r@ == placed(
                self.tunnels@,
                *t,
                match editing {
                    Some(i) => Some(i as int),
                    None => None,
                },
            ),
    {
        let mut all: Vec<Tunnel> = Vec::new();
        let mut i: usize = 0;
        while i < self.tunnels.len()
            invariant
                i <= self.tunnels@.len(),
                all@ == self.tunnels@.take(i as int),
            decreases self.tunnels@.len() - i,
        {
            all.push(self.tunnels[i].clone());
            i = i + 1;
            assert(all@ =~= self.tunnels@.take(i as int));
        }
        assert(all@ =~= self.tunnels@);
        match editing {
            Some(k) => {
                all[k] = t.clone();
            },
            None => {
                all.push(t.clone());
            },
        }
        all
    }

    /// Delete a tunnel.
    #[verifier::rlimit(30)]
    pub fn delete_tunnel(&mut self, idx: usize) -> (r: Vec<Effect>)
        requires
            old(self).wf(),
        ensures
            final(self).wf(),
            deleted_tunnel(*old(self), *final(self), idx as int, acts(r@)),
    {
        let ghost a = *self;
        self.form_mode = FormMode::Closed;
        let mut out = effects::nothing();
        if idx >= self.tunnels.len() {
            return out;
        }
        let name = self.tunnels[idx].name.clone();
        if holds_name(self.active.as_slice(), name.as_str()) {
            self.stop_tunnel(name.as_str(), &mut out);
        }
        assert(acts(out@) =~= stop_acts(a.active@, name@));
        let orphaned = self.dependents_of(name.as_str());
        assert(texts(orphaned@).len() == orphaned@.len());
        let _ = self.tunnels.remove(idx);
        self.rebuild_rows();
        if orphaned.len() == 0 {
            effects::ask(
                &mut out,
                Effect::SaveThen(Store::Tunnels, cat3("deleted '", name.as_str(), "'"), false),
            );
        } else {
            let mut msg = cat4(
                "deleted '",
                name.as_str(),
                "' — ",
                text::join(&orphaned, ", ").as_str(),
            );
            msg.push_str(" now depend(s) on a missing tunnel");
            effects::ask(&mut out, Effect::SaveThen(Store::Tunnels, msg, true));
        }
        out
    }
}

// ---------------------------------------------------------------------------
// What holds of the list of tunnels
// ---------------------------------------------------------------------------

/// After a rename nothing depends on the old name any more, and what did depends
/// on the new one.
pub proof fn law_rename_leaves_nothing_behind(
    a: Seq<Tunnel>,
    b: Seq<Tunnel>,
    from: Seq<char>,
    to: Seq<char>,
)
    requires
        tunnels_repointed(a, b, from, to),
        from != to,
    ensures
        !tunnels_use(b, from),
        forall|i: int|
            0 <= i < a.len() ==> (#[trigger] a[i]).depends_on@ == from ==> b[i].depends_on@ == to,
        forall|i: int| 0 <= i < a.len() ==> (#[trigger] b[i]).name@ == a[i].name@,
{
    assert forall|i: int| 0 <= i < b.len() implies (#[trigger] b[i]).depends_on@ != from by {
        if a[i].depends_on@ == from {
        } else {
        }
    }
}

/// No two tunnels share a name once one has been stored, if none did before.
pub proof fn law_names_stay_apart(s: Seq<Tunnel>, t: Tunnel, editing: Option<int>)
    requires
        crate::live::one_each(s),
        !name_in_use(s, t.name@, editing),
        editing matches Some(i) ==> 0 <= i < s.len(),
    ensures
        crate::live::one_each(placed(s, t, editing)),
{
    let r = placed(s, t, editing);
    assert forall|i: int, j: int| 0 <= i < j < r.len() implies (#[trigger] r[i]).name_spec() != (
    #[trigger] r[j]).name_spec() by {
        match editing {
            Some(e) => {
                if i == e {
                    assert(s[j].name_spec() != t.name@);
                } else if j == e {
                    assert(s[i].name_spec() != t.name@);
                } else {
                    assert(s[i].name_spec() != s[j].name_spec());
                }
            },
            None => {
                if j == s.len() {
                    assert(s[i].name_spec() != t.name@);
                } else {
                    assert(s[i].name_spec() != s[j].name_spec());
                }
            },
        }
    }
}

}
