//! What the keys of the tabs do to what they act on, in terms of the entry or the
//! group under the cursor.

use vstd::prelude::*;
use crate::activation::clash_of;
use crate::activation_laws::{has_session, is_running};
use crate::app::App;
use crate::cursor::{chosen, law_chosen, names_at, under, ints};
use crate::driving::activated;
use crate::effects::{Act, Store};
use crate::live::{
    has_name, law_put_in_is_there, law_taken_out_is_gone, lemma_has_name, lemma_place, one_each,
    place_of, LiveTunnel, Named, Windows,
};
use crate::plan::{jobs, Job};
use crate::rdp_form::RdpMode;
use crate::rdp_tab::{
    cleared_rdp, conn_idle, conn_runs, deleted_conn, disconnect_acts, password_keyed,
    reconnected_rdp, stored_conn, toggled_rdp,
};
use crate::rows::{groups_of, lemma_places, Grouped, RowItem};
use crate::running::{close_acts, without_all};
use crate::running_laws::{
    law_taken_down_is_gone, law_the_right_tunnels_are_stopped, lemma_out_with_all,
};
use crate::screen::{Key, KeyCode};
use crate::ssh_form::SshMode;
use crate::ssh_tab::{
    cleared_ssh, deleted_host, forgot_password, last_is, one_fewer, one_more, opened_ssh, ssh_jobs,
    stored_host, way_to_open,
};
use crate::tunnel::Status;
use crate::tunnel_form::FormMode;
use crate::tunnels_tab::{
    cleared_tunnels, deleted_tunnel, failed_names, kept_tunnel, name_in_use, restart_acts,
    restarted_tunnels, stored_tunnel, toggled_tunnels, tunnel_jobs,
};
use crate::types::{RdpConnection, SshHost, Tunnel};
use crate::vpn::ProviderId;
use crate::vpn_tab::{foreign_stopping, is_forced, requirement_of, toggled_vpn};
use crate::vpn_view::Foreign;

verus! {

// ---------------------------------------------------------------------------
// What is under the cursor
// ---------------------------------------------------------------------------

/// The entry at `i` is under the cursor: its own row is, or the header of its
/// group.
pub open spec fn selected<T: Grouped>(rows: Seq<RowItem>, at: int, items: Seq<T>, i: int) -> bool {
    &&& 0 <= i < items.len()
    &&& 0 <= at < rows.len()
    &&& match rows[at] {
        RowItem::Item(k) => k == i,
        RowItem::Group(g) => items[i].group_spec() == g@,
    }
}

proof fn lemma_under<T: Grouped>(rows: Seq<RowItem>, at: int, items: Seq<T>)
    requires
        crate::app::rows_ok(rows, items),
    ensures
        under(rows, at, groups_of(items)) matches Some(idxs) ==> forall|i: int| #[trigger]
            idxs.contains(i) <==> selected(rows, at, items, i),
        under(rows, at, groups_of(items)) is None ==> forall|i: int| !#[trigger] selected(
            rows,
            at,
            items,
            i,
        ),
{
    if 0 <= at < rows.len() {
        let idxs = under(rows, at, groups_of(items))->0;
        crate::app::lemma_row_in_range(rows, items, at);
        match rows[at] {
            RowItem::Item(k) => {
                assert(idxs == seq![k as int]);
                assert(idxs[0] == k);
            },
            RowItem::Group(g) => {
                lemma_places(groups_of(items), g@);
            },
        }
    }
}

// ---------------------------------------------------------------------------
// Tunnels
// ---------------------------------------------------------------------------

/// Enter on tunnels that are not all running brings them up, all of them in one
/// plan and nothing else; on tunnels that all run it stops every one of them, and
/// no other.
pub proof fn law_enter_toggles_the_tunnels(a: App, b: App, now: int, out: Seq<Act>, i: int)
    requires
        a.wf(),
        toggled_tunnels(a, b, now, out),
        selected(a.rows@, a.selected as int, a.tunnels@, i),
    ensures
        !is_running(a.active@, a.tunnels@[i].name@) ==> exists|targets: Seq<Job>| #[trigger]
            activated(a, b, targets, now, out) && targets.contains(
                Job::Tunnel(a.tunnels@[i].name@),
            ) && forall|j: Job| #[trigger] targets.contains(j) ==> exists|k: int| #[trigger]
                selected(a.rows@, a.selected as int, a.tunnels@, k) && j == Job::Tunnel(
                    a.tunnels@[k].name@,
                ),
        (forall|k: int| #[trigger]
            selected(a.rows@, a.selected as int, a.tunnels@, k) ==> is_running(
                a.active@,
                a.tunnels@[k].name@,
            )) ==> out.contains(Act::StopTunnel(a.tunnels@[i].name@)) && !is_running(
            b.active@,
            a.tunnels@[i].name@,
        ) && forall|n: Seq<char>|
            (forall|k: int| #[trigger]
                selected(a.rows@, a.selected as int, a.tunnels@, k) ==> a.tunnels@[k].name@ != n)
                ==> (#[trigger] is_running(b.active@, n) <==> is_running(a.active@, n)),
{
    let at = a.selected as int;
    lemma_under(a.rows@, at, a.tunnels@);
    let idxs = under(a.rows@, at, groups_of(a.tunnels@))->0;
    let names = names_at(a.tunnels@, idxs);
    let name = a.tunnels@[i].name@;
    assert(idxs.contains(i));
    let m = choose|m: int| 0 <= m < idxs.len() && idxs[m] == i;
    assert(names[m] == name);
    lemma_has_name(a.active@, name);
    if !is_running(a.active@, name) {
        assert(!has_name(a.active@, names[m]));
        let targets = tunnel_jobs(names);
        assert(targets[m] == Job::Tunnel(name));
        assert forall|j: Job| #[trigger] targets.contains(j) implies exists|k: int| #[trigger]
            selected(a.rows@, at, a.tunnels@, k) && j == Job::Tunnel(a.tunnels@[k].name@) by {
            let x = choose|x: int| 0 <= x < targets.len() && targets[x] == j;
            assert(idxs.contains(idxs[x]));
            assert(selected(a.rows@, at, a.tunnels@, idxs[x]));
        }
        assert(activated(a, b, targets, now, out));
    }
    if forall|k: int| #[trigger]
        selected(a.rows@, at, a.tunnels@, k) ==> is_running(a.active@, a.tunnels@[k].name@) {
        assert forall|x: int| 0 <= x < names.len() implies has_name(a.active@, #[trigger] names[x]) by {
            assert(idxs.contains(idxs[x]));
            assert(selected(a.rows@, at, a.tunnels@, idxs[x]));
            lemma_has_name(a.active@, names[x]);
        }
        law_the_right_tunnels_are_stopped(a.active@, names, name);
        assert(names.contains(name));
        law_taken_down_is_gone(a, b, names, Seq::empty(), name);
        assert forall|n: Seq<char>|
            (forall|k: int| #[trigger]
                selected(a.rows@, at, a.tunnels@, k) ==> a.tunnels@[k].name@ != n) implies (
        #[trigger] is_running(b.active@, n) <==> is_running(a.active@, n)) by {
            law_taken_down_is_gone(a, b, names, Seq::empty(), n);
            if names.contains(n) {
                let x = choose|x: int| 0 <= x < names.len() && names[x] == n;
                assert(idxs.contains(idxs[x]));
                assert(selected(a.rows@, at, a.tunnels@, idxs[x]));
            }
        }
    }
}

proof fn lemma_restart_acts(live: Seq<LiveTunnel>, ts: Seq<Tunnel>, idxs: Seq<int>, i: int)
    requires
        idxs.contains(i),
    ensures
        restart_acts(live, ts, idxs).contains(Act::StartTunnel(i)),
    decreases idxs.len(),
{
    let all = restart_acts(live, ts, idxs);
    let head = idxs.drop_last();
    let before = restart_acts(live, ts, head);
    if idxs.last() == i {
        assert(all.last() == Act::StartTunnel(i));
        assert(all[all.len() - 1] == Act::StartTunnel(i));
    } else {
        let k = choose|k: int| 0 <= k < idxs.len() && idxs[k] == i;
        assert(head[k] == i);
        lemma_restart_acts(live, ts, head, i);
        let x = choose|x: int| 0 <= x < before.len() && before[x] == Act::StartTunnel(i);
        assert(all[x] == Act::StartTunnel(i));
    }
}

/// `r` starts every running tunnel under the cursor again, and says so where none
/// is running.
pub proof fn law_restart_restarts_what_runs(a: App, b: App, out: Seq<Act>, i: int)
    requires
        a.wf(),
        restarted_tunnels(a, b, out),
        selected(a.rows@, a.selected as int, a.tunnels@, i),
    ensures
        is_running(a.active@, a.tunnels@[i].name@) ==> out.contains(Act::StartTunnel(i))
            && !is_running(b.active@, a.tunnels@[i].name@),
        (forall|k: int| #[trigger]
            selected(a.rows@, a.selected as int, a.tunnels@, k) ==> !is_running(
                a.active@,
                a.tunnels@[k].name@,
            )) ==> b == a && out.len() == 1 && (out[0] matches Act::Flash(_, error) && error),
{
    let at = a.selected as int;
    lemma_under(a.rows@, at, a.tunnels@);
    let idxs = under(a.rows@, at, groups_of(a.tunnels@))->0;
    let p = crate::tunnels_tab::is_running(a.tunnels@, a.active@);
    let running = chosen(idxs, p);
    let name = a.tunnels@[i].name@;
    law_chosen(idxs, p);
    lemma_has_name(a.active@, name);
    assert(idxs.contains(i));
    let m = choose|m: int| 0 <= m < idxs.len() && idxs[m] == i;
    if is_running(a.active@, name) {
        assert(p(idxs[m]));
        assert(running.contains(i));
        lemma_restart_acts(a.active@, a.tunnels@, running, i);
        let acts = restart_acts(a.active@, a.tunnels@, running);
        let x = choose|x: int| 0 <= x < acts.len() && acts[x] == Act::StartTunnel(i);
        assert(out[x] == Act::StartTunnel(i));
        let names = names_at(a.tunnels@, running);
        let y = choose|y: int| 0 <= y < running.len() && running[y] == i;
        assert(names[y] == name);
        law_taken_down_is_gone(a, b, names, Seq::empty(), name);
    }
    if forall|k: int| #[trigger]
        selected(a.rows@, at, a.tunnels@, k) ==> !is_running(a.active@, a.tunnels@[k].name@) {
        if running.len() > 0 {
            let k = running[0];
            assert(p(k));
            assert(idxs.contains(k));
            assert(selected(a.rows@, at, a.tunnels@, k));
            lemma_has_name(a.active@, a.tunnels@[k].name@);
        }
    }
}

/// `c` drops the tunnels that have failed, and leaves those that are connecting or
/// up as they are.
pub proof fn law_clearing_drops_what_failed(a: App, b: App, out: Seq<Act>, i: int)
    requires
        a.wf(),
        cleared_tunnels(a, b, out),
        0 <= i < a.active@.len(),
    ensures
        is_running(b.active@, a.active@[i].name@) <==> a.active@[i].status != Status::Failed,
{
    let failed = failed_names(a.active@);
    let name = a.active@[i].name@;
    assert(a.active@[i].name_spec() == name);
    assert(is_running(a.active@, name));
    if a.active@[i].status == Status::Failed {
        crate::reconnect::lemma_failed_is_listed(a.active@, i);
    } else if failed.contains(name) {
        crate::reconnect::lemma_listed_has_failed(a.active@, name);
        let k = choose|k: int|
            0 <= k < a.active@.len() && (#[trigger] a.active@[k]).name@ == name
                && a.active@[k].status == Status::Failed;
        if k < i {
            assert(a.active@[k].name_spec() != a.active@[i].name_spec());
        } else {
            assert(a.active@[i].name_spec() != a.active@[k].name_spec());
        }
    }
    if failed.len() > 0 {
        law_taken_down_is_gone(a, b, failed, Seq::empty(), name);
    }
}

/// A new tunnel goes to the end of the list, an edited one into its own place, and
/// the list is written. One whose name another tunnel has is not stored, and the
/// form says so. An edited tunnel that is running is stopped.
pub proof fn law_submitted_tunnel_is_stored(a: App, b: App, t: Tunnel, out: Seq<Act>)
    requires
        a.wf(),
        stored_tunnel(a, b, t, out),
    ensures
        a.form_mode is Add && (exists|k: int|
            0 <= k < a.tunnels@.len() && (#[trigger] a.tunnels@[k]).name@ == t.name@)
            ==> b.tunnels == a.tunnels && out.len() == 0 && b.form.error is Some && b.form_mode
            == a.form_mode,
        a.form_mode is Add && kept_tunnel(a, b, t, out) ==> b.tunnels@ == a.tunnels@.push(t)
            && b.active == a.active && out == seq![Act::Save(Store::Tunnels)],
        a.form_mode matches FormMode::Edit(i) ==> (exists|k: int|
            0 <= k < a.tunnels@.len() && k != i && (#[trigger] a.tunnels@[k]).name@ == t.name@)
            ==> b.tunnels == a.tunnels && out.len() == 0 && b.form.error is Some,
        a.form_mode matches FormMode::Edit(i) ==> kept_tunnel(a, b, t, out) ==> {
            let was = a.tunnels@[i as int].name@;
            &&& b.tunnels@.len() == a.tunnels@.len()
            &&& was == t.name@ ==> b.tunnels@ == a.tunnels@.update(i as int, t)
            &&& forall|k: int|
                0 <= k < a.tunnels@.len() && k != i ==> (#[trigger] b.tunnels@[k]).name
                    == a.tunnels@[k].name && b.tunnels@[k].local_port == a.tunnels@[k].local_port
            &&& b.tunnels@[i as int].name@ == t.name@
            &&& b.tunnels@[i as int].local_port == t.local_port && b.tunnels@[i as int].remote_port
                == t.remote_port && b.tunnels@[i as int].ssh_host == t.ssh_host
            &&& out.last() == Act::Save(Store::Tunnels)
            &&& !is_running(b.active@, was)
            &&& is_running(a.active@, was) ==> out.contains(Act::StopTunnel(was))
        },
        b == (App { form: b.form, ..a }) || kept_tunnel(a, b, t, out),
{
    match a.form_mode {
        FormMode::Edit(i) => {
            let was = a.tunnels@[i as int].name@;
            lemma_has_name(a.active@, was);
            lemma_has_name(b.active@, was);
            law_taken_out_is_gone(a.active@, was, was);
            if exists|k: int|
                0 <= k < a.tunnels@.len() && k != i && (#[trigger] a.tunnels@[k]).name@ == t.name@ {
                let k = choose|k: int|
                    0 <= k < a.tunnels@.len() && k != i && (#[trigger] a.tunnels@[k]).name@
                        == t.name@;
                assert(a.tunnels@[k].name_spec() == t.name@);
                assert(name_in_use(a.tunnels@, t.name@, Some(i as int)));
            }
            if kept_tunnel(a, b, t, out) {
                let all = a.tunnels@.update(i as int, t);
                if was != t.name@ {
                    assert forall|k: int| 0 <= k < a.tunnels@.len() && k != i implies (
                    #[trigger] b.tunnels@[k]).name == a.tunnels@[k].name && b.tunnels@[k].local_port
                        == a.tunnels@[k].local_port by {
                        assert(all[k] == a.tunnels@[k]);
                    }
                    assert(all[i as int] == t);
                    assert(b.tunnels@[i as int].name == t.name);
                }
                assert(out.last() == Act::Save(Store::Tunnels));
                if has_name(a.active@, was) {
                    assert(out[0] == Act::StopTunnel(was));
                }
            }
        },
        FormMode::Add => {
            if exists|k: int|
                0 <= k < a.tunnels@.len() && (#[trigger] a.tunnels@[k]).name@ == t.name@ {
                let k = choose|k: int|
                    0 <= k < a.tunnels@.len() && (#[trigger] a.tunnels@[k]).name@ == t.name@;
                assert(a.tunnels@[k].name_spec() == t.name@);
                assert(name_in_use(a.tunnels@, t.name@, None));
            }
            if kept_tunnel(a, b, t, out) {
                assert(out =~= seq![Act::Save(Store::Tunnels)]);
            }
        },
        _ => {},
    }
}

/// What was stacked on a tunnel that is renamed follows it to its new name, hosts
/// and desktop connections as well as tunnels, and their files are written too.
pub proof fn law_dependents_follow_a_renamed_tunnel(
    a: App,
    b: App,
    t: Tunnel,
    out: Seq<Act>,
    i: usize,
    k: int,
)
    requires
        kept_tunnel(a, b, t, out),
        a.form_mode == FormMode::Edit(i),
        i < a.tunnels@.len(),
        a.tunnels@[i as int].name@ != t.name@,
    ensures
        ({
            let was = a.tunnels@[i as int].name@;
            &&& 0 <= k < a.tunnels@.len() && k != i && a.tunnels@[k].depends_on@ == was
                ==> b.tunnels@[k].depends_on@ == t.name@
            &&& 0 <= k < a.tunnels@.len() && k != i && a.tunnels@[k].depends_on@ != was
                ==> b.tunnels@[k] == a.tunnels@[k]
            &&& 0 <= k < a.ssh_hosts@.len() && a.ssh_hosts@[k].depends_on@ == was
                ==> b.ssh_hosts@[k].depends_on@ == t.name@ && b.ssh_hosts@[k].name
                == a.ssh_hosts@[k].name && out.contains(Act::Save(Store::Ssh))
            &&& 0 <= k < a.ssh_hosts@.len() && a.ssh_hosts@[k].depends_on@ != was
                ==> b.ssh_hosts@[k] == a.ssh_hosts@[k]
            &&& 0 <= k < a.rdp_conns@.len() && a.rdp_conns@[k].depends_on@ == was
                ==> b.rdp_conns@[k].depends_on@ == t.name@ && b.rdp_conns@[k].name
                == a.rdp_conns@[k].name && out.contains(Act::Save(Store::Rdp))
            &&& 0 <= k < a.rdp_conns@.len() && a.rdp_conns@[k].depends_on@ != was
                ==> b.rdp_conns@[k] == a.rdp_conns@[k]
        }),
{
    let was = a.tunnels@[i as int].name@;
    let all = a.tunnels@.update(i as int, t);
    if 0 <= k < a.tunnels@.len() && k != i {
        assert(all[k] == a.tunnels@[k]);
    }
    if 0 <= k < a.ssh_hosts@.len() {
        assert(b.ssh_hosts@[k].name == a.ssh_hosts@[k].name);
        if a.ssh_hosts@[k].depends_on@ == was {
            assert(crate::tunnels_tab::hosts_use(a.ssh_hosts@, was));
            let m = out.len() - 2 - (if crate::tunnels_tab::conns_use(a.rdp_conns@, was) {
                1int
            } else {
                0
            });
            assert(out[m] == Act::Save(Store::Ssh));
        }
    }
    if 0 <= k < a.rdp_conns@.len() {
        assert(b.rdp_conns@[k].name == a.rdp_conns@[k].name);
        if a.rdp_conns@[k].depends_on@ == was {
            assert(crate::tunnels_tab::conns_use(a.rdp_conns@, was));
            assert(out[out.len() - 2] == Act::Save(Store::Rdp));
        }
    }
}

/// A deleted tunnel is gone from the list and the others stay in their order; if
/// it was running it is stopped, and the list is written.
pub proof fn law_deleted_tunnel_is_gone(a: App, b: App, idx: int, out: Seq<Act>)
    requires
        a.wf(),
        0 <= idx < a.tunnels@.len(),
        deleted_tunnel(a, b, idx, out),
    ensures
        a.tunnels@ == b.tunnels@.insert(idx, a.tunnels@[idx]),
        !is_running(b.active@, a.tunnels@[idx].name@),
        is_running(a.active@, a.tunnels@[idx].name@) ==> out.contains(
            Act::StopTunnel(a.tunnels@[idx].name@),
        ),
        out.last() matches Act::SaveThen(store, _, _) && store == Store::Tunnels,
        b.ssh_hosts == a.ssh_hosts && b.rdp_conns == a.rdp_conns,
{
    let name = a.tunnels@[idx].name@;
    assert(b.tunnels@.insert(idx, a.tunnels@[idx]) =~= a.tunnels@);
    lemma_has_name(a.active@, name);
    lemma_has_name(b.active@, name);
    law_taken_out_is_gone(a.active@, name, name);
    if has_name(a.active@, name) {
        assert(out[0] == Act::StopTunnel(name));
    }
}

// ---------------------------------------------------------------------------
// SSH
// ---------------------------------------------------------------------------

/// Enter on hosts opens a session for each of them, in one plan.
pub proof fn law_enter_opens_the_hosts(a: App, b: App, now: int, out: Seq<Act>, i: int)
    requires
        a.wf(),
        opened_ssh(a, b, now, out),
        selected(a.ssh_rows@, a.ssh_selected as int, a.ssh_hosts@, i),
    ensures
        exists|targets: Seq<Job>| #[trigger]
            activated(a, b, targets, now, out) && targets.contains(
                Job::Ssh(a.ssh_hosts@[i].name@),
            ) && forall|j: Job| #[trigger] targets.contains(j) ==> exists|k: int| #[trigger]
                selected(a.ssh_rows@, a.ssh_selected as int, a.ssh_hosts@, k) && j == Job::Ssh(
                    a.ssh_hosts@[k].name@,
                ),
{
    let at = a.ssh_selected as int;
    lemma_under(a.ssh_rows@, at, a.ssh_hosts@);
    let idxs = under(a.ssh_rows@, at, groups_of(a.ssh_hosts@))->0;
    let names = names_at(a.ssh_hosts@, idxs);
    assert(idxs.contains(i));
    let m = choose|m: int| 0 <= m < idxs.len() && idxs[m] == i;
    let targets = ssh_jobs(names);
    assert(targets[m] == Job::Ssh(a.ssh_hosts@[i].name@));
    assert forall|j: Job| #[trigger] targets.contains(j) implies exists|k: int| #[trigger]
        selected(a.ssh_rows@, at, a.ssh_hosts@, k) && j == Job::Ssh(a.ssh_hosts@[k].name@) by {
        let x = choose|x: int| 0 <= x < targets.len() && targets[x] == j;
        assert(idxs.contains(idxs[x]));
        assert(selected(a.ssh_rows@, at, a.ssh_hosts@, idxs[x]));
    }
    assert(activated(a, b, targets, now, out));
}

/// A session is opened wherever its host exists, unless a password is stored for
/// it that nothing here can carry; it is opened the way that is configured.
pub proof fn law_session_opens_where_it_can(a: App, k: int)
    requires
        0 <= k < a.ssh_hosts@.len(),
        forall|i: int| 0 <= i < k ==> (#[trigger] a.ssh_hosts@[i]).name@ != a.ssh_hosts@[k].name@,
    ensures
        way_to_open(a, a.ssh_hosts@[k].name@) is Nowhere <==> a.ssh_hosts@[k].password@.len() > 0
            && a.ssh_password_helper is Nothing,
        way_to_open(a, a.ssh_hosts@[k].name@) is Window ==> a.ssh_launcher is Window,
        way_to_open(a, a.ssh_hosts@[k].name@) is Here ==> a.ssh_launcher is Inline,
{
    let n = a.ssh_hosts@[k].name@;
    lemma_place(a.ssh_hosts@, n);
    assert(a.ssh_hosts@[k].name_spec() == n);
    if place_of(a.ssh_hosts@, n) < k {
        assert(a.ssh_hosts@[place_of(a.ssh_hosts@, n)].name_spec() == n);
    }
}

/// How many windows of a host are open.
pub open spec fn windows_of(ws: Seq<Windows>, name: Seq<char>) -> int {
    if has_name(ws, name) {
        ws[place_of(ws, name)].open as int
    } else {
        0
    }
}

/// A window that is opened is counted on top of those that are.
pub proof fn law_opened_window_is_counted(ws: Seq<Windows>, name: Seq<char>)
    requires
        crate::queries::window_count(ws) < usize::MAX,
    ensures
        one_more(ws, name) == windows_of(ws, name) + 1,
{
}

/// A window that closes leaves its host one fewer, and a host without windows
/// leaves the list.
pub proof fn law_closed_window_is_counted(a: Seq<Windows>, b: Seq<Windows>, name: Seq<char>)
    requires
        one_each(a),
        one_fewer(a, b, name),
    ensures
        windows_of(a, name) >= 1 ==> windows_of(b, name) == windows_of(a, name) - 1,
        windows_of(a, name) <= 1 ==> !is_running(b, name),
{
    lemma_has_name(b, name);
    lemma_place(a, name);
    law_taken_out_is_gone(a, name, name);
    if has_name(a, name) && a[place_of(a, name)].open > 1 {
        law_put_in_is_there(a, b.last());
    }
}

/// A new host goes to the end of the list, an edited one into its own place, and
/// the list is written. One whose name is taken is refused, and a password is
/// never written to disk without having been asked about.
pub proof fn law_submitted_host_is_stored(a: App, b: App, h: SshHost, out: Seq<Act>)
    requires
        stored_host(a, b, h, out),
        a.ssh_mode is Add || a.ssh_mode is Edit,
        a.ssh_mode matches SshMode::Edit(i) ==> i < a.ssh_hosts@.len(),
    ensures
        ({
            let taken = exists|k: int|
                0 <= k < a.ssh_hosts@.len() && (#[trigger] a.ssh_hosts@[k]).name@ == h.name@ && !(
                a.ssh_mode matches SshMode::Edit(i) && i == k);
            &&& taken ==> b.ssh_hosts == a.ssh_hosts && out.len() == 0 && b.ssh_form.error is Some
            &&& !taken && h.password@.len() > 0 && !a.ssh_form.password_ack ==> b.ssh_hosts
                == a.ssh_hosts && out.len() == 0 && b.ssh_mode is PasswordWarning
            &&& !taken && (h.password@.len() == 0 || a.ssh_form.password_ack) ==> {
                &&& a.ssh_mode is Add ==> b.ssh_hosts@ == a.ssh_hosts@.push(h)
                &&& a.ssh_mode matches SshMode::Edit(i) ==> b.ssh_hosts@ == a.ssh_hosts@.update(
                    i as int,
                    h,
                )
                &&& out == seq![Act::Save(Store::Ssh)]
                &&& b.ssh_mode is Closed
            }
        }),
{
    let taken = exists|k: int|
        0 <= k < a.ssh_hosts@.len() && (#[trigger] a.ssh_hosts@[k]).name@ == h.name@ && !(
        a.ssh_mode matches SshMode::Edit(i) && i == k);
    let editing = crate::ssh_tab::edited_host(a.ssh_mode);
    if taken {
        let k = choose|k: int|
            0 <= k < a.ssh_hosts@.len() && (#[trigger] a.ssh_hosts@[k]).name@ == h.name@ && !(
            a.ssh_mode matches SshMode::Edit(i) && i == k);
        assert(a.ssh_hosts@[k].name_spec() == h.name@);
        assert(name_in_use(a.ssh_hosts@, h.name@, editing));
    } else if name_in_use(a.ssh_hosts@, h.name@, editing) {
        let k = choose|k: int|
            0 <= k < a.ssh_hosts@.len() && (#[trigger] a.ssh_hosts@[k]).name_spec() == h.name@
                && editing != Some(k);
        assert(a.ssh_hosts@[k].name@ == h.name@);
    }
}

/// A deleted host is gone from the list, and the others stay in their order.
pub proof fn law_deleted_host_is_gone(a: App, b: App, idx: int, out: Seq<Act>)
    requires
        0 <= idx < a.ssh_hosts@.len(),
        deleted_host(a, b, idx, out),
    ensures
        a.ssh_hosts@ == b.ssh_hosts@.insert(idx, a.ssh_hosts@[idx]),
        out.contains(Act::Save(Store::Ssh)),
        b.tunnels == a.tunnels && b.rdp_conns == a.rdp_conns && b.ssh_windows == a.ssh_windows,
{
    assert(b.ssh_hosts@.insert(idx, a.ssh_hosts@[idx]) =~= a.ssh_hosts@);
    assert(out[0] == Act::Save(Store::Ssh));
}

/// `p` drops the password of the host under the cursor and nothing else of it, and
/// writes the list where there was one to drop.
pub proof fn law_forgotten_password_is_gone(a: App, b: App, out: Seq<Act>, i: int)
    requires
        a.wf(),
        forgot_password(a, b, out),
        a.ssh_selected < a.ssh_rows@.len(),
        a.ssh_rows@[a.ssh_selected as int] == RowItem::Item(i as usize),
        0 <= i <= usize::MAX,
    ensures
        b.ssh_hosts@.len() == a.ssh_hosts@.len(),
        b.ssh_hosts@[i].password@.len() == 0,
        b.ssh_hosts@[i] == (SshHost { password: b.ssh_hosts@[i].password, ..a.ssh_hosts@[i] }),
        forall|k: int| 0 <= k < a.ssh_hosts@.len() && k != i ==> #[trigger] b.ssh_hosts@[k]
            == a.ssh_hosts@[k],
        a.ssh_hosts@[i].password@.len() > 0 <==> out.contains(Act::Save(Store::Ssh)),
{
    crate::app::lemma_row_in_range(a.ssh_rows@, a.ssh_hosts@, a.ssh_selected as int);
    if a.ssh_hosts@[i].password@.len() > 0 {
        assert(out[0] == Act::Save(Store::Ssh));
    } else {
        assert(out[0] is Flash);
    }
}

/// How a host's last session ended is kept for that host, in place of the one
/// before.
pub proof fn law_last_session_is_kept(
    a: App,
    b: App,
    name: Seq<char>,
    o: crate::ssh::SessionOutcome,
)
    requires
        one_each(a.ssh_last@),
        last_is(a, b, name, o),
    ensures
        one_each(b.ssh_last@),
        exists|i: int|
            0 <= i < b.ssh_last@.len() && (#[trigger] b.ssh_last@[i]).name@ == name
                && b.ssh_last@[i].outcome == o,
{
    law_put_in_is_there(a.ssh_last@, b.ssh_last@.last());
    let i = b.ssh_last@.len() - 1;
    assert(b.ssh_last@[i].name@ == name);
}

// ---------------------------------------------------------------------------
// RDP
// ---------------------------------------------------------------------------

proof fn lemma_disconnected(live: Seq<crate::live::LiveRdp>, names: Seq<Seq<char>>, n: Seq<char>)
    requires
        one_each(live),
        names.contains(n),
        has_name(live, n),
    ensures
        disconnect_acts(live, names).contains(Act::StopRdp(n)),
    decreases names.len(),
{
    let all = disconnect_acts(live, names);
    let head = names.drop_last();
    let before = disconnect_acts(live, head);
    let x = Act::StopRdp(n);
    if head.contains(n) {
        lemma_disconnected(live, head, n);
        let i = choose|i: int| 0 <= i < before.len() && before[i] == x;
        assert(all[i] == x);
    } else {
        let i = choose|i: int| 0 <= i < names.len() && names[i] == n;
        if i < head.len() {
            assert(head[i] == n);
        }
        assert(names.last() == n);
        lemma_out_with_all(live, head, n);
        let more = close_acts(without_all(live, head), n);
        assert(more[0] == x);
        assert(all[before.len() as int] == x);
    }
}

/// Enter on desktop connections that all have a running session closes every one
/// of them. Otherwise it asks for the passwords of exactly those that have none,
/// and closes nothing.
pub proof fn law_enter_toggles_the_desktops(a: App, b: App, out: Seq<Act>, i: int)
    requires
        a.wf(),
        toggled_rdp(a, b, out),
        selected(a.rdp_rows@, a.rdp_selected as int, a.rdp_conns@, i),
    ensures
        (forall|k: int| #[trigger]
            selected(a.rdp_rows@, a.rdp_selected as int, a.rdp_conns@, k) ==> has_session(
                a.rdp_active@,
                a.rdp_conns@[k].name@,
            )) ==> out.contains(Act::StopRdp(a.rdp_conns@[i].name@)) && !is_running(
            b.rdp_active@,
            a.rdp_conns@[i].name@,
        ),
        a.rdp_installed && !has_session(a.rdp_active@, a.rdp_conns@[i].name@) ==> b.rdp_active
            == a.rdp_active && out.len() == 0 && (b.rdp_mode matches RdpMode::Password {
            pending,
            collected,
            input,
        } && ints(pending@).contains(i) && collected@.len() == 0 && input@.len() == 0),
        b.rdp_mode matches RdpMode::Password { pending, .. } ==> b.rdp_mode != a.rdp_mode
            ==> forall|k: int| #[trigger]
            ints(pending@).contains(k) ==> selected(
                a.rdp_rows@,
                a.rdp_selected as int,
                a.rdp_conns@,
                k,
            ) && !has_session(a.rdp_active@, a.rdp_conns@[k].name@),
{
    let at = a.rdp_selected as int;
    lemma_under(a.rdp_rows@, at, a.rdp_conns@);
    let idxs = under(a.rdp_rows@, at, groups_of(a.rdp_conns@))->0;
    let p = conn_runs(a.rdp_conns@, a.rdp_active@);
    let q = conn_idle(a.rdp_conns@, a.rdp_active@);
    law_chosen(idxs, p);
    law_chosen(idxs, q);
    let running = chosen(idxs, p);
    let idle = chosen(idxs, q);
    let names = names_at(a.rdp_conns@, running);
    assert(idxs.contains(i));
    let m = choose|m: int| 0 <= m < idxs.len() && idxs[m] == i;
    assert forall|n: Seq<char>| #[trigger] has_session(a.rdp_active@, n)
        == crate::live::rdp_is_running(a.rdp_active@, n) by {
        crate::activation_laws::lemma_has_session(a.rdp_active@, n);
    }
    let name = a.rdp_conns@[i].name@;
    if forall|k: int| #[trigger]
        selected(a.rdp_rows@, at, a.rdp_conns@, k) ==> has_session(
            a.rdp_active@,
            a.rdp_conns@[k].name@,
        ) {
        assert forall|x: int| 0 <= x < idxs.len() implies p(#[trigger] idxs[x]) by {
            assert(idxs.contains(idxs[x]));
            assert(selected(a.rdp_rows@, at, a.rdp_conns@, idxs[x]));
            assert(has_session(a.rdp_active@, a.rdp_conns@[idxs[x]].name@));
        }
        lemma_all_chosen(idxs, p);
        assert(names[m] == name);
        assert(has_session(a.rdp_active@, name));
        lemma_disconnected(a.rdp_active@, names, name);
        law_taken_down_is_gone(a, b, Seq::empty(), names, name);
    }
    if !has_session(a.rdp_active@, name) {
        lemma_not_all_chosen(idxs, p, m);
        assert(q(idxs[m]));
        assert(idle.contains(i));
        assert(idle.len() > 0);
        if a.rdp_installed {
            assert(jobs(b.rdp_mode->collected@).len() == b.rdp_mode->collected@.len());
        }
    }
    if b.rdp_mode is Password && b.rdp_mode != a.rdp_mode {
        let pending = b.rdp_mode->pending;
        assert forall|k: int| #[trigger] ints(pending@).contains(k) implies selected(
            a.rdp_rows@,
            at,
            a.rdp_conns@,
            k,
        ) && !has_session(a.rdp_active@, a.rdp_conns@[k].name@) by {
            let x = choose|x: int| 0 <= x < idle.len() && idle[x] == k;
            assert(q(idle[x]));
            assert(idxs.contains(idle[x]));
        }
    }
}

proof fn lemma_all_chosen(idxs: Seq<int>, p: spec_fn(int) -> bool)
    requires
        forall|x: int| 0 <= x < idxs.len() ==> p(#[trigger] idxs[x]),
    ensures
        chosen(idxs, p) == idxs,
    decreases idxs.len(),
{
    if idxs.len() > 0 {
        let head = idxs.drop_last();
        assert forall|x: int| 0 <= x < head.len() implies p(#[trigger] head[x]) by {
            assert(p(idxs[x]));
        }
        assert(p(idxs[idxs.len() - 1]));
        lemma_all_chosen(head, p);
        assert(head.push(idxs.last()) =~= idxs);
    }
}

proof fn lemma_not_all_chosen(idxs: Seq<int>, p: spec_fn(int) -> bool, m: int)
    requires
        0 <= m < idxs.len(),
        !p(idxs[m]),
    ensures
        chosen(idxs, p).len() < idxs.len(),
    decreases idxs.len(),
{
    let head = idxs.drop_last();
    if m < head.len() {
        assert(head[m] == idxs[m]);
        lemma_not_all_chosen(head, p, m);
    } else {
        lemma_chosen_len(head, p);
    }
}

proof fn lemma_chosen_len(idxs: Seq<int>, p: spec_fn(int) -> bool)
    ensures
        chosen(idxs, p).len() <= idxs.len(),
    decreases idxs.len(),
{
    if idxs.len() > 0 {
        lemma_chosen_len(idxs.drop_last(), p);
    }
}

/// The password that was typed goes to the connection that was asked about. Once
/// the last one has its answer, all of them are started together; a key more
/// lengthens what is typed, and giving up starts nothing.
pub proof fn law_password_goes_to_its_connection(a: App, b: App, key: Key, now: int, out: Seq<Act>)
    requires
        password_keyed(a, b, key, now, out),
        a.rdp_mode is Password,
        a.rdp_mode->pending@.len() > 0,
        a.rdp_mode->pending@[0] < a.rdp_conns@.len(),
    ensures
        ({
            let ask = a.rdp_mode->pending@;
            let given = jobs(a.rdp_mode->collected@).push(
                Job::Rdp(a.rdp_conns@[ask[0] as int].name@, a.rdp_mode->input@),
            );
            &&& key.code is Enter && ask.len() == 1 ==> activated(
                App { rdp_mode: RdpMode::Closed, ..a },
                b,
                given,
                now,
                out,
            )
            &&& key.code is Enter && ask.len() > 1 ==> out.len() == 0 && (b.rdp_mode
                matches RdpMode::Password { pending, collected, input } && ints(pending@)
                == ints(ask).drop_first() && jobs(collected@) == given && input@.len() == 0)
            &&& key.code is Esc ==> b == (App { rdp_mode: RdpMode::Closed, ..a }) && out.len() == 0
            &&& key.code matches KeyCode::Char(c) ==> (b.rdp_mode matches RdpMode::Password {
                pending,
                input,
                ..
            } && ints(pending@) == ints(ask) && input@ == a.rdp_mode->input@.push(c))
        }),
{
    assert(ints(a.rdp_mode->pending@)[0] == a.rdp_mode->pending@[0] as int);
}

/// A new connection goes to the end of the list, an edited one into its own place,
/// and the list is written. A running session of an edited connection is closed.
pub proof fn law_submitted_connection_is_stored(a: App, b: App, c: RdpConnection, out: Seq<Act>)
    requires
        a.wf(),
        stored_conn(a, b, c, out),
        a.rdp_mode is Add || a.rdp_mode is Edit,
    ensures
        ({
            let taken = exists|k: int|
                0 <= k < a.rdp_conns@.len() && (#[trigger] a.rdp_conns@[k]).name@ == c.name@ && !(
                a.rdp_mode matches RdpMode::Edit(i) && i == k);
            &&& taken ==> b.rdp_conns == a.rdp_conns && out.len() == 0 && b.rdp_form.error is Some
            &&& !taken && a.rdp_mode is Add ==> b.rdp_conns@ == a.rdp_conns@.push(c)
            &&& !taken ==> out.contains(Act::Save(Store::Rdp)) && b.rdp_mode is Closed
            &&& !taken ==> (a.rdp_mode matches RdpMode::Edit(i) ==> {
                let was = a.rdp_conns@[i as int].name@;
                &&& b.rdp_conns@ == a.rdp_conns@.update(i as int, c)
                &&& !is_running(b.rdp_active@, was)
                &&& is_running(a.rdp_active@, was) ==> out.contains(Act::StopRdp(was))
            })
        }),
{
    let taken = exists|k: int|
        0 <= k < a.rdp_conns@.len() && (#[trigger] a.rdp_conns@[k]).name@ == c.name@ && !(
        a.rdp_mode matches RdpMode::Edit(i) && i == k);
    let editing = crate::rdp_tab::edited_conn(a.rdp_mode);
    if taken {
        let k = choose|k: int|
            0 <= k < a.rdp_conns@.len() && (#[trigger] a.rdp_conns@[k]).name@ == c.name@ && !(
            a.rdp_mode matches RdpMode::Edit(i) && i == k);
        assert(a.rdp_conns@[k].name_spec() == c.name@);
        assert(name_in_use(a.rdp_conns@, c.name@, editing));
    } else {
        if name_in_use(a.rdp_conns@, c.name@, editing) {
            let k = choose|k: int|
                0 <= k < a.rdp_conns@.len() && (#[trigger] a.rdp_conns@[k]).name_spec() == c.name@
                    && editing != Some(k);
            assert(a.rdp_conns@[k].name@ == c.name@);
        }
        assert(out[out.len() - 1] == Act::Save(Store::Rdp));
        match a.rdp_mode {
            RdpMode::Edit(i) => {
                let was = a.rdp_conns@[i as int].name@;
                lemma_has_name(a.rdp_active@, was);
                lemma_has_name(b.rdp_active@, was);
                law_taken_out_is_gone(a.rdp_active@, was, was);
                if has_name(a.rdp_active@, was) {
                    assert(out[0] == Act::StopRdp(was));
                }
            },
            _ => {},
        }
    }
}

/// A deleted connection is gone from the list and the others stay in their order;
/// its session is closed, and the list is written.
pub proof fn law_deleted_connection_is_gone(a: App, b: App, idx: int, out: Seq<Act>)
    requires
        a.wf(),
        0 <= idx < a.rdp_conns@.len(),
        deleted_conn(a, b, idx, out),
    ensures
        a.rdp_conns@ == b.rdp_conns@.insert(idx, a.rdp_conns@[idx]),
        !is_running(b.rdp_active@, a.rdp_conns@[idx].name@),
        is_running(a.rdp_active@, a.rdp_conns@[idx].name@) ==> out.contains(
            Act::StopRdp(a.rdp_conns@[idx].name@),
        ),
        out.last() matches Act::SaveThen(store, _, _) && store == Store::Rdp,
{
    let name = a.rdp_conns@[idx].name@;
    assert(b.rdp_conns@.insert(idx, a.rdp_conns@[idx]) =~= a.rdp_conns@);
    lemma_has_name(a.rdp_active@, name);
    lemma_has_name(b.rdp_active@, name);
    law_taken_out_is_gone(a.rdp_active@, name, name);
    if has_name(a.rdp_active@, name) {
        assert(out[0] == Act::StopRdp(name));
    }
}

// ---------------------------------------------------------------------------
// VPN
// ---------------------------------------------------------------------------

/// Enter on a profile that is down has its client bring up that profile; on one
/// that is up it has the client take that profile down. On a connection that was
/// not started here it stops that one, with force only where its process has been
/// asked before.
pub proof fn law_enter_toggles_the_profile(a: App, b: App, out: Seq<Act>)
    requires
        toggled_vpn(a, b, out),
        a.vpn.here().selected < a.vpn.here().profiles@.len(),
        a.vpn.here().installed,
        a.vpn.here().busy is None,
        a.vpn.providers@[a.vpn.here().id.index_spec()] == a.vpn.here(),
    ensures
        ({
            let s = a.vpn.here();
            let row = s.profiles@[s.selected as int];
            &&& row.foreign is Some ==> (out[0] matches Act::StopForeign {
                provider,
                row: at,
                force,
                ..
            } && provider == s.id && at == s.selected && (force <==> (
            row.foreign->0 matches Foreign::Process(p) && a.termed@.contains(p.pid))))
            &&& row.foreign is None && row.active && s.id != ProviderId::Openvpn ==> b == a
                && out.len() == 1 && (out[0] matches Act::Vpn { provider, profile, up, .. }
                && provider == s.id && profile == Some(row.name@) && !up)
            &&& row.foreign is None && row.active && s.id == ProviderId::Openvpn && is_running(
                a.ovpn_active@,
                row.name@,
            ) ==> out == seq![Act::StopOpenvpn(row.name@)]
            &&& row.foreign is None && !row.active && clash_of(
                a.stage(),
                Job::Vpn(requirement_of(s.id, Some(row.name@))),
            ) is None && s.id != ProviderId::Openvpn ==> b == a && out.len() == 1 && (out[0]
                matches Act::Vpn { provider, profile, up, .. } && provider == s.id && profile
                == Some(row.name@) && up)
            &&& row.foreign is None && !row.active && s.id == ProviderId::Openvpn && clash_of(
                a.stage(),
                Job::Vpn(requirement_of(s.id, Some(row.name@))),
            ) is None && !is_running(a.ovpn_active@, row.name@) && is_running(
                a.vpn_cfg.openvpn@,
                row.name@,
            ) ==> out == seq![Act::StartOpenvpn(row.name@)]
        }),
{
    let s = a.vpn.here();
    let row = s.profiles@[s.selected as int];
    lemma_has_name(a.ovpn_active@, row.name@);
    lemma_has_name(a.vpn_cfg.openvpn@, row.name@);
}

/// A process that was asked to end and is asked again is killed: the second time is
/// forced, the first is not.
pub proof fn law_second_stop_is_forced(a: App, b: App, id: ProviderId, at: int)
    requires
        foreign_stopping(a, b, id, at),
    ensures
        ({
            let row = a.vpn.providers@[id.index_spec()].profiles@[at];
            &&& row.foreign matches Some(Foreign::Process(p)) ==> is_forced(row, b.termed@)
            &&& row.foreign matches Some(Foreign::Process(p)) ==> (is_forced(row, a.termed@)
                <==> a.termed@.contains(p.pid))
            &&& !(row.foreign matches Some(Foreign::Process(_))) ==> !is_forced(row, b.termed@)
            &&& forall|pid: u32| #[trigger] a.termed@.contains(pid) ==> b.termed@.contains(pid)
        }),
{
    let row = a.vpn.providers@[id.index_spec()].profiles@[at];
    match row.foreign {
        Some(Foreign::Process(p)) => {
            if !a.termed@.contains(p.pid) {
                assert(b.termed@[a.termed@.len() as int] == p.pid);
                assert forall|pid: u32| #[trigger] a.termed@.contains(pid) implies b.termed@.contains(
                    pid,
                ) by {
                    let k = choose|k: int| 0 <= k < a.termed@.len() && a.termed@[k] == pid;
                    assert(b.termed@[k] == pid);
                }
            }
        },
        _ => {},
    }
}

/// `c` on a desktop connection forgets a session that has ended, and leaves one that
/// runs; on a host it forgets how the last session ended.
pub proof fn law_clearing_forgets_the_finished(a: App, b: App, c: App, out: Seq<Act>, i: usize)
    requires
        a.wf(),
        cleared_rdp(a, b),
        cleared_ssh(a, c, out),
    ensures
        a.rdp_selected < a.rdp_rows@.len() && a.rdp_rows@[a.rdp_selected as int] == RowItem::Item(i)
            ==> {
            let name = a.rdp_conns@[i as int].name@;
            &&& has_session(a.rdp_active@, name) ==> b == a
            &&& is_running(a.rdp_active@, name) && !has_session(a.rdp_active@, name) ==> !is_running(
                b.rdp_active@,
                name,
            )
        },
        a.ssh_selected < a.ssh_rows@.len() && a.ssh_rows@[a.ssh_selected as int] == RowItem::Item(i)
            ==> !is_running(c.ssh_last@, a.ssh_hosts@[i as int].name@) && c.ssh_windows
            == a.ssh_windows,
{
    if a.rdp_selected < a.rdp_rows@.len() && a.rdp_rows@[a.rdp_selected as int]
        == RowItem::Item(i) {
        let name = a.rdp_conns@[i as int].name@;
        crate::activation_laws::lemma_has_session(a.rdp_active@, name);
        lemma_has_name(a.rdp_active@, name);
        lemma_has_name(b.rdp_active@, name);
        law_taken_out_is_gone(a.rdp_active@, name, name);
    }
    if a.ssh_selected < a.ssh_rows@.len() && a.ssh_rows@[a.ssh_selected as int]
        == RowItem::Item(i) {
        let name = a.ssh_hosts@[i as int].name@;
        lemma_has_name(c.ssh_last@, name);
        law_taken_out_is_gone(a.ssh_last@, name, name);
    }
}

/// `r` closes the running sessions under the cursor and asks for their passwords
/// again; where none runs it says so.
pub proof fn law_reconnect_asks_again(a: App, b: App, out: Seq<Act>, i: int)
    requires
        a.wf(),
        reconnected_rdp(a, b, out),
        selected(a.rdp_rows@, a.rdp_selected as int, a.rdp_conns@, i),
        has_session(a.rdp_active@, a.rdp_conns@[i].name@),
    ensures
        out.contains(Act::StopRdp(a.rdp_conns@[i].name@)),
        !is_running(b.rdp_active@, a.rdp_conns@[i].name@),
        b.rdp_mode matches RdpMode::Password { pending, collected, .. } && ints(pending@).contains(i)
            && collected@.len() == 0,
{
    let at = a.rdp_selected as int;
    lemma_under(a.rdp_rows@, at, a.rdp_conns@);
    let idxs = under(a.rdp_rows@, at, groups_of(a.rdp_conns@))->0;
    let p = conn_runs(a.rdp_conns@, a.rdp_active@);
    law_chosen(idxs, p);
    let running = chosen(idxs, p);
    let names = names_at(a.rdp_conns@, running);
    let name = a.rdp_conns@[i].name@;
    crate::activation_laws::lemma_has_session(a.rdp_active@, name);
    lemma_has_name(a.rdp_active@, name);
    assert(idxs.contains(i));
    let m = choose|m: int| 0 <= m < idxs.len() && idxs[m] == i;
    assert(p(idxs[m]));
    assert(running.contains(i));
    let y = choose|y: int| 0 <= y < running.len() && running[y] == i;
    assert(names[y] == name);
    assert(names.contains(name));
    crate::running_laws::law_the_right_sessions_are_closed(a.rdp_active@, names, name);
    law_taken_down_is_gone(App { rdp_mode: b.rdp_mode, ..a }, b, Seq::empty(), names, name);
    assert(jobs(b.rdp_mode->collected@).len() == b.rdp_mode->collected@.len());
}

} // verus!
