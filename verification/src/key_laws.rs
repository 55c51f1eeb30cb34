//! What holds of the keys as a whole.

use vstd::prelude::*;
use crate::activation_laws::is_running;
use crate::app::App;
use crate::clearing::{cleared_everywhere, cleared_vpn, forgot_vpn_password, refresh_all_acts};
use crate::cursor::Motion;
use crate::effects::{Act, Store};
use crate::keys::keyed;
use crate::live::{has_name, law_taken_out_is_gone, lemma_has_name, LiveRdp};
use crate::logs::Subject;
use crate::moving::{moved_conn, moved_host, moved_profile, moved_tunnel};
use crate::panes::export_acts;
use crate::queries::{all_up_names, running_count, up_names};
use crate::quitting::quit_requested;
use crate::rdp_form::RdpMode;
use crate::rdp_tab::{cleared_rdp, deleted_conn, reconnected_rdp, toggled_rdp};
use crate::rows::RowItem;
use crate::screen::{Key, KeyCode, Tab};
use crate::ssh_form::SshMode;
use crate::ssh_tab::{cleared_ssh, deleted_host, forgot_password, opened_ssh};
use crate::teardown::{all_names, everything_down, panic_armed, stop_ovpn_acts};
use crate::theme::{law_themes_cycle, ThemeId};
use crate::tunnel_form::FormMode;
use crate::tunnels_tab::{
    cleared_tunnels, deleted_tunnel, restarted_tunnels, toggled_tunnels,
};
use crate::vpn::ProviderId;
use crate::vpn_form::VpnMode;
use crate::vpn_profiles::deleted_profile;
use crate::vpn_tab::toggled_vpn;
use crate::vpn_view::{ProviderState, VpnProfile};

verus! {

/// No popup, prompt, form, file picker or log is open.
pub open spec fn nothing_open(a: App) -> bool {
    &&& !a.show_help && !a.show_keys
    &&& a.quit_prompt is None && a.panic is None && a.conflict is None
    &&& a.browser is None && a.log_pane is None
    &&& a.form_mode is Closed && a.rdp_mode is Closed && a.ssh_mode is Closed && a.vpn_mode is Closed
}

/// The panic button, the report, the tabs and `q` do the same on every tab.
pub proof fn law_keys_mean_the_same_everywhere(
    a: App,
    b: App,
    key: Key,
    now: int,
    out: Seq<Act>,
)
    requires
        nothing_open(a),
        keyed(a, b, key, now, out),
    ensures
        key.code == KeyCode::Char('x') ==> panic_armed(a, b, out),
        key.code == KeyCode::Char('q') ==> quit_requested(a, b, out),
        key.code == KeyCode::Char('s') ==> b == a && out == export_acts(a),
        key.code == KeyCode::Char('?') ==> b == (App { show_help: true, ..a }),
        key.code == KeyCode::Char('1') ==> b == (App { tab: Tab::Dashboard, ..a }),
        key.code == KeyCode::Char('2') ==> b == (App { tab: Tab::Vpn, ..a }),
        key.code == KeyCode::Char('3') ==> b == (App { tab: Tab::Tunnels, ..a }),
        key.code == KeyCode::Char('4') ==> b == (App { tab: Tab::Ssh, ..a }),
        key.code == KeyCode::Char('5') ==> b == (App { tab: Tab::Rdp, ..a }),
        key.code == KeyCode::Tab ==> b == (App { tab: a.tab.next_spec(), ..a }),
        key.code == KeyCode::BackTab ==> b == (App { tab: a.tab.prev_spec(), ..a }),
{
}

/// The help and the list of keys only display: a key there starts nothing, stops
/// nothing and writes nothing.
pub proof fn law_help_only_displays(a: App, b: App, key: Key, now: int, out: Seq<Act>)
    requires
        a.show_help || a.show_keys,
        keyed(a, b, key, now, out),
    ensures
        b == (App { show_help: b.show_help, show_keys: b.show_keys, ..a }),
        out.len() == 0,
{
}

/// A prompt that is not accepted changes nothing that is connected: refusing the
/// panic button leaves everything as it is.
pub proof fn law_refused_panic_takes_nothing_down(
    a: App,
    b: App,
    key: Key,
    now: int,
    out: Seq<Act>,
)
    requires
        !a.show_help && !a.show_keys && a.quit_prompt is None,
        a.panic is Some,
        !key.accepts_spec(),
        keyed(a, b, key, now, out),
    ensures
        b == (App { panic: None, ..a }),
        out.len() == 0,
{
}

/// A conflict that is not accepted stops nothing that is running: the plan is
/// given up, and all that is done about it is to say so.
pub proof fn law_refused_conflict_stops_nothing(
    a: App,
    b: App,
    key: Key,
    now: int,
    out: Seq<Act>,
)
    requires
        !a.show_help && !a.show_keys && a.quit_prompt is None && a.panic is None,
        a.conflict is Some,
        !key.accepts_spec(),
        keyed(a, b, key, now, out),
    ensures
        b == (App { conflict: None, activation: None, pending: None, ..a }),
        forall|i: int| 0 <= i < out.len() ==> (#[trigger] out[i] is Flash || out[i] is Note),
{
}

/// What was asked before deleting a tunnel is deleted only where it is accepted.
pub proof fn law_nothing_deleted_unasked(a: App, b: App, key: Key, now: int, out: Seq<Act>)
    requires
        nothing_open(App { form_mode: FormMode::Closed, ..a }),
        a.form_mode is DeleteConfirm,
        !key.accepts_spec(),
        keyed(a, b, key, now, out),
    ensures
        b == (App { form_mode: FormMode::Closed, ..a }),
        out.len() == 0,
{
}

/// In a form `q` is just a letter: it neither closes the form nor quits.
pub proof fn law_q_is_a_letter_in_a_form(a: App, b: App, now: int, out: Seq<Act>)
    requires
        !a.show_help && !a.show_keys && a.quit_prompt is None && a.panic is None,
        a.conflict is None && a.browser is None && a.log_pane is None,
        a.form_mode is Add || a.form_mode is Edit || (a.form_mode is Closed && (a.rdp_mode is Add
            || a.rdp_mode is Edit || (a.rdp_mode is Closed && (a.ssh_mode is Add || a.ssh_mode is Edit
            || (a.ssh_mode is Closed && a.vpn_mode is Form))))),
        keyed(a, b, Key::plain_spec(KeyCode::Char('q')), now, out),
    ensures
        b.should_quit == a.should_quit,
        b.form_mode == a.form_mode && b.rdp_mode == a.rdp_mode && b.ssh_mode == a.ssh_mode
            && b.vpn_mode == a.vpn_mode,
        out.len() == 0,
{
}

/// Escape closes a form without storing anything.
pub proof fn law_escape_stores_nothing(a: App, b: App, now: int, out: Seq<Act>)
    requires
        !a.show_help && !a.show_keys && a.quit_prompt is None && a.panic is None,
        a.conflict is None && a.browser is None && a.log_pane is None,
        a.form_mode is Add || a.form_mode is Edit || (a.form_mode is Closed && (a.rdp_mode is Add
            || a.rdp_mode is Edit || (a.rdp_mode is Closed && (a.ssh_mode is Add || a.ssh_mode is Edit
            || (a.ssh_mode is Closed && a.vpn_mode is Form))))),
        keyed(a, b, Key::plain_spec(KeyCode::Esc), now, out),
    ensures
        b == (App {
            form_mode: b.form_mode,
            rdp_mode: b.rdp_mode,
            ssh_mode: b.ssh_mode,
            vpn_mode: b.vpn_mode,
            ..a
        }),
        b.form_mode is Closed,
        a.form_mode is Closed ==> b.rdp_mode is Closed,
        out.len() == 0,
{
}

// ---------------------------------------------------------------------------
// Moving about
// ---------------------------------------------------------------------------

/// A step down goes to the next row and from the last one to the first, a step up
/// the other way round; a page is ten rows and stops at the ends. No motion leaves
/// the list.
pub proof fn law_motions(m: Motion, at: int, n: int)
    requires
        0 <= at < n,
    ensures
        0 <= m.goes(at, n) < n,
        at + 1 < n ==> Motion::Down.goes(at, n) == at + 1,
        Motion::Down.goes(n - 1, n) == 0,
        at > 0 ==> Motion::Up.goes(at, n) == at - 1,
        Motion::Up.goes(0, n) == n - 1,
        at + 10 < n ==> Motion::PageDown.goes(at, n) == at + 10,
        at + 10 >= n ==> Motion::PageDown.goes(at, n) == n - 1,
        at >= 10 ==> Motion::PageUp.goes(at, n) == at - 10,
        at < 10 ==> Motion::PageUp.goes(at, n) == 0,
{
}

/// The motion that a key without Ctrl makes.
pub open spec fn motion_of(code: KeyCode) -> Option<Motion> {
    match code {
        KeyCode::Up => Some(Motion::Up),
        KeyCode::Down => Some(Motion::Down),
        KeyCode::PageUp => Some(Motion::PageUp),
        KeyCode::PageDown => Some(Motion::PageDown),
        _ => None,
    }
}

/// The arrows move the cursor of the tab in front, and nothing else; with Ctrl they
/// move what is under it.
pub proof fn law_arrows_move_the_cursor(a: App, b: App, key: Key, now: int, out: Seq<Act>)
    requires
        nothing_open(a),
        keyed(a, b, key, now, out),
        motion_of(key.code) is Some,
    ensures
        !key.ctrl && a.tab == Tab::Tunnels ==> b == (App { selected: b.selected, ..a })
            && b.selected == (motion_of(key.code)->0).goes(a.selected as int, a.rows@.len() as int)
            && out.len() == 0,
        !key.ctrl && a.tab == Tab::Ssh ==> b == (App { ssh_selected: b.ssh_selected, ..a })
            && b.ssh_selected == (motion_of(key.code)->0).goes(
            a.ssh_selected as int,
            a.ssh_rows@.len() as int,
        ) && out.len() == 0,
        !key.ctrl && a.tab == Tab::Rdp ==> b == (App { rdp_selected: b.rdp_selected, ..a })
            && b.rdp_selected == (motion_of(key.code)->0).goes(
            a.rdp_selected as int,
            a.rdp_rows@.len() as int,
        ) && out.len() == 0,
        key.ctrl && (key.code == KeyCode::Up || key.code == KeyCode::Down) ==> {
            let downward = key.code == KeyCode::Down;
            &&& a.tab == Tab::Tunnels ==> moved_tunnel(a, b, downward, out)
            &&& a.tab == Tab::Ssh ==> moved_host(a, b, downward, out)
            &&& a.tab == Tab::Rdp ==> moved_conn(a, b, downward, out)
            &&& a.tab == Tab::Vpn ==> moved_profile(a, b, downward, out)
            &&& a.tab == Tab::Dashboard ==> b == a
        },
{
}

// ---------------------------------------------------------------------------
// What each key acts on
// ---------------------------------------------------------------------------

/// Enter and Space connect or disconnect on every tab that has something to
/// connect; the dashboard only watches.
pub proof fn law_enter_connects(a: App, b: App, key: Key, now: int, out: Seq<Act>)
    requires
        nothing_open(a),
        keyed(a, b, key, now, out),
        key.code == KeyCode::Enter || key.code == KeyCode::Char(' '),
    ensures
        a.tab == Tab::Tunnels ==> toggled_tunnels(a, b, now, out),
        a.tab == Tab::Ssh ==> opened_ssh(a, b, now, out),
        a.tab == Tab::Rdp ==> toggled_rdp(a, b, out),
        a.tab == Tab::Vpn ==> toggled_vpn(a, b, out),
        a.tab == Tab::Dashboard ==> b == a,
{
}

/// `r` reconnects what is under the cursor, refreshes the client, or on the
/// dashboard every client.
pub proof fn law_r_reconnects(a: App, b: App, key: Key, now: int, out: Seq<Act>)
    requires
        nothing_open(a),
        keyed(a, b, key, now, out),
        key.code == KeyCode::Char('r'),
    ensures
        a.tab == Tab::Tunnels ==> restarted_tunnels(a, b, out),
        a.tab == Tab::Ssh ==> opened_ssh(a, b, now, out),
        a.tab == Tab::Rdp ==> reconnected_rdp(a, b, out),
        a.tab == Tab::Vpn ==> out.contains(Act::Refresh(a.vpn.here().id)) && out.contains(
            Act::Scan,
        ),
        a.tab == Tab::Dashboard ==> out == refresh_all_acts(),
        b.tunnels == a.tunnels && b.ssh_hosts == a.ssh_hosts && b.rdp_conns == a.rdp_conns,
{
    if a.tab == Tab::Vpn {
        assert(out[0] == Act::Refresh(a.vpn.here().id));
        assert(out[1] == Act::Scan);
    }
}

/// `d` asks about the entry under the cursor before anything is deleted.
pub proof fn law_d_asks_about_the_entry(a: App, b: App, key: Key, now: int, out: Seq<Act>, i: usize)
    requires
        nothing_open(a),
        keyed(a, b, key, now, out),
        key.code == KeyCode::Char('d'),
    ensures
        b.tunnels == a.tunnels && b.ssh_hosts == a.ssh_hosts && b.rdp_conns == a.rdp_conns
            && b.vpn_cfg == a.vpn_cfg,
        a.tab == Tab::Tunnels && a.selected < a.rows@.len() && a.rows@[a.selected as int]
            == RowItem::Item(i) ==> b == (App { form_mode: FormMode::DeleteConfirm(i), ..a }),
        a.tab == Tab::Ssh && a.ssh_selected < a.ssh_rows@.len() && a.ssh_rows@[a.ssh_selected as int]
            == RowItem::Item(i) ==> b == (App { ssh_mode: SshMode::DeleteConfirm(i), ..a }),
        a.tab == Tab::Rdp && a.rdp_selected < a.rdp_rows@.len() && a.rdp_rows@[a.rdp_selected as int]
            == RowItem::Item(i) ==> b == (App { rdp_mode: RdpMode::DeleteConfirm(i), ..a }),
        a.tab == Tab::Vpn && a.vpn.here().id != ProviderId::Netbird && a.vpn.here().selected
            < a.vpn.here().profiles@.len() && a.vpn.here().profiles@[a.vpn.here().selected as int].foreign
            is None ==> b == (App {
            vpn_mode: VpnMode::DeleteConfirm {
                provider: a.vpn.here().id,
                idx: a.vpn.here().selected,
            },
            ..a
        }),
{
}

/// What was asked about is deleted where that is accepted, and that one only;
/// otherwise nothing is.
pub proof fn law_accepted_delete_deletes(a: App, b: App, key: Key, now: int, out: Seq<Act>)
    requires
        nothing_open(
            App {
                form_mode: FormMode::Closed,
                ssh_mode: SshMode::Closed,
                rdp_mode: RdpMode::Closed,
                vpn_mode: VpnMode::Closed,
                ..a
            },
        ),
        keyed(a, b, key, now, out),
    ensures
        ({
            let yes = key.code == KeyCode::Char('y') || key.code == KeyCode::Char('Y') || key.code
                == KeyCode::Enter;
            &&& a.form_mode matches FormMode::DeleteConfirm(i) ==> (yes ==> deleted_tunnel(
                a,
                b,
                i as int,
                out,
            )) && (!yes ==> b == (App { form_mode: FormMode::Closed, ..a }))
            &&& a.form_mode is Closed ==> (a.rdp_mode matches RdpMode::DeleteConfirm(i) ==> (yes
                ==> deleted_conn(a, b, i as int, out)) && (!yes ==> b == (App {
                rdp_mode: RdpMode::Closed,
                ..a
            })))
            &&& a.form_mode is Closed && a.rdp_mode is Closed ==> (
            a.ssh_mode matches SshMode::DeleteConfirm(i) ==> (yes ==> deleted_host(
                a,
                b,
                i as int,
                out,
            )) && (!yes ==> b == (App { ssh_mode: SshMode::Closed, ..a })))
            &&& a.form_mode is Closed && a.rdp_mode is Closed && a.ssh_mode is Closed ==> (
            a.vpn_mode matches VpnMode::DeleteConfirm { provider, idx } ==> (yes
                ==> deleted_profile(a, b, provider, idx as int, out)) && (!yes ==> b == (App {
                vpn_mode: VpnMode::Closed,
                ..a
            })))
        }),
{
}

/// A deleted profile is gone from its client's list, and the others stay in their
/// order; a running session of it is dropped, and the file is written.
pub proof fn law_deleted_profile_is_gone(a: App, b: App, id: ProviderId, idx: int, out: Seq<Act>)
    requires
        a.wf(),
        deleted_profile(a, b, id, idx, out),
        0 <= idx < crate::app::profiles_kept(a.vpn_cfg, id),
        id != ProviderId::Netbird,
    ensures
        out.contains(Act::Save(Store::Vpn)),
        id == ProviderId::Wireguard ==> a.vpn_cfg.wireguard@ == b.vpn_cfg.wireguard@.insert(
            idx,
            a.vpn_cfg.wireguard@[idx],
        ) && b.vpn_cfg.openvpn == a.vpn_cfg.openvpn && b.vpn_cfg.tailscale == a.vpn_cfg.tailscale,
        id == ProviderId::Openvpn ==> a.vpn_cfg.openvpn@ == b.vpn_cfg.openvpn@.insert(
            idx,
            a.vpn_cfg.openvpn@[idx],
        ) && b.vpn_cfg.wireguard == a.vpn_cfg.wireguard && b.vpn_cfg.tailscale
            == a.vpn_cfg.tailscale,
        id == ProviderId::Tailscale ==> a.vpn_cfg.tailscale@ == b.vpn_cfg.tailscale@.insert(
            idx,
            a.vpn_cfg.tailscale@[idx],
        ) && b.vpn_cfg.wireguard == a.vpn_cfg.wireguard && b.vpn_cfg.openvpn == a.vpn_cfg.openvpn,
        id == ProviderId::Openvpn && is_running(a.ovpn_active@, a.vpn_cfg.openvpn@[idx].name@)
            ==> out.contains(Act::DropOpenvpn(a.vpn_cfg.openvpn@[idx].name@)) && !is_running(
            b.ovpn_active@,
            a.vpn_cfg.openvpn@[idx].name@,
        ),
{
    match id {
        ProviderId::Wireguard => {
            assert(b.vpn_cfg.wireguard@.insert(idx, a.vpn_cfg.wireguard@[idx])
                =~= a.vpn_cfg.wireguard@);
            assert(out[1] == Act::Save(Store::Vpn));
        },
        ProviderId::Openvpn => {
            assert(b.vpn_cfg.openvpn@.insert(idx, a.vpn_cfg.openvpn@[idx]) =~= a.vpn_cfg.openvpn@);
            let name = a.vpn_cfg.openvpn@[idx].name@;
            lemma_has_name(a.ovpn_active@, name);
            lemma_has_name(b.ovpn_active@, name);
            law_taken_out_is_gone(a.ovpn_active@, name, name);
            if has_name(a.ovpn_active@, name) {
                assert(out[0] == Act::DropOpenvpn(name));
                assert(out[2] == Act::Save(Store::Vpn));
            } else {
                assert(out[1] == Act::Save(Store::Vpn));
            }
        },
        ProviderId::Tailscale => {
            assert(b.vpn_cfg.tailscale@.insert(idx, a.vpn_cfg.tailscale@[idx])
                =~= a.vpn_cfg.tailscale@);
            assert(out[0] == Act::Save(Store::Vpn));
        },
        ProviderId::Netbird => {},
    }
}

/// `e` opens the entry under the cursor in its form, and `a` an empty form;
/// neither changes an entry.
pub proof fn law_forms_open_on_the_entry(a: App, b: App, key: Key, now: int, out: Seq<Act>, i: usize)
    requires
        nothing_open(a),
        keyed(a, b, key, now, out),
        key.code == KeyCode::Char('e') || key.code == KeyCode::Char('a'),
    ensures
        b.tunnels == a.tunnels && b.ssh_hosts == a.ssh_hosts && b.rdp_conns == a.rdp_conns
            && b.vpn_cfg == a.vpn_cfg,
        key.code == KeyCode::Char('a') && a.tab == Tab::Tunnels ==> b.form_mode is Add,
        key.code == KeyCode::Char('a') && a.tab == Tab::Ssh ==> b.ssh_mode is Add,
        key.code == KeyCode::Char('a') && a.tab == Tab::Rdp ==> b.rdp_mode is Add,
        key.code == KeyCode::Char('e') && a.tab == Tab::Tunnels && a.selected < a.rows@.len()
            && a.rows@[a.selected as int] == RowItem::Item(i) ==> b.form_mode == FormMode::Edit(i)
            && b.form.name@ == a.tunnels@[i as int].name@ && b.form.ssh_host@
            == a.tunnels@[i as int].ssh_host@ && b.form.forward == a.tunnels@[i as int].forward,
        key.code == KeyCode::Char('e') && a.tab == Tab::Ssh && a.ssh_selected < a.ssh_rows@.len()
            && a.ssh_rows@[a.ssh_selected as int] == RowItem::Item(i) ==> b.ssh_mode
            == SshMode::Edit(i) && b.ssh_form.name@ == a.ssh_hosts@[i as int].name@
            && b.ssh_form.host@ == a.ssh_hosts@[i as int].host@ && b.ssh_form.password@
            == a.ssh_hosts@[i as int].password@,
        key.code == KeyCode::Char('e') && a.tab == Tab::Rdp && a.rdp_selected < a.rdp_rows@.len()
            && a.rdp_rows@[a.rdp_selected as int] == RowItem::Item(i) ==> b.rdp_mode
            == RdpMode::Edit(i) && b.rdp_form.name@ == a.rdp_conns@[i as int].name@
            && b.rdp_form.host@ == a.rdp_conns@[i as int].host@ && b.rdp_form.username@
            == a.rdp_conns@[i as int].username@,
{
}

/// `p` and `c` forget the stored password, and clear what is over, of what the tab
/// shows.
pub proof fn law_p_forgets_and_c_clears(a: App, b: App, key: Key, now: int, out: Seq<Act>)
    requires
        nothing_open(a),
        keyed(a, b, key, now, out),
    ensures
        key.code == KeyCode::Char('p') ==> {
            &&& a.tab == Tab::Ssh ==> forgot_password(a, b, out)
            &&& a.tab == Tab::Vpn ==> forgot_vpn_password(a, b, out)
            &&& a.tab == Tab::Tunnels || a.tab == Tab::Rdp || a.tab == Tab::Dashboard ==> b == a
        },
        key.code == KeyCode::Char('c') ==> {
            &&& a.tab == Tab::Dashboard ==> cleared_everywhere(a, b, out)
            &&& a.tab == Tab::Tunnels ==> cleared_tunnels(a, b, out)
            &&& a.tab == Tab::Ssh ==> cleared_ssh(a, b, out)
            &&& a.tab == Tab::Rdp ==> cleared_rdp(a, b)
            &&& a.tab == Tab::Vpn ==> cleared_vpn(a, b, out)
        },
{
}

/// `l` opens the log, and `s` writes the report, of what is under the cursor; on
/// the dashboard of the whole program.
pub proof fn law_log_and_report_are_about_the_selection(
    a: App,
    b: App,
    key: Key,
    now: int,
    out: Seq<Act>,
    i: usize,
)
    requires
        nothing_open(a),
        keyed(a, b, key, now, out),
        key.code == KeyCode::Char('l') || key.code == KeyCode::Char('s'),
    ensures
        ({
            let about = |t: Subject|
                if key.code == KeyCode::Char('l') {
                    b == (App { log_pane: b.log_pane, ..a }) && b.log_pane is Some && (
                    b.log_pane->0).target@ == t && out.len() == 0
                } else {
                    b == a && out == seq![Act::Export(t)]
                };
            &&& a.tab == Tab::Dashboard ==> about(Subject::Program)
            &&& a.tab == Tab::Tunnels && a.selected < a.rows@.len() && a.rows@[a.selected as int]
                == RowItem::Item(i) ==> about(Subject::Tunnel(a.tunnels@[i as int].name@))
            &&& a.tab == Tab::Ssh && a.ssh_selected < a.ssh_rows@.len()
                && a.ssh_rows@[a.ssh_selected as int] == RowItem::Item(i) ==> about(
                Subject::Ssh(a.ssh_hosts@[i as int].name@),
            )
            &&& a.tab == Tab::Rdp && a.rdp_selected < a.rdp_rows@.len()
                && a.rdp_rows@[a.rdp_selected as int] == RowItem::Item(i) ==> about(
                Subject::Rdp(a.rdp_conns@[i as int].name@),
            )
            &&& a.tab == Tab::Vpn && a.vpn.here().selected < a.vpn.here().profiles@.len() ==> about(
                Subject::Vpn(
                    a.vpn.here().id,
                    a.vpn.here().profiles@[a.vpn.here().selected as int].name@,
                ),
            )
        }),
{
}

// ---------------------------------------------------------------------------
// Prompts
// ---------------------------------------------------------------------------

proof fn lemma_none_running(live: Seq<LiveRdp>)
    ensures
        running_count(live) == 0 <==> forall|i: int|
            0 <= i < live.len() ==> !((#[trigger] live[i]).status is Running),
    decreases live.len(),
{
    if live.len() > 0 {
        let head = live.drop_last();
        lemma_none_running(head);
        assert(live[live.len() - 1] == live.last());
        if running_count(live) == 0 {
            assert forall|i: int| 0 <= i < live.len() implies !((#[trigger] live[i]).status
                is Running) by {
                if i < head.len() {
                    assert(head[i] == live[i]);
                }
            }
        } else if !(live.last().status is Running) {
            let i = choose|i: int| 0 <= i < head.len() && (#[trigger] head[i]).status is Running;
            assert(live[i] == head[i]);
        }
    }
}

proof fn lemma_none_up(id: ProviderId, ps: Seq<VpnProfile>)
    ensures
        up_names(id, ps).len() == 0 <==> forall|i: int|
            0 <= i < ps.len() ==> !(#[trigger] ps[i]).active,
    decreases ps.len(),
{
    if ps.len() > 0 {
        let head = ps.drop_last();
        lemma_none_up(id, head);
        assert(ps[ps.len() - 1] == ps.last());
        if up_names(id, ps).len() == 0 {
            assert forall|i: int| 0 <= i < ps.len() implies !(#[trigger] ps[i]).active by {
                if i < head.len() {
                    assert(head[i] == ps[i]);
                }
            }
        } else if !ps.last().active {
            let i = choose|i: int| 0 <= i < head.len() && (#[trigger] head[i]).active;
            assert(ps[i] == head[i]);
        }
    }
}

proof fn lemma_no_client_up(clients: Seq<ProviderState>, k: int, i: int)
    requires
        0 <= k < clients.len(),
        0 <= i < clients[k].profiles@.len(),
        clients[k].profiles@[i].active,
    ensures
        all_up_names(clients).len() > 0,
    decreases clients.len(),
{
    let head = clients.drop_last();
    lemma_none_up(clients.last().id, clients.last().profiles@);
    if k < head.len() {
        assert(head[k] == clients[k]);
        lemma_no_client_up(head, k, i);
    }
}

/// The panic button asks wherever anything is up: a tunnel, a desktop session that
/// is running, or a VPN profile, whoever started it. Asking stops nothing yet.
pub proof fn law_panic_asks_where_anything_is_up(a: App, b: App, out: Seq<Act>, k: int, i: int)
    requires
        panic_armed(a, b, out),
    ensures
        a.active@.len() > 0 ==> b.panic is Some,
        0 <= i < a.rdp_active@.len() && a.rdp_active@[i].status is Running ==> b.panic is Some,
        0 <= k < a.vpn.providers@.len() && 0 <= i < a.vpn.providers@[k].profiles@.len()
            && a.vpn.providers@[k].profiles@[i].active ==> b.panic is Some,
        b == (App { panic: b.panic, ..a }),
        forall|x: int| 0 <= x < out.len() ==> (#[trigger] out[x]) is Flash,
{
    lemma_none_running(a.rdp_active@);
    if 0 <= k < a.vpn.providers@.len() && 0 <= i < a.vpn.providers@[k].profiles@.len()
        && a.vpn.providers@[k].profiles@[i].active {
        lemma_no_client_up(a.vpn.providers@, k, i);
    }
}

/// The panic button is carried out where it is accepted with `y` or Enter.
pub proof fn law_accepted_panic_is_carried_out(a: App, b: App, key: Key, now: int, out: Seq<Act>)
    requires
        !a.show_help && !a.show_keys && a.quit_prompt is None,
        a.panic is Some,
        keyed(a, b, key, now, out),
    ensures
        key.code == KeyCode::Char('y') || key.code == KeyCode::Enter ==> everything_down(a, b, out),
        key.code == KeyCode::Esc || key.code == KeyCode::Char('n') ==> b == (App {
            panic: None,
            ..a
        }) && out.len() == 0,
{
}

/// The question on quitting is answered with `s` to stop the sessions, `k` to keep
/// them, and Escape not to quit after all.
pub proof fn law_quit_is_answered(a: App, b: App, key: Key, now: int, out: Seq<Act>)
    requires
        !a.show_help && !a.show_keys && a.quit_prompt is Some && !a.should_quit,
        keyed(a, b, key, now, out),
    ensures
        key.code == KeyCode::Char('s') ==> b.should_quit && b.ovpn_active@.len() == 0 && out
            == stop_ovpn_acts(a.ovpn_active@, all_names(a.ovpn_active@)),
        key.code == KeyCode::Char('k') ==> b.should_quit && b.ovpn_active == a.ovpn_active,
        key.code == KeyCode::Esc ==> b == (App { quit_prompt: None, ..a }) && out.len() == 0,
        b.quit_prompt is None,
{
}

/// `t` takes the next theme, and what is in force is what is written down.
pub proof fn law_theme_is_kept(a: App, b: App, key: Key, now: int, out: Seq<Act>)
    requires
        nothing_open(a),
        keyed(a, b, key, now, out),
        key.code == KeyCode::Char('t'),
    ensures
        b.app_config.ui.theme@ == b.theme.name@,
        forall|t: ThemeId|
            a.theme.name@ == #[trigger] t.name_spec() ==> b.theme.name@ == t.next_spec().name_spec(),
        out == seq![Act::Save(Store::Config)],
        b == (App { theme: b.theme, app_config: b.app_config, ..a }),
{
    assert forall|t: ThemeId| a.theme.name@ == #[trigger] t.name_spec() implies b.theme.name@
        == t.next_spec().name_spec() by {
        law_themes_cycle(t);
    }
}

} // verus!
