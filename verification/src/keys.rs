//! What each key does, wherever it is pressed.
//!
//! A popup takes the keys before what is under it does: the overlays, the
//! prompts, the file picker and the log pane come before the forms, and the
//! forms before the tabs. The keys that mean the same thing everywhere come
//! before those of a single tab.

use vstd::prelude::*;
use crate::app::App;
use crate::clearing::{
    cleared_everywhere, cleared_vpn, forgot_vpn_password, no_errors, refresh_acts,
    refresh_all_acts,
};
use crate::cursor::{group_under, Motion};
use crate::driving::resolved;
use crate::effects::{self, acts, Act, Effect, Store};
use crate::form_keys::FormStep;
use crate::moving::{moved_conn, moved_host, moved_profile, moved_tunnel};
use crate::panes::{
    browser_keyed, export_acts, log_keyed, opened_browser, opened_log,
};
use crate::quitting::{quit_keeping, quit_requested, quit_stopping};
use crate::rdp_form::{RdpForm, RdpMode};
use crate::rdp_tab::{
    cleared_rdp, deleted_conn, password_keyed, reconnected_rdp, submitted_conn, toggled_rdp,
};
use crate::screen::{Key, KeyCode, Tab};
use crate::ssh_form::{SshForm, SshMode};
use crate::ssh_tab::{
    cleared_ssh, deleted_host, forgot_password, opened_ssh, submitted_host,
};
use crate::teardown::{everything_down, panic_armed};
use crate::theme::{self, theme_after};
use crate::tunnel_form::{FormMode, TunnelForm};
use crate::tunnels_tab::{
    cleared_tunnels, deleted_tunnel, restarted_tunnels, submitted_tunnel, toggled_tunnels,
};
use crate::vpn_form::{VpnForm, VpnMode};
use crate::vpn_profiles::{
    asked_to_delete_profile, deleted_profile, edited_profile, opened_vpn_form, submitted_vpn,
};
use crate::vpn_tab::{moved_on_vpn, toggled_vpn};
use crate::vpn_view::{VpnPane, VpnView};

verus! {

/// Nothing happens.
pub open spec fn idle(a: App, b: App, out: Seq<Act>) -> bool {
    b == a && out.len() == 0
}

/// Something is said and nothing else happens.
pub open spec fn says(a: App, b: App, what: Seq<char>, out: Seq<Act>) -> bool {
    b == a && out == seq![Act::Flash(what, false)]
}

// ---------------------------------------------------------------------------
// The dashboard
// ---------------------------------------------------------------------------

/// A key on the dashboard, which only watches. The keys that need something
/// selected say where to go instead of doing nothing, so the map stays honest.
pub open spec fn dashboard_keyed(a: App, b: App, key: Key, out: Seq<Act>) -> bool {
    let elsewhere = "the dashboard only watches — act on the VPN, Tunnels, SSH or RDP tab"@;
    match key.code {
        KeyCode::Enter => says(a, b, elsewhere, out),
        KeyCode::Up | KeyCode::Down => if key.ctrl {
            says(a, b, elsewhere, out)
        } else {
            idle(a, b, out)
        },
        KeyCode::Char(c) => if c == 'r' {
            &&& b == (App { vpn: b.vpn, ..a })
            &&& no_errors(a.vpn, b.vpn)
            &&& out == refresh_all_acts()
        } else if c == 'c' {
            cleared_everywhere(a, b, out)
        } else if c == 'l' {
            opened_log(a, b, out)
        } else if c == ' ' || c == 'a' || c == 'e' || c == 'd' || c == 'p' {
            says(a, b, elsewhere, out)
        } else {
            idle(a, b, out)
        },
        _ => idle(a, b, out),
    }
}

// ---------------------------------------------------------------------------
// Tunnels
// ---------------------------------------------------------------------------

pub open spec fn adding_tunnel(a: App, b: App) -> bool {
    &&& b == (App { form: b.form, form_mode: FormMode::Add, ..a })
    &&& b.form.blank(a.vpn.providers@, a.tunnels@)
    &&& b.form.group@ == group_under(a.rows@, a.selected as int, a.tunnels@)
}

pub open spec fn editing_tunnel(a: App, b: App) -> bool {
    match App::entry_at(a.rows@, a.selected as int) {
        None => b == a,
        Some(i) => {
            &&& b == (App { form: b.form, form_mode: FormMode::Edit(i as usize), ..a })
            &&& b.form.opened(a.tunnels@[i], a.vpn.providers@, a.tunnels@)
        },
    }
}

/// A key on the Tunnels tab.
pub open spec fn tunnels_keyed(a: App, b: App, key: Key, now: int, out: Seq<Act>) -> bool {
    let n = a.rows@.len() as int;
    match key.code {
        KeyCode::Down | KeyCode::Up | KeyCode::PageDown | KeyCode::PageUp => match key.shifts_spec() {
            Some(downward) => moved_tunnel(a, b, downward, out),
            None => {
                &&& b == (App { selected: b.selected, ..a })
                &&& b.selected == Motion::of_spec(key)->0.goes(a.selected as int, n)
                &&& out.len() == 0
            },
        },
        KeyCode::Enter => toggled_tunnels(a, b, now, out),
        KeyCode::Char(c) => if c == ' ' {
            toggled_tunnels(a, b, now, out)
        } else if c == 'a' {
            adding_tunnel(a, b) && out.len() == 0
        } else if c == 'e' {
            editing_tunnel(a, b) && out.len() == 0
        } else if c == 'd' {
            &&& out.len() == 0
            &&& match App::entry_at(a.rows@, a.selected as int) {
                None => b == a,
                Some(i) => b == (App { form_mode: FormMode::DeleteConfirm(i as usize), ..a }),
            }
        } else if c == 'r' {
            restarted_tunnels(a, b, out)
        } else if c == 'p' {
            says(a, b, "tunnels authenticate with a key or an agent — no password is stored"@, out)
        } else if c == 'l' {
            opened_log(a, b, out)
        } else if c == 'c' {
            cleared_tunnels(a, b, out)
        } else {
            idle(a, b, out)
        },
        _ => idle(a, b, out),
    }
}

/// A key in the tunnel form.
pub open spec fn tunnel_form_keyed(a: App, b: App, key: Key, out: Seq<Act>) -> bool {
    match TunnelForm::leads_to(key) {
        FormStep::Close => b == (App { form_mode: FormMode::Closed, ..a }) && out.len() == 0,
        FormStep::Submit => submitted_tunnel(a, b, out),
        _ => {
            &&& b == (App { form: b.form, ..a })
            &&& TunnelForm::keyed(a.form, b.form, key)
            &&& out.len() == 0
        },
    }
}

// ---------------------------------------------------------------------------
// VPN
// ---------------------------------------------------------------------------

/// A key on the VPN tab.
pub open spec fn vpn_keyed(a: App, b: App, key: Key, out: Seq<Act>) -> bool {
    match key.code {
        KeyCode::Left => b == (App { vpn: VpnView { focus: VpnPane::Clients, ..a.vpn }, ..a })
            && out.len() == 0,
        KeyCode::Right => b == (App { vpn: VpnView { focus: VpnPane::Profiles, ..a.vpn }, ..a })
            && out.len() == 0,
        KeyCode::Down | KeyCode::Up | KeyCode::PageDown | KeyCode::PageUp => match key.shifts_spec() {
            Some(downward) => moved_profile(a, b, downward, out),
            None => moved_on_vpn(a, b, Motion::of_spec(key)->0) && out.len() == 0,
        },
        KeyCode::Enter => toggled_vpn(a, b, out),
        KeyCode::Char(c) => if c == ' ' {
            toggled_vpn(a, b, out)
        } else if c == 'a' {
            opened_vpn_form(a, b, None, out)
        } else if c == 'e' {
            edited_profile(a, b, out)
        } else if c == 'd' {
            asked_to_delete_profile(a, b, out)
        } else if c == 'r' {
            &&& b == (App { vpn: b.vpn, ..a })
            &&& b.vpn.with_error(a.vpn, a.vpn.here().id, None)
            &&& out == refresh_acts(a.vpn.here().id)
        } else if c == 'p' {
            forgot_vpn_password(a, b, out)
        } else if c == 'l' {
            opened_log(a, b, out)
        } else if c == 'c' {
            cleared_vpn(a, b, out)
        } else {
            idle(a, b, out)
        },
        _ => idle(a, b, out),
    }
}

/// A key in the VPN form.
pub open spec fn vpn_form_keyed(a: App, b: App, key: Key, out: Seq<Act>) -> bool {
    match VpnForm::leads_to(a.vpn_form, key) {
        FormStep::Close => b == (App { vpn_mode: VpnMode::Closed, ..a }) && out.len() == 0,
        FormStep::Submit => submitted_vpn(a, b, out),
        FormStep::Browse => opened_browser(a, b, out),
        FormStep::Generate => b == a && out == seq![Act::GenerateKey],
        FormStep::Stay => {
            &&& b == (App { vpn_form: b.vpn_form, ..a })
            &&& VpnForm::keyed(a.vpn_form, b.vpn_form, key)
            &&& out.len() == 0
        },
    }
}

/// A key in what the VPN tab has open on top of itself.
pub open spec fn vpn_modal_keyed(a: App, b: App, key: Key, out: Seq<Act>) -> bool {
    match a.vpn_mode {
        VpnMode::Closed => idle(a, b, out),
        VpnMode::DeleteConfirm { provider, idx } => if key.accepts_spec() {
            deleted_profile(a, b, provider, idx as int, out)
        } else {
            b == (App { vpn_mode: VpnMode::Closed, ..a }) && out.len() == 0
        },
        VpnMode::SecretWarning { provider, edit } => {
            let form = VpnMode::Form { provider, edit };
            if key.accepts_spec() {
                submitted_vpn(
                    App {
                        vpn_mode: form,
                        vpn_form: VpnForm { secret_ack: true, ..a.vpn_form },
                        ..a
                    },
                    b,
                    out,
                )
            } else {
                b == (App { vpn_mode: form, ..a }) && out.len() == 0
            }
        },
        VpnMode::Form { .. } => vpn_form_keyed(a, b, key, out),
    }
}

// ---------------------------------------------------------------------------
// SSH
// ---------------------------------------------------------------------------

pub open spec fn adding_ssh(a: App, b: App) -> bool {
    &&& b == (App { ssh_form: b.ssh_form, ssh_mode: SshMode::Add, ..a })
    &&& b.ssh_form.blank(a.vpn.providers@, a.tunnels@)
    &&& b.ssh_form.group@ == group_under(a.ssh_rows@, a.ssh_selected as int, a.ssh_hosts@)
}

pub open spec fn editing_ssh(a: App, b: App) -> bool {
    match App::entry_at(a.ssh_rows@, a.ssh_selected as int) {
        None => b == a,
        Some(i) => {
            &&& b == (App { ssh_form: b.ssh_form, ssh_mode: SshMode::Edit(i as usize), ..a })
            &&& b.ssh_form.opened(a.ssh_hosts@[i], a.vpn.providers@, a.tunnels@)
        },
    }
}

/// A key on the SSH tab.
pub open spec fn ssh_keyed(a: App, b: App, key: Key, now: int, out: Seq<Act>) -> bool {
    let n = a.ssh_rows@.len() as int;
    match key.code {
        KeyCode::Down | KeyCode::Up | KeyCode::PageDown | KeyCode::PageUp => match key.shifts_spec() {
            Some(downward) => moved_host(a, b, downward, out),
            None => {
                &&& b == (App { ssh_selected: b.ssh_selected, ..a })
                &&& b.ssh_selected == Motion::of_spec(key)->0.goes(a.ssh_selected as int, n)
                &&& out.len() == 0
            },
        },
        KeyCode::Enter => opened_ssh(a, b, now, out),
        KeyCode::Char(c) => if c == ' ' || c == 'r' {
            opened_ssh(a, b, now, out)
        } else if c == 'a' {
            adding_ssh(a, b) && out.len() == 0
        } else if c == 'e' {
            editing_ssh(a, b) && out.len() == 0
        } else if c == 'd' {
            &&& out.len() == 0
            &&& match App::entry_at(a.ssh_rows@, a.ssh_selected as int) {
                None => b == a,
                Some(i) => b == (App { ssh_mode: SshMode::DeleteConfirm(i as usize), ..a }),
            }
        } else if c == 'p' {
            forgot_password(a, b, out)
        } else if c == 'l' {
            opened_log(a, b, out)
        } else if c == 'c' {
            cleared_ssh(a, b, out)
        } else {
            idle(a, b, out)
        },
        _ => idle(a, b, out),
    }
}

/// A key in the ssh form.
pub open spec fn ssh_form_keyed(a: App, b: App, key: Key, out: Seq<Act>) -> bool {
    match SshForm::leads_to(key) {
        FormStep::Close => b == (App { ssh_mode: SshMode::Closed, ..a }) && out.len() == 0,
        FormStep::Submit => submitted_host(a, b, out),
        FormStep::Browse => opened_browser(a, b, out),
        _ => {
            &&& b == (App { ssh_form: b.ssh_form, ..a })
            &&& SshForm::keyed(a.ssh_form, b.ssh_form, key)
            &&& out.len() == 0
        },
    }
}

/// A key in what the SSH tab has open on top of itself.
pub open spec fn ssh_modal_keyed(a: App, b: App, key: Key, out: Seq<Act>) -> bool {
    match a.ssh_mode {
        SshMode::Closed => idle(a, b, out),
        SshMode::Add | SshMode::Edit(_) => ssh_form_keyed(a, b, key, out),
        SshMode::DeleteConfirm(idx) => if key.accepts_spec() {
            deleted_host(a, b, idx as int, out)
        } else {
            b == (App { ssh_mode: SshMode::Closed, ..a }) && out.len() == 0
        },
        SshMode::PasswordWarning => if key.accepts_spec() {
            submitted_host(
                App {
                    ssh_mode: a.ssh_return_mode,
                    ssh_form: SshForm { password_ack: true, ..a.ssh_form },
                    ..a
                },
                b,
                out,
            )
        } else {
            // Back to the form so the password can be cleared.
            b == (App { ssh_mode: a.ssh_return_mode, ..a }) && out.len() == 0
        },
    }
}

// ---------------------------------------------------------------------------
// RDP
// ---------------------------------------------------------------------------

pub open spec fn adding_rdp(a: App, b: App) -> bool {
    &&& b == (App { rdp_form: b.rdp_form, rdp_mode: RdpMode::Add, ..a })
    &&& b.rdp_form.blank(a.vpn.providers@, a.tunnels@)
    &&& b.rdp_form.group@ == group_under(a.rdp_rows@, a.rdp_selected as int, a.rdp_conns@)
}

pub open spec fn editing_rdp(a: App, b: App) -> bool {
    match App::entry_at(a.rdp_rows@, a.rdp_selected as int) {
        None => b == a,
        Some(i) => {
            &&& b == (App { rdp_form: b.rdp_form, rdp_mode: RdpMode::Edit(i as usize), ..a })
            &&& b.rdp_form.opened(a.rdp_conns@[i], a.vpn.providers@, a.tunnels@)
        },
    }
}

/// A key on the RDP tab.
pub open spec fn rdp_keyed(a: App, b: App, key: Key, out: Seq<Act>) -> bool {
    let n = a.rdp_rows@.len() as int;
    match key.code {
        KeyCode::Down | KeyCode::Up | KeyCode::PageDown | KeyCode::PageUp => match key.shifts_spec() {
            Some(downward) => moved_conn(a, b, downward, out),
            None => {
                &&& b == (App { rdp_selected: b.rdp_selected, ..a })
                &&& b.rdp_selected == Motion::of_spec(key)->0.goes(a.rdp_selected as int, n)
                &&& out.len() == 0
            },
        },
        KeyCode::Enter => toggled_rdp(a, b, out),
        KeyCode::Char(c) => if c == ' ' {
            toggled_rdp(a, b, out)
        } else if c == 'a' {
            adding_rdp(a, b) && out.len() == 0
        } else if c == 'e' {
            editing_rdp(a, b) && out.len() == 0
        } else if c == 'd' {
            &&& out.len() == 0
            &&& match App::entry_at(a.rdp_rows@, a.rdp_selected as int) {
                None => b == a,
                Some(i) => b == (App { rdp_mode: RdpMode::DeleteConfirm(i as usize), ..a }),
            }
        } else if c == 'r' {
            reconnected_rdp(a, b, out)
        } else if c == 'p' {
            says(a, b, "the RDP password is asked for on connect and never stored"@, out)
        } else if c == 'l' {
            opened_log(a, b, out)
        } else if c == 'c' {
            cleared_rdp(a, b) && out.len() == 0
        } else {
            idle(a, b, out)
        },
        _ => idle(a, b, out),
    }
}

/// A key in the rdp form.
pub open spec fn rdp_form_keyed(a: App, b: App, key: Key, out: Seq<Act>) -> bool {
    match RdpForm::leads_to(key) {
        FormStep::Close => b == (App { rdp_mode: RdpMode::Closed, ..a }) && out.len() == 0,
        FormStep::Submit => submitted_conn(a, b, out),
        _ => {
            &&& b == (App { rdp_form: b.rdp_form, ..a })
            &&& RdpForm::keyed(a.rdp_form, b.rdp_form, key)
            &&& out.len() == 0
        },
    }
}

/// A key in what the RDP tab has open on top of itself.
pub open spec fn rdp_modal_keyed(a: App, b: App, key: Key, now: int, out: Seq<Act>) -> bool {
    match a.rdp_mode {
        RdpMode::Closed => idle(a, b, out),
        RdpMode::Add | RdpMode::Edit(_) => rdp_form_keyed(a, b, key, out),
        RdpMode::DeleteConfirm(idx) => if key.accepts_spec() {
            deleted_conn(a, b, idx as int, out)
        } else {
            b == (App { rdp_mode: RdpMode::Closed, ..a }) && out.len() == 0
        },
        RdpMode::Password { .. } => password_keyed(a, b, key, now, out),
    }
}

// ---------------------------------------------------------------------------
// Everywhere
// ---------------------------------------------------------------------------

/// A key in the help or the key map. They only display: any key closes them, and
/// the key for the other one swaps straight over to it.
pub open spec fn overlay_keyed(a: App, key: Key) -> App {
    match key.code {
        KeyCode::Char(c) => App { show_help: c == '?', show_keys: c == 'k', ..a },
        _ => App { show_help: false, show_keys: false, ..a },
    }
}

/// A key in the prompt that asks about the sessions that would be left behind.
pub open spec fn quit_keyed(a: App, b: App, key: Key, out: Seq<Act>) -> bool {
    match key.code {
        KeyCode::Enter => quit_stopping(a, b, out),
        KeyCode::Char(c) => if c == 's' || c == 'S' {
            quit_stopping(a, b, out)
        } else if c == 'k' || c == 'K' {
            quit_keeping(a, b, out)
        } else {
            b == (App { quit_prompt: None, ..a }) && out.len() == 0
        },
        _ => b == (App { quit_prompt: None, ..a }) && out.len() == 0,
    }
}

/// The next theme is in force, and kept.
pub open spec fn themed(a: App, b: App, out: Seq<Act>) -> bool {
    let t = theme_after(a.theme.name@);
    &&& b == (App { theme: b.theme, app_config: b.app_config, ..a })
    &&& b.theme.name@ == t.name_spec() && t.colours(b.theme)
    &&& b.app_config == (crate::config::AppConfig { ui: b.app_config.ui, ..a.app_config })
    &&& b.app_config.ui.theme@ == t.name_spec()
    &&& out == seq![Act::Save(Store::Config)]
}

/// A key with nothing open. No popup is left to close, so `q` closes the
/// application itself — once it has settled what happens to anything running as
/// root.
pub open spec fn base_keyed(a: App, b: App, key: Key, now: int, out: Seq<Act>) -> bool {
    match key.code {
        KeyCode::Esc => idle(a, b, out),
        KeyCode::Tab => b == (App { tab: a.tab.next_spec(), ..a }) && out.len() == 0,
        KeyCode::BackTab => b == (App { tab: a.tab.prev_spec(), ..a }) && out.len() == 0,
        KeyCode::Char(c) => if c == 'q' {
            quit_requested(a, b, out)
        } else if c == '?' {
            b == (App { show_help: true, ..a }) && out.len() == 0
        } else if c == 'k' {
            b == (App { show_keys: true, ..a }) && out.len() == 0
        } else if c == 's' {
            b == a && out == export_acts(a)
        } else if c == 't' {
            themed(a, b, out)
        } else if c == 'x' {
            panic_armed(a, b, out)
        } else if '1' <= c && c <= '5' {
            &&& b == (App { tab: Tab::all_spec()[c as int - '1' as int], ..a })
            &&& out.len() == 0
        } else {
            tab_keyed(a, b, key, now, out)
        },
        _ => tab_keyed(a, b, key, now, out),
    }
}

/// A key that only means something to the tab in front.
pub open spec fn tab_keyed(a: App, b: App, key: Key, now: int, out: Seq<Act>) -> bool {
    match a.tab {
        Tab::Dashboard => dashboard_keyed(a, b, key, out),
        Tab::Vpn => vpn_keyed(a, b, key, out),
        Tab::Tunnels => tunnels_keyed(a, b, key, now, out),
        Tab::Ssh => ssh_keyed(a, b, key, now, out),
        Tab::Rdp => rdp_keyed(a, b, key, out),
    }
}

/// A key, wherever it is pressed.
pub open spec fn keyed(a: App, b: App, key: Key, now: int, out: Seq<Act>) -> bool {
    if a.show_help || a.show_keys {
        b == overlay_keyed(a, key) && out.len() == 0
    } else if a.quit_prompt is Some {
        quit_keyed(a, b, key, out)
    } else if a.panic is Some {
        if key.accepts_spec() {
            everything_down(a, b, out)
        } else {
            b == (App { panic: None, ..a }) && out.len() == 0
        }
    } else if a.conflict is Some {
        resolved(a, b, key.accepts_spec(), now, out)
    } else if a.browser is Some {
        browser_keyed(a, b, key, out)
    } else if a.log_pane is Some {
        log_keyed(a, b, key, out)
    } else {
        match a.form_mode {
            FormMode::Add | FormMode::Edit(_) => tunnel_form_keyed(a, b, key, out),
            FormMode::DeleteConfirm(idx) => if key.accepts_spec() {
                deleted_tunnel(a, b, idx as int, out)
            } else {
                b == (App { form_mode: FormMode::Closed, ..a }) && out.len() == 0
            },
            FormMode::Closed => if !(a.rdp_mode is Closed) {
                rdp_modal_keyed(a, b, key, now, out)
            } else if !(a.ssh_mode is Closed) {
                ssh_modal_keyed(a, b, key, out)
            } else if !(a.vpn_mode is Closed) {
                vpn_modal_keyed(a, b, key, out)
            } else {
                base_keyed(a, b, key, now, out)
            },
        }
    }
}

impl App {
    fn on_dashboard_key(&mut self, key: Key) -> (r: Vec<Effect>)
        requires
            old(self).wf(),
        ensures
            final(self).wf(),
            dashboard_keyed(*old(self), *final(self), key, acts(r@)),
    {
        let elsewhere = match key.code {
            KeyCode::Enter => true,
            KeyCode::Up | KeyCode::Down => key.ctrl,
            KeyCode::Char(c) => {
                if c == 'r' {
                    return self.refresh_everything();
                }
                if c == 'c' {
                    return self.clear_finished_everywhere();
                }
                if c == 'l' {
                    return self.open_log();
                }
                c == ' ' || c == 'a' || c == 'e' || c == 'd' || c == 'p'
            },
            _ => false,
        };
        if elsewhere {
            effects::just(
                Effect::Flash(
                    "the dashboard only watches — act on the VPN, Tunnels, SSH or RDP tab".to_owned(),
                    false,
                ),
            )
        } else {
            effects::nothing()
        }
    }

    fn on_tunnels_key(&mut self, key: Key, now: u64) -> (r: Vec<Effect>)
        requires
            old(self).wf(),
        ensures
            final(self).wf(),
            tunnels_keyed(*old(self), *final(self), key, now as int, acts(r@)),
    {
        match key.code {
            KeyCode::Down | KeyCode::Up | KeyCode::PageDown | KeyCode::PageUp => {
                if let Some(downward) = key.shifts() {
                    return self.move_tunnel(downward);
                }
                if let Some(m) = Motion::of(key) {
                    self.selected = m.from(self.selected, self.rows.len());
                }
            },
            KeyCode::Enter => {
                return self.toggle_selected(now);
            },
            KeyCode::Char(c) => {
                if c == ' ' {
                    return self.toggle_selected(now);
                } else if c == 'a' {
                    self.add_tunnel();
                } else if c == 'e' {
                    self.edit_tunnel();
                } else if c == 'd' {
                    self.ask_delete_tunnel();
                } else if c == 'r' {
                    return self.restart_selected_tunnels();
                } else if c == 'p' {
                    return effects::just(
                        Effect::Flash(
                            "tunnels authenticate with a key or an agent — no password is stored".to_owned(),
                            false,
                        ),
                    );
                } else if c == 'l' {
                    return self.open_log();
                } else if c == 'c' {
                    return self.clear_finished_tunnels();
                }
            },
            _ => {},
        }
        effects::nothing()
    }

    fn on_form_key(&mut self, key: Key) -> (r: Vec<Effect>)
        requires
            old(self).wf(),
        ensures
            final(self).wf(),
            tunnel_form_keyed(*old(self), *final(self), key, acts(r@)),
    {
        match self.form.press(key) {
            FormStep::Close => {
                self.form_mode = FormMode::Closed;
                effects::nothing()
            },
            FormStep::Submit => self.submit_form(),
            _ => effects::nothing(),
        }
    }

    fn on_vpn_key(&mut self, key: Key) -> (r: Vec<Effect>)
        requires
            old(self).wf(),
        ensures
            final(self).wf(),
            vpn_keyed(*old(self), *final(self), key, acts(r@)),
    {
        match key.code {
            KeyCode::Left => {
                self.vpn.focus = VpnPane::Clients;
            },
            KeyCode::Right => {
                self.vpn.focus = VpnPane::Profiles;
            },
            KeyCode::Down | KeyCode::Up | KeyCode::PageDown | KeyCode::PageUp => {
                if let Some(downward) = key.shifts() {
                    return self.move_profile(downward);
                }
                if let Some(m) = Motion::of(key) {
                    self.move_on_vpn(m);
                }
            },
            KeyCode::Enter => {
                return self.vpn_toggle_selected();
            },
            KeyCode::Char(c) => {
                if c == ' ' {
                    return self.vpn_toggle_selected();
                } else if c == 'a' {
                    return self.open_vpn_form(None);
                } else if c == 'e' {
                    return self.edit_profile();
                } else if c == 'd' {
                    return self.ask_delete_profile();
                } else if c == 'r' {
                    return self.refresh_here();
                } else if c == 'p' {
                    return self.clear_vpn_password();
                } else if c == 'l' {
                    return self.open_log();
                } else if c == 'c' {
                    return self.clear_vpn_finished();
                }
            },
            _ => {},
        }
        effects::nothing()
    }

    fn on_vpn_form_key(&mut self, key: Key) -> (r: Vec<Effect>)
        requires
            old(self).wf(),
        ensures
            final(self).wf(),
            vpn_form_keyed(*old(self), *final(self), key, acts(r@)),
    {
        match self.vpn_form.press(key) {
            FormStep::Close => {
                self.vpn_mode = VpnMode::Closed;
                effects::nothing()
            },
            FormStep::Submit => self.submit_vpn_form(),
            FormStep::Browse => self.open_path_browser(),
            FormStep::Generate => effects::just(Effect::GenerateKey),
            FormStep::Stay => effects::nothing(),
        }
    }

    fn on_vpn_modal_key(&mut self, key: Key) -> (r: Vec<Effect>)
        requires
            old(self).wf(),
        ensures
            final(self).wf(),
            vpn_modal_keyed(*old(self), *final(self), key, acts(r@)),
    {
        match self.vpn_mode {
            VpnMode::Closed => effects::nothing(),
            VpnMode::DeleteConfirm { provider, idx } => {
                if key.accepts() {
                    self.delete_vpn_profile(provider, idx)
                } else {
                    self.vpn_mode = VpnMode::Closed;
                    effects::nothing()
                }
            },
            VpnMode::SecretWarning { provider, edit } => {
                self.vpn_mode = VpnMode::Form { provider, edit };
                if key.accepts() {
                    self.vpn_form.secret_ack = true;
                    self.submit_vpn_form()
                } else {
                    effects::nothing()
                }
            },
            VpnMode::Form { .. } => self.on_vpn_form_key(key),
        }
    }

    fn on_ssh_key(&mut self, key: Key, now: u64) -> (r: Vec<Effect>)
        requires
            old(self).wf(),
        ensures
            final(self).wf(),
            ssh_keyed(*old(self), *final(self), key, now as int, acts(r@)),
    {
        match key.code {
            KeyCode::Down | KeyCode::Up | KeyCode::PageDown | KeyCode::PageUp => {
                if let Some(downward) = key.shifts() {
                    return self.move_host(downward);
                }
                if let Some(m) = Motion::of(key) {
                    self.ssh_selected = m.from(self.ssh_selected, self.ssh_rows.len());
                }
            },
            KeyCode::Enter => {
                return self.open_selected_ssh(now);
            },
            KeyCode::Char(c) => {
                if c == ' ' || c == 'r' {
                    return self.open_selected_ssh(now);
                } else if c == 'a' {
                    self.add_ssh();
                } else if c == 'e' {
                    self.edit_ssh();
                } else if c == 'd' {
                    self.ask_delete_ssh();
                } else if c == 'p' {
                    return self.clear_stored_password();
                } else if c == 'l' {
                    return self.open_log();
                } else if c == 'c' {
                    return self.clear_finished_ssh();
                }
            },
            _ => {},
        }
        effects::nothing()
    }

    fn on_ssh_form_key(&mut self, key: Key) -> (r: Vec<Effect>)
        requires
            old(self).wf(),
        ensures
            final(self).wf(),
            ssh_form_keyed(*old(self), *final(self), key, acts(r@)),
    {
        match self.ssh_form.press(key) {
            FormStep::Close => {
                self.ssh_mode = SshMode::Closed;
                effects::nothing()
            },
            FormStep::Submit => self.submit_ssh_form(),
            FormStep::Browse => self.open_path_browser(),
            _ => effects::nothing(),
        }
    }

    fn on_ssh_modal_key(&mut self, key: Key) -> (r: Vec<Effect>)
        requires
            old(self).wf(),
        ensures
            final(self).wf(),
            ssh_modal_keyed(*old(self), *final(self), key, acts(r@)),
    {
        match self.ssh_mode {
            SshMode::Closed => effects::nothing(),
            SshMode::Add | SshMode::Edit(_) => self.on_ssh_form_key(key),
            SshMode::DeleteConfirm(idx) => {
                if key.accepts() {
                    self.delete_ssh(idx)
                } else {
                    self.ssh_mode = SshMode::Closed;
                    effects::nothing()
                }
            },
            SshMode::PasswordWarning => {
                self.ssh_mode = self.ssh_return_mode;
                if key.accepts() {
                    self.ssh_form.password_ack = true;
                    self.submit_ssh_form()
                } else {
                    effects::nothing()
                }
            },
        }
    }

    fn on_rdp_key(&mut self, key: Key) -> (r: Vec<Effect>)
        requires
            old(self).wf(),
        ensures
            final(self).wf(),
            rdp_keyed(*old(self), *final(self), key, acts(r@)),
    {
        match key.code {
            KeyCode::Down | KeyCode::Up | KeyCode::PageDown | KeyCode::PageUp => {
                if let Some(downward) = key.shifts() {
                    return self.move_conn(downward);
                }
                if let Some(m) = Motion::of(key) {
                    self.rdp_selected = m.from(self.rdp_selected, self.rdp_rows.len());
                }
            },
            KeyCode::Enter => {
                return self.toggle_selected_rdp();
            },
            KeyCode::Char(c) => {
                if c == ' ' {
                    return self.toggle_selected_rdp();
                } else if c == 'a' {
                    self.add_rdp();
                } else if c == 'e' {
                    self.edit_rdp();
                } else if c == 'd' {
                    self.ask_delete_rdp();
                } else if c == 'r' {
                    return self.reconnect_selected_rdp();
                } else if c == 'p' {
                    return effects::just(
                        Effect::Flash(
                            "the RDP password is asked for on connect and never stored".to_owned(),
                            false,
                        ),
                    );
                } else if c == 'l' {
                    return self.open_log();
                } else if c == 'c' {
                    self.clear_finished_rdp();
                }
            },
            _ => {},
        }
        effects::nothing()
    }

    fn on_rdp_form_key(&mut self, key: Key) -> (r: Vec<Effect>)
        requires
            old(self).wf(),
        ensures
            final(self).wf(),
            rdp_form_keyed(*old(self), *final(self), key, acts(r@)),
    {
        match self.rdp_form.press(key) {
            FormStep::Close => {
                self.rdp_mode = RdpMode::Closed;
                effects::nothing()
            },
            FormStep::Submit => self.submit_rdp_form(),
            _ => effects::nothing(),
        }
    }

    fn on_rdp_modal_key(&mut self, key: Key, now: u64) -> (r: Vec<Effect>)
        requires
            old(self).wf(),
        ensures
            final(self).wf(),
            rdp_modal_keyed(*old(self), *final(self), key, now as int, acts(r@)),
    {
        let delete: Option<usize> = match &self.rdp_mode {
            RdpMode::Closed => {
                return effects::nothing();
            },
            RdpMode::Add | RdpMode::Edit(_) => {
                return self.on_rdp_form_key(key);
            },
            RdpMode::Password { .. } => {
                return self.on_password_key(key, now);
            },
            RdpMode::DeleteConfirm(idx) => Some(*idx),
        };
        match delete {
            Some(idx) => {
                if key.accepts() {
                    self.delete_rdp(idx)
                } else {
                    self.rdp_mode = RdpMode::Closed;
                    effects::nothing()
                }
            },
            None => effects::nothing(),
        }
    }

    fn on_quit_key(&mut self, key: Key) -> (r: Vec<Effect>)
        requires
            old(self).wf(),
        ensures
            final(self).wf(),
            quit_keyed(*old(self), *final(self), key, acts(r@)),
    {
        match key.code {
            KeyCode::Enter => {
                return self.quit_and_stop();
            },
            KeyCode::Char(c) => {
                if c == 's' || c == 'S' {
                    return self.quit_and_stop();
                }
                if c == 'k' || c == 'K' {
                    return self.quit_and_keep();
                }
            },
            _ => {},
        }
        self.quit_prompt = None;
        effects::nothing()
    }

    fn next_theme(&mut self) -> (r: Vec<Effect>)
        requires
            old(self).wf(),
        ensures
            final(self).wf(),
            themed(*old(self), *final(self), acts(r@)),
    {
        self.theme = theme::next(self.theme.name);
        self.app_config.ui.theme = self.theme.name.to_owned();
        effects::just(Effect::Save(Store::Config))
    }

    fn on_tab_key(&mut self, key: Key, now: u64) -> (r: Vec<Effect>)
        requires
            old(self).wf(),
        ensures
            final(self).wf(),
            tab_keyed(*old(self), *final(self), key, now as int, acts(r@)),
    {
        match self.tab {
            Tab::Dashboard => self.on_dashboard_key(key),
            Tab::Vpn => self.on_vpn_key(key),
            Tab::Tunnels => self.on_tunnels_key(key, now),
            Tab::Ssh => self.on_ssh_key(key, now),
            Tab::Rdp => self.on_rdp_key(key),
        }
    }

    fn on_base_key(&mut self, key: Key, now: u64) -> (r: Vec<Effect>)
        requires
            old(self).wf(),
        ensures
            final(self).wf(),
            base_keyed(*old(self), *final(self), key, now as int, acts(r@)),
    {
        match key.code {
            KeyCode::Esc => {},
            KeyCode::Tab => {
                self.tab = self.tab.next();
            },
            KeyCode::BackTab => {
                self.tab = self.tab.prev();
            },
            KeyCode::Char(c) => {
                if c == 'q' {
                    return self.request_quit();
                } else if c == '?' {
                    self.show_help = true;
                } else if c == 'k' {
                    self.show_keys = true;
                } else if c == 's' {
                    return self.export_log();
                } else if c == 't' {
                    return self.next_theme();
                } else if c == 'x' {
                    return self.arm_panic();
                } else if c == '1' {
                    self.tab = Tab::Dashboard;
                } else if c == '2' {
                    self.tab = Tab::Vpn;
                } else if c == '3' {
                    self.tab = Tab::Tunnels;
                } else if c == '4' {
                    self.tab = Tab::Ssh;
                } else if c == '5' {
                    self.tab = Tab::Rdp;
                } else {
                    return self.on_tab_key(key, now);
                }
            },
            _ => {
                return self.on_tab_key(key, now);
            },
        }
        effects::nothing()
    }

    /// A key that was pressed.
    pub fn on_key(&mut self, key: Key, now: u64) -> (r: Vec<Effect>)
        requires
            old(self).wf(),
        ensures
            final(self).wf(),
            keyed(*old(self), *final(self), key, now as int, acts(r@)),
    {
        if self.show_help || self.show_keys {
            let (help, keys) = match key.code {
                KeyCode::Char(c) => (c == '?', c == 'k'),
                _ => (false, false),
            };
            self.show_help = help;
            self.show_keys = keys;
            return effects::nothing();
        }
        if self.quit_prompt.is_some() {
            return self.on_quit_key(key);
        }
        if self.panic.is_some() {
            if key.accepts() {
                return self.disconnect_everything();
            }
            self.panic = None;
            return effects::nothing();
        }
        if self.conflict.is_some() {
            return self.resolve_conflict(key.accepts(), now);
        }
        if self.browser.is_some() {
            return self.on_browser_key(key);
        }
        if self.log_pane.is_some() {
            return self.on_log_key(key);
        }
        match self.form_mode {
            FormMode::Add | FormMode::Edit(_) => {
                return self.on_form_key(key);
            },
            FormMode::DeleteConfirm(idx) => {
                if key.accepts() {
                    return self.delete_tunnel(idx);
                }
                self.form_mode = FormMode::Closed;
                return effects::nothing();
            },
            FormMode::Closed => {},
        }
        if !matches!(self.rdp_mode, RdpMode::Closed) {
            return self.on_rdp_modal_key(key, now);
        }
        if self.ssh_mode != SshMode::Closed {
            return self.on_ssh_modal_key(key);
        }
        if self.vpn_mode != VpnMode::Closed {
            return self.on_vpn_modal_key(key);
        }
        self.on_base_key(key, now)
    }
}

}
