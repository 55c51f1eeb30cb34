//! The state of the program, and what always holds of it.

use vstd::prelude::*;
use crate::activation::{Activation, ConflictPrompt};
use crate::browser::FileBrowser;
use crate::config::{AppConfig, Paths};
use crate::live::{one_each, LastSession, LiveOvpn, LiveRdp, LiveTunnel, Named, Reconnect, Windows};
use crate::logs::Journal;
use crate::plan::Step;
use crate::queries::window_count;
use crate::rdp::Client;
use crate::rdp_form::{RdpForm, RdpMode};
use crate::rows::{
    build_rows, distinct, groups_of, item_lines, layout, lemma_places, lines_of, places, sections,
    Grouped, Line, RowItem,
};
use crate::screen::{LogPane, PanicSummary, QuitPrompt, StatusMsg, Tab};
use crate::ssh::{Launch, Machine, PasswordHelper};
use crate::ssh_form::{SshForm, SshMode};
use crate::theme::{self, theme_for, Theme};
use crate::tunnel_form::{FormContext, FormMode, TunnelForm};
use crate::types::{RdpConnection, SshHost, Tunnel, VpnConfig};
use crate::vpn::ProviderId;
use crate::vpn_form::{VpnForm, VpnMode};
use crate::vpn_view::{Link, Process, VpnPane, VpnView};

verus! {

/// Every VPN process and tunnel device on the machine, whoever started it.
pub struct Scan {
    pub processes: Vec<Process>,
    pub links: Vec<Link>,
    pub error: Option<String>,
}

/// A step whose processes have been asked for and have not answered yet.
pub struct Pending {
    pub step: Step,
    /// It belongs to the plan that is running.
    pub in_plan: bool,
    pub awaits: Awaited,
}

/// What tells whether a step has begun.
pub enum Awaited {
    /// The tunnel of this name is running.
    Tunnel(String),
    /// The openvpn session of this profile is running.
    Openvpn(String),
    /// The client took the request; why not, where it did not.
    Client(Option<String>),
    /// Nothing: the step is only fired.
    Nothing,
}

/// Everything the program knows.
pub struct App {
    pub tunnels: Vec<Tunnel>,
    pub ssh_hosts: Vec<SshHost>,
    pub rdp_conns: Vec<RdpConnection>,
    /// Profiles controlcenter owns, from `vpn.toml`.
    pub vpn_cfg: VpnConfig,
    pub paths: Paths,
    pub app_config: AppConfig,
    pub machine: Machine,
    /// Where a session opens: its own window, or this terminal.
    pub ssh_launcher: Launch,
    pub ssh_password_helper: PasswordHelper,
    pub rdp_client: Client,
    pub rdp_installed: bool,
    pub theme: Theme,
    pub tab: Tab,
    pub rows: Vec<RowItem>,
    pub selected: usize,
    pub ssh_rows: Vec<RowItem>,
    /// Index into `ssh_rows`, not into `ssh_hosts`.
    pub ssh_selected: usize,
    pub rdp_rows: Vec<RowItem>,
    /// Index into `rdp_rows`, not into `rdp_conns`.
    pub rdp_selected: usize,
    pub form: TunnelForm,
    pub form_mode: FormMode,
    pub ssh_form: SshForm,
    pub ssh_mode: SshMode,
    /// Form state to come back to when the password warning is dismissed.
    pub ssh_return_mode: SshMode,
    pub rdp_form: RdpForm,
    pub rdp_mode: RdpMode,
    pub vpn_form: VpnForm,
    pub vpn_mode: VpnMode,
    pub show_help: bool,
    /// The keybinding cheat sheet, opened with `k`.
    pub show_keys: bool,
    /// What `x` is about to tear down, while it asks whether to.
    pub panic: Option<PanicSummary>,
    /// What quitting would leave running as root, while it asks whether to.
    pub quit_prompt: Option<QuitPrompt>,
    /// The log pane, whichever tab opened it.
    pub log_pane: Option<LogPane>,
    /// How many lines of a log a screen has room for.
    pub log_page: usize,
    /// The file picker, open over whichever form asked for it.
    pub browser: Option<FileBrowser>,
    pub status_msg: Option<StatusMsg>,
    pub throughput_history: Vec<u64>,
    pub vpn: VpnView,
    pub active: Vec<LiveTunnel>,
    pub rdp_active: Vec<LiveRdp>,
    /// OpenVPN sessions, owned the same way RDP sessions are.
    pub ovpn_active: Vec<LiveOvpn>,
    /// Sessions running in windows of their own, by host name. A host can have
    /// several: they are separate windows, nothing stops the user opening two.
    pub ssh_windows: Vec<Windows>,
    /// Outcome of the last finished interactive session, by host name.
    pub ssh_last: Vec<LastSession>,
    pub reconnect: Vec<Reconnect>,
    /// What the last sweep of the machine found.
    pub scan: Scan,
    /// When the machine was last swept, in milliseconds.
    pub scan_at: Option<u64>,
    /// A sweep is under way and has not reported back yet.
    pub scan_pending: bool,
    /// Processes that have already been asked to end from here, so a second
    /// attempt on one that ignored it can escalate.
    pub termed: Vec<u32>,
    pub ticket_at: u64,
    /// Everything controlcenter has done this run, for the log panes and the
    /// reports they export.
    pub journal: Journal,
    /// Plan currently being executed, if any.
    pub activation: Option<Activation>,
    /// A step that has been asked for and has not answered yet.
    pub pending: Option<Pending>,
    /// Conflict awaiting the user's decision.
    pub conflict: Option<ConflictPrompt>,
    /// Sessions waiting for the terminal to open them. A queue, because a
    /// group start asks for several at once.
    pub ssh_launch: Vec<String>,
    pub should_quit: bool,
}

/// A cursor is on a row, or the list is empty.
pub open spec fn cursor_ok(at: int, n: int) -> bool {
    0 <= at < n || at == 0
}

/// The rows of a list are its layout.
pub open spec fn rows_ok<T: Grouped>(rows: Seq<RowItem>, items: Seq<T>) -> bool {
    lines_of(rows) == layout(groups_of(items))
}

pub proof fn lemma_sections_in_range(gs: Seq<Seq<char>>, names: Seq<Seq<char>>, k: int)
    requires
        0 <= k < sections(gs, names).len(),
    ensures
        match sections(gs, names)[k] {
            Line::Item(i) => 0 <= i < gs.len(),
            Line::Group(g) => names.contains(g),
        },
    decreases names.len(),
{
    let s = sections(gs, names);
    let head = names.drop_last();
    let before = sections(gs, head);
    let ps = places(gs, names.last());
    lemma_places(gs, names.last());
    if k < before.len() {
        assert(s[k] == before[k]);
        lemma_sections_in_range(gs, head, k);
        match before[k] {
            Line::Group(g) => {
                let j = choose|j: int| 0 <= j < head.len() && head[j] == g;
                assert(names[j] == g);
            },
            _ => {},
        }
    } else if k > before.len() {
        let m = k - before.len() - 1;
        assert(s[k] == Line::Item(ps[m]));
        assert(ps.contains(ps[m]));
    } else {
        assert(s[k] == Line::Group(names.last()));
        assert(names[names.len() - 1] == names.last());
    }
}

/// An entry row of a layout points into the list.
pub proof fn lemma_row_in_range<T: Grouped>(rows: Seq<RowItem>, items: Seq<T>, k: int)
    requires
        rows_ok(rows, items),
        0 <= k < rows.len(),
    ensures
        rows[k] matches RowItem::Item(i) ==> i < items.len(),
{
    let gs = groups_of(items);
    let l = layout(gs);
    assert(lines_of(rows)[k] == rows[k]@);
    let loose = places(gs, Seq::empty());
    lemma_places(gs, Seq::empty());
    assert(l.len() == rows.len());
    assert(item_lines(loose).len() == loose.len());
    if k < loose.len() {
        assert(l[k] == Line::Item(loose[k]));
        assert(loose.contains(loose[k]));
    } else {
        assert(l[k] == sections(gs, distinct(gs))[k - loose.len()]);
        lemma_sections_in_range(gs, distinct(gs), k - loose.len());
    }
}

/// How many profiles of a client are kept here.
pub open spec fn profiles_kept(cfg: VpnConfig, id: ProviderId) -> int {
    match id {
        ProviderId::Netbird => 0,
        ProviderId::Wireguard => cfg.wireguard@.len() as int,
        ProviderId::Openvpn => cfg.openvpn@.len() as int,
        ProviderId::Tailscale => cfg.tailscale@.len() as int,
    }
}

/// What is being edited is there.
pub open spec fn vpn_mode_ok(mode: VpnMode, cfg: VpnConfig) -> bool {
    match mode {
        VpnMode::Form { provider, edit } => edit matches Some(i) ==> i < profiles_kept(
            cfg,
            provider,
        ),
        VpnMode::SecretWarning { provider, edit } => edit matches Some(i) ==> i < profiles_kept(
            cfg,
            provider,
        ),
        _ => true,
    }
}

impl App {
    /// What holds of the program's state between one key or tick and the next.
    pub open spec fn wf(&self) -> bool {
        &&& self.vpn.wf() && self.vpn.cursors_ok()
        &&& self.journal.wf()
        &&& self.form.wf() && self.ssh_form.wf() && self.rdp_form.wf() && self.vpn_form.wf()
        &&& rows_ok(self.rows@, self.tunnels@)
        &&& rows_ok(self.ssh_rows@, self.ssh_hosts@)
        &&& rows_ok(self.rdp_rows@, self.rdp_conns@)
        &&& cursor_ok(self.selected as int, self.rows@.len() as int)
        &&& cursor_ok(self.ssh_selected as int, self.ssh_rows@.len() as int)
        &&& cursor_ok(self.rdp_selected as int, self.rdp_rows@.len() as int)
        &&& self.form_mode matches FormMode::Edit(i) ==> i < self.tunnels@.len()
        &&& self.ssh_mode matches SshMode::Edit(i) ==> i < self.ssh_hosts@.len()
        &&& self.ssh_return_mode matches SshMode::Edit(i) ==> i < self.ssh_hosts@.len()
        &&& self.rdp_mode matches RdpMode::Edit(i) ==> i < self.rdp_conns@.len()
        &&& vpn_mode_ok(self.vpn_mode, self.vpn_cfg)
        &&& self.activation matches Some(a) ==> a@.wf() && a.done < usize::MAX
        &&& self.pending matches Some(p) ==> p.in_plan ==> self.activation is Some
            && self.activation->0@.steps.len() > 0 && self.activation->0@.waiting is None
        &&& self.browser matches Some(b) ==> b.wf()
        &&& one_each(self.active@) && one_each(self.rdp_active@) && one_each(self.ovpn_active@)
        &&& window_count(self.ssh_windows@) <= usize::MAX
        &&& one_each(self.ssh_windows@) && one_each(self.ssh_last@) && one_each(self.reconnect@)
    }

    /// The program as it starts, before anything has been asked of it.
    pub fn new(
        tunnels: Vec<Tunnel>,
        rdp_conns: Vec<RdpConnection>,
        ssh_hosts: Vec<SshHost>,
        vpn_cfg: VpnConfig,
        paths: Paths,
        app_config: AppConfig,
        around: Around,
    ) -> (r: Self)
        ensures
            r.wf(),
            r.tunnels == tunnels && r.rdp_conns == rdp_conns && r.ssh_hosts == ssh_hosts,
            r.vpn_cfg == vpn_cfg && r.paths == paths && r.app_config == app_config,
            r.machine == around.machine && r.ssh_launcher == around.ssh_launcher,
            r.ssh_password_helper == around.ssh_password_helper,
            r.rdp_client == around.rdp_client && r.rdp_installed == around.rdp_installed,
            r.theme.name@ == theme_for(app_config.ui.theme@).name_spec(),
            theme_for(app_config.ui.theme@).colours(r.theme),
            r.tab == Tab::Dashboard,
            r.selected == 0 && r.ssh_selected == 0 && r.rdp_selected == 0,
            r.form_mode is Closed && r.ssh_mode is Closed && r.rdp_mode is Closed,
            r.vpn_mode is Closed && r.ssh_return_mode is Closed,
            !r.show_help && !r.show_keys && r.panic is None && r.quit_prompt is None,
            r.log_pane is None && r.browser is None && r.status_msg is None,
            r.throughput_history@.len() == 0,
            forall|i: int|
                0 <= i < 4 ==> (#[trigger] r.vpn.providers@[i]).installed
                    == around.vpn_clients@.contains(r.vpn.providers@[i].id)
                    && r.vpn.providers@[i].untouched(),
            r.vpn.client_idx == 0 && r.vpn.focus == VpnPane::Clients,
            r.form.blank(r.vpn.providers@, tunnels@) && r.form.group@.len() == 0,
            r.ssh_form.blank(r.vpn.providers@, tunnels@) && r.ssh_form.group@.len() == 0,
            r.rdp_form.blank(r.vpn.providers@, tunnels@) && r.rdp_form.group@.len() == 0,
            r.vpn_form.blank(ProviderId::Wireguard),
            r.active@.len() == 0 && r.rdp_active@.len() == 0 && r.ovpn_active@.len() == 0,
            r.ssh_windows@.len() == 0 && r.ssh_last@.len() == 0 && r.reconnect@.len() == 0,
            r.scan.processes@.len() == 0 && r.scan.links@.len() == 0 && r.scan.error is None,
            r.scan_at is None && !r.scan_pending && r.termed@.len() == 0,
            r.ticket_at == around.now,
            r.journal.held().len() == 0,
            r.activation is None && r.pending is None && r.conflict is None,
            r.ssh_launch@.len() == 0 && !r.should_quit,
            r.log_page == 10,
    {
        let theme = theme::by_name(app_config.ui.theme.as_str());
        let vpn = VpnView::new(&around.vpn_clients);
        let form;
        let ssh_form;
        let rdp_form;
        {
            let ctx = FormContext { tunnels: tunnels.as_slice(), vpn: &vpn };
            form = TunnelForm::empty(ctx);
            ssh_form = SshForm::empty(ctx);
            rdp_form = RdpForm::empty(ctx);
        }
        let rows = build_rows(tunnels.as_slice());
        let ssh_rows = build_rows(ssh_hosts.as_slice());
        let rdp_rows = build_rows(rdp_conns.as_slice());
        App {
            tunnels,
            ssh_hosts,
            rdp_conns,
            vpn_cfg,
            paths,
            app_config,
            machine: around.machine,
            ssh_launcher: around.ssh_launcher,
            ssh_password_helper: around.ssh_password_helper,
            rdp_client: around.rdp_client,
            rdp_installed: around.rdp_installed,
            theme,
            tab: Tab::Dashboard,
            rows,
            selected: 0,
            ssh_rows,
            ssh_selected: 0,
            rdp_rows,
            rdp_selected: 0,
            form,
            form_mode: FormMode::Closed,
            ssh_form,
            ssh_mode: SshMode::Closed,
            ssh_return_mode: SshMode::Closed,
            rdp_form,
            rdp_mode: RdpMode::Closed,
            vpn_form: VpnForm::empty(ProviderId::Wireguard),
            vpn_mode: VpnMode::Closed,
            show_help: false,
            show_keys: false,
            panic: None,
            quit_prompt: None,
            log_pane: None,
            browser: None,
            status_msg: None,
            throughput_history: Vec::new(),
            vpn,
            active: Vec::new(),
            rdp_active: Vec::new(),
            ovpn_active: Vec::new(),
            ssh_windows: Vec::new(),
            ssh_last: Vec::new(),
            reconnect: Vec::new(),
            scan: Scan { processes: Vec::new(), links: Vec::new(), error: None },
            scan_at: None,
            scan_pending: false,
            termed: Vec::new(),
            ticket_at: around.now,
            journal: Journal::default(),
            activation: None,
            pending: None,
            conflict: None,
            ssh_launch: Vec::new(),
            should_quit: false,
            log_page: 10,
        }
    }
}

/// What is found out about the machine before the program starts.
pub struct Around {
    pub machine: Machine,
    pub ssh_launcher: Launch,
    pub ssh_password_helper: PasswordHelper,
    pub rdp_client: Client,
    pub rdp_installed: bool,
    /// The VPN clients that are installed.
    pub vpn_clients: Vec<ProviderId>,
    /// The time, in milliseconds.
    pub now: u64,
}

}
