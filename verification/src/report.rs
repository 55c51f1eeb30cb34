//! The report a log pane exports.
//!
//! The point of the file is that it can be read away from the program and still
//! explain what happened. So it carries more than the pane it was exported
//! from: the connection's whole configuration, the command line it runs, and
//! every link of the chain it needs, because a chain fails at one link and is
//! read at another.
//!
//! It carries no more than that. What the subject does not depend on cannot
//! explain what it did, and listing it only buries what can. The Dashboard's
//! report is the exception: its subject *is* everything.
//!
//! Nothing in it is a secret. Passwords never reach a command line to begin
//! with, stored ones are reported as present rather than printed, and every
//! line still goes through [`redact`] on the way out in case a password was
//! typed into an extra-args field.

use vstd::prelude::*;
use crate::activation::{progress_of, satisfied};
use crate::app::App;
use crate::calendar::{self, file_stamp_text, moment_of, stamp_text};
use crate::live::{has_name, place_of, position, tunnel_status, LiveTunnel};
use crate::logs::{covers_spec, slug_of, title_of, Entry, LogTarget, Subject};
use crate::number::{self, decimal};
use crate::path::{route, same_path, Os};
use crate::plan::{jobs, log_of, short_of, Job, Step};
use crate::queries::owner_of;
use crate::rdp;
use crate::redact::{command_line, redact, redacted, secret_note, secret_text};
use crate::sort::sorted;
use crate::ssh::{self, preview_of, PasswordHelper};
use crate::text::{self, cat, cat3, cat4, cat5, chars_of, joined, lowercase, texts};
use crate::tunnel::{self, Status};
use crate::types::{
    requirement_label_text, vpn_requirement_label, OpenvpnProfile, RdpConnection, SshHost, Tunnel,
    WireguardProfile,
};
use crate::ui::{blank, duration_text, fill, filled, fmt_duration};
use crate::vpn::ProviderId;
use crate::vpn_view::{Process, ProviderState, VpnProfile};

verus! {

/// Extension of the file the chain's logs are written to, beside the report.
pub const CHAIN_LOG_SUFFIX: &'static str = "-chain.log";

/// An export: the report, and the files it links to.
///
/// The report itself carries the focused pane's log in full, because that is
/// the one being asked about. The chain's logs are full too, and long, so they
/// go in a file of their own rather than pushing the report's own findings off
/// the first screen.
#[derive(Debug)]
pub struct Report {
    pub body: String,
    /// `(file name, contents)`, written beside the report.
    pub attachments: Vec<(String, String)>,
}

/// What is known of a WireGuard profile besides what is configured.
pub struct WireguardFacts {
    pub interface: String,
    /// Its config is managed elsewhere.
    pub external: bool,
    pub conf_path: String,
}

/// What is known of an OpenVPN profile besides what is configured.
pub struct OpenvpnFacts {
    /// The config file it runs with.
    pub config: String,
    /// What it would be run with.
    pub argv: Vec<String>,
}

/// What is known of a process that was found.
pub struct ProcessFacts {
    /// The config file it runs with.
    pub config: Option<String>,
    /// It was started by a controlcenter.
    pub ours: bool,
}

/// What a report says about the machine, found out just before it is written.
pub struct Facts {
    /// The time, in seconds since 1970.
    pub now: u64,
    /// The time that things are measured by, in milliseconds.
    pub clock: u64,
    pub version: String,
    pub platform: String,
    /// The programs that were looked for and found, and where.
    pub programs: Vec<(String, String)>,
    /// The programs each VPN client needs, in the order of the clients.
    pub binaries: Vec<Vec<String>>,
    pub root_available: bool,
    pub has_ticket: bool,
    /// One for each WireGuard profile.
    pub wireguard: Vec<WireguardFacts>,
    /// One for each OpenVPN profile.
    pub openvpn: Vec<OpenvpnFacts>,
    /// The flags of each Tailscale profile.
    pub tailscale: Vec<Vec<String>>,
    /// One for each process of the last sweep.
    pub processes: Vec<ProcessFacts>,
    /// What each device of the last sweep is like.
    pub links: Vec<String>,
    /// The devices that running openvpn processes were told to use.
    pub devices: Vec<String>,
}

impl Facts {
    /// There are facts for everything that is configured and was found.
    pub open spec fn wf(&self, app: App) -> bool {
        &&& self.binaries@.len() == 4
        &&& self.wireguard@.len() == app.vpn_cfg.wireguard@.len()
        &&& self.openvpn@.len() == app.vpn_cfg.openvpn@.len()
        &&& self.tailscale@.len() == app.vpn_cfg.tailscale@.len()
        &&& self.processes@.len() == app.scan.processes@.len()
        &&& self.links@.len() == app.scan.links@.len()
    }
}

// ---------------------------------------------------------------------------
// Names
// ---------------------------------------------------------------------------

/// `controlcenter-tunnel-db-20260826-140311`: what every file of one export is
/// named after.
pub fn file_stem(target: &LogTarget, now: u64) -> (r: String)
    ensures
        r@ == "controlcenter-"@ + slug_of(target@) + "-"@ + file_stamp_text(moment_of(now as int)),
{
    cat4("controlcenter-", target.slug().as_str(), "-", calendar::file_stamp(now).as_str())
}

// ---------------------------------------------------------------------------
// Lines
// ---------------------------------------------------------------------------

/// The heading of a part.
pub open spec fn section_text(title: Seq<char>) -> Seq<char> {
    "\n## "@ + title + "\n\n"@
}

fn section(out: &mut String, title: &str)
    ensures
        final(out)@ == old(out)@ + section_text(title@),
{
    out.push_str(cat3("\n## ", title, "\n\n").as_str());
}

/// One `label   value` line. A VPN client names its own status fields, so the
/// label column widens rather than letting a long one run into its value.
pub open spec fn field_text(label: Seq<char>, value: Seq<char>) -> Seq<char> {
    let width = if label.len() + 2 > 16 {
        label.len() + 2
    } else {
        16
    };
    filled(label, width as int) + (if value.len() == 0 {
        "—"@
    } else {
        value
    }) + "\n"@
}

fn field(out: &mut String, label: &str, value: &str)
    ensures
        final(out)@ == old(out)@ + field_text(label@, value@),
{
    let n: usize = chars_of(label).len();
    let start = if n > 14 {
        cat(label, blank(2).as_str())
    } else {
        fill(label, 16)
    };
    let said = if value.is_empty() {
        "—"
    } else {
        value
    };
    out.push_str(cat3(start.as_str(), said, "\n").as_str());
}

/// A line of its own.
fn line(out: &mut String, s: &str)
    ensures
        final(out)@ == old(out)@ + (s@ + "\n"@),
{
    out.push_str(cat(s, "\n").as_str());
}

/// One log line as both the report and the files beside it write it: when, who
/// said it, and what, with anything secret-looking taken out.
pub open spec fn plain_text(e: Entry) -> Seq<char> {
    stamp_text(moment_of(e.at as int / 1000)) + "  "@ + filled(e.source@, 14) + redacted(e.text@)
}

pub fn plain_line(e: &Entry) -> (r: String)
    ensures
        r@ == plain_text(*e),
{
    cat4(
        calendar::stamp(e.at / 1000).as_str(),
        "  ",
        fill(e.source, 14).as_str(),
        redact(e.text.as_str()).as_str(),
    )
}

/// How long ago something was, from the time that things are measured by.
pub open spec fn ago(clock: u64, since: u64) -> Seq<char> {
    duration_text(
        if clock > since {
            ((clock - since) / 1000) as nat
        } else {
            0
        },
    ) + " ago"@
}

fn how_long_ago(clock: u64, since: u64) -> (r: String)
    ensures
        r@ == ago(clock, since),
{
    let secs: u64 = if clock > since {
        (clock - since) / 1000
    } else {
        0
    };
    cat(fmt_duration(secs).as_str(), " ago")
}

pub open spec fn yes_no(b: bool) -> Seq<char> {
    if b {
        "yes"@
    } else {
        "no"@
    }
}

fn yes_or_no(b: bool) -> (r: &'static str)
    ensures
        r@ == yes_no(b),
{
    if b {
        "yes"
    } else {
        "no"
    }
}

pub open spec fn satisfied_text(b: bool) -> Seq<char> {
    if b {
        "satisfied"@
    } else {
        "NOT satisfied"@
    }
}

fn satisfied_word(b: bool) -> (r: &'static str)
    ensures
        r@ == satisfied_text(b),
{
    if b {
        "satisfied"
    } else {
        "NOT satisfied"
    }
}

// ---------------------------------------------------------------------------
// Connections
// ---------------------------------------------------------------------------

/// What a connection needs, and whether it has it.
#[verifier::opaque]
pub open spec fn with_needs(out: Seq<char>, app: App, vpn: Seq<char>, dep: Seq<char>) -> Seq<char> {
    let out = out + if vpn.len() == 0 {
        field_text("needs vpn"@, "none"@)
    } else {
        field_text(
            "needs vpn"@,
            requirement_label_text(vpn) + " — "@ + satisfied_text(
                satisfied(app.vpn.providers@, vpn),
            ),
        )
    };
    out + if dep.len() == 0 {
        field_text("needs tunnel"@, "none"@)
    } else {
        field_text(
            "needs tunnel"@,
            "'"@ + dep + "' — "@ + satisfied_text(
                tunnel_status(app.active@, dep) == Some(Status::Up),
            ),
        )
    }
}

fn requirements(out: &mut String, app: &App, vpn: &str, dep: &str)
    requires
        app.vpn.wf(),
    ensures
        final(out)@ == with_needs(old(out)@, *app, vpn@, dep@),
{
    proof {
        reveal(with_needs);
    }
    if vpn.is_empty() {
        field(out, "needs vpn", "none");
    } else {
        let has = satisfied_word(app.vpn_satisfied(vpn));
        field(
            out,
            "needs vpn",
            cat3(vpn_requirement_label(vpn).as_str(), " — ", has).as_str(),
        );
    }
    if dep.is_empty() {
        field(out, "needs tunnel", "none");
    } else {
        let up = match crate::live::status_of_tunnel(&app.active, dep) {
            Some(Status::Up) => true,
            _ => false,
        };
        field(out, "needs tunnel", cat4("'", dep, "' — ", satisfied_word(up)).as_str());
    }
}

/// What a running tunnel has carried.
pub open spec fn traffic_text(a: LiveTunnel) -> Seq<char> {
    decimal(a.counters.tx as nat) + " sent, "@ + decimal(a.counters.rx as nat) + " received, "@
        + decimal(a.counters.total_conns as nat) + " connections ("@ + decimal(
        a.counters.active_conns as nat,
    ) + " open)"@
}

#[verifier::opaque]
pub open spec fn with_tunnel(out: Seq<char>, app: App, clock: u64, t: Tunnel) -> Seq<char> {
    let out = out + field_text("name"@, t.name@);
    let out = out + field_text("group"@, t.group@);
    let out = out + field_text("ssh host"@, t.ssh_host@);
    let out = out + field_text("forward"@, t.forward.label_spec());
    let out = out + field_text("forwards"@, t.forward_spec());
    let out = out + field_text("extra args"@, redacted(t.extra_args@));
    let out = out + field_text(
        "auto reconnect"@,
        if t.auto_reconnect {
            "on"@
        } else {
            "off"@
        },
    );
    let out = with_needs(out, app, t.requires_vpn@, t.depends_on@);
    if has_name(app.active@, t.name@) {
        let a = app.active@[place_of(app.active@, t.name@)];
        let out = out + field_text("state"@, a.status.label_spec());
        let out = match a.error {
            Some(e) => out + field_text("last error"@, redacted(e@)),
            None => out,
        };
        let out = out + field_text("started"@, ago(clock, a.started_at));
        let out = out + field_text("restarts"@, decimal(a.restarts as nat));
        let out = out + field_text("command"@, redacted(joined(texts(a.argv@), " "@)));
        out + field_text("traffic"@, traffic_text(a))
    } else {
        let out = out + field_text("state"@, "not running"@);
        out + field_text(
            "command"@,
            redacted(joined(tunnel_args(t), " "@))
                + " (the internal port is picked when it starts)"@,
        )
    }
}

/// What a tunnel that is not running would be run with.
pub open spec fn tunnel_args(t: Tunnel) -> Seq<Seq<char>> {
    tunnel::args_of(t, None)
}

fn tunnel_block(out: &mut String, app: &App, clock: u64, t: &Tunnel)
    requires
        app.vpn.wf(),
    ensures
        final(out)@ == with_tunnel(old(out)@, *app, clock, *t),
{
    proof {
        reveal(with_tunnel);
    }
    field(out, "name", t.name.as_str());
    field(out, "group", t.group.as_str());
    field(out, "ssh host", t.ssh_host.as_str());
    field(out, "forward", t.forward.label());
    field(out, "forwards", t.forward_summary().as_str());
    field(out, "extra args", redact(t.extra_args.as_str()).as_str());
    field(
        out,
        "auto reconnect",
        if t.auto_reconnect {
            "on"
        } else {
            "off"
        },
    );
    requirements(out, app, t.requires_vpn.as_str(), t.depends_on.as_str());
    match position(app.active.as_slice(), t.name.as_str()) {
        Some(i) => {
            let a = &app.active[i];
            field(out, "state", a.status.label());
            match &a.error {
                Some(e) => {
                    field(out, "last error", redact(e.as_str()).as_str());
                },
                None => {},
            }
            field(out, "started", how_long_ago(clock, a.started_at).as_str());
            field(out, "restarts", number::write(a.restarts as u64).as_str());
            field(out, "command", command_line(&a.argv).as_str());
            let mut s = cat5(
                number::write(a.counters.tx).as_str(),
                " sent, ",
                number::write(a.counters.rx).as_str(),
                " received, ",
                number::write(a.counters.total_conns).as_str(),
            );
            s.push_str(" connections (");
            s.push_str(number::write(a.counters.active_conns).as_str());
            s.push_str(" open)");
            field(out, "traffic", s.as_str());
        },
        None => {
            field(out, "state", "not running");
            let argv = tunnel::build_args(t, None);
            field(
                out,
                "command",
                cat(
                    command_line(&argv).as_str(),
                    " (the internal port is picked when it starts)",
                ).as_str(),
            );
        },
    }
}

#[verifier::opaque]
pub open spec fn with_host(out: Seq<char>, app: App, h: SshHost) -> Seq<char> {
    let out = out + field_text("name"@, h.name@);
    let out = out + field_text("group"@, h.group@);
    let out = out + field_text("target"@, h.destination_spec() + ":"@ + decimal(h.port as nat));
    let out = out + field_text("auth"@, h.auth_spec());
    let out = out + field_text("password"@, secret_text(h.password@));
    let out = out + field_text(
        "host key check"@,
        if h.skip_host_key_check {
            "skipped"@
        } else {
            "normal"@
        },
    );
    let out = out + field_text("extra args"@, redacted(h.extra_args@));
    let out = with_needs(out, app, h.requires_vpn@, h.depends_on@);
    let out = out + field_text("opens in"@, app.ssh_launcher.label_spec(app.machine.os));
    let out = out + field_text(
        "command"@,
        redacted(joined(preview_of(app.machine, h, app.ssh_password_helper), " "@)),
    );
    let out = out + field_text("windows open"@, decimal(app.windows_spec(h.name@)));
    out + field_text(
        "last session"@,
        if has_name(app.ssh_last@, h.name@) {
            let o = app.ssh_last@[place_of(app.ssh_last@, h.name@)].outcome;
            o.label_spec() + " after "@ + duration_text((o.duration / 1000) as nat)
        } else {
            "none this run"@
        },
    )
}

fn ssh_block(out: &mut String, app: &App, h: &SshHost)
    requires
        app.vpn.wf(),
    ensures
        final(out)@ == with_host(old(out)@, *app, *h),
{
    proof {
        reveal(with_host);
    }
    field(out, "name", h.name.as_str());
    field(out, "group", h.group.as_str());
    field(out, "target", h.target_summary().as_str());
    field(out, "auth", h.auth_summary().as_str());
    field(out, "password", secret_note(h.password.as_str()).as_str());
    field(
        out,
        "host key check",
        if h.skip_host_key_check {
            "skipped"
        } else {
            "normal"
        },
    );
    field(out, "extra args", redact(h.extra_args.as_str()).as_str());
    requirements(out, app, h.requires_vpn.as_str(), h.depends_on.as_str());
    field(out, "opens in", app.ssh_launcher.label(app.machine.os).as_str());
    let preview = ssh::command_preview(h, &app.ssh_password_helper, &app.machine);
    field(out, "command", redact(preview.as_str()).as_str());
    let open: usize = app.ssh_windows_open(h.name.as_str());
    field(out, "windows open", number::write(open as u64).as_str());
    match position(app.ssh_last.as_slice(), h.name.as_str()) {
        Some(i) => {
            let o = &app.ssh_last[i].outcome;
            field(
                out,
                "last session",
                cat3(o.label().as_str(), " after ", fmt_duration(o.duration / 1000).as_str()).as_str(),
            );
        },
        None => {
            field(out, "last session", "none this run");
        },
    }
}

#[verifier::opaque]
pub open spec fn with_conn(out: Seq<char>, app: App, clock: u64, c: RdpConnection) -> Seq<char> {
    let out = out + field_text("name"@, c.name@);
    let out = out + field_text("group"@, c.group@);
    let out = out + field_text("client"@, app.rdp_client.program_spec());
    let out = out + field_text("target"@, c.host@ + ":"@ + decimal(c.port as nat));
    let out = out + field_text("login"@, c.login_spec());
    let out = out + field_text("password"@, "asked for on connect, never stored"@);
    let out = out + field_text("extra args"@, redacted(c.extra_args@));
    let out = with_needs(out, app, c.requires_vpn@, c.depends_on@);
    if has_name(app.rdp_active@, c.name@) {
        let a = app.rdp_active@[place_of(app.rdp_active@, c.name@)];
        let out = out + field_text("state"@, a.status.label_spec());
        let out = out + field_text("started"@, ago(clock, a.started_at));
        out + field_text("command"@, redacted(joined(texts(a.argv@), " "@)))
    } else {
        let out = out + field_text("state"@, "no session"@);
        out + field_text(
            "command"@,
            redacted(joined(rdp::args_of(c, app.rdp_client, None), " "@)),
        )
    }
}

fn rdp_block(out: &mut String, app: &App, clock: u64, c: &RdpConnection)
    requires
        app.vpn.wf(),
    ensures
        final(out)@ == with_conn(old(out)@, *app, clock, *c),
{
    proof {
        reveal(with_conn);
    }
    field(out, "name", c.name.as_str());
    field(out, "group", c.group.as_str());
    field(out, "client", app.rdp_client.program());
    field(out, "target", c.target_summary().as_str());
    field(out, "login", c.login_summary().as_str());
    field(out, "password", "asked for on connect, never stored");
    field(out, "extra args", redact(c.extra_args.as_str()).as_str());
    requirements(out, app, c.requires_vpn.as_str(), c.depends_on.as_str());
    match position(app.rdp_active.as_slice(), c.name.as_str()) {
        Some(i) => {
            let a = &app.rdp_active[i];
            field(out, "state", a.status.label().as_str());
            field(out, "started", how_long_ago(clock, a.started_at).as_str());
            field(out, "command", command_line(&a.argv).as_str());
        },
        None => {
            field(out, "state", "no session");
            let argv = rdp::build_args(c, app.rdp_client, None);
            field(out, "command", command_line(&argv).as_str());
        },
    }
}

// ---------------------------------------------------------------------------
// VPN profiles
// ---------------------------------------------------------------------------

#[verifier::opaque]
pub open spec fn with_wireguard(out: Seq<char>, w: WireguardProfile, f: WireguardFacts) -> Seq<char> {
    let out = out + field_text("interface"@, f.interface@);
    let out = out + field_text(
        "config"@,
        if f.external {
            w.config_path@ + " (managed elsewhere)"@
        } else {
            "generated at "@ + f.conf_path@
        },
    );
    let out = out + field_text("address"@, w.address@);
    let out = out + field_text("dns"@, w.dns@);
    let out = out + field_text("endpoint"@, w.endpoint@);
    let out = out + field_text("allowed ips"@, w.allowed_ips@);
    let out = out + field_text("private key"@, secret_text(w.private_key@));
    let out = out + field_text("preshared key"@, secret_text(w.preshared_key@));
    out + field_text("peer key"@, w.peer_public_key@)
}

fn wireguard_block(out: &mut String, w: &WireguardProfile, f: &WireguardFacts)
    ensures
        final(out)@ == with_wireguard(old(out)@, *w, *f),
{
    proof {
        reveal(with_wireguard);
    }
    field(out, "interface", f.interface.as_str());
    let config = if f.external {
        cat(w.config_path.as_str(), " (managed elsewhere)")
    } else {
        cat("generated at ", f.conf_path.as_str())
    };
    field(out, "config", config.as_str());
    field(out, "address", w.address.as_str());
    field(out, "dns", w.dns.as_str());
    field(out, "endpoint", w.endpoint.as_str());
    field(out, "allowed ips", w.allowed_ips.as_str());
    field(out, "private key", secret_note(w.private_key.as_str()).as_str());
    field(out, "preshared key", secret_note(w.preshared_key.as_str()).as_str());
    field(out, "peer key", w.peer_public_key.as_str());
}

/// Another openvpn on the same config, which explains a tunnel that connects
/// and is thrown off every few minutes: the server hands the slot to whichever
/// client asked last.
pub open spec fn is_other(
    os: Os,
    p: Process,
    f: ProcessFacts,
    config: Seq<char>,
    held: Option<u32>,
) -> bool {
    &&& p.provider == ProviderId::Openvpn
    &&& f.config matches Some(c) && route(os, c@) == route(os, config)
    &&& Some(p.pid) != held
}

/// How many processes run on that config besides the one held here.
pub open spec fn others_count(
    os: Os,
    ps: Seq<Process>,
    fs: Seq<ProcessFacts>,
    config: Seq<char>,
    held: Option<u32>,
) -> nat
    decreases ps.len(),
{
    if ps.len() == 0 {
        0
    } else {
        others_count(os, ps.drop_last(), fs, config, held) + (if is_other(
            os,
            ps.last(),
            fs[ps.len() - 1],
            config,
            held,
        ) {
            1nat
        } else {
            0
        })
    }
}

pub open spec fn other_text(p: Process, f: ProcessFacts) -> Seq<char> {
    (if p.uid == 0 {
        "as root"@
    } else {
        "not root"@
    }) + (match p.age_secs {
        Some(s) => ", for "@ + duration_text(s as nat),
        None => Seq::empty(),
    }) + (if f.ours {
        " — started by a controlcenter that is no longer here"@
    } else {
        " — not started by controlcenter"@
    })
}

pub open spec fn with_others(
    out: Seq<char>,
    os: Os,
    ps: Seq<Process>,
    fs: Seq<ProcessFacts>,
    config: Seq<char>,
    held: Option<u32>,
) -> Seq<char>
    decreases ps.len(),
{
    if ps.len() == 0 {
        out
    } else {
        let out = with_others(out, os, ps.drop_last(), fs, config, held);
        let p = ps.last();
        let f = fs[ps.len() - 1];
        if is_other(os, p, f, config, held) {
            let out = out + field_text(
                "also running (pid "@ + decimal(p.pid as nat) + ")"@,
                other_text(p, f),
            );
            out + field_text("  its command"@, redacted(redacted(joined(texts(p.argv@), " "@))))
        } else {
            out
        }
    }
}

fn other_is(os: Os, p: &Process, f: &ProcessFacts, config: &str, held: Option<u32>) -> (r: bool)
    ensures
        r == is_other(os, *p, *f, config@, held),
{
    let same_config = match &f.config {
        Some(c) => same_path(os, c.as_str(), config),
        None => false,
    };
    let ours = match held {
        Some(h) => h == p.pid,
        None => false,
    };
    p.provider == ProviderId::Openvpn && same_config && !ours
}

fn others(
    out: &mut String,
    os: Os,
    ps: &Vec<Process>,
    fs: &Vec<ProcessFacts>,
    config: &str,
    held: Option<u32>,
)
    requires
        fs@.len() == ps@.len(),
    ensures
        final(out)@ == with_others(
            if others_count(os, ps@, fs@, config@, held) == 0 {
                old(out)@ + field_text("others on this config"@, "none"@)
            } else {
                old(out)@
            },
            os,
            ps@,
            fs@,
            config@,
            held,
        ),
{
    let mut n: usize = 0;
    let mut k: usize = 0;
    assert(ps@.take(0) =~= Seq::<Process>::empty());
    while k < ps.len()
        invariant
            fs@.len() == ps@.len(),
            k <= ps@.len(),
            n <= k,
            n == others_count(os, ps@.take(k as int), fs@, config@, held),
        decreases ps@.len() - k,
    {
        assert(ps@.take(k + 1).drop_last() =~= ps@.take(k as int));
        if other_is(os, &ps[k], &fs[k], config, held) {
            n = n + 1;
        }
        k = k + 1;
    }
    assert(ps@.take(k as int) =~= ps@);
    if n == 0 {
        field(out, "others on this config", "none");
    }
    let ghost start = out@;
    let mut i: usize = 0;
    while i < ps.len()
        invariant
            fs@.len() == ps@.len(),
            i <= ps@.len(),
            out@ == with_others(start, os, ps@.take(i as int), fs@, config@, held),
        decreases ps@.len() - i,
    {
        assert(ps@.take(i + 1).drop_last() =~= ps@.take(i as int));
        let p = &ps[i];
        let f = &fs[i];
        if other_is(os, p, f, config, held) {
            let label = cat3("also running (pid ", number::write(p.pid as u64).as_str(), ")");
            let mut s = if p.uid == 0 {
                "as root".to_owned()
            } else {
                "not root".to_owned()
            };
            let age = match p.age_secs {
                Some(secs) => cat(", for ", fmt_duration(secs).as_str()),
                None => String::new(),
            };
            s.push_str(age.as_str());
            s.push_str(
                if f.ours {
                    " — started by a controlcenter that is no longer here"
                } else {
                    " — not started by controlcenter"
                },
            );
            field(out, label.as_str(), s.as_str());
            field(out, "  its command", redact(command_line(&p.argv).as_str()).as_str());
        }
        i = i + 1;
    }
    assert(ps@.take(i as int) =~= ps@);
}

#[verifier::opaque]
pub open spec fn with_openvpn(
    out: Seq<char>,
    app: App,
    facts: Facts,
    o: OpenvpnProfile,
    f: OpenvpnFacts,
) -> Seq<char> {
    let out = out + field_text("config"@, f.config@);
    let out = out + field_text(
        "imported"@,
        if o.import {
            "yes"@
        } else {
            "run in place"@
        },
    );
    let out = out + field_text("username"@, o.username@);
    let out = out + field_text("password"@, secret_text(o.password@));
    let out = out + field_text("extra args"@, redacted(o.extra_args@));
    let live = has_name(app.ovpn_active@, o.name@);
    let a = app.ovpn_active@[place_of(app.ovpn_active@, o.name@)];
    let out = if live {
        let out = out + field_text("state"@, a.label@);
        let out = out + field_text("started"@, ago(facts.clock, a.started_at));
        let out = out + field_text("command"@, redacted(joined(texts(a.argv@), " "@)));
        match a.fault {
            Some(fault) => out + field_text("fault"@, redacted(fault@)),
            None => out,
        }
    } else {
        let out = out + field_text("state"@, "no session"@);
        out + field_text("command"@, redacted(joined(texts(f.argv@), " "@)))
    };
    let held = if live {
        a.root_pid
    } else {
        None
    };
    with_others(
        if others_count(app.machine.os, app.scan.processes@, facts.processes@, f.config@, held) == 0 {
            out + field_text("others on this config"@, "none"@)
        } else {
            out
        },
        app.machine.os,
        app.scan.processes@,
        facts.processes@,
        f.config@,
        held,
    )
}

fn openvpn_block(out: &mut String, app: &App, facts: &Facts, o: &OpenvpnProfile, f: &OpenvpnFacts)
    requires
        facts.wf(*app),
    ensures
        final(out)@ == with_openvpn(old(out)@, *app, *facts, *o, *f),
{
    proof {
        reveal(with_openvpn);
    }
    field(out, "config", f.config.as_str());
    field(
        out,
        "imported",
        if o.import {
            "yes"
        } else {
            "run in place"
        },
    );
    field(out, "username", o.username.as_str());
    field(out, "password", secret_note(o.password.as_str()).as_str());
    field(out, "extra args", redact(o.extra_args.as_str()).as_str());
    let mut held: Option<u32> = None;
    match position(app.ovpn_active.as_slice(), o.name.as_str()) {
        Some(i) => {
            let a = &app.ovpn_active[i];
            held = a.root_pid;
            field(out, "state", a.label.as_str());
            field(out, "started", how_long_ago(facts.clock, a.started_at).as_str());
            field(out, "command", command_line(&a.argv).as_str());
            match &a.fault {
                Some(fault) => {
                    field(out, "fault", redact(fault.as_str()).as_str());
                },
                None => {},
            }
        },
        None => {
            field(out, "state", "no session");
            field(out, "command", command_line(&f.argv).as_str());
        },
    }
    others(out, app.machine.os, &app.scan.processes, &facts.processes, f.config.as_str(), held);
}

/// What a client and one of its profiles are like.
#[verifier::opaque]
pub open spec fn with_vpn_profile(
    out: Seq<char>,
    app: App,
    facts: Facts,
    provider: ProviderId,
    profile: Seq<char>,
) -> Seq<char> {
    let out = out + field_text("client"@, provider.slug_spec());
    let out = out + field_text(
        "installed"@,
        if app.vpn.providers@[provider.index_spec()].installed {
            "yes"@
        } else {
            "no — the tab greys it out"@
        },
    );
    let out = out + field_text("needs root"@, yes_no(provider.needs_root_spec(app.machine.os)));
    if profile.len() == 0 {
        out
    } else {
        let out = out + field_text("profile"@, profile);
        match provider {
            ProviderId::Wireguard => {
                let i = place_of(app.vpn_cfg.wireguard@, profile);
                if i < app.vpn_cfg.wireguard@.len() {
                    with_wireguard(out, app.vpn_cfg.wireguard@[i], facts.wireguard@[i])
                } else {
                    out
                }
            },
            ProviderId::Openvpn => {
                let i = place_of(app.vpn_cfg.openvpn@, profile);
                if i < app.vpn_cfg.openvpn@.len() {
                    with_openvpn(out, app, facts, app.vpn_cfg.openvpn@[i], facts.openvpn@[i])
                } else {
                    out
                }
            },
            ProviderId::Tailscale => {
                let i = place_of(app.vpn_cfg.tailscale@, profile);
                if i < app.vpn_cfg.tailscale@.len() {
                    out + field_text(
                        "command"@,
                        redacted(
                            joined(seq!["tailscale"@] + texts(facts.tailscale@[i]@), " "@),
                        ),
                    )
                } else {
                    out
                }
            },
            ProviderId::Netbird => out + field_text(
                "profiles"@,
                "netbird's own — controlcenter only reads them"@,
            ),
        }
    }
}

/// What a report says of a client and one of its profiles.
pub fn vpn_profile_block(
    out: &mut String,
    app: &App,
    facts: &Facts,
    provider: ProviderId,
    profile: &str,
)
    requires
        app.vpn.wf(),
        facts.wf(*app),
    ensures
        final(out)@ == with_vpn_profile(old(out)@, *app, *facts, provider, profile@),
{
    proof {
        reveal(with_vpn_profile);
    }
    let installed = app.vpn.get(provider).installed;
    field(out, "client", provider.slug());
    field(
        out,
        "installed",
        if installed {
            "yes"
        } else {
            "no — the tab greys it out"
        },
    );
    field(out, "needs root", yes_or_no(provider.needs_root(app.machine.os)));
    if profile.is_empty() {
        return;
    }
    field(out, "profile", profile);
    match provider {
        ProviderId::Wireguard => match position(app.vpn_cfg.wireguard.as_slice(), profile) {
            Some(i) => {
                wireguard_block(out, &app.vpn_cfg.wireguard[i], &facts.wireguard[i]);
            },
            None => {},
        },
        ProviderId::Openvpn => match position(app.vpn_cfg.openvpn.as_slice(), profile) {
            Some(i) => {
                openvpn_block(out, app, facts, &app.vpn_cfg.openvpn[i], &facts.openvpn[i]);
            },
            None => {},
        },
        ProviderId::Tailscale => match position(app.vpn_cfg.tailscale.as_slice(), profile) {
            Some(i) => {
                let mut argv = text::no_texts();
                text::add_str(&mut argv, "tailscale");
                text::add_all(&mut argv, &facts.tailscale[i]);
                assert(texts(argv@) =~= seq!["tailscale"@] + texts(facts.tailscale@[i as int]@));
                field(out, "command", command_line(&argv).as_str());
            },
            None => {},
        },
        ProviderId::Netbird => {
            field(out, "profiles", "netbird's own — controlcenter only reads them");
        },
    }
}

/// One connection as the report describes it, whichever kind it is.
pub open spec fn with_target(out: Seq<char>, app: App, facts: Facts, t: Subject) -> Seq<char> {
    match t {
        Subject::Program => out,
        Subject::Tunnel(n) => if has_name(app.tunnels@, n) {
            with_tunnel(out, app, facts.clock, app.tunnels@[place_of(app.tunnels@, n)])
        } else {
            out + field_text("gone"@, "no tunnel by this name is configured"@)
        },
        Subject::Ssh(n) => if has_name(app.ssh_hosts@, n) {
            with_host(out, app, app.ssh_hosts@[place_of(app.ssh_hosts@, n)])
        } else {
            out + field_text("gone"@, "no ssh host by this name is configured"@)
        },
        Subject::Rdp(n) => if has_name(app.rdp_conns@, n) {
            with_conn(out, app, facts.clock, app.rdp_conns@[place_of(app.rdp_conns@, n)])
        } else {
            out + field_text("gone"@, "no rdp connection by this name is configured"@)
        },
        Subject::Vpn(p, n) => with_vpn_profile(out, app, facts, p, n),
    }
}

fn target_block(out: &mut String, app: &App, facts: &Facts, target: &LogTarget)
    requires
        app.vpn.wf(),
        facts.wf(*app),
    ensures
        final(out)@ == with_target(old(out)@, *app, *facts, target@),
{
    match target {
        LogTarget::Program => {},
        LogTarget::Tunnel(name) => match position(app.tunnels.as_slice(), name.as_str()) {
            Some(i) => tunnel_block(out, app, facts.clock, &app.tunnels[i]),
            None => field(out, "gone", "no tunnel by this name is configured"),
        },
        LogTarget::Ssh(name) => match position(app.ssh_hosts.as_slice(), name.as_str()) {
            Some(i) => ssh_block(out, app, &app.ssh_hosts[i]),
            None => field(out, "gone", "no ssh host by this name is configured"),
        },
        LogTarget::Rdp(name) => match position(app.rdp_conns.as_slice(), name.as_str()) {
            Some(i) => rdp_block(out, app, facts.clock, &app.rdp_conns[i]),
            None => field(out, "gone", "no rdp connection by this name is configured"),
        },
        LogTarget::Vpn(provider, profile) => vpn_profile_block(
            out,
            app,
            facts,
            *provider,
            profile.as_str(),
        ),
    }
}

// ---------------------------------------------------------------------------
// The head of the report
// ---------------------------------------------------------------------------

#[verifier::opaque]
pub open spec fn header_of(app: App, facts: Facts, t: Subject) -> Seq<char> {
    let out = "# controlcenter report\n\n"@;
    let out = out + field_text("generated"@, stamp_text(moment_of(facts.now as int)));
    let out = out + field_text("version"@, facts.version@);
    let out = out + field_text("subject"@, title_of(t));
    let out = out + field_text("platform"@, facts.platform@);
    let out = out + field_text("config dir"@, app.paths.config_dir@);
    out
        + "\nEvery command line below is what controlcenter runs. Passwords are never passed as arguments — they go through the environment or the child's stdin — and anything secret-looking in a user-supplied argument is shown as <redacted>.\n"@
}

fn header(app: &App, facts: &Facts, target: &LogTarget) -> (out: String)
    ensures
        out@ == header_of(*app, *facts, target@),
{
    proof {
        reveal(header_of);
    }
    let mut s = "# controlcenter report\n\n".to_owned();
    field(&mut s, "generated", calendar::stamp(facts.now).as_str());
    field(&mut s, "version", facts.version.as_str());
    field(&mut s, "subject", target.title().as_str());
    field(&mut s, "platform", facts.platform.as_str());
    field(&mut s, "config dir", app.paths.config_dir.as_str());
    s.push_str(
        "\nEvery command line below is what controlcenter runs. Passwords are never passed as arguments — they go through the environment or the child's stdin — and anything secret-looking in a user-supplied argument is shown as <redacted>.\n",
    );
    s
}

/// The step that brings a subject up; none for the program and for a VPN, which
/// wait for nothing.
pub open spec fn step_for(t: Subject) -> Option<Job> {
    match t {
        Subject::Tunnel(n) => Some(Job::Tunnel(n)),
        Subject::Ssh(n) => Some(Job::Ssh(n)),
        Subject::Rdp(n) => Some(Job::Rdp(n, Seq::empty())),
        _ => None,
    }
}

fn step_of(t: &LogTarget) -> (r: Option<Step>)
    ensures
        r is Some <==> step_for(t@) is Some,
        r is Some ==> r->0@ == step_for(t@)->0,
{
    match t {
        LogTarget::Tunnel(n) => Some(Step::Tunnel(n.clone())),
        LogTarget::Ssh(n) => Some(Step::Ssh(n.clone())),
        LogTarget::Rdp(n) => Some(Step::Rdp { name: n.clone(), password: String::new() }),
        _ => None,
    }
}

/// The chain a step runs through, or why there is none.
#[verifier::opaque]
pub open spec fn with_chain(out: Seq<char>, app: App, j: Job) -> Seq<char> {
    out + match app.lists().plan(seq![j]) {
        Ok(p) => if p.len() > 1 {
            field_text("chain"@, joined(p.map_values(|j: Job| short_of(j)), " → "@))
        } else {
            field_text("chain"@, "nothing has to come up first"@)
        },
        Err(e) => field_text("chain"@, "BROKEN: "@ + e),
    }
}

fn chain(out: &mut String, app: &App, step: Step)
    ensures
        final(out)@ == with_chain(old(out)@, *app, step@),
{
    proof {
        reveal(with_chain);
    }
    match app.chain_of(step) {
        Ok(parts) => {
            assert(texts(parts@).len() == parts@.len());
            if parts.len() > 1 {
                field(out, "chain", text::join(&parts, " → ").as_str());
            } else {
                field(out, "chain", "nothing has to come up first");
            }
        },
        Err(e) => field(out, "chain", cat("BROKEN: ", e.as_str()).as_str()),
    }
}

/// What the pane was open on, in full: its configuration, the command line it
/// runs, what it needs first, and what it is doing now.
#[verifier::opaque]
pub open spec fn with_subject(out: Seq<char>, app: App, facts: Facts, t: Subject) -> Seq<char> {
    let out = out + section_text("subject: "@ + title_of(t));
    match t {
        Subject::Program => out
            + "The whole program: every connection and everything it has done this run.\n"@,
        Subject::Tunnel(n) => if has_name(app.tunnels@, n) {
            with_chain(
                with_tunnel(out, app, facts.clock, app.tunnels@[place_of(app.tunnels@, n)]),
                app,
                Job::Tunnel(n),
            )
        } else {
            out + ("no tunnel named '"@ + n + "' is configured any more\n"@)
        },
        Subject::Ssh(n) => if has_name(app.ssh_hosts@, n) {
            with_chain(
                with_host(out, app, app.ssh_hosts@[place_of(app.ssh_hosts@, n)]),
                app,
                Job::Ssh(n),
            )
        } else {
            out + ("no ssh host named '"@ + n + "' is configured any more\n"@)
        },
        Subject::Rdp(n) => if has_name(app.rdp_conns@, n) {
            with_chain(
                with_conn(out, app, facts.clock, app.rdp_conns@[place_of(app.rdp_conns@, n)]),
                app,
                Job::Rdp(n, Seq::empty()),
            )
        } else {
            out + ("no rdp connection named '"@ + n + "' is configured any more\n"@)
        },
        Subject::Vpn(p, n) => with_vpn_profile(out, app, facts, p, n),
    }
}

fn subject(out: &mut String, app: &App, facts: &Facts, target: &LogTarget)
    requires
        app.vpn.wf(),
        facts.wf(*app),
    ensures
        final(out)@ == with_subject(old(out)@, *app, *facts, target@),
{
    proof {
        reveal(with_subject);
    }
    section(out, cat("subject: ", target.title().as_str()).as_str());
    match target {
        LogTarget::Program => {
            out.push_str(
                "The whole program: every connection and everything it has done this run.\n",
            );
        },
        LogTarget::Tunnel(name) => match position(app.tunnels.as_slice(), name.as_str()) {
            Some(i) => {
                tunnel_block(out, app, facts.clock, &app.tunnels[i]);
                chain(out, app, Step::Tunnel(name.clone()));
            },
            None => {
                out.push_str(
                    cat3("no tunnel named '", name.as_str(), "' is configured any more\n").as_str(),
                );
            },
        },
        LogTarget::Ssh(name) => match position(app.ssh_hosts.as_slice(), name.as_str()) {
            Some(i) => {
                ssh_block(out, app, &app.ssh_hosts[i]);
                chain(out, app, Step::Ssh(name.clone()));
            },
            None => {
                out.push_str(
                    cat3("no ssh host named '", name.as_str(), "' is configured any more\n").as_str(),
                );
            },
        },
        LogTarget::Rdp(name) => match position(app.rdp_conns.as_slice(), name.as_str()) {
            Some(i) => {
                rdp_block(out, app, facts.clock, &app.rdp_conns[i]);
                let step = Step::Rdp { name: name.clone(), password: String::new() };
                chain(out, app, step);
            },
            None => {
                out.push_str(
                    cat3(
                        "no rdp connection named '",
                        name.as_str(),
                        "' is configured any more\n",
                    ).as_str(),
                );
            },
        },
        LogTarget::Vpn(provider, profile) => {
            vpn_profile_block(out, app, facts, *provider, profile.as_str());
        },
    }
}

// ---------------------------------------------------------------------------
// The chain
// ---------------------------------------------------------------------------

/// What targets a list of log targets stands for.
pub open spec fn subjects(v: Seq<LogTarget>) -> Seq<Subject> {
    v.map_values(|t: LogTarget| t@)
}

/// The subjects of a plan's steps, without one of them.
pub open spec fn links_of(p: Seq<Job>, t: Subject) -> Seq<Subject>
    decreases p.len(),
{
    if p.len() == 0 {
        Seq::empty()
    } else if log_of(p.last()) == t {
        links_of(p.drop_last(), t)
    } else {
        links_of(p.drop_last(), t).push(log_of(p.last()))
    }
}

/// Everything that has to be up before the subject, in the order a plan would
/// bring it up: the only other connections a report is about. A chain that does
/// not resolve is left empty; the subject's own line already says so.
pub open spec fn chain_spec(app: App, t: Subject) -> Seq<Subject> {
    match step_for(t) {
        None => Seq::empty(),
        Some(j) => match app.lists().plan(seq![j]) {
            Ok(p) => links_of(p, t),
            Err(_) => Seq::empty(),
        },
    }
}

fn same_target(a: &LogTarget, b: &LogTarget) -> (r: bool)
    ensures
        r == (a@ == b@),
{
    match (a, b) {
        (LogTarget::Program, LogTarget::Program) => true,
        (LogTarget::Tunnel(x), LogTarget::Tunnel(y)) => text::same(x.as_str(), y.as_str()),
        (LogTarget::Ssh(x), LogTarget::Ssh(y)) => text::same(x.as_str(), y.as_str()),
        (LogTarget::Rdp(x), LogTarget::Rdp(y)) => text::same(x.as_str(), y.as_str()),
        (LogTarget::Vpn(p, x), LogTarget::Vpn(q, y)) => *p == *q && text::same(
            x.as_str(),
            y.as_str(),
        ),
        _ => false,
    }
}

pub fn chain_targets(app: &App, target: &LogTarget) -> (r: Vec<LogTarget>)
    ensures
        subjects(r@) == chain_spec(*app, target@),
{
    let mut out: Vec<LogTarget> = Vec::new();
    assert(subjects(out@) =~= Seq::<Subject>::empty());
    let step = match step_of(target) {
        Some(s) => s,
        None => {
            return out;
        },
    };
    let steps = match app.plan_for(step) {
        Ok(s) => s,
        Err(_) => {
            return out;
        },
    };
    let ghost p = jobs(steps@);
    let mut i: usize = 0;
    assert(p.take(0) =~= Seq::<Job>::empty());
    while i < steps.len()
        invariant
            i <= steps@.len(),
            p == jobs(steps@),
            subjects(out@) == links_of(p.take(i as int), target@),
        decreases steps@.len() - i,
    {
        assert(p.take(i + 1).drop_last() =~= p.take(i as int));
        assert(p.take(i + 1).last() == steps@[i as int]@);
        let t = steps[i].log_target();
        if !same_target(&t, target) {
            assert(subjects(out@.push(t)) =~= subjects(out@).push(t@));
            out.push(t);
        }
        i = i + 1;
    }
    assert(p.take(i as int) =~= p);
    out
}

/// The links of a chain, each described as fully as the subject is, because any
/// of them is where it actually went wrong.
pub open spec fn with_links(out: Seq<char>, app: App, facts: Facts, chain: Seq<Subject>) -> Seq<char>
    decreases chain.len(),
{
    if chain.len() == 0 {
        out
    } else {
        let out = with_links(out, app, facts, chain.drop_last());
        let out = out + ("### "@ + title_of(chain.last()) + "\n"@);
        with_target(out, app, facts, chain.last()) + "\n"@
    }
}

#[verifier::opaque]
pub open spec fn with_what_comes_first(
    out: Seq<char>,
    app: App,
    facts: Facts,
    chain: Seq<Subject>,
) -> Seq<char> {
    if chain.len() == 0 {
        out
    } else {
        with_links(out + section_text("what has to be up first"@), app, facts, chain)
    }
}

fn what_comes_first(out: &mut String, app: &App, facts: &Facts, chain: &Vec<LogTarget>)
    requires
        app.vpn.wf(),
        facts.wf(*app),
    ensures
        final(out)@ == with_what_comes_first(old(out)@, *app, *facts, subjects(chain@)),
{
    proof {
        reveal(with_what_comes_first);
    }
    let ghost all = subjects(chain@);
    assert(all.len() == chain@.len());
    if chain.len() == 0 {
        return;
    }
    section(out, "what has to be up first");
    let ghost start = out@;
    let mut i: usize = 0;
    assert(all.take(0) =~= Seq::<Subject>::empty());
    while i < chain.len()
        invariant
            app.vpn.wf(),
            facts.wf(*app),
            i <= chain@.len(),
            all == subjects(chain@),
            out@ == with_links(start, *app, *facts, all.take(i as int)),
        decreases chain@.len() - i,
    {
        assert(all.take(i + 1).drop_last() =~= all.take(i as int));
        assert(all.take(i + 1).last() == chain@[i as int]@);
        out.push_str(cat3("### ", chain[i].title().as_str(), "\n").as_str());
        target_block(out, app, facts, &chain[i]);
        out.push_str("\n");
        i = i + 1;
    }
    assert(all.take(i as int) =~= all);
}

// ---------------------------------------------------------------------------
// Everything, for the program's own report
// ---------------------------------------------------------------------------

pub open spec fn with_status_fields(out: Seq<char>, fs: Seq<(String, String)>) -> Seq<char>
    decreases fs.len(),
{
    if fs.len() == 0 {
        out
    } else {
        with_status_fields(out, fs.drop_last()) + field_text(
            lowercase(fs.last().0@),
            redacted(fs.last().1@),
        )
    }
}

/// Up, but not controlcenter's: it explains the client's state without being
/// any of its profiles.
pub open spec fn profile_line(p: VpnProfile) -> Seq<char> {
    "  "@ + (if !p.stored_spec() {
        "[!]   "@
    } else if p.active {
        "[up]  "@
    } else {
        "[down]"@
    }) + " "@ + p.name@ + (if p.detail@.len() == 0 {
        Seq::empty()
    } else {
        " — "@ + p.detail@
    }) + "\n"@
}

pub open spec fn with_profile_lines(out: Seq<char>, ps: Seq<VpnProfile>) -> Seq<char>
    decreases ps.len(),
{
    if ps.len() == 0 {
        out
    } else {
        with_profile_lines(out, ps.drop_last()) + profile_line(ps.last())
    }
}

#[verifier::opaque]
pub open spec fn with_client(out: Seq<char>, s: ProviderState) -> Seq<char> {
    let out = out + ("### "@ + s.id.slug_spec() + "\n"@);
    let out = out + field_text("installed"@, yes_no(s.installed));
    let out = out + field_text("connected"@, yes_no(s.status.connected));
    let out = match s.active_spec() {
        Some(p) => out + field_text("active"@, p),
        None => out,
    };
    let out = match s.busy {
        Some(b) => out + field_text("busy"@, b@),
        None => out,
    };
    let out = match s.error {
        Some(e) => out + field_text("error"@, redacted(e@)),
        None => out,
    };
    let out = with_status_fields(out, s.status.fields@);
    let out = if s.profiles@.len() == 0 {
        out + field_text("profiles"@, "none"@)
    } else {
        with_profile_lines(out, s.profiles@)
    };
    out + "\n"@
}

fn client_block(out: &mut String, s: &ProviderState)
    ensures
        final(out)@ == with_client(old(out)@, *s),
{
    proof {
        reveal(with_client);
    }
    out.push_str(cat3("### ", s.id.slug(), "\n").as_str());
    field(out, "installed", yes_or_no(s.installed));
    field(out, "connected", yes_or_no(s.status.connected));
    match s.active_profile() {
        Some(p) => field(out, "active", p),
        None => {},
    }
    match &s.busy {
        Some(b) => field(out, "busy", b.as_str()),
        None => {},
    }
    match &s.error {
        Some(e) => field(out, "error", redact(e.as_str()).as_str()),
        None => {},
    }
    let ghost start = out@;
    let ghost fs = s.status.fields@;
    let mut i: usize = 0;
    while i < s.status.fields.len()
        invariant
            i <= fs.len(),
            fs == s.status.fields@,
            out@ == with_status_fields(start, fs.take(i as int)),
        decreases fs.len() - i,
    {
        assert(fs.take(i + 1).drop_last() =~= fs.take(i as int));
        field(
            out,
            text::to_lowercase(s.status.fields[i].0.as_str()).as_str(),
            redact(s.status.fields[i].1.as_str()).as_str(),
        );
        i = i + 1;
    }
    assert(fs.take(i as int) =~= fs);
    if s.profiles.len() == 0 {
        field(out, "profiles", "none");
    } else {
        let ghost start = out@;
        let ghost ps = s.profiles@;
        let mut k: usize = 0;
        while k < s.profiles.len()
            invariant
                k <= ps.len(),
                ps == s.profiles@,
                out@ == with_profile_lines(start, ps.take(k as int)),
            decreases ps.len() - k,
        {
            assert(ps.take(k + 1).drop_last() =~= ps.take(k as int));
            let p = &s.profiles[k];
            let mark = if !p.is_stored() {
                "[!]   "
            } else if p.active {
                "[up]  "
            } else {
                "[down]"
            };
            let detail = if p.detail.as_str().is_empty() {
                String::new()
            } else {
                cat(" — ", p.detail.as_str())
            };
            let mut l = cat5("  ", mark, " ", p.name.as_str(), detail.as_str());
            l.push_str("\n");
            out.push_str(l.as_str());
            k = k + 1;
        }
        assert(ps.take(k as int) =~= ps);
    }
    out.push_str("\n");
}

pub open spec fn with_clients(out: Seq<char>, cs: Seq<ProviderState>) -> Seq<char>
    decreases cs.len(),
{
    if cs.len() == 0 {
        out
    } else {
        with_client(with_clients(out, cs.drop_last()), cs.last())
    }
}

fn vpn_clients(out: &mut String, app: &App)
    ensures
        final(out)@ == with_clients(
            old(out)@ + section_text("vpn clients"@),
            app.vpn.providers@,
        ),
{
    section(out, "vpn clients");
    let ghost start = out@;
    let ghost cs = app.vpn.providers@;
    let mut i: usize = 0;
    while i < app.vpn.providers.len()
        invariant
            i <= cs.len(),
            cs == app.vpn.providers@,
            out@ == with_clients(start, cs.take(i as int)),
        decreases cs.len() - i,
    {
        assert(cs.take(i + 1).drop_last() =~= cs.take(i as int));
        client_block(out, &app.vpn.providers[i]);
        i = i + 1;
    }
    assert(cs.take(i as int) =~= cs);
}

pub open spec fn with_tunnels(out: Seq<char>, app: App, clock: u64, ts: Seq<Tunnel>) -> Seq<char>
    decreases ts.len(),
{
    if ts.len() == 0 {
        out
    } else {
        let out = with_tunnels(out, app, clock, ts.drop_last());
        with_tunnel(out + ("### "@ + ts.last().name@ + "\n"@), app, clock, ts.last()) + "\n"@
    }
}

fn tunnels(out: &mut String, app: &App, clock: u64)
    requires
        app.vpn.wf(),
    ensures
        final(out)@ == if app.tunnels@.len() == 0 {
            old(out)@ + section_text("tunnels"@) + "none configured\n"@
        } else {
            with_tunnels(old(out)@ + section_text("tunnels"@), *app, clock, app.tunnels@)
        },
{
    section(out, "tunnels");
    if app.tunnels.len() == 0 {
        out.push_str("none configured\n");
        return;
    }
    let ghost start = out@;
    let ghost ts = app.tunnels@;
    let mut i: usize = 0;
    while i < app.tunnels.len()
        invariant
            app.vpn.wf(),
            i <= ts.len(),
            ts == app.tunnels@,
            out@ == with_tunnels(start, *app, clock, ts.take(i as int)),
        decreases ts.len() - i,
    {
        assert(ts.take(i + 1).drop_last() =~= ts.take(i as int));
        out.push_str(cat3("### ", app.tunnels[i].name.as_str(), "\n").as_str());
        tunnel_block(out, app, clock, &app.tunnels[i]);
        out.push_str("\n");
        i = i + 1;
    }
    assert(ts.take(i as int) =~= ts);
}

pub open spec fn with_hosts(out: Seq<char>, app: App, hs: Seq<SshHost>) -> Seq<char>
    decreases hs.len(),
{
    if hs.len() == 0 {
        out
    } else {
        let out = with_hosts(out, app, hs.drop_last());
        with_host(out + ("### "@ + hs.last().name@ + "\n"@), app, hs.last()) + "\n"@
    }
}

fn ssh_hosts(out: &mut String, app: &App)
    requires
        app.vpn.wf(),
    ensures
        final(out)@ == if app.ssh_hosts@.len() == 0 {
            old(out)@ + section_text("ssh hosts"@) + "none configured\n"@
        } else {
            with_hosts(old(out)@ + section_text("ssh hosts"@), *app, app.ssh_hosts@)
        },
{
    section(out, "ssh hosts");
    if app.ssh_hosts.len() == 0 {
        out.push_str("none configured\n");
        return;
    }
    let ghost start = out@;
    let ghost hs = app.ssh_hosts@;
    let mut i: usize = 0;
    while i < app.ssh_hosts.len()
        invariant
            app.vpn.wf(),
            i <= hs.len(),
            hs == app.ssh_hosts@,
            out@ == with_hosts(start, *app, hs.take(i as int)),
        decreases hs.len() - i,
    {
        assert(hs.take(i + 1).drop_last() =~= hs.take(i as int));
        out.push_str(cat3("### ", app.ssh_hosts[i].name.as_str(), "\n").as_str());
        ssh_block(out, app, &app.ssh_hosts[i]);
        out.push_str("\n");
        i = i + 1;
    }
    assert(hs.take(i as int) =~= hs);
}

pub open spec fn with_conns(
    out: Seq<char>,
    app: App,
    clock: u64,
    cs: Seq<RdpConnection>,
) -> Seq<char>
    decreases cs.len(),
{
    if cs.len() == 0 {
        out
    } else {
        let out = with_conns(out, app, clock, cs.drop_last());
        with_conn(out + ("### "@ + cs.last().name@ + "\n"@), app, clock, cs.last()) + "\n"@
    }
}

fn rdp_connections(out: &mut String, app: &App, clock: u64)
    requires
        app.vpn.wf(),
    ensures
        final(out)@ == if app.rdp_conns@.len() == 0 {
            old(out)@ + section_text("rdp connections"@) + "none configured\n"@
        } else {
            with_conns(old(out)@ + section_text("rdp connections"@), *app, clock, app.rdp_conns@)
        },
{
    section(out, "rdp connections");
    if app.rdp_conns.len() == 0 {
        out.push_str("none configured\n");
        return;
    }
    let ghost start = out@;
    let ghost cs = app.rdp_conns@;
    let mut i: usize = 0;
    while i < app.rdp_conns.len()
        invariant
            app.vpn.wf(),
            i <= cs.len(),
            cs == app.rdp_conns@,
            out@ == with_conns(start, *app, clock, cs.take(i as int)),
        decreases cs.len() - i,
    {
        assert(cs.take(i + 1).drop_last() =~= cs.take(i as int));
        out.push_str(cat3("### ", app.rdp_conns[i].name.as_str(), "\n").as_str());
        rdp_block(out, app, clock, &app.rdp_conns[i]);
        out.push_str("\n");
        i = i + 1;
    }
    assert(cs.take(i as int) =~= cs);
}

// ---------------------------------------------------------------------------
// The machine
// ---------------------------------------------------------------------------

pub open spec fn program_is(name: Seq<char>) -> spec_fn((String, String)) -> bool {
    |p: (String, String)| p.0@ == name
}

/// Where a program is.
pub open spec fn where_is(facts: Facts, name: Seq<char>) -> Seq<char> {
    let i = crate::list::first_where(facts.programs@, program_is(name));
    if i < facts.programs@.len() {
        facts.programs@[i].1@
    } else {
        "not on PATH"@
    }
}

fn bin(facts: &Facts, name: &str) -> (r: String)
    ensures
        r@ == where_is(*facts, name@),
{
    let ghost p = program_is(name@);
    let ghost all = facts.programs@;
    let mut i: usize = 0;
    while i < facts.programs.len()
        invariant
            i <= all.len(),
            all == facts.programs@,
            p == program_is(name@),
            forall|j: int| 0 <= j < i ==> !p(#[trigger] all[j]),
        decreases all.len() - i,
    {
        if text::same(facts.programs[i].0.as_str(), name) {
            proof {
                crate::list::lemma_first_where_is(all, p, i as int);
            }
            return facts.programs[i].1.clone();
        }
        i = i + 1;
    }
    proof {
        crate::list::lemma_first_where_is(all, p, i as int);
    }
    "not on PATH".to_owned()
}

/// The programs a subject needs from the machine.
pub open spec fn programs_for(app: App, facts: Facts, t: Subject) -> Seq<Seq<char>> {
    let ssh_ = if app.ssh_password_helper is Sshpass {
        seq!["ssh"@, "sshpass"@]
    } else {
        seq!["ssh"@]
    };
    match t {
        Subject::Program => ssh_ + seq![app.rdp_client.program_spec()] + texts(
            facts.binaries@[0]@,
        ) + texts(facts.binaries@[1]@) + texts(facts.binaries@[2]@) + texts(facts.binaries@[3]@),
        Subject::Tunnel(_) => seq!["ssh"@],
        Subject::Ssh(_) => ssh_,
        Subject::Rdp(_) => seq![app.rdp_client.program_spec()],
        Subject::Vpn(p, _) => texts(facts.binaries@[p.index_spec()]@),
    }
}

pub open spec fn programs_for_all(app: App, facts: Facts, ts: Seq<Subject>) -> Seq<Seq<char>>
    decreases ts.len(),
{
    if ts.len() == 0 {
        Seq::empty()
    } else {
        programs_for_all(app, facts, ts.drop_last()) + programs_for(app, facts, ts.last())
    }
}

fn wanted_programs(app: &App, facts: &Facts, t: &LogTarget) -> (r: Vec<String>)
    requires
        facts.wf(*app),
    ensures
        texts(r@) == programs_for(*app, *facts, t@),
{
    let mut out = text::no_texts();
    let sshpass = matches!(app.ssh_password_helper, PasswordHelper::Sshpass);
    match t {
        LogTarget::Program => {
            text::add_str(&mut out, "ssh");
            if sshpass {
                text::add_str(&mut out, "sshpass");
            }
            text::add_str(&mut out, app.rdp_client.program());
            text::add_all(&mut out, &facts.binaries[0]);
            text::add_all(&mut out, &facts.binaries[1]);
            text::add_all(&mut out, &facts.binaries[2]);
            text::add_all(&mut out, &facts.binaries[3]);
        },
        LogTarget::Tunnel(_) => {
            text::add_str(&mut out, "ssh");
        },
        LogTarget::Ssh(_) => {
            text::add_str(&mut out, "ssh");
            if sshpass {
                text::add_str(&mut out, "sshpass");
            }
        },
        LogTarget::Rdp(_) => {
            text::add_str(&mut out, app.rdp_client.program());
        },
        LogTarget::Vpn(p, _) => {
            let i: usize = p.index();
            text::add_all(&mut out, &facts.binaries[i]);
        },
    }
    assert(texts(out@) =~= programs_for(*app, *facts, t@));
    out
}

/// A line for each program, once: two links of a chain usually want ssh.
pub open spec fn with_programs(out: Seq<char>, facts: Facts, ws: Seq<Seq<char>>) -> Seq<char>
    decreases ws.len(),
{
    if ws.len() == 0 {
        out
    } else {
        let before = with_programs(out, facts, ws.drop_last());
        if ws.drop_last().contains(ws.last()) {
            before
        } else {
            before + field_text(ws.last(), where_is(facts, ws.last()))
        }
    }
}

fn programs(out: &mut String, facts: &Facts, ws: &Vec<String>)
    ensures
        final(out)@ == with_programs(old(out)@, *facts, texts(ws@)),
{
    let ghost start = out@;
    let ghost all = texts(ws@);
    let mut seen = text::no_texts();
    let mut i: usize = 0;
    assert(all.take(0) =~= Seq::<Seq<char>>::empty());
    while i < ws.len()
        invariant
            i <= ws@.len(),
            all == texts(ws@),
            texts(seen@) == all.take(i as int),
            out@ == with_programs(start, *facts, all.take(i as int)),
        decreases ws@.len() - i,
    {
        assert(all.take(i + 1).drop_last() =~= all.take(i as int));
        assert(all.take(i + 1).last() == ws@[i as int]@);
        let name = ws[i].as_str();
        if !text::holds(&seen, name) {
            field(out, name, bin(facts, name).as_str());
        }
        text::add_str(&mut seen, name);
        i = i + 1;
        assert(all.take(i as int) =~= all.take(i - 1).push(all[i - 1]));
    }
    assert(all.take(i as int) =~= all);
}

/// Something here needs root.
pub open spec fn wants_root(os: Os, ts: Seq<Subject>) -> bool {
    exists|i: int|
        0 <= i < ts.len() && (#[trigger] ts[i] matches Subject::Program || (
        ts[i] matches Subject::Vpn(p, _) && p.needs_root_spec(os)))
}

/// Something here opens a session.
pub open spec fn opens_session(ts: Seq<Subject>) -> bool {
    exists|i: int| 0 <= i < ts.len() && (#[trigger] ts[i] is Program || ts[i] is Ssh)
}

/// Something here is about a VPN.
pub open spec fn about_vpn(ts: Seq<Subject>) -> bool {
    exists|i: int| 0 <= i < ts.len() && (#[trigger] ts[i] is Program || ts[i] is Vpn)
}

/// Which escalation was available, and which was used, decides whether a stop
/// could have been dismissed.
pub open spec fn with_root(out: Seq<char>, app: App, facts: Facts) -> Seq<char> {
    match app.machine.os {
        Os::Unix => {
            let out = out + field_text(
                "root"@,
                if facts.root_available {
                    where_is(facts, "pkexec"@) + " / "@ + where_is(facts, "sudo"@)
                } else {
                    "neither pkexec nor sudo is on PATH"@
                },
            );
            out + field_text(
                "sudo ticket"@,
                if facts.has_ticket {
                    "held — root commands run as `sudo -n`, without a dialog"@
                } else {
                    "none — root commands go through pkexec"@
                },
            )
        },
        Os::Windows => out + field_text(
            "administrator"@,
            if facts.has_ticket {
                "yes — VPN commands run directly"@
            } else if facts.root_available {
                "no — VPN commands go through "@ + where_is(facts, "sudo"@)
            } else {
                "no, and there is no sudo — VPN commands cannot run at all"@
            },
        ),
    }
}

fn root_lines(out: &mut String, app: &App, facts: &Facts)
    ensures
        final(out)@ == with_root(old(out)@, *app, *facts),
{
    match app.machine.os {
        Os::Unix => {
            let root = if facts.root_available {
                cat3(bin(facts, "pkexec").as_str(), " / ", bin(facts, "sudo").as_str())
            } else {
                "neither pkexec nor sudo is on PATH".to_owned()
            };
            field(out, "root", root.as_str());
            field(
                out,
                "sudo ticket",
                if facts.has_ticket {
                    "held — root commands run as `sudo -n`, without a dialog"
                } else {
                    "none — root commands go through pkexec"
                },
            );
        },
        Os::Windows => {
            let admin = if facts.has_ticket {
                "yes — VPN commands run directly".to_owned()
            } else if facts.root_available {
                cat("no — VPN commands go through ", bin(facts, "sudo").as_str())
            } else {
                "no, and there is no sudo — VPN commands cannot run at all".to_owned()
            };
            field(out, "administrator", admin.as_str());
        },
    }
}

/// The interfaces of the WireGuard profiles.
pub open spec fn interfaces_of(fs: Seq<WireguardFacts>) -> Seq<Seq<char>> {
    fs.map_values(|f: WireguardFacts| f.interface@)
}

fn interfaces(facts: &Facts) -> (r: Vec<String>)
    ensures
        texts(r@) == interfaces_of(facts.wireguard@),
{
    let ghost all = interfaces_of(facts.wireguard@);
    let mut out = text::no_texts();
    let mut i: usize = 0;
    assert(texts(out@) =~= all.take(0));
    while i < facts.wireguard.len()
        invariant
            i <= facts.wireguard@.len(),
            all == interfaces_of(facts.wireguard@),
            texts(out@) == all.take(i as int),
        decreases facts.wireguard@.len() - i,
    {
        text::add_text(&mut out, facts.wireguard[i].interface.clone());
        i = i + 1;
        assert(all.take(i as int) =~= all.take(i - 1).push(all[i - 1]));
    }
    assert(all.take(i as int) =~= all);
    out
}

/// Every tunnel device on the machine, and who accounts for it. A device nobody
/// accounts for is the shape a leaked session takes once its log is gone.
pub open spec fn with_devices(out: Seq<char>, app: App, facts: Facts, n: nat) -> Seq<char>
    decreases n,
{
    if n == 0 {
        out
    } else {
        let i = n - 1;
        let before = with_devices(out, app, facts, i as nat);
        let link = app.scan.links@[i];
        before + field_text(
            "device "@ + link.name@,
            facts.links@[i]@ + " — "@ + match owner_of(
                link,
                interfaces_of(facts.wireguard@),
                app.ovpn_active@,
                texts(facts.devices@),
                app.vpn.providers@,
            ) {
                Some(id) => id.slug_spec(),
                None => "unaccounted for"@,
            },
        )
    }
}

fn devices(out: &mut String, app: &App, facts: &Facts)
    requires
        facts.wf(*app),
    ensures
        final(out)@ == with_devices(
            if app.scan.links@.len() == 0 {
                old(out)@ + field_text("tunnel devices"@, "none"@)
            } else {
                old(out)@
            },
            *app,
            *facts,
            app.scan.links@.len(),
        ),
{
    let own = interfaces(facts);
    let owners = app.tunnel_devices(&own, &facts.devices);
    if owners.len() == 0 {
        field(out, "tunnel devices", "none");
    }
    let ghost start = out@;
    let mut i: usize = 0;
    while i < owners.len()
        invariant
            facts.wf(*app),
            i <= owners@.len(),
            owners@.len() == app.scan.links@.len(),
            texts(own@) == interfaces_of(facts.wireguard@),
            forall|k: int|
                0 <= k < owners@.len() ==> #[trigger] owners@[k] == owner_of(
                    app.scan.links@[k],
                    texts(own@),
                    app.ovpn_active@,
                    texts(facts.devices@),
                    app.vpn.providers@,
                ),
            out@ == with_devices(start, *app, *facts, i as nat),
        decreases owners@.len() - i,
    {
        let who = match owners[i] {
            Some(id) => id.slug(),
            None => "unaccounted for",
        };
        field(
            out,
            cat("device ", app.scan.links[i].name.as_str()).as_str(),
            cat3(facts.links[i].as_str(), " — ", who).as_str(),
        );
        i = i + 1;
    }
}

/// What the subject and its chain need from the machine: a missing binary is
/// one of the two or three things that explain a connection never starting.
#[verifier::opaque]
pub open spec fn with_environment(
    out: Seq<char>,
    app: App,
    facts: Facts,
    ts: Seq<Subject>,
) -> Seq<char> {
    let out = out + section_text("environment"@);
    let out = with_programs(out, facts, programs_for_all(app, facts, ts));
    let out = if wants_root(app.machine.os, ts) {
        with_root(out, app, facts)
    } else {
        out
    };
    let out = if opens_session(ts) {
        out + field_text("ssh sessions"@, app.ssh_launcher.label_spec(app.machine.os)) + field_text(
            "ssh passwords"@,
            app.ssh_password_helper.label_spec(),
        )
    } else {
        out
    };
    let out = out + field_text(
        "activating"@,
        match app.activation {
            Some(a) => a.target@ + " · "@ + progress_of(a@),
            None => "nothing in flight"@,
        },
    );
    if about_vpn(ts) {
        with_devices(
            if app.scan.links@.len() == 0 {
                out + field_text("tunnel devices"@, "none"@)
            } else {
                out
            },
            app,
            facts,
            app.scan.links@.len(),
        )
    } else {
        out
    }
}

/// What the subject and its chain need from the machine. Clients nothing here
/// uses are left out with everything else about them. `all` is the subject and
/// then its chain.
fn environment(out: &mut String, app: &App, facts: &Facts, all: &Vec<LogTarget>)
    requires
        app.wf(),
        facts.wf(*app),
    ensures
        final(out)@ == with_environment(old(out)@, *app, *facts, subjects(all@)),
{
    proof {
        reveal(with_environment);
    }
    section(out, "environment");
    let ghost ts = subjects(all@);
    let mut wanted = text::no_texts();
    let mut needs_root = false;
    let mut opens_a_session = false;
    let mut about_a_vpn = false;
    let mut i: usize = 0;
    assert(ts.take(0) =~= Seq::<Subject>::empty());
    while i < all.len()
        invariant
            facts.wf(*app),
            i <= all@.len(),
            ts == subjects(all@),
            texts(wanted@) == programs_for_all(*app, *facts, ts.take(i as int)),
            needs_root == wants_root(app.machine.os, ts.take(i as int)),
            opens_a_session == opens_session(ts.take(i as int)),
            about_a_vpn == about_vpn(ts.take(i as int)),
        decreases all@.len() - i,
    {
        let t = &all[i];
        let ghost before = ts.take(i as int);
        let ghost after = ts.take(i + 1);
        assert(after.drop_last() =~= before);
        assert(after[i as int] == t@);
        let more = wanted_programs(app, facts, t);
        text::add_all(&mut wanted, &more);
        let root_here = match t {
            LogTarget::Program => true,
            LogTarget::Vpn(p, _) => p.needs_root(app.machine.os),
            _ => false,
        };
        let session_here = matches!(t, LogTarget::Program | LogTarget::Ssh(_));
        let vpn_here = matches!(t, LogTarget::Program | LogTarget::Vpn(_, _));
        proof {
            assert(forall|k: int| 0 <= k < i ==> after[k] == before[k]);
            assert(wants_root(app.machine.os, after) == (wants_root(app.machine.os, before) || root_here)) by {
                if wants_root(app.machine.os, before) {
                    let k = choose|k: int|
                        0 <= k < before.len() && (#[trigger] before[k] matches Subject::Program || (
                        before[k] matches Subject::Vpn(p, _) && p.needs_root_spec(app.machine.os)));
                    assert(after[k] == before[k]);
                }
                if wants_root(app.machine.os, after) && !root_here {
                    let k = choose|k: int|
                        0 <= k < after.len() && (#[trigger] after[k] matches Subject::Program || (
                        after[k] matches Subject::Vpn(p, _) && p.needs_root_spec(app.machine.os)));
                    assert(before[k] == after[k]);
                }
            }
            assert(opens_session(after) == (opens_session(before) || session_here)) by {
                if opens_session(before) {
                    let k = choose|k: int|
                        0 <= k < before.len() && (#[trigger] before[k] is Program || before[k]
                            is Ssh);
                    assert(after[k] == before[k]);
                }
                if opens_session(after) && !session_here {
                    let k = choose|k: int|
                        0 <= k < after.len() && (#[trigger] after[k] is Program || after[k] is Ssh);
                    assert(before[k] == after[k]);
                }
            }
            assert(about_vpn(after) == (about_vpn(before) || vpn_here)) by {
                if about_vpn(before) {
                    let k = choose|k: int|
                        0 <= k < before.len() && (#[trigger] before[k] is Program || before[k]
                            is Vpn);
                    assert(after[k] == before[k]);
                }
                if about_vpn(after) && !vpn_here {
                    let k = choose|k: int|
                        0 <= k < after.len() && (#[trigger] after[k] is Program || after[k] is Vpn);
                    assert(before[k] == after[k]);
                }
            }
        }
        needs_root = needs_root || root_here;
        opens_a_session = opens_a_session || session_here;
        about_a_vpn = about_a_vpn || vpn_here;
        i = i + 1;
    }
    assert(ts.take(i as int) =~= ts);
    programs(out, facts, &wanted);
    if needs_root {
        root_lines(out, app, facts);
    }
    if opens_a_session {
        field(out, "ssh sessions", app.ssh_launcher.label(app.machine.os).as_str());
        // Which helper carries a stored password decides what a failed login
        // means: a wrong password, or one that never reached ssh at all.
        field(out, "ssh passwords", app.ssh_password_helper.label());
    }
    // A plan still running is why something is half up, whatever it is about.
    let activating = match &app.activation {
        Some(a) => cat3(a.target.as_str(), " · ", a.progress().as_str()),
        None => "nothing in flight".to_owned(),
    };
    field(out, "activating", activating.as_str());
    if about_a_vpn {
        devices(out, app, facts);
    }
}

// ---------------------------------------------------------------------------
// What happened
// ---------------------------------------------------------------------------

/// An entry that belongs in a report: a plan or a panic is recorded against the
/// program itself and is what set every one of these in motion.
pub open spec fn belongs(about: Subject, t: Subject, chain: Seq<Subject>) -> bool {
    about is Program || covers_spec(t, about) || exists|i: int|
        0 <= i < chain.len() && covers_spec(#[trigger] chain[i], about)
}

pub open spec fn journal_line(about: Subject, e: Entry) -> Seq<char> {
    stamp_text(moment_of(e.at as int / 1000)) + "  "@ + filled(title_of(about), 24) + (if e.error {
        "ERROR: "@
    } else {
        Seq::empty()
    }) + redacted(e.text@) + "\n"@
}

/// The journal, in order, as far as it belongs in the report.
pub open spec fn journal_text(
    es: Seq<(LogTarget, Entry)>,
    t: Subject,
    chain: Seq<Subject>,
) -> Seq<char>
    decreases es.len(),
{
    if es.len() == 0 {
        Seq::empty()
    } else {
        let before = journal_text(es.drop_last(), t, chain);
        if belongs(es.last().0@, t, chain) {
            before + journal_line(es.last().0@, es.last().1)
        } else {
            before
        }
    }
}

/// Something in the journal belongs in the report.
pub open spec fn something_done(
    es: Seq<(LogTarget, Entry)>,
    t: Subject,
    chain: Seq<Subject>,
) -> bool {
    exists|i: int| 0 <= i < es.len() && belongs((#[trigger] es[i]).0@, t, chain)
}

#[verifier::opaque]
pub open spec fn with_what_it_did(
    out: Seq<char>,
    es: Seq<(LogTarget, Entry)>,
    t: Subject,
    chain: Seq<Subject>,
) -> Seq<char> {
    let out = out + section_text("what controlcenter did"@);
    if something_done(es, t, chain) {
        out + ("```\n"@ + journal_text(es, t, chain) + "```\n"@)
    } else {
        out + "nothing yet this run\n"@
    }
}

fn does_belong(about: &LogTarget, target: &LogTarget, chain: &Vec<LogTarget>) -> (r: bool)
    ensures
        r == belongs(about@, target@, subjects(chain@)),
{
    if matches!(about, LogTarget::Program) || target.covers(about) {
        return true;
    }
    let ghost cs = subjects(chain@);
    let mut i: usize = 0;
    while i < chain.len()
        invariant
            i <= chain@.len(),
            cs == subjects(chain@),
            !(about@ is Program),
            !covers_spec(target@, about@),
            forall|k: int| 0 <= k < i ==> !covers_spec(#[trigger] cs[k], about@),
        decreases chain@.len() - i,
    {
        assert(cs[i as int] == chain@[i as int]@);
        if chain[i].covers(about) {
            return true;
        }
        i = i + 1;
    }
    false
}

fn what_it_did(out: &mut String, app: &App, target: &LogTarget, chain: &Vec<LogTarget>)
    ensures
        final(out)@ == with_what_it_did(
            old(out)@,
            app.journal.held(),
            target@,
            subjects(chain@),
        ),
{
    proof {
        reveal(with_what_it_did);
    }
    section(out, "what controlcenter did");
    let es = app.journal.all();
    let ghost cs = subjects(chain@);
    let mut wrote_any = false;
    let mut body = String::new();
    let mut i: usize = 0;
    assert(es@.take(0) =~= Seq::<(LogTarget, Entry)>::empty());
    while i < es.len()
        invariant
            i <= es@.len(),
            cs == subjects(chain@),
            body@ == journal_text(es@.take(i as int), target@, cs),
            wrote_any == exists|k: int| 0 <= k < i && belongs((#[trigger] es@[k]).0@, target@, cs),
        decreases es@.len() - i,
    {
        assert(es@.take(i + 1).drop_last() =~= es@.take(i as int));
        let (about, e) = &es[i];
        if does_belong(about, target, chain) {
            assert(belongs(es@[i as int].0@, target@, cs));
            wrote_any = true;
            let mut l = cat4(
                calendar::stamp(e.at / 1000).as_str(),
                "  ",
                fill(about.title().as_str(), 24).as_str(),
                if e.error {
                    "ERROR: "
                } else {
                    ""
                },
            );
            proof {
                reveal_strlit("");
                assert(""@ =~= Seq::<char>::empty());
            }
            l.push_str(redact(e.text.as_str()).as_str());
            l.push_str("\n");
            body.push_str(l.as_str());
        }
        i = i + 1;
    }
    assert(es@.take(i as int) =~= es@);
    if !wrote_any {
        out.push_str("nothing yet this run\n");
    } else {
        out.push_str(cat3("```\n", body.as_str(), "```\n").as_str());
    }
}

/// Log lines one after another.
pub open spec fn plain_lines(es: Seq<Entry>) -> Seq<char>
    decreases es.len(),
{
    if es.len() == 0 {
        Seq::empty()
    } else {
        plain_lines(es.drop_last()) + (plain_text(es.last()) + "\n"@)
    }
}

fn write_plain(lines: &Vec<Entry>) -> (r: String)
    ensures
        r@ == plain_lines(lines@),
{
    let mut out = String::new();
    let mut i: usize = 0;
    assert(lines@.take(0) =~= Seq::<Entry>::empty());
    while i < lines.len()
        invariant
            i <= lines@.len(),
            out@ == plain_lines(lines@.take(i as int)),
        decreases lines@.len() - i,
    {
        assert(lines@.take(i + 1).drop_last() =~= lines@.take(i as int));
        line(&mut out, plain_line(&lines[i]).as_str());
        i = i + 1;
    }
    assert(lines@.take(i as int) =~= lines@);
    out
}

pub open spec fn written_lines(es: Seq<Entry>) -> Seq<char> {
    if es.len() == 0 {
        "nothing logged\n"@
    } else {
        "```\n"@ + plain_lines(es) + "```\n"@
    }
}

fn write_lines(out: &mut String, lines: &Vec<Entry>)
    ensures
        final(out)@ == old(out)@ + written_lines(lines@),
{
    if lines.len() == 0 {
        out.push_str("nothing logged\n");
        return;
    }
    out.push_str(cat3("```\n", write_plain(lines).as_str(), "```\n").as_str());
}

/// The logs of a chain, one part per link, oldest line first; a link that said
/// nothing has none.
pub open spec fn chain_log_text(app: App, chain: Seq<Subject>) -> Seq<char>
    decreases chain.len(),
{
    if chain.len() == 0 {
        Seq::empty()
    } else {
        let before = chain_log_text(app, chain.drop_last());
        let lines = sorted(app.lines_for(chain.last()));
        if lines.len() == 0 {
            before
        } else {
            before + ("──── "@ + title_of(chain.last()) + " ────\n\n"@ + plain_lines(lines) + "\n"@)
        }
    }
}

fn chain_log(app: &App, chain: &Vec<LogTarget>) -> (r: String)
    ensures
        r@ == chain_log_text(*app, subjects(chain@)),
{
    let ghost cs = subjects(chain@);
    let mut out = String::new();
    let mut i: usize = 0;
    assert(cs.take(0) =~= Seq::<Subject>::empty());
    while i < chain.len()
        invariant
            i <= chain@.len(),
            cs == subjects(chain@),
            out@ == chain_log_text(*app, cs.take(i as int)),
        decreases chain@.len() - i,
    {
        assert(cs.take(i + 1).drop_last() =~= cs.take(i as int));
        assert(cs.take(i + 1).last() == chain@[i as int]@);
        let lines = app.log_lines(&chain[i]);
        if lines.len() > 0 {
            out.push_str(
                cat5(
                    "──── ",
                    chain[i].title().as_str(),
                    " ────\n\n",
                    write_plain(&lines).as_str(),
                    "\n",
                ).as_str(),
            );
        }
        i = i + 1;
    }
    assert(cs.take(i as int) =~= cs);
    out
}

/// What is said of the file with the chain's logs.
pub open spec fn pointer_text(name: Seq<char>) -> Seq<char> {
    "Everything the links above logged, in full, is in ["@ + name + "]("@ + name
        + ") beside this file — one section per link, oldest line first.\n"@
}

/// The head of the file with the chain's logs.
pub open spec fn chain_head(t: Subject, now: u64) -> Seq<char> {
    "controlcenter — every log "@ + title_of(t) + " depends on\ngenerated "@ + stamp_text(
        moment_of(now as int),
    ) + "\n\n"@
}

/// Every connection there is, for the report on the whole program.
#[verifier::opaque]
pub open spec fn with_everything(out: Seq<char>, app: App, clock: u64) -> Seq<char> {
    let out = with_clients(out + section_text("vpn clients"@), app.vpn.providers@);
    let out = if app.tunnels@.len() == 0 {
        out + section_text("tunnels"@) + "none configured\n"@
    } else {
        with_tunnels(out + section_text("tunnels"@), app, clock, app.tunnels@)
    };
    let out = if app.ssh_hosts@.len() == 0 {
        out + section_text("ssh hosts"@) + "none configured\n"@
    } else {
        with_hosts(out + section_text("ssh hosts"@), app, app.ssh_hosts@)
    };
    if app.rdp_conns@.len() == 0 {
        out + section_text("rdp connections"@) + "none configured\n"@
    } else {
        with_conns(out + section_text("rdp connections"@), app, clock, app.rdp_conns@)
    }
}

fn everything(out: &mut String, app: &App, clock: u64)
    requires
        app.vpn.wf(),
    ensures
        final(out)@ == with_everything(old(out)@, *app, clock),
{
    proof {
        reveal(with_everything);
    }
    vpn_clients(out, app);
    tunnels(out, app, clock);
    ssh_hosts(out, app);
    rdp_connections(out, app, clock);
}

/// The subject's log behind what is written already, and the file with the logs
/// of its chain where those say anything.
#[verifier::opaque]
pub open spec fn with_logs(
    out: Seq<char>,
    app: App,
    t: Subject,
    chain: Seq<Subject>,
    stem: Seq<char>,
    now: u64,
) -> (Seq<char>, Option<(Seq<char>, Seq<char>)>) {
    let out = out + section_text("log · "@ + title_of(t)) + written_lines(
        sorted(app.lines_for(t)),
    );
    let logs = chain_log_text(app, chain);
    let name = stem + CHAIN_LOG_SUFFIX@;
    if logs.len() == 0 {
        (out, None)
    } else {
        (
            out + section_text("logs of the chain"@) + pointer_text(name),
            Some((name, chain_head(t, now) + logs)),
        )
    }
}

/// These are the files to be written beside a report.
pub open spec fn attached(files: Seq<(String, String)>, want: Option<(Seq<char>, Seq<char>)>) -> bool {
    match want {
        None => files.len() == 0,
        Some((name, body)) => files.len() == 1 && files[0].0@ == name && files[0].1@ == body,
    }
}

/// The focused pane's log, in full, and then the chain's, as a file beside the
/// report, since between them the links can run to thousands of lines.
fn log_output(
    out: &mut String,
    app: &App,
    target: &LogTarget,
    chain: &Vec<LogTarget>,
    stem: &str,
    now: u64,
) -> (r: Vec<(String, String)>)
    ensures
        ({
            let want = with_logs(old(out)@, *app, target@, subjects(chain@), stem@, now);
            final(out)@ == want.0 && attached(r@, want.1)
        }),
{
    proof {
        reveal(with_logs);
    }
    section(out, cat("log · ", target.title().as_str()).as_str());
    let lines = app.log_lines(target);
    write_lines(out, &lines);
    let mut attachments: Vec<(String, String)> = Vec::new();
    let logs = chain_log(app, chain);
    if !logs.as_str().is_empty() {
        let name = cat(stem, CHAIN_LOG_SUFFIX);
        section(out, "logs of the chain");
        out.push_str(
            cat5(
                "Everything the links above logged, in full, is in [",
                name.as_str(),
                "](",
                name.as_str(),
                ") beside this file — one section per link, oldest line first.\n",
            ).as_str(),
        );
        let mut body = cat5(
            "controlcenter — every log ",
            target.title().as_str(),
            " depends on\ngenerated ",
            calendar::stamp(now).as_str(),
            "\n\n",
        );
        body.push_str(logs.as_str());
        attachments.push((name, body));
    }
    attachments
}

/// The report's body, and the file beside it where there is one.
pub open spec fn report_of(app: App, facts: Facts, t: Subject, stem: Seq<char>) -> (
    Seq<char>,
    Option<(Seq<char>, Seq<char>)>,
) {
    let chain = chain_spec(app, t);
    let out = with_subject(header_of(app, facts, t), app, facts, t);
    let out = if t is Program {
        with_everything(out, app, facts.clock)
    } else {
        with_what_comes_first(out, app, facts, chain)
    };
    let out = with_environment(out, app, facts, seq![t] + chain);
    let out = with_what_it_did(out, app.journal.held(), t, chain);
    with_logs(out, app, t, chain, stem, facts.now)
}

/// Write the report about `target`. Every file of one export is named after
/// `stem`, so the report can link to the logs written beside it.
pub fn build(app: &App, facts: &Facts, target: &LogTarget, stem: &str) -> (r: Report)
    requires
        app.wf(),
        facts.wf(*app),
    ensures
        ({
            let want = report_of(*app, *facts, target@, stem@);
            r.body@ == want.0 && attached(r.attachments@, want.1)
        }),
{
    let chain = chain_targets(app, target);
    let mut out = header(app, facts, target);
    subject(&mut out, app, facts, target);
    if matches!(target, LogTarget::Program) {
        everything(&mut out, app, facts.clock);
    } else {
        what_comes_first(&mut out, app, facts, &chain);
    }
    let all = with_first(target, &chain);
    environment(&mut out, app, facts, &all);
    what_it_did(&mut out, app, target, &chain);
    let attachments = log_output(&mut out, app, target, &chain, stem, facts.now);
    Report { body: out, attachments }
}

fn with_first(first: &LogTarget, rest: &Vec<LogTarget>) -> (r: Vec<LogTarget>)
    ensures
        subjects(r@) == seq![first@] + subjects(rest@),
{
    let mut out: Vec<LogTarget> = Vec::new();
    out.push(first.clone());
    let mut i: usize = 0;
    while i < rest.len()
        invariant
            i <= rest@.len(),
            out@.len() == i + 1,
            out@[0] == *first,
            forall|k: int| 0 <= k < i ==> #[trigger] out@[k + 1] == rest@[k],
        decreases rest@.len() - i,
    {
        out.push(rest[i].clone());
        i = i + 1;
    }
    assert forall|k: int| 0 <= k < out@.len() implies out@[k]@ == (seq![first@] + subjects(
        rest@,
    ))[k] by {
        if k > 0 {
            assert(out@[k - 1 + 1] == rest@[k - 1]);
        }
    }
    assert(subjects(out@) =~= seq![first@] + subjects(rest@));
    out
}

}
