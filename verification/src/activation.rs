//! Running a plan: what each step is waiting for, what stands in its way, and
//! what to do next.

use vstd::prelude::*;
use crate::browser::opt_string;
use crate::effects::{self, acts, reported, Act, Effect};
use crate::live::{
    has_name, holds_name, place_of, position, rdp_is_running, rdp_runs, tunnel_status, LiveRdp,
    LiveTunnel,
};
use crate::logs::{LogTarget, Subject};
use crate::number::{self, decimal};
use crate::plan::{describe_of, is_terminal_job, jobs, log_of, Catalog, Job, Step};
use crate::text::{self, cat, cat3, cat4, cat5, joined, texts};
use crate::tunnel::Status;
use crate::types::{
    canonical_text, canonical_vpn_requirement, need_of, parse_vpn_requirement, tunnel_conflict,
    RdpConnection, SshHost, Tunnel,
};
use crate::vpn::ProviderId;
use crate::vpn_view::{is_stored_fn, kept, ProviderState, VpnProfile, VpnView};

verus! {

/// How long a dependent connection waits for its tunnel to come up, in
/// milliseconds.
pub const DEPENDENCY_TIMEOUT: u64 = 30_000;

/// Bringing a VPN up may sit through a browser login, so it gets much longer.
pub const VPN_TIMEOUT: u64 = 120_000;

/// A plan being executed, one step at a time.
#[derive(Debug)]
pub struct Activation {
    /// Remaining steps, front first. The front stays here until it starts, so
    /// a conflict prompt can hold the plan and retry the same step.
    pub steps: Vec<Step>,
    /// Step that was started and is now being waited on, and since when.
    pub waiting: Option<(Step, u64)>,
    /// What the user asked for, for messages.
    pub target: String,
    pub total: usize,
    pub done: usize,
    /// Tunnels this plan started. A later step fighting one of these is a
    /// broken config, not something worth a prompt.
    pub started: Vec<String>,
    /// The step whose conflict the user has already accepted. What stood in
    /// the way is gone, but the resource it held can take a moment to come
    /// free, and without this the same step would be asked about again on
    /// every tick.
    pub approved: Option<Step>,
}

/// A plan being executed, as text.
pub struct Running {
    pub steps: Seq<Job>,
    pub waiting: Option<(Job, int)>,
    pub target: Seq<char>,
    pub total: int,
    pub done: int,
    pub started: Seq<Seq<char>>,
    pub approved: Option<Job>,
}

impl View for Activation {
    type V = Running;

    open spec fn view(&self) -> Running {
        Running {
            steps: jobs(self.steps@),
            waiting: match self.waiting {
                Some((s, t)) => Some((s@, t as int)),
                None => None,
            },
            target: self.target@,
            total: self.total as int,
            done: self.done as int,
            started: texts(self.started@),
            approved: match self.approved {
                Some(s) => Some(s@),
                None => None,
            },
        }
    }
}

impl Running {
    /// What is left and what is done never add up to more than the plan.
    pub open spec fn wf(self) -> bool {
        self.done + self.steps.len() + (if self.waiting is Some { 1int } else { 0 }) <= self.total
    }
}

/// "2/4 · tunnel 'bastion'" for the status bar.
pub open spec fn progress_of(a: Running) -> Seq<char> {
    let current = match a.waiting {
        Some((j, _)) => describe_of(j),
        None => if a.steps.len() > 0 {
            describe_of(a.steps[0])
        } else {
            "finishing"@
        },
    };
    decimal((a.done + 1) as nat) + "/"@ + decimal(a.total as nat) + " · "@ + current
}

impl Activation {
    /// A plan about to begin.
    pub fn new(steps: Vec<Step>, target: String) -> (r: Self)
        ensures
            r@ == (Running {
                steps: jobs(steps@),
                waiting: None,
                target: target@,
                total: steps@.len() as int,
                done: 0,
                started: Seq::empty(),
                approved: None,
            }),
            r@.wf(),
    {
        let total: usize = steps.len();
        let r = Activation {
            steps,
            waiting: None,
            target,
            total,
            done: 0,
            started: text::no_texts(),
            approved: None,
        };
        r
    }

    /// "2/4 · tunnel 'bastion'" for the status bar.
    pub fn progress(&self) -> (r: String)
        requires
            self.done < usize::MAX,
        ensures
            r@ == progress_of(self@),
    {
        let current = match &self.waiting {
            Some((s, _)) => s.describe(),
            None => if self.steps.len() > 0 {
                assert(jobs(self.steps@)[0] == self.steps@[0]@);
                self.steps[0].describe()
            } else {
                "finishing".to_owned()
            },
        };
        cat5(
            number::write(self.done as u64 + 1).as_str(),
            "/",
            number::write(self.total as u64).as_str(),
            " · ",
            current.as_str(),
        )
    }
}

/// Something already running that stands in the way of a step, and what
/// accepting the prompt will do about it.
#[derive(Debug)]
pub struct ConflictPrompt {
    /// The step being held up; retried once the conflict is resolved.
    pub step: Step,
    /// The contested resource, e.g. "local port 5432".
    pub resource: String,
    /// Active tunnels to disconnect on accept.
    pub stop_tunnels: Vec<String>,
    /// Running RDP sessions to disconnect on accept.
    pub stop_rdp: Vec<String>,
    /// Extra explanation, e.g. the profile switch being made.
    pub note: Option<String>,
}

/// A conflict, as text.
pub struct Clash {
    pub step: Job,
    pub resource: Seq<char>,
    pub stop_tunnels: Seq<Seq<char>>,
    pub stop_rdp: Seq<Seq<char>>,
    pub note: Option<Seq<char>>,
}

impl View for ConflictPrompt {
    type V = Clash;

    open spec fn view(&self) -> Clash {
        Clash {
            step: self.step@,
            resource: self.resource@,
            stop_tunnels: texts(self.stop_tunnels@),
            stop_rdp: texts(self.stop_rdp@),
            note: opt_string(self.note),
        }
    }
}

/// Each name with something before and after it.
pub open spec fn each_in(names: Seq<Seq<char>>, before: Seq<char>, after: Seq<char>) -> Seq<
    Seq<char>,
> {
    names.map_values(|n: Seq<char>| before + n + after)
}

fn wrap_each(names: &Vec<String>, before: &str, after: &str) -> (r: Vec<String>)
    ensures
        texts(r@) == each_in(texts(names@), before@, after@),
{
    let ghost all = texts(names@);
    let mut out = text::no_texts();
    let mut i: usize = 0;
    assert(texts(out@) =~= each_in(all.take(0), before@, after@));
    while i < names.len()
        invariant
            i <= names@.len(),
            all == texts(names@),
            texts(out@) == each_in(all.take(i as int), before@, after@),
        decreases names@.len() - i,
    {
        text::add_text(&mut out, cat3(before, names[i].as_str(), after));
        i = i + 1;
        assert(each_in(all.take(i as int), before@, after@) =~= each_in(
            all.take(i - 1),
            before@,
            after@,
        ).push(before@ + all[i - 1] + after@));
    }
    assert(all.take(i as int) =~= all);
    out
}

/// Everything that goes away if the user accepts.
pub open spec fn blocking_of(c: Clash) -> Seq<Seq<char>> {
    each_in(c.stop_tunnels, "tunnel '"@, "'"@) + each_in(c.stop_rdp, "rdp '"@, "'"@)
}

impl ConflictPrompt {
    /// Everything that goes away if the user accepts.
    pub fn blocking(&self) -> (r: Vec<String>)
        ensures
            texts(r@) == blocking_of(self@),
    {
        let mut all = wrap_each(&self.stop_tunnels, "tunnel '", "'");
        let more = wrap_each(&self.stop_rdp, "rdp '", "'");
        text::add_all(&mut all, &more);
        all
    }
}

/// How a step is doing.
#[derive(Debug)]
pub enum StepState {
    Ready,
    Waiting,
    Failed(String),
}

/// How a step is doing, as text.
pub enum Doing {
    Ready,
    Waiting,
    Failed(Seq<char>),
}

impl View for StepState {
    type V = Doing;

    open spec fn view(&self) -> Doing {
        match self {
            StepState::Ready => Doing::Ready,
            StepState::Waiting => Doing::Waiting,
            StepState::Failed(why) => Doing::Failed(why@),
        }
    }
}

/// What beginning a step takes.
#[derive(Debug)]
pub enum Begin {
    /// Not yet possible for a reason that should pass on its own.
    Retry,
    Fail(String),
    /// Start the tunnel at this place of the list, and whether what is left of
    /// a dead one has to go first.
    Tunnel { idx: usize, dead: bool },
    /// Start the openvpn session of this profile.
    Openvpn(String),
    /// Have a client connect, and what that is called while it lasts.
    Client { provider: ProviderId, profile: Option<String>, desc: String },
    /// Open an ssh session.
    Ssh(String),
    /// Open an rdp session with this password.
    Rdp(String, String),
}

/// What beginning a step takes, as text.
pub enum Beginning {
    Retry,
    Fail(Seq<char>),
    Tunnel { idx: int, dead: bool },
    Openvpn(Seq<char>),
    Client { provider: ProviderId, profile: Option<Seq<char>>, desc: Seq<char> },
    Ssh(Seq<char>),
    Rdp(Seq<char>, Seq<char>),
}

impl View for Begin {
    type V = Beginning;

    open spec fn view(&self) -> Beginning {
        match self {
            Begin::Retry => Beginning::Retry,
            Begin::Fail(why) => Beginning::Fail(why@),
            Begin::Tunnel { idx, dead } => Beginning::Tunnel { idx: *idx as int, dead: *dead },
            Begin::Openvpn(n) => Beginning::Openvpn(n@),
            Begin::Client { provider, profile, desc } => Beginning::Client {
                provider: *provider,
                profile: opt_string(*profile),
                desc: desc@,
            },
            Begin::Ssh(n) => Beginning::Ssh(n@),
            Begin::Rdp(n, p) => Beginning::Rdp(n@, p@),
        }
    }
}

/// A read-only view of what is configured and what is running, so that a plan
/// can be run without the rest of the application state.
#[derive(Clone, Copy)]
pub struct Scene<'a> {
    pub tunnels: &'a [Tunnel],
    pub ssh_hosts: &'a [SshHost],
    pub rdp_conns: &'a [RdpConnection],
    pub vpn: &'a VpnView,
    pub active: &'a Vec<LiveTunnel>,
    pub rdp_active: &'a Vec<LiveRdp>,
}

// ---------------------------------------------------------------------------
// VPNs
// ---------------------------------------------------------------------------

/// A stored profile of that name is up.
pub open spec fn profile_up(ps: Seq<VpnProfile>, name: Seq<char>) -> bool {
    exists|i: int|
        0 <= i < ps.len() && (#[trigger] ps[i]).stored_spec() && ps[i].active && ps[i].name@ == name
}

/// A VPN already satisfies the requirement.
///
/// WireGuard and OpenVPN can hold several at once, so the profile list is the
/// truth there, not a single "active" field.
pub open spec fn satisfied(ps: Seq<ProviderState>, want: Seq<char>) -> bool {
    match need_of(want) {
        None => true,
        Some(n) => match n.provider {
            None => exists|i: int| 0 <= i < ps.len() && (#[trigger] ps[i]).status.connected,
            Some(p) => {
                let s = ps[p.index_spec()];
                s.status.connected && match n.profile {
                    None => true,
                    Some(name) => profile_up(s.profiles@, name) || s.active_spec() == Some(name),
                }
            },
        },
    }
}

/// The stored profile of a client that has just one. A connection that was not
/// started here is up already and belongs to something else, so it is none.
pub open spec fn only_profile(s: ProviderState) -> Option<Seq<char>> {
    let stored = kept(s.profiles@, is_stored_fn());
    if stored.len() == 1 {
        Some(stored[0].name@)
    } else {
        None
    }
}

fn lone_profile(s: &ProviderState) -> (r: Option<String>)
    ensures
        opt_string(r) == only_profile(*s),
{
    let stored = s.stored();
    let ghost all = stored@.map_values(|p: &VpnProfile| *p);
    assert(all.len() == stored@.len());
    if stored.len() == 1 {
        assert(all[0] == *stored@[0]);
        Some(stored[0].name.clone())
    } else {
        None
    }
}

pub open spec fn only_choice() -> spec_fn(ProviderState) -> bool {
    |s: ProviderState| s.installed && only_profile(s) is Some
}

/// Which client a bare `*` requirement should bring up, and which profile.
/// NetBird first, because that is what `*` meant when it was the only provider;
/// otherwise the only unambiguous choice there is.
pub open spec fn any_vpn(ps: Seq<ProviderState>) -> Result<
    (ProviderId, Option<Seq<char>>),
    Seq<char>,
> {
    let choices = kept(ps, only_choice());
    if ps[0].installed {
        Ok((ProviderId::Netbird, None))
    } else if choices.len() == 1 {
        Ok((choices[0].id, only_profile(choices[0])))
    } else if choices.len() == 0 {
        Err("no VPN client is installed"@)
    } else {
        Err("several VPNs could satisfy '*' — name one, e.g. wireguard:home"@)
    }
}

/// Some client is installed.
pub open spec fn some_installed(ps: Seq<ProviderState>) -> bool {
    exists|i: int| 0 <= i < ps.len() && (#[trigger] ps[i]).installed
}

/// Whether a VPN already satisfies the requirement.
pub fn vpn_satisfied(vpn: &VpnView, want: &str) -> (r: bool)
    requires
        vpn.wf(),
    ensures
        r == satisfied(vpn.providers@, want@),
{
    let req = match parse_vpn_requirement(want) {
        Some(n) => n,
        None => {
            return true;
        },
    };
    let provider = match req.provider {
        Some(p) => p,
        None => {
            // Any VPN at all will do.
            return any_connected(vpn);
        },
    };
    let state = vpn.get(provider);
    if !state.status.connected {
        return false;
    }
    match req.profile {
        None => true,
        Some(name) => {
            let reported = match state.active_profile() {
                Some(a) => text::same(a, name.as_str()),
                None => false,
            };
            has_profile_up(&state.profiles, name.as_str()) || reported
        },
    }
}

fn any_connected(vpn: &VpnView) -> (r: bool)
    ensures
        r == exists|i: int|
            0 <= i < vpn.providers@.len() && (#[trigger] vpn.providers@[i]).status.connected,
{
    let mut i: usize = 0;
    while i < vpn.providers.len()
        invariant
            i <= vpn.providers@.len(),
            forall|k: int| 0 <= k < i ==> !(#[trigger] vpn.providers@[k]).status.connected,
        decreases vpn.providers@.len() - i,
    {
        if vpn.providers[i].status.connected {
            return true;
        }
        i = i + 1;
    }
    false
}

fn has_profile_up(ps: &Vec<VpnProfile>, name: &str) -> (r: bool)
    ensures
        r == profile_up(ps@, name@),
{
    let mut i: usize = 0;
    while i < ps.len()
        invariant
            i <= ps@.len(),
            forall|k: int|
                0 <= k < i ==> !((#[trigger] ps@[k]).stored_spec() && ps@[k].active && ps@[k].name@
                    == name@),
        decreases ps@.len() - i,
    {
        if ps[i].is_stored() && ps[i].active && text::same(ps[i].name.as_str(), name) {
            return true;
        }
        i = i + 1;
    }
    false
}

/// Which provider a bare `*` requirement should bring up.
pub fn provider_for_any_vpn(vpn: &VpnView) -> (r: Result<(ProviderId, Option<String>), String>)
    requires
        vpn.wf(),
    ensures
        match any_vpn(vpn.providers@) {
            Ok((id, profile)) => r is Ok && (r->Ok_0).0 == id && opt_string((r->Ok_0).1) == profile,
            Err(e) => r is Err && r->Err_0@ == e,
        },
{
    if vpn.get(ProviderId::Netbird).installed {
        return Ok((ProviderId::Netbird, None));
    }
    let ghost all = vpn.providers@;
    let mut count: usize = 0;
    let mut last: usize = 0;
    let mut i: usize = 0;
    assert(all.take(0) =~= Seq::<ProviderState>::empty());
    while i < vpn.providers.len()
        invariant
            i <= all.len(),
            all == vpn.providers@,
            count <= i,
            count == kept(all.take(i as int), only_choice()).len(),
            count > 0 ==> last < i && kept(all.take(i as int), only_choice())[count - 1]
                == all[last as int],
        decreases all.len() - i,
    {
        assert(all.take(i + 1).drop_last() =~= all.take(i as int));
        let s = &vpn.providers[i];
        if s.installed && lone_profile(s).is_some() {
            count = count + 1;
            last = i;
        }
        i = i + 1;
    }
    assert(all.take(i as int) =~= all);
    if count == 1 {
        let s = &vpn.providers[last];
        Ok((s.id, lone_profile(s)))
    } else if count == 0 {
        Err("no VPN client is installed".to_owned())
    } else {
        Err("several VPNs could satisfy '*' — name one, e.g. wireguard:home".to_owned())
    }
}

// ---------------------------------------------------------------------------
// How a step is doing
// ---------------------------------------------------------------------------

/// How a step is doing. Terminal steps are never waited on.
pub open spec fn state_of(ps: Seq<ProviderState>, active: Seq<LiveTunnel>, j: Job) -> Doing {
    match j {
        Job::Vpn(req) => if satisfied(ps, req) {
            Doing::Ready
        } else {
            let provider = match need_of(req) {
                Some(n) => n.provider,
                None => None,
            };
            match provider {
                Some(p) => {
                    let s = ps[p.index_spec()];
                    if !s.installed {
                        Doing::Failed(p.slug_spec() + " is not installed"@)
                    } else {
                        match s.error {
                            Some(e) => Doing::Failed(e@),
                            None => Doing::Waiting,
                        }
                    }
                },
                None => if some_installed(ps) {
                    Doing::Waiting
                } else {
                    Doing::Failed("no VPN client is installed"@)
                },
            }
        },
        Job::Tunnel(name) => match tunnel_status(active, name) {
            Some(Status::Up) => Doing::Ready,
            Some(Status::Connecting) => Doing::Waiting,
            Some(Status::Failed) => Doing::Failed(
                match active[place_of(active, name)].error {
                    Some(e) => e@,
                    None => "tunnel failed"@,
                },
            ),
            None => Doing::Waiting,
        },
        _ => Doing::Ready,
    }
}

/// How long a step may take before the plan gives up.
pub open spec fn timeout_of(j: Job) -> int {
    if j is Vpn {
        VPN_TIMEOUT as int
    } else {
        DEPENDENCY_TIMEOUT as int
    }
}

/// How long a step may take before the plan gives up. `netbird up` can sit
/// through a login, so it gets much longer than an ssh forward.
pub fn step_timeout(step: &Step) -> (r: u64)
    ensures
        r == timeout_of(step@),
{
    match step {
        Step::Vpn(_) => VPN_TIMEOUT,
        _ => DEPENDENCY_TIMEOUT,
    }
}

// ---------------------------------------------------------------------------
// What is in the way
// ---------------------------------------------------------------------------

/// The running tunnels that ride on exactly this VPN requirement.
pub open spec fn tunnel_riders(
    ts: Seq<Tunnel>,
    want: Seq<char>,
    active: Seq<LiveTunnel>,
) -> Seq<Seq<char>>
    decreases ts.len(),
{
    if ts.len() == 0 {
        Seq::empty()
    } else {
        let before = tunnel_riders(ts.drop_last(), want, active);
        let t = ts.last();
        if canonical_text(t.requires_vpn@) == want && has_name(active, t.name@) {
            before.push(t.name@)
        } else {
            before
        }
    }
}

/// The running rdp sessions that ride on exactly this VPN requirement.
pub open spec fn rdp_riders(
    cs: Seq<RdpConnection>,
    want: Seq<char>,
    live: Seq<LiveRdp>,
) -> Seq<Seq<char>>
    decreases cs.len(),
{
    if cs.len() == 0 {
        Seq::empty()
    } else {
        let before = rdp_riders(cs.drop_last(), want, live);
        let c = cs.last();
        if canonical_text(c.requires_vpn@) == want && rdp_is_running(live, c.name@) {
            before.push(c.name@)
        } else {
            before
        }
    }
}

/// The running tunnels other than the one at `idx` that bind the same endpoint.
pub open spec fn fighting(
    ts: Seq<Tunnel>,
    t: Tunnel,
    idx: int,
    active: Seq<LiveTunnel>,
) -> Seq<Seq<char>>
    decreases ts.len(),
{
    if ts.len() == 0 {
        Seq::empty()
    } else {
        let before = fighting(ts.drop_last(), t, idx, active);
        let other = ts.last();
        if ts.len() - 1 != idx && has_name(active, other.name@) && t.binding_spec()
            == other.binding_spec() {
            before.push(other.name@)
        } else {
            before
        }
    }
}

/// The other connections to the same machine that have a session running.
pub open spec fn same_machine(
    cs: Seq<RdpConnection>,
    name: Seq<char>,
    target: Seq<char>,
    live: Seq<LiveRdp>,
) -> Seq<Seq<char>>
    decreases cs.len(),
{
    if cs.len() == 0 {
        Seq::empty()
    } else {
        let before = same_machine(cs.drop_last(), name, target, live);
        let c = cs.last();
        if c.name@ != name && target_of(c) == target && rdp_is_running(live, c.name@) {
            before.push(c.name@)
        } else {
            before
        }
    }
}

/// The machine an rdp connection goes to.
pub open spec fn target_of(c: RdpConnection) -> Seq<char> {
    c.host@ + ":"@ + decimal(c.port as nat)
}

/// What is configured and running, as the specifications see it.
pub struct Stage {
    pub tunnels: Seq<Tunnel>,
    pub ssh_hosts: Seq<SshHost>,
    pub rdp_conns: Seq<RdpConnection>,
    pub vpn: Seq<ProviderState>,
    pub active: Seq<LiveTunnel>,
    pub rdp_active: Seq<LiveRdp>,
}

/// Whatever is already running that a step cannot coexist with.
pub open spec fn clash_of(s: Stage, j: Job) -> Option<Clash> {
    match j {
        // Only providers that can hold one profile at a time conflict, and
        // switching cuts anything that asked for the old profile. Where nothing
        // rides on it, the switch is simply what was asked for.
        Job::Vpn(req) => match need_of(req) {
            Some(n) => match (n.provider, n.profile) {
                (Some(id), Some(wanted)) => {
                    let current = s.vpn[id.index_spec()].active_spec();
                    if !id.exclusive_spec() || current is None || current == Some(wanted) {
                        None
                    } else {
                        let old_req = canonical_text(id.slug_spec() + ":"@ + current->0);
                        let stop_tunnels = tunnel_riders(s.tunnels, old_req, s.active);
                        let stop_rdp = rdp_riders(s.rdp_conns, old_req, s.rdp_active);
                        if stop_tunnels.len() == 0 && stop_rdp.len() == 0 {
                            None
                        } else {
                            Some(
                                Clash {
                                    step: j,
                                    resource: "the active "@ + id.slug_spec() + " profile"@,
                                    stop_tunnels,
                                    stop_rdp,
                                    note: Some(
                                        id.slug_spec() + " profile '"@ + current->0 + "' → '"@
                                            + wanted + "'"@,
                                    ),
                                },
                            )
                        }
                    }
                },
                _ => None,
            },
            None => None,
        },
        Job::Tunnel(name) => {
            let idx = place_of(s.tunnels, name);
            if idx < s.tunnels.len() && fighting(
                s.tunnels,
                s.tunnels[idx],
                idx,
                s.active,
            ).len() > 0 {
                Some(
                    Clash {
                        step: j,
                        resource: s.tunnels[idx].binding_spec(),
                        stop_tunnels: fighting(s.tunnels, s.tunnels[idx], idx, s.active),
                        stop_rdp: Seq::empty(),
                        note: None,
                    },
                )
            } else {
                None
            }
        },
        // A second session to the same machine normally throws the first one
        // off, so that is the user's choice.
        Job::Rdp(name, _) => {
            let idx = place_of(s.rdp_conns, name);
            if idx < s.rdp_conns.len() && same_machine(
                s.rdp_conns,
                name,
                target_of(s.rdp_conns[idx]),
                s.rdp_active,
            ).len() > 0 {
                Some(
                    Clash {
                        step: j,
                        resource: target_of(s.rdp_conns[idx]),
                        stop_tunnels: Seq::empty(),
                        stop_rdp: same_machine(
                            s.rdp_conns,
                            name,
                            target_of(s.rdp_conns[idx]),
                            s.rdp_active,
                        ),
                        note: None,
                    },
                )
            } else {
                None
            }
        },
        Job::Ssh(_) => None,
    }
}

/// The running tunnels and RDP sessions that ride on exactly this VPN
/// requirement: what taking it down would cut. The two lists are told apart,
/// because a tunnel and an RDP connection may share a name.
pub fn riders_of(
    catalog: &Catalog,
    req: &str,
    active: &Vec<LiveTunnel>,
    rdp_active: &Vec<LiveRdp>,
) -> (r: (Vec<String>, Vec<String>))
    ensures
        texts(r.0@) == tunnel_riders(catalog.tunnels@, canonical_text(req@), active@),
        texts(r.1@) == rdp_riders(catalog.rdp_conns@, canonical_text(req@), rdp_active@),
{
    let want = canonical_vpn_requirement(req);
    let mut tunnels = text::no_texts();
    let ghost ts = catalog.tunnels@;
    let mut i: usize = 0;
    assert(ts.take(0) =~= Seq::<Tunnel>::empty());
    while i < catalog.tunnels.len()
        invariant
            i <= ts.len(),
            ts == catalog.tunnels@,
            texts(tunnels@) == tunnel_riders(ts.take(i as int), want@, active@),
        decreases ts.len() - i,
    {
        assert(ts.take(i + 1).drop_last() =~= ts.take(i as int));
        let t = &catalog.tunnels[i];
        if text::same(
            canonical_vpn_requirement(t.requires_vpn.as_str()).as_str(),
            want.as_str(),
        ) && holds_name(active.as_slice(), t.name.as_str()) {
            text::add_text(&mut tunnels, t.name.clone());
        }
        i = i + 1;
    }
    assert(ts.take(i as int) =~= ts);
    let mut rdp = text::no_texts();
    let ghost cs = catalog.rdp_conns@;
    let mut k: usize = 0;
    assert(cs.take(0) =~= Seq::<RdpConnection>::empty());
    while k < catalog.rdp_conns.len()
        invariant
            k <= cs.len(),
            cs == catalog.rdp_conns@,
            texts(rdp@) == rdp_riders(cs.take(k as int), want@, rdp_active@),
        decreases cs.len() - k,
    {
        assert(cs.take(k + 1).drop_last() =~= cs.take(k as int));
        let c = &catalog.rdp_conns[k];
        if text::same(
            canonical_vpn_requirement(c.requires_vpn.as_str()).as_str(),
            want.as_str(),
        ) && rdp_runs(rdp_active, c.name.as_str()) {
            text::add_text(&mut rdp, c.name.clone());
        }
        k = k + 1;
    }
    assert(cs.take(k as int) =~= cs);
    (tunnels, rdp)
}

/// Active tunnels that bind the same endpoint as tunnel `idx`, and the endpoint;
/// nothing where there are none.
pub fn conflicting_active(
    tunnels: &[Tunnel],
    active: &Vec<LiveTunnel>,
    idx: usize,
) -> (r: (Vec<String>, String))
    ensures
        idx >= tunnels@.len() ==> r.0@.len() == 0 && r.1@.len() == 0,
        idx < tunnels@.len() ==> {
            let names = fighting(tunnels@, tunnels@[idx as int], idx as int, active@);
            &&& texts(r.0@) == names
            &&& r.1@ == if names.len() > 0 {
                tunnels@[idx as int].binding_spec()
            } else {
                Seq::empty()
            }
        },
{
    let mut names = text::no_texts();
    let mut binding = String::new();
    if idx >= tunnels.len() {
        assert(texts(names@).len() == names@.len());
        return (names, binding);
    }
    let t = &tunnels[idx];
    let ghost ts = tunnels@;
    let mut i: usize = 0;
    assert(ts.take(0) =~= Seq::<Tunnel>::empty());
    while i < tunnels.len()
        invariant
            i <= ts.len(),
            ts == tunnels@,
            idx < ts.len(),
            *t == ts[idx as int],
            texts(names@) == fighting(ts.take(i as int), *t, idx as int, active@),
            binding@ == if fighting(ts.take(i as int), *t, idx as int, active@).len() > 0 {
                t.binding_spec()
            } else {
                Seq::empty()
            },
        decreases ts.len() - i,
    {
        assert(ts.take(i + 1).drop_last() =~= ts.take(i as int));
        let other = &tunnels[i];
        if i != idx && holds_name(active.as_slice(), other.name.as_str()) {
            match tunnel_conflict(t, other) {
                Some(b) => {
                    binding = b;
                    text::add_text(&mut names, other.name.clone());
                },
                None => {},
            }
        }
        i = i + 1;
    }
    assert(ts.take(i as int) =~= ts);
    (names, binding)
}

// ---------------------------------------------------------------------------
// Beginning a step
// ---------------------------------------------------------------------------

/// The profile a client is brought up with: wg-quick and tailscale need to be
/// told which, netbird can just be brought up on whatever it already has
/// selected.
pub open spec fn profile_for(
    ps: Seq<ProviderState>,
    id: ProviderId,
    profile: Option<Seq<char>>,
) -> Result<Option<Seq<char>>, Seq<char>> {
    let s = ps[id.index_spec()];
    if profile is Some || id == ProviderId::Netbird {
        Ok(profile)
    } else if only_profile(s) is Some {
        Ok(only_profile(s))
    } else {
        Err(id.slug_spec() + " needs a named profile, e.g. "@ + id.slug_spec() + ":<name>"@)
    }
}

/// What bringing a client up is called while it lasts.
pub open spec fn bringing_up(profile: Option<Seq<char>>) -> Seq<char> {
    match profile {
        Some(p) => "bringing up '"@ + p + "'"@,
        None => "connecting"@,
    }
}

pub fn describe_bringing_up(profile: &Option<String>) -> (r: String)
    ensures
        r@ == bringing_up(opt_string(*profile)),
{
    match profile {
        Some(p) => cat3("bringing up '", p.as_str(), "'"),
        None => "connecting".to_owned(),
    }
}

/// What beginning a VPN step takes, once it is known which client and profile.
pub open spec fn begin_vpn(
    ps: Seq<ProviderState>,
    id: ProviderId,
    profile: Option<Seq<char>>,
) -> Beginning {
    if !ps[id.index_spec()].installed {
        Beginning::Fail(id.slug_spec() + " is not installed"@)
    } else if id == ProviderId::Openvpn {
        match profile {
            Some(name) => Beginning::Openvpn(name),
            None => Beginning::Fail("openvpn needs a named profile, e.g. openvpn:work"@),
        }
    } else if ps[id.index_spec()].busy is Some {
        Beginning::Retry
    } else {
        match profile_for(ps, id, profile) {
            Err(e) => Beginning::Fail(e),
            Ok(p) => Beginning::Client { provider: id, profile: p, desc: bringing_up(p) },
        }
    }
}

/// What beginning a step takes. A dead tunnel is replaced rather than waited on.
pub open spec fn beginning(s: Stage, j: Job) -> Beginning {
    match j {
        Job::Vpn(req) => match need_of(req) {
            None => Beginning::Fail("empty VPN requirement"@),
            Some(n) => match n.provider {
                Some(id) => begin_vpn(s.vpn, id, n.profile),
                None => match any_vpn(s.vpn) {
                    Ok((id, profile)) => begin_vpn(s.vpn, id, profile),
                    Err(e) => Beginning::Fail(e),
                },
            },
        },
        Job::Tunnel(name) => {
            let idx = place_of(s.tunnels, name);
            if idx == s.tunnels.len() {
                Beginning::Fail("tunnel '"@ + name + "' no longer exists"@)
            } else {
                Beginning::Tunnel {
                    idx,
                    dead: tunnel_status(s.active, name) == Some(Status::Failed),
                }
            }
        },
        Job::Ssh(name) => if has_name(s.ssh_hosts, name) {
            Beginning::Ssh(name)
        } else {
            Beginning::Fail("ssh host '"@ + name + "' is gone"@)
        },
        Job::Rdp(name, password) => Beginning::Rdp(name, password),
    }
}

// ---------------------------------------------------------------------------
// Driving a plan
// ---------------------------------------------------------------------------

/// News about one step of a plan. A plan for a single connection is named after
/// that connection, so saying both would say it twice.
pub open spec fn plan_news(target: Seq<char>, j: Job, what: Seq<char>) -> Seq<char> {
    if target == describe_of(j) {
        describe_of(j) + " "@ + what
    } else {
        target + ": "@ + describe_of(j) + " "@ + what
    }
}

/// Where a plan has got to.
pub enum Standing {
    /// It waits for a step that was started, or for a client that is busy.
    Waits(Running),
    /// Something is in the way of its next step.
    Asks(Running, Clash),
    /// Its next step can begin.
    Begins(Running),
    /// It is over: all of it is up, or it could not be finished.
    Over,
}

/// Two steps of one plan fighting each other.
pub open spec fn self_inflicted(c: Clash, started: Seq<Seq<char>>) -> bool {
    &&& c.stop_tunnels.len() > 0
    &&& c.stop_rdp.len() == 0
    &&& forall|i: int|
        0 <= i < c.stop_tunnels.len() ==> started.contains(#[trigger] c.stop_tunnels[i])
}

/// A plan without its first step, which counts as done.
pub open spec fn past_first(a: Running) -> Running {
    Running { steps: a.steps.drop_first(), approved: None, done: a.done + 1, ..a }
}

/// Drive a plan as far as it will go without starting anything: where it stands
/// then, and what there is to say.
pub open spec fn driven(s: Stage, a: Running, now: int) -> (Standing, Seq<Act>)
    decreases a.steps.len(), (if a.waiting is Some { 1nat } else { 0 }),
{
    match a.waiting {
        Some((j, since)) => match state_of(s.vpn, s.active, j) {
            Doing::Ready => driven(s, Running { waiting: None, done: a.done + 1, ..a }, now),
            Doing::Waiting => if now - since < timeout_of(j) {
                (Standing::Waits(a), Seq::empty())
            } else {
                (
                    Standing::Over,
                    reported(log_of(j), plan_news(a.target, j, "timed out"@), true),
                )
            },
            Doing::Failed(why) => (
                Standing::Over,
                reported(log_of(j), plan_news(a.target, j, "failed — "@ + why), true),
            ),
        },
        None => if a.steps.len() == 0 {
            (Standing::Over, reported(Subject::Program, a.target + " started"@, false))
        } else {
            let j = a.steps[0];
            if !is_terminal_job(j) && state_of(s.vpn, s.active, j) is Ready {
                driven(s, past_first(a), now)
            } else {
                match clash_of(s, j) {
                    Some(c) => if a.approved == Some(j) {
                        (Standing::Begins(a), Seq::empty())
                    } else if self_inflicted(c, a.started) {
                        // A broken config: say so and move on instead of asking
                        // to undo our own work.
                        let rest = driven(s, past_first(a), now);
                        (
                            rest.0,
                            reported(
                                log_of(j),
                                "skipped "@ + describe_of(j) + ": "@ + c.resource
                                    + " already held by "@ + joined(c.stop_tunnels, ", "@),
                                true,
                            ) + rest.1,
                        )
                    } else {
                        (Standing::Asks(a, c), Seq::empty())
                    },
                    None => (Standing::Begins(a), Seq::empty()),
                }
            }
        },
    }
}

/// Where a plan has got to.
#[derive(Debug)]
pub enum Stand {
    Waits(Activation),
    Asks(Activation, ConflictPrompt),
    Begins(Activation),
    Over,
}

impl View for Stand {
    type V = Standing;

    open spec fn view(&self) -> Standing {
        match self {
            Stand::Waits(a) => Standing::Waits(a@),
            Stand::Asks(a, c) => Standing::Asks(a@, c@),
            Stand::Begins(a) => Standing::Begins(a@),
            Stand::Over => Standing::Over,
        }
    }
}

/// The plan once its first step has begun: a step that is only fired counts as
/// done, any other is waited on, and a tunnel is remembered as started here.
pub open spec fn begun(a: Running, now: int) -> Running {
    let j = a.steps[0];
    let rest = Running {
        steps: a.steps.drop_first(),
        approved: None,
        started: match j {
            Job::Tunnel(n) => a.started.push(n),
            _ => a.started,
        },
        ..a
    };
    if is_terminal_job(j) {
        Running { done: a.done + 1, ..rest }
    } else {
        Running { waiting: Some((j, now)), ..rest }
    }
}

fn drop_first_step(steps: &mut Vec<Step>) -> (r: Step)
    requires
        old(steps)@.len() > 0,
    ensures
        jobs(final(steps)@) == jobs(old(steps)@).drop_first(),
        r == old(steps)@[0],
{
    let ghost was = steps@;
    let s = steps.remove(0);
    assert(steps@ =~= was.drop_first());
    assert(jobs(steps@) =~= jobs(was).drop_first());
    s
}

fn same_step(a: &Option<Step>, b: &Step) -> (r: bool)
    ensures
        r == (match *a {
            Some(s) => Some(s@),
            None => None,
        } == Some(b@)),
{
    match a {
        Some(s) => s.same_as(b),
        None => false,
    }
}

fn all_held(names: &Vec<String>, among: &Vec<String>) -> (r: bool)
    ensures
        r == forall|i: int|
            0 <= i < texts(names@).len() ==> texts(among@).contains(#[trigger] texts(names@)[i]),
{
    let ghost ns = texts(names@);
    let mut i: usize = 0;
    while i < names.len()
        invariant
            i <= names@.len(),
            ns == texts(names@),
            forall|k: int| 0 <= k < i ==> texts(among@).contains(#[trigger] ns[k]),
        decreases names@.len() - i,
    {
        assert(ns[i as int] == names@[i as int]@);
        if !text::holds(among, names[i].as_str()) {
            return false;
        }
        i = i + 1;
    }
    true
}

fn news(target: &str, step: &Step, what: &str) -> (r: String)
    ensures
        r@ == plan_news(target@, step@, what@),
{
    let d = step.describe();
    if text::same(target, d.as_str()) {
        cat3(d.as_str(), " ", what)
    } else {
        cat5(target, ": ", d.as_str(), " ", what)
    }
}

impl<'a> Scene<'a> {
    pub open spec fn stage(&self) -> Stage {
        Stage {
            tunnels: self.tunnels@,
            ssh_hosts: self.ssh_hosts@,
            rdp_conns: self.rdp_conns@,
            vpn: self.vpn.providers@,
            active: self.active@,
            rdp_active: self.rdp_active@,
        }
    }

    /// How a step is doing.
    pub fn step_state(&self, step: &Step) -> (r: StepState)
        requires
            self.vpn.wf(),
        ensures
            r@ == state_of(self.vpn.providers@, self.active@, step@),
    {
        match step {
            Step::Vpn(req) => {
                if vpn_satisfied(self.vpn, req.as_str()) {
                    return StepState::Ready;
                }
                let provider = match parse_vpn_requirement(req.as_str()) {
                    Some(n) => n.provider,
                    None => None,
                };
                match provider {
                    Some(id) => {
                        let state = self.vpn.get(id);
                        if !state.installed {
                            StepState::Failed(cat(id.slug(), " is not installed"))
                        } else {
                            match &state.error {
                                Some(e) => StepState::Failed(e.clone()),
                                None => StepState::Waiting,
                            }
                        }
                    },
                    None => if self.vpn.any_installed() {
                        StepState::Waiting
                    } else {
                        StepState::Failed("no VPN client is installed".to_owned())
                    },
                }
            },
            Step::Tunnel(name) => match position(self.active.as_slice(), name.as_str()) {
                Some(i) => match self.active[i].status {
                    Status::Up => StepState::Ready,
                    Status::Connecting => StepState::Waiting,
                    Status::Failed => StepState::Failed(
                        match &self.active[i].error {
                            Some(e) => e.clone(),
                            None => "tunnel failed".to_owned(),
                        },
                    ),
                },
                None => StepState::Waiting,
            },
            // Terminal steps are never waited on.
            Step::Ssh(_) | Step::Rdp { .. } => StepState::Ready,
        }
    }

    /// Whatever is already running that this step cannot coexist with.
    pub fn step_conflict(&self, step: &Step) -> (r: Option<ConflictPrompt>)
        requires
            self.vpn.wf(),
        ensures
            r is Some <==> clash_of(self.stage(), step@) is Some,
            r is Some ==> r->0@ == clash_of(self.stage(), step@)->0,
    {
        match step {
            Step::Vpn(req) => {
                let parsed = match parse_vpn_requirement(req.as_str()) {
                    Some(n) => n,
                    None => {
                        return None;
                    },
                };
                let (id, wanted) = match (parsed.provider, parsed.profile) {
                    (Some(id), Some(wanted)) => (id, wanted),
                    _ => {
                        return None;
                    },
                };
                if !id.exclusive() {
                    return None;
                }
                let current = match self.vpn.get(id).active_profile() {
                    Some(c) => c,
                    None => {
                        return None;
                    },
                };
                if text::same(current, wanted.as_str()) {
                    return None;
                }
                // Switching profiles cuts anything that asked for the old one.
                let old_req = cat3(id.slug(), ":", current);
                let catalog = Catalog {
                    tunnels: self.tunnels,
                    ssh_hosts: self.ssh_hosts,
                    rdp_conns: self.rdp_conns,
                };
                let (stop_tunnels, stop_rdp) = riders_of(
                    &catalog,
                    old_req.as_str(),
                    self.active,
                    self.rdp_active,
                );
                assert(texts(stop_tunnels@).len() == stop_tunnels@.len());
                assert(texts(stop_rdp@).len() == stop_rdp@.len());
                if stop_tunnels.len() == 0 && stop_rdp.len() == 0 {
                    return None;
                }
                let mut note = cat5(id.slug(), " profile '", current, "' → '", wanted.as_str());
                note.push_str("'");
                Some(
                    ConflictPrompt {
                        step: step.clone(),
                        resource: cat3("the active ", id.slug(), " profile"),
                        stop_tunnels,
                        stop_rdp,
                        note: Some(note),
                    },
                )
            },
            Step::Tunnel(name) => {
                let idx: usize = match position(self.tunnels, name.as_str()) {
                    Some(i) => i,
                    None => {
                        return None;
                    },
                };
                let (conflicting, binding) = conflicting_active(self.tunnels, self.active, idx);
                assert(texts(conflicting@).len() == conflicting@.len());
                if conflicting.len() == 0 {
                    return None;
                }
                Some(
                    ConflictPrompt {
                        step: step.clone(),
                        resource: binding,
                        stop_tunnels: conflicting,
                        stop_rdp: text::no_texts(),
                        note: None,
                    },
                )
            },
            Step::Rdp { name, .. } => {
                let idx: usize = match position(self.rdp_conns, name.as_str()) {
                    Some(i) => i,
                    None => {
                        return None;
                    },
                };
                let target = self.rdp_conns[idx].target_summary();
                let stop_rdp = self.rivals(name.as_str(), target.as_str());
                assert(texts(stop_rdp@).len() == stop_rdp@.len());
                if stop_rdp.len() == 0 {
                    return None;
                }
                Some(
                    ConflictPrompt {
                        step: step.clone(),
                        resource: target,
                        stop_tunnels: text::no_texts(),
                        stop_rdp,
                        note: None,
                    },
                )
            },
            Step::Ssh(_) => None,
        }
    }

    fn rivals(&self, name: &str, target: &str) -> (r: Vec<String>)
        ensures
            texts(r@) == same_machine(self.rdp_conns@, name@, target@, self.rdp_active@),
    {
        let ghost cs = self.rdp_conns@;
        let mut out = text::no_texts();
        let mut i: usize = 0;
        assert(cs.take(0) =~= Seq::<RdpConnection>::empty());
        while i < self.rdp_conns.len()
            invariant
                i <= cs.len(),
                cs == self.rdp_conns@,
                texts(out@) == same_machine(cs.take(i as int), name@, target@, self.rdp_active@),
            decreases cs.len() - i,
        {
            assert(cs.take(i + 1).drop_last() =~= cs.take(i as int));
            let c = &self.rdp_conns[i];
            if !text::same(c.name.as_str(), name) && text::same(
                c.target_summary().as_str(),
                target,
            ) && rdp_runs(self.rdp_active, c.name.as_str()) {
                text::add_text(&mut out, c.name.clone());
            }
            i = i + 1;
        }
        assert(cs.take(i as int) =~= cs);
        out
    }

    fn begin_client(&self, id: ProviderId, profile: Option<String>) -> (r: Begin)
        requires
            self.vpn.wf(),
        ensures
            r@ == begin_vpn(self.vpn.providers@, id, opt_string(profile)),
    {
        let state = self.vpn.get(id);
        if !state.installed {
            return Begin::Fail(cat(id.slug(), " is not installed"));
        }
        if id == ProviderId::Openvpn {
            return match profile {
                Some(name) => Begin::Openvpn(name),
                None => Begin::Fail(
                    "openvpn needs a named profile, e.g. openvpn:work".to_owned(),
                ),
            };
        }
        if state.busy.is_some() {
            // Another action on this provider is still running.
            return Begin::Retry;
        }
        let profile = match profile {
            Some(p) => Some(p),
            None => if id == ProviderId::Netbird {
                None
            } else {
                match lone_profile(state) {
                    Some(p) => Some(p),
                    None => {
                        return Begin::Fail(
                            cat4(id.slug(), " needs a named profile, e.g. ", id.slug(), ":<name>"),
                        );
                    },
                }
            },
        };
        let desc = describe_bringing_up(&profile);
        Begin::Client { provider: id, profile, desc }
    }

    /// What beginning a step takes.
    pub fn start_step(&self, step: &Step) -> (r: Begin)
        requires
            self.vpn.wf(),
        ensures
            r@ == beginning(self.stage(), step@),
    {
        match step {
            Step::Vpn(req) => {
                let parsed = match parse_vpn_requirement(req.as_str()) {
                    Some(n) => n,
                    None => {
                        return Begin::Fail("empty VPN requirement".to_owned());
                    },
                };
                match parsed.provider {
                    Some(id) => self.begin_client(id, parsed.profile),
                    // "any VPN": choose one rather than guess between several.
                    None => match provider_for_any_vpn(self.vpn) {
                        Ok((id, profile)) => self.begin_client(id, profile),
                        Err(e) => Begin::Fail(e),
                    },
                }
            },
            Step::Tunnel(name) => {
                let idx: usize = match position(self.tunnels, name.as_str()) {
                    Some(i) => i,
                    None => {
                        proof {
                            crate::live::lemma_place(self.tunnels@, name@);
                        }
                        return Begin::Fail(cat3("tunnel '", name.as_str(), "' no longer exists"));
                    },
                };
                let dead = match position(self.active.as_slice(), name.as_str()) {
                    Some(i) => matches!(self.active[i].status, Status::Failed),
                    None => false,
                };
                Begin::Tunnel { idx, dead }
            },
            Step::Ssh(name) => if holds_name(self.ssh_hosts, name.as_str()) {
                Begin::Ssh(name.clone())
            } else {
                Begin::Fail(cat3("ssh host '", name.as_str(), "' is gone"))
            },
            Step::Rdp { name, password } => Begin::Rdp(name.clone(), password.clone()),
        }
    }

    /// Drive the plan as far as it will go without starting anything.
    pub fn advance(&self, act: Activation, now: u64) -> (r: (Stand, Vec<Effect>))
        requires
            self.vpn.wf(),
            act@.wf(),
        ensures
            (r.0@, acts(r.1@)) == driven(self.stage(), act@, now as int),
            match r.0 {
                Stand::Waits(a) => a@.wf(),
                Stand::Asks(a, _) => a@.wf(),
                Stand::Begins(a) => a@.wf() && a@.steps.len() > 0 && a@.waiting is None,
                Stand::Over => true,
            },
        decreases act@.steps.len(), (if act@.waiting is Some { 1nat } else { 0 }),
    {
        let mut act = act;
        let ghost was = act@;
        match act.waiting.take() {
            Some((step, since)) => match self.step_state(&step) {
                StepState::Ready => {
                    act.done = act.done + 1;
                    assert(act@ == (Running { waiting: None, done: was.done + 1, ..was }));
                    self.advance(act, now)
                },
                StepState::Waiting => if now < since || now - since < step_timeout(&step) {
                    act.waiting = Some((step, since));
                    assert(act@ == was);
                    (Stand::Waits(act), effects::nothing())
                } else {
                    let mut out = effects::nothing();
                    let msg = news(act.target.as_str(), &step, "timed out");
                    effects::report(&mut out, step.log_target(), msg.as_str(), true);
                    assert(acts(out@) =~= reported(
                        log_of(step@),
                        plan_news(was.target, step@, "timed out"@),
                        true,
                    ));
                    (Stand::Over, out)
                },
                StepState::Failed(why) => {
                    let mut out = effects::nothing();
                    let what = cat("failed — ", why.as_str());
                    let msg = news(act.target.as_str(), &step, what.as_str());
                    effects::report(&mut out, step.log_target(), msg.as_str(), true);
                    assert(acts(out@) =~= reported(
                        log_of(step@),
                        plan_news(was.target, step@, "failed — "@ + why@),
                        true,
                    ));
                    (Stand::Over, out)
                },
            },
            None => {
                assert(act@ == was);
                if act.steps.len() == 0 {
                    let mut out = effects::nothing();
                    let msg = cat(act.target.as_str(), " started");
                    effects::report(&mut out, LogTarget::Program, msg.as_str(), false);
                    assert(acts(out@) =~= reported(
                        Subject::Program,
                        was.target + " started"@,
                        false,
                    ));
                    return (Stand::Over, out);
                }
                let step = act.steps[0].clone();
                assert(was.steps[0] == step@);
                let ready = match self.step_state(&step) {
                    StepState::Ready => true,
                    _ => false,
                };
                if !step.is_terminal() && ready {
                    let _ = drop_first_step(&mut act.steps);
                    act.approved = None;
                    act.done = act.done + 1;
                    assert(act@ == past_first(was));
                    return self.advance(act, now);
                }
                let prompt = match self.step_conflict(&step) {
                    Some(p) => p,
                    None => {
                        return (Stand::Begins(act), effects::nothing());
                    },
                };
                // A conflict the user has already accepted is not asked about
                // again: what blocked the step is gone, even if the resource it
                // held has not come free yet.
                if same_step(&act.approved, &step) {
                    return (Stand::Begins(act), effects::nothing());
                }
                assert(texts(prompt.stop_tunnels@).len() == prompt.stop_tunnels@.len());
                assert(texts(prompt.stop_rdp@).len() == prompt.stop_rdp@.len());
                if prompt.stop_tunnels.len() > 0 && prompt.stop_rdp.len() == 0 && all_held(
                    &prompt.stop_tunnels,
                    &act.started,
                ) {
                    let mut out = effects::nothing();
                    let held = text::join(&prompt.stop_tunnels, ", ");
                    let mut msg = cat5(
                        "skipped ",
                        step.describe().as_str(),
                        ": ",
                        prompt.resource.as_str(),
                        " already held by ",
                    );
                    msg.push_str(held.as_str());
                    effects::report(&mut out, step.log_target(), msg.as_str(), true);
                    let ghost said = reported(log_of(step@), msg@, true);
                    assert(acts(out@) =~= said);
                    let _ = drop_first_step(&mut act.steps);
                    act.approved = None;
                    act.done = act.done + 1;
                    assert(act@ == past_first(was));
                    let (stand, more) = self.advance(act, now);
                    effects::ask_all(&mut out, more);
                    return (stand, out);
                }
                (Stand::Asks(act, prompt), effects::nothing())
            },
        }
    }
}

/// Note that the first step of a plan has begun.
pub fn step_begun(act: Activation, now: u64) -> (r: Activation)
    requires
        act@.wf(),
        act@.steps.len() > 0,
        act@.waiting is None,
    ensures
        r@ == begun(act@, now as int),
        r@.wf(),
{
    let mut act = act;
    let ghost was = act@;
    assert(jobs(act.steps@)[0] == act.steps@[0]@);
    let step = drop_first_step(&mut act.steps);
    act.approved = None;
    match &step {
        Step::Tunnel(n) => {
            text::add_text(&mut act.started, n.clone());
        },
        _ => {},
    }
    if step.is_terminal() {
        act.done = act.done + 1;
    } else {
        act.waiting = Some((step, now));
    }
    act
}

// ---------------------------------------------------------------------------
// What holds of a plan being driven
// ---------------------------------------------------------------------------

/// The later plan is the earlier one, further along: a tail of its steps, with
/// as many more done as are gone, towards the same end.
pub open spec fn further_along(a: Running, b: Running) -> bool {
    &&& b.target == a.target
    &&& b.total == a.total
    &&& b.started == a.started
    &&& b.steps.len() <= a.steps.len()
    &&& b.steps == a.steps.skip(a.steps.len() - b.steps.len())
    &&& b.done + b.steps.len() + (if b.waiting is Some { 1int } else { 0 }) == a.done
        + a.steps.len() + (if a.waiting is Some { 1int } else { 0 })
}

proof fn lemma_further(a: Running, b: Running, c: Running)
    requires
        further_along(a, b),
        further_along(b, c),
    ensures
        further_along(a, c),
{
    let n = a.steps.len() - b.steps.len();
    let m = b.steps.len() - c.steps.len();
    assert(a.steps.skip(n).skip(m) =~= a.steps.skip(n + m));
}

/// What a plan does next is never out of turn: a step only begins when nothing
/// stands in its way or the user has accepted what does, it is only asked about
/// when something does, and it is only waited for while there is time. No step
/// is lost on the way.
pub proof fn law_plan_goes_in_order(s: Stage, a: Running, now: int)
    ensures
        match driven(s, a, now).0 {
            Standing::Begins(b) => {
                &&& further_along(a, b)
                &&& b.waiting is None && b.steps.len() > 0
                &&& clash_of(s, b.steps[0]) is None || b.approved == Some(b.steps[0])
                &&& is_terminal_job(b.steps[0]) || !(state_of(s.vpn, s.active, b.steps[0])
                    is Ready)
            },
            Standing::Asks(b, c) => {
                &&& further_along(a, b)
                &&& b.waiting is None && b.steps.len() > 0
                &&& clash_of(s, b.steps[0]) == Some(c)
                &&& b.approved != Some(b.steps[0])
                &&& !self_inflicted(c, b.started)
            },
            Standing::Waits(b) => {
                &&& further_along(a, b)
                &&& b.waiting is Some
                &&& state_of(s.vpn, s.active, (b.waiting->0).0) is Waiting
                &&& now - (b.waiting->0).1 < timeout_of((b.waiting->0).0)
            },
            Standing::Over => true,
        },
    decreases a.steps.len(), (if a.waiting is Some { 1nat } else { 0 }),
{
    assert(a.steps.skip(0) =~= a.steps);
    match a.waiting {
        Some((j, since)) => match state_of(s.vpn, s.active, j) {
            Doing::Ready => {
                let b = Running { waiting: None, done: a.done + 1, ..a };
                law_plan_goes_in_order(s, b, now);
                assert(further_along(a, b));
                match driven(s, b, now).0 {
                    Standing::Begins(c) => lemma_further(a, b, c),
                    Standing::Asks(c, _) => lemma_further(a, b, c),
                    Standing::Waits(c) => lemma_further(a, b, c),
                    Standing::Over => {},
                }
            },
            _ => {},
        },
        None => if a.steps.len() > 0 {
            let b = past_first(a);
            assert(a.steps.drop_first() =~= a.steps.skip(1));
            assert(further_along(a, b));
            law_plan_goes_in_order(s, b, now);
            match driven(s, b, now).0 {
                Standing::Begins(c) => lemma_further(a, b, c),
                Standing::Asks(c, _) => lemma_further(a, b, c),
                Standing::Waits(c) => lemma_further(a, b, c),
                Standing::Over => {},
            }
        },
    }
}

/// A step may be passed over where it is up already, or where what stands in its
/// way is the plan's own work.
pub open spec fn may_pass(s: Stage, j: Job, started: Seq<Seq<char>>) -> bool {
    ||| !is_terminal_job(j) && state_of(s.vpn, s.active, j) is Ready
    ||| clash_of(s, j) matches Some(c) && self_inflicted(c, started)
}

/// Before a step begins, everything ahead of it in the plan is up: the step that
/// was waited for is ready, and no step was passed over but one that is ready or
/// that the plan itself stands in the way of.
pub proof fn law_nothing_begins_early(s: Stage, a: Running, now: int)
    ensures
        driven(s, a, now).0 matches Standing::Begins(b) ==> {
            &&& a.waiting matches Some((j, _)) ==> state_of(s.vpn, s.active, j) is Ready
            &&& forall|i: int|
                0 <= i < a.steps.len() - b.steps.len() ==> may_pass(
                    s,
                    #[trigger] a.steps[i],
                    a.started,
                )
        },
    decreases a.steps.len(), (if a.waiting is Some { 1nat } else { 0 }),
{
    match a.waiting {
        Some((j, since)) => match state_of(s.vpn, s.active, j) {
            Doing::Ready => {
                law_nothing_begins_early(s, Running { waiting: None, done: a.done + 1, ..a }, now);
            },
            _ => {},
        },
        None => if a.steps.len() > 0 {
            let rest = past_first(a);
            law_nothing_begins_early(s, rest, now);
            law_plan_goes_in_order(s, rest, now);
            match driven(s, a, now).0 {
                Standing::Begins(b) => {
                    assert forall|i: int| 0 <= i < a.steps.len() - b.steps.len() implies may_pass(
                        s,
                        #[trigger] a.steps[i],
                        a.started,
                    ) by {
                        if i > 0 {
                            assert(rest.steps[i - 1] == a.steps[i]);
                        }
                    }
                },
                _ => {},
            }
        },
    }
}

/// A VPN that is already up is never switched away from without asking, as long
/// as something that is running asks for it.
pub proof fn law_no_silent_switch(s: Stage, id: ProviderId, wanted: Seq<char>, i: int)
    requires
        id.exclusive_spec(),
        need_of(id.slug_spec() + ":"@ + wanted) == Some(
            (crate::types::Need { provider: Some(id), profile: Some(wanted) }),
        ),
        s.vpn[id.index_spec()].active_spec() is Some,
        s.vpn[id.index_spec()].active_spec() != Some(wanted),
        0 <= i < s.tunnels.len(),
        has_name(s.active, s.tunnels[i].name@),
        canonical_text(s.tunnels[i].requires_vpn@) == canonical_text(
            id.slug_spec() + ":"@ + s.vpn[id.index_spec()].active_spec()->0,
        ),
    ensures
        clash_of(s, Job::Vpn(id.slug_spec() + ":"@ + wanted)) is Some,
        (clash_of(s, Job::Vpn(id.slug_spec() + ":"@ + wanted))->0).stop_tunnels.contains(
            s.tunnels[i].name@,
        ),
{
    let old_req = canonical_text(id.slug_spec() + ":"@ + s.vpn[id.index_spec()].active_spec()->0);
    lemma_rider(s.tunnels, old_req, s.active, i);
    let r = tunnel_riders(s.tunnels, old_req, s.active);
    let k = choose|k: int| 0 <= k < r.len() && r[k] == s.tunnels[i].name@;
    assert(r[k] == s.tunnels[i].name@);
}

proof fn lemma_rider(ts: Seq<Tunnel>, want: Seq<char>, active: Seq<LiveTunnel>, i: int)
    requires
        0 <= i < ts.len(),
        canonical_text(ts[i].requires_vpn@) == want,
        has_name(active, ts[i].name@),
    ensures
        tunnel_riders(ts, want, active).contains(ts[i].name@),
    decreases ts.len(),
{
    let r = tunnel_riders(ts, want, active);
    let b = tunnel_riders(ts.drop_last(), want, active);
    if i == ts.len() - 1 {
        assert(r[b.len() as int] == ts[i].name@);
    } else {
        lemma_rider(ts.drop_last(), want, active, i);
        let k = choose|k: int| 0 <= k < b.len() && b[k] == ts[i].name@;
        assert(r[k] == ts[i].name@);
    }
}

}
