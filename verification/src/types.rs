//! The connections and VPN profiles a user configures.

use vstd::prelude::*;
use crate::number::{self, decimal};
use crate::split::{self, lemma_first_of_is, split_once_at};
use crate::text::{self, cat, cat3, cat4, cat5, lemma_trimmed, lemma_trimmed_already, trimmed};
use crate::vpn::{lemma_slug_plain, law_slug_round_trip, ProviderId};

verus! {

#[derive(Debug, Clone, Copy, PartialEq, Eq, Structural)]
pub enum ForwardType {
    /// -L: listen on a local port, forward to remote_host:remote_port via the ssh host.
    Local,
    /// -R: listen on a port on the ssh host, forward back to a local destination.
    Remote,
    /// -D: local SOCKS5 proxy through the ssh host.
    Dynamic,
}

impl Default for ForwardType {
    fn default() -> (r: Self)
        ensures
            r == ForwardType::Local,
    {
        ForwardType::Local
    }
}

impl ForwardType {
    pub open spec fn label_spec(self) -> Seq<char> {
        match self {
            ForwardType::Local => "Local (-L)"@,
            ForwardType::Remote => "Remote (-R)"@,
            ForwardType::Dynamic => "Dynamic / SOCKS (-D)"@,
        }
    }

    pub fn label(self) -> (r: &'static str)
        ensures
            r@ == self.label_spec(),
    {
        match self {
            ForwardType::Local => "Local (-L)",
            ForwardType::Remote => "Remote (-R)",
            ForwardType::Dynamic => "Dynamic / SOCKS (-D)",
        }
    }

    pub open spec fn next_spec(self) -> ForwardType {
        match self {
            ForwardType::Local => ForwardType::Remote,
            ForwardType::Remote => ForwardType::Dynamic,
            ForwardType::Dynamic => ForwardType::Local,
        }
    }

    pub fn next(self) -> (r: Self)
        ensures
            r == self.next_spec(),
            r.prev_spec() == self,
    {
        match self {
            ForwardType::Local => ForwardType::Remote,
            ForwardType::Remote => ForwardType::Dynamic,
            ForwardType::Dynamic => ForwardType::Local,
        }
    }

    pub open spec fn prev_spec(self) -> ForwardType {
        match self {
            ForwardType::Local => ForwardType::Dynamic,
            ForwardType::Remote => ForwardType::Local,
            ForwardType::Dynamic => ForwardType::Remote,
        }
    }

    pub fn prev(self) -> (r: Self)
        ensures
            r == self.prev_spec(),
            r.next_spec() == self,
    {
        match self {
            ForwardType::Local => ForwardType::Dynamic,
            ForwardType::Remote => ForwardType::Local,
            ForwardType::Dynamic => ForwardType::Remote,
        }
    }
}

#[derive(Debug)]
pub struct Tunnel {
    pub name: String,
    /// Empty string means ungrouped.
    pub group: String,
    /// Anything ssh accepts as destination: host alias, user@host, user@host:port via extra args.
    pub ssh_host: String,
    pub forward: ForwardType,
    /// Local: listen port. Remote: local destination port. Dynamic: SOCKS listen port.
    pub local_port: u16,
    /// Local: destination host as seen from the ssh host. Remote: local destination host
    /// (empty = 127.0.0.1). Dynamic: unused.
    pub remote_host: String,
    /// Local: destination port. Remote: listen port on the ssh host. Dynamic: unused.
    pub remote_port: u16,
    /// Extra ssh flags, whitespace separated (e.g. "-J jumphost -p 2222").
    pub extra_args: String,
    pub auto_reconnect: bool,
    /// VPN profile that must be active first. Empty = none, `*` = any profile
    /// as long as the VPN is connected.
    pub requires_vpn: String,
    /// Tunnel that must be up first: stacking a tunnel on another tunnel's
    /// local end. Empty = none.
    pub depends_on: String,
}

impl Clone for Tunnel {
    fn clone(&self) -> (r: Self)
        ensures
            r == *self,
    {
        Tunnel {
            name: self.name.clone(),
            group: self.group.clone(),
            ssh_host: self.ssh_host.clone(),
            forward: self.forward,
            local_port: self.local_port,
            remote_host: self.remote_host.clone(),
            remote_port: self.remote_port,
            extra_args: self.extra_args.clone(),
            auto_reconnect: self.auto_reconnect,
            requires_vpn: self.requires_vpn.clone(),
            depends_on: self.depends_on.clone(),
        }
    }
}

#[derive(Debug)]
pub struct RdpConnection {
    pub name: String,
    /// Empty string means ungrouped.
    pub group: String,
    pub host: String,
    pub port: u16,
    /// Empty = no domain.
    pub domain: String,
    pub username: String,
    /// Extra client flags, whitespace separated (e.g. "/f /sound").
    pub extra_args: String,
    /// Name of a tunnel that must be up before connecting. Empty = none.
    pub depends_on: String,
    /// VPN profile that must be active first. Empty = none, `*` = any profile.
    pub requires_vpn: String,
}

impl Clone for RdpConnection {
    fn clone(&self) -> (r: Self)
        ensures
            r == *self,
    {
        RdpConnection {
            name: self.name.clone(),
            group: self.group.clone(),
            host: self.host.clone(),
            port: self.port,
            domain: self.domain.clone(),
            username: self.username.clone(),
            extra_args: self.extra_args.clone(),
            depends_on: self.depends_on.clone(),
            requires_vpn: self.requires_vpn.clone(),
        }
    }
}

pub fn default_rdp_port() -> (r: u16)
    ensures
        r == 3389,
{
    3389
}

impl RdpConnection {
    pub open spec fn login_spec(&self) -> Seq<char> {
        if self.domain@.len() == 0 {
            self.username@
        } else {
            self.domain@ + "\\"@ + self.username@
        }
    }

    /// `domain\user`, or the user alone.
    pub fn login_summary(&self) -> (r: String)
        ensures
            r@ == self.login_spec(),
    {
        if self.domain.as_str().is_empty() {
            self.username.clone()
        } else {
            cat3(self.domain.as_str(), "\\", self.username.as_str())
        }
    }

    pub fn target_summary(&self) -> (r: String)
        ensures
            r@ == self.host@ + ":"@ + decimal(self.port as nat),
    {
        cat3(self.host.as_str(), ":", number::write(self.port as u64).as_str())
    }
}

impl Tunnel {
    pub open spec fn forward_spec(&self) -> Seq<char> {
        match self.forward {
            ForwardType::Local => ":"@ + decimal(self.local_port as nat) + " → "@ + self.remote_host@
                + ":"@ + decimal(self.remote_port as nat),
            ForwardType::Remote => "remote:"@ + decimal(self.remote_port as nat) + " → "@
                + self.dest_host_spec() + ":"@ + decimal(self.local_port as nat),
            ForwardType::Dynamic => "SOCKS :"@ + decimal(self.local_port as nat),
        }
    }

    /// What is forwarded where, in one line.
    pub fn forward_summary(&self) -> (r: String)
        ensures
            r@ == self.forward_spec(),
    {
        let local = number::write(self.local_port as u64);
        let remote = number::write(self.remote_port as u64);
        match self.forward {
            ForwardType::Local => {
                let mut s = cat5(":", local.as_str(), " → ", self.remote_host.as_str(), ":");
                s.push_str(remote.as_str());
                s
            },
            ForwardType::Remote => {
                let mut s = cat5("remote:", remote.as_str(), " → ", self.dest_host(), ":");
                s.push_str(local.as_str());
                s
            },
            ForwardType::Dynamic => cat("SOCKS :", local.as_str()),
        }
    }

    pub open spec fn dest_host_spec(&self) -> Seq<char> {
        if self.remote_host@.len() == 0 {
            "127.0.0.1"@
        } else {
            self.remote_host@
        }
    }

    /// The host a forward ends at; this machine where none is named.
    pub fn dest_host(&self) -> (r: &str)
        ensures
            r@ == self.dest_host_spec(),
    {
        if self.remote_host.as_str().is_empty() {
            "127.0.0.1"
        } else {
            self.remote_host.as_str()
        }
    }

    pub open spec fn binding_spec(&self) -> Seq<char> {
        match self.forward {
            ForwardType::Remote => "port "@ + decimal(self.remote_port as nat) + " on "@
                + self.ssh_host@,
            _ => "local port "@ + decimal(self.local_port as nat),
        }
    }

    /// The endpoint this tunnel binds while it runs: a local listen port for
    /// -L/-D, or a port on the ssh host for -R. Two tunnels can only be up at
    /// the same time if their bindings differ.
    pub fn binding(&self) -> (r: String)
        ensures
            r@ == self.binding_spec(),
    {
        match self.forward {
            ForwardType::Local | ForwardType::Dynamic => {
                cat("local port ", number::write(self.local_port as u64).as_str())
            },
            ForwardType::Remote => {
                cat4(
                    "port ",
                    number::write(self.remote_port as u64).as_str(),
                    " on ",
                    self.ssh_host.as_str(),
                )
            },
        }
    }

    pub fn required(&self) -> (r: Requires)
        ensures
            r.vpn@ == self.requires_vpn@,
            r.tunnel@ == self.depends_on@,
    {
        Requires { vpn: self.requires_vpn.clone(), tunnel: self.depends_on.clone() }
    }
}

/// An interactive SSH login. Unlike a tunnel this is a foreground session: the
/// TUI suspends itself and hands the terminal to ssh until the session ends.
#[derive(Debug)]
pub struct SshHost {
    pub name: String,
    /// Empty string means ungrouped.
    pub group: String,
    pub host: String,
    pub port: u16,
    /// Empty = let ssh decide (ssh_config / current user).
    pub username: String,
    /// Private key passed as `-i`. Empty = agent or ssh_config default.
    pub key_path: String,
    /// Stored in cleartext in ssh.toml and used through `sshpass -e`.
    /// Empty = no stored password (ssh prompts in the session itself).
    pub password: String,
    /// StrictHostKeyChecking=no + UserKnownHostsFile=/dev/null: for hosts
    /// reached through a tunnel on 127.0.0.1, whose key changes per target.
    pub skip_host_key_check: bool,
    /// Extra ssh flags, whitespace separated (e.g. "-A -o Compression=yes").
    pub extra_args: String,
    /// Name of a tunnel that must be up before connecting. Empty = none.
    pub depends_on: String,
    /// VPN profile that must be active first. Empty = none, `*` = any profile.
    pub requires_vpn: String,
}

impl Clone for SshHost {
    fn clone(&self) -> (r: Self)
        ensures
            r == *self,
    {
        SshHost {
            name: self.name.clone(),
            group: self.group.clone(),
            host: self.host.clone(),
            port: self.port,
            username: self.username.clone(),
            key_path: self.key_path.clone(),
            password: self.password.clone(),
            skip_host_key_check: self.skip_host_key_check,
            extra_args: self.extra_args.clone(),
            depends_on: self.depends_on.clone(),
            requires_vpn: self.requires_vpn.clone(),
        }
    }
}

pub fn default_ssh_port() -> (r: u16)
    ensures
        r == 22,
{
    22
}

impl SshHost {
    pub open spec fn destination_spec(&self) -> Seq<char> {
        if self.username@.len() == 0 {
            self.host@
        } else {
            self.username@ + "@"@ + self.host@
        }
    }

    pub fn target_summary(&self) -> (r: String)
        ensures
            r@ == self.destination_spec() + ":"@ + decimal(self.port as nat),
    {
        cat3(self.destination().as_str(), ":", number::write(self.port as u64).as_str())
    }

    /// The `[user@]host` argument handed to ssh.
    pub fn destination(&self) -> (r: String)
        ensures
            r@ == self.destination_spec(),
    {
        if self.username.as_str().is_empty() {
            self.host.clone()
        } else {
            cat3(self.username.as_str(), "@", self.host.as_str())
        }
    }

    pub open spec fn auth_spec(&self) -> Seq<char> {
        if self.key_path@.len() > 0 && self.password@.len() > 0 {
            "key "@ + self.key_path@ + " + password"@
        } else if self.key_path@.len() > 0 {
            "key "@ + self.key_path@
        } else if self.password@.len() > 0 {
            "stored password"@
        } else {
            "agent / ssh_config"@
        }
    }

    /// How the login authenticates. The password itself is never part of it.
    pub fn auth_summary(&self) -> (r: String)
        ensures
            r@ == self.auth_spec(),
    {
        if !self.key_path.as_str().is_empty() {
            if !self.password.as_str().is_empty() {
                cat3("key ", self.key_path.as_str(), " + password")
            } else {
                cat("key ", self.key_path.as_str())
            }
        } else if !self.password.as_str().is_empty() {
            "stored password".to_owned()
        } else {
            "agent / ssh_config".to_owned()
        }
    }

    pub fn required(&self) -> (r: Requires)
        ensures
            r.vpn@ == self.requires_vpn@,
            r.tunnel@ == self.depends_on@,
    {
        Requires { vpn: self.requires_vpn.clone(), tunnel: self.depends_on.clone() }
    }
}

impl RdpConnection {
    pub fn required(&self) -> (r: Requires)
        ensures
            r.vpn@ == self.requires_vpn@,
            r.tunnel@ == self.depends_on@,
    {
        Requires { vpn: self.requires_vpn.clone(), tunnel: self.depends_on.clone() }
    }
}

// ---------------------------------------------------------------------------
// VPN requirements
// ---------------------------------------------------------------------------

/// A VPN requirement of "anything, just be connected".
pub const VPN_ANY: &'static str = "*";

/// What a connection means when it names a VPN.
///
/// Written as `provider:profile`, where either half may be `*`:
///
/// | written | means |
/// |---|---|
/// | `""` | nothing |
/// | `"*"` | any provider, connected |
/// | `"netbird:*"` | any netbird profile |
/// | `"wireguard:home"` | that profile |
/// | `"work"` | netbird's, from before there was more than one provider |
#[derive(Debug)]
pub struct VpnRequirement {
    /// `None` = any provider will do.
    pub provider: Option<ProviderId>,
    /// `None` = any profile of that provider will do.
    pub profile: Option<String>,
}

/// A requirement, with the profile as text.
pub struct Need {
    pub provider: Option<ProviderId>,
    pub profile: Option<Seq<char>>,
}

impl View for VpnRequirement {
    type V = Need;

    open spec fn view(&self) -> Need {
        Need {
            provider: self.provider,
            profile: match self.profile {
                Some(s) => Some(s@),
                None => None,
            },
        }
    }
}

/// How a requirement is written in config files and carried in a plan step.
pub open spec fn canonical_of(n: Need) -> Seq<char> {
    match n.provider {
        None => "*"@,
        Some(p) => match n.profile {
            None => p.slug_spec() + ":"@ + "*"@,
            Some(name) => p.slug_spec() + ":"@ + name,
        },
    }
}

/// How a requirement reads in the UI.
pub open spec fn label_of(n: Need) -> Seq<char> {
    match n.provider {
        None => "any VPN"@,
        Some(p) => match n.profile {
            None => p.slug_spec() + " (any profile)"@,
            Some(name) => p.slug_spec() + ": "@ + name,
        },
    }
}

impl VpnRequirement {
    /// How it is written in config files and carried in a plan step.
    pub fn canonical(&self) -> (r: String)
        ensures
            r@ == canonical_of(self@),
    {
        match self.provider {
            None => "*".to_owned(),
            Some(p) => match &self.profile {
                None => cat3(p.slug(), ":", "*"),
                Some(name) => cat3(p.slug(), ":", name.as_str()),
            },
        }
    }

    /// How it reads in the UI.
    pub fn label(&self) -> (r: String)
        ensures
            r@ == label_of(self@),
    {
        match self.provider {
            None => "any VPN".to_owned(),
            Some(p) => match &self.profile {
                None => cat(p.slug(), " (any profile)"),
                Some(name) => cat3(p.slug(), ": ", name.as_str()),
            },
        }
    }
}

/// A profile as it is written after the colon: `*` and nothing mean any.
pub open spec fn profile_need(profile: Seq<char>) -> Option<Seq<char>> {
    if profile == "*"@ || profile.len() == 0 {
        None
    } else {
        Some(profile)
    }
}

/// What a `requires_vpn` value asks for; `None` for "no VPN needed".
pub open spec fn need_of(req: Seq<char>) -> Option<Need> {
    let req = trimmed(req);
    if req.len() == 0 {
        None
    } else if req == "*"@ {
        Some(Need { provider: None, profile: None })
    } else {
        match split_once_at(req, ':') {
            Some((slug, rest)) => match ProviderId::from_slug_spec(slug) {
                Some(p) => Some(
                    Need { provider: Some(p), profile: profile_need(trimmed(rest)) },
                ),
                None => Some(
                    Need { provider: Some(ProviderId::Netbird), profile: profile_need(req) },
                ),
            },
            None => Some(Need { provider: Some(ProviderId::Netbird), profile: profile_need(req) }),
        }
    }
}

/// Read a `requires_vpn` value. `None` for "no VPN needed".
///
/// An unqualified name is netbird's, because that is what it meant when netbird
/// was the only provider and existing config files are full of them.
pub fn parse_vpn_requirement(req: &str) -> (r: Option<VpnRequirement>)
    ensures
        r is None <==> need_of(req@) is None,
        r is Some ==> r->0@ == need_of(req@)->0,
{
    let req = text::trim(req);
    if req.as_str().is_empty() {
        return None;
    }
    if text::same(req.as_str(), "*") {
        return Some(VpnRequirement { provider: None, profile: None });
    }
    // A prefix that is no provider is part of the name: the requirement is
    // kept rather than silently dropped.
    let (provider, profile) = match split::split_once(req.as_str(), ':') {
        Some((slug, rest)) => match ProviderId::from_slug(slug.as_str()) {
            Some(p) => (p, text::trim(rest.as_str())),
            None => (ProviderId::Netbird, req),
        },
        None => (ProviderId::Netbird, req),
    };
    if text::same(profile.as_str(), "*") || profile.as_str().is_empty() {
        Some(VpnRequirement { provider: Some(provider), profile: None })
    } else {
        Some(VpnRequirement { provider: Some(provider), profile: Some(profile) })
    }
}

/// The stored form of a requirement, with every spelling made one.
pub open spec fn canonical_text(req: Seq<char>) -> Seq<char> {
    match need_of(req) {
        Some(n) => canonical_of(n),
        None => Seq::empty(),
    }
}

/// The stored form of a requirement, with legacy spellings normalised.
pub fn canonical_vpn_requirement(req: &str) -> (r: String)
    ensures
        r@ == canonical_text(req@),
{
    match parse_vpn_requirement(req) {
        Some(n) => n.canonical(),
        None => String::new(),
    }
}

/// How a VPN requirement reads in the UI.
pub open spec fn requirement_label_text(req: Seq<char>) -> Seq<char> {
    match need_of(req) {
        Some(n) => label_of(n),
        None => "\u{2014}"@,
    }
}

pub fn vpn_requirement_label(req: &str) -> (r: String)
    ensures
        r@ == requirement_label_text(req@),
{
    match parse_vpn_requirement(req) {
        Some(n) => n.label(),
        None => "\u{2014}".to_owned(),
    }
}

/// A requirement that was read is well formed: its profile is neither empty nor
/// `*` and carries no white space round it, and without a provider there is none.
pub open spec fn need_ok(n: Need) -> bool {
    &&& n.provider is None ==> n.profile is None
    &&& n.profile is Some ==> (n.profile->0).len() > 0 && n.profile->0 != "*"@
    &&& n.profile is Some ==> trimmed(n.profile->0) == n.profile->0
}

pub proof fn lemma_need_ok(req: Seq<char>)
    ensures
        need_of(req) is Some ==> need_ok(need_of(req)->0),
{
    let t = trimmed(req);
    lemma_trimmed(req);
    match split_once_at(t, ':') {
        Some((slug, rest)) => {
            lemma_trimmed(rest);
        },
        None => {},
    }
}

/// Writing a requirement down and reading it again gives the requirement back.
pub proof fn law_requirement_round_trip(n: Need)
    requires
        need_ok(n),
    ensures
        need_of(canonical_of(n)) == Some(n),
{
    reveal_strlit("*");
    reveal_strlit(":");
    let s = canonical_of(n);
    match n.provider {
        None => {
            lemma_trimmed_already(s);
        },
        Some(p) => {
            lemma_slug_plain(p);
            let slug = p.slug_spec();
            let rest = match n.profile {
                None => "*"@,
                Some(name) => name,
            };
            assert(s =~= slug + seq![':'] + rest);
            lemma_trimmed(rest);
            assert(rest.len() > 0);
            assert(trimmed(rest) == rest) by {
                if n.profile is None {
                    lemma_trimmed_already(rest);
                }
            }
            assert(s[0] == slug[0]);
            assert(s.last() == rest.last());
            lemma_trimmed_already(s);
            assert(s.len() > 1);
            assert forall|i: int| 0 <= i < slug.len() implies s[i] != ':' by {
                assert(s[i] == slug[i]);
            }
            assert(s[slug.len() as int] == ':');
            lemma_first_of_is(s, ':', slug.len() as int);
            assert(s.take(slug.len() as int) =~= slug);
            assert(s.skip(slug.len() as int + 1) =~= rest);
            law_slug_round_trip(p);
        },
    }
}

/// Normalising a requirement a second time changes nothing, and never changes
/// what it asks for.
pub proof fn law_canonical_is_stable(req: Seq<char>)
    ensures
        canonical_text(canonical_text(req)) == canonical_text(req),
        need_of(canonical_text(req)) == need_of(req),
{
    lemma_need_ok(req);
    match need_of(req) {
        Some(n) => {
            law_requirement_round_trip(n);
        },
        None => {
            assert(trimmed(Seq::<char>::empty()) =~= Seq::<char>::empty());
        },
    }
}

/// A bare name and the same name qualified with netbird are one requirement.
pub proof fn law_bare_name_is_netbirds(name: Seq<char>)
    requires
        name.len() > 0,
        name != "*"@,
        trimmed(name) == name,
        !name.contains(':'),
    ensures
        canonical_text(name) == "netbird"@ + ":"@ + name,
        need_of(name) == need_of("netbird"@ + ":"@ + name),
{
    assert forall|i: int| 0 <= i < name.len() implies name[i] != ':' by {
        assert(name.contains(name[i]));
    }
    lemma_first_of_is(name, ':', name.len() as int);
    law_canonical_is_stable(name);
}

/// What a connection needs before it can start.
#[derive(Debug)]
pub struct Requires {
    pub vpn: String,
    pub tunnel: String,
}

impl Default for Requires {
    fn default() -> (r: Self)
        ensures
            r.vpn@.len() == 0,
            r.tunnel@.len() == 0,
    {
        Requires { vpn: String::new(), tunnel: String::new() }
    }
}

/// `Some(reason)` when `a` and `b` would fight over the same bound endpoint.
pub fn tunnel_conflict(a: &Tunnel, b: &Tunnel) -> (r: Option<String>)
    ensures
        r is Some <==> a.binding_spec() == b.binding_spec(),
        r is Some ==> r->0@ == a.binding_spec(),
{
    let binding_a = a.binding();
    let binding_b = b.binding();
    if text::same(binding_a.as_str(), binding_b.as_str()) {
        Some(binding_a)
    } else {
        None
    }
}

/// The endpoint a tunnel binds: the port, and the host for a remote forward.
pub open spec fn endpoint(t: Tunnel) -> (int, Option<Seq<char>>) {
    match t.forward {
        ForwardType::Remote => (t.remote_port as int, Some(t.ssh_host@)),
        _ => (t.local_port as int, None),
    }
}

proof fn lemma_digits_then_space(a: Seq<char>, b: Seq<char>, x: Seq<char>, y: Seq<char>)
    requires
        number::all_digits(a),
        number::all_digits(b),
        a + seq![' '] + x == b + seq![' '] + y,
    ensures
        a == b,
        x == y,
{
    let s = a + seq![' '] + x;
    let t = b + seq![' '] + y;
    assert(s[a.len() as int] == ' ');
    assert(t[b.len() as int] == ' ');
    if a.len() < b.len() {
        assert(t[a.len() as int] == b[a.len() as int]);
        assert(text::is_digit(b[a.len() as int]));
    }
    if b.len() < a.len() {
        assert(s[b.len() as int] == a[b.len() as int]);
        assert(text::is_digit(a[b.len() as int]));
    }
    assert(a =~= s.take(a.len() as int));
    assert(b =~= t.take(b.len() as int));
    assert(x =~= s.skip(a.len() as int + 1));
    assert(y =~= t.skip(b.len() as int + 1));
}

/// Two tunnels are in conflict exactly where they bind the same endpoint: the
/// same local port, or the same port on the same ssh host. A local port and a
/// port on an ssh host never collide, and the relation is symmetric.
pub proof fn law_conflict_is_same_endpoint(a: Tunnel, b: Tunnel)
    ensures
        a.binding_spec() == b.binding_spec() <==> endpoint(a) == endpoint(b),
{
    reveal_strlit("local port ");
    reveal_strlit("port ");
    reveal_strlit(" on ");
    let x = a.binding_spec();
    let y = b.binding_spec();
    number::lemma_decimal_reads_back(a.local_port as nat);
    number::lemma_decimal_reads_back(a.remote_port as nat);
    number::lemma_decimal_reads_back(b.local_port as nat);
    number::lemma_decimal_reads_back(b.remote_port as nat);
    let ra = a.forward == ForwardType::Remote;
    let rb = b.forward == ForwardType::Remote;
    if ra != rb {
        if ra {
            assert(x[0] == 'p');
            assert(y[0] == 'l');
        } else {
            assert(x[0] == 'l');
            assert(y[0] == 'p');
        }
    } else if !ra {
        if x == y {
            let p = decimal(a.local_port as nat);
            let q = decimal(b.local_port as nat);
            assert(p =~= x.skip(11));
            assert(q =~= y.skip(11));
            number::lemma_decimal_injective(a.local_port as nat, b.local_port as nat);
        }
    } else {
        let p = decimal(a.remote_port as nat);
        let q = decimal(b.remote_port as nat);
        let on = seq!['o', 'n', ' '];
        if x == y {
            assert(x.skip(5) =~= p + seq![' '] + (on + a.ssh_host@));
            assert(y.skip(5) =~= q + seq![' '] + (on + b.ssh_host@));
            lemma_digits_then_space(p, q, on + a.ssh_host@, on + b.ssh_host@);
            assert(a.ssh_host@ =~= (on + a.ssh_host@).skip(3));
            assert(b.ssh_host@ =~= (on + b.ssh_host@).skip(3));
            number::lemma_decimal_injective(a.remote_port as nat, b.remote_port as nat);
        }
    }
}

// ---------------------------------------------------------------------------
// VPN profiles kept in `vpn.toml`
// ---------------------------------------------------------------------------

/// A WireGuard peer. Unless `config_path` points at a config someone else
/// manages, these fields are the source of truth and the `.conf` handed to
/// `wg-quick` is generated from them.
#[derive(Debug)]
pub struct WireguardProfile {
    /// Also the interface name, so it has to be a valid one.
    pub name: String,
    /// An externally managed `.conf` to use as-is. Empty = generate one.
    pub config_path: String,
    /// CLEARTEXT, like the ssh password: vpn.toml is written 0600.
    pub private_key: String,
    /// This end's address inside the tunnel, e.g. "10.0.0.2/24".
    pub address: String,
    /// Needs resolvconf/openresolv on PATH; empty = leave DNS alone.
    pub dns: String,
    /// 0 = let the kernel pick.
    pub listen_port: u16,
    /// 0 = default.
    pub mtu: u16,
    pub peer_public_key: String,
    pub preshared_key: String,
    /// "host:port" of the peer.
    pub endpoint: String,
    pub allowed_ips: String,
    /// 0 = off. 25 is the usual value behind NAT.
    pub persistent_keepalive: u16,
}

impl WireguardProfile {
    /// It runs from a `.conf` kept elsewhere.
    pub fn external(&self) -> (r: bool)
        ensures
            r == (self.config_path@.len() > 0),
    {
        !self.config_path.as_str().is_empty()
    }
}

impl Clone for WireguardProfile {
    fn clone(&self) -> (r: Self)
        ensures
            r == *self,
    {
        WireguardProfile {
            name: self.name.clone(),
            config_path: self.config_path.clone(),
            private_key: self.private_key.clone(),
            address: self.address.clone(),
            dns: self.dns.clone(),
            listen_port: self.listen_port,
            mtu: self.mtu,
            peer_public_key: self.peer_public_key.clone(),
            preshared_key: self.preshared_key.clone(),
            endpoint: self.endpoint.clone(),
            allowed_ips: self.allowed_ips.clone(),
            persistent_keepalive: self.persistent_keepalive,
        }
    }
}

impl Default for WireguardProfile {
    fn default() -> (r: Self)
        ensures
            r.name@.len() == 0 && r.config_path@.len() == 0 && r.private_key@.len() == 0,
            r.address@.len() == 0 && r.dns@.len() == 0 && r.peer_public_key@.len() == 0,
            r.preshared_key@.len() == 0 && r.endpoint@.len() == 0 && r.allowed_ips@.len() == 0,
            r.listen_port == 0 && r.mtu == 0 && r.persistent_keepalive == 0,
    {
        WireguardProfile {
            name: String::new(),
            config_path: String::new(),
            private_key: String::new(),
            address: String::new(),
            dns: String::new(),
            listen_port: 0,
            mtu: 0,
            peer_public_key: String::new(),
            preshared_key: String::new(),
            endpoint: String::new(),
            allowed_ips: String::new(),
            persistent_keepalive: 0,
        }
    }
}

pub fn default_allowed_ips() -> (r: String)
    ensures
        r@ == "0.0.0.0/0, ::/0"@,
{
    "0.0.0.0/0, ::/0".to_owned()
}

/// An OpenVPN connection, backed by a `.ovpn` file.
#[derive(Debug)]
pub struct OpenvpnProfile {
    /// Also the name of the directory the imported copy lives in.
    pub name: String,
    /// The `.ovpn` this profile came from.
    pub config_path: String,
    /// Copy the config and every certificate it names into controlcenter's own
    /// directory, so the profile keeps working once the download folder is gone.
    /// False runs `config_path` where it sits.
    pub import: bool,
    /// Empty = the config does not use user/password auth.
    pub username: String,
    /// CLEARTEXT. Fed to openvpn on stdin, never on the command line.
    pub password: String,
    /// Extra openvpn flags, whitespace separated.
    pub extra_args: String,
}

impl Clone for OpenvpnProfile {
    fn clone(&self) -> (r: Self)
        ensures
            r == *self,
    {
        OpenvpnProfile {
            name: self.name.clone(),
            config_path: self.config_path.clone(),
            import: self.import,
            username: self.username.clone(),
            password: self.password.clone(),
            extra_args: self.extra_args.clone(),
        }
    }
}

impl Default for OpenvpnProfile {
    fn default() -> (r: Self)
        ensures
            r.name@.len() == 0 && r.config_path@.len() == 0 && r.username@.len() == 0,
            r.password@.len() == 0 && r.extra_args@.len() == 0,
            r.import,
    {
        OpenvpnProfile {
            name: String::new(),
            config_path: String::new(),
            import: true,
            username: String::new(),
            password: String::new(),
            extra_args: String::new(),
        }
    }
}

/// A named set of `tailscale up` flags. Tailscale has no profile concept of its
/// own, so a profile here is the state `up` is asked to put the node in.
#[derive(Debug)]
pub struct TailscaleProfile {
    pub name: String,
    /// Headscale or another coordination server. Empty = Tailscale's own.
    pub login_server: String,
    /// Exit node by IP or name. Empty = none.
    pub exit_node: String,
    pub exit_node_allow_lan: bool,
    pub accept_routes: bool,
    pub accept_dns: bool,
    pub ssh: bool,
    pub shields_up: bool,
    /// Empty = leave the machine name alone.
    pub hostname: String,
    /// Comma separated CIDRs to advertise as a subnet router.
    pub advertise_routes: String,
    pub advertise_exit_node: bool,
    pub extra_args: String,
}

impl Clone for TailscaleProfile {
    fn clone(&self) -> (r: Self)
        ensures
            r == *self,
    {
        TailscaleProfile {
            name: self.name.clone(),
            login_server: self.login_server.clone(),
            exit_node: self.exit_node.clone(),
            exit_node_allow_lan: self.exit_node_allow_lan,
            accept_routes: self.accept_routes,
            accept_dns: self.accept_dns,
            ssh: self.ssh,
            shields_up: self.shields_up,
            hostname: self.hostname.clone(),
            advertise_routes: self.advertise_routes.clone(),
            advertise_exit_node: self.advertise_exit_node,
            extra_args: self.extra_args.clone(),
        }
    }
}

impl Default for TailscaleProfile {
    fn default() -> (r: Self)
        ensures
            r.name@.len() == 0 && r.login_server@.len() == 0 && r.exit_node@.len() == 0,
            r.hostname@.len() == 0 && r.advertise_routes@.len() == 0 && r.extra_args@.len() == 0,
            r.accept_routes && r.accept_dns,
            !r.exit_node_allow_lan && !r.ssh && !r.shields_up && !r.advertise_exit_node,
    {
        TailscaleProfile {
            name: String::new(),
            login_server: String::new(),
            exit_node: String::new(),
            exit_node_allow_lan: false,
            accept_routes: true,
            accept_dns: true,
            ssh: false,
            shields_up: false,
            hostname: String::new(),
            advertise_routes: String::new(),
            advertise_exit_node: false,
            extra_args: String::new(),
        }
    }
}

/// Everything in `vpn.toml`. NetBird is absent on purpose: its profiles live in
/// netbird itself and are only ever read.
#[derive(Debug)]
pub struct VpnConfig {
    pub wireguard: Vec<WireguardProfile>,
    pub openvpn: Vec<OpenvpnProfile>,
    pub tailscale: Vec<TailscaleProfile>,
}

impl Default for VpnConfig {
    fn default() -> (r: Self)
        ensures
            r.wireguard@.len() == 0 && r.openvpn@.len() == 0 && r.tailscale@.len() == 0,
    {
        VpnConfig { wireguard: Vec::new(), openvpn: Vec::new(), tailscale: Vec::new() }
    }
}

}
