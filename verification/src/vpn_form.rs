//! The form a VPN profile is added or edited with.
//!
//! The three clients whose profiles are kept here have very different fields
//! but identical form behaviour, so they share one table-driven form rather
//! than three near-copies.

use vstd::prelude::*;
use crate::number::{self, decimal, parsed};
use crate::path::{self, opt_text, under_home, Os};
use crate::picker::Picker;
use crate::split;
use crate::text::{self, cat, trimmed};
use crate::types::{OpenvpnProfile, TailscaleProfile, WireguardProfile};
use crate::vpn::ProviderId;

verus! {

/// A field of a VPN profile.
#[derive(Debug, Clone, Copy, PartialEq, Eq, Structural)]
pub enum VpnKey {
    Name,
    ConfigPath,
    PrivateKey,
    Address,
    Dns,
    ListenPort,
    Mtu,
    PeerPublicKey,
    PresharedKey,
    Endpoint,
    AllowedIps,
    PersistentKeepalive,
    Import,
    Username,
    Password,
    ExtraArgs,
    LoginServer,
    ExitNode,
    ExitNodeAllowLan,
    AcceptRoutes,
    AcceptDns,
    Ssh,
    ShieldsUp,
    Hostname,
    AdvertiseRoutes,
    AdvertiseExitNode,
}

impl VpnKey {
    pub open spec fn id_spec(self) -> Seq<char> {
        match self {
            VpnKey::Name => "name"@,
            VpnKey::ConfigPath => "config_path"@,
            VpnKey::PrivateKey => "private_key"@,
            VpnKey::Address => "address"@,
            VpnKey::Dns => "dns"@,
            VpnKey::ListenPort => "listen_port"@,
            VpnKey::Mtu => "mtu"@,
            VpnKey::PeerPublicKey => "peer_public_key"@,
            VpnKey::PresharedKey => "preshared_key"@,
            VpnKey::Endpoint => "endpoint"@,
            VpnKey::AllowedIps => "allowed_ips"@,
            VpnKey::PersistentKeepalive => "persistent_keepalive"@,
            VpnKey::Import => "import"@,
            VpnKey::Username => "username"@,
            VpnKey::Password => "password"@,
            VpnKey::ExtraArgs => "extra_args"@,
            VpnKey::LoginServer => "login_server"@,
            VpnKey::ExitNode => "exit_node"@,
            VpnKey::ExitNodeAllowLan => "exit_node_allow_lan"@,
            VpnKey::AcceptRoutes => "accept_routes"@,
            VpnKey::AcceptDns => "accept_dns"@,
            VpnKey::Ssh => "ssh"@,
            VpnKey::ShieldsUp => "shields_up"@,
            VpnKey::Hostname => "hostname"@,
            VpnKey::AdvertiseRoutes => "advertise_routes"@,
            VpnKey::AdvertiseExitNode => "advertise_exit_node"@,
        }
    }

    /// The config field it maps to.
    pub fn id(self) -> (r: &'static str)
        ensures
            r@ == self.id_spec(),
    {
        match self {
            VpnKey::Name => "name",
            VpnKey::ConfigPath => "config_path",
            VpnKey::PrivateKey => "private_key",
            VpnKey::Address => "address",
            VpnKey::Dns => "dns",
            VpnKey::ListenPort => "listen_port",
            VpnKey::Mtu => "mtu",
            VpnKey::PeerPublicKey => "peer_public_key",
            VpnKey::PresharedKey => "preshared_key",
            VpnKey::Endpoint => "endpoint",
            VpnKey::AllowedIps => "allowed_ips",
            VpnKey::PersistentKeepalive => "persistent_keepalive",
            VpnKey::Import => "import",
            VpnKey::Username => "username",
            VpnKey::Password => "password",
            VpnKey::ExtraArgs => "extra_args",
            VpnKey::LoginServer => "login_server",
            VpnKey::ExitNode => "exit_node",
            VpnKey::ExitNodeAllowLan => "exit_node_allow_lan",
            VpnKey::AcceptRoutes => "accept_routes",
            VpnKey::AcceptDns => "accept_dns",
            VpnKey::Ssh => "ssh",
            VpnKey::ShieldsUp => "shields_up",
            VpnKey::Hostname => "hostname",
            VpnKey::AdvertiseRoutes => "advertise_routes",
            VpnKey::AdvertiseExitNode => "advertise_exit_node",
        }
    }

    /// The key of that config field.
    pub open spec fn of_spec(id: Seq<char>) -> Option<VpnKey> {
        if id == "name"@ {
            Some(VpnKey::Name)
        } else if id == "config_path"@ {
            Some(VpnKey::ConfigPath)
        } else if id == "private_key"@ {
            Some(VpnKey::PrivateKey)
        } else if id == "address"@ {
            Some(VpnKey::Address)
        } else if id == "dns"@ {
            Some(VpnKey::Dns)
        } else if id == "listen_port"@ {
            Some(VpnKey::ListenPort)
        } else if id == "mtu"@ {
            Some(VpnKey::Mtu)
        } else if id == "peer_public_key"@ {
            Some(VpnKey::PeerPublicKey)
        } else if id == "preshared_key"@ {
            Some(VpnKey::PresharedKey)
        } else if id == "endpoint"@ {
            Some(VpnKey::Endpoint)
        } else if id == "allowed_ips"@ {
            Some(VpnKey::AllowedIps)
        } else if id == "persistent_keepalive"@ {
            Some(VpnKey::PersistentKeepalive)
        } else if id == "import"@ {
            Some(VpnKey::Import)
        } else if id == "username"@ {
            Some(VpnKey::Username)
        } else if id == "password"@ {
            Some(VpnKey::Password)
        } else if id == "extra_args"@ {
            Some(VpnKey::ExtraArgs)
        } else if id == "login_server"@ {
            Some(VpnKey::LoginServer)
        } else if id == "exit_node"@ {
            Some(VpnKey::ExitNode)
        } else if id == "exit_node_allow_lan"@ {
            Some(VpnKey::ExitNodeAllowLan)
        } else if id == "accept_routes"@ {
            Some(VpnKey::AcceptRoutes)
        } else if id == "accept_dns"@ {
            Some(VpnKey::AcceptDns)
        } else if id == "ssh"@ {
            Some(VpnKey::Ssh)
        } else if id == "shields_up"@ {
            Some(VpnKey::ShieldsUp)
        } else if id == "hostname"@ {
            Some(VpnKey::Hostname)
        } else if id == "advertise_routes"@ {
            Some(VpnKey::AdvertiseRoutes)
        } else if id == "advertise_exit_node"@ {
            Some(VpnKey::AdvertiseExitNode)
        } else {
            None
        }
    }

    pub fn of(id: &str) -> (r: Option<VpnKey>)
        ensures
            r == Self::of_spec(id@),
    {
        if text::same(id, "name") {
            Some(VpnKey::Name)
        } else if text::same(id, "config_path") {
            Some(VpnKey::ConfigPath)
        } else if text::same(id, "private_key") {
            Some(VpnKey::PrivateKey)
        } else if text::same(id, "address") {
            Some(VpnKey::Address)
        } else if text::same(id, "dns") {
            Some(VpnKey::Dns)
        } else if text::same(id, "listen_port") {
            Some(VpnKey::ListenPort)
        } else if text::same(id, "mtu") {
            Some(VpnKey::Mtu)
        } else if text::same(id, "peer_public_key") {
            Some(VpnKey::PeerPublicKey)
        } else if text::same(id, "preshared_key") {
            Some(VpnKey::PresharedKey)
        } else if text::same(id, "endpoint") {
            Some(VpnKey::Endpoint)
        } else if text::same(id, "allowed_ips") {
            Some(VpnKey::AllowedIps)
        } else if text::same(id, "persistent_keepalive") {
            Some(VpnKey::PersistentKeepalive)
        } else if text::same(id, "import") {
            Some(VpnKey::Import)
        } else if text::same(id, "username") {
            Some(VpnKey::Username)
        } else if text::same(id, "password") {
            Some(VpnKey::Password)
        } else if text::same(id, "extra_args") {
            Some(VpnKey::ExtraArgs)
        } else if text::same(id, "login_server") {
            Some(VpnKey::LoginServer)
        } else if text::same(id, "exit_node") {
            Some(VpnKey::ExitNode)
        } else if text::same(id, "exit_node_allow_lan") {
            Some(VpnKey::ExitNodeAllowLan)
        } else if text::same(id, "accept_routes") {
            Some(VpnKey::AcceptRoutes)
        } else if text::same(id, "accept_dns") {
            Some(VpnKey::AcceptDns)
        } else if text::same(id, "ssh") {
            Some(VpnKey::Ssh)
        } else if text::same(id, "shields_up") {
            Some(VpnKey::ShieldsUp)
        } else if text::same(id, "hostname") {
            Some(VpnKey::Hostname)
        } else if text::same(id, "advertise_routes") {
            Some(VpnKey::AdvertiseRoutes)
        } else if text::same(id, "advertise_exit_node") {
            Some(VpnKey::AdvertiseExitNode)
        } else {
            None
        }
    }

    /// Toggled with ◂ ▸ instead of typed into.
    pub open spec fn flag_spec(self) -> bool {
        match self {
            VpnKey::Import
            | VpnKey::ExitNodeAllowLan
            | VpnKey::AcceptRoutes
            | VpnKey::AcceptDns
            | VpnKey::Ssh
            | VpnKey::ShieldsUp
            | VpnKey::AdvertiseExitNode => true,
            _ => false,
        }
    }

    /// Masked in the form and a reason to warn before saving.
    pub open spec fn secret_spec(self) -> bool {
        self == VpnKey::PrivateKey || self == VpnKey::PresharedKey || self == VpnKey::Password
    }
}

/// One line of a VPN profile form.
#[derive(Debug, Clone, Copy)]
pub struct VpnFieldSpec {
    pub key: VpnKey,
    /// The config field it maps to.
    pub id: &'static str,
    pub label: &'static str,
    /// Toggled with ◂ ▸ instead of typed into.
    pub flag: bool,
    /// Masked in the form and a reason to warn before saving.
    pub secret: bool,
}

impl VpnFieldSpec {
    /// The marks of a line are those of its key.
    pub open spec fn wf(self) -> bool {
        &&& self.id@ == self.key.id_spec()
        &&& self.flag == self.key.flag_spec()
        &&& self.secret == self.key.secret_spec()
    }
}

fn text_line(key: VpnKey, label: &'static str) -> (r: VpnFieldSpec)
    requires
        !key.flag_spec() && !key.secret_spec(),
    ensures
        r.wf() && r.key == key && r.label == label,
{
    VpnFieldSpec { key, id: key.id(), label, flag: false, secret: false }
}

fn secret_line(key: VpnKey, label: &'static str) -> (r: VpnFieldSpec)
    requires
        key.secret_spec(),
    ensures
        r.wf() && r.key == key && r.label == label,
{
    VpnFieldSpec { key, id: key.id(), label, flag: false, secret: true }
}

fn flag_line(key: VpnKey, label: &'static str) -> (r: VpnFieldSpec)
    requires
        key.flag_spec(),
    ensures
        r.wf() && r.key == key && r.label == label,
{
    VpnFieldSpec { key, id: key.id(), label, flag: true, secret: false }
}

/// The lines of a client's form: the keys and what they are called. NetBird's
/// profiles live in netbird; there is nothing to edit here.
pub open spec fn form_lines(p: ProviderId) -> Seq<(VpnKey, &'static str)> {
    match p {
        ProviderId::Netbird => Seq::empty(),
        ProviderId::Wireguard => seq![
            (VpnKey::Name, "Name (also the interface)"),
            (VpnKey::ConfigPath, "Existing .conf (optional)"),
            (VpnKey::PrivateKey, "Private key (g generates)"),
            (VpnKey::Address, "Address, e.g. 10.0.0.2/24"),
            (VpnKey::Dns, "DNS (optional, needs resolvconf)"),
            (VpnKey::ListenPort, "Listen port (0 = any)"),
            (VpnKey::Mtu, "MTU (0 = default)"),
            (VpnKey::PeerPublicKey, "Peer public key"),
            (VpnKey::PresharedKey, "Preshared key (optional)"),
            (VpnKey::Endpoint, "Endpoint host:port"),
            (VpnKey::AllowedIps, "Allowed IPs"),
            (VpnKey::PersistentKeepalive, "Keepalive secs (0 = off)"),
        ],
        ProviderId::Openvpn => seq![
            (VpnKey::Name, "Name"),
            (VpnKey::ConfigPath, "Config file (.ovpn, ~ ok)"),
            (VpnKey::Import, "Import it and its certificates"),
            (VpnKey::Username, "Username (optional)"),
            (VpnKey::Password, "Password (optional, cleartext!)"),
            (VpnKey::ExtraArgs, "Extra openvpn args (optional)"),
        ],
        ProviderId::Tailscale => seq![
            (VpnKey::Name, "Name"),
            (VpnKey::LoginServer, "Login server (optional, Headscale)"),
            (VpnKey::ExitNode, "Exit node (optional)"),
            (VpnKey::ExitNodeAllowLan, "Allow LAN access via exit node"),
            (VpnKey::AcceptRoutes, "Accept subnet routes"),
            (VpnKey::AcceptDns, "Accept MagicDNS"),
            (VpnKey::Ssh, "Enable Tailscale SSH"),
            (VpnKey::ShieldsUp, "Shields up (block incoming)"),
            (VpnKey::Hostname, "Hostname (optional)"),
            (VpnKey::AdvertiseRoutes, "Advertise routes (optional)"),
            (VpnKey::AdvertiseExitNode, "Advertise as an exit node"),
            (VpnKey::ExtraArgs, "Extra tailscale args (optional)"),
        ],
    }
}

/// The table and the lines say the same.
pub open spec fn lists(v: Seq<VpnFieldSpec>, lines: Seq<(VpnKey, &'static str)>) -> bool {
    &&& v.len() == lines.len()
    &&& forall|i: int|
        0 <= i < v.len() ==> (#[trigger] v[i]).wf() && v[i].key == lines[i].0 && v[i].label
            == lines[i].1
}

pub fn vpn_fields(provider: ProviderId) -> (r: Vec<VpnFieldSpec>)
    ensures
        lists(r@, form_lines(provider)),
{
    let mut v: Vec<VpnFieldSpec> = Vec::new();
    match provider {
        ProviderId::Netbird => {},
        ProviderId::Wireguard => {
            v.push(text_line(VpnKey::Name, "Name (also the interface)"));
            v.push(text_line(VpnKey::ConfigPath, "Existing .conf (optional)"));
            v.push(secret_line(VpnKey::PrivateKey, "Private key (g generates)"));
            v.push(text_line(VpnKey::Address, "Address, e.g. 10.0.0.2/24"));
            v.push(text_line(VpnKey::Dns, "DNS (optional, needs resolvconf)"));
            v.push(text_line(VpnKey::ListenPort, "Listen port (0 = any)"));
            v.push(text_line(VpnKey::Mtu, "MTU (0 = default)"));
            v.push(text_line(VpnKey::PeerPublicKey, "Peer public key"));
            v.push(secret_line(VpnKey::PresharedKey, "Preshared key (optional)"));
            v.push(text_line(VpnKey::Endpoint, "Endpoint host:port"));
            v.push(text_line(VpnKey::AllowedIps, "Allowed IPs"));
            v.push(text_line(VpnKey::PersistentKeepalive, "Keepalive secs (0 = off)"));
        },
        ProviderId::Openvpn => {
            v.push(text_line(VpnKey::Name, "Name"));
            v.push(text_line(VpnKey::ConfigPath, "Config file (.ovpn, ~ ok)"));
            v.push(flag_line(VpnKey::Import, "Import it and its certificates"));
            v.push(text_line(VpnKey::Username, "Username (optional)"));
            v.push(secret_line(VpnKey::Password, "Password (optional, cleartext!)"));
            v.push(text_line(VpnKey::ExtraArgs, "Extra openvpn args (optional)"));
        },
        ProviderId::Tailscale => {
            v.push(text_line(VpnKey::Name, "Name"));
            v.push(text_line(VpnKey::LoginServer, "Login server (optional, Headscale)"));
            v.push(text_line(VpnKey::ExitNode, "Exit node (optional)"));
            v.push(flag_line(VpnKey::ExitNodeAllowLan, "Allow LAN access via exit node"));
            v.push(flag_line(VpnKey::AcceptRoutes, "Accept subnet routes"));
            v.push(flag_line(VpnKey::AcceptDns, "Accept MagicDNS"));
            v.push(flag_line(VpnKey::Ssh, "Enable Tailscale SSH"));
            v.push(flag_line(VpnKey::ShieldsUp, "Shields up (block incoming)"));
            v.push(text_line(VpnKey::Hostname, "Hostname (optional)"));
            v.push(text_line(VpnKey::AdvertiseRoutes, "Advertise routes (optional)"));
            v.push(flag_line(VpnKey::AdvertiseExitNode, "Advertise as an exit node"));
            v.push(text_line(VpnKey::ExtraArgs, "Extra tailscale args (optional)"));
        },
    }
    v
}

/// The value a list of settings holds for a key: the first one.
pub open spec fn setting<T>(v: Seq<(VpnKey, T)>, k: VpnKey) -> Option<T>
    decreases v.len(),
{
    if v.len() == 0 {
        None
    } else if v[0].0 == k {
        Some(v[0].1)
    } else {
        setting(v.drop_first(), k)
    }
}

proof fn lemma_setting_at<T>(v: Seq<(VpnKey, T)>, k: VpnKey, i: int)
    requires
        0 <= i <= v.len(),
        forall|j: int| 0 <= j < i ==> (#[trigger] v[j]).0 != k,
    ensures
        i == v.len() ==> setting(v, k) is None,
        i < v.len() && v[i].0 == k ==> setting(v, k) == Some(v[i].1),
    decreases v.len(),
{
    if i > 0 {
        let rest = v.drop_first();
        assert(v[0].0 != k);
        assert forall|j: int| 0 <= j < i - 1 implies (#[trigger] rest[j]).0 != k by {
            assert(rest[j] == v[j + 1]);
        }
        lemma_setting_at(rest, k, i - 1);
        if i < v.len() {
            assert(rest[i - 1] == v[i]);
        }
    }
}

/// A list of settings in which the key at `i` has a new value, or in which a new
/// key stands at the end.
pub open spec fn with_setting<T>(v: Seq<(VpnKey, T)>, i: int, k: VpnKey, x: T) -> Seq<(VpnKey, T)> {
    if i < v.len() {
        v.update(i, (k, x))
    } else {
        v.push((k, x))
    }
}

/// Replacing the value of one key, or adding a key at the end, leaves the
/// others alone.
proof fn lemma_setting_changed<T>(v: Seq<(VpnKey, T)>, i: int, k: VpnKey, x: T, other: VpnKey)
    requires
        0 <= i <= v.len(),
        forall|j: int| 0 <= j < i ==> (#[trigger] v[j]).0 != k,
        i < v.len() ==> v[i].0 == k,
    ensures
        setting(with_setting(v, i, k, x), other) == if other == k {
            Some(x)
        } else {
            setting(v, other)
        },
    decreases v.len(),
{
    let w = with_setting(v, i, k, x);
    if v.len() == 0 {
        assert(w.drop_first() =~= Seq::<(VpnKey, T)>::empty());
        assert(setting(w.drop_first(), other) is None);
    } else if i == 0 {
        assert(w.drop_first() =~= v.drop_first());
    } else {
        let rest = v.drop_first();
        assert(v[0].0 != k);
        assert forall|j: int| 0 <= j < i - 1 implies (#[trigger] rest[j]).0 != k by {
            assert(rest[j] == v[j + 1]);
        }
        if i < v.len() {
            assert(rest[i - 1] == v[i]);
        }
        assert(w.drop_first() =~= with_setting(rest, i - 1, k, x));
        lemma_setting_changed(rest, i - 1, k, x, other);
    }
}

/// Where a key stands in a list of settings; the length where it does not.
fn find_key<T>(v: &Vec<(VpnKey, T)>, k: VpnKey) -> (r: usize)
    ensures
        r <= v@.len(),
        forall|j: int| 0 <= j < r ==> (#[trigger] v@[j]).0 != k,
        r < v@.len() ==> v@[r as int].0 == k,
        r < v@.len() ==> setting(v@, k) == Some(v@[r as int].1),
        r == v@.len() ==> setting(v@, k) is None,
{
    let mut i: usize = 0;
    while i < v.len()
        invariant
            i <= v@.len(),
            forall|j: int| 0 <= j < i ==> (#[trigger] v@[j]).0 != k,
        decreases v@.len() - i,
    {
        if v[i].0 == k {
            proof {
                lemma_setting_at(v@, k, i as int);
            }
            return i;
        }
        i = i + 1;
    }
    proof {
        lemma_setting_at(v@, k, i as int);
    }
    i
}

#[derive(Debug)]
pub struct VpnForm {
    pub provider: ProviderId,
    pub field_idx: usize,
    pub words: Vec<(VpnKey, String)>,
    pub flags: Vec<(VpnKey, bool)>,
    pub error: Option<String>,
    /// Set once the cleartext-secret warning has been acknowledged for this edit.
    pub secret_ack: bool,
}

/// A port or another number that may be left out.
pub open spec fn number_in(s: Seq<char>) -> Option<nat> {
    if trimmed(s).len() == 0 {
        Some(0)
    } else {
        parsed(trimmed(s), 65535)
    }
}

impl VpnForm {
    /// What was typed for a key; nothing where nothing was.
    pub open spec fn word(&self, k: VpnKey) -> Seq<char> {
        match setting(self.words@, k) {
            Some(s) => s@,
            None => Seq::empty(),
        }
    }

    /// How a flag stands; down where it was never touched.
    pub open spec fn up(&self, k: VpnKey) -> bool {
        setting(self.flags@, k) == Some(true)
    }

    pub open spec fn line_count(&self) -> nat {
        form_lines(self.provider).len()
    }

    pub fn set(&mut self, k: VpnKey, value: String)
        ensures
            final(self).word(k) == value@,
            forall|other: VpnKey| other != k ==> #[trigger] final(self).word(other) == old(self).word(other),
            *final(self) == (VpnForm { words: final(self).words, ..*old(self) }),
            forall|other: VpnKey| #[trigger] final(self).up(other) == old(self).up(other),
    {
        let i: usize = find_key(&self.words, k);
        let ghost was = self.words@;
        if i < self.words.len() {
            self.words.set(i, (k, value));
        } else {
            self.words.push((k, value));
        }
        proof {
            assert(self.words@ == with_setting(was, i as int, k, value));
            assert forall|other: VpnKey| #[trigger] self.word(other) == if other == k {
                value@
            } else {
                old(self).word(other)
            } by {
                lemma_setting_changed(was, i as int, k, value, other);
            }
        }
    }

    fn set_flag(&mut self, k: VpnKey, value: bool)
        ensures
            final(self).up(k) == value,
            forall|other: VpnKey| other != k ==> #[trigger] final(self).up(other) == old(self).up(other),
            *final(self) == (VpnForm { flags: final(self).flags, ..*old(self) }),
            forall|other: VpnKey| #[trigger] final(self).word(other) == old(self).word(other),
    {
        let i: usize = find_key(&self.flags, k);
        let ghost was = self.flags@;
        if i < self.flags.len() {
            self.flags.set(i, (k, value));
        } else {
            self.flags.push((k, value));
        }
        proof {
            assert(self.flags@ == with_setting(was, i as int, k, value));
            assert forall|other: VpnKey| #[trigger] self.up(other) == if other == k {
                value
            } else {
                old(self).up(other)
            } by {
                lemma_setting_changed(was, i as int, k, value, other);
            }
        }
    }

    /// What an empty form holds for a key.
    pub open spec fn empty_word(p: ProviderId, k: VpnKey) -> Seq<char> {
        if p == ProviderId::Wireguard && k == VpnKey::AllowedIps {
            "0.0.0.0/0, ::/0"@
        } else if p == ProviderId::Wireguard && (k == VpnKey::ListenPort || k == VpnKey::Mtu) {
            "0"@
        } else if p == ProviderId::Wireguard && k == VpnKey::PersistentKeepalive {
            "25"@
        } else {
            Seq::empty()
        }
    }

    /// Which flags are up on an empty form. A downloaded openvpn profile almost
    /// always ships certificates next to the .ovpn, so importing is the
    /// sensible default.
    pub open spec fn empty_flag(p: ProviderId, k: VpnKey) -> bool {
        ||| p == ProviderId::Openvpn && k == VpnKey::Import
        ||| p == ProviderId::Tailscale && (k == VpnKey::AcceptRoutes || k == VpnKey::AcceptDns)
    }

    /// Nothing filled in but what is usual for the client.
    pub open spec fn blank(&self, provider: ProviderId) -> bool {
        &&& self.provider == provider && self.field_idx == 0
        &&& self.error is None && !self.secret_ack
        &&& forall|k: VpnKey| #[trigger] self.word(k) == Self::empty_word(provider, k)
        &&& forall|k: VpnKey| #[trigger] self.up(k) == Self::empty_flag(provider, k)
    }

    pub fn empty(provider: ProviderId) -> (r: Self)
        ensures
            r.blank(provider),
    {
        let mut form = VpnForm {
            provider,
            field_idx: 0,
            words: Vec::new(),
            flags: Vec::new(),
            error: None,
            secret_ack: false,
        };
        match provider {
            ProviderId::Wireguard => {
                form.set(VpnKey::AllowedIps, crate::types::default_allowed_ips());
                form.set(VpnKey::ListenPort, "0".to_owned());
                form.set(VpnKey::Mtu, "0".to_owned());
                form.set(VpnKey::PersistentKeepalive, "25".to_owned());
            },
            ProviderId::Openvpn => {
                form.set_flag(VpnKey::Import, true);
            },
            ProviderId::Tailscale => {
                form.set_flag(VpnKey::AcceptRoutes, true);
                form.set_flag(VpnKey::AcceptDns, true);
            },
            ProviderId::Netbird => {},
        }
        form
    }

    /// The form filled in with a wireguard profile.
    pub open spec fn shows_wireguard(&self, p: WireguardProfile) -> bool {
        &&& self.provider == ProviderId::Wireguard
        &&& self.word(VpnKey::Name) == p.name@
        &&& self.word(VpnKey::ConfigPath) == p.config_path@
        &&& self.word(VpnKey::PrivateKey) == p.private_key@
        &&& self.word(VpnKey::Address) == p.address@
        &&& self.word(VpnKey::Dns) == p.dns@
        &&& self.word(VpnKey::ListenPort) == decimal(p.listen_port as nat)
        &&& self.word(VpnKey::Mtu) == decimal(p.mtu as nat)
        &&& self.word(VpnKey::PeerPublicKey) == p.peer_public_key@
        &&& self.word(VpnKey::PresharedKey) == p.preshared_key@
        &&& self.word(VpnKey::Endpoint) == p.endpoint@
        &&& self.word(VpnKey::AllowedIps) == p.allowed_ips@
        &&& self.word(VpnKey::PersistentKeepalive) == decimal(p.persistent_keepalive as nat)
    }

    pub fn from_wireguard(p: &WireguardProfile) -> (r: Self)
        ensures
            r.shows_wireguard(*p),
            r.field_idx == 0 && r.error is None,
            r.secret_ack == (p.private_key@.len() > 0),
    {
        let mut f = Self::empty(ProviderId::Wireguard);
        f.secret_ack = !p.private_key.as_str().is_empty();
        f.set(VpnKey::Name, p.name.clone());
        f.set(VpnKey::ConfigPath, p.config_path.clone());
        f.set(VpnKey::PrivateKey, p.private_key.clone());
        f.set(VpnKey::Address, p.address.clone());
        f.set(VpnKey::Dns, p.dns.clone());
        f.set(VpnKey::ListenPort, number::write(p.listen_port as u64));
        f.set(VpnKey::Mtu, number::write(p.mtu as u64));
        f.set(VpnKey::PeerPublicKey, p.peer_public_key.clone());
        f.set(VpnKey::PresharedKey, p.preshared_key.clone());
        f.set(VpnKey::Endpoint, p.endpoint.clone());
        f.set(VpnKey::AllowedIps, p.allowed_ips.clone());
        f.set(VpnKey::PersistentKeepalive, number::write(p.persistent_keepalive as u64));
        f
    }

    /// The form filled in with a openvpn profile.
    pub open spec fn shows_openvpn(&self, p: OpenvpnProfile) -> bool {
        &&& self.provider == ProviderId::Openvpn
        &&& self.word(VpnKey::Name) == p.name@
        &&& self.word(VpnKey::ConfigPath) == p.config_path@
        &&& self.up(VpnKey::Import) == p.import
        &&& self.word(VpnKey::Username) == p.username@
        &&& self.word(VpnKey::Password) == p.password@
        &&& self.word(VpnKey::ExtraArgs) == p.extra_args@
    }

    pub fn from_openvpn(p: &OpenvpnProfile) -> (r: Self)
        ensures
            r.shows_openvpn(*p),
            r.field_idx == 0 && r.error is None,
            r.secret_ack == (p.password@.len() > 0),
    {
        let mut f = Self::empty(ProviderId::Openvpn);
        f.secret_ack = !p.password.as_str().is_empty();
        f.set(VpnKey::Name, p.name.clone());
        f.set(VpnKey::ConfigPath, p.config_path.clone());
        f.set_flag(VpnKey::Import, p.import);
        f.set(VpnKey::Username, p.username.clone());
        f.set(VpnKey::Password, p.password.clone());
        f.set(VpnKey::ExtraArgs, p.extra_args.clone());
        f
    }

    /// The form filled in with a tailscale profile.
    pub open spec fn shows_tailscale(&self, p: TailscaleProfile) -> bool {
        &&& self.provider == ProviderId::Tailscale
        &&& self.word(VpnKey::Name) == p.name@
        &&& self.word(VpnKey::LoginServer) == p.login_server@
        &&& self.word(VpnKey::ExitNode) == p.exit_node@
        &&& self.up(VpnKey::ExitNodeAllowLan) == p.exit_node_allow_lan
        &&& self.up(VpnKey::AcceptRoutes) == p.accept_routes
        &&& self.up(VpnKey::AcceptDns) == p.accept_dns
        &&& self.up(VpnKey::Ssh) == p.ssh
        &&& self.up(VpnKey::ShieldsUp) == p.shields_up
        &&& self.word(VpnKey::Hostname) == p.hostname@
        &&& self.word(VpnKey::AdvertiseRoutes) == p.advertise_routes@
        &&& self.up(VpnKey::AdvertiseExitNode) == p.advertise_exit_node
        &&& self.word(VpnKey::ExtraArgs) == p.extra_args@
    }

    pub fn from_tailscale(p: &TailscaleProfile) -> (r: Self)
        ensures
            r.shows_tailscale(*p),
            r.field_idx == 0 && r.error is None,
            r.secret_ack == false,
    {
        let mut f = Self::empty(ProviderId::Tailscale);
        f.set(VpnKey::Name, p.name.clone());
        f.set(VpnKey::LoginServer, p.login_server.clone());
        f.set(VpnKey::ExitNode, p.exit_node.clone());
        f.set_flag(VpnKey::ExitNodeAllowLan, p.exit_node_allow_lan);
        f.set_flag(VpnKey::AcceptRoutes, p.accept_routes);
        f.set_flag(VpnKey::AcceptDns, p.accept_dns);
        f.set_flag(VpnKey::Ssh, p.ssh);
        f.set_flag(VpnKey::ShieldsUp, p.shields_up);
        f.set(VpnKey::Hostname, p.hostname.clone());
        f.set(VpnKey::AdvertiseRoutes, p.advertise_routes.clone());
        f.set_flag(VpnKey::AdvertiseExitNode, p.advertise_exit_node);
        f.set(VpnKey::ExtraArgs, p.extra_args.clone());
        f
    }

    pub fn fields(&self) -> (r: Vec<VpnFieldSpec>)
        ensures
            lists(r@, form_lines(self.provider)),
    {
        vpn_fields(self.provider)
    }

    /// The line the cursor is on: where it was put, or the last.
    pub open spec fn line(&self) -> int {
        if self.field_idx < self.line_count() {
            self.field_idx as int
        } else {
            self.line_count() - 1
        }
    }

    /// The key under the cursor; none for a client with nothing to edit.
    pub open spec fn key_at(&self) -> Option<VpnKey> {
        if self.line_count() == 0 {
            None
        } else {
            Some(form_lines(self.provider)[self.line()].0)
        }
    }

    /// `None` only for a provider with nothing to edit, i.e. netbird, which
    /// never opens a form.
    pub fn field(&self) -> (r: Option<VpnFieldSpec>)
        ensures
            r is Some <==> self.key_at() is Some,
            r is Some ==> r->0.wf() && r->0.key == self.key_at()->0,
            r is Some ==> r->0.label == form_lines(self.provider)[self.line()].1,
    {
        let all = self.fields();
        let n: usize = all.len();
        if n == 0 {
            None
        } else if self.field_idx < n {
            Some(all[self.field_idx])
        } else {
            Some(all[n - 1])
        }
    }

    pub fn next_field(&mut self)
        requires
            old(self).field_idx < old(self).line_count() || old(self).line_count() == 0,
        ensures
            *final(self) == (VpnForm { field_idx: final(self).field_idx, ..*old(self) }),
            final(self).field_idx == if old(self).line_count() == 0 {
                old(self).field_idx as int
            } else {
                Picker::next_idx(old(self).field_idx as int, old(self).line_count() as int)
            },
    {
        let n: usize = self.fields().len();
        if n > 0 {
            self.field_idx = if self.field_idx < n - 1 {
                self.field_idx + 1
            } else {
                0
            };
        }
    }

    pub fn prev_field(&mut self)
        requires
            old(self).field_idx < old(self).line_count() || old(self).line_count() == 0,
        ensures
            *final(self) == (VpnForm { field_idx: final(self).field_idx, ..*old(self) }),
            final(self).field_idx == if old(self).line_count() == 0 {
                old(self).field_idx as int
            } else {
                Picker::prev_idx(old(self).field_idx as int, old(self).line_count() as int)
            },
    {
        let n: usize = self.fields().len();
        if n > 0 {
            self.field_idx = if self.field_idx > 0 {
                self.field_idx - 1
            } else {
                n - 1
            };
        }
    }

    /// The text being typed into, on a field that is typed into.
    pub fn active_text_mut(&mut self) -> (r: Option<&mut String>)
        ensures
            match old(self).key_at() {
                Some(k) => if k.flag_spec() {
                    r is None && *final(self) == *old(self)
                } else {
                    &&& r is Some
                    &&& r->0@ == old(self).word(k)
                    &&& final(self).word(k) == final(r->0)@
                    &&& forall|other: VpnKey|
                        other != k ==> #[trigger] final(self).word(other) == old(self).word(other)
                    &&& *final(self) == (VpnForm { words: final(self).words, ..*old(self) })
                },
                None => r is None && *final(self) == *old(self),
            },
    {
        let k = match self.field() {
            Some(spec) => if spec.flag {
                return None;
            } else {
                spec.key
            },
            None => {
                return None;
            },
        };
        let i: usize = find_key(&self.words, k);
        let ghost was = self.words@;
        if i == self.words.len() {
            let nothing = String::new();
            self.words.push((k, nothing));
        }
        let ghost now = self.words@;
        proof {
            assert forall|other: VpnKey, x: String| #[trigger] setting(
                now.update(i as int, (k, x)),
                other,
            ) == if other == k {
                Some(x)
            } else {
                setting(was, other)
            } by {
                lemma_setting_changed(was, i as int, k, x, other);
                assert(now.update(i as int, (k, x)) =~= with_setting(was, i as int, k, x));
            }
        }
        let slot = &mut self.words[i];
        Some(&mut slot.1)
    }

    /// Flip the flag under the cursor. Text fields ignore ◂ ▸.
    pub fn toggle(&mut self)
        ensures
            match old(self).key_at() {
                Some(k) => if k.flag_spec() {
                    &&& final(self).up(k) == !old(self).up(k)
                    &&& forall|other: VpnKey|
                        other != k ==> #[trigger] final(self).up(other) == old(self).up(other)
                    &&& *final(self) == (VpnForm { flags: final(self).flags, ..*old(self) })
                } else {
                    *final(self) == *old(self)
                },
                None => *final(self) == *old(self),
            },
    {
        match self.field() {
            Some(spec) => {
                if spec.flag {
                    let now = self.is_up(spec.key);
                    self.set_flag(spec.key, !now);
                }
            },
            None => {},
        }
    }

    /// What was typed for a field.
    pub fn typed(&self, k: VpnKey) -> (r: &str)
        ensures
            r@ == self.word(k),
    {
        let i: usize = find_key(&self.words, k);
        if i < self.words.len() {
            self.words[i].1.as_str()
        } else {
            proof {
                reveal_strlit("");
                assert(""@ =~= Seq::<char>::empty());
            }
            ""
        }
    }

    fn is_up(&self, k: VpnKey) -> (r: bool)
        ensures
            r == self.up(k),
    {
        let i: usize = find_key(&self.flags, k);
        if i < self.flags.len() {
            self.flags[i].1
        } else {
            false
        }
    }

    /// What was typed for a config field.
    pub open spec fn word_of(&self, id: Seq<char>) -> Seq<char> {
        match VpnKey::of_spec(id) {
            Some(k) => self.word(k),
            None => Seq::empty(),
        }
    }

    pub fn str_value(&self, id: &str) -> (r: &str)
        ensures
            r@ == self.word_of(id@),
    {
        match VpnKey::of(id) {
            Some(k) => self.typed(k),
            None => {
                proof {
                    reveal_strlit("");
                    assert(""@ =~= Seq::<char>::empty());
                }
                ""
            },
        }
    }

    pub fn bool_value(&self, id: &str) -> (r: bool)
        ensures
            r == match VpnKey::of_spec(id@) {
                Some(k) => self.up(k),
                None => false,
            },
    {
        match VpnKey::of(id) {
            Some(k) => self.is_up(k),
            None => false,
        }
    }

    /// What the form shows for a line: flags as yes/no, secrets as dots.
    pub open spec fn shown(&self, spec: VpnFieldSpec) -> Seq<char> {
        if spec.flag {
            if self.up(spec.key) {
                "yes"@
            } else {
                "no"@
            }
        } else {
            let v = self.word(spec.key);
            if spec.secret && v.len() > 0 {
                dots(if v.len() < 24 {
                    v.len()
                } else {
                    24
                })
            } else {
                v
            }
        }
    }

    /// What the form shows for a field: flags as yes/no, secrets as dots.
    pub fn display(&self, spec: &VpnFieldSpec) -> (r: String)
        ensures
            r@ == self.shown(*spec),
    {
        if spec.flag {
            return if self.is_up(spec.key) {
                "yes".to_owned()
            } else {
                "no".to_owned()
            };
        }
        let v = self.typed(spec.key);
        if spec.secret && !v.is_empty() {
            let n: usize = text::chars_of(v).len();
            make_dots(
                if n < 24 {
                    n
                } else {
                    24
                },
            )
        } else {
            v.to_owned()
        }
    }

    /// Whether saving would write a secret to disk in the clear.
    pub open spec fn stores_secret_spec(&self) -> bool {
        exists|i: int|
            0 <= i < self.line_count() && (#[trigger] form_lines(self.provider)[i]).0.secret_spec()
                && self.word(form_lines(self.provider)[i].0).len() > 0
    }

    pub fn stores_secret(&self) -> (r: bool)
        ensures
            r == self.stores_secret_spec(),
    {
        let all = self.fields();
        let ghost lines = form_lines(self.provider);
        let mut i: usize = 0;
        while i < all.len()
            invariant
                i <= all@.len(),
                lines == form_lines(self.provider),
                lists(all@, lines),
                forall|j: int|
                    0 <= j < i ==> !((#[trigger] lines[j]).0.secret_spec() && self.word(
                        lines[j].0,
                    ).len() > 0),
            decreases all@.len() - i,
        {
            let f = &all[i];
            assert(all@[i as int].key == lines[i as int].0);
            if f.secret && !self.typed(f.key).is_empty() {
                return true;
            }
            i = i + 1;
        }
        false
    }

    fn trimmed(&self, k: VpnKey) -> (r: String)
        ensures
            r@ == trimmed(self.word(k)),
    {
        text::trim(self.typed(k))
    }

    fn number(&self, k: VpnKey, label: &str) -> (r: Result<u16, String>)
        ensures
            r is Ok <==> number_in(self.word(k)) is Some,
            r is Ok ==> r->Ok_0 == number_in(self.word(k))->0,
            r is Err ==> r->Err_0@ == label@ + " must be a number 0-65535"@,
    {
        let raw = self.trimmed(k);
        if raw.as_str().is_empty() {
            return Ok(0);
        }
        match number::read_u16(raw.as_str()) {
            Some(n) => Ok(n),
            None => Err(cat(label, " must be a number 0-65535")),
        }
    }

    /// Why the form does not make a WireGuard profile, where it does not.
    pub open spec fn wireguard_fault(&self) -> Option<Seq<char>> {
        if number_in(self.word(VpnKey::ListenPort)) is None {
            Some("listen port"@ + " must be a number 0-65535"@)
        } else if number_in(self.word(VpnKey::Mtu)) is None {
            Some("MTU"@ + " must be a number 0-65535"@)
        } else if number_in(self.word(VpnKey::PersistentKeepalive)) is None {
            Some("keepalive"@ + " must be a number 0-65535"@)
        } else {
            None
        }
    }

    /// The profile is what the form says.
    pub open spec fn gives_wireguard(&self, p: WireguardProfile, os: Os, home: Option<Seq<char>>) -> bool {
        &&& p.name@ == trimmed(self.word(VpnKey::Name))
        &&& p.config_path@ == under_home(os, trimmed(self.word(VpnKey::ConfigPath)), home)
        &&& p.private_key@ == trimmed(self.word(VpnKey::PrivateKey))
        &&& p.address@ == trimmed(self.word(VpnKey::Address))
        &&& p.dns@ == trimmed(self.word(VpnKey::Dns))
        &&& Some(p.listen_port as nat) == number_in(self.word(VpnKey::ListenPort))
        &&& Some(p.mtu as nat) == number_in(self.word(VpnKey::Mtu))
        &&& p.peer_public_key@ == trimmed(self.word(VpnKey::PeerPublicKey))
        &&& p.preshared_key@ == trimmed(self.word(VpnKey::PresharedKey))
        &&& p.endpoint@ == trimmed(self.word(VpnKey::Endpoint))
        &&& p.allowed_ips@ == trimmed(self.word(VpnKey::AllowedIps))
        &&& Some(p.persistent_keepalive as nat) == number_in(
            self.word(VpnKey::PersistentKeepalive),
        )
    }

    /// `home` is the user's home directory, for a path that starts with `~/`.
    pub fn to_wireguard(&self, os: Os, home: Option<&str>) -> (r: Result<WireguardProfile, String>)
        ensures
            r is Ok <==> self.wireguard_fault() is None,
            r is Ok ==> self.gives_wireguard(r->Ok_0, os, opt_text(home)),
            r is Err ==> r->Err_0@ == self.wireguard_fault()->0,
    {
        Ok(
            WireguardProfile {
                name: self.trimmed(VpnKey::Name),
                config_path: path::expand_home(os, self.trimmed(VpnKey::ConfigPath).as_str(), home),
                private_key: self.trimmed(VpnKey::PrivateKey),
                address: self.trimmed(VpnKey::Address),
                dns: self.trimmed(VpnKey::Dns),
                listen_port: self.number(VpnKey::ListenPort, "listen port")?,
                mtu: self.number(VpnKey::Mtu, "MTU")?,
                peer_public_key: self.trimmed(VpnKey::PeerPublicKey),
                preshared_key: self.trimmed(VpnKey::PresharedKey),
                endpoint: self.trimmed(VpnKey::Endpoint),
                allowed_ips: self.trimmed(VpnKey::AllowedIps),
                persistent_keepalive: self.number(VpnKey::PersistentKeepalive, "keepalive")?,
            },
        )
    }

    /// Why the form does not make an OpenVPN profile, where it does not. The
    /// name becomes a directory, so it has to be one.
    pub open spec fn openvpn_fault(&self, os: Os, home: Option<Seq<char>>) -> Option<Seq<char>> {
        let name = trimmed(self.word(VpnKey::Name));
        if name.len() == 0 {
            Some("name is required"@)
        } else if name.contains('/') || name.contains('\\') || name[0] == '.' {
            Some("name cannot contain a path separator or start with '.'"@)
        } else if under_home(os, trimmed(self.word(VpnKey::ConfigPath)), home).len() == 0 {
            Some("a .ovpn config file is required"@)
        } else if trimmed(self.word(VpnKey::Password)).len() > 0 && trimmed(
            self.word(VpnKey::Username),
        ).len() == 0 {
            Some("a password without a username will not be used"@)
        } else {
            None
        }
    }

    /// The profile is what the form says. A password is kept as it was typed.
    pub open spec fn gives_openvpn(&self, p: OpenvpnProfile, os: Os, home: Option<Seq<char>>) -> bool {
        &&& p.name@ == trimmed(self.word(VpnKey::Name))
        &&& p.config_path@ == under_home(os, trimmed(self.word(VpnKey::ConfigPath)), home)
        &&& p.import == self.up(VpnKey::Import)
        &&& p.username@ == trimmed(self.word(VpnKey::Username))
        &&& p.password@ == self.word(VpnKey::Password)
        &&& p.extra_args@ == trimmed(self.word(VpnKey::ExtraArgs))
    }

    pub fn to_openvpn(&self, os: Os, home: Option<&str>) -> (r: Result<OpenvpnProfile, String>)
        ensures
            r is Ok <==> self.openvpn_fault(os, opt_text(home)) is None,
            r is Ok ==> self.gives_openvpn(r->Ok_0, os, opt_text(home)),
            r is Err ==> r->Err_0@ == self.openvpn_fault(os, opt_text(home))->0,
    {
        let name = self.trimmed(VpnKey::Name);
        if name.as_str().is_empty() {
            return Err("name is required".to_owned());
        }
        if split::has_char(name.as_str(), '/') || split::has_char(name.as_str(), '\\')
            || text::chars_of(name.as_str())[0] == '.' {
            return Err("name cannot contain a path separator or start with '.'".to_owned());
        }
        let config_path = path::expand_home(os, self.trimmed(VpnKey::ConfigPath).as_str(), home);
        if config_path.as_str().is_empty() {
            return Err("a .ovpn config file is required".to_owned());
        }
        if !self.trimmed(VpnKey::Password).as_str().is_empty() && self.trimmed(
            VpnKey::Username,
        ).as_str().is_empty() {
            return Err("a password without a username will not be used".to_owned());
        }
        Ok(
            OpenvpnProfile {
                name,
                config_path,
                import: self.is_up(VpnKey::Import),
                username: self.trimmed(VpnKey::Username),
                password: self.typed(VpnKey::Password).to_owned(),
                extra_args: self.trimmed(VpnKey::ExtraArgs),
            },
        )
    }

    /// The profile is what the form says.
    pub open spec fn gives_tailscale(&self, p: TailscaleProfile) -> bool {
        &&& p.name@ == trimmed(self.word(VpnKey::Name))
        &&& p.login_server@ == trimmed(self.word(VpnKey::LoginServer))
        &&& p.exit_node@ == trimmed(self.word(VpnKey::ExitNode))
        &&& p.exit_node_allow_lan == self.up(VpnKey::ExitNodeAllowLan)
        &&& p.accept_routes == self.up(VpnKey::AcceptRoutes)
        &&& p.accept_dns == self.up(VpnKey::AcceptDns)
        &&& p.ssh == self.up(VpnKey::Ssh)
        &&& p.shields_up == self.up(VpnKey::ShieldsUp)
        &&& p.hostname@ == trimmed(self.word(VpnKey::Hostname))
        &&& p.advertise_routes@ == trimmed(self.word(VpnKey::AdvertiseRoutes))
        &&& p.advertise_exit_node == self.up(VpnKey::AdvertiseExitNode)
        &&& p.extra_args@ == trimmed(self.word(VpnKey::ExtraArgs))
    }

    pub fn to_tailscale(&self) -> (r: Result<TailscaleProfile, String>)
        ensures
            r is Ok <==> trimmed(self.word(VpnKey::Name)).len() > 0,
            r is Ok ==> self.gives_tailscale(r->Ok_0),
            r is Err ==> r->Err_0@ == "name is required"@,
    {
        let name = self.trimmed(VpnKey::Name);
        if name.as_str().is_empty() {
            return Err("name is required".to_owned());
        }
        Ok(
            TailscaleProfile {
                name,
                login_server: self.trimmed(VpnKey::LoginServer),
                exit_node: self.trimmed(VpnKey::ExitNode),
                exit_node_allow_lan: self.is_up(VpnKey::ExitNodeAllowLan),
                accept_routes: self.is_up(VpnKey::AcceptRoutes),
                accept_dns: self.is_up(VpnKey::AcceptDns),
                ssh: self.is_up(VpnKey::Ssh),
                shields_up: self.is_up(VpnKey::ShieldsUp),
                hostname: self.trimmed(VpnKey::Hostname),
                advertise_routes: self.trimmed(VpnKey::AdvertiseRoutes),
                advertise_exit_node: self.is_up(VpnKey::AdvertiseExitNode),
                extra_args: self.trimmed(VpnKey::ExtraArgs),
            },
        )
    }
}

/// `n` dots.
pub open spec fn dots(n: nat) -> Seq<char> {
    Seq::new(n, |i: int| '•')
}

pub fn make_dots(n: usize) -> (r: String)
    ensures
        r@ == dots(n as nat),
{
    let mut s = String::new();
    let mut i: usize = 0;
    assert(s@ =~= dots(0));
    while i < n
        invariant
            i <= n,
            s@ == dots(i as nat),
        decreases n - i,
    {
        s.push('•');
        i = i + 1;
        assert(dots(i as nat) =~= dots((i - 1) as nat).push('•'));
    }
    s
}

/// A secret is never shown: what stands for it says at most how long it is.
pub proof fn law_secrets_are_masked(f: VpnForm, spec: VpnFieldSpec, i: int)
    requires
        spec.wf(),
        spec.secret,
        0 <= i < f.shown(spec).len(),
    ensures
        f.shown(spec)[i] == '•',
        f.shown(spec).len() <= 24,
{
}

/// An openvpn profile that a form could have made, opened in a form and read
/// back unchanged, comes out as it went in.
pub proof fn law_openvpn_round_trip(
    f: VpnForm,
    os: Os,
    home: Option<Seq<char>>,
    p: OpenvpnProfile,
    q: OpenvpnProfile,
)
    requires
        f.shows_openvpn(p),
        f.gives_openvpn(q, os, home),
        trimmed(p.name@) == p.name@ && trimmed(p.config_path@) == p.config_path@,
        trimmed(p.username@) == p.username@ && trimmed(p.extra_args@) == p.extra_args@,
        under_home(os, p.config_path@, home) == p.config_path@,
    ensures
        q.name@ == p.name@ && q.config_path@ == p.config_path@ && q.import == p.import,
        q.username@ == p.username@ && q.password@ == p.password@ && q.extra_args@ == p.extra_args@,
{
}

/// A tailscale profile that a form could have made, opened in a form and read
/// back unchanged, comes out as it went in.
pub proof fn law_tailscale_round_trip(f: VpnForm, p: TailscaleProfile, q: TailscaleProfile)
    requires
        f.shows_tailscale(p),
        f.gives_tailscale(q),
        trimmed(p.name@) == p.name@ && trimmed(p.login_server@) == p.login_server@,
        trimmed(p.exit_node@) == p.exit_node@ && trimmed(p.hostname@) == p.hostname@,
        trimmed(p.advertise_routes@) == p.advertise_routes@,
        trimmed(p.extra_args@) == p.extra_args@,
    ensures
        q.name@ == p.name@,
        q.login_server@ == p.login_server@,
        q.exit_node@ == p.exit_node@,
        q.exit_node_allow_lan == p.exit_node_allow_lan,
        q.accept_routes == p.accept_routes,
        q.accept_dns == p.accept_dns,
        q.ssh == p.ssh,
        q.shields_up == p.shields_up,
        q.hostname@ == p.hostname@,
        q.advertise_routes@ == p.advertise_routes@,
        q.advertise_exit_node == p.advertise_exit_node,
        q.extra_args@ == p.extra_args@,
{
}

/// A wireguard profile that a form could have made, opened in a form and read
/// back unchanged, comes out as it went in.
pub proof fn law_wireguard_round_trip(
    f: VpnForm,
    os: Os,
    home: Option<Seq<char>>,
    p: WireguardProfile,
    q: WireguardProfile,
)
    requires
        f.shows_wireguard(p),
        f.gives_wireguard(q, os, home),
        trimmed(p.name@) == p.name@ && trimmed(p.config_path@) == p.config_path@,
        trimmed(p.private_key@) == p.private_key@ && trimmed(p.address@) == p.address@,
        trimmed(p.dns@) == p.dns@ && trimmed(p.peer_public_key@) == p.peer_public_key@,
        trimmed(p.preshared_key@) == p.preshared_key@ && trimmed(p.endpoint@) == p.endpoint@,
        trimmed(p.allowed_ips@) == p.allowed_ips@,
        under_home(os, p.config_path@, home) == p.config_path@,
    ensures
        f.wireguard_fault() is None,
        q.name@ == p.name@,
        q.config_path@ == p.config_path@,
        q.private_key@ == p.private_key@,
        q.address@ == p.address@,
        q.dns@ == p.dns@,
        q.listen_port == p.listen_port,
        q.mtu == p.mtu,
        q.peer_public_key@ == p.peer_public_key@,
        q.preshared_key@ == p.preshared_key@,
        q.endpoint@ == p.endpoint@,
        q.allowed_ips@ == p.allowed_ips@,
        q.persistent_keepalive == p.persistent_keepalive,
{
    lemma_number_in(p.listen_port);
    lemma_number_in(p.mtu);
    lemma_number_in(p.persistent_keepalive);
}

proof fn lemma_number_in(n: u16)
    ensures
        number_in(decimal(n as nat)) == Some(n as nat),
{
    number::law_number_round_trip(n as nat, 65535);
    number::lemma_decimal_reads_back(n as nat);
    let s = decimal(n as nat);
    assert(text::is_digit(s[0]));
    assert(text::is_digit(s[s.len() - 1]));
    text::lemma_trimmed_already(s);
}

/// What the VPN tab has open on top of itself.
#[derive(Debug, Clone, Copy, PartialEq, Eq, Structural)]
pub enum VpnMode {
    Closed,
    /// Adding, or editing the profile at this index of its provider's list.
    Form { provider: ProviderId, edit: Option<usize> },
    DeleteConfirm { provider: ProviderId, idx: usize },
    /// Cleartext-secret warning shown before the form is saved.
    SecretWarning { provider: ProviderId, edit: Option<usize> },
}

}
