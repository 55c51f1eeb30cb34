//! The VPN clients, and what is known of each of them.

use vstd::prelude::*;
use crate::path::Os;
use crate::text::same;

verus! {

/// A VPN client that can be driven from here.
#[derive(Debug, Clone, Copy, PartialEq, Eq, Structural)]
pub enum ProviderId {
    Netbird,
    Wireguard,
    Openvpn,
    Tailscale,
}

impl ProviderId {
    /// Every client, in the order they are listed and brought up.
    pub open spec fn all_spec() -> Seq<ProviderId> {
        seq![
            ProviderId::Netbird,
            ProviderId::Wireguard,
            ProviderId::Openvpn,
            ProviderId::Tailscale,
        ]
    }

    pub fn all() -> (r: Vec<ProviderId>)
        ensures
            r@ == Self::all_spec(),
    {
        let mut v: Vec<ProviderId> = Vec::new();
        v.push(ProviderId::Netbird);
        v.push(ProviderId::Wireguard);
        v.push(ProviderId::Openvpn);
        v.push(ProviderId::Tailscale);
        assert(v@ =~= Self::all_spec());
        v
    }

    pub open spec fn index_spec(self) -> int {
        match self {
            ProviderId::Netbird => 0,
            ProviderId::Wireguard => 1,
            ProviderId::Openvpn => 2,
            ProviderId::Tailscale => 3,
        }
    }

    /// Where the client stands in the list of all of them.
    pub fn index(self) -> (r: usize)
        ensures
            r == self.index_spec(),
            Self::all_spec()[r as int] == self,
            r < 4,
    {
        match self {
            ProviderId::Netbird => 0,
            ProviderId::Wireguard => 1,
            ProviderId::Openvpn => 2,
            ProviderId::Tailscale => 3,
        }
    }

    pub open spec fn slug_spec(self) -> Seq<char> {
        match self {
            ProviderId::Netbird => "netbird"@,
            ProviderId::Wireguard => "wireguard"@,
            ProviderId::Openvpn => "openvpn"@,
            ProviderId::Tailscale => "tailscale"@,
        }
    }

    /// The name the client goes by in config files and on screen.
    pub fn slug(self) -> (r: &'static str)
        ensures
            r@ == self.slug_spec(),
    {
        match self {
            ProviderId::Netbird => "netbird",
            ProviderId::Wireguard => "wireguard",
            ProviderId::Openvpn => "openvpn",
            ProviderId::Tailscale => "tailscale",
        }
    }

    pub open spec fn from_slug_spec(slug: Seq<char>) -> Option<ProviderId> {
        if slug == "netbird"@ {
            Some(ProviderId::Netbird)
        } else if slug == "wireguard"@ {
            Some(ProviderId::Wireguard)
        } else if slug == "openvpn"@ {
            Some(ProviderId::Openvpn)
        } else if slug == "tailscale"@ {
            Some(ProviderId::Tailscale)
        } else {
            None
        }
    }

    pub fn from_slug(slug: &str) -> (r: Option<ProviderId>)
        ensures
            r == Self::from_slug_spec(slug@),
    {
        if same(slug, "netbird") {
            Some(ProviderId::Netbird)
        } else if same(slug, "wireguard") {
            Some(ProviderId::Wireguard)
        } else if same(slug, "openvpn") {
            Some(ProviderId::Openvpn)
        } else if same(slug, "tailscale") {
            Some(ProviderId::Tailscale)
        } else {
            None
        }
    }

    /// Whether the client can hold only one connection at a time.
    pub open spec fn exclusive_spec(self) -> bool {
        self == ProviderId::Netbird || self == ProviderId::Tailscale
    }

    pub fn exclusive(self) -> (r: bool)
        ensures
            r == self.exclusive_spec(),
    {
        matches!(self, ProviderId::Netbird | ProviderId::Tailscale)
    }

    /// Whether the client's profiles are stored in `vpn.toml`. NetBird keeps
    /// its own.
    pub open spec fn manages_profiles_spec(self) -> bool {
        self != ProviderId::Netbird
    }

    pub fn manages_profiles(self) -> (r: bool)
        ensures
            r == self.manages_profiles_spec(),
    {
        !matches!(self, ProviderId::Netbird)
    }

    /// Whether bringing a profile of this client up takes root. NetBird takes its
    /// commands from the signed-in user, and so does Tailscale on Windows.
    pub open spec fn needs_root_spec(self, os: Os) -> bool {
        match self {
            ProviderId::Netbird => false,
            ProviderId::Tailscale => os == Os::Unix,
            _ => true,
        }
    }

    pub fn needs_root(self, os: Os) -> (r: bool)
        ensures
            r == self.needs_root_spec(os),
    {
        match self {
            ProviderId::Netbird => false,
            ProviderId::Tailscale => os == Os::Unix,
            _ => true,
        }
    }
}

/// Naming a client and looking it up by that name gives the client back.
pub proof fn law_slug_round_trip(p: ProviderId)
    ensures
        ProviderId::from_slug_spec(p.slug_spec()) == Some(p),
{
    reveal_strlit("netbird");
    reveal_strlit("wireguard");
    reveal_strlit("openvpn");
    reveal_strlit("tailscale");
    assert("netbird"@.len() == 7);
    assert("wireguard"@.len() == 9);
    assert("wireguard"@[0] == 'w');
    assert("openvpn"@[0] == 'o');
    assert("tailscale"@[0] == 't');
    assert("netbird"@[0] == 'n');
}

/// A client's name holds no colon and no white space, so it can stand in front
/// of one.
pub proof fn lemma_slug_plain(p: ProviderId)
    ensures
        p.slug_spec().len() > 1,
        p.slug_spec()[0] != '*',
        forall|i: int| 0 <= i < p.slug_spec().len() ==> 'a' <= #[trigger] p.slug_spec()[i] <= 'z',
{
    reveal_strlit("netbird");
    reveal_strlit("wireguard");
    reveal_strlit("openvpn");
    reveal_strlit("tailscale");
}

}
