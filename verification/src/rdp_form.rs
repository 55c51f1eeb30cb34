//! The form an rdp connection is added or edited with.

use vstd::prelude::*;
use crate::number::{self, decimal};
use crate::picker::{tunnel_options, vpn_options, with_current, Picker, PickerKind};
use crate::plan::Step;
use crate::text::{self, texts, trimmed};
use crate::tunnel_form::{lemma_port_round_trip, port_in, read_port, FormContext};
use crate::types::{canonical_text, RdpConnection, Tunnel};
use crate::vpn_view::ProviderState;

verus! {

#[derive(Debug, Clone, Copy, PartialEq, Eq, Structural)]
pub enum RdpField {
    Name,
    Group,
    Host,
    Port,
    Domain,
    Username,
    ExtraArgs,
    RequiresVpn,
    DependsOn,
}

/// How many fields the form has.
pub const RDP_FIELD_COUNT: usize = 9;

impl RdpField {
    /// The fields from top to bottom.
    pub open spec fn at_spec(i: int) -> RdpField {
        if i == 0 {
            RdpField::Name
        } else if i == 1 {
            RdpField::Group
        } else if i == 2 {
            RdpField::Host
        } else if i == 3 {
            RdpField::Port
        } else if i == 4 {
            RdpField::Domain
        } else if i == 5 {
            RdpField::Username
        } else if i == 6 {
            RdpField::ExtraArgs
        } else if i == 7 {
            RdpField::RequiresVpn
        } else {
            RdpField::DependsOn
        }
    }

    /// The field in line `i` of the form.
    pub fn at(i: usize) -> (r: RdpField)
        ensures
            r == Self::at_spec(i as int),
    {
        if i == 0 {
            RdpField::Name
        } else if i == 1 {
            RdpField::Group
        } else if i == 2 {
            RdpField::Host
        } else if i == 3 {
            RdpField::Port
        } else if i == 4 {
            RdpField::Domain
        } else if i == 5 {
            RdpField::Username
        } else if i == 6 {
            RdpField::ExtraArgs
        } else if i == 7 {
            RdpField::RequiresVpn
        } else {
            RdpField::DependsOn
        }
    }

    pub open spec fn label_spec(self) -> Seq<char> {
        match self {
            RdpField::Name => "Name"@,
            RdpField::Group => "Group (optional)"@,
            RdpField::Host => "Host / IP"@,
            RdpField::Port => "Port"@,
            RdpField::Domain => "Domain (optional)"@,
            RdpField::Username => "Username"@,
            RdpField::ExtraArgs => "Extra xfreerdp args (optional)"@,
            RdpField::RequiresVpn => "Requires VPN"@,
            RdpField::DependsOn => "Requires tunnel"@,
        }
    }

    pub fn label(self) -> (r: &'static str)
        ensures
            r@ == self.label_spec(),
    {
        match self {
            RdpField::Name => "Name",
            RdpField::Group => "Group (optional)",
            RdpField::Host => "Host / IP",
            RdpField::Port => "Port",
            RdpField::Domain => "Domain (optional)",
            RdpField::Username => "Username",
            RdpField::ExtraArgs => "Extra xfreerdp args (optional)",
            RdpField::RequiresVpn => "Requires VPN",
            RdpField::DependsOn => "Requires tunnel",
        }
    }

    pub open spec fn is_picker_spec(self) -> bool {
        self == RdpField::RequiresVpn || self == RdpField::DependsOn
    }

    /// Toggled with ◂ ▸ instead of typed into.
    pub fn is_picker(self) -> (r: bool)
        ensures
            r == self.is_picker_spec(),
    {
        matches!(self, RdpField::RequiresVpn | RdpField::DependsOn)
    }
}

#[derive(Debug)]
pub struct RdpForm {
    pub field_idx: usize,
    pub name: String,
    pub group: String,
    pub host: String,
    pub port: String,
    pub domain: String,
    pub username: String,
    pub extra_args: String,
    pub vpn: Picker,
    pub dep: Picker,
    pub error: Option<String>,
}

impl RdpForm {
    pub open spec fn wf(&self) -> bool {
        self.field_idx < RDP_FIELD_COUNT && self.vpn.wf() && self.dep.wf()
    }

    /// Nothing filled in, whatever the group.
    pub open spec fn blank(&self, clients: Seq<ProviderState>, tunnels: Seq<Tunnel>) -> bool {
        &&& self.wf()
        &&& self.field_idx == 0 && self.name@.len() == 0 && self.host@.len() == 0
        &&& self.port@ == "3389"@
        &&& self.domain@.len() == 0 && self.username@.len() == 0 && self.extra_args@.len() == 0
        &&& self.error is None
        &&& self.vpn.idx == 0 && self.dep.idx == 0
        &&& self.vpn.value_spec().len() == 0 && self.dep.value_spec().len() == 0
        &&& texts(self.vpn.options@) == vpn_options(clients)
        &&& texts(self.dep.options@) == tunnel_options(tunnels, None)
        &&& self.vpn.kind == PickerKind::Vpn && self.dep.kind == PickerKind::Tunnel
    }

    /// Nothing filled in but the usual port, and the pickers on "none".
    pub fn empty(ctx: FormContext) -> (r: Self)
        ensures
            r.blank(ctx.vpn.providers@, ctx.tunnels@),
            r.group@.len() == 0,
    {
        proof {
            reveal_strlit("");
            assert(""@.len() == 0);
            assert(trimmed(""@).len() == 0);
        }
        RdpForm {
            field_idx: 0,
            name: String::new(),
            group: String::new(),
            host: String::new(),
            port: "3389".to_owned(),
            domain: String::new(),
            username: String::new(),
            extra_args: String::new(),
            vpn: Picker::vpn(ctx.vpn, ""),
            dep: Picker::tunnels(ctx.tunnels, "", None),
            error: None,
        }
    }

    /// The form filled in with a connection.
    pub open spec fn shows(&self, c: RdpConnection) -> bool {
        &&& self.name@ == c.name@
        &&& self.group@ == c.group@
        &&& self.host@ == c.host@
        &&& self.port@ == decimal(c.port as nat)
        &&& self.domain@ == c.domain@
        &&& self.username@ == c.username@
        &&& self.extra_args@ == c.extra_args@
        &&& self.vpn.value_spec() == canonical_text(c.requires_vpn@)
        &&& self.dep.value_spec() == c.depends_on@
    }

    /// The form as it opens on an entry.
    pub open spec fn opened(
        &self,
        c: RdpConnection,
        clients: Seq<ProviderState>,
        tunnels: Seq<Tunnel>,
    ) -> bool {
        &&& self.wf()
        &&& self.field_idx == 0
        &&& self.error is None
        &&& self.shows(c)
        &&& texts(self.vpn.options@) == with_current(
            vpn_options(clients),
            canonical_text(c.requires_vpn@),
        )
        &&& texts(self.dep.options@) == with_current(
            tunnel_options(tunnels, None),
            c.depends_on@,
        )
        &&& self.vpn.kind == PickerKind::Vpn && self.dep.kind == PickerKind::Tunnel
    }

    pub fn from_connection(c: &RdpConnection, ctx: FormContext) -> (r: Self)
        ensures
            r.opened(*c, ctx.vpn.providers@, ctx.tunnels@),
    {
        RdpForm {
            field_idx: 0,
            name: c.name.clone(),
            group: c.group.clone(),
            host: c.host.clone(),
            port: number::write(c.port as u64),
            domain: c.domain.clone(),
            username: c.username.clone(),
            extra_args: c.extra_args.clone(),
            vpn: Picker::vpn(ctx.vpn, c.requires_vpn.as_str()),
            dep: Picker::tunnels(ctx.tunnels, c.depends_on.as_str(), None),
            error: None,
        }
    }

    pub fn field(&self) -> (r: RdpField)
        ensures
            r == RdpField::at_spec(self.field_idx as int),
    {
        RdpField::at(self.field_idx)
    }

    pub fn next_field(&mut self)
        requires
            old(self).wf(),
        ensures
            *final(self) == (RdpForm { field_idx: final(self).field_idx, ..*old(self) }),
            final(self).field_idx == Picker::next_idx(old(self).field_idx as int, RDP_FIELD_COUNT as int),
            final(self).wf(),
    {
        self.field_idx = (self.field_idx + 1) % RDP_FIELD_COUNT;
    }

    pub fn prev_field(&mut self)
        requires
            old(self).wf(),
        ensures
            *final(self) == (RdpForm { field_idx: final(self).field_idx, ..*old(self) }),
            final(self).field_idx == Picker::prev_idx(old(self).field_idx as int, RDP_FIELD_COUNT as int),
            final(self).wf(),
    {
        self.field_idx = (self.field_idx + RDP_FIELD_COUNT - 1) % RDP_FIELD_COUNT;
    }

    /// The text being typed into, on a field that is typed into.
    pub fn active_text_mut(&mut self) -> (r: Option<&mut String>)
        ensures
            match RdpField::at_spec(old(self).field_idx as int) {
                RdpField::Name => r is Some && *r->0 == old(self).name && *final(self) == (RdpForm {
                    name: *final(r->0),
                    ..*old(self)
                }),
                RdpField::Group => r is Some && *r->0 == old(self).group && *final(self) == (RdpForm {
                    group: *final(r->0),
                    ..*old(self)
                }),
                RdpField::Host => r is Some && *r->0 == old(self).host && *final(self) == (RdpForm {
                    host: *final(r->0),
                    ..*old(self)
                }),
                RdpField::Port => r is Some && *r->0 == old(self).port && *final(self) == (RdpForm {
                    port: *final(r->0),
                    ..*old(self)
                }),
                RdpField::Domain => r is Some && *r->0 == old(self).domain && *final(self) == (RdpForm {
                    domain: *final(r->0),
                    ..*old(self)
                }),
                RdpField::Username => r is Some && *r->0 == old(self).username && *final(self) == (RdpForm {
                    username: *final(r->0),
                    ..*old(self)
                }),
                RdpField::ExtraArgs => r is Some && *r->0 == old(self).extra_args && *final(self) == (RdpForm {
                    extra_args: *final(r->0),
                    ..*old(self)
                }),
                _ => r is None && *final(self) == *old(self),
            },
    {
        match self.field() {
            RdpField::Name => Some(&mut self.name),
            RdpField::Group => Some(&mut self.group),
            RdpField::Host => Some(&mut self.host),
            RdpField::Port => Some(&mut self.port),
            RdpField::Domain => Some(&mut self.domain),
            RdpField::Username => Some(&mut self.username),
            RdpField::ExtraArgs => Some(&mut self.extra_args),
            _ => None,
        }
    }

    /// Why the form does not make a connection, where it does not.
    pub open spec fn fault(&self) -> Option<Seq<char>> {
        if trimmed(self.name@).len() == 0 {
            Some("name is required"@)
        } else if trimmed(self.host@).len() == 0 {
            Some("host is required"@)
        } else if port_in(self.port@) is None {
            Some("port must be a number 1-65535"@)
        } else if trimmed(self.username@).len() == 0 {
            Some("username is required"@)
        } else {
            None
        }
    }

    /// The connection is what the form says.
    pub open spec fn gives(&self, c: RdpConnection) -> bool {
        &&& c.name@ == trimmed(self.name@)
        &&& c.group@ == trimmed(self.group@)
        &&& c.host@ == trimmed(self.host@)
        &&& Some(c.port as nat) == port_in(self.port@)
        &&& c.domain@ == trimmed(self.domain@)
        &&& c.username@ == trimmed(self.username@)
        &&& c.extra_args@ == trimmed(self.extra_args@)
        &&& c.depends_on@ == self.dep.value_spec()
        &&& c.requires_vpn@ == self.vpn.value_spec()
    }

    pub fn to_connection(&self) -> (r: Result<RdpConnection, String>)
        ensures
            r is Ok <==> self.fault() is None,
            r is Ok ==> self.gives(r->Ok_0),
            r is Err ==> r->Err_0@ == self.fault()->0,
    {
        let name = text::trim(self.name.as_str());
        if name.as_str().is_empty() {
            return Err("name is required".to_owned());
        }
        let host = text::trim(self.host.as_str());
        if host.as_str().is_empty() {
            return Err("host is required".to_owned());
        }
        let port: u16 = match read_port(self.port.as_str()) {
            Some(n) => n,
            None => {
                return Err("port must be a number 1-65535".to_owned());
            },
        };
        let username = text::trim(self.username.as_str());
        if username.as_str().is_empty() {
            return Err("username is required".to_owned());
        }
        Ok(
            RdpConnection {
                name,
                group: text::trim(self.group.as_str()),
                host,
                port,
                domain: text::trim(self.domain.as_str()),
                username,
                extra_args: text::trim(self.extra_args.as_str()),
                depends_on: self.dep.value(),
                requires_vpn: self.vpn.value(),
            },
        )
    }
}

/// A connection that a form could have made, opened in a form and read back
/// unchanged, comes out as it went in.
pub proof fn law_rdp_round_trip(f: RdpForm, c: RdpConnection, d: RdpConnection)
    requires
        f.shows(c),
        f.gives(d),
        trimmed(c.name@) == c.name@ && trimmed(c.group@) == c.group@,
        trimmed(c.host@) == c.host@ && trimmed(c.domain@) == c.domain@,
        trimmed(c.username@) == c.username@ && trimmed(c.extra_args@) == c.extra_args@,
        canonical_text(c.requires_vpn@) == c.requires_vpn@,
        c.name@.len() > 0 && c.host@.len() > 0 && c.username@.len() > 0 && c.port > 0,
    ensures
        f.fault() is None,
        d.name@ == c.name@ && d.group@ == c.group@ && d.host@ == c.host@ && d.port == c.port,
        d.domain@ == c.domain@ && d.username@ == c.username@ && d.extra_args@ == c.extra_args@,
        d.depends_on@ == c.depends_on@ && d.requires_vpn@ == c.requires_vpn@,
{
    lemma_port_round_trip(c.port);
}

/// What the rdp tab has open on top of itself.
#[derive(Debug)]
pub enum RdpMode {
    Closed,
    Add,
    Edit(usize),
    DeleteConfirm(usize),
    /// Masked password prompt. A group start asks for each member in turn,
    /// so `pending` holds the connections still to be asked about (current
    /// one first) and `collected` the answers already given; the whole lot is
    /// started as one plan once the last one is answered.
    Password { pending: Vec<usize>, collected: Vec<Step>, input: String },
}

}
