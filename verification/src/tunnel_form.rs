//! The form a tunnel is added or edited with.

use vstd::prelude::*;
use crate::number::{self, decimal, law_number_round_trip, parsed};
use crate::picker::{tunnel_options, vpn_options, with_current, Picker, PickerKind};
use crate::text::{self, texts, trimmed};
use crate::types::{canonical_text, ForwardType, Tunnel};
use crate::vpn_view::{ProviderState, VpnView};

verus! {

/// What the tunnels tab has open on top of itself.
#[derive(Debug, Clone, Copy, PartialEq, Eq, Structural)]
pub enum FormMode {
    Closed,
    Add,
    Edit(usize),
    DeleteConfirm(usize),
}

#[derive(Debug, Clone, Copy, PartialEq, Eq, Structural)]
pub enum FormField {
    Name,
    Group,
    SshHost,
    Forward,
    LocalPort,
    RemoteHost,
    RemotePort,
    ExtraArgs,
    AutoReconnect,
    RequiresVpn,
    DependsOn,
}

/// The lists a form needs to build its pickers.
#[derive(Clone, Copy)]
pub struct FormContext<'a> {
    pub tunnels: &'a [Tunnel],
    pub vpn: &'a VpnView,
}

/// How many fields the form has.
pub const FORM_FIELD_COUNT: usize = 11;

impl FormField {
    /// The fields from top to bottom.
    pub open spec fn at_spec(i: int) -> FormField {
        if i == 0 {
            FormField::Name
        } else if i == 1 {
            FormField::Group
        } else if i == 2 {
            FormField::SshHost
        } else if i == 3 {
            FormField::Forward
        } else if i == 4 {
            FormField::LocalPort
        } else if i == 5 {
            FormField::RemoteHost
        } else if i == 6 {
            FormField::RemotePort
        } else if i == 7 {
            FormField::ExtraArgs
        } else if i == 8 {
            FormField::AutoReconnect
        } else if i == 9 {
            FormField::RequiresVpn
        } else {
            FormField::DependsOn
        }
    }

    /// The field in line `i` of the form.
    pub fn at(i: usize) -> (r: FormField)
        ensures
            r == Self::at_spec(i as int),
    {
        if i == 0 {
            FormField::Name
        } else if i == 1 {
            FormField::Group
        } else if i == 2 {
            FormField::SshHost
        } else if i == 3 {
            FormField::Forward
        } else if i == 4 {
            FormField::LocalPort
        } else if i == 5 {
            FormField::RemoteHost
        } else if i == 6 {
            FormField::RemotePort
        } else if i == 7 {
            FormField::ExtraArgs
        } else if i == 8 {
            FormField::AutoReconnect
        } else if i == 9 {
            FormField::RequiresVpn
        } else {
            FormField::DependsOn
        }
    }

    pub open spec fn label_spec(self, forward: ForwardType) -> Seq<char> {
        match self {
            FormField::Name => "Name"@,
            FormField::Group => "Group (optional)"@,
            FormField::SshHost => "SSH host (alias or user@host)"@,
            FormField::Forward => "Forward type"@,
            FormField::LocalPort => match forward {
                ForwardType::Remote => "Local destination port"@,
                ForwardType::Dynamic => "SOCKS listen port"@,
                ForwardType::Local => "Local listen port"@,
            },
            FormField::RemoteHost => match forward {
                ForwardType::Remote => "Local destination host (empty = 127.0.0.1)"@,
                _ => "Remote destination host"@,
            },
            FormField::RemotePort => match forward {
                ForwardType::Remote => "Listen port on SSH host"@,
                _ => "Remote destination port"@,
            },
            FormField::ExtraArgs => "Extra ssh args (optional)"@,
            FormField::AutoReconnect => "Auto-reconnect"@,
            FormField::RequiresVpn => "Requires VPN"@,
            FormField::DependsOn => "Requires tunnel"@,
        }
    }

    /// What the field is called, which depends on the kind of forward.
    pub fn label(self, forward: ForwardType) -> (r: &'static str)
        ensures
            r@ == self.label_spec(forward),
    {
        match self {
            FormField::Name => "Name",
            FormField::Group => "Group (optional)",
            FormField::SshHost => "SSH host (alias or user@host)",
            FormField::Forward => "Forward type",
            FormField::LocalPort => match forward {
                ForwardType::Remote => "Local destination port",
                ForwardType::Dynamic => "SOCKS listen port",
                ForwardType::Local => "Local listen port",
            },
            FormField::RemoteHost => match forward {
                ForwardType::Remote => "Local destination host (empty = 127.0.0.1)",
                _ => "Remote destination host",
            },
            FormField::RemotePort => match forward {
                ForwardType::Remote => "Listen port on SSH host",
                _ => "Remote destination port",
            },
            FormField::ExtraArgs => "Extra ssh args (optional)",
            FormField::AutoReconnect => "Auto-reconnect",
            FormField::RequiresVpn => "Requires VPN",
            FormField::DependsOn => "Requires tunnel",
        }
    }

    pub open spec fn applies_spec(self, forward: ForwardType) -> bool {
        !((self == FormField::RemoteHost || self == FormField::RemotePort) && forward
            == ForwardType::Dynamic)
    }

    /// Whether the field applies to the given forward type.
    pub fn applies(self, forward: ForwardType) -> (r: bool)
        ensures
            r == self.applies_spec(forward),
    {
        match self {
            FormField::RemoteHost | FormField::RemotePort => forward != ForwardType::Dynamic,
            _ => true,
        }
    }

    pub open spec fn is_picker_spec(self) -> bool {
        self == FormField::Forward || self == FormField::AutoReconnect || self
            == FormField::RequiresVpn || self == FormField::DependsOn
    }

    /// Toggled with ◂ ▸ instead of typed into.
    pub fn is_picker(self) -> (r: bool)
        ensures
            r == self.is_picker_spec(),
    {
        matches!(self, FormField::Forward | FormField::AutoReconnect | FormField::RequiresVpn | FormField::DependsOn)
    }
}

#[derive(Debug)]
pub struct TunnelForm {
    pub field_idx: usize,
    pub name: String,
    pub group: String,
    pub ssh_host: String,
    pub forward: ForwardType,
    pub local_port: String,
    pub remote_host: String,
    pub remote_port: String,
    pub extra_args: String,
    pub auto_reconnect: bool,
    pub vpn: Picker,
    pub dep: Picker,
    pub error: Option<String>,
}

/// The port a field holds: a number from 1 to 65535.
pub open spec fn port_in(s: Seq<char>) -> Option<nat> {
    match parsed(trimmed(s), 65535) {
        Some(n) => if n == 0 {
            None
        } else {
            Some(n)
        },
        None => None,
    }
}

pub fn read_port(s: &str) -> (r: Option<u16>)
    ensures
        r is Some <==> port_in(s@) is Some,
        r is Some ==> r->0 == port_in(s@)->0,
{
    match number::read_u16(text::trim(s).as_str()) {
        Some(n) => if n == 0 {
            None
        } else {
            Some(n)
        },
        None => None,
    }
}

impl TunnelForm {
    pub open spec fn wf(&self) -> bool {
        self.field_idx < FORM_FIELD_COUNT && self.vpn.wf() && self.dep.wf()
    }

    /// Nothing filled in, whatever the group.
    pub open spec fn blank(&self, clients: Seq<ProviderState>, tunnels: Seq<Tunnel>) -> bool {
        &&& self.wf()
        &&& self.field_idx == 0 && self.name@.len() == 0 && self.ssh_host@.len() == 0
        &&& self.forward == ForwardType::Local
        &&& self.local_port@.len() == 0 && self.remote_host@.len() == 0 && self.remote_port@.len() == 0
        &&& self.extra_args@.len() == 0 && !self.auto_reconnect && self.error is None
        &&& self.vpn.idx == 0 && self.dep.idx == 0
        &&& self.vpn.value_spec().len() == 0 && self.dep.value_spec().len() == 0
        &&& texts(self.vpn.options@) == vpn_options(clients)
        &&& texts(self.dep.options@) == tunnel_options(tunnels, None)
        &&& self.vpn.kind == PickerKind::Vpn && self.dep.kind == PickerKind::Tunnel
    }

    /// Nothing filled in, and the pickers on "none".
    pub fn empty(ctx: FormContext) -> (r: Self)
        ensures
            r.blank(ctx.vpn.providers@, ctx.tunnels@),
            r.group@.len() == 0,
    {
        proof {
            reveal_strlit("");
            assert(trimmed(""@).len() == 0) by {
                assert(""@.len() == 0);
            }
        }
        TunnelForm {
            field_idx: 0,
            name: String::new(),
            group: String::new(),
            ssh_host: String::new(),
            forward: ForwardType::Local,
            local_port: String::new(),
            remote_host: String::new(),
            remote_port: String::new(),
            extra_args: String::new(),
            auto_reconnect: false,
            vpn: Picker::vpn(ctx.vpn, ""),
            dep: Picker::tunnels(ctx.tunnels, "", None),
            error: None,
        }
    }

    /// The form filled in with a tunnel.
    pub open spec fn shows(&self, t: Tunnel) -> bool {
        &&& self.name@ == t.name@
        &&& self.group@ == t.group@
        &&& self.ssh_host@ == t.ssh_host@
        &&& self.forward == t.forward
        &&& self.local_port@ == decimal(t.local_port as nat)
        &&& self.remote_host@ == t.remote_host@
        &&& self.remote_port@ == if t.remote_port == 0 {
            Seq::empty()
        } else {
            decimal(t.remote_port as nat)
        }
        &&& self.extra_args@ == t.extra_args@
        &&& self.auto_reconnect == t.auto_reconnect
        &&& self.vpn.value_spec() == canonical_text(t.requires_vpn@)
        &&& self.dep.value_spec() == t.depends_on@
    }

    /// The form as it opens on an entry.
    pub open spec fn opened(
        &self,
        t: Tunnel,
        clients: Seq<ProviderState>,
        tunnels: Seq<Tunnel>,
    ) -> bool {
        &&& self.wf()
        &&& self.field_idx == 0
        &&& self.error is None
        &&& self.shows(t)
        &&& texts(self.vpn.options@) == with_current(
            vpn_options(clients),
            canonical_text(t.requires_vpn@),
        )
        &&& texts(self.dep.options@) == with_current(
            tunnel_options(tunnels, Some(t.name@)),
            t.depends_on@,
        )
        &&& self.vpn.kind == PickerKind::Vpn && self.dep.kind == PickerKind::Tunnel
    }

    pub fn from_tunnel(t: &Tunnel, ctx: FormContext) -> (r: Self)
        ensures
            r.opened(*t, ctx.vpn.providers@, ctx.tunnels@),
    {
        TunnelForm {
            field_idx: 0,
            name: t.name.clone(),
            group: t.group.clone(),
            ssh_host: t.ssh_host.clone(),
            forward: t.forward,
            local_port: number::write(t.local_port as u64),
            remote_host: t.remote_host.clone(),
            remote_port: if t.remote_port == 0 {
                String::new()
            } else {
                number::write(t.remote_port as u64)
            },
            extra_args: t.extra_args.clone(),
            auto_reconnect: t.auto_reconnect,
            vpn: Picker::vpn(ctx.vpn, t.requires_vpn.as_str()),
            // A tunnel cannot depend on itself.
            dep: Picker::tunnels(ctx.tunnels, t.depends_on.as_str(), Some(t.name.as_str())),
            error: None,
        }
    }

    pub fn field(&self) -> (r: FormField)
        ensures
            r == FormField::at_spec(self.field_idx as int),
    {
        FormField::at(self.field_idx)
    }

    /// The next line whose field applies, from the last to the first.
    pub open spec fn next_line(i: int, forward: ForwardType) -> int {
        let n = if i + 1 < FORM_FIELD_COUNT {
            i + 1
        } else {
            0
        };
        if FormField::at_spec(n).applies_spec(forward) {
            n
        } else {
            7
        }
    }

    /// The line before whose field applies, from the first to the last.
    pub open spec fn prev_line(i: int, forward: ForwardType) -> int {
        let n = if i > 0 {
            i - 1
        } else {
            FORM_FIELD_COUNT - 1
        };
        if FormField::at_spec(n).applies_spec(forward) {
            n
        } else {
            4
        }
    }

    pub fn next_field(&mut self)
        requires
            old(self).wf(),
        ensures
            *final(self) == (TunnelForm { field_idx: final(self).field_idx, ..*old(self) }),
            final(self).field_idx == Self::next_line(old(self).field_idx as int, old(self).forward),
            final(self).wf(),
    {
        let start: usize = self.field_idx;
        let mut i: usize = (start + 1) % FORM_FIELD_COUNT;
        while !FormField::at(i).applies(self.forward)
            invariant
                start == old(self).field_idx < FORM_FIELD_COUNT,
                *self == *old(self),
                i < FORM_FIELD_COUNT,
                i == (start + 1) % (FORM_FIELD_COUNT as int) || Self::next_line(
                    start as int,
                    self.forward,
                ) == 7 && 6 <= i <= 7 && self.forward == ForwardType::Dynamic,
            decreases FORM_FIELD_COUNT - i,
        {
            i = (i + 1) % FORM_FIELD_COUNT;
        }
        self.field_idx = i;
    }

    pub fn prev_field(&mut self)
        requires
            old(self).wf(),
        ensures
            *final(self) == (TunnelForm { field_idx: final(self).field_idx, ..*old(self) }),
            final(self).field_idx == Self::prev_line(old(self).field_idx as int, old(self).forward),
            final(self).wf(),
    {
        let start: usize = self.field_idx;
        let mut i: usize = (start + FORM_FIELD_COUNT - 1) % FORM_FIELD_COUNT;
        while !FormField::at(i).applies(self.forward)
            invariant
                start == old(self).field_idx < FORM_FIELD_COUNT,
                *self == *old(self),
                i < FORM_FIELD_COUNT,
                i == (start + FORM_FIELD_COUNT - 1) % (FORM_FIELD_COUNT as int) || Self::prev_line(
                    start as int,
                    self.forward,
                ) == 4 && 4 <= i <= 5 && self.forward == ForwardType::Dynamic,
            decreases i,
        {
            i = (i + FORM_FIELD_COUNT - 1) % FORM_FIELD_COUNT;
        }
        self.field_idx = i;
    }

    /// The text being typed into, on a field that is typed into.
    pub fn active_text_mut(&mut self) -> (r: Option<&mut String>)
        ensures
            match FormField::at_spec(old(self).field_idx as int) {
                FormField::Name => r is Some && *r->0 == old(self).name && *final(self) == (
                TunnelForm { name: *final(r->0), ..*old(self) }),
                FormField::Group => r is Some && *r->0 == old(self).group && *final(self) == (
                TunnelForm { group: *final(r->0), ..*old(self) }),
                FormField::SshHost => r is Some && *r->0 == old(self).ssh_host && *final(self) == (
                TunnelForm { ssh_host: *final(r->0), ..*old(self) }),
                FormField::LocalPort => r is Some && *r->0 == old(self).local_port && *final(self)
                    == (TunnelForm { local_port: *final(r->0), ..*old(self) }),
                FormField::RemoteHost => r is Some && *r->0 == old(self).remote_host && *final(self)
                    == (TunnelForm { remote_host: *final(r->0), ..*old(self) }),
                FormField::RemotePort => r is Some && *r->0 == old(self).remote_port && *final(self)
                    == (TunnelForm { remote_port: *final(r->0), ..*old(self) }),
                FormField::ExtraArgs => r is Some && *r->0 == old(self).extra_args && *final(self)
                    == (TunnelForm { extra_args: *final(r->0), ..*old(self) }),
                _ => r is None && *final(self) == *old(self),
            },
    {
        match self.field() {
            FormField::Name => Some(&mut self.name),
            FormField::Group => Some(&mut self.group),
            FormField::SshHost => Some(&mut self.ssh_host),
            FormField::LocalPort => Some(&mut self.local_port),
            FormField::RemoteHost => Some(&mut self.remote_host),
            FormField::RemotePort => Some(&mut self.remote_port),
            FormField::ExtraArgs => Some(&mut self.extra_args),
            FormField::Forward
            | FormField::AutoReconnect
            | FormField::RequiresVpn
            | FormField::DependsOn => None,
        }
    }

    /// Why the form does not make a tunnel, where it does not.
    pub open spec fn fault(&self) -> Option<Seq<char>> {
        if trimmed(self.name@).len() == 0 {
            Some("name is required"@)
        } else if trimmed(self.ssh_host@).len() == 0 {
            Some("ssh host is required"@)
        } else if port_in(self.local_port@) is None {
            Some("local port must be a number 1-65535"@)
        } else if self.forward == ForwardType::Dynamic {
            None
        } else if port_in(self.remote_port@) is None {
            Some("remote port must be a number 1-65535"@)
        } else if self.forward == ForwardType::Local && trimmed(self.remote_host@).len() == 0 {
            Some("remote destination host is required for -L"@)
        } else {
            None
        }
    }

    /// The tunnel is what the form says.
    pub open spec fn gives(&self, t: Tunnel) -> bool {
        &&& t.name@ == trimmed(self.name@)
        &&& t.group@ == trimmed(self.group@)
        &&& t.ssh_host@ == trimmed(self.ssh_host@)
        &&& t.forward == self.forward
        &&& Some(t.local_port as nat) == port_in(self.local_port@)
        &&& t.remote_host@ == trimmed(self.remote_host@)
        &&& if self.forward == ForwardType::Dynamic {
            t.remote_port == 0
        } else {
            Some(t.remote_port as nat) == port_in(self.remote_port@)
        }
        &&& t.extra_args@ == trimmed(self.extra_args@)
        &&& t.auto_reconnect == self.auto_reconnect
        &&& t.requires_vpn@ == self.vpn.value_spec()
        &&& t.depends_on@ == self.dep.value_spec()
    }

    pub fn to_tunnel(&self) -> (r: Result<Tunnel, String>)
        ensures
            r is Ok <==> self.fault() is None,
            r is Ok ==> self.gives(r->Ok_0),
            r is Err ==> r->Err_0@ == self.fault()->0,
    {
        let name = text::trim(self.name.as_str());
        if name.as_str().is_empty() {
            return Err("name is required".to_owned());
        }
        let ssh_host = text::trim(self.ssh_host.as_str());
        if ssh_host.as_str().is_empty() {
            return Err("ssh host is required".to_owned());
        }
        let local_port: u16 = match read_port(self.local_port.as_str()) {
            Some(n) => n,
            None => {
                return Err("local port must be a number 1-65535".to_owned());
            },
        };
        let remote_host = text::trim(self.remote_host.as_str());
        let mut remote_port: u16 = 0;
        if self.forward != ForwardType::Dynamic {
            remote_port = match read_port(self.remote_port.as_str()) {
                Some(n) => n,
                None => {
                    return Err("remote port must be a number 1-65535".to_owned());
                },
            };
            if self.forward == ForwardType::Local && remote_host.as_str().is_empty() {
                return Err("remote destination host is required for -L".to_owned());
            }
        }
        Ok(
            Tunnel {
                name,
                group: text::trim(self.group.as_str()),
                ssh_host,
                forward: self.forward,
                local_port,
                remote_host,
                remote_port,
                extra_args: text::trim(self.extra_args.as_str()),
                auto_reconnect: self.auto_reconnect,
                requires_vpn: self.vpn.value(),
                depends_on: self.dep.value(),
            },
        )
    }
}

pub proof fn lemma_port_round_trip(n: u16)
    requires
        n > 0,
    ensures
        port_in(decimal(n as nat)) == Some(n as nat),
{
    law_number_round_trip(n as nat, 65535);
    number::lemma_decimal_reads_back(n as nat);
    let s = decimal(n as nat);
    assert(text::is_digit(s[0]));
    assert(text::is_digit(s[s.len() - 1]));
    text::lemma_trimmed_already(s);
}

/// A tunnel that a form could have made, opened in a form and read back
/// unchanged, comes out as it went in.
pub proof fn law_tunnel_round_trip(f: TunnelForm, t: Tunnel, u: Tunnel)
    requires
        f.shows(t),
        f.gives(u),
        trimmed(t.name@) == t.name@ && trimmed(t.group@) == t.group@,
        trimmed(t.ssh_host@) == t.ssh_host@ && trimmed(t.remote_host@) == t.remote_host@,
        trimmed(t.extra_args@) == t.extra_args@,
        canonical_text(t.requires_vpn@) == t.requires_vpn@,
        t.name@.len() > 0 && t.ssh_host@.len() > 0 && t.local_port > 0,
        t.forward == ForwardType::Dynamic <==> t.remote_port == 0,
        t.forward == ForwardType::Local ==> t.remote_host@.len() > 0,
    ensures
        f.fault() is None,
        u.name@ == t.name@ && u.group@ == t.group@ && u.ssh_host@ == t.ssh_host@,
        u.forward == t.forward && u.local_port == t.local_port && u.remote_port == t.remote_port,
        u.remote_host@ == t.remote_host@ && u.extra_args@ == t.extra_args@,
        u.auto_reconnect == t.auto_reconnect,
        u.requires_vpn@ == t.requires_vpn@ && u.depends_on@ == t.depends_on@,
{
    lemma_port_round_trip(t.local_port);
    if t.remote_port > 0 {
        lemma_port_round_trip(t.remote_port);
    }
}

/// Going to the next field and back, or back and on again, ends where it began,
/// and always on a field that applies.
pub proof fn law_fields_cycle(i: int, forward: ForwardType)
    requires
        0 <= i < FORM_FIELD_COUNT,
    ensures
        FormField::at_spec(TunnelForm::next_line(i, forward)).applies_spec(forward),
        FormField::at_spec(TunnelForm::prev_line(i, forward)).applies_spec(forward),
        FormField::at_spec(i).applies_spec(forward) ==> TunnelForm::prev_line(
            TunnelForm::next_line(i, forward),
            forward,
        ) == i && TunnelForm::next_line(TunnelForm::prev_line(i, forward), forward) == i,
{
}

}
