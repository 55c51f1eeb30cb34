//! The form an ssh host is added or edited with.

use vstd::prelude::*;
use crate::number::{self, decimal};
use crate::picker::{tunnel_options, vpn_options, with_current, Picker, PickerKind};
use crate::text::{self, texts, trimmed};
use crate::tunnel_form::{lemma_port_round_trip, port_in, read_port, FormContext};
use crate::types::{canonical_text, SshHost, Tunnel};
use crate::vpn_view::ProviderState;

verus! {

#[derive(Debug, Clone, Copy, PartialEq, Eq, Structural)]
pub enum SshField {
    Name,
    Group,
    Host,
    Port,
    Username,
    KeyPath,
    Password,
    SkipHostKey,
    RequiresVpn,
    DependsOn,
    ExtraArgs,
}

/// How many fields the form has.
pub const SSH_FIELD_COUNT: usize = 11;

impl SshField {
    /// The fields from top to bottom.
    pub open spec fn at_spec(i: int) -> SshField {
        if i == 0 {
            SshField::Name
        } else if i == 1 {
            SshField::Group
        } else if i == 2 {
            SshField::Host
        } else if i == 3 {
            SshField::Port
        } else if i == 4 {
            SshField::Username
        } else if i == 5 {
            SshField::KeyPath
        } else if i == 6 {
            SshField::Password
        } else if i == 7 {
            SshField::SkipHostKey
        } else if i == 8 {
            SshField::RequiresVpn
        } else if i == 9 {
            SshField::DependsOn
        } else {
            SshField::ExtraArgs
        }
    }

    /// The field in line `i` of the form.
    pub fn at(i: usize) -> (r: SshField)
        ensures
            r == Self::at_spec(i as int),
    {
        if i == 0 {
            SshField::Name
        } else if i == 1 {
            SshField::Group
        } else if i == 2 {
            SshField::Host
        } else if i == 3 {
            SshField::Port
        } else if i == 4 {
            SshField::Username
        } else if i == 5 {
            SshField::KeyPath
        } else if i == 6 {
            SshField::Password
        } else if i == 7 {
            SshField::SkipHostKey
        } else if i == 8 {
            SshField::RequiresVpn
        } else if i == 9 {
            SshField::DependsOn
        } else {
            SshField::ExtraArgs
        }
    }

    pub open spec fn label_spec(self) -> Seq<char> {
        match self {
            SshField::Name => "Name"@,
            SshField::Group => "Group (optional)"@,
            SshField::Host => "Host / IP"@,
            SshField::Port => "Port"@,
            SshField::Username => "Username (optional)"@,
            SshField::KeyPath => "Key file (optional, ~ ok)"@,
            SshField::Password => "Password (optional, cleartext!)"@,
            SshField::SkipHostKey => "Skip host key verification"@,
            SshField::RequiresVpn => "Requires VPN"@,
            SshField::DependsOn => "Requires tunnel"@,
            SshField::ExtraArgs => "Extra ssh args (optional)"@,
        }
    }

    pub fn label(self) -> (r: &'static str)
        ensures
            r@ == self.label_spec(),
    {
        match self {
            SshField::Name => "Name",
            SshField::Group => "Group (optional)",
            SshField::Host => "Host / IP",
            SshField::Port => "Port",
            SshField::Username => "Username (optional)",
            SshField::KeyPath => "Key file (optional, ~ ok)",
            SshField::Password => "Password (optional, cleartext!)",
            SshField::SkipHostKey => "Skip host key verification",
            SshField::RequiresVpn => "Requires VPN",
            SshField::DependsOn => "Requires tunnel",
            SshField::ExtraArgs => "Extra ssh args (optional)",
        }
    }

    pub open spec fn is_picker_spec(self) -> bool {
        self == SshField::SkipHostKey || self == SshField::RequiresVpn || self == SshField::DependsOn
    }

    /// Toggled with ◂ ▸ instead of typed into.
    pub fn is_picker(self) -> (r: bool)
        ensures
            r == self.is_picker_spec(),
    {
        matches!(self, SshField::SkipHostKey | SshField::RequiresVpn | SshField::DependsOn)
    }
}

#[derive(Debug)]
pub struct SshForm {
    pub field_idx: usize,
    pub name: String,
    pub group: String,
    pub host: String,
    pub port: String,
    pub username: String,
    pub key_path: String,
    pub password: String,
    pub skip_host_key_check: bool,
    pub vpn: Picker,
    pub dep: Picker,
    pub extra_args: String,
    pub error: Option<String>,
    /// Set once the user has acknowledged the cleartext-password warning for
    /// this edit, so saving again does not ask twice.
    pub password_ack: bool,
}

impl SshForm {
    pub open spec fn wf(&self) -> bool {
        self.field_idx < SSH_FIELD_COUNT && self.vpn.wf() && self.dep.wf()
    }

    /// Nothing filled in, whatever the group.
    pub open spec fn blank(&self, clients: Seq<ProviderState>, tunnels: Seq<Tunnel>) -> bool {
        &&& self.wf()
        &&& self.field_idx == 0 && self.name@.len() == 0 && self.host@.len() == 0
        &&& self.port@ == "22"@
        &&& self.username@.len() == 0 && self.key_path@.len() == 0 && self.password@.len() == 0
        &&& self.extra_args@.len() == 0 && !self.skip_host_key_check && !self.password_ack
        &&& self.error is None
        &&& self.vpn.idx == 0 && self.dep.idx == 0
        &&& self.vpn.value_spec().len() == 0 && self.dep.value_spec().len() == 0
        &&& texts(self.vpn.options@) == vpn_options(clients)
        &&& texts(self.dep.options@) == tunnel_options(tunnels, None)
        &&& self.vpn.kind == PickerKind::Vpn && self.dep.kind == PickerKind::Tunnel
    }

    /// Nothing filled in but the usual port, and the pickers on "none".
    pub fn empty(ctx: FormContext) -> (r: Self)
        ensures
            r.blank(ctx.vpn.providers@, ctx.tunnels@),
            r.group@.len() == 0,
    {
        proof {
            reveal_strlit("");
            assert(""@.len() == 0);
            assert(trimmed(""@).len() == 0);
        }
        SshForm {
            field_idx: 0,
            name: String::new(),
            group: String::new(),
            host: String::new(),
            port: "22".to_owned(),
            username: String::new(),
            key_path: String::new(),
            password: String::new(),
            skip_host_key_check: false,
            vpn: Picker::vpn(ctx.vpn, ""),
            dep: Picker::tunnels(ctx.tunnels, "", None),
            extra_args: String::new(),
            error: None,
            password_ack: false,
        }
    }

    /// The form filled in with a host.
    pub open spec fn shows(&self, h: SshHost) -> bool {
        &&& self.name@ == h.name@
        &&& self.group@ == h.group@
        &&& self.host@ == h.host@
        &&& self.port@ == decimal(h.port as nat)
        &&& self.username@ == h.username@
        &&& self.key_path@ == h.key_path@
        &&& self.password@ == h.password@
        &&& self.skip_host_key_check == h.skip_host_key_check
        &&& self.extra_args@ == h.extra_args@
        &&& self.vpn.value_spec() == canonical_text(h.requires_vpn@)
        &&& self.dep.value_spec() == h.depends_on@
    }

    /// The form as it opens on an entry.
    pub open spec fn opened(
        &self,
        h: SshHost,
        clients: Seq<ProviderState>,
        tunnels: Seq<Tunnel>,
    ) -> bool {
        &&& self.wf()
        &&& self.field_idx == 0
        &&& self.error is None
        // Already stored: the warning was accepted when it was first saved.
        &&& self.password_ack == (h.password@.len() > 0)
        &&& self.shows(h)
        &&& texts(self.vpn.options@) == with_current(
            vpn_options(clients),
            canonical_text(h.requires_vpn@),
        )
        &&& texts(self.dep.options@) == with_current(
            tunnel_options(tunnels, None),
            h.depends_on@,
        )
        &&& self.vpn.kind == PickerKind::Vpn && self.dep.kind == PickerKind::Tunnel
    }

    pub fn from_host(h: &SshHost, ctx: FormContext) -> (r: Self)
        ensures
            r.opened(*h, ctx.vpn.providers@, ctx.tunnels@),
    {
        SshForm {
            field_idx: 0,
            name: h.name.clone(),
            group: h.group.clone(),
            host: h.host.clone(),
            port: number::write(h.port as u64),
            username: h.username.clone(),
            key_path: h.key_path.clone(),
            password: h.password.clone(),
            skip_host_key_check: h.skip_host_key_check,
            vpn: Picker::vpn(ctx.vpn, h.requires_vpn.as_str()),
            dep: Picker::tunnels(ctx.tunnels, h.depends_on.as_str(), None),
            extra_args: h.extra_args.clone(),
            error: None,
            password_ack: !h.password.as_str().is_empty(),
        }
    }

    pub fn field(&self) -> (r: SshField)
        ensures
            r == SshField::at_spec(self.field_idx as int),
    {
        SshField::at(self.field_idx)
    }

    pub fn next_field(&mut self)
        requires
            old(self).wf(),
        ensures
            *final(self) == (SshForm { field_idx: final(self).field_idx, ..*old(self) }),
            final(self).field_idx == Picker::next_idx(old(self).field_idx as int, SSH_FIELD_COUNT as int),
            final(self).wf(),
    {
        self.field_idx = (self.field_idx + 1) % SSH_FIELD_COUNT;
    }

    pub fn prev_field(&mut self)
        requires
            old(self).wf(),
        ensures
            *final(self) == (SshForm { field_idx: final(self).field_idx, ..*old(self) }),
            final(self).field_idx == Picker::prev_idx(old(self).field_idx as int, SSH_FIELD_COUNT as int),
            final(self).wf(),
    {
        self.field_idx = (self.field_idx + SSH_FIELD_COUNT - 1) % SSH_FIELD_COUNT;
    }

    /// The text being typed into, on a field that is typed into.
    pub fn active_text_mut(&mut self) -> (r: Option<&mut String>)
        ensures
            match SshField::at_spec(old(self).field_idx as int) {
                SshField::Name => r is Some && *r->0 == old(self).name && *final(self) == (SshForm {
                    name: *final(r->0),
                    ..*old(self)
                }),
                SshField::Group => r is Some && *r->0 == old(self).group && *final(self) == (SshForm {
                    group: *final(r->0),
                    ..*old(self)
                }),
                SshField::Host => r is Some && *r->0 == old(self).host && *final(self) == (SshForm {
                    host: *final(r->0),
                    ..*old(self)
                }),
                SshField::Port => r is Some && *r->0 == old(self).port && *final(self) == (SshForm {
                    port: *final(r->0),
                    ..*old(self)
                }),
                SshField::Username => r is Some && *r->0 == old(self).username && *final(self) == (SshForm {
                    username: *final(r->0),
                    ..*old(self)
                }),
                SshField::KeyPath => r is Some && *r->0 == old(self).key_path && *final(self) == (SshForm {
                    key_path: *final(r->0),
                    ..*old(self)
                }),
                SshField::Password => r is Some && *r->0 == old(self).password && *final(self) == (SshForm {
                    password: *final(r->0),
                    ..*old(self)
                }),
                SshField::ExtraArgs => r is Some && *r->0 == old(self).extra_args && *final(self) == (SshForm {
                    extra_args: *final(r->0),
                    ..*old(self)
                }),
                _ => r is None && *final(self) == *old(self),
            },
    {
        match self.field() {
            SshField::Name => Some(&mut self.name),
            SshField::Group => Some(&mut self.group),
            SshField::Host => Some(&mut self.host),
            SshField::Port => Some(&mut self.port),
            SshField::Username => Some(&mut self.username),
            SshField::KeyPath => Some(&mut self.key_path),
            SshField::Password => Some(&mut self.password),
            SshField::ExtraArgs => Some(&mut self.extra_args),
            _ => None,
        }
    }

    /// Why the form does not make a host, where it does not.
    pub open spec fn fault(&self) -> Option<Seq<char>> {
        if trimmed(self.name@).len() == 0 {
            Some("name is required"@)
        } else if trimmed(self.host@).len() == 0 {
            Some("host is required"@)
        } else if port_in(self.port@) is None {
            Some("port must be a number 1-65535"@)
        } else {
            None
        }
    }

    /// The host is what the form says. A password is kept as it was typed,
    /// white space and all.
    pub open spec fn gives(&self, h: SshHost) -> bool {
        &&& h.name@ == trimmed(self.name@)
        &&& h.group@ == trimmed(self.group@)
        &&& h.host@ == trimmed(self.host@)
        &&& Some(h.port as nat) == port_in(self.port@)
        &&& h.username@ == trimmed(self.username@)
        &&& h.key_path@ == trimmed(self.key_path@)
        &&& h.password@ == self.password@
        &&& h.skip_host_key_check == self.skip_host_key_check
        &&& h.extra_args@ == trimmed(self.extra_args@)
        &&& h.depends_on@ == self.dep.value_spec()
        &&& h.requires_vpn@ == self.vpn.value_spec()
    }

    pub fn to_host(&self) -> (r: Result<SshHost, String>)
        ensures
            r is Ok <==> self.fault() is None,
            r is Ok ==> self.gives(r->Ok_0),
            r is Err ==> r->Err_0@ == self.fault()->0,
    {
        let name = text::trim(self.name.as_str());
        if name.as_str().is_empty() {
            return Err("name is required".to_owned());
        }
        let host = text::trim(self.host.as_str());
        if host.as_str().is_empty() {
            return Err("host is required".to_owned());
        }
        let port: u16 = match read_port(self.port.as_str()) {
            Some(n) => n,
            None => {
                return Err("port must be a number 1-65535".to_owned());
            },
        };
        Ok(
            SshHost {
                name,
                group: text::trim(self.group.as_str()),
                host,
                port,
                username: text::trim(self.username.as_str()),
                key_path: text::trim(self.key_path.as_str()),
                password: self.password.clone(),
                skip_host_key_check: self.skip_host_key_check,
                extra_args: text::trim(self.extra_args.as_str()),
                depends_on: self.dep.value(),
                requires_vpn: self.vpn.value(),
            },
        )
    }
}

/// A host that a form could have made, opened in a form and read back
/// unchanged, comes out as it went in.
pub proof fn law_ssh_round_trip(f: SshForm, h: SshHost, k: SshHost)
    requires
        f.shows(h),
        f.gives(k),
        trimmed(h.name@) == h.name@ && trimmed(h.group@) == h.group@,
        trimmed(h.host@) == h.host@ && trimmed(h.username@) == h.username@,
        trimmed(h.key_path@) == h.key_path@ && trimmed(h.extra_args@) == h.extra_args@,
        canonical_text(h.requires_vpn@) == h.requires_vpn@,
        h.name@.len() > 0 && h.host@.len() > 0 && h.port > 0,
    ensures
        f.fault() is None,
        k.name@ == h.name@ && k.group@ == h.group@ && k.host@ == h.host@ && k.port == h.port,
        k.username@ == h.username@ && k.key_path@ == h.key_path@ && k.password@ == h.password@,
        k.skip_host_key_check == h.skip_host_key_check && k.extra_args@ == h.extra_args@,
        k.depends_on@ == h.depends_on@ && k.requires_vpn@ == h.requires_vpn@,
{
    lemma_port_round_trip(h.port);
}

/// What the ssh tab has open on top of itself.
#[derive(Debug, Clone, Copy, PartialEq, Eq, Structural)]
pub enum SshMode {
    Closed,
    Add,
    Edit(usize),
    DeleteConfirm(usize),
    /// Cleartext-password warning shown before the form is saved.
    PasswordWarning,
}

}
