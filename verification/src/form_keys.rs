//! The keys of the forms: moving between fields, typing, and turning a picker.

use vstd::prelude::*;
use crate::picker::Picker;
use crate::rdp_form::{RdpField, RdpForm, RDP_FIELD_COUNT};
use crate::screen::{Key, KeyCode};
use crate::ssh_form::{SshField, SshForm, SSH_FIELD_COUNT};
use crate::tunnel_form::{FormField, TunnelForm};
use crate::vpn::ProviderId;
use crate::vpn_form::{VpnForm, VpnKey};

verus! {

/// What a key in a form leads to.
#[derive(Debug, Clone, Copy, PartialEq, Eq, Structural)]
pub enum FormStep {
    Stay,
    Close,
    Submit,
    /// Pick a file for the field under the cursor.
    Browse,
    /// Make a key pair for the form.
    Generate,
}

/// A text with one more character.
pub open spec fn add_char(c: char) -> spec_fn(Seq<char>) -> Seq<char> {
    |s: Seq<char>| s.push(c)
}

/// A text without its last character.
pub open spec fn drop_char() -> spec_fn(Seq<char>) -> Seq<char> {
    |s: Seq<char>|
        if s.len() == 0 {
            s
        } else {
            s.drop_last()
        }
}

/// Some other text in its place.
pub open spec fn set_to(t: Seq<char>) -> spec_fn(Seq<char>) -> Seq<char> {
    |s: Seq<char>| t
}

/// A picker turned one on or one back.
pub open spec fn turned(a: Picker, b: Picker, forward: bool) -> bool {
    &&& b.kind == a.kind
    &&& b.options == a.options
    &&& b.idx == if forward {
        Picker::next_idx(a.idx as int, a.options@.len() as int)
    } else {
        Picker::prev_idx(a.idx as int, a.options@.len() as int)
    }
}

fn turn(p: &mut Picker, forward: bool)
    requires
        old(p).wf(),
    ensures
        final(p).wf(),
        turned(*old(p), *final(p), forward),
{
    if forward {
        p.next();
    } else {
        p.prev();
    }
}

// ---------------------------------------------------------------------------
// Tunnels
// ---------------------------------------------------------------------------

impl TunnelForm {
    /// The field under the cursor holds text.
    pub open spec fn on_text(&self) -> bool {
        match FormField::at_spec(self.field_idx as int) {
            FormField::Name
            | FormField::Group
            | FormField::SshHost
            | FormField::LocalPort
            | FormField::RemoteHost
            | FormField::RemotePort
            | FormField::ExtraArgs => true,
            _ => false,
        }
    }

    /// The text under the cursor has been changed by `f`, and nothing else.
    pub open spec fn edited(a: TunnelForm, b: TunnelForm, f: spec_fn(Seq<char>) -> Seq<char>) -> bool {
        match FormField::at_spec(a.field_idx as int) {
            FormField::Name => b == (TunnelForm { name: b.name, ..a }) && b.name@ == f(a.name@),
            FormField::Group => b == (TunnelForm { group: b.group, ..a })
                && b.group@ == f(a.group@),
            FormField::SshHost => b == (TunnelForm { ssh_host: b.ssh_host, ..a })
                && b.ssh_host@ == f(a.ssh_host@),
            FormField::LocalPort => b == (TunnelForm { local_port: b.local_port, ..a })
                && b.local_port@ == f(a.local_port@),
            FormField::RemoteHost => b == (TunnelForm { remote_host: b.remote_host, ..a })
                && b.remote_host@ == f(a.remote_host@),
            FormField::RemotePort => b == (TunnelForm { remote_port: b.remote_port, ..a })
                && b.remote_port@ == f(a.remote_port@),
            FormField::ExtraArgs => b == (TunnelForm { extra_args: b.extra_args, ..a })
                && b.extra_args@ == f(a.extra_args@),
            _ => b == a,
        }
    }

    /// The picker under the cursor has been turned.
    pub open spec fn cycled(a: TunnelForm, b: TunnelForm, forward: bool) -> bool {
        match FormField::at_spec(a.field_idx as int) {
            FormField::Forward => b == (TunnelForm {
                forward: if forward {
                    a.forward.next_spec()
                } else {
                    a.forward.prev_spec()
                },
                ..a
            }),
            FormField::AutoReconnect => b == (TunnelForm { auto_reconnect: !a.auto_reconnect, ..a }),
            FormField::RequiresVpn => b == (TunnelForm { vpn: b.vpn, ..a })
                && turned(a.vpn, b.vpn, forward),
            FormField::DependsOn => b == (TunnelForm { dep: b.dep, ..a })
                && turned(a.dep, b.dep, forward),
            _ => b == a,
        }
    }

    /// What a key in the form does to it.
    pub open spec fn keyed(a: TunnelForm, b: TunnelForm, key: Key) -> bool {
        match key.code {
            KeyCode::Tab | KeyCode::Down => b == (TunnelForm { field_idx: b.field_idx, ..a })
                && b.field_idx == Self::next_line(a.field_idx as int, a.forward),
            KeyCode::BackTab | KeyCode::Up => b == (TunnelForm { field_idx: b.field_idx, ..a })
                && b.field_idx == Self::prev_line(a.field_idx as int, a.forward),
            KeyCode::Left => Self::cycled(a, b, false),
            KeyCode::Right => Self::cycled(a, b, true),
            KeyCode::Backspace => Self::edited(a, b, drop_char()),
            KeyCode::Char(c) => if a.on_text() {
                Self::edited(a, b, add_char(c))
            } else {
                Self::cycled(a, b, true)
            },
            _ => b == a,
        }
    }

    /// What a key in the form leads to.
    pub open spec fn leads_to(key: Key) -> FormStep {
        match key.code {
            KeyCode::Esc => FormStep::Close,
            KeyCode::Enter => FormStep::Submit,
            _ => FormStep::Stay,
        }
    }

    /// Turn the picker under the cursor.
    pub fn cycle(&mut self, forward: bool)
        requires
            old(self).wf(),
        ensures
            final(self).wf(),
            Self::cycled(*old(self), *final(self), forward),
    {
        match self.field() {
            FormField::Forward => {
                self.forward = if forward {
                    self.forward.next()
                } else {
                    self.forward.prev()
                };
            },
            FormField::AutoReconnect => {
                self.auto_reconnect = !self.auto_reconnect;
            },
            FormField::RequiresVpn => turn(&mut self.vpn, forward),
            FormField::DependsOn => turn(&mut self.dep, forward),
            _ => {},
        }
    }

    /// Type a character into the field under the cursor.
    pub fn type_char(&mut self, c: char)
        requires
            old(self).wf(),
        ensures
            final(self).wf(),
            Self::edited(*old(self), *final(self), add_char(c)),
    {
        match self.active_text_mut() {
            Some(text) => text.push(c),
            None => {},
        }
    }

    /// Take the last character off the field under the cursor.
    pub fn erase(&mut self)
        requires
            old(self).wf(),
        ensures
            final(self).wf(),
            Self::edited(*old(self), *final(self), drop_char()),
    {
        match self.active_text_mut() {
            Some(text) => {
                let _ = text.pop();
            },
            None => {},
        }
    }

    /// A key in the form.
    pub fn press(&mut self, key: Key) -> (r: FormStep)
        requires
            old(self).wf(),
        ensures
            final(self).wf(),
            Self::keyed(*old(self), *final(self), key),
            r == Self::leads_to(key),
    {
        match key.code {
            KeyCode::Esc => {
                return FormStep::Close;
            },
            KeyCode::Enter => {
                return FormStep::Submit;
            },
            KeyCode::Tab | KeyCode::Down => self.next_field(),
            KeyCode::BackTab | KeyCode::Up => self.prev_field(),
            KeyCode::Left => self.cycle(false),
            KeyCode::Right => self.cycle(true),
            KeyCode::Backspace => self.erase(),
            KeyCode::Char(c) => {
                if self.field().is_picker() {
                    self.cycle(true);
                } else {
                    self.type_char(c);
                }
            },
            _ => {},
        }
        FormStep::Stay
    }
}

// ---------------------------------------------------------------------------
// RDP connections
// ---------------------------------------------------------------------------

impl RdpForm {
    /// The field under the cursor holds text.
    pub open spec fn on_text(&self) -> bool {
        match RdpField::at_spec(self.field_idx as int) {
            RdpField::Name
            | RdpField::Group
            | RdpField::Host
            | RdpField::Port
            | RdpField::Domain
            | RdpField::Username
            | RdpField::ExtraArgs => true,
            _ => false,
        }
    }

    /// The text under the cursor has been changed by `f`, and nothing else.
    pub open spec fn edited(a: RdpForm, b: RdpForm, f: spec_fn(Seq<char>) -> Seq<char>) -> bool {
        match RdpField::at_spec(a.field_idx as int) {
            RdpField::Name => b == (RdpForm { name: b.name, ..a }) && b.name@ == f(a.name@),
            RdpField::Group => b == (RdpForm { group: b.group, ..a }) && b.group@ == f(a.group@),
            RdpField::Host => b == (RdpForm { host: b.host, ..a }) && b.host@ == f(a.host@),
            RdpField::Port => b == (RdpForm { port: b.port, ..a }) && b.port@ == f(a.port@),
            RdpField::Domain => b == (RdpForm { domain: b.domain, ..a })
                && b.domain@ == f(a.domain@),
            RdpField::Username => b == (RdpForm { username: b.username, ..a })
                && b.username@ == f(a.username@),
            RdpField::ExtraArgs => b == (RdpForm { extra_args: b.extra_args, ..a })
                && b.extra_args@ == f(a.extra_args@),
            _ => b == a,
        }
    }

    /// The picker under the cursor has been turned.
    pub open spec fn cycled(a: RdpForm, b: RdpForm, forward: bool) -> bool {
        match RdpField::at_spec(a.field_idx as int) {
            RdpField::RequiresVpn => b == (RdpForm { vpn: b.vpn, ..a })
                && turned(a.vpn, b.vpn, forward),
            RdpField::DependsOn => b == (RdpForm { dep: b.dep, ..a })
                && turned(a.dep, b.dep, forward),
            _ => b == a,
        }
    }

    /// What a key in the form does to it.
    pub open spec fn keyed(a: RdpForm, b: RdpForm, key: Key) -> bool {
        match key.code {
            KeyCode::Tab | KeyCode::Down => b == (RdpForm { field_idx: b.field_idx, ..a })
                && b.field_idx == Picker::next_idx(
                a.field_idx as int,
                RDP_FIELD_COUNT as int,
            ),
            KeyCode::BackTab | KeyCode::Up => b == (RdpForm { field_idx: b.field_idx, ..a })
                && b.field_idx == Picker::prev_idx(
                a.field_idx as int,
                RDP_FIELD_COUNT as int,
            ),
            KeyCode::Left => Self::cycled(a, b, false),
            KeyCode::Right => Self::cycled(a, b, true),
            KeyCode::Backspace => Self::edited(a, b, drop_char()),
            KeyCode::Char(c) => if a.on_text() {
                Self::edited(a, b, add_char(c))
            } else {
                Self::cycled(a, b, true)
            },
            _ => b == a,
        }
    }

    /// What a key in the form leads to.
    pub open spec fn leads_to(key: Key) -> FormStep {
        match key.code {
            KeyCode::Esc => FormStep::Close,
            KeyCode::Enter => FormStep::Submit,
            _ => FormStep::Stay,
        }
    }

    /// Turn the picker under the cursor.
    pub fn cycle(&mut self, forward: bool)
        requires
            old(self).wf(),
        ensures
            final(self).wf(),
            Self::cycled(*old(self), *final(self), forward),
    {
        match self.field() {
            RdpField::RequiresVpn => turn(&mut self.vpn, forward),
            RdpField::DependsOn => turn(&mut self.dep, forward),
            _ => {},
        }
    }

    /// Type a character into the field under the cursor.
    pub fn type_char(&mut self, c: char)
        requires
            old(self).wf(),
        ensures
            final(self).wf(),
            Self::edited(*old(self), *final(self), add_char(c)),
    {
        match self.active_text_mut() {
            Some(text) => text.push(c),
            None => {},
        }
    }

    /// Take the last character off the field under the cursor.
    pub fn erase(&mut self)
        requires
            old(self).wf(),
        ensures
            final(self).wf(),
            Self::edited(*old(self), *final(self), drop_char()),
    {
        match self.active_text_mut() {
            Some(text) => {
                let _ = text.pop();
            },
            None => {},
        }
    }

    /// A key in the form.
    pub fn press(&mut self, key: Key) -> (r: FormStep)
        requires
            old(self).wf(),
        ensures
            final(self).wf(),
            Self::keyed(*old(self), *final(self), key),
            r == Self::leads_to(key),
    {
        match key.code {
            KeyCode::Esc => {
                return FormStep::Close;
            },
            KeyCode::Enter => {
                return FormStep::Submit;
            },
            KeyCode::Tab | KeyCode::Down => self.next_field(),
            KeyCode::BackTab | KeyCode::Up => self.prev_field(),
            KeyCode::Left => self.cycle(false),
            KeyCode::Right => self.cycle(true),
            KeyCode::Backspace => self.erase(),
            KeyCode::Char(c) => {
                if self.field().is_picker() {
                    self.cycle(true);
                } else {
                    self.type_char(c);
                }
            },
            _ => {},
        }
        FormStep::Stay
    }
}

// ---------------------------------------------------------------------------
// SSH hosts
// ---------------------------------------------------------------------------

impl SshForm {
    /// The field under the cursor holds text.
    pub open spec fn on_text(&self) -> bool {
        match SshField::at_spec(self.field_idx as int) {
            SshField::Name
            | SshField::Group
            | SshField::Host
            | SshField::Port
            | SshField::Username
            | SshField::KeyPath
            | SshField::Password
            | SshField::ExtraArgs => true,
            _ => false,
        }
    }

    /// The text under the cursor has been changed by `f`, and nothing else.
    pub open spec fn edited(a: SshForm, b: SshForm, f: spec_fn(Seq<char>) -> Seq<char>) -> bool {
        match SshField::at_spec(a.field_idx as int) {
            SshField::Name => b == (SshForm { name: b.name, ..a }) && b.name@ == f(a.name@),
            SshField::Group => b == (SshForm { group: b.group, ..a }) && b.group@ == f(a.group@),
            SshField::Host => b == (SshForm { host: b.host, ..a }) && b.host@ == f(a.host@),
            SshField::Port => b == (SshForm { port: b.port, ..a }) && b.port@ == f(a.port@),
            SshField::Username => b == (SshForm { username: b.username, ..a })
                && b.username@ == f(a.username@),
            SshField::KeyPath => b == (SshForm { key_path: b.key_path, ..a })
                && b.key_path@ == f(a.key_path@),
            SshField::Password => b == (SshForm { password: b.password, ..a })
                && b.password@ == f(a.password@),
            SshField::ExtraArgs => b == (SshForm { extra_args: b.extra_args, ..a })
                && b.extra_args@ == f(a.extra_args@),
            _ => b == a,
        }
    }

    /// The picker under the cursor has been turned.
    pub open spec fn cycled(a: SshForm, b: SshForm, forward: bool) -> bool {
        match SshField::at_spec(a.field_idx as int) {
            SshField::SkipHostKey => b == (SshForm { skip_host_key_check: !a.skip_host_key_check, ..a }),
            SshField::RequiresVpn => b == (SshForm { vpn: b.vpn, ..a })
                && turned(a.vpn, b.vpn, forward),
            SshField::DependsOn => b == (SshForm { dep: b.dep, ..a })
                && turned(a.dep, b.dep, forward),
            _ => b == a,
        }
    }

    /// What a key in the form does to it.
    pub open spec fn keyed(a: SshForm, b: SshForm, key: Key) -> bool {
        match key.code {
            KeyCode::Tab | KeyCode::Down => b == (SshForm { field_idx: b.field_idx, ..a })
                && b.field_idx == Picker::next_idx(
                a.field_idx as int,
                SSH_FIELD_COUNT as int,
            ),
            KeyCode::BackTab | KeyCode::Up => b == (SshForm { field_idx: b.field_idx, ..a })
                && b.field_idx == Picker::prev_idx(
                a.field_idx as int,
                SSH_FIELD_COUNT as int,
            ),
            KeyCode::Left => Self::cycled(a, b, false),
            KeyCode::Right => Self::cycled(a, b, true),
            KeyCode::Backspace => Self::edited(a, b, drop_char()),
            KeyCode::Char(c) => if c == 'o' && key.ctrl {
                b == a
            } else if a.on_text() {
                Self::edited(a, b, add_char(c))
            } else {
                Self::cycled(a, b, true)
            },
            _ => b == a,
        }
    }

    /// What a key in the form leads to.
    pub open spec fn leads_to(key: Key) -> FormStep {
        match key.code {
            KeyCode::Esc => FormStep::Close,
            KeyCode::Enter => FormStep::Submit,
            KeyCode::Char(c) => if c == 'o' && key.ctrl {
                FormStep::Browse
            } else {
                FormStep::Stay
            },
            _ => FormStep::Stay,
        }
    }

    /// Turn the picker under the cursor.
    pub fn cycle(&mut self, forward: bool)
        requires
            old(self).wf(),
        ensures
            final(self).wf(),
            Self::cycled(*old(self), *final(self), forward),
    {
        match self.field() {
            SshField::SkipHostKey => {
                self.skip_host_key_check = !self.skip_host_key_check;
            },
            SshField::RequiresVpn => turn(&mut self.vpn, forward),
            SshField::DependsOn => turn(&mut self.dep, forward),
            _ => {},
        }
    }

    /// Type a character into the field under the cursor.
    pub fn type_char(&mut self, c: char)
        requires
            old(self).wf(),
        ensures
            final(self).wf(),
            Self::edited(*old(self), *final(self), add_char(c)),
    {
        match self.active_text_mut() {
            Some(text) => text.push(c),
            None => {},
        }
    }

    /// Take the last character off the field under the cursor.
    pub fn erase(&mut self)
        requires
            old(self).wf(),
        ensures
            final(self).wf(),
            Self::edited(*old(self), *final(self), drop_char()),
    {
        match self.active_text_mut() {
            Some(text) => {
                let _ = text.pop();
            },
            None => {},
        }
    }

    /// Put a text into the field under the cursor.
    pub fn put_text(&mut self, text: String)
        requires
            old(self).wf(),
        ensures
            final(self).wf(),
            Self::edited(*old(self), *final(self), set_to(text@)),
    {
        match self.active_text_mut() {
            Some(slot) => {
                *slot = text;
            },
            None => {},
        }
    }

    /// A key in the form.
    pub fn press(&mut self, key: Key) -> (r: FormStep)
        requires
            old(self).wf(),
        ensures
            final(self).wf(),
            Self::keyed(*old(self), *final(self), key),
            r == Self::leads_to(key),
    {
        match key.code {
            KeyCode::Esc => {
                return FormStep::Close;
            },
            KeyCode::Enter => {
                return FormStep::Submit;
            },
            KeyCode::Tab | KeyCode::Down => self.next_field(),
            KeyCode::BackTab | KeyCode::Up => self.prev_field(),
            KeyCode::Left => self.cycle(false),
            KeyCode::Right => self.cycle(true),
            KeyCode::Backspace => self.erase(),
            KeyCode::Char(c) => {
                if c == 'o' && key.ctrl {
                    return FormStep::Browse;
                }
                if self.field().is_picker() {
                    self.cycle(true);
                } else {
                    self.type_char(c);
                }
            },
            _ => {},
        }
        FormStep::Stay
    }
}

// ---------------------------------------------------------------------------
// VPN profiles
// ---------------------------------------------------------------------------

impl VpnForm {
    /// The cursor is on a line that is there.
    pub open spec fn wf(&self) -> bool {
        self.field_idx < self.line_count() || self.line_count() == 0
    }

    /// The text under the cursor has been changed by `f`, and nothing else.
    pub open spec fn edited(a: VpnForm, b: VpnForm, f: spec_fn(Seq<char>) -> Seq<char>) -> bool {
        match a.key_at() {
            Some(k) => if k.flag_spec() {
                b == a
            } else {
                &&& b == (VpnForm { words: b.words, ..a })
                &&& b.word(k) == f(a.word(k))
                &&& forall|other: VpnKey|
                    other != k ==> #[trigger] b.word(other) == a.word(other)
            },
            None => b == a,
        }
    }

    /// The flag under the cursor has been flipped, and nothing else.
    pub open spec fn flipped(a: VpnForm, b: VpnForm) -> bool {
        match a.key_at() {
            Some(k) => if k.flag_spec() {
                &&& b == (VpnForm { flags: b.flags, ..a })
                &&& b.up(k) == !a.up(k)
                &&& forall|other: VpnKey| other != k ==> #[trigger] b.up(other) == a.up(other)
            } else {
                b == a
            },
            None => b == a,
        }
    }

    /// `g` on the private-key field generates a key pair instead of typing a g.
    pub open spec fn generates(a: VpnForm, key: Key) -> bool {
        a.provider == ProviderId::Wireguard && a.key_at() == Some(VpnKey::PrivateKey) && key.code
            == KeyCode::Char('g')
    }

    /// What a key in the form does to it.
    pub open spec fn keyed(a: VpnForm, b: VpnForm, key: Key) -> bool {
        let n = a.line_count() as int;
        match key.code {
            KeyCode::Tab | KeyCode::Down => b == (VpnForm { field_idx: b.field_idx, ..a })
                && b.field_idx == if n == 0 {
                a.field_idx as int
            } else {
                Picker::next_idx(a.field_idx as int, n)
            },
            KeyCode::BackTab | KeyCode::Up => b == (VpnForm { field_idx: b.field_idx, ..a })
                && b.field_idx == if n == 0 {
                a.field_idx as int
            } else {
                Picker::prev_idx(a.field_idx as int, n)
            },
            KeyCode::Left | KeyCode::Right => Self::flipped(a, b),
            KeyCode::Backspace => Self::edited(a, b, drop_char()),
            KeyCode::Char(c) => if c == 'o' && key.ctrl || Self::generates(a, key) {
                b == a
            } else {
                Self::edited(a, b, add_char(c))
            },
            _ => b == a,
        }
    }

    /// What a key in the form leads to.
    pub open spec fn leads_to(a: VpnForm, key: Key) -> FormStep {
        match key.code {
            KeyCode::Esc => FormStep::Close,
            KeyCode::Enter => FormStep::Submit,
            KeyCode::Char(c) => if c == 'o' && key.ctrl {
                FormStep::Browse
            } else if Self::generates(a, key) {
                FormStep::Generate
            } else {
                FormStep::Stay
            },
            _ => FormStep::Stay,
        }
    }

    /// Type a character into the field under the cursor.
    pub fn type_char(&mut self, c: char)
        requires
            old(self).wf(),
        ensures
            final(self).wf(),
            Self::edited(*old(self), *final(self), add_char(c)),
    {
        match self.active_text_mut() {
            Some(text) => text.push(c),
            None => {},
        }
    }

    /// Take the last character off the field under the cursor.
    pub fn erase(&mut self)
        requires
            old(self).wf(),
        ensures
            final(self).wf(),
            Self::edited(*old(self), *final(self), drop_char()),
    {
        match self.active_text_mut() {
            Some(text) => {
                let _ = text.pop();
            },
            None => {},
        }
    }

    /// Put a text into the field under the cursor.
    pub fn put_text(&mut self, text: String)
        requires
            old(self).wf(),
        ensures
            final(self).wf(),
            Self::edited(*old(self), *final(self), set_to(text@)),
    {
        match self.active_text_mut() {
            Some(slot) => {
                *slot = text;
            },
            None => {},
        }
    }

    /// A key in the form.
    pub fn press(&mut self, key: Key) -> (r: FormStep)
        requires
            old(self).wf(),
        ensures
            final(self).wf(),
            Self::keyed(*old(self), *final(self), key),
            r == Self::leads_to(*old(self), key),
    {
        match key.code {
            KeyCode::Esc => {
                return FormStep::Close;
            },
            KeyCode::Enter => {
                return FormStep::Submit;
            },
            KeyCode::Tab | KeyCode::Down => self.next_field(),
            KeyCode::BackTab | KeyCode::Up => self.prev_field(),
            KeyCode::Left | KeyCode::Right => self.toggle(),
            KeyCode::Backspace => self.erase(),
            KeyCode::Char(c) => {
                if c == 'o' && key.ctrl {
                    return FormStep::Browse;
                }
                let on_key = match self.field() {
                    Some(f) => f.key == VpnKey::PrivateKey,
                    None => false,
                };
                if self.provider == ProviderId::Wireguard && on_key && c == 'g' {
                    return FormStep::Generate;
                }
                self.type_char(c);
            },
            _ => {},
        }
        FormStep::Stay
    }
}

}
