//! What the forms show.

use vstd::prelude::*;
use crate::rdp_form::{RdpField, RdpForm, RDP_FIELD_COUNT};
use crate::sheet::{bit, bold, ink, line3, pieces, strong, Bit, Ink, Piece, Sheet};
use crate::ssh_form::{SshField, SshForm, SSH_FIELD_COUNT};
use crate::text::{cat, cat3};
use crate::tunnel_form::{FormField, TunnelForm, FORM_FIELD_COUNT};
use crate::ui::{fill, filled, scrolled, scrolled_text};
use crate::vpn::ProviderId;
use crate::vpn_form::{form_lines, lists, VpnFieldSpec, VpnForm, VpnKey};

verus! {

/// A line of a form: its name, its value, and a cursor where it is typed into.
pub open spec fn form_row(
    label: Seq<char>,
    label_width: int,
    active: bool,
    value: Piece,
    typed: bool,
) -> Seq<Piece> {
    seq![
        if active {
            strong(" "@ + filled(label, label_width), Ink::Accent)
        } else {
            ink(" "@ + filled(label, label_width), Ink::Dim)
        },
        value,
        ink(
            if active && typed {
                "▏"@
            } else {
                ""@
            },
            Ink::Accent,
        ),
    ]
}

fn row_of(label: &str, label_width: usize, active: bool, value: Bit, typed: bool) -> (r: Vec<Bit>)
    ensures
        pieces(r@) == form_row(label@, label_width as int, active, value@, typed),
{
    let head = cat(" ", fill(label, label_width).as_str());
    let name = if active {
        bold(head.as_str(), Ink::Accent)
    } else {
        bit(head.as_str(), Ink::Dim)
    };
    let cursor = if active && typed {
        "▏"
    } else {
        ""
    };
    line3(name, value, bit(cursor, Ink::Accent))
}

/// A value that is turned rather than typed.
pub open spec fn turning(s: Seq<char>) -> Seq<char> {
    "◂ "@ + s + " ▸"@
}

fn turner(s: &str) -> (r: String)
    ensures
        r@ == turning(s@),
{
    cat3("◂ ", s, " ▸")
}

pub open spec fn yes_no(b: bool) -> Seq<char> {
    if b {
        "yes"@
    } else {
        "no"@
    }
}

fn yes_or_no(b: bool) -> (r: &'static str)
    ensures
        r@ == yes_no(b),
{
    if b {
        "yes"
    } else {
        "no"
    }
}

/// What the keys of a form do.
pub open spec fn usual_hint() -> Seq<char> {
    " tab/↓ next · ↑ prev · ◂▸ toggle · Enter save · Esc cancel"@
}

pub open spec fn path_hint() -> Seq<char> {
    " Ctrl+O file picker · Enter save · Esc cancel"@
}

/// The foot of a form: what is wrong with it, or what the keys do.
pub open spec fn with_foot(out: Seq<Seq<Piece>>, error: Option<String>, on_path: bool) -> Seq<
    Seq<Piece>,
> {
    let out = out.push(Seq::empty());
    match error {
        Some(e) => out.push(seq![ink(" "@ + e@, Ink::Danger)]),
        None => if on_path {
            out.push(seq![ink(path_hint(), Ink::Dim)])
        } else {
            out.push(seq![ink(usual_hint(), Ink::Dim)])
        },
    }
}

fn add_foot(out: &mut Sheet, error: &Option<String>, on_path: bool)
    ensures
        final(out)@ == with_foot(old(out)@, *error, on_path),
{
    out.gap();
    match error {
        Some(e) => out.say(cat(" ", e.as_str()).as_str(), Ink::Danger),
        None => if on_path {
            out.say(" Ctrl+O file picker · Enter save · Esc cancel", Ink::Dim);
        } else {
            out.say(
                " tab/↓ next · ↑ prev · ◂▸ toggle · Enter save · Esc cancel",
                Ink::Dim,
            );
        },
    }
}

// ---------------------------------------------------------------------------
// Tunnels
// ---------------------------------------------------------------------------

impl TunnelForm {
    /// What a line holds.
    pub open spec fn value_spec(&self, f: FormField) -> Seq<char> {
        match f {
            FormField::Name => self.name@,
            FormField::Group => self.group@,
            FormField::SshHost => self.ssh_host@,
            FormField::Forward => turning(self.forward.label_spec()),
            FormField::LocalPort => self.local_port@,
            FormField::RemoteHost => self.remote_host@,
            FormField::RemotePort => self.remote_port@,
            FormField::ExtraArgs => self.extra_args@,
            FormField::AutoReconnect => turning(yes_no(self.auto_reconnect)),
            FormField::RequiresVpn => turning(self.vpn.label_spec()),
            FormField::DependsOn => turning(self.dep.label_spec()),
        }
    }

    fn value_of(&self, f: FormField) -> (r: String)
        ensures
            r@ == self.value_spec(f),
    {
        match f {
            FormField::Name => self.name.clone(),
            FormField::Group => self.group.clone(),
            FormField::SshHost => self.ssh_host.clone(),
            FormField::Forward => turner(self.forward.label()),
            FormField::LocalPort => self.local_port.clone(),
            FormField::RemoteHost => self.remote_host.clone(),
            FormField::RemotePort => self.remote_port.clone(),
            FormField::ExtraArgs => self.extra_args.clone(),
            FormField::AutoReconnect => turner(yes_or_no(self.auto_reconnect)),
            FormField::RequiresVpn => turner(self.vpn.label().as_str()),
            FormField::DependsOn => turner(self.dep.label().as_str()),
        }
    }

    /// A line of the form, with so much room for a value.
    pub open spec fn row_spec(&self, f: FormField, room: nat) -> Seq<Piece> {
        form_row(
            f.label_spec(self.forward),
            32,
            f == FormField::at_spec(self.field_idx as int),
            ink(
                if f.is_picker_spec() {
                    self.value_spec(f)
                } else {
                    scrolled_text(self.value_spec(f), room)
                },
                Ink::Text,
            ),
            !f.is_picker_spec(),
        )
    }

    /// The first `n` lines of the form.
    pub open spec fn rows_spec(&self, room: nat, n: nat) -> Seq<Seq<Piece>>
        decreases n,
    {
        if n == 0 {
            Seq::empty()
        } else {
            let before = self.rows_spec(room, (n - 1) as nat);
            let f = FormField::at_spec(n - 1);
            if f.applies_spec(self.forward) {
                before.push(self.row_spec(f, room))
            } else {
                before
            }
        }
    }

    /// What the form shows.
    pub open spec fn shown(&self, room: nat) -> Seq<Seq<Piece>> {
        with_foot(
            self.rows_spec(room, FORM_FIELD_COUNT as nat),
            self.error,
            false,
        )
    }

    /// What the form shows, with so much room for a value.
    pub fn sheet(&self, room: usize) -> (r: Sheet)
        ensures
            r@ == self.shown(room as nat),
    {
        let mut out = Sheet::new();
        let mut i: usize = 0;
        while i < FORM_FIELD_COUNT
            invariant
                i <= FORM_FIELD_COUNT,
                out@ == self.rows_spec(room as nat, i as nat),
            decreases FORM_FIELD_COUNT - i,
        {
            let f = FormField::at(i);
            if f.applies(self.forward) {
                let value = self.value_of(f);
                let text = if f.is_picker() {
                    value
                } else {
                    scrolled(value.as_str(), room)
                };
                let active = f == self.field();
                let colour = Ink::Text;
                out.add(
                    row_of(
                        f.label(self.forward),
                        32,
                        active,
                        bit(text.as_str(), colour),
                        !f.is_picker(),
                    ),
                );
            }
            i = i + 1;
        }
        add_foot(&mut out, &self.error, false);
        out
    }
}

// ---------------------------------------------------------------------------
// RDP connections
// ---------------------------------------------------------------------------

impl RdpForm {
    /// What a line holds.
    pub open spec fn value_spec(&self, f: RdpField) -> Seq<char> {
        match f {
            RdpField::Name => self.name@,
            RdpField::Group => self.group@,
            RdpField::Host => self.host@,
            RdpField::Port => self.port@,
            RdpField::Domain => self.domain@,
            RdpField::Username => self.username@,
            RdpField::ExtraArgs => self.extra_args@,
            RdpField::RequiresVpn => turning(self.vpn.label_spec()),
            RdpField::DependsOn => turning(self.dep.label_spec()),
        }
    }

    fn value_of(&self, f: RdpField) -> (r: String)
        ensures
            r@ == self.value_spec(f),
    {
        match f {
            RdpField::Name => self.name.clone(),
            RdpField::Group => self.group.clone(),
            RdpField::Host => self.host.clone(),
            RdpField::Port => self.port.clone(),
            RdpField::Domain => self.domain.clone(),
            RdpField::Username => self.username.clone(),
            RdpField::ExtraArgs => self.extra_args.clone(),
            RdpField::RequiresVpn => turner(self.vpn.label().as_str()),
            RdpField::DependsOn => turner(self.dep.label().as_str()),
        }
    }

    /// A line of the form, with so much room for a value.
    pub open spec fn row_spec(&self, f: RdpField, room: nat) -> Seq<Piece> {
        form_row(
            f.label_spec(),
            30,
            f == RdpField::at_spec(self.field_idx as int),
            ink(
                if f.is_picker_spec() {
                    self.value_spec(f)
                } else {
                    scrolled_text(self.value_spec(f), room)
                },
                Ink::Text,
            ),
            !f.is_picker_spec(),
        )
    }

    /// The first `n` lines of the form.
    pub open spec fn rows_spec(&self, room: nat, n: nat) -> Seq<Seq<Piece>>
        decreases n,
    {
        if n == 0 {
            Seq::empty()
        } else {
            let before = self.rows_spec(room, (n - 1) as nat);
            let f = RdpField::at_spec(n - 1);
            before.push(self.row_spec(f, room))
        }
    }

    /// What the form shows.
    pub open spec fn shown(&self, room: nat) -> Seq<Seq<Piece>> {
        with_foot(
            self.rows_spec(room, RDP_FIELD_COUNT as nat),
            self.error,
            false,
        )
    }

    /// What the form shows, with so much room for a value.
    pub fn sheet(&self, room: usize) -> (r: Sheet)
        ensures
            r@ == self.shown(room as nat),
    {
        let mut out = Sheet::new();
        let mut i: usize = 0;
        while i < RDP_FIELD_COUNT
            invariant
                i <= RDP_FIELD_COUNT,
                out@ == self.rows_spec(room as nat, i as nat),
            decreases RDP_FIELD_COUNT - i,
        {
            let f = RdpField::at(i);
            let value = self.value_of(f);
            let text = if f.is_picker() {
                value
            } else {
                scrolled(value.as_str(), room)
            };
            let active = f == self.field();
            let colour = Ink::Text;
            out.add(
                row_of(
                    f.label(),
                    30,
                    active,
                    bit(text.as_str(), colour),
                    !f.is_picker(),
                ),
            );
            i = i + 1;
        }
        add_foot(&mut out, &self.error, false);
        out
    }
}

// ---------------------------------------------------------------------------
// SSH hosts
// ---------------------------------------------------------------------------

impl SshForm {
    /// What a line holds.
    pub open spec fn value_spec(&self, f: SshField) -> Seq<char> {
        match f {
            SshField::Name => self.name@,
            SshField::Group => self.group@,
            SshField::Host => self.host@,
            SshField::Port => self.port@,
            SshField::Username => self.username@,
            SshField::KeyPath => self.key_path@,
            SshField::Password => self.password@,
            SshField::SkipHostKey => turning(yes_no(self.skip_host_key_check)),
            SshField::RequiresVpn => turning(self.vpn.label_spec()),
            SshField::DependsOn => turning(self.dep.label_spec()),
            SshField::ExtraArgs => self.extra_args@,
        }
    }

    fn value_of(&self, f: SshField) -> (r: String)
        ensures
            r@ == self.value_spec(f),
    {
        match f {
            SshField::Name => self.name.clone(),
            SshField::Group => self.group.clone(),
            SshField::Host => self.host.clone(),
            SshField::Port => self.port.clone(),
            SshField::Username => self.username.clone(),
            SshField::KeyPath => self.key_path.clone(),
            SshField::Password => self.password.clone(),
            SshField::SkipHostKey => turner(yes_or_no(self.skip_host_key_check)),
            SshField::RequiresVpn => turner(self.vpn.label().as_str()),
            SshField::DependsOn => turner(self.dep.label().as_str()),
            SshField::ExtraArgs => self.extra_args.clone(),
        }
    }

    /// A line of the form, with so much room for a value.
    pub open spec fn row_spec(&self, f: SshField, room: nat) -> Seq<Piece> {
        form_row(
            f.label_spec(),
            32,
            f == SshField::at_spec(self.field_idx as int),
            ink(
                if f.is_picker_spec() {
                    self.value_spec(f)
                } else {
                    scrolled_text(self.value_spec(f), room)
                },
                self.ink_spec(f),
            ),
            !f.is_picker_spec(),
        )
    }

    /// The first `n` lines of the form.
    pub open spec fn rows_spec(&self, room: nat, n: nat) -> Seq<Seq<Piece>>
        decreases n,
    {
        if n == 0 {
            Seq::empty()
        } else {
            let before = self.rows_spec(room, (n - 1) as nat);
            let f = SshField::at_spec(n - 1);
            before.push(self.row_spec(f, room))
        }
    }

    /// What the form shows.
    pub open spec fn shown(&self, room: nat) -> Seq<Seq<Piece>> {
        with_foot(
            self.rows_spec(room, SSH_FIELD_COUNT as nat),
            self.error,
            SshField::at_spec(self.field_idx as int) == SshField::KeyPath,
        )
    }

    /// What the form shows, with so much room for a value.
    pub fn sheet(&self, room: usize) -> (r: Sheet)
        ensures
            r@ == self.shown(room as nat),
    {
        let mut out = Sheet::new();
        let mut i: usize = 0;
        while i < SSH_FIELD_COUNT
            invariant
                i <= SSH_FIELD_COUNT,
                out@ == self.rows_spec(room as nat, i as nat),
            decreases SSH_FIELD_COUNT - i,
        {
            let f = SshField::at(i);
            let value = self.value_of(f);
            let text = if f.is_picker() {
                value
            } else {
                scrolled(value.as_str(), room)
            };
            let active = f == self.field();
            let colour = self.ink_of(f);
            out.add(
                row_of(
                    f.label(),
                    32,
                    active,
                    bit(text.as_str(), colour),
                    !f.is_picker(),
                ),
            );
            i = i + 1;
        }
        add_foot(&mut out, &self.error, self.field() == SshField::KeyPath);
        out
    }
}

impl SshForm {
    /// A password in the clear and a check that is skipped are marked.
    pub open spec fn ink_spec(&self, f: SshField) -> Ink {
        if f == SshField::Password && self.password@.len() > 0 || f == SshField::SkipHostKey
            && self.skip_host_key_check {
            Ink::Warn
        } else {
            Ink::Text
        }
    }

    fn ink_of(&self, f: SshField) -> (r: Ink)
        ensures
            r == self.ink_spec(f),
    {
        match f {
            SshField::Password => if self.password.as_str().is_empty() {
                Ink::Text
            } else {
                Ink::Warn
            },
            SshField::SkipHostKey => if self.skip_host_key_check {
                Ink::Warn
            } else {
                Ink::Text
            },
            _ => Ink::Text,
        }
    }
}

// ---------------------------------------------------------------------------
// VPN profiles
// ---------------------------------------------------------------------------

impl VpnForm {
    /// A line of the form, with so much room for a value.
    pub open spec fn row_spec(&self, spec: VpnFieldSpec, active: bool, room: nat) -> Seq<Piece> {
        let raw = self.shown(spec);
        form_row(
            spec.label@,
            32,
            active,
            ink(
                if spec.flag {
                    turning(raw)
                } else {
                    scrolled_text(raw, room)
                },
                if spec.secret && raw.len() > 0 {
                    Ink::Warn
                } else {
                    Ink::Text
                },
            ),
            !spec.flag,
        )
    }

    /// The rows of these lines.
    pub open spec fn rows_spec(&self, specs: Seq<VpnFieldSpec>, room: nat) -> Seq<Seq<Piece>>
        decreases specs.len(),
    {
        if specs.len() == 0 {
            Seq::empty()
        } else {
            self.rows_spec(specs.drop_last(), room).push(
                self.row_spec(specs.last(), specs.len() - 1 == self.field_idx, room),
            )
        }
    }

    /// What the form shows, made of these lines.
    pub open spec fn sheet_of(&self, specs: Seq<VpnFieldSpec>, room: nat) -> Seq<Seq<Piece>> {
        let on_path = self.key_at() == Some(VpnKey::ConfigPath);
        let out = with_foot(self.rows_spec(specs, room), self.error, on_path);
        if self.error is None && !on_path && self.provider == ProviderId::Wireguard {
            out.push(seq![ink(" g on the private key field generates a fresh keypair"@, Ink::Dim)])
        } else {
            out
        }
    }

    /// What the form shows, with so much room for a value.
    pub fn sheet(&self, room: usize) -> (r: Sheet)
        ensures
            exists|specs: Seq<VpnFieldSpec>|
                #[trigger] lists(specs, form_lines(self.provider)) && r@ == self.sheet_of(
                    specs,
                    room as nat,
                ),
    {
        let all = self.fields();
        let ghost specs = all@;
        let mut out = Sheet::new();
        let mut i: usize = 0;
        assert(specs.take(0) =~= Seq::<VpnFieldSpec>::empty());
        while i < all.len()
            invariant
                i <= all@.len(),
                specs == all@,
                out@ == self.rows_spec(specs.take(i as int), room as nat),
            decreases all@.len() - i,
        {
            assert(specs.take(i + 1).drop_last() =~= specs.take(i as int));
            let f = &all[i];
            let raw = self.display(f);
            let colour = if f.secret && !raw.as_str().is_empty() {
                Ink::Warn
            } else {
                Ink::Text
            };
            let text = if f.flag {
                turner(raw.as_str())
            } else {
                scrolled(raw.as_str(), room)
            };
            out.add(
                row_of(f.label, 32, i == self.field_idx, bit(text.as_str(), colour), !f.flag),
            );
            i = i + 1;
        }
        assert(specs.take(i as int) =~= specs);
        let on_path = match self.field() {
            Some(f) => f.key == VpnKey::ConfigPath,
            None => false,
        };
        add_foot(&mut out, &self.error, on_path);
        if self.error.is_none() && !on_path && self.provider == ProviderId::Wireguard {
            out.say(" g on the private key field generates a fresh keypair", Ink::Dim);
        }
        assert(lists(specs, form_lines(self.provider)));
        out
    }
}

/// What a form shows of a secret is the same for any other secret of its length:
/// the secret itself is never shown.
pub proof fn law_form_hides_secrets(f: VpnForm, g: VpnForm, spec: VpnFieldSpec, active: bool, room: nat)
    requires
        spec.secret && !spec.flag,
        f.word(spec.key).len() == g.word(spec.key).len(),
        f.word(spec.key).len() > 0,
    ensures
        f.row_spec(spec, active, room) == g.row_spec(spec, active, room),
{
}

}
