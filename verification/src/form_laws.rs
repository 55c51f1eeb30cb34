//! What keys do in a form, what moving an entry does to its list, and what is
//! counted.

use vstd::prelude::*;
use crate::app::{profiles_kept, App};
use crate::arranging::Shift;
use crate::dashboard::{password_count, status_count, total_sent};
use crate::effects::{Act, Store};
use crate::live::LiveTunnel;
use crate::moving::{moved_profile, shift_acts};
use crate::number::parsed;
use crate::rdp_form::{RdpField, RdpForm};
use crate::screen::{Key, KeyCode};
use crate::ssh_form::{SshField, SshForm};
use crate::text::trimmed;
use crate::tunnel::Status;
use crate::tunnel_form::{FormField, TunnelForm};
use crate::types::{ForwardType, SshHost};
use crate::vpn::ProviderId;

verus! {

// ---------------------------------------------------------------------------
// Typing
// ---------------------------------------------------------------------------

/// A character typed in the tunnel form goes to the end of the field under the
/// cursor, and Backspace takes it off again; the other fields stay. Enter submits
/// the form and Escape closes it.
pub proof fn law_typing_in_the_tunnel_form(a: TunnelForm, b: TunnelForm, key: Key, c: char)
    requires
        TunnelForm::keyed(a, b, key),
        key.code == KeyCode::Char(c),
    ensures
        ({
            let at = FormField::at_spec(a.field_idx as int);
            &&& b.name@ == if at == FormField::Name { a.name@.push(c) } else { a.name@ }
            &&& b.group@ == if at == FormField::Group { a.group@.push(c) } else { a.group@ }
            &&& b.ssh_host@ == if at == FormField::SshHost { a.ssh_host@.push(c) } else {
                a.ssh_host@
            }
            &&& b.local_port@ == if at == FormField::LocalPort { a.local_port@.push(c) } else {
                a.local_port@
            }
            &&& b.remote_host@ == if at == FormField::RemoteHost { a.remote_host@.push(c) } else {
                a.remote_host@
            }
            &&& b.remote_port@ == if at == FormField::RemotePort { a.remote_port@.push(c) } else {
                a.remote_port@
            }
            &&& b.extra_args@ == if at == FormField::ExtraArgs { a.extra_args@.push(c) } else {
                a.extra_args@
            }
            &&& at != FormField::Forward ==> b.forward == a.forward
            &&& b.auto_reconnect == if at == FormField::AutoReconnect { !a.auto_reconnect } else {
                a.auto_reconnect
            }
            &&& b.field_idx == a.field_idx
        }),
        TunnelForm::leads_to(key) is Stay,
        TunnelForm::leads_to(Key { code: KeyCode::Enter, ..key }) is Submit,
        TunnelForm::leads_to(Key { code: KeyCode::Esc, ..key }) is Close,
{
}

/// The same in the form of a host; Ctrl and `o` picks a file instead.
pub proof fn law_typing_in_the_host_form(a: SshForm, b: SshForm, key: Key, c: char)
    requires
        SshForm::keyed(a, b, key),
        key.code == KeyCode::Char(c),
        !key.ctrl,
    ensures
        ({
            let at = SshField::at_spec(a.field_idx as int);
            &&& b.name@ == if at == SshField::Name { a.name@.push(c) } else { a.name@ }
            &&& b.host@ == if at == SshField::Host { a.host@.push(c) } else { a.host@ }
            &&& b.port@ == if at == SshField::Port { a.port@.push(c) } else { a.port@ }
            &&& b.username@ == if at == SshField::Username { a.username@.push(c) } else {
                a.username@
            }
            &&& b.key_path@ == if at == SshField::KeyPath { a.key_path@.push(c) } else {
                a.key_path@
            }
            &&& b.password@ == if at == SshField::Password { a.password@.push(c) } else {
                a.password@
            }
            &&& b.skip_host_key_check == if at == SshField::SkipHostKey {
                !a.skip_host_key_check
            } else {
                a.skip_host_key_check
            }
        }),
        SshForm::leads_to(key) is Stay,
        SshForm::leads_to(Key { code: KeyCode::Enter, ..key }) is Submit,
        SshForm::leads_to(Key { code: KeyCode::Esc, ..key }) is Close,
{
}

/// The same in the form of a desktop connection.
pub proof fn law_typing_in_the_desktop_form(a: RdpForm, b: RdpForm, key: Key, c: char)
    requires
        RdpForm::keyed(a, b, key),
        key.code == KeyCode::Char(c),
    ensures
        ({
            let at = RdpField::at_spec(a.field_idx as int);
            &&& b.name@ == if at == RdpField::Name { a.name@.push(c) } else { a.name@ }
            &&& b.host@ == if at == RdpField::Host { a.host@.push(c) } else { a.host@ }
            &&& b.port@ == if at == RdpField::Port { a.port@.push(c) } else { a.port@ }
            &&& b.domain@ == if at == RdpField::Domain { a.domain@.push(c) } else { a.domain@ }
            &&& b.username@ == if at == RdpField::Username { a.username@.push(c) } else {
                a.username@
            }
            &&& b.extra_args@ == if at == RdpField::ExtraArgs { a.extra_args@.push(c) } else {
                a.extra_args@
            }
        }),
        RdpForm::leads_to(Key { code: KeyCode::Enter, ..key }) is Submit,
        RdpForm::leads_to(Key { code: KeyCode::Esc, ..key }) is Close,
{
}

/// What is typed and taken back again leaves the form as it was.
pub proof fn law_backspace_undoes_typing(
    a: TunnelForm,
    b: TunnelForm,
    d: TunnelForm,
    key: Key,
    c: char,
)
    requires
        TunnelForm::keyed(a, b, Key { code: KeyCode::Char(c), ..key }),
        TunnelForm::keyed(b, d, Key { code: KeyCode::Backspace, ..key }),
        a.on_text(),
    ensures
        d.name@ == a.name@ && d.group@ == a.group@ && d.ssh_host@ == a.ssh_host@,
        d.local_port@ == a.local_port@ && d.remote_host@ == a.remote_host@,
        d.remote_port@ == a.remote_port@ && d.extra_args@ == a.extra_args@,
{
    assert(a.name@.push(c).drop_last() =~= a.name@);
    assert(a.group@.push(c).drop_last() =~= a.group@);
    assert(a.ssh_host@.push(c).drop_last() =~= a.ssh_host@);
    assert(a.local_port@.push(c).drop_last() =~= a.local_port@);
    assert(a.remote_host@.push(c).drop_last() =~= a.remote_host@);
    assert(a.remote_port@.push(c).drop_last() =~= a.remote_port@);
    assert(a.extra_args@.push(c).drop_last() =~= a.extra_args@);
}

/// A port that is no number from 1 to 65535 is refused.
pub proof fn law_bad_port_is_refused(t: TunnelForm, h: SshForm, r: RdpForm)
    ensures
        parsed(trimmed(t.local_port@), 65535) is None || parsed(trimmed(t.local_port@), 65535)
            == Some(0nat) ==> t.fault() is Some,
        t.forward != ForwardType::Dynamic && (parsed(trimmed(t.remote_port@), 65535) is None
            || parsed(trimmed(t.remote_port@), 65535) == Some(0nat)) ==> t.fault() is Some,
        parsed(trimmed(h.port@), 65535) is None || parsed(trimmed(h.port@), 65535) == Some(0nat)
            ==> h.fault() is Some,
        parsed(trimmed(r.port@), 65535) is None || parsed(trimmed(r.port@), 65535) == Some(0nat)
            ==> r.fault() is Some,
{
}

// ---------------------------------------------------------------------------
// Moving
// ---------------------------------------------------------------------------

/// What was moved is written to its file; what could not be moved is not, and it is
/// said why.
pub proof fn law_moved_entry_is_written(what: Shift, downward: bool, store: Store)
    ensures
        what is Moved <==> shift_acts(what, downward, store).contains(Act::Save(store)),
        what is EntryAtEnd || what is GroupAtEnd ==> shift_acts(what, downward, store).len() == 1
            && shift_acts(what, downward, store)[0] is Flash,
{
    let out = shift_acts(what, downward, store);
    if what is Moved {
        assert(out[0] == Act::Save(store));
    }
}

/// A profile that is moved changes places with its neighbour in its client's list,
/// the cursor goes with it, and the file is written. At an end nothing moves.
pub proof fn law_moved_profile_changes_places(a: App, b: App, downward: bool, out: Seq<Act>)
    requires
        moved_profile(a, b, downward, out),
        a.vpn.providers@[a.vpn.here().id.index_spec()] == a.vpn.here(),
        a.vpn.here().id == ProviderId::Wireguard,
        a.vpn.here().selected < a.vpn.here().profiles@.len(),
        a.vpn.here().selected < a.vpn_cfg.wireguard@.len(),
        a.vpn.here().profiles@[a.vpn.here().selected as int].foreign is None,
        a.vpn.here().profiles@.len() >= a.vpn_cfg.wireguard@.len(),
    ensures
        ({
            let i = a.vpn.here().selected as int;
            let j = if downward { i + 1 } else { i - 1 };
            let was = a.vpn_cfg.wireguard@;
            let now = b.vpn_cfg.wireguard@;
            &&& 0 <= j < was.len() ==> {
                &&& now.len() == was.len()
                &&& now[j] == was[i] && now[i] == was[j]
                &&& forall|k: int|
                    0 <= k < was.len() && k != i && k != j ==> #[trigger] now[k] == was[k]
                &&& out.contains(Act::Save(Store::Vpn))
                &&& b.vpn.providers@[a.vpn.here().id.index_spec()].selected == j
            }
            &&& j < 0 || j >= was.len() ==> b == a
        }),
{
    let i = a.vpn.here().selected as int;
    let j = if downward { i + 1 } else { i - 1 };
    assert(profiles_kept(a.vpn_cfg, ProviderId::Wireguard) == a.vpn_cfg.wireguard@.len());
    if 0 <= j < a.vpn_cfg.wireguard@.len() {
        assert(out[0] == Act::Save(Store::Vpn));
    }
}

// ---------------------------------------------------------------------------
// Counting
// ---------------------------------------------------------------------------

/// Every running tunnel is counted once, by how it is: none is counted exactly
/// where none is like that.
pub proof fn law_tunnels_are_counted_by_status(live: Seq<LiveTunnel>, s: Status)
    ensures
        status_count(live, Status::Up) + status_count(live, Status::Connecting) + status_count(
            live,
            Status::Failed,
        ) == live.len(),
        status_count(live, s) == 0 <==> forall|i: int|
            0 <= i < live.len() ==> (#[trigger] live[i]).status != s,
    decreases live.len(),
{
    if live.len() > 0 {
        let head = live.drop_last();
        law_tunnels_are_counted_by_status(head, s);
        assert(live[live.len() - 1] == live.last());
        if status_count(live, s) == 0 {
            assert forall|i: int| 0 <= i < live.len() implies (#[trigger] live[i]).status != s by {
                if i < head.len() {
                    assert(head[i] == live[i]);
                }
            }
        } else if live.last().status != s {
            let i = choose|i: int| 0 <= i < head.len() && (#[trigger] head[i]).status == s;
            assert(live[i] == head[i]);
        }
    }
}

/// A stored password is counted, and nothing else is.
pub proof fn law_stored_passwords_are_counted(hs: Seq<SshHost>)
    ensures
        password_count(hs) <= hs.len(),
        password_count(hs) == 0 <==> forall|i: int|
            0 <= i < hs.len() ==> (#[trigger] hs[i]).password@.len() == 0,
        password_count(hs) == hs.len() <==> forall|i: int|
            0 <= i < hs.len() ==> (#[trigger] hs[i]).password@.len() > 0,
    decreases hs.len(),
{
    if hs.len() > 0 {
        let head = hs.drop_last();
        law_stored_passwords_are_counted(head);
        assert(hs[hs.len() - 1] == hs.last());
        assert forall|i: int| 0 <= i < head.len() implies head[i] == #[trigger] hs[i] by {}
        if password_count(hs) == 0 {
            assert forall|i: int| 0 <= i < hs.len() implies (#[trigger] hs[i]).password@.len()
                == 0 by {
                if i < head.len() {
                    assert(head[i].password@.len() == 0);
                }
            }
        }
        if forall|i: int| 0 <= i < hs.len() ==> (#[trigger] hs[i]).password@.len() == 0 {
            assert forall|i: int| 0 <= i < head.len() implies (#[trigger] head[i]).password@.len()
                == 0 by {
                assert(hs[i].password@.len() == 0);
            }
        }
        if password_count(hs) == hs.len() {
            assert forall|i: int| 0 <= i < hs.len() implies (#[trigger] hs[i]).password@.len()
                > 0 by {
                if i < head.len() {
                    assert(head[i].password@.len() > 0);
                }
            }
        }
        if forall|i: int| 0 <= i < hs.len() ==> (#[trigger] hs[i]).password@.len() > 0 {
            assert forall|i: int| 0 <= i < head.len() implies (#[trigger] head[i]).password@.len()
                > 0 by {
                assert(hs[i].password@.len() > 0);
            }
        }
    }
}

/// What all tunnels have sent is at least what any one of them has.
pub proof fn law_everything_sent_is_counted(live: Seq<LiveTunnel>, i: int)
    requires
        0 <= i < live.len(),
    ensures
        total_sent(live) >= live[i].counters.tx,
        total_sent(live) <= u64::MAX,
    decreases live.len(),
{
    let head = live.drop_last();
    let last = live.len() - 1;
    assert(live[last] == live.last());
    if head.len() == 0 {
        assert(total_sent(head) == 0);
    } else {
        let k: int = if i < last { i } else { 0 };
        law_everything_sent_is_counted(head, k);
        assert(head[k] == live[k]);
    }
}

} // verus!
