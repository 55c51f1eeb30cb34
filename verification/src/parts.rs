//! The pieces that the panes of several tabs are made of.

use vstd::prelude::*;
use crate::activation::satisfied;
use crate::app::App;
use crate::live::{has_name, status_of_tunnel, tunnel_status};
use crate::number::{self, decimal};
use crate::plan::{short_of, Job, Step};
use crate::sheet::{
    add_bit, bit, bold, ink, line1, line2, line3, pieces, strong, Bit, Ink, Piece, Sheet,
};
use crate::text::{self, cat, cat3, joined, texts};
use crate::tunnel::Status;
use crate::types::{requirement_label_text, vpn_requirement_label, VPN_ANY};
use crate::ui::{self, duration_text, filled};

verus! {

/// Seconds since a time.
pub open spec fn secs_since(now: u64, since: u64) -> nat {
    if now > since {
        ((now - since) / 1000) as nat
    } else {
        0
    }
}

/// How long something has been going on.
pub fn lasting(now: u64, since: u64) -> (r: String)
    ensures
        r@ == duration_text(secs_since(now, since)),
{
    let s: u64 = if now > since {
        (now - since) / 1000
    } else {
        0
    };
    ui::fmt_duration(s)
}

pub open spec fn status_ink(s: Status) -> Ink {
    match s {
        Status::Up => Ink::Good,
        Status::Connecting => Ink::Warn,
        Status::Failed => Ink::Danger,
    }
}

pub fn ink_of_status(s: Status) -> (r: Ink)
    ensures
        r == status_ink(s),
{
    match s {
        Status::Up => Ink::Good,
        Status::Connecting => Ink::Warn,
        Status::Failed => Ink::Danger,
    }
}

/// A field of a details panel.
pub open spec fn field_line(k: Seq<char>, v: Seq<char>) -> Seq<Piece> {
    seq![ink(filled(k, 11), Ink::Dim), ink(v, Ink::Text)]
}

pub fn add_field(out: &mut Sheet, k: &str, v: &str)
    ensures
        final(out)@ == old(out)@.push(field_line(k@, v@)),
{
    out.pair(k, 11, bit(v, Ink::Text));
}

/// A dependency next to a connection: dim when idle, green when the tunnel it
/// needs is up, red when the tunnel no longer exists.
pub open spec fn dependency_piece(a: App, dep: Seq<char>) -> Piece {
    if dep.len() == 0 {
        ink("—"@, Ink::Dim)
    } else if !has_name(a.tunnels@, dep) {
        ink(dep + " (missing)"@, Ink::Danger)
    } else {
        ink(
            dep,
            match tunnel_status(a.active@, dep) {
                Some(s) => status_ink(s),
                None => Ink::Dim,
            },
        )
    }
}

pub fn dependency_bit(a: &App, dep: &str) -> (r: Bit)
    ensures
        r@ == dependency_piece(*a, dep@),
{
    if dep.is_empty() {
        return bit("—", Ink::Dim);
    }
    if a.dependency_missing(dep) {
        return bit(cat(dep, " (missing)").as_str(), Ink::Danger);
    }
    let colour = match status_of_tunnel(&a.active, dep) {
        Some(s) => ink_of_status(s),
        None => Ink::Dim,
    };
    bit(dep, colour)
}

/// A VPN requirement, with a colour for whether it currently holds.
pub open spec fn vpn_piece(a: App, req: Seq<char>) -> Piece {
    if req.len() == 0 {
        ink("—"@, Ink::Dim)
    } else {
        ink(
            requirement_label_text(req),
            if satisfied(a.vpn.providers@, req) {
                Ink::Good
            } else {
                Ink::Dim
            },
        )
    }
}

pub fn vpn_bit(a: &App, req: &str) -> (r: Bit)
    requires
        a.wf(),
    ensures
        r@ == vpn_piece(*a, req@),
{
    if req.is_empty() {
        return bit("—", Ink::Dim);
    }
    let colour = if a.vpn_satisfied(req) {
        Ink::Good
    } else {
        Ink::Dim
    };
    bit(vpn_requirement_label(req).as_str(), colour)
}

/// "vpn work + base" for a connection row, each half coloured by whether it
/// currently holds.
pub open spec fn requires_pieces(a: App, vpn: Seq<char>, tunnel: Seq<char>) -> Seq<Piece> {
    if vpn.len() == 0 && tunnel.len() == 0 {
        seq![ink("—"@, Ink::Dim)]
    } else {
        let first = if vpn.len() == 0 {
            Seq::empty()
        } else {
            seq![
                ink(
                    if vpn == VPN_ANY@ {
                        "vpn any"@
                    } else {
                        "vpn "@ + vpn
                    },
                    if satisfied(a.vpn.providers@, vpn) {
                        Ink::Good
                    } else {
                        Ink::Dim
                    },
                ),
            ]
        };
        if tunnel.len() == 0 {
            first
        } else {
            (if first.len() == 0 {
                first
            } else {
                first.push(ink(" + "@, Ink::Dim))
            }).push(dependency_piece(a, tunnel))
        }
    }
}

pub fn requires_bits(a: &App, vpn: &str, tunnel: &str) -> (r: Vec<Bit>)
    requires
        a.wf(),
    ensures
        pieces(r@) == requires_pieces(*a, vpn@, tunnel@),
{
    if vpn.is_empty() && tunnel.is_empty() {
        return line1(bit("—", Ink::Dim));
    }
    let mut out: Vec<Bit> = Vec::new();
    assert(pieces(out@) =~= Seq::<Piece>::empty());
    if !vpn.is_empty() {
        let label = if text::same(vpn, VPN_ANY) {
            "vpn any".to_owned()
        } else {
            cat("vpn ", vpn)
        };
        let colour = if a.vpn_satisfied(vpn) {
            Ink::Good
        } else {
            Ink::Dim
        };
        add_bit(&mut out, bit(label.as_str(), colour));
        assert(pieces(out@) =~= seq![ink(label@, colour)]);
    }
    if !tunnel.is_empty() {
        if !vpn.is_empty() {
            add_bit(&mut out, bit(" + ", Ink::Dim));
        }
        add_bit(&mut out, dependency_bit(a, tunnel));
    }
    assert(pieces(out@) =~= requires_pieces(*a, vpn@, tunnel@));
    out
}

/// The full path a connection runs through, e.g. "vpn work → tun base → ssh
/// app", or the reason why the chain cannot be resolved.
pub open spec fn with_chain(out: Seq<Seq<Piece>>, a: App, j: Job) -> Seq<Seq<Piece>> {
    match a.lists().plan(seq![j]) {
        Ok(p) => if p.len() > 1 {
            let out = out.push(seq![ink("chain"@, Ink::Dim)]);
            out.push(
                seq![
                    ink(
                        "  "@ + joined(p.map_values(|j: Job| short_of(j)), " → "@),
                        Ink::Text,
                    ),
                ],
            )
        } else {
            out
        },
        Err(e) => out.push(seq![ink("chain      "@ + e, Ink::Danger)]),
    }
}

pub fn add_chain(out: &mut Sheet, a: &App, step: Step)
    ensures
        final(out)@ == with_chain(old(out)@, *a, step@),
{
    match a.chain_of(step) {
        Ok(parts) => {
            assert(texts(parts@).len() == parts@.len());
            if parts.len() > 1 {
                out.say("chain", Ink::Dim);
                let all = text::join(&parts, " → ");
                out.say(cat("  ", all.as_str()).as_str(), Ink::Text);
            }
        },
        Err(e) => {
            out.say(cat("chain      ", e.as_str()).as_str(), Ink::Danger);
        },
    }
}

/// What a connection needs, in a details panel.
pub open spec fn with_needs(out: Seq<Seq<Piece>>, a: App, vpn: Seq<char>, tunnel: Seq<char>) -> Seq<
    Seq<Piece>,
> {
    out.push(seq![ink("needs vpn  "@, Ink::Dim), vpn_piece(a, vpn)]).push(
        seq![ink("needs tun  "@, Ink::Dim), dependency_piece(a, tunnel)],
    )
}

pub fn add_needs(out: &mut Sheet, a: &App, vpn: &str, tunnel: &str)
    requires
        a.wf(),
    ensures
        final(out)@ == with_needs(old(out)@, *a, vpn@, tunnel@),
{
    out.add(line2(bit("needs vpn  ", Ink::Dim), vpn_bit(a, vpn)));
    out.add(line2(bit("needs tun  ", Ink::Dim), dependency_bit(a, tunnel)));
}

/// The head of a group's details panel: its name, how many members it has and
/// how many of them are up. `state` names what "up" means for that tab.
pub open spec fn with_group(
    out: Seq<Seq<Piece>>,
    name: Seq<char>,
    members: nat,
    up: nat,
    state: Seq<char>,
) -> Seq<Seq<Piece>> {
    let out = out.push(seq![ink("group     "@, Ink::Dim), strong(name, Ink::Accent)]);
    let out = out.push(seq![ink("members   "@, Ink::Dim), ink(decimal(members), Ink::Text)]);
    let out = out.push(seq![ink(filled(state, 10), Ink::Dim), ink(decimal(up), Ink::Text)]);
    out.push(Seq::empty())
}

pub fn add_group(out: &mut Sheet, name: &str, members: usize, up: usize, state: &str)
    ensures
        final(out)@ == with_group(old(out)@, name@, members as nat, up as nat, state@),
{
    out.add(line2(bit("group     ", Ink::Dim), bold(name, Ink::Accent)));
    let n = number::write(members as u64);
    out.add(line2(bit("members   ", Ink::Dim), bit(n.as_str(), Ink::Text)));
    let u = number::write(up as u64);
    out.pair(state, 10, bit(u.as_str(), Ink::Text));
    out.gap();
}

/// A group row: "▸ name  (2/3 active)".
pub open spec fn group_row(name: Seq<char>, up: nat, members: nat, state: Seq<char>) -> Seq<Piece> {
    seq![
        ink("▸ "@, Ink::Accent),
        strong(name, Ink::Accent),
        ink(
            "  ("@ + decimal(up) + "/"@ + decimal(members) + " "@ + state + ")"@,
            Ink::Dim,
        ),
    ]
}

pub fn group_bits(name: &str, up: usize, members: usize, state: &str) -> (r: Vec<Bit>)
    ensures
        pieces(r@) == group_row(name@, up as nat, members as nat, state@),
{
    let mut s = cat3("  (", number::write(up as u64).as_str(), "/");
    s.push_str(number::write(members as u64).as_str());
    s.push_str(" ");
    s.push_str(state);
    s.push_str(")");
    line3(bit("▸ ", Ink::Accent), bold(name, Ink::Accent), bit(s.as_str(), Ink::Dim))
}

/// "press Enter to …".
pub open spec fn press_line(key: Seq<char>, what: Seq<char>) -> Seq<Piece> {
    seq![ink("press "@, Ink::Dim), strong(key, Ink::Accent), ink(what, Ink::Dim)]
}

pub fn press_bits(key: &str, what: &str) -> (r: Vec<Bit>)
    ensures
        pieces(r@) == press_line(key@, what@),
{
    line3(bit("press ", Ink::Dim), bold(key, Ink::Accent), bit(what, Ink::Dim))
}

}
