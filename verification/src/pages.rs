//! The two pages that only display: the help, and the keys.

use vstd::prelude::*;
use crate::sheet::{bit, bold, ink, line1, line2, pieces, strong, Bit, Ink, Piece, Sheet};
use crate::text::{cat, cat4};
use crate::ui::{fill, filled};

verus! {

/// A key, and what it does.
pub open spec fn entry_line(width: int, key: Seq<char>, what: Seq<char>) -> Seq<Piece> {
    seq![ink(" "@ + filled(key, width), Ink::Accent), ink(what, Ink::Text)]
}

fn entry(width: usize, key: &str, what: &str) -> (r: Vec<Bit>)
    ensures
        pieces(r@) == entry_line(width as int, key@, what@),
{
    let head = cat(" ", fill(key, width).as_str());
    line2(bit(head.as_str(), Ink::Accent), bit(what, Ink::Text))
}

/// The key to be careful with.
pub open spec fn alarm_line(width: int, key: Seq<char>, what: Seq<char>) -> Seq<Piece> {
    seq![strong(" "@ + filled(key, width), Ink::Danger), ink(what, Ink::Text)]
}

fn alarm(width: usize, key: &str, what: &str) -> (r: Vec<Bit>)
    ensures
        pieces(r@) == alarm_line(width as int, key@, what@),
{
    let head = cat(" ", fill(key, width).as_str());
    line2(bold(head.as_str(), Ink::Danger), bit(what, Ink::Text))
}

pub open spec fn told(what: Seq<char>) -> Seq<Piece> {
    seq![ink("   "@ + what, Ink::Text)]
}

fn tell(what: &str) -> (r: Vec<Bit>)
    ensures
        pieces(r@) == told(what@),
{
    line1(bit(cat("   ", what).as_str(), Ink::Text))
}

pub open spec fn section_line(title: Seq<char>) -> Seq<Piece> {
    seq![strong(" "@ + title, Ink::Dim)]
}

fn section(title: &str) -> (r: Vec<Bit>)
    ensures
        pieces(r@) == section_line(title@),
{
    line1(bold(cat(" ", title).as_str(), Ink::Dim))
}

/// How the page is left.
pub open spec fn closing_line(key: Seq<char>, what: Seq<char>) -> Seq<Piece> {
    seq![strong(key, Ink::Accent), ink(what, Ink::Dim)]
}

fn closing(key: &str, what: &str) -> (r: Vec<Bit>)
    ensures
        pieces(r@) == closing_line(key@, what@),
{
    line2(bold(key, Ink::Accent), bit(what, Ink::Dim))
}

/// A row of the grid: a key, and what it acts on where.
pub open spec fn grid_line(
    key: Seq<char>,
    vpn: Seq<char>,
    tunnels: Seq<char>,
    ssh: Seq<char>,
    rdp: Seq<char>,
) -> Seq<Piece> {
    seq![
        ink(" "@ + filled(key, 8), Ink::Accent),
        ink(filled(vpn, 15) + filled(tunnels, 15) + filled(ssh, 15) + rdp, Ink::Text),
    ]
}

fn grid(key: &str, vpn: &str, tunnels: &str, ssh: &str, rdp: &str) -> (r: Vec<Bit>)
    ensures
        pieces(r@) == grid_line(key@, vpn@, tunnels@, ssh@, rdp@),
{
    let head = cat(" ", fill(key, 8).as_str());
    let row = cat4(
        fill(vpn, 15).as_str(),
        fill(tunnels, 15).as_str(),
        fill(ssh, 15).as_str(),
        rdp,
    );
    line2(bit(head.as_str(), Ink::Accent), bit(row.as_str(), Ink::Text))
}

pub open spec fn with_help_tabs(out: Seq<Seq<Piece>>) -> Seq<Seq<Piece>> {
    let out = out.push(
        seq![ink(" SSH tunnels, SSH logins, VPN clients and RDP sessions in one place."@, Ink::Text)],
    );
    let out = out.push(Seq::empty());
    let out = out.push(section_line("tabs"@));
    let out = out.push(
        entry_line(12, "  dashboard"@, "everything that is up, and what it is moving"@),
    );
    let out = out.push(
        entry_line(12, "  vpn"@, "netbird, wireguard, openvpn and tailscale side by side"@),
    );
    let out = out.push(
        entry_line(12, "  tunnels"@, "ssh forwards — local (-L), remote (-R), dynamic (-D)"@),
    );
    let out = out.push(
        entry_line(12, "  ssh"@, "interactive logins, each in a terminal window of its own"@),
    );
    let out = out.push(entry_line(12, "  rdp"@, "xfreerdp3 sessions, running in the background"@));
    out.push(Seq::empty())
}

fn add_help_tabs(out: &mut Sheet)
    ensures
        final(out)@ == with_help_tabs(old(out)@),
{
    out.say(" SSH tunnels, SSH logins, VPN clients and RDP sessions in one place.", Ink::Text);
    out.gap();
    out.add(section("tabs"));
    out.add(entry(12, "  dashboard", "everything that is up, and what it is moving"));
    out.add(entry(12, "  vpn", "netbird, wireguard, openvpn and tailscale side by side"));
    out.add(entry(12, "  tunnels", "ssh forwards — local (-L), remote (-R), dynamic (-D)"));
    out.add(entry(12, "  ssh", "interactive logins, each in a terminal window of its own"));
    out.add(entry(12, "  rdp", "xfreerdp3 sessions, running in the background"));
    out.gap();
}

pub open spec fn with_help_groups(out: Seq<Seq<Piece>>) -> Seq<Seq<Piece>> {
    let out = out.push(section_line("groups"@));
    let out = out.push(told("entries sharing a group name stack under one header, and the"@));
    let out = out.push(told("header acts on every member as one plan — so a VPN or tunnel"@));
    let out = out.push(told("several of them share is brought up once, not once each"@));
    let out = out.push(Seq::empty());
    let out = out.push(section_line("dependencies"@));
    let out = out.push(told("a tunnel, ssh host or rdp connection can require a VPN profile"@));
    let out = out.push(told("and a tunnel, and tunnels stack on other tunnels. Connecting"@));
    let out = out.push(told("brings the whole chain up in order: VPNs first, then the"@));
    let out = out.push(told("tunnels bottom-up, then the session itself"@));
    let out = out.push(Seq::empty());
    let out = out.push(section_line("conflicts"@));
    let out = out.push(told("a step that cannot coexist with what is already running asks"@));
    let out = out.push(told("first — y evicts what is in the way, anything else cancels"@));
    out.push(Seq::empty())
}

fn add_help_groups(out: &mut Sheet)
    ensures
        final(out)@ == with_help_groups(old(out)@),
{
    out.add(section("groups"));
    out.add(tell("entries sharing a group name stack under one header, and the"));
    out.add(tell("header acts on every member as one plan — so a VPN or tunnel"));
    out.add(tell("several of them share is brought up once, not once each"));
    out.gap();
    out.add(section("dependencies"));
    out.add(tell("a tunnel, ssh host or rdp connection can require a VPN profile"));
    out.add(tell("and a tunnel, and tunnels stack on other tunnels. Connecting"));
    out.add(tell("brings the whole chain up in order: VPNs first, then the"));
    out.add(tell("tunnels bottom-up, then the session itself"));
    out.gap();
    out.add(section("conflicts"));
    out.add(tell("a step that cannot coexist with what is already running asks"));
    out.add(tell("first — y evicts what is in the way, anything else cancels"));
    out.gap();
}

pub open spec fn with_help_rest(out: Seq<Seq<Piece>>) -> Seq<Seq<Piece>> {
    let out = out.push(section_line("connections that are not ours"@));
    let out = out.push(told("the VPN tab lists what is on the machine, not only what this"@));
    let out = out.push(told("program started: a ◆ row is an openvpn process or an interface"@));
    let out = out.push(told("controlcenter is not holding — an orphan of an earlier run, or"@));
    let out = out.push(told("someone else's. Enter stops one; x takes them down with the rest"@));
    let out = out.push(Seq::empty());
    let out = out.push(section_line("logs and reports"@));
    let out = out.push(told("l opens the log of whatever is selected: what controlcenter did"@));
    let out = out.push(told("about it, merged with what the process it started printed."@));
    let out = out.push(told("s writes a report — that log plus every connection, command"@));
    let out = out.push(told("line and VPN state — to a file you can hand to someone else"@));
    let out = out.push(Seq::empty());
    let out = out.push(section_line("config"@));
    let out = out.push(told("TOML under ~/.config/controlcenter, editable by hand"@));
    let out = out.push(told("(controlcenter --config-paths says exactly where)"@));
    let out = out.push(Seq::empty());
    out.push(closing_line(" k "@, "for the keys · any key closes"@))
}

fn add_help_rest(out: &mut Sheet)
    ensures
        final(out)@ == with_help_rest(old(out)@),
{
    out.add(section("connections that are not ours"));
    out.add(tell("the VPN tab lists what is on the machine, not only what this"));
    out.add(tell("program started: a ◆ row is an openvpn process or an interface"));
    out.add(tell("controlcenter is not holding — an orphan of an earlier run, or"));
    out.add(tell("someone else's. Enter stops one; x takes them down with the rest"));
    out.gap();
    out.add(section("logs and reports"));
    out.add(tell("l opens the log of whatever is selected: what controlcenter did"));
    out.add(tell("about it, merged with what the process it started printed."));
    out.add(tell("s writes a report — that log plus every connection, command"));
    out.add(tell("line and VPN state — to a file you can hand to someone else"));
    out.gap();
    out.add(section("config"));
    out.add(tell("TOML under ~/.config/controlcenter, editable by hand"));
    out.add(tell("(controlcenter --config-paths says exactly where)"));
    out.gap();
    out.add(closing(" k ", "for the keys · any key closes"));
}

/// What the program is about.
pub open spec fn help_page_spec() -> Seq<Seq<Piece>> {
    with_help_rest(with_help_groups(with_help_tabs(Seq::empty())))
}

pub fn help_page() -> (r: Sheet)
    ensures
        r@ == help_page_spec(),
{
    let mut out = Sheet::new();
    add_help_tabs(&mut out);
    add_help_groups(&mut out);
    add_help_rest(&mut out);
    out
}

pub open spec fn with_keys_acting(out: Seq<Seq<Piece>>) -> Seq<Seq<Piece>> {
    let out = out.push(section_line("acting on what is selected"@));
    let out = out.push(entry_line(14, "enter space"@, "connect · disconnect if it is already up"@));
    let out = out.push(entry_line(14, ""@, "on a ◆ VPN row: stop a connection controlcenter is"@));
    let out = out.push(
        entry_line(14, ""@, "not holding — again to kill one that ignored SIGTERM"@),
    );
    let out = out.push(entry_line(14, "a"@, "add"@));
    let out = out.push(entry_line(14, "e"@, "edit"@));
    let out = out.push(entry_line(14, "d"@, "delete"@));
    let out = out.push(entry_line(14, "r"@, "reconnect · reload"@));
    let out = out.push(entry_line(14, "p"@, "remove the stored password"@));
    let out = out.push(entry_line(14, "l"@, "log"@));
    let out = out.push(
        entry_line(14, "s"@, "save a report to a file — everything, not just this log"@),
    );
    let out = out.push(entry_line(14, "c"@, "clear — the log, or entries that have finished"@));
    let out = out.push(
        entry_line(14, "ctrl+↑ ↓"@, "move it up or down — an entry inside its group, a"@),
    );
    let out = out.push(entry_line(14, ""@, "group past the next one; the new order is saved"@));
    out.push(Seq::empty())
}

fn add_keys_acting(out: &mut Sheet)
    ensures
        final(out)@ == with_keys_acting(old(out)@),
{
    out.add(section("acting on what is selected"));
    out.add(entry(14, "enter space", "connect · disconnect if it is already up"));
    out.add(entry(14, "", "on a ◆ VPN row: stop a connection controlcenter is"));
    out.add(entry(14, "", "not holding — again to kill one that ignored SIGTERM"));
    out.add(entry(14, "a", "add"));
    out.add(entry(14, "e", "edit"));
    out.add(entry(14, "d", "delete"));
    out.add(entry(14, "r", "reconnect · reload"));
    out.add(entry(14, "p", "remove the stored password"));
    out.add(entry(14, "l", "log"));
    out.add(entry(14, "s", "save a report to a file — everything, not just this log"));
    out.add(entry(14, "c", "clear — the log, or entries that have finished"));
    out.add(entry(14, "ctrl+↑ ↓", "move it up or down — an entry inside its group, a"));
    out.add(entry(14, "", "group past the next one; the new order is saved"));
    out.gap();
}

pub open spec fn with_keys_everywhere(out: Seq<Seq<Piece>>) -> Seq<Seq<Piece>> {
    let out = out.push(section_line("everywhere"@));
    let out = out.push(alarm_line(14, "x"@, "disconnect EVERYTHING — the panic button"@));
    let out = out.push(entry_line(14, "t"@, "cycle the colour theme"@));
    let out = out.push(entry_line(14, "?"@, "help · k these keys"@));
    let out = out.push(entry_line(14, "q"@, "close what is focused, and the application once"@));
    let out = out.push(entry_line(14, ""@, "nothing is left to close — asks first if an openvpn"@));
    let out = out.push(entry_line(14, ""@, "session would be left running as root"@));
    let out = out.push(Seq::empty());
    let out = out.push(section_line("moving about"@));
    let out = out.push(entry_line(14, "1-5 tab"@, "switch tab (shift+tab goes back)"@));
    let out = out.push(entry_line(14, "↑ ↓"@, "move the selection · scroll a log"@));
    let out = out.push(
        entry_line(14, "pgup pgdn"@, "move the selection by ten · scroll a log by a screen"@),
    );
    let out = out.push(entry_line(14, "← →"@, "switch pane · change the field under the cursor"@));
    let out = out.push(entry_line(14, "esc"@, "cancel a form, close a popup"@));
    let out = out.push(entry_line(14, "y"@, "confirm in a prompt"@));
    let out = out.push(entry_line(14, "ctrl+o"@, "open the file picker on a path field"@));
    out.push(Seq::empty())
}

fn add_keys_everywhere(out: &mut Sheet)
    ensures
        final(out)@ == with_keys_everywhere(old(out)@),
{
    out.add(section("everywhere"));
    out.add(alarm(14, "x", "disconnect EVERYTHING — the panic button"));
    out.add(entry(14, "t", "cycle the colour theme"));
    out.add(entry(14, "?", "help · k these keys"));
    out.add(entry(14, "q", "close what is focused, and the application once"));
    out.add(entry(14, "", "nothing is left to close — asks first if an openvpn"));
    out.add(entry(14, "", "session would be left running as root"));
    out.gap();
    out.add(section("moving about"));
    out.add(entry(14, "1-5 tab", "switch tab (shift+tab goes back)"));
    out.add(entry(14, "↑ ↓", "move the selection · scroll a log"));
    out.add(entry(14, "pgup pgdn", "move the selection by ten · scroll a log by a screen"));
    out.add(entry(14, "← →", "switch pane · change the field under the cursor"));
    out.add(entry(14, "esc", "cancel a form, close a popup"));
    out.add(entry(14, "y", "confirm in a prompt"));
    out.add(entry(14, "ctrl+o", "open the file picker on a path field"));
    out.gap();
}

pub open spec fn with_keys_grid(out: Seq<Seq<Piece>>) -> Seq<Seq<Piece>> {
    let out = out.push(section_line("what each one acts on"@));
    let out = out.push(grid_line(""@, "VPN"@, "TUNNELS"@, "SSH"@, "RDP"@));
    let out = out.push(
        grid_line("enter"@, "connect · stop ◆"@, "start/stop"@, "open session"@, "connect"@),
    );
    let out = out.push(grid_line("a e d"@, "profile"@, "tunnel"@, "host"@, "connection"@));
    let out = out.push(grid_line("r"@, "refresh"@, "restart"@, "new session"@, "reconnect"@));
    let out = out.push(grid_line("p"@, "openvpn pw"@, "—"@, "stored pw"@, "never stored"@));
    let out = out.push(
        grid_line("l"@, "profile log"@, "ssh output"@, "what it did"@, "xfreerdp log"@),
    );
    let out = out.push(grid_line("c"@, "errors"@, "failed"@, "last session"@, "finished"@));
    let out = out.push(
        grid_line("ctrl+↑↓"@, "move profile"@, "move tunnel"@, "move host"@, "move connection"@),
    );
    let out = out.push(Seq::empty());
    out.push(closing_line(" ? "@, "for help · any key closes"@))
}

fn add_keys_grid(out: &mut Sheet)
    ensures
        final(out)@ == with_keys_grid(old(out)@),
{
    out.add(section("what each one acts on"));
    out.add(grid("", "VPN", "TUNNELS", "SSH", "RDP"));
    out.add(grid("enter", "connect · stop ◆", "start/stop", "open session", "connect"));
    out.add(grid("a e d", "profile", "tunnel", "host", "connection"));
    out.add(grid("r", "refresh", "restart", "new session", "reconnect"));
    out.add(grid("p", "openvpn pw", "—", "stored pw", "never stored"));
    out.add(grid("l", "profile log", "ssh output", "what it did", "xfreerdp log"));
    out.add(grid("c", "errors", "failed", "last session", "finished"));
    out.add(grid("ctrl+↑↓", "move profile", "move tunnel", "move host", "move connection"));
    out.gap();
    out.add(closing(" ? ", "for help · any key closes"));
}

/// Every key means the same thing on every tab, so this is one list plus a grid of
/// what each one acts on where.
pub open spec fn keys_page_spec() -> Seq<Seq<Piece>> {
    with_keys_grid(with_keys_everywhere(with_keys_acting(Seq::empty())))
}

pub fn keys_page() -> (r: Sheet)
    ensures
        r@ == keys_page_spec(),
{
    let mut out = Sheet::new();
    add_keys_acting(&mut out);
    add_keys_everywhere(&mut out);
    add_keys_grid(&mut out);
    out
}

}
