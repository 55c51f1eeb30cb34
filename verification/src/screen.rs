//! What is on screen: tabs, popups and the keys that are pressed.

use vstd::prelude::*;
use crate::logs::LogTarget;
use crate::number::{self, decimal};
use crate::text::{self, cat, cat3, joined, texts};

verus! {

#[derive(Debug, Clone, Copy, PartialEq, Eq, Structural)]
pub enum Tab {
    Dashboard,
    Vpn,
    Tunnels,
    Ssh,
    Rdp,
}

impl Tab {
    /// The tabs from left to right.
    pub open spec fn all_spec() -> Seq<Tab> {
        seq![Tab::Dashboard, Tab::Vpn, Tab::Tunnels, Tab::Ssh, Tab::Rdp]
    }

    pub open spec fn label_spec(self) -> Seq<char> {
        match self {
            Tab::Dashboard => "Dashboard"@,
            Tab::Vpn => "VPN"@,
            Tab::Tunnels => "Tunnels"@,
            Tab::Ssh => "SSH"@,
            Tab::Rdp => "RDP"@,
        }
    }

    pub fn label(self) -> (r: &'static str)
        ensures
            r@ == self.label_spec(),
    {
        match self {
            Tab::Dashboard => "Dashboard",
            Tab::Vpn => "VPN",
            Tab::Tunnels => "Tunnels",
            Tab::Ssh => "SSH",
            Tab::Rdp => "RDP",
        }
    }

    pub open spec fn index_spec(self) -> int {
        match self {
            Tab::Dashboard => 0,
            Tab::Vpn => 1,
            Tab::Tunnels => 2,
            Tab::Ssh => 3,
            Tab::Rdp => 4,
        }
    }

    pub fn index(self) -> (r: usize)
        ensures
            r == self.index_spec(),
            Self::all_spec()[r as int] == self,
    {
        match self {
            Tab::Dashboard => 0,
            Tab::Vpn => 1,
            Tab::Tunnels => 2,
            Tab::Ssh => 3,
            Tab::Rdp => 4,
        }
    }

    pub open spec fn next_spec(self) -> Tab {
        Self::all_spec()[(self.index_spec() + 1) % 5]
    }

    pub fn next(self) -> (r: Tab)
        ensures
            r == self.next_spec(),
    {
        match self {
            Tab::Dashboard => Tab::Vpn,
            Tab::Vpn => Tab::Tunnels,
            Tab::Tunnels => Tab::Ssh,
            Tab::Ssh => Tab::Rdp,
            Tab::Rdp => Tab::Dashboard,
        }
    }

    pub open spec fn prev_spec(self) -> Tab {
        Self::all_spec()[(self.index_spec() + 4) % 5]
    }

    pub fn prev(self) -> (r: Tab)
        ensures
            r == self.prev_spec(),
    {
        match self {
            Tab::Dashboard => Tab::Rdp,
            Tab::Vpn => Tab::Dashboard,
            Tab::Tunnels => Tab::Vpn,
            Tab::Ssh => Tab::Tunnels,
            Tab::Rdp => Tab::Ssh,
        }
    }
}

/// Going to the next tab and back ends where it began.
pub proof fn law_tabs_cycle(t: Tab)
    ensures
        t.next_spec().prev_spec() == t,
        t.prev_spec().next_spec() == t,
{
}

/// A key, as far as the program listens to it.
#[derive(Debug, Clone, Copy, PartialEq, Eq, Structural)]
pub enum KeyCode {
    Char(char),
    Enter,
    Esc,
    Tab,
    BackTab,
    Backspace,
    Up,
    Down,
    Left,
    Right,
    PageUp,
    PageDown,
    Other,
}

/// A key that was pressed, and whether Ctrl was held.
#[derive(Debug, Clone, Copy, PartialEq, Eq, Structural)]
pub struct Key {
    pub code: KeyCode,
    pub ctrl: bool,
}

impl Key {
    pub open spec fn plain_spec(code: KeyCode) -> Key {
        Key { code, ctrl: false }
    }

    pub fn plain(code: KeyCode) -> (r: Key)
        ensures
            r == Self::plain_spec(code),
    {
        Key { code, ctrl: false }
    }

    /// Ctrl and an arrow move what is selected: whether down.
    pub open spec fn shifts_spec(self) -> Option<bool> {
        if self.ctrl && self.code == KeyCode::Up {
            Some(false)
        } else if self.ctrl && self.code == KeyCode::Down {
            Some(true)
        } else {
            None
        }
    }

    pub fn shifts(self) -> (r: Option<bool>)
        ensures
            r == self.shifts_spec(),
    {
        match self.code {
            KeyCode::Up => if self.ctrl {
                Some(false)
            } else {
                None
            },
            KeyCode::Down => if self.ctrl {
                Some(true)
            } else {
                None
            },
            _ => None,
        }
    }

    /// `y`, `Y` or Enter: go ahead.
    pub open spec fn accepts_spec(self) -> bool {
        self.code == KeyCode::Char('y') || self.code == KeyCode::Char('Y') || self.code
            == KeyCode::Enter
    }

    pub fn accepts(self) -> (r: bool)
        ensures
            r == self.accepts_spec(),
    {
        match self.code {
            KeyCode::Char(c) => c == 'y' || c == 'Y',
            KeyCode::Enter => true,
            _ => false,
        }
    }

    /// Whether a key closes a popup that only displays something: a log, the
    /// help. `q` closes whatever is focused, `Esc` cancels, and `l` closes the
    /// log it opened; nothing there types, so all three can mean "close".
    pub open spec fn closes_view_spec(self) -> bool {
        self.code == KeyCode::Esc || self.code == KeyCode::Char('q') || self.code == KeyCode::Char(
            'l',
        )
    }

    pub fn closes_view(self) -> (r: bool)
        ensures
            r == self.closes_view_spec(),
    {
        match self.code {
            KeyCode::Char(c) => c == 'q' || c == 'l',
            KeyCode::Esc => true,
            _ => false,
        }
    }
}

/// The log pane, which is the same popup on every tab: it shows what
/// controlcenter did about one connection merged with what the process it
/// started printed, and it is the only place a report is exported from.
///
/// There is one of these rather than one per tab, because a log is a log; see
/// [`LogTarget`] for what a pane can be about.
#[derive(Debug)]
pub struct LogPane {
    pub target: LogTarget,
    /// How many lines back from the newest the view is scrolled. 0 follows the
    /// tail, which is what a log that is still being written wants.
    pub scroll: usize,
}

/// A scroll position moved by `delta` lines, within a log of `lines`.
pub open spec fn scrolled_to(scroll: int, delta: int, lines: int) -> int {
    let last = if lines > 0 {
        lines - 1
    } else {
        0
    };
    let moved = if scroll + delta < 0 {
        0
    } else {
        scroll + delta
    };
    if moved < last {
        moved
    } else {
        last
    }
}

/// Scroll back by `back` lines.
pub fn scroll_back(scroll: usize, back: usize, lines: usize) -> (r: usize)
    ensures
        r == scrolled_to(scroll as int, back as int, lines as int),
{
    let last: usize = if lines > 0 {
        lines - 1
    } else {
        0
    };
    if scroll >= last || back >= last - scroll {
        last
    } else {
        scroll + back
    }
}

/// Scroll towards the newest by `on` lines.
pub fn scroll_on(scroll: usize, on: usize, lines: usize) -> (r: usize)
    ensures
        r == scrolled_to(scroll as int, -(on as int), lines as int),
{
    let last: usize = if lines > 0 {
        lines - 1
    } else {
        0
    };
    let moved: usize = if scroll > on {
        scroll - on
    } else {
        0
    };
    if moved < last {
        moved
    } else {
        last
    }
}

/// What the panic button is about to take down, gathered while it asks.
#[derive(Debug)]
pub struct PanicSummary {
    pub tunnels: usize,
    pub rdp: usize,
    pub ssh: usize,
    /// `provider:profile` for every VPN profile currently up.
    pub vpn: Vec<String>,
}

/// So many of a thing, in words.
pub open spec fn counted(n: nat, one: Seq<char>) -> Seq<char> {
    if n == 1 {
        "1 "@ + one
    } else {
        decimal(n) + " "@ + one + "s"@
    }
}

pub fn count(n: usize, one: &str) -> (r: String)
    ensures
        r@ == counted(n as nat, one@),
{
    if n == 1 {
        cat("1 ", one)
    } else {
        let mut s = cat3(number::write(n as u64).as_str(), " ", one);
        s.push_str("s");
        s
    }
}

/// One line per kind, leaving out the kinds that have nothing up.
pub open spec fn summary_lines(
    tunnels: nat,
    rdp: nat,
    ssh: nat,
    vpn: Seq<Seq<char>>,
) -> Seq<Seq<char>> {
    let a = if tunnels > 0 {
        seq![counted(tunnels, "tunnel"@)]
    } else {
        Seq::empty()
    };
    let b = if rdp > 0 {
        a.push(counted(rdp, "RDP session"@))
    } else {
        a
    };
    let c = if ssh > 0 {
        b.push(counted(ssh, "SSH window"@))
    } else {
        b
    };
    if vpn.len() > 0 {
        c.push("VPN: "@ + joined(vpn, ", "@))
    } else {
        c
    }
}

impl PanicSummary {
    pub open spec fn lines_spec(&self) -> Seq<Seq<char>> {
        summary_lines(self.tunnels as nat, self.rdp as nat, self.ssh as nat, texts(self.vpn@))
    }

    pub fn is_empty(&self) -> (r: bool)
        ensures
            r == (self.tunnels == 0 && self.rdp == 0 && self.ssh == 0 && self.vpn@.len() == 0),
    {
        self.tunnels == 0 && self.rdp == 0 && self.ssh == 0 && self.vpn.len() == 0
    }

    /// One line per kind, leaving out the kinds that have nothing up.
    pub fn lines(&self) -> (r: Vec<String>)
        ensures
            texts(r@) == self.lines_spec(),
    {
        let mut out = text::no_texts();
        if self.tunnels > 0 {
            text::add_text(&mut out, count(self.tunnels, "tunnel"));
        }
        if self.rdp > 0 {
            text::add_text(&mut out, count(self.rdp, "RDP session"));
        }
        if self.ssh > 0 {
            text::add_text(&mut out, count(self.ssh, "SSH window"));
        }
        assert(texts(self.vpn@).len() == self.vpn@.len());
        if self.vpn.len() > 0 {
            text::add_text(&mut out, cat("VPN: ", text::join(&self.vpn, ", ").as_str()));
        }
        assert(texts(out@) =~= self.lines_spec());
        out
    }
}

/// A summary has lines exactly where there is something to take down.
pub proof fn law_summary_says_what_is_up(tunnels: nat, rdp: nat, ssh: nat, vpn: Seq<Seq<char>>)
    ensures
        summary_lines(tunnels, rdp, ssh, vpn).len() == 0 <==> tunnels == 0 && rdp == 0 && ssh == 0
            && vpn.len() == 0,
{
}

/// What quitting would leave behind, while it asks what to do about it.
///
/// Only OpenVPN sessions: a tunnel is an ssh child that goes when the terminal
/// does, an RDP or SSH session is a window the user can see, but an OpenVPN
/// session is a *root* process, and once controlcenter is gone nothing is left
/// that knows how to reach it.
#[derive(Debug)]
pub struct QuitPrompt {
    /// `profile — state`, one line each.
    pub sessions: Vec<String>,
}

/// What the status bar says.
#[derive(Debug)]
pub struct StatusMsg {
    pub text: String,
    pub error: bool,
    /// Since when, in milliseconds.
    pub at: u64,
}

}
