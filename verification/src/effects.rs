//! What the program asks of the world: processes to start and stop, files to
//! write, things to tell the user.

use vstd::prelude::*;
use crate::logs::{LogTarget, Subject};
use crate::vpn::ProviderId;

verus! {

/// A file of settings.
#[derive(Debug, Clone, Copy, PartialEq, Eq, Structural)]
pub enum Store {
    Tunnels,
    Ssh,
    Rdp,
    Vpn,
    Config,
}

/// One thing to do, in the order in which it is asked for.
#[derive(Debug)]
pub enum Effect {
    /// Say it in the status bar; whether it is an error.
    Flash(String, bool),
    /// Keep it in the log of what it is about; whether it is an error.
    Note(LogTarget, String, bool),
    /// Start the ssh of the tunnel at this place of the list.
    StartTunnel(usize),
    /// Stop the ssh of a tunnel.
    StopTunnel(String),
    /// Start the ssh of a tunnel that failed once more; `attempts` counts them.
    RetryTunnel { idx: usize, attempts: u32 },
    /// Open an rdp session with this password.
    StartRdp(String, String),
    /// Close an rdp session.
    StopRdp(String),
    /// Close every ssh window.
    CloseWindows,
    /// Open an ssh session.
    OpenSsh(String),
    StartOpenvpn(String),
    /// Stop an openvpn session, and tell how that went.
    StopOpenvpn(String),
    /// Stop an openvpn session whose profile is gone.
    DropOpenvpn(String),
    /// The openvpn session of the first name goes by the second now.
    RenameOpenvpn(String, String),
    /// Have a VPN client connect or disconnect, and what that is called while
    /// it lasts.
    Vpn { provider: ProviderId, profile: Option<String>, desc: String, up: bool },
    /// Stop the connection in this row of a client, which was not started here,
    /// and what that is called while it lasts.
    StopForeign { provider: ProviderId, row: usize, force: bool, desc: String },
    /// Bring the list of a VPN client up to date.
    Refresh(ProviderId),
    /// Bring the list of openvpn sessions up to date.
    SyncOpenvpn,
    /// Have a VPN client asked how it is, in the background.
    Ask(ProviderId),
    /// Look for VPN connections on the machine, unless that is under way.
    Scan,
    /// Have the machine swept for VPN connections, in the background.
    Sweep,
    /// Put what the last sweep found into the lists of the clients.
    Merge,
    /// Keep the sudo ticket from running out.
    KeepTicket,
    /// Write a file of settings, and say so where that fails.
    Save(Store),
    /// Write a file of settings, and say this where that works.
    SaveThen(Store, String, bool),
    /// Write a report.
    Export(LogTarget),
    /// Read the directory the file picker points at.
    ListDirectory,
    /// Make a WireGuard key pair for the form.
    GenerateKey,
    /// Drop the files kept for a VPN profile.
    DropProfileFiles(ProviderId, String),
    /// Hold the WireGuard profile in the form to the client's own rules.
    CheckProfile,
    /// Write the files kept for a WireGuard profile.
    WriteProfileFiles(String),
    /// Copy what the openvpn profile in the form is made of.
    ImportProfile,
    /// Go on with the plan: the step it began has been asked for.
    Proceed,
}

/// An effect, with its words as text.
pub enum Act {
    Flash(Seq<char>, bool),
    Note(Subject, Seq<char>, bool),
    StartTunnel(int),
    StopTunnel(Seq<char>),
    RetryTunnel { idx: int, attempts: int },
    StartRdp(Seq<char>, Seq<char>),
    StopRdp(Seq<char>),
    CloseWindows,
    OpenSsh(Seq<char>),
    StartOpenvpn(Seq<char>),
    StopOpenvpn(Seq<char>),
    DropOpenvpn(Seq<char>),
    RenameOpenvpn(Seq<char>, Seq<char>),
    Vpn { provider: ProviderId, profile: Option<Seq<char>>, desc: Seq<char>, up: bool },
    StopForeign { provider: ProviderId, row: int, force: bool, desc: Seq<char> },
    Refresh(ProviderId),
    SyncOpenvpn,
    Ask(ProviderId),
    Scan,
    Sweep,
    Merge,
    KeepTicket,
    Save(Store),
    SaveThen(Store, Seq<char>, bool),
    Export(Subject),
    ListDirectory,
    GenerateKey,
    DropProfileFiles(ProviderId, Seq<char>),
    CheckProfile,
    WriteProfileFiles(Seq<char>),
    ImportProfile,
    Proceed,
}

impl View for Effect {
    type V = Act;

    open spec fn view(&self) -> Act {
        match self {
            Effect::Flash(t, e) => Act::Flash(t@, *e),
            Effect::Note(s, t, e) => Act::Note(s@, t@, *e),
            Effect::StartTunnel(i) => Act::StartTunnel(*i as int),
            Effect::StopTunnel(n) => Act::StopTunnel(n@),
            Effect::RetryTunnel { idx, attempts } => Act::RetryTunnel {
                idx: *idx as int,
                attempts: *attempts as int,
            },
            Effect::StartRdp(n, p) => Act::StartRdp(n@, p@),
            Effect::StopRdp(n) => Act::StopRdp(n@),
            Effect::CloseWindows => Act::CloseWindows,
            Effect::OpenSsh(n) => Act::OpenSsh(n@),
            Effect::StartOpenvpn(n) => Act::StartOpenvpn(n@),
            Effect::StopOpenvpn(n) => Act::StopOpenvpn(n@),
            Effect::DropOpenvpn(n) => Act::DropOpenvpn(n@),
            Effect::RenameOpenvpn(a, b) => Act::RenameOpenvpn(a@, b@),
            Effect::Vpn { provider, profile, desc, up } => Act::Vpn {
                provider: *provider,
                profile: match profile {
                    Some(p) => Some(p@),
                    None => None,
                },
                desc: desc@,
                up: *up,
            },
            Effect::StopForeign { provider, row, force, desc } => Act::StopForeign {
                provider: *provider,
                row: *row as int,
                force: *force,
                desc: desc@,
            },
            Effect::Refresh(p) => Act::Refresh(*p),
            Effect::SyncOpenvpn => Act::SyncOpenvpn,
            Effect::Ask(p) => Act::Ask(*p),
            Effect::Scan => Act::Scan,
            Effect::Sweep => Act::Sweep,
            Effect::Merge => Act::Merge,
            Effect::KeepTicket => Act::KeepTicket,
            Effect::Save(s) => Act::Save(*s),
            Effect::SaveThen(s, t, e) => Act::SaveThen(*s, t@, *e),
            Effect::Export(s) => Act::Export(s@),
            Effect::ListDirectory => Act::ListDirectory,
            Effect::GenerateKey => Act::GenerateKey,
            Effect::DropProfileFiles(p, n) => Act::DropProfileFiles(*p, n@),
            Effect::CheckProfile => Act::CheckProfile,
            Effect::WriteProfileFiles(n) => Act::WriteProfileFiles(n@),
            Effect::ImportProfile => Act::ImportProfile,
            Effect::Proceed => Act::Proceed,
        }
    }
}

/// What a list of effects asks for.
pub open spec fn acts(v: Seq<Effect>) -> Seq<Act> {
    v.map_values(|e: Effect| e@)
}

pub fn nothing() -> (r: Vec<Effect>)
    ensures
        acts(r@) == Seq::<Act>::empty(),
{
    let v: Vec<Effect> = Vec::new();
    assert(acts(v@) =~= Seq::<Act>::empty());
    v
}

pub fn ask(v: &mut Vec<Effect>, e: Effect)
    ensures
        acts(final(v)@) == acts(old(v)@).push(e@),
{
    assert(acts(v@.push(e)) =~= acts(v@).push(e@));
    v.push(e);
}

/// A list with this one effect.
pub fn just(e: Effect) -> (r: Vec<Effect>)
    ensures
        acts(r@) == seq![e@],
{
    let mut v = nothing();
    ask(&mut v, e);
    assert(acts(v@) =~= seq![e@]);
    v
}

pub fn flash(v: &mut Vec<Effect>, text: &str, error: bool)
    ensures
        acts(final(v)@) == acts(old(v)@).push(Act::Flash(text@, error)),
{
    ask(v, Effect::Flash(text.to_owned(), error));
}

/// Say it in the status bar *and* keep it in the log of what it is about, so it
/// outlives the few seconds a flash lasts.
pub open spec fn reported(to: Subject, text: Seq<char>, error: bool) -> Seq<Act> {
    seq![Act::Note(to, text, error), Act::Flash(text, error)]
}

pub fn report(v: &mut Vec<Effect>, to: LogTarget, text: &str, error: bool)
    ensures
        acts(final(v)@) == acts(old(v)@) + reported(to@, text@, error),
{
    let ghost was = acts(v@);
    let ghost who = to@;
    ask(v, Effect::Note(to, text.to_owned(), error));
    ask(v, Effect::Flash(text.to_owned(), error));
    assert(acts(v@) =~= was + reported(who, text@, error));
}

pub fn ask_all(v: &mut Vec<Effect>, more: Vec<Effect>)
    ensures
        acts(final(v)@) == acts(old(v)@) + acts(more@),
{
    let ghost was = v@;
    let mut more = more;
    let ghost new = more@;
    v.append(&mut more);
    assert(acts(was + new) =~= acts(was) + acts(new));
}

}
