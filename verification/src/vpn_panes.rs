//! What the panes of the VPN tab show.

use vstd::prelude::*;
use crate::app::App;
use crate::browser::opt_string;
use crate::live::{has_name, place_of, position};
use crate::number::{self, decimal};
use crate::path::Os;
use crate::queries::{owner_of, wishing, Wanted};
use crate::sheet::{add_bit, bit, bold, ink, line2, line3, pieces, strong, Bit, Ink, Piece, Sheet};
use crate::sort::{self, sorted};
use crate::split::{self, lines};
use crate::text::{self, cat, cat3, joined, lowercase, texts};
use crate::types::VPN_ANY;
use crate::ui::{fill, filled, truncate_pub, truncated};
use crate::vpn::ProviderId;
use crate::vpn_view::{is_foreign_fn, kept, ProviderState, VpnProfile};

verus! {

/// What is known of the machine when the status pane is drawn.
pub struct StatusFacts {
    /// How the client is installed.
    pub install_hint: String,
    pub root_available: bool,
    /// The files of the imported profile under the cursor.
    pub imported: Option<Vec<String>>,
    /// The interfaces of the WireGuard profiles.
    pub interfaces: Vec<String>,
    /// The devices that running openvpn processes were told to use.
    pub devices: Vec<String>,
    /// A line on each device of the last sweep.
    pub links: Vec<String>,
}

impl StatusFacts {
    pub open spec fn wf(&self, a: App) -> bool {
        self.links@.len() == a.scan.links@.len()
    }
}

// ---------------------------------------------------------------------------
// Clients and profiles
// ---------------------------------------------------------------------------

/// How a client is doing, at a glance.
pub open spec fn client_mark(s: ProviderState) -> (Seq<char>, Ink) {
    if !s.installed {
        ("·"@, Ink::Dim)
    } else if s.busy is Some {
        ("◌"@, Ink::Warn)
    } else if s.status.connected {
        ("●"@, Ink::Good)
    } else {
        ("○"@, Ink::Dim)
    }
}

pub fn mark_of(s: &ProviderState) -> (r: (&'static str, Ink))
    ensures
        (r.0@, r.1) == client_mark(*s),
{
    if !s.installed {
        ("·", Ink::Dim)
    } else if s.busy.is_some() {
        ("◌", Ink::Warn)
    } else if s.status.connected {
        ("●", Ink::Good)
    } else {
        ("○", Ink::Dim)
    }
}

/// A row of the list of clients.
pub open spec fn client_row(s: ProviderState) -> Seq<Piece> {
    let (mark, colour) = client_mark(s);
    let head = seq![
        ink(" "@, Ink::Plain),
        ink(mark + " "@, colour),
        Piece {
            text: s.id.slug_spec(),
            ink: if s.installed {
                Ink::Text
            } else {
                Ink::Dim
            },
            bold: s.installed && s.status.connected,
        },
    ];
    if s.installed {
        head
    } else {
        head.push(ink("  n/i"@, Ink::Dim))
    }
}

pub open spec fn client_rows(a: App) -> Seq<Seq<Piece>> {
    a.vpn.providers@.map_values(|s: ProviderState| client_row(s))
}

/// A row of a client's list. A row that was not started here is up, but it is
/// not one of ours: a different mark, so the list never reads as if the program
/// started something it cannot account for.
pub open spec fn profile_row(a: App, id: ProviderId, p: VpnProfile) -> Seq<Piece> {
    let head = seq![
        ink(" "@, Ink::Plain),
        if !p.stored_spec() {
            ink("◆ "@, Ink::Warn)
        } else if p.active {
            ink("● "@, Ink::Good)
        } else {
            ink("○ "@, Ink::Dim)
        },
        Piece {
            text: p.name@,
            ink: if !p.stored_spec() {
                Ink::Warn
            } else {
                Ink::Text
            },
            bold: p.stored_spec() && p.active,
        },
    ];
    let users = wishing(
        a.tunnels@,
        a.ssh_hosts@,
        a.rdp_conns@,
        Wanted::Vpn(id.slug_spec() + ":"@ + p.name@),
    ).len();
    let head = if p.stored_spec() && users > 0 {
        head.push(ink("  "@ + decimal(users) + " dep(s)"@, Ink::Dim))
    } else {
        head
    };
    if p.detail@.len() > 0 {
        head.push(
            ink(
                "  "@ + truncated(
                    p.detail@,
                    if p.stored_spec() {
                        24
                    } else {
                        40
                    },
                ),
                Ink::Dim,
            ),
        )
    } else {
        head
    }
}

pub open spec fn profile_rows(a: App) -> Seq<Seq<Piece>> {
    a.vpn.here().profiles@.map_values(|p: VpnProfile| profile_row(a, a.vpn.here().id, p))
}

/// What an empty list says.
pub open spec fn empty_hint(s: ProviderState) -> Seq<char> {
    if !s.installed {
        "  "@ + s.id.slug_spec() + " is not installed"@
    } else if s.id.manages_profiles_spec() {
        "  no profiles yet — press a to add one"@
    } else {
        "  no profiles found"@
    }
}

impl App {
    /// The list of clients.
    pub fn client_list(&self) -> (r: Sheet)
        requires
            self.wf(),
        ensures
            r@ == client_rows(*self),
    {
        let ghost all = client_rows(*self);
        let mut out = Sheet::new();
        let mut i: usize = 0;
        assert(out@ =~= all.take(0));
        while i < self.vpn.providers.len()
            invariant
                i <= self.vpn.providers@.len(),
                all == client_rows(*self),
                out@ == all.take(i as int),
            decreases self.vpn.providers@.len() - i,
        {
            let s = &self.vpn.providers[i];
            let (mark, colour) = mark_of(s);
            let name = Bit {
                text: s.id.slug().to_owned(),
                ink: if s.installed {
                    Ink::Text
                } else {
                    Ink::Dim
                },
                bold: s.installed && s.status.connected,
            };
            let mut line = line3(
                bit(" ", Ink::Plain),
                bit(cat(mark, " ").as_str(), colour),
                name,
            );
            if !s.installed {
                add_bit(&mut line, bit("  n/i", Ink::Dim));
            }
            out.add(line);
            i = i + 1;
            assert(all.take(i as int) =~= all.take(i - 1).push(all[i - 1]));
        }
        assert(all.take(i as int) =~= all);
        out
    }

    fn profile_bits(&self, id: ProviderId, p: &VpnProfile) -> (r: Vec<Bit>)
        ensures
            pieces(r@) == profile_row(*self, id, *p),
    {
        let stored = p.is_stored();
        let dot = if !stored {
            bit("◆ ", Ink::Warn)
        } else if p.active {
            bit("● ", Ink::Good)
        } else {
            bit("○ ", Ink::Dim)
        };
        let name = Bit {
            text: p.name.clone(),
            ink: if !stored {
                Ink::Warn
            } else {
                Ink::Text
            },
            bold: stored && p.active,
        };
        let mut line = line3(bit(" ", Ink::Plain), dot, name);
        if stored {
            let users = self.vpn_dependents_of(cat3(id.slug(), ":", p.name.as_str()).as_str());
            assert(texts(users@).len() == users@.len());
            let n: usize = users.len();
            if n > 0 {
                add_bit(
                    &mut line,
                    bit(
                        cat3("  ", number::write(n as u64).as_str(), " dep(s)").as_str(),
                        Ink::Dim,
                    ),
                );
            }
        }
        if !p.detail.as_str().is_empty() {
            let cut = truncate_pub(
                p.detail.as_str(),
                if stored {
                    24
                } else {
                    40
                },
            );
            add_bit(&mut line, bit(cat("  ", cut.as_str()).as_str(), Ink::Dim));
        }
        line
    }

    /// The list of the client under the cursor.
    pub fn profile_list(&self) -> (r: Sheet)
        requires
            self.wf(),
        ensures
            r@ == profile_rows(*self),
    {
        let ghost all = profile_rows(*self);
        let s = self.vpn.current();
        let mut out = Sheet::new();
        let mut i: usize = 0;
        assert(out@ =~= all.take(0));
        while i < s.profiles.len()
            invariant
                i <= s.profiles@.len(),
                *s == self.vpn.here(),
                all == profile_rows(*self),
                out@ == all.take(i as int),
            decreases s.profiles@.len() - i,
        {
            out.add(self.profile_bits(s.id, &s.profiles[i]));
            i = i + 1;
            assert(all.take(i as int) =~= all.take(i - 1).push(all[i - 1]));
        }
        assert(all.take(i as int) =~= all);
        out
    }

    /// What an empty list says.
    pub fn empty_list_hint(&self) -> (r: String)
        requires
            self.wf(),
        ensures
            r@ == empty_hint(self.vpn.here()),
    {
        let s = self.vpn.current();
        if !s.installed {
            cat3("  ", s.id.slug(), " is not installed")
        } else if s.id.manages_profiles() {
            "  no profiles yet — press a to add one".to_owned()
        } else {
            "  no profiles found".to_owned()
        }
    }

    /// The imported OpenVPN profile under the cursor, whose files the status
    /// pane lists.
    pub fn openvpn_import_wanted(&self) -> (r: Option<String>)
        requires
            self.wf(),
        ensures
            opt_string(r) == imported_here(*self),
    {
        let s = self.vpn.get(ProviderId::Openvpn);
        match s.selected_profile() {
            Some(p) => {
                if !p.is_stored() {
                    return None;
                }
                match position(self.vpn_cfg.openvpn.as_slice(), p.name.as_str()) {
                    Some(i) => if self.vpn_cfg.openvpn[i].import {
                        Some(self.vpn_cfg.openvpn[i].name.clone())
                    } else {
                        None
                    },
                    None => None,
                }
            },
            None => None,
        }
    }

    /// The files that came with the OpenVPN profile under the cursor, so the pane
    /// can show what the profile consists of rather than just a path. `found` are
    /// the names in its directory, as far as it can be read.
    pub fn openvpn_import_listing(&self, found: Option<Vec<String>>) -> (r: Option<
        (String, Vec<String>),
    >)
        requires
            self.wf(),
        ensures
            match r {
                Some((name, files)) => {
                    &&& imported_here(*self) == Some(name@)
                    &&& found is Some && files@ == sorted(found->0@)
                },
                None => imported_here(*self) is None || found is None,
            },
    {
        match self.openvpn_import_wanted() {
            Some(name) => match found {
                Some(files) => Some((name, sort::sort(files))),
                None => None,
            },
            None => None,
        }
    }
}

/// The imported OpenVPN profile under the cursor.
pub open spec fn imported_here(a: App) -> Option<Seq<char>> {
    let s = a.vpn.providers@[ProviderId::Openvpn.index_spec()];
    if s.selected < s.profiles@.len() && s.profiles@[s.selected as int].stored_spec() {
        let name = s.profiles@[s.selected as int].name@;
        let ps = a.vpn_cfg.openvpn@;
        if has_name(ps, name) && ps[place_of(ps, name)].import {
            Some(ps[place_of(ps, name)].name@)
        } else {
            None
        }
    } else {
        None
    }
}

// ---------------------------------------------------------------------------
// The status pane
// ---------------------------------------------------------------------------

/// A line of the summaries: a name and a value.
pub open spec fn kv_line(k: Seq<char>, v: Piece) -> Seq<Piece> {
    seq![ink(" "@ + filled(k, 11), Ink::Dim), v]
}

pub fn add_kv(out: &mut Sheet, k: &str, v: Bit)
    ensures
        final(out)@ == old(out)@.push(kv_line(k@, v@)),
{
    let head = cat(" ", fill(k, 11).as_str());
    out.add(line2(bit(head.as_str(), Ink::Dim), v));
}

/// Texts, one to a line, each after `lead`.
pub open spec fn with_texts(out: Seq<Seq<Piece>>, ts: Seq<Seq<char>>, lead: Seq<char>, colour: Ink) -> Seq<
    Seq<Piece>,
>
    decreases ts.len(),
{
    if ts.len() == 0 {
        out
    } else {
        with_texts(out, ts.drop_last(), lead, colour).push(seq![ink(lead + ts.last(), colour)])
    }
}

pub fn add_texts(out: &mut Sheet, ts: &Vec<String>, lead: &str, colour: Ink)
    ensures
        final(out)@ == with_texts(old(out)@, texts(ts@), lead@, colour),
{
    let ghost start = out@;
    let ghost all = texts(ts@);
    let mut i: usize = 0;
    assert(all.take(0) =~= Seq::<Seq<char>>::empty());
    while i < ts.len()
        invariant
            i <= ts@.len(),
            all == texts(ts@),
            out@ == with_texts(start, all.take(i as int), lead@, colour),
        decreases ts@.len() - i,
    {
        assert(all.take(i + 1).drop_last() =~= all.take(i as int));
        assert(all.take(i + 1).last() == ts@[i as int]@);
        out.say(cat(lead, ts[i].as_str()).as_str(), colour);
        i = i + 1;
    }
    assert(all.take(i as int) =~= all);
}

/// What a client says of itself.
pub open spec fn with_fields(out: Seq<Seq<Piece>>, fs: Seq<(String, String)>) -> Seq<Seq<Piece>>
    decreases fs.len(),
{
    if fs.len() == 0 {
        out
    } else {
        with_fields(out, fs.drop_last()).push(
            seq![
                ink(" "@ + filled(lowercase(fs.last().0@), 20), Ink::Dim),
                ink(fs.last().1@, Ink::Text),
            ],
        )
    }
}

fn add_fields(out: &mut Sheet, fs: &Vec<(String, String)>)
    ensures
        final(out)@ == with_fields(old(out)@, fs@),
{
    let ghost start = out@;
    let mut i: usize = 0;
    assert(fs@.take(0) =~= Seq::<(String, String)>::empty());
    while i < fs.len()
        invariant
            i <= fs@.len(),
            out@ == with_fields(start, fs@.take(i as int)),
        decreases fs@.len() - i,
    {
        assert(fs@.take(i + 1).drop_last() =~= fs@.take(i as int));
        let key = text::to_lowercase(fs[i].0.as_str());
        let head = cat(" ", fill(key.as_str(), 20).as_str());
        out.add(line2(bit(head.as_str(), Ink::Dim), bit(fs[i].1.as_str(), Ink::Text)));
        i = i + 1;
    }
    assert(fs@.take(i as int) =~= fs@);
}

/// The connections that are not held here.
pub open spec fn with_strays(out: Seq<Seq<Piece>>, ps: Seq<VpnProfile>) -> Seq<Seq<Piece>>
    decreases ps.len(),
{
    if ps.len() == 0 {
        out
    } else {
        with_strays(out, ps.drop_last()).push(
            seq![
                ink("   ◆ "@, Ink::Warn),
                ink(ps.last().name@, Ink::Text),
                ink("  "@ + ps.last().detail@, Ink::Dim),
            ],
        )
    }
}

fn add_strays(out: &mut Sheet, ps: &Vec<&VpnProfile>)
    ensures
        final(out)@ == with_strays(old(out)@, ps@.map_values(|p: &VpnProfile| *p)),
{
    let ghost start = out@;
    let ghost all = ps@.map_values(|p: &VpnProfile| *p);
    let mut i: usize = 0;
    assert(all.take(0) =~= Seq::<VpnProfile>::empty());
    while i < ps.len()
        invariant
            i <= ps@.len(),
            all == ps@.map_values(|p: &VpnProfile| *p),
            out@ == with_strays(start, all.take(i as int)),
        decreases ps@.len() - i,
    {
        assert(all.take(i + 1).drop_last() =~= all.take(i as int));
        assert(all.take(i + 1).last() == *ps@[i as int]);
        let p = ps[i];
        out.add(
            line3(
                bit("   ◆ ", Ink::Warn),
                bit(p.name.as_str(), Ink::Text),
                bit(cat("  ", p.detail.as_str()).as_str(), Ink::Dim),
            ),
        );
        i = i + 1;
    }
    assert(all.take(i as int) =~= all);
}

/// Every tunnel device found, and who accounts for it.
pub open spec fn with_links(out: Seq<Seq<Piece>>, a: App, f: StatusFacts, n: nat) -> Seq<Seq<Piece>>
    decreases n,
{
    if n == 0 {
        out
    } else {
        let i = n - 1;
        let link = a.scan.links@[i];
        let owner = owner_of(
            link,
            texts(f.interfaces@),
            a.ovpn_active@,
            texts(f.devices@),
            a.vpn.providers@,
        );
        with_links(out, a, f, i as nat).push(
            seq![
                ink("   "@ + filled(link.name@, 10), Ink::Text),
                ink(filled(f.links@[i]@, 16), Ink::Dim),
                match owner {
                    Some(id) => ink(id.slug_spec(), Ink::Dim),
                    None => ink("unaccounted for"@, Ink::Warn),
                },
            ],
        )
    }
}

/// What asks for the profile under the cursor.
pub open spec fn with_users(out: Seq<Seq<Piece>>, a: App, want: Seq<char>) -> Seq<Seq<Piece>> {
    let users = wishing(a.tunnels@, a.ssh_hosts@, a.rdp_conns@, Wanted::Vpn(want));
    let any = wishing(a.tunnels@, a.ssh_hosts@, a.rdp_conns@, Wanted::Vpn(VPN_ANY@));
    let out = out.push(Seq::empty());
    let out = out.push(seq![ink(" requires '"@ + want + "':"@, Ink::Dim)]);
    let out = if users.len() == 0 {
        out.push(seq![ink("   nothing"@, Ink::Dim)])
    } else {
        out.push(seq![ink("   "@ + joined(users, ", "@), Ink::Text)])
    };
    if any.len() > 0 {
        out.push(seq![ink("   plus "@ + decimal(any.len()) + " needing any VPN"@, Ink::Dim)])
    } else {
        out
    }
}

/// What the status pane says of a client that is not there.
pub open spec fn absent_lines(a: App, s: ProviderState, hint: Seq<char>) -> Seq<Seq<Piece>> {
    let out = Seq::<Seq<Piece>>::empty().push(Seq::empty());
    let out = out.push(
        seq![ink("  "@ + s.id.slug_spec() + " was not found on PATH"@, Ink::Warn)],
    );
    let out = out.push(Seq::empty());
    let out = out.push(seq![ink("  "@ + hint, Ink::Dim)]);
    let users = wishing(a.tunnels@, a.ssh_hosts@, a.rdp_conns@, Wanted::Client(s.id));
    if users.len() > 0 {
        let out = out.push(Seq::empty());
        let out = out.push(
            seq![ink("  "@ + decimal(users.len()) + " connection(s) ask for it:"@, Ink::Dim)],
        );
        out.push(seq![ink("   "@ + joined(users, ", "@), Ink::Text)])
    } else {
        out
    }
}

/// What a client says of itself: its state, its fields and its error.
pub open spec fn own_words(s: ProviderState, os: Os, root: bool) -> Seq<Seq<Piece>> {
    let out = Seq::<Seq<Piece>>::empty().push(
        kv_line(
            "state"@,
            if s.status.connected {
                strong("connected"@, Ink::Good)
            } else {
                strong("disconnected"@, Ink::Danger)
            },
        ),
    );
    let out = match s.busy {
        Some(b) => out.push(kv_line("action"@, strong(b@ + "…"@, Ink::Warn))),
        None => out,
    };
    let out = if s.id.needs_root_spec(os) && !root {
        out.push(kv_line("root"@, ink("no pkexec or sudo found"@, Ink::Danger)))
    } else {
        out
    };
    let out = with_fields(out.push(Seq::empty()), s.status.fields@);
    let error = match s.status.error {
        Some(e) => Some(e@),
        None => opt_string(s.error),
    };
    match error {
        Some(e) => with_texts(out.push(Seq::empty()), lines(e), " "@, Ink::Danger),
        None => out,
    }
}

/// What the status pane says.
pub open spec fn status_lines(a: App, f: StatusFacts) -> Seq<Seq<Piece>> {
    let s = a.vpn.here();
    if !s.installed {
        absent_lines(a, s, f.install_hint@)
    } else {
        let out = own_words(s, a.machine.os, f.root_available);
        // OpenVPN profiles are a directory, not a single setting: show what is
        // in it.
        let out = match (imported_here(a), f.imported) {
            (Some(name), Some(files)) => if s.id == ProviderId::Openvpn {
                let out = out.push(Seq::empty());
                let out = out.push(
                    seq![ink(" '"@ + name + "' imported into controlcenter:"@, Ink::Dim)],
                );
                if files@.len() == 0 {
                    out.push(
                        seq![ink("   nothing yet — save the profile to import it"@, Ink::Warn)],
                    )
                } else {
                    with_texts(out, texts(files@), "   "@, Ink::Text)
                }
            } else {
                out
            },
            _ => out,
        };
        let strays = kept(s.profiles@, is_foreign_fn());
        let out = if strays.len() > 0 {
            let out = out.push(Seq::empty());
            let out = out.push(
                seq![
                    ink(
                        " "@ + decimal(strays.len())
                            + " connection(s) controlcenter is not holding:"@,
                        Ink::Warn,
                    ),
                ],
            );
            with_strays(out, strays).push(
                seq![
                    ink(
                        "   Enter stops one; press it again to kill what ignored SIGTERM."@,
                        Ink::Dim,
                    ),
                ],
            )
        } else {
            out
        };
        let out = if a.scan.links@.len() > 0 {
            let out = out.push(Seq::empty());
            let out = out.push(seq![ink(" tunnel devices on this machine:"@, Ink::Dim)]);
            with_links(out, a, f, a.scan.links@.len())
        } else {
            out
        };
        let out = if s.selected < s.profiles@.len() && s.profiles@[s.selected as int].stored_spec() {
            with_users(
                out,
                a,
                s.id.slug_spec() + ":"@ + s.profiles@[s.selected as int].name@,
            )
        } else {
            out
        };
        with_texts(out.push(Seq::empty()), hints(s.id), Seq::empty(), Ink::Dim)
    }
}

/// What is worth knowing about a client, in the space there is.
pub open spec fn hints(id: ProviderId) -> Seq<Seq<char>> {
    match id {
        ProviderId::Netbird => seq![
            " Enter switches to the selected profile and connects."@,
            " Anything that requires the profile being left is disconnected."@,
            " Profiles are netbird's own; add them with the netbird CLI."@,
        ],
        ProviderId::Wireguard => seq![
            " Enter runs wg-quick up on the selected profile; Enter again takes it down."@,
            " ◆ marks an interface no stored profile accounts for; Enter runs wg-quick down."@,
            " Several interfaces can be up at once, so profiles never conflict."@,
            " Connecting asks for root through polkit."@,
        ],
        ProviderId::Openvpn => seq![
            " Enter starts the session; l shows its log."@,
            " ◆ marks something controlcenter is not holding: an openvpn process"@,
            " that outlived an earlier run, or a tun device its session left behind"@,
            " still holding the address. Enter takes one away; that is all it does."@,
            " Saving a profile copies the .ovpn and every certificate it names"@,
            " into controlcenter, so it survives the download folder being cleaned up."@,
            " Disconnecting asks for root a second time: the process runs as root"@,
            " and has to be signalled by the pid openvpn wrote."@,
        ],
        ProviderId::Tailscale => seq![
            " Enter runs tailscale up --reset with the profile's flags,"@,
            " so a profile always means exactly the state it describes."@,
            " Connecting asks for root through polkit."@,
        ],
    }
}

/// What is worth knowing about a client, in the space there is.
pub fn vpn_hints(id: ProviderId) -> (r: Vec<String>)
    ensures
        texts(r@) == hints(id),
{
    let mut v = text::no_texts();
    match id {
        ProviderId::Netbird => {
            text::add_str(&mut v, " Enter switches to the selected profile and connects.");
            text::add_str(
                &mut v,
                " Anything that requires the profile being left is disconnected.",
            );
            text::add_str(&mut v, " Profiles are netbird's own; add them with the netbird CLI.");
        },
        ProviderId::Wireguard => {
            text::add_str(
                &mut v,
                " Enter runs wg-quick up on the selected profile; Enter again takes it down.",
            );
            text::add_str(
                &mut v,
                " ◆ marks an interface no stored profile accounts for; Enter runs wg-quick down.",
            );
            text::add_str(
                &mut v,
                " Several interfaces can be up at once, so profiles never conflict.",
            );
            text::add_str(&mut v, " Connecting asks for root through polkit.");
        },
        ProviderId::Openvpn => {
            text::add_str(&mut v, " Enter starts the session; l shows its log.");
            text::add_str(
                &mut v,
                " ◆ marks something controlcenter is not holding: an openvpn process",
            );
            text::add_str(
                &mut v,
                " that outlived an earlier run, or a tun device its session left behind",
            );
            text::add_str(
                &mut v,
                " still holding the address. Enter takes one away; that is all it does.",
            );
            text::add_str(
                &mut v,
                " Saving a profile copies the .ovpn and every certificate it names",
            );
            text::add_str(
                &mut v,
                " into controlcenter, so it survives the download folder being cleaned up.",
            );
            text::add_str(
                &mut v,
                " Disconnecting asks for root a second time: the process runs as root",
            );
            text::add_str(&mut v, " and has to be signalled by the pid openvpn wrote.");
        },
        ProviderId::Tailscale => {
            text::add_str(&mut v, " Enter runs tailscale up --reset with the profile's flags,");
            text::add_str(&mut v, " so a profile always means exactly the state it describes.");
            text::add_str(&mut v, " Connecting asks for root through polkit.");
        },
    }
    assert(texts(v@) =~= hints(id));
    v
}

impl App {
    fn absent_panel(&self, s: &ProviderState, hint: &str) -> (r: Sheet)
        ensures
            r@ == absent_lines(*self, *s, hint@),
    {
        let mut out = Sheet::new();
        out.gap();
        out.say(cat3("  ", s.id.slug(), " was not found on PATH").as_str(), Ink::Warn);
        out.gap();
        out.say(cat("  ", hint).as_str(), Ink::Dim);
        let users = self.vpn_dependents_of_provider(s.id);
        assert(texts(users@).len() == users@.len());
        let n: usize = users.len();
        if n > 0 {
            out.gap();
            out.say(
                cat3("  ", number::write(n as u64).as_str(), " connection(s) ask for it:").as_str(),
                Ink::Dim,
            );
            out.say(cat("   ", text::join(&users, ", ").as_str()).as_str(), Ink::Text);
        }
        out
    }

    fn own_panel(&self, s: &ProviderState, root: bool) -> (r: Sheet)
        ensures
            r@ == own_words(*s, self.machine.os, root),
    {
        let mut out = Sheet::new();
        let state = if s.status.connected {
            bold("connected", Ink::Good)
        } else {
            bold("disconnected", Ink::Danger)
        };
        add_kv(&mut out, "state", state);
        match &s.busy {
            Some(b) => {
                add_kv(&mut out, "action", bold(cat(b.as_str(), "…").as_str(), Ink::Warn));
            },
            None => {},
        }
        if s.id.needs_root(self.machine.os) && !root {
            add_kv(&mut out, "root", bit("no pkexec or sudo found", Ink::Danger));
        }
        out.gap();
        add_fields(&mut out, &s.status.fields);
        let error: Option<&String> = match &s.status.error {
            Some(e) => Some(e),
            None => match &s.error {
                Some(e) => Some(e),
                None => None,
            },
        };
        match error {
            Some(e) => {
                out.gap();
                let all = split::split_lines(e.as_str());
                add_texts(&mut out, &all, " ", Ink::Danger);
            },
            None => {},
        }
        out
    }

    fn add_links(&self, out: &mut Sheet, f: &StatusFacts)
        requires
            self.wf(),
            f.wf(*self),
        ensures
            final(out)@ == with_links(old(out)@, *self, *f, self.scan.links@.len()),
    {
        let ghost start = out@;
        let owners = self.tunnel_devices(&f.interfaces, &f.devices);
        let mut i: usize = 0;
        while i < owners.len()
            invariant
                f.wf(*self),
                i <= owners@.len(),
                owners@.len() == self.scan.links@.len(),
                forall|k: int|
                    0 <= k < owners@.len() ==> #[trigger] owners@[k] == owner_of(
                        self.scan.links@[k],
                        texts(f.interfaces@),
                        self.ovpn_active@,
                        texts(f.devices@),
                        self.vpn.providers@,
                    ),
                out@ == with_links(start, *self, *f, i as nat),
            decreases owners@.len() - i,
        {
            let ghost link = self.scan.links@[i as int];
            let ghost owner = owner_of(
                link,
                texts(f.interfaces@),
                self.ovpn_active@,
                texts(f.devices@),
                self.vpn.providers@,
            );
            assert(owners@[i as int] == owner);
            let who = match owners[i] {
                Some(id) => bit(id.slug(), Ink::Dim),
                None => bit("unaccounted for", Ink::Warn),
            };
            let ghost said = match owner {
                Some(id) => ink(id.slug_spec(), Ink::Dim),
                None => ink("unaccounted for"@, Ink::Warn),
            };
            assert(who@ == said);
            let name = cat("   ", fill(self.scan.links[i].name.as_str(), 10).as_str());
            assert(name@ == "   "@ + filled(link.name@, 10));
            let ghost before = out@;
            let ghost row = seq![
                ink("   "@ + filled(link.name@, 10), Ink::Text),
                ink(filled(f.links@[i as int]@, 16), Ink::Dim),
                said,
            ];
            let line = line3(
                bit(name.as_str(), Ink::Text),
                bit(fill(f.links[i].as_str(), 16).as_str(), Ink::Dim),
                who,
            );
            assert(pieces(line@) == row);
            out.add(line);
            assert(out@ == before.push(row));
            assert(with_links(start, *self, *f, (i + 1) as nat).last() =~= row);
            assert(with_links(start, *self, *f, (i + 1) as nat) =~= before.push(row));
            i = i + 1;
        }
    }

    fn add_users(&self, out: &mut Sheet, want: &str)
        ensures
            final(out)@ == with_users(old(out)@, *self, want@),
    {
        let users = self.vpn_dependents_of(want);
        let any = self.vpn_dependents_of(VPN_ANY);
        assert(texts(users@).len() == users@.len());
        assert(texts(any@).len() == any@.len());
        out.gap();
        out.say(cat3(" requires '", want, "':").as_str(), Ink::Dim);
        if users.len() == 0 {
            out.say("   nothing", Ink::Dim);
        } else {
            out.say(cat("   ", text::join(&users, ", ").as_str()).as_str(), Ink::Text);
        }
        let n: usize = any.len();
        if n > 0 {
            out.say(
                cat3("   plus ", number::write(n as u64).as_str(), " needing any VPN").as_str(),
                Ink::Dim,
            );
        }
    }

    /// The status pane of the client under the cursor.
    pub fn vpn_status_panel(&self, f: &StatusFacts) -> (r: Sheet)
        requires
            self.wf(),
            f.wf(*self),
        ensures
            r@ == status_lines(*self, *f),
    {
        let s = self.vpn.current();
        if !s.installed {
            return self.absent_panel(s, f.install_hint.as_str());
        }
        let mut out = self.own_panel(s, f.root_available);
        if s.id == ProviderId::Openvpn {
            match (self.openvpn_import_wanted(), &f.imported) {
                (Some(name), Some(files)) => {
                    out.gap();
                    out.say(
                        cat3(" '", name.as_str(), "' imported into controlcenter:").as_str(),
                        Ink::Dim,
                    );
                    if files.len() == 0 {
                        out.say("   nothing yet — save the profile to import it", Ink::Warn);
                    } else {
                        add_texts(&mut out, files, "   ", Ink::Text);
                    }
                },
                _ => {},
            }
        }
        let strays = s.foreign();
        let ghost away = strays@.map_values(|p: &VpnProfile| *p);
        assert(away.len() == strays@.len());
        let n: usize = strays.len();
        if n > 0 {
            out.gap();
            out.say(
                cat3(
                    " ",
                    number::write(n as u64).as_str(),
                    " connection(s) controlcenter is not holding:",
                ).as_str(),
                Ink::Warn,
            );
            add_strays(&mut out, &strays);
            out.say(
                "   Enter stops one; press it again to kill what ignored SIGTERM.",
                Ink::Dim,
            );
        }
        if self.scan.links.len() > 0 {
            out.gap();
            out.say(" tunnel devices on this machine:", Ink::Dim);
            self.add_links(&mut out, f);
        }
        match s.selected_profile() {
            Some(p) => {
                if p.is_stored() {
                    self.add_users(&mut out, cat3(s.id.slug(), ":", p.name.as_str()).as_str());
                }
            },
            None => {},
        }
        out.gap();
        proof {
            reveal_strlit("");
            assert(""@ =~= Seq::<char>::empty());
        }
        add_texts(&mut out, &vpn_hints(s.id), "", Ink::Dim);
        out
    }
}

}
