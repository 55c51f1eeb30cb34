//! What the questions say, and the file picker.

use vstd::prelude::*;
use crate::activation::{blocking_of, progress_of, Activation, Clash, ConflictPrompt, Running};
use crate::browser::{Entry, FileBrowser};
use crate::number::{self, decimal};
use crate::plan::describe_of;
use crate::screen::{PanicSummary, QuitPrompt};
use crate::sheet::{add_bit, bit, bold, ink, line1, line2, line3, line4, strong, Ink, Piece, Sheet};
use crate::text::{self, cat, cat3, cat5, texts};
use crate::types::{RdpConnection, SshHost, Tunnel, VpnConfig};
use crate::ui::{scrolled, scrolled_text, truncate_pub, truncated};
use crate::vpn::ProviderId;
use crate::vpn_panes::{add_texts, with_texts};

verus! {

// ---------------------------------------------------------------------------
// Deleting
// ---------------------------------------------------------------------------

/// Whether to delete something, and the keys that answer.
pub open spec fn confirm_spec(question: Seq<char>) -> Seq<Seq<Piece>> {
    seq![
        seq![ink(question, Ink::Text)],
        Seq::empty(),
        seq![
            strong(" y"@, Ink::Danger),
            ink(" delete · "@, Ink::Dim),
            ink("any other key"@, Ink::Accent),
            ink(" cancel"@, Ink::Dim),
        ],
    ]
}

pub fn confirm_box(question: &str) -> (r: Sheet)
    ensures
        r@ == confirm_spec(question@),
{
    let mut out = Sheet::new();
    out.say(question, Ink::Text);
    out.gap();
    out.add(
        line4(
            bold(" y", Ink::Danger),
            bit(" delete · ", Ink::Dim),
            bit("any other key", Ink::Accent),
            bit(" cancel", Ink::Dim),
        ),
    );
    assert(out@ =~= confirm_spec(question@));
    out
}

/// What is asked before a tunnel goes.
pub open spec fn tunnel_question(ts: Seq<Tunnel>, i: int) -> Seq<char> {
    " delete tunnel '"@ + (if i < ts.len() {
        ts[i].name@
    } else {
        "?"@
    }) + "'?"@
}

pub fn ask_about_tunnel(ts: &Vec<Tunnel>, i: usize) -> (r: Sheet)
    ensures
        r@ == confirm_spec(tunnel_question(ts@, i as int)),
{
    let name = if i < ts.len() {
        ts[i].name.as_str()
    } else {
        "?"
    };
    confirm_box(cat3(" delete tunnel '", name, "'?").as_str())
}

/// What is asked before an SSH host goes.
pub open spec fn ssh_question(hs: Seq<SshHost>, i: int) -> Seq<char> {
    " delete SSH host '"@ + (if i < hs.len() {
        hs[i].name@
    } else {
        "?"@
    }) + "'?"@
}

pub fn ask_about_ssh(hs: &Vec<SshHost>, i: usize) -> (r: Sheet)
    ensures
        r@ == confirm_spec(ssh_question(hs@, i as int)),
{
    let name = if i < hs.len() {
        hs[i].name.as_str()
    } else {
        "?"
    };
    confirm_box(cat3(" delete SSH host '", name, "'?").as_str())
}

/// What is asked before an RDP connection goes.
pub open spec fn rdp_question(cs: Seq<RdpConnection>, i: int) -> Seq<char> {
    " delete RDP connection '"@ + (if i < cs.len() {
        cs[i].name@
    } else {
        "?"@
    }) + "'?"@
}

pub fn ask_about_rdp(cs: &Vec<RdpConnection>, i: usize) -> (r: Sheet)
    ensures
        r@ == confirm_spec(rdp_question(cs@, i as int)),
{
    let name = if i < cs.len() {
        cs[i].name.as_str()
    } else {
        "?"
    };
    confirm_box(cat3(" delete RDP connection '", name, "'?").as_str())
}

/// The name of a client's profile, as far as it is kept here.
pub open spec fn profile_name(cfg: VpnConfig, id: ProviderId, i: int) -> Seq<char> {
    match id {
        ProviderId::Wireguard if i < cfg.wireguard@.len() => cfg.wireguard@[i].name@,
        ProviderId::Openvpn if i < cfg.openvpn@.len() => cfg.openvpn@[i].name@,
        ProviderId::Tailscale if i < cfg.tailscale@.len() => cfg.tailscale@[i].name@,
        _ => "?"@,
    }
}

/// What is asked before a VPN profile goes.
pub open spec fn vpn_question(cfg: VpnConfig, id: ProviderId, i: int) -> Seq<char> {
    " delete "@ + id.slug_spec() + " profile '"@ + profile_name(cfg, id, i) + "'?"@
}

pub fn ask_about_profile(cfg: &VpnConfig, id: ProviderId, i: usize) -> (r: Sheet)
    ensures
        r@ == confirm_spec(vpn_question(*cfg, id, i as int)),
{
    let name = match id {
        ProviderId::Wireguard => if i < cfg.wireguard.len() {
            cfg.wireguard[i].name.as_str()
        } else {
            "?"
        },
        ProviderId::Openvpn => if i < cfg.openvpn.len() {
            cfg.openvpn[i].name.as_str()
        } else {
            "?"
        },
        ProviderId::Tailscale => if i < cfg.tailscale.len() {
            cfg.tailscale[i].name.as_str()
        } else {
            "?"
        },
        ProviderId::Netbird => "?",
    };
    confirm_box(cat5(" delete ", id.slug(), " profile '", name, "'?").as_str())
}

// ---------------------------------------------------------------------------
// Storing a secret
// ---------------------------------------------------------------------------

/// What saving a VPN secret means.
pub open spec fn secret_spec(id: ProviderId, file: Seq<char>) -> Seq<Seq<Piece>> {
    seq![
        seq![
            strong(
                " "@ + (if id == ProviderId::Wireguard {
                    "The private key is saved in cleartext."@
                } else {
                    "The password is saved in cleartext."@
                }),
                Ink::Warn,
            ),
        ],
        Seq::empty(),
        seq![ink(" It goes into "@ + file + ", which is written mode 0600."@, Ink::Text)],
        seq![ink(" Anything that can read your files can read it."@, Ink::Text)],
        Seq::empty(),
        seq![ink(" y / Enter to save anyway · any other key to go back"@, Ink::Dim)],
    ]
}

pub fn vpn_secret_warning(id: ProviderId, file: &str) -> (r: Sheet)
    ensures
        r@ == secret_spec(id, file@),
{
    let what = match id {
        ProviderId::Wireguard => "The private key is saved in cleartext.",
        _ => "The password is saved in cleartext.",
    };
    let mut out = Sheet::new();
    out.add(line1(bold(cat(" ", what).as_str(), Ink::Warn)));
    out.gap();
    out.say(cat3(" It goes into ", file, ", which is written mode 0600.").as_str(), Ink::Text);
    out.say(" Anything that can read your files can read it.", Ink::Text);
    out.gap();
    out.say(" y / Enter to save anyway · any other key to go back", Ink::Dim);
    assert(out@ =~= secret_spec(id, file@));
    out
}

/// What saving an SSH password means.
pub open spec fn password_spec(file: Seq<char>) -> Seq<Seq<Piece>> {
    seq![
        seq![strong(" The password is saved in cleartext."@, Ink::Warn)],
        Seq::empty(),
        seq![ink(" It is written to "@ + file, Ink::Text)],
        seq![ink(" (file mode 0600) and passed to ssh through sshpass."@, Ink::Text)],
        seq![ink(" Anyone who can read your home directory can read it,"@, Ink::Dim)],
        seq![ink(" and backups will carry it along. A key is safer."@, Ink::Dim)],
        Seq::empty(),
        seq![
            strong(" y"@, Ink::Warn),
            ink(" save it anyway · "@, Ink::Dim),
            ink("any other key"@, Ink::Accent),
            ink(" back to the form"@, Ink::Dim),
        ],
    ]
}

pub fn password_warning(file: &str) -> (r: Sheet)
    ensures
        r@ == password_spec(file@),
{
    let mut out = Sheet::new();
    out.add(line1(bold(" The password is saved in cleartext.", Ink::Warn)));
    out.gap();
    out.say(cat(" It is written to ", file).as_str(), Ink::Text);
    out.say(" (file mode 0600) and passed to ssh through sshpass.", Ink::Text);
    out.say(" Anyone who can read your home directory can read it,", Ink::Dim);
    out.say(" and backups will carry it along. A key is safer.", Ink::Dim);
    out.gap();
    out.add(
        line4(
            bold(" y", Ink::Warn),
            bit(" save it anyway · ", Ink::Dim),
            bit("any other key", Ink::Accent),
            bit(" back to the form", Ink::Dim),
        ),
    );
    assert(out@ =~= password_spec(file@));
    out
}

// ---------------------------------------------------------------------------
// Asking for a password
// ---------------------------------------------------------------------------

/// So many dots.
pub open spec fn dots(n: nat) -> Seq<char> {
    Seq::new(n, |i: int| '•')
}

fn masked(s: &str) -> (r: String)
    ensures
        r@ == dots(s@.len()),
{
    let n: usize = text::chars_of(s).len();
    let mut out = String::new();
    let mut i: usize = 0;
    assert(out@ =~= dots(0));
    while i < n
        invariant
            i <= n,
            out@ == dots(i as nat),
        decreases n - i,
    {
        out.push('•');
        i = i + 1;
        assert(out@ =~= dots(i as nat));
    }
    out
}

/// Who is asked about: a name, and the login.
pub open spec fn asked_about(cs: Seq<RdpConnection>, pending: Seq<usize>) -> (Seq<char>, Seq<char>) {
    if pending.len() > 0 && pending[0] < cs.len() {
        let c = cs[pending[0] as int];
        (c.name@, c.login_spec() + " @ "@ + (c.host@ + ":"@ + decimal(c.port as nat)))
    } else {
        ("?"@, Seq::empty())
    }
}

/// Where a group stands, once there is more than one to ask about.
pub open spec fn asked_of(done: nat, total: nat) -> Seq<char> {
    if total > 1 {
        "  ("@ + decimal(done + 1) + " of "@ + decimal(total) + ")"@
    } else {
        Seq::empty()
    }
}

/// The password prompt: dots for what is typed, never the password.
pub open spec fn rdp_password_spec(
    cs: Seq<RdpConnection>,
    pending: Seq<usize>,
    done: nat,
    typed: nat,
) -> Seq<Seq<Piece>> {
    let (name, login) = asked_about(cs, pending);
    seq![
        seq![
            ink(" connect to "@, Ink::Dim),
            strong(name, Ink::Accent),
            ink(asked_of(done, done + pending.len()), Ink::Dim),
        ],
        seq![ink(" "@ + login, Ink::Dim)],
        Seq::empty(),
        seq![
            ink(" password  "@, Ink::Dim),
            ink(dots(typed), Ink::Text),
            ink("▏"@, Ink::Accent),
        ],
        seq![ink(" Enter connect · Esc cancel (password is not stored)"@, Ink::Dim)],
    ]
}

/// `pending` holds the connections still to be asked about, current one first;
/// `done` how many of a group have already been answered.
pub fn rdp_password_box(
    cs: &Vec<RdpConnection>,
    pending: &Vec<usize>,
    done: usize,
    input: &str,
) -> (r: Sheet)
    requires
        done + pending@.len() < usize::MAX,
    ensures
        r@ == rdp_password_spec(cs@, pending@, done as nat, input@.len()),
{
    let mut name = "?".to_owned();
    let mut login = String::new();
    assert(login@ =~= Seq::<char>::empty());
    if pending.len() > 0 && pending[0] < cs.len() {
        let c = &cs[pending[0]];
        name = c.name.clone();
        login = cat3(c.login_summary().as_str(), " @ ", c.target_summary().as_str());
    }
    let total: usize = done + pending.len();
    let mut counter = String::new();
    assert(counter@ =~= Seq::<char>::empty());
    if total > 1 {
        counter = cat5(
            "  (",
            number::write((done + 1) as u64).as_str(),
            " of ",
            number::write(total as u64).as_str(),
            ")",
        );
    }
    let mut out = Sheet::new();
    out.add(
        line3(
            bit(" connect to ", Ink::Dim),
            bold(name.as_str(), Ink::Accent),
            bit(counter.as_str(), Ink::Dim),
        ),
    );
    out.say(cat(" ", login.as_str()).as_str(), Ink::Dim);
    out.gap();
    out.add(
        line3(
            bit(" password  ", Ink::Dim),
            bit(masked(input).as_str(), Ink::Text),
            bit("▏", Ink::Accent),
        ),
    );
    out.say(" Enter connect · Esc cancel (password is not stored)", Ink::Dim);
    assert(out@ =~= rdp_password_spec(cs@, pending@, done as nat, input@.len()));
    out
}

// ---------------------------------------------------------------------------
// The panic button, and quitting
// ---------------------------------------------------------------------------

/// What is up, and that it all goes.
pub open spec fn panic_spec(p: PanicSummary) -> Seq<Seq<Piece>> {
    let out = Seq::<Seq<Piece>>::empty();
    let out = out.push(seq![strong(" Disconnect everything?"@, Ink::Text)]);
    let out = with_texts(out, p.lines_spec(), "   "@, Ink::Warn);
    let out = out.push(Seq::empty());
    let out = if p.vpn@.len() > 0 {
        out.push(seq![ink(" Taking a VPN down asks for root."@, Ink::Dim)])
    } else {
        out
    };
    let out = out.push(
        seq![ink(" Auto-reconnect stops too; nothing comes back on its own."@, Ink::Dim)],
    );
    out.push(
        seq![
            strong(" y/enter "@, Ink::Danger),
            ink("disconnect  "@, Ink::Dim),
            strong("any key "@, Ink::Accent),
            ink("leave it"@, Ink::Dim),
        ],
    )
}

pub fn panic_prompt(p: &PanicSummary) -> (r: Sheet)
    ensures
        r@ == panic_spec(*p),
{
    let mut out = Sheet::new();
    out.add(line1(bold(" Disconnect everything?", Ink::Text)));
    let items = p.lines();
    add_texts(&mut out, &items, "   ", Ink::Warn);
    out.gap();
    if p.vpn.len() > 0 {
        out.say(" Taking a VPN down asks for root.", Ink::Dim);
    }
    out.say(" Auto-reconnect stops too; nothing comes back on its own.", Ink::Dim);
    out.add(
        line4(
            bold(" y/enter ", Ink::Danger),
            bit("disconnect  ", Ink::Dim),
            bold("any key ", Ink::Accent),
            bit("leave it", Ink::Dim),
        ),
    );
    out
}

/// What quitting would leave running as root, and the two ways out of it.
pub open spec fn quit_spec(sessions: Seq<Seq<char>>) -> Seq<Seq<Piece>> {
    let out = Seq::<Seq<Piece>>::empty();
    let out = out.push(
        seq![
            strong(
                " "@ + decimal(sessions.len()) + " openvpn session(s) are still up:"@,
                Ink::Text,
            ),
        ],
    );
    let out = with_texts(out, sessions, "   "@, Ink::Warn);
    let out = out.push(Seq::empty());
    let out = out.push(
        seq![ink(" They run as root. Once controlcenter is gone nothing is left that"@, Ink::Dim)],
    );
    let out = out.push(
        seq![
            ink(" knows how to reach them, and the next connection to the same profile"@, Ink::Dim),
        ],
    );
    let out = out.push(
        seq![ink(" will be fighting the one still there for the server's slot."@, Ink::Dim)],
    );
    out.push(
        seq![
            strong(" s/enter "@, Ink::Good),
            ink("stop and quit  "@, Ink::Dim),
            strong("k "@, Ink::Warn),
            ink("keep and quit  "@, Ink::Dim),
        ].push(strong("any key "@, Ink::Accent)).push(ink("stay"@, Ink::Dim)),
    )
}

pub fn quit_question(q: &QuitPrompt) -> (r: Sheet)
    ensures
        r@ == quit_spec(texts(q.sessions@)),
{
    assert(texts(q.sessions@).len() == q.sessions@.len());
    let mut out = Sheet::new();
    let n = number::write(q.sessions.len() as u64);
    out.add(
        line1(bold(cat3(" ", n.as_str(), " openvpn session(s) are still up:").as_str(), Ink::Text)),
    );
    add_texts(&mut out, &q.sessions, "   ", Ink::Warn);
    out.gap();
    out.say(" They run as root. Once controlcenter is gone nothing is left that", Ink::Dim);
    out.say(" knows how to reach them, and the next connection to the same profile", Ink::Dim);
    out.say(" will be fighting the one still there for the server's slot.", Ink::Dim);
    let mut keys = line4(
        bold(" s/enter ", Ink::Good),
        bit("stop and quit  ", Ink::Dim),
        bold("k ", Ink::Warn),
        bit("keep and quit  ", Ink::Dim),
    );
    add_bit(&mut keys, bold("any key ", Ink::Accent));
    add_bit(&mut keys, bit("stay", Ink::Dim));
    out.add(keys);
    out
}

// ---------------------------------------------------------------------------
// A conflict
// ---------------------------------------------------------------------------

/// How many of the things in the way are named.
pub const SHOWN_IN_THE_WAY: usize = 4;

/// What a step needs, and what goes for it.
pub open spec fn conflict_spec(c: Clash, a: Option<Running>) -> Seq<Seq<Piece>> {
    let out = Seq::<Seq<Piece>>::empty();
    let out = out.push(
        seq![ink(" starting  "@, Ink::Dim), strong(describe_of(c.step), Ink::Accent)],
    );
    let out = out.push(seq![ink(" needs     "@, Ink::Dim), strong(c.resource, Ink::Warn)]);
    let out = match c.note {
        Some(n) => out.push(seq![ink(" change    "@, Ink::Dim), ink(n, Ink::Text)]),
        None => out,
    };
    let out = out.push(Seq::empty());
    let out = out.push(seq![ink(" These are disconnected first:"@, Ink::Dim)]);
    let out = with_texts(out, few(blocking_of(c)), "   "@, Ink::Text);
    let out = match a {
        Some(r) => if r.total > 1 {
            out.push(
                seq![
                    ink(
                        " Part of starting "@ + r.target + " ("@ + progress_of(r) + ")."@,
                        Ink::Dim,
                    ),
                ],
            )
        } else {
            out
        },
        None => out,
    };
    let out = out.push(Seq::empty());
    out.push(
        seq![
            strong(" y/Enter"@, Ink::Warn),
            ink(" go ahead · "@, Ink::Dim),
            ink("any other key"@, Ink::Accent),
            ink(" cancel"@, Ink::Dim),
        ],
    )
}

/// The first few.
pub open spec fn few(ts: Seq<Seq<char>>) -> Seq<Seq<char>> {
    if ts.len() <= SHOWN_IN_THE_WAY {
        ts
    } else {
        ts.take(SHOWN_IN_THE_WAY as int)
    }
}

fn first_few(ts: &Vec<String>) -> (r: Vec<String>)
    ensures
        texts(r@) == few(texts(ts@)),
{
    let ghost all = texts(ts@);
    let mut out = text::no_texts();
    let mut i: usize = 0;
    assert(texts(out@) =~= all.take(0));
    while i < ts.len() && i < SHOWN_IN_THE_WAY
        invariant
            i <= ts@.len(),
            i <= SHOWN_IN_THE_WAY,
            all == texts(ts@),
            texts(out@) == all.take(i as int),
        decreases ts@.len() - i,
    {
        text::add_str(&mut out, ts[i].as_str());
        i = i + 1;
        assert(texts(out@) =~= all.take(i as int));
    }
    assert(all.len() == ts@.len());
    assert(all.take(all.len() as int) =~= all);
    out
}

/// The view of a plan that may be under way.
pub open spec fn running_view(a: Option<Activation>) -> Option<Running> {
    match a {
        Some(x) => Some(x@),
        None => None,
    }
}

pub fn conflict_question(c: &ConflictPrompt, a: &Option<Activation>) -> (r: Sheet)
    requires
        a matches Some(x) ==> x.done < usize::MAX,
    ensures
        r@ == conflict_spec(c@, running_view(*a)),
{
    let mut out = Sheet::new();
    out.add(line2(bit(" starting  ", Ink::Dim), bold(c.step.describe().as_str(), Ink::Accent)));
    out.add(line2(bit(" needs     ", Ink::Dim), bold(c.resource.as_str(), Ink::Warn)));
    match &c.note {
        Some(n) => out.add(line2(bit(" change    ", Ink::Dim), bit(n.as_str(), Ink::Text))),
        None => {},
    }
    out.gap();
    out.say(" These are disconnected first:", Ink::Dim);
    let blocking = c.blocking();
    add_texts(&mut out, &first_few(&blocking), "   ", Ink::Text);
    match a {
        Some(x) => if x.total > 1 {
            let s = cat5(
                " Part of starting ",
                x.target.as_str(),
                " (",
                x.progress().as_str(),
                ").",
            );
            out.say(s.as_str(), Ink::Dim);
        },
        None => {},
    }
    out.gap();
    out.add(
        line4(
            bold(" y/Enter", Ink::Warn),
            bit(" go ahead · ", Ink::Dim),
            bit("any other key", Ink::Accent),
            bit(" cancel", Ink::Dim),
        ),
    );
    out
}

// ---------------------------------------------------------------------------
// The file picker
// ---------------------------------------------------------------------------

impl FileBrowser {
    /// The path being typed, and what is found there.
    pub open spec fn head_spec(&self, room: nat, width: nat) -> Seq<Seq<Piece>> {
        seq![
            seq![
                ink(" path "@, Ink::Dim),
                ink(scrolled_text(self.input@, room), Ink::Text),
                ink("▏"@, Ink::Accent),
            ],
            seq![
                match self.error {
                    Some(e) => ink(" "@ + truncated(e@, width), Ink::Danger),
                    None => if self.entries@.len() == 0 {
                        ink(" nothing here matches"@, Ink::Dim)
                    } else {
                        ink(" "@ + decimal(self.entries@.len()) + " entries"@, Ink::Dim)
                    },
                },
            ],
        ]
    }

    /// The two lines above the list, with so much room for the path and so much
    /// for what went wrong.
    pub fn head(&self, room: usize, width: usize) -> (r: Sheet)
        ensures
            r@ == self.head_spec(room as nat, width as nat),
    {
        let mut out = Sheet::new();
        out.add(
            line3(
                bit(" path ", Ink::Dim),
                bit(scrolled(self.input.as_str(), room).as_str(), Ink::Text),
                bit("▏", Ink::Accent),
            ),
        );
        match &self.error {
            Some(e) => out.say(
                cat(" ", truncate_pub(e.as_str(), width).as_str()).as_str(),
                Ink::Danger,
            ),
            None => if self.entries.len() == 0 {
                out.say(" nothing here matches", Ink::Dim);
            } else {
                let n = number::write(self.entries.len() as u64);
                out.say(cat3(" ", n.as_str(), " entries").as_str(), Ink::Dim);
            },
        }
        assert(out@ =~= self.head_spec(room as nat, width as nat));
        out
    }

    /// The list, a directory marked and with a slash behind its name.
    pub open spec fn list_spec(es: Seq<Entry>) -> Seq<Seq<Piece>> {
        es.map_values(|e: Entry| Self::entry_spec(e))
    }

    pub open spec fn entry_spec(e: Entry) -> Seq<Piece> {
        if e.is_dir {
            seq![ink("▸ "@, Ink::Dim), ink(e.name@ + "/"@, Ink::Accent)]
        } else {
            seq![ink("  "@, Ink::Dim), ink(e.name@, Ink::Text)]
        }
    }

    pub fn list(&self) -> (r: Sheet)
        ensures
            r@ == Self::list_spec(self.entries@),
    {
        let mut out = Sheet::new();
        let mut i: usize = 0;
        assert(out@ =~= Self::list_spec(self.entries@.take(0)));
        while i < self.entries.len()
            invariant
                i <= self.entries@.len(),
                out@ == Self::list_spec(self.entries@.take(i as int)),
            decreases self.entries@.len() - i,
        {
            let e = &self.entries[i];
            if e.is_dir {
                out.add(
                    line2(
                        bit("▸ ", Ink::Dim),
                        bit(cat(e.name.as_str(), "/").as_str(), Ink::Accent),
                    ),
                );
            } else {
                out.add(line2(bit("  ", Ink::Dim), bit(e.name.as_str(), Ink::Text)));
            }
            i = i + 1;
            assert(out@ =~= Self::list_spec(self.entries@.take(i as int)));
        }
        assert(self.entries@.take(i as int) =~= self.entries@);
        out
    }
}

}
