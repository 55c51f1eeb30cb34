//! RDP sessions.
//!
//! Two clients, because the two systems have different native answers. On Linux
//! it is `xfreerdp3`, driven entirely from its command line. On Windows it is
//! `mstsc`, which takes no settings on its command line at all: everything goes
//! into a `.rdp` file it is handed.
//!
//! Neither one is given the password as an argument. xfreerdp reads it from the
//! pipe we hold (`/from-stdin`); mstsc reads it out of the `.rdp` file, where it
//! is stored the way Windows stores one, sealed to the account that wrote it.

use vstd::prelude::*;
use crate::list::{first_where, lemma_first_where, lemma_first_where_is};
use crate::number::{self, decimal, signed};
use crate::path::{self, joined_path, opt_text, Os};
use crate::split::{self, is_char, lemma_first_of_is, pieces, split_once_at, words};
use crate::text::{
    self, ascii_lowered, cat, cat3, cat4, chars_of, char_is_ascii_alnum, is_ascii_alnum, joined,
    texts, trimmed,
};
use crate::types::RdpConnection;

verus! {

/// Which client opens a session.
#[derive(Debug, Clone, Copy, PartialEq, Eq, Structural)]
pub enum Client {
    /// `xfreerdp3`, configured through its command line.
    Freerdp,
    /// Windows' own Remote Desktop Connection, configured through a `.rdp` file.
    Mstsc,
}

impl Client {
    /// What its output is labelled with in a log.
    pub open spec fn log_source_spec(self) -> Seq<char> {
        match self {
            Client::Freerdp => "xfreerdp"@,
            Client::Mstsc => "mstsc"@,
        }
    }

    pub fn log_source(self) -> (r: &'static str)
        ensures
            r@ == self.log_source_spec(),
    {
        match self {
            Client::Freerdp => "xfreerdp",
            Client::Mstsc => "mstsc",
        }
    }

    pub open spec fn native_spec(os: Os) -> Client {
        match os {
            Os::Unix => Client::Freerdp,
            Os::Windows => Client::Mstsc,
        }
    }

    /// What `rdp.client = "auto"` resolves to: the client the system ships.
    pub fn native(os: Os) -> (r: Self)
        ensures
            r == Self::native_spec(os),
    {
        match os {
            Os::Unix => Client::Freerdp,
            Os::Windows => Client::Mstsc,
        }
    }

    pub open spec fn program_spec(self) -> Seq<char> {
        match self {
            Client::Freerdp => "xfreerdp3"@,
            Client::Mstsc => "mstsc"@,
        }
    }

    pub fn program(self) -> (r: &'static str)
        ensures
            r@ == self.program_spec(),
    {
        match self {
            Client::Freerdp => "xfreerdp3",
            Client::Mstsc => "mstsc",
        }
    }

    pub open spec fn install_hint_spec(self) -> Seq<char> {
        match self {
            Client::Freerdp => "install the 'freerdp3' package (xfreerdp3)"@,
            Client::Mstsc => "mstsc.exe is part of Windows; check %SystemRoot%\\System32"@,
        }
    }

    /// Shown when the client is not on the machine.
    pub fn install_hint(self) -> (r: &'static str)
        ensures
            r@ == self.install_hint_spec(),
    {
        match self {
            Client::Freerdp => "install the 'freerdp3' package (xfreerdp3)",
            Client::Mstsc => "mstsc.exe is part of Windows; check %SystemRoot%\\System32",
        }
    }

    pub open spec fn extra_args_hint_spec(self) -> Seq<char> {
        match self {
            Client::Freerdp => "Extra xfreerdp args (optional)"@,
            Client::Mstsc => "Extra mstsc switches or .rdp settings (optional)"@,
        }
    }

    /// What the extra-args field of the form is asking for.
    pub fn extra_args_hint(self) -> (r: &'static str)
        ensures
            r@ == self.extra_args_hint_spec(),
    {
        match self {
            Client::Freerdp => "Extra xfreerdp args (optional)",
            Client::Mstsc => "Extra mstsc switches or .rdp settings (optional)",
        }
    }
}

pub open spec fn client_of(os: Os, pref: Seq<char>) -> Client {
    let p = ascii_lowered(trimmed(pref));
    if p == "freerdp"@ || p == "xfreerdp"@ || p == "xfreerdp3"@ {
        Client::Freerdp
    } else if p == "mstsc"@ || p == "windows"@ {
        Client::Mstsc
    } else {
        Client::native_spec(os)
    }
}

/// Resolve the configured preference. Anything unrecognised is the native
/// client, which is also what `auto` and an empty setting mean.
pub fn resolve_client(os: Os, pref: &str) -> (r: Client)
    ensures
        r == client_of(os, pref@),
{
    let p = text::to_ascii_lower(text::trim(pref).as_str());
    let p = p.as_str();
    if text::same(p, "freerdp") || text::same(p, "xfreerdp") || text::same(p, "xfreerdp3") {
        Client::Freerdp
    } else if text::same(p, "mstsc") || text::same(p, "windows") {
        Client::Mstsc
    } else {
        Client::native(os)
    }
}

#[derive(Debug, Clone, Copy, PartialEq, Eq, Structural)]
pub enum RdpStatus {
    Running,
    Exited(i32),
}

impl RdpStatus {
    pub open spec fn label_spec(self) -> Seq<char> {
        match self {
            RdpStatus::Running => "running"@,
            RdpStatus::Exited(c) => if c == 0 {
                "closed"@
            } else {
                "exited ("@ + signed(c as int) + ")"@
            },
        }
    }

    pub fn label(self) -> (r: String)
        ensures
            r@ == self.label_spec(),
    {
        match self {
            RdpStatus::Running => "running".to_owned(),
            RdpStatus::Exited(c) => if c == 0 {
                "closed".to_owned()
            } else {
                cat3("exited (", number::write_signed(c).as_str(), ")")
            },
        }
    }
}

// ---------------------------------------------------------------------------
// The command line
// ---------------------------------------------------------------------------

/// What xfreerdp is run with, program first.
pub open spec fn freerdp_of(c: RdpConnection) -> Seq<Seq<char>> {
    let fixed = seq![
        "xfreerdp3"@,
        "/v:"@ + c.host@ + ":"@ + decimal(c.port as nat),
        "/u:"@ + c.username@,
        "/dynamic-resolution"@,
        "/cert:ignore"@,
        "/from-stdin"@,
    ];
    let named = if c.domain@.len() == 0 {
        fixed
    } else {
        fixed.push("/d:"@ + c.domain@)
    };
    named + words(c.extra_args@)
}

/// What mstsc is run with, program first.
pub open spec fn mstsc_of(c: RdpConnection, file: Option<Seq<char>>) -> Seq<Seq<char>> {
    seq![
        "mstsc"@,
        match file {
            Some(p) => p,
            None => "<"@ + c.name@ + ".rdp>"@,
        },
    ] + switches_in(pieces(c.extra_args@, is_char(',')))
}

pub open spec fn args_of(c: RdpConnection, client: Client, file: Option<Seq<char>>) -> Seq<Seq<char>> {
    match client {
        Client::Freerdp => freerdp_of(c),
        Client::Mstsc => mstsc_of(c, file),
    }
}

/// The arguments a connection is opened with, in the order they are passed.
///
/// `file` is the `.rdp` mstsc will be handed, which only exists once a session
/// is actually being started; `None` renders it as a placeholder, for the
/// command line a report shows for a connection that is not running.
///
/// The password is not among them for either client and never will be.
pub fn build_args(conn: &RdpConnection, client: Client, file: Option<&str>) -> (r: Vec<String>)
    ensures
        texts(r@) == args_of(*conn, client, opt_text(file)),
{
    match client {
        Client::Freerdp => freerdp_args(conn),
        Client::Mstsc => mstsc_args(conn, file),
    }
}

fn freerdp_args(conn: &RdpConnection) -> (r: Vec<String>)
    ensures
        texts(r@) == freerdp_of(*conn),
{
    let mut args = text::no_texts();
    text::add_str(&mut args, "xfreerdp3");
    text::add_text(
        &mut args,
        cat4("/v:", conn.host.as_str(), ":", number::write(conn.port as u64).as_str()),
    );
    text::add_text(&mut args, cat("/u:", conn.username.as_str()));
    text::add_str(&mut args, "/dynamic-resolution");
    text::add_str(&mut args, "/cert:ignore");
    text::add_str(&mut args, "/from-stdin");
    if !conn.domain.as_str().is_empty() {
        text::add_text(&mut args, cat("/d:", conn.domain.as_str()));
    }
    let extra = split::split_words(conn.extra_args.as_str());
    text::add_all(&mut args, &extra);
    assert(texts(args@) =~= freerdp_of(*conn));
    args
}

/// mstsc takes the connection itself in the file and almost nothing else, so
/// the only arguments are the file and whichever switches the user added.
fn mstsc_args(conn: &RdpConnection, file: Option<&str>) -> (r: Vec<String>)
    ensures
        texts(r@) == mstsc_of(*conn, opt_text(file)),
{
    let mut args = text::no_texts();
    text::add_str(&mut args, "mstsc");
    text::add_text(
        &mut args,
        match file {
            Some(p) => p.to_owned(),
            None => cat3("<", conn.name.as_str(), ".rdp>"),
        },
    );
    let extra = split_extra(conn.extra_args.as_str());
    text::add_all(&mut args, &extra.switches);
    assert(texts(args@) =~= mstsc_of(*conn, opt_text(file)));
    args
}

/// What `extra_args` means for mstsc.
///
/// The field is one line of free text and has to keep meaning something on
/// Windows, where the client takes its settings in a file rather than on a
/// command line. So an entry that looks like a `.rdp` setting (`key:s:value`,
/// `key:i:0`, `key:b:…`) is one, and goes into the file; anything else is a
/// switch for mstsc itself. That is what lets `/f` and
/// `redirectclipboard:i:0` sit side by side in the same field.
#[derive(Debug, PartialEq, Eq)]
pub struct ExtraArgs {
    /// Lines to merge into the generated `.rdp`.
    pub settings: Vec<String>,
    /// Arguments passed to mstsc.
    pub switches: Vec<String>,
}

/// The key of a `.rdp` line, i.e. everything before the `:s:`/`:i:`/`:b:`.
pub open spec fn setting_key(line: Seq<char>) -> Option<Seq<char>> {
    match split_once_at(line, ':') {
        None => None,
        Some((key, rest)) => match split_once_at(rest, ':') {
            None => None,
            Some((kind, _)) => if key.len() > 0 && (kind == "s"@ || kind == "i"@ || kind == "b"@) {
                Some(key)
            } else {
                None
            },
        },
    }
}

pub fn rdp_setting_key(line: &str) -> (r: Option<String>)
    ensures
        r is Some <==> setting_key(line@) is Some,
        r is Some ==> r->0@ == setting_key(line@)->0,
{
    let (key, rest) = match split::split_once(line, ':') {
        Some(p) => p,
        None => {
            return None;
        },
    };
    let (kind, _) = match split::split_once(rest.as_str(), ':') {
        Some(p) => p,
        None => {
            return None;
        },
    };
    let kind = kind.as_str();
    if key.as_str().is_empty() || !(text::same(kind, "s") || text::same(kind, "i") || text::same(
        kind,
        "b",
    )) {
        return None;
    }
    Some(key)
}

/// The parts that are settings for the file.
pub open spec fn settings_in(parts: Seq<Seq<char>>) -> Seq<Seq<char>>
    decreases parts.len(),
{
    if parts.len() == 0 {
        Seq::empty()
    } else {
        let before = settings_in(parts.drop_last());
        let p = trimmed(parts.last());
        if p.len() > 0 && setting_key(p) is Some {
            before.push(p)
        } else {
            before
        }
    }
}

/// The words of the parts that are not.
pub open spec fn switches_in(parts: Seq<Seq<char>>) -> Seq<Seq<char>>
    decreases parts.len(),
{
    if parts.len() == 0 {
        Seq::empty()
    } else {
        let before = switches_in(parts.drop_last());
        let p = trimmed(parts.last());
        if p.len() > 0 && setting_key(p) is None {
            before + words(p)
        } else {
            before
        }
    }
}

/// A `.rdp` setting can contain spaces on either side of the colons
/// ("full address:s:host"), so the field is split on white space only for
/// switches; settings are taken as whole comma-separated entries.
pub fn split_extra(extra: &str) -> (r: ExtraArgs)
    ensures
        texts(r.settings@) == settings_in(pieces(extra@, is_char(','))),
        texts(r.switches@) == switches_in(pieces(extra@, is_char(','))),
{
    let parts = split::split(extra, ',');
    let ghost all = texts(parts@);
    let mut settings = text::no_texts();
    let mut switches = text::no_texts();
    let mut i: usize = 0;
    assert(all.take(0) =~= Seq::<Seq<char>>::empty());
    while i < parts.len()
        invariant
            i <= parts@.len(),
            all == texts(parts@),
            texts(settings@) == settings_in(all.take(i as int)),
            texts(switches@) == switches_in(all.take(i as int)),
        decreases parts@.len() - i,
    {
        assert(all.take(i + 1).drop_last() =~= all.take(i as int));
        assert(all.take(i + 1).last() == parts@[i as int]@);
        let part = text::trim(parts[i].as_str());
        if !part.as_str().is_empty() {
            if rdp_setting_key(part.as_str()).is_some() {
                text::add_text(&mut settings, part);
            } else {
                let ws = split::split_words(part.as_str());
                text::add_all(&mut switches, &ws);
            }
        }
        i = i + 1;
    }
    assert(all.take(i as int) =~= all);
    ExtraArgs { settings, switches }
}

// ---------------------------------------------------------------------------
// The .rdp file
// ---------------------------------------------------------------------------

/// The lines of a connection, before the user's own settings.
pub open spec fn generated(c: RdpConnection, sealed: Option<Seq<char>>) -> Seq<Seq<char>> {
    let fixed = seq![
        "full address:s:"@ + c.host@ + ":"@ + decimal(c.port as nat),
        "username:s:"@ + c.login_spec(),
        "screen mode id:i:1"@,
        "dynamic resolution:i:1"@,
        "authentication level:i:0"@,
        "prompt for credentials:i:0"@,
        "redirectclipboard:i:1"@,
    ];
    match sealed {
        Some(blob) => fixed.push("password 51:b:"@ + blob),
        None => fixed,
    }
}

pub open spec fn has_key(key: Seq<char>) -> spec_fn(Seq<char>) -> bool {
    |l: Seq<char>| setting_key(l) == Some(key)
}

/// A setting in place of the line with its key, or behind the others.
pub open spec fn overridden(lines: Seq<Seq<char>>, setting: Seq<char>) -> Seq<Seq<char>> {
    match setting_key(setting) {
        None => lines,
        Some(key) => {
            let i = first_where(lines, has_key(key));
            if i < lines.len() {
                lines.update(i, setting)
            } else {
                lines.push(setting)
            }
        },
    }
}

pub open spec fn all_overridden(lines: Seq<Seq<char>>, settings: Seq<Seq<char>>) -> Seq<Seq<char>>
    decreases settings.len(),
{
    if settings.len() == 0 {
        lines
    } else {
        overridden(all_overridden(lines, settings.drop_last()), settings.last())
    }
}

/// The lines of the file.
pub open spec fn file_lines(c: RdpConnection, sealed: Option<Seq<char>>) -> Seq<Seq<char>> {
    all_overridden(generated(c, sealed), settings_in(pieces(c.extra_args@, is_char(','))))
}

fn override_with(lines: &mut Vec<String>, setting: &str)
    ensures
        texts(final(lines)@) == overridden(texts(old(lines)@), setting@),
{
    let key = match rdp_setting_key(setting) {
        Some(k) => k,
        None => {
            return;
        },
    };
    let ghost was = texts(lines@);
    let ghost p = has_key(key@);
    let mut i: usize = 0;
    while i < lines.len()
        invariant
            i <= lines@.len(),
            was == texts(lines@),
            was == texts(old(lines)@),
            setting_key(setting@) == Some(key@),
            p == has_key(key@),
            forall|j: int| 0 <= j < i ==> !p(#[trigger] was[j]),
        decreases lines@.len() - i,
    {
        assert(was[i as int] == lines@[i as int]@);
        let here = match rdp_setting_key(lines[i].as_str()) {
            Some(k) => text::same(k.as_str(), key.as_str()),
            None => false,
        };
        if here {
            proof {
                lemma_first_where_is(was, p, i as int);
            }
            lines.set(i, setting.to_owned());
            assert(texts(lines@) =~= was.update(i as int, setting@));
            return;
        }
        i = i + 1;
    }
    proof {
        lemma_first_where_is(was, p, i as int);
    }
    text::add_str(lines, setting);
}

/// The `.rdp` mstsc is handed.
///
/// `sealed_password` is the password sealed to the account, hex encoded: what
/// Remote Desktop itself writes into a saved connection. `None` leaves the
/// field out entirely and mstsc asks for the password.
///
/// User settings from `extra_args` replace a generated line with the same key
/// rather than being appended after it, so a setting can actually be overridden
/// instead of appearing twice and leaving which one wins to the client. mstsc
/// reads the file as Windows text.
pub fn render_rdp_file(conn: &RdpConnection, sealed_password: Option<&str>) -> (r: String)
    ensures
        r@ == joined(file_lines(*conn, opt_text(sealed_password)), "\r\n"@) + "\r\n"@,
{
    let mut lines = text::no_texts();
    text::add_text(
        &mut lines,
        cat4("full address:s:", conn.host.as_str(), ":", number::write(conn.port as u64).as_str()),
    );
    text::add_text(&mut lines, cat("username:s:", conn.login_summary().as_str()));
    // A window rather than the whole screen, which is what xfreerdp does
    // without /f; the two clients should not disagree about that.
    text::add_str(&mut lines, "screen mode id:i:1");
    // The freerdp side asks for /dynamic-resolution; this is the same thing.
    text::add_str(&mut lines, "dynamic resolution:i:1");
    // `/cert:ignore`: connect to a host whose certificate does not verify
    // rather than refusing. Same trade, said the way mstsc says it.
    text::add_str(&mut lines, "authentication level:i:0");
    text::add_str(&mut lines, "prompt for credentials:i:0");
    text::add_str(&mut lines, "redirectclipboard:i:1");
    match sealed_password {
        Some(blob) => {
            text::add_text(&mut lines, cat("password 51:b:", blob));
        },
        None => {},
    }
    let ghost start = generated(*conn, opt_text(sealed_password));
    assert(texts(lines@) =~= start);
    let extra = split_extra(conn.extra_args.as_str());
    let ghost all = texts(extra.settings@);
    let mut i: usize = 0;
    assert(all.take(0) =~= Seq::<Seq<char>>::empty());
    while i < extra.settings.len()
        invariant
            i <= extra.settings@.len(),
            all == texts(extra.settings@),
            texts(lines@) == all_overridden(start, all.take(i as int)),
        decreases extra.settings@.len() - i,
    {
        assert(all.take(i + 1).drop_last() =~= all.take(i as int));
        assert(all.take(i + 1).last() == extra.settings@[i as int]@);
        override_with(&mut lines, extra.settings[i].as_str());
        i = i + 1;
    }
    assert(all.take(i as int) =~= all);
    let mut out = text::join(&lines, "\r\n");
    out.push_str("\r\n");
    out
}

// ---------------------------------------------------------------------------
// One line for each setting
// ---------------------------------------------------------------------------

/// Every line is a setting, and no two have the same key.
pub open spec fn one_per_key(lines: Seq<Seq<char>>) -> bool {
    &&& forall|i: int| 0 <= i < lines.len() ==> setting_key(#[trigger] lines[i]) is Some
    &&& forall|i: int, j: int|
        0 <= i < j < lines.len() ==> setting_key(#[trigger] lines[i]) != setting_key(
            #[trigger] lines[j],
        )
}

proof fn lemma_overridden(lines: Seq<Seq<char>>, setting: Seq<char>)
    requires
        one_per_key(lines),
    ensures
        one_per_key(overridden(lines, setting)),
{
    match setting_key(setting) {
        None => {},
        Some(key) => {
            lemma_first_where(lines, has_key(key));
            let i = first_where(lines, has_key(key));
            let r = overridden(lines, setting);
            if i < lines.len() {
                assert(setting_key(lines[i]) == Some(key));
                assert forall|k: int| 0 <= k < r.len() implies setting_key(#[trigger] r[k])
                    == setting_key(lines[k]) by {}
                assert forall|a: int, b: int| 0 <= a < b < r.len() implies setting_key(
                    #[trigger] r[a],
                ) != setting_key(#[trigger] r[b]) by {
                    assert(setting_key(r[a]) == setting_key(lines[a]));
                    assert(setting_key(r[b]) == setting_key(lines[b]));
                }
            } else {
                assert forall|a: int, b: int| 0 <= a < b < r.len() implies setting_key(
                    #[trigger] r[a],
                ) != setting_key(#[trigger] r[b]) by {
                    if b == lines.len() {
                        assert(!has_key(key)(lines[a]));
                    }
                }
            }
        },
    }
}

proof fn lemma_all_overridden(lines: Seq<Seq<char>>, settings: Seq<Seq<char>>)
    requires
        one_per_key(lines),
    ensures
        one_per_key(all_overridden(lines, settings)),
    decreases settings.len(),
{
    if settings.len() > 0 {
        lemma_all_overridden(lines, settings.drop_last());
        lemma_overridden(all_overridden(lines, settings.drop_last()), settings.last());
    }
}

/// The key of a line that starts with a key of `n` characters, a colon, the
/// letter of a kind and another colon.
pub proof fn lemma_key_len(line: Seq<char>, n: int)
    requires
        0 < n,
        n + 2 < line.len(),
        forall|i: int| 0 <= i < n ==> line[i] != ':',
        line[n] == ':',
        line[n + 1] == 's' || line[n + 1] == 'i' || line[n + 1] == 'b',
        line[n + 2] == ':',
    ensures
        setting_key(line) == Some(line.take(n)),
{
    reveal_strlit("s");
    reveal_strlit("i");
    reveal_strlit("b");
    lemma_first_of_is(line, ':', n);
    let rest = line.skip(n + 1);
    assert(rest[0] == line[n + 1]);
    assert(rest[1] == ':');
    lemma_first_of_is(rest, ':', 1);
    let kind = rest.take(1);
    assert(kind[0] == line[n + 1]);
    assert(line[n + 1] == 's' ==> kind =~= "s"@);
    assert(line[n + 1] == 'i' ==> kind =~= "i"@);
    assert(line[n + 1] == 'b' ==> kind =~= "b"@);
}

proof fn lemma_generated(c: RdpConnection, sealed: Option<Seq<char>>)
    ensures
        one_per_key(generated(c, sealed)),
{
    reveal_strlit("full address:s:");
    reveal_strlit("username:s:");
    reveal_strlit("screen mode id:i:1");
    reveal_strlit("dynamic resolution:i:1");
    reveal_strlit("authentication level:i:0");
    reveal_strlit("prompt for credentials:i:0");
    reveal_strlit("redirectclipboard:i:1");
    reveal_strlit("password 51:b:");
    let g = generated(c, sealed);
    lemma_key_len(g[0], 12);
    lemma_key_len(g[1], 8);
    lemma_key_len(g[2], 14);
    lemma_key_len(g[3], 18);
    lemma_key_len(g[4], 20);
    lemma_key_len(g[5], 22);
    lemma_key_len(g[6], 17);
    if sealed is Some {
        lemma_key_len(g[7], 11);
    }
    // The keys are all of different lengths.
    let lens: Seq<int> = seq![12, 8, 14, 18, 20, 22, 17, 11];
    assert forall|i: int| 0 <= i < g.len() implies setting_key(#[trigger] g[i]) == Some(
        g[i].take(lens[i]),
    ) && g[i].len() > lens[i] by {
        assert(i == 0 || i == 1 || i == 2 || i == 3 || i == 4 || i == 5 || i == 6 || i == 7);
    }
    assert forall|i: int, j: int| 0 <= i < j < g.len() implies setting_key(#[trigger] g[i])
        != setting_key(#[trigger] g[j]) by {
        assert(g[i].take(lens[i]).len() == lens[i]);
        assert(g[j].take(lens[j]).len() == lens[j]);
        assert(i == 0 || i == 1 || i == 2 || i == 3 || i == 4 || i == 5 || i == 6);
        assert(j == 1 || j == 2 || j == 3 || j == 4 || j == 5 || j == 6 || j == 7);
        assert(lens[i] != lens[j]);
    }
}

/// A setting never stands in the file twice: what the user sets replaces what
/// is generated, so which one wins is not left to the client.
pub proof fn law_one_line_per_setting(c: RdpConnection, sealed: Option<Seq<char>>)
    ensures
        one_per_key(file_lines(c, sealed)),
{
    lemma_generated(c, sealed);
    lemma_all_overridden(
        generated(c, sealed),
        settings_in(pieces(c.extra_args@, is_char(','))),
    );
}

// ---------------------------------------------------------------------------
// Where the file goes
// ---------------------------------------------------------------------------

/// Letters, digits, `-`, `_` and `.` stay; everything else becomes `_`.
pub open spec fn safe_char(c: char) -> char {
    if is_ascii_alnum(c) || c == '-' || c == '_' || c == '.' {
        c
    } else {
        '_'
    }
}

pub open spec fn safe_name(name: Seq<char>) -> Seq<char> {
    name.map_values(|c: char| safe_char(c))
}

pub open spec fn rdp_path(os: Os, name: Seq<char>, run_dir: Seq<char>) -> Seq<char> {
    joined_path(os, run_dir, "rdp-"@ + safe_name(name) + ".rdp"@)
}

/// What is said of mstsc when it is started. It is a window and not a log, so what
/// it was asked for is the only thing there is to say about it. `asked` is whether
/// there was a password, `sealed` whether Windows sealed it.
pub open spec fn launch_notes_of(path: Seq<char>, asked: bool, sealed: bool) -> Seq<Seq<char>> {
    let a = if asked && !sealed {
        seq!["── Windows would not seal the password; mstsc will ask for it ──"@]
    } else {
        Seq::empty()
    };
    let b = a.push("── mstsc launched with "@ + path + " ──"@);
    if asked && sealed {
        b.push("── the password was sealed to this account and passed in the file ──"@)
    } else {
        b
    }
}

pub fn launch_notes(path: &str, asked: bool, sealed: bool) -> (r: Vec<String>)
    ensures
        texts(r@) == launch_notes_of(path@, asked, sealed),
{
    let mut out = text::no_texts();
    if asked && !sealed {
        text::add_str(
            &mut out,
            "── Windows would not seal the password; mstsc will ask for it ──",
        );
    }
    text::add_text(&mut out, cat3("── mstsc launched with ", path, " ──"));
    if asked && sealed {
        text::add_str(
            &mut out,
            "── the password was sealed to this account and passed in the file ──",
        );
    }
    assert(texts(out@) =~= launch_notes_of(path@, asked, sealed));
    out
}

/// The file a connection's settings are written to. The name is a user's; it is
/// kept from reaching out of the run directory.
pub fn rdp_file_for(os: Os, name: &str, run_dir: &str) -> (r: String)
    ensures
        r@ == rdp_path(os, name@, run_dir@),
{
    let v = chars_of(name);
    let mut safe = String::new();
    let mut i: usize = 0;
    assert(safe@ =~= safe_name(v@.take(0)));
    while i < v.len()
        invariant
            i <= v@.len(),
            safe@ == safe_name(v@.take(i as int)),
        decreases v@.len() - i,
    {
        let c = v[i];
        let keep = char_is_ascii_alnum(c) || c == '-' || c == '_' || c == '.';
        safe.push(
            if keep {
                c
            } else {
                '_'
            },
        );
        i = i + 1;
        assert(safe_name(v@.take(i as int)) =~= safe_name(v@.take(i - 1)).push(
            safe_char(v@[i - 1]),
        ));
    }
    assert(v@.take(i as int) =~= v@);
    path::join(os, run_dir, cat3("rdp-", safe.as_str(), ".rdp").as_str())
}

/// Whatever a connection is called, its file is in the run directory itself.
pub proof fn law_file_stays_in_the_run_directory(os: Os, name: Seq<char>, run_dir: Seq<char>)
    requires
        run_dir.len() > 0,
        path::bare(os, path::rest_of(os, run_dir)) == path::rest_of(os, run_dir),
    ensures
        path::parent_of(os, rdp_path(os, name, run_dir)) == Some(run_dir),
{
    reveal_strlit("rdp-");
    reveal_strlit(".rdp");
    reveal_strlit(".");
    reveal_strlit("..");
    let safe = safe_name(name);
    let file = "rdp-"@ + safe + ".rdp"@;
    assert forall|i: int| 0 <= i < file.len() implies !path::is_sep(os, #[trigger] file[i]) by {
        if 4 <= i < 4 + safe.len() {
            assert(file[i] == safe[i - 4]);
            assert(safe[i - 4] == safe_char(name[i - 4]));
        }
    }
    assert(file[0] == 'r' && file[1] == 'd');
    path::law_join_then_parent(os, run_dir, file);
}

// ---------------------------------------------------------------------------
// A sealed password
// ---------------------------------------------------------------------------

/// One hexadecimal digit, a capital where it is a letter.
pub open spec fn hex_digit(n: int) -> char {
    if n < 10 {
        (48 + n) as u8 as char
    } else {
        (55 + n) as u8 as char
    }
}

pub open spec fn hex_of(bytes: Seq<u8>) -> Seq<char>
    decreases bytes.len(),
{
    if bytes.len() == 0 {
        Seq::empty()
    } else {
        hex_of(bytes.drop_last()).push(hex_digit(bytes.last() as int / 16)).push(
            hex_digit(bytes.last() as int % 16),
        )
    }
}

fn hex_char(n: u8) -> (r: char)
    requires
        n < 16,
    ensures
        r == hex_digit(n as int),
{
    if n < 10 {
        (48 + n) as char
    } else {
        (55 + n) as char
    }
}

/// Uppercase, unseparated: the encoding a `.rdp` file uses.
pub fn to_hex(bytes: &[u8]) -> (r: String)
    ensures
        r@ == hex_of(bytes@),
{
    let mut out = String::new();
    let mut i: usize = 0;
    assert(bytes@.take(0) =~= Seq::<u8>::empty());
    while i < bytes.len()
        invariant
            i <= bytes@.len(),
            out@ == hex_of(bytes@.take(i as int)),
        decreases bytes@.len() - i,
    {
        assert(bytes@.take(i + 1).drop_last() =~= bytes@.take(i as int));
        out.push(hex_char(bytes[i] / 16));
        out.push(hex_char(bytes[i] % 16));
        i = i + 1;
    }
    assert(bytes@.take(i as int) =~= bytes@);
    out
}

}
