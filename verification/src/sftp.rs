//! Copying files to and from a configured SSH host, and the remote half of the
//! two-pane browser that does it.
//!
//! One `sftp` process per open browser, driven on its stdin, rather than an
//! `scp` per file: listing a directory and copying out of it are the same
//! conversation, so they should be the same connection.
//!
//! The protocol is sftp's own, used the way it documents itself:
//!
//! - reading commands from a pipe, sftp echoes each one back prefixed with its
//!   prompt, so such lines are ours coming home and are dropped
//! - a command prefixed with `-` does not end the session when it fails, which
//!   is what keeps a typo'd path from costing the connection
//! - every command is followed by a `pwd`, whose reply is unmistakable and
//!   cannot be produced by a listing, so that is where one command's output
//!   ends and the next begins

use vstd::prelude::*;
use vstd::utf8::encode_utf8;
use crate::browser::{opt_string, starts_ci, starts_with_ci};
use crate::list::{first_where, lemma_first_where_is};
use crate::number::{self, parsed};
use crate::picker::Picker;
use crate::remote_path::{
    base_name, base_of_path, join_remote, join_remote_of, parent_remote, parent_remote_of,
    remote_slashed, split_remote, split_remote_of, with_slash,
};
use crate::sort::{self, lemma_text_le, sorted, text_le, Ranked};
use crate::split::{self, is_word, lemma_words, replaced, starts, words};
use crate::ssh::{transfer_args, transfer_of, given, Machine, PasswordHelper};
use crate::text::{
    self, cat, cat3, cat4, chars_of, char_is_space, is_space, lowercase, text_between, texts,
    trim_start, trimmed,
};
use crate::types::SshHost;
use crate::vpn_view::{clamp, clamped, kept};

verus! {

/// sftp's reply to `pwd`, and so the end of the command before it.
pub const PWD_MARKER: &'static str = "Remote working directory: ";

/// What sftp prefixes a command with when it reads one from a pipe.
pub const ECHO: &'static str = "sftp> ";

// ---------------------------------------------------------------------------
// What a listing is made of
// ---------------------------------------------------------------------------

#[derive(Debug, Clone, Copy, PartialEq, Eq, Structural)]
pub enum RemoteKind {
    Dir,
    File,
    /// A symlink, whose target may be either. The server's listing does not
    /// say which, so walking into one is an attempt rather than a certainty;
    /// see [`Listing::single_file`].
    Link,
}

#[derive(Debug, PartialEq, Eq)]
pub struct RemoteEntry {
    pub name: String,
    pub kind: RemoteKind,
    pub size: u64,
}

impl Clone for RemoteEntry {
    fn clone(&self) -> (r: Self)
        ensures
            r == *self,
    {
        RemoteEntry { name: self.name.clone(), kind: self.kind, size: self.size }
    }
}

impl RemoteEntry {
    pub open spec fn dir_spec(&self) -> bool {
        self.kind == RemoteKind::Dir
    }

    pub fn is_dir(&self) -> (r: bool)
        ensures
            r == self.dir_spec(),
    {
        self.kind == RemoteKind::Dir
    }

    pub open spec fn navigable_spec(&self) -> bool {
        self.kind == RemoteKind::Dir || self.kind == RemoteKind::Link
    }

    /// Whether Enter should try to walk into it.
    pub fn navigable(&self) -> (r: bool)
        ensures
            r == self.navigable_spec(),
    {
        matches!(self.kind, RemoteKind::Dir | RemoteKind::Link)
    }
}

/// Directories first, then by name whatever its case.
impl Ranked for RemoteEntry {
    open spec fn not_after(&self, other: &Self) -> bool {
        if self.dir_spec() != other.dir_spec() {
            self.dir_spec()
        } else {
            text_le(lowercase(self.name@), lowercase(other.name@))
        }
    }

    fn may_precede(&self, other: &Self) -> (r: bool) {
        if self.is_dir() != other.is_dir() {
            self.is_dir()
        } else {
            sort::text_not_after(
                text::to_lowercase(self.name.as_str()).as_str(),
                text::to_lowercase(other.name.as_str()).as_str(),
            )
        }
    }

    proof fn order_holds(a: &Self, b: &Self, c: &Self) {
        lemma_text_le(lowercase(a.name@), lowercase(b.name@), lowercase(c.name@));
    }
}

/// What came back from one `ls`.
#[derive(Debug)]
pub struct Listing {
    pub entries: Vec<RemoteEntry>,
    /// The listing had a `.` in it, so whatever was listed was a directory and
    /// nothing below has to be inferred.
    pub listed_self: bool,
}

impl Listing {
    /// What these lines of `ls` list.
    pub open spec fn lists(&self, lines: Seq<Seq<char>>) -> bool {
        &&& exists|all: Seq<RemoteEntry>|
            all_facts(all) == entries_in(lines) && self.entries@ == sorted(
                #[trigger] kept(all, is_real()),
            )
        &&& self.listed_self == exists|i: int|
            0 <= i < entries_in(lines).len() && (#[trigger] entries_in(lines)[i]).0 == "."@
    }

    pub open spec fn single_file_spec(&self, path: Seq<char>) -> bool {
        &&& !self.listed_self
        &&& self.entries@.len() == 1
        &&& !self.entries@[0].dir_spec()
        &&& self.entries@[0].name@ == base_of_path(path)
    }

    /// `ls` on a file lists the file, so a listing of `path` that is exactly
    /// the one entry `path` names was never a directory. That is how a symlink
    /// to a file, and a file path typed by hand, are told apart from a
    /// directory without asking the server a second question.
    ///
    /// A directory of one file that happens to share its name would look the
    /// same, which is why `.` is believed over the guess wherever the server
    /// returns one.
    pub fn single_file(&self, path: &str) -> (r: bool)
        ensures
            r == self.single_file_spec(path@),
    {
        if self.listed_self || self.entries.len() != 1 {
            return false;
        }
        !self.entries[0].is_dir() && text::same(
            self.entries[0].name.as_str(),
            base_name(path).as_str(),
        )
    }
}

// ---------------------------------------------------------------------------
// Talking to sftp
// ---------------------------------------------------------------------------

/// What the browser asks the session to do.
pub enum Request {
    List(String),
    Get { remote: String, local: String },
    Put { local: String, remote: String },
}

/// News from a session, tagged with the generation it belongs to so a reply
/// from a session that has already been closed is dropped rather than shown
/// over the one that replaced it.
pub struct SftpMsg {
    pub gen: u64,
    pub kind: MsgKind,
}

pub enum MsgKind {
    /// The session is up. `cwd` is where the login landed.
    Ready { cwd: String },
    Listed { dir: String, listing: Listing, error: Option<String> },
    /// A copy is done; how long it took, in milliseconds.
    Transferred { error: Option<String>, took: u64 },
    /// The session is gone and the handle is dead.
    Closed { reason: String },
}

/// A path in sftp's own quotes, with what they give a meaning escaped.
pub open spec fn quoted_path(path: Seq<char>) -> Seq<char> {
    "\""@ + replaced(replaced(path, "\\"@, "\\\\"@), "\""@, "\\\""@) + "\""@
}

/// Quote a path for sftp's own command parser.
///
/// Double quotes and backslash escapes are what it understands, and quoting is
/// also what keeps a name with a space in it one argument. A name containing a
/// quote or a backslash is beyond what this can promise: the command lands in
/// the log either way, so a refusal says what was asked for.
pub fn quote(path: &str) -> (r: String)
    ensures
        r@ == quoted_path(path@),
{
    proof {
        reveal_strlit("\\");
        reveal_strlit("\"");
    }
    let slashed = split::replace(path, "\\", "\\\\");
    let escaped = split::replace(slashed.as_str(), "\"", "\\\"");
    cat3("\"", escaped.as_str(), "\"")
}

/// The command sftp is given for a request. The dash in front keeps a failure
/// from ending the session.
pub open spec fn command_of(req: Request) -> Seq<char> {
    match req {
        Request::List(dir) => "-ls -la "@ + quoted_path(dir@),
        Request::Get { remote, local } => "-get "@ + quoted_path(remote@) + " "@ + quoted_path(
            local@,
        ),
        Request::Put { local, remote } => "-put "@ + quoted_path(local@) + " "@ + quoted_path(
            remote@,
        ),
    }
}

impl Request {
    pub fn command(&self) -> (r: String)
        ensures
            r@ == command_of(*self),
    {
        match self {
            Request::List(dir) => cat("-ls -la ", quote(dir.as_str()).as_str()),
            Request::Get { remote, local } => cat4(
                "-get ",
                quote(remote.as_str()).as_str(),
                " ",
                quote(local.as_str()).as_str(),
            ),
            Request::Put { local, remote } => cat4(
                "-put ",
                quote(local.as_str()).as_str(),
                " ",
                quote(remote.as_str()).as_str(),
            ),
        }
    }
}

/// The command line of a session.
pub open spec fn command_line_of(m: Machine, h: SshHost, helper: PasswordHelper) -> Seq<Seq<char>> {
    given(h.password@.len() > 0 && helper is Sshpass, seq!["sshpass"@, "-e"@]) + seq!["sftp"@]
        + transfer_of(m, h) + given(h.password@.len() == 0, seq!["-o"@, "BatchMode=yes"@]) + seq![
        h.destination_spec(),
    ]
}

/// The command line, as the log and the report show it. `sftp` takes every
/// connection option ssh does, so a host is described once and reached the
/// same way whichever of the two is doing the reaching.
///
/// With no password nothing here can answer a prompt: sftp's stdin is the pipe
/// the commands go down. BatchMode turns a question that could not be shown
/// into an error that can be reported.
pub fn command_line(host: &SshHost, helper: &PasswordHelper, machine: &Machine) -> (r: Vec<String>)
    ensures
        texts(r@) == command_line_of(*machine, *host, *helper),
{
    let mut argv = text::no_texts();
    let sshpass = matches!(helper, PasswordHelper::Sshpass);
    if !host.password.as_str().is_empty() && sshpass {
        text::add_str(&mut argv, "sshpass");
        text::add_str(&mut argv, "-e");
    }
    text::add_str(&mut argv, "sftp");
    let ghost a = given(
        host.password@.len() > 0 && helper is Sshpass,
        seq!["sshpass"@, "-e"@],
    ) + seq!["sftp"@];
    assert(texts(argv@) =~= a);
    let options = transfer_args(host, machine);
    text::add_all(&mut argv, &options);
    let ghost b = a + transfer_of(*machine, *host);
    if host.password.as_str().is_empty() {
        text::add_str(&mut argv, "-o");
        text::add_str(&mut argv, "BatchMode=yes");
    }
    assert(texts(argv@) =~= b + given(host.password@.len() == 0, seq!["-o"@, "BatchMode=yes"@]));
    text::add_text(&mut argv, host.destination());
    assert(texts(argv@) =~= command_line_of(*machine, *host, *helper));
    argv
}

/// A stored password is never on sftp's command line: it is the same for any
/// two hosts that differ in nothing but the password they store.
pub proof fn law_password_is_never_an_sftp_argument(
    m: Machine,
    a: SshHost,
    b: SshHost,
    helper: PasswordHelper,
)
    requires
        crate::ssh::same_but_password(a, b),
    ensures
        command_line_of(m, a, helper) == command_line_of(m, b, helper),
{
    crate::ssh::law_password_is_never_an_argument(m, a, b, helper);
}

/// Lines ssh and sftp write to stderr on the way to succeeding.
pub open spec fn chatter(line: Seq<char>) -> bool {
    let l = trimmed(line);
    l.len() == 0 || starts(l, "Warning:"@) || starts(l, "Connected to "@)
}

pub fn is_chatter(line: &str) -> (r: bool)
    ensures
        r == chatter(line@),
{
    let line = text::trim(line);
    line.as_str().is_empty() || split::starts_with(line.as_str(), "Warning:") || split::starts_with(
        line.as_str(),
        "Connected to ",
    )
}

/// The last line that is a complaint. Anything before it is ssh narrating its
/// way there.
pub open spec fn complaint(lines: Seq<Seq<char>>) -> Option<Seq<char>>
    decreases lines.len(),
{
    if lines.len() == 0 {
        None
    } else if chatter(lines.last()) {
        complaint(lines.drop_last())
    } else {
        Some(trimmed(lines.last()))
    }
}

/// What stderr had to say about the command that just ran. A host key being
/// remembered and the connection being made are routine and are no complaints.
pub fn take_error(lines: &Vec<String>) -> (r: Option<String>)
    ensures
        opt_string(r) == complaint(texts(lines@)),
{
    let ghost all = texts(lines@);
    let mut i: usize = lines.len();
    assert(all.take(i as int) =~= all);
    while i > 0
        invariant
            i <= lines@.len(),
            all == texts(lines@),
            complaint(all.take(i as int)) == complaint(all),
        decreases i,
    {
        assert(all.take(i as int).drop_last() =~= all.take(i - 1));
        assert(all.take(i as int).last() == lines@[i - 1]@);
        if !is_chatter(lines[i - 1].as_str()) {
            return Some(text::trim(lines[i - 1].as_str()));
        }
        i = i - 1;
    }
    assert(all.take(0) =~= Seq::<Seq<char>>::empty());
    None
}

/// Why the process stopped answering, in the words it left behind.
pub fn death_note(lines: &Vec<String>) -> (r: String)
    ensures
        r@ == match complaint(texts(lines@)) {
            Some(last) => "sftp ended: "@ + last,
            None => "sftp ended without saying why"@,
        },
{
    match take_error(lines) {
        Some(last) => cat("sftp ended: ", last.as_str()),
        None => "sftp ended without saying why".to_owned(),
    }
}

/// What one line of sftp's stdout is.
#[derive(Debug, PartialEq, Eq)]
pub enum LineKind {
    /// The `pwd` reply: the command before it is finished, and this is where.
    Marker(String),
    /// Our own command coming back, or a blank.
    Skip,
    Output(String),
}

/// A line without the line ends it ends with.
pub open spec fn unended(s: Seq<char>) -> Seq<char>
    decreases s.len(),
{
    if s.len() > 0 && (s.last() == '\n' || s.last() == '\r') {
        unended(s.drop_last())
    } else {
        s
    }
}

/// The last state a line drew. A progress meter redraws itself with a carriage
/// return and arrives as one long line.
pub open spec fn last_drawn(raw: Seq<char>) -> Seq<char> {
    let t = unended(raw);
    t.skip(split::last_of(t, '\r') + 1)
}

/// Read one line of sftp's stdout.
pub fn reply_line(raw: &str) -> (r: LineKind)
    ensures
        ({
            let t = last_drawn(raw@);
            if starts(t, PWD_MARKER@) {
                r matches LineKind::Marker(cwd) && cwd@ == trimmed(t.skip(PWD_MARKER@.len() as int))
            } else if trimmed(t).len() == 0 || starts(t, ECHO@) {
                r is Skip
            } else {
                r matches LineKind::Output(text) && text@ == t
            }
        }),
{
    let v = chars_of(raw);
    let mut n: usize = v.len();
    assert(v@.take(n as int) =~= v@);
    while n > 0 && (v[n - 1] == '\n' || v[n - 1] == '\r')
        invariant
            n <= v@.len(),
            unended(v@.take(n as int)) == unended(v@),
        decreases n,
    {
        assert(v@.take(n as int).drop_last() =~= v@.take(n - 1));
        n = n - 1;
    }
    let ghost t = unended(v@);
    let mut i: usize = n;
    while i > 0 && v[i - 1] != '\r'
        invariant
            i <= n <= v@.len(),
            t == v@.take(n as int),
            forall|k: int| i <= k < n ==> t[k] != '\r',
        decreases i,
    {
        i = i - 1;
    }
    proof {
        split::lemma_last_of_is(t, '\r', i - 1);
    }
    assert(t.skip(i as int) =~= v@.subrange(i as int, n as int));
    let text = text_between(&v, i, n);
    match split::strip_prefix(text.as_str(), PWD_MARKER) {
        Some(cwd) => {
            return LineKind::Marker(text::trim(cwd.as_str()));
        },
        None => {},
    }
    if text::trim(text.as_str()).as_str().is_empty() || split::starts_with(text.as_str(), ECHO) {
        return LineKind::Skip;
    }
    LineKind::Output(text)
}

// ---------------------------------------------------------------------------
// Reading a listing
// ---------------------------------------------------------------------------

/// Where the white space a text starts with ends.
pub open spec fn first_word_end(s: Seq<char>) -> int
    decreases s.len(),
{
    if s.len() == 0 || is_space(s[0]) {
        0
    } else {
        1 + first_word_end(s.drop_first())
    }
}

/// The first `n` words of a line and what follows them, spaces and all; each of
/// the words, and something behind them, has to be there.
pub open spec fn fields_and_rest(line: Seq<char>, n: nat) -> Option<(Seq<Seq<char>>, Seq<char>)>
    decreases n,
{
    let s = trim_start(line);
    if s.len() == 0 {
        None
    } else if n == 0 {
        Some((Seq::empty(), s))
    } else {
        let e = first_word_end(s);
        if e >= s.len() {
            None
        } else {
            match fields_and_rest(s.skip(e), (n - 1) as nat) {
                None => None,
                Some((fs, rest)) => Some((seq![s.take(e)] + fs, rest)),
            }
        }
    }
}

proof fn lemma_first_word_end(s: Seq<char>)
    ensures
        0 <= first_word_end(s) <= s.len(),
    decreases s.len(),
{
    if s.len() > 0 && !is_space(s[0]) {
        lemma_first_word_end(s.drop_first());
    }
}

fn skip_spaces(v: &Vec<char>, from: usize) -> (r: usize)
    requires
        from <= v@.len(),
    ensures
        from <= r <= v@.len(),
        v@.skip(r as int) == trim_start(v@.skip(from as int)),
{
    let mut i: usize = from;
    while i < v.len() && char_is_space(v[i])
        invariant
            from <= i <= v@.len(),
            trim_start(v@.skip(i as int)) == trim_start(v@.skip(from as int)),
        decreases v@.len() - i,
    {
        assert(v@.skip(i as int).drop_first() =~= v@.skip(i + 1));
        i = i + 1;
    }
    i
}

fn skip_word(v: &Vec<char>, from: usize) -> (r: usize)
    requires
        from <= v@.len(),
    ensures
        from <= r <= v@.len(),
        r - from == first_word_end(v@.skip(from as int)),
{
    let mut i: usize = from;
    while i < v.len() && !char_is_space(v[i])
        invariant
            from <= i <= v@.len(),
            first_word_end(v@.skip(from as int)) == i - from + first_word_end(v@.skip(i as int)),
        decreases v@.len() - i,
    {
        assert(v@.skip(i as int).drop_first() =~= v@.skip(i + 1));
        i = i + 1;
    }
    i
}

/// The first `n` whitespace-separated fields, and the rest of the line
/// untouched, spaces in a filename included.
pub fn split_fields(line: &str, n: usize) -> (r: Option<(Vec<String>, String)>)
    ensures
        match fields_and_rest(line@, n as nat) {
            None => r is None,
            Some((fs, rest)) => r is Some && texts((r->0).0@) == fs && (r->0).1@ == rest,
        },
{
    let v = chars_of(line);
    let total: usize = v.len();
    let mut fields = text::no_texts();
    let mut at: usize = 0;
    let mut left: usize = n;
    let ghost goal = fields_and_rest(line@, n as nat);
    assert(v@.skip(0) =~= v@);
    proof {
        match goal {
            Some((fs, rest)) => {
                assert(texts(fields@) + fs =~= fs);
            },
            None => {},
        }
    }
    while left > 0
        invariant
            total == v@.len(),
            at <= total,
            match fields_and_rest(v@.skip(at as int), left as nat) {
                None => goal is None,
                Some((fs, rest)) => goal == Some((texts(fields@) + fs, rest)),
            },
            goal == fields_and_rest(line@, n as nat),
        decreases left,
    {
        let ghost here = v@.skip(at as int);
        let start: usize = skip_spaces(&v, at);
        let ghost s = v@.skip(start as int);
        if start == total {
            return None;
        }
        let end: usize = skip_word(&v, start);
        if end == total {
            return None;
        }
        let ghost e = end - start;
        assert(s.skip(e) =~= v@.skip(end as int));
        assert(s.take(e) =~= v@.subrange(start as int, end as int));
        let ghost before = texts(fields@);
        text::add_text(&mut fields, text_between(&v, start, end));
        at = end;
        left = left - 1;
        proof {
            match fields_and_rest(v@.skip(at as int), left as nat) {
                Some((fs, rest)) => {
                    assert(before + (seq![s.take(e)] + fs) =~= texts(fields@) + fs);
                },
                None => {},
            }
        }
    }
    let start: usize = skip_spaces(&v, at);
    if start == total {
        return None;
    }
    let ghost s = v@.skip(start as int);
    assert(s =~= v@.subrange(start as int, total as int));
    assert(texts(fields@) + Seq::<Seq<char>>::empty() =~= texts(fields@));
    Some((fields, text_between(&v, start, total)))
}

/// A text up to the first `p` in it.
pub open spec fn before(s: Seq<char>, p: Seq<char>) -> Seq<char>
    decreases s.len(),
{
    if s.len() == 0 || starts(s, p) {
        Seq::empty()
    } else {
        seq![s[0]] + before(s.drop_first(), p)
    }
}

fn text_before(s: &str, p: &str) -> (r: String)
    ensures
        r@ == before(s@, p@),
{
    let v = chars_of(s);
    let total: usize = v.len();
    let mut out = String::new();
    let mut i: usize = 0;
    assert(v@.skip(0) =~= v@);
    assert(out@ + before(v@, p@) =~= before(v@, p@));
    while i < total
        invariant
            total == v@.len(),
            i <= total,
            before(s@, p@) == out@ + before(v@.skip(i as int), p@),
        decreases total - i,
    {
        let rest = text_between(&v, i, total);
        assert(rest@ =~= v@.skip(i as int));
        if split::starts_with(rest.as_str(), p) {
            assert(out@ + Seq::<char>::empty() =~= out@);
            return out;
        }
        assert(v@.skip(i as int).drop_first() =~= v@.skip(i + 1));
        out.push(v[i]);
        i = i + 1;
        assert(before(s@, p@) =~= out@ + before(v@.skip(i as int), p@));
    }
    assert(v@.skip(total as int) =~= Seq::<char>::empty());
    assert(out@ + Seq::<char>::empty() =~= out@);
    out
}

/// What the first character of a mode says.
pub open spec fn kind_of(c: char) -> Option<RemoteKind> {
    if c == 'd' {
        Some(RemoteKind::Dir)
    } else if c == 'l' {
        Some(RemoteKind::Link)
    } else if c == '-' {
        Some(RemoteKind::File)
    } else {
        // A socket, a device, a "total" header: not something to transfer.
        None
    }
}

/// The entry a line of `ls -l` is about: the kind from the first character of
/// the mode, the size from the fifth field, and the name from everything after
/// the eighth, which is the only way to keep one that has spaces in it.
///
/// `ls` echoes each entry the way it was asked for, so of a path the last
/// segment is the name, and an arrow belongs to the listing of a link and not
/// to its name.
pub open spec fn entry_of(line: Seq<char>) -> Option<(Seq<char>, RemoteKind, nat)> {
    let ws = words(line);
    if ws.len() == 0 || kind_of(ws[0][0]) is None || (encode_utf8(ws[0]).len() as usize) < 10 {
        None
    } else {
        match fields_and_rest(line, 8) {
            None => None,
            Some((fs, rest)) => {
                let kind = kind_of(ws[0][0])->0;
                let shown = if kind == RemoteKind::Link {
                    before(rest, " -> "@)
                } else {
                    rest
                };
                let name = base_of_path(trimmed(shown));
                match parsed(fs[4], u64::MAX as nat) {
                    None => None,
                    Some(size) => if name.len() == 0 {
                        None
                    } else {
                        Some((name, kind, size))
                    },
                }
            },
        }
    }
}

proof fn lemma_field_count(line: Seq<char>, n: nat)
    ensures
        match fields_and_rest(line, n) {
            Some((fs, rest)) => fs.len() == n,
            None => true,
        },
    decreases n,
{
    let s = trim_start(line);
    if s.len() > 0 && n > 0 && first_word_end(s) < s.len() {
        lemma_field_count(s.skip(first_word_end(s)), (n - 1) as nat);
    }
}

/// `drwxr-xr-x 5 user group 4096 Sep 20 11:23 name with spaces`
pub fn parse_ls_line(line: &str) -> (r: Option<RemoteEntry>)
    ensures
        match entry_of(line@) {
            None => r is None,
            Some((name, kind, size)) => r is Some && r->0.name@ == name && r->0.kind == kind
                && r->0.size == size,
        },
{
    let ws = split::split_words(line);
    let ghost all = texts(ws@);
    assert(all.len() == ws@.len());
    if ws.len() == 0 {
        return None;
    }
    assert(all[0] == ws@[0]@);
    proof {
        lemma_words(line@);
        assert(is_word(words(line@)[0]));
        lemma_field_count(line@, 8);
    }
    let mode = ws[0].as_str();
    let first = chars_of(mode)[0];
    let kind = if first == 'd' {
        RemoteKind::Dir
    } else if first == 'l' {
        RemoteKind::Link
    } else if first == '-' {
        RemoteKind::File
    } else {
        return None;
    };
    if mode.len() < 10 {
        return None;
    }
    let (fields, rest) = match split_fields(line, 8) {
        Some(p) => p,
        None => {
            return None;
        },
    };
    assert(texts(fields@).len() == fields@.len());
    assert(texts(fields@)[4] == fields@[4]@);
    let size: u64 = match number::read(fields[4].as_str(), u64::MAX) {
        Some(n) => n,
        None => {
            return None;
        },
    };
    let shown = match kind {
        RemoteKind::Link => text_before(rest.as_str(), " -> "),
        _ => rest,
    };
    let name = base_name(text::trim(shown.as_str()).as_str());
    if name.as_str().is_empty() {
        return None;
    }
    Some(RemoteEntry { name, kind, size })
}

/// An entry as its name, kind and size.
pub open spec fn facts(e: RemoteEntry) -> (Seq<char>, RemoteKind, nat) {
    (e.name@, e.kind, e.size as nat)
}

pub open spec fn all_facts(v: Seq<RemoteEntry>) -> Seq<(Seq<char>, RemoteKind, nat)> {
    v.map_values(|e: RemoteEntry| facts(e))
}

/// The entries of the lines that are in the shape of `ls -l`.
pub open spec fn entries_in(lines: Seq<Seq<char>>) -> Seq<(Seq<char>, RemoteKind, nat)>
    decreases lines.len(),
{
    if lines.len() == 0 {
        Seq::empty()
    } else {
        match entry_of(lines.last()) {
            Some(e) => entries_in(lines.drop_last()).push(e),
            None => entries_in(lines.drop_last()),
        }
    }
}

/// An entry that is neither the directory itself nor its parent.
pub open spec fn is_real() -> spec_fn(RemoteEntry) -> bool {
    |e: RemoteEntry| e.name@ != "."@ && e.name@ != ".."@
}

fn parse_lines(lines: &[String]) -> (r: Vec<RemoteEntry>)
    ensures
        all_facts(r@) == entries_in(texts(lines@)),
{
    let ghost all = texts(lines@);
    let mut out: Vec<RemoteEntry> = Vec::new();
    let mut i: usize = 0;
    assert(all.take(0) =~= Seq::<Seq<char>>::empty());
    assert(all_facts(out@) =~= Seq::<(Seq<char>, RemoteKind, nat)>::empty());
    while i < lines.len()
        invariant
            i <= lines@.len(),
            all == texts(lines@),
            all_facts(out@) == entries_in(all.take(i as int)),
        decreases lines@.len() - i,
    {
        assert(all.take(i + 1).drop_last() =~= all.take(i as int));
        assert(all.take(i + 1).last() == lines@[i as int]@);
        match parse_ls_line(lines[i].as_str()) {
            Some(e) => {
                assert(all_facts(out@.push(e)) =~= all_facts(out@).push(facts(e)));
                out.push(e);
            },
            None => {},
        }
        i = i + 1;
    }
    assert(all.take(i as int) =~= all);
    out
}

/// Turn `ls -la` output into a listing, dropping what does not parse.
///
/// The lines are the server's own `longname` field, which every SFTP server
/// worth the name formats as `ls -l` does. A line that is not in that shape is
/// skipped rather than guessed at: a listing missing an entry is a nuisance,
/// and a listing with an invented one is a lie.
pub fn parse_listing(lines: &[String]) -> (r: Listing)
    ensures
        r.lists(texts(lines@)),
{
    let parsed = parse_lines(lines);
    let ghost all = parsed@;
    let ghost fs = entries_in(texts(lines@));
    let mut listed_self = false;
    let mut out: Vec<RemoteEntry> = Vec::new();
    let mut i: usize = 0;
    assert(all.take(0) =~= Seq::<RemoteEntry>::empty());
    while i < parsed.len()
        invariant
            i <= parsed@.len(),
            all == parsed@,
            fs == all_facts(all),
            out@ == kept(all.take(i as int), is_real()),
            listed_self == exists|j: int| 0 <= j < i && (#[trigger] fs[j]).0 == "."@,
        decreases parsed@.len() - i,
    {
        assert(all.take(i + 1).drop_last() =~= all.take(i as int));
        assert(fs[i as int].0 == parsed@[i as int].name@);
        let name = parsed[i].name.as_str();
        if text::same(name, ".") {
            listed_self = true;
        } else if !text::same(name, "..") {
            out.push(parsed[i].clone());
        }
        i = i + 1;
    }
    assert(all.take(i as int) =~= all);
    let ghost true_entries = kept(all, is_real());
    Listing { entries: sort::sort(out), listed_self }
}

// ---------------------------------------------------------------------------
// The remote pane
// ---------------------------------------------------------------------------

/// The remote half of the transfer browser: the same contract as the local
/// browser, where the typed path is the truth and the listing follows it, with
/// the listing a round trip away.
///
/// Typing filters what is already here rather than asking again; only a change
/// of directory is a question for the server. That is what [`Self::needs`] is
/// for: it names the directory that has to be fetched, once, and
/// [`Self::apply`] takes the answer.
#[derive(Debug)]
pub struct RemoteBrowser {
    /// The typed path, exactly as shown in the pane.
    pub input: String,
    /// The directory the listing came from.
    pub dir: String,
    /// Everything `dir` holds, and the part of it the typed segment matches.
    pub all: Vec<RemoteEntry>,
    pub entries: Vec<RemoteEntry>,
    pub selected: usize,
    pub error: Option<String>,
    /// A listing has been asked for and has not come back.
    pub pending: Option<String>,
    /// The entry to put the cursor on once the listing arrives: the directory
    /// we just came out of, or what was selected before a re-read.
    pub pending_select: Option<String>,
    /// The directory on screen has been written into and is no longer what the
    /// listing says it is.
    pub stale: bool,
}

pub open spec fn remote_starts(prefix: Seq<char>) -> spec_fn(RemoteEntry) -> bool {
    |e: RemoteEntry| starts_ci(e.name@, prefix)
}

pub open spec fn remote_named(name: Seq<char>) -> spec_fn(RemoteEntry) -> bool {
    |e: RemoteEntry| e.name@ == name
}

impl RemoteBrowser {
    /// The rows are those that the typed segment matches, and the cursor is on
    /// one of them where there is any.
    pub open spec fn wf(&self) -> bool {
        &&& self.entries@ == kept(self.all@, remote_starts(split_remote_of(self.input@).1))
        &&& self.selected < self.entries@.len() || self.selected == 0
    }

    /// The cursor is on a row where there is any.
    pub open spec fn cursor_ok(&self) -> bool {
        self.selected < self.entries@.len() || self.selected == 0
    }

    /// `start` empty means the pane has nowhere to be yet: the session says
    /// where the login landed, and [`Self::start_at`] puts it there.
    pub fn new(start: &str) -> (r: Self)
        ensures
            r.wf(),
            r.input@ == if start@.len() == 0 {
                Seq::empty()
            } else {
                remote_slashed(start@)
            },
            r.dir@.len() == 0 && r.all@.len() == 0 && r.entries@.len() == 0 && r.selected == 0,
            r.error is None && r.pending is None && r.pending_select is None && !r.stale,
    {
        let input = if start.is_empty() {
            String::new()
        } else {
            with_slash(start)
        };
        let r = RemoteBrowser {
            input,
            dir: String::new(),
            all: Vec::new(),
            entries: Vec::new(),
            selected: 0,
            error: None,
            pending: None,
            pending_select: None,
            stale: false,
        };
        assert(r.entries@ =~= kept(r.all@, remote_starts(split_remote_of(r.input@).1)));
        r
    }

    /// Where the login landed, for a pane that was not told where to start.
    pub fn start_at(&mut self, cwd: &str)
        ensures
            *final(self) == (RemoteBrowser { input: final(self).input, ..*old(self) }),
            final(self).input@ == if old(self).input@.len() == 0 {
                remote_slashed(cwd@)
            } else {
                old(self).input@
            },
    {
        if self.input.as_str().is_empty() {
            self.input = with_slash(cwd);
        }
    }

    /// Say that what is on screen has been written into, so the next look asks
    /// again even though the typed path has not moved.
    pub fn mark_stale(&mut self)
        ensures
            final(self).stale,
            *final(self) == (RemoteBrowser {
                stale: true,
                pending_select: final(self).pending_select,
                ..*old(self)
            }),
            opt_string(final(self).pending_select) == if old(self).selected
                < old(self).entries@.len() {
                Some(old(self).entries@[old(self).selected as int].name@)
            } else {
                None
            },
    {
        let name = match self.selected_entry() {
            Some(e) => Some(e.name.clone()),
            None => None,
        };
        self.stale = true;
        self.pending_select = name;
    }

    /// The directory that has to be asked for: the typed one, where that is not
    /// what is on screen, or what is on screen has been written into, and it
    /// has not been asked for already.
    pub open spec fn wanted(&self) -> Option<Seq<char>> {
        let want = split_remote_of(self.input@).0;
        if self.input@.len() == 0 || (want == self.dir@ && !self.stale) || opt_string(self.pending)
            == Some(want) {
            None
        } else {
            Some(want)
        }
    }

    /// The directory that now needs listing, if the typed path has moved away
    /// from what is on screen. The caller sends it and hands the answer back.
    pub fn needs(&mut self) -> (r: Option<String>)
        ensures
            opt_string(r) == old(self).wanted(),
            r is None ==> *final(self) == *old(self),
            r is Some ==> {
                &&& !final(self).stale
                &&& opt_string(final(self).pending) == old(self).wanted()
                &&& *final(self) == (RemoteBrowser {
                    stale: false,
                    pending: final(self).pending,
                    ..*old(self)
                })
            },
    {
        if self.input.as_str().is_empty() {
            return None;
        }
        let (want, _) = split_remote(self.input.as_str());
        let settled = text::same(want.as_str(), self.dir.as_str()) && !self.stale;
        let asked = match &self.pending {
            Some(p) => text::same(p.as_str(), want.as_str()),
            None => false,
        };
        if settled || asked {
            return None;
        }
        self.stale = false;
        self.pending = Some(want.clone());
        Some(want)
    }

    /// Give up on a listing that turned out not to be a directory, and go back
    /// to the one that is still on screen.
    pub fn cancel(&mut self, dir: &str)
        ensures
            opt_string(old(self).pending) != Some(dir@) ==> *final(self) == *old(self),
            opt_string(old(self).pending) == Some(dir@) ==> {
                &&& final(self).pending is None
                &&& final(self).input@ == remote_slashed(old(self).dir@)
                &&& *final(self) == (RemoteBrowser {
                    pending: None,
                    input: final(self).input,
                    ..*old(self)
                })
            },
    {
        let asked = match &self.pending {
            Some(p) => text::same(p.as_str(), dir),
            None => false,
        };
        if !asked {
            return;
        }
        self.pending = None;
        self.input = with_slash(self.dir.as_str());
    }

    /// Where the cursor goes on a new listing.
    pub open spec fn cursor(shown: Seq<RemoteEntry>, name: Option<Seq<char>>) -> int {
        match name {
            Some(n) => {
                let i = first_where(shown, remote_named(n));
                if i < shown.len() {
                    i
                } else {
                    0
                }
            },
            None => 0,
        }
    }

    /// A listing of this directory is still wanted: it has been asked for, and the
    /// typed path is still in it.
    pub open spec fn awaits(&self, dir: Seq<char>) -> bool {
        opt_string(self.pending) == Some(dir) && split_remote_of(self.input@).0 == dir
    }

    /// Take a listing. One for a directory that is no longer being asked about
    /// is dropped: the user has typed on since.
    pub fn apply(&mut self, dir: &str, listing: Listing, error: Option<String>)
        ensures
            !old(self).awaits(dir@) ==> *final(self) == (RemoteBrowser {
                pending: final(self).pending,
                ..*old(self)
            }),
            !old(self).awaits(dir@) ==> opt_string(final(self).pending) == if opt_string(
                old(self).pending,
            ) == Some(dir@) {
                None
            } else {
                opt_string(old(self).pending)
            },
            old(self).awaits(dir@) ==> {
                &&& final(self).wf()
                &&& final(self).pending is None
                &&& final(self).pending_select is None
                &&& final(self).dir@ == dir@
                &&& final(self).all == listing.entries
                &&& final(self).error == error
                &&& final(self).input == old(self).input
                &&& final(self).stale == old(self).stale
                &&& final(self).selected == Self::cursor(
                    final(self).entries@,
                    opt_string(old(self).pending_select),
                )
            },
    {
        let asked = match &self.pending {
            Some(p) => text::same(p.as_str(), dir),
            None => false,
        };
        if !asked {
            return;
        }
        self.pending = None;
        let (typed, _) = split_remote(self.input.as_str());
        if !text::same(typed.as_str(), dir) {
            return;
        }
        self.dir = dir.to_owned();
        self.all = listing.entries;
        self.error = error;
        self.selected = 0;
        self.refilter();
        match self.pending_select.take() {
            Some(name) => {
                let ghost p = remote_named(name@);
                let ghost shown = self.entries@;
                let mut i: usize = 0;
                while i < self.entries.len()
                    invariant
                        i <= shown.len(),
                        shown == self.entries@,
                        p == remote_named(name@),
                        self.selected == 0,
                        forall|j: int| 0 <= j < i ==> !p(#[trigger] shown[j]),
                        self.wf(),
                        self.pending is None,
                        self.pending_select is None,
                        self.dir@ == dir@,
                        self.all == listing.entries,
                        self.error == error,
                        self.input == old(self).input,
                        self.stale == old(self).stale,
                        opt_string(old(self).pending_select) == Some(name@),
                        old(self).awaits(dir@),
                    decreases shown.len() - i,
                {
                    if text::same(self.entries[i].name.as_str(), name.as_str()) {
                        proof {
                            lemma_first_where_is(shown, p, i as int);
                        }
                        self.selected = i;
                        return;
                    }
                    i = i + 1;
                }
                proof {
                    lemma_first_where_is(shown, p, i as int);
                }
            },
            None => {},
        }
    }

    /// Narrow the listing to the segment being typed.
    pub fn refilter(&mut self)
        ensures
            final(self).wf(),
            *final(self) == (RemoteBrowser {
                entries: final(self).entries,
                selected: final(self).selected,
                ..*old(self)
            }),
            final(self).selected == clamped(
                old(self).selected as int,
                final(self).entries@.len() as int,
            ),
    {
        let (_, filter) = split_remote(self.input.as_str());
        let ghost p = remote_starts(filter@);
        let mut out: Vec<RemoteEntry> = Vec::new();
        let mut i: usize = 0;
        assert(self.all@.take(0) =~= Seq::<RemoteEntry>::empty());
        while i < self.all.len()
            invariant
                *self == *old(self),
                i <= self.all@.len(),
                p == remote_starts(filter@),
                out@ == kept(self.all@.take(i as int), p),
            decreases self.all@.len() - i,
        {
            assert(self.all@.take(i + 1).drop_last() =~= self.all@.take(i as int));
            if starts_with_ci(self.all[i].name.as_str(), filter.as_str()) {
                out.push(self.all[i].clone());
            }
            i = i + 1;
        }
        assert(self.all@.take(i as int) =~= self.all@);
        self.entries = out;
        self.selected = clamp(self.selected, self.entries.len());
    }

    pub fn push(&mut self, c: char)
        ensures
            final(self).wf(),
            final(self).input@ == old(self).input@.push(c),
            final(self).selected == 0,
            *final(self) == (RemoteBrowser {
                input: final(self).input,
                entries: final(self).entries,
                selected: 0,
                ..*old(self)
            }),
    {
        self.input.push(c);
        self.selected = 0;
        self.refilter();
    }

    pub fn backspace(&mut self)
        ensures
            final(self).wf(),
            old(self).input@.len() > 0 ==> final(self).input@ == old(self).input@.drop_last(),
            old(self).input@.len() == 0 ==> final(self).input@ == old(self).input@,
            final(self).selected == 0,
            *final(self) == (RemoteBrowser {
                input: final(self).input,
                entries: final(self).entries,
                selected: 0,
                ..*old(self)
            }),
    {
        let _ = self.input.pop();
        self.selected = 0;
        self.refilter();
    }

    pub fn down(&mut self)
        requires
            old(self).cursor_ok(),
        ensures
            final(self).cursor_ok(),
            *final(self) == (RemoteBrowser { selected: final(self).selected, ..*old(self) }),
            final(self).selected == if old(self).entries@.len() == 0 {
                0
            } else {
                Picker::next_idx(old(self).selected as int, old(self).entries@.len() as int)
            },
    {
        let n: usize = self.entries.len();
        if n > 0 {
            self.selected = if self.selected < n - 1 {
                self.selected + 1
            } else {
                0
            };
        }
    }

    pub fn up(&mut self)
        requires
            old(self).cursor_ok(),
        ensures
            final(self).cursor_ok(),
            *final(self) == (RemoteBrowser { selected: final(self).selected, ..*old(self) }),
            final(self).selected == if old(self).entries@.len() == 0 {
                0
            } else {
                Picker::prev_idx(old(self).selected as int, old(self).entries@.len() as int)
            },
    {
        let n: usize = self.entries.len();
        if n > 0 {
            self.selected = if self.selected > 0 {
                self.selected - 1
            } else {
                n - 1
            };
        }
    }

    pub fn selected_entry(&self) -> (r: Option<&RemoteEntry>)
        ensures
            r is Some <==> self.selected < self.entries@.len(),
            r is Some ==> *r->0 == self.entries@[self.selected as int],
    {
        if self.selected < self.entries.len() {
            Some(&self.entries[self.selected])
        } else {
            None
        }
    }

    /// Something that can be walked into is under the cursor.
    pub open spec fn on_navigable(&self) -> bool {
        self.selected < self.entries@.len() && self.entries@[self.selected as int].navigable_spec()
    }

    /// Walk into the selected entry. A symlink is tried the same way a
    /// directory is; if it turns out to be a file the listing says so and
    /// [`Listing::single_file`] catches it.
    pub fn descend(&mut self)
        ensures
            !old(self).on_navigable() ==> *final(self) == *old(self),
            old(self).on_navigable() ==> {
                &&& final(self).input@ == join_remote_of(
                    old(self).dir@,
                    old(self).entries@[old(self).selected as int].name@,
                ) + "/"@
                &&& *final(self) == (RemoteBrowser {
                    input: final(self).input,
                    selected: 0,
                    ..*old(self)
                })
            },
    {
        let path = match self.selected_entry() {
            Some(e) => if e.navigable() {
                join_remote(self.dir.as_str(), e.name.as_str())
            } else {
                return;
            },
            None => {
                return;
            },
        };
        self.input = cat(path.as_str(), "/");
        self.selected = 0;
    }

    /// Up one level. The directory we came out of is left under the cursor, once
    /// its parent has been listed.
    pub fn ascend(&mut self)
        ensures
            final(self).input@ == remote_slashed(parent_remote_of(old(self).dir@)),
            opt_string(final(self).pending_select) == Some(base_of_path(old(self).dir@)),
            *final(self) == (RemoteBrowser {
                input: final(self).input,
                selected: 0,
                pending_select: final(self).pending_select,
                ..*old(self)
            }),
    {
        let leaf = base_name(self.dir.as_str());
        let parent = parent_remote(self.dir.as_str());
        self.input = with_slash(parent.as_str());
        self.selected = 0;
        self.pending_select = Some(leaf);
    }
}

/// A directory is asked for once: right after it was asked for, nothing more is
/// wanted until the typed path moves on.
pub proof fn law_asked_for_once(was: RemoteBrowser, now: RemoteBrowser)
    requires
        was.wanted() is Some,
        opt_string(now.pending) == was.wanted(),
        now.input@ == was.input@,
    ensures
        now.wanted() is None,
{
}

}
