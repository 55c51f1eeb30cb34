//! Interactive ssh sessions: what is run for one, and where.

use vstd::prelude::*;
use crate::list::{first_where, lemma_first_where_is};
use crate::number::{self, decimal, signed};
use crate::path::{self, name_of, opt_text, under_home, Os};
use crate::platform::{null_device, null_device_text};
use crate::split::{self, occurs, replaced, words};
use crate::text::{
    self, cat, cat3, chars_of, char_is_ascii_alnum, char_is_space, is_ascii_alnum, is_space, joined,
    texts, trimmed,
};
use crate::types::SshHost;

verus! {

/// The machine a command line is for: its system, and the user's home directory
/// where there is one.
#[derive(Debug)]
pub struct Machine {
    pub os: Os,
    pub home: Option<String>,
}

impl Machine {
    pub open spec fn home_spec(&self) -> Option<Seq<char>> {
        match self.home {
            Some(h) => Some(h@),
            None => None,
        }
    }

    pub fn home(&self) -> (r: Option<&str>)
        ensures
            opt_text(r) == self.home_spec(),
    {
        match &self.home {
            Some(h) => Some(h.as_str()),
            None => None,
        }
    }
}

/// Result of a finished interactive session, kept for the details panel.
#[derive(Debug, Clone, Copy)]
pub struct SessionOutcome {
    pub code: i32,
    /// How long it ran, in milliseconds.
    pub duration: u64,
    /// When it ended, in milliseconds.
    pub finished_at: u64,
    /// The session ran in a terminal window of its own. Emulators rarely pass
    /// ssh's exit code back, so the code is only trusted for inline sessions.
    pub windowed: bool,
}

impl SessionOutcome {
    pub open spec fn label_spec(self) -> Seq<char> {
        if self.windowed {
            "window closed"@
        } else if self.code == 0 {
            "closed"@
        } else {
            "exited ("@ + signed(self.code as int) + ")"@
        }
    }

    pub fn label(&self) -> (r: String)
        ensures
            r@ == self.label_spec(),
    {
        if self.windowed {
            "window closed".to_owned()
        } else if self.code == 0 {
            "closed".to_owned()
        } else {
            cat3("exited (", number::write_signed(self.code).as_str(), ")")
        }
    }

    /// Whether the outcome should be shown as a problem.
    pub fn failed(&self) -> (r: bool)
        ensures
            r == (!self.windowed && self.code != 0),
    {
        !self.windowed && self.code != 0
    }
}

// ---------------------------------------------------------------------------
// Command lines
// ---------------------------------------------------------------------------

pub open spec fn given(c: bool, s: Seq<Seq<char>>) -> Seq<Seq<char>> {
    if c {
        s
    } else {
        Seq::empty()
    }
}

/// Everything a host says about *how* to reach it, without the destination
/// itself: port, key, host-key handling, its own extra args.
pub open spec fn connection_of(m: Machine, h: SshHost) -> Seq<Seq<char>> {
    given(h.port != 22, seq!["-p"@, decimal(h.port as nat)]) + given(
        h.key_path@.len() > 0,
        seq!["-i"@, under_home(m.os, h.key_path@, m.home_spec()), "-o"@, "IdentitiesOnly=yes"@],
    ) + given(
        h.skip_host_key_check,
        seq![
            "-o"@,
            "StrictHostKeyChecking=no"@,
            "-o"@,
            "UserKnownHostsFile="@ + null_device_text(m.os),
            "-o"@,
            "LogLevel=ERROR"@,
        ],
    ) + given(h.password@.len() > 0, seq!["-o"@, "NumberOfPasswordPrompts=1"@]) + words(
        h.extra_args@,
    )
}

/// Everything a host says about *how* to reach it (port, key, host-key
/// handling, its own extra args) without the destination itself.
///
/// Split out because a tunnel riding this host puts its own forward and extra
/// args between the two, and there must be one function that decides what a
/// configured host turns into on a command line.
#[verifier::rlimit(30)]
pub fn connection_args(host: &SshHost, machine: &Machine) -> (r: Vec<String>)
    ensures
        texts(r@) == connection_of(*machine, *host),
{
    let mut args = text::no_texts();
    if host.port != 22 {
        text::add_str(&mut args, "-p");
        text::add_text(&mut args, number::write(host.port as u64));
    }
    let ghost a = given(host.port != 22, seq!["-p"@, decimal(host.port as nat)]);
    assert(texts(args@) =~= a);
    if !host.key_path.as_str().is_empty() {
        text::add_str(&mut args, "-i");
        text::add_text(&mut args, path::expand_home(machine.os, host.key_path.as_str(), machine.home()));
        // A configured key is the intent; don't let the agent shadow it.
        text::add_str(&mut args, "-o");
        text::add_str(&mut args, "IdentitiesOnly=yes");
    }
    let ghost b = a + given(
        host.key_path@.len() > 0,
        seq![
            "-i"@,
            under_home(machine.os, host.key_path@, machine.home_spec()),
            "-o"@,
            "IdentitiesOnly=yes"@,
        ],
    );
    assert(texts(args@) =~= b);
    if host.skip_host_key_check {
        text::add_str(&mut args, "-o");
        text::add_str(&mut args, "StrictHostKeyChecking=no");
        text::add_str(&mut args, "-o");
        text::add_text(&mut args, cat("UserKnownHostsFile=", null_device(machine.os)));
        // Otherwise every connect prints a "permanently added" warning.
        text::add_str(&mut args, "-o");
        text::add_str(&mut args, "LogLevel=ERROR");
    }
    let ghost c = b + given(
        host.skip_host_key_check,
        seq![
            "-o"@,
            "StrictHostKeyChecking=no"@,
            "-o"@,
            "UserKnownHostsFile="@ + null_device_text(machine.os),
            "-o"@,
            "LogLevel=ERROR"@,
        ],
    );
    assert(texts(args@) =~= c);
    if !host.password.as_str().is_empty() {
        // sshpass answers exactly one prompt; more means the password is wrong
        // and we would otherwise loop.
        text::add_str(&mut args, "-o");
        text::add_str(&mut args, "NumberOfPasswordPrompts=1");
    }
    assert(texts(args@) =~= c + given(
        host.password@.len() > 0,
        seq!["-o"@, "NumberOfPasswordPrompts=1"@],
    ));
    let extra = split::split_words(host.extra_args.as_str());
    text::add_all(&mut args, &extra);
    args
}

/// The ssh arguments for an interactive login, in the order they are passed.
pub fn build_args(host: &SshHost, machine: &Machine) -> (r: Vec<String>)
    ensures
        texts(r@) == connection_of(*machine, *host).push(host.destination_spec()),
{
    let mut args = connection_args(host, machine);
    text::add_text(&mut args, host.destination());
    args
}

/// The same options for the file-transfer clients, which spell the port `-P`.
pub open spec fn transfer_of(m: Machine, h: SshHost) -> Seq<Seq<char>> {
    if h.port != 22 {
        connection_of(m, h).update(0, "-P"@)
    } else {
        connection_of(m, h)
    }
}

/// The same options for the file-transfer clients. `sftp` and `scp` take
/// everything ssh does bar the port, which they spell `-P` because `-p` means
/// "preserve the timestamps" to them.
///
/// The flag is swapped by position, never by search, because `extra_args` is
/// free text and may hold a `-p` of its own.
pub fn transfer_args(host: &SshHost, machine: &Machine) -> (r: Vec<String>)
    ensures
        texts(r@) == transfer_of(*machine, *host),
{
    let mut args = connection_args(host, machine);
    let ghost was = texts(args@);
    if host.port != 22 {
        assert(was.len() == args@.len());
        assert(was[0] == "-p"@);
        args.set(0, "-P".to_owned());
        assert(texts(args@) =~= was.update(0, "-P"@));
    }
    args
}

/// How a stored password reaches ssh without ever being an argument.
#[derive(Debug, PartialEq, Eq)]
pub enum PasswordHelper {
    /// `sshpass -e`, which reads it out of `SSHPASS` in the environment. The
    /// Unix answer, and the one used wherever sshpass is installed.
    Sshpass,
    /// controlcenter answers ssh's own prompt: ssh runs the program named by
    /// `SSH_ASKPASS` when it wants a password, and the program named is this
    /// one, re-run with `CONTROLCENTER_ASKPASS` set. It reads the password out
    /// of the same `SSHPASS` variable and prints it.
    Askpass(String),
    /// Nothing here can carry it; ssh will ask the user itself.
    Nothing,
}

impl PasswordHelper {
    pub open spec fn label_spec(&self) -> Seq<char> {
        match self {
            PasswordHelper::Sshpass => "passed to ssh through sshpass"@,
            PasswordHelper::Askpass(_) => "answered at ssh's own prompt, through SSH_ASKPASS"@,
            PasswordHelper::Nothing => "not usable — ssh will ask for it"@,
        }
    }

    /// What the details panel says a stored password is done with.
    pub fn label(&self) -> (r: &'static str)
        ensures
            r@ == self.label_spec(),
    {
        match self {
            PasswordHelper::Sshpass => "passed to ssh through sshpass",
            PasswordHelper::Askpass(_) => "answered at ssh's own prompt, through SSH_ASKPASS",
            PasswordHelper::Nothing => "not usable — ssh will ask for it",
        }
    }

    pub fn usable(&self) -> (r: bool)
        ensures
            r == !(self is Nothing),
    {
        !matches!(self, PasswordHelper::Nothing)
    }

    fn is_sshpass(&self) -> (r: bool)
        ensures
            r == (self is Sshpass),
    {
        matches!(self, PasswordHelper::Sshpass)
    }
}

/// Which helper a machine can use: sshpass first where it is installed, and
/// then this program, where it knows its own path.
pub fn password_helper(sshpass: bool, exe: Option<String>) -> (r: PasswordHelper)
    ensures
        r == if sshpass {
            PasswordHelper::Sshpass
        } else {
            match exe {
                Some(e) => PasswordHelper::Askpass(e),
                None => PasswordHelper::Nothing,
            }
        },
{
    if sshpass {
        return PasswordHelper::Sshpass;
    }
    match exe {
        Some(e) => PasswordHelper::Askpass(e),
        None => PasswordHelper::Nothing,
    }
}

/// The environment variable ssh's askpass helper reads the password out of.
/// The same name sshpass uses, because it means the same thing.
pub const PASSWORD_ENV: &'static str = "SSHPASS";

/// Set on the child so that a controlcenter started by ssh knows it is being
/// asked for a password rather than being started by a person.
pub const ASKPASS_ENV: &'static str = "CONTROLCENTER_ASKPASS";

/// What is put in the child's environment for a stored password.
pub open spec fn password_env_of(
    password: Seq<char>,
    helper: PasswordHelper,
) -> Seq<(Seq<char>, Seq<char>)> {
    if password.len() == 0 {
        Seq::empty()
    } else {
        match helper {
            PasswordHelper::Askpass(exe) => seq![
                (PASSWORD_ENV@, password),
                ("SSH_ASKPASS"@, exe@),
                ("SSH_ASKPASS_REQUIRE"@, "force"@),
                (ASKPASS_ENV@, "1"@),
            ],
            _ => seq![(PASSWORD_ENV@, password)],
        }
    }
}

/// Put the password where the chosen helper will find it, and for askpass point
/// ssh at the helper. Never an argument, on either path. Without `force`, ssh
/// only reaches for the helper when it has no terminal to ask at, and an inline
/// session has one.
pub fn carry_password(password: &str, helper: &PasswordHelper) -> (r: Vec<(String, String)>)
    ensures
        crate::platform::row_texts(r@) == password_env_of(password@, *helper),
{
    let mut env: Vec<(String, String)> = Vec::new();
    if !password.is_empty() {
        env.push((PASSWORD_ENV.to_owned(), password.to_owned()));
        match helper {
            PasswordHelper::Askpass(exe) => {
                env.push(("SSH_ASKPASS".to_owned(), exe.clone()));
                env.push(("SSH_ASKPASS_REQUIRE".to_owned(), "force".to_owned()));
                env.push((ASKPASS_ENV.to_owned(), "1".to_owned()));
            },
            _ => {},
        }
    }
    assert(crate::platform::row_texts(env@) =~= password_env_of(password@, *helper));
    env
}

/// The command line as the user would type it.
pub open spec fn preview_of(m: Machine, h: SshHost, helper: PasswordHelper) -> Seq<Seq<char>> {
    given(h.password@.len() > 0 && helper is Sshpass, seq!["sshpass"@, "-e"@]) + seq!["ssh"@]
        + connection_of(m, h).push(h.destination_spec())
}

/// The command line as the user would type it, for the details panel.
/// A stored password is never shown: it goes through the environment.
pub fn command_preview(host: &SshHost, helper: &PasswordHelper, machine: &Machine) -> (r: String)
    ensures
        r@ == joined(preview_of(*machine, *host, *helper), " "@),
{
    let parts = session_argv(host, helper, machine);
    text::join(&parts, " ")
}

/// The command an inline session runs, program first.
pub fn session_argv(host: &SshHost, helper: &PasswordHelper, machine: &Machine) -> (r: Vec<String>)
    ensures
        texts(r@) == preview_of(*machine, *host, *helper),
{
    let mut parts = text::no_texts();
    if !host.password.as_str().is_empty() && helper.is_sshpass() {
        text::add_str(&mut parts, "sshpass");
        text::add_str(&mut parts, "-e");
    }
    text::add_str(&mut parts, "ssh");
    assert(texts(parts@) =~= given(
        host.password@.len() > 0 && helper is Sshpass,
        seq!["sshpass"@, "-e"@],
    ) + seq!["ssh"@]);
    let args = build_args(host, machine);
    text::add_all(&mut parts, &args);
    parts
}

// ---------------------------------------------------------------------------
// Opening a session in a terminal window of its own
// ---------------------------------------------------------------------------

/// A terminal emulator and the arguments that make it run a command.
#[derive(Debug, PartialEq, Eq)]
pub struct Terminal {
    pub program: String,
    /// Passed before the command. A `{cmd}` placeholder in a user-configured
    /// value is replaced by the shell command; without one the command is
    /// appended as `sh -c <script>`.
    pub args: Vec<String>,
}

/// The last segment of a program's path, or the program as it stands.
pub open spec fn program_name(os: Os, program: Seq<char>) -> Seq<char> {
    match name_of(os, program) {
        Some(n) => n,
        None => program,
    }
}

fn short_name(os: Os, program: &str) -> (r: String)
    ensures
        r@ == program_name(os, program@),
{
    match path::file_name(os, program) {
        Some(n) => n,
        None => program.to_owned(),
    }
}

impl Terminal {
    /// What to call it in the UI: a configured path is a mouthful, its name is not.
    pub fn name(&self, os: Os) -> (r: String)
        ensures
            r@ == program_name(os, self.program@),
    {
        short_name(os, self.program.as_str())
    }
}

/// How an interactive session is opened.
#[derive(Debug, PartialEq, Eq)]
pub enum Launch {
    /// A window of its own, so the TUI keeps running alongside it.
    Window(Terminal),
    /// The current terminal, handed over until the session ends.
    Inline,
}

impl Launch {
    pub open spec fn label_spec(&self, os: Os) -> Seq<char> {
        match self {
            Launch::Window(t) => "a new "@ + program_name(os, t.program@) + " window"@,
            Launch::Inline => "this terminal"@,
        }
    }

    /// What the details panel and the status message call it.
    pub fn label(&self, os: Os) -> (r: String)
        ensures
            r@ == self.label_spec(os),
    {
        match self {
            Launch::Window(t) => cat3("a new ", t.name(os).as_str(), " window"),
            Launch::Inline => "this terminal".to_owned(),
        }
    }
}

/// A terminal as text: the program and its arguments.
pub struct TerminalText {
    pub program: Seq<char>,
    pub args: Seq<Seq<char>>,
}

impl View for Terminal {
    type V = TerminalText;

    open spec fn view(&self) -> TerminalText {
        TerminalText { program: self.program@, args: texts(self.args@) }
    }
}

/// Emulators in the order they are tried, with the flag that makes each one run
/// a command. Those that take the command with no flag at all get an empty list.
///
/// The freedesktop indirection comes first: it opens whichever terminal the
/// desktop is already configured to use, and takes the command as-is. Windows
/// has one entry and needs no more: `cmd.exe` is always there, and a child given
/// a console of its own *is* a new window.
pub open spec fn terminals(os: Os) -> Seq<TerminalText> {
    match os {
        Os::Unix => seq![
            TerminalText { program: "xdg-terminal-exec"@, args: Seq::empty() },
            TerminalText { program: "ghostty"@, args: seq!["-e"@] },
            TerminalText { program: "kitty"@, args: Seq::empty() },
            TerminalText { program: "alacritty"@, args: seq!["-e"@] },
            TerminalText { program: "foot"@, args: Seq::empty() },
            TerminalText { program: "wezterm"@, args: seq!["start"@, "--"@] },
            TerminalText { program: "konsole"@, args: seq!["-e"@] },
            TerminalText { program: "gnome-terminal"@, args: seq!["--"@] },
            TerminalText { program: "xfce4-terminal"@, args: seq!["-x"@] },
            TerminalText { program: "terminator"@, args: seq!["-x"@] },
            TerminalText { program: "tilix"@, args: seq!["-e"@] },
            TerminalText { program: "urxvt"@, args: seq!["-e"@] },
            TerminalText { program: "st"@, args: seq!["-e"@] },
            TerminalText { program: "xterm"@, args: seq!["-e"@] },
        ],
        Os::Windows => seq![TerminalText { program: "cmd"@, args: seq!["/C"@, "{cmd}"@] }],
    }
}

pub open spec fn terminal_texts(v: Seq<Terminal>) -> Seq<TerminalText> {
    v.map_values(|t: Terminal| t@)
}

fn no_flags(program: &str) -> (r: Terminal)
    ensures
        r@ == (TerminalText { program: program@, args: Seq::empty() }),
{
    Terminal { program: program.to_owned(), args: text::no_texts() }
}

fn one_flag(program: &str, flag: &str) -> (r: Terminal)
    ensures
        r@ == (TerminalText { program: program@, args: seq![flag@] }),
{
    let mut args = text::no_texts();
    text::add_str(&mut args, flag);
    assert(texts(args@) =~= seq![flag@]);
    Terminal { program: program.to_owned(), args }
}

fn two_flags(program: &str, a: &str, b: &str) -> (r: Terminal)
    ensures
        r@ == (TerminalText { program: program@, args: seq![a@, b@] }),
{
    let mut args = text::no_texts();
    text::add_str(&mut args, a);
    text::add_str(&mut args, b);
    assert(texts(args@) =~= seq![a@, b@]);
    Terminal { program: program.to_owned(), args }
}

/// The emulators that are known, in the order they are tried.
pub fn known_terminals(os: Os) -> (r: Vec<Terminal>)
    ensures
        terminal_texts(r@) == terminals(os),
{
    let mut v: Vec<Terminal> = Vec::new();
    match os {
        Os::Unix => {
            v.push(no_flags("xdg-terminal-exec"));
            v.push(one_flag("ghostty", "-e"));
            v.push(no_flags("kitty"));
            v.push(one_flag("alacritty", "-e"));
            v.push(no_flags("foot"));
            v.push(two_flags("wezterm", "start", "--"));
            v.push(one_flag("konsole", "-e"));
            v.push(one_flag("gnome-terminal", "--"));
            v.push(one_flag("xfce4-terminal", "-x"));
            v.push(one_flag("terminator", "-x"));
            v.push(one_flag("tilix", "-e"));
            v.push(one_flag("urxvt", "-e"));
            v.push(one_flag("st", "-e"));
            v.push(one_flag("xterm", "-e"));
        },
        Os::Windows => {
            v.push(two_flags("cmd", "/C", "{cmd}"));
        },
    }
    assert(terminal_texts(v@) =~= terminals(os));
    v
}

pub open spec fn program_is(name: Seq<char>) -> spec_fn(TerminalText) -> bool {
    |t: TerminalText| t.program == name
}

pub open spec fn program_among(found: Seq<Seq<char>>) -> spec_fn(TerminalText) -> bool {
    |t: TerminalText| found.contains(t.program)
}

/// A terminal written as a command line: its first word is the program.
pub open spec fn terminal_from(spec: Seq<char>) -> Option<TerminalText> {
    let ws = words(spec);
    if ws.len() == 0 {
        None
    } else {
        Some(TerminalText { program: ws[0], args: ws.drop_first() })
    }
}

pub fn parse_terminal(spec: &str) -> (r: Option<Terminal>)
    ensures
        r is Some <==> terminal_from(spec@) is Some,
        r is Some ==> r->0@ == terminal_from(spec@)->0,
{
    let ws = split::split_words(spec);
    let ghost all = texts(ws@);
    assert(all.len() == ws@.len());
    if ws.len() == 0 {
        return None;
    }
    let mut args = text::no_texts();
    let mut i: usize = 1;
    assert(texts(args@) =~= all.subrange(1, 1));
    while i < ws.len()
        invariant
            1 <= i <= ws@.len(),
            all == texts(ws@),
            texts(args@) == all.subrange(1, i as int),
        decreases ws@.len() - i,
    {
        text::add_text(&mut args, ws[i].clone());
        i = i + 1;
        assert(all.subrange(1, i as int) =~= all.subrange(1, i - 1).push(all[i - 1]));
    }
    assert(all.subrange(1, i as int) =~= all.drop_first());
    assert(all[0] == ws@[0]@);
    Some(Terminal { program: ws[0].clone(), args })
}

/// A bare program with the flags that are known for it, falling back to the
/// near-universal `-e`.
pub open spec fn known_of(os: Os, program: Seq<char>) -> TerminalText {
    let i = first_where(terminals(os), program_is(program_name(os, program)));
    TerminalText {
        program,
        args: if i < terminals(os).len() {
            terminals(os)[i].args
        } else {
            seq!["-e"@]
        },
    }
}

pub fn known_terminal(os: Os, program: &str) -> (r: Terminal)
    ensures
        r@ == known_of(os, program@),
{
    let name = short_name(os, program);
    let all = known_terminals(os);
    let ghost ts = terminals(os);
    let ghost p = program_is(name@);
    let mut i: usize = 0;
    assert(ts.len() == all@.len());
    while i < all.len()
        invariant
            i <= all@.len(),
            ts == terminals(os),
            ts == terminal_texts(all@),
            p == program_is(name@),
            name@ == program_name(os, program@),
            forall|j: int| 0 <= j < i ==> !p(#[trigger] ts[j]),
        decreases all@.len() - i,
    {
        assert(ts[i as int] == all@[i as int]@);
        if text::same(all[i].program.as_str(), name.as_str()) {
            proof {
                lemma_first_where_is(ts, p, i as int);
            }
            return Terminal {
                program: program.to_owned(),
                args: text::copy_texts(&all[i].args),
            };
        }
        i = i + 1;
    }
    proof {
        lemma_first_where_is(ts, p, i as int);
    }
    one_flag(program, "-e")
}

/// The terminal to use where none is configured: the user's own, where it is
/// installed, and then the first of the table that is. A bare one carries no
/// flags of its own and gets those that are known for it.
pub open spec fn detected(
    os: Os,
    user: Option<Seq<char>>,
    found: Seq<Seq<char>>,
) -> Option<TerminalText> {
    let chosen = match user {
        Some(u) => match terminal_from(u) {
            Some(t) => if found.contains(t.program) {
                Some(t)
            } else {
                None
            },
            None => None,
        },
        None => None,
    };
    match chosen {
        Some(t) => if t.args.len() == 0 {
            Some(known_of(os, t.program))
        } else {
            Some(t)
        },
        None => {
            let i = first_where(terminals(os), program_among(found));
            if i < terminals(os).len() {
                Some(terminals(os)[i])
            } else {
                None
            }
        },
    }
}

/// `user` is `$TERMINAL`, and `found` the programs that are installed, out of
/// that and the table.
pub fn detect_terminal(os: Os, user: Option<&str>, found: &Vec<String>) -> (r: Option<Terminal>)
    ensures
        r is Some <==> detected(os, opt_text(user), texts(found@)) is Some,
        r is Some ==> r->0@ == detected(os, opt_text(user), texts(found@))->0,
{
    match user {
        Some(u) => match parse_terminal(u) {
            Some(t) => if text::holds(found, t.program.as_str()) {
                assert(texts(t.args@).len() == t.args@.len());
                if t.args.len() == 0 {
                    return Some(known_terminal(os, t.program.as_str()));
                }
                return Some(t);
            },
            None => {},
        },
        None => {},
    }
    let all = known_terminals(os);
    let ghost ts = terminals(os);
    let ghost p = program_among(texts(found@));
    let mut i: usize = 0;
    assert(ts.len() == all@.len());
    while i < all.len()
        invariant
            i <= all@.len(),
            ts == terminals(os),
            ts == terminal_texts(all@),
            p == program_among(texts(found@)),
            detected(os, opt_text(user), texts(found@)) == (if first_where(ts, p) < ts.len() {
                Some(ts[first_where(ts, p)])
            } else {
                None
            }),
            forall|j: int| 0 <= j < i ==> !p(#[trigger] ts[j]),
        decreases all@.len() - i,
    {
        assert(ts[i as int] == all@[i as int]@);
        if text::holds(found, all[i].program.as_str()) {
            proof {
                lemma_first_where_is(ts, p, i as int);
            }
            return Some(
                Terminal {
                    program: all[i].program.clone(),
                    args: text::copy_texts(&all[i].args),
                },
            );
        }
        i = i + 1;
    }
    proof {
        lemma_first_where_is(ts, p, i as int);
    }
    None
}

/// How sessions are opened: `None` is this terminal.
pub open spec fn launch_of(
    os: Os,
    pref: Seq<char>,
    user: Option<Seq<char>>,
    found: Seq<Seq<char>>,
) -> Option<TerminalText> {
    let pref = trimmed(pref);
    if pref == "inline"@ {
        None
    } else if pref.len() == 0 || pref == "auto"@ {
        detected(os, user, found)
    } else {
        terminal_from(pref)
    }
}

/// Resolve the configured preference: `auto` picks the first emulator found,
/// `inline` stays in this terminal, anything else is a command line to run.
pub fn resolve_launch(os: Os, pref: &str, user: Option<&str>, found: &Vec<String>) -> (r: Launch)
    ensures
        match launch_of(os, pref@, opt_text(user), texts(found@)) {
            Some(t) => r matches Launch::Window(w) && w@ == t,
            None => r is Inline,
        },
{
    let pref = text::trim(pref);
    let window = if text::same(pref.as_str(), "inline") {
        None
    } else if pref.as_str().is_empty() || text::same(pref.as_str(), "auto") {
        detect_terminal(os, user, found)
    } else {
        parse_terminal(pref.as_str())
    };
    match window {
        Some(t) => Launch::Window(t),
        None => Launch::Inline,
    }
}

// ---------------------------------------------------------------------------
// The script a window runs
// ---------------------------------------------------------------------------

/// A character that a Unix shell takes as it stands.
pub open spec fn shell_plain(c: char) -> bool {
    is_ascii_alnum(c) || c == '@' || c == '%' || c == '_' || c == '+' || c == '=' || c == ':' || c
        == ',' || c == '.' || c == '/' || c == '-'
}

/// A character that makes cmd.exe want quotes.
pub open spec fn cmd_special(c: char) -> bool {
    is_space(c) || c == '&' || c == '|' || c == '<' || c == '>' || c == '^' || c == '(' || c == ')'
        || c == '%' || c == '!'
}

/// An argument as it is written for the shell a window runs.
///
/// A Unix shell gets an argument in single quotes, with each quote in it closed,
/// escaped and opened again. cmd.exe has no way to put a literal `"` inside a
/// quoted string, so one is dropped: an ssh argument never legitimately carries
/// one, and a mangled command line is better than a window that runs something
/// else.
pub open spec fn quoted(os: Os, arg: Seq<char>) -> Seq<char> {
    match os {
        Os::Unix => if arg.len() > 0 && forall|i: int|
            0 <= i < arg.len() ==> shell_plain(#[trigger] arg[i]) {
            arg
        } else {
            "'"@ + replaced(arg, "'"@, "'\\''"@) + "'"@
        },
        Os::Windows => {
            let bare = replaced(arg, "\""@, Seq::empty());
            if bare.len() > 0 && forall|i: int|
                0 <= i < bare.len() ==> !cmd_special(#[trigger] bare[i]) {
                bare
            } else {
                "\""@ + bare + "\""@
            }
        },
    }
}

fn all_shell_plain(v: &Vec<char>) -> (r: bool)
    ensures
        r == forall|i: int| 0 <= i < v@.len() ==> shell_plain(#[trigger] v@[i]),
{
    let mut i: usize = 0;
    while i < v.len()
        invariant
            i <= v@.len(),
            forall|j: int| 0 <= j < i ==> shell_plain(#[trigger] v@[j]),
        decreases v@.len() - i,
    {
        let c = v[i];
        if !(char_is_ascii_alnum(c) || c == '@' || c == '%' || c == '_' || c == '+' || c == '='
            || c == ':' || c == ',' || c == '.' || c == '/' || c == '-') {
            assert(!shell_plain(v@[i as int]));
            return false;
        }
        i = i + 1;
    }
    true
}

fn no_cmd_special(v: &Vec<char>) -> (r: bool)
    ensures
        r == forall|i: int| 0 <= i < v@.len() ==> !cmd_special(#[trigger] v@[i]),
{
    let mut i: usize = 0;
    while i < v.len()
        invariant
            i <= v@.len(),
            forall|j: int| 0 <= j < i ==> !cmd_special(#[trigger] v@[j]),
        decreases v@.len() - i,
    {
        let c = v[i];
        if char_is_space(c) || c == '&' || c == '|' || c == '<' || c == '>' || c == '^' || c == '('
            || c == ')' || c == '%' || c == '!' {
            assert(cmd_special(v@[i as int]));
            return false;
        }
        i = i + 1;
    }
    true
}

/// Quote an argument for the shell the window runs.
pub fn shell_quote(os: Os, arg: &str) -> (r: String)
    ensures
        r@ == quoted(os, arg@),
{
    match os {
        Os::Unix => {
            let v = chars_of(arg);
            if v.len() > 0 && all_shell_plain(&v) {
                return arg.to_owned();
            }
            proof {
                reveal_strlit("'");
            }
            cat3("'", split::replace(arg, "'", "'\\''").as_str(), "'")
        },
        Os::Windows => {
            proof {
                reveal_strlit("\"");
                reveal_strlit("");
                assert(""@ =~= Seq::<char>::empty());
            }
            let bare = split::replace(arg, "\"", "");
            let v = chars_of(bare.as_str());
            if v.len() > 0 && no_cmd_special(&v) {
                return bare;
            }
            cat3("\"", bare.as_str(), "\"")
        },
    }
}

/// How a Unix shell reads one word: `None` where it would not be one word.
/// `inside` is whether a single quote is open.
pub open spec fn shell_reads(s: Seq<char>, inside: bool) -> Option<Seq<char>>
    decreases s.len(),
{
    if s.len() == 0 {
        if inside {
            None
        } else {
            Some(Seq::empty())
        }
    } else if inside {
        if s[0] == '\'' {
            shell_reads(s.skip(1), false)
        } else {
            match shell_reads(s.skip(1), true) {
                Some(r) => Some(seq![s[0]] + r),
                None => None,
            }
        }
    } else if s[0] == '\'' {
        shell_reads(s.skip(1), true)
    } else if s[0] == '\\' && s.len() > 1 {
        match shell_reads(s.skip(2), false) {
            Some(r) => Some(seq![s[1]] + r),
            None => None,
        }
    } else if shell_plain(s[0]) {
        match shell_reads(s.skip(1), false) {
            Some(r) => Some(seq![s[0]] + r),
            None => None,
        }
    } else {
        None
    }
}

proof fn lemma_reads_plain(s: Seq<char>)
    requires
        forall|i: int| 0 <= i < s.len() ==> shell_plain(#[trigger] s[i]),
    ensures
        shell_reads(s, false) == Some(s),
    decreases s.len(),
{
    if s.len() > 0 {
        let t = s.skip(1);
        assert forall|i: int| 0 <= i < t.len() implies shell_plain(#[trigger] t[i]) by {
            assert(t[i] == s[i + 1]);
        }
        lemma_reads_plain(t);
        assert(shell_plain(s[0]));
        assert(seq![s[0]] + t =~= s);
    } else {
        assert(s =~= Seq::<char>::empty());
    }
}

proof fn lemma_reads_quoted(s: Seq<char>)
    ensures
        shell_reads(replaced(s, seq!['\''], seq!['\'', '\\', '\'', '\'']) + seq!['\''], true)
            == Some(s),
    decreases s.len(),
{
    let q = seq!['\''];
    let by = seq!['\'', '\\', '\'', '\''];
    let body = replaced(s, q, by) + q;
    if s.len() == 0 {
        assert(body =~= q);
        assert(body.skip(1) =~= Seq::<char>::empty());
        assert(shell_reads(body.skip(1), false) == Some(Seq::<char>::empty()));
        assert(s =~= Seq::<char>::empty());
    } else {
        let rest = s.drop_first();
        lemma_reads_quoted(rest);
        let tail = replaced(rest, q, by) + q;
        assert(seq![s[0]] + rest =~= s);
        if s[0] == '\'' {
            assert(s.take(1) =~= q);
            assert(s.skip(1) =~= rest);
            assert(body =~= by + tail);
            assert(body.skip(1) =~= seq!['\\', '\'', '\''] + tail);
            assert(body.skip(1).skip(2) =~= q + tail);
            assert((q + tail).skip(1) =~= tail);
            assert(shell_reads(q + tail, false) == Some(rest));
            assert(body.skip(1)[0] == '\\' && body.skip(1)[1] == '\'');
            assert(shell_reads(body.skip(1), false) == Some(s));
            assert(body[0] == '\'');
        } else {
            assert(s.take(1)[0] == s[0]);
            assert(s.take(1) != q) by {
                assert(q[0] == '\'');
            }
            assert(body =~= seq![s[0]] + tail);
            assert(body.skip(1) =~= tail);
        }
    }
}

/// A Unix shell reads a quoted argument back as the argument, in one word,
/// whatever it holds: spaces, quotes, or nothing at all.
pub proof fn law_quoting_survives_the_shell(arg: Seq<char>)
    ensures
        shell_reads(quoted(Os::Unix, arg), false) == Some(arg),
{
    reveal_strlit("'");
    reveal_strlit("'\\''");
    if arg.len() > 0 && forall|i: int| 0 <= i < arg.len() ==> shell_plain(#[trigger] arg[i]) {
        lemma_reads_plain(arg);
    } else {
        let q = seq!['\''];
        let by = seq!['\'', '\\', '\'', '\''];
        assert("'"@ =~= q);
        assert("'\\''"@ =~= by);
        lemma_reads_quoted(arg);
        let t = quoted(Os::Unix, arg);
        assert(t =~= q + (replaced(arg, q, by) + q));
        assert(t.skip(1) =~= replaced(arg, q, by) + q);
    }
}

/// Every argument quoted.
pub open spec fn all_quoted(os: Os, args: Seq<Seq<char>>) -> Seq<Seq<char>> {
    args.map_values(|a: Seq<char>| quoted(os, a))
}

/// What the window does after ssh: on failure it waits, so that the error is
/// still readable after the session dies.
pub open spec fn after_ssh(os: Os) -> Seq<char> {
    match os {
        Os::Unix => "; s=$?; if [ \"$s\" -ne 0 ]; then printf '\\n[controlcenter] ssh exited %s — press Enter to close ' \"$s\"; read -r _; fi; exit $s"@,
        Os::Windows => " || (echo. & echo [controlcenter] ssh failed & pause)"@,
    }
}

/// The command the window runs.
pub open spec fn script_of(m: Machine, h: SshHost, helper: PasswordHelper) -> Seq<char> {
    joined(
        given(h.password@.len() > 0 && helper is Sshpass, seq!["sshpass"@, "-e"@]) + seq!["ssh"@]
            + all_quoted(m.os, connection_of(m, h).push(h.destination_spec())),
        " "@,
    ) + after_ssh(m.os)
}

/// The command the window runs: ssh, and on failure a pause so the error is
/// still readable after the session dies.
///
/// Two dialects, because the window is a shell's and the shells do not agree on
/// how a status is read back, on how a line is held, or on what a quote means.
/// Both say the same thing.
pub fn session_script(host: &SshHost, helper: &PasswordHelper, machine: &Machine) -> (r: String)
    ensures
        r@ == script_of(*machine, *host, *helper),
{
    let mut parts = text::no_texts();
    if !host.password.as_str().is_empty() && helper.is_sshpass() {
        text::add_str(&mut parts, "sshpass");
        text::add_str(&mut parts, "-e");
    }
    text::add_str(&mut parts, "ssh");
    let ghost head = given(
        host.password@.len() > 0 && helper is Sshpass,
        seq!["sshpass"@, "-e"@],
    ) + seq!["ssh"@];
    assert(texts(parts@) =~= head);
    let args = build_args(host, machine);
    let ghost all = texts(args@);
    let mut i: usize = 0;
    assert(head + all_quoted(machine.os, all.take(0)) =~= head);
    while i < args.len()
        invariant
            i <= args@.len(),
            all == texts(args@),
            texts(parts@) == head + all_quoted(machine.os, all.take(i as int)),
        decreases args@.len() - i,
    {
        text::add_text(&mut parts, shell_quote(machine.os, args[i].as_str()));
        i = i + 1;
        assert(head + all_quoted(machine.os, all.take(i as int)) =~= (head + all_quoted(
            machine.os,
            all.take(i - 1),
        )).push(quoted(machine.os, all[i - 1])));
    }
    assert(all.take(i as int) =~= all);
    let cmd = text::join(&parts, " ");
    match machine.os {
        Os::Unix => cat(
            cmd.as_str(),
            "; s=$?; if [ \"$s\" -ne 0 ]; then printf '\\n[controlcenter] ssh exited %s — press Enter to close ' \"$s\"; read -r _; fi; exit $s",
        ),
        Os::Windows => cat(cmd.as_str(), " || (echo. & echo [controlcenter] ssh failed & pause)"),
    }
}

/// The arguments with the script in place of `{cmd}`.
pub open spec fn with_script(args: Seq<Seq<char>>, script: Seq<char>) -> Seq<Seq<char>> {
    args.map_values(|a: Seq<char>| replaced(a, "{cmd}"@, script))
}

/// Whether a terminal says where the script goes.
pub open spec fn has_placeholder(args: Seq<Seq<char>>) -> bool {
    exists|i: int| 0 <= i < args.len() && occurs(#[trigger] args[i], "{cmd}"@)
}

/// What a terminal is handed to run a script.
pub open spec fn window_args_of(os: Os, args: Seq<Seq<char>>, script: Seq<char>) -> Seq<Seq<char>> {
    if has_placeholder(args) {
        with_script(args, script)
    } else {
        match os {
            Os::Unix => with_script(args, script) + seq!["sh"@, "-c"@, script],
            Os::Windows => with_script(args, script).push(script),
        }
    }
}

/// The arguments that make a terminal run a script.
///
/// The `{cmd}` placeholder is where the script goes; a terminal that names no
/// placeholder is handed the command as `sh -c <script>` on Unix, and the line
/// itself on Windows, where the terminal is a shell rather than an emulator
/// that runs one.
pub fn window_args(os: Os, term: &Terminal, script: &str) -> (r: Vec<String>)
    ensures
        texts(r@) == window_args_of(os, texts(term.args@), script@),
{
    proof {
        reveal_strlit("{cmd}");
    }
    let mut out = text::no_texts();
    let mut placed = false;
    let ghost all = texts(term.args@);
    let mut i: usize = 0;
    assert(texts(out@) =~= with_script(all.take(0), script@));
    while i < term.args.len()
        invariant
            i <= term.args@.len(),
            all == texts(term.args@),
            "{cmd}"@.len() > 0,
            texts(out@) == with_script(all.take(i as int), script@),
            placed == has_placeholder(all.take(i as int)),
        decreases term.args@.len() - i,
    {
        let arg = term.args[i].as_str();
        let ghost before = all.take(i as int);
        let ghost after = all.take(i + 1);
        assert(after =~= before.push(arg@));
        let here = split::contains(arg, "{cmd}");
        proof {
            assert(after[i as int] == arg@);
            if has_placeholder(before) {
                let j = choose|j: int| 0 <= j < before.len() && occurs(#[trigger] before[j], "{cmd}"@);
                assert(after[j] == before[j]);
            }
            if has_placeholder(after) && !here {
                let j = choose|j: int| 0 <= j < after.len() && occurs(#[trigger] after[j], "{cmd}"@);
                assert(before[j] == after[j]);
            }
        }
        if here {
            placed = true;
        }
        text::add_text(&mut out, split::replace(arg, "{cmd}", script));
        i = i + 1;
        assert(with_script(after, script@) =~= with_script(before, script@).push(
            replaced(arg@, "{cmd}"@, script@),
        ));
    }
    assert(all.take(i as int) =~= all);
    if !placed {
        match os {
            Os::Unix => {
                text::add_str(&mut out, "sh");
                text::add_str(&mut out, "-c");
                text::add_str(&mut out, script);
                assert(texts(out@) =~= with_script(all, script@) + seq!["sh"@, "-c"@, script@]);
            },
            Os::Windows => {
                text::add_str(&mut out, script);
            },
        }
    }
    out
}

/// The same host, but perhaps for the password it stores.
pub open spec fn same_but_password(a: SshHost, b: SshHost) -> bool {
    &&& a.host@ == b.host@
    &&& a.port == b.port
    &&& a.username@ == b.username@
    &&& a.key_path@ == b.key_path@
    &&& a.skip_host_key_check == b.skip_host_key_check
    &&& a.extra_args@ == b.extra_args@
    &&& (a.password@.len() == 0) == (b.password@.len() == 0)
}

/// A stored password is never on a command line: what is run, shown and put in
/// a window's script is the same for any two hosts that differ in nothing but
/// the password they store.
pub proof fn law_password_is_never_an_argument(
    m: Machine,
    a: SshHost,
    b: SshHost,
    helper: PasswordHelper,
)
    requires
        same_but_password(a, b),
    ensures
        connection_of(m, a) == connection_of(m, b),
        transfer_of(m, a) == transfer_of(m, b),
        preview_of(m, a, helper) == preview_of(m, b, helper),
        script_of(m, a, helper) == script_of(m, b, helper),
{
}

}
