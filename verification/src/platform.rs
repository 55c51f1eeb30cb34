//! What differs between the systems controlcenter runs on.
//!
//! Everything here is a fact about the operating system rather than about a
//! client: what "throw this away" is called, how a process is stopped, how a
//! command line is taken apart again.

use vstd::prelude::*;
use crate::list::{first_where, lemma_first_where_is};
use crate::number::{self, decimal};
use crate::path::{join, joined_path, opt_text, Os};
use crate::split::{self, ends, is_char, lines, pieces};
use crate::text::{
    self, ascii_lowered, cat, cat3, chars_of, char_is_space, is_space, same_but_case, texts,
    trimmed,
};

verus! {

pub open spec fn null_device_text(os: Os) -> Seq<char> {
    match os {
        Os::Unix => "/dev/null"@,
        Os::Windows => "NUL"@,
    }
}

/// The path that means "throw this away". ssh is pointed at it for the known
/// hosts file when a host key is deliberately not checked.
pub fn null_device(os: Os) -> (r: &'static str)
    ensures
        r@ == null_device_text(os),
{
    match os {
        Os::Unix => "/dev/null",
        Os::Windows => "NUL",
    }
}

// ---------------------------------------------------------------------------
// Finding a binary
// ---------------------------------------------------------------------------

/// Whether a program is named by a path, which is not looked up.
pub fn is_path(name: &str) -> (r: bool)
    ensures
        r == (name@.contains('/') || name@.contains('\\')),
{
    split::has_char(name, '/') || split::has_char(name, '\\')
}

/// The directories under one Program Files directory.
pub open spec fn program_dirs(base: Seq<char>) -> Seq<Seq<char>> {
    seq![
        joined_path(Os::Windows, base, "WireGuard"@),
        joined_path(Os::Windows, joined_path(Os::Windows, base, "OpenVPN"@), "bin"@),
        joined_path(Os::Windows, base, "Tailscale"@),
        joined_path(Os::Windows, base, "Netbird"@),
        joined_path(Os::Windows, base, "Pangolin"@),
    ]
}

pub open spec fn all_program_dirs(bases: Seq<Seq<char>>) -> Seq<Seq<char>>
    decreases bases.len(),
{
    if bases.len() == 0 {
        Seq::empty()
    } else {
        all_program_dirs(bases.drop_last()) + program_dirs(bases.last())
    }
}

/// Directories searched after `PATH`: none, but on Windows, where the
/// installers of the VPN clients leave `PATH` alone.
pub open spec fn extra_dirs_of(
    os: Os,
    bases: Seq<Seq<char>>,
    local: Option<Seq<char>>,
    root: Option<Seq<char>>,
) -> Seq<Seq<char>> {
    match os {
        Os::Unix => Seq::empty(),
        Os::Windows => {
            let a = all_program_dirs(bases);
            let b = match local {
                Some(l) => a.push(joined_path(Os::Windows, joined_path(Os::Windows, l, "Programs"@), "Pangolin"@)).push(
                    joined_path(Os::Windows, l, "Pangolin"@),
                ),
                None => a,
            };
            match root {
                Some(r) => b.push(joined_path(Os::Windows, r, "System32"@)),
                None => b,
            }
        },
    }
}

/// `program_files` are the Program Files directories, `local` and `root` the
/// local application data and the system directory, as far as they are known.
pub fn extra_dirs(
    os: Os,
    program_files: &Vec<String>,
    local: Option<&str>,
    root: Option<&str>,
) -> (r: Vec<String>)
    ensures
        texts(r@) == extra_dirs_of(
            os,
            texts(program_files@),
            crate::path::opt_text(local),
            crate::path::opt_text(root),
        ),
{
    let mut dirs = text::no_texts();
    match os {
        Os::Unix => dirs,
        Os::Windows => {
            let ghost all = texts(program_files@);
            let mut i: usize = 0;
            assert(all.take(0) =~= Seq::<Seq<char>>::empty());
            while i < program_files.len()
                invariant
                    i <= program_files@.len(),
                    all == texts(program_files@),
                    texts(dirs@) == all_program_dirs(all.take(i as int)),
                decreases program_files@.len() - i,
            {
                let base = program_files[i].as_str();
                let ghost before = texts(dirs@);
                assert(all.take(i + 1).drop_last() =~= all.take(i as int));
                assert(all.take(i + 1).last() == base@);
                text::add_text(&mut dirs, join(Os::Windows, base, "WireGuard"));
                text::add_text(
                    &mut dirs,
                    join(Os::Windows, join(Os::Windows, base, "OpenVPN").as_str(), "bin"),
                );
                text::add_text(&mut dirs, join(Os::Windows, base, "Tailscale"));
                text::add_text(&mut dirs, join(Os::Windows, base, "Netbird"));
                text::add_text(&mut dirs, join(Os::Windows, base, "Pangolin"));
                assert(texts(dirs@) =~= before + program_dirs(base@));
                i = i + 1;
            }
            assert(all.take(i as int) =~= all);
            // Pangolin's installer is a per-user one and does not go near
            // Program Files.
            match local {
                Some(l) => {
                    text::add_text(
                        &mut dirs,
                        join(Os::Windows, join(Os::Windows, l, "Programs").as_str(), "Pangolin"),
                    );
                    text::add_text(&mut dirs, join(Os::Windows, l, "Pangolin"));
                },
                None => {},
            }
            match root {
                Some(r) => {
                    text::add_text(&mut dirs, join(Os::Windows, r, "System32"));
                },
                None => {},
            }
            dirs
        },
    }
}

/// The suffixes of a list that are not empty, each behind a name.
pub open spec fn with_suffixes(name: Seq<char>, exts: Seq<Seq<char>>) -> Seq<Seq<char>>
    decreases exts.len(),
{
    if exts.len() == 0 {
        Seq::empty()
    } else if exts.last().len() == 0 {
        with_suffixes(name, exts.drop_last())
    } else {
        with_suffixes(name, exts.drop_last()).push(name + exts.last())
    }
}

/// Whether a name already has one of the suffixes, whatever the case.
pub open spec fn has_suffix(name: Seq<char>, exts: Seq<Seq<char>>) -> bool {
    exists|i: int|
        0 <= i < exts.len() && (#[trigger] exts[i]).len() > 0 && ends(
            ascii_lowered(name),
            ascii_lowered(exts[i]),
        )
}

/// The file names a bare program name can have. On Windows `ssh` is `ssh.exe`,
/// and which suffixes count is `PATHEXT`'s to say; an extension that is already
/// there is the name, and a name with none is still worth trying, last.
pub open spec fn candidates_of(os: Os, name: Seq<char>, pathext: Seq<char>) -> Seq<Seq<char>> {
    let exts = pieces(pathext, is_char(';'));
    if os == Os::Unix || has_suffix(name, exts) {
        seq![name]
    } else {
        with_suffixes(name, exts).push(name)
    }
}

pub fn candidates(os: Os, name: &str, pathext: &str) -> (r: Vec<String>)
    ensures
        texts(r@) == candidates_of(os, name@, pathext@),
{
    let mut out = text::no_texts();
    if os == Os::Unix {
        text::add_str(&mut out, name);
        assert(texts(out@) =~= seq![name@]);
        return out;
    }
    let exts = split::split(pathext, ';');
    let ghost all = texts(exts@);
    let low = text::to_ascii_lower(name);
    let mut i: usize = 0;
    assert(all.take(0) =~= Seq::<Seq<char>>::empty());
    while i < exts.len()
        invariant
            i <= exts@.len(),
            all == texts(exts@),
            all == pieces(pathext@, is_char(';')),
            low@ == ascii_lowered(name@),
            os == Os::Windows,
            texts(out@) == with_suffixes(name@, all.take(i as int)),
            forall|j: int|
                0 <= j < i ==> !((#[trigger] all[j]).len() > 0 && ends(low@, ascii_lowered(all[j]))),
        decreases exts@.len() - i,
    {
        let e = exts[i].as_str();
        assert(all[i as int] == e@);
        assert(all.take(i + 1).drop_last() =~= all.take(i as int));
        assert(all.take(i + 1).last() == e@);
        if !e.is_empty() {
            if split::ends_with(low.as_str(), text::to_ascii_lower(e).as_str()) {
                let mut one = text::no_texts();
                text::add_str(&mut one, name);
                assert(texts(one@) =~= seq![name@]);
                assert(has_suffix(name@, all));
                return one;
            }
            text::add_text(&mut out, cat(name, e));
        }
        i = i + 1;
    }
    assert(all.take(i as int) =~= all);
    text::add_str(&mut out, name);
    out
}

/// The names of a program, each inside the directory.
pub open spec fn inside(os: Os, dir: Seq<char>, names: Seq<Seq<char>>) -> Seq<Seq<char>> {
    names.map_values(|n: Seq<char>| joined_path(os, dir, n))
}

/// The names of a program inside each of the directories in turn.
pub open spec fn inside_each(os: Os, dirs: Seq<Seq<char>>, names: Seq<Seq<char>>) -> Seq<Seq<char>>
    decreases dirs.len(),
{
    if dirs.len() == 0 {
        Seq::empty()
    } else {
        inside_each(os, dirs.drop_last(), names) + inside(os, dirs.last(), names)
    }
}

/// Where a program may be, in the order in which it is looked for. A path is not
/// a name to look up: it is there or nowhere.
pub open spec fn lookups(os: Os, name: Seq<char>, dirs: Seq<Seq<char>>, pathext: Seq<char>) -> Seq<
    Seq<char>,
> {
    if name.contains('/') || name.contains('\\') {
        seq![name]
    } else {
        inside_each(os, dirs, candidates_of(os, name, pathext))
    }
}

fn add_inside(out: &mut Vec<String>, os: Os, dir: &str, names: &Vec<String>)
    ensures
        texts(final(out)@) == texts(old(out)@) + inside(os, dir@, texts(names@)),
{
    let ghost was = texts(out@);
    let ghost all = texts(names@);
    let mut i: usize = 0;
    assert(was + inside(os, dir@, all.take(0)) =~= was);
    while i < names.len()
        invariant
            i <= names@.len(),
            all == texts(names@),
            texts(out@) == was + inside(os, dir@, all.take(i as int)),
        decreases names@.len() - i,
    {
        text::add_text(out, join(os, dir, names[i].as_str()));
        i = i + 1;
        assert(texts(out@) =~= was + inside(os, dir@, all.take(i as int)));
    }
    assert(all.take(i as int) =~= all);
}

/// Where to look for a program, in order: `dirs` are the directories of `PATH`
/// and those searched after it.
pub fn places_to_look(os: Os, name: &str, dirs: &Vec<String>, pathext: &str) -> (r: Vec<String>)
    ensures
        texts(r@) == lookups(os, name@, texts(dirs@), pathext@),
{
    let mut out = text::no_texts();
    if is_path(name) {
        text::add_str(&mut out, name);
        assert(texts(out@) =~= seq![name@]);
        return out;
    }
    let names = candidates(os, name, pathext);
    let ghost ns = texts(names@);
    let ghost all = texts(dirs@);
    let mut i: usize = 0;
    assert(all.take(0) =~= Seq::<Seq<char>>::empty());
    while i < dirs.len()
        invariant
            i <= dirs@.len(),
            all == texts(dirs@),
            ns == texts(names@),
            texts(out@) == inside_each(os, all.take(i as int), ns),
        decreases dirs@.len() - i,
    {
        assert(all.take(i + 1).drop_last() =~= all.take(i as int));
        assert(all.take(i + 1).last() == dirs@[i as int]@);
        add_inside(&mut out, os, dirs[i].as_str(), &names);
        i = i + 1;
    }
    assert(all.take(i as int) =~= all);
    out
}

// ---------------------------------------------------------------------------
// Keeping a file to its owner
// ---------------------------------------------------------------------------

/// Who an access list on Windows is written for, most specific first. A name can
/// fail to resolve, so the account is named up to three ways; the last is the
/// well-known identifier of whoever owns the object, which needs no lookup.
pub open spec fn trustees_of(user: Option<Seq<char>>, domain: Option<Seq<char>>) -> Seq<Seq<char>> {
    let named = match user {
        Some(u) => if u.len() == 0 {
            Seq::empty()
        } else {
            match domain {
                Some(d) => if d.len() == 0 {
                    seq![u]
                } else {
                    seq![d + "\\"@ + u, u]
                },
                None => seq![u],
            }
        },
        None => Seq::empty(),
    };
    named.push("*S-1-3-4"@)
}

pub fn trustees(user: Option<&str>, domain: Option<&str>) -> (r: Vec<String>)
    ensures
        texts(r@) == trustees_of(opt_text(user), opt_text(domain)),
{
    let mut out = text::no_texts();
    match user {
        Some(u) => if !u.is_empty() {
            match domain {
                Some(d) => if !d.is_empty() {
                    text::add_text(&mut out, cat3(d, "\\", u));
                },
                None => {},
            }
            text::add_str(&mut out, u);
        },
        None => {},
    }
    text::add_str(&mut out, "*S-1-3-4");
    assert(texts(out@) =~= trustees_of(opt_text(user), opt_text(domain)));
    out
}

/// What an account is granted: everything, and on a directory also on what is
/// created in it later.
pub open spec fn grant_of(account: Seq<char>, dir: bool) -> Seq<char> {
    if dir {
        account + ":(OI)(CI)F"@
    } else {
        account + ":F"@
    }
}

/// How a file or a directory is kept to one account on Windows: what the parent
/// granted is dropped, and the account is the only entry left.
pub fn icacls_argv(path: &str, account: &str, dir: bool) -> (r: Vec<String>)
    ensures
        texts(r@) == seq![
            "icacls"@,
            path@,
            "/inheritance:r"@,
            "/grant:r"@,
            grant_of(account@, dir),
        ],
{
    let mut out = text::no_texts();
    text::add_str(&mut out, "icacls");
    text::add_str(&mut out, path);
    text::add_str(&mut out, "/inheritance:r");
    text::add_str(&mut out, "/grant:r");
    let grant = if dir {
        cat(account, ":(OI)(CI)F")
    } else {
        cat(account, ":F")
    };
    text::add_text(&mut out, grant);
    assert(texts(out@) =~= seq![
        "icacls"@,
        path@,
        "/inheritance:r"@,
        "/grant:r"@,
        grant_of(account@, dir),
    ]);
    out
}

/// The first line of a text.
pub open spec fn first_line_of(s: Seq<char>) -> Seq<char> {
    if lines(s).len() > 0 {
        lines(s)[0]
    } else {
        s
    }
}

fn first_line(s: &str) -> (r: String)
    ensures
        r@ == first_line_of(s@),
{
    let all = split::split_lines(s);
    assert(texts(all@).len() == all@.len());
    if all.len() > 0 {
        assert(texts(all@)[0] == all@[0]@);
        all[0].clone()
    } else {
        s.to_owned()
    }
}

/// Why a grant was refused, in one line. It is said on the one stream as often as
/// on the other.
pub fn icacls_refusal(stdout: &str, stderr: &str, grant: &str) -> (r: String)
    ensures
        ({
            let said = if trimmed(stderr@).len() == 0 {
                trimmed(stdout@)
            } else {
                trimmed(stderr@)
            };
            r@ == if said.len() == 0 {
                "icacls refused "@ + grant@
            } else {
                first_line_of(said)
            }
        }),
{
    let err = text::trim(stderr);
    let said = if err.as_str().is_empty() {
        text::trim(stdout)
    } else {
        err
    };
    if said.as_str().is_empty() {
        cat("icacls refused ", grant)
    } else {
        first_line(said.as_str())
    }
}

/// What a PowerShell one-liner gave back, or the first line of why it failed.
pub fn read_powershell(success: bool, stdout: &str, stderr: &str) -> (r: Result<String, String>)
    ensures
        match r {
            Ok(s) => success && s@ == stdout@,
            Err(e) => !success && e@ == if trimmed(stderr@).len() == 0 {
                "powershell failed"@
            } else {
                first_line_of(trimmed(stderr@))
            },
        },
{
    if success {
        return Ok(stdout.to_owned());
    }
    let said = text::trim(stderr);
    if said.as_str().is_empty() {
        Err("powershell failed".to_owned())
    } else {
        Err(first_line(said.as_str()))
    }
}

// ---------------------------------------------------------------------------
// Stopping a process
// ---------------------------------------------------------------------------

pub open spec fn kill_args(os: Os, pid: nat, force: bool) -> Seq<Seq<char>> {
    match os {
        Os::Unix => seq![
            "kill"@,
            if force {
                "-KILL"@
            } else {
                "-TERM"@
            },
            decimal(pid),
        ],
        Os::Windows => {
            let argv = seq!["taskkill"@, "/PID"@, decimal(pid), "/T"@];
            if force {
                argv.push("/F"@)
            } else {
                argv
            }
        },
    }
}

/// The command that stops a process.
pub fn kill_argv(os: Os, pid: u32, force: bool) -> (r: Vec<String>)
    ensures
        texts(r@) == kill_args(os, pid as nat, force),
{
    let mut argv = text::no_texts();
    match os {
        Os::Unix => {
            text::add_str(&mut argv, "kill");
            text::add_str(
                &mut argv,
                if force {
                    "-KILL"
                } else {
                    "-TERM"
                },
            );
            text::add_text(&mut argv, number::write(pid as u64));
        },
        Os::Windows => {
            text::add_str(&mut argv, "taskkill");
            text::add_str(&mut argv, "/PID");
            text::add_text(&mut argv, number::write(pid as u64));
            text::add_str(&mut argv, "/T");
            if force {
                text::add_str(&mut argv, "/F");
            }
        },
    }
    assert(texts(argv@) =~= kill_args(os, pid as nat, force));
    argv
}

// ---------------------------------------------------------------------------
// Command lines
// ---------------------------------------------------------------------------

/// How many backslashes a text starts with.
pub open spec fn slashes(s: Seq<char>) -> nat
    decreases s.len(),
{
    if s.len() > 0 && s[0] == '\\' {
        1 + slashes(s.drop_first())
    } else {
        0
    }
}

/// `n` backslashes.
pub open spec fn backslashes(n: nat) -> Seq<char> {
    Seq::new(n, |i: int| '\\')
}

pub proof fn lemma_slashes(s: Seq<char>)
    ensures
        slashes(s) <= s.len(),
        slashes(s) < s.len() ==> s[slashes(s) as int] != '\\',
    decreases s.len(),
{
    if s.len() > 0 && s[0] == '\\' {
        lemma_slashes(s.drop_first());
    }
}

/// The argument being read with more text behind it; reading one begins with
/// its first character or quote.
pub open spec fn more(cur: Option<Seq<char>>, t: Seq<char>) -> Option<Seq<char>> {
    match cur {
        Some(c) => Some(c + t),
        None => Some(t),
    }
}

/// The arguments on a Windows command line, from the place where `cur` is being
/// read, inside quotes or not.
///
/// A run of backslashes stands for itself unless a quote follows: then every
/// pair of them is one backslash, and one left over makes the quote literal.
/// Two quotes inside a quoted run are one literal quote; any other quote opens
/// or closes a run. White space outside quotes ends an argument.
pub open spec fn arguments(s: Seq<char>, quoted: bool, cur: Option<Seq<char>>) -> Seq<Seq<char>>
    decreases s.len(),
{
    if s.len() == 0 {
        match cur {
            Some(c) => seq![c],
            None => Seq::empty(),
        }
    } else {
        let n = slashes(s);
        if n < s.len() && s[n as int] == '"' {
            let lit = more(cur, backslashes(n / 2));
            if n % 2 == 1 {
                arguments(s.skip(n as int + 1), quoted, more(lit, seq!['"']))
            } else if quoted && n + 1 < s.len() && s[n as int + 1] == '"' {
                arguments(s.skip(n as int + 2), quoted, more(lit, seq!['"']))
            } else {
                arguments(s.skip(n as int + 1), !quoted, lit)
            }
        } else if 0 < n <= s.len() {
            arguments(s.skip(n as int), quoted, more(cur, backslashes(n)))
        } else if is_space(s[0]) && !quoted {
            match cur {
                Some(c) => seq![c] + arguments(s.skip(1), quoted, None),
                None => arguments(s.skip(1), quoted, None),
            }
        } else {
            arguments(s.skip(1), quoted, more(cur, seq![s[0]]))
        }
    }
}

fn push_slashes(s: &mut String, n: usize)
    ensures
        final(s)@ == old(s)@ + backslashes(n as nat),
{
    let ghost was = s@;
    let mut i: usize = 0;
    assert(was + backslashes(0) =~= was);
    while i < n
        invariant
            i <= n,
            s@ == was + backslashes(i as nat),
        decreases n - i,
    {
        s.push('\\');
        i = i + 1;
        assert(was + backslashes(i as nat) =~= (was + backslashes((i - 1) as nat)).push('\\'));
    }
}

fn count_slashes(v: &Vec<char>, from: usize) -> (r: usize)
    requires
        from <= v@.len(),
    ensures
        r == slashes(v@.skip(from as int)),
        from + r <= v@.len(),
{
    let mut n: usize = 0;
    let total: usize = v.len();
    while from + n < total && v[from + n] == '\\'
        invariant
            total == v@.len(),
            from + n <= total,
            slashes(v@.skip(from as int)) == n + slashes(v@.skip(from + n)),
        decreases total - from - n,
    {
        assert(v@.skip(from + n).drop_first() =~= v@.skip(from + n + 1));
        n = n + 1;
    }
    n
}

/// Split a Windows command line back into arguments.
///
/// The process list reports the whole line as one string, so the quoting has to
/// be undone to get at the `--config` an openvpn was started with.
pub fn split_command_line(line: &str) -> (r: Vec<String>)
    ensures
        texts(r@) == arguments(line@, false, None),
{
    let v = chars_of(line);
    let total: usize = v.len();
    let mut args = text::no_texts();
    let mut current = String::new();
    let mut started = false;
    let mut in_quotes = false;
    let mut i: usize = 0;
    let ghost goal = arguments(line@, false, None);
    assert(v@.skip(0) =~= v@);
    assert(texts(args@) + goal =~= goal);
    while i < total
        invariant
            total == v@.len(),
            i <= total,
            !started ==> current@ == Seq::<char>::empty(),
            goal == texts(args@) + arguments(
                v@.skip(i as int),
                in_quotes,
                if started {
                    Some(current@)
                } else {
                    None
                },
            ),
        decreases total - i,
    {
        let ghost s = v@.skip(i as int);
        let ghost cur = if started {
            Some(current@)
        } else {
            None
        };
        proof {
            lemma_slashes(s);
        }
        let n: usize = count_slashes(&v, i);
        assert(n < s.len() ==> s[n as int] == v@[i + n]);
        assert(s.skip(n as int) =~= v@.skip(i + n));
        if i + n < total && v[i + n] == '"' {
            // Every pair of backslashes is one literal backslash; an odd one
            // left over escapes this quote instead of ending the run.
            push_slashes(&mut current, n / 2);
            let ghost lit = more(cur, backslashes((n / 2) as nat));
            assert(lit == Some(current@)) by {
                assert(Seq::<char>::empty() + backslashes((n / 2) as nat) =~= backslashes(
                    (n / 2) as nat,
                ));
            }
            assert(s.skip(n as int + 1) =~= v@.skip(i + n + 1));
            started = true;
            if n % 2 == 1 {
                current.push('"');
                assert(more(lit, seq!['"']) == Some(current@)) by {
                    assert(lit->0 + seq!['"'] =~= current@);
                }
                i = i + n + 1;
            } else if in_quotes && n + 1 < total - i && v[i + n + 1] == '"' {
                assert(s[n as int + 1] == v@[i + n + 1]);
                assert(s.skip(n as int + 2) =~= v@.skip(i + n + 2));
                current.push('"');
                assert(more(lit, seq!['"']) == Some(current@)) by {
                    assert(lit->0 + seq!['"'] =~= current@);
                }
                i = i + n + 2;
            } else {
                assert(n as int + 1 < s.len() ==> s[n as int + 1] == v@[i + n + 1]);
                in_quotes = !in_quotes;
                i = i + n + 1;
            }
        } else if n > 0 {
            push_slashes(&mut current, n);
            assert(more(cur, backslashes(n as nat)) == Some(current@)) by {
                assert(Seq::<char>::empty() + backslashes(n as nat) =~= backslashes(n as nat));
            }
            started = true;
            i = i + n;
        } else {
            assert(s[0] == v@[i as int]);
            assert(s.skip(1) =~= v@.skip(i + 1));
            if char_is_space(v[i]) && !in_quotes {
                let ghost before = texts(args@);
                if started {
                    text::add_text(&mut args, current);
                    current = String::new();
                    started = false;
                    assert(goal =~= texts(args@) + arguments(v@.skip(i + 1), in_quotes, None));
                }
            } else {
                current.push(v[i]);
                assert(more(cur, seq![s[0]]) == Some(current@)) by {
                    assert(cur is Some ==> cur->0 + seq![s[0]] =~= current@);
                    assert(cur is None ==> seq![s[0]] =~= current@);
                }
                started = true;
            }
            i = i + 1;
        }
    }
    assert(v@.skip(total as int) =~= Seq::<char>::empty());
    if started {
        text::add_text(&mut args, current);
    }
    assert(texts(args@) =~= goal);
    args
}

proof fn lemma_slashes_before(a: Seq<char>, t: Seq<char>)
    requires
        slashes(a) < a.len(),
    ensures
        slashes(a + t) == slashes(a),
        a.take(slashes(a) as int) == backslashes(slashes(a)),
    decreases a.len(),
{
    if a[0] == '\\' {
        let b = a.drop_first();
        assert((a + t).drop_first() =~= b + t);
        lemma_slashes_before(b, t);
        let n = slashes(a) as int;
        assert forall|i: int| 0 <= i < n implies a.take(n)[i] == backslashes(n as nat)[i] by {
            if i > 0 {
                assert(a.take(n)[i] == b.take(n - 1)[i - 1]);
            }
        }
    }
    assert(a.take(slashes(a) as int) =~= backslashes(slashes(a)));
}

/// An argument that may stand between quotes as it is.
pub open spec fn plain_argument(a: Seq<char>) -> bool {
    &&& forall|i: int| 0 <= i < a.len() ==> a[i] != '"'
    &&& a.len() > 0 ==> a.last() != '\\'
}

proof fn lemma_reads_quoted(a: Seq<char>, rest: Seq<char>, c: Seq<char>)
    requires
        plain_argument(a),
        rest.len() > 0 ==> rest[0] != '"',
    ensures
        arguments(a + seq!['"'] + rest, true, Some(c)) == arguments(rest, false, Some(c + a)),
    decreases a.len(),
{
    let s = a + seq!['"'] + rest;
    lemma_slashes(a);
    if a.len() == 0 {
        assert(s[0] == '"');
        assert(slashes(s) == 0);
        assert(s.skip(1) =~= rest);
        assert(rest.len() > 0 ==> s[1] == rest[0]);
        assert(c + backslashes(0) =~= c);
        assert(c + a =~= c);
    } else {
        let n = slashes(a);
        if n == a.len() {
            lemma_all_slashes(a);
        }
        lemma_slashes_before(a, seq!['"'] + rest);
        assert(s =~= a + (seq!['"'] + rest));
        assert(s[n as int] == a[n as int]);
        let k: int = if n > 0 {
            n as int
        } else {
            1
        };
        let b = a.skip(k);
        assert(s.skip(k) =~= b + seq!['"'] + rest);
        assert(b.len() > 0 ==> b.last() == a.last());
        assert(forall|i: int| 0 <= i < b.len() ==> b[i] == a[i + k]);
        lemma_reads_quoted(b, rest, c + a.take(k));
        assert(c + a.take(k) + b =~= c + a);
        if n == 0 {
            assert(s[0] == a[0]);
            assert(a.take(1) =~= seq![a[0]]);
        }
    }
}

proof fn lemma_all_slashes(a: Seq<char>)
    requires
        slashes(a) == a.len(),
        a.len() > 0,
    ensures
        a.last() == '\\',
    decreases a.len(),
{
    if a.len() > 1 {
        lemma_all_slashes(a.drop_first());
    }
}

/// A command line as it is written from its arguments, each in quotes.
pub open spec fn written_line(args: Seq<Seq<char>>) -> Seq<char>
    decreases args.len(),
{
    if args.len() == 0 {
        Seq::empty()
    } else if args.len() == 1 {
        seq!['"'] + args[0] + seq!['"']
    } else {
        seq!['"'] + args[0] + seq!['"'] + seq![' '] + written_line(args.drop_first())
    }
}

/// A command line written with every argument in quotes reads back as those
/// arguments: spaces, backslashes inside and empty ones are kept as they are.
pub proof fn law_command_line_round_trip(args: Seq<Seq<char>>)
    requires
        forall|i: int| 0 <= i < args.len() ==> plain_argument(#[trigger] args[i]),
    ensures
        arguments(written_line(args), false, None) == args,
    decreases args.len(),
{
    let s = written_line(args);
    if args.len() == 0 {
        assert(args =~= Seq::<Seq<char>>::empty());
    } else {
        let a = args[0];
        let rest = if args.len() == 1 {
            Seq::<char>::empty()
        } else {
            seq![' '] + written_line(args.drop_first())
        };
        let body = a + seq!['"'] + rest;
        assert(s =~= seq!['"'] + body);
        assert(s[0] == '"');
        assert(slashes(s) == 0);
        assert(s.skip(1) =~= body);
        assert(backslashes(0) =~= Seq::<char>::empty());
        lemma_reads_quoted(a, rest, Seq::empty());
        assert(Seq::<char>::empty() + a =~= a);
        assert(arguments(s, false, None) == arguments(rest, false, Some(a)));
        if args.len() == 1 {
            assert(args =~= seq![a]);
        } else {
            let tail = args.drop_first();
            assert forall|i: int| 0 <= i < tail.len() implies plain_argument(#[trigger] tail[i]) by {
                assert(tail[i] == args[i + 1]);
            }
            law_command_line_round_trip(tail);
            assert(rest[0] == ' ');
            assert(slashes(rest) == 0);
            assert(rest.skip(1) =~= written_line(tail));
            assert(args =~= seq![a] + tail);
        }
    }
}

// ---------------------------------------------------------------------------
// Tables
// ---------------------------------------------------------------------------

/// The fields of one line, from the place where `cur` is being read. Inside
/// quotes a comma is text and two quotes are one.
pub open spec fn fields(s: Seq<char>, quoted: bool, cur: Seq<char>) -> Seq<Seq<char>>
    decreases s.len(),
{
    if s.len() == 0 {
        seq![cur]
    } else if s[0] == '"' && quoted && s.len() > 1 && s[1] == '"' {
        fields(s.skip(2), quoted, cur.push('"'))
    } else if s[0] == '"' {
        fields(s.skip(1), !quoted, cur)
    } else if s[0] == ',' && !quoted {
        seq![cur] + fields(s.skip(1), quoted, Seq::empty())
    } else {
        fields(s.skip(1), quoted, cur.push(s[0]))
    }
}

pub fn csv_row(line: &str) -> (r: Vec<String>)
    ensures
        texts(r@) == fields(line@, false, Seq::empty()),
{
    let v = chars_of(line);
    let total: usize = v.len();
    let mut out = text::no_texts();
    let mut current = String::new();
    let mut in_quotes = false;
    let mut i: usize = 0;
    let ghost goal = fields(line@, false, Seq::empty());
    assert(v@.skip(0) =~= v@);
    assert(texts(out@) + goal =~= goal);
    while i < total
        invariant
            total == v@.len(),
            i <= total,
            goal == texts(out@) + fields(v@.skip(i as int), in_quotes, current@),
        decreases total - i,
    {
        let ghost s = v@.skip(i as int);
        let c = v[i];
        assert(s[0] == c);
        assert(s.skip(1) =~= v@.skip(i + 1));
        if c == '"' && in_quotes && i + 1 < total && v[i + 1] == '"' {
            assert(s[1] == v@[i + 1]);
            assert(s.skip(2) =~= v@.skip(i + 2));
            current.push('"');
            i = i + 2;
        } else {
            assert(s.len() > 1 ==> s[1] == v@[i + 1]);
            if c == '"' {
                in_quotes = !in_quotes;
            } else if c == ',' && !in_quotes {
                text::add_text(&mut out, current);
                current = String::new();
                assert(goal =~= texts(out@) + fields(v@.skip(i + 1), in_quotes, current@));
            } else {
                current.push(c);
            }
            i = i + 1;
        }
    }
    assert(v@.skip(total as int) =~= Seq::<char>::empty());
    text::add_text(&mut out, current);
    assert(texts(out@) =~= goal);
    out
}

/// A field with each quote doubled.
pub open spec fn doubled(s: Seq<char>) -> Seq<char>
    decreases s.len(),
{
    if s.len() == 0 {
        Seq::empty()
    } else if s[0] == '"' {
        seq!['"', '"'] + doubled(s.drop_first())
    } else {
        seq![s[0]] + doubled(s.drop_first())
    }
}

/// A field as it is written in a table.
pub open spec fn quoted_field(s: Seq<char>) -> Seq<char> {
    seq!['"'] + doubled(s) + seq!['"']
}

proof fn lemma_reads_doubled(s: Seq<char>, rest: Seq<char>, cur: Seq<char>)
    requires
        rest.len() > 0 ==> rest[0] != '"',
    ensures
        fields(doubled(s) + seq!['"'] + rest, true, cur) == fields(rest, false, cur + s),
    decreases s.len(),
{
    let t = doubled(s) + seq!['"'] + rest;
    if s.len() == 0 {
        assert(t =~= seq!['"'] + rest);
        assert(t.skip(1) =~= rest);
        assert(t.len() > 1 ==> t[1] == rest[0]);
        assert(cur + s =~= cur);
    } else {
        let tail = doubled(s.drop_first()) + seq!['"'] + rest;
        if s[0] == '"' {
            assert(t =~= seq!['"', '"'] + tail);
            assert(t.skip(2) =~= tail);
        } else {
            assert(t =~= seq![s[0]] + tail);
            assert(t.skip(1) =~= tail);
        }
        lemma_reads_doubled(s.drop_first(), rest, cur.push(s[0]));
        assert(cur.push(s[0]) + s.drop_first() =~= cur + s);
    }
}

/// A line as it is written from its fields.
pub open spec fn written_row(fs: Seq<Seq<char>>) -> Seq<char>
    decreases fs.len(),
{
    if fs.len() == 0 {
        Seq::empty()
    } else if fs.len() == 1 {
        quoted_field(fs[0])
    } else {
        quoted_field(fs[0]) + seq![','] + written_row(fs.drop_first())
    }
}

/// A line written with every field in quotes reads back as those fields,
/// whatever they hold: commas, quotes or nothing.
pub proof fn law_csv_round_trip(fs: Seq<Seq<char>>)
    requires
        fs.len() > 0,
    ensures
        fields(written_row(fs), false, Seq::empty()) == fs,
    decreases fs.len(),
{
    let s = written_row(fs);
    let f = fs[0];
    let rest = if fs.len() == 1 {
        Seq::<char>::empty()
    } else {
        seq![','] + written_row(fs.drop_first())
    };
    let body = doubled(f) + seq!['"'] + rest;
    assert(s =~= seq!['"'] + body);
    assert(s.skip(1) =~= body);
    lemma_reads_doubled(f, rest, Seq::empty());
    assert(Seq::<char>::empty() + f =~= f);
    assert(fields(s, false, Seq::empty()) == fields(rest, false, f));
    if fs.len() == 1 {
        assert(fields(rest, false, f) =~= seq![f]);
        assert(fs =~= seq![f]);
    } else {
        law_csv_round_trip(fs.drop_first());
        assert(rest.skip(1) =~= written_row(fs.drop_first()));
        assert(fs =~= seq![f] + fs.drop_first());
    }
}

/// The lines of a table that say something.
pub open spec fn said(ls: Seq<Seq<char>>) -> Seq<Seq<char>>
    decreases ls.len(),
{
    if ls.len() == 0 {
        ls
    } else if trimmed(ls.last()).len() == 0 {
        said(ls.drop_last())
    } else {
        said(ls.drop_last()).push(ls.last())
    }
}

/// Two lists side by side, as long as the shorter one.
pub open spec fn paired(a: Seq<Seq<char>>, b: Seq<Seq<char>>) -> Seq<(Seq<char>, Seq<char>)> {
    Seq::new(
        if a.len() < b.len() {
            a.len()
        } else {
            b.len()
        },
        |i: int| (a[i], b[i]),
    )
}

/// A row's headers and values as text.
pub open spec fn row_texts(row: Seq<(String, String)>) -> Seq<(Seq<char>, Seq<char>)> {
    row.map_values(|p: (String, String)| (p.0@, p.1@))
}

/// The rows of a table, each field under its header.
pub open spec fn table(raw: Seq<char>) -> Seq<Seq<(Seq<char>, Seq<char>)>> {
    let ls = said(lines(raw));
    if ls.len() == 0 {
        Seq::empty()
    } else {
        let header = fields(ls[0], false, Seq::empty());
        Seq::new(
            (ls.len() - 1) as nat,
            |i: int| paired(header, fields(ls[i + 1], false, Seq::empty())),
        )
    }
}

fn said_lines(raw: &str) -> (r: Vec<String>)
    ensures
        texts(r@) == said(lines(raw@)),
{
    let all = split::split_lines(raw);
    let ghost ls = texts(all@);
    let mut out = text::no_texts();
    let mut i: usize = 0;
    assert(ls.take(0) =~= Seq::<Seq<char>>::empty());
    while i < all.len()
        invariant
            i <= all@.len(),
            ls == texts(all@),
            texts(out@) == said(ls.take(i as int)),
        decreases all@.len() - i,
    {
        assert(ls.take(i + 1).drop_last() =~= ls.take(i as int));
        assert(ls.take(i + 1).last() == all@[i as int]@);
        if !text::trim(all[i].as_str()).as_str().is_empty() {
            text::add_text(&mut out, all[i].clone());
        }
        i = i + 1;
    }
    assert(ls.take(i as int) =~= ls);
    out
}

fn pair_up(header: &Vec<String>, row: &Vec<String>) -> (r: Vec<(String, String)>)
    ensures
        row_texts(r@) == paired(texts(header@), texts(row@)),
{
    let mut out: Vec<(String, String)> = Vec::new();
    let mut i: usize = 0;
    while i < header.len() && i < row.len()
        invariant
            i <= header@.len(),
            i <= row@.len(),
            out@.len() == i,
            forall|k: int|
                0 <= k < i ==> (#[trigger] out@[k]).0@ == header@[k]@ && out@[k].1@ == row@[k]@,
        decreases header@.len() - i,
    {
        out.push((header[i].clone(), row[i].clone()));
        i = i + 1;
    }
    assert(row_texts(out@) =~= paired(texts(header@), texts(row@)));
    out
}

/// The rows of a `ConvertTo-Csv -NoTypeInformation` table, as
/// `(header, value)` pairs per row.
///
/// PowerShell quotes every field and doubles a quote inside one; there are no
/// backslash rules in it at all.
pub fn parse_csv(raw: &str) -> (r: Vec<Vec<(String, String)>>)
    ensures
        r@.len() == table(raw@).len(),
        forall|i: int| 0 <= i < r@.len() ==> row_texts((#[trigger] r@[i])@) == table(raw@)[i],
{
    let ls = said_lines(raw);
    let ghost all = texts(ls@);
    let mut out: Vec<Vec<(String, String)>> = Vec::new();
    if ls.len() == 0 {
        return out;
    }
    assert(all[0] == ls@[0]@);
    let header = csv_row(ls[0].as_str());
    let mut i: usize = 1;
    while i < ls.len()
        invariant
            1 <= i <= ls@.len(),
            all == texts(ls@),
            all == said(lines(raw@)),
            texts(header@) == fields(all[0], false, Seq::empty()),
            out@.len() == i - 1,
            forall|k: int| 0 <= k < out@.len() ==> row_texts((#[trigger] out@[k])@) == table(raw@)[k],
        decreases ls@.len() - i,
    {
        assert(all[i as int] == ls@[i as int]@);
        let row = csv_row(ls[i].as_str());
        out.push(pair_up(&header, &row));
        i = i + 1;
    }
    out
}

pub open spec fn header_is(key: Seq<char>) -> spec_fn((String, String)) -> bool {
    |f: (String, String)| same_but_case(f.0@, key)
}

/// The value of one column of a row, whatever the case of its name; an empty
/// one counts as absent.
pub open spec fn column(row: Seq<(String, String)>, key: Seq<char>) -> Option<Seq<char>> {
    let i = first_where(row, header_is(key));
    if i < row.len() && row[i].1@.len() > 0 {
        Some(row[i].1@)
    } else {
        None
    }
}

/// The value of one column of a row read by [`parse_csv`].
pub fn csv_field<'a>(row: &'a [(String, String)], key: &str) -> (r: Option<&'a str>)
    ensures
        r is Some <==> column(row@, key@) is Some,
        r is Some ==> r->0@ == column(row@, key@)->0,
{
    let ghost p = header_is(key@);
    let mut i: usize = 0;
    while i < row.len()
        invariant
            i <= row@.len(),
            p == header_is(key@),
            forall|j: int| 0 <= j < i ==> !p(#[trigger] row@[j]),
        decreases row@.len() - i,
    {
        if text::same_ignoring_case(row[i].0.as_str(), key) {
            proof {
                lemma_first_where_is(row@, p, i as int);
            }
            return if row[i].1.as_str().is_empty() {
                None
            } else {
                Some(row[i].1.as_str())
            };
        }
        i = i + 1;
    }
    proof {
        lemma_first_where_is(row@, p, i as int);
    }
    None
}

}
