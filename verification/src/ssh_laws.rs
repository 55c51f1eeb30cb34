//! What ssh, sftp and the terminals are told, held against the host's record.

use vstd::prelude::*;
use crate::list::lemma_first_where;
use crate::number::{law_number_round_trip, parsed};
use crate::path::{drive_len, is_sep, under_home, Os};
use crate::sftp;
use crate::split::{occurs, replaced, starts, words};
use crate::ssh::{
    after_ssh, all_quoted, connection_of, has_placeholder, launch_of,
    law_quoting_survives_the_shell, password_env_of, preview_of, program_among, quoted, script_of,
    shell_reads, terminals, transfer_of, window_args_of, with_script, Machine, PasswordHelper,
};
use crate::text::{joined, trimmed};
use crate::types::SshHost;

verus! {

// ---------------------------------------------------------------------------
// Reaching a host
// ---------------------------------------------------------------------------

/// The `k`-th option of a command line whose options each take one value.
pub open spec fn option_at(own: Seq<Seq<char>>, k: int, flag: Seq<char>, value: Seq<char>) -> bool {
    &&& 0 <= k && 2 * k + 1 < own.len()
    &&& own[2 * k] == flag
    &&& own[2 * k + 1] == value
}

/// One of the options is `-o` with this setting.
pub open spec fn sets(own: Seq<Seq<char>>, setting: Seq<char>) -> bool {
    exists|k: int| option_at(own, k, "-o"@, setting)
}

/// One of the options names a key file.
pub open spec fn names_key(own: Seq<Seq<char>>, file: Seq<char>) -> bool {
    exists|k: int| option_at(own, k, "-i"@, file)
}

/// The options say what the record says: the port where it is not the usual one,
/// the key file and no other key, whether host keys are checked, and that a stored
/// password is tried once.
pub open spec fn options_say(
    own: Seq<Seq<char>>,
    m: Machine,
    h: SshHost,
    port_flag: Seq<char>,
) -> bool {
    &&& own.len() % 2 == 0
    &&& h.port != 22 ==> own.len() >= 2 && own[0] == port_flag && parsed(own[1], 65535) == Some(
        h.port as nat,
    )
    &&& h.port == 22 ==> own.len() == 0 || own[0] != port_flag
    &&& h.key_path@.len() > 0 ==> names_key(own, under_home(m.os, h.key_path@, m.home_spec()))
    &&& h.key_path@.len() == 0 ==> forall|f: Seq<char>| !names_key(own, f)
    &&& sets(own, "IdentitiesOnly=yes"@) <==> h.key_path@.len() > 0
    &&& sets(own, "StrictHostKeyChecking=no"@) <==> h.skip_host_key_check
    &&& sets(own, "NumberOfPasswordPrompts=1"@) <==> h.password@.len() > 0
}

/// What of a host's options comes out of its own fields.
spec fn own_options(m: Machine, h: SshHost) -> Seq<Seq<char>> {
    connection_of(m, h).take(connection_of(m, h).len() - words(h.extra_args@).len())
}

#[verifier::rlimit(60)]
proof fn lemma_own_options(m: Machine, h: SshHost)
    ensures
        options_say(own_options(m, h), m, h, "-p"@),
        h.port != 22 ==> options_say(own_options(m, h).update(0, "-P"@), m, h, "-P"@),
        h.port == 22 ==> options_say(own_options(m, h), m, h, "-P"@),
        connection_of(m, h) == own_options(m, h) + words(h.extra_args@),
{
    let own = own_options(m, h);
    assert(connection_of(m, h) =~= own + words(h.extra_args@));
    law_number_round_trip(h.port as nat, 65535);
    reveal_strlit("-p");
    reveal_strlit("-P");
    reveal_strlit("-i");
    reveal_strlit("-o");
    reveal_strlit("IdentitiesOnly=yes");
    reveal_strlit("StrictHostKeyChecking=no");
    reveal_strlit("NumberOfPasswordPrompts=1");
    reveal_strlit("LogLevel=ERROR");
    reveal_strlit("UserKnownHostsFile=");
    assert("-p"@[1] == 'p' && "-P"@[1] == 'P' && "-i"@[1] == 'i' && "-o"@[1] == 'o');
    assert("IdentitiesOnly=yes"@[0] == 'I' && "StrictHostKeyChecking=no"@[0] == 'S'
        && "NumberOfPasswordPrompts=1"@[0] == 'N' && "LogLevel=ERROR"@[0] == 'L');
    let known = "UserKnownHostsFile="@ + crate::platform::null_device_text(m.os);
    assert(known[0] == 'U');
    let key = under_home(m.os, h.key_path@, m.home_spec());
    let a: int = if h.port != 22 { 1 } else { 0 };
    let b: int = if h.key_path@.len() > 0 { a + 2 } else { a };
    let c: int = if h.skip_host_key_check { b + 3 } else { b };
    let d: int = if h.password@.len() > 0 { c + 1 } else { c };
    assert(own.len() == 2 * d);
    if h.key_path@.len() > 0 {
        assert(own[2 * a] == "-i"@ && own[2 * a + 1] == key);
        assert(own[2 * (a + 1)] == "-o"@ && own[2 * (a + 1) + 1] == "IdentitiesOnly=yes"@);
    }
    if h.skip_host_key_check {
        assert(own[2 * b] == "-o"@ && own[2 * b + 1] == "StrictHostKeyChecking=no"@);
        assert(own[2 * (b + 1)] == "-o"@ && own[2 * (b + 1) + 1] == known);
        assert(own[2 * (b + 2)] == "-o"@ && own[2 * (b + 2) + 1] == "LogLevel=ERROR"@);
    }
    if h.password@.len() > 0 {
        assert(own[2 * c] == "-o"@ && own[2 * c + 1] == "NumberOfPasswordPrompts=1"@);
    }
    lemma_says(own, m, h, "-p"@, a, b, c, d);
    if h.port != 22 {
        lemma_says(own.update(0, "-P"@), m, h, "-P"@, a, b, c, d);
    } else {
        lemma_says(own, m, h, "-P"@, a, b, c, d);
    }
}

#[verifier::rlimit(60)]
proof fn lemma_says(
    own: Seq<Seq<char>>,
    m: Machine,
    h: SshHost,
    flag: Seq<char>,
    a: int,
    b: int,
    c: int,
    d: int,
)
    requires
        own.len() == 2 * d,
        a == if h.port != 22 { 1int } else { 0int },
        b == if h.key_path@.len() > 0 { a + 2 } else { a },
        c == if h.skip_host_key_check { b + 3 } else { b },
        d == if h.password@.len() > 0 { c + 1 } else { c },
        flag.len() == 2 && (flag[1] == 'p' || flag[1] == 'P'),
        h.port != 22 ==> own[0] == flag && parsed(own[1], 65535) == Some(h.port as nat),
        b > a ==> own[2 * a] == "-i"@ && own[2 * a + 1] == under_home(
            m.os,
            h.key_path@,
            m.home_spec(),
        ) && own[2 * (a + 1)] == "-o"@ && own[2 * (a + 1) + 1] == "IdentitiesOnly=yes"@,
        c > b ==> own[2 * b] == "-o"@ && own[2 * b + 1] == "StrictHostKeyChecking=no"@
            && own[2 * (b + 1)] == "-o"@ && own[2 * (b + 1) + 1].len() > 0 && own[2 * (b + 1)
            + 1][0] == 'U' && own[2 * (b + 2)] == "-o"@ && own[2 * (b + 2) + 1]
            == "LogLevel=ERROR"@,
        d > c ==> own[2 * c] == "-o"@ && own[2 * c + 1] == "NumberOfPasswordPrompts=1"@,
    ensures
        options_say(own, m, h, flag),
{
    reveal_strlit("-i");
    reveal_strlit("-o");
    reveal_strlit("IdentitiesOnly=yes");
    reveal_strlit("StrictHostKeyChecking=no");
    reveal_strlit("NumberOfPasswordPrompts=1");
    reveal_strlit("LogLevel=ERROR");
    assert("-i"@[1] == 'i' && "-o"@[1] == 'o');
    assert("IdentitiesOnly=yes"@[0] == 'I' && "StrictHostKeyChecking=no"@[0] == 'S'
        && "NumberOfPasswordPrompts=1"@[0] == 'N' && "LogLevel=ERROR"@[0] == 'L');
    let key = under_home(m.os, h.key_path@, m.home_spec());
    assert forall|k: int, v: Seq<char>| #[trigger] option_at(own, k, "-o"@, v) implies {
        ||| b > a && k == a + 1 && v == "IdentitiesOnly=yes"@
        ||| c > b && k == b && v == "StrictHostKeyChecking=no"@
        ||| c > b && k == b + 1 && v.len() > 0 && v[0] == 'U'
        ||| c > b && k == b + 2 && v == "LogLevel=ERROR"@
        ||| d > c && k == c && v == "NumberOfPasswordPrompts=1"@
    } by {
        assert(0 <= k < d);
        if k < a {
            assert(own[2 * k] == flag);
        } else if k < b {
            assert(k == a || k == a + 1);
        } else if k < c {
            assert(k == b || k == b + 1 || k == b + 2);
        }
    }
    assert forall|k: int, v: Seq<char>| #[trigger] option_at(own, k, "-i"@, v) implies b > a by {
        assert(0 <= k < d);
        if b == a {
            if k < a {
                assert(own[2 * k] == flag);
            } else if k < c {
                assert(k == b || k == b + 1 || k == b + 2);
            }
        }
    }
    if b > a {
        assert(option_at(own, a, "-i"@, key));
        assert(option_at(own, a + 1, "-o"@, "IdentitiesOnly=yes"@));
    }
    if c > b {
        assert(option_at(own, b, "-o"@, "StrictHostKeyChecking=no"@));
    }
    if d > c {
        assert(option_at(own, c, "-o"@, "NumberOfPasswordPrompts=1"@));
    }
    if h.port == 22 && own.len() > 0 {
        assert(own[0] == "-i"@ || own[0] == "-o"@);
    }
}

/// The login a host's record names: its user, where it has one, at its host.
pub open spec fn names_login(dest: Seq<char>, h: SshHost) -> bool {
    &&& h.username@.len() == 0 ==> dest == h.host@
    &&& h.username@.len() > 0 ==> dest == h.username@ + seq!['@'] + h.host@
}

/// A session's command line runs ssh, through sshpass exactly where that carries
/// a stored password; its own options say what the record says, the extra
/// arguments follow as they were written, and the login comes last.
pub proof fn law_session_reaches_the_host(m: Machine, h: SshHost, helper: PasswordHelper)
    ensures
        ({
            let argv = preview_of(m, h, helper);
            let carried = h.password@.len() > 0 && helper is Sshpass;
            let n: int = if carried { 2 } else { 0 };
            let extra = words(h.extra_args@);
            let end = argv.len() - 1;
            &&& carried ==> argv[0] == "sshpass"@ && argv[1] == "-e"@
            &&& argv[n] == "ssh"@
            &&& n < end - extra.len()
            &&& options_say(argv.subrange(n + 1, end - extra.len()), m, h, "-p"@)
            &&& argv.subrange(end - extra.len(), end) == extra
            &&& names_login(argv[end], h)
        }),
{
    reveal_strlit("@");
    lemma_own_options(m, h);
    let argv = preview_of(m, h, helper);
    let n: int = if h.password@.len() > 0 && helper is Sshpass { 2 } else { 0 };
    let extra = words(h.extra_args@);
    let end = argv.len() - 1;
    assert(argv.subrange(n + 1, end - extra.len()) =~= own_options(m, h));
    assert(argv.subrange(end - extra.len(), end) =~= extra);
    assert("@"@ =~= seq!['@']);
}

/// A file session's command line is the same with sftp, which spells the port
/// `-P`; where no password is stored it must not ask for one.
pub proof fn law_file_session_reaches_the_host(m: Machine, h: SshHost, helper: PasswordHelper)
    ensures
        ({
            let argv = sftp::command_line_of(m, h, helper);
            let carried = h.password@.len() > 0 && helper is Sshpass;
            let n: int = if carried { 2 } else { 0 };
            let extra = words(h.extra_args@);
            let end = argv.len() - 1;
            let asks: int = if h.password@.len() > 0 { 0 } else { 2 };
            &&& carried ==> argv[0] == "sshpass"@ && argv[1] == "-e"@
            &&& argv[n] == "sftp"@
            &&& n < end - asks - extra.len()
            &&& options_say(argv.subrange(n + 1, end - asks - extra.len()), m, h, "-P"@)
            &&& argv.subrange(end - asks - extra.len(), end - asks) == extra
            &&& h.password@.len() == 0 ==> argv[end - 2] == "-o"@ && argv[end - 1]
                == "BatchMode=yes"@
            &&& names_login(argv[end], h)
        }),
{
    reveal_strlit("@");
    lemma_own_options(m, h);
    let argv = sftp::command_line_of(m, h, helper);
    let n: int = if h.password@.len() > 0 && helper is Sshpass { 2 } else { 0 };
    let extra = words(h.extra_args@);
    let end = argv.len() - 1;
    let asks: int = if h.password@.len() > 0 { 0 } else { 2 };
    let own = own_options(m, h);
    let told = if h.port != 22 { own.update(0, "-P"@) } else { own };
    assert(transfer_of(m, h) =~= told + extra);
    assert(argv.subrange(n + 1, end - asks - extra.len()) =~= told);
    assert(argv.subrange(end - asks - extra.len(), end - asks) =~= extra);
    assert("@"@ =~= seq!['@']);
}

/// A key file is named as it is configured; one under `~/` is looked for under the
/// home directory, where there is one.
pub proof fn law_key_file_is_the_configured_one(m: Machine, path: Seq<char>)
    ensures
        ({
            let named = under_home(m.os, path, m.home_spec());
            let rest = path.skip(2);
            &&& !starts(path, "~/"@) || m.home is None ==> named == path
            &&& starts(path, "~/"@) && m.home is Some && drive_len(m.os, rest) == 0 && (rest.len()
                == 0 || !is_sep(m.os, rest[0])) ==> {
                &&& starts(named, m.home->0@)
                &&& m.home->0@.len() + rest.len() <= named.len() <= m.home->0@.len() + 1
                    + rest.len()
                &&& named.skip(named.len() - rest.len()) == rest
            }
        }),
{
    reveal_strlit("/");
    reveal_strlit("\\");
    let named = under_home(m.os, path, m.home_spec());
    let rest = path.skip(2);
    if starts(path, "~/"@) && m.home is Some && drive_len(m.os, rest) == 0 && (rest.len() == 0
        || !is_sep(m.os, rest[0])) {
        let home = m.home->0@;
        assert(named.take(home.len() as int) =~= home);
        assert(named.skip(named.len() - rest.len()) =~= rest);
    }
}

/// The password travels in `SSHPASS` whole, and only where there is one; ssh is
/// pointed at the program that answers for it exactly where sshpass does not.
pub proof fn law_password_travels_in_the_environment(p: Seq<char>, helper: PasswordHelper)
    ensures
        ({
            let env = password_env_of(p, helper);
            &&& p.len() == 0 ==> env.len() == 0
            &&& p.len() > 0 ==> exists|i: int|
                0 <= i < env.len() && #[trigger] env[i] == ("SSHPASS"@, p)
            &&& p.len() > 0 && helper is Askpass ==> exists|i: int|
                0 <= i < env.len() && #[trigger] env[i] == ("SSH_ASKPASS"@, helper->Askpass_0@)
            &&& p.len() > 0 && helper is Askpass ==> exists|i: int|
                0 <= i < env.len() && #[trigger] env[i] == ("SSH_ASKPASS_REQUIRE"@, "force"@)
            &&& p.len() > 0 && !(helper is Askpass) ==> env.len() == 1
        }),
{
    let env = password_env_of(p, helper);
    if p.len() > 0 {
        assert(env[0] == (crate::ssh::PASSWORD_ENV@, p));
        if helper is Askpass {
            assert(env[1] == ("SSH_ASKPASS"@, helper->Askpass_0@));
            assert(env[2] == ("SSH_ASKPASS_REQUIRE"@, "force"@));
        }
    }
}

// ---------------------------------------------------------------------------
// Windows of their own
// ---------------------------------------------------------------------------

/// The shell of a Unix window reads back the very command line of the session,
/// word by word, before it does anything else.
pub proof fn law_window_runs_the_session(m: Machine, h: SshHost, helper: PasswordHelper)
    requires
        m.os == Os::Unix,
    ensures
        exists|ws: Seq<Seq<char>>| #[trigger]
            joined(ws, " "@) + after_ssh(Os::Unix) == script_of(m, h, helper) && ws.len()
                == preview_of(m, h, helper).len() && forall|i: int|
                0 <= i < ws.len() ==> shell_reads(#[trigger] ws[i], false) == Some(
                    preview_of(m, h, helper)[i],
                ),
{
    let argv = preview_of(m, h, helper);
    let front = crate::ssh::given(
        h.password@.len() > 0 && helper is Sshpass,
        seq!["sshpass"@, "-e"@],
    ) + seq!["ssh"@];
    let args = connection_of(m, h).push(h.destination_spec());
    let ws = front + all_quoted(m.os, args);
    let n = front.len() as int;
    lemma_plain_words();
    assert forall|i: int| 0 <= i < ws.len() implies shell_reads(#[trigger] ws[i], false) == Some(
        argv[i],
    ) by {
        if i < n {
            assert(argv[i] == front[i]);
            assert(front[i] == "sshpass"@ || front[i] == "-e"@ || front[i] == "ssh"@);
        } else {
            assert(argv[i] == args[i - n]);
            assert(ws[i] == quoted(m.os, args[i - n]));
            law_quoting_survives_the_shell(args[i - n]);
        }
    }
    assert(joined(ws, " "@) + after_ssh(Os::Unix) == script_of(m, h, helper));
}

proof fn lemma_plain_words()
    ensures
        shell_reads("ssh"@, false) == Some("ssh"@),
        shell_reads("sshpass"@, false) == Some("sshpass"@),
        shell_reads("-e"@, false) == Some("-e"@),
{
    reveal_strlit("ssh");
    reveal_strlit("sshpass");
    reveal_strlit("-e");
    law_quoting_survives_the_shell("ssh"@);
    law_quoting_survives_the_shell("sshpass"@);
    law_quoting_survives_the_shell("-e"@);
    assert(quoted(Os::Unix, "ssh"@) == "ssh"@);
    assert(quoted(Os::Unix, "sshpass"@) == "sshpass"@);
    assert(quoted(Os::Unix, "-e"@) == "-e"@);
}

proof fn lemma_replaced_nowhere(s: Seq<char>, p: Seq<char>, by: Seq<char>)
    requires
        !occurs(s, p),
    ensures
        replaced(s, p, by) == s,
    decreases s.len(),
{
    if s.len() > 0 && p.len() > 0 {
        if starts(s, p) {
            assert(s.subrange(0, p.len() as int) =~= s.take(p.len() as int));
            assert(crate::split::occurs_at(s, p, 0));
        }
        let t = s.drop_first();
        if occurs(t, p) {
            let i = choose|i: int| crate::split::occurs_at(t, p, i);
            assert(s.subrange(i + 1, i + 1 + p.len()) =~= t.subrange(i, i + p.len()));
            assert(crate::split::occurs_at(s, p, i + 1));
        }
        lemma_replaced_nowhere(t, p, by);
        assert(seq![s[0]] + t =~= s);
    }
}

/// A terminal that says where the command goes gets the script there and nothing
/// more; any other keeps its arguments and gets the script behind them, on Unix
/// for a shell to run. Arguments that name no place stay as they are.
pub proof fn law_terminal_is_handed_the_script(os: Os, args: Seq<Seq<char>>, script: Seq<char>)
    ensures
        ({
            let out = window_args_of(os, args, script);
            &&& has_placeholder(args) ==> out.len() == args.len()
            &&& !has_placeholder(args) ==> out.len() > args.len() && out.last() == script
            &&& !has_placeholder(args) && os == Os::Unix ==> out.len() == args.len() + 3
                && out[args.len() as int] == "sh"@ && out[args.len() as int + 1] == "-c"@
            &&& !has_placeholder(args) && os == Os::Windows ==> out.len() == args.len() + 1
            &&& forall|i: int|
                0 <= i < args.len() && !occurs(#[trigger] args[i], "{cmd}"@) ==> out[i] == args[i]
            &&& forall|i: int|
                0 <= i < args.len() && #[trigger] args[i] == "{cmd}"@ ==> out[i] == script
        }),
{
    let out = window_args_of(os, args, script);
    assert forall|i: int| 0 <= i < args.len() && !occurs(#[trigger] args[i], "{cmd}"@) implies out[i]
        == args[i] by {
        lemma_replaced_nowhere(args[i], "{cmd}"@, script);
        assert(with_script(args, script)[i] == replaced(args[i], "{cmd}"@, script));
    }
    assert forall|i: int| 0 <= i < args.len() && #[trigger] args[i] == "{cmd}"@ implies out[i]
        == script by {
        reveal_strlit("{cmd}");
        let p = "{cmd}"@;
        assert(p.take(p.len() as int) =~= p);
        assert(starts(p, p));
        assert(p.skip(p.len() as int) =~= Seq::<char>::empty());
        assert(replaced(p.skip(p.len() as int), p, script) =~= Seq::<char>::empty());
        assert(replaced(p, p, script) =~= script);
        assert(with_script(args, script)[i] == replaced(args[i], p, script));
    }
}

/// How sessions are opened follows the setting. `inline` stays in this terminal.
/// A command line is taken as it is written. `auto` opens the user's own terminal
/// where that is installed, otherwise one that is, and stays here only where none
/// of the known ones is installed.
pub proof fn law_terminal_preference_is_followed(
    os: Os,
    pref: Seq<char>,
    user: Option<Seq<char>>,
    found: Seq<Seq<char>>,
)
    ensures
        ({
            let r = launch_of(os, pref, user, found);
            let p = trimmed(pref);
            let auto = p.len() == 0 || p == "auto"@;
            let own = user is Some && words(user->0).len() > 0 && found.contains(words(user->0)[0]);
            &&& p == "inline"@ ==> r is None
            &&& p != "inline"@ && !auto && words(p).len() > 0 ==> r is Some
                && seq![r->0.program] + r->0.args == words(p)
            &&& auto && own ==> r is Some && r->0.program == words(user->0)[0]
            &&& auto && own && words(user->0).len() > 1 ==> seq![r->0.program] + r->0.args
                == words(user->0)
            &&& auto && r is Some ==> found.contains(r->0.program)
            &&& auto && r is None ==> forall|i: int|
                0 <= i < terminals(os).len() ==> !found.contains(
                    (#[trigger] terminals(os)[i]).program,
                )
        }),
{
    reveal_strlit("inline");
    reveal_strlit("auto");
    let r = launch_of(os, pref, user, found);
    let p = trimmed(pref);
    assert("inline"@.len() != "auto"@.len());
    if words(p).len() > 0 {
        assert(seq![words(p)[0]] + words(p).drop_first() =~= words(p));
    }
    if user is Some && words(user->0).len() > 0 {
        let ws = words(user->0);
        assert(seq![ws[0]] + ws.drop_first() =~= ws);
    }
    let q = program_among(found);
    lemma_first_where(terminals(os), q);
    assert forall|i: int| 0 <= i < terminals(os).len() && !q(terminals(os)[i]) implies !found.contains(
        (#[trigger] terminals(os)[i]).program,
    ) by {}
}

} // verus!
