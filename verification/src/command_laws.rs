//! What the command lines mean to the programs that read them: which port is
//! bound, which host is reached, which way a file is copied.
//!
//! Each law reads an argument the way the program does, and finds in it what was
//! configured.

use vstd::prelude::*;
use crate::list::{first_where, lemma_first_where};
use crate::number::{decimal, law_number_round_trip, lemma_decimal_reads_back, parsed};
use crate::rdp::{self, Client};
use crate::sftp::{command_of, quoted_path, Request};
use crate::split::{
    first_of, is_char, last_of, lemma_first_of_is, lemma_last_of_is, pieces, replaced, starts,
    words,
};
use crate::text::{is_digit, trimmed};
use crate::tunnel;
use crate::types::{ForwardType, RdpConnection, Tunnel};

verus! {

// ---------------------------------------------------------------------------
// Reading ports
// ---------------------------------------------------------------------------

/// A text that ends in a colon and a port, as `host:port` does.
pub open spec fn port_behind(s: Seq<char>) -> Option<nat> {
    let i = last_of(s, ':');
    if i < 0 {
        None
    } else {
        parsed(s.skip(i + 1), 65535)
    }
}

/// What stands in front of that colon.
pub open spec fn before_port(s: Seq<char>) -> Seq<char> {
    s.take(last_of(s, ':'))
}

/// A text that starts with a port and a colon, as `port:host:port` does.
pub open spec fn port_in_front(s: Seq<char>) -> Option<nat> {
    parsed(s.take(first_of(s, ':')), 65535)
}

/// What stands behind that colon.
pub open spec fn after_port(s: Seq<char>) -> Seq<char> {
    s.skip(first_of(s, ':') + 1)
}

pub proof fn lemma_port_behind(front: Seq<char>, port: u16)
    ensures
        port_behind(front + ":"@ + decimal(port as nat)) == Some(port as nat),
        before_port(front + ":"@ + decimal(port as nat)) == front,
{
    reveal_strlit(":");
    let d = decimal(port as nat);
    let s = front + ":"@ + d;
    lemma_decimal_reads_back(port as nat);
    law_number_round_trip(port as nat, 65535);
    let n = front.len() as int;
    assert(s[n] == ':');
    assert forall|i: int| n < i < s.len() implies s[i] != ':' by {
        assert(s[i] == d[i - n - 1]);
        assert(is_digit(d[i - n - 1]));
    }
    lemma_last_of_is(s, ':', n);
    assert(s.skip(n + 1) =~= d);
    assert(s.take(n) =~= front);
}

proof fn lemma_port_in_front(port: u16, rest: Seq<char>)
    ensures
        port_in_front(decimal(port as nat) + ":"@ + rest) == Some(port as nat),
        after_port(decimal(port as nat) + ":"@ + rest) == rest,
        first_of(decimal(port as nat) + ":"@ + rest, ':') == decimal(port as nat).len(),
{
    reveal_strlit(":");
    let d = decimal(port as nat);
    let s = d + ":"@ + rest;
    lemma_decimal_reads_back(port as nat);
    law_number_round_trip(port as nat, 65535);
    let n = d.len() as int;
    assert(s[n] == ':');
    assert forall|i: int| 0 <= i < n implies s[i] != ':' by {
        assert(s[i] == d[i]);
        assert(is_digit(d[i]));
    }
    lemma_first_of_is(s, ':', n);
    assert(s.take(n) =~= d);
    assert(s.skip(n + 1) =~= rest);
}

// ---------------------------------------------------------------------------
// Tunnels
// ---------------------------------------------------------------------------

/// An option stands among the arguments.
pub open spec fn has_option(args: Seq<Seq<char>>, option: Seq<char>) -> bool {
    exists|i: int|
        0 <= i && i + 1 < args.len() && #[trigger] args[i] == "-o"@ && args[i + 1] == option
}

/// A remote forward binds the port on the ssh host that the tunnel is said to
/// bind, and leads from there to the local port: the argument behind `-R` starts
/// with the one and ends with the other, and between them stands the host.
pub proof fn law_remote_forward_leads_here(t: Tunnel, internal: Option<u16>)
    requires
        t.forward == ForwardType::Remote,
    ensures
        ({
            let f = tunnel::forward_args(t, internal);
            let bound = f[1].take(first_of(f[1], ':'));
            &&& f.len() == 2 && f[0] == "-R"@
            &&& port_in_front(f[1]) == Some(t.remote_port as nat)
            &&& port_behind(f[1]) == Some(t.local_port as nat)
            &&& before_port(after_port(f[1])) == if t.remote_host@.len() == 0 {
                "127.0.0.1"@
            } else {
                t.remote_host@
            }
            &&& t.binding_spec() == "port "@ + bound + " on "@ + t.ssh_host@
        }),
{
    let f = tunnel::forward_args(t, internal);
    let host = if t.remote_host@.len() == 0 {
        "127.0.0.1"@
    } else {
        t.remote_host@
    };
    let rest = host + ":"@ + decimal(t.local_port as nat);
    let d = decimal(t.remote_port as nat);
    assert(f[1] =~= d + ":"@ + rest);
    assert(f[1] =~= (d + ":"@ + host) + ":"@ + decimal(t.local_port as nat));
    lemma_port_in_front(t.remote_port, rest);
    lemma_port_behind(host, t.local_port);
    lemma_port_behind(d + ":"@ + host, t.local_port);
    assert(f[1].take(d.len() as int) =~= d);
}

/// Two remote forwards that bind another port are told another port, and so are
/// two that lead to another port.
pub proof fn law_remote_forwards_differ(a: Tunnel, b: Tunnel, p: Option<u16>, q: Option<u16>)
    requires
        a.forward == ForwardType::Remote && b.forward == ForwardType::Remote,
    ensures
        a.remote_port != b.remote_port ==> port_in_front(tunnel::forward_args(a, p)[1])
            != port_in_front(tunnel::forward_args(b, q)[1]),
        a.local_port != b.local_port ==> port_behind(tunnel::forward_args(a, p)[1])
            != port_behind(tunnel::forward_args(b, q)[1]),
{
    law_remote_forward_leads_here(a, p);
    law_remote_forward_leads_here(b, q);
}

/// A local forward listens on this machine only, on the port ssh was given, and
/// leads to the destination as the ssh host sees it.
pub proof fn law_local_forward_leads_there(t: Tunnel, internal: u16)
    requires
        t.forward == ForwardType::Local,
    ensures
        ({
            let f = tunnel::forward_args(t, Some(internal));
            let rest = f[1].skip("127.0.0.1:"@.len() as int);
            &&& f.len() == 2 && f[0] == "-L"@
            &&& starts(f[1], "127.0.0.1:"@)
            &&& port_in_front(rest) == Some(internal as nat)
            &&& before_port(after_port(rest)) == t.remote_host@
            &&& port_behind(f[1]) == Some(t.remote_port as nat)
        }),
{
    reveal_strlit("127.0.0.1:");
    reveal_strlit("127.0.0.1");
    reveal_strlit(":");
    let f = tunnel::forward_args(t, Some(internal));
    let d = decimal(internal as nat);
    let last = t.remote_host@ + ":"@ + decimal(t.remote_port as nat);
    assert(f[1] =~= "127.0.0.1:"@ + (d + ":"@ + last));
    assert(f[1].skip(10) =~= d + ":"@ + last);
    assert(f[1].take(10) =~= "127.0.0.1:"@);
    lemma_port_in_front(internal, last);
    lemma_port_behind(t.remote_host@, t.remote_port);
    let front = "127.0.0.1:"@ + d + ":"@ + t.remote_host@;
    assert(f[1] =~= front + ":"@ + decimal(t.remote_port as nat));
    lemma_port_behind(front, t.remote_port);
}

/// A dynamic forward is a proxy that listens on this machine only, on the port
/// ssh was given.
pub proof fn law_dynamic_forward_listens_here(t: Tunnel, internal: u16)
    requires
        t.forward == ForwardType::Dynamic,
    ensures
        ({
            let f = tunnel::forward_args(t, Some(internal));
            &&& f.len() == 2 && f[0] == "-D"@
            &&& before_port(f[1]) == "127.0.0.1"@
            &&& port_behind(f[1]) == Some(internal as nat)
        }),
{
    reveal_strlit("127.0.0.1:");
    reveal_strlit("127.0.0.1");
    reveal_strlit(":");
    let f = tunnel::forward_args(t, Some(internal));
    assert(f[1] =~= "127.0.0.1"@ + ":"@ + decimal(internal as nat));
    lemma_port_behind("127.0.0.1"@, internal);
}

/// A tunnel's command line runs ssh without a command, without a question and
/// without a forward that failed, hands on the user's own arguments, and names
/// the host last.
pub proof fn law_tunnel_command_line(t: Tunnel, internal: Option<u16>)
    ensures
        ({
            let args = tunnel::args_of(t, internal);
            let extra = words(t.extra_args@);
            let end = args.len() - 1;
            &&& args[0] == "ssh"@ && args[1] == "-N"@
            &&& has_option(args, "BatchMode=yes"@)
            &&& has_option(args, "ExitOnForwardFailure=yes"@)
            &&& args[end] == t.ssh_host@
            &&& args.subrange(end - extra.len(), end) == extra
            &&& args.subrange(end - extra.len() - 2, end - extra.len()) == tunnel::forward_args(
                t,
                internal,
            )
        }),
{
    let args = tunnel::args_of(t, internal);
    let extra = words(t.extra_args@);
    let end = args.len() - 1;
    assert(tunnel::forward_args(t, internal).len() == 2);
    assert(args[2] == "-o"@ && args[3] == "BatchMode=yes"@);
    assert(args[4] == "-o"@ && args[5] == "ExitOnForwardFailure=yes"@);
    assert(args.subrange(end - extra.len(), end) =~= extra);
    assert(args.subrange(end - extra.len() - 2, end - extra.len()) =~= tunnel::forward_args(
        t,
        internal,
    ));
}

// ---------------------------------------------------------------------------
// RDP
// ---------------------------------------------------------------------------

/// Both clients are told to connect to the connection's own host and port: the
/// address behind `/v:` and the one in the generated file are the same, and read
/// as that host and that port.
pub proof fn law_rdp_reaches_the_target(
    c: RdpConnection,
    file: Option<Seq<char>>,
    sealed: Option<Seq<char>>,
)
    ensures
        ({
            let v = rdp::args_of(c, Client::Freerdp, file)[1];
            let line = rdp::generated(c, sealed)[0];
            let to = v.skip("/v:"@.len() as int);
            &&& starts(v, "/v:"@)
            &&& before_port(to) == c.host@
            &&& port_behind(to) == Some(c.port as nat)
            &&& starts(line, "full address:s:"@)
            &&& line.skip("full address:s:"@.len() as int) == to
        }),
{
    let v = rdp::args_of(c, Client::Freerdp, file)[1];
    let line = rdp::generated(c, sealed)[0];
    let to = c.host@ + ":"@ + decimal(c.port as nat);
    assert(v =~= "/v:"@ + to);
    assert(v.take("/v:"@.len() as int) =~= "/v:"@);
    assert(v.skip("/v:"@.len() as int) =~= to);
    assert(line =~= "full address:s:"@ + to);
    assert(line.take("full address:s:"@.len() as int) =~= "full address:s:"@);
    assert(line.skip("full address:s:"@.len() as int) =~= to);
    lemma_port_behind(c.host@, c.port);
}

/// Connections that differ in host or port are opened with different command
/// lines and different files.
pub proof fn law_rdp_targets_differ(a: RdpConnection, b: RdpConnection, sealed: Option<Seq<char>>)
    requires
        a.host@ != b.host@ || a.port != b.port,
    ensures
        rdp::args_of(a, Client::Freerdp, None) != rdp::args_of(b, Client::Freerdp, None),
        rdp::generated(a, sealed) != rdp::generated(b, sealed),
{
    law_rdp_reaches_the_target(a, None, sealed);
    law_rdp_reaches_the_target(b, None, sealed);
}

/// The login is handed over as it is configured: xfreerdp is told the user, and
/// the domain where there is one, and mstsc finds both in one line.
pub proof fn law_rdp_login(c: RdpConnection, file: Option<Seq<char>>, sealed: Option<Seq<char>>)
    ensures
        ({
            let args = rdp::args_of(c, Client::Freerdp, file);
            let line = rdp::generated(c, sealed)[1];
            let extra = words(c.extra_args@);
            let own = args.take(args.len() - extra.len());
            &&& args[0] == "xfreerdp3"@
            &&& args.skip(own.len() as int) == extra
            &&& starts(own[2], "/u:"@) && own[2].skip("/u:"@.len() as int) == c.username@
            &&& own.contains("/from-stdin"@)
            &&& c.domain@.len() == 0 ==> own.len() == 6
            &&& c.domain@.len() > 0 ==> own.len() == 7 && starts(own[6], "/d:"@) && own[6].skip(
                "/d:"@.len() as int,
            ) == c.domain@
            &&& starts(line, "username:s:"@)
            &&& c.domain@.len() == 0 ==> line.skip("username:s:"@.len() as int) == c.username@
            &&& c.domain@.len() > 0 ==> line.skip("username:s:"@.len() as int) == c.domain@
                + "\\"@ + c.username@
        }),
{
    let args = rdp::args_of(c, Client::Freerdp, file);
    let line = rdp::generated(c, sealed)[1];
    let extra = words(c.extra_args@);
    let own = args.take(args.len() - extra.len());
    assert(args.skip(own.len() as int) =~= extra);
    assert(own[2].take("/u:"@.len() as int) =~= "/u:"@);
    assert(own[2].skip("/u:"@.len() as int) =~= c.username@);
    assert(own[5] == "/from-stdin"@);
    if c.domain@.len() > 0 {
        assert(own[6].take("/d:"@.len() as int) =~= "/d:"@);
        assert(own[6].skip("/d:"@.len() as int) =~= c.domain@);
    }
    let who = c.login_spec();
    assert(line.take("username:s:"@.len() as int) =~= "username:s:"@);
    assert(line.skip("username:s:"@.len() as int) =~= who);
}

/// mstsc is handed the file it is to read, right behind its own name.
pub proof fn law_mstsc_is_handed_its_file(c: RdpConnection, file: Seq<char>)
    ensures
        rdp::args_of(c, Client::Mstsc, Some(file)).len() >= 2,
        rdp::args_of(c, Client::Mstsc, Some(file))[0] == "mstsc"@,
        rdp::args_of(c, Client::Mstsc, Some(file))[1] == file,
{
}

// ---------------------------------------------------------------------------
// The .rdp file
// ---------------------------------------------------------------------------

/// A line of the file stays as and where it is while no setting of the user has
/// its key.
pub proof fn law_unset_lines_stay(lines: Seq<Seq<char>>, settings: Seq<Seq<char>>, i: int)
    requires
        0 <= i < lines.len(),
        rdp::setting_key(lines[i]) is Some,
        forall|k: int|
            0 <= k < settings.len() ==> rdp::setting_key(#[trigger] settings[k])
                != rdp::setting_key(lines[i]),
    ensures
        rdp::all_overridden(lines, settings).len() >= lines.len(),
        rdp::all_overridden(lines, settings)[i] == lines[i],
    decreases settings.len(),
{
    if settings.len() > 0 {
        let head = settings.drop_last();
        let before = rdp::all_overridden(lines, head);
        assert forall|k: int| 0 <= k < head.len() implies rdp::setting_key(#[trigger] head[k])
            != rdp::setting_key(lines[i]) by {
            assert(head[k] == settings[k]);
        }
        law_unset_lines_stay(lines, head, i);
        assert(settings[settings.len() - 1] == settings.last());
        match rdp::setting_key(settings.last()) {
            Some(key) => {
                lemma_first_where(before, rdp::has_key(key));
                let at = first_where(before, rdp::has_key(key));
                if at < before.len() {
                    assert(rdp::has_key(key)(before[at]));
                }
            },
            None => {},
        }
    }
}

/// What the user sets stands in the file, whatever is generated for it: of two
/// settings with one key the later one.
pub proof fn law_user_settings_win(lines: Seq<Seq<char>>, settings: Seq<Seq<char>>, i: int)
    requires
        0 <= i < settings.len(),
        rdp::setting_key(settings[i]) is Some,
        forall|k: int|
            i < k < settings.len() ==> rdp::setting_key(#[trigger] settings[k])
                != rdp::setting_key(settings[i]),
    ensures
        rdp::all_overridden(lines, settings).contains(settings[i]),
    decreases settings.len(), 1nat,
{
    let head = settings.drop_last();
    let before = rdp::all_overridden(lines, head);
    let all = rdp::all_overridden(lines, settings);
    assert(settings[settings.len() - 1] == settings.last());
    match rdp::setting_key(settings.last()) {
        Some(key) => {
            lemma_first_where(before, rdp::has_key(key));
            let at = first_where(before, rdp::has_key(key));
            if i == settings.len() - 1 {
                assert(all[if at < before.len() { at } else { before.len() as int }]
                    == settings[i]);
            } else {
                lemma_earlier_setting(lines, settings, i);
                let k = choose|k: int| 0 <= k < before.len() && before[k] == settings[i];
                if at < before.len() {
                    assert(rdp::has_key(key)(before[at]));
                }
                assert(all[k] == settings[i]);
            }
        },
        None => {
            if i == settings.len() - 1 {
                assert(false);
            }
            lemma_earlier_setting(lines, settings, i);
        },
    }
}

proof fn lemma_earlier_setting(lines: Seq<Seq<char>>, settings: Seq<Seq<char>>, i: int)
    requires
        0 <= i < settings.len() - 1,
        rdp::setting_key(settings[i]) is Some,
        forall|k: int|
            i < k < settings.len() ==> rdp::setting_key(#[trigger] settings[k])
                != rdp::setting_key(settings[i]),
    ensures
        rdp::all_overridden(lines, settings.drop_last()).contains(settings[i]),
    decreases settings.len(), 0nat,
{
    let head = settings.drop_last();
    assert(head[i] == settings[i]);
    assert forall|k: int| i < k < head.len() implies rdp::setting_key(#[trigger] head[k])
        != rdp::setting_key(head[i]) by {
        assert(head[k] == settings[k]);
    }
    law_user_settings_win(lines, head, i);
}

/// The settings of a connection are those parts of its extra arguments that are
/// in the shape of a setting.
pub proof fn law_settings_are_found(parts: Seq<Seq<char>>, s: Seq<char>)
    ensures
        rdp::settings_in(parts).contains(s) <==> exists|i: int|
            0 <= i < parts.len() && trimmed(#[trigger] parts[i]) == s && s.len() > 0
                && rdp::setting_key(s) is Some,
    decreases parts.len(),
{
    let all = rdp::settings_in(parts);
    if parts.len() > 0 {
        let head = parts.drop_last();
        let before = rdp::settings_in(head);
        let last = parts.len() - 1;
        law_settings_are_found(head, s);
        if all.contains(s) {
            let i = choose|i: int| 0 <= i < all.len() && all[i] == s;
            if i < before.len() {
                assert(before[i] == s);
                assert(before.contains(s));
                let k = choose|k: int|
                    0 <= k < head.len() && trimmed(#[trigger] head[k]) == s && s.len() > 0
                        && rdp::setting_key(s) is Some;
                assert(parts[k] == head[k]);
            } else {
                assert(trimmed(parts[last]) == s);
            }
        }
        if exists|i: int|
            0 <= i < parts.len() && trimmed(#[trigger] parts[i]) == s && s.len() > 0
                && rdp::setting_key(s) is Some {
            let k = choose|i: int|
                0 <= i < parts.len() && trimmed(#[trigger] parts[i]) == s && s.len() > 0
                    && rdp::setting_key(s) is Some;
            if k < last {
                assert(head[k] == parts[k]);
                assert(before.contains(s));
                let i = choose|i: int| 0 <= i < before.len() && before[i] == s;
                assert(all[i] == s);
            } else {
                assert(all[all.len() - 1] == s);
            }
        }
    }
}

/// The file sends mstsc to the connection's own host and port unless the user has
/// set another address, and hands over the sealed password unless the user has
/// set another one.
pub proof fn law_file_leads_to_the_target(c: RdpConnection, sealed: Option<Seq<char>>)
    ensures
        ({
            let lines = rdp::file_lines(c, sealed);
            let settings = rdp::settings_in(pieces(c.extra_args@, is_char(',')));
            let front = "full address:s:"@.len() as int;
            &&& (forall|k: int|
                0 <= k < settings.len() ==> rdp::setting_key(#[trigger] settings[k]) != Some(
                    "full address"@,
                )) ==> lines.len() > 0 && starts(lines[0], "full address:s:"@) && before_port(
                lines[0].skip(front),
            ) == c.host@ && port_behind(lines[0].skip(front)) == Some(c.port as nat)
            &&& sealed is Some && (forall|k: int|
                0 <= k < settings.len() ==> rdp::setting_key(#[trigger] settings[k]) != Some(
                    "password 51"@,
                )) ==> lines.contains("password 51:b:"@ + sealed->0)
        }),
{
    let settings = rdp::settings_in(pieces(c.extra_args@, is_char(',')));
    let lines = rdp::file_lines(c, sealed);
    let g = rdp::generated(c, sealed);
    reveal_strlit("full address:s:");
    reveal_strlit("full address");
    reveal_strlit("password 51:b:");
    reveal_strlit("password 51");
    rdp::lemma_key_len(g[0], 12);
    assert(g[0].take(12) =~= "full address"@);
    if forall|k: int|
        0 <= k < settings.len() ==> rdp::setting_key(#[trigger] settings[k]) != Some(
            "full address"@,
        ) {
        law_unset_lines_stay(g, settings, 0);
        law_rdp_reaches_the_target(c, None, sealed);
    }
    if sealed is Some && forall|k: int|
        0 <= k < settings.len() ==> rdp::setting_key(#[trigger] settings[k]) != Some(
            "password 51"@,
        ) {
        rdp::lemma_key_len(g[7], 11);
        assert(g[7].take(11) =~= "password 51"@);
        law_unset_lines_stay(g, settings, 7);
        assert(lines[7] == "password 51:b:"@ + sealed->0);
    }
}

// ---------------------------------------------------------------------------
// Copies over sftp
// ---------------------------------------------------------------------------

/// How sftp reads an argument inside double quotes, from behind the first of
/// them: a backslash takes away the meaning of what follows it, and a bare quote
/// ends the argument. The argument, and what is left behind it.
pub open spec fn sftp_reads(s: Seq<char>) -> Option<(Seq<char>, Seq<char>)>
    decreases s.len(),
{
    if s.len() == 0 {
        None
    } else if s[0] == '"' {
        Some((Seq::empty(), s.skip(1)))
    } else if s[0] == '\\' {
        if s.len() < 2 {
            None
        } else {
            match sftp_reads(s.skip(2)) {
                Some((a, rest)) => Some((seq![s[1]] + a, rest)),
                None => None,
            }
        }
    } else {
        match sftp_reads(s.skip(1)) {
            Some((a, rest)) => Some((seq![s[0]] + a, rest)),
            None => None,
        }
    }
}

/// The one or two quoted arguments of a command, as sftp reads them.
pub open spec fn quoted_arguments(s: Seq<char>) -> Seq<Seq<char>> {
    if s.len() == 0 || s[0] != '"' {
        Seq::empty()
    } else {
        match sftp_reads(s.skip(1)) {
            None => Seq::empty(),
            Some((a, rest)) => if rest.len() < 2 || rest[0] != ' ' || rest[1] != '"' {
                seq![a]
            } else {
                match sftp_reads(rest.skip(2)) {
                    None => seq![a],
                    Some((b, _)) => seq![a, b],
                }
            },
        }
    }
}

/// What a character becomes inside quotes.
spec fn escaped_char(c: char) -> Seq<char> {
    if c == '\\' {
        seq!['\\', '\\']
    } else if c == '"' {
        seq!['\\', '"']
    } else {
        seq![c]
    }
}

spec fn escaped(s: Seq<char>) -> Seq<char>
    decreases s.len(),
{
    if s.len() == 0 {
        Seq::empty()
    } else {
        escaped_char(s[0]) + escaped(s.drop_first())
    }
}

proof fn lemma_escaped(s: Seq<char>)
    ensures
        replaced(replaced(s, "\\"@, "\\\\"@), "\""@, "\\\""@) == escaped(s),
    decreases s.len(),
{
    reveal_strlit("\\");
    reveal_strlit("\\\\");
    reveal_strlit("\"");
    reveal_strlit("\\\"");
    let slash = "\\"@;
    let quote = "\""@;
    if s.len() > 0 {
        let t = s.drop_first();
        lemma_escaped(t);
        let inner = replaced(t, slash, "\\\\"@);
        let whole = replaced(s, slash, "\\\\"@);
        assert(s.skip(1) =~= t);
        assert(s.take(1)[0] == s[0]);
        assert(starts(s, slash) == (s[0] == '\\')) by {
            if s[0] == '\\' {
                assert(s.take(1) =~= slash);
            } else {
                assert(slash[0] == '\\');
            }
        }
        if s[0] == '\\' {
            assert(whole =~= seq!['\\', '\\'] + inner);
            lemma_plain_char(whole, quote, "\\\""@);
            assert(whole.drop_first() =~= seq!['\\'] + inner);
            lemma_plain_char(whole.drop_first(), quote, "\\\""@);
            assert(whole.drop_first().drop_first() =~= inner);
            assert(replaced(whole, quote, "\\\""@) =~= seq!['\\', '\\'] + replaced(
                inner,
                quote,
                "\\\""@,
            ));
        } else {
            assert(whole =~= seq![s[0]] + inner);
            assert(whole.drop_first() =~= inner);
            assert(whole.skip(1) =~= inner);
            if s[0] == '"' {
                assert(whole.take(1) =~= quote);
                assert(replaced(whole, quote, "\\\""@) =~= "\\\""@ + replaced(
                    inner,
                    quote,
                    "\\\""@,
                ));
            } else {
                lemma_plain_char(whole, quote, "\\\""@);
            }
        }
    }
}

proof fn lemma_plain_char(s: Seq<char>, p: Seq<char>, by: Seq<char>)
    requires
        s.len() > 0,
        p.len() == 1,
        s[0] != p[0],
    ensures
        replaced(s, p, by) == seq![s[0]] + replaced(s.drop_first(), p, by),
{
    assert(s.take(1)[0] == s[0]);
}

proof fn lemma_reads_escaped(s: Seq<char>, rest: Seq<char>)
    ensures
        sftp_reads(escaped(s) + seq!['"'] + rest) == Some((s, rest)),
    decreases s.len(),
{
    let w = escaped(s) + seq!['"'] + rest;
    if s.len() == 0 {
        assert(w[0] == '"');
        assert(w.skip(1) =~= rest);
        assert(s =~= Seq::<char>::empty());
    } else {
        let t = s.drop_first();
        lemma_reads_escaped(t, rest);
        let v = escaped(t) + seq!['"'] + rest;
        assert(w =~= escaped_char(s[0]) + v);
        assert(seq![s[0]] + t =~= s);
        if s[0] == '\\' || s[0] == '"' {
            assert(w[0] == '\\' && w[1] == s[0]);
            assert(w.skip(2) =~= v);
        } else {
            assert(w[0] == s[0]);
            assert(w.skip(1) =~= v);
        }
    }
}

proof fn lemma_reads_two(a: Seq<char>, b: Seq<char>)
    ensures
        quoted_arguments(quoted_path(a) + " "@ + quoted_path(b)) == seq![a, b],
        quoted_arguments(quoted_path(a)) == seq![a],
{
    reveal_strlit("\"");
    reveal_strlit(" ");
    lemma_escaped(a);
    lemma_escaped(b);
    let tail = seq![' '] + seq!['"'] + escaped(b) + seq!['"'];
    let two = quoted_path(a) + " "@ + quoted_path(b);
    assert(two =~= seq!['"'] + (escaped(a) + seq!['"'] + tail));
    assert(two.skip(1) =~= escaped(a) + seq!['"'] + tail);
    lemma_reads_escaped(a, tail);
    let none = Seq::<char>::empty();
    assert(tail.skip(2) =~= escaped(b) + seq!['"'] + none);
    lemma_reads_escaped(b, none);
    let one = quoted_path(a);
    assert(one =~= seq!['"'] + (escaped(a) + seq!['"'] + none));
    assert(one.skip(1) =~= escaped(a) + seq!['"'] + none);
    lemma_reads_escaped(a, none);
}

/// A copy goes from the side it is asked from, whatever the paths hold: sftp is
/// told to put the local file to the remote path, or to get the remote file to
/// the local one, and a listing names the one directory.
pub proof fn law_copy_goes_the_way_it_is_asked(req: Request)
    ensures
        match req {
            Request::Put { local, remote } => {
                &&& starts(command_of(req), "-put "@)
                &&& quoted_arguments(command_of(req).skip("-put "@.len() as int)) == seq![
                    local@,
                    remote@,
                ]
            },
            Request::Get { remote, local } => {
                &&& starts(command_of(req), "-get "@)
                &&& quoted_arguments(command_of(req).skip("-get "@.len() as int)) == seq![
                    remote@,
                    local@,
                ]
            },
            Request::List(dir) => {
                &&& starts(command_of(req), "-ls -la "@)
                &&& quoted_arguments(command_of(req).skip("-ls -la "@.len() as int)) == seq![dir@]
            },
        },
{
    match req {
        Request::Put { local, remote } => {
            let tail = quoted_path(local@) + " "@ + quoted_path(remote@);
            lemma_reads_two(local@, remote@);
            assert(command_of(req) =~= "-put "@ + tail);
            assert(command_of(req).take("-put "@.len() as int) =~= "-put "@);
            assert(command_of(req).skip("-put "@.len() as int) =~= tail);
        },
        Request::Get { remote, local } => {
            let tail = quoted_path(remote@) + " "@ + quoted_path(local@);
            lemma_reads_two(remote@, local@);
            assert(command_of(req) =~= "-get "@ + tail);
            assert(command_of(req).take("-get "@.len() as int) =~= "-get "@);
            assert(command_of(req).skip("-get "@.len() as int) =~= tail);
        },
        Request::List(dir) => {
            let tail = quoted_path(dir@);
            lemma_reads_two(dir@, dir@);
            assert(command_of(req) =~= "-ls -la "@ + tail);
            assert(command_of(req).take("-ls -la "@.len() as int) =~= "-ls -la "@);
            assert(command_of(req).skip("-ls -la "@.len() as int) =~= tail);
        },
    }
}

/// Requests of different kinds never have the same command.
pub proof fn law_put_is_no_get(a: Request, b: Request)
    requires
        command_of(a) == command_of(b),
    ensures
        a is Put == b is Put && a is Get == b is Get && a is List == b is List,
{
    reveal_strlit("-put ");
    reveal_strlit("-get ");
    reveal_strlit("-ls -la ");
    law_copy_goes_the_way_it_is_asked(a);
    law_copy_goes_the_way_it_is_asked(b);
    let x = command_of(a);
    assert(a is Put ==> x.take(5)[1] == 'p');
    assert(a is Get ==> x.take(5)[1] == 'g');
    assert(a is List ==> x.take(8)[1] == 'l');
    assert(b is Put ==> x.take(5)[1] == 'p');
    assert(b is Get ==> x.take(5)[1] == 'g');
    assert(b is List ==> x.take(8)[1] == 'l');
}

}
