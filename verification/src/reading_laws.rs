//! What is read out of the output of other programs: a line that is written the
//! way they write it is read back as what was written.

use vstd::prelude::*;
use vstd::utf8::encode_utf8;
use crate::netbird::{outcome, pairs_in, profiles_in};
use crate::number::{decimal, law_number_round_trip, parsed};
use crate::path::{joined_path, Os};
use crate::platform::{candidates_of, inside, inside_each, kill_args, lookups};
use crate::remote_path::{base_of_path, unslashed};
use crate::sftp::{
    before, complaint, chatter, entries_in, entry_of, fields_and_rest, first_word_end, RemoteKind,
};
use crate::split::{
    is_word, lemma_first_of_is, lemma_last_of_is, lemma_words_around, lemma_words_of_word, starts,
    words,
};
use crate::text::{is_space, lemma_trimmed_already, trim_start, trimmed};

verus! {

// ---------------------------------------------------------------------------
// Listings
// ---------------------------------------------------------------------------

/// Fields with one space behind each, and what follows them.
pub open spec fn in_fields(fs: Seq<Seq<char>>, rest: Seq<char>) -> Seq<char>
    decreases fs.len(),
{
    if fs.len() == 0 {
        rest
    } else {
        fs[0] + seq![' '] + in_fields(fs.drop_first(), rest)
    }
}

proof fn lemma_word_end(w: Seq<char>, rest: Seq<char>)
    requires
        is_word(w),
    ensures
        first_word_end(w + seq![' '] + rest) == w.len(),
    decreases w.len(),
{
    let s = w + seq![' '] + rest;
    assert(s[0] == w[0]);
    let t = s.drop_first();
    if w.len() == 1 {
        assert(t[0] == ' ');
        assert(first_word_end(t) == 0);
    } else {
        let v = w.drop_first();
        assert forall|i: int| 0 <= i < v.len() implies !is_space(#[trigger] v[i]) by {
            assert(!is_space(w[i + 1]));
        }
        assert(is_word(v));
        assert(t =~= v + seq![' '] + rest);
        lemma_word_end(v, rest);
    }
}

proof fn lemma_in_fields(line: Seq<char>, fs: Seq<Seq<char>>, rest: Seq<char>)
    requires
        trim_start(line) == in_fields(fs, rest),
        forall|i: int| 0 <= i < fs.len() ==> is_word(#[trigger] fs[i]),
        rest.len() > 0,
        !is_space(rest[0]),
    ensures
        fields_and_rest(line, fs.len()) == Some((fs, rest)),
    decreases fs.len(),
{
    let s = in_fields(fs, rest);
    if fs.len() == 0 {
        assert(fs =~= Seq::<Seq<char>>::empty());
    } else {
        let w = fs[0];
        let more = fs.drop_first();
        let tail = in_fields(more, rest);
        assert forall|i: int| 0 <= i < more.len() implies is_word(#[trigger] more[i]) by {
            assert(is_word(fs[i + 1]));
        }
        assert(is_word(w));
        lemma_word_end(w, tail);
        let e = w.len() as int;
        assert(s.skip(e) =~= seq![' '] + tail);
        assert(s.take(e) =~= w);
        let next = s.skip(e);
        assert(next[0] == ' ');
        assert(next.drop_first() =~= tail);
        assert(tail.len() > 0 && !is_space(tail[0])) by {
            if more.len() > 0 {
                assert(is_word(more[0]));
                assert(tail[0] == more[0][0]);
            }
        }
        assert(trim_start(tail) == tail);
        assert(trim_start(next) == tail);
        lemma_in_fields(next, more, rest);
        assert(seq![w] + more =~= fs);
    }
}

/// A name as it can stand in a listing: no slash, and no white space round it.
pub open spec fn plain_name(name: Seq<char>) -> bool {
    &&& name.len() > 0
    &&& !name.contains('/')
    &&& !is_space(name[0]) && !is_space(name.last())
}

proof fn lemma_plain_name(name: Seq<char>)
    requires
        plain_name(name),
    ensures
        base_of_path(trimmed(name)) == name,
{
    lemma_trimmed_already(name);
    assert forall|i: int| 0 <= i < name.len() implies name[i] != '/' by {
        assert(name.contains(name[i]));
    }
    assert(unslashed(name) == name);
    lemma_last_of_is(name, '/', -1);
    assert(name.skip(0) =~= name);
}

proof fn lemma_before(name: Seq<char>, p: Seq<char>, rest: Seq<char>)
    requires
        p.len() > 0,
        forall|i: int| 0 <= i < name.len() ==> !starts(#[trigger] (name + p + rest).skip(i), p),
    ensures
        before(name + p + rest, p) == name,
    decreases name.len(),
{
    let s = name + p + rest;
    if name.len() == 0 {
        assert(s.take(p.len() as int) =~= p);
        assert(starts(s, p));
        assert(name =~= Seq::<char>::empty());
    } else {
        assert(s.skip(0) =~= s);
        assert(!starts(s.skip(0), p));
        let v = name.drop_first();
        assert(s.drop_first() =~= v + p + rest);
        assert forall|i: int| 0 <= i < v.len() implies !starts(
            #[trigger] (v + p + rest).skip(i),
            p,
        ) by {
            assert((v + p + rest).skip(i) =~= s.skip(i + 1));
        }
        lemma_before(v, p, rest);
        assert(seq![s[0]] + v =~= name);
    }
}

/// A line of `ls -l` is read back as what it shows: the kind that its first
/// character says, the size in its fifth field, and the whole of the name behind
/// the eighth, spaces and all.
pub proof fn law_listing_is_read_back(fs: Seq<Seq<char>>, size: u64, name: Seq<char>, kind: RemoteKind)
    requires
        fs.len() == 8,
        forall|i: int| 0 <= i < fs.len() ==> is_word(#[trigger] fs[i]),
        10 <= encode_utf8(fs[0]).len() <= usize::MAX,
        fs[0][0] == (match kind {
            RemoteKind::Dir => 'd',
            RemoteKind::Link => 'l',
            RemoteKind::File => '-',
        }),
        fs[4] == decimal(size as nat),
        plain_name(name),
    ensures
        kind != RemoteKind::Link ==> entry_of(in_fields(fs, name)) == Some(
            (name, kind, size as nat),
        ),
        forall|to: Seq<char>|
            kind == RemoteKind::Link && (forall|i: int|
                0 <= i < name.len() ==> !starts(#[trigger] (name + " -> "@ + to).skip(i), " -> "@))
                ==> #[trigger] entry_of(in_fields(fs, name + " -> "@ + to)) == Some(
                (name, kind, size as nat),
            ),
{
    law_number_round_trip(size as nat, u64::MAX as nat);
    lemma_plain_name(name);
    if kind != RemoteKind::Link {
        lemma_line_head(fs, name);
    } else {
        reveal_strlit(" -> ");
        assert forall|to: Seq<char>|
            (forall|i: int|
                0 <= i < name.len() ==> !starts(
                    #[trigger] (name + " -> "@ + to).skip(i),
                    " -> "@,
                )) implies #[trigger] entry_of(in_fields(fs, name + " -> "@ + to)) == Some(
            (name, kind, size as nat),
        ) by {
            let rest = name + " -> "@ + to;
            assert(rest[0] == name[0]);
            lemma_line_head(fs, rest);
            lemma_before(name, " -> "@, to);
        }
    }
}

proof fn lemma_line_head(fs: Seq<Seq<char>>, rest: Seq<char>)
    requires
        fs.len() > 0,
        forall|i: int| 0 <= i < fs.len() ==> is_word(#[trigger] fs[i]),
        rest.len() > 0,
        !is_space(rest[0]),
    ensures
        fields_and_rest(in_fields(fs, rest), fs.len()) == Some((fs, rest)),
        words(in_fields(fs, rest)).len() > 0,
        words(in_fields(fs, rest))[0] == fs[0],
{
    let line = in_fields(fs, rest);
    assert(is_word(fs[0]));
    assert(line[0] == fs[0][0]);
    assert(trim_start(line) == line);
    lemma_in_fields(line, fs, rest);
    lemma_words_around(fs[0], in_fields(fs.drop_first(), rest));
    lemma_words_of_word(fs[0]);
}

/// Only what is a directory, a link or a file is listed: a line that starts with
/// anything else is left out, whatever follows.
pub proof fn law_nothing_else_is_listed(line: Seq<char>)
    ensures
        entry_of(line) matches Some(e) ==> words(line).len() > 0 && (words(line)[0][0] == 'd'
            || words(line)[0][0] == 'l' || words(line)[0][0] == '-') && e.0.len() > 0,
{
}

/// A listing holds the entries of its lines, each once for its line and in their
/// order: adding a line adds its entry at the end, or nothing.
pub proof fn law_listing_grows_by_its_lines(a: Seq<Seq<char>>, b: Seq<Seq<char>>)
    ensures
        entries_in(a + b) == entries_in(a) + entries_in(b),
        b.len() == 1 && entry_of(b[0]) is Some ==> entries_in(b) == seq![entry_of(b[0])->0],
        b.len() == 1 && entry_of(b[0]) is None ==> entries_in(b).len() == 0,
    decreases b.len(),
{
    if b.len() == 0 {
        assert(a + b =~= a);
        assert(entries_in(a) + entries_in(b) =~= entries_in(a));
    } else {
        law_listing_grows_by_its_lines(a, b.drop_last());
        assert((a + b).drop_last() =~= a + b.drop_last());
        assert((a + b).last() == b.last());
        assert(entries_in(a + b) =~= entries_in(a) + entries_in(b));
        if b.len() == 1 {
            assert(b.drop_last().len() == 0);
            assert(entries_in(b.drop_last()) =~= Seq::empty());
            assert(b.last() == b[0]);
            if entry_of(b[0]) is Some {
                assert(entries_in(b) =~= seq![entry_of(b[0])->0]);
            }
        }
    }
}

/// What went wrong is the last line that is no mere chatter, without the white
/// space round it; where every line is chatter nothing did.
pub proof fn law_last_complaint_counts(lines: Seq<Seq<char>>)
    ensures
        complaint(lines) is None <==> forall|i: int|
            0 <= i < lines.len() ==> chatter(#[trigger] lines[i]),
        complaint(lines) matches Some(why) ==> exists|i: int| {
            &&& 0 <= i < lines.len()
            &&& !chatter(#[trigger] lines[i])
            &&& why == trimmed(lines[i])
            &&& forall|k: int| i < k < lines.len() ==> chatter(#[trigger] lines[k])
        },
    decreases lines.len(),
{
    if lines.len() > 0 {
        let head = lines.drop_last();
        let last = lines.len() - 1;
        law_last_complaint_counts(head);
        assert(lines[last] == lines.last());
        if chatter(lines.last()) {
            if complaint(head) is None {
                assert forall|i: int| 0 <= i < lines.len() implies chatter(#[trigger] lines[i]) by {
                    if i < last {
                        assert(chatter(head[i]));
                    }
                }
            } else {
                let why = complaint(head)->0;
                let i = choose|i: int| {
                    &&& 0 <= i < head.len()
                    &&& !chatter(#[trigger] head[i])
                    &&& why == trimmed(head[i])
                    &&& forall|k: int| i < k < head.len() ==> chatter(#[trigger] head[k])
                };
                assert(!chatter(lines[i]));
                assert forall|k: int| i < k < lines.len() implies chatter(#[trigger] lines[k]) by {
                    if k < last {
                        assert(chatter(head[k]));
                    }
                }
            }
        } else {
            assert(!chatter(lines[last]));
        }
    }
}

// ---------------------------------------------------------------------------
// Netbird
// ---------------------------------------------------------------------------

/// The profiles are those of the lines: each line that holds a word gives one,
/// named by its first word, and active where the line says more.
pub proof fn law_profiles_are_the_lines(ls: Seq<Seq<char>>, name: Seq<char>, active: bool)
    ensures
        profiles_in(ls).contains((name, active)) <==> exists|i: int|
            0 <= i < ls.len() && words(#[trigger] ls[i]).len() > 0 && words(ls[i])[0] == name && (
            active <==> words(ls[i]).len() > 1),
        profiles_in(ls).len() <= ls.len(),
    decreases ls.len(),
{
    let all = profiles_in(ls);
    let x = (name, active);
    if ls.len() > 0 {
        let head = ls.drop_last();
        let before = profiles_in(head);
        let last = ls.len() - 1;
        law_profiles_are_the_lines(head, name, active);
        if all.contains(x) {
            let i = choose|i: int| 0 <= i < all.len() && all[i] == x;
            if i < before.len() {
                assert(before[i] == x);
                assert(before.contains(x));
                let k = choose|k: int|
                    0 <= k < head.len() && words(#[trigger] head[k]).len() > 0 && words(head[k])[0]
                        == name && (active <==> words(head[k]).len() > 1);
                assert(ls[k] == head[k]);
            } else {
                assert(words(ls[last])[0] == name);
            }
        }
        if exists|i: int|
            0 <= i < ls.len() && words(#[trigger] ls[i]).len() > 0 && words(ls[i])[0] == name && (
            active <==> words(ls[i]).len() > 1) {
            let k = choose|i: int|
                0 <= i < ls.len() && words(#[trigger] ls[i]).len() > 0 && words(ls[i])[0] == name
                    && (active <==> words(ls[i]).len() > 1);
            if k < last {
                assert(head[k] == ls[k]);
                assert(before.contains(x));
                let i = choose|i: int| 0 <= i < before.len() && before[i] == x;
                assert(all[i] == x);
            } else {
                assert(all[all.len() - 1] == x);
            }
        }
    }
}

/// A line `key: value` is read back as that key and that value, and nothing else
/// is made of it.
pub proof fn law_status_line_is_read_back(key: Seq<char>, value: Seq<char>)
    requires
        key.len() > 0,
        !key.contains(':'),
        !is_space(key[0]) && !is_space(key.last()),
        value.len() > 0 ==> !is_space(value[0]) && !is_space(value.last()),
    ensures
        pairs_in(seq![key + ": "@ + value]) == seq![(key, value)],
{
    reveal_strlit(": ");
    let line = key + ": "@ + value;
    let n = key.len() as int;
    assert forall|i: int| 0 <= i < n implies line[i] != ':' by {
        assert(line[i] == key[i]);
        assert(key.contains(key[i]));
    }
    assert(line[n] == ':');
    lemma_first_of_is(line, ':', n);
    assert(line.take(n) =~= key);
    let v = line.skip(n + 1);
    assert(v =~= seq![' '] + value);
    lemma_trimmed_already(key);
    lemma_trimmed_already(value);
    assert(v.drop_first() =~= value);
    assert(trim_start(v) == trim_start(value));
    assert(trimmed(v) == trimmed(value));
    let ls = seq![line];
    assert(ls.last() == line);
    assert(ls.drop_last().len() == 0);
    assert(pairs_in(ls.drop_last()) =~= Seq::empty());
    assert(pairs_in(ls) =~= seq![(key, value)]);
}

/// The pairs of two pieces of output are those of the first and then those of the
/// second.
pub proof fn law_status_grows_by_its_lines(a: Seq<Seq<char>>, b: Seq<Seq<char>>)
    ensures
        pairs_in(a + b) == pairs_in(a) + pairs_in(b),
        profiles_in(a + b) == profiles_in(a) + profiles_in(b),
    decreases b.len(),
{
    if b.len() == 0 {
        assert(a + b =~= a);
        assert(pairs_in(a) + pairs_in(b) =~= pairs_in(a));
        assert(profiles_in(a) + profiles_in(b) =~= profiles_in(a));
    } else {
        law_status_grows_by_its_lines(a, b.drop_last());
        assert((a + b).drop_last() =~= a + b.drop_last());
        assert((a + b).last() == b.last());
        assert(pairs_in(a + b) =~= pairs_in(a) + pairs_in(b));
        assert(profiles_in(a + b) =~= profiles_in(a) + profiles_in(b));
    }
}

/// A run that succeeded gives what it printed; one that failed gives a reason, in
/// its own words where it had any.
pub proof fn law_run_is_read(
    success: bool,
    stdout: Seq<char>,
    stderr: Seq<char>,
    args: Seq<Seq<char>>,
    status: Seq<char>,
)
    ensures
        success <==> outcome(success, stdout, stderr, args, status) is Ok,
        success ==> outcome(success, stdout, stderr, args, status)->Ok_0 == stdout,
        !success && trimmed(stderr).len() > 0 ==> outcome(
            success,
            stdout,
            stderr,
            args,
            status,
        )->Err_0 == trimmed(stderr),
        !success ==> outcome(success, stdout, stderr, args, status)->Err_0.len() > 0,
{
    reveal_strlit("netbird ");
}

// ---------------------------------------------------------------------------
// Processes and programs
// ---------------------------------------------------------------------------

/// The command that stops a process names that process; it is forced exactly
/// where that is asked for.
pub proof fn law_the_right_process_is_stopped(os: Os, pid: u32, force: bool)
    ensures
        ({
            let argv = kill_args(os, pid as nat, force);
            &&& os == Os::Unix ==> argv.len() == 3 && argv[0] == "kill"@ && parsed(
                argv[2],
                u32::MAX as nat,
            ) == Some(pid as nat)
            &&& os == Os::Unix ==> (argv[1] == "-KILL"@ <==> force) && (argv[1] == "-TERM"@
                <==> !force)
            &&& os == Os::Windows ==> argv[0] == "taskkill"@ && argv[1] == "/PID"@ && parsed(
                argv[2],
                u32::MAX as nat,
            ) == Some(pid as nat)
            &&& os == Os::Windows ==> (argv.contains("/F"@) <==> force)
        }),
{
    reveal_strlit("-KILL");
    reveal_strlit("-TERM");
    reveal_strlit("/F");
    reveal_strlit("/T");
    reveal_strlit("/PID");
    reveal_strlit("taskkill");
    law_number_round_trip(pid as nat, u32::MAX as nat);
    crate::number::lemma_decimal_reads_back(pid as nat);
    let argv = kill_args(os, pid as nat, force);
    assert("-KILL"@[1] == 'K' && "-TERM"@[1] == 'T');
    if os == Os::Windows {
        assert("/F"@[1] == 'F' && "/T"@[1] == 'T');
        if force {
            assert(argv[4] == "/F"@);
        } else if argv.contains("/F"@) {
            let i = choose|i: int| 0 <= i < argv.len() && argv[i] == "/F"@;
            let d = decimal(pid as nat);
            assert(crate::text::is_digit(d[0]));
            assert("/F"@[0] == '/');
            assert(i == 0 || i == 1 || i == 2 || i == 3);
        }
    }
}

/// A program is looked for in every directory that is searched, in their order,
/// under its own name as well; a path is looked for as it stands.
pub proof fn law_every_directory_is_searched(
    os: Os,
    name: Seq<char>,
    dirs: Seq<Seq<char>>,
    pathext: Seq<char>,
    i: int,
)
    requires
        0 <= i < dirs.len(),
    ensures
        name.contains('/') || name.contains('\\') ==> lookups(os, name, dirs, pathext)
            == seq![name],
        !(name.contains('/') || name.contains('\\')) ==> lookups(os, name, dirs, pathext).contains(
            joined_path(os, dirs[i], name),
        ),
        !(name.contains('/') || name.contains('\\')) && os == Os::Unix ==> lookups(
            os,
            name,
            dirs,
            pathext,
        ).len() == dirs.len() && lookups(os, name, dirs, pathext)[i] == joined_path(
            os,
            dirs[i],
            name,
        ),
{
    let names = candidates_of(os, name, pathext);
    assert(names.last() == name);
    assert(names[names.len() - 1] == name);
    lemma_inside_each(os, dirs, names, i, names.len() - 1);
    if os == Os::Unix {
        lemma_inside_one(os, dirs, name, i);
    }
}

proof fn lemma_inside_one(os: Os, dirs: Seq<Seq<char>>, name: Seq<char>, i: int)
    requires
        0 <= i < dirs.len(),
    ensures
        inside_each(os, dirs, seq![name]).len() == dirs.len(),
        inside_each(os, dirs, seq![name])[i] == joined_path(os, dirs[i], name),
    decreases dirs.len(),
{
    let head = dirs.drop_last();
    assert(inside(os, dirs.last(), seq![name]).len() == 1);
    if head.len() > 0 {
        lemma_inside_one(os, head, name, if i < head.len() { i } else { 0 });
    } else {
        assert(inside_each(os, head, seq![name]).len() == 0);
    }
    if i < head.len() {
        assert(head[i] == dirs[i]);
    }
}

proof fn lemma_inside_each(os: Os, dirs: Seq<Seq<char>>, names: Seq<Seq<char>>, i: int, k: int)
    requires
        0 <= i < dirs.len(),
        0 <= k < names.len(),
    ensures
        inside_each(os, dirs, names).contains(joined_path(os, dirs[i], names[k])),
    decreases dirs.len(),
{
    let all = inside_each(os, dirs, names);
    let head = dirs.drop_last();
    let before = inside_each(os, head, names);
    let x = joined_path(os, dirs[i], names[k]);
    if i < head.len() {
        assert(head[i] == dirs[i]);
        lemma_inside_each(os, head, names, i, k);
        let m = choose|m: int| 0 <= m < before.len() && before[m] == x;
        assert(all[m] == x);
    } else {
        assert(inside(os, dirs.last(), names)[k] == x);
        assert(all[before.len() + k] == x);
    }
}

} // verus!
