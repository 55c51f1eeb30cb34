//! Paths as text: joining them, walking up, and the home directory.

use vstd::prelude::*;
use crate::split::{self, is_char, pieces, starts};
use crate::text::{self, ascii_lowered, cat, cat3, chars_of, is_ascii_letter, text_between, texts};
use crate::vpn_view::kept;

verus! {

/// Where the library is told the paths are from.
#[derive(Debug, Clone, Copy, PartialEq, Eq, Structural)]
pub enum Os {
    Unix,
    Windows,
}

/// A separator of path segments. Windows accepts either and people type both,
/// so both are read; only one is ever written back.
pub open spec fn is_sep(os: Os, c: char) -> bool {
    c == '/' || (os == Os::Windows && c == '\\')
}

pub fn char_is_sep(os: Os, c: char) -> (r: bool)
    ensures
        r == is_sep(os, c),
{
    c == '/' || (os == Os::Windows && c == '\\')
}

/// The separator that is written.
pub open spec fn sep_text(os: Os) -> Seq<char> {
    match os {
        Os::Unix => "/"@,
        Os::Windows => "\\"@,
    }
}

pub fn sep(os: Os) -> (r: &'static str)
    ensures
        r@ == sep_text(os),
{
    match os {
        Os::Unix => "/",
        Os::Windows => "\\",
    }
}

/// A path with a separator at its end.
pub open spec fn slashed(os: Os, path: Seq<char>) -> Seq<char> {
    if path.len() > 0 && is_sep(os, path.last()) {
        path
    } else {
        path + sep_text(os)
    }
}

pub fn with_trailing_slash(os: Os, path: &str) -> (r: String)
    ensures
        r@ == slashed(os, path@),
{
    let v = chars_of(path);
    let n: usize = v.len();
    if n > 0 && char_is_sep(os, v[n - 1]) {
        path.to_owned()
    } else {
        cat(path, sep(os))
    }
}

/// How much of a path is its drive: `C:` on Windows, and nothing elsewhere.
pub open spec fn drive_len(os: Os, path: Seq<char>) -> int {
    if os == Os::Windows && path.len() >= 2 && is_ascii_letter(path[0]) && path[1] == ':' {
        2
    } else {
        0
    }
}

/// The drive of a path.
pub open spec fn drive_of(os: Os, path: Seq<char>) -> Seq<char> {
    path.take(drive_len(os, path))
}

/// A path without its drive.
pub open spec fn rest_of(os: Os, path: Seq<char>) -> Seq<char> {
    path.skip(drive_len(os, path))
}

fn drive(os: Os, v: &Vec<char>) -> (r: usize)
    ensures
        r == drive_len(os, v@),
        r <= v@.len(),
{
    if os == Os::Windows && v.len() >= 2 && text::char_is_ascii_letter(v[0]) && v[1] == ':' {
        2
    } else {
        0
    }
}

/// `name` inside `base`. A rooted name stands for itself, on the drive of `base`
/// where it names none, and a drive by itself takes no separator.
pub open spec fn joined_path(os: Os, base: Seq<char>, name: Seq<char>) -> Seq<char> {
    if drive_len(os, name) > 0 {
        name
    } else if name.len() > 0 && is_sep(os, name[0]) {
        drive_of(os, base) + name
    } else if base.len() == 0 || is_sep(os, base.last()) || rest_of(os, base).len() == 0 {
        base + name
    } else {
        base + sep_text(os) + name
    }
}

pub fn join(os: Os, base: &str, name: &str) -> (r: String)
    ensures
        r@ == joined_path(os, base@, name@),
{
    let b = chars_of(base);
    let n = chars_of(name);
    let k: usize = b.len();
    let d: usize = drive(os, &b);
    if drive(os, &n) > 0 {
        name.to_owned()
    } else if n.len() > 0 && char_is_sep(os, n[0]) {
        assert(b@.take(d as int) =~= b@.subrange(0, d as int));
        let letter = text_between(&b, 0, d);
        cat(letter.as_str(), name)
    } else if k == 0 || char_is_sep(os, b[k - 1]) || d == k {
        cat(base, name)
    } else {
        cat3(base, sep(os), name)
    }
}

/// Where the last separator of a path stands; -1 where there is none.
pub open spec fn last_sep(os: Os, s: Seq<char>) -> int
    decreases s.len(),
{
    if s.len() == 0 {
        -1
    } else if is_sep(os, s.last()) {
        s.len() - 1
    } else {
        last_sep(os, s.drop_last())
    }
}

pub proof fn lemma_last_sep_is(os: Os, s: Seq<char>, i: int)
    requires
        -1 <= i < s.len(),
        i >= 0 ==> is_sep(os, s[i]),
        forall|k: int| i < k < s.len() ==> !is_sep(os, #[trigger] s[k]),
    ensures
        last_sep(os, s) == i,
    decreases s.len(),
{
    if s.len() > 0 && i < s.len() - 1 {
        assert(s[s.len() - 1] == s.last());
        lemma_last_sep_is(os, s.drop_last(), i);
    }
}

/// A path without what adds nothing at its end: separators, and `.` segments
/// behind another one. The root stays.
pub open spec fn bare(os: Os, s: Seq<char>) -> Seq<char>
    decreases s.len(),
{
    if s.len() > 1 && is_sep(os, s.last()) {
        bare(os, s.drop_last())
    } else if s.len() > 1 && s.last() == '.' && is_sep(os, s[s.len() - 2]) {
        bare(os, s.drop_last())
    } else {
        s
    }
}

/// The end of what is left of the characters from `from` to `len`.
fn bare_end(os: Os, v: &Vec<char>, from: usize, len: usize) -> (r: usize)
    requires
        from <= len <= v@.len(),
    ensures
        from <= r <= len,
        v@.subrange(from as int, r as int) == bare(os, v@.subrange(from as int, len as int)),
    decreases len,
{
    let ghost s = v@.subrange(from as int, len as int);
    if len - from > 1 && (char_is_sep(os, v[len - 1]) || (v[len - 1] == '.' && char_is_sep(
        os,
        v[len - 2],
    ))) {
        assert(s.drop_last() =~= v@.subrange(from as int, len - 1));
        bare_end(os, v, from, len - 1)
    } else {
        len
    }
}

/// The directory a path is in; `None` for the root, a drive and nothing.
pub open spec fn parent_of(os: Os, path: Seq<char>) -> Option<Seq<char>> {
    let d = drive_of(os, path);
    let t = bare(os, rest_of(os, path));
    let i = last_sep(os, t);
    if t.len() == 0 || (t.len() == 1 && is_sep(os, t[0])) {
        None
    } else if i == -1 {
        Some(d)
    } else if i == 0 {
        Some(d + t.take(1))
    } else {
        Some(d + bare(os, t.take(i)))
    }
}

/// Where the last segment of the characters from `from` to `n` begins.
fn leaf_start(os: Os, v: &Vec<char>, from: usize, n: usize) -> (r: usize)
    requires
        from <= n <= v@.len(),
    ensures
        from <= r <= n,
        r - from == last_sep(os, v@.subrange(from as int, n as int)) + 1,
{
    let ghost t = v@.subrange(from as int, n as int);
    let mut i: usize = n;
    while i > from && !char_is_sep(os, v[i - 1])
        invariant
            from <= i <= n <= v@.len(),
            t == v@.subrange(from as int, n as int),
            forall|k: int| i - from <= k < n - from ==> !is_sep(os, #[trigger] t[k]),
        decreases i,
    {
        assert(t[i - 1 - from] == v@[i - 1]);
        i = i - 1;
    }
    proof {
        if i > from {
            assert(t[i - 1 - from] == v@[i - 1]);
        }
        lemma_last_sep_is(os, t, i - 1 - from);
    }
    i
}

pub fn parent(os: Os, path: &str) -> (r: Option<String>)
    ensures
        r is Some <==> parent_of(os, path@) is Some,
        r is Some ==> r->0@ == parent_of(os, path@)->0,
{
    let all = chars_of(path);
    let d: usize = drive(os, &all);
    assert(all@.skip(d as int) =~= all@.subrange(d as int, all@.len() as int));
    let n: usize = bare_end(os, &all, d, all.len());
    let ghost t = bare(os, rest_of(os, path@));
    assert(t == all@.subrange(d as int, n as int));
    if n == d || (n == d + 1 && char_is_sep(os, all[d])) {
        return None;
    }
    let i: usize = leaf_start(os, &all, d, n);
    assert(all@.take(d as int) =~= all@.subrange(0, d as int));
    if i == d {
        return Some(text_between(&all, 0, d));
    }
    if i == d + 1 {
        assert(drive_of(os, path@) + t.take(1) =~= all@.subrange(0, d + 1));
        return Some(text_between(&all, 0, d + 1));
    }
    let m: usize = bare_end(os, &all, d, i - 1);
    assert(t.take(i - 1 - d) =~= all@.subrange(d as int, i - 1));
    assert(drive_of(os, path@) + bare(os, t.take(i - 1 - d)) =~= all@.subrange(0, m as int));
    Some(text_between(&all, 0, m))
}

/// The last segment of a path.
pub open spec fn leaf_of(os: Os, path: Seq<char>) -> Seq<char> {
    let t = bare(os, rest_of(os, path));
    t.skip(last_sep(os, t) + 1)
}

fn leaf(os: Os, path: &str) -> (r: String)
    ensures
        r@ == leaf_of(os, path@),
{
    let all = chars_of(path);
    let d: usize = drive(os, &all);
    assert(all@.skip(d as int) =~= all@.subrange(d as int, all@.len() as int));
    let n: usize = bare_end(os, &all, d, all.len());
    let ghost t = bare(os, rest_of(os, path@));
    let i: usize = leaf_start(os, &all, d, n);
    assert(t.skip(i - d) =~= all@.subrange(i as int, n as int));
    text_between(&all, i, n)
}

/// The last segment of a path, where that is a name.
pub open spec fn name_of(os: Os, path: Seq<char>) -> Option<Seq<char>> {
    let leaf = leaf_of(os, path);
    if leaf.len() == 0 || leaf == "."@ || leaf == ".."@ {
        None
    } else {
        Some(leaf)
    }
}

pub fn file_name(os: Os, path: &str) -> (r: Option<String>)
    ensures
        r is Some <==> name_of(os, path@) is Some,
        r is Some ==> r->0@ == name_of(os, path@)->0,
{
    let leaf = leaf(os, path);
    if leaf.as_str().is_empty() || text::same(leaf.as_str(), ".") || text::same(
        leaf.as_str(),
        "..",
    ) {
        None
    } else {
        Some(leaf)
    }
}

/// What is typed for the directory one level up; `None` where there is none. Above
/// a name with nothing before it is the directory it is relative to, and above `.`
/// and `..` it is another `..`.
pub open spec fn above(os: Os, dir: Seq<char>) -> Option<Seq<char>> {
    let leaf = leaf_of(os, dir);
    match parent_of(os, dir) {
        None => None,
        Some(p) => if leaf == ".."@ {
            Some(slashed(os, dir) + ".."@ + sep_text(os))
        } else if rest_of(os, p).len() > 0 {
            Some(slashed(os, p))
        } else if leaf == "."@ {
            Some(p + ".."@ + sep_text(os))
        } else {
            Some(p + "."@ + sep_text(os))
        },
    }
}

pub fn up(os: Os, dir: &str) -> (r: Option<String>)
    ensures
        r is Some <==> above(os, dir@) is Some,
        r is Some ==> r->0@ == above(os, dir@)->0,
{
    let leaf = leaf(os, dir);
    let p = match parent(os, dir) {
        Some(p) => p,
        None => {
            return None;
        },
    };
    if text::same(leaf.as_str(), "..") {
        return Some(cat3(with_trailing_slash(os, dir).as_str(), "..", sep(os)));
    }
    let v = chars_of(p.as_str());
    if drive(os, &v) < v.len() {
        Some(with_trailing_slash(os, p.as_str()))
    } else if text::same(leaf.as_str(), ".") {
        Some(cat3(p.as_str(), "..", sep(os)))
    } else {
        Some(cat3(p.as_str(), ".", sep(os)))
    }
}

/// `~/x` made a path under the home directory, where there is one.
pub open spec fn under_home(os: Os, path: Seq<char>, home: Option<Seq<char>>) -> Seq<char> {
    if starts(path, "~/"@) && home is Some {
        joined_path(os, home->0, path.skip(2))
    } else {
        path
    }
}

/// `~/x` is what a person types; every other tool here takes a real path.
pub fn expand_home(os: Os, path: &str, home: Option<&str>) -> (r: String)
    ensures
        r@ == under_home(os, path@, opt_text(home)),
{
    proof {
        reveal_strlit("~/");
    }
    match home {
        Some(h) => match split::strip_prefix(path, "~/") {
            Some(rest) => join(os, h, rest.as_str()),
            None => path.to_owned(),
        },
        None => path.to_owned(),
    }
}

/// The text of an optional string.
pub open spec fn opt_text(s: Option<&str>) -> Option<Seq<char>> {
    match s {
        Some(t) => Some(t@),
        None => None,
    }
}

// ---------------------------------------------------------------------------
// Two ways to write one path
// ---------------------------------------------------------------------------

/// A path with one separator for all.
pub open spec fn one_sep(os: Os, s: Seq<char>) -> Seq<char> {
    s.map_values(|c: char| if is_sep(os, c) { '/' } else { c })
}

/// A segment that leads somewhere.
pub open spec fn leads_on() -> spec_fn(Seq<char>) -> bool {
    |s: Seq<char>| s.len() > 0 && s != "."@
}

/// What a path says: its drive whatever the case, whether it is rooted, whether it
/// begins with a `.`, and the segments that lead somewhere.
pub struct Route {
    pub drive: Seq<char>,
    pub rooted: bool,
    pub dotted: bool,
    pub names: Seq<Seq<char>>,
}

pub open spec fn route(os: Os, path: Seq<char>) -> Route {
    let rest = rest_of(os, path);
    let rooted = rest.len() > 0 && is_sep(os, rest[0]);
    let all = pieces(one_sep(os, rest), is_char('/'));
    Route {
        drive: ascii_lowered(drive_of(os, path)),
        rooted,
        dotted: !rooted && all[0] == "."@,
        names: kept(all, leads_on()),
    }
}

fn names_in(os: Os, path: &str) -> (r: (bool, bool, Vec<String>))
    ensures
        r.0 == route(os, path@).rooted,
        r.1 == route(os, path@).dotted,
        texts(r.2@) == route(os, path@).names,
{
    let v = chars_of(path);
    let d: usize = drive(os, &v);
    let ghost rest = rest_of(os, path@);
    let mut plain = String::new();
    let mut i: usize = d;
    assert(plain@ =~= one_sep(os, rest.take(0)));
    while i < v.len()
        invariant
            d <= i <= v@.len(),
            d == drive_len(os, v@),
            rest == v@.skip(d as int),
            plain@ == one_sep(os, rest.take(i - d)),
        decreases v@.len() - i,
    {
        let c = v[i];
        plain.push(
            if char_is_sep(os, c) {
                '/'
            } else {
                c
            },
        );
        i = i + 1;
        assert(rest[i - 1 - d] == c);
        assert(plain@ =~= one_sep(os, rest.take(i - d)));
    }
    assert(rest.take(i - d) =~= rest);
    let rooted = d < v.len() && char_is_sep(os, v[d]);
    let all = split::split(plain.as_str(), '/');
    let ghost ps = texts(all@);
    proof {
        split::lemma_pieces_len(plain@, is_char('/'));
        assert(ps.len() == all@.len());
        assert(ps[0] == all@[0]@);
    }
    let dotted = !rooted && text::same(all[0].as_str(), ".");
    let mut out = text::no_texts();
    let mut k: usize = 0;
    assert(texts(out@) =~= kept(ps.take(0), leads_on()));
    while k < all.len()
        invariant
            k <= all@.len(),
            ps == texts(all@),
            texts(out@) == kept(ps.take(k as int), leads_on()),
        decreases all@.len() - k,
    {
        assert(ps.take(k + 1).drop_last() =~= ps.take(k as int));
        assert(ps.take(k + 1).last() == all@[k as int]@);
        if !all[k].as_str().is_empty() && !text::same(all[k].as_str(), ".") {
            text::add_text(&mut out, all[k].clone());
        }
        k = k + 1;
    }
    assert(ps.take(k as int) =~= ps);
    (rooted, dotted, out)
}

/// Two texts are one path: however often a separator stands there, with or without
/// a `.` in between.
pub fn same_path(os: Os, a: &str, b: &str) -> (r: bool)
    ensures
        r == (route(os, a@) == route(os, b@)),
{
    let (ra, da, na) = names_in(os, a);
    let (rb, db, nb) = names_in(os, b);
    let va = chars_of(a);
    let vb = chars_of(b);
    let ka: usize = drive(os, &va);
    let kb: usize = drive(os, &vb);
    assert(va@.take(ka as int) =~= va@.subrange(0, ka as int));
    assert(vb@.take(kb as int) =~= vb@.subrange(0, kb as int));
    let drives = text::same_ignoring_case(
        text_between(&va, 0, ka).as_str(),
        text_between(&vb, 0, kb).as_str(),
    );
    let names = text::same_texts(&na, &nb);
    drives && ra == rb && da == db && names
}

// ---------------------------------------------------------------------------
// What holds of paths
// ---------------------------------------------------------------------------

proof fn lemma_bare(os: Os, s: Seq<char>)
    ensures
        bare(os, s).len() <= s.len(),
    decreases s.len(),
{
    if s.len() > 1 && (is_sep(os, s.last()) || (s.last() == '.' && is_sep(os, s[s.len() - 2]))) {
        lemma_bare(os, s.drop_last());
    }
}

/// A name that can stand in a directory.
pub open spec fn is_name(os: Os, name: Seq<char>) -> bool {
    &&& name.len() > 0
    &&& forall|i: int| 0 <= i < name.len() ==> !is_sep(os, #[trigger] name[i])
    &&& name != "."@ && name != ".."@
    &&& drive_len(os, name) == 0
}

/// A directory, and a name in it: the parent of what they make is the directory
/// again, and the name is its last segment.
#[verifier::rlimit(30)]
pub proof fn law_join_then_parent(os: Os, base: Seq<char>, name: Seq<char>)
    requires
        is_name(os, name),
        base.len() > 0,
        bare(os, rest_of(os, base)) == rest_of(os, base),
    ensures
        parent_of(os, joined_path(os, base, name)) == Some(base),
        name_of(os, joined_path(os, base, name)) == Some(name),
{
    reveal_strlit("/");
    reveal_strlit("\\");
    reveal_strlit(".");
    let p = joined_path(os, base, name);
    let d = drive_len(os, base);
    assert(!is_sep(os, name[0]));
    assert(drive_len(os, p) == d) by {
        if base.len() >= 2 {
            assert(p[0] == base[0] && p[1] == base[1]);
        } else {
            assert(p[0] == base[0]);
            if is_sep(os, base.last()) {
                assert(!is_ascii_letter(base[0]));
            } else {
                assert(p[1] == sep_text(os)[0]);
            }
        }
    }
    let b = rest_of(os, base);
    let t = rest_of(os, p);
    assert(drive_of(os, p) =~= drive_of(os, base));
    assert(drive_of(os, base) + b =~= base);
    let cut = t.len() - name.len();
    assert(t.skip(cut) =~= name);
    assert(t.last() == name.last());
    assert(name[name.len() - 1] == name.last());
    assert forall|i: int| cut <= i < t.len() implies !is_sep(os, #[trigger] t[i]) by {
        assert(t[i] == name[i - cut]);
    }
    if b.len() == 0 {
        assert(cut == 0);
        lemma_last_sep_is(os, t, -1);
        assert(bare(os, t) == t) by {
            if t.len() > 1 {
                assert(!is_sep(os, t[t.len() - 2]));
            }
        }
        assert(t =~= name);
        assert(t.skip(0) =~= name);
        assert(drive_of(os, p) =~= base);
    } else {
        assert(base.last() == b.last());
        assert(is_sep(os, t[cut - 1]));
        lemma_last_sep_is(os, t, cut - 1);
        if name.last() == '.' && is_sep(os, t[t.len() - 2]) {
            assert(name.len() == 1);
            assert(name =~= "."@);
        }
        assert(bare(os, t) == t);
        if is_sep(os, b.last()) {
            if b.len() > 1 {
                lemma_bare(os, b.drop_last());
            }
            assert(b.len() == 1);
            assert(t.take(1) =~= b);
        } else {
            assert(t.take(cut - 1) =~= b);
        }
    }
}

}
