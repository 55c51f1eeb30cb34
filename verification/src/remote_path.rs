//! Remote paths. They are POSIX whatever this machine is, because that is what
//! the SFTP protocol speaks.

use vstd::prelude::*;
use crate::split::{last_of, lemma_last_of, lemma_last_of_is, rfind_char};
use crate::text::{cat, cat3, chars_of, text_between};

verus! {

/// A path without the slashes it ends with.
pub open spec fn unslashed(s: Seq<char>) -> Seq<char>
    decreases s.len(),
{
    if s.len() > 0 && s.last() == '/' {
        unslashed(s.drop_last())
    } else {
        s
    }
}

pub fn unslashed_len(v: &Vec<char>) -> (r: usize)
    ensures
        r <= v@.len(),
        v@.take(r as int) == unslashed(v@),
        r > 0 ==> v@[r - 1] != '/',
{
    let mut n: usize = v.len();
    assert(v@.take(n as int) =~= v@);
    while n > 0 && v[n - 1] == '/'
        invariant
            n <= v@.len(),
            unslashed(v@.take(n as int)) == unslashed(v@),
        decreases n,
    {
        assert(v@.take(n as int).drop_last() =~= v@.take(n - 1));
        n = n - 1;
    }
    n
}

/// A path with a slash at its end.
pub open spec fn remote_slashed(s: Seq<char>) -> Seq<char> {
    if s.len() > 0 && s.last() == '/' {
        s
    } else {
        s + "/"@
    }
}

pub fn with_slash(s: &str) -> (r: String)
    ensures
        r@ == remote_slashed(s@),
{
    let v = chars_of(s);
    let n: usize = v.len();
    if n > 0 && v[n - 1] == '/' {
        s.to_owned()
    } else {
        cat(s, "/")
    }
}

/// A typed path as the directory to list and the segment being typed.
pub open spec fn split_remote_of(input: Seq<char>) -> (Seq<char>, Seq<char>) {
    let cut = last_of(input, '/');
    if cut == -1 {
        ("."@, input)
    } else if cut == 0 {
        ("/"@, input.skip(1))
    } else {
        (input.take(cut), input.skip(cut + 1))
    }
}

/// Split a typed remote path into the directory to list and the segment being
/// typed, the same way the local browser does.
pub fn split_remote(input: &str) -> (r: (String, String))
    ensures
        (r.0@, r.1@) == split_remote_of(input@),
{
    let v = chars_of(input);
    let n: usize = v.len();
    match rfind_char(&v, '/') {
        None => (".".to_owned(), input.to_owned()),
        Some(cut) => {
            assert(v@.skip(cut + 1) =~= v@.subrange(cut + 1, n as int));
            if cut == 0 {
                ("/".to_owned(), text_between(&v, 1, n))
            } else {
                assert(v@.take(cut as int) =~= v@.subrange(0, cut as int));
                (text_between(&v, 0, cut), text_between(&v, cut + 1, n))
            }
        },
    }
}

pub open spec fn join_remote_of(dir: Seq<char>, name: Seq<char>) -> Seq<char> {
    if dir.len() > 0 && dir.last() == '/' {
        dir + name
    } else {
        dir + "/"@ + name
    }
}

pub fn join_remote(dir: &str, name: &str) -> (r: String)
    ensures
        r@ == join_remote_of(dir@, name@),
{
    let v = chars_of(dir);
    let n: usize = v.len();
    if n > 0 && v[n - 1] == '/' {
        cat(dir, name)
    } else {
        cat3(dir, "/", name)
    }
}

/// One level up. The root is its own parent, and a bare name is in the working
/// directory.
pub open spec fn parent_remote_of(dir: Seq<char>) -> Seq<char> {
    let t = unslashed(dir);
    let cut = last_of(t, '/');
    if cut > 0 {
        t.take(cut)
    } else if cut == 0 || (dir.len() > 0 && dir[0] == '/') {
        "/"@
    } else {
        "."@
    }
}

/// One level up, staying inside the remote's own path rules.
pub fn parent_remote(dir: &str) -> (r: String)
    ensures
        r@ == parent_remote_of(dir@),
{
    let v = chars_of(dir);
    let rooted = v.len() > 0 && v[0] == '/';
    let n: usize = unslashed_len(&v);
    let ghost t = unslashed(dir@);
    let mut i: usize = n;
    while i > 0 && v[i - 1] != '/'
        invariant
            i <= n <= v@.len(),
            t == v@.take(n as int),
            forall|k: int| i <= k < n ==> t[k] != '/',
        decreases i,
    {
        i = i - 1;
    }
    proof {
        lemma_last_of_is(t, '/', i - 1);
    }
    if i > 1 {
        assert(t.take(i - 1) =~= v@.subrange(0, i - 1));
        text_between(&v, 0, i - 1)
    } else if i == 1 || rooted {
        "/".to_owned()
    } else {
        ".".to_owned()
    }
}

/// The last segment of a path.
pub open spec fn base_of_path(path: Seq<char>) -> Seq<char> {
    let t = unslashed(path);
    t.skip(last_of(t, '/') + 1)
}

pub fn base_name(path: &str) -> (r: String)
    ensures
        r@ == base_of_path(path@),
{
    let v = chars_of(path);
    let n: usize = unslashed_len(&v);
    let ghost t = unslashed(path@);
    let mut i: usize = n;
    while i > 0 && v[i - 1] != '/'
        invariant
            i <= n <= v@.len(),
            t == v@.take(n as int),
            forall|k: int| i <= k < n ==> t[k] != '/',
        decreases i,
    {
        i = i - 1;
    }
    proof {
        lemma_last_of_is(t, '/', i - 1);
    }
    assert(t.skip(i as int) =~= v@.subrange(i as int, n as int));
    text_between(&v, i, n)
}

/// The last segment of a path never holds a slash.
pub proof fn law_base_name_is_one_segment(path: Seq<char>)
    ensures
        !base_of_path(path).contains('/'),
{
    let t = unslashed(path);
    lemma_last_of(t, '/');
    let b = base_of_path(path);
    if b.contains('/') {
        let i = choose|i: int| 0 <= i < b.len() && b[i] == '/';
        assert(t[last_of(t, '/') + 1 + i] == '/');
    }
}

/// Walking into a directory and out again: the parent of what `dir` and `name`
/// make is `dir`, and its last segment is `name`.
pub proof fn law_join_then_parent(dir: Seq<char>, name: Seq<char>)
    requires
        name.len() > 0,
        !name.contains('/'),
        dir.len() > 0,
        unslashed(dir) == dir || dir == "/"@,
    ensures
        parent_remote_of(join_remote_of(dir, name)) == dir,
        base_of_path(join_remote_of(dir, name)) == name,
{
    reveal_strlit("/");
    let p = join_remote_of(dir, name);
    assert forall|i: int| 0 <= i < name.len() implies name[i] != '/' by {
        assert(name.contains(name[i]));
    }
    assert(p.last() == name.last());
    assert(unslashed(p) == p);
    let cut = p.len() - name.len() - 1;
    assert(p[cut] == '/');
    assert forall|i: int| cut < i < p.len() implies p[i] != '/' by {
        assert(p[i] == name[i - cut - 1]);
    }
    lemma_last_of_is(p, '/', cut);
    assert(p.skip(cut + 1) =~= name);
    if dir =~= "/"@ {
        assert(cut == 0);
    } else {
        if dir.last() == '/' {
            lemma_unslashed_shorter(dir.drop_last());
        }
        assert(p.take(cut) =~= dir);
    }
}

proof fn lemma_unslashed_shorter(s: Seq<char>)
    ensures
        unslashed(s).len() <= s.len(),
    decreases s.len(),
{
    if s.len() > 0 && s.last() == '/' {
        lemma_unslashed_shorter(s.drop_last());
    }
}

/// What is listed after typing a directory with a slash behind it is that
/// directory, with nothing typed of a name.
pub proof fn law_slash_lists_the_directory(dir: Seq<char>)
    requires
        dir.len() > 0,
        dir.last() != '/' || dir == "/"@,
    ensures
        split_remote_of(remote_slashed(dir)) == (dir, Seq::<char>::empty()),
{
    reveal_strlit("/");
    let p = remote_slashed(dir);
    if dir =~= "/"@ {
        lemma_last_of_is(p, '/', 0);
        assert(p.skip(1) =~= Seq::<char>::empty());
    } else {
        assert(p =~= dir.push('/'));
        lemma_last_of_is(p, '/', dir.len() as int);
        assert(p.take(dir.len() as int) =~= dir);
        assert(p.skip(dir.len() as int + 1) =~= Seq::<char>::empty());
    }
}

}
