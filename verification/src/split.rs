//! Finding things in a text, and taking it apart.

use vstd::prelude::*;
use crate::text::{
    add_text, chars_of, char_is_space, is_space, joined, no_texts, text_between, texts,
};

verus! {

// ---------------------------------------------------------------------------
// Searching
// ---------------------------------------------------------------------------

/// Where `c` first stands; the length where it does not.
pub open spec fn first_of(s: Seq<char>, c: char) -> int
    decreases s.len(),
{
    if s.len() == 0 || s[0] == c {
        0
    } else {
        1 + first_of(s.drop_first(), c)
    }
}

/// Where `c` last stands; -1 where it does not.
pub open spec fn last_of(s: Seq<char>, c: char) -> int
    decreases s.len(),
{
    if s.len() == 0 {
        -1
    } else if s.last() == c {
        s.len() - 1
    } else {
        last_of(s.drop_last(), c)
    }
}

pub proof fn lemma_first_of(s: Seq<char>, c: char)
    ensures
        0 <= first_of(s, c) <= s.len(),
        first_of(s, c) < s.len() ==> s[first_of(s, c)] == c,
        forall|i: int| 0 <= i < first_of(s, c) ==> s[i] != c,
    decreases s.len(),
{
    if s.len() > 0 && s[0] != c {
        lemma_first_of(s.drop_first(), c);
        assert forall|i: int| 0 <= i < first_of(s, c) implies s[i] != c by {
            if i > 0 {
                assert(s[i] == s.drop_first()[i - 1]);
            }
        }
    }
}

pub proof fn lemma_first_of_is(s: Seq<char>, c: char, n: int)
    requires
        0 <= n <= s.len(),
        n < s.len() ==> s[n] == c,
        forall|i: int| 0 <= i < n ==> s[i] != c,
    ensures
        first_of(s, c) == n,
{
    lemma_first_of(s, c);
    let m = first_of(s, c);
    if m < n {
        assert(s[m] != c);
    }
    if n < m {
        assert(s[n] != c);
    }
}

pub proof fn lemma_last_of(s: Seq<char>, c: char)
    ensures
        -1 <= last_of(s, c) < s.len(),
        last_of(s, c) >= 0 ==> s[last_of(s, c)] == c,
        forall|i: int| last_of(s, c) < i < s.len() ==> s[i] != c,
    decreases s.len(),
{
    if s.len() > 0 && s.last() != c {
        lemma_last_of(s.drop_last(), c);
        assert forall|i: int| last_of(s, c) < i < s.len() implies s[i] != c by {
            if i < s.len() - 1 {
                assert(s[i] == s.drop_last()[i]);
            }
        }
    }
}

pub proof fn lemma_last_of_is(s: Seq<char>, c: char, n: int)
    requires
        -1 <= n < s.len(),
        n >= 0 ==> s[n] == c,
        forall|i: int| n < i < s.len() ==> s[i] != c,
    ensures
        last_of(s, c) == n,
{
    lemma_last_of(s, c);
    let m = last_of(s, c);
    if n < m {
        assert(s[m] != c);
    }
    if m < n {
        assert(s[n] != c);
    }
}

pub fn find_char(v: &Vec<char>, c: char) -> (r: Option<usize>)
    ensures
        r is None <==> first_of(v@, c) == v@.len(),
        r is Some ==> r->0 == first_of(v@, c) && r->0 < v@.len(),
{
    let mut i: usize = 0;
    while i < v.len()
        invariant
            i <= v@.len(),
            forall|j: int| 0 <= j < i ==> v@[j] != c,
        decreases v@.len() - i,
    {
        if v[i] == c {
            proof {
                lemma_first_of_is(v@, c, i as int);
            }
            return Some(i);
        }
        i = i + 1;
    }
    proof {
        lemma_first_of_is(v@, c, i as int);
    }
    None
}

pub fn rfind_char(v: &Vec<char>, c: char) -> (r: Option<usize>)
    ensures
        r is None <==> last_of(v@, c) == -1,
        r is Some ==> r->0 == last_of(v@, c) && r->0 < v@.len(),
{
    let mut i: usize = v.len();
    while i > 0
        invariant
            i <= v@.len(),
            forall|j: int| i <= j < v@.len() ==> v@[j] != c,
        decreases i,
    {
        if v[i - 1] == c {
            proof {
                lemma_last_of_is(v@, c, i - 1);
            }
            return Some(i - 1);
        }
        i = i - 1;
    }
    proof {
        lemma_last_of_is(v@, c, -1);
    }
    None
}

/// The text before and after the first `c`, where there is one.
pub open spec fn split_once_at(s: Seq<char>, c: char) -> Option<(Seq<char>, Seq<char>)> {
    let i = first_of(s, c);
    if i < s.len() {
        Some((s.take(i), s.skip(i + 1)))
    } else {
        None
    }
}

pub fn split_once(s: &str, c: char) -> (r: Option<(String, String)>)
    ensures
        r is None <==> split_once_at(s@, c) is None,
        r is Some ==> (r->0).0@ == (split_once_at(s@, c)->0).0,
        r is Some ==> (r->0).1@ == (split_once_at(s@, c)->0).1,
{
    let v = chars_of(s);
    proof {
        lemma_first_of(v@, c);
    }
    match find_char(&v, c) {
        Some(i) => {
            assert(v@.subrange(0, i as int) =~= v@.take(i as int));
            assert(v@.subrange(i + 1, v@.len() as int) =~= v@.skip(i + 1));
            let n: usize = v.len();
            Some((text_between(&v, 0, i), text_between(&v, i + 1, n)))
        },
        None => None,
    }
}

/// Whether `p` stands in `s` at `i`.
pub open spec fn occurs_at(s: Seq<char>, p: Seq<char>, i: int) -> bool {
    0 <= i && i + p.len() <= s.len() && s.subrange(i, i + p.len()) == p
}

/// Whether `p` stands anywhere in `s`.
pub open spec fn occurs(s: Seq<char>, p: Seq<char>) -> bool {
    exists|i: int| occurs_at(s, p, i)
}

fn chars_occur_at(s: &Vec<char>, p: &Vec<char>, i: usize) -> (r: bool)
    requires
        i + p@.len() <= s@.len(),
    ensures
        r == occurs_at(s@, p@, i as int),
{
    let n: usize = s.len();
    let mut j: usize = 0;
    while j < p.len()
        invariant
            j <= p@.len(),
            n == s@.len(),
            i + p@.len() <= n,
            forall|k: int| 0 <= k < j ==> s@[i + k] == p@[k],
        decreases p@.len() - j,
    {
        if s[i + j] != p[j] {
            assert(s@.subrange(i as int, i + p@.len())[j as int] == s@[i + j]);
            return false;
        }
        j = j + 1;
    }
    assert(s@.subrange(i as int, i + p@.len()) =~= p@);
    true
}

pub fn contains(s: &str, p: &str) -> (r: bool)
    ensures
        r == occurs(s@, p@),
{
    let v = chars_of(s);
    let w = chars_of(p);
    chars_contain(&v, &w)
}

pub fn chars_contain(v: &Vec<char>, w: &Vec<char>) -> (r: bool)
    ensures
        r == occurs(v@, w@),
{
    if w.len() > v.len() {
        return false;
    }
    let last: usize = v.len() - w.len();
    let mut i: usize = 0;
    while i <= last
        invariant
            w@.len() <= v@.len(),
            last == v@.len() - w@.len(),
            i <= last + 1,
            forall|k: int| 0 <= k < i ==> !occurs_at(v@, w@, k),
        decreases last + 1 - i,
    {
        if chars_occur_at(v, w, i) {
            return true;
        }
        if i == last {
            return false;
        }
        i = i + 1;
    }
    false
}

pub open spec fn starts(s: Seq<char>, p: Seq<char>) -> bool {
    p.len() <= s.len() && s.take(p.len() as int) == p
}

pub open spec fn ends(s: Seq<char>, p: Seq<char>) -> bool {
    p.len() <= s.len() && s.skip(s.len() - p.len()) == p
}

pub fn starts_with(s: &str, p: &str) -> (r: bool)
    ensures
        r == starts(s@, p@),
{
    let v = chars_of(s);
    let w = chars_of(p);
    if w.len() > v.len() {
        return false;
    }
    assert(v@.subrange(0, w@.len() as int) =~= v@.take(w@.len() as int));
    chars_occur_at(&v, &w, 0)
}

pub fn ends_with(s: &str, p: &str) -> (r: bool)
    ensures
        r == ends(s@, p@),
{
    let v = chars_of(s);
    let w = chars_of(p);
    if w.len() > v.len() {
        return false;
    }
    assert(v@.subrange(v@.len() - w@.len(), v@.len() as int) =~= v@.skip(v@.len() - w@.len()));
    chars_occur_at(&v, &w, v.len() - w.len())
}

/// The rest of a text that starts with `p`.
pub fn strip_prefix(s: &str, p: &str) -> (r: Option<String>)
    ensures
        r is Some <==> starts(s@, p@),
        r is Some ==> r->0@ == s@.skip(p@.len() as int),
{
    if starts_with(s, p) {
        let v = chars_of(s);
        let n: usize = chars_of(p).len();
        assert(v@.subrange(n as int, v@.len() as int) =~= v@.skip(n as int));
        Some(text_between(&v, n, v.len()))
    } else {
        None
    }
}

pub fn has_char(s: &str, c: char) -> (r: bool)
    ensures
        r == s@.contains(c),
{
    let v = chars_of(s);
    proof {
        lemma_first_of(v@, c);
    }
    match find_char(&v, c) {
        Some(i) => {
            assert(v@[i as int] == c);
            true
        },
        None => false,
    }
}

// ---------------------------------------------------------------------------
// Splitting
// ---------------------------------------------------------------------------

/// The pieces between the characters that `p` picks out, empty ones among them.
pub open spec fn pieces(s: Seq<char>, p: spec_fn(char) -> bool) -> Seq<Seq<char>>
    decreases s.len(),
{
    if s.len() == 0 {
        seq![Seq::<char>::empty()]
    } else {
        let r = pieces(s.drop_last(), p);
        if p(s.last()) {
            r.push(Seq::empty())
        } else {
            r.drop_last().push(r.last().push(s.last()))
        }
    }
}

pub proof fn lemma_pieces_len(s: Seq<char>, p: spec_fn(char) -> bool)
    ensures
        pieces(s, p).len() >= 1,
    decreases s.len(),
{
    if s.len() > 0 {
        lemma_pieces_len(s.drop_last(), p);
    }
}

/// A separator never stands inside a piece.
pub proof fn lemma_pieces_clean(s: Seq<char>, p: spec_fn(char) -> bool)
    ensures
        pieces(s, p).len() >= 1,
        forall|i: int, j: int|
            0 <= i < pieces(s, p).len() && 0 <= j < pieces(s, p)[i].len() ==> !p(
                #[trigger] pieces(s, p)[i][j],
            ),
    decreases s.len(),
{
    if s.len() > 0 {
        lemma_pieces_clean(s.drop_last(), p);
        let r = pieces(s.drop_last(), p);
        let t = pieces(s, p);
        assert forall|i: int, j: int| 0 <= i < t.len() && 0 <= j < t[i].len() implies !p(
            #[trigger] t[i][j],
        ) by {
            if i < r.len() && j < r[i].len() {
                assert(t[i][j] == r[i][j]);
            }
        }
    }
}

pub open spec fn is_char(c: char) -> spec_fn(char) -> bool {
    |x: char| x == c
}

pub open spec fn is_space_fn() -> spec_fn(char) -> bool {
    |x: char| is_space(x)
}

/// The pieces between the `c`s.
pub fn split(s: &str, c: char) -> (r: Vec<String>)
    ensures
        texts(r@) == pieces(s@, is_char(c)),
{
    let v = chars_of(s);
    let mut out = no_texts();
    let mut cur = String::new();
    let mut i: usize = 0;
    let ghost p = is_char(c);
    proof {
        assert(v@.take(0) =~= Seq::<char>::empty());
        assert(pieces(v@.take(0), p).drop_last() =~= Seq::<Seq<char>>::empty());
    }
    while i < v.len()
        invariant
            i <= v@.len(),
            p == is_char(c),
            pieces(v@.take(i as int), p).len() >= 1,
            texts(out@) == pieces(v@.take(i as int), p).drop_last(),
            cur@ == pieces(v@.take(i as int), p).last(),
        decreases v@.len() - i,
    {
        let ghost before = pieces(v@.take(i as int), p);
        assert(v@.take(i + 1).drop_last() =~= v@.take(i as int));
        if v[i] == c {
            add_text(&mut out, cur);
            cur = String::new();
            assert(texts(out@) =~= before);
            assert(before.push(Seq::<char>::empty()).drop_last() =~= before);
        } else {
            cur.push(v[i]);
            assert(pieces(v@.take(i + 1), p).drop_last() =~= before.drop_last());
        }
        i = i + 1;
    }
    assert(v@.take(v@.len() as int) =~= v@);
    add_text(&mut out, cur);
    assert(texts(out@) =~= pieces(s@, p));
    out
}

/// The texts of a list that are not empty.
pub open spec fn nonempty(ps: Seq<Seq<char>>) -> Seq<Seq<char>>
    decreases ps.len(),
{
    if ps.len() == 0 {
        ps
    } else if ps.last().len() > 0 {
        nonempty(ps.drop_last()).push(ps.last())
    } else {
        nonempty(ps.drop_last())
    }
}

/// The words of a text: what white space separates.
pub open spec fn words(s: Seq<char>) -> Seq<Seq<char>> {
    nonempty(pieces(s, is_space_fn()))
}

proof fn lemma_nonempty_of(ps: Seq<Seq<char>>)
    requires
        forall|i: int, j: int|
            0 <= i < ps.len() && 0 <= j < ps[i].len() ==> !is_space(#[trigger] ps[i][j]),
    ensures
        forall|i: int| 0 <= i < nonempty(ps).len() ==> is_word(#[trigger] nonempty(ps)[i]),
    decreases ps.len(),
{
    if ps.len() > 0 {
        let head = ps.drop_last();
        assert forall|i: int, j: int| 0 <= i < head.len() && 0 <= j < head[i].len() implies !is_space(
            #[trigger] head[i][j],
        ) by {
            assert(head[i][j] == ps[i][j]);
        }
        lemma_nonempty_of(head);
        let r = nonempty(ps);
        let b = nonempty(head);
        assert forall|i: int| 0 <= i < r.len() implies is_word(#[trigger] r[i]) by {
            if i < b.len() {
                assert(r[i] == b[i]);
            } else {
                let w = ps[ps.len() - 1];
                assert(r[i] == w);
                assert forall|j: int| 0 <= j < w.len() implies !is_space(#[trigger] w[j]) by {
                    assert(!is_space(ps[ps.len() - 1][j]));
                }
            }
        }
    }
}

/// A word: not empty and without white space.
pub open spec fn is_word(w: Seq<char>) -> bool {
    w.len() > 0 && forall|j: int| 0 <= j < w.len() ==> !is_space(#[trigger] w[j])
}

/// The words of a text are words.
pub proof fn lemma_words(s: Seq<char>)
    ensures
        forall|i: int| 0 <= i < words(s).len() ==> is_word(#[trigger] words(s)[i]),
{
    let ps = pieces(s, is_space_fn());
    lemma_pieces_clean(s, is_space_fn());
    assert forall|i: int, j: int| 0 <= i < ps.len() && 0 <= j < ps[i].len() implies !is_space(
        #[trigger] ps[i][j],
    ) by {
        assert(!(is_space_fn())(ps[i][j]));
    }
    lemma_nonempty_of(ps);
}

proof fn lemma_pieces_around(x: Seq<char>, c: char, y: Seq<char>, p: spec_fn(char) -> bool)
    requires
        p(c),
    ensures
        pieces(x + seq![c] + y, p) == pieces(x, p) + pieces(y, p),
    decreases y.len(),
{
    let s = x + seq![c] + y;
    if y.len() == 0 {
        assert(s.drop_last() =~= x);
        assert(pieces(x, p).push(Seq::empty()) =~= pieces(x, p) + pieces(y, p));
    } else {
        assert(s.drop_last() =~= x + seq![c] + y.drop_last());
        assert(s.last() == y.last());
        lemma_pieces_around(x, c, y.drop_last(), p);
        lemma_pieces_len(y.drop_last(), p);
        let a = pieces(x, p);
        let b = pieces(y.drop_last(), p);
        assert((a + b).last() == b.last());
        if p(y.last()) {
            assert((a + b).push(Seq::empty()) =~= a + b.push(Seq::empty()));
        } else {
            assert((a + b).drop_last().push(b.last().push(y.last())) =~= a + b.drop_last().push(
                b.last().push(y.last()),
            ));
        }
    }
}

proof fn lemma_nonempty_add(a: Seq<Seq<char>>, b: Seq<Seq<char>>)
    ensures
        nonempty(a + b) == nonempty(a) + nonempty(b),
    decreases b.len(),
{
    if b.len() == 0 {
        assert(a + b =~= a);
        assert(nonempty(a) + nonempty(b) =~= nonempty(a));
    } else {
        assert((a + b).drop_last() =~= a + b.drop_last());
        assert((a + b).last() == b.last());
        lemma_nonempty_add(a, b.drop_last());
        assert(nonempty(a) + nonempty(b.drop_last()).push(b.last()) =~= (nonempty(a) + nonempty(
            b.drop_last(),
        )).push(b.last()));
    }
}

/// The words of two texts with a space between them are the words of the one and
/// then those of the other.
pub proof fn lemma_words_around(x: Seq<char>, y: Seq<char>)
    ensures
        words(x + seq![' '] + y) == words(x) + words(y),
{
    let p = is_space_fn();
    assert(p(' '));
    lemma_pieces_around(x, ' ', y, p);
    lemma_nonempty_add(pieces(x, p), pieces(y, p));
}

proof fn lemma_pieces_of_word(w: Seq<char>, p: spec_fn(char) -> bool)
    requires
        forall|j: int| 0 <= j < w.len() ==> !p(#[trigger] w[j]),
    ensures
        pieces(w, p) == seq![w],
    decreases w.len(),
{
    if w.len() == 0 {
        assert(w =~= Seq::<char>::empty());
    } else {
        let v = w.drop_last();
        assert forall|j: int| 0 <= j < v.len() implies !p(#[trigger] v[j]) by {
            assert(v[j] == w[j]);
        }
        lemma_pieces_of_word(v, p);
        assert(!p(w[w.len() - 1]));
        assert(v.push(w.last()) =~= w);
        assert(seq![v].drop_last().push(w) =~= seq![w]);
    }
}

/// A word is the only word of itself.
pub proof fn lemma_words_of_word(w: Seq<char>)
    requires
        is_word(w),
    ensures
        words(w) == seq![w],
{
    let p = is_space_fn();
    assert forall|j: int| 0 <= j < w.len() implies !p(#[trigger] w[j]) by {
        assert(!is_space(w[j]));
    }
    lemma_pieces_of_word(w, p);
    let one = seq![w];
    reveal_with_fuel(nonempty, 2);
    assert(one.drop_last() =~= Seq::<Seq<char>>::empty());
    assert(one.last() == w);
    assert(nonempty(one) =~= one);
}

/// Words put together with single spaces come apart again.
pub proof fn lemma_words_of_joined(ws: Seq<Seq<char>>)
    requires
        forall|i: int| 0 <= i < ws.len() ==> is_word(#[trigger] ws[i]),
    ensures
        words(joined(ws, " "@)) == ws,
    decreases ws.len(),
{
    reveal_strlit(" ");
    if ws.len() == 0 {
        let one = seq![Seq::<char>::empty()];
        reveal_with_fuel(nonempty, 2);
        assert(one.drop_last() =~= Seq::<Seq<char>>::empty());
        assert(one.last().len() == 0);
        assert(ws =~= Seq::<Seq<char>>::empty());
    } else {
        let last = ws[ws.len() - 1];
        lemma_words_of_word(last);
        if ws.len() == 1 {
            assert(ws =~= seq![last]);
        } else {
            let head = ws.drop_last();
            assert forall|i: int| 0 <= i < head.len() implies is_word(#[trigger] head[i]) by {
                assert(head[i] == ws[i]);
            }
            lemma_words_of_joined(head);
            lemma_words_around(joined(head, " "@), last);
            assert(" "@ =~= seq![' ']);
            assert(head + seq![last] =~= ws);
        }
    }
}

pub fn split_words(s: &str) -> (r: Vec<String>)
    ensures
        texts(r@) == words(s@),
{
    let v = chars_of(s);
    let mut out = no_texts();
    let mut cur = String::new();
    let mut i: usize = 0;
    let ghost p = is_space_fn();
    proof {
        assert(v@.take(0) =~= Seq::<char>::empty());
        assert(pieces(v@.take(0), p).drop_last() =~= Seq::<Seq<char>>::empty());
    }
    while i < v.len()
        invariant
            i <= v@.len(),
            p == is_space_fn(),
            pieces(v@.take(i as int), p).len() >= 1,
            texts(out@) == nonempty(pieces(v@.take(i as int), p).drop_last()),
            cur@ == pieces(v@.take(i as int), p).last(),
        decreases v@.len() - i,
    {
        let ghost before = pieces(v@.take(i as int), p);
        assert(v@.take(i + 1).drop_last() =~= v@.take(i as int));
        if char_is_space(v[i]) {
            assert(before.push(Seq::<char>::empty()).drop_last() =~= before);
            if !cur.as_str().is_empty() {
                add_text(&mut out, cur);
                cur = String::new();
            }
            assert(cur@ =~= Seq::<char>::empty());
        } else {
            cur.push(v[i]);
            assert(pieces(v@.take(i + 1), p).drop_last() =~= before.drop_last());
        }
        i = i + 1;
    }
    assert(v@.take(v@.len() as int) =~= v@);
    if !cur.as_str().is_empty() {
        add_text(&mut out, cur);
    }
    out
}

/// A line without the carriage return that came before its line feed.
pub open spec fn without_cr(s: Seq<char>) -> Seq<char> {
    if s.len() > 0 && s.last() == '\r' {
        s.drop_last()
    } else {
        s
    }
}

/// The lines of a text. A line feed ends a line, with the carriage return
/// before it where there is one; what follows the last line feed is a line too
/// unless it is empty.
pub open spec fn lines(s: Seq<char>) -> Seq<Seq<char>> {
    let ps = pieces(s, is_char('\n'));
    let ended = ps.drop_last().map_values(|l: Seq<char>| without_cr(l));
    if ps.last().len() > 0 {
        ended.push(ps.last())
    } else {
        ended
    }
}

pub fn split_lines(s: &str) -> (r: Vec<String>)
    ensures
        texts(r@) == lines(s@),
{
    let parts = split(s, '\n');
    proof {
        lemma_pieces_len(s@, is_char('\n'));
    }
    let ghost ps = texts(parts@);
    let ghost ended = ps.drop_last().map_values(|l: Seq<char>| without_cr(l));
    let n: usize = parts.len() - 1;
    let mut out = no_texts();
    let mut i: usize = 0;
    assert(texts(out@) =~= ended.take(0));
    while i < n
        invariant
            n == parts@.len() - 1,
            ps == texts(parts@),
            ended == ps.drop_last().map_values(|l: Seq<char>| without_cr(l)),
            i <= n,
            texts(out@) == ended.take(i as int),
        decreases n - i,
    {
        let mut l = parts[i].clone();
        let v = chars_of(l.as_str());
        if v.len() > 0 && v[v.len() - 1] == '\r' {
            let _ = l.pop();
        }
        assert(l@ == ended[i as int]);
        add_text(&mut out, l);
        i = i + 1;
        assert(ended.take(i as int) =~= ended.take(i - 1).push(ended[i - 1]));
    }
    assert(ended.take(n as int) =~= ended);
    assert(ps.last() == parts@[n as int]@);
    if !parts[n].as_str().is_empty() {
        add_text(&mut out, parts[n].clone());
    }
    out
}

// ---------------------------------------------------------------------------
// Replacing
// ---------------------------------------------------------------------------

/// A text with every `p` in it replaced, from left to right.
pub open spec fn replaced(s: Seq<char>, p: Seq<char>, by: Seq<char>) -> Seq<char>
    decreases s.len(),
{
    if s.len() == 0 || p.len() == 0 {
        s
    } else if starts(s, p) {
        by + replaced(s.skip(p.len() as int), p, by)
    } else {
        seq![s[0]] + replaced(s.drop_first(), p, by)
    }
}

pub fn replace(s: &str, p: &str, by: &str) -> (r: String)
    requires
        p@.len() > 0,
    ensures
        r@ == replaced(s@, p@, by@),
{
    let v = chars_of(s);
    let w = chars_of(p);
    let total: usize = v.len();
    let n: usize = w.len();
    let mut out = String::new();
    let mut i: usize = 0;
    assert(v@.skip(0) =~= v@);
    assert(out@ + replaced(v@, w@, by@) =~= replaced(v@, w@, by@));
    while i < total
        invariant
            total == v@.len(),
            n == w@.len(),
            n > 0,
            i <= total,
            v@ == s@,
            w@ == p@,
            replaced(s@, p@, by@) == out@ + replaced(v@.skip(i as int), w@, by@),
        decreases total - i,
    {
        let ghost rest = v@.skip(i as int);
        if n <= total - i && chars_occur_at(&v, &w, i) {
            assert(rest.take(n as int) =~= v@.subrange(i as int, i + n));
            assert(rest.skip(n as int) =~= v@.skip(i + n));
            out.push_str(by);
            i = i + n;
            assert(replaced(s@, p@, by@) =~= out@ + replaced(v@.skip(i as int), w@, by@));
        } else {
            assert(n <= total - i ==> rest.take(n as int) =~= v@.subrange(i as int, i + n));
            assert(!starts(rest, w@));
            assert(rest.drop_first() =~= v@.skip(i + 1));
            out.push(v[i]);
            i = i + 1;
            assert(replaced(s@, p@, by@) =~= out@ + replaced(v@.skip(i as int), w@, by@));
        }
    }
    assert(v@.skip(total as int) =~= Seq::<char>::empty());
    assert(out@ + Seq::<char>::empty() =~= out@);
    out
}

}
