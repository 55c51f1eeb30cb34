//! Keeping secrets out of what is written down.

use vstd::prelude::*;
use crate::split::{
    self, ends, is_word, lemma_words, lemma_words_around, lemma_words_of_joined, lemma_words_of_word,
    words,
};
use crate::text::{
    self, ascii_lower, cat3, chars_of, is_ascii_alnum, is_space, joined, text_between, texts,
};
use crate::number::{self, decimal};

verus! {

/// What a redacted value is replaced with. Spelled out rather than starred, so
/// that whoever reads the report knows something was removed on purpose.
pub const REDACTED: &'static str = "<redacted>";

/// Where the first `=` or `:` of a word stands; the length where there is none.
pub open spec fn assignment_at(w: Seq<char>) -> int
    decreases w.len(),
{
    if w.len() == 0 || w[0] == '=' || w[0] == ':' {
        0
    } else {
        1 + assignment_at(w.drop_first())
    }
}

/// A `key=value` or `key:value` word.
pub open spec fn is_assignment(w: Seq<char>) -> bool {
    assignment_at(w) < w.len()
}

proof fn lemma_assignment_at(w: Seq<char>)
    ensures
        0 <= assignment_at(w) <= w.len(),
        forall|i: int| 0 <= i < assignment_at(w) ==> w[i] != '=' && w[i] != ':',
        assignment_at(w) < w.len() ==> w[assignment_at(w)] == '=' || w[assignment_at(w)] == ':',
    decreases w.len(),
{
    if w.len() > 0 && w[0] != '=' && w[0] != ':' {
        lemma_assignment_at(w.drop_first());
        assert forall|i: int| 0 <= i < assignment_at(w) implies w[i] != '=' && w[i] != ':' by {
            if i > 0 {
                assert(w[i] == w.drop_first()[i - 1]);
            }
        }
    }
}

proof fn lemma_assignment_is(w: Seq<char>, n: int)
    requires
        0 <= n <= w.len(),
        n < w.len() ==> w[n] == '=' || w[n] == ':',
        forall|i: int| 0 <= i < n ==> w[i] != '=' && w[i] != ':',
    ensures
        assignment_at(w) == n,
{
    lemma_assignment_at(w);
    let m = assignment_at(w);
    if m < n {
        assert(w[m] != '=' && w[m] != ':');
    }
    if n < m {
        assert(w[n] != '=' && w[n] != ':');
    }
}

/// The letters and digits of a key, small.
pub open spec fn flat(key: Seq<char>) -> Seq<char>
    decreases key.len(),
{
    if key.len() == 0 {
        Seq::empty()
    } else if is_ascii_alnum(key.last()) {
        flat(key.drop_last()).push(ascii_lower(key.last()))
    } else {
        flat(key.drop_last())
    }
}

/// Whether a key names a secret.
///
/// The word has to be at the *end* of the key, because that is where a flag
/// that takes a secret puts it: `--password`, `--auth-token`, `PrivateKey`. One
/// letter is too little to guess from, so the prefix decides: `/p` is xfreerdp's
/// password, `-p` is ssh's port.
pub open spec fn sensitive(key: Seq<char>) -> bool {
    let f = flat(key);
    if f == "p"@ {
        key.len() > 0 && key[0] == '/'
    } else {
        ends(f, "password"@) || ends(f, "passwd"@) || ends(f, "secret"@) || ends(f, "token"@)
            || ends(f, "privatekey"@) || ends(f, "presharedkey"@) || ends(f, "apikey"@)
    }
}

/// The separator of `key = value`, which is not the secret itself.
pub open spec fn is_separator(w: Seq<char>) -> bool {
    w == "="@ || w == ":"@
}

/// Whether the word at `i` is the value of a secret named before it.
pub open spec fn follows_secret(ws: Seq<Seq<char>>, i: int) -> bool
    decreases i,
{
    if i <= 0 {
        false
    } else if follows_secret(ws, i - 1) {
        is_separator(ws[i - 1])
    } else {
        !is_assignment(ws[i - 1]) && sensitive(ws[i - 1])
    }
}

/// A word with a secret it carries masked.
pub open spec fn masked_word(w: Seq<char>) -> Seq<char> {
    let at = assignment_at(w);
    if at < w.len() && sensitive(w.take(at)) {
        w.take(at + 1) + REDACTED@
    } else {
        w
    }
}

/// The word at `i`, with anything secret masked.
pub open spec fn masked_at(ws: Seq<Seq<char>>, i: int) -> Seq<char> {
    if follows_secret(ws, i) {
        if is_separator(ws[i]) {
            ws[i]
        } else {
            REDACTED@
        }
    } else {
        masked_word(ws[i])
    }
}

pub open spec fn masked(ws: Seq<Seq<char>>) -> Seq<Seq<char>> {
    Seq::new(ws.len(), |i: int| masked_at(ws, i))
}

/// A line with anything that looks like a secret masked.
pub open spec fn redacted(line: Seq<char>) -> Seq<char> {
    joined(masked(words(line)), " "@)
}

fn flatten(key: &Vec<char>) -> (r: String)
    ensures
        r@ == flat(key@),
{
    let mut out = String::new();
    let mut i: usize = 0;
    assert(key@.take(0) =~= Seq::<char>::empty());
    while i < key.len()
        invariant
            i <= key@.len(),
            out@ == flat(key@.take(i as int)),
        decreases key@.len() - i,
    {
        assert(key@.take(i + 1).drop_last() =~= key@.take(i as int));
        if text::char_is_ascii_alnum(key[i]) {
            out.push(text::char_ascii_lower(key[i]));
        }
        i = i + 1;
    }
    assert(key@.take(i as int) =~= key@);
    out
}

/// Whether a key names a secret. `key` keeps whatever it was written with
/// (`--`, `-` or `/`), because that is part of the answer.
pub fn is_sensitive(key: &str) -> (r: bool)
    ensures
        r == sensitive(key@),
{
    let v = chars_of(key);
    let slashed = v.len() > 0 && v[0] == '/';
    let f = flatten(&v);
    let f = f.as_str();
    if text::same(f, "p") {
        return slashed;
    }
    split::ends_with(f, "password") || split::ends_with(f, "passwd") || split::ends_with(
        f,
        "secret",
    ) || split::ends_with(f, "token") || split::ends_with(f, "privatekey") || split::ends_with(
        f,
        "presharedkey",
    ) || split::ends_with(f, "apikey")
}

/// Where the key of a `key=value` or `key:value` word ends, if it has one.
pub fn split_assignment(word: &Vec<char>) -> (r: Option<usize>)
    ensures
        r is Some <==> is_assignment(word@),
        r is Some ==> r->0 == assignment_at(word@) && r->0 < word@.len(),
{
    let mut i: usize = 0;
    while i < word.len()
        invariant
            i <= word@.len(),
            forall|j: int| 0 <= j < i ==> word@[j] != '=' && word@[j] != ':',
        decreases word@.len() - i,
    {
        if word[i] == '=' || word[i] == ':' {
            proof {
                lemma_assignment_is(word@, i as int);
            }
            return Some(i);
        }
        i = i + 1;
    }
    proof {
        lemma_assignment_is(word@, i as int);
    }
    None
}

/// Mask anything on a command line that looks like a secret.
///
/// controlcenter never puts a password on a command line itself, but
/// `extra_args` is free text: `/p:hunter2` for xfreerdp or `--password x` for
/// another tool would be passed straight through, and would otherwise be
/// copied into the report as typed.
pub fn redact(line: &str) -> (r: String)
    ensures
        r@ == redacted(line@),
{
    let ws = split::split_words(line);
    let ghost all = texts(ws@);
    let mut out = text::no_texts();
    let mut mask_next = false;
    let mut i: usize = 0;
    assert(texts(out@) =~= masked(all).take(0));
    while i < ws.len()
        invariant
            i <= ws@.len(),
            all == texts(ws@),
            mask_next == follows_secret(all, i as int),
            texts(out@) == masked(all).take(i as int),
        decreases ws@.len() - i,
    {
        let word = ws[i].as_str();
        assert(all[i as int] == word@);
        if mask_next {
            // `PrivateKey = value`: the separator is not the secret, whatever
            // comes after it is.
            if text::same(word, "=") || text::same(word, ":") {
                text::add_str(&mut out, word);
            } else {
                text::add_str(&mut out, REDACTED);
                mask_next = false;
            }
        } else {
            // A word carrying its own value is settled here, and only a bare
            // flag can mean that the *next* word is the secret.
            let v = chars_of(word);
            match split_assignment(&v) {
                Some(at) => {
                    assert(v@.take(at as int) =~= v@.subrange(0, at as int));
                    assert(v@.take(at + 1) =~= v@.subrange(0, at + 1));
                    if is_sensitive(text_between(&v, 0, at).as_str()) {
                        let kept = text_between(&v, 0, at + 1);
                        text::add_text(&mut out, text::cat(kept.as_str(), REDACTED));
                    } else {
                        text::add_str(&mut out, word);
                    }
                },
                None => {
                    mask_next = is_sensitive(word);
                    text::add_str(&mut out, word);
                },
            }
        }
        i = i + 1;
        assert(masked(all).take(i as int) =~= masked(all).take(i - 1).push(masked_at(all, i - 1)));
    }
    assert(masked(all).take(i as int) =~= masked(all));
    text::join(&out, " ")
}

/// A stored secret as it is reported: that it is there, and nothing else.
pub open spec fn secret_text(value: Seq<char>) -> Seq<char> {
    if value.len() == 0 {
        "not set"@
    } else {
        "set ("@ + decimal(value.len()) + " characters, not shown)"@
    }
}

/// How a stored secret is reported: that it is there, and nothing else.
pub fn secret_note(value: &str) -> (r: String)
    ensures
        r@ == secret_text(value@),
{
    if value.is_empty() {
        "not set".to_owned()
    } else {
        let n: usize = chars_of(value).len();
        cat3("set (", number::write(n as u64).as_str(), " characters, not shown)")
    }
}

/// A command line as the report prints it: one string, secrets masked.
pub fn command_line(argv: &Vec<String>) -> (r: String)
    ensures
        r@ == redacted(joined(texts(argv@), " "@)),
{
    redact(text::join(argv, " ").as_str())
}

/// A word that a bare secret flag stands before never survives, and neither does
/// the value of a `key=value` or `key:value` word whose key names a secret.
pub proof fn law_secrets_are_masked(ws: Seq<Seq<char>>, i: int)
    requires
        0 <= i < ws.len(),
    ensures
        follows_secret(ws, i) && !is_separator(ws[i]) ==> masked(ws)[i] == REDACTED@,
        !follows_secret(ws, i) && is_assignment(ws[i]) && sensitive(ws[i].take(assignment_at(ws[i])))
            ==> masked(ws)[i] == ws[i].take(assignment_at(ws[i]) + 1) + REDACTED@,
        i + 1 < ws.len() && !follows_secret(ws, i) && !is_assignment(ws[i]) && sensitive(ws[i])
            ==> follows_secret(ws, i + 1),
{
}

/// What a stored secret is reported as says how long it is and nothing more.
pub proof fn law_secret_is_not_shown(a: Seq<char>, b: Seq<char>)
    requires
        a.len() == b.len(),
    ensures
        secret_text(a) == secret_text(b),
{
}

proof fn lemma_masked_word_again(w: Seq<char>)
    ensures
        masked_word(masked_word(w)) == masked_word(w),
        is_assignment(masked_word(w)) == is_assignment(w),
        !is_assignment(w) ==> masked_word(w) == w,
{
    reveal_strlit("<redacted>");
    lemma_assignment_at(w);
    let at = assignment_at(w);
    if at < w.len() && sensitive(w.take(at)) {
        let m = w.take(at + 1) + REDACTED@;
        assert forall|i: int| 0 <= i < at implies m[i] != '=' && m[i] != ':' by {
            assert(m[i] == w[i]);
        }
        assert(m[at] == w[at]);
        lemma_assignment_is(m, at);
        assert(m.take(at) =~= w.take(at));
        assert(m.take(at + 1) =~= w.take(at + 1));
    }
}

proof fn lemma_redacted_word_plain()
    ensures
        !is_assignment(REDACTED@),
        !is_separator(REDACTED@),
        !sensitive(REDACTED@),
        masked_word(REDACTED@) == REDACTED@,
{
    reveal_strlit("<redacted>");
    reveal_strlit("=");
    reveal_strlit(":");
    reveal_strlit("p");
    reveal_strlit("password");
    reveal_strlit("passwd");
    reveal_strlit("secret");
    reveal_strlit("token");
    reveal_strlit("privatekey");
    reveal_strlit("presharedkey");
    reveal_strlit("apikey");
    let r = REDACTED@;
    lemma_assignment_is(r, r.len() as int);
    reveal_with_fuel(flat, 11);
    assert(r.drop_last() =~= seq!['<', 'r', 'e', 'd', 'a', 'c', 't', 'e', 'd']);
    let f = flat(r);
    assert(r.last() == '>');
    let s = seq!['<', 'r', 'e', 'd', 'a', 'c', 't', 'e', 'd'];
    assert(flat(r) == flat(s));
    assert(s.last() == 'd');
    assert(f.len() > 0 && f.last() == 'd');
    lemma_flat_len(r);
    assert(f.len() <= 10);
    // A key that ends in one of the words ends in its last letter, and only
    // "password" and "passwd" end in a d.
    let t = s.drop_last();
    assert(t =~= seq!['<', 'r', 'e', 'd', 'a', 'c', 't', 'e']);
    assert(t.last() == 'e');
    assert(f =~= flat(t).push('d'));
    let u = t.drop_last();
    assert(flat(t) =~= flat(u).push('e'));
    assert(f.len() >= 2 && f[f.len() - 2] == 'e');
    if ends(f, "password"@) {
        assert(f.skip(f.len() - 8)[6] == f[f.len() - 2]);
    }
    if ends(f, "passwd"@) {
        assert(f.skip(f.len() - 6)[4] == f[f.len() - 2]);
    }
    if ends(f, "secret"@) {
        assert(f.skip(f.len() - 6)[5] == f.last());
    }
    if ends(f, "token"@) {
        assert(f.skip(f.len() - 5)[4] == f.last());
    }
    if ends(f, "privatekey"@) {
        assert(f.skip(f.len() - 10)[9] == f.last());
    }
    if ends(f, "presharedkey"@) {
        assert(f.len() >= 12);
    }
    if ends(f, "apikey"@) {
        assert(f.skip(f.len() - 6)[5] == f.last());
    }
}

proof fn lemma_flat_len(s: Seq<char>)
    ensures
        flat(s).len() <= s.len(),
    decreases s.len(),
{
    if s.len() > 0 {
        lemma_flat_len(s.drop_last());
    }
}

proof fn lemma_follows_again(ws: Seq<Seq<char>>, i: int)
    requires
        0 <= i <= ws.len(),
    ensures
        follows_secret(masked(ws), i) == follows_secret(ws, i),
    decreases i,
{
    if i > 0 {
        lemma_follows_again(ws, i - 1);
        lemma_redacted_word_plain();
        lemma_masked_word_again(ws[i - 1]);
        let m = masked(ws)[i - 1];
        assert(m == masked_at(ws, i - 1));
    }
}

proof fn lemma_masked_again(ws: Seq<Seq<char>>)
    ensures
        masked(masked(ws)) == masked(ws),
{
    let m = masked(ws);
    assert forall|i: int| 0 <= i < ws.len() implies masked_at(m, i) == m[i] by {
        lemma_follows_again(ws, i);
        lemma_redacted_word_plain();
        lemma_masked_word_again(ws[i]);
    }
    assert(masked(m) =~= m);
}

proof fn lemma_masked_is_word(w: Seq<char>)
    requires
        is_word(w),
    ensures
        is_word(masked_word(w)),
        is_word(REDACTED@),
{
    reveal_strlit("<redacted>");
    lemma_assignment_at(w);
    let m = masked_word(w);
    let at = assignment_at(w);
    let r = REDACTED@;
    assert forall|j: int| 0 <= j < r.len() implies !is_space(#[trigger] r[j]) by {}
    assert forall|j: int| 0 <= j < m.len() implies !is_space(#[trigger] m[j]) by {
        if at < w.len() && sensitive(w.take(at)) {
            if j <= at {
                assert(m[j] == w[j]);
            } else {
                assert(m[j] == r[j - at - 1]);
            }
        }
    }
}

/// Masking a line that has been masked changes nothing.
pub proof fn law_redacting_twice_is_redacting_once(line: Seq<char>)
    ensures
        redacted(redacted(line)) == redacted(line),
{
    let ws = words(line);
    let m = masked(ws);
    lemma_words(line);
    assert forall|i: int| 0 <= i < m.len() implies is_word(#[trigger] m[i]) by {
        lemma_masked_is_word(ws[i]);
        assert(m[i] == masked_at(ws, i));
    }
    lemma_words_of_joined(m);
    lemma_masked_again(ws);
}

/// A key that names a secret and can stand in a word before `=` or `:`.
pub open spec fn secret_key(k: Seq<char>) -> bool {
    &&& sensitive(k)
    &&& is_word(k)
    &&& forall|i: int| 0 <= i < k.len() ==> k[i] != '=' && k[i] != ':'
}

/// Two lines of words that differ in one word only, which is masked alike and
/// means the same for what follows.
proof fn lemma_masked_alike(p: Seq<Seq<char>>, q: Seq<Seq<char>>, j: int)
    requires
        p.len() == q.len(),
        0 <= j < p.len(),
        forall|i: int| 0 <= i < p.len() && i != j ==> #[trigger] p[i] == q[i],
        follows_secret(p, j) == follows_secret(q, j) ==> masked_at(p, j) == masked_at(q, j)
            && follows_secret(p, j + 1) == follows_secret(q, j + 1),
    ensures
        masked(p) == masked(q),
{
    assert forall|i: int| 0 <= i < p.len() implies masked_at(p, i) == masked_at(q, i) by {
        lemma_follows_alike(p, q, j, i);
    }
    assert(masked(p) =~= masked(q));
}

proof fn lemma_follows_alike(p: Seq<Seq<char>>, q: Seq<Seq<char>>, j: int, i: int)
    requires
        p.len() == q.len(),
        0 <= j < p.len(),
        0 <= i < p.len(),
        forall|i: int| 0 <= i < p.len() && i != j ==> #[trigger] p[i] == q[i],
        follows_secret(p, j) == follows_secret(q, j) ==> masked_at(p, j) == masked_at(q, j)
            && follows_secret(p, j + 1) == follows_secret(q, j + 1),
    ensures
        follows_secret(p, i) == follows_secret(q, i),
        masked_at(p, i) == masked_at(q, i),
    decreases i,
{
    if i > 0 {
        lemma_follows_alike(p, q, j, i - 1);
        if i - 1 != j {
            assert(p[i - 1] == q[i - 1]);
        }
    }
    if i != j {
        assert(p[i] == q[i]);
    }
}

/// A word `key=value` or `key:value` whose key names a secret.
proof fn lemma_secret_word(k: Seq<char>, c: char, v: Seq<char>)
    requires
        secret_key(k),
        c == '=' || c == ':',
        is_word(v),
    ensures
        is_word(k + seq![c] + v),
        is_assignment(k + seq![c] + v),
        !is_separator(k + seq![c] + v),
        masked_word(k + seq![c] + v) == k + seq![c] + REDACTED@,
{
    reveal_strlit("=");
    reveal_strlit(":");
    let w = k + seq![c] + v;
    let n = k.len() as int;
    assert forall|j: int| 0 <= j < w.len() implies !is_space(#[trigger] w[j]) by {
        if j < n {
            assert(w[j] == k[j]);
        } else if j > n {
            assert(w[j] == v[j - n - 1]);
        }
    }
    assert(w[n] == c);
    assert forall|i: int| 0 <= i < n implies w[i] != '=' && w[i] != ':' by {
        assert(w[i] == k[i]);
    }
    lemma_assignment_is(w, n);
    assert(w.take(n) =~= k);
    assert(w.take(n + 1) =~= k + seq![c]);
}

proof fn lemma_words_of_three(a: Seq<char>, w: Seq<char>, b: Seq<char>)
    requires
        is_word(w),
    ensures
        words(a + " "@ + w + " "@ + b) == words(a) + seq![w] + words(b),
{
    reveal_strlit(" ");
    assert(" "@ =~= seq![' ']);
    lemma_words_around(a, w);
    lemma_words_around(a + seq![' '] + w, b);
    lemma_words_of_word(w);
}

/// What stands behind `=` or `:` after a key that names a secret has no part in
/// the masked line, wherever in the line it stands.
pub proof fn law_assigned_secret_is_not_shown(
    a: Seq<char>,
    k: Seq<char>,
    c: char,
    v: Seq<char>,
    w: Seq<char>,
    b: Seq<char>,
)
    requires
        secret_key(k),
        c == '=' || c == ':',
        is_word(v),
        is_word(w),
    ensures
        redacted(a + " "@ + (k + seq![c] + v) + " "@ + b) == redacted(
            a + " "@ + (k + seq![c] + w) + " "@ + b,
        ),
{
    let x = k + seq![c] + v;
    let y = k + seq![c] + w;
    lemma_secret_word(k, c, v);
    lemma_secret_word(k, c, w);
    lemma_words_of_three(a, x, b);
    lemma_words_of_three(a, y, b);
    let j = words(a).len() as int;
    let p = words(a) + seq![x] + words(b);
    let q = words(a) + seq![y] + words(b);
    assert(p[j] == x && q[j] == y);
    lemma_masked_alike(p, q, j);
}

/// The word after a bare flag that names a secret, where the flag is the first
/// word of the line, has no part in the masked line.
pub proof fn law_flagged_secret_is_not_shown(
    k: Seq<char>,
    v: Seq<char>,
    w: Seq<char>,
    b: Seq<char>,
)
    requires
        secret_key(k),
        is_word(v) && !is_separator(v),
        is_word(w) && !is_separator(w),
    ensures
        redacted(k + " "@ + v + " "@ + b) == redacted(k + " "@ + w + " "@ + b),
{
    lemma_words_of_word(k);
    lemma_words_of_three(k, v, b);
    lemma_words_of_three(k, w, b);
    let p = seq![k] + seq![v] + words(b);
    let q = seq![k] + seq![w] + words(b);
    lemma_assignment_is(k, k.len() as int);
    assert(p[0] == k && q[0] == k && p[1] == v && q[1] == w);
    assert(!follows_secret(p, 0) && !follows_secret(q, 0));
    assert(follows_secret(p, 1) && follows_secret(q, 1));
    lemma_masked_alike(p, q, 1);
}

}
