//! Text as it is laid out on screen: wrapping, cutting, measuring.

use vstd::prelude::*;
use crate::calendar::{self, clock_text, moment_of};
use crate::logs::{title_of, Entry, LogTarget, Subject, SELF};
use crate::number::{self, decimal, padded};
use crate::split::{self, is_word, lemma_words, words};
use crate::text::{
    self, cat, cat3, cat4, cat5, chars_of, is_space, joined, text_between, texts,
};

verus! {

// ---------------------------------------------------------------------------
// Fitting a value into a field
// ---------------------------------------------------------------------------

/// A text that is too long shows its tail.
pub open spec fn scrolled_text(s: Seq<char>, width: nat) -> Seq<char> {
    if s.len() <= width {
        s
    } else if width == 0 {
        "…"@
    } else {
        "…"@ + s.skip(s.len() - (width - 1))
    }
}

/// Form text is appended at the end, so that is where the cursor is: when a
/// value outgrows its field, show the tail instead of letting it disappear
/// under the border.
pub fn scrolled(value: &str, width: usize) -> (r: String)
    ensures
        r@ == scrolled_text(value@, width as nat),
{
    let v = chars_of(value);
    let len: usize = v.len();
    if len <= width {
        return value.to_owned();
    }
    if width == 0 {
        return "…".to_owned();
    }
    let from: usize = len - (width - 1);
    assert(v@.skip(from as int) =~= v@.subrange(from as int, len as int));
    cat("…", text_between(&v, from, len).as_str())
}

/// A text that is too long loses its tail.
pub open spec fn truncated(s: Seq<char>, max: nat) -> Seq<char> {
    if s.len() <= max {
        s
    } else if max == 0 {
        "…"@
    } else {
        s.take(max - 1) + "…"@
    }
}

pub fn truncate_pub(s: &str, max: usize) -> (r: String)
    ensures
        r@ == truncated(s@, max as nat),
{
    let v = chars_of(s);
    if v.len() <= max {
        return s.to_owned();
    }
    if max == 0 {
        return "…".to_owned();
    }
    assert(v@.take(max - 1) =~= v@.subrange(0, max - 1));
    cat(text_between(&v, 0, max - 1).as_str(), "…")
}

/// What is shown of a value fits its field, as long as there is room for one
/// character.
pub proof fn law_shown_text_fits(s: Seq<char>, width: nat)
    requires
        width > 0,
    ensures
        scrolled_text(s, width).len() <= width,
        truncated(s, width).len() <= width,
{
    reveal_strlit("…");
}

/// A place on the screen, in character cells.
#[derive(Debug, Clone, Copy, PartialEq, Eq, Structural)]
pub struct Area {
    pub x: u16,
    pub y: u16,
    pub width: u16,
    pub height: u16,
}

impl Area {
    /// It ends where the screen can still count.
    pub open spec fn wf(self) -> bool {
        self.x + self.width <= u16::MAX && self.y + self.height <= u16::MAX
    }

    /// It lies inside another.
    pub open spec fn inside(self, other: Area) -> bool {
        &&& other.x <= self.x && self.x + self.width <= other.x + other.width
        &&& other.y <= self.y && self.y + self.height <= other.y + other.height
    }
}

/// A box of that size in the middle of an area, as far as it fits.
pub fn centered_rect(width: u16, height: u16, area: Area) -> (r: Area)
    requires
        area.wf(),
    ensures
        r.width == if width < area.width {
            width
        } else {
            area.width
        },
        r.height == if height < area.height {
            height
        } else {
            area.height
        },
        r.x == area.x + (area.width - r.width) / 2,
        r.y == area.y + (area.height - r.height) / 2,
        r.inside(area),
{
    let w: u16 = if width < area.width {
        width
    } else {
        area.width
    };
    let h: u16 = if height < area.height {
        height
    } else {
        area.height
    };
    Area {
        x: area.x + (area.width - w) / 2,
        y: area.y + (area.height - h) / 2,
        width: w,
        height: h,
    }
}

/// How much room a form leaves for a value: the box minus its borders, the
/// label column and the cursor.
pub fn value_width(rect: Area, label_width: u16) -> (r: usize)
    ensures
        r == if rect.width > label_width + 3 {
            rect.width - label_width - 3
        } else {
            0
        },
{
    let taken: u32 = label_width as u32 + 3;
    if rect.width as u32 > taken {
        (rect.width as u32 - taken) as usize
    } else {
        0
    }
}

// ---------------------------------------------------------------------------
// Times and sizes
// ---------------------------------------------------------------------------

pub open spec fn duration_text(s: nat) -> Seq<char> {
    if s < 60 {
        decimal(s) + "s"@
    } else if s < 3600 {
        decimal(s / 60) + "m"@ + padded(s % 60, 2) + "s"@
    } else {
        decimal(s / 3600) + "h"@ + padded((s % 3600) / 60, 2) + "m"@
    }
}

/// How long something has been going on, from its seconds.
pub fn fmt_duration(s: u64) -> (r: String)
    ensures
        r@ == duration_text(s as nat),
{
    if s < 60 {
        cat(number::write(s).as_str(), "s")
    } else if s < 3600 {
        cat4(
            number::write(s / 60).as_str(),
            "m",
            number::write_padded(s % 60, 2).as_str(),
            "s",
        )
    } else {
        cat4(
            number::write(s / 3600).as_str(),
            "h",
            number::write_padded((s % 3600) / 60, 2).as_str(),
            "m",
        )
    }
}

/// `n / m`, to the nearest whole number; a half goes to the even one.
pub open spec fn nearest(n: nat, m: nat) -> nat
    recommends
        m > 0,
{
    let q = n / m;
    let r = n % m;
    if 2 * r > m || (2 * r == m && q % 2 == 1) {
        q + 1
    } else {
        q
    }
}

fn divide_nearest(n: u128, m: u128) -> (r: u128)
    requires
        0 < m <= 0x1_0000_0000_0000_0000,
        n <= 0x100_0000_0000_0000_0000,
    ensures
        r == nearest(n as nat, m as nat),
{
    let q: u128 = n / m;
    let rest: u128 = n % m;
    if 2 * rest > m || (2 * rest == m && q % 2 == 1) {
        proof {
            assert(q <= n) by (nonlinear_arith)
                requires
                    q == n / m,
                    m > 0,
            ;
        }
        q + 1
    } else {
        q
    }
}

/// How far apart the numbers are that a sum of bytes is rounded to: from 2^53 on
/// the last digits no longer show.
pub open spec fn spacing(n: nat) -> nat
    decreases n,
{
    if n < 0x20_0000_0000_0000 {
        1
    } else {
        2 * spacing(n / 2)
    }
}

/// A sum of bytes, rounded.
pub open spec fn rounded(n: nat) -> nat {
    nearest(n, spacing(n)) * spacing(n)
}

fn space(n: u64) -> (r: u128)
    ensures
        r == spacing(n as nat),
        0 < r,
        r * 0x10_0000_0000_0000 <= n || r == 1,
        r <= 0x1000,
    decreases n,
{
    if n < 0x20_0000_0000_0000 {
        1
    } else {
        let half: u128 = space(n / 2);
        2 * half
    }
}

fn round(n: u64) -> (r: u128)
    ensures
        r == rounded(n as nat),
        r <= 0x2_0000_0000_0000_0000,
{
    let s: u128 = space(n);
    let q: u128 = divide_nearest(n as u128, s);
    proof {
        lemma_nearest_close(n as nat, s as nat);
    }
    q * s
}

proof fn lemma_nearest_close(n: nat, m: nat)
    requires
        m > 0,
    ensures
        nearest(n, m) * m <= n + m,
{
    assert((n / m + 1) * m <= n + m) by (nonlinear_arith)
        requires
            m > 0,
    ;
    assert((n / m) * m <= n) by (nonlinear_arith)
        requires
            m > 0,
    ;
}

/// The unit a size is given in, and how many bytes it is.
pub open spec fn unit_of(n: nat) -> (Seq<char>, nat) {
    if n < 0x100000 {
        ("KiB"@, 0x400)
    } else if n < 0x40000000 {
        ("MiB"@, 0x100000)
    } else if n < 0x10000000000 {
        ("GiB"@, 0x40000000)
    } else {
        ("TiB"@, 0x10000000000)
    }
}

/// A size with one decimal, in the largest unit that leaves at least one.
pub open spec fn size_text(b: nat) -> Seq<char> {
    let n = rounded(b);
    if n < 1024 {
        decimal(b) + " B"@
    } else {
        let unit = unit_of(n);
        let tenths = nearest(n * 10, unit.1);
        decimal(tenths / 10) + "."@ + decimal(tenths % 10) + " "@ + unit.0
    }
}

/// A number of bytes, the way a person reads one.
pub fn human_bytes(b: u64) -> (r: String)
    ensures
        r@ == size_text(b as nat),
{
    let n: u128 = round(b);
    if n < 1024 {
        return cat(number::write(b).as_str(), " B");
    }
    let (unit, size): (&str, u128) = if n < 0x100000 {
        ("KiB", 0x400)
    } else if n < 0x40000000 {
        ("MiB", 0x100000)
    } else if n < 0x10000000000 {
        ("GiB", 0x40000000)
    } else {
        ("TiB", 0x10000000000)
    };
    let tenths: u128 = divide_nearest(n * 10, size);
    proof {
        lemma_nearest_close((n * 10) as nat, size as nat);
        assert(tenths <= 0x1_0000_0000_0000_0000) by (nonlinear_arith)
            requires
                tenths * size <= n * 10 + size,
                n <= 0x2_0000_0000_0000_0000,
                size >= 0x400,
        ;
    }
    let whole: u64 = (tenths / 10) as u64;
    let part: u64 = (tenths % 10) as u64;
    cat5(number::write(whole).as_str(), ".", number::write(part).as_str(), " ", unit)
}

/// A throughput, the way a person reads one.
pub fn human_rate(b: u64) -> (r: String)
    ensures
        r@ == size_text(b as nat) + "/s"@,
{
    cat(human_bytes(b).as_str(), "/s")
}

// ---------------------------------------------------------------------------
// Wrapping
// ---------------------------------------------------------------------------

/// Lines that are done, and the one being filled.
pub struct Wrapping {
    pub done: Seq<Seq<char>>,
    pub line: Seq<char>,
}

/// A word wider than the pane, cut into full lines and what is left over.
pub open spec fn chopped(word: Seq<char>, width: nat) -> Wrapping
    decreases word.len(),
{
    if 0 < width < word.len() {
        let rest = chopped(word.skip(width as int), width);
        Wrapping { done: seq![word.take(width as int)] + rest.done, line: rest.line }
    } else {
        Wrapping { done: Seq::empty(), line: word }
    }
}

/// One more word: on the line being filled where it fits, on the next where it
/// does not, and cut where it fits on none.
pub open spec fn with_word(w: Wrapping, word: Seq<char>, width: nat) -> Wrapping {
    if word.len() > width {
        let c = chopped(word, width);
        let done = if w.line.len() > 0 {
            w.done.push(w.line)
        } else {
            w.done
        };
        Wrapping { done: done + c.done, line: c.line }
    } else if w.line.len() == 0 {
        Wrapping { done: w.done, line: word }
    } else if w.line.len() + 1 + word.len() > width {
        Wrapping { done: w.done.push(w.line), line: word }
    } else {
        Wrapping { done: w.done, line: w.line + " "@ + word }
    }
}

pub open spec fn with_words(ws: Seq<Seq<char>>, width: nat) -> Wrapping
    decreases ws.len(),
{
    if ws.len() == 0 {
        Wrapping { done: Seq::empty(), line: Seq::empty() }
    } else {
        with_word(with_words(ws.drop_last(), width), ws.last(), width)
    }
}

/// The lines of a wrapped text. There is always one, though nothing is on it.
pub open spec fn wrapped(text: Seq<char>, width: nat) -> Seq<Seq<char>> {
    if width == 0 {
        seq![text]
    } else {
        let w = with_words(words(text), width);
        if w.line.len() > 0 || w.done.len() == 0 {
            w.done.push(w.line)
        } else {
            w.done
        }
    }
}

/// Break a line to fit the pane. Log output is long (a command line, a stack
/// of ssh options) and the interesting half is usually the end of it, so it
/// wraps rather than being cut off at the border.
pub fn wrap_text(text: &str, width: usize) -> (r: Vec<String>)
    ensures
        texts(r@) == wrapped(text@, width as nat),
{
    let mut out = text::no_texts();
    if width == 0 {
        text::add_str(&mut out, text);
        assert(texts(out@) =~= seq![text@]);
        return out;
    }
    let ws = split::split_words(text);
    let ghost all = texts(ws@);
    let mut line = String::new();
    let mut i: usize = 0;
    assert(all.take(0) =~= Seq::<Seq<char>>::empty());
    while i < ws.len()
        invariant
            i <= ws@.len(),
            width > 0,
            all == texts(ws@),
            texts(out@) == with_words(all.take(i as int), width as nat).done,
            line@ == with_words(all.take(i as int), width as nat).line,
        decreases ws@.len() - i,
    {
        assert(all.take(i + 1).drop_last() =~= all.take(i as int));
        assert(all.take(i + 1).last() == ws@[i as int]@);
        let word = chars_of(ws[i].as_str());
        let n: usize = word.len();
        let have: usize = chars_of(line.as_str()).len();
        if n > width {
            // A word wider than the pane, a long path, is cut, because there
            // is nowhere to break it.
            if have > 0 {
                text::add_text(&mut out, line);
            }
            let ghost flushed = texts(out@);
            let ghost goal = chopped(word@, width as nat);
            let mut at: usize = 0;
            assert(word@.skip(0) =~= word@);
            assert(flushed + goal.done =~= texts(out@) + chopped(word@.skip(0), width as nat).done);
            while n - at > width
                invariant
                    n == word@.len(),
                    at <= n,
                    width > 0,
                    flushed + goal.done == texts(out@) + chopped(
                        word@.skip(at as int),
                        width as nat,
                    ).done,
                    goal.line == chopped(word@.skip(at as int), width as nat).line,
                decreases n - at,
            {
                let ghost rest = word@.skip(at as int);
                assert(rest.take(width as int) =~= word@.subrange(at as int, at + width));
                assert(rest.skip(width as int) =~= word@.skip(at + width));
                text::add_text(&mut out, text_between(&word, at, at + width));
                at = at + width;
                assert(flushed + goal.done =~= texts(out@) + chopped(
                    word@.skip(at as int),
                    width as nat,
                ).done);
            }
            assert(word@.skip(at as int) =~= word@.subrange(at as int, n as int));
            assert(texts(out@) + Seq::<Seq<char>>::empty() =~= texts(out@));
            line = text_between(&word, at, n);
        } else if have == 0 {
            line = ws[i].clone();
        } else if have >= width - n {
            text::add_text(&mut out, line);
            line = ws[i].clone();
        } else {
            line.push_str(" ");
            line.push_str(ws[i].as_str());
        }
        i = i + 1;
    }
    assert(all.take(i as int) =~= all);
    if !line.as_str().is_empty() || out.len() == 0 {
        assert(texts(out@).len() == out@.len());
        text::add_text(&mut out, line);
    } else {
        assert(texts(out@).len() == out@.len());
    }
    out
}

/// Every line is at most that wide.
pub open spec fn all_fit(lines: Seq<Seq<char>>, width: nat) -> bool {
    forall|i: int| 0 <= i < lines.len() ==> (#[trigger] lines[i]).len() <= width
}

proof fn lemma_chopped_fits(word: Seq<char>, width: nat)
    requires
        width > 0,
    ensures
        all_fit(chopped(word, width).done, width),
        chopped(word, width).line.len() <= width,
        chopped(word, width).line.len() == 0 ==> word.len() == 0,
    decreases word.len(),
{
    if width < word.len() {
        lemma_chopped_fits(word.skip(width as int), width);
    }
}

proof fn lemma_words_fit(ws: Seq<Seq<char>>, width: nat)
    requires
        width > 0,
    ensures
        all_fit(with_words(ws, width).done, width),
        with_words(ws, width).line.len() <= width,
    decreases ws.len(),
{
    reveal_strlit(" ");
    if ws.len() > 0 {
        lemma_words_fit(ws.drop_last(), width);
        lemma_chopped_fits(ws.last(), width);
    }
}

/// No line of a wrapped text is wider than the pane.
pub proof fn law_wrapped_lines_fit(text: Seq<char>, width: nat)
    requires
        width > 0,
    ensures
        all_fit(wrapped(text, width), width),
        wrapped(text, width).len() > 0,
{
    lemma_words_fit(words(text), width);
}

/// The texts one after another.
pub open spec fn all_of(parts: Seq<Seq<char>>) -> Seq<char>
    decreases parts.len(),
{
    if parts.len() == 0 {
        Seq::empty()
    } else {
        all_of(parts.drop_last()) + parts.last()
    }
}

/// A text without its spaces.
pub open spec fn unspaced(s: Seq<char>) -> Seq<char>
    decreases s.len(),
{
    if s.len() == 0 {
        s
    } else if s.last() == ' ' {
        unspaced(s.drop_last())
    } else {
        unspaced(s.drop_last()).push(s.last())
    }
}

proof fn lemma_unspaced_add(a: Seq<char>, b: Seq<char>)
    ensures
        unspaced(a + b) == unspaced(a) + unspaced(b),
    decreases b.len(),
{
    if b.len() == 0 {
        assert(a + b =~= a);
        assert(unspaced(a) + unspaced(b) =~= unspaced(a));
    } else {
        lemma_unspaced_add(a, b.drop_last());
        assert((a + b).drop_last() =~= a + b.drop_last());
        if b.last() != ' ' {
            assert(unspaced(a) + unspaced(b) =~= (unspaced(a) + unspaced(b.drop_last())).push(
                b.last(),
            ));
        }
    }
}

proof fn lemma_unspaced_none(s: Seq<char>)
    requires
        forall|i: int| 0 <= i < s.len() ==> #[trigger] s[i] != ' ',
    ensures
        unspaced(s) == s,
    decreases s.len(),
{
    if s.len() > 0 {
        assert forall|i: int| 0 <= i < s.drop_last().len() implies #[trigger] s.drop_last()[i]
            != ' ' by {
            assert(s.drop_last()[i] == s[i]);
        }
        lemma_unspaced_none(s.drop_last());
        assert(s.last() == s[s.len() - 1]);
        assert(s.drop_last().push(s.last()) =~= s);
    }
}

proof fn lemma_all_push(ps: Seq<Seq<char>>, p: Seq<char>)
    ensures
        all_of(ps.push(p)) == all_of(ps) + p,
{
    assert(ps.push(p).drop_last() =~= ps);
}

proof fn lemma_all_add(a: Seq<Seq<char>>, b: Seq<Seq<char>>)
    ensures
        all_of(a + b) == all_of(a) + all_of(b),
    decreases b.len(),
{
    if b.len() == 0 {
        assert(a + b =~= a);
        assert(all_of(a) + all_of(b) =~= all_of(a));
    } else {
        lemma_all_add(a, b.drop_last());
        assert((a + b).drop_last() =~= a + b.drop_last());
        assert(all_of(a) + all_of(b) =~= (all_of(a) + all_of(b.drop_last())) + b.last());
    }
}

proof fn lemma_chopped_whole(word: Seq<char>, width: nat)
    requires
        width > 0,
    ensures
        all_of(chopped(word, width).done) + chopped(word, width).line == word,
    decreases word.len(),
{
    let c = chopped(word, width);
    if width < word.len() {
        let rest = chopped(word.skip(width as int), width);
        lemma_chopped_whole(word.skip(width as int), width);
        lemma_all_add(seq![word.take(width as int)], rest.done);
        let first = seq![word.take(width as int)];
        assert(first.drop_last() =~= Seq::<Seq<char>>::empty());
        assert(all_of(first.drop_last()) =~= Seq::<char>::empty());
        assert(all_of(first) =~= word.take(width as int));
        assert(all_of(c.done) + c.line =~= word.take(width as int) + (all_of(rest.done)
            + rest.line));
        assert(word.take(width as int) + word.skip(width as int) =~= word);
    } else {
        assert(all_of(c.done) + c.line =~= word);
    }
}

proof fn lemma_words_whole(ws: Seq<Seq<char>>, width: nat)
    requires
        width > 0,
        forall|i: int, j: int|
            0 <= i < ws.len() && 0 <= j < ws[i].len() ==> #[trigger] ws[i][j] != ' ',
    ensures
        ({
            let w = with_words(ws, width);
            unspaced(all_of(w.done)) + unspaced(w.line) == all_of(ws)
        }),
    decreases ws.len(),
{
    reveal_strlit(" ");
    let w = with_words(ws, width);
    if ws.len() == 0 {
        assert(unspaced(all_of(w.done)) + unspaced(w.line) =~= all_of(ws));
    } else {
        let head = ws.drop_last();
        assert forall|i: int, j: int| 0 <= i < head.len() && 0 <= j < head[i].len() implies
            #[trigger] head[i][j] != ' ' by {
            assert(head[i][j] == ws[i][j]);
        }
        lemma_words_whole(head, width);
        let b = with_words(head, width);
        let word = ws.last();
        assert forall|j: int| 0 <= j < word.len() implies #[trigger] word[j] != ' ' by {
            assert(word[j] == ws[ws.len() - 1][j]);
        }
        lemma_unspaced_none(word);
        lemma_all_push(b.done, b.line);
        lemma_unspaced_add(all_of(b.done), b.line);
        let so_far = all_of(head);
        if word.len() > width {
            let c = chopped(word, width);
            lemma_chopped_whole(word, width);
            let done = if b.line.len() > 0 {
                b.done.push(b.line)
            } else {
                b.done
            };
            lemma_all_add(done, c.done);
            lemma_unspaced_add(all_of(done), all_of(c.done));
            lemma_unspaced_add(all_of(c.done), c.line);
            if b.line.len() == 0 {
                assert(unspaced(b.line) =~= Seq::<char>::empty());
                assert(unspaced(all_of(done)) =~= so_far);
            }
            assert(unspaced(all_of(w.done)) + unspaced(w.line) =~= unspaced(all_of(done)) + (
            unspaced(all_of(c.done)) + unspaced(c.line)));
        } else if b.line.len() == 0 {
            assert(unspaced(b.line) =~= Seq::<char>::empty());
            assert(unspaced(all_of(b.done)) =~= so_far);
        } else if b.line.len() + 1 + word.len() > width {
        } else {
            lemma_unspaced_add(b.line + " "@, word);
            lemma_unspaced_add(b.line, " "@);
            assert(" "@.drop_last() =~= Seq::<char>::empty());
            assert(" "@.last() == ' ');
            assert(unspaced(" "@.drop_last()) =~= Seq::<char>::empty());
            assert(unspaced(" "@) =~= Seq::<char>::empty());
            assert(unspaced(w.line) =~= unspaced(b.line) + word);
            assert(unspaced(all_of(w.done)) + unspaced(w.line) =~= (unspaced(all_of(b.done))
                + unspaced(b.line)) + word);
        }
    }
}

/// Wrapping never loses anything: the lines hold the words of the text, in
/// order, and nothing else but spaces.
pub proof fn law_wrapping_loses_nothing(text: Seq<char>, width: nat)
    requires
        width > 0,
    ensures
        unspaced(all_of(wrapped(text, width))) == all_of(words(text)),
{
    let ws = words(text);
    lemma_words(text);
    assert forall|i: int, j: int| 0 <= i < ws.len() && 0 <= j < ws[i].len() implies #[trigger] ws[i][j]
        != ' ' by {
        assert(is_word(ws[i]));
        assert(!is_space(ws[i][j]));
    }
    lemma_words_whole(ws, width);
    let w = with_words(ws, width);
    lemma_all_push(w.done, w.line);
    lemma_unspaced_add(all_of(w.done), w.line);
    if w.line.len() == 0 {
        assert(unspaced(w.line) =~= Seq::<char>::empty());
        assert(unspaced(all_of(w.done)) + unspaced(w.line) =~= unspaced(all_of(w.done)));
    }
}

proof fn lemma_joined_push(ps: Seq<Seq<char>>, p: Seq<char>, sep: Seq<char>)
    requires
        ps.len() > 0,
    ensures
        joined(ps.push(p), sep) == joined(ps, sep) + sep + p,
{
    assert(ps.push(p).drop_last() =~= ps);
}

proof fn lemma_words_joined(ws: Seq<Seq<char>>, width: nat)
    requires
        ws.len() > 0,
        forall|i: int| 0 <= i < ws.len() ==> 0 < (#[trigger] ws[i]).len() <= width,
    ensures
        ({
            let w = with_words(ws, width);
            w.line.len() > 0 && joined(w.done.push(w.line), " "@) == joined(ws, " "@)
        }),
    decreases ws.len(),
{
    let head = ws.drop_last();
    let word = ws.last();
    assert(word == ws[ws.len() - 1]);
    let w = with_words(ws, width);
    let b = with_words(head, width);
    if head.len() == 0 {
        assert(w.done.push(w.line) =~= ws);
    } else {
        assert forall|i: int| 0 <= i < head.len() implies 0 < (#[trigger] head[i]).len() <= width by {
            assert(head[i] == ws[i]);
        }
        lemma_words_joined(head, width);
        assert(ws =~= head.push(word));
        lemma_joined_push(head, word, " "@);
        if b.line.len() + 1 + word.len() > width {
            lemma_joined_push(b.done.push(b.line), word, " "@);
        } else {
            let longer = b.line + " "@ + word;
            if b.done.len() == 0 {
                assert(b.done.push(b.line)[0] == b.line);
                assert(b.done.push(longer)[0] == longer);
            } else {
                lemma_joined_push(b.done, b.line, " "@);
                lemma_joined_push(b.done, longer, " "@);
                assert(joined(b.done.push(longer), " "@) =~= joined(b.done.push(b.line), " "@)
                    + " "@ + word);
            }
        }
    }
}

/// A text whose words all fit is broken between words only: the lines put
/// together again are the words with one space between them.
pub proof fn law_wrapping_breaks_between_words(text: Seq<char>, width: nat)
    requires
        width > 0,
        forall|i: int| 0 <= i < words(text).len() ==> (#[trigger] words(text)[i]).len() <= width,
    ensures
        joined(wrapped(text, width), " "@) == joined(words(text), " "@),
{
    let ws = words(text);
    lemma_words(text);
    if ws.len() > 0 {
        assert forall|i: int| 0 <= i < ws.len() implies 0 < (#[trigger] ws[i]).len() <= width by {
            assert(is_word(ws[i]));
        }
        lemma_words_joined(ws, width);
    } else {
        assert(wrapped(text, width) =~= seq![Seq::<char>::empty()]);
    }
}

// ---------------------------------------------------------------------------
// The log pane
// ---------------------------------------------------------------------------

/// How a line of the log is coloured.
#[derive(Debug, Clone, Copy, PartialEq, Eq, Structural)]
pub enum Tone {
    /// Something went wrong.
    Danger,
    /// What controlcenter itself says.
    Text,
    /// What a process it started printed.
    Dim,
}

/// One row of the log pane: the time and who said it, and a piece of the text.
#[derive(Debug)]
pub struct LogRow {
    pub head: String,
    pub text: String,
    pub tone: Tone,
}

/// A row as text.
pub struct RowText {
    pub head: Seq<char>,
    pub text: Seq<char>,
    pub tone: Tone,
}

impl View for LogRow {
    type V = RowText;

    open spec fn view(&self) -> RowText {
        RowText { head: self.head@, text: self.text@, tone: self.tone }
    }
}

pub open spec fn row_views(v: Seq<LogRow>) -> Seq<RowText> {
    v.map_values(|r: LogRow| r@)
}

/// `n` spaces; none where `n` is not positive.
pub open spec fn spaces(n: int) -> Seq<char> {
    Seq::new(
        if n > 0 {
            n as nat
        } else {
            0
        },
        |i: int| ' ',
    )
}

pub fn blank(n: usize) -> (r: String)
    ensures
        r@ == spaces(n as int),
{
    let mut s = String::new();
    let mut i: usize = 0;
    assert(s@ =~= spaces(0));
    while i < n
        invariant
            i <= n,
            s@ == spaces(i as int),
        decreases n - i,
    {
        s.push(' ');
        i = i + 1;
        assert(spaces(i as int) =~= spaces(i - 1).push(' '));
    }
    s
}

/// A text filled up with spaces on the right.
pub open spec fn filled(s: Seq<char>, width: int) -> Seq<char> {
    s + spaces(width - s.len())
}

pub fn fill(s: &str, width: usize) -> (r: String)
    ensures
        r@ == filled(s@, width as int),
{
    let n: usize = chars_of(s).len();
    let more: usize = if n < width {
        width - n
    } else {
        0
    };
    assert(spaces(more as int) =~= spaces(width - n));
    cat(s, blank(more).as_str())
}

/// What stands before an entry: the time, and who said it.
pub open spec fn entry_head(e: Entry) -> Seq<char> {
    " "@ + clock_text(moment_of(e.at as int / 1000)) + " "@ + filled(e.source@, 11) + " "@
}

pub open spec fn tone_of(e: Entry) -> Tone {
    if e.error {
        Tone::Danger
    } else if e.source@ == SELF@ {
        Tone::Text
    } else {
        Tone::Dim
    }
}

/// An entry as it is drawn: a time, who said it, and the text under a hanging
/// indent so a wrapped line still lines up under its own column.
pub open spec fn entry_rows(e: Entry, width: int) -> Seq<RowText> {
    let head = entry_head(e);
    let room = if width - head.len() > 8 {
        width - head.len()
    } else {
        8
    };
    let lines = wrapped(e.text@, room as nat);
    Seq::new(
        lines.len(),
        |i: int|
            RowText {
                head: if i == 0 {
                    head
                } else {
                    spaces(head.len() as int)
                },
                text: lines[i],
                tone: tone_of(e),
            },
    )
}

pub fn log_entry_lines(entry: &Entry, width: usize) -> (r: Vec<LogRow>)
    ensures
        row_views(r@) == entry_rows(*entry, width as int),
{
    let clock = calendar::clock(entry.at / 1000);
    let head = cat5(" ", clock.as_str(), " ", fill(entry.source, 11).as_str(), " ");
    let indent: usize = chars_of(head.as_str()).len();
    let room: usize = if width > indent && width - indent > 8 {
        width - indent
    } else {
        8
    };
    let tone = if entry.error {
        Tone::Danger
    } else if text::same(entry.source, SELF) {
        Tone::Text
    } else {
        Tone::Dim
    };
    let lines = wrap_text(entry.text.as_str(), room);
    let ghost all = texts(lines@);
    let mut out: Vec<LogRow> = Vec::new();
    let mut i: usize = 0;
    while i < lines.len()
        invariant
            i <= lines@.len(),
            all == texts(lines@),
            head@ == entry_head(*entry),
            indent == head@.len(),
            tone == tone_of(*entry),
            out@.len() == i,
            forall|k: int|
                0 <= k < i ==> (#[trigger] out@[k])@ == (RowText {
                    head: if k == 0 {
                        head@
                    } else {
                        spaces(indent as int)
                    },
                    text: all[k],
                    tone,
                }),
        decreases lines@.len() - i,
    {
        let start = if i == 0 {
            head.clone()
        } else {
            blank(indent)
        };
        assert(all[i as int] == lines@[i as int]@);
        out.push(LogRow { head: start, text: lines[i].clone(), tone });
        i = i + 1;
    }
    assert(row_views(out@) =~= entry_rows(*entry, width as int));
    out
}

/// The rows of the pane from the newest entry back, as far as they fit: an entry
/// is taken whole, but for the newest one, which is shown though it is taller
/// than the pane.
pub open spec fn window(entries: Seq<Entry>, rows: nat, width: int) -> Seq<RowText>
    decreases entries.len(),
{
    filling(entries, Seq::empty(), rows, width)
}

/// What is on screen already, with the entries before it in front as far as
/// they fit.
pub open spec fn filling(
    entries: Seq<Entry>,
    shown: Seq<RowText>,
    rows: nat,
    width: int,
) -> Seq<RowText>
    decreases entries.len(),
{
    if entries.len() == 0 {
        shown
    } else {
        let block = entry_rows(entries.last(), width);
        if shown.len() > 0 && shown.len() + block.len() > rows {
            shown
        } else if block.len() + shown.len() >= rows {
            block + shown
        } else {
            filling(entries.drop_last(), block + shown, rows, width)
        }
    }
}

/// What the log pane shows: the entries up to `scroll` back from the newest,
/// cut to the height of the pane.
pub open spec fn pane_rows(entries: Seq<Entry>, scroll: int, rows: nat, width: int) -> Seq<RowText> {
    let newest = if scroll < entries.len() {
        entries.len() - scroll
    } else {
        0
    };
    let all = window(entries.take(newest), rows, width);
    if all.len() > rows {
        all.take(rows as int)
    } else {
        all
    }
}

fn put_in_front(block: Vec<LogRow>, shown: Vec<LogRow>) -> (r: Vec<LogRow>)
    ensures
        row_views(r@) == row_views(block@) + row_views(shown@),
        r@.len() == block@.len() + shown@.len(),
{
    let mut out = block;
    let mut rest = shown;
    out.append(&mut rest);
    assert(row_views(out@) =~= row_views(block@) + row_views(shown@));
    out
}

/// The rows a log pane shows.
pub fn log_rows(entries: &Vec<Entry>, scroll: usize, rows: usize, width: usize) -> (r: Vec<LogRow>)
    ensures
        row_views(r@) == pane_rows(entries@, scroll as int, rows as nat, width as int),
{
    let newest: usize = if scroll < entries.len() {
        entries.len() - scroll
    } else {
        0
    };
    let ghost kept = entries@.take(newest as int);
    let mut shown: Vec<LogRow> = Vec::new();
    let mut i: usize = newest;
    let mut full = false;
    assert(row_views(shown@) =~= Seq::<RowText>::empty());
    assert(kept.take(i as int) =~= kept);
    while i > 0 && !full
        invariant
            i <= newest <= entries@.len(),
            kept == entries@.take(newest as int),
            full ==> window(kept, rows as nat, width as int) == row_views(shown@),
            !full ==> window(kept, rows as nat, width as int) == filling(
                kept.take(i as int),
                row_views(shown@),
                rows as nat,
                width as int,
            ),
        decreases i,
    {
        assert(kept.take(i as int).drop_last() =~= kept.take(i - 1));
        assert(kept.take(i as int).last() == entries@[i - 1]);
        let block = log_entry_lines(&entries[i - 1], width);
        let have: usize = shown.len();
        let tall: usize = block.len();
        assert(row_views(shown@).len() == shown@.len());
        assert(row_views(block@).len() == block@.len());
        if have > 0 && (have >= rows || tall > rows - have) {
            full = true;
        } else {
            if have >= rows || tall >= rows - have {
                full = true;
            }
            shown = put_in_front(block, shown);
        }
        i = i - 1;
    }
    assert(kept.take(0) =~= Seq::<Entry>::empty());
    if shown.len() > rows {
        assert(row_views(shown@.take(rows as int)) =~= row_views(shown@).take(rows as int));
        shown.truncate(rows);
    }
    assert(row_views(shown@).len() == shown@.len());
    shown
}

/// The log pane's title.
pub open spec fn log_title(t: Subject, scroll: nat) -> Seq<char> {
    if scroll == 0 {
        " log · "@ + title_of(t) + " "@
    } else {
        " log · "@ + title_of(t) + " · "@ + decimal(scroll) + " back "@
    }
}

pub fn log_pane_title(target: &LogTarget, scroll: usize) -> (r: String)
    ensures
        r@ == log_title(target@, scroll as nat),
{
    let title = target.title();
    if scroll == 0 {
        cat3(" log · ", title.as_str(), " ")
    } else {
        cat5(" log · ", title.as_str(), " · ", number::write(scroll as u64).as_str(), " back ")
    }
}

/// The log pane is never taller than the room there is.
pub proof fn law_log_pane_fits(entries: Seq<Entry>, scroll: int, rows: nat, width: int)
    ensures
        pane_rows(entries, scroll, rows, width).len() <= rows,
{
}

}
