//! Lines of coloured text: what a pane shows, before it is drawn.

use vstd::prelude::*;
use crate::text::cat;
use crate::ui::{blank, fill, filled, spaces};

verus! {

/// What a piece of text is coloured for.
#[derive(Debug, Clone, Copy, PartialEq, Eq, Structural)]
pub enum Ink {
    /// Left as it is.
    Plain,
    Text,
    Dim,
    Accent,
    Good,
    Warn,
    Danger,
}

/// A piece of a line.
#[derive(Debug)]
pub struct Bit {
    pub text: String,
    pub ink: Ink,
    pub bold: bool,
}

/// A piece of a line, as text.
pub struct Piece {
    pub text: Seq<char>,
    pub ink: Ink,
    pub bold: bool,
}

impl View for Bit {
    type V = Piece;

    open spec fn view(&self) -> Piece {
        Piece { text: self.text@, ink: self.ink, bold: self.bold }
    }
}

pub open spec fn pieces(v: Seq<Bit>) -> Seq<Piece> {
    v.map_values(|b: Bit| b@)
}

/// A piece in that colour.
pub open spec fn ink(text: Seq<char>, ink: Ink) -> Piece {
    Piece { text, ink, bold: false }
}

/// A piece in that colour, in bold.
pub open spec fn strong(text: Seq<char>, ink: Ink) -> Piece {
    Piece { text, ink, bold: true }
}

pub fn bit(text: &str, ink: Ink) -> (r: Bit)
    ensures
        r@ == self::ink(text@, ink),
{
    Bit { text: text.to_owned(), ink, bold: false }
}

pub fn bold(text: &str, ink: Ink) -> (r: Bit)
    ensures
        r@ == strong(text@, ink),
{
    Bit { text: text.to_owned(), ink, bold: true }
}

/// What a pane shows, line by line.
#[derive(Debug)]
pub struct Sheet {
    pub lines: Vec<Vec<Bit>>,
}

impl View for Sheet {
    type V = Seq<Seq<Piece>>;

    open spec fn view(&self) -> Seq<Seq<Piece>> {
        self.lines@.map_values(|l: Vec<Bit>| pieces(l@))
    }
}

pub fn line1(a: Bit) -> (r: Vec<Bit>)
    ensures
        pieces(r@) == seq![a@],
{
    let mut v: Vec<Bit> = Vec::new();
    v.push(a);
    assert(pieces(v@) =~= seq![a@]);
    v
}

pub fn line2(a: Bit, b: Bit) -> (r: Vec<Bit>)
    ensures
        pieces(r@) == seq![a@, b@],
{
    let mut v: Vec<Bit> = Vec::new();
    v.push(a);
    v.push(b);
    assert(pieces(v@) =~= seq![a@, b@]);
    v
}

pub fn line3(a: Bit, b: Bit, c: Bit) -> (r: Vec<Bit>)
    ensures
        pieces(r@) == seq![a@, b@, c@],
{
    let mut v: Vec<Bit> = Vec::new();
    v.push(a);
    v.push(b);
    v.push(c);
    assert(pieces(v@) =~= seq![a@, b@, c@]);
    v
}

pub fn line4(a: Bit, b: Bit, c: Bit, d: Bit) -> (r: Vec<Bit>)
    ensures
        pieces(r@) == seq![a@, b@, c@, d@],
{
    let mut v: Vec<Bit> = Vec::new();
    v.push(a);
    v.push(b);
    v.push(c);
    v.push(d);
    assert(pieces(v@) =~= seq![a@, b@, c@, d@]);
    v
}

pub fn add_bit(v: &mut Vec<Bit>, a: Bit)
    ensures
        pieces(final(v)@) == pieces(old(v)@).push(a@),
{
    assert(pieces(v@.push(a)) =~= pieces(v@).push(a@));
    v.push(a);
}

pub fn add_bits(v: &mut Vec<Bit>, more: Vec<Bit>)
    ensures
        pieces(final(v)@) == pieces(old(v)@) + pieces(more@),
{
    let ghost was = v@;
    let mut more = more;
    let ghost new = more@;
    v.append(&mut more);
    assert(pieces(was + new) =~= pieces(was) + pieces(new));
}

impl Sheet {
    pub fn new() -> (r: Self)
        ensures
            r@ == Seq::<Seq<Piece>>::empty(),
    {
        let s = Sheet { lines: Vec::new() };
        assert(s@ =~= Seq::<Seq<Piece>>::empty());
        s
    }

    pub fn add(&mut self, line: Vec<Bit>)
        ensures
            final(self)@ == old(self)@.push(pieces(line@)),
    {
        let ghost was = self@;
        self.lines.push(line);
        assert(self@ =~= was.push(pieces(line@)));
    }

    /// A line of one piece.
    pub fn say(&mut self, text: &str, ink: Ink)
        ensures
            final(self)@ == old(self)@.push(seq![self::ink(text@, ink)]),
    {
        self.add(line1(bit(text, ink)));
    }

    /// An empty line.
    pub fn gap(&mut self)
        ensures
            final(self)@ == old(self)@.push(Seq::<Piece>::empty()),
    {
        let none: Vec<Bit> = Vec::new();
        assert(pieces(none@) =~= Seq::<Piece>::empty());
        self.add(none);
    }

    /// A name in a column of `width`, and a value.
    pub fn pair(&mut self, key: &str, width: usize, value: Bit)
        ensures
            final(self)@ == old(self)@.push(
                seq![self::ink(filled(key@, width as int), Ink::Dim), value@],
            ),
    {
        let head = fill(key, width);
        self.add(line2(bit(head.as_str(), Ink::Dim), value));
    }
}

/// A text filled up with spaces on the left.
pub open spec fn aligned(s: Seq<char>, width: int) -> Seq<char> {
    spaces(width - s.len()) + s
}

pub fn align(s: &str, width: usize) -> (r: String)
    ensures
        r@ == aligned(s@, width as int),
{
    let n: usize = crate::text::chars_of(s).len();
    let more: usize = if n < width {
        width - n
    } else {
        0
    };
    assert(spaces(more as int) =~= spaces(width - n));
    cat(blank(more).as_str(), s)
}

}
