//! Whole numbers, written and read in decimal.

use vstd::prelude::*;
use crate::text::{chars_of, char_is_digit, is_digit};

verus! {

/// The character for one decimal digit.
pub open spec fn digit(d: nat) -> char {
    (48 + d) as u8 as char
}

/// A number as it is written, without leading zeros.
pub open spec fn decimal(n: nat) -> Seq<char>
    decreases n,
{
    if n < 10 {
        seq![digit(n)]
    } else {
        decimal(n / 10).push(digit(n % 10))
    }
}

pub fn write(n: u64) -> (r: String)
    ensures
        r@ == decimal(n as nat),
    decreases n,
{
    let mut s = if n < 10 {
        String::new()
    } else {
        write(n / 10)
    };
    s.push((48u8 + (n % 10) as u8) as char);
    assert(n < 10 ==> s@ =~= seq![digit(n as nat)]);
    s
}

/// A signed number as it is written.
pub open spec fn signed(n: int) -> Seq<char> {
    if n < 0 {
        "-"@ + decimal((-n) as nat)
    } else {
        decimal(n as nat)
    }
}

pub fn write_signed(n: i32) -> (r: String)
    ensures
        r@ == signed(n as int),
{
    if n < 0 {
        let wide: i64 = n as i64;
        crate::text::cat("-", write((-wide) as u64).as_str())
    } else {
        write(n as u64)
    }
}

/// A number filled up with zeros on the left to `width` characters.
pub open spec fn padded(n: nat, width: nat) -> Seq<char> {
    zeros((width - decimal(n).len()) as int) + decimal(n)
}

/// `n` zeros; none where `n` is not positive.
pub open spec fn zeros(n: int) -> Seq<char> {
    Seq::new(
        if n > 0 {
            n as nat
        } else {
            0
        },
        |i: int| '0',
    )
}

pub fn write_padded(n: u64, width: usize) -> (r: String)
    ensures
        r@ == padded(n as nat, width as nat),
{
    let digits = write(n);
    let have: usize = chars_of(digits.as_str()).len();
    let mut s = String::new();
    let mut i: usize = have;
    assert(s@ =~= zeros(0));
    while i < width
        invariant
            have <= i,
            i <= width || i == have,
            have == digits@.len(),
            s@ == zeros(i - have),
        decreases width - i,
    {
        s.push('0');
        i = i + 1;
        assert(zeros(i - have) =~= zeros(i - 1 - have).push('0'));
    }
    assert(s@ =~= zeros(width - have));
    s.push_str(digits.as_str());
    s
}

/// What a run of digits stands for.
pub open spec fn value(s: Seq<char>) -> nat
    decreases s.len(),
{
    if s.len() == 0 {
        0
    } else {
        (value(s.drop_last()) * 10 + (s.last() as u32 - 48)) as nat
    }
}

pub open spec fn all_digits(s: Seq<char>) -> bool {
    forall|i: int| 0 <= i < s.len() ==> is_digit(#[trigger] s[i])
}

/// The digits of a number that may carry a plus sign.
pub open spec fn unsigned(s: Seq<char>) -> Seq<char> {
    if s.len() > 0 && s[0] == '+' {
        s.drop_first()
    } else {
        s
    }
}

/// The number a text stands for: an optional plus sign and then digits, at
/// least one and nothing else, not above `max`.
pub open spec fn parsed(s: Seq<char>, max: nat) -> Option<nat> {
    let t = unsigned(s);
    if t.len() > 0 && all_digits(t) && value(t) <= max {
        Some(value(t))
    } else {
        None
    }
}

proof fn lemma_value_grows(s: Seq<char>, i: int)
    requires
        0 <= i <= s.len(),
        all_digits(s),
    ensures
        value(s.take(i)) <= value(s),
    decreases s.len() - i,
{
    if i == s.len() {
        assert(s.take(i) =~= s);
    } else {
        lemma_value_grows(s, i + 1);
        assert(s.take(i + 1).drop_last() =~= s.take(i));
        assert(s.take(i + 1).last() == s[i]);
        assert(is_digit(s[i]));
    }
}

pub fn read(s: &str, max: u64) -> (r: Option<u64>)
    ensures
        parsed(s@, max as nat) is None ==> r is None,
        parsed(s@, max as nat) is Some ==> r is Some && r->0 == parsed(s@, max as nat)->0,
{
    let v = chars_of(s);
    let start: usize = if v.len() > 0 && v[0] == '+' {
        1
    } else {
        0
    };
    let ghost t = unsigned(s@);
    assert(t =~= v@.skip(start as int));
    if start == v.len() {
        return None;
    }
    let mut acc: u64 = 0;
    let mut i: usize = start;
    assert(t.take(0) =~= Seq::<char>::empty());
    while i < v.len()
        invariant
            start <= i <= v@.len(),
            t == v@.skip(start as int),
            t == unsigned(s@),
            forall|j: int| 0 <= j < i - start ==> is_digit(t[j]),
            acc == value(t.take(i - start)),
            acc <= max,
        decreases v@.len() - i,
    {
        let c = v[i];
        assert(t[i - start] == c);
        if !char_is_digit(c) {
            return None;
        }
        let d: u32 = c as u32 - 48;
        let wide: u128 = acc as u128 * 10 + d as u128;
        assert(t.take(i - start + 1).drop_last() =~= t.take(i - start));
        assert(t.take(i - start + 1).last() == c);
        assert(wide == value(t.take(i - start + 1)));
        if wide > max as u128 {
            proof {
                if all_digits(t) {
                    lemma_value_grows(t, i - start + 1);
                }
            }
            return None;
        }
        acc = wide as u64;
        i = i + 1;
    }
    assert(t.take(i - start) =~= t);
    Some(acc)
}

/// A port or another 16-bit number.
pub fn read_u16(s: &str) -> (r: Option<u16>)
    ensures
        parsed(s@, 65535) is None ==> r is None,
        parsed(s@, 65535) is Some ==> r is Some && r->0 == parsed(s@, 65535)->0,
{
    match read(s, 65535) {
        Some(n) => Some(n as u16),
        None => None,
    }
}

pub proof fn lemma_decimal_reads_back(n: nat)
    ensures
        decimal(n).len() > 0,
        all_digits(decimal(n)),
        value(decimal(n)) == n,
    decreases n,
{
    let s = decimal(n);
    if n >= 10 {
        lemma_decimal_reads_back(n / 10);
        assert(s.drop_last() =~= decimal(n / 10));
        assert(s.last() as u32 == 48 + n % 10);
        assert((n / 10) * 10 + n % 10 == n);
        assert forall|i: int| 0 <= i < s.len() implies is_digit(#[trigger] s[i]) by {
            if i < s.len() - 1 {
                assert(s[i] == decimal(n / 10)[i]);
            }
        }
    } else {
        assert(s.drop_last() =~= Seq::<char>::empty());
        assert(value(s.drop_last()) == 0);
        assert(s.last() as u32 == 48 + n);
    }
}

/// Reading what was written gives the number back, as long as it fits.
pub proof fn law_number_round_trip(n: nat, max: nat)
    requires
        n <= max,
    ensures
        parsed(decimal(n), max) == Some(n),
{
    lemma_decimal_reads_back(n);
    assert(is_digit(decimal(n)[0]));
    assert(unsigned(decimal(n)) == decimal(n));
}

/// Two different numbers are written differently.
pub proof fn lemma_decimal_injective(a: nat, b: nat)
    requires
        decimal(a) == decimal(b),
    ensures
        a == b,
{
    lemma_decimal_reads_back(a);
    lemma_decimal_reads_back(b);
}

}
