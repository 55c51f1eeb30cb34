//! Stable sorting.

use vstd::prelude::*;
use crate::text::chars_of;

verus! {

/// A value with a place in an order. Two different values may share a place.
pub trait Ranked: Sized {
    /// `self` may stand before `other`.
    spec fn not_after(&self, other: &Self) -> bool;

    fn may_precede(&self, other: &Self) -> (r: bool)
        ensures
            r == self.not_after(other),
    ;

    /// Any two values are in one order or the other, and the order carries over.
    proof fn order_holds(a: &Self, b: &Self, c: &Self)
        ensures
            a.not_after(b) || b.not_after(a),
            a.not_after(b) && b.not_after(c) ==> a.not_after(c),
    ;
}

/// `x` put in front of everything at the end that has to stand after it.
pub open spec fn placed<T: Ranked>(s: Seq<T>, x: T) -> Seq<T>
    decreases s.len(),
{
    if s.len() > 0 && !s.last().not_after(&x) {
        placed(s.drop_last(), x).push(s.last())
    } else {
        s.push(x)
    }
}

/// The members of a list in order; equals keep theirs.
pub open spec fn sorted<T: Ranked>(s: Seq<T>) -> Seq<T>
    decreases s.len(),
{
    if s.len() == 0 {
        s
    } else {
        placed(sorted(s.drop_last()), s.last())
    }
}

fn place<T: Ranked>(v: &mut Vec<T>, x: T)
    ensures
        final(v)@ == placed(old(v)@, x),
    decreases old(v)@.len(),
{
    let n: usize = v.len();
    if n > 0 && !v[n - 1].may_precede(&x) {
        let last = v.pop().unwrap();
        place(v, x);
        v.push(last);
    } else {
        v.push(x);
    }
}

/// Sort a list, keeping the order of equals.
pub fn sort<T: Ranked>(v: Vec<T>) -> (r: Vec<T>)
    ensures
        r@ == sorted(v@),
{
    let mut rest = v;
    sort_first(&mut rest);
    rest
}

fn sort_first<T: Ranked>(v: &mut Vec<T>)
    ensures
        final(v)@ == sorted(old(v)@),
    decreases old(v)@.len(),
{
    if v.len() > 0 {
        let last = v.pop().unwrap();
        sort_first(v);
        place(v, last);
    }
}

/// No member stands after one that it has to stand before.
pub open spec fn in_order<T: Ranked>(s: Seq<T>) -> bool {
    forall|i: int, j: int| 0 <= i < j < s.len() ==> (#[trigger] s[i]).not_after(#[trigger] &s[j])
}

proof fn lemma_placed<T: Ranked>(s: Seq<T>, x: T)
    requires
        in_order(s),
    ensures
        in_order(placed(s, x)),
        placed(s, x).to_multiset() == s.to_multiset().insert(x),
        placed(s, x).len() == s.len() + 1,
        forall|i: int|
            0 <= i < placed(s, x).len() ==> #[trigger] placed(s, x)[i] == x || s.contains(
                placed(s, x)[i],
            ),
    decreases s.len(),
{
    broadcast use vstd::seq_lib::group_to_multiset_ensures;

    let p = placed(s, x);
    if s.len() > 0 && !s.last().not_after(&x) {
        let head = s.drop_last();
        let last = s.last();
        assert forall|i: int, j: int| 0 <= i < j < head.len() implies (
        #[trigger] head[i]).not_after(#[trigger] &head[j]) by {
            assert(head[i] == s[i] && head[j] == s[j]);
        }
        lemma_placed(head, x);
        let low = placed(head, x);
        assert(head.push(last) =~= s);
        T::order_holds(&x, &last, &x);
        assert forall|i: int| 0 <= i < p.len() implies #[trigger] p[i] == x || s.contains(p[i]) by {
            if i < low.len() {
                assert(p[i] == low[i]);
                if low[i] != x {
                    let k = choose|k: int| 0 <= k < head.len() && head[k] == low[i];
                    assert(s[k] == p[i]);
                }
            } else {
                assert(s[s.len() - 1] == p[i]);
            }
        }
        assert forall|i: int, j: int| 0 <= i < j < p.len() implies (#[trigger] p[i]).not_after(
            #[trigger] &p[j],
        ) by {
            if j == low.len() {
                assert(p[i] == low[i]);
                if low[i] != x {
                    let k = choose|k: int| 0 <= k < head.len() && head[k] == low[i];
                    assert(s[k] == head[k]);
                    assert(s[k].not_after(&s[s.len() - 1]));
                }
            } else {
                assert(p[i] == low[i] && p[j] == low[j]);
            }
        }
        assert(low.to_multiset().insert(last) =~= s.to_multiset().insert(x));
    } else {
        assert forall|i: int| 0 <= i < p.len() implies #[trigger] p[i] == x || s.contains(p[i]) by {
            if i < s.len() {
                assert(s[i] == p[i]);
            }
        }
        assert forall|i: int, j: int| 0 <= i < j < p.len() implies (#[trigger] p[i]).not_after(
            #[trigger] &p[j],
        ) by {
            if j == s.len() {
                T::order_holds(&s[i], &s[s.len() - 1], &x);
                if i < s.len() - 1 {
                    assert(s[i].not_after(&s[s.len() - 1]));
                }
            } else {
                assert(p[i] == s[i] && p[j] == s[j]);
            }
        }
    }
}

/// Sorting puts the same members in order.
pub proof fn law_sorted<T: Ranked>(s: Seq<T>)
    ensures
        in_order(sorted(s)),
        sorted(s).to_multiset() == s.to_multiset(),
        sorted(s).len() == s.len(),
    decreases s.len(),
{
    broadcast use vstd::seq_lib::group_to_multiset_ensures;

    if s.len() > 0 {
        law_sorted(s.drop_last());
        lemma_placed(sorted(s.drop_last()), s.last());
        assert(s.drop_last().push(s.last()) =~= s);
    }
}

// ---------------------------------------------------------------------------
// Texts in alphabetical order
// ---------------------------------------------------------------------------

/// `a` stands before `b` in the order of their characters, or is `b`.
pub open spec fn text_le(a: Seq<char>, b: Seq<char>) -> bool
    decreases a.len(),
{
    if a.len() == 0 {
        true
    } else if b.len() == 0 {
        false
    } else if a[0] != b[0] {
        a[0] < b[0]
    } else {
        text_le(a.drop_first(), b.drop_first())
    }
}

pub proof fn lemma_text_le(a: Seq<char>, b: Seq<char>, c: Seq<char>)
    ensures
        text_le(a, b) || text_le(b, a),
        text_le(a, b) && text_le(b, c) ==> text_le(a, c),
        text_le(a, b) && text_le(b, a) ==> a == b,
        text_le(a, a),
    decreases a.len() + b.len() + c.len(),
{
    if a.len() > 0 && b.len() > 0 {
        if c.len() > 0 {
            lemma_text_le(a.drop_first(), b.drop_first(), c.drop_first());
        } else {
            lemma_text_le(a.drop_first(), b.drop_first(), c);
        }
        assert(a =~= seq![a[0]] + a.drop_first());
        assert(b =~= seq![b[0]] + b.drop_first());
    } else if a.len() > 0 {
        lemma_text_le(a.drop_first(), b, c);
    } else {
        assert(b.len() == 0 ==> a =~= b);
    }
}

pub fn text_not_after(a: &str, b: &str) -> (r: bool)
    ensures
        r == text_le(a@, b@),
{
    let x = chars_of(a);
    let y = chars_of(b);
    let mut i: usize = 0;
    assert(x@.skip(0) =~= x@);
    assert(y@.skip(0) =~= y@);
    while i < x.len() && i < y.len()
        invariant
            x@ == a@,
            y@ == b@,
            i <= x@.len(),
            i <= y@.len(),
            text_le(x@, y@) == text_le(x@.skip(i as int), y@.skip(i as int)),
        decreases x@.len() - i,
    {
        if x[i] != y[i] {
            return x[i] < y[i];
        }
        assert(x@.skip(i as int).drop_first() =~= x@.skip(i + 1));
        assert(y@.skip(i as int).drop_first() =~= y@.skip(i + 1));
        i = i + 1;
    }
    i == x.len()
}

impl Ranked for String {
    open spec fn not_after(&self, other: &Self) -> bool {
        text_le(self@, other@)
    }

    fn may_precede(&self, other: &Self) -> (r: bool) {
        text_not_after(self.as_str(), other.as_str())
    }

    proof fn order_holds(a: &Self, b: &Self, c: &Self) {
        lemma_text_le(a@, b@, c@);
    }
}

}
