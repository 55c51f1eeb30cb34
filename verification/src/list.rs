//! Looking things up in a list.

use vstd::prelude::*;

verus! {

/// Where the first member that `p` picks stands; the length where none is.
pub open spec fn first_where<T>(s: Seq<T>, p: spec_fn(T) -> bool) -> int
    decreases s.len(),
{
    if s.len() == 0 || p(s[0]) {
        0
    } else {
        1 + first_where(s.drop_first(), p)
    }
}

pub proof fn lemma_first_where<T>(s: Seq<T>, p: spec_fn(T) -> bool)
    ensures
        0 <= first_where(s, p) <= s.len(),
        first_where(s, p) < s.len() ==> p(s[first_where(s, p)]),
        forall|i: int| 0 <= i < first_where(s, p) ==> !p(#[trigger] s[i]),
    decreases s.len(),
{
    if s.len() > 0 && !p(s[0]) {
        lemma_first_where(s.drop_first(), p);
        assert forall|i: int| 0 <= i < first_where(s, p) implies !p(#[trigger] s[i]) by {
            if i > 0 {
                assert(s[i] == s.drop_first()[i - 1]);
            }
        }
    }
}

pub proof fn lemma_first_where_is<T>(s: Seq<T>, p: spec_fn(T) -> bool, n: int)
    requires
        0 <= n <= s.len(),
        n < s.len() ==> p(s[n]),
        forall|i: int| 0 <= i < n ==> !p(#[trigger] s[i]),
    ensures
        first_where(s, p) == n,
{
    lemma_first_where(s, p);
    let m = first_where(s, p);
    if m < n {
        assert(!p(s[m]));
    }
    if n < m {
        assert(!p(s[n]));
    }
}

/// Two lists that pass the same test at the same places have the same first.
pub proof fn lemma_first_where_same<T>(s: Seq<T>, t: Seq<T>, p: spec_fn(T) -> bool)
    requires
        s.len() == t.len(),
        forall|i: int| 0 <= i < s.len() ==> p(#[trigger] s[i]) == p(t[i]),
    ensures
        first_where(s, p) == first_where(t, p),
{
    lemma_first_where(s, p);
    let k = first_where(s, p);
    assert forall|j: int| 0 <= j < k implies !p(#[trigger] t[j]) by {
        assert(!p(s[j]));
    }
    if k < s.len() {
        assert(p(s[k]));
    }
    lemma_first_where_is(t, p, k);
}

}
