//! What a cursor in a grouped list is on, and moving it.

use vstd::prelude::*;
use crate::app::{cursor_ok, lemma_row_in_range, rows_ok};
use crate::live::Named;
use crate::picker::Picker;
use crate::rows::{groups_of, members_of, places, Grouped, RowItem};
use crate::screen::{Key, KeyCode};
use crate::text::{self, texts};

verus! {

/// A list of places, as numbers.
pub open spec fn ints(v: Seq<usize>) -> Seq<int> {
    v.map_values(|i: usize| i as int)
}

/// The entries a cursor is on: one, or every member of the group whose header it
/// is on. `None` where there is no row.
pub open spec fn under(rows: Seq<RowItem>, at: int, gs: Seq<Seq<char>>) -> Option<Seq<int>> {
    if 0 <= at < rows.len() {
        match rows[at] {
            RowItem::Item(i) => Some(seq![i as int]),
            RowItem::Group(g) => Some(places(gs, g@)),
        }
    } else {
        None
    }
}

pub fn under_cursor<T: Grouped>(rows: &Vec<RowItem>, at: usize, items: &[T]) -> (r: Option<
    Vec<usize>,
>)
    requires
        rows_ok(rows@, items@),
    ensures
        r is Some <==> under(rows@, at as int, groups_of(items@)) is Some,
        r is Some ==> ints(r->0@) == under(rows@, at as int, groups_of(items@))->0,
        r is Some ==> forall|k: int| 0 <= k < r->0@.len() ==> #[trigger] r->0@[k] < items@.len(),
{
    if at >= rows.len() {
        return None;
    }
    proof {
        lemma_row_in_range(rows@, items@, at as int);
    }
    match &rows[at] {
        RowItem::Item(i) => {
            let mut one: Vec<usize> = Vec::new();
            one.push(*i);
            assert(ints(one@) =~= seq![*i as int]);
            Some(one)
        },
        RowItem::Group(g) => Some(members_of(items, g.as_str())),
    }
}

/// The group a new entry starts in: that of the row the cursor is on.
pub open spec fn group_under<T: Grouped>(rows: Seq<RowItem>, at: int, items: Seq<T>) -> Seq<char> {
    if 0 <= at < rows.len() {
        match rows[at] {
            RowItem::Item(i) => items[i as int].group_spec(),
            RowItem::Group(g) => g@,
        }
    } else {
        Seq::empty()
    }
}

pub fn group_at<T: Grouped>(rows: &Vec<RowItem>, at: usize, items: &[T]) -> (r: String)
    requires
        rows_ok(rows@, items@),
    ensures
        r@ == group_under(rows@, at as int, items@),
{
    if at >= rows.len() {
        return String::new();
    }
    proof {
        lemma_row_in_range(rows@, items@, at as int);
    }
    match &rows[at] {
        RowItem::Item(i) => items[*i].group_name().to_owned(),
        RowItem::Group(g) => g.clone(),
    }
}

/// The names of the entries at these places.
pub open spec fn names_at<T: Named>(items: Seq<T>, idxs: Seq<int>) -> Seq<Seq<char>> {
    idxs.map_values(|i: int| items[i].name_spec())
}

pub fn names_of<T: Named>(items: &[T], idxs: &Vec<usize>) -> (r: Vec<String>)
    requires
        forall|k: int| 0 <= k < idxs@.len() ==> #[trigger] idxs@[k] < items@.len(),
    ensures
        texts(r@) == names_at(items@, ints(idxs@)),
{
    let ghost all = names_at(items@, ints(idxs@));
    let mut out = text::no_texts();
    let mut i: usize = 0;
    assert(texts(out@) =~= all.take(0));
    while i < idxs.len()
        invariant
            i <= idxs@.len(),
            all == names_at(items@, ints(idxs@)),
            forall|k: int| 0 <= k < idxs@.len() ==> #[trigger] idxs@[k] < items@.len(),
            texts(out@) == all.take(i as int),
        decreases idxs@.len() - i,
    {
        text::add_str(&mut out, items[idxs[i]].known_as());
        i = i + 1;
        assert(all.take(i as int) =~= all.take(i - 1).push(all[i - 1]));
    }
    assert(all.take(i as int) =~= all);
    out
}

/// A cursor one row on, from the last to the first.
pub open spec fn row_below(at: int, n: int) -> int {
    if n == 0 {
        at
    } else {
        Picker::next_idx(at, n)
    }
}

/// A cursor one row back, from the first to the last.
pub open spec fn row_above(at: int, n: int) -> int {
    if n == 0 {
        at
    } else {
        Picker::prev_idx(at, n)
    }
}

pub fn down(at: usize, n: usize) -> (r: usize)
    requires
        cursor_ok(at as int, n as int),
    ensures
        r == row_below(at as int, n as int),
        cursor_ok(r as int, n as int),
{
    if n == 0 {
        at
    } else if at < n - 1 {
        at + 1
    } else {
        0
    }
}

pub fn up(at: usize, n: usize) -> (r: usize)
    requires
        cursor_ok(at as int, n as int),
    ensures
        r == row_above(at as int, n as int),
        cursor_ok(r as int, n as int),
{
    if n == 0 {
        at
    } else if at > 0 {
        at - 1
    } else {
        n - 1
    }
}

/// How far a page is.
pub const PAGE: usize = 10;

/// A way to move a cursor.
#[derive(Debug, Clone, Copy, PartialEq, Eq, Structural)]
pub enum Motion {
    Up,
    Down,
    PageUp,
    PageDown,
}

impl Motion {
    /// Where it takes a cursor in a list of `n` rows. A step goes round at either
    /// end, a page stops there.
    pub open spec fn goes(self, at: int, n: int) -> int {
        match self {
            Motion::Up => row_above(at, n),
            Motion::Down => row_below(at, n),
            Motion::PageUp => if at > PAGE {
                at - PAGE
            } else {
                0
            },
            Motion::PageDown => if at + PAGE < n {
                at + PAGE
            } else if n > 0 {
                n - 1
            } else {
                0
            },
        }
    }

    pub fn from(self, at: usize, n: usize) -> (r: usize)
        requires
            cursor_ok(at as int, n as int),
        ensures
            r == self.goes(at as int, n as int),
            cursor_ok(r as int, n as int),
    {
        match self {
            Motion::Up => up(at, n),
            Motion::Down => down(at, n),
            Motion::PageUp => if at > PAGE {
                at - PAGE
            } else {
                0
            },
            Motion::PageDown => if n > PAGE && at < n - PAGE {
                at + PAGE
            } else if n > 0 {
                n - 1
            } else {
                0
            },
        }
    }

    /// The motion a key stands for.
    pub open spec fn of_spec(key: Key) -> Option<Motion> {
        match key.code {
            KeyCode::Up => Some(Motion::Up),
            KeyCode::Down => Some(Motion::Down),
            KeyCode::PageUp => Some(Motion::PageUp),
            KeyCode::PageDown => Some(Motion::PageDown),
            _ => None,
        }
    }

    pub fn of(key: Key) -> (r: Option<Motion>)
        ensures
            r == Self::of_spec(key),
    {
        match key.code {
            KeyCode::Up => Some(Motion::Up),
            KeyCode::Down => Some(Motion::Down),
            KeyCode::PageUp => Some(Motion::PageUp),
            KeyCode::PageDown => Some(Motion::PageDown),
            _ => None,
        }
    }
}

/// A page one way and a page the other come back to where they began, unless an
/// end was in the way.
pub proof fn law_pages_come_back(at: int, n: int)
    requires
        0 <= at,
        at + PAGE < n,
    ensures
        Motion::PageUp.goes(Motion::PageDown.goes(at, n), n) == at,
{
}

/// The places from `idxs` for which `p` holds.
pub open spec fn chosen(idxs: Seq<int>, p: spec_fn(int) -> bool) -> Seq<int>
    decreases idxs.len(),
{
    if idxs.len() == 0 {
        idxs
    } else if p(idxs.last()) {
        chosen(idxs.drop_last(), p).push(idxs.last())
    } else {
        chosen(idxs.drop_last(), p)
    }
}

/// Every place that is chosen is one of those chosen from, and meets the test.
pub proof fn law_chosen(idxs: Seq<int>, p: spec_fn(int) -> bool)
    ensures
        forall|k: int|
            0 <= k < chosen(idxs, p).len() ==> p(#[trigger] chosen(idxs, p)[k]) && idxs.contains(
                chosen(idxs, p)[k],
            ),
        forall|k: int|
            0 <= k < idxs.len() && p(#[trigger] idxs[k]) ==> chosen(idxs, p).contains(idxs[k]),
    decreases idxs.len(),
{
    let c = chosen(idxs, p);
    if idxs.len() > 0 {
        let head = idxs.drop_last();
        let d = chosen(head, p);
        law_chosen(head, p);
        assert forall|k: int| 0 <= k < c.len() implies p(#[trigger] c[k]) && idxs.contains(
            c[k],
        ) by {
            if k < d.len() {
                assert(c[k] == d[k]);
                let m = choose|m: int| 0 <= m < head.len() && head[m] == d[k];
                assert(idxs[m] == c[k]);
            } else {
                assert(idxs[idxs.len() - 1] == c[k]);
            }
        }
        assert forall|k: int| 0 <= k < idxs.len() && p(#[trigger] idxs[k]) implies c.contains(
            idxs[k],
        ) by {
            if k < head.len() {
                assert(head[k] == idxs[k]);
                let m = choose|m: int| 0 <= m < d.len() && d[m] == head[k];
                assert(c[m] == idxs[k]);
            } else {
                assert(c[d.len() as int] == idxs[k]);
            }
        }
    }
}

}
