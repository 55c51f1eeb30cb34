//! Moving entries and groups about in a grouped list.
//!
//! An entry moves inside its own group and a header moves the whole group, so a
//! list keeps the shape it is drawn in.

use vstd::prelude::*;
use crate::app::{cursor_ok, lemma_row_in_range, rows_ok};
use crate::list::{first_where, lemma_first_where, lemma_first_where_is};
use crate::rows::{
    build_rows,
    distinct,
    group_names,
    groups_of,
    layout,
    law_every_entry_has_one_row,
    lemma_distinct,
    lines_of,
    once_at,
    Grouped,
    Line,
    RowItem,
};
use crate::text::{self, texts};

verus! {

// ---------------------------------------------------------------------------
// An entry
// ---------------------------------------------------------------------------

/// The last place before `n` at which `g` stands.
pub open spec fn before(gs: Seq<Seq<char>>, g: Seq<char>, n: int) -> Option<int>
    decreases n,
{
    if n <= 0 {
        None
    } else if gs[n - 1] == g {
        Some(n - 1)
    } else {
        before(gs, g, n - 1)
    }
}

/// The first place from `n` on at which `g` stands.
pub open spec fn from(gs: Seq<Seq<char>>, g: Seq<char>, n: int) -> Option<int>
    decreases gs.len() - n,
{
    if n >= gs.len() {
        None
    } else if gs[n] == g {
        Some(n)
    } else {
        from(gs, g, n + 1)
    }
}

/// The entry of the same group that is next to `i`.
pub open spec fn beside(gs: Seq<Seq<char>>, i: int, downward: bool) -> Option<int> {
    if downward {
        from(gs, gs[i], i + 1)
    } else {
        before(gs, gs[i], i)
    }
}

/// Two elements in each other's place.
pub open spec fn exchanged<T>(s: Seq<T>, i: int, j: int) -> Seq<T> {
    s.update(i, s[j]).update(j, s[i])
}

fn neighbour<T: Grouped>(items: &Vec<T>, i: usize, downward: bool) -> (r: Option<usize>)
    requires
        i < items@.len(),
    ensures
        r is Some <==> beside(groups_of(items@), i as int, downward) is Some,
        r matches Some(j) ==> j == beside(groups_of(items@), i as int, downward)->0 && j
            < items@.len() && j != i && groups_of(items@)[j as int] == groups_of(items@)[i as int],
{
    let ghost gs = groups_of(items@);
    let g = items[i].group_name();
    let len: usize = items.len();
    if downward {
        let mut n: usize = i + 1;
        while n < len
            invariant
                i < n <= items@.len(),
                len == items@.len(),
                downward,
                gs == groups_of(items@),
                g@ == gs[i as int],
                from(gs, gs[i as int], i + 1) == from(gs, gs[i as int], n as int),
            decreases items@.len() - n,
        {
            if text::same(items[n].group_name(), g) {
                return Some(n);
            }
            n = n + 1;
        }
        None
    } else {
        let mut n: usize = i;
        while n > 0
            invariant
                n <= i < items@.len(),
                !downward,
                gs == groups_of(items@),
                g@ == gs[i as int],
                before(gs, gs[i as int], i as int) == before(gs, gs[i as int], n as int),
            decreases n,
        {
            if text::same(items[n - 1].group_name(), g) {
                return Some(n - 1);
            }
            n = n - 1;
        }
        None
    }
}

/// Put two elements in each other's place.
pub fn exchange<T>(v: &mut Vec<T>, i: usize, j: usize)
    requires
        i < old(v)@.len(),
        j < old(v)@.len(),
        i != j,
    ensures
        final(v)@ == exchanged(old(v)@, i as int, j as int),
{
    let ghost was = v@;
    let low: usize = if i < j {
        i
    } else {
        j
    };
    let high: usize = if i < j {
        j
    } else {
        i
    };
    let b = v.remove(high);
    let a = v.remove(low);
    v.insert(low, b);
    v.insert(high, a);
    assert(v@ =~= exchanged(was, i as int, j as int));
}

// ---------------------------------------------------------------------------
// A group
// ---------------------------------------------------------------------------

/// The entries of one group, in order.
pub open spec fn only<T: Grouped>(items: Seq<T>, g: Seq<char>) -> Seq<T>
    decreases items.len(),
{
    if items.len() == 0 {
        items
    } else if items.last().group_spec() == g {
        only(items.drop_last(), g).push(items.last())
    } else {
        only(items.drop_last(), g)
    }
}

/// The entries as they are drawn: the ungrouped ones, and each of these groups
/// in turn.
pub open spec fn arranged<T: Grouped>(items: Seq<T>, names: Seq<Seq<char>>) -> Seq<T>
    decreases names.len(),
{
    if names.len() == 0 {
        only(items, Seq::empty())
    } else {
        arranged(items, names.drop_last()) + only(items, names.last())
    }
}

fn add_only<T: Grouped>(out: &mut Vec<T>, items: &Vec<T>, g: &str)
    ensures
        final(out)@ == old(out)@ + only(items@, g@),
{
    let ghost was = out@;
    let mut i: usize = 0;
    assert(items@.take(0) =~= Seq::<T>::empty());
    assert(was + only(items@.take(0), g@) =~= was);
    while i < items.len()
        invariant
            i <= items@.len(),
            out@ == was + only(items@.take(i as int), g@),
        decreases items@.len() - i,
    {
        assert(items@.take(i + 1).drop_last() =~= items@.take(i as int));
        if text::same(items[i].group_name(), g) {
            out.push(items[i].again());
        }
        i = i + 1;
        assert(out@ =~= was + only(items@.take(i as int), g@));
    }
    assert(items@.take(i as int) =~= items@);
}

fn arrange<T: Grouped>(items: &Vec<T>, names: &Vec<String>) -> (r: Vec<T>)
    ensures
        r@ == arranged(items@, texts(names@)),
{
    let ghost ns = texts(names@);
    let mut out: Vec<T> = Vec::new();
    proof {
        reveal_strlit("");
        assert(""@ =~= Seq::<char>::empty());
    }
    add_only(&mut out, items, "");
    let mut i: usize = 0;
    assert(ns.take(0) =~= Seq::<Seq<char>>::empty());
    assert(out@ =~= arranged(items@, ns.take(0)));
    while i < names.len()
        invariant
            i <= names@.len(),
            ns == texts(names@),
            out@ == arranged(items@, ns.take(i as int)),
        decreases names@.len() - i,
    {
        assert(ns.take(i + 1).drop_last() =~= ns.take(i as int));
        assert(ns.take(i + 1).last() == names@[i as int]@);
        add_only(&mut out, items, names[i].as_str());
        i = i + 1;
    }
    assert(ns.take(i as int) =~= ns);
    out
}

// ---------------------------------------------------------------------------
// Either of them
// ---------------------------------------------------------------------------

/// What came of moving what a cursor is on.
#[derive(Debug, Clone, Copy, PartialEq, Eq, Structural)]
pub enum Shift {
    /// There is no row.
    NoRow,
    /// The entry is the first or the last of its group.
    EntryAtEnd,
    /// The group is the first or the last.
    GroupAtEnd,
    Moved,
}

pub open spec fn is_line(l: Line) -> spec_fn(RowItem) -> bool {
    |r: RowItem| r@ == l
}

/// The place of a name.
pub open spec fn place_in(names: Seq<Seq<char>>, g: Seq<char>) -> int {
    first_where(names, |n: Seq<char>| n == g)
}

/// Where the row under the cursor goes.
pub open spec fn target_row(at: int, downward: bool) -> int {
    if downward {
        at + 1
    } else {
        at - 1
    }
}

/// A list before and after what the cursor is on was moved one place.
pub open spec fn shifted<T: Grouped>(
    items: Seq<T>,
    rows: Seq<RowItem>,
    at: int,
    downward: bool,
    items2: Seq<T>,
    rows2: Seq<RowItem>,
    at2: int,
    what: Shift,
) -> bool {
    let gs = groups_of(items);
    if at >= rows.len() {
        what == Shift::NoRow && items2 == items && rows2 == rows && at2 == at
    } else {
        match rows[at] {
            RowItem::Item(i) => match beside(gs, i as int, downward) {
                None => what == Shift::EntryAtEnd && items2 == items && rows2 == rows && at2 == at,
                Some(j) => {
                    &&& what == Shift::Moved
                    &&& items2 == exchanged(items, i as int, j)
                    &&& rows2 == rows
                    &&& at2 == first_where(rows2, is_line(Line::Item(j)))
                },
            },
            RowItem::Group(g) => {
                let names = distinct(gs);
                let k = place_in(names, g@);
                let m = target_row(k, downward);
                if k < names.len() && 0 <= m < names.len() {
                    &&& what == Shift::Moved
                    &&& items2 == arranged(items, exchanged(names, k, m))
                    &&& rows_ok(rows2, items2)
                    &&& at2 == first_where(rows2, is_line(Line::Group(g@)))
                } else {
                    what == Shift::GroupAtEnd && items2 == items && rows2 == rows && at2 == at
                }
            },
        }
    }
}

/// The first row that is this line; the number of rows where none is.
fn row_of(rows: &Vec<RowItem>, l: &RowItem) -> (r: usize)
    ensures
        r == first_where(rows@, is_line(l@)),
        r <= rows@.len(),
{
    let ghost p = is_line(l@);
    let mut i: usize = 0;
    while i < rows.len()
        invariant
            i <= rows@.len(),
            p == is_line(l@),
            forall|k: int| 0 <= k < i ==> !p(#[trigger] rows@[k]),
        decreases rows@.len() - i,
    {
        let hit = match (&rows[i], l) {
            (RowItem::Item(a), RowItem::Item(b)) => *a == *b,
            (RowItem::Group(a), RowItem::Group(b)) => text::same(a.as_str(), b.as_str()),
            _ => false,
        };
        if hit {
            proof {
                lemma_first_where_is(rows@, p, i as int);
            }
            return i;
        }
        i = i + 1;
    }
    proof {
        lemma_first_where_is(rows@, p, i as int);
    }
    i
}

fn name_at(names: &Vec<String>, g: &str) -> (r: usize)
    ensures
        r == place_in(texts(names@), g@),
        r <= names@.len(),
{
    let ghost ns = texts(names@);
    let ghost p = |n: Seq<char>| n == g@;
    let mut i: usize = 0;
    while i < names.len()
        invariant
            i <= names@.len(),
            ns == texts(names@),
            p == (|n: Seq<char>| n == g@),
            forall|k: int| 0 <= k < i ==> !p(#[trigger] ns[k]),
        decreases names@.len() - i,
    {
        assert(ns[i as int] == names@[i as int]@);
        if text::same(names[i].as_str(), g) {
            proof {
                lemma_first_where_is(ns, p, i as int);
            }
            return i;
        }
        i = i + 1;
    }
    proof {
        lemma_first_where_is(ns, p, i as int);
    }
    i
}

proof fn lemma_exchange_keeps_groups<T: Grouped>(items: Seq<T>, i: int, j: int)
    requires
        0 <= i < items.len(),
        0 <= j < items.len(),
        items[i].group_spec() == items[j].group_spec(),
    ensures
        groups_of(exchanged(items, i, j)) == groups_of(items),
{
    assert(groups_of(exchanged(items, i, j)) =~= groups_of(items));
}

/// Move what a cursor is on one place, and the cursor along with it.
pub fn shift<T: Grouped>(
    items: &mut Vec<T>,
    rows: &mut Vec<RowItem>,
    at: &mut usize,
    downward: bool,
) -> (r: Shift)
    requires
        rows_ok(old(rows)@, old(items)@),
        cursor_ok(*old(at) as int, old(rows)@.len() as int),
    ensures
        shifted(
            old(items)@,
            old(rows)@,
            *old(at) as int,
            downward,
            final(items)@,
            final(rows)@,
            *final(at) as int,
            r,
        ),
        rows_ok(final(rows)@, final(items)@),
        cursor_ok(*final(at) as int, final(rows)@.len() as int),
        final(items)@.len() == old(items)@.len(),
{
    let ghost gs = groups_of(items@);
    let ghost was = items@;
    if *at >= rows.len() {
        return Shift::NoRow;
    }
    proof {
        lemma_row_in_range(rows@, items@, *at as int);
    }
    match rows[*at].clone() {
        RowItem::Item(i) => {
            match neighbour(items, i, downward) {
                None => Shift::EntryAtEnd,
                Some(j) => {
                    proof {
                        lemma_exchange_keeps_groups(items@, i as int, j as int);
                        lemma_row_of_entry(rows@, items@, j as int);
                    }
                    exchange(items, i, j);
                    *at = row_of(rows, &RowItem::Item(j));
                    Shift::Moved
                },
            }
        },
        RowItem::Group(g) => {
            let mut names = group_names(items);
            let ghost ns = texts(names@);
            assert(ns.len() == names@.len());
            let k = name_at(&names, g.as_str());
            if k >= names.len() || (downward && k + 1 >= names.len()) || (!downward && k == 0) {
                return Shift::GroupAtEnd;
            }
            let m: usize = if downward {
                k + 1
            } else {
                k - 1
            };
            exchange(&mut names, k, m);
            assert(texts(names@) =~= exchanged(ns, k as int, m as int));
            proof {
                lemma_first_where(ns, |n: Seq<char>| n == g@);
                law_moving_a_group(was, k as int, m as int);
            }
            *items = arrange(items, &names);
            *rows = build_rows(items);
            proof {
                assert(exchanged(ns, k as int, m as int)[m as int] == g@);
                lemma_row_of_group(rows@, items@, g@);
            }
            *at = row_of(rows, &RowItem::Group(g));
            Shift::Moved
        },
    }
}

// ---------------------------------------------------------------------------
// What holds of it
// ---------------------------------------------------------------------------

proof fn lemma_row_of_entry<T: Grouped>(rows: Seq<RowItem>, items: Seq<T>, j: int)
    requires
        rows_ok(rows, items),
        0 <= j < items.len(),
    ensures
        first_where(rows, is_line(Line::Item(j))) < rows.len(),
        rows[first_where(rows, is_line(Line::Item(j)))]@ == Line::Item(j),
{
    let gs = groups_of(items);
    law_every_entry_has_one_row(gs, j);
    let at = choose|at: int| once_at(layout(gs), Line::Item(j), at);
    assert(lines_of(rows)[at] == rows[at]@);
    let p = is_line(Line::Item(j));
    lemma_first_where(rows, p);
    assert(p(rows[at]));
}

proof fn lemma_header(gs: Seq<Seq<char>>, names: Seq<Seq<char>>, g: Seq<char>) -> (at: int)
    requires
        names.contains(g),
    ensures
        0 <= at < crate::rows::sections(gs, names).len(),
        crate::rows::sections(gs, names)[at] == Line::Group(g),
    decreases names.len(),
{
    let head = names.drop_last();
    let s = crate::rows::sections(gs, names);
    let t = crate::rows::sections(gs, head);
    if names.last() == g {
        assert(s[t.len() as int] == Line::Group(g));
        t.len() as int
    } else {
        let j = choose|j: int| 0 <= j < names.len() && names[j] == g;
        assert(head[j] == g);
        let at = lemma_header(gs, head, g);
        assert(s[at] == t[at]);
        at
    }
}

proof fn lemma_row_of_group<T: Grouped>(rows: Seq<RowItem>, items: Seq<T>, g: Seq<char>)
    requires
        rows_ok(rows, items),
        distinct(groups_of(items)).contains(g),
    ensures
        first_where(rows, is_line(Line::Group(g))) < rows.len(),
        rows[first_where(rows, is_line(Line::Group(g)))]@ == Line::Group(g),
{
    let gs = groups_of(items);
    let at = lemma_header(gs, distinct(gs), g);
    let k = crate::rows::item_lines(crate::rows::places(gs, Seq::empty())).len() + at;
    assert(layout(gs)[k] == Line::Group(g));
    assert(lines_of(rows).len() == rows.len());
    assert(0 <= k < layout(gs).len());
    assert(lines_of(rows)[k] == rows[k]@);
    let p = is_line(Line::Group(g));
    lemma_first_where(rows, p);
    assert(p(rows[k]));
}

/// The members of a group are those of each part of a list, one after another.
proof fn lemma_only_of_sum<T: Grouped>(a: Seq<T>, b: Seq<T>, g: Seq<char>)
    ensures
        only(a + b, g) == only(a, g) + only(b, g),
    decreases b.len(),
{
    if b.len() == 0 {
        assert(a + b =~= a);
        assert(only(a, g) + only(b, g) =~= only(a, g));
    } else {
        assert((a + b).drop_last() =~= a + b.drop_last());
        lemma_only_of_sum(a, b.drop_last(), g);
        assert(only(a + b, g) =~= only(a, g) + only(b, g));
    }
}

/// A group holds its own members and none of another's.
proof fn lemma_only_of_only<T: Grouped>(x: Seq<T>, n: Seq<char>, g: Seq<char>)
    ensures
        only(only(x, n), g) == if n == g {
            only(x, n)
        } else {
            Seq::empty()
        },
        forall|k: int| 0 <= k < only(x, n).len() ==> (#[trigger] only(x, n)[k]).group_spec() == n,
    decreases x.len(),
{
    if x.len() > 0 {
        lemma_only_of_only(x.drop_last(), n, g);
        if x.last().group_spec() == n {
            assert(only(x, n).drop_last() =~= only(x.drop_last(), n));
        }
    }
}

proof fn lemma_only_of_arranged<T: Grouped>(items: Seq<T>, names: Seq<Seq<char>>, g: Seq<char>)
    requires
        names.no_duplicates(),
        forall|k: int| 0 <= k < names.len() ==> (#[trigger] names[k]).len() > 0,
    ensures
        only(arranged(items, names), g) == if g.len() == 0 || names.contains(g) {
            only(items, g)
        } else {
            Seq::empty()
        },
    decreases names.len(),
{
    let nobody = Seq::<char>::empty();
    if names.len() == 0 {
        lemma_only_of_only(items, nobody, g);
        if g.len() == 0 {
            assert(g =~= nobody);
        }
    } else {
        let head = names.drop_last();
        let last = names.last();
        lemma_only_of_arranged(items, head, g);
        lemma_only_of_only(items, last, g);
        lemma_only_of_sum(arranged(items, head), only(items, last), g);
        assert(names[names.len() - 1] == last);
        if head.contains(g) {
            let k = choose|k: int| 0 <= k < head.len() && head[k] == g;
            assert(names[k] == g);
            assert(names.contains(g));
        } else if names.contains(g) {
            let k = choose|k: int| 0 <= k < names.len() && names[k] == g;
            assert(k == names.len() - 1) by {
                if k < head.len() {
                    assert(head[k] == g);
                }
            }
        }
        if last == g {
            assert(!head.contains(g));
        }
        assert(only(arranged(items, names), g) =~= if g.len() == 0 || names.contains(g) {
            only(items, g)
        } else {
            Seq::empty()
        });
    }
}

/// A block of one group behind a list adds that group, and no other.
proof fn lemma_distinct_of_block<T: Grouped>(a: Seq<T>, b: Seq<T>, n: Seq<char>)
    requires
        b.len() > 0,
        n.len() > 0,
        forall|k: int| 0 <= k < b.len() ==> (#[trigger] b[k]).group_spec() == n,
        !distinct(groups_of(a)).contains(n),
    ensures
        distinct(groups_of(a + b)) == distinct(groups_of(a)).push(n),
    decreases b.len(),
{
    let gs = groups_of(a + b);
    let c = b.drop_last();
    assert(gs.drop_last() =~= groups_of(a + c));
    assert(gs.last() == n);
    if c.len() == 0 {
        assert(a + c =~= a);
    } else {
        lemma_distinct_of_block(a, c, n);
        assert(distinct(groups_of(a)).push(n).last() == n);
        assert(distinct(groups_of(a)).push(n).contains(n));
    }
}

proof fn lemma_distinct_of_nobody<T: Grouped>(a: Seq<T>)
    requires
        forall|k: int| 0 <= k < a.len() ==> (#[trigger] a[k]).group_spec().len() == 0,
    ensures
        distinct(groups_of(a)) == Seq::<Seq<char>>::empty(),
    decreases a.len(),
{
    if a.len() > 0 {
        assert(groups_of(a).drop_last() =~= groups_of(a.drop_last()));
        lemma_distinct_of_nobody(a.drop_last());
    }
}

proof fn lemma_distinct_of_arranged<T: Grouped>(items: Seq<T>, names: Seq<Seq<char>>)
    requires
        names.no_duplicates(),
        forall|k: int|
            0 <= k < names.len() ==> (#[trigger] names[k]).len() > 0 && only(items, names[k]).len()
                > 0,
    ensures
        distinct(groups_of(arranged(items, names))) == names,
    decreases names.len(),
{
    if names.len() == 0 {
        lemma_only_of_only(items, Seq::empty(), Seq::empty());
        lemma_distinct_of_nobody(arranged(items, names));
        assert(names =~= Seq::<Seq<char>>::empty());
    } else {
        let head = names.drop_last();
        let last = names.last();
        assert forall|k: int| 0 <= k < head.len() implies (#[trigger] head[k]).len() > 0 && only(
            items,
            head[k],
        ).len() > 0 by {
            assert(names[k] == head[k]);
        }
        lemma_distinct_of_arranged(items, head);
        assert(names[names.len() - 1] == last);
        assert(!head.contains(last)) by {
            if head.contains(last) {
                let k = choose|k: int| 0 <= k < head.len() && head[k] == last;
                assert(names[k] == names[names.len() - 1]);
            }
        }
        lemma_only_of_only(items, last, last);
        lemma_distinct_of_block(arranged(items, head), only(items, last), last);
        assert(head.push(last) =~= names);
    }
}

proof fn lemma_one_more<T: Grouped>(items: Seq<T>, names: Seq<Seq<char>>)
    requires
        items.len() > 0,
        names.no_duplicates(),
        forall|k: int| 0 <= k < names.len() ==> (#[trigger] names[k]).len() > 0,
    ensures
        arranged(items, names).len() == arranged(items.drop_last(), names).len() + (
        if items.last().group_spec().len() == 0 || names.contains(items.last().group_spec()) {
            1nat
        } else {
            0nat
        }),
    decreases names.len(),
{
    let g = items.last().group_spec();
    if names.len() == 0 {
        if g.len() == 0 {
            assert(g =~= Seq::<char>::empty());
        }
    } else {
        let head = names.drop_last();
        let last = names.last();
        lemma_one_more(items, head);
        assert(names[names.len() - 1] == last);
        if head.contains(g) {
            let k = choose|k: int| 0 <= k < head.len() && head[k] == g;
            assert(names[k] == g);
            assert(names.contains(g));
        } else if names.contains(g) {
            let k = choose|k: int| 0 <= k < names.len() && names[k] == g;
            if k < head.len() {
                assert(head[k] == g);
            }
        }
        if last == g {
            assert(!head.contains(g));
        }
    }
}

proof fn lemma_arranged_len<T: Grouped>(items: Seq<T>, names: Seq<Seq<char>>)
    requires
        names.no_duplicates(),
        forall|k: int| 0 <= k < names.len() ==> (#[trigger] names[k]).len() > 0,
        forall|k: int|
            0 <= k < items.len() ==> (#[trigger] items[k]).group_spec().len() == 0
                || names.contains(items[k].group_spec()),
    ensures
        arranged(items, names).len() == items.len(),
    decreases items.len(),
{
    if items.len() == 0 {
        lemma_nothing(items, names);
    } else {
        assert(items[items.len() - 1] == items.last());
        assert forall|k: int| 0 <= k < items.drop_last().len() implies (
        #[trigger] items.drop_last()[k]).group_spec().len() == 0 || names.contains(
            items.drop_last()[k].group_spec(),
        ) by {
            assert(items[k] == items.drop_last()[k]);
        }
        lemma_arranged_len(items.drop_last(), names);
        lemma_one_more(items, names);
    }
}

proof fn lemma_nothing<T: Grouped>(items: Seq<T>, names: Seq<Seq<char>>)
    requires
        items.len() == 0,
    ensures
        arranged(items, names).len() == 0,
    decreases names.len(),
{
    if names.len() > 0 {
        lemma_nothing(items, names.drop_last());
    }
}

proof fn lemma_only_some<T: Grouped>(items: Seq<T>, k: int)
    requires
        0 <= k < items.len(),
    ensures
        only(items, items[k].group_spec()).len() > 0,
    decreases items.len(),
{
    if k < items.len() - 1 {
        assert(items.drop_last()[k] == items[k]);
        lemma_only_some(items.drop_last(), k);
    }
}

/// Exchanging two groups exchanges their headers and nothing else: the groups are
/// drawn in the new order, every group has the members it had, in their order,
/// and no entry is lost or gained.
pub proof fn law_moving_a_group<T: Grouped>(items: Seq<T>, k: int, m: int)
    requires
        0 <= k < distinct(groups_of(items)).len(),
        0 <= m < distinct(groups_of(items)).len(),
        k != m,
    ensures
        ({
            let names = exchanged(distinct(groups_of(items)), k, m);
            let after = arranged(items, names);
            &&& distinct(groups_of(after)) == names
            &&& forall|g: Seq<char>| #[trigger] only(after, g) == only(items, g)
            &&& after.len() == items.len()
            &&& names.contains(distinct(groups_of(items))[k])
        }),
{
    let gs = groups_of(items);
    let d = distinct(gs);
    let names = exchanged(d, k, m);
    let after = arranged(items, names);
    lemma_distinct(gs);
    assert(names[m] == d[k]);
    assert forall|a: int, b: int| 0 <= a < names.len() && 0 <= b < names.len() && a
        != b implies names[a] != names[b] by {}
    assert forall|i: int| 0 <= i < names.len() implies (#[trigger] names[i]).len() > 0 && only(
        items,
        names[i],
    ).len() > 0 by {
        let j = if i == k {
            m
        } else if i == m {
            k
        } else {
            i
        };
        assert(d[j] == names[i]);
        assert(d.contains(d[j]));
        let p = choose|p: int| 0 <= p < gs.len() && gs[p] == d[j];
        assert(items[p].group_spec() == names[i]);
        lemma_only_some(items, p);
    }
    lemma_distinct_of_arranged(items, names);
    assert forall|i: int| 0 <= i < items.len() implies (#[trigger] items[i]).group_spec().len()
        == 0 || names.contains(items[i].group_spec()) by {
        let g = items[i].group_spec();
        assert(gs[i] == g);
        if g.len() > 0 {
            assert(d.contains(g));
            let j = choose|j: int| 0 <= j < d.len() && d[j] == g;
            if j == k {
                assert(names[m] == g);
            } else if j == m {
                assert(names[k] == g);
            } else {
                assert(names[j] == g);
            }
        }
    }
    lemma_arranged_len(items, names);
    assert forall|g: Seq<char>| #[trigger] only(after, g) == only(items, g) by {
        lemma_only_of_arranged(items, names, g);
        if g.len() > 0 && !names.contains(g) {
            assert(only(items, g) =~= Seq::<T>::empty()) by {
                lemma_only_of_only(items, g, g);
                lemma_only_from(items, g);
            }
        }
    }
}

/// A member of a group is one of the entries.
proof fn lemma_only_from<T: Grouped>(items: Seq<T>, g: Seq<char>)
    ensures
        only(items, g).len() > 0 ==> exists|k: int|
            0 <= k < items.len() && (#[trigger] items[k]).group_spec() == g,
    decreases items.len(),
{
    if items.len() > 0 {
        if items.last().group_spec() == g {
            assert(items[items.len() - 1].group_spec() == g);
        } else {
            lemma_only_from(items.drop_last(), g);
            if only(items, g).len() > 0 {
                let k = choose|k: int|
                    0 <= k < items.drop_last().len() && (#[trigger] items.drop_last()[k]).group_spec()
                        == g;
                assert(items[k].group_spec() == g);
            }
        }
    }
}

/// An entry moves inside its own group: which groups stand where is as it was,
/// and so is every other entry.
pub proof fn law_moving_an_entry<T: Grouped>(items: Seq<T>, i: int, downward: bool)
    requires
        0 <= i < items.len(),
        beside(groups_of(items), i, downward) is Some,
    ensures
        ({
            let j = beside(groups_of(items), i, downward)->0;
            let after = exchanged(items, i, j);
            &&& 0 <= j < items.len() && j != i
            &&& after.len() == items.len()
            &&& groups_of(after) == groups_of(items)
            &&& after[j] == items[i] && after[i] == items[j]
            &&& forall|k: int|
                0 <= k < items.len() && k != i && k != j ==> #[trigger] after[k] == items[k]
        }),
{
    let gs = groups_of(items);
    if downward {
        lemma_from(gs, gs[i], i + 1);
    } else {
        lemma_before(gs, gs[i], i);
    }
    let j = beside(gs, i, downward)->0;
    assert(items[j].group_spec() == gs[j]);
    assert(items[i].group_spec() == gs[i]);
    lemma_exchange_keeps_groups(items, i, j);
}

proof fn lemma_before(gs: Seq<Seq<char>>, g: Seq<char>, n: int)
    requires
        n <= gs.len(),
    ensures
        before(gs, g, n) matches Some(j) ==> 0 <= j < n && gs[j] == g && forall|k: int|
            j < k < n ==> gs[k] != g,
    decreases n,
{
    if n > 0 {
        lemma_before(gs, g, n - 1);
    }
}

proof fn lemma_from(gs: Seq<Seq<char>>, g: Seq<char>, n: int)
    requires
        0 <= n,
    ensures
        from(gs, g, n) matches Some(j) ==> n <= j < gs.len() && gs[j] == g && forall|k: int|
            n <= k < j ==> gs[k] != g,
    decreases gs.len() - n,
{
    if n < gs.len() {
        lemma_from(gs, g, n + 1);
    }
}

/// Moving an entry down and then up again leaves the list as it was.
pub proof fn law_there_and_back<T: Grouped>(items: Seq<T>, i: int)
    requires
        0 <= i < items.len(),
        beside(groups_of(items), i, true) is Some,
    ensures
        ({
            let j = beside(groups_of(items), i, true)->0;
            let after = exchanged(items, i, j);
            &&& beside(groups_of(after), j, false) == Some(i)
            &&& exchanged(after, j, i) == items
        }),
{
    let gs = groups_of(items);
    let g = gs[i];
    law_moving_an_entry(items, i, true);
    lemma_from(gs, g, i + 1);
    let j = from(gs, g, i + 1)->0;
    lemma_before(gs, g, j);
    lemma_before_some(gs, g, j, i);
    assert(exchanged(exchanged(items, i, j), j, i) =~= items);
}

proof fn lemma_before_some(gs: Seq<Seq<char>>, g: Seq<char>, n: int, i: int)
    requires
        0 <= i < n <= gs.len(),
        gs[i] == g,
    ensures
        before(gs, g, n) is Some,
    decreases n,
{
    if gs[n - 1] != g {
        lemma_before_some(gs, g, n - 1, i);
    }
}

/// The cursor stays on what was moved.
pub proof fn law_cursor_follows<T: Grouped>(
    items: Seq<T>,
    rows: Seq<RowItem>,
    at: int,
    downward: bool,
    items2: Seq<T>,
    rows2: Seq<RowItem>,
    at2: int,
)
    requires
        rows_ok(rows, items),
        0 <= at < rows.len(),
        shifted(items, rows, at, downward, items2, rows2, at2, Shift::Moved),
    ensures
        0 <= at2 < rows2.len(),
        match rows[at] {
            RowItem::Item(i) => rows2[at2]@ matches Line::Item(j) && items2[j] == items[i as int],
            RowItem::Group(g) => rows2[at2]@ == Line::Group(g@),
        },
{
    let gs = groups_of(items);
    lemma_row_in_range(rows, items, at);
    match rows[at] {
        RowItem::Item(i) => {
            law_moving_an_entry(items, i as int, downward);
            let j = beside(gs, i as int, downward)->0;
            lemma_row_of_entry(rows, items, j);
            lemma_first_where(rows2, is_line(Line::Item(j)));
        },
        RowItem::Group(g) => {
            let names = distinct(gs);
            let k = place_in(names, g@);
            lemma_first_where(names, |n: Seq<char>| n == g@);
            law_moving_a_group(items, k, target_row(k, downward));
            lemma_row_of_group(rows2, items2, g@);
            lemma_first_where(rows2, is_line(Line::Group(g@)));
        },
    }
}

}
