//! Grouped lists: how tunnels, ssh hosts and rdp connections are laid out.

use vstd::prelude::*;
use crate::text::{self, texts};
use crate::types::{RdpConnection, SshHost, Tunnel};

verus! {

/// An entry of a list that is shown by groups.
pub trait Grouped {
    spec fn group_spec(&self) -> Seq<char>;

    /// The group the entry is in; empty for none.
    fn group_name(&self) -> (r: &str)
        ensures
            r@ == self.group_spec(),
    ;

    /// The same entry once more.
    fn again(&self) -> (r: Self) where Self: Sized
        ensures
            r == *self,
    ;
}

impl Grouped for Tunnel {
    open spec fn group_spec(&self) -> Seq<char> {
        self.group@
    }

    fn group_name(&self) -> (r: &str) {
        self.group.as_str()
    }

    fn again(&self) -> (r: Self) {
        self.clone()
    }
}

impl Grouped for SshHost {
    open spec fn group_spec(&self) -> Seq<char> {
        self.group@
    }

    fn group_name(&self) -> (r: &str) {
        self.group.as_str()
    }

    fn again(&self) -> (r: Self) {
        self.clone()
    }
}

impl Grouped for RdpConnection {
    open spec fn group_spec(&self) -> Seq<char> {
        self.group@
    }

    fn group_name(&self) -> (r: &str) {
        self.group.as_str()
    }

    fn again(&self) -> (r: Self) {
        self.clone()
    }
}

/// One visible row in a grouped list (tunnels, ssh hosts, rdp connections):
/// a group header, or an entry at the given index in the underlying list.
#[derive(Debug, PartialEq, Eq)]
pub enum RowItem {
    Group(String),
    Item(usize),
}

/// A row, with the group's name as text.
pub enum Line {
    Group(Seq<char>),
    Item(int),
}

impl View for RowItem {
    type V = Line;

    open spec fn view(&self) -> Line {
        match self {
            RowItem::Group(g) => Line::Group(g@),
            RowItem::Item(i) => Line::Item(*i as int),
        }
    }
}

impl Clone for RowItem {
    fn clone(&self) -> (r: Self)
        ensures
            r == *self,
    {
        match self {
            RowItem::Group(g) => RowItem::Group(g.clone()),
            RowItem::Item(i) => RowItem::Item(*i),
        }
    }
}

pub open spec fn lines_of(v: Seq<RowItem>) -> Seq<Line> {
    v.map_values(|r: RowItem| r@)
}

/// The groups of a list of entries.
pub open spec fn groups_of<T: Grouped>(items: Seq<T>) -> Seq<Seq<char>> {
    items.map_values(|t: T| t.group_spec())
}

/// The places at which `g` stands, in order.
pub open spec fn places(gs: Seq<Seq<char>>, g: Seq<char>) -> Seq<int>
    decreases gs.len(),
{
    if gs.len() == 0 {
        Seq::empty()
    } else if gs.last() == g {
        places(gs.drop_last(), g).push(gs.len() - 1)
    } else {
        places(gs.drop_last(), g)
    }
}

/// The named groups, each once, in order of first appearance.
pub open spec fn distinct(gs: Seq<Seq<char>>) -> Seq<Seq<char>>
    decreases gs.len(),
{
    if gs.len() == 0 {
        Seq::empty()
    } else {
        let before = distinct(gs.drop_last());
        if gs.last().len() == 0 || before.contains(gs.last()) {
            before
        } else {
            before.push(gs.last())
        }
    }
}

pub open spec fn item_lines(ps: Seq<int>) -> Seq<Line> {
    ps.map_values(|i: int| Line::Item(i))
}

/// A header for each of `names`, with the members of the group under it.
pub open spec fn sections(gs: Seq<Seq<char>>, names: Seq<Seq<char>>) -> Seq<Line>
    decreases names.len(),
{
    if names.len() == 0 {
        Seq::empty()
    } else {
        sections(gs, names.drop_last()) + seq![Line::Group(names.last())] + item_lines(
            places(gs, names.last()),
        )
    }
}

/// Ungrouped entries first, then each group in order of first appearance with
/// its members underneath it.
pub open spec fn layout(gs: Seq<Seq<char>>) -> Seq<Line> {
    item_lines(places(gs, Seq::empty())) + sections(gs, distinct(gs))
}

fn add_row(rows: &mut Vec<RowItem>, r: RowItem)
    ensures
        lines_of(final(rows)@) == lines_of(old(rows)@).push(r@),
{
    assert(lines_of(rows@.push(r)) =~= lines_of(rows@).push(r@));
    rows.push(r);
}

fn add_members<T: Grouped>(rows: &mut Vec<RowItem>, items: &[T], group: &str)
    ensures
        lines_of(final(rows)@) == lines_of(old(rows)@) + item_lines(
            places(groups_of(items@), group@),
        ),
{
    let members = members_of(items, group);
    let ghost before = lines_of(rows@);
    let ghost ps = places(groups_of(items@), group@);
    let mut i: usize = 0;
    assert(before + item_lines(ps.take(0)) =~= before);
    while i < members.len()
        invariant
            i <= members@.len(),
            members@.len() == ps.len(),
            forall|k: int| 0 <= k < ps.len() ==> members@[k] == ps[k],
            lines_of(rows@) == before + item_lines(ps.take(i as int)),
        decreases members@.len() - i,
    {
        add_row(rows, RowItem::Item(members[i]));
        i = i + 1;
        assert(before + item_lines(ps.take(i as int)) =~= (before + item_lines(
            ps.take(i - 1),
        )).push(Line::Item(ps[i - 1])));
    }
    assert(ps.take(i as int) =~= ps);
}

/// Lay a list out for display: ungrouped entries first, then each group in
/// order of first appearance with its members underneath it.
pub fn build_rows<T: Grouped>(items: &[T]) -> (r: Vec<RowItem>)
    ensures
        lines_of(r@) == layout(groups_of(items@)),
{
    let ghost gs = groups_of(items@);
    let mut rows: Vec<RowItem> = Vec::new();
    assert(lines_of(rows@) =~= Seq::<Line>::empty());
    proof {
        reveal_strlit("");
        assert(""@ =~= Seq::<char>::empty());
    }
    add_members(&mut rows, items, "");
    assert(lines_of(rows@) =~= item_lines(places(gs, Seq::empty())));
    let names = group_names(items);
    let ghost ns = texts(names@);
    let ghost top = lines_of(rows@);
    let mut i: usize = 0;
    assert(ns.take(0) =~= Seq::<Seq<char>>::empty());
    assert(top + sections(gs, ns.take(0)) =~= top);
    while i < names.len()
        invariant
            i <= names@.len(),
            ns == texts(names@),
            gs == groups_of(items@),
            lines_of(rows@) == top + sections(gs, ns.take(i as int)),
        decreases names@.len() - i,
    {
        let ghost before = sections(gs, ns.take(i as int));
        assert(ns.take(i + 1).drop_last() =~= ns.take(i as int));
        add_row(&mut rows, RowItem::Group(names[i].clone()));
        add_members(&mut rows, items, names[i].as_str());
        i = i + 1;
        assert(ns.take(i as int).last() == names@[i - 1]@);
        assert(lines_of(rows@) =~= top + sections(gs, ns.take(i as int)));
    }
    assert(ns.take(i as int) =~= ns);
    rows
}

/// The named groups, each once, in order of first appearance.
pub fn group_names<T: Grouped>(items: &[T]) -> (r: Vec<String>)
    ensures
        texts(r@) == distinct(groups_of(items@)),
{
    let ghost gs = groups_of(items@);
    let mut names = text::no_texts();
    let mut i: usize = 0;
    assert(gs.take(0) =~= Seq::<Seq<char>>::empty());
    while i < items.len()
        invariant
            i <= items@.len(),
            gs == groups_of(items@),
            texts(names@) == distinct(gs.take(i as int)),
        decreases items@.len() - i,
    {
        assert(gs.take(i + 1).drop_last() =~= gs.take(i as int));
        assert(gs.take(i + 1).last() == gs[i as int]);
        let g = items[i].group_name();
        if !g.is_empty() && !text::holds(&names, g) {
            text::add_str(&mut names, g);
        }
        i = i + 1;
    }
    assert(gs.take(i as int) =~= gs);
    names
}

/// Indices of the entries in `group`.
pub fn members_of<T: Grouped>(items: &[T], group: &str) -> (r: Vec<usize>)
    ensures
        r@.map_values(|i: usize| i as int) == places(groups_of(items@), group@),
        r@.len() == places(groups_of(items@), group@).len(),
        forall|k: int| 0 <= k < r@.len() ==> r@[k] == places(groups_of(items@), group@)[k],
        forall|k: int| 0 <= k < r@.len() ==> #[trigger] r@[k] < items@.len(),
{
    let ghost gs = groups_of(items@);
    let mut out: Vec<usize> = Vec::new();
    let mut i: usize = 0;
    assert(gs.take(0) =~= Seq::<Seq<char>>::empty());
    while i < items.len()
        invariant
            i <= items@.len(),
            gs == groups_of(items@),
            out@.map_values(|i: usize| i as int) == places(gs.take(i as int), group@),
            forall|k: int| 0 <= k < out@.len() ==> #[trigger] out@[k] < items@.len(),
        decreases items@.len() - i,
    {
        assert(gs.take(i + 1).drop_last() =~= gs.take(i as int));
        assert(gs.take(i + 1).last() == gs[i as int]);
        if text::same(items[i].group_name(), group) {
            assert(out@.push(i).map_values(|i: usize| i as int) =~= out@.map_values(
                |i: usize| i as int,
            ).push(i as int));
            out.push(i);
        }
        i = i + 1;
    }
    assert(gs.take(i as int) =~= gs);
    assert forall|k: int| 0 <= k < out@.len() implies out@[k] == places(gs, group@)[k] by {
        assert(out@.map_values(|i: usize| i as int)[k] == out@[k] as int);
    }
    out
}

// ---------------------------------------------------------------------------
// What holds of a layout
// ---------------------------------------------------------------------------

pub proof fn lemma_places(gs: Seq<Seq<char>>, g: Seq<char>)
    ensures
        forall|i: int| #[trigger] places(gs, g).contains(i) <==> 0 <= i < gs.len() && gs[i] == g,
        places(gs, g).no_duplicates(),
    decreases gs.len(),
{
    let ps = places(gs, g);
    if gs.len() > 0 {
        let head = gs.drop_last();
        lemma_places(head, g);
        let before = places(head, g);
        assert forall|i: int| #[trigger] ps.contains(i) <==> 0 <= i < gs.len() && gs[i] == g by {
            if ps.contains(i) {
                let k = choose|k: int| 0 <= k < ps.len() && ps[k] == i;
                if k < before.len() {
                    assert(before[k] == i);
                    assert(before.contains(i));
                }
            }
            if 0 <= i < gs.len() && gs[i] == g {
                if i < head.len() {
                    assert(head[i] == g);
                    assert(before.contains(i));
                    let k = choose|k: int| 0 <= k < before.len() && before[k] == i;
                    assert(ps[k] == i);
                } else {
                    assert(ps[before.len() as int] == i);
                }
            }
        }
        assert forall|a: int, b: int| 0 <= a < ps.len() && 0 <= b < ps.len() && a != b implies ps[a]
            != ps[b] by {
            if a < before.len() {
                assert(before.contains(before[a]));
            }
            if b < before.len() {
                assert(before.contains(before[b]));
            }
        }
    }
}

pub proof fn lemma_distinct(gs: Seq<Seq<char>>)
    ensures
        distinct(gs).no_duplicates(),
        forall|g: Seq<char>| #[trigger]
            distinct(gs).contains(g) <==> g.len() > 0 && gs.contains(g),
    decreases gs.len(),
{
    let d = distinct(gs);
    if gs.len() > 0 {
        let head = gs.drop_last();
        lemma_distinct(head);
        let before = distinct(head);
        assert forall|g: Seq<char>| #[trigger] d.contains(g) <==> g.len() > 0 && gs.contains(g) by {
            if d.contains(g) {
                let k = choose|k: int| 0 <= k < d.len() && d[k] == g;
                if k < before.len() {
                    assert(before[k] == g);
                    assert(before.contains(g));
                    let i = choose|i: int| 0 <= i < head.len() && head[i] == g;
                    assert(gs[i] == g);
                } else {
                    assert(gs[gs.len() - 1] == g);
                }
            }
            if g.len() > 0 && gs.contains(g) {
                let i = choose|i: int| 0 <= i < gs.len() && gs[i] == g;
                if i < head.len() {
                    assert(head[i] == g);
                    assert(head.contains(g));
                }
                if before.contains(g) {
                    let k = choose|k: int| 0 <= k < before.len() && before[k] == g;
                    assert(d[k] == g);
                } else {
                    assert(d[before.len() as int] == g);
                }
            }
        }
    }
}

/// The entry at `i` stands in these lines exactly once, at `at`.
pub open spec fn once_at(lines: Seq<Line>, l: Line, at: int) -> bool {
    &&& 0 <= at < lines.len()
    &&& lines[at] == l
    &&& forall|k: int| 0 <= k < lines.len() && #[trigger] lines[k] == l ==> k == at
}

proof fn lemma_sections(gs: Seq<Seq<char>>, names: Seq<Seq<char>>, i: int) -> (at: int)
    requires
        names.no_duplicates(),
        0 <= i < gs.len(),
        names.contains(gs[i]),
    ensures
        once_at(sections(gs, names), Line::Item(i), at),
    decreases names.len(),
{
    let s = sections(gs, names);
    let head = names.drop_last();
    let before = sections(gs, head);
    let last = names.last();
    let ps = places(gs, last);
    lemma_places(gs, last);
    if gs[i] == last {
        assert(ps.contains(i));
        let k = choose|k: int| 0 <= k < ps.len() && ps[k] == i;
        let at = before.len() + 1 + k;
        assert(!head.contains(last)) by {
            if head.contains(last) {
                let j = choose|j: int| 0 <= j < head.len() && head[j] == last;
                assert(names[j] == names[names.len() - 1]);
            }
        }
        lemma_no_item(gs, head, i);
        assert(s[at] == Line::Item(i));
        assert forall|m: int| 0 <= m < s.len() && #[trigger] s[m] == Line::Item(i) implies m == at by {
            if m < before.len() {
                assert(before[m] == s[m]);
            } else if m > before.len() {
                assert(ps[m - before.len() - 1] == i);
            }
        }
        at
    } else {
        assert(head.contains(gs[i])) by {
            let j = choose|j: int| 0 <= j < names.len() && names[j] == gs[i];
            assert(head[j] == gs[i]);
        }
        let at = lemma_sections(gs, head, i);
        assert(s[at] == before[at]);
        assert forall|m: int| 0 <= m < s.len() && #[trigger] s[m] == Line::Item(i) implies m == at by {
            if m < before.len() {
                assert(before[m] == s[m]);
            } else if m > before.len() {
                let k = m - before.len() - 1;
                assert(ps[k] == i);
                assert(ps.contains(i));
            }
        }
        at
    }
}

proof fn lemma_no_item(gs: Seq<Seq<char>>, names: Seq<Seq<char>>, i: int)
    requires
        0 <= i < gs.len(),
        !names.contains(gs[i]),
    ensures
        forall|m: int|
            0 <= m < sections(gs, names).len() ==> #[trigger] sections(gs, names)[m] != Line::Item(
                i,
            ),
    decreases names.len(),
{
    if names.len() > 0 {
        let s = sections(gs, names);
        let head = names.drop_last();
        let before = sections(gs, head);
        let ps = places(gs, names.last());
        lemma_places(gs, names.last());
        assert(names.contains(names.last())) by {
            assert(names[names.len() - 1] == names.last());
        }
        assert(!head.contains(gs[i])) by {
            if head.contains(gs[i]) {
                let j = choose|j: int| 0 <= j < head.len() && head[j] == gs[i];
                assert(names[j] == gs[i]);
            }
        }
        lemma_no_item(gs, head, i);
        assert forall|m: int| 0 <= m < s.len() implies #[trigger] s[m] != Line::Item(i) by {
            if m < before.len() {
                assert(s[m] == before[m]);
            } else if m > before.len() {
                let k = m - before.len() - 1;
                assert(ps.contains(ps[k]));
            }
        }
    }
}

/// Every entry of a list has exactly one row.
pub proof fn law_every_entry_has_one_row(gs: Seq<Seq<char>>, i: int)
    requires
        0 <= i < gs.len(),
    ensures
        exists|at: int| once_at(layout(gs), Line::Item(i), at),
{
    let l = layout(gs);
    let loose = places(gs, Seq::empty());
    let names = distinct(gs);
    let rest = sections(gs, names);
    lemma_places(gs, Seq::empty());
    lemma_distinct(gs);
    assert(gs.contains(gs[i]));
    if gs[i].len() == 0 {
        assert(gs[i] =~= Seq::<char>::empty());
        assert(loose.contains(i));
        let at = choose|k: int| 0 <= k < loose.len() && loose[k] == i;
        assert(!names.contains(gs[i]));
        lemma_no_item(gs, names, i);
        assert forall|m: int| 0 <= m < l.len() && #[trigger] l[m] == Line::Item(i) implies m == at by {
            if m < loose.len() {
                assert(loose[m] == i);
            } else {
                assert(rest[m - loose.len()] == l[m]);
            }
        }
        assert(once_at(l, Line::Item(i), at));
    } else {
        assert(names.contains(gs[i]));
        let k = lemma_sections(gs, names, i);
        let at = loose.len() + k;
        assert(l[at] == rest[k]);
        assert forall|m: int| 0 <= m < l.len() && #[trigger] l[m] == Line::Item(i) implies m == at by {
            if m < loose.len() {
                assert(loose[m] == i);
                assert(loose.contains(i));
            } else {
                assert(rest[m - loose.len()] == l[m]);
            }
        }
        assert(once_at(l, Line::Item(i), at));
    }
}

/// A list in which nothing is grouped has one row for each entry, in order.
pub proof fn law_no_groups_one_row_each(gs: Seq<Seq<char>>)
    requires
        forall|i: int| 0 <= i < gs.len() ==> (#[trigger] gs[i]).len() == 0,
    ensures
        layout(gs) == Seq::new(gs.len(), |i: int| Line::Item(i)),
{
    lemma_all_places(gs);
    lemma_distinct(gs);
    if distinct(gs).len() > 0 {
        let g = distinct(gs)[0];
        assert(distinct(gs).contains(g));
        let i = choose|i: int| 0 <= i < gs.len() && gs[i] == g;
        assert(gs[i].len() == 0);
    }
    assert(layout(gs) =~= Seq::new(gs.len(), |i: int| Line::Item(i)));
}

proof fn lemma_all_places(gs: Seq<Seq<char>>)
    requires
        forall|i: int| 0 <= i < gs.len() ==> (#[trigger] gs[i]).len() == 0,
    ensures
        places(gs, Seq::empty()) == Seq::new(gs.len(), |i: int| i),
    decreases gs.len(),
{
    if gs.len() > 0 {
        let head = gs.drop_last();
        assert forall|i: int| 0 <= i < head.len() implies (#[trigger] head[i]).len() == 0 by {
            assert(head[i] == gs[i]);
        }
        lemma_all_places(head);
        assert(gs[gs.len() - 1].len() == 0);
        assert(gs.last() =~= Seq::<char>::empty());
    }
    assert(places(gs, Seq::empty()) =~= Seq::new(gs.len(), |i: int| i));
}

/// The entry of a group stands under the header of its group: between the two there
/// are only entries of that group.
pub proof fn law_entries_stand_under_their_header(gs: Seq<Seq<char>>, i: int)
    requires
        0 <= i < gs.len(),
        gs[i].len() > 0,
    ensures
        exists|h: int, at: int| #[trigger] stands_under(layout(gs), gs, gs[i], h, at, i),
{
    lemma_distinct(gs);
    assert(distinct(gs).contains(gs[i]));
    let names = distinct(gs);
    lemma_under_header(gs, names, i);
    let (h, at) = choose|h: int, at: int| #[trigger]
        stands_under(sections(gs, names), gs, gs[i], h, at, i);
    let front = item_lines(places(gs, Seq::empty()));
    let n = front.len() as int;
    let all = layout(gs);
    assert(all[n + h] == sections(gs, names)[h]);
    assert(all[n + at] == sections(gs, names)[at]);
    assert forall|k: int| n + h < k < n + at implies (#[trigger] all[k] matches Line::Item(m) && 0
        <= m < gs.len() && gs[m] == gs[i]) by {
        assert(all[k] == sections(gs, names)[k - n]);
    }
    assert(stands_under(all, gs, gs[i], n + h, n + at, i));
}

/// At `h` stands the header of the group, at `at` the entry `i`, and between them
/// only entries of the group.
pub open spec fn stands_under(
    lines: Seq<Line>,
    gs: Seq<Seq<char>>,
    g: Seq<char>,
    h: int,
    at: int,
    i: int,
) -> bool {
    &&& 0 <= h < at < lines.len()
    &&& lines[h] == Line::Group(g)
    &&& lines[at] == Line::Item(i)
    &&& forall|k: int|
        h < k < at ==> (#[trigger] lines[k] matches Line::Item(m) && 0 <= m < gs.len() && gs[m]
            == g)
}

proof fn lemma_under_header(gs: Seq<Seq<char>>, names: Seq<Seq<char>>, i: int)
    requires
        0 <= i < gs.len(),
        names.contains(gs[i]),
    ensures
        exists|h: int, at: int| #[trigger]
            stands_under(sections(gs, names), gs, gs[i], h, at, i),
    decreases names.len(),
{
    let head = names.drop_last();
    let before = sections(gs, head);
    let all = sections(gs, names);
    let g = gs[i];
    if names.last() == g {
        lemma_places(gs, g);
        let ps = places(gs, g);
        assert(ps.contains(i));
        let k = choose|k: int| 0 <= k < ps.len() && ps[k] == i;
        let h = before.len() as int;
        let at = h + 1 + k;
        assert(all[h] == Line::Group(g));
        assert(all[at] == item_lines(ps)[k]);
        assert forall|x: int| h < x < at implies (#[trigger] all[x] matches Line::Item(m) && 0 <= m
            < gs.len() && gs[m] == g) by {
            assert(all[x] == item_lines(ps)[x - h - 1]);
            assert(ps.contains(ps[x - h - 1]));
        }
        assert(stands_under(all, gs, g, h, at, i));
    } else {
        let x = choose|x: int| 0 <= x < names.len() && names[x] == g;
        assert(head[x] == g);
        lemma_under_header(gs, head, i);
        let (h, at) = choose|h: int, at: int| #[trigger] stands_under(before, gs, g, h, at, i);
        assert(all[h] == before[h] && all[at] == before[at]);
        assert forall|k: int| h < k < at implies (#[trigger] all[k] matches Line::Item(m) && 0 <= m
            < gs.len() && gs[m] == g) by {
            assert(all[k] == before[k]);
        }
        assert(stands_under(all, gs, g, h, at, i));
    }
}

}
