//! A picker for a list, in the shape of the file browser: a group is a folder,
//! an entry is a file, and the same keys walk both.
//!
//! [`Picker`] cycles through its options with `◂ ▸`, which is right for the
//! four forward types and hopeless once there are forty tunnels. This is the
//! other way to set the same field, over the same options, so nothing about
//! what is stored depends on which one was used.
//!
//! The top level is laid out the way every list in the program is: the
//! ungrouped entries, then each group in order of first appearance. Typing at
//! the top level searches every folder at once, because the group an entry is
//! filed under is usually the part that was forgotten.

use vstd::prelude::*;
use crate::list::{first_where, lemma_first_where, lemma_first_where_is};
use crate::picker::Picker;
use crate::rows::distinct;
use crate::split::{self, occurs};
use crate::text::{self, cat3, lowercase, texts};
use crate::vpn_view::{clamp, clamped};

verus! {

/// One thing that can be picked.
#[derive(Debug, PartialEq, Eq)]
pub struct Choice {
    /// What the field is set to when this is picked.
    pub value: String,
    /// How it is listed inside its folder.
    pub name: String,
    /// The folder it is filed under. Empty = listed at the top level.
    pub folder: String,
}

impl Choice {
    /// An ungrouped choice, listed at the top level under its own name.
    pub fn plain(value: &str, name: &str) -> (r: Self)
        ensures
            r.value@ == value@ && r.name@ == name@ && r.folder@ == Seq::<char>::empty(),
    {
        Choice { value: value.to_owned(), name: name.to_owned(), folder: String::new() }
    }

    pub fn in_folder(value: &str, name: &str, folder: &str) -> (r: Self)
        ensures
            r.value@ == value@ && r.name@ == name@ && r.folder@ == folder@,
    {
        Choice { value: value.to_owned(), name: name.to_owned(), folder: folder.to_owned() }
    }
}

/// A line in the listing.
#[derive(Debug, PartialEq, Eq)]
pub enum Row {
    Folder(String),
    Choice {
        value: String,
        /// The name, with the folder in front of it when the row is being
        /// shown outside the folder it belongs to.
        label: String,
    },
}

/// A line, with its words as text.
pub enum Shown {
    Folder(Seq<char>),
    /// The value, and how it is labelled.
    Choice(Seq<char>, Seq<char>),
}

impl View for Row {
    type V = Shown;

    open spec fn view(&self) -> Shown {
        match self {
            Row::Folder(f) => Shown::Folder(f@),
            Row::Choice { value, label } => Shown::Choice(value@, label@),
        }
    }
}

pub open spec fn shown_rows(v: Seq<Row>) -> Seq<Shown> {
    v.map_values(|r: Row| r@)
}

/// What a filter lets through, whatever the case; nothing typed lets through
/// everything.
pub open spec fn lets_through(filter: Seq<char>, s: Seq<char>) -> bool {
    filter.len() == 0 || occurs(lowercase(s), lowercase(filter))
}

fn passes(filter: &str, s: &str) -> (r: bool)
    ensures
        r == lets_through(filter@, s@),
{
    filter.is_empty() || split::contains(
        text::to_lowercase(s).as_str(),
        text::to_lowercase(filter).as_str(),
    )
}

pub open spec fn folders_of(cs: Seq<Choice>) -> Seq<Seq<char>> {
    distinct(cs.map_values(|c: Choice| c.folder@))
}

/// A choice as it is listed outside its folder.
pub open spec fn full_label(c: Choice) -> Seq<char> {
    if c.folder@.len() == 0 {
        c.name@
    } else {
        c.folder@ + " / "@ + c.name@
    }
}

/// The choices listed at the top level: the ungrouped ones, or with something
/// typed everything that it lets through.
pub open spec fn top_choices(cs: Seq<Choice>, filter: Seq<char>) -> Seq<Shown>
    decreases cs.len(),
{
    if cs.len() == 0 {
        Seq::empty()
    } else {
        let before = top_choices(cs.drop_last(), filter);
        let c = cs.last();
        let listed = if filter.len() == 0 {
            c.folder@.len() == 0
        } else {
            lets_through(filter, c.name@)
        };
        if listed {
            before.push(Shown::Choice(c.value@, full_label(c)))
        } else {
            before
        }
    }
}

/// The folders that a filter lets through.
pub open spec fn top_folders(fs: Seq<Seq<char>>, filter: Seq<char>) -> Seq<Shown>
    decreases fs.len(),
{
    if fs.len() == 0 {
        Seq::empty()
    } else {
        let before = top_folders(fs.drop_last(), filter);
        if lets_through(filter, fs.last()) {
            before.push(Shown::Folder(fs.last()))
        } else {
            before
        }
    }
}

/// The members of a folder that a filter lets through, by their short names.
pub open spec fn inside(cs: Seq<Choice>, folder: Seq<char>, filter: Seq<char>) -> Seq<Shown>
    decreases cs.len(),
{
    if cs.len() == 0 {
        Seq::empty()
    } else {
        let before = inside(cs.drop_last(), folder, filter);
        let c = cs.last();
        if c.folder@ == folder && lets_through(filter, c.name@) {
            before.push(Shown::Choice(c.value@, c.name@))
        } else {
            before
        }
    }
}

/// What is listed: of a folder its members, at the top level the choices and
/// then the folders.
pub open spec fn listed(cs: Seq<Choice>, folder: Seq<char>, filter: Seq<char>) -> Seq<Shown> {
    if folder.len() == 0 {
        top_choices(cs, filter) + top_folders(folders_of(cs), filter)
    } else {
        inside(cs, folder, filter)
    }
}

pub open spec fn is_value(v: Seq<char>) -> spec_fn(Shown) -> bool {
    |s: Shown| s matches Shown::Choice(w, _) && w == v
}

pub open spec fn is_folder(f: Seq<char>) -> spec_fn(Shown) -> bool {
    |s: Shown| s == Shown::Folder(f)
}

pub open spec fn has_value(v: Seq<char>) -> spec_fn(Choice) -> bool {
    |c: Choice| c.value@ == v
}

/// The folder the chooser opens in: the one the current value is filed under.
pub open spec fn home_folder(cs: Seq<Choice>, current: Seq<char>) -> Seq<char> {
    let i = first_where(cs, has_value(current));
    if i < cs.len() {
        cs[i].folder@
    } else {
        Seq::empty()
    }
}

/// Where the cursor goes for a value or folder: on it, or where it was.
pub open spec fn cursor_on(rows: Seq<Shown>, p: spec_fn(Shown) -> bool, at: int) -> int {
    let i = first_where(rows, p);
    if i < rows.len() {
        i
    } else {
        at
    }
}

#[derive(Debug)]
pub struct Chooser {
    /// What the popup is picking: "requires tunnel", "ssh host".
    pub title: String,
    pub choices: Vec<Choice>,
    /// The folder being listed. Empty = the top level.
    pub folder: String,
    /// What has been typed, which filters the listing.
    pub filter: String,
    pub rows: Vec<Row>,
    pub selected: usize,
}

fn add_row(rows: &mut Vec<Row>, r: Row)
    ensures
        shown_rows(final(rows)@) == shown_rows(old(rows)@).push(r@),
{
    assert(shown_rows(rows@.push(r)) =~= shown_rows(rows@).push(r@));
    rows.push(r);
}

fn folder_of_value(choices: &Vec<Choice>, current: &str) -> (r: String)
    ensures
        r@ == home_folder(choices@, current@),
{
    let ghost p = has_value(current@);
    let mut i: usize = 0;
    while i < choices.len()
        invariant
            i <= choices@.len(),
            p == has_value(current@),
            forall|j: int| 0 <= j < i ==> !p(#[trigger] choices@[j]),
        decreases choices@.len() - i,
    {
        if text::same(choices[i].value.as_str(), current) {
            proof {
                lemma_first_where_is(choices@, p, i as int);
            }
            return choices[i].folder.clone();
        }
        i = i + 1;
    }
    proof {
        lemma_first_where_is(choices@, p, i as int);
    }
    String::new()
}

impl Chooser {
    /// Everything that can be picked.
    pub open spec fn all(&self) -> Seq<Choice> {
        self.choices@
    }

    /// The rows are those of the folder and the filter, and the cursor is on one
    /// of them where there is any.
    pub open spec fn wf(&self) -> bool {
        &&& shown_rows(self.rows@) == listed(self.all(), self.folder@, self.filter@)
        &&& self.selected < self.rows@.len() || self.selected == 0
    }

    /// Open over `choices`, with `current`, the field's value, selected.
    /// Opening inside the current value's folder means the neighbours it was
    /// picked among are the first thing on screen.
    pub fn open(title: &str, choices: Vec<Choice>, current: &str) -> (r: Self)
        ensures
            r.wf(),
            r.title@ == title@,
            r.all() == choices@,
            r.folder@ == home_folder(choices@, current@),
            r.filter@ == Seq::<char>::empty(),
            r.selected == cursor_on(shown_rows(r.rows@), is_value(current@), 0),
    {
        let folder = folder_of_value(&choices, current);
        let mut c = Chooser {
            title: title.to_owned(),
            choices,
            folder,
            filter: String::new(),
            rows: Vec::new(),
            selected: 0,
        };
        c.refresh();
        c.select_value(current);
        c
    }

    /// How many choices there are in all, for the count the popup shows.
    pub fn total(&self) -> (r: usize)
        ensures
            r == self.all().len(),
    {
        self.choices.len()
    }

    fn folders(&self) -> (r: Vec<String>)
        ensures
            texts(r@) == folders_of(self.all()),
    {
        let ghost gs = self.choices@.map_values(|c: Choice| c.folder@);
        let mut out = text::no_texts();
        let mut i: usize = 0;
        assert(gs.take(0) =~= Seq::<Seq<char>>::empty());
        while i < self.choices.len()
            invariant
                i <= self.choices@.len(),
                gs == self.choices@.map_values(|c: Choice| c.folder@),
                texts(out@) == distinct(gs.take(i as int)),
            decreases self.choices@.len() - i,
        {
            assert(gs.take(i + 1).drop_last() =~= gs.take(i as int));
            assert(gs.take(i + 1).last() == gs[i as int]);
            let f = self.choices[i].folder.as_str();
            if !f.is_empty() && !text::holds(&out, f) {
                text::add_str(&mut out, f);
            }
            i = i + 1;
        }
        assert(gs.take(i as int) =~= gs);
        out
    }

    /// List again what the folder and the filter show.
    fn refresh(&mut self)
        ensures
            final(self).wf(),
            final(self).all() == old(self).all(),
            final(self).title == old(self).title,
            final(self).folder == old(self).folder,
            final(self).filter == old(self).filter,
            final(self).selected == clamped(old(self).selected as int, final(self).rows@.len() as int),
    {
        let ghost cs = self.choices@;
        let ghost typed = self.filter@;
        let mut rows: Vec<Row> = Vec::new();
        assert(shown_rows(rows@) =~= Seq::<Shown>::empty());
        assert(cs.take(0) =~= Seq::<Choice>::empty());
        let mut i: usize = 0;
        if self.folder.as_str().is_empty() {
            while i < self.choices.len()
                invariant
                    i <= cs.len(),
                    cs == self.choices@,
                    typed == self.filter@,
                    shown_rows(rows@) == top_choices(cs.take(i as int), typed),
                decreases cs.len() - i,
            {
                let c = &self.choices[i];
                assert(cs.take(i + 1).drop_last() =~= cs.take(i as int));
                // With nothing typed this is a tree and a grouped entry is
                // inside its folder; typing turns it into a search of the lot.
                let listed = if self.filter.as_str().is_empty() {
                    c.folder.as_str().is_empty()
                } else {
                    passes(self.filter.as_str(), c.name.as_str())
                };
                if listed {
                    let label = if c.folder.as_str().is_empty() {
                        c.name.clone()
                    } else {
                        cat3(c.folder.as_str(), " / ", c.name.as_str())
                    };
                    add_row(&mut rows, Row::Choice { value: c.value.clone(), label });
                }
                i = i + 1;
            }
            assert(cs.take(i as int) =~= cs);
            let folders = self.folders();
            let ghost fs = texts(folders@);
            let ghost top = shown_rows(rows@);
            let mut k: usize = 0;
            assert(fs.take(0) =~= Seq::<Seq<char>>::empty());
            assert(top + top_folders(fs.take(0), typed) =~= top);
            while k < folders.len()
                invariant
                    k <= folders@.len(),
                    fs == texts(folders@),
                    typed == self.filter@,
                    shown_rows(rows@) == top + top_folders(fs.take(k as int), typed),
                decreases folders@.len() - k,
            {
                assert(fs.take(k + 1).drop_last() =~= fs.take(k as int));
                assert(fs.take(k + 1).last() == folders@[k as int]@);
                if passes(self.filter.as_str(), folders[k].as_str()) {
                    add_row(&mut rows, Row::Folder(folders[k].clone()));
                    assert(shown_rows(rows@) =~= top + top_folders(fs.take(k + 1), typed));
                }
                k = k + 1;
            }
            assert(fs.take(k as int) =~= fs);
        } else {
            while i < self.choices.len()
                invariant
                    i <= cs.len(),
                    cs == self.choices@,
                    typed == self.filter@,
                    shown_rows(rows@) == inside(cs.take(i as int), self.folder@, typed),
                decreases cs.len() - i,
            {
                let c = &self.choices[i];
                assert(cs.take(i + 1).drop_last() =~= cs.take(i as int));
                if text::same(c.folder.as_str(), self.folder.as_str()) && passes(
                    self.filter.as_str(),
                    c.name.as_str(),
                ) {
                    add_row(
                        &mut rows,
                        Row::Choice { value: c.value.clone(), label: c.name.clone() },
                    );
                }
                i = i + 1;
            }
            assert(cs.take(i as int) =~= cs);
        }
        self.selected = clamp(self.selected, rows.len());
        self.rows = rows;
    }

    fn select_value(&mut self, value: &str)
        requires
            old(self).wf(),
        ensures
            final(self).wf(),
            final(self).all() == old(self).all(),
            *final(self) == (Chooser { selected: final(self).selected, ..*old(self) }),
            final(self).selected == cursor_on(
                shown_rows(old(self).rows@),
                is_value(value@),
                old(self).selected as int,
            ),
    {
        let ghost rows = shown_rows(self.rows@);
        let ghost p = is_value(value@);
        let mut i: usize = 0;
        while i < self.rows.len()
            invariant
                i <= self.rows@.len(),
                *self == *old(self),
                old(self).wf(),
                rows == shown_rows(self.rows@),
                p == is_value(value@),
                forall|j: int| 0 <= j < i ==> !p(#[trigger] rows[j]),
            decreases self.rows@.len() - i,
        {
            assert(rows[i as int] == self.rows@[i as int]@);
            let here = match &self.rows[i] {
                Row::Choice { value: v, .. } => text::same(v.as_str(), value),
                Row::Folder(_) => false,
            };
            if here {
                proof {
                    lemma_first_where_is(rows, p, i as int);
                }
                self.selected = i;
                return;
            }
            i = i + 1;
        }
        proof {
            lemma_first_where_is(rows, p, i as int);
        }
    }

    fn select_folder(&mut self, folder: &str)
        requires
            old(self).wf(),
        ensures
            final(self).wf(),
            final(self).all() == old(self).all(),
            *final(self) == (Chooser { selected: final(self).selected, ..*old(self) }),
            final(self).selected == cursor_on(
                shown_rows(old(self).rows@),
                is_folder(folder@),
                old(self).selected as int,
            ),
    {
        let ghost rows = shown_rows(self.rows@);
        let ghost p = is_folder(folder@);
        let mut i: usize = 0;
        while i < self.rows.len()
            invariant
                i <= self.rows@.len(),
                *self == *old(self),
                old(self).wf(),
                rows == shown_rows(self.rows@),
                p == is_folder(folder@),
                forall|j: int| 0 <= j < i ==> !p(#[trigger] rows[j]),
            decreases self.rows@.len() - i,
        {
            assert(rows[i as int] == self.rows@[i as int]@);
            let here = match &self.rows[i] {
                Row::Folder(f) => text::same(f.as_str(), folder),
                Row::Choice { .. } => false,
            };
            if here {
                proof {
                    lemma_first_where_is(rows, p, i as int);
                }
                self.selected = i;
                return;
            }
            i = i + 1;
        }
        proof {
            lemma_first_where_is(rows, p, i as int);
        }
    }

    pub fn push(&mut self, c: char)
        ensures
            final(self).wf(),
            final(self).all() == old(self).all(),
            final(self).title == old(self).title,
            final(self).folder == old(self).folder,
            final(self).filter@ == old(self).filter@.push(c),
            final(self).selected == 0,
    {
        self.filter.push(c);
        self.selected = 0;
        self.refresh();
    }

    /// Backspace edits the filter, and once there is none left it is the way
    /// back out of a folder: the same key doing the same thing it does in a
    /// path, where deleting the last segment is also how you go up.
    pub fn backspace(&mut self)
        requires
            old(self).wf(),
        ensures
            final(self).wf(),
            final(self).all() == old(self).all(),
            final(self).title == old(self).title,
            old(self).filter@.len() > 0 ==> {
                &&& final(self).folder == old(self).folder
                &&& final(self).filter@ == old(self).filter@.drop_last()
                &&& final(self).selected == 0
            },
            old(self).filter@.len() == 0 ==> Self::ascended(*old(self), *final(self)),
    {
        if self.filter.as_str().is_empty() {
            self.ascend();
            return;
        }
        let _ = self.filter.pop();
        self.selected = 0;
        self.refresh();
    }

    pub fn down(&mut self)
        requires
            old(self).wf(),
        ensures
            final(self).wf(),
            final(self).all() == old(self).all(),
            *final(self) == (Chooser { selected: final(self).selected, ..*old(self) }),
            final(self).selected == if old(self).rows@.len() == 0 {
                0
            } else {
                Picker::next_idx(old(self).selected as int, old(self).rows@.len() as int)
            },
    {
        let n: usize = self.rows.len();
        if n > 0 {
            self.selected = if self.selected < n - 1 {
                self.selected + 1
            } else {
                0
            };
        }
    }

    pub fn up(&mut self)
        requires
            old(self).wf(),
        ensures
            final(self).wf(),
            final(self).all() == old(self).all(),
            *final(self) == (Chooser { selected: final(self).selected, ..*old(self) }),
            final(self).selected == if old(self).rows@.len() == 0 {
                0
            } else {
                Picker::prev_idx(old(self).selected as int, old(self).rows@.len() as int)
            },
    {
        let n: usize = self.rows.len();
        if n > 0 {
            self.selected = if self.selected > 0 {
                self.selected - 1
            } else {
                n - 1
            };
        }
    }

    pub fn selected_row(&self) -> (r: Option<&Row>)
        ensures
            r is Some <==> self.selected < self.rows@.len(),
            r is Some ==> *r->0 == self.rows@[self.selected as int],
    {
        if self.selected < self.rows.len() {
            Some(&self.rows[self.selected])
        } else {
            None
        }
    }

    /// The folder under the cursor, where one is.
    pub open spec fn under_cursor(&self) -> Option<Shown> {
        if self.selected < self.rows@.len() {
            Some(self.rows@[self.selected as int]@)
        } else {
            None
        }
    }

    /// Walk into the selected folder. Choices are left to [`Self::accept`].
    pub fn descend(&mut self)
        requires
            old(self).wf(),
        ensures
            final(self).wf(),
            final(self).all() == old(self).all(),
            match old(self).under_cursor() {
                Some(Shown::Folder(name)) => {
                    &&& final(self).title == old(self).title
                    &&& final(self).folder@ == name
                    &&& final(self).filter@ == Seq::<char>::empty()
                    &&& final(self).selected == 0
                },
                _ => *final(self) == *old(self),
            },
    {
        let name = match self.selected_row() {
            Some(Row::Folder(name)) => name.clone(),
            _ => {
                return;
            },
        };
        self.folder = name;
        self.filter = String::new();
        self.selected = 0;
        self.refresh();
    }

    /// Back at the top level, with nothing typed and the folder that was left
    /// under the cursor; nothing changes at the top level itself.
    pub open spec fn ascended(was: Chooser, now: Chooser) -> bool {
        if was.folder@.len() == 0 {
            now == was
        } else {
            &&& now.title == was.title
            &&& now.folder@ == Seq::<char>::empty()
            &&& now.filter@ == Seq::<char>::empty()
            &&& now.selected == cursor_on(shown_rows(now.rows@), is_folder(was.folder@), 0)
        }
    }

    /// Back to the top level, with the folder we came out of selected.
    pub fn ascend(&mut self)
        requires
            old(self).wf(),
        ensures
            final(self).wf(),
            final(self).all() == old(self).all(),
            Self::ascended(*old(self), *final(self)),
    {
        if self.folder.as_str().is_empty() {
            return;
        }
        let leaf = self.folder.clone();
        self.folder = String::new();
        self.filter = String::new();
        self.selected = 0;
        self.refresh();
        self.select_folder(leaf.as_str());
    }

    /// Enter: walk into a folder, or hand back the picked value. `None` means
    /// the popup stays open.
    pub fn accept(&mut self) -> (r: Option<String>)
        requires
            old(self).wf(),
        ensures
            final(self).wf(),
            final(self).all() == old(self).all(),
            match old(self).under_cursor() {
                Some(Shown::Folder(name)) => {
                    &&& r is None
                    &&& final(self).title == old(self).title
                    &&& final(self).folder@ == name
                    &&& final(self).filter@ == Seq::<char>::empty()
                    &&& final(self).selected == 0
                },
                Some(Shown::Choice(value, _)) => r is Some && r->0@ == value && *final(self)
                    == *old(self),
                None => r is None && *final(self) == *old(self),
            },
    {
        let value = match self.selected_row() {
            Some(Row::Choice { value, .. }) => value.clone(),
            Some(Row::Folder(_)) => {
                self.descend();
                return None;
            },
            None => {
                return None;
            },
        };
        Some(value)
    }
}

proof fn lemma_inside_value(cs: Seq<Choice>, i: int, folder: Seq<char>, filter: Seq<char>)
    requires
        0 <= i < cs.len(),
        cs[i].folder@ == folder,
        filter.len() == 0,
    ensures
        exists|k: int|
            0 <= k < inside(cs, folder, filter).len() && is_value(cs[i].value@)(
                #[trigger] inside(cs, folder, filter)[k],
            ),
    decreases cs.len(),
{
    let rows = inside(cs, folder, filter);
    let before = inside(cs.drop_last(), folder, filter);
    if i == cs.len() - 1 {
        assert(is_value(cs[i].value@)(rows[before.len() as int]));
    } else {
        let head = cs.drop_last();
        assert(head[i] == cs[i]);
        lemma_inside_value(head, i, folder, filter);
        let k = choose|k: int|
            0 <= k < before.len() && is_value(cs[i].value@)(#[trigger] before[k]);
        assert(rows[k] == before[k]);
    }
}

proof fn lemma_top_value(cs: Seq<Choice>, i: int, filter: Seq<char>)
    requires
        0 <= i < cs.len(),
        cs[i].folder@.len() == 0,
        filter.len() == 0,
    ensures
        exists|k: int|
            0 <= k < top_choices(cs, filter).len() && is_value(cs[i].value@)(
                #[trigger] top_choices(cs, filter)[k],
            ),
    decreases cs.len(),
{
    let rows = top_choices(cs, filter);
    let before = top_choices(cs.drop_last(), filter);
    if i == cs.len() - 1 {
        assert(is_value(cs[i].value@)(rows[before.len() as int]));
    } else {
        let head = cs.drop_last();
        assert(head[i] == cs[i]);
        lemma_top_value(head, i, filter);
        let k = choose|k: int|
            0 <= k < before.len() && is_value(cs[i].value@)(#[trigger] before[k]);
        assert(rows[k] == before[k]);
    }
}

/// Opened on a value that can be picked, with nothing typed yet, that value is
/// under the cursor: Enter right after opening picks what the field already
/// holds.
pub proof fn law_opens_on_the_current_value(
    cs: Seq<Choice>,
    current: Seq<char>,
    filter: Seq<char>,
    rows: Seq<Shown>,
)
    requires
        exists|i: int| 0 <= i < cs.len() && (#[trigger] cs[i]).value@ == current,
        filter.len() == 0,
        rows == listed(cs, home_folder(cs, current), filter),
    ensures
        ({
            let at = cursor_on(rows, is_value(current), 0);
            0 <= at < rows.len() && is_value(current)(rows[at])
        }),
{
    lemma_first_where(cs, has_value(current));
    let i = first_where(cs, has_value(current));
    let w = choose|w: int| 0 <= w < cs.len() && (#[trigger] cs[w]).value@ == current;
    assert(has_value(current)(cs[w]));
    assert(i < cs.len());
    let folder = cs[i].folder@;
    if folder.len() == 0 {
        lemma_top_value(cs, i, filter);
        let top = top_choices(cs, filter);
        let k = choose|k: int| 0 <= k < top.len() && is_value(current)(#[trigger] top[k]);
        assert(rows[k] == top[k]);
        lemma_first_where(rows, is_value(current));
        assert(is_value(current)(rows[k]));
    } else {
        lemma_inside_value(cs, i, folder, filter);
        let k = choose|k: int| 0 <= k < rows.len() && is_value(current)(#[trigger] rows[k]);
        lemma_first_where(rows, is_value(current));
        assert(is_value(current)(rows[k]));
    }
}

}
