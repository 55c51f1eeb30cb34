//! A small file picker for the path fields of the forms: a path you type at the
//! top, and the directory it points at listed below. The typed path is always
//! the source of truth: the listing follows it, and picking from the listing
//! only writes back into it.
//!
//! Reading the directory is the caller's: after every step that moves the
//! browser, [`FileBrowser::dir`] says which directory to read, and
//! [`FileBrowser::refresh`] takes what was found there.

use vstd::prelude::*;
use crate::list::{first_where, lemma_first_where_is};
use crate::path::{
    self, above, bare, is_name, is_sep, joined_path, last_sep, name_of, opt_text, rest_of, sep_text,
    slashed, under_home, Os,
};
use crate::picker::Picker;
use crate::sort::{self, lemma_text_le, sorted, text_le, Ranked};
use crate::split::{self, starts};
use crate::text::{self, cat, cat3, chars_of, lowercase, text_between, trimmed};
use crate::vpn_view::{clamped, clamp, kept};

verus! {

#[derive(Debug, PartialEq, Eq)]
pub struct Entry {
    pub name: String,
    pub is_dir: bool,
}

impl Clone for Entry {
    fn clone(&self) -> (r: Self)
        ensures
            r == *self,
    {
        Entry { name: self.name.clone(), is_dir: self.is_dir }
    }
}

/// Directories first, then by name whatever its case: the order a file manager
/// lists them in.
impl Ranked for Entry {
    open spec fn not_after(&self, other: &Self) -> bool {
        if self.is_dir != other.is_dir {
            self.is_dir
        } else {
            text_le(lowercase(self.name@), lowercase(other.name@))
        }
    }

    fn may_precede(&self, other: &Self) -> (r: bool) {
        if self.is_dir != other.is_dir {
            self.is_dir
        } else {
            sort::text_not_after(
                text::to_lowercase(self.name.as_str()).as_str(),
                text::to_lowercase(other.name.as_str()).as_str(),
            )
        }
    }

    proof fn order_holds(a: &Self, b: &Self, c: &Self) {
        lemma_text_le(lowercase(a.name@), lowercase(b.name@), lowercase(c.name@));
    }
}

/// Put entries in the order they are listed in.
pub fn sort_entries(entries: Vec<Entry>) -> (r: Vec<Entry>)
    ensures
        r@ == sorted(entries@),
{
    sort::sort(entries)
}

/// Whether a name starts with what was typed, whatever the case.
pub open spec fn starts_ci(name: Seq<char>, prefix: Seq<char>) -> bool {
    prefix.len() == 0 || starts(lowercase(name), lowercase(prefix))
}

pub fn starts_with_ci(name: &str, prefix: &str) -> (r: bool)
    ensures
        r == starts_ci(name@, prefix@),
{
    prefix.is_empty() || split::starts_with(
        text::to_lowercase(name).as_str(),
        text::to_lowercase(prefix).as_str(),
    )
}

/// A typed path as the directory to list and the segment being typed. A bare
/// name is relative to the working directory; the root keeps its separator, and
/// so does a drive, since `C:` alone would be the working directory of it.
pub open spec fn split_typed(os: Os, input: Seq<char>) -> (Seq<char>, Seq<char>) {
    let cut = last_sep(os, input);
    if cut == -1 {
        ("."@, input)
    } else {
        let dir = input.take(cut);
        (
            if dir.len() == 0 || dir.last() == ':' {
                input.take(cut + 1)
            } else {
                dir
            },
            input.skip(cut + 1),
        )
    }
}

/// Split a typed path into the directory to list and the segment being typed.
pub fn split_input(os: Os, input: &str) -> (r: (String, String))
    ensures
        (r.0@, r.1@) == split_typed(os, input@),
{
    let v = chars_of(input);
    let n: usize = v.len();
    let mut i: usize = n;
    assert(v@.take(n as int) =~= v@);
    while i > 0 && !path::char_is_sep(os, v[i - 1])
        invariant
            i <= n == v@.len(),
            last_sep(os, v@.take(i as int)) == last_sep(os, v@),
        decreases i,
    {
        assert(v@.take(i as int).drop_last() =~= v@.take(i - 1));
        i = i - 1;
    }
    if i == 0 {
        assert(v@.take(0) =~= Seq::<char>::empty());
        return (".".to_owned(), input.to_owned());
    }
    assert(v@.take(i as int).last() == v@[i - 1]);
    assert(last_sep(os, v@) == i - 1);
    assert(v@.take(i - 1) =~= v@.subrange(0, i - 1));
    assert(v@.take(i as int) =~= v@.subrange(0, i as int));
    assert(v@.skip(i as int) =~= v@.subrange(i as int, n as int));
    let dir = if i == 1 || v[i - 2] == ':' {
        text_between(&v, 0, i)
    } else {
        text_between(&v, 0, i - 1)
    };
    (dir, text_between(&v, i, n))
}

/// A typed path with the home directory written out, where there is one.
pub open spec fn expanded(os: Os, path: Seq<char>, home: Option<Seq<char>>) -> Seq<char> {
    if path == "~"@ && home is Some {
        home->0
    } else {
        under_home(os, path, home)
    }
}

pub fn expand_tilde(os: Os, path: &str, home: Option<&str>) -> (r: String)
    ensures
        r@ == expanded(os, path@, opt_text(home)),
{
    match home {
        Some(h) => if text::same(path, "~") {
            h.to_owned()
        } else {
            path::expand_home(os, path, home)
        },
        None => path.to_owned(),
    }
}

#[derive(Debug)]
pub struct FileBrowser {
    /// The typed path, exactly as shown in the text field.
    pub input: String,
    /// The directory the listing is of, tilde already expanded.
    pub dir: String,
    /// Entries of `dir` whose name starts with the typed last segment,
    /// directories first.
    pub entries: Vec<Entry>,
    pub selected: usize,
    /// Why the listing is empty, when it is not simply "nothing matched".
    pub error: Option<String>,
    /// The home directory, where there is one.
    pub home: Option<String>,
    pub os: Os,
    /// The directory that was walked out of, to be selected once the listing
    /// is there.
    pub came_from: Option<String>,
}

pub open spec fn entry_named(name: Seq<char>) -> spec_fn(Entry) -> bool {
    |e: Entry| e.name@ == name
}

pub open spec fn entry_starts(prefix: Seq<char>) -> spec_fn(Entry) -> bool {
    |e: Entry| starts_ci(e.name@, prefix)
}

/// The place of the entry of that name; the length where there is none.
fn find_entry(entries: &Vec<Entry>, name: &str) -> (r: Option<usize>)
    ensures
        r is None <==> first_where(entries@, entry_named(name@)) == entries@.len(),
        r is Some ==> r->0 == first_where(entries@, entry_named(name@)) && r->0 < entries@.len(),
{
    let ghost p = entry_named(name@);
    let mut i: usize = 0;
    while i < entries.len()
        invariant
            i <= entries@.len(),
            p == entry_named(name@),
            forall|j: int| 0 <= j < i ==> !p(#[trigger] entries@[j]),
        decreases entries@.len() - i,
    {
        if text::same(entries[i].name.as_str(), name) {
            proof {
                lemma_first_where_is(entries@, p, i as int);
            }
            return Some(i);
        }
        i = i + 1;
    }
    proof {
        lemma_first_where_is(entries@, p, i as int);
    }
    None
}

pub open spec fn opt_string(s: Option<String>) -> Option<Seq<char>> {
    match s {
        Some(t) => Some(t@),
        None => None,
    }
}

impl FileBrowser {
    /// The directory follows what is typed.
    pub open spec fn aimed(&self) -> bool {
        self.dir@ == expanded(
            self.os,
            split_typed(self.os, self.input@).0,
            opt_string(self.home),
        )
    }

    /// The directory is the one that is typed, and the cursor is on a row where
    /// there is one.
    pub open spec fn wf(&self) -> bool {
        &&& self.aimed()
        &&& self.selected < self.entries@.len() || self.selected == 0
    }

    /// What the browser starts with: the field's value, or the home directory.
    pub open spec fn start(os: Os, initial: Seq<char>, home: Option<Seq<char>>) -> Seq<char> {
        if trimmed(initial).len() > 0 {
            initial
        } else if home is Some {
            slashed(os, home->0)
        } else {
            "."@ + sep_text(os)
        }
    }

    /// Open on `initial`: the field's current value, or the home directory
    /// when the field is still empty.
    pub fn open(os: Os, initial: &str, home: Option<String>) -> (r: Self)
        ensures
            r.wf(),
            r.input@ == Self::start(os, initial@, opt_string(home)),
            r.entries@.len() == 0 && r.selected == 0,
            r.error is None && r.came_from is None,
            r.home == home && r.os == os,
    {
        let input = if text::trim(initial).as_str().is_empty() {
            match &home {
                Some(h) => path::with_trailing_slash(os, h.as_str()),
                None => cat(".", path::sep(os)),
            }
        } else {
            initial.to_owned()
        };
        let mut b = FileBrowser {
            input,
            dir: String::new(),
            entries: Vec::new(),
            selected: 0,
            error: None,
            home,
            os,
            came_from: None,
        };
        b.aim();
        b
    }

    /// Point at the directory that is typed, with the cursor at the top.
    fn aim(&mut self)
        ensures
            final(self).aimed(),
            final(self).selected == 0,
            *final(self) == (FileBrowser {
                dir: final(self).dir,
                selected: 0,
                ..*old(self)
            }),
    {
        let (dir_part, _) = split_input(self.os, self.input.as_str());
        let home: Option<&str> = match &self.home {
            Some(h) => Some(h.as_str()),
            None => None,
        };
        let dir = expand_tilde(self.os, dir_part.as_str(), home);
        self.dir = dir;
        self.selected = 0;
    }

    /// What is listed of a directory that holds `found`: what starts with the
    /// segment being typed, in order.
    pub open spec fn listing(os: Os, input: Seq<char>, found: Seq<Entry>) -> Seq<Entry> {
        sorted(kept(found, entry_starts(split_typed(os, input).1)))
    }

    /// Take in what the directory holds, or why it could not be read, and
    /// filter it by the segment being typed.
    pub fn refresh(&mut self, found: Result<Vec<Entry>, String>)
        requires
            old(self).wf(),
        ensures
            final(self).wf(),
            final(self).input == old(self).input,
            final(self).dir == old(self).dir,
            final(self).home == old(self).home && final(self).os == old(self).os,
            final(self).came_from is None,
            match found {
                Ok(all) => {
                    let shown = Self::listing(old(self).os, old(self).input@, all@);
                    &&& final(self).entries@ == shown
                    &&& final(self).error is None
                    &&& final(self).selected == Self::cursor(
                        shown,
                        old(self).selected as int,
                        opt_string(old(self).came_from),
                    )
                },
                Err(e) => {
                    &&& final(self).entries@.len() == 0
                    &&& final(self).selected == 0
                    &&& final(self).error is Some
                    &&& final(self).error->0@ == old(self).dir@ + ": "@ + e@
                },
            },
    {
        let (_, filter) = split_input(self.os, self.input.as_str());
        match found {
            Ok(all) => {
                self.error = None;
                let mut out: Vec<Entry> = Vec::new();
                let ghost p = entry_starts(filter@);
                let mut i: usize = 0;
                assert(all@.take(0) =~= Seq::<Entry>::empty());
                while i < all.len()
                    invariant
                        i <= all@.len(),
                        p == entry_starts(filter@),
                        out@ == kept(all@.take(i as int), p),
                    decreases all@.len() - i,
                {
                    assert(all@.take(i + 1).drop_last() =~= all@.take(i as int));
                    if starts_with_ci(all[i].name.as_str(), filter.as_str()) {
                        out.push(all[i].clone());
                    }
                    i = i + 1;
                }
                assert(all@.take(i as int) =~= all@);
                self.entries = sort_entries(out);
            },
            Err(e) => {
                self.error = Some(cat3(self.dir.as_str(), ": ", e.as_str()));
                self.entries = Vec::new();
            },
        }
        self.selected = clamp(self.selected, self.entries.len());
        match self.came_from.take() {
            Some(leaf) => match find_entry(&self.entries, leaf.as_str()) {
                Some(i) => {
                    self.selected = i;
                },
                None => {},
            },
            None => {},
        }
    }

    /// Where the cursor goes on a new listing: on what was walked out of, where
    /// that is listed, or where it was.
    pub open spec fn cursor(shown: Seq<Entry>, at: int, came_from: Option<Seq<char>>) -> int {
        match came_from {
            Some(leaf) => {
                let i = first_where(shown, entry_named(leaf));
                if i < shown.len() {
                    i
                } else {
                    clamped(at, shown.len() as int)
                }
            },
            None => clamped(at, shown.len() as int),
        }
    }

    pub fn push(&mut self, c: char)
        ensures
            final(self).input@ == old(self).input@.push(c),
            final(self).aimed() && final(self).selected == 0,
            final(self).entries == old(self).entries,
            final(self).home == old(self).home && final(self).os == old(self).os,
            final(self).error == old(self).error && final(self).came_from == old(self).came_from,
    {
        self.input.push(c);
        self.aim();
    }

    pub fn backspace(&mut self)
        ensures
            old(self).input@.len() > 0 ==> final(self).input@ == old(self).input@.drop_last(),
            old(self).input@.len() == 0 ==> final(self).input@ == old(self).input@,
            final(self).aimed() && final(self).selected == 0,
            final(self).entries == old(self).entries,
            final(self).home == old(self).home && final(self).os == old(self).os,
            final(self).error == old(self).error && final(self).came_from == old(self).came_from,
    {
        let _ = self.input.pop();
        self.aim();
    }

    pub fn down(&mut self)
        requires
            old(self).wf(),
        ensures
            final(self).wf(),
            *final(self) == (FileBrowser { selected: final(self).selected, ..*old(self) }),
            final(self).selected == if old(self).entries@.len() == 0 {
                0
            } else {
                Picker::next_idx(old(self).selected as int, old(self).entries@.len() as int)
            },
    {
        let n: usize = self.entries.len();
        if n > 0 {
            self.selected = if self.selected < n - 1 {
                self.selected + 1
            } else {
                0
            };
        }
    }

    pub fn up(&mut self)
        requires
            old(self).wf(),
        ensures
            final(self).wf(),
            *final(self) == (FileBrowser { selected: final(self).selected, ..*old(self) }),
            final(self).selected == if old(self).entries@.len() == 0 {
                0
            } else {
                Picker::prev_idx(old(self).selected as int, old(self).entries@.len() as int)
            },
    {
        let n: usize = self.entries.len();
        if n > 0 {
            self.selected = if self.selected > 0 {
                self.selected - 1
            } else {
                n - 1
            };
        }
    }

    pub fn selected_entry(&self) -> (r: Option<&Entry>)
        ensures
            r is Some <==> self.selected < self.entries@.len(),
            r is Some ==> *r->0 == self.entries@[self.selected as int],
    {
        if self.selected < self.entries.len() {
            Some(&self.entries[self.selected])
        } else {
            None
        }
    }

    /// A directory is under the cursor.
    pub open spec fn on_dir(&self) -> bool {
        self.selected < self.entries@.len() && self.entries@[self.selected as int].is_dir
    }

    /// Walk into the selected directory. Files are left to `accept`.
    pub fn descend(&mut self)
        ensures
            !old(self).on_dir() ==> *final(self) == *old(self),
            old(self).on_dir() ==> {
                &&& final(self).input@ == slashed(
                    old(self).os,
                    joined_path(
                        old(self).os,
                        old(self).dir@,
                        old(self).entries@[old(self).selected as int].name@,
                    ),
                )
                &&& final(self).aimed()
                &&& final(self).selected == 0
                &&& final(self).entries == old(self).entries
                &&& final(self).home == old(self).home && final(self).os == old(self).os
                &&& final(self).error == old(self).error
                &&& final(self).came_from == old(self).came_from
            },
    {
        let target = match self.selected_entry() {
            Some(e) => if e.is_dir {
                path::join(self.os, self.dir.as_str(), e.name.as_str())
            } else {
                return;
            },
            None => {
                return;
            },
        };
        self.input = path::with_trailing_slash(self.os, target.as_str());
        self.aim();
    }

    /// Go up one level, leaving the directory we came from selected.
    pub fn ascend(&mut self)
        ensures
            above(old(self).os, old(self).dir@) is None ==> *final(self) == *old(self),
            above(old(self).os, old(self).dir@) is Some ==> {
                &&& final(self).input@ == above(old(self).os, old(self).dir@)->0
                &&& final(self).aimed()
                &&& final(self).selected == 0
                &&& final(self).entries == old(self).entries
                &&& final(self).home == old(self).home && final(self).os == old(self).os
                &&& final(self).error == old(self).error
                &&& opt_string(final(self).came_from) == name_of(old(self).os, old(self).dir@)
            },
    {
        let leaf = path::file_name(self.os, self.dir.as_str());
        let typed = match path::up(self.os, self.dir.as_str()) {
            Some(p) => p,
            None => {
                return;
            },
        };
        self.input = typed;
        self.came_from = leaf;
        self.aim();
    }

    /// What Enter picks: the file under the cursor, or with nothing listed the
    /// typed path at its word. `None` where the browser stays open.
    pub open spec fn picked(&self) -> Option<Seq<char>> {
        if self.on_dir() {
            None
        } else if self.selected < self.entries@.len() {
            Some(joined_path(self.os, self.dir@, self.entries@[self.selected as int].name@))
        } else {
            let path = expanded(self.os, self.input@, opt_string(self.home));
            if path.len() == 0 {
                None
            } else {
                Some(path)
            }
        }
    }

    /// Enter: walk into a directory, or hand back the picked path. `None` means
    /// the browser stays open.
    pub fn accept(&mut self) -> (r: Option<String>)
        ensures
            opt_string(r) == old(self).picked(),
            !old(self).on_dir() ==> *final(self) == *old(self),
            old(self).on_dir() ==> {
                &&& final(self).input@ == slashed(
                    old(self).os,
                    joined_path(
                        old(self).os,
                        old(self).dir@,
                        old(self).entries@[old(self).selected as int].name@,
                    ),
                )
                &&& final(self).aimed()
                &&& final(self).selected == 0
                &&& final(self).entries == old(self).entries
                &&& final(self).home == old(self).home && final(self).os == old(self).os
                &&& final(self).error == old(self).error
                &&& final(self).came_from == old(self).came_from
            },
    {
        let file = match self.selected_entry() {
            Some(e) => if e.is_dir {
                None
            } else {
                Some(path::join(self.os, self.dir.as_str(), e.name.as_str()))
            },
            None => {
                let home: Option<&str> = match &self.home {
                    Some(h) => Some(h.as_str()),
                    None => None,
                };
                let s = expand_tilde(self.os, self.input.as_str(), home);
                return if s.as_str().is_empty() {
                    None
                } else {
                    Some(s)
                };
            },
        };
        match file {
            Some(f) => Some(f),
            None => {
                self.descend();
                None
            },
        }
    }
}

/// Walking into a directory and out again ends where it began, with the
/// directory that was left to be selected.
pub proof fn law_descend_then_ascend(
    os: Os,
    dir: Seq<char>,
    name: Seq<char>,
    home: Option<Seq<char>>,
)
    requires
        is_name(os, name),
        name.last() != ':',
        dir.len() > 0,
        rest_of(os, dir).len() > 0,
        bare(os, rest_of(os, dir)) == rest_of(os, dir),
        home is Some ==> dir != "~"@ && !starts(dir, "~/"@),
    ensures
        ({
            let typed = slashed(os, joined_path(os, dir, name));
            let inside = expanded(os, split_typed(os, typed).0, home);
            &&& above(os, inside) == Some(slashed(os, dir))
            &&& name_of(os, inside) == Some(name)
        }),
{
    reveal_strlit("/");
    reveal_strlit("\\");
    reveal_strlit("~");
    reveal_strlit("~/");
    path::law_join_then_parent(os, dir, name);
    let p = joined_path(os, dir, name);
    assert(name[name.len() - 1] == name.last());
    assert(!is_sep(os, name[0]));
    assert(p.last() == name.last());
    assert(p.len() > dir.len());
    assert(p.take(dir.len() as int) =~= dir);
    let typed = slashed(os, p);
    let c = sep_text(os)[0];
    assert(typed =~= p.push(c));
    assert(last_sep(os, typed) == p.len());
    assert(typed.take(p.len() as int) =~= p);
    assert(p[0] == dir[0]);
    if home is Some {
        assert(p != "~"@) by {
            assert(p.len() >= 2);
        }
        if starts(p, "~/"@) {
            let t = p.take(2);
            assert(t == "~/"@);
            assert(t[0] == '~' && t[1] == '/');
            assert(p[0] == '~' && p[1] == '/');
            if dir.len() == 1 {
                assert(dir =~= "~"@);
            } else {
                assert(dir.take(2) =~= "~/"@);
            }
        }
    }
}

}
