//! Log lines, and where a log pane gets them from.
//!
//! Every log pane in the program shows the same two things merged: what
//! controlcenter did about a connection, and what the process it started
//! printed. [`Journal`] holds the first, [`Ring`] the second, and [`LogTarget`]
//! says which connection a pane, an entry or an exported report is about.

use vstd::prelude::*;
use crate::text::{self, ascii_lower, cat, cat3, cat4, chars_of, is_ascii_alnum, trim_end};
use crate::vpn::{lemma_slug_plain, ProviderId};

verus! {

/// Lines kept per process. A tunnel that has been up for a week must not grow
/// without bound; short of that, keep enough that an exported log is the whole
/// story rather than its last page.
pub const RING_CAP: usize = 2000;

/// Entries kept in the journal, across every connection at once.
pub const JOURNAL_CAP: usize = 2000;

/// What controlcenter itself says, as opposed to a child process.
pub const SELF: &'static str = "controlcenter";

/// One line, with the time it was seen and what produced it.
#[derive(Debug)]
pub struct Entry {
    /// Milliseconds since 1970-01-01 UTC.
    pub at: u64,
    /// `controlcenter` for something the program did, otherwise the program
    /// that printed the line: `ssh`, `openvpn`, `xfreerdp`.
    pub source: &'static str,
    pub text: String,
    /// Drawn in red, and marked in an exported report.
    pub error: bool,
}

impl Clone for Entry {
    fn clone(&self) -> (r: Self)
        ensures
            r == *self,
    {
        Entry { at: self.at, source: self.source, text: self.text.clone(), error: self.error }
    }
}

/// A sequence that keeps its last `cap` members, after one more came in.
pub open spec fn pushed<T>(s: Seq<T>, x: T, cap: nat) -> Seq<T> {
    if s.len() >= cap {
        s.drop_first().push(x)
    } else {
        s.push(x)
    }
}

/// A capped line buffer: the output of one child process.
pub struct Ring {
    source: &'static str,
    lines: Vec<Entry>,
}

impl Ring {
    /// The lines held, oldest first.
    pub closed spec fn held(&self) -> Seq<Entry> {
        self.lines@
    }

    /// The program whose output this is.
    pub closed spec fn of(&self) -> &'static str {
        self.source
    }

    /// Never more lines than the cap.
    pub open spec fn wf(&self) -> bool {
        self.held().len() <= RING_CAP
    }

    pub fn new(source: &'static str) -> (r: Self)
        ensures
            r.held() == Seq::<Entry>::empty(),
            r.of() == source,
            r.wf(),
    {
        Ring { source, lines: Vec::new() }
    }

    /// Take in one line; the oldest goes once the ring is full.
    pub fn push(&mut self, at: u64, text: &str)
        ensures
            old(self).wf() ==> final(self).wf(),
            final(self).of() == old(self).of(),
            final(self).held() == pushed(
                old(self).held(),
                final(self).held().last(),
                RING_CAP as nat,
            ),
            final(self).held().last().at == at,
            final(self).held().last().source == old(self).of(),
            final(self).held().last().text@ == text@,
            !final(self).held().last().error,
    {
        if self.lines.len() >= RING_CAP {
            let _ = self.lines.remove(0);
            assert(self.lines@ =~= old(self).lines@.drop_first());
        }
        let source = self.source;
        self.lines.push(Entry { at, source, text: text.to_owned(), error: false });
    }

    /// Take in a line that a chatty program printed: the white space at its end
    /// goes, and a line of nothing else is not kept.
    pub fn push_said(&mut self, at: u64, text: &str)
        ensures
            old(self).wf() ==> final(self).wf(),
            final(self).of() == old(self).of(),
            trim_end(text@).len() == 0 ==> *final(self) == *old(self),
            trim_end(text@).len() > 0 ==> {
                let line = final(self).held().last();
                &&& final(self).held() == pushed(old(self).held(), line, RING_CAP as nat)
                &&& line.at == at && line.source == old(self).of() && !line.error
                &&& line.text@ == trim_end(text@)
            },
    {
        let line = text::without_trailing_space(text);
        if !line.as_str().is_empty() {
            self.push(at, line.as_str());
        }
    }

    /// The last `n` lines, oldest first.
    pub fn recent(&self, n: usize) -> (r: Vec<Entry>)
        ensures
            n >= self.held().len() ==> r@ == self.held(),
            n < self.held().len() ==> r@ == self.held().skip(self.held().len() - n),
    {
        let total: usize = self.lines.len();
        let start: usize = if n >= total {
            0
        } else {
            total - n
        };
        let r = copy_from(&self.lines, start);
        assert(self.lines@.skip(0) =~= self.lines@);
        r
    }

    pub fn all(&self) -> (r: Vec<Entry>)
        ensures
            r@ == self.held(),
    {
        assert(self.lines@.skip(0) =~= self.lines@);
        copy_from(&self.lines, 0)
    }

    pub fn clear(&mut self)
        ensures
            final(self).held() == Seq::<Entry>::empty(),
            final(self).of() == old(self).of(),
            final(self).wf(),
    {
        self.lines.clear();
    }

    /// The most recent line, for the one-line summaries in the status panes.
    pub fn last_text(&self) -> (r: Option<String>)
        ensures
            r is None <==> self.held().len() == 0,
            r is Some ==> r->0@ == self.held().last().text@,
    {
        let n: usize = self.lines.len();
        if n == 0 {
            None
        } else {
            Some(self.lines[n - 1].text.clone())
        }
    }
}

fn copy_from(v: &Vec<Entry>, start: usize) -> (r: Vec<Entry>)
    requires
        start <= v@.len(),
    ensures
        r@ == v@.skip(start as int),
{
    let mut out: Vec<Entry> = Vec::new();
    let mut i: usize = start;
    while i < v.len()
        invariant
            start <= i <= v@.len(),
            out@ == v@.subrange(start as int, i as int),
        decreases v@.len() - i,
    {
        out.push(v[i].clone());
        i = i + 1;
        assert(v@.subrange(start as int, i as int) =~= v@.subrange(start as int, i - 1).push(
            v@[i - 1],
        ));
    }
    assert(v@.subrange(start as int, v@.len() as int) =~= v@.skip(start as int));
    out
}

/// Which connection a log pane, a journal entry or a report is about.
#[derive(Debug, PartialEq, Eq)]
pub enum LogTarget {
    /// controlcenter itself: everything it did, on every tab.
    Program,
    Tunnel(String),
    Ssh(String),
    Rdp(String),
    /// A VPN client, and the profile when the entry is about one. An empty
    /// profile means the client itself: a refresh, an install check.
    Vpn(ProviderId, String),
}

/// A log target, with its name as text.
pub enum Subject {
    Program,
    Tunnel(Seq<char>),
    Ssh(Seq<char>),
    Rdp(Seq<char>),
    Vpn(ProviderId, Seq<char>),
}

impl View for LogTarget {
    type V = Subject;

    open spec fn view(&self) -> Subject {
        match self {
            LogTarget::Program => Subject::Program,
            LogTarget::Tunnel(n) => Subject::Tunnel(n@),
            LogTarget::Ssh(n) => Subject::Ssh(n@),
            LogTarget::Rdp(n) => Subject::Rdp(n@),
            LogTarget::Vpn(p, n) => Subject::Vpn(*p, n@),
        }
    }
}

impl Clone for LogTarget {
    fn clone(&self) -> (r: Self)
        ensures
            r == *self,
    {
        match self {
            LogTarget::Program => LogTarget::Program,
            LogTarget::Tunnel(n) => LogTarget::Tunnel(n.clone()),
            LogTarget::Ssh(n) => LogTarget::Ssh(n.clone()),
            LogTarget::Rdp(n) => LogTarget::Rdp(n.clone()),
            LogTarget::Vpn(p, n) => LogTarget::Vpn(*p, n.clone()),
        }
    }
}

/// How a pane titles its subject and the report names it.
pub open spec fn title_of(t: Subject) -> Seq<char> {
    match t {
        Subject::Program => "controlcenter"@,
        Subject::Tunnel(n) => "tunnel '"@ + n + "'"@,
        Subject::Ssh(n) => "ssh host '"@ + n + "'"@,
        Subject::Rdp(n) => "rdp connection '"@ + n + "'"@,
        Subject::Vpn(p, n) => if n.len() == 0 {
            p.slug_spec()
        } else {
            p.slug_spec() + " profile '"@ + n + "'"@
        },
    }
}

/// A subject's name as it would stand in a filename if names were plain.
pub open spec fn raw_slug(t: Subject) -> Seq<char> {
    match t {
        Subject::Program => "everything"@,
        Subject::Tunnel(n) => "tunnel-"@ + n,
        Subject::Ssh(n) => "ssh-"@ + n,
        Subject::Rdp(n) => "rdp-"@ + n,
        Subject::Vpn(p, n) => if n.len() == 0 {
            p.slug_spec()
        } else {
            p.slug_spec() + "-"@ + n
        },
    }
}

/// Small letters, digits, `-` and `_` stay, capitals become small, and
/// everything else becomes `-`.
pub open spec fn plain_char(c: char) -> char {
    if is_ascii_alnum(c) || c == '-' || c == '_' {
        ascii_lower(c)
    } else {
        '-'
    }
}

/// A text made of plain characters, with every run of `-` drawn into one.
pub open spec fn plain(s: Seq<char>) -> Seq<char>
    decreases s.len(),
{
    if s.len() == 0 {
        Seq::empty()
    } else {
        let before = plain(s.drop_last());
        let c = plain_char(s.last());
        if c == '-' && before.len() > 0 && before.last() == '-' {
            before
        } else {
            before.push(c)
        }
    }
}

/// A text without a `-` at its start or end, where no two stand together.
pub open spec fn undashed(s: Seq<char>) -> Seq<char> {
    let a = if s.len() > 0 && s[0] == '-' {
        s.drop_first()
    } else {
        s
    };
    if a.len() > 0 && a.last() == '-' {
        a.drop_last()
    } else {
        a
    }
}

pub open spec fn slug_of(t: Subject) -> Seq<char> {
    undashed(plain(raw_slug(t)))
}

/// A character that can stand in any filename.
pub open spec fn safe_char(c: char) -> bool {
    'a' <= c <= 'z' || '0' <= c <= '9' || c == '-' || c == '_'
}

pub proof fn lemma_plain(s: Seq<char>)
    ensures
        forall|i: int| 0 <= i < plain(s).len() ==> safe_char(#[trigger] plain(s)[i]),
        forall|i: int|
            0 < i < plain(s).len() && plain(s)[i] == '-' ==> #[trigger] plain(s)[i - 1] != '-',
        s.len() > 0 ==> plain(s).len() > 0 && plain(s)[0] == plain_char(s[0]),
    decreases s.len(),
{
    if s.len() > 0 {
        lemma_plain(s.drop_last());
        assert(safe_char(plain_char(s.last())));
        let before = plain(s.drop_last());
        let p = plain(s);
        assert forall|i: int| 0 < i < p.len() && p[i] == '-' implies #[trigger] p[i - 1] != '-' by {
            assert(p[i - 1] == before[i - 1]);
            if i < before.len() {
                assert(p[i] == before[i]);
            }
        }
    }
}

/// What a report is named after holds only small letters, digits, `-` and `_`,
/// is never empty, never starts or ends with a `-` and never holds two in a row.
pub proof fn law_slug_is_a_filename(t: Subject)
    ensures
        slug_of(t).len() > 0,
        forall|i: int| 0 <= i < slug_of(t).len() ==> safe_char(#[trigger] slug_of(t)[i]),
        slug_of(t)[0] != '-',
        slug_of(t).last() != '-',
        forall|i: int|
            0 < i < slug_of(t).len() && slug_of(t)[i] == '-' ==> #[trigger] slug_of(t)[i - 1]
                != '-',
{
    reveal_strlit("everything");
    reveal_strlit("tunnel-");
    reveal_strlit("ssh-");
    reveal_strlit("rdp-");
    let raw = raw_slug(t);
    let p = plain(raw);
    lemma_plain(raw);
    match t {
        Subject::Vpn(id, n) => {
            lemma_slug_plain(id);
            assert(raw[0] == id.slug_spec()[0]);
        },
        _ => {},
    }
    assert('a' <= raw[0] <= 'z');
    assert(p[0] != '-');
    let s = slug_of(t);
    assert forall|i: int| 0 <= i < s.len() implies safe_char(#[trigger] s[i]) by {
        assert(s[i] == p[i]);
    }
    if p.last() == '-' {
        assert(p.len() > 1);
        assert(p[p.len() - 1 - 1] != '-');
    }
    assert forall|i: int| 0 < i < s.len() && s[i] == '-' implies #[trigger] s[i - 1] != '-' by {
        assert(s[i] == p[i] && s[i - 1] == p[i - 1]);
    }
}

/// Whether a pane on `pane` shows an entry recorded against `entry`.
///
/// The program pane shows everything, and a VPN client's pane shows what
/// its profiles did: a profile that would not come up is the client's
/// story too.
pub open spec fn covers_spec(pane: Subject, entry: Subject) -> bool {
    match (pane, entry) {
        (Subject::Program, _) => true,
        (Subject::Vpn(a, want), Subject::Vpn(b, got)) => {
            a == b && (want.len() == 0 || got.len() == 0 || want == got)
        },
        (a, b) => a == b,
    }
}

impl LogTarget {
    pub fn vpn(provider: ProviderId) -> (r: Self)
        ensures
            r@ == Subject::Vpn(provider, Seq::empty()),
    {
        LogTarget::Vpn(provider, String::new())
    }

    /// How the pane titles it and the report names it.
    pub fn title(&self) -> (r: String)
        ensures
            r@ == title_of(self@),
    {
        match self {
            LogTarget::Program => "controlcenter".to_owned(),
            LogTarget::Tunnel(n) => cat3("tunnel '", n.as_str(), "'"),
            LogTarget::Ssh(n) => cat3("ssh host '", n.as_str(), "'"),
            LogTarget::Rdp(n) => cat3("rdp connection '", n.as_str(), "'"),
            LogTarget::Vpn(p, n) => if n.as_str().is_empty() {
                p.slug().to_owned()
            } else {
                cat4(p.slug(), " profile '", n.as_str(), "'")
            },
        }
    }

    /// The part of an exported report's filename that says what it is about.
    pub fn slug(&self) -> (r: String)
        ensures
            r@ == slug_of(self@),
    {
        let raw = match self {
            // Not "controlcenter": every report's name starts with that already.
            LogTarget::Program => "everything".to_owned(),
            LogTarget::Tunnel(n) => cat("tunnel-", n.as_str()),
            LogTarget::Ssh(n) => cat("ssh-", n.as_str()),
            LogTarget::Rdp(n) => cat("rdp-", n.as_str()),
            LogTarget::Vpn(p, n) => if n.as_str().is_empty() {
                p.slug().to_owned()
            } else {
                cat3(p.slug(), "-", n.as_str())
            },
        };
        // A connection name is free text and ends up in a path.
        let v = chars_of(raw.as_str());
        let mut out: Vec<char> = Vec::new();
        let mut i: usize = 0;
        assert(v@.take(0) =~= Seq::<char>::empty());
        while i < v.len()
            invariant
                i <= v@.len(),
                out@ == plain(v@.take(i as int)),
            decreases v@.len() - i,
        {
            let c = if text::char_is_ascii_alnum(v[i]) || v[i] == '-' || v[i] == '_' {
                text::char_ascii_lower(v[i])
            } else {
                '-'
            };
            assert(v@.take(i + 1).drop_last() =~= v@.take(i as int));
            let n: usize = out.len();
            if !(c == '-' && n > 0 && out[n - 1] == '-') {
                out.push(c);
            }
            i = i + 1;
        }
        assert(v@.take(v@.len() as int) =~= v@);
        let mut from: usize = 0;
        let mut to: usize = out.len();
        if to > 0 && out[0] == '-' {
            from = 1;
        }
        if to > from && out[to - 1] == '-' {
            to = to - 1;
        }
        assert(out@.subrange(from as int, to as int) =~= undashed(out@));
        text::text_between(&out, from, to)
    }

    /// Whether a pane on `self` shows an entry recorded against `entry`.
    pub fn covers(&self, entry: &LogTarget) -> (r: bool)
        ensures
            r == covers_spec(self@, entry@),
    {
        match (self, entry) {
            (LogTarget::Program, _) => true,
            (LogTarget::Vpn(a, want), LogTarget::Vpn(b, got)) => {
                *a == *b && (want.as_str().is_empty() || got.as_str().is_empty() || text::same(
                    want.as_str(),
                    got.as_str(),
                ))
            },
            (LogTarget::Tunnel(a), LogTarget::Tunnel(b)) => text::same(a.as_str(), b.as_str()),
            (LogTarget::Ssh(a), LogTarget::Ssh(b)) => text::same(a.as_str(), b.as_str()),
            (LogTarget::Rdp(a), LogTarget::Rdp(b)) => text::same(a.as_str(), b.as_str()),
            _ => false,
        }
    }
}

/// The entries of a journal that a pane shows.
pub open spec fn shown(entries: Seq<(LogTarget, Entry)>, pane: Subject) -> Seq<Entry>
    decreases entries.len(),
{
    if entries.len() == 0 {
        Seq::empty()
    } else {
        let before = shown(entries.drop_last(), pane);
        if covers_spec(pane, entries.last().0@) {
            before.push(entries.last().1)
        } else {
            before
        }
    }
}

/// The entries of a journal that a pane does not show.
pub open spec fn hidden(entries: Seq<(LogTarget, Entry)>, pane: Subject) -> Seq<(LogTarget, Entry)>
    decreases entries.len(),
{
    if entries.len() == 0 {
        Seq::empty()
    } else {
        let before = hidden(entries.drop_last(), pane);
        if covers_spec(pane, entries.last().0@) {
            before
        } else {
            before.push(entries.last())
        }
    }
}

/// What controlcenter did, in order, across every connection.
pub struct Journal {
    entries: Vec<(LogTarget, Entry)>,
}

impl Default for Journal {
    fn default() -> (r: Self)
        ensures
            r.held() == Seq::<(LogTarget, Entry)>::empty(),
            r.wf(),
    {
        Journal { entries: Vec::new() }
    }
}

impl Journal {
    /// Every entry, oldest first.
    pub closed spec fn held(&self) -> Seq<(LogTarget, Entry)> {
        self.entries@
    }

    /// Never more entries than the cap.
    pub open spec fn wf(&self) -> bool {
        self.held().len() <= JOURNAL_CAP
    }

    /// `after` is `before` with one more entry, made of these.
    pub open spec fn recorded(
        before: Seq<(LogTarget, Entry)>,
        after: Seq<(LogTarget, Entry)>,
        at: u64,
        target: LogTarget,
        text: Seq<char>,
        error: bool,
    ) -> bool {
        &&& after.len() > 0
        &&& after == pushed(before, after.last(), JOURNAL_CAP as nat)
        &&& after.last().0 == target
        &&& after.last().1.at == at
        &&& after.last().1.source@ == SELF@
        &&& after.last().1.text@ == text
        &&& after.last().1.error == error
    }

    pub fn note(&mut self, at: u64, target: LogTarget, text: &str)
        requires
            old(self).wf(),
        ensures
            final(self).wf(),
            Self::recorded(old(self).held(), final(self).held(), at, target, text@, false),
    {
        self.record(at, target, text, false);
    }

    pub fn fail(&mut self, at: u64, target: LogTarget, text: &str)
        requires
            old(self).wf(),
        ensures
            final(self).wf(),
            Self::recorded(old(self).held(), final(self).held(), at, target, text@, true),
    {
        self.record(at, target, text, true);
    }

    fn record(&mut self, at: u64, target: LogTarget, text: &str, error: bool)
        requires
            old(self).wf(),
        ensures
            final(self).wf(),
            Self::recorded(old(self).held(), final(self).held(), at, target, text@, error),
    {
        if self.entries.len() >= JOURNAL_CAP {
            let _ = self.entries.remove(0);
            assert(self.entries@ =~= old(self).entries@.drop_first());
        }
        self.entries.push((target, Entry { at, source: SELF, text: text.to_owned(), error }));
    }

    /// The entries a pane on `target` shows.
    pub fn entries_for(&self, target: &LogTarget) -> (r: Vec<Entry>)
        ensures
            r@ == shown(self.held(), target@),
    {
        let mut out: Vec<Entry> = Vec::new();
        let mut i: usize = 0;
        assert(self.entries@.take(0) =~= Seq::<(LogTarget, Entry)>::empty());
        while i < self.entries.len()
            invariant
                i <= self.entries@.len(),
                out@ == shown(self.entries@.take(i as int), target@),
            decreases self.entries@.len() - i,
        {
            assert(self.entries@.take(i + 1).drop_last() =~= self.entries@.take(i as int));
            if target.covers(&self.entries[i].0) {
                out.push(self.entries[i].1.clone());
            }
            i = i + 1;
        }
        assert(self.entries@.take(i as int) =~= self.entries@);
        out
    }

    /// Every entry, with what it was about: the whole story, for a report.
    pub fn all(&self) -> (r: &[(LogTarget, Entry)])
        ensures
            r@ == self.held(),
    {
        self.entries.as_slice()
    }

    /// Drop what a pane on `target` shows.
    pub fn clear_for(&mut self, target: &LogTarget)
        requires
            old(self).wf(),
        ensures
            final(self).wf(),
            final(self).held() == hidden(old(self).held(), target@),
    {
        let mut out: Vec<(LogTarget, Entry)> = Vec::new();
        let mut i: usize = 0;
        assert(self.entries@.take(0) =~= Seq::<(LogTarget, Entry)>::empty());
        while i < self.entries.len()
            invariant
                i <= self.entries@.len(),
                out@ == hidden(self.entries@.take(i as int), target@),
                out@.len() <= i,
            decreases self.entries@.len() - i,
        {
            assert(self.entries@.take(i + 1).drop_last() =~= self.entries@.take(i as int));
            if !target.covers(&self.entries[i].0) {
                out.push((self.entries[i].0.clone(), self.entries[i].1.clone()));
            }
            i = i + 1;
        }
        assert(self.entries@.take(i as int) =~= self.entries@);
        self.entries = out;
    }
}

/// A pane shows what was recorded against its own subject, and the program's
/// pane shows everything.
pub proof fn law_covers(t: Subject, e: Subject)
    ensures
        covers_spec(t, t),
        covers_spec(Subject::Program, e),
{
}

/// The program's pane shows every entry there is.
pub proof fn law_program_pane_shows_all(entries: Seq<(LogTarget, Entry)>)
    ensures
        shown(entries, Subject::Program) == entries.map_values(|e: (LogTarget, Entry)| e.1),
    decreases entries.len(),
{
    if entries.len() > 0 {
        law_program_pane_shows_all(entries.drop_last());
        assert(entries.map_values(|e: (LogTarget, Entry)| e.1) =~= entries.drop_last().map_values(
            |e: (LogTarget, Entry)| e.1,
        ).push(entries.last().1));
    } else {
        assert(entries.map_values(|e: (LogTarget, Entry)| e.1) =~= Seq::<Entry>::empty());
    }
}

/// Clearing a pane empties it, and leaves every pane alone that shows none of
/// its entries.
pub proof fn law_clearing_a_pane(entries: Seq<(LogTarget, Entry)>, pane: Subject, other: Subject)
    ensures
        shown(hidden(entries, pane), pane) == Seq::<Entry>::empty(),
        (forall|i: int|
            0 <= i < entries.len() && covers_spec(pane, #[trigger] entries[i].0@) ==> !covers_spec(
                other,
                entries[i].0@,
            )) ==> shown(hidden(entries, pane), other) == shown(entries, other),
    decreases entries.len(),
{
    if entries.len() > 0 {
        let head = entries.drop_last();
        law_clearing_a_pane(head, pane, other);
        let kept = hidden(head, pane);
        assert(kept.push(entries.last()).drop_last() =~= kept);
        assert(forall|i: int| 0 <= i < head.len() ==> head[i] == entries[i]);
        assert(entries.last() == entries[entries.len() - 1]);
    }
}

}
