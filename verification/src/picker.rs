//! Cycling pickers: what a form links a connection to.

use vstd::prelude::*;
use crate::list::{first_where, lemma_first_where_is};
use crate::text::{self, cat3, texts};
use crate::types::{
    canonical_text, canonical_vpn_requirement, requirement_label_text, vpn_requirement_label,
    Tunnel,
};
use crate::vpn_view::{is_stored_fn, kept, ProviderState, VpnProfile, VpnView};

verus! {

/// What a [`Picker`] cycles through, which decides how empty and special
/// values are labelled.
#[derive(Debug, Clone, Copy, PartialEq, Eq, Structural)]
pub enum PickerKind {
    Tunnel,
    Vpn,
}

/// Cycling picker used by the forms to link a connection to what it needs:
/// "(none)" plus every configured tunnel, or "(none)", "(any profile)" and
/// every VPN profile.
#[derive(Debug)]
pub struct Picker {
    pub kind: PickerKind,
    pub options: Vec<String>,
    pub idx: usize,
}

/// The names of the tunnels that may be depended on, behind "none".
pub open spec fn tunnel_options(ts: Seq<Tunnel>, exclude: Option<Seq<char>>) -> Seq<Seq<char>>
    decreases ts.len(),
{
    if ts.len() == 0 {
        seq![Seq::<char>::empty()]
    } else {
        let before = tunnel_options(ts.drop_last(), exclude);
        if exclude == Some(ts.last().name@) {
            before
        } else {
            before.push(ts.last().name@)
        }
    }
}

/// A client's profiles as requirements, behind "any profile" of it. A connection
/// that was not started here is no profile.
pub open spec fn profile_options(s: ProviderState, ps: Seq<VpnProfile>) -> Seq<Seq<char>>
    decreases ps.len(),
{
    if ps.len() == 0 {
        seq![s.id.slug_spec() + ":"@ + "*"@]
    } else if ps.last().stored_spec() {
        profile_options(s, ps.drop_last()).push(s.id.slug_spec() + ":"@ + ps.last().name@)
    } else {
        profile_options(s, ps.drop_last())
    }
}

/// "none", "any VPN", then each client's "any profile" and its profiles. A
/// client with neither an install nor a profile is left out.
pub open spec fn vpn_options(ps: Seq<ProviderState>) -> Seq<Seq<char>>
    decreases ps.len(),
{
    if ps.len() == 0 {
        seq![Seq::<char>::empty(), "*"@]
    } else {
        let before = vpn_options(ps.drop_last());
        let s = ps.last();
        if !s.installed && kept(s.profiles@, is_stored_fn()).len() == 0 {
            before
        } else {
            before + profile_options(s, s.profiles@)
        }
    }
}

/// The options with the current value among them, though what it names is gone.
pub open spec fn with_current(options: Seq<Seq<char>>, current: Seq<char>) -> Seq<Seq<char>> {
    if current.len() > 0 && !options.contains(current) {
        options.push(current)
    } else {
        options
    }
}

pub open spec fn text_is(t: Seq<char>) -> spec_fn(Seq<char>) -> bool {
    |s: Seq<char>| s == t
}

/// Where a value stands among the options; the front where it does not.
pub open spec fn place_of(options: Seq<Seq<char>>, current: Seq<char>) -> int {
    let i = first_where(options, text_is(current));
    if i < options.len() {
        i
    } else {
        0
    }
}

impl Picker {
    /// There is something to pick, and the cursor is on it.
    pub open spec fn wf(&self) -> bool {
        self.idx < self.options@.len()
    }

    /// The value under the cursor.
    pub open spec fn value_spec(&self) -> Seq<char> {
        if self.idx < self.options@.len() {
            self.options@[self.idx as int]@
        } else {
            Seq::empty()
        }
    }

    /// `exclude` keeps a tunnel from being offered as its own dependency.
    pub fn tunnels(tunnels: &[Tunnel], current: &str, exclude: Option<&str>) -> (r: Self)
        ensures
            r.kind == PickerKind::Tunnel,
            r.wf(),
            ({
                let ex = match exclude {
                    Some(e) => Some(e@),
                    None => None,
                };
                let all = with_current(tunnel_options(tunnels@, ex), current@);
                texts(r.options@) == all && r.idx == place_of(all, current@)
            }),
            r.value_spec() == current@,
            current@.len() == 0 ==> r.idx == 0,
    {
        let ghost ex = match exclude {
            Some(e) => Some(e@),
            None => None,
        };
        let mut options = text::no_texts();
        text::add_text(&mut options, String::new());
        let mut i: usize = 0;
        assert(tunnels@.take(0) =~= Seq::<Tunnel>::empty());
        assert(texts(options@) =~= tunnel_options(tunnels@.take(0), ex));
        while i < tunnels.len()
            invariant
                i <= tunnels@.len(),
                ex == match exclude {
                    Some(e) => Some(e@),
                    None => None,
                },
                texts(options@) == tunnel_options(tunnels@.take(i as int), ex),
            decreases tunnels@.len() - i,
        {
            assert(tunnels@.take(i + 1).drop_last() =~= tunnels@.take(i as int));
            let skip = match exclude {
                Some(e) => text::same(e, tunnels[i].name.as_str()),
                None => false,
            };
            if !skip {
                text::add_text(&mut options, tunnels[i].name.clone());
            }
            i = i + 1;
        }
        assert(tunnels@.take(i as int) =~= tunnels@);
        proof {
            lemma_none_first(tunnels@, ex);
        }
        Self::build(PickerKind::Tunnel, options, current)
    }

    /// "(none)", "(any VPN)", then each provider's "any profile" entry followed
    /// by its profiles.
    ///
    /// A provider that is not installed is still offered once it has profiles
    /// configured, so a dependency can be wired up before the client is there.
    pub fn vpn(view: &VpnView, current: &str) -> (r: Self)
        ensures
            r.kind == PickerKind::Vpn,
            r.wf(),
            ({
                let all = with_current(vpn_options(view.providers@), canonical_text(current@));
                texts(r.options@) == all && r.idx == place_of(all, canonical_text(current@))
            }),
            r.value_spec() == canonical_text(current@),
            canonical_text(current@).len() == 0 ==> r.idx == 0,
    {
        let mut options = text::no_texts();
        text::add_text(&mut options, String::new());
        text::add_str(&mut options, "*");
        let ghost all = view.providers@;
        let mut i: usize = 0;
        assert(all.take(0) =~= Seq::<ProviderState>::empty());
        assert(texts(options@) =~= vpn_options(all.take(0)));
        while i < view.providers.len()
            invariant
                i <= all.len(),
                all == view.providers@,
                texts(options@) == vpn_options(all.take(i as int)),
            decreases all.len() - i,
        {
            assert(all.take(i + 1).drop_last() =~= all.take(i as int));
            let state = &view.providers[i];
            let stored = state.stored();
            assert(stored@.map_values(|p: &VpnProfile| *p).len() == stored@.len());
            if state.installed || stored.len() > 0 {
                let more = Self::profile_list(state);
                text::add_all(&mut options, &more);
            }
            i = i + 1;
        }
        assert(all.take(i as int) =~= all);
        proof {
            lemma_no_vpn_first(all);
        }
        Self::build(
            PickerKind::Vpn,
            options,
            canonical_vpn_requirement(current).as_str(),
        )
    }

    fn profile_list(state: &ProviderState) -> (r: Vec<String>)
        ensures
            texts(r@) == profile_options(*state, state.profiles@),
    {
        let mut out = text::no_texts();
        text::add_text(&mut out, cat3(state.id.slug(), ":", "*"));
        let ghost all = state.profiles@;
        let mut i: usize = 0;
        assert(all.take(0) =~= Seq::<VpnProfile>::empty());
        assert(texts(out@) =~= profile_options(*state, all.take(0)));
        while i < state.profiles.len()
            invariant
                i <= all.len(),
                all == state.profiles@,
                texts(out@) == profile_options(*state, all.take(i as int)),
            decreases all.len() - i,
        {
            assert(all.take(i + 1).drop_last() =~= all.take(i as int));
            if state.profiles[i].is_stored() {
                text::add_text(
                    &mut out,
                    cat3(state.id.slug(), ":", state.profiles[i].name.as_str()),
                );
            }
            i = i + 1;
        }
        assert(all.take(i as int) =~= all);
        out
    }

    fn build(kind: PickerKind, options: Vec<String>, current: &str) -> (r: Self)
        requires
            options@.len() > 0,
            texts(options@)[0].len() == 0,
        ensures
            r.kind == kind,
            texts(r.options@) == with_current(texts(options@), current@),
            r.idx == place_of(texts(r.options@), current@),
            current@.len() == 0 ==> r.idx == 0,
            r.wf(),
            r.value_spec() == current@,
    {
        let ghost given = texts(options@);
        let mut list = options;
        // Keep a dangling requirement visible instead of silently dropping it:
        // the tunnel may have been deleted, or the VPN may just be unreachable.
        if !current.is_empty() && !text::holds(&list, current) {
            text::add_str(&mut list, current);
        }
        let ghost all = texts(list@);
        let ghost p = text_is(current@);
        let mut i: usize = 0;
        while i < list.len()
            invariant
                i <= list@.len(),
                all == texts(list@),
                given == texts(options@),
                given.len() > 0 && given[0].len() == 0,
                all == with_current(given, current@),
                p == text_is(current@),
                forall|j: int| 0 <= j < i ==> !p(#[trigger] all[j]),
            decreases list@.len() - i,
        {
            assert(all[i as int] == list@[i as int]@);
            if text::same(list[i].as_str(), current) {
                proof {
                    lemma_first_where_is(all, p, i as int);
                    if current@.len() == 0 && i > 0 {
                        assert(all[0] =~= current@);
                        assert(!p(all[0]));
                    }
                }
                return Picker { kind, options: list, idx: i };
            }
            i = i + 1;
        }
        proof {
            lemma_first_where_is(all, p, i as int);
            if current@.len() > 0 {
                if given.contains(current@) {
                    let k = choose|k: int| 0 <= k < all.len() && all[k] == current@;
                    assert(!p(all[k]));
                } else {
                    assert(all.last() == current@);
                    assert(!p(all[all.len() - 1]));
                }
            } else {
                assert(all[0] =~= current@);
                assert(!p(all[0]));
            }
        }
        Picker { kind, options: list, idx: 0 }
    }

    pub fn value(&self) -> (r: String)
        ensures
            r@ == self.value_spec(),
    {
        if self.idx < self.options.len() {
            self.options[self.idx].clone()
        } else {
            String::new()
        }
    }

    pub open spec fn label_spec(&self) -> Seq<char> {
        let v = self.value_spec();
        if v.len() == 0 {
            "(none)"@
        } else {
            match self.kind {
                PickerKind::Vpn => requirement_label_text(v),
                PickerKind::Tunnel => v,
            }
        }
    }

    pub fn label(&self) -> (r: String)
        ensures
            r@ == self.label_spec(),
    {
        let v = self.value();
        if v.as_str().is_empty() {
            "(none)".to_owned()
        } else {
            match self.kind {
                PickerKind::Vpn => vpn_requirement_label(v.as_str()),
                PickerKind::Tunnel => v,
            }
        }
    }

    /// The cursor one further, from the last option to the first.
    pub open spec fn next_idx(i: int, n: int) -> int {
        if i + 1 < n {
            i + 1
        } else {
            0
        }
    }

    /// The cursor one back, from the first option to the last.
    pub open spec fn prev_idx(i: int, n: int) -> int {
        if i > 0 {
            i - 1
        } else {
            n - 1
        }
    }

    pub fn next(&mut self)
        requires
            old(self).wf(),
        ensures
            final(self).wf(),
            final(self).kind == old(self).kind,
            final(self).options == old(self).options,
            final(self).idx == Self::next_idx(old(self).idx as int, old(self).options@.len() as int),
    {
        let n: usize = self.options.len();
        self.idx = if self.idx < n - 1 {
            self.idx + 1
        } else {
            0
        };
    }

    pub fn prev(&mut self)
        requires
            old(self).wf(),
        ensures
            final(self).wf(),
            final(self).kind == old(self).kind,
            final(self).options == old(self).options,
            final(self).idx == Self::prev_idx(old(self).idx as int, old(self).options@.len() as int),
    {
        self.idx = if self.idx > 0 {
            self.idx - 1
        } else {
            self.options.len() - 1
        };
    }
}

proof fn lemma_none_first(ts: Seq<Tunnel>, exclude: Option<Seq<char>>)
    ensures
        tunnel_options(ts, exclude).len() > 0,
        tunnel_options(ts, exclude)[0].len() == 0,
    decreases ts.len(),
{
    if ts.len() > 0 {
        lemma_none_first(ts.drop_last(), exclude);
    }
}

proof fn lemma_no_vpn_first(ps: Seq<ProviderState>)
    ensures
        vpn_options(ps).len() > 0,
        vpn_options(ps)[0].len() == 0,
    decreases ps.len(),
{
    if ps.len() > 0 {
        lemma_no_vpn_first(ps.drop_last());
    }
}

/// Going on and going back undo each other.
pub proof fn law_next_and_prev_undo(i: int, n: int)
    requires
        0 <= i < n,
    ensures
        Picker::prev_idx(Picker::next_idx(i, n), n) == i,
        Picker::next_idx(Picker::prev_idx(i, n), n) == i,
{
}

/// A tunnel is never offered as the tunnel it depends on itself, unless it
/// already is.
pub proof fn law_never_its_own_dependency(ts: Seq<Tunnel>, name: Seq<char>, current: Seq<char>)
    requires
        name.len() > 0,
        current != name,
    ensures
        !with_current(tunnel_options(ts, Some(name)), current).contains(name),
{
    lemma_excluded(ts, name);
    let all = tunnel_options(ts, Some(name));
    let w = with_current(all, current);
    if w.contains(name) {
        let k = choose|k: int| 0 <= k < w.len() && w[k] == name;
        if k < all.len() {
            assert(all[k] == name);
        }
    }
}

proof fn lemma_excluded(ts: Seq<Tunnel>, name: Seq<char>)
    requires
        name.len() > 0,
    ensures
        forall|k: int|
            0 <= k < tunnel_options(ts, Some(name)).len() ==> #[trigger] tunnel_options(
                ts,
                Some(name),
            )[k] != name,
    decreases ts.len(),
{
    let all = tunnel_options(ts, Some(name));
    if ts.len() > 0 {
        lemma_excluded(ts.drop_last(), name);
        let before = tunnel_options(ts.drop_last(), Some(name));
        assert forall|k: int| 0 <= k < all.len() implies #[trigger] all[k] != name by {
            if k < before.len() {
                assert(all[k] == before[k]);
            }
        }
    }
}

}
