//! What holds of every activation plan.

use vstd::prelude::*;
use crate::list::lemma_first_where;
use crate::plan::{
    base_of, by_provider, chain_ok, collected, inserted, lemma_distinct_names_fit,
    lemma_tunnel_index, loops_at, merged, nth_base, of_kind, on_provider, provider_of, rank,
    slot_of, stack, tunnel_index, tunnels_first, vpn_jobs, without_any, Draft, Job, Lists,
};
use crate::types::{
    canonical_of, law_requirement_round_trip, lemma_need_ok, need_of, need_ok, Tunnel,
};
use crate::vpn::lemma_slug_plain;
use crate::vpn_view::kept;

verus! {

// ---------------------------------------------------------------------------
// VPN requirements
// ---------------------------------------------------------------------------

/// A written requirement in its stored form.
pub open spec fn req_ok(r: Seq<char>) -> bool {
    need_of(r) is Some && need_ok(need_of(r)->0) && canonical_of(need_of(r)->0) == r
}

/// The requirements of a plan: in their stored form, one per provider, and a
/// bare "any VPN" only by itself.
pub open spec fn vpn_ok(v: Seq<Seq<char>>) -> bool {
    &&& forall|i: int| 0 <= i < v.len() ==> req_ok(#[trigger] v[i])
    &&& forall|i: int, j: int|
        0 <= i < j < v.len() ==> provider_of(#[trigger] v[i]) != provider_of(#[trigger] v[j])
    &&& forall|i: int|
        0 <= i < v.len() && provider_of(#[trigger] v[i]) is None ==> v.len() == 1
}

/// Bringing up all of `v` gives a connection what it asks for.
pub open spec fn provided(v: Seq<Seq<char>>, want: Seq<char>) -> bool {
    match need_of(want) {
        None => true,
        Some(n) => match n.provider {
            None => v.len() > 0,
            Some(p) => exists|i: int|
                0 <= i < v.len() && provider_of(#[trigger] v[i]) == Some(p) && (n.profile is Some
                    ==> need_of(v[i]) == Some(n)),
        },
    }
}

proof fn lemma_star(r: Seq<char>)
    requires
        req_ok(r),
    ensures
        provider_of(r) is None <==> r == "*"@,
{
    reveal_strlit("*");
    reveal_strlit(":");
    let n = need_of(r)->0;
    match n.provider {
        Some(p) => {
            lemma_slug_plain(p);
            assert(r.len() > 1);
        },
        None => {},
    }
}

proof fn lemma_without_any(v: Seq<Seq<char>>)
    requires
        forall|i: int| 0 <= i < v.len() ==> #[trigger] v[i] != "*"@,
    ensures
        without_any(v) == v,
    decreases v.len(),
{
    if v.len() > 0 {
        assert(v.last() == v[v.len() - 1]);
        assert forall|i: int| 0 <= i < v.drop_last().len() implies #[trigger] v.drop_last()[i]
            != "*"@ by {
            assert(v.drop_last()[i] == v[i]);
        }
        lemma_without_any(v.drop_last());
        assert(v.drop_last().push(v.last()) =~= v);
    }
}

/// Without its bare "any VPN" a list is itself, or empty.
proof fn lemma_any_alone(v: Seq<Seq<char>>)
    requires
        vpn_ok(v),
    ensures
        vpn_ok(without_any(v)),
        without_any(v) == v || (without_any(v).len() == 0 && v.len() == 1 && provider_of(v[0])
            is None),
{
    assert forall|i: int| 0 <= i < v.len() implies (provider_of(v[i]) is None <==> #[trigger] v[i]
        == "*"@) by {
        lemma_star(v[i]);
    }
    if exists|i: int| 0 <= i < v.len() && #[trigger] v[i] == "*"@ {
        let i = choose|i: int| 0 <= i < v.len() && #[trigger] v[i] == "*"@;
        assert(provider_of(v[i]) is None);
        assert(v.len() == 1);
        assert(v[0] == v.last());
        assert(v.drop_last() =~= Seq::<Seq<char>>::empty());
        assert(without_any(v) == without_any(v.drop_last()));
    } else {
        lemma_without_any(v);
    }
}

/// Folding in one more requirement keeps the list in order, gives that
/// requirement what it asks for and takes nothing from the others.
pub proof fn lemma_merged(cur: Seq<Seq<char>>, want: Seq<char>)
    requires
        vpn_ok(cur),
        merged(cur, want) is Ok,
    ensures
        vpn_ok(merged(cur, want)->Ok_0),
        provided(merged(cur, want)->Ok_0, want),
        forall|w: Seq<char>| provided(cur, w) ==> #[trigger] provided(merged(cur, want)->Ok_0, w),
{
    let v = merged(cur, want)->Ok_0;
    lemma_need_ok(want);
    match need_of(want) {
        None => {},
        Some(n) => {
            law_requirement_round_trip(n);
            match n.provider {
                None => {
                    if cur.len() == 0 {
                        assert(v[0] == canonical_of(n));
                        assert(req_ok(v[0]));
                    }
                },
                Some(p) => {
                    let c = without_any(cur);
                    let line = canonical_of(n);
                    lemma_any_alone(cur);
                    lemma_first_where(c, on_provider(p));
                    let i = slot_of(c, p);
                    assert(req_ok(line) && provider_of(line) == Some(p));
                    assert(c.len() == 0 ==> v.len() == 1);
                    assert forall|k: int| 0 <= k < c.len() implies provider_of(#[trigger] c[k])
                        is Some by {
                        if provider_of(c[k]) is None {
                            assert(c == cur);
                            lemma_star(c[k]);
                            assert(c.len() == 1);
                            lemma_star_gone(cur, k);
                        }
                    }
                    if i == c.len() {
                        assert forall|a: int, b: int| 0 <= a < b < v.len() implies provider_of(
                            #[trigger] v[a],
                        ) != provider_of(#[trigger] v[b]) by {
                            if b == c.len() {
                                assert(!on_provider(p)(c[a]));
                            }
                        }
                        assert(v[c.len() as int] == line);
                        assert forall|w: Seq<char>| provided(cur, w) implies #[trigger] provided(
                            v,
                            w,
                        ) by {
                            lemma_provided_grows(cur, c, v, w);
                        }
                    } else {
                        assert(provider_of(c[i]) == Some(p));
                        assert(c.len() > 0);
                        assert(c == cur);
                        let have = need_of(c[i])->0;
                        assert(v[i] == c[i] || v[i] == line);
                        assert(v.len() == c.len());
                        assert forall|k: int| 0 <= k < v.len() && k != i implies #[trigger] v[k]
                            == c[k] by {}
                        assert(provider_of(v[i]) == Some(p));
                        assert forall|a: int, b: int| 0 <= a < b < v.len() implies provider_of(
                            #[trigger] v[a],
                        ) != provider_of(#[trigger] v[b]) by {
                            assert(provider_of(v[a]) == provider_of(c[a]));
                            assert(provider_of(v[b]) == provider_of(c[b]));
                        }
                        assert forall|k: int| 0 <= k < v.len() implies req_ok(#[trigger] v[k]) by {
                            if k != i {
                                assert(v[k] == c[k]);
                            }
                        }
                        if n.profile is Some && have.profile is Some {
                            assert(have == n);
                        }
                        assert forall|w: Seq<char>| provided(cur, w) implies #[trigger] provided(
                            v,
                            w,
                        ) by {
                            match need_of(w) {
                                None => {},
                                Some(m) => match m.provider {
                                    None => {},
                                    Some(q) => {
                                        let k = choose|k: int|
                                            0 <= k < cur.len() && provider_of(#[trigger] cur[k])
                                                == Some(q) && (m.profile is Some ==> need_of(cur[k])
                                                == Some(m));
                                        assert(provider_of(v[k]) == Some(q));
                                    },
                                },
                            }
                        }
                    }
                },
            }
        },
    }
}

/// A bare "any VPN" does not survive being taken out.
proof fn lemma_star_gone(cur: Seq<Seq<char>>, k: int)
    requires
        cur.len() == 1,
        k == 0,
        cur[k] == "*"@,
    ensures
        without_any(cur).len() == 0,
{
    assert(cur.last() == cur[0]);
    assert(cur.drop_last() =~= Seq::<Seq<char>>::empty());
    assert(without_any(cur) == without_any(cur.drop_last()));
}

proof fn lemma_provided_grows(
    cur: Seq<Seq<char>>,
    c: Seq<Seq<char>>,
    v: Seq<Seq<char>>,
    w: Seq<char>,
)
    requires
        provided(cur, w),
        c == cur || (c.len() == 0 && cur.len() == 1 && provider_of(cur[0]) is None),
        v.len() == c.len() + 1,
        forall|i: int| 0 <= i < c.len() ==> #[trigger] v[i] == c[i],
    ensures
        provided(v, w),
{
    match need_of(w) {
        None => {},
        Some(m) => match m.provider {
            None => {},
            Some(q) => {
                let k = choose|k: int|
                    0 <= k < cur.len() && provider_of(#[trigger] cur[k]) == Some(q) && (m.profile
                        is Some ==> need_of(cur[k]) == Some(m));
                assert(c == cur);
                assert(v[k] == c[k]);
            },
        },
    }
}

// ---------------------------------------------------------------------------
// Order of the VPN steps
// ---------------------------------------------------------------------------

/// Each requirement ranks below the next.
pub open spec fn in_provider_order(v: Seq<Seq<char>>) -> bool {
    forall|i: int, j: int| 0 <= i < j < v.len() ==> rank(#[trigger] v[i]) < rank(#[trigger] v[j])
}

/// The two lists hold the same texts.
pub open spec fn same_members(a: Seq<Seq<char>>, b: Seq<Seq<char>>) -> bool {
    &&& a.len() == b.len()
    &&& forall|x: Seq<char>|
        #![trigger a.contains(x)]
        #![trigger b.contains(x)]
        a.contains(x) <==> b.contains(x)
}

proof fn lemma_push_contains<T>(s: Seq<T>, y: T)
    ensures
        forall|x: T| #[trigger] s.push(y).contains(x) <==> s.contains(x) || x == y,
{
    assert forall|x: T| #[trigger] s.push(y).contains(x) <==> s.contains(x) || x == y by {
        if s.contains(x) {
            let i = choose|i: int| 0 <= i < s.len() && s[i] == x;
            assert(s.push(y)[i] == x);
        }
        if x == y {
            assert(s.push(y)[s.len() as int] == x);
        }
        if s.push(y).contains(x) {
            let i = choose|i: int| 0 <= i < s.push(y).len() && s.push(y)[i] == x;
            if i < s.len() {
                assert(s[i] == x);
            }
        }
    }
}

proof fn lemma_drop_last_contains<T>(s: Seq<T>)
    requires
        s.len() > 0,
    ensures
        forall|x: T| #[trigger] s.contains(x) <==> s.drop_last().contains(x) || x == s.last(),
{
    assert(s.drop_last().push(s.last()) =~= s);
    lemma_push_contains(s.drop_last(), s.last());
}

proof fn lemma_inserted(sorted: Seq<Seq<char>>, req: Seq<char>)
    requires
        in_provider_order(sorted),
        forall|i: int| 0 <= i < sorted.len() ==> rank(#[trigger] sorted[i]) != rank(req),
    ensures
        in_provider_order(inserted(sorted, req)),
        same_members(inserted(sorted, req), sorted.push(req)),
    decreases sorted.len(),
{
    let r = inserted(sorted, req);
    lemma_push_contains(sorted, req);
    if sorted.len() > 0 && rank(sorted.last()) > rank(req) {
        let head = sorted.drop_last();
        let low = inserted(head, req);
        assert forall|i: int| 0 <= i < head.len() implies rank(#[trigger] head[i]) != rank(req) by {
            assert(head[i] == sorted[i]);
        }
        assert(in_provider_order(head)) by {
            assert forall|i: int, j: int| 0 <= i < j < head.len() implies rank(#[trigger] head[i])
                < rank(#[trigger] head[j]) by {
                assert(head[i] == sorted[i] && head[j] == sorted[j]);
            }
        }
        lemma_inserted(head, req);
        lemma_push_contains(low, sorted.last());
        lemma_push_contains(head, req);
        lemma_drop_last_contains(sorted);
        assert forall|i: int, j: int| 0 <= i < j < r.len() implies rank(#[trigger] r[i]) < rank(
            #[trigger] r[j],
        ) by {
            if j == low.len() {
                assert(low.contains(low[i]));
                let x = low[i];
                assert(head.push(req).contains(x));
                if x != req {
                    assert(head.contains(x));
                    let k = choose|k: int| 0 <= k < head.len() && head[k] == x;
                    assert(head[k] == sorted[k]);
                    assert(sorted[k] == x);
                    assert(sorted.last() == sorted[sorted.len() - 1]);
                    assert(rank(sorted[k]) < rank(sorted[sorted.len() - 1]));
                }
            } else {
                assert(r[i] == low[i] && r[j] == low[j]);
            }
        }
    } else {
        assert forall|i: int, j: int| 0 <= i < j < r.len() implies rank(#[trigger] r[i]) < rank(
            #[trigger] r[j],
        ) by {
            if j == sorted.len() {
                assert(rank(sorted[i]) != rank(req));
                assert(sorted.last() == sorted[sorted.len() - 1]);
                if i < sorted.len() - 1 {
                    assert(rank(sorted[i]) < rank(sorted[sorted.len() - 1]));
                }
            } else {
                assert(r[i] == sorted[i] && r[j] == sorted[j]);
            }
        }
    }
}

proof fn lemma_rank_apart(a: Seq<char>, b: Seq<char>)
    requires
        provider_of(a) != provider_of(b),
    ensures
        rank(a) != rank(b),
{
}

pub proof fn lemma_by_provider(v: Seq<Seq<char>>)
    requires
        forall|i: int, j: int|
            0 <= i < j < v.len() ==> provider_of(#[trigger] v[i]) != provider_of(#[trigger] v[j]),
    ensures
        in_provider_order(by_provider(v)),
        same_members(by_provider(v), v),
    decreases v.len(),
{
    if v.len() > 0 {
        let head = v.drop_last();
        assert forall|i: int, j: int| 0 <= i < j < head.len() implies provider_of(
            #[trigger] head[i],
        ) != provider_of(#[trigger] head[j]) by {
            assert(head[i] == v[i] && head[j] == v[j]);
        }
        lemma_by_provider(head);
        let sorted = by_provider(head);
        assert forall|i: int| 0 <= i < sorted.len() implies rank(#[trigger] sorted[i]) != rank(
            v.last(),
        ) by {
            assert(sorted.contains(sorted[i]));
            assert(head.contains(sorted[i]));
            let k = choose|k: int| 0 <= k < head.len() && head[k] == sorted[i];
            assert(head[k] == v[k]);
            assert(v.last() == v[v.len() - 1]);
            assert(provider_of(v[k]) != provider_of(v[v.len() - 1]));
            lemma_rank_apart(v[k], v.last());
        }
        lemma_inserted(sorted, v.last());
        lemma_push_contains(sorted, v.last());
        lemma_drop_last_contains(v);
    }
}

// ---------------------------------------------------------------------------
// Order of the other steps
// ---------------------------------------------------------------------------

/// Whatever a step is stacked on comes before it.
pub open spec fn bottom_up(cat: Lists, steps: Seq<Job>) -> bool {
    forall|i: int|
        0 <= i < steps.len() && cat.requires_of_spec(#[trigger] steps[i]).1.len() > 0
            ==> steps.take(i).contains(Job::Tunnel(cat.requires_of_spec(steps[i]).1))
}

/// Every step has the VPN it asks for.
pub open spec fn all_provided(cat: Lists, d: Draft) -> bool {
    forall|i: int|
        0 <= i < d.steps.len() ==> provided(d.vpn, cat.requires_of_spec(#[trigger] d.steps[i]).0)
}

/// What holds of a plan while it is being put together.
pub open spec fn draft_ok(cat: Lists, d: Draft) -> bool {
    &&& vpn_ok(d.vpn)
    &&& d.steps.no_duplicates()
    &&& bottom_up(cat, d.steps)
    &&& all_provided(cat, d)
}

/// The later draft only added to the earlier one.
pub open spec fn grows(a: Draft, b: Draft) -> bool {
    &&& a.steps.len() <= b.steps.len()
    &&& b.steps.take(a.steps.len() as int) == a.steps
    &&& forall|w: Seq<char>| provided(a.vpn, w) ==> #[trigger] provided(b.vpn, w)
}

proof fn lemma_push_step(cat: Lists, d: Draft, j: Job)
    requires
        draft_ok(cat, d),
        !d.steps.contains(j),
        cat.requires_of_spec(j).1.len() > 0 ==> d.steps.contains(
            Job::Tunnel(cat.requires_of_spec(j).1),
        ),
        provided(d.vpn, cat.requires_of_spec(j).0),
    ensures
        draft_ok(cat, Draft { steps: d.steps.push(j), vpn: d.vpn }),
        grows(d, Draft { steps: d.steps.push(j), vpn: d.vpn }),
{
    let s = d.steps.push(j);
    assert(s.take(d.steps.len() as int) =~= d.steps);
    assert forall|i: int|
        0 <= i < s.len() && cat.requires_of_spec(#[trigger] s[i]).1.len() > 0 implies s.take(
        i,
    ).contains(Job::Tunnel(cat.requires_of_spec(s[i]).1)) by {
        if i < d.steps.len() {
            assert(s[i] == d.steps[i]);
            assert(s.take(i) =~= d.steps.take(i));
        }
    }
    assert forall|i: int| 0 <= i < s.len() implies provided(
        d.vpn,
        cat.requires_of_spec(#[trigger] s[i]).0,
    ) by {
        if i < d.steps.len() {
            assert(s[i] == d.steps[i]);
        }
    }
}

proof fn lemma_new_vpn(cat: Lists, d: Draft, want: Seq<char>)
    requires
        draft_ok(cat, d),
        merged(d.vpn, want) is Ok,
    ensures
        draft_ok(cat, Draft { steps: d.steps, vpn: merged(d.vpn, want)->Ok_0 }),
        grows(d, Draft { steps: d.steps, vpn: merged(d.vpn, want)->Ok_0 }),
        provided(merged(d.vpn, want)->Ok_0, want),
{
    lemma_merged(d.vpn, want);
    let e = Draft { steps: d.steps, vpn: merged(d.vpn, want)->Ok_0 };
    assert(d.steps.take(d.steps.len() as int) =~= d.steps);
    assert forall|i: int| 0 <= i < e.steps.len() implies provided(
        e.vpn,
        cat.requires_of_spec(#[trigger] e.steps[i]).0,
    ) by {
        assert(provided(d.vpn, cat.requires_of_spec(d.steps[i]).0));
    }
}

proof fn lemma_grows_trans(a: Draft, b: Draft, c: Draft)
    requires
        grows(a, b),
        grows(b, c),
    ensures
        grows(a, c),
{
    let n = a.steps.len() as int;
    assert(c.steps.take(n) =~= c.steps.take(b.steps.len() as int).take(n));
    assert forall|w: Seq<char>| provided(a.vpn, w) implies #[trigger] provided(c.vpn, w) by {
        assert(provided(b.vpn, w));
    }
}

proof fn lemma_collected(
    cat: Lists,
    name: Seq<char>,
    d: Draft,
    chain: Seq<Seq<char>>,
)
    requires
        draft_ok(cat, d),
        chain_ok(cat.tunnels, chain),
        collected(cat.tunnels, name, d, chain) is Ok,
    ensures
        ({
            let b = collected(cat.tunnels, name, d, chain)->Ok_0;
            &&& draft_ok(cat, b)
            &&& grows(d, b)
            &&& b.steps.contains(Job::Tunnel(name))
            &&& forall|c: Seq<char>|
                chain.contains(c) && #[trigger] b.steps.contains(Job::Tunnel(c))
                    ==> d.steps.contains(Job::Tunnel(c))
        }),
    decreases cat.tunnels.len() - chain.len(),
{
    let ts = cat.tunnels;
    let b = collected(ts, name, d, chain)->Ok_0;
    if d.steps.contains(Job::Tunnel(name)) {
        assert(d.steps.take(d.steps.len() as int) =~= d.steps);
    } else {
        lemma_tunnel_index(ts, name);
        let t = ts[tunnel_index(ts, name)];
        lemma_new_vpn(cat, d, t.requires_vpn@);
        let under = Draft { steps: d.steps, vpn: merged(d.vpn, t.requires_vpn@)->Ok_0 };
        let more = chain.push(name);
        assert(cat.requires_of_spec(Job::Tunnel(name)) == (t.requires_vpn@, t.depends_on@));
        assert(chain_ok(ts, more)) by {
            assert forall|i: int| 0 <= i < more.len() implies tunnel_index(ts, #[trigger] more[i])
                < ts.len() by {
                if i < chain.len() {
                    assert(more[i] == chain[i]);
                }
            }
            assert forall|i: int, j: int| 0 <= i < more.len() && 0 <= j < more.len() && i
                != j implies more[i] != more[j] by {
                if i == chain.len() {
                    assert(chain.contains(more[j]));
                } else if j == chain.len() {
                    assert(chain.contains(more[i]));
                }
            }
        }
        lemma_distinct_names_fit(ts, more);
        let below = if t.depends_on@.len() == 0 {
            under
        } else {
            collected(ts, t.depends_on@, under, more)->Ok_0
        };
        if t.depends_on@.len() > 0 {
            lemma_collected(cat, t.depends_on@, under, more);
        } else {
            assert(under.steps.take(under.steps.len() as int) =~= under.steps);
        }
        lemma_push_contains(chain, name);
        assert(more.contains(name));
        assert(!below.steps.contains(Job::Tunnel(name)));
        assert(provided(below.vpn, t.requires_vpn@));
        lemma_push_step(cat, below, Job::Tunnel(name));
        lemma_grows_trans(d, under, below);
        lemma_grows_trans(d, below, b);
        lemma_push_contains(below.steps, Job::Tunnel(name));
        assert forall|c: Seq<char>|
            chain.contains(c) && #[trigger] b.steps.contains(Job::Tunnel(c)) implies d.steps.contains(
            Job::Tunnel(c),
        ) by {
            assert(more.contains(c));
            assert(c != name);
            assert(below.steps.contains(Job::Tunnel(c)));
        }
    }
}

proof fn lemma_with_target(cat: Lists, d: Draft, target: Job)
    requires
        draft_ok(cat, d),
        cat.with_target(d, target) is Ok,
    ensures
        draft_ok(cat, cat.with_target(d, target)->Ok_0),
        grows(d, cat.with_target(d, target)->Ok_0),
        cat.with_target(d, target)->Ok_0.steps.contains(target),
{
    let needs = cat.requires_of_spec(target);
    lemma_new_vpn(cat, d, needs.0);
    let under = Draft { steps: d.steps, vpn: merged(d.vpn, needs.0)->Ok_0 };
    let chain = match target {
        Job::Tunnel(n) => seq![n],
        _ => Seq::empty(),
    };
    let below = if needs.1.len() == 0 {
        under
    } else {
        collected(cat.tunnels, needs.1, under, chain)->Ok_0
    };
    if needs.1.len() > 0 {
        assert(chain_ok(cat.tunnels, chain));
        lemma_collected(cat, needs.1, under, chain);
    } else {
        assert(under.steps.take(under.steps.len() as int) =~= under.steps);
    }
    lemma_grows_trans(d, under, below);
    if !below.steps.contains(target) {
        lemma_push_step(cat, below, target);
        let b = Draft { steps: below.steps.push(target), vpn: below.vpn };
        lemma_grows_trans(d, below, b);
        lemma_push_contains(below.steps, target);
    }
}

pub proof fn lemma_gathered(cat: Lists, targets: Seq<Job>)
    requires
        cat.gathered(targets) is Ok,
    ensures
        draft_ok(cat, cat.gathered(targets)->Ok_0),
        forall|i: int|
            0 <= i < targets.len() ==> cat.gathered(targets)->Ok_0.steps.contains(
                #[trigger] targets[i],
            ),
    decreases targets.len(),
{
    if targets.len() > 0 {
        let head = targets.drop_last();
        lemma_gathered(cat, head);
        let d = cat.gathered(head)->Ok_0;
        lemma_with_target(cat, d, targets.last());
        let e = cat.gathered(targets)->Ok_0;
        assert forall|i: int| 0 <= i < targets.len() implies e.steps.contains(
            #[trigger] targets[i],
        ) by {
            if i < head.len() {
                assert(targets[i] == head[i]);
                let k = choose|k: int| 0 <= k < d.steps.len() && d.steps[k] == head[i];
                assert(e.steps.take(d.steps.len() as int)[k] == d.steps[k]);
                assert(e.steps[k] == targets[i]);
            }
        }
    }
}

pub proof fn lemma_kept_contains<T>(s: Seq<T>, p: spec_fn(T) -> bool)
    ensures
        forall|x: T| #[trigger] kept(s, p).contains(x) <==> s.contains(x) && p(x),
        s.no_duplicates() ==> kept(s, p).no_duplicates(),
    decreases s.len(),
{
    if s.len() > 0 {
        let head = s.drop_last();
        lemma_kept_contains(head, p);
        lemma_drop_last_contains(s);
        lemma_push_contains(kept(head, p), s.last());
        if s.no_duplicates() {
            assert(!head.contains(s.last())) by {
                if head.contains(s.last()) {
                    let i = choose|i: int| 0 <= i < head.len() && head[i] == s.last();
                    assert(s[i] == s[s.len() - 1]);
                }
            }
            assert(head.no_duplicates());
            assert forall|i: int, j: int|
                0 <= i < kept(s, p).len() && 0 <= j < kept(s, p).len() && i != j implies kept(
                s,
                p,
            )[i] != kept(s, p)[j] by {
                let k = kept(head, p);
                if i < k.len() {
                    assert(k.contains(k[i]));
                }
                if j < k.len() {
                    assert(k.contains(k[j]));
                }
            }
        }
    }
}

/// No step that is not a tunnel stands before one that is.
pub open spec fn tunnels_lead(steps: Seq<Job>) -> bool {
    forall|i: int, j: int|
        0 <= i < j < steps.len() && #[trigger] steps[j] is Tunnel ==> #[trigger] steps[i] is Tunnel
}

/// The tunnels keep their order among themselves.
proof fn lemma_tunnels_bottom_up(cat: Lists, steps: Seq<Job>)
    requires
        bottom_up(cat, steps),
    ensures
        bottom_up(cat, kept(steps, of_kind(true))),
    decreases steps.len(),
{
    if steps.len() > 0 {
        let head = steps.drop_last();
        let p = of_kind(true);
        assert(bottom_up(cat, head)) by {
            assert forall|i: int|
                0 <= i < head.len() && cat.requires_of_spec(#[trigger] head[i]).1.len()
                    > 0 implies head.take(i).contains(
                Job::Tunnel(cat.requires_of_spec(head[i]).1),
            ) by {
                assert(head[i] == steps[i]);
                assert(head.take(i) =~= steps.take(i));
            }
        }
        lemma_tunnels_bottom_up(cat, head);
        lemma_kept_contains(head, p);
        let k = kept(head, p);
        let r = kept(steps, p);
        assert(steps.take(steps.len() - 1) =~= head);
        assert(steps[steps.len() - 1] == steps.last());
        assert forall|i: int|
            0 <= i < r.len() && cat.requires_of_spec(#[trigger] r[i]).1.len() > 0 implies r.take(
            i,
        ).contains(Job::Tunnel(cat.requires_of_spec(r[i]).1)) by {
            if i < k.len() {
                assert(r[i] == k[i]);
                assert(r.take(i) =~= k.take(i));
            } else {
                assert(r.take(i) =~= k);
            }
        }
    }
}

pub proof fn lemma_tunnels_first(cat: Lists, d: Draft)
    requires
        draft_ok(cat, d),
    ensures
        ({
            let s = tunnels_first(d.steps);
            &&& s.no_duplicates()
            &&& bottom_up(cat, s)
            &&& tunnels_lead(s)
            &&& forall|x: Job| #[trigger] s.contains(x) <==> d.steps.contains(x)
        }),
{
    let a = kept(d.steps, of_kind(true));
    let b = kept(d.steps, of_kind(false));
    let s = a + b;
    lemma_kept_contains(d.steps, of_kind(true));
    lemma_kept_contains(d.steps, of_kind(false));
    assert forall|x: Job| #[trigger] s.contains(x) <==> d.steps.contains(x) by {
        if s.contains(x) {
            let i = choose|i: int| 0 <= i < s.len() && s[i] == x;
            if i < a.len() {
                assert(a[i] == x);
                assert(a.contains(x));
            } else {
                assert(b[i - a.len()] == x);
                assert(b.contains(x));
            }
        }
        if d.steps.contains(x) {
            if x is Tunnel {
                assert(a.contains(x));
                let i = choose|i: int| 0 <= i < a.len() && a[i] == x;
                assert(s[i] == x);
            } else {
                assert(b.contains(x));
                let i = choose|i: int| 0 <= i < b.len() && b[i] == x;
                assert(s[a.len() + i] == x);
            }
        }
    }
    assert forall|i: int| 0 <= i < a.len() implies #[trigger] s[i] is Tunnel by {
        assert(a.contains(a[i]));
    }
    assert forall|i: int| a.len() <= i < s.len() implies !(#[trigger] s[i] is Tunnel) by {
        assert(b.contains(b[i - a.len()]));
    }
    assert(s.no_duplicates()) by {
        assert forall|i: int, j: int|
            0 <= i < s.len() && 0 <= j < s.len() && i != j implies s[i] != s[j] by {
            if i < a.len() && j < a.len() {
                assert(a[i] != a[j]);
            } else if i >= a.len() && j >= a.len() {
                assert(b[i - a.len()] != b[j - a.len()]);
            }
        }
    }
    lemma_tunnels_bottom_up(cat, d.steps);
    assert forall|i: int|
        0 <= i < s.len() && cat.requires_of_spec(#[trigger] s[i]).1.len() > 0 implies s.take(
        i,
    ).contains(Job::Tunnel(cat.requires_of_spec(s[i]).1)) by {
        let under = Job::Tunnel(cat.requires_of_spec(s[i]).1);
        if i < a.len() {
            assert(s[i] == a[i]);
            assert(s.take(i) =~= a.take(i));
        } else {
            assert(d.steps.contains(s[i])) by {
                assert(s.contains(s[i]));
            }
            let k = choose|k: int| 0 <= k < d.steps.len() && d.steps[k] == s[i];
            let before = d.steps.take(k);
            let m = choose|m: int| 0 <= m < before.len() && before[m] == under;
            assert(d.steps[m] == under);
            assert(d.steps.contains(under));
            assert(a.contains(under));
            let n = choose|n: int| 0 <= n < a.len() && a[n] == under;
            assert(s.take(i)[n] == under);
        }
    }
}

/// What a plan promises.
///
/// The VPNs come first, in the order of the providers and one for each of them,
/// and together they give every step the VPN it asks for. Then come the tunnels,
/// none before the one it is stacked on, and then the sessions. Each step is there
/// once, and every target is among them.
pub proof fn law_plan(cat: Lists, targets: Seq<Job>)
    requires
        cat.plan(targets) is Ok,
    ensures
        ({
            let d = cat.gathered(targets)->Ok_0;
            let v = by_provider(d.vpn);
            let steps = tunnels_first(d.steps);
            &&& cat.plan(targets)->Ok_0 == vpn_jobs(v) + steps
            &&& in_provider_order(v)
            &&& forall|i: int|
                0 <= i < steps.len() ==> provided(v, cat.requires_of_spec(#[trigger] steps[i]).0)
            &&& steps.no_duplicates()
            &&& forall|i: int| 0 <= i < targets.len() ==> steps.contains(#[trigger] targets[i])
            &&& bottom_up(cat, steps)
            &&& tunnels_lead(steps)
        }),
{
    lemma_gathered(cat, targets);
    let d = cat.gathered(targets)->Ok_0;
    let v = by_provider(d.vpn);
    let steps = tunnels_first(d.steps);
    lemma_tunnels_first(cat, d);
    lemma_by_provider(d.vpn);
    assert forall|i: int| 0 <= i < steps.len() implies provided(
        v,
        cat.requires_of_spec(#[trigger] steps[i]).0,
    ) by {
        assert(steps.contains(steps[i]));
        let k = choose|k: int| 0 <= k < d.steps.len() && d.steps[k] == steps[i];
        lemma_provided_permutes(d.vpn, v, cat.requires_of_spec(d.steps[k]).0);
    }
}

proof fn lemma_provided_permutes(a: Seq<Seq<char>>, b: Seq<Seq<char>>, w: Seq<char>)
    requires
        same_members(b, a),
        provided(a, w),
    ensures
        provided(b, w),
{
    match need_of(w) {
        None => {},
        Some(m) => match m.provider {
            None => {},
            Some(q) => {
                let k = choose|k: int|
                    0 <= k < a.len() && provider_of(#[trigger] a[k]) == Some(q) && (m.profile
                        is Some ==> need_of(a[k]) == Some(m));
                assert(a.contains(a[k]));
                assert(b.contains(a[k]));
                let i = choose|i: int| 0 <= i < b.len() && b[i] == a[k];
                assert(provider_of(b[i]) == Some(q));
            },
        },
    }
}

/// A plan never holds a tunnel whose stack comes back on itself: such a loop is
/// reported instead.
pub proof fn law_no_plan_for_a_cycle(cat: Lists, targets: Seq<Job>, name: Seq<char>, k: nat)
    requires
        targets.contains(Job::Tunnel(name)),
        loops_at(cat.tunnels, name, k),
    ensures
        cat.plan(targets) is Err,
{
    if cat.plan(targets) is Ok {
        law_plan(cat, targets);
        let steps = tunnels_first(cat.gathered(targets)->Ok_0.steps);
        let ts = cat.tunnels;
        let i = choose|i: int| 0 <= i < targets.len() && targets[i] == Job::Tunnel(name);
        assert(steps.contains(targets[i]));
        let at = choose|at: int| 0 <= at < steps.len() && steps[at] == Job::Tunnel(name);
        lemma_down_the_stack(cat, steps, name, at, k);
        let path = stack(ts, name, (k - 1) as nat);
        let end = nth_base(ts, name, k);
        let j = choose|j: int| 0 <= j < path.len() && path[j] == end;
        assert(path[j] == nth_base(ts, name, j as nat));
        let here = place(cat, steps, name, k);
        let there = place(cat, steps, name, j as nat);
        lemma_places(cat, steps, name, at, j as nat, k);
        assert(steps[here] == steps[there]);
    }
}

/// Where the name `k` steps down the stack stands in the plan.
spec fn place(cat: Lists, steps: Seq<Job>, name: Seq<char>, k: nat) -> int {
    choose|i: int| 0 <= i < steps.len() && #[trigger] steps[i] == Job::Tunnel(
        nth_base(cat.tunnels, name, k),
    )
}

proof fn lemma_down_the_stack(cat: Lists, steps: Seq<Job>, name: Seq<char>, at: int, k: nat)
    requires
        bottom_up(cat, steps),
        steps.no_duplicates(),
        0 <= at < steps.len(),
        steps[at] == Job::Tunnel(name),
        forall|i: nat| 1 <= i <= k ==> (#[trigger] nth_base(cat.tunnels, name, i)).len() > 0,
    ensures
        0 <= place(cat, steps, name, k) < steps.len(),
        steps[place(cat, steps, name, k)] == Job::Tunnel(nth_base(cat.tunnels, name, k)),
        k > 0 ==> place(cat, steps, name, k) < place(cat, steps, name, (k - 1) as nat),
    decreases k,
{
    if k > 0 {
        lemma_down_the_stack(cat, steps, name, at, (k - 1) as nat);
        let p = place(cat, steps, name, (k - 1) as nat);
        let above = nth_base(cat.tunnels, name, (k - 1) as nat);
        let here = nth_base(cat.tunnels, name, k);
        assert(here == base_of(cat.tunnels, above));
        lemma_tunnel_index(cat.tunnels, above);
        assert(cat.requires_of_spec(steps[p]).1 == here);
        assert(here.len() > 0);
        let before = steps.take(p);
        let i = choose|i: int| 0 <= i < before.len() && before[i] == Job::Tunnel(here);
        assert(steps[i] == Job::Tunnel(here));
        let q = place(cat, steps, name, k);
        assert(steps[q] == Job::Tunnel(here));
        assert(q == i);
    }
}

proof fn lemma_places(cat: Lists, steps: Seq<Job>, name: Seq<char>, at: int, j: nat, k: nat)
    requires
        bottom_up(cat, steps),
        steps.no_duplicates(),
        0 <= at < steps.len(),
        steps[at] == Job::Tunnel(name),
        forall|i: nat| 1 <= i <= k ==> (#[trigger] nth_base(cat.tunnels, name, i)).len() > 0,
        j < k,
    ensures
        place(cat, steps, name, k) < place(cat, steps, name, j),
        0 <= place(cat, steps, name, j) < steps.len(),
        steps[place(cat, steps, name, j)] == Job::Tunnel(nth_base(cat.tunnels, name, j)),
    decreases k,
{
    lemma_down_the_stack(cat, steps, name, at, k);
    lemma_down_the_stack(cat, steps, name, at, j);
    if j < k - 1 {
        lemma_places(cat, steps, name, at, j, (k - 1) as nat);
    }
}

}
