//! What a plan owes to the connections in it, in terms of what their own records
//! say: every requirement is met before it is needed, nothing else is brought up,
//! and a plan is refused only where no order of steps could meet them all.

use vstd::prelude::*;
use crate::list::{lemma_first_where, lemma_first_where_is};
use crate::plan::{
    by_provider, collected, merged, provider_of, rdp_index, rdp_named, slot_of, ssh_index,
    ssh_named, tunnel_index, tunnel_named, tunnels_first, on_provider, vpn_jobs, without_any,
    Draft, Job, Lists,
};
use crate::plan_laws::{lemma_gathered, lemma_tunnels_first, law_plan, provided};
use crate::types::{
    canonical_of, law_requirement_round_trip, lemma_need_ok, need_of, Need, RdpConnection, SshHost,
    Tunnel,
};
use crate::vpn::ProviderId;

verus! {

// ---------------------------------------------------------------------------
// What a record asks for
// ---------------------------------------------------------------------------

/// The record at `k` is the one that goes by that name: of two of one name the
/// first counts.
pub open spec fn tunnel_at(ts: Seq<Tunnel>, name: Seq<char>, k: int) -> bool {
    &&& 0 <= k < ts.len()
    &&& ts[k].name@ == name
    &&& forall|i: int| 0 <= i < k ==> (#[trigger] ts[i]).name@ != name
}

pub open spec fn host_at(hs: Seq<SshHost>, name: Seq<char>, k: int) -> bool {
    &&& 0 <= k < hs.len()
    &&& hs[k].name@ == name
    &&& forall|i: int| 0 <= i < k ==> (#[trigger] hs[i]).name@ != name
}

pub open spec fn desktop_at(cs: Seq<RdpConnection>, name: Seq<char>, k: int) -> bool {
    &&& 0 <= k < cs.len()
    &&& cs[k].name@ == name
    &&& forall|i: int| 0 <= i < k ==> (#[trigger] cs[i]).name@ != name
}

/// The record that a step stands for says `vpn` and `dep` in its `requires_vpn`
/// and its `depends_on`.
pub open spec fn asks(cat: Lists, j: Job, vpn: Seq<char>, dep: Seq<char>) -> bool {
    match j {
        Job::Vpn(_) => false,
        Job::Tunnel(n) => exists|k: int|
            (#[trigger] tunnel_at(cat.tunnels, n, k)) && cat.tunnels[k].requires_vpn@ == vpn
                && cat.tunnels[k].depends_on@ == dep,
        Job::Ssh(n) => exists|k: int|
            (#[trigger] host_at(cat.ssh_hosts, n, k)) && cat.ssh_hosts[k].requires_vpn@ == vpn
                && cat.ssh_hosts[k].depends_on@ == dep,
        Job::Rdp(n, _) => exists|k: int|
            (#[trigger] desktop_at(cat.rdp_conns, n, k)) && cat.rdp_conns[k].requires_vpn@ == vpn
                && cat.rdp_conns[k].depends_on@ == dep,
    }
}

/// A VPN that is up by the first requirement also meets the second.
pub open spec fn meets(up: Need, want: Need) -> bool {
    &&& want.provider is Some ==> up.provider == want.provider
    &&& want.profile is Some ==> up.profile == want.profile
}

proof fn lemma_tunnel_at(cat: Lists, n: Seq<char>, k: int)
    requires
        tunnel_at(cat.tunnels, n, k),
    ensures
        tunnel_index(cat.tunnels, n) == k,
        asks(cat, Job::Tunnel(n), cat.tunnels[k].requires_vpn@, cat.tunnels[k].depends_on@),
{
    lemma_first_where_is(cat.tunnels, tunnel_named(n), k);
    let j = Job::Tunnel(n);
    assert(tunnel_at(cat.tunnels, j->Tunnel_0, k));
}

proof fn lemma_asks(cat: Lists, j: Job, vpn: Seq<char>, dep: Seq<char>)
    requires
        asks(cat, j, vpn, dep),
    ensures
        cat.requires_of_spec(j) == (vpn, dep),
{
    match j {
        Job::Vpn(_) => {},
        Job::Tunnel(n) => {
            let k = choose|k: int|
                (#[trigger] tunnel_at(cat.tunnels, n, k)) && cat.tunnels[k].requires_vpn@ == vpn
                    && cat.tunnels[k].depends_on@ == dep;
            lemma_first_where_is(cat.tunnels, tunnel_named(n), k);
        },
        Job::Ssh(n) => {
            let k = choose|k: int|
                (#[trigger] host_at(cat.ssh_hosts, n, k)) && cat.ssh_hosts[k].requires_vpn@ == vpn
                    && cat.ssh_hosts[k].depends_on@ == dep;
            lemma_first_where_is(cat.ssh_hosts, ssh_named(n), k);
        },
        Job::Rdp(n, _) => {
            let k = choose|k: int|
                (#[trigger] desktop_at(cat.rdp_conns, n, k)) && cat.rdp_conns[k].requires_vpn@ == vpn
                    && cat.rdp_conns[k].depends_on@ == dep;
            lemma_first_where_is(cat.rdp_conns, rdp_named(n), k);
        },
    }
}

/// What is looked up for a step is what its record says; nothing, where it has
/// no record.
proof fn lemma_asked(cat: Lists, j: Job)
    ensures
        asks(cat, j, cat.requires_of_spec(j).0, cat.requires_of_spec(j).1)
            || cat.requires_of_spec(j) == (Seq::<char>::empty(), Seq::<char>::empty()),
{
    match j {
        Job::Vpn(_) => {},
        Job::Tunnel(n) => {
            let p = tunnel_named(n);
            let k = tunnel_index(cat.tunnels, n);
            lemma_first_where(cat.tunnels, p);
            if k < cat.tunnels.len() {
                assert forall|i: int| 0 <= i < k implies (#[trigger] cat.tunnels[i]).name@ != n by {
                    assert(!p(cat.tunnels[i]));
                }
                assert(p(cat.tunnels[k]));
                assert(tunnel_at(cat.tunnels, n, k));
            }
        },
        Job::Ssh(n) => {
            let p = ssh_named(n);
            let k = ssh_index(cat.ssh_hosts, n);
            lemma_first_where(cat.ssh_hosts, p);
            if k < cat.ssh_hosts.len() {
                assert forall|i: int| 0 <= i < k implies (#[trigger] cat.ssh_hosts[i]).name@
                    != n by {
                    assert(!p(cat.ssh_hosts[i]));
                }
                assert(p(cat.ssh_hosts[k]));
                assert(host_at(cat.ssh_hosts, n, k));
            }
        },
        Job::Rdp(n, _) => {
            let p = rdp_named(n);
            let k = rdp_index(cat.rdp_conns, n);
            lemma_first_where(cat.rdp_conns, p);
            if k < cat.rdp_conns.len() {
                assert forall|i: int| 0 <= i < k implies (#[trigger] cat.rdp_conns[i]).name@
                    != n by {
                    assert(!p(cat.rdp_conns[i]));
                }
                assert(p(cat.rdp_conns[k]));
                assert(desktop_at(cat.rdp_conns, n, k));
            }
        },
    }
}

// ---------------------------------------------------------------------------
// Nothing is missing
// ---------------------------------------------------------------------------

/// Every target of a plan is in it.
pub proof fn law_every_target_is_planned(cat: Lists, targets: Seq<Job>, j: Job)
    requires
        cat.plan(targets) is Ok,
        targets.contains(j),
    ensures
        cat.plan(targets)->Ok_0.contains(j),
{
    law_plan(cat, targets);
    let d = cat.gathered(targets)->Ok_0;
    let v = vpn_jobs(by_provider(d.vpn));
    let steps = tunnels_first(d.steps);
    let i = choose|i: int| 0 <= i < targets.len() && targets[i] == j;
    assert(steps.contains(targets[i]));
    let k = choose|k: int| 0 <= k < steps.len() && steps[k] == j;
    assert((v + steps)[v.len() + k] == j);
}

/// Wherever a connection stands in a plan, the tunnel that its record is stacked
/// on stands before it, and so does a VPN that meets what its record requires.
pub proof fn law_needs_come_first(
    cat: Lists,
    targets: Seq<Job>,
    at: int,
    vpn: Seq<char>,
    dep: Seq<char>,
)
    requires
        cat.plan(targets) is Ok,
        0 <= at < cat.plan(targets)->Ok_0.len(),
        asks(cat, cat.plan(targets)->Ok_0[at], vpn, dep),
    ensures
        dep.len() > 0 ==> exists|i: int|
            0 <= i < at && #[trigger] cat.plan(targets)->Ok_0[i] == Job::Tunnel(dep),
        need_of(vpn) is Some ==> exists|i: int|
            0 <= i < at && (#[trigger] cat.plan(targets)->Ok_0[i]) is Vpn && need_of(
                cat.plan(targets)->Ok_0[i]->Vpn_0,
            ) is Some && meets(need_of(cat.plan(targets)->Ok_0[i]->Vpn_0)->0, need_of(vpn)->0),
{
    law_plan(cat, targets);
    let p = cat.plan(targets)->Ok_0;
    let d = cat.gathered(targets)->Ok_0;
    let v = by_provider(d.vpn);
    let steps = tunnels_first(d.steps);
    lemma_asks(cat, p[at], vpn, dep);
    let front = v.len() as int;
    if at < front {
        assert(p[at] == Job::Vpn(v[at]));
        assert(false);
    }
    let k = at - front;
    assert(p[at] == steps[k]);
    assert(provided(v, vpn));
    if dep.len() > 0 {
        assert(steps.take(k).contains(Job::Tunnel(dep)));
        let i = choose|i: int| 0 <= i < k && steps.take(k)[i] == Job::Tunnel(dep);
        assert(p[front + i] == Job::Tunnel(dep));
    }
    if need_of(vpn) is Some {
        let n = need_of(vpn)->0;
        lemma_need_ok(vpn);
        match n.provider {
            None => {
                assert(p[0] == Job::Vpn(v[0]));
                lemma_listed_needs(cat, targets, 0);
            },
            Some(q) => {
                let i = choose|i: int|
                    0 <= i < v.len() && provider_of(#[trigger] v[i]) == Some(q) && (n.profile
                        is Some ==> need_of(v[i]) == Some(n));
                assert(p[i] == Job::Vpn(v[i]));
            },
        }
    }
}

// ---------------------------------------------------------------------------
// Nothing is there without a reason
// ---------------------------------------------------------------------------

/// Some step among these names that tunnel as what it is stacked on.
spec fn leaned_on(cat: Lists, steps: Seq<Job>, name: Seq<char>) -> bool {
    exists|s: int|
        0 <= s < steps.len() && cat.requires_of_spec(#[trigger] steps[s]).1 == name && name.len()
            > 0
}

spec fn wants_vpn(cat: Lists, j: Job, r: Seq<char>) -> bool {
    let want = need_of(cat.requires_of_spec(j).0);
    want is Some && canonical_of(want->0) == r
}

/// Some step among these requires that VPN.
spec fn vpn_wanted(cat: Lists, steps: Seq<Job>, r: Seq<char>) -> bool {
    exists|s: int| 0 <= s < steps.len() && wants_vpn(cat, #[trigger] steps[s], r)
}

proof fn lemma_without_any_from(v: Seq<Seq<char>>, r: Seq<char>)
    requires
        without_any(v).contains(r),
    ensures
        v.contains(r),
    decreases v.len(),
{
    if v.len() > 0 {
        let head = v.drop_last();
        let w = without_any(v);
        let i = choose|i: int| 0 <= i < w.len() && w[i] == r;
        if v.last() != "*"@ && i == w.len() - 1 {
            assert(v[v.len() - 1] == r);
        } else {
            assert(without_any(head)[i] == r);
            lemma_without_any_from(head, r);
            let k = choose|k: int| 0 <= k < head.len() && head[k] == r;
            assert(v[k] == r);
        }
    }
}

proof fn lemma_merged_from(cur: Seq<Seq<char>>, want: Seq<char>, r: Seq<char>)
    requires
        merged(cur, want) is Ok,
        merged(cur, want)->Ok_0.contains(r),
    ensures
        cur.contains(r) || (need_of(want) is Some && canonical_of(need_of(want)->0) == r),
{
    let v = merged(cur, want)->Ok_0;
    let i = choose|i: int| 0 <= i < v.len() && v[i] == r;
    match need_of(want) {
        None => {},
        Some(n) => match n.provider {
            None => {
                if cur.len() > 0 {
                    assert(cur.contains(r));
                }
            },
            Some(p) => {
                let c = without_any(cur);
                lemma_first_where(c, on_provider(p));
                if r != canonical_of(n) {
                    assert(i < c.len());
                    assert(c[i] == r);
                    lemma_without_any_from(cur, r);
                }
            },
        },
    }
}

spec fn begins(a: Seq<Job>, b: Seq<Job>) -> bool {
    &&& a.len() <= b.len()
    &&& forall|i: int| 0 <= i < a.len() ==> #[trigger] b[i] == a[i]
}

proof fn lemma_reasons_last(cat: Lists, a: Seq<Job>, b: Seq<Job>)
    requires
        begins(a, b),
    ensures
        forall|m: Seq<char>| leaned_on(cat, a, m) ==> #[trigger] leaned_on(cat, b, m),
        forall|r: Seq<char>| vpn_wanted(cat, a, r) ==> #[trigger] vpn_wanted(cat, b, r),
{
    assert forall|m: Seq<char>| leaned_on(cat, a, m) implies #[trigger] leaned_on(cat, b, m) by {
        let s = choose|s: int|
            0 <= s < a.len() && cat.requires_of_spec(#[trigger] a[s]).1 == m && m.len() > 0;
        assert(b[s] == a[s]);
    }
    assert forall|r: Seq<char>| vpn_wanted(cat, a, r) implies #[trigger] vpn_wanted(cat, b, r) by {
        let s = choose|s: int| 0 <= s < a.len() && wants_vpn(cat, #[trigger] a[s], r);
        assert(b[s] == a[s]);
    }
}

/// What was put behind the earlier steps has a reason: it is the tunnel asked
/// for, or a later step is stacked on it.
spec fn reasoned(cat: Lists, d: Draft, b: Draft, name: Seq<char>) -> bool {
    &&& begins(d.steps, b.steps)
    &&& forall|i: int|
        d.steps.len() <= i < b.steps.len() ==> (#[trigger] b.steps[i]) is Tunnel && tunnel_index(
            cat.tunnels,
            b.steps[i]->Tunnel_0,
        ) < cat.tunnels.len() && (b.steps[i]->Tunnel_0 == name || leaned_on(
            cat,
            b.steps,
            b.steps[i]->Tunnel_0,
        ))
    &&& forall|r: Seq<char>| #[trigger]
        b.vpn.contains(r) ==> d.vpn.contains(r) || vpn_wanted(cat, b.steps, r)
}

proof fn lemma_collected_reasons(cat: Lists, name: Seq<char>, d: Draft, chain: Seq<Seq<char>>)
    requires
        collected(cat.tunnels, name, d, chain) is Ok,
    ensures
        reasoned(cat, d, collected(cat.tunnels, name, d, chain)->Ok_0, name),
        collected(cat.tunnels, name, d, chain)->Ok_0.steps.contains(Job::Tunnel(name)),
    decreases cat.tunnels.len() - chain.len(),
{
    let ts = cat.tunnels;
    let b = collected(ts, name, d, chain)->Ok_0;
    if !d.steps.contains(Job::Tunnel(name)) {
        lemma_first_where(ts, tunnel_named(name));
        let t = ts[tunnel_index(ts, name)];
        let under = Draft { steps: d.steps, vpn: merged(d.vpn, t.requires_vpn@)->Ok_0 };
        let below = if t.depends_on@.len() == 0 || chain.len() >= ts.len() {
            under
        } else {
            collected(ts, t.depends_on@, under, chain.push(name))->Ok_0
        };
        if !(t.depends_on@.len() == 0 || chain.len() >= ts.len()) {
            lemma_collected_reasons(cat, t.depends_on@, under, chain.push(name));
        }
        assert(begins(below.steps, b.steps));
        lemma_reasons_last(cat, below.steps, b.steps);
        let last = below.steps.len() as int;
        assert(b.steps[last] == Job::Tunnel(name));
        assert(cat.requires_of_spec(b.steps[last]) == (t.requires_vpn@, t.depends_on@));
        assert forall|i: int| d.steps.len() <= i < b.steps.len() implies (
        #[trigger] b.steps[i]) is Tunnel && tunnel_index(ts, b.steps[i]->Tunnel_0) < ts.len() && (
        b.steps[i]->Tunnel_0 == name || leaned_on(cat, b.steps, b.steps[i]->Tunnel_0)) by {
            if i < last {
                assert(b.steps[i] == below.steps[i]);
                if below.steps[i]->Tunnel_0 == t.depends_on@ {
                    assert(cat.requires_of_spec(b.steps[last]).1 == t.depends_on@);
                    assert(leaned_on(cat, b.steps, t.depends_on@));
                }
            }
        }
        assert forall|r: Seq<char>| #[trigger] b.vpn.contains(r) implies d.vpn.contains(r)
            || vpn_wanted(cat, b.steps, r) by {
            if !vpn_wanted(cat, b.steps, r) {
                assert(below.vpn.contains(r));
                assert(!vpn_wanted(cat, below.steps, r));
                assert(under.vpn.contains(r));
                lemma_merged_from(d.vpn, t.requires_vpn@, r);
                if !d.vpn.contains(r) {
                    assert(wants_vpn(cat, b.steps[last], r));
                }
            }
        }
    }
}

/// What holds of every gathered draft.
spec fn all_reasoned(cat: Lists, targets: Seq<Job>, d: Draft) -> bool {
    &&& forall|i: int|
        0 <= i < d.steps.len() ==> targets.contains(#[trigger] d.steps[i]) || (d.steps[i] is Tunnel
            && tunnel_index(cat.tunnels, d.steps[i]->Tunnel_0) < cat.tunnels.len() && leaned_on(
            cat,
            d.steps,
            d.steps[i]->Tunnel_0,
        ))
    &&& forall|r: Seq<char>| #[trigger] d.vpn.contains(r) ==> vpn_wanted(cat, d.steps, r)
}

proof fn lemma_gathered_reasons(cat: Lists, targets: Seq<Job>)
    requires
        cat.gathered(targets) is Ok,
    ensures
        all_reasoned(cat, targets, cat.gathered(targets)->Ok_0),
    decreases targets.len(),
{
    if targets.len() > 0 {
        let head = targets.drop_last();
        let target = targets.last();
        lemma_gathered_reasons(cat, head);
        let d = cat.gathered(head)->Ok_0;
        let e = cat.gathered(targets)->Ok_0;
        let needs = cat.requires_of_spec(target);
        let under = Draft { steps: d.steps, vpn: merged(d.vpn, needs.0)->Ok_0 };
        let chain = match target {
            Job::Tunnel(n) => seq![n],
            _ => Seq::empty(),
        };
        let below = if needs.1.len() == 0 {
            under
        } else {
            collected(cat.tunnels, needs.1, under, chain)->Ok_0
        };
        if needs.1.len() > 0 {
            lemma_collected_reasons(cat, needs.1, under, chain);
        }
        assert(targets[targets.len() - 1] == target);
        assert forall|j: Job| head.contains(j) implies #[trigger] targets.contains(j) by {
            let i = choose|i: int| 0 <= i < head.len() && head[i] == j;
            assert(targets[i] == j);
        }
        assert(e.steps.contains(target)) by {
            if !below.steps.contains(target) {
                assert(e.steps[below.steps.len() as int] == target);
            }
        }
        let own = choose|i: int| 0 <= i < e.steps.len() && e.steps[i] == target;
        assert(begins(below.steps, e.steps));
        assert(begins(d.steps, e.steps));
        lemma_reasons_last(cat, d.steps, e.steps);
        lemma_reasons_last(cat, below.steps, e.steps);
        if needs.1.len() > 0 {
            assert(cat.requires_of_spec(e.steps[own]).1 == needs.1);
            assert(leaned_on(cat, e.steps, needs.1));
        }
        assert forall|i: int| 0 <= i < e.steps.len() implies targets.contains(#[trigger] e.steps[i])
            || (e.steps[i] is Tunnel && tunnel_index(cat.tunnels, e.steps[i]->Tunnel_0)
            < cat.tunnels.len() && leaned_on(cat, e.steps, e.steps[i]->Tunnel_0)) by {
            if i < d.steps.len() {
                assert(e.steps[i] == d.steps[i]);
            } else if i < below.steps.len() {
                assert(e.steps[i] == below.steps[i]);
            }
        }
        assert forall|r: Seq<char>| #[trigger] e.vpn.contains(r) implies vpn_wanted(
            cat,
            e.steps,
            r,
        ) by {
            assert(below.vpn.contains(r));
            if !vpn_wanted(cat, e.steps, r) {
                assert(!vpn_wanted(cat, below.steps, r));
                assert(under.vpn.contains(r));
                lemma_merged_from(d.vpn, needs.0, r);
                if d.vpn.contains(r) {
                    assert(vpn_wanted(cat, d.steps, r));
                } else {
                    assert(wants_vpn(cat, e.steps[own], r));
                }
            }
        }
    }
}

/// The VPN steps of a plan can be read back as requirements.
proof fn lemma_listed_needs(cat: Lists, targets: Seq<Job>, i: int)
    requires
        cat.gathered(targets) is Ok,
        0 <= i < by_provider(cat.gathered(targets)->Ok_0.vpn).len(),
    ensures
        need_of(by_provider(cat.gathered(targets)->Ok_0.vpn)[i]) is Some,
{
    lemma_gathered(cat, targets);
    let d = cat.gathered(targets)->Ok_0;
    crate::plan_laws::lemma_by_provider(d.vpn);
    let v = by_provider(d.vpn);
    assert(v.contains(v[i]));
    assert(d.vpn.contains(v[i]));
}

/// A plan brings up nothing that nobody asked for. Each VPN in it is what the
/// record of some step requires, as it is stored; each other step is a target, or
/// a configured tunnel that the record of some step is stacked on.
pub proof fn law_nothing_unasked_is_planned(cat: Lists, targets: Seq<Job>, at: int)
    requires
        cat.plan(targets) is Ok,
        0 <= at < cat.plan(targets)->Ok_0.len(),
    ensures
        ({
            let p = cat.plan(targets)->Ok_0;
            ||| targets.contains(p[at])
            ||| p[at] is Vpn && exists|s: int, vpn: Seq<char>, dep: Seq<char>|
                0 <= s < p.len() && #[trigger] asks(cat, p[s], vpn, dep) && need_of(vpn) is Some
                    && p[at]->Vpn_0 == canonical_of(need_of(vpn)->0)
            ||| p[at] is Tunnel && (exists|k: int|
                tunnel_at(cat.tunnels, p[at]->Tunnel_0, k)) && exists|s: int, vpn: Seq<char>|
                0 <= s < p.len() && #[trigger] asks(cat, p[s], vpn, p[at]->Tunnel_0)
        }),
{
    law_plan(cat, targets);
    lemma_gathered_reasons(cat, targets);
    lemma_gathered(cat, targets);
    let p = cat.plan(targets)->Ok_0;
    let d = cat.gathered(targets)->Ok_0;
    let v = by_provider(d.vpn);
    let steps = tunnels_first(d.steps);
    lemma_tunnels_first(cat, d);
    crate::plan_laws::lemma_by_provider(d.vpn);
    let front = v.len() as int;
    if at < front {
        assert(p[at] == Job::Vpn(v[at]));
        assert(v.contains(v[at]));
        assert(d.vpn.contains(v[at]));
        let s = choose|s: int| 0 <= s < d.steps.len() && wants_vpn(cat, #[trigger] d.steps[s], v[at]);
        let j = d.steps[s];
        lemma_asked(cat, j);
        lemma_nothing_needed();
        assert(d.steps.contains(j));
        assert(steps.contains(j));
        let i = choose|i: int| 0 <= i < steps.len() && steps[i] == j;
        assert(p[front + i] == j);
        assert(asks(cat, p[front + i], cat.requires_of_spec(j).0, cat.requires_of_spec(j).1));
    } else {
        let me = p[at];
        assert(me == steps[at - front]);
        assert(steps.contains(me));
        let m = choose|m: int| 0 <= m < d.steps.len() && d.steps[m] == me;
        if !targets.contains(me) {
            let name = d.steps[m]->Tunnel_0;
            lemma_asked(cat, me);
            let k = tunnel_index(cat.tunnels, name);
            lemma_first_where(cat.tunnels, tunnel_named(name));
            assert(tunnel_at(cat.tunnels, name, k)) by {
                assert(tunnel_named(name)(cat.tunnels[k]));
                assert forall|i: int| 0 <= i < k implies (#[trigger] cat.tunnels[i]).name@
                    != name by {
                    assert(!tunnel_named(name)(cat.tunnels[i]));
                }
            }
            let s = choose|s: int|
                0 <= s < d.steps.len() && cat.requires_of_spec(#[trigger] d.steps[s]).1 == name
                    && name.len() > 0;
            let j = d.steps[s];
            lemma_asked(cat, j);
            assert(d.steps.contains(j));
            assert(steps.contains(j));
            let i = choose|i: int| 0 <= i < steps.len() && steps[i] == j;
            assert(p[front + i] == j);
            assert(asks(cat, p[front + i], cat.requires_of_spec(j).0, name));
        }
    }
}

proof fn lemma_nothing_needed()
    ensures
        need_of(Seq::<char>::empty()) is None,
{
    crate::text::lemma_trimmed(Seq::<char>::empty());
}

// ---------------------------------------------------------------------------
// When there is a plan
// ---------------------------------------------------------------------------

/// No plan stacks a connection on a tunnel that is neither configured nor asked
/// for by name.
pub proof fn law_no_plan_over_a_missing_tunnel(
    cat: Lists,
    targets: Seq<Job>,
    j: Job,
    vpn: Seq<char>,
    dep: Seq<char>,
)
    requires
        targets.contains(j),
        asks(cat, j, vpn, dep),
        dep.len() > 0,
        forall|k: int| 0 <= k < cat.tunnels.len() ==> (#[trigger] cat.tunnels[k]).name@ != dep,
        !targets.contains(Job::Tunnel(dep)),
    ensures
        cat.plan(targets) is Err,
{
    if cat.plan(targets) is Ok {
        let p = cat.plan(targets)->Ok_0;
        law_every_target_is_planned(cat, targets, j);
        let at = choose|at: int| 0 <= at < p.len() && p[at] == j;
        law_needs_come_first(cat, targets, at, vpn, dep);
        let i = choose|i: int| 0 <= i < at && #[trigger] p[i] == Job::Tunnel(dep);
        law_nothing_unasked_is_planned(cat, targets, i);
        let k = choose|k: int| tunnel_at(cat.tunnels, dep, k);
        assert(cat.tunnels[k].name@ == dep);
    }
}

/// Two connections that need different profiles of one provider are not planned
/// together.
pub proof fn law_no_plan_for_two_profiles(
    cat: Lists,
    targets: Seq<Job>,
    a: (Job, Seq<char>, Seq<char>),
    b: (Job, Seq<char>, Seq<char>),
)
    requires
        targets.contains(a.0),
        targets.contains(b.0),
        asks(cat, a.0, a.1, a.2),
        asks(cat, b.0, b.1, b.2),
        need_of(a.1) is Some,
        need_of(b.1) is Some,
        need_of(a.1)->0.provider == need_of(b.1)->0.provider,
        need_of(a.1)->0.profile is Some,
        need_of(b.1)->0.profile is Some,
        need_of(a.1)->0.profile != need_of(b.1)->0.profile,
    ensures
        cat.plan(targets) is Err,
{
    if cat.plan(targets) is Ok {
        law_plan(cat, targets);
        let d = cat.gathered(targets)->Ok_0;
        let v = by_provider(d.vpn);
        let steps = tunnels_first(d.steps);
        lemma_need_ok(a.1);
        lemma_need_ok(b.1);
        let q = need_of(a.1)->0.provider->0;
        lemma_asks(cat, a.0, a.1, a.2);
        lemma_asks(cat, b.0, b.1, b.2);
        let x = choose|i: int| 0 <= i < targets.len() && targets[i] == a.0;
        let y = choose|i: int| 0 <= i < targets.len() && targets[i] == b.0;
        assert(steps.contains(targets[x]));
        assert(steps.contains(targets[y]));
        let sx = choose|i: int| 0 <= i < steps.len() && steps[i] == a.0;
        let sy = choose|i: int| 0 <= i < steps.len() && steps[i] == b.0;
        assert(provided(v, a.1));
        assert(provided(v, b.1));
        let i = choose|i: int|
            0 <= i < v.len() && provider_of(#[trigger] v[i]) == Some(q) && need_of(v[i]) == need_of(
                a.1,
            );
        let k = choose|i: int|
            0 <= i < v.len() && provider_of(#[trigger] v[i]) == Some(q) && need_of(v[i]) == need_of(
                b.1,
            );
        assert(i != k);
        assert(crate::plan::rank(v[i]) == crate::plan::rank(v[k]));
    }
}

/// The profile that a requirement names is the one chosen for its provider.
pub open spec fn agrees(req: Seq<char>, profile: spec_fn(ProviderId) -> Seq<char>) -> bool {
    match need_of(req) {
        Some(Need { provider: Some(p), profile: Some(q) }) => profile(p) == q,
        _ => true,
    }
}

/// Everything that `part` covers can be brought up: what a record is stacked on
/// exists, is covered too and lies lower, and one profile for each provider
/// does for all of them.
pub open spec fn satisfiable(
    cat: Lists,
    part: spec_fn(Job) -> bool,
    height: spec_fn(Seq<char>) -> nat,
    profile: spec_fn(ProviderId) -> Seq<char>,
) -> bool {
    forall|j: Job, vpn: Seq<char>, dep: Seq<char>|
        part(j) && #[trigger] asks(cat, j, vpn, dep) ==> {
            &&& agrees(vpn, profile)
            &&& dep.len() > 0 ==> {
                &&& part(Job::Tunnel(dep))
                &&& exists|k: int| tunnel_at(cat.tunnels, dep, k)
                &&& j is Tunnel ==> height(dep) < height(j->Tunnel_0)
            }
        }
}

spec fn all_agree(v: Seq<Seq<char>>, profile: spec_fn(ProviderId) -> Seq<char>) -> bool {
    forall|r: Seq<char>| #[trigger] v.contains(r) ==> agrees(r, profile)
}

proof fn lemma_merged_ok(
    cur: Seq<Seq<char>>,
    want: Seq<char>,
    profile: spec_fn(ProviderId) -> Seq<char>,
)
    requires
        all_agree(cur, profile),
        agrees(want, profile),
    ensures
        merged(cur, want) is Ok,
        all_agree(merged(cur, want)->Ok_0, profile),
{
    match need_of(want) {
        Some(n) => {
            lemma_need_ok(want);
            law_requirement_round_trip(n);
            match n.provider {
                Some(p) => {
                    let c = without_any(cur);
                    let i = slot_of(c, p);
                    lemma_first_where(c, on_provider(p));
                    if i < c.len() {
                        assert(on_provider(p)(c[i]));
                        assert(c.contains(c[i]));
                        lemma_without_any_from(cur, c[i]);
                        assert(agrees(c[i], profile));
                    }
                },
                None => {},
            }
        },
        None => {},
    }
    assert forall|r: Seq<char>| #[trigger] merged(cur, want)->Ok_0.contains(r) implies agrees(
        r,
        profile,
    ) by {
        lemma_merged_from(cur, want, r);
    }
}

proof fn lemma_collected_ok(
    cat: Lists,
    name: Seq<char>,
    d: Draft,
    chain: Seq<Seq<char>>,
    part: spec_fn(Job) -> bool,
    height: spec_fn(Seq<char>) -> nat,
    profile: spec_fn(ProviderId) -> Seq<char>,
)
    requires
        satisfiable(cat, part, height, profile),
        all_agree(d.vpn, profile),
        part(Job::Tunnel(name)),
        exists|k: int| tunnel_at(cat.tunnels, name, k),
        forall|i: int| 0 <= i < chain.len() ==> height(name) < height(#[trigger] chain[i]),
    ensures
        collected(cat.tunnels, name, d, chain) is Ok,
        all_agree(collected(cat.tunnels, name, d, chain)->Ok_0.vpn, profile),
    decreases cat.tunnels.len() - chain.len(),
{
    let ts = cat.tunnels;
    if !d.steps.contains(Job::Tunnel(name)) {
        let k = choose|k: int| tunnel_at(ts, name, k);
        lemma_tunnel_at(cat, name, k);
        let t = ts[k];
        assert(!chain.contains(name));
        lemma_merged_ok(d.vpn, t.requires_vpn@, profile);
        let under = Draft { steps: d.steps, vpn: merged(d.vpn, t.requires_vpn@)->Ok_0 };
        if !(t.depends_on@.len() == 0 || chain.len() >= ts.len()) {
            let more = chain.push(name);
            assert forall|i: int| 0 <= i < more.len() implies height(t.depends_on@) < height(
                #[trigger] more[i],
            ) by {
                if i < chain.len() {
                    assert(more[i] == chain[i]);
                }
            }
            lemma_collected_ok(cat, t.depends_on@, under, more, part, height, profile);
        }
    }
}

/// There is a plan wherever one could work: everything the targets stand on
/// exists, no stack comes back on itself, and no two of its connections need
/// different profiles of one provider.
pub proof fn law_a_plan_is_found(
    cat: Lists,
    targets: Seq<Job>,
    part: spec_fn(Job) -> bool,
    height: spec_fn(Seq<char>) -> nat,
    profile: spec_fn(ProviderId) -> Seq<char>,
)
    requires
        satisfiable(cat, part, height, profile),
        forall|i: int| 0 <= i < targets.len() ==> part(#[trigger] targets[i]),
    ensures
        cat.plan(targets) is Ok,
{
    lemma_gathered_ok(cat, targets, part, height, profile);
}

proof fn lemma_gathered_ok(
    cat: Lists,
    targets: Seq<Job>,
    part: spec_fn(Job) -> bool,
    height: spec_fn(Seq<char>) -> nat,
    profile: spec_fn(ProviderId) -> Seq<char>,
)
    requires
        satisfiable(cat, part, height, profile),
        forall|i: int| 0 <= i < targets.len() ==> part(#[trigger] targets[i]),
    ensures
        cat.gathered(targets) is Ok,
        all_agree(cat.gathered(targets)->Ok_0.vpn, profile),
    decreases targets.len(),
{
    if targets.len() > 0 {
        let head = targets.drop_last();
        let target = targets.last();
        assert forall|i: int| 0 <= i < head.len() implies part(#[trigger] head[i]) by {
            assert(head[i] == targets[i]);
        }
        assert(part(targets[targets.len() - 1]));
        lemma_gathered_ok(cat, head, part, height, profile);
        let d = cat.gathered(head)->Ok_0;
        let needs = cat.requires_of_spec(target);
        lemma_asked(cat, target);
        lemma_nothing_needed();
        assert(agrees(needs.0, profile));
        lemma_merged_ok(d.vpn, needs.0, profile);
        let under = Draft { steps: d.steps, vpn: merged(d.vpn, needs.0)->Ok_0 };
        let chain = match target {
            Job::Tunnel(n) => seq![n],
            _ => Seq::empty(),
        };
        if needs.1.len() > 0 {
            assert(asks(cat, target, needs.0, needs.1));
            lemma_collected_ok(cat, needs.1, under, chain, part, height, profile);
        }
    }
}

} // verus!
