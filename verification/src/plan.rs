//! Activation plans: what has to be up, and in which order.

use vstd::prelude::*;
use crate::list::{first_where, lemma_first_where, lemma_first_where_is};
use crate::logs::{LogTarget, Subject};
use crate::text::{self, cat, cat3, cat5, joined, texts};
use crate::types::{
    canonical_of, need_of, parse_vpn_requirement, requirement_label_text, vpn_requirement_label,
    RdpConnection, Requires, SshHost, Tunnel,
};
use crate::vpn::ProviderId;
use crate::vpn_view::kept;

verus! {

// ---------------------------------------------------------------------------
// Looking up connections by name
// ---------------------------------------------------------------------------

pub open spec fn tunnel_named(name: Seq<char>) -> spec_fn(Tunnel) -> bool {
    |t: Tunnel| t.name@ == name
}

pub open spec fn ssh_named(name: Seq<char>) -> spec_fn(SshHost) -> bool {
    |h: SshHost| h.name@ == name
}

pub open spec fn rdp_named(name: Seq<char>) -> spec_fn(RdpConnection) -> bool {
    |c: RdpConnection| c.name@ == name
}

/// The place of the tunnel of that name; the length where there is none.
pub open spec fn tunnel_index(ts: Seq<Tunnel>, name: Seq<char>) -> int {
    first_where(ts, tunnel_named(name))
}

pub open spec fn ssh_index(hs: Seq<SshHost>, name: Seq<char>) -> int {
    first_where(hs, ssh_named(name))
}

pub open spec fn rdp_index(cs: Seq<RdpConnection>, name: Seq<char>) -> int {
    first_where(cs, rdp_named(name))
}

pub proof fn lemma_tunnel_index(ts: Seq<Tunnel>, name: Seq<char>)
    ensures
        0 <= tunnel_index(ts, name) <= ts.len(),
        tunnel_index(ts, name) < ts.len() ==> ts[tunnel_index(ts, name)].name@ == name,
{
    lemma_first_where(ts, tunnel_named(name));
}

pub fn find_tunnel(ts: &[Tunnel], name: &str) -> (r: Option<usize>)
    ensures
        r is None <==> tunnel_index(ts@, name@) == ts@.len(),
        r is Some ==> r->0 == tunnel_index(ts@, name@) && r->0 < ts@.len() && ts@[r->0 as int].name@
            == name@,
{
    let ghost p = tunnel_named(name@);
    let mut i: usize = 0;
    while i < ts.len()
        invariant
            i <= ts@.len(),
            p == tunnel_named(name@),
            forall|j: int| 0 <= j < i ==> !p(#[trigger] ts@[j]),
        decreases ts@.len() - i,
    {
        if text::same(ts[i].name.as_str(), name) {
            proof {
                lemma_first_where_is(ts@, p, i as int);
            }
            return Some(i);
        }
        i = i + 1;
    }
    proof {
        lemma_first_where_is(ts@, p, i as int);
    }
    None
}

pub fn find_ssh(hs: &[SshHost], name: &str) -> (r: Option<usize>)
    ensures
        r is None <==> ssh_index(hs@, name@) == hs@.len(),
        r is Some ==> r->0 == ssh_index(hs@, name@) && r->0 < hs@.len() && hs@[r->0 as int].name@
            == name@,
{
    let ghost p = ssh_named(name@);
    let mut i: usize = 0;
    while i < hs.len()
        invariant
            i <= hs@.len(),
            p == ssh_named(name@),
            forall|j: int| 0 <= j < i ==> !p(#[trigger] hs@[j]),
        decreases hs@.len() - i,
    {
        if text::same(hs[i].name.as_str(), name) {
            proof {
                lemma_first_where_is(hs@, p, i as int);
            }
            return Some(i);
        }
        i = i + 1;
    }
    proof {
        lemma_first_where_is(hs@, p, i as int);
    }
    None
}

pub fn find_rdp(cs: &[RdpConnection], name: &str) -> (r: Option<usize>)
    ensures
        r is None <==> rdp_index(cs@, name@) == cs@.len(),
        r is Some ==> r->0 == rdp_index(cs@, name@) && r->0 < cs@.len() && cs@[r->0 as int].name@
            == name@,
{
    let ghost p = rdp_named(name@);
    let mut i: usize = 0;
    while i < cs.len()
        invariant
            i <= cs@.len(),
            p == rdp_named(name@),
            forall|j: int| 0 <= j < i ==> !p(#[trigger] cs@[j]),
        decreases cs@.len() - i,
    {
        if text::same(cs[i].name.as_str(), name) {
            proof {
                lemma_first_where_is(cs@, p, i as int);
            }
            return Some(i);
        }
        i = i + 1;
    }
    proof {
        lemma_first_where_is(cs@, p, i as int);
    }
    None
}

/// The tunnel that the named one is stacked on; empty where it is on none or
/// does not exist.
pub open spec fn base_of(ts: Seq<Tunnel>, name: Seq<char>) -> Seq<char> {
    let i = tunnel_index(ts, name);
    if i < ts.len() {
        ts[i].depends_on@
    } else {
        Seq::empty()
    }
}

// ---------------------------------------------------------------------------
// Cycles
// ---------------------------------------------------------------------------

/// The name `k` steps down the stack from `start`.
pub open spec fn nth_base(ts: Seq<Tunnel>, start: Seq<char>, k: nat) -> Seq<char>
    decreases k,
{
    if k == 0 {
        start
    } else {
        base_of(ts, nth_base(ts, start, (k - 1) as nat))
    }
}

/// The names from `start` to `k` steps down.
pub open spec fn stack(ts: Seq<Tunnel>, start: Seq<char>, k: nat) -> Seq<Seq<char>> {
    Seq::new(k + 1, |i: int| nth_base(ts, start, i as nat))
}

/// The stack comes back on itself `k` steps down, and not before.
pub open spec fn loops_at(ts: Seq<Tunnel>, start: Seq<char>, k: nat) -> bool {
    &&& k >= 1
    &&& forall|i: nat| 1 <= i <= k ==> (#[trigger] nth_base(ts, start, i)).len() > 0
    &&& stack(ts, start, (k - 1) as nat).no_duplicates()
    &&& stack(ts, start, (k - 1) as nat).contains(nth_base(ts, start, k))
}

/// The names of all tunnels.
pub open spec fn tunnel_names(ts: Seq<Tunnel>) -> Seq<Seq<char>> {
    ts.map_values(|t: Tunnel| t.name@)
}

pub proof fn lemma_distinct_names_fit(ts: Seq<Tunnel>, names: Seq<Seq<char>>)
    requires
        names.no_duplicates(),
        forall|i: int|
            0 <= i < names.len() ==> tunnel_index(ts, #[trigger] names[i]) < ts.len(),
    ensures
        names.len() <= ts.len(),
{
    let all = tunnel_names(ts);
    assert forall|n: Seq<char>| names.to_set().contains(n) implies all.to_set().contains(n) by {
        let i = choose|i: int| 0 <= i < names.len() && names[i] == n;
        let p = tunnel_named(n);
        lemma_first_where(ts, p);
        let k = tunnel_index(ts, n);
        assert(tunnel_index(ts, names[i]) < ts.len());
        assert(all[k] == n);
    }
    names.unique_seq_to_set();
    all.lemma_cardinality_of_set();
    vstd::set_lib::lemma_len_subset(names.to_set(), all.to_set());
}

/// Follow the tunnel chain from `start` and report the loop if it bites its
/// own tail.
pub fn tunnel_cycle(tunnels: &[Tunnel], start: &str) -> (r: Option<String>)
    ensures
        r is Some <==> exists|k: nat| loops_at(tunnels@, start@, k),
        r is Some ==> exists|k: nat| #[trigger] loops_at(tunnels@, start@, k) && r->0@ == joined(
            stack(tunnels@, start@, k),
            " → "@,
        ),
{
    let ghost ts = tunnels@;
    let mut seen = text::no_texts();
    text::add_str(&mut seen, start);
    let mut current = start.to_owned();
    let ghost mut k: nat = 0;
    assert(texts(seen@) =~= stack(ts, start@, 0));
    loop
        invariant
            ts == tunnels@,
            texts(seen@) == stack(ts, start@, k),
            current@ == nth_base(ts, start@, k),
            texts(seen@).no_duplicates(),
            forall|i: nat| 1 <= i <= k ==> (#[trigger] nth_base(ts, start@, i)).len() > 0,
            forall|i: int|
                0 <= i < k ==> tunnel_index(ts, #[trigger] stack(ts, start@, k)[i]) < ts.len(),
            k <= ts.len(),
        decreases ts.len() - k,
    {
        let next = match find_tunnel(tunnels, current.as_str()) {
            Some(i) => tunnels[i].depends_on.clone(),
            None => String::new(),
        };
        assert(next@ == nth_base(ts, start@, k + 1)) by {
            lemma_first_where(ts, tunnel_named(current@));
        }
        if next.as_str().is_empty() {
            proof {
                assert forall|j: nat| !loops_at(ts, start@, j) by {
                    if loops_at(ts, start@, j) {
                        if j > k {
                            assert(nth_base(ts, start@, k + 1).len() > 0);
                        } else {
                            let shorter = stack(ts, start@, (j - 1) as nat);
                            let n = nth_base(ts, start@, j);
                            let i = choose|i: int| 0 <= i < shorter.len() && shorter[i] == n;
                            assert(stack(ts, start@, k)[i] == stack(ts, start@, k)[j as int]);
                        }
                    }
                }
            }
            return None;
        }
        let looped = text::holds(&seen, next.as_str());
        text::add_text(&mut seen, next.clone());
        assert(texts(seen@) =~= stack(ts, start@, k + 1));
        if looped {
            assert(loops_at(ts, start@, k + 1));
            return Some(text::join(&seen, " → "));
        }
        proof {
            let before = stack(ts, start@, k);
            let after = stack(ts, start@, k + 1);
            assert(after =~= before.push(next@));
            assert(after.no_duplicates());
            assert forall|i: int| 0 <= i < k + 1 implies tunnel_index(
                ts,
                #[trigger] after[i],
            ) < ts.len() by {
                if i < k {
                    assert(after[i] == before[i]);
                } else {
                    lemma_first_where(ts, tunnel_named(current@));
                }
            }
            let named = after.take(k as int + 1);
            assert(named.no_duplicates());
            assert forall|i: int| 0 <= i < named.len() implies tunnel_index(
                ts,
                #[trigger] named[i],
            ) < ts.len() by {
                assert(named[i] == after[i]);
            }
            lemma_distinct_names_fit(ts, named);
            k = k + 1;
        }
        current = next;
    }
}

// ---------------------------------------------------------------------------
// Steps
// ---------------------------------------------------------------------------

/// One thing to bring up. A plan is an ordered list of these: the VPNs first,
/// then tunnels from the bottom of the stack up, then the connection the user
/// actually asked for.
///
/// Steps carry names rather than indices so that editing a list while a plan
/// is running cannot redirect it at something else.
#[derive(Debug, PartialEq, Eq)]
pub enum Step {
    Vpn(String),
    Tunnel(String),
    Ssh(String),
    Rdp { name: String, password: String },
}

/// A step, with its names as text.
pub enum Job {
    Vpn(Seq<char>),
    Tunnel(Seq<char>),
    Ssh(Seq<char>),
    Rdp(Seq<char>, Seq<char>),
}

impl View for Step {
    type V = Job;

    open spec fn view(&self) -> Job {
        match self {
            Step::Vpn(p) => Job::Vpn(p@),
            Step::Tunnel(n) => Job::Tunnel(n@),
            Step::Ssh(n) => Job::Ssh(n@),
            Step::Rdp { name, password } => Job::Rdp(name@, password@),
        }
    }
}

/// The jobs a list of steps stands for.
pub open spec fn jobs(v: Seq<Step>) -> Seq<Job> {
    v.map_values(|s: Step| s@)
}

impl Clone for Step {
    fn clone(&self) -> (r: Self)
        ensures
            r == *self,
    {
        match self {
            Step::Vpn(p) => Step::Vpn(p.clone()),
            Step::Tunnel(n) => Step::Tunnel(n.clone()),
            Step::Ssh(n) => Step::Ssh(n.clone()),
            Step::Rdp { name, password } => Step::Rdp {
                name: name.clone(),
                password: password.clone(),
            },
        }
    }
}

/// A step in full, for messages. The password stays out of it.
pub open spec fn describe_of(j: Job) -> Seq<char> {
    match j {
        Job::Vpn(p) => "vpn "@ + requirement_label_text(p),
        Job::Tunnel(n) => "tunnel '"@ + n + "'"@,
        Job::Ssh(n) => "ssh '"@ + n + "'"@,
        Job::Rdp(n, _) => "rdp '"@ + n + "'"@,
    }
}

/// A step in short, for the chain in the details panels.
pub open spec fn short_of(j: Job) -> Seq<char> {
    match j {
        Job::Vpn(p) => "vpn "@ + requirement_label_text(p),
        Job::Tunnel(n) => "tun "@ + n,
        Job::Ssh(n) => "ssh "@ + n,
        Job::Rdp(n, _) => "rdp "@ + n,
    }
}

/// What is said of an rdp step is the same whatever its password is.
pub proof fn law_password_is_never_described(name: Seq<char>, p: Seq<char>, q: Seq<char>)
    ensures
        describe_of(Job::Rdp(name, p)) == describe_of(Job::Rdp(name, q)),
        short_of(Job::Rdp(name, p)) == short_of(Job::Rdp(name, q)),
        log_of(Job::Rdp(name, p)) == log_of(Job::Rdp(name, q)),
{
}

/// The log a step's news belongs in.
pub open spec fn log_of(j: Job) -> Subject {
    match j {
        Job::Vpn(req) => match need_of(req) {
            Some(n) => match n.provider {
                Some(p) => Subject::Vpn(
                    p,
                    match n.profile {
                        Some(s) => s,
                        None => Seq::empty(),
                    },
                ),
                None => Subject::Program,
            },
            None => Subject::Program,
        },
        Job::Tunnel(n) => Subject::Tunnel(n),
        Job::Ssh(n) => Subject::Ssh(n),
        Job::Rdp(n, _) => Subject::Rdp(n),
    }
}

/// Steps that only fire and forget; everything else is waited on.
pub open spec fn is_terminal_job(j: Job) -> bool {
    j is Ssh || j is Rdp
}

impl Step {
    pub fn describe(&self) -> (r: String)
        ensures
            r@ == describe_of(self@),
    {
        match self {
            Step::Vpn(p) => cat("vpn ", vpn_requirement_label(p.as_str()).as_str()),
            Step::Tunnel(n) => cat3("tunnel '", n.as_str(), "'"),
            Step::Ssh(n) => cat3("ssh '", n.as_str(), "'"),
            Step::Rdp { name, .. } => cat3("rdp '", name.as_str(), "'"),
        }
    }

    /// Compact form for the dependency chain shown in the details panels.
    pub fn short(&self) -> (r: String)
        ensures
            r@ == short_of(self@),
    {
        match self {
            Step::Vpn(p) => cat("vpn ", vpn_requirement_label(p.as_str()).as_str()),
            Step::Tunnel(n) => cat("tun ", n.as_str()),
            Step::Ssh(n) => cat("ssh ", n.as_str()),
            Step::Rdp { name, .. } => cat("rdp ", name.as_str()),
        }
    }

    /// The log this step's news belongs in. A VPN requirement that names no
    /// provider is nobody's in particular, so it goes to the program's.
    pub fn log_target(&self) -> (r: LogTarget)
        ensures
            r@ == log_of(self@),
    {
        match self {
            Step::Vpn(req) => match parse_vpn_requirement(req.as_str()) {
                Some(n) => match n.provider {
                    Some(p) => match n.profile {
                        Some(name) => LogTarget::Vpn(p, name),
                        None => LogTarget::Vpn(p, String::new()),
                    },
                    None => LogTarget::Program,
                },
                None => LogTarget::Program,
            },
            Step::Tunnel(n) => LogTarget::Tunnel(n.clone()),
            Step::Ssh(n) => LogTarget::Ssh(n.clone()),
            Step::Rdp { name, .. } => LogTarget::Rdp(name.clone()),
        }
    }

    /// Steps that only fire and forget; everything else is waited on.
    pub fn is_terminal(&self) -> (r: bool)
        ensures
            r == is_terminal_job(self@),
    {
        matches!(self, Step::Ssh(_) | Step::Rdp { .. })
    }

    /// Whether two steps are the same.
    pub fn same_as(&self, other: &Step) -> (r: bool)
        ensures
            r == (self@ == other@),
    {
        match (self, other) {
            (Step::Vpn(a), Step::Vpn(b)) => text::same(a.as_str(), b.as_str()),
            (Step::Tunnel(a), Step::Tunnel(b)) => text::same(a.as_str(), b.as_str()),
            (Step::Ssh(a), Step::Ssh(b)) => text::same(a.as_str(), b.as_str()),
            (
                Step::Rdp { name: a, password: p },
                Step::Rdp { name: b, password: q },
            ) => text::same(a.as_str(), b.as_str()) && text::same(p.as_str(), q.as_str()),
            _ => false,
        }
    }
}

fn has_step(steps: &Vec<Step>, s: &Step) -> (r: bool)
    ensures
        r == jobs(steps@).contains(s@),
{
    let mut i: usize = 0;
    while i < steps.len()
        invariant
            i <= steps@.len(),
            forall|j: int| 0 <= j < i ==> steps@[j]@ != s@,
        decreases steps@.len() - i,
    {
        if steps[i].same_as(s) {
            assert(jobs(steps@)[i as int] == s@);
            return true;
        }
        i = i + 1;
    }
    false
}

fn add_step(steps: &mut Vec<Step>, s: Step)
    ensures
        jobs(final(steps)@) == jobs(old(steps)@).push(s@),
{
    assert(jobs(steps@.push(s)) =~= jobs(steps@).push(s@));
    steps.push(s);
}

// ---------------------------------------------------------------------------
// VPN requirements of a whole plan
// ---------------------------------------------------------------------------

/// The requirements without a bare "any VPN".
pub open spec fn without_any(cur: Seq<Seq<char>>) -> Seq<Seq<char>>
    decreases cur.len(),
{
    if cur.len() == 0 {
        cur
    } else if cur.last() == "*"@ {
        without_any(cur.drop_last())
    } else {
        without_any(cur.drop_last()).push(cur.last())
    }
}

/// The provider a written requirement asks for, if it asks for one.
pub open spec fn provider_of(req: Seq<char>) -> Option<ProviderId> {
    match need_of(req) {
        Some(n) => n.provider,
        None => None,
    }
}

pub open spec fn on_provider(p: ProviderId) -> spec_fn(Seq<char>) -> bool {
    |c: Seq<char>| provider_of(c) == Some(p)
}

/// Where the requirement on that provider stands.
pub open spec fn slot_of(cur: Seq<Seq<char>>, p: ProviderId) -> int {
    first_where(cur, on_provider(p))
}

/// What cannot both hold: two profiles of one provider.
pub open spec fn clash(p: ProviderId, a: Seq<char>, b: Seq<char>) -> Seq<char> {
    "needs "@ + p.slug_spec() + " profile '"@ + a + "' and '"@ + b + "' at the same time"@
}

/// A new VPN requirement folded into the ones a plan already has.
///
/// Requirements are held one per provider. Within a provider a named profile
/// beats "any profile", and two different profiles of the same provider cannot
/// both hold. A bare "any VPN" is satisfied by anything already required.
pub open spec fn merged(cur: Seq<Seq<char>>, want: Seq<char>) -> Result<Seq<Seq<char>>, Seq<char>> {
    match need_of(want) {
        None => Ok(cur),
        Some(n) => match n.provider {
            None => if cur.len() == 0 {
                Ok(cur.push(canonical_of(n)))
            } else {
                Ok(cur)
            },
            Some(p) => {
                let c = without_any(cur);
                let i = slot_of(c, p);
                if i == c.len() {
                    Ok(c.push(canonical_of(n)))
                } else {
                    match (need_of(c[i])->0.profile, n.profile) {
                        (_, None) => Ok(c),
                        (None, Some(_)) => Ok(c.update(i, canonical_of(n))),
                        (Some(a), Some(b)) => if a == b {
                            Ok(c)
                        } else {
                            Err(clash(p, a, b))
                        },
                    }
                }
            },
        },
    }
}

fn drop_any(cur: &Vec<String>) -> (r: Vec<String>)
    ensures
        texts(r@) == without_any(texts(cur@)),
{
    let mut out = text::no_texts();
    let mut i: usize = 0;
    let ghost all = texts(cur@);
    assert(all.take(0) =~= Seq::<Seq<char>>::empty());
    while i < cur.len()
        invariant
            i <= cur@.len(),
            all == texts(cur@),
            texts(out@) == without_any(all.take(i as int)),
        decreases cur@.len() - i,
    {
        assert(all.take(i + 1).drop_last() =~= all.take(i as int));
        assert(all.take(i + 1).last() == cur@[i as int]@);
        if !text::same(cur[i].as_str(), "*") {
            text::add_text(&mut out, cur[i].clone());
        }
        i = i + 1;
    }
    assert(all.take(i as int) =~= all);
    out
}

fn provider_in(req: &str) -> (r: Option<ProviderId>)
    ensures
        r == provider_of(req@),
{
    match parse_vpn_requirement(req) {
        Some(n) => n.provider,
        None => None,
    }
}

fn find_slot(cur: &Vec<String>, p: ProviderId) -> (r: Option<usize>)
    ensures
        r is None <==> slot_of(texts(cur@), p) == cur@.len(),
        r is Some ==> r->0 == slot_of(texts(cur@), p) && r->0 < cur@.len(),
{
    let ghost q = on_provider(p);
    let ghost all = texts(cur@);
    let mut i: usize = 0;
    while i < cur.len()
        invariant
            i <= cur@.len(),
            all == texts(cur@),
            q == on_provider(p),
            forall|j: int| 0 <= j < i ==> !q(#[trigger] all[j]),
        decreases cur@.len() - i,
    {
        let found = match provider_in(cur[i].as_str()) {
            Some(have) => have == p,
            None => false,
        };
        assert(all[i as int] == cur@[i as int]@);
        if found {
            proof {
                lemma_first_where_is(all, q, i as int);
            }
            return Some(i);
        }
        i = i + 1;
    }
    proof {
        lemma_first_where_is(all, q, i as int);
    }
    None
}

/// Fold a new VPN requirement into the ones the plan already has.
pub fn merge_vpn(current: Vec<String>, want: &str) -> (r: Result<Vec<String>, String>)
    ensures
        r is Ok <==> merged(texts(current@), want@) is Ok,
        r is Ok ==> texts(r->Ok_0@) == merged(texts(current@), want@)->Ok_0,
        r is Err ==> r->Err_0@ == merged(texts(current@), want@)->Err_0,
{
    let req = match parse_vpn_requirement(want) {
        Some(n) => n,
        None => {
            return Ok(current);
        },
    };
    let provider = match req.provider {
        Some(p) => p,
        None => {
            let mut current = current;
            if current.len() == 0 {
                text::add_text(&mut current, req.canonical());
            }
            return Ok(current);
        },
    };
    // Something specific supersedes a bare "any VPN".
    let mut cur = drop_any(&current);
    let ghost c = texts(cur@);
    let i: usize = match find_slot(&cur, provider) {
        Some(i) => i,
        None => {
            text::add_text(&mut cur, req.canonical());
            return Ok(cur);
        },
    };
    proof {
        lemma_first_where(c, on_provider(provider));
    }
    let have = match parse_vpn_requirement(cur[i].as_str()) {
        Some(n) => n.profile,
        None => None,
    };
    match req.profile {
        // "any profile of this provider" adds nothing to a named one.
        None => Ok(cur),
        Some(ref b) => match have {
            None => {
                let slot = req.canonical();
                let ghost line = slot@;
                cur.set(i, slot);
                assert(texts(cur@) =~= c.update(i as int, line));
                Ok(cur)
            },
            Some(a) => if text::same(a.as_str(), b.as_str()) {
                Ok(cur)
            } else {
                let mut msg = cat5("needs ", provider.slug(), " profile '", a.as_str(), "' and '");
                msg.push_str(b.as_str());
                msg.push_str("' at the same time");
                Err(msg)
            },
        },
    }
}

// ---------------------------------------------------------------------------
// Plans
// ---------------------------------------------------------------------------

/// The steps that are tunnels, or those that are not.
pub open spec fn of_kind(tunnels: bool) -> spec_fn(Job) -> bool {
    |j: Job| (j is Tunnel) == tunnels
}

/// The tunnels among the steps, and behind them the rest, each in order.
pub open spec fn tunnels_first(steps: Seq<Job>) -> Seq<Job> {
    kept(steps, of_kind(true)) + kept(steps, of_kind(false))
}

fn add_steps(plan: &mut Vec<Step>, steps: &Vec<Step>, tunnels: bool)
    ensures
        jobs(final(plan)@) == jobs(old(plan)@) + kept(jobs(steps@), of_kind(tunnels)),
{
    let ghost was = jobs(plan@);
    let ghost all = jobs(steps@);
    let ghost p = of_kind(tunnels);
    let mut i: usize = 0;
    assert(was + kept(all.take(0), p) =~= was);
    while i < steps.len()
        invariant
            i <= steps@.len(),
            all == jobs(steps@),
            p == of_kind(tunnels),
            jobs(plan@) == was + kept(all.take(i as int), p),
        decreases steps@.len() - i,
    {
        assert(all.take(i + 1).drop_last() =~= all.take(i as int));
        assert(all.take(i + 1).last() == steps@[i as int]@);
        if matches!(steps[i], Step::Tunnel(_)) == tunnels {
            add_step(plan, steps[i].clone());
        }
        i = i + 1;
        assert(jobs(plan@) =~= was + kept(all.take(i as int), p));
    }
    assert(all.take(i as int) =~= all);
}

/// A read-only view of the configured connections, so a plan can be built and
/// tested without the rest of the application state.
#[derive(Clone, Copy)]
pub struct Catalog<'a> {
    pub tunnels: &'a [Tunnel],
    pub ssh_hosts: &'a [SshHost],
    pub rdp_conns: &'a [RdpConnection],
}

/// The steps of a plan and the VPN requirements gathered for it.
pub struct Draft {
    pub steps: Seq<Job>,
    pub vpn: Seq<Seq<char>>,
}

/// The names are tunnels that exist, each at most once.
pub open spec fn chain_ok(ts: Seq<Tunnel>, chain: Seq<Seq<char>>) -> bool {
    &&& chain.no_duplicates()
    &&& forall|i: int| 0 <= i < chain.len() ==> tunnel_index(ts, #[trigger] chain[i]) < ts.len()
}

/// The tunnel and everything under it put behind what is there already, deepest
/// first. `chain` is what is being looked at above it.
pub open spec fn collected(
    ts: Seq<Tunnel>,
    name: Seq<char>,
    d: Draft,
    chain: Seq<Seq<char>>,
) -> Result<Draft, Seq<char>>
    decreases ts.len() - chain.len(),
{
    if d.steps.contains(Job::Tunnel(name)) {
        Ok(d)
    } else if chain.contains(name) {
        Err("dependency cycle: "@ + joined(chain.push(name), " → "@))
    } else if tunnel_index(ts, name) == ts.len() {
        Err("tunnel '"@ + name + "' no longer exists"@)
    } else {
        let t = ts[tunnel_index(ts, name)];
        match merged(d.vpn, t.requires_vpn@) {
            Err(e) => Err(e),
            Ok(vpn) => {
                let under = Draft { steps: d.steps, vpn };
                let below = if t.depends_on@.len() == 0 || chain.len() >= ts.len() {
                    Ok(under)
                } else {
                    collected(ts, t.depends_on@, under, chain.push(name))
                };
                match below {
                    Err(e) => Err(e),
                    Ok(b) => Ok(
                        Draft { steps: b.steps.push(Job::Tunnel(name)), vpn: b.vpn },
                    ),
                }
            },
        }
    }
}

/// What is configured, as the specifications see it.
pub struct Lists {
    pub tunnels: Seq<Tunnel>,
    pub ssh_hosts: Seq<SshHost>,
    pub rdp_conns: Seq<RdpConnection>,
}

impl Lists {
    /// What the named connection needs before it can start: the VPN and the
    /// tunnel.
    pub open spec fn requires_of_spec(self, j: Job) -> (Seq<char>, Seq<char>) {
        match j {
            Job::Vpn(_) => (Seq::empty(), Seq::empty()),
            Job::Tunnel(n) => {
                let i = tunnel_index(self.tunnels, n);
                if i < self.tunnels.len() {
                    (self.tunnels[i].requires_vpn@, self.tunnels[i].depends_on@)
                } else {
                    (Seq::empty(), Seq::empty())
                }
            },
            Job::Ssh(n) => {
                let i = ssh_index(self.ssh_hosts, n);
                if i < self.ssh_hosts.len() {
                    (self.ssh_hosts[i].requires_vpn@, self.ssh_hosts[i].depends_on@)
                } else {
                    (Seq::empty(), Seq::empty())
                }
            },
            Job::Rdp(n, _) => {
                let i = rdp_index(self.rdp_conns, n);
                if i < self.rdp_conns.len() {
                    (self.rdp_conns[i].requires_vpn@, self.rdp_conns[i].depends_on@)
                } else {
                    (Seq::empty(), Seq::empty())
                }
            },
        }
    }

    /// One more target, with what it needs, put behind what is there already.
    pub open spec fn with_target(self, d: Draft, target: Job) -> Result<Draft, Seq<char>> {
        let needs = self.requires_of_spec(target);
        match merged(d.vpn, needs.0) {
            Err(e) => Err(e),
            Ok(vpn) => {
                let under = Draft { steps: d.steps, vpn };
                // A tunnel is part of its own chain, so a loop back to it is
                // caught as a cycle.
                let chain = match target {
                    Job::Tunnel(n) => seq![n],
                    _ => Seq::empty(),
                };
                let below = if needs.1.len() == 0 {
                    Ok(under)
                } else {
                    collected(self.tunnels, needs.1, under, chain)
                };
                match below {
                    Err(e) => Err(e),
                    Ok(b) => if b.steps.contains(target) {
                        Ok(b)
                    } else {
                        Ok(Draft { steps: b.steps.push(target), vpn: b.vpn })
                    },
                }
            },
        }
    }

    /// Every target in turn.
    pub open spec fn gathered(self, targets: Seq<Job>) -> Result<Draft, Seq<char>>
        decreases targets.len(),
    {
        if targets.len() == 0 {
            Ok(Draft { steps: Seq::empty(), vpn: Seq::empty() })
        } else {
            match self.gathered(targets.drop_last()) {
                Err(e) => Err(e),
                Ok(d) => self.with_target(d, targets.last()),
            }
        }
    }

    /// The plan for a list of targets: the VPNs in provider order, then every
    /// tunnel that was gathered, then the other targets.
    pub open spec fn plan(self, targets: Seq<Job>) -> Result<Seq<Job>, Seq<char>> {
        match self.gathered(targets) {
            Err(e) => Err(e),
            Ok(d) => Ok(vpn_jobs(by_provider(d.vpn)) + tunnels_first(d.steps)),
        }
    }

    proof fn lemma_error_stays(self, targets: Seq<Job>, i: int)
        requires
            0 <= i <= targets.len(),
            self.gathered(targets.take(i)) is Err,
        ensures
            self.gathered(targets) == self.gathered(targets.take(i)),
        decreases targets.len() - i,
    {
        if i < targets.len() {
            assert(targets.take(i + 1).drop_last() =~= targets.take(i));
            self.lemma_error_stays(targets, i + 1);
        } else {
            assert(targets.take(i) =~= targets);
        }
    }
}

impl<'a> Catalog<'a> {
    pub open spec fn lists(&self) -> Lists {
        Lists {
            tunnels: self.tunnels@,
            ssh_hosts: self.ssh_hosts@,
            rdp_conns: self.rdp_conns@,
        }
    }

    /// What the named connection needs before it can start.
    pub fn requires_of(&self, step: &Step) -> (r: Requires)
        ensures
            (r.vpn@, r.tunnel@) == self.lists().requires_of_spec(step@),
    {
        let nothing = Requires::default();
        assert(nothing.vpn@ =~= Seq::<char>::empty());
        assert(nothing.tunnel@ =~= Seq::<char>::empty());
        match step {
            Step::Vpn(_) => nothing,
            Step::Tunnel(n) => match find_tunnel(self.tunnels, n.as_str()) {
                Some(i) => self.tunnels[i].required(),
                None => nothing,
            },
            Step::Ssh(n) => match find_ssh(self.ssh_hosts, n.as_str()) {
                Some(i) => self.ssh_hosts[i].required(),
                None => nothing,
            },
            Step::Rdp { name, .. } => match find_rdp(self.rdp_conns, name.as_str()) {
                Some(i) => self.rdp_conns[i].required(),
                None => nothing,
            },
        }
    }

    /// Append the tunnel and everything under it, deepest first.
    fn collect_tunnel(
        &self,
        name: &str,
        steps: Vec<Step>,
        vpn: Vec<String>,
        chain: Vec<String>,
    ) -> (r: Result<(Vec<Step>, Vec<String>), String>)
        requires
            chain_ok(self.tunnels@, texts(chain@)),
        ensures
            ({
                let d = Draft { steps: jobs(steps@), vpn: texts(vpn@) };
                match collected(self.tunnels@, name@, d, texts(chain@)) {
                    Ok(b) => r is Ok && jobs((r->Ok_0).0@) == b.steps && texts((r->Ok_0).1@)
                        == b.vpn,
                    Err(e) => r is Err && r->Err_0@ == e,
                }
            }),
        decreases self.tunnels@.len() - chain@.len(),
    {
        let ghost ts = self.tunnels@;
        let ghost was = texts(chain@);
        let this = Step::Tunnel(name.to_owned());
        if has_step(&steps, &this) {
            return Ok((steps, vpn));
        }
        let mut chain = chain;
        if text::holds(&chain, name) {
            text::add_str(&mut chain, name);
            return Err(cat("dependency cycle: ", text::join(&chain, " → ").as_str()));
        }
        let i: usize = match find_tunnel(self.tunnels, name) {
            Some(i) => i,
            None => {
                return Err(cat3("tunnel '", name, "' no longer exists"));
            },
        };
        let needs = self.tunnels[i].required();
        let vpn = merge_vpn(vpn, needs.vpn.as_str())?;
        text::add_str(&mut chain, name);
        proof {
            let now = texts(chain@);
            assert(now == was.push(name@));
            assert forall|k: int| 0 <= k < now.len() implies tunnel_index(ts, #[trigger] now[k])
                < ts.len() by {
                if k < was.len() {
                    assert(now[k] == was[k]);
                }
            }
            assert(now.no_duplicates());
            lemma_distinct_names_fit(ts, now);
        }
        let (mut steps, vpn) = if !needs.tunnel.as_str().is_empty() {
            self.collect_tunnel(needs.tunnel.as_str(), steps, vpn, chain)?
        } else {
            (steps, vpn)
        };
        add_step(&mut steps, this);
        Ok((steps, vpn))
    }

    /// Resolve everything `targets` need into one ordered plan: the VPN first,
    /// then tunnels from the bottom of the stack up, then the targets.
    pub fn build_plan(&self, targets: Vec<Step>) -> (r: Result<Vec<Step>, String>)
        ensures
            match self.lists().plan(jobs(targets@)) {
                Ok(p) => r is Ok && jobs(r->Ok_0@) == p,
                Err(e) => r is Err && r->Err_0@ == e,
            },
    {
        let mut steps: Vec<Step> = Vec::new();
        let mut vpn = text::no_texts();
        let ghost all = jobs(targets@);
        let mut i: usize = 0;
        assert(jobs(steps@) =~= Seq::<Job>::empty());
        assert(all.take(0) =~= Seq::<Job>::empty());
        while i < targets.len()
            invariant
                i <= targets@.len(),
                all == jobs(targets@),
                self.lists().gathered(all.take(i as int)) == Ok::<Draft, Seq<char>>(
                    Draft { steps: jobs(steps@), vpn: texts(vpn@) },
                ),
            decreases targets@.len() - i,
        {
            let target = &targets[i];
            assert(all.take(i + 1).drop_last() =~= all.take(i as int));
            assert(all.take(i + 1).last() == target@);
            let needs = self.requires_of(target);
            let ghost d = Draft { steps: jobs(steps@), vpn: texts(vpn@) };
            match merge_vpn(vpn, needs.vpn.as_str()) {
                Ok(v) => {
                    vpn = v;
                },
                Err(e) => {
                    proof {
                        self.lists().lemma_error_stays(all, i + 1);
                    }
                    return Err(e);
                },
            }
            if !needs.tunnel.as_str().is_empty() {
                let mut chain = text::no_texts();
                match target {
                    Step::Tunnel(n) => {
                        text::add_str(&mut chain, n.as_str());
                        assert(texts(chain@) =~= seq![n@]);
                    },
                    _ => {},
                }
                match self.collect_tunnel(needs.tunnel.as_str(), steps, vpn, chain) {
                    Ok((s, v)) => {
                        steps = s;
                        vpn = v;
                    },
                    Err(e) => {
                        proof {
                            self.lists().lemma_error_stays(all, i + 1);
                        }
                        return Err(e);
                    },
                }
            }
            if !has_step(&steps, target) {
                add_step(&mut steps, target.clone());
            }
            i = i + 1;
        }
        assert(all.take(i as int) =~= all);
        // Every VPN the chain needs goes first, in a stable provider order.
        let vpn = sort_by_provider(&vpn);
        let mut plan: Vec<Step> = Vec::new();
        let ghost lines = texts(vpn@);
        assert(jobs(plan@) =~= vpn_jobs(lines.take(0)));
        let mut k: usize = 0;
        while k < vpn.len()
            invariant
                k <= vpn@.len(),
                lines == texts(vpn@),
                jobs(plan@) == vpn_jobs(lines.take(k as int)),
            decreases vpn@.len() - k,
        {
            add_step(&mut plan, Step::Vpn(vpn[k].clone()));
            k = k + 1;
            assert(vpn_jobs(lines.take(k as int)) =~= vpn_jobs(lines.take(k - 1)).push(
                Job::Vpn(lines[k - 1]),
            ));
        }
        assert(lines.take(k as int) =~= lines);
        add_steps(&mut plan, &steps, true);
        add_steps(&mut plan, &steps, false);
        assert(jobs(plan@) =~= vpn_jobs(lines) + tunnels_first(jobs(steps@)));
        Ok(plan)
    }
}

/// Each requirement as a step.
pub open spec fn vpn_jobs(reqs: Seq<Seq<char>>) -> Seq<Job> {
    reqs.map_values(|r: Seq<char>| Job::Vpn(r))
}

/// Where a requirement comes in the order of providers; a bare "any VPN" is
/// last.
pub open spec fn rank(req: Seq<char>) -> int {
    match provider_of(req) {
        Some(p) => p.index_spec(),
        None => 4,
    }
}

/// A requirement put in front of everything at the end that ranks above it.
pub open spec fn inserted(sorted: Seq<Seq<char>>, req: Seq<char>) -> Seq<Seq<char>>
    decreases sorted.len(),
{
    if sorted.len() > 0 && rank(sorted.last()) > rank(req) {
        inserted(sorted.drop_last(), req).push(sorted.last())
    } else {
        sorted.push(req)
    }
}

/// Requirements in the order of their providers; equals keep their order.
pub open spec fn by_provider(reqs: Seq<Seq<char>>) -> Seq<Seq<char>>
    decreases reqs.len(),
{
    if reqs.len() == 0 {
        reqs
    } else {
        inserted(by_provider(reqs.drop_last()), reqs.last())
    }
}

fn rank_of(req: &str) -> (r: usize)
    ensures
        r == rank(req@),
{
    match provider_in(req) {
        Some(p) => p.index(),
        None => 4,
    }
}

fn insert_by_rank(sorted: &mut Vec<String>, req: String)
    ensures
        texts(final(sorted)@) == inserted(texts(old(sorted)@), req@),
    decreases old(sorted)@.len(),
{
    let ghost was = texts(sorted@);
    let n: usize = sorted.len();
    if n > 0 && rank_of(sorted[n - 1].as_str()) > rank_of(req.as_str()) {
        let last = sorted.pop().unwrap();
        assert(texts(sorted@) =~= was.drop_last());
        insert_by_rank(sorted, req);
        text::add_text(sorted, last);
    } else {
        text::add_text(sorted, req);
    }
}

fn sort_by_provider(reqs: &Vec<String>) -> (r: Vec<String>)
    ensures
        texts(r@) == by_provider(texts(reqs@)),
{
    let mut out = text::no_texts();
    let ghost all = texts(reqs@);
    let mut i: usize = 0;
    assert(all.take(0) =~= Seq::<Seq<char>>::empty());
    while i < reqs.len()
        invariant
            i <= reqs@.len(),
            all == texts(reqs@),
            texts(out@) == by_provider(all.take(i as int)),
        decreases reqs@.len() - i,
    {
        assert(all.take(i + 1).drop_last() =~= all.take(i as int));
        assert(all.take(i + 1).last() == reqs@[i as int]@);
        insert_by_rank(&mut out, reqs[i].clone());
        i = i + 1;
    }
    assert(all.take(i as int) =~= all);
    out
}

}
