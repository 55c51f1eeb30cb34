//! Trying tunnels again that have failed.

use vstd::prelude::*;
use crate::activation::satisfied;
use crate::app::App;
use crate::effects::{self, acts, reported, Act, Effect};
use crate::list::{first_where, lemma_first_where, lemma_first_where_is};
use crate::live::{
    has_name, law_put_in_is_there, law_taken_out_is_gone, lemma_place, one_each, place_of,
    position, put, status_of_tunnel, take_out, tunnel_status, with_one, without, LiveTunnel, Named,
    Reconnect,
};
use crate::logs::{LogTarget, Subject};
use crate::number::{self, decimal};
use crate::running::{fresh_tunnel, new_tunnel};
use crate::text::{cat5, texts};
use crate::tick::RETRY_AFTER;
use crate::tunnel::Status;
use crate::tunnels_tab::failed_names;
use crate::types::Tunnel;

verus! {

/// When a tunnel is tried again, with its name as text.
pub struct Retry {
    pub name: Seq<char>,
    pub next_at: int,
    pub attempts: int,
}

impl View for Reconnect {
    type V = Retry;

    open spec fn view(&self) -> Retry {
        Retry { name: self.name@, next_at: self.next_at as int, attempts: self.attempts as int }
    }
}

pub open spec fn retries(v: Seq<Reconnect>) -> Seq<Retry> {
    v.map_values(|r: Reconnect| r@)
}

/// A time later than now, as far as it can be counted.
pub open spec fn later(now: int, by: int) -> int {
    if now + by <= u64::MAX {
        now + by
    } else {
        u64::MAX as int
    }
}

fn time_later(now: u64, by: u64) -> (r: u64)
    ensures
        r == later(now as int, by as int),
{
    if by <= u64::MAX - now {
        now + by
    } else {
        u64::MAX
    }
}

/// One attempt more, as far as they can be counted.
pub open spec fn one_more_attempt(n: int) -> int {
    if n < u32::MAX {
        n + 1
    } else {
        n
    }
}

/// How long to wait after so many attempts: three seconds for each, up to ten.
pub open spec fn backoff(attempts: int) -> int {
    RETRY_AFTER * (if attempts < 10 {
        attempts
    } else {
        10
    })
}

/// A failed tunnel is to be tried again: it asks for it, and what it runs
/// through is there. Retrying is pointless while that is down.
pub open spec fn eligible(a: App, name: Seq<char>) -> bool {
    let t = a.tunnels@[place_of(a.tunnels@, name)];
    &&& has_name(a.tunnels@, name)
    &&& t.auto_reconnect
    &&& satisfied(a.vpn.providers@, t.requires_vpn@)
    &&& t.depends_on@.len() == 0 || tunnel_status(a.active@, t.depends_on@) == Some(Status::Up)
}

pub open spec fn retry_named(name: Seq<char>) -> spec_fn(Retry) -> bool {
    |r: Retry| r.name == name
}

/// The waiting list, with this tunnel in it.
pub open spec fn waiting(rs: Seq<Retry>, name: Seq<char>, now: int) -> Seq<Retry> {
    if first_where(rs, retry_named(name)) < rs.len() {
        rs
    } else {
        rs.push(Retry { name, next_at: later(now, RETRY_AFTER as int), attempts: 0 })
    }
}

/// The waiting list once these failed tunnels have been looked at.
pub open spec fn waiting_after(a: App, rs: Seq<Retry>, names: Seq<Seq<char>>, now: int) -> Seq<Retry>
    decreases names.len(),
{
    if names.len() == 0 {
        rs
    } else {
        let before = waiting_after(a, rs, names.drop_last(), now);
        if eligible(a, names.last()) {
            waiting(before, names.last(), now)
        } else {
            before
        }
    }
}

/// The tunnels among these that are tried again now.
pub open spec fn retry_acts(a: App, rs: Seq<Retry>, names: Seq<Seq<char>>, now: int) -> Seq<Act>
    decreases names.len(),
{
    if names.len() == 0 {
        Seq::empty()
    } else {
        let before = retry_acts(a, rs, names.drop_last(), now);
        let name = names.last();
        let list = waiting_after(a, rs, names, now);
        let r = list[first_where(list, retry_named(name))];
        if eligible(a, name) && r.next_at <= now {
            before.push(
                Act::RetryTunnel {
                    idx: place_of(a.tunnels@, name),
                    attempts: one_more_attempt(r.attempts),
                },
            )
        } else {
            before
        }
    }
}

proof fn lemma_same_place(v: Seq<Reconnect>, name: Seq<char>)
    ensures
        first_where(retries(v), retry_named(name)) == place_of(v, name),
{
    lemma_place(v, name);
    let k = place_of(v, name);
    let p = retry_named(name);
    assert forall|i: int| 0 <= i < k implies !p(#[trigger] retries(v)[i]) by {
        assert(v[i].name_spec() != name);
    }
    lemma_first_where_is(retries(v), p, k);
}

impl App {
    /// Whether a failed tunnel is to be tried again, and where it stands in the
    /// list.
    fn to_retry(&self, name: &str) -> (r: Option<usize>)
        requires
            self.wf(),
        ensures
            r is Some <==> eligible(*self, name@),
            r is Some ==> r->0 == place_of(self.tunnels@, name@) && r->0 < self.tunnels@.len(),
    {
        let i: usize = match position(self.tunnels.as_slice(), name) {
            None => {
                return None;
            },
            Some(i) => i,
        };
        let t = &self.tunnels[i];
        if !t.auto_reconnect {
            return None;
        }
        if !self.vpn_satisfied(t.requires_vpn.as_str()) {
            return None;
        }
        if !t.depends_on.as_str().is_empty() {
            let up = match status_of_tunnel(&self.active, t.depends_on.as_str()) {
                Some(s) => s == Status::Up,
                None => false,
            };
            if !up {
                return None;
            }
        }
        Some(i)
    }

    /// Put the tunnels that have failed on the waiting list, and try those again
    /// whose time has come.
    pub fn handle_reconnects(&mut self, now: u64) -> (r: Vec<Effect>)
        requires
            old(self).wf(),
        ensures
            final(self).wf(),
            *final(self) == (App { reconnect: final(self).reconnect, ..*old(self) }),
            retries(final(self).reconnect@) == waiting_after(
                *old(self),
                retries(old(self).reconnect@),
                failed_names(old(self).active@),
                now as int,
            ),
            acts(r@) == retry_acts(
                *old(self),
                retries(old(self).reconnect@),
                failed_names(old(self).active@),
                now as int,
            ),
    {
        let ghost a = *self;
        let ghost rs = retries(self.reconnect@);
        let failed = self.failed_tunnels();
        let ghost names = texts(failed@);
        let mut out = effects::nothing();
        let mut i: usize = 0;
        assert(names.take(0) =~= Seq::<Seq<char>>::empty());
        while i < failed.len()
            invariant
                i <= failed@.len(),
                names == texts(failed@),
                rs == retries(a.reconnect@),
                a.wf(),
                self.wf(),
                *self == (App { reconnect: self.reconnect, ..a }),
                retries(self.reconnect@) == waiting_after(a, rs, names.take(i as int), now as int),
                acts(out@) == retry_acts(a, rs, names.take(i as int), now as int),
            decreases failed@.len() - i,
        {
            let ghost name = names[i as int];
            assert(names.take(i + 1).drop_last() =~= names.take(i as int));
            assert(names.take(i + 1).last() == name);
            let ghost before = retries(self.reconnect@);
            assert(eligible(*self, name) == eligible(a, name));
            match self.to_retry(failed[i].as_str()) {
                Some(idx) => {
                    let (next_at, attempts) = self.wait_for(failed[i].as_str(), now);
                    proof {
                        lemma_same_place(self.reconnect@, name);
                        lemma_place(self.reconnect@, name);
                        let list = retries(self.reconnect@);
                        assert(list == waiting_after(a, rs, names.take(i + 1), now as int));
                        let k = place_of(self.reconnect@, name);
                        assert(list[k] == self.reconnect@[k]@);
                    }
                    if next_at <= now {
                        let attempts: u32 = if attempts < u32::MAX {
                            attempts + 1
                        } else {
                            attempts
                        };
                        effects::ask(&mut out, Effect::RetryTunnel { idx, attempts });
                    }
                },
                None => {},
            }
            i = i + 1;
        }
        assert(names.take(i as int) =~= names);
        out
    }

    /// Put a tunnel on the waiting list unless it is there, and when it is tried
    /// next.
    fn wait_for(&mut self, name: &str, now: u64) -> (r: (u64, u32))
        requires
            old(self).wf(),
        ensures
            final(self).wf(),
            *final(self) == (App { reconnect: final(self).reconnect, ..*old(self) }),
            retries(final(self).reconnect@) == waiting(
                retries(old(self).reconnect@),
                name@,
                now as int,
            ),
            has_name(final(self).reconnect@, name@),
            ({
                let e = final(self).reconnect@[place_of(final(self).reconnect@, name@)];
                r == (e.next_at, e.attempts)
            }),
    {
        let ghost was = self.reconnect@;
        proof {
            lemma_same_place(was, name@);
        }
        match position(self.reconnect.as_slice(), name) {
            Some(k) => (self.reconnect[k].next_at, self.reconnect[k].attempts),
            None => {
                let next_at: u64 = time_later(now, RETRY_AFTER);
                let x = Reconnect { name: name.to_owned(), next_at, attempts: 0 };
                proof {
                    law_put_in_is_there(was, x);
                    lemma_place(was, name@);
                    assert(with_one(was, x) == was.push(x));
                    assert(retries(was.push(x)) =~= retries(was).push(x@));
                }
                put(&mut self.reconnect, x);
                (next_at, 0)
            },
        }
    }

    /// What became of starting a tunnel once more.
    pub fn tunnel_retried(
        &mut self,
        idx: usize,
        attempts: u32,
        result: Result<Vec<String>, String>,
        now: u64,
    ) -> (r: Vec<Effect>)
        requires
            old(self).wf(),
            idx < old(self).tunnels@.len(),
        ensures
            final(self).wf(),
            retried(*old(self), *final(self), idx as int, attempts, result, now, acts(r@)),
    {
        let ghost a = *self;
        let name = self.tunnels[idx].name.clone();
        match result {
            Ok(argv) => {
                let ghost was = self.active@;
                let mut fresh = new_tunnel(name.clone(), argv, now);
                match position(self.active.as_slice(), name.as_str()) {
                    Some(k) => {
                        let n: u32 = self.active[k].restarts;
                        fresh.restarts = if n < u32::MAX {
                            n + 1
                        } else {
                            n
                        };
                    },
                    None => {},
                }
                proof {
                    law_put_in_is_there(self.active@, fresh);
                    law_taken_out_is_gone(self.reconnect@, name@, name@);
                }
                put(&mut self.active, fresh);
                let _ = take_out(&mut self.reconnect, name.as_str());
                let mut out = effects::nothing();
                let msg = cat5(
                    "reconnecting '",
                    name.as_str(),
                    "' (attempt ",
                    number::write(attempts as u64).as_str(),
                    ")",
                );
                effects::report(
                    &mut out,
                    LogTarget::Tunnel(name.clone()),
                    msg.as_str(),
                    false,
                );
                assert(acts(out@) =~= reported(Subject::Tunnel(name@), msg@, false));
                out
            },
            Err(_) => {
                let wait: u64 = RETRY_AFTER * (if attempts < 10 {
                    attempts as u64
                } else {
                    10
                });
                let x = Reconnect { name, next_at: time_later(now, wait), attempts };
                proof {
                    law_put_in_is_there(self.reconnect@, x);
                }
                put(&mut self.reconnect, x);
                effects::nothing()
            },
        }
    }
}

/// A failed tunnel has been started once more, or it is back on the waiting
/// list. A fresh one takes the place of the failed one and counts its restarts.
pub open spec fn retried(
    a: App,
    b: App,
    idx: int,
    attempts: u32,
    result: Result<Vec<String>, String>,
    now: u64,
    out: Seq<Act>,
) -> bool {
    let name = a.tunnels@[idx].name@;
    match result {
        Ok(argv) => {
            let x = b.active@.last();
            &&& b == (App { active: b.active, reconnect: b.reconnect, ..a })
            &&& b.active@.len() > 0
            &&& b.active@ == with_one(a.active@, x)
            &&& fresh_tunnel(
                LiveTunnel { restarts: 0, ..x },
                name,
                texts(argv@),
                now,
            )
            &&& x.restarts == if has_name(a.active@, name) {
                one_more_attempt(a.active@[place_of(a.active@, name)].restarts as int)
            } else {
                0
            }
            &&& b.reconnect@ == without(a.reconnect@, name)
            &&& out == reported(
                Subject::Tunnel(name),
                "reconnecting '"@ + name + "' (attempt "@ + decimal(attempts as nat) + ")"@,
                false,
            )
        },
        Err(_) => {
            let x = b.reconnect@.last();
            &&& b == (App { reconnect: b.reconnect, ..a })
            &&& b.reconnect@.len() > 0
            &&& b.reconnect@ == with_one(a.reconnect@, x)
            &&& x@ == (Retry {
                name,
                next_at: later(now as int, backoff(attempts as int)),
                attempts: attempts as int,
            })
            &&& out.len() == 0
        },
    }
}

/// The wait between attempts is three seconds for each of the first ten, so it
/// grows with each, and stays at thirty seconds from there on.
pub proof fn law_backoff_grows(n: int, m: int)
    requires
        0 <= n <= m,
    ensures
        backoff(n) <= backoff(m) <= 30_000,
        n >= 1 ==> backoff(n) >= 3_000,
        n <= 10 ==> backoff(n) == 3_000 * n,
        n >= 10 ==> backoff(n) == 30_000,
{
}

/// The list only grew at its end.
spec fn longer(a: Seq<Retry>, b: Seq<Retry>) -> bool {
    &&& a.len() <= b.len()
    &&& forall|i: int| 0 <= i < a.len() ==> #[trigger] b[i] == a[i]
}

proof fn lemma_stays_first(a: Seq<Retry>, b: Seq<Retry>, name: Seq<char>)
    requires
        longer(a, b),
        first_where(a, retry_named(name)) < a.len(),
    ensures
        first_where(b, retry_named(name)) == first_where(a, retry_named(name)),
{
    let p = retry_named(name);
    lemma_first_where(a, p);
    let k = first_where(a, p);
    assert(b[k] == a[k]);
    assert forall|i: int| 0 <= i < k implies !p(#[trigger] b[i]) by {
        assert(b[i] == a[i]);
    }
    lemma_first_where_is(b, p, k);
}

/// Looking at failed tunnels takes nobody off the waiting list, and who is new on
/// it waits for three seconds.
proof fn lemma_waiting_grows(a: App, rs: Seq<Retry>, names: Seq<Seq<char>>, now: int)
    ensures
        longer(rs, waiting_after(a, rs, names, now)),
        forall|i: int|
            rs.len() <= i < waiting_after(a, rs, names, now).len() ==> {
                let e = #[trigger] waiting_after(a, rs, names, now)[i];
                &&& names.contains(e.name)
                &&& eligible(a, e.name)
                &&& e.attempts == 0
                &&& e.next_at == later(now, RETRY_AFTER as int)
            },
    decreases names.len(),
{
    if names.len() > 0 {
        let head = names.drop_last();
        lemma_waiting_grows(a, rs, head, now);
        let before = waiting_after(a, rs, head, now);
        let all = waiting_after(a, rs, names, now);
        assert(names[names.len() - 1] == names.last());
        assert forall|i: int| rs.len() <= i < all.len() implies {
            let e = #[trigger] all[i];
            &&& names.contains(e.name)
            &&& eligible(a, e.name)
            &&& e.attempts == 0
            &&& e.next_at == later(now, RETRY_AFTER as int)
        } by {
            if i < before.len() {
                assert(all[i] == before[i]);
                let k = choose|k: int| 0 <= k < head.len() && head[k] == before[i].name;
                assert(names[k] == before[i].name);
            }
        }
    }
}

proof fn lemma_retried_in_time(
    a: App,
    rs: Seq<Retry>,
    names: Seq<Seq<char>>,
    now: int,
    name: Seq<char>,
)
    requires
        names.contains(name),
        eligible(a, name),
    ensures
        ({
            let list = waiting_after(a, rs, names, now);
            let e = first_where(list, retry_named(name));
            &&& 0 <= e < list.len()
            &&& list[e].name == name
            &&& list[e].next_at <= now ==> retry_acts(a, rs, names, now).contains(
                Act::RetryTunnel {
                    idx: place_of(a.tunnels@, name),
                    attempts: one_more_attempt(list[e].attempts),
                },
            )
        }),
    decreases names.len(),
{
    let p = retry_named(name);
    let head = names.drop_last();
    let before = waiting_after(a, rs, head, now);
    let list = waiting_after(a, rs, names, now);
    let acts = retry_acts(a, rs, names, now);
    if names.last() == name {
        lemma_first_where(before, p);
        lemma_first_where(list, p);
        if first_where(before, p) == before.len() {
            assert(list == before.push(list.last()));
            assert forall|i: int| 0 <= i < before.len() implies !p(#[trigger] list[i]) by {
                assert(list[i] == before[i]);
            }
            assert(p(list[before.len() as int]));
            lemma_first_where_is(list, p, before.len() as int);
        }
        let e = first_where(list, p);
        assert(p(list[e]));
        if list[e].next_at <= now {
            assert(acts[acts.len() - 1] == (Act::RetryTunnel {
                idx: place_of(a.tunnels@, name),
                attempts: one_more_attempt(list[e].attempts),
            }));
        }
    } else {
        let i = choose|i: int| 0 <= i < names.len() && names[i] == name;
        assert(head[i] == name);
        lemma_retried_in_time(a, rs, head, now, name);
        assert(longer(before, list));
        lemma_stays_first(before, list, name);
        let e = first_where(list, p);
        if list[e].next_at <= now {
            let x = Act::RetryTunnel {
                idx: place_of(a.tunnels@, name),
                attempts: one_more_attempt(list[e].attempts),
            };
            let earlier = retry_acts(a, rs, head, now);
            let k = choose|k: int| 0 <= k < earlier.len() && earlier[k] == x;
            assert(acts[k] == x);
        }
    }
}

pub proof fn lemma_failed_is_listed(live: Seq<LiveTunnel>, i: int)
    requires
        0 <= i < live.len(),
        live[i].status == Status::Failed,
    ensures
        failed_names(live).contains(live[i].name@),
    decreases live.len(),
{
    let head = live.drop_last();
    let all = failed_names(live);
    if i == live.len() - 1 {
        assert(all[all.len() - 1] == live[i].name@);
    } else {
        assert(head[i] == live[i]);
        lemma_failed_is_listed(head, i);
        let k = choose|k: int|
            0 <= k < failed_names(head).len() && failed_names(head)[k] == live[i].name@;
        assert(all[k] == live[i].name@);
    }
}

pub proof fn lemma_listed_has_failed(live: Seq<LiveTunnel>, name: Seq<char>)
    requires
        failed_names(live).contains(name),
    ensures
        exists|i: int|
            0 <= i < live.len() && (#[trigger] live[i]).name@ == name && live[i].status
                == Status::Failed,
    decreases live.len(),
{
    let all = failed_names(live);
    let k = choose|k: int| 0 <= k < all.len() && all[k] == name;
    if live.len() > 0 {
        let head = live.drop_last();
        if live.last().status == Status::Failed && k == all.len() - 1 {
            assert(live[live.len() - 1].name@ == name);
        } else {
            assert(failed_names(head)[k] == name);
            lemma_listed_has_failed(head, name);
            let i = choose|i: int|
                0 <= i < head.len() && (#[trigger] head[i]).name@ == name && head[i].status
                    == Status::Failed;
            assert(live[i] == head[i]);
        }
    }
}

/// The tunnel of that name is running and up.
pub open spec fn is_up(live: Seq<LiveTunnel>, name: Seq<char>) -> bool {
    exists|j: int|
        0 <= j < live.len() && (#[trigger] live[j]).name@ == name && live[j].status == Status::Up
}

proof fn lemma_is_up(live: Seq<LiveTunnel>, name: Seq<char>)
    requires
        one_each(live),
    ensures
        is_up(live, name) <==> tunnel_status(live, name) == Some(Status::Up),
{
    lemma_place(live, name);
    let k = place_of(live, name);
    if is_up(live, name) {
        let j = choose|j: int|
            0 <= j < live.len() && (#[trigger] live[j]).name@ == name && live[j].status
                == Status::Up;
        assert(live[j].name_spec() == name);
        if k < j {
            assert(live[k].name_spec() != live[j].name_spec());
        }
    } else if k < live.len() {
        assert(live[k].name_spec() == live[k].name@);
    }
}

/// A running tunnel that has failed, wants to be reconnected, has its VPN, and
/// stands on nothing or on a tunnel that is up, is waiting for its retry
/// afterwards: since before with its time unchanged, or from now on for three
/// seconds. If its time has come, it is tried again at once, and counted as one
/// attempt more.
pub proof fn law_failed_tunnel_is_tried_again(a: App, now: u64, i: int, k: int)
    requires
        a.wf(),
        0 <= i < a.active@.len(),
        a.active@[i].status == Status::Failed,
        0 <= k < a.tunnels@.len(),
        a.tunnels@[k].name@ == a.active@[i].name@,
        forall|m: int| 0 <= m < k ==> (#[trigger] a.tunnels@[m]).name@ != a.active@[i].name@,
        a.tunnels@[k].auto_reconnect,
        satisfied(a.vpn.providers@, a.tunnels@[k].requires_vpn@),
        a.tunnels@[k].depends_on@.len() == 0 || is_up(a.active@, a.tunnels@[k].depends_on@),
    ensures
        ({
            let names = failed_names(a.active@);
            let was = retries(a.reconnect@);
            let list = waiting_after(a, was, names, now as int);
            let out = retry_acts(a, was, names, now as int);
            exists|e: int| {
                &&& 0 <= e < list.len()
                &&& (#[trigger] list[e]).name == a.active@[i].name@
                &&& e < was.len() ==> list[e] == was[e]
                &&& e >= was.len() ==> list[e].attempts == 0 && (list[e].next_at == now + 3_000
                    || list[e].next_at == u64::MAX)
                &&& list[e].next_at <= now ==> exists|x: int|
                    0 <= x < out.len() && (#[trigger] out[x] matches Act::RetryTunnel {
                        idx,
                        attempts,
                    } && idx == k && (attempts == list[e].attempts + 1 || attempts == u32::MAX))
            }
        }),
{
    let name = a.active@[i].name@;
    let names = failed_names(a.active@);
    let was = retries(a.reconnect@);
    let list = waiting_after(a, was, names, now as int);
    let out = retry_acts(a, was, names, now as int);
    lemma_failed_is_listed(a.active@, i);
    lemma_is_up(a.active@, a.tunnels@[k].depends_on@);
    lemma_place(a.tunnels@, name);
    assert(a.tunnels@[k].name_spec() == name);
    if place_of(a.tunnels@, name) < k {
        assert(a.tunnels@[place_of(a.tunnels@, name)].name_spec() == name);
    }
    assert(place_of(a.tunnels@, name) == k);
    assert(eligible(a, name));
    lemma_retried_in_time(a, was, names, now as int, name);
    lemma_waiting_grows(a, was, names, now as int);
    let e = first_where(list, retry_named(name));
    if e < was.len() {
        assert(list[e] == was[e]);
        assert(was[e] == a.reconnect@[e]@);
    }
    assert(list[e].name == name);
    if list[e].next_at <= now {
        let r = Act::RetryTunnel { idx: k, attempts: one_more_attempt(list[e].attempts) };
        assert(out.contains(r));
        let x = choose|x: int| 0 <= x < out.len() && out[x] == r;
        assert(out[x] matches Act::RetryTunnel { idx, attempts } && idx == k && (attempts
            == list[e].attempts + 1 || attempts == u32::MAX));
    }
}

/// Only a running tunnel that has failed is tried again, and only one that was
/// waiting since before.
pub proof fn law_retry_has_its_reason(a: App, now: u64, i: int)
    requires
        a.wf(),
        0 <= i < retry_acts(
            a,
            retries(a.reconnect@),
            failed_names(a.active@),
            now as int,
        ).len(),
    ensures
        ({
            let was = retries(a.reconnect@);
            let out = retry_acts(a, was, failed_names(a.active@), now as int);
            out[i] matches Act::RetryTunnel { idx, attempts } && {
                let t = a.tunnels@[idx];
                &&& 0 <= idx < a.tunnels@.len()
                &&& t.auto_reconnect
                &&& satisfied(a.vpn.providers@, t.requires_vpn@)
                &&& t.depends_on@.len() == 0 || is_up(a.active@, t.depends_on@)
                &&& exists|k: int|
                    0 <= k < a.active@.len() && (#[trigger] a.active@[k]).name@ == t.name@
                        && a.active@[k].status == Status::Failed
                &&& (now < u64::MAX ==> exists|e: int|
                    0 <= e < was.len() && (#[trigger] was[e]).name == t.name@ && was[e].next_at
                        <= now && (attempts == was[e].attempts + 1 || attempts == u32::MAX))
            }
        }),
{
    let names = failed_names(a.active@);
    law_no_pointless_retry(a, retries(a.reconnect@), names, now as int, i);
    let r = retry_acts(a, retries(a.reconnect@), names, now as int)[i];
    let idx = r->RetryTunnel_idx;
    lemma_is_up(a.active@, a.tunnels@[idx].depends_on@);
    lemma_listed_has_failed(a.active@, a.tunnels@[idx].name@);
}

/// A tunnel is never tried again while what it runs through is down, nor before
/// its time.
pub proof fn law_no_pointless_retry(a: App, rs: Seq<Retry>, names: Seq<Seq<char>>, now: int, i: int)
    requires
        0 <= i < retry_acts(a, rs, names, now).len(),
    ensures
        retry_acts(a, rs, names, now)[i] matches Act::RetryTunnel { idx, attempts } && 0 <= idx
            < a.tunnels@.len() && names.contains(a.tunnels@[idx].name@)
            && a.tunnels@[idx].auto_reconnect && satisfied(
            a.vpn.providers@,
            a.tunnels@[idx].requires_vpn@,
        ) && (a.tunnels@[idx].depends_on@.len() == 0 || tunnel_status(
            a.active@,
            a.tunnels@[idx].depends_on@,
        ) == Some(Status::Up)) && (now < u64::MAX ==> exists|e: int|
            0 <= e < rs.len() && (#[trigger] rs[e]).name == a.tunnels@[idx].name@ && rs[e].next_at
                <= now && attempts == one_more_attempt(rs[e].attempts)),
    decreases names.len(),
{
    if names.len() > 0 {
        let head = names.drop_last();
        let before = retry_acts(a, rs, head, now);
        let name = names.last();
        lemma_place(a.tunnels@, name);
        if i < before.len() {
            law_no_pointless_retry(a, rs, head, now, i);
            assert(retry_acts(a, rs, names, now)[i] == before[i]);
            let n = a.tunnels@[before[i]->RetryTunnel_idx].name@;
            let k = choose|k: int| 0 <= k < head.len() && head[k] == n;
            assert(names[k] == n);
        } else {
            assert(names[names.len() - 1] == name);
            assert(a.tunnels@[place_of(a.tunnels@, name)].name_spec() == name);
            let list = waiting_after(a, rs, names, now);
            let p = retry_named(name);
            let e = first_where(list, p);
            lemma_first_where(list, p);
            lemma_retried_in_time(a, rs, names, now, name);
            lemma_waiting_grows(a, rs, names, now);
            if e < rs.len() {
                assert(list[e] == rs[e]);
            } else {
                assert(list[e].next_at == later(now, RETRY_AFTER as int));
            }
        }
    }
}

/// Once a failed tunnel has been started again it runs under its name, counts one
/// restart more than the one it replaces, and no longer waits. If it could not be
/// started it waits again, longer the more often it was tried, and what runs is
/// left alone.
pub proof fn law_after_a_retry(
    a: App,
    b: App,
    idx: int,
    attempts: u32,
    result: Result<Vec<String>, String>,
    now: u64,
    out: Seq<Act>,
)
    requires
        a.wf(),
        0 <= idx < a.tunnels@.len(),
        retried(a, b, idx, attempts, result, now, out),
    ensures
        result is Ok ==> {
            let name = a.tunnels@[idx].name@;
            &&& exists|i: int| {
                &&& 0 <= i < b.active@.len()
                &&& (#[trigger] b.active@[i]).name@ == name
                &&& b.active@[i].status == Status::Connecting
                &&& texts(b.active@[i].argv@) == texts(result->Ok_0@)
                &&& forall|j: int|
                    0 <= j < a.active@.len() && (#[trigger] a.active@[j]).name@ == name
                        && a.active@[j].restarts < u32::MAX ==> b.active@[i].restarts
                        == a.active@[j].restarts + 1
            }
            &&& forall|i: int|
                0 <= i < b.reconnect@.len() ==> (#[trigger] b.reconnect@[i]).name@ != name
        },
        result is Err ==> {
            let name = a.tunnels@[idx].name@;
            &&& b.active@ == a.active@
            &&& exists|i: int| {
                &&& 0 <= i < b.reconnect@.len()
                &&& (#[trigger] b.reconnect@[i]).name@ == name
                &&& b.reconnect@[i].attempts == attempts
                &&& attempts >= 1 && now <= u64::MAX - 30_000 ==> now + 3_000
                    <= b.reconnect@[i].next_at <= now + 30_000
                &&& attempts <= 10 && now <= u64::MAX - 30_000 ==> b.reconnect@[i].next_at == now
                    + 3_000 * attempts
            }
        },
{
    let name = a.tunnels@[idx].name@;
    match result {
        Ok(argv) => {
            let x = b.active@.last();
            let i = b.active@.len() - 1;
            assert(b.active@[i] == x);
            lemma_place(a.active@, name);
            let k = place_of(a.active@, name);
            assert forall|j: int|
                0 <= j < a.active@.len() && (#[trigger] a.active@[j]).name@ == name
                    && a.active@[j].restarts < u32::MAX implies x.restarts == a.active@[j].restarts
                + 1 by {
                assert(a.active@[j].name_spec() == name);
                if k < j {
                    assert(a.active@[k].name_spec() != a.active@[j].name_spec());
                }
                assert(k == j);
            }
            law_taken_out_is_gone(a.reconnect@, name, name);
            lemma_place(b.reconnect@, name);
            assert forall|i: int| 0 <= i < b.reconnect@.len() implies (
            #[trigger] b.reconnect@[i]).name@ != name by {
                assert(b.reconnect@[i].name_spec() != name);
            }
        },
        Err(_) => {
            let i = b.reconnect@.len() - 1;
            assert(b.reconnect@[i] == b.reconnect@.last());
            assert(b.reconnect@[i]@.name == name);
        },
    }
}

}
