//! What every report shows: the connection it is about, what that needs first, what
//! was done about them, and what they logged.

use vstd::prelude::*;
use crate::app::App;
use crate::dependency_laws::{asks, law_every_target_is_planned, law_needs_come_first};
use crate::live::{has_name, place_of};
use crate::logs::{Entry, LogTarget, Subject};
use crate::number::decimal;
use crate::plan::{log_of, Job};
use crate::redact::redacted;
use crate::report::{
    belongs, chain_log_text, chain_spec, field_text, journal_line, journal_text, links_of,
    plain_lines, plain_text, step_for, with_chain, with_conn, with_host, with_needs, with_tunnel,
};
use crate::rdp;
use crate::sort::sorted;
use crate::split::{occurs, occurs_at};
use crate::ssh;
use crate::text::{joined, texts};
use crate::tunnel;
use crate::types::{RdpConnection, SshHost, Tunnel};

verus! {

proof fn lemma_still_there(a: Seq<char>, t: Seq<char>, more: Seq<char>)
    requires
        occurs(a, t),
    ensures
        occurs(a + more, t),
{
    let i = choose|i: int| occurs_at(a, t, i);
    assert((a + more).subrange(i, i + t.len()) =~= a.subrange(i, i + t.len()));
    assert(occurs_at(a + more, t, i));
}

proof fn lemma_there(a: Seq<char>, t: Seq<char>)
    ensures
        occurs(a + t, t),
{
    assert((a + t).subrange(a.len() as int, a.len() as int + t.len()) =~= t);
    assert(occurs_at(a + t, t, a.len() as int));
}

/// What was written stays written: needs and chain only add to a report.
proof fn lemma_needs_add(out: Seq<char>, app: App, vpn: Seq<char>, dep: Seq<char>, t: Seq<char>)
    requires
        occurs(out, t),
    ensures
        occurs(with_needs(out, app, vpn, dep), t),
{
    reveal(with_needs);
    let all = with_needs(out, app, vpn, dep);
    let more = all.skip(out.len() as int);
    assert(all =~= out + more);
    lemma_still_there(out, t, more);
}

proof fn lemma_chain_adds(out: Seq<char>, app: App, j: Job, t: Seq<char>)
    requires
        occurs(out, t),
    ensures
        occurs(with_chain(out, app, j), t),
{
    reveal(with_chain);
    let all = with_chain(out, app, j);
    let more = all.skip(out.len() as int);
    assert(all =~= out + more);
    lemma_still_there(out, t, more);
}

// ---------------------------------------------------------------------------
// The subject
// ---------------------------------------------------------------------------

/// A report about a tunnel shows the record: its name, the host it goes through,
/// what it forwards, and the command line that it runs or would run with.
#[verifier::rlimit(40)]
pub proof fn law_report_shows_the_tunnel(out: Seq<char>, app: App, clock: u64, t: Tunnel)
    ensures
        ({
            let r = with_tunnel(out, app, clock, t);
            &&& occurs(r, field_text("name"@, t.name@))
            &&& occurs(r, field_text("ssh host"@, t.ssh_host@))
            &&& occurs(r, field_text("forwards"@, t.forward_spec()))
            &&& !has_name(app.active@, t.name@) ==> occurs(r, field_text("state"@, "not running"@))
                && occurs(
                r,
                field_text(
                    "command"@,
                    redacted(joined(tunnel::args_of(t, None), " "@))
                        + " (the internal port is picked when it starts)"@,
                ),
            )
            &&& has_name(app.active@, t.name@) ==> {
                let l = app.active@[place_of(app.active@, t.name@)];
                &&& occurs(r, field_text("state"@, l.status.label_spec()))
                &&& occurs(r, field_text("command"@, redacted(joined(texts(l.argv@), " "@))))
            }
        }),
{
    reveal(with_tunnel);
    let a = field_text("name"@, t.name@);
    let b = field_text("ssh host"@, t.ssh_host@);
    let c = field_text("forwards"@, t.forward_spec());
    let o1 = out + a;
    let o2 = o1 + field_text("group"@, t.group@);
    let o3 = o2 + b;
    let o4 = o3 + field_text("forward"@, t.forward.label_spec());
    let o5 = o4 + c;
    let o6 = o5 + field_text("extra args"@, redacted(t.extra_args@));
    let o7 = o6 + field_text("auto reconnect"@, if t.auto_reconnect { "on"@ } else { "off"@ });
    let o8 = with_needs(o7, app, t.requires_vpn@, t.depends_on@);
    let r = with_tunnel(out, app, clock, t);
    lemma_there(out, a);
    lemma_still_there(o1, a, field_text("group"@, t.group@));
    lemma_still_there(o2, a, b);
    lemma_still_there(o3, a, field_text("forward"@, t.forward.label_spec()));
    lemma_still_there(o4, a, c);
    lemma_there(o2, b);
    lemma_still_there(o3, b, field_text("forward"@, t.forward.label_spec()));
    lemma_still_there(o4, b, c);
    lemma_there(o4, c);
    lemma_still_there(o5, a, field_text("extra args"@, redacted(t.extra_args@)));
    lemma_still_there(o5, b, field_text("extra args"@, redacted(t.extra_args@)));
    lemma_still_there(o5, c, field_text("extra args"@, redacted(t.extra_args@)));
    let auto = field_text("auto reconnect"@, if t.auto_reconnect { "on"@ } else { "off"@ });
    lemma_still_there(o6, a, auto);
    lemma_still_there(o6, b, auto);
    lemma_still_there(o6, c, auto);
    lemma_needs_add(o7, app, t.requires_vpn@, t.depends_on@, a);
    lemma_needs_add(o7, app, t.requires_vpn@, t.depends_on@, b);
    lemma_needs_add(o7, app, t.requires_vpn@, t.depends_on@, c);
    if has_name(app.active@, t.name@) {
        let l = app.active@[place_of(app.active@, t.name@)];
        let d = field_text("state"@, l.status.label_spec());
        let p1 = o8 + d;
        let p2 = match l.error {
            Some(e) => p1 + field_text("last error"@, redacted(e@)),
            None => p1,
        };
        let p3 = p2 + field_text("started"@, crate::report::ago(clock, l.started_at));
        let p4 = p3 + field_text("restarts"@, decimal(l.restarts as nat));
        let e = field_text("command"@, redacted(joined(texts(l.argv@), " "@)));
        let p5 = p4 + e;
        let last = field_text("traffic"@, crate::report::traffic_text(l));
        assert(r == p5 + last);
        let mid = r.skip(o8.len() as int);
        assert(r =~= o8 + mid);
        lemma_still_there(o8, a, mid);
        lemma_still_there(o8, b, mid);
        lemma_still_there(o8, c, mid);
        lemma_there(o8, d);
        let rest = r.skip(p1.len() as int);
        assert(r =~= p1 + rest);
        lemma_still_there(p1, d, rest);
        lemma_there(p4, e);
        lemma_still_there(p5, e, last);
    } else {
        let d = field_text("state"@, "not running"@);
        let e = field_text(
            "command"@,
            redacted(joined(tunnel::args_of(t, None), " "@))
                + " (the internal port is picked when it starts)"@,
        );
        let p1 = o8 + d;
        assert(r == p1 + e);
        lemma_still_there(o8, a, d);
        lemma_still_there(o8, b, d);
        lemma_still_there(o8, c, d);
        lemma_still_there(p1, a, e);
        lemma_still_there(p1, b, e);
        lemma_still_there(p1, c, e);
        lemma_there(o8, d);
        lemma_still_there(p1, d, e);
        lemma_there(p1, e);
    }
}

/// A report about a host shows its name, its target and the command line of a
/// session.
pub proof fn law_report_shows_the_host(out: Seq<char>, app: App, h: SshHost)
    ensures
        ({
            let r = with_host(out, app, h);
            &&& occurs(r, field_text("name"@, h.name@))
            &&& occurs(
                r,
                field_text("target"@, h.destination_spec() + ":"@ + decimal(h.port as nat)),
            )
            &&& occurs(
                r,
                field_text(
                    "command"@,
                    redacted(
                        joined(ssh::preview_of(app.machine, h, app.ssh_password_helper), " "@),
                    ),
                ),
            )
        }),
{
    reveal(with_host);
    let r = with_host(out, app, h);
    let a = field_text("name"@, h.name@);
    let b = field_text("target"@, h.destination_spec() + ":"@ + decimal(h.port as nat));
    let c = field_text(
        "command"@,
        redacted(joined(ssh::preview_of(app.machine, h, app.ssh_password_helper), " "@)),
    );
    let o1 = out + a;
    let o2 = o1 + field_text("group"@, h.group@);
    let o3 = o2 + b;
    let o4 = o3 + field_text("auth"@, h.auth_spec());
    let o5 = o4 + field_text("password"@, crate::redact::secret_text(h.password@));
    let check = field_text(
        "host key check"@,
        if h.skip_host_key_check {
            "skipped"@
        } else {
            "normal"@
        },
    );
    let o6 = o5 + check;
    let o7 = o6 + field_text("extra args"@, redacted(h.extra_args@));
    let o8 = with_needs(o7, app, h.requires_vpn@, h.depends_on@);
    let o9 = o8 + field_text("opens in"@, app.ssh_launcher.label_spec(app.machine.os));
    let o10 = o9 + c;
    lemma_there(out, a);
    let m1 = o7.skip(o1.len() as int);
    assert(o7 =~= o1 + m1);
    lemma_still_there(o1, a, m1);
    lemma_there(o2, b);
    let m2 = o7.skip(o3.len() as int);
    assert(o7 =~= o3 + m2);
    lemma_still_there(o3, b, m2);
    lemma_needs_add(o7, app, h.requires_vpn@, h.depends_on@, a);
    lemma_needs_add(o7, app, h.requires_vpn@, h.depends_on@, b);
    let m3 = r.skip(o8.len() as int);
    assert(r =~= o8 + m3);
    lemma_still_there(o8, a, m3);
    lemma_still_there(o8, b, m3);
    lemma_there(o9, c);
    let m4 = r.skip(o10.len() as int);
    assert(r =~= o10 + m4);
    lemma_still_there(o10, c, m4);
}

/// A report about a desktop connection shows its name, its target and its login.
pub proof fn law_report_shows_the_connection(out: Seq<char>, app: App, clock: u64, c: RdpConnection)
    ensures
        ({
            let r = with_conn(out, app, clock, c);
            &&& occurs(r, field_text("name"@, c.name@))
            &&& occurs(r, field_text("target"@, c.host@ + ":"@ + decimal(c.port as nat)))
            &&& occurs(r, field_text("login"@, c.login_spec()))
            &&& !has_name(app.rdp_active@, c.name@) ==> occurs(
                r,
                field_text(
                    "command"@,
                    redacted(joined(rdp::args_of(c, app.rdp_client, None), " "@)),
                ),
            )
        }),
{
    reveal(with_conn);
    let r = with_conn(out, app, clock, c);
    let a = field_text("name"@, c.name@);
    let b = field_text("target"@, c.host@ + ":"@ + decimal(c.port as nat));
    let d = field_text("login"@, c.login_spec());
    let o1 = out + a;
    let o2 = o1 + field_text("group"@, c.group@);
    let o3 = o2 + field_text("client"@, app.rdp_client.program_spec());
    let o4 = o3 + b;
    let o5 = o4 + d;
    let o6 = o5 + field_text("password"@, "asked for on connect, never stored"@);
    let o7 = o6 + field_text("extra args"@, redacted(c.extra_args@));
    let o8 = with_needs(o7, app, c.requires_vpn@, c.depends_on@);
    lemma_there(out, a);
    let m1 = o7.skip(o1.len() as int);
    assert(o7 =~= o1 + m1);
    lemma_still_there(o1, a, m1);
    lemma_there(o3, b);
    let m2 = o7.skip(o4.len() as int);
    assert(o7 =~= o4 + m2);
    lemma_still_there(o4, b, m2);
    lemma_there(o4, d);
    let m3 = o7.skip(o5.len() as int);
    assert(o7 =~= o5 + m3);
    lemma_still_there(o5, d, m3);
    lemma_needs_add(o7, app, c.requires_vpn@, c.depends_on@, a);
    lemma_needs_add(o7, app, c.requires_vpn@, c.depends_on@, b);
    lemma_needs_add(o7, app, c.requires_vpn@, c.depends_on@, d);
    let m4 = r.skip(o8.len() as int);
    assert(r =~= o8 + m4);
    lemma_still_there(o8, a, m4);
    lemma_still_there(o8, b, m4);
    lemma_still_there(o8, d, m4);
    if !has_name(app.rdp_active@, c.name@) {
        let e = field_text("command"@, redacted(joined(rdp::args_of(c, app.rdp_client, None), " "@)));
        lemma_there(o8 + field_text("state"@, "no session"@), e);
    }
}

// ---------------------------------------------------------------------------
// What comes first
// ---------------------------------------------------------------------------

proof fn lemma_links(p: Seq<Job>, t: Subject, s: Subject)
    ensures
        links_of(p, t).contains(s) <==> s != t && exists|i: int|
            0 <= i < p.len() && log_of(#[trigger] p[i]) == s,
    decreases p.len(),
{
    let all = links_of(p, t);
    if p.len() > 0 {
        let head = p.drop_last();
        let before = links_of(head, t);
        let last = p.len() - 1;
        lemma_links(head, t, s);
        if all.contains(s) {
            let i = choose|i: int| 0 <= i < all.len() && all[i] == s;
            if i < before.len() {
                assert(before[i] == s);
                assert(before.contains(s));
                let k = choose|k: int| 0 <= k < head.len() && log_of(#[trigger] head[k]) == s;
                assert(p[k] == head[k]);
            } else {
                assert(log_of(p[last]) == s);
            }
        }
        if s != t && exists|i: int| 0 <= i < p.len() && log_of(#[trigger] p[i]) == s {
            let k = choose|i: int| 0 <= i < p.len() && log_of(#[trigger] p[i]) == s;
            if k < last {
                assert(head[k] == p[k]);
                assert(before.contains(s));
                let i = choose|i: int| 0 <= i < before.len() && before[i] == s;
                assert(all[i] == s);
            } else {
                assert(all[all.len() - 1] == s);
            }
        }
    }
}

/// The chain of a report holds the tunnel that the subject's record is stacked on,
/// and never the subject itself.
pub proof fn law_report_follows_the_stack(app: App, t: Subject, vpn: Seq<char>, dep: Seq<char>)
    requires
        step_for(t) is Some,
        asks(app.lists(), step_for(t)->0, vpn, dep),
        app.lists().plan(seq![step_for(t)->0]) is Ok,
        dep.len() > 0,
        t != Subject::Tunnel(dep),
    ensures
        chain_spec(app, t).contains(Subject::Tunnel(dep)),
        !chain_spec(app, t).contains(t),
{
    let j = step_for(t)->0;
    let targets = seq![j];
    let p = app.lists().plan(targets)->Ok_0;
    assert(targets[0] == j);
    assert(targets.contains(j));
    law_every_target_is_planned(app.lists(), targets, j);
    let at = choose|at: int| 0 <= at < p.len() && p[at] == j;
    law_needs_come_first(app.lists(), targets, at, vpn, dep);
    let i = choose|i: int| 0 <= i < at && #[trigger] p[i] == Job::Tunnel(dep);
    assert(log_of(p[i]) == Subject::Tunnel(dep));
    lemma_links(p, t, Subject::Tunnel(dep));
    lemma_links(p, t, t);
}

/// A report is about nothing that the plan for its subject does not hold.
pub proof fn law_report_follows_nothing_else(app: App, t: Subject, s: Subject)
    requires
        chain_spec(app, t).contains(s),
    ensures
        step_for(t) is Some,
        app.lists().plan(seq![step_for(t)->0]) is Ok,
        exists|i: int|
            0 <= i < app.lists().plan(seq![step_for(t)->0])->Ok_0.len() && log_of(
                #[trigger] app.lists().plan(seq![step_for(t)->0])->Ok_0[i],
            ) == s,
{
    lemma_links(app.lists().plan(seq![step_for(t)->0])->Ok_0, t, s);
}

// ---------------------------------------------------------------------------
// What was done and said
// ---------------------------------------------------------------------------

/// Everything that was done about the subject or its chain is in the report, an
/// error marked as one.
pub proof fn law_report_shows_what_was_done(
    es: Seq<(LogTarget, Entry)>,
    t: Subject,
    chain: Seq<Subject>,
    i: int,
)
    requires
        0 <= i < es.len(),
        es[i].0@ == t || chain.contains(es[i].0@) || t is Program,
    ensures
        occurs(journal_text(es, t, chain), journal_line(es[i].0@, es[i].1)),
    decreases es.len(),
{
    let head = es.drop_last();
    let line = journal_line(es[i].0@, es[i].1);
    assert(belongs(es[i].0@, t, chain)) by {
        crate::logs::law_covers(es[i].0@, es[i].0@);
        if chain.contains(es[i].0@) {
            let k = choose|k: int| 0 <= k < chain.len() && chain[k] == es[i].0@;
            assert(crate::logs::covers_spec(chain[k], es[i].0@));
        }
    }
    if i < head.len() {
        assert(head[i] == es[i]);
        law_report_shows_what_was_done(head, t, chain, i);
        if belongs(es.last().0@, t, chain) {
            lemma_still_there(
                journal_text(head, t, chain),
                line,
                journal_line(es.last().0@, es.last().1),
            );
        }
    } else {
        lemma_there(journal_text(head, t, chain), line);
    }
}

/// What was done about a connection that the report is not about is left out.
pub proof fn law_report_leaves_out_the_rest(
    es: Seq<(LogTarget, Entry)>,
    e: (LogTarget, Entry),
    t: Subject,
    chain: Seq<Subject>,
)
    requires
        e.0@ is Tunnel || e.0@ is Ssh || e.0@ is Rdp,
        !(t is Program),
        e.0@ != t,
        !chain.contains(e.0@),
        !chain.contains(Subject::Program),
    ensures
        journal_text(es.push(e), t, chain) == journal_text(es, t, chain),
{
    assert(es.push(e).drop_last() =~= es);
    assert forall|i: int| 0 <= i < chain.len() implies !crate::logs::covers_spec(
        #[trigger] chain[i],
        e.0@,
    ) by {
        assert(chain.contains(chain[i]));
    }
}

/// Every line of a log is in what is written of it.
pub proof fn law_every_line_is_written(es: Seq<Entry>, i: int)
    requires
        0 <= i < es.len(),
    ensures
        occurs(plain_lines(es), plain_text(es[i]) + "\n"@),
    decreases es.len(),
{
    let head = es.drop_last();
    if i < head.len() {
        assert(head[i] == es[i]);
        law_every_line_is_written(head, i);
        lemma_still_there(
            plain_lines(head),
            plain_text(es[i]) + "\n"@,
            plain_text(es.last()) + "\n"@,
        );
    } else {
        lemma_there(plain_lines(head), plain_text(es[i]) + "\n"@);
    }
}

/// The file beside a report holds the whole log of every link of the chain.
pub proof fn law_logs_of_the_chain_are_kept(app: App, chain: Seq<Subject>, i: int)
    requires
        0 <= i < chain.len(),
        sorted(app.lines_for(chain[i])).len() > 0,
    ensures
        occurs(chain_log_text(app, chain), plain_lines(sorted(app.lines_for(chain[i])))),
    decreases chain.len(),
{
    let head = chain.drop_last();
    let want = plain_lines(sorted(app.lines_for(chain[i])));
    let before = chain_log_text(app, head);
    let all = chain_log_text(app, chain);
    if i < head.len() {
        assert(head[i] == chain[i]);
        law_logs_of_the_chain_are_kept(app, head, i);
        let more = all.skip(before.len() as int);
        assert(all =~= before + more);
        lemma_still_there(before, want, more);
    } else {
        let front = before + ("──── "@ + crate::logs::title_of(chain.last()) + " ────\n\n"@);
        lemma_there(front, want);
        lemma_still_there(front + want, want, "\n"@);
        assert(all =~= front + want + "\n"@);
    }
}

} // verus!
