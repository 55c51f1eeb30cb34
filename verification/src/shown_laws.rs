//! What is on the screen, held against what it is about: every row names its
//! entry and tells its state, and every question names what it asks about.

use vstd::prelude::*;
use crate::activation::{blocking_of, progress_of, Clash, Running};
use crate::activation_laws::{has_session, is_running, lemma_has_session, runs_as};
use crate::app::App;
use crate::lists::{column, tunnel_dot, tunnel_row, tunnel_rows};
use crate::live::{lemma_has_name, one_each};
use crate::plan::{describe_of, Job};
use crate::prompts::{
    conflict_spec, panic_spec, profile_name, quit_spec, rdp_password_spec, rdp_question,
    ssh_question, tunnel_question, vpn_question,
};
use crate::rows::RowItem;
use crate::screen::PanicSummary;
use crate::session_lists::{conn_dot, rdp_row, rdp_row_list, ssh_row, ssh_row_list};
use crate::sheet::{Ink, Piece};
use crate::split::{occurs, occurs_at};
use crate::status_bar::bar;
use crate::tunnel::Status;
use crate::types::{RdpConnection, SshHost, Tunnel, VpnConfig};
use crate::vpn::ProviderId;
use crate::vpn_panes::{client_mark, client_row, profile_row, with_texts};
use crate::vpn_view::{ProviderState, VpnProfile};

verus! {

/// A text stands somewhere on a line.
pub open spec fn shows(line: Seq<Piece>, t: Seq<char>) -> bool {
    exists|i: int| 0 <= i < line.len() && occurs((#[trigger] line[i]).text, t)
}

/// A text stands on one of the lines.
pub open spec fn sheet_shows(lines: Seq<Seq<Piece>>, t: Seq<char>) -> bool {
    exists|i: int| 0 <= i < lines.len() && shows(#[trigger] lines[i], t)
}

proof fn lemma_inside(a: Seq<char>, t: Seq<char>, b: Seq<char>)
    ensures
        occurs(a + t + b, t),
        occurs(a + t, t),
        occurs(t, t),
{
    assert((a + t + b).subrange(a.len() as int, a.len() as int + t.len()) =~= t);
    assert(occurs_at(a + t + b, t, a.len() as int));
    assert((a + t).subrange(a.len() as int, a.len() as int + t.len()) =~= t);
    assert(occurs_at(a + t, t, a.len() as int));
    assert(t.subrange(0, t.len() as int) =~= t);
    assert(occurs_at(t, t, 0));
}

proof fn lemma_in_column(s: Seq<char>, width: nat)
    requires
        s.len() <= width,
    ensures
        occurs(" "@ + column(s, width), s),
        occurs(column(s, width), s),
{
    let gap = crate::ui::spaces(width - s.len());
    assert(column(s, width) == s + gap);
    lemma_inside(" "@, s, gap);
    assert(" "@ + column(s, width) =~= " "@ + s + gap);
    lemma_inside(Seq::empty(), s, gap);
    assert(Seq::<char>::empty() + s + gap =~= s + gap);
}

// ---------------------------------------------------------------------------
// Rows
// ---------------------------------------------------------------------------

/// The row of a tunnel shows its name and where it goes through, as far as they
/// fit, and its dot tells how it is: good exactly where it is up, a danger exactly
/// where it has failed.
pub proof fn law_tunnel_row_shows_the_tunnel(a: App, k: int, i: usize)
    requires
        one_each(a.active@),
        0 <= k < a.rows@.len(),
        a.rows@[k] == RowItem::Item(i),
    ensures
        ({
            let t = a.tunnels@[i as int];
            let line = tunnel_rows(a)[k];
            &&& t.name@.len() <= 16 ==> shows(line, t.name@)
            &&& t.ssh_host@.len() <= 12 ==> shows(line, t.ssh_host@)
            &&& line[1].ink == Ink::Good <==> runs_as(a.active@, t.name@, Status::Up)
            &&& line[1].ink == Ink::Danger <==> runs_as(a.active@, t.name@, Status::Failed)
            &&& line[1].ink == Ink::Dim <==> !is_running(a.active@, t.name@)
        }),
{
    let t = a.tunnels@[i as int];
    let line = tunnel_rows(a)[k];
    assert(line == tunnel_row(a, a.rows@[k]));
    crate::activation_laws::lemma_runs_as(a.active@, t.name@, Status::Up);
    crate::activation_laws::lemma_runs_as(a.active@, t.name@, Status::Failed);
    lemma_has_name(a.active@, t.name@);
    assert(line[1] == tunnel_dot(a, t.name@));
    if t.name@.len() <= 16 {
        lemma_in_column(t.name@, 16);
        assert(occurs(line[2].text, t.name@));
    }
    if t.ssh_host@.len() <= 12 {
        let gap = crate::ui::spaces(12 - t.ssh_host@.len());
        lemma_inside("via "@, t.ssh_host@, gap);
        assert("via "@ + column(t.ssh_host@, 12) =~= "via "@ + t.ssh_host@ + gap);
        assert(occurs(line[4].text, t.ssh_host@));
    }
}

/// The row of a host shows its name, marks it where a window of it is open, and
/// warns exactly where a password is stored for it.
pub proof fn law_host_row_shows_the_host(a: App, k: int, i: usize)
    requires
        0 <= k < a.ssh_rows@.len(),
        a.ssh_rows@[k] == RowItem::Item(i),
    ensures
        ({
            let h = a.ssh_hosts@[i as int];
            let line = ssh_row_list(a)[k];
            &&& h.name@.len() <= 16 ==> shows(line, h.name@)
            &&& line[1].ink == Ink::Good <==> a.windows_spec(h.name@) > 0
            &&& line[2].ink == Ink::Warn <==> h.password@.len() > 0
        }),
{
    let h = a.ssh_hosts@[i as int];
    let line = ssh_row_list(a)[k];
    assert(line == ssh_row(a, a.ssh_rows@[k]));
    if h.name@.len() <= 16 {
        lemma_in_column(h.name@, 16);
        assert(occurs(line[3].text, h.name@));
    }
}

/// The row of a desktop connection shows its name, and its dot is good exactly
/// where a session of it runs.
pub proof fn law_desktop_row_shows_the_connection(a: App, k: int, i: usize)
    requires
        one_each(a.rdp_active@),
        0 <= k < a.rdp_rows@.len(),
        a.rdp_rows@[k] == RowItem::Item(i),
    ensures
        ({
            let c = a.rdp_conns@[i as int];
            let line = rdp_row_list(a)[k];
            &&& c.name@.len() <= 16 ==> shows(line, c.name@)
            &&& line[1].ink == Ink::Good <==> has_session(a.rdp_active@, c.name@)
        }),
{
    let c = a.rdp_conns@[i as int];
    let line = rdp_row_list(a)[k];
    assert(line == rdp_row(a, a.rdp_rows@[k]));
    assert(line[1] == conn_dot(a, c.name@));
    lemma_has_session(a.rdp_active@, c.name@);
    if c.name@.len() <= 16 {
        lemma_in_column(c.name@, 16);
        assert(occurs(line[2].text, c.name@));
    }
}

/// The row of a profile shows its name. Up is what is stored here and active; what
/// was not started here is marked as such, whatever it does.
pub proof fn law_profile_row_shows_the_profile(a: App, id: ProviderId, p: VpnProfile)
    ensures
        ({
            let line = profile_row(a, id, p);
            &&& line[2].text == p.name@
            &&& line[1].ink == Ink::Good <==> p.foreign is None && p.active
            &&& line[1].ink == Ink::Warn <==> p.foreign is Some
        }),
{
}

/// The mark of a client is good exactly where it is installed, connected and has
/// nothing going on.
pub proof fn law_client_mark_tells_the_state(s: ProviderState)
    ensures
        client_mark(s).1 == Ink::Good <==> s.installed && s.status.connected && s.busy is None,
        client_mark(s).1 == Ink::Warn <==> s.installed && s.busy is Some,
        client_row(s)[2].text == s.id.slug_spec(),
{
}

/// While a plan is under way the status bar shows what it is for and how far it
/// has got; otherwise it shows the last message, an error as a danger.
pub proof fn law_status_bar_shows_the_news(a: App)
    ensures
        a.activation matches Some(act) ==> shows(bar(a), act.target@) && shows(
            bar(a),
            progress_of(act@),
        ),
        a.activation is None ==> (a.status_msg matches Some(m) ==> shows(bar(a), m.text@) && (
        bar(a)[0].ink == Ink::Danger <==> m.error)),
{
    match a.activation {
        Some(act) => {
            lemma_inside("starting "@, act.target@, " "@);
            lemma_inside(Seq::empty(), progress_of(act@), Seq::empty());
            assert(occurs(bar(a)[1].text, act.target@));
            assert(occurs(bar(a)[2].text, progress_of(act@)));
        },
        None => match a.status_msg {
            Some(m) => {
                lemma_inside(" "@, m.text@, Seq::empty());
                assert(occurs(bar(a)[0].text, m.text@));
            },
            None => {},
        },
    }
}

// ---------------------------------------------------------------------------
// Questions
// ---------------------------------------------------------------------------

/// A question before deleting names the entry that would go.
pub proof fn law_delete_question_names_the_entry(
    ts: Seq<Tunnel>,
    hs: Seq<SshHost>,
    cs: Seq<RdpConnection>,
    i: int,
)
    requires
        0 <= i,
    ensures
        i < ts.len() ==> occurs(tunnel_question(ts, i), ts[i].name@),
        i < hs.len() ==> occurs(ssh_question(hs, i), hs[i].name@),
        i < cs.len() ==> occurs(rdp_question(cs, i), cs[i].name@),
{
    if i < ts.len() {
        lemma_inside(" delete tunnel '"@, ts[i].name@, "'?"@);
    }
    if i < hs.len() {
        lemma_inside(" delete SSH host '"@, hs[i].name@, "'?"@);
    }
    if i < cs.len() {
        lemma_inside(" delete RDP connection '"@, cs[i].name@, "'?"@);
    }
}

pub proof fn law_delete_question_names_the_profile(cfg: VpnConfig, id: ProviderId, i: int)
    requires
        0 <= i,
    ensures
        occurs(vpn_question(cfg, id, i), profile_name(cfg, id, i)),
        id == ProviderId::Wireguard && i < cfg.wireguard@.len() ==> profile_name(cfg, id, i)
            == cfg.wireguard@[i].name@,
        id == ProviderId::Openvpn && i < cfg.openvpn@.len() ==> profile_name(cfg, id, i)
            == cfg.openvpn@[i].name@,
        id == ProviderId::Tailscale && i < cfg.tailscale@.len() ==> profile_name(cfg, id, i)
            == cfg.tailscale@[i].name@,
{
    lemma_inside(
        " delete "@ + id.slug_spec() + " profile '"@,
        profile_name(cfg, id, i),
        "'?"@,
    );
}

/// The password prompt names the connection that the password is for, and shows a
/// dot for each character typed.
pub proof fn law_password_prompt_names_its_connection(
    cs: Seq<RdpConnection>,
    pending: Seq<usize>,
    done: nat,
    typed: nat,
)
    requires
        pending.len() > 0,
        pending[0] < cs.len(),
    ensures
        ({
            let lines = rdp_password_spec(cs, pending, done, typed);
            let c = cs[pending[0] as int];
            &&& sheet_shows(lines, c.name@)
            &&& sheet_shows(lines, c.host@)
            &&& lines[3][1].text.len() == typed
            &&& forall|i: int| 0 <= i < typed ==> #[trigger] lines[3][1].text[i] == '•'
        }),
{
    let lines = rdp_password_spec(cs, pending, done, typed);
    let c = cs[pending[0] as int];
    lemma_inside(Seq::empty(), c.name@, Seq::empty());
    assert(occurs(lines[0][1].text, c.name@));
    assert(shows(lines[0], c.name@));
    let front = " "@ + (c.login_spec() + " @ "@);
    let back = ":"@ + crate::number::decimal(c.port as nat);
    lemma_inside(front, c.host@, back);
    assert(lines[1][0].text =~= front + c.host@ + back);
    assert(occurs(lines[1][0].text, c.host@));
    assert(shows(lines[1], c.host@));
}

proof fn lemma_with_texts(
    out: Seq<Seq<Piece>>,
    ts: Seq<Seq<char>>,
    lead: Seq<char>,
    colour: Ink,
    i: int,
)
    ensures
        with_texts(out, ts, lead, colour).len() == out.len() + ts.len(),
        forall|k: int| 0 <= k < out.len() ==> #[trigger] with_texts(out, ts, lead, colour)[k]
            == out[k],
        0 <= i < ts.len() ==> shows(with_texts(out, ts, lead, colour)[out.len() + i], ts[i]),
    decreases ts.len(),
{
    if ts.len() > 0 {
        let head = ts.drop_last();
        lemma_with_texts(out, head, lead, colour, i);
        let line = with_texts(out, ts, lead, colour)[out.len() as int + head.len()];
        lemma_inside(lead, ts.last(), Seq::empty());
        assert(occurs(line[0].text, ts.last()));
        if 0 <= i < head.len() {
            assert(head[i] == ts[i]);
        }
    }
}

/// The panic button lists everything that it would take down.
pub proof fn law_panic_lists_what_goes(p: PanicSummary, i: int)
    requires
        0 <= i < p.lines_spec().len(),
    ensures
        sheet_shows(panic_spec(p), p.lines_spec()[i]),
{
    let first = Seq::<Seq<Piece>>::empty().push(
        seq![crate::sheet::strong(" Disconnect everything?"@, Ink::Text)],
    );
    lemma_with_texts(first, p.lines_spec(), "   "@, Ink::Warn, i);
    let all = panic_spec(p);
    let listed = with_texts(first, p.lines_spec(), "   "@, Ink::Warn);
    assert(all[first.len() + i] == listed[first.len() + i]);
    assert(shows(all[first.len() + i], p.lines_spec()[i]));
}

/// The question on quitting lists every session that would be left.
pub proof fn law_quit_lists_the_sessions(sessions: Seq<Seq<char>>, i: int)
    requires
        0 <= i < sessions.len(),
    ensures
        sheet_shows(quit_spec(sessions), sessions[i]),
{
    let first = Seq::<Seq<Piece>>::empty().push(
        seq![
            crate::sheet::strong(
                " "@ + crate::number::decimal(sessions.len()) + " openvpn session(s) are still up:"@,
                Ink::Text,
            ),
        ],
    );
    lemma_with_texts(first, sessions, "   "@, Ink::Warn, i);
    let all = quit_spec(sessions);
    let listed = with_texts(first, sessions, "   "@, Ink::Warn);
    assert(all[first.len() + i] == listed[first.len() + i]);
    assert(shows(all[first.len() + i], sessions[i]));
}

/// A conflict names the step that is held up, what it needs, and the first four of
/// what would be disconnected for it.
pub proof fn law_conflict_names_what_goes(c: Clash, a: Option<Running>, i: int)
    ensures
        sheet_shows(conflict_spec(c, a), describe_of(c.step)),
        sheet_shows(conflict_spec(c, a), c.resource),
        0 <= i < blocking_of(c).len() && i < 4 ==> sheet_shows(
            conflict_spec(c, a),
            blocking_of(c)[i],
        ),
{
    let all = conflict_spec(c, a);
    lemma_inside(Seq::empty(), describe_of(c.step), Seq::empty());
    lemma_inside(Seq::empty(), c.resource, Seq::empty());
    let out = Seq::<Seq<Piece>>::empty();
    let out = out.push(
        seq![
            crate::sheet::ink(" starting  "@, Ink::Dim),
            crate::sheet::strong(describe_of(c.step), Ink::Accent),
        ],
    );
    let out = out.push(
        seq![
            crate::sheet::ink(" needs     "@, Ink::Dim),
            crate::sheet::strong(c.resource, Ink::Warn),
        ],
    );
    let out = match c.note {
        Some(n) => out.push(
            seq![crate::sheet::ink(" change    "@, Ink::Dim), crate::sheet::ink(n, Ink::Text)],
        ),
        None => out,
    };
    let out = out.push(Seq::empty());
    let out = out.push(seq![crate::sheet::ink(" These are disconnected first:"@, Ink::Dim)]);
    let ts = crate::prompts::few(blocking_of(c));
    lemma_with_texts(out, ts, "   "@, Ink::Text, i);
    let listed = with_texts(out, ts, "   "@, Ink::Text);
    assert(all[0] == out[0] && all[1] == out[1]) by {
        assert(listed[0] == out[0] && listed[1] == out[1]);
    }
    assert(occurs(all[0][1].text, describe_of(c.step)));
    assert(shows(all[0], describe_of(c.step)));
    assert(occurs(all[1][1].text, c.resource));
    assert(shows(all[1], c.resource));
    if 0 <= i < blocking_of(c).len() && i < 4 {
        assert(ts[i] == blocking_of(c)[i]);
        assert(all[out.len() + i] == listed[out.len() + i]);
        assert(shows(all[out.len() + i], ts[i]));
    }
}

/// A step is described by the name of what it starts.
pub proof fn law_step_is_described_by_its_name(n: Seq<char>, p: Seq<char>)
    ensures
        occurs(describe_of(Job::Tunnel(n)), n),
        occurs(describe_of(Job::Ssh(n)), n),
        occurs(describe_of(Job::Rdp(n, p)), n),
{
    lemma_inside("tunnel '"@, n, "'"@);
    lemma_inside("ssh '"@, n, "'"@);
    lemma_inside("rdp '"@, n, "'"@);
}

} // verus!
