//! What the texts and numbers that everything else is written with mean, and that
//! the specifications see each value as it is.

use vstd::prelude::*;
use crate::activation::{Activation, ConflictPrompt};
use crate::effects::{Act, Effect};
use crate::logs::{LogTarget, Subject};
use crate::number::{decimal, parsed};
use crate::path::Os;
use crate::plan::{Job, Step};
use crate::rows::{Line, RowItem};
use crate::split::{is_char, lemma_pieces_clean, pieces};
use crate::text::{ascii_lowered, is_space, joined, trim_end, trim_start, trimmed};
use crate::types::{need_of, ForwardType, Need, Tunnel};
use crate::vpn::ProviderId;

verus! {

// ---------------------------------------------------------------------------
// Numbers
// ---------------------------------------------------------------------------

/// A number is written digit by digit, in tens: one more digit at the end is ten
/// times the number and that digit.
pub proof fn law_numbers_are_written_in_tens(n: nat, d: nat)
    requires
        d < 10,
    ensures
        decimal(d) == seq![('0' as u8 + d) as char],
        n > 0 ==> decimal(10 * n + d) == decimal(n).push(('0' as u8 + d) as char),
{
    assert((10 * n + d) / 10 == n && (10 * n + d) % 10 == d);
}

/// What is no number is not read as one, nor is a number that is too large.
pub proof fn law_only_numbers_are_read(s: Seq<char>, max: nat)
    ensures
        parsed(s, max) matches Some(n) ==> n <= max,
        s.len() == 0 ==> parsed(s, max) is None,
        s.len() > 0 && !('0' <= s.last() <= '9') ==> parsed(s, max) is None,
{
    if s.len() > 0 {
        let t = crate::number::unsigned(s);
        if t.len() > 0 {
            assert(t.last() == s.last());
            if crate::number::all_digits(t) {
                assert(crate::text::is_digit(t[t.len() - 1]));
            }
        }
    }
}

// ---------------------------------------------------------------------------
// Texts
// ---------------------------------------------------------------------------

/// Lowering a text changes capital letters to small ones and nothing else.
pub proof fn law_lowering_changes_capitals_only(s: Seq<char>, i: int)
    requires
        0 <= i < s.len(),
    ensures
        ascii_lowered(s).len() == s.len(),
        'A' <= s[i] <= 'Z' ==> ascii_lowered(s)[i] as u32 == s[i] as u32 + 32,
        !('A' <= s[i] <= 'Z') ==> ascii_lowered(s)[i] == s[i],
{
}

proof fn lemma_cut_at_the_start(s: Seq<char>)
    ensures
        ({
            let n = s.len() - trim_start(s).len();
            &&& 0 <= n <= s.len()
            &&& trim_start(s) == s.skip(n)
            &&& forall|i: int| 0 <= i < n ==> is_space(#[trigger] s[i])
        }),
    decreases s.len(),
{
    if s.len() > 0 && is_space(s[0]) {
        let t = s.drop_first();
        lemma_cut_at_the_start(t);
        let n = s.len() - trim_start(s).len();
        assert(trim_start(s) =~= s.skip(n));
        assert forall|i: int| 0 <= i < n implies is_space(#[trigger] s[i]) by {
            if i > 0 {
                assert(t[i - 1] == s[i]);
            }
        }
    } else {
        assert(s.skip(0) =~= s);
    }
}

proof fn lemma_cut_at_the_end(s: Seq<char>)
    ensures
        trim_end(s).len() <= s.len(),
        trim_end(s) == s.take(trim_end(s).len() as int),
        forall|i: int| trim_end(s).len() <= i < s.len() ==> is_space(#[trigger] s[i]),
    decreases s.len(),
{
    if s.len() > 0 && is_space(s.last()) {
        let t = s.drop_last();
        lemma_cut_at_the_end(t);
        assert(trim_end(s) =~= s.take(trim_end(s).len() as int));
        assert forall|i: int| trim_end(s).len() <= i < s.len() implies is_space(#[trigger] s[i]) by {
            if i < t.len() {
                assert(t[i] == s[i]);
            }
        }
    } else {
        assert(s.take(s.len() as int) =~= s);
    }
}

/// Trimming takes white space from both ends, all of it, and nothing else.
pub proof fn law_trimming_takes_white_space_only(s: Seq<char>)
    ensures
        exists|i: int, j: int| {
            &&& 0 <= i <= j <= s.len()
            &&& trimmed(s) == #[trigger] s.subrange(i, j)
            &&& forall|k: int| 0 <= k < i || j <= k < s.len() ==> is_space(#[trigger] s[k])
            &&& i < j ==> !is_space(s[i]) && !is_space(s[j - 1])
        },
{
    lemma_cut_at_the_start(s);
    let a = trim_start(s);
    let i = s.len() - a.len();
    lemma_cut_at_the_end(a);
    let j = i + trim_end(a).len();
    assert(trimmed(s) =~= s.subrange(i, j));
    assert forall|k: int| 0 <= k < i || j <= k < s.len() implies is_space(#[trigger] s[k]) by {
        if k >= j {
            assert(a[k - i] == s[k]);
        }
    }
    crate::text::lemma_trimmed(s);
}

/// Splitting a text at a character and joining the pieces with it gives the text
/// back, and no piece holds that character.
pub proof fn law_split_then_join(s: Seq<char>, c: char)
    ensures
        joined(pieces(s, is_char(c)), seq![c]) == s,
        forall|i: int, j: int|
            0 <= i < pieces(s, is_char(c)).len() && 0 <= j < pieces(s, is_char(c))[i].len()
                ==> #[trigger] pieces(s, is_char(c))[i][j] != c,
    decreases s.len(),
{
    let p = is_char(c);
    lemma_pieces_clean(s, p);
    assert forall|i: int, j: int|
        0 <= i < pieces(s, p).len() && 0 <= j < pieces(s, p)[i].len() implies #[trigger] pieces(
        s,
        p,
    )[i][j] != c by {
        assert(!p(pieces(s, p)[i][j]));
    }
    if s.len() == 0 {
        let one = seq![Seq::<char>::empty()];
        assert(pieces(s, p) == one);
        assert(joined(one, seq![c]) =~= s);
    } else {
        let t = s.drop_last();
        law_split_then_join(t, c);
        let r = pieces(t, p);
        let all = pieces(s, p);
        crate::split::lemma_pieces_len(t, p);
        assert(t.push(s.last()) =~= s);
        if p(s.last()) {
            assert(all.drop_last() =~= r);
            assert(joined(all, seq![c]) =~= t + seq![c] + Seq::<char>::empty());
        } else {
            let front = r.drop_last();
            assert(all.drop_last() =~= front);
            assert(all.last() == r.last().push(s.last()));
            if front.len() == 0 {
                assert(joined(r, seq![c]) == r[0]);
                assert(joined(all, seq![c]) == all[0]);
                assert(all[0] =~= s);
            } else {
                assert(joined(all, seq![c]) == joined(front, seq![c]) + seq![c] + all.last());
                assert(joined(r, seq![c]) == joined(front, seq![c]) + seq![c] + r.last());
                assert(joined(all, seq![c]) =~= joined(r, seq![c]).push(s.last()));
            }
        }
    }
}

// ---------------------------------------------------------------------------
// Requirements
// ---------------------------------------------------------------------------

/// White space alone is no requirement. What stands before a colon names a client
/// only where a client goes by that name; otherwise the whole is a netbird profile.
pub proof fn law_requirement_is_read_as_written(req: Seq<char>)
    ensures
        need_of(req) is None <==> trimmed(req).len() == 0,
        trimmed(req) == "*"@ ==> need_of(req) == Some(Need { provider: None, profile: None }),
        need_of(req) == need_of(trimmed(req)),
        trimmed(req).len() > 0 && trimmed(req) != "*"@ && (forall|p: ProviderId, rest: Seq<char>|
            trimmed(req) != #[trigger] (p.slug_spec() + seq![':'] + rest)) ==> need_of(req)
            == Some(Need { provider: Some(ProviderId::Netbird), profile: Some(trimmed(req)) }),
{
    reveal_strlit("*");
    crate::text::lemma_trimmed(req);
    let t = trimmed(req);
    if t.len() > 0 && t != "*"@ && forall|p: ProviderId, rest: Seq<char>|
        t != #[trigger] (p.slug_spec() + seq![':'] + rest) {
        match crate::split::split_once_at(t, ':') {
            Some((slug, rest)) => {
                match ProviderId::from_slug_spec(slug) {
                    Some(p) => {
                        let i = crate::split::first_of(t, ':');
                        crate::split::lemma_first_of(t, ':');
                        assert(slug == p.slug_spec());
                        assert(t =~= p.slug_spec() + seq![':'] + rest);
                    },
                    None => {},
                }
            },
            None => {},
        }
    }
}

/// Netbird and Tailscale hold one connection at a time, and only netbird keeps its
/// profiles itself.
pub proof fn law_what_clients_can_hold(id: ProviderId, os: Os)
    ensures
        id.exclusive_spec() <==> id == ProviderId::Netbird || id == ProviderId::Tailscale,
        id.manages_profiles_spec() <==> id != ProviderId::Netbird,
        id == ProviderId::Wireguard || id == ProviderId::Openvpn ==> id.needs_root_spec(os),
        id == ProviderId::Netbird ==> !id.needs_root_spec(os),
        ProviderId::all_spec()[id.index_spec()] == id,
{
}

/// In a line, a forward is told from its ports and its destination: a local one
/// starts at the local port and ends at the destination and its port.
pub proof fn law_forward_is_summed_up(t: Tunnel)
    ensures
        t.forward == ForwardType::Local ==> t.forward_spec() == ":"@ + decimal(
            t.local_port as nat,
        ) + " → "@ + (t.remote_host@ + ":"@ + decimal(t.remote_port as nat)),
        t.forward == ForwardType::Dynamic ==> t.forward_spec() == "SOCKS :"@ + decimal(
            t.local_port as nat,
        ),
        t.forward == ForwardType::Remote && t.remote_host@.len() > 0 ==> t.forward_spec()
            == "remote:"@ + decimal(t.remote_port as nat) + " → "@ + (t.remote_host@ + ":"@
            + decimal(t.local_port as nat)),
{
    if t.forward == ForwardType::Local {
        assert(t.forward_spec() =~= ":"@ + decimal(t.local_port as nat) + " → "@ + (t.remote_host@
            + ":"@ + decimal(t.remote_port as nat)));
    }
    if t.forward == ForwardType::Remote && t.remote_host@.len() > 0 {
        assert(t.forward_spec() =~= "remote:"@ + decimal(t.remote_port as nat) + " → "@ + (
        t.remote_host@ + ":"@ + decimal(t.local_port as nat)));
    }
}

// ---------------------------------------------------------------------------
// Views
// ---------------------------------------------------------------------------

/// A step, a row and a log's subject are seen as what they are.
pub proof fn law_names_are_seen_as_they_are(n: String, p: String, id: ProviderId, i: usize)
    ensures
        Step::Tunnel(n)@ == Job::Tunnel(n@),
        Step::Ssh(n)@ == Job::Ssh(n@),
        Step::Vpn(n)@ == Job::Vpn(n@),
        (Step::Rdp { name: n, password: p })@ == Job::Rdp(n@, p@),
        RowItem::Group(n)@ == Line::Group(n@),
        RowItem::Item(i)@ == Line::Item(i as int),
        LogTarget::Program@ == Subject::Program,
        LogTarget::Tunnel(n)@ == Subject::Tunnel(n@),
        LogTarget::Ssh(n)@ == Subject::Ssh(n@),
        LogTarget::Rdp(n)@ == Subject::Rdp(n@),
        LogTarget::Vpn(id, n)@ == Subject::Vpn(id, n@),
{
}

/// What is asked of the world is seen as what is asked.
pub proof fn law_effects_are_seen_as_they_are(
    n: String,
    p: String,
    i: usize,
    k: u32,
    id: ProviderId,
    flag: bool,
)
    ensures
        Effect::StartTunnel(i)@ == Act::StartTunnel(i as int),
        Effect::StopTunnel(n)@ == Act::StopTunnel(n@),
        (Effect::RetryTunnel { idx: i, attempts: k })@ == (Act::RetryTunnel {
            idx: i as int,
            attempts: k as int,
        }),
        Effect::StartRdp(n, p)@ == Act::StartRdp(n@, p@),
        Effect::StopRdp(n)@ == Act::StopRdp(n@),
        Effect::OpenSsh(n)@ == Act::OpenSsh(n@),
        Effect::StartOpenvpn(n)@ == Act::StartOpenvpn(n@),
        Effect::StopOpenvpn(n)@ == Act::StopOpenvpn(n@),
        Effect::DropOpenvpn(n)@ == Act::DropOpenvpn(n@),
        Effect::RenameOpenvpn(n, p)@ == Act::RenameOpenvpn(n@, p@),
        (Effect::Vpn { provider: id, profile: Some(n), desc: p, up: flag })@ == (Act::Vpn {
            provider: id,
            profile: Some(n@),
            desc: p@,
            up: flag,
        }),
        (Effect::StopForeign { provider: id, row: i, force: flag, desc: p })@
            == (Act::StopForeign { provider: id, row: i as int, force: flag, desc: p@ }),
        Effect::Refresh(id)@ == Act::Refresh(id),
        Effect::Ask(id)@ == Act::Ask(id),
        Effect::Flash(n, flag)@ == Act::Flash(n@, flag),
        Effect::Export(LogTarget::Tunnel(n))@ == Act::Export(Subject::Tunnel(n@)),
        Effect::DropProfileFiles(id, n)@ == Act::DropProfileFiles(id, n@),
{
}

/// A plan under way and a conflict are seen as what they hold.
pub proof fn law_plans_are_seen_as_they_are(a: Activation, c: ConflictPrompt, i: int)
    ensures
        a@.steps.len() == a.steps@.len(),
        0 <= i < a.steps@.len() ==> a@.steps[i] == a.steps@[i]@,
        a@.done == a.done && a@.total == a.total && a@.target == a.target@,
        a.waiting matches Some((s, t)) ==> a@.waiting == Some((s@, t as int)),
        a.waiting is None ==> a@.waiting is None,
        a@.started.len() == a.started@.len(),
        0 <= i < a.started@.len() ==> a@.started[i] == a.started@[i]@,
        c@.step == c.step@ && c@.resource == c.resource@,
        c@.stop_tunnels.len() == c.stop_tunnels@.len(),
        0 <= i < c.stop_tunnels@.len() ==> c@.stop_tunnels[i] == c.stop_tunnels@[i]@,
        c@.stop_rdp.len() == c.stop_rdp@.len(),
        0 <= i < c.stop_rdp@.len() ==> c@.stop_rdp[i] == c.stop_rdp@[i]@,
{
}

} // verus!
