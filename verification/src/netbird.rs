//! What netbird prints, read.

use vstd::prelude::*;
use crate::list::{first_where, lemma_first_where_is};
use crate::platform::{header_is, row_texts};
use crate::split::{self, lines, split_once_at, starts, words};
use crate::text::{self, cat5, joined, texts, trimmed};

verus! {

#[derive(Debug)]
pub struct Profile {
    pub name: String,
    pub active: bool,
}

#[derive(Debug)]
pub struct NbStatus {
    pub connected: bool,
    /// Ordered `key: value` pairs from `netbird status`.
    pub fields: Vec<(String, String)>,
    pub error: Option<String>,
}

impl Default for NbStatus {
    fn default() -> (r: Self)
        ensures
            !r.connected && r.fields@.len() == 0 && r.error is None,
    {
        NbStatus { connected: false, fields: Vec::new(), error: None }
    }
}

impl NbStatus {
    /// The value of the first field of that name, whatever its case.
    pub fn field(&self, key: &str) -> (r: Option<&str>)
        ensures
            r is None <==> first_where(self.fields@, header_is(key@)) == self.fields@.len(),
            r is Some ==> r->0@ == self.fields@[first_where(self.fields@, header_is(key@))].1@,
    {
        let ghost p = header_is(key@);
        let mut i: usize = 0;
        while i < self.fields.len()
            invariant
                i <= self.fields@.len(),
                p == header_is(key@),
                forall|j: int| 0 <= j < i ==> !p(#[trigger] self.fields@[j]),
            decreases self.fields@.len() - i,
        {
            if text::same_ignoring_case(self.fields[i].0.as_str(), key) {
                proof {
                    lemma_first_where_is(self.fields@, p, i as int);
                }
                return Some(self.fields[i].1.as_str());
            }
            i = i + 1;
        }
        proof {
            lemma_first_where_is(self.fields@, p, i as int);
        }
        None
    }
}

/// What a background run of netbird comes back with.
pub enum NbMsg {
    Refreshed { profiles: Result<Vec<Profile>, String>, status: NbStatus },
    ActionDone { desc: String, error: Option<String> },
}

/// Profiles as their names and whether they are active.
pub open spec fn profile_facts(v: Seq<Profile>) -> Seq<(Seq<char>, bool)> {
    v.map_values(|p: Profile| (p.name@, p.active))
}

/// The profiles in a list of lines: the first word is the name, and a profile is
/// active where anything follows it. A line without a word is none.
pub open spec fn profiles_in(ls: Seq<Seq<char>>) -> Seq<(Seq<char>, bool)>
    decreases ls.len(),
{
    if ls.len() == 0 {
        Seq::empty()
    } else {
        let before = profiles_in(ls.drop_last());
        let ws = words(ls.last());
        if ws.len() == 0 {
            before
        } else {
            before.push((ws[0], ws.len() > 1))
        }
    }
}

/// Read `netbird profile list`, whose first line is a header.
pub fn parse_profiles(raw: &str) -> (r: Vec<Profile>)
    ensures
        profile_facts(r@) == if lines(raw@).len() == 0 {
            Seq::empty()
        } else {
            profiles_in(lines(raw@).drop_first())
        },
{
    let all = split::split_lines(raw);
    let ghost ls = texts(all@);
    let mut out: Vec<Profile> = Vec::new();
    assert(profile_facts(out@) =~= Seq::<(Seq<char>, bool)>::empty());
    if all.len() == 0 {
        return out;
    }
    let ghost rest = ls.drop_first();
    let mut i: usize = 1;
    assert(rest.take(0) =~= Seq::<Seq<char>>::empty());
    while i < all.len()
        invariant
            1 <= i <= all@.len(),
            ls == texts(all@),
            rest == ls.drop_first(),
            profile_facts(out@) == profiles_in(rest.take(i - 1)),
        decreases all@.len() - i,
    {
        assert(rest.take(i as int).drop_last() =~= rest.take(i - 1));
        assert(rest.take(i as int).last() == all@[i as int]@);
        let ws = split::split_words(all[i].as_str());
        assert(texts(ws@).len() == ws@.len());
        if ws.len() > 0 {
            let p = Profile { name: ws[0].clone(), active: ws.len() > 1 };
            assert(texts(ws@)[0] == ws@[0]@);
            assert(profile_facts(out@.push(p)) =~= profile_facts(out@).push((p.name@, p.active)));
            out.push(p);
        }
        i = i + 1;
    }
    assert(rest.take(i - 1) =~= rest);
    out
}

/// The `key: value` pairs in a list of lines. What has no colon, or nothing
/// before it, is left out.
pub open spec fn pairs_in(ls: Seq<Seq<char>>) -> Seq<(Seq<char>, Seq<char>)>
    decreases ls.len(),
{
    if ls.len() == 0 {
        Seq::empty()
    } else {
        let before = pairs_in(ls.drop_last());
        match split_once_at(ls.last(), ':') {
            Some((k, v)) => if trimmed(k).len() == 0 {
                before
            } else {
                before.push((trimmed(k), trimmed(v)))
            },
            None => before,
        }
    }
}

/// Netbird is connected where it says so of its management server.
pub open spec fn says_connected(fs: Seq<(Seq<char>, Seq<char>)>) -> bool {
    exists|i: int|
        0 <= i < fs.len() && (#[trigger] fs[i]).0 == "Management"@ && starts(fs[i].1, "Connected"@)
}

/// Read `netbird status`.
pub fn parse_status(raw: &str) -> (r: NbStatus)
    ensures
        row_texts(r.fields@) == pairs_in(lines(raw@)),
        r.connected == says_connected(pairs_in(lines(raw@))),
        r.error is None,
{
    let all = split::split_lines(raw);
    let ghost ls = texts(all@);
    let mut out: Vec<(String, String)> = Vec::new();
    let mut connected = false;
    let mut i: usize = 0;
    assert(ls.take(0) =~= Seq::<Seq<char>>::empty());
    assert(row_texts(out@) =~= Seq::<(Seq<char>, Seq<char>)>::empty());
    while i < all.len()
        invariant
            i <= all@.len(),
            ls == texts(all@),
            row_texts(out@) == pairs_in(ls.take(i as int)),
            connected == says_connected(pairs_in(ls.take(i as int))),
        decreases all@.len() - i,
    {
        let ghost before = pairs_in(ls.take(i as int));
        assert(ls.take(i + 1).drop_last() =~= ls.take(i as int));
        assert(ls.take(i + 1).last() == all@[i as int]@);
        match split::split_once(all[i].as_str(), ':') {
            Some((k, v)) => {
                let k = text::trim(k.as_str());
                let v = text::trim(v.as_str());
                if !k.as_str().is_empty() {
                    let ghost pair = (k@, v@);
                    let ghost after = before.push(pair);
                    assert(after == pairs_in(ls.take(i + 1)));
                    let here = text::same(k.as_str(), "Management") && split::starts_with(
                        v.as_str(),
                        "Connected",
                    );
                    proof {
                        assert(after[before.len() as int] == pair);
                        if says_connected(before) {
                            let j = choose|j: int|
                                0 <= j < before.len() && (#[trigger] before[j]).0 == "Management"@
                                    && starts(before[j].1, "Connected"@);
                            assert(after[j] == before[j]);
                        }
                        if says_connected(after) && !here {
                            let j = choose|j: int|
                                0 <= j < after.len() && (#[trigger] after[j]).0 == "Management"@
                                    && starts(after[j].1, "Connected"@);
                            assert(before[j] == after[j]);
                        }
                    }
                    connected = connected || here;
                    let f = (k, v);
                    assert(row_texts(out@.push(f)) =~= row_texts(out@).push(pair));
                    out.push(f);
                }
            },
            None => {},
        }
        i = i + 1;
    }
    assert(ls.take(i as int) =~= ls);
    NbStatus { connected, fields: out, error: None }
}

/// What a run of netbird comes to: what it printed, or why it failed. It says so
/// on its error output, or on the other one, or only by its exit status.
pub open spec fn outcome(
    success: bool,
    stdout: Seq<char>,
    stderr: Seq<char>,
    args: Seq<Seq<char>>,
    status: Seq<char>,
) -> Result<Seq<char>, Seq<char>> {
    if success {
        Ok(stdout)
    } else if trimmed(stderr).len() > 0 {
        Err(trimmed(stderr))
    } else if trimmed(stdout).len() > 0 {
        Err(trimmed(stdout))
    } else {
        Err("netbird "@ + joined(args, " "@) + " failed ("@ + status + ")"@)
    }
}

/// Read how a run of netbird ended.
pub fn read_run(
    success: bool,
    stdout: &str,
    stderr: &str,
    args: &Vec<String>,
    status: &str,
) -> (r: Result<String, String>)
    ensures
        match outcome(success, stdout@, stderr@, texts(args@), status@) {
            Ok(s) => r is Ok && r->Ok_0@ == s,
            Err(e) => r is Err && r->Err_0@ == e,
        },
{
    if success {
        return Ok(stdout.to_owned());
    }
    let err = text::trim(stderr);
    if !err.as_str().is_empty() {
        return Err(err);
    }
    let out = text::trim(stdout);
    if !out.as_str().is_empty() {
        return Err(out);
    }
    Err(cat5("netbird ", text::join(args, " ").as_str(), " failed (", status, ")"))
}

}
