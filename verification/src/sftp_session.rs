//! The conversation with sftp: when a reply is complete, and what it says.

use vstd::prelude::*;
use crate::browser::opt_string;
use crate::sftp::{
    complaint, last_drawn, parse_listing, reply_line, take_error, LineKind, MsgKind, Request, ECHO,
    PWD_MARKER,
};
use crate::split::{self, occurs, starts};
use crate::text::{self, texts, trimmed};

verus! {

/// The line that ends a reply.
pub open spec fn ends_reply(raw: Seq<char>) -> bool {
    starts(last_drawn(raw), PWD_MARKER@)
}

/// A line that a command put out.
pub open spec fn put_out(raw: Seq<char>) -> bool {
    let t = last_drawn(raw);
    !ends_reply(raw) && trimmed(t).len() > 0 && !starts(t, ECHO@)
}

/// What a command put out, from all the lines that were read.
pub open spec fn output_of(raws: Seq<Seq<char>>) -> Seq<Seq<char>>
    decreases raws.len(),
{
    if raws.len() == 0 {
        Seq::empty()
    } else if put_out(raws.last()) {
        output_of(raws.drop_last()).push(last_drawn(raws.last()))
    } else {
        output_of(raws.drop_last())
    }
}

/// A command's answer: what it put out, and where the session is.
#[derive(Debug)]
pub struct Reply {
    pub lines: Vec<String>,
    pub cwd: String,
}

/// An answer that is still being read.
#[derive(Debug)]
pub struct Reading {
    pub lines: Vec<String>,
}

impl Reading {
    pub fn new() -> (r: Self)
        ensures
            texts(r.lines@) == output_of(Seq::empty()),
    {
        Reading { lines: text::no_texts() }
    }

    /// One more line. Where it ends the answer, the answer.
    pub fn heard(self, raw: &str) -> (r: Result<Reply, Reading>)
        ensures
            match r {
                Ok(reply) => {
                    &&& ends_reply(raw@)
                    &&& reply.lines@ == self.lines@
                    &&& reply.cwd@ == trimmed(
                        last_drawn(raw@).skip(PWD_MARKER@.len() as int),
                    )
                },
                Err(on) => {
                    &&& !ends_reply(raw@)
                    &&& texts(on.lines@) == if put_out(raw@) {
                        texts(self.lines@).push(last_drawn(raw@))
                    } else {
                        texts(self.lines@)
                    }
                },
            },
    {
        let mut lines = self.lines;
        match reply_line(raw) {
            LineKind::Marker(cwd) => Ok(Reply { lines, cwd }),
            LineKind::Skip => Err(Reading { lines }),
            LineKind::Output(text) => {
                text::add_text(&mut lines, text);
                Err(Reading { lines })
            },
        }
    }
}

/// However the lines arrive, what is kept of an answer is what the command put out:
/// a line more keeps it so.
pub proof fn law_reply_is_what_was_put_out(raws: Seq<Seq<char>>, raw: Seq<char>)
    requires
        !ends_reply(raw),
    ensures
        output_of(raws.push(raw)) == if put_out(raw) {
            output_of(raws).push(last_drawn(raw))
        } else {
            output_of(raws)
        },
{
    assert(raws.push(raw).drop_last() =~= raws);
}

/// The progress meter was switched on where it was to be switched off. It
/// toggles, so what is said about it is believed rather than what was asked.
pub open spec fn meter_is_on(lines: Seq<Seq<char>>) -> bool {
    exists|i: int| 0 <= i < lines.len() && occurs(#[trigger] lines[i], "enabled"@)
}

pub fn meter_on(lines: &Vec<String>) -> (r: bool)
    ensures
        r == meter_is_on(texts(lines@)),
{
    let ghost all = texts(lines@);
    let mut i: usize = 0;
    while i < lines.len()
        invariant
            i <= lines@.len(),
            all == texts(lines@),
            forall|k: int| 0 <= k < i ==> !occurs(#[trigger] all[k], "enabled"@),
        decreases lines@.len() - i,
    {
        assert(all[i as int] == lines@[i as int]@);
        if split::contains(lines[i].as_str(), "enabled") {
            return true;
        }
        i = i + 1;
    }
    false
}

impl Request {
    /// A copy is worth keeping in the log, a listing is not.
    pub open spec fn logged_spec(&self) -> bool {
        !(self is List)
    }

    pub fn logged(&self) -> (r: bool)
        ensures
            r == self.logged_spec(),
    {
        !matches!(self, Request::List(_))
    }

    /// What is reported of a request that was answered. A listing that came back
    /// is not a failure, whatever else was said on the way to it.
    pub open spec fn reported(
        &self,
        reply: Result<Reply, String>,
        errors: Seq<Seq<char>>,
        took: u64,
        news: MsgKind,
    ) -> bool {
        match reply {
            Err(e) => news matches MsgKind::Closed { reason } && reason@ == e@,
            Ok(rep) => match *self {
                Request::List(d) => news matches MsgKind::Listed { dir, listing, error } && {
                    &&& dir@ == d@
                    &&& listing.lists(texts(rep.lines@))
                    &&& opt_string(error) == if listing.entries@.len() == 0 {
                        complaint(errors)
                    } else {
                        None
                    }
                },
                _ => news matches MsgKind::Transferred { error, took: t } && opt_string(error)
                    == complaint(errors) && t == took,
            },
        }
    }

    /// What to report: `errors` are the lines of stderr, `took` the milliseconds
    /// that passed.
    pub fn report(
        &self,
        reply: Result<Reply, String>,
        errors: &Vec<String>,
        took: u64,
    ) -> (r: MsgKind)
        ensures
            self.reported(reply, texts(errors@), took, r),
    {
        match reply {
            Err(e) => MsgKind::Closed { reason: e },
            Ok(rep) => match self {
                Request::List(dir) => {
                    let listing = parse_listing(rep.lines.as_slice());
                    let error = if listing.entries.len() == 0 {
                        take_error(errors)
                    } else {
                        None
                    };
                    MsgKind::Listed { dir: dir.clone(), listing, error }
                },
                _ => MsgKind::Transferred { error: take_error(errors), took },
            },
        }
    }
}

impl MsgKind {
    /// After this the session is gone.
    pub fn ends(&self) -> (r: bool)
        ensures
            r == (self is Closed),
    {
        matches!(self, MsgKind::Closed { .. })
    }
}

/// A session ends exactly with a request that was not answered.
pub proof fn law_only_silence_ends_a_session(
    req: Request,
    reply: Result<Reply, String>,
    errors: Seq<Seq<char>>,
    took: u64,
    news: MsgKind,
)
    requires
        req.reported(reply, errors, took, news),
    ensures
        news is Closed <==> reply is Err,
{
}

}
