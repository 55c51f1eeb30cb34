//! What a sweep of the machine found, printed.

use vstd::prelude::*;
use crate::app::Scan;
use crate::number::{self, decimal};
use crate::running::command_text;
use crate::text::{self, cat, cat4, cat5, texts};
use crate::ui::{fill, filled};
use crate::vpn_view::{Link, Process};

verus! {

/// The two lines on a process: what it is, and what it was started with.
pub open spec fn process_head(p: Process, label: Seq<char>) -> Seq<char> {
    "  "@ + filled(p.provider.slug_spec(), 8) + " pid "@ + filled(decimal(p.pid as nat), 8) + (" "@ + (
    if p.uid == 0 {
        "root "@
    } else {
        ""@
    }) + label)
}

pub open spec fn process_command(p: Process) -> Seq<char> {
    "           "@ + command_text(texts(p.argv@))
}

pub open spec fn with_processes(
    out: Seq<Seq<char>>,
    ps: Seq<Process>,
    labels: Seq<Seq<char>>,
) -> Seq<Seq<char>>
    decreases ps.len(),
{
    if ps.len() == 0 {
        out
    } else {
        with_processes(out, ps.drop_last(), labels).push(
            process_head(ps.last(), labels[ps.len() - 1]),
        ).push(process_command(ps.last()))
    }
}

pub open spec fn link_line(l: Link, detail: Seq<char>) -> Seq<char> {
    "  "@ + filled(l.name@, 10) + " "@ + detail
}

pub open spec fn with_links(out: Seq<Seq<char>>, ls: Seq<Link>, details: Seq<Seq<char>>) -> Seq<
    Seq<char>,
>
    decreases ls.len(),
{
    if ls.len() == 0 {
        out
    } else {
        with_links(out, ls.drop_last(), details).push(
            link_line(ls.last(), details[ls.len() - 1]),
        )
    }
}

/// Every VPN connection on the machine, line by line.
pub open spec fn scan_text(s: Scan, labels: Seq<Seq<char>>, details: Seq<Seq<char>>) -> Seq<
    Seq<char>,
> {
    let out = Seq::<Seq<char>>::empty();
    let out = out.push("processes"@);
    let out = if s.processes@.len() == 0 {
        out.push("  none"@)
    } else {
        out
    };
    let out = with_processes(out, s.processes@, labels);
    let out = out.push(""@);
    let out = out.push("tunnel devices"@);
    let out = if s.links@.len() == 0 {
        out.push("  none"@)
    } else {
        out
    };
    with_links(out, s.links@, details)
}

fn head_of(p: &Process, label: &str) -> (r: String)
    ensures
        r@ == process_head(*p, label@),
{
    let root = if p.uid == 0 {
        "root "
    } else {
        ""
    };
    let tail = text::cat3(" ", root, label);
    cat5(
        "  ",
        fill(p.provider.slug(), 8).as_str(),
        " pid ",
        fill(number::write(p.pid as u64).as_str(), 8).as_str(),
        tail.as_str(),
    )
}

fn add_processes(out: &mut Vec<String>, ps: &Vec<Process>, labels: &Vec<String>)
    requires
        labels@.len() == ps@.len(),
    ensures
        texts(final(out)@) == with_processes(texts(old(out)@), ps@, texts(labels@)),
{
    let ghost start = texts(out@);
    let ghost ls = texts(labels@);
    let mut i: usize = 0;
    assert(ps@.take(0) =~= Seq::<Process>::empty());
    while i < ps.len()
        invariant
            i <= ps@.len(),
            labels@.len() == ps@.len(),
            ls == texts(labels@),
            texts(out@) == with_processes(start, ps@.take(i as int), ls),
        decreases ps@.len() - i,
    {
        assert(ps@.take(i + 1).drop_last() =~= ps@.take(i as int));
        assert(ls[i as int] == labels@[i as int]@);
        text::add_text(out, head_of(&ps[i], labels[i].as_str()));
        let cmd = crate::redact::command_line(&ps[i].argv);
        text::add_text(out, cat("           ", cmd.as_str()));
        i = i + 1;
    }
    assert(ps@.take(i as int) =~= ps@);
}

fn add_links(out: &mut Vec<String>, links: &Vec<Link>, details: &Vec<String>)
    requires
        details@.len() == links@.len(),
    ensures
        texts(final(out)@) == with_links(texts(old(out)@), links@, texts(details@)),
{
    let ghost start = texts(out@);
    let ghost ds = texts(details@);
    let mut i: usize = 0;
    assert(links@.take(0) =~= Seq::<Link>::empty());
    while i < links.len()
        invariant
            i <= links@.len(),
            details@.len() == links@.len(),
            ds == texts(details@),
            texts(out@) == with_links(start, links@.take(i as int), ds),
        decreases links@.len() - i,
    {
        assert(links@.take(i + 1).drop_last() =~= links@.take(i as int));
        assert(ds[i as int] == details@[i as int]@);
        let line = cat4(
            "  ",
            fill(links[i].name.as_str(), 10).as_str(),
            " ",
            details[i].as_str(),
        );
        text::add_text(out, line);
        i = i + 1;
    }
    assert(links@.take(i as int) =~= links@);
}

/// What is on this machine, as it is printed. `labels` say what each process is,
/// `details` what each device is like.
pub fn scan_lines(s: &Scan, labels: &Vec<String>, details: &Vec<String>) -> (r: Vec<String>)
    requires
        labels@.len() == s.processes@.len(),
        details@.len() == s.links@.len(),
    ensures
        texts(r@) == scan_text(*s, texts(labels@), texts(details@)),
{
    let mut out = text::no_texts();
    text::add_str(&mut out, "processes");
    if s.processes.len() == 0 {
        text::add_str(&mut out, "  none");
    }
    add_processes(&mut out, &s.processes, labels);
    text::add_str(&mut out, "");
    text::add_str(&mut out, "tunnel devices");
    if s.links.len() == 0 {
        text::add_str(&mut out, "  none");
    }
    add_links(&mut out, &s.links, details);
    out
}

}
