use vstd::prelude::*;

use crate::batch::Batch;
use crate::combo::{
    combo_part, extract, normalize_phone_combo, phone_combo, remove_domain, without_domain,
};
use crate::fingerprint::views;
use crate::partition::{lines_plan, parts_plan, plan_by_lines, plan_by_parts, valid_plan};
use crate::task::Task;

verus! {

/// A task that maps each line on its own to at most one output line.
pub trait LinesProcessor {
    /// The output line for an input line, if any.
    spec fn transform(&self, line: Seq<char>) -> Option<Seq<char>>;

    fn process_line(&self, line: &str) -> (r: Option<String>)
        ensures
            match r {
                Some(s) => self.transform(line@) == Some(s@),
                None => self.transform(line@) is None,
            },
    ;
}

/// The output lines of a corpus under a line transform, in order.
pub open spec fn transformed<P: LinesProcessor>(p: &P, lines: Seq<Seq<char>>) -> Seq<Seq<char>>
    decreases lines.len(),
{
    if lines.len() == 0 {
        Seq::empty()
    } else {
        let rest = transformed(p, lines.drop_last());
        match p.transform(lines.last()) {
            Some(l) => rest.push(l),
            None => rest,
        }
    }
}

/// Transforms every line of a corpus.
pub fn transform_lines<P: LinesProcessor>(p: &P, lines: &Vec<String>) -> (r: Vec<String>)
    ensures
        views(r@) == transformed(p, views(lines@)),
{
    let mut out: Vec<String> = Vec::new();
    for i in 0..lines.len()
        invariant
            views(out@) == transformed(p, views(lines@).subrange(0, i as int)),
    {
        assert(views(lines@).subrange(0, i + 1).drop_last() =~= views(lines@).subrange(
            0,
            i as int,
        ));
        let ghost before = views(out@);
        match p.process_line(lines[i].as_str()) {
            Some(l) => {
                out.push(l);
                assert(views(out@) =~= before.push(l@));
            },
            None => {},
        }
    }
    assert(views(lines@).subrange(0, lines.len() as int) =~= views(lines@));
    out
}

/// Transforms one line into a batch; returns the lines to write when the
/// batch fills up.
pub fn process_into<P: LinesProcessor>(
    p: &P,
    batch: &mut Batch,
    line: &str,
) -> (r: Option<Vec<String>>)
    requires
        old(batch).wf(),
    ensures
        final(batch).wf(),
        final(batch).capacity() == old(batch).capacity(),
        match p.transform(line@) {
            None => r is None && final(batch).pending() == old(batch).pending(),
            Some(l) => match r {
                Some(full) => {
                    &&& views(full@) == old(batch).pending().push(l)
                    &&& final(batch).pending() == Seq::<Seq<char>>::empty()
                },
                None => final(batch).pending() == old(batch).pending().push(l),
            },
        },
{
    match p.process_line(line) {
        Some(l) => batch.append(l),
        None => None,
    }
}

/// Takes the domain off the identifier of each combo.
pub struct DomainRemover;

impl LinesProcessor for DomainRemover {
    open spec fn transform(&self, line: Seq<char>) -> Option<Seq<char>> {
        without_domain(line)
    }

    fn process_line(&self, line: &str) -> (r: Option<String>) {
        remove_domain(line)
    }
}

/// Keeps the login, or the password, of each combo.
pub struct PartExtractor {
    logins: bool,
}

impl PartExtractor {
    /// Whether logins (rather than passwords) are kept.
    pub closed spec fn keeps_logins(&self) -> bool {
        self.logins
    }

    /// The extractor for a login or password task; none for other tasks.
    pub fn new(task: Task) -> (r: Option<Self>)
        ensures
            r is Some <==> (task == Task::ExtractLogins || task == Task::ExtractPasswords),
            r matches Some(p) ==> p.keeps_logins() == (task == Task::ExtractLogins),
    {
        match task {
            Task::ExtractLogins => Some(PartExtractor { logins: true }),
            Task::ExtractPasswords => Some(PartExtractor { logins: false }),
            _ => None,
        }
    }
}

impl LinesProcessor for PartExtractor {
    open spec fn transform(&self, line: Seq<char>) -> Option<Seq<char>> {
        combo_part(line, self.keeps_logins())
    }

    fn process_line(&self, line: &str) -> (r: Option<String>) {
        if self.logins {
            extract(line, Task::ExtractLogins)
        } else {
            extract(line, Task::ExtractPasswords)
        }
    }
}

/// Normalizes the phone number of each combo whose identifier is one.
pub struct PhonesExtractor;

impl LinesProcessor for PhonesExtractor {
    open spec fn transform(&self, line: Seq<char>) -> Option<Seq<char>> {
        phone_combo(line)
    }

    fn process_line(&self, line: &str) -> (r: Option<String>) {
        normalize_phone_combo(line)
    }
}

/// Copies every line unchanged, so that files written one after another
/// through it are merged.
pub struct Merger;

impl LinesProcessor for Merger {
    open spec fn transform(&self, line: Seq<char>) -> Option<Seq<char>> {
        Some(line)
    }

    fn process_line(&self, line: &str) -> (r: Option<String>) {
        Some(line.to_owned())
    }
}

/// Splits files into parts of a given number of lines.
pub struct ByLinesSplitter {
    lines_n: usize,
}

impl ByLinesSplitter {
    pub closed spec fn lines_per_part(&self) -> usize {
        self.lines_n
    }

    /// None for zero lines per part.
    pub fn new(lines_n: usize) -> (r: Option<Self>)
        ensures
            r is Some <==> lines_n > 0,
            r matches Some(s) ==> s.lines_per_part() == lines_n,
    {
        if lines_n == 0 {
            None
        } else {
            Some(ByLinesSplitter { lines_n })
        }
    }

    /// The part sizes for a file of `n` lines.
    pub fn plan(&self, n: usize) -> (r: Vec<usize>)
        requires
            self.lines_per_part() > 0,
        ensures
            r@ == lines_plan(n, self.lines_per_part()),
            valid_plan(r@, n as int),
    {
        plan_by_lines(n, self.lines_n)
    }
}

/// Splits files into a given number of parts.
pub struct ByPartsSplitter {
    parts_n: usize,
}

impl ByPartsSplitter {
    pub closed spec fn parts(&self) -> usize {
        self.parts_n
    }

    /// None for zero parts.
    pub fn new(parts_n: usize) -> (r: Option<Self>)
        ensures
            r is Some <==> parts_n > 0,
            r matches Some(s) ==> s.parts() == parts_n,
    {
        if parts_n == 0 {
            None
        } else {
            Some(ByPartsSplitter { parts_n })
        }
    }

    /// The part sizes for a file of `n` lines.
    pub fn plan(&self, n: usize) -> (r: Vec<usize>)
        requires
            self.parts() > 0,
        ensures
            r@ == parts_plan(n, self.parts()),
            valid_plan(r@, n as int),
    {
        plan_by_parts(n, self.parts_n)
    }
}

} // verus!
