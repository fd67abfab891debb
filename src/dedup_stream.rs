use std::collections::HashMap;
use vstd::prelude::*;

use crate::fingerprint::{
    fingerprint, fingerprint_of, fingerprints, fingerprints_before, fingerprints_of, first_occurrence,
    lemma_first_occurrence_exists, lemma_select_first_distinct, lemma_select_members, repeated, repeated_before, select, views,
};

verus! {

broadcast use vstd::std_specs::hash::group_hash_axioms;

/// Marks the entries that carry the first occurrence of their fingerprint.
pub open spec fn first_mask(fps: Seq<u64>) -> Seq<bool> {
    Seq::new(fps.len(), |i: int| first_occurrence(fps, i))
}

/// Marks the first occurrence of each fingerprint that occurs more than once.
pub open spec fn repeat_mask(fps: Seq<u64>) -> Seq<bool> {
    Seq::new(fps.len(), |i: int| first_occurrence(fps, i) && repeated(fps, fps[i]))
}

/// What order-preserving removal keeps of a corpus: each line whose
/// fingerprint has not occurred earlier.
pub open spec fn without_duplicates(lines: Seq<Seq<char>>) -> Seq<Seq<char>> {
    select(lines, first_mask(fingerprints_of(lines)), lines.len() as int)
}

/// What duplicate extraction yields of a corpus: one line for each
/// fingerprint that occurs more than once, at its first occurrence.
pub open spec fn duplicates(lines: Seq<Seq<char>>) -> Seq<Seq<char>> {
    select(lines, repeat_mask(fingerprints_of(lines)), lines.len() as int)
}

/// Order-preserving removal keeps exactly one line for each fingerprint of
/// its input.
pub proof fn lemma_removal_once_per_fingerprint(lines: Seq<Seq<char>>)
    ensures
        forall|a: int, b: int|
            0 <= a < b < without_duplicates(lines).len() ==> fingerprint_of(
                #[trigger] without_duplicates(lines)[a],
            ) != fingerprint_of(#[trigger] without_duplicates(lines)[b]),
        forall|k: int|
            0 <= k < without_duplicates(lines).len() ==> lines.contains(
                #[trigger] without_duplicates(lines)[k],
            ),
        forall|i: int|
            0 <= i < lines.len() ==> exists|k: int|
                0 <= k < without_duplicates(lines).len() && fingerprint_of(
                    without_duplicates(lines)[k],
                ) == fingerprint_of(#[trigger] lines[i]),
{
    let fps = fingerprints_of(lines);
    let keep = first_mask(fps);
    let n = lines.len() as int;
    let out = without_duplicates(lines);
    lemma_select_members(lines, keep, n);
    lemma_select_first_distinct(lines, keep, n);
    assert forall|k: int| 0 <= k < out.len() implies lines.contains(#[trigger] out[k]) by {
        let i = choose|i: int| 0 <= i < n && keep[i] && out[k] == lines[i];
    }
    assert forall|i: int| 0 <= i < lines.len() implies exists|k: int|
        0 <= k < out.len() && fingerprint_of(out[k]) == fingerprint_of(#[trigger] lines[i]) by {
        lemma_first_occurrence_exists(fps, i);
        let j = choose|j: int| 0 <= j <= i && fps[j] == fps[i] && first_occurrence(fps, j);
        assert(keep[j]);
        assert(out.contains(lines[j]));
        let k = choose|k: int| 0 <= k < out.len() && out[k] == lines[j];
        assert(fps[j] == fingerprint_of(lines[j]));
        assert(fps[i] == fingerprint_of(lines[i]));
    }
}

/// Extraction yields exactly one record for each fingerprint that occurs
/// more than once, and nothing else: a line repeated three times gives one
/// record, not two.
pub proof fn lemma_extraction_once_per_fingerprint(lines: Seq<Seq<char>>)
    ensures
        forall|a: int, b: int|
            0 <= a < b < duplicates(lines).len() ==> fingerprint_of(
                #[trigger] duplicates(lines)[a],
            ) != fingerprint_of(#[trigger] duplicates(lines)[b]),
        forall|k: int|
            0 <= k < duplicates(lines).len() ==> repeated(
                fingerprints_of(lines),
                fingerprint_of(#[trigger] duplicates(lines)[k]),
            ),
        forall|f: u64|
            #[trigger] repeated(fingerprints_of(lines), f) ==> exists|k: int|
                0 <= k < duplicates(lines).len() && fingerprint_of(duplicates(lines)[k]) == f,
{
    let fps = fingerprints_of(lines);
    let keep = repeat_mask(fps);
    let n = lines.len() as int;
    let out = duplicates(lines);
    lemma_select_members(lines, keep, n);
    lemma_select_first_distinct(lines, keep, n);
    assert forall|k: int| 0 <= k < out.len() implies repeated(
        fps,
        fingerprint_of(#[trigger] out[k]),
    ) by {
        let i = choose|i: int| 0 <= i < n && keep[i] && out[k] == lines[i];
        assert(fps[i] == fingerprint_of(lines[i]));
    }
    assert forall|f: u64| #[trigger] repeated(fps, f) implies exists|k: int|
        0 <= k < out.len() && fingerprint_of(out[k]) == f by {
        let (a, b) = choose|a: int, b: int| 0 <= a < b < fps.len() && fps[a] == f && fps[b] == f;
        lemma_first_occurrence_exists(fps, a);
        let i = choose|i: int| 0 <= i <= a && fps[i] == fps[a] && first_occurrence(fps, i);
        assert(keep[i]);
        assert(out.contains(lines[i]));
        let k = choose|k: int| 0 <= k < out.len() && out[k] == lines[i];
        assert(fps[i] == fingerprint_of(lines[i]));
    }
}

/// What the first pass knows of a fingerprint; an absent fingerprint is
/// unseen.
#[derive(Debug, Clone, Copy, PartialEq, Eq, Structural)]
pub enum Seen {
    Once,
    Many,
}

/// During the second pass, after `n` entries: a fingerprint is counted many
/// exactly when it occurs twice or more and has not been emitted yet.
pub open spec fn pending_many(m: Map<u64, Seen>, fps: Seq<u64>, n: int) -> bool {
    forall|f: u64|
        #![trigger m.contains_key(f)]
        #![trigger repeated(fps, f)]
        (m.contains_key(f) && m[f] == Seen::Many) <==> (repeated(fps, f)
            && !fingerprints_before(fps, n).contains(f))
}

/// The first-pass record of a corpus: for each fingerprint met, whether it
/// was met once or more than once. An absent fingerprint is unseen.
pub struct FingerprintCounter {
    counts: HashMap<u64, Seen>,
}

impl View for FingerprintCounter {
    type V = Map<u64, Seen>;

    closed spec fn view(&self) -> Map<u64, Seen> {
        self.counts@
    }
}

/// What counting one more occurrence of `fp` makes of a record.
pub open spec fn counted(m: Map<u64, Seen>, fp: u64) -> Map<u64, Seen> {
    m.insert(
        fp,
        if m.contains_key(fp) {
            Seen::Many
        } else {
            Seen::Once
        },
    )
}

/// The record of a whole corpus of fingerprints.
pub open spec fn counts_of(m: Map<u64, Seen>, fps: Seq<u64>) -> bool {
    &&& m.dom() == fingerprints_before(fps, fps.len() as int)
    &&& forall|f: u64| #[trigger] m.contains_key(f) ==> (m[f] == Seen::Many <==> repeated(fps, f))
}

impl FingerprintCounter {
    pub fn new() -> (r: Self)
        ensures
            r@ == Map::<u64, Seen>::empty(),
    {
        FingerprintCounter { counts: HashMap::new() }
    }

    /// Counts one more occurrence of a fingerprint.
    pub fn record(&mut self, fp: u64)
        ensures
            final(self)@ == counted(old(self)@, fp),
    {
        let seen = match self.counts.get(&fp) {
            Some(_) => Seen::Many,
            None => Seen::Once,
        };
        self.counts.insert(fp, seen);
    }

    /// Consumes a fingerprint that was seen; tells whether it was.
    pub fn take_seen(&mut self, fp: u64) -> (r: bool)
        ensures
            r == old(self)@.contains_key(fp),
            final(self)@ == old(self)@.remove(fp),
    {
        match self.counts.remove(&fp) {
            Some(_) => true,
            None => false,
        }
    }

    /// Consumes a fingerprint that was seen more than once; tells whether
    /// it was. Other fingerprints stay.
    pub fn take_repeated(&mut self, fp: u64) -> (r: bool)
        ensures
            r == (old(self)@.contains_key(fp) && old(self)@[fp] == Seen::Many),
            final(self)@ == if r {
                old(self)@.remove(fp)
            } else {
                old(self)@
            },
    {
        let many = match self.counts.get(&fp) {
            Some(s) => *s == Seen::Many,
            None => false,
        };
        if many {
            self.counts.remove(&fp);
        }
        many
    }

    /// The first pass over a corpus of fingerprints.
    pub fn count_all(fps: &Vec<u64>) -> (r: Self)
        ensures
            counts_of(r@, fps@),
    {
        let n = fps.len();
        let mut d = FingerprintCounter::new();
        for i in 0..n
            invariant
                n == fps.len(),
                d@.dom() == fingerprints_before(fps@, i as int),
                forall|f: u64|
                    #[trigger] d@.contains_key(f) ==> (d@[f] == Seen::Many <==> repeated_before(
                        fps@,
                        f,
                        i as int,
                    )),
        {
            let g = fps[i];
            let ghost was = d@.contains_key(g);
            d.record(g);
            assert(d@.dom() =~= fingerprints_before(fps@, i + 1));
            assert forall|f: u64| #[trigger] d@.contains_key(f) implies (d@[f] == Seen::Many
                <==> repeated_before(fps@, f, i + 1)) by {
                if f == g {
                    if was {
                        let j = choose|j: int| 0 <= j < i && fps@[j] == g;
                        assert(0 <= j < i && fps@[j] == g && fps@[i as int] == g);
                    } else {
                        if repeated_before(fps@, f, i + 1) {
                            let (a, b) = choose|a: int, b: int|
                                0 <= a < b < i + 1 && fps@[a] == f && fps@[b] == f;
                            assert(fingerprints_before(fps@, i as int).contains(f));
                        }
                    }
                } else {
                    if repeated_before(fps@, f, i + 1) {
                        let (a, b) = choose|a: int, b: int|
                            0 <= a < b < i + 1 && fps@[a] == f && fps@[b] == f;
                        assert(repeated_before(fps@, f, i as int));
                    }
                }
            }
        }
        d
    }
}

/// Two-pass order-preserving deduplication. The first pass counts every
/// fingerprint; the second emits a line whose fingerprint is still counted
/// and consumes the fingerprint, so later repeats are dropped.
pub struct DuplicatesRemoverSlow {
    counter: FingerprintCounter,
}

impl View for DuplicatesRemoverSlow {
    type V = Map<u64, Seen>;

    closed spec fn view(&self) -> Map<u64, Seen> {
        self.counter@
    }
}

impl DuplicatesRemoverSlow {
    pub fn new() -> (r: Self)
        ensures
            r@ == Map::<u64, Seen>::empty(),
    {
        DuplicatesRemoverSlow { counter: FingerprintCounter::new() }
    }

    /// First pass: count a fingerprint.
    pub fn record(&mut self, fp: u64)
        ensures
            final(self)@ == counted(old(self)@, fp),
    {
        self.counter.record(fp);
    }

    /// Second pass: whether the line with this fingerprint is emitted.
    pub fn take(&mut self, fp: u64) -> (r: bool)
        ensures
            r == old(self)@.contains_key(fp),
            final(self)@ == old(self)@.remove(fp),
    {
        self.counter.take_seen(fp)
    }

    /// First pass over one line.
    pub fn record_line(&mut self, line: &str)
        ensures
            final(self)@ == counted(old(self)@, fingerprint_of(line@)),
    {
        let fp = fingerprint(line);
        self.record(fp);
    }

    /// Second pass over one line.
    pub fn take_line(&mut self, line: &str) -> (r: bool)
        ensures
            r == old(self)@.contains_key(fingerprint_of(line@)),
            final(self)@ == old(self)@.remove(fingerprint_of(line@)),
    {
        let fp = fingerprint(line);
        self.take(fp)
    }

    /// Both passes over a corpus whose fingerprints are given.
    pub fn keep_first(lines: &Vec<String>, fps: &Vec<u64>) -> (r: Vec<String>)
        requires
            lines.len() == fps.len(),
        ensures
            views(r@) == select(views(lines@), first_mask(fps@), lines.len() as int),
    {
        let n = lines.len();
        let mut d = DuplicatesRemoverSlow { counter: FingerprintCounter::count_all(fps) };
        let mut out: Vec<String> = Vec::new();
        for i in 0..n
            invariant
                n == lines.len(),
                n == fps.len(),
                d@.dom() == fingerprints_before(fps@, n as int).difference(
                    fingerprints_before(fps@, i as int),
                ),
                views(out@) == select(views(lines@), first_mask(fps@), i as int),
        {
            let f = fps[i];
            let kept = d.take(f);
            assert(kept == first_occurrence(fps@, i as int)) by {
                assert(fingerprints_before(fps@, n as int).contains(f));
                if !first_occurrence(fps@, i as int) {
                    let j = choose|j: int| 0 <= j < i && fps@[j] == f;
                    assert(fingerprints_before(fps@, i as int).contains(f));
                }
            }
            if kept {
                out.push(lines[i].clone());
            }
            assert(views(out@) =~= select(views(lines@), first_mask(fps@), i + 1));
            assert(d@.dom() =~= fingerprints_before(fps@, n as int).difference(
                fingerprints_before(fps@, i + 1),
            ));
        }
        out
    }

    /// Order-preserving removal of duplicate lines: the first line of each
    /// fingerprint is kept, in input order.
    pub fn remove_duplicates(lines: &Vec<String>) -> (r: Vec<String>)
        ensures
            views(r@) == without_duplicates(views(lines@)),
    {
        let fps = fingerprints(lines);
        DuplicatesRemoverSlow::keep_first(lines, &fps)
    }
}

/// Two-pass extraction of duplicated lines. The first pass counts each
/// fingerprint; the second emits a line whose fingerprint was counted more
/// than once and consumes that fingerprint, so a line that occurs three
/// times yields exactly one record.
pub struct DuplicatesExtractor {
    counter: FingerprintCounter,
}

impl View for DuplicatesExtractor {
    type V = Map<u64, Seen>;

    closed spec fn view(&self) -> Map<u64, Seen> {
        self.counter@
    }
}

impl DuplicatesExtractor {
    pub fn new() -> (r: Self)
        ensures
            r@ == Map::<u64, Seen>::empty(),
    {
        DuplicatesExtractor { counter: FingerprintCounter::new() }
    }

    /// First pass: count a fingerprint.
    pub fn record(&mut self, fp: u64)
        ensures
            final(self)@ == counted(old(self)@, fp),
    {
        self.counter.record(fp);
    }

    /// Second pass: whether the line with this fingerprint is emitted.
    pub fn take(&mut self, fp: u64) -> (r: bool)
        ensures
            r == (old(self)@.contains_key(fp) && old(self)@[fp] == Seen::Many),
            final(self)@ == if r {
                old(self)@.remove(fp)
            } else {
                old(self)@
            },
    {
        self.counter.take_repeated(fp)
    }

    /// First pass over one line.
    pub fn record_line(&mut self, line: &str)
        ensures
            final(self)@ == counted(old(self)@, fingerprint_of(line@)),
    {
        let fp = fingerprint(line);
        self.record(fp);
    }

    /// Second pass over one line.
    pub fn take_line(&mut self, line: &str) -> (r: bool)
        ensures
            r == (old(self)@.contains_key(fingerprint_of(line@)) && old(self)@[fingerprint_of(
                line@,
            )] == Seen::Many),
            final(self)@ == if r {
                old(self)@.remove(fingerprint_of(line@))
            } else {
                old(self)@
            },
    {
        let fp = fingerprint(line);
        self.take(fp)
    }

    /// Both passes over a corpus whose fingerprints are given.
    pub fn keep_repeated(lines: &Vec<String>, fps: &Vec<u64>) -> (r: Vec<String>)
        requires
            lines.len() == fps.len(),
        ensures
            views(r@) == select(views(lines@), repeat_mask(fps@), lines.len() as int),
    {
        let n = lines.len();
        let mut d = DuplicatesExtractor { counter: FingerprintCounter::count_all(fps) };
        assert(pending_many(d@, fps@, 0)) by {
            assert forall|f: u64|
                (d@.contains_key(f) && d@[f] == Seen::Many) <==> (repeated(fps@, f)
                    && !fingerprints_before(fps@, 0).contains(f)) by {
                if repeated(fps@, f) {
                    let (a, b) = choose|a: int, b: int|
                        0 <= a < b < n && fps@[a] == f && fps@[b] == f;
                    assert(fingerprints_before(fps@, n as int).contains(f));
                }
            }
        }
        let mut out: Vec<String> = Vec::new();
        for i in 0..n
            invariant
                n == lines.len(),
                n == fps.len(),
                pending_many(d@, fps@, i as int),
                views(out@) == select(views(lines@), repeat_mask(fps@), i as int),
        {
            let f = fps[i];
            let ghost old_d = d@;
            assert((d@.contains_key(f) && d@[f] == Seen::Many) <==> (repeated(fps@, f)
                && !fingerprints_before(fps@, i as int).contains(f)));
            let kept = d.take(f);
            assert(kept == (first_occurrence(fps@, i as int) && repeated(fps@, f))) by {
                if !first_occurrence(fps@, i as int) {
                    let j = choose|j: int| 0 <= j < i && fps@[j] == f;
                    assert(fingerprints_before(fps@, i as int).contains(f));
                }
                if fingerprints_before(fps@, i as int).contains(f) {
                    let j = choose|j: int| 0 <= j < i && fps@[j] == f;
                    assert(fps@[j] == fps@[i as int]);
                }
            }
            if kept {
                out.push(lines[i].clone());
            }
            assert(pending_many(d@, fps@, i + 1)) by {
                assert forall|g: u64|
                    (d@.contains_key(g) && d@[g] == Seen::Many) <==> (repeated(fps@, g)
                        && !fingerprints_before(fps@, i + 1).contains(g)) by {
                    assert((old_d.contains_key(g) && old_d[g] == Seen::Many) <==> (repeated(
                        fps@,
                        g,
                    ) && !fingerprints_before(fps@, i as int).contains(g)));
                    if g != f {
                        if fingerprints_before(fps@, i + 1).contains(g) {
                            let j = choose|j: int| 0 <= j < i + 1 && fps@[j] == g;
                            assert(fingerprints_before(fps@, i as int).contains(g));
                        }
                    } else {
                        assert(fingerprints_before(fps@, i + 1).contains(g));
                    }
                }
            }
            assert(views(out@) =~= select(views(lines@), repeat_mask(fps@), i + 1));
        }
        out
    }

    /// Duplicate extraction: one line per fingerprint that occurs more than
    /// once, at its first occurrence, in input order.
    pub fn extract_duplicates(lines: &Vec<String>) -> (r: Vec<String>)
        ensures
            views(r@) == duplicates(views(lines@)),
    {
        let fps = fingerprints(lines);
        DuplicatesExtractor::keep_repeated(lines, &fps)
    }
}

} // verus!
