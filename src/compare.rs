use std::collections::HashSet;
use vstd::prelude::*;

use crate::fingerprint::{
    fingerprint, fingerprint_of, fingerprints, fingerprints_before, fingerprints_of,
    first_occurrence, lemma_first_occurrence_exists, lemma_select_first_distinct,
    lemma_select_members, select, views,
};

verus! {

broadcast use vstd::std_specs::hash::group_hash_axioms;

/// The fingerprints that occur in any of the first `k` reference files.
pub open spec fn reference_set_before(refs: Seq<Seq<u64>>, k: int) -> Set<u64> {
    Set::new(|f: u64| exists|r: int| 0 <= r < k && (#[trigger] refs[r]).contains(f))
}

/// The fingerprints that occur anywhere in the reference corpus.
pub open spec fn reference_set(refs: Seq<Seq<u64>>) -> Set<u64> {
    reference_set_before(refs, refs.len() as int)
}

/// Marks the survivors: first occurrences of fingerprints that no
/// reference file holds.
pub open spec fn survivor_mask(fps: Seq<u64>, refs: Seq<Seq<u64>>) -> Seq<bool> {
    Seq::new(
        fps.len(),
        |i: int| first_occurrence(fps, i) && !reference_set(refs).contains(fps[i]),
    )
}

/// The characters of each line of each reference file.
pub open spec fn corpora_views(files: Seq<Vec<String>>) -> Seq<Seq<Seq<char>>> {
    files.map_values(|v: Vec<String>| views(v@))
}

/// What comparison keeps of a main corpus: in input order, one line for
/// each fingerprint that occurs in no reference file.
pub open spec fn survivors(main: Seq<Seq<char>>, refs: Seq<Seq<Seq<char>>>) -> Seq<Seq<char>> {
    select(
        main,
        survivor_mask(
            fingerprints_of(main),
            refs.map_values(|f: Seq<Seq<char>>| fingerprints_of(f)),
        ),
        main.len() as int,
    )
}

/// Comparison does not depend on the order in which reference files are
/// processed: two reference corpora made of the same files leave the same
/// survivors.
pub proof fn lemma_reference_order_irrelevant(
    main: Seq<Seq<char>>,
    refs1: Seq<Seq<Seq<char>>>,
    refs2: Seq<Seq<Seq<char>>>,
)
    requires
        forall|file: Seq<Seq<char>>| refs1.contains(file) <==> refs2.contains(file),
    ensures
        survivors(main, refs1) == survivors(main, refs2),
{
    let r1 = refs1.map_values(|f: Seq<Seq<char>>| fingerprints_of(f));
    let r2 = refs2.map_values(|f: Seq<Seq<char>>| fingerprints_of(f));
    assert forall|f: u64| reference_set(r1).contains(f) implies reference_set(r2).contains(f) by {
        let r = choose|r: int| 0 <= r < r1.len() && (#[trigger] r1[r]).contains(f);
        assert(refs1.contains(refs1[r]));
        let q = choose|q: int| 0 <= q < refs2.len() && refs2[q] == refs1[r];
        assert(r2[q] == r1[r]);
    }
    assert forall|f: u64| reference_set(r2).contains(f) implies reference_set(r1).contains(f) by {
        let r = choose|r: int| 0 <= r < r2.len() && (#[trigger] r2[r]).contains(f);
        assert(refs2.contains(refs2[r]));
        let q = choose|q: int| 0 <= q < refs1.len() && refs1[q] == refs2[r];
        assert(r1[q] == r2[r]);
    }
    assert(reference_set(r1) =~= reference_set(r2));
    let fps = fingerprints_of(main);
    assert(survivor_mask(fps, r1) =~= survivor_mask(fps, r2));
}

/// Comparison emits one line for each fingerprint of the main corpus that
/// no reference file holds, and nothing else: a surviving line that occurs
/// twice is emitted once.
pub proof fn lemma_survivors_once_per_fingerprint(
    main: Seq<Seq<char>>,
    refs: Seq<Seq<Seq<char>>>,
)
    ensures
        forall|a: int, b: int|
            0 <= a < b < survivors(main, refs).len() ==> fingerprint_of(
                #[trigger] survivors(main, refs)[a],
            ) != fingerprint_of(#[trigger] survivors(main, refs)[b]),
        forall|k: int|
            0 <= k < survivors(main, refs).len() ==> main.contains(
                #[trigger] survivors(main, refs)[k],
            ) && !reference_set(refs.map_values(|f: Seq<Seq<char>>| fingerprints_of(f))).contains(
                fingerprint_of(survivors(main, refs)[k]),
            ),
        forall|i: int|
            0 <= i < main.len() && !reference_set(
                refs.map_values(|f: Seq<Seq<char>>| fingerprints_of(f)),
            ).contains(fingerprint_of(#[trigger] main[i])) ==> exists|k: int|
                0 <= k < survivors(main, refs).len() && fingerprint_of(survivors(main, refs)[k])
                    == fingerprint_of(main[i]),
{
    let rs = refs.map_values(|f: Seq<Seq<char>>| fingerprints_of(f));
    let fps = fingerprints_of(main);
    let keep = survivor_mask(fps, rs);
    let n = main.len() as int;
    let out = survivors(main, refs);
    lemma_select_members(main, keep, n);
    lemma_select_first_distinct(main, keep, n);
    assert forall|k: int| 0 <= k < out.len() implies main.contains(#[trigger] out[k])
        && !reference_set(rs).contains(fingerprint_of(out[k])) by {
        let i = choose|i: int| 0 <= i < n && keep[i] && out[k] == main[i];
        assert(fps[i] == fingerprint_of(main[i]));
    }
    assert forall|i: int|
        0 <= i < main.len() && !reference_set(rs).contains(
            fingerprint_of(#[trigger] main[i]),
        ) implies exists|k: int|
        0 <= k < out.len() && fingerprint_of(out[k]) == fingerprint_of(main[i]) by {
        lemma_first_occurrence_exists(fps, i);
        let j = choose|j: int| 0 <= j <= i && fps[j] == fps[i] && first_occurrence(fps, j);
        assert(fps[j] == fingerprint_of(main[j]));
        assert(fps[i] == fingerprint_of(main[i]));
        assert(keep[j]);
        assert(out.contains(main[j]));
        let k = choose|k: int| 0 <= k < out.len() && out[k] == main[j];
    }
}

/// Removes from a main file every line whose fingerprint occurs anywhere in
/// a reference corpus. The main file's fingerprints are recorded first;
/// each reference file then subtracts its own; only after all of them have
/// done so is the main file read again, and a surviving fingerprint is
/// consumed when its line is emitted.
pub struct Comparer {
    remaining: HashSet<u64>,
}

impl View for Comparer {
    type V = Set<u64>;

    closed spec fn view(&self) -> Set<u64> {
        self.remaining@
    }
}

impl Comparer {
    pub fn new() -> (r: Self)
        ensures
            r@ == Set::<u64>::empty(),
    {
        Comparer { remaining: HashSet::new() }
    }

    /// First pass over the main file: note a fingerprint.
    pub fn record(&mut self, fp: u64)
        ensures
            final(self)@ == old(self)@.insert(fp),
    {
        self.remaining.insert(fp);
    }

    /// First pass over one line of the main file.
    pub fn record_line(&mut self, line: &str)
        ensures
            final(self)@ == old(self)@.insert(fingerprint_of(line@)),
    {
        let fp = fingerprint(line);
        self.record(fp);
    }

    /// Subtracts the fingerprints of one reference file.
    pub fn subtract(&mut self, reference: &Vec<u64>)
        ensures
            final(self)@ == old(self)@.difference(
                fingerprints_before(reference@, reference.len() as int),
            ),
    {
        for j in 0..reference.len()
            invariant
                self@ == old(self)@.difference(fingerprints_before(reference@, j as int)),
        {
            self.remaining.remove(&reference[j]);
            assert(self@ =~= old(self)@.difference(fingerprints_before(reference@, j + 1)));
        }
    }

    /// Subtracts the fingerprints of the lines of one reference file.
    pub fn subtract_lines(&mut self, reference: &Vec<String>)
        ensures
            final(self)@ == old(self)@.difference(
                fingerprints_before(
                    fingerprints_of(views(reference@)),
                    reference.len() as int,
                ),
            ),
    {
        let fps = fingerprints(reference);
        self.subtract(&fps);
    }

    /// Final pass: whether the main-file line with this fingerprint is
    /// emitted.
    pub fn take(&mut self, fp: u64) -> (r: bool)
        ensures
            r == old(self)@.contains(fp),
            final(self)@ == old(self)@.remove(fp),
    {
        self.remaining.remove(&fp)
    }

    /// Final pass over one line of the main file.
    pub fn take_line(&mut self, line: &str) -> (r: bool)
        ensures
            r == old(self)@.contains(fingerprint_of(line@)),
            final(self)@ == old(self)@.remove(fingerprint_of(line@)),
    {
        let fp = fingerprint(line);
        self.take(fp)
    }

    /// The whole comparison, given the fingerprints of the main file and of
    /// each reference file.
    pub fn keep_survivors(
        main: &Vec<String>,
        fps: &Vec<u64>,
        refs: &Vec<Vec<u64>>,
    ) -> (r: Vec<String>)
        requires
            main.len() == fps.len(),
        ensures
            views(r@) == select(
                views(main@),
                survivor_mask(fps@, refs@.map_values(|v: Vec<u64>| v@)),
                main.len() as int,
            ),
    {
        let ghost rs = refs@.map_values(|v: Vec<u64>| v@);
        let n = main.len();
        let mut c = Comparer::new();
        for i in 0..n
            invariant
                n == fps.len(),
                c@ == fingerprints_before(fps@, i as int),
        {
            c.record(fps[i]);
            assert(c@ =~= fingerprints_before(fps@, i + 1));
        }
        for k in 0..refs.len()
            invariant
                n == fps.len(),
                rs == refs@.map_values(|v: Vec<u64>| v@),
                c@ == fingerprints_before(fps@, n as int).difference(
                    reference_set_before(rs, k as int),
                ),
        {
            c.subtract(&refs[k]);
            assert(c@ =~= fingerprints_before(fps@, n as int).difference(
                reference_set_before(rs, k + 1),
            )) by {
                assert forall|f: u64|
                    fingerprints_before(refs@[k as int]@, refs@[k as int].len() as int).contains(f)
                        <==> rs[k as int].contains(f) by {
                    if rs[k as int].contains(f) {
                        let j = choose|j: int| 0 <= j < rs[k as int].len() && rs[k as int][j] == f;
                    }
                }
                assert forall|f: u64|
                    reference_set_before(rs, k + 1).contains(f) <==> (reference_set_before(
                        rs,
                        k as int,
                    ).contains(f) || rs[k as int].contains(f)) by {
                    if reference_set_before(rs, k + 1).contains(f) {
                        let r = choose|r: int| 0 <= r < k + 1 && (#[trigger] rs[r]).contains(f);
                        if r < k {
                            assert(reference_set_before(rs, k as int).contains(f));
                        }
                    }
                    if reference_set_before(rs, k as int).contains(f) {
                        let r = choose|r: int| 0 <= r < k && (#[trigger] rs[r]).contains(f);
                        assert(0 <= r < k + 1 && rs[r].contains(f));
                    }
                    if rs[k as int].contains(f) {
                        assert(0 <= k < k + 1 && rs[k as int].contains(f));
                    }
                }
            }
        }
        let ghost kept_set = fingerprints_before(fps@, n as int).difference(reference_set(rs));
        let mut out: Vec<String> = Vec::new();
        for i in 0..n
            invariant
                n == main.len(),
                n == fps.len(),
                rs == refs@.map_values(|v: Vec<u64>| v@),
                kept_set == fingerprints_before(fps@, n as int).difference(reference_set(rs)),
                c@ == kept_set.difference(fingerprints_before(fps@, i as int)),
                views(out@) == select(views(main@), survivor_mask(fps@, rs), i as int),
        {
            let f = fps[i];
            let kept = c.take(f);
            assert(kept == (first_occurrence(fps@, i as int) && !reference_set(rs).contains(f)))
                by {
                assert(fingerprints_before(fps@, n as int).contains(f));
                if !first_occurrence(fps@, i as int) {
                    let j = choose|j: int| 0 <= j < i && fps@[j] == f;
                    assert(fingerprints_before(fps@, i as int).contains(f));
                }
            }
            if kept {
                out.push(main[i].clone());
            }
            assert(views(out@) =~= select(views(main@), survivor_mask(fps@, rs), i + 1));
            assert(c@ =~= kept_set.difference(fingerprints_before(fps@, i + 1)));
        }
        out
    }

    /// Comparison of one main corpus against a reference corpus.
    pub fn compare(main: &Vec<String>, references: &Vec<Vec<String>>) -> (r: Vec<String>)
        ensures
            views(r@) == survivors(views(main@), corpora_views(references@)),
    {
        let fps = fingerprints(main);
        let mut refs: Vec<Vec<u64>> = Vec::new();
        for k in 0..references.len()
            invariant
                refs.len() == k,
                forall|j: int|
                    0 <= j < k ==> (#[trigger] refs@[j])@ == fingerprints_of(
                        views(references@[j]@),
                    ),
        {
            refs.push(fingerprints(&references[k]));
        }
        let r = Comparer::keep_survivors(main, &fps, &refs);
        assert(refs@.map_values(|v: Vec<u64>| v@) =~= corpora_views(references@).map_values(
            |f: Seq<Seq<char>>| fingerprints_of(f),
        ));
        r
    }
}

} // verus!
