use vstd::prelude::*;

verus! {

/// The 64-bit fingerprint of a line: the hash of its UTF-8 bytes.
/// Two different lines may share one; nothing corrects for that.
pub uninterp spec fn fingerprint_of(line: Seq<char>) -> u64;

/// Relies on `seahash::hash`: a deterministic function of the bytes it is
/// given, and the bytes of a `str` are a function of its characters.
#[verifier::external_body]
pub(crate) fn fingerprint(line: &str) -> (r: u64)
    ensures
        r == fingerprint_of(line@),
{
    seahash::hash(line.as_bytes())
}

/// The characters of each line of a corpus.
pub open spec fn views(lines: Seq<String>) -> Seq<Seq<char>> {
    lines.map_values(|s: String| s@)
}

/// The fingerprint of each line of a corpus.
pub open spec fn fingerprints_of(lines: Seq<Seq<char>>) -> Seq<u64> {
    lines.map_values(|l: Seq<char>| fingerprint_of(l))
}

/// The fingerprints that occur among the first `n` entries.
pub open spec fn fingerprints_before(fps: Seq<u64>, n: int) -> Set<u64> {
    Set::new(|f: u64| exists|j: int| 0 <= j < n && fps[j] == f)
}

/// Entry `i` carries the first occurrence of its fingerprint.
pub open spec fn first_occurrence(fps: Seq<u64>, i: int) -> bool {
    forall|j: int| 0 <= j < i ==> fps[j] != fps[i]
}

/// Fingerprint `f` occurs at least twice among the first `n` entries.
pub open spec fn repeated_before(fps: Seq<u64>, f: u64, n: int) -> bool {
    exists|a: int, b: int| 0 <= a < b < n && fps[a] == f && fps[b] == f
}

/// Fingerprint `f` occurs at least twice.
pub open spec fn repeated(fps: Seq<u64>, f: u64) -> bool {
    repeated_before(fps, f, fps.len() as int)
}

/// The lines among the first `n` whose mark is set, in their order.
pub open spec fn select(lines: Seq<Seq<char>>, keep: Seq<bool>, n: int) -> Seq<Seq<char>>
    decreases n,
{
    if n <= 0 {
        Seq::empty()
    } else if keep[n - 1] {
        select(lines, keep, n - 1).push(lines[n - 1])
    } else {
        select(lines, keep, n - 1)
    }
}

/// Each selected line is a marked line of the source, and each marked line
/// is selected.
pub proof fn lemma_select_members(lines: Seq<Seq<char>>, keep: Seq<bool>, n: int)
    requires
        0 <= n <= lines.len(),
        n <= keep.len(),
    ensures
        forall|k: int|
            0 <= k < select(lines, keep, n).len() ==> exists|i: int|
                0 <= i < n && keep[i] && #[trigger] select(lines, keep, n)[k] == lines[i],
        forall|i: int| 0 <= i < n && keep[i] ==> select(lines, keep, n).contains(#[trigger] lines[i]),
    decreases n,
{
    if n > 0 {
        lemma_select_members(lines, keep, n - 1);
        let prev = select(lines, keep, n - 1);
        let cur = select(lines, keep, n);
        assert forall|k: int| 0 <= k < cur.len() implies exists|i: int|
            0 <= i < n && keep[i] && #[trigger] cur[k] == lines[i] by {
            if k < prev.len() {
                assert(cur[k] == prev[k]);
                let i = choose|i: int| 0 <= i < n - 1 && keep[i] && prev[k] == lines[i];
                assert(0 <= i < n && keep[i] && cur[k] == lines[i]);
            } else {
                assert(cur[k] == lines[n - 1]);
            }
        }
        assert forall|i: int| 0 <= i < n && keep[i] implies cur.contains(#[trigger] lines[i]) by {
            if i < n - 1 {
                let k = choose|k: int| 0 <= k < prev.len() && prev[k] == lines[i];
                assert(cur[k] == lines[i]);
            } else {
                assert(cur[prev.len() as int] == lines[i]);
            }
        }
    }
}

/// Every fingerprint has a first occurrence.
pub(crate) proof fn lemma_first_occurrence_exists(fps: Seq<u64>, a: int)
    requires
        0 <= a < fps.len(),
    ensures
        exists|i: int| 0 <= i <= a && fps[i] == fps[a] && first_occurrence(fps, i),
    decreases a,
{
    if !first_occurrence(fps, a) {
        let j = choose|j: int| 0 <= j < a && fps[j] == fps[a];
        lemma_first_occurrence_exists(fps, j);
        let i = choose|i: int| 0 <= i <= j && fps[i] == fps[j] && first_occurrence(fps, i);
        assert(0 <= i <= a && fps[i] == fps[a] && first_occurrence(fps, i));
    }
}

/// Selecting only first occurrences selects distinct fingerprints.
pub(crate) proof fn lemma_select_first_distinct(lines: Seq<Seq<char>>, keep: Seq<bool>, n: int)
    requires
        0 <= n <= lines.len(),
        keep.len() == lines.len(),
        forall|i: int|
            0 <= i < lines.len() && #[trigger] keep[i] ==> first_occurrence(
                fingerprints_of(lines),
                i,
            ),
    ensures
        forall|a: int, b: int|
            0 <= a < b < select(lines, keep, n).len() ==> fingerprint_of(
                #[trigger] select(lines, keep, n)[a],
            ) != fingerprint_of(#[trigger] select(lines, keep, n)[b]),
    decreases n,
{
    if n > 0 {
        lemma_select_first_distinct(lines, keep, n - 1);
        lemma_select_members(lines, keep, n - 1);
        let fps = fingerprints_of(lines);
        let prev = select(lines, keep, n - 1);
        let cur = select(lines, keep, n);
        if keep[n - 1] {
            assert forall|a: int, b: int|
                0 <= a < b < cur.len() implies fingerprint_of(#[trigger] cur[a]) != fingerprint_of(
                #[trigger] cur[b],
            ) by {
                assert(cur[a] == prev[a]);
                if b < prev.len() {
                    assert(cur[b] == prev[b]);
                } else {
                    let i = choose|i: int| 0 <= i < n - 1 && keep[i] && prev[a] == lines[i];
                    assert(fps[i] == fingerprint_of(lines[i]));
                    assert(fps[n - 1] == fingerprint_of(lines[n - 1]));
                    assert(first_occurrence(fps, n - 1));
                }
            }
        }
    }
}

/// Fingerprints of each line, in order.
pub fn fingerprints(lines: &Vec<String>) -> (r: Vec<u64>)
    ensures
        r@ == fingerprints_of(views(lines@)),
{
    let mut r: Vec<u64> = Vec::new();
    for i in 0..lines.len()
        invariant
            r.len() == i,
            forall|j: int| 0 <= j < i ==> r[j] == fingerprint_of(lines[j]@),
    {
        r.push(fingerprint(lines[i].as_str()));
    }
    assert(r@ =~= fingerprints_of(views(lines@)));
    r
}

} // verus!
