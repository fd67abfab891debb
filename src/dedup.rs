use rayon::slice::ParallelSliceMut;
use rustc_hash::FxHashSet;
use vstd::prelude::*;

use crate::fingerprint::views;

verus! {

/// Declares `rustc_hash::FxHasher`, the hasher of the line set, as an
/// opaque type; nothing is assumed of its values.
#[verifier::external_type_specification]
#[verifier::external_body]
pub struct ExFxHasher(rustc_hash::FxHasher);

/// Declares `std::hash::BuildHasherDefault`, through which `FxHashSet`
/// builds its hasher, as an opaque type; nothing is assumed of its values.
#[verifier::external_type_specification]
#[verifier::external_body]
#[verifier::reject_recursive_types(H)]
pub struct ExBuildHasherDefault<H>(std::hash::BuildHasherDefault<H>);

/// The lines a hash set of lines holds.
pub uninterp spec fn line_set(s: FxHashSet<String>) -> Set<Seq<char>>;

/// Relies on `FxHashSet::default`: a new set is empty.
#[verifier::external_body]
fn line_set_new() -> (r: FxHashSet<String>)
    ensures
        line_set(r) == Set::<Seq<char>>::empty(),
{
    FxHashSet::default()
}

/// Relies on `HashSet::insert`: the line is added, and the result tells
/// whether it was absent. `String`'s equality is equality of characters.
#[verifier::external_body]
fn line_set_insert(s: &mut FxHashSet<String>, line: String) -> (r: bool)
    ensures
        line_set(*final(s)) == line_set(*old(s)).insert(line@),
        r == !line_set(*old(s)).contains(line@),
{
    s.insert(line)
}

/// Relies on `HashSet::into_iter`: each element is visited once, in an
/// order that depends on the table's layout.
#[verifier::external_body]
fn line_set_into_vec(s: FxHashSet<String>) -> (r: Vec<String>)
    ensures
        views(r@).no_duplicates(),
        views(r@).to_set() == line_set(s),
{
    Vec::from_iter(s)
}

/// Lexicographic order of character sequences.
pub open spec fn lex_le(a: Seq<char>, b: Seq<char>) -> bool
    decreases a.len(),
{
    if a.len() == 0 {
        true
    } else if b.len() == 0 {
        false
    } else if a[0] != b[0] {
        (a[0] as u32) < (b[0] as u32)
    } else {
        lex_le(a.drop_first(), b.drop_first())
    }
}

/// Each line is at most every line after it.
pub open spec fn sorted(s: Seq<Seq<char>>) -> bool {
    forall|i: int, j: int| 0 <= i < j < s.len() ==> lex_le(s[i], s[j])
}

proof fn lemma_lex_antisymmetric(a: Seq<char>, b: Seq<char>)
    requires
        lex_le(a, b),
        lex_le(b, a),
    ensures
        a == b,
    decreases a.len(),
{
    if a.len() > 0 {
        lemma_lex_antisymmetric(a.drop_first(), b.drop_first());
        assert(a =~= seq![a[0]] + a.drop_first());
        assert(b =~= seq![b[0]] + b.drop_first());
    } else {
        assert(b.len() == 0);
        assert(a =~= b);
    }
}

/// Relies on rayon's `par_sort_unstable`: the lines are permuted into
/// ascending order. `String`'s order compares UTF-8 bytes, which order
/// the same way as the characters they encode.
#[verifier::external_body]
fn sort_lines(v: &mut Vec<String>)
    ensures
        views(final(v)@).to_multiset() == views(old(v)@).to_multiset(),
        sorted(views(final(v)@)),
{
    v.par_sort_unstable();
}

/// What the memory-set strategy may produce from a corpus: each distinct
/// line exactly once, in an order that is not specified.
pub open spec fn memory_set_outcome(input: Seq<Seq<char>>, output: Seq<Seq<char>>) -> bool {
    &&& output.no_duplicates()
    &&& output.to_set() == input.to_set()
}

/// Every line the memory-set strategy writes stands verbatim in its input;
/// it writes at most as many lines as it read, and as many exactly when the
/// input held no duplicate.
pub proof fn lemma_memory_set_round_trip(input: Seq<Seq<char>>, output: Seq<Seq<char>>)
    requires
        memory_set_outcome(input, output),
    ensures
        forall|k: int| 0 <= k < output.len() ==> input.contains(#[trigger] output[k]),
        output.len() <= input.len(),
        output.len() == input.len() <==> input.no_duplicates(),
{
    assert forall|k: int| 0 <= k < output.len() implies input.contains(#[trigger] output[k]) by {
        assert(output.to_set().contains(output[k]));
    }
    output.unique_seq_to_set();
    input.lemma_cardinality_of_set();
    if output.len() == input.len() {
        input.lemma_no_dup_set_cardinality();
    }
    if input.no_duplicates() {
        input.unique_seq_to_set();
    }
}

/// The memory-set strategy: all lines go into one hash set keyed by their
/// full content, and the set is written out. Needs memory for the distinct
/// lines and does not keep the input order.
pub struct DuplicatesRemoverMem;

/// The same strategy under the name the line-set task uses.
pub type DuplicatesRemoverM = DuplicatesRemoverMem;

impl DuplicatesRemoverMem {
    pub fn remove_duplicates(lines: &Vec<String>) -> (r: Vec<String>)
        ensures
            memory_set_outcome(views(lines@), views(r@)),
    {
        let ghost ls = views(lines@);
        let mut set = line_set_new();
        for i in 0..lines.len()
            invariant
                ls == views(lines@),
                line_set(set) == ls.subrange(0, i as int).to_set(),
        {
            line_set_insert(&mut set, lines[i].clone());
            assert(ls.subrange(0, i + 1) =~= ls.subrange(0, i as int).push(ls[i as int]));
            proof {
                ls.subrange(0, i as int).lemma_push_to_set_commute(ls[i as int]);
            }
            assert(line_set(set) =~= ls.subrange(0, i + 1).to_set());
        }
        assert(ls.subrange(0, lines.len() as int) =~= ls);
        line_set_into_vec(set)
    }
}

/// What the sorting strategy produces from a corpus: its distinct lines in
/// ascending order.
pub open spec fn sorted_outcome(input: Seq<Seq<char>>, output: Seq<Seq<char>>) -> bool {
    &&& sorted(output)
    &&& output.no_duplicates()
    &&& output.to_set() == input.to_set()
}

/// The sorting strategy: lines are sorted, and each run of equal adjacent
/// lines is cut to its first. The output does not depend on scheduling.
pub struct DuplicatesRemoverC;

impl DuplicatesRemoverC {
    pub fn remove_duplicates(lines: Vec<String>) -> (r: Vec<String>)
        ensures
            sorted_outcome(views(lines@), views(r@)),
    {
        let mut v = lines;
        sort_lines(&mut v);
        let ghost vs = views(v@);
        proof {
            assert forall|x: Seq<char>| vs.to_set().contains(x) <==> views(lines@).to_set().contains(x)
                by {
                assert(vs.to_multiset().count(x) == views(lines@).to_multiset().count(x));
                vs.to_multiset_ensures();
                views(lines@).to_multiset_ensures();
            }
            assert(vs.to_set() =~= views(lines@).to_set());
        }
        let mut out: Vec<String> = Vec::new();
        let ghost mut idx: Seq<int> = Seq::empty();
        for i in 0..v.len()
            invariant
                vs == views(v@),
                sorted(vs),
                idx.len() == out.len(),
                forall|k: int| 0 <= k < idx.len() ==> 0 <= #[trigger] idx[k] < i,
                forall|k: int| 0 <= k < idx.len() ==> views(out@)[k] == vs[#[trigger] idx[k]],
                forall|a: int, b: int| 0 <= a < b < idx.len() ==> idx[a] < idx[b],
                i > 0 ==> out.len() > 0 && views(out@).last() == vs[i - 1],
                forall|j: int| 0 <= j < i ==> views(out@).contains(#[trigger] vs[j]),
                views(out@).no_duplicates(),
        {
            let keep = if out.len() == 0 {
                true
            } else {
                !(out[out.len() - 1] == v[i])
            };
            if keep {
                let ghost before = views(out@);
                proof {
                    assert forall|k: int| 0 <= k < before.len() implies before[k] != vs[i as int]
                        by {
                        if before[k] == vs[i as int] {
                            let a = idx[k];
                            assert(lex_le(vs[a], vs[i - 1]) || a == i - 1);
                            assert(lex_le(vs[i - 1], vs[i as int]));
                            lemma_lex_antisymmetric(vs[i - 1], vs[i as int]);
                        }
                    }
                }
                out.push(v[i].clone());
                proof {
                    idx = idx.push(i as int);
                }
                assert(views(out@) =~= before.push(vs[i as int]));
                assert forall|j: int| 0 <= j < i + 1 implies views(out@).contains(#[trigger] vs[j])
                    by {
                    if j < i {
                        let k = choose|k: int| 0 <= k < before.len() && before[k] == vs[j];
                        assert(views(out@)[k] == vs[j]);
                    } else {
                        assert(views(out@)[before.len() as int] == vs[j]);
                    }
                }
            } else {
                assert(views(out@).last() == vs[i as int]);
                assert(views(out@)[views(out@).len() - 1] == vs[i as int]);
            }
        }
        proof {
            let o = views(out@);
            assert forall|a: int, b: int| 0 <= a < b < o.len() implies lex_le(o[a], o[b]) by {
                assert(idx[a] < idx[b]);
            }
            assert forall|x: Seq<char>| o.to_set().contains(x) <==> vs.to_set().contains(x) by {
                if o.contains(x) {
                    let k = choose|k: int| 0 <= k < o.len() && o[k] == x;
                    assert(vs[idx[k]] == x);
                }
                if vs.contains(x) {
                    let j = choose|j: int| 0 <= j < vs.len() && vs[j] == x;
                    assert(o.contains(vs[j]));
                }
            }
            assert(o.to_set() =~= vs.to_set());
        }
        out
    }
}

} // verus!
