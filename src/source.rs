use rand::seq::SliceRandom;
use vstd::prelude::*;

use crate::combo::{chars_of, string_of};
use crate::fingerprint::views;

verus! {

/// A text cut at each `\n`; the last piece is what follows the last `\n`.
pub open spec fn pieces(t: Seq<char>) -> Seq<Seq<char>>
    decreases t.len(),
{
    if t.len() == 0 {
        seq![Seq::empty()]
    } else {
        let p = pieces(t.drop_last());
        if t.last() == '\n' {
            p.push(Seq::empty())
        } else {
            p.update(p.len() - 1, p.last().push(t.last()))
        }
    }
}

/// A line without the `\r` of its CRLF terminator.
pub open spec fn strip_cr(l: Seq<char>) -> Seq<char> {
    if l.len() > 0 && l.last() == '\r' {
        l.drop_last()
    } else {
        l
    }
}

/// The lines of a decoded text: each `\n` or `\r\n` ends a line, and a
/// last line without terminator counts when it is not empty.
pub open spec fn text_lines(t: Seq<char>) -> Seq<Seq<char>> {
    let p = pieces(t);
    let ended = p.drop_last().map_values(|l: Seq<char>| strip_cr(l));
    if p.last().len() == 0 {
        ended
    } else {
        ended.push(p.last())
    }
}

proof fn lemma_pieces_nonempty(t: Seq<char>)
    ensures
        pieces(t).len() >= 1,
    decreases t.len(),
{
    if t.len() > 0 {
        lemma_pieces_nonempty(t.drop_last());
    }
}

/// The lines of a decoded corpus text, in order.
pub fn read_lines(text: &str) -> (r: Vec<String>)
    ensures
        views(r@) == text_lines(text@),
{
    let v = chars_of(text);
    let mut done: Vec<String> = Vec::new();
    let mut cur: Vec<char> = Vec::new();
    for i in 0..v.len()
        invariant
            v@ == text@,
            pieces(v@.subrange(0, i as int)).len() >= 1,
            views(done@) == pieces(v@.subrange(0, i as int)).drop_last().map_values(
                |l: Seq<char>| strip_cr(l),
            ),
            cur@ == pieces(v@.subrange(0, i as int)).last(),
    {
        let ghost pre = v@.subrange(0, i as int);
        let ghost next = v@.subrange(0, i + 1);
        assert(next.drop_last() =~= pre);
        proof {
            lemma_pieces_nonempty(next);
        }
        if v[i] == '\n' {
            let end = if cur.len() > 0 && cur[cur.len() - 1] == '\r' {
                cur.len() - 1
            } else {
                cur.len()
            };
            let line = string_of(&cur, 0, end);
            assert(line@ =~= strip_cr(cur@));
            let ghost before = views(done@);
            done.push(line);
            assert(views(done@) =~= before.push(strip_cr(cur@)));
            assert(pieces(next).drop_last() =~= pieces(pre));
            assert(pieces(pre) =~= pieces(pre).drop_last().push(pieces(pre).last()));
            assert(views(done@) =~= pieces(next).drop_last().map_values(
                |l: Seq<char>| strip_cr(l),
            ));
            cur = Vec::new();
            assert(cur@ =~= pieces(next).last());
        } else {
            cur.push(v[i]);
            assert(pieces(next).drop_last() =~= pieces(pre).drop_last());
        }
    }
    assert(v@.subrange(0, v.len() as int) =~= text@);
    if cur.len() > 0 {
        let last = string_of(&cur, 0, cur.len());
        assert(last@ =~= cur@);
        let ghost before = views(done@);
        done.push(last);
        assert(views(done@) =~= before.push(cur@));
    }
    done
}

/// Relies on rand's `SliceRandom::shuffle` with the thread-local generator:
/// the lines are permuted. Which permutation comes out is left to chance.
#[verifier::external_body]
fn shuffle_lines(v: &mut Vec<String>)
    ensures
        views(final(v)@).to_multiset() == views(old(v)@).to_multiset(),
{
    v.shuffle(&mut rand::thread_rng());
}

/// Puts the lines of a corpus in random order.
pub struct Shuffler;

impl Shuffler {
    /// The same lines, each as often as before, in an order left to chance.
    pub fn shuffle(lines: Vec<String>) -> (r: Vec<String>)
        ensures
            views(r@).to_multiset() == views(lines@).to_multiset(),
    {
        let mut v = lines;
        shuffle_lines(&mut v);
        v
    }
}

} // verus!
