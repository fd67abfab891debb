use vstd::prelude::*;
use vstd::string::*;

use crate::combo::{chars_of, push_char, string_of};

verus! {

/// Index of the last `c` in `s`, or -1.
pub open spec fn last_of(s: Seq<char>, c: char) -> int
    decreases s.len(),
{
    if s.len() == 0 {
        -1
    } else if s.last() == c {
        s.len() - 1
    } else {
        last_of(s.drop_last(), c)
    }
}

/// A file name without its extension. A leading dot does not start an
/// extension.
pub open spec fn stem(name: Seq<char>) -> Seq<char> {
    let d = last_of(name, '.');
    if d > 0 {
        name.subrange(0, d)
    } else {
        name
    }
}

/// The extension of a file name, empty when it has none.
pub open spec fn extension(name: Seq<char>) -> Seq<char> {
    let d = last_of(name, '.');
    if d > 0 {
        name.subrange(d + 1, name.len() as int)
    } else {
        Seq::empty()
    }
}

/// The output path for a source file: in `dir`, the source's stem with the
/// suffix, a dot and the source's extension.
pub open spec fn results_path(name: Seq<char>, dir: Seq<char>, suffix: Seq<char>) -> Seq<char> {
    let file = stem(name) + suffix + seq!['.'] + extension(name);
    if dir.len() == 0 {
        file
    } else {
        dir + seq!['/'] + file
    }
}

proof fn lemma_last_of_bounds(s: Seq<char>, c: char)
    ensures
        -1 <= last_of(s, c) < s.len(),
    decreases s.len(),
{
    if s.len() > 0 {
        lemma_last_of_bounds(s.drop_last(), c);
    }
}

/// The output path for the source file `file_name` in `results_dir`:
/// `combo.txt` with suffix `_merged` becomes `combo_merged.txt`.
pub fn build_results_path(file_name: &str, results_dir: &str, suffix: &str) -> (r: String)
    ensures
        r@ == results_path(file_name@, results_dir@, suffix@),
{
    let v = chars_of(file_name);
    let mut last: usize = 0;
    let mut found = false;
    for i in 0..v.len()
        invariant
            last_of(v@.subrange(0, i as int), '.') == if found {
                last as int
            } else {
                -1
            },
    {
        assert(v@.subrange(0, i + 1).drop_last() =~= v@.subrange(0, i as int));
        if v[i] == '.' {
            last = i;
            found = true;
        }
    }
    assert(v@.subrange(0, v.len() as int) =~= v@);
    proof {
        lemma_last_of_bounds(v@, '.');
    }
    let mut out = String::new();
    if results_dir.unicode_len() > 0 {
        out.append(results_dir);
        push_char(&mut out, '/');
    }
    let ghost prefix = out@;
    if found && last > 0 {
        let s = string_of(&v, 0, last);
        out.append(s.as_str());
        out.append(suffix);
        push_char(&mut out, '.');
        let e = string_of(&v, last + 1, v.len());
        out.append(e.as_str());
    } else {
        out.append(file_name);
        out.append(suffix);
        push_char(&mut out, '.');
    }
    assert(out@ =~= prefix + (stem(v@) + suffix@ + seq!['.'] + extension(v@)));
    out
}

} // verus!
