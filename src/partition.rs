use vstd::prelude::*;

use crate::fingerprint::views;

verus! {

/// Index of the first line of part `k`: the sizes of the parts before it,
/// summed.
pub open spec fn part_start(sizes: Seq<usize>, k: int) -> int
    decreases k,
{
    if k <= 0 {
        0
    } else {
        part_start(sizes, k - 1) + sizes[k - 1]
    }
}

/// The number of lines a plan covers.
pub open spec fn total(sizes: Seq<usize>) -> int {
    part_start(sizes, sizes.len() as int)
}

/// A plan for `n` lines: every part holds a line, and the parts cover the
/// lines exactly.
pub open spec fn valid_plan(sizes: Seq<usize>, n: int) -> bool {
    &&& total(sizes) == n
    &&& forall|k: int| 0 <= k < sizes.len() ==> sizes[k] > 0
}

/// Parts of `w` lines each, the last one holding what is left (at most `w`).
pub open spec fn chunks(n: usize, w: usize) -> Seq<usize>
    decreases n,
{
    if n == 0 || w == 0 {
        Seq::empty()
    } else if n <= w {
        seq![n]
    } else {
        seq![w] + chunks((n - w) as usize, w)
    }
}

/// `c` parts of `w` lines each, the last one absorbing the remainder.
pub open spec fn even_parts(n: usize, w: usize, c: nat) -> Seq<usize>
    decreases c,
{
    if c <= 1 {
        seq![n]
    } else {
        seq![w] + even_parts((n - w) as usize, w, (c - 1) as nat)
    }
}

/// The plan for `l` lines per part: `l` is cut to `n` when it exceeds it.
pub open spec fn lines_plan(n: usize, l: usize) -> Seq<usize> {
    chunks(
        n,
        if l > n {
            n
        } else {
            l
        },
    )
}

/// The plan for `p` parts: `n / p` lines per part, the last part absorbing
/// the remainder; when `p` exceeds `n` there is one part of all lines.
pub open spec fn parts_plan(n: usize, p: usize) -> Seq<usize> {
    if n == 0 {
        Seq::empty()
    } else if n / p == 0 {
        seq![n]
    } else {
        even_parts(n, (n / p) as usize, p as nat)
    }
}

proof fn lemma_start_prepend(w: usize, s: Seq<usize>, k: int)
    requires
        0 <= k <= s.len(),
    ensures
        part_start(seq![w] + s, k + 1) == w + part_start(s, k),
    decreases k,
{
    let t = seq![w] + s;
    reveal_with_fuel(part_start, 2);
    assert(t[0] == w);
    if k > 0 {
        lemma_start_prepend(w, s, k - 1);
        assert(t[k] == s[k - 1]);
    }
}

proof fn lemma_start_monotone(s: Seq<usize>, j: int, k: int)
    requires
        0 <= j <= k <= s.len(),
    ensures
        part_start(s, j) <= part_start(s, k),
    decreases k - j,
{
    if j < k {
        lemma_start_monotone(s, j, k - 1);
    }
}

proof fn lemma_chunks_valid(n: usize, w: usize)
    requires
        w > 0,
    ensures
        valid_plan(chunks(n, w), n as int),
        forall|k: int| 0 <= k < chunks(n, w).len() ==> chunks(n, w)[k] <= w,
    decreases n,
{
    if n > w {
        let rest = chunks((n - w) as usize, w);
        lemma_chunks_valid((n - w) as usize, w);
        lemma_start_prepend(w, rest, rest.len() as int);
        assert(chunks(n, w) == seq![w] + rest);
    } else if n > 0 {
        reveal_with_fuel(part_start, 2);
    }
}

proof fn lemma_even_parts_valid(n: usize, w: usize, c: nat)
    requires
        c >= 1,
        w > 0,
        c * w <= n,
    ensures
        valid_plan(even_parts(n, w, c), n as int),
        even_parts(n, w, c).len() == c,
    decreases c,
{
    if c > 1 {
        assert(w <= n) by (nonlinear_arith)
            requires
                c > 1,
                c * w <= n,
        ;
        assert((c - 1) * w <= n - w) by (nonlinear_arith)
            requires
                c * w <= n,
        ;
        let rest = even_parts((n - w) as usize, w, (c - 1) as nat);
        lemma_even_parts_valid((n - w) as usize, w, (c - 1) as nat);
        lemma_start_prepend(w, rest, rest.len() as int);
        let all = even_parts(n, w, c);
        assert(all == seq![w] + rest);
        assert forall|k: int| 0 <= k < all.len() implies all[k] > 0 by {
            if k > 0 {
                assert(all[k] == rest[k - 1]);
            }
        }
    } else {
        assert(w <= n) by (nonlinear_arith)
            requires
                c == 1,
                c * w <= n,
        ;
        reveal_with_fuel(part_start, 2);
    }
}

/// The plan for `l` lines per part covers the `n` lines exactly.
pub proof fn lemma_lines_plan_valid(n: usize, l: usize)
    requires
        l > 0,
    ensures
        valid_plan(lines_plan(n, l), n as int),
{
    if n > 0 {
        lemma_chunks_valid(
            n,
            if l > n {
                n
            } else {
                l
            },
        );
    }
}

/// The plan for `p` parts covers the `n` lines exactly, in `p` parts when
/// `p` does not exceed `n`.
pub proof fn lemma_parts_plan_valid(n: usize, p: usize)
    requires
        p > 0,
    ensures
        valid_plan(parts_plan(n, p), n as int),
        0 < p <= n ==> parts_plan(n, p).len() == p,
{
    if n > 0 {
        if n / p == 0 {
            reveal_with_fuel(part_start, 2);
        } else {
            let w = (n / p) as usize;
            assert(p * w <= n) by (nonlinear_arith)
                requires
                    w == n / p,
                    p > 0,
            ;
            lemma_even_parts_valid(n, w, p as nat);
        }
    } else {
        assert(total(Seq::<usize>::empty()) == 0);
    }
    if 0 < p <= n {
        assert(n / p >= 1) by (nonlinear_arith)
            requires
                0 < p <= n,
        ;
    }
}

/// Part sizes for `l` lines per part: all parts hold `l` lines but the
/// last, which holds what is left; `l` is cut to `n` when it exceeds it.
pub fn plan_by_lines(n: usize, l: usize) -> (r: Vec<usize>)
    requires
        l > 0,
    ensures
        r@ == lines_plan(n, l),
        valid_plan(r@, n as int),
{
    proof {
        lemma_lines_plan_valid(n, l);
    }
    let mut out: Vec<usize> = Vec::new();
    if n == 0 {
        return out;
    }
    let w = if l > n {
        n
    } else {
        l
    };
    let mut rem = n;
    while rem > w
        invariant
            w > 0,
            rem > 0,
            out@ + chunks(rem, w) == chunks(n, w),
        decreases rem,
    {
        let ghost before = out@;
        assert(chunks(rem, w) == seq![w] + chunks((rem - w) as usize, w));
        out.push(w);
        rem = rem - w;
        assert(out@ + chunks(rem, w) =~= before + chunks((rem + w) as usize, w));
    }
    assert(chunks(rem, w) == seq![rem]);
    out.push(rem);
    assert(out@ =~= chunks(n, w));
    out
}

/// Part sizes for `p` parts: `n / p` lines per part with the last part
/// absorbing the remainder; a single part of all lines when `p > n`.
pub fn plan_by_parts(n: usize, p: usize) -> (r: Vec<usize>)
    requires
        p > 0,
    ensures
        r@ == parts_plan(n, p),
        valid_plan(r@, n as int),
{
    proof {
        lemma_parts_plan_valid(n, p);
    }
    let mut out: Vec<usize> = Vec::new();
    if n == 0 {
        return out;
    }
    let w = n / p;
    if w == 0 {
        out.push(n);
        assert(out@ =~= seq![n]);
        return out;
    }
    assert(p * w <= n) by (nonlinear_arith)
        requires
            w == n / p,
            p > 0,
    ;
    let mut rem = n;
    let mut j: usize = 0;
    while j + 1 < p
        invariant
            w > 0,
            j < p,
            (p - j) * w <= rem,
            out@ + even_parts(rem, w, (p - j) as nat) == even_parts(n, w, p as nat),
        decreases p - j,
    {
        let ghost before = out@;
        assert(w <= rem && (p - j - 1) * w <= rem - w) by (nonlinear_arith)
            requires
                (p - j) * w <= rem,
                j + 1 < p,
                w > 0,
        ;
        assert(even_parts(rem, w, (p - j) as nat) == seq![w] + even_parts(
            (rem - w) as usize,
            w,
            (p - j - 1) as nat,
        ));
        out.push(w);
        rem = rem - w;
        j = j + 1;
        assert(out@ + even_parts(rem, w, (p - j) as nat) =~= before + even_parts(
            (rem + w) as usize,
            w,
            (p - j + 1) as nat,
        ));
    }
    assert(even_parts(rem, w, (p - j) as nat) == seq![rem]);
    out.push(rem);
    assert(out@ =~= even_parts(n, w, p as nat));
    out
}

/// The lines of each part of a plan, taken from a source in order.
pub open spec fn part_lines(lines: Seq<Seq<char>>, sizes: Seq<usize>) -> Seq<Seq<Seq<char>>> {
    Seq::new(
        sizes.len(),
        |k: int| lines.subrange(part_start(sizes, k), part_start(sizes, k + 1)),
    )
}

/// The parts of a corpus written one after another.
pub open spec fn concat(parts: Seq<Seq<Seq<char>>>) -> Seq<Seq<char>>
    decreases parts.len(),
{
    if parts.len() == 0 {
        Seq::empty()
    } else {
        concat(parts.drop_last()) + parts.last()
    }
}

proof fn lemma_concat_prefix(lines: Seq<Seq<char>>, sizes: Seq<usize>, k: int)
    requires
        total(sizes) == lines.len(),
        0 <= k <= sizes.len(),
    ensures
        concat(part_lines(lines, sizes).subrange(0, k)) == lines.subrange(0, part_start(sizes, k)),
    decreases k,
{
    let pl = part_lines(lines, sizes);
    if k == 0 {
        assert(lines.subrange(0, 0) =~= Seq::<Seq<char>>::empty());
    } else {
        lemma_concat_prefix(lines, sizes, k - 1);
        lemma_start_monotone(sizes, 0, k - 1);
        lemma_start_monotone(sizes, k - 1, k);
        lemma_start_monotone(sizes, k, sizes.len() as int);
        assert(pl.subrange(0, k).drop_last() =~= pl.subrange(0, k - 1));
        assert(lines.subrange(0, part_start(sizes, k - 1)) + pl[k - 1] =~= lines.subrange(
            0,
            part_start(sizes, k),
        ));
    }
}

/// Writing the parts of a plan one after another gives back the source,
/// line for line: no line is lost or repeated at a part boundary.
pub proof fn lemma_parts_reconstruct(lines: Seq<Seq<char>>, sizes: Seq<usize>)
    requires
        total(sizes) == lines.len(),
    ensures
        concat(part_lines(lines, sizes)) == lines,
{
    let pl = part_lines(lines, sizes);
    lemma_concat_prefix(lines, sizes, sizes.len() as int);
    assert(pl.subrange(0, sizes.len() as int) =~= pl);
    assert(lines.subrange(0, lines.len() as int) =~= lines);
}

/// A write the caller performs: `lines` go to part `part`, and `first` is
/// the index within the source of the first of them.
pub struct PartWrite {
    pub part: usize,
    pub first: usize,
    pub lines: Vec<String>,
}

/// Streams the lines of a source into the parts of a plan through a
/// bounded batch. A batch is written when it is full or when it reaches
/// the end of the current part, so it never straddles a boundary: the lines
/// that follow start the next part's batch.
pub struct PartWriter {
    sizes: Vec<usize>,
    part: usize,
    part_end: usize,
    flushed: usize,
    batch: Vec<String>,
    capacity: usize,
}

impl PartWriter {
    /// The part sizes being followed.
    pub closed spec fn plan(&self) -> Seq<usize> {
        self.sizes@
    }

    /// The part that receives the next line.
    pub closed spec fn part_index(&self) -> int {
        self.part as int
    }

    /// The number of lines already handed out in writes.
    pub closed spec fn flushed(&self) -> int {
        self.flushed as int
    }

    /// The lines waiting in the batch.
    pub closed spec fn pending(&self) -> Seq<Seq<char>> {
        views(self.batch@)
    }

    /// The largest batch.
    pub closed spec fn capacity(&self) -> int {
        self.capacity as int
    }

    /// The number of lines taken so far.
    pub open spec fn position(&self) -> int {
        self.flushed() + self.pending().len()
    }

    /// Every part of the plan has been filled.
    pub open spec fn done(&self) -> bool {
        self.part_index() >= self.plan().len()
    }

    pub closed spec fn wf(&self) -> bool {
        &&& self.capacity > 0
        &&& forall|k: int| 0 <= k < self.sizes.len() ==> self.sizes@[k] > 0
        &&& total(self.sizes@) <= usize::MAX
        &&& self.part <= self.sizes.len()
        &&& self.part < self.sizes.len() ==> {
            &&& self.part_end == part_start(self.sizes@, self.part + 1)
            &&& part_start(self.sizes@, self.part as int) <= self.flushed
            &&& self.flushed + self.batch.len() < self.part_end
            &&& self.batch.len() < self.capacity
        }
        &&& self.part == self.sizes.len() ==> self.flushed == total(self.sizes@)
            && self.batch.len() == 0
    }

    /// The writer is done exactly when it has taken every planned line.
    pub proof fn lemma_done(&self)
        requires
            self.wf(),
        ensures
            self.position() <= total(self.plan()),
            self.done() <==> self.position() == total(self.plan()),
            self.done() ==> self.part_index() == self.plan().len(),
            0 <= part_start(self.plan(), self.part_index()) <= self.flushed(),
    {
        lemma_start_monotone(self.sizes@, 0, self.part as int);
        if self.part < self.sizes.len() {
            lemma_start_monotone(self.sizes@, self.part + 1, self.sizes.len() as int);
        }
    }

    pub fn new(sizes: Vec<usize>, capacity: usize) -> (r: Self)
        requires
            capacity > 0,
            forall|k: int| 0 <= k < sizes.len() ==> sizes@[k] > 0,
            total(sizes@) <= usize::MAX,
        ensures
            r.wf(),
            r.plan() == sizes@,
            r.capacity() == capacity,
            r.part_index() == 0,
            r.flushed() == 0,
            r.pending() == Seq::<Seq<char>>::empty(),
    {
        let part_end = if sizes.len() > 0 {
            sizes[0]
        } else {
            0
        };
        proof {
            reveal_with_fuel(part_start, 2);
            if sizes.len() > 0 {
                lemma_start_monotone(sizes@, 1, sizes.len() as int);
            }
        }
        let r = PartWriter { sizes, part: 0, part_end, flushed: 0, batch: Vec::new(), capacity };
        assert(r.pending() =~= Seq::<Seq<char>>::empty());
        r
    }

    /// The part that receives the next line.
    pub fn part(&self) -> (r: usize)
        ensures
            r == self.part_index(),
    {
        self.part
    }

    /// Takes the next line; returns the write to perform, if any.
    pub fn push(&mut self, line: String) -> (r: Option<PartWrite>)
        requires
            old(self).wf(),
            !old(self).done(),
        ensures
            final(self).wf(),
            final(self).plan() == old(self).plan(),
            final(self).capacity() == old(self).capacity(),
            final(self).position() == old(self).position() + 1,
            match r {
                Some(w) => {
                    &&& w.part == old(self).part_index()
                    &&& w.first == old(self).flushed()
                    &&& views(w.lines@) == old(self).pending().push(line@)
                    &&& part_start(old(self).plan(), w.part as int) <= w.first
                    &&& w.first + w.lines.len() <= part_start(old(self).plan(), w.part + 1)
                    &&& w.lines.len() == old(self).capacity() || w.first + w.lines.len()
                        == part_start(old(self).plan(), w.part + 1)
                    &&& final(self).pending() == Seq::<Seq<char>>::empty()
                    &&& final(self).flushed() == old(self).position() + 1
                    &&& final(self).part_index() == if final(self).flushed() == part_start(
                        old(self).plan(),
                        w.part + 1,
                    ) {
                        w.part + 1
                    } else {
                        w.part as int
                    }
                },
                None => {
                    &&& final(self).pending() == old(self).pending().push(line@)
                    &&& final(self).flushed() == old(self).flushed()
                    &&& final(self).part_index() == old(self).part_index()
                },
            },
    {
        let ghost before = views(self.batch@);
        self.batch.push(line);
        assert(views(self.batch@) =~= before.push(line@));
        let next = self.flushed + self.batch.len();
        if next == self.part_end || self.batch.len() == self.capacity {
            let mut lines: Vec<String> = Vec::new();
            std::mem::swap(&mut lines, &mut self.batch);
            let w = PartWrite { part: self.part, first: self.flushed, lines };
            self.flushed = next;
            if next == self.part_end {
                self.part = self.part + 1;
                if self.part < self.sizes.len() {
                    proof {
                        lemma_start_monotone(self.sizes@, self.part + 1, self.sizes.len() as int);
                    }
                    self.part_end = self.part_end + self.sizes[self.part];
                }
            }
            assert(views(self.batch@) =~= Seq::<Seq<char>>::empty());
            Some(w)
        } else {
            None
        }
    }

    /// At the end of the source: the write of what the batch still holds.
    /// Nothing is pending when the source held every planned line.
    pub fn finish(&mut self) -> (r: Option<PartWrite>)
        requires
            old(self).wf(),
        ensures
            final(self).wf(),
            final(self).plan() == old(self).plan(),
            final(self).capacity() == old(self).capacity(),
            final(self).part_index() == old(self).part_index(),
            final(self).position() == old(self).position(),
            final(self).pending() == Seq::<Seq<char>>::empty(),
            match r {
                Some(w) => {
                    &&& old(self).pending().len() > 0
                    &&& w.part == old(self).part_index()
                    &&& w.first == old(self).flushed()
                    &&& views(w.lines@) == old(self).pending()
                    &&& part_start(old(self).plan(), w.part as int) <= w.first
                    &&& w.first + w.lines.len() <= part_start(old(self).plan(), w.part + 1)
                },
                None => old(self).pending().len() == 0,
            },
    {
        if self.batch.len() == 0 {
            return None;
        }
        let mut lines: Vec<String> = Vec::new();
        std::mem::swap(&mut lines, &mut self.batch);
        let w = PartWrite { part: self.part, first: self.flushed, lines };
        self.flushed = self.flushed + w.lines.len();
        assert(views(self.batch@) =~= Seq::<Seq<char>>::empty());
        Some(w)
    }
}

/// Splits a corpus into the parts of a plan, through a part writer with
/// batches of at most `capacity` lines.
pub fn split_lines(
    lines: &Vec<String>,
    sizes: &Vec<usize>,
    capacity: usize,
) -> (r: Vec<Vec<String>>)
    requires
        capacity > 0,
        valid_plan(sizes@, lines.len() as int),
    ensures
        r.len() == sizes.len(),
        forall|k: int|
            0 <= k < r.len() ==> views((#[trigger] r@[k])@) == part_lines(
                views(lines@),
                sizes@,
            )[k],
{
    let ghost src = views(lines@);
    let n = lines.len();
    let mut w = PartWriter::new(sizes.clone(), capacity);
    assert(w.plan() == sizes@);
    let mut parts: Vec<Vec<String>> = Vec::new();
    let mut current: Vec<String> = Vec::new();
    for i in 0..n
        invariant
            n == lines.len(),
            src == views(lines@),
            w.wf(),
            w.plan() == sizes@,
            total(sizes@) == n,
            w.position() == i,
            parts.len() == w.part_index(),
            forall|k: int|
                0 <= k < parts.len() ==> views((#[trigger] parts@[k])@) == src.subrange(
                    part_start(sizes@, k),
                    part_start(sizes@, k + 1),
                ),
            views(current@) == src.subrange(part_start(sizes@, w.part_index()), w.flushed()),
            w.pending() == src.subrange(w.flushed(), i as int),
    {
        proof {
            w.lemma_done();
        }
        let ghost old_w = w;
        let ghost old_cur = views(current@);
        match w.push(lines[i].clone()) {
            Some(write) => {
                let mut moved = write.lines;
                current.append(&mut moved);
                assert(views(current@) =~= old_cur + old_w.pending().push(src[i as int]));
                assert(views(current@) =~= src.subrange(
                    part_start(sizes@, old_w.part_index()),
                    w.flushed(),
                ));
                if w.part() != write.part {
                    let mut done_part: Vec<String> = Vec::new();
                    std::mem::swap(&mut done_part, &mut current);
                    parts.push(done_part);
                    assert(views(current@) =~= src.subrange(
                        part_start(sizes@, w.part_index()),
                        w.flushed(),
                    ));
                }
                assert(w.pending() =~= src.subrange(w.flushed(), i + 1));
            },
            None => {
                assert(w.pending() =~= src.subrange(w.flushed(), i + 1));
            },
        }
    }
    proof {
        w.lemma_done();
    }
    assert forall|k: int|
        0 <= k < parts.len() implies views((#[trigger] parts@[k])@) == part_lines(
        src,
        sizes@,
    )[k] by {}
    parts
}

} // verus!
