use vstd::prelude::*;
use vstd::string::*;
use vstd::utf8::encode_utf8;

use crate::combo::push_char;
use crate::fingerprint::views;

verus! {

/// The bytes of a text in the single-byte legacy code page of the corpora.
pub uninterp spec fn windows_1252_of(text: Seq<char>) -> Seq<u8>;

/// Relies on `encoding_rs::WINDOWS_1252.encode`: the encoded bytes are a
/// function of the text alone. Its buffer-size arithmetic is checked, and
/// fits for any text of at most a quarter of `usize::MAX` bytes.
#[verifier::external_body]
fn encode_windows_1252(text: &str) -> (r: Vec<u8>)
    requires
        text.spec_bytes().len() <= usize::MAX / 4,
    ensures
        r@ == windows_1252_of(text@),
{
    encoding_rs::WINDOWS_1252.encode(text).0.into_owned()
}

/// The CRLF line terminator of written corpora.
pub open spec fn crlf() -> Seq<char> {
    seq!['\r', '\n']
}

/// Lines written one after another, each followed by CRLF.
pub open spec fn framed(lines: Seq<Seq<char>>) -> Seq<char>
    decreases lines.len(),
{
    if lines.len() == 0 {
        Seq::empty()
    } else {
        framed(lines.drop_last()) + lines.last() + crlf()
    }
}

/// Items with a separator between each two.
pub open spec fn joined(items: Seq<Seq<char>>, sep: Seq<char>) -> Seq<char>
    decreases items.len(),
{
    if items.len() == 0 {
        Seq::empty()
    } else if items.len() == 1 {
        items[0]
    } else {
        joined(items.drop_last(), sep) + sep + items.last()
    }
}

/// The items with `joiner` between each two.
pub fn join(items: &Vec<String>, joiner: &str) -> (r: String)
    ensures
        r@ == joined(views(items@), joiner@),
{
    let mut out = String::new();
    for i in 0..items.len()
        invariant
            out@ == joined(views(items@).subrange(0, i as int), joiner@),
    {
        let ghost before = views(items@).subrange(0, i as int);
        assert(views(items@).subrange(0, i + 1).drop_last() =~= before);
        if i > 0 {
            out.append(joiner);
        }
        out.append(items[i].as_str());
        proof {
            if i == 0 {
                assert(out@ =~= views(items@).subrange(0, 1)[0]);
            }
        }
    }
    assert(views(items@).subrange(0, items.len() as int) =~= views(items@));
    out
}

/// The lines, each followed by CRLF.
pub fn frame(lines: &Vec<String>) -> (r: String)
    ensures
        r@ == framed(views(lines@)),
{
    let mut out = String::new();
    for i in 0..lines.len()
        invariant
            out@ == framed(views(lines@).subrange(0, i as int)),
    {
        assert(views(lines@).subrange(0, i + 1).drop_last() =~= views(lines@).subrange(
            0,
            i as int,
        ));
        out.append(lines[i].as_str());
        push_char(&mut out, '\r');
        push_char(&mut out, '\n');
        assert(out@ =~= framed(views(lines@).subrange(0, i + 1)));
    }
    assert(views(lines@).subrange(0, lines.len() as int) =~= views(lines@));
    out
}

/// The bytes to append to a destination for a batch: its lines, each
/// followed by CRLF, in the legacy code page. None when the text is too
/// long to encode (over a quarter of `usize::MAX` bytes in UTF-8).
pub fn encode_lines(lines: &Vec<String>) -> (r: Option<Vec<u8>>)
    ensures
        match r {
            Some(b) => {
                &&& encode_utf8(framed(views(lines@))).len() <= usize::MAX / 4
                &&& b@ == windows_1252_of(framed(views(lines@)))
            },
            None => encode_utf8(framed(views(lines@))).len() > usize::MAX / 4,
        },
{
    let text = frame(lines);
    let s = text.as_str();
    if s.as_bytes().len() > usize::MAX / 4 {
        return None;
    }
    Some(encode_windows_1252(s))
}

/// A bounded buffer of transformed lines. It hands its lines back to be
/// written when it fills up, or when asked at the end of a source.
pub struct Batch {
    lines: Vec<String>,
    capacity: usize,
}

impl Batch {
    /// The lines waiting to be written.
    pub closed spec fn pending(&self) -> Seq<Seq<char>> {
        views(self.lines@)
    }

    /// The number of lines that fills the batch.
    pub closed spec fn capacity(&self) -> int {
        self.capacity as int
    }

    pub open spec fn wf(&self) -> bool {
        0 <= self.pending().len() < self.capacity()
    }

    pub fn new(capacity: usize) -> (r: Self)
        requires
            capacity > 0,
        ensures
            r.wf(),
            r.capacity() == capacity,
            r.pending() == Seq::<Seq<char>>::empty(),
    {
        let r = Batch { lines: Vec::new(), capacity };
        assert(r.pending() =~= Seq::<Seq<char>>::empty());
        r
    }

    /// Buffers one line. When that fills the batch, its lines are handed
    /// back, to be written, and the batch is cleared.
    pub fn append(&mut self, line: String) -> (r: Option<Vec<String>>)
        requires
            old(self).wf(),
        ensures
            final(self).wf(),
            final(self).capacity() == old(self).capacity(),
            match r {
                Some(full) => {
                    &&& views(full@) == old(self).pending().push(line@)
                    &&& full.len() == old(self).capacity()
                    &&& final(self).pending() == Seq::<Seq<char>>::empty()
                },
                None => final(self).pending() == old(self).pending().push(line@),
            },
    {
        let ghost before = views(self.lines@);
        self.lines.push(line);
        assert(views(self.lines@) =~= before.push(line@));
        if self.lines.len() == self.capacity {
            let mut full: Vec<String> = Vec::new();
            std::mem::swap(&mut full, &mut self.lines);
            assert(views(self.lines@) =~= Seq::<Seq<char>>::empty());
            Some(full)
        } else {
            None
        }
    }

    /// Hands back the buffered lines, to be written, and clears the batch.
    pub fn flush(&mut self) -> (r: Vec<String>)
        requires
            old(self).wf(),
        ensures
            final(self).wf(),
            final(self).capacity() == old(self).capacity(),
            views(r@) == old(self).pending(),
            final(self).pending() == Seq::<Seq<char>>::empty(),
    {
        let mut out: Vec<String> = Vec::new();
        std::mem::swap(&mut out, &mut self.lines);
        assert(views(self.lines@) =~= Seq::<Seq<char>>::empty());
        out
    }
}

} // verus!
