//! A report under construction: text, interleaved with numeric detail
//! lines that the caller renders.
use vstd::prelude::*;

use crate::sub_logic::resolver::{vseq, StatLine, StatLineView};

verus! {

/// A piece of a report: literal text, or numeric detail lines that are
/// rendered and joined with `", "` where they stand.
pub enum Segment {
    Text(String),
    Stats(Vec<StatLine>),
}

/// A report read character by character (each by its code point), a group
/// of detail lines counting as one piece.
pub enum Piece {
    Ch(u32),
    Stats(Seq<StatLineView>),
}

pub open spec fn text(s: Seq<char>) -> Seq<Piece>
    decreases s.len(),
{
    if s.len() == 0 {
        Seq::empty()
    } else {
        text(s.drop_last()).push(Piece::Ch(s.last() as u32))
    }
}

pub open spec fn segment_pieces(s: Segment) -> Seq<Piece> {
    match s {
        Segment::Text(t) => text(t@),
        Segment::Stats(v) => seq![Piece::Stats(vseq(v@))],
    }
}

pub open spec fn pieces(segs: Seq<Segment>) -> Seq<Piece>
    decreases segs.len(),
{
    if segs.len() == 0 {
        Seq::empty()
    } else {
        pieces(segs.drop_last()) + segment_pieces(segs.last())
    }
}

/// The pieces of joined text are the pieces of its parts, joined.
pub proof fn lemma_text_concat(a: Seq<char>, b: Seq<char>)
    ensures
        text(a + b) == text(a) + text(b),
    decreases b.len(),
{
    if b.len() == 0 {
        assert(a + b =~= a);
        assert(text(b) =~= Seq::<Piece>::empty());
        assert(text(a) + text(b) =~= text(a));
    } else {
        lemma_text_concat(a, b.drop_last());
        assert((a + b).drop_last() =~= a + b.drop_last());
        assert((a + b).last() == b.last());
        let z = Piece::Ch(b.last() as u32);
        assert(text(a + b) == text(a + b.drop_last()).push(z));
        assert(text(b) == text(b.drop_last()).push(z));
        assert((text(a) + text(b.drop_last())).push(z) =~= text(a) + text(b.drop_last()).push(z));
    }
}

/// A report: a sequence of segments.
pub struct Report {
    pub segments: Vec<Segment>,
}

impl View for Report {
    type V = Seq<Piece>;

    open spec fn view(&self) -> Seq<Piece> {
        pieces(self.segments@)
    }
}

impl Report {
    /// An empty report.
    pub fn new() -> (r: Report)
        ensures
            r@ == Seq::<Piece>::empty(),
    {
        Report { segments: Vec::new() }
    }

    /// Appends text.
    pub fn push_string(&mut self, s: String)
        ensures
            final(self)@ == old(self)@ + text(s@),
    {
        let ghost old_segs = self.segments@;
        self.segments.push(Segment::Text(s));
        proof {
            assert(self.segments@.drop_last() =~= old_segs);
        }
    }

    /// Appends text.
    pub fn push_str(&mut self, s: &str)
        ensures
            final(self)@ == old(self)@ + text(s@),
    {
        self.push_string(s.to_owned());
    }

    /// Appends a group of detail lines.
    pub fn push_stats(&mut self, lines: Vec<StatLine>)
        ensures
            final(self)@ == old(self)@.push(Piece::Stats(vseq(lines@))),
    {
        let ghost old_segs = self.segments@;
        self.segments.push(Segment::Stats(lines));
        proof {
            assert(self.segments@.drop_last() =~= old_segs);
            assert(old(self)@ + seq![Piece::Stats(vseq(lines@))] =~= old(self)@.push(
                Piece::Stats(vseq(lines@)),
            ));
        }
    }

    /// Appends another report.
    pub fn append(&mut self, other: Report)
        ensures
            final(self)@ == old(self)@ + other@,
    {
        let ghost a = self.segments@;
        let ghost b = other.segments@;
        let mut rest = other.segments;
        self.segments.append(&mut rest);
        proof {
            lemma_pieces_concat(a, b);
        }
    }
}

/// The pieces of joined segments are the pieces of each part, joined.
pub proof fn lemma_pieces_concat(a: Seq<Segment>, b: Seq<Segment>)
    ensures
        pieces(a + b) == pieces(a) + pieces(b),
    decreases b.len(),
{
    if b.len() == 0 {
        assert(a + b =~= a);
        assert(pieces(a) + pieces(b) =~= pieces(a));
    } else {
        lemma_pieces_concat(a, b.drop_last());
        assert((a + b).drop_last() =~= a + b.drop_last());
        assert((a + b).last() == b.last());
        assert(pieces(a + b) =~= pieces(a) + pieces(b));
    }
}

} // verus!
