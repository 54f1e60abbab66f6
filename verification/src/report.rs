//! Styled text that the library produces for a terminal to show: lines made
//! of segments, each with one style.

use vstd::prelude::*;

verus! {

/// How a segment of text is shown.
#[derive(Clone, Copy, Debug, PartialEq, Eq, Structural)]
pub enum Style {
    Plain,
    Bold,
    Dimmed,
    Green,
    Red,
    RedBold,
    Cyan,
}

/// A piece of text in one style.
#[derive(Clone, Debug, PartialEq)]
pub struct Segment {
    pub text: String,
    pub style: Style,
}

impl View for Segment {
    type V = (Seq<char>, Style);

    open spec fn view(&self) -> (Seq<char>, Style) {
        (self.text@, self.style)
    }
}

/// A line of output.
#[derive(Clone, Debug, PartialEq)]
pub struct Line {
    pub segments: Vec<Segment>,
}

impl View for Line {
    type V = Seq<(Seq<char>, Style)>;

    open spec fn view(&self) -> Seq<(Seq<char>, Style)> {
        self.segments@.map_values(|s: Segment| s@)
    }
}

/// The views of the lines `v`.
pub open spec fn lines_view(v: Seq<Line>) -> Seq<Seq<(Seq<char>, Style)>> {
    v.map_values(|l: Line| l@)
}

/// The text of the segments `segs`, without their styles.
pub open spec fn plain(segs: Seq<(Seq<char>, Style)>) -> Seq<char>
    decreases segs.len(),
{
    if segs.len() == 0 {
        Seq::<char>::empty()
    } else {
        plain(segs.drop_last()) + segs.last().0
    }
}

/// A segment holding `text` in `style`.
pub fn segment(text: String, style: Style) -> (s: Segment)
    ensures
        s@ == (text@, style),
{
    Segment { text, style }
}

impl Line {
    /// An empty line.
    pub fn new() -> (l: Line)
        ensures
            l@.len() == 0,
    {
        Line { segments: Vec::new() }
    }

    /// Appends a segment.
    pub fn push(&mut self, text: String, style: Style)
        ensures
            final(self)@ == old(self)@.push((text@, style)),
    {
        self.segments.push(Segment { text, style });
        proof {
            assert(final(self)@ =~= old(self)@.push((text@, style)));
        }
    }

    /// Appends the segments of `other`.
    pub fn append(&mut self, other: Line)
        ensures
            final(self)@ == old(self)@ + other@,
    {
        let mut rest = other.segments;
        let ghost tail = rest@;
        self.segments.append(&mut rest);
        proof {
            assert(final(self)@ =~= old(self)@ + tail.map_values(|s: Segment| s@));
        }
    }

    /// The text of the line without its styles.
    pub fn plain_text(&self) -> (s: String)
        ensures
            s@ == plain(self@),
    {
        let mut s = String::new();
        let mut i: usize = 0;
        while i < self.segments.len()
            invariant
                i <= self.segments@.len(),
                s@ == plain(self@.subrange(0, i as int)),
            decreases self.segments@.len() - i,
        {
            proof {
                assert(self@.subrange(0, i + 1).drop_last() =~= self@.subrange(0, i as int));
            }
            s.append(self.segments[i].text.as_str());
            i = i + 1;
        }
        proof {
            assert(self@.subrange(0, i as int) =~= self@);
        }
        s
    }
}

} // verus!
