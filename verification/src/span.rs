//! The span and span-resolver capabilities: an abstract range in some source
//! text, and the interface that answers line-decomposition and text
//! extraction queries against the actual source buffer.

use vstd::prelude::*;
use crate::digits::dec_chars;

verus! {

/// A span of source text to be annotated: an abstract half-open range of
/// positions plus a provenance handle.  Positions are code-point offsets (or
/// any other totally ordered measure a resolver agrees on); the provenance is
/// exposed only as displayable text.  Copying is expected to be cheap.
pub trait Span: Sized + Copy {
    /// The start position of the span.
    spec fn spec_start(self) -> int;

    /// The end position of the span.
    spec fn spec_end(self) -> int;

    /// The provenance of the span, as displayable text.
    spec fn spec_origin(self) -> Seq<char>;

    /// The start position of the span.
    fn start(&self) -> (r: usize)
        ensures
            r as int == self.spec_start(),
    ;

    /// The end position of the span.
    fn end(&self) -> (r: usize)
        ensures
            r as int == self.spec_end(),
    ;

    /// A sub-span with the given positions and this span's origin.
    fn new(&self, start: usize, end: usize) -> (r: Self)
        ensures
            r.spec_start() == start as int,
            r.spec_end() == end as int,
            r.spec_origin() == self.spec_origin(),
    ;

    /// Whether this span and `other` come from the same source.
    fn same_origin(&self, other: &Self) -> (r: bool)
        ensures
            r == (self.spec_origin() == other.spec_origin()),
    ;

    /// Appends the origin's display text to `out`.
    fn push_origin(&self, out: &mut String)
        ensures
            final(out)@ == old(out)@ + self.spec_origin(),
    ;
}

/// The mathematical content of one physical source line: its half-open range
/// of positions and its one-based line number.
pub ghost struct LineModel {
    pub start: int,
    pub end: int,
    pub num: int,
}

/// A reference to one physical line within a span, as produced by a
/// [`SpanResolver`].  The line's span is trimmed at line boundaries and never
/// includes the terminating newline.
#[derive(Clone, Copy, Debug, PartialEq, Eq)]
pub struct SpannedLine<Sp> {
    /// The line number, one-based.
    pub line_num: usize,
    /// The number of code points on the line.
    pub char_count: usize,
    /// The span of the line's text, without the terminating newline.
    pub span: Sp,
}

/// Whether an executable [`SpannedLine`] denotes the given line model.
pub open spec fn line_matches<Sp: Span>(sl: SpannedLine<Sp>, lm: LineModel) -> bool {
    &&& sl.line_num as int == lm.num
    &&& sl.span.spec_start() == lm.start
    &&& sl.span.spec_end() == lm.end
}

/// The capability that resolves spans against one source buffer: it
/// decomposes a span into physical lines, counts code points, and extracts
/// literal text.  The specification side is the buffer's mathematical
/// content: a line decomposition per span, a code-point count and a text
/// extract per position range, and a line/column pair per position.
pub trait SpanResolver<Sp: Span>: Sized {
    /// The decomposition of `span` into the physical lines it covers: the
    /// line containing its start position, then every following line whose
    /// start position lies before the span's end.  Never empty.
    spec fn lines_model(self, span: Sp) -> Seq<LineModel>;

    /// The number of code points between two positions, zero if the range is
    /// empty or out of bounds.
    spec fn count_between(self, start: int, end: int) -> nat;

    /// The literal text between two positions.
    spec fn text_between(self, start: int, end: int) -> Seq<char>;

    /// The one-based line number of the line containing `pos`.
    spec fn line_at(self, pos: int) -> int;

    /// The one-based code-point column of `pos` within its line.
    spec fn col_at(self, pos: int) -> int;

    /// The line decomposition of any span is well formed: at least one line;
    /// every line's range is ordered; the lines are consecutive, both in
    /// their positions (each line starts one past the previous line's end,
    /// the separating newline) and in their one-based line numbers.
    proof fn lemma_lines_model_wf(&self, span: Sp)
        ensures
            self.lines_model(span).len() > 0,
            forall|i: int|
                0 <= i < self.lines_model(span).len() ==> (#[trigger] self.lines_model(
                    span,
                )[i]).start <= self.lines_model(span)[i].end,
            forall|i: int|
                0 <= i < self.lines_model(span).len() ==> (#[trigger] self.lines_model(
                    span,
                )[i]).num == self.lines_model(span)[0].num + i,
            forall|i: int|
                1 <= i < self.lines_model(span).len() ==> (#[trigger] self.lines_model(
                    span,
                )[i]).start == self.lines_model(span)[i - 1].end + 1,
            self.lines_model(span)[0].num >= 1,
            self.lines_model(span)[0].start <= span.spec_start(),
    ;

    /// Counting code points is monotone in the end position.
    proof fn lemma_count_between_mono(&self, start: int, mid: int, end: int)
        requires
            mid <= end,
        ensures
            self.count_between(start, mid) <= self.count_between(start, end),
    ;

    /// The physical line containing `span`'s start position, trimmed at line
    /// boundaries; defined even for an empty span.
    fn first_line_of(&self, span: Sp) -> (r: SpannedLine<Sp>)
        requires
            span.spec_start() < usize::MAX,
        ensures
            ({
                let lines = self.lines_model(span);
                &&& line_matches(r, lines[0])
                &&& r.span.spec_origin() == span.spec_origin()
                &&& r.char_count as nat == self.count_between(lines[0].start, lines[0].end)
            }),
    ;

    /// The physical line after `previous` within `span`, or nothing once the
    /// next line's start would fall at or beyond the span's end.
    fn next_line_of(&self, span: Sp, previous: SpannedLine<Sp>) -> (r: Option<SpannedLine<Sp>>)
        ensures
            ({
                let lines = self.lines_model(span);
                forall|i: int|
                    0 <= i < lines.len() && line_matches(previous, #[trigger] lines[i])
                        ==> if i + 1 < lines.len() {
                        &&& r is Some
                        &&& line_matches(r->0, lines[i + 1])
                        &&& r->0.span.spec_origin() == span.spec_origin()
                        &&& r->0.char_count as nat == self.count_between(
                            lines[i + 1].start,
                            lines[i + 1].end,
                        )
                    } else {
                        r is None
                    }
            }),
    ;

    /// The number of code points in `span`.
    fn count_chars(&self, span: Sp) -> (r: usize)
        ensures
            r as nat == self.count_between(span.spec_start(), span.spec_end()),
    ;

    /// Appends the literal text of `span` to `out`, verbatim.
    fn write_span(&self, out: &mut String, span: Sp)
        ensures
            final(out)@ == old(out)@ + self.text_between(span.spec_start(), span.spec_end()),
    ;

    /// Appends `<origin>:<line>:<column>` for `span`'s start position to
    /// `out`, line and column one-based, the column counted in code points
    /// from the last line break before the position.
    fn write_origin(&self, out: &mut String, span: Sp)
        requires
            span.spec_start() < usize::MAX,
        ensures
            final(out)@ == old(out)@ + span.spec_origin() + seq![':'] + dec_chars(
                self.line_at(span.spec_start()),
            ) + seq![':'] + dec_chars(self.col_at(span.spec_start())),
    ;
}

} // verus!
