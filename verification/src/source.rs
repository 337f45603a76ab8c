//! The in-memory string-backed span and resolver: positions are code-point
//! offsets into one source string, and the resolver answers line queries by
//! scanning for line breaks.

use vstd::prelude::*;
use vstd::string::StrSliceExecFns;
use vstd::string::StringExecFns;
use crate::span::{line_matches, LineModel, Span, SpanResolver, SpannedLine};
use crate::text::{push_char, str_eq};
use crate::digits::push_usize;

verus! {

/// A span over a string source: a half-open range of code-point offsets,
/// together with the display name of the source it comes from.
#[derive(Clone, Copy, Debug, PartialEq, Eq)]
pub struct SourceSpan<'a> {
    /// The start offset, in code points.
    pub start: usize,
    /// The end offset, in code points.
    pub end: usize,
    /// The display name of the source, as written on origin lines.
    pub origin: &'a str,
}

impl<'a> Span for SourceSpan<'a> {
    open spec fn spec_start(self) -> int {
        self.start as int
    }

    open spec fn spec_end(self) -> int {
        self.end as int
    }

    open spec fn spec_origin(self) -> Seq<char> {
        self.origin@
    }

    fn start(&self) -> usize {
        self.start
    }

    fn end(&self) -> usize {
        self.end
    }

    fn new(&self, start: usize, end: usize) -> SourceSpan<'a> {
        SourceSpan { start, end, origin: self.origin }
    }

    fn same_origin(&self, other: &SourceSpan<'a>) -> bool {
        str_eq(self.origin, other.origin)
    }

    fn push_origin(&self, out: &mut String) {
        out.append(self.origin);
    }
}

/// A position clamped into the valid offsets of `t`.
pub open spec fn clamp_pos(t: Seq<char>, p: int) -> int {
    if p < 0 {
        0
    } else if p > t.len() {
        t.len() as int
    } else {
        p
    }
}

/// The start of the physical line containing position `p`: the position just
/// after the last line break before `p`, or zero.
pub open spec fn line_start(t: Seq<char>, p: int) -> int
    decreases p,
    when 0 <= p
{
    if p <= 0 {
        0
    } else if t[p - 1] == '\n' {
        p
    } else {
        line_start(t, p - 1)
    }
}

/// The number of characters from position `p` to the next line break or the
/// end of the text.
pub open spec fn line_len(t: Seq<char>, p: int) -> nat
    decreases t.len() - p,
    when p <= t.len()
{
    if p < 0 || p >= t.len() || t[p] == '\n' {
        0
    } else {
        1 + line_len(t, p + 1)
    }
}

/// The end of the physical line starting at or containing position `p`: the
/// position of the next line break at or after `p`, or the end of the text.
pub open spec fn line_end(t: Seq<char>, p: int) -> int {
    p + line_len(t, p)
}

/// The number of line breaks before position `p`.
pub open spec fn nl_count(t: Seq<char>, p: int) -> int
    decreases p,
    when 0 <= p
{
    if p <= 0 {
        0
    } else if t[p - 1] == '\n' {
        nl_count(t, p - 1) + 1
    } else {
        nl_count(t, p - 1)
    }
}

/// A line start is at a text boundary or just after a line break, and no
/// line break sits between it and the position it was computed from.
pub proof fn lemma_line_start_props(t: Seq<char>, p: int)
    requires
        0 <= p <= t.len(),
    ensures
        0 <= line_start(t, p) <= p,
        line_start(t, p) == 0 || t[line_start(t, p) - 1] == '\n',
        forall|i: int| line_start(t, p) <= i < p ==> t[i] != '\n',
        line_start(t, line_start(t, p)) == line_start(t, p),
    decreases p,
{
    if p > 0 && t[p - 1] != '\n' {
        lemma_line_start_props(t, p - 1);
    }
}

/// A line end is at a text boundary or on a line break, and no line break
/// sits between the position it was computed from and the line end.
pub proof fn lemma_line_end_props(t: Seq<char>, p: int)
    requires
        0 <= p <= t.len(),
    ensures
        p <= line_end(t, p) <= t.len(),
        line_end(t, p) == t.len() || t[line_end(t, p)] == '\n',
        forall|i: int| p <= i < line_end(t, p) ==> t[i] != '\n',
    decreases t.len() - p,
{
    if p < t.len() && t[p] != '\n' {
        lemma_line_end_props(t, p + 1);
    }
}

/// Line-break counting never exceeds the position counted to, and is
/// monotone.
pub proof fn lemma_nl_count_le(t: Seq<char>, p: int)
    requires
        0 <= p,
    ensures
        0 <= nl_count(t, p) <= p,
    decreases p,
{
    if p > 0 {
        lemma_nl_count_le(t, p - 1);
    }
}

/// Counting line breaks across a break-free range does not change.
pub proof fn lemma_nl_count_const(t: Seq<char>, a: int, b: int)
    requires
        0 <= a <= b,
        forall|i: int| a <= i < b ==> t[i] != '\n',
    ensures
        nl_count(t, b) == nl_count(t, a),
    decreases b - a,
{
    if a < b {
        lemma_nl_count_const(t, a, b - 1);
    }
}

/// The physical lines from line start `ls` to the end of the span: each line
/// runs to the next line break, and the following line starts one past it,
/// as long as that start still lies before `span_end`.
pub open spec fn lines_from(t: Seq<char>, ls: int, num: int, span_end: int) -> Seq<LineModel>
    decreases t.len() - ls,
    when 0 <= ls <= t.len()
{
    let le = ls + line_len(t, ls);
    let first = seq![LineModel { start: ls, end: le, num }];
    if le < t.len() && le + 1 < span_end {
        first + lines_from(t, le + 1, num + 1, span_end)
    } else {
        first
    }
}

/// The structure of a line decomposition: ordered, consecutive lines with
/// consecutive numbers, each ending at its line break, the last one being
/// exactly the one from which no further line start lies before `span_end`.
pub proof fn lemma_lines_from_props(t: Seq<char>, ls: int, num: int, span_end: int)
    requires
        0 <= ls <= t.len(),
        num == nl_count(t, ls) + 1,
    ensures
        ({
            let ll = lines_from(t, ls, num, span_end);
            &&& ll.len() >= 1
            &&& ll[0] == (LineModel { start: ls, end: line_end(t, ls), num })
            &&& forall|i: int| 0 <= i < ll.len() ==> (#[trigger] ll[i]).num == num + i
            &&& forall|i: int|
                0 <= i < ll.len() ==> (#[trigger] ll[i]).start <= ll[i].end <= t.len()
            &&& forall|i: int| 0 <= i < ll.len() ==> 0 <= (#[trigger] ll[i]).start
            &&& forall|i: int|
                1 <= i < ll.len() ==> (#[trigger] ll[i]).start == ll[i - 1].end + 1
            &&& forall|i: int|
                0 <= i < ll.len() ==> (#[trigger] ll[i]).end == line_end(t, ll[i].start)
            &&& forall|i: int|
                0 <= i < ll.len() ==> (#[trigger] ll[i]).num == nl_count(t, ll[i].start) + 1
            &&& forall|i: int| 1 <= i < ll.len() ==> (#[trigger] ll[i]).start < span_end
            &&& forall|i: int|
                0 <= i < ll.len() ==> ((i == ll.len() - 1) <==> !((#[trigger] ll[i]).end
                    < t.len() && ll[i].end + 1 < span_end))
        }),
    decreases t.len() - ls,
{
    let le = ls + line_len(t, ls);
    lemma_line_end_props(t, ls);
    if le < t.len() && le + 1 < span_end {
        assert(t[le] == '\n');
        lemma_nl_count_const(t, ls, le);
        assert(nl_count(t, le + 1) == nl_count(t, le) + 1);
        lemma_lines_from_props(t, le + 1, num + 1, span_end);
        let rest = lines_from(t, le + 1, num + 1, span_end);
        let ll = lines_from(t, ls, num, span_end);
        assert(ll == seq![LineModel { start: ls, end: le, num }] + rest);
        assert forall|i: int| 1 <= i < ll.len() implies (#[trigger] ll[i]).start == ll[i - 1].end
            + 1 by {
            if i == 1 {
                assert(ll[1] == rest[0]);
            } else {
                assert(ll[i] == rest[i - 1]);
                assert(ll[i - 1] == rest[i - 2]);
            }
        }
    }
}

impl<'a> SpanResolver<SourceSpan<'a>> for &'a str {
    open spec fn lines_model(self, span: SourceSpan<'a>) -> Seq<LineModel> {
        let t = self@;
        let ls = line_start(t, clamp_pos(t, span.spec_start()));
        lines_from(t, ls, nl_count(t, ls) + 1, span.spec_end())
    }

    open spec fn count_between(self, start: int, end: int) -> nat {
        let t = self@;
        let cs = clamp_pos(t, start);
        let ce = clamp_pos(t, end);
        if cs <= ce {
            (ce - cs) as nat
        } else {
            0
        }
    }

    open spec fn text_between(self, start: int, end: int) -> Seq<char> {
        let t = self@;
        let cs = clamp_pos(t, start);
        let ce = clamp_pos(t, end);
        if cs <= ce {
            t.subrange(cs, ce)
        } else {
            Seq::empty()
        }
    }

    open spec fn line_at(self, pos: int) -> int {
        let t = self@;
        nl_count(t, line_start(t, clamp_pos(t, pos))) + 1
    }

    open spec fn col_at(self, pos: int) -> int {
        let t = self@;
        clamp_pos(t, pos) - line_start(t, clamp_pos(t, pos)) + 1
    }

    proof fn lemma_lines_model_wf(&self, span: SourceSpan<'a>) {
        let t = self@;
        let s = clamp_pos(t, span.spec_start());
        let ls = line_start(t, s);
        lemma_line_start_props(t, s);
        lemma_nl_count_le(t, ls);
        lemma_lines_from_props(t, ls, nl_count(t, ls) + 1, span.spec_end());
    }

    proof fn lemma_count_between_mono(&self, start: int, mid: int, end: int) {
    }

    fn first_line_of(&self, span: SourceSpan<'a>) -> (r: SpannedLine<SourceSpan<'a>>) {
        let t: &str = *self;
        let n = t.unicode_len();
        let st = span.start();
        let s = if st < n {
            st
        } else {
            n
        };
        let ghost tv = t@;
        let mut ls: usize = s;
        while ls > 0 && t.get_char(ls - 1) != '\n'
            invariant
                tv == t@,
                n == tv.len(),
                0 <= ls <= s <= n,
                line_start(tv, s as int) == line_start(tv, ls as int),
            decreases ls,
        {
            ls = ls - 1;
        }
        assert(line_start(tv, s as int) == ls as int);
        let mut le: usize = ls;
        while le < n && t.get_char(le) != '\n'
            invariant
                tv == t@,
                n == tv.len(),
                ls <= le <= n,
                line_end(tv, ls as int) == line_end(tv, le as int),
            decreases n - le,
        {
            le = le + 1;
        }
        assert(line_end(tv, ls as int) == le as int);
        let mut cnt: usize = 0;
        let mut i: usize = 0;
        while i < ls
            invariant
                tv == t@,
                n == tv.len(),
                0 <= i <= ls <= n,
                cnt <= i,
                cnt as int == nl_count(tv, i as int),
            decreases ls - i,
        {
            if t.get_char(i) == '\n' {
                cnt = cnt + 1;
            }
            i = i + 1;
        }
        proof {
            lemma_lines_from_props(tv, ls as int, nl_count(tv, ls as int) + 1, span.spec_end());
        }
        SpannedLine { line_num: cnt + 1, char_count: le - ls, span: span.new(ls, le) }
    }

    fn next_line_of(&self, span: SourceSpan<'a>, previous: SpannedLine<SourceSpan<'a>>) -> (r:
        Option<SpannedLine<SourceSpan<'a>>>) {
        let t: &str = *self;
        let n = t.unicode_len();
        let ghost tv = t@;
        let ghost lines = self.lines_model(span);
        proof {
            let s = clamp_pos(tv, span.spec_start());
            lemma_line_start_props(tv, s);
            lemma_nl_count_le(tv, line_start(tv, s));
            lemma_lines_from_props(
                tv,
                line_start(tv, s),
                nl_count(tv, line_start(tv, s)) + 1,
                span.spec_end(),
            );
        }
        let pe = previous.span.end();
        if pe >= n {
            return None;
        }
        if t.get_char(pe) != '\n' {
            proof {
                assert forall|i: int|
                    0 <= i < lines.len() && line_matches(previous, #[trigger] lines[i])
                        implies i + 1 == lines.len() by {
                    lemma_line_end_props(tv, lines[i].start);
                }
            }
            return None;
        }
        let start = pe + 1;
        let se = span.end();
        if start >= se {
            return None;
        }
        let num = match previous.line_num.checked_add(1) {
            Some(v) => v,
            None => {
                proof {
                    assert forall|i: int|
                        0 <= i < lines.len() && line_matches(previous, #[trigger] lines[i])
                            implies i + 1 == lines.len() by {
                        if i + 1 < lines.len() {
                            lemma_nl_count_le(tv, lines[i + 1].start);
                        }
                    }
                }
                return None;
            },
        };
        let mut le: usize = start;
        while le < n && t.get_char(le) != '\n'
            invariant
                tv == t@,
                n == tv.len(),
                start <= le <= n,
                line_end(tv, start as int) == line_end(tv, le as int),
            decreases n - le,
        {
            le = le + 1;
        }
        assert(line_end(tv, start as int) == le as int);
        let r = Some(SpannedLine { line_num: num, char_count: le - start, span: span.new(start, le) });
        proof {
            assert forall|i: int|
                0 <= i < lines.len() && line_matches(previous, #[trigger] lines[i])
                    implies i + 1 < lines.len() && line_matches(r->0, lines[i + 1])
                    && r->0.char_count as nat == self.count_between(
                    lines[i + 1].start,
                    lines[i + 1].end,
                ) by {
                assert(lines[i].end == pe as int);
                assert(!(i == lines.len() - 1));
                assert(lines[i + 1].start == start as int);
                assert(lines[i + 1].end == le as int);
                assert(lines[i + 1].num == lines[i].num + 1);
            }
        }
        r
    }

    fn count_chars(&self, span: SourceSpan<'a>) -> (r: usize) {
        let t: &str = *self;
        let n = t.unicode_len();
        let st = span.start();
        let en = span.end();
        let cs = if st < n {
            st
        } else {
            n
        };
        let ce = if en < n {
            en
        } else {
            n
        };
        if cs <= ce {
            ce - cs
        } else {
            0
        }
    }

    fn write_span(&self, out: &mut String, span: SourceSpan<'a>) {
        let t: &str = *self;
        let n = t.unicode_len();
        let st = span.start();
        let en = span.end();
        let cs = if st < n {
            st
        } else {
            n
        };
        let ce = if en < n {
            en
        } else {
            n
        };
        if cs <= ce {
            let piece = t.substring_char(cs, ce);
            out.append(piece);
        } else {
            assert(out@ =~= old(out)@ + self.text_between(span.spec_start(), span.spec_end()));
        }
    }

    fn write_origin(&self, out: &mut String, span: SourceSpan<'a>) {
        let t: &str = *self;
        let n = t.unicode_len();
        let st = span.start();
        let s = if st < n {
            st
        } else {
            n
        };
        let ghost tv = t@;
        let mut ls: usize = s;
        while ls > 0 && t.get_char(ls - 1) != '\n'
            invariant
                tv == t@,
                n == tv.len(),
                0 <= ls <= s <= n,
                line_start(tv, s as int) == line_start(tv, ls as int),
            decreases ls,
        {
            ls = ls - 1;
        }
        assert(line_start(tv, s as int) == ls as int);
        let mut cnt: usize = 0;
        let mut i: usize = 0;
        while i < ls
            invariant
                tv == t@,
                n == tv.len(),
                0 <= i <= ls <= n,
                cnt <= i,
                cnt as int == nl_count(tv, i as int),
            decreases ls - i,
        {
            if t.get_char(i) == '\n' {
                cnt = cnt + 1;
            }
            i = i + 1;
        }
        let line = cnt + 1;
        let col = s - ls + 1;
        span.push_origin(out);
        push_char(out, ':');
        push_usize(out, line);
        push_char(out, ':');
        push_usize(out, col);
        proof {
            assert(out@ =~= old(out)@ + span.spec_origin() + seq![':'] + crate::digits::dec_chars(
                self.line_at(span.spec_start()),
            ) + seq![':'] + crate::digits::dec_chars(self.col_at(span.spec_start())));
        }
    }
}

/// An iterator over the physical lines that a span covers, yielding each
/// line's one-based number and its sub-span, in order.  Backed by the same
/// line decomposition as the resolver's own line queries.
pub struct SubSpanIterator<'a> {
    /// The source text the lines come from.
    pub text: &'a str,
    /// The span whose lines are walked.
    pub span: SourceSpan<'a>,
    /// The line to be yielded next, if any line remains.
    pub cur: Option<SpannedLine<SourceSpan<'a>>>,
    /// The index of the line to be yielded next.
    pub index: Ghost<int>,
}

impl<'a> SubSpanIterator<'a> {
    /// The iterator points at a line of the span's decomposition, or one
    /// past the last.
    pub open spec fn wf(self) -> bool {
        let lines = self.text.lines_model(self.span);
        &&& 0 <= self.index@ <= lines.len()
        &&& (self.cur is Some <==> self.index@ < lines.len())
        &&& (self.cur is Some ==> line_matches(self.cur->0, lines[self.index@])
            && self.cur->0.span.spec_origin() == self.span.spec_origin())
    }

    /// An iterator over the lines of `span` within `text`, starting at the
    /// line containing the span's start position.
    pub fn new(text: &'a str, span: SourceSpan<'a>) -> (r: SubSpanIterator<'a>)
        requires
            span.spec_start() < usize::MAX,
        ensures
            r.wf(),
            r.index@ == 0,
            r.text == text,
            r.span == span,
    {
        proof {
            text.lemma_lines_model_wf(span);
        }
        let cur = Some(text.first_line_of(span));
        SubSpanIterator { text, span, cur, index: Ghost(0) }
    }

    /// The next line of the span, or nothing once the lines are exhausted.
    pub fn next(&mut self) -> (r: Option<(usize, SourceSpan<'a>)>)
        requires
            old(self).wf(),
        ensures
            final(self).wf(),
            final(self).text == old(self).text,
            final(self).span == old(self).span,
            ({
                let lines = old(self).text.lines_model(old(self).span);
                if old(self).index@ < lines.len() {
                    &&& match r {
                        Some((num, sp)) => {
                            &&& num as int == lines[old(self).index@].num
                            &&& sp.spec_start() == lines[old(self).index@].start
                            &&& sp.spec_end() == lines[old(self).index@].end
                            &&& sp.spec_origin() == old(self).span.spec_origin()
                        },
                        None => false,
                    }
                    &&& final(self).index@ == old(self).index@ + 1
                } else {
                    &&& r is None
                    &&& final(self).index@ == old(self).index@
                }
            }),
    {
        match self.cur {
            Some(line) => {
                self.cur = self.text.next_line_of(self.span, line);
                proof {
                    self.index@ = self.index@ + 1;
                }
                Some((line.line_num, line.span))
            },
            None => None,
        }
    }
}

} // verus!
