//! The classifier's laws: properties of the rendering model that hold for
//! every input, stated and proved once, for every resolver and stylesheet.

use vstd::prelude::*;
use crate::diagnostic::{AnnModel, Diagnostic};
use crate::digits::{dec_chars, lemma_dec_chars_len, lemma_log10_positive, spec_log10};
use crate::mark::Mark;
use crate::render::{
    all_secondary_valid, ann_lines, ann_marks, ann_models, body_model, classify, line_kept,
    ann_text_model, line_marks, line_resolved, mark_of, max_line_num, pending_after, resolver_cc, resolves,
    seeded_pending, source_line_model, underline_end, underline_start, Class, RenderLineModel,
};
use crate::span::{LineModel, Span, SpanResolver};

verus! {

/// **Containment**: an annotation that starts exactly at a line's start and
/// ends exactly at its end is classified Contained — never Starts, Through
/// or Ends — regardless of zero length.
pub proof fn lemma_containment(l: LineModel, a: AnnModel)
    requires
        a.start == l.start,
        a.end == l.end,
    ensures
        classify(l, a) == Class::Contained,
{
}

/// **Underline bounds**: for any annotation that a line places (classified
/// Contained or Ends there), the underline columns are ordered and end
/// within the line: `0 <= start <= end <= count_chars(line)`.
pub proof fn lemma_underline_bounds<Sp: Span, R: SpanResolver<Sp>>(
    resolver: &R,
    l: LineModel,
    a: AnnModel,
)
    requires
        a.start <= a.end,
        resolves(l, a),
    ensures
        ({
            let cc = resolver_cc::<Sp, R>(*resolver);
            &&& underline_start(cc, l, a) <= underline_end(cc, l, a)
            &&& underline_end(cc, l, a) <= resolver.count_between(l.start, l.end)
        }),
{
    resolver.lemma_count_between_mono(l.start, a.start, a.end);
    resolver.lemma_count_between_mono(l.start, a.end, l.end);
    assert(cc_apply(resolver, l.start, a.start) == resolver.count_between(l.start, a.start));
    assert(cc_apply(resolver, l.start, a.end) == resolver.count_between(l.start, a.end));
}

/// The counting function of `resolver`, applied: a helper that names one
/// application of the spec closure the classifier model carries.
pub open spec fn cc_apply<Sp: Span, R: SpanResolver<Sp>>(resolver: &R, s: int, e: int) -> nat {
    resolver_cc::<Sp, R>(*resolver)(s, e)
}

/// A line keeps none of the annotations that end at or before its end.
proof fn lemma_line_ends_all(l: LineModel, p: Seq<AnnModel>)
    requires
        forall|i: int| 0 <= i < p.len() ==> (#[trigger] p[i]).end <= l.end,
    ensures
        line_kept(l, p).len() == 0,
    decreases p.len(),
{
    if p.len() > 0 {
        assert(p[0].end <= l.end);
        assert(resolves(l, p[0]));
        assert(forall|i: int|
            0 <= i < p.drop_first().len() ==> (#[trigger] p.drop_first()[i]).end <= l.end);
        lemma_line_ends_all(l, p.drop_first());
    }
}

/// Every annotation a line keeps was among those handed to it.
proof fn lemma_line_kept_subset(l: LineModel, p: Seq<AnnModel>, i: int)
    requires
        0 <= i < line_kept(l, p).len(),
    ensures
        exists|h: int| 0 <= h < p.len() && p[h] == line_kept(l, p)[i],
    decreases p.len(),
{
    if p.len() > 0 {
        if resolves(l, p[0]) {
            lemma_line_kept_subset(l, p.drop_first(), i);
            let h = choose|h: int|
                0 <= h < p.drop_first().len() && p.drop_first()[h] == line_kept(l, p)[i];
            assert(p[h + 1] == line_kept(l, p)[i]);
        } else {
            if i == 0 {
                assert(p[0] == line_kept(l, p)[0]);
            } else {
                lemma_line_kept_subset(l, p.drop_first(), i - 1);
                let h = choose|h: int|
                    0 <= h < p.drop_first().len() && p.drop_first()[h] == line_kept(l, p)[i - 1
                    + 1];
                assert(p[h + 1] == line_kept(l, p)[i]);
            }
        }
    }
}

/// If every pending annotation ends at or before the end of the last line,
/// the walk places all of them.
proof fn lemma_all_placed(lines: Seq<LineModel>, p: Seq<AnnModel>)
    requires
        lines.len() >= 1,
        forall|i: int| 0 <= i < p.len() ==> (#[trigger] p[i]).end <= lines.last().end,
    ensures
        pending_after(lines, p).len() == 0,
    decreases lines.len(),
{
    if lines.len() == 1 {
        lemma_line_ends_all(lines[0], p);
        assert(pending_after(lines, p) == pending_after(
            lines.drop_first(),
            line_kept(lines[0], p),
        ));
        assert(lines.drop_first().len() == 0);
    } else {
        let kept = line_kept(lines[0], p);
        assert forall|i: int|
            0 <= i < kept.len() implies (#[trigger] kept[i]).end
            <= lines.drop_first().last().end by {
            lemma_line_kept_subset(lines[0], p, i);
            assert(lines.drop_first().last() == lines.last());
        }
        lemma_all_placed(lines.drop_first(), kept);
    }
}

/// The end of any line lies at or before the end of the last line, for any
/// ordered, consecutive line decomposition.
proof fn lemma_end_le_last(lines: Seq<LineModel>, i: int)
    requires
        0 <= i < lines.len(),
        forall|h: int| 0 <= h < lines.len() ==> (#[trigger] lines[h]).start <= lines[h].end,
        forall|h: int| 1 <= h < lines.len() ==> (#[trigger] lines[h]).start == lines[h - 1].end + 1,
    ensures
        lines[i].end <= lines.last().end,
    decreases lines.len() - i,
{
    if i < lines.len() - 1 {
        assert(lines[i + 1].start == lines[i].end + 1);
        lemma_end_le_last(lines, i + 1);
    }
}

/// **Success**: for any diagnostic whose secondary annotations are all
/// nested in and co-located with the primary span, and all end at or before
/// the end of the last physical line the resolver yields for it, the
/// classifier places every annotation it walks with — the secondary
/// annotations, and the primary itself when it is contained in a single
/// line — so rendering succeeds.  Together with the contract of
/// [`crate::writer::render`] — whose output is a function of the
/// diagnostic, the resolver model and the stylesheet alone — identical
/// inputs produce identical output.
///
/// The line-end condition excludes spans that end inside a trailing line
/// break past the last rendered line, which the walk cannot place and
/// reports as an internal-consistency error.
pub proof fn lemma_render_success<Sp: Span, R: SpanResolver<Sp>>(resolver: &R, d: Diagnostic<Sp>)
    requires
        all_secondary_valid(d),
        forall|i: int|
            0 <= i < d.secondary@.len() ==> (#[trigger] d.secondary@[i]).span.spec_end()
                <= resolver.lines_model(d.primary.span).last().end,
    ensures
        pending_after(
            resolver.lines_model(d.primary.span),
            seeded_pending::<Sp, R>(*resolver, d),
        ).len() == 0,
{
    let lines = resolver.lines_model(d.primary.span);
    let sm = ann_models(d.secondary@);
    let seed = seeded_pending::<Sp, R>(*resolver, d);
    resolver.lemma_lines_model_wf(d.primary.span);
    lemma_end_le_last(lines, 0);
    assert forall|i: int|
        0 <= i < seed.len() implies (#[trigger] seed[i]).end <= lines.last().end by {
        if classify(lines[0], d.primary.model()) == Class::Contained {
            if i == 0 {
                assert(seed[0] == d.primary.model());
            } else {
                assert(seed[i] == sm[i - 1]);
                assert(sm[i - 1] == d.secondary@[i - 1].model());
            }
        } else {
            assert(seed[i] == sm[i]);
            assert(sm[i] == d.secondary@[i].model());
        }
    }
    lemma_all_placed(lines, seed);
}

/// **Single-line primary**: with no secondary annotations and the primary
/// span contained in the one line the resolver yields for it, the
/// classifier body is exactly one source line with an empty gutter followed
/// by the primary's message line: the primary contributes no gutter mark,
/// and its underline runs from its start column to its end column —
/// `(0, count_chars(primary.span))` when the primary covers the line
/// exactly.
pub proof fn lemma_single_line_primary(
    cc: spec_fn(int, int) -> nat,
    lines: Seq<LineModel>,
    pm: AnnModel,
)
    requires
        lines.len() == 1,
        classify(lines[0], pm) == Class::Contained,
    ensures
        body_model(cc, lines, seq![pm]) =~= seq![
            source_line_model(lines[0], seq![pm]),
            ann_text_model(cc, lines[0], pm),
        ],
        line_marks(lines[0], seq![pm]).len() == 0,
        ann_marks(lines[0], pm).len() == 0,
        pm.start == lines[0].start ==> underline_start(cc, lines[0], pm) == 0,
        pm.end == lines[0].end ==> underline_end(cc, lines[0], pm) == cc(
            lines[0].start,
            lines[0].end,
        ),
{
    let l = lines[0];
    let p = seq![pm];
    assert(resolves(l, pm));
    assert(p.drop_first() =~= Seq::<AnnModel>::empty());
    assert(line_resolved(l, Seq::<AnnModel>::empty()) =~= Seq::<AnnModel>::empty());
    assert(line_kept(l, Seq::<AnnModel>::empty()) =~= Seq::<AnnModel>::empty());
    assert(line_marks(l, Seq::<AnnModel>::empty()) =~= Seq::<Mark>::empty());
    assert(line_resolved(l, p) =~= seq![pm]);
    assert(line_kept(l, p) =~= Seq::<AnnModel>::empty());
    assert(line_marks(l, p) =~= Seq::<Mark>::empty());
    assert(ann_lines(cc, l, seq![pm]) =~= seq![ann_text_model(cc, l, pm)]);
    assert(lines.drop_first().len() == 0);
    assert(body_model(cc, lines.drop_first(), line_kept(l, p))
        =~= Seq::<RenderLineModel>::empty());
    assert(body_model(cc, lines, p) =~= seq![
        source_line_model(l, p),
        ann_text_model(cc, l, pm),
    ]);
}

/// **Line-number width**: whenever the render line list holds a numbered
/// source line, the width computed for the line-number column is exactly
/// the decimal digit count of the largest emitted line number.
pub proof fn lemma_line_num_width(ms: Seq<RenderLineModel>)
    requires
        max_line_num(ms) >= 1,
    ensures
        ({
            let w = if spec_log10(max_line_num(ms)) >= 1 {
                spec_log10(max_line_num(ms))
            } else {
                1
            };
            w == dec_chars(max_line_num(ms)).len()
        }),
{
    lemma_log10_positive(max_line_num(ms));
    lemma_dec_chars_len(max_line_num(ms));
}

/// Whether annotation `a` is still pending when line `i` is reached: no
/// earlier line placed it.
pub open spec fn pending_at(lines: Seq<LineModel>, a: AnnModel, i: int) -> bool {
    forall|h: int| 0 <= h < i ==> !resolves(#[trigger] lines[h], a)
}

/// Whether annotation `a` occupies a gutter column on line `i`: it is still
/// pending there and contributes a start or continuation bar.
pub open spec fn marks_on(lines: Seq<LineModel>, a: AnnModel, i: int) -> bool {
    pending_at(lines, a, i) && mark_of(lines[i], a).len() == 1
}

/// An annotation that encloses another marks every line the enclosed one
/// marks: it is still pending there, and it contributes a bar of its own.
pub proof fn lemma_enclosing_marks(lines: Seq<LineModel>, a: AnnModel, b: AnnModel, i: int)
    requires
        0 <= i < lines.len(),
        b.start <= a.start,
        a.end <= b.end,
        marks_on(lines, a, i),
    ensures
        marks_on(lines, b, i),
{
    assert forall|h: int| 0 <= h < i implies !resolves(#[trigger] lines[h], b) by {
        assert(!resolves(lines[h], a));
        assert(a.end > lines[h].end);
    }
    assert(mark_of(lines[i], b).len() == 1);
}

/// The number of annotations after index `k` that mark line `i`.
pub open spec fn marks_after(lines: Seq<LineModel>, anns: Seq<AnnModel>, k: int, i: int) -> int
    decreases anns.len() - k,
    when 0 <= k
{
    if k >= anns.len() {
        0
    } else {
        (if marks_on(lines, anns[k], i) {
            1int
        } else {
            0int
        }) + marks_after(lines, anns, k + 1, i)
    }
}

/// When every annotation past `k` marks line `i`, the count is full.
proof fn lemma_marks_after_full(lines: Seq<LineModel>, anns: Seq<AnnModel>, k: int, i: int)
    requires
        0 <= k <= anns.len(),
        forall|j: int| k <= j < anns.len() ==> marks_on(lines, #[trigger] anns[j], i),
    ensures
        marks_after(lines, anns, k, i) == anns.len() - k,
    decreases anns.len() - k,
{
    if k < anns.len() {
        lemma_marks_after_full(lines, anns, k + 1, i);
    }
}

/// **Column stability**: when the secondary annotations are ordered
/// innermost first — every later annotation's span encloses every earlier
/// one's — an annotation's gutter column, once assigned, is identical on
/// every render line from its start line through its end line.  The gutter
/// is right-aligned by the normalization pass, and on every line that
/// annotation `k` marks, the bars to its right are exactly the annotations
/// after it in the order: their count is the same on every such line, so
/// the annotation's column never moves.
pub proof fn lemma_column_stability(
    lines: Seq<LineModel>,
    anns: Seq<AnnModel>,
    k: int,
    i1: int,
    i2: int,
)
    requires
        forall|x: int, y: int|
            0 <= x < y < anns.len() ==> ((#[trigger] anns[y]).start <= (#[trigger] anns[x]).start
                && anns[x].end <= anns[y].end),
        0 <= k < anns.len(),
        0 <= i1 < lines.len(),
        0 <= i2 < lines.len(),
        marks_on(lines, anns[k], i1),
        marks_on(lines, anns[k], i2),
    ensures
        marks_after(lines, anns, k + 1, i1) == marks_after(lines, anns, k + 1, i2),
        marks_after(lines, anns, k + 1, i1) == anns.len() - 1 - k,
{
    assert forall|j: int| k + 1 <= j < anns.len() implies marks_on(
        lines,
        #[trigger] anns[j],
        i1,
    ) by {
        lemma_enclosing_marks(lines, anns[k], anns[j], i1);
    }
    assert forall|j: int| k + 1 <= j < anns.len() implies marks_on(
        lines,
        #[trigger] anns[j],
        i2,
    ) by {
        lemma_enclosing_marks(lines, anns[k], anns[j], i2);
    }
    lemma_marks_after_full(lines, anns, k + 1, i1);
    lemma_marks_after_full(lines, anns, k + 1, i2);
}

} // verus!
