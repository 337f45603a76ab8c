//! The line classifier: the core algorithm that turns a diagnostic and a
//! span resolver into an ordered list of abstract render lines with exact
//! column and underline metrics, followed by the gutter and line-number
//! width normalization pass.

use vstd::prelude::*;
use crate::diagnostic::{AnnModel, Annotation, Diagnostic, Level};
use crate::mark::Mark;
use crate::span::{line_matches, LineModel, Span, SpanResolver, SpannedLine};

verus! {

/// How one annotation relates to one physical line.  The order of the cases
/// is a precedence: the first matching case decides, which resolves the
/// degenerate and boundary cases deterministically.
pub ghost enum Class {
    /// The annotation lies entirely within the line.
    Contained,
    /// The annotation begins on the line and ends on a later one.
    Starts,
    /// The annotation passes fully through the line.
    Through,
    /// The annotation began on an earlier line and ends on this one.
    Ends,
    /// The annotation begins on a later line.
    NotYet,
}

/// The classification of annotation `a` against line `l`, by the precedence
/// order Contained, Starts, Through, Ends, NotYet.
pub open spec fn classify(l: LineModel, a: AnnModel) -> Class {
    if l.start <= a.start && a.end <= l.end {
        Class::Contained
    } else if l.start <= a.start && a.start <= l.end {
        Class::Starts
    } else if a.start < l.start && l.end < a.end {
        Class::Through
    } else if a.start < l.start && a.end <= l.end {
        Class::Ends
    } else {
        Class::NotYet
    }
}

/// Whether line `l` fully places annotation `a`, so that its message line is
/// emitted under `l` and it leaves the pending list.
pub open spec fn resolves(l: LineModel, a: AnnModel) -> bool {
    classify(l, a) == Class::Contained || classify(l, a) == Class::Ends
}

/// The gutter mark annotation `a` contributes on line `l` itself: a start
/// bar, a continuation bar, or nothing.
pub open spec fn mark_of(l: LineModel, a: AnnModel) -> Seq<Mark> {
    match classify(l, a) {
        Class::Starts => seq![Mark::Start],
        Class::Through => seq![Mark::Continue],
        Class::Ends => seq![Mark::Continue],
        _ => Seq::empty(),
    }
}

/// The gutter marks of line `l`, one per pending annotation that contributes
/// one, in the pending order.
pub open spec fn line_marks(l: LineModel, pending: Seq<AnnModel>) -> Seq<Mark>
    decreases pending.len(),
{
    if pending.len() == 0 {
        Seq::empty()
    } else {
        mark_of(l, pending[0]) + line_marks(l, pending.drop_first())
    }
}

/// The pending annotations that line `l` fully places, in the pending order.
pub open spec fn line_resolved(l: LineModel, pending: Seq<AnnModel>) -> Seq<AnnModel>
    decreases pending.len(),
{
    if pending.len() == 0 {
        Seq::empty()
    } else {
        (if resolves(l, pending[0]) {
            seq![pending[0]]
        } else {
            Seq::empty()
        }) + line_resolved(l, pending.drop_first())
    }
}

/// The pending annotations that survive line `l`, in the pending order.
pub open spec fn line_kept(l: LineModel, pending: Seq<AnnModel>) -> Seq<AnnModel>
    decreases pending.len(),
{
    if pending.len() == 0 {
        Seq::empty()
    } else {
        (if resolves(l, pending[0]) {
            Seq::empty()
        } else {
            seq![pending[0]]
        }) + line_kept(l, pending.drop_first())
    }
}

/// Appending one annotation to the pending list appends its contribution to
/// the per-line partition.
pub proof fn lemma_per_line_snoc(l: LineModel, pending: Seq<AnnModel>, a: AnnModel)
    ensures
        line_marks(l, pending.push(a)) == line_marks(l, pending) + mark_of(l, a),
        line_resolved(l, pending.push(a)) == if resolves(l, a) {
            line_resolved(l, pending).push(a)
        } else {
            line_resolved(l, pending)
        },
        line_kept(l, pending.push(a)) == if resolves(l, a) {
            line_kept(l, pending)
        } else {
            line_kept(l, pending).push(a)
        },
    decreases pending.len(),
{
    if pending.len() == 0 {
        assert(pending.push(a).drop_first() =~= pending);
        assert(line_marks(l, pending.push(a)) =~= line_marks(l, pending) + mark_of(l, a));
        if resolves(l, a) {
            assert(line_resolved(l, pending.push(a)) =~= line_resolved(l, pending).push(a));
            assert(line_kept(l, pending.push(a)) =~= line_kept(l, pending));
        } else {
            assert(line_resolved(l, pending.push(a)) =~= line_resolved(l, pending));
            assert(line_kept(l, pending.push(a)) =~= line_kept(l, pending).push(a));
        }
    } else {
        assert(pending.push(a).drop_first() =~= pending.drop_first().push(a));
        assert(pending.push(a)[0] == pending[0]);
        lemma_per_line_snoc(l, pending.drop_first(), a);
        assert(line_marks(l, pending.push(a)) =~= line_marks(l, pending) + mark_of(l, a));
        if resolves(l, a) {
            assert(line_resolved(l, pending.push(a)) =~= line_resolved(l, pending).push(a));
            assert(line_kept(l, pending.push(a)) =~= line_kept(l, pending));
        } else {
            assert(line_resolved(l, pending.push(a)) =~= line_resolved(l, pending));
            assert(line_kept(l, pending.push(a)) =~= line_kept(l, pending).push(a));
        }
    }
}

/// The mathematical content of one render line.
pub ghost enum RenderLineModel {
    /// The title line: severity label, optional code, message.
    Title { level: Level, code: Option<Seq<char>>, message: Seq<char> },
    /// The origin line for a span.
    Origin { start: int, end: int, origin: Seq<char> },
    /// A blank spacer line.
    Blank,
    /// One line of source text with its gutter marks.
    Source { line_num: Option<int>, marks: Seq<Mark>, start: int, end: int },
    /// An underline-and-message line below a source line.
    AnnotationText {
        marks: Seq<Mark>,
        underline_start: nat,
        underline_end: nat,
        level: Level,
        message: Seq<char>,
    },
}

/// The start column of the underline of annotation `a` under line `l`: the
/// code points between the line start and the annotation start, or column
/// zero when the annotation began on an earlier line.
pub open spec fn underline_start(cc: spec_fn(int, int) -> nat, l: LineModel, a: AnnModel) -> nat {
    if l.start < a.start {
        cc(l.start, a.start)
    } else {
        0
    }
}

/// The end column of the underline of annotation `a` under line `l`.
pub open spec fn underline_end(cc: spec_fn(int, int) -> nat, l: LineModel, a: AnnModel) -> nat {
    cc(l.start, a.end)
}

/// The gutter mark of an annotation's message line: a closing mark if the
/// annotation began on an earlier line and so occupies a gutter column,
/// nothing if it began and ended on this very line.
pub open spec fn ann_marks(l: LineModel, a: AnnModel) -> Seq<Mark> {
    if a.start < l.start {
        seq![Mark::End]
    } else {
        Seq::empty()
    }
}

/// The message line of annotation `a` placed under line `l`.
pub open spec fn ann_text_model(cc: spec_fn(int, int) -> nat, l: LineModel, a: AnnModel)
    -> RenderLineModel {
    RenderLineModel::AnnotationText {
        marks: ann_marks(l, a),
        underline_start: underline_start(cc, l, a),
        underline_end: underline_end(cc, l, a),
        level: a.level,
        message: a.message,
    }
}

/// The message lines of the annotations placed under line `l`, in order.
pub open spec fn ann_lines(cc: spec_fn(int, int) -> nat, l: LineModel, anns: Seq<AnnModel>)
    -> Seq<RenderLineModel> {
    anns.map_values(|a: AnnModel| ann_text_model(cc, l, a))
}

/// The source render line of line `l`, with the gutter marks its pending
/// annotations contribute.
pub open spec fn source_line_model(l: LineModel, pending: Seq<AnnModel>) -> RenderLineModel {
    RenderLineModel::Source {
        line_num: Some(l.num),
        marks: line_marks(l, pending),
        start: l.start,
        end: l.end,
    }
}

/// The render lines the classifier emits for `lines`, starting from the
/// given pending annotations: per line, the source line, then the message
/// lines of the annotations that line places; placed annotations leave the
/// pending list.
pub open spec fn body_model(
    cc: spec_fn(int, int) -> nat,
    lines: Seq<LineModel>,
    pending: Seq<AnnModel>,
) -> Seq<RenderLineModel>
    decreases lines.len(),
{
    if lines.len() == 0 {
        Seq::empty()
    } else {
        seq![source_line_model(lines[0], pending)] + ann_lines(
            cc,
            lines[0],
            line_resolved(lines[0], pending),
        ) + body_model(cc, lines.drop_first(), line_kept(lines[0], pending))
    }
}

/// The annotations still pending after the classifier has walked `lines`.
pub open spec fn pending_after(lines: Seq<LineModel>, pending: Seq<AnnModel>) -> Seq<AnnModel>
    decreases lines.len(),
{
    if lines.len() == 0 {
        pending
    } else {
        pending_after(lines.drop_first(), line_kept(lines[0], pending))
    }
}

/// Walking one more line appends that line's render lines and filters the
/// pending list once more.
pub proof fn lemma_body_model_snoc(
    cc: spec_fn(int, int) -> nat,
    lines: Seq<LineModel>,
    l: LineModel,
    pending: Seq<AnnModel>,
)
    ensures
        body_model(cc, lines.push(l), pending) == body_model(cc, lines, pending) + seq![
            source_line_model(l, pending_after(lines, pending)),
        ] + ann_lines(cc, l, line_resolved(l, pending_after(lines, pending))),
        pending_after(lines.push(l), pending) == line_kept(l, pending_after(lines, pending)),
    decreases lines.len(),
{
    let lp = lines.push(l);
    if lines.len() == 0 {
        assert(lp.drop_first() =~= Seq::<LineModel>::empty());
        assert(lp[0] == l);
        assert(body_model(cc, lp.drop_first(), line_kept(l, pending))
            == Seq::<RenderLineModel>::empty());
        assert(pending_after(lines, pending) == pending);
        assert(pending_after(lp, pending) == pending_after(
            lp.drop_first(),
            line_kept(l, pending),
        ));
        assert(body_model(cc, lines, pending) == Seq::<RenderLineModel>::empty());
        assert(body_model(cc, lp, pending) =~= body_model(cc, lines, pending) + seq![
            source_line_model(l, pending_after(lines, pending)),
        ] + ann_lines(cc, l, line_resolved(l, pending_after(lines, pending))));
    } else {
        let kept0 = line_kept(lines[0], pending);
        assert(lp.drop_first() =~= lines.drop_first().push(l));
        assert(lp[0] == lines[0]);
        lemma_body_model_snoc(cc, lines.drop_first(), l, kept0);
        assert(body_model(cc, lp, pending) == seq![source_line_model(lines[0], pending)]
            + ann_lines(cc, lines[0], line_resolved(lines[0], pending)) + body_model(
            cc,
            lines.drop_first().push(l),
            kept0,
        ));
        assert(body_model(cc, lines, pending) == seq![source_line_model(lines[0], pending)]
            + ann_lines(cc, lines[0], line_resolved(lines[0], pending)) + body_model(
            cc,
            lines.drop_first(),
            kept0,
        ));
        assert(pending_after(lines, pending) == pending_after(lines.drop_first(), kept0));
        assert(pending_after(lp, pending) == pending_after(lines.drop_first().push(l), kept0));
        assert(body_model(cc, lp, pending) =~= body_model(cc, lines, pending) + seq![
            source_line_model(l, pending_after(lines, pending)),
        ] + ann_lines(cc, l, line_resolved(l, pending_after(lines, pending))));
    }
}

/// A render failure, reported before anything is emitted.
#[derive(Clone, Copy, Debug, PartialEq, Eq, Structural)]
pub enum RenderError {
    /// A secondary annotation comes from another origin than the primary
    /// annotation, or is not nested inside the primary span: the index names
    /// the first offending secondary annotation.
    ContractViolation { index: usize },
    /// The classifier finished walking the lines with annotations still
    /// pending: the resolver produced fewer lines than the spans imply.
    /// This is an internal-consistency failure, not a user input problem.
    Inconsistency { unresolved: usize },
}

/// One abstract render line, as emitted by the classifier and consumed by
/// the writer.
#[derive(Clone, Debug)]
pub enum RenderLine<Sp> {
    /// The title line: severity label, optional code, message.
    Title { level: Level, code: Option<String>, message: String },
    /// The origin line of the primary span.
    Origin { span: Sp },
    /// A blank spacer line.
    Blank,
    /// One line of source text, its number, and its gutter marks.
    Source { line_num: Option<usize>, marks: Vec<Mark>, content: Sp },
    /// An underline-and-message line below a source line.
    AnnotationText {
        marks: Vec<Mark>,
        underline_start: usize,
        underline_end: usize,
        level: Level,
        message: String,
    },
}

impl<Sp: Span> RenderLine<Sp> {
    /// The mathematical content of this render line.
    pub open spec fn model(self) -> RenderLineModel {
        match self {
            RenderLine::Title { level, code, message } => RenderLineModel::Title {
                level,
                code: match code {
                    Some(c) => Some(c@),
                    None => None,
                },
                message: message@,
            },
            RenderLine::Origin { span } => RenderLineModel::Origin {
                start: span.spec_start(),
                end: span.spec_end(),
                origin: span.spec_origin(),
            },
            RenderLine::Blank => RenderLineModel::Blank,
            RenderLine::Source { line_num, marks, content } => RenderLineModel::Source {
                line_num: match line_num {
                    Some(n) => Some(n as int),
                    None => None,
                },
                marks: marks@,
                start: content.spec_start(),
                end: content.spec_end(),
            },
            RenderLine::AnnotationText {
                marks,
                underline_start,
                underline_end,
                level,
                message,
            } => RenderLineModel::AnnotationText {
                marks: marks@,
                underline_start: underline_start as nat,
                underline_end: underline_end as nat,
                level,
                message: message@,
            },
        }
    }
}

/// The code-point counting function of a resolver, as a value the spec-level
/// classifier model is parameterized over.
pub open spec fn resolver_cc<Sp: Span, R: SpanResolver<Sp>>(r: R) -> spec_fn(int, int) -> nat {
    |s: int, e: int| r.count_between(s, e)
}

/// The mathematical contents of a sequence of annotations.
pub open spec fn ann_models<Sp: Span>(s: Seq<Annotation<Sp>>) -> Seq<AnnModel> {
    s.map_values(|a: Annotation<Sp>| a.model())
}

/// The annotations the classifier's line walk starts from: the secondary
/// annotations in order, preceded by the primary annotation itself whenever
/// the primary span is contained in its first physical line.  A single-line
/// primary is then placed on that line like any contained annotation — its
/// message line is underlined beneath the source line and it never occupies
/// a gutter column — while a multi-line primary stays out of the gutter
/// altogether.
pub open spec fn seeded_pending<Sp: Span, R: SpanResolver<Sp>>(r: R, d: Diagnostic<Sp>)
    -> Seq<AnnModel> {
    let lines = r.lines_model(d.primary.span);
    if classify(lines[0], d.primary.model()) == Class::Contained {
        seq![d.primary.model()] + ann_models(d.secondary@)
    } else {
        ann_models(d.secondary@)
    }
}

/// The mathematical contents of a sequence of render lines.
pub open spec fn line_models<Sp: Span>(s: Seq<RenderLine<Sp>>) -> Seq<RenderLineModel> {
    s.map_values(|r: RenderLine<Sp>| r.model())
}

/// The three header lines of a diagnostic: title, origin, blank.
pub open spec fn header_model<Sp: Span>(d: Diagnostic<Sp>) -> Seq<RenderLineModel> {
    seq![
        RenderLineModel::Title {
            level: d.primary.level,
            code: match d.code {
                Some(c) => Some(c@),
                None => None,
            },
            message: d.primary.message@,
        },
        RenderLineModel::Origin {
            start: d.primary.span.spec_start(),
            end: d.primary.span.spec_end(),
            origin: d.primary.span.spec_origin(),
        },
        RenderLineModel::Blank,
    ]
}

/// Whether secondary annotation `i` of `d` satisfies the nesting invariant:
/// it comes from the primary annotation's origin and its span is nested
/// inside the primary span.
pub open spec fn secondary_valid<Sp: Span>(d: Diagnostic<Sp>, i: int) -> bool {
    &&& d.secondary@[i].span.spec_origin() == d.primary.span.spec_origin()
    &&& d.primary.span.spec_start() <= d.secondary@[i].span.spec_start()
    &&& d.secondary@[i].span.spec_end() <= d.primary.span.spec_end()
}

/// Whether every secondary annotation of `d` satisfies the nesting
/// invariant.
pub open spec fn all_secondary_valid<Sp: Span>(d: Diagnostic<Sp>) -> bool {
    forall|i: int| 0 <= i < d.secondary@.len() ==> secondary_valid(d, i)
}

/// The index of the first secondary annotation at or after `i` that violates
/// the nesting invariant, or the secondary count if there is none.
pub open spec fn first_invalid_from<Sp: Span>(d: Diagnostic<Sp>, i: int) -> int
    decreases d.secondary@.len() - i,
    when 0 <= i <= d.secondary@.len()
{
    if i >= d.secondary@.len() {
        i
    } else if !secondary_valid(d, i) {
        i
    } else {
        first_invalid_from(d, i + 1)
    }
}

/// Scanning for the first violation may start anywhere past a valid prefix.
proof fn lemma_first_invalid_prefix<Sp: Span>(d: Diagnostic<Sp>, i: int)
    requires
        0 <= i <= d.secondary@.len(),
        forall|j: int| 0 <= j < i ==> secondary_valid(d, j),
    ensures
        first_invalid_from(d, 0) == first_invalid_from(d, i),
    decreases i,
{
    if i > 0 {
        lemma_first_invalid_prefix(d, i - 1);
    }
}

/// An exact copy of an annotation.
fn clone_ann<Sp: Span>(a: &Annotation<Sp>) -> (r: Annotation<Sp>)
    ensures
        r == *a,
{
    Annotation { span: a.span, level: a.level, message: a.message.clone() }
}

/// The line classifier, the core of the crate.  It validates every
/// secondary annotation against the nesting invariant, then walks the
/// physical lines of the primary span, classifying each pending annotation
/// against each line and emitting the abstract render lines: a title line,
/// an origin line, a blank line, then per source line its gutter marks and
/// the message lines of the annotations that line places.  The pending list
/// holds the secondary annotations, preceded by the primary annotation when
/// its span is contained in a single line: such a primary is underlined
/// beneath its source line (see [`seeded_pending`]).
///
/// The result is exactly the classifier model over the resolver's line
/// decomposition: it succeeds if and only if every secondary annotation is
/// valid and every pending annotation is placed by some line, fails with a
/// contract violation naming the first invalid annotation otherwise, and
/// fails with an internal-consistency error when the lines run out with
/// annotations still pending.  Nothing is emitted on failure.
pub fn render_lines<Sp: Span, R: SpanResolver<Sp>>(
    diagnostic: &Diagnostic<Sp>,
    resolver: &R,
) -> (r: Result<Vec<RenderLine<Sp>>, RenderError>)
    requires
        diagnostic.primary.span.spec_start() < usize::MAX,
    ensures
        ({
            let lines = resolver.lines_model(diagnostic.primary.span);
            let seed = seeded_pending::<Sp, R>(*resolver, *diagnostic);
            let cc = resolver_cc::<Sp, R>(*resolver);
            &&& (r is Ok <==> all_secondary_valid(*diagnostic) && pending_after(lines, seed).len()
                == 0)
            &&& (r is Ok ==> line_models(r->Ok_0@) == header_model(*diagnostic) + body_model(
                cc,
                lines,
                seed,
            ))
            &&& (!all_secondary_valid(*diagnostic) ==> r == Err::<
                Vec<RenderLine<Sp>>,
                RenderError,
            >(
                RenderError::ContractViolation {
                    index: first_invalid_from(*diagnostic, 0) as usize,
                },
            ))
            &&& (all_secondary_valid(*diagnostic) && pending_after(lines, seed).len() > 0 ==> r
                == Err::<Vec<RenderLine<Sp>>, RenderError>(
                RenderError::Inconsistency {
                    unresolved: pending_after(lines, seed).len() as usize,
                },
            ))
        }),
{
    let primary_span = diagnostic.primary.span;
    let ghost d = *diagnostic;
    let ghost lines = resolver.lines_model(primary_span);
    let ghost seed = seeded_pending::<Sp, R>(*resolver, d);
    let ghost cc = resolver_cc::<Sp, R>(*resolver);
    proof {
        resolver.lemma_lines_model_wf(primary_span);
    }

    // Validate every secondary annotation before emitting anything.
    let mut idx: usize = 0;
    while idx < diagnostic.secondary.len()
        invariant
            d == *diagnostic,
            primary_span == d.primary.span,
            idx <= diagnostic.secondary@.len(),
            forall|j: int| 0 <= j < idx ==> secondary_valid(d, j),
        decreases diagnostic.secondary@.len() - idx,
    {
        let ann = &diagnostic.secondary[idx];
        let ps = primary_span.start();
        let pe = primary_span.end();
        let origin_ok = ann.span.same_origin(&primary_span);
        let nested_ok = ps <= ann.span.start() && ann.span.end() <= pe;
        if !(origin_ok && nested_ok) {
            proof {
                assert(!secondary_valid(d, idx as int));
                lemma_first_invalid_prefix(d, idx as int);
            }
            return Err(RenderError::ContractViolation { index: idx });
        }
        idx += 1;
    }
    assert(all_secondary_valid(d));

    let mut body: Vec<RenderLine<Sp>> = Vec::new();
    let code = match &diagnostic.code {
        Some(c) => Some(c.clone()),
        None => None,
    };
    body.push(
        RenderLine::Title {
            level: diagnostic.primary.level,
            code,
            message: diagnostic.primary.message.clone(),
        },
    );
    body.push(RenderLine::Origin { span: primary_span });
    body.push(RenderLine::Blank);
    assert(line_models(body@) =~= header_model(d));

    let first = resolver.first_line_of(primary_span);
    let mut pending: Vec<Annotation<Sp>> = Vec::new();
    let ps = primary_span.start();
    let pe = primary_span.end();
    let fs = first.span.start();
    let fe = first.span.end();
    if fs <= ps && pe <= fe {
        // The whole primary span sits inside its first physical line: place
        // it like a contained annotation, underlined beneath that line.
        pending.push(clone_ann(&diagnostic.primary));
    }
    let ghost base = pending@;
    proof {
        if classify(lines[0], d.primary.model()) == Class::Contained {
            assert(ann_models(base) =~= seq![d.primary.model()]);
        } else {
            assert(ann_models(base) =~= Seq::<AnnModel>::empty());
        }
    }
    let mut pi: usize = 0;
    while pi < diagnostic.secondary.len()
        invariant
            d == *diagnostic,
            pi <= diagnostic.secondary@.len(),
            pending@ =~= base + diagnostic.secondary@.take(pi as int),
        decreases diagnostic.secondary@.len() - pi,
    {
        pending.push(clone_ann(&diagnostic.secondary[pi]));
        proof {
            assert(pending@ =~= base + diagnostic.secondary@.take(pi as int + 1));
        }
        pi += 1;
    }
    proof {
        assert(pending@ =~= base + diagnostic.secondary@);
        assert(ann_models(pending@) =~= ann_models(base) + ann_models(diagnostic.secondary@));
        assert(ann_models(pending@) =~= seed);
    }

    let mut cur: Option<SpannedLine<Sp>> = Some(first);
    let ghost mut gi: int = 0;
    loop
        invariant
            d == *diagnostic,
            lines == resolver.lines_model(primary_span),
            seed == seeded_pending::<Sp, R>(*resolver, d),
            cc == resolver_cc::<Sp, R>(*resolver),
            primary_span == diagnostic.primary.span,
            primary_span.spec_start() < usize::MAX,
            0 <= gi <= lines.len(),
            cur is Some <==> gi < lines.len(),
            cur is Some ==> line_matches(cur->0, lines[gi]),
            forall|i: int|
                0 <= i < lines.len() ==> (#[trigger] lines[i]).num == lines[0].num + i,
            ann_models(pending@) == pending_after(lines.take(gi), seed),
            line_models(body@) == header_model(d) + body_model(cc, lines.take(gi), seed),
        ensures
            ann_models(pending@) == pending_after(lines, seed),
            line_models(body@) == header_model(d) + body_model(cc, lines, seed),
        decreases lines.len() - gi,
    {
        let line = match cur {
            Some(l) => l,
            None => {
                proof {
                    assert(lines.take(gi) =~= lines);
                }
                break
            },
        };
        let ghost lm = lines[gi];
        let ghost pm = ann_models(pending@);
        let l_start = line.span.start();
        let l_end = line.span.end();

        let mut marks: Vec<Mark> = Vec::new();
        let mut here: Vec<Annotation<Sp>> = Vec::new();
        let mut kept: Vec<Annotation<Sp>> = Vec::new();
        let mut j: usize = 0;
        while j < pending.len()
            invariant
                pm == ann_models(pending@),
                j <= pending@.len(),
                l_start as int == lm.start,
                l_end as int == lm.end,
                marks@ == line_marks(lm, pm.take(j as int)),
                ann_models(here@) == line_resolved(lm, pm.take(j as int)),
                ann_models(kept@) == line_kept(lm, pm.take(j as int)),
            decreases pending@.len() - j,
        {
            let ann = &pending[j];
            let a_start = ann.span.start();
            let a_end = ann.span.end();
            proof {
                assert(pm[j as int] == pending@[j as int].model());
                assert(pm.take(j as int + 1) =~= pm.take(j as int).push(pm[j as int]));
                lemma_per_line_snoc(lm, pm.take(j as int), pm[j as int]);
            }
            if l_start <= a_start && a_end <= l_end {
                // Contained: the annotation sits inside this line.
                here.push(clone_ann(ann));
                proof {
                    assert(ann_models(here@) =~= line_resolved(lm, pm.take(j as int + 1)));
                    assert(ann_models(kept@) =~= line_kept(lm, pm.take(j as int + 1)));
                }
            } else if l_start <= a_start && a_start <= l_end {
                // Starts: the annotation begins here and ends below.
                marks.push(Mark::Start);
                kept.push(clone_ann(ann));
                proof {
                    assert(ann_models(here@) =~= line_resolved(lm, pm.take(j as int + 1)));
                    assert(ann_models(kept@) =~= line_kept(lm, pm.take(j as int + 1)));
                }
            } else if a_start < l_start && l_end < a_end {
                // Through: the annotation passes this line entirely.
                marks.push(Mark::Continue);
                kept.push(clone_ann(ann));
                proof {
                    assert(ann_models(here@) =~= line_resolved(lm, pm.take(j as int + 1)));
                    assert(ann_models(kept@) =~= line_kept(lm, pm.take(j as int + 1)));
                }
            } else if a_start < l_start && a_end <= l_end {
                // Ends: the annotation began above and terminates here.
                marks.push(Mark::Continue);
                here.push(clone_ann(ann));
                proof {
                    assert(ann_models(here@) =~= line_resolved(lm, pm.take(j as int + 1)));
                    assert(ann_models(kept@) =~= line_kept(lm, pm.take(j as int + 1)));
                }
            } else {
                // Not yet reached: the annotation begins on a later line.
                kept.push(clone_ann(ann));
                proof {
                    assert(ann_models(here@) =~= line_resolved(lm, pm.take(j as int + 1)));
                    assert(ann_models(kept@) =~= line_kept(lm, pm.take(j as int + 1)));
                }
            }
            j += 1;
        }
        proof {
            assert(pm.take(pending@.len() as int) =~= pm);
        }

        body.push(
            RenderLine::Source {
                line_num: Some(line.line_num),
                marks,
                content: line.span,
            },
        );

        let ghost resolved = line_resolved(lm, pm);
        let mut k: usize = 0;
        while k < here.len()
            invariant
                cc == resolver_cc::<Sp, R>(*resolver),
                ann_models(here@) == resolved,
                k <= here@.len(),
                l_start as int == lm.start,
                line_models(body@) == header_model(d) + body_model(cc, lines.take(gi), seed)
                    + seq![source_line_model(lm, pm)] + ann_lines(cc, lm, resolved.take(k as int)),
            decreases here@.len() - k,
        {
            let ann = &here[k];
            let ghost a = resolved[k as int];
            proof {
                assert(a == here@[k as int].model());
            }
            let a_start = ann.span.start();
            let a_end = ann.span.end();
            let us = if l_start < a_start {
                resolver.count_chars(line.span.new(l_start, a_start))
            } else {
                0
            };
            let ue = resolver.count_chars(line.span.new(l_start, a_end));
            let amarks: Vec<Mark> = if a_start < l_start {
                let mut v = Vec::new();
                v.push(Mark::End);
                proof {
                    assert(v@ =~= seq![Mark::End]);
                }
                v
            } else {
                Vec::new()
            };
            proof {
                assert(cc(lm.start, a.start) == resolver.count_between(lm.start, a.start));
                assert(cc(lm.start, a.end) == resolver.count_between(lm.start, a.end));
                assert(amarks@ =~= ann_marks(lm, a));
                assert(resolved.take(k as int + 1) =~= resolved.take(k as int).push(a));
            }
            let rl = RenderLine::AnnotationText {
                marks: amarks,
                underline_start: us,
                underline_end: ue,
                level: ann.level,
                message: ann.message.clone(),
            };
            let ghost rlm = rl.model();
            proof {
                assert(rlm == ann_text_model(cc, lm, a));
            }
            let ghost bprev = body@;
            body.push(rl);
            proof {
                assert(ann_lines(cc, lm, resolved.take(k as int + 1)) =~= ann_lines(
                    cc,
                    lm,
                    resolved.take(k as int),
                ).push(rlm));
                assert(line_models(body@) =~= line_models(bprev).push(rlm));
                assert(line_models(bprev).push(rlm) =~= header_model(d) + body_model(
                    cc,
                    lines.take(gi),
                    seed,
                ) + seq![source_line_model(lm, pm)] + ann_lines(
                    cc,
                    lm,
                    resolved.take(k as int + 1),
                ));
            }
            k += 1;
        }
        proof {
            assert(resolved.take(here@.len() as int) =~= resolved);
        }

        pending = kept;
        cur = resolver.next_line_of(primary_span, line);
        proof {
            lemma_body_model_snoc(cc, lines.take(gi), lines[gi], seed);
            assert(lines.take(gi).push(lines[gi]) =~= lines.take(gi + 1));
            assert(pm == pending_after(lines.take(gi), seed));
            assert(line_models(body@) =~= header_model(d) + body_model(
                cc,
                lines.take(gi + 1),
                seed,
            ));
            gi = gi + 1;
        }
    }
    if pending.len() > 0 {
        proof {
            assert(ann_models(pending@).len() == pending@.len());
        }
        return Err(RenderError::Inconsistency { unresolved: pending.len() });
    }
    proof {
        assert(pending_after(lines, seed).len() == 0);
    }
    Ok(body)
}

/// Every line the classifier's body emits is a source line or an
/// annotation message line; the header lines come only from the header.
pub proof fn lemma_body_model_kinds(
    cc: spec_fn(int, int) -> nat,
    lines: Seq<LineModel>,
    pending: Seq<AnnModel>,
)
    ensures
        forall|i: int|
            0 <= i < body_model(cc, lines, pending).len() ==> ((#[trigger] body_model(
                cc,
                lines,
                pending,
            )[i]) is Source || body_model(cc, lines, pending)[i] is AnnotationText),
    decreases lines.len(),
{
    if lines.len() > 0 {
        let l = lines[0];
        let head = seq![source_line_model(l, pending)];
        let mids = ann_lines(cc, l, line_resolved(l, pending));
        let rest = body_model(cc, lines.drop_first(), line_kept(l, pending));
        lemma_body_model_kinds(cc, lines.drop_first(), line_kept(l, pending));
        assert forall|i: int|
            0 <= i < body_model(cc, lines, pending).len() implies ((#[trigger] body_model(
            cc,
            lines,
            pending,
        )[i]) is Source || body_model(cc, lines, pending)[i] is AnnotationText) by {
            if i == 0 {
            } else if i < 1 + mids.len() {
                assert(body_model(cc, lines, pending)[i] == mids[i - 1]);
                assert(mids[i - 1] == ann_text_model(cc, l, line_resolved(l, pending)[i - 1]));
            } else {
                assert(body_model(cc, lines, pending)[i] == rest[i - 1 - mids.len()]);
            }
        }
    }
}

/// Whether a render line carries a gutter: source lines and annotation
/// message lines do, the header lines do not.
pub open spec fn is_marked_line(m: RenderLineModel) -> bool {
    m is Source || m is AnnotationText
}

/// The gutter marks of a render line, empty for the header lines.
pub open spec fn marks_of_model(m: RenderLineModel) -> Seq<Mark> {
    match m {
        RenderLineModel::Source { marks, .. } => marks,
        RenderLineModel::AnnotationText { marks, .. } => marks,
        _ => Seq::empty(),
    }
}

/// The gutter width of a render line list: the largest mark count of any
/// source or annotation message line, zero if there is none.
pub open spec fn gutter_width(ms: Seq<RenderLineModel>) -> nat
    decreases ms.len(),
{
    if ms.len() == 0 {
        0
    } else {
        let head = if is_marked_line(ms[0]) {
            marks_of_model(ms[0]).len()
        } else {
            0
        };
        let rest = gutter_width(ms.drop_first());
        if head >= rest {
            head
        } else {
            rest
        }
    }
}

/// The line number a render line contributes to the gutter width
/// computation: its own for a numbered source line, zero otherwise.
pub open spec fn line_num_of_model(m: RenderLineModel) -> int {
    match m {
        RenderLineModel::Source { line_num: Some(n), .. } => n,
        _ => 0,
    }
}

/// The largest line number of any numbered source line, zero if there is
/// none.
pub open spec fn max_line_num(ms: Seq<RenderLineModel>) -> int
    decreases ms.len(),
{
    if ms.len() == 0 {
        0
    } else {
        let head = line_num_of_model(ms[0]);
        let rest = max_line_num(ms.drop_first());
        if head >= rest {
            head
        } else {
            rest
        }
    }
}

/// Appending one line to the list takes the running maxima one step.
pub proof fn lemma_widths_snoc(ms: Seq<RenderLineModel>, m: RenderLineModel)
    ensures
        gutter_width(ms.push(m)) == ({
            let head = if is_marked_line(m) {
                marks_of_model(m).len()
            } else {
                0
            };
            if gutter_width(ms) >= head {
                gutter_width(ms)
            } else {
                head
            }
        }),
        max_line_num(ms.push(m)) == ({
            if max_line_num(ms) >= line_num_of_model(m) {
                max_line_num(ms)
            } else {
                line_num_of_model(m)
            }
        }),
    decreases ms.len(),
{
    if ms.len() == 0 {
        assert(ms.push(m).drop_first() =~= ms);
    } else {
        assert(ms.push(m).drop_first() =~= ms.drop_first().push(m));
        assert(ms.push(m)[0] == ms[0]);
        lemma_widths_snoc(ms.drop_first(), m);
    }
}

/// No marked line holds more marks than the gutter width.
pub proof fn lemma_gutter_width_bound(ms: Seq<RenderLineModel>, i: int)
    requires
        0 <= i < ms.len(),
        is_marked_line(ms[i]),
    ensures
        marks_of_model(ms[i]).len() <= gutter_width(ms),
    decreases ms.len(),
{
    if i > 0 {
        lemma_gutter_width_bound(ms.drop_first(), i - 1);
    }
}

/// A mark list left-padded with [`Mark::Empty`] up to width `w`; lists
/// already that wide are kept as they are.
pub open spec fn pad_seq(w: nat, marks: Seq<Mark>) -> Seq<Mark> {
    if marks.len() >= w {
        marks
    } else {
        Seq::new((w - marks.len()) as nat, |i: int| Mark::Empty) + marks
    }
}

/// A render line with its gutter left-padded up to width `w`.
pub open spec fn pad_line_model(w: nat, m: RenderLineModel) -> RenderLineModel {
    match m {
        RenderLineModel::Source { line_num, marks, start, end } => RenderLineModel::Source {
            line_num,
            marks: pad_seq(w, marks),
            start,
            end,
        },
        RenderLineModel::AnnotationText {
            marks,
            underline_start,
            underline_end,
            level,
            message,
        } => RenderLineModel::AnnotationText {
            marks: pad_seq(w, marks),
            underline_start,
            underline_end,
            level,
            message,
        },
        other => other,
    }
}

/// Every line of the list with its gutter left-padded up to width `w`.
pub open spec fn pad_all(w: nat, ms: Seq<RenderLineModel>) -> Seq<RenderLineModel> {
    ms.map_values(|m: RenderLineModel| pad_line_model(w, m))
}

/// The normalized render line list: every gutter left-padded with
/// [`Mark::Empty`] up to the common gutter width, so that the same column
/// stands for the same annotation on every line.
pub open spec fn normalized_model(ms: Seq<RenderLineModel>) -> Seq<RenderLineModel> {
    pad_all(gutter_width(ms), ms)
}

/// After normalization, every source and annotation message line holds
/// exactly the common gutter width of marks.
pub proof fn lemma_gutter_padding(ms: Seq<RenderLineModel>, i: int)
    requires
        0 <= i < ms.len(),
        is_marked_line(ms[i]),
    ensures
        is_marked_line(normalized_model(ms)[i]),
        marks_of_model(normalized_model(ms)[i]).len() == gutter_width(ms),
{
    lemma_gutter_width_bound(ms, i);
}

/// A left-padded copy of a mark list.
fn pad_vec(w: usize, marks: &Vec<Mark>) -> (r: Vec<Mark>)
    ensures
        r@ == pad_seq(w as nat, marks@),
{
    let mut v: Vec<Mark> = Vec::new();
    let n = marks.len();
    if n < w {
        let mut p: usize = 0;
        while p < w - n
            invariant
                n < w,
                p <= w - n,
                v@ =~= Seq::new(p as nat, |i: int| Mark::Empty),
            decreases w - n - p,
        {
            v.push(Mark::Empty);
            proof {
                assert(v@ =~= Seq::new(p as nat + 1, |i: int| Mark::Empty));
            }
            p += 1;
        }
    }
    let ghost pad = v@;
    let mut k: usize = 0;
    while k < marks.len()
        invariant
            k <= marks@.len(),
            v@ =~= pad + marks@.take(k as int),
        decreases marks@.len() - k,
    {
        v.push(marks[k]);
        proof {
            assert(v@ =~= pad + marks@.take(k as int + 1));
        }
        k += 1;
    }
    proof {
        assert(marks@.take(marks@.len() as int) =~= marks@);
        assert(v@ =~= pad_seq(w as nat, marks@));
    }
    v
}

/// The gutter width of a render line list: the largest mark count of any
/// source or annotation message line.
pub fn gutter_width_of<Sp: Span>(lines: &Vec<RenderLine<Sp>>) -> (r: usize)
    ensures
        r as nat == gutter_width(line_models(lines@)),
{
    let mut w: usize = 0;
    let mut i: usize = 0;
    while i < lines.len()
        invariant
            i <= lines@.len(),
            w as nat == gutter_width(line_models(lines@).take(i as int)),
        decreases lines@.len() - i,
    {
        proof {
            assert(line_models(lines@).take(i as int + 1) =~= line_models(lines@).take(
                i as int,
            ).push(lines@[i as int].model()));
            lemma_widths_snoc(line_models(lines@).take(i as int), lines@[i as int].model());
        }
        match &lines[i] {
            RenderLine::Source { marks, .. } => {
                if marks.len() > w {
                    w = marks.len();
                }
            },
            RenderLine::AnnotationText { marks, .. } => {
                if marks.len() > w {
                    w = marks.len();
                }
            },
            _ => {},
        }
        i += 1;
    }
    proof {
        assert(line_models(lines@).take(lines@.len() as int) =~= line_models(lines@));
    }
    w
}

/// The width of the line-number column: the decimal digit count of the
/// largest emitted line number, and at least one.
pub fn line_num_width<Sp: Span>(lines: &Vec<RenderLine<Sp>>) -> (r: usize)
    ensures
        ({
            let m = max_line_num(line_models(lines@));
            &&& r as int == if crate::digits::spec_log10(m) >= 1 {
                crate::digits::spec_log10(m)
            } else {
                1
            }
        }),
{
    let mut m: usize = 0;
    let mut i: usize = 0;
    while i < lines.len()
        invariant
            i <= lines@.len(),
            m as int == max_line_num(line_models(lines@).take(i as int)),
        decreases lines@.len() - i,
    {
        proof {
            assert(line_models(lines@).take(i as int + 1) =~= line_models(lines@).take(
                i as int,
            ).push(lines@[i as int].model()));
            lemma_widths_snoc(line_models(lines@).take(i as int), lines@[i as int].model());
        }
        match &lines[i] {
            RenderLine::Source { line_num: Some(n), .. } => {
                if *n > m {
                    m = *n;
                }
            },
            _ => {},
        }
        i += 1;
    }
    proof {
        assert(line_models(lines@).take(lines@.len() as int) =~= line_models(lines@));
    }
    let w = crate::digits::log10usize(m);
    if w >= 1 {
        w
    } else {
        1
    }
}

/// A copy of the render line list with every gutter left-padded with
/// [`Mark::Empty`] up to the common gutter width, so that the same column
/// stands for the same annotation on every line.
pub fn normalize<Sp: Span>(lines: &Vec<RenderLine<Sp>>) -> (r: Vec<RenderLine<Sp>>)
    ensures
        line_models(r@) == normalized_model(line_models(lines@)),
        r@.len() == lines@.len(),
{
    let w = gutter_width_of(lines);
    let ghost ms = line_models(lines@);
    let mut out: Vec<RenderLine<Sp>> = Vec::new();
    let mut i: usize = 0;
    while i < lines.len()
        invariant
            i <= lines@.len(),
            ms == line_models(lines@),
            w as nat == gutter_width(ms),
            out@.len() == i,
            line_models(out@) =~= pad_all(w as nat, ms.take(i as int)),
        decreases lines@.len() - i,
    {
        let padded = match &lines[i] {
            RenderLine::Title { level, code, message } => RenderLine::Title {
                level: *level,
                code: match code {
                    Some(c) => Some(c.clone()),
                    None => None,
                },
                message: message.clone(),
            },
            RenderLine::Origin { span } => RenderLine::Origin { span: *span },
            RenderLine::Blank => RenderLine::Blank,
            RenderLine::Source { line_num, marks, content } => RenderLine::Source {
                line_num: *line_num,
                marks: pad_vec(w, marks),
                content: *content,
            },
            RenderLine::AnnotationText { marks, underline_start, underline_end, level, message } =>
                RenderLine::AnnotationText {
                marks: pad_vec(w, marks),
                underline_start: *underline_start,
                underline_end: *underline_end,
                level: *level,
                message: message.clone(),
            },
        };
        proof {
            assert(padded.model() == pad_line_model(w as nat, ms[i as int]));
            assert(ms.take(i as int + 1) =~= ms.take(i as int).push(ms[i as int]));
        }
        let ghost bprev = out@;
        out.push(padded);
        proof {
            assert(line_models(out@) =~= line_models(bprev).push(pad_line_model(
                w as nat,
                ms[i as int],
            )));
            assert(pad_all(w as nat, ms.take(i as int + 1)) =~= pad_all(
                w as nat,
                ms.take(i as int),
            ).push(pad_line_model(w as nat, ms[i as int])));
            assert(line_models(out@) =~= pad_all(w as nat, ms.take(i as int + 1)));
        }
        i += 1;
    }
    proof {
        assert(ms.take(ms.len() as int) =~= ms);
        assert(line_models(out@) =~= normalized_model(ms));
    }
    out
}

} // verus!
