//! The line writer: walks the normalized render line list and produces
//! styled text segments, one output line per render line.
//!
//! Segments carry a semantic [`Style`] instead of concrete colors: an
//! embedder writes each segment's text to its sink after mapping the style
//! to whatever the sink supports, and resets the sink's style between
//! segments.  The gutter of each line (line number, divider, marks) forms
//! one segment in the line-number style.

use vstd::prelude::*;
use crate::diagnostic::Diagnostic;
use crate::digits::{dec_chars, lemma_dec_chars_len, push_usize, spec_log10};
use crate::mark::Mark;
use crate::render::{
    all_secondary_valid, body_model, first_invalid_from, header_model, lemma_body_model_kinds,
    line_models, line_num_width, normalize, normalized_model, max_line_num, pad_line_model,
    pending_after, render_lines, resolver_cc, seeded_pending, RenderError, RenderLine,
    RenderLineModel,
};
use crate::span::{Span, SpanResolver};
use crate::style::{marks_glyphs, underline_glyphs, Style, Stylesheet};
use crate::text::push_char;

verus! {

/// One styled region of output text.
#[derive(Clone, Debug)]
pub struct Styled {
    /// The semantic style of the region.
    pub style: Style,
    /// The literal text of the region.
    pub text: String,
}

/// The mathematical content of one styled region.
#[verifier::ext_equal]
pub ghost struct StyledModel {
    pub style: Style,
    pub text: Seq<char>,
}

impl Styled {
    /// The mathematical content of this region.
    pub open spec fn model(self) -> StyledModel {
        StyledModel { style: self.style, text: self.text@ }
    }
}

/// The mathematical contents of a segment list.
pub open spec fn styled_models(s: Seq<Styled>) -> Seq<StyledModel> {
    s.map_values(|x: Styled| x.model())
}

/// `n` spaces.
pub open spec fn spaces(n: nat) -> Seq<char> {
    Seq::new(n, |i: int| ' ')
}

/// The decimal digits of `n`, right-aligned in a column of `width`.
pub open spec fn right_aligned(n: int, width: nat) -> Seq<char> {
    let d = dec_chars(n);
    if d.len() >= width {
        d
    } else {
        spaces((width - d.len()) as nat) + d
    }
}

/// The styled segments of one render line, ended by a newline in the base
/// style.
pub open spec fn line_segments<Sp: Span, R: SpanResolver<Sp>, S: Stylesheet>(
    sheet: S,
    resolver: R,
    width: nat,
    m: RenderLineModel,
) -> Seq<StyledModel> {
    match m {
        RenderLineModel::Title { level, code, message } => seq![
            StyledModel {
                style: Style::TitleLine,
                text: level.spec_label() + (match code {
                    Some(c) => seq!['['] + c + seq![']'],
                    None => Seq::empty(),
                }) + seq![':', ' '],
            },
            StyledModel { style: Style::Diagnostic(level), text: message },
            StyledModel { style: Style::Base, text: seq!['\n'] },
        ],
        RenderLineModel::Origin { start, end, origin } => seq![
            StyledModel {
                style: Style::OriginLine,
                text: spaces(width) + origin + seq![':'] + dec_chars(resolver.line_at(start))
                    + seq![':'] + dec_chars(resolver.col_at(start)),
            },
            StyledModel { style: Style::Base, text: seq!['\n'] },
        ],
        RenderLineModel::Blank => seq![StyledModel { style: Style::Base, text: seq!['\n'] }],
        RenderLineModel::Source { line_num, marks, start, end } => seq![
            StyledModel {
                style: Style::LineNum,
                text: (match line_num {
                    Some(n) => right_aligned(n, width),
                    None => spaces(width),
                }) + sheet.spec_divider() + marks_glyphs(sheet, marks),
            },
            StyledModel { style: Style::Base, text: seq![' '] },
            StyledModel { style: Style::Code, text: resolver.text_between(start, end) },
            StyledModel { style: Style::Base, text: seq!['\n'] },
        ],
        RenderLineModel::AnnotationText {
            marks,
            underline_start,
            underline_end,
            level,
            message,
        } => seq![
            StyledModel {
                style: Style::LineNum,
                text: spaces(width) + sheet.spec_divider() + marks_glyphs(sheet, marks),
            },
            StyledModel { style: Style::Base, text: spaces(underline_start) },
            StyledModel {
                style: Style::Diagnostic(level),
                text: underline_glyphs(
                    sheet,
                    level,
                    if underline_end >= underline_start {
                        (underline_end - underline_start) as nat
                    } else {
                        0
                    },
                ),
            },
            StyledModel { style: Style::Base, text: seq![' '] },
            StyledModel { style: Style::Diagnostic(level), text: message },
            StyledModel { style: Style::Base, text: seq!['\n'] },
        ],
    }
}

/// The styled segments of a whole render line list, in order.
pub open spec fn render_segments<Sp: Span, R: SpanResolver<Sp>, S: Stylesheet>(
    sheet: S,
    resolver: R,
    width: nat,
    ms: Seq<RenderLineModel>,
) -> Seq<StyledModel>
    decreases ms.len(),
{
    if ms.len() == 0 {
        Seq::empty()
    } else {
        line_segments(sheet, resolver, width, ms[0]) + render_segments(
            sheet,
            resolver,
            width,
            ms.drop_first(),
        )
    }
}

/// Writing one more line appends its segments.
proof fn lemma_render_segments_snoc<Sp: Span, R: SpanResolver<Sp>, S: Stylesheet>(
    sheet: S,
    resolver: R,
    width: nat,
    ms: Seq<RenderLineModel>,
    m: RenderLineModel,
)
    ensures
        render_segments(sheet, resolver, width, ms.push(m)) == render_segments(
            sheet,
            resolver,
            width,
            ms,
        ) + line_segments(sheet, resolver, width, m),
    decreases ms.len(),
{
    if ms.len() == 0 {
        assert(ms.push(m).drop_first() =~= ms);
        assert(ms.push(m)[0] == m);
        assert(render_segments(sheet, resolver, width, ms.push(m)) =~= render_segments(
            sheet,
            resolver,
            width,
            ms,
        ) + line_segments(sheet, resolver, width, m));
    } else {
        assert(ms.push(m).drop_first() =~= ms.drop_first().push(m));
        assert(ms.push(m)[0] == ms[0]);
        lemma_render_segments_snoc(sheet, resolver, width, ms.drop_first(), m);
        assert(render_segments(sheet, resolver, width, ms.push(m)) =~= render_segments(
            sheet,
            resolver,
            width,
            ms,
        ) + line_segments(sheet, resolver, width, m));
    }
}

/// The plain text of a segment list: the texts concatenated, styles
/// dropped.
pub open spec fn segments_text(s: Seq<StyledModel>) -> Seq<char>
    decreases s.len(),
{
    if s.len() == 0 {
        Seq::empty()
    } else {
        s[0].text + segments_text(s.drop_first())
    }
}

/// Concatenating one more segment appends its text.
proof fn lemma_segments_text_snoc(s: Seq<StyledModel>, m: StyledModel)
    ensures
        segments_text(s.push(m)) == segments_text(s) + m.text,
    decreases s.len(),
{
    if s.len() == 0 {
        assert(s.push(m).drop_first() =~= s);
        assert(segments_text(s.push(m)) =~= segments_text(s) + m.text);
    } else {
        assert(s.push(m).drop_first() =~= s.drop_first().push(m));
        assert(s.push(m)[0] == s[0]);
        lemma_segments_text_snoc(s.drop_first(), m);
        assert(segments_text(s.push(m)) =~= segments_text(s) + m.text);
    }
}

/// The plain text of a rendered segment list, as a sink without color
/// support would receive it.  The writer's output is a function of its
/// inputs, so identical inputs render to byte-identical text.
pub fn rendered_text(segments: &Vec<Styled>) -> (r: String)
    ensures
        r@ == segments_text(styled_models(segments@)),
{
    let ghost ms = styled_models(segments@);
    let mut out = String::new();
    let mut i: usize = 0;
    while i < segments.len()
        invariant
            ms == styled_models(segments@),
            i <= segments@.len(),
            out@ =~= segments_text(ms.take(i as int)),
        decreases segments@.len() - i,
    {
        out.append(segments[i].text.as_str());
        proof {
            assert(ms.take(i as int + 1) =~= ms.take(i as int).push(ms[i as int]));
            lemma_segments_text_snoc(ms.take(i as int), ms[i as int]);
            assert(ms[i as int].text == segments@[i as int].text@);
            assert(out@ =~= segments_text(ms.take(i as int + 1)));
        }
        i += 1;
    }
    proof {
        assert(ms.take(ms.len() as int) =~= ms);
    }
    out
}

/// Whether a render line's origin position is small enough to format.
pub open spec fn origin_start_ok(m: RenderLineModel) -> bool {
    match m {
        RenderLineModel::Origin { start, .. } => start < usize::MAX,
        _ => true,
    }
}

/// Appends `n` spaces to `out`.
fn push_spaces(out: &mut String, n: usize)
    ensures
        final(out)@ == old(out)@ + spaces(n as nat),
{
    let mut i: usize = 0;
    while i < n
        invariant
            i <= n,
            out@ =~= old(out)@ + spaces(i as nat),
        decreases n - i,
    {
        push_char(out, ' ');
        proof {
            assert(spaces(i as nat + 1) =~= spaces(i as nat).push(' '));
            assert(out@ =~= old(out)@ + spaces(i as nat + 1));
        }
        i += 1;
    }
}

/// Appends the decimal digits of `n`, right-aligned in a column of `width`,
/// to `out`.
fn push_right_aligned(out: &mut String, n: usize, width: usize)
    ensures
        final(out)@ == old(out)@ + right_aligned(n as int, width as nat),
{
    let digits = if n == 0 {
        1
    } else {
        crate::digits::log10usize(n)
    };
    proof {
        if n > 0 {
            lemma_dec_chars_len(n as int);
        }
        assert(dec_chars(n as int).len() == digits);
    }
    if digits < width {
        push_spaces(out, width - digits);
    }
    push_usize(out, n);
    proof {
        assert(out@ =~= old(out)@ + right_aligned(n as int, width as nat));
    }
}

/// Turns the normalized render line list into styled text segments: one
/// output line per render line, a blank line for [`RenderLine::Blank`], and
/// every region tagged with its semantic style.
pub fn write_lines<Sp: Span, R: SpanResolver<Sp>, S: Stylesheet>(
    lines: &Vec<RenderLine<Sp>>,
    resolver: &R,
    sheet: &S,
    width: usize,
) -> (r: Vec<Styled>)
    requires
        forall|i: int|
            0 <= i < lines@.len() ==> origin_start_ok(#[trigger] line_models(lines@)[i]),
    ensures
        styled_models(r@) == render_segments(*sheet, *resolver, width as nat, line_models(lines@)),
{
    let ghost ms = line_models(lines@);
    let mut out: Vec<Styled> = Vec::new();
    let mut i: usize = 0;
    while i < lines.len()
        invariant
            ms == line_models(lines@),
            forall|k: int| 0 <= k < ms.len() ==> origin_start_ok(#[trigger] ms[k]),
            i <= lines@.len(),
            styled_models(out@) =~= render_segments(*sheet, *resolver, width as nat, ms.take(
                i as int,
            )),
        decreases lines@.len() - i,
    {
        let ghost m = ms[i as int];
        let ghost bprev = out@;
        proof {
            assert(m == lines@[i as int].model());
            assert(origin_start_ok(m));
        }
        match &lines[i] {
            RenderLine::Title { level, code, message } => {
                let mut head = String::new();
                head.append(level.label());
                match code {
                    Some(c) => {
                        push_char(&mut head, '[');
                        head.append(c.as_str());
                        push_char(&mut head, ']');
                    },
                    None => {},
                }
                push_char(&mut head, ':');
                push_char(&mut head, ' ');
                out.push(Styled { style: Style::TitleLine, text: head });
                out.push(Styled { style: Style::Diagnostic(*level), text: message.clone() });
                let mut nl = String::new();
                push_char(&mut nl, '\n');
                out.push(Styled { style: Style::Base, text: nl });
                proof {
                    assert(styled_models(out@) =~~= styled_models(bprev) + line_segments(
                        *sheet,
                        *resolver,
                        width as nat,
                        m,
                    ));
                }
            },
            RenderLine::Origin { span } => {
                let mut head = String::new();
                push_spaces(&mut head, width);
                resolver.write_origin(&mut head, *span);
                out.push(Styled { style: Style::OriginLine, text: head });
                let mut nl = String::new();
                push_char(&mut nl, '\n');
                out.push(Styled { style: Style::Base, text: nl });
                proof {
                    assert(styled_models(out@) =~~= styled_models(bprev) + line_segments(
                        *sheet,
                        *resolver,
                        width as nat,
                        m,
                    ));
                }
            },
            RenderLine::Blank => {
                let mut nl = String::new();
                push_char(&mut nl, '\n');
                out.push(Styled { style: Style::Base, text: nl });
                proof {
                    assert(styled_models(out@) =~~= styled_models(bprev) + line_segments(
                        *sheet,
                        *resolver,
                        width as nat,
                        m,
                    ));
                }
            },
            RenderLine::Source { line_num, marks, content } => {
                let mut gut = String::new();
                match line_num {
                    Some(n) => push_right_aligned(&mut gut, *n, width),
                    None => push_spaces(&mut gut, width),
                }
                sheet.write_divider(&mut gut);
                sheet.write_marks(&mut gut, marks);
                proof {
                    assert(marks_glyphs(*sheet, marks@) =~= marks@.map_values(
                        |mk: Mark| sheet.spec_mark_glyph(mk),
                    ));
                }
                out.push(Styled { style: Style::LineNum, text: gut });
                let mut sp = String::new();
                push_char(&mut sp, ' ');
                out.push(Styled { style: Style::Base, text: sp });
                let mut code_text = String::new();
                resolver.write_span(&mut code_text, *content);
                out.push(Styled { style: Style::Code, text: code_text });
                let mut nl = String::new();
                push_char(&mut nl, '\n');
                out.push(Styled { style: Style::Base, text: nl });
                proof {
                    assert(styled_models(out@) =~~= styled_models(bprev) + line_segments(
                        *sheet,
                        *resolver,
                        width as nat,
                        m,
                    ));
                }
            },
            RenderLine::AnnotationText { marks, underline_start, underline_end, level, message
            } => {
                let mut gut = String::new();
                push_spaces(&mut gut, width);
                sheet.write_divider(&mut gut);
                sheet.write_marks(&mut gut, marks);
                proof {
                    assert(marks_glyphs(*sheet, marks@) =~= marks@.map_values(
                        |mk: Mark| sheet.spec_mark_glyph(mk),
                    ));
                }
                out.push(Styled { style: Style::LineNum, text: gut });
                let mut pad = String::new();
                push_spaces(&mut pad, *underline_start);
                out.push(Styled { style: Style::Base, text: pad });
                let len = if *underline_end >= *underline_start {
                    *underline_end - *underline_start
                } else {
                    0
                };
                let mut ul = String::new();
                sheet.write_underline(&mut ul, *level, len);
                proof {
                    assert(underline_glyphs(*sheet, *level, len as nat) =~= Seq::new(
                        len as nat,
                        |k: int| sheet.spec_underline_glyph(*level),
                    ));
                }
                out.push(Styled { style: Style::Diagnostic(*level), text: ul });
                let mut sp = String::new();
                push_char(&mut sp, ' ');
                out.push(Styled { style: Style::Base, text: sp });
                out.push(Styled { style: Style::Diagnostic(*level), text: message.clone() });
                let mut nl = String::new();
                push_char(&mut nl, '\n');
                out.push(Styled { style: Style::Base, text: nl });
                proof {
                    assert(styled_models(out@) =~~= styled_models(bprev) + line_segments(
                        *sheet,
                        *resolver,
                        width as nat,
                        m,
                    ));
                }
            },
        }
        proof {
            assert(ms.take(i as int + 1) =~= ms.take(i as int).push(m));
            lemma_render_segments_snoc(*sheet, *resolver, width as nat, ms.take(i as int), m);
            assert(styled_models(out@) =~~= render_segments(*sheet, *resolver, width as nat, ms.take(
                i as int + 1,
            )));
        }
        i += 1;
    }
    proof {
        assert(ms.take(ms.len() as int) =~= ms);
    }
    out
}

/// Renders one diagnostic against one resolver and one stylesheet: the
/// classifier, the normalization pass and the writer in sequence.
///
/// On success the result is the full styled output, pinned down as a
/// function of the inputs: the classifier model, normalized, written with
/// the given stylesheet's glyphs.  Rendering identical inputs therefore
/// produces identical output.  On failure nothing is emitted: the
/// contract-violation and internal-consistency errors are exactly those of
/// [`render_lines`].
pub fn render<Sp: Span, R: SpanResolver<Sp>, S: Stylesheet>(
    diagnostic: &Diagnostic<Sp>,
    resolver: &R,
    sheet: &S,
) -> (r: Result<Vec<Styled>, RenderError>)
    requires
        diagnostic.primary.span.spec_start() < usize::MAX,
    ensures
        ({
            let lines = resolver.lines_model(diagnostic.primary.span);
            let seed = seeded_pending::<Sp, R>(*resolver, *diagnostic);
            let cc = resolver_cc::<Sp, R>(*resolver);
            let full = header_model(*diagnostic) + body_model(cc, lines, seed);
            let norm = normalized_model(full);
            let width = if spec_log10(max_line_num(norm)) >= 1 {
                spec_log10(max_line_num(norm))
            } else {
                1
            };
            &&& (r is Ok <==> all_secondary_valid(*diagnostic) && pending_after(lines, seed).len()
                == 0)
            &&& (r is Ok ==> styled_models(r->Ok_0@) == render_segments(
                *sheet,
                *resolver,
                width as nat,
                norm,
            ))
            &&& (!all_secondary_valid(*diagnostic) ==> r == Err::<Vec<Styled>, RenderError>(
                RenderError::ContractViolation {
                    index: first_invalid_from(*diagnostic, 0) as usize,
                },
            ))
            &&& (all_secondary_valid(*diagnostic) && pending_after(lines, seed).len() > 0 ==> r
                == Err::<Vec<Styled>, RenderError>(
                RenderError::Inconsistency {
                    unresolved: pending_after(lines, seed).len() as usize,
                },
            ))
        }),
{
    let ghost gl = resolver.lines_model(diagnostic.primary.span);
    let ghost seed = seeded_pending::<Sp, R>(*resolver, *diagnostic);
    let ghost cc = resolver_cc::<Sp, R>(*resolver);
    let ghost full = header_model(*diagnostic) + body_model(cc, gl, seed);
    let lines = match render_lines(diagnostic, resolver) {
        Ok(l) => l,
        Err(e) => {
            return Err(e);
        },
    };
    let norm = normalize(&lines);
    let width = line_num_width(&norm);
    proof {
        lemma_body_model_kinds(cc, gl, seed);
        assert forall|i: int|
            0 <= i < norm@.len() implies origin_start_ok(#[trigger] line_models(norm@)[i]) by {
            let w = crate::render::gutter_width(full);
            assert(line_models(norm@)[i] == pad_line_model(w, full[i]));
            if i >= 3 {
                assert(full[i] == body_model(cc, gl, seed)[i - 3]);
            }
        }
    }
    Ok(write_lines(&norm, resolver, sheet, width))
}

} // verus!
