//! The stylesheet capability: the pluggable mapping from semantic style
//! roles to concrete glyphs, and the rustc-like reference stylesheet.
//!
//! A stylesheet chooses glyphs only; colors are an embedder concern.  The
//! writer tags every output segment with a [`Style`], and an embedder maps
//! each style to whatever its sink supports, from nothing at all to ANSI
//! colors.

use vstd::prelude::*;
use crate::diagnostic::Level;
use crate::mark::Mark;
use crate::text::push_char;

verus! {

/// A semantic style role for one region of output.
#[derive(Clone, Copy, Debug, PartialEq, Eq, Structural)]
pub enum Style {
    /// No special styling.
    Base,
    /// Styling for quoted source text.
    Code,
    /// Styling for a message or underline with the given severity.
    Diagnostic(Level),
    /// Styling for the line-number gutter.
    LineNum,
    /// Styling for the title line.
    TitleLine,
    /// Styling for the origin line.
    OriginLine,
}

/// A gutter glyph in the box-drawing repertoire, for stylesheets that draw
/// richer gutters than the four plain marks.
#[derive(Clone, Copy, Debug, PartialEq, Eq, Structural)]
#[allow(missing_docs)]
pub enum MarkKind {
    Horizontal,
    Vertical,
    DownRight,
    DownLeft,
    UpRight,
    UpLeft,
    VerticalRight,
    VerticalLeft,
    HorizontalDown,
    HorizontalUp,
    VerticalHorizontal,
    DoubleHorizontal,
    DoubleVertical,
    DoubleDownRight,
    DoubleDownLeft,
    DoubleUpRight,
    DoubleUpLeft,
    DoubleVerticalRight,
    DoubleVerticalLeft,
    DoubleHorizontalDown,
    DoubleHorizontalUp,
    DoubleVerticalHorizontal,
}

impl MarkKind {
    /// The ASCII rendering of this glyph.  This reduces the double-line
    /// glyphs to their single-line versions.
    pub open spec fn spec_ascii(self) -> char {
        match self {
            MarkKind::Horizontal | MarkKind::DoubleHorizontal => '-',
            MarkKind::Vertical | MarkKind::DoubleVertical => '|',
            MarkKind::DownRight | MarkKind::DoubleDownRight | MarkKind::UpLeft
                | MarkKind::DoubleUpLeft => '\\',
            MarkKind::DownLeft | MarkKind::DoubleDownLeft | MarkKind::UpRight
                | MarkKind::DoubleUpRight => '/',
            _ => '+',
        }
    }

    /// Renders this glyph as an ASCII character; the double-line glyphs
    /// reduce to their single-line versions.
    pub fn as_ascii(self) -> (c: char)
        ensures
            c == self.spec_ascii(),
    {
        match self {
            MarkKind::Horizontal | MarkKind::DoubleHorizontal => '-',
            MarkKind::Vertical | MarkKind::DoubleVertical => '|',
            MarkKind::DownRight | MarkKind::DoubleDownRight | MarkKind::UpLeft
                | MarkKind::DoubleUpLeft => '\\',
            MarkKind::DownLeft | MarkKind::DoubleDownLeft | MarkKind::UpRight
                | MarkKind::DoubleUpRight => '/',
            _ => '+',
        }
    }

    /// The Unicode box-drawing rendering of this glyph.
    pub open spec fn spec_box_drawing(self) -> char {
        match self {
            MarkKind::Horizontal => '─',
            MarkKind::Vertical => '│',
            MarkKind::DownRight => '┌',
            MarkKind::DownLeft => '┐',
            MarkKind::UpRight => '└',
            MarkKind::UpLeft => '┘',
            MarkKind::VerticalRight => '├',
            MarkKind::VerticalLeft => '┤',
            MarkKind::HorizontalDown => '┬',
            MarkKind::HorizontalUp => '┴',
            MarkKind::VerticalHorizontal => '┼',
            MarkKind::DoubleHorizontal => '═',
            MarkKind::DoubleVertical => '║',
            MarkKind::DoubleDownRight => '╔',
            MarkKind::DoubleDownLeft => '╗',
            MarkKind::DoubleUpRight => '╚',
            MarkKind::DoubleUpLeft => '╝',
            MarkKind::DoubleVerticalRight => '╠',
            MarkKind::DoubleVerticalLeft => '╣',
            MarkKind::DoubleHorizontalDown => '╦',
            MarkKind::DoubleHorizontalUp => '╩',
            MarkKind::DoubleVerticalHorizontal => '╬',
        }
    }

    /// Renders this glyph using Unicode box-drawing characters.
    pub fn as_box_drawing(self) -> (c: char)
        ensures
            c == self.spec_box_drawing(),
    {
        match self {
            MarkKind::Horizontal => '─',
            MarkKind::Vertical => '│',
            MarkKind::DownRight => '┌',
            MarkKind::DownLeft => '┐',
            MarkKind::UpRight => '└',
            MarkKind::UpLeft => '┘',
            MarkKind::VerticalRight => '├',
            MarkKind::VerticalLeft => '┤',
            MarkKind::HorizontalDown => '┬',
            MarkKind::HorizontalUp => '┴',
            MarkKind::VerticalHorizontal => '┼',
            MarkKind::DoubleHorizontal => '═',
            MarkKind::DoubleVertical => '║',
            MarkKind::DoubleDownRight => '╔',
            MarkKind::DoubleDownLeft => '╗',
            MarkKind::DoubleUpRight => '╚',
            MarkKind::DoubleUpLeft => '╝',
            MarkKind::DoubleVerticalRight => '╠',
            MarkKind::DoubleVerticalLeft => '╣',
            MarkKind::DoubleHorizontalDown => '╦',
            MarkKind::DoubleHorizontalUp => '╩',
            MarkKind::DoubleVerticalHorizontal => '╬',
        }
    }
}

/// The glyphs of a mark list under a stylesheet, one column per mark.
pub open spec fn marks_glyphs<S: Stylesheet>(sheet: S, marks: Seq<Mark>) -> Seq<char> {
    marks.map_values(|m: Mark| sheet.spec_mark_glyph(m))
}

/// The glyphs of an underline of the given length under a stylesheet.
pub open spec fn underline_glyphs<S: Stylesheet>(sheet: S, level: Level, len: nat) -> Seq<char> {
    Seq::new(len, |i: int| sheet.spec_underline_glyph(level))
}

/// The capability that supplies glyphs for the gutter, the divider between
/// the line numbers and the gutter, and the underlines.  Each glyph takes
/// one column.
pub trait Stylesheet: Sized {
    /// The one-column glyph of a gutter mark.
    spec fn spec_mark_glyph(self, m: Mark) -> char;

    /// The divider written between the line-number column and the gutter.
    spec fn spec_divider(self) -> Seq<char>;

    /// The one-column underline glyph for a severity.
    spec fn spec_underline_glyph(self, level: Level) -> char;

    /// Appends one glyph per gutter mark to `out`.
    fn write_marks(&self, out: &mut String, marks: &Vec<Mark>)
        ensures
            final(out)@ == old(out)@ + marks@.map_values(|m: Mark| self.spec_mark_glyph(m)),
    ;

    /// Appends the divider to `out`.
    fn write_divider(&self, out: &mut String)
        ensures
            final(out)@ == old(out)@ + self.spec_divider(),
    ;

    /// Appends an underline of `len` columns for `level` to `out`.
    fn write_underline(&self, out: &mut String, level: Level, len: usize)
        ensures
            final(out)@ == old(out)@ + Seq::new(len as nat, |i: int| self.spec_underline_glyph(level)),
    ;
}

/// The rustc-like reference stylesheet: ASCII gutter glyphs, a ` |`
/// divider, carets under errors and warnings, dashes under the rest.
pub struct Rustc;

impl Stylesheet for Rustc {
    open spec fn spec_mark_glyph(self, m: Mark) -> char {
        match m {
            Mark::Empty => ' ',
            Mark::Start => '\\',
            Mark::Continue => '|',
            Mark::End => '/',
        }
    }

    open spec fn spec_divider(self) -> Seq<char> {
        " |"@
    }

    open spec fn spec_underline_glyph(self, level: Level) -> char {
        match level {
            Level::Error | Level::Warning => '^',
            Level::Info | Level::Hint => '-',
        }
    }

    fn write_marks(&self, out: &mut String, marks: &Vec<Mark>) {
        let mut i: usize = 0;
        while i < marks.len()
            invariant
                i <= marks@.len(),
                out@ =~= old(out)@ + marks@.take(i as int).map_values(
                    |m: Mark| self.spec_mark_glyph(m),
                ),
            decreases marks@.len() - i,
        {
            let g = match marks[i] {
                Mark::Empty => ' ',
                Mark::Start => '\\',
                Mark::Continue => '|',
                Mark::End => '/',
            };
            push_char(out, g);
            proof {
                assert(marks@.take(i as int + 1) =~= marks@.take(i as int).push(marks@[i as int]));
                assert(out@ =~= old(out)@ + marks@.take(i as int + 1).map_values(
                    |m: Mark| self.spec_mark_glyph(m),
                ));
            }
            i += 1;
        }
        proof {
            assert(marks@.take(marks@.len() as int) =~= marks@);
        }
    }

    fn write_divider(&self, out: &mut String) {
        out.append(" |");
    }

    fn write_underline(&self, out: &mut String, level: Level, len: usize) {
        let g = match level {
            Level::Error | Level::Warning => '^',
            Level::Info | Level::Hint => '-',
        };
        let mut i: usize = 0;
        while i < len
            invariant
                i <= len,
                g == self.spec_underline_glyph(level),
                out@ =~= old(out)@ + Seq::new(i as nat, |k: int| self.spec_underline_glyph(level)),
            decreases len - i,
        {
            push_char(out, g);
            proof {
                assert(Seq::new(i as nat + 1, |k: int| self.spec_underline_glyph(level))
                    =~= Seq::new(i as nat, |k: int| self.spec_underline_glyph(level)).push(g));
                assert(out@ =~= old(out)@ + Seq::new(
                    i as nat + 1,
                    |k: int| self.spec_underline_glyph(level),
                ));
            }
            i += 1;
        }
    }
}

} // verus!
