//! Renderer for compiler-style diagnostics.
//!
//! Given a primary error location and related secondary locations in the same
//! source text, this crate produces the familiar annotated source listing:
//! a title line, an origin line, gutter line numbers, vertical continuation
//! bars for multi-line highlights, and underlines with attached messages.
//!
//! The heart of the crate is the line classifier, [`render_lines`]: it walks the
//! physical lines covered by the primary span, classifies every pending
//! annotation's relationship to each line — the secondary annotations, and
//! the primary itself when it fits on a single line — and emits an ordered
//! sequence of abstract render lines with exact column metrics.  A normalization pass
//! pads every gutter to a common width, and a writer turns the line list into
//! styled text segments.  Terminal colors, syntax highlighting and protocol
//! conversions are left to embedders.

pub mod diagnostic;
pub mod digits;
pub mod laws;
pub mod mark;
pub mod render;
pub mod source;
pub mod span;
pub mod style;
mod text;
pub mod writer;

pub use diagnostic::{Annotation, AnnotationBuilder, Diagnostic, DiagnosticBuilder, Level};
pub use mark::Mark;
pub use source::{SourceSpan, SubSpanIterator};
pub use span::{Span, SpanResolver, SpannedLine};
pub use style::{MarkKind, Rustc, Style, Stylesheet};
pub use render::{render_lines, normalize, RenderError, RenderLine};
pub use writer::{render, write_lines, Styled};
