//! The diagnostic value types: severities, annotations, diagnostics, and the
//! fluent builders layered on top of them as sugar.

use vstd::prelude::*;

verus! {

/// A severity, ordered by descending urgency.
#[derive(Clone, Copy, Debug, PartialEq, Eq, Structural)]
pub enum Level {
    /// An error on the hand of the user.
    Error,
    /// A warning of something that is not necessarily wrong, but looks fishy.
    Warning,
    /// An informational annotation.
    Info,
    /// A hint about what actions can be taken.
    Hint,
}

impl Level {
    /// The canonical display label of this severity.
    pub open spec fn spec_label(self) -> Seq<char> {
        match self {
            Level::Error => "error"@,
            Level::Warning => "warning"@,
            Level::Info => "info"@,
            Level::Hint => "note"@,
        }
    }

    /// The canonical display label, as written on a title line.
    pub fn label(self) -> (r: &'static str)
        ensures
            r@ == self.spec_label(),
    {
        match self {
            Level::Error => "error",
            Level::Warning => "warning",
            Level::Info => "info",
            Level::Hint => "note",
        }
    }
}

/// The mathematical content of one annotation: its span's endpoints, its
/// severity and its message, independent of the span representation.
pub ghost struct AnnModel {
    pub start: int,
    pub end: int,
    pub level: Level,
    pub message: Seq<char>,
}

/// One highlighted region: a span paired with a severity and a message.
#[derive(Clone, Debug)]
pub struct Annotation<Sp> {
    /// The region of source text this annotation describes.
    pub span: Sp,
    /// The severity this annotation is rendered with.
    pub level: Level,
    /// The message attached to the region.
    pub message: String,
}

impl<Sp: crate::span::Span> Annotation<Sp> {
    /// The mathematical content of this annotation.
    pub open spec fn model(self) -> AnnModel {
        AnnModel {
            start: self.span.spec_start(),
            end: self.span.spec_end(),
            level: self.level,
            message: self.message@,
        }
    }
}

/// One reported problem: a mandatory primary annotation that anchors the
/// origin line and the title, an optional diagnostic code, an ordered
/// sequence of secondary annotations nested inside the primary span, and an
/// optional overall severity.
#[derive(Clone, Debug)]
pub struct Diagnostic<Sp> {
    /// The annotation that anchors the origin line and the title line.
    pub primary: Annotation<Sp>,
    /// An optional diagnostic code, written after the severity label.
    pub code: Option<String>,
    /// Further annotated regions, nested inside the primary span.
    pub secondary: Vec<Annotation<Sp>>,
    /// An optional overall severity, for embedders that track one apart from
    /// the primary annotation's.
    pub level: Option<Level>,
}

impl<Sp> Diagnostic<Sp> {
    /// Starts a fluent builder for a diagnostic.
    pub fn build() -> (r: DiagnosticBuilder<Sp>)
        ensures
            r.primary is None,
            r.code is None,
            r.secondary@.len() == 0,
            r.level is None,
    {
        DiagnosticBuilder { primary: None, code: None, secondary: Vec::new(), level: None }
    }
}

/// A by-value fluent builder for [`Diagnostic`]: each field is taken once and
/// the builder is consumed by [`DiagnosticBuilder::build`].
#[derive(Debug)]
pub struct DiagnosticBuilder<Sp> {
    /// The primary annotation, once set.
    pub primary: Option<Annotation<Sp>>,
    /// The diagnostic code, once set.
    pub code: Option<String>,
    /// The secondary annotations pushed so far.
    pub secondary: Vec<Annotation<Sp>>,
    /// The overall severity, once set.
    pub level: Option<Level>,
}

impl<Sp> DiagnosticBuilder<Sp> {
    /// Sets the mandatory primary annotation.
    pub fn primary(self, annotation: Annotation<Sp>) -> (r: Self)
        ensures
            r.primary == Some(annotation),
            r.code == self.code,
            r.secondary == self.secondary,
            r.level == self.level,
    {
        DiagnosticBuilder { primary: Some(annotation), ..self }
    }

    /// Sets the diagnostic code.
    pub fn code(self, code: String) -> (r: Self)
        ensures
            r.primary == self.primary,
            r.code == Some(code),
            r.secondary == self.secondary,
            r.level == self.level,
    {
        DiagnosticBuilder { code: Some(code), ..self }
    }

    /// Appends one secondary annotation; the order of these calls is the
    /// order in which gutter columns are later assigned.
    pub fn secondary(self, annotation: Annotation<Sp>) -> (r: Self)
        ensures
            r.primary == self.primary,
            r.code == self.code,
            r.secondary@ == self.secondary@.push(annotation),
            r.level == self.level,
    {
        let mut secondary = self.secondary;
        secondary.push(annotation);
        DiagnosticBuilder { secondary, ..self }
    }

    /// Sets the overall severity.
    pub fn level(self, level: Level) -> (r: Self)
        ensures
            r.primary == self.primary,
            r.code == self.code,
            r.secondary == self.secondary,
            r.level == Some(level),
    {
        DiagnosticBuilder { level: Some(level), ..self }
    }

    /// Finishes the diagnostic.  The primary annotation is mandatory.
    pub fn build(self) -> (r: Diagnostic<Sp>)
        requires
            self.primary is Some,
        ensures
            Some(r.primary) == self.primary,
            r.code == self.code,
            r.secondary == self.secondary,
            r.level == self.level,
    {
        let primary = match self.primary {
            Some(primary) => primary,
            None => unreached(),
        };
        Diagnostic { primary, code: self.code, secondary: self.secondary, level: self.level }
    }
}

impl<Sp> Annotation<Sp> {
    /// Starts a fluent builder for an annotation.
    pub fn build() -> (r: AnnotationBuilder<Sp>)
        ensures
            r.span is None,
            r.message@.len() == 0,
            r.level is None,
    {
        AnnotationBuilder { span: None, message: String::new(), level: None }
    }
}

/// A by-value fluent builder for [`Annotation`]: each field is taken once and
/// the builder is consumed by [`AnnotationBuilder::build`].
#[derive(Debug)]
pub struct AnnotationBuilder<Sp> {
    /// The annotated span, once set.
    pub span: Option<Sp>,
    /// The message; empty until set.
    pub message: String,
    /// The severity, once set; [`Level::Error`] if never set.
    pub level: Option<Level>,
}

impl<Sp> AnnotationBuilder<Sp> {
    /// Sets the mandatory span.
    pub fn span(self, span: Sp) -> (r: Self)
        ensures
            r.span == Some(span),
            r.message == self.message,
            r.level == self.level,
    {
        AnnotationBuilder { span: Some(span), ..self }
    }

    /// Sets the message.
    pub fn message(self, message: String) -> (r: Self)
        ensures
            r.span == self.span,
            r.message == message,
            r.level == self.level,
    {
        AnnotationBuilder { message, ..self }
    }

    /// Sets the severity.
    pub fn level(self, level: Level) -> (r: Self)
        ensures
            r.span == self.span,
            r.message == self.message,
            r.level == Some(level),
    {
        AnnotationBuilder { level: Some(level), ..self }
    }

    /// Finishes the annotation.  The span is mandatory; an unset severity
    /// defaults to [`Level::Error`].
    pub fn build(self) -> (r: Annotation<Sp>)
        requires
            self.span is Some,
        ensures
            Some(r.span) == self.span,
            r.message == self.message,
            self.level is Some ==> Some(r.level) == self.level,
            self.level is None ==> r.level == Level::Error,
    {
        let span = match self.span {
            Some(span) => span,
            None => unreached(),
        };
        let level = match self.level {
            Some(level) => level,
            None => Level::Error,
        };
        Annotation { span, level, message: self.message }
    }
}

} // verus!
