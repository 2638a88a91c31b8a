//! Type errors produced by the dimensional checker.
use vstd::prelude::*;
use crate::ast::Span;
use crate::text::push_str;

verus! {

/// A dimensional type error.
#[derive(Debug, Clone)]
pub struct TypeError {
    /// Human-readable description of the error.
    pub message: String,
    /// Where in the source the error occurred.
    pub span: Span,
    /// Optional secondary label (e.g. the conflicting type's span).
    pub secondary: Option<(Span, String)>,
    /// The error code tag.
    pub code: TypeErrorCode,
}

/// Structured error codes for dimensional type errors.
#[derive(Debug, Clone, Copy, PartialEq, Eq)]
pub enum TypeErrorCode {
    /// Tried to add/subtract values with incompatible dimensions.
    DimensionMismatch,
    /// A declared dimension annotation doesn't match the inferred type.
    AnnotationConflict,
    /// Could not resolve a named base unit or type alias.
    UnknownUnit,
    /// The return expression dimension doesn't match the declared return type.
    ReturnTypeMismatch,
    /// A function argument has the wrong dimension.
    ArgumentDimension,
    /// Used a dimensionless value where a physical dimension was expected.
    UnexpectedDimensionless,
    /// Tensor shape mismatch (e.g. adding tensors of different shapes).
    ShapeMismatch,
}

/// The model of a reported error: its code, message, span and the optional
/// secondary label.
pub struct ErrorView {
    pub code: TypeErrorCode,
    pub message: Seq<char>,
    pub span: Span,
    pub secondary: Option<(Span, Seq<char>)>,
}

/// The model of a [`TypeError`].
pub open spec fn error_view(e: TypeError) -> ErrorView {
    ErrorView {
        code: e.code,
        message: e.message@,
        span: e.span,
        secondary: match e.secondary {
            Some(sec) => Some((sec.0, sec.1@)),
            None => None,
        },
    }
}

/// An error with code `code` and message `message` at `span`, with no
/// secondary label.
pub open spec fn error_at(code: TypeErrorCode, message: Seq<char>, span: Span) -> ErrorView {
    ErrorView { code, message, span, secondary: None }
}

/// The tag printed for each error code.
pub open spec fn code_text(c: TypeErrorCode) -> Seq<char> {
    match c {
        TypeErrorCode::DimensionMismatch => "E[dim::mismatch]"@,
        TypeErrorCode::AnnotationConflict => "E[dim::annotation]"@,
        TypeErrorCode::UnknownUnit => "E[dim::unknown_unit]"@,
        TypeErrorCode::ReturnTypeMismatch => "E[dim::return_type]"@,
        TypeErrorCode::ArgumentDimension => "E[dim::argument]"@,
        TypeErrorCode::UnexpectedDimensionless => "E[dim::dimensionless]"@,
        TypeErrorCode::ShapeMismatch => "E[dim::shape_mismatch]"@,
    }
}

impl TypeErrorCode {
    /// The tag of this code, e.g. `E[dim::mismatch]`.
    pub fn display_string(&self) -> (s: String)
        ensures
            s@ == code_text(*self),
    {
        let t = match self {
            TypeErrorCode::DimensionMismatch => "E[dim::mismatch]",
            TypeErrorCode::AnnotationConflict => "E[dim::annotation]",
            TypeErrorCode::UnknownUnit => "E[dim::unknown_unit]",
            TypeErrorCode::ReturnTypeMismatch => "E[dim::return_type]",
            TypeErrorCode::ArgumentDimension => "E[dim::argument]",
            TypeErrorCode::UnexpectedDimensionless => "E[dim::dimensionless]",
            TypeErrorCode::ShapeMismatch => "E[dim::shape_mismatch]",
        };
        let mut s = String::new();
        push_str(&mut s, t);
        s
    }
}

/// Message of a dimension mismatch.
pub open spec fn mismatch_text(got: Seq<char>, expected: Seq<char>) -> Seq<char> {
    "dimension mismatch: expected `"@ + expected + "`, found `"@ + got + "`"@
}

/// Message of an annotation conflict.
pub open spec fn annotation_text(declared: Seq<char>, inferred: Seq<char>) -> Seq<char> {
    "declared type `"@ + declared + "` conflicts with inferred `"@ + inferred + "`"@
}

/// Message of an unknown unit.
pub open spec fn unknown_unit_text(name: Seq<char>) -> Seq<char> {
    "unknown unit or type alias `"@ + name + "`"@
}

/// Message of a return type mismatch.
pub open spec fn return_text(declared: Seq<char>, inferred: Seq<char>) -> Seq<char> {
    "return type mismatch: declared `"@ + declared + "`, body evaluates to `"@ + inferred + "`"@
}

/// Message of a shape mismatch.
pub open spec fn shape_text(got: Seq<char>, expected: Seq<char>) -> Seq<char> {
    "tensor shape mismatch: expected `"@ + expected + "`, found `"@ + got + "`"@
}

fn join3(a: &str, b: &str, c: &str, d: &str, e: &str) -> (s: String)
    ensures
        s@ == a@ + b@ + c@ + d@ + e@,
{
    let mut s = String::new();
    push_str(&mut s, a);
    push_str(&mut s, b);
    push_str(&mut s, c);
    push_str(&mut s, d);
    push_str(&mut s, e);
    proof {
        assert(s@ =~= a@ + b@ + c@ + d@ + e@);
    }
    s
}

impl TypeError {
    /// A type error with the given code, message and span.
    pub fn new(code: TypeErrorCode, message: String, span: Span) -> (e: Self)
        ensures
            e.code == code,
            e.message@ == message@,
            e.span == span,
            e.secondary is None,
    {
        TypeError { message, span, secondary: None, code }
    }

    /// The labeled spans of this error: its span with its message, then the
    /// secondary span with its label, if any.
    pub fn labels(&self) -> (r: Vec<(Span, String)>)
        ensures
            r@.len() == if self.secondary is Some { 2int } else { 1int },
            r@[0].0 == self.span && r@[0].1@ == self.message@,
            self.secondary matches Some(sec) ==> r@[1].0 == sec.0 && r@[1].1@ == sec.1@,
    {
        let mut out: Vec<(Span, String)> = Vec::new();
        out.push((self.span, self.message.clone()));
        match &self.secondary {
            Some(sec) => out.push((sec.0, sec.1.clone())),
            None => {},
        }
        out
    }

    /// This error with a secondary labeled span attached.
    pub fn with_secondary(self, span: Span, label: String) -> (e: Self)
        ensures
            e.code == self.code,
            e.message == self.message,
            e.span == self.span,
            e.secondary == Some((span, label)),
    {
        let mut e = self;
        e.secondary = Some((span, label));
        e
    }

    /// `dimension mismatch: expected `E`, found `G``
    pub fn dimension_mismatch(span: Span, got: &str, expected: &str) -> (e: Self)
        ensures
            e.code == TypeErrorCode::DimensionMismatch,
            e.message@ == mismatch_text(got@, expected@),
            e.span == span,
            e.secondary is None,
    {
        let m = join3("dimension mismatch: expected `", expected, "`, found `", got, "`");
        Self::new(TypeErrorCode::DimensionMismatch, m, span)
    }

    /// `declared type `D` conflicts with inferred `I``
    pub fn annotation_conflict(span: Span, declared: &str, inferred: &str) -> (e: Self)
        ensures
            e.code == TypeErrorCode::AnnotationConflict,
            e.message@ == annotation_text(declared@, inferred@),
            e.span == span,
            e.secondary is None,
    {
        let m = join3("declared type `", declared, "` conflicts with inferred `", inferred, "`");
        Self::new(TypeErrorCode::AnnotationConflict, m, span)
    }

    /// `unknown unit or type alias `N``
    pub fn unknown_unit(span: Span, name: &str) -> (e: Self)
        ensures
            e.code == TypeErrorCode::UnknownUnit,
            e.message@ == unknown_unit_text(name@),
            e.span == span,
            e.secondary is None,
    {
        let mut m = String::new();
        push_str(&mut m, "unknown unit or type alias `");
        push_str(&mut m, name);
        push_str(&mut m, "`");
        proof {
            assert(m@ =~= unknown_unit_text(name@));
        }
        Self::new(TypeErrorCode::UnknownUnit, m, span)
    }

    /// `return type mismatch: declared `D`, body evaluates to `I``
    pub fn return_type_mismatch(span: Span, declared: &str, inferred: &str) -> (e: Self)
        ensures
            e.code == TypeErrorCode::ReturnTypeMismatch,
            e.message@ == return_text(declared@, inferred@),
            e.span == span,
            e.secondary is None,
    {
        let m = join3("return type mismatch: declared `", declared, "`, body evaluates to `", inferred, "`");
        Self::new(TypeErrorCode::ReturnTypeMismatch, m, span)
    }

    /// `tensor shape mismatch: expected `E`, found `G``
    pub fn shape_mismatch(span: Span, got: &str, expected: &str) -> (e: Self)
        ensures
            e.code == TypeErrorCode::ShapeMismatch,
            e.message@ == shape_text(got@, expected@),
            e.span == span,
            e.secondary is None,
    {
        let m = join3("tensor shape mismatch: expected `", expected, "`, found `", got, "`");
        Self::new(TypeErrorCode::ShapeMismatch, m, span)
    }

    /// The text of this error: the code tag, a space, then the message.
    pub fn display_string(&self) -> (s: String)
        ensures
            s@ == code_text(self.code) + seq![' '] + self.message@,
    {
        let mut s = self.code.display_string();
        push_str(&mut s, " ");
        push_str(&mut s, self.message.as_str());
        proof {
            reveal_strlit(" ");
            assert(s@ =~= code_text(self.code) + seq![' '] + self.message@);
        }
        s
    }
}

} // verus!
