//! Compiler and command-line errors.
use vstd::prelude::*;
use crate::ast::Span;
use crate::text::{copy_string, push_str};

verus! {

/// Top-level compiler / CLI error.
#[derive(Debug, Clone, PartialEq, Eq)]
pub enum AeviaError {
    /// An I/O failure at `path`, with the system's description of it.
    Io { path: String, message: String },
    Message(String),
    NotImplemented { feature: String, phase: String },
    Manifest(String),
    ProjectExists(String),
}

/// Result type for Aevia operations.
pub type AeviaResult<T> = Result<T, AeviaError>;

/// The text of an error.
pub open spec fn error_text(e: AeviaError) -> Seq<char> {
    match e {
        AeviaError::Io { path, message } => "I/O error at "@ + path@ + ": "@ + message@,
        AeviaError::Message(m) => m@,
        AeviaError::NotImplemented { feature, phase } =>
            feature@ + " is not implemented yet (planned for "@ + phase@ + ")"@,
        AeviaError::Manifest(m) => "invalid Aevia.toml: "@ + m@,
        AeviaError::ProjectExists(p) => "project directory already exists: "@ + p@,
    }
}

/// The diagnostic code of an error.
pub open spec fn error_code(e: AeviaError) -> Seq<char> {
    match e {
        AeviaError::Io { .. } => "aevia::io"@,
        AeviaError::Message(_) => "aevia::error"@,
        AeviaError::NotImplemented { .. } => "aevia::not_implemented"@,
        AeviaError::Manifest(_) => "aevia::manifest"@,
        AeviaError::ProjectExists(_) => "aevia::project_exists"@,
    }
}

impl AeviaError {
    /// A plain message error.
    pub fn message(msg: String) -> (e: Self)
        ensures
            e == AeviaError::Message(msg),
    {
        AeviaError::Message(msg)
    }

    /// A feature planned for a later phase.
    pub fn not_implemented(feature: &str, phase: &str) -> (e: Self)
        ensures
            e matches AeviaError::NotImplemented { feature: f, phase: p } && f@ == feature@ && p@ == phase@,
    {
        let mut f = String::new();
        push_str(&mut f, feature);
        let mut p = String::new();
        push_str(&mut p, phase);
        AeviaError::NotImplemented { feature: f, phase: p }
    }

    /// An I/O failure at `path` described by `message`.
    pub fn io(path: &str, message: String) -> (e: Self)
        ensures
            e matches AeviaError::Io { path: p, message: m } && p@ == path@ && m == message,
    {
        let mut p = String::new();
        push_str(&mut p, path);
        AeviaError::Io { path: p, message }
    }

    /// The text of this error, as shown to the user.
    pub fn display_string(&self) -> (s: String)
        ensures
            s@ == error_text(*self),
    {
        let mut s = String::new();
        match self {
            AeviaError::Io { path, message } => {
                push_str(&mut s, "I/O error at ");
                push_str(&mut s, path.as_str());
                push_str(&mut s, ": ");
                push_str(&mut s, message.as_str());
            },
            AeviaError::Message(m) => push_str(&mut s, m.as_str()),
            AeviaError::NotImplemented { feature, phase } => {
                push_str(&mut s, feature.as_str());
                push_str(&mut s, " is not implemented yet (planned for ");
                push_str(&mut s, phase.as_str());
                push_str(&mut s, ")");
            },
            AeviaError::Manifest(m) => {
                push_str(&mut s, "invalid Aevia.toml: ");
                push_str(&mut s, m.as_str());
            },
            AeviaError::ProjectExists(p) => {
                push_str(&mut s, "project directory already exists: ");
                push_str(&mut s, p.as_str());
            },
        }
        proof {
            assert(s@ =~= error_text(*self));
        }
        s
    }

    /// The diagnostic code of this error, e.g. `aevia::io`.
    pub fn code(&self) -> (s: String)
        ensures
            s@ == error_code(*self),
    {
        let mut s = String::new();
        match self {
            AeviaError::Io { .. } => push_str(&mut s, "aevia::io"),
            AeviaError::Message(_) => push_str(&mut s, "aevia::error"),
            AeviaError::NotImplemented { .. } => push_str(&mut s, "aevia::not_implemented"),
            AeviaError::Manifest(_) => push_str(&mut s, "aevia::manifest"),
            AeviaError::ProjectExists(_) => push_str(&mut s, "aevia::project_exists"),
        }
        proof {
            assert(s@ =~= error_code(*self));
        }
        s
    }
}

/// An error located at a span of the source text.
#[derive(Debug, Clone)]
pub struct SpannedError {
    pub message: String,
    pub offset: usize,
    pub len: usize,
}

impl SpannedError {
    /// The labeled span of this error.
    pub fn label(&self) -> (r: (Span, String))
        ensures
            r.0.offset == self.offset,
            r.0.len == self.len,
            r.1@ == self.message@,
    {
        (Span::new(self.offset, self.len), copy_string(&self.message))
    }
}

} // verus!
