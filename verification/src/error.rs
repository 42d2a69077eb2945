use vstd::prelude::*;

use crate::primitives::LineRange;
use crate::text::{append, chars_of, decimal, decimal_chars, string_of};

verus! {

/// Diagnostic severity level.
#[derive(Debug, Clone, Copy, PartialEq, Eq, Structural)]
pub enum Severity {
    Info,
    Warning,
    Error,
}

/// A diagnostic message produced during parsing or mutation.
#[derive(Debug, Clone)]
pub struct Diagnostic {
    /// Machine-readable diagnostic code (e.g., "HEADING_LEVEL_JUMP").
    pub code: String,
    /// Severity level.
    pub severity: Severity,
    /// Human-readable message.
    pub message: String,
    /// 1-based line number (if applicable).
    pub line: Option<usize>,
    /// 1-based column number (if applicable).
    pub column: Option<usize>,
    /// Line range (if applicable).
    pub line_range: Option<LineRange>,
    /// Optional suggested fix.
    pub suggested_fix: Option<String>,
}

/// Error type for all mdtool operations.
#[derive(Debug, Clone)]
pub enum MdtoolError {
    Parse(String),
    Validation(String),
    BlockNotFound { selector: String },
    AmbiguousBlock { selector: String, n: usize },
    Transformation(String),
    AsciiLayout(String),
    Policy(String),
    Io(String),
}


/// The mathematical content of an [`MdtoolError`].
pub enum ErrorModel {
    Parse(Seq<char>),
    Validation(Seq<char>),
    BlockNotFound { selector: Seq<char> },
    AmbiguousBlock { selector: Seq<char>, n: usize },
    Transformation(Seq<char>),
    AsciiLayout(Seq<char>),
    Policy(Seq<char>),
    Io(Seq<char>),
}

impl View for MdtoolError {
    type V = ErrorModel;

    open spec fn view(&self) -> ErrorModel {
        match self {
            MdtoolError::Parse(m) => ErrorModel::Parse(m@),
            MdtoolError::Validation(m) => ErrorModel::Validation(m@),
            MdtoolError::BlockNotFound { selector } => ErrorModel::BlockNotFound { selector: selector@ },
            MdtoolError::AmbiguousBlock { selector, n } => ErrorModel::AmbiguousBlock { selector: selector@, n: *n },
            MdtoolError::Transformation(m) => ErrorModel::Transformation(m@),
            MdtoolError::AsciiLayout(m) => ErrorModel::AsciiLayout(m@),
            MdtoolError::Policy(m) => ErrorModel::Policy(m@),
            MdtoolError::Io(m) => ErrorModel::Io(m@),
        }
    }
}

impl ErrorModel {
    /// The human-readable message of an error.
    pub open spec fn message(self) -> Seq<char> {
        match self {
            ErrorModel::Parse(m) => "parse error: "@ + m,
            ErrorModel::Validation(m) => "validation error: "@ + m,
            ErrorModel::BlockNotFound { selector } => "block not found for selector: "@ + selector,
            ErrorModel::AmbiguousBlock { selector, n } => "ambiguous block selector: "@ + decimal(n as nat)
                + " matches for "@ + selector,
            ErrorModel::Transformation(m) => "transformation error: "@ + m,
            ErrorModel::AsciiLayout(m) => "ASCII layout error: "@ + m,
            ErrorModel::Policy(m) => "policy violation: "@ + m,
            ErrorModel::Io(m) => m,
        }
    }
}

impl MdtoolError {
    /// The human-readable message of this error.
    pub fn message(&self) -> (r: String)
        ensures
            r@ == self@.message(),
    {
        let mut out: Vec<char> = Vec::new();
        match self {
            MdtoolError::Parse(m) => {
                append(&mut out, chars_of("parse error: ").as_slice());
                append(&mut out, chars_of(m.as_str()).as_slice());
            },
            MdtoolError::Validation(m) => {
                append(&mut out, chars_of("validation error: ").as_slice());
                append(&mut out, chars_of(m.as_str()).as_slice());
            },
            MdtoolError::BlockNotFound { selector } => {
                append(&mut out, chars_of("block not found for selector: ").as_slice());
                append(&mut out, chars_of(selector.as_str()).as_slice());
            },
            MdtoolError::AmbiguousBlock { selector, n } => {
                append(&mut out, chars_of("ambiguous block selector: ").as_slice());
                append(&mut out, decimal_chars(*n).as_slice());
                append(&mut out, chars_of(" matches for ").as_slice());
                append(&mut out, chars_of(selector.as_str()).as_slice());
            },
            MdtoolError::Transformation(m) => {
                append(&mut out, chars_of("transformation error: ").as_slice());
                append(&mut out, chars_of(m.as_str()).as_slice());
            },
            MdtoolError::AsciiLayout(m) => {
                append(&mut out, chars_of("ASCII layout error: ").as_slice());
                append(&mut out, chars_of(m.as_str()).as_slice());
            },
            MdtoolError::Policy(m) => {
                append(&mut out, chars_of("policy violation: ").as_slice());
                append(&mut out, chars_of(m.as_str()).as_slice());
            },
            MdtoolError::Io(m) => {
                append(&mut out, chars_of(m.as_str()).as_slice());
            },
        }
        assert(out@ =~= self@.message());
        string_of(out.as_slice())
    }
}

} // verus!

verus! {

/// The mathematical content of a [`Diagnostic`].
pub struct DiagModel {
    pub code: Seq<char>,
    pub severity: Severity,
    pub message: Seq<char>,
    pub line: Option<usize>,
    pub column: Option<usize>,
    pub line_range: Option<LineRange>,
    pub suggested_fix: Option<Seq<char>>,
}

impl View for Diagnostic {
    type V = DiagModel;

    open spec fn view(&self) -> DiagModel {
        DiagModel {
            code: self.code@,
            severity: self.severity,
            message: self.message@,
            line: self.line,
            column: self.column,
            line_range: self.line_range,
            suggested_fix: crate::domain::block_node::opt_view(self.suggested_fix),
        }
    }
}

/// The models of a sequence of diagnostics.
pub open spec fn diag_views(v: Seq<Diagnostic>) -> Seq<DiagModel> {
    Seq::new(v.len(), |i: int| v[i]@)
}


impl Diagnostic {
    /// A copy of this diagnostic with the same content.
    pub fn duplicate(&self) -> (r: Diagnostic)
        ensures
            r@ == self@,
    {
        Diagnostic {
            code: self.code.clone(),
            severity: self.severity,
            message: self.message.clone(),
            line: self.line,
            column: self.column,
            line_range: self.line_range,
            suggested_fix: crate::domain::block_node::copy_opt(&self.suggested_fix),
        }
    }
}

} // verus!
