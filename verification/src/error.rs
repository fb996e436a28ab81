//! Error codes of the Teckel specification and the crate's error type.
use vstd::prelude::*;
use crate::text::{decimal, push_str};

verus! {

/// Error codes defined by the specification, one per failure condition.
#[derive(Debug, Clone, Copy, PartialEq, Eq, Hash, Structural)]
pub enum TeckelErrorCode {
    EReq001,
    EName001,
    EName002,
    EName003,
    ERef001,
    ERef002,
    ECycle001,
    EFmt001,
    EMode001,
    EOp001,
    EOp002,
    EList001,
    EEnum001,
    ECol001,
    EJoin001,
    EAgg001,
    EExpr001,
    ESchema001,
    ESchema002,
    ESchema003,
    ESchema004,
    EType001,
    EIo001,
    EIo002,
    EVar001,
    ESecret001,
    EHook001,
    EComp001,
    EQuality001,
    EQuality002,
    EQuality003,
    EQuality004,
    EQuality005,
    EMeta001,
    EMeta002,
    EMeta003,
    EMeta004,
    EExpose001,
    EExpose002,
    EVersion001,
}

/// The textual form of a code, `E-{CATEGORY}-{NUMBER}`.
pub open spec fn code_text(c: TeckelErrorCode) -> Seq<char> {
    match c {
        TeckelErrorCode::EReq001 => "E-REQ-001"@,
        TeckelErrorCode::EName001 => "E-NAME-001"@,
        TeckelErrorCode::EName002 => "E-NAME-002"@,
        TeckelErrorCode::EName003 => "E-NAME-003"@,
        TeckelErrorCode::ERef001 => "E-REF-001"@,
        TeckelErrorCode::ERef002 => "E-REF-002"@,
        TeckelErrorCode::ECycle001 => "E-CYCLE-001"@,
        TeckelErrorCode::EFmt001 => "E-FMT-001"@,
        TeckelErrorCode::EMode001 => "E-MODE-001"@,
        TeckelErrorCode::EOp001 => "E-OP-001"@,
        TeckelErrorCode::EOp002 => "E-OP-002"@,
        TeckelErrorCode::EList001 => "E-LIST-001"@,
        TeckelErrorCode::EEnum001 => "E-ENUM-001"@,
        TeckelErrorCode::ECol001 => "E-COL-001"@,
        TeckelErrorCode::EJoin001 => "E-JOIN-001"@,
        TeckelErrorCode::EAgg001 => "E-AGG-001"@,
        TeckelErrorCode::EExpr001 => "E-EXPR-001"@,
        TeckelErrorCode::ESchema001 => "E-SCHEMA-001"@,
        TeckelErrorCode::ESchema002 => "E-SCHEMA-002"@,
        TeckelErrorCode::ESchema003 => "E-SCHEMA-003"@,
        TeckelErrorCode::ESchema004 => "E-SCHEMA-004"@,
        TeckelErrorCode::EType001 => "E-TYPE-001"@,
        TeckelErrorCode::EIo001 => "E-IO-001"@,
        TeckelErrorCode::EIo002 => "E-IO-002"@,
        TeckelErrorCode::EVar001 => "E-VAR-001"@,
        TeckelErrorCode::ESecret001 => "E-SECRET-001"@,
        TeckelErrorCode::EHook001 => "E-HOOK-001"@,
        TeckelErrorCode::EComp001 => "E-COMP-001"@,
        TeckelErrorCode::EQuality001 => "E-QUALITY-001"@,
        TeckelErrorCode::EQuality002 => "E-QUALITY-002"@,
        TeckelErrorCode::EQuality003 => "E-QUALITY-003"@,
        TeckelErrorCode::EQuality004 => "E-QUALITY-004"@,
        TeckelErrorCode::EQuality005 => "E-QUALITY-005"@,
        TeckelErrorCode::EMeta001 => "E-META-001"@,
        TeckelErrorCode::EMeta002 => "E-META-002"@,
        TeckelErrorCode::EMeta003 => "E-META-003"@,
        TeckelErrorCode::EMeta004 => "E-META-004"@,
        TeckelErrorCode::EExpose001 => "E-EXPOSE-001"@,
        TeckelErrorCode::EExpose002 => "E-EXPOSE-002"@,
        TeckelErrorCode::EVersion001 => "E-VERSION-001"@,
    }
}

impl TeckelErrorCode {
    /// The textual form of the code, as written in error messages.
    pub fn as_str(&self) -> (r: &'static str)
        ensures
            r@ == code_text(*self),
    {
        match self {
            TeckelErrorCode::EReq001 => "E-REQ-001",
            TeckelErrorCode::EName001 => "E-NAME-001",
            TeckelErrorCode::EName002 => "E-NAME-002",
            TeckelErrorCode::EName003 => "E-NAME-003",
            TeckelErrorCode::ERef001 => "E-REF-001",
            TeckelErrorCode::ERef002 => "E-REF-002",
            TeckelErrorCode::ECycle001 => "E-CYCLE-001",
            TeckelErrorCode::EFmt001 => "E-FMT-001",
            TeckelErrorCode::EMode001 => "E-MODE-001",
            TeckelErrorCode::EOp001 => "E-OP-001",
            TeckelErrorCode::EOp002 => "E-OP-002",
            TeckelErrorCode::EList001 => "E-LIST-001",
            TeckelErrorCode::EEnum001 => "E-ENUM-001",
            TeckelErrorCode::ECol001 => "E-COL-001",
            TeckelErrorCode::EJoin001 => "E-JOIN-001",
            TeckelErrorCode::EAgg001 => "E-AGG-001",
            TeckelErrorCode::EExpr001 => "E-EXPR-001",
            TeckelErrorCode::ESchema001 => "E-SCHEMA-001",
            TeckelErrorCode::ESchema002 => "E-SCHEMA-002",
            TeckelErrorCode::ESchema003 => "E-SCHEMA-003",
            TeckelErrorCode::ESchema004 => "E-SCHEMA-004",
            TeckelErrorCode::EType001 => "E-TYPE-001",
            TeckelErrorCode::EIo001 => "E-IO-001",
            TeckelErrorCode::EIo002 => "E-IO-002",
            TeckelErrorCode::EVar001 => "E-VAR-001",
            TeckelErrorCode::ESecret001 => "E-SECRET-001",
            TeckelErrorCode::EHook001 => "E-HOOK-001",
            TeckelErrorCode::EComp001 => "E-COMP-001",
            TeckelErrorCode::EQuality001 => "E-QUALITY-001",
            TeckelErrorCode::EQuality002 => "E-QUALITY-002",
            TeckelErrorCode::EQuality003 => "E-QUALITY-003",
            TeckelErrorCode::EQuality004 => "E-QUALITY-004",
            TeckelErrorCode::EQuality005 => "E-QUALITY-005",
            TeckelErrorCode::EMeta001 => "E-META-001",
            TeckelErrorCode::EMeta002 => "E-META-002",
            TeckelErrorCode::EMeta003 => "E-META-003",
            TeckelErrorCode::EMeta004 => "E-META-004",
            TeckelErrorCode::EExpose001 => "E-EXPOSE-001",
            TeckelErrorCode::EExpose002 => "E-EXPOSE-002",
            TeckelErrorCode::EVersion001 => "E-VERSION-001",
        }
    }
}

/// Top-level error type of the library.
#[derive(Debug, PartialEq)]
pub enum TeckelError {
    /// A specification-defined error with its code and a message.
    Spec { code: TeckelErrorCode, message: String },
    /// The YAML text could not be read into a document.
    Yaml(String),
    /// An I/O failure, by its message.
    Io(String),
    /// Several validation errors collected in one pass.
    Validation { count: usize, errors: Vec<TeckelError> },
    /// A failure while running a pipeline.
    Execution(String),
}

/// Whether `e` is the specification error with `code` and `message`.
pub open spec fn is_spec_error(e: TeckelError, code: TeckelErrorCode, message: Seq<char>) -> bool {
    match e {
        TeckelError::Spec { code: c, message: m } => c == code && m@ == message,
        _ => false,
    }
}

/// The text that displays an error.
pub open spec fn error_text(e: TeckelError) -> Seq<char> {
    match e {
        TeckelError::Spec { code, message } => "["@ + code_text(code) + "] "@ + message@,
        TeckelError::Yaml(m) => "YAML parse error: "@ + m@,
        TeckelError::Io(m) => "I/O error: "@ + m@,
        TeckelError::Validation { count, .. } =>
            "Validation failed with "@ + crate::text::decimal_text(count as nat) + " error(s)"@,
        TeckelError::Execution(m) => "Execution error: "@ + m@,
    }
}

impl TeckelError {
    /// A specification error with the given code and message.
    pub fn spec(code: TeckelErrorCode, message: String) -> (r: TeckelError)
        ensures
            r == (TeckelError::Spec { code, message }),
    {
        TeckelError::Spec { code, message }
    }

    /// The text that displays this error: `[CODE] message` for specification errors.
    pub fn render(&self) -> (r: String)
        ensures
            r@ == error_text(*self),
    {
        let mut r = String::new();
        match self {
            TeckelError::Spec { code, message } => {
                push_str(&mut r, "[");
                push_str(&mut r, code.as_str());
                push_str(&mut r, "] ");
                push_str(&mut r, message.as_str());
            },
            TeckelError::Yaml(m) => {
                push_str(&mut r, "YAML parse error: ");
                push_str(&mut r, m.as_str());
            },
            TeckelError::Io(m) => {
                push_str(&mut r, "I/O error: ");
                push_str(&mut r, m.as_str());
            },
            TeckelError::Validation { count, .. } => {
                push_str(&mut r, "Validation failed with ");
                let d = decimal(*count as u64);
                push_str(&mut r, d.as_str());
                push_str(&mut r, " error(s)");
            },
            TeckelError::Execution(m) => {
                push_str(&mut r, "Execution error: ");
                push_str(&mut r, m.as_str());
            },
        }
        r
    }
}

} // verus!
