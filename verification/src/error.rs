//! Error type used by every module of the library.
use vstd::prelude::*;

use crate::text::{owned, push_str, push_string, string_of};

verus! {

/// Every error the translator may surface.
///
/// The variant determines which error class a binding raises and which
/// status code a C caller sees.
#[derive(Debug, Clone, PartialEq, Eq)]
pub enum QirToQasmError {
    /// Parse-time failure on QIR source text.
    Syntax(String),
    /// A QIR construct with no supported lowering.
    Unsupported(String),
    /// Entry-point control-flow graph could not be reduced to structured OQ3.
    UnsupportedCfg(String),
    /// Unexpected internal failure.
    Internal(String),
}

/// An error as plain text: its variant and its message.
pub enum ErrView {
    Syntax(Seq<char>),
    Unsupported(Seq<char>),
    UnsupportedCfg(Seq<char>),
    Internal(Seq<char>),
}

/// The view of an error.
pub open spec fn err_view(e: QirToQasmError) -> ErrView {
    match e {
        QirToQasmError::Syntax(m) => ErrView::Syntax(m@),
        QirToQasmError::Unsupported(m) => ErrView::Unsupported(m@),
        QirToQasmError::UnsupportedCfg(m) => ErrView::UnsupportedCfg(m@),
        QirToQasmError::Internal(m) => ErrView::Internal(m@),
    }
}

/// The view of a result whose success value has the view `f`.
pub open spec fn res_view<T, V>(r: core::result::Result<T, QirToQasmError>, f: spec_fn(T) -> V) -> core::result::Result<V, ErrView> {
    match r {
        Ok(t) => Ok(f(t)),
        Err(e) => Err(err_view(e)),
    }
}

/// `Result<T>` specialized to [`QirToQasmError`].
pub type Result<T> = core::result::Result<T, QirToQasmError>;

impl QirToQasmError {
    /// The message carried by the error, whatever its variant.
    pub open spec fn payload(self) -> Seq<char> {
        match self {
            QirToQasmError::Syntax(m) => m@,
            QirToQasmError::Unsupported(m) => m@,
            QirToQasmError::UnsupportedCfg(m) => m@,
            QirToQasmError::Internal(m) => m@,
        }
    }

    /// The displayed text: the message itself, with `internal error: `
    /// in front for internal failures.
    pub open spec fn display_text(self) -> Seq<char> {
        match self {
            QirToQasmError::Internal(m) => "internal error: "@ + m@,
            _ => self.payload(),
        }
    }

    /// Construct a syntax error.
    pub fn syntax(msg: &str) -> (r: Self)
        ensures
            r is Syntax,
            r.payload() == msg@,
    {
        QirToQasmError::Syntax(owned(msg))
    }

    /// Construct an unsupported-construct error.
    pub fn unsupported(msg: &str) -> (r: Self)
        ensures
            r is Unsupported,
            r.payload() == msg@,
    {
        QirToQasmError::Unsupported(owned(msg))
    }

    /// Construct an unsupported-CFG error.
    pub fn unsupported_cfg(msg: &str) -> (r: Self)
        ensures
            r is UnsupportedCfg,
            r.payload() == msg@,
    {
        QirToQasmError::UnsupportedCfg(owned(msg))
    }

    /// Construct an internal error.
    pub fn internal(msg: &str) -> (r: Self)
        ensures
            r is Internal,
            r.payload() == msg@,
    {
        QirToQasmError::Internal(owned(msg))
    }

    /// The text a user sees for this error.
    pub fn message(&self) -> (r: String)
        ensures
            r@ == self.display_text(),
    {
        match self {
            QirToQasmError::Internal(m) => {
                let mut v: Vec<char> = Vec::new();
                push_str(&mut v, "internal error: ");
                push_string(&mut v, m);
                string_of(&v)
            },
            QirToQasmError::Syntax(m) => m.clone(),
            QirToQasmError::Unsupported(m) => m.clone(),
            QirToQasmError::UnsupportedCfg(m) => m.clone(),
        }
    }
}

/// A syntax error carrying the characters `m`.
pub fn syntax_err(m: &[char]) -> (r: QirToQasmError)
    ensures
        r is Syntax,
        r.payload() == m@,
{
    QirToQasmError::Syntax(string_of(m))
}

/// An unsupported-construct error carrying the characters `m`.
pub fn unsupported_err(m: &[char]) -> (r: QirToQasmError)
    ensures
        r is Unsupported,
        r.payload() == m@,
{
    QirToQasmError::Unsupported(string_of(m))
}

/// An unsupported-CFG error carrying the characters `m`.
pub fn unsupported_cfg_err(m: &[char]) -> (r: QirToQasmError)
    ensures
        r is UnsupportedCfg,
        r.payload() == m@,
{
    QirToQasmError::UnsupportedCfg(string_of(m))
}

} // verus!
