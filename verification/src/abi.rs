//! The decisions behind the C interface: the status code each outcome
//! maps to, and the check of a caller's options header.
use vstd::prelude::*;

use crate::error::QirToQasmError;
use crate::text::{push_str, push_usize, string_of};

verus! {

/// Success.
pub const STATUS_OK: i32 = 0;

/// The QIR text could not be parsed.
pub const STATUS_SYNTAX: i32 = 1;

/// The QIR holds an unsupported construct.
pub const STATUS_UNSUPPORTED: i32 = 2;

/// The entry point's control flow could not be structured.
pub const STATUS_UNSUPPORTED_CFG: i32 = 3;

/// An internal or unexpected failure.
pub const STATUS_INTERNAL: i32 = 4;

/// The status code of an error: one per kind.
pub open spec fn spec_status_code(e: QirToQasmError) -> i32 {
    match e {
        QirToQasmError::Syntax(_) => STATUS_SYNTAX,
        QirToQasmError::Unsupported(_) => STATUS_UNSUPPORTED,
        QirToQasmError::UnsupportedCfg(_) => STATUS_UNSUPPORTED_CFG,
        QirToQasmError::Internal(_) => STATUS_INTERNAL,
    }
}

/// The status code the C interface returns for an error.
pub fn status_code(e: &QirToQasmError) -> (r: i32)
    ensures
        r == spec_status_code(*e),
{
    match e {
        QirToQasmError::Syntax(_) => STATUS_SYNTAX,
        QirToQasmError::Unsupported(_) => STATUS_UNSUPPORTED,
        QirToQasmError::UnsupportedCfg(_) => STATUS_UNSUPPORTED_CFG,
        QirToQasmError::Internal(_) => STATUS_INTERNAL,
    }
}

/// The error for an options struct smaller than the first layout.
pub open spec fn small_struct_msg(size: nat, min: nat) -> Seq<char> {
    "qirtoqasm_options_t: struct_size "@ + crate::text::int_text(size as int) + " is smaller than the V1 layout ("@
        + crate::text::int_text(min as int) + " bytes); call qirtoqasm_options_init before use"@
}

/// The error for an options struct whose version is 0.
pub open spec fn zero_version_msg() -> Seq<char> {
    "qirtoqasm_options_t: struct_version is 0; call qirtoqasm_options_init before use"@
}

/// Check a caller's options header: its size must cover the first layout
/// (`min` bytes) and its version must be set.
pub fn check_options_header(struct_size: usize, struct_version: u32, min: usize) -> (r: Result<(), String>)
    ensures
        struct_size < min ==> (r matches Err(m) && m@ == small_struct_msg(struct_size as nat, min as nat)),
        struct_size >= min && struct_version == 0 ==> (r matches Err(m) && m@ == zero_version_msg()),
        struct_size >= min && struct_version != 0 ==> r is Ok,
{
    if struct_size < min {
        let mut m: Vec<char> = Vec::new();
        push_str(&mut m, "qirtoqasm_options_t: struct_size ");
        push_usize(&mut m, struct_size);
        push_str(&mut m, " is smaller than the V1 layout (");
        push_usize(&mut m, min);
        push_str(&mut m, " bytes); call qirtoqasm_options_init before use");
        return Err(string_of(&m));
    }
    if struct_version == 0 {
        let mut m: Vec<char> = Vec::new();
        push_str(&mut m, "qirtoqasm_options_t: struct_version is 0; call qirtoqasm_options_init before use");
        return Err(string_of(&m));
    }
    Ok(())
}

} // verus!
