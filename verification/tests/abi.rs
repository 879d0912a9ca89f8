use qirtoqasm_core::abi::{
    check_options_header, status_code, STATUS_INTERNAL, STATUS_SYNTAX, STATUS_UNSUPPORTED,
    STATUS_UNSUPPORTED_CFG,
};
use qirtoqasm_core::QirToQasmError;

#[test]
fn status_code_is_one_per_error_kind() {
    assert_eq!(status_code(&QirToQasmError::Syntax("a".into())), STATUS_SYNTAX);
    assert_eq!(status_code(&QirToQasmError::Unsupported("a".into())), STATUS_UNSUPPORTED);
    assert_eq!(status_code(&QirToQasmError::UnsupportedCfg("a".into())), STATUS_UNSUPPORTED_CFG);
    assert_eq!(status_code(&QirToQasmError::Internal("a".into())), STATUS_INTERNAL);
}

#[test]
fn options_header_with_zero_size_is_refused() {
    let err = check_options_header(0, 1, 16).unwrap_err();
    assert_eq!(
        err,
        "qirtoqasm_options_t: struct_size 0 is smaller than the V1 layout (16 bytes); call qirtoqasm_options_init before use"
    );
}

#[test]
fn options_header_with_zero_version_is_refused() {
    let err = check_options_header(16, 0, 16).unwrap_err();
    assert_eq!(
        err,
        "qirtoqasm_options_t: struct_version is 0; call qirtoqasm_options_init before use"
    );
}

#[test]
fn options_header_initialized_is_accepted() {
    assert!(check_options_header(16, 1, 16).is_ok());
}
