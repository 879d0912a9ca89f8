use qirtoqasm_core::QirToQasmError;

#[test]
fn display_strips_variant_prefix_except_internal() {
    assert_eq!(QirToQasmError::Syntax("oops".into()).message(), "oops");
    assert_eq!(
        QirToQasmError::Unsupported("not yet".into()).message(),
        "not yet"
    );
    assert_eq!(
        QirToQasmError::UnsupportedCfg("weird cfg".into()).message(),
        "weird cfg"
    );
    assert_eq!(
        QirToQasmError::Internal("bug".into()).message(),
        "internal error: bug"
    );
}

#[test]
fn constructors_wrap_strings() {
    assert_eq!(
        QirToQasmError::syntax("x"),
        QirToQasmError::Syntax("x".into())
    );
    assert_eq!(
        QirToQasmError::unsupported("x"),
        QirToQasmError::Unsupported("x".into())
    );
    assert_eq!(
        QirToQasmError::unsupported_cfg("x"),
        QirToQasmError::UnsupportedCfg("x".into())
    );
    assert_eq!(
        QirToQasmError::internal("x"),
        QirToQasmError::Internal("x".into())
    );
}
