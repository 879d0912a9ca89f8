use qirtoqasm_core::signatures::{
    canonicalize_type, extract_signatures, FunctionSignature, SignatureTable,
};

#[test]
fn canonicalizes_struct_and_primitive_types() {
    assert_eq!(canonicalize_type("%Qubit*").unwrap(), "Qubit");
    assert_eq!(canonicalize_type("%Result*").unwrap(), "Result");
    assert_eq!(canonicalize_type("%\"Qubit\"*").unwrap(), "Qubit");
    assert_eq!(canonicalize_type("%\"Qubit\"").unwrap(), "Qubit");
    assert_eq!(canonicalize_type("i1").unwrap(), "i1");
    assert_eq!(canonicalize_type("i32").unwrap(), "i32");
    assert_eq!(canonicalize_type("double").unwrap(), "double");
    assert_eq!(canonicalize_type("ptr").unwrap(), "ptr");
    assert_eq!(canonicalize_type("void").unwrap(), "void");
    assert!(canonicalize_type("").is_err());
}

#[test]
fn extracts_variadic_flag_from_trailing_ellipsis() {
    let src = "declare void @foo(%Qubit*, ...)\n";
    let t = extract_signatures(src).unwrap();
    let sig = t.get("foo").unwrap();
    assert!(sig.is_variadic);
    assert_eq!(sig.param_types, vec!["Qubit"]);
}

#[test]
fn function_signature_is_void_and_nonvoid() {
    let s = FunctionSignature {
        name: "f".into(),
        return_type: "void".into(),
        param_types: vec![],
        is_variadic: false,
    };
    assert!(s.is_void());
    let s2 = FunctionSignature {
        name: "g".into(),
        return_type: "i1".into(),
        param_types: vec![],
        is_variadic: false,
    };
    assert!(!s2.is_void());
}

#[test]
fn canonicalize_type_empty_errors() {
    let err = canonicalize_type("").unwrap_err();
    assert!(err.message().contains("empty type token"));
}

#[test]
fn canonicalize_type_rejects_bogus_bare() {
    let err = canonicalize_type("@@@bogus").unwrap_err();
    assert!(err.message().contains("could not parse parameter type"));
}

#[test]
fn canonicalize_type_rejects_bogus_percent() {
    let err = canonicalize_type("%1badident").unwrap_err();
    assert!(err.message().contains("could not parse parameter type"));
}

#[test]
fn canonicalize_type_accepts_fp128_and_bfloat() {
    assert_eq!(canonicalize_type("fp128").unwrap(), "fp128");
    assert_eq!(canonicalize_type("bfloat").unwrap(), "bfloat");
}

#[test]
fn empty_parameter_in_list_errors() {
    let err = extract_signatures("declare void @foo(,)").unwrap_err();
    assert!(err.message().contains("empty parameter in signature"));
}

#[test]
fn param_with_no_type_token_errors() {
    let err = extract_signatures("declare void @foo(writeonly)").unwrap_err();
    assert!(err.message().contains("could not parse parameter type"));
}

#[test]
fn rejects_nonterminal_ellipsis() {
    let src = "declare void @foo(..., %Qubit*)\n";
    let err = extract_signatures(src).unwrap_err();
    assert!(
        err.message()
            .contains("unexpected '...' in non-terminal position"),
        "{err:?}"
    );
}

#[test]
fn parses_define_signature_with_linkage_attrs() {
    let src = "define dso_local void @pkg.foo() local_unnamed_addr {\n}\n";
    let t = extract_signatures(src).unwrap();
    let sig = t.get("pkg.foo").unwrap();
    assert_eq!(sig.return_type, "void");
    assert!(sig.param_types.is_empty());
    assert!(!sig.is_variadic);
}

#[test]
fn parses_quoted_function_name() {
    let src = "define void @\"my.qualified::fn\"(%Qubit*) {\n}\n";
    let t = extract_signatures(src).unwrap();
    assert!(t.contains("my.qualified::fn"));
}

#[test]
fn parses_multiple_declares() {
    let src = "\
declare void @__quantum__qis__h__body(%Qubit*)
declare i1 @__quantum__qis__read_result__body(%Result*)
declare void @__quantum__qis__cnot__body(%Qubit*, %Qubit*)
";
    let t = extract_signatures(src).unwrap();
    assert_eq!(t.len(), 3);
    assert_eq!(
        t.get("__quantum__qis__h__body").unwrap().param_types,
        vec!["Qubit"]
    );
    assert_eq!(
        t.get("__quantum__qis__read_result__body")
            .unwrap()
            .return_type,
        "i1"
    );
}

#[test]
fn iter_lists_signatures_in_source_order() {
    let src = "declare void @b()\ndeclare void @a()\n";
    let t = extract_signatures(src).unwrap();
    let names: Vec<&str> = t.iter().iter().map(|s| s.name.as_str()).collect();
    assert_eq!(names, vec!["b", "a"]);
}

#[test]
fn default_and_accessor_coverage() {
    let t = SignatureTable::default();
    assert!(t.is_empty());
    assert_eq!(t.len(), 0);
    assert!(!t.contains("foo"));
    assert!(t.get("foo").is_none());
    assert!(t.iter().iter().next().is_none());
}

#[test]
fn signature_line_missing_at_errors() {
    let err = extract_signatures("declare void foo(i32)").unwrap_err();
    assert!(err.message().contains("could not parse signature line"));
}

#[test]
fn signature_line_with_unterminated_quoted_name_errors() {
    let err = extract_signatures("declare void @\"unterminated(i32)").unwrap_err();
    assert!(err.message().contains("unterminated quoted name"));
}

#[test]
fn signature_line_missing_paren_errors() {
    let err = extract_signatures("declare void @foo").unwrap_err();
    assert!(err.message().contains("signature missing"));
}

#[test]
fn signature_line_missing_name_token_errors() {
    let err = extract_signatures("declare void @").unwrap_err();
    assert!(err.message().contains("could not parse signature line"));
}

#[test]
fn signature_hash_and_equality_roundtrip() {
    let a = FunctionSignature {
        name: "f".into(),
        return_type: "void".into(),
        param_types: vec!["i32".into()],
        is_variadic: false,
    };
    let b = a.clone();
    let mut set = std::collections::HashSet::new();
    set.insert(a);
    assert!(set.contains(&b));
}

#[test]
fn malformed_declare_line_raises_parse_error() {
    let err = extract_signatures("declare").unwrap_err();
    assert!(err.message().contains("could not parse signature line"));
}

#[test]
fn param_list_invalid_struct_identifier_errors() {
    let err = extract_signatures("declare void @f(%)").unwrap_err();
    assert!(err.message().contains("could not parse parameter type"));
}

#[test]
fn parses_struct_return_type() {
    let src =
        "define { i1*, i64 } @__nvqpp__mlirgen__kernel() #0 {\n  ret { i1*, i64 } undef\n}\n";
    let t = extract_signatures(src).unwrap();
    let sig = t.get("__nvqpp__mlirgen__kernel").unwrap();
    assert_eq!(sig.return_type, "struct");
    assert!(!sig.is_void());
}

#[test]
fn unclosed_struct_return_type_errors() {
    let src = "define { i1*, i64 @broken() {\n}\n";
    let err = extract_signatures(src).unwrap_err();
    assert!(err.message().contains("unclosed struct return type"));
}

#[test]
fn extract_signatures_requires_word_boundary_after_declare_or_define() {
    let src = "declareSomething = something\n\
               defineFoo bar baz\n\
               declare void @real()\n";
    let t = extract_signatures(src).unwrap();
    assert_eq!(t.len(), 1);
    assert!(t.contains("real"));
}

#[test]
fn extract_signatures_handles_nested_struct_return_type() {
    let src = "declare { { i1 }, i64 } @nested()\n";
    let t = extract_signatures(src).unwrap();
    let sig = t.get("nested").unwrap();
    assert_eq!(sig.return_type, "struct");
}

#[test]
fn extract_signatures_handles_nested_struct_parameter_type() {
    let src = "declare void @nested_param({ { i1 }, i64 } %0)\n";
    let t = extract_signatures(src).unwrap();
    let sig = t.get("nested_param").unwrap();
    assert_eq!(sig.param_types, vec!["struct"]);
}

#[test]
fn canonicalize_type_collapses_pointer_primitive_to_primitive() {
    assert_eq!(canonicalize_type("i32").unwrap(), "i32");
    assert_eq!(canonicalize_type("i32*").unwrap(), "i32");
    assert_eq!(canonicalize_type("i64*").unwrap(), "i64");
    assert_eq!(canonicalize_type("double").unwrap(), "double");
    assert_eq!(canonicalize_type("double*").unwrap(), "double");
    assert_eq!(canonicalize_type("float*").unwrap(), "float");
}
