use qirtoqasm_core::ir::parser_util::{
    is_valid_llvm_ident, matching_close_paren, parse_global_name, split_top_level_commas,
};

#[test]
fn matching_close_paren_handles_simple_and_nested() {
    assert_eq!(matching_close_paren("()"), Some(1));
    assert_eq!(matching_close_paren("(a)"), Some(2));
    assert_eq!(matching_close_paren("(())"), Some(3));
    assert_eq!(matching_close_paren("(a, (b, c))"), Some(10));
}

#[test]
fn matching_close_paren_unbalanced_returns_none() {
    assert!(matching_close_paren("(").is_none());
    assert!(matching_close_paren("(a, b").is_none());
    assert!(matching_close_paren("(a, (b, c)").is_none());
}

#[test]
fn split_top_level_commas_respects_every_bracket_kind() {
    assert_eq!(
        split_top_level_commas("a, b, c").unwrap(),
        vec!["a", "b", "c"]
    );
    assert_eq!(
        split_top_level_commas("a, (b, c), d").unwrap(),
        vec!["a", "(b, c)", "d"]
    );
    assert_eq!(
        split_top_level_commas("a, [b, c], d").unwrap(),
        vec!["a", "[b, c]", "d"]
    );
    assert_eq!(
        split_top_level_commas("a, {b, c}, d").unwrap(),
        vec!["a", "{b, c}", "d"]
    );
    assert_eq!(
        split_top_level_commas("a, <b, c>, d").unwrap(),
        vec!["a", "<b, c>", "d"]
    );
}

#[test]
fn split_top_level_commas_trims_chunks_and_handles_empty() {
    assert_eq!(split_top_level_commas("").unwrap(), vec![""]);
    assert_eq!(
        split_top_level_commas("  a  ,  b  ").unwrap(),
        vec!["a", "b"]
    );
}

#[test]
fn split_top_level_commas_rejects_unbalanced_closing_bracket() {
    assert!(split_top_level_commas("a}, b").is_err());
    assert!(split_top_level_commas(")").is_err());
    assert!(split_top_level_commas("a, b, c]").is_err());
}

#[test]
fn split_top_level_commas_unbalanced_error_names_the_bracket() {
    let err = split_top_level_commas("a}, b").unwrap_err();
    assert!(err.message().contains("unbalanced closing bracket"), "{err:?}");
}

#[test]
fn parse_global_name_handles_bare_form() {
    let (name, rest) = parse_global_name("@foo bar").unwrap();
    assert_eq!(name, "foo");
    assert_eq!(rest, " bar");
}

#[test]
fn parse_global_name_handles_quoted_form() {
    let (name, rest) = parse_global_name("@\"qualified.name\" rest").unwrap();
    assert_eq!(name, "qualified.name");
    assert_eq!(rest, " rest");
}

#[test]
fn parse_global_name_skips_leading_whitespace() {
    let (name, _rest) = parse_global_name("   @foo").unwrap();
    assert_eq!(name, "foo");
}

#[test]
fn parse_global_name_rejects_invalid_inputs() {
    assert!(parse_global_name("foo").is_none());
    assert!(parse_global_name("@\"unterminated").is_none());
    assert!(parse_global_name("@@@").is_none());
}

#[test]
fn is_valid_llvm_ident_accepts_letters_digits_punctuation() {
    assert!(is_valid_llvm_ident("foo"));
    assert!(is_valid_llvm_ident("Foo_bar"));
    assert!(is_valid_llvm_ident(".foo$bar"));
    assert!(is_valid_llvm_ident("_x"));
    assert!(is_valid_llvm_ident("a.b.c"));
}

#[test]
fn is_valid_llvm_ident_rejects_invalid_inputs() {
    assert!(!is_valid_llvm_ident(""));
    assert!(!is_valid_llvm_ident("1foo"));
    assert!(!is_valid_llvm_ident("foo bar"));
    assert!(!is_valid_llvm_ident("foo!"));
}
