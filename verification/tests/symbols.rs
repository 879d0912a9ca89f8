use qirtoqasm_core::ir::{FloatLit, Operand};
use qirtoqasm_core::oq3::ast::Expression;
use qirtoqasm_core::symbols::{ssa_key, SymbolTable};

#[test]
fn record_qubit_tracks_max() {
    let mut s = SymbolTable::new();
    s.record_qubit(0);
    s.record_qubit(2);
    s.record_qubit(1);
    assert_eq!(s.max_qubit_index, 2);
}

#[test]
fn record_result_tracks_max() {
    let mut s = SymbolTable::new();
    s.record_result(3);
    assert_eq!(s.max_result_index, 3);
}

#[test]
fn ssa_key_prefers_name_when_non_empty() {
    assert_eq!(ssa_key("cond", "  %cond = ..."), "cond");
}

#[test]
fn ssa_key_parses_numeric_label_from_text_when_name_empty() {
    assert_eq!(ssa_key("", "  %1 = call i1 @foo()"), "1");
    assert_eq!(ssa_key("", "  %42 = call ptr @bar()"), "42");
}

#[test]
fn ssa_key_parses_named_label_from_text_when_name_empty() {
    assert_eq!(ssa_key("", "%tmp.1 = icmp eq i1 %a, %b"), "tmp.1");
}

#[test]
fn ssa_key_falls_back_to_text_when_no_percent_token() {
    assert_eq!(ssa_key("", "no percent here"), "no percent here");
}

#[test]
fn lookup_ssa_missing_key_errors_with_pinned_substring() {
    let s = SymbolTable::new();
    let err = s.lookup_ssa("x").unwrap_err();
    assert!(
        err.message().contains("is used but was never bound"),
        "unexpected error: {err:?}"
    );
}

#[test]
fn record_and_lookup_round_trip() {
    let mut s = SymbolTable::new();
    s.record_ssa("cond", Expression::Integer(1));
    assert_eq!(s.lookup_ssa("cond").unwrap(), Expression::Integer(1));
}

#[test]
fn record_again_replaces_binding() {
    let mut s = SymbolTable::new();
    s.record_ssa("cond", Expression::Integer(1));
    s.record_ssa("other", Expression::Boolean(true));
    s.record_ssa("cond", Expression::Integer(2));
    assert_eq!(s.lookup_ssa("cond").unwrap(), Expression::Integer(2));
    assert_eq!(s.lookup_ssa("other").unwrap(), Expression::Boolean(true));
}

#[test]
fn symbol_table_default_matches_new() {
    let s = SymbolTable::default();
    assert_eq!(s.max_qubit_index, 0);
    let s = SymbolTable::new();
    assert_eq!(s.max_qubit_index, -1);
    assert_eq!(s.max_result_index, -1);
}

#[test]
fn record_qubit_does_not_regress_on_smaller_index() {
    let mut s = SymbolTable::new();
    s.record_qubit(5);
    s.record_qubit(2);
    assert_eq!(s.max_qubit_index, 5);
}

#[test]
fn record_result_does_not_regress_on_smaller_index() {
    let mut s = SymbolTable::new();
    s.record_result(5);
    s.record_result(2);
    assert_eq!(s.max_result_index, 5);
}

#[test]
fn ssa_key_handles_special_chars_in_identifier() {
    assert_eq!(ssa_key("", "%tmp.1 = ..."), "tmp.1");
    assert_eq!(ssa_key("", "%a.b.c = ..."), "a.b.c");
    assert_eq!(ssa_key("", "%a_b = ..."), "a_b");
    assert_eq!(ssa_key("", "%$global = ..."), "$global");
}

#[test]
fn ssa_key_handles_percent_with_no_valid_ident_after() {
    let out = ssa_key("", "% bad");
    assert_eq!(out, "% bad");
}

#[test]
fn load_after_store_through_alloca_reads_the_constant() {
    let mut s = SymbolTable::new();
    s.record_alloca("slot");
    s.store_to_alloca_slot("slot", Operand::ConstInt(7));
    assert_eq!(s.load_from_alloca_slot("slot"), Some(Expression::Integer(7)));
    s.store_to_alloca_slot("slot", Operand::ConstBool(true));
    assert_eq!(s.load_from_alloca_slot("slot"), Some(Expression::Boolean(true)));
}

#[test]
fn load_through_alias_chain_sees_offset_slot() {
    let mut s = SymbolTable::new();
    s.record_alloca("arr");
    s.record_alias("p1", "arr", 1);
    s.record_alias("p1b", "p1", 0);
    s.store_to_alloca_slot("p1b", Operand::ConstFloat(FloatLit::Bits(2.5f64.to_bits())));
    assert_eq!(
        s.load_from_alloca_slot("p1"),
        Some(Expression::Float(FloatLit::Bits(2.5f64.to_bits())))
    );
    assert_eq!(s.load_from_alloca_slot("arr"), None);
}

#[test]
fn store_to_untracked_pointer_is_ignored() {
    let mut s = SymbolTable::new();
    s.store_to_alloca_slot("nowhere", Operand::ConstInt(1));
    assert_eq!(s.load_from_alloca_slot("nowhere"), None);
}

#[test]
fn load_of_wide_constant_is_none() {
    let mut s = SymbolTable::new();
    s.record_alloca("slot");
    s.store_to_alloca_slot("slot", Operand::ConstInt(i128::from(i64::MAX) + 1));
    assert_eq!(s.load_from_alloca_slot("slot"), None);
}

#[test]
fn alias_offset_fits_guards_overflow() {
    let mut s = SymbolTable::new();
    s.record_alloca("arr");
    s.record_alias("p", "arr", u64::MAX);
    assert!(!s.alias_offset_fits("p", 1));
    assert!(s.alias_offset_fits("p", 0));
    assert!(s.alias_offset_fits("untracked", u64::MAX));
}

#[test]
fn ssa_key_skips_a_percent_not_followed_by_an_identifier() {
    assert_eq!(ssa_key("", "% bad %x"), "x");
    assert_eq!(ssa_key("", "no token % here"), "no token % here");
    assert_eq!(ssa_key("", "add %tmp.1, 2"), "tmp.1");
}
