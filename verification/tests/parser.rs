use qirtoqasm_core::ir::parser::{
    effective_opcode, extract_fn_name_from_header, is_assignment_prefix, parse_post_sig_attrs, paren_depth, parse_attribute_group,
    parse_float_literal, parse_instruction_line, parse_inttoptr, parse_module, parse_operand,
    parse_operand_list, parse_struct_ptr_type, split_u32, strip_call_prefix_qualifiers,
    try_parse_label_line,
};
use qirtoqasm_core::ir::parser_util::parse_global_name;
use qirtoqasm_core::ir::{BrCondOperand, FloatLit, Instruction, Operand};

fn float_value(f: &FloatLit) -> f64 {
    match f {
        FloatLit::Bits(b) => f64::from_bits(*b),
        FloatLit::Decimal(s) => s.parse().unwrap(),
    }
}

fn float_of(s: &str) -> Option<f64> {
    parse_float_literal(s).map(|f| float_value(&f))
}

#[test]
fn split_u32_rejects_non_digit_prefix() {
    let (n, rest) = split_u32("abc");
    assert!(n.is_none());
    assert_eq!(rest, "abc");
}

#[test]
fn split_u32_takes_leading_digits() {
    let (n, rest) = split_u32("42 = { }");
    assert_eq!(n, Some(42));
    assert_eq!(rest, " = { }");
}

#[test]
fn parse_attribute_group_handles_braces() {
    let (id, body) = parse_attribute_group(" #7 = { \"entry_point\" }").unwrap();
    assert_eq!(id, 7);
    assert!(body.contains("entry_point"));
    assert!(parse_attribute_group("not an attribute group").is_none());
    assert!(parse_attribute_group(" #bad = { ").is_none());
}

#[test]
fn try_parse_label_line_tolerates_edge_cases() {
    assert_eq!(try_parse_label_line("entry:").as_deref(), Some("entry"));
    assert_eq!(
        try_parse_label_line("entry: ; preds = %0").as_deref(),
        Some("entry")
    );
    assert!(try_parse_label_line(":").is_none());
    assert!(try_parse_label_line("not a label").is_none());
    assert!(try_parse_label_line("with space:").is_none());
    assert!(try_parse_label_line("bad@chars:").is_none());
}

#[test]
fn try_parse_label_line_accepts_quoted_numeric_llvm15_form() {
    assert_eq!(try_parse_label_line("\"0\":").as_deref(), Some("0"));
    assert_eq!(
        try_parse_label_line("\"42\": ; preds = %entry").as_deref(),
        Some("42")
    );
    assert!(try_parse_label_line("\"\":").is_none());
}

#[test]
fn parse_global_name_bare_and_quoted() {
    let (n, _) = parse_global_name("@foo(...)").unwrap();
    assert_eq!(n, "foo");
    let (n, _) = parse_global_name("@\"quoted\"(...)").unwrap();
    assert_eq!(n, "quoted");
    assert!(parse_global_name("no at prefix").is_none());
    assert!(parse_global_name("@\"unterminated").is_none());
    assert!(parse_global_name("@").is_none());
}

#[test]
fn parse_instruction_line_handles_assignment_form() {
    let out = parse_instruction_line("%x = call i1 @read()").unwrap();
    let Instruction::Call { result, .. } = out else {
        panic!()
    };
    assert_eq!(result.as_deref(), Some("x"));
}

#[test]
fn parse_instruction_line_skips_leading_qualifiers() {
    let out =
        parse_instruction_line("tail call void @__quantum__qis__h__body(%Qubit* null)").unwrap();
    let Instruction::Call { callee, .. } = out else {
        panic!()
    };
    assert_eq!(callee, "__quantum__qis__h__body");
}

#[test]
fn parses_operand_list_with_typed_pointer_and_opaque_pointer() {
    let ops = parse_operand_list("%Qubit* null, %Result* inttoptr (i64 1 to %Result*)").unwrap();
    assert_eq!(ops.len(), 2);
    let Operand::PtrConst { struct_name, index } = &ops[0] else {
        panic!("wrong operand: {:?}", ops[0])
    };
    assert_eq!(struct_name.as_deref(), Some("Qubit"));
    assert_eq!(*index, 0);
    let Operand::PtrConst { struct_name, index } = &ops[1] else {
        panic!("wrong operand: {:?}", ops[1])
    };
    assert_eq!(struct_name.as_deref(), Some("Result"));
    assert_eq!(*index, 1);

    let ops = parse_operand_list("ptr null, ptr inttoptr (i64 2 to ptr)").unwrap();
    let Operand::PtrConst { struct_name, .. } = &ops[0] else {
        panic!()
    };
    assert!(struct_name.is_none());
    let Operand::PtrConst { index, .. } = &ops[1] else {
        panic!()
    };
    assert_eq!(*index, 2);
}

#[test]
fn parses_hex_float_to_exact_ieee754() {
    let v = float_of("0x3FF921FB54442D18").unwrap();
    assert_eq!(v, std::f64::consts::FRAC_PI_2);
}

#[test]
fn parses_br_unconditional_and_conditional() {
    let Instruction::Br { target } = parse_instruction_line("br label %exit").unwrap() else {
        panic!()
    };
    assert_eq!(target, "exit");
    let Instruction::BrCond {
        cond,
        true_target,
        false_target,
    } = parse_instruction_line("br i1 %cond, label %t, label %f").unwrap()
    else {
        panic!("expected BrCond")
    };
    let BrCondOperand::Ssa(id) = &cond else {
        panic!("expected Ssa cond, got {cond:?}")
    };
    assert_eq!(id, "cond");
    assert_eq!(true_target, "t");
    assert_eq!(false_target, "f");

    let Instruction::BrCond { cond, .. } =
        parse_instruction_line("br i1 0, label %t, label %f").unwrap()
    else {
        panic!()
    };
    let BrCondOperand::Const(b) = cond else {
        panic!("expected Const cond, got {cond:?}")
    };
    assert!(!b);
}

#[test]
fn parses_zext_i1_to_integer() {
    let Instruction::Zext { result, src } =
        parse_instruction_line("%1 = zext i1 %0 to i32").unwrap()
    else {
        panic!("expected Zext")
    };
    assert_eq!(result, "1");
    assert_eq!(src, "0");
}

#[test]
fn ignores_insertvalue_and_extractvalue() {
    for op in ["insertvalue", "extractvalue"] {
        let line = format!("%x = {op} {{ i1*, i64 }} undef, i64 2, 1");
        let Instruction::Ignored { opcode } = parse_instruction_line(&line).unwrap() else {
            panic!("{op} did not become Ignored")
        };
        assert_eq!(opcode, op);
    }
}

#[test]
fn unknown_opcode_becomes_unsupported() {
    let Instruction::Unsupported { opcode } =
        parse_instruction_line("%x = fadd double 0.0, 0.0").unwrap()
    else {
        panic!()
    };
    assert_eq!(opcode, "fadd");
}

#[test]
fn parse_br_errors_on_unknown_shape() {
    let err = parse_instruction_line("br something weird").unwrap_err();
    assert!(err.message().contains("unsupported br form"));
}

#[test]
fn parse_br_label_missing_percent_errors() {
    let err = parse_instruction_line("br label exit").unwrap_err();
    assert!(err.message().contains("br label missing"));
}

#[test]
fn parse_br_cond_rejects_weird_constant() {
    let err = parse_instruction_line("br i1 maybe, label %t, label %f").unwrap_err();
    assert!(err.message().contains("unsupported constant branch condition"));
}

#[test]
fn parse_br_cond_rejects_non_label_target() {
    let err = parse_instruction_line("br i1 %c, label %t, something_else").unwrap_err();
    assert!(err.message().contains("expected 'label %name'"));
}

#[test]
fn parse_br_cond_wrong_arity_errors() {
    let err = parse_instruction_line("br i1 %c, label %t").unwrap_err();
    assert!(err.message().contains("cond, true_label, false_label"));
}

#[test]
fn parse_operand_chunks() {
    let ops = parse_operand_list("").unwrap();
    assert!(ops.is_empty());
    let err = parse_operand("...").unwrap_err();
    assert!(err.message().contains("unexpected ..."));
}

#[test]
fn parse_operand_handles_getelementptr() {
    let op =
        parse_operand("i8* getelementptr inbounds ([2 x i8], [2 x i8]* @0, i64 0, i64 0)").unwrap();
    assert!(matches!(op, Operand::GetElementPtr));
}

#[test]
fn parse_operand_accepts_boolean_in_i1_form() {
    let Operand::ConstBool(b) = parse_operand("i1 true").unwrap() else {
        panic!()
    };
    assert!(b);
    let Operand::ConstBool(b) = parse_operand("i1 false").unwrap() else {
        panic!()
    };
    assert!(!b);
    let Operand::Ssa(id) = parse_operand("i1 %x").unwrap() else {
        panic!()
    };
    assert_eq!(id, "x");
}

#[test]
fn parse_operand_integer_global_ref() {
    let Operand::GlobalRef(name) = parse_operand("i32 @g").unwrap() else {
        panic!()
    };
    assert_eq!(name, "g");
}

#[test]
fn parse_operand_i8_null_is_distinct() {
    assert!(matches!(parse_operand("i8* null").unwrap(), Operand::I8Null));
}

#[test]
fn parse_operand_rejects_unknown_type() {
    let err = parse_operand("weird_t %x").unwrap_err();
    assert!(err.message().contains("unsupported operand type"));
}

#[test]
fn parse_operand_float_ssa() {
    let Operand::Ssa(id) = parse_operand("double %x").unwrap() else {
        panic!()
    };
    assert_eq!(id, "x");
}

#[test]
fn parse_operand_pointer_ssa_and_global() {
    let Operand::Ssa(id) = parse_operand("%Qubit* %x").unwrap() else {
        panic!()
    };
    assert_eq!(id, "x");
    let Operand::GlobalRef(g) = parse_operand("ptr @g").unwrap() else {
        panic!()
    };
    assert_eq!(g, "g");
}

#[test]
fn parse_operand_rejects_unparseable_int() {
    let err = parse_operand("i32 not_a_number").unwrap_err();
    assert!(err.message().contains("could not parse integer operand"));
}

#[test]
fn parse_operand_rejects_unparseable_float() {
    let err = parse_operand("double garbage").unwrap_err();
    assert!(err.message().contains("could not parse float operand"));
}

#[test]
fn parse_operand_decimal_float_keeps_its_value() {
    let Operand::ConstFloat(f) = parse_operand("double 5.000000e-01").unwrap() else {
        panic!()
    };
    assert_eq!(float_value(&f), 0.5);
}

#[test]
fn parse_float_literal_rejects_malformed_hex() {
    assert!(parse_float_literal("0xDEADBEEF").is_none());
    assert!(parse_float_literal("0xGARBAGE12345678").is_none());
}

#[test]
fn parse_float_literal_accepts_negative_hex() {
    assert_eq!(float_of("-0x3FF0000000000000"), Some(-1.0));
    assert!(parse_float_literal("-0xDEADBEEF").is_none());
    assert!(parse_float_literal("-0xGARBAGE12345678").is_none());
}

#[test]
fn parse_inttoptr_handles_negative_and_missing_parts() {
    assert_eq!(parse_inttoptr("inttoptr (i64 5 to ptr)"), Some(5));
    assert_eq!(parse_inttoptr("inttoptr (i64 -3 to ptr)"), Some(-3));
    assert_eq!(
        parse_inttoptr("inttoptr (i64 -9223372036854775808 to ptr)"),
        Some(i64::MIN)
    );
    assert!(parse_inttoptr("something else").is_none());
    assert!(parse_inttoptr("inttoptr (i64 not-a-number to ptr)").is_none());
}

#[test]
fn paren_depth_sums_correctly() {
    assert_eq!(paren_depth("()"), 0);
    assert_eq!(paren_depth("(()"), 1);
    assert_eq!(paren_depth("())"), -1);
    assert_eq!(paren_depth("[]"), 0);
    assert_eq!(paren_depth("(["), 2);
}

#[test]
fn module_with_no_functions_parses_ok() {
    let m = parse_module("; just a comment\n").unwrap();
    assert!(m.functions.is_empty());
    assert!(m.entry_point().is_none());
}

#[test]
fn attributes_group_reference_resolves_entry_point() {
    let src = "\
define void @main() #0 {
  ret void
}
attributes #0 = { \"entry_point\" }
";
    let m = parse_module(src).unwrap();
    assert!(m.entry_point().is_some());
}

#[test]
fn declare_with_attribute_group_ref_is_not_entry_point() {
    let src = "\
declare void @decl() #0
attributes #0 = { \"entry_point\" }
";
    let m = parse_module(src).unwrap();
    assert!(m.entry_point().is_none());
}

#[test]
fn is_assignment_and_token_helpers_cover_edge_cases() {
    assert!(is_assignment_prefix("  %x = call void @f()"));
    assert!(!is_assignment_prefix("call void @f()"));
    assert!(!is_assignment_prefix(""));
}

#[test]
fn unterminated_define_body_errors() {
    let src = "%Qubit = type opaque\ndefine void @main() {\n  ret void\n";
    let err = parse_module(src).unwrap_err();
    assert!(err.message().contains("define body not terminated"));
}

#[test]
fn call_missing_paren_after_callee_errors() {
    let err = parse_instruction_line("call void @foo").unwrap_err();
    assert!(err.message().contains("missing ( after callee"));
}

#[test]
fn call_with_unbalanced_function_type_prefix_errors() {
    let err = parse_instruction_line("call void ( i64, i64 @bar(i64 0)").unwrap_err();
    let msg = err.message();
    assert!(msg.contains("unbalanced") || msg.contains("missing"), "{msg}");
}

#[test]
fn empty_operand_errors() {
    let err = parse_operand("").unwrap_err();
    assert!(err.message().contains("empty operand"));
}

#[test]
fn define_without_closing_brace_at_eof_errors() {
    let src = "\
%Qubit = type opaque
define void @main() #0 {
  call void @__quantum__qis__h__body(%Qubit* null)
";
    let err = parse_module(src).unwrap_err();
    assert!(err.message().contains("not terminated"));
}

#[test]
fn attribute_group_parses_numeric_id() {
    let src = "\
define void @main() #3 {
  ret void
}
attributes #3 = { \"entry_point\" }
";
    let m = parse_module(src).unwrap();
    assert!(m.entry_point().is_some());
}

#[test]
fn malformed_attribute_group_is_silently_skipped() {
    let src = "\
define void @main() #0 {
  ret void
}
attributes #0 = { \"entry_point\" }
attributes bad-line
";
    assert!(parse_module(src).is_ok());
}

#[test]
fn br_i1_with_false_label_non_matching_errors() {
    let err = parse_instruction_line("br i1 %c, label %t, label bad").unwrap_err();
    assert!(err.message().contains("expected 'label %name'"));
}

#[test]
fn instruction_with_no_opcode_surfaces_error() {
    let err = parse_instruction_line("  ").unwrap_err();
    assert!(!err.message().is_empty());
}

#[test]
fn define_header_with_brace_on_next_line() {
    let src = "\
%Qubit = type opaque
define void @main() #0
{
  call void @__quantum__qis__h__body(%Qubit* null)
  ret void
}
declare void @__quantum__qis__h__body(%Qubit*)
attributes #0 = { \"entry_point\" }
";
    let m = parse_module(src).unwrap();
    assert!(m.entry_point().is_some());
}

#[test]
fn define_header_with_blank_lines_before_brace() {
    let src = "\
%Qubit = type opaque
define void @main() #0

  ; trailing comment line
{
  ret void
}
attributes #0 = { \"entry_point\" }
";
    assert!(parse_module(src).is_ok());
}

#[test]
fn opaque_ptr_ssa_operand() {
    let Operand::Ssa(id) = parse_operand("ptr %x").unwrap() else {
        panic!()
    };
    assert_eq!(id, "x");
}

#[test]
fn opaque_ptr_global_ref_operand() {
    let Operand::GlobalRef(g) = parse_operand("ptr @g").unwrap() else {
        panic!()
    };
    assert_eq!(g, "g");
}

#[test]
fn i8_typed_pointer_null_is_i8null() {
    assert!(matches!(parse_operand("i8* null").unwrap(), Operand::I8Null));
}

#[test]
fn pointer_operand_with_unrecognised_value_errors() {
    let err = parse_operand("ptr garbage").unwrap_err();
    assert!(err.message().contains("could not resolve pointer operand"));
}

#[test]
fn quoted_struct_typed_pointer_canonicalises_to_name() {
    let ty = parse_struct_ptr_type("%\"MyStruct\"*");
    assert_eq!(ty, Some("MyStruct".to_string()));
}

#[test]
fn struct_ptr_type_rejects_non_struct() {
    assert!(parse_struct_ptr_type("i32*").is_none());
    assert!(parse_struct_ptr_type("ptr").is_none());
    assert!(parse_struct_ptr_type("%Qubit").is_none());
}

#[test]
fn inttoptr_missing_index_returns_none() {
    assert!(parse_inttoptr("inttoptr (i64 to ptr)").is_none());
    assert!(parse_inttoptr("inttoptr garbage").is_none());
}

#[test]
fn call_parser_recognises_tail_call_qualifiers() {
    let instr =
        parse_instruction_line("musttail call void @__quantum__qis__h__body(%Qubit* null)")
            .unwrap();
    assert!(matches!(instr, Instruction::Call { .. }));
}

const BELL_STATE_MODULE: &str = r#"
%Qubit = type opaque
%Result = type opaque

define void @main() #0 {
entry:
  call void @__quantum__qis__h__body(%Qubit* null)
  call void @__quantum__qis__cnot__body(%Qubit* null,
                                        %Qubit* inttoptr (i64 1 to %Qubit*))
  call void @__quantum__qis__mz__body(%Qubit* null, %Result* null)
  call void @__quantum__qis__mz__body(%Qubit* inttoptr (i64 1 to %Qubit*),
                                      %Result* inttoptr (i64 1 to %Result*))
  ret void
}
declare void @__quantum__qis__h__body(%Qubit*)
declare void @__quantum__qis__cnot__body(%Qubit*, %Qubit*)
declare void @__quantum__qis__mz__body(%Qubit*, %Result*) #1
attributes #0 = { "entry_point" "qir_profiles"="base_profile" "requiredQubits"="2" "requiredResults"="2" }
attributes #1 = { "irreversible" }
"#;

#[test]
fn bell_state_module_parses_end_to_end() {
    let m = parse_module(BELL_STATE_MODULE).unwrap();
    assert_eq!(m.functions.len(), 4);
    let main = m
        .functions
        .iter()
        .find(|f| f.name == "main")
        .expect("main missing");
    assert!(main.is_entry_point);
    assert!(!main.is_declaration);
    assert_eq!(main.blocks.len(), 1);
    assert_eq!(main.blocks[0].name, "entry");
    assert_eq!(main.blocks[0].instructions.len(), 5);
    let call_count = main.blocks[0]
        .instructions
        .iter()
        .filter(|i| matches!(i, Instruction::Call { .. }))
        .count();
    assert_eq!(call_count, 4);
    assert!(matches!(
        main.blocks[0].instructions.last(),
        Some(Instruction::Ret)
    ));
}

#[test]
fn bell_state_module_reads_the_qir_profile() {
    let m = parse_module(BELL_STATE_MODULE).unwrap();
    let main = m.entry_point().unwrap();
    assert_eq!(main.qir_profile.as_deref(), Some("base_profile"));
}

#[test]
fn wrapped_plain_call_accumulates_across_lines() {
    let module = r#"
%Qubit = type opaque
define void @main() #0 {
entry:
  call void @__quantum__qis__cnot__body(%Qubit* null,
                                        %Qubit* inttoptr (i64 1 to %Qubit*))
  ret void
}
declare void @__quantum__qis__cnot__body(%Qubit*, %Qubit*)
attributes #0 = { "entry_point" "qir_profiles"="base_profile" "requiredQubits"="2" "requiredResults"="0" }
"#;
    let m = parse_module(module).unwrap();
    let main = m.functions.iter().find(|f| f.name == "main").unwrap();
    assert_eq!(main.blocks[0].instructions.len(), 2);
    assert!(matches!(
        main.blocks[0].instructions[0],
        Instruction::Call { .. }
    ));
}

#[test]
fn wrapped_tail_call_accumulates_across_lines() {
    let module = r#"
%Qubit = type opaque
define void @main() #0 {
entry:
  tail call void (i64, i64, i64, i64, i8*, ...)
      @generalizedInvokeWithRotationsControlsTargets(
          i64 0, i64 0, i64 1, i64 1,
          i8* bitcast (void (%Qubit*)* @__quantum__qis__x__ctl to i8*),
          %Qubit* null, %Qubit* inttoptr (i64 1 to %Qubit*))
  ret void
}
declare void @generalizedInvokeWithRotationsControlsTargets(i64, i64, i64, i64, i8*, ...)
declare void @__quantum__qis__x__ctl(%Qubit*)
attributes #0 = { "entry_point" "qir_profiles"="base_profile" "requiredQubits"="2" "requiredResults"="0" }
"#;
    let m = parse_module(module).unwrap();
    let main = m.functions.iter().find(|f| f.name == "main").unwrap();
    assert_eq!(main.blocks[0].instructions.len(), 2);
    assert!(matches!(
        main.blocks[0].instructions[0],
        Instruction::Call { .. }
    ));
}

#[test]
fn wrapped_assignment_tail_call_accumulates_across_lines() {
    let module = r#"
%Result = type opaque
define void @main() #0 {
entry:
  %r = tail call i1
      @__quantum__qis__read_result__body(
          %Result* inttoptr (i64 0 to %Result*))
  ret void
}
declare i1 @__quantum__qis__read_result__body(%Result*)
attributes #0 = { "entry_point" "qir_profiles"="base_profile" "requiredQubits"="0" "requiredResults"="1" }
"#;
    let m = parse_module(module).unwrap();
    let main = m.functions.iter().find(|f| f.name == "main").unwrap();
    assert_eq!(main.blocks[0].instructions.len(), 2);
    assert!(matches!(
        main.blocks[0].instructions[0],
        Instruction::Call { .. }
    ));
}

#[test]
fn effective_opcode_sees_through_assignment_and_qualifiers() {
    assert_eq!(effective_opcode("call void @f()"), "call");
    assert_eq!(effective_opcode("tail call void @f()"), "call");
    assert_eq!(effective_opcode("musttail call void @f()"), "call");
    assert_eq!(effective_opcode("notail call void @f()"), "call");
    assert_eq!(effective_opcode("%x = call void @f()"), "call");
    assert_eq!(effective_opcode("%x = tail call i1 @f()"), "call");
    assert_eq!(effective_opcode("%x = musttail call void @f()"), "call");
    assert_eq!(effective_opcode("ret void"), "ret");
    assert_eq!(effective_opcode("br label %exit"), "br");
    assert_eq!(effective_opcode("%x = add i32 1, 2"), "add");
}

#[test]
fn strip_call_prefix_qualifiers_handles_stacked_qualifiers() {
    assert_eq!(strip_call_prefix_qualifiers("tail call foo"), "call foo");
    assert_eq!(strip_call_prefix_qualifiers("musttail call foo"), "call foo");
    assert_eq!(strip_call_prefix_qualifiers("notail call foo"), "call foo");
    assert_eq!(strip_call_prefix_qualifiers("call foo"), "call foo");
    assert_eq!(strip_call_prefix_qualifiers("add i32 1, 2"), "add i32 1, 2");
}

#[test]
fn module_joins_continuation_lines_and_resolves_groups() {
    let src = "define void @main() #0 {\nentry:\n  call void @__quantum__qis__h__body(\n    %Qubit* null)\n  ret void\n}\n\nattributes #0 = { \"entry_point\" \"qir_profiles\"=\"base_profile\" }\n";
    let m = parse_module(src).unwrap();
    assert_eq!(m.functions.len(), 1);
    let f = &m.functions[0];
    assert!(f.is_entry_point);
    assert_eq!(f.qir_profile.as_deref(), Some("base_profile"));
    assert_eq!(f.blocks.len(), 1);
    assert_eq!(f.blocks[0].name, "entry");
    assert_eq!(f.blocks[0].instructions.len(), 2);
    match &f.blocks[0].instructions[0] {
        Instruction::Call { callee, args, .. } => {
            assert_eq!(callee, "__quantum__qis__h__body");
            assert_eq!(args.len(), 1);
        }
        other => panic!("expected a call, got {other:?}"),
    }
    assert!(matches!(f.blocks[0].instructions[1], Instruction::Ret));
}

#[test]
fn label_after_instructions_opens_a_new_block() {
    let src = "define void @main() {\n  br label %next\nnext:\n  ret void\n}\n";
    let m = parse_module(src).unwrap();
    let f = &m.functions[0];
    assert!(!f.is_entry_point);
    assert_eq!(f.blocks.len(), 2);
    assert_eq!(f.blocks[0].name, "");
    assert_eq!(f.blocks[1].name, "next");
    assert_eq!(f.blocks[1].instructions.len(), 1);
}

#[test]
fn unterminated_instruction_errors() {
    let src = "define void @main() {\n  call void @__quantum__qis__h__body(\n";
    let err = parse_module(src).unwrap_err();
    assert!(err.message().contains("unterminated instruction"), "{}", err.message());
}

#[test]
fn define_without_body_block_errors() {
    let src = "define void @main()\n";
    let err = parse_module(src).unwrap_err();
    assert!(err.message().contains("define without body block"), "{}", err.message());
}

#[test]
fn extract_fn_name_handles_quoted_and_bare_names() {
    let line = "declare void @foo(i32)";
    let (rest, name) = extract_fn_name_from_header(line, "declare").unwrap();
    assert_eq!(name, "foo");
    assert!(rest.is_empty() || rest.starts_with(' ') || rest.is_empty());

    let line2 = "define void @\"my::fn\"() {";
    let (_rest2, name2) = extract_fn_name_from_header(line2, "define").unwrap();
    assert_eq!(name2, "my::fn");

    assert!(extract_fn_name_from_header("no keyword here", "declare").is_none());
    assert!(extract_fn_name_from_header("declare no at sign", "declare").is_none());
}

#[test]
fn parse_post_sig_attrs_collects_inline_and_group_refs() {
    let (inline, groups, has_body) =
        parse_post_sig_attrs(" #0 #1 \"entry_point\" \"qir_profiles\"=\"base\" {");
    assert!(has_body);
    assert!(inline.iter().any(|s| s == "entry_point"));
    assert!(groups.contains(&0));
    assert!(groups.contains(&1));
    // Without the brace, `has_body` must be false.
    let (_, _, body) = parse_post_sig_attrs(" #0 no brace here");
    assert!(!body);
}
