use qirtoqasm_core::ir::parser::parse_module;
use qirtoqasm_core::ir::{Block, FloatLit, Module};
use qirtoqasm_core::profile::{base_profile, FunctionBuilder};
use qirtoqasm_core::translator::{assign_block_names, json_escape_into, Exporter};
use qirtoqasm_core::{render, translate as translate_lib, QasmPiece, QirToQasmError, TranslateOptions, VERSION};

fn format_float(value: f64) -> String {
    if value.is_nan() {
        return "nan".to_string();
    }
    if value.is_infinite() {
        return if value.is_sign_negative() { "-inf".to_string() } else { "inf".to_string() };
    }
    let s = value.to_string();
    if !s.bytes().any(|b| b == b'.' || b == b'e' || b == b'E') {
        format!("{s}.0")
    } else {
        s
    }
}

fn float_text(f: &FloatLit) -> String {
    match f {
        FloatLit::Bits(b) => format_float(f64::from_bits(*b)),
        FloatLit::Decimal(s) => format_float(s.parse().unwrap()),
    }
}

fn render_text(pieces: &[QasmPiece]) -> String {
    let floats: Vec<String> = pieces
        .iter()
        .filter_map(|p| match p {
            QasmPiece::Float(f) => Some(float_text(f)),
            QasmPiece::Text(_) => None,
        })
        .collect();
    render(pieces, &floats)
}

trait DumpText {
    fn dumps_text(&self, module: &Module) -> Result<String, QirToQasmError>;
}

impl DumpText for Exporter {
    fn dumps_text(&self, module: &Module) -> Result<String, QirToQasmError> {
        self.dumps(module).map(|p| render_text(&p))
    }
}

fn translate_lib_text(qir: &str, options: &TranslateOptions) -> Result<String, QirToQasmError> {
    translate_lib(qir, options).map(|p| render_text(&p))
}

fn json_escape(s: &str) -> String {
    let mut buf: Vec<char> = Vec::new();
    json_escape_into(s, &mut buf);
    buf.into_iter().collect()
}

const STANDARD_DECLARES: &str = "\
declare void @__quantum__qis__h__body(%Qubit*)
declare void @__quantum__qis__x__body(%Qubit*)
declare void @__quantum__qis__y__body(%Qubit*)
declare void @__quantum__qis__z__body(%Qubit*)
declare void @__quantum__qis__s__body(%Qubit*)
declare void @__quantum__qis__s__adj(%Qubit*)
declare void @__quantum__qis__t__body(%Qubit*)
declare void @__quantum__qis__t__adj(%Qubit*)
declare void @__quantum__qis__cnot__body(%Qubit*, %Qubit*)
declare void @__quantum__qis__cx__body(%Qubit*, %Qubit*)
declare void @__quantum__qis__cy__body(%Qubit*, %Qubit*)
declare void @__quantum__qis__cz__body(%Qubit*, %Qubit*)
declare void @__quantum__qis__swap__body(%Qubit*, %Qubit*)
declare void @__quantum__qis__ccx__body(%Qubit*, %Qubit*, %Qubit*)
declare void @__quantum__qis__ccnot__body(%Qubit*, %Qubit*, %Qubit*)
declare void @__quantum__qis__rx__body(double, %Qubit*)
declare void @__quantum__qis__ry__body(double, %Qubit*)
declare void @__quantum__qis__rz__body(double, %Qubit*)
declare void @__quantum__qis__rxx__body(double, %Qubit*, %Qubit*)
declare void @__quantum__qis__ryy__body(double, %Qubit*, %Qubit*)
declare void @__quantum__qis__rzz__body(double, %Qubit*, %Qubit*)
declare void @__quantum__qis__phasedx__body(double, double, %Qubit*)
declare void @__quantum__qis__mz__body(%Qubit*, %Result*) #1
declare void @__quantum__qis__m__body(%Qubit*, %Result*) #1
declare void @__quantum__qis__mresetz__body(%Qubit*, %Result*) #1
declare void @__quantum__qis__reset__body(%Qubit*)
declare i1 @__quantum__qis__read_result__body(%Result*)
declare i1 @__quantum__rt__read_result(%Result*)
declare void @__quantum__rt__result_record_output(%Result*, i8*)
declare void @__quantum__rt__array_record_output(i64, i8*)
declare void @__quantum__rt__tuple_record_output(i64, i8*)
declare void @__quantum__rt__integer_record_output(i64, i8*)
declare void @__quantum__rt__int_record_output(i64, i8*)
declare void @__quantum__rt__bool_record_output(i1, i8*)
declare void @__quantum__rt__double_record_output(double, i8*)
declare void @__quantum__rt__initialize(i8*)
declare void @unknown_intrinsic(%Qubit*)";

fn qir_entry(body: &str) -> String {
    format!(
        "%Qubit = type opaque\n%Result = type opaque\n\
         define void @main() #0 {{\n{body}\n}}\n\
         {STANDARD_DECLARES}\n\
         attributes #0 = {{ \"entry_point\" }}\n\
         attributes #1 = {{ \"irreversible\" }}\n"
    )
}

fn translate_err(body: &str) -> String {
    let qir = qir_entry(body);
    let module = parse_module(&qir).expect("parse_module failed");
    Exporter::new()
        .dumps(&module)
        .expect_err("expected translate to fail")
        .message()
}
const BELL_LL: &str = "\
%Qubit = type opaque
%Result = type opaque

define void @main() #0 {
  call void @__quantum__qis__h__body(%Qubit* null)
  call void @__quantum__qis__cnot__body(%Qubit* null, %Qubit* inttoptr (i64 1 to %Qubit*))
  call void @__quantum__qis__mz__body(%Qubit* null, %Result* null)
  call void @__quantum__qis__mz__body(%Qubit* inttoptr (i64 1 to %Qubit*), %Result* inttoptr (i64 1 to %Result*))
  ret void
}

declare void @__quantum__qis__h__body(%Qubit*)
declare void @__quantum__qis__cnot__body(%Qubit*, %Qubit*)
declare void @__quantum__qis__mz__body(%Qubit*, %Result*) #1

attributes #0 = { \"entry_point\" \"qir_profiles\"=\"base_profile\" \"requiredQubits\"=\"2\" \"requiredResults\"=\"2\" }
attributes #1 = { \"irreversible\" }
";

#[test]
fn translates_bell_state() {
    let module = parse_module(BELL_LL).unwrap();
    let out = Exporter::new().dumps_text(&module).unwrap();
    let expected = format!(
        "\
OPENQASM 3.0;
qubit[2] q;
bit[2] c;
h q[0];
cnot q[0], q[1];
c[0] = measure q[0];
c[1] = measure q[1];
// generated-by: {{\"name\":\"qirtoqasm\",\"version\":\"{version}\",\"profile\":\"base_profile\"}}
",
        version = VERSION,
    );
    assert_eq!(out, expected);
}

#[test]
fn no_entry_point_errors_with_pinned_substring() {
    let module = parse_module("%Qubit = type opaque\n").unwrap();
    let err = Exporter::new().dumps_text(&module).unwrap_err();
    assert!(err.message().contains("no entry-point function found"));
}


#[test]
fn exporter_builders_return_fluent_self() {
    let e = Exporter::new()
        .with_includes(vec!["stdgates.inc".to_string()])
        .with_output_declarations(true)
        .with_profile(base_profile());
    assert_eq!(e.include_files, vec!["stdgates.inc".to_string()]);
    assert!(e.emit_output_declarations);
}

#[test]
fn emit_output_declarations_option_prepends_output_keyword() {
    let qir = qir_entry(
        "  call void @__quantum__qis__h__body(%Qubit* null)
  call void @__quantum__qis__mz__body(%Qubit* null, %Result* null)
  ret void",
    );
    let module = parse_module(&qir).unwrap();
    let out = Exporter::new()
        .with_output_declarations(true)
        .dumps_text(&module)
        .unwrap();
    assert!(out.contains("output bit[1] c;"), "{out}");
}

#[test]
fn include_files_emit_before_qubit_declaration() {
    let qir = qir_entry(
        "  call void @__quantum__qis__h__body(%Qubit* null)
  ret void",
    );
    let module = parse_module(&qir).unwrap();
    let out = Exporter::new()
        .with_includes(vec!["stdgates.inc".to_string()])
        .dumps_text(&module)
        .unwrap();
    assert!(out.contains("include \"stdgates.inc\";"), "{out}");
}

#[test]
fn default_impl_matches_new() {
    let a = Exporter::default();
    let b = Exporter::new();
    assert_eq!(a.include_files, b.include_files);
    assert_eq!(a.emit_output_declarations, b.emit_output_declarations);
}

#[test]
fn unknown_callee_reports_missing_signature_when_declare_is_absent() {
    // No declaration for the callee → extract_signatures never learns
    // about it, so `no signature for callee` fires before `no builder`.
    let ir = "\
%Qubit = type opaque
define void @main() #0 {
  call void @phantom(%Qubit* null)
  ret void
}
attributes #0 = { \"entry_point\" }
";
    let module = parse_module(ir).unwrap();
    let err = Exporter::new().dumps_text(&module).unwrap_err();
    assert!(err.message().contains("no signature for callee"));
}

#[test]
fn unknown_callee_with_declaration_reports_missing_builder() {
    let err = translate_err(
        "  call void @unknown_intrinsic(%Qubit* null)
  ret void",
    );
    assert!(err.contains("no builder registered"));
}

#[test]
fn arity_mismatch_surfaces_pinned_error() {
    // h takes one qubit; hand it two.
    let err = translate_err(
        "  call void @__quantum__qis__h__body(%Qubit* null, %Qubit* null)
  ret void",
    );
    assert!(err.contains("arity mismatch"));
}

#[test]
fn unsupported_opcode_in_block_surfaces_pinned_error() {
    let err = translate_err(
        "  %x = fadd double 0.0, 1.0
  ret void",
    );
    assert!(err.contains("unsupported LLVM instruction opcode"));
}

#[test]
fn assign_block_names_renumbers_unlabelled_blocks() {
    // All blocks unlabelled except for the `next:` label.
    let ir = "\
%Qubit = type opaque
define void @main() #0 {
  call void @__quantum__qis__h__body(%Qubit* null)
  br label %next
next:
  ret void
}
declare void @__quantum__qis__h__body(%Qubit*)
attributes #0 = { \"entry_point\" }
";
    let module = parse_module(ir).unwrap();
    let out = Exporter::new().dumps_text(&module).unwrap();
    assert!(out.contains("h q[0]"));
}


#[test]
fn variadic_with_registered_builder_still_rejected_internal() {
    let mut profile = base_profile();
    profile.register(
        "variadic_fn",
        FunctionBuilder::Gate {
            gate_name: "nope".into(),
            adjoint: false,
        },
    );
    let ir = "\
%Qubit = type opaque
define void @main() #0 {
  call void (i64, ...) @variadic_fn(i64 0, i64 1)
  ret void
}
declare void @variadic_fn(i64, ...)
attributes #0 = { \"entry_point\" }
";
    let module = parse_module(ir).unwrap();
    let err = Exporter::new()
        .with_profile(profile)
        .dumps_text(&module)
        .unwrap_err();
    assert!(err
        .message()
        .contains("is variadic and cannot be lowered"));
}

#[test]
fn block_name_falls_back_to_position_for_many_unlabelled_blocks() {
    // Several unlabelled blocks in sequence exercise the position-based
    // fallback in assign_block_names.
    let ir = "\
%Qubit = type opaque
define void @main() #0 {
  br label %1
1:
  call void @__quantum__qis__h__body(%Qubit* null)
  br label %2
2:
  ret void
}
declare void @__quantum__qis__h__body(%Qubit*)
attributes #0 = { \"entry_point\" }
";
    let module = parse_module(ir).unwrap();
    let out = Exporter::new().dumps_text(&module).unwrap();
    assert!(out.contains("h q[0]"), "{out}");
}

#[test]
fn constant_branch_condition_propagates_to_oq3_boolean_literal() {
    // br i1 1 takes the true path; br i1 0 takes the false path.
    // Exercising this confirms the BrCondOperand::Const variant
    // reaches Expression::Boolean.
    let ir = "\
%Qubit = type opaque
define void @main() #0 {
  call void @__quantum__qis__h__body(%Qubit* null)
  br i1 1, label %t, label %f
t:
  call void @__quantum__qis__x__body(%Qubit* null)
  br label %join
f:
  call void @__quantum__qis__z__body(%Qubit* null)
  br label %join
join:
  ret void
}
declare void @__quantum__qis__h__body(%Qubit*)
declare void @__quantum__qis__x__body(%Qubit*)
declare void @__quantum__qis__z__body(%Qubit*)
attributes #0 = { \"entry_point\" }
";
    let module = parse_module(ir).unwrap();
    let out = Exporter::new().dumps_text(&module).unwrap();
    assert!(out.contains("if (true)"), "{out}");
}


#[test]
fn exporter_debug_format_covers_derive() {
    let dbg = format!("{:?}", Exporter::new());
    assert!(dbg.contains("Exporter"));
}

#[test]
fn assign_block_names_position_fallback_for_unlabelled_non_entry_block() {
    // A define where llvmlite-style unlabelled blocks fall through
    // to the position-based "%i" fallback in assign_block_names.
    let blocks = vec![
        Block {
            name: String::new(),
            instructions: vec![],
        },
        Block {
            name: String::new(),
            instructions: vec![],
        },
        Block {
            name: String::new(),
            instructions: vec![],
        },
    ];
    let names = assign_block_names(&blocks);
    assert_eq!(
        names,
        vec!["0".to_string(), "1".to_string(), "2".to_string()]
    );
}



fn translate_ok(ll: &str) -> String {
    let module = parse_module(ll).unwrap();
    Exporter::new().dumps_text(&module).unwrap()
}

#[test]
fn and_i1_flows_into_if_condition() {
    let ll = "\
%Qubit = type opaque
%Result = type opaque

define void @main() #0 {
  call void @__quantum__qis__h__body(%Qubit* null)
  call void @__quantum__qis__h__body(%Qubit* inttoptr (i64 1 to %Qubit*))
  call void @__quantum__qis__mz__body(%Qubit* null, %Result* null)
  call void @__quantum__qis__mz__body(%Qubit* inttoptr (i64 1 to %Qubit*), %Result* inttoptr (i64 1 to %Result*))
  %a = call i1 @__quantum__qis__read_result__body(%Result* null)
  %b = call i1 @__quantum__qis__read_result__body(%Result* inttoptr (i64 1 to %Result*))
  %c = and i1 %a, %b
  br i1 %c, label %then, label %end
then:
  call void @__quantum__qis__x__body(%Qubit* inttoptr (i64 2 to %Qubit*))
  br label %end
end:
  call void @__quantum__qis__mz__body(%Qubit* inttoptr (i64 2 to %Qubit*), %Result* inttoptr (i64 2 to %Result*))
  ret void
}

declare void @__quantum__qis__h__body(%Qubit*)
declare void @__quantum__qis__x__body(%Qubit*)
declare void @__quantum__qis__mz__body(%Qubit*, %Result*) #1
declare i1 @__quantum__qis__read_result__body(%Result*)

attributes #0 = { \"entry_point\" \"qir_profiles\"=\"adaptive_profile\" \"requiredQubits\"=\"3\" \"requiredResults\"=\"3\" }
attributes #1 = { \"irreversible\" }
";
    let out = translate_ok(ll);
    assert!(out.contains("if (c[0] == 1 && c[1] == 1)"), "{out}");
}

#[test]
fn or_i1_flows_into_if_condition() {
    let ll = "\
%Qubit = type opaque
%Result = type opaque

define void @main() #0 {
  call void @__quantum__qis__h__body(%Qubit* null)
  call void @__quantum__qis__h__body(%Qubit* inttoptr (i64 1 to %Qubit*))
  call void @__quantum__qis__mz__body(%Qubit* null, %Result* null)
  call void @__quantum__qis__mz__body(%Qubit* inttoptr (i64 1 to %Qubit*), %Result* inttoptr (i64 1 to %Result*))
  %a = call i1 @__quantum__qis__read_result__body(%Result* null)
  %b = call i1 @__quantum__qis__read_result__body(%Result* inttoptr (i64 1 to %Result*))
  %c = or i1 %a, %b
  br i1 %c, label %then, label %end
then:
  call void @__quantum__qis__x__body(%Qubit* inttoptr (i64 2 to %Qubit*))
  br label %end
end:
  call void @__quantum__qis__mz__body(%Qubit* inttoptr (i64 2 to %Qubit*), %Result* inttoptr (i64 2 to %Result*))
  ret void
}

declare void @__quantum__qis__h__body(%Qubit*)
declare void @__quantum__qis__x__body(%Qubit*)
declare void @__quantum__qis__mz__body(%Qubit*, %Result*) #1
declare i1 @__quantum__qis__read_result__body(%Result*)

attributes #0 = { \"entry_point\" \"qir_profiles\"=\"adaptive_profile\" \"requiredQubits\"=\"3\" \"requiredResults\"=\"3\" }
attributes #1 = { \"irreversible\" }
";
    let out = translate_ok(ll);
    assert!(out.contains("if (c[0] == 1 || c[1] == 1)"), "{out}");
}

#[test]
fn select_i1_flows_into_if_condition() {
    // Emits the compiler short-circuit shape `select i1 %a, i1 %b, i1 false`
    // (`a && b`), which the lowering recognizes and reduces to `a && b`.
    let ll = "\
%Qubit = type opaque
%Result = type opaque

define void @main() #0 {
  call void @__quantum__qis__h__body(%Qubit* null)
  call void @__quantum__qis__h__body(%Qubit* inttoptr (i64 1 to %Qubit*))
  call void @__quantum__qis__mz__body(%Qubit* null, %Result* null)
  call void @__quantum__qis__mz__body(%Qubit* inttoptr (i64 1 to %Qubit*), %Result* inttoptr (i64 1 to %Result*))
  %a = call i1 @__quantum__qis__read_result__body(%Result* null)
  %b = call i1 @__quantum__qis__read_result__body(%Result* inttoptr (i64 1 to %Result*))
  %c = select i1 %a, i1 %b, i1 false
  br i1 %c, label %then, label %end
then:
  call void @__quantum__qis__x__body(%Qubit* inttoptr (i64 2 to %Qubit*))
  br label %end
end:
  call void @__quantum__qis__mz__body(%Qubit* inttoptr (i64 2 to %Qubit*), %Result* inttoptr (i64 2 to %Result*))
  ret void
}

declare void @__quantum__qis__h__body(%Qubit*)
declare void @__quantum__qis__x__body(%Qubit*)
declare void @__quantum__qis__mz__body(%Qubit*, %Result*) #1
declare i1 @__quantum__qis__read_result__body(%Result*)

attributes #0 = { \"entry_point\" \"qir_profiles\"=\"adaptive_profile\" \"requiredQubits\"=\"3\" \"requiredResults\"=\"3\" }
attributes #1 = { \"irreversible\" }
";
    let out = translate_ok(ll);
    assert!(out.contains("if (c[0] == 1 && c[1] == 1)"), "{out}");
}

#[test]
fn int_arith_add_flows_into_icmp_comparison() {
    // Exercises the IntArith dispatch arm plus an `icmp ult` ordered
    // predicate. The `add` result is inlined into the comparison, so
    // the emitted OpenQASM should contain a `... + 1 < ...` expression
    // inside the `if` condition.
    let ll = "\
%Qubit = type opaque
%Result = type opaque

define void @main() #0 {
  call void @__quantum__qis__h__body(%Qubit* null)
  call void @__quantum__qis__mz__body(%Qubit* null, %Result* null)
  %a = call i1 @__quantum__qis__read_result__body(%Result* null)
  %b = add i32 0, 1
  %c = icmp ult i32 %b, 3
  br i1 %c, label %then, label %end
then:
  call void @__quantum__qis__x__body(%Qubit* inttoptr (i64 1 to %Qubit*))
  br label %end
end:
  call void @__quantum__qis__mz__body(%Qubit* inttoptr (i64 1 to %Qubit*), %Result* inttoptr (i64 1 to %Result*))
  ret void
}

declare void @__quantum__qis__h__body(%Qubit*)
declare void @__quantum__qis__x__body(%Qubit*)
declare void @__quantum__qis__mz__body(%Qubit*, %Result*) #1
declare i1 @__quantum__qis__read_result__body(%Result*)

attributes #0 = { \"entry_point\" \"qir_profiles\"=\"adaptive_profile\" \"requiredQubits\"=\"2\" \"requiredResults\"=\"2\" }
attributes #1 = { \"irreversible\" }
";
    let out = translate_ok(ll);
    assert!(out.contains("if (0 + 1 < 3)"), "{out}");
}

#[test]
fn unregistered_variadic_callee_surfaces_descriptive_error() {
    // A variadic callee with no registered builder is rejected with
    // an error naming the callee and mentioning the variadic-multi-
    // controlled idiom that motivates the check.
    let ll = "\
%Qubit = type opaque
%Result = type opaque

define void @main() #0 {
  call void (i64, i64, ...) @someUnknownVariadic(i64 0, i64 0)
  call void @__quantum__qis__mz__body(%Qubit* null, %Result* null)
  ret void
}

declare void @someUnknownVariadic(i64, i64, ...)
declare void @__quantum__qis__mz__body(%Qubit*, %Result*) #1

attributes #0 = { \"entry_point\" \"qir_profiles\"=\"adaptive_profile\" \"requiredQubits\"=\"1\" \"requiredResults\"=\"1\" }
attributes #1 = { \"irreversible\" }
";
    let err = parse_module(ll)
        .and_then(|m| Exporter::new().dumps_text(&m))
        .unwrap_err();
    assert!(err.message().contains("someUnknownVariadic"));
    assert!(err
        .message()
        .contains("generalizedInvokeWithRotationsControlsTargets"));
}


fn translate_res(ll: &str) -> Result<String, QirToQasmError> {
    translate_lib_text(ll, &TranslateOptions::default())
}

#[test]
fn alloca_store_load_folds_scalar_constant() {
    let ll = r#"
%Qubit = type opaque
%Result = type opaque

define void @main() #0 {
  %buf = alloca [2 x double], align 8
  %p0 = bitcast [2 x double]* %buf to double*
  store double 0.5, double* %p0, align 8
  %p1 = getelementptr [2 x double], [2 x double]* %buf, i32 0, i32 1
  store double 0.25, double* %p1, align 8
  %v0 = load double, double* %p0, align 8
  call void @__quantum__qis__rx__body(double %v0, %Qubit* null)
  %v1 = load double, double* %p1, align 8
  call void @__quantum__qis__ry__body(double %v1, %Qubit* null)
  call void @__quantum__qis__mz__body(%Qubit* null, %Result* null)
  ret void
}
declare void @__quantum__qis__rx__body(double, %Qubit*)
declare void @__quantum__qis__ry__body(double, %Qubit*)
declare void @__quantum__qis__mz__body(%Qubit*, %Result*) #1
attributes #0 = { "entry_point" "qir_profiles"="base_profile" "requiredQubits"="1" "requiredResults"="1" }
attributes #1 = { "irreversible" }
"#;
    let qasm = translate_res(ll).unwrap();
    assert!(qasm.contains("rx(0.5)"), "\n{qasm}");
    assert!(qasm.contains("ry(0.25)"), "\n{qasm}");
}

#[test]
fn load_from_untracked_pointer_leaves_ssa_unbound() {
    // Load from a pointer that was never alloca'd or stored into.
    // The load SSA stays unbound; downstream use fails with the
    // "SSA value … is used but was never bound" error.
    let ll = r#"
%Qubit = type opaque
%Result = type opaque

define void @main(double* %external) #0 {
  %v = load double, double* %external, align 8
  call void @__quantum__qis__rx__body(double %v, %Qubit* null)
  call void @__quantum__qis__mz__body(%Qubit* null, %Result* null)
  ret void
}
declare void @__quantum__qis__rx__body(double, %Qubit*)
declare void @__quantum__qis__mz__body(%Qubit*, %Result*) #1
attributes #0 = { "entry_point" "qir_profiles"="base_profile" "requiredQubits"="1" "requiredResults"="1" }
attributes #1 = { "irreversible" }
"#;
    let err = translate_res(ll).unwrap_err();
    assert!(err.message().contains("SSA value"), "{err:?}");
}

#[test]
fn struct_by_value_param_parses() {
    let ll = r#"
%Qubit = type opaque
%Result = type opaque

define void @main({ double*, i64 } %0) #0 {
  call void @__quantum__qis__h__body(%Qubit* null)
  call void @__quantum__qis__mz__body(%Qubit* null, %Result* null)
  ret void
}
declare void @__quantum__qis__h__body(%Qubit*)
declare void @__quantum__qis__mz__body(%Qubit*, %Result*) #1
attributes #0 = { "entry_point" "qir_profiles"="base_profile" "requiredQubits"="1" "requiredResults"="1" }
attributes #1 = { "irreversible" }
"#;
    let qasm = translate_res(ll).unwrap();
    assert!(qasm.contains("h q[0];"), "\n{qasm}");
}

#[test]
fn mresetz_emits_measure_and_reset_in_order() {
    let ll = r#"
%Qubit = type opaque
%Result = type opaque

define void @main() #0 {
  call void @__quantum__qis__h__body(%Qubit* null)
  call void @__quantum__qis__mresetz__body(%Qubit* null, %Result* null)
  call void @__quantum__qis__x__body(%Qubit* null)
  call void @__quantum__qis__mz__body(%Qubit* null, %Result* inttoptr (i64 1 to %Result*))
  ret void
}
declare void @__quantum__qis__h__body(%Qubit*)
declare void @__quantum__qis__x__body(%Qubit*)
declare void @__quantum__qis__mresetz__body(%Qubit*, %Result*) #1
declare void @__quantum__qis__mz__body(%Qubit*, %Result*) #1
attributes #0 = { "entry_point" "qir_profiles"="base_profile" "requiredQubits"="1" "requiredResults"="2" }
attributes #1 = { "irreversible" }
"#;
    let qasm = translate_res(ll).unwrap();
    let m = qasm.find("c[0] = measure q[0];").unwrap();
    let r = qasm.find("reset q[0];").unwrap();
    let x = qasm.find("x q[0];").unwrap();
    assert!(m < r && r < x, "\n{qasm}");
}

#[test]
fn phi_i64_if_merge_emits_int_declaration() {
    let ll = r#"
%Result = type opaque
%Qubit = type opaque

define i64 @main() #0 {
entry:
  call void @__quantum__qis__h__body(%Qubit* null)
  call void @__quantum__qis__mz__body(%Qubit* null, %Result* null)
  %c = call i1 @__quantum__rt__read_result(%Result* null)
  br i1 %c, label %inc, label %done
inc:
  br label %done
done:
  %count = phi i64 [0, %entry], [1, %inc]
  ret i64 0
}

declare void @__quantum__qis__h__body(%Qubit*)
declare void @__quantum__qis__mz__body(%Qubit*, %Result*) #1
declare i1 @__quantum__rt__read_result(%Result*)
attributes #0 = { "entry_point" "qir_profiles"="adaptive_profile" "requiredQubits"="1" "requiredResults"="1" }
attributes #1 = { "irreversible" }
"#;
    let qasm = translate_res(ll).unwrap();
    assert!(qasm.contains("int cint_0 = 0;"), "\n{qasm}");
    assert!(qasm.contains("cint_0 = 1;"), "\n{qasm}");
}

#[test]
fn phi_i32_same_lowering_as_i64() {
    let ll = r#"
%Result = type opaque
%Qubit = type opaque

define void @main() #0 {
entry:
  call void @__quantum__qis__h__body(%Qubit* null)
  call void @__quantum__qis__mz__body(%Qubit* null, %Result* null)
  %c = call i1 @__quantum__rt__read_result(%Result* null)
  br i1 %c, label %inc, label %done
inc:
  br label %done
done:
  %count = phi i32 [0, %entry], [1, %inc]
  ret void
}

declare void @__quantum__qis__h__body(%Qubit*)
declare void @__quantum__qis__mz__body(%Qubit*, %Result*) #1
declare i1 @__quantum__rt__read_result(%Result*)
attributes #0 = { "entry_point" "qir_profiles"="adaptive_profile" "requiredQubits"="1" "requiredResults"="1" }
attributes #1 = { "irreversible" }
"#;
    let qasm = translate_res(ll).unwrap();
    assert!(qasm.contains("int cint_0 = 0;"), "\n{qasm}");
}

#[test]
fn phi_with_three_incomings_errors() {
    let ll = r#"
%Qubit = type opaque

define void @main() #0 {
entry:
  call void @__quantum__qis__h__body(%Qubit* null)
  br label %done
mid:
  br label %done
other:
  br label %done
done:
  %bad = phi i64 [0, %entry], [1, %mid], [2, %other]
  ret void
}
declare void @__quantum__qis__h__body(%Qubit*)
attributes #0 = { "entry_point" "qir_profiles"="adaptive_profile" "requiredQubits"="1" "requiredResults"="0" }
"#;
    let err = translate_res(ll).unwrap_err();
    assert!(
        err.message().contains("if-merge shape"),
        "unexpected error: {err:?}"
    );
}

#[test]
fn phi_with_two_unconditional_predecessors_errors() {
    let ll = r#"
%Qubit = type opaque

define void @main() #0 {
entry:
  br label %a
a:
  br label %done
done:
  %bad = phi i64 [0, %entry], [1, %a]
  ret void
}
attributes #0 = { "entry_point" "qir_profiles"="adaptive_profile" "requiredQubits"="0" "requiredResults"="0" }
"#;
    let err = translate_res(ll).unwrap_err();
    assert!(
        err.message().contains("if-merge shape"),
        "unexpected error: {err:?}"
    );
}

#[test]
fn phi_with_bogus_value_type_errors() {
    let ll = r#"
%Result = type opaque
%Qubit = type opaque

define void @main() #0 {
entry:
  call void @__quantum__qis__mz__body(%Qubit* null, %Result* null)
  %c = call i1 @__quantum__rt__read_result(%Result* null)
  br i1 %c, label %inc, label %done
inc:
  br label %done
done:
  %bad = phi i8 [0, %entry], [1, %inc]
  ret void
}
declare void @__quantum__qis__mz__body(%Qubit*, %Result*) #1
declare i1 @__quantum__rt__read_result(%Result*)
attributes #0 = { "entry_point" "qir_profiles"="adaptive_profile" "requiredQubits"="1" "requiredResults"="1" }
attributes #1 = { "irreversible" }
"#;
    let err = translate_res(ll).unwrap_err();
    assert!(err.message().contains("phi i8"), "{err:?}");
}

#[test]
fn loop_carried_phi_surfaces_clear_error() {
    // A phi whose incoming references the phi's own block is a
    // loop-carried merge. Out-of-scope per README; the error must
    // name the shape rather than pointing at "predecessor not
    // found among processed blocks".
    let ll = r#"
%Qubit = type opaque

define void @main() #0 {
entry:
  br label %loop
loop:
  %count = phi i64 [0, %entry], [%next, %loop]
  %next = add i64 %count, 1
  br label %loop
}
attributes #0 = { "entry_point" "qir_profiles"="adaptive_profile" "requiredQubits"="0" "requiredResults"="0" }
"#;
    let err = translate_res(ll).unwrap_err();
    let msg = err.message();
    assert!(msg.contains("loop-carried phi"), "{msg}");
    assert!(msg.contains("loop"), "{msg}");
}

#[test]
fn select_i32_lowers_to_inline_arithmetic() {
    let ll = r#"
%Result = type opaque
%Qubit = type opaque

define void @main() #0 {
  call void @__quantum__qis__h__body(%Qubit* null)
  call void @__quantum__qis__mz__body(%Qubit* null, %Result* null)
  %c = call i1 @__quantum__rt__read_result(%Result* null)
  %v = select i1 %c, i32 5, i32 3
  %chk = icmp sge i32 %v, 4
  br i1 %chk, label %t, label %f
t:
  call void @__quantum__qis__x__body(%Qubit* inttoptr (i64 1 to %Qubit*))
  br label %f
f:
  ret void
}

declare void @__quantum__qis__h__body(%Qubit*)
declare void @__quantum__qis__x__body(%Qubit*)
declare void @__quantum__qis__mz__body(%Qubit*, %Result*) #1
declare i1 @__quantum__rt__read_result(%Result*)
attributes #0 = { "entry_point" "qir_profiles"="adaptive_profile" "requiredQubits"="2" "requiredResults"="1" }
attributes #1 = { "irreversible" }
"#;
    let qasm = translate_res(ll).unwrap();
    assert!(qasm.contains("c[0] * 5"), "\n{qasm}");
    assert!(qasm.contains("(1 - c[0]) * 3"), "\n{qasm}");
    assert!(qasm.contains(">= 4"), "\n{qasm}");
}

#[test]
fn zext_i1_to_int_aliases_ssa() {
    let ll = r#"
%Qubit = type opaque
%Result = type opaque

define void @main() #0 {
  call void @__quantum__qis__h__body(%Qubit* null)
  call void @__quantum__qis__mz__body(%Qubit* null, %Result* null)
  %c = call i1 @__quantum__rt__read_result(%Result* null)
  %ci = zext i1 %c to i32
  %chk = icmp sge i32 %ci, 1
  br i1 %chk, label %t, label %f
t:
  call void @__quantum__qis__x__body(%Qubit* inttoptr (i64 1 to %Qubit*))
  br label %f
f:
  ret void
}
declare void @__quantum__qis__h__body(%Qubit*)
declare void @__quantum__qis__x__body(%Qubit*)
declare void @__quantum__qis__mz__body(%Qubit*, %Result*) #1
declare i1 @__quantum__rt__read_result(%Result*)
attributes #0 = { "entry_point" "qir_profiles"="adaptive_profile" "requiredQubits"="2" "requiredResults"="1" }
attributes #1 = { "irreversible" }
"#;
    let qasm = translate_res(ll).unwrap();
    // The `zext` result flows into `icmp sge, 1` which becomes
    // `c[0] >= 1` (or `c[0] == 1`) in the if condition.
    assert!(qasm.contains("c[0]"), "\n{qasm}");
}

/// `phi i64 [1, bb_true], [0, bb_false]` where both predecessors are
/// empty unconditional landing pads sharing a common `br i1` ancestor
/// lowers to the predicate expression itself (widened to i64).
#[test]
fn phi_i64_landing_pad_binds_to_predicate_c_bit() {
    let ll = r#"
%Qubit = type opaque
%Result = type opaque

define void @main() #0 {
entry:
  call void @__quantum__qis__h__body(%Qubit* null)
  call void @__quantum__qis__mz__body(%Qubit* null, %Result* null)
  %b = call i1 @__quantum__rt__read_result(%Result* null)
  br i1 %b, label %bb_t, label %bb_f
bb_t:
  br label %merge
bb_f:
  br label %merge
merge:
  %w = phi i64 [1, %bb_t], [0, %bb_f]
  %cmp = icmp eq i64 %w, 1
  br i1 %cmp, label %then, label %join
then:
  call void @__quantum__qis__x__body(%Qubit* inttoptr (i64 1 to %Qubit*))
  br label %join
join:
  call void @__quantum__qis__mz__body(%Qubit* inttoptr (i64 1 to %Qubit*), %Result* inttoptr (i64 1 to %Result*))
  ret void
}

declare void @__quantum__qis__h__body(%Qubit*)
declare void @__quantum__qis__x__body(%Qubit*)
declare void @__quantum__qis__mz__body(%Qubit*, %Result*) #1
declare i1 @__quantum__rt__read_result(%Result*)

attributes #0 = { "entry_point" "qir_profiles"="adaptive_profile" "requiredQubits"="2" "requiredResults"="2" }
attributes #1 = { "irreversible" }
"#;
    let qasm = translate_res(ll).unwrap();
    assert!(
        qasm.contains("if (c[0] == 1) {\n  x q[1];\n}")
            || qasm.contains("if (c[0]) {\n  x q[1];\n}"),
        "\n{qasm}"
    );
    assert!(
        !qasm.contains("cint_"),
        "should not allocate an int variable"
    );
}

/// Same CFG shape but with the incomings swapped: `[0, bb_t], [1, bb_f]`.
/// The phi value is `1 - predicate`, so the downstream `icmp eq i64 %w, 1`
/// collapses to `(1 - c[0]) == 1`.
#[test]
fn phi_i64_landing_pad_inverted_incomings_negates_predicate() {
    let ll = r#"
%Qubit = type opaque
%Result = type opaque

define void @main() #0 {
entry:
  call void @__quantum__qis__h__body(%Qubit* null)
  call void @__quantum__qis__mz__body(%Qubit* null, %Result* null)
  %b = call i1 @__quantum__rt__read_result(%Result* null)
  br i1 %b, label %bb_t, label %bb_f
bb_t:
  br label %merge
bb_f:
  br label %merge
merge:
  %w = phi i64 [0, %bb_t], [1, %bb_f]
  %cmp = icmp eq i64 %w, 1
  br i1 %cmp, label %then, label %join
then:
  call void @__quantum__qis__x__body(%Qubit* inttoptr (i64 1 to %Qubit*))
  br label %join
join:
  ret void
}

declare void @__quantum__qis__h__body(%Qubit*)
declare void @__quantum__qis__x__body(%Qubit*)
declare void @__quantum__qis__mz__body(%Qubit*, %Result*) #1
declare i1 @__quantum__rt__read_result(%Result*)

attributes #0 = { "entry_point" "qir_profiles"="adaptive_profile" "requiredQubits"="2" "requiredResults"="1" }
attributes #1 = { "irreversible" }
"#;
    let qasm = translate_res(ll).unwrap();
    assert!(
        qasm.contains("if (1 - c[0] == 1) {\n  x q[1];\n}")
            || qasm.contains("if ((1 - c[0]) == 1) {\n  x q[1];\n}"),
        "\n{qasm}"
    );
}

/// Landing-pad shape with non-{0,1} incoming constants falls through to
/// the existing unsupported error.
#[test]
fn phi_i64_landing_pad_non_binary_constants_still_errors() {
    let ll = r#"
%Qubit = type opaque
%Result = type opaque

define void @main() #0 {
entry:
  call void @__quantum__qis__mz__body(%Qubit* null, %Result* null)
  %b = call i1 @__quantum__rt__read_result(%Result* null)
  br i1 %b, label %bb_t, label %bb_f
bb_t:
  br label %merge
bb_f:
  br label %merge
merge:
  %w = phi i64 [5, %bb_t], [7, %bb_f]
  ret void
}

declare void @__quantum__qis__mz__body(%Qubit*, %Result*) #1
declare i1 @__quantum__rt__read_result(%Result*)

attributes #0 = { "entry_point" "qir_profiles"="adaptive_profile" "requiredQubits"="1" "requiredResults"="1" }
attributes #1 = { "irreversible" }
"#;
    let err = translate_res(ll).unwrap_err();
    assert!(err.message().contains("if-merge shape"), "{err:?}");
}

#[test]
fn struct_return_type_with_malloc_and_insertvalue_translates() {
    let ll = r#"
%Qubit = type opaque
%Result = type opaque

declare i8* @malloc(i64)
declare void @free(i8*)
declare void @llvm.memcpy.p0i8.p0i8.i64(i8*, i8*, i64, i1)

define { i1*, i64 } @__nvqpp__mlirgen__kernel() #0 {
  call void @__quantum__qis__h__body(%Qubit* null)
  call void @__quantum__qis__cnot__body(%Qubit* null, %Qubit* inttoptr (i64 1 to %Qubit*))
  call void @__quantum__qis__mz__body(%Qubit* null, %Result* null)
  call void @__quantum__rt__result_record_output(%Result* null, i8* null)
  call void @__quantum__qis__mz__body(%Qubit* inttoptr (i64 1 to %Qubit*), %Result* inttoptr (i64 1 to %Result*))
  call void @__quantum__rt__result_record_output(%Result* inttoptr (i64 1 to %Result*), i8* null)
  %1 = alloca [2 x i8], align 1
  %2 = bitcast [2 x i8]* %1 to i8*
  %3 = call i8* @malloc(i64 2)
  call void @llvm.memcpy.p0i8.p0i8.i64(i8* %3, i8* %2, i64 2, i1 false)
  %4 = bitcast i8* %3 to i1*
  %5 = insertvalue { i1*, i64 } undef, i1* %4, 0
  %6 = insertvalue { i1*, i64 } %5, i64 2, 1
  ret { i1*, i64 } %6
}

declare void @__quantum__qis__h__body(%Qubit*)
declare void @__quantum__qis__cnot__body(%Qubit*, %Qubit*)
declare void @__quantum__qis__mz__body(%Qubit*, %Result*) #1
declare void @__quantum__rt__result_record_output(%Result*, i8*)

attributes #0 = { "entry_point" "qir_profiles"="base_profile" "requiredQubits"="2" "requiredResults"="2" }
attributes #1 = { "irreversible" }
"#;
    let qasm = translate_res(ll).unwrap();
    assert!(qasm.contains("h q[0];"), "\n{qasm}");
    assert!(qasm.contains("cnot q[0], q[1];"), "\n{qasm}");
    assert!(qasm.contains("c[0] = measure q[0];"), "\n{qasm}");
    assert!(qasm.contains("c[1] = measure q[1];"), "\n{qasm}");
}



const MINIMAL_LL: &str = "\
%Qubit = type opaque

define void @main() #0 {
  call void @__quantum__qis__h__body(%Qubit* null)
  ret void
}
declare void @__quantum__qis__h__body(%Qubit*)
attributes #0 = { \"entry_point\" \"qir_profiles\"=\"base_profile\" \"requiredQubits\"=\"1\" \"requiredResults\"=\"0\" }
";

fn translate_minimal(exporter: Exporter) -> String {
    let module = parse_module(MINIMAL_LL).unwrap();
    exporter.dumps_text(&module).unwrap()
}

fn last_non_empty_line(s: &str) -> &str {
    s.lines().rfind(|l| !l.is_empty()).unwrap()
}

#[test]
fn default_exporter_emits_generated_by_as_last_line() {
    let out = translate_minimal(Exporter::new());
    // Trailing newline is preserved.
    assert!(out.ends_with('\n'), "output must end with newline: {out:?}");
    let last = last_non_empty_line(&out);
    assert!(
        last.starts_with("// generated-by: {"),
        "last line is not the provenance comment: {last:?}"
    );
}

#[test]
fn generated_by_line_contains_name_version_profile_in_order() {
    let out = translate_minimal(Exporter::new());
    let last = last_non_empty_line(&out);
    let expected = format!(
        r#"// generated-by: {{"name":"qirtoqasm","version":"{}","profile":"base_profile"}}"#,
        VERSION
    );
    assert_eq!(last, expected);
}

#[test]
fn generated_by_line_omits_producer_when_not_set() {
    let out = translate_minimal(Exporter::new());
    let last = last_non_empty_line(&out);
    assert!(
        !last.contains("\"producer\":"),
        "unset producer must not appear: {last:?}"
    );
}

#[test]
fn with_producer_round_trips_caller_string() {
    let out = translate_minimal(Exporter::new().with_producer("mylib 0.1.2"));
    let last = last_non_empty_line(&out);
    let expected = format!(
        r#"// generated-by: {{"name":"qirtoqasm","version":"{}","profile":"base_profile","producer":"mylib 0.1.2"}}"#,
        VERSION
    );
    assert_eq!(last, expected);
}

#[test]
fn with_producer_keys_are_ordered_name_version_profile_producer() {
    let out = translate_minimal(Exporter::new().with_producer("othertool 2.0"));
    let last = last_non_empty_line(&out);
    let name_idx = last.find("\"name\"").unwrap();
    let version_idx = last.find("\"version\"").unwrap();
    let profile_idx = last.find("\"profile\"").unwrap();
    let producer_idx = last.find("\"producer\"").unwrap();
    assert!(name_idx < version_idx);
    assert!(version_idx < profile_idx);
    assert!(profile_idx < producer_idx);
}

#[test]
fn with_producer_escapes_embedded_quotes_and_backslashes() {
    let out = translate_minimal(Exporter::new().with_producer("weird \"quoted\" \\ path"));
    let last = last_non_empty_line(&out);
    assert!(
        last.contains(r#""producer":"weird \"quoted\" \\ path""#),
        "quote/backslash must be JSON-escaped: {last}"
    );
}

#[test]
fn with_producer_escapes_embedded_newline_keeping_comment_single_line() {
    let out = translate_minimal(Exporter::new().with_producer("line1\nline2"));
    let generated_by_lines: Vec<&str> = out
        .lines()
        .filter(|l| l.starts_with("// generated-by:"))
        .collect();
    assert_eq!(
        generated_by_lines.len(),
        1,
        "producer newline must not split the comment: {out}"
    );
    assert!(generated_by_lines[0].contains(r#""producer":"line1\nline2""#));
}

#[test]
fn input_qir_profile_appears_in_generated_by_line() {
    // MINIMAL_LL declares `"qir_profiles"="base_profile"`.
    let out = translate_minimal(Exporter::new());
    let last = last_non_empty_line(&out);
    assert!(
        last.contains(r#""profile":"base_profile""#),
        "input profile must be surfaced: {last}"
    );
}

#[test]
fn adaptive_qir_profile_appears_in_generated_by_line() {
    let ll = "\
%Qubit = type opaque
define void @main() #0 {
  call void @__quantum__qis__h__body(%Qubit* null)
  ret void
}
declare void @__quantum__qis__h__body(%Qubit*)
attributes #0 = { \"entry_point\" \"qir_profiles\"=\"adaptive_profile\" \"requiredQubits\"=\"1\" \"requiredResults\"=\"0\" }
";
    let module = parse_module(ll).unwrap();
    let out = Exporter::new().dumps_text(&module).unwrap();
    let last = last_non_empty_line(&out);
    assert!(
        last.contains(r#""profile":"adaptive_profile""#),
        "adaptive input profile must be surfaced: {last}"
    );
}

#[test]
fn omits_profile_field_when_input_declares_none() {
    // No `qir_profiles` attribute — the field should be omitted.
    let ll = "\
%Qubit = type opaque
define void @main() #0 {
  call void @__quantum__qis__h__body(%Qubit* null)
  ret void
}
declare void @__quantum__qis__h__body(%Qubit*)
attributes #0 = { \"entry_point\" }
";
    let module = parse_module(ll).unwrap();
    let out = Exporter::new().dumps_text(&module).unwrap();
    let last = last_non_empty_line(&out);
    assert!(
        !last.contains("\"profile\""),
        "profile field must be omitted when the input declares none: {last}"
    );
}

#[test]
fn exporter_target_profile_no_longer_leaks_into_generated_by_line() {
    // Setting a custom target profile on the Exporter must not
    // change the `"profile"` field, which now tracks the input
    // QIR profile rather than the exporter's builder registry.
    let mut custom = base_profile();
    custom.name = "my_custom_target_profile".into();
    let out = translate_minimal(Exporter::new().with_profile(custom));
    let last = last_non_empty_line(&out);
    assert!(!last.contains("my_custom_target_profile"), "{last}");
    assert!(last.contains(r#""profile":"base_profile""#), "{last}");
}

#[test]
fn with_producer_is_idempotent_last_value_wins() {
    let out = translate_minimal(
        Exporter::new()
            .with_producer("first")
            .with_producer("second"),
    );
    let last = last_non_empty_line(&out);
    assert!(last.contains(r#""producer":"second""#), "{last}");
    assert!(!last.contains(r#""producer":"first""#), "{last}");
}

#[test]
fn with_producer_empty_string_omits_field() {
    let out = translate_minimal(Exporter::new().with_producer(""));
    let last = last_non_empty_line(&out);
    assert!(!last.contains("\"producer\""), "{last}");
}

#[test]
fn with_producer_empty_string_overrides_prior_value() {
    let out = translate_minimal(
        Exporter::new()
            .with_producer("mylib 0.1.2")
            .with_producer(""),
    );
    let last = last_non_empty_line(&out);
    assert!(!last.contains("\"producer\""), "{last}");
}

#[test]
fn json_escape_handles_control_characters_as_unicode_escape() {
    let buf = json_escape("\x01\x1f\x7f");
    assert_eq!(buf, r"\u0001\u001f\u007f");
}

#[test]
fn json_escape_passes_through_printable_ascii_and_non_ascii() {
    let buf = json_escape("hello · π");
    assert_eq!(buf, "hello · π");
}

#[test]
fn json_escape_handles_backspace_formfeed_tab() {
    let buf = json_escape("\x08\x09\x0c");
    assert_eq!(buf, r"\b\t\f");
}

#[test]
fn json_escape_handles_carriage_return() {
    let buf = json_escape("a\rb");
    assert_eq!(buf, r"a\rb");
}

#[test]
fn generated_by_line_matches_expected_regex_shape() {
    let out = translate_minimal(Exporter::new().with_producer("mylib 0.1.2"));
    let last = last_non_empty_line(&out);
    let rest = last.strip_prefix("// generated-by: ").expect("prefix");
    assert!(
        rest.starts_with('{') && rest.ends_with('}'),
        "shape: {last:?}"
    );
}

#[test]
fn branch_to_unknown_label_names_target_and_block() {
    let msg = translate_err("entry:\n  br label %nowhere");
    assert_eq!(
        msg,
        "branch target %nowhere in block \"entry\" does not name a block of the entry-point function"
    );
}

#[test]
fn unstructured_cfg_error_lists_remaining_blocks_sorted() {
    let msg = translate_err("entry:\n  br label %a\na:\n  br label %b\nb:\n  br label %a");
    assert!(
        msg.starts_with("could not reduce CFG to a single block; remaining blocks: ["),
        "{msg}"
    );
    assert!(msg.contains("[\"a\", \"entry\"]"), "{msg}");
    assert!(msg.ends_with(
        "]. qirtoqasm supports only structured control flow (sequence, if/else, simple while)."
    ));
}
