use qirtoqasm_core::ir::FloatLit;
use qirtoqasm_core::{render, QasmPiece, QirToQasmError, TranslateOptions, VERSION};

fn format_float(value: f64) -> String {
    if value.is_nan() {
        return "nan".to_string();
    }
    if value.is_infinite() {
        return if value.is_sign_negative() { "-inf".to_string() } else { "inf".to_string() };
    }
    let s = value.to_string();
    if !s.bytes().any(|b| b == b'.' || b == b'e' || b == b'E') {
        format!("{s}.0")
    } else {
        s
    }
}

fn render_text(pieces: &[QasmPiece]) -> String {
    let floats: Vec<String> = pieces
        .iter()
        .filter_map(|p| match p {
            QasmPiece::Float(FloatLit::Bits(b)) => Some(format_float(f64::from_bits(*b))),
            QasmPiece::Float(FloatLit::Decimal(s)) => Some(format_float(s.parse().unwrap())),
            QasmPiece::Text(_) => None,
        })
        .collect();
    render(pieces, &floats)
}

fn translate(qir: &str, options: &TranslateOptions) -> Result<String, QirToQasmError> {
    qirtoqasm_core::translate(qir, options).map(|p| render_text(&p))
}

const MINIMAL_LL: &str = "\
%Qubit = type opaque
define void @main() #0 {
  call void @__quantum__qis__h__body(%Qubit* null)
  ret void
}
declare void @__quantum__qis__h__body(%Qubit*)
attributes #0 = { \"entry_point\" \"qir_profiles\"=\"base_profile\" \"requiredQubits\"=\"1\" \"requiredResults\"=\"0\" }
";

#[test]
fn default_options_omit_producer_field() {
    let out = translate(MINIMAL_LL, &TranslateOptions::default()).unwrap();
    assert!(!out.contains("\"producer\""), "{out}");
}

#[test]
fn producer_option_surfaces_in_generated_by_line() {
    let out = translate(
        MINIMAL_LL,
        &TranslateOptions::default().with_producer("mylib 0.1.2"),
    )
    .unwrap();
    assert!(out.contains(r#""producer":"mylib 0.1.2""#), "{out}");
}

#[test]
fn empty_producer_option_omits_field() {
    let out = translate(MINIMAL_LL, &TranslateOptions::default().with_producer("")).unwrap();
    assert!(!out.contains("\"producer\""), "{out}");
}

#[test]
fn with_producer_empty_overrides_prior_value() {
    let out = translate(
        MINIMAL_LL,
        &TranslateOptions::default()
            .with_producer("mylib 0.1.2")
            .with_producer(""),
    )
    .unwrap();
    assert!(!out.contains("\"producer\""), "{out}");
}

#[test]
fn translate_options_default_is_none() {
    assert!(TranslateOptions::default().producer.is_none());
}

#[test]
fn translate_options_is_cloneable() {
    let opts = TranslateOptions::default().with_producer("x");
    assert_eq!(opts.clone().producer.as_deref(), Some("x"));
}

#[test]
fn translate_minimal_module_exactly() {
    let out = translate(MINIMAL_LL, &TranslateOptions::default()).unwrap();
    let expected = format!(
        "OPENQASM 3.0;\nqubit[1] q;\nh q[0];\n// generated-by: {{\"name\":\"qirtoqasm\",\"version\":\"{VERSION}\",\"profile\":\"base_profile\"}}\n"
    );
    assert_eq!(out, expected);
}

#[test]
fn translate_surfaces_parse_errors() {
    let err = translate("define void @main() #0 {\n  ret void\n", &TranslateOptions::default())
        .unwrap_err();
    assert!(matches!(err, QirToQasmError::Syntax(_)), "{err:?}");
}

#[test]
fn version_is_non_empty() {
    assert!(!VERSION.is_empty());
}

#[test]
fn rotation_angle_float_is_rendered_by_the_caller() {
    let ll = "\
%Qubit = type opaque
define void @main() #0 {
  call void @__quantum__qis__rx__body(double 0x3FF921FB54442D18, %Qubit* null)
  call void @__quantum__qis__ry__body(double 2.000000e+00, %Qubit* null)
  ret void
}
declare void @__quantum__qis__rx__body(double, %Qubit*)
declare void @__quantum__qis__ry__body(double, %Qubit*)
attributes #0 = { \"entry_point\" }
";
    let out = translate(ll, &TranslateOptions::default()).unwrap();
    assert!(out.contains("rx(1.5707963267948966) q[0];"), "{out}");
    assert!(out.contains("ry(2.0) q[0];"), "{out}");
}

const CONTROLLED_H_LL: &str = "\
%Qubit = type opaque
define void @main() #0 {
entry:
  call void (i64, i64, i64, i64, i8*, ...) @generalizedInvokeWithRotationsControlsTargets(i64 0, i64 0, i64 1, i64 1, i8* bitcast (void (%Qubit*, %Qubit*)* @__quantum__qis__h__ctl to i8*), i8* null, %Qubit* inttoptr (i64 1 to %Qubit*))
  ret void
}
declare void @generalizedInvokeWithRotationsControlsTargets(i64, i64, i64, i64, i8*, ...)
declare void @__quantum__qis__h__ctl(%Qubit*, %Qubit*)
attributes #0 = { \"entry_point\" \"qir_profiles\"=\"adaptive_profile\" }
";

#[test]
fn controlled_h_through_translate_names_the_inner_callee() {
    let err = translate(CONTROLLED_H_LL, &TranslateOptions::default()).unwrap_err();
    assert!(matches!(err, QirToQasmError::Unsupported(_)));
    let msg = err.message();
    assert!(msg.contains("no Braket-native gate"), "{msg}");
    assert!(msg.contains("``h``"), "{msg}");
    assert!(msg.contains("numControls=1"), "{msg}");
    assert!(msg.contains("numTargets=1"), "{msg}");
}
