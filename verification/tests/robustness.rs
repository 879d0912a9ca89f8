use qirtoqasm_core::ir::FloatLit;
use qirtoqasm_core::{render, QasmPiece, QirToQasmError, TranslateOptions};

fn format_float(value: f64) -> String {
    if value.is_nan() {
        return "nan".to_string();
    }
    if value.is_infinite() {
        return if value.is_sign_negative() { "-inf".to_string() } else { "inf".to_string() };
    }
    let s = value.to_string();
    if !s.bytes().any(|b| b == b'.' || b == b'e' || b == b'E') {
        format!("{s}.0")
    } else {
        s
    }
}

fn render_text(pieces: &[QasmPiece]) -> String {
    let floats: Vec<String> = pieces
        .iter()
        .filter_map(|p| match p {
            QasmPiece::Float(FloatLit::Bits(b)) => Some(format_float(f64::from_bits(*b))),
            QasmPiece::Float(FloatLit::Decimal(s)) => Some(format_float(s.parse().unwrap())),
            QasmPiece::Text(_) => None,
        })
        .collect();
    render(pieces, &floats)
}

fn translate(qir: &str, options: &TranslateOptions) -> Result<String, QirToQasmError> {
    qirtoqasm_core::translate(qir, options).map(|p| render_text(&p))
}

fn wrap(body: &str) -> String {
    format!(
        "%Qubit = type opaque\n%Result = type opaque\n\
         define void @main() #0 {{\n{body}\n}}\n\
         declare void @__quantum__qis__h__body(%Qubit*)\n\
         declare void @__quantum__qis__x__body(%Qubit*)\n\
         declare void @__quantum__qis__mz__body(%Qubit*, %Result*)\n\
         attributes #0 = {{ \"entry_point\" \"qir_profiles\"=\"base_profile\" }}\n"
    )
}

fn translate_wrapped(body: &str) -> Result<String, QirToQasmError> {
    translate(&wrap(body), &TranslateOptions::default())
}

#[test]
fn branch_to_undefined_block_label_surfaces_clear_error() {
    let body = "  call void @__quantum__qis__h__body(%Qubit* null)\n\
                br label %ghost";
    let err = translate_wrapped(body).unwrap_err();
    let msg = err.message();
    assert!(msg.contains("branch target"), "{msg}");
    assert!(msg.contains("%ghost"), "{msg}");
}

#[test]
fn duplicate_block_label_surfaces_clear_error() {
    let ll = r#"
%Qubit = type opaque
%Result = type opaque

define void @main() #0 {
entry:
  br label %dup
dup:
  call void @__quantum__qis__h__body(%Qubit* null)
  br label %tail
dup:
  call void @__quantum__qis__x__body(%Qubit* null)
  br label %tail
tail:
  ret void
}
declare void @__quantum__qis__h__body(%Qubit*)
declare void @__quantum__qis__x__body(%Qubit*)
attributes #0 = { "entry_point" "qir_profiles"="base_profile" }
"#;
    let err = translate(ll, &TranslateOptions::default()).unwrap_err();
    let msg = err.message();
    assert!(msg.contains("duplicate block label"), "{msg}");
    assert!(msg.contains("%dup"), "{msg}");
}

#[test]
fn qubit_index_overflow_surfaces_clear_error() {
    let body = "  call void @__quantum__qis__h__body(\
                %Qubit* inttoptr (i64 9223372036854775807 to %Qubit*))\n\
                ret void";
    let err = translate_wrapped(body).unwrap_err();
    let msg = err.message();
    assert!(msg.contains("qubit index too large"), "{msg}");
}

#[test]
fn unbalanced_closing_bracket_in_call_args_surfaces_syntax_error() {
    let body = "  call void @__quantum__qis__h__body(%Qubit* null }, %Qubit* null)\n\
                ret void";
    let err = translate_wrapped(body).unwrap_err();
    let msg = err.message();
    assert!(msg.contains("unbalanced closing bracket"), "{msg}");
}
