use qirtoqasm_core::profile::{base_profile, FunctionBuilder, Profile};

fn gate_of(p: &Profile, name: &str) -> (String, bool) {
    let Some(FunctionBuilder::Gate { gate_name, adjoint }) = p.get_builder(name) else {
        panic!("expected Gate for {name}")
    };
    (gate_name.clone(), *adjoint)
}

#[test]
fn base_profile_registers_expected_builders() {
    let p = base_profile();
    assert_eq!(p.name, "base_profile");
    assert_eq!(gate_of(&p, "__quantum__qis__h__body"), ("h".to_string(), false));
    assert_eq!(gate_of(&p, "__quantum__qis__t__adj"), ("t".to_string(), true));
    assert_eq!(gate_of(&p, "__quantum__qis__cx__body").0, "cnot");
    assert_eq!(gate_of(&p, "__quantum__qis__rxx__body").0, "xx");
    assert_eq!(gate_of(&p, "__quantum__qis__ccx__body").0, "ccnot");
    assert_eq!(gate_of(&p, "__quantum__qis__phasedx__body").0, "prx");
    assert!(matches!(
        p.get_builder("__quantum__qis__mz__body"),
        Some(FunctionBuilder::Measurement)
    ));
    assert!(matches!(
        p.get_builder("__quantum__qis__mresetz__body"),
        Some(FunctionBuilder::MeasureAndReset)
    ));
    assert!(matches!(
        p.get_builder("__quantum__qis__reset__body"),
        Some(FunctionBuilder::Reset)
    ));
    assert!(matches!(
        p.get_builder("__quantum__qis__read_result__body"),
        Some(FunctionBuilder::ReadResult)
    ));
    assert!(matches!(
        p.get_builder("__quantum__rt__read_result"),
        Some(FunctionBuilder::ReadResult)
    ));
    assert!(matches!(
        p.get_builder("__quantum__rt__result_record_output"),
        Some(FunctionBuilder::RecordOutputNoop)
    ));
    assert!(matches!(
        p.get_builder("__quantum__rt__int_record_output"),
        Some(FunctionBuilder::RecordOutputNoop)
    ));
    assert!(matches!(
        p.get_builder("__quantum__rt__integer_record_output"),
        Some(FunctionBuilder::RecordOutputNoop)
    ));
    assert!(p.get_builder("__quantum__qis__imagined__body").is_none());
}

#[test]
fn register_overwrites_prior_registration() {
    let mut p = base_profile();
    p.register(
        "__quantum__qis__h__body",
        FunctionBuilder::Gate {
            gate_name: "custom_h".into(),
            adjoint: false,
        },
    );
    assert_eq!(gate_of(&p, "__quantum__qis__h__body").0, "custom_h");
}

#[test]
fn register_leaves_other_entries_alone() {
    let mut p = base_profile();
    p.register("__quantum__qis__h__body", FunctionBuilder::Reset);
    assert_eq!(gate_of(&p, "__quantum__qis__x__body").0, "x");
}

#[test]
fn contains_matches_get_builder() {
    let p = base_profile();
    assert!(p.contains("__quantum__qis__h__body"));
    assert!(!p.contains("__quantum__qis__imagined__body"));
}

#[test]
fn profile_name_accessor_and_clone() {
    let p = base_profile();
    let cloned = p.clone();
    assert_eq!(cloned.name, "base_profile");
}

#[test]
fn function_builder_debug_and_clone_for_every_variant() {
    let gate = FunctionBuilder::Gate {
        gate_name: "h".into(),
        adjoint: false,
    };
    let _ = format!("{gate:?}");
    let _ = gate.clone();
    let _ = format!("{:?}", FunctionBuilder::Measurement.clone());
    let _ = format!("{:?}", FunctionBuilder::MeasureAndReset.clone());
    let _ = format!("{:?}", FunctionBuilder::Reset.clone());
    let _ = format!("{:?}", FunctionBuilder::ReadResult.clone());
    let _ = format!("{:?}", FunctionBuilder::RecordOutputNoop.clone());
    let _ = format!("{:?}", FunctionBuilder::GeneralizedControlled.clone());
}

#[test]
fn profile_into_string_and_str_both_accepted() {
    let mut p = Profile::new("via-string");
    assert_eq!(p.name, "via-string");
    p.register(
        "foo",
        FunctionBuilder::Gate {
            gate_name: "h".into(),
            adjoint: false,
        },
    );
    p.register("bar", FunctionBuilder::Measurement);
    assert!(p.contains("foo"));
    assert!(p.contains("bar"));
}

#[test]
fn malloc_and_free_registered_as_noop() {
    let p = base_profile();
    assert!(matches!(
        p.get_builder("malloc"),
        Some(FunctionBuilder::RecordOutputNoop)
    ));
    assert!(matches!(
        p.get_builder("free"),
        Some(FunctionBuilder::RecordOutputNoop)
    ));
}

#[test]
fn llvm_intrinsic_prefix_matching() {
    let p = base_profile();
    assert!(matches!(
        p.get_builder("llvm.memcpy.p0i8.p0i8.i64"),
        Some(FunctionBuilder::RecordOutputNoop)
    ));
    assert!(matches!(
        p.get_builder("llvm.memcpy.p0.p0.i64"),
        Some(FunctionBuilder::RecordOutputNoop)
    ));
    assert!(p.get_builder("llvm.trap").is_none());
    assert!(p.get_builder("llvm_not_a_real_prefix").is_none());
}

#[test]
fn contains_reflects_prefix_matching() {
    let p = base_profile();
    assert!(p.contains("malloc"));
    assert!(p.contains("free"));
    assert!(!p.contains("unknown_function"));
}

#[test]
fn initialize_registered_as_noop() {
    let p = base_profile();
    assert!(matches!(
        p.get_builder("__quantum__rt__initialize"),
        Some(FunctionBuilder::RecordOutputNoop)
    ));
}

#[test]
fn copy_keeps_name_and_registrations() {
    let p = base_profile();
    let q = p.copy();
    assert_eq!(q.name, p.name);
    assert!(q.contains("__quantum__qis__h__body"));
    assert!(q.get_builder("llvm.memcpy.p0i8.p0i8.i64").is_some());
}
