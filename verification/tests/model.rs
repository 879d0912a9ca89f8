use qirtoqasm_core::ir::{
    BinaryI1Op, Block, BrCondOperand, FloatLit, Function, Icmp, Instruction, Module, Operand,
    PhiIncoming, PredicateI1,
};
/// Light Debug/Clone smoke test for every public model type —
/// ensures the derived impls are actually instantiated, which
/// bumps the coverage tool past the derive macro expansion.
#[test]
fn debug_and_clone_cover_model_derives() {
    let module = Module {
        source_text: "x".into(),
        functions: vec![Function {
            name: "main".into(),
            is_declaration: false,
            is_entry_point: true,
            qir_profile: None,
            blocks: vec![Block {
                name: "entry".into(),
                instructions: vec![
                    Instruction::Call {
                        result: None,
                        callee: "f".into(),
                        args: vec![
                            Operand::ConstInt(1),
                            Operand::ConstBool(true),
                            Operand::ConstFloat(FloatLit::Bits((0.5f64).to_bits())),
                            Operand::PtrConst {
                                struct_name: Some("Qubit".into()),
                                index: 0,
                            },
                            Operand::Ssa("x".into()),
                            Operand::GlobalRef("g".into()),
                            Operand::GetElementPtr,
                            Operand::I8Null,
                        ],
                        return_type: "void".into(),
                    },
                    Instruction::Br {
                        target: "next".into(),
                    },
                    Instruction::BrCond {
                        cond: BrCondOperand::Ssa("c".into()),
                        true_target: "t".into(),
                        false_target: "f".into(),
                    },
                    Instruction::BrCond {
                        cond: BrCondOperand::Const(true),
                        true_target: "t".into(),
                        false_target: "f".into(),
                    },
                    Instruction::Ret,
                    Instruction::Icmp(Icmp {
                        result: "r".into(),
                        predicate: PredicateI1("eq".into()),
                        lhs: Operand::Ssa("a".into()),
                        rhs: Operand::ConstBool(false),
                    }),
                    Instruction::BinaryI1 {
                        result: "r".into(),
                        op: BinaryI1Op::Xor,
                        lhs: Operand::Ssa("a".into()),
                        rhs: Operand::ConstBool(true),
                    },
                    Instruction::Phi {
                        result: "p".into(),
                        value_type: "i1".into(),
                        incomings: vec![PhiIncoming {
                            value: Operand::ConstBool(false),
                            pred: "b".into(),
                        }],
                    },
                    Instruction::Ignored {
                        opcode: "load".into(),
                    },
                    Instruction::Unsupported {
                        opcode: "fadd".into(),
                    },
                ],
            }],
        }],
    };
    // Round-trip through Debug/Clone for every nested type.
    let cloned = module.clone();
    let dbg = format!("{cloned:?}");
    assert!(dbg.contains("Module"));
    assert!(dbg.contains("Function"));
    assert!(dbg.contains("Block"));
    // The .entry_point() accessor.
    assert_eq!(module.entry_point().map(|f| f.name.as_str()), Some("main"));
    // Non-entry-point / declaration variants.
    let decl_only = Module {
        source_text: "x".into(),
        functions: vec![Function {
            name: "f".into(),
            is_declaration: true,
            is_entry_point: false,
            qir_profile: None,
            blocks: vec![],
        }],
    };
    assert!(decl_only.entry_point().is_none());
}

