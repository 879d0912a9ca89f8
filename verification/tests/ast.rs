use qirtoqasm_core::ir::FloatLit;
use qirtoqasm_core::oq3::ast::{
    index_expr, indexed_ident, BinaryOp, Expression, GateModifier, IoKind, Program, Statement,
    UnaryOp,
};

#[test]
fn binary_op_text_and_boolean_flags() {
    let all = [
        (BinaryOp::Or, "||", true),
        (BinaryOp::And, "&&", true),
        (BinaryOp::BitOr, "|", false),
        (BinaryOp::BitXor, "^", false),
        (BinaryOp::BitAnd, "&", false),
        (BinaryOp::Eq, "==", true),
        (BinaryOp::Ne, "!=", true),
        (BinaryOp::Lt, "<", true),
        (BinaryOp::Le, "<=", true),
        (BinaryOp::Gt, ">", true),
        (BinaryOp::Ge, ">=", true),
        (BinaryOp::Shl, "<<", false),
        (BinaryOp::Shr, ">>", false),
        (BinaryOp::Add, "+", false),
        (BinaryOp::Sub, "-", false),
        (BinaryOp::Mul, "*", false),
        (BinaryOp::Div, "/", false),
        (BinaryOp::Mod, "%", false),
        (BinaryOp::Pow, "**", false),
    ];
    for (op, text, is_bool) in all {
        assert_eq!(op.as_str(), text);
        assert_eq!(op.is_boolean_producing(), is_bool, "{op:?}");
    }
}

#[test]
fn unary_op_text() {
    assert_eq!(UnaryOp::Not.as_str(), "!");
    assert_eq!(UnaryOp::Neg.as_str(), "-");
}

#[test]
fn boxed_wraps_in_box() {
    let e = Expression::Integer(1).boxed();
    assert!(matches!(*e, Expression::Integer(1)));
}

#[test]
fn index_expr_and_indexed_ident_helpers() {
    let e = index_expr("c", 7);
    assert!(matches!(e, Expression::Index { .. }));
    let id = indexed_ident("q", 3);
    assert_eq!(id.name, "q");
    assert_eq!(id.index, Some(Expression::Integer(3)));
}

#[test]
fn debug_and_clone_round_trip() {
    let p = Program {
        version: "3.0".into(),
        statements: vec![
            Statement::Include("f.inc".into()),
            Statement::QubitDeclaration {
                size: 1,
                name: "q".into(),
            },
            Statement::ClassicalDeclaration {
                bit_size: 1,
                name: "c".into(),
            },
            Statement::IODeclaration {
                io_kind: IoKind::Output,
                bit_size: 1,
                name: "c".into(),
            },
            Statement::QuantumGate {
                modifiers: vec![GateModifier::Inv],
                name: "s".into(),
                arguments: vec![
                    Expression::Identifier("x".into()),
                    Expression::Float(FloatLit::Bits(1.5f64.to_bits())),
                    Expression::Boolean(true),
                    Expression::Unary {
                        op: UnaryOp::Neg,
                        expr: Box::new(Expression::Integer(2)),
                    },
                ],
                qubits: vec![indexed_ident("q", 0)],
            },
            Statement::QuantumMeasurementStatement {
                qubit: indexed_ident("q", 0),
                target: indexed_ident("c", 0),
            },
            Statement::QuantumReset(indexed_ident("q", 0)),
            Statement::BranchingStatement {
                condition: Expression::Boolean(true),
                if_block: vec![],
                else_block: vec![],
            },
            Statement::WhileLoop {
                condition: Expression::Boolean(false),
                body: vec![],
            },
        ],
    };
    let cloned = p.clone();
    assert_eq!(p, cloned);
    let dbg = format!("{p:?}");
    assert!(dbg.contains("Program"));
}
