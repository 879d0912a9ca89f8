use qirtoqasm_core::ir::FloatLit;
use qirtoqasm_core::oq3::ast::{
    ident, index_expr, indexed_ident, BinaryOp, Expression, GateModifier, IoKind, Program,
    Statement, UnaryOp,
};
use qirtoqasm_core::oq3::printer::binary_prec;
use qirtoqasm_core::{render, QasmPiece};

fn format_float(value: f64) -> String {
    if value.is_nan() {
        return "nan".to_string();
    }
    if value.is_infinite() {
        return if value.is_sign_negative() { "-inf".to_string() } else { "inf".to_string() };
    }
    let s = value.to_string();
    if !s.bytes().any(|b| b == b'.' || b == b'e' || b == b'E') {
        format!("{s}.0")
    } else {
        s
    }
}

fn print(program: &Program) -> String {
    let pieces = qirtoqasm_core::oq3::printer::print(program);
    let floats: Vec<String> = pieces
        .iter()
        .filter_map(|p| match p {
            QasmPiece::Float(FloatLit::Bits(b)) => Some(format_float(f64::from_bits(*b))),
            QasmPiece::Float(FloatLit::Decimal(s)) => Some(format_float(s.parse().unwrap())),
            QasmPiece::Text(_) => None,
        })
        .collect();
    render(&pieces, &floats)
}

fn float(v: f64) -> Expression {
    Expression::Float(FloatLit::Bits(v.to_bits()))
}
fn printed(program: Program) -> String {
    print(&program)
}

fn bell_program(include_files: Vec<String>) -> Program {
    Program {
        version: "3.0".into(),
        statements: vec![
            Statement::QubitDeclaration {
                size: 2,
                name: "q".into(),
            },
            Statement::ClassicalDeclaration {
                bit_size: 2,
                name: "c".into(),
            },
            Statement::QuantumGate {
                modifiers: vec![],
                name: "h".into(),
                arguments: vec![],
                qubits: vec![indexed_ident("q", 0)],
            },
            Statement::QuantumGate {
                modifiers: vec![],
                name: "cnot".into(),
                arguments: vec![],
                qubits: vec![indexed_ident("q", 0), indexed_ident("q", 1)],
            },
            Statement::QuantumMeasurementStatement {
                qubit: indexed_ident("q", 0),
                target: indexed_ident("c", 0),
            },
            Statement::QuantumMeasurementStatement {
                qubit: indexed_ident("q", 1),
                target: indexed_ident("c", 1),
            },
        ]
        .into_iter()
        .chain(include_files.into_iter().map(Statement::Include))
        .collect(),
    }
}

#[test]
fn prints_bell_state_fixture_byte_for_byte() {
    let prog = bell_program(vec![]);
    let expected = "\
OPENQASM 3.0;
qubit[2] q;
bit[2] c;
h q[0];
cnot q[0], q[1];
c[0] = measure q[0];
c[1] = measure q[1];
";
    assert_eq!(printed(prog), expected);
}

#[test]
fn include_directive_prints_before_statements() {
    let prog = Program {
        version: "3.0".into(),
        statements: vec![
            Statement::Include("stdgates.inc".into()),
            Statement::QubitDeclaration {
                size: 1,
                name: "q".into(),
            },
        ],
    };
    let expected = "OPENQASM 3.0;\ninclude \"stdgates.inc\";\nqubit[1] q;\n";
    assert_eq!(printed(prog), expected);
}

#[test]
fn output_io_declaration_prefixes_output_keyword() {
    let prog = Program {
        version: "3.0".into(),
        statements: vec![Statement::IODeclaration {
            io_kind: IoKind::Output,
            bit_size: 3,
            name: "c".into(),
        }],
    };
    assert_eq!(printed(prog), "OPENQASM 3.0;\noutput bit[3] c;\n");
}

#[test]
fn gate_with_arguments_and_multiple_qubits_prints_with_commas() {
    let prog = Program {
        version: "3.0".into(),
        statements: vec![Statement::QuantumGate {
            modifiers: vec![],
            name: "rxx".into(),
            arguments: vec![float(0.5)],
            qubits: vec![indexed_ident("q", 0), indexed_ident("q", 1)],
        }],
    };
    assert_eq!(printed(prog), "OPENQASM 3.0;\nrxx(0.5) q[0], q[1];\n");
}

#[test]
fn inv_modifier_prefixes_gate_name() {
    let prog = Program {
        version: "3.0".into(),
        statements: vec![Statement::QuantumGate {
            modifiers: vec![GateModifier::Inv],
            name: "s".into(),
            arguments: vec![],
            qubits: vec![indexed_ident("q", 0)],
        }],
    };
    assert_eq!(printed(prog), "OPENQASM 3.0;\ninv @ s q[0];\n");
}

#[test]
fn reset_prints_bare() {
    let prog = Program {
        version: "3.0".into(),
        statements: vec![Statement::QuantumReset(indexed_ident("q", 0))],
    };
    assert_eq!(printed(prog), "OPENQASM 3.0;\nreset q[0];\n");
}

#[test]
fn assignment_with_bare_name_target_prints_without_brackets() {
    // Bare-name lvalue: `IndexedIdentifier { index: None, .. }`
    // should render as `k` rather than `k[…]`.
    let prog = Program {
        version: "3.0".into(),
        statements: vec![
            Statement::IntDeclaration {
                name: "k".into(),
                init: Expression::Integer(0),
            },
            Statement::Assignment {
                target: ident("k"),
                value: Expression::Integer(1),
            },
        ],
    };
    let expected = "OPENQASM 3.0;\nint k = 0;\nk = 1;\n";
    assert_eq!(printed(prog), expected);
}

#[test]
fn assignment_with_indexed_target_prints_with_brackets() {
    // Indexed lvalue: `IndexedIdentifier { index: Some(_), .. }`
    // should render as `c[0]`.
    let prog = Program {
        version: "3.0".into(),
        statements: vec![
            Statement::ClassicalDeclaration {
                bit_size: 1,
                name: "c".into(),
            },
            Statement::Assignment {
                target: indexed_ident("c", 0),
                value: Expression::Boolean(true),
            },
        ],
    };
    let expected = "OPENQASM 3.0;\nbit[1] c;\nc[0] = true;\n";
    assert_eq!(printed(prog), expected);
}

#[test]
fn if_then_block_has_no_else() {
    let prog = Program {
        version: "3.0".into(),
        statements: vec![Statement::BranchingStatement {
            condition: index_expr("c", 0),
            if_block: vec![Statement::QuantumGate {
                modifiers: vec![],
                name: "x".into(),
                arguments: vec![],
                qubits: vec![indexed_ident("q", 1)],
            }],
            else_block: vec![],
        }],
    };
    let expected = "OPENQASM 3.0;\nif (c[0]) {\n  x q[1];\n}\n";
    assert_eq!(printed(prog), expected);
}

#[test]
fn if_else_block_prints_else_brace_on_same_line() {
    let prog = Program {
        version: "3.0".into(),
        statements: vec![Statement::BranchingStatement {
            condition: index_expr("c", 0),
            if_block: vec![Statement::QuantumGate {
                modifiers: vec![],
                name: "x".into(),
                arguments: vec![],
                qubits: vec![indexed_ident("q", 1)],
            }],
            else_block: vec![Statement::QuantumGate {
                modifiers: vec![],
                name: "z".into(),
                arguments: vec![],
                qubits: vec![indexed_ident("q", 1)],
            }],
        }],
    };
    let expected = "OPENQASM 3.0;\nif (c[0]) {\n  x q[1];\n} else {\n  z q[1];\n}\n";
    assert_eq!(printed(prog), expected);
}

#[test]
fn compound_and_condition_renders_with_expected_parens() {
    // Matches qsharp_and.qasm: `if (c[0] == 1 && c[1] == 1) {`
    let cond = Expression::Binary {
        op: BinaryOp::And,
        lhs: Expression::Binary {
            op: BinaryOp::Eq,
            lhs: Box::new(index_expr("c", 0)),
            rhs: Box::new(Expression::Integer(1)),
        }
        .boxed(),
        rhs: Expression::Binary {
            op: BinaryOp::Eq,
            lhs: Box::new(index_expr("c", 1)),
            rhs: Box::new(Expression::Integer(1)),
        }
        .boxed(),
    };
    let prog = Program {
        version: "3.0".into(),
        statements: vec![Statement::BranchingStatement {
            condition: cond,
            if_block: vec![],
            else_block: vec![],
        }],
    };
    // An empty if-block still gets its braces.
    let expected = "OPENQASM 3.0;\nif (c[0] == 1 && c[1] == 1) {\n}\n";
    assert_eq!(printed(prog), expected);
}

#[test]
fn left_associative_chain_ands_without_extra_parens() {
    // (c[0] == 1 && c[1] == 1) && c[2] == 1
    let first = Expression::Binary {
        op: BinaryOp::And,
        lhs: Expression::Binary {
            op: BinaryOp::Eq,
            lhs: Box::new(index_expr("c", 0)),
            rhs: Box::new(Expression::Integer(1)),
        }
        .boxed(),
        rhs: Expression::Binary {
            op: BinaryOp::Eq,
            lhs: Box::new(index_expr("c", 1)),
            rhs: Box::new(Expression::Integer(1)),
        }
        .boxed(),
    };
    let chained = Expression::Binary {
        op: BinaryOp::And,
        lhs: Box::new(first),
        rhs: Expression::Binary {
            op: BinaryOp::Eq,
            lhs: Box::new(index_expr("c", 2)),
            rhs: Box::new(Expression::Integer(1)),
        }
        .boxed(),
    };
    let prog = Program {
        version: "3.0".into(),
        statements: vec![Statement::BranchingStatement {
            condition: chained,
            if_block: vec![],
            else_block: vec![],
        }],
    };
    let expected = "OPENQASM 3.0;\nif (c[0] == 1 && c[1] == 1 && c[2] == 1) {\n}\n";
    assert_eq!(printed(prog), expected);
}

#[test]
fn while_loop_prints_with_body() {
    let prog = Program {
        version: "3.0".into(),
        statements: vec![Statement::WhileLoop {
            condition: Expression::Boolean(true),
            body: vec![Statement::QuantumGate {
                modifiers: vec![],
                name: "h".into(),
                arguments: vec![],
                qubits: vec![indexed_ident("q", 0)],
            }],
        }],
    };
    let expected = "OPENQASM 3.0;\nwhile (true) {\n  h q[0];\n}\n";
    assert_eq!(printed(prog), expected);
}




#[test]
fn unary_not_bool_literal_needs_parens_on_same_precedence() {
    // `!true` — bool literal has higher precedence than unary, so no parens.
    let expr = Expression::Unary {
        op: UnaryOp::Not,
        expr: Box::new(Expression::Boolean(true)),
    };
    let prog = Program {
        version: "".into(),
        statements: vec![Statement::BranchingStatement {
            condition: expr,
            if_block: vec![],
            else_block: vec![],
        }],
    };
    assert_eq!(print(&prog), "if (!true) {\n}\n");
}

#[test]
fn index_of_parenthesised_binary_paren_only_when_lower_precedence() {
    // `(c[0] + 1)` wrapped as an index-collection: IndexExpression has prec 13,
    // binary Add has prec 9, so the printer MUST parenthesise the collection.
    let expr = Expression::Index {
        collection: Expression::Binary {
            op: BinaryOp::Add,
            lhs: Box::new(index_expr("c", 0)),
            rhs: Box::new(Expression::Integer(1)),
        }
        .boxed(),
        index: Box::new(Expression::Integer(0)),
    };
    // Embed in a condition so the printer is exercised via BranchingStatement.
    let prog = Program {
        version: "".into(),
        statements: vec![Statement::BranchingStatement {
            condition: expr,
            if_block: vec![],
            else_block: vec![],
        }],
    };
    assert_eq!(print(&prog), "if ((c[0] + 1)[0]) {\n}\n");
}

fn wrap_cond(cond: Expression) -> String {
    let prog = Program {
        version: "".into(),
        statements: vec![Statement::BranchingStatement {
            condition: cond,
            if_block: vec![],
            else_block: vec![],
        }],
    };
    print(&prog)
}

#[test]
fn every_binary_operator_has_precedence() {
    let ops = [
        BinaryOp::Or,
        BinaryOp::And,
        BinaryOp::BitOr,
        BinaryOp::BitXor,
        BinaryOp::BitAnd,
        BinaryOp::Eq,
        BinaryOp::Ne,
        BinaryOp::Lt,
        BinaryOp::Le,
        BinaryOp::Gt,
        BinaryOp::Ge,
        BinaryOp::Shl,
        BinaryOp::Shr,
        BinaryOp::Add,
        BinaryOp::Sub,
        BinaryOp::Mul,
        BinaryOp::Div,
        BinaryOp::Mod,
        BinaryOp::Pow,
    ];
    for op in ops {
        let p = binary_prec(op);
        assert!((1..=12).contains(&p), "{op:?}");
    }
}

#[test]
fn printer_wraps_unary_with_parens_when_inner_has_lower_precedence() {
    // `!(a && b)` — unary has higher precedence than &&, so &&
    // must be parenthesised.
    let expr = Expression::Unary {
        op: UnaryOp::Not,
        expr: Box::new(Expression::Binary {
            op: BinaryOp::And,
            lhs: Box::new(Expression::Boolean(true)),
            rhs: Box::new(Expression::Boolean(false)),
        }),
    };
    let out = wrap_cond(expr);
    assert!(out.contains("!(true && false)"), "{out}");
}

#[test]
fn printer_wraps_binary_with_parens_when_lhs_has_lower_prec() {
    // `(a + b) * c`
    let expr = Expression::Binary {
        op: BinaryOp::Mul,
        lhs: Box::new(Expression::Binary {
            op: BinaryOp::Add,
            lhs: Box::new(Expression::Integer(1)),
            rhs: Box::new(Expression::Integer(2)),
        }),
        rhs: Box::new(Expression::Integer(3)),
    };
    let out = wrap_cond(expr);
    assert!(out.contains("(1 + 2) * 3"), "{out}");
}

#[test]
fn printer_wraps_binary_with_parens_when_rhs_has_equal_prec() {
    // `a + (b + c)` — left-associative, rhs of equal prec gets parens.
    let expr = Expression::Binary {
        op: BinaryOp::Add,
        lhs: Box::new(Expression::Integer(1)),
        rhs: Box::new(Expression::Binary {
            op: BinaryOp::Add,
            lhs: Box::new(Expression::Integer(2)),
            rhs: Box::new(Expression::Integer(3)),
        }),
    };
    let out = wrap_cond(expr);
    assert!(out.contains("1 + (2 + 3)"), "{out}");
}

#[test]
fn every_binary_op_renders_with_expected_spelling() {
    let pairs = [
        (BinaryOp::Or, "||"),
        (BinaryOp::And, "&&"),
        (BinaryOp::BitOr, "|"),
        (BinaryOp::BitXor, "^"),
        (BinaryOp::BitAnd, "&"),
        (BinaryOp::Eq, "=="),
        (BinaryOp::Ne, "!="),
        (BinaryOp::Lt, "<"),
        (BinaryOp::Le, "<="),
        (BinaryOp::Gt, ">"),
        (BinaryOp::Ge, ">="),
        (BinaryOp::Shl, "<<"),
        (BinaryOp::Shr, ">>"),
        (BinaryOp::Add, "+"),
        (BinaryOp::Sub, "-"),
        (BinaryOp::Mul, "*"),
        (BinaryOp::Div, "/"),
        (BinaryOp::Mod, "%"),
        (BinaryOp::Pow, "**"),
    ];
    for (op, spelling) in pairs {
        let out = wrap_cond(Expression::Binary {
            op,
            lhs: Box::new(Expression::Identifier("a".into())),
            rhs: Box::new(Expression::Identifier("b".into())),
        });
        assert!(out.contains(&format!(" {spelling} ")), "{op:?} -> {out:?}");
    }
}

#[test]
fn precedence_of_unary_subexpr() {
    // Unary inside an index [...]: Unary has prec 11, IndexExpression 13.
    // Since 11 < 13, the collection (the unary) must be parenthesised.
    let expr = Expression::Index {
        collection: Box::new(Expression::Unary {
            op: UnaryOp::Neg,
            expr: Box::new(Expression::Integer(1)),
        }),
        index: Box::new(Expression::Integer(0)),
    };
    let out = wrap_cond(expr);
    assert!(out.contains("(-1)[0]"), "{out}");
}

