use qirtoqasm_core::cfg::{lower_cfg, BlockLowering};
use qirtoqasm_core::oq3::ast::{index_expr, indexed_ident, BinaryOp, Expression, Statement, UnaryOp};
fn block(
    name: &str,
    stmts: Vec<Statement>,
    cond: Option<Expression>,
    tgts: &[&str],
) -> BlockLowering {
    BlockLowering {
        name: name.into(),
        statements: stmts,
        condition: cond,
        targets: tgts.iter().map(|s| (*s).to_string()).collect(),
    }
}

fn x(q: i64) -> Statement {
    Statement::QuantumGate {
        modifiers: vec![],
        name: "x".into(),
        arguments: vec![],
        qubits: vec![indexed_ident("q", q)],
    }
}

#[test]
fn sequential_merge_concatenates_statements() {
    let blocks = vec![
        block("entry", vec![x(0)], None, &["next"]),
        block("next", vec![x(1)], None, &[]),
    ];
    let out = lower_cfg(blocks, "entry").unwrap();
    assert_eq!(out, vec![x(0), x(1)]);
}

#[test]
fn if_no_else_triangle_produces_if_statement() {
    let cond = index_expr("c", 0);
    let blocks = vec![
        block("entry", vec![x(0)], Some(cond.clone()), &["then", "exit"]),
        block("then", vec![x(1)], None, &["exit"]),
        block("exit", vec![x(2)], None, &[]),
    ];
    let out = lower_cfg(blocks, "entry").unwrap();
    let want = vec![
        x(0),
        Statement::BranchingStatement {
            condition: cond,
            if_block: vec![x(1)],
            else_block: vec![],
        },
        x(2),
    ];
    assert_eq!(out, want);
}

#[test]
fn if_else_diamond_produces_both_branches() {
    let cond = index_expr("c", 0);
    let blocks = vec![
        block("entry", vec![], Some(cond.clone()), &["t", "e"]),
        block("t", vec![x(1)], None, &["join"]),
        block("e", vec![x(2)], None, &["join"]),
        block("join", vec![x(3)], None, &[]),
    ];
    let out = lower_cfg(blocks, "entry").unwrap();
    let want = vec![
        Statement::BranchingStatement {
            condition: cond,
            if_block: vec![x(1)],
            else_block: vec![x(2)],
        },
        x(3),
    ];
    assert_eq!(out, want);
}

#[test]
fn while_loop_wraps_body_in_while() {
    // Canonical while-loop CFG: entry → head → {body → head, exit}.
    // `head` is the conditional block with two successors; `body`
    // loops back to `head`; `exit` is the post-loop block.
    let cond = index_expr("c", 0);
    let blocks = vec![
        block("entry", vec![x(0)], None, &["head"]),
        block("head", vec![], Some(cond.clone()), &["body", "exit"]),
        block("body", vec![x(1)], None, &["head"]),
        block("exit", vec![x(2)], None, &[]),
    ];
    let out = lower_cfg(blocks, "entry").unwrap();
    // After reduction the entry block absorbs everything. The head's
    // original statements (empty) are followed by the `while`, which
    // wraps the body's statements plus the head's statements, then
    // the exit block's statements follow the while.
    let expected = vec![
        x(0),
        Statement::WhileLoop {
            condition: cond,
            body: vec![x(1)],
        },
        x(2),
    ];
    assert_eq!(out, expected);
}

#[test]
fn irreducible_cfg_errors_with_pinned_substring() {
    // Diamond without a join — two terminal successors.
    let cond = index_expr("c", 0);
    let blocks = vec![
        block("entry", vec![], Some(cond), &["t", "e"]),
        block("t", vec![x(1)], None, &[]),
        block("e", vec![x(2)], None, &[]),
    ];
    let err = lower_cfg(blocks, "entry").unwrap_err();
    assert!(err.message().contains("could not reduce CFG"));
    assert!(err.message().contains("structured control flow"));
}


fn b(
    name: &str,
    stmts: Vec<Statement>,
    cond: Option<Expression>,
    targets: &[&str],
) -> BlockLowering {
    BlockLowering {
        name: name.into(),
        statements: stmts,
        condition: cond,
        targets: targets.iter().map(|s| (*s).to_string()).collect(),
    }
}


#[test]
fn empty_block_list_returns_empty_body() {
    let out = lower_cfg(Vec::new(), "entry").unwrap();
    assert!(out.is_empty());
}

#[test]
fn entry_not_in_block_list_errors() {
    let err = lower_cfg(vec![b("a", vec![], None, &[])], "missing").unwrap_err();
    assert!(err.message().contains("entry block"));
    assert!(err.message().contains("not found"));
}

#[test]
fn self_loop_negates_condition_when_loop_is_false_branch() {
    // a -> {exit, a}: loop body is taken on the false arm.
    let cond = index_expr("c", 0);
    let blocks = vec![
        b("a", vec![x(0)], Some(cond), &["exit", "a"]),
        b("exit", vec![x(1)], None, &[]),
    ];
    let out = lower_cfg(blocks, "a").unwrap();
    // Last statement of `a` should be a WhileLoop whose condition
    // is `<cond> == 0` (body on the false branch).
    let while_stmt = out
        .iter()
        .find(|s| matches!(s, Statement::WhileLoop { .. }))
        .unwrap();
    let Statement::WhileLoop { condition, .. } = while_stmt else {
        unreachable!()
    };
    let Expression::Binary { op, rhs, .. } = condition else {
        panic!("expected binary-Eq condition, got {condition:?}")
    };
    assert_eq!(*op, BinaryOp::Eq);
    assert!(matches!(rhs.as_ref(), Expression::Integer(0)));
}

#[test]
fn while_with_body_on_false_branch_negates_condition() {
    // entry -> head; head -> {exit, body}; body -> head.
    let cond = index_expr("c", 0);
    let blocks = vec![
        b("entry", vec![], None, &["head"]),
        b("head", vec![], Some(cond), &["exit", "body"]),
        b("body", vec![x(1)], None, &["head"]),
        b("exit", vec![x(2)], None, &[]),
    ];
    let out = lower_cfg(blocks, "entry").unwrap();
    let while_stmt = out
        .iter()
        .find(|s| matches!(s, Statement::WhileLoop { .. }))
        .unwrap();
    let Statement::WhileLoop { condition, .. } = while_stmt else {
        unreachable!()
    };
    let Expression::Binary { op, rhs, .. } = condition else {
        panic!("expected binary-Eq condition, got {condition:?}")
    };
    assert_eq!(*op, BinaryOp::Eq);
    assert!(matches!(rhs.as_ref(), Expression::Integer(0)));
}

#[test]
fn if_no_else_triangle_with_body_on_false_branch() {
    // entry -> {exit, body}; body -> exit.  Matches the
    // Python reducer's "b_is_true = false" path.
    let cond = index_expr("c", 0);
    let blocks = vec![
        b("entry", vec![], Some(cond), &["exit", "body"]),
        b("body", vec![x(1)], None, &["exit"]),
        b("exit", vec![], None, &[]),
    ];
    let out = lower_cfg(blocks, "entry").unwrap();
    // The BranchingStatement's `if_block` should be empty and
    // `else_block` should contain body's statements.
    let branch = out
        .iter()
        .find(|s| matches!(s, Statement::BranchingStatement { .. }))
        .unwrap();
    let Statement::BranchingStatement {
        if_block,
        else_block,
        ..
    } = branch
    else {
        unreachable!()
    };
    assert!(if_block.is_empty());
    assert_eq!(else_block.len(), 1);
}

#[test]
fn sequential_merge_fires_before_if_else_on_predecessor_block() {
    // entry -> a -> b -> exit  (a linear chain).  Pure sequential,
    // no branches at all.
    let blocks = vec![
        b("entry", vec![x(0)], None, &["a"]),
        b("a", vec![x(1)], None, &["b"]),
        b("b", vec![x(2)], None, &["exit"]),
        b("exit", vec![], None, &[]),
    ];
    let out = lower_cfg(blocks, "entry").unwrap();
    assert_eq!(out, vec![x(0), x(1), x(2)]);
}

#[test]
fn short_circuit_and_pattern_reduces_to_compound_if() {
    // entry -> {rhs, phi_block}  (short-circuit false-branch to phi_block)
    // rhs  -> phi_block
    // phi_block has compound condition: BinaryExpression(AND, ...)
    // phi_block -> {then, exit}
    // then -> exit
    let cond = index_expr("c", 0);
    let compound = Expression::Binary {
        op: BinaryOp::And,
        lhs: Box::new(Expression::Binary {
            op: BinaryOp::Eq,
            lhs: Box::new(index_expr("c", 0)),
            rhs: Box::new(Expression::Integer(1)),
        }),
        rhs: Box::new(Expression::Binary {
            op: BinaryOp::Eq,
            lhs: Box::new(index_expr("c", 1)),
            rhs: Box::new(Expression::Integer(1)),
        }),
    };
    let blocks = vec![
        b("entry", vec![], Some(cond), &["rhs", "phi_block"]),
        b("rhs", vec![], None, &["phi_block"]),
        b(
            "phi_block",
            vec![],
            Some(compound.clone()),
            &["then", "exit"],
        ),
        b("then", vec![x(1)], None, &["exit"]),
        b("exit", vec![], None, &[]),
    ];
    let out = lower_cfg(blocks, "entry").unwrap();
    // We should see a single BranchingStatement with a compound condition.
    let branch = out
        .iter()
        .find(|s| matches!(s, Statement::BranchingStatement { .. }))
        .unwrap();
    let Statement::BranchingStatement { condition, .. } = branch else {
        unreachable!()
    };
    assert_eq!(*condition, compound);
}

#[test]
fn block_lowering_debug_and_clone() {
    let b = BlockLowering {
        name: "entry".into(),
        statements: vec![],
        condition: None,
        targets: vec![],
    };
    let _ = format!("{b:?}");
    let _ = b.clone();
}

