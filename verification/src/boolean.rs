//! Compound-Boolean lowering: `icmp`, bitwise `and`/`or`/`xor i1`,
//! `select`, integer `add`/`sub`/`mul`, and short-circuit `phi i1`
//! merges. Each lowering binds the instruction's SSA result to an
//! OpenQASM expression in the symbol table.
use vstd::prelude::*;

use crate::error::{err_view, unsupported_err, ErrView, QirToQasmError};
use crate::ir::model::{operand_debug_text, push_operand_debug};
use crate::ir::{BinaryI1Op, IntArithOp, Operand, PhiIncoming};
use crate::oq3::ast::{bin, copy_expr, int_lit, not, spec_bin, spec_not, BinaryOp, Expression};
use crate::ordered_map::entries_insert;
use crate::symbols::{unbound_ssa_msg, SymbolTable};
use crate::text::{chars_of, chars_is, int_text, push_debug, push_int, push_str, str_debug_text};

verus! {

// ---------------------------------------------------------------------------
// Operand resolution
// ---------------------------------------------------------------------------

/// The `i1` constant an operand denotes, if any.
pub open spec fn spec_constant_i1(op: Operand) -> Option<bool> {
    match op {
        Operand::ConstBool(b) => Some(b),
        Operand::ConstInt(n) => if n == 1 {
            Some(true)
        } else if n == 0 {
            Some(false)
        } else {
            None
        },
        _ => None,
    }
}

pub fn constant_i1_value(op: &Operand) -> (r: Option<bool>)
    ensures
        r == spec_constant_i1(*op),
{
    match op {
        Operand::ConstBool(b) => Some(*b),
        Operand::ConstInt(n) => {
            if *n == 1 {
                Some(true)
            } else if *n == 0 {
                Some(false)
            } else {
                None
            }
        },
        _ => None,
    }
}

/// What an SSA reference reads as: its binding, or the unbound error.
pub open spec fn spec_lookup(t: SymbolTable, id: Seq<char>) -> Result<Expression, ErrView> {
    match t.binding(id) {
        Some(e) => Ok(e),
        None => Err(ErrView::Unsupported(unbound_ssa_msg(id))),
    }
}

fn lookup(t: &SymbolTable, id: &String) -> (r: Result<Expression, QirToQasmError>)
    requires
        t.wf(),
    ensures
        crate::error::res_view(r, |e: Expression| e) == spec_lookup(*t, id@),
{
    t.lookup_ssa(id.as_str())
}

/// An operand in an `i1` context: constants as `0`/`1`, SSA values by
/// their binding.
pub open spec fn spec_resolve_i1(t: SymbolTable, op: Operand) -> Result<Expression, ErrView> {
    match op {
        Operand::ConstBool(b) => Ok(Expression::Integer(if b { 1 } else { 0 })),
        Operand::ConstInt(n) => if n == 0 || n == 1 {
            Ok(Expression::Integer(n as i64))
        } else {
            Err(ErrView::Unsupported("could not interpret i1 constant operand "@ + int_text(n as int)))
        },
        Operand::Ssa(id) => spec_lookup(t, id@),
        _ => Err(ErrView::Unsupported("could not interpret i1 constant operand "@ + str_debug_text(operand_debug_text(op)))),
    }
}

pub fn resolve_i1_operand(t: &SymbolTable, op: &Operand) -> (r: Result<Expression, QirToQasmError>)
    requires
        t.wf(),
    ensures
        crate::error::res_view(r, |e: Expression| e) == spec_resolve_i1(*t, *op),
{
    match op {
        Operand::ConstBool(b) => Ok(int_lit(if *b { 1 } else { 0 })),
        Operand::ConstInt(n) => {
            if *n == 0 || *n == 1 {
                Ok(int_lit(*n as i64))
            } else {
                let mut m: Vec<char> = Vec::new();
                push_str(&mut m, "could not interpret i1 constant operand ");
                push_int(&mut m, *n);
                Err(unsupported_err(&m))
            }
        },
        Operand::Ssa(id) => lookup(t, id),
        _ => {
            let mut d: Vec<char> = Vec::new();
            push_operand_debug(&mut d, op);
            let mut m: Vec<char> = Vec::new();
            push_str(&mut m, "could not interpret i1 constant operand ");
            push_debug(&mut m, &d);
            Err(unsupported_err(&m))
        },
    }
}

/// An operand in an integer context: Boolean and integer constants (the
/// latter must fit `i64`) and SSA values.
pub open spec fn spec_resolve_int(t: SymbolTable, op: Operand) -> Result<Expression, ErrView> {
    match op {
        Operand::ConstBool(b) => Ok(Expression::Integer(if b { 1 } else { 0 })),
        Operand::ConstInt(n) => if i64::MIN <= n <= i64::MAX {
            Ok(Expression::Integer(n as i64))
        } else {
            Err(ErrView::Unsupported("integer constant "@ + int_text(n as int)
                + " does not fit in i64; wider integer constants are not yet supported"@))
        },
        Operand::Ssa(id) => spec_lookup(t, id@),
        _ => Err(ErrView::Unsupported("could not interpret integer operand "@ + str_debug_text(operand_debug_text(op)))),
    }
}

fn resolve_integer_operand(t: &SymbolTable, op: &Operand) -> (r: Result<Expression, QirToQasmError>)
    requires
        t.wf(),
    ensures
        crate::error::res_view(r, |e: Expression| e) == spec_resolve_int(*t, *op),
{
    match op {
        Operand::ConstBool(b) => Ok(int_lit(if *b { 1 } else { 0 })),
        Operand::ConstInt(n) => {
            if i64::MIN as i128 <= *n && *n <= i64::MAX as i128 {
                Ok(int_lit(*n as i64))
            } else {
                let mut m: Vec<char> = Vec::new();
                push_str(&mut m, "integer constant ");
                push_int(&mut m, *n);
                push_str(&mut m, " does not fit in i64; wider integer constants are not yet supported");
                Err(unsupported_err(&m))
            }
        },
        Operand::Ssa(id) => lookup(t, id),
        _ => {
            let mut d: Vec<char> = Vec::new();
            push_operand_debug(&mut d, op);
            let mut m: Vec<char> = Vec::new();
            push_str(&mut m, "could not interpret integer operand ");
            push_debug(&mut m, &d);
            Err(unsupported_err(&m))
        },
    }
}

/// An expression as a Boolean operand: left alone when its operator yields
/// a Boolean, otherwise `e == 1`.
pub open spec fn spec_as_boolean(e: Expression) -> Expression {
    match e {
        Expression::Binary { op, .. } => if op.produces_boolean() {
            e
        } else {
            spec_bin(BinaryOp::Eq, e, Expression::Integer(1))
        },
        _ => spec_bin(BinaryOp::Eq, e, Expression::Integer(1)),
    }
}

/// Normalise an expression to a form the simulator accepts as a Boolean
/// operand (wrap bare integer-typed values as `<expr> == 1`).
pub fn as_boolean_expression(expr: Expression) -> (r: Expression)
    ensures
        r == spec_as_boolean(expr),
{
    let keep = match &expr {
        Expression::Binary { op, .. } => op.is_boolean_producing(),
        _ => false,
    };
    if keep {
        expr
    } else {
        bin(BinaryOp::Eq, expr, int_lit(1))
    }
}

/// Normalising twice is normalising once.
pub proof fn law_as_boolean_idempotent(e: Expression)
    ensures
        spec_as_boolean(spec_as_boolean(e)) == spec_as_boolean(e),
{
}

// ---------------------------------------------------------------------------
// Lowerings
// ---------------------------------------------------------------------------

/// The OpenQASM operator of an `icmp` predicate; signed and unsigned
/// families collapse.
pub open spec fn spec_icmp_op(pred: Seq<char>) -> Option<BinaryOp> {
    if pred == "eq"@ {
        Some(BinaryOp::Eq)
    } else if pred == "ne"@ {
        Some(BinaryOp::Ne)
    } else if pred == "ult"@ || pred == "slt"@ {
        Some(BinaryOp::Lt)
    } else if pred == "ule"@ || pred == "sle"@ {
        Some(BinaryOp::Le)
    } else if pred == "ugt"@ || pred == "sgt"@ {
        Some(BinaryOp::Gt)
    } else if pred == "uge"@ || pred == "sge"@ {
        Some(BinaryOp::Ge)
    } else {
        None
    }
}

/// The message for an unsupported `icmp` predicate.
pub open spec fn bad_predicate_msg(pred: Seq<char>) -> Seq<char> {
    "icmp predicate "@ + str_debug_text(pred)
        + " is not supported; supported predicates are [\"eq\", \"ne\", \"ult\", \"slt\", \"ule\", \"sle\", \"ugt\", \"sgt\", \"uge\", \"sge\"]"@
}

/// The expression an `icmp` binds.
pub open spec fn spec_icmp(t: SymbolTable, pred: Seq<char>, lhs: Operand, rhs: Operand) -> Result<Expression, ErrView> {
    match spec_icmp_op(pred) {
        None => Err(ErrView::Unsupported(bad_predicate_msg(pred))),
        Some(op) => match spec_resolve_int(t, lhs) {
            Err(e) => Err(e),
            Ok(l) => match spec_resolve_int(t, rhs) {
                Err(e) => Err(e),
                Ok(r) => Ok(spec_bin(op, l, r)),
            },
        },
    }
}

/// What a lowering that binds `key` to the expression `res` leaves in the
/// table: the binding on success, nothing changed on failure.
pub open spec fn binds(
    before: SymbolTable,
    after: SymbolTable,
    key: Seq<char>,
    res: Result<Expression, ErrView>,
    r: Result<(), QirToQasmError>,
) -> bool {
    &&& after.wf()
    &&& after.qubit_max() == before.qubit_max()
    &&& after.result_max() == before.result_max()
    &&& after.aliases() == before.aliases()
    &&& after.slots() == before.slots()
    &&& match res {
        Ok(e) => r is Ok && after.bindings() == entries_insert(before.bindings(), key, e),
        Err(ev) => r matches Err(x) && err_view(x) == ev && after.bindings() == before.bindings(),
    }
}

fn icmp_op(pred: &str) -> (r: Option<BinaryOp>)
    ensures
        r == spec_icmp_op(pred@),
{
    let p = chars_of(pred);
    if chars_is(&p, "eq") {
        Some(BinaryOp::Eq)
    } else if chars_is(&p, "ne") {
        Some(BinaryOp::Ne)
    } else if chars_is(&p, "ult") || chars_is(&p, "slt") {
        Some(BinaryOp::Lt)
    } else if chars_is(&p, "ule") || chars_is(&p, "sle") {
        Some(BinaryOp::Le)
    } else if chars_is(&p, "ugt") || chars_is(&p, "sgt") {
        Some(BinaryOp::Gt)
    } else if chars_is(&p, "uge") || chars_is(&p, "sge") {
        Some(BinaryOp::Ge)
    } else {
        None
    }
}

/// Lower an `icmp <pred>` into a comparison bound to the instruction's SSA
/// result. All ten LLVM integer predicates are accepted.
pub fn lower_icmp_i1(
    result_key: &str,
    predicate: &str,
    lhs: &Operand,
    rhs: &Operand,
    symbols: &mut SymbolTable,
) -> (r: Result<(), QirToQasmError>)
    requires
        old(symbols).wf(),
    ensures
        binds(*old(symbols), *final(symbols), result_key@, spec_icmp(*old(symbols), predicate@, *lhs, *rhs), r),
{
    let op = match icmp_op(predicate) {
        Some(o) => o,
        None => {
            let p = chars_of(predicate);
            let mut m: Vec<char> = Vec::new();
            push_str(&mut m, "icmp predicate ");
            push_debug(&mut m, &p);
            push_str(
                &mut m,
                " is not supported; supported predicates are [\"eq\", \"ne\", \"ult\", \"slt\", \"ule\", \"sle\", \"ugt\", \"sgt\", \"uge\", \"sge\"]",
            );
            return Err(unsupported_err(&m));
        },
    };
    let l = resolve_integer_operand(symbols, lhs)?;
    let r = resolve_integer_operand(symbols, rhs)?;
    symbols.record_ssa(result_key, bin(op, l, r));
    Ok(())
}

/// The expression an `xor`/`and`/`or i1` binds. `xor` with one constant
/// operand folds: `true` gives `x == 0`, `false` gives `x`; otherwise `xor`
/// is `!=`, `and` is `&&`, `or` is `||` over Boolean-normalised operands.
pub open spec fn spec_binary_i1(t: SymbolTable, op: BinaryI1Op, lhs: Operand, rhs: Operand) -> Result<Expression, ErrView> {
    let lc = spec_constant_i1(lhs);
    let rc = spec_constant_i1(rhs);
    let non_const = if lc is None { lhs } else { rhs };
    if op == BinaryI1Op::Xor && ((lc is None && rc == Some(true)) || (lc == Some(true) && rc is None)) {
        match spec_resolve_i1(t, non_const) {
            Err(e) => Err(e),
            Ok(e) => Ok(spec_bin(BinaryOp::Eq, e, Expression::Integer(0))),
        }
    } else if op == BinaryI1Op::Xor && ((lc is None && rc == Some(false)) || (lc == Some(false) && rc is None)) {
        spec_resolve_i1(t, non_const)
    } else {
        let o = match op {
            BinaryI1Op::Xor => BinaryOp::Ne,
            BinaryI1Op::And => BinaryOp::And,
            BinaryI1Op::Or => BinaryOp::Or,
        };
        match spec_resolve_i1(t, lhs) {
            Err(e) => Err(e),
            Ok(l) => match spec_resolve_i1(t, rhs) {
                Err(e) => Err(e),
                Ok(r) => Ok(spec_bin(o, spec_as_boolean(l), spec_as_boolean(r))),
            },
        }
    }
}

/// Lower an `i1` binary operation (`xor` / `and` / `or`) to a Boolean
/// expression (see [`spec_binary_i1`]).
pub fn lower_binary_i1(
    result_key: &str,
    op: BinaryI1Op,
    lhs: &Operand,
    rhs: &Operand,
    symbols: &mut SymbolTable,
) -> (r: Result<(), QirToQasmError>)
    requires
        old(symbols).wf(),
    ensures
        binds(*old(symbols), *final(symbols), result_key@, spec_binary_i1(*old(symbols), op, *lhs, *rhs), r),
{
    if op == BinaryI1Op::Xor {
        let lc = constant_i1_value(lhs);
        let rc = constant_i1_value(rhs);
        let non_const = if lc.is_none() { lhs } else { rhs };
        let fold_true = (lc.is_none() && rc == Some(true)) || (lc == Some(true) && rc.is_none());
        let fold_false = (lc.is_none() && rc == Some(false)) || (lc == Some(false) && rc.is_none());
        if fold_true {
            let e = resolve_i1_operand(symbols, non_const)?;
            symbols.record_ssa(result_key, bin(BinaryOp::Eq, e, int_lit(0)));
            return Ok(());
        }
        if fold_false {
            let e = resolve_i1_operand(symbols, non_const)?;
            symbols.record_ssa(result_key, e);
            return Ok(());
        }
    }
    let o = match op {
        BinaryI1Op::Xor => BinaryOp::Ne,
        BinaryI1Op::And => BinaryOp::And,
        BinaryI1Op::Or => BinaryOp::Or,
    };
    let l = resolve_i1_operand(symbols, lhs)?;
    let r = resolve_i1_operand(symbols, rhs)?;
    symbols.record_ssa(result_key, bin(o, as_boolean_expression(l), as_boolean_expression(r)));
    Ok(())
}

/// The expression an integer `add`/`sub`/`mul` binds.
pub open spec fn spec_int_arith(t: SymbolTable, op: IntArithOp, lhs: Operand, rhs: Operand) -> Result<Expression, ErrView> {
    let o = match op {
        IntArithOp::Add => BinaryOp::Add,
        IntArithOp::Sub => BinaryOp::Sub,
        IntArithOp::Mul => BinaryOp::Mul,
    };
    match spec_resolve_int(t, lhs) {
        Err(e) => Err(e),
        Ok(l) => match spec_resolve_int(t, rhs) {
            Err(e) => Err(e),
            Ok(r) => Ok(spec_bin(o, l, r)),
        },
    }
}

/// Lower integer `add` / `sub` / `mul` to an arithmetic expression bound to
/// the result SSA.
pub fn lower_int_arith(
    result_key: &str,
    op: IntArithOp,
    lhs: &Operand,
    rhs: &Operand,
    symbols: &mut SymbolTable,
) -> (r: Result<(), QirToQasmError>)
    requires
        old(symbols).wf(),
    ensures
        binds(*old(symbols), *final(symbols), result_key@, spec_int_arith(*old(symbols), op, *lhs, *rhs), r),
{
    let o = match op {
        IntArithOp::Add => BinaryOp::Add,
        IntArithOp::Sub => BinaryOp::Sub,
        IntArithOp::Mul => BinaryOp::Mul,
    };
    let l = resolve_integer_operand(symbols, lhs)?;
    let r = resolve_integer_operand(symbols, rhs)?;
    symbols.record_ssa(result_key, bin(o, l, r));
    Ok(())
}

/// The expression an integer `select` binds: `c * a + (1 - c) * b`.
pub open spec fn spec_select_integer(t: SymbolTable, cond: Operand, a: Operand, b: Operand) -> Result<Expression, ErrView> {
    match spec_resolve_i1(t, cond) {
        Err(e) => Err(e),
        Ok(c) => match spec_resolve_int(t, a) {
            Err(e) => Err(e),
            Ok(te) => match spec_resolve_int(t, b) {
                Err(e) => Err(e),
                Ok(fe) => Ok(spec_bin(
                    BinaryOp::Add,
                    spec_bin(BinaryOp::Mul, c, te),
                    spec_bin(BinaryOp::Mul, spec_bin(BinaryOp::Sub, Expression::Integer(1), c), fe),
                )),
            },
        },
    }
}

/// Lower `select i1 %cond, iN A, iN B` to `(cond) * A + (1 - cond) * B`.
pub fn lower_select_integer(
    result_key: &str,
    cond: &Operand,
    true_value: &Operand,
    false_value: &Operand,
    symbols: &mut SymbolTable,
) -> (r: Result<(), QirToQasmError>)
    requires
        old(symbols).wf(),
    ensures
        binds(*old(symbols), *final(symbols), result_key@, spec_select_integer(*old(symbols), *cond, *true_value, *false_value), r),
{
    let c = resolve_i1_operand(symbols, cond)?;
    let t = resolve_integer_operand(symbols, true_value)?;
    let f = resolve_integer_operand(symbols, false_value)?;
    let lhs = bin(BinaryOp::Mul, copy_expr(&c), t);
    let one_minus = bin(BinaryOp::Sub, int_lit(1), c);
    let rhs = bin(BinaryOp::Mul, one_minus, f);
    symbols.record_ssa(result_key, bin(BinaryOp::Add, lhs, rhs));
    Ok(())
}

/// The message for a value-typed `select` other than `i1`, `i32`, `i64`.
pub open spec fn bad_select_msg(ty: Seq<char>) -> Seq<char> {
    "`select i1 %cond, "@ + ty + " ..., "@ + ty
        + " ...` is not supported: OpenQASM 3 has no classical ternary expression for value-typed selects. Apply each branch in its own `if` arm, or precompute the value before the circuit."@
}

/// The expression a `select` binds. `i32`/`i64` use the arithmetic form;
/// `i1` folds six short-circuit shapes and otherwise expands to
/// `(c && t) || (!c && f)`.
pub open spec fn spec_select(t: SymbolTable, ty: Seq<char>, cond: Operand, a: Operand, b: Operand) -> Result<Expression, ErrView> {
    if ty == "i32"@ || ty == "i64"@ {
        spec_select_integer(t, cond, a, b)
    } else if ty != "i1"@ {
        Err(ErrView::Unsupported(bad_select_msg(ty)))
    } else {
        match spec_resolve_i1(t, cond) {
            Err(e) => Err(e),
            Ok(ce) => {
                let c = spec_as_boolean(ce);
                let tc = spec_constant_i1(a);
                let fc = spec_constant_i1(b);
                if tc is None && fc == Some(false) {
                    match spec_resolve_i1(t, a) {
                        Err(e) => Err(e),
                        Ok(x) => Ok(spec_bin(BinaryOp::And, c, spec_as_boolean(x))),
                    }
                } else if tc == Some(true) && fc is None {
                    match spec_resolve_i1(t, b) {
                        Err(e) => Err(e),
                        Ok(x) => Ok(spec_bin(BinaryOp::Or, c, spec_as_boolean(x))),
                    }
                } else if tc == Some(false) && fc is None {
                    match spec_resolve_i1(t, b) {
                        Err(e) => Err(e),
                        Ok(x) => Ok(spec_bin(BinaryOp::And, spec_not(c), spec_as_boolean(x))),
                    }
                } else if tc is None && fc == Some(true) {
                    match spec_resolve_i1(t, a) {
                        Err(e) => Err(e),
                        Ok(x) => Ok(spec_bin(BinaryOp::Or, spec_not(c), spec_as_boolean(x))),
                    }
                } else if tc == Some(true) && fc == Some(false) {
                    Ok(c)
                } else if tc == Some(false) && fc == Some(true) {
                    Ok(spec_not(c))
                } else {
                    match spec_resolve_i1(t, a) {
                        Err(e) => Err(e),
                        Ok(te) => match spec_resolve_i1(t, b) {
                            Err(e) => Err(e),
                            Ok(fe) => Ok(spec_bin(
                                BinaryOp::Or,
                                spec_bin(BinaryOp::And, c, spec_as_boolean(te)),
                                spec_bin(BinaryOp::And, spec_not(c), spec_as_boolean(fe)),
                            )),
                        },
                    }
                }
            },
        }
    }
}

/// Lower a `select` (see [`spec_select`]).
pub fn lower_select_i1(
    result_key: &str,
    value_type: &str,
    cond: &Operand,
    true_value: &Operand,
    false_value: &Operand,
    symbols: &mut SymbolTable,
) -> (r: Result<(), QirToQasmError>)
    requires
        old(symbols).wf(),
    ensures
        binds(*old(symbols), *final(symbols), result_key@, spec_select(*old(symbols), value_type@, *cond, *true_value, *false_value), r),
{
    let ty = chars_of(value_type);
    if chars_is(&ty, "i32") || chars_is(&ty, "i64") {
        return lower_select_integer(result_key, cond, true_value, false_value, symbols);
    }
    if !chars_is(&ty, "i1") {
        let mut m: Vec<char> = Vec::new();
        push_str(&mut m, "`select i1 %cond, ");
        crate::text::push_chars(&mut m, &ty);
        push_str(&mut m, " ..., ");
        crate::text::push_chars(&mut m, &ty);
        push_str(
            &mut m,
            " ...` is not supported: OpenQASM 3 has no classical ternary expression for value-typed selects. Apply each branch in its own `if` arm, or precompute the value before the circuit.",
        );
        return Err(unsupported_err(&m));
    }
    let ce = resolve_i1_operand(symbols, cond)?;
    let c = as_boolean_expression(ce);
    let tc = constant_i1_value(true_value);
    let fc = constant_i1_value(false_value);
    if tc.is_none() && fc == Some(false) {
        let x = resolve_i1_operand(symbols, true_value)?;
        symbols.record_ssa(result_key, bin(BinaryOp::And, c, as_boolean_expression(x)));
        return Ok(());
    }
    if tc == Some(true) && fc.is_none() {
        let x = resolve_i1_operand(symbols, false_value)?;
        symbols.record_ssa(result_key, bin(BinaryOp::Or, c, as_boolean_expression(x)));
        return Ok(());
    }
    if tc == Some(false) && fc.is_none() {
        let x = resolve_i1_operand(symbols, false_value)?;
        symbols.record_ssa(result_key, bin(BinaryOp::And, not(c), as_boolean_expression(x)));
        return Ok(());
    }
    if tc.is_none() && fc == Some(true) {
        let x = resolve_i1_operand(symbols, true_value)?;
        symbols.record_ssa(result_key, bin(BinaryOp::Or, not(c), as_boolean_expression(x)));
        return Ok(());
    }
    if tc == Some(true) && fc == Some(false) {
        symbols.record_ssa(result_key, c);
        return Ok(());
    }
    if tc == Some(false) && fc == Some(true) {
        symbols.record_ssa(result_key, not(c));
        return Ok(());
    }
    let te = resolve_i1_operand(symbols, true_value)?;
    let fe = resolve_i1_operand(symbols, false_value)?;
    let then_branch = bin(BinaryOp::And, copy_expr(&c), as_boolean_expression(te));
    let else_branch = bin(BinaryOp::And, not(c), as_boolean_expression(fe));
    symbols.record_ssa(result_key, bin(BinaryOp::Or, then_branch, else_branch));
    Ok(())
}

/// The condition recorded for predecessor `name`, if any (the first entry
/// with that name).
pub open spec fn pred_condition(conds: Seq<(Seq<char>, Expression)>, name: Seq<char>) -> Option<Expression>
    decreases conds.len(),
{
    if conds.len() == 0 {
        None
    } else if conds[0].0 == name {
        Some(conds[0].1)
    } else {
        pred_condition(conds.subrange(1, conds.len() as int), name)
    }
}

/// The message for a phi that is not one constant and one SSA incoming.
pub open spec fn phi_shape_msg() -> Seq<char> {
    "phi i1 does not match the short-circuit Boolean pattern: expected exactly one constant incoming and one SSA incoming"@
}

/// The expression a two-incoming short-circuit `phi i1` binds: the
/// constant side's predecessor condition combined with the SSA side by
/// `||` (constant true) or `&&` (constant false).
pub open spec fn spec_phi_i1(
    t: SymbolTable,
    incs: Seq<PhiIncoming>,
    conds: Seq<(Seq<char>, Expression)>,
) -> Result<Expression, ErrView> {
    if incs.len() != 2 {
        Err(ErrView::Unsupported("phi i1 has "@ + int_text(incs.len() as int)
            + " incoming value(s); only the two-incoming short-circuit pattern is supported"@))
    } else {
        let c0 = spec_constant_i1(incs[0].value);
        let c1 = spec_constant_i1(incs[1].value);
        if c0 is Some && c1 is Some {
            Err(ErrView::Unsupported(
                "phi i1 has two constant incomings; only one side of a short-circuit compound may be a constant"@,
            ))
        } else if c0 is None && c1 is None {
            Err(ErrView::Unsupported(phi_shape_msg()))
        } else {
            let (sc, other) = if c0 is Some { (incs[0], incs[1]) } else { (incs[1], incs[0]) };
            let sc_value = spec_constant_i1(sc.value)->0;
            match pred_condition(conds, sc.pred@) {
                None => Err(ErrView::Unsupported("phi i1 short-circuit predecessor "@ + str_debug_text(sc.pred@)
                    + " did not record a branching condition; expected the predecessor to end in a conditional ``br`` on an SSA value"@)),
                Some(l) => match other.value {
                    Operand::Ssa(id) => match spec_lookup(t, id@) {
                        Err(e) => Err(e),
                        Ok(r) => Ok(spec_bin(
                            if sc_value { BinaryOp::Or } else { BinaryOp::And },
                            spec_as_boolean(l),
                            spec_as_boolean(r),
                        )),
                    },
                    _ => Err(ErrView::Unsupported("phi i1 rhs incoming must be an SSA reference"@)),
                },
            }
        }
    }
}

fn find_pred_condition(conds: &Vec<(String, Expression)>, name: &String) -> (r: Option<Expression>)
    ensures
        r == pred_condition(conds@.map_values(|c: (String, Expression)| (c.0@, c.1)), name@),
{
    let ghost cs = conds@.map_values(|c: (String, Expression)| (c.0@, c.1));
    let mut i: usize = 0;
    proof {
        assert(cs.subrange(0, cs.len() as int) =~= cs);
    }
    while i < conds.len()
        invariant
            i <= conds@.len(),
            cs == conds@.map_values(|c: (String, Expression)| (c.0@, c.1)),
            pred_condition(cs.subrange(i as int, cs.len() as int), name@) == pred_condition(cs, name@),
        decreases conds@.len() - i,
    {
        let ghost tail = cs.subrange(i as int, cs.len() as int);
        proof {
            assert(tail[0] == (conds@[i as int].0@, conds@[i as int].1));
            assert(tail.subrange(1, tail.len() as int) =~= cs.subrange(i + 1, cs.len() as int));
        }
        if conds[i].0 == *name {
            return Some(copy_expr(&conds[i].1));
        }
        i = i + 1;
    }
    None
}

/// Lower a two-incoming `phi i1` under the short-circuit pattern (see
/// [`spec_phi_i1`]). `pred_conditions` holds each predecessor block's
/// branching condition.
pub fn lower_phi_i1_short_circuit(
    result_key: &str,
    incomings: &[PhiIncoming],
    pred_conditions: &Vec<(String, Expression)>,
    symbols: &mut SymbolTable,
) -> (r: Result<(), QirToQasmError>)
    requires
        old(symbols).wf(),
    ensures
        binds(
            *old(symbols),
            *final(symbols),
            result_key@,
            spec_phi_i1(*old(symbols), incomings@, pred_conditions@.map_values(|c: (String, Expression)| (c.0@, c.1))),
            r,
        ),
{
    if incomings.len() != 2 {
        let mut m: Vec<char> = Vec::new();
        push_str(&mut m, "phi i1 has ");
        push_int(&mut m, incomings.len() as i128);
        push_str(&mut m, " incoming value(s); only the two-incoming short-circuit pattern is supported");
        return Err(unsupported_err(&m));
    }
    let c0 = constant_i1_value(&incomings[0].value);
    let c1 = constant_i1_value(&incomings[1].value);
    if c0.is_some() && c1.is_some() {
        return Err(QirToQasmError::unsupported(
            "phi i1 has two constant incomings; only one side of a short-circuit compound may be a constant",
        ));
    }
    if c0.is_none() && c1.is_none() {
        return Err(QirToQasmError::unsupported(
            "phi i1 does not match the short-circuit Boolean pattern: expected exactly one constant incoming and one SSA incoming",
        ));
    }
    let (sc, other, sc_value) = match c0 {
        Some(v) => (&incomings[0], &incomings[1], v),
        None => (&incomings[1], &incomings[0], c1.unwrap()),
    };
    let l = match find_pred_condition(pred_conditions, &sc.pred) {
        Some(e) => e,
        None => {
            let mut m: Vec<char> = Vec::new();
            push_str(&mut m, "phi i1 short-circuit predecessor ");
            crate::text::push_debug_string(&mut m, &sc.pred);
            push_str(
                &mut m,
                " did not record a branching condition; expected the predecessor to end in a conditional ``br`` on an SSA value",
            );
            return Err(unsupported_err(&m));
        },
    };
    let r = match &other.value {
        Operand::Ssa(id) => lookup(symbols, id)?,
        _ => {
            return Err(QirToQasmError::unsupported("phi i1 rhs incoming must be an SSA reference"));
        },
    };
    let op = if sc_value {
        BinaryOp::Or
    } else {
        BinaryOp::And
    };
    symbols.record_ssa(result_key, bin(op, as_boolean_expression(l), as_boolean_expression(r)));
    Ok(())
}

} // verus!
