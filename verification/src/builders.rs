//! Per-call lowering helpers.
//!
//! These consume a single QIR `call` with its canonical signature and
//! operands and return the OpenQASM statements it lowers to. Operand
//! classification is signature-driven: the parameter type in the
//! signature decides, so typed- and opaque-pointer QIR both work.
use vstd::prelude::*;

use crate::error::{err_view, unsupported_err, ErrView, QirToQasmError};
use crate::ir::model::{operand_debug_text, push_operand_debug};
use crate::ir::Operand;
use crate::oq3::ast::{
    copy_expr, copy_ident, indexed_ident, Expression, GateModifier, IndexedIdentifier, Statement,
};
use crate::ordered_map::{entries_insert, lemma_entries_insert};
use crate::profile::FunctionBuilder;
use crate::signatures::FunctionSignature;
use crate::symbols::{SymbolTable, QUBIT_REGISTER, RESULT_REGISTER};
use crate::text::{
    chars_of, chars_of_string, chars_is, int_text, owned, push_debug, push_debug_string, push_int,
    push_str, str_debug_text, string_is,
};

verus! {

// ---------------------------------------------------------------------------
// Operand resolvers
// ---------------------------------------------------------------------------

/// The qubit index a qubit operand denotes.
pub open spec fn spec_qubit_index(op: Operand, callee: Seq<char>) -> Result<i64, ErrView> {
    match op {
        Operand::PtrConst { index, .. } => Ok(index),
        Operand::Ssa(_) | Operand::GlobalRef(_) | Operand::GetElementPtr => Err(ErrView::Unsupported(
            "qubit operand for "@ + str_debug_text(callee)
                + " is not a compile-time constant; runtime qubit allocation is not supported"@,
        )),
        _ => Err(ErrView::Unsupported("could not resolve qubit operand for "@ + str_debug_text(callee))),
    }
}

/// The result-bit index a result operand denotes.
pub open spec fn spec_result_index(op: Operand, callee: Seq<char>) -> Result<i64, ErrView> {
    match op {
        Operand::PtrConst { index, .. } => Ok(index),
        _ => Err(ErrView::Unsupported(
            "result operand for "@ + str_debug_text(callee)
                + " is not a compile-time constant; runtime result allocation is not supported"@,
        )),
    }
}

/// `reg[index]` as an assignment target.
pub open spec fn is_reg_target(id: IndexedIdentifier, reg: Seq<char>, index: i64) -> bool {
    id.name@ == reg && id.index == Some(Expression::Integer(index))
}

/// Resolve a qubit operand to `q[index]`, recording the qubit.
pub fn resolve_qubit_operand(symbols: &mut SymbolTable, op: &Operand, callee: &str) -> (r: Result<IndexedIdentifier, QirToQasmError>)
    ensures
        match spec_qubit_index(*op, callee@) {
            Ok(i) => r matches Ok(id) && is_reg_target(id, "q"@, i) && final(symbols).qubit_max() == (if i > old(symbols).qubit_max() {
                i
            } else {
                old(symbols).qubit_max()
            }),
            Err(e) => r matches Err(x) && err_view(x) == e && final(symbols).qubit_max() == old(symbols).qubit_max(),
        },
        final(symbols).result_max() == old(symbols).result_max(),
        final(symbols).bindings() == old(symbols).bindings(),
        final(symbols).aliases() == old(symbols).aliases(),
        final(symbols).slots() == old(symbols).slots(),
{
    proof {
        reveal_strlit("q");
    }
    match op {
        Operand::PtrConst { index, .. } => {
            symbols.record_qubit(*index);
            Ok(indexed_ident(QUBIT_REGISTER, *index))
        },
        Operand::Ssa(_) | Operand::GlobalRef(_) | Operand::GetElementPtr => {
            let c = chars_of(callee);
            let mut m: Vec<char> = Vec::new();
            push_str(&mut m, "qubit operand for ");
            push_debug(&mut m, &c);
            push_str(&mut m, " is not a compile-time constant; runtime qubit allocation is not supported");
            Err(unsupported_err(&m))
        },
        _ => {
            let c = chars_of(callee);
            let mut m: Vec<char> = Vec::new();
            push_str(&mut m, "could not resolve qubit operand for ");
            push_debug(&mut m, &c);
            Err(unsupported_err(&m))
        },
    }
}

/// Resolve a result operand to `c[index]` as an assignment target,
/// recording the result bit.
pub fn resolve_result_operand(symbols: &mut SymbolTable, op: &Operand, callee: &str) -> (r: Result<IndexedIdentifier, QirToQasmError>)
    ensures
        match spec_result_index(*op, callee@) {
            Ok(i) => r matches Ok(id) && is_reg_target(id, "c"@, i) && final(symbols).result_max() == (if i > old(symbols).result_max() {
                i
            } else {
                old(symbols).result_max()
            }),
            Err(e) => r matches Err(x) && err_view(x) == e && final(symbols).result_max() == old(symbols).result_max(),
        },
        final(symbols).qubit_max() == old(symbols).qubit_max(),
        final(symbols).bindings() == old(symbols).bindings(),
        final(symbols).aliases() == old(symbols).aliases(),
        final(symbols).slots() == old(symbols).slots(),
{
    proof {
        reveal_strlit("c");
    }
    match op {
        Operand::PtrConst { index, .. } => {
            symbols.record_result(*index);
            Ok(indexed_ident(RESULT_REGISTER, *index))
        },
        _ => {
            let c = chars_of(callee);
            let mut m: Vec<char> = Vec::new();
            push_str(&mut m, "result operand for ");
            push_debug(&mut m, &c);
            push_str(&mut m, " is not a compile-time constant; runtime result allocation is not supported");
            Err(unsupported_err(&m))
        },
    }
}

/// `reg[index]` in value position.
pub open spec fn is_reg_read(e: Expression, reg: Seq<char>, index: i64) -> bool {
    e matches Expression::Index { collection, index: ix } && *collection matches Expression::Identifier(n)
        && n@ == reg && *ix == Expression::Integer(index)
}

/// Resolve a result operand to `c[index]` as an expression.
pub fn resolve_result_operand_expr(symbols: &mut SymbolTable, op: &Operand, callee: &str) -> (r: Result<Expression, QirToQasmError>)
    ensures
        match spec_result_index(*op, callee@) {
            Ok(i) => r matches Ok(e) && is_reg_read(e, "c"@, i) && final(symbols).result_max() == (if i > old(symbols).result_max() {
                i
            } else {
                old(symbols).result_max()
            }),
            Err(e) => r matches Err(x) && err_view(x) == e && final(symbols).result_max() == old(symbols).result_max(),
        },
        final(symbols).qubit_max() == old(symbols).qubit_max(),
        final(symbols).bindings() == old(symbols).bindings(),
        final(symbols).aliases() == old(symbols).aliases(),
        final(symbols).slots() == old(symbols).slots(),
{
    let id = resolve_result_operand(symbols, op, callee)?;
    match id.index {
        Some(ix) => Ok(Expression::Index { collection: Box::new(Expression::Identifier(id.name)), index: Box::new(ix) }),
        None => Ok(Expression::Identifier(id.name)),
    }
}

/// A scalar (non-pointer) operand as an expression.
pub open spec fn spec_scalar(t: SymbolTable, op: Operand, callee: Seq<char>) -> Result<Expression, ErrView> {
    match op {
        Operand::ConstInt(n) => if i64::MIN <= n <= i64::MAX {
            Ok(Expression::Integer(n as i64))
        } else {
            Err(ErrView::Unsupported("integer constant "@ + int_text(n as int)
                + " does not fit in i64; larger widths are not supported"@))
        },
        Operand::ConstFloat(f) => Ok(Expression::Float(f)),
        Operand::ConstBool(b) => Ok(Expression::Boolean(b)),
        Operand::Ssa(id) => crate::boolean::spec_lookup(t, id@),
        _ => Err(ErrView::Unsupported("unsupported scalar operand form for "@ + str_debug_text(callee))),
    }
}

/// Resolve a scalar (non-pointer) operand to an OpenQASM expression.
pub fn resolve_scalar_operand(symbols: &SymbolTable, op: &Operand, callee: &str) -> (r: Result<Expression, QirToQasmError>)
    requires
        symbols.wf(),
    ensures
        crate::error::res_view(r, |e: Expression| e) == spec_scalar(*symbols, *op, callee@),
{
    match op {
        Operand::ConstInt(n) => {
            if i64::MIN as i128 <= *n && *n <= i64::MAX as i128 {
                Ok(Expression::Integer(*n as i64))
            } else {
                let mut m: Vec<char> = Vec::new();
                push_str(&mut m, "integer constant ");
                push_int(&mut m, *n);
                push_str(&mut m, " does not fit in i64; larger widths are not supported");
                Err(unsupported_err(&m))
            }
        },
        Operand::ConstFloat(f) => Ok(Expression::Float(crate::oq3::ast::copy_float(f))),
        Operand::ConstBool(b) => Ok(Expression::Boolean(*b)),
        Operand::Ssa(id) => symbols.lookup_ssa(id.as_str()),
        _ => {
            let c = chars_of(callee);
            let mut m: Vec<char> = Vec::new();
            push_str(&mut m, "unsupported scalar operand form for ");
            push_debug(&mut m, &c);
            Err(unsupported_err(&m))
        },
    }
}

// ---------------------------------------------------------------------------
// Signatures
// ---------------------------------------------------------------------------

/// The type a bare `ptr` parameter `i` takes under `b`'s calling convention.
pub open spec fn ptr_replacement(b: FunctionBuilder, i: int) -> Option<Seq<char>> {
    match b {
        FunctionBuilder::Gate { .. } | FunctionBuilder::Reset => Some("Qubit"@),
        FunctionBuilder::Measurement | FunctionBuilder::MeasureAndReset => if i == 0 {
            Some("Qubit"@)
        } else if i == 1 {
            Some("Result"@)
        } else {
            None
        },
        FunctionBuilder::ReadResult => Some("Result"@),
        _ => None,
    }
}

/// The parameter types with bare `ptr` re-tagged per [`ptr_replacement`].
pub open spec fn retagged(tys: Seq<Seq<char>>, b: FunctionBuilder) -> Seq<Seq<char>> {
    Seq::new(tys.len(), |i: int| if tys[i] == "ptr"@ && ptr_replacement(b, i) is Some {
        ptr_replacement(b, i)->0
    } else {
        tys[i]
    })
}

fn replacement(b: &FunctionBuilder, i: usize) -> (r: Option<&'static str>)
    ensures
        match r {
            Some(s) => ptr_replacement(*b, i as int) == Some(s@),
            None => ptr_replacement(*b, i as int) is None,
        },
{
    proof {
        reveal_strlit("Qubit");
        reveal_strlit("Result");
    }
    match b {
        FunctionBuilder::Gate { .. } | FunctionBuilder::Reset => Some("Qubit"),
        FunctionBuilder::Measurement | FunctionBuilder::MeasureAndReset => {
            if i == 0 {
                Some("Qubit")
            } else if i == 1 {
                Some("Result")
            } else {
                None
            }
        },
        FunctionBuilder::ReadResult => Some("Result"),
        _ => None,
    }
}

/// Rewrite bare `"ptr"` parameter types to `"Qubit"` / `"Result"` by the
/// builder's calling convention.
fn canonicalize_opaque_ptrs(sig: &FunctionSignature, builder: &FunctionBuilder) -> (r: FunctionSignature)
    ensures
        r.name@ == sig.name@,
        r.is_variadic == sig.is_variadic,
        r.return_type@ == sig.return_type@,
        r.view_sig().param_types == retagged(sig.view_sig().param_types, *builder),
{
    let mut tys: Vec<String> = Vec::new();
    let mut i: usize = 0;
    while i < sig.param_types.len()
        invariant
            i <= sig.param_types@.len(),
            tys@.len() == i,
            forall|k: int| 0 <= k < i ==> #[trigger] tys@[k]@ == retagged(sig.view_sig().param_types, *builder)[k],
        decreases sig.param_types@.len() - i,
    {
        let t = &sig.param_types[i];
        let nt = if string_is(t, "ptr") {
            match replacement(builder, i) {
                Some(s) => owned(s),
                None => t.clone(),
            }
        } else {
            t.clone()
        };
        tys.push(nt);
        i = i + 1;
    }
    let r = FunctionSignature {
        name: sig.name.clone(),
        return_type: sig.return_type.clone(),
        param_types: tys,
        is_variadic: sig.is_variadic,
    };
    assert(r.view_sig().param_types =~= retagged(sig.view_sig().param_types, *builder));
    r
}

/// The `pretty` text for an expected parameter list.
pub open spec fn pretty_expected(expected: Seq<Seq<char>>) -> Seq<char> {
    if expected.len() == 1 {
        "(\""@ + expected[0] + "\",)"@
    } else {
        "(\""@ + expected[0] + "\", \""@ + expected[1] + "\")"@
    }
}

/// The `{:?}` text of a list of strings.
pub open spec fn list_debug_text(v: Seq<Seq<char>>) -> Seq<char> {
    "["@ + list_debug_items(v) + "]"@
}

/// The items of a `{:?}` list, separated by `, `.
pub open spec fn list_debug_items(v: Seq<Seq<char>>) -> Seq<char>
    decreases v.len(),
{
    if v.len() == 0 {
        Seq::empty()
    } else if v.len() == 1 {
        str_debug_text(v[0])
    } else {
        list_debug_items(v.drop_last()) + ", "@ + str_debug_text(v.last())
    }
}

pub(crate) fn push_list_debug(out: &mut Vec<char>, v: &Vec<String>)
    ensures
        final(out)@ == old(out)@ + list_debug_text(v@.map_values(|s: String| s@)),
{
    let ghost vs = v@.map_values(|s: String| s@);
    let ghost o0 = old(out)@;
    push_str(out, "[");
    let mut i: usize = 0;
    while i < v.len()
        invariant
            i <= v@.len(),
            vs == v@.map_values(|s: String| s@),
            out@ == o0 + "["@ + list_debug_items(vs.subrange(0, i as int)),
        decreases v@.len() - i,
    {
        proof {
            let w = vs.subrange(0, i + 1);
            assert(w.drop_last() =~= vs.subrange(0, i as int));
            assert(w.last() == v@[i as int]@);
        }
        if i > 0 {
            push_str(out, ", ");
        }
        push_debug_string(out, &v[i]);
        i = i + 1;
    }
    push_str(out, "]");
    proof {
        assert(vs.subrange(0, v@.len() as int) =~= vs);
    }
}

/// The error for a signature whose parameter types are not `expected`.
pub open spec fn bad_signature_msg(descriptor: Seq<char>, sig: FunctionSignature, expected: Seq<Seq<char>>) -> Seq<char> {
    descriptor + " intrinsic "@ + str_debug_text(sig.name@) + " has unexpected signature "@
        + list_debug_text(sig.view_sig().param_types) + "; expected "@ + pretty_expected(expected)
}

/// Check that the signature's parameter types are `expected` (one or two
/// names).
fn expect_signature(sig: &FunctionSignature, expected: &[&str], descriptor: &str) -> (r: Result<(), QirToQasmError>)
    requires
        1 <= expected@.len() <= 2,
    ensures
        r is Ok <==> sig.view_sig().param_types == expected@.map_values(|e: &str| e@),
        r matches Err(x) ==> err_view(x) == ErrView::Unsupported(bad_signature_msg(descriptor@, *sig, expected@.map_values(|e: &str| e@))),
{
    let ghost ev = expected@.map_values(|e: &str| e@);
    let ghost pv = sig.view_sig().param_types;
    let mut same = sig.param_types.len() == expected.len();
    let mut i: usize = 0;
    while i < expected.len()
        invariant
            i <= expected@.len(),
            ev == expected@.map_values(|e: &str| e@),
            pv == sig.view_sig().param_types,
            same == (pv.len() == ev.len() && forall|k: int| 0 <= k < i ==> #[trigger] pv[k] == ev[k]),
        decreases expected@.len() - i,
    {
        if same {
            let eq = string_is(&sig.param_types[i], expected[i]);
            proof {
                assert(pv[i as int] == sig.param_types@[i as int]@);
                assert(ev[i as int] == expected@[i as int]@);
            }
            if !eq {
                same = false;
            }
        }
        i = i + 1;
    }
    if same {
        assert(pv =~= ev);
        return Ok(());
    }
    proof {
        assert(ev[0] == expected@[0]@);
        if expected@.len() == 2 {
            assert(ev[1] == expected@[1]@);
        }
        reveal_strlit("(\"");
        reveal_strlit("\",)");
        reveal_strlit("\", \"");
        reveal_strlit("\")");
    }
    let mut m: Vec<char> = Vec::new();
    push_str(&mut m, descriptor);
    push_str(&mut m, " intrinsic ");
    push_debug_string(&mut m, &sig.name);
    push_str(&mut m, " has unexpected signature ");
    push_list_debug(&mut m, &sig.param_types);
    push_str(&mut m, "; expected ");
    push_str(&mut m, "(\"");
    push_str(&mut m, expected[0]);
    if expected.len() == 1 {
        push_str(&mut m, "\",)");
    } else {
        push_str(&mut m, "\", \"");
        push_str(&mut m, expected[1]);
        push_str(&mut m, "\")");
    }
    assert(m@ == descriptor@ + " intrinsic "@ + str_debug_text(sig.name@) + " has unexpected signature "@
        + list_debug_text(pv) + "; expected "@ + pretty_expected(ev));
    Err(unsupported_err(&m))
}

// ---------------------------------------------------------------------------
// Builders
// ---------------------------------------------------------------------------

/// Walking the operands with their parameter types: a gate's arguments
/// and qubit indices, or the first error. Operands beyond the parameter
/// list (or parameters beyond the operands) are not read.
pub open spec fn gate_parts(t: SymbolTable, args: Seq<Operand>, tys: Seq<Seq<char>>, callee: Seq<char>) -> Result<(Seq<Expression>, Seq<i64>), ErrView>
    decreases args.len(),
{
    if args.len() == 0 || tys.len() == 0 {
        Ok((Seq::empty(), Seq::empty()))
    } else {
        let rest = gate_parts(t, args.subrange(1, args.len() as int), tys.subrange(1, tys.len() as int), callee);
        if tys[0] == "Qubit"@ {
            match spec_qubit_index(args[0], callee) {
                Err(e) => Err(e),
                Ok(i) => match rest {
                    Err(e) => Err(e),
                    Ok((a, q)) => Ok((a, seq![i] + q)),
                },
            }
        } else {
            match spec_scalar(t, args[0], callee) {
                Err(e) => Err(e),
                Ok(x) => match rest {
                    Err(e) => Err(e),
                    Ok((a, q)) => Ok((seq![x] + a, q)),
                },
            }
        }
    }
}

/// The largest of `m` and the indices `is`.
pub open spec fn max_with(m: i64, is: Seq<i64>) -> i64
    decreases is.len(),
{
    if is.len() == 0 {
        m
    } else {
        max_with(if is[0] > m { is[0] } else { m }, is.subrange(1, is.len() as int))
    }
}

/// Every identifier is `reg[index]` for the matching index.
pub open spec fn reg_targets(ids: Seq<IndexedIdentifier>, reg: Seq<char>, is: Seq<i64>) -> bool {
    ids.len() == is.len() && forall|k: int| 0 <= k < ids.len() ==> is_reg_target(#[trigger] ids[k], reg, is[k])
}

/// A gate statement `[inv @] name(args) qubits;`.
pub open spec fn is_gate_stmt(s: Statement, name: Seq<char>, adjoint: bool, args: Seq<Expression>, qubits: Seq<i64>) -> bool {
    s matches Statement::QuantumGate { modifiers, name: n, arguments, qubits: qs } && n@ == name
        && modifiers@ == (if adjoint { seq![GateModifier::Inv] } else { Seq::empty() })
        && arguments@ == args && reg_targets(qs@, "q"@, qubits)
}

fn build_gate(gate_name: &str, adjoint: bool, sig: &FunctionSignature, args: &[Operand], symbols: &mut SymbolTable) -> (r: Result<Vec<Statement>, QirToQasmError>)
    requires
        old(symbols).wf(),
    ensures
        final(symbols).wf(),
        final(symbols).bindings() == old(symbols).bindings(),
        final(symbols).result_max() == old(symbols).result_max(),
        final(symbols).aliases() == old(symbols).aliases(),
        final(symbols).slots() == old(symbols).slots(),
        match gate_parts(*old(symbols), args@, sig.view_sig().param_types, sig.name@) {
            Ok((a, q)) => r matches Ok(v) && v@.len() == 1 && is_gate_stmt(v@[0], gate_name@, adjoint, a, q)
                && final(symbols).qubit_max() == max_with(old(symbols).qubit_max(), q),
            Err(e) => r matches Err(x) && err_view(x) == e,
        },
{
    let ghost t0 = *symbols;
    let ghost tys = sig.view_sig().param_types;
    let ghost total = gate_parts(t0, args@, tys, sig.name@);
    let mut arguments: Vec<Expression> = Vec::new();
    let mut qubits: Vec<IndexedIdentifier> = Vec::new();
    let ghost mut qidx: Seq<i64> = Seq::empty();
    let mut i: usize = 0;
    let n = if args.len() < sig.param_types.len() { args.len() } else { sig.param_types.len() };
    proof {
        assert(args@.subrange(0, args@.len() as int) =~= args@);
        assert(tys.subrange(0, tys.len() as int) =~= tys);
        if total is Ok {
            assert(Seq::<Expression>::empty() + total->Ok_0.0 =~= total->Ok_0.0);
            assert(Seq::<i64>::empty() + total->Ok_0.1 =~= total->Ok_0.1);
        }
    }
    while i < n
        invariant
            i <= n,
            n <= args@.len(),
            n <= sig.param_types@.len(),
            n == (if args@.len() < sig.param_types@.len() { args@.len() } else { sig.param_types@.len() }),
            tys == sig.view_sig().param_types,
            symbols.wf(),
            t0 == *old(symbols),
            symbols.bindings() == t0.bindings(),
            symbols.result_max() == t0.result_max(),
            symbols.aliases() == t0.aliases(),
            symbols.slots() == t0.slots(),
            t0.wf(),
            symbols.qubit_max() == max_with(t0.qubit_max(), qidx),
            total == gate_parts(t0, args@, tys, sig.name@),
            total == (match gate_parts(t0, args@.subrange(i as int, args@.len() as int), tys.subrange(i as int, tys.len() as int), sig.name@) {
                Err(e) => Err(e),
                Ok((a, q)) => Ok((arguments@ + a, qidx + q)),
            }),
            reg_targets(qubits@, "q"@, qidx),
        decreases n - i,
    {
        let ghost ta = args@.subrange(i as int, args@.len() as int);
        let ghost tt = tys.subrange(i as int, tys.len() as int);
        proof {
            assert(ta[0] == args@[i as int]);
            assert(tt[0] == sig.param_types@[i as int]@);
            assert(ta.subrange(1, ta.len() as int) =~= args@.subrange(i + 1, args@.len() as int));
            assert(tt.subrange(1, tt.len() as int) =~= tys.subrange(i + 1, tys.len() as int));
        }
        if string_is(&sig.param_types[i], "Qubit") {
            let q = resolve_qubit_operand(symbols, &args[i], sig.name.as_str())?;
            proof {
                let ix = spec_qubit_index(args@[i as int], sig.name@)->Ok_0;
                lemma_max_with_push(t0.qubit_max(), qidx, ix);
                let rest = gate_parts(t0, args@.subrange(i + 1, args@.len() as int), tys.subrange(i + 1, tys.len() as int), sig.name@);
                if rest is Ok {
                    assert(qidx + (seq![ix] + rest->Ok_0.1) =~= qidx.push(ix) + rest->Ok_0.1);
                }
                qidx = qidx.push(ix);
            }
            qubits.push(q);
        } else {
            let x = resolve_scalar_operand(symbols, &args[i], sig.name.as_str())?;
            proof {
                let rest = gate_parts(t0, args@.subrange(i + 1, args@.len() as int), tys.subrange(i + 1, tys.len() as int), sig.name@);
                if rest is Ok {
                    assert(arguments@ + (seq![x] + rest->Ok_0.0) =~= arguments@.push(x) + rest->Ok_0.0);
                }
            }
            arguments.push(x);
        }
        i = i + 1;
    }
    proof {
        let ta = args@.subrange(i as int, args@.len() as int);
        let tt = tys.subrange(i as int, tys.len() as int);
        assert(ta.len() == 0 || tt.len() == 0);
        assert(arguments@ + Seq::<Expression>::empty() =~= arguments@);
        assert(qidx + Seq::<i64>::empty() =~= qidx);
    }
    let modifiers = if adjoint {
        let mut m: Vec<GateModifier> = Vec::new();
        m.push(GateModifier::Inv);
        m
    } else {
        Vec::new()
    };
    proof {
        if adjoint {
            assert(modifiers@ =~= seq![GateModifier::Inv]);
        } else {
            assert(modifiers@ =~= Seq::<GateModifier>::empty());
        }
    }
    let mut out: Vec<Statement> = Vec::new();
    out.push(Statement::QuantumGate { modifiers, name: owned(gate_name), arguments, qubits });
    Ok(out)
}

proof fn lemma_max_with_push(m: i64, is: Seq<i64>, x: i64)
    ensures
        max_with(m, is.push(x)) == (if x > max_with(m, is) { x } else { max_with(m, is) }),
    decreases is.len(),
{
    if is.len() == 0 {
        let p = is.push(x);
        assert(p.subrange(1, p.len() as int) =~= Seq::<i64>::empty());
        assert(p[0] == x);
        assert(max_with(if x > m { x } else { m }, Seq::<i64>::empty()) == (if x > m { x } else { m }));
    } else {
        let p = is.push(x);
        assert(p.subrange(1, p.len() as int) =~= is.subrange(1, is.len() as int).push(x));
        lemma_max_with_push(if is[0] > m { is[0] } else { m }, is.subrange(1, is.len() as int), x);
    }
}

/// `c[r] = measure q[q];`.
pub open spec fn is_measure_stmt(s: Statement, q: i64, r: i64) -> bool {
    s matches Statement::QuantumMeasurementStatement { qubit, target } && is_reg_target(qubit, "q"@, q)
        && is_reg_target(target, "c"@, r)
}

/// `reset q[q];`.
pub open spec fn is_reset_stmt(s: Statement, q: i64) -> bool {
    s matches Statement::QuantumReset(id) && is_reg_target(id, "q"@, q)
}

/// The expected parameter lists.
pub open spec fn qubit_result() -> Seq<Seq<char>> {
    seq!["Qubit"@, "Result"@]
}

fn build_measurement(sig: &FunctionSignature, args: &[Operand], symbols: &mut SymbolTable, reset: bool) -> (r: Result<Vec<Statement>, QirToQasmError>)
    requires
        old(symbols).wf(),
        sig.view_sig().param_types == qubit_result() ==> args@.len() >= 2,
    ensures
        final(symbols).wf(),
        final(symbols).bindings() == old(symbols).bindings(),
        final(symbols).aliases() == old(symbols).aliases(),
        final(symbols).slots() == old(symbols).slots(),
        sig.view_sig().param_types != qubit_result() ==> (r matches Err(x) && err_view(x) == ErrView::Unsupported(
            bad_signature_msg(if reset { "measure-and-reset"@ } else { "measurement"@ }, *sig, qubit_result()),
        )),
        sig.view_sig().param_types == qubit_result() ==> match (spec_qubit_index(args@[0], sig.name@), spec_result_index(args@[1], sig.name@)) {
            (Ok(q), Ok(c)) => r matches Ok(v) && v@.len() == (if reset { 2int } else { 1int }) && is_measure_stmt(v@[0], q, c)
                && (reset ==> is_reset_stmt(v@[1], q))
                && final(symbols).qubit_max() == max_with(old(symbols).qubit_max(), seq![q])
                && final(symbols).result_max() == max_with(old(symbols).result_max(), seq![c]),
            (Err(e), _) => r matches Err(x) && err_view(x) == e,
            (Ok(_), Err(e)) => r matches Err(x) && err_view(x) == e,
        },
{
    let mut expected: Vec<&str> = Vec::new();
    expected.push("Qubit");
    expected.push("Result");
    proof {
        reveal_strlit("Qubit");
        reveal_strlit("Result");
        assert(expected@.map_values(|e: &str| e@) =~= qubit_result());
    }
    if reset {
        expect_signature(sig, expected.as_slice(), "measure-and-reset")?;
    } else {
        expect_signature(sig, expected.as_slice(), "measurement")?;
    }
    let qubit = resolve_qubit_operand(symbols, &args[0], sig.name.as_str())?;
    let target = resolve_result_operand(symbols, &args[1], sig.name.as_str())?;
    proof {
        reveal_with_fuel(max_with, 2);
    }
    let mut out: Vec<Statement> = Vec::new();
    if reset {
        let q2 = copy_ident(&qubit);
        out.push(Statement::QuantumMeasurementStatement { qubit, target });
        out.push(Statement::QuantumReset(q2));
    } else {
        out.push(Statement::QuantumMeasurementStatement { qubit, target });
    }
    Ok(out)
}

fn build_reset(sig: &FunctionSignature, args: &[Operand], symbols: &mut SymbolTable) -> (r: Result<Vec<Statement>, QirToQasmError>)
    requires
        old(symbols).wf(),
        sig.view_sig().param_types == seq!["Qubit"@] ==> args@.len() >= 1,
    ensures
        final(symbols).wf(),
        final(symbols).bindings() == old(symbols).bindings(),
        final(symbols).result_max() == old(symbols).result_max(),
        final(symbols).aliases() == old(symbols).aliases(),
        final(symbols).slots() == old(symbols).slots(),
        sig.view_sig().param_types != seq!["Qubit"@] ==> (r matches Err(x) && err_view(x) == ErrView::Unsupported(
            bad_signature_msg("reset"@, *sig, seq!["Qubit"@]),
        )),
        sig.view_sig().param_types == seq!["Qubit"@] ==> match spec_qubit_index(args@[0], sig.name@) {
            Ok(q) => r matches Ok(v) && v@.len() == 1 && is_reset_stmt(v@[0], q)
                && final(symbols).qubit_max() == max_with(old(symbols).qubit_max(), seq![q]),
            Err(e) => r matches Err(x) && err_view(x) == e,
        },
{
    let mut expected: Vec<&str> = Vec::new();
    expected.push("Qubit");
    proof {
        reveal_strlit("Qubit");
        assert(expected@.map_values(|e: &str| e@) =~= seq!["Qubit"@]);
    }
    expect_signature(sig, expected.as_slice(), "reset")?;
    let q = resolve_qubit_operand(symbols, &args[0], sig.name.as_str())?;
    proof {
        reveal_with_fuel(max_with, 2);
    }
    let mut out: Vec<Statement> = Vec::new();
    out.push(Statement::QuantumReset(q));
    Ok(out)
}

fn build_read_result(sig: &FunctionSignature, args: &[Operand], symbols: &mut SymbolTable) -> (r: Result<Expression, QirToQasmError>)
    requires
        old(symbols).wf(),
        sig.view_sig().param_types == seq!["Result"@] ==> args@.len() >= 1,
    ensures
        final(symbols).wf(),
        final(symbols).bindings() == old(symbols).bindings(),
        final(symbols).qubit_max() == old(symbols).qubit_max(),
        final(symbols).aliases() == old(symbols).aliases(),
        final(symbols).slots() == old(symbols).slots(),
        sig.view_sig().param_types != seq!["Result"@] ==> (r matches Err(x) && err_view(x) == ErrView::Unsupported(
            bad_signature_msg("read_result"@, *sig, seq!["Result"@]),
        )),
        sig.view_sig().param_types == seq!["Result"@] ==> match spec_result_index(args@[0], sig.name@) {
            Ok(c) => r matches Ok(e) && is_reg_read(e, "c"@, c)
                && final(symbols).result_max() == max_with(old(symbols).result_max(), seq![c]),
            Err(e) => r matches Err(x) && err_view(x) == e,
        },
{
    let mut expected: Vec<&str> = Vec::new();
    expected.push("Result");
    proof {
        reveal_strlit("Result");
        assert(expected@.map_values(|e: &str| e@) =~= seq!["Result"@]);
    }
    expect_signature(sig, expected.as_slice(), "read_result")?;
    proof {
        reveal_with_fuel(max_with, 2);
    }
    resolve_result_operand_expr(symbols, &args[0], sig.name.as_str())
}

// ---------------------------------------------------------------------------
// The variadic generalized-invoke intrinsic
// ---------------------------------------------------------------------------

/// The name of the variadic multi-controlled dispatch intrinsic.
pub open spec fn gc_callee() -> Seq<char> {
    "generalizedInvokeWithRotationsControlsTargets"@
}

/// The signature the generalized-invoke intrinsic must have: its name,
/// variadic, and the parameter prefix `i64, i64, i64, i64, i8|ptr`.
pub open spec fn gc_signature_ok(sig: FunctionSignature) -> bool {
    let p = sig.view_sig().param_types;
    &&& sig.name@ == gc_callee()
    &&& sig.is_variadic
    &&& p.len() > 4
    &&& p[0] == "i64"@ && p[1] == "i64"@ && p[2] == "i64"@ && p[3] == "i64"@
    &&& (p[4] == "i8"@ || p[4] == "ptr"@)
}

/// A leading count operand: an integer constant that fits `i64`.
pub open spec fn spec_count(op: Operand) -> Option<i64> {
    match op {
        Operand::ConstInt(n) => if i64::MIN <= n <= i64::MAX {
            Some(n as i64)
        } else {
            None
        },
        _ => None,
    }
}

/// The inner function named by the fifth operand.
pub open spec fn spec_inner_callee(op: Operand) -> Option<Seq<char>> {
    match op {
        Operand::BitcastGlobal(n) => Some(n@),
        Operand::GlobalRef(n) => Some(n@),
        _ => None,
    }
}

/// `<op>` of `__quantum__qis__<op>__ctl`.
pub open spec fn spec_ctl_op(name: Seq<char>) -> Option<Seq<char>> {
    let p = "__quantum__qis__"@;
    let q = "__ctl"@;
    if name.len() >= p.len() + q.len() && name.subrange(0, p.len() as int) == p
        && name.subrange(name.len() - q.len(), name.len() as int) == q {
        Some(name.subrange(p.len() as int, name.len() - q.len()))
    } else {
        None
    }
}

/// The native gate for a controlled `<op>` with the given control and
/// target counts.
pub open spec fn spec_controlled_gate(op: Seq<char>, c: int, t: int) -> Option<Seq<char>> {
    if op == "x"@ && c == 1 && t == 1 {
        Some("cnot"@)
    } else if op == "x"@ && c == 2 && t == 1 {
        Some("ccnot"@)
    } else if op == "y"@ && c == 1 && t == 1 {
        Some("cy"@)
    } else if op == "z"@ && c == 1 && t == 1 {
        Some("cz"@)
    } else if op == "swap"@ && c == 1 && t == 2 {
        Some("cswap"@)
    } else if op == "phaseshift"@ && c == 1 && t == 1 {
        Some("cphaseshift"@)
    } else {
        None
    }
}

/// `n` control markers: the letter `c` repeated `n` times.
pub open spec fn controls_prefix(n: nat) -> Seq<char>
    decreases n,
{
    if n == 0 {
        Seq::empty()
    } else {
        "c"@ + controls_prefix((n - 1) as nat)
    }
}

/// A controlled invocation emits the controlled form of its inner operation:
/// for `y`, `z`, `swap` and `phaseshift` the operation's own name behind one
/// `c` (one control), for `x` one `c` per control in front of `not` (one or
/// two controls); `swap` acts on two targets and every other operation on
/// one. Each of these forms is available.
pub proof fn law_controlled_gate_is_controlled_op(op: Seq<char>, c: int, t: int)
    ensures
        spec_controlled_gate(op, c, t) matches Some(g) ==> {
            &&& 1 <= c
            &&& (op == "x"@ ==> c <= 2 && g == controls_prefix(c as nat) + "not"@)
            &&& (op != "x"@ ==> c == 1 && g == "c"@ + op)
            &&& t == (if op == "swap"@ { 2int } else { 1int })
        },
        (op == "y"@ || op == "z"@ || op == "phaseshift"@) ==> spec_controlled_gate(op, 1, 1) is Some,
        spec_controlled_gate("swap"@, 1, 2) is Some,
        spec_controlled_gate("x"@, 1, 1) is Some,
        spec_controlled_gate("x"@, 2, 1) is Some,
{
    reveal_strlit("x");
    reveal_strlit("y");
    reveal_strlit("z");
    reveal_strlit("swap");
    reveal_strlit("phaseshift");
    reveal_strlit("c");
    reveal_strlit("not");
    reveal_strlit("cnot");
    reveal_strlit("ccnot");
    reveal_strlit("cy");
    reveal_strlit("cz");
    reveal_strlit("cswap");
    reveal_strlit("cphaseshift");
    reveal_with_fuel(controls_prefix, 3);
    assert("cnot"@ =~= controls_prefix(1) + "not"@);
    assert("ccnot"@ =~= controls_prefix(2) + "not"@);
    assert("cy"@ =~= "c"@ + "y"@);
    assert("cz"@ =~= "c"@ + "z"@);
    assert("cswap"@ =~= "c"@ + "swap"@);
    assert("cphaseshift"@ =~= "c"@ + "phaseshift"@);
}

/// A trailing qubit operand (`i8* null` counts as qubit 0).
pub open spec fn spec_tail_qubit(op: Operand) -> Result<i64, ErrView> {
    match op {
        Operand::I8Null => Ok(0),
        _ => spec_qubit_index(op, gc_callee()),
    }
}

fn controlled_gate_name(op: &[char], c: i64, t: i64) -> (r: Option<&'static str>)
    ensures
        match r {
            Some(n) => spec_controlled_gate(op@, c as int, t as int) == Some(n@),
            None => spec_controlled_gate(op@, c as int, t as int) is None,
        },
{
    proof {
        reveal_strlit("cnot");
        reveal_strlit("ccnot");
        reveal_strlit("cy");
        reveal_strlit("cz");
        reveal_strlit("cswap");
        reveal_strlit("cphaseshift");
    }
    if chars_is(op, "x") && c == 1 && t == 1 {
        Some("cnot")
    } else if chars_is(op, "x") && c == 2 && t == 1 {
        Some("ccnot")
    } else if chars_is(op, "y") && c == 1 && t == 1 {
        Some("cy")
    } else if chars_is(op, "z") && c == 1 && t == 1 {
        Some("cz")
    } else if chars_is(op, "swap") && c == 1 && t == 2 {
        Some("cswap")
    } else if chars_is(op, "phaseshift") && c == 1 && t == 1 {
        Some("cphaseshift")
    } else {
        None
    }
}

fn as_i64_operand(op: &Operand, field: &str) -> (r: Result<i64, QirToQasmError>)
    ensures
        match spec_count(*op) {
            Some(n) => r == Ok::<i64, QirToQasmError>(n),
            None => r matches Err(x) && err_view(x) == ErrView::Unsupported(count_msg(*op, field@)),
        },
{
    match op {
        Operand::ConstInt(n) => {
            if i64::MIN as i128 <= *n && *n <= i64::MAX as i128 {
                Ok(*n as i64)
            } else {
                let mut m: Vec<char> = Vec::new();
                push_str(&mut m, "generalizedInvokeWithRotationsControlsTargets: ");
                push_str(&mut m, field);
                push_str(&mut m, " = ");
                push_int(&mut m, *n);
                push_str(&mut m, " does not fit in i64");
                Err(unsupported_err(&m))
            }
        },
        _ => {
            let mut m: Vec<char> = Vec::new();
            push_str(&mut m, "generalizedInvokeWithRotationsControlsTargets: ");
            push_str(&mut m, field);
            push_str(&mut m, " must be an i64 constant, got ");
            push_operand_debug(&mut m, op);
            Err(unsupported_err(&m))
        },
    }
}

fn gc_signature_check(sig: &FunctionSignature) -> (r: bool)
    ensures
        r == gc_signature_ok(*sig),
{
    proof {
        reveal_strlit("generalizedInvokeWithRotationsControlsTargets");
    }
    let p = &sig.param_types;
    string_is(&sig.name, "generalizedInvokeWithRotationsControlsTargets") && sig.is_variadic
        && p.len() > 4 && string_is(&p[0], "i64") && string_is(&p[1], "i64") && string_is(&p[2], "i64")
        && string_is(&p[3], "i64") && (string_is(&p[4], "i8") || string_is(&p[4], "ptr"))
}

fn ctl_op(name: &String) -> (r: Option<Vec<char>>)
    ensures
        match r {
            Some(v) => spec_ctl_op(name@) == Some(v@),
            None => spec_ctl_op(name@) is None,
        },
{
    proof {
        reveal_strlit("__quantum__qis__");
        reveal_strlit("__ctl");
    }
    let n = chars_of_string(name);
    if n.len() >= 21 && crate::text::starts_with_lit(&n, "__quantum__qis__") && crate::text::ends_with_lit(&n, "__ctl") {
        proof {
            assert(n@.subrange(0, 16) == "__quantum__qis__"@);
        }
        Some(crate::text::slice(&n, 16, n.len() - 5))
    } else {
        None
    }
}

/// What a successful generalized-invoke lowering has checked: the
/// signature, at least five operands, `numRotations == 0`, the counts,
/// the inner `__quantum__qis__<op>__ctl` callee, the tail length and a
/// native gate for the combination.
pub open spec fn gc_preconditions(sig: FunctionSignature, args: Seq<Operand>) -> bool {
    &&& gc_signature_ok(sig)
    &&& args.len() >= 5
    &&& spec_count(args[0]) == Some(0i64)
    &&& spec_count(args[1]) is Some
    &&& spec_count(args[2]) is Some
    &&& spec_count(args[3]) is Some
    &&& spec_inner_callee(args[4]) is Some
    &&& spec_ctl_op(spec_inner_callee(args[4])->0) is Some
    &&& args.len() - 5 == spec_count(args[2])->0 + spec_count(args[3])->0
    &&& spec_controlled_gate(gc_op(args), spec_count(args[2])->0 as int, spec_count(args[3])->0 as int) is Some
}

/// The `<op>` of the inner callee.
pub open spec fn gc_op(args: Seq<Operand>) -> Seq<char> {
    spec_ctl_op(spec_inner_callee(args[4])->0)->0
}

/// A gate statement a generalized-invoke call lowers to.
pub open spec fn gc_stmt_ok(s: Statement, args: Seq<Operand>) -> bool {
    s matches Statement::QuantumGate { modifiers, name, arguments, qubits }
        && name@ == spec_controlled_gate(gc_op(args), spec_count(args[2])->0 as int, spec_count(args[3])->0 as int)->0
        && modifiers@ == (if spec_count(args[1])->0 != 0 { seq![GateModifier::Inv] } else { Seq::empty() })
        && arguments@.len() == 0 && qubits@.len() == args.len() - 5
        && tail_ok(qubits@, args)
}

/// A trailing qubit identifier is `q[ix]` for its operand's index.
pub open spec fn tail_item_ok(q: IndexedIdentifier, a: Operand) -> bool {
    spec_tail_qubit(a) matches Ok(ix) && is_reg_target(q, "q"@, ix)
}

/// The identifiers match the operands after the fixed five.
pub open spec fn tail_ok(qs: Seq<IndexedIdentifier>, args: Seq<Operand>) -> bool {
    forall|j: int| 0 <= j < qs.len() ==> tail_item_ok(#[trigger] qs[j], args[5 + j])
}

/// Every operand after the fixed five is a qubit.
pub open spec fn tail_resolves(args: Seq<Operand>) -> bool {
    forall|j: int| 5 <= j < args.len() ==> #[trigger] spec_tail_qubit(args[j]) is Ok
}

/// The qubit indices of the operands after the fixed five.
pub open spec fn tail_indices(args: Seq<Operand>) -> Seq<i64> {
    Seq::new((args.len() - 5) as nat, |j: int| spec_tail_qubit(args[5 + j])->Ok_0)
}

/// The error for a generalized-invoke call whose signature is not the
/// expected one.
pub open spec fn gc_sig_msg(sig: FunctionSignature) -> Seq<char> {
    "generalized-controlled intrinsic "@ + str_debug_text(sig.name@) + " has unexpected signature "@
        + list_debug_text(sig.param_types@.map_values(|s: String| s@)) + " (variadic="@ + (if sig.is_variadic {
        "true"@
    } else {
        "false"@
    })
        + "); expected callee \"generalizedInvokeWithRotationsControlsTargets\" with parameter prefix (\"i64\", \"i64\", \"i64\", \"i64\", \"i8\"|\"ptr\", ...) and is_variadic=true"@
}

/// The error for a count operand (`field`) that is not an `i64` constant.
pub open spec fn count_msg(op: Operand, field: Seq<char>) -> Seq<char> {
    match op {
        Operand::ConstInt(n) => "generalizedInvokeWithRotationsControlsTargets: "@ + field + " = "@ + int_text(n as int)
            + " does not fit in i64"@,
        _ => "generalizedInvokeWithRotationsControlsTargets: "@ + field + " must be an i64 constant, got "@
            + operand_debug_text(op),
    }
}

/// The error of the first operand from position `k` on that is not a
/// qubit, if any.
pub open spec fn first_tail_error(args: Seq<Operand>, k: int) -> Option<ErrView>
    decreases args.len() - k,
{
    if k < 0 || k >= args.len() {
        None
    } else {
        match spec_tail_qubit(args[k]) {
            Err(e) => Some(e),
            Ok(_) => first_tail_error(args, k + 1),
        }
    }
}

/// The error a generalized-invoke call fails with, checking in turn the
/// signature, the operand count, the four counts, `numRotations == 0`,
/// non-negative counts, the inner callee operand and its name, the number
/// of trailing operands, each trailing qubit, and a native gate for the
/// combination; `None` when every check passes.
pub open spec fn gc_error(sig: FunctionSignature, args: Seq<Operand>) -> Option<ErrView> {
    if !gc_signature_ok(sig) {
        Some(ErrView::Unsupported(gc_sig_msg(sig)))
    } else if args.len() < 5 {
        Some(
            ErrView::Unsupported(
                "generalizedInvokeWithRotationsControlsTargets expects at least 5 operands (numRotations, adjoint, numControls, numTargets, innerFn); got "@
                    + int_text(args.len() as int) + " operand(s)"@,
            ),
        )
    } else if spec_count(args[0]) is None {
        Some(ErrView::Unsupported(count_msg(args[0], "numRotations"@)))
    } else if spec_count(args[1]) is None {
        Some(ErrView::Unsupported(count_msg(args[1], "adjoint"@)))
    } else if spec_count(args[2]) is None {
        Some(ErrView::Unsupported(count_msg(args[2], "numControls"@)))
    } else if spec_count(args[3]) is None {
        Some(ErrView::Unsupported(count_msg(args[3], "numTargets"@)))
    } else {
        let nr = spec_count(args[0])->0 as int;
        let c = spec_count(args[2])->0 as int;
        let t = spec_count(args[3])->0 as int;
        let tail = args.len() - 5;
        if nr != 0 {
            Some(
                ErrView::Unsupported(
                    "generalizedInvokeWithRotationsControlsTargets with numRotations="@ + int_text(nr)
                        + " is not yet supported; only non-parametric controlled gates (numRotations == 0) are handled"@,
                ),
            )
        } else if c < 0 || t < 0 {
            Some(
                ErrView::Unsupported(
                    "generalizedInvokeWithRotationsControlsTargets had negative numControls="@ + int_text(c)
                        + " or numTargets="@ + int_text(t),
                ),
            )
        } else if spec_inner_callee(args[4]) is None {
            Some(
                ErrView::Unsupported(
                    "generalizedInvokeWithRotationsControlsTargets: inner-function operand must be a bitcast of a named global (e.g. ``i8* bitcast (T* @__quantum__qis__<op>__ctl to i8*)``) or a bare global reference; got "@
                        + operand_debug_text(args[4]),
                ),
            )
        } else if spec_ctl_op(spec_inner_callee(args[4])->0) is None {
            Some(
                ErrView::Unsupported(
                    "generalizedInvokeWithRotationsControlsTargets: inner callee "@ + str_debug_text(
                        spec_inner_callee(args[4])->0,
                    ) + " does not match the expected `__quantum__qis__<op>__ctl` pattern"@,
                ),
            )
        } else if tail != c + t {
            Some(
                ErrView::Unsupported(
                    "generalizedInvokeWithRotationsControlsTargets: expected "@ + int_text(c + t)
                        + " qubit operand(s) after the fixed prefix (numControls="@ + int_text(c) + " + numTargets="@
                        + int_text(t) + "); got "@ + int_text(tail) + " trailing operand(s)"@,
                ),
            )
        } else if first_tail_error(args, 5) is Some {
            first_tail_error(args, 5)
        } else if spec_controlled_gate(gc_op(args), c, t) is None {
            Some(
                ErrView::Unsupported(
                    "generalizedInvokeWithRotationsControlsTargets: no Braket-native gate for controlled ``"@ + gc_op(
                        args,
                    ) + "`` with numControls="@ + int_text(c) + ", numTargets="@ + int_text(t)
                        + ". Extend the decomposition pipeline upstream, or add a gate mapping here."@,
                ),
            )
        } else {
            None
        }
    }
}

/// Lower the variadic `generalizedInvokeWithRotationsControlsTargets`
/// multi-controlled dispatch into one native gate application.
#[verifier::loop_isolation(false)]
fn build_generalized_controlled(sig: &FunctionSignature, args: &[Operand], symbols: &mut SymbolTable) -> (r: Result<Vec<Statement>, QirToQasmError>)
    requires
        old(symbols).wf(),
    ensures
        final(symbols).wf(),
        final(symbols).bindings() == old(symbols).bindings(),
        final(symbols).result_max() == old(symbols).result_max(),
        final(symbols).aliases() == old(symbols).aliases(),
        final(symbols).slots() == old(symbols).slots(),
        !gc_signature_ok(*sig) ==> r is Err,
        args@.len() < 5 ==> r is Err,
        r matches Ok(v) ==> gc_preconditions(*sig, args@) && v@.len() == 1 && gc_stmt_ok(v@[0], args@),
        gc_preconditions(*sig, args@) && tail_resolves(args@) ==> r is Ok,
        r is Ok ==> tail_resolves(args@),
        r is Ok ==> final(symbols).qubit_max() == max_with(old(symbols).qubit_max(), tail_indices(args@)),
        r matches Err(x) ==> gc_error(*sig, args@) == Some(err_view(x)),
{
    if !gc_signature_check(sig) {
        let mut m: Vec<char> = Vec::new();
        push_str(&mut m, "generalized-controlled intrinsic ");
        push_debug_string(&mut m, &sig.name);
        push_str(&mut m, " has unexpected signature ");
        push_list_debug(&mut m, &sig.param_types);
        push_str(&mut m, " (variadic=");
        if sig.is_variadic {
            push_str(&mut m, "true");
        } else {
            push_str(&mut m, "false");
        }
        push_str(
            &mut m,
            "); expected callee \"generalizedInvokeWithRotationsControlsTargets\" with parameter prefix (\"i64\", \"i64\", \"i64\", \"i64\", \"i8\"|\"ptr\", ...) and is_variadic=true",
        );
        return Err(unsupported_err(&m));
    }
    if args.len() < 5 {
        let mut m: Vec<char> = Vec::new();
        push_str(
            &mut m,
            "generalizedInvokeWithRotationsControlsTargets expects at least 5 operands (numRotations, adjoint, numControls, numTargets, innerFn); got ",
        );
        push_int(&mut m, args.len() as i128);
        push_str(&mut m, " operand(s)");
        return Err(unsupported_err(&m));
    }
    let num_rotations = match as_i64_operand(&args[0], "numRotations") {
        Ok(n) => n,
        Err(x) => {
            return Err(x);
        },
    };
    let adjoint_flag = match as_i64_operand(&args[1], "adjoint") {
        Ok(n) => n,
        Err(x) => {
            return Err(x);
        },
    };
    let num_controls = match as_i64_operand(&args[2], "numControls") {
        Ok(n) => n,
        Err(x) => {
            return Err(x);
        },
    };
    let num_targets = match as_i64_operand(&args[3], "numTargets") {
        Ok(n) => n,
        Err(x) => {
            return Err(x);
        },
    };
    if num_rotations != 0 {
        let mut m: Vec<char> = Vec::new();
        push_str(&mut m, "generalizedInvokeWithRotationsControlsTargets with numRotations=");
        push_int(&mut m, num_rotations as i128);
        push_str(&mut m, " is not yet supported; only non-parametric controlled gates (numRotations == 0) are handled");
        return Err(unsupported_err(&m));
    }
    if num_controls < 0 || num_targets < 0 {
        let mut m: Vec<char> = Vec::new();
        push_str(&mut m, "generalizedInvokeWithRotationsControlsTargets had negative numControls=");
        push_int(&mut m, num_controls as i128);
        push_str(&mut m, " or numTargets=");
        push_int(&mut m, num_targets as i128);
        return Err(unsupported_err(&m));
    }
    let inner = match &args[4] {
        Operand::BitcastGlobal(n) => n,
        Operand::GlobalRef(n) => n,
        other => {
            let mut m: Vec<char> = Vec::new();
            push_str(
                &mut m,
                "generalizedInvokeWithRotationsControlsTargets: inner-function operand must be a bitcast of a named global (e.g. ``i8* bitcast (T* @__quantum__qis__<op>__ctl to i8*)``) or a bare global reference; got ",
            );
            push_operand_debug(&mut m, other);
            return Err(unsupported_err(&m));
        },
    };
    let op_name = match ctl_op(inner) {
        Some(o) => o,
        None => {
            let mut m: Vec<char> = Vec::new();
            push_str(&mut m, "generalizedInvokeWithRotationsControlsTargets: inner callee ");
            push_debug_string(&mut m, inner);
            push_str(&mut m, " does not match the expected `__quantum__qis__<op>__ctl` pattern");
            return Err(unsupported_err(&m));
        },
    };
    let expected_tail: i128 = num_controls as i128 + num_targets as i128;
    let tail_len = args.len() - 5;
    if tail_len as i128 != expected_tail {
        let mut m: Vec<char> = Vec::new();
        push_str(&mut m, "generalizedInvokeWithRotationsControlsTargets: expected ");
        push_int(&mut m, expected_tail);
        push_str(&mut m, " qubit operand(s) after the fixed prefix (numControls=");
        push_int(&mut m, num_controls as i128);
        push_str(&mut m, " + numTargets=");
        push_int(&mut m, num_targets as i128);
        push_str(&mut m, "); got ");
        push_int(&mut m, tail_len as i128);
        push_str(&mut m, " trailing operand(s)");
        return Err(unsupported_err(&m));
    }
    let mut qubits: Vec<IndexedIdentifier> = Vec::new();
    let mut k: usize = 5;
    let ghost mut idx: Seq<i64> = Seq::empty();
    while k < args.len()
        invariant
            5 <= k <= args@.len(),
            qubits@.len() == k - 5,
            idx == tail_indices(args@).subrange(0, k - 5),
            symbols.qubit_max() == max_with(old(symbols).qubit_max(), idx),
            forall|j: int| 5 <= j < k ==> #[trigger] spec_tail_qubit(args@[j]) is Ok,
            symbols.wf(),
            symbols.bindings() == old(symbols).bindings(),
            symbols.result_max() == old(symbols).result_max(),
            symbols.aliases() == old(symbols).aliases(),
            symbols.slots() == old(symbols).slots(),
            old(symbols).wf(),
            tail_ok(qubits@, args@),
            first_tail_error(args@, 5) == first_tail_error(args@, k as int),
        decreases args@.len() - k,
    {
        let normalised = match &args[k] {
            Operand::I8Null => Operand::PtrConst { struct_name: None, index: 0 },
            other => crate::ir::copy_operand(other),
        };
        let ghost before = symbols.qubit_max();
        proof {
            reveal_strlit("generalizedInvokeWithRotationsControlsTargets");
        }
        let q = match resolve_qubit_operand(symbols, &normalised, "generalizedInvokeWithRotationsControlsTargets") {
            Ok(q) => q,
            Err(x) => {
                return Err(x);
            },
        };
        let ghost old_q = qubits@;
        qubits.push(q);
        proof {
            reveal_strlit("generalizedInvokeWithRotationsControlsTargets");
            let ix = spec_tail_qubit(args@[k as int])->Ok_0;
            lemma_max_with_push(old(symbols).qubit_max(), idx, ix);
            idx = idx.push(ix);
            assert(idx =~= tail_indices(args@).subrange(0, k + 1 - 5));
            assert(5 + (k - 5) == k);
            assert(tail_item_ok(q, args@[k as int]));
            assert forall|j: int| 0 <= j < qubits@.len() implies tail_item_ok(#[trigger] qubits@[j], args@[5 + j]) by {
                if j < old_q.len() {
                    assert(qubits@[j] == old_q[j]);
                } else {
                    assert(j == k - 5);
                    assert(qubits@[j] == q);
                }
            }
        }
        k = k + 1;
    }
    proof {
        assert(tail_indices(args@).subrange(0, args@.len() - 5) =~= tail_indices(args@));
    }
    let gate_name = match controlled_gate_name(&op_name, num_controls, num_targets) {
        Some(g) => g,
        None => {
            let mut m: Vec<char> = Vec::new();
            push_str(&mut m, "generalizedInvokeWithRotationsControlsTargets: no Braket-native gate for controlled ``");
            crate::text::push_chars(&mut m, &op_name);
            push_str(&mut m, "`` with numControls=");
            push_int(&mut m, num_controls as i128);
            push_str(&mut m, ", numTargets=");
            push_int(&mut m, num_targets as i128);
            push_str(&mut m, ". Extend the decomposition pipeline upstream, or add a gate mapping here.");
            return Err(unsupported_err(&m));
        },
    };
    let mut modifiers: Vec<GateModifier> = Vec::new();
    if adjoint_flag != 0 {
        modifiers.push(GateModifier::Inv);
    }
    proof {
        if adjoint_flag != 0 {
            assert(modifiers@ =~= seq![GateModifier::Inv]);
        } else {
            assert(modifiers@ =~= Seq::<GateModifier>::empty());
        }
    }
    let mut out: Vec<Statement> = Vec::new();
    out.push(Statement::QuantumGate { modifiers, name: owned(gate_name), arguments: Vec::new(), qubits });
    Ok(out)
}

// ---------------------------------------------------------------------------
// Dispatch
// ---------------------------------------------------------------------------

/// What a measurement call does: with the `(Qubit, Result)` signature,
/// `c[r] = measure q[q];` (then `reset q[q];` when `reset`) and both
/// registers grow to cover the indices; any other signature, or an operand
/// that does not resolve, is an error.
pub open spec fn measure_call_ok(
    reset: bool,
    tys: Seq<Seq<char>>,
    callee: Seq<char>,
    args: Seq<Operand>,
    before: SymbolTable,
    after: SymbolTable,
    r: Result<Vec<Statement>, QirToQasmError>,
) -> bool {
    if tys != qubit_result() {
        r is Err
    } else {
        match (spec_qubit_index(args[0], callee), spec_result_index(args[1], callee)) {
            (Ok(q), Ok(c)) => r matches Ok(v) && v@.len() == (if reset { 2int } else { 1int })
                && is_measure_stmt(v@[0], q, c) && (reset ==> is_reset_stmt(v@[1], q))
                && after.qubit_max() == max_with(before.qubit_max(), seq![q])
                && after.result_max() == max_with(before.result_max(), seq![c]),
            (Err(e), _) => r matches Err(x) && err_view(x) == e,
            (Ok(_), Err(e)) => r matches Err(x) && err_view(x) == e,
        }
    }
}

/// What a reset call does: with the `(Qubit)` signature, `reset q[q];`
/// and the qubit register grows to cover the index.
pub open spec fn reset_call_ok(
    tys: Seq<Seq<char>>,
    callee: Seq<char>,
    args: Seq<Operand>,
    before: SymbolTable,
    after: SymbolTable,
    r: Result<Vec<Statement>, QirToQasmError>,
) -> bool {
    if tys != seq!["Qubit"@] {
        r is Err
    } else {
        match spec_qubit_index(args[0], callee) {
            Ok(q) => r matches Ok(v) && v@.len() == 1 && is_reset_stmt(v@[0], q)
                && after.qubit_max() == max_with(before.qubit_max(), seq![q])
                && after.result_max() == before.result_max(),
            Err(e) => r matches Err(x) && err_view(x) == e,
        }
    }
}

/// What a read-result call does: with the `(Result)` signature, no
/// statement; the result SSA (when given) is bound to `c[r]` and the
/// result register grows to cover the index.
pub open spec fn read_call_ok(
    tys: Seq<Seq<char>>,
    callee: Seq<char>,
    args: Seq<Operand>,
    result_ssa: Option<Seq<char>>,
    before: SymbolTable,
    after: SymbolTable,
    r: Result<Vec<Statement>, QirToQasmError>,
) -> bool {
    if tys != seq!["Result"@] {
        r is Err
    } else {
        match spec_result_index(args[0], callee) {
            Ok(c) => r matches Ok(v) && v@.len() == 0 && after.qubit_max() == before.qubit_max()
                && after.result_max() == max_with(before.result_max(), seq![c])
                && match result_ssa {
                Some(k) => after.binding(k) matches Some(e) && is_reg_read(e, "c"@, c) && exists|e: Expression|
                    after.bindings() == entries_insert(before.bindings(), k, e),
                None => after.bindings() == before.bindings(),
            },
            Err(e) => r matches Err(x) && err_view(x) == e,
        }
    }
}

/// What lowering a call does, by the builder's kind: a gate, a
/// measurement, a reset, a result read, an output record (nothing) or the
/// generalized controlled dispatch. Operand types are read from the
/// signature with bare `ptr` re-tagged for the builder. Aliases and slots
/// never change; only a result read binds an SSA value.
pub open spec fn call_post(
    builder: FunctionBuilder,
    signature: FunctionSignature,
    args: Seq<Operand>,
    result_ssa: Option<Seq<char>>,
    before: SymbolTable,
    after: SymbolTable,
    r: Result<Vec<Statement>, QirToQasmError>,
) -> bool {
    let tys = retagged(signature.view_sig().param_types, builder);
    &&& after.aliases() == before.aliases()
    &&& after.slots() == before.slots()
    &&& !(builder is ReadResult) ==> after.bindings() == before.bindings()
    &&& (builder is Gate || builder is Reset || builder is GeneralizedControlled || builder is RecordOutputNoop)
        ==> after.result_max() == before.result_max()
    &&& (builder is ReadResult || builder is RecordOutputNoop) ==> after.qubit_max() == before.qubit_max()
    &&& builder is RecordOutputNoop ==> (r matches Ok(v) && v@.len() == 0 && after == before)
    &&& builder matches FunctionBuilder::Gate { gate_name, adjoint } ==> (match gate_parts(
        before,
        args,
        tys,
        signature.name@,
    ) {
        Ok((a, q)) => r matches Ok(v) && v@.len() == 1 && is_gate_stmt(v@[0], gate_name@, adjoint, a, q)
            && after.qubit_max() == max_with(before.qubit_max(), q),
        Err(e) => r matches Err(x) && err_view(x) == e,
    })
    &&& builder is Measurement || builder is MeasureAndReset ==> measure_call_ok(
        builder is MeasureAndReset,
        tys,
        signature.name@,
        args,
        before,
        after,
        r,
    )
    &&& builder is Reset ==> reset_call_ok(tys, signature.name@, args, before, after, r)
    &&& builder is ReadResult ==> read_call_ok(tys, signature.name@, args, result_ssa, before, after, r)
    &&& builder is GeneralizedControlled ==> (r matches Ok(v) ==> v@.len() == 1 && gc_stmt_ok(v@[0], args)
        && after.qubit_max() == max_with(before.qubit_max(), tail_indices(args)))
    &&& builder is GeneralizedControlled ==> (r is Ok <==> gc_preconditions(signature, args) && tail_resolves(args))
    &&& builder is GeneralizedControlled ==> (r matches Err(x) ==> gc_error(signature, args) == Some(err_view(x)))
}

/// Lower a call according to the builder's kind, returning the statements
/// to append to the enclosing block. `ReadResult` binds `result_ssa` (when
/// given) to the `c[i]` read; `RecordOutputNoop` emits nothing.
pub fn lower_call(
    builder: &FunctionBuilder,
    signature: &FunctionSignature,
    args: &[Operand],
    result_ssa: Option<&str>,
    symbols: &mut SymbolTable,
) -> (r: Result<Vec<Statement>, QirToQasmError>)
    requires
        old(symbols).wf(),
        (builder is Measurement || builder is MeasureAndReset) && retagged(
            signature.view_sig().param_types,
            *builder,
        ) == qubit_result() ==> args@.len() >= 2,
        builder is Reset && retagged(signature.view_sig().param_types, *builder) == seq!["Qubit"@] ==> args@.len()
            >= 1,
        builder is ReadResult && retagged(signature.view_sig().param_types, *builder) == seq!["Result"@]
            ==> args@.len() >= 1,
    ensures
        final(symbols).wf(),
        call_post(
            *builder,
            *signature,
            args@,
            match result_ssa {
                Some(k) => Some(k@),
                None => None,
            },
            *old(symbols),
            *final(symbols),
            r,
        ),
{
    let sig = canonicalize_opaque_ptrs(signature, builder);
    match builder {
        FunctionBuilder::Gate { gate_name, adjoint } => build_gate(gate_name.as_str(), *adjoint, &sig, args, symbols),
        FunctionBuilder::Measurement => build_measurement(&sig, args, symbols, false),
        FunctionBuilder::MeasureAndReset => build_measurement(&sig, args, symbols, true),
        FunctionBuilder::Reset => build_reset(&sig, args, symbols),
        FunctionBuilder::ReadResult => {
            let e = build_read_result(&sig, args, symbols)?;
            match result_ssa {
                Some(key) => {
                    let ghost b = symbols.bindings();
                    proof {
                        lemma_entries_insert(b, key@, e);
                    }
                    symbols.record_ssa(key, e);
                },
                None => {},
            }
            Ok(Vec::new())
        },
        FunctionBuilder::RecordOutputNoop => Ok(Vec::new()),
        FunctionBuilder::GeneralizedControlled => {
            proof {
                assert(sig.view_sig().param_types =~= signature.view_sig().param_types);
            }
            build_generalized_controlled(&sig, args, symbols)
        },
    }
}

} // verus!
