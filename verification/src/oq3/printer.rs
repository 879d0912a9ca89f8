//! Byte-exact OpenQASM 3 pretty-printer.
//!
//! Matches the reference Python printer (two-space indent, chained
//! `else`) for the subset the translator emits. The output is a sequence
//! of pieces: text, and floating-point literals, whose rendering is left
//! to the caller (see [`render`]).
use vstd::prelude::*;

use super::ast::{spec_bin, BinaryOp, Expression, GateModifier, IndexedIdentifier, IoKind, Program, Statement, UnaryOp};
use crate::ir::model::{float_view, FloatView};
use crate::ir::FloatLit;
use crate::text::{int_text, owned, push_int, string_of};

verus! {

/// One piece of printed output.
#[derive(Debug, Clone, PartialEq)]
pub enum QasmPiece {
    /// Literal program text.
    Text(String),
    /// A floating-point literal, rendered by the caller.
    Float(FloatLit),
}

/// A piece as plain values.
pub enum PieceView {
    Text(Seq<char>),
    Float(FloatView),
}

/// The view of a piece.
pub open spec fn piece_view(p: QasmPiece) -> PieceView {
    match p {
        QasmPiece::Text(s) => PieceView::Text(s@),
        QasmPiece::Float(f) => PieceView::Float(float_view(f)),
    }
}

/// The views of a sequence of pieces.
pub open spec fn pieces_view(v: Seq<QasmPiece>) -> Seq<PieceView> {
    v.map_values(|p: QasmPiece| piece_view(p))
}

/// A text piece.
pub open spec fn t(s: Seq<char>) -> Seq<PieceView> {
    seq![PieceView::Text(s)]
}

// ---------------------------------------------------------------------------
// Precedence
// ---------------------------------------------------------------------------

/// Binding strength of a binary operator.
pub open spec fn binary_precedence(op: BinaryOp) -> int {
    match op {
        BinaryOp::Or => 1,
        BinaryOp::And => 2,
        BinaryOp::BitOr => 3,
        BinaryOp::BitXor => 4,
        BinaryOp::BitAnd => 5,
        BinaryOp::Eq | BinaryOp::Ne => 6,
        BinaryOp::Lt | BinaryOp::Le | BinaryOp::Gt | BinaryOp::Ge => 7,
        BinaryOp::Shl | BinaryOp::Shr => 8,
        BinaryOp::Add | BinaryOp::Sub => 9,
        BinaryOp::Mul | BinaryOp::Div | BinaryOp::Mod => 10,
        BinaryOp::Pow => 12,
    }
}

/// Binding strength of an expression's outermost node.
pub open spec fn precedence(e: Expression) -> int {
    match e {
        Expression::Identifier(_) | Expression::Integer(_) | Expression::Float(_) | Expression::Boolean(_) => 14,
        Expression::Index { .. } => 13,
        Expression::Unary { .. } => 11,
        Expression::Binary { op, .. } => binary_precedence(op),
    }
}

pub fn binary_prec(op: BinaryOp) -> (r: u32)
    ensures
        r == binary_precedence(op),
{
    match op {
        BinaryOp::Or => 1,
        BinaryOp::And => 2,
        BinaryOp::BitOr => 3,
        BinaryOp::BitXor => 4,
        BinaryOp::BitAnd => 5,
        BinaryOp::Eq | BinaryOp::Ne => 6,
        BinaryOp::Lt | BinaryOp::Le | BinaryOp::Gt | BinaryOp::Ge => 7,
        BinaryOp::Shl | BinaryOp::Shr => 8,
        BinaryOp::Add | BinaryOp::Sub => 9,
        BinaryOp::Mul | BinaryOp::Div | BinaryOp::Mod => 10,
        BinaryOp::Pow => 12,
    }
}

fn prec(e: &Expression) -> (r: u32)
    ensures
        r == precedence(*e),
{
    match e {
        Expression::Identifier(_) | Expression::Integer(_) | Expression::Float(_) | Expression::Boolean(_) => 14,
        Expression::Index { .. } => 13,
        Expression::Unary { .. } => 11,
        Expression::Binary { op, .. } => binary_prec(*op),
    }
}

// ---------------------------------------------------------------------------
// Expressions
// ---------------------------------------------------------------------------

/// `e`, in parentheses when `paren`.
pub open spec fn wrapped(paren: bool, e: Seq<PieceView>) -> Seq<PieceView> {
    if paren {
        t("("@) + e + t(")"@)
    } else {
        e
    }
}

/// The printed pieces of an expression.
pub open spec fn expr_pieces(e: Expression) -> Seq<PieceView>
    decreases e,
{
    match e {
        Expression::Identifier(n) => t(n@),
        Expression::Integer(v) => t(int_text(v as int)),
        Expression::Boolean(b) => t(if b { "true"@ } else { "false"@ }),
        Expression::Float(f) => seq![PieceView::Float(float_view(f))],
        Expression::Index { collection, index } => wrapped(precedence(*collection) < 13, expr_pieces(*collection))
            + t("["@) + expr_pieces(*index) + t("]"@),
        Expression::Unary { op, expr } => t(op.text()) + wrapped(11 >= precedence(*expr), expr_pieces(*expr)),
        Expression::Binary { op, lhs, rhs } => {
            let p = binary_precedence(op);
            let lp = precedence(*lhs);
            let same = match *lhs {
                Expression::Binary { op: lop, .. } => lop == op,
                _ => false,
            };
            wrapped(lp < p || (lp == p && !same), expr_pieces(*lhs)) + t(" "@) + t(op.text()) + t(" "@)
                + wrapped(precedence(*rhs) <= p, expr_pieces(*rhs))
        },
    }
}

/// Binding strength of a binary operator token in the OpenQASM 3 grammar,
/// loosest first: `||`, `&&`, `|`, `^`, `&`, equality, comparison, shift,
/// additive, multiplicative, `**`.
pub open spec fn qasm3_token_level(tok: Seq<char>) -> int {
    if tok == seq!['|', '|'] {
        1
    } else if tok == seq!['&', '&'] {
        2
    } else if tok == seq!['|'] {
        3
    } else if tok == seq!['^'] {
        4
    } else if tok == seq!['&'] {
        5
    } else if tok == seq!['=', '='] || tok == seq!['!', '='] {
        6
    } else if tok == seq!['<'] || tok == seq!['<', '='] || tok == seq!['>'] || tok == seq!['>', '='] {
        7
    } else if tok == seq!['<', '<'] || tok == seq!['>', '>'] {
        8
    } else if tok == seq!['+'] || tok == seq!['-'] {
        9
    } else if tok == seq!['*'] || tok == seq!['/'] || tok == seq!['%'] {
        10
    } else if tok == seq!['*', '*'] {
        11
    } else {
        0
    }
}

/// The grammar's binding strength of the operator as printed.
pub open spec fn grammar_level(op: BinaryOp) -> int {
    qasm3_token_level(op.text())
}

proof fn lemma_grammar_level(op: BinaryOp)
    ensures
        grammar_level(op) == (if op == BinaryOp::Pow { 11 } else { binary_precedence(op) }),
{
    let s = op.text();
    assert(s.len() == 1 ==> s == seq![s[0]]);
    assert(s.len() == 2 ==> s == seq![s[0], s[1]]);
}

/// The printer's binding strengths order the binary operators exactly as
/// the OpenQASM 3 grammar orders their tokens: `&&` binds tighter than
/// `||`, and so on up to `**`.
pub proof fn law_precedence_follows_grammar(a: BinaryOp, b: BinaryOp)
    ensures
        grammar_level(a) < grammar_level(b) <==> binary_precedence(a) < binary_precedence(b),
        grammar_level(a) == grammar_level(b) <==> binary_precedence(a) == binary_precedence(b),
{
    lemma_grammar_level(a);
    lemma_grammar_level(b);
}

/// `child` is a binary expression whose operator binds more loosely than
/// `op` in the OpenQASM 3 grammar.
pub open spec fn grammar_looser(child: Expression, op: BinaryOp) -> bool {
    child matches Expression::Binary { op: cop, .. } && grammar_level(cop) < grammar_level(op)
}

/// `child` is a binary expression whose operator binds at the level of `op`.
pub open spec fn grammar_same_level(child: Expression, op: BinaryOp) -> bool {
    child matches Expression::Binary { op: cop, .. } && grammar_level(cop) == grammar_level(op)
}

/// `child` is a binary expression whose operator binds more tightly than
/// `op` in the OpenQASM 3 grammar.
pub open spec fn grammar_tighter(child: Expression, op: BinaryOp) -> bool {
    child matches Expression::Binary { op: cop, .. } && grammar_level(cop) > grammar_level(op)
}

/// A binary expression prints as its two operands around the operator's
/// token, each operand in parentheses exactly where the OpenQASM 3 grammar
/// would otherwise regroup it: a left operand that binds more loosely, or
/// a right operand that binds no more tightly, is parenthesised; one that
/// binds more tightly is printed bare. Read back with the grammar's
/// precedence, the text has the tree that was printed.
pub proof fn law_binary_operands_grouped(op: BinaryOp, lhs: Expression, rhs: Expression)
    ensures
        exists|pl: bool, pr: bool|
            {
                &&& expr_pieces(spec_bin(op, lhs, rhs)) == #[trigger] wrapped(pl, expr_pieces(lhs)) + t(" "@) + t(
                    op.text(),
                ) + t(" "@) + #[trigger] wrapped(pr, expr_pieces(rhs))
                &&& (grammar_looser(lhs, op) ==> pl)
                &&& (grammar_tighter(lhs, op) ==> !pl)
                &&& (grammar_looser(rhs, op) || grammar_same_level(rhs, op) ==> pr)
                &&& (grammar_tighter(rhs, op) ==> !pr)
            },
{
    let p = binary_precedence(op);
    let lp = precedence(lhs);
    let same = match lhs {
        Expression::Binary { op: lop, .. } => lop == op,
        _ => false,
    };
    let pl = lp < p || (lp == p && !same);
    let pr = precedence(rhs) <= p;
    if let Expression::Binary { op: lop, .. } = lhs {
        law_precedence_follows_grammar(lop, op);
    }
    if let Expression::Binary { op: rop, .. } = rhs {
        law_precedence_follows_grammar(rop, op);
    }
    assert(expr_pieces(spec_bin(op, lhs, rhs)) == wrapped(pl, expr_pieces(lhs)) + t(" "@) + t(op.text()) + t(
        " "@,
    ) + wrapped(pr, expr_pieces(rhs)));
}

/// Appends a text piece.
fn push_text(out: &mut Vec<QasmPiece>, s: &str)
    ensures
        pieces_view(final(out)@) == pieces_view(old(out)@) + t(s@),
{
    out.push(QasmPiece::Text(owned(s)));
    proof {
        assert(pieces_view(out@) =~= pieces_view(old(out)@) + t(s@));
    }
}

fn push_text_string(out: &mut Vec<QasmPiece>, s: &String)
    ensures
        pieces_view(final(out)@) == pieces_view(old(out)@) + t(s@),
{
    out.push(QasmPiece::Text(s.clone()));
    proof {
        assert(pieces_view(out@) =~= pieces_view(old(out)@) + t(s@));
    }
}

fn push_number(out: &mut Vec<QasmPiece>, n: i128)
    ensures
        pieces_view(final(out)@) == pieces_view(old(out)@) + t(int_text(n as int)),
{
    let mut v: Vec<char> = Vec::new();
    push_int(&mut v, n);
    out.push(QasmPiece::Text(string_of(&v)));
    proof {
        assert(pieces_view(out@) =~= pieces_view(old(out)@) + t(int_text(n as int)));
    }
}

fn expression(out: &mut Vec<QasmPiece>, e: &Expression)
    ensures
        pieces_view(final(out)@) == pieces_view(old(out)@) + expr_pieces(*e),
    decreases e,
{
    let ghost o0 = pieces_view(old(out)@);
    match e {
        Expression::Identifier(n) => push_text_string(out, n),
        Expression::Integer(v) => push_number(out, *v as i128),
        Expression::Boolean(b) => {
            proof {
                reveal_strlit("true");
                reveal_strlit("false");
            }
            if *b {
                push_text(out, "true");
            } else {
                push_text(out, "false");
            }
        },
        Expression::Float(f) => {
            out.push(QasmPiece::Float(crate::oq3::ast::copy_float(f)));
            proof {
                assert(pieces_view(out@) =~= o0 + expr_pieces(*e));
            }
        },
        Expression::Index { collection, index } => {
            if prec(collection) < 13 {
                push_text(out, "(");
                expression(out, collection);
                push_text(out, ")");
            } else {
                expression(out, collection);
            }
            push_text(out, "[");
            expression(out, index);
            push_text(out, "]");
            proof {
                assert(pieces_view(out@) =~= o0 + expr_pieces(*e));
            }
        },
        Expression::Unary { op, expr } => {
            push_text(out, op.as_str());
            if 11 >= prec(expr) {
                push_text(out, "(");
                expression(out, expr);
                push_text(out, ")");
            } else {
                expression(out, expr);
            }
            proof {
                assert(pieces_view(out@) =~= o0 + expr_pieces(*e));
            }
        },
        Expression::Binary { op, lhs, rhs } => {
            let p = binary_prec(*op);
            let lp = prec(lhs);
            let same = match &**lhs {
                Expression::Binary { op: lop, .. } => *lop == *op,
                _ => false,
            };
            if lp < p || (lp == p && !same) {
                push_text(out, "(");
                expression(out, lhs);
                push_text(out, ")");
            } else {
                expression(out, lhs);
            }
            push_text(out, " ");
            push_text(out, op.as_str());
            push_text(out, " ");
            if prec(rhs) <= p {
                push_text(out, "(");
                expression(out, rhs);
                push_text(out, ")");
            } else {
                expression(out, rhs);
            }
            proof {
                assert(pieces_view(out@) =~= o0 + expr_pieces(*e));
            }
        },
    }
}

/// The printed pieces of an assignment target or qubit operand.
pub open spec fn ident_pieces(id: IndexedIdentifier) -> Seq<PieceView> {
    match id.index {
        Some(ix) => t(id.name@) + t("["@) + expr_pieces(ix) + t("]"@),
        None => t(id.name@),
    }
}

fn indexed_ident(out: &mut Vec<QasmPiece>, id: &IndexedIdentifier)
    ensures
        pieces_view(final(out)@) == pieces_view(old(out)@) + ident_pieces(*id),
{
    let ghost o0 = pieces_view(old(out)@);
    push_text_string(out, &id.name);
    match &id.index {
        Some(ix) => {
            push_text(out, "[");
            expression(out, ix);
            push_text(out, "]");
        },
        None => {},
    }
    proof {
        assert(pieces_view(out@) =~= o0 + ident_pieces(*id));
    }
}

// ---------------------------------------------------------------------------
// Statements
// ---------------------------------------------------------------------------

/// The pieces of `items`, separated by `, `.
pub open spec fn comma_exprs(v: Seq<Expression>) -> Seq<PieceView>
    decreases v.len(),
{
    if v.len() == 0 {
        Seq::empty()
    } else if v.len() == 1 {
        expr_pieces(v[0])
    } else {
        comma_exprs(v.drop_last()) + t(", "@) + expr_pieces(v.last())
    }
}

/// The pieces of identifiers, separated by `, `.
pub open spec fn comma_idents(v: Seq<IndexedIdentifier>) -> Seq<PieceView>
    decreases v.len(),
{
    if v.len() == 0 {
        Seq::empty()
    } else if v.len() == 1 {
        ident_pieces(v[0])
    } else {
        comma_idents(v.drop_last()) + t(", "@) + ident_pieces(v.last())
    }
}

/// `inv @ ` once per modifier.
pub open spec fn modifier_pieces(n: nat) -> Seq<PieceView>
    decreases n,
{
    if n == 0 {
        Seq::empty()
    } else {
        modifier_pieces((n - 1) as nat) + t("inv @ "@)
    }
}

/// The printed pieces of a statement, each of its lines starting with
/// the indentation `indent`.
pub open spec fn stmt_pieces(s: Statement, indent: Seq<char>) -> Seq<PieceView>
    decreases s, 0nat,
{
    let ind = t(indent);
    let end = t(";\n"@);
    match s {
        Statement::Include(path) => ind + t("include \""@) + t(path@) + t("\""@) + end,
        Statement::QubitDeclaration { size, name } => ind + t("qubit["@) + t(int_text(size as int)) + t("] "@) + t(name@) + end,
        Statement::ClassicalDeclaration { bit_size, name } => ind + t("bit["@) + t(int_text(bit_size as int)) + t("] "@) + t(name@) + end,
        Statement::IntDeclaration { name, init } => ind + t("int "@) + t(name@) + t(" = "@) + expr_pieces(init) + end,
        Statement::Assignment { target, value } => ind + ident_pieces(target) + t(" = "@) + expr_pieces(value) + end,
        Statement::IODeclaration { io_kind, bit_size, name } => ind + t("output bit["@) + t(int_text(bit_size as int)) + t("] "@) + t(name@) + end,
        Statement::QuantumGate { modifiers, name, arguments, qubits } => ind + modifier_pieces(modifiers@.len()) + t(name@)
            + (if arguments@.len() > 0 {
            t("("@) + comma_exprs(arguments@) + t(")"@)
        } else {
            Seq::empty()
        }) + t(" "@) + comma_idents(qubits@) + end,
        Statement::QuantumMeasurementStatement { qubit, target } => ind + ident_pieces(target) + t(" = measure "@) + ident_pieces(qubit) + end,
        Statement::QuantumReset(q) => ind + t("reset "@) + ident_pieces(q) + end,
        Statement::BranchingStatement { condition, if_block, else_block } => ind + t("if ("@) + expr_pieces(condition) + t(") {"@) + t("\n"@)
            + block_pieces(if_block, indent + "  "@, if_block@.len()) + ind + t("}"@) + (if else_block@.len() > 0 {
            t(" else {"@) + t("\n"@) + block_pieces(else_block, indent + "  "@, else_block@.len()) + ind + t("}"@)
        } else {
            Seq::empty()
        }) + t("\n"@),
        Statement::WhileLoop { condition, body } => ind + t("while ("@) + expr_pieces(condition) + t(") {"@) + t("\n"@)
            + block_pieces(body, indent + "  "@, body@.len()) + ind + t("}"@) + t("\n"@),
    }
}

/// The printed pieces of the first `n` statements of `v`.
pub open spec fn block_pieces(v: Vec<Statement>, indent: Seq<char>, n: nat) -> Seq<PieceView>
    decreases v, n,
{
    if n == 0 || n > v@.len() {
        Seq::empty()
    } else {
        proof {
            assert(decreases_to!(v => v@[n - 1]));
        }
        block_pieces(v, indent, (n - 1) as nat) + stmt_pieces(v@[n - 1], indent)
    }
}

fn statements(out: &mut Vec<QasmPiece>, v: &Vec<Statement>, indent: &String)
    ensures
        pieces_view(final(out)@) == pieces_view(old(out)@) + block_pieces(*v, indent@, v@.len()),
    decreases v, 1nat,
{
    let ghost o0 = pieces_view(old(out)@);
    let mut i: usize = 0;
    while i < v.len()
        invariant
            i <= v@.len(),
            pieces_view(out@) == o0 + block_pieces(*v, indent@, i as nat),
        decreases v@.len() - i,
    {
        proof {
            assert(decreases_to!(v => v@[i as int]));
        }
        statement(out, &v[i], indent);
        i = i + 1;
        proof {
            assert(pieces_view(out@) =~= o0 + block_pieces(*v, indent@, i as nat));
        }
    }
}

#[verifier::spinoff_prover]
#[verifier::rlimit(60)]
fn statement(out: &mut Vec<QasmPiece>, s: &Statement, indent: &String)
    ensures
        pieces_view(final(out)@) == pieces_view(old(out)@) + stmt_pieces(*s, indent@),
    decreases s, 0nat,
{
    let ghost o0 = pieces_view(old(out)@);
    push_text_string(out, indent);
    match s {
        Statement::Include(path) => {
            push_text(out, "include \"");
            push_text_string(out, path);
            push_text(out, "\"");
            push_text(out, ";\n");
        },
        Statement::QubitDeclaration { size, name } => {
            push_text(out, "qubit[");
            push_number(out, *size as i128);
            push_text(out, "] ");
            push_text_string(out, name);
            push_text(out, ";\n");
        },
        Statement::ClassicalDeclaration { bit_size, name } => {
            push_text(out, "bit[");
            push_number(out, *bit_size as i128);
            push_text(out, "] ");
            push_text_string(out, name);
            push_text(out, ";\n");
        },
        Statement::IntDeclaration { name, init } => {
            push_text(out, "int ");
            push_text_string(out, name);
            push_text(out, " = ");
            expression(out, init);
            push_text(out, ";\n");
        },
        Statement::Assignment { target, value } => {
            indexed_ident(out, target);
            push_text(out, " = ");
            expression(out, value);
            push_text(out, ";\n");
        },
        Statement::IODeclaration { io_kind, bit_size, name } => {
            push_text(out, "output bit[");
            push_number(out, *bit_size as i128);
            push_text(out, "] ");
            push_text_string(out, name);
            push_text(out, ";\n");
        },
        Statement::QuantumGate { modifiers, name, arguments, qubits } => {
            let ghost o1 = pieces_view(out@);
            let mut i: usize = 0;
            while i < modifiers.len()
                invariant
                    i <= modifiers@.len(),
                    pieces_view(out@) == o1 + modifier_pieces(i as nat),
                decreases modifiers@.len() - i,
            {
                push_text(out, "inv @ ");
                i = i + 1;
                proof {
                    assert(pieces_view(out@) =~= o1 + modifier_pieces(i as nat));
                }
            }
            push_text_string(out, name);
            if arguments.len() > 0 {
                push_text(out, "(");
                let ghost o2 = pieces_view(out@);
                let mut k: usize = 0;
                while k < arguments.len()
                    invariant
                        k <= arguments@.len(),
                        pieces_view(out@) == o2 + comma_exprs(arguments@.subrange(0, k as int)),
                    decreases arguments@.len() - k,
                {
                    proof {
                        let w = arguments@.subrange(0, k + 1);
                        assert(w.drop_last() =~= arguments@.subrange(0, k as int));
                    }
                    if k > 0 {
                        push_text(out, ", ");
                    }
                    expression(out, &arguments[k]);
                    k = k + 1;
                }
                proof {
                    assert(arguments@.subrange(0, arguments@.len() as int) =~= arguments@);
                }
                push_text(out, ")");
            }
            push_text(out, " ");
            let ghost o3 = pieces_view(out@);
            let mut j: usize = 0;
            while j < qubits.len()
                invariant
                    j <= qubits@.len(),
                    pieces_view(out@) == o3 + comma_idents(qubits@.subrange(0, j as int)),
                decreases qubits@.len() - j,
            {
                proof {
                    let w = qubits@.subrange(0, j + 1);
                    assert(w.drop_last() =~= qubits@.subrange(0, j as int));
                }
                if j > 0 {
                    push_text(out, ", ");
                }
                indexed_ident(out, &qubits[j]);
                j = j + 1;
            }
            proof {
                assert(qubits@.subrange(0, qubits@.len() as int) =~= qubits@);
            }
            push_text(out, ";\n");
        },
        Statement::QuantumMeasurementStatement { qubit, target } => {
            indexed_ident(out, target);
            push_text(out, " = measure ");
            indexed_ident(out, qubit);
            push_text(out, ";\n");
        },
        Statement::QuantumReset(q) => {
            push_text(out, "reset ");
            indexed_ident(out, q);
            push_text(out, ";\n");
        },
        Statement::BranchingStatement { condition, if_block, else_block } => {
            push_text(out, "if (");
            expression(out, condition);
            push_text(out, ") {");
            push_text(out, "\n");
            let inner = deeper(indent);
            statements(out, if_block, &inner);
            push_text_string(out, indent);
            push_text(out, "}");
            if else_block.len() > 0 {
                push_text(out, " else {");
                push_text(out, "\n");
                let inner = deeper(indent);
                statements(out, else_block, &inner);
                push_text_string(out, indent);
                push_text(out, "}");
            }
            push_text(out, "\n");
        },
        Statement::WhileLoop { condition, body } => {
            push_text(out, "while (");
            expression(out, condition);
            push_text(out, ") {");
            push_text(out, "\n");
            let inner = deeper(indent);
            statements(out, body, &inner);
            push_text_string(out, indent);
            push_text(out, "}");
            push_text(out, "\n");
        },
    }
    proof {
        assert(pieces_view(out@) =~= o0 + stmt_pieces(*s, indent@));
    }
}

fn deeper(indent: &String) -> (r: String)
    ensures
        r@ == indent@ + "  "@,
{
    let mut v = crate::text::chars_of_string(indent);
    crate::text::push_str(&mut v, "  ");
    string_of(&v)
}

/// The printed pieces of a program: the `OPENQASM <version>;` line (when
/// a version is given) and the statements.
pub open spec fn program_pieces(p: Program) -> Seq<PieceView> {
    (if p.version@.len() > 0 {
        t(""@) + t("OPENQASM "@) + t(p.version@) + t(";\n"@)
    } else {
        Seq::empty()
    }) + block_pieces(p.statements, ""@, p.statements@.len())
}

/// Pretty-print a program, appending to an existing buffer of pieces.
pub fn print_into(out: &mut Vec<QasmPiece>, program: &Program)
    ensures
        pieces_view(final(out)@) == pieces_view(old(out)@) + program_pieces(*program),
{
    let ghost o0 = pieces_view(old(out)@);
    let vc = crate::text::chars_of_string(&program.version);
    if vc.len() > 0 {
        push_text(out, "");
        push_text(out, "OPENQASM ");
        push_text_string(out, &program.version);
        push_text(out, ";\n");
    }
    let top = owned("");
    statements(out, &program.statements, &top);
    proof {
        assert(pieces_view(out@) =~= o0 + program_pieces(*program));
    }
}

/// Pretty-print a program to pieces.
pub fn print(program: &Program) -> (r: Vec<QasmPiece>)
    ensures
        pieces_view(r@) == program_pieces(*program),
{
    let mut out: Vec<QasmPiece> = Vec::new();
    proof {
        assert(pieces_view(out@) =~= Seq::<PieceView>::empty());
    }
    print_into(&mut out, program);
    proof {
        assert(Seq::<PieceView>::empty() + program_pieces(*program) =~= program_pieces(*program));
    }
    out
}

// ---------------------------------------------------------------------------
// Rendering
// ---------------------------------------------------------------------------

/// The number of float pieces.
pub open spec fn float_count(v: Seq<PieceView>) -> nat
    decreases v.len(),
{
    if v.len() == 0 {
        0
    } else {
        float_count(v.drop_last()) + match v.last() {
            PieceView::Float(_) => 1nat,
            PieceView::Text(_) => 0nat,
        }
    }
}

/// The text of the pieces, with the `k`-th float piece written as
/// `floats[k]`.
pub open spec fn rendered(v: Seq<PieceView>, floats: Seq<Seq<char>>) -> Seq<char>
    decreases v.len(),
{
    if v.len() == 0 {
        Seq::empty()
    } else {
        rendered(v.drop_last(), floats) + match v.last() {
            PieceView::Text(s) => s,
            PieceView::Float(_) => floats[float_count(v.drop_last()) as int],
        }
    }
}

/// Join the pieces into text, writing the `k`-th float piece as
/// `floats[k]` (the caller's rendering of that literal).
pub fn render(pieces: &[QasmPiece], floats: &[String]) -> (r: String)
    requires
        float_count(pieces_view(pieces@)) <= floats@.len(),
    ensures
        r@ == rendered(pieces_view(pieces@), floats@.map_values(|s: String| s@)),
{
    let ghost pv = pieces_view(pieces@);
    let ghost fv = floats@.map_values(|s: String| s@);
    let mut out: Vec<char> = Vec::new();
    let mut k: usize = 0;
    let mut i: usize = 0;
    while i < pieces.len()
        invariant
            i <= pieces@.len(),
            pv == pieces_view(pieces@),
            fv == floats@.map_values(|s: String| s@),
            float_count(pv) <= floats@.len(),
            k == float_count(pv.subrange(0, i as int)),
            out@ == rendered(pv.subrange(0, i as int), fv),
        decreases pieces@.len() - i,
    {
        let ghost w = pv.subrange(0, i + 1);
        proof {
            assert(w.drop_last() =~= pv.subrange(0, i as int));
            assert(w.last() == piece_view(pieces@[i as int]));
            lemma_float_count_prefix(pv, i + 1);
        }
        match &pieces[i] {
            QasmPiece::Text(s) => {
                crate::text::push_string(&mut out, s);
            },
            QasmPiece::Float(_) => {
                crate::text::push_string(&mut out, &floats[k]);
                k = k + 1;
            },
        }
        i = i + 1;
    }
    proof {
        assert(pv.subrange(0, pieces@.len() as int) =~= pv);
    }
    string_of(&out)
}

proof fn lemma_float_count_prefix(v: Seq<PieceView>, n: int)
    requires
        0 <= n <= v.len(),
    ensures
        float_count(v.subrange(0, n)) <= float_count(v),
        n < v.len() ==> float_count(v.subrange(0, n)) + (match v[n] { PieceView::Float(_) => 1int, PieceView::Text(_) => 0int }) <= float_count(v),
    decreases v.len() - n,
{
    if n < v.len() {
        lemma_float_count_prefix(v, n + 1);
        assert(v.subrange(0, n + 1).drop_last() =~= v.subrange(0, n));
    } else {
        assert(v.subrange(0, n) =~= v);
    }
}

} // verus!
