//! AST nodes emitted by the translator: the strict subset of OpenQASM 3
//! that the translator produces.
use vstd::prelude::*;

use crate::ir::FloatLit;
use crate::text::owned;

verus! {

/// A complete program.
#[derive(Debug, Clone, PartialEq)]
pub struct Program {
    /// Language version string (e.g. `"3.0"`).
    pub version: String,
    /// Top-level statements.
    pub statements: Vec<Statement>,
}

/// Top-level or nested block statement.
#[derive(Debug, PartialEq)]
pub enum Statement {
    /// `include "<path>";`
    Include(String),
    /// `qubit[<size>] <name>;`
    QubitDeclaration {
        /// Register width.
        size: u64,
        /// Register identifier (`q`).
        name: String,
    },
    /// `bit[<size>] <name>;`
    ClassicalDeclaration {
        /// Register width.
        bit_size: u64,
        /// Register identifier (`c`).
        name: String,
    },
    /// `int <name> = <init>;`
    IntDeclaration {
        /// Variable identifier.
        name: String,
        /// Initial value expression.
        init: Expression,
    },
    /// `<target> = <value>;`
    Assignment {
        /// Target (a bare name or a register element).
        target: IndexedIdentifier,
        /// Assigned value.
        value: Expression,
    },
    /// `output bit[<size>] <name>;`
    IODeclaration {
        /// IO direction.
        io_kind: IoKind,
        /// Bit register width.
        bit_size: u64,
        /// Register name.
        name: String,
    },
    /// Gate application: `[modifier @ ]<name>[(args)] <qubits>;`
    QuantumGate {
        /// Gate modifiers (only `inv @` is used).
        modifiers: Vec<GateModifier>,
        /// Gate identifier.
        name: String,
        /// Parametric arguments.
        arguments: Vec<Expression>,
        /// Target qubits.
        qubits: Vec<IndexedIdentifier>,
    },
    /// `<target> = measure <qubit>;`
    QuantumMeasurementStatement {
        /// Qubit being measured.
        qubit: IndexedIdentifier,
        /// Classical bit that receives the outcome.
        target: IndexedIdentifier,
    },
    /// `reset <qubit>;`
    QuantumReset(IndexedIdentifier),
    /// `if (<cond>) { <if-body> } [else { <else-body> }]`
    BranchingStatement {
        /// Boolean condition.
        condition: Expression,
        /// Statements run on true.
        if_block: Vec<Statement>,
        /// Statements run on false (empty means no `else` clause).
        else_block: Vec<Statement>,
    },
    /// `while (<cond>) { <body> }`
    WhileLoop {
        /// Loop-continuation condition.
        condition: Expression,
        /// Loop body.
        body: Vec<Statement>,
    },
}

/// Expression tree.
#[derive(Debug, PartialEq)]
pub enum Expression {
    /// Bare identifier.
    Identifier(String),
    /// Integer literal.
    Integer(i64),
    /// Floating-point literal.
    Float(FloatLit),
    /// Boolean literal.
    Boolean(bool),
    /// `<collection>[<index>]` in value position.
    Index {
        /// The collection being indexed.
        collection: Box<Expression>,
        /// The index expression.
        index: Box<Expression>,
    },
    /// Unary prefix operator applied to a subexpression.
    Unary {
        /// Unary operator.
        op: UnaryOp,
        /// Operand.
        expr: Box<Expression>,
    },
    /// Binary infix operator.
    Binary {
        /// Binary operator.
        op: BinaryOp,
        /// Left operand.
        lhs: Box<Expression>,
        /// Right operand.
        rhs: Box<Expression>,
    },
}

/// A copy of a floating-point literal.
pub fn copy_float(f: &FloatLit) -> (r: FloatLit)
    ensures
        r == *f,
{
    match f {
        FloatLit::Bits(b) => FloatLit::Bits(*b),
        FloatLit::Decimal(s) => FloatLit::Decimal(s.clone()),
    }
}

/// A copy of an expression tree, equal to it.
pub fn copy_expr(e: &Expression) -> (r: Expression)
    ensures
        r == *e,
    decreases e,
{
    match e {
        Expression::Identifier(s) => Expression::Identifier(s.clone()),
        Expression::Integer(n) => Expression::Integer(*n),
        Expression::Float(f) => Expression::Float(copy_float(f)),
        Expression::Boolean(b) => Expression::Boolean(*b),
        Expression::Index { collection, index } => Expression::Index {
            collection: Box::new(copy_expr(collection)),
            index: Box::new(copy_expr(index)),
        },
        Expression::Unary { op, expr } => Expression::Unary {
            op: *op,
            expr: Box::new(copy_expr(expr)),
        },
        Expression::Binary { op, lhs, rhs } => Expression::Binary {
            op: *op,
            lhs: Box::new(copy_expr(lhs)),
            rhs: Box::new(copy_expr(rhs)),
        },
    }
}

/// A copy of an indexed identifier, equal to it.
pub fn copy_ident(i: &IndexedIdentifier) -> (r: IndexedIdentifier)
    ensures
        r == *i,
{
    IndexedIdentifier {
        name: i.name.clone(),
        index: match &i.index {
            Some(e) => Some(copy_expr(e)),
            None => None,
        },
    }
}

impl Clone for Expression {
    fn clone(&self) -> (r: Self)
        ensures
            r == *self,
    {
        copy_expr(self)
    }
}

/// `a` and `b` are the same statement: equal fields, with lists compared
/// element by element, and nested statement lists compared the same way.
pub open spec fn same_stmt(a: Statement, b: Statement) -> bool
    decreases a, 1nat,
{
    match a {
        Statement::QuantumGate { modifiers, name, arguments, qubits } => match b {
            Statement::QuantumGate { modifiers: m2, name: n2, arguments: a2, qubits: q2 } => modifiers@ == m2@
                && name == n2 && arguments@ == a2@ && qubits@ == q2@,
            _ => false,
        },
        Statement::BranchingStatement { condition, if_block, else_block } => match b {
            Statement::BranchingStatement { condition: c2, if_block: i2, else_block: e2 } => condition == c2
                && same_stmts(if_block@, i2@) && same_stmts(else_block@, e2@),
            _ => false,
        },
        Statement::WhileLoop { condition, body } => match b {
            Statement::WhileLoop { condition: c2, body: b2 } => condition == c2 && same_stmts(body@, b2@),
            _ => false,
        },
        _ => a == b,
    }
}

/// `a` and `b` hold the same statements, in order.
pub open spec fn same_stmts(a: Seq<Statement>, b: Seq<Statement>) -> bool
    decreases a, 0nat,
{
    a.len() == b.len() && forall|i: int| 0 <= i < a.len() ==> same_stmt(#[trigger] a[i], b[i])
}

/// A copy of a list of statements.
pub fn copy_stmts(v: &Vec<Statement>) -> (r: Vec<Statement>)
    ensures
        same_stmts(v@, r@),
    decreases v,
{
    let mut out: Vec<Statement> = Vec::new();
    let mut i: usize = 0;
    while i < v.len()
        invariant
            i <= v@.len(),
            out@.len() == i,
            forall|k: int| 0 <= k < i ==> same_stmt(#[trigger] v@[k], out@[k]),
        decreases v@.len() - i,
    {
        proof {
            assert(decreases_to!(v => v@[i as int]));
        }
        out.push(copy_stmt(&v[i]));
        i = i + 1;
    }
    out
}

/// A copy of a statement.
pub fn copy_stmt(s: &Statement) -> (r: Statement)
    ensures
        same_stmt(*s, r),
    decreases s,
{
    match s {
        Statement::Include(p) => Statement::Include(p.clone()),
        Statement::QubitDeclaration { size, name } => Statement::QubitDeclaration {
            size: *size,
            name: name.clone(),
        },
        Statement::ClassicalDeclaration { bit_size, name } => Statement::ClassicalDeclaration {
            bit_size: *bit_size,
            name: name.clone(),
        },
        Statement::IntDeclaration { name, init } => Statement::IntDeclaration {
            name: name.clone(),
            init: copy_expr(init),
        },
        Statement::Assignment { target, value } => Statement::Assignment {
            target: copy_ident(target),
            value: copy_expr(value),
        },
        Statement::IODeclaration { io_kind, bit_size, name } => Statement::IODeclaration {
            io_kind: *io_kind,
            bit_size: *bit_size,
            name: name.clone(),
        },
        Statement::QuantumGate { modifiers, name, arguments, qubits } => {
            let mut m: Vec<GateModifier> = Vec::new();
            let mut i: usize = 0;
            while i < modifiers.len()
                invariant
                    i <= modifiers@.len(),
                    m@ == modifiers@.subrange(0, i as int),
                decreases modifiers@.len() - i,
            {
                m.push(modifiers[i]);
                i = i + 1;
                proof {
                    assert(m@ =~= modifiers@.subrange(0, i as int));
                }
            }
            let mut a: Vec<Expression> = Vec::new();
            let mut j: usize = 0;
            while j < arguments.len()
                invariant
                    j <= arguments@.len(),
                    a@ == arguments@.subrange(0, j as int),
                decreases arguments@.len() - j,
            {
                a.push(copy_expr(&arguments[j]));
                j = j + 1;
                proof {
                    assert(a@ =~= arguments@.subrange(0, j as int));
                }
            }
            let mut q: Vec<IndexedIdentifier> = Vec::new();
            let mut k: usize = 0;
            while k < qubits.len()
                invariant
                    k <= qubits@.len(),
                    q@ == qubits@.subrange(0, k as int),
                decreases qubits@.len() - k,
            {
                q.push(copy_ident(&qubits[k]));
                k = k + 1;
                proof {
                    assert(q@ =~= qubits@.subrange(0, k as int));
                }
            }
            proof {
                assert(m@ =~= modifiers@);
                assert(a@ =~= arguments@);
                assert(q@ =~= qubits@);
            }
            Statement::QuantumGate { modifiers: m, name: name.clone(), arguments: a, qubits: q }
        },
        Statement::QuantumMeasurementStatement { qubit, target } => {
            Statement::QuantumMeasurementStatement {
                qubit: copy_ident(qubit),
                target: copy_ident(target),
            }
        },
        Statement::QuantumReset(q) => Statement::QuantumReset(copy_ident(q)),
        Statement::BranchingStatement { condition, if_block, else_block } => {
            Statement::BranchingStatement {
                condition: copy_expr(condition),
                if_block: copy_stmts(if_block),
                else_block: copy_stmts(else_block),
            }
        },
        Statement::WhileLoop { condition, body } => Statement::WhileLoop {
            condition: copy_expr(condition),
            body: copy_stmts(body),
        },
    }
}

impl Clone for Statement {
    fn clone(&self) -> (r: Self)
        ensures
            same_stmt(*self, r),
    {
        copy_stmt(self)
    }
}

impl Expression {
    /// Shortcut to wrap in a `Box`.
    pub fn boxed(self) -> (r: Box<Expression>)
        ensures
            *r == self,
    {
        Box::new(self)
    }
}

/// The binary-operator node `lhs op rhs`.
pub open spec fn spec_bin(op: BinaryOp, lhs: Expression, rhs: Expression) -> Expression {
    Expression::Binary { op, lhs: Box::new(lhs), rhs: Box::new(rhs) }
}

/// The logical-NOT node `!e`.
pub open spec fn spec_not(e: Expression) -> Expression {
    Expression::Unary { op: UnaryOp::Not, expr: Box::new(e) }
}

/// Construct an [`Expression::Binary`].
pub fn bin(op: BinaryOp, lhs: Expression, rhs: Expression) -> (r: Expression)
    ensures
        r == spec_bin(op, lhs, rhs),
{
    Expression::Binary { op, lhs: Box::new(lhs), rhs: Box::new(rhs) }
}

/// Construct a logical-NOT [`Expression::Unary`].
pub fn not(expr: Expression) -> (r: Expression)
    ensures
        r == spec_not(expr),
{
    Expression::Unary { op: UnaryOp::Not, expr: Box::new(expr) }
}

/// Construct an [`Expression::Integer`].
pub fn int_lit(n: i64) -> (r: Expression)
    ensures
        r == Expression::Integer(n),
{
    Expression::Integer(n)
}

/// Assignment-target / qubit-operand form of `<name>[<index>]`, or a bare
/// `<name>` when `index` is `None`.
#[derive(Debug, Clone, PartialEq)]
pub struct IndexedIdentifier {
    /// Register or variable name.
    pub name: String,
    /// Index into the register, if any.
    pub index: Option<Expression>,
}

/// Gate modifiers supported by the emitter.
#[derive(Debug, Clone, Copy, PartialEq, Eq, Structural)]
pub enum GateModifier {
    /// `inv @`: adjoint the following gate.
    Inv,
}

/// Input/output direction for an IO declaration.
#[derive(Debug, Clone, Copy, PartialEq, Eq, Structural)]
pub enum IoKind {
    /// `output` storage class.
    Output,
}

/// Unary operators.
#[derive(Debug, Clone, Copy, PartialEq, Eq, Structural)]
pub enum UnaryOp {
    /// Logical NOT.
    Not,
    /// Arithmetic negation.
    Neg,
}

/// Binary operators.
#[derive(Debug, Clone, Copy, PartialEq, Eq, Structural)]
pub enum BinaryOp {
    /// Logical OR.
    Or,
    /// Logical AND.
    And,
    /// Bitwise OR.
    BitOr,
    /// Bitwise XOR.
    BitXor,
    /// Bitwise AND.
    BitAnd,
    /// Equal.
    Eq,
    /// Not equal.
    Ne,
    /// Less.
    Lt,
    /// Less or equal.
    Le,
    /// Greater.
    Gt,
    /// Greater or equal.
    Ge,
    /// Left shift.
    Shl,
    /// Right shift.
    Shr,
    /// Addition.
    Add,
    /// Subtraction.
    Sub,
    /// Multiplication.
    Mul,
    /// Division.
    Div,
    /// Modulo.
    Mod,
    /// Power.
    Pow,
}

impl BinaryOp {
    /// Source-text spelling, matching the OpenQASM 3 grammar tokens.
    pub open spec fn text(self) -> Seq<char> {
        match self {
            BinaryOp::Or => seq!['|', '|'],
            BinaryOp::And => seq!['&', '&'],
            BinaryOp::BitOr => seq!['|'],
            BinaryOp::BitXor => seq!['^'],
            BinaryOp::BitAnd => seq!['&'],
            BinaryOp::Eq => seq!['=', '='],
            BinaryOp::Ne => seq!['!', '='],
            BinaryOp::Lt => seq!['<'],
            BinaryOp::Le => seq!['<', '='],
            BinaryOp::Gt => seq!['>'],
            BinaryOp::Ge => seq!['>', '='],
            BinaryOp::Shl => seq!['<', '<'],
            BinaryOp::Shr => seq!['>', '>'],
            BinaryOp::Add => seq!['+'],
            BinaryOp::Sub => seq!['-'],
            BinaryOp::Mul => seq!['*'],
            BinaryOp::Div => seq!['/'],
            BinaryOp::Mod => seq!['%'],
            BinaryOp::Pow => seq!['*', '*'],
        }
    }

    /// Whether the operator's result is Boolean (comparisons and the two
    /// logical connectives).
    pub open spec fn produces_boolean(self) -> bool {
        match self {
            BinaryOp::Eq | BinaryOp::Ne | BinaryOp::Lt | BinaryOp::Le | BinaryOp::Gt
            | BinaryOp::Ge | BinaryOp::And | BinaryOp::Or => true,
            _ => false,
        }
    }

    /// Source-text spelling, matching the OpenQASM 3 grammar tokens.
    pub fn as_str(self) -> (r: &'static str)
        ensures
            r@ == self.text(),
    {
        let r = match self {
            BinaryOp::Or => "||",
            BinaryOp::And => "&&",
            BinaryOp::BitOr => "|",
            BinaryOp::BitXor => "^",
            BinaryOp::BitAnd => "&",
            BinaryOp::Eq => "==",
            BinaryOp::Ne => "!=",
            BinaryOp::Lt => "<",
            BinaryOp::Le => "<=",
            BinaryOp::Gt => ">",
            BinaryOp::Ge => ">=",
            BinaryOp::Shl => "<<",
            BinaryOp::Shr => ">>",
            BinaryOp::Add => "+",
            BinaryOp::Sub => "-",
            BinaryOp::Mul => "*",
            BinaryOp::Div => "/",
            BinaryOp::Mod => "%",
            BinaryOp::Pow => "**",
        };
        proof {
            reveal_strlit("||");
            reveal_strlit("&&");
            reveal_strlit("|");
            reveal_strlit("^");
            reveal_strlit("&");
            reveal_strlit("==");
            reveal_strlit("!=");
            reveal_strlit("<");
            reveal_strlit("<=");
            reveal_strlit(">");
            reveal_strlit(">=");
            reveal_strlit("<<");
            reveal_strlit(">>");
            reveal_strlit("+");
            reveal_strlit("-");
            reveal_strlit("*");
            reveal_strlit("/");
            reveal_strlit("%");
            reveal_strlit("**");
        }
        r
    }

    /// Return `true` iff the operator's result type is boolean (suitable
    /// for feeding into `&&` / `||` without an `== 1` normalisation).
    pub fn is_boolean_producing(self) -> (r: bool)
        ensures
            r == self.produces_boolean(),
    {
        match self {
            BinaryOp::Eq | BinaryOp::Ne | BinaryOp::Lt | BinaryOp::Le | BinaryOp::Gt
            | BinaryOp::Ge | BinaryOp::And | BinaryOp::Or => true,
            _ => false,
        }
    }
}

impl UnaryOp {
    /// Source-text spelling.
    pub open spec fn text(self) -> Seq<char> {
        match self {
            UnaryOp::Not => seq!['!'],
            UnaryOp::Neg => seq!['-'],
        }
    }

    /// Source-text spelling.
    pub fn as_str(self) -> (r: &'static str)
        ensures
            r@ == self.text(),
    {
        match self {
            UnaryOp::Not => {
                proof {
                    reveal_strlit("!");
                }
                "!"
            },
            UnaryOp::Neg => {
                proof {
                    reveal_strlit("-");
                }
                "-"
            },
        }
    }
}

/// `<name>[<idx>]` in value position.
pub fn index_expr(name: &str, idx: i64) -> (r: Expression)
    ensures
        r matches Expression::Index { collection, index } && *collection
            matches Expression::Identifier(n) && n@ == name@ && *index == Expression::Integer(idx),
{
    Expression::Index {
        collection: Box::new(Expression::Identifier(owned(name))),
        index: Box::new(Expression::Integer(idx)),
    }
}

/// A register-index target `<name>[<idx>]`.
pub fn indexed_ident(name: &str, idx: i64) -> (r: IndexedIdentifier)
    ensures
        r.name@ == name@,
        r.index == Some(Expression::Integer(idx)),
{
    IndexedIdentifier { name: owned(name), index: Some(Expression::Integer(idx)) }
}

/// A bare-name target `<name>`.
pub fn ident(name: &str) -> (r: IndexedIdentifier)
    ensures
        r.name@ == name@,
        r.index is None,
{
    IndexedIdentifier { name: owned(name), index: None }
}

} // verus!
