//! Parsed-QIR in-memory model.
use vstd::prelude::*;

verus! {

/// Parsed representation of a QIR module.
#[derive(Debug, Clone)]
pub struct Module {
    /// The original source text; signature extraction reads it directly.
    pub source_text: String,
    /// Every `declare` or `define` the parser saw, in source order.
    pub functions: Vec<Function>,
}

/// Whether `f` is a defined entry point.
pub open spec fn is_entry_fn(f: Function) -> bool {
    !f.is_declaration && f.is_entry_point
}

/// The index of the first defined entry point among `fs[from..]`.
pub open spec fn first_entry_from(fs: Seq<Function>, from: int) -> Option<int>
    decreases fs.len() - from,
{
    if from < 0 || from >= fs.len() {
        None
    } else if is_entry_fn(fs[from]) {
        Some(from)
    } else {
        first_entry_from(fs, from + 1)
    }
}

impl Module {
    /// Index of the entry-point function: the first function that is
    /// defined (not only declared) and carries the entry-point attribute.
    pub open spec fn entry_index(self) -> Option<int> {
        first_entry_from(self.functions@, 0)
    }

    /// Return the entry-point function, if any.
    pub fn entry_point(&self) -> (r: Option<&Function>)
        ensures
            r matches Some(f) ==> self.entry_index() matches Some(i) && *f == self.functions@[i],
            r is None ==> self.entry_index() is None,
    {
        let mut i: usize = 0;
        while i < self.functions.len()
            invariant
                i <= self.functions@.len(),
                first_entry_from(self.functions@, i as int) == first_entry_from(
                    self.functions@,
                    0,
                ),
            decreases self.functions@.len() - i,
        {
            let f = &self.functions[i];
            if !f.is_declaration && f.is_entry_point {
                return Some(f);
            }
            i = i + 1;
        }
        None
    }
}

/// A `declare` or `define` entry.
#[derive(Debug, Clone)]
pub struct Function {
    /// Function name, without the leading `@`.
    pub name: String,
    /// `true` if no `{ ... }` body follows (a `declare` line).
    pub is_declaration: bool,
    /// `true` if any attribute on the function contains `entry_point`.
    pub is_entry_point: bool,
    /// Value of the `"qir_profiles"` attribute if the function declares
    /// one (e.g. `"base_profile"`, `"adaptive_profile"`), else `None`.
    pub qir_profile: Option<String>,
    /// Basic blocks in source order. Empty for declarations.
    pub blocks: Vec<Block>,
}

/// An LLVM basic block.
#[derive(Debug, Clone)]
pub struct Block {
    /// Explicit label from source (may be empty for an unlabelled entry block).
    pub name: String,
    /// Instructions in source order.
    pub instructions: Vec<Instruction>,
}

/// The LLVM instructions the translator recognizes.
#[derive(Debug, Clone)]
pub enum Instruction {
    /// `[%result =] call <retty> @<callee>(<args>)`.
    Call {
        /// SSA id assigned by this call, if non-void.
        result: Option<String>,
        /// Callee name, without leading `@`.
        callee: String,
        /// Call operands, in source order.
        args: Vec<Operand>,
        /// Return-type spelling (e.g. `"void"`, `"i1"`).
        return_type: String,
    },
    /// `br label %target` (unconditional).
    Br {
        /// Destination basic-block label.
        target: String,
    },
    /// `br i1 %cond, label %true, label %false` (conditional).
    BrCond {
        /// Condition operand (SSA reference or `i1` constant).
        cond: BrCondOperand,
        /// True-branch label.
        true_target: String,
        /// False-branch label.
        false_target: String,
    },
    /// `ret <type> <value>` or `ret void`.
    Ret,
    /// `%result = icmp <pred> <ty> <lhs>, <rhs>`.
    Icmp(Icmp),
    /// `%result = xor|and|or <ty> <lhs>, <rhs>`.
    BinaryI1 {
        /// SSA id assigned by this instruction.
        result: String,
        /// Which i1 binary operation.
        op: BinaryI1Op,
        /// Left operand.
        lhs: Operand,
        /// Right operand.
        rhs: Operand,
    },
    /// `%result = select i1 <cond>, <ty> <true_val>, <ty> <false_val>`.
    Select {
        /// SSA id assigned by this select.
        result: String,
        /// Value-type spelling of the two branches (e.g. `"i1"`, `"double"`).
        value_type: String,
        /// Branch condition operand.
        cond: Operand,
        /// Value when `cond` is true.
        true_value: Operand,
        /// Value when `cond` is false.
        false_value: Operand,
    },
    /// Integer arithmetic: `%result = add|sub|mul <ty> <lhs>, <rhs>`.
    IntArith {
        /// SSA id assigned by this instruction.
        result: String,
        /// Which arithmetic operation.
        op: IntArithOp,
        /// Left operand.
        lhs: Operand,
        /// Right operand.
        rhs: Operand,
    },
    /// `%result = phi <ty> [<val>, %<block>], [<val>, %<block>]`.
    Phi {
        /// SSA id assigned by this phi.
        result: String,
        /// LLVM type token (`"i1"`, `"i64"`, ...).
        value_type: String,
        /// Incoming pairs in source order.
        incomings: Vec<PhiIncoming>,
    },
    /// Memory / bit-plumbing opcodes that are skipped.
    Ignored {
        /// The LLVM opcode that was skipped (`sext`, `trunc`, ...).
        opcode: String,
    },
    /// `%result = alloca <ty>[, ...]`.
    Alloca {
        /// SSA id assigned by this alloca.
        result: String,
    },
    /// `%result = bitcast <ty>* <src> to <ty>*`: `%result` aliases `%src`.
    BitcastAlias {
        /// SSA id assigned by the bitcast.
        result: String,
        /// Source SSA id.
        src: String,
    },
    /// `%result = getelementptr <ty>, <ty>* <src>, i32 0, i32 <offset>`.
    GetElementPtrOffset {
        /// SSA id assigned by the gep.
        result: String,
        /// Base pointer SSA id.
        src: String,
        /// Array-element offset.
        offset: u64,
    },
    /// `store <ty> <value>, <ty>* <ptr>`.
    Store {
        /// Stored value operand.
        value: Operand,
        /// Pointer SSA id.
        ptr: String,
    },
    /// `%result = load <ty>, <ty>* <ptr>`.
    Load {
        /// SSA id assigned by the load.
        result: String,
        /// Source pointer SSA id.
        ptr: String,
    },
    /// `%result = zext iN %src to iM`.
    Zext {
        /// SSA id assigned by the zext.
        result: String,
        /// Source SSA id.
        src: String,
    },
    /// Any other opcode that made it into a `define` body.
    Unsupported {
        /// Raw opcode token (e.g. `"fadd"`).
        opcode: String,
    },
}

/// Parsed `icmp` instruction.
#[derive(Debug, Clone)]
pub struct Icmp {
    /// SSA id assigned by this icmp.
    pub result: String,
    /// The predicate spelling.
    pub predicate: PredicateI1,
    /// Left operand.
    pub lhs: Operand,
    /// Right operand.
    pub rhs: Operand,
}

/// The icmp predicate spelling captured from source, kept verbatim so an
/// "unsupported predicate" error can name it.
#[derive(Debug, Clone)]
pub struct PredicateI1(pub String);

/// Integer arithmetic opcode.
#[derive(Debug, Clone, Copy, PartialEq, Eq, Structural)]
pub enum IntArithOp {
    /// `add <ty> %a, %b` lowers to `a + b`.
    Add,
    /// `sub <ty> %a, %b` lowers to `a - b`.
    Sub,
    /// `mul <ty> %a, %b` lowers to `a * b`.
    Mul,
}

/// LLVM i1 binary operator.
#[derive(Debug, Clone, Copy, PartialEq, Eq, Structural)]
pub enum BinaryI1Op {
    /// `xor i1 %a, %b`.
    Xor,
    /// `and i1 %a, %b`.
    And,
    /// `or i1 %a, %b`.
    Or,
}

/// A phi incoming pair.
#[derive(Debug, Clone)]
pub struct PhiIncoming {
    /// Value carried by this predecessor.
    pub value: Operand,
    /// Predecessor block label.
    pub pred: String,
}

/// A floating-point literal as it appeared in the QIR text.
///
/// Floating-point values are never computed on by the translator: they
/// travel from the parser to the printer, and only their rendering needs
/// the value itself.
#[derive(Debug, Clone, PartialEq)]
pub enum FloatLit {
    /// An LLVM hexadecimal float: the exact IEEE-754 bit pattern.
    Bits(u64),
    /// A decimal literal, kept as written (already checked to be a valid
    /// decimal floating-point literal).
    Decimal(String),
}

/// Parsed operand.
#[derive(Debug, Clone)]
pub enum Operand {
    /// An integer constant carried in the largest width modelled.
    ConstInt(i128),
    /// A boolean constant (an `i1` literal).
    ConstBool(bool),
    /// A floating-point constant.
    ConstFloat(FloatLit),
    /// A pointer constant, either `null` or `inttoptr (iN N to <ptr>)`.
    PtrConst {
        /// `Some("Qubit")` / `Some("Result")` for typed pointers; `None`
        /// for opaque `ptr`.
        struct_name: Option<String>,
        /// Resolved integer index.
        index: i64,
    },
    /// Reference to an SSA value.
    Ssa(String),
    /// A reference to an LLVM global, captured by name.
    GlobalRef(String),
    /// A `getelementptr` expression inlined into a call operand.
    GetElementPtr,
    /// A `bitcast (T* @<name> to i8*)` inlined into a call operand.
    BitcastGlobal(String),
    /// A `null` literal typed as `i8*`.
    I8Null,
}

/// A floating-point literal as plain values.
pub enum FloatView {
    Bits(u64),
    Decimal(Seq<char>),
}

/// The view of a floating-point literal.
pub open spec fn float_view(f: FloatLit) -> FloatView {
    match f {
        FloatLit::Bits(b) => FloatView::Bits(b),
        FloatLit::Decimal(s) => FloatView::Decimal(s@),
    }
}

/// An operand as plain values.
pub enum OperandView {
    ConstInt(i128),
    ConstBool(bool),
    ConstFloat(FloatView),
    PtrConst { struct_name: Option<Seq<char>>, index: i64 },
    Ssa(Seq<char>),
    GlobalRef(Seq<char>),
    GetElementPtr,
    BitcastGlobal(Seq<char>),
    I8Null,
}

/// The view of an operand.
pub open spec fn operand_view(o: Operand) -> OperandView {
    match o {
        Operand::ConstInt(n) => OperandView::ConstInt(n),
        Operand::ConstBool(b) => OperandView::ConstBool(b),
        Operand::ConstFloat(f) => OperandView::ConstFloat(float_view(f)),
        Operand::PtrConst { struct_name, index } => OperandView::PtrConst {
            struct_name: match struct_name {
                Some(s) => Some(s@),
                None => None,
            },
            index,
        },
        Operand::Ssa(s) => OperandView::Ssa(s@),
        Operand::GlobalRef(s) => OperandView::GlobalRef(s@),
        Operand::GetElementPtr => OperandView::GetElementPtr,
        Operand::BitcastGlobal(s) => OperandView::BitcastGlobal(s@),
        Operand::I8Null => OperandView::I8Null,
    }
}

/// The views of a sequence of operands.
pub open spec fn operands_view(v: Seq<Operand>) -> Seq<OperandView> {
    v.map_values(|o: Operand| operand_view(o))
}

/// A phi incoming pair as plain values.
pub struct PhiView {
    pub value: OperandView,
    pub pred: Seq<char>,
}

/// The views of phi incomings.
pub open spec fn phis_view(v: Seq<PhiIncoming>) -> Seq<PhiView> {
    v.map_values(|p: PhiIncoming| PhiView { value: operand_view(p.value), pred: p.pred@ })
}

/// A branch condition as plain values.
pub enum CondView {
    Ssa(Seq<char>),
    Const(bool),
}

/// An instruction as plain values.
pub enum InstrView {
    Call { result: Option<Seq<char>>, callee: Seq<char>, args: Seq<OperandView>, return_type: Seq<char> },
    Br { target: Seq<char> },
    BrCond { cond: CondView, true_target: Seq<char>, false_target: Seq<char> },
    Ret,
    Icmp { result: Seq<char>, predicate: Seq<char>, lhs: OperandView, rhs: OperandView },
    BinaryI1 { result: Seq<char>, op: BinaryI1Op, lhs: OperandView, rhs: OperandView },
    Select { result: Seq<char>, value_type: Seq<char>, cond: OperandView, true_value: OperandView, false_value: OperandView },
    IntArith { result: Seq<char>, op: IntArithOp, lhs: OperandView, rhs: OperandView },
    Phi { result: Seq<char>, value_type: Seq<char>, incomings: Seq<PhiView> },
    Ignored { opcode: Seq<char> },
    Alloca { result: Seq<char> },
    BitcastAlias { result: Seq<char>, src: Seq<char> },
    GetElementPtrOffset { result: Seq<char>, src: Seq<char>, offset: u64 },
    Store { value: OperandView, ptr: Seq<char> },
    Load { result: Seq<char>, ptr: Seq<char> },
    Zext { result: Seq<char>, src: Seq<char> },
    Unsupported { opcode: Seq<char> },
}

/// The view of an optional string.
pub open spec fn opt_view(o: Option<String>) -> Option<Seq<char>> {
    match o {
        Some(s) => Some(s@),
        None => None,
    }
}

/// The view of an instruction.
pub open spec fn instr_view(i: Instruction) -> InstrView {
    match i {
        Instruction::Call { result, callee, args, return_type } => InstrView::Call {
            result: opt_view(result),
            callee: callee@,
            args: operands_view(args@),
            return_type: return_type@,
        },
        Instruction::Br { target } => InstrView::Br { target: target@ },
        Instruction::BrCond { cond, true_target, false_target } => InstrView::BrCond {
            cond: match cond {
                BrCondOperand::Ssa(s) => CondView::Ssa(s@),
                BrCondOperand::Const(b) => CondView::Const(b),
            },
            true_target: true_target@,
            false_target: false_target@,
        },
        Instruction::Ret => InstrView::Ret,
        Instruction::Icmp(c) => InstrView::Icmp {
            result: c.result@,
            predicate: c.predicate.0@,
            lhs: operand_view(c.lhs),
            rhs: operand_view(c.rhs),
        },
        Instruction::BinaryI1 { result, op, lhs, rhs } => InstrView::BinaryI1 {
            result: result@,
            op,
            lhs: operand_view(lhs),
            rhs: operand_view(rhs),
        },
        Instruction::Select { result, value_type, cond, true_value, false_value } =>
            InstrView::Select {
            result: result@,
            value_type: value_type@,
            cond: operand_view(cond),
            true_value: operand_view(true_value),
            false_value: operand_view(false_value),
        },
        Instruction::IntArith { result, op, lhs, rhs } => InstrView::IntArith {
            result: result@,
            op,
            lhs: operand_view(lhs),
            rhs: operand_view(rhs),
        },
        Instruction::Phi { result, value_type, incomings } => InstrView::Phi {
            result: result@,
            value_type: value_type@,
            incomings: phis_view(incomings@),
        },
        Instruction::Ignored { opcode } => InstrView::Ignored { opcode: opcode@ },
        Instruction::Alloca { result } => InstrView::Alloca { result: result@ },
        Instruction::BitcastAlias { result, src } => InstrView::BitcastAlias {
            result: result@,
            src: src@,
        },
        Instruction::GetElementPtrOffset { result, src, offset } =>
            InstrView::GetElementPtrOffset { result: result@, src: src@, offset },
        Instruction::Store { value, ptr } => InstrView::Store {
            value: operand_view(value),
            ptr: ptr@,
        },
        Instruction::Load { result, ptr } => InstrView::Load { result: result@, ptr: ptr@ },
        Instruction::Zext { result, src } => InstrView::Zext { result: result@, src: src@ },
        Instruction::Unsupported { opcode } => InstrView::Unsupported { opcode: opcode@ },
    }
}

/// A copy of an operand, equal to it.
pub fn copy_operand(o: &Operand) -> (r: Operand)
    ensures
        r == *o,
{
    match o {
        Operand::ConstInt(n) => Operand::ConstInt(*n),
        Operand::ConstBool(b) => Operand::ConstBool(*b),
        Operand::ConstFloat(f) => Operand::ConstFloat(
            match f {
                FloatLit::Bits(b) => FloatLit::Bits(*b),
                FloatLit::Decimal(s) => FloatLit::Decimal(s.clone()),
            },
        ),
        Operand::PtrConst { struct_name, index } => Operand::PtrConst {
            struct_name: match struct_name {
                Some(s) => Some(s.clone()),
                None => None,
            },
            index: *index,
        },
        Operand::Ssa(s) => Operand::Ssa(s.clone()),
        Operand::GlobalRef(s) => Operand::GlobalRef(s.clone()),
        Operand::GetElementPtr => Operand::GetElementPtr,
        Operand::BitcastGlobal(s) => Operand::BitcastGlobal(s.clone()),
        Operand::I8Null => Operand::I8Null,
    }
}

/// The `{:?}` text of an optional string.
pub open spec fn opt_debug_text(o: Option<String>) -> Seq<char> {
    match o {
        Some(s) => "Some("@ + crate::text::str_debug_text(s@) + ")"@,
        None => "None"@,
    }
}

/// The `{:?}` text of an operand.
pub open spec fn operand_debug_text(o: Operand) -> Seq<char> {
    match o {
        Operand::ConstInt(n) => "ConstInt("@ + crate::text::int_text(n as int) + ")"@,
        Operand::ConstBool(b) => if b {
            "ConstBool(true)"@
        } else {
            "ConstBool(false)"@
        },
        Operand::ConstFloat(f) => "ConstFloat("@ + match f {
            FloatLit::Bits(b) => "Bits("@ + crate::text::int_text(b as int) + ")"@,
            FloatLit::Decimal(s) => "Decimal("@ + crate::text::str_debug_text(s@) + ")"@,
        } + ")"@,
        Operand::PtrConst { struct_name, index } => "PtrConst { struct_name: "@ + opt_debug_text(
            struct_name,
        ) + ", index: "@ + crate::text::int_text(index as int) + " }"@,
        Operand::Ssa(s) => "Ssa("@ + crate::text::str_debug_text(s@) + ")"@,
        Operand::GlobalRef(s) => "GlobalRef("@ + crate::text::str_debug_text(s@) + ")"@,
        Operand::GetElementPtr => "GetElementPtr"@,
        Operand::BitcastGlobal(s) => "BitcastGlobal("@ + crate::text::str_debug_text(s@) + ")"@,
        Operand::I8Null => "I8Null"@,
    }
}

/// Appends the `{:?}` text of an operand to `out`.
pub fn push_operand_debug(out: &mut Vec<char>, o: &Operand)
    ensures
        final(out)@ == old(out)@ + operand_debug_text(*o),
{
    let ghost o0 = old(out)@;
    match o {
        Operand::ConstInt(n) => {
            crate::text::push_str(out, "ConstInt(");
            crate::text::push_int(out, *n);
            crate::text::push_str(out, ")");
        },
        Operand::ConstBool(b) => {
            if *b {
                crate::text::push_str(out, "ConstBool(true)");
            } else {
                crate::text::push_str(out, "ConstBool(false)");
            }
        },
        Operand::ConstFloat(f) => {
            crate::text::push_str(out, "ConstFloat(");
            match f {
                FloatLit::Bits(b) => {
                    crate::text::push_str(out, "Bits(");
                    crate::text::push_int(out, *b as i128);
                    crate::text::push_str(out, ")");
                },
                FloatLit::Decimal(s) => {
                    crate::text::push_str(out, "Decimal(");
                    crate::text::push_debug_string(out, s);
                    crate::text::push_str(out, ")");
                },
            }
            crate::text::push_str(out, ")");
        },
        Operand::PtrConst { struct_name, index } => {
            crate::text::push_str(out, "PtrConst { struct_name: ");
            match struct_name {
                Some(s) => {
                    crate::text::push_str(out, "Some(");
                    crate::text::push_debug_string(out, s);
                    crate::text::push_str(out, ")");
                },
                None => {
                    crate::text::push_str(out, "None");
                },
            }
            crate::text::push_str(out, ", index: ");
            crate::text::push_int(out, *index as i128);
            crate::text::push_str(out, " }");
        },
        Operand::Ssa(s) => {
            crate::text::push_str(out, "Ssa(");
            crate::text::push_debug_string(out, s);
            crate::text::push_str(out, ")");
        },
        Operand::GlobalRef(s) => {
            crate::text::push_str(out, "GlobalRef(");
            crate::text::push_debug_string(out, s);
            crate::text::push_str(out, ")");
        },
        Operand::GetElementPtr => {
            crate::text::push_str(out, "GetElementPtr");
        },
        Operand::BitcastGlobal(s) => {
            crate::text::push_str(out, "BitcastGlobal(");
            crate::text::push_debug_string(out, s);
            crate::text::push_str(out, ")");
        },
        Operand::I8Null => {
            crate::text::push_str(out, "I8Null");
        },
    }
    proof {
        assert(out@ =~= o0 + operand_debug_text(*o));
    }
}

/// Operand of a conditional branch.
#[derive(Debug, Clone)]
pub enum BrCondOperand {
    /// Reference to an SSA value, keyed by its textual id.
    Ssa(String),
    /// A constant `i1`.
    Const(bool),
}

} // verus!
