//! Mutable translator state carried through a single QIR to OpenQASM
//! translation.
//!
//! Three independent things live here:
//!
//! 1. Quantum register sizing: the largest qubit index and the largest
//!    result-bit index seen (`-1` when none), which size the register
//!    declarations at the top of the program.
//! 2. Classical value bindings: a map from an SSA name to the OpenQASM
//!    expression that replaces it.
//! 3. Stack-slot scratch: which pointer SSA values refer to which
//!    `alloca` slot (and at which offset), and what each slot holds, so a
//!    `load` after a `store` yields an inline constant.
use vstd::prelude::*;

use crate::error::{unsupported_err, QirToQasmError};
use crate::ir::parser_util::{ident_end, ident_end_exec, lemma_ident_end};
use crate::ir::{copy_operand, Operand};
use crate::oq3::ast::{copy_expr, copy_float, Expression};
use crate::ordered_map::{
    distinct_keys, entries_get, entries_insert, key_index, lemma_entries_insert, lemma_key_index,
};
use crate::text::{
    chars_of, find_char, find_char_exec, ident_char, is_ident_char, lemma_find_char_from, owned,
    push_debug, push_str, str_debug_text, string_of, suffix,
};

verus! {

/// OpenQASM register identifier emitted for qubits.
pub const QUBIT_REGISTER: &'static str = "q";

/// OpenQASM register identifier emitted for classical bits.
pub const RESULT_REGISTER: &'static str = "c";

/// The translator's notebook: register sizing, SSA bindings and the
/// `alloca` slot scratch.
#[derive(Debug)]
pub struct SymbolTable {
    /// Largest referenced qubit index, or -1 if no qubits are used.
    pub max_qubit_index: i64,
    /// Largest referenced result-bit index, or -1 if no results are used.
    pub max_result_index: i64,
    /// SSA key and bound OpenQASM expression, one entry per key.
    ssa: Vec<(String, Expression)>,
    /// Pointer SSA and the (alloca root, offset) it designates.
    alloca_alias: Vec<(String, (String, u64))>,
    /// (alloca root, offset) and the most recently stored value.
    alloca_slot: Vec<((String, u64), Operand)>,
}

/// The entries of a vector of string-keyed pairs, keyed by characters.
pub open spec fn keyed<V>(v: Seq<(String, V)>) -> Seq<(Seq<char>, V)> {
    v.map_values(|p: (String, V)| (p.0@, p.1))
}

/// The slot entries keyed by (root characters, offset).
pub open spec fn slot_keyed(v: Seq<((String, u64), Operand)>) -> Seq<((Seq<char>, u64), Operand)> {
    v.map_values(|p: ((String, u64), Operand)| ((p.0.0@, p.0.1), p.1))
}

/// The alias entries with their targets as characters.
pub open spec fn alias_keyed(v: Seq<(String, (String, u64))>) -> Seq<(Seq<char>, (Seq<char>, u64))> {
    v.map_values(|p: (String, (String, u64))| (p.0@, (p.1.0@, p.1.1)))
}

/// The expression a stored constant reads back as, if it is a constant
/// that fits.
pub open spec fn spec_operand_to_expression(op: Operand) -> Option<Expression> {
    match op {
        Operand::ConstFloat(f) => Some(Expression::Float(f)),
        Operand::ConstInt(n) => if i64::MIN <= n <= i64::MAX {
            Some(Expression::Integer(n as i64))
        } else {
            None
        },
        Operand::ConstBool(b) => Some(Expression::Boolean(b)),
        _ => None,
    }
}

/// The message for an SSA value used before it is bound.
pub open spec fn unbound_ssa_msg(key: Seq<char>) -> Seq<char> {
    "SSA value "@ + str_debug_text(key)
        + " is used but was never bound; upstream instruction may be unsupported"@
}

impl SymbolTable {
    /// Largest referenced qubit index, or -1.
    pub closed spec fn qubit_max(self) -> i64 {
        self.max_qubit_index
    }

    /// Largest referenced result-bit index, or -1.
    pub closed spec fn result_max(self) -> i64 {
        self.max_result_index
    }

    /// SSA bindings, keyed by name.
    pub closed spec fn bindings(self) -> Seq<(Seq<char>, Expression)> {
        keyed(self.ssa@)
    }

    /// Alias entries: pointer SSA to (alloca root, offset).
    pub closed spec fn aliases(self) -> Seq<(Seq<char>, (Seq<char>, u64))> {
        alias_keyed(self.alloca_alias@)
    }

    /// Slot entries: (alloca root, offset) to stored value.
    pub closed spec fn slots(self) -> Seq<((Seq<char>, u64), Operand)> {
        slot_keyed(self.alloca_slot@)
    }

    /// Each of the three maps has one entry per key.
    pub open spec fn wf(self) -> bool {
        &&& distinct_keys(self.bindings())
        &&& distinct_keys(self.aliases())
        &&& distinct_keys(self.slots())
    }

    /// The expression bound to `key`, if any.
    pub open spec fn binding(self, key: Seq<char>) -> Option<Expression> {
        entries_get(self.bindings(), key)
    }

    /// The (root, offset) that `ptr` designates, if tracked.
    pub open spec fn alias(self, ptr: Seq<char>) -> Option<(Seq<char>, u64)> {
        entries_get(self.aliases(), ptr)
    }

    /// The value last stored in slot `(root, offset)`, if any.
    pub open spec fn slot(self, root: Seq<char>, offset: u64) -> Option<Operand> {
        entries_get(self.slots(), (root, offset))
    }

    /// What a `load` through `ptr` reads back as an expression.
    pub open spec fn spec_load(self, ptr: Seq<char>) -> Option<Expression> {
        match self.alias(ptr) {
            None => None,
            Some((root, off)) => match self.slot(root, off) {
                None => None,
                Some(v) => spec_operand_to_expression(v),
            },
        }
    }

    /// Create an empty symbol table. Indices start at -1 so "no qubits
    /// used" ends up as size 0 after `+1`.
    pub fn new() -> (r: Self)
        ensures
            r.wf(),
            r.qubit_max() == -1,
            r.result_max() == -1,
            r.bindings() == Seq::<(Seq<char>, Expression)>::empty(),
            r.aliases() == Seq::<(Seq<char>, (Seq<char>, u64))>::empty(),
            r.slots() == Seq::<((Seq<char>, u64), Operand)>::empty(),
    {
        let r = SymbolTable {
            max_qubit_index: -1,
            max_result_index: -1,
            ssa: Vec::new(),
            alloca_alias: Vec::new(),
            alloca_slot: Vec::new(),
        };
        assert(r.bindings() =~= Seq::<(Seq<char>, Expression)>::empty());
        assert(r.aliases() =~= Seq::<(Seq<char>, (Seq<char>, u64))>::empty());
        assert(r.slots() =~= Seq::<((Seq<char>, u64), Operand)>::empty());
        r
    }

    /// Record that the program uses qubit `index`.
    pub fn record_qubit(&mut self, index: i64)
        ensures
            final(self).qubit_max() == if index > old(self).qubit_max() {
                index
            } else {
                old(self).qubit_max()
            },
            final(self).result_max() == old(self).result_max(),
            final(self).bindings() == old(self).bindings(),
            final(self).aliases() == old(self).aliases(),
            final(self).slots() == old(self).slots(),
    {
        if index > self.max_qubit_index {
            self.max_qubit_index = index;
        }
    }

    /// Record that the program uses result-bit `index`.
    pub fn record_result(&mut self, index: i64)
        ensures
            final(self).result_max() == if index > old(self).result_max() {
                index
            } else {
                old(self).result_max()
            },
            final(self).qubit_max() == old(self).qubit_max(),
            final(self).bindings() == old(self).bindings(),
            final(self).aliases() == old(self).aliases(),
            final(self).slots() == old(self).slots(),
    {
        if index > self.max_result_index {
            self.max_result_index = index;
        }
    }

    /// Bind an SSA value (identified by `key`) to an OpenQASM expression.
    pub fn record_ssa(&mut self, key: &str, expr: Expression)
        requires
            old(self).wf(),
        ensures
            final(self).wf(),
            final(self).bindings() == entries_insert(old(self).bindings(), key@, expr),
            final(self).qubit_max() == old(self).qubit_max(),
            final(self).result_max() == old(self).result_max(),
            final(self).aliases() == old(self).aliases(),
            final(self).slots() == old(self).slots(),
    {
        let k = owned(key);
        let ghost old_b = self.bindings();
        proof {
            lemma_key_index(old_b, key@);
            lemma_entries_insert(old_b, key@, expr);
        }
        let mut i: usize = 0;
        while i < self.ssa.len()
            invariant
                i <= self.ssa@.len(),
                *self == *old(self),
                old(self).wf(),
                self.bindings() == old_b,
                distinct_keys(old_b),
                k@ == key@,
                forall|j: int| 0 <= j < i ==> #[trigger] old_b[j].0 != key@,
            decreases self.ssa@.len() - i,
        {
            if self.ssa[i].0 == k {
                proof {
                    assert(old_b[i as int].0 == key@);
                    assert(key_index(old_b, key@) == Some(i as int));
                    lemma_entries_insert(old_b, key@, expr);
                }
                self.ssa.set(i, (k, expr));
                proof {
                    assert(self.bindings() =~= old_b.update(i as int, (key@, expr)));
                }
                return;
            }
            proof {
                assert(old_b[i as int].0 != key@);
            }
            i = i + 1;
        }
        proof {
            assert(key_index(old_b, key@) is None);
        }
        self.ssa.push((k, expr));
        proof {
            assert(self.bindings() =~= old_b.push((key@, expr)));
        }
    }

    /// Return the OpenQASM expression previously bound to `key`, copied.
    pub fn lookup_ssa(&self, key: &str) -> (r: Result<Expression, QirToQasmError>)
        requires
            self.wf(),
        ensures
            r matches Ok(e) ==> self.binding(key@) == Some(e),
            r matches Err(e) ==> self.binding(key@) is None && e is Unsupported && e.payload()
                == unbound_ssa_msg(key@),
    {
        let k = owned(key);
        let ghost b = self.bindings();
        proof {
            lemma_key_index(b, key@);
        }
        let mut i: usize = 0;
        while i < self.ssa.len()
            invariant
                i <= self.ssa@.len(),
                b == self.bindings(),
                distinct_keys(b),
                k@ == key@,
                forall|j: int| 0 <= j < i ==> #[trigger] b[j].0 != key@,
            decreases self.ssa@.len() - i,
        {
            if self.ssa[i].0 == k {
                proof {
                    assert(b[i as int].0 == key@);
                    assert(key_index(b, key@) == Some(i as int));
                }
                return Ok(copy_expr(&self.ssa[i].1));
            }
            proof {
                assert(b[i as int].0 != key@);
            }
            i = i + 1;
        }
        let kc = chars_of(key);
        let mut m: Vec<char> = Vec::new();
        push_str(&mut m, "SSA value ");
        push_debug(&mut m, &kc);
        push_str(&mut m, " is used but was never bound; upstream instruction may be unsupported");
        Err(unsupported_err(&m))
    }

    fn find_alias(&self, ptr: &String) -> (r: Option<(String, u64)>)
        requires
            self.wf(),
        ensures
            r matches Some(p) ==> self.alias(ptr@) == Some((p.0@, p.1)),
            r is None ==> self.alias(ptr@) is None,
    {
        let ghost a = self.aliases();
        proof {
            lemma_key_index(a, ptr@);
        }
        let mut i: usize = 0;
        while i < self.alloca_alias.len()
            invariant
                i <= self.alloca_alias@.len(),
                a == self.aliases(),
                distinct_keys(a),
                forall|j: int| 0 <= j < i ==> #[trigger] a[j].0 != ptr@,
            decreases self.alloca_alias@.len() - i,
        {
            if self.alloca_alias[i].0 == *ptr {
                proof {
                    assert(a[i as int].0 == ptr@);
                    assert(key_index(a, ptr@) == Some(i as int));
                }
                let root = self.alloca_alias[i].1.0.clone();
                return Some((root, self.alloca_alias[i].1.1));
            }
            proof {
                assert(a[i as int].0 != ptr@);
            }
            i = i + 1;
        }
        None
    }

    fn set_alias(&mut self, ptr: String, target: (String, u64))
        requires
            old(self).wf(),
        ensures
            final(self).wf(),
            final(self).aliases() == entries_insert(
                old(self).aliases(),
                ptr@,
                (target.0@, target.1),
            ),
            final(self).qubit_max() == old(self).qubit_max(),
            final(self).result_max() == old(self).result_max(),
            final(self).bindings() == old(self).bindings(),
            final(self).slots() == old(self).slots(),
    {
        let ghost a = self.aliases();
        let ghost tv = (target.0@, target.1);
        proof {
            lemma_key_index(a, ptr@);
            lemma_entries_insert(a, ptr@, tv);
        }
        let mut i: usize = 0;
        while i < self.alloca_alias.len()
            invariant
                i <= self.alloca_alias@.len(),
                *self == *old(self),
                old(self).wf(),
                a == self.aliases(),
                distinct_keys(a),
                tv == (target.0@, target.1),
                forall|j: int| 0 <= j < i ==> #[trigger] a[j].0 != ptr@,
            decreases self.alloca_alias@.len() - i,
        {
            if self.alloca_alias[i].0 == ptr {
                proof {
                    assert(a[i as int].0 == ptr@);
                    assert(key_index(a, ptr@) == Some(i as int));
                    lemma_entries_insert(a, ptr@, tv);
                }
                self.alloca_alias.set(i, (ptr, target));
                proof {
                    assert(self.aliases() =~= a.update(i as int, (ptr@, tv)));
                }
                return;
            }
            proof {
                assert(a[i as int].0 != ptr@);
            }
            i = i + 1;
        }
        proof {
            assert(key_index(a, ptr@) is None);
        }
        self.alloca_alias.push((ptr, target));
        proof {
            assert(self.aliases() =~= a.push((ptr@, tv)));
        }
    }

    /// Largest referenced qubit index, or -1.
    pub fn max_qubit(&self) -> (r: i64)
        ensures
            r == self.qubit_max(),
    {
        self.max_qubit_index
    }

    /// Largest referenced result-bit index, or -1.
    pub fn max_result(&self) -> (r: i64)
        ensures
            r == self.result_max(),
    {
        self.max_result_index
    }

    /// Whether `offset` can be added to the offset that `src` designates
    /// without leaving `u64`.
    pub fn alias_offset_fits(&self, src: &str, offset: u64) -> (r: bool)
        requires
            self.wf(),
        ensures
            r == (self.alias(src@) matches Some((_, b)) ==> b + offset <= u64::MAX),
    {
        match self.find_alias(&owned(src)) {
            Some((_, base)) => base <= u64::MAX - offset,
            None => true,
        }
    }

    /// Record an `alloca` SSA: the pointer designates itself at offset 0.
    pub fn record_alloca(&mut self, key: &str)
        requires
            old(self).wf(),
        ensures
            final(self).wf(),
            final(self).aliases() == entries_insert(old(self).aliases(), key@, (key@, 0u64)),
            final(self).qubit_max() == old(self).qubit_max(),
            final(self).result_max() == old(self).result_max(),
            final(self).bindings() == old(self).bindings(),
            final(self).slots() == old(self).slots(),
    {
        self.set_alias(owned(key), (owned(key), 0));
    }

    /// Record that `alias` designates `(root, base + offset)`, where
    /// `(root, base)` is what `src` designates (`(src, 0)` if `src` is not
    /// tracked), so alias chains stay flat.
    pub fn record_alias(&mut self, alias: &str, src: &str, offset: u64)
        requires
            old(self).wf(),
            old(self).alias(src@) matches Some((_, b)) ==> b + offset <= u64::MAX,
        ensures
            final(self).wf(),
            final(self).aliases() == entries_insert(
                old(self).aliases(),
                alias@,
                match old(self).alias(src@) {
                    Some((root, b)) => (root, (b + offset) as u64),
                    None => (src@, offset),
                },
            ),
            final(self).qubit_max() == old(self).qubit_max(),
            final(self).result_max() == old(self).result_max(),
            final(self).bindings() == old(self).bindings(),
            final(self).slots() == old(self).slots(),
    {
        let s = owned(src);
        let (root, base) = match self.find_alias(&s) {
            Some(p) => p,
            None => (s, 0),
        };
        self.set_alias(owned(alias), (root, base + offset));
    }

    fn find_slot(&self, root: &String, offset: u64) -> (r: Option<Operand>)
        requires
            self.wf(),
        ensures
            r matches Some(v) ==> self.slot(root@, offset) == Some(v),
            r is None ==> self.slot(root@, offset) is None,
    {
        let ghost a = self.slots();
        let ghost key = (root@, offset);
        proof {
            lemma_key_index(a, key);
        }
        let mut i: usize = 0;
        while i < self.alloca_slot.len()
            invariant
                i <= self.alloca_slot@.len(),
                a == self.slots(),
                distinct_keys(a),
                key == (root@, offset),
                forall|j: int| 0 <= j < i ==> #[trigger] a[j].0 != key,
            decreases self.alloca_slot@.len() - i,
        {
            if self.alloca_slot[i].0.0 == *root && self.alloca_slot[i].0.1 == offset {
                proof {
                    assert(a[i as int].0 == key);
                    assert(key_index(a, key) == Some(i as int));
                }
                return Some(copy_operand(&self.alloca_slot[i].1));
            }
            proof {
                assert(a[i as int].0 != key);
            }
            i = i + 1;
        }
        None
    }

    /// Record that `value` has been stored into the slot `ptr`
    /// designates. Does nothing if `ptr` is not a tracked alias.
    pub fn store_to_alloca_slot(&mut self, ptr: &str, value: Operand)
        requires
            old(self).wf(),
        ensures
            final(self).wf(),
            final(self).slots() == match old(self).alias(ptr@) {
                Some(k) => entries_insert(old(self).slots(), k, value),
                None => old(self).slots(),
            },
            final(self).qubit_max() == old(self).qubit_max(),
            final(self).result_max() == old(self).result_max(),
            final(self).bindings() == old(self).bindings(),
            final(self).aliases() == old(self).aliases(),
    {
        let p = owned(ptr);
        let (root, offset) = match self.find_alias(&p) {
            None => {
                return;
            },
            Some(x) => x,
        };
        let ghost a = self.slots();
        let ghost key = (root@, offset);
        proof {
            lemma_key_index(a, key);
            lemma_entries_insert(a, key, value);
        }
        let mut i: usize = 0;
        while i < self.alloca_slot.len()
            invariant
                i <= self.alloca_slot@.len(),
                *self == *old(self),
                old(self).wf(),
                a == self.slots(),
                distinct_keys(a),
                key == (root@, offset),
                old(self).alias(ptr@) == Some(key),
                forall|j: int| 0 <= j < i ==> #[trigger] a[j].0 != key,
            decreases self.alloca_slot@.len() - i,
        {
            if self.alloca_slot[i].0.0 == root && self.alloca_slot[i].0.1 == offset {
                proof {
                    assert(a[i as int].0 == key);
                    assert(key_index(a, key) == Some(i as int));
                    lemma_entries_insert(a, key, value);
                }
                self.alloca_slot.set(i, ((root, offset), value));
                proof {
                    assert(self.slots() =~= a.update(i as int, (key, value)));
                }
                return;
            }
            proof {
                assert(a[i as int].0 != key);
            }
            i = i + 1;
        }
        proof {
            assert(key_index(a, key) is None);
        }
        self.alloca_slot.push(((root, offset), value));
        proof {
            assert(self.slots() =~= a.push((key, value)));
        }
    }

    /// The most recently stored value in the slot `ptr` designates, as an
    /// expression; `None` if the slot is untracked, never stored to, or
    /// holds something other than a constant.
    pub fn load_from_alloca_slot(&self, ptr: &str) -> (r: Option<Expression>)
        requires
            self.wf(),
        ensures
            r == self.spec_load(ptr@),
    {
        let p = owned(ptr);
        let (root, offset) = match self.find_alias(&p) {
            None => {
                return None;
            },
            Some(x) => x,
        };
        match self.find_slot(&root, offset) {
            None => None,
            Some(v) => operand_to_expression(&v),
        }
    }
}

impl Default for SymbolTable {
    /// A table with both maxima at 0 and nothing bound.
    fn default() -> (r: Self)
        ensures
            r.wf(),
            r.qubit_max() == 0,
            r.result_max() == 0,
            r.bindings() == Seq::<(Seq<char>, Expression)>::empty(),
    {
        let r = SymbolTable {
            max_qubit_index: 0,
            max_result_index: 0,
            ssa: Vec::new(),
            alloca_alias: Vec::new(),
            alloca_slot: Vec::new(),
        };
        assert(r.bindings() =~= Seq::<(Seq<char>, Expression)>::empty());
        assert(r.aliases() =~= Seq::<(Seq<char>, (Seq<char>, u64))>::empty());
        assert(r.slots() =~= Seq::<((Seq<char>, u64), Operand)>::empty());
        r
    }
}

/// The position of the first `%` at or after `from` that is immediately
/// followed by an identifier character, if any.
pub open spec fn first_ssa_token(text: Seq<char>, from: int) -> Option<int>
    decreases text.len() - from,
{
    if from < 0 || from + 1 >= text.len() {
        None
    } else if text[from] == '%' && is_ident_char(text[from + 1]) {
        Some(from)
    } else {
        first_ssa_token(text, from + 1)
    }
}

/// A stable SSA key:
///   1. `name` when it is non-empty;
///   2. else the id of the first `%<id>` token in `text` (a `%` followed
///      by one or more identifier characters);
///   3. else `text` verbatim.
pub open spec fn spec_ssa_key(name: Seq<char>, text: Seq<char>) -> Seq<char> {
    if name.len() > 0 {
        name
    } else {
        match first_ssa_token(text, 0) {
            Some(start) => {
                let rest = text.subrange(start + 1, text.len() as int);
                rest.subrange(0, ident_end(rest, 0))
            },
            None => text,
        }
    }
}

/// Compute a stable SSA key (see [`spec_ssa_key`]).
pub fn ssa_key(name: &str, text: &str) -> (r: String)
    ensures
        r@ == spec_ssa_key(name@, text@),
{
    let n = chars_of(name);
    if n.len() > 0 {
        return owned(name);
    }
    let t = chars_of(text);
    let mut i: usize = 0;
    while t.len() > 1 && i < t.len() - 1
        invariant
            i <= t@.len(),
            t@ == text@,
            name@.len() == 0,
            first_ssa_token(t@, i as int) == first_ssa_token(t@, 0),
        decreases t@.len() - i,
    {
        if t[i] == '%' && ident_char(t[i + 1]) {
            let rest = suffix(&t, i + 1);
            let end = ident_end_exec(&rest, 0);
            let id = crate::text::slice(&rest, 0, end);
            proof {
                assert(first_ssa_token(t@, i as int) == Some(i as int));
            }
            return string_of(&id);
        }
        i = i + 1;
    }
    owned(text)
}

/// The expression a constant operand reads back as (see
/// [`spec_operand_to_expression`]).
pub fn operand_to_expression(op: &Operand) -> (r: Option<Expression>)
    ensures
        r == spec_operand_to_expression(*op),
{
    match op {
        Operand::ConstFloat(f) => Some(Expression::Float(copy_float(f))),
        Operand::ConstInt(n) => {
            if i64::MIN as i128 <= *n && *n <= i64::MAX as i128 {
                Some(Expression::Integer(*n as i64))
            } else {
                None
            }
        },
        Operand::ConstBool(b) => Some(Expression::Boolean(*b)),
        _ => None,
    }
}

/// Reading a bound SSA key gives back the last expression recorded for it.
pub proof fn law_record_then_lookup(t: SymbolTable, key: Seq<char>, e: Expression)
    requires
        t.wf(),
    ensures
        entries_get(entries_insert(t.bindings(), key, e), key) == Some(e),
        forall|k2: Seq<char>|
            k2 != key ==> entries_get(entries_insert(t.bindings(), key, e), k2) == t.binding(k2),
{
    lemma_entries_insert(t.bindings(), key, e);
}

/// `s1` is `s0` with its bindings replaced by `b`.
pub open spec fn with_bindings(s0: SymbolTable, s1: SymbolTable, b: Seq<(Seq<char>, Expression)>) -> bool {
    &&& s1.bindings() == b
    &&& s1.qubit_max() == s0.qubit_max()
    &&& s1.result_max() == s0.result_max()
    &&& s1.aliases() == s0.aliases()
    &&& s1.slots() == s0.slots()
}

/// `s1` is `s0` with its pointer aliases replaced by `a`.
pub open spec fn with_aliases(s0: SymbolTable, s1: SymbolTable, a: Seq<(Seq<char>, (Seq<char>, u64))>) -> bool {
    &&& s1.aliases() == a
    &&& s1.qubit_max() == s0.qubit_max()
    &&& s1.result_max() == s0.result_max()
    &&& s1.bindings() == s0.bindings()
    &&& s1.slots() == s0.slots()
}

/// `s1` is `s0` with its slots replaced by `sl`.
pub open spec fn with_slots(s0: SymbolTable, s1: SymbolTable, sl: Seq<((Seq<char>, u64), Operand)>) -> bool {
    &&& s1.slots() == sl
    &&& s1.qubit_max() == s0.qubit_max()
    &&& s1.result_max() == s0.result_max()
    &&& s1.bindings() == s0.bindings()
    &&& s1.aliases() == s0.aliases()
}

/// `s1` holds what `s0` holds.
pub open spec fn sym_same(s0: SymbolTable, s1: SymbolTable) -> bool {
    with_bindings(s0, s1, s0.bindings())
}

/// A `load` through a tracked pointer reads back the constant the last
/// `store` through any pointer to the same slot wrote: after a store of
/// `v` through `ptr`, a load through `ptr` gives `v` as an expression.
pub proof fn law_load_after_store(t0: SymbolTable, t1: SymbolTable, ptr: Seq<char>, v: Operand)
    requires
        t0.wf(),
        t0.alias(ptr) is Some,
        t1.aliases() == t0.aliases(),
        t1.slots() == entries_insert(t0.slots(), t0.alias(ptr)->0, v),
    ensures
        t1.spec_load(ptr) == spec_operand_to_expression(v),
{
    lemma_entries_insert(t0.slots(), t0.alias(ptr)->0, v);
}

/// A store through one slot leaves what every other slot reads back as it
/// was.
pub proof fn law_store_preserves_other_slots(
    t0: SymbolTable,
    t1: SymbolTable,
    ptr: Seq<char>,
    v: Operand,
    other: Seq<char>,
)
    requires
        t0.wf(),
        t0.alias(ptr) is Some,
        t0.alias(other) is Some,
        t0.alias(other) != t0.alias(ptr),
        t1.aliases() == t0.aliases(),
        t1.slots() == entries_insert(t0.slots(), t0.alias(ptr)->0, v),
    ensures
        t1.spec_load(other) == t0.spec_load(other),
{
    lemma_entries_insert(t0.slots(), t0.alias(ptr)->0, v);
}

} // verus!
