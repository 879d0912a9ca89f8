//! Top-level pipeline: parsed [`Module`] to [`Program`] to printed
//! OpenQASM pieces.
use vstd::prelude::*;

use crate::boolean::{
    lower_binary_i1, lower_icmp_i1, lower_int_arith, lower_phi_i1_short_circuit, lower_select_i1,
    spec_binary_i1, spec_icmp, spec_int_arith, spec_lookup, spec_phi_i1, spec_select,
};
use crate::builders::{call_post, lower_call};
use crate::ir::model::opt_view;
use crate::cfg::{cfg_fail_msg, irreducible, is_reduction, lower_cfg, sorted_names_of, BlockLowering};
use crate::error::{err_view, syntax_err, unsupported_err, ErrView, QirToQasmError};
use crate::ordered_map::{entries_insert, lemma_entries_insert};
use crate::ir::{Block, BrCondOperand, Instruction, Module, Operand, PhiIncoming};
use crate::oq3::ast::{
    bin, copy_expr, ident, int_lit, BinaryOp, Expression, IoKind, Program, Statement,
};
use crate::oq3::printer::{self, pieces_view, PieceView, QasmPiece};
use crate::profile::{base_profile, is_base_profile, lookup_builder, FunctionBuilder, Profile};
use crate::signatures::{entries_view, extract_signatures, insert_signatures, spec_line_signatures, split_lines, SignatureTable};
use crate::symbols::{
    sym_same, unbound_ssa_msg, with_aliases, with_bindings, with_slots, SymbolTable, QUBIT_REGISTER,
    RESULT_REGISTER,
};
use crate::text::{
    chars_of, chars_of_string, owned, push_chars, push_debug_string, push_int, push_str,
    push_string, str_debug_text, string_is, string_of,
};

verus! {

/// Package version.
pub const VERSION: &'static str = "0.1.0";

// ---------------------------------------------------------------------------
// The generated-by line
// ---------------------------------------------------------------------------

/// A lower-case hexadecimal digit.
pub open spec fn hex_char(d: int) -> char {
    if d < 10 {
        ((d + 48) as u8) as char
    } else {
        ((d + 87) as u8) as char
    }
}

/// The JSON escape of one character.
pub open spec fn json_escape_char(c: char) -> Seq<char> {
    if c == '"' {
        seq!['\\', '"']
    } else if c == '\\' {
        seq!['\\', '\\']
    } else if c == '\n' {
        seq!['\\', 'n']
    } else if c == '\r' {
        seq!['\\', 'r']
    } else if c == '\t' {
        seq!['\\', 't']
    } else if c == '\x08' {
        seq!['\\', 'b']
    } else if c == '\x0C' {
        seq!['\\', 'f']
    } else if (c as u32) < 0x20 || (c as u32) == 0x7f {
        seq!['\\', 'u', '0', '0', hex_char((c as u32 / 16) as int), hex_char((c as u32 % 16) as int)]
    } else {
        seq![c]
    }
}

/// The JSON escape of a string: quote, backslash and ASCII control
/// characters escaped, everything else as is.
pub open spec fn json_escape(s: Seq<char>) -> Seq<char>
    decreases s.len(),
{
    if s.len() == 0 {
        Seq::empty()
    } else {
        json_escape(s.drop_last()) + json_escape_char(s.last())
    }
}

/// A character JSON carries as is inside a string: not an ASCII control
/// character.
pub open spec fn json_plain(c: char) -> bool {
    (c as u32) >= 0x20 && (c as u32) != 0x7f
}

/// The JSON escape of a string holds no ASCII control character (none
/// below U+0020, no U+007F): every one of them in the input comes out as
/// a short escape or `\u00XX`.
pub proof fn law_json_escape_no_controls(s: Seq<char>)
    ensures
        forall|i: int| 0 <= i < json_escape(s).len() ==> json_plain(#[trigger] json_escape(s)[i]),
    decreases s.len(),
{
    if s.len() > 0 {
        law_json_escape_no_controls(s.drop_last());
        let a = json_escape(s.drop_last());
        let b = json_escape_char(s.last());
        let c = s.last();
        assert forall|k: int| 0 <= k < b.len() implies json_plain(#[trigger] b[k]) by {
            if (c as u32) < 0x20 || (c as u32) == 0x7f {
                let d1 = (c as u32 / 16) as int;
                let d2 = (c as u32 % 16) as int;
                assert(0 <= d1 < 16 && 0 <= d2 < 16);
                assert(json_plain(hex_char(d1)) && json_plain(hex_char(d2))) by {
                    assert(((d1 + 48) as u8) as char as u32 == d1 + 48);
                    assert(((d1 + 87) as u8) as char as u32 == d1 + 87);
                    assert(((d2 + 48) as u8) as char as u32 == d2 + 48);
                    assert(((d2 + 87) as u8) as char as u32 == d2 + 87);
                }
            }
        }
        assert forall|i: int| 0 <= i < (a + b).len() implies json_plain(#[trigger] (a + b)[i]) by {
            if i < a.len() {
                assert((a + b)[i] == a[i]);
            } else {
                assert((a + b)[i] == b[i - a.len()]);
            }
        }
    }
}

/// The value of a lower-case hexadecimal digit.
pub open spec fn hex_value(c: char) -> int {
    if (c as u32) < 58 {
        c as u32 - 48
    } else {
        c as u32 - 87
    }
}

/// Reading a JSON string body back: each escape gives the character it
/// stands for, every other character itself.
pub open spec fn json_unescape(e: Seq<char>) -> Seq<char>
    decreases e.len(),
{
    if e.len() == 0 {
        Seq::empty()
    } else if e[0] == '\\' && e.len() >= 2 {
        let k = e[1];
        if k == 'u' && e.len() >= 6 {
            seq![(hex_value(e[4]) * 16 + hex_value(e[5])) as char] + json_unescape(e.subrange(6, e.len() as int))
        } else {
            let c = if k == 'n' {
                '\n'
            } else if k == 'r' {
                '\r'
            } else if k == 't' {
                '\t'
            } else if k == 'b' {
                '\x08'
            } else if k == 'f' {
                '\x0C'
            } else {
                k
            };
            seq![c] + json_unescape(e.subrange(2, e.len() as int))
        }
    } else {
        seq![e[0]] + json_unescape(e.subrange(1, e.len() as int))
    }
}

proof fn lemma_json_escape_front(c: char, t: Seq<char>)
    ensures
        json_escape(seq![c] + t) == json_escape_char(c) + json_escape(t),
    decreases t.len(),
{
    if t.len() == 0 {
        assert((seq![c] + t).drop_last() =~= Seq::<char>::empty());
        assert(json_escape(Seq::<char>::empty()) == Seq::<char>::empty());
        assert(json_escape(seq![c] + t) =~= json_escape_char(c));
        assert(json_escape_char(c) + json_escape(t) =~= json_escape_char(c));
    } else {
        lemma_json_escape_front(c, t.drop_last());
        assert((seq![c] + t).drop_last() =~= seq![c] + t.drop_last());
        assert((seq![c] + t).last() == t.last());
        assert(json_escape(seq![c] + t) =~= json_escape_char(c) + json_escape(t.drop_last()) + json_escape_char(t.last()));
    }
}

proof fn lemma_json_unescape_char(c: char, rest: Seq<char>)
    ensures
        json_unescape(json_escape_char(c) + rest) == seq![c] + json_unescape(rest),
{
    let e = json_escape_char(c) + rest;
    let n = json_escape_char(c).len();
    assert(e.subrange(n as int, e.len() as int) =~= rest);
    if (c as u32) < 0x20 || (c as u32) == 0x7f {
        if !(c == '\n' || c == '\r' || c == '\t' || c == '\x08' || c == '\x0C') {
            let v = c as u32;
            let d1 = (v / 16) as int;
            let d2 = (v % 16) as int;
            assert(hex_value(hex_char(d1)) == d1) by {
                assert(((d1 + 48) as u8) as char as u32 == d1 + 48);
                assert(((d1 + 87) as u8) as char as u32 == d1 + 87);
            }
            assert(hex_value(hex_char(d2)) == d2) by {
                assert(((d2 + 48) as u8) as char as u32 == d2 + 48);
                assert(((d2 + 87) as u8) as char as u32 == d2 + 87);
            }
            assert(d1 * 16 + d2 == v);
            assert((v as int) as char == c);
        }
    }
}

/// Reading the JSON escape of a string back gives the string: the escape
/// loses nothing.
pub proof fn law_json_escape_round_trip(s: Seq<char>)
    ensures
        json_unescape(json_escape(s)) == s,
    decreases s.len(),
{
    if s.len() > 0 {
        let c = s[0];
        let t = s.subrange(1, s.len() as int);
        assert(s =~= seq![c] + t);
        lemma_json_escape_front(c, t);
        lemma_json_unescape_char(c, json_escape(t));
        law_json_escape_round_trip(t);
    }
}

/// The JSON escape of a string never holds a line break, so the
/// generated-by comment stays on one line whatever the producer label.
pub proof fn law_json_escape_single_line(s: Seq<char>)
    ensures
        !json_escape(s).contains('\n'),
        !json_escape(s).contains('\r'),
    decreases s.len(),
{
    if s.len() > 0 {
        law_json_escape_single_line(s.drop_last());
        let a = json_escape(s.drop_last());
        let b = json_escape_char(s.last());
        assert(!b.contains('\n') && !b.contains('\r')) by {
            let c = s.last();
            if (c as u32) < 0x20 || (c as u32) == 0x7f {
                let hi = hex_char((c as u32 / 16) as int);
                let lo = hex_char((c as u32 % 16) as int);
                assert(hi != '\n' && hi != '\r' && lo != '\n' && lo != '\r');
            }
        }
        if (a + b).contains('\n') {
            let i = choose|i: int| 0 <= i < (a + b).len() && (a + b)[i] == '\n';
            if i < a.len() {
                assert(a[i] == '\n');
            } else {
                assert(b[i - a.len()] == '\n');
            }
        }
        if (a + b).contains('\r') {
            let i = choose|i: int| 0 <= i < (a + b).len() && (a + b)[i] == '\r';
            if i < a.len() {
                assert(a[i] == '\r');
            } else {
                assert(b[i - a.len()] == '\r');
            }
        }
    }
}

fn hex_char_exec(d: u32) -> (c: char)
    requires
        d < 16,
    ensures
        c == hex_char(d as int),
{
    if d < 10 {
        ((d + 48) as u8) as char
    } else {
        ((d + 87) as u8) as char
    }
}

/// JSON-escape `s` onto `buf`.
pub fn json_escape_into(s: &str, buf: &mut Vec<char>)
    ensures
        final(buf)@ == old(buf)@ + json_escape(s@),
{
    let c = chars_of(s);
    let ghost b0 = old(buf)@;
    let mut i: usize = 0;
    while i < c.len()
        invariant
            i <= c@.len(),
            c@ == s@,
            buf@ == b0 + json_escape(c@.subrange(0, i as int)),
        decreases c@.len() - i,
    {
        let ch = c[i];
        let ghost before = buf@;
        if ch == '"' {
            buf.push('\\');
            buf.push('"');
        } else if ch == '\\' {
            buf.push('\\');
            buf.push('\\');
        } else if ch == '\n' {
            buf.push('\\');
            buf.push('n');
        } else if ch == '\r' {
            buf.push('\\');
            buf.push('r');
        } else if ch == '\t' {
            buf.push('\\');
            buf.push('t');
        } else if ch == '\x08' {
            buf.push('\\');
            buf.push('b');
        } else if ch == '\x0C' {
            buf.push('\\');
            buf.push('f');
        } else if (ch as u32) < 0x20 || (ch as u32) == 0x7f {
            buf.push('\\');
            buf.push('u');
            buf.push('0');
            buf.push('0');
            buf.push(hex_char_exec((ch as u32) / 16));
            buf.push(hex_char_exec((ch as u32) % 16));
        } else {
            buf.push(ch);
        }
        proof {
            let w = c@.subrange(0, i + 1);
            assert(w.drop_last() =~= c@.subrange(0, i as int));
            assert(w.last() == ch);
            assert(buf@ =~= before + json_escape_char(ch));
        }
        i = i + 1;
    }
    proof {
        assert(c@.subrange(0, c@.len() as int) =~= c@);
    }
}

/// The trailing `// generated-by: {...}` line: `name`, `version`, then the
/// input QIR profile and the producer when present, JSON-escaped.
pub open spec fn generated_by_text(profile: Option<Seq<char>>, producer: Option<Seq<char>>) -> Seq<char> {
    "// generated-by: {"@ + "\"name\":\"qirtoqasm\",\"version\":\""@ + json_escape(VERSION@) + "\""@
        + match profile {
        Some(p) => ",\"profile\":\""@ + json_escape(p) + "\""@,
        None => Seq::empty(),
    } + match producer {
        Some(p) => ",\"producer\":\""@ + json_escape(p) + "\""@,
        None => Seq::empty(),
    } + "}"@ + "\n"@
}

// ---------------------------------------------------------------------------
// The exporter
// ---------------------------------------------------------------------------

/// End-to-end QIR to OpenQASM 3 translator.
#[derive(Debug, Clone)]
pub struct Exporter {
    /// The active profile; defaults to the base profile.
    pub profile: Profile,
    /// `include "..."` directives to emit at the top of the output.
    pub include_files: Vec<String>,
    /// Emit `output bit[N] c;` instead of `bit[N] c;`.
    pub emit_output_declarations: bool,
    /// Label surfaced as the `"producer"` field of the generated-by line.
    producer: Option<String>,
}

impl Default for Exporter {
    fn default() -> (r: Self)
        ensures
            r.is_fresh(),
    {
        Exporter::new()
    }
}

impl Exporter {
    /// The producer label, if set.
    pub closed spec fn producer_label(self) -> Option<Seq<char>> {
        match self.producer {
            Some(p) => Some(p@),
            None => None,
        }
    }

    /// The active profile.
    pub closed spec fn active_profile(self) -> Profile {
        self.profile
    }

    /// The `include` directives, in order.
    pub closed spec fn includes(self) -> Seq<String> {
        self.include_files@
    }

    /// Whether classical bits are declared with the `output` prefix.
    pub closed spec fn output_declarations(self) -> bool {
        self.emit_output_declarations
    }

    /// What `new` gives: the base profile, no includes, plain bit
    /// declarations and no producer.
    pub closed spec fn is_fresh(self) -> bool {
        &&& self.profile.wf()
        &&& self.profile.label() == "base_profile"@
        &&& self.include_files@.len() == 0
        &&& !self.emit_output_declarations
        &&& self.producer is None
    }

    /// Create an exporter with the base profile and default options.
    pub fn new() -> (r: Self)
        ensures
            r.is_fresh(),
            is_base_profile(r.active_profile()),
            r.active_profile().wf(),
            r.active_profile().label() == "base_profile"@,
            r.includes().len() == 0,
            !r.output_declarations(),
            r.producer_label() is None,
    {
        Exporter {
            profile: base_profile(),
            include_files: Vec::new(),
            emit_output_declarations: false,
            producer: None,
        }
    }

    /// Builder-style: swap in a custom profile.
    pub fn with_profile(self, profile: Profile) -> (r: Self)
        ensures
            r.active_profile() == profile,
            r.includes() == self.includes(),
            r.output_declarations() == self.output_declarations(),
            r.producer_label() == self.producer_label(),
    {
        let mut s = self;
        s.profile = profile;
        s
    }

    /// Builder-style: set `include_files`.
    pub fn with_includes(self, files: Vec<String>) -> (r: Self)
        ensures
            r.includes() == files@,
            r.active_profile() == self.active_profile(),
            r.output_declarations() == self.output_declarations(),
            r.producer_label() == self.producer_label(),
    {
        let mut s = self;
        s.include_files = files;
        s
    }

    /// Builder-style: toggle the `output` prefix on classical-bit
    /// declarations.
    pub fn with_output_declarations(self, yes: bool) -> (r: Self)
        ensures
            r.output_declarations() == yes,
            r.active_profile() == self.active_profile(),
            r.includes() == self.includes(),
            r.producer_label() == self.producer_label(),
    {
        let mut s = self;
        s.emit_output_declarations = yes;
        s
    }

    /// Builder-style: set the `"producer"` field of the generated-by line.
    /// Empty clears it.
    pub fn with_producer(self, producer: &str) -> (r: Self)
        ensures
            r.producer_label() == (if producer@.len() == 0 { None } else { Some(producer@) }),
            r.active_profile() == self.active_profile(),
            r.includes() == self.includes(),
            r.output_declarations() == self.output_declarations(),
    {
        let c = chars_of(producer);
        let mut s = self;
        s.producer = if c.len() == 0 {
            None
        } else {
            Some(owned(producer))
        };
        s
    }

    /// Render the trailing `// generated-by: {...}` line.
    fn generated_by_line(&self, input_profile: &Option<String>) -> (r: String)
        ensures
            r@ == generated_by_text(
                match input_profile {
                    Some(p) => Some(p@),
                    None => None,
                },
                self.producer_label(),
            ),
    {
        let mut s: Vec<char> = Vec::new();
        push_str(&mut s, "// generated-by: {");
        push_str(&mut s, "\"name\":\"qirtoqasm\",\"version\":\"");
        json_escape_into(VERSION, &mut s);
        push_str(&mut s, "\"");
        match input_profile {
            Some(p) => {
                push_str(&mut s, ",\"profile\":\"");
                json_escape_into(p.as_str(), &mut s);
                push_str(&mut s, "\"");
            },
            None => {},
        }
        match &self.producer {
            Some(p) => {
                push_str(&mut s, ",\"producer\":\"");
                json_escape_into(p.as_str(), &mut s);
                push_str(&mut s, "\"");
            },
            None => {},
        }
        push_str(&mut s, "}");
        push_str(&mut s, "\n");
        string_of(&s)
    }

    /// Translate a parsed module into printed OpenQASM 3 pieces. The
    /// output always ends with the `// generated-by:` line.
    pub fn dumps(&self, module: &Module) -> (r: Result<Vec<QasmPiece>, QirToQasmError>)
        requires
            self.active_profile().wf(),
        ensures
            r matches Ok(v) ==> exists|p: Program|
                #![trigger printer::program_pieces(p)]
                p.version@ == "3.0"@ && includes_first(p.statements@, self.includes()) && translation_of(
                    self.active_profile(),
                    self.includes(),
                    self.output_declarations(),
                    *module,
                    p,
                ) && pieces_view(v@) == printer::program_pieces(p).push(
                    PieceView::Text(generated_by_text(entry_profile(*module), self.producer_label())),
                ),
            module.entry_index() is None ==> r is Err,
            spec_line_signatures(split_lines(module.source_text@)) matches Err(m) ==> r matches Err(x) && x is Syntax
                && x.payload() == m,
            r is Ok ==> (module.entry_index() matches Some(e) && labels_distinct(module.functions@[e].blocks@)
                && branches_closed(module.functions@[e].blocks@)),
            r matches Err(x) ==> translation_fails(self.active_profile(), *module, err_view(x)),
    {
        let program = match self.build_program(module) {
            Ok(p) => p,
            Err(x) => {
                return Err(x);
            },
        };
        let mut out = printer::print(&program);
        let ghost printed = pieces_view(out@);
        let input_profile: Option<String> = match module.entry_point() {
            Some(f) => match &f.qir_profile {
                Some(p) => Some(p.clone()),
                None => None,
            },
            None => None,
        };
        let line = self.generated_by_line(&input_profile);
        out.push(QasmPiece::Text(line));
        proof {
            assert(pieces_view(out@) =~= printed.push(
                PieceView::Text(generated_by_text(entry_profile(*module), self.producer_label())),
            ));
        }
        Ok(out)
    }

    /// The whole program for a module's entry point.
    fn build_program(&self, module: &Module) -> (r: Result<Program, QirToQasmError>)
        requires
            self.profile.wf(),
        ensures
            r matches Ok(p) ==> p.version@ == "3.0"@,
            module.entry_index() is None ==> r is Err,
            spec_line_signatures(split_lines(module.source_text@)) matches Err(m) ==> r matches Err(x) && x is Syntax
                && x.payload() == m,
            r is Ok ==> (module.entry_index() matches Some(e) && labels_distinct(module.functions@[e].blocks@)
                && branches_closed(module.functions@[e].blocks@)),
            r matches Ok(p) ==> includes_first(p.statements@, self.include_files@),
            r matches Ok(p) ==> translation_of(
                self.profile,
                self.include_files@,
                self.emit_output_declarations,
                *module,
                p,
            ),
            r matches Err(x) ==> translation_fails(self.profile, *module, err_view(x)),
    {
        let signatures = match extract_signatures(module.source_text.as_str()) {
            Ok(t) => t,
            Err(x) => {
                return Err(x);
            },
        };
        let entry = match module.entry_point() {
            Some(f) => f,
            None => {
                return Err(QirToQasmError::syntax(
                    "no entry-point function found; QIR modules must have a function tagged with the 'entry_point' attribute",
                ));
            },
        };
        let mut symbols = SymbolTable::new();
        let block_names = assign_block_names(&entry.blocks);
        proof {
            assert(crate::cfg::names(block_names@) =~= canonical_names(entry.blocks@));
        }
        proof {
            assert forall|a: int| 0 <= a < block_names@.len() implies #[trigger] block_names@[a]@ == canonical_names(
                entry.blocks@,
            )[a] by {
                assert(crate::cfg::names(block_names@)[a] == block_names@[a]@);
            }
        }
        match check_block_names(&block_names) {
            Ok(()) => {},
            Err(x) => {
                proof {
                    let (a, b) = choose|a: int, b: int|
                        #![trigger block_names@[a], block_names@[b]]
                        0 <= a < b < block_names@.len() && block_names@[a]@ == block_names@[b]@ && x.payload()
                            == dup_label_msg(block_names@[a]@);
                    assert(canonical_names(entry.blocks@)[a] == canonical_names(entry.blocks@)[b]);
                    assert(!labels_distinct(entry.blocks@));
                }
                return Err(x);
            },
        }
        proof {
            assert forall|a: int, b: int| 0 <= a < b < entry.blocks@.len() implies canonical_names(entry.blocks@)[a]
                != canonical_names(entry.blocks@)[b] by {
                assert(block_names@[a]@ != block_names@[b]@);
            }
        }
        let mut lowerings: Vec<BlockLowering> = Vec::new();
        let mut int_declarations: Vec<Statement> = Vec::new();
        let ghost names = canonical_names(entry.blocks@);
        let ghost mut st: Seq<BlocksState> = seq![(symbols, lowerings@, int_declarations@)];
        let ghost mut tr: Seq<Seq<LowerState>> = Seq::empty();
        let mut i: usize = 0;
        while i < entry.blocks.len()
            invariant
                i <= entry.blocks@.len(),
                block_names@.len() == entry.blocks@.len(),
                forall|a: int| 0 <= a < block_names@.len() ==> #[trigger] block_names@[a]@ == names[a],
                names == canonical_names(entry.blocks@),
                symbols.wf(),
                signatures.wf(),
                self.profile.wf(),
                lowerings@.len() == i,
                forall|a: int| 0 <= a < i ==> crate::cfg::names(#[trigger] lowerings@[a].targets@) == block_successors(
                    entry.blocks@[a].instructions@,
                ),
                forall|a: int| 0 <= a < i ==> (#[trigger] lowerings@[a]).name@ == names[a],
                st.len() == i + 1,
                tr.len() == i,
                fresh_table(st[0].0),
                st[0].1 == Seq::<BlockLowering>::empty(),
                st[0].2 == Seq::<Statement>::empty(),
                st.last() == (symbols, lowerings@, int_declarations@),
                forall|a: int| 0 <= a < i ==> #[trigger] block_at(self.profile, signatures, entry.blocks@, names, st, tr, a),
                spec_line_signatures(split_lines(module.source_text@)) is Ok,
                sigs_of(*module, signatures),
                module.entry_index() is Some,
                *entry == module.functions@[module.entry_index().unwrap()],
                labels_distinct(entry.blocks@),
            decreases entry.blocks@.len() - i,
        {
            let ghost before = lowerings@;
            let ghost s_before = st.last();
            let res = self.lower_block(
                &entry.blocks[i],
                &block_names[i],
                &signatures,
                &mut symbols,
                &mut lowerings,
                &mut int_declarations,
            );
            let lowering = match res {
                Ok(b) => b,
                Err(x) => {
                    proof {
                        let t = choose|trace: Seq<LowerState>|
                            #[trigger] block_run(
                                self.profile,
                                signatures,
                                block_names@[i as int]@,
                                entry.blocks@[i as int].instructions@,
                                trace,
                                (s_before.0, s_before.1, s_before.2, Seq::empty()),
                                (symbols, lowerings@, int_declarations@),
                                Err::<BlockLowering, ErrView>(err_view(x)),
                            );
                        assert(blocks_upto(self.profile, signatures, entry.blocks@, st, tr, i as int));
                        assert(block_fails(self.profile, signatures, entry.blocks@, st, tr, t, i as int, err_view(x)));
                    }
                    return Err(x);
                },
            };
            let ghost t = choose|trace: Seq<LowerState>|
                #[trigger] block_run(
                    self.profile,
                    signatures,
                    block_names@[i as int]@,
                    entry.blocks@[i as int].instructions@,
                    trace,
                    (s_before.0, s_before.1, s_before.2, Seq::empty()),
                    (symbols, lowerings@, int_declarations@),
                    Ok::<BlockLowering, ErrView>(lowering),
                );
            proof {
                assert forall|a: int| 0 <= a < i implies crate::cfg::names(#[trigger] lowerings@[a].targets@)
                    == block_successors(entry.blocks@[a].instructions@) by {
                    assert(same_exit(lowerings@[a], before[a]));
                }
                assert forall|a: int| 0 <= a < i implies (#[trigger] lowerings@[a]).name@ == names[a] by {
                    assert(same_exit(lowerings@[a], before[a]));
                }
            }
            let ghost mid = lowerings@;
            lowerings.push(lowering);
            proof {
                assert(lowerings@[i as int] == lowering);
                assert(lowerings@.drop_last() =~= mid);
                let st0 = st;
                let tr0 = tr;
                st = st.push((symbols, lowerings@, int_declarations@));
                tr = tr.push(t);
                assert forall|a: int| 0 <= a <= i implies #[trigger] block_at(
                    self.profile,
                    signatures,
                    entry.blocks@,
                    names,
                    st,
                    tr,
                    a,
                ) by {
                    if a < i {
                        assert(block_at(self.profile, signatures, entry.blocks@, names, st0, tr0, a));
                        assert(st[a] == st0[a] && st[a + 1] == st0[a + 1] && tr[a] == tr0[a]);
                    } else {
                        assert(st[a] == s_before);
                        assert(tr[a] == t);
                    }
                }
            }
            i = i + 1;
        }
        proof {
            assert(blocks_run(self.profile, signatures, entry.blocks@, st, tr));
        }
        match check_branch_targets(&lowerings, &block_names) {
            Ok(()) => {},
            Err(x) => {
                proof {
                    let (a, k) = choose|a: int, k: int|
                        0 <= a < lowerings@.len() && 0 <= k < lowerings@[a].targets@.len() && !crate::cfg::names(
                            block_names@,
                        ).contains(#[trigger] lowerings@[a].targets@[k]@) && x.payload() == bad_target_msg(
                            lowerings@[a].targets@[k]@,
                            lowerings@[a].name@,
                        );
                    let bl = entry.blocks@;
                    assert(crate::cfg::names(lowerings@[a].targets@)[k] == lowerings@[a].targets@[k]@);
                    assert(block_successors(bl[a].instructions@)[k] == lowerings@[a].targets@[k]@);
                    assert(!branches_closed(bl));
                    assert(later_fails(bl, st.last().0, st.last().1, err_view(x)));
                }
                return Err(x);
            },
        }
        proof {
            let bl = entry.blocks@;
            assert forall|a: int, k: int|
                0 <= a < bl.len() && 0 <= k < block_successors(bl[a].instructions@).len() implies canonical_names(
                bl,
            ).contains(#[trigger] block_successors(bl[a].instructions@)[k]) by {
                assert(crate::cfg::names(lowerings@[a].targets@)[k] == lowerings@[a].targets@[k]@);
                assert(crate::cfg::names(block_names@).contains(lowerings@[a].targets@[k]@));
            }
        }
        let entry_block_name = if lowerings.len() > 0 {
            lowerings[0].name.clone()
        } else {
            owned("0")
        };
        let ghost final_lowerings = lowerings@;
        proof {
            if final_lowerings.len() > 0 {
                assert(crate::cfg::first_block_from(final_lowerings, entry_block_name@, 0) == Some(0int));
            }
        }
        let body = match lower_cfg(lowerings, entry_block_name.as_str()) {
            Ok(v) => v,
            Err(x) => {
                proof {
                    assert(cfg_fails(final_lowerings, err_view(x)));
                    assert(later_fails(entry.blocks@, st.last().0, st.last().1, err_view(x)));
                }
                return Err(x);
            },
        };
        proof {
            assert(cfg_body(final_lowerings, body@));
        }
        let mut statements: Vec<Statement> = Vec::new();
        let mut k: usize = 0;
        while k < self.include_files.len()
            invariant
                k <= self.include_files@.len(),
                statements@.len() == k,
                forall|m: int| 0 <= m < k ==> is_include_of(#[trigger] statements@[m], self.include_files@[m]@),
            decreases self.include_files@.len() - k,
        {
            statements.push(Statement::Include(self.include_files[k].clone()));
            k = k + 1;
        }
        let ghost inc = statements@;
        if symbols.max_qubit() >= 0 {
            if symbols.max_qubit() == i64::MAX {
                let x = QirToQasmError::unsupported("qubit index too large to size the qubit register");
                proof {
                    assert(later_fails(entry.blocks@, st.last().0, st.last().1, err_view(x)));
                }
                return Err(x);
            }
            let size = (symbols.max_qubit() + 1) as u64;
            statements.push(Statement::QubitDeclaration { size, name: owned(QUBIT_REGISTER) });
        }
        let ghost with_q = statements@;
        if symbols.max_result() >= 0 {
            if symbols.max_result() == i64::MAX {
                let x = QirToQasmError::unsupported("result index too large to size the result register");
                proof {
                    assert(later_fails(entry.blocks@, st.last().0, st.last().1, err_view(x)));
                }
                return Err(x);
            }
            let bit_size = (symbols.max_result() + 1) as u64;
            if self.emit_output_declarations {
                statements.push(Statement::IODeclaration { io_kind: IoKind::Output, bit_size, name: owned(RESULT_REGISTER) });
            } else {
                statements.push(Statement::ClassicalDeclaration { bit_size, name: owned(RESULT_REGISTER) });
            }
        }
        let ghost heads = statements@;
        let mut decls = int_declarations;
        let ghost dv = decls@;
        statements.append(&mut decls);
        let ghost bv = body@;
        let mut b = body;
        statements.append(&mut b);
        proof {
            reveal_strlit("3.0");
            assert(statements@ =~= heads + dv + bv);
            assert(heads.subrange(0, inc.len() as int) =~= inc);
            assert(statements@.subrange(0, heads.len() as int) =~= heads);
            assert(statements@.subrange(heads.len() as int, (heads.len() + dv.len()) as int) =~= dv);
            assert(statements@.subrange((heads.len() + dv.len()) as int, statements@.len() as int) =~= bv);
        }
        let p = Program { version: owned("3.0"), statements };
        proof {
            assert(program_layout(
                p.statements@,
                self.include_files@,
                symbols,
                self.emit_output_declarations,
                dv,
                bv,
            ));
            assert(translated(
                self.profile,
                self.include_files@,
                self.emit_output_declarations,
                *module,
                signatures,
                st,
                tr,
                bv,
                p,
            ));
            assert(translation_of(
                self.profile,
                self.include_files@,
                self.emit_output_declarations,
                *module,
                p,
            ));
        }
        Ok(p)
    }

    /// Lower one basic block to its statements, condition and targets,
    /// recording SSA bindings as it goes.
    fn lower_block(
        &self,
        block: &Block,
        canonical_name: &String,
        signatures: &SignatureTable,
        symbols: &mut SymbolTable,
        prior: &mut Vec<BlockLowering>,
        int_declarations: &mut Vec<Statement>,
    ) -> (r: Result<BlockLowering, QirToQasmError>)
        requires
            old(symbols).wf(),
            signatures.wf(),
            self.profile.wf(),
        ensures
            final(symbols).wf(),
            final(prior)@.len() == old(prior)@.len(),
            forall|j: int| 0 <= j < old(prior)@.len() ==> same_exit(#[trigger] final(prior)@[j], old(prior)@[j]),
            r matches Ok(b) ==> b.name@ == canonical_name@,
            r matches Ok(b) ==> b.targets@.map_values(|t: String| t@) == block_successors(block.instructions@),
            r matches Ok(b) ==> (b.condition is Some <==> (first_terminator(block.instructions@, 0) matches Some(
                t,
            ) && t is BrCond)),
            r is Ok ==> supported_until_exit(block.instructions@, 0),
            exists|trace: Seq<LowerState>|
                #[trigger] block_run(
                    self.profile,
                    *signatures,
                    canonical_name@,
                    block.instructions@,
                    trace,
                    (*old(symbols), old(prior)@, old(int_declarations)@, Seq::empty()),
                    (*final(symbols), final(prior)@, final(int_declarations)@),
                    lowered(r),
                ),
    {
        let mut stmts: Vec<Statement> = Vec::new();
        let mut condition: Option<Expression> = None;
        let mut targets: Vec<String> = Vec::new();
        let mut i: usize = 0;
        let ghost start: LowerState = (*symbols, prior@, int_declarations@, Seq::empty());
        let ghost mut trace: Seq<LowerState> = seq![start];
        while i < block.instructions.len()
            invariant_except_break
                targets@.len() == 0,
                condition is None,
                first_terminator(block.instructions@, 0) == terminator_from(block.instructions@, i),
                supported_until_exit(block.instructions@, 0) == supported_from(block.instructions@, i),
            invariant
                i <= block.instructions@.len(),
                symbols.wf(),
                signatures.wf(),
                self.profile.wf(),
                prior@.len() == old(prior)@.len(),
                forall|j: int| 0 <= j < old(prior)@.len() ==> same_exit(#[trigger] prior@[j], old(prior)@[j]),
                start == (*old(symbols), old(prior)@, old(int_declarations)@, Seq::<Statement>::empty()),
                trace.len() == i + 1,
                trace[0] == start,
                trace.last() == (*symbols, prior@, int_declarations@, stmts@),
                steps_ok(self.profile, *signatures, canonical_name@, block.instructions@, trace, i as int),
            ensures
                targets@.map_values(|t: String| t@) == block_successors(block.instructions@),
                condition is Some <==> (first_terminator(block.instructions@, 0) matches Some(t) && t is BrCond),
                supported_until_exit(block.instructions@, 0),
                ok_end(block.instructions@, trace, condition),
            decreases block.instructions@.len() - i,
        {
            match &block.instructions[i] {
                Instruction::Br { target } => {
                    targets.push(target.clone());
                    proof {
                        assert(targets@.map_values(|t: String| t@) =~= seq![target@]);
                    }
                    break;
                },
                Instruction::BrCond { cond, true_target, false_target } => {
                    let e = match cond {
                        BrCondOperand::Ssa(id) => match symbols.lookup_ssa(id.as_str()) {
                            Ok(e) => e,
                            Err(x) => {
                                proof {
                                    assert(block_run(
                                        self.profile,
                                        *signatures,
                                        canonical_name@,
                                        block.instructions@,
                                        trace,
                                        start,
                                        (*symbols, prior@, int_declarations@),
                                        Err::<BlockLowering, ErrView>(err_view(x)),
                                    ));
                                }
                                return Err(x);
                            },
                        },
                        BrCondOperand::Const(b) => Expression::Boolean(*b),
                    };
                    condition = Some(e);
                    targets.push(true_target.clone());
                    targets.push(false_target.clone());
                    proof {
                        assert(targets@.map_values(|t: String| t@) =~= seq![true_target@, false_target@]);
                    }
                    break;
                },
                Instruction::Ret => {
                    proof {
                        assert(targets@.map_values(|t: String| t@) =~= Seq::<Seq<char>>::empty());
                    }
                    break;
                },
                other => {
                    let rr = self.lower_instr(other, canonical_name, signatures, symbols, prior, int_declarations, &mut stmts);
                    let ghost t0 = trace;
                    proof {
                        trace = trace.push((*symbols, prior@, int_declarations@, stmts@));
                        lemma_steps_push(self.profile, *signatures, canonical_name@, block.instructions@, t0, trace, i as int);
                        assert(step_at(self.profile, *signatures, canonical_name@, block.instructions@, trace, i as int, err_of(rr)));
                    }
                    match rr {
                        Ok(()) => {},
                        Err(x) => {
                            proof {
                                assert(block_run(
                                    self.profile,
                                    *signatures,
                                    canonical_name@,
                                    block.instructions@,
                                    trace,
                                    start,
                                    (*symbols, prior@, int_declarations@),
                                    Err::<BlockLowering, ErrView>(err_view(x)),
                                ));
                            }
                            return Err(x);
                        },
                    }
                },
            }
            i = i + 1;
        }
        let out = BlockLowering { name: canonical_name.clone(), statements: stmts, condition, targets };
        proof {
            assert(block_run(
                self.profile,
                *signatures,
                canonical_name@,
                block.instructions@,
                trace,
                start,
                (*symbols, prior@, int_declarations@),
                Ok::<BlockLowering, ErrView>(out),
            ));
        }
        Ok(out)
    }

    /// Lower one instruction other than a terminator, appending what it
    /// emits to `stmts`.
    fn lower_instr(
        &self,
        ins: &Instruction,
        canonical_name: &String,
        signatures: &SignatureTable,
        symbols: &mut SymbolTable,
        prior: &mut Vec<BlockLowering>,
        int_declarations: &mut Vec<Statement>,
        stmts: &mut Vec<Statement>,
    ) -> (r: Result<(), QirToQasmError>)
        requires
            old(symbols).wf(),
            signatures.wf(),
            self.profile.wf(),
            !is_terminator(*ins),
        ensures
            final(symbols).wf(),
            final(prior)@.len() == old(prior)@.len(),
            forall|j: int| 0 <= j < old(prior)@.len() ==> same_exit(#[trigger] final(prior)@[j], old(prior)@[j]),
            instr_step(
                self.profile,
                *signatures,
                canonical_name@,
                *ins,
                *old(symbols),
                old(prior)@,
                old(int_declarations)@,
                old(stmts)@,
                *final(symbols),
                final(prior)@,
                final(int_declarations)@,
                final(stmts)@,
                err_of(r),
            ),
    {
        match ins {
            Instruction::Call { callee, args, result, .. } => {
                let sig = match signatures.get(callee.as_str()) {
                    Some(s) => s,
                    None => {
                        let mut m: Vec<char> = Vec::new();
                        push_str(&mut m, "no signature for callee ");
                        push_debug_string(&mut m, callee);
                        push_str(&mut m, " in QIR source");
                        return Err(unsupported_err(&m));
                    },
                };
                let builder = match self.profile.get_builder(callee.as_str()) {
                    Some(b) => b,
                    None => {
                        let mut m: Vec<char> = Vec::new();
                        if sig.is_variadic {
                            push_str(&mut m, "variadic QIR function '");
                            push_string(&mut m, callee);
                            push_str(
                                &mut m,
                                "' is not supported; only 'generalizedInvokeWithRotationsControlsTargets' is; multi-controlled gates must be decomposed into single- and two-qubit gates before translation",
                            );
                        } else {
                            push_str(&mut m, "no builder registered for QIR function '");
                            push_string(&mut m, callee);
                            push_str(&mut m, "'; extend the Profile to support it");
                        }
                        return Err(unsupported_err(&m));
                    },
                };
                let variadic_allowed = match builder {
                    FunctionBuilder::RecordOutputNoop => true,
                    FunctionBuilder::GeneralizedControlled => true,
                    _ => false,
                };
                if sig.is_variadic && !variadic_allowed {
                    let mut m: Vec<char> = Vec::new();
                    push_str(&mut m, "QIR function ");
                    push_debug_string(&mut m, callee);
                    push_str(
                        &mut m,
                        " is variadic and cannot be lowered by the default dispatch; variadic lowering requires a specialized builder that inspects the runtime operand list",
                    );
                    return Err(unsupported_err(&m));
                }
                if !sig.is_variadic && args.len() != sig.param_types.len() {
                    return Err(arity_mismatch(callee, args.len(), sig.param_types.len()));
                }
                let res: Option<&str> = match result {
                    Some(r) => Some(r.as_str()),
                    None => None,
                };
                proof {
                    assert(crate::builders::retagged(sig.view_sig().param_types, *builder).len()
                        == sig.param_types@.len());
                }
                let out = lower_call(builder, sig, args.as_slice(), res, symbols);
                let ghost g = out;
                proof {
                    assert(opt_view(*result) == match res {
                        Some(k) => Some(k@),
                        None => None::<Seq<char>>,
                    });
                }
                match out {
                    Ok(new_stmts) => {
                        let mut ns = new_stmts;
                        stmts.append(&mut ns);
                    },
                    Err(x) => {
                        return Err(x);
                    },
                }
                proof {
                    assert(call_post(*builder, *sig, args@, opt_view(*result), *old(symbols), *symbols, g));
                }
            },
            Instruction::Icmp(c) => {
                return lower_icmp_i1(c.result.as_str(), c.predicate.0.as_str(), &c.lhs, &c.rhs, symbols);
            },
            Instruction::BinaryI1 { result, op, lhs, rhs } => {
                return lower_binary_i1(result.as_str(), *op, lhs, rhs, symbols);
            },
            Instruction::Select { result, value_type, cond, true_value, false_value } => {
                return lower_select_i1(result.as_str(), value_type.as_str(), cond, true_value, false_value, symbols);
            },
            Instruction::IntArith { result, op, lhs, rhs } => {
                return lower_int_arith(result.as_str(), *op, lhs, rhs, symbols);
            },
            Instruction::Phi { result, value_type, incomings } => {
                match self_pred(incomings, canonical_name) {
                    Some(j) => {
                        let mut m: Vec<char> = Vec::new();
                        push_str(&mut m, "loop-carried phi (predecessor ");
                        push_debug_string(&mut m, &incomings[j].pred);
                        push_str(&mut m, " is the phi's own block ");
                        push_debug_string(&mut m, canonical_name);
                        push_str(&mut m, ") is not supported");
                        return Err(unsupported_err(&m));
                    },
                    None => {},
                }
                if string_is(value_type, "i1") {
                    let conds = pred_conditions(prior);
                    proof {
                        assert(conds@.map_values(|c: (String, Expression)| (c.0@, c.1)) =~= conds_view(conds@));
                    }
                    return lower_phi_i1_short_circuit(result.as_str(), incomings.as_slice(), &conds, symbols);
                } else if string_is(value_type, "i64") || string_is(value_type, "i32") {
                    let out = lower_phi_integer(result, incomings, prior, int_declarations, symbols);
                    proof {
                        assert(phi_int_post(
                            result@,
                            incomings@,
                            old(prior)@,
                            prior@,
                            old(int_declarations)@,
                            int_declarations@,
                            *old(symbols),
                            *symbols,
                            out,
                        ));
                    }
                    return out;
                } else {
                    let mut m: Vec<char> = Vec::new();
                    push_str(&mut m, "phi ");
                    push_string(&mut m, value_type);
                    push_str(&mut m, " is not yet supported (SSA ");
                    push_debug_string(&mut m, result);
                    push_str(&mut m, "); only `phi i1` and `phi i32`/`phi i64` are lowered today");
                    return Err(unsupported_err(&m));
                }
            },
            Instruction::Ignored { .. } => {},
            Instruction::Alloca { result } => {
                symbols.record_alloca(result.as_str());
            },
            Instruction::BitcastAlias { result, src } => {
                if symbols.alias_offset_fits(src.as_str(), 0) {
                    symbols.record_alias(result.as_str(), src.as_str(), 0);
                }
            },
            Instruction::GetElementPtrOffset { result, src, offset } => {
                if symbols.alias_offset_fits(src.as_str(), *offset) {
                    symbols.record_alias(result.as_str(), src.as_str(), *offset);
                }
            },
            Instruction::Store { value, ptr } => {
                symbols.store_to_alloca_slot(ptr.as_str(), crate::ir::copy_operand(value));
            },
            Instruction::Load { result, ptr } => {
                match symbols.load_from_alloca_slot(ptr.as_str()) {
                    Some(e) => {
                        symbols.record_ssa(result.as_str(), e);
                    },
                    None => {},
                }
            },
            Instruction::Zext { result, src } => {
                match symbols.lookup_ssa(src.as_str()) {
                    Ok(e) => {
                        symbols.record_ssa(result.as_str(), e);
                    },
                    Err(x) => {
                        return Err(x);
                    },
                }
            },
            Instruction::Unsupported { opcode } => {
                let mut m: Vec<char> = Vec::new();
                push_str(&mut m, "unsupported LLVM instruction opcode ");
                push_debug_string(&mut m, opcode);
                push_str(&mut m, " in block ");
                push_debug_string(&mut m, canonical_name);
                return Err(unsupported_err(&m));
            },
            _ => {},
        }
        Ok(())
    }
}

/// The error for a call whose operand count differs from its signature.
fn arity_mismatch(callee: &String, supplied: usize, expected: usize) -> (r: QirToQasmError)
    ensures
        r is Unsupported,
        r.payload() == arity_msg(callee@, supplied as nat, expected as nat),
{
    let mut m: Vec<char> = Vec::new();
    push_str(&mut m, "arity mismatch calling ");
    push_debug_string(&mut m, callee);
    push_str(&mut m, ": IR supplied ");
    push_int(&mut m, supplied as i128);
    push_str(&mut m, " operand(s) but signature expects ");
    push_int(&mut m, expected as i128);
    unsupported_err(&m)
}

/// The error of a step that returns nothing.
pub open spec fn err_of(r: Result<(), QirToQasmError>) -> Option<ErrView> {
    match r {
        Ok(_) => None,
        Err(x) => Some(err_view(x)),
    }
}

/// `key` bound to the value `res` computes, or the error it fails with and
/// nothing changed.
pub open spec fn bound(
    s0: SymbolTable,
    s1: SymbolTable,
    key: Seq<char>,
    res: Result<Expression, ErrView>,
    err: Option<ErrView>,
) -> bool {
    match res {
        Ok(e) => err is None && with_bindings(s0, s1, entries_insert(s0.bindings(), key, e)),
        Err(ev) => err == Some(ev) && sym_same(s0, s1),
    }
}

/// The error for a call to a function the source does not declare.
pub open spec fn no_signature_msg(callee: Seq<char>) -> Seq<char> {
    "no signature for callee "@ + crate::text::str_debug_text(callee) + " in QIR source"@
}

/// The error for a call to a function with no builder.
pub open spec fn no_builder_msg(callee: Seq<char>, variadic: bool) -> Seq<char> {
    if variadic {
        "variadic QIR function '"@ + callee
            + "' is not supported; only 'generalizedInvokeWithRotationsControlsTargets' is; multi-controlled gates must be decomposed into single- and two-qubit gates before translation"@
    } else {
        "no builder registered for QIR function '"@ + callee + "'; extend the Profile to support it"@
    }
}

/// The error for a variadic call whose builder cannot take one.
pub open spec fn variadic_msg(callee: Seq<char>) -> Seq<char> {
    "QIR function "@ + crate::text::str_debug_text(callee)
        + " is variadic and cannot be lowered by the default dispatch; variadic lowering requires a specialized builder that inspects the runtime operand list"@
}

/// The error for a call whose operand count differs from its signature.
pub open spec fn arity_msg(callee: Seq<char>, supplied: nat, expected: nat) -> Seq<char> {
    "arity mismatch calling "@ + crate::text::str_debug_text(callee) + ": IR supplied "@ + crate::text::int_text(
        supplied as int,
    ) + " operand(s) but signature expects "@ + crate::text::int_text(expected as int)
}

/// The error for a phi that names its own block as a predecessor.
pub open spec fn loop_phi_msg(pred: Seq<char>, block: Seq<char>) -> Seq<char> {
    "loop-carried phi (predecessor "@ + crate::text::str_debug_text(pred) + " is the phi's own block "@
        + crate::text::str_debug_text(block) + ") is not supported"@
}

/// The error for a phi of a type other than `i1`, `i32` and `i64`.
pub open spec fn phi_type_msg(ty: Seq<char>, result: Seq<char>) -> Seq<char> {
    "phi "@ + ty + " is not yet supported (SSA "@ + crate::text::str_debug_text(result)
        + "); only `phi i1` and `phi i32`/`phi i64` are lowered today"@
}

/// The error for an instruction with no lowering.
pub open spec fn unsupported_opcode_msg(opcode: Seq<char>, block: Seq<char>) -> Seq<char> {
    "unsupported LLVM instruction opcode "@ + crate::text::str_debug_text(opcode) + " in block "@
        + crate::text::str_debug_text(block)
}

/// The first incoming at or after `from` whose predecessor is `block`.
pub open spec fn first_self_pred(incs: Seq<PhiIncoming>, block: Seq<char>, from: int) -> Option<int>
    decreases incs.len() - from,
{
    if from < 0 || from >= incs.len() {
        None
    } else if incs[from].pred@ == block {
        Some(from)
    } else {
        first_self_pred(incs, block, from + 1)
    }
}

/// The first incoming whose predecessor is the phi's own block.
fn self_pred(incomings: &Vec<PhiIncoming>, block: &String) -> (r: Option<usize>)
    ensures
        match r {
            Some(j) => first_self_pred(incomings@, block@, 0) == Some(j as int) && j < incomings@.len(),
            None => first_self_pred(incomings@, block@, 0) is None,
        },
{
    let mut j: usize = 0;
    while j < incomings.len()
        invariant
            j <= incomings@.len(),
            first_self_pred(incomings@, block@, 0) == first_self_pred(incomings@, block@, j as int),
        decreases incomings@.len() - j,
    {
        if incomings[j].pred == *block {
            return Some(j);
        }
        j = j + 1;
    }
    None
}

/// What aliasing `result` to `src` at `offset` does: nothing when the
/// offset would leave `u64`.
pub open spec fn alias_step(s0: SymbolTable, s1: SymbolTable, result: Seq<char>, src: Seq<char>, offset: u64) -> bool {
    if s0.alias(src) matches Some((_, b)) && b + offset > u64::MAX {
        sym_same(s0, s1)
    } else {
        with_aliases(
            s0,
            s1,
            entries_insert(
                s0.aliases(),
                result,
                match s0.alias(src) {
                    Some((root, b)) => (root, (b + offset) as u64),
                    None => (src, offset),
                },
            ),
        )
    }
}

/// What lowering one instruction other than a terminator does, in block
/// `block`: from symbol table `s0`, earlier lowerings `p0`, integer
/// declarations `d0` and emitted statements `t0` to `s1`, `p1`, `d1`,
/// `t1`, failing with `err` when it is `Some`.
pub open spec fn instr_step(
    profile: Profile,
    sigs: SignatureTable,
    block: Seq<char>,
    ins: Instruction,
    s0: SymbolTable,
    p0: Seq<BlockLowering>,
    d0: Seq<Statement>,
    t0: Seq<Statement>,
    s1: SymbolTable,
    p1: Seq<BlockLowering>,
    d1: Seq<Statement>,
    t1: Seq<Statement>,
    err: Option<ErrView>,
) -> bool {
    let keep = p1 == p0 && d1 == d0;
    let quiet = keep && t1 == t0;
    match ins {
        Instruction::Call { result, callee, args, .. } => match sigs.lookup(callee@) {
            None => err == Some(ErrView::Unsupported(no_signature_msg(callee@))) && sym_same(s0, s1) && quiet,
            Some(sig) => match lookup_builder(profile.entries(), callee@) {
                None => err == Some(ErrView::Unsupported(no_builder_msg(callee@, sig.is_variadic))) && sym_same(s0, s1)
                    && quiet,
                Some(b) => if sig.is_variadic && !(b is RecordOutputNoop || b is GeneralizedControlled) {
                    err == Some(ErrView::Unsupported(variadic_msg(callee@))) && sym_same(s0, s1) && quiet
                } else if !sig.is_variadic && args@.len() != sig.param_types@.len() {
                    err == Some(ErrView::Unsupported(arity_msg(callee@, args@.len(), sig.param_types@.len())))
                        && sym_same(s0, s1) && quiet
                } else {
                    keep && exists|r: Result<Vec<Statement>, QirToQasmError>|
                        #[trigger] call_post(b, sig, args@, opt_view(result), s0, s1, r) && match r {
                            Ok(v) => err is None && t1 == t0 + v@,
                            Err(x) => err == Some(err_view(x)) && t1 == t0,
                        }
                },
            },
        },
        Instruction::Icmp(c) => quiet && bound(s0, s1, c.result@, spec_icmp(s0, c.predicate.0@, c.lhs, c.rhs), err),
        Instruction::BinaryI1 { result, op, lhs, rhs } => quiet && bound(
            s0,
            s1,
            result@,
            spec_binary_i1(s0, op, lhs, rhs),
            err,
        ),
        Instruction::Select { result, value_type, cond, true_value, false_value } => quiet && bound(
            s0,
            s1,
            result@,
            spec_select(s0, value_type@, cond, true_value, false_value),
            err,
        ),
        Instruction::IntArith { result, op, lhs, rhs } => quiet && bound(
            s0,
            s1,
            result@,
            spec_int_arith(s0, op, lhs, rhs),
            err,
        ),
        Instruction::Phi { result, value_type, incomings } => match first_self_pred(incomings@, block, 0) {
            Some(j) => err == Some(ErrView::Unsupported(loop_phi_msg(incomings@[j].pred@, block))) && sym_same(s0, s1)
                && quiet,
            None => if value_type@ == "i1"@ {
                quiet && bound(s0, s1, result@, spec_phi_i1(s0, incomings@, all_pred_conditions(p0)), err)
            } else if value_type@ == "i64"@ || value_type@ == "i32"@ {
                t1 == t0 && exists|r: Result<(), QirToQasmError>|
                    #[trigger] phi_int_post(result@, incomings@, p0, p1, d0, d1, s0, s1, r) && err == err_of(r)
            } else {
                err == Some(ErrView::Unsupported(phi_type_msg(value_type@, result@))) && sym_same(s0, s1) && quiet
            },
        },
        Instruction::Ignored { .. } => err is None && sym_same(s0, s1) && quiet,
        Instruction::Alloca { result } => err is None && quiet && with_aliases(
            s0,
            s1,
            entries_insert(s0.aliases(), result@, (result@, 0u64)),
        ),
        Instruction::BitcastAlias { result, src } => err is None && quiet && alias_step(s0, s1, result@, src@, 0),
        Instruction::GetElementPtrOffset { result, src, offset } => err is None && quiet && alias_step(
            s0,
            s1,
            result@,
            src@,
            offset,
        ),
        Instruction::Store { value, ptr } => err is None && quiet && with_slots(
            s0,
            s1,
            match s0.alias(ptr@) {
                Some(k) => entries_insert(s0.slots(), k, value),
                None => s0.slots(),
            },
        ),
        Instruction::Load { result, ptr } => err is None && quiet && match s0.spec_load(ptr@) {
            Some(e) => with_bindings(s0, s1, entries_insert(s0.bindings(), result@, e)),
            None => sym_same(s0, s1),
        },
        Instruction::Zext { result, src } => quiet && bound(s0, s1, result@, spec_lookup(s0, src@), err),
        Instruction::Unsupported { opcode } => err == Some(ErrView::Unsupported(unsupported_opcode_msg(opcode@, block)))
            && sym_same(s0, s1) && quiet,
        _ => false,
    }
}

/// Where the lowering of the blocks stands between two blocks: the symbol
/// table, the lowerings so far and the integer declarations.
pub type BlocksState = (SymbolTable, Seq<BlockLowering>, Seq<Statement>);

/// The symbol table a translation starts from: nothing bound, no register
/// used.
pub open spec fn fresh_table(t: SymbolTable) -> bool {
    &&& t.wf()
    &&& t.qubit_max() == -1
    &&& t.result_max() == -1
    &&& t.bindings() == Seq::<(Seq<char>, Expression)>::empty()
    &&& t.aliases() == Seq::<(Seq<char>, (Seq<char>, u64))>::empty()
    &&& t.slots() == Seq::<((Seq<char>, u64), Operand)>::empty()
}

/// Block `a` of `blocks`, named `names[a]`, lowers along `tr[a]` from
/// `st[a]` to `st[a + 1]`, whose lowerings end with its own, named as the
/// block is and with the block's successors as targets.
pub open spec fn block_at(
    profile: Profile,
    sigs: SignatureTable,
    blocks: Seq<Block>,
    names: Seq<Seq<char>>,
    st: Seq<BlocksState>,
    tr: Seq<Seq<LowerState>>,
    a: int,
) -> bool {
    let s = st[a];
    let t = st[a + 1];
    &&& t.1.len() >= 1
    &&& t.1.last().name@ == names[a]
    &&& crate::cfg::names(t.1.last().targets@) == block_successors(blocks[a].instructions@)
    &&& block_run(
        profile,
        sigs,
        names[a],
        blocks[a].instructions@,
        tr[a],
        (s.0, s.1, s.2, Seq::empty()),
        (t.0, t.1.drop_last(), t.2),
        Ok(t.1.last()),
    )
}

/// Every block of `blocks` lowers in turn, from a fresh table with no
/// lowerings and no declarations, through the states `st`.
pub open spec fn blocks_run(
    profile: Profile,
    sigs: SignatureTable,
    blocks: Seq<Block>,
    st: Seq<BlocksState>,
    tr: Seq<Seq<LowerState>>,
) -> bool {
    &&& st.len() == blocks.len() + 1
    &&& tr.len() == blocks.len()
    &&& fresh_table(st[0].0)
    &&& st[0].1 == Seq::<BlockLowering>::empty()
    &&& st[0].2 == Seq::<Statement>::empty()
    &&& forall|a: int| 0 <= a < blocks.len() ==> #[trigger] block_at(profile, sigs, blocks, canonical_names(blocks), st, tr, a)
}

/// `body` is what structuring the lowerings `ls` gives: nothing when there
/// are none, else the statements of the one block left, named as the first,
/// at the end of a reduction that can go no further.
pub open spec fn cfg_body(ls: Seq<BlockLowering>, body: Seq<Statement>) -> bool {
    if ls.len() == 0 {
        body.len() == 0
    } else {
        exists|chain: Seq<Seq<BlockLowering>>|
            #[trigger] is_reduction(chain) && chain[0] == ls && irreducible(chain.last()) && chain.last().len() == 1
                && chain.last()[0].name@ == ls[0].name@ && body == chain.last()[0].statements@
    }
}

/// The register declaration for the highest index `max`, if one was used.
pub open spec fn qubit_decl_ok(stmts: Seq<Statement>, at: int, max: int) -> bool {
    max >= 0 ==> (stmts[at] matches Statement::QubitDeclaration { size, name } && size == max + 1 && name@
        == QUBIT_REGISTER@)
}

/// The result register declaration for the highest index `max`, if one was
/// used: an `output` declaration or a plain one.
pub open spec fn result_decl_ok(stmts: Seq<Statement>, at: int, max: int, output: bool) -> bool {
    max >= 0 ==> if output {
        stmts[at] matches Statement::IODeclaration { io_kind: IoKind::Output, bit_size, name } && bit_size == max + 1
            && name@ == RESULT_REGISTER@
    } else {
        stmts[at] matches Statement::ClassicalDeclaration { bit_size, name } && bit_size == max + 1 && name@
            == RESULT_REGISTER@
    }
}

/// The top-level statements: one `include` per file, the qubit and result
/// registers sized by the highest indices `s` saw, the integer
/// declarations `decls`, then `body`.
pub open spec fn program_layout(
    stmts: Seq<Statement>,
    files: Seq<String>,
    s: SymbolTable,
    output: bool,
    decls: Seq<Statement>,
    body: Seq<Statement>,
) -> bool {
    let k = files.len() as int;
    let nq: int = if s.qubit_max() >= 0 { 1 } else { 0 };
    let nr: int = if s.result_max() >= 0 { 1 } else { 0 };
    let h = k + nq + nr;
    &&& stmts.len() == h + decls.len() + body.len()
    &&& includes_first(stmts, files)
    &&& qubit_decl_ok(stmts, k, s.qubit_max() as int)
    &&& result_decl_ok(stmts, k + nq, s.result_max() as int, output)
    &&& stmts.subrange(h, h + decls.len()) == decls
    &&& stmts.subrange(h + decls.len(), stmts.len() as int) == body
}

/// `p` is the translation of `module`'s entry point under `profile`: the
/// signatures `sigs` are those the source declares, the block labels are
/// distinct and every branch names a block, the blocks lower in turn
/// through `st` along `tr` with both register maxima below `i64::MAX`,
/// their lowerings structure into `body`, and the program lays out the
/// includes `files`, the registers, the integer declarations and `body`.
pub open spec fn translated(
    profile: Profile,
    files: Seq<String>,
    output: bool,
    module: Module,
    sigs: SignatureTable,
    st: Seq<BlocksState>,
    tr: Seq<Seq<LowerState>>,
    body: Seq<Statement>,
    p: Program,
) -> bool {
    let lines = spec_line_signatures(split_lines(module.source_text@));
    let blocks = module.functions@[module.entry_index().unwrap()].blocks@;
    &&& module.entry_index() is Some
    &&& sigs.wf()
    &&& lines is Ok
    &&& entries_view(sigs.entries()) == insert_signatures(Seq::empty(), lines->Ok_0)
    &&& labels_distinct(blocks)
    &&& branches_closed(blocks)
    &&& blocks_run(profile, sigs, blocks, st, tr)
    &&& st.last().0.qubit_max() < i64::MAX
    &&& st.last().0.result_max() < i64::MAX
    &&& cfg_body(st.last().1, body)
    &&& p.version@ == "3.0"@
    &&& program_layout(p.statements@, files, st.last().0, output, st.last().2, body)
}

/// The first `k` blocks of `blocks` lower in turn, from a fresh table with
/// no lowerings and no declarations, through the states `st`.
pub open spec fn blocks_upto(
    profile: Profile,
    sigs: SignatureTable,
    blocks: Seq<Block>,
    st: Seq<BlocksState>,
    tr: Seq<Seq<LowerState>>,
    k: int,
) -> bool {
    &&& 0 <= k <= blocks.len()
    &&& st.len() == k + 1
    &&& tr.len() == k
    &&& fresh_table(st[0].0)
    &&& st[0].1 == Seq::<BlockLowering>::empty()
    &&& st[0].2 == Seq::<Statement>::empty()
    &&& forall|a: int| 0 <= a < k ==> #[trigger] block_at(profile, sigs, blocks, canonical_names(blocks), st, tr, a)
}

/// `sigs` holds the signatures that `module`'s source declares.
pub open spec fn sigs_of(module: Module, sigs: SignatureTable) -> bool {
    let lines = spec_line_signatures(split_lines(module.source_text@));
    &&& sigs.wf()
    &&& lines is Ok
    &&& entries_view(sigs.entries()) == insert_signatures(Seq::empty(), lines->Ok_0)
}

/// Block `k` fails with `e` along `trace`, the blocks before it having
/// lowered through `st`.
pub open spec fn block_fails(
    profile: Profile,
    sigs: SignatureTable,
    blocks: Seq<Block>,
    st: Seq<BlocksState>,
    tr: Seq<Seq<LowerState>>,
    trace: Seq<LowerState>,
    k: int,
    e: ErrView,
) -> bool {
    let s = st.last();
    let t = trace.last();
    &&& blocks_upto(profile, sigs, blocks, st, tr, k)
    &&& k < blocks.len()
    &&& block_run(
        profile,
        sigs,
        canonical_names(blocks)[k],
        blocks[k].instructions@,
        trace,
        (s.0, s.1, s.2, Seq::empty()),
        (t.0, t.1, t.2),
        Err(e),
    )
}

/// Structuring the lowerings `ls` stops before a single block named as
/// the first one is left, failing with `e`, which lists the names of the
/// blocks left, sorted.
pub open spec fn cfg_fails(ls: Seq<BlockLowering>, e: ErrView) -> bool {
    &&& ls.len() > 0
    &&& exists|chain: Seq<Seq<BlockLowering>>|
        #[trigger] is_reduction(chain) && chain[0] == ls && irreducible(chain.last()) && !(chain.last().len() == 1
            && chain.last()[0].name@ == ls[0].name@) && exists|ss: Seq<Seq<char>>|
            #[trigger] sorted_names_of(ss, chain.last()) && e == ErrView::UnsupportedCfg(cfg_fail_msg(ss))
}

/// The message for a module with no entry point.
pub open spec fn no_entry_msg() -> Seq<char> {
    "no entry-point function found; QIR modules must have a function tagged with the 'entry_point' attribute"@
}

/// Once every block of `blocks` has lowered, ending in `s` with the
/// lowerings `ls`, the translation fails with `e`: a branch names no
/// block, structuring fails, or a register index is too large to size its
/// register.
pub open spec fn later_fails(blocks: Seq<Block>, s: SymbolTable, ls: Seq<BlockLowering>, e: ErrView) -> bool {
    ||| !branches_closed(blocks) && exists|a: int, k: int|
        #![trigger block_successors(blocks[a].instructions@)[k]]
        0 <= a < blocks.len() && 0 <= k < block_successors(blocks[a].instructions@).len() && !canonical_names(
            blocks,
        ).contains(block_successors(blocks[a].instructions@)[k]) && e == ErrView::Syntax(
            bad_target_msg(block_successors(blocks[a].instructions@)[k], canonical_names(blocks)[a]),
        )
    ||| branches_closed(blocks) && cfg_fails(ls, e)
    ||| branches_closed(blocks) && (exists|body: Seq<Statement>| #[trigger] cfg_body(ls, body)) && (if s.qubit_max()
        == i64::MAX {
        e == ErrView::Unsupported("qubit index too large to size the qubit register"@)
    } else {
        s.result_max() == i64::MAX && e == ErrView::Unsupported("result index too large to size the result register"@)
    })
}

/// Why translating `module`'s entry point under `profile` fails with `e`:
/// its signatures do not parse, it has no entry point, two blocks share a
/// label, a block fails to lower, or a later stage fails.
pub open spec fn translation_fails(profile: Profile, module: Module, e: ErrView) -> bool {
    let lines = spec_line_signatures(split_lines(module.source_text@));
    let blocks = module.functions@[module.entry_index().unwrap()].blocks@;
    ||| lines matches Err(m) && e == ErrView::Syntax(m)
    ||| lines is Ok && module.entry_index() is None && e == ErrView::Syntax(no_entry_msg())
    ||| lines is Ok && module.entry_index() is Some && !labels_distinct(blocks) && exists|a: int, b: int|
        #![trigger canonical_names(blocks)[a], canonical_names(blocks)[b]]
        0 <= a < b < blocks.len() && canonical_names(blocks)[a] == canonical_names(blocks)[b] && e == ErrView::Syntax(
            dup_label_msg(canonical_names(blocks)[a]),
        )
    ||| lines is Ok && module.entry_index() is Some && labels_distinct(blocks) && exists|
        sigs: SignatureTable,
        st: Seq<BlocksState>,
        tr: Seq<Seq<LowerState>>,
        trace: Seq<LowerState>,
        k: int,
    | #[trigger] block_fails(profile, sigs, blocks, st, tr, trace, k, e) && sigs_of(module, sigs)
    ||| lines is Ok && module.entry_index() is Some && labels_distinct(blocks) && exists|
        sigs: SignatureTable,
        st: Seq<BlocksState>,
        tr: Seq<Seq<LowerState>>,
    | #[trigger] blocks_run(profile, sigs, blocks, st, tr) && sigs_of(module, sigs) && later_fails(
        blocks,
        st.last().0,
        st.last().1,
        e,
    )
}

/// `p` is a translation of `module`'s entry point under `profile`, with
/// the includes `files` and `output` declarations when `output` holds.
pub open spec fn translation_of(profile: Profile, files: Seq<String>, output: bool, module: Module, p: Program) -> bool {
    exists|sigs: SignatureTable, st: Seq<BlocksState>, tr: Seq<Seq<LowerState>>, body: Seq<Statement>|
        #[trigger] translated(profile, files, output, module, sigs, st, tr, body, p)
}

/// A point in the lowering of a block: the symbol table, the earlier
/// lowerings, the integer declarations and the statements emitted so far.
pub type LowerState = (SymbolTable, Seq<BlockLowering>, Seq<Statement>, Seq<Statement>);

/// Instruction `i` of `instrs` is no terminator and takes `trace[i]` to
/// `trace[i + 1]`, failing with `err` when it is `Some`.
pub open spec fn step_at(
    profile: Profile,
    sigs: SignatureTable,
    block: Seq<char>,
    instrs: Seq<Instruction>,
    trace: Seq<LowerState>,
    i: int,
    err: Option<ErrView>,
) -> bool {
    &&& 0 <= i < instrs.len()
    &&& i + 1 < trace.len()
    &&& !is_terminator(instrs[i])
    &&& instr_step(
        profile,
        sigs,
        block,
        instrs[i],
        trace[i].0,
        trace[i].1,
        trace[i].2,
        trace[i].3,
        trace[i + 1].0,
        trace[i + 1].1,
        trace[i + 1].2,
        trace[i + 1].3,
        err,
    )
}

/// The first `k` instructions each succeed, from one state of `trace` to
/// the next.
pub open spec fn steps_ok(
    profile: Profile,
    sigs: SignatureTable,
    block: Seq<char>,
    instrs: Seq<Instruction>,
    trace: Seq<LowerState>,
    k: int,
) -> bool {
    forall|i: int| 0 <= i < k ==> #[trigger] step_at(profile, sigs, block, instrs, trace, i, None)
}

proof fn lemma_steps_push(
    profile: Profile,
    sigs: SignatureTable,
    block: Seq<char>,
    instrs: Seq<Instruction>,
    t0: Seq<LowerState>,
    t1: Seq<LowerState>,
    k: int,
)
    requires
        steps_ok(profile, sigs, block, instrs, t0, k),
        t1.len() == t0.len() + 1,
        k + 1 == t0.len(),
        forall|j: int| 0 <= j < t0.len() ==> t1[j] == t0[j],
    ensures
        steps_ok(profile, sigs, block, instrs, t1, k),
{
    assert forall|i: int| 0 <= i < k implies #[trigger] step_at(profile, sigs, block, instrs, t1, i, None) by {
        assert(step_at(profile, sigs, block, instrs, t0, i, None));
        assert(t1[i] == t0[i] && t1[i + 1] == t0[i + 1]);
    }
}

/// How the lowering of a block that succeeded ends, after the last state
/// of `trace`: at the block's end with no condition, or at a terminator,
/// whose condition is the looked-up SSA or the constant it branches on.
pub open spec fn ok_end(instrs: Seq<Instruction>, trace: Seq<LowerState>, condition: Option<Expression>) -> bool {
    let n = trace.len() - 1;
    let s = trace.last().0;
    if n >= instrs.len() {
        condition is None
    } else {
        &&& is_terminator(instrs[n])
        &&& match instrs[n] {
            Instruction::BrCond { cond, .. } => condition == Some(
                match cond {
                    BrCondOperand::Ssa(id) => s.binding(id@).unwrap(),
                    BrCondOperand::Const(b) => Expression::Boolean(b),
                },
            ),
            _ => condition is None,
        }
    }
}

/// `i` branches on an SSA name that `s` does not bind, and `e` says so.
pub open spec fn unbound_branch(i: Instruction, s: SymbolTable, e: ErrView) -> bool {
    match i {
        Instruction::BrCond { cond: BrCondOperand::Ssa(id), .. } => s.binding(id@) is None && e
            == ErrView::Unsupported(unbound_ssa_msg(id@)),
        _ => false,
    }
}

/// The outcome of lowering a block, with the error as plain values.
pub open spec fn lowered(r: Result<BlockLowering, QirToQasmError>) -> Result<BlockLowering, ErrView> {
    match r {
        Ok(b) => Ok(b),
        Err(x) => Err(err_view(x)),
    }
}

/// What lowering the block `instrs`, named `block`, from `start` does:
/// `trace` runs from `start` through one state per instruction before the
/// first terminator, each step succeeding but the last when the block
/// fails; `end` is the symbol table, lowerings and declarations left.
/// The block fails at a step, or at a conditional branch on an SSA name
/// with no binding; it succeeds with the statements of the last state.
pub open spec fn block_run(
    profile: Profile,
    sigs: SignatureTable,
    block: Seq<char>,
    instrs: Seq<Instruction>,
    trace: Seq<LowerState>,
    start: LowerState,
    end: (SymbolTable, Seq<BlockLowering>, Seq<Statement>),
    r: Result<BlockLowering, ErrView>,
) -> bool {
    let n = trace.len() - 1;
    let last = trace.last();
    &&& 1 <= trace.len() <= instrs.len() + 1
    &&& trace[0] == start
    &&& end == (last.0, last.1, last.2)
    &&& match r {
        Ok(b) => {
            &&& steps_ok(profile, sigs, block, instrs, trace, n)
            &&& b.statements@ == last.3
            &&& ok_end(instrs, trace, b.condition)
        },
        Err(e) => {
            ||| (n >= 1 && steps_ok(profile, sigs, block, instrs, trace, n - 1) && step_at(
                profile,
                sigs,
                block,
                instrs,
                trace,
                n - 1,
                Some(e),
            ))
            ||| (steps_ok(profile, sigs, block, instrs, trace, n) && n < instrs.len() && unbound_branch(
                instrs[n],
                last.0,
                e,
            ))
        },
    }
}

/// Whether `i` ends a block.
pub open spec fn is_terminator(i: Instruction) -> bool {
    i is Br || i is BrCond || i is Ret
}

/// The first terminator at or after position `k`, if any.
pub open spec fn first_terminator(instrs: Seq<Instruction>, k: int) -> Option<Instruction>
    decreases instrs.len() - k,
{
    if k < 0 || k >= instrs.len() {
        None
    } else if is_terminator(instrs[k]) {
        Some(instrs[k])
    } else {
        first_terminator(instrs, k + 1)
    }
}

/// Whether no instruction without a lowering comes before the first
/// terminator at or after position `k`.
pub open spec fn supported_until_exit(instrs: Seq<Instruction>, k: int) -> bool
    decreases instrs.len() - k,
{
    if k < 0 || k >= instrs.len() {
        true
    } else if is_terminator(instrs[k]) {
        true
    } else {
        !(instrs[k] is Unsupported) && supported_until_exit(instrs, k + 1)
    }
}

/// [`first_terminator`] from a machine index.
pub open spec fn terminator_from(instrs: Seq<Instruction>, k: usize) -> Option<Instruction> {
    first_terminator(instrs, k as int)
}

/// [`supported_until_exit`] from a machine index.
pub open spec fn supported_from(instrs: Seq<Instruction>, k: usize) -> bool {
    supported_until_exit(instrs, k as int)
}

/// The successors a block names: none after `ret` or without a terminator,
/// the target of `br`, the true then the false target of `br i1`.
pub open spec fn block_successors(instrs: Seq<Instruction>) -> Seq<Seq<char>> {
    match first_terminator(instrs, 0) {
        Some(Instruction::Br { target }) => seq![target@],
        Some(Instruction::BrCond { true_target, false_target, .. }) => seq![true_target@, false_target@],
        _ => Seq::empty(),
    }
}

/// The canonical names of a function's blocks, in order.
pub open spec fn canonical_names(blocks: Seq<Block>) -> Seq<Seq<char>> {
    Seq::new(blocks.len(), |i: int| canonical_block_name(blocks[i].name@, i))
}

/// Whether no two blocks share a canonical name.
pub open spec fn labels_distinct(blocks: Seq<Block>) -> bool {
    forall|a: int, b: int| 0 <= a < b < blocks.len() ==> canonical_names(blocks)[a] != canonical_names(blocks)[b]
}

/// Whether every successor a block names is the canonical name of a block.
pub open spec fn branches_closed(blocks: Seq<Block>) -> bool {
    forall|a: int, k: int|
        0 <= a < blocks.len() && 0 <= k < block_successors(blocks[a].instructions@).len() ==> canonical_names(
            blocks,
        ).contains(#[trigger] block_successors(blocks[a].instructions@)[k])
}

/// `include "f";` for the file `f`.
pub open spec fn is_include_of(s: Statement, f: Seq<char>) -> bool {
    s matches Statement::Include(p) && p@ == f
}

/// Whether the statements begin with one `include` per file, in order.
pub open spec fn includes_first(stmts: Seq<Statement>, files: Seq<String>) -> bool {
    stmts.len() >= files.len() && forall|m: int| 0 <= m < files.len() ==> is_include_of(#[trigger] stmts[m], files[m]@)
}

/// The QIR profile of a module's entry point, if it declares one.
pub open spec fn entry_profile(m: Module) -> Option<Seq<char>> {
    match m.entry_index() {
        Some(i) => match m.functions@[i].qir_profile {
            Some(p) => Some(p@),
            None => None,
        },
        None => None,
    }
}

/// The branching conditions of the blocks lowered so far, by name.
fn pred_conditions(prior: &Vec<BlockLowering>) -> (r: Vec<(String, Expression)>)
    ensures
        conds_view(r@) == all_pred_conditions(prior@),
{
    let mut out: Vec<(String, Expression)> = Vec::new();
    let mut i: usize = 0;
    while i < prior.len()
        invariant
            i <= prior@.len(),
            conds_view(out@) == spec_pred_conditions(prior@, i as int),
        decreases prior@.len() - i,
    {
        match &prior[i].condition {
            Some(c) => {
                let ghost o = out@;
                out.push((prior[i].name.clone(), copy_expr(c)));
                proof {
                    assert(conds_view(out@) =~= conds_view(o).push((prior@[i as int].name@, *c)));
                }
            },
            None => {},
        }
        i = i + 1;
    }
    out
}

/// The branching conditions as plain values.
pub open spec fn conds_view(v: Seq<(String, Expression)>) -> Seq<(Seq<char>, Expression)> {
    v.map_values(|c: (String, Expression)| (c.0@, c.1))
}

/// The names and conditions of the lowerings that branch on one.
pub open spec fn all_pred_conditions(prior: Seq<BlockLowering>) -> Seq<(Seq<char>, Expression)> {
    spec_pred_conditions(prior, prior.len() as int)
}

/// The names and conditions of the first `k` lowerings that branch on one.
pub open spec fn spec_pred_conditions(prior: Seq<BlockLowering>, k: int) -> Seq<(Seq<char>, Expression)>
    decreases k,
{
    if k <= 0 {
        Seq::empty()
    } else {
        let c = spec_pred_conditions(prior, k - 1);
        match prior[k - 1].condition {
            Some(e) => c.push((prior[k - 1].name@, e)),
            None => c,
        }
    }
}

// ---------------------------------------------------------------------------
// Block names
// ---------------------------------------------------------------------------

/// The canonical name of block `i` with source label `name`: the label, or
/// the block's position when it has none.
pub open spec fn canonical_block_name(name: Seq<char>, i: int) -> Seq<char> {
    if name.len() > 0 {
        name
    } else {
        crate::text::int_text(i)
    }
}

/// Canonical names for every block, in order.
pub fn assign_block_names(blocks: &Vec<Block>) -> (r: Vec<String>)
    ensures
        r@.len() == blocks@.len(),
        forall|i: int| 0 <= i < r@.len() ==> #[trigger] r@[i]@ == canonical_block_name(blocks@[i].name@, i),
{
    let mut out: Vec<String> = Vec::new();
    let mut i: usize = 0;
    while i < blocks.len()
        invariant
            i <= blocks@.len(),
            out@.len() == i,
            forall|k: int| 0 <= k < i ==> #[trigger] out@[k]@ == canonical_block_name(blocks@[k].name@, k),
        decreases blocks@.len() - i,
    {
        let n = chars_of_string(&blocks[i].name);
        if n.len() > 0 {
            out.push(blocks[i].name.clone());
        } else {
            let mut v: Vec<char> = Vec::new();
            push_int(&mut v, i as i128);
            out.push(string_of(&v));
        }
        i = i + 1;
    }
    out
}

/// Whether the names are pairwise distinct.
pub open spec fn names_distinct(v: Seq<String>) -> bool {
    forall|i: int, j: int| 0 <= i < j < v.len() ==> v[i]@ != v[j]@
}

/// The error for a label two blocks share.
pub open spec fn dup_label_msg(label: Seq<char>) -> Seq<char> {
    "duplicate block label %"@ + label + " in the entry-point function"@
}

/// The error for a branch from block `block` to a label no block has.
pub open spec fn bad_target_msg(target: Seq<char>, block: Seq<char>) -> Seq<char> {
    "branch target %"@ + target + " in block "@ + str_debug_text(block) + " does not name a block of the entry-point function"@
}

/// Reject two blocks with the same label.
fn check_block_names(names: &Vec<String>) -> (r: Result<(), QirToQasmError>)
    ensures
        r is Ok <==> names_distinct(names@),
        r matches Err(e) ==> e is Syntax && exists|a: int, b: int|
            #![trigger names@[a], names@[b]]
            0 <= a < b < names@.len() && names@[a]@ == names@[b]@ && e.payload() == dup_label_msg(names@[a]@),
{
    let mut i: usize = 0;
    while i < names.len()
        invariant
            i <= names@.len(),
            forall|a: int, b: int| 0 <= a < b < names@.len() && a < i ==> names@[a]@ != names@[b]@,
        decreases names@.len() - i,
    {
        let mut j: usize = i + 1;
        while j < names.len()
            invariant
                i < names@.len(),
                i + 1 <= j <= names@.len(),
                forall|a: int, b: int| 0 <= a < b < names@.len() && a < i ==> names@[a]@ != names@[b]@,
                forall|b: int| i < b < j ==> names@[i as int]@ != names@[b]@,
            decreases names@.len() - j,
        {
            if names[i] == names[j] {
                let mut m: Vec<char> = Vec::new();
                push_str(&mut m, "duplicate block label %");
                push_string(&mut m, &names[i]);
                push_str(&mut m, " in the entry-point function");
                proof {
                    assert(names@[i as int]@ == names@[j as int]@);
                }
                return Err(syntax_err(&m));
            }
            j = j + 1;
        }
        i = i + 1;
    }
    Ok(())
}

/// Every branch target names a block.
pub open spec fn targets_closed(bs: Seq<BlockLowering>, labels: Seq<Seq<char>>) -> bool {
    forall|i: int, k: int|
        0 <= i < bs.len() && 0 <= k < bs[i].targets@.len() ==> labels.contains(#[trigger] bs[i].targets@[k]@)
}

/// Reject a branch to a label that no block carries.
fn check_branch_targets(bs: &Vec<BlockLowering>, names: &Vec<String>) -> (r: Result<(), QirToQasmError>)
    ensures
        r matches Err(e) ==> e is Syntax && exists|a: int, k: int|
            0 <= a < bs@.len() && 0 <= k < bs@[a].targets@.len() && !crate::cfg::names(names@).contains(
                #[trigger] bs@[a].targets@[k]@,
            ) && e.payload() == bad_target_msg(bs@[a].targets@[k]@, bs@[a].name@),
        r is Ok <==> targets_closed(bs@, crate::cfg::names(names@)),
{
    let ghost labels = crate::cfg::names(names@);
    let mut i: usize = 0;
    while i < bs.len()
        invariant
            i <= bs@.len(),
            labels == crate::cfg::names(names@),
            forall|a: int, k: int|
                0 <= a < i && 0 <= k < bs@[a].targets@.len() ==> labels.contains(#[trigger] bs@[a].targets@[k]@),
        decreases bs@.len() - i,
    {
        let mut k: usize = 0;
        while k < bs[i].targets.len()
            invariant
                i < bs@.len(),
                k <= bs@[i as int].targets@.len(),
                labels == crate::cfg::names(names@),
                forall|a: int, kk: int|
                    0 <= a < i && 0 <= kk < bs@[a].targets@.len() ==> labels.contains(#[trigger] bs@[a].targets@[kk]@),
                forall|kk: int| 0 <= kk < k ==> labels.contains(#[trigger] bs@[i as int].targets@[kk]@),
            decreases bs@[i as int].targets@.len() - k,
        {
            let t = &bs[i].targets[k];
            let mut found = false;
            let mut j: usize = 0;
            while j < names.len()
                invariant
                    j <= names@.len(),
                    labels == crate::cfg::names(names@),
                    found <==> labels.subrange(0, j as int).contains(t@),
                decreases names@.len() - j,
            {
                proof {
                    let s0 = labels.subrange(0, j as int);
                    let s1 = labels.subrange(0, j + 1);
                    assert(s1 =~= s0.push(names@[j as int]@));
                    if s0.contains(t@) {
                        let w = choose|w: int| 0 <= w < s0.len() && s0[w] == t@;
                        assert(s1[w] == t@);
                    }
                    if s1.contains(t@) {
                        let w = choose|w: int| 0 <= w < s1.len() && s1[w] == t@;
                        if w < j {
                            assert(s0[w] == t@);
                        }
                    }
                    if names@[j as int]@ == t@ {
                        assert(s1[j as int] == t@);
                    }
                }
                if names[j] == *t {
                    found = true;
                }
                j = j + 1;
            }
            proof {
                assert(labels.subrange(0, names@.len() as int) =~= labels);
            }
            if !found {
                let mut m: Vec<char> = Vec::new();
                push_str(&mut m, "branch target %");
                push_string(&mut m, t);
                push_str(&mut m, " in block ");
                push_debug_string(&mut m, &bs[i].name);
                push_str(&mut m, " does not name a block of the entry-point function");
                return Err(syntax_err(&m));
            }
            k = k + 1;
        }
        i = i + 1;
    }
    Ok(())
}

// ---------------------------------------------------------------------------
// Integer phi merges
// ---------------------------------------------------------------------------

/// An integer phi incoming as an expression: integer constants that fit
/// `i64`, Booleans as `0`/`1`, and SSA values.
pub open spec fn spec_phi_int_operand(t: SymbolTable, op: Operand) -> Result<Expression, crate::error::ErrView> {
    match op {
        Operand::ConstInt(n) => if i64::MIN <= n <= i64::MAX {
            Ok(Expression::Integer(n as i64))
        } else {
            Err(crate::error::ErrView::Unsupported("phi integer incoming constant "@ + crate::text::int_text(n as int) + " does not fit in i64"@))
        },
        Operand::ConstBool(b) => Ok(Expression::Integer(if b { 1 } else { 0 })),
        Operand::Ssa(id) => crate::boolean::spec_lookup(t, id@),
        _ => Err(crate::error::ErrView::Unsupported("phi integer incoming must be a constant or SSA reference, got "@ + crate::ir::model::operand_debug_text(op))),
    }
}

fn resolve_phi_integer_operand(op: &Operand, symbols: &SymbolTable) -> (r: Result<Expression, QirToQasmError>)
    requires
        symbols.wf(),
    ensures
        crate::error::res_view(r, |e: Expression| e) == spec_phi_int_operand(*symbols, *op),
{
    match op {
        Operand::ConstInt(n) => {
            if i64::MIN as i128 <= *n && *n <= i64::MAX as i128 {
                Ok(Expression::Integer(*n as i64))
            } else {
                let mut m: Vec<char> = Vec::new();
                push_str(&mut m, "phi integer incoming constant ");
                push_int(&mut m, *n);
                push_str(&mut m, " does not fit in i64");
                Err(unsupported_err(&m))
            }
        },
        Operand::ConstBool(b) => Ok(Expression::Integer(if *b { 1 } else { 0 })),
        Operand::Ssa(id) => symbols.lookup_ssa(id.as_str()),
        _ => {
            let mut m: Vec<char> = Vec::new();
            push_str(&mut m, "phi integer incoming must be a constant or SSA reference, got ");
            crate::ir::model::push_operand_debug(&mut m, op);
            Err(unsupported_err(&m))
        },
    }
}

/// Whether `decls` declares an `int` variable named `name`.
pub open spec fn declares_int(decls: Seq<Statement>, name: Seq<char>) -> bool {
    exists|i: int| 0 <= i < decls.len() && #[trigger] is_int_decl_of(decls[i], name)
}

/// Whether `s` declares an `int` variable named `name`.
pub open spec fn is_int_decl_of(s: Statement, name: Seq<char>) -> bool {
    s matches Statement::IntDeclaration { name: n, .. } && n@ == name
}

fn is_declared_int_var(decls: &Vec<Statement>, name: &String) -> (r: bool)
    ensures
        r == declares_int(decls@, name@),
{
    let mut i: usize = 0;
    while i < decls.len()
        invariant
            i <= decls@.len(),
            forall|k: int| 0 <= k < i ==> !#[trigger] is_int_decl_of(decls@[k], name@),
        decreases decls@.len() - i,
    {
        match &decls[i] {
            Statement::IntDeclaration { name: n, .. } => {
                if *n == *name {
                    proof {
                        assert(is_int_decl_of(decls@[i as int], name@));
                    }
                    return true;
                }
            },
            _ => {},
        }
        i = i + 1;
    }
    false
}

/// Whether the update is the variable itself (`var = var;` is a no-op).
pub open spec fn spec_identity_update(e: Expression, var: Seq<char>) -> bool {
    e matches Expression::Identifier(n) && n@ == var
}

fn is_identity_update(e: &Expression, var: &String) -> (r: bool)
    ensures
        r == spec_identity_update(*e, var@),
{
    match e {
        Expression::Identifier(n) => *n == *var,
        _ => false,
    }
}

/// The position of the first lowering at or after `from` named `name`.
pub open spec fn first_named(prior: Seq<BlockLowering>, name: Seq<char>, from: int) -> Option<int>
    decreases prior.len() - from,
{
    if from < 0 || from >= prior.len() {
        None
    } else if prior[from].name@ == name {
        Some(from)
    } else {
        first_named(prior, name, from + 1)
    }
}

proof fn lemma_first_named(prior: Seq<BlockLowering>, name: Seq<char>, from: int)
    requires
        0 <= from,
    ensures
        first_named(prior, name, from) matches Some(i) ==> from <= i < prior.len() && prior[i].name@ == name,
    decreases prior.len() - from,
{
    if from < prior.len() && prior[from].name@ != name {
        lemma_first_named(prior, name, from + 1);
    }
}

fn find_lowering(prior: &Vec<BlockLowering>, name: &String) -> (r: Option<usize>)
    ensures
        r matches Some(i) ==> i < prior@.len() && prior@[i as int].name@ == name@,
        match r {
            Some(i) => first_named(prior@, name@, 0) == Some(i as int),
            None => first_named(prior@, name@, 0) is None,
        },
{
    let mut i: usize = 0;
    while i < prior.len()
        invariant
            i <= prior@.len(),
            first_named(prior@, name@, 0) == first_named(prior@, name@, i as int),
        decreases prior@.len() - i,
    {
        if prior[i].name == *name {
            return Some(i);
        }
        i = i + 1;
    }
    None
}

/// The `0`/`1` an integer phi incoming denotes, if it is such a constant.
pub open spec fn spec_as_bit(op: Operand) -> Option<bool> {
    match op {
        Operand::ConstInt(n) => if n == 0 {
            Some(false)
        } else if n == 1 {
            Some(true)
        } else {
            None
        },
        Operand::ConstBool(b) => Some(b),
        _ => None,
    }
}

fn as_bit(op: &Operand) -> (r: Option<bool>)
    ensures
        r == spec_as_bit(*op),
{
    match op {
        Operand::ConstInt(n) => {
            if *n == 0 {
                Some(false)
            } else if *n == 1 {
                Some(true)
            } else {
                None
            }
        },
        Operand::ConstBool(b) => Some(*b),
        _ => None,
    }
}

/// Whether the first lowering named `name` is an empty block that ends in
/// an unconditional branch.
pub open spec fn spec_landing_pad(prior: Seq<BlockLowering>, name: Seq<char>) -> bool {
    match first_named(prior, name, 0) {
        Some(i) => prior[i].condition is None && prior[i].statements@.len() == 0 && prior[i].targets@.len() == 1,
        None => false,
    }
}

/// Whether `b` branches conditionally to both `p0` and `p1`.
pub open spec fn joins(b: BlockLowering, p0: Seq<char>, p1: Seq<char>) -> bool {
    &&& b.condition is Some
    &&& b.targets@.len() == 2
    &&& (b.targets@[0]@ == p0 || b.targets@[1]@ == p0)
    &&& (b.targets@[0]@ == p1 || b.targets@[1]@ == p1)
}

/// The first lowering at or after `from` that branches conditionally to
/// both `p0` and `p1`.
pub open spec fn first_join(prior: Seq<BlockLowering>, p0: Seq<char>, p1: Seq<char>, from: int) -> Option<int>
    decreases prior.len() - from,
{
    if from < 0 || from >= prior.len() {
        None
    } else if joins(prior[from], p0, p1) {
        Some(from)
    } else {
        first_join(prior, p0, p1, from + 1)
    }
}

proof fn lemma_first_join(prior: Seq<BlockLowering>, p0: Seq<char>, p1: Seq<char>, from: int)
    requires
        0 <= from,
    ensures
        first_join(prior, p0, p1, from) matches Some(i) ==> from <= i < prior.len() && joins(prior[i], p0, p1),
    decreases prior.len() - from,
{
    if from < prior.len() && !joins(prior[from], p0, p1) {
        lemma_first_join(prior, p0, p1, from + 1);
    }
}

/// What `phi iN [A, %p0], [B, %p1]` is bound to when both predecessors are
/// empty landing pads of one conditional branch and `(A, B)` is `(0, 1)`
/// or `(1, 0)`: the branch condition, or `1 - condition` when the `1`
/// comes through the false target.
pub open spec fn spec_landing_bind(incomings: Seq<PhiIncoming>, prior: Seq<BlockLowering>) -> Option<Expression> {
    let v0 = spec_as_bit(incomings[0].value);
    let v1 = spec_as_bit(incomings[1].value);
    let p0 = incomings[0].pred@;
    let p1 = incomings[1].pred@;
    if v0 is Some && v1 is Some && v0 != v1 && spec_landing_pad(prior, p0) && spec_landing_pad(prior, p1) {
        match first_join(prior, p0, p1, 0) {
            Some(k) => {
                let cond = prior[k].condition->0;
                let tv = if p0 == prior[k].targets@[0]@ {
                    v0->0
                } else {
                    v1->0
                };
                Some(
                    if tv {
                        cond
                    } else {
                        crate::oq3::ast::spec_bin(BinaryOp::Sub, Expression::Integer(1), cond)
                    },
                )
            },
            None => None,
        }
    } else {
        None
    }
}

fn is_landing_pad(prior: &Vec<BlockLowering>, name: &String) -> (r: bool)
    ensures
        r == spec_landing_pad(prior@, name@),
{
    match find_lowering(prior, name) {
        Some(i) => prior[i].condition.is_none() && prior[i].statements.len() == 0 && prior[i].targets.len() == 1,
        None => false,
    }
}

/// The integer value of `e` when the expression `c` has the value `x`:
/// `c` is `x`, an integer literal is itself, and `+`, `-`, `*` compute.
pub open spec fn value_when(e: Expression, c: Expression, x: int) -> int
    decreases e,
{
    if e == c {
        x
    } else {
        match e {
            Expression::Integer(v) => v as int,
            Expression::Binary { op: BinaryOp::Add, lhs, rhs } => value_when(*lhs, c, x) + value_when(*rhs, c, x),
            Expression::Binary { op: BinaryOp::Sub, lhs, rhs } => value_when(*lhs, c, x) - value_when(*rhs, c, x),
            Expression::Binary { op: BinaryOp::Mul, lhs, rhs } => value_when(*lhs, c, x) * value_when(*rhs, c, x),
            _ => 0,
        }
    }
}

/// `1` for true, `0` for false.
pub open spec fn bit_value(b: bool) -> int {
    if b {
        1
    } else {
        0
    }
}

proof fn lemma_complement_differs(c: Expression)
    ensures
        crate::oq3::ast::spec_bin(BinaryOp::Sub, Expression::Integer(1), c) != c,
{
    let w = crate::oq3::ast::spec_bin(BinaryOp::Sub, Expression::Integer(1), c);
    if let Expression::Binary { rhs, .. } = w {
        assert(decreases_to!(w => *rhs));
    }
}

/// A landing-pad integer phi is bound to an expression over the branch
/// condition of the block that enters both landing pads, and for each value
/// of that condition (`1` true, `0` false) the expression equals the
/// constant carried by the incoming whose predecessor is the target taken:
/// the first target when the condition holds, the second when it does not.
/// Both predecessors are targets of that block.
pub proof fn law_landing_bind_follows_branch(incomings: Seq<PhiIncoming>, prior: Seq<BlockLowering>, j: int, x: int)
    requires
        incomings.len() == 2,
        incomings[0].pred@ != incomings[1].pred@,
        spec_landing_bind(incomings, prior) is Some,
        0 <= j < 2,
        x == 0 || x == 1,
        !(prior[first_join(prior, incomings[0].pred@, incomings[1].pred@, 0)->0].condition->0 is Integer),
    ensures
        ({
            let k = first_join(prior, incomings[0].pred@, incomings[1].pred@, 0)->0;
            let b = prior[k];
            &&& 0 <= k < prior.len()
            &&& b.condition is Some
            &&& b.targets@.len() == 2
            &&& (incomings[j].pred@ == b.targets@[0]@ || incomings[j].pred@ == b.targets@[1]@)
            &&& (incomings[j].pred@ == b.targets@[if x == 1 { 0int } else { 1int }]@ ==> value_when(
                spec_landing_bind(incomings, prior)->0,
                b.condition->0,
                x,
            ) == bit_value(spec_as_bit(incomings[j].value)->0))
        }),
{
    let p0 = incomings[0].pred@;
    let p1 = incomings[1].pred@;
    lemma_first_join(prior, p0, p1, 0);
    let k = first_join(prior, p0, p1, 0)->0;
    let cond = prior[k].condition->0;
    lemma_complement_differs(cond);
    let e = spec_landing_bind(incomings, prior)->0;
    let comp = crate::oq3::ast::spec_bin(BinaryOp::Sub, Expression::Integer(1), cond);
    if e == comp {
        assert(value_when(Expression::Integer(1), cond, x) == 1);
        assert(value_when(cond, cond, x) == x);
        assert(value_when(comp, cond, x) == 1 - x);
    }
}

/// Which predecessor is listed first does not matter: listing the two
/// incomings of a landing-pad phi the other way round binds the phi to an
/// expression with the same value for each value of the branch condition.
pub proof fn law_landing_bind_order_free(incomings: Seq<PhiIncoming>, prior: Seq<BlockLowering>, x: int)
    requires
        incomings.len() == 2,
        incomings[0].pred@ != incomings[1].pred@,
        spec_landing_bind(incomings, prior) is Some,
        x == 0 || x == 1,
        !(prior[first_join(prior, incomings[0].pred@, incomings[1].pred@, 0)->0].condition->0 is Integer),
    ensures
        ({
            let swapped = seq![incomings[1], incomings[0]];
            let k = first_join(prior, incomings[0].pred@, incomings[1].pred@, 0)->0;
            &&& spec_landing_bind(swapped, prior) is Some
            &&& value_when(spec_landing_bind(swapped, prior)->0, prior[k].condition->0, x) == value_when(
                spec_landing_bind(incomings, prior)->0,
                prior[k].condition->0,
                x,
            )
        }),
{
    let swapped = seq![incomings[1], incomings[0]];
    let p0 = incomings[0].pred@;
    let p1 = incomings[1].pred@;
    lemma_first_join_symmetric(prior, p0, p1, 0);
    let k = first_join(prior, p0, p1, 0)->0;
    law_landing_bind_follows_branch(incomings, prior, 0, x);
    law_landing_bind_follows_branch(incomings, prior, 1, x);
    assert(swapped[0] == incomings[1] && swapped[1] == incomings[0]);
    assert(spec_landing_bind(swapped, prior) is Some);
    law_landing_bind_follows_branch(swapped, prior, 0, x);
    law_landing_bind_follows_branch(swapped, prior, 1, x);
}

proof fn lemma_first_join_symmetric(prior: Seq<BlockLowering>, p0: Seq<char>, p1: Seq<char>, from: int)
    ensures
        first_join(prior, p0, p1, from) == first_join(prior, p1, p0, from),
    decreases prior.len() - from,
{
    if 0 <= from < prior.len() {
        lemma_first_join_symmetric(prior, p0, p1, from + 1);
    }
}

/// Recognise `phi iN [A, %bb_t], [B, %bb_f]` where both predecessors are
/// empty unconditional landing pads of one conditional branch and
/// `(A, B)` is `(0, 1)` or `(1, 0)`: bind the phi to the branch condition
/// (or `1 - condition` when inverted). `false` leaves everything as it was.
fn try_bind_phi_i64_landing_pad(
    result: &String,
    incomings: &Vec<PhiIncoming>,
    prior: &Vec<BlockLowering>,
    symbols: &mut SymbolTable,
) -> (r: bool)
    requires
        old(symbols).wf(),
        incomings@.len() == 2,
    ensures
        final(symbols).wf(),
        r == spec_landing_bind(incomings@, prior@) is Some,
        !r ==> *final(symbols) == *old(symbols),
        r ==> final(symbols).bindings() == entries_insert(
            old(symbols).bindings(),
            result@,
            spec_landing_bind(incomings@, prior@)->0,
        ),
        final(symbols).qubit_max() == old(symbols).qubit_max(),
        final(symbols).result_max() == old(symbols).result_max(),
        final(symbols).aliases() == old(symbols).aliases(),
        final(symbols).slots() == old(symbols).slots(),
{
    let v0 = as_bit(&incomings[0].value);
    let v1 = as_bit(&incomings[1].value);
    let (a, b) = match (v0, v1) {
        (Some(a), Some(b)) => {
            if a == b {
                return false;
            }
            (a, b)
        },
        _ => {
            return false;
        },
    };
    let p0 = &incomings[0].pred;
    let p1 = &incomings[1].pred;
    if !is_landing_pad(prior, p0) || !is_landing_pad(prior, p1) {
        return false;
    }
    let ghost g0 = p0@;
    let ghost g1 = p1@;
    let mut found: Option<usize> = None;
    let mut i: usize = 0;
    while i < prior.len()
        invariant
            i <= prior@.len(),
            g0 == p0@,
            g1 == p1@,
            found matches Some(k) ==> first_join(prior@, g0, g1, 0) == Some(k as int) && k < prior@.len(),
            found is None ==> first_join(prior@, g0, g1, 0) == first_join(prior@, g0, g1, i as int),
        decreases prior@.len() - i,
    {
        if found.is_none() && prior[i].condition.is_some() && prior[i].targets.len() == 2 {
            let t0 = &prior[i].targets[0];
            let t1 = &prior[i].targets[1];
            let has0 = *t0 == *p0 || *t1 == *p0;
            let has1 = *t0 == *p1 || *t1 == *p1;
            if has0 && has1 {
                found = Some(i);
            }
        }
        i = i + 1;
    }
    let k = match found {
        Some(k) => k,
        None => {
            return false;
        },
    };
    proof {
        lemma_first_join(prior@, g0, g1, 0);
    }
    let cond = match &prior[k].condition {
        Some(c) => copy_expr(c),
        None => {
            return false;
        },
    };
    if prior[k].targets.len() < 1 {
        return false;
    }
    let true_value = if *p0 == prior[k].targets[0] {
        a
    } else {
        b
    };
    let bound = if true_value {
        cond
    } else {
        bin(BinaryOp::Sub, int_lit(1), cond)
    };
    symbols.record_ssa(result.as_str(), bound);
    true
}

/// The roles of a two-incoming integer phi's incomings, by the first
/// lowerings their predecessors name: `(conditional, unconditional)`; the
/// conditional one carries the initial value.
pub open spec fn phi_roles(incomings: Seq<PhiIncoming>, prior: Seq<BlockLowering>) -> Result<(PhiIncoming, PhiIncoming), ErrView> {
    let p0 = incomings[0].pred@;
    let p1 = incomings[1].pred@;
    match (first_named(prior, p0, 0), first_named(prior, p1, 0)) {
        (None, _) => Err(ErrView::Unsupported(
            "phi integer predecessor "@ + crate::text::str_debug_text(p0) + " not found among processed blocks"@,
        )),
        (Some(_), None) => Err(ErrView::Unsupported(
            "phi integer predecessor "@ + crate::text::str_debug_text(p1) + " not found among processed blocks"@,
        )),
        (Some(i0), Some(i1)) => {
            let c0 = prior[i0].condition is Some;
            let c1 = prior[i1].condition is Some;
            if c0 && !c1 {
                Ok((incomings[0], incomings[1]))
            } else if !c0 && c1 {
                Ok((incomings[1], incomings[0]))
            } else {
                Err(ErrView::Unsupported(
                    "phi integer incomings do not match the expected if-merge shape: expected exactly one predecessor with a conditional branch (providing the init value) and one with an unconditional branch (providing the update value)"@,
                ))
            }
        },
    }
}

/// Whether the initial value already names a declared `int` variable,
/// which the merge then reuses.
pub open spec fn reuses_var(init: Expression, decls: Seq<Statement>) -> bool {
    init matches Expression::Identifier(n) && declares_int(decls, n@)
}

/// The variable an integer phi merges into: the reused one, or a fresh
/// `cint_<n>` named by the number of declarations so far.
pub open spec fn phi_var(init: Expression, decls: Seq<Statement>) -> Seq<char> {
    match init {
        Expression::Identifier(n) => if declares_int(decls, n@) {
            n@
        } else {
            "cint_"@ + crate::text::int_text(decls.len() as int)
        },
        _ => "cint_"@ + crate::text::int_text(decls.len() as int),
    }
}

/// `int v = init;`.
pub open spec fn is_int_decl_with(s: Statement, v: Seq<char>, init: Expression) -> bool {
    s matches Statement::IntDeclaration { name, init: i } && name@ == v && i == init
}

/// `v = e;` to the bare variable `v`.
pub open spec fn is_assign_to(s: Statement, v: Seq<char>, e: Expression) -> bool {
    s matches Statement::Assignment { target, value } && target.name@ == v && target.index is None && value == e
}

/// `b1` is `b0` with one more statement, `s`-shaped, at the end.
pub open spec fn appended(b0: BlockLowering, b1: BlockLowering, v: Seq<char>, e: Expression) -> bool {
    &&& b1.name == b0.name
    &&& b1.condition == b0.condition
    &&& b1.targets == b0.targets
    &&& b1.statements@.len() == b0.statements@.len() + 1
    &&& b1.statements@.subrange(0, b0.statements@.len() as int) == b0.statements@
    &&& is_assign_to(b1.statements@.last(), v, e)
}

/// The merge of a two-incoming integer phi outside the landing-pad shape:
/// the variable is declared (unless reused) with the conditional incoming's
/// value, the unconditional predecessor assigns it the other value (unless
/// that is the variable itself), and the phi is bound to the variable.
pub open spec fn phi_merge_ok(
    result: Seq<char>,
    incomings: Seq<PhiIncoming>,
    prior0: Seq<BlockLowering>,
    prior1: Seq<BlockLowering>,
    decls0: Seq<Statement>,
    decls1: Seq<Statement>,
    before: SymbolTable,
    after: SymbolTable,
    r: Result<(), QirToQasmError>,
) -> bool {
    let unchanged = prior1 == prior0 && decls1 == decls0 && after == before;
    match phi_roles(incomings, prior0) {
        Err(ev) => r matches Err(x) && err_view(x) == ev && unchanged,
        Ok((c, u)) => match (spec_phi_int_operand(before, c.value), spec_phi_int_operand(before, u.value)) {
            (Err(ev), _) => r matches Err(x) && err_view(x) == ev && unchanged,
            (Ok(_), Err(ev)) => r matches Err(x) && err_view(x) == ev && unchanged,
            (Ok(init), Ok(upd)) => {
                let v = phi_var(init, decls0);
                &&& r is Ok
                &&& if reuses_var(init, decls0) {
                    decls1 == decls0
                } else {
                    decls1.len() == decls0.len() + 1 && decls1.subrange(0, decls0.len() as int) == decls0
                        && is_int_decl_with(decls1.last(), v, init)
                }
                &&& after.binding(result) matches Some(Expression::Identifier(n)) && n@ == v
                &&& exists|e: Expression| after.bindings() == entries_insert(before.bindings(), result, e)
                &&& after.qubit_max() == before.qubit_max() && after.result_max() == before.result_max()
                &&& after.aliases() == before.aliases() && after.slots() == before.slots()
                &&& match first_named(prior0, u.pred@, 0) {
                    Some(pi) => if spec_identity_update(upd, v) {
                        prior1 == prior0
                    } else {
                        prior1.len() == prior0.len() && (forall|j: int|
                            0 <= j < prior0.len() && j != pi ==> prior1[j] == prior0[j]) && appended(
                            prior0[pi],
                            prior1[pi],
                            v,
                            upd,
                        )
                    },
                    None => prior1 == prior0,
                }
            },
        },
    }
}

/// Whether `b1` keeps `b0`'s name, condition and targets.
pub open spec fn same_exit(b1: BlockLowering, b0: BlockLowering) -> bool {
    b1.name == b0.name && b1.condition == b0.condition && b1.targets == b0.targets
}

/// The error for an integer phi without exactly two incomings.
pub open spec fn phi_count_msg(n: nat) -> Seq<char> {
    "phi integer with "@ + crate::text::int_text(n as int)
        + " incoming value(s); only the two-incoming if-merge shape (`mutable` + conditional increment) is supported"@
}

/// What lowering an integer phi does: with two incomings, the landing-pad
/// binding when it applies, the variable merge otherwise; any other number
/// of incomings is an error that changes nothing.
pub open spec fn phi_int_post(
    result: Seq<char>,
    incomings: Seq<PhiIncoming>,
    prior0: Seq<BlockLowering>,
    prior1: Seq<BlockLowering>,
    decls0: Seq<Statement>,
    decls1: Seq<Statement>,
    before: SymbolTable,
    after: SymbolTable,
    r: Result<(), QirToQasmError>,
) -> bool {
    if incomings.len() != 2 {
        r matches Err(x) && err_view(x) == ErrView::Unsupported(phi_count_msg(incomings.len())) && after == before
            && prior1 == prior0 && decls1 == decls0
    } else {
        match spec_landing_bind(incomings, prior0) {
            Some(e) => r is Ok && with_bindings(before, after, entries_insert(before.bindings(), result, e))
                && prior1 == prior0 && decls1 == decls0,
            None => phi_merge_ok(result, incomings, prior0, prior1, decls0, decls1, before, after, r),
        }
    }
}

/// Lower a `phi i32`/`phi i64` if-merge into an `int` variable declared at
/// program top plus an assignment on the unconditional predecessor.
fn lower_phi_integer(
    result: &String,
    incomings: &Vec<PhiIncoming>,
    prior: &mut Vec<BlockLowering>,
    int_declarations: &mut Vec<Statement>,
    symbols: &mut SymbolTable,
) -> (r: Result<(), QirToQasmError>)
    requires
        old(symbols).wf(),
    ensures
        final(symbols).wf(),
        final(prior)@.len() == old(prior)@.len(),
        forall|j: int| 0 <= j < old(prior)@.len() ==> same_exit(#[trigger] final(prior)@[j], old(prior)@[j]),
        phi_int_post(
            result@,
            incomings@,
            old(prior)@,
            final(prior)@,
            old(int_declarations)@,
            final(int_declarations)@,
            *old(symbols),
            *final(symbols),
            r,
        ),
{
    if incomings.len() != 2 {
        let mut m: Vec<char> = Vec::new();
        push_str(&mut m, "phi integer with ");
        push_int(&mut m, incomings.len() as i128);
        push_str(
            &mut m,
            " incoming value(s); only the two-incoming if-merge shape (`mutable` + conditional increment) is supported",
        );
        return Err(unsupported_err(&m));
    }
    if try_bind_phi_i64_landing_pad(result, incomings, prior, symbols) {
        return Ok(());
    }
    let ghost s0 = *symbols;
    let ghost prior0 = prior@;
    let ghost decls0 = int_declarations@;
    let inc0 = &incomings[0];
    let inc1 = &incomings[1];
    let i0 = match find_lowering(prior, &inc0.pred) {
        Some(i) => i,
        None => {
            let mut m: Vec<char> = Vec::new();
            push_str(&mut m, "phi integer predecessor ");
            push_debug_string(&mut m, &inc0.pred);
            push_str(&mut m, " not found among processed blocks");
            return Err(unsupported_err(&m));
        },
    };
    let i1 = match find_lowering(prior, &inc1.pred) {
        Some(i) => i,
        None => {
            let mut m: Vec<char> = Vec::new();
            push_str(&mut m, "phi integer predecessor ");
            push_debug_string(&mut m, &inc1.pred);
            push_str(&mut m, " not found among processed blocks");
            return Err(unsupported_err(&m));
        },
    };
    let c0 = prior[i0].condition.is_some();
    let c1 = prior[i1].condition.is_some();
    let (uncond_inc, cond_inc) = if c0 && !c1 {
        (inc1, inc0)
    } else if !c0 && c1 {
        (inc0, inc1)
    } else {
        return Err(QirToQasmError::unsupported(
            "phi integer incomings do not match the expected if-merge shape: expected exactly one predecessor with a conditional branch (providing the init value) and one with an unconditional branch (providing the update value)",
        ));
    };
    let init_expr = resolve_phi_integer_operand(&cond_inc.value, symbols)?;
    let update_expr = resolve_phi_integer_operand(&uncond_inc.value, symbols)?;
    let reuse: Option<String> = match &init_expr {
        Expression::Identifier(n) => {
            if is_declared_int_var(int_declarations, n) {
                Some(n.clone())
            } else {
                None
            }
        },
        _ => None,
    };
    let ghost init_v = init_expr;
    let ghost upd_v = update_expr;
    let var_name = match reuse {
        Some(n) => n,
        None => {
            let mut v: Vec<char> = Vec::new();
            push_str(&mut v, "cint_");
            push_int(&mut v, int_declarations.len() as i128);
            let name = string_of(&v);
            int_declarations.push(Statement::IntDeclaration { name: name.clone(), init: init_expr });
            proof {
                assert(int_declarations@.subrange(0, decls0.len() as int) =~= decls0);
            }
            name
        },
    };
    proof {
        assert(var_name@ == phi_var(init_v, decls0));
    }
    match find_lowering(prior, &uncond_inc.pred) {
        Some(pi) => {
            if !is_identity_update(&update_expr, &var_name) {
                let ghost b0 = prior@[pi as int];
                let mut pb = prior.remove(pi);
                let ghost st0 = pb.statements@;
                pb.statements.push(Statement::Assignment { target: ident(var_name.as_str()), value: update_expr });
                proof {
                    assert(pb.statements@.subrange(0, st0.len() as int) =~= st0);
                }
                prior.insert(pi, pb);
                proof {
                    assert(prior@ =~= prior0.update(pi as int, pb));
                    assert(appended(b0, prior@[pi as int], var_name@, upd_v));
                    assert(same_exit(prior@[pi as int], prior0[pi as int]));
                }
            }
        },
        None => {},
    }
    let ghost b_before = symbols.bindings();
    proof {
        lemma_entries_insert(b_before, result@, Expression::Identifier(var_name));
    }
    symbols.record_ssa(result.as_str(), Expression::Identifier(var_name));
    Ok(())
}

} // verus!
