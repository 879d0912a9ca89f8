//! Text-level function-signature extraction from QIR source.
//!
//! Scans `declare` / `define` lines and recovers return type, function
//! name, parameter types, and varargs flag in their canonical forms
//! (`"Qubit"`, `"Result"`, `"i1"`, `"double"`, `"ptr"`, `"void"`).
use vstd::prelude::*;

use indexmap::IndexMap;

use crate::error::{syntax_err, QirToQasmError};
use crate::ir::parser_util::{
    ident_end, ident_end_exec, valid_ident_chars, close_paren_index,
    spec_is_valid_llvm_ident, spec_matching_close_paren, spec_split_top_level_commas,
    split_commas_chars, unbalanced_bracket_msg,
};
use crate::ordered_map::{
    distinct_keys, entries_get, entries_insert, key_index, lemma_entries_insert, lemma_key_index,
    sig_map_get, sig_map_get_index, sig_map_insert, sig_map_len, sig_map_new, signature_entries,
};
use crate::text::{
    ascii_ws, chars_is, chars_of, chars_of_string, digit, find_char, find_char_exec, has_at,
    has_prefix, has_suffix, is_ascii_ws, is_digit, lemma_find_char_from, lemma_skip_ws, lit_at,
    owned, push_debug, push_str, skip_ws, skip_ws_exec, slice, str_debug_text, string_of, suffix,
    trim, trim_end, trim_end_exec, trim_exec, trim_start, trim_start_exec,
};

verus! {

/// Canonical signature of a QIR function.
#[derive(Debug, Clone, PartialEq, Eq, Hash)]
pub struct FunctionSignature {
    /// Function name (without leading `@`).
    pub name: String,
    /// Canonical return type string.
    pub return_type: String,
    /// Canonical parameter type strings, in source order.
    pub param_types: Vec<String>,
    /// `true` if the parameter list ends with `...`.
    pub is_variadic: bool,
}

/// A signature as plain text: name, return type, parameter types, variadic flag.
pub struct SigView {
    pub name: Seq<char>,
    pub return_type: Seq<char>,
    pub param_types: Seq<Seq<char>>,
    pub is_variadic: bool,
}

impl FunctionSignature {
    /// The signature as plain text.
    pub open spec fn view_sig(self) -> SigView {
        SigView {
            name: self.name@,
            return_type: self.return_type@,
            param_types: self.param_types@.map_values(|s: String| s@),
            is_variadic: self.is_variadic,
        }
    }

    /// Whether the return type is `"void"`.
    pub fn is_void(&self) -> (r: bool)
        ensures
            r == (self.return_type@ == "void"@),
    {
        crate::text::string_is(&self.return_type, "void")
    }
}

/// Signature table keyed by function name, in first-seen order.
#[derive(Debug, Clone)]
pub struct SignatureTable {
    map: IndexMap<String, FunctionSignature>,
}

impl SignatureTable {
    /// The entries of the table, in order.
    pub closed spec fn entries(self) -> Seq<(Seq<char>, FunctionSignature)> {
        signature_entries(self.map)
    }

    /// Names are pairwise distinct.
    pub open spec fn wf(self) -> bool {
        distinct_keys(self.entries())
    }

    /// The signature stored under `name`, if any.
    pub open spec fn lookup(self, name: Seq<char>) -> Option<FunctionSignature> {
        entries_get(self.entries(), name)
    }

    /// An empty table.
    pub fn new() -> (r: Self)
        ensures
            r.wf(),
            r.entries() == Seq::<(Seq<char>, FunctionSignature)>::empty(),
    {
        SignatureTable { map: sig_map_new() }
    }

    /// Does the table contain a signature for `name`?
    pub fn contains(&self, name: &str) -> (r: bool)
        requires
            self.wf(),
        ensures
            r == (self.lookup(name@) is Some),
    {
        sig_map_get(&self.map, name).is_some()
    }

    /// Look up a signature by name.
    pub fn get(&self, name: &str) -> (r: Option<&FunctionSignature>)
        requires
            self.wf(),
        ensures
            r matches Some(s) ==> self.lookup(name@) == Some(*s),
            r is None ==> self.lookup(name@) is None,
    {
        sig_map_get(&self.map, name)
    }

    /// Return the number of signatures.
    pub fn len(&self) -> (r: usize)
        ensures
            r == self.entries().len(),
    {
        sig_map_len(&self.map)
    }

    /// Return `true` if the table is empty.
    pub fn is_empty(&self) -> (r: bool)
        ensures
            r == (self.entries().len() == 0),
    {
        sig_map_len(&self.map) == 0
    }

    /// The signatures in insertion order.
    pub fn iter(&self) -> (r: Vec<&FunctionSignature>)
        ensures
            r@.len() == self.entries().len(),
            forall|i: int| 0 <= i < r@.len() ==> *r@[i] == self.entries()[i].1,
    {
        let n = sig_map_len(&self.map);
        let mut out: Vec<&FunctionSignature> = Vec::new();
        let mut i: usize = 0;
        while i < n
            invariant
                n == self.entries().len(),
                i <= n,
                out@.len() == i,
                forall|j: int| 0 <= j < i ==> *out@[j] == self.entries()[j].1,
            decreases n - i,
        {
            let e = sig_map_get_index(&self.map, i);
            match e {
                Some((_, s)) => {
                    out.push(s);
                },
                None => {},
            }
            i = i + 1;
        }
        out
    }

    fn insert(&mut self, sig: FunctionSignature)
        requires
            old(self).wf(),
        ensures
            final(self).wf(),
            final(self).entries() == entries_insert(old(self).entries(), sig.name@, sig),
    {
        proof {
            lemma_entries_insert(self.entries(), sig.name@, sig);
        }
        let k = sig.name.clone();
        sig_map_insert(&mut self.map, k, sig);
    }
}

impl Default for SignatureTable {
    fn default() -> (r: Self)
        ensures
            r.wf(),
            r.entries() == Seq::<(Seq<char>, FunctionSignature)>::empty(),
    {
        SignatureTable::new()
    }
}

// ---------------------------------------------------------------------------
// Tokens
// ---------------------------------------------------------------------------

/// The first index at or after `i` holding ASCII whitespace (or `s.len()`).
pub open spec fn token_end(s: Seq<char>, i: int) -> int
    decreases s.len() - i,
{
    if i < 0 {
        0
    } else if i >= s.len() {
        s.len() as int
    } else if is_ascii_ws(s[i]) {
        i
    } else {
        token_end(s, i + 1)
    }
}

pub proof fn lemma_token_end(s: Seq<char>, i: int)
    requires
        0 <= i <= s.len(),
    ensures
        i <= token_end(s, i) <= s.len(),
        forall|j: int| i <= j < token_end(s, i) ==> !is_ascii_ws(s[j]),
        token_end(s, i) < s.len() ==> is_ascii_ws(s[token_end(s, i)]),
    decreases s.len() - i,
{
    if i < s.len() && !is_ascii_ws(s[i]) {
        lemma_token_end(s, i + 1);
    }
}

pub fn token_end_exec(s: &[char], i: usize) -> (r: usize)
    requires
        i <= s@.len(),
    ensures
        r as int == token_end(s@, i as int),
        i <= r <= s@.len(),
{
    proof {
        lemma_token_end(s@, i as int);
    }
    let mut j: usize = i;
    while j < s.len() && !ascii_ws(s[j])
        invariant
            i <= j <= s@.len(),
            token_end(s@, j as int) == token_end(s@, i as int),
        decreases s@.len() - j,
    {
        j = j + 1;
    }
    j
}

/// Index of the first occurrence of `p` in `s`, from `from` on.
pub open spec fn find_seq_from(s: Seq<char>, p: Seq<char>, from: int) -> Option<int>
    decreases s.len() + 1 - from,
{
    if from < 0 || from > s.len() {
        None
    } else if has_at(s, from, p) {
        Some(from)
    } else {
        find_seq_from(s, p, from + 1)
    }
}

/// Index of the first occurrence of `p` in `s`.
pub open spec fn find_seq(s: Seq<char>, p: Seq<char>) -> Option<int> {
    find_seq_from(s, p, 0)
}

pub proof fn lemma_find_seq_from(s: Seq<char>, p: Seq<char>, from: int)
    requires
        0 <= from,
    ensures
        find_seq_from(s, p, from) matches Some(i) ==> from <= i && has_at(s, i, p),
    decreases s.len() + 1 - from,
{
    if from <= s.len() && !has_at(s, from, p) {
        lemma_find_seq_from(s, p, from + 1);
    }
}

/// Index of the first occurrence of the literal `lit` in `s`.
pub fn find_lit(s: &[char], lit: &str) -> (r: Option<usize>)
    ensures
        r matches Some(i) ==> find_seq(s@, lit@) == Some(i as int) && has_at(s@, i as int, lit@),
        r is None ==> find_seq(s@, lit@) is None,
{
    proof {
        lemma_find_seq_from(s@, lit@, 0);
    }
    let mut i: usize = 0;
    while i < s.len()
        invariant
            i <= s@.len(),
            find_seq_from(s@, lit@, i as int) == find_seq(s@, lit@),
        decreases s@.len() - i,
    {
        if lit_at(s, i, lit) {
            return Some(i);
        }
        i = i + 1;
    }
    if lit_at(s, i, lit) {
        return Some(i);
    }
    assert(find_seq_from(s@, lit@, i + 1) is None);
    None
}

// ---------------------------------------------------------------------------
// Brace matching
// ---------------------------------------------------------------------------

/// Scanning from `i` with `depth` braces open: the index of the `}` that
/// brings the depth to zero.
pub open spec fn close_brace_from(s: Seq<char>, i: int, depth: int) -> Option<int>
    decreases s.len() - i,
{
    if i < 0 || i >= s.len() {
        None
    } else if s[i] == '{' {
        close_brace_from(s, i + 1, depth + 1)
    } else if s[i] == '}' {
        if depth - 1 == 0 {
            Some(i)
        } else {
            close_brace_from(s, i + 1, depth - 1)
        }
    } else {
        close_brace_from(s, i + 1, depth)
    }
}

/// The index of the `}` matching the leading `{` of `s`.
pub open spec fn spec_matching_close_brace(s: Seq<char>) -> Option<int> {
    close_brace_from(s, 0, 0)
}

pub proof fn lemma_close_brace_from(s: Seq<char>, i: int, depth: int)
    requires
        0 <= i,
    ensures
        close_brace_from(s, i, depth) matches Some(j) ==> i <= j < s.len(),
    decreases s.len() - i,
{
    if i < s.len() {
        lemma_close_brace_from(s, i + 1, depth + 1);
        lemma_close_brace_from(s, i + 1, depth - 1);
        lemma_close_brace_from(s, i + 1, depth);
    }
}

/// Given a string that begins with `{`, return the index of the matching
/// closing `}` (depth-aware) or `None` if no match exists.
pub fn matching_close_brace(s: &[char]) -> (r: Option<usize>)
    ensures
        r matches Some(i) ==> spec_matching_close_brace(s@) == Some(i as int) && i < s@.len(),
        r is None ==> spec_matching_close_brace(s@) is None,
{
    proof {
        lemma_close_brace_from(s@, 0, 0);
    }
    let mut depth: i128 = 0;
    let mut i: usize = 0;
    while i < s.len()
        invariant
            i <= s@.len(),
            -(i as int) <= depth <= i as int,
            close_brace_from(s@, i as int, depth as int) == spec_matching_close_brace(s@),
        decreases s@.len() - i,
    {
        let c = s[i];
        if c == '{' {
            depth = depth + 1;
        } else if c == '}' {
            depth = depth - 1;
            if depth == 0 {
                return Some(i);
            }
        }
        i = i + 1;
    }
    None
}

// ---------------------------------------------------------------------------
// Type canonicalization
// ---------------------------------------------------------------------------

/// `i<digits>`.
pub open spec fn spec_is_integer_type(s: Seq<char>) -> bool {
    s.len() >= 2 && s[0] == 'i' && forall|k: int| 1 <= k < s.len() ==> is_digit(#[trigger] s[k])
}

/// The primitive and opaque-pointer type keywords that pass through.
pub open spec fn spec_is_known_primitive(s: Seq<char>) -> bool {
    s == "void"@ || s == "double"@ || s == "float"@ || s == "half"@ || s == "ptr"@ || s
        == "bfloat"@ || s == "fp128"@
}

fn is_integer_type(s: &[char]) -> (r: bool)
    ensures
        r == spec_is_integer_type(s@),
{
    if s.len() < 2 || s[0] != 'i' {
        return false;
    }
    let mut k: usize = 1;
    while k < s.len()
        invariant
            1 <= k <= s@.len(),
            forall|j: int| 1 <= j < k ==> is_digit(#[trigger] s@[j]),
        decreases s@.len() - k,
    {
        if !digit(s[k]) {
            return false;
        }
        k = k + 1;
    }
    true
}

fn is_known_primitive(s: &[char]) -> (r: bool)
    ensures
        r == spec_is_known_primitive(s@),
{
    chars_is(s, "void") || chars_is(s, "double") || chars_is(s, "float") || chars_is(s, "half")
        || chars_is(s, "ptr") || chars_is(s, "bfloat") || chars_is(s, "fp128")
}

/// The message for a type token that cannot be canonicalized.
pub open spec fn bad_type_msg(raw: Seq<char>) -> Seq<char> {
    "could not parse parameter type "@ + str_debug_text(raw)
}

/// The canonical form of an LLVM type token:
///   * `%Qubit*`, `%"Qubit"*`, `%Qubit`, `%"Qubit"` become `Qubit`;
///   * `ptr`, `void`, `i<N>`, `double`, `float`, `half`, `bfloat`, `fp128`
///     pass through (a trailing `*` on a primitive is dropped);
///   * a brace-enclosed struct type becomes `struct`;
///   * anything else is a syntax error.
pub open spec fn spec_canonicalize_type(raw: Seq<char>) -> Result<Seq<char>, Seq<char>> {
    let token = trim(raw);
    if token.len() == 0 {
        Err("empty type token in signature"@)
    } else {
        let core = if token[token.len() - 1] == '*' {
            token.subrange(0, token.len() - 1)
        } else {
            token
        };
        if has_prefix(core, "%\""@) && core.len() >= 3 && core[core.len() - 1] == '"' {
            Ok(core.subrange(2, core.len() - 1))
        } else if core.len() > 0 && core[0] == '%' {
            let name = core.subrange(1, core.len() as int);
            if name.len() == 0 || !spec_is_valid_llvm_ident(name) {
                Err(bad_type_msg(raw))
            } else {
                Ok(name)
            }
        } else if spec_is_known_primitive(core) || spec_is_integer_type(core) {
            Ok(core)
        } else if core.len() > 0 && core[0] == '{' && core[core.len() - 1] == '}' {
            Ok("struct"@)
        } else {
            Err(bad_type_msg(raw))
        }
    }
}

/// A token with no whitespace at either end trims to itself, and so does
/// the token with one space on each side.
proof fn lemma_trim_token(t: Seq<char>)
    requires
        t.len() > 0,
        !crate::text::is_ws(t[0]),
        !crate::text::is_ws(t.last()),
    ensures
        trim(t) == t,
        trim(" "@ + t + " "@) == t,
{
    reveal_strlit(" ");
    assert(crate::text::skip_ws(t, 0) == 0);
    assert(t.subrange(0, t.len() as int) =~= t);
    assert(crate::text::skip_ws_back(t, t.len() as int) == t.len());
    let u = " "@ + t + " "@;
    assert(u[0] == ' ');
    assert(u[1] == t[0]);
    assert(crate::text::skip_ws(u, 1) == 1);
    assert(crate::text::skip_ws(u, 0) == 1);
    let v = u.subrange(1, u.len() as int);
    assert(v =~= t + " "@);
    assert(v[v.len() - 1] == ' ');
    assert(v[v.len() - 2] == t.last());
    assert(crate::text::skip_ws_back(v, v.len() - 1) == v.len() - 1);
    assert(crate::text::skip_ws_back(v, v.len() as int) == v.len() - 1);
    assert(v.subrange(0, v.len() - 1) =~= t);
}

/// `canonicalize_type` reads a primitive or integer type as itself, a
/// named struct `%n` or `%"n"` as `n`, and a literal struct `{...}` as
/// `struct`; each with a trailing `*` or surrounding spaces reads the
/// same.
pub proof fn law_canonicalize_type(t: Seq<char>, expected: Seq<char>)
    requires
        ({
            ||| (spec_is_known_primitive(t) || spec_is_integer_type(t)) && expected == t
            ||| exists|n: Seq<char>|
                spec_is_valid_llvm_ident(n) && expected == n && (t == "%"@ + n || t == "%\""@ + n + "\""@)
            ||| t.len() >= 2 && t[0] == '{' && t.last() == '}' && expected == "struct"@
        }),
    ensures
        spec_canonicalize_type(t) == Ok::<Seq<char>, Seq<char>>(expected),
        spec_canonicalize_type(t + "*"@) == Ok::<Seq<char>, Seq<char>>(expected),
        spec_canonicalize_type(" "@ + t + " "@) == Ok::<Seq<char>, Seq<char>>(expected),
{
    reveal_strlit("*");
    reveal_strlit("%");
    reveal_strlit("%\"");
    reveal_strlit("\"");
    reveal_strlit("void");
    reveal_strlit("double");
    reveal_strlit("float");
    reveal_strlit("half");
    reveal_strlit("ptr");
    reveal_strlit("bfloat");
    reveal_strlit("fp128");
    if exists|n: Seq<char>|
        spec_is_valid_llvm_ident(n) && expected == n && (t == "%"@ + n || t == "%\""@ + n + "\""@) {
        let n = choose|n: Seq<char>|
            spec_is_valid_llvm_ident(n) && expected == n && (t == "%"@ + n || t == "%\""@ + n + "\""@);
        assert(crate::text::is_ident_char(n.last()));
        if t == "%"@ + n {
            assert(t[0] == '%' && t.last() == n.last());
            assert(t[1] == n[0]);
            assert(t.subrange(1, t.len() as int) =~= n);
        } else {
            assert(t[0] == '%' && t[1] == '"' && t.last() == '"');
            assert(t.subrange(2, t.len() - 1) =~= n);
        }
    }
    assert(t.len() > 0 && !crate::text::is_ws(t[0]) && !crate::text::is_ws(t.last()) && t.last() != '*');
    lemma_trim_token(t);
    let tp = t + "*"@;
    assert(tp.last() == '*' && tp[0] == t[0]);
    lemma_trim_token(tp);
    assert(tp.subrange(0, tp.len() - 1) =~= t);
    if spec_is_known_primitive(t) || spec_is_integer_type(t) {
        assert(t[0] != '%');
        assert(!has_prefix(t, "%\""@));
        assert(spec_canonicalize_type(t) == Ok::<Seq<char>, Seq<char>>(t));
    } else if t.len() >= 2 && t[0] == '{' && t.last() == '}' && expected == "struct"@ {
        assert(!has_prefix(t, "%\""@));
        assert(!spec_is_known_primitive(t));
        assert(!spec_is_integer_type(t));
        assert(spec_canonicalize_type(t) == Ok::<Seq<char>, Seq<char>>(expected));
    } else {
        let n = choose|n: Seq<char>|
            spec_is_valid_llvm_ident(n) && expected == n && (t == "%"@ + n || t == "%\""@ + n + "\""@);
        if t == "%"@ + n {
            assert(t[1] == n[0]);
            assert(n[0] != '"');
            assert(!has_prefix(t, "%\""@));
            assert(spec_canonicalize_type(t) == Ok::<Seq<char>, Seq<char>>(expected));
        } else {
            assert(has_prefix(t, "%\""@)) by {
                assert("%\""@.len() == 2);
                assert(t.subrange(0, 2) =~= "%\""@);
            }
            assert(spec_canonicalize_type(t) == Ok::<Seq<char>, Seq<char>>(expected));
        }
    }
}

/// Normalize an LLVM type token to its canonical form (see
/// [`spec_canonicalize_type`]).
pub fn canonicalize_chars(raw: &[char]) -> (r: Result<String, QirToQasmError>)
    ensures
        r matches Ok(s) ==> spec_canonicalize_type(raw@) == Ok::<Seq<char>, Seq<char>>(s@),
        r matches Err(e) ==> e is Syntax && spec_canonicalize_type(raw@) == Err::<
            Seq<char>,
            Seq<char>,
        >(e.payload()),
{
    let token = trim_exec(raw);
    if token.len() == 0 {
        return Err(QirToQasmError::syntax("empty type token in signature"));
    }
    let core = if token[token.len() - 1] == '*' {
        slice(&token, 0, token.len() - 1)
    } else {
        token
    };
    if lit_at(&core, 0, "%\"") && core.len() >= 3 && core[core.len() - 1] == '"' {
        let inner = slice(&core, 2, core.len() - 1);
        return Ok(string_of(&inner));
    }
    if core.len() > 0 && core[0] == '%' {
        let name = suffix(&core, 1);
        if name.len() == 0 || !valid_ident_chars(&name) {
            return Err(bad_type(raw));
        }
        return Ok(string_of(&name));
    }
    if is_known_primitive(&core) || is_integer_type(&core) {
        return Ok(string_of(&core));
    }
    if core.len() > 0 && core[0] == '{' && core[core.len() - 1] == '}' {
        return Ok(owned("struct"));
    }
    Err(bad_type(raw))
}

/// Normalize an LLVM type token to its canonical form (see
/// [`spec_canonicalize_type`]).
pub fn canonicalize_type(raw: &str) -> (r: Result<String, QirToQasmError>)
    ensures
        r matches Ok(s) ==> spec_canonicalize_type(raw@) == Ok::<Seq<char>, Seq<char>>(s@),
        r matches Err(e) ==> e is Syntax && spec_canonicalize_type(raw@) == Err::<
            Seq<char>,
            Seq<char>,
        >(e.payload()),
{
    let c = chars_of(raw);
    canonicalize_chars(&c)
}

fn bad_type(raw: &[char]) -> (e: QirToQasmError)
    ensures
        e is Syntax,
        e.payload() == bad_type_msg(raw@),
{
    let mut m: Vec<char> = Vec::new();
    push_str(&mut m, "could not parse parameter type ");
    push_debug(&mut m, raw);
    syntax_err(&m)
}

// ---------------------------------------------------------------------------
// Parameter lists
// ---------------------------------------------------------------------------

/// Parameter attributes that may precede a parameter's type.
pub open spec fn is_param_attr(t: Seq<char>) -> bool {
    t == "writeonly"@ || t == "readonly"@ || t == "readnone"@ || t == "nonnull"@ || t
        == "noalias"@ || t == "nocapture"@ || t == "immarg"@ || t == "signext"@ || t
        == "zeroext"@ || t == "byval"@ || t == "sret"@ || t == "inreg"@ || t == "noundef"@
}

pub fn param_attr(t: &[char]) -> (r: bool)
    ensures
        r == is_param_attr(t@),
{
    chars_is(t, "writeonly") || chars_is(t, "readonly") || chars_is(t, "readnone") || chars_is(
        t,
        "nonnull",
    ) || chars_is(t, "noalias") || chars_is(t, "nocapture") || chars_is(t, "immarg")
        || chars_is(t, "signext") || chars_is(t, "zeroext") || chars_is(t, "byval") || chars_is(
        t,
        "sret",
    ) || chars_is(t, "inreg") || chars_is(t, "noundef")
}

/// `s` without its leading whitespace-separated parameter attributes.
pub open spec fn spec_strip_leading_attrs(s: Seq<char>) -> Seq<char>
    decreases s.len(),
{
    let r = trim_start(s);
    let e = token_end(r, 0);
    if e <= 0 || e > r.len() || r.len() > s.len() {
        r
    } else if is_param_attr(r.subrange(0, e)) {
        spec_strip_leading_attrs(r.subrange(e, r.len() as int))
    } else {
        r
    }
}

/// Strip leading LLVM parameter attributes (`writeonly`, `nocapture`, ...)
/// from a parameter chunk, returning the rest starting at the type.
pub fn strip_leading_attrs(chunk: &[char]) -> (r: Vec<char>)
    ensures
        r@ == spec_strip_leading_attrs(chunk@),
    decreases chunk@.len(),
{
    let r = trim_start_exec(chunk);
    proof {
        lemma_skip_ws(chunk@, 0);
    }
    let e = token_end_exec(&r, 0);
    if e == 0 {
        return r;
    }
    let first = slice(&r, 0, e);
    if param_attr(&first) {
        let rest = suffix(&r, e);
        strip_leading_attrs(&rest)
    } else {
        r
    }
}

/// The message for an empty parameter.
pub open spec fn empty_param_msg(src: Seq<char>) -> Seq<char> {
    "empty parameter in signature: "@ + str_debug_text(src)
}

/// The message for `...` in a non-terminal position.
pub open spec fn inner_ellipsis_msg(src: Seq<char>) -> Seq<char> {
    "unexpected '...' in non-terminal position of parameter list: "@ + str_debug_text(src)
}

/// The message for an unterminated struct parameter type.
pub open spec fn open_struct_param_msg(src: Seq<char>) -> Seq<char> {
    "unterminated struct parameter type in signature: "@ + str_debug_text(src)
}

/// The message for a parameter chunk with no type token.
pub open spec fn no_type_token_msg(p: Seq<char>, src: Seq<char>) -> Seq<char> {
    "could not parse parameter type from chunk "@ + str_debug_text(p) + " in "@ + str_debug_text(
        src,
    )
}

/// The raw type of one parameter chunk `p` of the list `src`.
pub open spec fn spec_param_type(p: Seq<char>, src: Seq<char>) -> Result<Seq<char>, Seq<char>> {
    if p.len() == 0 {
        Err(empty_param_msg(src))
    } else if p == "..."@ {
        Err(inner_ellipsis_msg(src))
    } else {
        let ps = spec_strip_leading_attrs(p);
        if ps.len() > 0 && ps[0] == '{' {
            match spec_matching_close_brace(ps) {
                Some(e) => Ok(ps.subrange(0, e + 1)),
                None => Err(open_struct_param_msg(src)),
            }
        } else if ps.len() == 0 {
            Err(no_type_token_msg(p, src))
        } else {
            Ok(ps.subrange(0, token_end(ps, 0)))
        }
    }
}

/// The raw types of the chunks `parts`, left to right; the first bad chunk
/// decides the error.
pub open spec fn spec_param_types(parts: Seq<Seq<char>>, src: Seq<char>) -> Result<
    Seq<Seq<char>>,
    Seq<char>,
>
    decreases parts.len(),
{
    if parts.len() == 0 {
        Ok(Seq::empty())
    } else {
        match spec_param_type(parts[0], src) {
            Err(m) => Err(m),
            Ok(t) => match spec_param_types(parts.subrange(1, parts.len() as int), src) {
                Err(m) => Err(m),
                Ok(ts) => Ok(seq![t] + ts),
            },
        }
    }
}

/// The raw parameter types of a parameter list and whether it ends in `...`.
pub open spec fn spec_parse_param_list(src0: Seq<char>) -> Result<(Seq<Seq<char>>, bool), Seq<char>> {
    let src = trim(src0);
    if src.len() == 0 {
        Ok((Seq::empty(), false))
    } else {
        match spec_split_top_level_commas(src) {
            None => Err(unbalanced_bracket_msg(src)),
            Some(parts) => {
                let variadic = parts.len() > 0 && parts[parts.len() - 1] == "..."@;
                let parts2 = if variadic {
                    parts.subrange(0, parts.len() - 1)
                } else {
                    parts
                };
                match spec_param_types(parts2, src) {
                    Err(m) => Err(m),
                    Ok(ts) => Ok((ts, variadic)),
                }
            },
        }
    }
}

fn param_type(p: &[char], src: &[char]) -> (r: Result<Vec<char>, QirToQasmError>)
    ensures
        r matches Ok(t) ==> spec_param_type(p@, src@) == Ok::<Seq<char>, Seq<char>>(t@),
        r matches Err(e) ==> e is Syntax && spec_param_type(p@, src@) == Err::<
            Seq<char>,
            Seq<char>,
        >(e.payload()),
{
    if p.len() == 0 {
        let mut m: Vec<char> = Vec::new();
        push_str(&mut m, "empty parameter in signature: ");
        push_debug(&mut m, src);
        return Err(syntax_err(&m));
    }
    if chars_is(p, "...") {
        let mut m: Vec<char> = Vec::new();
        push_str(&mut m, "unexpected '...' in non-terminal position of parameter list: ");
        push_debug(&mut m, src);
        return Err(syntax_err(&m));
    }
    let ps = strip_leading_attrs(p);
    if ps.len() > 0 && ps[0] == '{' {
        match matching_close_brace(&ps) {
            Some(e) => {
                return Ok(slice(&ps, 0, e + 1));
            },
            None => {
                let mut m: Vec<char> = Vec::new();
                push_str(&mut m, "unterminated struct parameter type in signature: ");
                push_debug(&mut m, src);
                return Err(syntax_err(&m));
            },
        }
    }
    if ps.len() == 0 {
        let mut m: Vec<char> = Vec::new();
        push_str(&mut m, "could not parse parameter type from chunk ");
        push_debug(&mut m, p);
        push_str(&mut m, " in ");
        push_debug(&mut m, src);
        return Err(syntax_err(&m));
    }
    let e = token_end_exec(&ps, 0);
    Ok(slice(&ps, 0, e))
}

/// Parse a parameter list into raw (not yet canonical) types and the
/// variadic flag.
pub fn parse_param_list(src0: &[char]) -> (r: Result<(Vec<Vec<char>>, bool), QirToQasmError>)
    ensures
        r matches Ok((ts, v)) ==> spec_parse_param_list(src0@) matches Ok((sts, sv)) && sv == v
            && ts@.len() == sts.len() && forall|k: int|
            0 <= k < ts@.len() ==> #[trigger] ts@[k]@ == sts[k],
        r matches Err(e) ==> e is Syntax && spec_parse_param_list(src0@) == Err::<
            (Seq<Seq<char>>, bool),
            Seq<char>,
        >(e.payload()),
{
    let src = trim_exec(src0);
    if src.len() == 0 {
        return Ok((Vec::new(), false));
    }
    let mut parts = match split_commas_chars(&src) {
        Ok(p) => p,
        Err(e) => {
            return Err(e);
        },
    };
    let ghost all_parts = spec_split_top_level_commas(src@)->0;
    let variadic = parts.len() > 0 && chars_is(&parts[parts.len() - 1], "...");
    if variadic {
        parts.pop();
    }
    let ghost parts2 = if variadic {
        all_parts.subrange(0, all_parts.len() - 1)
    } else {
        all_parts
    };
    assert(parts@.len() == parts2.len());
    let mut out: Vec<Vec<char>> = Vec::new();
    let mut i: usize = 0;
    proof {
        assert(parts2.subrange(0, parts2.len() as int) =~= parts2);
        assert(out@.map_values(|v: Vec<char>| v@) =~= Seq::<Seq<char>>::empty());
        if spec_param_types(parts2, src@) is Ok {
            let ts = spec_param_types(parts2, src@)->Ok_0;
            assert(Seq::<Seq<char>>::empty() + ts =~= ts);
        }
    }
    while i < parts.len()
        invariant
            i <= parts@.len(),
            parts@.len() == parts2.len(),
            forall|k: int| 0 <= k < parts@.len() ==> #[trigger] parts@[k]@ == parts2[k],
            spec_parse_param_list(src0@) == (match spec_param_types(parts2, src@) {
                Err(m) => Err(m),
                Ok(ts) => Ok((ts, variadic)),
            }),
            out@.len() == i,
            spec_param_types(parts2, src@) == (match spec_param_types(
                parts2.subrange(i as int, parts2.len() as int),
                src@,
            ) {
                Err(m) => Err(m),
                Ok(ts) => Ok(out@.map_values(|v: Vec<char>| v@) + ts),
            }),
        decreases parts@.len() - i,
    {
        let t = match param_type(&parts[i], &src) {
            Ok(t) => t,
            Err(e) => {
                proof {
                    let tail = parts2.subrange(i as int, parts2.len() as int);
                    assert(tail[0] == parts2[i as int]);
                    assert(spec_param_types(tail, src@) == Err::<Seq<Seq<char>>, Seq<char>>(
                        e.payload(),
                    ));
                    assert(spec_param_types(parts2, src@) == Err::<Seq<Seq<char>>, Seq<char>>(
                        e.payload(),
                    ));
                }
                return Err(e);
            },
        };
        proof {
            let tail = parts2.subrange(i as int, parts2.len() as int);
            assert(tail[0] == parts2[i as int]);
            assert(tail.subrange(1, tail.len() as int) =~= parts2.subrange(
                i + 1,
                parts2.len() as int,
            ));
            let rest = spec_param_types(parts2.subrange(i + 1, parts2.len() as int), src@);
            if rest is Ok {
                assert(out@.map_values(|v: Vec<char>| v@) + (seq![t@] + rest->Ok_0) =~= out@.push(
                    t,
                ).map_values(|v: Vec<char>| v@) + rest->Ok_0);
            }
        }
        out.push(t);
        i = i + 1;
    }
    proof {
        assert(parts2.subrange(i as int, parts2.len() as int) =~= Seq::<Seq<char>>::empty());
        assert(out@.map_values(|v: Vec<char>| v@) + Seq::<Seq<char>>::empty() =~= out@.map_values(
            |v: Vec<char>| v@,
        ));
        assert forall|k: int| 0 <= k < out@.len() implies #[trigger] out@[k]@ == out@.map_values(
            |v: Vec<char>| v@,
        )[k] by {}
    }
    Ok((out, variadic))
}


// ---------------------------------------------------------------------------
// Signature lines
// ---------------------------------------------------------------------------

/// Linkage, visibility and calling-convention words that may stand between
/// `declare`/`define` and the return type.
pub open spec fn is_linkage_word(t: Seq<char>) -> bool {
    ||| t == "dso_local"@
    ||| t == "local_unnamed_addr"@
    ||| t == "internal"@
    ||| t == "private"@
    ||| t == "linkonce"@
    ||| t == "linkonce_odr"@
    ||| t == "weak"@
    ||| t == "weak_odr"@
    ||| t == "external"@
    ||| t == "common"@
    ||| t == "appending"@
    ||| t == "available_externally"@
    ||| t == "hidden"@
    ||| t == "protected"@
    ||| t == "default"@
    ||| t == "signext"@
    ||| t == "zeroext"@
    ||| t == "ccc"@
    ||| t == "fastcc"@
    ||| t == "coldcc"@
    ||| t == "tailcc"@
    ||| t == "cc"@
}

fn linkage_word(t: &[char]) -> (r: bool)
    ensures
        r == is_linkage_word(t@),
{
    chars_is(t, "dso_local") || chars_is(t, "local_unnamed_addr") || chars_is(t, "internal")
        || chars_is(t, "private") || chars_is(t, "linkonce") || chars_is(t, "linkonce_odr")
        || chars_is(t, "weak") || chars_is(t, "weak_odr") || chars_is(t, "external") || chars_is(
        t,
        "common",
    ) || chars_is(t, "appending") || chars_is(t, "available_externally") || chars_is(t, "hidden")
        || chars_is(t, "protected") || chars_is(t, "default") || chars_is(t, "signext")
        || chars_is(t, "zeroext") || chars_is(t, "ccc") || chars_is(t, "fastcc") || chars_is(
        t,
        "coldcc",
    ) || chars_is(t, "tailcc") || chars_is(t, "cc")
}

/// From `i`, skip whole linkage words (each followed by whitespace); the
/// position of the first other token, or `None` when a token is empty.
pub open spec fn linkage_skip(s: Seq<char>, i: int) -> Option<int>
    decreases s.len() - i,
{
    if i < 0 || i > s.len() {
        None
    } else {
        let e = token_end(s, i);
        if e <= i {
            None
        } else if is_linkage_word(s.subrange(i, e)) {
            proof {
                lemma_token_end(s, i);
                lemma_skip_ws(s, e);
            }
            linkage_skip(s, skip_ws(s, e))
        } else {
            Some(i)
        }
    }
}

/// The message for a line that is not a signature.
pub open spec fn sig_line_msg(line: Seq<char>) -> Seq<char> {
    "could not parse signature line: "@ + str_debug_text(line)
}

/// The message for a struct return type without its closing brace.
pub open spec fn unclosed_ret_msg(line: Seq<char>) -> Seq<char> {
    "unclosed struct return type: "@ + str_debug_text(line)
}

/// The message for a quoted name without its closing quote.
pub open spec fn unterminated_name_msg(line: Seq<char>) -> Seq<char> {
    "unterminated quoted name: "@ + str_debug_text(line)
}

/// The message for a signature without a parameter list.
pub open spec fn missing_paren_msg(line: Seq<char>) -> Seq<char> {
    "signature missing '(': "@ + str_debug_text(line)
}

/// The message for a parameter list without its closing parenthesis.
pub open spec fn unbalanced_sig_parens_msg(line: Seq<char>) -> Seq<char> {
    "unbalanced parens in signature: "@ + str_debug_text(line)
}

/// The return type at the start of `r` and the text after it (trimmed).
pub open spec fn spec_split_return_type(line: Seq<char>, r: Seq<char>) -> Result<
    (Seq<char>, Seq<char>),
    Seq<char>,
> {
    if r.len() > 0 && r[0] == '{' {
        match spec_matching_close_brace(r) {
            None => Err(unclosed_ret_msg(line)),
            Some(c) => Ok((r.subrange(0, c + 1), trim_start(r.subrange(c + 1, r.len() as int)))),
        }
    } else {
        let t = token_end(r, 0);
        Ok((r.subrange(0, t), trim_start(r.subrange(t, r.len() as int))))
    }
}

/// The function name at the start of `r` (after `@`) and the text after it.
pub open spec fn spec_split_sig_name(line: Seq<char>, r: Seq<char>) -> Result<
    (Seq<char>, Seq<char>),
    Seq<char>,
> {
    if r.len() > 0 && r[0] == '"' {
        let q = r.subrange(1, r.len() as int);
        match find_char(q, '"') {
            None => Err(unterminated_name_msg(line)),
            Some(e) => Ok((q.subrange(0, e), q.subrange(e + 1, q.len() as int))),
        }
    } else {
        let e = ident_end(r, 0);
        if e == 0 {
            Err(sig_line_msg(line))
        } else {
            Ok((r.subrange(0, e), r.subrange(e, r.len() as int)))
        }
    }
}

/// The parameter list of `after` (the text after the name).
pub open spec fn spec_sig_params(line: Seq<char>, after: Seq<char>) -> Result<
    (Seq<Seq<char>>, bool),
    Seq<char>,
> {
    match find_char(after, '(') {
        None => Err(missing_paren_msg(line)),
        Some(open) => match spec_matching_close_paren(after.subrange(open, after.len() as int)) {
            None => Err(unbalanced_sig_parens_msg(line)),
            Some(cr) => spec_parse_param_list(after.subrange(open + 1, open + cr)),
        },
    }
}

/// The signature (with raw types) after the linkage words.
pub open spec fn spec_sig_from_return(line: Seq<char>, r: Seq<char>) -> Result<SigView, Seq<char>> {
    match spec_split_return_type(line, r) {
        Err(m) => Err(m),
        Ok((ret, rest)) => if !(rest.len() > 0 && rest[0] == '@') {
            Err(sig_line_msg(line))
        } else {
            match spec_split_sig_name(line, rest.subrange(1, rest.len() as int)) {
                Err(m) => Err(m),
                Ok((name, after)) => match spec_sig_params(line, after) {
                    Err(m) => Err(m),
                    Ok((ts, v)) => Ok(
                        SigView { name, return_type: ret, param_types: ts, is_variadic: v },
                    ),
                },
            }
        },
    }
}

/// The signature (with raw types) on a `declare`/`define` line.
pub open spec fn spec_parse_signature_line(line: Seq<char>, kw: Seq<char>) -> Result<
    SigView,
    Seq<char>,
> {
    match find_seq(line, kw) {
        None => Err(sig_line_msg(line)),
        Some(idx) => {
            let rest0 = trim_start(line.subrange(idx + kw.len(), line.len() as int));
            match linkage_skip(rest0, 0) {
                None => Err(sig_line_msg(line)),
                Some(p) => spec_sig_from_return(line, rest0.subrange(p, rest0.len() as int)),
            }
        },
    }
}

fn sig_err(prefix: &str, line: &[char]) -> (e: QirToQasmError)
    ensures
        e is Syntax,
        e.payload() == prefix@ + str_debug_text(line@),
{
    let mut m: Vec<char> = Vec::new();
    push_str(&mut m, prefix);
    push_debug(&mut m, line);
    syntax_err(&m)
}

fn skip_linkage(s: &[char]) -> (r: Option<usize>)
    ensures
        r matches Some(p) ==> linkage_skip(s@, 0) == Some(p as int) && p <= s@.len(),
        r is None ==> linkage_skip(s@, 0) is None,
{
    let mut i: usize = 0;
    loop
        invariant
            i <= s@.len(),
            linkage_skip(s@, i as int) == linkage_skip(s@, 0),
        decreases s@.len() - i,
    {
        let e = token_end_exec(s, i);
        if e <= i {
            return None;
        }
        let tok = slice(s, i, e);
        if linkage_word(&tok) {
            proof {
                lemma_token_end(s@, i as int);
                lemma_skip_ws(s@, e as int);
            }
            i = skip_ws_exec(s, e);
        } else {
            return Some(i);
        }
    }
}

fn split_return_type(line: &[char], r: &[char]) -> (res: Result<(Vec<char>, Vec<char>), QirToQasmError>)
    ensures
        res matches Ok((a, b)) ==> spec_split_return_type(line@, r@) == Ok::<
            (Seq<char>, Seq<char>),
            Seq<char>,
        >((a@, b@)),
        res matches Err(e) ==> e is Syntax && spec_split_return_type(line@, r@) == Err::<
            (Seq<char>, Seq<char>),
            Seq<char>,
        >(e.payload()),
{
    if r.len() > 0 && r[0] == '{' {
        match matching_close_brace(r) {
            None => Err(sig_err("unclosed struct return type: ", line)),
            Some(c) => {
                let ret = slice(r, 0, c + 1);
                let rest = suffix(r, c + 1);
                Ok((ret, trim_start_exec(&rest)))
            },
        }
    } else {
        let t = token_end_exec(r, 0);
        let ret = slice(r, 0, t);
        let rest = suffix(r, t);
        Ok((ret, trim_start_exec(&rest)))
    }
}

fn split_sig_name(line: &[char], r: &[char]) -> (res: Result<(Vec<char>, Vec<char>), QirToQasmError>)
    ensures
        res matches Ok((a, b)) ==> spec_split_sig_name(line@, r@) == Ok::<
            (Seq<char>, Seq<char>),
            Seq<char>,
        >((a@, b@)),
        res matches Err(e) ==> e is Syntax && spec_split_sig_name(line@, r@) == Err::<
            (Seq<char>, Seq<char>),
            Seq<char>,
        >(e.payload()),
{
    if r.len() > 0 && r[0] == '"' {
        let q = suffix(r, 1);
        match find_char_exec(&q, '"', 0) {
            None => Err(sig_err("unterminated quoted name: ", line)),
            Some(e) => {
                proof {
                    lemma_find_char_from(q@, '"', 0);
                }
                Ok((slice(&q, 0, e), suffix(&q, e + 1)))
            },
        }
    } else {
        let e = ident_end_exec(r, 0);
        if e == 0 {
            Err(sig_err("could not parse signature line: ", line))
        } else {
            Ok((slice(r, 0, e), suffix(r, e)))
        }
    }
}

fn sig_params(line: &[char], after: &[char]) -> (res: Result<(Vec<Vec<char>>, bool), QirToQasmError>)
    ensures
        res matches Ok((ts, v)) ==> spec_sig_params(line@, after@) matches Ok((sts, sv)) && sv
            == v && ts@.map_values(|t: Vec<char>| t@) == sts,
        res matches Err(e) ==> e is Syntax && spec_sig_params(line@, after@) == Err::<
            (Seq<Seq<char>>, bool),
            Seq<char>,
        >(e.payload()),
{
    match find_char_exec(after, '(', 0) {
        None => Err(sig_err("signature missing '(': ", line)),
        Some(open) => {
            proof {
                lemma_find_char_from(after@, '(', 0);
            }
            let tail = suffix(after, open);
            match close_paren_index(&tail) {
                None => Err(sig_err("unbalanced parens in signature: ", line)),
                Some(cr) => {
                    assert(cr >= 1) by {
                        assert(tail@[0] == '(');
                    }
                    assert(open + cr < after.len());
                    let params = slice(after, open + 1, open + cr);
                    let r = parse_param_list(&params);
                    match r {
                        Ok((ts, v)) => {
                            proof {
                                let sts = spec_parse_param_list(params@)->Ok_0.0;
                                assert(ts@.map_values(|t: Vec<char>| t@) =~= sts);
                            }
                            Ok((ts, v))
                        },
                        Err(e) => Err(e),
                    }
                },
            }
        },
    }
}

fn strings_of(ts: Vec<Vec<char>>) -> (r: Vec<String>)
    ensures
        r@.map_values(|s: String| s@) == ts@.map_values(|t: Vec<char>| t@),
{
    let mut out: Vec<String> = Vec::new();
    let mut i: usize = 0;
    while i < ts.len()
        invariant
            i <= ts@.len(),
            out@.len() == i,
            forall|k: int| 0 <= k < i ==> #[trigger] out@[k]@ == ts@[k]@,
        decreases ts@.len() - i,
    {
        out.push(string_of(&ts[i]));
        i = i + 1;
    }
    assert(out@.map_values(|s: String| s@) =~= ts@.map_values(|t: Vec<char>| t@));
    out
}

fn parse_signature_line(line: &[char], keyword: &str) -> (r: Result<FunctionSignature, QirToQasmError>)
    ensures
        r matches Ok(s) ==> spec_parse_signature_line(line@, keyword@) == Ok::<SigView, Seq<char>>(
            s.view_sig(),
        ),
        r matches Err(e) ==> e is Syntax && spec_parse_signature_line(line@, keyword@) == Err::<
            SigView,
            Seq<char>,
        >(e.payload()),
{
    let idx = match find_lit(line, keyword) {
        None => {
            return Err(sig_err("could not parse signature line: ", line));
        },
        Some(i) => i,
    };
    let kw = chars_of(keyword);
    assert(idx + kw@.len() <= line.len());
    let after_kw = suffix(line, idx + kw.len());
    let rest0 = trim_start_exec(&after_kw);
    let p = match skip_linkage(&rest0) {
        None => {
            return Err(sig_err("could not parse signature line: ", line));
        },
        Some(p) => p,
    };
    let r = suffix(&rest0, p);
    let (ret, rest) = match split_return_type(line, &r) {
        Err(e) => {
            return Err(e);
        },
        Ok(x) => x,
    };
    if !(rest.len() > 0 && rest[0] == '@') {
        return Err(sig_err("could not parse signature line: ", line));
    }
    let rest3 = suffix(&rest, 1);
    let (name, after) = match split_sig_name(line, &rest3) {
        Err(e) => {
            return Err(e);
        },
        Ok(x) => x,
    };
    let (ts, v) = match sig_params(line, &after) {
        Err(e) => {
            return Err(e);
        },
        Ok(x) => x,
    };
    let param_types = strings_of(ts);
    Ok(
        FunctionSignature {
            name: string_of(&name),
            return_type: string_of(&ret),
            param_types,
            is_variadic: v,
        },
    )
}

// ---------------------------------------------------------------------------
// Validation and the whole source
// ---------------------------------------------------------------------------

/// Canonical forms of `ts`, left to right; the first bad type decides.
pub open spec fn spec_canonicalize_all(ts: Seq<Seq<char>>) -> Result<Seq<Seq<char>>, Seq<char>>
    decreases ts.len(),
{
    if ts.len() == 0 {
        Ok(Seq::empty())
    } else {
        match spec_canonicalize_type(ts[0]) {
            Err(m) => Err(m),
            Ok(c) => match spec_canonicalize_all(ts.subrange(1, ts.len() as int)) {
                Err(m) => Err(m),
                Ok(cs) => Ok(seq![c] + cs),
            },
        }
    }
}

/// The signature with its return and parameter types canonicalized; the
/// return type is checked first.
pub open spec fn spec_validate_signature(s: SigView) -> Result<SigView, Seq<char>> {
    match spec_canonicalize_type(s.return_type) {
        Err(m) => Err(m),
        Ok(ret) => match spec_canonicalize_all(s.param_types) {
            Err(m) => Err(m),
            Ok(ps) => Ok(SigView { name: s.name, return_type: ret, param_types: ps, is_variadic: s.is_variadic }),
        },
    }
}

fn validate_signature(sig: FunctionSignature) -> (r: Result<FunctionSignature, QirToQasmError>)
    ensures
        r matches Ok(s) ==> spec_validate_signature(sig.view_sig()) == Ok::<SigView, Seq<char>>(
            s.view_sig(),
        ),
        r matches Err(e) ==> e is Syntax && spec_validate_signature(sig.view_sig()) == Err::<
            SigView,
            Seq<char>,
        >(e.payload()),
{
    let ghost sv = sig.view_sig();
    let FunctionSignature { name, return_type, param_types, is_variadic } = sig;
    let rt = chars_of_string(&return_type);
    let ret = match canonicalize_chars(&rt) {
        Err(e) => {
            return Err(e);
        },
        Ok(c) => c,
    };
    let ghost pts = sv.param_types;
    let mut out: Vec<String> = Vec::new();
    let mut i: usize = 0;
    proof {
        assert(pts.subrange(0, pts.len() as int) =~= pts);
        assert(out@.map_values(|s: String| s@) =~= Seq::<Seq<char>>::empty());
        if spec_canonicalize_all(pts) is Ok {
            assert(Seq::<Seq<char>>::empty() + spec_canonicalize_all(pts)->Ok_0 =~= spec_canonicalize_all(pts)->Ok_0);
        }
    }
    while i < param_types.len()
        invariant
            i <= param_types@.len(),
            pts == param_types@.map_values(|s: String| s@),
            sv == sig.view_sig(),
            sv.param_types == pts,
            spec_canonicalize_type(sv.return_type) == Ok::<Seq<char>, Seq<char>>(ret@),
            spec_canonicalize_all(pts) == (match spec_canonicalize_all(
                pts.subrange(i as int, pts.len() as int),
            ) {
                Err(m) => Err(m),
                Ok(cs) => Ok(out@.map_values(|s: String| s@) + cs),
            }),
        decreases param_types@.len() - i,
    {
        let pc = chars_of_string(&param_types[i]);
        let ghost tail = pts.subrange(i as int, pts.len() as int);
        proof {
            assert(tail[0] == pc@);
            assert(tail.subrange(1, tail.len() as int) =~= pts.subrange(i + 1, pts.len() as int));
        }
        let c = match canonicalize_chars(&pc) {
            Err(e) => {
                assert(spec_canonicalize_all(tail) == Err::<Seq<Seq<char>>, Seq<char>>(
                    e.payload(),
                ));
                return Err(e);
            },
            Ok(c) => c,
        };
        proof {
            let rest = spec_canonicalize_all(pts.subrange(i + 1, pts.len() as int));
            if rest is Ok {
                assert(out@.map_values(|s: String| s@) + (seq![c@] + rest->Ok_0) =~= out@.push(
                    c,
                ).map_values(|s: String| s@) + rest->Ok_0);
            }
        }
        out.push(c);
        i = i + 1;
    }
    proof {
        assert(pts.subrange(i as int, pts.len() as int) =~= Seq::<Seq<char>>::empty());
        assert(out@.map_values(|s: String| s@) + Seq::<Seq<char>>::empty() =~= out@.map_values(
            |s: String| s@,
        ));
    }
    Ok(FunctionSignature { name, return_type: ret, param_types: out, is_variadic })
}

/// `s` begins with the keyword `kw` followed by whitespace or the end.
pub open spec fn spec_starts_with_keyword(s: Seq<char>, kw: Seq<char>) -> bool {
    has_prefix(s, kw) && (s.len() == kw.len() || is_ascii_ws(s[kw.len() as int]))
}

fn starts_with_keyword(s: &[char], kw: &str) -> (r: bool)
    ensures
        r == spec_starts_with_keyword(s@, kw@),
{
    let k = chars_of(kw);
    if !lit_at(s, 0, kw) {
        return false;
    }
    k.len() == s.len() || ascii_ws(s[k.len()])
}

/// The lines of `s`: the pieces between `'\n'` characters.
pub open spec fn split_lines(s: Seq<char>) -> Seq<Seq<char>>
    decreases s.len(),
{
    match find_char(s, '\n') {
        None => seq![s],
        Some(i) => {
            proof {
                lemma_find_char_from(s, '\n', 0);
            }
            seq![s.subrange(0, i)] + split_lines(s.subrange(i + 1, s.len() as int))
        },
    }
}

/// What one source line contributes: nothing, or its (validated) signature
/// or the error it raises.
pub open spec fn spec_line_signature(raw: Seq<char>) -> Option<Result<SigView, Seq<char>>> {
    let line = trim_end(raw);
    let stripped = trim_start(line);
    let kw = if spec_starts_with_keyword(stripped, "declare"@) {
        Some("declare"@)
    } else if spec_starts_with_keyword(stripped, "define"@) {
        Some("define"@)
    } else {
        None
    };
    match kw {
        None => None,
        Some(k) => Some(
            match spec_parse_signature_line(line, k) {
                Err(m) => Err(m),
                Ok(s) => spec_validate_signature(s),
            },
        ),
    }
}

/// The signatures of `lines` in order, or the first error.
pub open spec fn spec_line_signatures(lines: Seq<Seq<char>>) -> Result<Seq<SigView>, Seq<char>>
    decreases lines.len(),
{
    if lines.len() == 0 {
        Ok(Seq::empty())
    } else {
        let rest = spec_line_signatures(lines.subrange(1, lines.len() as int));
        match spec_line_signature(lines[0]) {
            None => rest,
            Some(Err(m)) => Err(m),
            Some(Ok(s)) => match rest {
                Err(m) => Err(m),
                Ok(ss) => Ok(seq![s] + ss),
            },
        }
    }
}

/// Entries after inserting each signature under its name, in order.
pub open spec fn insert_signatures(e: Seq<(Seq<char>, SigView)>, sigs: Seq<SigView>) -> Seq<
    (Seq<char>, SigView),
>
    decreases sigs.len(),
{
    if sigs.len() == 0 {
        e
    } else {
        insert_signatures(
            entries_insert(e, sigs[0].name, sigs[0]),
            sigs.subrange(1, sigs.len() as int),
        )
    }
}

/// The entries of a table, with each signature as plain text.
pub open spec fn entries_view(e: Seq<(Seq<char>, FunctionSignature)>) -> Seq<(Seq<char>, SigView)> {
    e.map_values(|p: (Seq<char>, FunctionSignature)| (p.0, p.1.view_sig()))
}

proof fn lemma_entries_view_insert(e: Seq<(Seq<char>, FunctionSignature)>, s: FunctionSignature)
    requires
        distinct_keys(e),
    ensures
        entries_view(entries_insert(e, s.name@, s)) == entries_insert(
            entries_view(e),
            s.name@,
            s.view_sig(),
        ),
{
    let ev = entries_view(e);
    let k = s.name@;
    lemma_key_index(e, k);
    assert(distinct_keys(ev));
    lemma_key_index(ev, k);
    match key_index(e, k) {
        Some(i) => {
            assert(ev[i].0 == k);
            assert(entries_view(e.update(i, (k, s))) =~= ev.update(i, (k, s.view_sig())));
        },
        None => {
            assert(forall|j: int| 0 <= j < ev.len() ==> ev[j].0 == e[j].0);
            assert(key_index(ev, k) is None);
            assert(entries_view(e.push((k, s))) =~= ev.push((k, s.view_sig())));
        },
    }
}

/// Parse every `declare` / `define` line of `qir_source` (as characters).
pub fn extract_signatures_chars(src: &[char]) -> (r: Result<SignatureTable, QirToQasmError>)
    ensures
        r matches Ok(t) ==> t.wf() && spec_line_signatures(split_lines(src@)) is Ok && entries_view(
            t.entries(),
        ) == insert_signatures(Seq::empty(), spec_line_signatures(split_lines(src@))->Ok_0),
        r matches Err(e) ==> e is Syntax && spec_line_signatures(split_lines(src@)) == Err::<
            Seq<SigView>,
            Seq<char>,
        >(e.payload()),
{
    let mut table = SignatureTable::new();
    let mut start: usize = 0;
    let ghost mut sigs: Seq<SigView> = Seq::empty();
    proof {
        assert(entries_view(table.entries()) =~= Seq::<(Seq<char>, SigView)>::empty());
        assert(src@.subrange(0, src@.len() as int) =~= src@);
        let all = spec_line_signatures(split_lines(src@));
        if all is Ok {
            assert(sigs + all->Ok_0 =~= all->Ok_0);
        }
    }
    loop
        invariant
            start <= src@.len(),
            table.wf(),
            entries_view(table.entries()) == insert_signatures(Seq::empty(), sigs),
            spec_line_signatures(split_lines(src@)) == (match spec_line_signatures(
                split_lines(src@.subrange(start as int, src@.len() as int)),
            ) {
                Err(m) => Err(m),
                Ok(ss) => Ok(sigs + ss),
            }),
        decreases src@.len() - start,
    {
        let rest = suffix(src, start);
        let nl = find_char_exec(&rest, '\n', 0);
        proof {
            lemma_find_char_from(rest@, '\n', 0);
        }
        let raw = match nl {
            Some(i) => slice(&rest, 0, i),
            None => rest,
        };
        let ghost raw_seq = raw@;
        let line = trim_end_exec(&raw);
        let stripped = trim_start_exec(&line);
        let kw: Option<&str> = if starts_with_keyword(&stripped, "declare") {
            Some("declare")
        } else if starts_with_keyword(&stripped, "define") {
            Some("define")
        } else {
            None
        };
        let ghost rest_lines = split_lines(src@.subrange(start as int, src@.len() as int));
        let ghost next: int = match nl {
            Some(i) => start + i + 1,
            None => src@.len() as int,
        };
        proof {
            assert(rest@ == src@.subrange(start as int, src@.len() as int));
            match nl {
                Some(i) => {
                    assert(rest_lines[0] == raw_seq);
                    assert(rest@.subrange(i + 1, rest@.len() as int) =~= src@.subrange(
                        next,
                        src@.len() as int,
                    ));
                    assert(rest_lines.subrange(1, rest_lines.len() as int) =~= split_lines(
                        src@.subrange(next, src@.len() as int),
                    ));
                },
                None => {
                    assert(rest_lines =~= seq![raw_seq]);
                    assert(rest_lines.subrange(1, rest_lines.len() as int) =~= Seq::<
                        Seq<char>,
                    >::empty());
                },
            }
        }
        match kw {
            None => {
                assert(spec_line_signature(raw_seq) is None) by {
                    reveal_strlit("declare");
                    reveal_strlit("define");
                }
            },
            Some(k) => {
                let parsed = match parse_signature_line(&line, k) {
                    Err(e) => {
                        return Err(e);
                    },
                    Ok(s) => s,
                };
                let sig = match validate_signature(parsed) {
                    Err(e) => {
                        return Err(e);
                    },
                    Ok(s) => s,
                };
                proof {
                    lemma_entries_view_insert(table.entries(), sig);
                    let ss = spec_line_signatures(rest_lines.subrange(1, rest_lines.len() as int));
                    if ss is Ok {
                        assert(sigs + (seq![sig.view_sig()] + ss->Ok_0) =~= sigs.push(
                            sig.view_sig(),
                        ) + ss->Ok_0);
                    }
                    lemma_insert_signatures_push(Seq::empty(), sigs, sig.view_sig());
                    sigs = sigs.push(sig.view_sig());
                }
                table.insert(sig);
            },
        }
        match nl {
            None => {
                proof {
                    assert(sigs + Seq::<SigView>::empty() =~= sigs);
                }
                return Ok(table);
            },
            Some(i) => {
                assert(start + i < src.len());
                start = start + i + 1;
            },
        }
    }
}

proof fn lemma_insert_signatures_push(
    e: Seq<(Seq<char>, SigView)>,
    sigs: Seq<SigView>,
    s: SigView,
)
    ensures
        insert_signatures(e, sigs.push(s)) == entries_insert(
            insert_signatures(e, sigs),
            s.name,
            s,
        ),
    decreases sigs.len(),
{
    if sigs.len() == 0 {
        let p = sigs.push(s);
        assert(p[0] == s);
        assert(p.subrange(1, p.len() as int) =~= Seq::<SigView>::empty());
        assert(insert_signatures(entries_insert(e, s.name, s), Seq::<SigView>::empty())
            == entries_insert(e, s.name, s));
    } else {
        let p = sigs.push(s);
        assert(p[0] == sigs[0]);
        assert(p.subrange(1, p.len() as int) =~= sigs.subrange(1, sigs.len() as int).push(s));
        lemma_insert_signatures_push(
            entries_insert(e, sigs[0].name, sigs[0]),
            sigs.subrange(1, sigs.len() as int),
            s,
        );
    }
}

/// Parse every `declare` / `define` line in `qir_source` and return the
/// resulting signature table.
pub fn extract_signatures(qir_source: &str) -> (r: Result<SignatureTable, QirToQasmError>)
    ensures
        r matches Ok(t) ==> t.wf() && spec_line_signatures(split_lines(qir_source@)) is Ok
            && entries_view(t.entries()) == insert_signatures(
            Seq::empty(),
            spec_line_signatures(split_lines(qir_source@))->Ok_0,
        ),
        r matches Err(e) ==> e is Syntax && spec_line_signatures(split_lines(qir_source@)) == Err::<
            Seq<SigView>,
            Seq<char>,
        >(e.payload()),
{
    let src = chars_of(qir_source);
    extract_signatures_chars(&src)
}

} // verus!
