//! Line-oriented recursive-descent parser for the QIR subset we accept.
//! Intentionally not a full LLVM textual-IR parser: it recovers the
//! handful of shapes QIR emitters actually produce and surfaces clear
//! errors for everything else.
use vstd::prelude::*;

use crate::error::{syntax_err, unsupported_err, QirToQasmError};
use crate::ir::parser_util::{
    close_paren_index, global_name_chars, ident_end, ident_end_exec, lemma_ident_end,
    spec_matching_close_paren, spec_parse_global_name,
};
use crate::error::{err_view, res_view, ErrView};
use crate::ir::model::{
    float_view, instr_view, operand_view, operands_view, opt_view, phis_view, CondView, FloatView,
    InstrView, OperandView, PhiView,
};
use crate::ir::{BinaryI1Op, BrCondOperand, Instruction, IntArithOp};
use crate::ir::Operand;
use crate::text::{
    ascii_ws, chars_is, chars_of, digit, find_char, find_char_exec, has_prefix, hex_digit,
    is_alnum, is_ascii_ws, is_digit, is_hex_digit, is_ident_char, is_ws, lemma_find_char_from,
    lemma_skip_ws, lemma_skip_ws_back, lit_at, rfind_char, rfind_char_exec, skip_ws, skip_ws_exec,
    slice, starts_with_lit, string_of, suffix, trim, trim_exec, trim_start, trim_start_exec, ws,
    lemma_rfind_char_before, str_debug_text,
};

verus! {

// ---------------------------------------------------------------------------
// Tokens
// ---------------------------------------------------------------------------

/// The first index at or after `i` holding ASCII whitespace (or `s.len()`).
pub open spec fn tok_end(s: Seq<char>, i: int) -> int
    decreases s.len() - i,
{
    if i < 0 {
        0
    } else if i >= s.len() {
        s.len() as int
    } else if is_ascii_ws(s[i]) {
        i
    } else {
        tok_end(s, i + 1)
    }
}

pub proof fn lemma_tok_end(s: Seq<char>, i: int)
    requires
        0 <= i <= s.len(),
    ensures
        i <= tok_end(s, i) <= s.len(),
        forall|j: int| i <= j < tok_end(s, i) ==> !is_ascii_ws(#[trigger] s[j]),
        tok_end(s, i) < s.len() ==> is_ascii_ws(s[tok_end(s, i)]),
    decreases s.len() - i,
{
    if i < s.len() && !is_ascii_ws(s[i]) {
        lemma_tok_end(s, i + 1);
    }
}

fn tok_end_exec(s: &[char], i: usize) -> (r: usize)
    requires
        i <= s@.len(),
    ensures
        r as int == tok_end(s@, i as int),
        i <= r <= s@.len(),
{
    proof {
        lemma_tok_end(s@, i as int);
    }
    let mut j: usize = i;
    while j < s.len() && !ascii_ws(s[j])
        invariant
            i <= j <= s@.len(),
            tok_end(s@, j as int) == tok_end(s@, i as int),
        decreases s@.len() - j,
    {
        j = j + 1;
    }
    j
}

/// The first whitespace-delimited token of `s` (after leading whitespace).
pub open spec fn spec_first_token(s: Seq<char>) -> Seq<char> {
    let t = trim_start(s);
    t.subrange(0, tok_end(t, 0))
}

/// Everything after the first token of `s`, with leading whitespace removed.
pub open spec fn spec_after_token(s: Seq<char>) -> Seq<char> {
    let t = trim_start(s);
    trim_start(t.subrange(tok_end(t, 0), t.len() as int))
}

pub proof fn lemma_after_token_shorter(s: Seq<char>)
    requires
        spec_first_token(s).len() > 0,
    ensures
        spec_after_token(s).len() < s.len(),
{
    lemma_skip_ws(s, 0);
    let t = trim_start(s);
    lemma_tok_end(t, 0);
    let u = t.subrange(tok_end(t, 0), t.len() as int);
    lemma_skip_ws(u, 0);
}

fn first_token_chars(s: &[char]) -> (r: Vec<char>)
    ensures
        r@ == spec_first_token(s@),
{
    let t = trim_start_exec(s);
    let e = tok_end_exec(&t, 0);
    slice(&t, 0, e)
}

fn after_token_chars(s: &[char]) -> (r: Vec<char>)
    ensures
        r@ == spec_after_token(s@),
{
    let t = trim_start_exec(s);
    let e = tok_end_exec(&t, 0);
    let u = suffix(&t, e);
    trim_start_exec(&u)
}

/// `s` up to its first `;` (the start of a comment), or all of it.
pub open spec fn spec_strip_comment(s: Seq<char>) -> Seq<char> {
    match find_char(s, ';') {
        Some(i) => s.subrange(0, i),
        None => s,
    }
}

fn strip_trailing_comment(s: &[char]) -> (r: Vec<char>)
    ensures
        r@ == spec_strip_comment(s@),
{
    match find_char_exec(s, ';', 0) {
        Some(i) => {
            proof {
                lemma_find_char_from(s@, ';', 0);
            }
            slice(s, 0, i)
        },
        None => slice(s, 0, s.len()),
    }
}

/// `tail`, `musttail`, `notail`.
pub open spec fn is_call_qualifier(t: Seq<char>) -> bool {
    t == "tail"@ || t == "musttail"@ || t == "notail"@
}

/// `s` trimmed, without its leading call qualifiers.
pub open spec fn spec_strip_qualifiers(s: Seq<char>) -> Seq<char>
    decreases s.len(),
{
    let r = trim_start(s);
    if is_call_qualifier(spec_first_token(r)) {
        proof {
            reveal_strlit("tail");
            reveal_strlit("musttail");
            reveal_strlit("notail");
            lemma_after_token_shorter(r);
            lemma_skip_ws(s, 0);
        }
        spec_strip_qualifiers(spec_after_token(r))
    } else {
        r
    }
}

fn strip_qualifiers_chars(s: &[char]) -> (r: Vec<char>)
    ensures
        r@ == spec_strip_qualifiers(s@),
    decreases s@.len(),
{
    let r = trim_start_exec(s);
    let f = first_token_chars(&r);
    if chars_is(&f, "tail") || chars_is(&f, "musttail") || chars_is(&f, "notail") {
        proof {
            reveal_strlit("tail");
            reveal_strlit("musttail");
            reveal_strlit("notail");
            lemma_after_token_shorter(r@);
            lemma_skip_ws(s@, 0);
        }
        let a = after_token_chars(&r);
        strip_qualifiers_chars(&a)
    } else {
        r
    }
}

/// Strip any leading instruction-prefix qualifiers (`tail`, `musttail`,
/// `notail`) from `s` and return the trimmed remainder.
pub fn strip_call_prefix_qualifiers(s: &str) -> (r: String)
    ensures
        r@ == spec_strip_qualifiers(s@),
{
    let c = chars_of(s);
    let r = strip_qualifiers_chars(&c);
    string_of(&r)
}

/// Whether `line` begins (after whitespace) with `%<something> =`.
pub open spec fn spec_is_assignment_prefix(line: Seq<char>) -> bool {
    let t = trim_start(line);
    match find_char(t, '=') {
        Some(eq) => {
            let left = trim(t.subrange(0, eq));
            left.len() > 0 && left[0] == '%'
        },
        None => false,
    }
}

fn assignment_prefix_chars(line: &[char]) -> (r: bool)
    ensures
        r == spec_is_assignment_prefix(line@),
{
    let t = trim_start_exec(line);
    match find_char_exec(&t, '=', 0) {
        Some(eq) => {
            proof {
                lemma_find_char_from(t@, '=', 0);
            }
            let l = slice(&t, 0, eq);
            let left = trim_exec(&l);
            left.len() > 0 && left[0] == '%'
        },
        None => false,
    }
}

/// Whether `line` begins (after whitespace) with `%<something> =`.
pub fn is_assignment_prefix(line: &str) -> (r: bool)
    ensures
        r == spec_is_assignment_prefix(line@),
{
    let c = chars_of(line);
    assignment_prefix_chars(&c)
}

/// The opcode of `line`: the first token after an optional `%<name> =`
/// and any call qualifiers (empty if there is none).
pub open spec fn spec_effective_opcode(line: Seq<char>) -> Seq<char> {
    let rest = trim_start(line);
    let rest2 = if spec_is_assignment_prefix(rest) {
        match find_char(rest, '=') {
            Some(eq) => trim_start(rest.subrange(eq + 1, rest.len() as int)),
            None => rest,
        }
    } else {
        rest
    };
    spec_first_token(spec_strip_qualifiers(rest2))
}

fn effective_opcode_chars(line: &[char]) -> (r: Vec<char>)
    ensures
        r@ == spec_effective_opcode(line@),
{
    let rest = trim_start_exec(line);
    let rest2 = if assignment_prefix_chars(&rest) {
        match find_char_exec(&rest, '=', 0) {
            Some(eq) => {
                proof {
                    lemma_find_char_from(rest@, '=', 0);
                    assert(eq < rest.len());
                }
                let a = suffix(&rest, eq + 1);
                trim_start_exec(&a)
            },
            None => rest,
        }
    } else {
        rest
    };
    let s = strip_qualifiers_chars(&rest2);
    first_token_chars(&s)
}

/// Return the effective opcode of `line` (see [`spec_effective_opcode`]).
pub fn effective_opcode(line: &str) -> (r: String)
    ensures
        r@ == spec_effective_opcode(line@),
{
    let c = chars_of(line);
    let r = effective_opcode_chars(&c);
    string_of(&r)
}

// ---------------------------------------------------------------------------
// Parenthesis depth
// ---------------------------------------------------------------------------

/// `(` and `[` count +1, `)` and `]` count -1.
pub open spec fn paren_weight(c: char) -> int {
    if c == '(' || c == '[' {
        1
    } else if c == ')' || c == ']' {
        -1
    } else {
        0
    }
}

/// The net bracket depth of `s`.
pub open spec fn spec_paren_depth(s: Seq<char>) -> int
    decreases s.len(),
{
    if s.len() == 0 {
        0
    } else {
        spec_paren_depth(s.drop_last()) + paren_weight(s.last())
    }
}

pub proof fn lemma_paren_depth_bound(s: Seq<char>)
    ensures
        -s.len() <= spec_paren_depth(s) <= s.len(),
    decreases s.len(),
{
    if s.len() > 0 {
        lemma_paren_depth_bound(s.drop_last());
    }
}

fn paren_depth_chars(s: &[char]) -> (r: i128)
    ensures
        r == spec_paren_depth(s@),
{
    let mut d: i128 = 0;
    let mut i: usize = 0;
    while i < s.len()
        invariant
            i <= s@.len(),
            d == spec_paren_depth(s@.subrange(0, i as int)),
            -(i as int) <= d <= i as int,
        decreases s@.len() - i,
    {
        proof {
            assert(s@.subrange(0, i + 1).drop_last() =~= s@.subrange(0, i as int));
        }
        let c = s[i];
        if c == '(' || c == '[' {
            d = d + 1;
        } else if c == ')' || c == ']' {
            d = d - 1;
        }
        i = i + 1;
    }
    proof {
        assert(s@.subrange(0, s@.len() as int) =~= s@);
    }
    d
}

/// The net bracket depth of `s`: `(`/`[` open, `)`/`]` close.
pub fn paren_depth(s: &str) -> (r: i128)
    ensures
        r == spec_paren_depth(s@),
{
    let c = chars_of(s);
    paren_depth_chars(&c)
}

// ---------------------------------------------------------------------------
// Numbers
// ---------------------------------------------------------------------------

/// Value of an ASCII decimal digit.
pub open spec fn digit_value(c: char) -> int {
    c as int - '0' as int
}

/// Value of a string of decimal digits.
pub open spec fn dec_value(s: Seq<char>) -> int
    decreases s.len(),
{
    if s.len() == 0 {
        0
    } else {
        dec_value(s.drop_last()) * 10 + digit_value(s.last())
    }
}

/// All characters are ASCII digits.
pub open spec fn all_digits(s: Seq<char>) -> bool {
    forall|i: int| 0 <= i < s.len() ==> is_digit(#[trigger] s[i])
}

pub proof fn lemma_dec_value_nonneg(s: Seq<char>)
    requires
        all_digits(s),
    ensures
        0 <= dec_value(s),
    decreases s.len(),
{
    if s.len() > 0 {
        lemma_dec_value_nonneg(s.drop_last());
    }
}

pub proof fn lemma_dec_value_prefix(s: Seq<char>, k: int)
    requires
        all_digits(s),
        0 <= k <= s.len(),
    ensures
        dec_value(s.subrange(0, k)) <= dec_value(s),
    decreases s.len() - k,
{
    if k < s.len() {
        lemma_dec_value_prefix(s, k + 1);
        let p = s.subrange(0, k + 1);
        assert(p.drop_last() =~= s.subrange(0, k));
        lemma_dec_value_nonneg(s.subrange(0, k));
    } else {
        assert(s.subrange(0, k) =~= s);
    }
}

/// Rust's decimal integer syntax: an optional sign and one or more ASCII
/// digits; its (unbounded) value.
pub open spec fn spec_decimal(s: Seq<char>) -> Option<int> {
    if s.len() > 0 && (s[0] == '-' || s[0] == '+') {
        let d = s.subrange(1, s.len() as int);
        if d.len() > 0 && all_digits(d) {
            Some(if s[0] == '-' { -dec_value(d) } else { dec_value(d) })
        } else {
            None
        }
    } else if s.len() > 0 && all_digits(s) {
        Some(dec_value(s))
    } else {
        None
    }
}

/// The largest magnitude tracked by [`parse_decimal`].
pub open spec fn mag_cap() -> int {
    0x8000_0000_0000_0000_0000_0000_0000_0000
}

/// Digits of `d` as a magnitude, or `None` when not all digits, empty, or
/// above [`mag_cap`].
fn digits_value(d: &[char]) -> (r: Option<u128>)
    ensures
        r matches Some(m) ==> d@.len() > 0 && all_digits(d@) && m == dec_value(d@) && m
            <= mag_cap(),
        r is None ==> d@.len() == 0 || !all_digits(d@) || dec_value(d@) > mag_cap(),
{
    if d.len() == 0 {
        return None;
    }
    let mut m: u128 = 0;
    let mut i: usize = 0;
    while i < d.len()
        invariant
            i <= d@.len(),
            d@.len() > 0,
            all_digits(d@.subrange(0, i as int)),
            m == dec_value(d@.subrange(0, i as int)),
            m <= mag_cap(),
        decreases d@.len() - i,
    {
        let c = d[i];
        proof {
            assert(d@.subrange(0, i + 1).drop_last() =~= d@.subrange(0, i as int));
        }
        if !digit(c) {
            assert(!all_digits(d@));
            return None;
        }
        let v: u128 = ((c as u32) - ('0' as u32)) as u128;
        if m > 17014118346046923173168730371588410572 {
            // m * 10 would exceed the cap; so do all longer prefixes.
            proof {
                assert(dec_value(d@.subrange(0, i + 1)) > mag_cap()) by (nonlinear_arith)
                    requires
                        dec_value(d@.subrange(0, i + 1)) == m * 10 + digit_value(c),
                        m > 17014118346046923173168730371588410572,
                        0 <= digit_value(c),
                ;
                if all_digits(d@) {
                    lemma_dec_value_prefix(d@, i + 1);
                }
            }
            return None;
        }
        let nm = m * 10 + v;
        if nm > 0x8000_0000_0000_0000_0000_0000_0000_0000 {
            proof {
                if all_digits(d@) {
                    lemma_dec_value_prefix(d@, i + 1);
                }
            }
            return None;
        }
        m = nm;
        i = i + 1;
    }
    proof {
        assert(d@.subrange(0, d@.len() as int) =~= d@);
    }
    Some(m)
}

/// Parse Rust decimal integer syntax into a sign and a magnitude (see
/// [`spec_decimal`]); `None` also when the magnitude exceeds [`mag_cap`].
fn parse_decimal(s: &[char]) -> (r: Option<(bool, u128)>)
    ensures
        r matches Some((neg, m)) ==> m <= mag_cap() && spec_decimal(s@) == Some(
            if neg {
                -(m as int)
            } else {
                m as int
            },
        ),
        r is None ==> (spec_decimal(s@) matches Some(v) ==> (v > mag_cap() || v < -mag_cap())),
{
    if s.len() > 0 && (s[0] == '-' || s[0] == '+') {
        let d = suffix(s, 1);
        match digits_value(&d) {
            Some(m) => Some((s[0] == '-', m)),
            None => None,
        }
    } else {
        match digits_value(s) {
            Some(m) => Some((false, m)),
            None => None,
        }
    }
}

/// `s` parsed as an `i64` the way `str::parse::<i64>` does.
pub open spec fn spec_parse_i64(s: Seq<char>) -> Option<i64> {
    match spec_decimal(s) {
        Some(v) => if i64::MIN <= v <= i64::MAX {
            Some(v as i64)
        } else {
            None
        },
        None => None,
    }
}

/// `s` parsed as an `i128` the way `str::parse::<i128>` does.
pub open spec fn spec_parse_i128(s: Seq<char>) -> Option<i128> {
    match spec_decimal(s) {
        Some(v) => if i128::MIN <= v <= i128::MAX {
            Some(v as i128)
        } else {
            None
        },
        None => None,
    }
}

/// `s` parsed as a `u32` the way `str::parse::<u32>` does.
pub open spec fn spec_parse_u32(s: Seq<char>) -> Option<u32> {
    match spec_decimal(s) {
        Some(v) => if 0 <= v <= u32::MAX {
            Some(v as u32)
        } else {
            None
        },
        None => None,
    }
}

fn parse_i64(s: &[char]) -> (r: Option<i64>)
    ensures
        r == spec_parse_i64(s@),
{
    match parse_decimal(s) {
        Some((neg, m)) => {
            if neg && m <= 0x8000_0000_0000_0000 {
                Some((0 - (m as i128)) as i64)
            } else if !neg && m <= 0x7fff_ffff_ffff_ffff {
                Some(m as i64)
            } else {
                None
            }
        },
        None => None,
    }
}

fn parse_i128(s: &[char]) -> (r: Option<i128>)
    ensures
        r == spec_parse_i128(s@),
{
    match parse_decimal(s) {
        Some((neg, m)) => {
            if neg {
                if m == 0x8000_0000_0000_0000_0000_0000_0000_0000 {
                    Some(i128::MIN)
                } else {
                    Some(0 - (m as i128))
                }
            } else if m <= 0x7fff_ffff_ffff_ffff_ffff_ffff_ffff_ffff {
                Some(m as i128)
            } else {
                None
            }
        },
        None => None,
    }
}

fn parse_u32(s: &[char]) -> (r: Option<u32>)
    ensures
        r == spec_parse_u32(s@),
{
    match parse_decimal(s) {
        Some((neg, m)) => {
            if neg && m == 0 {
                Some(0)
            } else if !neg && m <= 0xffff_ffff {
                Some(m as u32)
            } else {
                None
            }
        },
        None => None,
    }
}

/// The first index at or after `i` that is not an ASCII digit.
pub open spec fn digits_end(s: Seq<char>, i: int) -> int
    decreases s.len() - i,
{
    if i < 0 {
        0
    } else if i >= s.len() {
        s.len() as int
    } else if is_digit(s[i]) {
        digits_end(s, i + 1)
    } else {
        i
    }
}

pub proof fn lemma_digits_end(s: Seq<char>, i: int)
    requires
        0 <= i <= s.len(),
    ensures
        i <= digits_end(s, i) <= s.len(),
        forall|j: int| i <= j < digits_end(s, i) ==> is_digit(#[trigger] s[j]),
        digits_end(s, i) < s.len() ==> !is_digit(s[digits_end(s, i)]),
    decreases s.len() - i,
{
    if i < s.len() && is_digit(s[i]) {
        lemma_digits_end(s, i + 1);
    }
}

fn digits_end_exec(s: &[char], i: usize) -> (r: usize)
    requires
        i <= s@.len(),
    ensures
        r as int == digits_end(s@, i as int),
        i <= r <= s@.len(),
{
    proof {
        lemma_digits_end(s@, i as int);
    }
    let mut j: usize = i;
    while j < s.len() && digit(s[j])
        invariant
            i <= j <= s@.len(),
            digits_end(s@, j as int) == digits_end(s@, i as int),
        decreases s@.len() - j,
    {
        j = j + 1;
    }
    j
}

/// The leading run of digits of `s` as a `u32` (if any digits and it fits)
/// and the rest of `s` after the run.
pub open spec fn spec_split_u32(s: Seq<char>) -> (Option<u32>, Seq<char>) {
    let end = digits_end(s, 0);
    if end == 0 {
        (None, s)
    } else {
        (spec_parse_u32(s.subrange(0, end)), s.subrange(end, s.len() as int))
    }
}

fn split_u32_chars(s: &[char]) -> (r: (Option<u32>, Vec<char>))
    ensures
        r.0 == spec_split_u32(s@).0,
        r.1@ == spec_split_u32(s@).1,
{
    let end = digits_end_exec(s, 0);
    if end == 0 {
        (None, slice(s, 0, s.len()))
    } else {
        let d = slice(s, 0, end);
        (parse_u32(&d), suffix(s, end))
    }
}

/// Split a leading decimal `u32` off `s` (see [`spec_split_u32`]).
pub fn split_u32(s: &str) -> (r: (Option<u32>, String))
    ensures
        r.0 == spec_split_u32(s@).0,
        r.1@ == spec_split_u32(s@).1,
{
    let c = chars_of(s);
    let (n, rest) = split_u32_chars(&c);
    (n, string_of(&rest))
}

// ---------------------------------------------------------------------------
// Labels
// ---------------------------------------------------------------------------

/// The label declared by a line `name:` (optionally followed by a
/// comment); LLVM 15+ quoted labels `"N":` give `N`.
pub open spec fn spec_label_line(line: Seq<char>) -> Option<Seq<char>> {
    let lp = trim(spec_strip_comment(line));
    if !(lp.len() > 0 && lp.last() == ':') {
        None
    } else {
        let a = lp.drop_last();
        let b = if a.len() >= 2 && a[0] == '"' && a.last() == '"' {
            a.subrange(1, a.len() - 1)
        } else {
            a
        };
        if b.len() > 0 && all_ident(b) {
            Some(b)
        } else {
            None
        }
    }
}

/// Every character is an identifier character.
pub open spec fn all_ident(b: Seq<char>) -> bool {
    forall|i: int| 0 <= i < b.len() ==> is_ident_char(#[trigger] b[i])
}

fn all_ident_chars(b: &[char]) -> (r: bool)
    ensures
        r == all_ident(b@),
{
    let mut i: usize = 0;
    while i < b.len()
        invariant
            i <= b@.len(),
            forall|j: int| 0 <= j < i ==> is_ident_char(#[trigger] b@[j]),
        decreases b@.len() - i,
    {
        if !crate::text::ident_char(b[i]) {
            return false;
        }
        i = i + 1;
    }
    true
}

fn label_line_chars(line: &[char]) -> (r: Option<Vec<char>>)
    ensures
        r matches Some(v) ==> spec_label_line(line@) == Some(v@),
        r is None ==> spec_label_line(line@) is None,
{
    let c = strip_trailing_comment(line);
    let lp = trim_exec(&c);
    if !(lp.len() > 0 && lp[lp.len() - 1] == ':') {
        return None;
    }
    let a = slice(&lp, 0, lp.len() - 1);
    proof {
        assert(a@ =~= lp@.drop_last());
    }
    let ghost sa = a@;
    let b = if a.len() >= 2 && a[0] == '"' && a[a.len() - 1] == '"' {
        slice(&a, 1, a.len() - 1)
    } else {
        a
    };
    assert(b@ == (if sa.len() >= 2 && sa[0] == '"' && sa.last() == '"' {
        sa.subrange(1, sa.len() - 1)
    } else {
        sa
    }));
    if b.len() > 0 && all_ident_chars(&b) {
        Some(b)
    } else {
        None
    }
}

/// The label a line declares, if it is a bare label line (see
/// [`spec_label_line`]).
pub fn try_parse_label_line(line: &str) -> (r: Option<String>)
    ensures
        r matches Some(v) ==> spec_label_line(line@) == Some(v@),
        r is None ==> spec_label_line(line@) is None,
{
    let c = chars_of(line);
    match label_line_chars(&c) {
        Some(v) => Some(string_of(&v)),
        None => None,
    }
}

/// A label identifier after its `%`: `"<text>"` gives the quoted text,
/// otherwise the leading identifier characters.
pub open spec fn spec_label_ident(s: Seq<char>) -> Seq<char> {
    if s.len() > 0 && s[0] == '"' && find_char(s.subrange(1, s.len() as int), '"') is Some {
        let inner = s.subrange(1, s.len() as int);
        inner.subrange(0, find_char(inner, '"')->0)
    } else {
        s.subrange(0, ident_end(s, 0))
    }
}

fn label_ident(s: &[char]) -> (r: Vec<char>)
    ensures
        r@ == spec_label_ident(s@),
{
    if s.len() > 0 && s[0] == '"' {
        let inner = suffix(s, 1);
        match find_char_exec(&inner, '"', 0) {
            Some(end) => {
                proof {
                    lemma_find_char_from(inner@, '"', 0);
                }
                return slice(&inner, 0, end);
            },
            None => {},
        }
    }
    proof {
        lemma_ident_end(s@, 0);
    }
    let e = ident_end_exec(s, 0);
    slice(s, 0, e)
}

/// `label %<ident>` gives the identifier.
pub open spec fn spec_label_ref(s: Seq<char>) -> Option<Seq<char>> {
    let t = trim(s);
    if has_prefix(t, "label"@) {
        let u = trim_start(t.subrange(5, t.len() as int));
        if u.len() > 0 && u[0] == '%' {
            Some(spec_label_ident(u.subrange(1, u.len() as int)))
        } else {
            None
        }
    } else {
        None
    }
}

fn label_ref(s: &[char]) -> (r: Option<Vec<char>>)
    ensures
        r matches Some(v) ==> spec_label_ref(s@) == Some(v@),
        r is None ==> spec_label_ref(s@) is None,
{
    let t = trim_exec(s);
    if !starts_with_lit(&t, "label") {
        return None;
    }
    proof {
        reveal_strlit("label");
    }
    let a = suffix(&t, 5);
    let u = trim_start_exec(&a);
    if u.len() > 0 && u[0] == '%' {
        let v = suffix(&u, 1);
        Some(label_ident(&v))
    } else {
        None
    }
}

// ---------------------------------------------------------------------------
// Operand pieces
// ---------------------------------------------------------------------------

/// `%Name*` or `%"Name"*` gives `Name`.
pub open spec fn spec_struct_ptr_type(ty: Seq<char>) -> Option<Seq<char>> {
    if !(ty.len() > 0 && ty.last() == '*') {
        None
    } else {
        let t = ty.drop_last();
        if has_prefix(t, "%\""@) && t.len() >= 3 && t.last() == '"' {
            Some(t.subrange(2, t.len() - 1))
        } else if t.len() > 0 && t[0] == '%' {
            Some(t.subrange(1, t.len() as int))
        } else {
            None
        }
    }
}

fn struct_ptr_type_chars(ty: &[char]) -> (r: Option<Vec<char>>)
    ensures
        r matches Some(v) ==> spec_struct_ptr_type(ty@) == Some(v@),
        r is None ==> spec_struct_ptr_type(ty@) is None,
{
    if !(ty.len() > 0 && ty[ty.len() - 1] == '*') {
        return None;
    }
    let t = slice(ty, 0, ty.len() - 1);
    proof {
        assert(t@ =~= ty@.drop_last());
    }
    if lit_at(&t, 0, "%\"") && t.len() >= 3 && t[t.len() - 1] == '"' {
        return Some(slice(&t, 2, t.len() - 1));
    }
    if t.len() > 0 && t[0] == '%' {
        return Some(suffix(&t, 1));
    }
    None
}

/// The struct name of a typed struct pointer `%Name*` / `%"Name"*`.
pub fn parse_struct_ptr_type(ty: &str) -> (r: Option<String>)
    ensures
        r matches Some(v) ==> spec_struct_ptr_type(ty@) == Some(v@),
        r is None ==> spec_struct_ptr_type(ty@) is None,
{
    let c = chars_of(ty);
    match struct_ptr_type_chars(&c) {
        Some(v) => Some(string_of(&v)),
        None => None,
    }
}

/// The first index at or after `i` holding Unicode whitespace (or `s.len()`).
pub open spec fn ws_tok_end(s: Seq<char>, i: int) -> int
    decreases s.len() - i,
{
    if i < 0 {
        0
    } else if i >= s.len() {
        s.len() as int
    } else if is_ws(s[i]) {
        i
    } else {
        ws_tok_end(s, i + 1)
    }
}

pub proof fn lemma_ws_tok_end(s: Seq<char>, i: int)
    requires
        0 <= i <= s.len(),
    ensures
        i <= ws_tok_end(s, i) <= s.len(),
    decreases s.len() - i,
{
    if i < s.len() && !is_ws(s[i]) {
        lemma_ws_tok_end(s, i + 1);
    }
}

fn ws_tok_end_exec(s: &[char], i: usize) -> (r: usize)
    requires
        i <= s@.len(),
    ensures
        r as int == ws_tok_end(s@, i as int),
        i <= r <= s@.len(),
{
    proof {
        lemma_ws_tok_end(s@, i as int);
    }
    let mut j: usize = i;
    while j < s.len() && !ws(s[j])
        invariant
            i <= j <= s@.len(),
            ws_tok_end(s@, j as int) == ws_tok_end(s@, i as int),
        decreases s@.len() - j,
    {
        j = j + 1;
    }
    j
}

/// `inttoptr (iN <n> to <ptr>)` gives `n` (an `i64`).
pub open spec fn spec_inttoptr(value: Seq<char>) -> Option<i64> {
    if !has_prefix(value, "inttoptr"@) {
        None
    } else {
        let r1 = trim_start(value.subrange(8, value.len() as int));
        if !(r1.len() > 0 && r1[0] == '(') {
            None
        } else {
            let rest = trim_start(r1.subrange(1, r1.len() as int));
            let e1 = ws_tok_end(rest, 0);
            let p = skip_ws(rest, e1);
            if e1 == 0 || p >= rest.len() {
                None
            } else {
                spec_parse_i64(rest.subrange(p, ws_tok_end(rest, p)))
            }
        }
    }
}

fn inttoptr_chars(value: &[char]) -> (r: Option<i64>)
    ensures
        r == spec_inttoptr(value@),
{
    if !starts_with_lit(value, "inttoptr") {
        return None;
    }
    proof {
        reveal_strlit("inttoptr");
    }
    let a = suffix(value, 8);
    let r1 = trim_start_exec(&a);
    if !(r1.len() > 0 && r1[0] == '(') {
        return None;
    }
    let b = suffix(&r1, 1);
    let rest = trim_start_exec(&b);
    let e1 = ws_tok_end_exec(&rest, 0);
    proof {
        lemma_skip_ws(rest@, e1 as int);
    }
    let p = skip_ws_exec(&rest, e1);
    if e1 == 0 || p >= rest.len() {
        return None;
    }
    let e2 = ws_tok_end_exec(&rest, p);
    let t = slice(&rest, p, e2);
    parse_i64(&t)
}

/// The integer index of an `inttoptr (iN N to <ptr>)` constant.
pub fn parse_inttoptr(value: &str) -> (r: Option<i64>)
    ensures
        r == spec_inttoptr(value@),
{
    let c = chars_of(value);
    inttoptr_chars(&c)
}

/// `bitcast (<ty> @<name> to <ty>)` gives `name`: the first `@` after the
/// opening parenthesis must start a global name.
pub open spec fn spec_bitcast_global(value: Seq<char>) -> Option<Seq<char>> {
    if !has_prefix(value, "bitcast"@) {
        None
    } else {
        let r1 = trim_start(value.subrange(7, value.len() as int));
        if !(r1.len() > 0 && r1[0] == '(') {
            None
        } else {
            let body = r1.subrange(1, r1.len() as int);
            match find_char(body, '@') {
                None => None,
                Some(i) => match spec_parse_global_name(body.subrange(i, body.len() as int)) {
                    Some((n, _)) => Some(n),
                    None => None,
                },
            }
        }
    }
}

fn bitcast_global_chars(value: &[char]) -> (r: Option<String>)
    ensures
        r matches Some(v) ==> spec_bitcast_global(value@) == Some(v@),
        r is None ==> spec_bitcast_global(value@) is None,
{
    if !starts_with_lit(value, "bitcast") {
        return None;
    }
    proof {
        reveal_strlit("bitcast");
    }
    let a = suffix(value, 7);
    let r1 = trim_start_exec(&a);
    if !(r1.len() > 0 && r1[0] == '(') {
        return None;
    }
    let body = suffix(&r1, 1);
    match find_char_exec(&body, '@', 0) {
        None => None,
        Some(i) => {
            proof {
                lemma_find_char_from(body@, '@', 0);
            }
            let t = suffix(&body, i);
            match global_name_chars(&t) {
                Some((n, _)) => Some(n),
                None => None,
            }
        },
    }
}

/// An integer literal: `str::parse::<i128>` of the trimmed text.
pub open spec fn spec_int_literal(s: Seq<char>) -> Option<i128> {
    spec_parse_i128(trim(s))
}

fn int_literal_chars(s: &[char]) -> (r: Option<i128>)
    ensures
        r == spec_int_literal(s@),
{
    let t = trim_exec(s);
    parse_i128(&t)
}

/// Value of a hexadecimal digit.
pub open spec fn hex_digit_value(c: char) -> int {
    if '0' <= c && c <= '9' {
        c as int - '0' as int
    } else if 'a' <= c && c <= 'f' {
        c as int - 'a' as int + 10
    } else {
        c as int - 'A' as int + 10
    }
}

/// Value of a string of hexadecimal digits.
pub open spec fn hex_value(s: Seq<char>) -> int
    decreases s.len(),
{
    if s.len() == 0 {
        0
    } else {
        hex_value(s.drop_last()) * 16 + hex_digit_value(s.last())
    }
}

/// `16^n`.
pub open spec fn pow16(n: nat) -> int
    decreases n,
{
    if n == 0 {
        1
    } else {
        16 * pow16((n - 1) as nat)
    }
}

pub proof fn lemma_pow16_pos(n: nat)
    ensures
        1 <= pow16(n),
    decreases n,
{
    if n > 0 {
        lemma_pow16_pos((n - 1) as nat);
    }
}

pub proof fn lemma_pow16_mono(i: nat, j: nat)
    requires
        i <= j,
    ensures
        1 <= pow16(i) <= pow16(j),
    decreases j,
{
    lemma_pow16_pos(i);
    if j > i {
        lemma_pow16_mono(i, (j - 1) as nat);
    }
}

/// Exactly sixteen hexadecimal digits.
pub open spec fn is_hex16(s: Seq<char>) -> bool {
    s.len() == 16 && forall|i: int| 0 <= i < s.len() ==> is_hex_digit(#[trigger] s[i])
}

fn hex16_value(s: &[char]) -> (r: Option<u64>)
    ensures
        r matches Some(v) ==> is_hex16(s@) && v == hex_value(s@),
        r is None ==> !is_hex16(s@),
{
    if s.len() != 16 {
        return None;
    }
    let mut m: u64 = 0;
    let mut i: usize = 0;
    proof {
        reveal_with_fuel(pow16, 17);
        assert(pow16(16) == 0x1_0000_0000_0000_0000);
    }
    while i < 16
        invariant
            i <= 16,
            s@.len() == 16,
            forall|j: int| 0 <= j < i ==> is_hex_digit(#[trigger] s@[j]),
            m == hex_value(s@.subrange(0, i as int)),
            0 <= m < pow16(i as nat),
            pow16(16) == 0x1_0000_0000_0000_0000,
        decreases 16 - i,
    {
        let c = s[i];
        if !hex_digit(c) {
            return None;
        }
        let d: u64 = if '0' <= c && c <= '9' {
            ((c as u32) - ('0' as u32)) as u64
        } else if 'a' <= c && c <= 'f' {
            ((c as u32) - ('a' as u32) + 10) as u64
        } else {
            ((c as u32) - ('A' as u32) + 10) as u64
        };
        proof {
            lemma_pow16_mono((i + 1) as nat, 16);
            assert(s@.subrange(0, i + 1).drop_last() =~= s@.subrange(0, i as int));
            assert(m * 16 + d < pow16((i + 1) as nat));
        }
        m = m * 16 + d;
        i = i + 1;
    }
    proof {
        assert(s@.subrange(0, 16) =~= s@);
    }
    Some(m)
}

/// ASCII lower-case of `c`.
pub open spec fn lower(c: char) -> char {
    if 'A' <= c && c <= 'Z' {
        ((c as int) + 32) as char
    } else {
        c
    }
}

/// `a` equals the lower-case word `w`, ignoring ASCII case.
pub open spec fn eq_ignore_case(a: Seq<char>, w: Seq<char>) -> bool {
    a.len() == w.len() && forall|i: int| 0 <= i < a.len() ==> lower(#[trigger] a[i]) == w[i]
}

fn eq_ignore_case_exec(a: &[char], w: &str) -> (r: bool)
    ensures
        r == eq_ignore_case(a@, w@),
{
    let wc = chars_of(w);
    if a.len() != wc.len() {
        return false;
    }
    let mut i: usize = 0;
    while i < a.len()
        invariant
            i <= a@.len(),
            a@.len() == wc@.len(),
            wc@ == w@,
            forall|j: int| 0 <= j < i ==> lower(#[trigger] a@[j]) == wc@[j],
        decreases a@.len() - i,
    {
        let c = a[i];
        let l = if 'A' <= c && c <= 'Z' {
            char_from_u32((c as u32) + 32)
        } else {
            c
        };
        if l != wc[i] {
            return false;
        }
        i = i + 1;
    }
    true
}

fn char_from_u32(n: u32) -> (c: char)
    requires
        0x41 + 32 <= n <= 0x5a + 32,
    ensures
        c as int == n,
{
    let b: u8 = n as u8;
    b as char
}

/// Rust's decimal floating-point number syntax (unsigned):
/// `(Digit+ | Digit+ '.' Digit* | Digit* '.' Digit+) Exp?`,
/// `Exp ::= [eE] Sign? Digit+`.
pub open spec fn is_number_text(u: Seq<char>) -> bool {
    let i = digits_end(u, 0);
    let (k, ok) = if i < u.len() && u[i] == '.' {
        let j = digits_end(u, i + 1);
        (j, i > 0 || j > i + 1)
    } else {
        (i, i > 0)
    };
    ok && (k == u.len() || ((u[k] == 'e' || u[k] == 'E') && {
        let s = if k + 1 < u.len() && (u[k + 1] == '+' || u[k + 1] == '-') {
            k + 2
        } else {
            k + 1
        };
        let e = digits_end(u, s);
        e > s && e == u.len()
    }))
}

/// Rust's `f64` literal syntax: an optional sign, then `inf`, `infinity`,
/// `nan` (any case) or a decimal number.
pub open spec fn is_float_text(t: Seq<char>) -> bool {
    let u = if t.len() > 0 && (t[0] == '+' || t[0] == '-') {
        t.subrange(1, t.len() as int)
    } else {
        t
    };
    eq_ignore_case(u, "inf"@) || eq_ignore_case(u, "infinity"@) || eq_ignore_case(u, "nan"@)
        || is_number_text(u)
}

fn number_text(u: &[char]) -> (r: bool)
    ensures
        r == is_number_text(u@),
{
    let i = digits_end_exec(u, 0);
    let (k, ok) = if i < u.len() && u[i] == '.' {
        let j = digits_end_exec(u, i + 1);
        (j, i > 0 || j > i + 1)
    } else {
        (i, i > 0)
    };
    if !ok {
        return false;
    }
    if k == u.len() {
        return true;
    }
    if !(u[k] == 'e' || u[k] == 'E') {
        return false;
    }
    let s = if k + 1 < u.len() && (u[k + 1] == '+' || u[k + 1] == '-') {
        k + 2
    } else {
        k + 1
    };
    let e = digits_end_exec(u, s);
    e > s && e == u.len()
}

fn float_text(t: &[char]) -> (r: bool)
    ensures
        r == is_float_text(t@),
{
    let u = if t.len() > 0 && (t[0] == '+' || t[0] == '-') {
        suffix(t, 1)
    } else {
        slice(t, 0, t.len())
    };
    assert(!(t@.len() > 0 && (t@[0] == '+' || t@[0] == '-')) ==> u@ =~= t@);
    eq_ignore_case_exec(&u, "inf") || eq_ignore_case_exec(&u, "infinity") || eq_ignore_case_exec(
        &u,
        "nan",
    ) || number_text(&u)
}

/// A float literal: `0x` and sixteen hex digits give those bits; `-0x`
/// and sixteen hex digits give them with the sign bit flipped; otherwise
/// the text must be Rust float syntax and is kept as written.
pub open spec fn spec_float_literal(s: Seq<char>) -> Option<FloatView> {
    let t = trim(s);
    if has_prefix(t, "0x"@) {
        let rest = t.subrange(2, t.len() as int);
        if is_hex16(rest) {
            Some(FloatView::Bits(hex_value(rest) as u64))
        } else {
            None
        }
    } else if has_prefix(t, "-0x"@) {
        let rest = t.subrange(3, t.len() as int);
        if is_hex16(rest) {
            Some(FloatView::Bits((hex_value(rest) as u64) ^ 0x8000_0000_0000_0000u64))
        } else {
            None
        }
    } else if is_float_text(t) {
        Some(FloatView::Decimal(t))
    } else {
        None
    }
}

fn float_literal_chars(s: &[char]) -> (r: Option<crate::ir::FloatLit>)
    ensures
        r matches Some(f) ==> spec_float_literal(s@) == Some(float_view(f)),
        r is None ==> spec_float_literal(s@) is None,
{
    let t = trim_exec(s);
    if lit_at(&t, 0, "0x") {
        proof {
            reveal_strlit("0x");
        }
        let rest = suffix(&t, 2);
        return match hex16_value(&rest) {
            Some(b) => Some(crate::ir::FloatLit::Bits(b)),
            None => None,
        };
    }
    if lit_at(&t, 0, "-0x") {
        proof {
            reveal_strlit("-0x");
        }
        let rest = suffix(&t, 3);
        return match hex16_value(&rest) {
            Some(b) => Some(crate::ir::FloatLit::Bits(b ^ 0x8000_0000_0000_0000u64)),
            None => None,
        };
    }
    if float_text(&t) {
        Some(crate::ir::FloatLit::Decimal(string_of(&t)))
    } else {
        None
    }
}

/// A float literal (see [`spec_float_literal`]).
pub fn parse_float_literal(s: &str) -> (r: Option<crate::ir::FloatLit>)
    ensures
        r matches Some(f) ==> spec_float_literal(s@) == Some(float_view(f)),
        r is None ==> spec_float_literal(s@) is None,
{
    let c = chars_of(s);
    float_literal_chars(&c)
}

/// Scanning from `i` at bracket depth `depth`: the first index where the
/// depth (updated by the character there) is zero and `kw` starts.
pub open spec fn top_kw_from(h: Seq<char>, kw: Seq<char>, i: int, depth: int) -> Option<int>
    decreases h.len() - i,
{
    if i < 0 || i >= h.len() {
        None
    } else {
        let c = h[i];
        let d = if c == '{' || c == '[' || c == '<' || c == '(' {
            depth + 1
        } else if c == '}' || c == ']' || c == '>' || c == ')' {
            depth - 1
        } else {
            depth
        };
        if d == 0 && crate::text::has_at(h, i, kw) {
            Some(i)
        } else {
            top_kw_from(h, kw, i + 1, d)
        }
    }
}

pub proof fn lemma_top_kw_from(h: Seq<char>, kw: Seq<char>, i: int, depth: int)
    requires
        0 <= i,
    ensures
        top_kw_from(h, kw, i, depth) matches Some(j) ==> i <= j < h.len(),
    decreases h.len() - i,
{
    if i < h.len() {
        let c = h[i];
        lemma_top_kw_from(h, kw, i + 1, depth + 1);
        lemma_top_kw_from(h, kw, i + 1, depth - 1);
        lemma_top_kw_from(h, kw, i + 1, depth);
    }
}

fn find_top_level_keyword(h: &[char], kw: &str) -> (r: Option<usize>)
    ensures
        r matches Some(i) ==> top_kw_from(h@, kw@, 0, 0) == Some(i as int) && i < h@.len(),
        r is None ==> top_kw_from(h@, kw@, 0, 0) is None,
{
    proof {
        lemma_top_kw_from(h@, kw@, 0, 0);
    }
    let mut depth: i128 = 0;
    let mut i: usize = 0;
    while i < h.len()
        invariant
            i <= h@.len(),
            -(i as int) <= depth <= i as int,
            top_kw_from(h@, kw@, i as int, depth as int) == top_kw_from(h@, kw@, 0, 0),
        decreases h@.len() - i,
    {
        let c = h[i];
        if c == '{' || c == '[' || c == '<' || c == '(' {
            depth = depth + 1;
        } else if c == '}' || c == ']' || c == '>' || c == ')' {
            depth = depth - 1;
        }
        if depth == 0 && lit_at(h, i, kw) {
            return Some(i);
        }
        i = i + 1;
    }
    None
}

/// The identifier after the last `%` of `s`, if non-empty.
pub open spec fn spec_last_percent_ident(s: Seq<char>) -> Option<Seq<char>> {
    match rfind_char(s, '%') {
        None => None,
        Some(p) => {
            let rest = s.subrange(p + 1, s.len() as int);
            let end = ident_end(rest, 0);
            if end == 0 {
                None
            } else {
                Some(rest.subrange(0, end))
            }
        },
    }
}

fn last_percent_ident(s: &[char]) -> (r: Option<Vec<char>>)
    ensures
        r matches Some(v) ==> spec_last_percent_ident(s@) == Some(v@),
        r is None ==> spec_last_percent_ident(s@) is None,
{
    match rfind_char_exec(s, '%') {
        None => None,
        Some(p) => {
            proof {
                lemma_rfind_char_before(s@, '%', s@.len() as int);
                assert(p < s.len());
            }
            let rest = suffix(s, p + 1);
            let end = ident_end_exec(&rest, 0);
            if end == 0 {
                None
            } else {
                Some(slice(&rest, 0, end))
            }
        },
    }
}

// ---------------------------------------------------------------------------
// Operands
// ---------------------------------------------------------------------------

/// The first index at or after `i` that is not ASCII whitespace.
pub open spec fn ascii_ws_end(s: Seq<char>, i: int) -> int
    decreases s.len() - i,
{
    if i < 0 {
        0
    } else if i >= s.len() {
        s.len() as int
    } else if is_ascii_ws(s[i]) {
        ascii_ws_end(s, i + 1)
    } else {
        i
    }
}

pub proof fn lemma_ascii_ws_end(s: Seq<char>, i: int)
    requires
        0 <= i <= s.len(),
    ensures
        i <= ascii_ws_end(s, i) <= s.len(),
        ascii_ws_end(s, i) < s.len() ==> !is_ascii_ws(s[ascii_ws_end(s, i)]),
    decreases s.len() - i,
{
    if i < s.len() && is_ascii_ws(s[i]) {
        lemma_ascii_ws_end(s, i + 1);
    }
}

fn ascii_ws_end_exec(s: &[char], i: usize) -> (r: usize)
    requires
        i <= s@.len(),
    ensures
        r as int == ascii_ws_end(s@, i as int),
        i <= r <= s@.len(),
{
    proof {
        lemma_ascii_ws_end(s@, i as int);
    }
    let mut j: usize = i;
    while j < s.len() && ascii_ws(s[j])
        invariant
            i <= j <= s@.len(),
            ascii_ws_end(s@, j as int) == ascii_ws_end(s@, i as int),
        decreases s@.len() - j,
    {
        j = j + 1;
    }
    j
}

/// The ASCII-whitespace-separated tokens of `s` from `i` on, without the
/// parameter attributes (`noundef`, `nonnull`, ...).
pub open spec fn operand_tokens_from(s: Seq<char>, i: int) -> Seq<Seq<char>>
    decreases s.len() - i,
{
    if i < 0 || i > s.len() {
        Seq::empty()
    } else {
        let a = ascii_ws_end(s, i);
        if a >= s.len() {
            Seq::empty()
        } else {
            let e = tok_end(s, a);
            proof {
                lemma_ascii_ws_end(s, i);
                lemma_tok_end(s, a);
            }
            let t = s.subrange(a, e);
            if crate::signatures::is_param_attr(t) {
                operand_tokens_from(s, e)
            } else {
                seq![t] + operand_tokens_from(s, e)
            }
        }
    }
}

/// The tokens joined with single spaces.
pub open spec fn join_spaces(ts: Seq<Seq<char>>) -> Seq<char>
    decreases ts.len(),
{
    if ts.len() == 0 {
        Seq::empty()
    } else if ts.len() == 1 {
        ts[0]
    } else {
        join_spaces(ts.drop_last()) + " "@ + ts.last()
    }
}

fn operand_tokens(s: &[char]) -> (r: Vec<Vec<char>>)
    ensures
        r@.map_values(|t: Vec<char>| t@) == operand_tokens_from(s@, 0),
{
    let mut out: Vec<Vec<char>> = Vec::new();
    let mut i: usize = 0;
    proof {
        assert(out@.map_values(|t: Vec<char>| t@) + operand_tokens_from(s@, 0) =~= operand_tokens_from(s@, 0));
    }
    loop
        invariant
            i <= s@.len(),
            out@.map_values(|t: Vec<char>| t@) + operand_tokens_from(s@, i as int)
                == operand_tokens_from(s@, 0),
        decreases s@.len() - i,
    {
        let a = ascii_ws_end_exec(s, i);
        if a >= s.len() {
            proof {
                assert(out@.map_values(|t: Vec<char>| t@) + Seq::<Seq<char>>::empty() =~= out@.map_values(|t: Vec<char>| t@));
            }
            return out;
        }
        proof {
            lemma_ascii_ws_end(s@, i as int);
        }
        let e = tok_end_exec(s, a);
        proof {
            lemma_tok_end(s@, a as int);
        }
        let t = slice(s, a, e);
        if crate::signatures::param_attr(&t) {
            i = e;
        } else {
            proof {
                let rest = operand_tokens_from(s@, e as int);
                assert(out@.map_values(|t: Vec<char>| t@) + (seq![t@] + rest) =~= out@.push(t).map_values(|t: Vec<char>| t@) + rest);
            }
            out.push(t);
            i = e;
        }
    }
}

fn join_tokens(ts: &[Vec<char>], from: usize) -> (r: Vec<char>)
    requires
        from <= ts@.len(),
    ensures
        r@ == join_spaces(ts@.map_values(|t: Vec<char>| t@).subrange(from as int, ts@.len() as int)),
{
    let ghost v = ts@.map_values(|t: Vec<char>| t@);
    let mut out: Vec<char> = Vec::new();
    let mut k: usize = from;
    proof {
        assert(v.subrange(from as int, from as int) =~= Seq::<Seq<char>>::empty());
    }
    while k < ts.len()
        invariant
            from <= k <= ts@.len(),
            v == ts@.map_values(|t: Vec<char>| t@),
            out@ == join_spaces(v.subrange(from as int, k as int)),
        decreases ts@.len() - k,
    {
        proof {
            let w = v.subrange(from as int, k + 1);
            assert(w.drop_last() =~= v.subrange(from as int, k as int));
            assert(w.last() == ts@[k as int]@);
        }
        if k > from {
            crate::text::push_str(&mut out, " ");
        }
        crate::text::push_chars(&mut out, &ts[k]);
        k = k + 1;
    }
    out
}

/// The message for an operand that is a pointer with an unknown value.
pub open spec fn bad_pointer_msg(chunk: Seq<char>) -> Seq<char> {
    "could not resolve pointer operand from constant text "@ + crate::text::str_debug_text(chunk)
}

/// The message for an integer operand that cannot be parsed.
pub open spec fn bad_int_msg(value: Seq<char>, ty: Seq<char>) -> Seq<char> {
    "could not parse integer operand "@ + crate::text::str_debug_text(value) + " (ty="@ + ty + ")"@
}

/// The message for a float operand that cannot be parsed.
pub open spec fn bad_float_msg(value: Seq<char>, ty: Seq<char>) -> Seq<char> {
    "could not parse float operand "@ + crate::text::str_debug_text(value) + " (ty="@ + ty + ")"@
}

/// The message for an operand of an unknown type.
pub open spec fn bad_type_msg(ty: Seq<char>, chunk: Seq<char>) -> Seq<char> {
    "unsupported operand type "@ + crate::text::str_debug_text(ty) + " in operand "@
        + crate::text::str_debug_text(chunk)
}

/// `iN` (including a bare `i`).
pub open spec fn is_int_type(ty: Seq<char>) -> bool {
    ty.len() >= 1 && ty[0] == 'i' && all_digits(ty.subrange(1, ty.len() as int))
}

/// A pointer operand's value, given the struct name of its type.
pub open spec fn spec_pointer_operand(
    chunk: Seq<char>,
    ty: Seq<char>,
    value: Seq<char>,
    sn: Option<Seq<char>>,
) -> Result<OperandView, ErrView> {
    if value == "null"@ {
        if ty == "i8*"@ {
            Ok(OperandView::I8Null)
        } else {
            Ok(OperandView::PtrConst { struct_name: sn, index: 0 })
        }
    } else if spec_inttoptr(value) is Some {
        Ok(OperandView::PtrConst { struct_name: sn, index: spec_inttoptr(value)->0 })
    } else if value.len() > 0 && value[0] == '%' {
        Ok(OperandView::Ssa(value.subrange(1, value.len() as int)))
    } else if value.len() > 0 && value[0] == '@' {
        Ok(OperandView::GlobalRef(value.subrange(1, value.len() as int)))
    } else if has_prefix(value, "getelementptr"@) {
        Ok(OperandView::GetElementPtr)
    } else if has_prefix(value, "bitcast"@) {
        match spec_bitcast_global(value) {
            Some(n) => Ok(OperandView::BitcastGlobal(n)),
            None => Ok(OperandView::GetElementPtr),
        }
    } else {
        Err(ErrView::Unsupported(bad_pointer_msg(chunk)))
    }
}

/// An integer operand's value.
pub open spec fn spec_int_operand(ty: Seq<char>, value: Seq<char>) -> Result<OperandView, ErrView> {
    if ty == "i1"@ && (value == "true"@ || value == "1"@) {
        Ok(OperandView::ConstBool(true))
    } else if ty == "i1"@ && (value == "false"@ || value == "0"@) {
        Ok(OperandView::ConstBool(false))
    } else if value.len() > 0 && value[0] == '%' {
        Ok(OperandView::Ssa(value.subrange(1, value.len() as int)))
    } else if ty == "i8"@ && value == "null"@ {
        Ok(OperandView::I8Null)
    } else if spec_int_literal(value) is Some {
        Ok(OperandView::ConstInt(spec_int_literal(value)->0))
    } else if value.len() > 0 && value[0] == '@' {
        Ok(OperandView::GlobalRef(value.subrange(1, value.len() as int)))
    } else {
        Err(ErrView::Unsupported(bad_int_msg(value, ty)))
    }
}

/// One call operand `<type> [attrs] <value>`.
pub open spec fn spec_parse_operand(chunk0: Seq<char>) -> Result<OperandView, ErrView> {
    let chunk = trim(chunk0);
    if chunk == "..."@ {
        Err(ErrView::Syntax("unexpected ... in operand"@))
    } else if has_prefix(chunk, "getelementptr"@) {
        Ok(OperandView::GetElementPtr)
    } else {
        let toks = operand_tokens_from(chunk, 0);
        if toks.len() == 0 {
            Err(ErrView::Syntax("empty operand"@))
        } else {
            let ty = toks[0];
            let value = trim(join_spaces(toks.subrange(1, toks.len() as int)));
            let sn = spec_struct_ptr_type(ty);
            if sn is Some || ty == "ptr"@ || ty == "i8*"@ {
                spec_pointer_operand(chunk, ty, value, sn)
            } else if is_int_type(ty) {
                spec_int_operand(ty, value)
            } else if ty == "double"@ || ty == "float"@ || ty == "half"@ {
                if value.len() > 0 && value[0] == '%' {
                    Ok(OperandView::Ssa(value.subrange(1, value.len() as int)))
                } else if spec_float_literal(value) is Some {
                    Ok(OperandView::ConstFloat(spec_float_literal(value)->0))
                } else {
                    Err(ErrView::Unsupported(bad_float_msg(value, ty)))
                }
            } else {
                Err(ErrView::Unsupported(bad_type_msg(ty, chunk)))
            }
        }
    }
}

fn ssa_of(value: &[char]) -> (r: Operand)
    requires
        value@.len() > 0,
    ensures
        operand_view(r) == OperandView::Ssa(value@.subrange(1, value@.len() as int)),
{
    let id = suffix(value, 1);
    Operand::Ssa(string_of(&id))
}

fn global_of(value: &[char]) -> (r: Operand)
    requires
        value@.len() > 0,
    ensures
        operand_view(r) == OperandView::GlobalRef(value@.subrange(1, value@.len() as int)),
{
    let id = suffix(value, 1);
    Operand::GlobalRef(string_of(&id))
}

fn pointer_operand(chunk: &[char], ty: &[char], value: &[char], sn: Option<Vec<char>>) -> (r: Result<Operand, QirToQasmError>)
    ensures
        res_view(r, |o: Operand| operand_view(o)) == spec_pointer_operand(
            chunk@,
            ty@,
            value@,
            match sn {
                Some(v) => Some(v@),
                None => None,
            },
        ),
{
    let name: Option<String> = match &sn {
        Some(v) => Some(string_of(v)),
        None => None,
    };
    if chars_is(value, "null") {
        if chars_is(ty, "i8*") {
            return Ok(Operand::I8Null);
        }
        return Ok(Operand::PtrConst { struct_name: name, index: 0 });
    }
    match inttoptr_chars(value) {
        Some(idx) => {
            return Ok(Operand::PtrConst { struct_name: name, index: idx });
        },
        None => {},
    }
    if value.len() > 0 && value[0] == '%' {
        return Ok(ssa_of(value));
    }
    if value.len() > 0 && value[0] == '@' {
        return Ok(global_of(value));
    }
    if starts_with_lit(value, "getelementptr") {
        return Ok(Operand::GetElementPtr);
    }
    if starts_with_lit(value, "bitcast") {
        return match bitcast_global_chars(value) {
            Some(n) => Ok(Operand::BitcastGlobal(n)),
            None => Ok(Operand::GetElementPtr),
        };
    }
    let mut m: Vec<char> = Vec::new();
    crate::text::push_str(&mut m, "could not resolve pointer operand from constant text ");
    crate::text::push_debug(&mut m, chunk);
    Err(unsupported_err(&m))
}

fn int_operand(ty: &[char], value: &[char]) -> (r: Result<Operand, QirToQasmError>)
    ensures
        res_view(r, |o: Operand| operand_view(o)) == spec_int_operand(ty@, value@),
{
    let i1 = chars_is(ty, "i1");
    if i1 && (chars_is(value, "true") || chars_is(value, "1")) {
        return Ok(Operand::ConstBool(true));
    }
    if i1 && (chars_is(value, "false") || chars_is(value, "0")) {
        return Ok(Operand::ConstBool(false));
    }
    if value.len() > 0 && value[0] == '%' {
        return Ok(ssa_of(value));
    }
    if chars_is(ty, "i8") && chars_is(value, "null") {
        return Ok(Operand::I8Null);
    }
    match int_literal_chars(value) {
        Some(n) => {
            return Ok(Operand::ConstInt(n));
        },
        None => {},
    }
    if value.len() > 0 && value[0] == '@' {
        return Ok(global_of(value));
    }
    let mut m: Vec<char> = Vec::new();
    crate::text::push_str(&mut m, "could not parse integer operand ");
    crate::text::push_debug(&mut m, value);
    crate::text::push_str(&mut m, " (ty=");
    crate::text::push_chars(&mut m, ty);
    crate::text::push_str(&mut m, ")");
    Err(unsupported_err(&m))
}

fn int_type(ty: &[char]) -> (r: bool)
    ensures
        r == is_int_type(ty@),
{
    if !(ty.len() >= 1 && ty[0] == 'i') {
        return false;
    }
    let d = suffix(ty, 1);
    let e = digits_end_exec(&d, 0);
    proof {
        lemma_digits_end(d@, 0);
        if e < d@.len() {
            assert(!is_digit(d@[e as int]));
        }
    }
    e == d.len()
}

/// Parse one call operand (see [`spec_parse_operand`]).
pub fn parse_operand_chars(chunk0: &[char]) -> (r: Result<Operand, QirToQasmError>)
    ensures
        res_view(r, |o: Operand| operand_view(o)) == spec_parse_operand(chunk0@),
{
    let chunk = trim_exec(chunk0);
    if chars_is(&chunk, "...") {
        return Err(QirToQasmError::syntax("unexpected ... in operand"));
    }
    if starts_with_lit(&chunk, "getelementptr") {
        return Ok(Operand::GetElementPtr);
    }
    let toks = operand_tokens(&chunk);
    if toks.len() == 0 {
        return Err(QirToQasmError::syntax("empty operand"));
    }
    let ty = &toks[0];
    let joined = join_tokens(&toks, 1);
    let value = trim_exec(&joined);
    proof {
        assert(ty@ == operand_tokens_from(chunk@, 0)[0]);
    }
    let sn = struct_ptr_type_chars(ty);
    if sn.is_some() || chars_is(ty, "ptr") || chars_is(ty, "i8*") {
        return pointer_operand(&chunk, ty, &value, sn);
    }
    if int_type(ty) {
        return int_operand(ty, &value);
    }
    if chars_is(ty, "double") || chars_is(ty, "float") || chars_is(ty, "half") {
        if value.len() > 0 && value[0] == '%' {
            return Ok(ssa_of(&value));
        }
        match float_literal_chars(&value) {
            Some(f) => {
                return Ok(Operand::ConstFloat(f));
            },
            None => {},
        }
        let mut m: Vec<char> = Vec::new();
        crate::text::push_str(&mut m, "could not parse float operand ");
        crate::text::push_debug(&mut m, &value);
        crate::text::push_str(&mut m, " (ty=");
        crate::text::push_chars(&mut m, ty);
        crate::text::push_str(&mut m, ")");
        return Err(unsupported_err(&m));
    }
    let mut m: Vec<char> = Vec::new();
    crate::text::push_str(&mut m, "unsupported operand type ");
    crate::text::push_debug(&mut m, ty);
    crate::text::push_str(&mut m, " in operand ");
    crate::text::push_debug(&mut m, &chunk);
    Err(unsupported_err(&m))
}

/// The operands of a comma-separated list, left to right; the first bad
/// operand decides the error.
pub open spec fn spec_operands(parts: Seq<Seq<char>>) -> Result<Seq<OperandView>, ErrView>
    decreases parts.len(),
{
    if parts.len() == 0 {
        Ok(Seq::empty())
    } else {
        match spec_parse_operand(parts[0]) {
            Err(e) => Err(e),
            Ok(o) => match spec_operands(parts.subrange(1, parts.len() as int)) {
                Err(e) => Err(e),
                Ok(os) => Ok(seq![o] + os),
            },
        }
    }
}

/// A call's operand list.
pub open spec fn spec_parse_operand_list(src: Seq<char>) -> Result<Seq<OperandView>, ErrView> {
    if trim(src).len() == 0 {
        Ok(Seq::empty())
    } else {
        match crate::ir::parser_util::spec_split_top_level_commas(src) {
            None => Err(ErrView::Syntax(crate::ir::parser_util::unbalanced_bracket_msg(src))),
            Some(parts) => spec_operands(parts),
        }
    }
}

/// Parse the parts of an operand list in order.
fn parse_operands(parts: &Vec<Vec<char>>) -> (r: Result<Vec<Operand>, QirToQasmError>)
    ensures
        res_view(r, |v: Vec<Operand>| operands_view(v@)) == spec_operands(
            parts@.map_values(|p: Vec<char>| p@),
        ),
{
    let ghost ps = parts@.map_values(|p: Vec<char>| p@);
    let mut out: Vec<Operand> = Vec::new();
    let mut i: usize = 0;
    proof {
        assert(ps.subrange(0, ps.len() as int) =~= ps);
        assert(operands_view(out@) =~= Seq::<OperandView>::empty());
        if spec_operands(ps) is Ok {
            assert(Seq::<OperandView>::empty() + spec_operands(ps)->Ok_0 =~= spec_operands(ps)->Ok_0);
        }
    }
    while i < parts.len()
        invariant
            i <= parts@.len(),
            ps == parts@.map_values(|p: Vec<char>| p@),
            spec_operands(ps) == (match spec_operands(ps.subrange(i as int, ps.len() as int)) {
                Err(e) => Err(e),
                Ok(os) => Ok(operands_view(out@) + os),
            }),
        decreases parts@.len() - i,
    {
        let ghost tail = ps.subrange(i as int, ps.len() as int);
        proof {
            assert(tail[0] == parts@[i as int]@);
            assert(tail.subrange(1, tail.len() as int) =~= ps.subrange(i + 1, ps.len() as int));
        }
        let o = match parse_operand_chars(&parts[i]) {
            Ok(o) => o,
            Err(e) => {
                return Err(e);
            },
        };
        proof {
            let rest = spec_operands(ps.subrange(i + 1, ps.len() as int));
            if rest is Ok {
                assert(operands_view(out@) + (seq![operand_view(o)] + rest->Ok_0) =~= operands_view(
                    out@.push(o),
                ) + rest->Ok_0);
            }
        }
        out.push(o);
        i = i + 1;
    }
    proof {
        assert(ps.subrange(i as int, ps.len() as int) =~= Seq::<Seq<char>>::empty());
        assert(operands_view(out@) + Seq::<OperandView>::empty() =~= operands_view(out@));
    }
    Ok(out)
}

/// Parse a call's operand list (see [`spec_parse_operand_list`]).
pub fn parse_operand_list_chars(src: &[char]) -> (r: Result<Vec<Operand>, QirToQasmError>)
    ensures
        res_view(r, |v: Vec<Operand>| operands_view(v@)) == spec_parse_operand_list(src@),
{
    let t = trim_exec(src);
    if t.len() == 0 {
        proof {
            assert(operands_view(Seq::<Operand>::empty()) =~= Seq::<OperandView>::empty());
        }
        return Ok(Vec::new());
    }
    let parts = match crate::ir::parser_util::split_commas_chars(src) {
        Ok(p) => p,
        Err(e) => {
            return Err(e);
        },
    };
    proof {
        let chunks = crate::ir::parser_util::spec_split_top_level_commas(src@)->0;
        assert(parts@.map_values(|p: Vec<char>| p@) =~= chunks);
    }
    parse_operands(&parts)
}

// ---------------------------------------------------------------------------
// Instructions
// ---------------------------------------------------------------------------

/// The message `prefix` followed by `{:?}` of `t`.
pub open spec fn dbg_msg(prefix: Seq<char>, t: Seq<char>) -> Seq<char> {
    prefix + crate::text::str_debug_text(t)
}

fn syntax_dbg(prefix: &str, t: &[char]) -> (e: QirToQasmError)
    ensures
        err_view(e) == ErrView::Syntax(dbg_msg(prefix@, t@)),
{
    let mut m: Vec<char> = Vec::new();
    crate::text::push_str(&mut m, prefix);
    crate::text::push_debug(&mut m, t);
    syntax_err(&m)
}

fn unsupported_dbg(prefix: &str, t: &[char]) -> (e: QirToQasmError)
    ensures
        err_view(e) == ErrView::Unsupported(dbg_msg(prefix@, t@)),
{
    let mut m: Vec<char> = Vec::new();
    crate::text::push_str(&mut m, prefix);
    crate::text::push_debug(&mut m, t);
    unsupported_err(&m)
}

/// `[%result =] call <retty> [(fn-type)] @<callee>(<operands>) ...`.
pub open spec fn spec_parse_call(result: Option<Seq<char>>, args: Seq<char>) -> Result<InstrView, ErrView> {
    let return_type = spec_first_token(args);
    let s = trim_start(spec_after_token(args));
    let after_fn: Result<Seq<char>, ErrView> = if s.len() > 0 && s[0] == '(' {
        match spec_matching_close_paren(s) {
            None => Err(ErrView::Syntax(dbg_msg("call function-type prefix has unbalanced parens: "@, args))),
            Some(c) => Ok(s.subrange(c + 1, s.len() as int)),
        }
    } else {
        Ok(s)
    };
    match after_fn {
        Err(e) => Err(e),
        Ok(a) => match spec_parse_global_name(trim_start(a)) {
            None => Err(ErrView::Syntax(dbg_msg("could not parse callee in call: "@, args))),
            Some((callee, after_name)) => match find_char(after_name, '(') {
                None => Err(ErrView::Syntax(dbg_msg("call missing ( after callee name: "@, args))),
                Some(open) => match spec_matching_close_paren(after_name.subrange(open, after_name.len() as int)) {
                    None => Err(ErrView::Syntax(dbg_msg("call has unbalanced parens: "@, args))),
                    Some(cr) => match spec_parse_operand_list(after_name.subrange(open + 1, open + cr)) {
                        Err(e) => Err(e),
                        Ok(ops) => Ok(InstrView::Call { result, callee, args: ops, return_type }),
                    },
                },
            },
        },
    }
}

fn parse_call(result: Option<String>, args: &[char]) -> (r: Result<Instruction, QirToQasmError>)
    ensures
        res_view(r, |i: Instruction| instr_view(i)) == spec_parse_call(opt_view(result), args@),
{
    let return_type = first_token_chars(args);
    let a0 = after_token_chars(args);
    let s = trim_start_exec(&a0);
    let after_fn = if s.len() > 0 && s[0] == '(' {
        match close_paren_index(&s) {
            None => {
                return Err(syntax_dbg("call function-type prefix has unbalanced parens: ", args));
            },
            Some(c) => suffix(&s, c + 1),
        }
    } else {
        s
    };
    let rest = trim_start_exec(&after_fn);
    let (callee, after_name) = match global_name_chars(&rest) {
        None => {
            return Err(syntax_dbg("could not parse callee in call: ", args));
        },
        Some(x) => x,
    };
    let open = match find_char_exec(&after_name, '(', 0) {
        None => {
            return Err(syntax_dbg("call missing ( after callee name: ", args));
        },
        Some(o) => o,
    };
    proof {
        lemma_find_char_from(after_name@, '(', 0);
    }
    let tail = suffix(&after_name, open);
    let cr = match close_paren_index(&tail) {
        None => {
            return Err(syntax_dbg("call has unbalanced parens: ", args));
        },
        Some(c) => c,
    };
    assert(cr >= 1) by {
        assert(tail@[0] == '(');
    }
    assert(open + cr < after_name.len());
    let src = slice(&after_name, open + 1, open + cr);
    let operands = match parse_operand_list_chars(&src) {
        Err(e) => {
            return Err(e);
        },
        Ok(o) => o,
    };
    Ok(Instruction::Call { result, callee, args: operands, return_type: string_of(&return_type) })
}

/// `br label %t` or `br i1 <cond>, label %t, label %f`.
pub open spec fn spec_parse_br(args: Seq<char>) -> Result<InstrView, ErrView> {
    let s = trim(args);
    if has_prefix(s, "label"@) {
        let t = trim_start(s.subrange(5, s.len() as int));
        if t.len() > 0 && t[0] == '%' {
            Ok(InstrView::Br { target: spec_label_ident(t.subrange(1, t.len() as int)) })
        } else {
            Err(ErrView::Syntax(dbg_msg("br label missing %<target>: "@, args)))
        }
    } else if has_prefix(s, "i1 "@) {
        let rest = s.subrange(3, s.len() as int);
        match crate::ir::parser_util::spec_split_top_level_commas(rest) {
            None => Err(ErrView::Syntax(crate::ir::parser_util::unbalanced_bracket_msg(rest))),
            Some(pieces) => if pieces.len() != 3 {
                Err(ErrView::Syntax(dbg_msg("br i1 expects cond, true_label, false_label: "@, args)))
            } else {
                let c = pieces[0];
                let cond = if c.len() > 0 && c[0] == '%' {
                    Some(CondView::Ssa(c.subrange(1, c.len() as int)))
                } else if c == "true"@ || c == "1"@ {
                    Some(CondView::Const(true))
                } else if c == "false"@ || c == "0"@ {
                    Some(CondView::Const(false))
                } else {
                    None
                };
                match cond {
                    None => Err(ErrView::Unsupported(dbg_msg("unsupported constant branch condition "@, c))),
                    Some(cv) => match spec_label_ref(pieces[1]) {
                        None => Err(ErrView::Syntax(dbg_msg("br i1 expected 'label %name', got "@, pieces[1]))),
                        Some(t) => match spec_label_ref(pieces[2]) {
                            None => Err(ErrView::Syntax(dbg_msg("br i1 expected 'label %name', got "@, pieces[2]))),
                            Some(f) => Ok(InstrView::BrCond { cond: cv, true_target: t, false_target: f }),
                        },
                    },
                }
            },
        }
    } else {
        Err(ErrView::Syntax(dbg_msg("unsupported br form: "@, args)))
    }
}

fn parse_br(args: &[char]) -> (r: Result<Instruction, QirToQasmError>)
    ensures
        res_view(r, |i: Instruction| instr_view(i)) == spec_parse_br(args@),
{
    let s = trim_exec(args);
    if starts_with_lit(&s, "label") {
        proof {
            reveal_strlit("label");
        }
        let a = suffix(&s, 5);
        let t = trim_start_exec(&a);
        if t.len() > 0 && t[0] == '%' {
            let u = suffix(&t, 1);
            let target = label_ident(&u);
            return Ok(Instruction::Br { target: string_of(&target) });
        }
        return Err(syntax_dbg("br label missing %<target>: ", args));
    }
    if starts_with_lit(&s, "i1 ") {
        proof {
            reveal_strlit("i1 ");
        }
        let rest = suffix(&s, 3);
        let pieces = match crate::ir::parser_util::split_commas_chars(&rest) {
            Err(e) => {
                return Err(e);
            },
            Ok(p) => p,
        };
        if pieces.len() != 3 {
            return Err(syntax_dbg("br i1 expects cond, true_label, false_label: ", args));
        }
        let c = &pieces[0];
        let cond = if c.len() > 0 && c[0] == '%' {
            let id = suffix(c, 1);
            BrCondOperand::Ssa(string_of(&id))
        } else if chars_is(c, "true") || chars_is(c, "1") {
            BrCondOperand::Const(true)
        } else if chars_is(c, "false") || chars_is(c, "0") {
            BrCondOperand::Const(false)
        } else {
            return Err(unsupported_dbg("unsupported constant branch condition ", c));
        };
        let t = match label_ref(&pieces[1]) {
            None => {
                return Err(syntax_dbg("br i1 expected 'label %name', got ", &pieces[1]));
            },
            Some(t) => t,
        };
        let f = match label_ref(&pieces[2]) {
            None => {
                return Err(syntax_dbg("br i1 expected 'label %name', got ", &pieces[2]));
            },
            Some(f) => f,
        };
        return Ok(
            Instruction::BrCond {
                cond,
                true_target: string_of(&t),
                false_target: string_of(&f),
            },
        );
    }
    Err(syntax_dbg("unsupported br form: ", args))
}

/// `%r = zext <ty> <src> to <ty>` with an SSA source.
pub open spec fn spec_parse_zext(result: Option<Seq<char>>, args: Seq<char>) -> Option<InstrView> {
    match result {
        None => None,
        Some(res) => {
            let rest = trim(args);
            match top_kw_from(rest, " to "@, 0, 0) {
                None => None,
                Some(to_idx) => match spec_last_percent_ident(trim(rest.subrange(0, to_idx))) {
                    None => None,
                    Some(src) => Some(InstrView::Zext { result: res, src }),
                },
            }
        },
    }
}

fn parse_zext(result: &Option<String>, args: &[char]) -> (r: Option<Instruction>)
    ensures
        r matches Some(i) ==> spec_parse_zext(opt_view(*result), args@) == Some(instr_view(i)),
        r is None ==> spec_parse_zext(opt_view(*result), args@) is None,
{
    let res = match result {
        None => {
            return None;
        },
        Some(r) => r,
    };
    let rest = trim_exec(args);
    let to_idx = match find_top_level_keyword(&rest, " to ") {
        None => {
            return None;
        },
        Some(i) => i,
    };
    let l = slice(&rest, 0, to_idx);
    let lhs = trim_exec(&l);
    match last_percent_ident(&lhs) {
        None => None,
        Some(src) => Some(Instruction::Zext { result: res.clone(), src: string_of(&src) }),
    }
}

/// Flags that may follow an arithmetic or logic opcode.
pub open spec fn is_op_flag(t: Seq<char>) -> bool {
    t == "nuw"@ || t == "nsw"@ || t == "disjoint"@ || t == "exact"@
}

/// `s` trimmed, without its leading arithmetic flags.
pub open spec fn spec_strip_flags(s: Seq<char>) -> Seq<char>
    decreases s.len(),
{
    let r = trim_start(s);
    if is_op_flag(spec_first_token(r)) {
        proof {
            reveal_strlit("nuw");
            reveal_strlit("nsw");
            reveal_strlit("disjoint");
            reveal_strlit("exact");
            lemma_after_token_shorter(r);
            lemma_skip_ws(s, 0);
        }
        spec_strip_flags(spec_after_token(r))
    } else {
        r
    }
}

fn strip_flags(s: &[char]) -> (r: Vec<char>)
    ensures
        r@ == spec_strip_flags(s@),
    decreases s@.len(),
{
    let r = trim_start_exec(s);
    let f = first_token_chars(&r);
    if chars_is(&f, "nuw") || chars_is(&f, "nsw") || chars_is(&f, "disjoint") || chars_is(&f, "exact") {
        proof {
            reveal_strlit("nuw");
            reveal_strlit("nsw");
            reveal_strlit("disjoint");
            reveal_strlit("exact");
            lemma_after_token_shorter(r@);
            lemma_skip_ws(s@, 0);
        }
        let a = after_token_chars(&r);
        strip_flags(&a)
    } else {
        r
    }
}

/// `<ty> <lhs>, <rhs>` (after any flags): both operands typed `<ty>`.
pub open spec fn spec_binary_operands(args: Seq<char>) -> Result<(OperandView, OperandView), ErrView> {
    let a = spec_strip_flags(args);
    let ty = spec_first_token(a);
    let r = spec_after_token(a);
    match crate::ir::parser_util::spec_split_top_level_commas(r) {
        None => Err(ErrView::Syntax(crate::ir::parser_util::unbalanced_bracket_msg(r))),
        Some(parts) => if parts.len() != 2 {
            Err(ErrView::Syntax(dbg_msg("expected two operands: "@, args)))
        } else {
            match spec_parse_operand(ty + " "@ + parts[0]) {
                Err(e) => Err(e),
                Ok(l) => match spec_parse_operand(ty + " "@ + parts[1]) {
                    Err(e) => Err(e),
                    Ok(rr) => Ok((l, rr)),
                },
            }
        },
    }
}

fn typed_operand(ty: &[char], v: &[char]) -> (r: Result<Operand, QirToQasmError>)
    ensures
        res_view(r, |o: Operand| operand_view(o)) == spec_parse_operand(ty@ + " "@ + v@),
{
    let mut c: Vec<char> = Vec::new();
    crate::text::push_chars(&mut c, ty);
    crate::text::push_str(&mut c, " ");
    crate::text::push_chars(&mut c, v);
    parse_operand_chars(&c)
}

fn binary_operands(args: &[char]) -> (r: Result<(Operand, Operand), QirToQasmError>)
    ensures
        res_view(r, |p: (Operand, Operand)| (operand_view(p.0), operand_view(p.1)))
            == spec_binary_operands(args@),
{
    let a = strip_flags(args);
    let ty = first_token_chars(&a);
    let r = after_token_chars(&a);
    let parts = match crate::ir::parser_util::split_commas_chars(&r) {
        Err(e) => {
            return Err(e);
        },
        Ok(p) => p,
    };
    if parts.len() != 2 {
        return Err(syntax_dbg("expected two operands: ", args));
    }
    let l = match typed_operand(&ty, &parts[0]) {
        Err(e) => {
            return Err(e);
        },
        Ok(o) => o,
    };
    let rr = match typed_operand(&ty, &parts[1]) {
        Err(e) => {
            return Err(e);
        },
        Ok(o) => o,
    };
    Ok((l, rr))
}

/// The message for a value-producing instruction without a result.
pub open spec fn no_result_msg(line: Seq<char>) -> Seq<char> {
    dbg_msg("instruction has no result SSA: "@, line)
}

/// `%r = icmp <pred> <ty> <lhs>, <rhs>`.
pub open spec fn spec_parse_icmp(result: Option<Seq<char>>, args: Seq<char>, line: Seq<char>) -> Result<InstrView, ErrView> {
    match result {
        None => Err(ErrView::Syntax(no_result_msg(line))),
        Some(res) => match spec_binary_operands(spec_after_token(args)) {
            Err(e) => Err(e),
            Ok((l, r)) => Ok(InstrView::Icmp { result: res, predicate: spec_first_token(args), lhs: l, rhs: r }),
        },
    }
}

fn parse_icmp(result: Option<String>, args: &[char], line: &[char]) -> (r: Result<Instruction, QirToQasmError>)
    ensures
        res_view(r, |i: Instruction| instr_view(i)) == spec_parse_icmp(opt_view(result), args@, line@),
{
    let res = match result {
        None => {
            return Err(syntax_dbg("instruction has no result SSA: ", line));
        },
        Some(r) => r,
    };
    let pred = first_token_chars(args);
    let rest = after_token_chars(args);
    let (l, r) = match binary_operands(&rest) {
        Err(e) => {
            return Err(e);
        },
        Ok(p) => p,
    };
    Ok(
        Instruction::Icmp(
            crate::ir::Icmp {
                result: res,
                predicate: crate::ir::PredicateI1(string_of(&pred)),
                lhs: l,
                rhs: r,
            },
        ),
    )
}

/// `%r = xor|and|or <ty> <lhs>, <rhs>`.
pub open spec fn spec_parse_binary_i1(result: Option<Seq<char>>, op: BinaryI1Op, args: Seq<char>, line: Seq<char>) -> Result<InstrView, ErrView> {
    match result {
        None => Err(ErrView::Syntax(no_result_msg(line))),
        Some(res) => match spec_binary_operands(args) {
            Err(e) => Err(e),
            Ok((l, r)) => Ok(InstrView::BinaryI1 { result: res, op, lhs: l, rhs: r }),
        },
    }
}

fn parse_binary_i1(result: Option<String>, op: BinaryI1Op, args: &[char], line: &[char]) -> (r: Result<Instruction, QirToQasmError>)
    ensures
        res_view(r, |i: Instruction| instr_view(i)) == spec_parse_binary_i1(opt_view(result), op, args@, line@),
{
    let res = match result {
        None => {
            return Err(syntax_dbg("instruction has no result SSA: ", line));
        },
        Some(r) => r,
    };
    let (l, r) = match binary_operands(args) {
        Err(e) => {
            return Err(e);
        },
        Ok(p) => p,
    };
    Ok(Instruction::BinaryI1 { result: res, op, lhs: l, rhs: r })
}

/// `%r = add|sub|mul [flags] <ty> <lhs>, <rhs>`.
pub open spec fn spec_parse_int_arith(result: Option<Seq<char>>, op: IntArithOp, args: Seq<char>, line: Seq<char>) -> Result<InstrView, ErrView> {
    match result {
        None => Err(ErrView::Syntax(no_result_msg(line))),
        Some(res) => match spec_binary_operands(args) {
            Err(e) => Err(e),
            Ok((l, r)) => Ok(InstrView::IntArith { result: res, op, lhs: l, rhs: r }),
        },
    }
}

fn parse_int_arith(result: Option<String>, op: IntArithOp, args: &[char], line: &[char]) -> (r: Result<Instruction, QirToQasmError>)
    ensures
        res_view(r, |i: Instruction| instr_view(i)) == spec_parse_int_arith(opt_view(result), op, args@, line@),
{
    let res = match result {
        None => {
            return Err(syntax_dbg("instruction has no result SSA: ", line));
        },
        Some(r) => r,
    };
    let (l, r) = match binary_operands(args) {
        Err(e) => {
            return Err(e);
        },
        Ok(p) => p,
    };
    Ok(Instruction::IntArith { result: res, op, lhs: l, rhs: r })
}

/// `%r = select i1 <cond>, <ty> <a>, <ty> <b>`.
pub open spec fn spec_parse_select(result: Option<Seq<char>>, args: Seq<char>, line: Seq<char>) -> Result<InstrView, ErrView> {
    match result {
        None => Err(ErrView::Syntax(no_result_msg(line))),
        Some(res) => match crate::ir::parser_util::spec_split_top_level_commas(args) {
            None => Err(ErrView::Syntax(crate::ir::parser_util::unbalanced_bracket_msg(args))),
            Some(parts) => if parts.len() != 3 {
                Err(ErrView::Syntax(dbg_msg("select expects a condition and two values: "@, args)))
            } else {
                match spec_parse_operand(parts[0]) {
                    Err(e) => Err(e),
                    Ok(c) => match spec_parse_operand(parts[1]) {
                        Err(e) => Err(e),
                        Ok(a) => match spec_parse_operand(parts[2]) {
                            Err(e) => Err(e),
                            Ok(b) => Ok(InstrView::Select {
                                result: res,
                                value_type: spec_first_token(parts[1]),
                                cond: c,
                                true_value: a,
                                false_value: b,
                            }),
                        },
                    },
                }
            },
        },
    }
}

fn parse_select(result: Option<String>, args: &[char], line: &[char]) -> (r: Result<Instruction, QirToQasmError>)
    ensures
        res_view(r, |i: Instruction| instr_view(i)) == spec_parse_select(opt_view(result), args@, line@),
{
    let res = match result {
        None => {
            return Err(syntax_dbg("instruction has no result SSA: ", line));
        },
        Some(r) => r,
    };
    let parts = match crate::ir::parser_util::split_commas_chars(args) {
        Err(e) => {
            return Err(e);
        },
        Ok(p) => p,
    };
    if parts.len() != 3 {
        return Err(syntax_dbg("select expects a condition and two values: ", args));
    }
    let c = match parse_operand_chars(&parts[0]) {
        Err(e) => {
            return Err(e);
        },
        Ok(o) => o,
    };
    let a = match parse_operand_chars(&parts[1]) {
        Err(e) => {
            return Err(e);
        },
        Ok(o) => o,
    };
    let b = match parse_operand_chars(&parts[2]) {
        Err(e) => {
            return Err(e);
        },
        Ok(o) => o,
    };
    let vt = first_token_chars(&parts[1]);
    Ok(
        Instruction::Select {
            result: res,
            value_type: string_of(&vt),
            cond: c,
            true_value: a,
            false_value: b,
        },
    )
}

/// One phi incoming `[<value>, %<label>]`, with the value typed `ty`.
pub open spec fn spec_phi_incoming(ty: Seq<char>, p: Seq<char>) -> Result<PhiView, ErrView> {
    if !(p.len() >= 2 && p[0] == '[' && p.last() == ']') {
        Err(ErrView::Syntax(dbg_msg("phi incoming expected '[value, %label]', got "@, p)))
    } else {
        let inner = p.subrange(1, p.len() - 1);
        match crate::ir::parser_util::spec_split_top_level_commas(inner) {
            None => Err(ErrView::Syntax(crate::ir::parser_util::unbalanced_bracket_msg(inner))),
            Some(pieces) => if pieces.len() != 2 || !(pieces[1].len() > 0 && pieces[1][0] == '%') {
                Err(ErrView::Syntax(dbg_msg("phi incoming expected '[value, %label]', got "@, p)))
            } else {
                match spec_parse_operand(ty + " "@ + pieces[0]) {
                    Err(e) => Err(e),
                    Ok(v) => Ok(PhiView {
                        value: v,
                        pred: spec_label_ident(pieces[1].subrange(1, pieces[1].len() as int)),
                    }),
                }
            },
        }
    }
}

/// The incomings of a phi, left to right; the first bad one decides.
pub open spec fn spec_phi_incomings(ty: Seq<char>, parts: Seq<Seq<char>>) -> Result<Seq<PhiView>, ErrView>
    decreases parts.len(),
{
    if parts.len() == 0 {
        Ok(Seq::empty())
    } else {
        match spec_phi_incoming(ty, parts[0]) {
            Err(e) => Err(e),
            Ok(i) => match spec_phi_incomings(ty, parts.subrange(1, parts.len() as int)) {
                Err(e) => Err(e),
                Ok(is) => Ok(seq![i] + is),
            },
        }
    }
}

/// `%r = phi <ty> [<v>, %<b>], ...`.
pub open spec fn spec_parse_phi(result: Option<Seq<char>>, args: Seq<char>, line: Seq<char>) -> Result<InstrView, ErrView> {
    match result {
        None => Err(ErrView::Syntax(no_result_msg(line))),
        Some(res) => {
            let ty = spec_first_token(args);
            let rest = spec_after_token(args);
            match crate::ir::parser_util::spec_split_top_level_commas(rest) {
                None => Err(ErrView::Syntax(crate::ir::parser_util::unbalanced_bracket_msg(rest))),
                Some(parts) => match spec_phi_incomings(ty, parts) {
                    Err(e) => Err(e),
                    Ok(incs) => Ok(InstrView::Phi { result: res, value_type: ty, incomings: incs }),
                },
            }
        },
    }
}

fn phi_incoming(ty: &[char], p: &[char]) -> (r: Result<crate::ir::PhiIncoming, QirToQasmError>)
    ensures
        res_view(r, |i: crate::ir::PhiIncoming| PhiView { value: operand_view(i.value), pred: i.pred@ })
            == spec_phi_incoming(ty@, p@),
{
    if !(p.len() >= 2 && p[0] == '[' && p[p.len() - 1] == ']') {
        return Err(syntax_dbg("phi incoming expected '[value, %label]', got ", p));
    }
    let inner = slice(p, 1, p.len() - 1);
    let pieces = match crate::ir::parser_util::split_commas_chars(&inner) {
        Err(e) => {
            return Err(e);
        },
        Ok(x) => x,
    };
    if pieces.len() != 2 || !(pieces[1].len() > 0 && pieces[1][0] == '%') {
        return Err(syntax_dbg("phi incoming expected '[value, %label]', got ", p));
    }
    let v = match typed_operand(ty, &pieces[0]) {
        Err(e) => {
            return Err(e);
        },
        Ok(o) => o,
    };
    let l = suffix(&pieces[1], 1);
    let pred = label_ident(&l);
    Ok(crate::ir::PhiIncoming { value: v, pred: string_of(&pred) })
}

fn parse_phi(result: Option<String>, args: &[char], line: &[char]) -> (r: Result<Instruction, QirToQasmError>)
    ensures
        res_view(r, |i: Instruction| instr_view(i)) == spec_parse_phi(opt_view(result), args@, line@),
{
    let ghost target = spec_parse_phi(opt_view(result), args@, line@);
    let res = match result {
        None => {
            return Err(syntax_dbg("instruction has no result SSA: ", line));
        },
        Some(r) => r,
    };
    let ty = first_token_chars(args);
    let rest = after_token_chars(args);
    let parts = match crate::ir::parser_util::split_commas_chars(&rest) {
        Err(e) => {
            return Err(e);
        },
        Ok(x) => x,
    };
    let ghost ps = parts@.map_values(|p: Vec<char>| p@);
    let mut out: Vec<crate::ir::PhiIncoming> = Vec::new();
    let mut i: usize = 0;
    proof {
        assert(ps =~= crate::ir::parser_util::spec_split_top_level_commas(rest@)->0);
        assert(ps.subrange(0, ps.len() as int) =~= ps);
        assert(phis_view(out@) =~= Seq::<PhiView>::empty());
        if spec_phi_incomings(ty@, ps) is Ok {
            assert(Seq::<PhiView>::empty() + spec_phi_incomings(ty@, ps)->Ok_0 =~= spec_phi_incomings(ty@, ps)->Ok_0);
        }
    }
    while i < parts.len()
        invariant
            i <= parts@.len(),
            ps == parts@.map_values(|p: Vec<char>| p@),
            target == spec_parse_phi(opt_view(result), args@, line@),
            target == (match spec_phi_incomings(ty@, ps) {
                Err(e) => Err(e),
                Ok(incs) => Ok(InstrView::Phi { result: res@, value_type: ty@, incomings: incs }),
            }),
            spec_phi_incomings(ty@, ps) == (match spec_phi_incomings(ty@, ps.subrange(i as int, ps.len() as int)) {
                Err(e) => Err(e),
                Ok(is) => Ok(phis_view(out@) + is),
            }),
        decreases parts@.len() - i,
    {
        let ghost tail = ps.subrange(i as int, ps.len() as int);
        proof {
            assert(tail[0] == parts@[i as int]@);
            assert(tail.subrange(1, tail.len() as int) =~= ps.subrange(i + 1, ps.len() as int));
        }
        let inc = match phi_incoming(&ty, &parts[i]) {
            Err(e) => {
                assert(spec_phi_incomings(ty@, tail) == Err::<Seq<PhiView>, ErrView>(err_view(e)));
                return Err(e);
            },
            Ok(x) => x,
        };
        proof {
            let rest2 = spec_phi_incomings(ty@, ps.subrange(i + 1, ps.len() as int));
            let iv = PhiView { value: operand_view(inc.value), pred: inc.pred@ };
            if rest2 is Ok {
                assert(phis_view(out@) + (seq![iv] + rest2->Ok_0) =~= phis_view(out@.push(inc)) + rest2->Ok_0);
            }
        }
        out.push(inc);
        i = i + 1;
    }
    proof {
        assert(ps.subrange(i as int, ps.len() as int) =~= Seq::<Seq<char>>::empty());
        assert(phis_view(out@) + Seq::<PhiView>::empty() =~= phis_view(out@));
    }
    Ok(Instruction::Phi { result: res, value_type: string_of(&ty), incomings: out })
}

/// `%r = bitcast <ty> <src> to <ty>`: an alias of an SSA pointer, else skipped.
pub open spec fn spec_parse_bitcast(result: Option<Seq<char>>, args: Seq<char>) -> InstrView {
    let rest = trim(args);
    match (result, top_kw_from(rest, " to "@, 0, 0)) {
        (Some(res), Some(to_idx)) => match spec_last_percent_ident(trim(rest.subrange(0, to_idx))) {
            Some(src) => InstrView::BitcastAlias { result: res, src },
            None => InstrView::Ignored { opcode: "bitcast"@ },
        },
        _ => InstrView::Ignored { opcode: "bitcast"@ },
    }
}

fn ignored(op: &str) -> (r: Instruction)
    ensures
        instr_view(r) == (InstrView::Ignored { opcode: op@ }),
{
    Instruction::Ignored { opcode: crate::text::owned(op) }
}

fn parse_bitcast(result: Option<String>, args: &[char]) -> (r: Instruction)
    ensures
        instr_view(r) == spec_parse_bitcast(opt_view(result), args@),
{
    let rest = trim_exec(args);
    let res = match result {
        None => {
            return ignored("bitcast");
        },
        Some(r) => r,
    };
    let to_idx = match find_top_level_keyword(&rest, " to ") {
        None => {
            return ignored("bitcast");
        },
        Some(i) => i,
    };
    let l = slice(&rest, 0, to_idx);
    let lhs = trim_exec(&l);
    match last_percent_ident(&lhs) {
        None => ignored("bitcast"),
        Some(src) => Instruction::BitcastAlias { result: res, src: string_of(&src) },
    }
}

/// `%r = getelementptr [inbounds] <ty>, <ty>* %<src>[, <ty> <i>]*`: an
/// alias of `src` at the last index (0 without indices), else skipped.
pub open spec fn spec_parse_gep(result: Option<Seq<char>>, args: Seq<char>) -> InstrView {
    let a0 = trim_start(args);
    let a = if spec_first_token(a0) == "inbounds"@ {
        spec_after_token(a0)
    } else {
        a0
    };
    let skip = InstrView::Ignored { opcode: "getelementptr"@ };
    match (result, crate::ir::parser_util::spec_split_top_level_commas(a)) {
        (Some(res), Some(parts)) => if parts.len() < 2 {
            skip
        } else {
            match spec_last_percent_ident(parts[1]) {
                None => skip,
                Some(src) => if parts.len() == 2 {
                    InstrView::GetElementPtrOffset { result: res, src, offset: 0 }
                } else {
                    match spec_int_literal(spec_after_token(parts.last())) {
                        Some(n) => if 0 <= n <= u64::MAX {
                            InstrView::GetElementPtrOffset { result: res, src, offset: n as u64 }
                        } else {
                            skip
                        },
                        None => skip,
                    }
                },
            }
        },
        _ => skip,
    }
}

fn parse_gep(result: Option<String>, args: &[char]) -> (r: Instruction)
    ensures
        instr_view(r) == spec_parse_gep(opt_view(result), args@),
{
    let a0 = trim_start_exec(args);
    let f = first_token_chars(&a0);
    let a = if chars_is(&f, "inbounds") {
        after_token_chars(&a0)
    } else {
        a0
    };
    let res = match result {
        None => {
            return ignored("getelementptr");
        },
        Some(r) => r,
    };
    let parts = match crate::ir::parser_util::split_commas_chars(&a) {
        Err(_) => {
            return ignored("getelementptr");
        },
        Ok(p) => p,
    };
    if parts.len() < 2 {
        return ignored("getelementptr");
    }
    let src = match last_percent_ident(&parts[1]) {
        None => {
            return ignored("getelementptr");
        },
        Some(s) => s,
    };
    if parts.len() == 2 {
        return Instruction::GetElementPtrOffset { result: res, src: string_of(&src), offset: 0 };
    }
    let v = after_token_chars(&parts[parts.len() - 1]);
    match int_literal_chars(&v) {
        Some(n) => {
            if 0 <= n && n <= 0xffff_ffff_ffff_ffff {
                Instruction::GetElementPtrOffset {
                    result: res,
                    src: string_of(&src),
                    offset: n as u64,
                }
            } else {
                ignored("getelementptr")
            }
        },
        None => ignored("getelementptr"),
    }
}

/// `store <ty> <value>, <ty>* %<ptr>[, align N]`, else skipped.
pub open spec fn spec_parse_store(args: Seq<char>) -> InstrView {
    let skip = InstrView::Ignored { opcode: "store"@ };
    match crate::ir::parser_util::spec_split_top_level_commas(args) {
        Some(parts) => if parts.len() < 2 {
            skip
        } else {
            match (spec_parse_operand(parts[0]), spec_last_percent_ident(parts[1])) {
                (Ok(v), Some(p)) => InstrView::Store { value: v, ptr: p },
                _ => skip,
            }
        },
        None => skip,
    }
}

fn parse_store(args: &[char]) -> (r: Instruction)
    ensures
        instr_view(r) == spec_parse_store(args@),
{
    let parts = match crate::ir::parser_util::split_commas_chars(args) {
        Err(_) => {
            return ignored("store");
        },
        Ok(p) => p,
    };
    if parts.len() < 2 {
        return ignored("store");
    }
    let v = parse_operand_chars(&parts[0]);
    let p = last_percent_ident(&parts[1]);
    match (v, p) {
        (Ok(v), Some(p)) => Instruction::Store { value: v, ptr: string_of(&p) },
        _ => ignored("store"),
    }
}

/// `%r = load <ty>, <ty>* %<ptr>[, align N]`, else skipped.
pub open spec fn spec_parse_load(result: Option<Seq<char>>, args: Seq<char>) -> InstrView {
    let skip = InstrView::Ignored { opcode: "load"@ };
    match (result, crate::ir::parser_util::spec_split_top_level_commas(args)) {
        (Some(res), Some(parts)) => if parts.len() < 2 {
            skip
        } else {
            match spec_last_percent_ident(parts[1]) {
                Some(p) => InstrView::Load { result: res, ptr: p },
                None => skip,
            }
        },
        _ => skip,
    }
}

fn parse_load(result: Option<String>, args: &[char]) -> (r: Instruction)
    ensures
        instr_view(r) == spec_parse_load(opt_view(result), args@),
{
    let res = match result {
        None => {
            return ignored("load");
        },
        Some(r) => r,
    };
    let parts = match crate::ir::parser_util::split_commas_chars(args) {
        Err(_) => {
            return ignored("load");
        },
        Ok(p) => p,
    };
    if parts.len() < 2 {
        return ignored("load");
    }
    match last_percent_ident(&parts[1]) {
        Some(p) => Instruction::Load { result: res, ptr: string_of(&p) },
        None => ignored("load"),
    }
}

/// The result SSA and the body of an instruction line (after `%r =`).
pub open spec fn spec_split_assignment(line: Seq<char>) -> (Option<Seq<char>>, Seq<char>) {
    match find_char(line, '=') {
        Some(eq) => {
            let left = trim(line.subrange(0, eq));
            if left.len() > 0 && left[0] == '%' {
                (Some(left.subrange(1, left.len() as int)), trim_start(line.subrange(eq + 1, line.len() as int)))
            } else {
                (None, line)
            }
        },
        None => (None, line),
    }
}

/// Opcodes that are skipped without further parsing.
pub open spec fn is_skipped_opcode(op: Seq<char>) -> bool {
    op == "sext"@ || op == "trunc"@ || op == "ptrtoint"@ || op == "insertvalue"@ || op == "extractvalue"@
}

/// One instruction line (comment stripped and trimmed first).
pub open spec fn spec_parse_instruction(line0: Seq<char>) -> Result<InstrView, ErrView> {
    let line = trim(spec_strip_comment(line0));
    let (result, body) = spec_split_assignment(line);
    let rest = spec_strip_qualifiers(body);
    let opcode = spec_first_token(rest);
    let args = spec_after_token(rest);
    if opcode == "call"@ {
        spec_parse_call(result, args)
    } else if opcode == "br"@ {
        spec_parse_br(args)
    } else if opcode == "ret"@ {
        Ok(InstrView::Ret)
    } else if opcode == "icmp"@ {
        spec_parse_icmp(result, args, line)
    } else if opcode == "xor"@ {
        spec_parse_binary_i1(result, BinaryI1Op::Xor, args, line)
    } else if opcode == "and"@ {
        spec_parse_binary_i1(result, BinaryI1Op::And, args, line)
    } else if opcode == "or"@ {
        spec_parse_binary_i1(result, BinaryI1Op::Or, args, line)
    } else if opcode == "add"@ {
        spec_parse_int_arith(result, IntArithOp::Add, args, line)
    } else if opcode == "sub"@ {
        spec_parse_int_arith(result, IntArithOp::Sub, args, line)
    } else if opcode == "mul"@ {
        spec_parse_int_arith(result, IntArithOp::Mul, args, line)
    } else if opcode == "select"@ {
        spec_parse_select(result, args, line)
    } else if opcode == "phi"@ {
        spec_parse_phi(result, args, line)
    } else if opcode == "alloca"@ {
        match result {
            Some(res) => Ok(InstrView::Alloca { result: res }),
            None => Ok(InstrView::Ignored { opcode: "alloca"@ }),
        }
    } else if opcode == "bitcast"@ {
        Ok(spec_parse_bitcast(result, args))
    } else if opcode == "getelementptr"@ {
        Ok(spec_parse_gep(result, args))
    } else if opcode == "store"@ {
        Ok(spec_parse_store(args))
    } else if opcode == "load"@ {
        Ok(spec_parse_load(result, args))
    } else if opcode == "zext"@ {
        match spec_parse_zext(result, args) {
            Some(i) => Ok(i),
            None => Ok(InstrView::Ignored { opcode: "zext"@ }),
        }
    } else if is_skipped_opcode(opcode) {
        Ok(InstrView::Ignored { opcode })
    } else if opcode.len() == 0 {
        Err(ErrView::Syntax(dbg_msg("empty instruction in block body: "@, line)))
    } else {
        Ok(InstrView::Unsupported { opcode })
    }
}

fn split_assignment(line: &[char]) -> (r: (Option<String>, Vec<char>))
    ensures
        opt_view(r.0) == spec_split_assignment(line@).0,
        r.1@ == spec_split_assignment(line@).1,
{
    match find_char_exec(line, '=', 0) {
        Some(eq) => {
            proof {
                lemma_find_char_from(line@, '=', 0);
                assert(eq < line.len());
            }
            let l = slice(line, 0, eq);
            let left = trim_exec(&l);
            if left.len() > 0 && left[0] == '%' {
                let id = suffix(&left, 1);
                let b = suffix(line, eq + 1);
                (Some(string_of(&id)), trim_start_exec(&b))
            } else {
                (None, slice(line, 0, line.len()))
            }
        },
        None => (None, slice(line, 0, line.len())),
    }
}

/// Parse one instruction line (see [`spec_parse_instruction`]).
pub fn parse_instruction_chars(line0: &[char]) -> (r: Result<Instruction, QirToQasmError>)
    ensures
        res_view(r, |i: Instruction| instr_view(i)) == spec_parse_instruction(line0@),
{
    let c = strip_trailing_comment(line0);
    let line = trim_exec(&c);
    let (result, body) = split_assignment(&line);
    let rest = strip_qualifiers_chars(&body);
    let opcode = first_token_chars(&rest);
    let args = after_token_chars(&rest);
    proof {
        reveal_strlit("call");
        reveal_strlit("br");
        reveal_strlit("ret");
        reveal_strlit("icmp");
        reveal_strlit("xor");
        reveal_strlit("and");
        reveal_strlit("or");
        reveal_strlit("add");
        reveal_strlit("sub");
        reveal_strlit("mul");
        reveal_strlit("select");
        reveal_strlit("phi");
        reveal_strlit("alloca");
        reveal_strlit("bitcast");
        reveal_strlit("getelementptr");
        reveal_strlit("store");
        reveal_strlit("load");
        reveal_strlit("zext");
    }
    if chars_is(&opcode, "call") {
        parse_call(result, &args)
    } else if chars_is(&opcode, "br") {
        parse_br(&args)
    } else if chars_is(&opcode, "ret") {
        Ok(Instruction::Ret)
    } else if chars_is(&opcode, "icmp") {
        parse_icmp(result, &args, &line)
    } else if chars_is(&opcode, "xor") {
        parse_binary_i1(result, BinaryI1Op::Xor, &args, &line)
    } else if chars_is(&opcode, "and") {
        parse_binary_i1(result, BinaryI1Op::And, &args, &line)
    } else if chars_is(&opcode, "or") {
        parse_binary_i1(result, BinaryI1Op::Or, &args, &line)
    } else if chars_is(&opcode, "add") {
        parse_int_arith(result, IntArithOp::Add, &args, &line)
    } else if chars_is(&opcode, "sub") {
        parse_int_arith(result, IntArithOp::Sub, &args, &line)
    } else if chars_is(&opcode, "mul") {
        parse_int_arith(result, IntArithOp::Mul, &args, &line)
    } else if chars_is(&opcode, "select") {
        parse_select(result, &args, &line)
    } else if chars_is(&opcode, "phi") {
        parse_phi(result, &args, &line)
    } else if chars_is(&opcode, "alloca") {
        match result {
            Some(res) => Ok(Instruction::Alloca { result: res }),
            None => Ok(ignored("alloca")),
        }
    } else if chars_is(&opcode, "bitcast") {
        Ok(parse_bitcast(result, &args))
    } else if chars_is(&opcode, "getelementptr") {
        Ok(parse_gep(result, &args))
    } else if chars_is(&opcode, "store") {
        Ok(parse_store(&args))
    } else if chars_is(&opcode, "load") {
        Ok(parse_load(result, &args))
    } else if chars_is(&opcode, "zext") {
        match parse_zext(&result, &args) {
            Some(i) => Ok(i),
            None => Ok(ignored("zext")),
        }
    } else if chars_is(&opcode, "sext") || chars_is(&opcode, "trunc") || chars_is(&opcode, "ptrtoint")
        || chars_is(&opcode, "insertvalue") || chars_is(&opcode, "extractvalue") {
        Ok(Instruction::Ignored { opcode: string_of(&opcode) })
    } else if opcode.len() == 0 {
        Err(syntax_dbg("empty instruction in block body: ", &line))
    } else {
        Ok(Instruction::Unsupported { opcode: string_of(&opcode) })
    }
}

// ---------------------------------------------------------------------------
// Headers and attributes
// ---------------------------------------------------------------------------

/// `attributes #N = { ... }` (the text after `attributes`): the group id
/// and the body between the braces (up to the last `}`).
pub open spec fn spec_attribute_group(rest: Seq<char>) -> Option<(u32, Seq<char>)> {
    let r = trim_start(rest);
    if !(r.len() > 0 && r[0] == '#') {
        None
    } else {
        let (num, r2) = spec_split_u32(r.subrange(1, r.len() as int));
        let r3 = trim_start(r2);
        if !(r3.len() > 0 && r3[0] == '=') {
            None
        } else {
            let r4 = trim_start(r3.subrange(1, r3.len() as int));
            if !(r4.len() > 0 && r4[0] == '{') {
                None
            } else {
                let r5 = r4.subrange(1, r4.len() as int);
                match (rfind_char(r5, '}'), num) {
                    (Some(end), Some(n)) => Some((n, r5.subrange(0, end))),
                    _ => None,
                }
            }
        }
    }
}

fn attribute_group_chars(rest: &[char]) -> (r: Option<(u32, Vec<char>)>)
    ensures
        r matches Some((n, b)) ==> spec_attribute_group(rest@) == Some((n, b@)),
        r is None ==> spec_attribute_group(rest@) is None,
{
    let r = trim_start_exec(rest);
    if !(r.len() > 0 && r[0] == '#') {
        return None;
    }
    let a = suffix(&r, 1);
    let (num, r2) = split_u32_chars(&a);
    let r3 = trim_start_exec(&r2);
    if !(r3.len() > 0 && r3[0] == '=') {
        return None;
    }
    let b = suffix(&r3, 1);
    let r4 = trim_start_exec(&b);
    if !(r4.len() > 0 && r4[0] == '{') {
        return None;
    }
    let r5 = suffix(&r4, 1);
    match (rfind_char_exec(&r5, '}'), num) {
        (Some(end), Some(n)) => {
            proof {
                lemma_rfind_char_before(r5@, '}', r5@.len() as int);
            }
            Some((n, slice(&r5, 0, end)))
        },
        _ => None,
    }
}

/// Parse the text after `attributes` (see [`spec_attribute_group`]).
pub fn parse_attribute_group(rest: &str) -> (r: Option<(u32, String)>)
    ensures
        r matches Some((n, b)) ==> spec_attribute_group(rest@) == Some((n, b@)),
        r is None ==> spec_attribute_group(rest@) is None,
{
    let c = chars_of(rest);
    match attribute_group_chars(&c) {
        Some((n, b)) => Some((n, string_of(&b))),
        None => None,
    }
}

/// The function name of a `declare`/`define` header and the text after
/// its parameter list.
pub open spec fn spec_fn_header(line: Seq<char>, kw: Seq<char>) -> Option<(Seq<char>, Seq<char>)> {
    match crate::signatures::find_seq(line, kw) {
        None => None,
        Some(idx) => {
            let rest = line.subrange(idx + kw.len(), line.len() as int);
            match find_char(rest, '@') {
                None => None,
                Some(at) => {
                    let after_at = rest.subrange(at + 1, rest.len() as int);
                    let named: Option<(Seq<char>, Seq<char>)> = if after_at.len() > 0 && after_at[0] == '"' {
                        let q = after_at.subrange(1, after_at.len() as int);
                        match find_char(q, '"') {
                            None => None,
                            Some(e) => Some((q.subrange(0, e), q.subrange(e + 1, q.len() as int))),
                        }
                    } else {
                        let e = ident_end(after_at, 0);
                        Some((after_at.subrange(0, e), after_at.subrange(e, after_at.len() as int)))
                    };
                    match named {
                        None => None,
                        Some((name, after_name)) => match find_char(after_name, '(') {
                            None => None,
                            Some(open) => match spec_matching_close_paren(after_name.subrange(open, after_name.len() as int)) {
                                None => None,
                                Some(c) => Some((after_name.subrange(open + c + 1, after_name.len() as int), name)),
                            },
                        },
                    }
                },
            }
        },
    }
}

fn fn_header_chars(line: &[char], kw: &str) -> (r: Option<(Vec<char>, Vec<char>)>)
    ensures
        r matches Some((rest, name)) ==> spec_fn_header(line@, kw@) == Some((rest@, name@)),
        r is None ==> spec_fn_header(line@, kw@) is None,
{
    let idx = match crate::signatures::find_lit(line, kw) {
        None => {
            return None;
        },
        Some(i) => i,
    };
    let k = chars_of(kw);
    assert(idx + k@.len() <= line.len());
    let rest = suffix(line, idx + k.len());
    let at = match find_char_exec(&rest, '@', 0) {
        None => {
            return None;
        },
        Some(a) => a,
    };
    proof {
        lemma_find_char_from(rest@, '@', 0);
    }
    let after_at = suffix(&rest, at + 1);
    let (name, after_name) = if after_at.len() > 0 && after_at[0] == '"' {
        let q = suffix(&after_at, 1);
        match find_char_exec(&q, '"', 0) {
            None => {
                return None;
            },
            Some(e) => {
                proof {
                    lemma_find_char_from(q@, '"', 0);
                }
                (slice(&q, 0, e), suffix(&q, e + 1))
            },
        }
    } else {
        let e = ident_end_exec(&after_at, 0);
        (slice(&after_at, 0, e), suffix(&after_at, e))
    };
    let open = match find_char_exec(&after_name, '(', 0) {
        None => {
            return None;
        },
        Some(o) => o,
    };
    proof {
        lemma_find_char_from(after_name@, '(', 0);
    }
    let tail = suffix(&after_name, open);
    match close_paren_index(&tail) {
        None => None,
        Some(c) => {
            assert(open + c < after_name.len());
            Some((suffix(&after_name, open + c + 1), name))
        },
    }
}

/// Scanning `s` from `i`: the quoted strings and the `#N` group ids, in
/// order of appearance.
pub open spec fn scan_attrs(s: Seq<char>, i: int) -> (Seq<Seq<char>>, Seq<u32>)
    decreases s.len() - i,
{
    if i < 0 || i >= s.len() {
        (Seq::empty(), Seq::empty())
    } else if s[i] == '"' {
        match crate::text::find_char_from(s, '"', i + 1) {
            None => (Seq::empty(), Seq::empty()),
            Some(j) => {
                proof {
                    crate::text::lemma_find_char_from(s, '"', i + 1);
                }
                let (q, g) = scan_attrs(s, j + 1);
                (seq![s.subrange(i + 1, j)] + q, g)
            },
        }
    } else if s[i] == '#' && digits_end(s, i + 1) > i + 1 {
        let j = digits_end(s, i + 1);
        proof {
            lemma_digits_end(s, i + 1);
        }
        let (q, g) = scan_attrs(s, j);
        match spec_parse_u32(s.subrange(i + 1, j)) {
            Some(n) => (q, seq![n] + g),
            None => (q, g),
        }
    } else {
        scan_attrs(s, i + 1)
    }
}

/// Between a signature and its body: the quoted attribute strings, the
/// attribute-group ids, and whether the body's `{` is on this line.
pub open spec fn spec_post_sig_attrs(rest: Seq<char>) -> (Seq<Seq<char>>, Seq<u32>, bool) {
    let scan = match find_char(rest, '{') {
        Some(o) => rest.subrange(0, o),
        None => rest,
    };
    let (q, g) = scan_attrs(scan, 0);
    (q, g, find_char(rest, '{') is Some)
}

/// Split a `declare` / `define` header line at its function name (see
/// [`spec_fn_header`]): the text after the name, and the name.
pub fn extract_fn_name_from_header(line: &str, keyword: &str) -> (r: Option<(String, String)>)
    ensures
        match spec_fn_header(line@, keyword@) {
            Some((rest, name)) => r matches Some((a, b)) && a@ == rest && b@ == name,
            None => r is None,
        },
{
    let c = chars_of(line);
    match fn_header_chars(&c, keyword) {
        Some((rest, name)) => Some((string_of(&rest), string_of(&name))),
        None => None,
    }
}

/// The attributes after a function signature (see
/// [`spec_post_sig_attrs`]): the quoted inline attributes, the attribute
/// group ids, and whether the body's `{` opens on the same line.
pub fn parse_post_sig_attrs(rest: &str) -> (r: (Vec<String>, Vec<u32>, bool))
    ensures
        r.0@.map_values(|s: String| s@) == spec_post_sig_attrs(rest@).0,
        r.1@ == spec_post_sig_attrs(rest@).1,
        r.2 == spec_post_sig_attrs(rest@).2,
{
    let c = chars_of(rest);
    let (q, g, b) = post_sig_attrs_chars(&c);
    let ghost qv = q@.map_values(|v: Vec<char>| v@);
    let mut out: Vec<String> = Vec::new();
    let mut i: usize = 0;
    while i < q.len()
        invariant
            i <= q@.len(),
            qv == q@.map_values(|v: Vec<char>| v@),
            out@.map_values(|s: String| s@) == qv.subrange(0, i as int),
        decreases q@.len() - i,
    {
        let ghost o0 = out@.map_values(|s: String| s@);
        out.push(string_of(&q[i]));
        proof {
            assert(out@.map_values(|s: String| s@) =~= o0.push(q@[i as int]@));
            assert(qv.subrange(0, i + 1) =~= qv.subrange(0, i as int).push(qv[i as int]));
        }
        i = i + 1;
    }
    proof {
        assert(qv.subrange(0, qv.len() as int) =~= qv);
    }
    (out, g, b)
}

/// The quoted strings and group ids of an attribute text (see
/// [`scan_attrs`]).
fn scan_attrs_exec(scan: &[char]) -> (r: (Vec<Vec<char>>, Vec<u32>))
    ensures
        r.0@.map_values(|v: Vec<char>| v@) == scan_attrs(scan@, 0).0,
        r.1@ == scan_attrs(scan@, 0).1,
{
    let mut quoted: Vec<Vec<char>> = Vec::new();
    let mut groups: Vec<u32> = Vec::new();
    let mut i: usize = 0;
    let ghost total = scan_attrs(scan@, 0);
    proof {
        assert(quoted@.map_values(|v: Vec<char>| v@) =~= Seq::<Seq<char>>::empty());
        assert(Seq::<Seq<char>>::empty() + total.0 =~= total.0);
        assert(Seq::<u32>::empty() + total.1 =~= total.1);
    }
    while i < scan.len()
        invariant
            i <= scan@.len(),
            total == scan_attrs(scan@, 0),
            quoted@.map_values(|v: Vec<char>| v@) + scan_attrs(scan@, i as int).0 == total.0,
            groups@ + scan_attrs(scan@, i as int).1 == total.1,
        decreases scan@.len() - i,
    {
        let c = scan[i];
        if c == '"' {
            match find_char_exec(scan, '"', i + 1) {
                None => {
                    proof {
                        let (q0, g0) = scan_attrs(scan@, i as int);
                        assert(q0 =~= Seq::<Seq<char>>::empty());
                        assert(g0 =~= Seq::<u32>::empty());
                        let (q1, g1) = scan_attrs(scan@, scan@.len() as int);
                        assert(q1 =~= Seq::<Seq<char>>::empty());
                        assert(g1 =~= Seq::<u32>::empty());
                    }
                    i = scan.len();
                    continue;
                },
                Some(j) => {
                    proof {
                        crate::text::lemma_find_char_from(scan@, '"', i + 1);
                    }
                    let item = slice(scan, i + 1, j);
                    proof {
                        let (q, g) = scan_attrs(scan@, j + 1);
                        assert(quoted@.map_values(|v: Vec<char>| v@) + (seq![item@] + q) =~= quoted@.push(
                            item,
                        ).map_values(|v: Vec<char>| v@) + q);
                    }
                    quoted.push(item);
                    i = j + 1;
                    continue;
                },
            }
        }
        if c == '#' {
            let j = digits_end_exec(scan, i + 1);
            if j > i + 1 {
                let d = slice(scan, i + 1, j);
                match parse_u32(&d) {
                    Some(n) => {
                        proof {
                            let (q, g) = scan_attrs(scan@, j as int);
                            assert(groups@ + (seq![n] + g) =~= groups@.push(n) + g);
                        }
                        groups.push(n);
                    },
                    None => {},
                }
                i = j;
                continue;
            }
        }
        i = i + 1;
    }
    proof {
        assert(quoted@.map_values(|v: Vec<char>| v@) + Seq::<Seq<char>>::empty() =~= quoted@.map_values(|v: Vec<char>| v@));
        assert(groups@ + Seq::<u32>::empty() =~= groups@);
    }
    (quoted, groups)
}

fn post_sig_attrs_chars(rest: &[char]) -> (r: (Vec<Vec<char>>, Vec<u32>, bool))
    ensures
        r.0@.map_values(|v: Vec<char>| v@) == spec_post_sig_attrs(rest@).0,
        r.1@ == spec_post_sig_attrs(rest@).1,
        r.2 == spec_post_sig_attrs(rest@).2,
{
    let open = find_char_exec(rest, '{', 0);
    let scan = match open {
        Some(o) => {
            proof {
                crate::text::lemma_find_char_from(rest@, '{', 0);
            }
            slice(rest, 0, o)
        },
        None => slice(rest, 0, rest.len()),
    };
    assert(open is None ==> scan@ =~= rest@);
    let (quoted, groups) = scan_attrs_exec(&scan);
    (quoted, groups, open.is_some())
}

// ---------------------------------------------------------------------------
// Line cursor
// ---------------------------------------------------------------------------

/// The end of the line that starts at `pos` (its `'\n'` or the end).
pub open spec fn line_end(src: Seq<char>, pos: int) -> int {
    match crate::text::find_char_from(src, '\n', pos) {
        Some(e) => e,
        None => src.len() as int,
    }
}

/// The line that starts at `pos`, without its `'\n'`.
pub open spec fn line_at(src: Seq<char>, pos: int) -> Seq<char> {
    src.subrange(pos, line_end(src, pos))
}

/// The start of the line after the one at `pos`.
pub open spec fn next_line(src: Seq<char>, pos: int) -> int {
    let e = line_end(src, pos);
    if e < src.len() {
        e + 1
    } else {
        src.len() as int
    }
}

/// A blank line, or a `;` comment or `!` metadata line.
pub open spec fn is_blank_or_comment(line: Seq<char>) -> bool {
    let t = trim_start(line);
    t.len() == 0 || t[0] == ';' || t[0] == '!'
}

/// The source and a position in it.
/// The first line at or after `pos` that is neither blank nor a comment,
/// or the end of the text.
pub open spec fn skip_blank(src: Seq<char>, pos: int) -> int
    decreases src.len() - pos,
{
    if pos < 0 || pos >= src.len() {
        pos
    } else if is_blank_or_comment(line_at(src, pos)) {
        proof {
            lemma_line_len(src, pos);
        }
        skip_blank(src, next_line(src, pos))
    } else {
        pos
    }
}

/// Joining continuation lines from `pos` onto `acc` while brackets stay
/// open (`depth` is their count so far) or a call has not yet shown its
/// callee's `@`: blank lines are passed over, each other line is trimmed
/// and added after one space. Gives the joined text and the position
/// after the last line read, or the error for text that ends first.
pub open spec fn accum(src: Seq<char>, pos: int, acc: Seq<char>, depth: int, seen: bool, call: bool) -> Result<
    (Seq<char>, int),
    ErrView,
>
    decreases src.len() - pos,
{
    if depth == 0 && (!call || seen) {
        Ok((acc, pos))
    } else if pos < 0 || pos >= src.len() {
        Err(ErrView::Syntax("unterminated instruction: "@ + str_debug_text(acc)))
    } else {
        proof {
            lemma_line_len(src, pos);
        }
        let extra = trim(line_at(src, pos));
        let live = spec_strip_comment(extra);
        if extra.len() == 0 {
            accum(src, next_line(src, pos), acc, depth, seen, call)
        } else {
            accum(
                src,
                next_line(src, pos),
                acc + " "@ + extra,
                depth + spec_paren_depth(live),
                seen || live.contains('@'),
                call,
            )
        }
    }
}

/// The instruction that starts with line `first`, whose continuation lines
/// begin at `pos`.
pub open spec fn accumulate(src: Seq<char>, pos: int, first: Seq<char>) -> Result<(Seq<char>, int), ErrView> {
    let live = spec_strip_comment(first);
    accum(src, pos, first, spec_paren_depth(live), live.contains('@'), spec_effective_opcode(first) == "call"@)
}

pub proof fn lemma_accum_pos(src: Seq<char>, pos: int, acc: Seq<char>, depth: int, seen: bool, call: bool)
    requires
        0 <= pos <= src.len(),
    ensures
        accum(src, pos, acc, depth, seen, call) matches Ok((_, p2)) ==> pos <= p2 <= src.len(),
    decreases src.len() - pos,
{
    if depth == 0 && (!call || seen) {
    } else if pos >= src.len() {
    } else {
        lemma_line_len(src, pos);
        let extra = trim(line_at(src, pos));
        let live = spec_strip_comment(extra);
        if extra.len() == 0 {
            lemma_accum_pos(src, next_line(src, pos), acc, depth, seen, call);
        } else {
            lemma_accum_pos(
                src,
                next_line(src, pos),
                acc + " "@ + extra,
                depth + spec_paren_depth(live),
                seen || live.contains('@'),
                call,
            );
        }
    }
}

/// A block as plain values: its label and its instructions.
pub type BlockView = (Seq<char>, Seq<InstrView>);

/// The view of a block.
pub open spec fn block_view(b: crate::ir::Block) -> BlockView {
    (b.name@, b.instructions@.map_values(|i: Instruction| instr_view(i)))
}

/// The views of a list of blocks.
pub open spec fn blocks_view(bs: Seq<crate::ir::Block>) -> Seq<BlockView> {
    bs.map_values(|b: crate::ir::Block| block_view(b))
}

/// A label line: it starts a new block, unless the current one is still
/// empty and unnamed, which then takes the label.
pub open spec fn add_label(blocks: Seq<BlockView>, label: Seq<char>) -> Seq<BlockView> {
    let last = blocks.last();
    if last.1.len() > 0 || last.0 != Seq::<char>::empty() {
        blocks.push((label, Seq::empty()))
    } else {
        blocks.update(blocks.len() - 1, (label, Seq::empty()))
    }
}

/// An instruction goes to the current (last) block.
pub open spec fn add_instr(blocks: Seq<BlockView>, i: InstrView) -> Seq<BlockView> {
    let last = blocks.last();
    blocks.update(blocks.len() - 1, (last.0, last.1.push(i)))
}

/// The body of a definition from `pos` on: blank and comment lines are
/// passed over, `}` ends it, label lines open blocks and every other line
/// starts an instruction. Gives the blocks and the position after `}`.
#[verifier::opaque]
pub open spec fn define_body(src: Seq<char>, pos: int, blocks: Seq<BlockView>) -> Result<(Seq<BlockView>, int), ErrView>
    decreases src.len() - pos,
{
    if pos < 0 || pos >= src.len() {
        Err(ErrView::Syntax("define body not terminated"@))
    } else {
        proof {
            lemma_line_len(src, pos);
        }
        let np = next_line(src, pos);
        let trimmed = trim(line_at(src, pos));
        if trimmed.len() == 0 || trimmed[0] == ';' {
            define_body(src, np, blocks)
        } else if trimmed == "}"@ {
            Ok((blocks, np))
        } else if spec_label_line(trimmed) is Some {
            define_body(src, np, add_label(blocks, spec_label_line(trimmed)->0))
        } else {
            match accumulate(src, np, trimmed) {
                Err(e) => Err(e),
                Ok((acc, p2)) => {
                    proof {
                        let live = spec_strip_comment(trimmed);
                        lemma_accum_pos(
                            src,
                            np,
                            trimmed,
                            spec_paren_depth(live),
                            live.contains('@'),
                            spec_effective_opcode(trimmed) == "call"@,
                        );
                    }
                    match spec_parse_instruction(acc) {
                        Err(e) => Err(e),
                        Ok(iv) => define_body(src, p2, add_instr(blocks, iv)),
                    }
                },
            }
        }
    }
}

/// The line after the first one at or after `pos` that opens with `{`.
pub open spec fn find_open(src: Seq<char>, pos: int) -> Option<int>
    decreases src.len() - pos,
{
    if pos < 0 || pos >= src.len() {
        None
    } else {
        proof {
            lemma_line_len(src, pos);
        }
        let t = trim_start(line_at(src, pos));
        if t.len() > 0 && t[0] == '{' {
            Some(next_line(src, pos))
        } else {
            find_open(src, next_line(src, pos))
        }
    }
}

/// One step of [`define_body`] at the line at `pos`.
pub proof fn lemma_define_body_step(src: Seq<char>, pos: int, blocks: Seq<BlockView>)
    requires
        0 <= pos,
    ensures
        pos >= src.len() ==> define_body(src, pos, blocks) == Err::<(Seq<BlockView>, int), ErrView>(
            ErrView::Syntax("define body not terminated"@),
        ),
        pos < src.len() ==> ({
            let np = next_line(src, pos);
            let trimmed = trim(line_at(src, pos));
            define_body(src, pos, blocks) == if trimmed.len() == 0 || trimmed[0] == ';' {
                define_body(src, np, blocks)
            } else if trimmed == "}"@ {
                Ok((blocks, np))
            } else if spec_label_line(trimmed) is Some {
                define_body(src, np, add_label(blocks, spec_label_line(trimmed)->0))
            } else {
                match accumulate(src, np, trimmed) {
                    Err(e) => Err(e),
                    Ok((acc, p2)) => match spec_parse_instruction(acc) {
                        Err(e) => Err(e),
                        Ok(iv) => define_body(src, p2, add_instr(blocks, iv)),
                    },
                }
            }
        }),
{
    reveal(define_body);
}

/// A definition as plain values before its attribute groups are resolved:
/// name, inline entry-point flag, inline profile, blocks and the ids of the
/// attribute groups it refers to.
pub type PendingView = (Seq<char>, bool, Option<Seq<char>>, Seq<BlockView>, Seq<u32>);

/// What parsing the `define` at `pos` gives: the definition and the
/// position after its closing `}`, or the error.
pub open spec fn spec_define(src: Seq<char>, pos: int) -> Result<(PendingView, int), ErrView> {
    let header = line_at(src, pos);
    let np = next_line(src, pos);
    match spec_fn_header(header, "define"@) {
        None => Err(ErrView::Syntax("could not parse define header: "@ + trim(header))),
        Some((rest, name)) => {
            let a = spec_post_sig_attrs(rest);
            let start = if a.2 {
                Some(np)
            } else {
                find_open(src, np)
            };
            match start {
                None => Err(ErrView::Syntax("define without body block"@)),
                Some(b) => match define_body(src, b, seq![(Seq::<char>::empty(), Seq::<InstrView>::empty())]) {
                    Err(e) => Err(e),
                    Ok((blocks, end)) => Ok(
                        ((name, a.0.contains("entry_point"@), profile_in_quoted(a.0), blocks, a.1), end),
                    ),
                },
            }
        },
    }
}

/// A function as plain values.
pub struct FunctionView {
    pub name: Seq<char>,
    pub is_declaration: bool,
    pub is_entry_point: bool,
    pub qir_profile: Option<Seq<char>>,
    pub blocks: Seq<BlockView>,
}

/// The view of a function.
pub open spec fn fn_view(f: crate::ir::Function) -> FunctionView {
    FunctionView {
        name: f.name@,
        is_declaration: f.is_declaration,
        is_entry_point: f.is_entry_point,
        qir_profile: opt_view(f.qir_profile),
        blocks: blocks_view(f.blocks@),
    }
}

/// What parsing the `declare` line at `pos` gives.
pub open spec fn spec_declare(src: Seq<char>, pos: int) -> Result<FunctionView, ErrView> {
    let line = line_at(src, pos);
    match spec_fn_header(line, "declare"@) {
        None => Err(ErrView::Syntax("could not parse declare: "@ + trim(line))),
        Some((_, name)) => Ok(
            FunctionView {
                name,
                is_declaration: true,
                is_entry_point: false,
                qir_profile: None,
                blocks: Seq::empty(),
            },
        ),
    }
}

/// A top-level item as plain values.
pub enum ItemView {
    Decl(FunctionView),
    Define(PendingView),
}

pub proof fn lemma_skip_blank(src: Seq<char>, pos: int)
    requires
        0 <= pos,
    ensures
        pos <= skip_blank(src, pos),
        pos <= src.len() ==> skip_blank(src, pos) <= src.len(),
    decreases src.len() - pos,
{
    if pos < src.len() && is_blank_or_comment(line_at(src, pos)) {
        lemma_line_len(src, pos);
        lemma_skip_blank(src, next_line(src, pos));
    }
}

pub proof fn lemma_find_open_pos(src: Seq<char>, pos: int)
    requires
        0 <= pos,
    ensures
        find_open(src, pos) matches Some(q) ==> pos < q <= src.len(),
    decreases src.len() - pos,
{
    if pos < src.len() {
        lemma_line_len(src, pos);
        lemma_find_open_pos(src, next_line(src, pos));
    }
}

pub proof fn lemma_define_body_pos(src: Seq<char>, pos: int, blocks: Seq<BlockView>)
    requires
        0 <= pos,
    ensures
        define_body(src, pos, blocks) matches Ok((_, q)) ==> pos < q <= src.len(),
    decreases src.len() - pos,
{
    lemma_define_body_step(src, pos, blocks);
    if pos < src.len() {
        lemma_line_len(src, pos);
        let np = next_line(src, pos);
        let trimmed = trim(line_at(src, pos));
        if trimmed.len() == 0 || trimmed[0] == ';' {
            lemma_define_body_pos(src, np, blocks);
        } else if trimmed == "}"@ {
        } else if spec_label_line(trimmed) is Some {
            lemma_define_body_pos(src, np, add_label(blocks, spec_label_line(trimmed)->0));
        } else {
            let live = spec_strip_comment(trimmed);
            lemma_accum_pos(
                src,
                np,
                trimmed,
                spec_paren_depth(live),
                live.contains('@'),
                spec_effective_opcode(trimmed) == "call"@,
            );
            match accumulate(src, np, trimmed) {
                Err(_) => {},
                Ok((acc, p2)) => match spec_parse_instruction(acc) {
                    Err(_) => {},
                    Ok(iv) => {
                        lemma_define_body_pos(src, p2, add_instr(blocks, iv));
                    },
                },
            }
        }
    }
}

pub proof fn lemma_define_pos(src: Seq<char>, pos: int)
    requires
        0 <= pos < src.len(),
    ensures
        spec_define(src, pos) matches Ok((_, q)) ==> pos < q <= src.len(),
{
    lemma_line_len(src, pos);
    let np = next_line(src, pos);
    lemma_find_open_pos(src, np);
    if let Some((rest, name)) = spec_fn_header(line_at(src, pos), "define"@) {
        let a = spec_post_sig_attrs(rest);
        let start = if a.2 {
            Some(np)
        } else {
            find_open(src, np)
        };
        if let Some(b) = start {
            lemma_define_body_pos(src, b, seq![(Seq::<char>::empty(), Seq::<InstrView>::empty())]);
        }
    }
}

/// The top-level items and attribute groups of the text from `pos` on,
/// after `items` and `groups`: `define` and `declare` lines give items,
/// `attributes` lines give groups, other lines are passed over.
#[verifier::opaque]
pub open spec fn module_items(
    src: Seq<char>,
    pos: int,
    items: Seq<ItemView>,
    groups: Seq<(u32, Seq<char>)>,
) -> Result<(Seq<ItemView>, Seq<(u32, Seq<char>)>), ErrView>
    decreases src.len() - pos,
{
    if pos < 0 || pos >= src.len() {
        Ok((items, groups))
    } else {
        let p1 = skip_blank(src, pos);
        proof {
            lemma_skip_blank(src, pos);
        }
        if p1 >= src.len() {
            Ok((items, groups))
        } else {
            proof {
                lemma_line_len(src, p1);
                lemma_define_pos(src, p1);
            }
            let t = trim_start(line_at(src, p1));
            let np = next_line(src, p1);
            if has_prefix(t, "define"@) {
                match spec_define(src, p1) {
                    Err(e) => Err(e),
                    Ok((f, q)) => module_items(src, q, items.push(ItemView::Define(f)), groups),
                }
            } else if has_prefix(t, "declare"@) {
                match spec_declare(src, p1) {
                    Err(e) => Err(e),
                    Ok(f) => module_items(src, np, items.push(ItemView::Decl(f)), groups),
                }
            } else if has_prefix(t, "attributes"@) && t.len() >= 10 {
                let g = spec_attribute_group(t.subrange(10, t.len() as int));
                module_items(
                    src,
                    np,
                    items,
                    match g {
                        Some(x) => groups.push(x),
                        None => groups,
                    },
                )
            } else {
                module_items(src, np, items, groups)
            }
        }
    }
}

/// One step of [`module_items`] at `pos`.
pub proof fn lemma_module_items_step(src: Seq<char>, pos: int, items: Seq<ItemView>, groups: Seq<(u32, Seq<char>)>)
    requires
        0 <= pos,
    ensures
        ({
            let p1 = skip_blank(src, pos);
            let t = trim_start(line_at(src, p1));
            let np = next_line(src, p1);
            module_items(src, pos, items, groups) == if pos >= src.len() || p1 >= src.len() {
                Ok((items, groups))
            } else if has_prefix(t, "define"@) {
                match spec_define(src, p1) {
                    Err(e) => Err(e),
                    Ok((f, q)) => module_items(src, q, items.push(ItemView::Define(f)), groups),
                }
            } else if has_prefix(t, "declare"@) {
                match spec_declare(src, p1) {
                    Err(e) => Err(e),
                    Ok(f) => module_items(src, np, items.push(ItemView::Decl(f)), groups),
                }
            } else if has_prefix(t, "attributes"@) && t.len() >= 10 {
                module_items(
                    src,
                    np,
                    items,
                    match spec_attribute_group(t.subrange(10, t.len() as int)) {
                        Some(x) => groups.push(x),
                        None => groups,
                    },
                )
            } else {
                module_items(src, np, items, groups)
            }
        }),
{
    reveal(module_items);
}

/// Whether a definition referring to the attribute groups `refs` is an
/// entry point, having looked at the first `k` of them: it is when it says
/// so itself or one of those groups mentions `entry_point`.
pub open spec fn resolved_entry(groups: Seq<(u32, Seq<char>)>, refs: Seq<u32>, k: int, entry0: bool) -> bool
    decreases k,
{
    if k <= 0 {
        entry0
    } else {
        resolved_entry(groups, refs, k - 1, entry0) || (group_body(groups, refs[k - 1]) matches Some(b)
            && crate::text::contains_seq(b, "entry_point"@))
    }
}

pub proof fn lemma_resolved_entry_inline(groups: Seq<(u32, Seq<char>)>, refs: Seq<u32>, k: int)
    ensures
        resolved_entry(groups, refs, k, true),
    decreases k,
{
    if k > 0 {
        lemma_resolved_entry_inline(groups, refs, k - 1);
    }
}

/// The profile of such a definition after the first `k` groups: its own,
/// else the `qir_profiles` value of the first group found that gives one.
pub open spec fn resolved_profile(groups: Seq<(u32, Seq<char>)>, refs: Seq<u32>, k: int, prof0: Option<Seq<char>>) -> Option<
    Seq<char>,
>
    decreases k,
{
    if k <= 0 {
        prof0
    } else {
        let pr = resolved_profile(groups, refs, k - 1, prof0);
        match group_body(groups, refs[k - 1]) {
            Some(b) => if pr is None {
                profile_in_quoted(scan_attrs(b, 0).0)
            } else {
                pr
            },
            None => pr,
        }
    }
}

/// The function an item stands for once attribute groups are resolved.
pub open spec fn item_function(it: ItemView, groups: Seq<(u32, Seq<char>)>) -> FunctionView {
    match it {
        ItemView::Decl(f) => f,
        ItemView::Define(pf) => FunctionView {
            name: pf.0,
            is_declaration: false,
            is_entry_point: resolved_entry(groups, pf.4, pf.4.len() as int, pf.1),
            qir_profile: resolved_profile(groups, pf.4, pf.4.len() as int, pf.2),
            blocks: pf.3,
        },
    }
}

/// What parsing a module's text gives: its functions in source order, or
/// the first error.
pub open spec fn spec_parse_module(text: Seq<char>) -> Result<Seq<FunctionView>, ErrView> {
    match module_items(text, 0, Seq::empty(), Seq::empty()) {
        Err(e) => Err(e),
        Ok((items, groups)) => Ok(items.map_values(|it: ItemView| item_function(it, groups))),
    }
}

struct Parser {
    src: Vec<char>,
    pos: usize,
}

impl Parser {
    spec fn wf(self) -> bool {
        self.pos <= self.src@.len()
    }

    fn eof(&self) -> (r: bool)
        ensures
            r == (self.pos >= self.src@.len()),
    {
        self.pos >= self.src.len()
    }

    fn peek_line(&self) -> (r: Vec<char>)
        requires
            self.wf(),
        ensures
            r@ == line_at(self.src@, self.pos as int),
    {
        proof {
            crate::text::lemma_find_char_from(self.src@, '\n', self.pos as int);
        }
        let end = match find_char_exec(&self.src, '\n', self.pos) {
            Some(e) => e,
            None => self.src.len(),
        };
        slice(&self.src, self.pos, end)
    }

    fn consume_rest_of_line(&mut self)
        requires
            old(self).wf(),
        ensures
            final(self).wf(),
            final(self).src == old(self).src,
            final(self).pos == next_line(old(self).src@, old(self).pos as int),
            old(self).pos < old(self).src@.len() ==> old(self).pos < final(self).pos,
    {
        proof {
            crate::text::lemma_find_char_from(self.src@, '\n', self.pos as int);
        }
        match find_char_exec(&self.src, '\n', self.pos) {
            Some(e) => {
                assert(e < self.src.len());
                self.pos = e + 1;
            },
            None => {
                self.pos = self.src.len();
            },
        }
    }

    fn skip_blank_and_comment_lines(&mut self)
        requires
            old(self).wf(),
        ensures
            final(self).wf(),
            final(self).src == old(self).src,
            old(self).pos <= final(self).pos,
            final(self).pos < final(self).src@.len() ==> !is_blank_or_comment(
                line_at(final(self).src@, final(self).pos as int),
            ),
            final(self).pos == skip_blank(old(self).src@, old(self).pos as int),
    {
        loop
            invariant
                self.wf(),
                self.src == old(self).src,
                old(self).pos <= self.pos,
                skip_blank(self.src@, self.pos as int) == skip_blank(old(self).src@, old(self).pos as int),
            decreases self.src@.len() - self.pos,
        {
            if self.eof() {
                return;
            }
            let line = self.peek_line();
            let t = trim_start_exec(&line);
            if t.len() == 0 || t[0] == ';' || t[0] == '!' {
                self.consume_rest_of_line();
                continue;
            }
            return;
        }
    }
}

// ---------------------------------------------------------------------------
// declare / define
// ---------------------------------------------------------------------------

/// Helper used during parsing only: a `define` whose attribute-group
/// references are resolved in a second pass.
struct PendingFunction {
    name: String,
    is_entry_point: bool,
    qir_profile: Option<String>,
    blocks: Vec<crate::ir::Block>,
    pending_group_refs: Vec<u32>,
}

spec fn pending_view(f: PendingFunction) -> PendingView {
    (f.name@, f.is_entry_point, opt_view(f.qir_profile), blocks_view(f.blocks@), f.pending_group_refs@)
}

/// The value of `"qir_profiles"` in a list of quoted attribute strings: the
/// string right after it.
pub open spec fn profile_in_quoted(q: Seq<Seq<char>>) -> Option<Seq<char>>
    decreases q.len(),
{
    if q.len() < 2 {
        None
    } else if q[0] == "qir_profiles"@ {
        Some(q[1])
    } else {
        profile_in_quoted(q.subrange(1, q.len() as int))
    }
}

fn profile_in_quoted_exec(q: &Vec<Vec<char>>) -> (r: Option<String>)
    ensures
        opt_view(r) == profile_in_quoted(q@.map_values(|v: Vec<char>| v@)),
{
    let ghost qs = q@.map_values(|v: Vec<char>| v@);
    let mut i: usize = 0;
    assert(qs.subrange(0, qs.len() as int) =~= qs);
    while q.len() >= 2 && i < q.len() - 1
        invariant
            i <= q@.len(),
            qs == q@.map_values(|v: Vec<char>| v@),
            profile_in_quoted(qs.subrange(i as int, qs.len() as int)) == profile_in_quoted(qs),
        decreases q@.len() - i,
    {
        let ghost tail = qs.subrange(i as int, qs.len() as int);
        proof {
            assert(tail[0] == q@[i as int]@);
            assert(tail[1] == q@[i + 1]@);
            assert(tail.subrange(1, tail.len() as int) =~= qs.subrange(i + 1, qs.len() as int));
        }
        if chars_is(&q[i], "qir_profiles") {
            return Some(string_of(&q[i + 1]));
        }
        i = i + 1;
    }
    assert(qs.subrange(i as int, qs.len() as int).len() < 2 || q@.len() < 2);
    None
}

fn parse_declare(p: &mut Parser) -> (r: Result<crate::ir::Function, QirToQasmError>)
    requires
        old(p).wf(),
        old(p).pos < old(p).src@.len(),
    ensures
        final(p).wf(),
        final(p).src == old(p).src,
        final(p).pos == next_line(old(p).src@, old(p).pos as int),
        old(p).pos < final(p).pos,
        r matches Ok(f) ==> f.is_declaration && !f.is_entry_point && f.qir_profile is None
            && f.blocks@.len() == 0 && spec_fn_header(
            line_at(old(p).src@, old(p).pos as int),
            "declare"@,
        ) is Some && (spec_fn_header(line_at(old(p).src@, old(p).pos as int), "declare"@)->0).1
            == f.name@,
        r matches Err(e) ==> e is Syntax && spec_fn_header(
            line_at(old(p).src@, old(p).pos as int),
            "declare"@,
        ) is None,
        match spec_declare(old(p).src@, old(p).pos as int) {
            Ok(fv) => r matches Ok(f) && fn_view(f) == fv,
            Err(e) => r matches Err(x) && err_view(x) == e,
        },
{
    let line = p.peek_line();
    p.consume_rest_of_line();
    match fn_header_chars(&line, "declare") {
        None => {
            let t = trim_exec(&line);
            let mut m: Vec<char> = Vec::new();
            crate::text::push_str(&mut m, "could not parse declare: ");
            crate::text::push_chars(&mut m, &t);
            Err(syntax_err(&m))
        },
        Some((_, name)) => {
            let f = crate::ir::Function {
                name: string_of(&name),
                is_declaration: true,
                is_entry_point: false,
                qir_profile: None,
                blocks: Vec::new(),
            };
            proof {
                assert(blocks_view(f.blocks@) =~= Seq::<BlockView>::empty());
            }
            Ok(f)
        },
    }
}

pub proof fn lemma_trim_len(x: Seq<char>)
    ensures
        trim(x).len() <= x.len(),
        trim_start(x).len() <= x.len(),
{
    lemma_skip_ws(x, 0);
    let t = trim_start(x);
    lemma_skip_ws_back(t, t.len() as int);
}

pub proof fn lemma_strip_comment_len(x: Seq<char>)
    ensures
        spec_strip_comment(x).len() <= x.len(),
{
    crate::text::lemma_find_char_from(x, ';', 0);
}

pub proof fn lemma_line_len(src: Seq<char>, pos: int)
    requires
        0 <= pos < src.len(),
    ensures
        pos < next_line(src, pos) <= src.len(),
        line_at(src, pos).len() <= next_line(src, pos) - pos,
{
    crate::text::lemma_find_char_from(src, '\n', pos);
}

/// Read continuation lines after the first line `first` of an instruction
/// (already consumed) until brackets balance and, for a call, the callee's
/// `@` has been seen; the pieces are joined with single spaces.
fn accumulate_instruction(p: &mut Parser, first: Vec<char>) -> (r: Result<Vec<char>, QirToQasmError>)
    requires
        old(p).wf(),
        first@.len() <= old(p).pos,
    ensures
        final(p).wf(),
        final(p).src == old(p).src,
        old(p).pos <= final(p).pos,
        match accumulate(old(p).src@, old(p).pos as int, first@) {
            Ok((v, q)) => r matches Ok(a) && a@ == v && final(p).pos == q,
            Err(e) => r matches Err(x) && err_view(x) == e,
        },
{
    let mut accumulated: Vec<char> = copy_vec(&first);
    let live_first = strip_trailing_comment(&first);
    proof {
        lemma_strip_comment_len(first@);
        lemma_paren_depth_bound(live_first@);
    }
    let mut depth: i128 = paren_depth_chars(&live_first);
    let mut seen_at = crate::text::contains_char(&live_first, '@');
    let op = effective_opcode_chars(&accumulated);
    let is_call_start = chars_is(&op, "call");
    loop
        invariant
            p.wf(),
            p.src == old(p).src,
            old(p).pos <= p.pos,
            -(p.pos as int) <= depth <= p.pos as int,
            accum(p.src@, p.pos as int, accumulated@, depth as int, seen_at, is_call_start) == accumulate(
                old(p).src@,
                old(p).pos as int,
                first@,
            ),
        decreases p.src@.len() - p.pos,
    {
        let done = depth == 0 && (!is_call_start || seen_at);
        if done {
            return Ok(accumulated);
        }
        if p.eof() {
            let mut m: Vec<char> = Vec::new();
            crate::text::push_str(&mut m, "unterminated instruction: ");
            crate::text::push_debug(&mut m, &accumulated);
            return Err(syntax_err(&m));
        }
        let el = p.peek_line();
        let extra = trim_exec(&el);
        let ghost pos0 = p.pos as int;
        proof {
            lemma_line_len(p.src@, pos0);
            lemma_trim_len(el@);
        }
        if extra.len() == 0 {
            p.consume_rest_of_line();
            continue;
        }
        crate::text::push_str(&mut accumulated, " ");
        crate::text::push_chars(&mut accumulated, &extra);
        let live_extra = strip_trailing_comment(&extra);
        let d = paren_depth_chars(&live_extra);
        proof {
            lemma_strip_comment_len(extra@);
            lemma_paren_depth_bound(live_extra@);
        }
        p.consume_rest_of_line();
        depth = depth + d;
        if !seen_at {
            seen_at = crate::text::contains_char(&live_extra, '@');
        }
    }
}

/// Move past the line that opens a definition's body with `{`, if there
/// is one.
fn skip_to_body(p: &mut Parser) -> (r: bool)
    requires
        old(p).wf(),
    ensures
        final(p).wf(),
        final(p).src == old(p).src,
        old(p).pos <= final(p).pos,
        r == find_open(old(p).src@, old(p).pos as int) is Some,
        r ==> find_open(old(p).src@, old(p).pos as int) == Some(final(p).pos as int),
{
    loop
        invariant
            p.wf(),
            p.src == old(p).src,
            old(p).pos <= p.pos,
            find_open(p.src@, p.pos as int) == find_open(old(p).src@, old(p).pos as int),
        decreases p.src@.len() - p.pos,
    {
        if p.eof() {
            return false;
        }
        let line = p.peek_line();
        let t = trim_start_exec(&line);
        if t.len() > 0 && t[0] == '{' {
            p.consume_rest_of_line();
            return true;
        }
        p.consume_rest_of_line();
    }
}

/// Parse the blocks of a definition's body, up to and past its `}`.
fn parse_blocks(p: &mut Parser) -> (r: Result<Vec<crate::ir::Block>, QirToQasmError>)
    requires
        old(p).wf(),
    ensures
        final(p).wf(),
        final(p).src == old(p).src,
        old(p).pos <= final(p).pos,
        r matches Ok(bs) ==> bs@.len() > 0,
        match define_body(old(p).src@, old(p).pos as int, seq![(Seq::<char>::empty(), Seq::<InstrView>::empty())]) {
            Ok((bv, q)) => r matches Ok(bs) && blocks_view(bs@) == bv && final(p).pos == q,
            Err(e) => r matches Err(x) && err_view(x) == e,
        },
{
    let mut blocks: Vec<crate::ir::Block> = Vec::new();
    blocks.push(crate::ir::Block { name: String::new(), instructions: Vec::new() });
    proof {
        assert(blocks@[0].instructions@.map_values(|i: Instruction| instr_view(i)) =~= Seq::<InstrView>::empty());
        assert(blocks_view(blocks@) =~= seq![(Seq::<char>::empty(), Seq::<InstrView>::empty())]);
    }
    loop
        invariant
            p.wf(),
            p.src == old(p).src,
            old(p).pos <= p.pos,
            blocks@.len() > 0,
            define_body(p.src@, p.pos as int, blocks_view(blocks@)) == define_body(
                old(p).src@,
                old(p).pos as int,
                seq![(Seq::<char>::empty(), Seq::<InstrView>::empty())],
            ),
        decreases p.src@.len() - p.pos,
    {
        let ghost bv = blocks_view(blocks@);
        proof {
            lemma_define_body_step(p.src@, p.pos as int, bv);
        }
        if p.eof() {
            return Err(QirToQasmError::syntax("define body not terminated"));
        }
        let line = p.peek_line();
        let trimmed = trim_exec(&line);
        if trimmed.len() == 0 || trimmed[0] == ';' {
            p.consume_rest_of_line();
            continue;
        }
        if chars_is(&trimmed, "}") {
            p.consume_rest_of_line();
            return Ok(blocks);
        }
        match label_line_chars(&trimmed) {
            Some(label) => {
                add_label_exec(&mut blocks, label);
                p.consume_rest_of_line();
                continue;
            },
            None => {},
        }
        proof {
            lemma_line_len(p.src@, p.pos as int);
            lemma_trim_len(line@);
        }
        p.consume_rest_of_line();
        let accumulated = match accumulate_instruction(p, trimmed) {
            Ok(a) => a,
            Err(x) => {
                return Err(x);
            },
        };
        let instr = match parse_instruction_chars(&accumulated) {
            Ok(i) => i,
            Err(x) => {
                return Err(x);
            },
        };
        add_instr_exec(&mut blocks, instr);
    }
}

/// Start a block labelled `label`, or name the current block when it is
/// still empty and unnamed.
fn add_label_exec(blocks: &mut Vec<crate::ir::Block>, label: Vec<char>)
    requires
        old(blocks)@.len() > 0,
    ensures
        final(blocks)@.len() > 0,
        blocks_view(final(blocks)@) == add_label(blocks_view(old(blocks)@), label@),
{
    let ghost bv = blocks_view(blocks@);
    let last = blocks.len() - 1;
    proof {
        reveal_strlit("");
        assert(""@ =~= Seq::<char>::empty());
        assert(bv.last() == block_view(blocks@[last as int]));
        assert(bv.last().1.len() == blocks@[last as int].instructions@.len());
    }
    if blocks[last].instructions.len() > 0 || !crate::text::string_is(&blocks[last].name, "") {
        let nb = crate::ir::Block { name: string_of(&label), instructions: Vec::new() };
        proof {
            assert(nb.instructions@.map_values(|i: Instruction| instr_view(i)) =~= Seq::<InstrView>::empty());
        }
        blocks.push(nb);
        proof {
            assert(blocks_view(blocks@) =~= add_label(bv, label@));
        }
    } else {
        let mut b = blocks.pop().unwrap();
        b.name = string_of(&label);
        proof {
            assert(b.instructions@.map_values(|i: Instruction| instr_view(i)) =~= Seq::<InstrView>::empty());
        }
        blocks.push(b);
        proof {
            assert(blocks_view(blocks@) =~= add_label(bv, label@));
        }
    }
}

/// Add `instr` to the current block.
fn add_instr_exec(blocks: &mut Vec<crate::ir::Block>, instr: Instruction)
    requires
        old(blocks)@.len() > 0,
    ensures
        final(blocks)@.len() > 0,
        blocks_view(final(blocks)@) == add_instr(blocks_view(old(blocks)@), instr_view(instr)),
{
    let ghost bv = blocks_view(blocks@);
    let ghost iv = instr_view(instr);
    let mut b = blocks.pop().unwrap();
    let ghost b0 = b;
    b.instructions.push(instr);
    blocks.push(b);
    proof {
        assert(b.instructions@.map_values(|i: Instruction| instr_view(i)) =~= b0.instructions@.map_values(
            |i: Instruction| instr_view(i),
        ).push(iv));
        assert(blocks_view(blocks@) =~= add_instr(bv, iv));
    }
}

fn parse_define(p: &mut Parser) -> (r: Result<PendingFunction, QirToQasmError>)
    requires
        old(p).wf(),
        old(p).pos < old(p).src@.len(),
    ensures
        final(p).wf(),
        final(p).src == old(p).src,
        old(p).pos < final(p).pos,
        r matches Ok(f) ==> spec_fn_header(line_at(old(p).src@, old(p).pos as int), "define"@)
            is Some && (spec_fn_header(line_at(old(p).src@, old(p).pos as int), "define"@)->0).1
            == f.name@,
        r matches Ok(f) ==> f.blocks@.len() > 0,
        r matches Ok(f) ==> define_attrs_ok(
            f,
            spec_post_sig_attrs((spec_fn_header(line_at(old(p).src@, old(p).pos as int), "define"@)->0).0),
        ),
        match spec_define(old(p).src@, old(p).pos as int) {
            Ok((f, q)) => r matches Ok(pf) && pending_view(pf) == f && final(p).pos == q,
            Err(e) => r matches Err(x) && err_view(x) == e,
        },
{
    let header = p.peek_line();
    p.consume_rest_of_line();
    let ghost np = p.pos as int;
    let (rest, name) = match fn_header_chars(&header, "define") {
        None => {
            let t = trim_exec(&header);
            let mut m: Vec<char> = Vec::new();
            crate::text::push_str(&mut m, "could not parse define header: ");
            crate::text::push_chars(&mut m, &t);
            return Err(syntax_err(&m));
        },
        Some(x) => x,
    };
    let (inline_attrs, group_refs, body_starts_on_same_line) = post_sig_attrs_chars(&rest);
    let ghost attrs = inline_attrs@.map_values(|v: Vec<char>| v@);
    let mut has_entry_inline = false;
    let mut k: usize = 0;
    while k < inline_attrs.len()
        invariant
            k <= inline_attrs@.len(),
            attrs == inline_attrs@.map_values(|v: Vec<char>| v@),
            has_entry_inline == attrs.subrange(0, k as int).contains("entry_point"@),
        decreases inline_attrs@.len() - k,
    {
        if chars_is(&inline_attrs[k], "entry_point") {
            has_entry_inline = true;
        }
        proof {
            let e = "entry_point"@;
            let s0 = attrs.subrange(0, k as int);
            let s1 = attrs.subrange(0, k + 1);
            assert(s1 =~= s0.push(attrs[k as int]));
            if s0.contains(e) {
                let j = choose|j: int| 0 <= j < s0.len() && s0[j] == e;
                assert(s1[j] == e);
            }
            if s1.contains(e) {
                let j = choose|j: int| 0 <= j < s1.len() && s1[j] == e;
                if j < k {
                    assert(s0[j] == e);
                }
            }
            if attrs[k as int] == e {
                assert(s1[k as int] == e);
            }
        }
        k = k + 1;
    }
    proof {
        assert(attrs.subrange(0, attrs.len() as int) =~= attrs);
    }
    let inline_profile = profile_in_quoted_exec(&inline_attrs);
    if !body_starts_on_same_line {
        if !skip_to_body(p) {
            return Err(QirToQasmError::syntax("define without body block"));
        }
    }
    let blocks = match parse_blocks(p) {
        Ok(b) => b,
        Err(x) => {
            return Err(x);
        },
    };
    let f = PendingFunction {
        name: string_of(&name),
        is_entry_point: has_entry_inline,
        qir_profile: inline_profile,
        blocks,
        pending_group_refs: group_refs,
    };
    Ok(f)
}

fn copy_vec(v: &Vec<char>) -> (r: Vec<char>)
    ensures
        r@ == v@,
{
    slice(v, 0, v.len())
}

// ---------------------------------------------------------------------------
// Modules
// ---------------------------------------------------------------------------

/// Parse one instruction line (see [`spec_parse_instruction`]).
pub fn parse_instruction_line(line: &str) -> (r: Result<Instruction, QirToQasmError>)
    ensures
        res_view(r, |i: Instruction| instr_view(i)) == spec_parse_instruction(line@),
{
    let c = chars_of(line);
    parse_instruction_chars(&c)
}

/// Parse one call operand (see [`spec_parse_operand`]).
pub fn parse_operand(chunk: &str) -> (r: Result<Operand, QirToQasmError>)
    ensures
        res_view(r, |o: Operand| operand_view(o)) == spec_parse_operand(chunk@),
{
    let c = chars_of(chunk);
    parse_operand_chars(&c)
}

/// Parse a call's operand list (see [`spec_parse_operand_list`]).
pub fn parse_operand_list(src: &str) -> (r: Result<Vec<Operand>, QirToQasmError>)
    ensures
        res_view(r, |v: Vec<Operand>| operands_view(v@)) == spec_parse_operand_list(src@),
{
    let c = chars_of(src);
    parse_operand_list_chars(&c)
}

/// The body of the last attribute group with id `id` (later definitions
/// replace earlier ones).
pub open spec fn group_body(groups: Seq<(u32, Seq<char>)>, id: u32) -> Option<Seq<char>>
    decreases groups.len(),
{
    if groups.len() == 0 {
        None
    } else if groups.last().0 == id {
        Some(groups.last().1)
    } else {
        group_body(groups.drop_last(), id)
    }
}

fn find_group(groups: &Vec<(u32, Vec<char>)>, id: u32) -> (r: Option<&Vec<char>>)
    ensures
        r matches Some(b) ==> group_body(groups@.map_values(|g: (u32, Vec<char>)| (g.0, g.1@)), id) == Some(b@),
        r is None ==> group_body(groups@.map_values(|g: (u32, Vec<char>)| (g.0, g.1@)), id) is None,
{
    let ghost gs = groups@.map_values(|g: (u32, Vec<char>)| (g.0, g.1@));
    let mut i: usize = groups.len();
    proof {
        assert(gs.subrange(0, gs.len() as int) =~= gs);
    }
    while i > 0
        invariant
            i <= groups@.len(),
            gs == groups@.map_values(|g: (u32, Vec<char>)| (g.0, g.1@)),
            group_body(gs.subrange(0, i as int), id) == group_body(gs, id),
        decreases i,
    {
        let ghost pre = gs.subrange(0, i as int);
        proof {
            assert(pre.last() == (groups@[i - 1].0, groups@[i - 1].1@));
            assert(pre.drop_last() =~= gs.subrange(0, i - 1));
        }
        if groups[i - 1].0 == id {
            return Some(&groups[i - 1].1);
        }
        i = i - 1;
    }
    None
}

/// A top-level item before attribute groups are resolved.
enum ParsedItem {
    Decl(crate::ir::Function),
    Define(PendingFunction),
}

/// A definition's own attributes: it is an entry point when its inline
/// attributes hold `"entry_point"`, its profile is the inline
/// `"qir_profiles"` value, and the attribute groups it refers to are kept
/// for later resolution.
spec fn define_attrs_ok(f: PendingFunction, attrs: (Seq<Seq<char>>, Seq<u32>, bool)) -> bool {
    &&& f.is_entry_point == attrs.0.contains("entry_point"@)
    &&& opt_view(f.qir_profile) == profile_in_quoted(attrs.0)
    &&& f.pending_group_refs@ == attrs.1
}

/// A declaration has no body, is never an entry point and carries no
/// profile; a definition has at least one block.
pub open spec fn well_shaped(f: crate::ir::Function) -> bool {
    if f.is_declaration {
        f.blocks@.len() == 0 && !f.is_entry_point && f.qir_profile is None
    } else {
        f.blocks@.len() > 0
    }
}

spec fn item_shaped(it: ParsedItem) -> bool {
    match it {
        ParsedItem::Decl(f) => f.is_declaration && well_shaped(f),
        ParsedItem::Define(pf) => pf.blocks@.len() > 0,
    }
}

spec fn item_view(it: ParsedItem) -> ItemView {
    match it {
        ParsedItem::Decl(f) => ItemView::Decl(fn_view(f)),
        ParsedItem::Define(pf) => ItemView::Define(pending_view(pf)),
    }
}

spec fn items_view(v: Seq<ParsedItem>) -> Seq<ItemView> {
    v.map_values(|it: ParsedItem| item_view(it))
}

/// The attribute groups as plain values.
pub open spec fn groups_view(g: Seq<(u32, Vec<char>)>) -> Seq<(u32, Seq<char>)> {
    g.map_values(|g: (u32, Vec<char>)| (g.0, g.1@))
}

/// Parse a QIR module from `.ll` source text.
pub fn parse_module(text: &str) -> (r: Result<crate::ir::Module, QirToQasmError>)
    ensures
        r matches Ok(m) ==> m.source_text@ == text@,
        r matches Ok(m) ==> forall|i: int| 0 <= i < m.functions@.len() ==> well_shaped(#[trigger] m.functions@[i]),
        match spec_parse_module(text@) {
            Ok(fs) => r matches Ok(m) && m.functions@.map_values(|f: crate::ir::Function| fn_view(f)) == fs,
            Err(e) => r matches Err(x) && err_view(x) == e,
        },
{
    let src = chars_of(text);
    let ghost sv = src@;
    let mut p = Parser { src, pos: 0 };
    let mut items: Vec<ParsedItem> = Vec::new();
    let mut groups: Vec<(u32, Vec<char>)> = Vec::new();
    proof {
        assert(items_view(items@) =~= Seq::<ItemView>::empty());
        assert(groups_view(groups@) =~= Seq::<(u32, Seq<char>)>::empty());
    }
    loop
        invariant
            p.wf(),
            p.src@ == sv,
            sv == text@,
            forall|i: int| 0 <= i < items@.len() ==> item_shaped(#[trigger] items@[i]),
            module_items(sv, p.pos as int, items_view(items@), groups_view(groups@)) == module_items(
                sv,
                0,
                Seq::empty(),
                Seq::empty(),
            ),
        ensures
            p.src@ == sv,
            sv == text@,
            forall|i: int| 0 <= i < items@.len() ==> item_shaped(#[trigger] items@[i]),
            module_items(sv, 0, Seq::empty(), Seq::empty()) == Ok::<
                (Seq<ItemView>, Seq<(u32, Seq<char>)>),
                ErrView,
            >((items_view(items@), groups_view(groups@))),
        decreases p.src@.len() - p.pos,
    {
        let ghost iv = items_view(items@);
        let ghost gv = groups_view(groups@);
        let ghost pos0 = p.pos as int;
        proof {
            lemma_module_items_step(sv, pos0, iv, gv);
        }
        if p.eof() {
            break;
        }
        p.skip_blank_and_comment_lines();
        if p.eof() {
            proof {
                lemma_module_items_step(sv, p.pos as int, iv, gv);
            }
            break;
        }
        proof {
            lemma_line_len(sv, p.pos as int);
        }
        let raw = p.peek_line();
        let trimmed = trim_start_exec(&raw);
        if starts_with_lit(&trimmed, "define") {
            let f = match parse_define(&mut p) {
                Ok(f) => f,
                Err(x) => {
                    return Err(x);
                },
            };
            items.push(ParsedItem::Define(f));
            proof {
                assert(items_view(items@) =~= iv.push(ItemView::Define(pending_view(f))));
            }
        } else if starts_with_lit(&trimmed, "declare") {
            let f = match parse_declare(&mut p) {
                Ok(f) => f,
                Err(x) => {
                    return Err(x);
                },
            };
            items.push(ParsedItem::Decl(f));
            proof {
                assert(items_view(items@) =~= iv.push(ItemView::Decl(fn_view(f))));
            }
        } else if starts_with_lit(&trimmed, "attributes") {
            proof {
                reveal_strlit("attributes");
            }
            let rest = suffix(&trimmed, 10);
            match attribute_group_chars(&rest) {
                Some(g) => {
                    let ghost gg = (g.0, g.1@);
                    groups.push(g);
                    proof {
                        assert(groups_view(groups@) =~= gv.push(gg));
                    }
                },
                None => {},
            }
            p.consume_rest_of_line();
        } else {
            p.consume_rest_of_line();
        }
    }
    let ghost all_items = items_view(items@);
    let ghost gv = groups_view(groups@);
    let ghost target = all_items.map_values(|it: ItemView| item_function(it, gv));
    let mut functions: Vec<crate::ir::Function> = Vec::new();
    proof {
        assert(functions@.map_values(|f: crate::ir::Function| fn_view(f)) + items_view(items@).map_values(
            |it: ItemView| item_function(it, gv),
        ) =~= target);
    }
    while items.len() > 0
        invariant
            forall|i: int| 0 <= i < items@.len() ==> item_shaped(#[trigger] items@[i]),
            forall|i: int| 0 <= i < functions@.len() ==> well_shaped(#[trigger] functions@[i]),
            gv == groups_view(groups@),
            functions@.map_values(|f: crate::ir::Function| fn_view(f)) + items_view(items@).map_values(
                |it: ItemView| item_function(it, gv),
            ) == target,
        decreases items@.len(),
    {
        let ghost fv0 = functions@.map_values(|f: crate::ir::Function| fn_view(f));
        let ghost rest0 = items_view(items@).map_values(|it: ItemView| item_function(it, gv));
        let item = items.remove(0);
        let ghost want = item_function(item_view(item), gv);
        proof {
            assert(rest0[0] == want);
            assert(items_view(items@).map_values(|it: ItemView| item_function(it, gv)) =~= rest0.subrange(
                1,
                rest0.len() as int,
            ));
        }
        match item {
            ParsedItem::Decl(f) => {
                functions.push(f);
                proof {
                    assert(fn_view(f) == want);
                }
            },
            ParsedItem::Define(pf) => {
                let mut entry = pf.is_entry_point;
                let mut profile = pf.qir_profile;
                let ghost refs = pf.pending_group_refs@;
                let mut j: usize = 0;
                while j < pf.pending_group_refs.len()
                    invariant
                        j <= pf.pending_group_refs@.len(),
                        refs == pf.pending_group_refs@,
                        gv == groups_view(groups@),
                        entry == resolved_entry(gv, refs, j as int, pf.is_entry_point),
                        opt_view(profile) == resolved_profile(gv, refs, j as int, opt_view(pf.qir_profile)),
                    decreases pf.pending_group_refs@.len() - j,
                {
                    proof {
                        assert(groups@.map_values(|g: (u32, Vec<char>)| (g.0, g.1@)) =~= gv);
                        if pf.is_entry_point {
                            lemma_resolved_entry_inline(gv, refs, j as int);
                            lemma_resolved_entry_inline(gv, refs, j + 1);
                        }
                    }
                    match find_group(&groups, pf.pending_group_refs[j]) {
                        Some(body) => {
                            if !pf.is_entry_point && crate::text::contains_lit(body, "entry_point") {
                                entry = true;
                            }
                            if profile.is_none() {
                                let (q, _) = scan_attrs_exec(body);
                                profile = profile_in_quoted_exec(&q);
                            }
                        },
                        None => {},
                    }
                    j = j + 1;
                }
                let f = crate::ir::Function {
                    name: pf.name,
                    is_declaration: false,
                    is_entry_point: entry,
                    qir_profile: profile,
                    blocks: pf.blocks,
                };
                functions.push(f);
                proof {
                    assert(fn_view(f) == want);
                }
            },
        }
        proof {
            assert(functions@.map_values(|f: crate::ir::Function| fn_view(f)) =~= fv0.push(want));
            assert(functions@.map_values(|f: crate::ir::Function| fn_view(f)) + items_view(items@).map_values(
                |it: ItemView| item_function(it, gv),
            ) =~= target);
        }
    }
    proof {
        assert(items_view(items@).map_values(|it: ItemView| item_function(it, gv)) =~= Seq::<FunctionView>::empty());
        assert(functions@.map_values(|f: crate::ir::Function| fn_view(f)) =~= target);
    }
    Ok(crate::ir::Module { source_text: crate::text::owned(text), functions })
}

} // verus!
