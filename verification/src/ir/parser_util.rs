//! Low-level text utilities shared by the QIR parser and the signature
//! extractor.
use vstd::prelude::*;

use crate::error::{syntax_err, QirToQasmError};
use crate::text::{
    chars_of,    contains_seq, find_char, find_char_exec, ident_char, is_ident_char, is_alpha, is_ws,
    lemma_find_char_from, lemma_skip_ws, push_debug, push_str, skip_ws, skip_ws_exec, slice,
    str_debug_text, string_of, suffix, trim, trim_exec, trim_start, alpha,
};

verus! {

// ---------------------------------------------------------------------------
// Matching parentheses
// ---------------------------------------------------------------------------

/// Scanning `s` from `i` with `depth` parentheses open: the index of the
/// `)` that brings the depth to zero.
pub open spec fn close_paren_from(s: Seq<char>, i: int, depth: int) -> Option<int>
    decreases s.len() - i,
{
    if i < 0 || i >= s.len() {
        None
    } else if s[i] == '(' {
        close_paren_from(s, i + 1, depth + 1)
    } else if s[i] == ')' {
        if depth - 1 == 0 {
            Some(i)
        } else {
            close_paren_from(s, i + 1, depth - 1)
        }
    } else {
        close_paren_from(s, i + 1, depth)
    }
}

/// The index of the `)` that closes the leading `(` of `s`.
pub open spec fn spec_matching_close_paren(s: Seq<char>) -> Option<int> {
    close_paren_from(s, 0, 0)
}

pub proof fn lemma_close_paren_from(s: Seq<char>, i: int, depth: int)
    requires
        0 <= i,
    ensures
        close_paren_from(s, i, depth) matches Some(j) ==> i <= j < s.len() && s[j] == ')',
    decreases s.len() - i,
{
    if i < s.len() {
        lemma_close_paren_from(s, i + 1, depth + 1);
        lemma_close_paren_from(s, i + 1, depth - 1);
        lemma_close_paren_from(s, i + 1, depth);
    }
}

/// Find the index of the `)` that closes the leading `(` in `s`.
/// Returns `None` on unbalanced input.
pub fn close_paren_index(s: &[char]) -> (r: Option<usize>)
    ensures
        r matches Some(i) ==> spec_matching_close_paren(s@) == Some(i as int) && i < s@.len()
            && s@[i as int] == ')',
        r is None ==> spec_matching_close_paren(s@) is None,
{
    proof {
        lemma_close_paren_from(s@, 0, 0);
    }
    let mut depth: i128 = 0;
    let mut i: usize = 0;
    while i < s.len()
        invariant
            i <= s@.len(),
            -(i as int) <= depth <= i as int,
            close_paren_from(s@, i as int, depth as int) == spec_matching_close_paren(s@),
        decreases s@.len() - i,
    {
        let c = s[i];
        if c == '(' {
            depth = depth + 1;
        } else if c == ')' {
            depth = depth - 1;
            if depth == 0 {
                return Some(i);
            }
        }
        i = i + 1;
    }
    None
}

// ---------------------------------------------------------------------------
// Top-level comma splitting
// ---------------------------------------------------------------------------

/// Whether `c` opens a bracket for comma splitting.
pub open spec fn is_open_bracket(c: char) -> bool {
    c == '{' || c == '[' || c == '<' || c == '('
}

/// Whether `c` closes a bracket for comma splitting.
pub open spec fn is_close_bracket(c: char) -> bool {
    c == '}' || c == ']' || c == '>' || c == ')'
}

/// Scanning `s` from `i` at bracket `depth`, with the current chunk
/// starting at `last`: the untrimmed chunks between top-level commas, or
/// `None` when a closing bracket appears without its opener.
pub open spec fn split_from(s: Seq<char>, i: int, depth: int, last: int) -> Option<
    Seq<Seq<char>>,
>
    decreases s.len() - i,
{
    if i < 0 || i >= s.len() {
        if 0 <= last <= s.len() {
            Some(seq![s.subrange(last, s.len() as int)])
        } else {
            None
        }
    } else if is_open_bracket(s[i]) {
        split_from(s, i + 1, depth + 1, last)
    } else if is_close_bracket(s[i]) {
        if depth - 1 < 0 {
            None
        } else {
            split_from(s, i + 1, depth - 1, last)
        }
    } else if s[i] == ',' && depth == 0 {
        match split_from(s, i + 1, depth, i + 1) {
            Some(rest) => Some(seq![s.subrange(last, i)] + rest),
            None => None,
        }
    } else {
        split_from(s, i + 1, depth, last)
    }
}

/// The whitespace-trimmed top-level chunks of `s`, or `None` on an
/// unbalanced closing bracket.
pub open spec fn spec_split_top_level_commas(s: Seq<char>) -> Option<Seq<Seq<char>>> {
    match split_from(s, 0, 0, 0) {
        Some(chunks) => Some(chunks.map_values(|c: Seq<char>| trim(c))),
        None => None,
    }
}

/// The message of the unbalanced-bracket error for `s`.
pub open spec fn unbalanced_bracket_msg(s: Seq<char>) -> Seq<char> {
    "unbalanced closing bracket in "@ + str_debug_text(s)
}

/// Split `src` at top-level commas, respecting nested `()`, `[]`, `<>`,
/// and `{}` brackets. Each returned chunk is whitespace-trimmed.
///
/// Returns an error if a closing bracket appears without a matching
/// opener.
pub fn split_commas_chars(src: &[char]) -> (r: Result<Vec<Vec<char>>, QirToQasmError>)
    ensures
        r matches Ok(v) ==> spec_split_top_level_commas(src@) matches Some(chunks) && v@.len()
            == chunks.len() && forall|k: int| 0 <= k < v@.len() ==> #[trigger] v@[k]@ == chunks[k],
        r matches Err(e) ==> spec_split_top_level_commas(src@) is None && e is Syntax
            && e.payload() == unbalanced_bracket_msg(src@),
{
    let mut out: Vec<Vec<char>> = Vec::new();
    let mut depth: i128 = 0;
    let mut last: usize = 0;
    let mut i: usize = 0;
    let ghost mut done: Seq<Seq<char>> = Seq::empty();
    while i < src.len()
        invariant
            i <= src@.len(),
            last <= i,
            0 <= depth <= i as int,
            out@.len() == done.len(),
            forall|k: int| 0 <= k < done.len() ==> #[trigger] out@[k]@ == trim(done[k]),
            split_from(src@, 0, 0, 0) == (match split_from(src@, i as int, depth as int, last as int) {
                Some(rest) => Some(done + rest),
                None => None::<Seq<Seq<char>>>,
            }),
        decreases src@.len() - i,
    {
        let c = src[i];
        if c == '{' || c == '[' || c == '<' || c == '(' {
            depth = depth + 1;
        } else if c == '}' || c == ']' || c == '>' || c == ')' {
            depth = depth - 1;
            if depth < 0 {
                let mut m: Vec<char> = Vec::new();
                push_str(&mut m, "unbalanced closing bracket in ");
                push_debug(&mut m, src);
                return Err(syntax_err(&m));
            }
        } else if c == ',' && depth == 0 {
            let piece = slice(src, last, i);
            let t = trim_exec(&piece);
            proof {
                let rest = split_from(src@, i + 1, depth as int, i + 1);
                if rest is Some {
                    assert(done + (seq![src@.subrange(last as int, i as int)] + rest->0) =~= (
                    done.push(src@.subrange(last as int, i as int))) + rest->0);
                }
                done = done.push(src@.subrange(last as int, i as int));
            }
            out.push(t);
            last = i + 1;
        }
        i = i + 1;
    }
    proof {
        assert(split_from(src@, i as int, depth as int, last as int) == Some(
            seq![src@.subrange(last as int, src@.len() as int)],
        ));
        assert(done + seq![src@.subrange(last as int, src@.len() as int)] =~= done.push(
            src@.subrange(last as int, src@.len() as int),
        ));
        done = done.push(src@.subrange(last as int, src@.len() as int));
    }
    let piece = slice(src, last, src.len());
    let t = trim_exec(&piece);
    out.push(t);
    proof {
        let chunks = done;
        assert(split_from(src@, 0, 0, 0) == Some(chunks));
        assert forall|k: int| 0 <= k < out@.len() implies #[trigger] out@[k]@ == chunks.map_values(
            |c: Seq<char>| trim(c),
        )[k] by {}
    }
    Ok(out)
}

// ---------------------------------------------------------------------------
// Identifiers and global names
// ---------------------------------------------------------------------------

/// The first index at or after `i` whose character is not an identifier
/// character (or `s.len()`).
pub open spec fn ident_end(s: Seq<char>, i: int) -> int
    decreases s.len() - i,
{
    if i < 0 {
        0
    } else if i >= s.len() {
        s.len() as int
    } else if is_ident_char(s[i]) {
        ident_end(s, i + 1)
    } else {
        i
    }
}

pub proof fn lemma_ident_end(s: Seq<char>, i: int)
    requires
        0 <= i <= s.len(),
    ensures
        i <= ident_end(s, i) <= s.len(),
        forall|j: int| i <= j < ident_end(s, i) ==> is_ident_char(s[j]),
        ident_end(s, i) < s.len() ==> !is_ident_char(s[ident_end(s, i)]),
    decreases s.len() - i,
{
    if i < s.len() && is_ident_char(s[i]) {
        lemma_ident_end(s, i + 1);
    }
}

pub fn ident_end_exec(s: &[char], i: usize) -> (r: usize)
    requires
        i <= s@.len(),
    ensures
        r as int == ident_end(s@, i as int),
        i <= r <= s@.len(),
{
    proof {
        lemma_ident_end(s@, i as int);
    }
    let mut j: usize = i;
    while j < s.len() && ident_char(s[j])
        invariant
            i <= j <= s@.len(),
            ident_end(s@, j as int) == ident_end(s@, i as int),
        decreases s@.len() - j,
    {
        j = j + 1;
    }
    j
}

/// A leading `@<name>` global reference (after leading whitespace), in bare
/// or `"quoted"` form: the name and the rest of the input.
pub open spec fn spec_parse_global_name(s: Seq<char>) -> Option<(Seq<char>, Seq<char>)> {
    let t = trim_start(s);
    if t.len() == 0 || t[0] != '@' {
        None
    } else {
        let u = t.subrange(1, t.len() as int);
        if u.len() > 0 && u[0] == '"' {
            let q = u.subrange(1, u.len() as int);
            match find_char(q, '"') {
                Some(end) => Some((q.subrange(0, end), q.subrange(end + 1, q.len() as int))),
                None => None,
            }
        } else {
            let end = ident_end(u, 0);
            if end == 0 {
                None
            } else {
                Some((u.subrange(0, end), u.subrange(end, u.len() as int)))
            }
        }
    }
}

/// Parse a leading `@<name>` global reference, with both bare and
/// `"quoted"` forms. Returns `(name, rest_of_input)` on success.
pub fn global_name_chars(s: &[char]) -> (r: Option<(String, Vec<char>)>)
    ensures
        r matches Some((n, rest)) ==> spec_parse_global_name(s@) == Some((n@, rest@)),
        r is None ==> spec_parse_global_name(s@) is None,
{
    let a = skip_ws_exec(s, 0);
    proof {
        lemma_skip_ws(s@, 0);
    }
    let t = suffix(s, a);
    if t.len() == 0 || t[0] != '@' {
        return None;
    }
    let u = suffix(&t, 1);
    if u.len() > 0 && u[0] == '"' {
        let q = suffix(&u, 1);
        match find_char_exec(&q, '"', 0) {
            Some(end) => {
                proof {
                    lemma_find_char_from(q@, '"', 0);
                }
                let name = slice(&q, 0, end);
                let rest = suffix(&q, end + 1);
                Some((string_of(&name), rest))
            },
            None => None,
        }
    } else {
        let end = ident_end_exec(&u, 0);
        if end == 0 {
            None
        } else {
            let name = slice(&u, 0, end);
            let rest = suffix(&u, end);
            Some((string_of(&name), rest))
        }
    }
}

/// LLVM identifier rule: `[A-Za-z._$][A-Za-z0-9._$]*`.
pub open spec fn spec_is_valid_llvm_ident(s: Seq<char>) -> bool {
    &&& s.len() > 0
    &&& (is_alpha(s[0]) || s[0] == '_' || s[0] == '.' || s[0] == '$')
    &&& forall|i: int| 0 <= i < s.len() ==> is_ident_char(#[trigger] s[i])
}

/// LLVM identifier rule: `[A-Za-z._$][A-Za-z0-9._$]*`.
pub fn valid_ident_chars(s: &[char]) -> (r: bool)
    ensures
        r == spec_is_valid_llvm_ident(s@),
{
    if s.len() == 0 {
        return false;
    }
    let first = s[0];
    if !(alpha(first) || first == '_' || first == '.' || first == '$') {
        return false;
    }
    let mut i: usize = 0;
    while i < s.len()
        invariant
            i <= s@.len(),
            forall|j: int| 0 <= j < i ==> is_ident_char(#[trigger] s@[j]),
        decreases s@.len() - i,
    {
        if !ident_char(s[i]) {
            return false;
        }
        i = i + 1;
    }
    true
}

// ---------------------------------------------------------------------------
// The same operations on `&str`
// ---------------------------------------------------------------------------

/// Find the index of the `)` that closes the leading `(` in `s`.
/// Returns `None` on unbalanced input.
pub fn matching_close_paren(s: &str) -> (r: Option<usize>)
    ensures
        r matches Some(i) ==> spec_matching_close_paren(s@) == Some(i as int),
        r is None ==> spec_matching_close_paren(s@) is None,
{
    let c = chars_of(s);
    close_paren_index(&c)
}

/// Split `src` on commas that are not nested inside brackets; each chunk
/// is trimmed.
pub fn split_top_level_commas(src: &str) -> (r: Result<Vec<String>, QirToQasmError>)
    ensures
        r matches Ok(v) ==> spec_split_top_level_commas(src@) matches Some(chunks)
            && v@.map_values(|s: String| s@) == chunks,
        r matches Err(e) ==> spec_split_top_level_commas(src@) is None && e is Syntax
            && e.payload() == unbalanced_bracket_msg(src@),
{
    let c = chars_of(src);
    let parts = split_commas_chars(&c)?;
    let mut out: Vec<String> = Vec::new();
    let mut i: usize = 0;
    while i < parts.len()
        invariant
            i <= parts@.len(),
            out@.len() == i,
            forall|k: int| 0 <= k < i ==> #[trigger] out@[k]@ == parts@[k]@,
        decreases parts@.len() - i,
    {
        out.push(string_of(&parts[i]));
        i = i + 1;
    }
    proof {
        let chunks = spec_split_top_level_commas(src@)->0;
        assert(out@.map_values(|s: String| s@) =~= chunks);
    }
    Ok(out)
}

/// Parse a leading `@<name>` global reference, bare or `"quoted"`:
/// `(name, rest_of_input)`.
pub fn parse_global_name(s: &str) -> (r: Option<(String, String)>)
    ensures
        r matches Some((n, rest)) ==> spec_parse_global_name(s@) == Some((n@, rest@)),
        r is None ==> spec_parse_global_name(s@) is None,
{
    let c = chars_of(s);
    match global_name_chars(&c) {
        Some((n, rest)) => Some((n, string_of(&rest))),
        None => None,
    }
}

/// LLVM identifier rule: `[A-Za-z._$][A-Za-z0-9._$]*`.
pub fn is_valid_llvm_ident(s: &str) -> (r: bool)
    ensures
        r == spec_is_valid_llvm_ident(s@),
{
    let c = chars_of(s);
    valid_ident_chars(&c)
}

} // verus!
