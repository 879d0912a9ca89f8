//! Structural CFG reduction: collapse a list of [`BlockLowering`]s into a
//! single sequence of OpenQASM statements.
//!
//! The graph is the blocks themselves: a block's successors are its
//! distinct targets, in order, and its predecessors are the blocks that
//! name it as a target. Reduction rules are tried in a fixed order
//! (short-circuit phi, sequence, self-loop, if/else, if without else,
//! while) and, within a rule, blocks are visited in list order; the first
//! match is rewritten and the search starts again, until no rule applies.
use vstd::prelude::*;

use crate::error::{unsupported_cfg_err, QirToQasmError};
use crate::oq3::ast::{bin, copy_expr, copy_stmts, int_lit, same_stmts, BinaryOp, Expression, Statement};
use crate::builders::list_debug_text;
use crate::text::{push_debug_string, push_str, str_debug_text};

verus! {

/// OpenQASM statements plus branch information for one QIR basic block.
#[derive(Debug, Clone)]
pub struct BlockLowering {
    /// Canonical block name.
    pub name: String,
    /// Statements the block emits (so far).
    pub statements: Vec<Statement>,
    /// Branching condition when the block ends in `br i1`; `None` for
    /// unconditional branches and returns.
    pub condition: Option<Expression>,
    /// Successor block names: none for `ret`, one for `br`, two for
    /// `br i1` (the `true` target first).
    pub targets: Vec<String>,
}

/// Whether block `b` names itself as a target.
pub open spec fn is_self_loop(b: BlockLowering) -> bool {
    exists|k: int| 0 <= k < b.targets@.len() && b.targets@[k]@ == b.name@
}

/// The number of blocks that name themselves as a target.
pub open spec fn self_loops(bs: Seq<BlockLowering>) -> nat
    decreases bs.len(),
{
    if bs.len() == 0 {
        0
    } else {
        self_loops(bs.drop_last()) + if is_self_loop(bs.last()) { 1nat } else { 0nat }
    }
}

/// The reduction measure: fewer blocks, or as many blocks and fewer
/// self-loops.
pub open spec fn smaller(a: Seq<BlockLowering>, b: Seq<BlockLowering>) -> bool {
    a.len() < b.len() || (a.len() == b.len() && self_loops(a) < self_loops(b))
}

proof fn lemma_self_loops_update(bs: Seq<BlockLowering>, i: int, x: BlockLowering)
    requires
        0 <= i < bs.len(),
    ensures
        self_loops(bs.update(i, x)) + (if is_self_loop(bs[i]) { 1int } else { 0int }) == self_loops(bs) + (if is_self_loop(x) { 1int } else { 0int }),
    decreases bs.len(),
{
    let u = bs.update(i, x);
    if i == bs.len() - 1 {
        assert(u.drop_last() =~= bs.drop_last());
    } else {
        assert(u.drop_last() =~= bs.drop_last().update(i, x));
        lemma_self_loops_update(bs.drop_last(), i, x);
    }
}

// ---------------------------------------------------------------------------
// Graph queries
// ---------------------------------------------------------------------------

/// The position of the first block at or after `from` named `n`.
pub open spec fn first_block_from(bs: Seq<BlockLowering>, n: Seq<char>, from: int) -> Option<int>
    decreases bs.len() - from,
{
    if from < 0 || from >= bs.len() {
        None
    } else if bs[from].name@ == n {
        Some(from)
    } else {
        first_block_from(bs, n, from + 1)
    }
}

/// The position of the first block named `n`.
pub open spec fn first_block(bs: Seq<BlockLowering>, n: Seq<char>) -> Option<int> {
    first_block_from(bs, n, 0)
}

fn find_block(bs: &Vec<BlockLowering>, name: &String) -> (r: Option<usize>)
    ensures
        r matches Some(i) ==> i < bs@.len() && bs@[i as int].name@ == name@,
        r is None ==> forall|i: int| 0 <= i < bs@.len() ==> bs@[i].name@ != name@,
        match r {
            Some(i) => first_block(bs@, name@) == Some(i as int),
            None => first_block(bs@, name@) is None,
        },
{
    let mut i: usize = 0;
    while i < bs.len()
        invariant
            i <= bs@.len(),
            forall|k: int| 0 <= k < i ==> bs@[k].name@ != name@,
            first_block(bs@, name@) == first_block_from(bs@, name@, i as int),
        decreases bs@.len() - i,
    {
        if bs[i].name == *name {
            return Some(i);
        }
        i = i + 1;
    }
    None
}

fn contains_name(v: &Vec<String>, n: &String) -> (r: bool)
    ensures
        r == exists|k: int| 0 <= k < v@.len() && v@[k]@ == n@,
{
    let mut i: usize = 0;
    while i < v.len()
        invariant
            i <= v@.len(),
            forall|k: int| 0 <= k < i ==> v@[k]@ != n@,
        decreases v@.len() - i,
    {
        if v[i] == *n {
            return true;
        }
        i = i + 1;
    }
    false
}

/// Whether `s` is one of the block's targets.
pub open spec fn is_target(b: BlockLowering, s: Seq<char>) -> bool {
    exists|j: int| 0 <= j < b.targets@.len() && b.targets@[j]@ == s
}

/// The names as character sequences.
pub open spec fn names(v: Seq<String>) -> Seq<Seq<char>> {
    v.map_values(|t: String| t@)
}

/// The distinct elements of `s`, in first-seen order.
pub open spec fn dedup(s: Seq<Seq<char>>) -> Seq<Seq<char>>
    decreases s.len(),
{
    if s.len() == 0 {
        Seq::empty()
    } else {
        let d = dedup(s.drop_last());
        if d.contains(s.last()) {
            d
        } else {
            d.push(s.last())
        }
    }
}

/// A block's successors: its distinct targets, in first-seen order.
pub open spec fn succ(b: BlockLowering) -> Seq<Seq<char>> {
    dedup(names(b.targets@))
}

proof fn lemma_dedup(s: Seq<Seq<char>>)
    ensures
        dedup(s).len() <= s.len(),
        forall|k: int| 0 <= k < dedup(s).len() ==> s.contains(#[trigger] dedup(s)[k]),
    decreases s.len(),
{
    if s.len() > 0 {
        lemma_dedup(s.drop_last());
        let d = dedup(s.drop_last());
        assert forall|k: int| 0 <= k < dedup(s).len() implies s.contains(#[trigger] dedup(s)[k]) by {
            if k < d.len() {
                assert(s.drop_last().contains(d[k]));
                let j = choose|j: int| 0 <= j < s.drop_last().len() && s.drop_last()[j] == d[k];
                assert(s[j] == d[k]);
            } else {
                assert(s[s.len() - 1] == dedup(s)[k]);
            }
        }
    }
}

/// The distinct targets of a block, in first-seen order.
fn successors(b: &BlockLowering) -> (r: Vec<String>)
    ensures
        names(r@) == succ(*b),
        r@.len() <= b.targets@.len(),
        forall|k: int| 0 <= k < r@.len() ==> is_target(*b, #[trigger] r@[k]@),
{
    let ghost t = names(b.targets@);
    let mut out: Vec<String> = Vec::new();
    let mut i: usize = 0;
    while i < b.targets.len()
        invariant
            i <= b.targets@.len(),
            t == names(b.targets@),
            names(out@) == dedup(t.subrange(0, i as int)),
        decreases b.targets@.len() - i,
    {
        let ghost pre = t.subrange(0, i as int);
        proof {
            assert(t.subrange(0, i + 1).drop_last() =~= pre);
            assert(t.subrange(0, i + 1).last() == b.targets@[i as int]@);
        }
        if !contains_name(&out, &b.targets[i]) {
            let ghost old_out = out@;
            out.push(b.targets[i].clone());
            proof {
                assert(names(out@) =~= names(old_out).push(b.targets@[i as int]@));
                if names(old_out).contains(b.targets@[i as int]@) {
                    let k = choose|k: int| 0 <= k < names(old_out).len() && names(old_out)[k] == b.targets@[i as int]@;
                    assert(old_out[k]@ == b.targets@[i as int]@);
                }
            }
        } else {
            proof {
                let k = choose|k: int| 0 <= k < out@.len() && out@[k]@ == b.targets@[i as int]@;
                assert(names(out@)[k] == b.targets@[i as int]@);
            }
        }
        i = i + 1;
    }
    proof {
        assert(t.subrange(0, t.len() as int) =~= t);
        lemma_dedup(t);
        assert forall|k: int| 0 <= k < out@.len() implies is_target(*b, #[trigger] out@[k]@) by {
            assert(names(out@)[k] == out@[k]@);
            assert(t.contains(dedup(t)[k]));
            let j = choose|j: int| 0 <= j < t.len() && t[j] == dedup(t)[k];
            assert(b.targets@[j]@ == out@[k]@);
        }
    }
    out
}

/// The positions of the blocks among the first `upto` that name `n` as a
/// target, in order.
pub open spec fn preds_upto(bs: Seq<BlockLowering>, n: Seq<char>, upto: int) -> Seq<int>
    decreases upto,
{
    if upto <= 0 {
        Seq::empty()
    } else {
        let p = preds_upto(bs, n, upto - 1);
        if is_target(bs[upto - 1], n) {
            p.push(upto - 1)
        } else {
            p
        }
    }
}

/// The positions of the blocks that name `n` as a target, in order.
pub open spec fn preds(bs: Seq<BlockLowering>, n: Seq<char>) -> Seq<int> {
    preds_upto(bs, n, bs.len() as int)
}

/// The indices of the blocks that name `n` as a target.
fn predecessors(bs: &Vec<BlockLowering>, n: &String) -> (r: Vec<usize>)
    ensures
        r@.map_values(|k: usize| k as int) == preds(bs@, n@),
        forall|k: int| 0 <= k < r@.len() ==> #[trigger] r@[k] < bs@.len(),
{
    let mut out: Vec<usize> = Vec::new();
    let mut i: usize = 0;
    while i < bs.len()
        invariant
            i <= bs@.len(),
            forall|k: int| 0 <= k < out@.len() ==> #[trigger] out@[k] < i,
            out@.map_values(|k: usize| k as int) == preds_upto(bs@, n@, i as int),
        decreases bs@.len() - i,
    {
        if contains_name(&bs[i].targets, n) {
            let ghost o = out@;
            out.push(i);
            proof {
                assert(out@.map_values(|k: usize| k as int) =~= o.map_values(|k: usize| k as int).push(i as int));
            }
        }
        i = i + 1;
    }
    out
}

/// The number of blocks that name `n` as a target.
fn in_degree(bs: &Vec<BlockLowering>, n: &String) -> (r: usize)
    ensures
        r == preds(bs@, n@).len(),
{
    let p = predecessors(bs, n);
    proof {
        assert(p@.map_values(|k: usize| k as int).len() == p@.len());
    }
    p.len()
}

fn one_target(t: &String) -> (r: Vec<String>)
    ensures
        r@.len() == 1,
        r@[0]@ == t@,
{
    let mut v: Vec<String> = Vec::new();
    v.push(t.clone());
    v
}

fn append_stmts(dst: &mut Vec<Statement>, src: Vec<Statement>)
    ensures
        final(dst)@ == old(dst)@ + src@,
{
    let mut src = src;
    dst.append(&mut src);
}

/// Remove two distinct indices from a vector of blocks.
fn remove_two(bs: &mut Vec<BlockLowering>, i: usize, j: usize) -> (r: (BlockLowering, BlockLowering))
    requires
        i < old(bs)@.len(),
        j < old(bs)@.len(),
        i != j,
    ensures
        final(bs)@.len() == old(bs)@.len() - 2,
        final(bs)@ == remove_pair(old(bs)@, i as int, j as int),
        r.0 == old(bs)@[i as int],
        r.1 == old(bs)@[j as int],
{
    if i > j {
        let x = bs.remove(i);
        let y = bs.remove(j);
        (x, y)
    } else {
        let y = bs.remove(j);
        let x = bs.remove(i);
        (x, y)
    }
}

/// `bs` without the blocks at two distinct positions.
pub open spec fn remove_pair(bs: Seq<BlockLowering>, i: int, j: int) -> Seq<BlockLowering> {
    if i > j {
        bs.remove(i).remove(j)
    } else {
        bs.remove(j).remove(i)
    }
}

/// Whether `e` is a compound `&&` / `||` expression.
pub open spec fn is_compound_boolean(e: Expression) -> bool {
    e matches Expression::Binary { op, .. } && (op == BinaryOp::And || op == BinaryOp::Or)
}

fn compound_boolean(e: &Expression) -> (r: bool)
    ensures
        r == is_compound_boolean(*e),
{
    match e {
        Expression::Binary { op, .. } => match op {
            BinaryOp::And => true,
            BinaryOp::Or => true,
            _ => false,
        },
        _ => false,
    }
}

// ---------------------------------------------------------------------------
// Reduction rules
// ---------------------------------------------------------------------------

/// The block that block `ai` absorbs by the sequence rule: `ai`'s only
/// successor, when that successor is another block and has no other
/// predecessor.
pub open spec fn seq_target(bs: Seq<BlockLowering>, ai: int) -> Option<int> {
    let s = succ(bs[ai]);
    if s.len() == 1 && preds(bs, s[0]).len() == 1 {
        match first_block(bs, s[0]) {
            Some(bi) => if bi != ai {
                Some(bi)
            } else {
                None
            },
            None => None,
        }
    } else {
        None
    }
}

/// `m` is `a` followed by `b`: `a`'s name, both statement lists, and `b`'s
/// exit.
pub open spec fn seq_merged(a: BlockLowering, b: BlockLowering, m: BlockLowering) -> bool {
    &&& m.name == a.name
    &&& m.statements@ == a.statements@ + b.statements@
    &&& m.condition == b.condition
    &&& m.targets == b.targets
}

/// `bs1` is `bs0` with block `bi` removed and appended to block `ai`.
pub open spec fn seq_step(bs0: Seq<BlockLowering>, bs1: Seq<BlockLowering>, ai: int, bi: int) -> bool {
    let ai2 = if bi < ai { ai - 1 } else { ai };
    &&& bs1.len() == bs0.len() - 1
    &&& bs1 == bs0.remove(bi).update(ai2, bs1[ai2])
    &&& seq_merged(bs0[ai], bs0[bi], bs1[ai2])
}

/// Remove block `bi` and append it to block `ai`.
fn absorb(bs: &mut Vec<BlockLowering>, ai: usize, bi: usize)
    requires
        ai < old(bs)@.len(),
        bi < old(bs)@.len(),
        ai != bi,
    ensures
        seq_step(old(bs)@, final(bs)@, ai as int, bi as int),
        smaller(final(bs)@, old(bs)@),
{
    let ghost bs0 = bs@;
    let b_block = bs.remove(bi);
    let ai2 = if bi < ai { ai - 1 } else { ai };
    let mut a_block = bs.remove(ai2);
    proof {
        assert(a_block == bs0[ai as int]);
    }
    append_stmts(&mut a_block.statements, b_block.statements);
    a_block.condition = b_block.condition;
    a_block.targets = b_block.targets;
    bs.insert(ai2, a_block);
    proof {
        assert(bs@ =~= bs0.remove(bi as int).update(ai2 as int, a_block));
    }
}

/// `a -> b` where `a` has one successor and `b` one predecessor: append
/// `b` to `a`.
#[verifier::rlimit(50)]
fn reduce_sequential(bs: &mut Vec<BlockLowering>) -> (r: bool)
    ensures
        r ==> smaller(final(bs)@, old(bs)@),
        r ==> exists|i: int| 0 <= i < old(bs)@.len() && old(bs)@[i].targets@.len() > 0,
        !r ==> final(bs)@ == old(bs)@,
        r ==> exists|ai: int|
            0 <= ai < old(bs)@.len() && (#[trigger] seq_target(old(bs)@, ai) matches Some(bi) && seq_step(
                old(bs)@,
                final(bs)@,
                ai,
                bi,
            )) && (forall|k: int| 0 <= k < ai ==> #[trigger] seq_target(old(bs)@, k) is None),
        !r ==> forall|ai: int| 0 <= ai < old(bs)@.len() ==> #[trigger] seq_target(old(bs)@, ai) is None,
{
    let mut ai: usize = 0;
    while ai < bs.len()
        invariant
            ai <= bs@.len(),
            bs@ == old(bs)@,
            forall|k: int| 0 <= k < ai ==> #[trigger] seq_target(old(bs)@, k) is None,
        decreases bs@.len() - ai,
    {
        let succs = successors(&bs[ai]);
        if succs.len() == 1 {
            let b = &succs[0];
            proof {
                assert(succ(bs@[ai as int])[0] == names(succs@)[0]);
            }
            if in_degree(bs, b) == 1 {
                match find_block(bs, b) {
                    Some(bi) => {
                        if bi != ai {
                            proof {
                                assert(seq_target(old(bs)@, ai as int) == Some(bi as int));
                                lemma_dedup(names(old(bs)@[ai as int].targets@));
                            }
                            absorb(bs, ai, bi);
                            return true;
                        }
                    },
                    None => {},
                }
            }
        }
        ai = ai + 1;
    }
    false
}

/// The blocks `(b, c)` of a short-circuit merge headed by block `ai`, with
/// its successors tried in `turn` order: `ai` has two successors `b` and
/// `c`, all three are distinct blocks, `b` is empty, entered only from
/// `ai` and continues only to `c`, `c` is entered from exactly `ai` and
/// `b`, and `c` branches on a compound `&&`/`||` condition.
pub open spec fn short_circuit_arms(bs: Seq<BlockLowering>, ai: int, turn: int) -> Option<(int, int)> {
    let s = succ(bs[ai]);
    if s.len() == 2 {
        let (b, c) = ordered_pair(s, turn);
        match (first_block(bs, b), first_block(bs, c)) {
            (Some(bi), Some(ci)) => if bi != ai && ci != ai && bi != ci && preds(bs, b).len() == 1 && succ(bs[bi])
                == seq![c] && (preds(bs, c) == seq![ai, bi] || preds(bs, c) == seq![bi, ai]) && (bs[ci].condition matches Some(
                e,
            ) && is_compound_boolean(e)) && bs[bi].statements@.len() == 0 {
                Some((bi, ci))
            } else {
                None
            },
            _ => None,
        }
    } else {
        None
    }
}

/// `m` is `a` followed by `b` and `c`, taking `c`'s exit.
pub open spec fn short_circuit_merged(a: BlockLowering, b: BlockLowering, c: BlockLowering, m: BlockLowering) -> bool {
    &&& m.name == a.name
    &&& m.statements@ == a.statements@ + b.statements@ + c.statements@
    &&& m.condition == c.condition
    &&& m.targets == c.targets
}

/// The short-circuit rewrite: `b` and `c` removed and appended to the
/// header (the first block named like block `ai` after the removal).
pub open spec fn short_circuit_step(bs0: Seq<BlockLowering>, bs1: Seq<BlockLowering>, ai: int, bi: int, ci: int) -> bool {
    let rest = remove_pair(bs0, bi, ci);
    match first_block(rest, bs0[ai].name@) {
        Some(a2) => bs1 == rest.update(a2, bs1[a2]) && short_circuit_merged(rest[a2], bs0[bi], bs0[ci], bs1[a2]),
        None => bs1 == rest,
    }
}

/// `a -> {b, c}`, `b -> c` with `b` empty and `c` entered only from `a`
/// and `b` and ending in a compound `&&`/`||` branch: fold `b` and `c`
/// into `a`.
#[verifier::rlimit(80)]
fn reduce_short_circuit_phi(bs: &mut Vec<BlockLowering>) -> (r: bool)
    ensures
        r ==> smaller(final(bs)@, old(bs)@),
        r ==> exists|i: int| 0 <= i < old(bs)@.len() && old(bs)@[i].targets@.len() > 0,
        !r ==> final(bs)@ == old(bs)@,
        r ==> exists|ai: int, turn: int|
            0 <= ai < old(bs)@.len() && 0 <= turn < 2 && (#[trigger] short_circuit_arms(old(bs)@, ai, turn) matches Some(
                (bi, ci),
            ) && short_circuit_step(old(bs)@, final(bs)@, ai, bi, ci)) && (forall|k: int, t: int|
                0 <= k && 0 <= t < 2 && (k < ai || (k == ai && t < turn)) ==> #[trigger] short_circuit_arms(
                    old(bs)@,
                    k,
                    t,
                ) is None),
        !r ==> forall|ai: int, turn: int|
            0 <= ai < old(bs)@.len() && 0 <= turn < 2 ==> #[trigger] short_circuit_arms(old(bs)@, ai, turn) is None,
{
    let mut ai: usize = 0;
    while ai < bs.len()
        invariant
            ai <= bs@.len(),
            bs@ == old(bs)@,
            forall|k: int, turn: int|
                0 <= k < ai && 0 <= turn < 2 ==> #[trigger] short_circuit_arms(old(bs)@, k, turn) is None,
        decreases bs@.len() - ai,
    {
        let mut turn: usize = 0;
        while turn < 2
            invariant
                turn <= 2,
                ai < bs@.len(),
                bs@ == old(bs)@,
                forall|t: int| 0 <= t < turn ==> #[trigger] short_circuit_arms(old(bs)@, ai as int, t) is None,
                forall|k: int, t: int| 0 <= k < ai && 0 <= t < 2 ==> #[trigger] short_circuit_arms(old(bs)@, k, t) is None,
            decreases 2 - turn,
        {
            if short_circuit_at(bs, ai, turn) {
                return true;
            }
            turn = turn + 1;
        }
        ai = ai + 1;
    }
    false
}

/// Try the short-circuit rewrite headed by block `ai`, successors in
/// `turn` order.
fn short_circuit_at(bs: &mut Vec<BlockLowering>, ai: usize, turn: usize) -> (r: bool)
    requires
        ai < old(bs)@.len(),
        turn < 2,
    ensures
        r ==> smaller(final(bs)@, old(bs)@) && old(bs)@[ai as int].targets@.len() > 0,
        r ==> (short_circuit_arms(old(bs)@, ai as int, turn as int) matches Some((bi, ci)) && short_circuit_step(
            old(bs)@,
            final(bs)@,
            ai as int,
            bi,
            ci,
        )),
        !r ==> final(bs)@ == old(bs)@ && short_circuit_arms(old(bs)@, ai as int, turn as int) is None,
{
    match short_circuit_match(bs, ai, turn) {
        Some((bi, ci)) => {
            proof {
                lemma_dedup(names(old(bs)@[ai as int].targets@));
            }
            fold_short_circuit(bs, ai, bi, ci);
            true
        },
        None => false,
    }
}

/// The arms of the short-circuit merge headed by block `ai`, if any.
#[verifier::rlimit(80)]
fn short_circuit_match(bs: &Vec<BlockLowering>, ai: usize, turn: usize) -> (r: Option<(usize, usize)>)
    requires
        ai < bs@.len(),
        turn < 2,
    ensures
        match r {
            Some((bi, ci)) => short_circuit_arms(bs@, ai as int, turn as int) == Some((bi as int, ci as int)) && bi
                < bs@.len() && ci < bs@.len() && bi != ci && bi != ai && ci != ai,
            None => short_circuit_arms(bs@, ai as int, turn as int) is None,
        },
{
    let succs = successors(&bs[ai]);
    if succs.len() != 2 {
        return None;
    }
    let (b, c) = if turn == 0 {
        (&succs[0], &succs[1])
    } else {
        (&succs[1], &succs[0])
    };
    proof {
        assert(ordered_pair(succ(bs@[ai as int]), turn as int) == (b@, c@));
    }
    let (bi, ci) = match (find_block(bs, b), find_block(bs, c)) {
        (Some(bi), Some(ci)) => (bi, ci),
        _ => {
            return None;
        },
    };
    if bi == ai || ci == ai || bi == ci || in_degree(bs, b) != 1 {
        return None;
    }
    let b_succs = successors(&bs[bi]);
    if b_succs.len() != 1 || !(b_succs[0] == *c) {
        proof {
            let target = seq![c@];
            if b_succs@.len() == 1 {
                assert(names(b_succs@)[0] == b_succs@[0]@);
                assert(target[0] == c@);
                assert(names(b_succs@) != target);
            } else {
                assert(names(b_succs@).len() != target.len());
            }
        }
        return None;
    }
    proof {
        assert(names(b_succs@) =~= seq![c@]);
    }
    let c_preds = predecessors(bs, c);
    let ghost pv = c_preds@.map_values(|k: usize| k as int);
    if !(c_preds.len() == 2 && ((c_preds[0] == ai && c_preds[1] == bi) || (c_preds[0] == bi && c_preds[1] == ai))) {
        proof {
            if c_preds@.len() == 2 {
                assert(pv[0] == c_preds@[0] as int && pv[1] == c_preds@[1] as int);
                let s1 = seq![ai as int, bi as int];
                let s2 = seq![bi as int, ai as int];
                assert(s1[0] == ai as int && s1[1] == bi as int);
                assert(s2[0] == bi as int && s2[1] == ai as int);
            } else {
                assert(pv.len() != 2);
            }
        }
        return None;
    }
    proof {
        if c_preds@[0] == ai {
            assert(pv =~= seq![ai as int, bi as int]);
        } else {
            assert(pv =~= seq![bi as int, ai as int]);
        }
    }
    let compound = match &bs[ci].condition {
        Some(e) => compound_boolean(e),
        None => false,
    };
    if !compound || bs[bi].statements.len() != 0 {
        return None;
    }
    proof {
        assert(short_circuit_arms(bs@, ai as int, turn as int) == Some((bi as int, ci as int)));
    }
    Some((bi, ci))
}

/// Remove `b` and `c` and append them to the header named like block `ai`.
fn fold_short_circuit(bs: &mut Vec<BlockLowering>, ai: usize, bi: usize, ci: usize)
    requires
        ai < old(bs)@.len(),
        bi < old(bs)@.len(),
        ci < old(bs)@.len(),
        bi != ci,
    ensures
        smaller(final(bs)@, old(bs)@),
        short_circuit_step(old(bs)@, final(bs)@, ai as int, bi as int, ci as int),
{
    let a_name = bs[ai].name.clone();
    let (b_block, c_block) = remove_two(bs, bi, ci);
    match find_block(bs, &a_name) {
        Some(a2) => {
            let ghost rest = bs@;
            let mut a_block = bs.remove(a2);
            let ghost a0 = a_block;
            append_stmts(&mut a_block.statements, b_block.statements);
            append_stmts(&mut a_block.statements, c_block.statements);
            a_block.condition = c_block.condition;
            a_block.targets = c_block.targets;
            bs.insert(a2, a_block);
            proof {
                assert(bs@ =~= rest.update(a2 as int, a_block));
            }
        },
        None => {},
    }
}

/// The other successor of a two-successor block named `n`.
pub open spec fn other_succ(s: Seq<Seq<char>>, n: Seq<char>) -> Seq<char> {
    if s[0] == n {
        s[1]
    } else {
        s[0]
    }
}

/// Whether block `i` loops on itself: its two successors are itself and
/// another block, and it branches on a condition.
pub open spec fn self_loop_at(bs: Seq<BlockLowering>, i: int) -> bool {
    let s = succ(bs[i]);
    let n = bs[i].name@;
    &&& s.len() == 2
    &&& s.contains(n)
    &&& other_succ(s, n) != n
    &&& bs[i].condition is Some
}

/// The condition under which a two-way block stays on the branch to `t`:
/// the condition itself when `t` is the true target, its negation
/// (`c == 0`) otherwise.
pub open spec fn branch_condition(a: BlockLowering, t: Seq<char>) -> Expression {
    let c = a.condition->0;
    if a.targets@.len() > 0 && a.targets@[0]@ == t {
        c
    } else {
        crate::oq3::ast::spec_bin(BinaryOp::Eq, c, Expression::Integer(0))
    }
}

/// `m` is the self-looping `a` closed into `a`'s statements followed by
/// `while (stay) { <a's statements> }`, continuing to the exit.
pub open spec fn self_loop_closed(a: BlockLowering, m: BlockLowering) -> bool {
    &&& m.name == a.name
    &&& m.condition is None
    &&& names(m.targets@) == seq![other_succ(succ(a), a.name@)]
    &&& m.statements@.len() == a.statements@.len() + 1
    &&& m.statements@.subrange(0, a.statements@.len() as int) == a.statements@
    &&& m.statements@.last() matches Statement::WhileLoop { condition, body } && condition == branch_condition(
        a,
        a.name@,
    ) && same_stmts(a.statements@, body@)
}

/// Whether the condition of a loop `w` holds when the block's own branch
/// condition `c` has the truth value `v`: `c` holds exactly when `c` is
/// true, and `x == 0` exactly when `x` does not hold.
pub open spec fn holds_when(w: Expression, c: Expression, v: bool) -> bool
    decreases w,
{
    if w == c {
        v
    } else {
        match w {
            Expression::Binary { op: BinaryOp::Eq, lhs, rhs } => *rhs == Expression::Integer(0) && !holds_when(
                *lhs,
                c,
                v,
            ),
            _ => false,
        }
    }
}

proof fn lemma_negation_differs(c: Expression)
    ensures
        crate::oq3::ast::spec_bin(BinaryOp::Eq, c, Expression::Integer(0)) != c,
{
    let w = crate::oq3::ast::spec_bin(BinaryOp::Eq, c, Expression::Integer(0));
    if let Expression::Binary { lhs, .. } = w {
        assert(decreases_to!(w => *lhs));
    }
}

/// A two-way block that branches back to itself becomes a loop that runs
/// again exactly when the block's branch would go back to itself: for each
/// truth value of the block's condition, the `while` condition holds if
/// and only if the target that value selects (the first target on true,
/// the second on false) is the block itself.
pub proof fn law_self_loop_condition(a: BlockLowering, m: BlockLowering, v: bool)
    requires
        a.condition is Some,
        a.targets@.len() == 2,
        a.targets@[0]@ != a.targets@[1]@,
        a.targets@[0]@ == a.name@ || a.targets@[1]@ == a.name@,
        self_loop_closed(a, m),
    ensures
        m.statements@.last() matches Statement::WhileLoop { condition, .. } && holds_when(
            condition,
            a.condition->0,
            v,
        ) == ((if v {
            a.targets@[0]@
        } else {
            a.targets@[1]@
        }) == a.name@),
{
    let c = a.condition->0;
    lemma_negation_differs(c);
    let w = crate::oq3::ast::spec_bin(BinaryOp::Eq, c, Expression::Integer(0));
    if !(a.targets@[0]@ == a.name@) {
        assert(holds_when(w, c, v) == !holds_when(c, c, v));
    }
}

/// A block whose two successors are itself and an exit: a `while` around
/// its own statements.
#[verifier::rlimit(50)]
fn reduce_self_loop(bs: &mut Vec<BlockLowering>) -> (r: bool)
    ensures
        r ==> smaller(final(bs)@, old(bs)@),
        r ==> exists|i: int| 0 <= i < old(bs)@.len() && old(bs)@[i].targets@.len() > 0,
        !r ==> final(bs)@ == old(bs)@,
        r ==> exists|i: int|
            0 <= i < old(bs)@.len() && #[trigger] self_loop_at(old(bs)@, i) && final(bs)@ == old(bs)@.update(
                i,
                final(bs)@[i],
            ) && self_loop_closed(old(bs)@[i], final(bs)@[i]) && (forall|k: int|
                0 <= k < i ==> !#[trigger] self_loop_at(old(bs)@, k)),
        !r ==> forall|i: int| 0 <= i < old(bs)@.len() ==> !#[trigger] self_loop_at(old(bs)@, i),
{
    let mut i: usize = 0;
    while i < bs.len()
        invariant
            i <= bs@.len(),
            bs@ == old(bs)@,
            forall|k: int| 0 <= k < i ==> !#[trigger] self_loop_at(old(bs)@, k),
        decreases bs@.len() - i,
    {
        let succs = successors(&bs[i]);
        let name = bs[i].name.clone();
        if succs.len() == 2 && contains_name(&succs, &name) {
            let exit = if succs[0] == name {
                succs[1].clone()
            } else {
                succs[0].clone()
            };
            proof {
                let k = choose|k: int| 0 <= k < succs@.len() && succs@[k]@ == name@;
                assert(names(succs@)[k] == name@);
                assert(names(succs@).contains(name@));
                assert(exit@ == other_succ(succ(bs@[i as int]), name@));
            }
            if !(exit == name) && bs[i].condition.is_some() {
                let ghost before = bs@;
                let ghost a0 = bs@[i as int];
                proof {
                    let k = choose|k: int| 0 <= k < succs@.len() && succs@[k]@ == name@;
                    assert(is_target(bs@[i as int], succs@[k]@));
                    assert(is_self_loop(bs@[i as int]));
                    assert(self_loop_at(before, i as int));
                }
                let mut a = bs.remove(i);
                let condition = match a.condition {
                    Some(c) => c,
                    None => int_lit(0),
                };
                let self_loop_true = a.targets.len() > 0 && a.targets[0] == name;
                let effective = if self_loop_true {
                    condition
                } else {
                    bin(BinaryOp::Eq, condition, int_lit(0))
                };
                let body = copy_stmts(&a.statements);
                a.statements.push(Statement::WhileLoop { condition: effective, body });
                a.condition = None;
                a.targets = one_target(&exit);
                proof {
                    if is_self_loop(a) {
                        let j = choose|j: int| 0 <= j < a.targets@.len() && a.targets@[j]@ == a.name@;
                        assert(j == 0);
                    }
                }
                bs.insert(i, a);
                proof {
                    assert(bs@ =~= before.update(i as int, a));
                    lemma_self_loops_update(before, i as int, a);
                    assert(names(a.targets@) =~= seq![exit@]);
                    assert(a.statements@.subrange(0, a0.statements@.len() as int) =~= a0.statements@);
                    assert(self_loop_closed(a0, a));
                }
                return true;
            }
        } else {
            proof {
                if succs@.len() == 2 {
                    if names(succs@).contains(name@) {
                        let k = choose|k: int| 0 <= k < names(succs@).len() && names(succs@)[k] == name@;
                        assert(succs@[k]@ == name@);
                    }
                }
            }
        }
        i = i + 1;
    }
    false
}

/// The arms `(b, c)` of an `if`/`else` headed by block `ai`: its two
/// successors, other blocks each entered only from `ai`, both with the
/// same single successor, and the true and false targets naming one arm
/// each.
pub open spec fn if_else_arms(bs: Seq<BlockLowering>, ai: int) -> Option<(int, int)> {
    let s = succ(bs[ai]);
    let a = bs[ai];
    if s.len() == 2 && a.targets@.len() >= 2 {
        match (first_block(bs, s[0]), first_block(bs, s[1])) {
            (Some(bi), Some(ci)) => {
                let sb = succ(bs[bi]);
                let sc = succ(bs[ci]);
                if bi != ai && ci != ai && bi != ci && preds(bs, s[0]).len() == 1 && preds(bs, s[1]).len() == 1
                    && sb.len() == 1 && sc.len() == 1 && sb[0] == sc[0] {
                    match (first_block(bs, a.targets@[0]@), first_block(bs, a.targets@[1]@)) {
                        (Some(ti), Some(fi)) => if (ti == bi || ti == ci) && (fi == bi || fi == ci) && ti != fi {
                            Some((bi, ci))
                        } else {
                            None
                        },
                        _ => None,
                    }
                } else {
                    None
                }
            },
            _ => None,
        }
    } else {
        None
    }
}

/// `m` is `a` with the arms folded in as `if (c) { t } else { f }` on
/// `a`'s condition, continuing to `d`; two empty arms add no statement.
pub open spec fn if_else_closed(a: BlockLowering, t: BlockLowering, f: BlockLowering, m: BlockLowering, d: Seq<char>) -> bool {
    &&& m.name == a.name
    &&& m.condition is None
    &&& names(m.targets@) == seq![d]
    &&& if t.statements@.len() > 0 || f.statements@.len() > 0 {
        &&& m.statements@.len() == a.statements@.len() + 1
        &&& m.statements@.subrange(0, a.statements@.len() as int) == a.statements@
        &&& m.statements@.last() matches Statement::BranchingStatement { condition, if_block, else_block }
            && condition == cond_or_zero(a) && if_block@ == t.statements@ && else_block@ == f.statements@
    } else {
        m.statements@ == a.statements@
    }
}

/// The `if`/`else` rewrite: both arms removed and the header (the first
/// block named like block `ai` after the removal) closed around them.
pub open spec fn if_else_step(bs0: Seq<BlockLowering>, bs1: Seq<BlockLowering>, ai: int, bi: int, ci: int) -> bool {
    let a = bs0[ai];
    let ti = first_block(bs0, a.targets@[0]@)->0;
    let fi = first_block(bs0, a.targets@[1]@)->0;
    let d = succ(bs0[bi])[0];
    let rest = remove_pair(bs0, bi, ci);
    match first_block(rest, a.name@) {
        Some(a2) => bs1 == rest.update(a2, bs1[a2]) && if_else_closed(rest[a2], bs0[ti], bs0[fi], bs1[a2], d),
        None => bs1 == rest,
    }
}

/// `a -> {b, c}`, `b -> d`, `c -> d` with `b`, `c` entered only from `a`:
/// an `if`/`else` in `a`, which then continues to `d`.
#[verifier::rlimit(80)]
fn reduce_if_else(bs: &mut Vec<BlockLowering>) -> (r: bool)
    ensures
        r ==> smaller(final(bs)@, old(bs)@),
        r ==> exists|i: int| 0 <= i < old(bs)@.len() && old(bs)@[i].targets@.len() > 0,
        !r ==> final(bs)@ == old(bs)@,
        r ==> exists|ai: int|
            0 <= ai < old(bs)@.len() && (#[trigger] if_else_arms(old(bs)@, ai) matches Some((bi, ci))
                && if_else_step(old(bs)@, final(bs)@, ai, bi, ci)) && (forall|k: int|
                0 <= k < ai ==> #[trigger] if_else_arms(old(bs)@, k) is None),
        !r ==> forall|ai: int| 0 <= ai < old(bs)@.len() ==> #[trigger] if_else_arms(old(bs)@, ai) is None,
{
    let mut ai: usize = 0;
    while ai < bs.len()
        invariant
            ai <= bs@.len(),
            bs@ == old(bs)@,
            forall|k: int| 0 <= k < ai ==> #[trigger] if_else_arms(old(bs)@, k) is None,
        decreases bs@.len() - ai,
    {
        if if_else_at(bs, ai) {
            return true;
        }
        ai = ai + 1;
    }
    false
}

/// Try the `if`/`else` rewrite headed by block `ai`.
#[verifier::rlimit(80)]
fn if_else_at(bs: &mut Vec<BlockLowering>, ai: usize) -> (r: bool)
    requires
        ai < old(bs)@.len(),
    ensures
        r ==> smaller(final(bs)@, old(bs)@) && old(bs)@[ai as int].targets@.len() > 0,
        r ==> (if_else_arms(old(bs)@, ai as int) matches Some((bi, ci)) && if_else_step(old(bs)@, final(bs)@, ai as int, bi, ci)),
        !r ==> final(bs)@ == old(bs)@ && if_else_arms(old(bs)@, ai as int) is None,
{
    let succs = successors(&bs[ai]);
    if !(succs.len() == 2 && bs[ai].targets.len() >= 2) {
        return false;
    }
    let b = &succs[0];
    let c = &succs[1];
    proof {
        assert(names(succs@)[0] == b@ && names(succs@)[1] == c@);
    }
    let (bi, ci) = match (find_block(bs, b), find_block(bs, c)) {
        (Some(bi), Some(ci)) => (bi, ci),
        _ => {
            return false;
        },
    };
    if !(bi != ai && ci != ai && bi != ci && in_degree(bs, b) == 1 && in_degree(bs, c) == 1) {
        return false;
    }
    let b_succs = successors(&bs[bi]);
    let c_succs = successors(&bs[ci]);
    if !(b_succs.len() == 1 && c_succs.len() == 1 && b_succs[0] == c_succs[0]) {
        proof {
            if b_succs@.len() == 1 && c_succs@.len() == 1 {
                assert(names(b_succs@)[0] == b_succs@[0]@);
                assert(names(c_succs@)[0] == c_succs@[0]@);
            }
        }
        return false;
    }
    proof {
        assert(names(b_succs@)[0] == b_succs@[0]@);
    }
    let d = b_succs[0].clone();
    let (ti, fi) = match (find_block(bs, &bs[ai].targets[0]), find_block(bs, &bs[ai].targets[1])) {
        (Some(ti), Some(fi)) => (ti, fi),
        _ => {
            return false;
        },
    };
    if !((ti == bi || ti == ci) && (fi == bi || fi == ci) && ti != fi) {
        return false;
    }
    proof {
        assert(if_else_arms(old(bs)@, ai as int) == Some((bi as int, ci as int)));
        lemma_dedup(names(old(bs)@[ai as int].targets@));
    }
    let a_name = bs[ai].name.clone();
    let (x, y) = remove_two(bs, bi, ci);
    let (if_block, else_block) = if ti == bi {
        (x.statements, y.statements)
    } else {
        (y.statements, x.statements)
    };
    match find_block(bs, &a_name) {
        Some(a2) => {
            close_if_else_header(bs, a2, if_block, else_block, &d);
        },
        None => {},
    }
    true
}

/// Fold the arms into block `a2` as an `if`/`else`.
fn close_if_else_header(bs: &mut Vec<BlockLowering>, a2: usize, if_block: Vec<Statement>, else_block: Vec<Statement>, d: &String)
    requires
        a2 < old(bs)@.len(),
    ensures
        final(bs)@ == old(bs)@.update(a2 as int, final(bs)@[a2 as int]),
        final(bs)@[a2 as int].name == old(bs)@[a2 as int].name,
        final(bs)@[a2 as int].condition is None,
        names(final(bs)@[a2 as int].targets@) == seq![d@],
        if if_block@.len() > 0 || else_block@.len() > 0 {
            &&& final(bs)@[a2 as int].statements@.len() == old(bs)@[a2 as int].statements@.len() + 1
            &&& final(bs)@[a2 as int].statements@.subrange(0, old(bs)@[a2 as int].statements@.len() as int)
                == old(bs)@[a2 as int].statements@
            &&& final(bs)@[a2 as int].statements@.last() matches Statement::BranchingStatement {
                condition,
                if_block: ib,
                else_block: eb,
            } && condition == cond_or_zero(old(bs)@[a2 as int]) && ib@ == if_block@ && eb@ == else_block@
        } else {
            final(bs)@[a2 as int].statements@ == old(bs)@[a2 as int].statements@
        },
{
    let ghost rest = bs@;
    let ghost ib = if_block@;
    let ghost eb = else_block@;
    let mut a_block = bs.remove(a2);
    let ghost a0 = a_block;
    let condition = match a_block.condition {
        Some(c) => c,
        None => int_lit(0),
    };
    if if_block.len() > 0 || else_block.len() > 0 {
        a_block.statements.push(Statement::BranchingStatement { condition, if_block, else_block });
        proof {
            assert(a_block.statements@.subrange(0, a0.statements@.len() as int) =~= a0.statements@);
        }
    }
    a_block.condition = None;
    a_block.targets = one_target(d);
    bs.insert(a2, a_block);
    proof {
        assert(bs@ =~= rest.update(a2 as int, a_block));
        assert(names(a_block.targets@) =~= seq![d@]);
    }
}

/// The body block of an `if` without `else` headed by block `ai`, tried
/// with its successors in `turn` order: `ai` has two successors `b` and
/// `d`, `b` is another block entered only from `ai`, and `b`'s only
/// successor is `d`.
pub open spec fn if_body(bs: Seq<BlockLowering>, ai: int, turn: int) -> Option<int> {
    let s = succ(bs[ai]);
    if s.len() == 2 && bs[ai].targets@.len() >= 1 {
        let (b, d) = ordered_pair(s, turn);
        match first_block(bs, b) {
            Some(bi) => if bi != ai && preds(bs, b).len() == 1 && succ(bs[bi]) == seq![d] {
                Some(bi)
            } else {
                None
            },
            None => None,
        }
    } else {
        None
    }
}

/// `m` is `a` with `b` folded in as a one-armed `if` on `a`'s condition
/// (in the `else` arm when `b` is the false target), continuing to `d`;
/// an empty `b` adds no statement.
pub open spec fn if_closed(a: BlockLowering, b: BlockLowering, m: BlockLowering, b_is_true: bool, d: Seq<char>) -> bool {
    &&& m.name == a.name
    &&& m.condition is None
    &&& names(m.targets@) == seq![d]
    &&& if b.statements@.len() > 0 {
        &&& m.statements@.len() == a.statements@.len() + 1
        &&& m.statements@.subrange(0, a.statements@.len() as int) == a.statements@
        &&& m.statements@.last() matches Statement::BranchingStatement { condition, if_block, else_block }
            && condition == cond_or_zero(a) && if b_is_true {
            if_block@ == b.statements@ && else_block@.len() == 0
        } else {
            if_block@.len() == 0 && else_block@ == b.statements@
        }
    } else {
        m.statements@ == a.statements@
    }
}

/// The one-armed `if` rewrite: body block `bi` removed and the header (the
/// first block named like block `ai` after the removal) closed around it.
pub open spec fn if_step(bs0: Seq<BlockLowering>, bs1: Seq<BlockLowering>, ai: int, bi: int, turn: int) -> bool {
    let (b, d) = ordered_pair(succ(bs0[ai]), turn);
    let rest = bs0.remove(bi);
    match first_block(rest, bs0[ai].name@) {
        Some(a2) => bs1 == rest.update(a2, bs1[a2]) && if_closed(
            rest[a2],
            bs0[bi],
            bs1[a2],
            bs0[ai].targets@[0]@ == b,
            d,
        ),
        None => bs1 == rest,
    }
}

/// `a -> {b, d}`, `b -> d` with `b` entered only from `a`: an `if` in `a`
/// (the body in the branch that leads to `b`), which then continues to
/// `d`.
#[verifier::rlimit(80)]
fn reduce_if_no_else(bs: &mut Vec<BlockLowering>) -> (r: bool)
    ensures
        r ==> smaller(final(bs)@, old(bs)@),
        r ==> exists|i: int| 0 <= i < old(bs)@.len() && old(bs)@[i].targets@.len() > 0,
        !r ==> final(bs)@ == old(bs)@,
        r ==> exists|ai: int, turn: int|
            0 <= ai < old(bs)@.len() && 0 <= turn < 2 && (#[trigger] if_body(old(bs)@, ai, turn) matches Some(bi)
                && if_step(old(bs)@, final(bs)@, ai, bi, turn)) && (forall|k: int, t: int|
                0 <= k && 0 <= t < 2 && (k < ai || (k == ai && t < turn)) ==> #[trigger] if_body(old(bs)@, k, t) is None),
        !r ==> forall|ai: int, turn: int|
            0 <= ai < old(bs)@.len() && 0 <= turn < 2 ==> #[trigger] if_body(old(bs)@, ai, turn) is None,
{
    let mut ai: usize = 0;
    while ai < bs.len()
        invariant
            ai <= bs@.len(),
            bs@ == old(bs)@,
            forall|k: int, turn: int| 0 <= k < ai && 0 <= turn < 2 ==> #[trigger] if_body(old(bs)@, k, turn) is None,
        decreases bs@.len() - ai,
    {
        let succs = successors(&bs[ai]);
        if succs.len() == 2 && bs[ai].targets.len() >= 1 {
            let mut turn: usize = 0;
            while turn < 2
                invariant
                    turn <= 2,
                    ai < bs@.len(),
                    succs@.len() == 2,
                    names(succs@) == succ(bs@[ai as int]),
                    bs@ == old(bs)@,
                    bs@[ai as int].targets@.len() >= 1,
                    forall|t: int| 0 <= t < turn ==> #[trigger] if_body(old(bs)@, ai as int, t) is None,
                    forall|k: int, t: int| 0 <= k < ai && 0 <= t < 2 ==> #[trigger] if_body(old(bs)@, k, t) is None,
                decreases 2 - turn,
            {
                let (b, d) = if turn == 0 {
                    (&succs[0], &succs[1])
                } else {
                    (&succs[1], &succs[0])
                };
                let ghost t = turn as int;
                proof {
                    assert(ordered_pair(succ(bs@[ai as int]), t) == (b@, d@));
                }
                turn = turn + 1;
                let bi = match find_block(bs, b) {
                    Some(x) => x,
                    None => {
                        continue;
                    },
                };
                if bi == ai || in_degree(bs, b) != 1 {
                    continue;
                }
                let b_succs = successors(&bs[bi]);
                if b_succs.len() != 1 || !(b_succs[0] == *d) {
                    proof {
                        let target = seq![d@];
                        if b_succs@.len() == 1 {
                            assert(names(b_succs@)[0] == b_succs@[0]@);
                            assert(target[0] == d@);
                            assert(names(b_succs@) != target);
                        } else {
                            assert(names(b_succs@).len() != target.len());
                        }
                        assert(succ(bs@[bi as int]) != target);
                    }
                    continue;
                }
                proof {
                    assert(names(b_succs@) =~= seq![d@]);
                    assert(if_body(old(bs)@, ai as int, t) == Some(bi as int));
                    lemma_dedup(names(old(bs)@[ai as int].targets@));
                }
                close_if(bs, ai, bi, b, d);
                return true;
            }
        }
        ai = ai + 1;
    }
    false
}

/// Remove body block `bi` and fold it into the header named like block
/// `ai`.
fn close_if(bs: &mut Vec<BlockLowering>, ai: usize, bi: usize, b: &String, d: &String)
    requires
        ai < old(bs)@.len(),
        bi < old(bs)@.len(),
        ai != bi,
        old(bs)@[ai as int].targets@.len() >= 1,
    ensures
        smaller(final(bs)@, old(bs)@),
        match first_block(old(bs)@.remove(bi as int), old(bs)@[ai as int].name@) {
            Some(a2) => final(bs)@ == old(bs)@.remove(bi as int).update(a2, final(bs)@[a2]) && if_closed(
                old(bs)@.remove(bi as int)[a2],
                old(bs)@[bi as int],
                final(bs)@[a2],
                old(bs)@[ai as int].targets@[0]@ == b@,
                d@,
            ),
            None => final(bs)@ == old(bs)@.remove(bi as int),
        },
{
    let b_is_true = bs[ai].targets[0] == *b;
    let a_name = bs[ai].name.clone();
    let b_block = bs.remove(bi);
    match find_block(bs, &a_name) {
        Some(a2) => {
            close_if_header(bs, a2, b_block, b_is_true, d);
        },
        None => {},
    }
}

/// Fold the body block `b_block` into block `a2` as a one-armed `if`.
fn close_if_header(bs: &mut Vec<BlockLowering>, a2: usize, b_block: BlockLowering, b_is_true: bool, d: &String)
    requires
        a2 < old(bs)@.len(),
    ensures
        final(bs)@ == old(bs)@.update(a2 as int, final(bs)@[a2 as int]),
        if_closed(old(bs)@[a2 as int], b_block, final(bs)@[a2 as int], b_is_true, d@),
{
    let ghost rest = bs@;
    let ghost b_st = b_block.statements@;
    let mut a_block = bs.remove(a2);
    let ghost a0 = a_block;
    let (if_block, else_block) = if b_is_true {
        (b_block.statements, Vec::new())
    } else {
        (Vec::new(), b_block.statements)
    };
    let condition = match a_block.condition {
        Some(c) => c,
        None => int_lit(0),
    };
    if if_block.len() > 0 || else_block.len() > 0 {
        a_block.statements.push(Statement::BranchingStatement { condition, if_block, else_block });
        proof {
            assert(a_block.statements@.subrange(0, a0.statements@.len() as int) =~= a0.statements@);
        }
    }
    a_block.condition = None;
    a_block.targets = one_target(d);
    bs.insert(a2, a_block);
    proof {
        assert(bs@ =~= rest.update(a2 as int, a_block));
        assert(names(a_block.targets@) =~= seq![d@]);
    }
}

/// The condition of a block, or `0` when it has none.
pub open spec fn cond_or_zero(a: BlockLowering) -> Expression {
    match a.condition {
        Some(c) => c,
        None => Expression::Integer(0),
    }
}

/// The successor pair `(first, second)` of block `ai` taken in `turn`
/// order: as listed for turn 0, swapped for turn 1.
pub open spec fn ordered_pair(s: Seq<Seq<char>>, turn: int) -> (Seq<char>, Seq<char>) {
    if turn == 0 {
        (s[0], s[1])
    } else {
        (s[1], s[0])
    }
}

/// The loop body block of a `while` headed by block `ai`, tried with its
/// successors in `turn` order: `ai` has two successors `b` and `exit`, `b`
/// is another block entered only from `ai`, and `b`'s only successor is
/// `ai`.
pub open spec fn while_body(bs: Seq<BlockLowering>, ai: int, turn: int) -> Option<int> {
    let s = succ(bs[ai]);
    if s.len() == 2 && bs[ai].targets@.len() >= 1 {
        let (b, exit) = ordered_pair(s, turn);
        if b == exit {
            None
        } else {
            match first_block(bs, b) {
                Some(bi) => if bi != ai && preds(bs, b).len() == 1 && succ(bs[bi]) == seq![bs[ai].name@] {
                    Some(bi)
                } else {
                    None
                },
                None => None,
            }
        }
    } else {
        None
    }
}

/// `m` is header `a` closed around body `b`: `a`'s statements followed by
/// `while (stay) { <b's statements> <a's statements> }`, continuing to
/// `exit`; `stay` is `a`'s condition, negated when `b` is the false
/// target.
pub open spec fn while_closed(a: BlockLowering, b: BlockLowering, m: BlockLowering, b_is_true: bool, exit: Seq<char>) -> bool {
    let stay = if b_is_true {
        cond_or_zero(a)
    } else {
        crate::oq3::ast::spec_bin(BinaryOp::Eq, cond_or_zero(a), Expression::Integer(0))
    };
    &&& m.name == a.name
    &&& m.condition is None
    &&& names(m.targets@) == seq![exit]
    &&& m.statements@.len() == a.statements@.len() + 1
    &&& m.statements@.subrange(0, a.statements@.len() as int) == a.statements@
    &&& m.statements@.last() matches Statement::WhileLoop { condition, body } && condition == stay
        && body@.len() == b.statements@.len() + a.statements@.len()
        && body@.subrange(0, b.statements@.len() as int) == b.statements@
        && same_stmts(a.statements@, body@.subrange(b.statements@.len() as int, body@.len() as int))
}

/// The `while` rewrite: body block `bi` removed and the header (the first
/// block named like block `ai` after the removal) closed around it.
pub open spec fn while_step(bs0: Seq<BlockLowering>, bs1: Seq<BlockLowering>, ai: int, bi: int, turn: int) -> bool {
    let (b, exit) = ordered_pair(succ(bs0[ai]), turn);
    let rest = bs0.remove(bi);
    match first_block(rest, bs0[ai].name@) {
        Some(a2) => bs1 == rest.update(a2, bs1[a2]) && while_closed(
            rest[a2],
            bs0[bi],
            bs1[a2],
            bs0[ai].targets@[0]@ == b,
            exit,
        ),
        None => bs1 == rest,
    }
}

/// `a -> {b, exit}`, `b -> a` with `b` entered only from `a`: a `while` in
/// `a` whose body is `b`'s statements then `a`'s, continuing to `exit`.
#[verifier::rlimit(80)]
fn reduce_while(bs: &mut Vec<BlockLowering>) -> (r: bool)
    ensures
        r ==> smaller(final(bs)@, old(bs)@),
        r ==> exists|i: int| 0 <= i < old(bs)@.len() && old(bs)@[i].targets@.len() > 0,
        !r ==> final(bs)@ == old(bs)@,
        r ==> exists|ai: int, turn: int|
            0 <= ai < old(bs)@.len() && 0 <= turn < 2 && (#[trigger] while_body(old(bs)@, ai, turn) matches Some(
                bi,
            ) && while_step(old(bs)@, final(bs)@, ai, bi, turn)) && (forall|k: int, t: int|
                0 <= k && 0 <= t < 2 && (k < ai || (k == ai && t < turn)) ==> #[trigger] while_body(old(bs)@, k, t)
                    is None),
        !r ==> forall|ai: int, turn: int|
            0 <= ai < old(bs)@.len() && 0 <= turn < 2 ==> #[trigger] while_body(old(bs)@, ai, turn) is None,
{
    let mut ai: usize = 0;
    while ai < bs.len()
        invariant
            ai <= bs@.len(),
            bs@ == old(bs)@,
            forall|k: int, turn: int| 0 <= k < ai && 0 <= turn < 2 ==> #[trigger] while_body(old(bs)@, k, turn) is None,
        decreases bs@.len() - ai,
    {
        let succs = successors(&bs[ai]);
        if succs.len() == 2 && bs[ai].targets.len() >= 1 {
            let mut turn: usize = 0;
            while turn < 2
                invariant
                    turn <= 2,
                    ai < bs@.len(),
                    succs@.len() == 2,
                    names(succs@) == succ(bs@[ai as int]),
                    bs@ == old(bs)@,
                    bs@[ai as int].targets@.len() >= 1,
                    forall|t: int| 0 <= t < turn ==> #[trigger] while_body(old(bs)@, ai as int, t) is None,
                    forall|k: int, t: int| 0 <= k < ai && 0 <= t < 2 ==> #[trigger] while_body(old(bs)@, k, t) is None,
                decreases 2 - turn,
            {
                let (b, exit) = if turn == 0 {
                    (&succs[0], &succs[1])
                } else {
                    (&succs[1], &succs[0])
                };
                let ghost t = turn as int;
                proof {
                    assert(ordered_pair(succ(bs@[ai as int]), t) == (b@, exit@));
                }
                turn = turn + 1;
                if *b == *exit {
                    continue;
                }
                let bi = match find_block(bs, b) {
                    Some(x) => x,
                    None => {
                        continue;
                    },
                };
                if bi == ai || in_degree(bs, b) != 1 {
                    continue;
                }
                let b_succs = successors(&bs[bi]);
                if b_succs.len() != 1 || !(b_succs[0] == bs[ai].name) {
                    proof {
                        let target = seq![bs@[ai as int].name@];
                        if b_succs@.len() == 1 {
                            assert(names(b_succs@)[0] == b_succs@[0]@);
                            assert(target[0] == bs@[ai as int].name@);
                            assert(names(b_succs@) != target);
                        } else {
                            assert(names(b_succs@).len() != target.len());
                        }
                        assert(succ(bs@[bi as int]) != target);
                    }
                    continue;
                }
                proof {
                    assert(names(b_succs@) =~= seq![bs@[ai as int].name@]);
                    assert(while_body(old(bs)@, ai as int, t) == Some(bi as int));
                    lemma_dedup(names(old(bs)@[ai as int].targets@));
                }
                close_while(bs, ai, bi, b, exit);
                return true;
            }
        }
        ai = ai + 1;
    }
    false
}

/// Remove body block `bi` and close the header named like block `ai`
/// around it.
fn close_while(bs: &mut Vec<BlockLowering>, ai: usize, bi: usize, b: &String, exit: &String)
    requires
        ai < old(bs)@.len(),
        bi < old(bs)@.len(),
        ai != bi,
        old(bs)@[ai as int].targets@.len() >= 1,
    ensures
        smaller(final(bs)@, old(bs)@),
        match first_block(old(bs)@.remove(bi as int), old(bs)@[ai as int].name@) {
            Some(a2) => final(bs)@ == old(bs)@.remove(bi as int).update(a2, final(bs)@[a2]) && while_closed(
                old(bs)@.remove(bi as int)[a2],
                old(bs)@[bi as int],
                final(bs)@[a2],
                old(bs)@[ai as int].targets@[0]@ == b@,
                exit@,
            ),
            None => final(bs)@ == old(bs)@.remove(bi as int),
        },
{
    let b_is_true = bs[ai].targets[0] == *b;
    let a_name = bs[ai].name.clone();
    let b_block = bs.remove(bi);
    match find_block(bs, &a_name) {
        Some(a2) => {
            close_header(bs, a2, b_block, b_is_true, exit);
        },
        None => {},
    }
}

/// Close block `a2` around the body block `b_block`.
fn close_header(bs: &mut Vec<BlockLowering>, a2: usize, b_block: BlockLowering, b_is_true: bool, exit: &String)
    requires
        a2 < old(bs)@.len(),
    ensures
        final(bs)@ == old(bs)@.update(a2 as int, final(bs)@[a2 as int]),
        while_closed(old(bs)@[a2 as int], b_block, final(bs)@[a2 as int], b_is_true, exit@),
{
    let ghost rest = bs@;
    let mut a_block = bs.remove(a2);
    let ghost a0 = a_block;
    let condition = match a_block.condition {
        Some(c) => c,
        None => int_lit(0),
    };
    let effective = if b_is_true {
        condition
    } else {
        bin(BinaryOp::Eq, condition, int_lit(0))
    };
    let mut body = b_block.statements;
    let ghost b_st = body@;
    let a_prefix = copy_stmts(&a_block.statements);
    let ghost ap = a_prefix@;
    append_stmts(&mut body, a_prefix);
    proof {
        assert(body@.subrange(0, b_st.len() as int) =~= b_st);
        assert(body@.subrange(b_st.len() as int, body@.len() as int) =~= ap);
    }
    a_block.statements.push(Statement::WhileLoop { condition: effective, body });
    a_block.condition = None;
    a_block.targets = one_target(exit);
    bs.insert(a2, a_block);
    proof {
        assert(bs@ =~= rest.update(a2 as int, a_block));
        assert(names(a_block.targets@) =~= seq![exit@]);
        assert(a_block.statements@.subrange(0, a0.statements@.len() as int) =~= a0.statements@);
    }
}

pub open spec fn str_less(a: Seq<char>, b: Seq<char>) -> bool
    decreases a.len(),
{
    if a.len() == 0 {
        b.len() > 0
    } else if b.len() == 0 {
        false
    } else if a[0] != b[0] {
        (a[0] as u32) < (b[0] as u32)
    } else {
        str_less(a.subrange(1, a.len() as int), b.subrange(1, b.len() as int))
    }
}

fn less(a: &String, b: &String) -> (r: bool)
    ensures
        r == str_less(a@, b@),
{
    let x = crate::text::chars_of_string(a);
    let y = crate::text::chars_of_string(b);
    let mut i: usize = 0;
    proof {
        assert(x@.subrange(0, x@.len() as int) =~= x@);
        assert(y@.subrange(0, y@.len() as int) =~= y@);
    }
    while i < x.len() && i < y.len() && x[i] == y[i]
        invariant
            i <= x@.len(),
            i <= y@.len(),
            str_less(x@, y@) == str_less(x@.subrange(i as int, x@.len() as int), y@.subrange(i as int, y@.len() as int)),
        decreases x@.len() - i,
    {
        proof {
            let xs = x@.subrange(i as int, x@.len() as int);
            let ys = y@.subrange(i as int, y@.len() as int);
            assert(xs.subrange(1, xs.len() as int) =~= x@.subrange(i + 1, x@.len() as int));
            assert(ys.subrange(1, ys.len() as int) =~= y@.subrange(i + 1, y@.len() as int));
        }
        i = i + 1;
    }
    if i == x.len() {
        i < y.len()
    } else if i == y.len() {
        false
    } else {
        (x[i] as u32) < (y[i] as u32)
    }
}

proof fn lemma_str_less_asym(a: Seq<char>, b: Seq<char>)
    ensures
        str_less(a, b) ==> !str_less(b, a),
    decreases a.len(),
{
    if a.len() > 0 && b.len() > 0 && a[0] == b[0] {
        lemma_str_less_asym(a.subrange(1, a.len() as int), b.subrange(1, b.len() as int));
    }
}

proof fn lemma_str_less_trans(a: Seq<char>, b: Seq<char>, c: Seq<char>)
    ensures
        str_less(a, b) && str_less(b, c) ==> str_less(a, c),
    decreases a.len(),
{
    if a.len() > 0 && b.len() > 0 && c.len() > 0 && a[0] == b[0] && b[0] == c[0] {
        lemma_str_less_trans(
            a.subrange(1, a.len() as int),
            b.subrange(1, b.len() as int),
            c.subrange(1, c.len() as int),
        );
    }
}

/// The names of a list of lowerings.
pub open spec fn lowering_names(bs: Seq<BlockLowering>) -> Seq<Seq<char>> {
    bs.map_values(|b: BlockLowering| b.name@)
}

/// Each name is no greater than the ones after it.
pub open spec fn names_sorted(s: Seq<Seq<char>>) -> bool {
    forall|i: int, j: int| 0 <= i < j < s.len() ==> !str_less(#[trigger] s[j], #[trigger] s[i])
}

/// `ss` holds the names of `bs`, sorted.
pub open spec fn sorted_names_of(ss: Seq<Seq<char>>, bs: Seq<BlockLowering>) -> bool {
    names_sorted(ss) && ss.to_multiset() == lowering_names(bs).to_multiset()
}

/// The error for blocks that do not structure into one: their names,
/// sorted.
pub open spec fn cfg_fail_msg(ss: Seq<Seq<char>>) -> Seq<char> {
    "could not reduce CFG to a single block; remaining blocks: "@ + list_debug_text(ss)
        + ". qirtoqasm supports only structured control flow (sequence, if/else, simple while)."@
}

/// The block names, sorted.
fn sorted_names(bs: &Vec<BlockLowering>) -> (r: Vec<String>)
    ensures
        r@.len() == bs@.len(),
        sorted_names_of(names(r@), bs@),
{
    broadcast use vstd::seq_lib::group_to_multiset_ensures;

    let mut out: Vec<String> = Vec::new();
    let mut i: usize = 0;
    proof {
        assert(lowering_names(bs@.subrange(0, 0)) =~= Seq::<Seq<char>>::empty());
        assert(names(out@) =~= Seq::<Seq<char>>::empty());
    }
    while i < bs.len()
        invariant
            i <= bs@.len(),
            out@.len() == i,
            names_sorted(names(out@)),
            names(out@).to_multiset() == lowering_names(bs@.subrange(0, i as int)).to_multiset(),
        decreases bs@.len() - i,
    {
        let n = bs[i].name.clone();
        let mut j: usize = 0;
        while j < out.len() && !less(&n, &out[j])
            invariant
                j <= out@.len(),
                forall|k: int| 0 <= k < j ==> !str_less(n@, #[trigger] out@[k]@),
            decreases out@.len() - j,
        {
            j = j + 1;
        }
        let ghost o = names(out@);
        out.insert(j, n);
        proof {
            let t = names(out@);
            assert(t =~= o.insert(j as int, n@));
            assert forall|a: int, b: int| 0 <= a < b < t.len() implies !str_less(#[trigger] t[b], #[trigger] t[a]) by {
                if b == j {
                    assert(t[a] == o[a]);
                } else if a == j {
                    assert(t[b] == o[b - 1]);
                    if str_less(o[b - 1], n@) {
                        lemma_str_less_trans(o[b - 1], n@, o[j as int]);
                        lemma_str_less_asym(o[j as int], n@);
                        if b - 1 > j {
                            assert(!str_less(o[b - 1], o[j as int]));
                        }
                    }
                } else if b < j {
                    assert(t[a] == o[a] && t[b] == o[b]);
                } else if a > j {
                    assert(t[a] == o[a - 1] && t[b] == o[b - 1]);
                } else {
                    assert(t[a] == o[a] && t[b] == o[b - 1]);
                }
            }
            vstd::seq_lib::to_multiset_insert(o, j as int, n@);
            assert(t.to_multiset() == o.to_multiset().insert(n@));
            let before = lowering_names(bs@.subrange(0, i as int));
            assert(lowering_names(bs@.subrange(0, i + 1)) =~= before.push(bs@[i as int].name@));
            before.to_multiset_ensures();
            assert(before.push(n@).to_multiset() =~= before.to_multiset().insert(n@));
        }
        i = i + 1;
    }
    proof {
        assert(bs@.subrange(0, bs@.len() as int) =~= bs@);
    }
    out
}

/// Whether the short-circuit rule applies somewhere.
pub open spec fn short_circuit_applies(bs: Seq<BlockLowering>) -> bool {
    exists|ai: int, turn: int| 0 <= ai < bs.len() && 0 <= turn < 2 && #[trigger] short_circuit_arms(bs, ai, turn) is Some
}

/// Whether `bs1` is `bs0` rewritten by the short-circuit rule somewhere.
pub open spec fn short_circuit_rewrites(bs0: Seq<BlockLowering>, bs1: Seq<BlockLowering>) -> bool {
    exists|ai: int, turn: int|
        0 <= ai < bs0.len() && 0 <= turn < 2 && (#[trigger] short_circuit_arms(bs0, ai, turn) matches Some((bi, ci))
            && short_circuit_step(bs0, bs1, ai, bi, ci)) && (forall|k: int, t: int|
            0 <= k && 0 <= t < 2 && (k < ai || (k == ai && t < turn)) ==> #[trigger] short_circuit_arms(bs0, k, t) is None)
}

/// Whether the sequence rule applies somewhere.
pub open spec fn seq_applies(bs: Seq<BlockLowering>) -> bool {
    exists|ai: int| 0 <= ai < bs.len() && #[trigger] seq_target(bs, ai) is Some
}

/// Whether `bs1` is `bs0` rewritten by the sequence rule somewhere.
pub open spec fn seq_rewrites(bs0: Seq<BlockLowering>, bs1: Seq<BlockLowering>) -> bool {
    exists|ai: int|
        0 <= ai < bs0.len() && (#[trigger] seq_target(bs0, ai) matches Some(bi) && seq_step(bs0, bs1, ai, bi)) && (forall|
            k: int,
        | 0 <= k < ai ==> #[trigger] seq_target(bs0, k) is None)
}

/// Whether the self-loop rule applies somewhere.
pub open spec fn self_loop_applies(bs: Seq<BlockLowering>) -> bool {
    exists|i: int| 0 <= i < bs.len() && #[trigger] self_loop_at(bs, i)
}

/// Whether `bs1` is `bs0` rewritten by the self-loop rule somewhere.
pub open spec fn self_loop_rewrites(bs0: Seq<BlockLowering>, bs1: Seq<BlockLowering>) -> bool {
    exists|i: int|
        0 <= i < bs0.len() && #[trigger] self_loop_at(bs0, i) && bs1 == bs0.update(i, bs1[i]) && self_loop_closed(
            bs0[i],
            bs1[i],
        ) && (forall|k: int| 0 <= k < i ==> !#[trigger] self_loop_at(bs0, k))
}

/// Whether the `if`/`else` rule applies somewhere.
pub open spec fn if_else_applies(bs: Seq<BlockLowering>) -> bool {
    exists|ai: int| 0 <= ai < bs.len() && #[trigger] if_else_arms(bs, ai) is Some
}

/// Whether `bs1` is `bs0` rewritten by the `if`/`else` rule somewhere.
pub open spec fn if_else_rewrites(bs0: Seq<BlockLowering>, bs1: Seq<BlockLowering>) -> bool {
    exists|ai: int|
        0 <= ai < bs0.len() && (#[trigger] if_else_arms(bs0, ai) matches Some((bi, ci)) && if_else_step(bs0, bs1, ai, bi, ci))
            && (forall|k: int| 0 <= k < ai ==> #[trigger] if_else_arms(bs0, k) is None)
}

/// Whether the one-armed `if` rule applies somewhere.
pub open spec fn if_applies(bs: Seq<BlockLowering>) -> bool {
    exists|ai: int, turn: int| 0 <= ai < bs.len() && 0 <= turn < 2 && #[trigger] if_body(bs, ai, turn) is Some
}

/// Whether `bs1` is `bs0` rewritten by the one-armed `if` rule somewhere.
pub open spec fn if_rewrites(bs0: Seq<BlockLowering>, bs1: Seq<BlockLowering>) -> bool {
    exists|ai: int, turn: int|
        0 <= ai < bs0.len() && 0 <= turn < 2 && (#[trigger] if_body(bs0, ai, turn) matches Some(bi) && if_step(
            bs0,
            bs1,
            ai,
            bi,
            turn,
        )) && (forall|k: int, t: int|
            0 <= k && 0 <= t < 2 && (k < ai || (k == ai && t < turn)) ==> #[trigger] if_body(bs0, k, t) is None)
}

/// Whether the `while` rule applies somewhere.
pub open spec fn while_applies(bs: Seq<BlockLowering>) -> bool {
    exists|ai: int, turn: int| 0 <= ai < bs.len() && 0 <= turn < 2 && #[trigger] while_body(bs, ai, turn) is Some
}

/// Whether `bs1` is `bs0` rewritten by the `while` rule somewhere.
pub open spec fn while_rewrites(bs0: Seq<BlockLowering>, bs1: Seq<BlockLowering>) -> bool {
    exists|ai: int, turn: int|
        0 <= ai < bs0.len() && 0 <= turn < 2 && (#[trigger] while_body(bs0, ai, turn) matches Some(bi) && while_step(
            bs0,
            bs1,
            ai,
            bi,
            turn,
        )) && (forall|k: int, t: int|
            0 <= k && 0 <= t < 2 && (k < ai || (k == ai && t < turn)) ==> #[trigger] while_body(bs0, k, t) is None)
}

/// One reduction step: the first rule, in the fixed order, that applies
/// anywhere rewrites the blocks, at the first position (and, for rules
/// that try both successor orders, the first order) where it applies.
pub open spec fn reduce_step(bs0: Seq<BlockLowering>, bs1: Seq<BlockLowering>) -> bool {
    if short_circuit_applies(bs0) {
        short_circuit_rewrites(bs0, bs1)
    } else if seq_applies(bs0) {
        seq_rewrites(bs0, bs1)
    } else if self_loop_applies(bs0) {
        self_loop_rewrites(bs0, bs1)
    } else if if_else_applies(bs0) {
        if_else_rewrites(bs0, bs1)
    } else if if_applies(bs0) {
        if_rewrites(bs0, bs1)
    } else if while_applies(bs0) {
        while_rewrites(bs0, bs1)
    } else {
        false
    }
}

/// Whether no rule applies anywhere.
pub open spec fn irreducible(bs: Seq<BlockLowering>) -> bool {
    !short_circuit_applies(bs) && !seq_applies(bs) && !self_loop_applies(bs) && !if_else_applies(bs) && !if_applies(bs)
        && !while_applies(bs)
}

/// Whether each list in `chain` is the previous one after one reduction
/// step.
pub open spec fn is_reduction(chain: Seq<Seq<BlockLowering>>) -> bool {
    &&& chain.len() > 0
    &&& forall|i: int| 0 <= i < chain.len() - 1 ==> #[trigger] reduce_step(chain[i], chain[i + 1])
}

proof fn lemma_reduction_extend(chain: Seq<Seq<BlockLowering>>, next: Seq<BlockLowering>)
    requires
        is_reduction(chain),
        reduce_step(chain.last(), next),
    ensures
        is_reduction(chain.push(next)),
{
    let c2 = chain.push(next);
    assert forall|i: int| 0 <= i < c2.len() - 1 implies #[trigger] reduce_step(c2[i], c2[i + 1]) by {
        if i < chain.len() - 1 {
            assert(c2[i] == chain[i] && c2[i + 1] == chain[i + 1]);
            assert(reduce_step(chain[i], chain[i + 1]));
        } else {
            assert(c2[i] == chain.last() && c2[i + 1] == next);
        }
    }
}

/// Reduce a list of block lowerings into a flat body: the statements of
/// the entry block once every rule has been applied. An empty list gives
/// an empty body; a list without the entry block, or one that does not
/// reduce to the entry block alone, is an unsupported CFG.
pub fn lower_cfg(blocks: Vec<BlockLowering>, entry_name: &str) -> (r: Result<Vec<Statement>, QirToQasmError>)
    ensures
        blocks@.len() == 0 ==> (r matches Ok(v) && v@.len() == 0),
        blocks@.len() == 1 && blocks@[0].name@ == entry_name@ && blocks@[0].targets@.len() == 0 ==> r
            == Ok::<Vec<Statement>, QirToQasmError>(blocks@[0].statements),
        r matches Err(e) ==> e is UnsupportedCfg,
        (forall|i: int| 0 <= i < blocks@.len() ==> blocks@[i].name@ != entry_name@) && blocks@.len() > 0
            ==> r is Err,
        blocks@.len() > 0 && first_block(blocks@, entry_name@) is None ==> (r matches Err(e) && e is UnsupportedCfg
            && e.payload() == "entry block "@ + str_debug_text(entry_name@) + " not found among block lowerings"@),
        first_block(blocks@, entry_name@) is Some ==> exists|chain: Seq<Seq<BlockLowering>>|
            #[trigger] is_reduction(chain) && chain[0] == blocks@ && irreducible(chain.last()) && match r {
                Ok(v) => chain.last().len() == 1 && chain.last()[0].name@ == entry_name@ && v == chain.last()[0].statements,
                Err(e) => e is UnsupportedCfg && !(chain.last().len() == 1 && chain.last()[0].name@ == entry_name@)
                    && exists|ss: Seq<Seq<char>>| #[trigger] sorted_names_of(ss, chain.last()) && e.payload() == cfg_fail_msg(ss),
            },
{
    if blocks.len() == 0 {
        return Ok(Vec::new());
    }
    let entry = crate::text::owned(entry_name);
    if find_block(&blocks, &entry).is_none() {
        let mut m: Vec<char> = Vec::new();
        push_str(&mut m, "entry block ");
        push_debug_string(&mut m, &entry);
        push_str(&mut m, " not found among block lowerings");
        return Err(unsupported_cfg_err(&m));
    }
    let ghost b0 = blocks@;
    let mut bs = blocks;
    let ghost mut chain: Seq<Seq<BlockLowering>> = seq![b0];
    loop
        invariant
            b0.len() == 1 && b0[0].targets@.len() == 0 ==> bs@ == b0,
            b0 == blocks@,
            is_reduction(chain),
            chain[0] == b0,
            chain.last() == bs@,
        ensures
            irreducible(bs@),
        decreases bs@.len(), self_loops(bs@),
    {
        let ghost prev = bs@;
        if reduce_short_circuit_phi(&mut bs) {
            proof {
                assert(reduce_step(prev, bs@));
                lemma_reduction_extend(chain, bs@);
                chain = chain.push(bs@);
            }
            continue;
        }
        if reduce_sequential(&mut bs) {
            proof {
                assert(reduce_step(prev, bs@));
                lemma_reduction_extend(chain, bs@);
                chain = chain.push(bs@);
            }
            continue;
        }
        if reduce_self_loop(&mut bs) {
            proof {
                assert(reduce_step(prev, bs@));
                lemma_reduction_extend(chain, bs@);
                chain = chain.push(bs@);
            }
            continue;
        }
        if reduce_if_else(&mut bs) {
            proof {
                assert(reduce_step(prev, bs@));
                lemma_reduction_extend(chain, bs@);
                chain = chain.push(bs@);
            }
            continue;
        }
        if reduce_if_no_else(&mut bs) {
            proof {
                assert(reduce_step(prev, bs@));
                lemma_reduction_extend(chain, bs@);
                chain = chain.push(bs@);
            }
            continue;
        }
        if reduce_while(&mut bs) {
            proof {
                assert(reduce_step(prev, bs@));
                lemma_reduction_extend(chain, bs@);
                chain = chain.push(bs@);
            }
            continue;
        }
        proof {
            assert(irreducible(bs@));
        }
        break;
    }
    let ghost fin = bs@;
    if bs.len() == 1 && bs[0].name == entry {
        let b = bs.remove(0);
        proof {
            assert(is_reduction(chain) && chain[0] == blocks@ && irreducible(chain.last()));
        }
        return Ok(b.statements);
    }
    proof {
        assert(is_reduction(chain) && chain[0] == blocks@ && irreducible(chain.last()));
    }
    let names = sorted_names(&bs);
    let mut m: Vec<char> = Vec::new();
    push_str(&mut m, "could not reduce CFG to a single block; remaining blocks: ");
    crate::builders::push_list_debug(&mut m, &names);
    push_str(
        &mut m,
        ". qirtoqasm supports only structured control flow (sequence, if/else, simple while).",
    );
    Err(unsupported_cfg_err(&m))
}

} // verus!
