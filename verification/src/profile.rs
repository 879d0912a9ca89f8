//! Builder registry keyed by QIR function name.
use vstd::prelude::*;

use indexmap::IndexMap;

use crate::ordered_map::{
    builder_entries, builder_map_contains_key, builder_map_get, builder_map_get_index,
    builder_map_insert, builder_map_len, builder_map_new, distinct_keys, entries_get,
    entries_insert, key_index, lemma_entries_insert, lemma_key_index,
};
use crate::text::{chars_of_string, has_prefix, has_suffix, owned, push_str, starts_with_lit, string_of};

verus! {

/// Classification of what a QIR intrinsic lowers to.
#[derive(Debug, Clone)]
pub enum FunctionBuilder {
    /// A gate application `<gate_name>(args...) qubits...;`, optionally
    /// with an `inv @` modifier.
    Gate {
        /// Emitted gate name (e.g. `"cnot"` for the `cx` QIR intrinsic).
        gate_name: String,
        /// Whether to emit `inv @` before this gate.
        adjoint: bool,
    },
    /// A single-qubit measurement: `c[i] = measure q[j];`.
    Measurement,
    /// Measure-and-reset: `c[i] = measure q[j]; reset q[j];`.
    MeasureAndReset,
    /// A qubit reset: `reset q[i];`.
    Reset,
    /// Binds an SSA result to `c[i]`.
    ReadResult,
    /// Drops the call (emits no statements).
    RecordOutputNoop,
    /// The variadic `generalizedInvokeWithRotationsControlsTargets` intrinsic.
    GeneralizedControlled,
}

/// A copy of a builder, equal to it.
pub fn copy_builder(b: &FunctionBuilder) -> (r: FunctionBuilder)
    ensures
        r == *b,
{
    match b {
        FunctionBuilder::Gate { gate_name, adjoint } => FunctionBuilder::Gate {
            gate_name: gate_name.clone(),
            adjoint: *adjoint,
        },
        FunctionBuilder::Measurement => FunctionBuilder::Measurement,
        FunctionBuilder::MeasureAndReset => FunctionBuilder::MeasureAndReset,
        FunctionBuilder::Reset => FunctionBuilder::Reset,
        FunctionBuilder::ReadResult => FunctionBuilder::ReadResult,
        FunctionBuilder::RecordOutputNoop => FunctionBuilder::RecordOutputNoop,
        FunctionBuilder::GeneralizedControlled => FunctionBuilder::GeneralizedControlled,
    }
}

/// A set of [`FunctionBuilder`] registrations keyed by QIR function name.
#[derive(Debug, Clone)]
pub struct Profile {
    /// Profile name (e.g. `"base_profile"`).
    pub name: String,
    builders: IndexMap<String, FunctionBuilder>,
}

/// The registrations after registering `(n, b)` for every pair of `regs`,
/// in order.
pub open spec fn register_all(
    e: Seq<(Seq<char>, FunctionBuilder)>,
    regs: Seq<(Seq<char>, FunctionBuilder)>,
) -> Seq<(Seq<char>, FunctionBuilder)>
    decreases regs.len(),
{
    if regs.len() == 0 {
        e
    } else {
        register_all(entries_insert(e, regs[0].0, regs[0].1), regs.subrange(1, regs.len() as int))
    }
}

/// Among `e[i..]`, the builder of the first entry whose key is a prefix of `name`.
pub open spec fn first_prefix_builder(
    e: Seq<(Seq<char>, FunctionBuilder)>,
    name: Seq<char>,
    i: int,
) -> Option<FunctionBuilder>
    decreases e.len() - i,
{
    if i < 0 || i >= e.len() {
        None
    } else if has_prefix(name, e[i].0) {
        Some(e[i].1)
    } else {
        first_prefix_builder(e, name, i + 1)
    }
}

/// The builder for `name`: the exact registration, or else, for an LLVM
/// intrinsic (`llvm.` prefix), the first registration whose key prefixes it.
pub open spec fn lookup_builder(e: Seq<(Seq<char>, FunctionBuilder)>, name: Seq<char>) -> Option<
    FunctionBuilder,
> {
    match entries_get(e, name) {
        Some(b) => Some(b),
        None => if has_prefix(name, "llvm."@) {
            first_prefix_builder(e, name, 0)
        } else {
            None
        },
    }
}

impl Profile {
    /// The registrations, in registration order.
    pub closed spec fn entries(self) -> Seq<(Seq<char>, FunctionBuilder)> {
        builder_entries(self.builders)
    }

    /// The profile's name.
    pub closed spec fn label(self) -> Seq<char> {
        self.name@
    }

    /// Registered names are pairwise distinct.
    pub open spec fn wf(self) -> bool {
        distinct_keys(self.entries())
    }

    /// Create an empty profile with the given name.
    pub fn new(name: &str) -> (r: Self)
        ensures
            r.wf(),
            r.label() == name@,
            r.entries() == Seq::<(Seq<char>, FunctionBuilder)>::empty(),
    {
        Profile { name: owned(name), builders: builder_map_new() }
    }

    /// Associate a QIR function name with a builder, overwriting any
    /// prior registration under the same name.
    pub fn register(&mut self, function_name: &str, builder: FunctionBuilder)
        requires
            old(self).wf(),
        ensures
            final(self).wf(),
            final(self).label() == old(self).label(),
            final(self).entries() == entries_insert(old(self).entries(), function_name@, builder),
    {
        proof {
            lemma_entries_insert(self.entries(), function_name@, builder);
        }
        builder_map_insert(&mut self.builders, owned(function_name), builder);
    }

    /// Look up the builder registered for `function_name`.
    ///
    /// Falls back to prefix matching for LLVM intrinsics (e.g.,
    /// `llvm.memcpy.p0i8.p0i8.i64` matches a registration for
    /// `llvm.memcpy`).
    pub fn get_builder(&self, function_name: &str) -> (r: Option<&FunctionBuilder>)
        requires
            self.wf(),
        ensures
            r matches Some(b) ==> lookup_builder(self.entries(), function_name@) == Some(*b),
            r is None ==> lookup_builder(self.entries(), function_name@) is None,
    {
        if let Some(b) = builder_map_get(&self.builders, function_name) {
            return Some(b);
        }
        let name = crate::text::chars_of(function_name);
        if starts_with_lit(&name, "llvm.") {
            let n = builder_map_len(&self.builders);
            let mut i: usize = 0;
            while i < n
                invariant
                    n == self.entries().len(),
                    i <= n,
                    name@ == function_name@,
                    entries_get(self.entries(), function_name@) is None,
                    has_prefix(function_name@, "llvm."@),
                    first_prefix_builder(self.entries(), name@, i as int) == first_prefix_builder(
                        self.entries(),
                        name@,
                        0,
                    ),
                decreases n - i,
            {
                if let Some((key, builder)) = builder_map_get_index(&self.builders, i) {
                    let k = chars_of_string(key);
                    if crate::text::chars_at(&name, 0, &k) {
                        return Some(builder);
                    }
                }
                i = i + 1;
            }
        }
        None
    }

    /// A copy of the profile: same name, same registrations in the same
    /// order.
    pub fn copy(&self) -> (r: Self)
        requires
            self.wf(),
        ensures
            r.wf(),
            r.label() == self.label(),
            r.entries() == self.entries(),
    {
        let mut out = Profile::new(self.name.as_str());
        let n = builder_map_len(&self.builders);
        let mut i: usize = 0;
        while i < n
            invariant
                n == self.entries().len(),
                i <= n,
                self.wf(),
                out.wf(),
                out.label() == self.label(),
                out.entries() == self.entries().subrange(0, i as int),
            decreases n - i,
        {
            if let Some((key, builder)) = builder_map_get_index(&self.builders, i) {
                let ghost e = self.entries();
                let ghost pre = out.entries();
                proof {
                    lemma_key_index(pre, key@);
                    if let Some(j) = key_index(pre, key@) {
                        assert(pre[j] == e[j]);
                        assert(false);
                    }
                }
                builder_map_insert(&mut out.builders, key.clone(), copy_builder(builder));
                proof {
                    assert(e.subrange(0, i + 1) =~= pre.push(e[i as int]));
                    assert(out.entries() =~= e.subrange(0, i + 1));
                }
            }
            i = i + 1;
        }
        proof {
            assert(self.entries().subrange(0, n as int) =~= self.entries());
        }
        out
    }

    /// Whether `function_name` has an exact registration.
    pub fn contains(&self, function_name: &str) -> (r: bool)
        requires
            self.wf(),
        ensures
            r == (entries_get(self.entries(), function_name@) is Some),
    {
        builder_map_contains_key(&self.builders, function_name)
    }
}

/// `register` followed by a lookup of the same name finds what was registered.
pub proof fn law_register_then_get(p: Profile, q: Profile, name: Seq<char>, b: FunctionBuilder)
    requires
        p.wf(),
        q.entries() == entries_insert(p.entries(), name, b),
    ensures
        lookup_builder(q.entries(), name) == Some(b),
        entries_get(q.entries(), name) == Some(b),
{
    lemma_entries_insert(p.entries(), name, b);
}

/// Registering one name leaves every other exact registration as it was.
pub proof fn law_register_preserves_others(
    p: Profile,
    q: Profile,
    name: Seq<char>,
    b: FunctionBuilder,
    other: Seq<char>,
)
    requires
        p.wf(),
        q.entries() == entries_insert(p.entries(), name, b),
        other != name,
    ensures
        entries_get(q.entries(), other) == entries_get(p.entries(), other),
{
    lemma_entries_insert(p.entries(), name, b);
}

/// The registrations after registering every pair of `regs`, in order.
pub open spec fn register_seq(regs: Seq<(Seq<char>, FunctionBuilder)>) -> Seq<
    (Seq<char>, FunctionBuilder),
>
    decreases regs.len(),
{
    if regs.len() == 0 {
        Seq::empty()
    } else {
        entries_insert(register_seq(regs.drop_last()), regs.last().0, regs.last().1)
    }
}

/// The QIS gate table: (QIR-name suffix after `__quantum__qis__`,
/// Braket gate name, adjoint flag).
pub open spec fn gate_table() -> Seq<(Seq<char>, Seq<char>, bool)> {
    seq![
        ("h__body"@, "h"@, false),
        ("x__body"@, "x"@, false),
        ("y__body"@, "y"@, false),
        ("z__body"@, "z"@, false),
        ("s__body"@, "s"@, false),
        ("s__adj"@, "s"@, true),
        ("t__body"@, "t"@, false),
        ("t__adj"@, "t"@, true),
        ("cnot__body"@, "cnot"@, false),
        ("cx__body"@, "cnot"@, false),
        ("cy__body"@, "cy"@, false),
        ("cz__body"@, "cz"@, false),
        ("swap__body"@, "swap"@, false),
        ("rx__body"@, "rx"@, false),
        ("ry__body"@, "ry"@, false),
        ("rz__body"@, "rz"@, false),
        ("rxx__body"@, "xx"@, false),
        ("ryy__body"@, "yy"@, false),
        ("rzz__body"@, "zz"@, false),
        ("ccx__body"@, "ccnot"@, false),
        ("ccnot__body"@, "ccnot"@, false),
        ("phasedx__body"@, "prx"@, false),
    ]
}

pub proof fn lemma_suffix_last(s: Seq<char>, p: Seq<char>)
    requires
        has_suffix(s, p),
        p.len() > 0,
    ensures
        s.last() == p.last(),
{
    assert(s.subrange(s.len() - p.len(), s.len() as int)[p.len() - 1] == s.last());
}

/// In the table of gates, the adjoint flag is set exactly on the
/// `__quantum__qis__<g>__adj` intrinsics, all others being `__body`
/// intrinsics; an adjoint intrinsic maps to the plain gate `<g>` with the
/// flag set, so the call prints as `inv @ <g> ...`.
pub proof fn law_gate_table_adjoint()
    ensures
        forall|i: int|
            0 <= i < gate_table().len() ==> (#[trigger] gate_table()[i]).2 == has_suffix(
                gate_table()[i].0,
                "__adj"@,
            ),
        forall|i: int|
            0 <= i < gate_table().len() && !(#[trigger] gate_table()[i]).2 ==> has_suffix(
                gate_table()[i].0,
                "__body"@,
            ),
        forall|i: int|
            0 <= i < gate_table().len() && (#[trigger] gate_table()[i]).2 ==> gate_table()[i].0 == gate_table()[i].1
                + "__adj"@,
{
    reveal_strlit("__adj");
    reveal_strlit("__body");
    reveal_strlit("s");
    reveal_strlit("t");
    reveal_strlit("h__body");
    reveal_strlit("x__body");
    reveal_strlit("y__body");
    reveal_strlit("z__body");
    reveal_strlit("s__body");
    reveal_strlit("s__adj");
    reveal_strlit("t__body");
    reveal_strlit("t__adj");
    reveal_strlit("cnot__body");
    reveal_strlit("cx__body");
    reveal_strlit("cy__body");
    reveal_strlit("cz__body");
    reveal_strlit("swap__body");
    reveal_strlit("rx__body");
    reveal_strlit("ry__body");
    reveal_strlit("rz__body");
    reveal_strlit("rxx__body");
    reveal_strlit("ryy__body");
    reveal_strlit("rzz__body");
    reveal_strlit("ccx__body");
    reveal_strlit("ccnot__body");
    reveal_strlit("phasedx__body");
    assert forall|i: int| 0 <= i < gate_table().len() implies (#[trigger] gate_table()[i]).2 == has_suffix(
        gate_table()[i].0,
        "__adj"@,
    ) && (!gate_table()[i].2 ==> has_suffix(gate_table()[i].0, "__body"@)) && (gate_table()[i].2
        ==> gate_table()[i].0 == gate_table()[i].1 + "__adj"@) by {
        let r = gate_table()[i];
        if r.2 {
            assert(r.0.subrange(r.0.len() - 5, r.0.len() as int) =~= "__adj"@);
            assert(r.0 =~= r.1 + "__adj"@);
        } else {
            assert(r.0.last() == 'y');
            if has_suffix(r.0, "__adj"@) {
                lemma_suffix_last(r.0, "__adj"@);
            }
            assert(r.0.subrange(r.0.len() - 6, r.0.len() as int) =~= "__body"@);
        }
    }
}

/// Whether `b` is a gate builder `(gate, adjoint)`.
pub open spec fn is_gate_builder(b: FunctionBuilder, gate: Seq<char>, adjoint: bool) -> bool {
    b matches FunctionBuilder::Gate { gate_name, adjoint: a } && gate_name@ == gate && a == adjoint
}

/// Gate registrations: `__quantum__qis__<suffix>` mapped to the
/// builders `gs`, one per row of a table of gates.
pub open spec fn gate_regs(gs: Seq<FunctionBuilder>) -> Seq<(Seq<char>, FunctionBuilder)> {
    Seq::new(gate_table().len(), |i: int| ("__quantum__qis__"@ + gate_table()[i].0, gs[i]))
}

/// Whether `gs` holds, row by row, a gate builder for each table row.
pub open spec fn gate_builders_match(gs: Seq<FunctionBuilder>) -> bool {
    &&& gs.len() == gate_table().len()
    &&& forall|i: int|
        0 <= i < gs.len() ==> is_gate_builder(
            #[trigger] gs[i],
            gate_table()[i].1,
            gate_table()[i].2,
        )
}

/// The non-gate registrations.
pub open spec fn non_gate_table() -> Seq<(Seq<char>, FunctionBuilder)> {
    seq![
        ("__quantum__qis__mz__body"@, FunctionBuilder::Measurement),
        ("__quantum__qis__m__body"@, FunctionBuilder::Measurement),
        ("__quantum__qis__mresetz__body"@, FunctionBuilder::MeasureAndReset),
        ("__quantum__qis__reset__body"@, FunctionBuilder::Reset),
        ("__quantum__qis__read_result__body"@, FunctionBuilder::ReadResult),
        ("__quantum__rt__read_result"@, FunctionBuilder::ReadResult),
        ("generalizedInvokeWithRotationsControlsTargets"@, FunctionBuilder::GeneralizedControlled),
        ("__quantum__rt__result_record_output"@, FunctionBuilder::RecordOutputNoop),
        ("__quantum__rt__array_record_output"@, FunctionBuilder::RecordOutputNoop),
        ("__quantum__rt__tuple_record_output"@, FunctionBuilder::RecordOutputNoop),
        ("__quantum__rt__integer_record_output"@, FunctionBuilder::RecordOutputNoop),
        ("__quantum__rt__int_record_output"@, FunctionBuilder::RecordOutputNoop),
        ("__quantum__rt__bool_record_output"@, FunctionBuilder::RecordOutputNoop),
        ("__quantum__rt__double_record_output"@, FunctionBuilder::RecordOutputNoop),
        ("__quantum__rt__initialize"@, FunctionBuilder::RecordOutputNoop),
        ("malloc"@, FunctionBuilder::RecordOutputNoop),
        ("free"@, FunctionBuilder::RecordOutputNoop),
        ("llvm.memcpy"@, FunctionBuilder::RecordOutputNoop),
    ]
}

fn gate_rows() -> (v: Vec<(&'static str, &'static str, bool)>)
    ensures
        v@.len() == gate_table().len(),
        forall|i: int|
            0 <= i < v@.len() ==> (#[trigger] v@[i]).0@ == gate_table()[i].0 && v@[i].1@
                == gate_table()[i].1 && v@[i].2 == gate_table()[i].2,
{
    let v = vec![
        ("h__body", "h", false),
        ("x__body", "x", false),
        ("y__body", "y", false),
        ("z__body", "z", false),
        ("s__body", "s", false),
        ("s__adj", "s", true),
        ("t__body", "t", false),
        ("t__adj", "t", true),
        ("cnot__body", "cnot", false),
        ("cx__body", "cnot", false),
        ("cy__body", "cy", false),
        ("cz__body", "cz", false),
        ("swap__body", "swap", false),
        ("rx__body", "rx", false),
        ("ry__body", "ry", false),
        ("rz__body", "rz", false),
        ("rxx__body", "xx", false),
        ("ryy__body", "yy", false),
        ("rzz__body", "zz", false),
        ("ccx__body", "ccnot", false),
        ("ccnot__body", "ccnot", false),
        ("phasedx__body", "prx", false),
    ];
    v
}

fn non_gate_rows() -> (v: Vec<(&'static str, FunctionBuilder)>)
    ensures
        v@.len() == non_gate_table().len(),
        forall|i: int|
            0 <= i < v@.len() ==> (#[trigger] v@[i]).0@ == non_gate_table()[i].0 && v@[i].1
                == non_gate_table()[i].1,
{
    let v = vec![
        ("__quantum__qis__mz__body", FunctionBuilder::Measurement),
        ("__quantum__qis__m__body", FunctionBuilder::Measurement),
        ("__quantum__qis__mresetz__body", FunctionBuilder::MeasureAndReset),
        ("__quantum__qis__reset__body", FunctionBuilder::Reset),
        ("__quantum__qis__read_result__body", FunctionBuilder::ReadResult),
        ("__quantum__rt__read_result", FunctionBuilder::ReadResult),
        ("generalizedInvokeWithRotationsControlsTargets", FunctionBuilder::GeneralizedControlled),
        ("__quantum__rt__result_record_output", FunctionBuilder::RecordOutputNoop),
        ("__quantum__rt__array_record_output", FunctionBuilder::RecordOutputNoop),
        ("__quantum__rt__tuple_record_output", FunctionBuilder::RecordOutputNoop),
        ("__quantum__rt__integer_record_output", FunctionBuilder::RecordOutputNoop),
        ("__quantum__rt__int_record_output", FunctionBuilder::RecordOutputNoop),
        ("__quantum__rt__bool_record_output", FunctionBuilder::RecordOutputNoop),
        ("__quantum__rt__double_record_output", FunctionBuilder::RecordOutputNoop),
        ("__quantum__rt__initialize", FunctionBuilder::RecordOutputNoop),
        ("malloc", FunctionBuilder::RecordOutputNoop),
        ("free", FunctionBuilder::RecordOutputNoop),
        ("llvm.memcpy", FunctionBuilder::RecordOutputNoop),
    ];
    v
}

/// Whether `p` is the base profile: labelled `base_profile`, with a row
/// for each entry of the table of gates, then the rows for measurement,
/// reset, output recording and the runtime.
pub open spec fn is_base_profile(p: Profile) -> bool {
    &&& p.wf()
    &&& p.label() == "base_profile"@
    &&& exists|gs: Seq<FunctionBuilder>|
        #[trigger] gate_builders_match(gs) && p.entries() == register_seq(gate_regs(gs) + non_gate_table())
}

/// Construct the default `BaseProfile` registrations.
///
/// Each entry maps a QIR function name (the `__quantum__qis__*` and
/// `__quantum__rt__*` intrinsics that QIR producers emit) to the builder
/// that lowers it. Gate names are the Braket-native spellings (`cnot`,
/// `ccnot`, `xx` / `yy` / `zz`, `prx`, ...), so the emitted program needs
/// no further rewriting.
pub fn base_profile() -> (p: Profile)
    ensures
        is_base_profile(p),
{
    let mut p = Profile::new("base_profile");
    let rows = gate_rows();
    let ghost mut gs: Seq<FunctionBuilder> = Seq::empty();
    let mut i: usize = 0;
    while i < rows.len()
        invariant
            p.wf(),
            p.label() == "base_profile"@,
            i <= rows@.len(),
            rows@.len() == gate_table().len(),
            forall|j: int|
                0 <= j < rows@.len() ==> (#[trigger] rows@[j]).0@ == gate_table()[j].0
                    && rows@[j].1@ == gate_table()[j].1 && rows@[j].2 == gate_table()[j].2,
            gs.len() == i,
            forall|j: int|
                0 <= j < i ==> is_gate_builder(#[trigger] gs[j], gate_table()[j].1, gate_table()[j].2),
            p.entries() == register_seq(gate_regs_prefix(gs)),
        decreases rows@.len() - i,
    {
        let (suffix, gate, adjoint) = rows[i];
        let mut key: Vec<char> = Vec::new();
        push_str(&mut key, "__quantum__qis__");
        push_str(&mut key, suffix);
        let b = FunctionBuilder::Gate { gate_name: owned(gate), adjoint };
        let k = string_of(&key);
        proof {
            lemma_entries_insert(p.entries(), k@, b);
            let gs2 = gs.push(b);
            assert(gate_regs_prefix(gs2).drop_last() =~= gate_regs_prefix(gs));
            gs = gs2;
        }
        builder_map_insert(&mut p.builders, k, b);
        i = i + 1;
    }
    let rows2 = non_gate_rows();
    let ghost base = gate_regs_prefix(gs);
    let mut j: usize = 0;
    while j < rows2.len()
        invariant
            p.wf(),
            p.label() == "base_profile"@,
            j <= rows2@.len(),
            rows2@.len() == non_gate_table().len(),
            forall|k: int|
                0 <= k < rows2@.len() ==> (#[trigger] rows2@[k]).0@ == non_gate_table()[k].0
                    && rows2@[k].1 == non_gate_table()[k].1,
            p.entries() == register_seq(base + non_gate_table().take(j as int)),
        decreases rows2@.len() - j,
    {
        let name = rows2[j].0;
        let builder = copy_builder(&rows2[j].1);
        proof {
            assert((base + non_gate_table().take(j + 1)).drop_last() =~= base
                + non_gate_table().take(j as int));
        }
        p.register(name, builder);
        j = j + 1;
    }
    proof {
        assert(non_gate_table().take(j as int) =~= non_gate_table());
        assert(gate_regs_prefix(gs) =~= gate_regs(gs));
        assert(gate_builders_match(gs));
        assert(gate_builders_match(gs) && p.entries() == register_seq(
            gate_regs(gs) + non_gate_table(),
        ));
    }
    p
}

/// Gate registrations for the first `gs.len()` rows of a table of gates.
pub open spec fn gate_regs_prefix(gs: Seq<FunctionBuilder>) -> Seq<(Seq<char>, FunctionBuilder)> {
    Seq::new(gs.len(), |i: int| ("__quantum__qis__"@ + gate_table()[i].0, gs[i]))
}

} // verus!
