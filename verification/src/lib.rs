//! qirtoqasm_core: QIR to Braket-compatible OpenQASM 3 translator.
//!
//! The public surface is [`translate`], [`TranslateOptions`],
//! [`QirToQasmError`] / [`Result`] and [`VERSION`]. The output comes as
//! a list of pieces: program text, and the floating-point literals, which
//! the caller formats and splices in with [`render`].
use vstd::prelude::*;

pub mod abi;
pub mod boolean;
pub mod builders;
pub mod cfg;
pub mod error;
pub mod ir;
pub mod oq3;
pub mod ordered_map;
pub mod profile;
pub mod signatures;
pub mod symbols;
pub mod text;
pub mod translator;

pub use error::{QirToQasmError, Result};
pub use oq3::printer::{render, QasmPiece};
pub use translator::VERSION;

use oq3::ast::Program;
use oq3::printer::{pieces_view, program_pieces, PieceView};
use text::{chars_of, owned};
use error::{err_view, ErrView};
use ir::parser::{fn_view, spec_parse_module, FunctionView};
use signatures::{spec_line_signatures, split_lines};
use ir::{Function, Module};
use profile::{is_base_profile, Profile};
use translator::{entry_profile, generated_by_text, includes_first, translation_fails, translation_of, Exporter};

verus! {

/// Tunables for [`translate`].
#[derive(Debug, Clone)]
#[non_exhaustive]
pub struct TranslateOptions {
    /// Upstream producer label surfaced as the `"producer"` field of the
    /// trailing `// generated-by:` comment. `None` or empty omits it.
    pub producer: Option<String>,
}

impl Default for TranslateOptions {
    fn default() -> (r: Self)
        ensures
            r.producer is None,
    {
        TranslateOptions { producer: None }
    }
}

/// The producer label a set of options puts on the generated-by line: the
/// label when it is non-empty.
pub open spec fn effective_producer(o: TranslateOptions) -> Option<Seq<char>> {
    match o.producer {
        Some(p) => if p@.len() > 0 {
            Some(p@)
        } else {
            None
        },
        None => None,
    }
}

impl TranslateOptions {
    /// Builder-style setter for the producer label. Empty clears it.
    pub fn with_producer(self, producer: &str) -> (r: Self)
        ensures
            match r.producer {
                Some(p) => producer@.len() > 0 && p@ == producer@,
                None => producer@.len() == 0,
            },
    {
        let c = chars_of(producer);
        let mut s = self;
        s.producer = if c.len() == 0 {
            None
        } else {
            Some(owned(producer))
        };
        s
    }
}

/// Parse QIR text and translate it to Braket-compatible OpenQASM 3.
/// The text parses as the module `m`; the program is `m`'s entry point
/// translated under the base profile, with no includes and plain `bit`
/// registers; on success the last piece is the `// generated-by:` line,
/// which carries the options' producer label exactly when it is set and
/// non-empty.
pub fn translate(qir_text: &str, options: &TranslateOptions) -> (r: Result<Vec<QasmPiece>>)
    ensures
        spec_parse_module(qir_text@) matches Err(e) ==> r matches Err(x) && err_view(x) == e,
        spec_parse_module(qir_text@) is Ok ==> (spec_line_signatures(split_lines(qir_text@)) matches Err(m) ==> r matches Err(
            x,
        ) && x is Syntax && x.payload() == m),
        r matches Err(x) ==> spec_parse_module(qir_text@) == Err::<Seq<FunctionView>, ErrView>(err_view(x)) || exists|
            m: Module,
            prof: Profile,
        |
            #![trigger translation_fails(prof, m, err_view(x))]
            m.source_text@ == qir_text@ && spec_parse_module(qir_text@) == Ok::<Seq<FunctionView>, ErrView>(
                m.functions@.map_values(|f: Function| fn_view(f)),
            ) && is_base_profile(prof) && translation_fails(prof, m, err_view(x)),
        r matches Ok(v) ==> exists|m: Module, prof: Profile, p: Program|
            #![trigger translation_of(prof, Seq::empty(), false, m, p)]
            m.source_text@ == qir_text@ && spec_parse_module(qir_text@) == Ok::<Seq<FunctionView>, ErrView>(
                m.functions@.map_values(|f: Function| fn_view(f)),
            ) && is_base_profile(prof) && translation_of(prof, Seq::empty(), false, m, p)
                && p.version@ == "3.0"@ && pieces_view(v@) == program_pieces(p).push(
                PieceView::Text(generated_by_text(entry_profile(m), effective_producer(*options))),
            ),
{
    let module = match ir::parser::parse_module(qir_text) {
        Ok(m) => m,
        Err(x) => {
            return Err(x);
        },
    };
    let mut exporter = Exporter::new();
    match &options.producer {
        Some(p) => {
            exporter = exporter.with_producer(p.as_str());
        },
        None => {},
    }
    let r = exporter.dumps(&module);
    proof {
        assert(exporter.includes() =~= Seq::<String>::empty());
        if r is Err {
            assert(translation_fails(exporter.active_profile(), module, err_view(r->Err_0)));
        }
        if r is Ok {
            let v = r->Ok_0;
            let p = choose|p: Program|
                #![trigger program_pieces(p)]
                p.version@ == "3.0"@ && includes_first(p.statements@, exporter.includes()) && translation_of(
                    exporter.active_profile(),
                    exporter.includes(),
                    exporter.output_declarations(),
                    module,
                    p,
                ) && pieces_view(v@) == program_pieces(p).push(
                    PieceView::Text(generated_by_text(entry_profile(module), exporter.producer_label())),
                );
            assert(translation_of(exporter.active_profile(), Seq::empty(), false, module, p));
        }
    }
    r
}

} // verus!
