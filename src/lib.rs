//! A compiler from a small Lisp-like testing language to command scripts
//! for a scoreboard-based command runtime.

pub mod assign_homes;
pub mod cfg;
pub mod datapack;
pub mod desugar_asserts;
pub mod emit_text;
pub mod error;
pub mod insert_jmps;
pub mod lex;
pub mod linearize;
pub mod parse;
pub mod reify_locations;
pub mod runtime;
pub mod select_instructions;
pub mod seqs;
pub mod utility;
pub mod uniquify;
pub mod var;

use vstd::prelude::*;
use crate::datapack::Datapack;
use crate::error::CompileError;

verus! {

/// Compiles a source program into a package of command scripts: lexing, parsing,
/// unique naming, assertion desugaring, linearization, instruction selection, register
/// allocation, jump insertion, stack reification and emission.
pub fn compile(source: &str) -> (r: Result<Datapack, CompileError>)
    ensures
        r is Ok ==> r->Ok_0.description@ == "Datapack generated by MCML"@,
        r is Ok ==> r->Ok_0.pack_format == 18,
        r is Ok ==> r->Ok_0.functions@.len() >= 3,
        r is Ok ==> forall|f: int|
            0 <= f < r->Ok_0.functions@.len() ==> (#[trigger] r->Ok_0.functions@[f]).namespace@ == "mctest"@,
        r is Ok ==> r->Ok_0.functions@[0].name@ == "push"@ && r->Ok_0.functions@[0].content@ == runtime::push_text(),
        r is Ok ==> r->Ok_0.functions@[1].name@ == "pop"@ && r->Ok_0.functions@[1].content@ == runtime::pop_text(),
        r is Ok ==> r->Ok_0.functions@.last().name@ == "run"@,
        r is Ok ==> compiled(source@, r->Ok_0.functions@),
        forall|e: CompileError| #[trigger] lex::lex_fails_with(source@, e) ==> r == Err::<Datapack, CompileError>(e),
        r is Err ==> r->Err_0 != CompileError::Internal && r->Err_0 != CompileError::CyclicControlFlow,
        r is Err && r->Err_0 is Syntax ==> parse_fails_with(source@, r->Err_0),
        r is Err && r->Err_0 is UnboundVariable ==> name_unbound(source@, r->Err_0->UnboundVariable_0@),
{
    let lexed = lex::lex(source);
    proof {
        assert forall|e: CompileError| #[trigger] lex::lex_fails_with(source@, e) implies lexed == Err::<
            Vec<lex::Token>,
            CompileError,
        >(e) by {
            let t2 = choose|t: Seq<lex::Token>| lex::lexes(source@, 0, t, Some(e));
            match lexed {
                Ok(t) => {
                    lex::lemma_lex_error_unique(source@, 0, t@, None, t2, Some(e));
                },
                Err(e1) => {
                    let t1 = choose|t: Seq<lex::Token>| lex::lexes(source@, 0, t, Some(e1));
                    lex::lemma_lex_error_unique(source@, 0, t1, Some(e1), t2, Some(e));
                },
            }
        }
    }
    let tokens = match lexed {
        Ok(t) => t,
        Err(e) => {
            return Err(e);
        },
    };
    let ghost toks0 = tokens@;
    let defs = match parse::parse(tokens) {
        Ok(d) => d,
        Err(e) => {
            proof {
                assert(lex::lexes(source@, 0, toks0, None) && parse::program_from(toks0) == Err::<
                    Seq<(String, Seq<parse::Statement>)>,
                    CompileError,
                >(e));
                assert(parse_fails_with(source@, e));
            }
            return Err(e);
        },
    };
    let ghost defs0 = defs@;
    let unique = match uniquify::uniquify(defs) {
        Ok(u) => u,
        Err(e) => {
            proof {
                if e is UnboundVariable {
                    let n = e->UnboundVariable_0@;
                    let d = choose|d: int| 0 <= d < defs0.len() && uniquify::unbound_in(uniquify::source_stmts(#[trigger] defs0[d]), n);
                    assert(parse::def_parts(defs0[d]) == parse::program_from(toks0)->Ok_0[d]);
                    assert(uniquify::source_stmts(defs0[d]) == parse::program_from(toks0)->Ok_0[d].1);
                    assert(unbound_in_parsed(parse::program_from(toks0)->Ok_0, n));
                    assert(name_unbound(source@, n));
                }
            }
            return Err(e);
        },
    };
    let desugared = desugar_asserts::desugar_asserts(unique);
    let linear = linearize::linearize(desugared)?;
    let selected = select_instructions::select_instructions(linear)?;
    let homed = assign_homes::assign_homes(selected)?;
    let jumped = insert_jmps::insert_jmps(homed);
    let reified = reify_locations::reify_location(jumped);
    let functions = emit_text::emit_text(reified);
    let ghost toks = tokens@;
    let d = Datapack { description: String::from_str("Datapack generated by MCML"), pack_format: 18, functions };
    assert(compiled_from(source@, toks, d.functions@));
    assert(compiled(source@, d.functions@));
    Ok(d)
}

/// Some parsed test uses the name `n` before any `let` of it.
pub open spec fn unbound_in_parsed(ds: Seq<(String, Seq<parse::Statement>)>, n: Seq<char>) -> bool {
    exists|d: int| 0 <= d < ds.len() && #[trigger] uniquify::unbound_in(ds[d].1, n)
}

/// `source` lexes and parses, and some test uses the name `n` before any `let` of it.
pub open spec fn name_unbound(source: Seq<char>, n: Seq<char>) -> bool {
    exists|toks: Seq<lex::Token>|
        lex::lexes(source, 0, toks, None) && #[trigger] parse::program_from(toks) is Ok && unbound_in_parsed(
            parse::program_from(toks)->Ok_0,
            n,
        )
}

/// `source` lexes, and parsing its tokens fails with the error `e`.
pub open spec fn parse_fails_with(source: Seq<char>, e: CompileError) -> bool {
    exists|toks: Seq<lex::Token>|
        lex::lexes(source, 0, toks, None) && #[trigger] parse::program_from(toks) == Err::<
            Seq<(String, Seq<parse::Statement>)>,
            CompileError,
        >(e)
}

/// The scripts `fs` compile `source`.
pub open spec fn compiled(source: Seq<char>, fs: Seq<datapack::Function>) -> bool {
    exists|toks: Seq<lex::Token>| #[trigger] compiled_from(source, toks, fs)
}

/// The scripts `fs` compile the tokens `toks` of `source`: the source lexes to them, they
/// parse, and `run` calls one `testN` script for each test definition, whose names are
/// `test0`, `test1`, and so on after the `push` and `pop` helpers.
pub open spec fn compiled_from(source: Seq<char>, toks: Seq<lex::Token>, fs: Seq<datapack::Function>) -> bool {
    &&& lex::lexes(source, 0, toks, None)
    &&& parse::program_from(toks) is Ok
    &&& fs.len() >= 3 + parse::program_from(toks)->Ok_0.len()
    &&& fs.last().content@ == emit_text::run_text_of(parse::program_from(toks)->Ok_0.len())
    &&& forall|t: int|
        0 <= t < parse::program_from(toks)->Ok_0.len() ==> (#[trigger] fs[2 + t]).name@ == "test"@
            + utility::decimal(t)
}

} // verus!
