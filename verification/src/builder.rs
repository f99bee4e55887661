//! The compile pipeline: grammar text to frozen automaton.
//!
//! Scanning, parsing, normalization and the freeze run in order; the first
//! failing stage aborts the whole compilation and no partial automaton is
//! produced. A successful compile leaves a well-formed frozen graph that
//! [`GraphBuilder::take_graph`] hands out for walking.

use vstd::prelude::*;
use crate::frozen::{
    name_id, nodes_closed, walk_fuel, CompileDefect, FrozenModel, FrozenSyntaxGraph, GenError,
    WalkStatus, STEP_CAP,
};
use crate::graph::SyntaxGraph;
use crate::parser::{
    err_view, errors_view, initial_parser_model, names_pairs, spec_parse_grammar_from,
    undeclared_v, undef_views, ErrorModel, ParseError, Parser,
};
use crate::prng::PRNG;
use crate::scanner::{error_views, scan_from, ScanError, Scanner};

verus! {

/// Why a compilation failed: the stage that rejected the grammar and its
/// first error.
#[derive(Debug, Clone)]
pub enum GrammarError {
    /// Scanning found an unterminated delimited token.
    Scan(ScanError),
    /// Parsing found a syntax defect or an undefined rule reference.
    Parse(ParseError),
    /// Freezing found a dangling node reference: an internal invariant
    /// violation that well-formed parser output never produces.
    Defect(CompileDefect),
}

/// What compiling a grammar text leaves behind: the stage that rejected it
/// with its first error, or the compiled automaton's model.
pub enum CompileModel {
    /// The first scan error: its position and message.
    ScanFail((int, Seq<char>)),
    /// The first parse-stage error: a syntax defect, or the first
    /// referenced-never-declared rule name.
    ParseFail(ErrorModel),
    /// A dangling reference at the freeze: unreachable from parser output,
    /// checked all the same.
    DefectFail,
    /// The automaton: the normalized parse of the grammar, frozen.
    Built(FrozenModel),
}

/// The whole compile pipeline as one function of the grammar text: scan,
/// parse, the undefined-reference check, normalization, freeze.
pub open spec fn spec_compile(text: Seq<char>) -> CompileModel {
    let scanned = scan_from(text, 0);
    if scanned.1.len() > 0 {
        CompileModel::ScanFail(scanned.1[0])
    } else {
        let st = spec_parse_grammar_from(initial_parser_model(scanned.0));
        if st.errors.len() > 0 {
            CompileModel::ParseFail(st.errors[0])
        } else {
            let undecl = undeclared_v(st.names, 0);
            if undecl.len() > 0 {
                CompileModel::ParseFail(ErrorModel::UndefinedReference(undecl[0]))
            } else {
                let m = FrozenModel {
                    nodes: SyntaxGraph::normalized(st.graph),
                    names: names_pairs(st.names),
                    prints: st.charmap,
                    classes: st.classes,
                };
                if nodes_closed(m) {
                    CompileModel::Built(m)
                } else {
                    CompileModel::DefectFail
                }
            }
        }
    }
}

/// Drives one grammar through the pipeline and keeps the frozen result.
pub struct GraphBuilder {
    frozen: FrozenSyntaxGraph,
}

impl GraphBuilder {
    /// The builder's automaton is always well-formed: empty before the
    /// first successful compile, the compiled automaton after it.
    pub closed spec fn wf(self) -> bool {
        self.frozen.wf()
    }

    /// The model of the automaton the builder holds.
    pub closed spec fn frozen_view(self) -> FrozenModel {
        self.frozen@
    }

    /// A builder holding an empty automaton: every walk on it fails with an
    /// unknown start rule.
    pub fn new() -> (r: GraphBuilder)
        ensures
            r.wf(),
            r.frozen_view().names =~= Seq::<(Seq<char>, u32)>::empty(),
    {
        GraphBuilder { frozen: FrozenSyntaxGraph::empty() }
    }

    /// Hands out the compiled automaton.
    pub fn take_graph(self) -> (r: FrozenSyntaxGraph)
        requires
            self.wf(),
        ensures
            r.wf(),
            r@ == self.frozen_view(),
    {
        self.frozen
    }

    /// Compiles grammar text: scan, parse, the undefined-reference check,
    /// normalization, freeze. The result and the held automaton are exactly
    /// what [`spec_compile`] says of the grammar text: the first error of
    /// the stage that rejected it, or the freeze of the normalized parse; no
    /// partial automaton is ever kept.
    pub fn start_generation(&mut self, grammar: String) -> (r: Result<(), GrammarError>)
        requires
            old(self).wf(),
        ensures
            final(self).wf(),
            (match spec_compile(grammar@) {
                CompileModel::ScanFail(e) => {
                    &&& (r is Err)
                    &&& (r->Err_0 is Scan)
                    &&& r->Err_0->Scan_0@ == e
                    &&& final(self).frozen_view() == old(self).frozen_view()
                },
                CompileModel::ParseFail(e) => {
                    &&& (r is Err)
                    &&& (r->Err_0 is Parse)
                    &&& err_view(r->Err_0->Parse_0) == e
                    &&& final(self).frozen_view() == old(self).frozen_view()
                },
                CompileModel::DefectFail => {
                    &&& r == Err::<(), GrammarError>(
                        GrammarError::Defect(CompileDefect::DanglingReference),
                    )
                    &&& final(self).frozen_view() == old(self).frozen_view()
                },
                CompileModel::Built(m) => {
                    &&& (r is Ok)
                    &&& final(self).frozen_view() == m
                },
            }),
    {
        let sc = Scanner::new(grammar);
        let (tokens, errors) = sc.scan();
        if errors.len() > 0 {
            let first = &errors[0];
            let e = ScanError::new(first.pos, first.msg.clone());
            proof {
                assert(error_views(errors@)[0] == errors@[0]@);
            }
            return Err(GrammarError::Scan(e));
        }
        let mut pars = Parser::new();
        pars.set_tokens(tokens);
        proof {
            assert(pars.model() =~= initial_parser_model(scan_from(grammar@, 0).0));
        }
        pars.parse_grammar();
        let ghost st = spec_parse_grammar_from(initial_parser_model(scan_from(grammar@, 0).0));
        proof {
            assert(pars.model() == st);
        }
        let parse_errors = pars.get_errors();
        proof {
            assert(st.errors == errors_view(parse_errors@));
        }
        if parse_errors.len() > 0 {
            let e = Parser::copy_error(&parse_errors[0]);
            proof {
                assert(st.errors[0] == err_view(parse_errors@[0]));
                assert(err_view(e) == st.errors[0]);
            }
            return Err(GrammarError::Parse(e));
        }
        let undefined = pars.validate_graph();
        if undefined.len() > 0 {
            let e = Parser::copy_error(&undefined[0]);
            proof {
                assert(undef_views(undefined@)[0] == undefined@[0]->UndefinedReference_0@);
                assert(undef_views(undefined@)[0] == undeclared_v(st.names, 0)[0]);
                assert(undefined@[0] is UndefinedReference);
                assert(err_view(e) == ErrorModel::UndefinedReference(undeclared_v(st.names, 0)[0]));
            }
            return Err(GrammarError::Parse(e));
        }
        let parts = pars.into_parts();
        let mut graph: SyntaxGraph = parts.0;
        let charmap = parts.1;
        let name_map = parts.2;
        let regexer = parts.3;
        let ghost g0 = graph@;
        graph.normalize();
        proof {
            assert forall|i: int| 0 <= i < graph@.len() implies (#[trigger] graph@[i]).cf
                == crate::fixed::cdf_spec(crate::graph::weights_of(graph@[i])) by {
                assert(graph@[i] == SyntaxGraph::normalized(g0)[i]);
                assert(crate::graph::weights_of(graph@[i]) =~= crate::graph::weights_of(g0[i]));
            }
            assert(crate::frozen::nodes_normalized(graph@));
            assert(graph@ =~= SyntaxGraph::normalized(st.graph));
        }
        let ghost built = FrozenModel {
            nodes: SyntaxGraph::normalized(st.graph),
            names: names_pairs(st.names),
            prints: st.charmap,
            classes: st.classes,
        };
        proof {
            assert(crate::frozen::model_of(graph@, name_map@, charmap@, regexer@) =~= built) by {
                assert(Seq::new(name_map@.len(), |i: int| (name_map@[i].0@, name_map@[i].1))
                    =~= names_pairs(st.names));
                assert(Seq::new(charmap@.len(), |i: int| (charmap@[i].0, charmap@[i].1@))
                    =~= st.charmap);
            }
        }
        match FrozenSyntaxGraph::freeze(graph, name_map, charmap, regexer) {
            Ok(f) => {
                self.frozen = f;
                Ok(())
            },
            Err(d) => Err(GrammarError::Defect(d)),
        }
    }
}

/// Compiles grammar text into a frozen automaton, or reports the first
/// error of the stage that rejected it: success and the automaton are owed
/// exactly as [`spec_compile`] says.
pub fn compile(grammar_text: String) -> (r: Result<FrozenSyntaxGraph, GrammarError>)
    ensures
        (match spec_compile(grammar_text@) {
            CompileModel::ScanFail(e) => {
                &&& (r is Err)
                &&& (r->Err_0 is Scan)
                &&& r->Err_0->Scan_0@ == e
            },
            CompileModel::ParseFail(e) => {
                &&& (r is Err)
                &&& (r->Err_0 is Parse)
                &&& err_view(r->Err_0->Parse_0) == e
            },
            CompileModel::DefectFail => r == Err::<FrozenSyntaxGraph, GrammarError>(
                GrammarError::Defect(CompileDefect::DanglingReference),
            ),
            CompileModel::Built(m) => {
                &&& (r is Ok)
                &&& r->Ok_0.wf()
                &&& r->Ok_0@ == m
            },
        }),
{
    let mut gb = GraphBuilder::new();
    match gb.start_generation(grammar_text) {
        Ok(()) => Ok(gb.take_graph()),
        Err(e) => Err(e),
    }
}

/// Generates text from the automaton with a machine-entropy seed:
/// non-deterministic, but still exactly one [`walk_fuel`] outcome for
/// whatever seed the machine supplied.
pub fn generate(g: &FrozenSyntaxGraph, start_rule: String, tokens: usize) -> (r: Result<
    String,
    GenError,
>)
    requires
        g.wf(),
    ensures
        (match name_id(g@.names, start_rule@) {
            Some(id) => (r is Ok) && (exists|n0: u64|
                WalkStatus::Finished(r->Ok_0@) == walk_fuel(
                    g@,
                    id,
                    Seq::empty(),
                    0,
                    tokens as int,
                    Seq::empty(),
                    n0,
                    STEP_CAP as nat,
                )),
            None => r == Err::<String, GenError>(GenError::UnknownStart),
        }),
{
    let prng = PRNG::new(0);
    let ghost n0 = prng.state();
    let ghost key = start_rule@;
    let r = g.walk_graph(prng, start_rule, tokens);
    proof {
        if name_id(g@.names, key) is Some {
            let id = name_id(g@.names, key)->Some_0;
            assert(WalkStatus::Finished(r->Ok_0@) == walk_fuel(
                g@,
                id,
                Seq::empty(),
                0,
                tokens as int,
                Seq::empty(),
                n0,
                STEP_CAP as nat,
            ));
        }
    }
    r
}

/// Generates text from the automaton deterministically: the output is the
/// walk outcome of the automaton, the start rule's id, the budget and the
/// seed, and nothing else — equal seeds give byte-identical output.
pub fn generate_seeded(g: &FrozenSyntaxGraph, start_rule: String, seed: u64, tokens: usize) -> (r:
    Result<String, GenError>)
    requires
        g.wf(),
        seed != 0,
    ensures
        (match name_id(g@.names, start_rule@) {
            Some(id) => {
                &&& (r is Ok)
                &&& WalkStatus::Finished(r->Ok_0@) == walk_fuel(
                    g@,
                    id,
                    Seq::empty(),
                    0,
                    tokens as int,
                    Seq::empty(),
                    seed,
                    STEP_CAP as nat,
                )
            },
            None => r == Err::<String, GenError>(GenError::UnknownStart),
        }),
{
    let prng = PRNG::new(seed);
    g.walk_graph(prng, start_rule, tokens)
}

} // verus!
