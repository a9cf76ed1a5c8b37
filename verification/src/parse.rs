//! The parse engine: drives the token stream through the decision
//! procedure and the reduce dispatcher to a single final value.
//!
//! [`spec_run`] is the mathematical model of the engine; [`parse`] is
//! proved to agree with [`spec_parse`] on every input. The engine keeps
//! an explicit cursor that only ever advances by shifting, so a
//! lookahead that can neither shift nor take part in a reduction is
//! reported, never dropped.

use vstd::prelude::*;

use crate::action::action;
use crate::action::lemma_best_upto_matches;
use crate::action::spec_best_choice;
use crate::action::spec_best_upto;
use crate::action::spec_reduce_step;
use crate::grammar::NonTerminalKind;
use crate::grammar::Reducer;
use crate::grammar::SpecCell;
use crate::grammar::SpecElem;
use crate::grammar::SpecProd;
use crate::grammar::StackElement;
use crate::grammar::Symbol;
use crate::grammar::TerminalKind;
use crate::grammar::cells_view;
use crate::grammar::grammar;
use crate::grammar::lemma_cells_view_push;
use crate::grammar::spec_apply_reducer;
use crate::grammar::spec_cell_symbol;
use crate::grammar::stack_symbols;
use crate::grammar::the_grammar;
use crate::lexer::SpecToken;
use crate::lexer::TokenError;
use crate::lexer::lex;
use crate::lexer::spec_lex;
use crate::lexer::toks_view;
use crate::unmarshal::JsonValue;
use crate::unmarshal::SpecJson;
use crate::util::PrefixMatch;
use crate::util::ValueError;
use crate::util::check_prefix_exists;
use crate::util::get_value;
use crate::util::spec_check_prefix;
use crate::util::spec_decide;
use crate::util::spec_get_value;
use crate::util::spec_matches_exact;
use crate::util::spec_matches_longer;
use crate::util::spec_probe;

verus! {

/// Why a parse attempt failed; every failure ends the attempt.
#[derive(Clone, Copy, Debug, PartialEq, Eq, Structural)]
pub enum ParseError {
    /// The lexer rejected the input; no token list was produced.
    LexingError(TokenError),
    /// The stack did not collapse to exactly one value.
    ParsingError,
    /// No shift and no reduction was possible for this lookahead.
    UnexpectedToken(TerminalKind),
}

/// A termination rank for each grammar symbol: every reduction strictly
/// lowers the summed rank of the stack, so chains of reductions are
/// finite.
pub open spec fn sym_rank(s: Symbol) -> nat {
    match s {
        Symbol::NonTerminal(n) => match n {
            NonTerminalKind::Elements => 1,
            NonTerminalKind::Members => 1,
            NonTerminalKind::Element => 2,
            NonTerminalKind::Member => 2,
            NonTerminalKind::Value => 3,
            NonTerminalKind::Object => 4,
            NonTerminalKind::Array => 4,
            NonTerminalKind::Boolean => 4,
            NonTerminalKind::Number => 4,
            NonTerminalKind::Integer => 5,
            NonTerminalKind::Fraction => 5,
            NonTerminalKind::Exponent => 5,
        },
        Symbol::Terminal(t) => match t {
            TerminalKind::StringLiteral => 4,
            TerminalKind::NullLiteral => 4,
            TerminalKind::BoolLiteral => 5,
            _ => 6,
        },
    }
}

/// The summed rank of a symbol sequence.
pub open spec fn rank_sum(syms: Seq<Symbol>) -> nat
    decreases syms,
{
    if syms.len() == 0 {
        0
    } else {
        rank_sum(syms.drop_last()) + sym_rank(syms.last())
    }
}

/// Every production's right-hand side outranks its head.
pub open spec fn prod_rank_ok(p: SpecProd) -> bool {
    rank_sum(p.rhs) > sym_rank(Symbol::NonTerminal(p.lhs))
}

proof fn lemma_rank_sum1(a: Symbol)
    ensures
        rank_sum(seq![a]) == sym_rank(a),
{
    assert(seq![a].drop_last() =~= Seq::<Symbol>::empty());
    assert(seq![a].last() == a);
    assert(rank_sum(Seq::<Symbol>::empty()) == 0);
}

proof fn lemma_rank_sum2(a: Symbol, b: Symbol)
    ensures
        rank_sum(seq![a, b]) == sym_rank(a) + sym_rank(b),
{
    lemma_rank_sum1(a);
    assert(seq![a, b].drop_last() =~= seq![a]);
    assert(seq![a, b].last() == b);
}

proof fn lemma_rank_sum3(a: Symbol, b: Symbol, c: Symbol)
    ensures
        rank_sum(seq![a, b, c]) == sym_rank(a) + sym_rank(b) + sym_rank(c),
{
    lemma_rank_sum2(a, b);
    assert(seq![a, b, c].drop_last() =~= seq![a, b]);
    assert(seq![a, b, c].last() == c);
}

/// Every production of the table satisfies the rank condition.
#[verifier::rlimit(60)]
pub proof fn lemma_grammar_ranks()
    ensures
        the_grammar().len() == 25,
        forall|i: int|
            0 <= i < the_grammar().len() ==> prod_rank_ok(#[trigger] the_grammar()[i]),
{
    let g = the_grammar();
    assert(g.len() == 25);
    lemma_rank_sum1(Symbol::NonTerminal(NonTerminalKind::Object));
    assert(prod_rank_ok(g[0]));
    lemma_rank_sum1(Symbol::NonTerminal(NonTerminalKind::Array));
    assert(prod_rank_ok(g[1]));
    lemma_rank_sum1(Symbol::NonTerminal(NonTerminalKind::Number));
    assert(prod_rank_ok(g[2]));
    lemma_rank_sum1(Symbol::NonTerminal(NonTerminalKind::Boolean));
    assert(prod_rank_ok(g[3]));
    lemma_rank_sum1(Symbol::Terminal(TerminalKind::StringLiteral));
    assert(prod_rank_ok(g[4]));
    lemma_rank_sum1(Symbol::Terminal(TerminalKind::NullLiteral));
    assert(prod_rank_ok(g[5]));
    lemma_rank_sum1(Symbol::Terminal(TerminalKind::BoolLiteral));
    assert(prod_rank_ok(g[6]));
    lemma_rank_sum2(Symbol::Terminal(TerminalKind::ObjectStart), Symbol::Terminal(TerminalKind::ObjectEnd));
    assert(prod_rank_ok(g[7]));
    lemma_rank_sum3(Symbol::Terminal(TerminalKind::ObjectStart), Symbol::NonTerminal(NonTerminalKind::Members), Symbol::Terminal(TerminalKind::ObjectEnd));
    assert(prod_rank_ok(g[8]));
    lemma_rank_sum1(Symbol::NonTerminal(NonTerminalKind::Member));
    assert(prod_rank_ok(g[9]));
    lemma_rank_sum3(Symbol::NonTerminal(NonTerminalKind::Members), Symbol::Terminal(TerminalKind::Comma), Symbol::NonTerminal(NonTerminalKind::Member));
    assert(prod_rank_ok(g[10]));
    lemma_rank_sum3(Symbol::Terminal(TerminalKind::StringLiteral), Symbol::Terminal(TerminalKind::Colon), Symbol::NonTerminal(NonTerminalKind::Value));
    assert(prod_rank_ok(g[11]));
    lemma_rank_sum2(Symbol::Terminal(TerminalKind::ArrayStart), Symbol::Terminal(TerminalKind::ArrayEnd));
    assert(prod_rank_ok(g[12]));
    lemma_rank_sum3(Symbol::Terminal(TerminalKind::ArrayStart), Symbol::NonTerminal(NonTerminalKind::Elements), Symbol::Terminal(TerminalKind::ArrayEnd));
    assert(prod_rank_ok(g[13]));
    lemma_rank_sum1(Symbol::NonTerminal(NonTerminalKind::Element));
    assert(prod_rank_ok(g[14]));
    lemma_rank_sum3(Symbol::NonTerminal(NonTerminalKind::Elements), Symbol::Terminal(TerminalKind::Comma), Symbol::NonTerminal(NonTerminalKind::Element));
    assert(prod_rank_ok(g[15]));
    lemma_rank_sum1(Symbol::NonTerminal(NonTerminalKind::Value));
    assert(prod_rank_ok(g[16]));
    lemma_rank_sum3(Symbol::NonTerminal(NonTerminalKind::Integer), Symbol::NonTerminal(NonTerminalKind::Fraction), Symbol::NonTerminal(NonTerminalKind::Exponent));
    assert(prod_rank_ok(g[17]));
    lemma_rank_sum2(Symbol::NonTerminal(NonTerminalKind::Integer), Symbol::NonTerminal(NonTerminalKind::Fraction));
    assert(prod_rank_ok(g[18]));
    lemma_rank_sum2(Symbol::NonTerminal(NonTerminalKind::Integer), Symbol::NonTerminal(NonTerminalKind::Exponent));
    assert(prod_rank_ok(g[19]));
    lemma_rank_sum1(Symbol::NonTerminal(NonTerminalKind::Integer));
    assert(prod_rank_ok(g[20]));
    lemma_rank_sum1(Symbol::Terminal(TerminalKind::Digits));
    assert(prod_rank_ok(g[21]));
    lemma_rank_sum2(Symbol::Terminal(TerminalKind::Sign), Symbol::Terminal(TerminalKind::Digits));
    assert(prod_rank_ok(g[22]));
    lemma_rank_sum2(Symbol::Terminal(TerminalKind::FractionSymbol), Symbol::Terminal(TerminalKind::Digits));
    assert(prod_rank_ok(g[23]));
    lemma_rank_sum2(Symbol::Terminal(TerminalKind::ExponentMarker), Symbol::NonTerminal(NonTerminalKind::Integer));
    assert(prod_rank_ok(g[24]));
}

proof fn lemma_rank_sum_concat(a: Seq<Symbol>, b: Seq<Symbol>)
    ensures
        rank_sum(a + b) == rank_sum(a) + rank_sum(b),
    decreases b.len(),
{
    if b.len() == 0 {
        assert(a + b =~= a);
    } else {
        lemma_rank_sum_concat(a, b.drop_last());
        assert((a + b).drop_last() =~= a + b.drop_last());
        assert((a + b).last() == b.last());
        assert(rank_sum(a + b) == rank_sum(a + b.drop_last()) + sym_rank(b.last()));
    }
}

proof fn lemma_stack_symbols_subrange(cells: Seq<SpecCell>, a: int, b: int)
    requires
        0 <= a <= b <= cells.len(),
    ensures
        stack_symbols(cells.subrange(a, b)) == stack_symbols(cells).subrange(a, b),
{
    assert(stack_symbols(cells.subrange(a, b)) =~= stack_symbols(cells).subrange(a, b));
}

proof fn lemma_stack_symbols_push(cells: Seq<SpecCell>, c: SpecCell)
    ensures
        stack_symbols(cells.push(c)) == stack_symbols(cells).push(spec_cell_symbol(c)),
{
    assert(stack_symbols(cells.push(c)) =~= stack_symbols(cells).push(spec_cell_symbol(c)));
}

/// A dispatch that consumes cells strictly lowers the stack's summed
/// rank; one that consumes nothing leaves the stack unchanged.
pub proof fn lemma_reduce_step_rank(cells: Seq<SpecCell>)
    ensures
        spec_reduce_step(cells).1 > 0 ==> rank_sum(stack_symbols(spec_reduce_step(cells).0))
            < rank_sum(stack_symbols(cells)),
        spec_reduce_step(cells).1 == 0 ==> spec_reduce_step(cells).0 == cells,
{
    let syms = stack_symbols(cells);
    lemma_grammar_ranks();
    lemma_best_upto_matches(syms, the_grammar().len() as int);
    match spec_best_choice(syms) {
        Option::None => {},
        Option::Some(p) => {
            let k = the_grammar()[p].rhs.len() as int;
            let n = cells.len() as int;
            assert(prod_rank_ok(the_grammar()[p]));
            assert(rank_sum(the_grammar()[p].rhs) > 0);
            assert(k > 0);
            let prefix = cells.subrange(0, n - k);
            let new_cell = spec_reduce_step(cells).0.last();
            lemma_stack_symbols_subrange(cells, 0, n - k);
            lemma_stack_symbols_subrange(cells, n - k, n);
            lemma_stack_symbols_push(prefix, new_cell);
            assert(syms.subrange(n - k, n) == the_grammar()[p].rhs);
            assert(syms =~= syms.subrange(0, n - k) + syms.subrange(n - k, n));
            lemma_rank_sum_concat(syms.subrange(0, n - k), syms.subrange(n - k, n));
            assert(rank_sum(stack_symbols(prefix).push(spec_cell_symbol(new_cell)))
                == rank_sum(stack_symbols(prefix)) + sym_rank(spec_cell_symbol(new_cell))) by {
                assert(stack_symbols(prefix).push(spec_cell_symbol(new_cell)).drop_last()
                    =~= stack_symbols(prefix));
            }
            assert(spec_cell_symbol(new_cell) == Symbol::NonTerminal(the_grammar()[p].lhs));
        },
    }
}

/// The stack after the draining fixpoint: reductions are applied until
/// one consumes nothing.
pub open spec fn spec_drain(cells: Seq<SpecCell>) -> Seq<SpecCell>
    decreases rank_sum(stack_symbols(cells)),
{
    let step = spec_reduce_step(cells);
    if step.1 == 0 {
        cells
    } else {
        proof {
            lemma_reduce_step_rank(cells);
        }
        spec_drain(step.0)
    }
}

/// What a finished stack yields: exactly one reduced cell wrapping a
/// one-element array, whose element is the parse result; every other
/// shape is a parsing error.
pub open spec fn spec_finalize(cells: Seq<SpecCell>) -> Result<SpecJson, ParseError> {
    if cells.len() != 1 {
        Result::Err(ParseError::ParsingError)
    } else {
        match spec_get_value(cells) {
            Result::Ok(v) => Result::Ok(v),
            Result::Err(_) => Result::Err(ParseError::ParsingError),
        }
    }
}

/// The engine, one decision at a time: shift on any match, reduce once
/// after a full match, on no match reduce without shifting if the last
/// dispatch consumed cells, and otherwise report the lookahead; after
/// the last token, drain and finalize.
pub open spec fn spec_run(
    toks: Seq<SpecToken>,
    cells: Seq<SpecCell>,
    reduced: bool,
) -> Result<SpecJson, ParseError>
    decreases toks.len(), rank_sum(stack_symbols(cells)) + (if reduced {
        1nat
    } else {
        0nat
    }),
{
    if toks.len() == 0 {
        spec_finalize(spec_drain(cells))
    } else {
        let la = toks[0];
        let m = spec_decide(stack_symbols(cells), Symbol::Terminal(la.kind));
        if m == PrefixMatch::PartialMatch {
            spec_run(toks.drop_first(), cells.push(SpecCell::Terminal(la)), reduced)
        } else if m == PrefixMatch::FullMatch {
            let step = spec_reduce_step(cells.push(SpecCell::Terminal(la)));
            spec_run(toks.drop_first(), step.0, step.1 > 0)
        } else if !reduced {
            Result::Err(ParseError::UnexpectedToken(la.kind))
        } else {
            let step = spec_reduce_step(cells);
            proof {
                lemma_reduce_step_rank(cells);
            }
            spec_run(toks, step.0, step.1 > 0)
        }
    }
}

/// What parsing an input yields: the engine's result on its token
/// sequence, or the lexing failure.
pub open spec fn spec_parse(s: Seq<u8>) -> Result<SpecJson, ParseError> {
    match spec_lex(s) {
        Result::Ok(ts) => spec_run(ts, Seq::empty(), true),
        Result::Err(e) => Result::Err(ParseError::LexingError(e)),
    }
}

/// Parses one JSON document; agrees with [`spec_parse`] on every input.
pub fn parse(input: &[u8]) -> (r: Result<JsonValue, ParseError>)
    ensures
        r is Ok ==> spec_parse(input@) == Result::Ok::<SpecJson, ParseError>(r->Ok_0@),
        r is Err ==> spec_parse(input@) == Result::Err::<SpecJson, ParseError>(r->Err_0),
{
    let rules = grammar();
    let mut tokens: Vec<crate::lexer::Token> = match lex(input) {
        Result::Ok(t) => t,
        Result::Err(e) => {
            return Result::Err(ParseError::LexingError(e));
        },
    };
    let ghost target = spec_parse(input@);
    proof {
        assert(cells_view(Seq::<StackElement>::empty()) =~= Seq::<SpecCell>::empty());
    }
    let mut stack: Vec<StackElement> = Vec::new();
    let mut reduced_performed = true;
    proof {
        assert(stack@ =~= Seq::<StackElement>::empty());
        assert(target == spec_run(toks_view(tokens@), cells_view(stack@), reduced_performed));
    }
    while tokens.len() > 0
        invariant
            crate::grammar::rules_view(rules@) == the_grammar(),
            target == spec_run(toks_view(tokens@), cells_view(stack@), reduced_performed),
            target == spec_parse(input@),
        decreases toks_view(tokens@).len(), rank_sum(stack_symbols(cells_view(stack@))) + (
        if reduced_performed {
            1nat
        } else {
            0nat
        }),
    {
        let ghost tv0 = toks_view(tokens@);
        let ghost cv0 = cells_view(stack@);
        let ghost la = tokens@[0]@;
        proof {
            assert(tv0[0] == la);
        }
        let m = check_prefix_exists(&stack, &tokens[0], &rules);
        proof {
            assert(m == spec_decide(stack_symbols(cv0), Symbol::Terminal(la.kind)));
        }
        if m != PrefixMatch::NoMatch {
            let t = tokens.remove(0);
            proof {
                assert(toks_view(tokens@) =~= tv0.drop_first());
                lemma_cells_view_push(stack@, StackElement::Terminal(t));
            }
            stack.push(StackElement::Terminal(t));
            proof {
                assert(cells_view(stack@) == cv0.push(SpecCell::Terminal(la)));
            }
            if m == PrefixMatch::PartialMatch {
                proof {
                    assert(target == spec_run(
                        toks_view(tokens@),
                        cells_view(stack@),
                        reduced_performed,
                    ));
                }
                continue ;
            }
            let k = action(&mut stack, &rules);
            reduced_performed = k != 0;
            proof {
                assert(cells_view(stack@) == spec_reduce_step(cv0.push(
                    SpecCell::Terminal(la),
                )).0);
                assert(target == spec_run(
                    toks_view(tokens@),
                    cells_view(stack@),
                    reduced_performed,
                ));
                lemma_reduce_step_rank(cv0.push(SpecCell::Terminal(la)));
            }
        } else if !reduced_performed {
            proof {
                assert(target == Result::Err::<SpecJson, ParseError>(ParseError::UnexpectedToken(
                    la.kind,
                )));
            }
            return Result::Err(ParseError::UnexpectedToken(tokens[0].kind));
        } else {
            let k = action(&mut stack, &rules);
            reduced_performed = k != 0;
            proof {
                assert(cells_view(stack@) == spec_reduce_step(cv0).0);
                lemma_reduce_step_rank(cv0);
                assert(target == spec_run(
                    toks_view(tokens@),
                    cells_view(stack@),
                    reduced_performed,
                ));
            }
        }
    }
    proof {
        assert(toks_view(tokens@).len() == 0);
        assert(target == spec_finalize(spec_drain(cells_view(stack@))));
    }
    let mut done = false;
    while !done
        invariant
            crate::grammar::rules_view(rules@) == the_grammar(),
            target == spec_finalize(spec_drain(cells_view(stack@))),
            done ==> spec_drain(cells_view(stack@)) == cells_view(stack@),
        decreases rank_sum(stack_symbols(cells_view(stack@))) + (if done {
            0nat
        } else {
            1nat
        }),
    {
        let ghost cv0 = cells_view(stack@);
        let k = action(&mut stack, &rules);
        proof {
            lemma_reduce_step_rank(cv0);
        }
        if k == 0 {
            done = true;
        }
    }
    if stack.len() != 1 {
        return Result::Err(ParseError::ParsingError);
    }
    proof {
        assert(cells_view(stack@).len() == 1);
    }
    match get_value(stack) {
        Result::Ok(v) => Result::Ok(v),
        Result::Err(_) => Result::Err(ParseError::ParsingError),
    }
}

/// True iff production `j`'s right-hand side matches the top of a
/// stack with these symbols: the dispatcher's match condition.
pub open spec fn prod_matches(syms: Seq<Symbol>, j: int) -> bool {
    let k = the_grammar()[j].rhs.len();
    k <= syms.len() && syms.subrange(syms.len() - k, syms.len() as int) == the_grammar()[j].rhs
}

/// True iff `c` is a proper prefix of production `j`'s right-hand
/// side: the decision procedure's deferral condition.
pub open spec fn prod_extends(c: Seq<Symbol>, j: int) -> bool {
    c.len() < the_grammar()[j].rhs.len() && the_grammar()[j].rhs.take(c.len() as int) == c
}

proof fn lemma_best_upto_none(syms: Seq<Symbol>, n: int)
    requires
        0 <= n <= the_grammar().len(),
        forall|j: int| 0 <= j < n ==> !prod_matches(syms, j),
    ensures
        spec_best_upto(syms, n) is None,
    decreases n,
{
    if n > 0 {
        lemma_best_upto_none(syms, n - 1);
        assert(!prod_matches(syms, n - 1));
    }
}

proof fn lemma_best_upto_only(syms: Seq<Symbol>, p: int, n: int)
    requires
        0 <= p < n <= the_grammar().len(),
        prod_matches(syms, p),
        the_grammar()[p].rhs.len() > 0,
        forall|j: int| 0 <= j < n && j != p ==> !prod_matches(syms, j),
    ensures
        spec_best_upto(syms, n) == Option::Some(p),
    decreases n,
{
    if n - 1 == p {
        lemma_best_upto_none(syms, p);
    } else {
        lemma_best_upto_only(syms, p, n - 1);
        assert(!prod_matches(syms, n - 1));
    }
}

/// One dispatch on a single-cell stack whose only match is an
/// arity-one production `p`: the cell is replaced by the production's
/// labeled value.
proof fn lemma_reduce_single(cells: Seq<SpecCell>, p: int)
    requires
        cells.len() == 1,
        0 <= p < 25,
        the_grammar()[p].rhs.len() == 1,
        prod_matches(stack_symbols(cells), p),
        forall|j: int| 0 <= j < 25 && j != p ==> !prod_matches(stack_symbols(cells), j),
    ensures
        spec_reduce_step(cells).1 == 1,
        spec_reduce_step(cells).0 == Seq::<SpecCell>::empty().push(
            SpecCell::NonTerminal(
                SpecElem {
                    value: spec_apply_reducer(the_grammar()[p].reducer, cells),
                    element_type: the_grammar()[p].lhs,
                },
            ),
        ),
{
    assert(the_grammar().len() == 25);
    assert(stack_symbols(cells).len() == 1);
    lemma_best_upto_only(stack_symbols(cells), p, 25);
    assert(cells.subrange(0, 0) =~= Seq::<SpecCell>::empty());
    assert(cells.subrange(cells.len() - 1, cells.len() as int) =~= cells);
}

proof fn lemma_only_match_string_literal()
    ensures
        prod_matches(seq![Symbol::Terminal(TerminalKind::StringLiteral)], 4),
        forall|j: int| 0 <= j < 25 && j != 4 ==> !prod_matches(seq![Symbol::Terminal(TerminalKind::StringLiteral)], j),
{
    let sy = seq![Symbol::Terminal(TerminalKind::StringLiteral)];
    assert(sy.len() == 1);
    assert(prod_matches(sy, 4)) by {
        assert(sy.subrange(0, 1) =~= the_grammar()[4].rhs);
    }
    assert forall|j: int| 0 <= j < 25 && j != 4 implies !prod_matches(sy, j) by {
            if j == 0 {
                if prod_matches(sy, 0) {
                    assert(sy.subrange(0, 1) =~= sy);
                    assert(sy[0] == the_grammar()[0].rhs[0]);
                }
            } else if j == 1 {
                if prod_matches(sy, 1) {
                    assert(sy.subrange(0, 1) =~= sy);
                    assert(sy[0] == the_grammar()[1].rhs[0]);
                }
            } else if j == 2 {
                if prod_matches(sy, 2) {
                    assert(sy.subrange(0, 1) =~= sy);
                    assert(sy[0] == the_grammar()[2].rhs[0]);
                }
            } else if j == 3 {
                if prod_matches(sy, 3) {
                    assert(sy.subrange(0, 1) =~= sy);
                    assert(sy[0] == the_grammar()[3].rhs[0]);
                }
            } else if j == 5 {
                if prod_matches(sy, 5) {
                    assert(sy.subrange(0, 1) =~= sy);
                    assert(sy[0] == the_grammar()[5].rhs[0]);
                }
            } else if j == 6 {
                if prod_matches(sy, 6) {
                    assert(sy.subrange(0, 1) =~= sy);
                    assert(sy[0] == the_grammar()[6].rhs[0]);
                }
            } else if j == 7 {
                assert(the_grammar()[7].rhs.len() == 2);
            } else if j == 8 {
                assert(the_grammar()[8].rhs.len() == 3);
            } else if j == 9 {
                if prod_matches(sy, 9) {
                    assert(sy.subrange(0, 1) =~= sy);
                    assert(sy[0] == the_grammar()[9].rhs[0]);
                }
            } else if j == 10 {
                assert(the_grammar()[10].rhs.len() == 3);
            } else if j == 11 {
                assert(the_grammar()[11].rhs.len() == 3);
            } else if j == 12 {
                assert(the_grammar()[12].rhs.len() == 2);
            } else if j == 13 {
                assert(the_grammar()[13].rhs.len() == 3);
            } else if j == 14 {
                if prod_matches(sy, 14) {
                    assert(sy.subrange(0, 1) =~= sy);
                    assert(sy[0] == the_grammar()[14].rhs[0]);
                }
            } else if j == 15 {
                assert(the_grammar()[15].rhs.len() == 3);
            } else if j == 16 {
                if prod_matches(sy, 16) {
                    assert(sy.subrange(0, 1) =~= sy);
                    assert(sy[0] == the_grammar()[16].rhs[0]);
                }
            } else if j == 17 {
                assert(the_grammar()[17].rhs.len() == 3);
            } else if j == 18 {
                assert(the_grammar()[18].rhs.len() == 2);
            } else if j == 19 {
                assert(the_grammar()[19].rhs.len() == 2);
            } else if j == 20 {
                if prod_matches(sy, 20) {
                    assert(sy.subrange(0, 1) =~= sy);
                    assert(sy[0] == the_grammar()[20].rhs[0]);
                }
            } else if j == 21 {
                if prod_matches(sy, 21) {
                    assert(sy.subrange(0, 1) =~= sy);
                    assert(sy[0] == the_grammar()[21].rhs[0]);
                }
            } else if j == 22 {
                assert(the_grammar()[22].rhs.len() == 2);
            } else if j == 23 {
                assert(the_grammar()[23].rhs.len() == 2);
            } else if j == 24 {
                assert(the_grammar()[24].rhs.len() == 2);
            }
    }
}

proof fn lemma_only_match_bool_literal()
    ensures
        prod_matches(seq![Symbol::Terminal(TerminalKind::BoolLiteral)], 6),
        forall|j: int| 0 <= j < 25 && j != 6 ==> !prod_matches(seq![Symbol::Terminal(TerminalKind::BoolLiteral)], j),
{
    let sy = seq![Symbol::Terminal(TerminalKind::BoolLiteral)];
    assert(sy.len() == 1);
    assert(prod_matches(sy, 6)) by {
        assert(sy.subrange(0, 1) =~= the_grammar()[6].rhs);
    }
    assert forall|j: int| 0 <= j < 25 && j != 6 implies !prod_matches(sy, j) by {
            if j == 0 {
                if prod_matches(sy, 0) {
                    assert(sy.subrange(0, 1) =~= sy);
                    assert(sy[0] == the_grammar()[0].rhs[0]);
                }
            } else if j == 1 {
                if prod_matches(sy, 1) {
                    assert(sy.subrange(0, 1) =~= sy);
                    assert(sy[0] == the_grammar()[1].rhs[0]);
                }
            } else if j == 2 {
                if prod_matches(sy, 2) {
                    assert(sy.subrange(0, 1) =~= sy);
                    assert(sy[0] == the_grammar()[2].rhs[0]);
                }
            } else if j == 3 {
                if prod_matches(sy, 3) {
                    assert(sy.subrange(0, 1) =~= sy);
                    assert(sy[0] == the_grammar()[3].rhs[0]);
                }
            } else if j == 4 {
                if prod_matches(sy, 4) {
                    assert(sy.subrange(0, 1) =~= sy);
                    assert(sy[0] == the_grammar()[4].rhs[0]);
                }
            } else if j == 5 {
                if prod_matches(sy, 5) {
                    assert(sy.subrange(0, 1) =~= sy);
                    assert(sy[0] == the_grammar()[5].rhs[0]);
                }
            } else if j == 7 {
                assert(the_grammar()[7].rhs.len() == 2);
            } else if j == 8 {
                assert(the_grammar()[8].rhs.len() == 3);
            } else if j == 9 {
                if prod_matches(sy, 9) {
                    assert(sy.subrange(0, 1) =~= sy);
                    assert(sy[0] == the_grammar()[9].rhs[0]);
                }
            } else if j == 10 {
                assert(the_grammar()[10].rhs.len() == 3);
            } else if j == 11 {
                assert(the_grammar()[11].rhs.len() == 3);
            } else if j == 12 {
                assert(the_grammar()[12].rhs.len() == 2);
            } else if j == 13 {
                assert(the_grammar()[13].rhs.len() == 3);
            } else if j == 14 {
                if prod_matches(sy, 14) {
                    assert(sy.subrange(0, 1) =~= sy);
                    assert(sy[0] == the_grammar()[14].rhs[0]);
                }
            } else if j == 15 {
                assert(the_grammar()[15].rhs.len() == 3);
            } else if j == 16 {
                if prod_matches(sy, 16) {
                    assert(sy.subrange(0, 1) =~= sy);
                    assert(sy[0] == the_grammar()[16].rhs[0]);
                }
            } else if j == 17 {
                assert(the_grammar()[17].rhs.len() == 3);
            } else if j == 18 {
                assert(the_grammar()[18].rhs.len() == 2);
            } else if j == 19 {
                assert(the_grammar()[19].rhs.len() == 2);
            } else if j == 20 {
                if prod_matches(sy, 20) {
                    assert(sy.subrange(0, 1) =~= sy);
                    assert(sy[0] == the_grammar()[20].rhs[0]);
                }
            } else if j == 21 {
                if prod_matches(sy, 21) {
                    assert(sy.subrange(0, 1) =~= sy);
                    assert(sy[0] == the_grammar()[21].rhs[0]);
                }
            } else if j == 22 {
                assert(the_grammar()[22].rhs.len() == 2);
            } else if j == 23 {
                assert(the_grammar()[23].rhs.len() == 2);
            } else if j == 24 {
                assert(the_grammar()[24].rhs.len() == 2);
            }
    }
}

proof fn lemma_only_match_null_literal()
    ensures
        prod_matches(seq![Symbol::Terminal(TerminalKind::NullLiteral)], 5),
        forall|j: int| 0 <= j < 25 && j != 5 ==> !prod_matches(seq![Symbol::Terminal(TerminalKind::NullLiteral)], j),
{
    let sy = seq![Symbol::Terminal(TerminalKind::NullLiteral)];
    assert(sy.len() == 1);
    assert(prod_matches(sy, 5)) by {
        assert(sy.subrange(0, 1) =~= the_grammar()[5].rhs);
    }
    assert forall|j: int| 0 <= j < 25 && j != 5 implies !prod_matches(sy, j) by {
            if j == 0 {
                if prod_matches(sy, 0) {
                    assert(sy.subrange(0, 1) =~= sy);
                    assert(sy[0] == the_grammar()[0].rhs[0]);
                }
            } else if j == 1 {
                if prod_matches(sy, 1) {
                    assert(sy.subrange(0, 1) =~= sy);
                    assert(sy[0] == the_grammar()[1].rhs[0]);
                }
            } else if j == 2 {
                if prod_matches(sy, 2) {
                    assert(sy.subrange(0, 1) =~= sy);
                    assert(sy[0] == the_grammar()[2].rhs[0]);
                }
            } else if j == 3 {
                if prod_matches(sy, 3) {
                    assert(sy.subrange(0, 1) =~= sy);
                    assert(sy[0] == the_grammar()[3].rhs[0]);
                }
            } else if j == 4 {
                if prod_matches(sy, 4) {
                    assert(sy.subrange(0, 1) =~= sy);
                    assert(sy[0] == the_grammar()[4].rhs[0]);
                }
            } else if j == 6 {
                if prod_matches(sy, 6) {
                    assert(sy.subrange(0, 1) =~= sy);
                    assert(sy[0] == the_grammar()[6].rhs[0]);
                }
            } else if j == 7 {
                assert(the_grammar()[7].rhs.len() == 2);
            } else if j == 8 {
                assert(the_grammar()[8].rhs.len() == 3);
            } else if j == 9 {
                if prod_matches(sy, 9) {
                    assert(sy.subrange(0, 1) =~= sy);
                    assert(sy[0] == the_grammar()[9].rhs[0]);
                }
            } else if j == 10 {
                assert(the_grammar()[10].rhs.len() == 3);
            } else if j == 11 {
                assert(the_grammar()[11].rhs.len() == 3);
            } else if j == 12 {
                assert(the_grammar()[12].rhs.len() == 2);
            } else if j == 13 {
                assert(the_grammar()[13].rhs.len() == 3);
            } else if j == 14 {
                if prod_matches(sy, 14) {
                    assert(sy.subrange(0, 1) =~= sy);
                    assert(sy[0] == the_grammar()[14].rhs[0]);
                }
            } else if j == 15 {
                assert(the_grammar()[15].rhs.len() == 3);
            } else if j == 16 {
                if prod_matches(sy, 16) {
                    assert(sy.subrange(0, 1) =~= sy);
                    assert(sy[0] == the_grammar()[16].rhs[0]);
                }
            } else if j == 17 {
                assert(the_grammar()[17].rhs.len() == 3);
            } else if j == 18 {
                assert(the_grammar()[18].rhs.len() == 2);
            } else if j == 19 {
                assert(the_grammar()[19].rhs.len() == 2);
            } else if j == 20 {
                if prod_matches(sy, 20) {
                    assert(sy.subrange(0, 1) =~= sy);
                    assert(sy[0] == the_grammar()[20].rhs[0]);
                }
            } else if j == 21 {
                if prod_matches(sy, 21) {
                    assert(sy.subrange(0, 1) =~= sy);
                    assert(sy[0] == the_grammar()[21].rhs[0]);
                }
            } else if j == 22 {
                assert(the_grammar()[22].rhs.len() == 2);
            } else if j == 23 {
                assert(the_grammar()[23].rhs.len() == 2);
            } else if j == 24 {
                assert(the_grammar()[24].rhs.len() == 2);
            }
    }
}

proof fn lemma_only_match_value()
    ensures
        prod_matches(seq![Symbol::NonTerminal(NonTerminalKind::Value)], 16),
        forall|j: int| 0 <= j < 25 && j != 16 ==> !prod_matches(seq![Symbol::NonTerminal(NonTerminalKind::Value)], j),
{
    let sy = seq![Symbol::NonTerminal(NonTerminalKind::Value)];
    assert(sy.len() == 1);
    assert(prod_matches(sy, 16)) by {
        assert(sy.subrange(0, 1) =~= the_grammar()[16].rhs);
    }
    assert forall|j: int| 0 <= j < 25 && j != 16 implies !prod_matches(sy, j) by {
            if j == 0 {
                if prod_matches(sy, 0) {
                    assert(sy.subrange(0, 1) =~= sy);
                    assert(sy[0] == the_grammar()[0].rhs[0]);
                }
            } else if j == 1 {
                if prod_matches(sy, 1) {
                    assert(sy.subrange(0, 1) =~= sy);
                    assert(sy[0] == the_grammar()[1].rhs[0]);
                }
            } else if j == 2 {
                if prod_matches(sy, 2) {
                    assert(sy.subrange(0, 1) =~= sy);
                    assert(sy[0] == the_grammar()[2].rhs[0]);
                }
            } else if j == 3 {
                if prod_matches(sy, 3) {
                    assert(sy.subrange(0, 1) =~= sy);
                    assert(sy[0] == the_grammar()[3].rhs[0]);
                }
            } else if j == 4 {
                if prod_matches(sy, 4) {
                    assert(sy.subrange(0, 1) =~= sy);
                    assert(sy[0] == the_grammar()[4].rhs[0]);
                }
            } else if j == 5 {
                if prod_matches(sy, 5) {
                    assert(sy.subrange(0, 1) =~= sy);
                    assert(sy[0] == the_grammar()[5].rhs[0]);
                }
            } else if j == 6 {
                if prod_matches(sy, 6) {
                    assert(sy.subrange(0, 1) =~= sy);
                    assert(sy[0] == the_grammar()[6].rhs[0]);
                }
            } else if j == 7 {
                assert(the_grammar()[7].rhs.len() == 2);
            } else if j == 8 {
                assert(the_grammar()[8].rhs.len() == 3);
            } else if j == 9 {
                if prod_matches(sy, 9) {
                    assert(sy.subrange(0, 1) =~= sy);
                    assert(sy[0] == the_grammar()[9].rhs[0]);
                }
            } else if j == 10 {
                assert(the_grammar()[10].rhs.len() == 3);
            } else if j == 11 {
                assert(the_grammar()[11].rhs.len() == 3);
            } else if j == 12 {
                assert(the_grammar()[12].rhs.len() == 2);
            } else if j == 13 {
                assert(the_grammar()[13].rhs.len() == 3);
            } else if j == 14 {
                if prod_matches(sy, 14) {
                    assert(sy.subrange(0, 1) =~= sy);
                    assert(sy[0] == the_grammar()[14].rhs[0]);
                }
            } else if j == 15 {
                assert(the_grammar()[15].rhs.len() == 3);
            } else if j == 17 {
                assert(the_grammar()[17].rhs.len() == 3);
            } else if j == 18 {
                assert(the_grammar()[18].rhs.len() == 2);
            } else if j == 19 {
                assert(the_grammar()[19].rhs.len() == 2);
            } else if j == 20 {
                if prod_matches(sy, 20) {
                    assert(sy.subrange(0, 1) =~= sy);
                    assert(sy[0] == the_grammar()[20].rhs[0]);
                }
            } else if j == 21 {
                if prod_matches(sy, 21) {
                    assert(sy.subrange(0, 1) =~= sy);
                    assert(sy[0] == the_grammar()[21].rhs[0]);
                }
            } else if j == 22 {
                assert(the_grammar()[22].rhs.len() == 2);
            } else if j == 23 {
                assert(the_grammar()[23].rhs.len() == 2);
            } else if j == 24 {
                assert(the_grammar()[24].rhs.len() == 2);
            }
    }
}

proof fn lemma_only_match_element()
    ensures
        prod_matches(seq![Symbol::NonTerminal(NonTerminalKind::Element)], 14),
        forall|j: int| 0 <= j < 25 && j != 14 ==> !prod_matches(seq![Symbol::NonTerminal(NonTerminalKind::Element)], j),
{
    let sy = seq![Symbol::NonTerminal(NonTerminalKind::Element)];
    assert(sy.len() == 1);
    assert(prod_matches(sy, 14)) by {
        assert(sy.subrange(0, 1) =~= the_grammar()[14].rhs);
    }
    assert forall|j: int| 0 <= j < 25 && j != 14 implies !prod_matches(sy, j) by {
            if j == 0 {
                if prod_matches(sy, 0) {
                    assert(sy.subrange(0, 1) =~= sy);
                    assert(sy[0] == the_grammar()[0].rhs[0]);
                }
            } else if j == 1 {
                if prod_matches(sy, 1) {
                    assert(sy.subrange(0, 1) =~= sy);
                    assert(sy[0] == the_grammar()[1].rhs[0]);
                }
            } else if j == 2 {
                if prod_matches(sy, 2) {
                    assert(sy.subrange(0, 1) =~= sy);
                    assert(sy[0] == the_grammar()[2].rhs[0]);
                }
            } else if j == 3 {
                if prod_matches(sy, 3) {
                    assert(sy.subrange(0, 1) =~= sy);
                    assert(sy[0] == the_grammar()[3].rhs[0]);
                }
            } else if j == 4 {
                if prod_matches(sy, 4) {
                    assert(sy.subrange(0, 1) =~= sy);
                    assert(sy[0] == the_grammar()[4].rhs[0]);
                }
            } else if j == 5 {
                if prod_matches(sy, 5) {
                    assert(sy.subrange(0, 1) =~= sy);
                    assert(sy[0] == the_grammar()[5].rhs[0]);
                }
            } else if j == 6 {
                if prod_matches(sy, 6) {
                    assert(sy.subrange(0, 1) =~= sy);
                    assert(sy[0] == the_grammar()[6].rhs[0]);
                }
            } else if j == 7 {
                assert(the_grammar()[7].rhs.len() == 2);
            } else if j == 8 {
                assert(the_grammar()[8].rhs.len() == 3);
            } else if j == 9 {
                if prod_matches(sy, 9) {
                    assert(sy.subrange(0, 1) =~= sy);
                    assert(sy[0] == the_grammar()[9].rhs[0]);
                }
            } else if j == 10 {
                assert(the_grammar()[10].rhs.len() == 3);
            } else if j == 11 {
                assert(the_grammar()[11].rhs.len() == 3);
            } else if j == 12 {
                assert(the_grammar()[12].rhs.len() == 2);
            } else if j == 13 {
                assert(the_grammar()[13].rhs.len() == 3);
            } else if j == 15 {
                assert(the_grammar()[15].rhs.len() == 3);
            } else if j == 16 {
                if prod_matches(sy, 16) {
                    assert(sy.subrange(0, 1) =~= sy);
                    assert(sy[0] == the_grammar()[16].rhs[0]);
                }
            } else if j == 17 {
                assert(the_grammar()[17].rhs.len() == 3);
            } else if j == 18 {
                assert(the_grammar()[18].rhs.len() == 2);
            } else if j == 19 {
                assert(the_grammar()[19].rhs.len() == 2);
            } else if j == 20 {
                if prod_matches(sy, 20) {
                    assert(sy.subrange(0, 1) =~= sy);
                    assert(sy[0] == the_grammar()[20].rhs[0]);
                }
            } else if j == 21 {
                if prod_matches(sy, 21) {
                    assert(sy.subrange(0, 1) =~= sy);
                    assert(sy[0] == the_grammar()[21].rhs[0]);
                }
            } else if j == 22 {
                assert(the_grammar()[22].rhs.len() == 2);
            } else if j == 23 {
                assert(the_grammar()[23].rhs.len() == 2);
            } else if j == 24 {
                assert(the_grammar()[24].rhs.len() == 2);
            }
    }
}

proof fn lemma_only_match_boolean()
    ensures
        prod_matches(seq![Symbol::NonTerminal(NonTerminalKind::Boolean)], 3),
        forall|j: int| 0 <= j < 25 && j != 3 ==> !prod_matches(seq![Symbol::NonTerminal(NonTerminalKind::Boolean)], j),
{
    let sy = seq![Symbol::NonTerminal(NonTerminalKind::Boolean)];
    assert(sy.len() == 1);
    assert(prod_matches(sy, 3)) by {
        assert(sy.subrange(0, 1) =~= the_grammar()[3].rhs);
    }
    assert forall|j: int| 0 <= j < 25 && j != 3 implies !prod_matches(sy, j) by {
            if j == 0 {
                if prod_matches(sy, 0) {
                    assert(sy.subrange(0, 1) =~= sy);
                    assert(sy[0] == the_grammar()[0].rhs[0]);
                }
            } else if j == 1 {
                if prod_matches(sy, 1) {
                    assert(sy.subrange(0, 1) =~= sy);
                    assert(sy[0] == the_grammar()[1].rhs[0]);
                }
            } else if j == 2 {
                if prod_matches(sy, 2) {
                    assert(sy.subrange(0, 1) =~= sy);
                    assert(sy[0] == the_grammar()[2].rhs[0]);
                }
            } else if j == 4 {
                if prod_matches(sy, 4) {
                    assert(sy.subrange(0, 1) =~= sy);
                    assert(sy[0] == the_grammar()[4].rhs[0]);
                }
            } else if j == 5 {
                if prod_matches(sy, 5) {
                    assert(sy.subrange(0, 1) =~= sy);
                    assert(sy[0] == the_grammar()[5].rhs[0]);
                }
            } else if j == 6 {
                if prod_matches(sy, 6) {
                    assert(sy.subrange(0, 1) =~= sy);
                    assert(sy[0] == the_grammar()[6].rhs[0]);
                }
            } else if j == 7 {
                assert(the_grammar()[7].rhs.len() == 2);
            } else if j == 8 {
                assert(the_grammar()[8].rhs.len() == 3);
            } else if j == 9 {
                if prod_matches(sy, 9) {
                    assert(sy.subrange(0, 1) =~= sy);
                    assert(sy[0] == the_grammar()[9].rhs[0]);
                }
            } else if j == 10 {
                assert(the_grammar()[10].rhs.len() == 3);
            } else if j == 11 {
                assert(the_grammar()[11].rhs.len() == 3);
            } else if j == 12 {
                assert(the_grammar()[12].rhs.len() == 2);
            } else if j == 13 {
                assert(the_grammar()[13].rhs.len() == 3);
            } else if j == 14 {
                if prod_matches(sy, 14) {
                    assert(sy.subrange(0, 1) =~= sy);
                    assert(sy[0] == the_grammar()[14].rhs[0]);
                }
            } else if j == 15 {
                assert(the_grammar()[15].rhs.len() == 3);
            } else if j == 16 {
                if prod_matches(sy, 16) {
                    assert(sy.subrange(0, 1) =~= sy);
                    assert(sy[0] == the_grammar()[16].rhs[0]);
                }
            } else if j == 17 {
                assert(the_grammar()[17].rhs.len() == 3);
            } else if j == 18 {
                assert(the_grammar()[18].rhs.len() == 2);
            } else if j == 19 {
                assert(the_grammar()[19].rhs.len() == 2);
            } else if j == 20 {
                if prod_matches(sy, 20) {
                    assert(sy.subrange(0, 1) =~= sy);
                    assert(sy[0] == the_grammar()[20].rhs[0]);
                }
            } else if j == 21 {
                if prod_matches(sy, 21) {
                    assert(sy.subrange(0, 1) =~= sy);
                    assert(sy[0] == the_grammar()[21].rhs[0]);
                }
            } else if j == 22 {
                assert(the_grammar()[22].rhs.len() == 2);
            } else if j == 23 {
                assert(the_grammar()[23].rhs.len() == 2);
            } else if j == 24 {
                assert(the_grammar()[24].rhs.len() == 2);
            }
    }
}

proof fn lemma_no_match_elements()
    ensures
        forall|j: int| 0 <= j < 25 ==> !prod_matches(seq![Symbol::NonTerminal(NonTerminalKind::Elements)], j),
{
    let sy = seq![Symbol::NonTerminal(NonTerminalKind::Elements)];
    assert(sy.len() == 1);
    assert forall|j: int| 0 <= j < 25 implies !prod_matches(sy, j) by {
            if j == 0 {
                if prod_matches(sy, 0) {
                    assert(sy.subrange(0, 1) =~= sy);
                    assert(sy[0] == the_grammar()[0].rhs[0]);
                }
            } else if j == 1 {
                if prod_matches(sy, 1) {
                    assert(sy.subrange(0, 1) =~= sy);
                    assert(sy[0] == the_grammar()[1].rhs[0]);
                }
            } else if j == 2 {
                if prod_matches(sy, 2) {
                    assert(sy.subrange(0, 1) =~= sy);
                    assert(sy[0] == the_grammar()[2].rhs[0]);
                }
            } else if j == 3 {
                if prod_matches(sy, 3) {
                    assert(sy.subrange(0, 1) =~= sy);
                    assert(sy[0] == the_grammar()[3].rhs[0]);
                }
            } else if j == 4 {
                if prod_matches(sy, 4) {
                    assert(sy.subrange(0, 1) =~= sy);
                    assert(sy[0] == the_grammar()[4].rhs[0]);
                }
            } else if j == 5 {
                if prod_matches(sy, 5) {
                    assert(sy.subrange(0, 1) =~= sy);
                    assert(sy[0] == the_grammar()[5].rhs[0]);
                }
            } else if j == 6 {
                if prod_matches(sy, 6) {
                    assert(sy.subrange(0, 1) =~= sy);
                    assert(sy[0] == the_grammar()[6].rhs[0]);
                }
            } else if j == 7 {
                assert(the_grammar()[7].rhs.len() == 2);
            } else if j == 8 {
                assert(the_grammar()[8].rhs.len() == 3);
            } else if j == 9 {
                if prod_matches(sy, 9) {
                    assert(sy.subrange(0, 1) =~= sy);
                    assert(sy[0] == the_grammar()[9].rhs[0]);
                }
            } else if j == 10 {
                assert(the_grammar()[10].rhs.len() == 3);
            } else if j == 11 {
                assert(the_grammar()[11].rhs.len() == 3);
            } else if j == 12 {
                assert(the_grammar()[12].rhs.len() == 2);
            } else if j == 13 {
                assert(the_grammar()[13].rhs.len() == 3);
            } else if j == 14 {
                if prod_matches(sy, 14) {
                    assert(sy.subrange(0, 1) =~= sy);
                    assert(sy[0] == the_grammar()[14].rhs[0]);
                }
            } else if j == 15 {
                assert(the_grammar()[15].rhs.len() == 3);
            } else if j == 16 {
                if prod_matches(sy, 16) {
                    assert(sy.subrange(0, 1) =~= sy);
                    assert(sy[0] == the_grammar()[16].rhs[0]);
                }
            } else if j == 17 {
                assert(the_grammar()[17].rhs.len() == 3);
            } else if j == 18 {
                assert(the_grammar()[18].rhs.len() == 2);
            } else if j == 19 {
                assert(the_grammar()[19].rhs.len() == 2);
            } else if j == 20 {
                if prod_matches(sy, 20) {
                    assert(sy.subrange(0, 1) =~= sy);
                    assert(sy[0] == the_grammar()[20].rhs[0]);
                }
            } else if j == 21 {
                if prod_matches(sy, 21) {
                    assert(sy.subrange(0, 1) =~= sy);
                    assert(sy[0] == the_grammar()[21].rhs[0]);
                }
            } else if j == 22 {
                assert(the_grammar()[22].rhs.len() == 2);
            } else if j == 23 {
                assert(the_grammar()[23].rhs.len() == 2);
            } else if j == 24 {
                assert(the_grammar()[24].rhs.len() == 2);
            }
    }
}

proof fn lemma_no_extends_bool_literal()
    ensures
        forall|j: int| 0 <= j < 25 ==> !prod_extends(seq![Symbol::Terminal(TerminalKind::BoolLiteral)], j),
{
    let sy = seq![Symbol::Terminal(TerminalKind::BoolLiteral)];
    assert(sy.len() == 1);
    assert forall|j: int| 0 <= j < 25 implies !prod_extends(sy, j) by {
            if j == 0 {
                assert(the_grammar()[0].rhs.len() == 1);
            } else if j == 1 {
                assert(the_grammar()[1].rhs.len() == 1);
            } else if j == 2 {
                assert(the_grammar()[2].rhs.len() == 1);
            } else if j == 3 {
                assert(the_grammar()[3].rhs.len() == 1);
            } else if j == 4 {
                assert(the_grammar()[4].rhs.len() == 1);
            } else if j == 5 {
                assert(the_grammar()[5].rhs.len() == 1);
            } else if j == 6 {
                assert(the_grammar()[6].rhs.len() == 1);
            } else if j == 7 {
                if prod_extends(sy, 7) {
                    assert(the_grammar()[7].rhs.take(1)[0] == the_grammar()[7].rhs[0]);
                    assert(sy[0] == the_grammar()[7].rhs[0]);
                }
            } else if j == 8 {
                if prod_extends(sy, 8) {
                    assert(the_grammar()[8].rhs.take(1)[0] == the_grammar()[8].rhs[0]);
                    assert(sy[0] == the_grammar()[8].rhs[0]);
                }
            } else if j == 9 {
                assert(the_grammar()[9].rhs.len() == 1);
            } else if j == 10 {
                if prod_extends(sy, 10) {
                    assert(the_grammar()[10].rhs.take(1)[0] == the_grammar()[10].rhs[0]);
                    assert(sy[0] == the_grammar()[10].rhs[0]);
                }
            } else if j == 11 {
                if prod_extends(sy, 11) {
                    assert(the_grammar()[11].rhs.take(1)[0] == the_grammar()[11].rhs[0]);
                    assert(sy[0] == the_grammar()[11].rhs[0]);
                }
            } else if j == 12 {
                if prod_extends(sy, 12) {
                    assert(the_grammar()[12].rhs.take(1)[0] == the_grammar()[12].rhs[0]);
                    assert(sy[0] == the_grammar()[12].rhs[0]);
                }
            } else if j == 13 {
                if prod_extends(sy, 13) {
                    assert(the_grammar()[13].rhs.take(1)[0] == the_grammar()[13].rhs[0]);
                    assert(sy[0] == the_grammar()[13].rhs[0]);
                }
            } else if j == 14 {
                assert(the_grammar()[14].rhs.len() == 1);
            } else if j == 15 {
                if prod_extends(sy, 15) {
                    assert(the_grammar()[15].rhs.take(1)[0] == the_grammar()[15].rhs[0]);
                    assert(sy[0] == the_grammar()[15].rhs[0]);
                }
            } else if j == 16 {
                assert(the_grammar()[16].rhs.len() == 1);
            } else if j == 17 {
                if prod_extends(sy, 17) {
                    assert(the_grammar()[17].rhs.take(1)[0] == the_grammar()[17].rhs[0]);
                    assert(sy[0] == the_grammar()[17].rhs[0]);
                }
            } else if j == 18 {
                if prod_extends(sy, 18) {
                    assert(the_grammar()[18].rhs.take(1)[0] == the_grammar()[18].rhs[0]);
                    assert(sy[0] == the_grammar()[18].rhs[0]);
                }
            } else if j == 19 {
                if prod_extends(sy, 19) {
                    assert(the_grammar()[19].rhs.take(1)[0] == the_grammar()[19].rhs[0]);
                    assert(sy[0] == the_grammar()[19].rhs[0]);
                }
            } else if j == 20 {
                assert(the_grammar()[20].rhs.len() == 1);
            } else if j == 21 {
                assert(the_grammar()[21].rhs.len() == 1);
            } else if j == 22 {
                if prod_extends(sy, 22) {
                    assert(the_grammar()[22].rhs.take(1)[0] == the_grammar()[22].rhs[0]);
                    assert(sy[0] == the_grammar()[22].rhs[0]);
                }
            } else if j == 23 {
                if prod_extends(sy, 23) {
                    assert(the_grammar()[23].rhs.take(1)[0] == the_grammar()[23].rhs[0]);
                    assert(sy[0] == the_grammar()[23].rhs[0]);
                }
            } else if j == 24 {
                if prod_extends(sy, 24) {
                    assert(the_grammar()[24].rhs.take(1)[0] == the_grammar()[24].rhs[0]);
                    assert(sy[0] == the_grammar()[24].rhs[0]);
                }
            }
    }
}

proof fn lemma_no_extends_null_literal()
    ensures
        forall|j: int| 0 <= j < 25 ==> !prod_extends(seq![Symbol::Terminal(TerminalKind::NullLiteral)], j),
{
    let sy = seq![Symbol::Terminal(TerminalKind::NullLiteral)];
    assert(sy.len() == 1);
    assert forall|j: int| 0 <= j < 25 implies !prod_extends(sy, j) by {
            if j == 0 {
                assert(the_grammar()[0].rhs.len() == 1);
            } else if j == 1 {
                assert(the_grammar()[1].rhs.len() == 1);
            } else if j == 2 {
                assert(the_grammar()[2].rhs.len() == 1);
            } else if j == 3 {
                assert(the_grammar()[3].rhs.len() == 1);
            } else if j == 4 {
                assert(the_grammar()[4].rhs.len() == 1);
            } else if j == 5 {
                assert(the_grammar()[5].rhs.len() == 1);
            } else if j == 6 {
                assert(the_grammar()[6].rhs.len() == 1);
            } else if j == 7 {
                if prod_extends(sy, 7) {
                    assert(the_grammar()[7].rhs.take(1)[0] == the_grammar()[7].rhs[0]);
                    assert(sy[0] == the_grammar()[7].rhs[0]);
                }
            } else if j == 8 {
                if prod_extends(sy, 8) {
                    assert(the_grammar()[8].rhs.take(1)[0] == the_grammar()[8].rhs[0]);
                    assert(sy[0] == the_grammar()[8].rhs[0]);
                }
            } else if j == 9 {
                assert(the_grammar()[9].rhs.len() == 1);
            } else if j == 10 {
                if prod_extends(sy, 10) {
                    assert(the_grammar()[10].rhs.take(1)[0] == the_grammar()[10].rhs[0]);
                    assert(sy[0] == the_grammar()[10].rhs[0]);
                }
            } else if j == 11 {
                if prod_extends(sy, 11) {
                    assert(the_grammar()[11].rhs.take(1)[0] == the_grammar()[11].rhs[0]);
                    assert(sy[0] == the_grammar()[11].rhs[0]);
                }
            } else if j == 12 {
                if prod_extends(sy, 12) {
                    assert(the_grammar()[12].rhs.take(1)[0] == the_grammar()[12].rhs[0]);
                    assert(sy[0] == the_grammar()[12].rhs[0]);
                }
            } else if j == 13 {
                if prod_extends(sy, 13) {
                    assert(the_grammar()[13].rhs.take(1)[0] == the_grammar()[13].rhs[0]);
                    assert(sy[0] == the_grammar()[13].rhs[0]);
                }
            } else if j == 14 {
                assert(the_grammar()[14].rhs.len() == 1);
            } else if j == 15 {
                if prod_extends(sy, 15) {
                    assert(the_grammar()[15].rhs.take(1)[0] == the_grammar()[15].rhs[0]);
                    assert(sy[0] == the_grammar()[15].rhs[0]);
                }
            } else if j == 16 {
                assert(the_grammar()[16].rhs.len() == 1);
            } else if j == 17 {
                if prod_extends(sy, 17) {
                    assert(the_grammar()[17].rhs.take(1)[0] == the_grammar()[17].rhs[0]);
                    assert(sy[0] == the_grammar()[17].rhs[0]);
                }
            } else if j == 18 {
                if prod_extends(sy, 18) {
                    assert(the_grammar()[18].rhs.take(1)[0] == the_grammar()[18].rhs[0]);
                    assert(sy[0] == the_grammar()[18].rhs[0]);
                }
            } else if j == 19 {
                if prod_extends(sy, 19) {
                    assert(the_grammar()[19].rhs.take(1)[0] == the_grammar()[19].rhs[0]);
                    assert(sy[0] == the_grammar()[19].rhs[0]);
                }
            } else if j == 20 {
                assert(the_grammar()[20].rhs.len() == 1);
            } else if j == 21 {
                assert(the_grammar()[21].rhs.len() == 1);
            } else if j == 22 {
                if prod_extends(sy, 22) {
                    assert(the_grammar()[22].rhs.take(1)[0] == the_grammar()[22].rhs[0]);
                    assert(sy[0] == the_grammar()[22].rhs[0]);
                }
            } else if j == 23 {
                if prod_extends(sy, 23) {
                    assert(the_grammar()[23].rhs.take(1)[0] == the_grammar()[23].rhs[0]);
                    assert(sy[0] == the_grammar()[23].rhs[0]);
                }
            } else if j == 24 {
                if prod_extends(sy, 24) {
                    assert(the_grammar()[24].rhs.take(1)[0] == the_grammar()[24].rhs[0]);
                    assert(sy[0] == the_grammar()[24].rhs[0]);
                }
            }
    }
}


proof fn lemma_drain_from_value(v: SpecJson)
    ensures
        spec_finalize(
            spec_drain(
                seq![
                    SpecCell::NonTerminal(
                        SpecElem { value: v, element_type: NonTerminalKind::Value },
                    ),
                ],
            ),
        ) == Result::Ok::<SpecJson, ParseError>(v),
{
    let c1 = seq![
        SpecCell::NonTerminal(SpecElem { value: v, element_type: NonTerminalKind::Value }),
    ];
    assert(stack_symbols(c1) =~= seq![Symbol::NonTerminal(NonTerminalKind::Value)]);
    lemma_only_match_value();
    lemma_reduce_single(c1, 16);
    assert(the_grammar()[16].reducer == Reducer::Element);
    assert(spec_apply_reducer(Reducer::Element, c1) == v);
    let c2 = seq![
        SpecCell::NonTerminal(SpecElem { value: v, element_type: NonTerminalKind::Element }),
    ];
    assert(spec_reduce_step(c1).0 =~= c2);
    assert(spec_drain(c1) == spec_drain(c2));
    assert(stack_symbols(c2) =~= seq![Symbol::NonTerminal(NonTerminalKind::Element)]);
    lemma_only_match_element();
    lemma_reduce_single(c2, 14);
    assert(the_grammar()[14].reducer == Reducer::Elements);
    assert(Seq::<SpecJson>::empty().push(v) =~= seq![v]);
    assert(spec_apply_reducer(Reducer::Elements, c2) == SpecJson::Array(seq![v]));
    let c3 = seq![
        SpecCell::NonTerminal(
            SpecElem { value: SpecJson::Array(seq![v]), element_type: NonTerminalKind::Elements },
        ),
    ];
    assert(spec_reduce_step(c2).0 =~= c3);
    assert(spec_drain(c2) == spec_drain(c3));
    assert(stack_symbols(c3) =~= seq![Symbol::NonTerminal(NonTerminalKind::Elements)]);
    lemma_no_match_elements();
    assert(the_grammar().len() == 25);
    lemma_best_upto_none(stack_symbols(c3), 25);
    assert(spec_reduce_step(c3).1 == 0);
    assert(spec_drain(c3) == c3);
    assert(spec_get_value(c3) == Result::Ok::<SpecJson, ValueError>(v));
}

proof fn lemma_drain_from_boolean(v: SpecJson)
    ensures
        spec_finalize(
            spec_drain(
                seq![
                    SpecCell::NonTerminal(
                        SpecElem { value: v, element_type: NonTerminalKind::Boolean },
                    ),
                ],
            ),
        ) == Result::Ok::<SpecJson, ParseError>(v),
{
    let c0 = seq![
        SpecCell::NonTerminal(SpecElem { value: v, element_type: NonTerminalKind::Boolean }),
    ];
    assert(stack_symbols(c0) =~= seq![Symbol::NonTerminal(NonTerminalKind::Boolean)]);
    lemma_only_match_boolean();
    lemma_reduce_single(c0, 3);
    assert(the_grammar()[3].reducer == Reducer::Value);
    assert(spec_apply_reducer(Reducer::Value, c0) == v);
    let c1 = seq![
        SpecCell::NonTerminal(SpecElem { value: v, element_type: NonTerminalKind::Value }),
    ];
    assert(spec_reduce_step(c0).0 =~= c1);
    assert(spec_drain(c0) == spec_drain(c1));
    lemma_drain_from_value(v);
}

/// Law: an input that lexes to one string literal always parses, to
/// exactly that text.
pub proof fn lemma_single_string_literal_parses(s: Seq<u8>, content: Seq<u8>)
    requires
        spec_lex(s) == Result::Ok::<Seq<SpecToken>, TokenError>(
            seq![
                SpecToken {
                    kind: TerminalKind::StringLiteral,
                    lexeme: Option::Some(content),
                },
            ],
        ),
    ensures
        spec_parse(s) == Result::Ok::<SpecJson, ParseError>(SpecJson::Text(content)),
{
    let tok = SpecToken { kind: TerminalKind::StringLiteral, lexeme: Option::Some(content) };
    let toks = seq![tok];
    let empty_cells = Seq::<SpecCell>::empty();
    assert(stack_symbols(empty_cells) =~= Seq::<Symbol>::empty());
    let probe = spec_probe(stack_symbols(empty_cells), Symbol::Terminal(TerminalKind::StringLiteral));
    assert(probe =~= seq![Symbol::Terminal(TerminalKind::StringLiteral)]);
    assert(probe.subrange(0, 1) =~= probe);
    assert(the_grammar()[11].rhs.take(1) =~= probe);
    assert(spec_matches_longer(probe)) by {
        assert(0 <= 11 < the_grammar().len() && probe.len() < the_grammar()[11].rhs.len()
            && the_grammar()[11].rhs.take(probe.len() as int) == probe);
    }
    assert(spec_check_prefix(probe) == PrefixMatch::PartialMatch);
    assert(spec_decide(stack_symbols(empty_cells), Symbol::Terminal(TerminalKind::StringLiteral))
        == PrefixMatch::PartialMatch);
    let cells1 = empty_cells.push(SpecCell::Terminal(tok));
    assert(toks[0] == tok);
    assert(spec_run(toks, empty_cells, true) == spec_run(toks.drop_first(), cells1, true));
    assert(toks.drop_first() =~= Seq::<SpecToken>::empty());
    assert(spec_run(Seq::<SpecToken>::empty(), cells1, true) == spec_finalize(
        spec_drain(cells1),
    ));
    assert(stack_symbols(cells1) =~= seq![Symbol::Terminal(TerminalKind::StringLiteral)]);
    lemma_only_match_string_literal();
    lemma_reduce_single(cells1, 4);
    assert(the_grammar()[4].reducer == Reducer::Value);
    assert(spec_apply_reducer(Reducer::Value, cells1) == SpecJson::Text(content));
    let c2 = seq![
        SpecCell::NonTerminal(
            SpecElem { value: SpecJson::Text(content), element_type: NonTerminalKind::Value },
        ),
    ];
    assert(spec_reduce_step(cells1).0 =~= c2);
    assert(spec_drain(cells1) == spec_drain(c2));
    lemma_drain_from_value(SpecJson::Text(content));
}

/// Law: an input that lexes to one boolean literal always parses, to
/// true exactly for the lexeme `true`.
pub proof fn lemma_single_bool_literal_parses(s: Seq<u8>, lexeme: Seq<u8>)
    requires
        spec_lex(s) == Result::Ok::<Seq<SpecToken>, TokenError>(
            seq![
                SpecToken { kind: TerminalKind::BoolLiteral, lexeme: Option::Some(lexeme) },
            ],
        ),
    ensures
        spec_parse(s) == Result::Ok::<SpecJson, ParseError>(
            SpecJson::Bool(lexeme == crate::lexer::spec_true_bytes()),
        ),
{
    let tok = SpecToken { kind: TerminalKind::BoolLiteral, lexeme: Option::Some(lexeme) };
    let toks = seq![tok];
    let empty_cells = Seq::<SpecCell>::empty();
    assert(stack_symbols(empty_cells) =~= Seq::<Symbol>::empty());
    let probe = spec_probe(stack_symbols(empty_cells), Symbol::Terminal(TerminalKind::BoolLiteral));
    assert(probe =~= seq![Symbol::Terminal(TerminalKind::BoolLiteral)]);
    assert(probe.subrange(0, 1) =~= probe);
    lemma_no_extends_bool_literal();
    assert(the_grammar().len() == 25);
    assert(!spec_matches_longer(probe)) by {
        if spec_matches_longer(probe) {
            let j = choose|i: int|
                0 <= i < the_grammar().len() && probe.len() < the_grammar()[i].rhs.len()
                    && the_grammar()[i].rhs.take(probe.len() as int) == probe;
            assert(prod_extends(probe, j));
        }
    }
    assert(the_grammar()[6].rhs =~= probe);
    assert(spec_matches_exact(probe)) by {
        assert(0 <= 6 < the_grammar().len() && the_grammar()[6].rhs == probe);
    }
    assert(spec_check_prefix(probe) == PrefixMatch::FullMatch);
    assert(spec_decide(stack_symbols(empty_cells), Symbol::Terminal(TerminalKind::BoolLiteral))
        == PrefixMatch::FullMatch);
    let cells1 = empty_cells.push(SpecCell::Terminal(tok));
    assert(cells1 =~= seq![SpecCell::Terminal(tok)]);
    assert(stack_symbols(cells1) =~= seq![Symbol::Terminal(TerminalKind::BoolLiteral)]);
    lemma_only_match_bool_literal();
    lemma_reduce_single(cells1, 6);
    assert(the_grammar()[6].reducer == Reducer::Boolean);
    let b = SpecJson::Bool(lexeme == crate::lexer::spec_true_bytes());
    assert(spec_apply_reducer(Reducer::Boolean, cells1) == b);
    let c2 = seq![
        SpecCell::NonTerminal(SpecElem { value: b, element_type: NonTerminalKind::Boolean }),
    ];
    assert(spec_reduce_step(cells1).0 =~= c2);
    assert(toks[0] == tok);
    assert(spec_run(toks, empty_cells, true) == spec_run(toks.drop_first(), c2, true));
    assert(toks.drop_first() =~= Seq::<SpecToken>::empty());
    assert(spec_run(Seq::<SpecToken>::empty(), c2, true) == spec_finalize(spec_drain(c2)));
    lemma_drain_from_boolean(b);
}

/// Law: an input that lexes to one null literal always parses, to
/// `Null`.
pub proof fn lemma_single_null_literal_parses(s: Seq<u8>)
    requires
        spec_lex(s) == Result::Ok::<Seq<SpecToken>, TokenError>(
            seq![SpecToken { kind: TerminalKind::NullLiteral, lexeme: Option::None }],
        ),
    ensures
        spec_parse(s) == Result::Ok::<SpecJson, ParseError>(SpecJson::Null),
{
    let tok = SpecToken { kind: TerminalKind::NullLiteral, lexeme: Option::None };
    let toks = seq![tok];
    let empty_cells = Seq::<SpecCell>::empty();
    assert(stack_symbols(empty_cells) =~= Seq::<Symbol>::empty());
    let probe = spec_probe(stack_symbols(empty_cells), Symbol::Terminal(TerminalKind::NullLiteral));
    assert(probe =~= seq![Symbol::Terminal(TerminalKind::NullLiteral)]);
    assert(probe.subrange(0, 1) =~= probe);
    lemma_no_extends_null_literal();
    assert(the_grammar().len() == 25);
    assert(!spec_matches_longer(probe)) by {
        if spec_matches_longer(probe) {
            let j = choose|i: int|
                0 <= i < the_grammar().len() && probe.len() < the_grammar()[i].rhs.len()
                    && the_grammar()[i].rhs.take(probe.len() as int) == probe;
            assert(prod_extends(probe, j));
        }
    }
    assert(the_grammar()[5].rhs =~= probe);
    assert(spec_matches_exact(probe)) by {
        assert(0 <= 5 < the_grammar().len() && the_grammar()[5].rhs == probe);
    }
    assert(spec_check_prefix(probe) == PrefixMatch::FullMatch);
    assert(spec_decide(stack_symbols(empty_cells), Symbol::Terminal(TerminalKind::NullLiteral))
        == PrefixMatch::FullMatch);
    let cells1 = empty_cells.push(SpecCell::Terminal(tok));
    assert(cells1 =~= seq![SpecCell::Terminal(tok)]);
    assert(stack_symbols(cells1) =~= seq![Symbol::Terminal(TerminalKind::NullLiteral)]);
    lemma_only_match_null_literal();
    lemma_reduce_single(cells1, 5);
    assert(the_grammar()[5].reducer == Reducer::Value);
    assert(spec_apply_reducer(Reducer::Value, cells1) == SpecJson::Null);
    let c2 = seq![
        SpecCell::NonTerminal(
            SpecElem { value: SpecJson::Null, element_type: NonTerminalKind::Value },
        ),
    ];
    assert(spec_reduce_step(cells1).0 =~= c2);
    assert(toks[0] == tok);
    assert(spec_run(toks, empty_cells, true) == spec_run(toks.drop_first(), c2, true));
    assert(toks.drop_first() =~= Seq::<SpecToken>::empty());
    assert(spec_run(Seq::<SpecToken>::empty(), c2, true) == spec_finalize(spec_drain(c2)));
    lemma_drain_from_value(SpecJson::Null);
}

/// Law: the parsed value depends only on the token sequence. Two
/// inputs that lex to the same result parse to the same result, so
/// anything the lexer discards (the whitespace between tokens) cannot
/// reach the engine.
pub proof fn lemma_tokens_determine_value(s1: Seq<u8>, s2: Seq<u8>)
    requires
        spec_lex(s1) == spec_lex(s2),
    ensures
        spec_parse(s1) == spec_parse(s2),
{
}

/// Law: inserting one whitespace byte between two tokens of a lexable
/// input never changes the parsed value; removing one is the same fact
/// read in the other direction.
pub proof fn lemma_whitespace_insert_parse(s: Seq<u8>, j: int, c: u8)
    requires
        0 <= j <= s.len(),
        crate::lexer::spec_is_whitespace(c),
        crate::lexer::spec_visits(s, 0, j),
        spec_lex(s) is Ok,
    ensures
        spec_parse(s.insert(j, c)) == spec_parse(s),
{
    crate::lexer::lemma_whitespace_insert(s, j, c);
}

/// Law: a whitespace byte prepended to a lexable input never changes
/// the parsed value.
pub proof fn lemma_whitespace_prepend_parse(c: u8, s: Seq<u8>)
    requires
        crate::lexer::spec_is_whitespace(c),
        spec_lex(s) is Ok,
    ensures
        spec_parse(seq![c] + s) == spec_parse(s),
{
    crate::lexer::lemma_whitespace_prepend(c, s);
}

} // verus!

