//! The shift/reduce decision procedure and the extraction of the final
//! value from a finished parse stack.

use vstd::prelude::*;

use crate::action::compare;
use crate::action::top_n_of_stack;
use crate::grammar::GrammarRule;
use crate::grammar::SpecCell;
use crate::grammar::StackElement;
use crate::grammar::Symbol;
use crate::grammar::cells_view;
use crate::grammar::rules_view;
use crate::grammar::stack_symbols;
use crate::grammar::the_grammar;
use crate::lexer::Token;
use crate::unmarshal::JsonValue;
use crate::unmarshal::SpecJson;
use crate::unmarshal::items_view;
use crate::unmarshal::lemma_items_view_index;
use crate::unmarshal::lemma_items_view_len;

verus! {

/// How a probe of stack symbols relates to the grammar's productions.
#[derive(Clone, Copy, Debug, PartialEq, Eq, Structural)]
pub enum PrefixMatch {
    NoMatch,
    PartialMatch,
    FullMatch,
}

/// Why the final stack held no usable value.
#[derive(Clone, Copy, Debug, PartialEq, Eq, Structural)]
pub enum ValueError {
    EmptyStack,
    InvalidType,
    InvalidLength,
    MissingRule,
}

/// True iff some production's right-hand side is strictly longer than
/// `c` and begins with it.
pub open spec fn spec_matches_longer(c: Seq<Symbol>) -> bool {
    exists|i: int|
        0 <= i < the_grammar().len() && c.len() < the_grammar()[i].rhs.len()
            && the_grammar()[i].rhs.take(c.len() as int) == c
}

/// True iff some production's right-hand side is exactly `c`.
pub open spec fn spec_matches_exact(c: Seq<Symbol>) -> bool {
    exists|i: int| 0 <= i < the_grammar().len() && the_grammar()[i].rhs == c
}

/// The verdict on one candidate symbol sequence: the longest
/// right-hand side it matches decides, so a strictly longer extension
/// wins over an exact match.
pub open spec fn spec_check_prefix(c: Seq<Symbol>) -> PrefixMatch {
    if spec_matches_longer(c) {
        PrefixMatch::PartialMatch
    } else if spec_matches_exact(c) {
        PrefixMatch::FullMatch
    } else {
        PrefixMatch::NoMatch
    }
}

/// The probe: the symbols of the last two stack cells (fewer if the
/// stack is shorter), followed by the lookahead's symbol.
pub open spec fn spec_probe(stack_syms: Seq<Symbol>, la: Symbol) -> Seq<Symbol> {
    let tail = if stack_syms.len() >= 2 {
        stack_syms.subrange(stack_syms.len() - 2, stack_syms.len() as int)
    } else {
        stack_syms
    };
    tail.push(la)
}

/// The verdict of the first (longest) probe suffix, from position `i`
/// on, that matches anything; `NoMatch` if none does.
pub open spec fn spec_decide_from(probe: Seq<Symbol>, i: int) -> PrefixMatch
    decreases probe.len() - i,
    when 0 <= i <= probe.len()
{
    if i >= probe.len() {
        PrefixMatch::NoMatch
    } else {
        let m = spec_check_prefix(probe.subrange(i, probe.len() as int));
        if m != PrefixMatch::NoMatch {
            m
        } else {
            spec_decide_from(probe, i + 1)
        }
    }
}

/// The shift/reduce decision for a stack and a lookahead symbol.
pub open spec fn spec_decide(stack_syms: Seq<Symbol>, la: Symbol) -> PrefixMatch {
    spec_decide_from(spec_probe(stack_syms, la), 0)
}

/// The verdict on one candidate sequence, by scanning every production
/// of the table.
pub(crate) fn check_prefix(candidates: &Vec<Symbol>, rules: &Vec<GrammarRule>) -> (m: PrefixMatch)
    requires
        rules_view(rules@) == the_grammar(),
    ensures
        m == spec_check_prefix(candidates@),
{
    let mut found_exact = false;
    let mut found_longer = false;
    let mut i: usize = 0;
    while i < rules.len()
        invariant
            rules_view(rules@) == the_grammar(),
            i <= rules@.len(),
            found_exact == exists|j: int|
                0 <= j < i && the_grammar()[j].rhs == candidates@,
            found_longer == exists|j: int|
                0 <= j < i && candidates@.len() < the_grammar()[j].rhs.len()
                    && the_grammar()[j].rhs.take(candidates@.len() as int) == candidates@,
        decreases rules@.len() - i,
    {
        proof {
            assert(the_grammar()[i as int] == rules@[i as int]@);
        }
        let rule_rhs: &Vec<Symbol> = &rules[i].rhs;
        let csize = candidates.len();
        if csize <= rule_rhs.len() {
            let mut rhs_prefix: Vec<Symbol> = Vec::new();
            let mut k: usize = 0;
            while k < csize
                invariant
                    k <= csize <= rule_rhs@.len(),
                    rhs_prefix@ == rule_rhs@.take(k as int),
                decreases csize - k,
            {
                rhs_prefix.push(rule_rhs[k]);
                k += 1;
                proof {
                    assert(rhs_prefix@ =~= rule_rhs@.take(k as int));
                }
            }
            if compare(&rhs_prefix, candidates) {
                if csize == rule_rhs.len() {
                    proof {
                        assert(the_grammar()[i as int].rhs =~= candidates@);
                    }
                    found_exact = true;
                } else {
                    found_longer = true;
                }
            } else {
                proof {
                    if the_grammar()[i as int].rhs == candidates@ {
                        assert(the_grammar()[i as int].rhs.take(candidates@.len() as int)
                            =~= candidates@);
                    }
                }
            }
        }
        i += 1;
    }
    if found_longer {
        PrefixMatch::PartialMatch
    } else if found_exact {
        PrefixMatch::FullMatch
    } else {
        PrefixMatch::NoMatch
    }
}

/// The shift/reduce decision procedure: forms the probe from the top of
/// the stack and the lookahead, and returns the verdict of the longest
/// matching suffix.
pub fn check_prefix_exists(
    stack: &Vec<StackElement>,
    lookahead: &Token,
    rules: &Vec<GrammarRule>,
) -> (m: PrefixMatch)
    requires
        rules_view(rules@) == the_grammar(),
    ensures
        m == spec_decide(stack_symbols(cells_view(stack@)), Symbol::Terminal(lookahead.kind)),
{
    let ghost syms = stack_symbols(cells_view(stack@));
    let ghost la = Symbol::Terminal(lookahead@.kind);
    let mut probe = top_n_of_stack(stack, 2);
    probe.push(Symbol::Terminal(lookahead.kind));
    proof {
        assert(probe@ =~= spec_probe(syms, la));
    }
    let psize = probe.len();
    let mut i: usize = 0;
    while i < psize
        invariant
            rules_view(rules@) == the_grammar(),
            i <= psize == probe@.len(),
            syms == stack_symbols(cells_view(stack@)),
            la == Symbol::Terminal(lookahead.kind),
            probe@ == spec_probe(syms, la),
            spec_decide_from(probe@, 0) == spec_decide_from(probe@, i as int),
        decreases psize - i,
    {
        let mut cand: Vec<Symbol> = Vec::new();
        let mut k: usize = i;
        while k < psize
            invariant
                i <= k <= psize == probe@.len(),
                cand@ == probe@.subrange(i as int, k as int),
            decreases psize - k,
        {
            cand.push(probe[k]);
            k += 1;
            proof {
                assert(cand@ =~= probe@.subrange(i as int, k as int));
            }
        }
        let m = check_prefix(&cand, rules);
        proof {
            assert(cand@ == probe@.subrange(i as int, probe@.len() as int));
            assert(spec_check_prefix(probe@.subrange(i as int, probe@.len() as int)) == m);
        }
        if m != PrefixMatch::NoMatch {
            proof {
                assert(spec_decide_from(probe@, i as int) == m);
                assert(Symbol::Terminal(lookahead@.kind) == Symbol::Terminal(lookahead.kind));
            }
            return m;
        }
        i += 1;
    }
    PrefixMatch::NoMatch
}

/// What the final stack holds: the item list of the array that
/// draining wraps a finished parse in, checked to hold exactly one
/// element. Only the oldest cell is examined; the caller checks the
/// stack's length.
pub open spec fn spec_get_values(cells: Seq<SpecCell>) -> Result<Seq<SpecJson>, ValueError> {
    if cells.len() == 0 {
        Result::Err(ValueError::EmptyStack)
    } else {
        match cells[0] {
            SpecCell::Terminal(_) => Result::Err(ValueError::MissingRule),
            SpecCell::NonTerminal(e) => match e.value {
                SpecJson::Array(items) => if items.len() != 1 {
                    Result::Err(ValueError::InvalidLength)
                } else {
                    Result::Ok(items)
                },
                _ => Result::Err(ValueError::InvalidType),
            },
        }
    }
}

/// What the final stack yields: the single element of that one-element
/// array, or the reason there is none.
pub open spec fn spec_get_value(cells: Seq<SpecCell>) -> Result<SpecJson, ValueError> {
    match spec_get_values(cells) {
        Result::Ok(items) => Result::Ok(items[0]),
        Result::Err(e) => Result::Err(e),
    }
}

/// Checks the oldest stack cell and hands out the wrapped item list,
/// per [`spec_get_values`].
fn get_values(stack: Vec<StackElement>) -> (r: Result<Vec<JsonValue>, ValueError>)
    ensures
        r is Ok ==> spec_get_values(cells_view(stack@)) == Result::Ok::<Seq<SpecJson>, ValueError>(
            items_view(r->Ok_0@),
        ),
        r is Err ==> spec_get_values(cells_view(stack@)) == Result::Err::<
            Seq<SpecJson>,
            ValueError,
        >(r->Err_0),
{
    let ghost cv = cells_view(stack@);
    let mut stack = stack;
    if stack.len() == 0 {
        return Result::Err(ValueError::EmptyStack);
    }
    let c = stack.remove(0);
    proof {
        assert(cv[0] == c@);
    }
    match c {
        StackElement::Terminal(_) => Result::Err(ValueError::MissingRule),
        StackElement::NonTerminal(e) => {
            match e.value {
                JsonValue::Array(items) => {
                    proof {
                        lemma_items_view_len(items@);
                    }
                    if items.len() != 1 {
                        Result::Err(ValueError::InvalidLength)
                    } else {
                        Result::Ok(items)
                    }
                },
                JsonValue::Null => Result::Err(ValueError::InvalidType),
                JsonValue::Bool(_) => Result::Err(ValueError::InvalidType),
                JsonValue::Number(_) => Result::Err(ValueError::InvalidType),
                JsonValue::Text(_) => Result::Err(ValueError::InvalidType),
                JsonValue::Object(_) => Result::Err(ValueError::InvalidType),
            }
        },
    }
}

/// Extracts the parse result from a finished stack, per
/// [`spec_get_value`].
pub fn get_value(stack: Vec<StackElement>) -> (r: Result<JsonValue, ValueError>)
    ensures
        r is Ok ==> spec_get_value(cells_view(stack@)) == Result::Ok::<SpecJson, ValueError>(
            r->Ok_0@,
        ),
        r is Err ==> spec_get_value(cells_view(stack@)) == Result::Err::<SpecJson, ValueError>(
            r->Err_0,
        ),
{
    let ghost cv = cells_view(stack@);
    let values = match get_values(stack) {
        Result::Ok(v) => v,
        Result::Err(e) => {
            return Result::Err(e);
        },
    };
    let ghost values0 = values@;
    let mut values = values;
    if values.len() >= 1 {
        proof {
            lemma_items_view_index(values0, 0);
        }
        let v = values.remove(0);
        Result::Ok(v)
    } else {
        proof {
            lemma_items_view_len(values0);
        }
        Result::Err(ValueError::InvalidLength)
    }
}

} // verus!
