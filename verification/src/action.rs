//! The reduce dispatcher: finds the best-matching production suffix on
//! the stack, applies its semantic action, and replaces the matched
//! cells with the resulting labeled value.

use vstd::prelude::*;

use crate::grammar::GrammarRule;
use crate::grammar::JsonElement;
use crate::grammar::SpecCell;
use crate::grammar::SpecElem;
use crate::grammar::StackElement;
use crate::grammar::Symbol;
use crate::grammar::apply_reducer;
use crate::grammar::cells_view;
use crate::grammar::lemma_cells_view_push;
use crate::grammar::lemma_cells_view_subrange;
use crate::grammar::rules_view;
use crate::grammar::spec_apply_reducer;
use crate::grammar::spec_cell_symbol;
use crate::grammar::stack_symbols;
use crate::grammar::the_grammar;

verus! {

/// True iff the two symbol sequences are equal in length and
/// symbol-for-symbol identical: the one comparison primitive that both
/// the decision procedure and the dispatcher rely on.
pub(crate) fn compare(expansion: &Vec<Symbol>, actual: &Vec<Symbol>) -> (r: bool)
    ensures
        r == (expansion@ == actual@),
{
    if expansion.len() != actual.len() {
        return false;
    }
    let mut i: usize = 0;
    while i < expansion.len()
        invariant
            i <= expansion@.len(),
            expansion@.len() == actual@.len(),
            forall|j: int| 0 <= j < i ==> expansion@[j] == actual@[j],
        decreases expansion@.len() - i,
    {
        if expansion[i] != actual[i] {
            return false;
        }
        i += 1;
    }
    proof {
        assert(expansion@ =~= actual@);
    }
    true
}

/// The symbols of the top `count` stack cells (all of them if the
/// stack is shorter), oldest first.
pub(crate) fn top_n_of_stack(stack: &Vec<StackElement>, count: usize) -> (v: Vec<Symbol>)
    ensures
        v@ == ({
            let syms = stack_symbols(cells_view(stack@));
            let k: int = if count <= syms.len() {
                count as int
            } else {
                syms.len() as int
            };
            syms.subrange(syms.len() - k, syms.len() as int)
        }),
{
    let ghost syms = stack_symbols(cells_view(stack@));
    let n = stack.len();
    let start: usize = if count <= n {
        n - count
    } else {
        0
    };
    let mut v: Vec<Symbol> = Vec::new();
    let mut idx: usize = start;
    while idx < n
        invariant
            start <= idx <= n == stack@.len(),
            syms == stack_symbols(cells_view(stack@)),
            syms.len() == n,
            v@ == syms.subrange(start as int, idx as int),
        decreases n - idx,
    {
        let s = stack[idx].symbol();
        proof {
            assert(cells_view(stack@)[idx as int] == stack@[idx as int]@);
            assert(syms[idx as int] == spec_cell_symbol(cells_view(stack@)[idx as int]));
        }
        v.push(s);
        idx += 1;
        proof {
            assert(v@ =~= syms.subrange(start as int, idx as int));
        }
    }
    v
}

/// The production the dispatcher picks for this stack, scanning the
/// first `n` productions: among those whose right-hand side matches the
/// top of the stack, the one with the greatest length; on a tie, the
/// first encountered.
pub open spec fn spec_best_upto(syms: Seq<Symbol>, n: int) -> Option<int>
    decreases n,
    when 0 <= n <= the_grammar().len()
{
    if n <= 0 {
        Option::None
    } else {
        let prev = spec_best_upto(syms, n - 1);
        let k = the_grammar()[n - 1].rhs.len();
        let matched = k <= syms.len() && syms.subrange(syms.len() - k, syms.len() as int)
            == the_grammar()[n - 1].rhs;
        if matched && (match prev {
            Option::Some(p) => the_grammar()[p].rhs.len() < k,
            Option::None => 0 < k,
        }) {
            Option::Some(n - 1)
        } else {
            prev
        }
    }
}

/// The production the dispatcher picks for this stack, over the whole
/// table.
pub open spec fn spec_best_choice(syms: Seq<Symbol>) -> Option<int> {
    spec_best_upto(syms, the_grammar().len() as int)
}

/// One dispatch: the stack after the best reduction (unchanged if
/// nothing matches) and how many cells were consumed.
pub open spec fn spec_reduce_step(cells: Seq<SpecCell>) -> (Seq<SpecCell>, nat) {
    match spec_best_choice(stack_symbols(cells)) {
        Option::None => (cells, 0),
        Option::Some(p) => {
            let k = the_grammar()[p].rhs.len();
            let value = spec_apply_reducer(
                the_grammar()[p].reducer,
                cells.subrange(cells.len() - k, cells.len() as int),
            );
            let cell = SpecCell::NonTerminal(
                SpecElem { value, element_type: the_grammar()[p].lhs },
            );
            (cells.subrange(0, cells.len() - k).push(cell), k)
        },
    }
}

/// A picked production always matches the top of the stack.
pub proof fn lemma_best_upto_matches(syms: Seq<Symbol>, n: int)
    requires
        0 <= n <= the_grammar().len(),
    ensures
        spec_best_upto(syms, n) matches Option::Some(p) ==> {
            &&& 0 <= p < n
            &&& the_grammar()[p].rhs.len() <= syms.len()
            &&& syms.subrange(syms.len() - the_grammar()[p].rhs.len(), syms.len() as int)
                == the_grammar()[p].rhs
        },
    decreases n,
{
    if n > 0 {
        lemma_best_upto_matches(syms, n - 1);
    }
}

/// Finds the best-matching production for the top of the stack, pops
/// the matched cells, pushes the labeled value its action builds, and
/// reports how many cells were consumed; a stack that matches nothing
/// is left unchanged and zero is reported.
pub fn action(stack: &mut Vec<StackElement>, rules: &Vec<GrammarRule>) -> (consumed: usize)
    requires
        rules_view(rules@) == the_grammar(),
    ensures
        cells_view(final(stack)@) == spec_reduce_step(cells_view(old(stack)@)).0,
        consumed == spec_reduce_step(cells_view(old(stack)@)).1,
{
    let ghost cv0 = cells_view(stack@);
    let ghost syms = stack_symbols(cv0);
    let mut found = false;
    let mut best_idx: usize = 0;
    let mut offset: usize = 0;
    let mut i: usize = 0;
    while i < rules.len()
        invariant
            rules_view(rules@) == the_grammar(),
            i <= rules@.len(),
            stack@ == old(stack)@,
            cv0 == cells_view(stack@),
            syms == stack_symbols(cv0),
            syms.len() == stack@.len(),
            match spec_best_upto(syms, i as int) {
                Option::Some(p) => found && best_idx == p && offset
                    == the_grammar()[p].rhs.len() && 0 <= p < i,
                Option::None => !found && offset == 0,
            },
            found ==> offset <= stack@.len(),
        decreases rules@.len() - i,
    {
        proof {
            assert(the_grammar()[i as int] == rules@[i as int]@);
        }
        let size = rules[i].rhs.len();
        let mut matched = false;
        if size <= stack.len() {
            let actual = top_n_of_stack(stack, size);
            matched = compare(&rules[i].rhs, &actual);
        }
        proof {
            assert(matched == (size <= syms.len() && syms.subrange(
                syms.len() - size,
                syms.len() as int,
            ) == the_grammar()[i as int].rhs));
        }
        if matched && size > offset {
            found = true;
            best_idx = i;
            offset = size;
        }
        proof {
            lemma_best_upto_matches(syms, i as int);
            let prev = spec_best_upto(syms, i as int);
            assert(spec_best_upto(syms, i as int + 1) == (if matched && (match prev {
                Option::Some(p) => the_grammar()[p].rhs.len() < size,
                Option::None => 0 < size,
            }) {
                Option::Some(i as int)
            } else {
                prev
            }));
        }
        i += 1;
    }
    if !found {
        return 0;
    }
    let k = offset;
    let ghost n = stack@.len() as int;
    let split_at = stack.len() - k;
    let cells = stack.split_off(split_at);
    proof {
        lemma_cells_view_subrange(old(stack)@, 0, n - k);
        lemma_cells_view_subrange(old(stack)@, n - k, n);
    }
    let reducer = rules[best_idx].reducer;
    let lhs = rules[best_idx].lhs;
    proof {
        assert(the_grammar()[best_idx as int] == rules@[best_idx as int]@);
    }
    let value = apply_reducer(reducer, cells);
    let cell = StackElement::NonTerminal(JsonElement { value, element_type: lhs });
    proof {
        lemma_cells_view_push(stack@, cell);
    }
    stack.push(cell);
    k
}

} // verus!
