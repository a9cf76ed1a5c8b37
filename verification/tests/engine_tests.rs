use sr_json::action::action;
use sr_json::grammar::grammar;
use sr_json::grammar::JsonElement;
use sr_json::grammar::NonTerminalKind;
use sr_json::grammar::StackElement;
use sr_json::grammar::Symbol;
use sr_json::grammar::TerminalKind;
use sr_json::lexer::Token;
use sr_json::unmarshal::JsonValue;
use sr_json::unmarshal::JsonValueType;
use sr_json::util::check_prefix_exists;
use sr_json::util::get_value;
use sr_json::util::PrefixMatch;
use sr_json::util::ValueError;

fn tok(kind: TerminalKind, lexeme: Option<&[u8]>) -> Token {
    Token { kind, lexeme: lexeme.map(|b| b.to_vec()) }
}

#[test]
fn table_lists_every_production() {
    let g = grammar();
    assert_eq!(g.len(), 25);
    assert_eq!(g[0].lhs, NonTerminalKind::Value);
    assert_eq!(g[0].rhs, vec![Symbol::NonTerminal(NonTerminalKind::Object)]);
    assert_eq!(g[24].lhs, NonTerminalKind::Exponent);
}

#[test]
fn object_start_defers_reduction() {
    let g = grammar();
    let stack: Vec<StackElement> = Vec::new();
    let la = tok(TerminalKind::ObjectStart, None);
    assert_eq!(check_prefix_exists(&stack, &la, &g), PrefixMatch::PartialMatch);
}

#[test]
fn digits_alone_match_fully() {
    let g = grammar();
    let stack: Vec<StackElement> = Vec::new();
    let la = tok(TerminalKind::Digits, Some(b"7"));
    assert_eq!(check_prefix_exists(&stack, &la, &g), PrefixMatch::FullMatch);
}

#[test]
fn object_end_on_empty_stack_matches_nothing() {
    let g = grammar();
    let stack: Vec<StackElement> = Vec::new();
    let la = tok(TerminalKind::ObjectEnd, None);
    assert_eq!(check_prefix_exists(&stack, &la, &g), PrefixMatch::NoMatch);
}

#[test]
fn action_reduces_digits_to_integer() {
    let g = grammar();
    let mut stack = vec![StackElement::Terminal(tok(TerminalKind::Digits, Some(b"7")))];
    let consumed = action(&mut stack, &g);
    assert_eq!(consumed, 1);
    assert_eq!(stack.len(), 1);
    let expected = StackElement::NonTerminal(JsonElement {
        value: JsonValue::Number(b"+7".to_vec()),
        element_type: NonTerminalKind::Integer,
    });
    assert_eq!(stack[0], expected);
}

#[test]
fn action_leaves_unmatchable_stack_alone() {
    let g = grammar();
    let mut stack = vec![StackElement::Terminal(tok(TerminalKind::Comma, None))];
    assert_eq!(action(&mut stack, &g), 0);
    assert_eq!(stack.len(), 1);
}

#[test]
fn action_on_empty_stack_is_a_no_op() {
    let g = grammar();
    let mut stack: Vec<StackElement> = Vec::new();
    assert_eq!(action(&mut stack, &g), 0);
    assert!(stack.is_empty());
}

#[test]
fn action_prefers_the_longest_match() {
    let g = grammar();
    // A member suffix (string, colon, value) must win over value -> element.
    let mut stack = vec![
        StackElement::Terminal(tok(TerminalKind::StringLiteral, Some(b"k"))),
        StackElement::Terminal(tok(TerminalKind::Colon, None)),
        StackElement::NonTerminal(JsonElement {
            value: JsonValue::Bool(true),
            element_type: NonTerminalKind::Value,
        }),
    ];
    let consumed = action(&mut stack, &g);
    assert_eq!(consumed, 3);
    assert_eq!(stack.len(), 1);
    let expected = StackElement::NonTerminal(JsonElement {
        value: JsonValue::Object(vec![(b"k".to_vec(), JsonValue::Bool(true))]),
        element_type: NonTerminalKind::Member,
    });
    assert_eq!(stack[0], expected);
}

#[test]
fn get_value_rejects_an_empty_stack() {
    assert_eq!(get_value(Vec::new()), Err(ValueError::EmptyStack));
}

#[test]
fn get_value_rejects_a_token_cell() {
    let stack = vec![StackElement::Terminal(tok(TerminalKind::Comma, None))];
    assert_eq!(get_value(stack), Err(ValueError::MissingRule));
}

#[test]
fn get_value_rejects_a_non_array_wrapper() {
    let stack = vec![StackElement::NonTerminal(JsonElement {
        value: JsonValue::Bool(true),
        element_type: NonTerminalKind::Value,
    })];
    assert_eq!(get_value(stack), Err(ValueError::InvalidType));
}

#[test]
fn get_value_rejects_a_wrapper_of_two() {
    let stack = vec![StackElement::NonTerminal(JsonElement {
        value: JsonValue::Array(vec![JsonValue::Null, JsonValue::Null]),
        element_type: NonTerminalKind::Elements,
    })];
    assert_eq!(get_value(stack), Err(ValueError::InvalidLength));
}

#[test]
fn get_value_unwraps_a_singleton() {
    let stack = vec![StackElement::NonTerminal(JsonElement {
        value: JsonValue::Array(vec![JsonValue::Bool(false)]),
        element_type: NonTerminalKind::Elements,
    })];
    assert_eq!(get_value(stack), Ok(JsonValue::Bool(false)));
}

#[test]
fn stack_cells_know_their_symbols() {
    let term = StackElement::Terminal(tok(TerminalKind::Digits, Some(b"1")));
    assert_eq!(term.symbol(), Symbol::Terminal(TerminalKind::Digits));
    assert!(term.value().is_some());
    let red = StackElement::NonTerminal(JsonElement::new(
        JsonValue::Null,
        NonTerminalKind::Value,
    ));
    assert_eq!(red.symbol(), Symbol::NonTerminal(NonTerminalKind::Value));
    assert!(red.value().is_none());
}

#[test]
fn values_report_their_type() {
    assert_eq!(JsonValue::Null.value_type(), JsonValueType::Null);
    assert_eq!(JsonValue::Bool(true).value_type(), JsonValueType::Bool);
    assert_eq!(JsonValue::Number(b"+1".to_vec()).value_type(), JsonValueType::Number);
    assert_eq!(JsonValue::Text(b"x".to_vec()).value_type(), JsonValueType::Text);
    assert_eq!(JsonValue::Array(vec![]).value_type(), JsonValueType::Array);
    assert_eq!(JsonValue::Object(vec![]).value_type(), JsonValueType::Object);
}
