//! Grammar symbols, the parse-stack cells, the declarative table of
//! productions, and one semantic action per production.

use vstd::prelude::*;

use crate::lexer::B_DOT;
use crate::lexer::B_LOWER_E;
use crate::lexer::B_LOWER_R;
use crate::lexer::B_LOWER_T;
use crate::lexer::B_LOWER_U;
use crate::lexer::B_PLUS;
use crate::lexer::SpecToken;
use crate::lexer::Token;
use crate::lexer::spec_true_bytes;
use crate::unmarshal::JsonValue;
use crate::unmarshal::SpecJson;
use crate::unmarshal::entries_view;
use crate::unmarshal::items_view;
use crate::unmarshal::lemma_entries_view_concat;
use crate::unmarshal::lemma_items_view_push;

verus! {

/// The kind of a lexical token: structural characters, literal markers,
/// digit runs, signs and the exponent marker.
#[derive(Clone, Copy, Debug, PartialEq, Eq, Structural)]
pub enum TerminalKind {
    ObjectStart,
    ObjectEnd,
    ArrayStart,
    ArrayEnd,
    Comma,
    Colon,
    FractionSymbol,
    BoolLiteral,
    ExponentMarker,
    Digits,
    NullLiteral,
    Sign,
    StringLiteral,
}

/// The label of a reduced stack cell: one per grammar production head.
#[derive(Clone, Copy, Debug, PartialEq, Eq, Structural)]
pub enum NonTerminalKind {
    Value,
    Object,
    Array,
    Members,
    Member,
    Elements,
    Element,
    Number,
    Integer,
    Fraction,
    Exponent,
    Boolean,
}

/// A grammar symbol: either a token kind or a production head.
#[derive(Clone, Copy, Debug, PartialEq, Eq, Structural)]
pub enum Symbol {
    Terminal(TerminalKind),
    NonTerminal(NonTerminalKind),
}

/// A value built by a reduction, still labeled with the production head
/// that produced it.
#[derive(Debug, PartialEq, Eq)]
pub struct JsonElement {
    pub value: JsonValue,
    pub element_type: NonTerminalKind,
}

/// The mathematical model of a [`JsonElement`].
pub struct SpecElem {
    pub value: SpecJson,
    pub element_type: NonTerminalKind,
}

impl View for JsonElement {
    type V = SpecElem;

    open spec fn view(&self) -> SpecElem {
        SpecElem { value: self.value@, element_type: self.element_type }
    }
}

impl JsonElement {
    /// Wraps a freshly built value under its production head's label.
    pub fn new(value: JsonValue, element_type: NonTerminalKind) -> (r: Self)
        ensures
            r@.value == value@,
            r@.element_type == element_type,
    {
        JsonElement { value, element_type }
    }
}

/// One cell of the parse stack: a shifted token, or a reduced value.
#[derive(Debug, PartialEq, Eq)]
pub enum StackElement {
    Terminal(Token),
    NonTerminal(JsonElement),
}

/// The mathematical model of a [`StackElement`].
pub enum SpecCell {
    Terminal(SpecToken),
    NonTerminal(SpecElem),
}

impl View for StackElement {
    type V = SpecCell;

    open spec fn view(&self) -> SpecCell {
        match self {
            StackElement::Terminal(t) => SpecCell::Terminal(t@),
            StackElement::NonTerminal(e) => SpecCell::NonTerminal(e@),
        }
    }
}

/// The deep view of a stack.
pub open spec fn cells_view(v: Seq<StackElement>) -> Seq<SpecCell> {
    v.map_values(|c: StackElement| c@)
}

/// The payload of a token, the empty sequence where it carries none.
pub open spec fn spec_lexeme(t: SpecToken) -> Seq<u8> {
    match t.lexeme {
        Option::Some(s) => s,
        Option::None => Seq::empty(),
    }
}

/// The payload of a stack cell's token; the empty sequence for a
/// reduced cell.
pub open spec fn spec_cell_lexeme(c: SpecCell) -> Seq<u8> {
    match c {
        SpecCell::Terminal(t) => spec_lexeme(t),
        SpecCell::NonTerminal(_) => Seq::empty(),
    }
}

/// The grammar symbol that a stack cell stands for: fully determined by
/// its tag.
pub open spec fn spec_cell_symbol(c: SpecCell) -> Symbol {
    match c {
        SpecCell::Terminal(t) => Symbol::Terminal(t.kind),
        SpecCell::NonTerminal(e) => Symbol::NonTerminal(e.element_type),
    }
}

/// The symbols of a whole stack, oldest first.
pub open spec fn stack_symbols(cells: Seq<SpecCell>) -> Seq<Symbol> {
    cells.map_values(|c: SpecCell| spec_cell_symbol(c))
}

/// The deep view of a stack distributes over subranges.
pub proof fn lemma_cells_view_subrange(s: Seq<StackElement>, a: int, b: int)
    requires
        0 <= a <= b <= s.len(),
    ensures
        cells_view(s.subrange(a, b)) == cells_view(s).subrange(a, b),
{
    assert(cells_view(s.subrange(a, b)) =~= cells_view(s).subrange(a, b));
}

/// The deep view of a stack distributes over push.
pub proof fn lemma_cells_view_push(s: Seq<StackElement>, x: StackElement)
    ensures
        cells_view(s.push(x)) == cells_view(s).push(x@),
{
    assert(cells_view(s.push(x)) =~= cells_view(s).push(x@));
}

/// The JSON value a stack cell stands for: a reduced cell passes its
/// value through; a token cell converts its literal.
pub open spec fn spec_cell_json(c: SpecCell) -> SpecJson {
    match c {
        SpecCell::NonTerminal(e) => e.value,
        SpecCell::Terminal(t) => match t.kind {
            TerminalKind::StringLiteral => SpecJson::Text(spec_lexeme(t)),
            TerminalKind::BoolLiteral => SpecJson::Bool(spec_lexeme(t) == spec_true_bytes()),
            TerminalKind::NullLiteral => SpecJson::Null,
            _ => SpecJson::Text(Seq::empty()),
        },
    }
}

/// True iff the payload is exactly the keyword `true`.
fn is_true_lexeme(lexeme: &Option<Vec<u8>>) -> (r: bool)
    ensures
        r == (match lexeme {
            Option::Some(v) => v@ == spec_true_bytes(),
            Option::None => false,
        }),
{
    match lexeme {
        Option::Some(v) => {
            if v.len() == 4 && v[0] == B_LOWER_T && v[1] == B_LOWER_R && v[2] == B_LOWER_U && v[3]
                == B_LOWER_E {
                proof {
                    assert(v@ =~= spec_true_bytes());
                }
                true
            } else {
                proof {
                    if v@ == spec_true_bytes() {
                        assert(v@.len() == 4);
                        assert(v@[0] == B_LOWER_T);
                        assert(v@[1] == B_LOWER_R);
                        assert(v@[2] == B_LOWER_U);
                        assert(v@[3] == B_LOWER_E);
                    }
                }
                false
            }
        },
        Option::None => false,
    }
}

impl StackElement {
    /// The token held by a shifted cell, if this is one.
    pub fn value(&self) -> (r: Option<&Token>)
        ensures
            match self {
                StackElement::Terminal(t) => r == Option::Some(t),
                StackElement::NonTerminal(_) => r is None,
            },
    {
        match self {
            StackElement::Terminal(t) => Option::Some(t),
            StackElement::NonTerminal(_) => Option::None,
        }
    }

    /// The grammar symbol this cell stands for.
    pub fn symbol(&self) -> (s: Symbol)
        ensures
            s == spec_cell_symbol(self@),
    {
        match self {
            StackElement::Terminal(t) => Symbol::Terminal(t.kind),
            StackElement::NonTerminal(e) => Symbol::NonTerminal(e.element_type),
        }
    }

    /// Turns this cell into the JSON value it stands for.
    pub fn as_json_value(self) -> (r: JsonValue)
        ensures
            r@ == spec_cell_json(self@),
    {
        match self {
            StackElement::NonTerminal(e) => e.value,
            StackElement::Terminal(t) => {
                match t.kind {
                    TerminalKind::StringLiteral => {
                        match t.lexeme {
                            Option::Some(v) => JsonValue::Text(v),
                            Option::None => JsonValue::Text(Vec::new()),
                        }
                    },
                    TerminalKind::BoolLiteral => {
                        proof {
                            assert(spec_true_bytes().len() == 4);
                        }
                        JsonValue::Bool(is_true_lexeme(&t.lexeme))
                    },
                    TerminalKind::NullLiteral => JsonValue::Null,
                    _ => JsonValue::Text(Vec::new()),
                }
            },
        }
    }
}

/// The entry list of an object value; empty for every other value.
fn entries_of(v: JsonValue) -> (r: Vec<(Vec<u8>, JsonValue)>)
    ensures
        entries_view(r@) == spec_entries(v@),
{
    match v {
        JsonValue::Object(e) => e,
        _ => {
            let r: Vec<(Vec<u8>, JsonValue)> = Vec::new();
            proof {
                assert(entries_view(r@) == Seq::<(Seq<u8>, SpecJson)>::empty());
            }
            r
        },
    }
}

/// The item list of an array value; empty for every other value.
fn items_of(v: JsonValue) -> (r: Vec<JsonValue>)
    ensures
        items_view(r@) == spec_items(v@),
{
    match v {
        JsonValue::Array(items) => items,
        _ => {
            let r: Vec<JsonValue> = Vec::new();
            proof {
                assert(items_view(r@) == Seq::<SpecJson>::empty());
            }
            r
        },
    }
}

/// The lexical text of a number value; empty for every other value.
fn num_text_of(v: JsonValue) -> (r: Vec<u8>)
    ensures
        r@ == spec_num_text(v@),
{
    match v {
        JsonValue::Number(t) => t,
        _ => Vec::new(),
    }
}

/// The payload of a shifted cell's token; empty for a reduced cell.
fn cell_lexeme_of(c: StackElement) -> (r: Vec<u8>)
    ensures
        r@ == spec_cell_lexeme(c@),
{
    match c {
        StackElement::Terminal(t) => {
            match t.lexeme {
                Option::Some(v) => v,
                Option::None => Vec::new(),
            }
        },
        StackElement::NonTerminal(_) => Vec::new(),
    }
}

/// The entries of an object model; empty for every other model.
pub open spec fn spec_entries(j: SpecJson) -> Seq<(Seq<u8>, SpecJson)> {
    match j {
        SpecJson::Object(e) => e,
        _ => Seq::empty(),
    }
}

/// The items of an array model; empty for every other model.
pub open spec fn spec_items(j: SpecJson) -> Seq<SpecJson> {
    match j {
        SpecJson::Array(items) => items,
        _ => Seq::empty(),
    }
}

/// The lexical text of a number model; empty for every other model.
pub open spec fn spec_num_text(j: SpecJson) -> Seq<u8> {
    match j {
        SpecJson::Number(t) => t,
        _ => Seq::empty(),
    }
}

/// True iff `t` begins with the byte `c`.
pub open spec fn spec_starts_with(t: Seq<u8>, c: u8) -> bool {
    t.len() > 0 && t[0] == c
}

/// Appends all of `src` to `dst`.
fn append_bytes(dst: &mut Vec<u8>, src: &Vec<u8>)
    ensures
        final(dst)@ == old(dst)@ + src@,
{
    let mut i: usize = 0;
    while i < src.len()
        invariant
            i <= src@.len(),
            dst@ == old(dst)@ + src@.take(i as int),
        decreases src@.len() - i,
    {
        dst.push(src[i]);
        i += 1;
        proof {
            assert(old(dst)@ + src@.take(i - 1) + seq![src@[i - 1]] =~= old(dst)@ + src@.take(
                i as int,
            ));
        }
    }
    proof {
        assert(src@.take(src@.len() as int) =~= src@);
    }
}

/// Appends all entries of `src` to `dst`, keeping their order.
fn append_entries(dst: &mut Vec<(Vec<u8>, JsonValue)>, src: Vec<(Vec<u8>, JsonValue)>)
    ensures
        final(dst)@ == old(dst)@ + src@,
{
    let ghost src0 = src@;
    let mut src = src;
    let total = src.len();
    let mut moved: usize = 0;
    while src.len() > 0
        invariant
            total == src0.len(),
            moved <= src0.len(),
            src@ == src0.skip(moved as int),
            dst@ == old(dst)@ + src0.take(moved as int),
        decreases src@.len(),
    {
        proof {
            assert(src0.skip(moved as int).len() == src0.len() - moved);
        }
        let entry = src.remove(0);
        dst.push(entry);
        moved += 1;
        proof {
            assert(src0.skip(moved as int - 1).skip(1) =~= src0.skip(moved as int));
            assert(old(dst)@ + src0.take(moved - 1) + seq![src0[moved - 1]] =~= old(dst)@
                + src0.take(moved as int));
        }
    }
    proof {
        assert(src0.take(moved as int) =~= src0);
    }
}


/// Names the semantic action of a production; [`apply_reducer`]
/// dispatches on it.
#[derive(Clone, Copy, Debug, PartialEq, Eq, Structural)]
pub enum Reducer {
    Value,
    Boolean,
    Object,
    Members,
    Member,
    Array,
    Elements,
    Element,
    Number,
    Integer,
    Fraction,
    Exponent,
}

/// What the `value` action builds: the single child's value passed
/// through (a null literal synthesizes `Null` inside [`spec_cell_json`]).
pub open spec fn spec_value_rule(cells: Seq<SpecCell>) -> SpecJson {
    if cells.len() >= 1 {
        spec_cell_json(cells[0])
    } else {
        SpecJson::Null
    }
}

/// What the `boolean` action builds: true exactly for the lexeme `true`.
pub open spec fn spec_boolean_rule(cells: Seq<SpecCell>) -> SpecJson {
    SpecJson::Bool(cells.len() >= 1 && spec_cell_lexeme(cells[0]) == spec_true_bytes())
}

/// What the `object` action builds: the members value of a three-cell
/// match, the empty object otherwise.
pub open spec fn spec_object_rule(cells: Seq<SpecCell>) -> SpecJson {
    if cells.len() == 3 {
        spec_cell_json(cells[1])
    } else {
        SpecJson::Object(Seq::empty())
    }
}

/// What the `members` action builds: the left object's entries with the
/// new member's entries appended, duplicates retained, order preserved.
pub open spec fn spec_members_rule(cells: Seq<SpecCell>) -> SpecJson {
    if cells.len() == 0 {
        SpecJson::Object(Seq::empty())
    } else {
        let last = spec_entries(spec_cell_json(cells.last()));
        if cells.len() == 3 {
            SpecJson::Object(spec_entries(spec_cell_json(cells[0])) + last)
        } else {
            SpecJson::Object(last)
        }
    }
}

/// What the `member` action builds: a one-entry object from the key
/// lexeme and the value cell.
pub open spec fn spec_member_rule(cells: Seq<SpecCell>) -> SpecJson {
    if cells.len() == 3 {
        SpecJson::Object(seq![(spec_cell_lexeme(cells[0]), spec_cell_json(cells[2]))])
    } else {
        SpecJson::Object(Seq::empty())
    }
}

/// What the `array` action builds: the elements value of a three-cell
/// match, the empty array otherwise.
pub open spec fn spec_array_rule(cells: Seq<SpecCell>) -> SpecJson {
    if cells.len() == 3 {
        spec_cell_json(cells[1])
    } else {
        SpecJson::Array(Seq::empty())
    }
}

/// What the `elements` action builds: the left array's items with the
/// new element appended, order preserved.
pub open spec fn spec_elements_rule(cells: Seq<SpecCell>) -> SpecJson {
    if cells.len() == 0 {
        SpecJson::Array(Seq::empty())
    } else {
        let base = if cells.len() == 3 {
            spec_items(spec_cell_json(cells[0]))
        } else {
            Seq::empty()
        };
        SpecJson::Array(base.push(spec_cell_json(cells.last())))
    }
}

/// What the `element` action builds: its single value child, unchanged.
pub open spec fn spec_element_rule(cells: Seq<SpecCell>) -> SpecJson {
    if cells.len() >= 1 {
        spec_cell_json(cells[0])
    } else {
        SpecJson::Null
    }
}

/// What the `number` action builds: the integer text with the optional
/// fraction and exponent fragments appended, kept as lexical bytes.
pub open spec fn spec_number_rule(cells: Seq<SpecCell>) -> SpecJson {
    if cells.len() == 0 {
        SpecJson::Number(Seq::empty())
    } else {
        let t0 = spec_num_text(spec_cell_json(cells[0]));
        let frac = if cells.len() >= 2 && spec_starts_with(
            spec_num_text(spec_cell_json(cells[1])),
            B_DOT,
        ) {
            spec_num_text(spec_cell_json(cells[1]))
        } else {
            Seq::empty()
        };
        let exp = if cells.len() == 2 && spec_starts_with(
            spec_num_text(spec_cell_json(cells[1])),
            B_LOWER_E,
        ) {
            spec_num_text(spec_cell_json(cells[1]))
        } else if cells.len() == 3 && spec_starts_with(
            spec_num_text(spec_cell_json(cells[2])),
            B_LOWER_E,
        ) {
            spec_num_text(spec_cell_json(cells[2]))
        } else {
            Seq::empty()
        };
        SpecJson::Number(t0 + frac + exp)
    }
}

/// What the `integer` action builds: the sign lexeme (`+` where none
/// was written) followed by the digit run.
pub open spec fn spec_integer_rule(cells: Seq<SpecCell>) -> SpecJson {
    if cells.len() == 0 {
        SpecJson::Number(Seq::empty())
    } else {
        let digits = spec_cell_lexeme(cells.last());
        let sign = if cells.len() == 2 {
            spec_cell_lexeme(cells[0])
        } else {
            seq![B_PLUS]
        };
        SpecJson::Number(sign + digits)
    }
}

/// What the `fraction` action builds: a dot followed by the digit run.
pub open spec fn spec_fraction_rule(cells: Seq<SpecCell>) -> SpecJson {
    if cells.len() >= 2 {
        SpecJson::Number(seq![B_DOT] + spec_cell_lexeme(cells[1]))
    } else {
        SpecJson::Number(seq![B_DOT])
    }
}

/// What the `exponent` action builds: an `e` followed by the signed
/// integer text.
pub open spec fn spec_exponent_rule(cells: Seq<SpecCell>) -> SpecJson {
    if cells.len() >= 2 {
        SpecJson::Number(seq![B_LOWER_E] + spec_num_text(spec_cell_json(cells[1])))
    } else {
        SpecJson::Number(seq![B_LOWER_E])
    }
}

/// The value that the named semantic action builds from the matched
/// cells, oldest first.
pub open spec fn spec_apply_reducer(r: Reducer, cells: Seq<SpecCell>) -> SpecJson {
    match r {
        Reducer::Value => spec_value_rule(cells),
        Reducer::Boolean => spec_boolean_rule(cells),
        Reducer::Object => spec_object_rule(cells),
        Reducer::Members => spec_members_rule(cells),
        Reducer::Member => spec_member_rule(cells),
        Reducer::Array => spec_array_rule(cells),
        Reducer::Elements => spec_elements_rule(cells),
        Reducer::Element => spec_element_rule(cells),
        Reducer::Number => spec_number_rule(cells),
        Reducer::Integer => spec_integer_rule(cells),
        Reducer::Fraction => spec_fraction_rule(cells),
        Reducer::Exponent => spec_exponent_rule(cells),
    }
}

/// True iff `t` begins with the byte `c`.
fn starts_with(t: &Vec<u8>, c: u8) -> (r: bool)
    ensures
        r == spec_starts_with(t@, c),
{
    t.len() > 0 && t[0] == c
}

fn value_rule(cells: Vec<StackElement>) -> (r: JsonValue)
    ensures
        r@ == spec_value_rule(cells_view(cells@)),
{
    let ghost cv = cells_view(cells@);
    let mut cells = cells;
    if cells.len() >= 1 {
        let c = cells.remove(0);
        proof {
            assert(cv[0] == c@);
        }
        c.as_json_value()
    } else {
        JsonValue::Null
    }
}

fn boolean_rule(cells: Vec<StackElement>) -> (r: JsonValue)
    ensures
        r@ == spec_boolean_rule(cells_view(cells@)),
{
    let ghost cv = cells_view(cells@);
    let mut cells = cells;
    proof {
        assert(spec_true_bytes().len() == 4);
    }
    if cells.len() >= 1 {
        let c = cells.remove(0);
        proof {
            assert(cv[0] == c@);
        }
        match c {
            StackElement::Terminal(t) => JsonValue::Bool(is_true_lexeme(&t.lexeme)),
            StackElement::NonTerminal(_) => JsonValue::Bool(false),
        }
    } else {
        JsonValue::Bool(false)
    }
}

fn object_rule(cells: Vec<StackElement>) -> (r: JsonValue)
    ensures
        r@ == spec_object_rule(cells_view(cells@)),
{
    let ghost cv = cells_view(cells@);
    let mut cells = cells;
    if cells.len() == 3 {
        let c = cells.remove(1);
        proof {
            assert(cv[1] == c@);
        }
        c.as_json_value()
    } else {
        let e: Vec<(Vec<u8>, JsonValue)> = Vec::new();
        proof {
            assert(entries_view(e@) == Seq::<(Seq<u8>, SpecJson)>::empty());
        }
        JsonValue::Object(e)
    }
}

fn members_rule(cells: Vec<StackElement>) -> (r: JsonValue)
    ensures
        r@ == spec_members_rule(cells_view(cells@)),
{
    let ghost cv = cells_view(cells@);
    let mut cells = cells;
    if cells.len() == 0 {
        let e: Vec<(Vec<u8>, JsonValue)> = Vec::new();
        proof {
            assert(entries_view(e@) == Seq::<(Seq<u8>, SpecJson)>::empty());
        }
        return JsonValue::Object(e);
    }
    let was_three = cells.len() == 3;
    let last_cell = cells.pop().unwrap();
    proof {
        assert(cv.last() == last_cell@);
    }
    let last_entries = entries_of(last_cell.as_json_value());
    if was_three {
        let first = cells.remove(0);
        proof {
            assert(cv[0] == first@);
        }
        let mut left = entries_of(first.as_json_value());
        let ghost left0 = left@;
        let ghost last_e = last_entries@;
        append_entries(&mut left, last_entries);
        proof {
            lemma_entries_view_concat(left0, last_e);
        }
        JsonValue::Object(left)
    } else {
        JsonValue::Object(last_entries)
    }
}

fn member_rule(cells: Vec<StackElement>) -> (r: JsonValue)
    ensures
        r@ == spec_member_rule(cells_view(cells@)),
{
    let ghost cv = cells_view(cells@);
    let mut cells = cells;
    if cells.len() == 3 {
        let c0 = cells.remove(0);
        let c2 = cells.remove(1);
        proof {
            assert(cv[0] == c0@);
            assert(cv[2] == c2@);
        }
        let key = cell_lexeme_of(c0);
        let val = c2.as_json_value();
        let mut entries: Vec<(Vec<u8>, JsonValue)> = Vec::new();
        let ghost key_v = key@;
        let ghost val_v = val@;
        entries.push((key, val));
        proof {
            assert(entries@.drop_last() =~= Seq::<(Vec<u8>, JsonValue)>::empty());
            assert(entries_view(Seq::<(Vec<u8>, JsonValue)>::empty()) == Seq::<
                (Seq<u8>, SpecJson),
            >::empty());
            assert(entries_view(entries@) =~= seq![(key_v, val_v)]);
        }
        JsonValue::Object(entries)
    } else {
        let e: Vec<(Vec<u8>, JsonValue)> = Vec::new();
        proof {
            assert(entries_view(e@) == Seq::<(Seq<u8>, SpecJson)>::empty());
        }
        JsonValue::Object(e)
    }
}

fn array_rule(cells: Vec<StackElement>) -> (r: JsonValue)
    ensures
        r@ == spec_array_rule(cells_view(cells@)),
{
    let ghost cv = cells_view(cells@);
    let mut cells = cells;
    if cells.len() == 3 {
        let c = cells.remove(1);
        proof {
            assert(cv[1] == c@);
        }
        c.as_json_value()
    } else {
        let items: Vec<JsonValue> = Vec::new();
        proof {
            assert(items_view(items@) == Seq::<SpecJson>::empty());
        }
        JsonValue::Array(items)
    }
}

fn elements_rule(cells: Vec<StackElement>) -> (r: JsonValue)
    ensures
        r@ == spec_elements_rule(cells_view(cells@)),
{
    let ghost cv = cells_view(cells@);
    let mut cells = cells;
    if cells.len() == 0 {
        let items: Vec<JsonValue> = Vec::new();
        proof {
            assert(items_view(items@) == Seq::<SpecJson>::empty());
        }
        return JsonValue::Array(items);
    }
    let was_three = cells.len() == 3;
    let last_cell = cells.pop().unwrap();
    proof {
        assert(cv.last() == last_cell@);
    }
    let last_v = last_cell.as_json_value();
    let mut base: Vec<JsonValue>;
    if was_three {
        let first = cells.remove(0);
        proof {
            assert(cv[0] == first@);
        }
        base = items_of(first.as_json_value());
    } else {
        base = Vec::new();
        proof {
            assert(items_view(base@) == Seq::<SpecJson>::empty());
        }
    }
    let ghost base0 = base@;
    let ghost last_view = last_v@;
    base.push(last_v);
    proof {
        lemma_items_view_push(base0, base@.last());
        assert(base@ == base0.push(base@.last()));
    }
    JsonValue::Array(base)
}

fn element_rule(cells: Vec<StackElement>) -> (r: JsonValue)
    ensures
        r@ == spec_element_rule(cells_view(cells@)),
{
    let ghost cv = cells_view(cells@);
    let mut cells = cells;
    if cells.len() >= 1 {
        let c = cells.remove(0);
        proof {
            assert(cv[0] == c@);
        }
        c.as_json_value()
    } else {
        JsonValue::Null
    }
}

fn number_rule(cells: Vec<StackElement>) -> (r: JsonValue)
    ensures
        r@ == spec_number_rule(cells_view(cells@)),
{
    let ghost cv = cells_view(cells@);
    let mut cells = cells;
    if cells.len() == 0 {
        return JsonValue::Number(Vec::new());
    }
    let orig_len = cells.len();
    let c0 = cells.remove(0);
    proof {
        assert(cv[0] == c0@);
    }
    let mut out = num_text_of(c0.as_json_value());
    let ghost t0 = out@;
    if orig_len >= 2 {
        let c1 = cells.remove(0);
        proof {
            assert(cv[1] == c1@);
        }
        let t1 = num_text_of(c1.as_json_value());
        if starts_with(&t1, B_DOT) {
            append_bytes(&mut out, &t1);
        } else if orig_len == 2 && starts_with(&t1, B_LOWER_E) {
            append_bytes(&mut out, &t1);
        }
        if orig_len == 3 {
            let c2 = cells.remove(0);
            proof {
                assert(cv[2] == c2@);
            }
            let t2 = num_text_of(c2.as_json_value());
            if starts_with(&t2, B_LOWER_E) {
                append_bytes(&mut out, &t2);
            }
        }
    }
    proof {
        let frac = if cv.len() >= 2 && spec_starts_with(
            spec_num_text(spec_cell_json(cv[1])),
            B_DOT,
        ) {
            spec_num_text(spec_cell_json(cv[1]))
        } else {
            Seq::<u8>::empty()
        };
        let exp = if cv.len() == 2 && spec_starts_with(
            spec_num_text(spec_cell_json(cv[1])),
            B_LOWER_E,
        ) {
            spec_num_text(spec_cell_json(cv[1]))
        } else if cv.len() == 3 && spec_starts_with(
            spec_num_text(spec_cell_json(cv[2])),
            B_LOWER_E,
        ) {
            spec_num_text(spec_cell_json(cv[2]))
        } else {
            Seq::<u8>::empty()
        };
        assert(out@ =~= t0 + frac + exp);
    }
    JsonValue::Number(out)
}

fn integer_rule(cells: Vec<StackElement>) -> (r: JsonValue)
    ensures
        r@ == spec_integer_rule(cells_view(cells@)),
{
    let ghost cv = cells_view(cells@);
    let mut cells = cells;
    if cells.len() == 0 {
        return JsonValue::Number(Vec::new());
    }
    let was_two = cells.len() == 2;
    let last_cell = cells.pop().unwrap();
    proof {
        assert(cv.last() == last_cell@);
    }
    let digits = cell_lexeme_of(last_cell);
    let mut out: Vec<u8>;
    if was_two {
        let c0 = cells.pop().unwrap();
        proof {
            assert(cv[0] == c0@);
        }
        out = cell_lexeme_of(c0);
    } else {
        out = Vec::new();
        out.push(B_PLUS);
        proof {
            assert(out@ =~= seq![B_PLUS]);
        }
    }
    let ghost sign = out@;
    append_bytes(&mut out, &digits);
    JsonValue::Number(out)
}

fn fraction_rule(cells: Vec<StackElement>) -> (r: JsonValue)
    ensures
        r@ == spec_fraction_rule(cells_view(cells@)),
{
    let ghost cv = cells_view(cells@);
    let mut cells = cells;
    let mut out: Vec<u8> = Vec::new();
    out.push(B_DOT);
    proof {
        assert(out@ =~= seq![B_DOT]);
    }
    if cells.len() >= 2 {
        let c1 = cells.remove(1);
        proof {
            assert(cv[1] == c1@);
        }
        let digits = cell_lexeme_of(c1);
        append_bytes(&mut out, &digits);
    } else {
        proof {
            assert(out@ =~= seq![B_DOT]);
        }
    }
    JsonValue::Number(out)
}

fn exponent_rule(cells: Vec<StackElement>) -> (r: JsonValue)
    ensures
        r@ == spec_exponent_rule(cells_view(cells@)),
{
    let ghost cv = cells_view(cells@);
    let mut cells = cells;
    let mut out: Vec<u8> = Vec::new();
    out.push(B_LOWER_E);
    proof {
        assert(out@ =~= seq![B_LOWER_E]);
    }
    if cells.len() >= 2 {
        let c1 = cells.remove(1);
        proof {
            assert(cv[1] == c1@);
        }
        let text = num_text_of(c1.as_json_value());
        append_bytes(&mut out, &text);
    }
    JsonValue::Number(out)
}

/// Law: a three-cell members reduction appends the new member's
/// entries after the left object's entries, so object entries keep
/// their source order and duplicate keys are all retained.
pub proof fn lemma_members_preserve_order(cells: Seq<SpecCell>)
    requires
        cells.len() == 3,
    ensures
        spec_members_rule(cells) == SpecJson::Object(
            spec_entries(spec_cell_json(cells[0])) + spec_entries(spec_cell_json(cells.last())),
        ),
{
}

/// Law: a three-cell elements reduction appends the new element after
/// the left array's items, so array items keep their source order.
pub proof fn lemma_elements_preserve_order(cells: Seq<SpecCell>)
    requires
        cells.len() == 3,
    ensures
        spec_elements_rule(cells) == SpecJson::Array(
            spec_items(spec_cell_json(cells[0])).push(spec_cell_json(cells.last())),
        ),
{
}

/// Runs the named semantic action on the matched cells, oldest first.
pub(crate) fn apply_reducer(r: Reducer, cells: Vec<StackElement>) -> (v: JsonValue)
    ensures
        v@ == spec_apply_reducer(r, cells_view(cells@)),
{
    match r {
        Reducer::Value => value_rule(cells),
        Reducer::Boolean => boolean_rule(cells),
        Reducer::Object => object_rule(cells),
        Reducer::Members => members_rule(cells),
        Reducer::Member => member_rule(cells),
        Reducer::Array => array_rule(cells),
        Reducer::Elements => elements_rule(cells),
        Reducer::Element => element_rule(cells),
        Reducer::Number => number_rule(cells),
        Reducer::Integer => integer_rule(cells),
        Reducer::Fraction => fraction_rule(cells),
        Reducer::Exponent => exponent_rule(cells),
    }
}


/// One production of the grammar: its head, one right-hand-side
/// alternative, and the semantic action shared by the head's
/// alternatives. The table lists the alternatives of one head as
/// consecutive productions; declaration order is the reduce tie-break.
#[derive(Debug)]
pub struct GrammarRule {
    pub lhs: NonTerminalKind,
    pub rhs: Vec<Symbol>,
    pub reducer: Reducer,
}

/// The mathematical model of a [`GrammarRule`].
pub struct SpecProd {
    pub lhs: NonTerminalKind,
    pub rhs: Seq<Symbol>,
    pub reducer: Reducer,
}

impl View for GrammarRule {
    type V = SpecProd;

    open spec fn view(&self) -> SpecProd {
        SpecProd { lhs: self.lhs, rhs: self.rhs@, reducer: self.reducer }
    }
}

/// The deep view of a production table.
pub open spec fn rules_view(g: Seq<GrammarRule>) -> Seq<SpecProd> {
    g.map_values(|r: GrammarRule| r@)
}

/// The JSON grammar, as pure data: every production with its action.
pub open spec fn the_grammar() -> Seq<SpecProd> {
    seq![
        SpecProd {
            lhs: NonTerminalKind::Value,
            rhs: seq![Symbol::NonTerminal(NonTerminalKind::Object)],
            reducer: Reducer::Value,
        },
        SpecProd {
            lhs: NonTerminalKind::Value,
            rhs: seq![Symbol::NonTerminal(NonTerminalKind::Array)],
            reducer: Reducer::Value,
        },
        SpecProd {
            lhs: NonTerminalKind::Value,
            rhs: seq![Symbol::NonTerminal(NonTerminalKind::Number)],
            reducer: Reducer::Value,
        },
        SpecProd {
            lhs: NonTerminalKind::Value,
            rhs: seq![Symbol::NonTerminal(NonTerminalKind::Boolean)],
            reducer: Reducer::Value,
        },
        SpecProd {
            lhs: NonTerminalKind::Value,
            rhs: seq![Symbol::Terminal(TerminalKind::StringLiteral)],
            reducer: Reducer::Value,
        },
        SpecProd {
            lhs: NonTerminalKind::Value,
            rhs: seq![Symbol::Terminal(TerminalKind::NullLiteral)],
            reducer: Reducer::Value,
        },
        SpecProd {
            lhs: NonTerminalKind::Boolean,
            rhs: seq![Symbol::Terminal(TerminalKind::BoolLiteral)],
            reducer: Reducer::Boolean,
        },
        SpecProd {
            lhs: NonTerminalKind::Object,
            rhs: seq![Symbol::Terminal(TerminalKind::ObjectStart), Symbol::Terminal(TerminalKind::ObjectEnd)],
            reducer: Reducer::Object,
        },
        SpecProd {
            lhs: NonTerminalKind::Object,
            rhs: seq![Symbol::Terminal(TerminalKind::ObjectStart), Symbol::NonTerminal(NonTerminalKind::Members), Symbol::Terminal(TerminalKind::ObjectEnd)],
            reducer: Reducer::Object,
        },
        SpecProd {
            lhs: NonTerminalKind::Members,
            rhs: seq![Symbol::NonTerminal(NonTerminalKind::Member)],
            reducer: Reducer::Members,
        },
        SpecProd {
            lhs: NonTerminalKind::Members,
            rhs: seq![Symbol::NonTerminal(NonTerminalKind::Members), Symbol::Terminal(TerminalKind::Comma), Symbol::NonTerminal(NonTerminalKind::Member)],
            reducer: Reducer::Members,
        },
        SpecProd {
            lhs: NonTerminalKind::Member,
            rhs: seq![Symbol::Terminal(TerminalKind::StringLiteral), Symbol::Terminal(TerminalKind::Colon), Symbol::NonTerminal(NonTerminalKind::Value)],
            reducer: Reducer::Member,
        },
        SpecProd {
            lhs: NonTerminalKind::Array,
            rhs: seq![Symbol::Terminal(TerminalKind::ArrayStart), Symbol::Terminal(TerminalKind::ArrayEnd)],
            reducer: Reducer::Array,
        },
        SpecProd {
            lhs: NonTerminalKind::Array,
            rhs: seq![Symbol::Terminal(TerminalKind::ArrayStart), Symbol::NonTerminal(NonTerminalKind::Elements), Symbol::Terminal(TerminalKind::ArrayEnd)],
            reducer: Reducer::Array,
        },
        SpecProd {
            lhs: NonTerminalKind::Elements,
            rhs: seq![Symbol::NonTerminal(NonTerminalKind::Element)],
            reducer: Reducer::Elements,
        },
        SpecProd {
            lhs: NonTerminalKind::Elements,
            rhs: seq![Symbol::NonTerminal(NonTerminalKind::Elements), Symbol::Terminal(TerminalKind::Comma), Symbol::NonTerminal(NonTerminalKind::Element)],
            reducer: Reducer::Elements,
        },
        SpecProd {
            lhs: NonTerminalKind::Element,
            rhs: seq![Symbol::NonTerminal(NonTerminalKind::Value)],
            reducer: Reducer::Element,
        },
        SpecProd {
            lhs: NonTerminalKind::Number,
            rhs: seq![Symbol::NonTerminal(NonTerminalKind::Integer), Symbol::NonTerminal(NonTerminalKind::Fraction), Symbol::NonTerminal(NonTerminalKind::Exponent)],
            reducer: Reducer::Number,
        },
        SpecProd {
            lhs: NonTerminalKind::Number,
            rhs: seq![Symbol::NonTerminal(NonTerminalKind::Integer), Symbol::NonTerminal(NonTerminalKind::Fraction)],
            reducer: Reducer::Number,
        },
        SpecProd {
            lhs: NonTerminalKind::Number,
            rhs: seq![Symbol::NonTerminal(NonTerminalKind::Integer), Symbol::NonTerminal(NonTerminalKind::Exponent)],
            reducer: Reducer::Number,
        },
        SpecProd {
            lhs: NonTerminalKind::Number,
            rhs: seq![Symbol::NonTerminal(NonTerminalKind::Integer)],
            reducer: Reducer::Number,
        },
        SpecProd {
            lhs: NonTerminalKind::Integer,
            rhs: seq![Symbol::Terminal(TerminalKind::Digits)],
            reducer: Reducer::Integer,
        },
        SpecProd {
            lhs: NonTerminalKind::Integer,
            rhs: seq![Symbol::Terminal(TerminalKind::Sign), Symbol::Terminal(TerminalKind::Digits)],
            reducer: Reducer::Integer,
        },
        SpecProd {
            lhs: NonTerminalKind::Fraction,
            rhs: seq![Symbol::Terminal(TerminalKind::FractionSymbol), Symbol::Terminal(TerminalKind::Digits)],
            reducer: Reducer::Fraction,
        },
        SpecProd {
            lhs: NonTerminalKind::Exponent,
            rhs: seq![Symbol::Terminal(TerminalKind::ExponentMarker), Symbol::NonTerminal(NonTerminalKind::Integer)],
            reducer: Reducer::Exponent,
        },
    ]
}

fn sym1(a: Symbol) -> (v: Vec<Symbol>)
    ensures
        v@ == seq![a],
{
    let mut v: Vec<Symbol> = Vec::new();
    v.push(a);
    proof {
        assert(v@ =~= seq![a]);
    }
    v
}

fn sym2(a: Symbol, b: Symbol) -> (v: Vec<Symbol>)
    ensures
        v@ == seq![a, b],
{
    let mut v: Vec<Symbol> = Vec::new();
    v.push(a);
    v.push(b);
    proof {
        assert(v@ =~= seq![a, b]);
    }
    v
}

fn sym3(a: Symbol, b: Symbol, c: Symbol) -> (v: Vec<Symbol>)
    ensures
        v@ == seq![a, b, c],
{
    let mut v: Vec<Symbol> = Vec::new();
    v.push(a);
    v.push(b);
    v.push(c);
    proof {
        assert(v@ =~= seq![a, b, c]);
    }
    v
}

/// Builds the grammar table; its contents are exactly [`the_grammar`].
#[verifier::rlimit(60)]
pub fn grammar() -> (g: Vec<GrammarRule>)
    ensures
        rules_view(g@) == the_grammar(),
{
    let mut g: Vec<GrammarRule> = Vec::new();
    g.push(GrammarRule {
        lhs: NonTerminalKind::Value,
        rhs: sym1(Symbol::NonTerminal(NonTerminalKind::Object)),
        reducer: Reducer::Value,
    });
    g.push(GrammarRule {
        lhs: NonTerminalKind::Value,
        rhs: sym1(Symbol::NonTerminal(NonTerminalKind::Array)),
        reducer: Reducer::Value,
    });
    g.push(GrammarRule {
        lhs: NonTerminalKind::Value,
        rhs: sym1(Symbol::NonTerminal(NonTerminalKind::Number)),
        reducer: Reducer::Value,
    });
    g.push(GrammarRule {
        lhs: NonTerminalKind::Value,
        rhs: sym1(Symbol::NonTerminal(NonTerminalKind::Boolean)),
        reducer: Reducer::Value,
    });
    g.push(GrammarRule {
        lhs: NonTerminalKind::Value,
        rhs: sym1(Symbol::Terminal(TerminalKind::StringLiteral)),
        reducer: Reducer::Value,
    });
    g.push(GrammarRule {
        lhs: NonTerminalKind::Value,
        rhs: sym1(Symbol::Terminal(TerminalKind::NullLiteral)),
        reducer: Reducer::Value,
    });
    g.push(GrammarRule {
        lhs: NonTerminalKind::Boolean,
        rhs: sym1(Symbol::Terminal(TerminalKind::BoolLiteral)),
        reducer: Reducer::Boolean,
    });
    g.push(GrammarRule {
        lhs: NonTerminalKind::Object,
        rhs: sym2(Symbol::Terminal(TerminalKind::ObjectStart), Symbol::Terminal(TerminalKind::ObjectEnd)),
        reducer: Reducer::Object,
    });
    g.push(GrammarRule {
        lhs: NonTerminalKind::Object,
        rhs: sym3(Symbol::Terminal(TerminalKind::ObjectStart), Symbol::NonTerminal(NonTerminalKind::Members), Symbol::Terminal(TerminalKind::ObjectEnd)),
        reducer: Reducer::Object,
    });
    g.push(GrammarRule {
        lhs: NonTerminalKind::Members,
        rhs: sym1(Symbol::NonTerminal(NonTerminalKind::Member)),
        reducer: Reducer::Members,
    });
    g.push(GrammarRule {
        lhs: NonTerminalKind::Members,
        rhs: sym3(Symbol::NonTerminal(NonTerminalKind::Members), Symbol::Terminal(TerminalKind::Comma), Symbol::NonTerminal(NonTerminalKind::Member)),
        reducer: Reducer::Members,
    });
    g.push(GrammarRule {
        lhs: NonTerminalKind::Member,
        rhs: sym3(Symbol::Terminal(TerminalKind::StringLiteral), Symbol::Terminal(TerminalKind::Colon), Symbol::NonTerminal(NonTerminalKind::Value)),
        reducer: Reducer::Member,
    });
    g.push(GrammarRule {
        lhs: NonTerminalKind::Array,
        rhs: sym2(Symbol::Terminal(TerminalKind::ArrayStart), Symbol::Terminal(TerminalKind::ArrayEnd)),
        reducer: Reducer::Array,
    });
    g.push(GrammarRule {
        lhs: NonTerminalKind::Array,
        rhs: sym3(Symbol::Terminal(TerminalKind::ArrayStart), Symbol::NonTerminal(NonTerminalKind::Elements), Symbol::Terminal(TerminalKind::ArrayEnd)),
        reducer: Reducer::Array,
    });
    g.push(GrammarRule {
        lhs: NonTerminalKind::Elements,
        rhs: sym1(Symbol::NonTerminal(NonTerminalKind::Element)),
        reducer: Reducer::Elements,
    });
    g.push(GrammarRule {
        lhs: NonTerminalKind::Elements,
        rhs: sym3(Symbol::NonTerminal(NonTerminalKind::Elements), Symbol::Terminal(TerminalKind::Comma), Symbol::NonTerminal(NonTerminalKind::Element)),
        reducer: Reducer::Elements,
    });
    g.push(GrammarRule {
        lhs: NonTerminalKind::Element,
        rhs: sym1(Symbol::NonTerminal(NonTerminalKind::Value)),
        reducer: Reducer::Element,
    });
    g.push(GrammarRule {
        lhs: NonTerminalKind::Number,
        rhs: sym3(Symbol::NonTerminal(NonTerminalKind::Integer), Symbol::NonTerminal(NonTerminalKind::Fraction), Symbol::NonTerminal(NonTerminalKind::Exponent)),
        reducer: Reducer::Number,
    });
    g.push(GrammarRule {
        lhs: NonTerminalKind::Number,
        rhs: sym2(Symbol::NonTerminal(NonTerminalKind::Integer), Symbol::NonTerminal(NonTerminalKind::Fraction)),
        reducer: Reducer::Number,
    });
    g.push(GrammarRule {
        lhs: NonTerminalKind::Number,
        rhs: sym2(Symbol::NonTerminal(NonTerminalKind::Integer), Symbol::NonTerminal(NonTerminalKind::Exponent)),
        reducer: Reducer::Number,
    });
    g.push(GrammarRule {
        lhs: NonTerminalKind::Number,
        rhs: sym1(Symbol::NonTerminal(NonTerminalKind::Integer)),
        reducer: Reducer::Number,
    });
    g.push(GrammarRule {
        lhs: NonTerminalKind::Integer,
        rhs: sym1(Symbol::Terminal(TerminalKind::Digits)),
        reducer: Reducer::Integer,
    });
    g.push(GrammarRule {
        lhs: NonTerminalKind::Integer,
        rhs: sym2(Symbol::Terminal(TerminalKind::Sign), Symbol::Terminal(TerminalKind::Digits)),
        reducer: Reducer::Integer,
    });
    g.push(GrammarRule {
        lhs: NonTerminalKind::Fraction,
        rhs: sym2(Symbol::Terminal(TerminalKind::FractionSymbol), Symbol::Terminal(TerminalKind::Digits)),
        reducer: Reducer::Fraction,
    });
    g.push(GrammarRule {
        lhs: NonTerminalKind::Exponent,
        rhs: sym2(Symbol::Terminal(TerminalKind::ExponentMarker), Symbol::NonTerminal(NonTerminalKind::Integer)),
        reducer: Reducer::Exponent,
    });
    proof {
        assert(rules_view(g@) =~= the_grammar());
    }
    g
}

} // verus!


