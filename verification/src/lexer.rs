//! The lexer: turns raw bytes into an ordered token sequence.
//!
//! The scan is byte-wise and eager: whitespace between tokens is skipped,
//! and the first failure aborts the whole scan with no partial token list.
//! [`spec_lex`] is the mathematical model of the scan; [`lex`] is proved
//! to agree with it on every input.

use vstd::prelude::*;

use crate::grammar::TerminalKind;

verus! {

/// Byte values the scanner compares against, by name.
pub const B_SPACE: u8 = 32;

pub const B_TAB: u8 = 9;

pub const B_NEWLINE: u8 = 10;

pub const B_CARRIAGE: u8 = 13;

pub const B_QUOTE: u8 = 34;

pub const B_BACKSLASH: u8 = 92;

pub const B_PLUS: u8 = 43;

pub const B_MINUS: u8 = 45;

pub const B_ZERO: u8 = 48;

pub const B_NINE: u8 = 57;

pub const B_LBRACE: u8 = 123;

pub const B_RBRACE: u8 = 125;

pub const B_LBRACKET: u8 = 91;

pub const B_RBRACKET: u8 = 93;

pub const B_COMMA: u8 = 44;

pub const B_COLON: u8 = 58;

pub const B_DOT: u8 = 46;

pub const B_LOWER_A: u8 = 97;

pub const B_LOWER_E: u8 = 101;

pub const B_UPPER_E: u8 = 69;

pub const B_LOWER_F: u8 = 102;

pub const B_LOWER_L: u8 = 108;

pub const B_LOWER_N: u8 = 110;

pub const B_LOWER_R: u8 = 114;

pub const B_LOWER_S: u8 = 115;

pub const B_LOWER_T: u8 = 116;

pub const B_LOWER_U: u8 = 117;

/// A lexing failure: the whole scan aborts at the first one.
#[derive(Clone, Copy, Debug, PartialEq, Eq, Structural)]
pub enum TokenError {
    /// A string literal could not be scanned: an invalid escape sequence
    /// at the given byte position, or no closing quote before the end of
    /// the input (then the position is the input length).
    StringLexFailure(usize),
    /// A leading byte that starts no token at all.
    UnrecognizedTokenError,
}

/// One lexical token: its kind, and the decoded payload for the kinds
/// that carry one (digit runs, signs, string and boolean literals).
#[derive(Debug, PartialEq, Eq)]
pub struct Token {
    pub kind: TerminalKind,
    pub lexeme: Option<Vec<u8>>,
}

/// The mathematical model of a [`Token`].
pub struct SpecToken {
    pub kind: TerminalKind,
    pub lexeme: Option<Seq<u8>>,
}

impl View for Token {
    type V = SpecToken;

    open spec fn view(&self) -> SpecToken {
        SpecToken {
            kind: self.kind,
            lexeme: match self.lexeme {
                Option::Some(v) => Option::Some(v@),
                Option::None => Option::None,
            },
        }
    }
}

impl Token {
    /// The decoded payload carried by this token, if any.
    pub fn value(&self) -> (r: &Option<Vec<u8>>)
        ensures
            *r == self.lexeme,
    {
        &self.lexeme
    }
}

/// The byte sequence of the keyword `true`.
pub open spec fn spec_true_bytes() -> Seq<u8> {
    seq![B_LOWER_T, B_LOWER_R, B_LOWER_U, B_LOWER_E]
}

/// The byte sequence of the keyword `false`.
pub open spec fn spec_false_bytes() -> Seq<u8> {
    seq![B_LOWER_F, B_LOWER_A, B_LOWER_L, B_LOWER_S, B_LOWER_E]
}

/// The byte sequence of the keyword `null`.
pub open spec fn spec_null_bytes() -> Seq<u8> {
    seq![B_LOWER_N, B_LOWER_U, B_LOWER_L, B_LOWER_L]
}

/// The bytes skipped between tokens: space, tab and newline.
pub open spec fn spec_is_whitespace(c: u8) -> bool {
    c == B_SPACE || c == B_TAB || c == B_NEWLINE
}

/// The decimal digits.
pub open spec fn spec_is_digit(c: u8) -> bool {
    B_ZERO <= c && c <= B_NINE
}

/// The single-character structural symbols and their token kinds.
pub open spec fn spec_special_symbol(c: u8) -> Option<TerminalKind> {
    if c == B_LBRACE {
        Option::Some(TerminalKind::ObjectStart)
    } else if c == B_RBRACE {
        Option::Some(TerminalKind::ObjectEnd)
    } else if c == B_LBRACKET {
        Option::Some(TerminalKind::ArrayStart)
    } else if c == B_RBRACKET {
        Option::Some(TerminalKind::ArrayEnd)
    } else if c == B_COMMA {
        Option::Some(TerminalKind::Comma)
    } else if c == B_COLON {
        Option::Some(TerminalKind::Colon)
    } else if c == B_DOT {
        Option::Some(TerminalKind::FractionSymbol)
    } else {
        Option::None
    }
}

/// The length of the maximal digit run starting at position `i`.
pub open spec fn spec_digit_run(s: Seq<u8>, i: int) -> nat
    decreases s.len() - i,
    when 0 <= i <= s.len()
{
    if i < s.len() && spec_is_digit(s[i]) {
        1 + spec_digit_run(s, i + 1)
    } else {
        0
    }
}

/// Scans the inside of a string literal from position `i` (just past the
/// opening quote): the decoded content and the position just past the
/// closing quote, or the failing position.
pub open spec fn spec_scan_string(s: Seq<u8>, i: int) -> Result<(Seq<u8>, int), TokenError>
    decreases s.len() - i,
    when 0 <= i <= s.len()
{
    if i >= s.len() {
        Result::Err(TokenError::StringLexFailure(s.len() as usize))
    } else if s[i] == B_QUOTE {
        Result::Ok((Seq::empty(), i + 1))
    } else if s[i] == B_BACKSLASH && i + 1 < s.len() {
        let e = s[i + 1];
        let decoded: u8 = if e == B_LOWER_N {
            B_NEWLINE
        } else if e == B_LOWER_T {
            B_TAB
        } else if e == B_LOWER_R {
            B_CARRIAGE
        } else {
            e
        };
        if e == B_QUOTE || e == B_BACKSLASH || e == B_LOWER_N || e == B_LOWER_T || e == B_LOWER_R {
            match spec_scan_string(s, i + 2) {
                Result::Ok((content, j)) => Result::Ok((seq![decoded] + content, j)),
                Result::Err(x) => Result::Err(x),
            }
        } else {
            Result::Err(TokenError::StringLexFailure((i + 1) as usize))
        }
    } else {
        match spec_scan_string(s, i + 1) {
            Result::Ok((content, j)) => Result::Ok((seq![s[i]] + content, j)),
            Result::Err(x) => Result::Err(x),
        }
    }
}

/// True iff `kw` occurs in `s` starting at position `i`.
pub open spec fn spec_keyword_at(s: Seq<u8>, i: int, kw: Seq<u8>) -> bool {
    i + kw.len() <= s.len() && s.subrange(i, i + kw.len()) == kw
}

/// Prepends one token to a scan result, passing an error through.
pub open spec fn spec_cons_token(
    t: SpecToken,
    rest: Result<Seq<SpecToken>, TokenError>,
) -> Result<Seq<SpecToken>, TokenError> {
    match rest {
        Result::Ok(ts) => Result::Ok(seq![t] + ts),
        Result::Err(e) => Result::Err(e),
    }
}

/// The token sequence of the input from position `i` on, or the first
/// lexing failure.
pub open spec fn spec_lex_at(s: Seq<u8>, i: int) -> Result<Seq<SpecToken>, TokenError>
    decreases s.len() - i,
    when 0 <= i <= s.len()
{
    if i >= s.len() {
        Result::Ok(Seq::empty())
    } else {
        let c = s[i];
        match spec_special_symbol(c) {
            Option::Some(kind) => spec_cons_token(
                SpecToken { kind, lexeme: Option::None },
                spec_lex_at(s, i + 1),
            ),
            Option::None => if c == B_QUOTE {
                match spec_scan_string(s, i + 1) {
                    Result::Ok((content, j)) => {
                        proof {
                            lemma_scan_string_bounds(s, i + 1);
                        }
                        spec_cons_token(
                            SpecToken {
                                kind: TerminalKind::StringLiteral,
                                lexeme: Option::Some(content),
                            },
                            spec_lex_at(s, j),
                        )
                    },
                    Result::Err(x) => Result::Err(x),
                }
            } else if c == B_LOWER_T {
                if spec_keyword_at(s, i, spec_true_bytes()) {
                    spec_cons_token(
                        SpecToken {
                            kind: TerminalKind::BoolLiteral,
                            lexeme: Option::Some(spec_true_bytes()),
                        },
                        spec_lex_at(s, i + 4),
                    )
                } else {
                    Result::Err(TokenError::UnrecognizedTokenError)
                }
            } else if c == B_LOWER_F {
                if spec_keyword_at(s, i, spec_false_bytes()) {
                    spec_cons_token(
                        SpecToken {
                            kind: TerminalKind::BoolLiteral,
                            lexeme: Option::Some(spec_false_bytes()),
                        },
                        spec_lex_at(s, i + 5),
                    )
                } else {
                    Result::Err(TokenError::UnrecognizedTokenError)
                }
            } else if c == B_LOWER_N {
                if spec_keyword_at(s, i, spec_null_bytes()) {
                    spec_cons_token(
                        SpecToken { kind: TerminalKind::NullLiteral, lexeme: Option::None },
                        spec_lex_at(s, i + 4),
                    )
                } else {
                    Result::Err(TokenError::UnrecognizedTokenError)
                }
            } else if c == B_LOWER_E || c == B_UPPER_E {
                spec_cons_token(
                    SpecToken { kind: TerminalKind::ExponentMarker, lexeme: Option::None },
                    spec_lex_at(s, i + 1),
                )
            } else if c == B_PLUS || c == B_MINUS {
                spec_cons_token(
                    SpecToken { kind: TerminalKind::Sign, lexeme: Option::Some(seq![c]) },
                    spec_lex_at(s, i + 1),
                )
            } else if spec_is_digit(c) {
                proof {
                    lemma_digit_run_bounds(s, i);
                }
                spec_cons_token(
                    SpecToken {
                        kind: TerminalKind::Digits,
                        lexeme: Option::Some(s.subrange(i, i + spec_digit_run(s, i))),
                    },
                    spec_lex_at(s, i + spec_digit_run(s, i)),
                )
            } else if spec_is_whitespace(c) {
                spec_lex_at(s, i + 1)
            } else {
                Result::Err(TokenError::UnrecognizedTokenError)
            },
        }
    }
}

/// The token sequence of the whole input, or the first lexing failure.
pub open spec fn spec_lex(s: Seq<u8>) -> Result<Seq<SpecToken>, TokenError> {
    spec_lex_at(s, 0)
}

/// A string scan that succeeds ends past its starting position and
/// within the input.
pub proof fn lemma_scan_string_bounds(s: Seq<u8>, i: int)
    requires
        0 <= i <= s.len(),
    ensures
        spec_scan_string(s, i) matches Result::Ok((content, j)) ==> i < j <= s.len(),
    decreases s.len() - i,
{
    if i >= s.len() {
    } else if s[i] == B_QUOTE {
    } else if s[i] == B_BACKSLASH && i + 1 < s.len() {
        lemma_scan_string_bounds(s, i + 2);
    } else {
        lemma_scan_string_bounds(s, i + 1);
    }
}

/// A digit run starting inside the input stays inside the input.
pub proof fn lemma_digit_run_bounds(s: Seq<u8>, i: int)
    requires
        0 <= i <= s.len(),
    ensures
        i + spec_digit_run(s, i) <= s.len(),
    decreases s.len() - i,
{
    if i < s.len() && spec_is_digit(s[i]) {
        lemma_digit_run_bounds(s, i + 1);
    }
}

/// The digit run length is pinned by its two boundary facts: every byte
/// before `j` is a digit, and `j` is the input end or a non-digit.
pub proof fn lemma_digit_run_value(s: Seq<u8>, i: int, j: int)
    requires
        0 <= i <= j <= s.len(),
        forall|k: int| i <= k < j ==> spec_is_digit(s[k]),
        j == s.len() || !spec_is_digit(s[j]),
    ensures
        spec_digit_run(s, i) == j - i,
    decreases j - i,
{
    if i < j {
        assert(spec_is_digit(s[i]));
        lemma_digit_run_value(s, i + 1, j);
    }
}


/// The deep view of a token sequence.
pub open spec fn toks_view(v: Seq<Token>) -> Seq<SpecToken> {
    v.map_values(|t: Token| t@)
}

/// Prepends already-produced tokens to the scan of the rest of the
/// input, passing an error through.
pub open spec fn spec_lex_prepend(
    pre: Seq<SpecToken>,
    rest: Result<Seq<SpecToken>, TokenError>,
) -> Result<Seq<SpecToken>, TokenError> {
    match rest {
        Result::Ok(ts) => Result::Ok(pre + ts),
        Result::Err(e) => Result::Err(e),
    }
}

/// Prepends already-decoded content bytes to the scan of the rest of a
/// string literal, passing an error through.
pub open spec fn spec_scan_prepend(
    pre: Seq<u8>,
    rest: Result<(Seq<u8>, int), TokenError>,
) -> Result<(Seq<u8>, int), TokenError> {
    match rest {
        Result::Ok((content, j)) => Result::Ok((pre + content, j)),
        Result::Err(e) => Result::Err(e),
    }
}

proof fn lemma_prepend_cons(
    pre: Seq<SpecToken>,
    t: SpecToken,
    rest: Result<Seq<SpecToken>, TokenError>,
)
    ensures
        spec_lex_prepend(pre, spec_cons_token(t, rest)) == spec_lex_prepend(pre.push(t), rest),
{
    match rest {
        Result::Ok(ts) => {
            assert(pre + (seq![t] + ts) =~= pre.push(t) + ts);
        },
        Result::Err(_) => {},
    }
}

proof fn lemma_toks_view_push(v: Seq<Token>, t: Token)
    ensures
        toks_view(v.push(t)) == toks_view(v).push(t@),
{
    assert(toks_view(v.push(t)) =~= toks_view(v).push(t@));
}

fn is_whitespace(ch: u8) -> (r: bool)
    ensures
        r == spec_is_whitespace(ch),
{
    ch == B_SPACE || ch == B_TAB || ch == B_NEWLINE
}

fn is_digit(ch: u8) -> (r: bool)
    ensures
        r == spec_is_digit(ch),
{
    B_ZERO <= ch && ch <= B_NINE
}

fn special_symbol(ch: u8) -> (r: Option<TerminalKind>)
    ensures
        r == spec_special_symbol(ch),
{
    if ch == B_LBRACE {
        Option::Some(TerminalKind::ObjectStart)
    } else if ch == B_RBRACE {
        Option::Some(TerminalKind::ObjectEnd)
    } else if ch == B_LBRACKET {
        Option::Some(TerminalKind::ArrayStart)
    } else if ch == B_RBRACKET {
        Option::Some(TerminalKind::ArrayEnd)
    } else if ch == B_COMMA {
        Option::Some(TerminalKind::Comma)
    } else if ch == B_COLON {
        Option::Some(TerminalKind::Colon)
    } else if ch == B_DOT {
        Option::Some(TerminalKind::FractionSymbol)
    } else {
        Option::None
    }
}

/// Scans the maximal digit run starting at `start` into one token;
/// returns the token and the position just past the run.
fn lex_digits(input: &[u8], start: usize) -> (r: (Token, usize))
    requires
        start < input@.len(),
        spec_is_digit(input@[start as int]),
    ensures
        r.1 == start + spec_digit_run(input@, start as int),
        r.0@.kind == TerminalKind::Digits,
        r.0@.lexeme == Option::Some(input@.subrange(start as int, r.1 as int)),
{
    let ghost s = input@;
    let mut text: Vec<u8> = Vec::new();
    let mut j: usize = start;
    loop
        invariant
            start <= j <= s.len(),
            s == input@,
            forall|k: int| start <= k < j ==> spec_is_digit(s[k]),
            text@ == s.subrange(start as int, j as int),
        ensures
            start <= j <= s.len(),
            forall|k: int| start <= k < j ==> spec_is_digit(s[k]),
            text@ == s.subrange(start as int, j as int),
            j == s.len() || !spec_is_digit(s[j as int]),
        decreases s.len() - j,
    {
        if j >= input.len() {
            break;
        }
        let c = input[j];
        if !is_digit(c) {
            break;
        }
        text.push(c);
        j += 1;
        proof {
            assert(text@ =~= s.subrange(start as int, j as int));
        }
    }
    proof {
        lemma_digit_run_value(s, start as int, j as int);
    }
    (Token { kind: TerminalKind::Digits, lexeme: Option::Some(text) }, j)
}

/// Scans one string literal whose opening quote stands at `start`;
/// returns the decoded token and the position just past the closing
/// quote, or the position of the failure.
fn lex_string(input: &[u8], start: usize) -> (r: Result<(Token, usize), TokenError>)
    requires
        start < input@.len(),
        input@[start as int] == B_QUOTE,
    ensures
        r is Ok ==> spec_scan_string(input@, start as int + 1) is Ok,
        r is Ok ==> r->Ok_0.0@.kind == TerminalKind::StringLiteral,
        r is Ok ==> r->Ok_0.0@.lexeme == Option::Some(
            spec_scan_string(input@, start as int + 1)->Ok_0.0,
        ),
        r is Ok ==> r->Ok_0.1 == spec_scan_string(input@, start as int + 1)->Ok_0.1,
        r is Err ==> spec_scan_string(input@, start as int + 1) == Result::Err::<
            (Seq<u8>, int),
            TokenError,
        >(r->Err_0),
{
    let ghost s = input@;
    let ghost target = spec_scan_string(s, start as int + 1);
    let n = input.len();
    let mut content: Vec<u8> = Vec::new();
    let mut j: usize = start + 1;
    loop
        invariant
            start as int + 1 <= j <= s.len(),
            s == input@,
            target == spec_scan_string(s, start as int + 1),
            spec_scan_prepend(content@, spec_scan_string(s, j as int)) == target,
        ensures
            j <= s.len(),
            j == s.len() || s[j as int] == B_QUOTE,
            target == spec_scan_string(s, start as int + 1),
            spec_scan_prepend(content@, spec_scan_string(s, j as int)) == target,
        decreases s.len() - j,
    {
        if j >= input.len() {
            break;
        }
        let c = input[j];
        if c == B_QUOTE {
            break;
        }
        let ghost pre = content@;
        if c == B_BACKSLASH && j + 1 < input.len() {
            let e = input[j + 1];
            let decoded: u8;
            if e == B_QUOTE || e == B_BACKSLASH {
                decoded = e;
            } else if e == B_LOWER_N {
                decoded = B_NEWLINE;
            } else if e == B_LOWER_T {
                decoded = B_TAB;
            } else if e == B_LOWER_R {
                decoded = B_CARRIAGE;
            } else {
                return Result::Err(TokenError::StringLexFailure(j + 1));
            }
            content.push(decoded);
            j += 2;
            proof {
                match spec_scan_string(s, j as int) {
                    Result::Ok((c2, e2)) => {
                        assert(pre + (seq![decoded] + c2) =~= pre.push(decoded) + c2);
                    },
                    Result::Err(_) => {},
                }
            }
        } else {
            content.push(c);
            j += 1;
            proof {
                match spec_scan_string(s, j as int) {
                    Result::Ok((c2, e2)) => {
                        assert(pre + (seq![c] + c2) =~= pre.push(c) + c2);
                    },
                    Result::Err(_) => {},
                }
            }
        }
    }
    if j >= input.len() {
        return Result::Err(TokenError::StringLexFailure(input.len()));
    }
    proof {
        assert(content@ + Seq::<u8>::empty() =~= content@);
    }
    Result::Ok((Token { kind: TerminalKind::StringLiteral, lexeme: Option::Some(content) }, j + 1))
}

/// Lexes the whole input into its ordered token sequence, or reports
/// the first failure; agrees with [`spec_lex`] on every input.
pub fn lex(input: &[u8]) -> (r: Result<Vec<Token>, TokenError>)
    ensures
        r is Ok ==> spec_lex(input@) == Result::Ok::<Seq<SpecToken>, TokenError>(
            toks_view(r->Ok_0@),
        ),
        r is Err ==> spec_lex(input@) == Result::Err::<Seq<SpecToken>, TokenError>(r->Err_0),
{
    let ghost s = input@;
    let ghost target = spec_lex(s);
    let mut tokens: Vec<Token> = Vec::new();
    let mut i: usize = 0;
    while i < input.len()
        invariant
            i <= s.len(),
            s == input@,
            target == spec_lex(s),
            spec_lex_prepend(toks_view(tokens@), spec_lex_at(s, i as int)) == target,
        decreases s.len() - i,
    {
        let ch = input[i];
        let ghost pre = toks_view(tokens@);
        let ghost i0 = i as int;
        match special_symbol(ch) {
            Option::Some(kind) => {
                let tok = Token { kind, lexeme: Option::None };
                proof {
                    lemma_prepend_cons(pre, tok@, spec_lex_at(s, i0 + 1));
                    lemma_toks_view_push(tokens@, tok);
                }
                tokens.push(tok);
                i += 1;
            },
            Option::None => {
                if ch == B_QUOTE {
                    match lex_string(input, i) {
                        Result::Ok(p) => {
                            let (tok, end) = p;
                            proof {
                                lemma_scan_string_bounds(s, i0 + 1);
                                lemma_prepend_cons(pre, tok@, spec_lex_at(s, end as int));
                                lemma_toks_view_push(tokens@, tok);
                            }
                            tokens.push(tok);
                            i = end;
                        },
                        Result::Err(e) => {
                            return Result::Err(e);
                        },
                    }
                } else if ch == B_LOWER_T {
                    if input.len() - i >= 4 && input[i + 1] == B_LOWER_R && input[i + 2]
                        == B_LOWER_U && input[i + 3] == B_LOWER_E {
                        let mut kw: Vec<u8> = Vec::new();
                        kw.push(B_LOWER_T);
                        kw.push(B_LOWER_R);
                        kw.push(B_LOWER_U);
                        kw.push(B_LOWER_E);
                        let tok = Token {
                            kind: TerminalKind::BoolLiteral,
                            lexeme: Option::Some(kw),
                        };
                        proof {
                            assert(s.subrange(i0, i0 + 4) =~= spec_true_bytes());
                            assert(tok@.lexeme->Some_0 =~= spec_true_bytes());
                            lemma_prepend_cons(pre, tok@, spec_lex_at(s, i0 + 4));
                            lemma_toks_view_push(tokens@, tok);
                        }
                        tokens.push(tok);
                        i += 4;
                    } else {
                        proof {
                            if spec_keyword_at(s, i0, spec_true_bytes()) {
                                assert(s[i0 + 1] == s.subrange(i0, i0 + 4)[1]);
                                assert(s[i0 + 2] == s.subrange(i0, i0 + 4)[2]);
                                assert(s[i0 + 3] == s.subrange(i0, i0 + 4)[3]);
                            }
                        }
                        return Result::Err(TokenError::UnrecognizedTokenError);
                    }
                } else if ch == B_LOWER_F {
                    if input.len() - i >= 5 && input[i + 1] == B_LOWER_A && input[i + 2]
                        == B_LOWER_L && input[i + 3] == B_LOWER_S && input[i + 4] == B_LOWER_E {
                        let mut kw: Vec<u8> = Vec::new();
                        kw.push(B_LOWER_F);
                        kw.push(B_LOWER_A);
                        kw.push(B_LOWER_L);
                        kw.push(B_LOWER_S);
                        kw.push(B_LOWER_E);
                        let tok = Token {
                            kind: TerminalKind::BoolLiteral,
                            lexeme: Option::Some(kw),
                        };
                        proof {
                            assert(s.subrange(i0, i0 + 5) =~= spec_false_bytes());
                            assert(tok@.lexeme->Some_0 =~= spec_false_bytes());
                            lemma_prepend_cons(pre, tok@, spec_lex_at(s, i0 + 5));
                            lemma_toks_view_push(tokens@, tok);
                        }
                        tokens.push(tok);
                        i += 5;
                    } else {
                        proof {
                            if spec_keyword_at(s, i0, spec_false_bytes()) {
                                assert(s[i0 + 1] == s.subrange(i0, i0 + 5)[1]);
                                assert(s[i0 + 2] == s.subrange(i0, i0 + 5)[2]);
                                assert(s[i0 + 3] == s.subrange(i0, i0 + 5)[3]);
                                assert(s[i0 + 4] == s.subrange(i0, i0 + 5)[4]);
                            }
                        }
                        return Result::Err(TokenError::UnrecognizedTokenError);
                    }
                } else if ch == B_LOWER_N {
                    if input.len() - i >= 4 && input[i + 1] == B_LOWER_U && input[i + 2]
                        == B_LOWER_L && input[i + 3] == B_LOWER_L {
                        let tok = Token { kind: TerminalKind::NullLiteral, lexeme: Option::None };
                        proof {
                            assert(s.subrange(i0, i0 + 4) =~= spec_null_bytes());
                            lemma_prepend_cons(pre, tok@, spec_lex_at(s, i0 + 4));
                            lemma_toks_view_push(tokens@, tok);
                        }
                        tokens.push(tok);
                        i += 4;
                    } else {
                        proof {
                            if spec_keyword_at(s, i0, spec_null_bytes()) {
                                assert(s[i0 + 1] == s.subrange(i0, i0 + 4)[1]);
                                assert(s[i0 + 2] == s.subrange(i0, i0 + 4)[2]);
                                assert(s[i0 + 3] == s.subrange(i0, i0 + 4)[3]);
                            }
                        }
                        return Result::Err(TokenError::UnrecognizedTokenError);
                    }
                } else if ch == B_LOWER_E || ch == B_UPPER_E {
                    let tok = Token { kind: TerminalKind::ExponentMarker, lexeme: Option::None };
                    proof {
                        lemma_prepend_cons(pre, tok@, spec_lex_at(s, i0 + 1));
                        lemma_toks_view_push(tokens@, tok);
                    }
                    tokens.push(tok);
                    i += 1;
                } else if ch == B_PLUS || ch == B_MINUS {
                    let mut sign: Vec<u8> = Vec::new();
                    sign.push(ch);
                    let tok = Token { kind: TerminalKind::Sign, lexeme: Option::Some(sign) };
                    proof {
                        assert(tok@.lexeme->Some_0 =~= seq![ch]);
                        lemma_prepend_cons(pre, tok@, spec_lex_at(s, i0 + 1));
                        lemma_toks_view_push(tokens@, tok);
                    }
                    tokens.push(tok);
                    i += 1;
                } else if is_digit(ch) {
                    let p = lex_digits(input, i);
                    let (tok, end) = p;
                    proof {
                        lemma_digit_run_bounds(s, i0);
                        lemma_prepend_cons(pre, tok@, spec_lex_at(s, end as int));
                        lemma_toks_view_push(tokens@, tok);
                    }
                    tokens.push(tok);
                    i = end;
                } else if is_whitespace(ch) {
                    i += 1;
                } else {
                    return Result::Err(TokenError::UnrecognizedTokenError);
                }
            },
        }
    }
    proof {
        assert(toks_view(tokens@) + Seq::<SpecToken>::empty() =~= toks_view(tokens@));
    }
    Result::Ok(tokens)
}


/// The scan position one step past the token (or whitespace byte)
/// starting at `i`, if the scan does not fail there.
pub open spec fn spec_next_pos(s: Seq<u8>, i: int) -> Option<int> {
    if i < 0 || i >= s.len() {
        Option::None
    } else {
        let c = s[i];
        match spec_special_symbol(c) {
            Option::Some(_) => Option::Some(i + 1),
            Option::None => if c == B_QUOTE {
                match spec_scan_string(s, i + 1) {
                    Result::Ok(p) => Option::Some(p.1),
                    Result::Err(_) => Option::None,
                }
            } else if c == B_LOWER_T {
                if spec_keyword_at(s, i, spec_true_bytes()) {
                    Option::Some(i + 4)
                } else {
                    Option::None
                }
            } else if c == B_LOWER_F {
                if spec_keyword_at(s, i, spec_false_bytes()) {
                    Option::Some(i + 5)
                } else {
                    Option::None
                }
            } else if c == B_LOWER_N {
                if spec_keyword_at(s, i, spec_null_bytes()) {
                    Option::Some(i + 4)
                } else {
                    Option::None
                }
            } else if c == B_LOWER_E || c == B_UPPER_E || c == B_PLUS || c == B_MINUS {
                Option::Some(i + 1)
            } else if spec_is_digit(c) {
                Option::Some(i + spec_digit_run(s, i))
            } else if spec_is_whitespace(c) {
                Option::Some(i + 1)
            } else {
                Option::None
            },
        }
    }
}

/// A successful scan step advances and stays inside the input.
pub proof fn lemma_next_pos_bounds(s: Seq<u8>, i: int)
    requires
        0 <= i <= s.len(),
    ensures
        spec_next_pos(s, i) matches Option::Some(n) ==> i < n <= s.len(),
{
    if i < s.len() {
        if spec_special_symbol(s[i]) is None && s[i] == B_QUOTE {
            lemma_scan_string_bounds(s, i + 1);
        }
        if spec_is_digit(s[i]) {
            lemma_digit_run_bounds(s, i);
        }
    }
}

/// True iff the scan of `s`, started at position `i`, reaches position
/// `j`: with `i == 0`, exactly the positions between two tokens (or
/// inside a whitespace run), where the lexer pauses with no token half
/// read.
pub open spec fn spec_visits(s: Seq<u8>, i: int, j: int) -> bool
    decreases s.len() - i,
    when 0 <= i <= s.len()
{
    i == j || (match spec_next_pos(s, i) {
        Option::Some(n) => {
            proof {
                lemma_next_pos_bounds(s, i);
            }
            spec_visits(s, n, j)
        },
        Option::None => false,
    })
}

proof fn lemma_visits_bounds(s: Seq<u8>, i: int, j: int)
    requires
        0 <= i <= s.len(),
        spec_visits(s, i, j),
    ensures
        i <= j <= s.len(),
    decreases s.len() - i,
{
    if i != j {
        lemma_next_pos_bounds(s, i);
        match spec_next_pos(s, i) {
            Option::Some(n) => {
                lemma_visits_bounds(s, n, j);
            },
            Option::None => {},
        }
    }
}

proof fn lemma_digit_run_shift(s: Seq<u8>, c: u8, j0: int, i: int)
    requires
        0 <= j0 <= i <= s.len(),
    ensures
        spec_digit_run(s.insert(j0, c), i + 1) == spec_digit_run(s, i),
    decreases s.len() - i,
{
    let s2 = s.insert(j0, c);
    s.insert_ensures(j0, c);
    if i < s.len() {
        assert(s2[i + 1] == s[i]);
        if spec_is_digit(s[i]) {
            lemma_digit_run_shift(s, c, j0, i + 1);
        }
    }
}

proof fn lemma_scan_shift(s: Seq<u8>, c: u8, j0: int, i: int)
    requires
        0 <= j0 <= i <= s.len(),
    ensures
        spec_scan_string(s.insert(j0, c), i + 1) is Ok <==> spec_scan_string(s, i) is Ok,
        spec_scan_string(s, i) is Ok ==> spec_scan_string(s.insert(j0, c), i + 1)->Ok_0.0
            == spec_scan_string(s, i)->Ok_0.0,
        spec_scan_string(s, i) is Ok ==> spec_scan_string(s.insert(j0, c), i + 1)->Ok_0.1
            == spec_scan_string(s, i)->Ok_0.1 + 1,
    decreases s.len() - i,
{
    let s2 = s.insert(j0, c);
    s.insert_ensures(j0, c);
    if i >= s.len() {
    } else {
        assert(s2[i + 1] == s[i]);
        if s[i] == B_QUOTE {
        } else if s[i] == B_BACKSLASH && i + 1 < s.len() {
            assert(s2[i + 2] == s[i + 1]);
            let e = s[i + 1];
            if e == B_QUOTE || e == B_BACKSLASH || e == B_LOWER_N || e == B_LOWER_T || e
                == B_LOWER_R {
                lemma_scan_shift(s, c, j0, i + 2);
            }
        } else {
            lemma_scan_shift(s, c, j0, i + 1);
        }
    }
}

proof fn lemma_keyword_shift(s: Seq<u8>, c: u8, j0: int, i: int, kw: Seq<u8>)
    requires
        0 <= j0 <= i <= s.len(),
    ensures
        spec_keyword_at(s.insert(j0, c), i + 1, kw) == spec_keyword_at(s, i, kw),
{
    let s2 = s.insert(j0, c);
    s.insert_ensures(j0, c);
    if i + kw.len() <= s.len() {
        assert(s2.subrange(i + 1, i + 1 + kw.len()) =~= s.subrange(i, i + kw.len()));
    }
}

proof fn lemma_lex_at_shift(s: Seq<u8>, c: u8, j0: int, i: int)
    requires
        0 <= j0 <= i <= s.len(),
    ensures
        spec_lex_at(s.insert(j0, c), i + 1) is Ok <==> spec_lex_at(s, i) is Ok,
        spec_lex_at(s, i) is Ok ==> spec_lex_at(s.insert(j0, c), i + 1) == spec_lex_at(s, i),
    decreases s.len() - i,
{
    let s2 = s.insert(j0, c);
    s.insert_ensures(j0, c);
    if i >= s.len() {
    } else {
        let b = s[i];
        assert(s2[i + 1] == b);
        match spec_special_symbol(b) {
            Option::Some(_) => {
                lemma_lex_at_shift(s, c, j0, i + 1);
            },
            Option::None => {
                if b == B_QUOTE {
                    lemma_scan_shift(s, c, j0, i + 1);
                    lemma_scan_string_bounds(s, i + 1);
                    match spec_scan_string(s, i + 1) {
                        Result::Ok(p) => {
                            lemma_lex_at_shift(s, c, j0, p.1);
                        },
                        Result::Err(_) => {},
                    }
                } else if b == B_LOWER_T {
                    lemma_keyword_shift(s, c, j0, i, spec_true_bytes());
                    if spec_keyword_at(s, i, spec_true_bytes()) {
                        lemma_lex_at_shift(s, c, j0, i + 4);
                    }
                } else if b == B_LOWER_F {
                    lemma_keyword_shift(s, c, j0, i, spec_false_bytes());
                    if spec_keyword_at(s, i, spec_false_bytes()) {
                        lemma_lex_at_shift(s, c, j0, i + 5);
                    }
                } else if b == B_LOWER_N {
                    lemma_keyword_shift(s, c, j0, i, spec_null_bytes());
                    if spec_keyword_at(s, i, spec_null_bytes()) {
                        lemma_lex_at_shift(s, c, j0, i + 4);
                    }
                } else if b == B_LOWER_E || b == B_UPPER_E {
                    lemma_lex_at_shift(s, c, j0, i + 1);
                } else if b == B_PLUS || b == B_MINUS {
                    lemma_lex_at_shift(s, c, j0, i + 1);
                } else if spec_is_digit(b) {
                    lemma_digit_run_shift(s, c, j0, i);
                    lemma_digit_run_bounds(s, i);
                    let n = spec_digit_run(s, i);
                    assert(s2.subrange(i + 1, i + 1 + n) =~= s.subrange(i, i + n));
                    lemma_lex_at_shift(s, c, j0, i + n);
                } else if spec_is_whitespace(b) {
                    lemma_lex_at_shift(s, c, j0, i + 1);
                } else {
                }
            },
        }
    }
}

proof fn lemma_digit_run_insert(s: Seq<u8>, c: u8, j0: int, i: int)
    requires
        0 <= i <= j0 <= s.len(),
        i + spec_digit_run(s, i) <= j0,
        !spec_is_digit(c),
    ensures
        spec_digit_run(s.insert(j0, c), i) == spec_digit_run(s, i),
    decreases j0 - i,
{
    let s2 = s.insert(j0, c);
    s.insert_ensures(j0, c);
    if i < j0 {
        assert(s2[i] == s[i]);
        if spec_is_digit(s[i]) {
            lemma_digit_run_insert(s, c, j0, i + 1);
        }
    } else {
        assert(s2[j0] == c);
    }
}

proof fn lemma_scan_insert(s: Seq<u8>, c: u8, j0: int, i: int)
    requires
        0 <= i <= j0 <= s.len(),
        spec_scan_string(s, i) is Ok,
        spec_scan_string(s, i)->Ok_0.1 <= j0,
    ensures
        spec_scan_string(s.insert(j0, c), i) == spec_scan_string(s, i),
    decreases s.len() - i,
{
    let s2 = s.insert(j0, c);
    s.insert_ensures(j0, c);
    lemma_scan_string_bounds(s, i);
    assert(i < j0);
    assert(s2[i] == s[i]);
    if s[i] == B_QUOTE {
    } else if s[i] == B_BACKSLASH && i + 1 < s.len() {
        lemma_scan_string_bounds(s, i + 2);
        assert(i + 1 < j0);
        assert(s2[i + 1] == s[i + 1]);
        let e = s[i + 1];
        if e == B_QUOTE || e == B_BACKSLASH || e == B_LOWER_N || e == B_LOWER_T || e
            == B_LOWER_R {
            lemma_scan_insert(s, c, j0, i + 2);
        }
    } else {
        lemma_scan_insert(s, c, j0, i + 1);
    }
}

proof fn lemma_lex_insert_chain(s: Seq<u8>, c: u8, j0: int, i: int)
    requires
        0 <= i <= j0 <= s.len(),
        spec_is_whitespace(c),
        spec_visits(s, i, j0),
    ensures
        spec_lex_at(s.insert(j0, c), i) is Ok <==> spec_lex_at(s, i) is Ok,
        spec_lex_at(s, i) is Ok ==> spec_lex_at(s.insert(j0, c), i) == spec_lex_at(s, i),
    decreases j0 - i,
{
    let s2 = s.insert(j0, c);
    s.insert_ensures(j0, c);
    if i == j0 {
        assert(s2[j0] == c);
        assert(spec_special_symbol(c) is None);
        assert(spec_lex_at(s2, i) == spec_lex_at(s2, i + 1));
        lemma_lex_at_shift(s, c, j0, i);
    } else {
        lemma_next_pos_bounds(s, i);
        let n = spec_next_pos(s, i)->Some_0;
        assert(spec_next_pos(s, i) is Some && spec_visits(s, n, j0));
        lemma_visits_bounds(s, n, j0);
        let b = s[i];
        assert(s2[i] == b);
        match spec_special_symbol(b) {
            Option::Some(_) => {
                lemma_lex_insert_chain(s, c, j0, i + 1);
            },
            Option::None => {
                if b == B_QUOTE {
                    lemma_scan_insert(s, c, j0, i + 1);
                    lemma_scan_string_bounds(s, i + 1);
                    lemma_lex_insert_chain(s, c, j0, n);
                } else if b == B_LOWER_T {
                    assert(spec_keyword_at(s, i, spec_true_bytes()));
                    assert(s2.subrange(i, i + 4) =~= s.subrange(i, i + 4));
                    lemma_lex_insert_chain(s, c, j0, i + 4);
                } else if b == B_LOWER_F {
                    assert(spec_keyword_at(s, i, spec_false_bytes()));
                    assert(s2.subrange(i, i + 5) =~= s.subrange(i, i + 5));
                    lemma_lex_insert_chain(s, c, j0, i + 5);
                } else if b == B_LOWER_N {
                    assert(spec_keyword_at(s, i, spec_null_bytes()));
                    assert(s2.subrange(i, i + 4) =~= s.subrange(i, i + 4));
                    lemma_lex_insert_chain(s, c, j0, i + 4);
                } else if b == B_LOWER_E || b == B_UPPER_E {
                    lemma_lex_insert_chain(s, c, j0, i + 1);
                } else if b == B_PLUS || b == B_MINUS {
                    lemma_lex_insert_chain(s, c, j0, i + 1);
                } else if spec_is_digit(b) {
                    lemma_digit_run_bounds(s, i);
                    let run = spec_digit_run(s, i);
                    assert(n == i + run);
                    lemma_digit_run_insert(s, c, j0, i);
                    assert(s2.subrange(i, i + run) =~= s.subrange(i, i + run));
                    lemma_lex_insert_chain(s, c, j0, i + run);
                } else if spec_is_whitespace(b) {
                    lemma_lex_insert_chain(s, c, j0, i + 1);
                } else {
                    assert(false);
                }
            },
        }
    }
}

/// Law: inserting one whitespace byte at any position the scan reaches
/// (the boundaries between tokens, and whitespace runs) never changes
/// the lexed token sequence, and lexing succeeds on the one input
/// exactly when it succeeds on the other. Removing such a byte is the
/// same fact read in the other direction.
pub proof fn lemma_whitespace_insert(s: Seq<u8>, j: int, c: u8)
    requires
        0 <= j <= s.len(),
        spec_is_whitespace(c),
        spec_visits(s, 0, j),
    ensures
        spec_lex(s.insert(j, c)) is Ok <==> spec_lex(s) is Ok,
        spec_lex(s) is Ok ==> spec_lex(s.insert(j, c)) == spec_lex(s),
{
    lemma_lex_insert_chain(s, c, j, 0);
}

/// Law: a whitespace byte prepended to the input never changes the
/// lexed token sequence; the input's start is always a boundary.
pub proof fn lemma_whitespace_prepend(c: u8, s: Seq<u8>)
    requires
        spec_is_whitespace(c),
    ensures
        spec_lex(seq![c] + s) is Ok <==> spec_lex(s) is Ok,
        spec_lex(s) is Ok ==> spec_lex(seq![c] + s) == spec_lex(s),
{
    assert(s.insert(0, c) =~= seq![c] + s);
    lemma_whitespace_insert(s, 0, c);
}

} // verus!



