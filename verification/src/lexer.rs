//! Tokens of Axis source text.
//!
//! Spaces, tabs, line breaks and `//` comments separate tokens. A word of
//! ASCII letters, digits and `_` that does not start with a digit is a
//! keyword or an identifier; digits, with an optional leading `-`, are an
//! integer literal; `->` and the single characters `( ) { } , : ; = . |`
//! are punctuation.
use vstd::prelude::*;

verus! {

#[derive(Debug, Clone, PartialEq, Eq)]
pub enum TokenKind {
    Ident(String),
    /// Digits with an optional leading minus sign.
    Int { negative: bool, magnitude: u64 },
    KwFn,
    KwLet,
    KwIn,
    KwIf,
    KwElse,
    KwTrue,
    KwFalse,
    KwInt,
    KwBool,
    KwUnit,
    LParen,
    RParen,
    LBrace,
    RBrace,
    Comma,
    Colon,
    Semi,
    Eq,
    Arrow,
    Dot,
    Pipe,
    /// The end of the input.
    Eof,
}

/// A token and the index of its first character.
#[derive(Debug, Clone, PartialEq, Eq)]
pub struct Token {
    pub kind: TokenKind,
    pub start: usize,
}

#[derive(Debug, Clone, Copy, PartialEq, Eq)]
pub enum ParseErrorKind {
    /// A character that starts no token.
    InvalidCharacter,
    /// An integer literal outside the range of its type.
    IntegerOutOfRange,
    /// A token that the grammar does not allow where it stands.
    UnexpectedToken,
}

/// Where the input was refused (a character index) and why.
#[derive(Debug, Clone, Copy, PartialEq, Eq)]
pub struct ParseError {
    pub position: usize,
    pub kind: ParseErrorKind,
}

// ------------------------------------------------------------
// Model
// ------------------------------------------------------------

pub enum SpecTokenKind {
    Ident(Seq<char>),
    Int { negative: bool, magnitude: nat },
    KwFn,
    KwLet,
    KwIn,
    KwIf,
    KwElse,
    KwTrue,
    KwFalse,
    KwInt,
    KwBool,
    KwUnit,
    LParen,
    RParen,
    LBrace,
    RBrace,
    Comma,
    Colon,
    Semi,
    Eq,
    Arrow,
    Dot,
    Pipe,
    Eof,
}

pub struct SpecToken {
    pub kind: SpecTokenKind,
    pub start: nat,
}

pub open spec fn view_token_kind(k: TokenKind) -> SpecTokenKind {
    match k {
        TokenKind::Ident(s) => SpecTokenKind::Ident(s@),
        TokenKind::Int { negative, magnitude } => SpecTokenKind::Int { negative, magnitude: magnitude as nat },
        TokenKind::KwFn => SpecTokenKind::KwFn,
        TokenKind::KwLet => SpecTokenKind::KwLet,
        TokenKind::KwIn => SpecTokenKind::KwIn,
        TokenKind::KwIf => SpecTokenKind::KwIf,
        TokenKind::KwElse => SpecTokenKind::KwElse,
        TokenKind::KwTrue => SpecTokenKind::KwTrue,
        TokenKind::KwFalse => SpecTokenKind::KwFalse,
        TokenKind::KwInt => SpecTokenKind::KwInt,
        TokenKind::KwBool => SpecTokenKind::KwBool,
        TokenKind::KwUnit => SpecTokenKind::KwUnit,
        TokenKind::LParen => SpecTokenKind::LParen,
        TokenKind::RParen => SpecTokenKind::RParen,
        TokenKind::LBrace => SpecTokenKind::LBrace,
        TokenKind::RBrace => SpecTokenKind::RBrace,
        TokenKind::Comma => SpecTokenKind::Comma,
        TokenKind::Colon => SpecTokenKind::Colon,
        TokenKind::Semi => SpecTokenKind::Semi,
        TokenKind::Eq => SpecTokenKind::Eq,
        TokenKind::Arrow => SpecTokenKind::Arrow,
        TokenKind::Dot => SpecTokenKind::Dot,
        TokenKind::Pipe => SpecTokenKind::Pipe,
        TokenKind::Eof => SpecTokenKind::Eof,
    }
}

impl View for Token {
    type V = SpecToken;
    open spec fn view(&self) -> SpecToken {
        SpecToken { kind: view_token_kind(self.kind), start: self.start as nat }
    }
}

pub open spec fn view_tokens(ts: Seq<Token>) -> Seq<SpecToken> {
    Seq::new(ts.len(), |i: int| ts[i]@)
}

// ------------------------------------------------------------
// Character classes
// ------------------------------------------------------------

pub open spec fn is_space(c: char) -> bool {
    c == ' ' || c == '\t' || c == '\n' || c == '\r'
}

pub open spec fn is_digit(c: char) -> bool {
    '0' <= c <= '9'
}

pub open spec fn is_ident_start(c: char) -> bool {
    ('a' <= c <= 'z') || ('A' <= c <= 'Z') || c == '_'
}

pub open spec fn is_ident_continue(c: char) -> bool {
    is_ident_start(c) || is_digit(c)
}

pub open spec fn digit_value(c: char) -> nat {
    (c as nat - '0' as nat) as nat
}

/// First index at or after `j` where the characters stop satisfying `p`.
pub open spec fn ident_end(cs: Seq<char>, j: int) -> int
    decreases cs.len() - j,
{
    if 0 <= j < cs.len() && is_ident_continue(cs[j]) {
        ident_end(cs, j + 1)
    } else {
        j
    }
}

pub open spec fn digits_end(cs: Seq<char>, j: int) -> int
    decreases cs.len() - j,
{
    if 0 <= j < cs.len() && is_digit(cs[j]) {
        digits_end(cs, j + 1)
    } else {
        j
    }
}

/// Index of the line break that ends a comment starting at or before `j`
/// (or the end of the input).
pub open spec fn comment_end(cs: Seq<char>, j: int) -> int
    decreases cs.len() - j,
{
    if 0 <= j < cs.len() && cs[j] != '\n' {
        comment_end(cs, j + 1)
    } else {
        j
    }
}

/// The decimal value of the digits `cs[i..j)`.
pub open spec fn digits_value(cs: Seq<char>, i: int, j: int) -> nat
    decreases j - i,
{
    if j <= i {
        0
    } else {
        digits_value(cs, i, j - 1) * 10 + digit_value(cs[j - 1])
    }
}

pub proof fn lemma_ident_end(cs: Seq<char>, j: int)
    requires
        0 <= j <= cs.len(),
    ensures
        j <= ident_end(cs, j) <= cs.len(),
        forall|k: int| j <= k < ident_end(cs, j) ==> is_ident_continue(cs[k]),
        ident_end(cs, j) < cs.len() ==> !is_ident_continue(cs[ident_end(cs, j)]),
    decreases cs.len() - j,
{
    if j < cs.len() && is_ident_continue(cs[j]) {
        lemma_ident_end(cs, j + 1);
    }
}

pub proof fn lemma_digits_end(cs: Seq<char>, j: int)
    requires
        0 <= j <= cs.len(),
    ensures
        j <= digits_end(cs, j) <= cs.len(),
        forall|k: int| j <= k < digits_end(cs, j) ==> is_digit(cs[k]),
        digits_end(cs, j) < cs.len() ==> !is_digit(cs[digits_end(cs, j)]),
    decreases cs.len() - j,
{
    if j < cs.len() && is_digit(cs[j]) {
        lemma_digits_end(cs, j + 1);
    }
}

pub proof fn lemma_comment_end(cs: Seq<char>, j: int)
    requires
        0 <= j <= cs.len(),
    ensures
        j <= comment_end(cs, j) <= cs.len(),
        forall|k: int| j <= k < comment_end(cs, j) ==> cs[k] != '\n',
        comment_end(cs, j) < cs.len() ==> cs[comment_end(cs, j)] == '\n',
    decreases cs.len() - j,
{
    if j < cs.len() && cs[j] != '\n' {
        lemma_comment_end(cs, j + 1);
    }
}

pub open spec fn keyword_or_ident(w: Seq<char>) -> SpecTokenKind {
    if w == seq!['f', 'n'] {
        SpecTokenKind::KwFn
    } else if w == seq!['l', 'e', 't'] {
        SpecTokenKind::KwLet
    } else if w == seq!['i', 'n'] {
        SpecTokenKind::KwIn
    } else if w == seq!['i', 'f'] {
        SpecTokenKind::KwIf
    } else if w == seq!['e', 'l', 's', 'e'] {
        SpecTokenKind::KwElse
    } else if w == seq!['t', 'r', 'u', 'e'] {
        SpecTokenKind::KwTrue
    } else if w == seq!['f', 'a', 'l', 's', 'e'] {
        SpecTokenKind::KwFalse
    } else if w == seq!['I', 'n', 't'] {
        SpecTokenKind::KwInt
    } else if w == seq!['B', 'o', 'o', 'l'] {
        SpecTokenKind::KwBool
    } else if w == seq!['U', 'n', 'i', 't'] {
        SpecTokenKind::KwUnit
    } else {
        SpecTokenKind::Ident(w)
    }
}

pub open spec fn punct_kind(c: char) -> Option<SpecTokenKind> {
    if c == '(' {
        Some(SpecTokenKind::LParen)
    } else if c == ')' {
        Some(SpecTokenKind::RParen)
    } else if c == '{' {
        Some(SpecTokenKind::LBrace)
    } else if c == '}' {
        Some(SpecTokenKind::RBrace)
    } else if c == ',' {
        Some(SpecTokenKind::Comma)
    } else if c == ':' {
        Some(SpecTokenKind::Colon)
    } else if c == ';' {
        Some(SpecTokenKind::Semi)
    } else if c == '=' {
        Some(SpecTokenKind::Eq)
    } else if c == '.' {
        Some(SpecTokenKind::Dot)
    } else if c == '|' {
        Some(SpecTokenKind::Pipe)
    } else {
        None
    }
}

pub open spec fn spec_error(position: int, kind: ParseErrorKind) -> ParseError {
    ParseError { position: position as usize, kind }
}

/// The tokens of `cs` from index `i` on, ending with `Eof`.
pub open spec fn spec_lex(cs: Seq<char>, i: int) -> Result<Seq<SpecToken>, ParseError>
    decreases cs.len() - i,
{
    if i < 0 || i >= cs.len() {
        Ok(seq![SpecToken { kind: SpecTokenKind::Eof, start: cs.len() }])
    } else {
        let c = cs[i];
        if is_space(c) {
            spec_lex(cs, i + 1)
        } else if c == '/' && i + 1 < cs.len() && cs[i + 1] == '/' {
            proof {
                lemma_comment_end(cs, i + 2);
            }
            spec_lex(cs, comment_end(cs, i + 2))
        } else if is_ident_start(c) {
            let j = ident_end(cs, i + 1);
            proof {
                lemma_ident_end(cs, i + 1);
            }
            match spec_lex(cs, j) {
                Err(e) => Err(e),
                Ok(ts) => Ok(seq![SpecToken { kind: keyword_or_ident(cs.subrange(i, j)), start: i as nat }] + ts),
            }
        } else if is_digit(c) || (c == '-' && i + 1 < cs.len() && is_digit(cs[i + 1])) {
            let k = if is_digit(c) { i } else { i + 1 };
            let j = digits_end(cs, k);
            proof {
                lemma_digits_end(cs, k);
            }
            let m = digits_value(cs, k, j);
            if m > u64::MAX {
                Err(spec_error(i, ParseErrorKind::IntegerOutOfRange))
            } else {
                match spec_lex(cs, j) {
                    Err(e) => Err(e),
                    Ok(ts) => Ok(seq![SpecToken { kind: SpecTokenKind::Int { negative: !is_digit(c), magnitude: m }, start: i as nat }] + ts),
                }
            }
        } else if c == '-' && i + 1 < cs.len() && cs[i + 1] == '>' {
            match spec_lex(cs, i + 2) {
                Err(e) => Err(e),
                Ok(ts) => Ok(seq![SpecToken { kind: SpecTokenKind::Arrow, start: i as nat }] + ts),
            }
        } else {
            match punct_kind(c) {
                Some(k) => match spec_lex(cs, i + 1) {
                    Err(e) => Err(e),
                    Ok(ts) => Ok(seq![SpecToken { kind: k, start: i as nat }] + ts),
                },
                None => Err(spec_error(i, ParseErrorKind::InvalidCharacter)),
            }
        }
    }
}

// ------------------------------------------------------------
// Laws of the tokenizer
// ------------------------------------------------------------

/// A character that may stand inside a word: an ASCII letter, digit or `_`.
pub open spec fn word_char(c: char) -> bool {
    ('a' <= c && c <= 'z') || ('A' <= c && c <= 'Z') || c == '_' || ('0' <= c && c <= '9')
}

/// The words that are keywords.
pub open spec fn is_keyword(w: Seq<char>) -> bool {
    ||| w == seq!['f', 'n']
    ||| w == seq!['l', 'e', 't']
    ||| w == seq!['i', 'n']
    ||| w == seq!['i', 'f']
    ||| w == seq!['e', 'l', 's', 'e']
    ||| w == seq!['t', 'r', 'u', 'e']
    ||| w == seq!['f', 'a', 'l', 's', 'e']
    ||| w == seq!['I', 'n', 't']
    ||| w == seq!['B', 'o', 'o', 'l']
    ||| w == seq!['U', 'n', 'i', 't']
}

/// Each keyword is its own token kind.
pub proof fn law_keywords()
    ensures
        keyword_or_ident(seq!['f', 'n']) == SpecTokenKind::KwFn,
        keyword_or_ident(seq!['l', 'e', 't']) == SpecTokenKind::KwLet,
        keyword_or_ident(seq!['i', 'n']) == SpecTokenKind::KwIn,
        keyword_or_ident(seq!['i', 'f']) == SpecTokenKind::KwIf,
        keyword_or_ident(seq!['e', 'l', 's', 'e']) == SpecTokenKind::KwElse,
        keyword_or_ident(seq!['t', 'r', 'u', 'e']) == SpecTokenKind::KwTrue,
        keyword_or_ident(seq!['f', 'a', 'l', 's', 'e']) == SpecTokenKind::KwFalse,
        keyword_or_ident(seq!['I', 'n', 't']) == SpecTokenKind::KwInt,
        keyword_or_ident(seq!['B', 'o', 'o', 'l']) == SpecTokenKind::KwBool,
        keyword_or_ident(seq!['U', 'n', 'i', 't']) == SpecTokenKind::KwUnit,
{
    assert(seq!['l', 'e', 't'] != seq!['f', 'n']);
}

/// A word is a single token: a maximal run `cs[i..j)` of ASCII letters,
/// digits and `_` that starts with a letter or `_` lexes to one token,
/// starting at `i`, whose kind is the keyword the word spells or else the
/// identifier that is the whole word; lexing then goes on at `j`.
pub proof fn law_lex_word(cs: Seq<char>, i: int, j: int)
    requires
        0 <= i < j <= cs.len(),
        ('a' <= cs[i] && cs[i] <= 'z') || ('A' <= cs[i] && cs[i] <= 'Z') || cs[i] == '_',
        forall|k: int| i <= k < j ==> word_char(#[trigger] cs[k]),
        j == cs.len() || !word_char(cs[j]),
    ensures
        spec_lex(cs, i) == match spec_lex(cs, j) {
            Err(e) => Err(e),
            Ok(ts) => Ok(seq![SpecToken { kind: keyword_or_ident(cs.subrange(i, j)), start: i as nat }] + ts),
        },
        !is_keyword(cs.subrange(i, j)) ==> keyword_or_ident(cs.subrange(i, j)) == SpecTokenKind::Ident(cs.subrange(i, j)),
{
    lemma_ident_end(cs, i + 1);
    let e = ident_end(cs, i + 1);
    if e < j {
        assert(word_char(cs[e]));
    }
    if j < e {
        assert(is_ident_continue(cs[j]));
    }
    assert(e == j);
}

/// The number that a run of decimal digits writes.
pub open spec fn decimal(s: Seq<char>) -> nat
    decreases s.len(),
{
    if s.len() == 0 {
        0
    } else {
        decimal(s.drop_last()) * 10 + ((s.last() as nat) - ('0' as nat)) as nat
    }
}

proof fn lemma_digits_value_decimal(cs: Seq<char>, i: int, j: int)
    requires
        0 <= i <= j <= cs.len(),
    ensures
        digits_value(cs, i, j) == decimal(cs.subrange(i, j)),
    decreases j - i,
{
    if i < j {
        lemma_digits_value_decimal(cs, i, j - 1);
        assert(cs.subrange(i, j).drop_last() =~= cs.subrange(i, j - 1));
        let s = cs.subrange(i, j);
        assert(s.last() == cs[j - 1]);
    }
}

/// A number is a single token: a maximal run `cs[i..j)` of decimal digits,
/// or `-` at `i` followed by the maximal run `cs[i+1..j)`, lexes to one
/// integer token starting at `i` whose magnitude is the number the digits
/// write and whose sign is the `-`; a magnitude beyond `u64` is an error at
/// `i`.
pub proof fn law_lex_number(cs: Seq<char>, i: int, j: int, negative: bool)
    requires
        0 <= i < j <= cs.len(),
        negative ==> cs[i] == '-' && i + 1 < j,
        !negative ==> '0' <= cs[i] && cs[i] <= '9',
        forall|k: int| (if negative { i + 1 } else { i }) <= k < j ==> '0' <= #[trigger] cs[k] && cs[k] <= '9',
        j == cs.len() || !('0' <= cs[j] && cs[j] <= '9'),
    ensures
        spec_lex(cs, i) == if decimal(cs.subrange(if negative { i + 1 } else { i }, j)) > u64::MAX {
            Err(ParseError { position: i as usize, kind: ParseErrorKind::IntegerOutOfRange })
        } else {
            match spec_lex(cs, j) {
                Err(e) => Err(e),
                Ok(ts) => Ok(seq![SpecToken {
                    kind: SpecTokenKind::Int { negative, magnitude: decimal(cs.subrange(if negative { i + 1 } else { i }, j)) },
                    start: i as nat,
                }] + ts),
            }
        },
{
    let k = if negative { i + 1 } else { i };
    lemma_digits_end(cs, k);
    let e = digits_end(cs, k);
    if e < j {
        assert('0' <= cs[e] && cs[e] <= '9');
    }
    if j < e {
        assert(is_digit(cs[j]));
    }
    assert(e == j);
    lemma_digits_value_decimal(cs, k, j);
    if negative {
        assert(cs[i + 1] == cs[k]);
    }
}

/// Each punctuation character is a token of its own, starting where it
/// stands; `->` is one arrow token.
pub proof fn law_lex_punctuation(cs: Seq<char>, i: int)
    requires
        0 <= i < cs.len(),
        !(cs[i] == '/' && i + 1 < cs.len() && cs[i + 1] == '/'),
    ensures
        cs[i] == '-' && i + 1 < cs.len() && cs[i + 1] == '>' ==> spec_lex(cs, i) == match spec_lex(cs, i + 2) {
            Err(e) => Err(e),
            Ok(ts) => Ok(seq![SpecToken { kind: SpecTokenKind::Arrow, start: i as nat }] + ts),
        },
        ({
            let k = if cs[i] == '(' { Some(SpecTokenKind::LParen) }
                else if cs[i] == ')' { Some(SpecTokenKind::RParen) }
                else if cs[i] == '{' { Some(SpecTokenKind::LBrace) }
                else if cs[i] == '}' { Some(SpecTokenKind::RBrace) }
                else if cs[i] == ',' { Some(SpecTokenKind::Comma) }
                else if cs[i] == ':' { Some(SpecTokenKind::Colon) }
                else if cs[i] == ';' { Some(SpecTokenKind::Semi) }
                else if cs[i] == '=' { Some(SpecTokenKind::Eq) }
                else if cs[i] == '.' { Some(SpecTokenKind::Dot) }
                else if cs[i] == '|' { Some(SpecTokenKind::Pipe) }
                else { None };
            k matches Some(kind) ==> spec_lex(cs, i) == match spec_lex(cs, i + 1) {
                Err(e) => Err(e),
                Ok(ts) => Ok(seq![SpecToken { kind, start: i as nat }] + ts),
            }
        }),
{
}

/// Spaces, tabs and line breaks separate tokens and are dropped; a `//`
/// comment runs to the end of its line; the end of the input is one `Eof`
/// token, at the input's length.
pub proof fn law_lex_layout(cs: Seq<char>, i: int, e: int)
    requires
        0 <= i <= cs.len(),
    ensures
        i < cs.len() && (cs[i] == ' ' || cs[i] == '\t' || cs[i] == '\n' || cs[i] == '\r') ==> spec_lex(cs, i) == spec_lex(cs, i + 1),
        i == cs.len() ==> spec_lex(cs, i) == Ok::<Seq<SpecToken>, ParseError>(seq![SpecToken { kind: SpecTokenKind::Eof, start: cs.len() }]),
        i + 1 < cs.len() && cs[i] == '/' && cs[i + 1] == '/' && i + 2 <= e <= cs.len()
            && (forall|k: int| i + 2 <= k < e ==> #[trigger] cs[k] != '\n') && (e == cs.len() || cs[e] == '\n')
            ==> spec_lex(cs, i) == spec_lex(cs, e),
{
    if i + 1 < cs.len() && cs[i] == '/' && cs[i + 1] == '/' && i + 2 <= e <= cs.len()
        && (forall|k: int| i + 2 <= k < e ==> #[trigger] cs[k] != '\n') && (e == cs.len() || cs[e] == '\n') {
        lemma_comment_end(cs, i + 2);
        let c = comment_end(cs, i + 2);
        if c < e {
            assert(cs[c] != '\n');
        }
        if e < c {
            assert(cs[e] != '\n');
        }
    }
}

// ------------------------------------------------------------
// Lexer
// ------------------------------------------------------------

pub open spec fn prepend_tokens(acc: Seq<SpecToken>, r: Result<Seq<SpecToken>, ParseError>) -> Result<Seq<SpecToken>, ParseError> {
    match r {
        Ok(ts) => Ok(acc + ts),
        Err(e) => Err(e),
    }
}

pub(crate) fn chars_of(s: &str) -> (r: Vec<char>)
    ensures
        r@ == s@,
{
    let mut out: Vec<char> = Vec::new();
    for c in it: s.chars()
        invariant
            out@ == it.seq().take(it.index() as int),
    {
        out.push(c);
    }
    out
}

/// Splits `input` into tokens; the last token is `Eof`.
pub fn tokenize(input: &str) -> (r: Result<Vec<Token>, ParseError>)
    ensures
        match r {
            Ok(ts) => spec_lex(input@, 0) == Ok::<Seq<SpecToken>, ParseError>(view_tokens(ts@)),
            Err(e) => spec_lex(input@, 0) == Err::<Seq<SpecToken>, ParseError>(e),
        },
{
    let cs = chars_of(input);
    let n = cs.len();
    let mut out: Vec<Token> = Vec::new();
    let mut i: usize = 0;
    assert(view_tokens(out@) =~= Seq::<SpecToken>::empty());
    assert(spec_lex(cs@, 0) == prepend_tokens(view_tokens(out@), spec_lex(cs@, 0)));
    while i < n
        invariant
            n == cs@.len(),
            cs@ == input@,
            i <= n,
            spec_lex(cs@, 0) == prepend_tokens(view_tokens(out@), spec_lex(cs@, i as int)),
        decreases n - i,
    {
        let ghost pre = out@;
        let c = cs[i];
        if c == ' ' || c == '\t' || c == '\n' || c == '\r' {
            i = i + 1;
        } else if c == '/' && i + 1 < n && cs[i + 1] == '/' {
            let mut j = i + 2;
            while j < n && cs[j] != '\n'
                invariant
                    n == cs@.len(),
                    i + 2 <= j <= n,
                    comment_end(cs@, i + 2) == comment_end(cs@, j as int),
                decreases n - j,
            {
                j = j + 1;
            }
            i = j;
        } else if ('a' <= c && c <= 'z') || ('A' <= c && c <= 'Z') || c == '_' {
            let mut j = i + 1;
            while j < n && (('a' <= cs[j] && cs[j] <= 'z') || ('A' <= cs[j] && cs[j] <= 'Z') || cs[j] == '_' || ('0' <= cs[j] && cs[j] <= '9'))
                invariant
                    n == cs@.len(),
                    i + 1 <= j <= n,
                    ident_end(cs@, i + 1) == ident_end(cs@, j as int),
                decreases n - j,
            {
                j = j + 1;
            }
            let kind = word_kind(&cs, i, j, input);
            out.push(Token { kind, start: i });
            proof {
                assert(view_tokens(out@) =~= view_tokens(pre) + seq![out@[pre.len() as int]@]);
                assert(view_tokens(out@) + spec_lex(cs@, j as int)->Ok_0 =~= view_tokens(pre) + (seq![out@[pre.len() as int]@] + spec_lex(cs@, j as int)->Ok_0));
            }
            i = j;
        } else if ('0' <= c && c <= '9') || (c == '-' && i + 1 < n && '0' <= cs[i + 1] && cs[i + 1] <= '9') {
            let negative = c == '-';
            let k = if negative { i + 1 } else { i };
            let mut j = k;
            let mut mag: u64 = 0;
            let mut overflow = false;
            while j < n && '0' <= cs[j] && cs[j] <= '9'
                invariant
                    n == cs@.len(),
                    k <= j <= n,
                    digits_end(cs@, k as int) == digits_end(cs@, j as int),
                    !overflow ==> mag as nat == digits_value(cs@, k as int, j as int),
                    overflow ==> digits_value(cs@, k as int, j as int) > u64::MAX,
                decreases n - j,
            {
                let d = (cs[j] as u32 - '0' as u32) as u64;
                assert(d == digit_value(cs@[j as int]));
                if !overflow {
                    match mag.checked_mul(10) {
                        Some(m10) => match m10.checked_add(d) {
                            Some(m) => {
                                mag = m;
                            },
                            None => {
                                overflow = true;
                            },
                        },
                        None => {
                            overflow = true;
                        },
                    }
                }
                j = j + 1;
            }
            proof {
                lemma_digits_end(cs@, k as int);
            }
            if overflow {
                return Err(ParseError { position: i, kind: ParseErrorKind::IntegerOutOfRange });
            }
            out.push(Token { kind: TokenKind::Int { negative, magnitude: mag }, start: i });
            proof {
                assert(view_tokens(out@) =~= view_tokens(pre) + seq![out@[pre.len() as int]@]);
                assert(view_tokens(out@) + spec_lex(cs@, j as int)->Ok_0 =~= view_tokens(pre) + (seq![out@[pre.len() as int]@] + spec_lex(cs@, j as int)->Ok_0));
            }
            i = j;
        } else if c == '-' && i + 1 < n && cs[i + 1] == '>' {
            out.push(Token { kind: TokenKind::Arrow, start: i });
            proof {
                assert(view_tokens(out@) =~= view_tokens(pre) + seq![out@[pre.len() as int]@]);
                assert(view_tokens(out@) + spec_lex(cs@, i + 2)->Ok_0 =~= view_tokens(pre) + (seq![out@[pre.len() as int]@] + spec_lex(cs@, i + 2)->Ok_0));
            }
            i = i + 2;
        } else {
            let kind = if c == '(' {
                TokenKind::LParen
            } else if c == ')' {
                TokenKind::RParen
            } else if c == '{' {
                TokenKind::LBrace
            } else if c == '}' {
                TokenKind::RBrace
            } else if c == ',' {
                TokenKind::Comma
            } else if c == ':' {
                TokenKind::Colon
            } else if c == ';' {
                TokenKind::Semi
            } else if c == '=' {
                TokenKind::Eq
            } else if c == '.' {
                TokenKind::Dot
            } else if c == '|' {
                TokenKind::Pipe
            } else {
                return Err(ParseError { position: i, kind: ParseErrorKind::InvalidCharacter });
            };
            out.push(Token { kind, start: i });
            proof {
                assert(view_tokens(out@) =~= view_tokens(pre) + seq![out@[pre.len() as int]@]);
                assert(view_tokens(out@) + spec_lex(cs@, i + 1)->Ok_0 =~= view_tokens(pre) + (seq![out@[pre.len() as int]@] + spec_lex(cs@, i + 1)->Ok_0));
            }
            i = i + 1;
        }
    }
    let ghost pre = out@;
    out.push(Token { kind: TokenKind::Eof, start: n });
    assert(view_tokens(out@) =~= view_tokens(pre) + seq![SpecToken { kind: SpecTokenKind::Eof, start: n as nat }]);
    Ok(out)
}

/// The keyword spelled by `cs[i..j)`, or the identifier it spells.
fn word_kind(cs: &Vec<char>, i: usize, j: usize, input: &str) -> (r: TokenKind)
    requires
        i < j <= cs@.len(),
        cs@ == input@,
    ensures
        view_token_kind(r) == keyword_or_ident(cs@.subrange(i as int, j as int)),
{
    let ghost w = cs@.subrange(i as int, j as int);
    let n = j - i;
    assert(w.len() == n);
    assert(forall|k: int| 0 <= k < n ==> w[k] == cs@[i + k]);
    if n == 2 && cs[i] == 'f' && cs[i + 1] == 'n' {
        assert(w =~= seq!['f', 'n']);
        return TokenKind::KwFn;
    }
    if n == 3 && cs[i] == 'l' && cs[i + 1] == 'e' && cs[i + 2] == 't' {
        assert(w =~= seq!['l', 'e', 't']);
        return TokenKind::KwLet;
    }
    if n == 2 && cs[i] == 'i' && cs[i + 1] == 'n' {
        assert(w =~= seq!['i', 'n']);
        return TokenKind::KwIn;
    }
    if n == 2 && cs[i] == 'i' && cs[i + 1] == 'f' {
        assert(w =~= seq!['i', 'f']);
        return TokenKind::KwIf;
    }
    if n == 4 && cs[i] == 'e' && cs[i + 1] == 'l' && cs[i + 2] == 's' && cs[i + 3] == 'e' {
        assert(w =~= seq!['e', 'l', 's', 'e']);
        return TokenKind::KwElse;
    }
    if n == 4 && cs[i] == 't' && cs[i + 1] == 'r' && cs[i + 2] == 'u' && cs[i + 3] == 'e' {
        assert(w =~= seq!['t', 'r', 'u', 'e']);
        return TokenKind::KwTrue;
    }
    if n == 5 && cs[i] == 'f' && cs[i + 1] == 'a' && cs[i + 2] == 'l' && cs[i + 3] == 's' && cs[i + 4] == 'e' {
        assert(w =~= seq!['f', 'a', 'l', 's', 'e']);
        return TokenKind::KwFalse;
    }
    if n == 3 && cs[i] == 'I' && cs[i + 1] == 'n' && cs[i + 2] == 't' {
        assert(w =~= seq!['I', 'n', 't']);
        return TokenKind::KwInt;
    }
    if n == 4 && cs[i] == 'B' && cs[i + 1] == 'o' && cs[i + 2] == 'o' && cs[i + 3] == 'l' {
        assert(w =~= seq!['B', 'o', 'o', 'l']);
        return TokenKind::KwBool;
    }
    if n == 4 && cs[i] == 'U' && cs[i + 1] == 'n' && cs[i + 2] == 'i' && cs[i + 3] == 't' {
        assert(w =~= seq!['U', 'n', 'i', 't']);
        return TokenKind::KwUnit;
    }
    let word = input.substring_char(i, j);
    TokenKind::Ident(String::from_str(word))
}

} // verus!
