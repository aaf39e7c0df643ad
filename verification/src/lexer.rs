//! Tokens of the formula language, read on demand at a position of the text.
//!
//! Blanks separate tokens and are otherwise ignored. A word is a letter or
//! underscore followed by letters, digits and underscores; the longest such
//! run is taken and then looked up: `n`, `eps` and `sum` are keywords, the
//! constant and function spellings name their table entries, and every other
//! word is an identifier. A number is `digit+ ('.' digit+)?`, except that `1j`
//! is the imaginary unit.
use crate::ast::Constant;
use crate::ast::Func;
use crate::number::digit;
use crate::number::digit_run;
use crate::number::is_digit;
use crate::number::lemma_digit_run;
use crate::number::scan_digits;
use crate::text::spells;
use vstd::prelude::*;

verus! {

#[derive(Copy, Clone, PartialEq, Eq, Debug, Structural)]
pub enum TokenKind {
    /// The keyword `n`.
    Index,
    /// The keyword `eps`.
    Dielectric,
    /// The keyword `sum`.
    Sum,
    /// `=`
    Assign,
    LParen,
    RParen,
    LBracket,
    RBracket,
    Star,
    Slash,
    Plus,
    Minus,
    /// `**`
    Power,
    Number,
    Constant(Constant),
    Function(Func),
    Ident,
    /// The end of the text.
    End,
    /// A character that starts no token.
    Invalid,
}

/// A token as the contracts see it: its kind and the half-open range of
/// character positions that it covers.
pub struct Lexeme {
    pub kind: TokenKind,
    pub start: int,
    pub end: int,
}

/// A token: its kind and the half-open range of character positions that it
/// covers.
#[derive(Copy, Clone, PartialEq, Eq, Debug)]
pub struct Token {
    pub kind: TokenKind,
    pub start: usize,
    pub end: usize,
}

impl View for Token {
    type V = Lexeme;

    open spec fn view(&self) -> Lexeme {
        Lexeme { kind: self.kind, start: self.start as int, end: self.end as int }
    }
}

pub open spec fn is_blank(c: char) -> bool {
    c == ' ' || c == '\t' || c == '\n' || c == '\r'
}

pub open spec fn is_letter(c: char) -> bool {
    ('a' <= c && c <= 'z') || ('A' <= c && c <= 'Z')
}

pub open spec fn is_word_start(c: char) -> bool {
    is_letter(c) || c == '_'
}

pub open spec fn is_word_char(c: char) -> bool {
    is_letter(c) || c == '_' || is_digit(c)
}

/// The first position at or after `from` that holds no blank.
pub open spec fn skip_blanks(s: Seq<char>, from: int) -> int
    decreases s.len() - from,
{
    if 0 <= from < s.len() && is_blank(s[from]) {
        skip_blanks(s, from + 1)
    } else {
        from
    }
}

/// The first position at or after `from` that holds no word character.
pub open spec fn word_run(s: Seq<char>, from: int) -> int
    decreases s.len() - from,
{
    if 0 <= from < s.len() && is_word_char(s[from]) {
        word_run(s, from + 1)
    } else {
        from
    }
}

/// Where the number that starts at `start` ends: after its whole digits, or
/// after its fraction digits where a point and a digit follow them.
pub open spec fn number_end(s: Seq<char>, start: int) -> int {
    let mid = digit_run(s, start);
    if mid + 1 < s.len() && s[mid] == '.' && is_digit(s[mid + 1]) {
        digit_run(s, mid + 1)
    } else {
        mid
    }
}

/// Whether the imaginary unit `1j` stands at `start`.
pub open spec fn unit_at(s: Seq<char>, start: int) -> bool {
    0 <= start && start + 1 < s.len() && s[start] == '1' && s[start + 1] == 'j'
}

/// What a word is: a keyword, a constant, a function or an identifier.
#[verifier::opaque]
pub open spec fn classify(word: Seq<char>) -> TokenKind {
    if word == "n"@ {
        TokenKind::Index
    } else if word == "eps"@ {
        TokenKind::Dielectric
    } else if word == "sum"@ {
        TokenKind::Sum
    } else {
        match Constant::named(word) {
            Some(c) => TokenKind::Constant(c),
            None => match Func::named(word) {
                Some(f) => TokenKind::Function(f),
                None => TokenKind::Ident,
            },
        }
    }
}

/// The kind of the one-character token `c`, `Invalid` where there is none.
pub open spec fn punctuation(c: char) -> TokenKind {
    if c == '=' {
        TokenKind::Assign
    } else if c == '(' {
        TokenKind::LParen
    } else if c == ')' {
        TokenKind::RParen
    } else if c == '[' {
        TokenKind::LBracket
    } else if c == ']' {
        TokenKind::RBracket
    } else if c == '*' {
        TokenKind::Star
    } else if c == '/' {
        TokenKind::Slash
    } else if c == '+' {
        TokenKind::Plus
    } else if c == '-' {
        TokenKind::Minus
    } else {
        TokenKind::Invalid
    }
}

/// The token that starts exactly at `start`, a position that holds no blank.
pub open spec fn token_from(s: Seq<char>, start: int) -> Lexeme {
    if !(0 <= start < s.len()) {
        Lexeme { kind: TokenKind::End, start, end: start }
    } else if is_word_start(s[start]) {
        let end = word_run(s, start);
        Lexeme { kind: classify(s.subrange(start, end)), start, end }
    } else if unit_at(s, start) {
        Lexeme { kind: TokenKind::Constant(Constant::I), start, end: start + 2 }
    } else if is_digit(s[start]) {
        Lexeme { kind: TokenKind::Number, start, end: number_end(s, start) }
    } else if s[start] == '*' && start + 1 < s.len() && s[start + 1] == '*' {
        Lexeme { kind: TokenKind::Power, start, end: start + 2 }
    } else {
        Lexeme { kind: punctuation(s[start]), start, end: start + 1 }
    }
}

/// The first token at or after `pos`.
#[verifier::opaque]
pub open spec fn token_at(s: Seq<char>, pos: int) -> Lexeme {
    token_from(s, skip_blanks(s, pos))
}

pub proof fn lemma_skip_blanks(s: Seq<char>, from: int)
    requires
        0 <= from <= s.len(),
    ensures
        from <= skip_blanks(s, from) <= s.len(),
        skip_blanks(s, from) < s.len() ==> !is_blank(s[skip_blanks(s, from)]),
        forall|i: int| from <= i < skip_blanks(s, from) ==> is_blank(#[trigger] s[i]),
    decreases s.len() - from,
{
    if from < s.len() && is_blank(s[from]) {
        lemma_skip_blanks(s, from + 1);
    }
}

pub proof fn lemma_word_run(s: Seq<char>, from: int)
    requires
        0 <= from <= s.len(),
    ensures
        from <= word_run(s, from) <= s.len(),
        word_run(s, from) < s.len() ==> !is_word_char(s[word_run(s, from)]),
        forall|i: int| from <= i < word_run(s, from) ==> is_word_char(#[trigger] s[i]),
    decreases s.len() - from,
{
    if from < s.len() && is_word_char(s[from]) {
        lemma_word_run(s, from + 1);
    }
}

/// A token lies inside the text, at or after the position asked for, and
/// every token but the end of the text covers at least one character.
pub proof fn lemma_token_at(s: Seq<char>, pos: int)
    requires
        0 <= pos <= s.len(),
    ensures
        pos <= token_at(s, pos).start <= token_at(s, pos).end <= s.len(),
        token_at(s, pos).start == skip_blanks(s, pos),
        token_at(s, pos).kind != TokenKind::End ==> token_at(s, pos).start < token_at(
            s,
            pos,
        ).end,
        token_at(s, pos).kind == TokenKind::End <==> token_at(s, pos).start == s.len(),
        token_at(s, pos).kind == TokenKind::Number ==> is_digit(s[token_at(s, pos).start])
            && token_at(s, pos).end == number_end(s, token_at(s, pos).start),
        token_at(s, pos).kind == TokenKind::Ident ==> is_word_start(s[token_at(s, pos).start])
            && token_at(s, pos).end == word_run(s, token_at(s, pos).start) && classify(
            s.subrange(token_at(s, pos).start, token_at(s, pos).end),
        ) == TokenKind::Ident,
{
    reveal(token_at);
    lemma_skip_blanks(s, pos);
    let start = skip_blanks(s, pos);
    if start < s.len() {
        lemma_word_run(s, start);
        lemma_digit_run(s, start);
        let mid = digit_run(s, start);
        if mid + 1 <= s.len() {
            lemma_digit_run(s, mid + 1);
        }
        if is_word_start(s[start]) {
            lemma_classify_word(s.subrange(start, word_run(s, start)));
        }
    }
}

/// A word is never classified as a number, a punctuation mark, the end of the
/// text or an invalid character.
pub proof fn lemma_classify_word(word: Seq<char>)
    ensures
        classify(word) != TokenKind::End,
        classify(word) != TokenKind::Invalid,
        classify(word) != TokenKind::Number,
{
    reveal(classify);
}

/// Whether `c` is a blank.
pub fn blank(c: char) -> (r: bool)
    ensures
        r == is_blank(c),
{
    c == ' ' || c == '\t' || c == '\n' || c == '\r'
}

/// Whether `c` can start a word.
pub fn word_start(c: char) -> (r: bool)
    ensures
        r == is_word_start(c),
{
    ('a' <= c && c <= 'z') || ('A' <= c && c <= 'Z') || c == '_'
}

/// Whether `c` can continue a word.
pub fn word_char(c: char) -> (r: bool)
    ensures
        r == is_word_char(c),
{
    word_start(c) || digit(c)
}

fn classify_word(v: &Vec<char>, from: usize, to: usize) -> (r: TokenKind)
    requires
        from <= to <= v.len(),
    ensures
        r == classify(v@.subrange(from as int, to as int)),
{
    reveal(classify);
    if spells(v, from, to, "n") {
        TokenKind::Index
    } else if spells(v, from, to, "eps") {
        TokenKind::Dielectric
    } else if spells(v, from, to, "sum") {
        TokenKind::Sum
    } else {
        match Constant::lookup(v, from, to) {
            Some(c) => TokenKind::Constant(c),
            None => match Func::lookup(v, from, to) {
                Some(f) => TokenKind::Function(f),
                None => TokenKind::Ident,
            },
        }
    }
}

fn punctuation_kind(c: char) -> (r: TokenKind)
    ensures
        r == punctuation(c),
{
    if c == '=' {
        TokenKind::Assign
    } else if c == '(' {
        TokenKind::LParen
    } else if c == ')' {
        TokenKind::RParen
    } else if c == '[' {
        TokenKind::LBracket
    } else if c == ']' {
        TokenKind::RBracket
    } else if c == '*' {
        TokenKind::Star
    } else if c == '/' {
        TokenKind::Slash
    } else if c == '+' {
        TokenKind::Plus
    } else if c == '-' {
        TokenKind::Minus
    } else {
        TokenKind::Invalid
    }
}

/// Reads the first token at or after `pos`.
pub fn next_token(v: &Vec<char>, pos: usize) -> (r: Token)
    requires
        pos <= v.len(),
    ensures
        r@ == token_at(v@, pos as int),
        pos <= r.start <= r.end <= v.len(),
{
    proof {
        reveal(token_at);
        lemma_token_at(v@, pos as int);
    }
    let n = v.len();
    let mut start: usize = pos;
    while start < n && blank(v[start])
        invariant
            pos <= start <= n == v.len(),
            skip_blanks(v@, pos as int) == skip_blanks(v@, start as int),
        decreases n - start,
    {
        start += 1;
    }
    if start >= n {
        return Token { kind: TokenKind::End, start, end: start };
    }
    let c = v[start];
    if word_start(c) {
        let mut end: usize = start;
        while end < n && word_char(v[end])
            invariant
                start <= end <= n == v.len(),
                word_run(v@, start as int) == word_run(v@, end as int),
            decreases n - end,
        {
            end += 1;
        }
        Token { kind: classify_word(v, start, end), start, end }
    } else if c == '1' && start + 1 < n && v[start + 1] == 'j' {
        Token { kind: TokenKind::Constant(Constant::I), start, end: start + 2 }
    } else if digit(c) {
        let mid = scan_digits(v, start);
        let end = if mid < n && v[mid] == '.' && mid + 1 < n && digit(v[mid + 1]) {
            scan_digits(v, mid + 1)
        } else {
            mid
        };
        Token { kind: TokenKind::Number, start, end }
    } else if c == '*' && start + 1 < n && v[start + 1] == '*' {
        Token { kind: TokenKind::Power, start, end: start + 2 }
    } else {
        Token { kind: punctuation_kind(c), start, end: start + 1 }
    }
}

} // verus!
