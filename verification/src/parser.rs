//! The grammar of formulas and a recursive-descent parser for it.
//!
//! ```text
//! formula = ("n" | "eps") "=" expr
//! expr    = term (("+" | "-") term)*          left-associative
//! term    = factor (("*" | "/") factor)*      left-associative
//! factor  = atom ("**" factor)?               right-associative
//! atom    = NUMBER | CONST | FUNC "(" expr ")" | "sum" "[" expr "]"
//!         | IDENT | "(" expr ")"
//! ```
//!
//! An identifier inside `sum[...]` is a repeated variable, one outside is a
//! plain variable. A `sum` inside `sum[...]` is refused where it is met.
//!
//! The grammar is given by the spec functions `parse_formula`, `parse_expr`,
//! `parse_term`, `parse_factor` and `parse_atom`; the executable parser below
//! them is proved to compute exactly those.
use crate::ast::Expr;
use crate::ast::Opcode;
use crate::ast::Tree;
use crate::lexer::lemma_token_at;
use crate::lexer::next_token;
use crate::lexer::token_at;
use crate::lexer::Lexeme;
use crate::lexer::Token;
use crate::lexer::TokenKind;
use crate::number::digit_run;
use crate::number::lemma_digit_run;
use crate::number::scan_digits;
use crate::number::Decimal;
use crate::number::Numeral;
use crate::shape::lemma_formula_shape;
use crate::shape::well_formed_formula;
use crate::text::chars_of;
use crate::text::string_of;
use vstd::prelude::*;

verus! {

/// Why a formula was refused.
#[derive(Copy, Clone, PartialEq, Eq, Debug, Structural)]
pub enum ParseErrorKind {
    /// A character that starts no token.
    InvalidToken,
    /// The text ends where the grammar wants more.
    UnrecognizedEof,
    /// A token that the grammar does not allow at its place.
    UnrecognizedToken,
    /// A `sum` inside the brackets of another `sum`.
    NestedSum,
}

/// A parse error as the contracts see it: the reason, the kind of the
/// offending token and the range of character positions that it covers.
pub struct Rejection {
    pub kind: ParseErrorKind,
    pub token: TokenKind,
    pub start: int,
    pub end: int,
}

/// A parse error: the reason, the kind of the offending token and the range
/// of character positions that it covers.
#[derive(Copy, Clone, PartialEq, Eq, Debug)]
pub struct ParseError {
    pub kind: ParseErrorKind,
    pub token: TokenKind,
    pub start: usize,
    pub end: usize,
}

impl View for ParseError {
    type V = Rejection;

    open spec fn view(&self) -> Rejection {
        Rejection {
            kind: self.kind,
            token: self.token,
            start: self.start as int,
            end: self.end as int,
        }
    }
}

/// The error for a token that the grammar does not allow where it stands.
pub open spec fn unexpected(tok: Lexeme) -> Rejection {
    Rejection {
        kind: match tok.kind {
            TokenKind::End => ParseErrorKind::UnrecognizedEof,
            TokenKind::Invalid => ParseErrorKind::InvalidToken,
            _ => ParseErrorKind::UnrecognizedToken,
        },
        token: tok.kind,
        start: tok.start,
        end: tok.end,
    }
}

/// Requires the next token at `pos` to be of kind `kind`; gives the position
/// after it.
pub open spec fn expect(s: Seq<char>, pos: int, kind: TokenKind) -> Result<int, Rejection> {
    let tok = token_at(s, pos);
    if tok.kind == kind {
        Ok(tok.end)
    } else {
        Err(unexpected(tok))
    }
}

/// The number that the number token `tok` denotes.
pub open spec fn numeral_at(s: Seq<char>, tok: Lexeme) -> Numeral {
    let mid = digit_run(s, tok.start);
    Numeral::of(
        s.subrange(tok.start, mid),
        if mid < tok.end {
            s.subrange(mid + 1, tok.end)
        } else {
            Seq::empty()
        },
    )
}

/// The operator of an additive token.
pub open spec fn additive(kind: TokenKind) -> Option<Opcode> {
    match kind {
        TokenKind::Plus => Some(Opcode::Add),
        TokenKind::Minus => Some(Opcode::Sub),
        _ => None,
    }
}

/// The operator of a multiplicative token.
pub open spec fn multiplicative(kind: TokenKind) -> Option<Opcode> {
    match kind {
        TokenKind::Star => Some(Opcode::Mul),
        TokenKind::Slash => Some(Opcode::Div),
        _ => None,
    }
}

/// Whether `next` lies further on in the text than `pos`. Every step of the
/// grammar moves ahead; the functions below say so where they recur.
pub open spec fn ahead(s: Seq<char>, pos: int, next: int) -> bool {
    pos < next <= s.len()
}

/// `atom`, read at `pos`. `inside` says whether `pos` lies in the brackets of
/// a sum. The result is the tree and the position after the atom.
pub open spec fn parse_atom(s: Seq<char>, pos: int, inside: bool) -> Result<(Tree, int), Rejection>
    decreases s.len() - pos, 0nat,
{
    let tok = token_at(s, pos);
    match tok.kind {
        TokenKind::Number => Ok((Tree::Number(numeral_at(s, tok)), tok.end)),
        TokenKind::Constant(c) => Ok((Tree::Constant(c), tok.end)),
        TokenKind::Ident => {
            let name = s.subrange(tok.start, tok.end);
            Ok(
                (
                    if inside {
                        Tree::RepeatedVar(name)
                    } else {
                        Tree::Var(name)
                    },
                    tok.end,
                ),
            )
        },
        TokenKind::Function(f) => {
            if ahead(s, pos, tok.end) {
                match parse_enclosed(s, tok.end, inside, TokenKind::LParen, TokenKind::RParen) {
                    Ok((arg, next)) => Ok((Tree::Func(f, Box::new(arg)), next)),
                    Err(e) => Err(e),
                }
            } else {
                Err(unexpected(tok))
            }
        },
        TokenKind::Sum => {
            if inside {
                Err(
                    Rejection {
                        kind: ParseErrorKind::NestedSum,
                        token: TokenKind::Sum,
                        start: tok.start,
                        end: tok.end,
                    },
                )
            } else if ahead(s, pos, tok.end) {
                match parse_enclosed(s, tok.end, true, TokenKind::LBracket, TokenKind::RBracket) {
                    Ok((body, next)) => Ok((Tree::Sum(Box::new(body)), next)),
                    Err(e) => Err(e),
                }
            } else {
                Err(unexpected(tok))
            }
        },
        TokenKind::LParen => {
            if ahead(s, pos, tok.end) {
                match parse_expr(s, tok.end, inside) {
                    Ok((inner, next)) => match expect(s, next, TokenKind::RParen) {
                        Ok(after) => Ok((inner, after)),
                        Err(e) => Err(e),
                    },
                    Err(e) => Err(e),
                }
            } else {
                Err(unexpected(tok))
            }
        },
        _ => Err(unexpected(tok)),
    }
}

/// `open expr close`, read at `pos`.
pub open spec fn parse_enclosed(
    s: Seq<char>,
    pos: int,
    inside: bool,
    open: TokenKind,
    close: TokenKind,
) -> Result<(Tree, int), Rejection>
    decreases s.len() - pos, 4nat,
{
    let tok = token_at(s, pos);
    if tok.kind == open && ahead(s, pos, tok.end) {
        match parse_expr(s, tok.end, inside) {
            Ok((inner, next)) => match expect(s, next, close) {
                Ok(after) => Ok((inner, after)),
                Err(e) => Err(e),
            },
            Err(e) => Err(e),
        }
    } else {
        Err(unexpected(tok))
    }
}

/// `factor`, read at `pos`: an atom, raised to the factor that follows a `**`.
pub open spec fn parse_factor(s: Seq<char>, pos: int, inside: bool) -> Result<
    (Tree, int),
    Rejection,
>
    decreases s.len() - pos, 1nat,
{
    match parse_atom(s, pos, inside) {
        Ok((base, next)) => {
            let tok = token_at(s, next);
            if tok.kind == TokenKind::Power && ahead(s, pos, tok.end) {
                match parse_factor(s, tok.end, inside) {
                    Ok((exponent, after)) => Ok(
                        (Tree::Op(Box::new(base), Opcode::Pow, Box::new(exponent)), after),
                    ),
                    Err(e) => Err(e),
                }
            } else {
                Ok((base, next))
            }
        },
        Err(e) => Err(e),
    }
}

/// What follows a term's first factors: `left` is the tree read so far, up to
/// `pos`; each `*` or `/` with its factor is joined to it from the left.
pub open spec fn term_tail(s: Seq<char>, pos: int, inside: bool, left: Tree) -> Result<
    (Tree, int),
    Rejection,
>
    decreases s.len() - pos, 5nat,
{
    let tok = token_at(s, pos);
    match multiplicative(tok.kind) {
        Some(op) => {
            if ahead(s, pos, tok.end) {
                match parse_factor(s, tok.end, inside) {
                    Ok((right, next)) => {
                        let joined = Tree::Op(Box::new(left), op, Box::new(right));
                        if ahead(s, pos, next) {
                            term_tail(s, next, inside, joined)
                        } else {
                            Ok((joined, next))
                        }
                    },
                    Err(e) => Err(e),
                }
            } else {
                Ok((left, pos))
            }
        },
        None => Ok((left, pos)),
    }
}

/// `term`, read at `pos`.
pub open spec fn parse_term(s: Seq<char>, pos: int, inside: bool) -> Result<(Tree, int), Rejection>
    decreases s.len() - pos, 2nat,
{
    match parse_factor(s, pos, inside) {
        Ok((left, next)) => {
            if ahead(s, pos, next) {
                term_tail(s, next, inside, left)
            } else {
                Ok((left, next))
            }
        },
        Err(e) => Err(e),
    }
}

/// What follows an expression's first terms: `left` is the tree read so far,
/// up to `pos`; each `+` or `-` with its term is joined to it from the left.
pub open spec fn expr_tail(s: Seq<char>, pos: int, inside: bool, left: Tree) -> Result<
    (Tree, int),
    Rejection,
>
    decreases s.len() - pos, 5nat,
{
    let tok = token_at(s, pos);
    match additive(tok.kind) {
        Some(op) => {
            if ahead(s, pos, tok.end) {
                match parse_term(s, tok.end, inside) {
                    Ok((right, next)) => {
                        let joined = Tree::Op(Box::new(left), op, Box::new(right));
                        if ahead(s, pos, next) {
                            expr_tail(s, next, inside, joined)
                        } else {
                            Ok((joined, next))
                        }
                    },
                    Err(e) => Err(e),
                }
            } else {
                Ok((left, pos))
            }
        },
        None => Ok((left, pos)),
    }
}

/// `expr`, read at `pos`.
pub open spec fn parse_expr(s: Seq<char>, pos: int, inside: bool) -> Result<(Tree, int), Rejection>
    decreases s.len() - pos, 3nat,
{
    match parse_term(s, pos, inside) {
        Ok((left, next)) => {
            if ahead(s, pos, next) {
                expr_tail(s, next, inside, left)
            } else {
                Ok((left, next))
            }
        },
        Err(e) => Err(e),
    }
}

/// The tree of the formula `s`, or the first error met when reading `s` from
/// left to right. The whole text must be used up.
pub open spec fn parse_formula(s: Seq<char>) -> Result<Tree, Rejection> {
    let head = token_at(s, 0);
    if head.kind != TokenKind::Index && head.kind != TokenKind::Dielectric {
        Err(unexpected(head))
    } else {
        match expect(s, head.end, TokenKind::Assign) {
            Ok(pos) => match parse_expr(s, pos, false) {
                Ok((body, next)) => {
                    let last = token_at(s, next);
                    if last.kind != TokenKind::End {
                        Err(unexpected(last))
                    } else if head.kind == TokenKind::Index {
                        Ok(Tree::Index(Box::new(body)))
                    } else {
                        Ok(Tree::Dielectric(Box::new(body)))
                    }
                },
                Err(e) => Err(e),
            },
            Err(e) => Err(e),
        }
    }
}

/// Whether what the parser returned is what the grammar gives.
pub open spec fn agrees(
    r: Result<(Expr, usize), ParseError>,
    model: Result<(Tree, int), Rejection>,
) -> bool {
    match r {
        Ok((e, next)) => model == Ok::<(Tree, int), Rejection>((e@, next as int)),
        Err(err) => model == Err::<(Tree, int), Rejection>(err@),
    }
}

fn unexpected_token(tok: Token) -> (r: ParseError)
    ensures
        r@ == unexpected(tok@),
{
    let kind = match tok.kind {
        TokenKind::End => ParseErrorKind::UnrecognizedEof,
        TokenKind::Invalid => ParseErrorKind::InvalidToken,
        _ => ParseErrorKind::UnrecognizedToken,
    };
    ParseError { kind, token: tok.kind, start: tok.start, end: tok.end }
}

fn expect_token(v: &Vec<char>, pos: usize, kind: TokenKind) -> (r: Result<usize, ParseError>)
    requires
        pos <= v.len(),
        kind != TokenKind::End,
    ensures
        match r {
            Ok(next) => expect(v@, pos as int, kind) == Ok::<int, Rejection>(next as int) && pos
                < next <= v.len(),
            Err(err) => expect(v@, pos as int, kind) == Err::<int, Rejection>(err@),
        },
{
    proof {
        lemma_token_at(v@, pos as int);
    }
    let tok = next_token(v, pos);
    if tok.kind == kind {
        Ok(tok.end)
    } else {
        Err(unexpected_token(tok))
    }
}

fn atom(v: &Vec<char>, pos: usize, inside: bool) -> (r: Result<(Expr, usize), ParseError>)
    requires
        pos <= v.len(),
    ensures
        agrees(r, parse_atom(v@, pos as int, inside)),
        r matches Ok((_, next)) ==> pos < next <= v.len(),
    decreases v.len() - pos, 0nat,
{
    proof {
        lemma_token_at(v@, pos as int);
    }
    let tok = next_token(v, pos);
    match tok.kind {
        TokenKind::Number => {
            proof {
                lemma_digit_run(v@, tok.start as int);
                let mid = digit_run(v@, tok.start as int);
                if mid + 1 <= v@.len() {
                    lemma_digit_run(v@, mid + 1);
                }
            }
            let mid = scan_digits(v, tok.start);
            let number = Decimal::read(v, tok.start, mid, tok.end);
            Ok((Expr::Number(number), tok.end))
        },
        TokenKind::Constant(c) => Ok((Expr::Constant(c), tok.end)),
        TokenKind::Ident => {
            let name = string_of(v, tok.start, tok.end);
            if inside {
                Ok((Expr::RepeatedVar(name), tok.end))
            } else {
                Ok((Expr::Var(name), tok.end))
            }
        },
        TokenKind::Function(f) => {
            match enclosed(v, tok.end, inside, TokenKind::LParen, TokenKind::RParen) {
                Ok((arg, next)) => Ok((Expr::Func(f, Box::new(arg)), next)),
                Err(e) => Err(e),
            }
        },
        TokenKind::Sum => {
            if inside {
                Err(
                    ParseError {
                        kind: ParseErrorKind::NestedSum,
                        token: TokenKind::Sum,
                        start: tok.start,
                        end: tok.end,
                    },
                )
            } else {
                match enclosed(v, tok.end, true, TokenKind::LBracket, TokenKind::RBracket) {
                    Ok((body, next)) => Ok((Expr::Sum(Box::new(body)), next)),
                    Err(e) => Err(e),
                }
            }
        },
        TokenKind::LParen => {
            match expr(v, tok.end, inside) {
                Ok((inner, next)) => match expect_token(v, next, TokenKind::RParen) {
                    Ok(after) => Ok((inner, after)),
                    Err(e) => Err(e),
                },
                Err(e) => Err(e),
            }
        },
        _ => Err(unexpected_token(tok)),
    }
}

fn enclosed(v: &Vec<char>, pos: usize, inside: bool, open: TokenKind, close: TokenKind) -> (r:
    Result<(Expr, usize), ParseError>)
    requires
        pos <= v.len(),
        open != TokenKind::End,
        close != TokenKind::End,
    ensures
        agrees(r, parse_enclosed(v@, pos as int, inside, open, close)),
        r matches Ok((_, next)) ==> pos < next <= v.len(),
    decreases v.len() - pos, 4nat,
{
    proof {
        lemma_token_at(v@, pos as int);
    }
    let tok = next_token(v, pos);
    if tok.kind == open {
        match expr(v, tok.end, inside) {
            Ok((inner, next)) => match expect_token(v, next, close) {
                Ok(after) => Ok((inner, after)),
                Err(e) => Err(e),
            },
            Err(e) => Err(e),
        }
    } else {
        Err(unexpected_token(tok))
    }
}

fn factor(v: &Vec<char>, pos: usize, inside: bool) -> (r: Result<(Expr, usize), ParseError>)
    requires
        pos <= v.len(),
    ensures
        agrees(r, parse_factor(v@, pos as int, inside)),
        r matches Ok((_, next)) ==> pos < next <= v.len(),
    decreases v.len() - pos, 1nat,
{
    match atom(v, pos, inside) {
        Ok((base, next)) => {
            proof {
                lemma_token_at(v@, next as int);
            }
            let tok = next_token(v, next);
            if tok.kind == TokenKind::Power {
                match factor(v, tok.end, inside) {
                    Ok((exponent, after)) => Ok(
                        (Expr::Op(Box::new(base), Opcode::Pow, Box::new(exponent)), after),
                    ),
                    Err(e) => Err(e),
                }
            } else {
                Ok((base, next))
            }
        },
        Err(e) => Err(e),
    }
}

fn term(v: &Vec<char>, pos: usize, inside: bool) -> (r: Result<(Expr, usize), ParseError>)
    requires
        pos <= v.len(),
    ensures
        agrees(r, parse_term(v@, pos as int, inside)),
        r matches Ok((_, next)) ==> pos < next <= v.len(),
    decreases v.len() - pos, 2nat,
{
    let (first, start) = match factor(v, pos, inside) {
        Ok(pair) => pair,
        Err(e) => {
            return Err(e);
        },
    };
    let mut left = first;
    let mut at = start;
    loop
        invariant
            pos < at <= v.len(),
            parse_term(v@, pos as int, inside) == term_tail(v@, at as int, inside, left@),
        decreases v.len() - at,
    {
        proof {
            lemma_token_at(v@, at as int);
        }
        let tok = next_token(v, at);
        let op = match tok.kind {
            TokenKind::Star => Opcode::Mul,
            TokenKind::Slash => Opcode::Div,
            _ => {
                return Ok((left, at));
            },
        };
        match factor(v, tok.end, inside) {
            Ok((right, next)) => {
                left = Expr::Op(Box::new(left), op, Box::new(right));
                at = next;
            },
            Err(e) => {
                return Err(e);
            },
        }
    }
}

fn expr(v: &Vec<char>, pos: usize, inside: bool) -> (r: Result<(Expr, usize), ParseError>)
    requires
        pos <= v.len(),
    ensures
        agrees(r, parse_expr(v@, pos as int, inside)),
        r matches Ok((_, next)) ==> pos < next <= v.len(),
    decreases v.len() - pos, 3nat,
{
    let (first, start) = match term(v, pos, inside) {
        Ok(pair) => pair,
        Err(e) => {
            return Err(e);
        },
    };
    let mut left = first;
    let mut at = start;
    loop
        invariant
            pos < at <= v.len(),
            parse_expr(v@, pos as int, inside) == expr_tail(v@, at as int, inside, left@),
        decreases v.len() - at,
    {
        proof {
            lemma_token_at(v@, at as int);
        }
        let tok = next_token(v, at);
        let op = match tok.kind {
            TokenKind::Plus => Opcode::Add,
            TokenKind::Minus => Opcode::Sub,
            _ => {
                return Ok((left, at));
            },
        };
        match term(v, tok.end, inside) {
            Ok((right, next)) => {
                left = Expr::Op(Box::new(left), op, Box::new(right));
                at = next;
            },
            Err(e) => {
                return Err(e);
            },
        }
    }
}

/// Parses a formula. The result is the tree that the grammar gives for the
/// text, or the error that it gives: one text, one result. A tree that is
/// returned is well-formed, so it holds no sum within a sum.
pub fn parse_ast(formula: &str) -> (r: Result<Box<Expr>, ParseError>)
    ensures
        match r {
            Ok(e) => parse_formula(formula@) == Ok::<Tree, Rejection>(e@),
            Err(err) => parse_formula(formula@) == Err::<Tree, Rejection>(err@),
        },
        r matches Ok(e) ==> well_formed_formula(e@) && !e@.has_nested_sum(),
{
    let v = chars_of(formula);
    proof {
        lemma_token_at(v@, 0);
        lemma_formula_shape(v@);
    }
    let head = next_token(&v, 0);
    let index = match head.kind {
        TokenKind::Index => true,
        TokenKind::Dielectric => false,
        _ => {
            return Err(unexpected_token(head));
        },
    };
    let pos = match expect_token(&v, head.end, TokenKind::Assign) {
        Ok(pos) => pos,
        Err(e) => {
            return Err(e);
        },
    };
    let (body, next) = match expr(&v, pos, false) {
        Ok(pair) => pair,
        Err(e) => {
            return Err(e);
        },
    };
    let last = next_token(&v, next);
    match last.kind {
        TokenKind::End => {
            if index {
                Ok(Box::new(Expr::Index(Box::new(body))))
            } else {
                Ok(Box::new(Expr::Dielectric(Box::new(body))))
            }
        },
        _ => Err(unexpected_token(last)),
    }
}

/// Parsing is deterministic: two trees that `parse_ast` returns for one text
/// are the same tree.
pub proof fn lemma_parse_deterministic(text: Seq<char>, first: Tree, second: Tree)
    requires
        parse_formula(text) == Ok::<Tree, Rejection>(first),
        parse_formula(text) == Ok::<Tree, Rejection>(second),
    ensures
        first == second,
{
}

} // verus!
