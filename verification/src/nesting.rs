//! No text with a sum inside a sum is a formula.
//!
//! The statement is about the text alone. Square brackets occur in the
//! language only as the brackets of a sum, so a place lies inside a sum
//! exactly where more `[` than `]` stand before it. `nests` says that some
//! `sum` stands at such a place, and `lemma_nesting_rejected` that the parser
//! accepts no text of which this holds, whatever else the text contains.
use crate::ast::Tree;
use crate::lexer::lemma_token_at;
use crate::lexer::next_token;
use crate::lexer::token_at;
use crate::lexer::TokenKind;
use crate::parser::additive;
use crate::parser::expr_tail;
use crate::parser::multiplicative;
use crate::parser::parse_atom;
use crate::parser::parse_enclosed;
use crate::parser::parse_expr;
use crate::parser::parse_factor;
use crate::parser::parse_formula;
use crate::parser::parse_term;
use crate::parser::term_tail;
use crate::text::chars_of;
use vstd::prelude::*;

verus! {

/// The number of open square brackets after a token of the kind `kind`,
/// where `depth` were open before it.
pub open spec fn depth_after(kind: TokenKind, depth: int) -> int {
    match kind {
        TokenKind::LBracket => depth + 1,
        TokenKind::RBracket => depth - 1,
        _ => depth,
    }
}

/// Whether `end` is where a token ends, reading token by token from `pos`.
pub open spec fn reaches(s: Seq<char>, pos: int, end: int) -> bool
    decreases end - pos,
{
    pos == end || (pos < token_at(s, pos).end <= end && reaches(s, token_at(s, pos).end, end))
}

/// The number of open square brackets at `end`, where `depth` are open at
/// `pos`.
pub open spec fn depth_at(s: Seq<char>, pos: int, end: int, depth: int) -> int
    decreases end - pos,
{
    let tok = token_at(s, pos);
    if pos < tok.end <= end {
        depth_at(s, tok.end, end, depth_after(tok.kind, depth))
    } else {
        depth
    }
}

/// Whether, among the tokens between `pos` and `end`, a `sum` stands where a
/// square bracket is open; `depth` brackets are open at `pos`.
pub open spec fn nests(s: Seq<char>, pos: int, end: int, depth: int) -> bool
    decreases end - pos,
{
    let tok = token_at(s, pos);
    if pos < tok.end <= end {
        (tok.kind == TokenKind::Sum && depth > 0) || nests(
            s,
            tok.end,
            end,
            depth_after(tok.kind, depth),
        )
    } else {
        false
    }
}

/// Whether the stretch of text from `pos` to `end` is made of whole tokens,
/// leaves as many square brackets open as it found, namely one inside a sum
/// and none outside, and holds no `sum` where one is open.
pub open spec fn tidy(s: Seq<char>, pos: int, end: int, inside: bool) -> bool {
    let depth = if inside {
        1int
    } else {
        0int
    };
    &&& reaches(s, pos, end)
    &&& depth_at(s, pos, end, depth) == depth
    &&& !nests(s, pos, end, depth)
}

/// Two stretches of whole tokens, one after the other, are one stretch.
pub proof fn lemma_stretches(s: Seq<char>, a: int, b: int, c: int, depth: int)
    requires
        reaches(s, a, b),
        reaches(s, b, c),
        b <= c,
    ensures
        reaches(s, a, c),
        depth_at(s, a, c, depth) == depth_at(s, b, c, depth_at(s, a, b, depth)),
        nests(s, a, c, depth) == (nests(s, a, b, depth) || nests(
            s,
            b,
            c,
            depth_at(s, a, b, depth),
        )),
    decreases b - a,
{
    let tok = token_at(s, a);
    if a != b {
        lemma_stretches(s, tok.end, b, c, depth_after(tok.kind, depth));
    }
}

/// One token is a stretch.
pub proof fn lemma_one_token(s: Seq<char>, pos: int, depth: int)
    requires
        pos < token_at(s, pos).end,
    ensures
        reaches(s, pos, token_at(s, pos).end),
        depth_at(s, pos, token_at(s, pos).end, depth) == depth_after(token_at(s, pos).kind, depth),
        nests(s, pos, token_at(s, pos).end, depth) == (token_at(s, pos).kind == TokenKind::Sum
            && depth > 0),
{
    let end = token_at(s, pos).end;
    assert(reaches(s, end, end));
    assert(depth_at(s, end, end, depth_after(token_at(s, pos).kind, depth)) == depth_after(
        token_at(s, pos).kind,
        depth,
    ));
    assert(!nests(s, end, end, depth_after(token_at(s, pos).kind, depth)));
}

/// A tidy stretch with one token before it that is no bracket and no `sum`
/// is tidy, and so is one with such a token behind it.
proof fn lemma_token_then(s: Seq<char>, pos: int, end: int, inside: bool)
    requires
        pos < token_at(s, pos).end <= end,
        token_at(s, pos).kind != TokenKind::Sum,
        token_at(s, pos).kind != TokenKind::LBracket,
        token_at(s, pos).kind != TokenKind::RBracket,
        tidy(s, token_at(s, pos).end, end, inside),
    ensures
        tidy(s, pos, end, inside),
{
    let depth = if inside {
        1int
    } else {
        0int
    };
    lemma_one_token(s, pos, depth);
    lemma_stretches(s, pos, token_at(s, pos).end, end, depth);
}

proof fn lemma_then_token(s: Seq<char>, pos: int, mid: int, inside: bool)
    requires
        tidy(s, pos, mid, inside),
        mid < token_at(s, mid).end,
        token_at(s, mid).kind != TokenKind::Sum,
        token_at(s, mid).kind != TokenKind::LBracket,
        token_at(s, mid).kind != TokenKind::RBracket,
    ensures
        tidy(s, pos, token_at(s, mid).end, inside),
{
    let depth = if inside {
        1int
    } else {
        0int
    };
    lemma_one_token(s, mid, depth);
    lemma_stretches(s, pos, mid, token_at(s, mid).end, depth);
}

proof fn lemma_tidy_join(s: Seq<char>, a: int, b: int, c: int, inside: bool)
    requires
        tidy(s, a, b, inside),
        tidy(s, b, c, inside),
        b <= c,
    ensures
        tidy(s, a, c, inside),
{
    let depth = if inside {
        1int
    } else {
        0int
    };
    lemma_stretches(s, a, b, c, depth);
}

/// The body of a sum between its brackets: tidy inside, so tidy outside with
/// the brackets around it.
proof fn lemma_sum_brackets(s: Seq<char>, pos: int, mid: int)
    requires
        pos < token_at(s, pos).end <= mid,
        token_at(s, pos).kind == TokenKind::LBracket,
        tidy(s, token_at(s, pos).end, mid, true),
        mid < token_at(s, mid).end,
        token_at(s, mid).kind == TokenKind::RBracket,
    ensures
        tidy(s, pos, token_at(s, mid).end, false),
{
    let open = token_at(s, pos).end;
    let close = token_at(s, mid).end;
    lemma_one_token(s, pos, 0);
    lemma_one_token(s, mid, 1);
    lemma_stretches(s, open, mid, close, 1);
    lemma_stretches(s, pos, open, close, 0);
}

/// The stretch that an atom is read from is tidy.
pub proof fn lemma_atom_tidy(s: Seq<char>, pos: int, inside: bool)
    requires
        0 <= pos <= s.len(),
    ensures
        parse_atom(s, pos, inside) matches Ok((_, next)) ==> pos < next <= s.len() && tidy(
            s,
            pos,
            next,
            inside,
        ),
    decreases s.len() - pos, 0nat,
{
    lemma_token_at(s, pos);
    let tok = token_at(s, pos);
    let depth = if inside {
        1int
    } else {
        0int
    };
    match tok.kind {
        TokenKind::Number | TokenKind::Constant(_) | TokenKind::Ident => {
            lemma_one_token(s, pos, depth);
        },
        TokenKind::Function(_) => {
            lemma_enclosed_tidy(s, tok.end, inside, TokenKind::LParen, TokenKind::RParen);
            if let Ok((_, next)) = parse_enclosed(
                s,
                tok.end,
                inside,
                TokenKind::LParen,
                TokenKind::RParen,
            ) {
                lemma_token_then(s, pos, next, inside);
            }
        },
        TokenKind::Sum => {
            if !inside {
                lemma_enclosed_tidy(s, tok.end, true, TokenKind::LBracket, TokenKind::RBracket);
                if let Ok((_, next)) = parse_enclosed(
                    s,
                    tok.end,
                    true,
                    TokenKind::LBracket,
                    TokenKind::RBracket,
                ) {
                    lemma_one_token(s, pos, 0);
                    lemma_stretches(s, pos, tok.end, next, 0);
                }
            }
        },
        TokenKind::LParen => {
            lemma_expr_tidy(s, tok.end, inside);
            if let Ok((_, next)) = parse_expr(s, tok.end, inside) {
                lemma_token_at(s, next);
                if token_at(s, next).kind == TokenKind::RParen {
                    lemma_then_token(s, tok.end, next, inside);
                    lemma_token_then(s, pos, token_at(s, next).end, inside);
                }
            }
        },
        _ => {},
    }
}

/// The stretch that a bracketed expression is read from is tidy: as seen
/// from outside the sum where the brackets are those of a sum, and as seen
/// from where the expression stands where they are parentheses.
pub proof fn lemma_enclosed_tidy(
    s: Seq<char>,
    pos: int,
    inside: bool,
    open: TokenKind,
    close: TokenKind,
)
    requires
        0 <= pos <= s.len(),
        (open == TokenKind::LParen && close == TokenKind::RParen) || (open == TokenKind::LBracket
            && close == TokenKind::RBracket && inside),
    ensures
        parse_enclosed(s, pos, inside, open, close) matches Ok((_, next)) ==> pos < next
            <= s.len() && tidy(s, pos, next, inside && open == TokenKind::LParen),
    decreases s.len() - pos, 4nat,
{
    lemma_token_at(s, pos);
    let tok = token_at(s, pos);
    if tok.kind == open && pos < tok.end {
        lemma_expr_tidy(s, tok.end, inside);
        if let Ok((_, next)) = parse_expr(s, tok.end, inside) {
            lemma_token_at(s, next);
            if token_at(s, next).kind == close {
                if open == TokenKind::LParen {
                    lemma_then_token(s, tok.end, next, inside);
                    lemma_token_then(s, pos, token_at(s, next).end, inside);
                } else {
                    lemma_sum_brackets(s, pos, next);
                }
            }
        }
    }
}

/// The stretch that a factor is read from is tidy.
pub proof fn lemma_factor_tidy(s: Seq<char>, pos: int, inside: bool)
    requires
        0 <= pos <= s.len(),
    ensures
        parse_factor(s, pos, inside) matches Ok((_, next)) ==> pos < next <= s.len() && tidy(
            s,
            pos,
            next,
            inside,
        ),
    decreases s.len() - pos, 1nat,
{
    lemma_atom_tidy(s, pos, inside);
    if let Ok((_, mid)) = parse_atom(s, pos, inside) {
        lemma_token_at(s, mid);
        let tok = token_at(s, mid);
        if tok.kind == TokenKind::Power {
            lemma_factor_tidy(s, tok.end, inside);
            if let Ok((_, next)) = parse_factor(s, tok.end, inside) {
                lemma_token_then(s, mid, next, inside);
                lemma_tidy_join(s, pos, mid, next, inside);
            }
        }
    }
}

/// The stretch that the tail of a term is read from is tidy.
pub proof fn lemma_term_tail_tidy(s: Seq<char>, pos: int, inside: bool, left: Tree)
    requires
        0 <= pos <= s.len(),
    ensures
        term_tail(s, pos, inside, left) matches Ok((_, next)) ==> pos <= next <= s.len() && tidy(
            s,
            pos,
            next,
            inside,
        ),
    decreases s.len() - pos, 5nat,
{
    lemma_token_at(s, pos);
    let tok = token_at(s, pos);
    if let Some(op) = multiplicative(tok.kind) {
        lemma_factor_tidy(s, tok.end, inside);
        if let Ok((right, mid)) = parse_factor(s, tok.end, inside) {
            let joined = Tree::Op(Box::new(left), op, Box::new(right));
            lemma_term_tail_tidy(s, mid, inside, joined);
            if let Ok((_, next)) = term_tail(s, mid, inside, joined) {
                lemma_token_then(s, pos, mid, inside);
                lemma_tidy_join(s, pos, mid, next, inside);
            }
        }
    }
}

/// The stretch that a term is read from is tidy.
pub proof fn lemma_term_tidy(s: Seq<char>, pos: int, inside: bool)
    requires
        0 <= pos <= s.len(),
    ensures
        parse_term(s, pos, inside) matches Ok((_, next)) ==> pos < next <= s.len() && tidy(
            s,
            pos,
            next,
            inside,
        ),
    decreases s.len() - pos, 2nat,
{
    lemma_factor_tidy(s, pos, inside);
    if let Ok((left, mid)) = parse_factor(s, pos, inside) {
        lemma_term_tail_tidy(s, mid, inside, left);
        if let Ok((_, next)) = term_tail(s, mid, inside, left) {
            lemma_tidy_join(s, pos, mid, next, inside);
        }
    }
}

/// The stretch that the tail of an expression is read from is tidy.
pub proof fn lemma_expr_tail_tidy(s: Seq<char>, pos: int, inside: bool, left: Tree)
    requires
        0 <= pos <= s.len(),
    ensures
        expr_tail(s, pos, inside, left) matches Ok((_, next)) ==> pos <= next <= s.len() && tidy(
            s,
            pos,
            next,
            inside,
        ),
    decreases s.len() - pos, 5nat,
{
    lemma_token_at(s, pos);
    let tok = token_at(s, pos);
    if let Some(op) = additive(tok.kind) {
        lemma_term_tidy(s, tok.end, inside);
        if let Ok((right, mid)) = parse_term(s, tok.end, inside) {
            let joined = Tree::Op(Box::new(left), op, Box::new(right));
            lemma_expr_tail_tidy(s, mid, inside, joined);
            if let Ok((_, next)) = expr_tail(s, mid, inside, joined) {
                lemma_token_then(s, pos, mid, inside);
                lemma_tidy_join(s, pos, mid, next, inside);
            }
        }
    }
}

/// The stretch that an expression is read from is tidy.
pub proof fn lemma_expr_tidy(s: Seq<char>, pos: int, inside: bool)
    requires
        0 <= pos <= s.len(),
    ensures
        parse_expr(s, pos, inside) matches Ok((_, next)) ==> pos < next <= s.len() && tidy(
            s,
            pos,
            next,
            inside,
        ),
    decreases s.len() - pos, 3nat,
{
    lemma_term_tidy(s, pos, inside);
    if let Ok((left, mid)) = parse_term(s, pos, inside) {
        lemma_expr_tail_tidy(s, mid, inside, left);
        if let Ok((_, next)) = expr_tail(s, mid, inside, left) {
            lemma_tidy_join(s, pos, mid, next, inside);
        }
    }
}

/// A text in which a `sum` stands inside the brackets of a sum is no
/// formula: the parser refuses it, whatever the text holds besides.
pub proof fn lemma_nesting_rejected(s: Seq<char>)
    requires
        nests(s, 0, s.len() as int, 0),
    ensures
        parse_formula(s) is Err,
{
    if parse_formula(s) is Ok {
        let end = s.len() as int;
        lemma_token_at(s, 0);
        let head = token_at(s, 0);
        lemma_token_at(s, head.end);
        let assign = token_at(s, head.end);
        lemma_expr_tidy(s, assign.end, false);
        let next = parse_expr(s, assign.end, false)->Ok_0.1;
        lemma_token_at(s, next);
        let last = token_at(s, next);
        assert(tidy(s, next, end, false)) by {
            if next < end {
                lemma_one_token(s, next, 0);
            }
        }
        lemma_tidy_join(s, assign.end, next, end, false);
        lemma_token_then(s, head.end, end, false);
        lemma_token_then(s, 0, end, false);
    }
}

/// Whether a `sum` stands inside the brackets of a sum in `formula`. Where it
/// does, the text is no formula.
pub fn nests_sum(formula: &str) -> (r: bool)
    ensures
        r == nests(formula@, 0, formula@.len() as int, 0),
        r ==> parse_formula(formula@) is Err,
{
    let v = chars_of(formula);
    let n = v.len();
    let mut pos: usize = 0;
    let mut depth: i128 = 0;
    loop
        invariant
            n == v.len(),
            v@ == formula@,
            pos <= n,
            -(pos as int) <= depth <= pos as int,
            nests(formula@, 0, n as int, 0) == nests(formula@, pos as int, n as int, depth as int),
        decreases n - pos,
    {
        let tok = next_token(&v, pos);
        if tok.end <= pos {
            return false;
        }
        match tok.kind {
            TokenKind::Sum => {
                if depth > 0 {
                    proof {
                        lemma_nesting_rejected(formula@);
                    }
                    return true;
                }
            },
            TokenKind::LBracket => {
                depth = depth + 1;
            },
            TokenKind::RBracket => {
                depth = depth - 1;
            },
            _ => {},
        }
        pos = tok.end;
    }
}

} // verus!
