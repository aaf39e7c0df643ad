//! The shape of every tree that the parser returns.
use crate::ast::Tree;
use crate::lexer::classify;
use crate::lexer::is_word_char;
use crate::lexer::is_word_start;
use crate::lexer::lemma_token_at;
use crate::lexer::lemma_word_run;
use crate::lexer::token_at;
use crate::lexer::TokenKind;
use crate::number::digit_run;
use crate::number::lemma_digit_run;
use crate::number::lemma_numeral_of;
use crate::parser::expr_tail;
use crate::parser::parse_atom;
use crate::parser::parse_enclosed;
use crate::parser::parse_expr;
use crate::parser::parse_factor;
use crate::parser::parse_formula;
use crate::parser::parse_term;
use crate::parser::term_tail;
use crate::parser::ParseErrorKind;
use crate::parser::Rejection;
use vstd::prelude::*;

verus! {

/// A name that the lexer reads as one identifier: a word that is no keyword,
/// no constant and no function.
pub open spec fn is_identifier(name: Seq<char>) -> bool {
    &&& name.len() >= 1
    &&& is_word_start(name[0])
    &&& forall|i: int| 0 <= i < name.len() ==> is_word_char(#[trigger] name[i])
    &&& classify(name) == TokenKind::Ident
}

/// The shape of an expression below the head of a formula. `inside` says
/// whether the expression stands in a sum.
///
/// Numbers are canonical and names are identifiers. Outside a sum every
/// variable is a plain one and a sum may occur; inside a sum every variable
/// is a repeated one and no sum occurs. The heads `Index` and `Dielectric`
/// and the Kramers-Kronig node occur nowhere.
pub open spec fn well_formed(t: Tree, inside: bool) -> bool
    decreases t,
{
    match t {
        Tree::Number(n) => n.canonical(),
        Tree::Constant(_) => true,
        Tree::Var(name) => !inside && is_identifier(name),
        Tree::RepeatedVar(name) => inside && is_identifier(name),
        Tree::Op(l, _, r) => well_formed(*l, inside) && well_formed(*r, inside),
        Tree::Func(_, e) => well_formed(*e, inside),
        Tree::Sum(e) => !inside && well_formed(*e, true),
        Tree::Index(_) => false,
        Tree::Dielectric(_) => false,
        Tree::KramersKronig(_) => false,
    }
}

/// The shape of a formula: one head, `Index` or `Dielectric`, over a
/// well-formed expression.
pub open spec fn well_formed_formula(t: Tree) -> bool {
    match t {
        Tree::Index(e) => well_formed(*e, false),
        Tree::Dielectric(e) => well_formed(*e, false),
        _ => false,
    }
}

/// A well-formed expression in a sum holds no sum, and one outside a sum
/// holds no sum in a sum.
pub proof fn lemma_no_nested_sum(t: Tree, inside: bool)
    requires
        well_formed(t, inside),
    ensures
        inside ==> !t.has_sum(),
        !t.has_nested_sum(),
    decreases t,
{
    match t {
        Tree::Op(l, _, r) => {
            lemma_no_nested_sum(*l, inside);
            lemma_no_nested_sum(*r, inside);
        },
        Tree::Func(_, e) => {
            lemma_no_nested_sum(*e, inside);
        },
        Tree::Sum(e) => {
            lemma_no_nested_sum(*e, true);
        },
        _ => {},
    }
}

/// An atom that parses is well-formed and ends after the position where it
/// was looked for.
pub proof fn lemma_atom_shape(s: Seq<char>, pos: int, inside: bool)
    requires
        0 <= pos <= s.len(),
    ensures
        parse_atom(s, pos, inside) matches Ok((t, next)) ==> pos < next <= s.len()
            && well_formed(t, inside),
    decreases s.len() - pos, 0nat,
{
    lemma_token_at(s, pos);
    let tok = token_at(s, pos);
    match tok.kind {
        TokenKind::Number => {
            lemma_digit_run(s, tok.start);
            let mid = digit_run(s, tok.start);
            if mid + 1 <= s.len() {
                lemma_digit_run(s, mid + 1);
            }
            lemma_numeral_of(
                s.subrange(tok.start, mid),
                if mid < tok.end {
                    s.subrange(mid + 1, tok.end)
                } else {
                    Seq::empty()
                },
            );
        },
        TokenKind::Ident => {
            lemma_word_run(s, tok.start);
            let name = s.subrange(tok.start, tok.end);
            assert(name[0] == s[tok.start]);
            assert forall|i: int| 0 <= i < name.len() implies is_word_char(#[trigger] name[i]) by {
                assert(name[i] == s[tok.start + i]);
            }
        },
        TokenKind::Function(_) => {
            lemma_enclosed_shape(s, tok.end, inside, TokenKind::LParen, TokenKind::RParen);
        },
        TokenKind::Sum => {
            if !inside {
                lemma_enclosed_shape(s, tok.end, true, TokenKind::LBracket, TokenKind::RBracket);
            }
        },
        TokenKind::LParen => {
            lemma_expr_shape(s, tok.end, inside);
            if let Ok((_, next)) = parse_expr(s, tok.end, inside) {
                lemma_token_at(s, next);
            }
        },
        _ => {},
    }
}

/// A bracketed expression that parses is well-formed and ends after the
/// position where it was looked for.
pub proof fn lemma_enclosed_shape(
    s: Seq<char>,
    pos: int,
    inside: bool,
    open: TokenKind,
    close: TokenKind,
)
    requires
        0 <= pos <= s.len(),
        close != TokenKind::End,
    ensures
        parse_enclosed(s, pos, inside, open, close) matches Ok((t, next)) ==> pos < next
            <= s.len() && well_formed(t, inside),
    decreases s.len() - pos, 4nat,
{
    lemma_token_at(s, pos);
    let tok = token_at(s, pos);
    if tok.kind == open && pos < tok.end {
        lemma_expr_shape(s, tok.end, inside);
        if let Ok((_, next)) = parse_expr(s, tok.end, inside) {
            lemma_token_at(s, next);
        }
    }
}

/// A factor that parses is well-formed and ends after the position where it
/// was looked for.
pub proof fn lemma_factor_shape(s: Seq<char>, pos: int, inside: bool)
    requires
        0 <= pos <= s.len(),
    ensures
        parse_factor(s, pos, inside) matches Ok((t, next)) ==> pos < next <= s.len()
            && well_formed(t, inside),
    decreases s.len() - pos, 1nat,
{
    lemma_atom_shape(s, pos, inside);
    if let Ok((_, next)) = parse_atom(s, pos, inside) {
        lemma_token_at(s, next);
        let tok = token_at(s, next);
        if tok.kind == TokenKind::Power {
            lemma_factor_shape(s, tok.end, inside);
        }
    }
}

/// What a term's tail adds to a well-formed tree is well-formed, and the tail
/// ends at or after the position where it was looked for.
pub proof fn lemma_term_tail_shape(s: Seq<char>, pos: int, inside: bool, left: Tree)
    requires
        0 <= pos <= s.len(),
        well_formed(left, inside),
    ensures
        term_tail(s, pos, inside, left) matches Ok((t, next)) ==> pos <= next <= s.len()
            && well_formed(t, inside),
    decreases s.len() - pos, 5nat,
{
    lemma_token_at(s, pos);
    let tok = token_at(s, pos);
    if tok.kind == TokenKind::Star || tok.kind == TokenKind::Slash {
        lemma_factor_shape(s, tok.end, inside);
        if let Ok((right, next)) = parse_factor(s, tok.end, inside) {
            let op = crate::parser::multiplicative(tok.kind)->Some_0;
            lemma_term_tail_shape(s, next, inside, Tree::Op(Box::new(left), op, Box::new(right)));
        }
    }
}

/// A term that parses is well-formed and ends after the position where it
/// was looked for.
pub proof fn lemma_term_shape(s: Seq<char>, pos: int, inside: bool)
    requires
        0 <= pos <= s.len(),
    ensures
        parse_term(s, pos, inside) matches Ok((t, next)) ==> pos < next <= s.len() && well_formed(
            t,
            inside,
        ),
    decreases s.len() - pos, 2nat,
{
    lemma_factor_shape(s, pos, inside);
    if let Ok((left, next)) = parse_factor(s, pos, inside) {
        lemma_term_tail_shape(s, next, inside, left);
    }
}

/// What an expression's tail adds to a well-formed tree is well-formed, and
/// the tail ends at or after the position where it was looked for.
pub proof fn lemma_expr_tail_shape(s: Seq<char>, pos: int, inside: bool, left: Tree)
    requires
        0 <= pos <= s.len(),
        well_formed(left, inside),
    ensures
        expr_tail(s, pos, inside, left) matches Ok((t, next)) ==> pos <= next <= s.len()
            && well_formed(t, inside),
    decreases s.len() - pos, 5nat,
{
    lemma_token_at(s, pos);
    let tok = token_at(s, pos);
    if tok.kind == TokenKind::Plus || tok.kind == TokenKind::Minus {
        lemma_term_shape(s, tok.end, inside);
        if let Ok((right, next)) = parse_term(s, tok.end, inside) {
            let op = crate::parser::additive(tok.kind)->Some_0;
            lemma_expr_tail_shape(s, next, inside, Tree::Op(Box::new(left), op, Box::new(right)));
        }
    }
}

/// An expression that parses is well-formed and ends after the position where
/// it was looked for.
pub proof fn lemma_expr_shape(s: Seq<char>, pos: int, inside: bool)
    requires
        0 <= pos <= s.len(),
    ensures
        parse_expr(s, pos, inside) matches Ok((t, next)) ==> pos < next <= s.len() && well_formed(
            t,
            inside,
        ),
    decreases s.len() - pos, 3nat,
{
    lemma_term_shape(s, pos, inside);
    if let Ok((left, next)) = parse_term(s, pos, inside) {
        lemma_expr_tail_shape(s, next, inside, left);
    }
}

/// Every formula that parses is well-formed. In particular no sum stands in
/// the body of another sum: a text that nests sums is never accepted,
/// whatever else it holds.
pub proof fn lemma_formula_shape(s: Seq<char>)
    ensures
        parse_formula(s) matches Ok(t) ==> well_formed_formula(t) && !t.has_nested_sum(),
{
    lemma_token_at(s, 0);
    let head = token_at(s, 0);
    lemma_token_at(s, head.end);
    let assign = token_at(s, head.end);
    if assign.kind == TokenKind::Assign {
        lemma_expr_shape(s, assign.end, false);
        if let Ok((body, _)) = parse_expr(s, assign.end, false) {
            lemma_no_nested_sum(body, false);
        }
    }
}

/// Inside the brackets of a sum, a `sum` where an atom is due is refused as
/// a nested sum, whatever follows it.
pub proof fn lemma_sum_inside_sum(s: Seq<char>, pos: int)
    requires
        token_at(s, pos).kind == TokenKind::Sum,
    ensures
        parse_atom(s, pos, true) == Err::<(Tree, int), Rejection>(
            Rejection {
                kind: ParseErrorKind::NestedSum,
                token: TokenKind::Sum,
                start: token_at(s, pos).start,
                end: token_at(s, pos).end,
            },
        ),
        parse_factor(s, pos, true) == parse_atom(s, pos, true),
        parse_term(s, pos, true) == parse_atom(s, pos, true),
        parse_expr(s, pos, true) == parse_atom(s, pos, true),
{
    assert(parse_factor(s, pos, true) == parse_atom(s, pos, true));
    assert(parse_term(s, pos, true) == parse_atom(s, pos, true));
}

/// `sum[sum` is refused as a nested sum, whatever follows it and wherever in
/// a formula it stands as an atom: the error names the inner `sum`.
pub proof fn lemma_nested_sum_rejected(s: Seq<char>, pos: int, inside: bool)
    requires
        0 <= pos <= s.len(),
        token_at(s, pos).kind == TokenKind::Sum,
        token_at(s, token_at(s, pos).end).kind == TokenKind::LBracket,
        token_at(s, token_at(s, token_at(s, pos).end).end).kind == TokenKind::Sum,
    ensures
        parse_atom(s, pos, inside) matches Err(e) && e.kind == ParseErrorKind::NestedSum,
        !inside ==> parse_atom(s, pos, inside) == Err::<(Tree, int), Rejection>(
            Rejection {
                kind: ParseErrorKind::NestedSum,
                token: TokenKind::Sum,
                start: token_at(s, token_at(s, token_at(s, pos).end).end).start,
                end: token_at(s, token_at(s, token_at(s, pos).end).end).end,
            },
        ),
{
    let outer = token_at(s, pos);
    lemma_token_at(s, pos);
    let bracket = token_at(s, outer.end);
    lemma_token_at(s, outer.end);
    if inside {
        lemma_sum_inside_sum(s, pos);
    } else {
        lemma_sum_inside_sum(s, bracket.end);
        assert(parse_enclosed(s, outer.end, true, TokenKind::LBracket, TokenKind::RBracket)
            == parse_expr(s, bracket.end, true));
    }
}

} // verus!
