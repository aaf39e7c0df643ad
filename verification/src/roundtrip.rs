//! Rendering and parsing are inverse to each other.
//!
//! The canonical text of a well-formed formula parses, and it parses to the
//! formula itself but for one thing: the renderer marks a repeated variable
//! with the prefix `r_`, and the parser takes the marked name as it stands.
//! So a formula without repeated variables comes back unchanged, and one with
//! repeated variables comes back with each of them renamed.
use crate::ast::lemma_spellings_differ;
use crate::ast::Constant;
use crate::ast::Func;
use crate::ast::Opcode;
use crate::ast::Tree;
use crate::lexer::classify;
use crate::lexer::is_blank;
use crate::lexer::is_word_char;
use crate::lexer::is_word_start;
use crate::lexer::skip_blanks;
use crate::lexer::token_at;
use crate::lexer::word_run;
use crate::lexer::Lexeme;
use crate::lexer::TokenKind;
use crate::number::digit_run;
use crate::number::is_digit;
use crate::number::lemma_numeral_of;
use crate::parser::expr_tail;
use crate::parser::parse_atom;
use crate::parser::parse_enclosed;
use crate::parser::parse_expr;
use crate::parser::parse_factor;
use crate::parser::parse_formula;
use crate::parser::parse_term;
use crate::parser::term_tail;
use crate::parser::Rejection;
use crate::shape::is_identifier;
use crate::shape::lemma_formula_shape;
use crate::shape::well_formed;
use crate::shape::well_formed_formula;
use vstd::prelude::*;

verus! {

/// The tree with every repeated variable renamed to the name that the
/// renderer writes for it.
pub open spec fn prefixed(t: Tree) -> Tree
    decreases t,
{
    match t {
        Tree::Op(l, op, r) => Tree::Op(Box::new(prefixed(*l)), op, Box::new(prefixed(*r))),
        Tree::Index(e) => Tree::Index(Box::new(prefixed(*e))),
        Tree::Dielectric(e) => Tree::Dielectric(Box::new(prefixed(*e))),
        Tree::KramersKronig(e) => Tree::KramersKronig(Box::new(prefixed(*e))),
        Tree::Sum(e) => Tree::Sum(Box::new(prefixed(*e))),
        Tree::Func(f, e) => Tree::Func(f, Box::new(prefixed(*e))),
        Tree::RepeatedVar(name) => Tree::RepeatedVar("r_"@ + name),
        _ => t,
    }
}

/// Renaming changes nothing in a tree without repeated variables.
pub proof fn lemma_prefixed_without_repeated(t: Tree)
    requires
        !t.has_repeated_var(),
    ensures
        prefixed(t) == t,
    decreases t,
{
    match t {
        Tree::Op(l, _, r) => {
            lemma_prefixed_without_repeated(*l);
            lemma_prefixed_without_repeated(*r);
        },
        Tree::Index(e) => lemma_prefixed_without_repeated(*e),
        Tree::Dielectric(e) => lemma_prefixed_without_repeated(*e),
        Tree::KramersKronig(e) => lemma_prefixed_without_repeated(*e),
        Tree::Sum(e) => lemma_prefixed_without_repeated(*e),
        Tree::Func(_, e) => lemma_prefixed_without_repeated(*e),
        _ => {},
    }
}

/// Whether the text `part` stands in `s` at the position `at`.
#[verifier::opaque]
pub open spec fn holds(s: Seq<char>, at: int, part: Seq<char>) -> bool {
    &&& 0 <= at
    &&& at + part.len() <= s.len()
    &&& forall|k: int| 0 <= k < part.len() ==> s[at + k] == #[trigger] part[k]
}

/// Whether a word or a number that ends at `at` really ends there: the text
/// ends, or a blank or a closing bracket follows.
pub open spec fn delimited(s: Seq<char>, at: int) -> bool {
    at == s.len() || (0 <= at < s.len() && (s[at] == ' ' || s[at] == ')' || s[at] == ']'))
}

/// Whether an expression that ends at `at` really ends there: the text ends,
/// or a closing bracket follows.
pub open spec fn closed(s: Seq<char>, at: int) -> bool {
    at == s.len() || (0 <= at < s.len() && (s[at] == ')' || s[at] == ']'))
}

proof fn lemma_holds_parts(s: Seq<char>, at: int, a: Seq<char>, b: Seq<char>)
    requires
        holds(s, at, a + b),
    ensures
        holds(s, at, a),
        holds(s, at + a.len(), b),
{
    reveal(holds);
    assert forall|k: int| 0 <= k < a.len() implies s[at + k] == #[trigger] a[k] by {
        assert((a + b)[k] == a[k]);
    }
    assert forall|k: int| 0 <= k < b.len() implies s[at + a.len() + k] == #[trigger] b[k] by {
        assert((a + b)[a.len() + k] == b[k]);
    }
}

proof fn lemma_holds_subrange(s: Seq<char>, at: int, part: Seq<char>)
    requires
        holds(s, at, part),
    ensures
        s.subrange(at, at + part.len()) == part,
{
    reveal(holds);
    assert(s.subrange(at, at + part.len()) =~= part);
}

proof fn lemma_digit_block(s: Seq<char>, from: int, to: int)
    requires
        0 <= from <= to <= s.len(),
        forall|i: int| from <= i < to ==> is_digit(#[trigger] s[i]),
        to == s.len() || !is_digit(s[to]),
    ensures
        digit_run(s, from) == to,
    decreases to - from,
{
    if from < to {
        lemma_digit_block(s, from + 1, to);
    }
}

proof fn lemma_word_block(s: Seq<char>, from: int, to: int)
    requires
        0 <= from <= to <= s.len(),
        forall|i: int| from <= i < to ==> is_word_char(#[trigger] s[i]),
        to == s.len() || !is_word_char(s[to]),
    ensures
        word_run(s, from) == to,
    decreases to - from,
{
    if from < to {
        lemma_word_block(s, from + 1, to);
    }
}

/// One blank before a character that is none is skipped, and nothing more.
proof fn lemma_one_blank(s: Seq<char>, pos: int)
    requires
        0 <= pos,
        pos + 1 < s.len(),
        s[pos] == ' ',
        !is_blank(s[pos + 1]),
    ensures
        skip_blanks(s, pos) == pos + 1,
{
    assert(skip_blanks(s, pos + 1) == pos + 1);
}

/// The word `word`, standing at `at` with no word character after it, is
/// read as one token of the kind that its classification gives.
proof fn lemma_word_token(s: Seq<char>, pos: int, at: int, word: Seq<char>)
    requires
        skip_blanks(s, pos) == at,
        holds(s, at, word),
        word.len() >= 1,
        is_word_start(word[0]),
        forall|i: int| 0 <= i < word.len() ==> is_word_char(#[trigger] word[i]),
        at + word.len() == s.len() || !is_word_char(s[at + word.len()]),
    ensures
        token_at(s, pos) == (Lexeme { kind: classify(word), start: at, end: at + word.len() }),
{
    reveal(token_at);
    reveal(holds);
    assert(s[at + 0] == word[0]);
    assert forall|i: int| at <= i < at + word.len() implies is_word_char(#[trigger] s[i]) by {
        assert(s[at + (i - at)] == word[i - at]);
    }
    lemma_word_block(s, at, at + word.len());
    lemma_holds_subrange(s, at, word);
}

/// The token at a closing bracket or at the end of the text.
proof fn lemma_closing_token(s: Seq<char>, at: int)
    requires
        0 <= at <= s.len(),
        closed(s, at),
    ensures
        token_at(s, at).kind == (if at == s.len() {
            TokenKind::End
        } else if s[at] == ')' {
            TokenKind::RParen
        } else {
            TokenKind::RBracket
        }),
        token_at(s, at).start == at,
        at < s.len() ==> token_at(s, at).end == at + 1,
{
    reveal(token_at);
}

/// An atom that is followed by a closing bracket or by the end of the text is
/// a whole factor, a whole term and a whole expression.
proof fn lemma_atom_is_expr(s: Seq<char>, pos: int, inside: bool, t: Tree, end: int)
    requires
        0 <= pos < end <= s.len(),
        parse_atom(s, pos, inside) == Ok::<(Tree, int), Rejection>((t, end)),
        closed(s, end),
    ensures
        parse_factor(s, pos, inside) == Ok::<(Tree, int), Rejection>((t, end)),
        parse_term(s, pos, inside) == Ok::<(Tree, int), Rejection>((t, end)),
        parse_expr(s, pos, inside) == Ok::<(Tree, int), Rejection>((t, end)),
{
    lemma_closing_token(s, end);
    assert(parse_factor(s, pos, inside) == Ok::<(Tree, int), Rejection>((t, end)));
    assert(term_tail(s, end, inside, t) == Ok::<(Tree, int), Rejection>((t, end)));
    assert(parse_term(s, pos, inside) == Ok::<(Tree, int), Rejection>((t, end)));
    assert(expr_tail(s, end, inside, t) == Ok::<(Tree, int), Rejection>((t, end)));
}

/// An expression between an opening bracket at `at` and the closing bracket
/// that follows it.
proof fn lemma_enclosed(
    s: Seq<char>,
    pos: int,
    at: int,
    inside: bool,
    open: TokenKind,
    close: TokenKind,
    body: Tree,
    end: int,
)
    requires
        0 <= pos <= at < end < s.len(),
        skip_blanks(s, pos) == at,
        (open == TokenKind::LParen && s[at] == '(' && close == TokenKind::RParen && s[end] == ')')
            || (open == TokenKind::LBracket && s[at] == '[' && close == TokenKind::RBracket
            && s[end] == ']'),
        parse_expr(s, at + 1, inside) == Ok::<(Tree, int), Rejection>((body, end)),
    ensures
        parse_enclosed(s, pos, inside, open, close) == Ok::<(Tree, int), Rejection>(
            (body, end + 1),
        ),
{
    reveal(token_at);
    lemma_closing_token(s, end);
    assert(token_at(s, pos) == (Lexeme { kind: open, start: at, end: at + 1 }));
}

/// The first character of a well-formed expression's text is no blank.
pub proof fn lemma_render_starts(t: Tree, inside: bool)
    requires
        well_formed(t, inside),
    ensures
        t.render().len() >= 1,
        !is_blank(t.render()[0]),
{
    reveal_strlit("(");
    reveal_strlit("sum[");
    reveal_strlit("r_");
    match t {
        Tree::Constant(c) => {
            lemma_spellings_are_words();
        },
        Tree::Func(f, _) => {
            lemma_spellings_are_words();
        },
        Tree::Op(l, op, r) => {
            assert(t.render()[0] == '(');
        },
        Tree::Sum(e) => {
            assert(t.render()[0] == 's');
        },
        Tree::RepeatedVar(name) => {
            assert(t.render()[0] == 'r');
        },
        _ => {},
    }
}

/// Whether `word` is a letter or underscore followed by letters, digits and
/// underscores.
pub open spec fn is_word(word: Seq<char>) -> bool {
    &&& word.len() >= 1
    &&& is_word_start(word[0])
    &&& forall|i: int| 0 <= i < word.len() ==> is_word_char(#[trigger] word[i])
}

/// How the lexer reads the spellings of the two tables: every function name
/// is a word that names the function, and every constant but the imaginary
/// unit is a word that names the constant.
pub proof fn lemma_spellings_are_words()
    ensures
        forall|f: Func| is_word(#[trigger] f.spelling()) && classify(f.spelling())
            == TokenKind::Function(f),
        forall|c: Constant|
            c != Constant::I ==> is_word(#[trigger] c.spelling()) && classify(c.spelling())
                == TokenKind::Constant(c),
        Constant::I.spelling() == seq!['1', 'j'],
{
    reveal(classify);
    reveal_strlit("n");
    reveal_strlit("eps");
    reveal_strlit("sum");
    reveal_strlit("1j");
    reveal_strlit("pi");
    reveal_strlit("eps_0");
    reveal_strlit("hbar");
    reveal_strlit("h");
    reveal_strlit("c");
    reveal_strlit("sin");
    reveal_strlit("cos");
    reveal_strlit("tan");
    reveal_strlit("sqrt");
    reveal_strlit("dawsn");
    reveal_strlit("ln");
    reveal_strlit("log");
    reveal_strlit("heaviside");
    lemma_spellings_differ();
    assert("1j"@ =~= seq!['1', 'j']);
    assert forall|f: Func| is_word(#[trigger] f.spelling()) && classify(f.spelling())
        == TokenKind::Function(f) by {
        let w = f.spelling();
        assert(w.len() > 1 && w[0] != 'e' && w[0] != '1' && w[0] != 'p');
        assert(w[0] != 'h' || w.len() == 9);
        assert(w[0] != 's' || w[1] != 'u');
        assert(w != "n"@ && w != "h"@ && w != "c"@);
        assert(w != "eps"@ && w != "eps_0"@);
        assert(w != "sum"@);
        assert(w != "1j"@ && w != "pi"@ && w != "hbar"@);
    }
    assert forall|c: Constant| c != Constant::I implies is_word(#[trigger] c.spelling())
        && classify(c.spelling()) == TokenKind::Constant(c) by {
        let w = c.spelling();
        assert(w[0] != 'n' && w.len() != 3);
        assert(w != "n"@);
        assert(w != "eps"@);
        assert(w != "sum"@);
    }
}

/// A canonical number, standing at `at` and delimited, is read as that number.
proof fn lemma_number_atom(n: crate::number::Numeral, inside: bool, s: Seq<char>, pos: int, at: int)
    requires
        n.canonical(),
        0 <= pos <= at,
        skip_blanks(s, pos) == at,
        holds(s, at, n.text()),
        delimited(s, at + n.text().len()),
    ensures
        parse_atom(s, pos, inside) == Ok::<(Tree, int), Rejection>(
            (Tree::Number(n), at + n.text().len()),
        ),
{
    reveal(token_at);
    reveal(holds);
    let w = n.whole;
    let f = n.fraction;
    let mid = at + w.len();
    let end = mid + 1 + f.len();
    let text = n.text();
    assert(text.len() == w.len() + 1 + f.len());
    assert forall|i: int| at <= i < mid implies is_digit(#[trigger] s[i]) by {
        assert(text[i - at] == w[i - at]);
        assert(s[at + (i - at)] == text[i - at]);
    }
    assert(s[mid] == '.') by {
        assert(text[w.len() as int] == '.');
        assert(s[at + w.len()] == text[w.len() as int]);
    }
    assert forall|i: int| mid + 1 <= i < end implies is_digit(#[trigger] s[i]) by {
        assert(text[i - at] == f[i - mid - 1]);
        assert(s[at + (i - at)] == text[i - at]);
    }
    lemma_digit_block(s, at, mid);
    lemma_digit_block(s, mid + 1, end);
    assert(s.subrange(at, mid) =~= w) by {
        assert forall|k: int| 0 <= k < w.len() implies s.subrange(at, mid)[k] == w[k] by {
            assert(text[k] == w[k]);
            assert(s[at + k] == text[k]);
        }
    }
    assert(s.subrange(mid + 1, end) =~= f) by {
        assert forall|k: int| 0 <= k < f.len() implies s.subrange(mid + 1, end)[k] == f[k] by {
            assert(text[w.len() + 1 + k] == f[k]);
            assert(s[at + (w.len() + 1 + k)] == text[w.len() + 1 + k]);
        }
    }
    lemma_numeral_of(w, f);
    assert(is_digit(s[at]));
    assert(s[at + 1] != 'j') by {
        if w.len() > 1 {
            assert(is_digit(s[at + 1]));
        }
    }
    assert(is_digit(s[mid + 1]));
    let tok = token_at(s, pos);
    assert(tok == (Lexeme { kind: TokenKind::Number, start: at, end }));
}

/// A word that the lexer takes for an identifier, standing at `at` and
/// delimited, is read as a variable of that name: a repeated one inside a
/// sum, a plain one outside.
proof fn lemma_name_atom(name: Seq<char>, inside: bool, s: Seq<char>, pos: int, at: int)
    requires
        is_identifier(name),
        0 <= pos <= at,
        skip_blanks(s, pos) == at,
        holds(s, at, name),
        delimited(s, at + name.len()),
    ensures
        parse_atom(s, pos, inside) == Ok::<(Tree, int), Rejection>(
            (
                if inside {
                    Tree::RepeatedVar(name)
                } else {
                    Tree::Var(name)
                },
                at + name.len(),
            ),
        ),
{
    lemma_word_token(s, pos, at, name);
    lemma_holds_subrange(s, at, name);
}

/// A name with the prefix `r_` is an identifier.
proof fn lemma_prefixed_name(name: Seq<char>)
    requires
        is_identifier(name),
    ensures
        is_identifier("r_"@ + name),
{
    reveal(classify);
    reveal_strlit("r_");
    reveal_strlit("n");
    reveal_strlit("eps");
    reveal_strlit("sum");
    reveal_strlit("1j");
    reveal_strlit("pi");
    reveal_strlit("eps_0");
    reveal_strlit("hbar");
    reveal_strlit("h");
    reveal_strlit("c");
    reveal_strlit("sin");
    reveal_strlit("cos");
    reveal_strlit("tan");
    reveal_strlit("sqrt");
    reveal_strlit("dawsn");
    reveal_strlit("ln");
    reveal_strlit("log");
    reveal_strlit("heaviside");
    let w = "r_"@ + name;
    assert(w[0] == 'r');
    assert(w[1] == '_');
    assert forall|i: int| 0 <= i < w.len() implies is_word_char(#[trigger] w[i]) by {
        if i >= 2 {
            assert(w[i] == name[i - 2]);
        }
    }
    assert(w != "n"@ && w != "eps"@ && w != "sum"@);
    assert(w != "1j"@ && w != "pi"@ && w != "eps_0"@ && w != "hbar"@ && w != "h"@ && w != "c"@);
    assert(w != "sin"@ && w != "cos"@ && w != "tan"@ && w != "sqrt"@);
    assert(w != "dawsn"@ && w != "ln"@ && w != "log"@ && w != "heaviside"@);
}

/// A constant's spelling, standing at `at` and delimited, is read as the
/// constant.
proof fn lemma_constant_atom(c: Constant, inside: bool, s: Seq<char>, pos: int, at: int)
    requires
        0 <= pos <= at,
        skip_blanks(s, pos) == at,
        holds(s, at, c.spelling()),
        delimited(s, at + c.spelling().len()),
    ensures
        parse_atom(s, pos, inside) == Ok::<(Tree, int), Rejection>(
            (Tree::Constant(c), at + c.spelling().len()),
        ),
{
    reveal(token_at);
    reveal(holds);
    lemma_spellings_are_words();
    if c == Constant::I {
        let w = c.spelling();
        assert(s[at + 0] == w[0] && s[at + 1] == w[1]);
        assert(token_at(s, pos) == (Lexeme {
            kind: TokenKind::Constant(Constant::I),
            start: at,
            end: at + 2,
        }));
    } else {
        lemma_word_token(s, pos, at, c.spelling());
    }
}

/// Two atoms with an operator between them, blanks around the operator and a
/// closing parenthesis behind, are one expression: the operation on the two.
proof fn lemma_operation(
    s: Seq<char>,
    inside: bool,
    start: int,
    l: Tree,
    left_end: int,
    op: Opcode,
    b: int,
    r: Tree,
    right_end: int,
)
    requires
        0 <= start < left_end,
        parse_atom(s, start, inside) == Ok::<(Tree, int), Rejection>((l, left_end)),
        s[left_end] == ' ',
        holds(s, left_end + 1, op.spelling()),
        b == left_end + 1 + op.spelling().len(),
        s[b] == ' ',
        parse_atom(s, b, inside) == Ok::<(Tree, int), Rejection>((r, right_end)),
        b < right_end < s.len(),
        s[right_end] == ')',
    ensures
        parse_expr(s, start, inside) == Ok::<(Tree, int), Rejection>(
            (Tree::Op(Box::new(l), op, Box::new(r)), right_end),
        ),
{
    reveal(token_at);
    reveal(holds);
    reveal_strlit("*");
    reveal_strlit("/");
    reveal_strlit("+");
    reveal_strlit("-");
    reveal_strlit("**");
    let sp = op.spelling();
    let o = left_end + 1;
    let joined = Tree::Op(Box::new(l), op, Box::new(r));
    assert(s[o + 0] == sp[0]);
    if op == Opcode::Pow {
        assert(s[o + 1] == sp[1]);
    }
    lemma_one_blank(s, left_end);
    lemma_closing_token(s, right_end);
    let kind = match op {
        Opcode::Mul => TokenKind::Star,
        Opcode::Div => TokenKind::Slash,
        Opcode::Add => TokenKind::Plus,
        Opcode::Sub => TokenKind::Minus,
        Opcode::Pow => TokenKind::Power,
    };
    assert(token_at(s, left_end) == (Lexeme { kind, start: o, end: b }));
    assert(parse_factor(s, b, inside) == Ok::<(Tree, int), Rejection>((r, right_end)));
    assert(term_tail(s, right_end, inside, r) == Ok::<(Tree, int), Rejection>((r, right_end)));
    assert(term_tail(s, right_end, inside, joined) == Ok::<(Tree, int), Rejection>((joined, right_end)));
    assert(expr_tail(s, right_end, inside, joined) == Ok::<(Tree, int), Rejection>((joined, right_end)));
    assert(parse_term(s, b, inside) == Ok::<(Tree, int), Rejection>((r, right_end)));
    match op {
        Opcode::Pow => {
            assert(parse_factor(s, start, inside) == Ok::<(Tree, int), Rejection>((joined, right_end)));
            assert(parse_term(s, start, inside) == Ok::<(Tree, int), Rejection>((joined, right_end)));
        },
        Opcode::Mul | Opcode::Div => {
            assert(parse_factor(s, start, inside) == Ok::<(Tree, int), Rejection>((l, left_end)));
            assert(term_tail(s, left_end, inside, l) == Ok::<(Tree, int), Rejection>((joined, right_end)));
            assert(parse_term(s, start, inside) == Ok::<(Tree, int), Rejection>((joined, right_end)));
        },
        Opcode::Add | Opcode::Sub => {
            assert(parse_factor(s, start, inside) == Ok::<(Tree, int), Rejection>((l, left_end)));
            assert(term_tail(s, left_end, inside, l) == Ok::<(Tree, int), Rejection>((l, left_end)));
            assert(parse_term(s, start, inside) == Ok::<(Tree, int), Rejection>((l, left_end)));
            assert(expr_tail(s, left_end, inside, l) == Ok::<(Tree, int), Rejection>((joined, right_end)));
        },
    }
}

/// Where the parts of a function call's text stand.
proof fn lemma_call_layout(f: Func, e: Tree, s: Seq<char>, at: int)
    requires
        holds(s, at, Tree::Func(f, Box::new(e)).render()),
    ensures
        ({
            let open = at + f.spelling().len();
            let close = open + 1 + e.render().len();
            &&& holds(s, at, f.spelling())
            &&& holds(s, open + 1, e.render())
            &&& close < s.len()
            &&& s[open] == '('
            &&& s[close] == ')'
            &&& Tree::Func(f, Box::new(e)).render().len() == close + 1 - at
        }),
{
    reveal(holds);
    reveal_strlit("(");
    reveal_strlit(")");
    let w = f.spelling();
    let body = e.render();
    lemma_holds_parts(s, at, w + "("@ + body, ")"@);
    lemma_holds_parts(s, at, w + "("@, body);
    lemma_holds_parts(s, at, w, "("@);
    let open = at + w.len();
    assert(s[open + 0] == "("@[0]);
    assert(s[open + 1 + body.len() + 0] == ")"@[0]);
}

/// Where the parts of a sum's text stand.
proof fn lemma_sum_layout(e: Tree, s: Seq<char>, at: int)
    requires
        holds(s, at, Tree::Sum(Box::new(e)).render()),
    ensures
        ({
            let open = at + 3;
            let close = open + 1 + e.render().len();
            &&& holds(s, at, "sum"@)
            &&& "sum"@.len() == 3
            &&& is_word("sum"@)
            &&& classify("sum"@) == TokenKind::Sum
            &&& holds(s, open + 1, e.render())
            &&& close < s.len()
            &&& s[open] == '['
            &&& s[close] == ']'
            &&& Tree::Sum(Box::new(e)).render().len() == close + 1 - at
        }),
{
    reveal(classify);
    reveal(holds);
    reveal_strlit("sum[");
    reveal_strlit("sum");
    reveal_strlit("n");
    reveal_strlit("eps");
    reveal_strlit("]");
    let body = e.render();
    lemma_holds_parts(s, at, "sum["@ + body, "]"@);
    lemma_holds_parts(s, at, "sum["@, body);
    let word = "sum"@;
    assert forall|k: int| 0 <= k < word.len() implies s[at + k] == #[trigger] word[k] by {
        assert("sum["@[k] == word[k]);
    }
    assert(s[at + 3] == "sum["@[3]);
    assert(s[at + 4 + body.len() + 0] == "]"@[0]);
    assert(word != "n"@ && word != "eps"@) by {
        assert(word[0] == 's');
    }
}

/// Where the parts of an operation's text stand.
proof fn lemma_operation_layout(l: Tree, op: Opcode, r: Tree, s: Seq<char>, at: int)
    requires
        holds(s, at, Tree::Op(Box::new(l), op, Box::new(r)).render()),
    ensures
        ({
            let left_end = at + 1 + l.render().len();
            let b = left_end + 1 + op.spelling().len();
            let right_end = b + 1 + r.render().len();
            &&& s[at] == '('
            &&& holds(s, at + 1, l.render())
            &&& s[left_end] == ' '
            &&& holds(s, left_end + 1, op.spelling())
            &&& s[b] == ' '
            &&& holds(s, b + 1, r.render())
            &&& right_end < s.len()
            &&& s[right_end] == ')'
            &&& Tree::Op(Box::new(l), op, Box::new(r)).render().len() == right_end + 1 - at
        }),
{
    reveal(holds);
    reveal_strlit("(");
    reveal_strlit(" ");
    reveal_strlit(")");
    let left = l.render();
    let right = r.render();
    let sp = op.spelling();
    lemma_holds_parts(s, at, "("@ + left + " "@ + sp + " "@ + right, ")"@);
    lemma_holds_parts(s, at, "("@ + left + " "@ + sp + " "@, right);
    lemma_holds_parts(s, at, "("@ + left + " "@ + sp, " "@);
    lemma_holds_parts(s, at, "("@ + left + " "@, sp);
    lemma_holds_parts(s, at, "("@ + left, " "@);
    lemma_holds_parts(s, at, "("@, left);
    let left_end = at + 1 + left.len();
    let b = left_end + 1 + sp.len();
    let right_end = b + 1 + right.len();
    assert(s[at + 0] == "("@[0]);
    assert(s[left_end + 0] == " "@[0]);
    assert(s[b + 0] == " "@[0]);
    assert(s[right_end + 0] == ")"@[0]);
}

/// A word with a bracketed expression behind it: a function call or a sum.
proof fn lemma_headed(
    s: Seq<char>,
    pos: int,
    at: int,
    inside: bool,
    word: Seq<char>,
    body: Tree,
    close: int,
)
    requires
        0 <= pos <= at,
        skip_blanks(s, pos) == at,
        holds(s, at, word),
        is_word(word),
        classify(word) == TokenKind::Sum && !inside || classify(word) is Function,
        at + word.len() < close < s.len(),
        classify(word) == TokenKind::Sum ==> s[at + word.len()] == '[' && s[close] == ']',
        classify(word) is Function ==> s[at + word.len()] == '(' && s[close] == ')',
        parse_expr(s, at + word.len() + 1, inside || classify(word) == TokenKind::Sum) == Ok::<
            (Tree, int),
            Rejection,
        >((body, close)),
    ensures
        parse_atom(s, pos, inside) == Ok::<(Tree, int), Rejection>(
            (
                match classify(word) {
                    TokenKind::Function(f) => Tree::Func(f, Box::new(body)),
                    _ => Tree::Sum(Box::new(body)),
                },
                close + 1,
            ),
        ),
{
    let open = at + word.len();
    lemma_word_token(s, pos, at, word);
    match classify(word) {
        TokenKind::Function(f) => {
            lemma_enclosed(
                s,
                open,
                open,
                inside,
                TokenKind::LParen,
                TokenKind::RParen,
                body,
                close,
            );
        },
        _ => {
            lemma_enclosed(
                s,
                open,
                open,
                true,
                TokenKind::LBracket,
                TokenKind::RBracket,
                body,
                close,
            );
        },
    }
}

/// An expression in parentheses is an atom.
proof fn lemma_parenthesized(
    s: Seq<char>,
    pos: int,
    at: int,
    inside: bool,
    body: Tree,
    close: int,
)
    requires
        0 <= pos <= at < close < s.len(),
        skip_blanks(s, pos) == at,
        s[at] == '(',
        s[close] == ')',
        parse_expr(s, at + 1, inside) == Ok::<(Tree, int), Rejection>((body, close)),
    ensures
        parse_atom(s, pos, inside) == Ok::<(Tree, int), Rejection>((body, close + 1)),
{
    reveal(token_at);
    lemma_closing_token(s, close);
    assert(token_at(s, pos) == (Lexeme { kind: TokenKind::LParen, start: at, end: at + 1 }));
}

/// The position after no blank is where the next token starts.
proof fn lemma_no_blank(s: Seq<char>, at: int, part: Seq<char>)
    requires
        holds(s, at, part),
        part.len() >= 1,
        !is_blank(part[0]),
    ensures
        skip_blanks(s, at) == at,
{
    reveal(holds);
    assert(s[at + 0] == part[0]);
}

/// One blank before a text that starts with no blank is skipped, and nothing
/// more.
proof fn lemma_blank_then(s: Seq<char>, pos: int, part: Seq<char>)
    requires
        0 <= pos < s.len(),
        s[pos] == ' ',
        holds(s, pos + 1, part),
        part.len() >= 1,
        !is_blank(part[0]),
    ensures
        skip_blanks(s, pos) == pos + 1,
{
    lemma_no_blank(s, pos + 1, part);
}

proof fn lemma_call_roundtrip(f: Func, e: Tree, inside: bool, s: Seq<char>, pos: int, at: int)
    requires
        well_formed(e, inside),
        0 <= pos <= at,
        skip_blanks(s, pos) == at,
        holds(s, at, Tree::Func(f, Box::new(e)).render()),
    ensures
        parse_atom(s, pos, inside) == Ok::<(Tree, int), Rejection>(
            (
                Tree::Func(f, Box::new(prefixed(e))),
                at + Tree::Func(f, Box::new(e)).render().len(),
            ),
        ),
    decreases e, 3nat,
{
    lemma_call_layout(f, e, s, at);
    lemma_spellings_are_words();
    let open = at + f.spelling().len();
    lemma_render_starts(e, inside);
    lemma_no_blank(s, open + 1, e.render());
    lemma_expr_roundtrip(e, inside, s, open + 1, open + 1);
    lemma_headed(s, pos, at, inside, f.spelling(), prefixed(e), open + 1 + e.render().len());
}

proof fn lemma_sum_roundtrip(e: Tree, s: Seq<char>, pos: int, at: int)
    requires
        well_formed(e, true),
        0 <= pos <= at,
        skip_blanks(s, pos) == at,
        holds(s, at, Tree::Sum(Box::new(e)).render()),
    ensures
        parse_atom(s, pos, false) == Ok::<(Tree, int), Rejection>(
            (Tree::Sum(Box::new(prefixed(e))), at + Tree::Sum(Box::new(e)).render().len()),
        ),
    decreases e, 3nat,
{
    lemma_sum_layout(e, s, at);
    let open = at + 3;
    lemma_render_starts(e, true);
    lemma_no_blank(s, open + 1, e.render());
    lemma_expr_roundtrip(e, true, s, open + 1, open + 1);
    lemma_headed(s, pos, at, false, "sum"@, prefixed(e), open + 1 + e.render().len());
}

proof fn lemma_operation_roundtrip(
    l: Tree,
    op: Opcode,
    r: Tree,
    inside: bool,
    s: Seq<char>,
    pos: int,
    at: int,
)
    requires
        well_formed(l, inside),
        well_formed(r, inside),
        0 <= pos <= at,
        skip_blanks(s, pos) == at,
        holds(s, at, Tree::Op(Box::new(l), op, Box::new(r)).render()),
    ensures
        parse_atom(s, pos, inside) == Ok::<(Tree, int), Rejection>(
            (
                Tree::Op(Box::new(prefixed(l)), op, Box::new(prefixed(r))),
                at + Tree::Op(Box::new(l), op, Box::new(r)).render().len(),
            ),
        ),
    decreases Tree::Op(Box::new(l), op, Box::new(r)), 0nat,
{
    lemma_operation_layout(l, op, r, s, at);
    let start = at + 1;
    let left_end = start + l.render().len();
    let b = left_end + 1 + op.spelling().len();
    let right_end = b + 1 + r.render().len();
    lemma_render_starts(l, inside);
    lemma_render_starts(r, inside);
    lemma_no_blank(s, start, l.render());
    lemma_blank_then(s, b, r.render());
    lemma_atom_roundtrip(l, inside, s, start, start);
    lemma_atom_roundtrip(r, inside, s, b, b + 1);
    lemma_operation(s, inside, start, prefixed(l), left_end, op, b, prefixed(r), right_end);
    lemma_parenthesized(
        s,
        pos,
        at,
        inside,
        Tree::Op(Box::new(prefixed(l)), op, Box::new(prefixed(r))),
        right_end,
    );
}

/// The text of a well-formed expression, standing at `at` and delimited, is
/// read as one atom: the expression itself, with its repeated variables
/// renamed.
pub proof fn lemma_atom_roundtrip(t: Tree, inside: bool, s: Seq<char>, pos: int, at: int)
    requires
        well_formed(t, inside),
        0 <= pos <= at,
        skip_blanks(s, pos) == at,
        holds(s, at, t.render()),
        delimited(s, at + t.render().len()),
    ensures
        parse_atom(s, pos, inside) == Ok::<(Tree, int), Rejection>(
            (prefixed(t), at + t.render().len()),
        ),
    decreases t, 1nat,
{
    match t {
        Tree::Number(n) => {
            lemma_number_atom(n, inside, s, pos, at);
        },
        Tree::Constant(c) => {
            lemma_constant_atom(c, inside, s, pos, at);
        },
        Tree::Var(name) => {
            lemma_name_atom(name, inside, s, pos, at);
        },
        Tree::RepeatedVar(name) => {
            lemma_prefixed_name(name);
            lemma_name_atom("r_"@ + name, inside, s, pos, at);
        },
        Tree::Func(f, e) => {
            lemma_call_roundtrip(f, *e, inside, s, pos, at);
        },
        Tree::Sum(e) => {
            lemma_sum_roundtrip(*e, s, pos, at);
        },
        Tree::Op(l, op, r) => {
            lemma_operation_roundtrip(*l, op, *r, inside, s, pos, at);
        },
        _ => {},
    }
}

/// The text of a well-formed expression, standing at `at` with a closing
/// bracket or the end of the text behind it, is read as one expression: the
/// expression itself, with its repeated variables renamed.
pub proof fn lemma_expr_roundtrip(t: Tree, inside: bool, s: Seq<char>, pos: int, at: int)
    requires
        well_formed(t, inside),
        0 <= pos <= at,
        skip_blanks(s, pos) == at,
        holds(s, at, t.render()),
        closed(s, at + t.render().len()),
    ensures
        parse_expr(s, pos, inside) == Ok::<(Tree, int), Rejection>(
            (prefixed(t), at + t.render().len()),
        ),
    decreases t, 2nat,
{
    lemma_render_starts(t, inside);
    lemma_atom_roundtrip(t, inside, s, pos, at);
    lemma_atom_is_expr(s, pos, inside, prefixed(t), at + t.render().len());
}

/// Where the parts of a formula's text stand: the head word at the start,
/// the equals sign between two blanks, and then the body up to the end.
proof fn lemma_formula_layout(t: Tree)
    requires
        well_formed_formula(t),
    ensures
        ({
            let s = t.render();
            let word = if t is Index {
                "n"@
            } else {
                "eps"@
            };
            let body = match t {
                Tree::Index(e) => *e,
                Tree::Dielectric(e) => *e,
                _ => t,
            };
            let n = word.len() as int;
            &&& is_word(word)
            &&& classify(word) == (if t is Index {
                TokenKind::Index
            } else {
                TokenKind::Dielectric
            })
            &&& holds(s, 0, word)
            &&& s[n] == ' '
            &&& s[n + 1] == '='
            &&& s[n + 2] == ' '
            &&& holds(s, n + 3, body.render())
            &&& s.len() == n + 3 + body.render().len()
        }),
{
    reveal(classify);
    reveal(holds);
    reveal_strlit("n = ");
    reveal_strlit("eps = ");
    reveal_strlit("n");
    reveal_strlit("eps");
    let s = t.render();
    match t {
        Tree::Index(e) => {
            let body = e.render();
            assert forall|k: int| 0 <= k < body.len() implies s[4 + k] == #[trigger] body[k] by {
            }
        },
        Tree::Dielectric(e) => {
            let body = e.render();
            assert forall|k: int| 0 <= k < body.len() implies s[6 + k] == #[trigger] body[k] by {
            }
            assert("eps"@.len() == 3 && "n"@.len() == 1);
        },
        _ => {},
    }
}

/// The canonical text of a well-formed formula parses, and gives the formula
/// back with its repeated variables renamed to what the renderer wrote for
/// them.
pub proof fn lemma_render_then_parse(t: Tree)
    requires
        well_formed_formula(t),
    ensures
        parse_formula(t.render()) == Ok::<Tree, Rejection>(prefixed(t)),
{
    reveal(token_at);
    let s = t.render();
    let word = if t is Index {
        "n"@
    } else {
        "eps"@
    };
    let body = match t {
        Tree::Index(e) => *e,
        Tree::Dielectric(e) => *e,
        _ => t,
    };
    let n = word.len() as int;
    lemma_formula_layout(t);
    lemma_render_starts(body, false);
    lemma_no_blank(s, 0, word);
    lemma_word_token(s, 0, 0, word);
    lemma_one_blank(s, n);
    assert(token_at(s, n) == (Lexeme { kind: TokenKind::Assign, start: n + 1, end: n + 2 }));
    lemma_blank_then(s, n + 2, body.render());
    lemma_expr_roundtrip(body, false, s, n + 2, n + 3);
    lemma_closing_token(s, s.len() as int);
}

/// Rendering a parsed formula and parsing the text again gives the same
/// formula, where the formula holds no repeated variable.
pub proof fn lemma_roundtrip(text: Seq<char>, t: Tree)
    requires
        parse_formula(text) == Ok::<Tree, Rejection>(t),
        !t.has_repeated_var(),
    ensures
        parse_formula(t.render()) == Ok::<Tree, Rejection>(t),
{
    lemma_formula_shape(text);
    lemma_render_then_parse(t);
    lemma_prefixed_without_repeated(t);
}

/// Rendering a parsed formula and parsing the text again always succeeds,
/// and gives the formula with its repeated variables renamed.
pub proof fn lemma_roundtrip_renamed(text: Seq<char>, t: Tree)
    requires
        parse_formula(text) == Ok::<Tree, Rejection>(t),
    ensures
        parse_formula(t.render()) == Ok::<Tree, Rejection>(prefixed(t)),
{
    lemma_formula_shape(text);
    lemma_render_then_parse(t);
}

} // verus!
