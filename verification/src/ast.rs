//! The syntax tree of a formula, its canonical text, and the fixed name
//! tables of the language: operators, functions and constants, each with the
//! spelling it has in formula text.
use crate::number::Decimal;
use crate::number::Numeral;
use crate::text::chars_of;
use crate::text::spells;
use vstd::prelude::*;
use vstd::string::StringExecFns;

verus! {

/// The five binary operators.
#[derive(Copy, Clone, PartialEq, Eq, Debug, Structural)]
pub enum Opcode {
    Mul,
    Div,
    Add,
    Sub,
    Pow,
}

impl Opcode {
    /// The operator as it is written in a formula.
    pub open spec fn spelling(self) -> Seq<char> {
        match self {
            Opcode::Mul => "*"@,
            Opcode::Div => "/"@,
            Opcode::Add => "+"@,
            Opcode::Sub => "-"@,
            Opcode::Pow => "**"@,
        }
    }

    pub fn symbol(&self) -> (r: &'static str)
        ensures
            r@ == self.spelling(),
    {
        match *self {
            Opcode::Mul => "*",
            Opcode::Div => "/",
            Opcode::Add => "+",
            Opcode::Sub => "-",
            Opcode::Pow => "**",
        }
    }
}

/// The unary functions that a formula may call.
#[derive(Copy, Clone, PartialEq, Eq, Debug, Structural)]
pub enum Func {
    Sin,
    Cos,
    Tan,
    Sqrt,
    Dawsn,
    Ln,
    Log,
    Heaviside,
}

impl Func {
    /// The function's name in formula text.
    pub open spec fn spelling(self) -> Seq<char> {
        match self {
            Func::Sin => "sin"@,
            Func::Cos => "cos"@,
            Func::Tan => "tan"@,
            Func::Sqrt => "sqrt"@,
            Func::Dawsn => "dawsn"@,
            Func::Ln => "ln"@,
            Func::Log => "log"@,
            Func::Heaviside => "heaviside"@,
        }
    }

    /// The function that `word` names, if it names one.
    pub open spec fn named(word: Seq<char>) -> Option<Func> {
        if word == "sin"@ {
            Some(Func::Sin)
        } else if word == "cos"@ {
            Some(Func::Cos)
        } else if word == "tan"@ {
            Some(Func::Tan)
        } else if word == "sqrt"@ {
            Some(Func::Sqrt)
        } else if word == "dawsn"@ {
            Some(Func::Dawsn)
        } else if word == "ln"@ {
            Some(Func::Ln)
        } else if word == "log"@ {
            Some(Func::Log)
        } else if word == "heaviside"@ {
            Some(Func::Heaviside)
        } else {
            None
        }
    }

    pub fn name(&self) -> (r: &'static str)
        ensures
            r@ == self.spelling(),
    {
        match *self {
            Func::Sin => "sin",
            Func::Cos => "cos",
            Func::Tan => "tan",
            Func::Sqrt => "sqrt",
            Func::Dawsn => "dawsn",
            Func::Ln => "ln",
            Func::Log => "log",
            Func::Heaviside => "heaviside",
        }
    }

    /// Looks the characters `v[from..to]` up in the function table.
    pub fn lookup(v: &Vec<char>, from: usize, to: usize) -> (r: Option<Func>)
        requires
            from <= to <= v.len(),
        ensures
            r == Func::named(v@.subrange(from as int, to as int)),
    {
        if spells(v, from, to, "sin") {
            Some(Func::Sin)
        } else if spells(v, from, to, "cos") {
            Some(Func::Cos)
        } else if spells(v, from, to, "tan") {
            Some(Func::Tan)
        } else if spells(v, from, to, "sqrt") {
            Some(Func::Sqrt)
        } else if spells(v, from, to, "dawsn") {
            Some(Func::Dawsn)
        } else if spells(v, from, to, "ln") {
            Some(Func::Ln)
        } else if spells(v, from, to, "log") {
            Some(Func::Log)
        } else if spells(v, from, to, "heaviside") {
            Some(Func::Heaviside)
        } else {
            None
        }
    }
}

/// The physical and mathematical constants that a formula may name.
#[derive(Copy, Clone, PartialEq, Eq, Debug, Structural)]
pub enum Constant {
    I,
    Pi,
    Eps0,
    PlanckConstBar,
    PlanckConst,
    SpeedOfLight,
}

/// The error of `Constant::from_str`: the text is none of the constant spellings.
#[derive(Copy, Clone, PartialEq, Eq, Debug, Structural)]
pub struct ParseConstantError;

impl Constant {
    /// The constant's name in formula text.
    pub open spec fn spelling(self) -> Seq<char> {
        match self {
            Constant::I => "1j"@,
            Constant::Pi => "pi"@,
            Constant::Eps0 => "eps_0"@,
            Constant::PlanckConstBar => "hbar"@,
            Constant::PlanckConst => "h"@,
            Constant::SpeedOfLight => "c"@,
        }
    }

    /// The constant that `word` names, if it names one.
    pub open spec fn named(word: Seq<char>) -> Option<Constant> {
        if word == "1j"@ {
            Some(Constant::I)
        } else if word == "pi"@ {
            Some(Constant::Pi)
        } else if word == "eps_0"@ {
            Some(Constant::Eps0)
        } else if word == "hbar"@ {
            Some(Constant::PlanckConstBar)
        } else if word == "h"@ {
            Some(Constant::PlanckConst)
        } else if word == "c"@ {
            Some(Constant::SpeedOfLight)
        } else {
            None
        }
    }

    pub fn name(&self) -> (r: &'static str)
        ensures
            r@ == self.spelling(),
    {
        match *self {
            Constant::I => "1j",
            Constant::Pi => "pi",
            Constant::Eps0 => "eps_0",
            Constant::PlanckConstBar => "hbar",
            Constant::PlanckConst => "h",
            Constant::SpeedOfLight => "c",
        }
    }

    /// Looks the characters `v[from..to]` up in the constant table.
    pub fn lookup(v: &Vec<char>, from: usize, to: usize) -> (r: Option<Constant>)
        requires
            from <= to <= v.len(),
        ensures
            r == Constant::named(v@.subrange(from as int, to as int)),
    {
        if spells(v, from, to, "1j") {
            Some(Constant::I)
        } else if spells(v, from, to, "pi") {
            Some(Constant::Pi)
        } else if spells(v, from, to, "eps_0") {
            Some(Constant::Eps0)
        } else if spells(v, from, to, "hbar") {
            Some(Constant::PlanckConstBar)
        } else if spells(v, from, to, "h") {
            Some(Constant::PlanckConst)
        } else if spells(v, from, to, "c") {
            Some(Constant::SpeedOfLight)
        } else {
            None
        }
    }

    /// Reads a constant from its spelling. The text must be the spelling and
    /// nothing else: no surrounding blanks are skipped.
    pub fn from_str(s: &str) -> (r: Result<Constant, ParseConstantError>)
        ensures
            r == (match Constant::named(s@) {
                Some(c) => Ok::<Constant, ParseConstantError>(c),
                None => Err::<Constant, ParseConstantError>(ParseConstantError),
            }),
            r matches Ok(c) ==> s@ == c.spelling(),
            r is Err ==> forall|c: Constant| s@ != #[trigger] c.spelling(),
    {
        let v = chars_of(s);
        assert(v@.subrange(0, v.len() as int) =~= s@);
        proof {
            lemma_spellings_differ();
        }
        match Constant::lookup(&v, 0, v.len()) {
            Some(c) => Ok(c),
            None => Err(ParseConstantError),
        }
    }
}

/// No two operators, no two functions and no two constants share a spelling, so
/// each table can be read in both directions.
pub proof fn lemma_spellings_differ()
    ensures
        forall|c: Constant| Constant::named(#[trigger] c.spelling()) == Some(c),
        forall|f: Func| Func::named(#[trigger] f.spelling()) == Some(f),
        forall|a: Opcode, b: Opcode| #[trigger] a.spelling() == #[trigger] b.spelling() ==> a == b,
{
    reveal_strlit("1j");
    reveal_strlit("pi");
    reveal_strlit("eps_0");
    reveal_strlit("hbar");
    reveal_strlit("h");
    reveal_strlit("c");
    reveal_strlit("sin");
    reveal_strlit("cos");
    reveal_strlit("tan");
    reveal_strlit("sqrt");
    reveal_strlit("dawsn");
    reveal_strlit("ln");
    reveal_strlit("log");
    reveal_strlit("heaviside");
    reveal_strlit("*");
    reveal_strlit("/");
    reveal_strlit("+");
    reveal_strlit("-");
    reveal_strlit("**");
    assert forall|c: Constant| Constant::named(#[trigger] c.spelling()) == Some(c) by {
        match c {
            Constant::I => {},
            Constant::Pi => {
                assert("pi"@[0] != "1j"@[0]);
            },
            Constant::Eps0 => {
                assert("eps_0"@.len() != "1j"@.len());
                assert("eps_0"@.len() != "pi"@.len());
            },
            Constant::PlanckConstBar => {
                assert("hbar"@.len() != "1j"@.len());
                assert("hbar"@.len() != "pi"@.len());
                assert("hbar"@.len() != "eps_0"@.len());
            },
            Constant::PlanckConst => {
                assert("h"@.len() != "1j"@.len());
                assert("h"@.len() != "pi"@.len());
                assert("h"@.len() != "eps_0"@.len());
                assert("h"@.len() != "hbar"@.len());
            },
            Constant::SpeedOfLight => {
                assert("c"@.len() != "1j"@.len());
                assert("c"@.len() != "pi"@.len());
                assert("c"@.len() != "eps_0"@.len());
                assert("c"@.len() != "hbar"@.len());
                assert("c"@[0] != "h"@[0]);
            },
        }
    }
    assert forall|f: Func| Func::named(#[trigger] f.spelling()) == Some(f) by {
        match f {
            Func::Sin => {},
            Func::Cos => {
                assert("cos"@[0] != "sin"@[0]);
            },
            Func::Tan => {
                assert("tan"@[0] != "sin"@[0]);
                assert("tan"@[0] != "cos"@[0]);
            },
            Func::Sqrt => {
                assert("sqrt"@.len() != "sin"@.len());
                assert("sqrt"@.len() != "cos"@.len());
                assert("sqrt"@.len() != "tan"@.len());
            },
            Func::Dawsn => {
                assert("dawsn"@.len() != "sin"@.len());
                assert("dawsn"@.len() != "cos"@.len());
                assert("dawsn"@.len() != "tan"@.len());
                assert("dawsn"@.len() != "sqrt"@.len());
            },
            Func::Ln => {
                assert("ln"@.len() != "sin"@.len());
                assert("ln"@.len() != "cos"@.len());
                assert("ln"@.len() != "tan"@.len());
                assert("ln"@.len() != "sqrt"@.len());
                assert("ln"@.len() != "dawsn"@.len());
            },
            Func::Log => {
                assert("log"@[0] != "sin"@[0]);
                assert("log"@[0] != "cos"@[0]);
                assert("log"@[0] != "tan"@[0]);
                assert("log"@.len() != "sqrt"@.len());
                assert("log"@.len() != "dawsn"@.len());
                assert("log"@.len() != "ln"@.len());
            },
            Func::Heaviside => {
                assert("heaviside"@.len() != "sin"@.len());
                assert("heaviside"@.len() != "cos"@.len());
                assert("heaviside"@.len() != "tan"@.len());
                assert("heaviside"@.len() != "sqrt"@.len());
                assert("heaviside"@.len() != "dawsn"@.len());
                assert("heaviside"@.len() != "ln"@.len());
                assert("heaviside"@.len() != "log"@.len());
            },
        }
    }
    assert forall|a: Opcode, b: Opcode| #[trigger]
        a.spelling() == #[trigger] b.spelling() implies a == b by {
        if a != b {
            assert(a.spelling().len() != b.spelling().len() || a.spelling()[0]
                != b.spelling()[0]);
        }
    }
}

/// The mathematical content of an `Expr`: the same tree, with names and
/// digits as sequences of characters.
pub enum Tree {
    Number(Numeral),
    Op(Box<Tree>, Opcode, Box<Tree>),
    Index(Box<Tree>),
    Dielectric(Box<Tree>),
    KramersKronig(Box<Tree>),
    Constant(Constant),
    Sum(Box<Tree>),
    Func(Func, Box<Tree>),
    Var(Seq<char>),
    RepeatedVar(Seq<char>),
}

impl Tree {
    /// The canonical text of the tree. Every binary operation stands in its
    /// own parentheses, a sum is written `sum[...]`, and a repeated variable
    /// carries the prefix `r_` that tells it from a plain variable.
    pub open spec fn render(self) -> Seq<char>
        decreases self,
    {
        match self {
            Tree::Number(n) => n.text(),
            Tree::Op(l, op, r) => "("@ + l.render() + " "@ + op.spelling() + " "@ + r.render()
                + ")"@,
            Tree::Index(e) => "n = "@ + e.render(),
            Tree::Dielectric(e) => "eps = "@ + e.render(),
            Tree::KramersKronig(e) => "<kkr> + 1j * "@ + e.render(),
            Tree::Constant(c) => c.spelling(),
            Tree::Sum(e) => "sum["@ + e.render() + "]"@,
            Tree::Func(f, e) => f.spelling() + "("@ + e.render() + ")"@,
            Tree::Var(name) => name,
            Tree::RepeatedVar(name) => "r_"@ + name,
        }
    }

    /// Whether a sum occurs anywhere in the tree.
    pub open spec fn has_sum(self) -> bool
        decreases self,
    {
        match self {
            Tree::Op(l, _, r) => l.has_sum() || r.has_sum(),
            Tree::Index(e) => e.has_sum(),
            Tree::Dielectric(e) => e.has_sum(),
            Tree::KramersKronig(e) => e.has_sum(),
            Tree::Sum(_) => true,
            Tree::Func(_, e) => e.has_sum(),
            _ => false,
        }
    }

    /// Whether some sum of the tree holds another sum in its body.
    pub open spec fn has_nested_sum(self) -> bool
        decreases self,
    {
        match self {
            Tree::Op(l, _, r) => l.has_nested_sum() || r.has_nested_sum(),
            Tree::Index(e) => e.has_nested_sum(),
            Tree::Dielectric(e) => e.has_nested_sum(),
            Tree::KramersKronig(e) => e.has_nested_sum(),
            Tree::Sum(e) => e.has_sum(),
            Tree::Func(_, e) => e.has_nested_sum(),
            _ => false,
        }
    }

    /// Whether a repeated variable occurs anywhere in the tree.
    pub open spec fn has_repeated_var(self) -> bool
        decreases self,
    {
        match self {
            Tree::Op(l, _, r) => l.has_repeated_var() || r.has_repeated_var(),
            Tree::Index(e) => e.has_repeated_var(),
            Tree::Dielectric(e) => e.has_repeated_var(),
            Tree::KramersKronig(e) => e.has_repeated_var(),
            Tree::Sum(e) => e.has_repeated_var(),
            Tree::Func(_, e) => e.has_repeated_var(),
            Tree::RepeatedVar(_) => true,
            _ => false,
        }
    }
}

/// A parsed formula, or a part of one.
#[derive(PartialEq, Eq, Debug)]
pub enum Expr {
    Number(Decimal),
    Op(Box<Expr>, Opcode, Box<Expr>),
    /// The formula defines the refractive index.
    Index(Box<Expr>),
    /// The formula defines the dielectric function.
    Dielectric(Box<Expr>),
    KramersKronig(Box<Expr>),
    Constant(Constant),
    Sum(Box<Expr>),
    Func(Func, Box<Expr>),
    Var(String),
    RepeatedVar(String),
}

impl View for Expr {
    type V = Tree;

    open spec fn view(&self) -> Tree
        decreases self,
    {
        match self {
            Expr::Number(d) => Tree::Number(d@),
            Expr::Op(l, op, r) => Tree::Op(Box::new((**l).view()), *op, Box::new((**r).view())),
            Expr::Index(e) => Tree::Index(Box::new((**e).view())),
            Expr::Dielectric(e) => Tree::Dielectric(Box::new((**e).view())),
            Expr::KramersKronig(e) => Tree::KramersKronig(Box::new((**e).view())),
            Expr::Constant(c) => Tree::Constant(*c),
            Expr::Sum(e) => Tree::Sum(Box::new((**e).view())),
            Expr::Func(f, e) => Tree::Func(*f, Box::new((**e).view())),
            Expr::Var(name) => Tree::Var(name@),
            Expr::RepeatedVar(name) => Tree::RepeatedVar(name@),
        }
    }
}

impl Clone for Expr {
    fn clone(&self) -> (r: Self)
        ensures
            r@ == self@,
        decreases self,
    {
        match self {
            Expr::Number(d) => Expr::Number(d.clone()),
            Expr::Op(l, op, r) => Expr::Op(
                Box::new((&**l).clone()),
                *op,
                Box::new((&**r).clone()),
            ),
            Expr::Index(e) => Expr::Index(Box::new((&**e).clone())),
            Expr::Dielectric(e) => Expr::Dielectric(Box::new((&**e).clone())),
            Expr::KramersKronig(e) => Expr::KramersKronig(Box::new((&**e).clone())),
            Expr::Constant(c) => Expr::Constant(*c),
            Expr::Sum(e) => Expr::Sum(Box::new((&**e).clone())),
            Expr::Func(f, e) => Expr::Func(*f, Box::new((&**e).clone())),
            Expr::Var(name) => Expr::Var(name.clone()),
            Expr::RepeatedVar(name) => Expr::RepeatedVar(name.clone()),
        }
    }
}

impl Expr {
    /// Appends the canonical text of the expression to `out`.
    pub fn render_into(&self, out: &mut String)
        ensures
            final(out)@ == old(out)@ + self@.render(),
        decreases self,
    {
        match self {
            Expr::Number(d) => {
                let text = d.render();
                out.append(text.as_str());
            },
            Expr::Op(l, op, r) => {
                out.append("(");
                l.render_into(out);
                out.append(" ");
                out.append(op.symbol());
                out.append(" ");
                r.render_into(out);
                out.append(")");
                assert(out@ =~= old(out)@ + self@.render());
            },
            Expr::Index(e) => {
                out.append("n = ");
                e.render_into(out);
                assert(out@ =~= old(out)@ + self@.render());
            },
            Expr::Dielectric(e) => {
                out.append("eps = ");
                e.render_into(out);
                assert(out@ =~= old(out)@ + self@.render());
            },
            Expr::KramersKronig(e) => {
                out.append("<kkr> + 1j * ");
                e.render_into(out);
                assert(out@ =~= old(out)@ + self@.render());
            },
            Expr::Constant(c) => {
                out.append(c.name());
            },
            Expr::Sum(e) => {
                out.append("sum[");
                e.render_into(out);
                out.append("]");
                assert(out@ =~= old(out)@ + self@.render());
            },
            Expr::Func(f, e) => {
                out.append(f.name());
                out.append("(");
                e.render_into(out);
                out.append(")");
                assert(out@ =~= old(out)@ + self@.render());
            },
            Expr::Var(name) => {
                out.append(name.as_str());
            },
            Expr::RepeatedVar(name) => {
                out.append("r_");
                out.append(name.as_str());
                assert(out@ =~= old(out)@ + self@.render());
            },
        }
    }

    /// The canonical text of the expression.
    pub fn render(&self) -> (r: String)
        ensures
            r@ == self@.render(),
    {
        let mut out = String::new();
        self.render_into(&mut out);
        assert(out@ =~= self@.render());
        out
    }
}

} // verus!
