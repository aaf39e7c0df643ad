use formula_dispersion::ast::Constant;
use formula_dispersion::ast::Expr;
use formula_dispersion::ast::Func;
use formula_dispersion::ast::Opcode;
use formula_dispersion::lexer::TokenKind;
use formula_dispersion::nesting::nests_sum;
use formula_dispersion::number::Decimal;
use formula_dispersion::parse_ast;
use formula_dispersion::parser::ParseError;
use formula_dispersion::parser::ParseErrorKind;

fn number(text: &str) -> Expr {
    Expr::Number(Decimal::from_str(text).unwrap())
}

fn op(left: Expr, opcode: Opcode, right: Expr) -> Expr {
    Expr::Op(Box::new(left), opcode, Box::new(right))
}

fn rendered(text: &str) -> String {
    parse_ast(text).unwrap().render()
}

fn rejected(text: &str) -> ParseError {
    parse_ast(text).unwrap_err()
}

#[test]
fn basic_execution_test() {
    assert!(parse_ast(" eps = 22").is_ok());
    assert!(parse_ast("n = (22)").is_ok());
    assert!(parse_ast("eps = (22)").is_ok());
    let expr = parse_ast("n = 22 * 44 + 66").unwrap();
    assert_eq!(
        Expr::Index(Box::new(Expr::Op(
            Box::new(Expr::Op(
                Box::new(number("22")),
                Opcode::Mul,
                Box::new(number("44"))
            )),
            Opcode::Add,
            Box::new(number("66")),
        ))),
        *expr
    );
    assert_eq!(&expr.render(), "n = ((22.0 * 44.0) + 66.0)");
    let expr = parse_ast("eps = 3 * 22 ** 4").unwrap();
    assert_eq!(&expr.render(), "eps = (3.0 * (22.0 ** 4.0))");
    let expr = parse_ast("eps = 3 * lbda ** 4").unwrap();
    assert_eq!(&expr.render(), "eps = (3.0 * (lbda ** 4.0))");
    let expr = parse_ast("eps = sum[param]").unwrap();
    assert_eq!(&expr.render(), "eps = sum[r_param]");
    assert!(parse_ast("n = ((((22))))").is_ok());
    assert!(parse_ast("n = sum[2 * 3] + sum[4*5]").is_ok());
    assert!(parse_ast("n = sum[sum [ 2 * lbda ] * 3] + sum[4*5]").is_err());
    assert!(parse_ast("n = ((((22))))").is_ok());
    assert!(parse_ast("eps = ((22)").is_err());
    assert!(parse_ast("something = ((22)").is_err());
    assert!(parse_ast("(22)").is_err());
}

#[test]
fn parsing_twice_gives_equal_trees() {
    for text in [
        "n = 22 * 44 + 66",
        "eps = 1 + sum[a * b / (c0 - 2)] ** 2",
        "eps = sin(pi * lbda) - 1j * heaviside(x)",
    ] {
        assert_eq!(parse_ast(text).unwrap(), parse_ast(text).unwrap());
    }
    assert_eq!(parse_ast("eps = ((22)"), parse_ast("eps = ((22)"));
}

#[test]
fn unbalanced_parenthesis_is_rejected() {
    let err = rejected("eps = ((22)");
    assert_eq!(err.kind, ParseErrorKind::UnrecognizedEof);
    assert_eq!((err.start, err.end), (11, 11));
    let err = rejected("eps = (22))");
    assert_eq!(err.kind, ParseErrorKind::UnrecognizedToken);
    assert_eq!(err.token, TokenKind::RParen);
    assert_eq!((err.start, err.end), (10, 11));
    let err = rejected("eps = sum[2");
    assert_eq!(err.kind, ParseErrorKind::UnrecognizedEof);
    let err = rejected("eps = sum[2)");
    assert_eq!(err.kind, ParseErrorKind::UnrecognizedToken);
    assert_eq!((err.start, err.end), (11, 12));
}

#[test]
fn head_of_a_formula() {
    assert_eq!(*parse_ast("n=1").unwrap(), Expr::Index(Box::new(number("1"))));
    assert_eq!(
        *parse_ast("\teps\n=\r 1 ").unwrap(),
        Expr::Dielectric(Box::new(number("1")))
    );
    let err = rejected("something = ((22)");
    assert_eq!(err.kind, ParseErrorKind::UnrecognizedToken);
    assert_eq!(err.token, TokenKind::Ident);
    assert_eq!((err.start, err.end), (0, 9));
    let err = rejected("(22)");
    assert_eq!(err.kind, ParseErrorKind::UnrecognizedToken);
    assert_eq!((err.start, err.end), (0, 1));
    let err = rejected("eps 22");
    assert_eq!(err.kind, ParseErrorKind::UnrecognizedToken);
    assert_eq!((err.start, err.end), (4, 6));
    let err = rejected("");
    assert_eq!(err.kind, ParseErrorKind::UnrecognizedEof);
    assert_eq!(err.token, TokenKind::End);
    assert_eq!((err.start, err.end), (0, 0));
    let err = rejected("eps =");
    assert_eq!(err.kind, ParseErrorKind::UnrecognizedEof);
    assert_eq!((err.start, err.end), (5, 5));
}

#[test]
fn trailing_input_is_rejected() {
    let err = rejected("eps = 1 2");
    assert_eq!(err.kind, ParseErrorKind::UnrecognizedToken);
    assert_eq!((err.start, err.end), (8, 9));
    let err = rejected("eps = 1 = 2");
    assert_eq!(err.kind, ParseErrorKind::UnrecognizedToken);
    assert_eq!((err.start, err.end), (8, 9));
    let err = rejected("eps = a b");
    assert_eq!((err.start, err.end), (8, 9));
}

#[test]
fn invalid_characters_are_rejected() {
    let err = rejected("eps = 2 $ 3");
    assert_eq!(err.kind, ParseErrorKind::InvalidToken);
    assert_eq!(err.token, TokenKind::Invalid);
    assert_eq!((err.start, err.end), (8, 9));
    let err = rejected("eps = 2.");
    assert_eq!(err.kind, ParseErrorKind::InvalidToken);
    assert_eq!((err.start, err.end), (7, 8));
    let err = rejected("eps = \u{3b5}");
    assert_eq!(err.kind, ParseErrorKind::InvalidToken);
    assert_eq!((err.start, err.end), (6, 7));
    let err = rejected("eps = -1");
    assert_eq!(err.kind, ParseErrorKind::UnrecognizedToken);
    assert_eq!((err.start, err.end), (6, 7));
}

#[test]
fn nested_sum_is_rejected_whatever_is_inside() {
    for text in [
        "n = sum[sum [ 2 * lbda ] * 3] + sum[4*5]",
        "eps = sum[sum[1]]",
        "eps = sum[sum[",
        "eps = sum[sum",
        "eps = sum[sum[$$$ not even tokens",
        "eps = sum[1 + 2 * sin(sum[x])]",
        "eps = sum[(a + sum[sum[b]])]",
    ] {
        let err = rejected(text);
        assert_eq!(err.kind, ParseErrorKind::NestedSum, "{}", text);
    }
    let err = rejected("eps = sum[sum[1]]");
    assert_eq!(err.token, TokenKind::Sum);
    assert_eq!((err.start, err.end), (10, 13));
    assert!(parse_ast("eps = sum[1] + sum[2] * sum[a]").is_ok());
}

#[test]
fn text_with_a_sum_in_a_sum_is_no_formula() {
    for text in [
        "eps = sum[sum[1]]",
        "n = sum[sum [ 2 * lbda ] * 3] + sum[4*5]",
        "sum[ anything at all $ sum",
        "eps = sum[1] + sum[2 * (3 + sum[4])]",
        "[sum",
        "] [ [ sum",
        "eps = sum[1 sum[2]]",
    ] {
        assert!(nests_sum(text), "{}", text);
        assert!(parse_ast(text).is_err(), "{}", text);
    }
    for text in [
        "",
        "eps = 1",
        "eps = sum[1] + sum[2] * sum[a]",
        "sum sum sum",
        "] sum [",
        "[ ] sum",
        "eps = summ[sum_[1]]",
    ] {
        assert!(!nests_sum(text), "{}", text);
    }
}

#[test]
fn precedence_and_associativity() {
    assert_eq!(rendered("eps = 1 - 2 - 3"), "eps = ((1.0 - 2.0) - 3.0)");
    assert_eq!(rendered("eps = 1 - 2 + 3"), "eps = ((1.0 - 2.0) + 3.0)");
    assert_eq!(rendered("eps = 8 / 4 / 2"), "eps = ((8.0 / 4.0) / 2.0)");
    assert_eq!(rendered("eps = 8 / 4 * 2"), "eps = ((8.0 / 4.0) * 2.0)");
    assert_eq!(rendered("eps = 2 ** 3 ** 2"), "eps = (2.0 ** (3.0 ** 2.0))");
    assert_eq!(rendered("eps = 1 + 2 * 3"), "eps = (1.0 + (2.0 * 3.0))");
    assert_eq!(rendered("eps = (1 + 2) * 3"), "eps = ((1.0 + 2.0) * 3.0)");
    assert_eq!(rendered("eps = 2 * 3 ** 2 * 4"), "eps = ((2.0 * (3.0 ** 2.0)) * 4.0)");
    assert_eq!(rendered("eps = 1 + 2 ** 3 / 4 - 5"), "eps = ((1.0 + ((2.0 ** 3.0) / 4.0)) - 5.0)");
    assert_eq!(rendered("eps = 2**3"), "eps = (2.0 ** 3.0)");
    assert_eq!(rendered("eps = 2*3"), "eps = (2.0 * 3.0)");
    let err = rejected("eps = 2 * * 3");
    assert_eq!(err.kind, ParseErrorKind::UnrecognizedToken);
    assert_eq!((err.start, err.end), (10, 11));
}

#[test]
fn atoms() {
    assert_eq!(
        *parse_ast("eps = x1_b").unwrap(),
        Expr::Dielectric(Box::new(Expr::Var("x1_b".to_string())))
    );
    assert_eq!(
        *parse_ast("eps = _x").unwrap(),
        Expr::Dielectric(Box::new(Expr::Var("_x".to_string())))
    );
    assert_eq!(
        *parse_ast("eps = sum[x]").unwrap(),
        Expr::Dielectric(Box::new(Expr::Sum(Box::new(Expr::RepeatedVar("x".to_string())))))
    );
    assert_eq!(
        *parse_ast("eps = sum[sin(x)] + x").unwrap(),
        Expr::Dielectric(Box::new(op(
            Expr::Sum(Box::new(Expr::Func(
                Func::Sin,
                Box::new(Expr::RepeatedVar("x".to_string()))
            ))),
            Opcode::Add,
            Expr::Var("x".to_string())
        )))
    );
    assert_eq!(
        *parse_ast("eps = 1j * pi + eps_0 / hbar - h ** c").unwrap(),
        Expr::Dielectric(Box::new(op(
            op(
                op(Expr::Constant(Constant::I), Opcode::Mul, Expr::Constant(Constant::Pi)),
                Opcode::Add,
                op(
                    Expr::Constant(Constant::Eps0),
                    Opcode::Div,
                    Expr::Constant(Constant::PlanckConstBar)
                )
            ),
            Opcode::Sub,
            op(
                Expr::Constant(Constant::PlanckConst),
                Opcode::Pow,
                Expr::Constant(Constant::SpeedOfLight)
            )
        )))
    );
    for (name, func) in [
        ("sin", Func::Sin),
        ("cos", Func::Cos),
        ("tan", Func::Tan),
        ("sqrt", Func::Sqrt),
        ("dawsn", Func::Dawsn),
        ("ln", Func::Ln),
        ("log", Func::Log),
        ("heaviside", Func::Heaviside),
    ] {
        let text = format!("eps = {}(2)", name);
        assert_eq!(
            *parse_ast(&text).unwrap(),
            Expr::Dielectric(Box::new(Expr::Func(func, Box::new(number("2")))))
        );
    }
}

#[test]
fn keywords_are_no_variables() {
    assert_eq!(rejected("eps = n").kind, ParseErrorKind::UnrecognizedToken);
    assert_eq!(rejected("eps = eps").kind, ParseErrorKind::UnrecognizedToken);
    assert_eq!(rejected("eps = sum").kind, ParseErrorKind::UnrecognizedEof);
    assert_eq!(rejected("eps = sin").kind, ParseErrorKind::UnrecognizedEof);
    assert_eq!(rejected("eps = sin 2").kind, ParseErrorKind::UnrecognizedToken);
    assert_eq!(rejected("eps = sum(2)").kind, ParseErrorKind::UnrecognizedToken);
    assert_eq!(rejected("eps = sin[2]").kind, ParseErrorKind::UnrecognizedToken);
    assert_eq!(
        rendered("eps = nn + epsilon + summ + sinus + pie + c1"),
        "eps = (((((nn + epsilon) + summ) + sinus) + pie) + c1)"
    );
}

#[test]
fn number_literals() {
    assert_eq!(rendered("eps = 007"), "eps = 7.0");
    assert_eq!(rendered("eps = 0"), "eps = 0.0");
    assert_eq!(rendered("eps = 000.000"), "eps = 0.0");
    assert_eq!(rendered("eps = 1.50"), "eps = 1.5");
    assert_eq!(rendered("eps = 0.001"), "eps = 0.001");
    assert_eq!(rendered("eps = 12345678901234567890123.5"), "eps = 12345678901234567890123.5");
    assert_eq!(parse_ast("eps = 22").unwrap(), parse_ast("eps = 22.0").unwrap());
    assert_eq!(parse_ast("eps = 22").unwrap(), parse_ast("eps = 022.00").unwrap());
    assert_ne!(parse_ast("eps = 22").unwrap(), parse_ast("eps = 22.5").unwrap());
    assert_eq!(rejected("eps = .5").kind, ParseErrorKind::InvalidToken);
    assert_eq!(rejected("eps = 1.2.3").kind, ParseErrorKind::InvalidToken);
    let err = rejected("eps = 1e5");
    assert_eq!(err.kind, ParseErrorKind::UnrecognizedToken);
    assert_eq!((err.start, err.end), (7, 9));
}

#[test]
fn imaginary_unit() {
    assert_eq!(
        *parse_ast("eps = 1j").unwrap(),
        Expr::Dielectric(Box::new(Expr::Constant(Constant::I)))
    );
    assert_eq!(rendered("eps = 2 * 1j"), "eps = (2.0 * 1j)");
    let err = rejected("eps = 11j");
    assert_eq!(err.kind, ParseErrorKind::UnrecognizedToken);
    assert_eq!((err.start, err.end), (8, 9));
    let err = rejected("eps = 1jx");
    assert_eq!(err.kind, ParseErrorKind::UnrecognizedToken);
    assert_eq!((err.start, err.end), (8, 9));
    let err = rejected("eps = 1.0j");
    assert_eq!((err.start, err.end), (9, 10));
}

#[test]
fn rendering() {
    let tree = Expr::Index(Box::new(op(
        Expr::Func(Func::Sqrt, Box::new(Expr::Var("x".to_string()))),
        Opcode::Pow,
        Expr::Sum(Box::new(op(
            Expr::RepeatedVar("a".to_string()),
            Opcode::Div,
            Expr::Constant(Constant::Eps0),
        ))),
    )));
    assert_eq!(tree.render(), "n = (sqrt(x) ** sum[(r_a / eps_0)])");
    let tree = Expr::KramersKronig(Box::new(Expr::Var("x".to_string())));
    assert_eq!(tree.render(), "<kkr> + 1j * x");
    let mut out = String::from("> ");
    number("2.50").render_into(&mut out);
    assert_eq!(out, "> 2.5");
    assert_eq!(tree.clone(), tree);
}

#[test]
fn rendering_then_parsing_gives_the_tree_back() {
    for text in [
        "n = 22 * 44 + 66",
        "eps = 3 * lbda ** 4",
        "eps = 1 + 2 - 3 * 4 / 5 ** 6 ** 7",
        "eps = ((1 + 2) * (3 - 4)) ** (5 / 6)",
        "eps = sin(cos(tan(sqrt(dawsn(ln(log(heaviside(x))))))))",
        "n = 1j + pi + eps_0 + hbar + h + c",
        "eps = sum[2 * 3] + sum[4*5]",
        "eps = 0.5 * x_1 + 10.25",
        "eps = r_x",
    ] {
        let tree = parse_ast(text).unwrap();
        let again = parse_ast(&tree.render()).unwrap();
        assert_eq!(tree, again, "{}", text);
        assert_eq!(tree.render(), again.render());
    }
}

#[test]
fn rendering_then_parsing_renames_repeated_variables() {
    let tree = parse_ast("eps = sum[a * b] + a").unwrap();
    assert_eq!(tree.render(), "eps = (sum[(r_a * r_b)] + a)");
    let again = parse_ast(&tree.render()).unwrap();
    assert_eq!(
        *again,
        Expr::Dielectric(Box::new(op(
            Expr::Sum(Box::new(op(
                Expr::RepeatedVar("r_a".to_string()),
                Opcode::Mul,
                Expr::RepeatedVar("r_b".to_string())
            ))),
            Opcode::Add,
            Expr::Var("a".to_string())
        )))
    );
    assert_ne!(tree, again);
}
