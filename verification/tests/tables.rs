use formula_dispersion::ast::Constant;
use formula_dispersion::ast::Func;
use formula_dispersion::ast::Opcode;
use formula_dispersion::ast::ParseConstantError;
use formula_dispersion::eval::MissingParameter;
use formula_dispersion::eval::NotImplementedError;
use formula_dispersion::heaviside::heaviside;
use formula_dispersion::lexer::next_token;
use formula_dispersion::lexer::TokenKind;
use formula_dispersion::number::Decimal;
use formula_dispersion::text::chars_of;
use formula_dispersion::text::spells;
use formula_dispersion::text::string_of;

#[test]
fn constants_from_their_spellings() {
    assert_eq!(Constant::from_str("1j"), Ok(Constant::I));
    assert_eq!(Constant::from_str("pi"), Ok(Constant::Pi));
    assert_eq!(Constant::from_str("eps_0"), Ok(Constant::Eps0));
    assert_eq!(Constant::from_str("hbar"), Ok(Constant::PlanckConstBar));
    assert_eq!(Constant::from_str("h"), Ok(Constant::PlanckConst));
    assert_eq!(Constant::from_str("c"), Ok(Constant::SpeedOfLight));
    assert_eq!(Constant::from_str(""), Err(ParseConstantError));
    assert_eq!(Constant::from_str("Pi"), Err(ParseConstantError));
    assert_eq!(Constant::from_str(" pi"), Err(ParseConstantError));
    assert_eq!(Constant::from_str("eps"), Err(ParseConstantError));
    assert_eq!(Constant::from_str("hbarr"), Err(ParseConstantError));
}

#[test]
fn names_of_the_tables() {
    for c in [
        Constant::I,
        Constant::Pi,
        Constant::Eps0,
        Constant::PlanckConstBar,
        Constant::PlanckConst,
        Constant::SpeedOfLight,
    ] {
        assert_eq!(Constant::from_str(c.name()), Ok(c));
    }
    let names: Vec<&str> = [
        Func::Sin,
        Func::Cos,
        Func::Tan,
        Func::Sqrt,
        Func::Dawsn,
        Func::Ln,
        Func::Log,
        Func::Heaviside,
    ]
    .iter()
    .map(|f| f.name())
    .collect();
    assert_eq!(names, ["sin", "cos", "tan", "sqrt", "dawsn", "ln", "log", "heaviside"]);
    let symbols: Vec<&str> = [Opcode::Mul, Opcode::Div, Opcode::Add, Opcode::Sub, Opcode::Pow]
        .iter()
        .map(|o| o.symbol())
        .collect();
    assert_eq!(symbols, ["*", "/", "+", "-", "**"]);
    let word = chars_of("a sqrt b");
    assert_eq!(Func::lookup(&word, 2, 6), Some(Func::Sqrt));
    assert_eq!(Func::lookup(&word, 2, 5), None);
    assert_eq!(Constant::lookup(&chars_of("hbar"), 0, 4), Some(Constant::PlanckConstBar));
    assert_eq!(Constant::lookup(&chars_of("hbar"), 0, 1), Some(Constant::PlanckConst));
}

#[test]
fn error_sentences() {
    let missing = MissingParameter::new("gamma");
    assert_eq!(missing.message(), "The parameter gamma is missing");
    assert_eq!(missing.clone(), missing);
    assert_eq!(MissingParameter::new("").message(), "The parameter  is missing");
    assert_eq!(NotImplementedError.message(), "NotImplementedError not implemented");
}

#[test]
fn decimal_literals() {
    let d = Decimal::from_str("007.500").unwrap();
    assert_eq!(d.whole(), "7");
    assert_eq!(d.fraction(), "5");
    assert_eq!(d.render(), "7.5");
    assert_eq!(Decimal::from_str("22").unwrap().render(), "22.0");
    assert_eq!(Decimal::from_str("0").unwrap().render(), "0.0");
    assert_eq!(Decimal::from_str("0.0").unwrap().render(), "0.0");
    assert_eq!(Decimal::from_str("000").unwrap().render(), "0.0");
    assert_eq!(Decimal::from_str("10.010").unwrap().render(), "10.01");
    assert_eq!(Decimal::from_str("100").unwrap().render(), "100.0");
    assert_eq!(Decimal::from_str("22"), Decimal::from_str("22.0"));
    assert_eq!(Decimal::from_str("22").unwrap().clone(), Decimal::from_str("022.00").unwrap());
    for text in ["", ".", "1.", ".5", "1.2.3", "1e5", "-1", "+1", " 1", "1 ", "1,5", "x", "1j"] {
        assert_eq!(Decimal::from_str(text), None, "{:?}", text);
    }
    assert_eq!(Decimal::from_str("22").unwrap().render().parse::<f64>(), Ok(22.0));
    assert_eq!(Decimal::from_str("0.125").unwrap().render().parse::<f64>(), Ok(0.125));
}

#[test]
fn text_helpers() {
    let v = chars_of("h\u{e9}llo");
    assert_eq!(v, vec!['h', '\u{e9}', 'l', 'l', 'o']);
    assert_eq!(string_of(&v, 1, 4), "\u{e9}ll");
    assert_eq!(string_of(&v, 2, 2), "");
    assert!(spells(&v, 2, 5, "llo"));
    assert!(!spells(&v, 2, 5, "ll"));
    assert!(!spells(&v, 2, 5, "lla"));
    assert!(spells(&v, 3, 3, ""));
}

#[test]
fn tokens() {
    let v = chars_of("  eps_0 ** 12.5*x1 1j n $");
    let kinds: Vec<(TokenKind, usize, usize)> = {
        let mut out = Vec::new();
        let mut pos = 0;
        loop {
            let tok = next_token(&v, pos);
            out.push((tok.kind, tok.start, tok.end));
            if tok.kind == TokenKind::End {
                break;
            }
            pos = tok.end;
        }
        out
    };
    assert_eq!(
        kinds,
        vec![
            (TokenKind::Constant(Constant::Eps0), 2, 7),
            (TokenKind::Power, 8, 10),
            (TokenKind::Number, 11, 15),
            (TokenKind::Star, 15, 16),
            (TokenKind::Ident, 16, 18),
            (TokenKind::Constant(Constant::I), 19, 21),
            (TokenKind::Index, 22, 23),
            (TokenKind::Invalid, 24, 25),
            (TokenKind::End, 25, 25),
        ]
    );
}

#[test]
fn heaviside_step() {
    let one = 1f64.to_bits();
    let zero = 0f64.to_bits();
    let step = |re: f64, im: f64| heaviside(re.to_bits(), im.to_bits(), zero);
    for im in [0.0, 1.0, -3.5, f64::INFINITY, f64::NAN] {
        assert_eq!(step(2.5, im), (one, zero));
        assert_eq!(step(f64::MIN_POSITIVE, im), (one, zero));
        assert_eq!(step(5e-324, im), (one, zero));
        assert_eq!(step(f64::INFINITY, im), (one, zero));
        assert_eq!(step(0.0, im), (zero, zero));
        assert_eq!(step(-0.0, im), (zero, zero));
        assert_eq!(step(-2.5, im), (zero, zero));
        assert_eq!(step(-5e-324, im), (zero, zero));
        assert_eq!(step(f64::NEG_INFINITY, im), (zero, zero));
        assert_eq!(step(f64::NAN, im), (zero, zero));
        assert_eq!(step(-f64::NAN, im), (zero, zero));
    }
    let half = 0.5f64.to_bits();
    assert_eq!(heaviside(0f64.to_bits(), zero, half), (half, zero));
    assert_eq!(heaviside((-0f64).to_bits(), zero, half), (half, zero));
    assert_eq!(heaviside(3f64.to_bits(), zero, half), (one, zero));
    assert_eq!(heaviside((-3f64).to_bits(), zero, half), (zero, zero));
    assert_eq!(f64::from_bits(one), 1.0);
}
