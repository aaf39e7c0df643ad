use errorfunctions::ComplexErrorFunctions;
use formula_dispersion::ast::Constant;
use formula_dispersion::ast::Expr;
use formula_dispersion::ast::Func;
use formula_dispersion::ast::Opcode;
use formula_dispersion::eval::EvalError;
use formula_dispersion::eval::ExprParams;
use formula_dispersion::eval::Plan;
use formula_dispersion::eval::RepeatedParam;
use formula_dispersion::eval::Step;
use formula_dispersion::formula::FormulaError;
use formula_dispersion::heaviside::heaviside;
use formula_dispersion::number::Decimal;
use formula_dispersion::parse;
use formula_dispersion::parse_ast;
use formula_dispersion::parser::ParseErrorKind;
use num_complex::Complex64;

struct Values {
    axis_name: &'static str,
    axis: Vec<f64>,
    single: Vec<(&'static str, f64)>,
    repeated: Vec<(&'static str, Vec<f64>)>,
}

impl Values {
    fn names(&self) -> ExprParams {
        ExprParams {
            x_axis_name: self.axis_name.to_string(),
            single_params: self.single.iter().map(|(name, _)| name.to_string()).collect(),
            rep_params: self
                .repeated
                .iter()
                .map(|(name, values)| RepeatedParam {
                    name: name.to_string(),
                    layers: values.len(),
                })
                .collect(),
        }
    }

    fn constant(c: Constant) -> Complex64 {
        match c {
            Constant::I => Complex64::new(0., 1.),
            Constant::Pi => Complex64::from(std::f64::consts::PI),
            Constant::Eps0 => Complex64::from(physical_constants::VACUUM_ELECTRIC_PERMITTIVITY),
            Constant::PlanckConstBar => {
                Complex64::from(physical_constants::PLANCK_CONSTANT / 2. / std::f64::consts::PI)
            }
            Constant::PlanckConst => Complex64::from(physical_constants::PLANCK_CONSTANT),
            Constant::SpeedOfLight => {
                Complex64::from(physical_constants::SPEED_OF_LIGHT_IN_VACUUM)
            }
        }
    }

    fn apply(f: Func, x: Complex64) -> Complex64 {
        match f {
            Func::Sin => x.sin(),
            Func::Cos => x.cos(),
            Func::Tan => x.tan(),
            Func::Sqrt => x.sqrt(),
            Func::Ln => x.ln(),
            Func::Log => x.log(10.),
            Func::Dawsn => x.dawson(),
            Func::Heaviside => {
                let (re, im) = heaviside(x.re.to_bits(), x.im.to_bits(), 0f64.to_bits());
                Complex64::new(f64::from_bits(re), f64::from_bits(im))
            }
        }
    }

    fn run(&self, plan: &Plan) -> Vec<Complex64> {
        let n = self.axis.len();
        let mut stack: Vec<Vec<Complex64>> = Vec::new();
        for step in &plan.steps {
            match step {
                Step::Number(d) => {
                    stack.push(vec![Complex64::from(d.render().parse::<f64>().unwrap()); n])
                }
                Step::Constant(c) => stack.push(vec![Self::constant(*c); n]),
                Step::Axis => stack.push(self.axis.iter().map(|x| Complex64::from(*x)).collect()),
                Step::Single(i) => stack.push(vec![Complex64::new(self.single[*i].1, 0.); n]),
                Step::Layer { param, layer } => {
                    stack.push(vec![Complex64::new(self.repeated[*param].1[*layer], 0.); n])
                }
                Step::Zero => stack.push(vec![Complex64::new(0., 0.); n]),
                Step::Binary(op) => {
                    let right = stack.pop().unwrap();
                    let left = stack.pop().unwrap();
                    stack.push(
                        left.iter()
                            .zip(right.iter())
                            .map(|(l, r)| match op {
                                Opcode::Mul => l * r,
                                Opcode::Div => l / r,
                                Opcode::Add => l + r,
                                Opcode::Sub => l - r,
                                Opcode::Pow => l.powc(*r),
                            })
                            .collect(),
                    );
                }
                Step::Apply(f) => {
                    let x = stack.pop().unwrap();
                    stack.push(x.iter().map(|x| Self::apply(*f, *x)).collect());
                }
                Step::Square => {
                    let x = stack.pop().unwrap();
                    stack.push(x.iter().map(|x| x.powi(2)).collect());
                }
            }
        }
        assert_eq!(stack.len(), 1);
        stack.pop().unwrap()
    }

    fn evaluate(&self, formula: &str) -> Result<Vec<Complex64>, FormulaError> {
        parse(formula, &self.names()).map(|plan| self.run(&plan))
    }
}

fn plain_axis() -> Values {
    Values { axis_name: "lbda", axis: vec![0., 1., 2., 3.], single: vec![], repeated: vec![] }
}

fn reals(values: &[f64]) -> Vec<Complex64> {
    values.iter().map(|x| Complex64::new(*x, 0.)).collect()
}

fn number(text: &str) -> Step {
    Step::Number(Decimal::from_str(text).unwrap())
}

fn steps(formula: &str, values: &Values) -> Vec<Step> {
    parse(formula, &values.names()).unwrap().steps
}

fn eval_error(formula: &str, values: &Values) -> EvalError {
    match parse(formula, &values.names()) {
        Err(FormulaError::Eval(e)) => e,
        other => panic!("{:?}", other),
    }
}

#[test]
fn index_formula_is_squared() {
    let values = plain_axis();
    assert_eq!(
        steps("n = 22 * 44 + 66", &values),
        vec![
            number("22"),
            number("44"),
            Step::Binary(Opcode::Mul),
            number("66"),
            Step::Binary(Opcode::Add),
            Step::Square,
        ]
    );
    assert_eq!(values.evaluate("n = 22 * 44 + 66").unwrap(), reals(&[1069156.; 4]));
    assert_eq!(values.evaluate("eps = 22 * 44 + 66").unwrap(), reals(&[1034.; 4]));
}

#[test]
fn index_is_dielectric_with_a_square_at_the_end() {
    let values = Values {
        axis_name: "x",
        axis: vec![0.5, 1.5],
        single: vec![("a", 2.)],
        repeated: vec![("g", vec![1., 2.])],
    };
    for body in ["x", "a * x + 1j", "sum[g * 2] - sqrt(x)", "1 / (x - a) ** 2"] {
        let mut expected = steps(&format!("eps = {}", body), &values);
        expected.push(Step::Square);
        assert_eq!(steps(&format!("n = {}", body), &values), expected);
        let eps = values.evaluate(&format!("eps = {}", body)).unwrap();
        let n = values.evaluate(&format!("n = {}", body)).unwrap();
        let squared: Vec<Complex64> = eps.iter().map(|x| x.powi(2)).collect();
        assert_eq!(n, squared);
    }
    assert_eq!(
        parse("n = missing", &values.names()),
        parse("eps = missing", &values.names())
    );
}

#[test]
fn sum_adds_the_layers() {
    let values = Values {
        axis_name: "lbda",
        axis: vec![0., 1., 2., 3.],
        single: vec![],
        repeated: vec![("param", vec![2.0, 3.0, 5.0])],
    };
    assert_eq!(
        steps("eps = sum[param]", &values),
        vec![
            Step::Zero,
            Step::Layer { param: 0, layer: 0 },
            Step::Binary(Opcode::Add),
            Step::Layer { param: 0, layer: 1 },
            Step::Binary(Opcode::Add),
            Step::Layer { param: 0, layer: 2 },
            Step::Binary(Opcode::Add),
        ]
    );
    assert_eq!(values.evaluate("eps = sum[param]").unwrap(), reals(&[10.; 4]));
    assert_eq!(values.evaluate("eps = sum[param * param]").unwrap(), reals(&[38.; 4]));
    assert_eq!(values.evaluate("eps = 1 + sum[param] * 2").unwrap(), reals(&[21.; 4]));
}

#[test]
fn axis_is_taken_position_by_position() {
    let values = plain_axis();
    assert_eq!(steps("eps = lbda", &values), vec![Step::Axis]);
    assert_eq!(values.evaluate("eps = lbda").unwrap(), reals(&[0., 1., 2., 3.]));
    assert_eq!(values.evaluate("eps = lbda * lbda + 1").unwrap(), reals(&[1., 2., 5., 10.]));
    let empty = Values { axis_name: "lbda", axis: vec![], single: vec![], repeated: vec![] };
    assert_eq!(empty.evaluate("eps = lbda + 1").unwrap(), vec![]);
}

#[test]
fn missing_parameter_is_named() {
    let values = plain_axis();
    match eval_error("eps = missing_param", &values) {
        EvalError::MissingParameter(m) => {
            assert_eq!(m.message(), "The parameter missing_param is missing")
        }
        other => panic!("{:?}", other),
    }
    match eval_error("eps = lbda + sum[missing_param]", &values) {
        EvalError::MissingParameter(m) => {
            assert_eq!(m.message(), "The parameter missing_param is missing")
        }
        other => panic!("{:?}", other),
    }
    let values = Values {
        axis_name: "x",
        axis: vec![1.],
        single: vec![("a", 2.)],
        repeated: vec![("g", vec![1., 2.])],
    };
    match eval_error("eps = a + g", &values) {
        EvalError::MissingParameter(m) => assert_eq!(m.message(), "The parameter g is missing"),
        other => panic!("{:?}", other),
    }
    match eval_error("eps = sum[g + a]", &values) {
        EvalError::MissingParameter(m) => assert_eq!(m.message(), "The parameter a is missing"),
        other => panic!("{:?}", other),
    }
    match eval_error("eps = sum[x]", &values) {
        EvalError::MissingParameter(m) => assert_eq!(m.message(), "The parameter x is missing"),
        other => panic!("{:?}", other),
    }
    match eval_error("eps = first + second", &values) {
        EvalError::MissingParameter(m) => {
            assert_eq!(m.message(), "The parameter first is missing")
        }
        other => panic!("{:?}", other),
    }
}

#[test]
fn parse_errors_come_first() {
    let values = plain_axis();
    match parse("eps = ((22)", &values.names()) {
        Err(FormulaError::Parse(e)) => assert_eq!(e.kind, ParseErrorKind::UnrecognizedEof),
        other => panic!("{:?}", other),
    }
    match parse("eps = missing + sum[sum[1]]", &values.names()) {
        Err(FormulaError::Parse(e)) => assert_eq!(e.kind, ParseErrorKind::NestedSum),
        other => panic!("{:?}", other),
    }
}

#[test]
fn single_parameters_are_found_by_name() {
    let values = Values {
        axis_name: "x",
        axis: vec![1., 2.],
        single: vec![("a", 2.), ("b", 3.), ("a", 100.), ("x", 7.)],
        repeated: vec![],
    };
    assert_eq!(
        steps("eps = b - a + x", &values),
        vec![
            Step::Single(1),
            Step::Single(0),
            Step::Binary(Opcode::Sub),
            Step::Axis,
            Step::Binary(Opcode::Add),
        ]
    );
    assert_eq!(values.evaluate("eps = b - a + x").unwrap(), reals(&[2., 3.]));
}

#[test]
fn sum_without_repeated_variable_counts_the_layers() {
    let values = Values {
        axis_name: "x",
        axis: vec![1., 2.],
        single: vec![],
        repeated: vec![("f", vec![1., 2., 3.]), ("g", vec![4., 5., 6.])],
    };
    assert_eq!(
        steps("eps = sum[7]", &values),
        vec![
            Step::Zero,
            number("7"),
            Step::Binary(Opcode::Add),
            number("7"),
            Step::Binary(Opcode::Add),
            number("7"),
            Step::Binary(Opcode::Add),
        ]
    );
    assert_eq!(values.evaluate("eps = sum[7]").unwrap(), reals(&[21., 21.]));
    assert_eq!(values.evaluate("eps = sum[2 * 3] + sum[4*5]").unwrap(), reals(&[78., 78.]));
    let x = Expr::Dielectric(Box::new(Expr::Sum(Box::new(Expr::Var("x".to_string())))));
    assert_eq!(values.run(&x.evaluate(&values.names()).unwrap()), reals(&[3., 6.]));
}

#[test]
fn sum_over_no_layers_is_zero() {
    let none = plain_axis();
    assert_eq!(steps("eps = sum[7]", &none), vec![Step::Zero]);
    assert_eq!(none.evaluate("eps = sum[7]").unwrap(), reals(&[0.; 4]));
    assert_eq!(none.evaluate("eps = 1 + sum[2 * 3]").unwrap(), reals(&[1.; 4]));
    let empty = Values {
        axis_name: "lbda",
        axis: vec![0., 1.],
        single: vec![],
        repeated: vec![("f", vec![]), ("g", vec![])],
    };
    assert_eq!(steps("eps = sum[f * g]", &empty), vec![Step::Zero]);
    assert_eq!(empty.evaluate("eps = sum[f * g]").unwrap(), reals(&[0.; 2]));
    assert_eq!(empty.evaluate("eps = sum[1]").unwrap(), reals(&[0.; 2]));
}

#[test]
fn layer_counts_must_agree() {
    let values = Values {
        axis_name: "x",
        axis: vec![1.],
        single: vec![],
        repeated: vec![("f", vec![1., 2., 3.]), ("g", vec![4., 5.]), ("h2", vec![1., 1.])],
    };
    assert_eq!(
        eval_error("eps = sum[f * g]", &values),
        EvalError::ShapeMismatch { expected: 3, actual: 2 }
    );
    assert_eq!(
        eval_error("eps = sum[g + 1 / f]", &values),
        EvalError::ShapeMismatch { expected: 2, actual: 3 }
    );
    assert_eq!(
        eval_error("eps = sum[1]", &values),
        EvalError::ShapeMismatch { expected: 3, actual: 2 }
    );
    assert_eq!(values.evaluate("eps = sum[f] + sum[g]").unwrap(), reals(&[15.]));
    assert_eq!(values.evaluate("eps = sum[g * h2 * g]").unwrap(), reals(&[41.]));
    assert_eq!(values.evaluate("eps = x").unwrap(), reals(&[1.]));
}

#[test]
fn trees_that_no_text_gives() {
    let values = Values {
        axis_name: "x",
        axis: vec![1.],
        single: vec![("a", 2.)],
        repeated: vec![("g", vec![4., 5.])],
    };
    let names = values.names();
    let repeated = Expr::RepeatedVar("g".to_string());
    assert_eq!(
        repeated.evaluate(&names),
        Err(EvalError::RepeatedOutsideSum("g".to_string()))
    );
    let nested = Expr::Sum(Box::new(Expr::Op(
        Box::new(Expr::RepeatedVar("g".to_string())),
        Opcode::Add,
        Box::new(Expr::Sum(Box::new(Expr::RepeatedVar("g".to_string())))),
    )));
    assert!(nested.has_sum());
    assert!(!repeated.has_sum());
    assert_eq!(nested.evaluate(&names), Err(EvalError::NestedSum));
    let kk = Expr::KramersKronig(Box::new(Expr::Var("a".to_string())));
    match kk.evaluate(&names) {
        Err(EvalError::NotImplemented(e)) => {
            assert_eq!(e.message(), "NotImplementedError not implemented")
        }
        other => panic!("{:?}", other),
    }
    let inner = Expr::Op(
        Box::new(Expr::Index(Box::new(Expr::Var("a".to_string())))),
        Opcode::Add,
        Box::new(Expr::Dielectric(Box::new(Expr::Var("x".to_string())))),
    );
    assert_eq!(
        inner.evaluate(&names).unwrap().steps,
        vec![Step::Single(0), Step::Square, Step::Axis, Step::Binary(Opcode::Add)]
    );
    assert_eq!(values.run(&inner.evaluate(&names).unwrap()), reals(&[5.]));
}

#[test]
fn operators_and_functions() {
    let values = Values {
        axis_name: "x",
        axis: vec![4.],
        single: vec![("a", 2.), ("m", -9.)],
        repeated: vec![],
    };
    assert_eq!(values.evaluate("eps = x - a").unwrap(), reals(&[2.]));
    assert_eq!(values.evaluate("eps = x / a").unwrap(), reals(&[2.]));
    assert_eq!(values.evaluate("eps = sqrt(x)").unwrap(), reals(&[2.]));
    assert_eq!(
        values.evaluate("eps = sqrt(m)").unwrap(),
        vec![Complex64::new(-9., 0.).sqrt()]
    );
    assert_eq!(
        values.evaluate("eps = x ** a").unwrap(),
        vec![Complex64::new(4., 0.).powc(Complex64::new(2., 0.))]
    );
    assert_eq!(values.evaluate("eps = 1j * 1j").unwrap(), reals(&[-1.]));
    assert_eq!(
        values.evaluate("eps = log(x)").unwrap(),
        vec![Complex64::new(4., 0.).log(10.)]
    );
    assert_eq!(values.evaluate("eps = heaviside(x)").unwrap(), reals(&[1.]));
    assert_eq!(values.evaluate("eps = heaviside(m)").unwrap(), reals(&[0.]));
    assert_eq!(values.evaluate("eps = heaviside(x - x)").unwrap(), reals(&[0.]));
    assert_eq!(values.evaluate("eps = heaviside(x + 1j * m)").unwrap(), reals(&[1.]));
    assert_eq!(values.evaluate("eps = heaviside(m + 1j * x)").unwrap(), reals(&[0.]));
    assert_eq!(
        values.evaluate("eps = dawsn(x)").unwrap(),
        vec![Complex64::new(4., 0.).dawson()]
    );
    assert_eq!(
        values.evaluate("eps = c / hbar").unwrap(),
        vec![
            Complex64::from(physical_constants::SPEED_OF_LIGHT_IN_VACUUM)
                / Complex64::from(
                    physical_constants::PLANCK_CONSTANT / 2. / std::f64::consts::PI
                )
        ]
    );
    let nan = values.evaluate("eps = ln(0) * 0").unwrap();
    assert!(nan[0].re.is_nan());
}

#[test]
fn evaluating_a_parsed_tree_twice() {
    let tree = parse_ast("eps = a * lbda + sum[g]").unwrap();
    let first = Values {
        axis_name: "lbda",
        axis: vec![1., 2.],
        single: vec![("a", 10.)],
        repeated: vec![("g", vec![1., 1.])],
    };
    let second = Values {
        axis_name: "lbda",
        axis: vec![3.],
        single: vec![("b", 0.), ("a", 1.)],
        repeated: vec![("h", vec![0.]), ("g", vec![5.])],
    };
    assert_eq!(first.run(&tree.evaluate(&first.names()).unwrap()), reals(&[12., 22.]));
    assert_eq!(second.run(&tree.evaluate(&second.names()).unwrap()), reals(&[8.]));
}
