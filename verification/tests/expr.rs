use ymir_nodes::expr::error::Fault;
use ymir_nodes::expr::lexer::{tokenize, Token};
use ymir_nodes::expr::program::{Program, STACK_MAX};
use ymir_nodes::expr::syntax::{Action, Constant, Func, Infix, Named};
use ymir_nodes::text::space;

fn call(f: Func, a: &[f32]) -> f32 {
    match f {
        Func::Sin => a[0].sin(),
        Func::Cos => a[0].cos(),
        Func::Tan => a[0].tan(),
        Func::Abs => a[0].abs(),
        Func::Sqrt => a[0].sqrt(),
        Func::Floor => a[0].floor(),
        Func::Ceil => a[0].ceil(),
        Func::Exp => a[0].exp(),
        Func::Ln => a[0].ln(),
        Func::Sign => a[0].signum(),
        Func::Min => a[0].min(a[1]),
        Func::Max => a[0].max(a[1]),
        Func::Pow => a[0].powf(a[1]),
        Func::Atan2 => a[0].atan2(a[1]),
        Func::Step => {
            if a[1] < a[0] {
                0.0
            } else {
                1.0
            }
        }
        Func::Clamp => a[0].clamp(a[1], a[2]),
        Func::Lerp => a[0] + (a[1] - a[0]) * a[2],
        Func::Smoothstep => {
            let span = a[1] - a[0];
            let t = if span.abs() < f32::EPSILON {
                f32::from(a[2] >= a[1])
            } else {
                ((a[2] - a[0]) / span).clamp(0.0, 1.0)
            };
            t * t * (3.0 - 2.0 * t)
        }
        Func::Select => {
            if a[0] != 0.0 {
                a[1]
            } else {
                a[2]
            }
        }
    }
}

/// The value of a numeral, as debug output prints it.
fn shown(text: &str) -> String {
    format!("{:?}", text.parse::<f64>().expect("the lexer admits numbers only"))
}

fn act(action: Action, a: &[f32]) -> f32 {
    match action {
        Action::Neg => -a[0],
        Action::Infix(Infix::Add) => a[0] + a[1],
        Action::Infix(Infix::Sub) => a[0] - a[1],
        Action::Infix(Infix::Mul) => a[0] * a[1],
        Action::Infix(Infix::Div) => a[0] / a[1],
        Action::Infix(Infix::Pow) => a[0].powf(a[1]),
        Action::Call(f) => call(f, a),
    }
}

fn number(c: &Constant) -> f32 {
    match c {
        Constant::Number(text) => text.parse::<f64>().expect("the lexer admits numbers only") as f32,
        Constant::Named(Named::Pi) => std::f32::consts::PI,
        Constant::Named(Named::Tau) => std::f32::consts::TAU,
        Constant::Named(Named::E) => std::f32::consts::E,
    }
}

fn run(program: &Program, values: &[f32]) -> f32 {
    let constants: Vec<f32> = program.constants().iter().map(number).collect();
    program.eval(&constants, values, &act)
}

fn eval(source: &str, vars: &[&str], values: &[f32]) -> f32 {
    run(&Program::compile(source, vars).expect("compiles"), values)
}

fn eval0(source: &str) -> f32 {
    eval(source, &[], &[])
}

#[test]
fn arithmetic_and_precedence() {
    assert_eq!(eval0("1 + 2 * 3"), 7.0);
    assert_eq!(eval0("(1 + 2) * 3"), 9.0);
    assert_eq!(eval0("10 - 2 - 3"), 5.0); // left-associative
    assert_eq!(eval0("8 / 4 / 2"), 1.0); // left-associative
    assert_eq!(eval0("2 ^ 3 ^ 2"), 512.0); // right-associative: 2^(3^2)
}

#[test]
fn unary_minus_binds_below_pow() {
    assert_eq!(eval0("-2 ^ 2"), -4.0); // -(2^2)
    assert_eq!(eval0("-2 * 3"), -6.0);
    assert_eq!(eval0("- -5"), 5.0);
}

#[test]
fn variables_resolve_by_position() {
    assert_eq!(eval("h * 2 + x", &["h", "x"], &[0.25, 0.5]), 1.0);
}

#[test]
fn constants_and_functions() {
    assert!((eval0("sin(0)")).abs() < 1e-6);
    assert!((eval0("cos(0)") - 1.0).abs() < 1e-6);
    assert_eq!(eval0("clamp(5, 0, 1)"), 1.0);
    assert_eq!(eval0("clamp(-5, 0, 1)"), 0.0);
    assert_eq!(eval0("lerp(0, 10, 0.5)"), 5.0);
    assert_eq!(eval0("min(3, 7)"), 3.0);
    assert_eq!(eval0("max(3, 7)"), 7.0);
    assert_eq!(eval0("step(0.5, 0.4)"), 0.0);
    assert_eq!(eval0("step(0.5, 0.6)"), 1.0);
    assert_eq!(eval0("select(1, 2, 3)"), 2.0);
    assert_eq!(eval0("select(0, 2, 3)"), 3.0);
    assert!((eval0("pi") - std::f32::consts::PI).abs() < 1e-6);
}

#[test]
fn smoothstep_eases() {
    assert_eq!(eval0("smoothstep(0, 1, -1)"), 0.0);
    assert_eq!(eval0("smoothstep(0, 1, 2)"), 1.0);
    assert!((eval0("smoothstep(0, 1, 0.5)") - 0.5).abs() < 1e-6);
}

#[test]
fn unknown_name_is_an_error() {
    let err = Program::compile("heigth + 1", &["height"]).unwrap_err();
    assert!(err.message(&shown).contains("heigth"));
    assert_eq!(err.message(&shown), "unknown name \"heigth\"");
}

#[test]
fn unknown_function_is_an_error() {
    assert!(Program::compile("wobble(1)", &[]).is_err());
    assert_eq!(Program::compile("wobble(1)", &[]).unwrap_err().message(&shown), "unknown function \"wobble\"");
}

#[test]
fn wrong_arity_is_an_error() {
    let err = Program::compile("clamp(1, 2)", &[]).unwrap_err();
    assert!(err.message(&shown).contains("argument"));
    assert_eq!(err.message(&shown), "clamp takes 3 argument(s), got 2");
}

#[test]
fn syntax_errors_are_reported() {
    assert!(Program::compile("1 +", &[]).is_err());
    assert!(Program::compile("(1 + 2", &[]).is_err());
    assert!(Program::compile("1 2", &[]).is_err());
    assert!(Program::compile("", &[]).is_err());
}

#[test]
fn eval_is_deterministic_and_reusable() {
    let program = Program::compile("sin(x * 6.2831) * h", &["x", "h"]).unwrap();
    let a = run(&program, &[0.3, 0.7]);
    let b = run(&program, &[0.3, 0.7]);
    assert_eq!(a, b);
    // Different inputs give different output.
    assert_ne!(run(&program, &[0.3, 0.7]), run(&program, &[0.4, 0.7]));
}

#[test]
fn every_fault_has_its_input() {
    let fault = |source: &str| Program::compile(source, &["x"]).unwrap_err().fault;
    assert!(matches!(fault("1.2.3"), Fault::InvalidNumber(_)));
    assert!(matches!(fault("1 # 2"), Fault::UnexpectedCharacter('#')));
    assert!(matches!(fault("1 + *"), Fault::UnexpectedToken(_)));
    assert!(matches!(fault("wobble(1)"), Fault::UnknownFunction(_)));
    assert!(matches!(fault("min(1)"), Fault::WrongArity { .. }));
    assert!(matches!(fault("y"), Fault::UnknownName(_)));
    assert!(matches!(fault("(1"), Fault::Expected { .. }));
    assert!(matches!(fault("1 2"), Fault::TrailingInput));
    // Each open addition keeps a value on the stack.
    let deep = format!("{}1{}", "1+(".repeat(STACK_MAX), ")".repeat(STACK_MAX));
    assert!(matches!(fault(&deep), Fault::TooDeep));
    let fits = format!("{}1{}", "1+(".repeat(STACK_MAX - 1), ")".repeat(STACK_MAX - 1));
    assert_eq!(eval0(&fits), STACK_MAX as f32);
}

#[test]
fn messages_name_what_is_wrong() {
    let message = |source: &str| Program::compile(source, &[]).unwrap_err().message(&shown);
    assert_eq!(message("1 # 2"), "unexpected character '#'");
    assert_eq!(message("1 2"), "unexpected trailing input");
    assert_eq!(message("(1 * 2"), "expected RParen, found End");
    assert_eq!(message("1 +"), "unexpected token End");
    assert_eq!(message("(1 2"), "expected RParen, found Number(2.0)");
    assert_eq!(message("(1 .5e3"), "expected RParen, found Number(500.0)");
    assert_eq!(message("(1 1e999"), "expected RParen, found Number(inf)");
    assert_eq!(message("(1 height_2"), "expected RParen, found Ident(\"height_2\")");
    assert_eq!(message("(1 h\u{f6}he"), "expected RParen, found Ident(\"h\u{f6}he\")");
    assert_eq!(message("(1 x\u{345}"), "expected RParen, found Ident(\"x\\u{345}\")");
}

#[test]
fn numbers_take_exponents_and_leading_dots() {
    assert_eq!(eval0("1e2"), 100.0);
    assert_eq!(eval0("1.5e-1"), 0.15);
    assert_eq!(eval0(".5 + 1."), 1.5);
}

#[test]
fn white_space_of_any_kind_separates_tokens() {
    assert_eq!(eval0("1\u{a0}+\u{2003}2\n"), 3.0);
}

#[test]
fn names_may_hold_letters_of_any_script() {
    assert_eq!(eval("h\u{f6}he_2 + 1", &["h\u{f6}he_2"], &[0.5]), 1.5);
}

#[test]
fn every_function_name_has_its_arity() {
    for (name, arity) in [("sin", 1), ("sign", 1), ("atan2", 2), ("step", 2), ("lerp", 3), ("select", 3)] {
        assert_eq!(Func::from_name(name).map(|f| f.arity()), Some(arity), "{name}");
    }
    assert_eq!(Func::from_name("Sin"), None);
}

#[test]
fn parentheses_round_a_formula_change_nothing() {
    for source in ["1 + 2 * x", "-x^2", "max(x, 1e-3) ", "x)", "1e"] {
        let alone = Program::compile(source, &["x"]);
        let wrapped = Program::compile(&format!("({source})"), &["x"]);
        match alone {
            Ok(p) => assert_eq!(format!("{p:?}"), format!("{:?}", wrapped.unwrap())),
            Err(_) => assert!(wrapped.is_err()),
        }
    }
}

#[test]
fn white_space_round_a_source_changes_nothing() {
    for source in ["1 + 2 * x", "max(x, 1e-3)", "1e", "x $ 2", "1..2", "3x"] {
        let alone = Program::compile(source, &["x"]);
        let padded = Program::compile(&format!(" \u{2003}{source} \t"), &["x"]);
        match alone {
            Ok(p) => assert_eq!(format!("{p:?}"), format!("{:?}", padded.unwrap())),
            Err(e) => assert_eq!(e.message(&shown), padded.unwrap_err().message(&shown)),
        }
    }
}

#[test]
fn tokens_end_in_the_end() {
    for source in ["", "  ", "1 + x", ")("] {
        let tokens = tokenize(source).unwrap();
        let ends: Vec<bool> = tokens.iter().map(|t| matches!(t, Token::End)).collect();
        assert!(ends.ends_with(&[true]));
        assert!(!ends[..ends.len() - 1].contains(&true));
    }
}

#[test]
fn white_space_is_what_unicode_lists() {
    let listed = (0x9..=0xd).chain([0x20, 0x85, 0xa0, 0x1680]).chain(0x2000..=0x200a);
    let listed: Vec<u32> = listed.chain([0x2028, 0x2029, 0x202f, 0x205f, 0x3000]).collect();
    for code in 0..=0x10_ffff {
        if let Some(c) = char::from_u32(code) {
            assert_eq!(space(c), listed.contains(&code), "{code:x}");
        }
    }
}
