use rox::expr::BinOp;
use rox::expr::Expr;
use rox::expr::Stmt;
use rox::expr::UnOp;
use rox::interpreter::Interpreter;
use rox::interpreter::NumOp;
use rox::interpreter::value_equals;
use rox::parser::ParseErr;
use rox::parser::Parser;
use rox::rox_type::RoxType;
use rox::scanner::Scanner;
use rox::token::Token;

fn num_ops(op: NumOp, a: u64, b: u64) -> u64 {
    let x = f64::from_bits(a);
    let y = f64::from_bits(b);
    match op {
        NumOp::Add => (x + y).to_bits(),
        NumOp::Sub => (x - y).to_bits(),
        NumOp::Mul => (x * y).to_bits(),
        NumOp::Div => (x / y).to_bits(),
        NumOp::Neg => (-x).to_bits(),
        NumOp::Lt => (x < y) as u64,
        NumOp::Le => (x <= y) as u64,
        NumOp::Gt => (x > y) as u64,
        NumOp::Ge => (x >= y) as u64,
    }
}

fn read_number(s: String) -> u64 {
    s.parse::<f64>().unwrap().to_bits()
}

fn show_number(b: u64) -> String {
    format!("{}", f64::from_bits(b))
}

fn scan(src: &str) -> Vec<Token> {
    let mut sc = Scanner::new(src.chars().collect());
    sc.scan_tokens(read_number)
}

fn parse(src: &str) -> (Vec<Stmt>, Vec<ParseErr>) {
    let mut p = Parser::new(scan(src));
    p.parse()
}

fn number(x: f64) -> Expr {
    Expr::Literal(RoxType::Number(x.to_bits()))
}

fn text(s: &str) -> Expr {
    Expr::Literal(RoxType::Str(String::from(s)))
}

fn num_of(v: &RoxType) -> f64 {
    match v {
        RoxType::Number(b) => f64::from_bits(*b),
        _ => panic!("expected a number"),
    }
}

/// Run a whole program and return the printed lines and whether it failed.
fn run(src: &str) -> (Vec<String>, Option<String>) {
    let (stmts, errs) = parse(src);
    assert!(errs.is_empty(), "program does not parse");
    let mut it = Interpreter::new();
    let outcome = it.interpret(stmts, num_ops);
    let lines: Vec<String> = it.output.iter().map(|v| v.to_string(show_number)).collect();
    (lines, outcome.err().map(|e| e.error_string))
}

#[test]
fn addition_of_numbers_is_true_addition() {
    let e = Expr::Binary(Box::new(number(3.0)), BinOp::Plus, Box::new(number(4.0)));
    let it = Interpreter::new();
    let v = it.eval(&e, num_ops).unwrap();
    assert_eq!(num_of(&v), 7.0);
}

#[test]
fn addition_of_strings_concatenates() {
    let e = Expr::Binary(Box::new(text("a")), BinOp::Plus, Box::new(text("b")));
    let it = Interpreter::new();
    let v = it.eval(&e, num_ops).unwrap();
    match v {
        RoxType::Str(s) => assert_eq!(s, "ab"),
        _ => panic!("expected a string"),
    }
}

#[test]
fn unbound_variable_is_a_runtime_error() {
    let e = Expr::Variable(String::from("x"));
    let it = Interpreter::new();
    let err = it.eval(&e, num_ops).unwrap_err();
    assert_eq!(err.error_string, "Undefined variable");
}

#[test]
fn bang_of_nil_is_true_and_zero_is_truthy() {
    let it = Interpreter::new();
    let v1 = it
        .eval(&Expr::Unary(UnOp::Bang, Box::new(Expr::Literal(RoxType::Nil))), num_ops)
        .unwrap();
    assert!(matches!(v1, RoxType::Boolean(true)));
    let v2 = it
        .eval(&Expr::Unary(UnOp::Bang, Box::new(number(0.0))), num_ops)
        .unwrap();
    assert!(matches!(v2, RoxType::Boolean(false)));
    let v3 = it
        .eval(&Expr::Unary(UnOp::Bang, Box::new(text(""))), num_ops)
        .unwrap();
    assert!(matches!(v3, RoxType::Boolean(false)));
}

#[test]
fn unary_minus_negates_numbers_and_rejects_the_rest() {
    let it = Interpreter::new();
    let v = it
        .eval(&Expr::Unary(UnOp::Minus, Box::new(number(5.0))), num_ops)
        .unwrap();
    assert_eq!(num_of(&v), -5.0);
    let err = it
        .eval(&Expr::Unary(UnOp::Minus, Box::new(text("a"))), num_ops)
        .unwrap_err();
    assert_eq!(err.error_string, "Operand must be a number");
}

#[test]
fn mixed_operands_name_the_operator() {
    let it = Interpreter::new();
    let e = Expr::Binary(
        Box::new(number(1.0)),
        BinOp::Plus,
        Box::new(Expr::Literal(RoxType::Boolean(true))),
    );
    let err = it.eval(&e, num_ops).unwrap_err();
    assert_eq!(err.error_string, "Invalid operand types for +");
    let e2 = Expr::Binary(Box::new(text("a")), BinOp::Less, Box::new(text("b")));
    let err2 = it.eval(&e2, num_ops).unwrap_err();
    assert_eq!(err2.error_string, "Invalid operand types for <");
}

#[test]
fn equality_compares_values_and_kinds() {
    let a = RoxType::Number(1f64.to_bits());
    let b = RoxType::Number(1f64.to_bits());
    let s = RoxType::Str(String::from("1"));
    let t = RoxType::Str(String::from("1"));
    assert!(value_equals(&a, &b));
    assert!(value_equals(&s, &t));
    assert!(!value_equals(&a, &s));
    assert!(value_equals(&RoxType::Nil, &RoxType::Nil));
    assert!(!value_equals(&RoxType::Nil, &RoxType::Boolean(false)));
}

#[test]
fn value_equality_is_reflexive_and_symmetric_on_samples() {
    let samples = vec![
        RoxType::Nil,
        RoxType::Boolean(true),
        RoxType::Boolean(false),
        RoxType::Number(0f64.to_bits()),
        RoxType::Number(2.5f64.to_bits()),
        RoxType::Str(String::from("")),
        RoxType::Str(String::from("abc")),
    ];
    for x in &samples {
        assert!(value_equals(x, x));
        for y in &samples {
            assert_eq!(value_equals(x, y), value_equals(y, x));
        }
    }
}

#[test]
fn program_prints_six() {
    let (lines, err) = run("var x = 5; print x + 1;");
    assert!(err.is_none());
    assert_eq!(lines, vec!["6"]);
}

#[test]
fn precedence_of_factor_over_term() {
    let (lines, err) = run("print 1 + 2 * 3; print (1 + 2) * 3;");
    assert!(err.is_none());
    assert_eq!(lines, vec!["7", "9"]);
}

#[test]
fn comparisons_and_equality_print_booleans() {
    let (lines, err) = run("print 1 < 2; print 2 <= 1; print 1 == \"1\"; print 1 != 2;");
    assert!(err.is_none());
    assert_eq!(lines, vec!["true", "false", "false", "true"]);
}

#[test]
fn division_follows_ieee_semantics() {
    let (lines, err) = run("print 7 / 2; print 1 / 0;");
    assert!(err.is_none());
    assert_eq!(lines, vec!["3.5", "inf"]);
}

#[test]
fn later_declaration_overwrites() {
    let (lines, err) = run("var x = 1; var x = 2; print x;");
    assert!(err.is_none());
    assert_eq!(lines, vec!["2"]);
}

#[test]
fn var_without_initializer_binds_nil() {
    let (lines, err) = run("var x; print x;");
    assert!(err.is_none());
    assert_eq!(lines, vec!["Nil"]);
}

#[test]
fn runtime_error_aborts_but_keeps_prior_effects() {
    let (stmts, errs) = parse("var x = 1; print x; print y; print 3;");
    assert!(errs.is_empty());
    let mut it = Interpreter::new();
    let err = it.interpret(stmts, num_ops).unwrap_err();
    assert_eq!(err.error_string, "Undefined variable");
    assert!(it.had_runtime_error);
    assert_eq!(it.output.len(), 1);
    assert_eq!(it.output[0].to_string(show_number), "1");
}

#[test]
fn string_concatenation_end_to_end() {
    let (lines, err) = run("print \"a\" + \"b\";");
    assert!(err.is_none());
    assert_eq!(lines, vec!["ab"]);
}

#[test]
fn grouping_and_unary_in_programs() {
    let (lines, err) = run("print -(1 + 2); print !nil; print !0;");
    assert!(err.is_none());
    assert_eq!(lines, vec!["-3", "true", "false"]);
}

#[test]
fn run_pipeline_executes_clean_source() {
    let mut it = Interpreter::new();
    let outcome = rox::interpreter::run(
        "var x = 5; print x + 1;".chars().collect(),
        &mut it,
        read_number,
        num_ops,
    );
    match outcome {
        rox::interpreter::RunOutcome::Executed(res) => assert!(res.is_ok()),
        _ => panic!("expected the program to run"),
    }
    assert_eq!(it.output.len(), 1);
    assert_eq!(it.output[0].to_string(show_number), "6");
}

#[test]
fn run_pipeline_never_evaluates_diagnosed_source() {
    let mut it = Interpreter::new();
    let outcome = rox::interpreter::run(
        "print @;".chars().collect(),
        &mut it,
        read_number,
        num_ops,
    );
    match outcome {
        rox::interpreter::RunOutcome::ScanTrouble(errs) => {
            assert_eq!(errs.len(), 1);
            assert_eq!(errs[0].message, "Unexpected character");
        }
        _ => panic!("expected a scan diagnostic"),
    }
    assert!(it.output.is_empty());
    let outcome2 = rox::interpreter::run(
        "print 1 +;".chars().collect(),
        &mut it,
        read_number,
        num_ops,
    );
    match outcome2 {
        rox::interpreter::RunOutcome::ParseTrouble(errs) => {
            assert_eq!(errs.len(), 1);
            assert_eq!(errs[0].err_msg, "Expect expression");
        }
        _ => panic!("expected a parse diagnostic"),
    }
    assert!(it.output.is_empty());
    assert!(!it.had_runtime_error);
}
