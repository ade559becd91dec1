use rox::expr::BinOp;
use rox::expr::Expr;
use rox::expr::Stmt;
use rox::interpreter::Interpreter;
use rox::interpreter::NumOp;
use rox::interpreter::value_equals;
use rox::parser::ParseErr;
use rox::parser::Parser;
use rox::rox_type::RoxType;
use rox::scanner::Scanner;
use rox::token::Token;
use rox::token::TokenType;

fn num_ops(op: NumOp, a: u64, b: u64) -> u64 {
    let x = f64::from_bits(a);
    let y = f64::from_bits(b);
    match op {
        NumOp::Add => (x + y).to_bits(),
        NumOp::Sub => (x - y).to_bits(),
        NumOp::Mul => (x * y).to_bits(),
        NumOp::Div => (x / y).to_bits(),
        NumOp::Neg => (-x).to_bits(),
        NumOp::Lt => (x < y) as u64,
        NumOp::Le => (x <= y) as u64,
        NumOp::Gt => (x > y) as u64,
        NumOp::Ge => (x >= y) as u64,
    }
}

fn read_number(s: String) -> u64 {
    s.parse::<f64>().unwrap().to_bits()
}

fn show_number(b: u64) -> String {
    format!("{}", f64::from_bits(b))
}

fn scan(src: &str) -> Vec<Token> {
    let mut sc = Scanner::new(src.chars().collect());
    sc.scan_tokens(read_number)
}

fn parse(src: &str) -> (Vec<Stmt>, Vec<ParseErr>) {
    let mut p = Parser::new(scan(src));
    p.parse()
}

fn num_bits(v: &RoxType) -> f64 {
    match v {
        RoxType::Number(b) => f64::from_bits(*b),
        _ => panic!("expected a number"),
    }
}

#[test]
fn character_classes() {
    assert!(rox::scanner::is_digit('0'));
    assert!(rox::scanner::is_digit('9'));
    assert!(!rox::scanner::is_digit('a'));
    assert!(rox::scanner::is_alpha('a'));
    assert!(rox::scanner::is_alpha('Z'));
    assert!(rox::scanner::is_alpha('_'));
    assert!(!rox::scanner::is_alpha('['));
    assert!(!rox::scanner::is_alpha('`'));
    assert!(rox::scanner::is_alphanumeric('x'));
    assert!(rox::scanner::is_alphanumeric('5'));
    assert!(!rox::scanner::is_alphanumeric('!'));
}

#[test]
fn error_builds_the_diagnostic_record() {
    let e = rox::scanner::error(3, "Unexpected character");
    assert_eq!(e.line, 3);
    assert_eq!(e.message, "Unexpected character");
}

#[test]
fn scan_integer_literal() {
    let toks = scan("12");
    assert_eq!(toks.len(), 2);
    assert_eq!(toks[0].token_type, TokenType::Number);
    assert_eq!(toks[0].lexeme, "12");
    match &toks[0].literal {
        RoxType::Number(b) => assert_eq!(f64::from_bits(*b), 12.0),
        _ => panic!("expected a number literal"),
    }
    assert_eq!(toks[1].token_type, TokenType::EndOfInput);
}

#[test]
fn scan_decimal_literal() {
    let toks = scan("12.5");
    assert_eq!(toks.len(), 2);
    assert_eq!(toks[0].token_type, TokenType::Number);
    assert_eq!(toks[0].lexeme, "12.5");
    match &toks[0].literal {
        RoxType::Number(b) => assert_eq!(f64::from_bits(*b), 12.5),
        _ => panic!("expected a number literal"),
    }
}

#[test]
fn scan_trailing_dot_is_not_part_of_number() {
    let toks = scan("12.");
    assert_eq!(toks.len(), 3);
    assert_eq!(toks[0].token_type, TokenType::Number);
    assert_eq!(toks[0].lexeme, "12");
    match &toks[0].literal {
        RoxType::Number(b) => assert_eq!(f64::from_bits(*b), 12.0),
        _ => panic!("expected a number literal"),
    }
    assert_eq!(toks[1].token_type, TokenType::Dot);
    assert_eq!(toks[2].token_type, TokenType::EndOfInput);
}

#[test]
fn scan_string_literal_excludes_quotes() {
    let toks = scan("\"hi\"");
    assert_eq!(toks.len(), 2);
    assert_eq!(toks[0].token_type, TokenType::StringLit);
    assert_eq!(toks[0].lexeme, "\"hi\"");
    match &toks[0].literal {
        RoxType::Str(s) => assert_eq!(s, "hi"),
        _ => panic!("expected a string literal"),
    }
}

#[test]
fn scan_string_with_newline_counts_lines() {
    let toks = scan("\"a\nb\" 1");
    assert_eq!(toks[0].token_type, TokenType::StringLit);
    assert_eq!(toks[0].line, 2);
    assert_eq!(toks[1].token_type, TokenType::Number);
    assert_eq!(toks[1].line, 2);
}

#[test]
fn scan_unterminated_string_is_a_diagnostic() {
    let mut sc = Scanner::new("\"abc".chars().collect());
    let toks = sc.scan_tokens(read_number);
    assert_eq!(toks.len(), 1);
    assert_eq!(toks[0].token_type, TokenType::EndOfInput);
    assert_eq!(sc.errors.len(), 1);
    assert_eq!(sc.errors[0].message, "unterminated string");
}

#[test]
fn scan_unexpected_character_is_a_diagnostic_and_scanning_continues() {
    let mut sc = Scanner::new("@1".chars().collect());
    let toks = sc.scan_tokens(read_number);
    assert_eq!(sc.errors.len(), 1);
    assert_eq!(sc.errors[0].message, "Unexpected character");
    assert_eq!(sc.errors[0].line, 1);
    assert_eq!(toks.len(), 2);
    assert_eq!(toks[0].token_type, TokenType::Number);
}

#[test]
fn scan_keywords_and_identifiers() {
    let toks = scan("var foo while nil");
    let kinds: Vec<TokenType> = toks.iter().map(|t| t.token_type).collect();
    assert_eq!(
        kinds,
        vec![
            TokenType::Var,
            TokenType::Identifier,
            TokenType::While,
            TokenType::Nil,
            TokenType::EndOfInput
        ]
    );
    assert_eq!(toks[1].lexeme, "foo");
}

#[test]
fn scan_operators_with_lookahead() {
    let toks = scan("! != = == < <= > >= / //gone\n*");
    let kinds: Vec<TokenType> = toks.iter().map(|t| t.token_type).collect();
    assert_eq!(
        kinds,
        vec![
            TokenType::Bang,
            TokenType::BangEqual,
            TokenType::Equal,
            TokenType::EqualEqual,
            TokenType::Less,
            TokenType::LessEqual,
            TokenType::Greater,
            TokenType::GreaterEqual,
            TokenType::Slash,
            TokenType::Star,
            TokenType::EndOfInput
        ]
    );
}

#[test]
fn parse_missing_right_operand_reports_end_of_input() {
    let (stmts, errs) = parse("1 + ");
    assert_eq!(stmts.len(), 0);
    assert_eq!(errs.len(), 1);
    assert_eq!(errs[0].err_token.token_type, TokenType::EndOfInput);
    assert_eq!(errs[0].err_msg, "Expect expression");
}

#[test]
fn parse_missing_close_paren() {
    let (stmts, errs) = parse("(1 + 2;");
    assert_eq!(stmts.len(), 0);
    assert_eq!(errs.len(), 1);
    assert_eq!(errs[0].err_msg, "Expect ')' after expression.");
}

#[test]
fn parse_missing_semicolon() {
    let (_stmts, errs) = parse("1 + 2");
    assert_eq!(errs.len(), 1);
    assert_eq!(errs[0].err_msg, "Expect ';' after value.");
}

#[test]
fn parse_var_requires_a_name() {
    let (_stmts, errs) = parse("var = 1;");
    assert_eq!(errs.len(), 1);
    assert_eq!(errs[0].err_msg, "Expect variable name.");
}

#[test]
fn parse_recovers_at_statement_boundary() {
    let (stmts, errs) = parse("1 +; print 2;");
    assert_eq!(errs.len(), 1);
    assert_eq!(stmts.len(), 1);
    assert!(matches!(stmts[0], Stmt::Print(_)));
}

#[test]
fn parse_var_with_and_without_initializer() {
    let (stmts, errs) = parse("var x = 1; var y;");
    assert!(errs.is_empty());
    assert_eq!(stmts.len(), 2);
    match &stmts[0] {
        Stmt::Var(name, init) => {
            assert_eq!(name.lexeme, "x");
            assert!(init.is_some());
        }
        _ => panic!("expected a var statement"),
    }
    match &stmts[1] {
        Stmt::Var(name, init) => {
            assert_eq!(name.lexeme, "y");
            assert!(init.is_none());
        }
        _ => panic!("expected a var statement"),
    }
}

#[test]
fn print_round_trip_evaluates_to_the_same_value() {
    let one = Expr::Literal(RoxType::Number(1f64.to_bits()));
    let two = Expr::Literal(RoxType::Number(2f64.to_bits()));
    let e = Expr::Binary(Box::new(one), BinOp::Plus, Box::new(two));
    let printed = e.to_string(show_number);
    assert_eq!(printed, "(1 + 2)");
    let (stmts, errs) = parse(&format!("{};", printed));
    assert!(errs.is_empty());
    assert_eq!(stmts.len(), 1);
    let reparsed = match &stmts[0] {
        Stmt::Expression(b) => b,
        _ => panic!("expected an expression statement"),
    };
    let it = Interpreter::new();
    let v1 = it.eval(&e, num_ops).unwrap();
    let v2 = it.eval(reparsed, num_ops).unwrap();
    assert!(value_equals(&v1, &v2));
    assert_eq!(num_bits(&v1), 3.0);
}

#[test]
fn print_round_trip_with_unary_and_grouping() {
    let e = Expr::Unary(
        rox::expr::UnOp::Minus,
        Box::new(Expr::Grouping(Box::new(Expr::Binary(
            Box::new(Expr::Literal(RoxType::Number(2f64.to_bits()))),
            BinOp::Star,
            Box::new(Expr::Literal(RoxType::Number(3f64.to_bits()))),
        )))),
    );
    let printed = e.to_string(show_number);
    assert_eq!(printed, "(-((2 * 3)))");
    let (stmts, errs) = parse(&format!("{};", printed));
    assert!(errs.is_empty());
    let reparsed = match &stmts[0] {
        Stmt::Expression(b) => b,
        _ => panic!("expected an expression statement"),
    };
    let it = Interpreter::new();
    let v1 = it.eval(&e, num_ops).unwrap();
    let v2 = it.eval(reparsed, num_ops).unwrap();
    assert!(value_equals(&v1, &v2));
    assert_eq!(num_bits(&v1), -6.0);
}

#[test]
fn print_literals_in_source_form() {
    assert_eq!(Expr::Literal(RoxType::Nil).to_string(show_number), "nil");
    assert_eq!(
        Expr::Literal(RoxType::Boolean(true)).to_string(show_number),
        "true"
    );
    assert_eq!(
        Expr::Literal(RoxType::Str(String::from("hi"))).to_string(show_number),
        "\"hi\""
    );
    assert_eq!(Expr::Variable(String::from("x")).to_string(show_number), "x");
}
