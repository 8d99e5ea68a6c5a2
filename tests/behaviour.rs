use minilang::lexer::{BaseLexingReturn, Error, Lexer};
use minilang::math::Math;
use minilang::parser::{self, LineError, Parser};
use minilang::syntax_elements::{DataTypes, Position, Token, Variable};
use minilang::text::{parse_i32, split_on, text_eq};
use minilang::types::Line;
use minilang::variables::{
    get_var_name, is_var_mutable, look_variable, slice_variable_dec, var_exists,
};

fn run(parser: &mut Parser, text: &str, number: i64) -> Result<BaseLexingReturn, LineError> {
    parser.parse_line(text, number)
}

fn evaluation_error(parser: &mut Parser, text: &str) -> Error {
    match run(parser, text, 0) {
        Err(LineError::Evaluate(e)) => e,
        other => panic!("expected an evaluation error, got {:?}", other),
    }
}

fn int_var(name: &str, value: i32, mutable: bool) -> Variable {
    Variable::new(name.to_string(), DataTypes::Int(value), mutable)
}

fn tokens_line(tokens: Vec<Token>) -> Line {
    let split = tokens.iter().map(|_| String::new()).collect();
    Line::new(tokens, String::new(), split, 7)
}

#[test]
fn end_to_end_scenarios() {
    let mut parser = Parser::default();
    assert_eq!(run(&mut parser, "1 + 1", 0), Ok(BaseLexingReturn::Int(2)));
    assert_eq!(run(&mut parser, "5 - 3", 1), Ok(BaseLexingReturn::Int(2)));
    assert_eq!(run(&mut parser, "2 * 3", 2), Ok(BaseLexingReturn::Int(6)));
    assert_eq!(run(&mut parser, "8 / 2", 3), Ok(BaseLexingReturn::Int(4)));
    assert!(parser.variables.is_empty());
    assert_eq!(
        run(&mut parser, "set x = 8 + 2", 4),
        Ok(BaseLexingReturn::Variable(int_var("x", 10, true)))
    );
    assert_eq!(
        run(&mut parser, "set y = x + 5", 5),
        Ok(BaseLexingReturn::Variable(int_var("y", 15, true)))
    );
    assert_eq!(parser.variables, vec![int_var("x", 10, true), int_var("y", 15, true)]);
    assert_eq!(parser.current_line, "set y = x + 5");
}

#[test]
fn arithmetic_on_signed_values() {
    let mut parser = Parser::default();
    assert_eq!(run(&mut parser, "-7 + 3", 0), Ok(BaseLexingReturn::Int(-4)));
    assert_eq!(run(&mut parser, "+4 - 10", 0), Ok(BaseLexingReturn::Int(-6)));
    assert_eq!(run(&mut parser, "-6 * -7", 0), Ok(BaseLexingReturn::Int(42)));
    assert_eq!(run(&mut parser, "-7 / 2", 0), Ok(BaseLexingReturn::Int(-3)));
    assert_eq!(run(&mut parser, "7 / -2", 0), Ok(BaseLexingReturn::Int(-3)));
    assert_eq!(run(&mut parser, "-7 / -2", 0), Ok(BaseLexingReturn::Int(3)));
    assert_eq!(
        run(&mut parser, "2147483646 + 1", 0),
        Ok(BaseLexingReturn::Int(2147483647))
    );
    assert_eq!(
        run(&mut parser, "-2147483647 - 1", 0),
        Ok(BaseLexingReturn::Int(-2147483648))
    );
}

#[test]
fn overflow_is_reported_at_the_operator() {
    let mut parser = Parser::default();
    assert_eq!(
        evaluation_error(&mut parser, "2147483647 + 1"),
        Error::ArithmeticOverflow(Position::new(0, 1))
    );
    assert_eq!(
        evaluation_error(&mut parser, "-2147483648 - 1"),
        Error::ArithmeticOverflow(Position::new(0, 1))
    );
    assert_eq!(
        evaluation_error(&mut parser, "65536 * 65536"),
        Error::ArithmeticOverflow(Position::new(0, 1))
    );
    assert_eq!(
        evaluation_error(&mut parser, "-2147483648 / -1"),
        Error::ArithmeticOverflow(Position::new(0, 1))
    );
}

#[test]
fn division_by_zero_is_an_error() {
    let mut parser = Parser::default();
    assert_eq!(
        evaluation_error(&mut parser, "8 / 0"),
        Error::DivisionByZero(Position::new(0, 1))
    );
    run(&mut parser, "set z = 0 * 5", 1).unwrap();
    assert_eq!(
        evaluation_error(&mut parser, "set q = 3 / z"),
        Error::DivisionByZero(Position::new(0, 4))
    );
    assert_eq!(parser.variables.len(), 1);
}

#[test]
fn redeclaration_keeps_one_binding() {
    let mut parser = Parser::default();
    run(&mut parser, "set x = 1 + 1", 0).unwrap();
    assert_eq!(
        run(&mut parser, "set x = 1 + 1", 1),
        Err(LineError::Evaluate(Error::VariableAlreadyExists("x".to_string())))
    );
    assert_eq!(parser.variables, vec![int_var("x", 2, true)]);
}

#[test]
fn const_declares_an_immutable_variable() {
    let mut parser = Parser::default();
    assert_eq!(
        run(&mut parser, "const k = 6 / 3", 0),
        Ok(BaseLexingReturn::Variable(int_var("k", 2, false)))
    );
}

#[test]
fn leading_operator_is_rejected() {
    let mut parser = Parser::default();
    assert_eq!(evaluation_error(&mut parser, "+ 1 2"), Error::UnexpectedOperatorPosition(0));
    assert_eq!(
        evaluation_error(&mut parser, "set x = * 1 2"),
        Error::UnexpectedOperatorPosition(0)
    );
    assert!(parser.variables.is_empty());
}

#[test]
fn missing_operator_is_rejected() {
    let mut parser = Parser::default();
    assert_eq!(
        run(&mut parser, "set x = 5", 3),
        Err(LineError::Evaluate(Error::UnableToFindOperator(3)))
    );
    assert!(parser.variables.is_empty());
}

#[test]
fn missing_operand_is_rejected() {
    let mut parser = Parser::default();
    assert_eq!(evaluation_error(&mut parser, "1 +"), Error::UnexpectedIntegerPositions(0));
    assert_eq!(
        evaluation_error(&mut parser, "1 + set"),
        Error::UnexpectedIntegerPositions(0)
    );
}

#[test]
fn undeclared_identifier_fails_at_tokenization() {
    let mut parser = Parser::default();
    assert_eq!(
        run(&mut parser, "y = x + 1", 0),
        Err(LineError::Tokenize(parser::Error::InvalidToken(
            "y".to_string(),
            "0".to_string()
        )))
    );
    assert_eq!(
        run(&mut parser, "1 + x", 0),
        Err(LineError::Tokenize(parser::Error::InvalidToken(
            "x".to_string(),
            "2".to_string()
        )))
    );
    assert_eq!(
        run(&mut parser, "1 1 1 1 1 1 1 1 1 1 zz", 0),
        Err(LineError::Tokenize(parser::Error::InvalidToken(
            "zz".to_string(),
            "10".to_string()
        )))
    );
    assert_eq!(
        run(&mut parser, "", 0),
        Err(LineError::Tokenize(parser::Error::InvalidToken(
            "".to_string(),
            "0".to_string()
        )))
    );
}

#[test]
fn operand_errors_name_the_token() {
    let mut parser = Parser::default();
    assert_eq!(
        evaluation_error(&mut parser, "set 5 + 3"),
        Error::ExpectedInt(Token::MutVarDeclaration(Position::new(0, 0)), Position::new(0, 0))
    );
    assert_eq!(
        evaluation_error(&mut parser, "1 2 3 + 4"),
        Error::ExpectedOperator(Token::Int(2, Position::new(0, 1)), Position::new(0, 1))
    );
}

#[test]
fn short_statement_is_unclassified() {
    let math = Math::new(&Vec::new());
    let line = tokens_line(vec![
        Token::Int(1, Position::new(7, 0)),
        Token::Add(Position::new(7, 1)),
    ]);
    assert_eq!(math.execute(&line), Err(Error::Unknown(7)));
    assert_eq!(math.is_valid_line(&line), Err(Error::UnexpectedIntegerPositions(7)));
}

#[test]
fn math_reads_its_copy_of_the_environment() {
    let env = vec![int_var("a", 4, true), Variable::new("s".to_string(), DataTypes::Str("t".to_string()), true)];
    let math = Math::new(&env);
    let line = tokens_line(vec![
        Token::Variable("a".to_string(), Position::new(7, 0)),
        Token::Multiply(Position::new(7, 1)),
        Token::Variable("a".to_string(), Position::new(7, 2)),
    ]);
    assert_eq!(math.is_valid_line(&line), Ok(()));
    assert_eq!(math.execute(&line), Ok(BaseLexingReturn::Int(16)));
    let text_operand = tokens_line(vec![
        Token::Variable("s".to_string(), Position::new(7, 0)),
        Token::Add(Position::new(7, 1)),
        Token::Int(1, Position::new(7, 2)),
    ]);
    assert_eq!(
        math.is_valid_line(&text_operand),
        Err(Error::UnexpectedIntegerPositions(7))
    );
    assert_eq!(
        math.execute(&text_operand),
        Err(Error::ExpectedInt(
            Token::Variable("s".to_string(), Position::new(7, 0)),
            Position::new(7, 0)
        ))
    );
    assert!(math.is_assigning_to_variable(&tokens_line(vec![
        Token::ImmutVarDeclaration(Position::new(7, 0)),
        Token::Variable("v".to_string(), Position::new(7, 1)),
        Token::Assignment(Position::new(7, 2)),
    ])));
}

#[test]
fn lexer_leaves_environment_alone_on_failure() {
    let mut variables = vec![int_var("x", 1, true)];
    let mut lexer = Lexer::default();
    let line = tokens_line(vec![
        Token::MutVarDeclaration(Position::new(7, 0)),
        Token::Variable("x".to_string(), Position::new(7, 1)),
        Token::Assignment(Position::new(7, 2)),
        Token::Int(1, Position::new(7, 3)),
        Token::Add(Position::new(7, 4)),
        Token::Int(1, Position::new(7, 5)),
    ]);
    assert_eq!(
        lexer.lexerize(line, &mut variables),
        Err(Error::VariableAlreadyExists("x".to_string()))
    );
    assert_eq!(variables, vec![int_var("x", 1, true)]);
}

#[test]
fn parse_runs_lines_in_order_and_continues_after_failures() {
    let mut parser = Parser::default();
    let results = parser.parse("set a = 2 * 3\r\nb + 1\nset b = a - 1\nb / 0\n");
    assert_eq!(
        results,
        vec![
            Ok(BaseLexingReturn::Variable(int_var("a", 6, true))),
            Err(LineError::Tokenize(parser::Error::InvalidToken(
                "b".to_string(),
                "0".to_string()
            ))),
            Ok(BaseLexingReturn::Variable(int_var("b", 5, true))),
            Err(LineError::Evaluate(Error::DivisionByZero(Position::new(3, 1)))),
        ]
    );
    assert_eq!(parser.variables, vec![int_var("a", 6, true), int_var("b", 5, true)]);
    assert_eq!(parser.parse(""), vec![]);
    assert_eq!(parser.parse("a + b"), vec![Ok(BaseLexingReturn::Int(11))]);
}

#[test]
fn tokens_carry_their_positions() {
    let mut parser = Parser::default();
    parser.variables.push(int_var("n", 3, true));
    let split: Vec<String> = ["const", "m", "=", "n", "//", "-", "*", "/", "-12", "+9"]
        .iter()
        .map(|s| s.to_string())
        .collect();
    let tokens = parser.tokenize(&split, 4).unwrap();
    assert_eq!(
        tokens,
        vec![
            Token::ImmutVarDeclaration(Position::new(4, 0)),
            Token::Variable("m".to_string(), Position::new(4, 1)),
            Token::Assignment(Position::new(4, 2)),
            Token::Variable("n".to_string(), Position::new(4, 3)),
            Token::SingleComment(Position::new(4, 4)),
            Token::Subtract(Position::new(4, 5)),
            Token::Multiply(Position::new(4, 6)),
            Token::Divide(Position::new(4, 7)),
            Token::Int(-12, Position::new(4, 8)),
            Token::Int(9, Position::new(4, 9)),
        ]
    );
    assert_eq!(tokens[3].get_pos(), Position::new(4, 3));
    let after_set: Vec<String> = ["set", "12"].iter().map(|s| s.to_string()).collect();
    assert_eq!(
        parser.tokenize(&after_set, 0).unwrap()[1],
        Token::Int(12, Position::new(0, 1))
    );
}

#[test]
fn integer_literals() {
    assert_eq!(parse_i32("0"), Some(0));
    assert_eq!(parse_i32("007"), Some(7));
    assert_eq!(parse_i32("+15"), Some(15));
    assert_eq!(parse_i32("-2147483648"), Some(i32::MIN));
    assert_eq!(parse_i32("2147483647"), Some(i32::MAX));
    assert_eq!(parse_i32("2147483648"), None);
    assert_eq!(parse_i32("-2147483649"), None);
    assert_eq!(parse_i32("99999999999999999999"), None);
    assert_eq!(parse_i32(""), None);
    assert_eq!(parse_i32("-"), None);
    assert_eq!(parse_i32("+"), None);
    assert_eq!(parse_i32("1a"), None);
    assert_eq!(parse_i32(" 1"), None);
    assert_eq!(parse_i32("--1"), None);
}

#[test]
fn splitting_keeps_empty_pieces() {
    assert_eq!(split_on("a b", ' '), vec!["a", "b"]);
    assert_eq!(split_on("", ' '), vec![""]);
    assert_eq!(split_on(" a  b ", ' '), vec!["", "a", "", "b", ""]);
    assert!(text_eq("set", "set"));
    assert!(!text_eq("set", "se"));
    assert!(!text_eq("set", "sat"));
}

#[test]
fn environment_queries() {
    let env = vec![
        Variable::new("v".to_string(), DataTypes::Char('c'), true),
        int_var("v", 9, false),
        int_var("w", 1, true),
    ];
    assert!(var_exists(&env, "w"));
    assert!(!var_exists(&env, "u"));
    assert_eq!(look_variable("v", &env, DataTypes::Int(0)), Some(int_var("v", 9, false)));
    assert_eq!(
        look_variable("v", &env, DataTypes::Char(' ')),
        Some(Variable::new("v".to_string(), DataTypes::Char('c'), true))
    );
    assert_eq!(look_variable("w", &env, DataTypes::Bool(true)), None);
}

#[test]
fn declaration_helpers() {
    let declaring = tokens_line(vec![
        Token::ImmutVarDeclaration(Position::new(7, 0)),
        Token::Variable("c".to_string(), Position::new(7, 1)),
        Token::Assignment(Position::new(7, 2)),
        Token::Int(1, Position::new(7, 3)),
    ]);
    assert_eq!(get_var_name(&declaring), Ok("c".to_string()));
    assert!(!is_var_mutable(&declaring));
    assert_eq!(slice_variable_dec(&declaring), vec![Token::Int(1, Position::new(7, 3))]);

    let plain = tokens_line(vec![Token::Int(1, Position::new(7, 0))]);
    assert_eq!(get_var_name(&plain), Err(Error::UnableToFindVarName));
    assert!(!is_var_mutable(&plain));
    assert_eq!(slice_variable_dec(&plain), vec![]);

    let dangling = tokens_line(vec![
        Token::Int(1, Position::new(7, 0)),
        Token::MutVarDeclaration(Position::new(7, 1)),
    ]);
    assert_eq!(get_var_name(&dangling), Err(Error::UnableToFindVarName));

    let numbered = tokens_line(vec![
        Token::MutVarDeclaration(Position::new(7, 0)),
        Token::Int(4, Position::new(7, 1)),
    ]);
    assert_eq!(
        get_var_name(&numbered),
        Err(Error::ExpectedVarName(Token::Int(4, Position::new(7, 1))))
    );
    assert!(is_var_mutable(&numbered));
}
