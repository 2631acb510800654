use zap::lexer::Lexer;
use zap::lexer::Token;
use zap::parser::Parser;
use zap::parser::Program;

#[test]
fn simple_statemet() {
    let lexer = Lexer::new("let five = 5;".into());
    let mut parser = Parser::new(lexer);
    let result = parser.parse();
    let statement = Program {
        statements: vec![
            Token::Let,
            Token::Ident("five".into()),
            Token::Assign,
            Token::Int("5".into()),
            Token::Semicolon,
        ],
    };
    assert_eq!(result, statement);
}

#[test]
fn empty_input_parses_to_nothing() {
    let lexer = Lexer::new("".into());
    let mut parser = Parser::new(lexer);
    let result = parser.parse();
    assert_eq!(result, Program { statements: vec![] });
}

#[test]
fn parse_stops_at_end_of_input() {
    let lexer = Lexer::new("x + y".into());
    let mut parser = Parser::new(lexer);
    let result = parser.parse();
    let expected = Program {
        statements: vec![
            Token::Ident("x".into()),
            Token::Plus,
            Token::Ident("y".into()),
        ],
    };
    assert_eq!(result, expected);
}
