use zap::lexer::Lexer;
use zap::lexer::Token;

fn scan(input: &str) -> Vec<Token> {
    let mut lexer = Lexer::new(input.to_string());
    let mut tokens = Vec::new();
    loop {
        let token = lexer.next_token();
        let done = token == Token::Eof;
        tokens.push(token);
        if done {
            break;
        }
    }
    tokens
}

#[test]
fn illegal_token() {
    let mut lexer = Lexer::new("`".into());
    let result = lexer.next_token();
    assert_eq!(result, Token::Illegal("`".into()));
}

#[test]
fn equals() {
    let mut lexer = Lexer::new("=".into());
    let result = lexer.next_token();
    assert_eq!(result, Token::Assign);
}

#[test]
fn a_few_simple_tokens() {
    let tokens_in_order = [
        Token::Assign,
        Token::Plus,
        Token::LParen,
        Token::RParen,
        Token::LBrace,
        Token::RBrace,
        Token::Comma,
        Token::Semicolon,
        Token::Eof,
    ];

    let mut lexer = Lexer::new("=+(){},;".into());
    for token in tokens_in_order {
        assert_eq!(token, lexer.next_token());
    }
}

#[test]
fn large_int() {
    let expected = Token::Int("623923".into());
    let input = "623923";

    let mut lexer = Lexer::new(input.into());
    assert_eq!(expected, lexer.next_token());
}

#[test]
fn small_int() {
    let expected = Token::Int("5".into());
    let input = "5";

    let mut lexer = Lexer::new(input.into());
    assert_eq!(expected, lexer.next_token());
}

#[test]
fn long_script() {
    let tokens_in_order = [
        Token::Let,
        Token::Ident("five".into()),
        Token::Assign,
        Token::Int(String::from("5")),
        Token::Semicolon,
        Token::Let,
        Token::Ident("ten".to_string()),
        Token::Assign,
        Token::Int("10".to_string()),
        Token::Semicolon,
        Token::Let,
        Token::Ident("add".to_string()),
        Token::Assign,
        Token::Function,
        Token::LParen,
        Token::Ident("x".to_string()),
        Token::Comma,
        Token::Ident("y".to_string()),
        Token::RParen,
        Token::LBrace,
        Token::Ident("x".to_string()),
        Token::Plus,
        Token::Ident("y".to_string()),
        Token::Semicolon,
        Token::RBrace,
        Token::Semicolon,
        Token::Let,
        Token::Ident("result".to_string()),
        Token::Assign,
        Token::Ident("add".to_string()),
        Token::LParen,
        Token::Ident("five".to_string()),
        Token::Comma,
        Token::Ident("ten".to_string()),
        Token::RParen,
        Token::Semicolon,
        Token::Bang,
        Token::Minus,
        Token::ForwardSlash,
        Token::Asterisk,
        Token::Int("5".into()),
        Token::Semicolon,
        Token::Int("5".into()),
        Token::LessThan,
        Token::Int("10".into()),
        Token::GreaterThan,
        Token::Int("5".into()),
        Token::Semicolon,
        Token::If,
        Token::LParen,
        Token::Int("5".into()),
        Token::LessThan,
        Token::Int("10".into()),
        Token::RParen,
        Token::LBrace,
        Token::Return,
        Token::True,
        Token::Semicolon,
        Token::RBrace,
        Token::Else,
        Token::LBrace,
        Token::Return,
        Token::False,
        Token::Semicolon,
        Token::RBrace,
        Token::Int(10.to_string()),
        Token::Equal,
        Token::Int(10.to_string()),
        Token::Semicolon,
        Token::Int(10.to_string()),
        Token::NotEqual,
        Token::Int(9.to_string()),
        Token::Semicolon,
        Token::Eof,
    ];

    let input = r#"
            let five = 5;
            let ten = 10;
            let add = fn(x, y) {
                x + y;
            };

            let result = add(five, ten);
            !-/*5;
            5 < 10 > 5;

            if (5 < 10) {
                return true;
            } else {
                return false;
            }

            10 == 10;
            10 != 9;
        "#;

    let mut lexer = Lexer::new(input.into());
    for token in tokens_in_order {
        let lexer_token = lexer.next_token();
        assert_eq!(token, lexer_token);
    }
}

#[test]
fn repeated_scans_agree() {
    let input = "let add = fn(x, y) { x + y; };";
    let first = scan(input);
    let second = scan(input);
    assert_eq!(first, second);
}

#[test]
fn eof_repeats_at_end() {
    let mut lexer = Lexer::new("x".into());
    assert_eq!(lexer.next_token(), Token::Ident("x".into()));
    assert_eq!(lexer.next_token(), Token::Eof);
    assert_eq!(lexer.next_token(), Token::Eof);
    assert_eq!(lexer.next_token(), Token::Eof);
}

#[test]
fn maximal_munch_runs() {
    assert_eq!(scan("1234"), vec![Token::Int("1234".into()), Token::Eof]);
    assert_eq!(
        scan("foo_bar"),
        vec![Token::Ident("foo_bar".into()), Token::Eof]
    );
    assert_eq!(
        scan("abc123"),
        vec![
            Token::Ident("abc".into()),
            Token::Int("123".into()),
            Token::Eof
        ]
    );
}

#[test]
fn operator_disambiguation() {
    assert_eq!(
        scan("= == ! !="),
        vec![
            Token::Assign,
            Token::Equal,
            Token::Bang,
            Token::NotEqual,
            Token::Eof
        ]
    );
    assert_eq!(scan("==="), vec![Token::Equal, Token::Assign, Token::Eof]);
    assert_eq!(scan("!!"), vec![Token::Bang, Token::Bang, Token::Eof]);
}

#[test]
fn keyword_identifier_partition() {
    assert_eq!(
        scan("let fn if else return true false"),
        vec![
            Token::Let,
            Token::Function,
            Token::If,
            Token::Else,
            Token::Return,
            Token::True,
            Token::False,
            Token::Eof
        ]
    );
    assert_eq!(scan("lett"), vec![Token::Ident("lett".into()), Token::Eof]);
    assert_eq!(scan("IF"), vec![Token::Ident("IF".into()), Token::Eof]);
    assert_eq!(scan("_if"), vec![Token::Ident("_if".into()), Token::Eof]);
}

#[test]
fn whitespace_is_transparent() {
    let compact = scan("let five=5;");
    let padded = scan(" \t let \r\n five \n =    5 \t ;  \n");
    assert_eq!(compact, padded);
}

#[test]
fn backtick_is_illegal() {
    assert_eq!(scan("`"), vec![Token::Illegal("`".into()), Token::Eof]);
}

#[test]
fn let_statement_tokens() {
    assert_eq!(
        scan("let five = 5;"),
        vec![
            Token::Let,
            Token::Ident("five".into()),
            Token::Assign,
            Token::Int("5".into()),
            Token::Semicolon,
            Token::Eof
        ]
    );
}

#[test]
fn comparison_statements() {
    assert_eq!(
        scan("10 == 10; 10 != 9;"),
        vec![
            Token::Int("10".into()),
            Token::Equal,
            Token::Int("10".into()),
            Token::Semicolon,
            Token::Int("10".into()),
            Token::NotEqual,
            Token::Int("9".into()),
            Token::Semicolon,
            Token::Eof
        ]
    );
}

#[test]
fn empty_input_is_just_eof() {
    assert_eq!(scan(""), vec![Token::Eof]);
}
