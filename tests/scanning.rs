use lox::scanner::ScannerError;
use lox::scanner::Scanner;
use lox::token::{Literal, Token, TokenType};

fn scan(source: &str) -> Result<Vec<Token>, ScannerError> {
    Scanner::new(String::from(source)).scan_tokens()
}

fn kinds(tokens: &[Token]) -> Vec<TokenType> {
    tokens.iter().map(|t| t.token_type()).collect()
}

#[test]
fn single_tokens_scan_to_token_and_end() {
    let cases = [
        ("(", TokenType::LeftParen),
        (")", TokenType::RightParen),
        ("{", TokenType::LeftBrace),
        ("}", TokenType::RightBrace),
        (",", TokenType::Comma),
        (".", TokenType::Dot),
        ("-", TokenType::Minus),
        ("+", TokenType::Plus),
        (";", TokenType::Semicolon),
        ("*", TokenType::Star),
        ("/", TokenType::Slash),
        ("!", TokenType::Bang),
        ("!=", TokenType::BangEqual),
        ("=", TokenType::Equal),
        ("==", TokenType::EqualEqual),
        ("<", TokenType::Less),
        ("<=", TokenType::LessEqual),
        (">", TokenType::Greater),
        (">=", TokenType::GreaterEqual),
    ];
    for (lexeme, kind) in cases {
        let tokens = scan(lexeme).unwrap();
        assert_eq!(tokens.len(), 2, "{}", lexeme);
        assert_eq!(tokens[0].token_type(), kind);
        assert_eq!(tokens[0].lexeme(), lexeme);
        assert_eq!(tokens[0].line(), 1);
        assert_eq!(tokens[1].token_type(), TokenType::Eof);
        assert_eq!(tokens[1].lexeme(), "");
    }
}

#[test]
fn comment_produces_no_token() {
    let tokens = scan("// comment\n123").unwrap();
    assert_eq!(kinds(&tokens), vec![TokenType::Number, TokenType::Eof]);
    assert_eq!(tokens[0].lexeme(), "123");
    assert_eq!(tokens[0].line(), 2);
    assert!(matches!(tokens[0].literal(), Literal::Number(ref n) if n == "123"));
}

#[test]
fn unterminated_string_reports_line() {
    assert_eq!(scan("\"abc").unwrap_err(), ScannerError::UnterminatedString(1));
    assert_eq!(scan("\"ab\nc").unwrap_err(), ScannerError::UnterminatedString(2));
}

#[test]
fn unexpected_character_reports_line() {
    assert_eq!(scan("1 +\n @").unwrap_err(), ScannerError::UnexpectedChar(2));
    assert_eq!(scan("é").unwrap_err(), ScannerError::UnexpectedChar(1));
}

#[test]
fn empty_source_gives_only_end() {
    let tokens = scan("").unwrap();
    assert_eq!(kinds(&tokens), vec![TokenType::Eof]);
    assert_eq!(tokens[0].line(), 1);
    let tokens = scan(" \t\r\n\n").unwrap();
    assert_eq!(kinds(&tokens), vec![TokenType::Eof]);
    assert_eq!(tokens[0].line(), 3);
}

#[test]
fn string_literal_value_and_line() {
    let tokens = scan("\"a (b)\nc\" x").unwrap();
    assert_eq!(kinds(&tokens), vec![TokenType::LoxString, TokenType::Identifier, TokenType::Eof]);
    assert_eq!(tokens[0].lexeme(), "\"a (b)\nc\"");
    assert_eq!(tokens[0].line(), 1);
    assert!(matches!(tokens[0].literal(), Literal::LoxString(ref s) if s == "a (b)\nc"));
    assert_eq!(tokens[1].lexeme(), "x");
    assert_eq!(tokens[1].line(), 2);
}

#[test]
fn number_values_are_canonical() {
    let cases = [
        ("123", "123"),
        ("1.50", "1.5"),
        ("007", "7"),
        ("0", "0"),
        ("1.0", "1"),
        ("00.250", "0.25"),
        ("3.14159", "3.14159"),
    ];
    for (source, value) in cases {
        let tokens = scan(source).unwrap();
        assert_eq!(tokens.len(), 2);
        assert_eq!(tokens[0].lexeme(), source);
        assert!(matches!(tokens[0].literal(), Literal::Number(ref n) if n == value), "{}", source);
    }
}

#[test]
fn trailing_dot_is_its_own_token() {
    let tokens = scan("12.").unwrap();
    assert_eq!(kinds(&tokens), vec![TokenType::Number, TokenType::Dot, TokenType::Eof]);
    assert_eq!(tokens[0].lexeme(), "12");
    let tokens = scan("1.x").unwrap();
    assert_eq!(
        kinds(&tokens),
        vec![TokenType::Number, TokenType::Dot, TokenType::Identifier, TokenType::Eof]
    );
}

#[test]
fn reserved_words_and_identifiers() {
    let tokens = scan("and class else false for fun if nil or print return super this true var while").unwrap();
    assert_eq!(
        kinds(&tokens),
        vec![
            TokenType::And,
            TokenType::Class,
            TokenType::Else,
            TokenType::False,
            TokenType::For,
            TokenType::Fun,
            TokenType::If,
            TokenType::Nil,
            TokenType::Or,
            TokenType::Print,
            TokenType::Return,
            TokenType::Super,
            TokenType::This,
            TokenType::True,
            TokenType::Var,
            TokenType::While,
            TokenType::Eof,
        ]
    );
    let tokens = scan("andy x1 While _").unwrap_err();
    assert_eq!(tokens, ScannerError::UnexpectedChar(1));
    let tokens = scan("andy x1 While").unwrap();
    assert_eq!(
        kinds(&tokens),
        vec![TokenType::Identifier, TokenType::Identifier, TokenType::Identifier, TokenType::Eof]
    );
    assert_eq!(tokens[1].lexeme(), "x1");
}

#[test]
fn operators_and_slash_need_lookahead() {
    let tokens = scan("a/b<=c!d").unwrap();
    assert_eq!(
        kinds(&tokens),
        vec![
            TokenType::Identifier,
            TokenType::Slash,
            TokenType::Identifier,
            TokenType::LessEqual,
            TokenType::Identifier,
            TokenType::Bang,
            TokenType::Identifier,
            TokenType::Eof,
        ]
    );
}

#[test]
fn token_without_literal_reads_nil() {
    let t = Token::new(TokenType::Plus, String::from("+"), None, 4);
    assert!(matches!(t.literal(), Literal::Nil));
    assert_eq!(t.line(), 4);
    assert_eq!(t.lexeme(), "+");
    assert_eq!(t.token_type(), TokenType::Plus);
}

#[test]
fn non_ascii_text_inside_strings_and_comments() {
    let tokens = scan("\"héllo\" // ünïcode\n7").unwrap();
    assert_eq!(kinds(&tokens), vec![TokenType::LoxString, TokenType::Number, TokenType::Eof]);
    assert!(matches!(tokens[0].literal(), Literal::LoxString(ref s) if s == "héllo"));
    assert_eq!(tokens[0].lexeme(), "\"héllo\"");
    assert_eq!(tokens[1].line(), 2);
}
