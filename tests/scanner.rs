use rux::scanner::Scanner;
use rux::token::TokenType;

fn assert_token(source: String, expected_type: TokenType) {
    let mut scanner = Scanner::new(&source);
    let token = scanner.scan_token();
    assert_eq!(token.token_type, expected_type);
    assert_eq!(scanner.scan_token().token_type, TokenType::Eof);
}

fn assert_token_lexeme(source: String, expected_type: TokenType, expected_lexeme: &str) {
    let mut scanner = Scanner::new(&source);
    let token = scanner.scan_token();
    let data = token.data.unwrap();
    assert_eq!(token.token_type, expected_type);
    assert_eq!(data.lexeme, expected_lexeme);
    assert_eq!(scanner.scan_token().token_type, TokenType::Eof);
}

fn assert_tokens(source: String, expected_tokens: &Vec<TokenType>) {
    let mut scanner = Scanner::new(&source);
    for expected in expected_tokens {
        let actual = scanner.scan_token();
        assert_eq!(actual.token_type, *expected);
    }
    assert_eq!(scanner.scan_token().token_type, TokenType::Eof);
}

fn assert_error_token(source: String) {
    let mut scanner = Scanner::new(&source);
    let token = scanner.scan_token();
    assert!(token.data.is_err());
}

#[test]
fn peek() {
    let source = String::from("1234");
    let mut scanner = Scanner::new(&source);
    assert!(scanner.peek_matches(&'1'));
    assert_eq!(scanner.advance(), Some('1'));
    assert!(scanner.peek_matches(&'2'));
    assert_eq!(scanner.advance(), Some('2'));
    assert!(scanner.peek_matches(&'3'));
}

#[test]
fn empty_source() {
    assert_token(String::from(""), TokenType::Eof);
    assert_token(String::from("    "), TokenType::Eof);
    assert_token(String::from("\r\t\t \t"), TokenType::Eof);
    assert_token(String::from("\n"), TokenType::Eof);
}

#[test]
fn error_source() {
    assert_error_token(String::from("%"));
    assert_error_token(String::from("@"));
}

#[test]
fn single_chars() {
    assert_token(String::from(""), TokenType::Eof);
    assert_token(String::from("("), TokenType::LeftParen);
    assert_token(String::from("}"), TokenType::RightBrace);
    assert_token(String::from("-"), TokenType::Minus);
    assert_token(String::from("+"), TokenType::Plus);
    assert_token(String::from("/"), TokenType::Slash);
}

#[test]
fn double_chars() {
    assert_token(String::from("=="), TokenType::EqualEqual);
    assert_token(String::from("!="), TokenType::BangEqual);
    assert_token(String::from(">"), TokenType::Greater);
    assert_token(String::from(">="), TokenType::GreaterEqual);
}

#[test]
fn full_source() {
    assert_tokens(String::from("+-"), &vec![TokenType::Plus, TokenType::Minus]);
    assert_tokens(String::from("==="), &vec![TokenType::EqualEqual, TokenType::Equal]);
    assert_tokens(
        String::from("()\n{}"),
        &vec![TokenType::LeftParen, TokenType::RightParen, TokenType::LeftBrace, TokenType::RightBrace],
    );
}

#[test]
fn coments() {
    assert_tokens(String::from("//pepe"), &vec![]);
    assert_tokens(String::from("+\n//pepe"), &vec![TokenType::Plus]);
    assert_tokens(String::from("/\n"), &vec![TokenType::Slash]);
    assert_tokens(String::from("/\n//pepe"), &vec![TokenType::Slash]);
    assert_tokens(String::from("/\n//pepe\n/"), &vec![TokenType::Slash, TokenType::Slash]);
}

#[test]
fn strings() {
    assert_token_lexeme(String::from("\"pepe\""), TokenType::String, "pepe");
    assert_token_lexeme(String::from("\"pepe\"\n"), TokenType::String, "pepe");
    assert_token_lexeme(String::from("\"pepe\"\n\n"), TokenType::String, "pepe");
    assert_token_lexeme(String::from("\"\""), TokenType::String, "");
}

#[test]
fn numbers() {
    assert_token_lexeme(String::from("0"), TokenType::Number, "0");
    assert_token_lexeme(String::from("4"), TokenType::Number, "4");
    assert_token_lexeme(String::from("42"), TokenType::Number, "42");
    assert_token_lexeme(String::from("13.99"), TokenType::Number, "13.99");
}

#[test]
fn identifier() {
    assert_token(String::from("class"), TokenType::Class);
}

#[test]
fn keywords_and_identifiers() {
    assert_token(String::from("if"), TokenType::If);
    assert_token(String::from("while"), TokenType::While);
    assert_token(String::from("true"), TokenType::True);
    assert_token(String::from("false"), TokenType::False);
    assert_token(String::from("nil"), TokenType::Nil);
    assert_token_lexeme(String::from("pepe"), TokenType::Identifier, "pepe");
    assert_token_lexeme(String::from("for1"), TokenType::Identifier, "for1");
    assert_token_lexeme(String::from("whiles"), TokenType::Identifier, "whiles");
    assert_token_lexeme(String::from("_x_9"), TokenType::Identifier, "_x_9");
}

#[test]
fn blank_input_keeps_ending() {
    for source in ["", "   ", " \t\r\n  \n"] {
        let mut scanner = Scanner::new(source);
        for _ in 0..4 {
            let token = scanner.scan_token();
            assert_eq!(token.token_type, TokenType::Eof);
            assert_eq!(token.data.unwrap().lexeme, "");
        }
    }
}

#[test]
fn maximal_munch() {
    let mut scanner = Scanner::new("==");
    let first = scanner.scan_token();
    assert_eq!(first.token_type, TokenType::EqualEqual);
    assert_eq!(first.data.unwrap().lexeme, "==");
    assert_eq!(scanner.scan_token().token_type, TokenType::Eof);
    let mut scanner = Scanner::new("===");
    assert_eq!(scanner.scan_token().token_type, TokenType::EqualEqual);
    let second = scanner.scan_token();
    assert_eq!(second.token_type, TokenType::Equal);
    assert_eq!(second.data.unwrap().lexeme, "=");
    assert_eq!(scanner.scan_token().token_type, TokenType::Eof);
    assert_tokens(String::from("!=!"), &vec![TokenType::BangEqual, TokenType::Bang]);
    assert_tokens(String::from("<=<>=>"), &vec![
        TokenType::LessEqual,
        TokenType::Less,
        TokenType::GreaterEqual,
        TokenType::Greater,
    ]);
}

#[test]
fn number_lexeme_is_whole_input() {
    for source in ["7", "0", "123", "3.14", "10.0", "007.500"] {
        let mut scanner = Scanner::new(source);
        let token = scanner.scan_token();
        assert_eq!(token.token_type, TokenType::Number);
        let data = token.data.unwrap();
        assert_eq!(data.lexeme, source);
        assert_eq!(data.start, 0);
        assert_eq!(data.stop, source.chars().count());
        assert_eq!(scanner.scan_token().token_type, TokenType::Eof);
    }
}

#[test]
fn number_without_fraction_digits_leaves_dot() {
    assert_tokens(String::from("1."), &vec![TokenType::Number, TokenType::Dot]);
    assert_tokens(String::from(".5"), &vec![TokenType::Dot, TokenType::Number]);
}

#[test]
fn unterminated_string_is_error() {
    let mut scanner = Scanner::new("\"abc\ndef");
    let token = scanner.scan_token();
    assert_eq!(token.token_type, TokenType::Error);
    assert!(token.data.is_err());
    assert_eq!(token.line, 2);
    assert_eq!(scanner.scan_token().token_type, TokenType::Eof);
}

#[test]
fn lines_are_counted() {
    let mut scanner = Scanner::new("1\n// note\n\"a\nb\" +");
    assert_eq!(scanner.scan_token().line, 1);
    let s = scanner.scan_token();
    assert_eq!(s.token_type, TokenType::String);
    assert_eq!(s.line, 4);
    assert_eq!(s.data.unwrap().lexeme, "a\nb");
    assert_eq!(scanner.scan_token().line, 4);
}

#[test]
fn scanning_goes_on_after_error() {
    assert_tokens(String::from("1 @ 2"), &vec![TokenType::Number, TokenType::Error, TokenType::Number]);
}
