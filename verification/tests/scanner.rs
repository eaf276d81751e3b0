use rlox::compiler::scanner::Scanner;
use rlox::compiler::token_kind::TokenKind;

fn kinds(source: &str) -> Vec<TokenKind> {
    let mut scanner = Scanner::new(source);
    let mut out = Vec::new();
    loop {
        let token = scanner.scan_token();
        let kind = token.kind;
        out.push(kind);
        if kind == TokenKind::Eof {
            return out;
        }
    }
}

#[test]
fn scans_punctuation_with_one_byte_of_lookahead() {
    assert_eq!(
        kinds("! != = == < <= > >= ( ) { } , . - + ; / *"),
        vec![
            TokenKind::Bang,
            TokenKind::BangEqual,
            TokenKind::Equal,
            TokenKind::EqualEqual,
            TokenKind::Less,
            TokenKind::LessEqual,
            TokenKind::Greater,
            TokenKind::GreaterEqual,
            TokenKind::LParen,
            TokenKind::RParen,
            TokenKind::LBrace,
            TokenKind::RBrace,
            TokenKind::Comma,
            TokenKind::Dot,
            TokenKind::Minus,
            TokenKind::Plus,
            TokenKind::Semicolon,
            TokenKind::Slash,
            TokenKind::Star,
            TokenKind::Eof,
        ]
    );
}

#[test]
fn scans_every_keyword() {
    assert_eq!(
        kinds("and class else false for fun if nil or print return super this true var while"),
        vec![
            TokenKind::And,
            TokenKind::Class,
            TokenKind::Else,
            TokenKind::False,
            TokenKind::For,
            TokenKind::Fun,
            TokenKind::If,
            TokenKind::Nil,
            TokenKind::Or,
            TokenKind::Print,
            TokenKind::Return,
            TokenKind::Super,
            TokenKind::This,
            TokenKind::True,
            TokenKind::Var,
            TokenKind::While,
            TokenKind::Eof,
        ]
    );
}

#[test]
fn a_keyword_with_more_letters_is_a_name() {
    assert_eq!(
        kinds("andy classes f fo t nill _while"),
        vec![
            TokenKind::Identifier,
            TokenKind::Identifier,
            TokenKind::Identifier,
            TokenKind::Identifier,
            TokenKind::Identifier,
            TokenKind::Identifier,
            TokenKind::Identifier,
            TokenKind::Eof,
        ]
    );
}

#[test]
fn counts_lines_through_comments_and_strings() {
    let mut scanner = Scanner::new("// a comment\nvar\n\"two\nlines\" x");
    let var = scanner.scan_token();
    assert_eq!(var.kind, TokenKind::Var);
    assert_eq!(var.line, 2);
    let string = scanner.scan_token();
    assert_eq!(string.kind, TokenKind::String);
    assert_eq!(string.text, b"\"two\nlines\"".to_vec());
    assert_eq!(string.line, 4);
    let x = scanner.scan_token();
    assert_eq!(x.kind, TokenKind::Identifier);
    assert_eq!(x.line, 4);
}

#[test]
fn numbers_take_a_fraction_only_with_digits_behind_the_dot() {
    let mut scanner = Scanner::new("12.5 7. 3");
    let a = scanner.scan_token();
    assert_eq!((a.kind, a.text), (TokenKind::Number, b"12.5".to_vec()));
    let b = scanner.scan_token();
    assert_eq!((b.kind, b.text), (TokenKind::Number, b"7".to_vec()));
    assert_eq!(scanner.scan_token().kind, TokenKind::Dot);
    let c = scanner.scan_token();
    assert_eq!((c.kind, c.text), (TokenKind::Number, b"3".to_vec()));
    assert_eq!(scanner.scan_token().kind, TokenKind::Eof);
}

#[test]
fn an_unterminated_string_is_an_error_token() {
    let mut scanner = Scanner::new("\"never closed");
    let token = scanner.scan_token();
    assert_eq!(token.kind, TokenKind::Error);
    assert_eq!(token.text, b"Unterminated string.".to_vec());
    assert_eq!(scanner.scan_token().kind, TokenKind::Eof);
}

#[test]
fn an_unknown_byte_is_an_error_token() {
    let mut scanner = Scanner::new("@");
    let token = scanner.scan_token();
    assert_eq!(token.kind, TokenKind::Error);
    assert_eq!(token.text, b"Unexpected character.".to_vec());
}

#[test]
fn a_string_ends_at_the_next_quote_whatever_stands_before_it() {
    let mut scanner = Scanner::new("\"a\\\" 1");
    let token = scanner.scan_token();
    assert_eq!(token.kind, TokenKind::String);
    assert_eq!(token.text, b"\"a\\\"".to_vec());
    let next = scanner.scan_token();
    assert_eq!(next.kind, TokenKind::Number);
    assert_eq!(next.text, b"1".to_vec());
    assert_eq!(scanner.scan_token().kind, TokenKind::Eof);
}

#[test]
fn a_slash_alone_is_no_comment() {
    assert_eq!(
        kinds("1 / 2 // the rest / is not read\n/"),
        vec![TokenKind::Number, TokenKind::Slash, TokenKind::Number, TokenKind::Slash, TokenKind::Eof]
    );
}

#[test]
fn the_end_is_reported_again_and_again() {
    let mut scanner = Scanner::new("  \n ");
    let first = scanner.scan_token();
    assert_eq!(first.kind, TokenKind::Eof);
    assert_eq!(first.line, 2);
    assert_eq!(first.text, Vec::<u8>::new());
    let second = scanner.scan_token();
    assert_eq!(second.kind, TokenKind::Eof);
    assert_eq!(second.line, 2);
}

#[test]
fn bytes_beyond_ascii_are_unknown_one_by_one() {
    let mut scanner = Scanner::new("é");
    assert_eq!(scanner.scan_token().kind, TokenKind::Error);
    assert_eq!(scanner.scan_token().kind, TokenKind::Error);
    assert_eq!(scanner.scan_token().kind, TokenKind::Eof);
}

#[test]
fn the_scanner_can_be_driven_byte_by_byte() {
    let mut scanner = Scanner::new("ab=");
    assert!(!scanner.is_at_end());
    assert_eq!(scanner.peek(), b'a');
    assert_eq!(scanner.peek_next(), b'b');
    assert_eq!(scanner.advance(), b'a');
    assert_eq!(scanner.advance(), b'b');
    assert!(!scanner.match_ch(b'!'));
    assert_eq!(scanner.make_token(TokenKind::Identifier).text, b"ab".to_vec());
    assert_eq!(scanner.peek_next(), 0);
    assert!(scanner.match_ch(b'='));
    assert!(scanner.is_at_end());
    assert_eq!(scanner.peek(), 0);
    assert_eq!(scanner.error_token("Stop.").text, b"Stop.".to_vec());
    assert_eq!(Scanner::identifier_type(&b"while".to_vec()), TokenKind::While);
    assert_eq!(Scanner::identifier_type(&b"whale".to_vec()), TokenKind::Identifier);
    assert_eq!(Scanner::check_keyword(&b"fun".to_vec(), 2, "n", TokenKind::Fun), TokenKind::Fun);
    assert_eq!(Scanner::check_keyword(&b"fun".to_vec(), 1, "n", TokenKind::Fun), TokenKind::Identifier);
}

#[test]
fn at_the_end_advance_gives_zero_and_stays() {
    let mut scanner = Scanner::new("a");
    assert_eq!(scanner.advance(), b'a');
    assert!(scanner.is_at_end());
    assert_eq!(scanner.advance(), 0);
    assert_eq!(scanner.advance(), 0);
    assert_eq!(scanner.current, 1);
}

#[test]
fn a_keyword_is_a_keyword_only_when_it_is_the_whole_name() {
    assert_eq!(Scanner::identifier_type(&b"for".to_vec()), TokenKind::For);
    assert_eq!(Scanner::identifier_type(&b"fo".to_vec()), TokenKind::Identifier);
    assert_eq!(Scanner::identifier_type(&b"fork".to_vec()), TokenKind::Identifier);
    assert_eq!(Scanner::identifier_type(&b"this".to_vec()), TokenKind::This);
    assert_eq!(Scanner::identifier_type(&b"t".to_vec()), TokenKind::Identifier);
    assert_eq!(Scanner::identifier_type(&b"True".to_vec()), TokenKind::Identifier);
}
