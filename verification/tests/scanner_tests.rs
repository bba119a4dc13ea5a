use entremets::scanner::{Position, Scanner, Token, TokenKind};

fn kinds(source: &str) -> Vec<TokenKind> {
    let mut scanner = Scanner::new(source.to_string());
    let mut out = vec![];
    loop {
        let token = scanner.scan_token().expect("a token");
        let kind = token.kind;
        out.push(kind);
        if kind == TokenKind::Eof {
            return out;
        }
    }
}

fn lexemes(source: &str) -> Vec<String> {
    let mut scanner = Scanner::new(source.to_string());
    let mut out = vec![];
    loop {
        let token = scanner.scan_token().expect("a token");
        if token.kind == TokenKind::Eof {
            return out;
        }
        out.push(token.lexeme);
    }
}

#[test]
fn the_empty_text_is_its_end() {
    assert_eq!(kinds(""), vec![TokenKind::Eof]);
    assert_eq!(kinds("   \t "), vec![TokenKind::Eof]);
}

#[test]
fn the_end_is_given_again_and_again() {
    let mut scanner = Scanner::new("a".to_string());
    assert_eq!(scanner.scan_token().unwrap().kind, TokenKind::Identifier);
    assert_eq!(scanner.scan_token().unwrap().kind, TokenKind::Eof);
    assert_eq!(scanner.scan_token().unwrap().kind, TokenKind::Eof);
}

#[test]
fn keywords_are_told_from_identifiers() {
    assert_eq!(
        kinds("process do end init property always never eventually"),
        vec![
            TokenKind::Process,
            TokenKind::Do,
            TokenKind::End,
            TokenKind::Init,
            TokenKind::Property,
            TokenKind::Always,
            TokenKind::Never,
            TokenKind::Eventually,
            TokenKind::Eof
        ]
    );
    assert_eq!(
        kinds("select from where order by limit offset for update set insert into values delete"),
        vec![
            TokenKind::Select,
            TokenKind::From,
            TokenKind::Where,
            TokenKind::Order,
            TokenKind::By,
            TokenKind::Limit,
            TokenKind::Offset,
            TokenKind::For,
            TokenKind::Update,
            TokenKind::SetKeyword,
            TokenKind::Insert,
            TokenKind::Into,
            TokenKind::Values,
            TokenKind::Delete,
            TokenKind::Eof
        ]
    );
    assert_eq!(
        kinds("create unique index on alter table add constraint foreign key references count between"),
        vec![
            TokenKind::Create,
            TokenKind::Unique,
            TokenKind::Index,
            TokenKind::On,
            TokenKind::Alter,
            TokenKind::Table,
            TokenKind::Add,
            TokenKind::Constraint,
            TokenKind::Foreign,
            TokenKind::Key,
            TokenKind::References,
            TokenKind::Count,
            TokenKind::Between,
            TokenKind::Eof
        ]
    );
    assert_eq!(
        kinds("transaction begin commit abort latch let if else in and or"),
        vec![
            TokenKind::Transaction,
            TokenKind::Begin,
            TokenKind::Commit,
            TokenKind::Abort,
            TokenKind::Latch,
            TokenKind::Let,
            TokenKind::If,
            TokenKind::Else,
            TokenKind::In,
            TokenKind::And,
            TokenKind::Or,
            TokenKind::Eof
        ]
    );
}

#[test]
fn words_that_only_start_like_keywords_are_identifiers() {
    assert_eq!(
        kinds("se s selection ends _end end_ read_committed t1_age Select k"),
        vec![
            TokenKind::Identifier,
            TokenKind::Identifier,
            TokenKind::Identifier,
            TokenKind::Identifier,
            TokenKind::Identifier,
            TokenKind::Identifier,
            TokenKind::Identifier,
            TokenKind::Identifier,
            TokenKind::Identifier,
            TokenKind::Identifier,
            TokenKind::Eof
        ]
    );
    assert_eq!(
        lexemes("se read_committed t1_age"),
        vec!["se", "read_committed", "t1_age"]
    );
}

#[test]
fn signs_are_read_with_the_longest_that_fits() {
    assert_eq!(
        kinds(":= , . * + - % / = <> <- <= >= < > ( ) [ ] { } ` $"),
        vec![
            TokenKind::ColonEqual,
            TokenKind::Comma,
            TokenKind::Dot,
            TokenKind::Star,
            TokenKind::Plus,
            TokenKind::Minus,
            TokenKind::Percent,
            TokenKind::Slash,
            TokenKind::Equal,
            TokenKind::Different,
            TokenKind::LeftArrow,
            TokenKind::LessEqual,
            TokenKind::GreaterEqual,
            TokenKind::LeftCarret,
            TokenKind::RightCarret,
            TokenKind::LeftParen,
            TokenKind::RightParen,
            TokenKind::LeftBracket,
            TokenKind::RightBracket,
            TokenKind::LeftBrace,
            TokenKind::RightBrace,
            TokenKind::Backtick,
            TokenKind::Dollar,
            TokenKind::Eof
        ]
    );
    assert_eq!(kinds("a<=b"), vec![
        TokenKind::Identifier,
        TokenKind::LessEqual,
        TokenKind::Identifier,
        TokenKind::Eof
    ]);
}

#[test]
fn line_breaks_are_tokens_and_other_blanks_are_not() {
    assert_eq!(
        kinds("a \t b\n\n c"),
        vec![
            TokenKind::Identifier,
            TokenKind::Identifier,
            TokenKind::Newline,
            TokenKind::Newline,
            TokenKind::Identifier,
            TokenKind::Eof
        ]
    );
}

#[test]
fn numbers_and_strings_keep_their_text() {
    assert_eq!(kinds("10 'a b' x1"), vec![
        TokenKind::Number,
        TokenKind::String,
        TokenKind::Identifier,
        TokenKind::Eof
    ]);
    assert_eq!(lexemes("10 'a b' x1"), vec!["10", "'a b'", "x1"]);
    assert_eq!(lexemes("12ab"), vec!["12", "ab"]);
}

#[test]
fn positions_count_lines_and_columns_from_one() {
    let mut scanner = Scanner::new("ab cd\n  ef".to_string());
    let first = scanner.scan_token().unwrap();
    assert_eq!(
        first.position,
        Position { start_line: 1, start_col: 1, end_line: 1, end_col: 3 }
    );
    let second = scanner.scan_token().unwrap();
    assert_eq!(
        second.position,
        Position { start_line: 1, start_col: 4, end_line: 1, end_col: 6 }
    );
    let line_break = scanner.scan_token().unwrap();
    assert_eq!(line_break.kind, TokenKind::Newline);
    let third = scanner.scan_token().unwrap();
    assert_eq!(
        third.position,
        Position { start_line: 2, start_col: 3, end_line: 2, end_col: 5 }
    );
}

#[test]
fn what_cannot_be_read_is_an_error() {
    let mut colon = Scanner::new("a : b".to_string());
    assert_eq!(colon.scan_token().unwrap().kind, TokenKind::Identifier);
    let error = colon.scan_token().unwrap_err();
    assert_eq!(error.expected, "Expected =");
    assert_eq!(error.lexeme, ":");

    let mut sign = Scanner::new("#".to_string());
    let error = sign.scan_token().unwrap_err();
    assert_eq!(error.expected, "Expected valid token");
    assert_eq!(error.lexeme, "#");

    let mut open = Scanner::new("'never closed".to_string());
    let error = open.scan_token().unwrap_err();
    assert_eq!(error.expected, "Expected closing quote");
}

#[test]
fn the_token_before_any_reading_is_an_error_token() {
    let token = Token::uninitialized();
    assert_eq!(token.kind, TokenKind::Error);
    assert_eq!(token.lexeme, "");
    assert_eq!(token.position, Position::new());
    assert_eq!(
        Position::new(),
        Position { start_line: 1, start_col: 1, end_line: 1, end_col: 1 }
    );
}
