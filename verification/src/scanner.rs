//! Cutting the text of a model into tokens.

use vstd::prelude::*;
use vstd::string::*;

verus! {

/// Where a token stands in the text: lines and columns count from one.
#[derive(Copy, Debug, PartialEq, Eq, Structural)]
pub struct Position {
    pub start_line: usize,
    pub start_col: usize,
    pub end_line: usize,
    pub end_col: usize,
}

impl Clone for Position {
    fn clone(&self) -> (r: Self)
        ensures
            r == *self,
    {
        *self
    }
}

impl Position {
    /// The position at the start of a text.
    pub fn new() -> (r: Self)
        ensures
            r == (Position { start_line: 1, start_col: 1, end_line: 1, end_col: 1 }),
    {
        Position { start_line: 1, start_col: 1, end_line: 1, end_col: 1 }
    }
}

/// The kinds of token.
#[derive(Copy, Debug, PartialEq, Eq, Structural)]
pub enum TokenKind {
    Newline,
    ColonEqual,
    Comma,
    Dot,
    Star,
    Plus,
    Minus,
    Percent,
    Slash,
    Equal,
    Different,
    LeftArrow,
    Backtick,
    Dollar,
    LessEqual,
    GreaterEqual,
    LeftParen,
    RightParen,
    LeftBracket,
    RightBracket,
    LeftBrace,
    RightBrace,
    LeftCarret,
    RightCarret,
    If,
    Else,
    Do,
    End,
    Transaction,
    Begin,
    Commit,
    Abort,
    Count,
    Create,
    Unique,
    Index,
    On,
    Select,
    From,
    Where,
    Order,
    By,
    Limit,
    Offset,
    Insert,
    Delete,
    Into,
    Values,
    Update,
    For,
    SetKeyword,
    Between,
    Alter,
    Table,
    Add,
    Constraint,
    Foreign,
    Key,
    References,
    In,
    And,
    Or,
    Always,
    Never,
    Eventually,
    Property,
    Process,
    Latch,
    Init,
    Let,
    Identifier,
    Number,
    String,
    Eof,
    Error,
}

impl Clone for TokenKind {
    fn clone(&self) -> (r: Self)
        ensures
            r == *self,
    {
        *self
    }
}

/// A token: its kind, its text, and where it stands.
#[derive(Debug, PartialEq, Eq)]
pub struct Token {
    pub kind: TokenKind,
    pub lexeme: String,
    pub position: Position,
}

impl Clone for Token {
    fn clone(&self) -> (r: Self)
        ensures
            r.kind == self.kind,
            r.lexeme@ == self.lexeme@,
            r.position == self.position,
    {
        Token { kind: self.kind, lexeme: self.lexeme.clone(), position: self.position }
    }
}

/// What a token says: its kind and its text.
pub struct TokenModel {
    pub kind: TokenKind,
    pub lexeme: Seq<char>,
    pub position: Position,
}

impl View for Token {
    type V = TokenModel;

    open spec fn view(&self) -> TokenModel {
        TokenModel { kind: self.kind, lexeme: self.lexeme@, position: self.position }
    }
}

impl Token {
    /// The token that stands before anything has been read.
    pub fn uninitialized() -> (r: Self)
        ensures
            r.kind == TokenKind::Error,
            r.lexeme@ == Seq::<char>::empty(),
            r.position == (Position { start_line: 1, start_col: 1, end_line: 1, end_col: 1 }),
    {
        Token { kind: TokenKind::Error, lexeme: String::new(), position: Position::new() }
    }
}

/// A place in the text: the number of characters before it, and its line
/// and column.
#[derive(Copy, Debug, PartialEq, Eq, Structural)]
pub struct Cursor {
    pub index: usize,
    pub col: usize,
    pub line: usize,
}

impl Clone for Cursor {
    fn clone(&self) -> (r: Self)
        ensures
            r == *self,
    {
        *self
    }
}

impl Cursor {
    /// The start of the text.
    pub fn new() -> (r: Self)
        ensures
            r == (Cursor { index: 0, col: 1, line: 1 }),
    {
        Cursor { index: 0, line: 1, col: 1 }
    }

    /// Moves over a character that is no line break.
    pub fn advance(&mut self)
        requires
            old(self).index < usize::MAX,
        ensures
            final(self).index == old(self).index + 1,
            final(self).line == old(self).line,
            *final(self) == moved(*old(self), 1),
    {
        self.index = self.index + 1;
        if self.col < usize::MAX {
            self.col = self.col + 1;
        }
    }

    /// Moves over a line break.
    pub fn newline(&mut self)
        requires
            old(self).index < usize::MAX,
        ensures
            final(self).index == old(self).index + 1,
            final(self).col == 1,
            *final(self) == next_line(*old(self)),
    {
        self.index = self.index + 1;
        self.col = 1;
        if self.line < usize::MAX {
            self.line = self.line + 1;
        }
    }
}

/// What a count comes to: counting stops at the greatest number that the
/// machine holds.
pub open spec fn capped(n: int) -> usize {
    if n > usize::MAX {
        usize::MAX
    } else if n < 0 {
        0
    } else {
        n as usize
    }
}

/// The place `n` characters further on the same line.
pub open spec fn moved(c: Cursor, n: int) -> Cursor {
    Cursor { index: capped(c.index + n), col: capped(c.col + n), line: c.line }
}

/// The place behind a line break: the start of the next line.
pub open spec fn next_line(c: Cursor) -> Cursor {
    Cursor { index: capped(c.index + 1), col: 1, line: capped(c.line + 1) }
}

/// The place at which what is read from `start` ends, where it ends
/// before the character at `end`: what starts with a line break goes on
/// on the next line.
pub open spec fn reached(src: Seq<char>, start: Cursor, end: int) -> Cursor {
    if char_at(src, start.index as int) == Some('\n') {
        moved(next_line(start), end - start.index - 1)
    } else {
        moved(start, end - start.index)
    }
}

/// Where what reaches from `start` to `end` stands.
pub open spec fn span(start: Cursor, end: Cursor) -> Position {
    Position {
        start_line: start.line,
        start_col: start.col,
        end_line: end.line,
        end_col: end.col,
    }
}

/// What the scanner could not read: what it expected, what it found, where.
#[derive(Debug, PartialEq, Eq)]
pub struct ScannerError {
    pub expected: String,
    pub lexeme: String,
    pub position: Position,
}

/// What a failure of the scanner says.
pub struct ScannerErrorModel {
    pub expected: Seq<char>,
    pub lexeme: Seq<char>,
    pub position: Position,
}

impl View for ScannerError {
    type V = ScannerErrorModel;

    open spec fn view(&self) -> ScannerErrorModel {
        ScannerErrorModel {
            expected: self.expected@,
            lexeme: self.lexeme@,
            position: self.position,
        }
    }
}

/// Whether the standard library counts the character as alphabetic.
pub uninterp spec fn char_is_alphabetic(c: char) -> bool;

/// Whether the standard library counts the character as numeric.
pub uninterp spec fn char_is_numeric(c: char) -> bool;

/// Whether the standard library counts the character as white space.
pub uninterp spec fn char_is_whitespace(c: char) -> bool;

/// Whether the character is alphabetic: what `char::is_alphabetic` of the
/// standard library says of it, which depends on the character alone.
#[verifier::external_body]
fn is_alphabetic(c: char) -> (r: bool)
    ensures
        r == char_is_alphabetic(c),
{
    c.is_alphabetic()
}

/// Whether the character is numeric: what `char::is_numeric` of the
/// standard library says of it, which depends on the character alone.
#[verifier::external_body]
fn is_numeric(c: char) -> (r: bool)
    ensures
        r == char_is_numeric(c),
{
    c.is_numeric()
}

/// Whether the character is white space: what `char::is_whitespace` of the
/// standard library says of it, which depends on the character alone.
#[verifier::external_body]
fn is_whitespace(c: char) -> (r: bool)
    ensures
        r == char_is_whitespace(c),
{
    c.is_whitespace()
}

/// Whether the character is white space within a line.
pub open spec fn is_blank(c: char) -> bool {
    char_is_whitespace(c) && c != '\n'
}

/// Whether the character can start a word.
pub open spec fn starts_word(c: char) -> bool {
    char_is_alphabetic(c) || c == '_'
}

/// Whether the character can stand in a word.
pub open spec fn in_word(c: char) -> bool {
    char_is_alphabetic(c) || c == '_' || char_is_numeric(c)
}

/// The end of the run of blanks that starts at `from`.
pub open spec fn blanks_end(src: Seq<char>, from: int) -> int
    decreases src.len() - from,
{
    if from < 0 || from >= src.len() || !is_blank(src[from]) {
        from
    } else {
        blanks_end(src, from + 1)
    }
}

/// The end of the run of word characters that starts at `from`.
pub open spec fn word_end(src: Seq<char>, from: int) -> int
    decreases src.len() - from,
{
    if from < 0 || from >= src.len() || !in_word(src[from]) {
        from
    } else {
        word_end(src, from + 1)
    }
}

/// The end of the run of numeric characters that starts at `from`.
pub open spec fn digits_end(src: Seq<char>, from: int) -> int
    decreases src.len() - from,
{
    if from < 0 || from >= src.len() || !char_is_numeric(src[from]) {
        from
    } else {
        digits_end(src, from + 1)
    }
}

/// The place of the first quote at or after `from`, if there is one.
pub open spec fn quote_at(src: Seq<char>, from: int) -> Option<int>
    decreases src.len() - from,
{
    if from < 0 || from >= src.len() {
        None
    } else if src[from] == '\'' {
        Some(from)
    } else {
        quote_at(src, from + 1)
    }
}

/// The kind of token that a word is: that of the keyword that it spells, or
/// an identifier.
pub open spec fn keyword(word: Seq<char>) -> TokenKind {
    if word == "abort"@ {
        TokenKind::Abort
    } else if word == "add"@ {
        TokenKind::Add
    } else if word == "and"@ {
        TokenKind::And
    } else if word == "always"@ {
        TokenKind::Always
    } else if word == "alter"@ {
        TokenKind::Alter
    } else if word == "begin"@ {
        TokenKind::Begin
    } else if word == "between"@ {
        TokenKind::Between
    } else if word == "by"@ {
        TokenKind::By
    } else if word == "commit"@ {
        TokenKind::Commit
    } else if word == "constraint"@ {
        TokenKind::Constraint
    } else if word == "count"@ {
        TokenKind::Count
    } else if word == "create"@ {
        TokenKind::Create
    } else if word == "do"@ {
        TokenKind::Do
    } else if word == "delete"@ {
        TokenKind::Delete
    } else if word == "else"@ {
        TokenKind::Else
    } else if word == "end"@ {
        TokenKind::End
    } else if word == "eventually"@ {
        TokenKind::Eventually
    } else if word == "for"@ {
        TokenKind::For
    } else if word == "foreign"@ {
        TokenKind::Foreign
    } else if word == "from"@ {
        TokenKind::From
    } else if word == "in"@ {
        TokenKind::In
    } else if word == "if"@ {
        TokenKind::If
    } else if word == "index"@ {
        TokenKind::Index
    } else if word == "init"@ {
        TokenKind::Init
    } else if word == "insert"@ {
        TokenKind::Insert
    } else if word == "into"@ {
        TokenKind::Into
    } else if word == "key"@ {
        TokenKind::Key
    } else if word == "never"@ {
        TokenKind::Never
    } else if word == "latch"@ {
        TokenKind::Latch
    } else if word == "let"@ {
        TokenKind::Let
    } else if word == "limit"@ {
        TokenKind::Limit
    } else if word == "offset"@ {
        TokenKind::Offset
    } else if word == "or"@ {
        TokenKind::Or
    } else if word == "order"@ {
        TokenKind::Order
    } else if word == "on"@ {
        TokenKind::On
    } else if word == "process"@ {
        TokenKind::Process
    } else if word == "property"@ {
        TokenKind::Property
    } else if word == "references"@ {
        TokenKind::References
    } else if word == "select"@ {
        TokenKind::Select
    } else if word == "set"@ {
        TokenKind::SetKeyword
    } else if word == "table"@ {
        TokenKind::Table
    } else if word == "transaction"@ {
        TokenKind::Transaction
    } else if word == "update"@ {
        TokenKind::Update
    } else if word == "unique"@ {
        TokenKind::Unique
    } else if word == "values"@ {
        TokenKind::Values
    } else if word == "where"@ {
        TokenKind::Where
    } else {
        TokenKind::Identifier
    }
}

/// What stands at a place in the text: a token of a kind, or nothing that
/// can be read, with what was expected.
pub enum Lexed {
    Token(TokenKind),
    Fault(Seq<char>),
}

/// The character at a place in the text, if the text goes that far.
pub open spec fn char_at(src: Seq<char>, at: int) -> Option<char> {
    if 0 <= at < src.len() {
        Some(src[at])
    } else {
        None
    }
}

/// What stands at `start`, where no blank stands, and where it ends: the
/// end of the text; a word, which is a keyword or an identifier; a number;
/// a quoted string, quotes included; or one of the signs, the longest that
/// fits.
pub open spec fn lexed_at(src: Seq<char>, start: int) -> (Lexed, int) {
    if start < 0 || start >= src.len() {
        (Lexed::Token(TokenKind::Eof), start)
    } else {
        let c = src[start];
        let next = char_at(src, start + 1);
        if starts_word(c) {
            let end = word_end(src, start + 1);
            (Lexed::Token(keyword(src.subrange(start, end))), end)
        } else if char_is_numeric(c) {
            (Lexed::Token(TokenKind::Number), digits_end(src, start + 1))
        } else if c == '\n' {
            (Lexed::Token(TokenKind::Newline), start + 1)
        } else if c == '`' {
            (Lexed::Token(TokenKind::Backtick), start + 1)
        } else if c == '$' {
            (Lexed::Token(TokenKind::Dollar), start + 1)
        } else if c == '(' {
            (Lexed::Token(TokenKind::LeftParen), start + 1)
        } else if c == ')' {
            (Lexed::Token(TokenKind::RightParen), start + 1)
        } else if c == '[' {
            (Lexed::Token(TokenKind::LeftBracket), start + 1)
        } else if c == ']' {
            (Lexed::Token(TokenKind::RightBracket), start + 1)
        } else if c == '{' {
            (Lexed::Token(TokenKind::LeftBrace), start + 1)
        } else if c == '}' {
            (Lexed::Token(TokenKind::RightBrace), start + 1)
        } else if c == ',' {
            (Lexed::Token(TokenKind::Comma), start + 1)
        } else if c == '+' {
            (Lexed::Token(TokenKind::Plus), start + 1)
        } else if c == '-' {
            (Lexed::Token(TokenKind::Minus), start + 1)
        } else if c == '/' {
            (Lexed::Token(TokenKind::Slash), start + 1)
        } else if c == '%' {
            (Lexed::Token(TokenKind::Percent), start + 1)
        } else if c == '*' {
            (Lexed::Token(TokenKind::Star), start + 1)
        } else if c == '.' {
            (Lexed::Token(TokenKind::Dot), start + 1)
        } else if c == ':' {
            if next == Some('=') {
                (Lexed::Token(TokenKind::ColonEqual), start + 2)
            } else {
                (Lexed::Fault("Expected ="@), start + 1)
            }
        } else if c == '>' {
            if next == Some('=') {
                (Lexed::Token(TokenKind::GreaterEqual), start + 2)
            } else {
                (Lexed::Token(TokenKind::RightCarret), start + 1)
            }
        } else if c == '<' {
            if next == Some('-') {
                (Lexed::Token(TokenKind::LeftArrow), start + 2)
            } else if next == Some('=') {
                (Lexed::Token(TokenKind::LessEqual), start + 2)
            } else if next == Some('>') {
                (Lexed::Token(TokenKind::Different), start + 2)
            } else {
                (Lexed::Token(TokenKind::LeftCarret), start + 1)
            }
        } else if c == '=' {
            (Lexed::Token(TokenKind::Equal), start + 1)
        } else if c == '\'' {
            match quote_at(src, start + 1) {
                Some(close) => (Lexed::Token(TokenKind::String), close + 1),
                None => (Lexed::Fault("Expected closing quote"@), src.len() as int),
            }
        } else {
            (Lexed::Fault("Expected valid token"@), start + 1)
        }
    }
}

/// The end of a run is not before its start nor behind the text.
pub proof fn lemma_run_ends(src: Seq<char>, from: int)
    requires
        0 <= from <= src.len(),
    ensures
        from <= blanks_end(src, from) <= src.len(),
        from <= word_end(src, from) <= src.len(),
        from <= digits_end(src, from) <= src.len(),
        match quote_at(src, from) {
            Some(q) => from <= q < src.len(),
            None => true,
        },
    decreases src.len() - from,
{
    if from < src.len() {
        lemma_run_ends(src, from + 1);
    }
}

/// Reads the text of a model token by token.
#[derive(Debug)]
pub struct Scanner {
    pub source: String,
    /// The number of characters of the text.
    pub length: usize,
    /// Where the token being read starts.
    pub start: Cursor,
    /// Where reading goes on.
    pub current: Cursor,
}

impl Clone for Scanner {
    fn clone(&self) -> (r: Self)
        ensures
            r.source@ == self.source@,
            r.length == self.length,
            r.start == self.start,
            r.current == self.current,
    {
        Scanner {
            source: self.source.clone(),
            length: self.length,
            start: self.start,
            current: self.current,
        }
    }
}

impl Scanner {
    /// Whether the scanner is in order: it knows the length of its text and
    /// stands inside it.
    pub open spec fn wf(&self) -> bool {
        &&& self.length == self.source@.len()
        &&& self.start.index <= self.current.index
        &&& self.current.index <= self.length
    }

    /// A scanner at the start of `source`.
    pub fn new(source: String) -> (r: Scanner)
        ensures
            r.wf(),
            r.source@ == source@,
            r.current.index == 0,
            r.start.index == 0,
            r.current == (Cursor { index: 0, col: 1, line: 1 }),
    {
        let length = source.as_str().unicode_len();
        Scanner { source, length, start: Cursor::new(), current: Cursor::new() }
    }

    /// Whether the whole text has been read.
    pub fn is_at_end(&self) -> (r: bool)
        requires
            self.wf(),
        ensures
            r == (self.current.index == self.source@.len()),
    {
        self.current.index == self.length
    }

    /// The character that reading goes on with.
    pub fn peek(&self) -> (c: char)
        requires
            self.wf(),
            self.current.index < self.source@.len(),
        ensures
            c == self.source@[self.current.index as int],
    {
        self.source.as_str().get_char(self.current.index)
    }

    /// Moves over the character that reading goes on with, which is no line
    /// break, and gives it.
    pub fn advance(&mut self) -> (c: char)
        requires
            old(self).wf(),
            old(self).current.index < old(self).source@.len(),
        ensures
            final(self).wf(),
            final(self).source == old(self).source,
            final(self).length == old(self).length,
            final(self).start == old(self).start,
            final(self).current == moved(
                old(self).current,
                final(self).current.index - old(self).current.index,
            ),
            final(self).current.index == old(self).current.index + 1,
            c == old(self).source@[old(self).current.index as int],
    {
        let c = self.source.as_str().get_char(self.current.index);
        self.current.advance();
        c
    }

    /// Moves over the line break that reading goes on with, and gives it.
    pub fn newline(&mut self) -> (c: char)
        requires
            old(self).wf(),
            old(self).current.index < old(self).source@.len(),
        ensures
            final(self).wf(),
            final(self).source == old(self).source,
            final(self).length == old(self).length,
            final(self).start == old(self).start,
            final(self).current == next_line(old(self).current),
            final(self).current.index == old(self).current.index + 1,
            c == old(self).source@[old(self).current.index as int],
    {
        let c = self.source.as_str().get_char(self.current.index);
        self.current.newline();
        c
    }

    /// Moves over the character that reading goes on with if it is `c`, and
    /// says whether it was.
    pub fn matches(&mut self, c: char) -> (r: bool)
        requires
            old(self).wf(),
        ensures
            final(self).wf(),
            final(self).source == old(self).source,
            final(self).length == old(self).length,
            final(self).start == old(self).start,
            final(self).current == moved(
                old(self).current,
                final(self).current.index - old(self).current.index,
            ),
            r == (char_at(old(self).source@, old(self).current.index as int) == Some(c)),
            final(self).current.index == if r {
                old(self).current.index + 1
            } else {
                old(self).current.index as int
            },
    {
        if self.current.index < self.length && self.source.as_str().get_char(self.current.index)
            == c {
            self.current.advance();
            true
        } else {
            false
        }
    }

    /// Moves over the blanks that reading goes on with.
    pub fn skip_whitespace(&mut self)
        requires
            old(self).wf(),
        ensures
            final(self).wf(),
            final(self).source == old(self).source,
            final(self).length == old(self).length,
            final(self).start == old(self).start,
            final(self).current == moved(
                old(self).current,
                final(self).current.index - old(self).current.index,
            ),
            final(self).current.index == blanks_end(
                old(self).source@,
                old(self).current.index as int,
            ),
            final(self).current.index >= old(self).current.index,
    {
        loop
            invariant
                self.wf(),
                self.source == old(self).source,
                self.length == old(self).length,
                self.start == old(self).start,
                self.current == moved(old(self).current, self.current.index - old(self).current.index),
                self.current.index >= old(self).current.index,
                blanks_end(old(self).source@, old(self).current.index as int) == blanks_end(
                    self.source@,
                    self.current.index as int,
                ),
            ensures
                self.wf(),
                self.source == old(self).source,
                self.length == old(self).length,
                self.start == old(self).start,
                self.current == moved(old(self).current, self.current.index - old(self).current.index),
                self.current.index >= old(self).current.index,
                self.current.index == blanks_end(
                    old(self).source@,
                    old(self).current.index as int,
                ),
            decreases self.length - self.current.index,
        {
            if self.is_at_end() {
                break ;
            }
            let c = self.peek();
            if is_whitespace(c) {
                if c == '\n' {
                    break ;
                } else {
                    self.advance();
                }
            } else {
                break ;
            }
        }
    }

    /// The text of the token being read.
    pub fn lexeme(&self) -> (r: String)
        requires
            self.wf(),
        ensures
            r@ == self.source@.subrange(self.start.index as int, self.current.index as int),
    {
        String::from_str(
            self.source.as_str().substring_char(self.start.index, self.current.index),
        )
    }

    /// Where the token being read stands.
    pub fn position(&self) -> (r: Position)
        ensures
            r == span(self.start, self.current),
    {
        Position {
            start_line: self.start.line,
            start_col: self.start.col,
            end_line: self.current.line,
            end_col: self.current.col,
        }
    }

    /// The token of the kind with the text that has been read for it.
    pub fn make_token(&self, kind: TokenKind) -> (r: Result<Token, ScannerError>)
        requires
            self.wf(),
        ensures
            r.is_ok(),
            r.unwrap().kind == kind,
            r.unwrap().lexeme@ == self.source@.subrange(
                self.start.index as int,
                self.current.index as int,
            ),
            r.unwrap().position == span(self.start, self.current),
    {
        Ok(Token { kind, lexeme: self.lexeme(), position: self.position() })
    }

    /// The failure to read a token, with what was expected.
    pub fn make_error(&self, expected_message: &str) -> (r: Result<Token, ScannerError>)
        requires
            self.wf(),
        ensures
            r.is_err(),
            r.unwrap_err().expected@ == expected_message@,
            r.unwrap_err().lexeme@ == self.source@.subrange(
                self.start.index as int,
                self.current.index as int,
            ),
            r.unwrap_err().position == span(self.start, self.current),
    {
        Err(
            ScannerError {
                expected: String::from_str(expected_message),
                lexeme: self.lexeme(),
                position: self.position(),
            },
        )
    }

    /// The kind of the keyword `word` where the word that has been read
    /// spells it, the kind of an identifier otherwise.
    pub fn check_keyword(&self, lexeme: &String, word: &str, kind: TokenKind) -> (r: TokenKind)
        ensures
            r == if lexeme@ == word@ {
                kind
            } else {
                TokenKind::Identifier
            },
    {
        if *lexeme == String::from_str(word) {
            kind
        } else {
            TokenKind::Identifier
        }
    }

    /// The kind of token that the word that has been read is.
    pub fn identifier_type(&self) -> (r: TokenKind)
        requires
            self.wf(),
        ensures
            r == keyword(
                self.source@.subrange(self.start.index as int, self.current.index as int),
            ),
    {
        let word = self.lexeme();
        let words: [(&str, TokenKind); 46] = [
            ("abort", TokenKind::Abort),
            ("add", TokenKind::Add),
            ("and", TokenKind::And),
            ("always", TokenKind::Always),
            ("alter", TokenKind::Alter),
            ("begin", TokenKind::Begin),
            ("between", TokenKind::Between),
            ("by", TokenKind::By),
            ("commit", TokenKind::Commit),
            ("constraint", TokenKind::Constraint),
            ("count", TokenKind::Count),
            ("create", TokenKind::Create),
            ("do", TokenKind::Do),
            ("delete", TokenKind::Delete),
            ("else", TokenKind::Else),
            ("end", TokenKind::End),
            ("eventually", TokenKind::Eventually),
            ("for", TokenKind::For),
            ("foreign", TokenKind::Foreign),
            ("from", TokenKind::From),
            ("in", TokenKind::In),
            ("if", TokenKind::If),
            ("index", TokenKind::Index),
            ("init", TokenKind::Init),
            ("insert", TokenKind::Insert),
            ("into", TokenKind::Into),
            ("key", TokenKind::Key),
            ("never", TokenKind::Never),
            ("latch", TokenKind::Latch),
            ("let", TokenKind::Let),
            ("limit", TokenKind::Limit),
            ("offset", TokenKind::Offset),
            ("or", TokenKind::Or),
            ("order", TokenKind::Order),
            ("on", TokenKind::On),
            ("process", TokenKind::Process),
            ("property", TokenKind::Property),
            ("references", TokenKind::References),
            ("select", TokenKind::Select),
            ("set", TokenKind::SetKeyword),
            ("table", TokenKind::Table),
            ("transaction", TokenKind::Transaction),
            ("update", TokenKind::Update),
            ("unique", TokenKind::Unique),
            ("values", TokenKind::Values),
            ("where", TokenKind::Where),
        ];
        let mut i: usize = 0;
        while i < 46
            invariant
                i <= 46,
                word@ == self.source@.subrange(self.start.index as int, self.current.index as int),
                words@.len() == 46,
                forall|k: int| 0 <= k < i ==> word@ != (#[trigger] words@[k]).0@,
                words@ == keyword_table(),
            decreases 46 - i,
        {
            let (spelling, kind) = words[i];
            if self.check_keyword(&word, spelling, kind) != TokenKind::Identifier {
                proof {
                    lemma_keyword_table(word@, i as int);
                }
                return kind;
            }
            i += 1;
        }
        proof {
            lemma_keyword_table(word@, 46);
        }
        TokenKind::Identifier
    }

    /// Reads the rest of a word and gives its token.
    pub fn identifier(&mut self) -> (r: Result<Token, ScannerError>)
        requires
            old(self).wf(),
        ensures
            final(self).wf(),
            final(self).source == old(self).source,
            final(self).length == old(self).length,
            final(self).start == old(self).start,
            final(self).current == moved(
                old(self).current,
                final(self).current.index - old(self).current.index,
            ),
            final(self).current.index == word_end(
                old(self).source@,
                old(self).current.index as int,
            ),
            final(self).current.index >= old(self).current.index,
            r.is_ok(),
            r.unwrap().kind == keyword(
                old(self).source@.subrange(old(self).start.index as int, final(self).current.index as int),
            ),
            r.unwrap().lexeme@ == old(self).source@.subrange(
                old(self).start.index as int,
                final(self).current.index as int,
            ),
            r.unwrap().position == span(final(self).start, final(self).current),
    {
        while !self.is_at_end() && (is_alphabetic(self.peek()) || self.peek() == '_' || is_numeric(
            self.peek(),
        ))
            invariant
                self.wf(),
                self.source == old(self).source,
                self.length == old(self).length,
                self.start == old(self).start,
                self.current == moved(old(self).current, self.current.index - old(self).current.index),
                self.current.index >= old(self).current.index,
                word_end(old(self).source@, old(self).current.index as int) == word_end(
                    self.source@,
                    self.current.index as int,
                ),
            decreases self.length - self.current.index,
        {
            self.advance();
        }
        let kind = self.identifier_type();
        self.make_token(kind)
    }

    /// Reads the rest of a number and gives its token.
    pub fn number(&mut self) -> (r: Result<Token, ScannerError>)
        requires
            old(self).wf(),
        ensures
            final(self).wf(),
            final(self).source == old(self).source,
            final(self).length == old(self).length,
            final(self).start == old(self).start,
            final(self).current == moved(
                old(self).current,
                final(self).current.index - old(self).current.index,
            ),
            final(self).current.index == digits_end(
                old(self).source@,
                old(self).current.index as int,
            ),
            final(self).current.index >= old(self).current.index,
            r.is_ok(),
            r.unwrap().kind == TokenKind::Number,
            r.unwrap().lexeme@ == old(self).source@.subrange(
                old(self).start.index as int,
                final(self).current.index as int,
            ),
            r.unwrap().position == span(final(self).start, final(self).current),
    {
        while !self.is_at_end() && is_numeric(self.peek())
            invariant
                self.wf(),
                self.source == old(self).source,
                self.length == old(self).length,
                self.start == old(self).start,
                self.current == moved(old(self).current, self.current.index - old(self).current.index),
                self.current.index >= old(self).current.index,
                digits_end(old(self).source@, old(self).current.index as int) == digits_end(
                    self.source@,
                    self.current.index as int,
                ),
            decreases self.length - self.current.index,
        {
            self.advance();
        }
        self.make_token(TokenKind::Number)
    }

    /// Reads the rest of a quoted string, up to and with the closing quote,
    /// and gives its token; fails where the text ends before the quote.
    pub fn string(&mut self) -> (r: Result<Token, ScannerError>)
        requires
            old(self).wf(),
        ensures
            final(self).wf(),
            final(self).source == old(self).source,
            final(self).length == old(self).length,
            final(self).start == old(self).start,
            final(self).current == moved(
                old(self).current,
                final(self).current.index - old(self).current.index,
            ),
            final(self).current.index >= old(self).current.index,
            match r {
                Ok(t) => quote_at(old(self).source@, old(self).current.index as int) == Some(
                    final(self).current.index - 1,
                ) && t.kind == TokenKind::String && t.lexeme@ == old(self).source@.subrange(
                    old(self).start.index as int,
                    final(self).current.index as int,
                ) && t.position == span(final(self).start, final(self).current),
                Err(e) => quote_at(old(self).source@, old(self).current.index as int).is_none()
                    && e.expected@ == "Expected closing quote"@ && final(self).current.index
                    == old(self).source@.len() && e.lexeme@ == old(self).source@.subrange(
                    old(self).start.index as int,
                    final(self).current.index as int,
                ) && e.position == span(final(self).start, final(self).current),
            },
    {
        while !self.is_at_end() && self.peek() != '\''
            invariant
                self.wf(),
                self.source == old(self).source,
                self.length == old(self).length,
                self.start == old(self).start,
                self.current == moved(old(self).current, self.current.index - old(self).current.index),
                self.current.index >= old(self).current.index,
                quote_at(old(self).source@, old(self).current.index as int) == quote_at(
                    self.source@,
                    self.current.index as int,
                ),
            decreases self.length - self.current.index,
        {
            self.advance();
        }
        if self.is_at_end() {
            self.make_error("Expected closing quote")
        } else {
            self.advance();
            self.make_token(TokenKind::String)
        }
    }

    /// Reads the next token: moves over blanks, then reads what stands
    /// there.
    pub fn scan_token(&mut self) -> (r: Result<Token, ScannerError>)
        requires
            old(self).wf(),
        ensures
            final(self).wf(),
            final(self).source == old(self).source,
            final(self).length == old(self).length,
            final(self).start.index == blanks_end(
                old(self).source@,
                old(self).current.index as int,
            ),
            final(self).current.index >= old(self).current.index,
            final(self).start == moved(
                old(self).current,
                final(self).start.index - old(self).current.index,
            ),
            final(self).current == reached(
                old(self).source@,
                final(self).start,
                final(self).current.index as int,
            ),
            match r {
                Ok(t) => lexed_at(old(self).source@, final(self).start.index as int) == (
                    Lexed::Token(t.kind),
                    final(self).current.index as int,
                ) && t.lexeme@ == old(self).source@.subrange(
                    final(self).start.index as int,
                    final(self).current.index as int,
                ) && t.position == span(final(self).start, final(self).current) && (t.kind
                    == TokenKind::Eof ==> final(self).current.index == old(self).source@.len())
                    && (t.kind != TokenKind::Eof ==> final(self).current.index > old(
                    self,
                ).current.index),
                Err(e) => lexed_at(old(self).source@, final(self).start.index as int) == (
                    Lexed::Fault(e.expected@),
                    final(self).current.index as int,
                ) && e.lexeme@ == old(self).source@.subrange(
                    final(self).start.index as int,
                    final(self).current.index as int,
                ) && e.position == span(final(self).start, final(self).current),
            },
    {
        self.skip_whitespace();
        self.start = self.current;
        proof {
            lemma_run_ends(self.source@, self.current.index as int);
            if self.current.index < self.source@.len() {
                lemma_run_ends(self.source@, self.current.index as int + 1);
            }
        }
        if self.is_at_end() {
            self.make_token(TokenKind::Eof)
        } else {
            let c = if self.peek() == '\n' {
                self.newline()
            } else {
                self.advance()
            };
            if is_alphabetic(c) || c == '_' {
                return self.identifier();
            }
            if is_numeric(c) {
                return self.number();
            }
            match c {
                '\n' => self.make_token(TokenKind::Newline),
                '`' => self.make_token(TokenKind::Backtick),
                '$' => self.make_token(TokenKind::Dollar),
                '(' => self.make_token(TokenKind::LeftParen),
                ')' => self.make_token(TokenKind::RightParen),
                '[' => self.make_token(TokenKind::LeftBracket),
                ']' => self.make_token(TokenKind::RightBracket),
                '{' => self.make_token(TokenKind::LeftBrace),
                '}' => self.make_token(TokenKind::RightBrace),
                ',' => self.make_token(TokenKind::Comma),
                '+' => self.make_token(TokenKind::Plus),
                '-' => self.make_token(TokenKind::Minus),
                '/' => self.make_token(TokenKind::Slash),
                '%' => self.make_token(TokenKind::Percent),
                '*' => self.make_token(TokenKind::Star),
                '.' => self.make_token(TokenKind::Dot),
                ':' => {
                    if self.matches('=') {
                        self.make_token(TokenKind::ColonEqual)
                    } else {
                        self.make_error("Expected =")
                    }
                },
                '>' => {
                    if self.matches('=') {
                        self.make_token(TokenKind::GreaterEqual)
                    } else {
                        self.make_token(TokenKind::RightCarret)
                    }
                },
                '<' => {
                    if self.matches('-') {
                        self.make_token(TokenKind::LeftArrow)
                    } else if self.matches('=') {
                        self.make_token(TokenKind::LessEqual)
                    } else if self.matches('>') {
                        self.make_token(TokenKind::Different)
                    } else {
                        self.make_token(TokenKind::LeftCarret)
                    }
                },
                '=' => self.make_token(TokenKind::Equal),
                '\'' => self.string(),
                _ => self.make_error("Expected valid token"),
            }
        }
    }
}

/// The keywords with their kinds.
pub open spec fn keyword_table() -> Seq<(&'static str, TokenKind)> {
    seq![
        ("abort", TokenKind::Abort),
        ("add", TokenKind::Add),
        ("and", TokenKind::And),
        ("always", TokenKind::Always),
        ("alter", TokenKind::Alter),
        ("begin", TokenKind::Begin),
        ("between", TokenKind::Between),
        ("by", TokenKind::By),
        ("commit", TokenKind::Commit),
        ("constraint", TokenKind::Constraint),
        ("count", TokenKind::Count),
        ("create", TokenKind::Create),
        ("do", TokenKind::Do),
        ("delete", TokenKind::Delete),
        ("else", TokenKind::Else),
        ("end", TokenKind::End),
        ("eventually", TokenKind::Eventually),
        ("for", TokenKind::For),
        ("foreign", TokenKind::Foreign),
        ("from", TokenKind::From),
        ("in", TokenKind::In),
        ("if", TokenKind::If),
        ("index", TokenKind::Index),
        ("init", TokenKind::Init),
        ("insert", TokenKind::Insert),
        ("into", TokenKind::Into),
        ("key", TokenKind::Key),
        ("never", TokenKind::Never),
        ("latch", TokenKind::Latch),
        ("let", TokenKind::Let),
        ("limit", TokenKind::Limit),
        ("offset", TokenKind::Offset),
        ("or", TokenKind::Or),
        ("order", TokenKind::Order),
        ("on", TokenKind::On),
        ("process", TokenKind::Process),
        ("property", TokenKind::Property),
        ("references", TokenKind::References),
        ("select", TokenKind::Select),
        ("set", TokenKind::SetKeyword),
        ("table", TokenKind::Table),
        ("transaction", TokenKind::Transaction),
        ("update", TokenKind::Update),
        ("unique", TokenKind::Unique),
        ("values", TokenKind::Values),
        ("where", TokenKind::Where),
    ]
}

/// A word that is none of the first `upto` keywords of the table, and is
/// the next one if there is a next one, has the kind that the table gives
/// that one; a word that is none of them all is an identifier.
pub proof fn lemma_keyword_table(word: Seq<char>, upto: int)
    requires
        0 <= upto <= 46,
        forall|k: int| 0 <= k < upto ==> word != (#[trigger] keyword_table()[k]).0@,
        upto < 46 ==> word == keyword_table()[upto].0@,
    ensures
        keyword(word) == if upto < 46 {
            keyword_table()[upto].1
        } else {
            TokenKind::Identifier
        },
{
    let t = keyword_table();
    assert(t[0].0@ == "abort"@ && t[1].0@ == "add"@ && t[2].0@ == "and"@ && t[3].0@ == "always"@
        && t[4].0@ == "alter"@ && t[5].0@ == "begin"@ && t[6].0@ == "between"@ && t[7].0@ == "by"@
        && t[8].0@ == "commit"@ && t[9].0@ == "constraint"@);
    assert(t[10].0@ == "count"@ && t[11].0@ == "create"@ && t[12].0@ == "do"@ && t[13].0@
        == "delete"@ && t[14].0@ == "else"@ && t[15].0@ == "end"@ && t[16].0@ == "eventually"@
        && t[17].0@ == "for"@ && t[18].0@ == "foreign"@ && t[19].0@ == "from"@);
    assert(t[20].0@ == "in"@ && t[21].0@ == "if"@ && t[22].0@ == "index"@ && t[23].0@ == "init"@
        && t[24].0@ == "insert"@ && t[25].0@ == "into"@ && t[26].0@ == "key"@ && t[27].0@
        == "never"@ && t[28].0@ == "latch"@ && t[29].0@ == "let"@);
    assert(t[30].0@ == "limit"@ && t[31].0@ == "offset"@ && t[32].0@ == "or"@ && t[33].0@
        == "order"@ && t[34].0@ == "on"@ && t[35].0@ == "process"@ && t[36].0@ == "property"@
        && t[37].0@ == "references"@ && t[38].0@ == "select"@ && t[39].0@ == "set"@);
    assert(t[40].0@ == "table"@ && t[41].0@ == "transaction"@ && t[42].0@ == "update"@ && t[43].0@
        == "unique"@ && t[44].0@ == "values"@ && t[45].0@ == "where"@);
}

} // verus!
