//! Reading the text of a model into its statements: the parser, each step
//! of which gives what the grammar states.

use crate::ast::{
    expr_models_of, fits, jump_fits, jumps_fit, names_of, select_items_of, sql_models_of,
    statements_of, ExprModel, Expression, IsolationLevel, Item, Mets, MetsModel, Operator,
    SelectItem, SelectItemModel, SqlExpression, SqlModel, SqlOperator, Statement, StatementModel,
    Variable,
};
use crate::grammar;
use crate::grammar::{Fault, KindModel, Read, Reader};
use crate::render::{kind_name, kind_text, token, token_text};
use crate::scanner::{Scanner, ScannerError, Token, TokenKind};
use vstd::prelude::*;
use vstd::string::*;

verus! {

/// Why a number could not be read.
#[derive(Clone, Copy, Debug, PartialEq, Eq, Structural)]
pub enum IntegerError {
    /// A character of the number is none of the digits from 0 to 9.
    InvalidDigit,
    /// The number is greater than the greatest 16-bit integer.
    Overflow,
}

/// Why a text could not be read as a model.
#[derive(Debug, PartialEq, Eq)]
pub enum ParserErrorKind {
    /// The select list mixes a count with what is no count.
    AggregateError(SelectItem),
    ParseInt(IntegerError),
    Scanner(ScannerError),
    Unexpected(String),
}

/// A failure to read a model: its kind, and the token at which reading stood.
#[derive(Debug, PartialEq, Eq)]
pub struct ParserError {
    pub current: Token,
    pub kind: ParserErrorKind,
}

impl From<ScannerError> for ParserErrorKind {
    fn from(value: ScannerError) -> (r: Self) {
        ParserErrorKind::Scanner(value)
    }
}

impl vstd::std_specs::convert::FromSpecImpl<ScannerError> for ParserErrorKind {
    open spec fn obeys_from_spec() -> bool {
        true
    }

    open spec fn from_spec(value: ScannerError) -> Self {
        ParserErrorKind::Scanner(value)
    }
}

impl From<IntegerError> for ParserErrorKind {
    fn from(value: IntegerError) -> (r: Self) {
        ParserErrorKind::ParseInt(value)
    }
}

impl vstd::std_specs::convert::FromSpecImpl<IntegerError> for ParserErrorKind {
    open spec fn obeys_from_spec() -> bool {
        true
    }

    open spec fn from_spec(value: IntegerError) -> Self {
        ParserErrorKind::ParseInt(value)
    }
}

impl View for ParserErrorKind {
    type V = KindModel;

    open spec fn view(&self) -> KindModel {
        match self {
            ParserErrorKind::AggregateError(item) => KindModel::AggregateError(item@),
            ParserErrorKind::ParseInt(e) => KindModel::ParseInt(*e),
            ParserErrorKind::Scanner(e) => KindModel::Scanner(e@),
            ParserErrorKind::Unexpected(message) => KindModel::Unexpected(message@),
        }
    }
}

impl View for ParserError {
    type V = Fault;

    open spec fn view(&self) -> Fault {
        Fault { current: self.current@, kind: self.kind@ }
    }
}

/// The outcome of a step of the parser.
pub type Res<T> = Result<T, ParserErrorKind>;

/// The outcome of a step of the parser that gives nothing.
pub type Unit = Res<()>;

/// The digit that a character stands for.
pub open spec fn digit_of(c: char) -> Option<int> {
    if '0' <= c && c <= '9' {
        Some(c as int - '0' as int)
    } else {
        None
    }
}

/// The number that the first `upto` characters spell in decimal digits.
pub open spec fn decimal(s: Seq<char>, upto: int) -> Option<int>
    decreases upto,
{
    if upto <= 0 || upto > s.len() {
        Some(0)
    } else {
        match (decimal(s, upto - 1), digit_of(s[upto - 1])) {
            (Some(v), Some(d)) => Some(v * 10 + d),
            _ => None,
        }
    }
}

/// Once a character is no digit, no longer text spells a number.
pub proof fn lemma_decimal_none(s: Seq<char>, at: int, upto: int)
    requires
        0 <= at <= upto <= s.len(),
        decimal(s, at).is_none(),
    ensures
        decimal(s, upto).is_none(),
    decreases upto - at,
{
    if at < upto {
        lemma_decimal_none(s, at, upto - 1);
    }
}

/// The 16-bit integer that the text spells in decimal digits.
pub fn parse_integer(lexeme: &String) -> (r: Result<i16, IntegerError>)
    ensures
        match r {
            Ok(v) => decimal(lexeme@, lexeme@.len() as int) == Some(v as int),
            Err(IntegerError::InvalidDigit) => decimal(lexeme@, lexeme@.len() as int).is_none(),
            Err(IntegerError::Overflow) => decimal(lexeme@, lexeme@.len() as int).is_some()
                && decimal(lexeme@, lexeme@.len() as int).unwrap() > 32767,
        },
        grammar::integer_of(lexeme@) == match r {
            Ok(v) => Ok::<int, IntegerError>(v as int),
            Err(e) => Err::<int, IntegerError>(e),
        },
{
    let text = lexeme.as_str();
    let n = text.unicode_len();
    let mut value: u32 = 0;
    let mut i: usize = 0;
    while i < n
        invariant
            i <= n,
            n == lexeme@.len(),
            text@ == lexeme@,
            value <= 32768,
            decimal(lexeme@, i as int).is_some(),
            value == if decimal(lexeme@, i as int).unwrap() > 32768 {
                32768
            } else {
                decimal(lexeme@, i as int).unwrap()
            },
            decimal(lexeme@, i as int).unwrap() >= 0,
        decreases n - i,
    {
        let c = text.get_char(i);
        if c < '0' || c > '9' {
            proof {
                assert(decimal(lexeme@, i + 1).is_none());
                lemma_decimal_none(lexeme@, i + 1, n as int);
            }
            return Err(IntegerError::InvalidDigit);
        }
        let d: u32 = c as u32 - '0' as u32;
        let next = value * 10 + d;
        value = if next > 32768 {
            32768
        } else {
            next
        };
        i += 1;
    }
    if value > 32767 {
        Err(IntegerError::Overflow)
    } else {
        Ok(value as i16)
    }
}

/// The failure that says what was expected.
fn unexpected(message: &str) -> (r: ParserErrorKind)
    ensures
        r == ParserErrorKind::Unexpected(r->Unexpected_0),
        r->Unexpected_0@ == message@,
        r@ == KindModel::Unexpected(message@),
{
    ParserErrorKind::Unexpected(String::from_str(message))
}

/// The failure that says what was expected and what kind of token stood
/// there.
fn unexpected_kind(message: &str, kind: TokenKind, tail: &str) -> (r: ParserErrorKind)
    ensures
        r@ == KindModel::Unexpected(message@ + kind_text(kind) + tail@),
{
    let mut text = String::from_str(message);
    text.append(kind_name(kind));
    text.append(tail);
    ParserErrorKind::Unexpected(text)
}

/// The failure that says what was expected and, behind that, what kind of
/// token stood there.
fn unexpected_got(message: &str, kind: TokenKind) -> (r: ParserErrorKind)
    ensures
        r@ == KindModel::Unexpected(message@ + kind_text(kind)),
{
    let mut text = String::from_str(message);
    text.append(kind_name(kind));
    ParserErrorKind::Unexpected(text)
}

/// The failure that says what was expected behind the given token.
fn unexpected_at(message: &str, at: &Token) -> (r: ParserErrorKind)
    ensures
        r@ == KindModel::Unexpected(token_text(at@, message@)),
{
    let mut text = String::from_str(message);
    token(&mut text, at);
    ParserErrorKind::Unexpected(text)
}

/// Whether one of the kinds is `kind`.
fn is_among(kinds: &Vec<TokenKind>, kind: TokenKind) -> (r: bool)
    ensures
        r == kinds@.contains(kind),
{
    let mut i: usize = 0;
    while i < kinds.len()
        invariant
            i <= kinds.len(),
            forall|k: int| 0 <= k < i ==> kinds@[k] != kind,
        decreases kinds.len() - i,
    {
        if kinds[i] == kind {
            return true;
        }
        i += 1;
    }
    false
}

/// Reads the text of a model, one token ahead.
pub struct Parser {
    pub scanner: Scanner,
    /// Whether the transaction block being read has ended its transaction
    /// itself.
    pub manual_commit: bool,
    /// The token read last.
    pub previous: Token,
    /// The token that reading goes on with.
    pub current: Token,
    /// What has been read so far.
    pub result: Mets,
}

impl View for Parser {
    type V = Reader;

    open spec fn view(&self) -> Reader {
        Reader {
            source: self.scanner.source@,
            place: self.scanner.current,
            previous: self.previous@,
            current: self.current@,
            manual_commit: self.manual_commit,
        }
    }
}

/// What a step of the parser has given, as the grammar states it: where the
/// parser stands now and what was read, or the failure at the token at
/// which the parser stands now.
pub open spec fn outcome<M>(after: &Parser, r: Result<M, KindModel>) -> Read<M> {
    match r {
        Ok(m) => Ok((after@, m)),
        Err(kind) => Err(Fault { current: after.current@, kind }),
    }
}

/// What a step that gives nothing has read.
pub open spec fn unit_read(r: Unit) -> Result<(), KindModel> {
    match r {
        Ok(_) => Ok(()),
        Err(e) => Err(e@),
    }
}

/// What a step that says whether it has read on has read.
pub open spec fn flag_read(r: Res<bool>) -> Result<bool, KindModel> {
    match r {
        Ok(found) => Ok(found),
        Err(e) => Err(e@),
    }
}

/// What a step that gives a name has read.
pub open spec fn name_read(r: Res<Variable>) -> Result<Seq<char>, KindModel> {
    match r {
        Ok(v) => Ok(v@),
        Err(e) => Err(e@),
    }
}

/// What a step that gives a list of names has read.
pub open spec fn names_read(r: Res<Vec<Variable>>) -> Result<Seq<Seq<char>>, KindModel> {
    match r {
        Ok(v) => Ok(names_of(v@)),
        Err(e) => Err(e@),
    }
}

/// What a step that gives an expression of the query language has read.
pub open spec fn sql_read(r: Res<SqlExpression>) -> Result<SqlModel, KindModel> {
    match r {
        Ok(v) => Ok(v@),
        Err(e) => Err(e@),
    }
}

/// What a step that gives a list of expressions of the query language has
/// read.
pub open spec fn sql_list_read(r: Res<Vec<SqlExpression>>) -> Result<Seq<SqlModel>, KindModel> {
    match r {
        Ok(v) => Ok(sql_models_of(v@)),
        Err(e) => Err(e@),
    }
}

/// What a step that gives an expression has read.
pub open spec fn expr_read(r: Res<Expression>) -> Result<ExprModel, KindModel> {
    match r {
        Ok(v) => Ok(v@),
        Err(e) => Err(e@),
    }
}

/// What a step that gives what a select item names has read.
pub open spec fn item_read(r: Res<Item>) -> Result<crate::ast::ItemModel, KindModel> {
    match r {
        Ok(v) => Ok(v@),
        Err(e) => Err(e@),
    }
}

/// What a step that gives an entry of a select list has read.
pub open spec fn entry_read(r: Res<SelectItem>) -> Result<SelectItemModel, KindModel> {
    match r {
        Ok(v) => Ok(v@),
        Err(e) => Err(e@),
    }
}

/// What a step that gives a select list has read.
pub open spec fn entries_read(r: Res<Vec<SelectItem>>) -> Result<Seq<SelectItemModel>, KindModel> {
    match r {
        Ok(v) => Ok(select_items_of(v@)),
        Err(e) => Err(e@),
    }
}

/// What a step that gives an expression of the query language, where one
/// stands, has read.
pub open spec fn opt_sql_read(r: Res<Option<Box<SqlExpression>>>) -> Result<
    Option<Box<SqlModel>>,
    KindModel,
> {
    match r {
        Ok(v) => Ok(crate::ast::sql_opt_model_of(v)),
        Err(e) => Err(e@),
    }
}

/// What a step that gives a number, where one stands, has read.
pub open spec fn opt_int_read(r: Res<Option<i16>>) -> Result<Option<int>, KindModel> {
    match r {
        Ok(v) => Ok(crate::ast::opt_int(v)),
        Err(e) => Err(e@),
    }
}

/// What a step that gives two names has read.
pub open spec fn pair_read(r: Res<(Variable, Variable)>) -> Result<
    (Seq<char>, Seq<char>),
    KindModel,
> {
    match r {
        Ok(v) => Ok((v.0@, v.1@)),
        Err(e) => Err(e@),
    }
}

/// What a step that adds statements to a list has read: the list as it is
/// now.
pub open spec fn code_read(r: Unit, writer: Seq<Statement>) -> Result<
    Seq<StatementModel>,
    KindModel,
> {
    match r {
        Ok(_) => Ok(statements_of(writer)),
        Err(e) => Err(e@),
    }
}

/// Where a text can be read on to a token of the kind that lies ahead, over
/// line breaks, reading on over line breaks gets to that token.
pub proof fn lemma_skip_ahead(p: Reader, kind: TokenKind)
    requires
        grammar::kind_ahead(p.source, p.place, p.current.kind) == Ok::<
            TokenKind,
            crate::scanner::ScannerErrorModel,
        >(kind),
        kind != TokenKind::Eof,
    ensures
        grammar::skip_newlines(p) is Ok,
        grammar::skip_newlines(p)->Ok_0.0.current.kind == kind,
        grammar::held(p, grammar::skip_newlines(p)->Ok_0.0),
    decreases p.source.len() - p.place.index,
{
    reveal(grammar::advance);
    reveal(grammar::skip_newlines);
    if p.current.kind == TokenKind::Newline {
        let q = grammar::advance(p)->Ok_0.0;
        lemma_skip_ahead(q, kind);
    }
}

/// A list of the two kinds.
fn two(a: TokenKind, b: TokenKind) -> (r: Vec<TokenKind>)
    ensures
        r@ == seq![a, b],
        forall|k: TokenKind| r@.contains(k) ==> k == a || k == b,
{
    let mut kinds: Vec<TokenKind> = Vec::new();
    kinds.push(a);
    kinds.push(b);
    proof {
        lemma_two(kinds@);
        assert(kinds@ =~= seq![a, b]);
    }
    kinds
}

/// A list of the three kinds.
fn three(a: TokenKind, b: TokenKind, c: TokenKind) -> (r: Vec<TokenKind>)
    ensures
        r@ == seq![a, b, c],
        forall|k: TokenKind| r@.contains(k) ==> k == a || k == b || k == c,
{
    let mut kinds: Vec<TokenKind> = Vec::new();
    kinds.push(a);
    kinds.push(b);
    kinds.push(c);
    proof {
        lemma_three(kinds@);
        assert(kinds@ =~= seq![a, b, c]);
    }
    kinds
}

/// A list of the four kinds.
fn four(a: TokenKind, b: TokenKind, c: TokenKind, d: TokenKind) -> (r: Vec<TokenKind>)
    ensures
        r@ == seq![a, b, c, d],
        forall|k: TokenKind| r@.contains(k) ==> k == a || k == b || k == c || k == d,
{
    let mut kinds: Vec<TokenKind> = Vec::new();
    kinds.push(a);
    kinds.push(b);
    kinds.push(c);
    kinds.push(d);
    proof {
        lemma_four(kinds@);
        assert(kinds@ =~= seq![a, b, c, d]);
    }
    kinds
}

/// What a step that gives the name of a transaction, where it has one, has
/// read.
pub open spec fn opt_name_read(r: Res<Option<Variable>>) -> Result<Option<Seq<char>>, KindModel> {
    match r {
        Ok(v) => Ok(crate::ast::opt_name(v)),
        Err(e) => Err(e@),
    }
}

/// What a step that gives a block has read.
pub open spec fn block_read(r: Res<Vec<Statement>>) -> Result<Seq<StatementModel>, KindModel> {
    match r {
        Ok(v) => Ok(statements_of(v@)),
        Err(e) => Err(e@),
    }
}

/// What a step that adds to the model has read: the model as it is now.
pub open spec fn mets_read(r: Unit, result: &Mets) -> Result<MetsModel, KindModel> {
    match r {
        Ok(_) => Ok(result@),
        Err(e) => Err(e@),
    }
}

/// Whether the text names the isolation level.
fn is_level(text: &String) -> (r: bool)
    ensures
        r == (text@ == grammar::level_text()),
{
    *text == String::from_str("read_committed")
}

/// Adds a statement that is no jump to a list.
fn put(writer: &mut Vec<Statement>, statement: Statement)
    requires
        !(statement is If),
        !(statement is Else),
    ensures
        final(writer)@ == old(writer)@.push(statement),
        statements_of(final(writer)@) == statements_of(old(writer)@).push(statement@),
        grown(old(writer)@, final(writer)@),
{
    let ghost had = writer@;
    let ghost added = statement@;
    writer.push(statement);
    proof {
        assert(statements_of(writer@) =~= statements_of(had).push(added));
    }
}

/// Whether a step of the parser has left it in order and has not moved it
/// backwards.
pub open spec fn steady(before: &Parser, after: &Parser) -> bool {
    after.wf() && after.remaining() <= before.remaining()
}

/// Whether a step of the parser has left it in order and has moved it
/// forwards.
pub open spec fn consumed(before: &Parser, after: &Parser) -> bool {
    after.wf() && after.remaining() < before.remaining()
}

/// Whether a list of statements has grown at its end, by statements whose
/// jumps stay within the list.
pub open spec fn grown(before: Seq<Statement>, after: Seq<Statement>) -> bool {
    &&& after.len() >= before.len()
    &&& forall|k: int| 0 <= k < before.len() ==> #[trigger] after[k] == before[k]
    &&& forall|k: int|
        before.len() <= k < after.len() ==> jump_fits(#[trigger] after[k], k, after.len() as int)
}

/// A list that has grown twice has grown.
pub proof fn lemma_grown_twice(a: Seq<Statement>, b: Seq<Statement>, c: Seq<Statement>)
    requires
        grown(a, b),
        grown(b, c),
    ensures
        grown(a, c),
{
    assert forall|k: int| a.len() <= k < c.len() implies jump_fits(
        #[trigger] c[k],
        k,
        c.len() as int,
    ) by {
        if k < b.len() {
            assert(c[k] == b[k]);
            assert(jump_fits(b[k], k, b.len() as int));
        }
    }
}

impl Parser {
    /// Whether the parser is in order: its scanner is, and once the token
    /// that stands for the end of the text is reached, the text is read.
    pub open spec fn wf(&self) -> bool {
        &&& self.scanner.wf()
        &&& (self.current.kind == TokenKind::Eof ==> self.scanner.current.index
            == self.scanner.length)
    }

    /// How much is left to read: the characters not yet read, and the
    /// token that reading goes on with unless it stands for the end.
    pub open spec fn remaining(&self) -> nat {
        self@.left()
    }

    /// A parser at the start of `source`; no token has been read yet.
    pub fn new(source: String) -> (r: Parser)
        ensures
            r.wf(),
            r.scanner.source@ == source@,
            r.result.init@.len() == 0,
            r.result.processes@.len() == 0,
            r.result.properties@.len() == 0,
            fits(&r.result),
            r@ == grammar::start(source@),
            r.result@ == grammar::blank(),
    {
        let r = Parser {
            scanner: Scanner::new(source),
            manual_commit: false,
            previous: Token::uninitialized(),
            current: Token::uninitialized(),
            result: Mets { init: Vec::new(), processes: Vec::new(), properties: Vec::new() },
        };
        proof {
            assert(r.result@.init =~= grammar::blank().init);
            assert(r.result@.processes =~= grammar::blank().processes);
            assert(r.result@.properties =~= grammar::blank().properties);
        }
        r
    }

    /// Reads the whole text and gives the model; where the text is no
    /// model, the failure with the token at which reading stood.
    pub fn compile(self) -> (r: Result<Mets, Box<ParserError>>)
        requires
            self.wf(),
            fits(&self.result),
        ensures
            r.is_ok() ==> fits(&r.unwrap()),
            match r {
                Ok(mets) => grammar::text(self@, self.result@) is Ok && grammar::text(
                    self@,
                    self.result@,
                )->Ok_0.1 == mets@,
                Err(e) => grammar::text(self@, self.result@) == Err::<(Reader, MetsModel), Fault>(
                    (*e)@,
                ),
            },
    {
        let mut parser = self;
        match parser.private_compile() {
            Ok(_) => Ok(parser.result),
            Err(kind) => Err(Box::new(ParserError { current: parser.current, kind })),
        }
    }

    /// Reads declarations until the text ends.
    #[verifier::spinoff_prover]
    pub fn private_compile(&mut self) -> (r: Unit)
        requires
            old(self).wf(),
            fits(&old(self).result),
        ensures
            steady(old(self), final(self)),
            r.is_ok() ==> fits(&final(self).result),
            grammar::text(old(self)@, old(self).result@) == outcome(
                final(self),
                mets_read(r, &final(self).result),
            ),
    {
        reveal(grammar::text);
        reveal(grammar::declarations);
        self.advance()?;
        self.skip_newlines()?;
        loop
            invariant
                self.wf(),
                fits(&self.result),
                self.remaining() <= old(self).remaining(),
                grammar::text(old(self)@, old(self).result@) == grammar::declarations(
                    self@,
                    self.result@,
                ),
            decreases self.remaining(),
        {
            reveal(grammar::declarations);
            if self.check(TokenKind::Eof) {
                return self.consume(TokenKind::Eof, "Expected end of expression");
            }
            self.declaration()?;
        }
    }

    /// Reads the next token: the token read last is the one that reading
    /// went on with.
    #[verifier::spinoff_prover]
    pub fn advance(&mut self) -> (r: Unit)
        requires
            old(self).wf(),
        ensures
            steady(old(self), final(self)),
            r.is_ok() && old(self).current.kind != TokenKind::Eof ==> consumed(
                old(self),
                final(self),
            ),
            r.is_ok() ==> final(self).previous == old(self).current,
            final(self).manual_commit == old(self).manual_commit,
            final(self).result == old(self).result,
            grammar::advance(old(self)@) == outcome(final(self), unit_read(r)),
    {
        reveal(grammar::advance);
        match self.scanner.scan_token() {
            Ok(token) => {
                core::mem::swap(&mut self.previous, &mut self.current);
                self.current = token;
                Ok(())
            },
            Err(e) => Err(ParserErrorKind::from(e)),
        }
    }

    /// Whether reading goes on with a token of the kind.
    pub fn check(&self, kind: TokenKind) -> (r: bool)
        ensures
            r == (self.current.kind == kind),
    {
        self.current.kind == kind
    }

    /// Reads on if reading goes on with a token of the kind, and says
    /// whether it did.
    pub fn matches(&mut self, kind: TokenKind) -> (r: Res<bool>)
        requires
            old(self).wf(),
            kind != TokenKind::Eof,
        ensures
            steady(old(self), final(self)),
            r == Ok::<bool, ParserErrorKind>(true) ==> consumed(old(self), final(self))
                && final(self).previous.kind == kind,
            r == Ok::<bool, ParserErrorKind>(false) ==> *final(self) == *old(self),
            final(self).manual_commit == old(self).manual_commit,
            final(self).result == old(self).result,
            grammar::matches(old(self)@, kind) == outcome(final(self), flag_read(r)),
    {
        if self.current.kind == kind {
            self.advance()?;
            Ok(true)
        } else {
            Ok(false)
        }
    }

    /// Reads on if reading goes on with a token of one of the kinds, and
    /// says whether it did.
    pub fn matches_within(&mut self, kinds: &Vec<TokenKind>) -> (r: Res<bool>)
        requires
            old(self).wf(),
            !kinds@.contains(TokenKind::Eof),
        ensures
            steady(old(self), final(self)),
            r == Ok::<bool, ParserErrorKind>(true) ==> consumed(old(self), final(self))
                && kinds@.contains(final(self).previous.kind),
            r == Ok::<bool, ParserErrorKind>(false) ==> *final(self) == *old(self),
            final(self).manual_commit == old(self).manual_commit,
            final(self).result == old(self).result,
            grammar::matches_within(old(self)@, kinds@) == outcome(final(self), flag_read(r)),
    {
        if is_among(kinds, self.current.kind) {
            self.advance()?;
            Ok(true)
        } else {
            Ok(false)
        }
    }

    /// The kind of the first token that is no line break, from the token
    /// that reading goes on with; the end of the text where only line
    /// breaks are left.
    fn kind_ahead(&self) -> (r: Res<TokenKind>)
        requires
            self.wf(),
        ensures
            match r {
                Ok(kind) => grammar::kind_ahead(self@.source, self@.place, self@.current.kind)
                    == Ok::<TokenKind, crate::scanner::ScannerErrorModel>(kind),
                Err(e) => e@ is Scanner && grammar::kind_ahead(
                    self@.source,
                    self@.place,
                    self@.current.kind,
                ) == Err::<TokenKind, crate::scanner::ScannerErrorModel>(e@->Scanner_0),
            },
    {
        let mut ahead = self.scanner.clone();
        let mut kind = self.current.kind;
        loop
            invariant
                ahead.wf(),
                ahead.source@ == self.scanner.source@,
                grammar::kind_ahead(self@.source, self@.place, self@.current.kind)
                    == grammar::kind_ahead(ahead.source@, ahead.current, kind),
            decreases ahead.length - ahead.current.index,
        {
            if kind != TokenKind::Newline {
                return Ok(kind);
            }
            match ahead.scan_token() {
                Ok(token) => {
                    if token.kind == TokenKind::Eof {
                        return Ok(TokenKind::Eof);
                    }
                    kind = token.kind;
                },
                Err(e) => {
                    return Err(ParserErrorKind::Scanner(e));
                },
            }
        }
    }

    /// Reads on, over line breaks, if the next token that is no line break
    /// is of the kind, and says whether it did.
    pub fn matches_forward(&mut self, kind: TokenKind) -> (r: Res<bool>)
        requires
            old(self).wf(),
            kind != TokenKind::Eof,
            kind != TokenKind::Newline,
        ensures
            steady(old(self), final(self)),
            r == Ok::<bool, ParserErrorKind>(true) ==> consumed(old(self), final(self))
                && final(self).previous.kind == kind,
            r == Ok::<bool, ParserErrorKind>(false) ==> *final(self) == *old(self),
            final(self).manual_commit == old(self).manual_commit,
            final(self).result == old(self).result,
            grammar::matches_forward(old(self)@, kind) == outcome(final(self), flag_read(r)),
    {
        let mut kinds: Vec<TokenKind> = Vec::new();
        kinds.push(kind);
        proof {
            assert(kinds@ =~= seq![kind]);
            assert forall|k: TokenKind| kinds@.contains(k) implies k == kind by {
                let i = choose|i: int| 0 <= i < kinds@.len() && kinds@[i] == k;
            }
        }
        self.matches_forward_within(&kinds)
    }

    /// Reads on, over line breaks, if the next token that is no line break
    /// is of one of the kinds, and says whether it did.
    #[verifier::spinoff_prover]
    pub fn matches_forward_within(&mut self, kinds: &Vec<TokenKind>) -> (r: Res<bool>)
        requires
            old(self).wf(),
            !kinds@.contains(TokenKind::Eof),
            !kinds@.contains(TokenKind::Newline),
        ensures
            steady(old(self), final(self)),
            r == Ok::<bool, ParserErrorKind>(true) ==> consumed(old(self), final(self))
                && kinds@.contains(final(self).previous.kind),
            r == Ok::<bool, ParserErrorKind>(false) ==> *final(self) == *old(self),
            final(self).manual_commit == old(self).manual_commit,
            final(self).result == old(self).result,
            grammar::matches_forward_within(old(self)@, kinds@) == outcome(
                final(self),
                flag_read(r),
            ),
    {
        reveal(grammar::matches_forward_within);
        let kind = self.kind_ahead()?;
        if is_among(kinds, kind) {
            proof {
                lemma_skip_ahead(self@, kind);
            }
            self.skip_newlines()?;
            self.advance()?;
            Ok(true)
        } else {
            Ok(false)
        }
    }

    /// Reads on if reading goes on with a token of the kind; fails with what
    /// was expected otherwise.
    pub fn consume(&mut self, kind: TokenKind, expected: &str) -> (r: Unit)
        requires
            old(self).wf(),
        ensures
            steady(old(self), final(self)),
            r.is_ok() && kind != TokenKind::Eof ==> consumed(old(self), final(self)),
            r.is_ok() ==> final(self).previous.kind == kind,
            final(self).manual_commit == old(self).manual_commit,
            final(self).result == old(self).result,
            grammar::consume(old(self)@, kind, expected@) == outcome(final(self), unit_read(r)),
    {
        if self.current.kind == kind {
            self.advance()
        } else {
            Err(unexpected(expected))
        }
    }

    /// Reads a declaration: the setup, a process or a property.
    #[verifier::spinoff_prover]
    pub fn declaration(&mut self) -> (r: Unit)
        requires
            old(self).wf(),
            old(self).current.kind != TokenKind::Eof,
            fits(&old(self).result),
        ensures
            steady(old(self), final(self)),
            r.is_ok() ==> fits(&final(self).result),
            r.is_ok() ==> consumed(old(self), final(self)),
            grammar::declaration(old(self)@, old(self).result@) == outcome(
                final(self),
                mets_read(r, &final(self).result),
            ),
    {
        reveal(grammar::declaration);
        if self.matches(TokenKind::Process)? {
            self.process_declaration()
        } else if self.matches(TokenKind::Init)? {
            self.init_declaration()
        } else if self.matches(TokenKind::Property)? {
            self.property_declaration()
        } else if self.check(TokenKind::Always) || self.check(TokenKind::Never) || self.check(
            TokenKind::Eventually,
        ) {
            self.property_declaration()
        } else {
            Err(
                unexpected_kind(
                    "Expected either process, init or property. Parsed ",
                    self.current.kind,
                    " instead",
                ),
            )
        }
    }

    /// Reads statements up to the word that ends a block.
    #[verifier::spinoff_prover]
    fn block(&mut self, writer: &mut Vec<Statement>) -> (r: Unit)
        requires
            old(self).wf(),
        ensures
            steady(old(self), final(self)),
            final(self).result == old(self).result,
            r.is_ok() ==> grown(old(writer)@, final(writer)@),
            r.is_ok() ==> final(self).current.kind == TokenKind::End,
            grammar::block(old(self)@, statements_of(old(writer)@)) == outcome(
                final(self),
                code_read(r, final(writer)@),
            ),
    {
        let ghost base = writer@;
        loop
            invariant
                self.wf(),
                self.result == old(self).result,
                self.remaining() <= old(self).remaining(),
                base == old(writer)@,
                grown(base, writer@),
                grammar::block(old(self)@, statements_of(old(writer)@)) == grammar::block(
                    self@,
                    statements_of(writer@),
                ),
            decreases self.remaining(),
        {
            reveal(grammar::block);
            if self.check(TokenKind::End) {
                return Ok(());
            }
            let ghost middle = writer@;
            self.statement(writer)?;
            proof {
                lemma_grown_twice(base, middle, writer@);
            }
        }
    }

    /// Reads the block of a declaration: `do`, the end of the line, the
    /// statements, `end` and the end of the line.
    #[verifier::spinoff_prover]
    fn declared_block(&mut self, open: &str, line: &str, close: &str) -> (r: Res<Vec<Statement>>)
        requires
            old(self).wf(),
        ensures
            steady(old(self), final(self)),
            final(self).result == old(self).result,
            r.is_ok() ==> consumed(old(self), final(self)),
            r.is_ok() ==> jumps_fit(r.unwrap()@),
            grammar::declared_block(old(self)@, open@, line@, close@) == outcome(
                final(self),
                block_read(r),
            ),
    {
        reveal(grammar::declared_block);
        self.consume(TokenKind::Do, open)?;
        self.consume(TokenKind::Newline, line)?;
        let mut statements: Vec<Statement> = Vec::new();
        assert(statements_of(statements@) =~= Seq::empty());
        self.block(&mut statements)?;
        proof {
            assert forall|k: int| 0 <= k < statements@.len() implies jump_fits(
                #[trigger] statements@[k],
                k,
                statements@.len() as int,
            ) by {}
        }
        self.consume(TokenKind::End, close)?;
        self.end_line()?;
        Ok(statements)
    }

    /// Reads the block that sets the model up.
    #[verifier::spinoff_prover]
    pub fn init_declaration(&mut self) -> (r: Unit)
        requires
            old(self).wf(),
            fits(&old(self).result),
        ensures
            steady(old(self), final(self)),
            r.is_ok() ==> fits(&final(self).result),
            r.is_ok() ==> consumed(old(self), final(self)),
            grammar::init_declaration(old(self)@, old(self).result@) == outcome(
                final(self),
                mets_read(r, &final(self).result),
            ),
    {
        reveal(grammar::init_declaration);
        let statements = self.declared_block(
            "Expected do after init declaration",
            "Expected newline after init declaration",
            "Expected end at the end of init declaration",
        )?;
        self.result.init = statements;
        Ok(())
    }

    /// Reads the block of a process.
    #[verifier::spinoff_prover]
    pub fn process_declaration(&mut self) -> (r: Unit)
        requires
            old(self).wf(),
            fits(&old(self).result),
        ensures
            steady(old(self), final(self)),
            r.is_ok() ==> fits(&final(self).result),
            r.is_ok() ==> consumed(old(self), final(self)),
            grammar::process_declaration(old(self)@, old(self).result@) == outcome(
                final(self),
                mets_read(r, &final(self).result),
            ),
    {
        reveal(grammar::process_declaration);
        let statements = self.declared_block(
            "Expected do after process declaration",
            "Expected newline after process declaration",
            "Expected end at the end of process declaration",
        )?;
        let ghost had = self.result.processes@;
        let ghost code = statements@;
        self.result.processes.push(statements);
        proof {
            assert forall|i: int| 0 <= i < self.result.processes@.len() implies jumps_fit(
                (#[trigger] self.result.processes@[i])@,
            ) by {
                if i < had.len() {
                    assert(self.result.processes@[i] == had[i]);
                }
            }
            assert(self.result@.processes =~= old(self).result@.processes.push(
                statements_of(code),
            ));
        }
        Ok(())
    }

    /// Reads the end of a line, and the empty lines after it.
    #[verifier::spinoff_prover]
    pub fn end_line(&mut self) -> (r: Unit)
        requires
            old(self).wf(),
        ensures
            steady(old(self), final(self)),
            final(self).manual_commit == old(self).manual_commit,
            final(self).result == old(self).result,
            grammar::end_line(old(self)@) == outcome(final(self), unit_read(r)),
    {
        reveal(grammar::skip_newlines);
        if self.current.kind != TokenKind::Eof {
            self.consume(TokenKind::Newline, "Expected newline after declaration")?;
        }
        self.skip_newlines()
    }

    /// Reads a property.
    #[verifier::spinoff_prover]
    pub fn property_declaration(&mut self) -> (r: Unit)
        requires
            old(self).wf(),
            fits(&old(self).result),
        ensures
            steady(old(self), final(self)),
            r.is_ok() ==> fits(&final(self).result),
            r.is_ok() ==> consumed(old(self), final(self)),
            grammar::property_declaration(old(self)@, old(self).result@) == outcome(
                final(self),
                mets_read(r, &final(self).result),
            ),
    {
        reveal(grammar::property_declaration);
        let mut statements: Vec<Statement> = Vec::new();
        assert(statements_of(statements@) =~= Seq::empty());
        self.statement(&mut statements)?;
        assert(statements_of(statements@)[0] == statements@[0]@);
        let property = statements.remove(0);
        let ghost had = self.result.properties@;
        let ghost added = property@;
        self.result.properties.push(property);
        proof {
            assert(statements_of(self.result.properties@) =~= statements_of(had).push(added));
        }
        Ok(())
    }

    /// Reads a statement with the end of its line, and adds what it stands
    /// for to `writer`.
    #[verifier::spinoff_prover]
    pub fn statement(&mut self, writer: &mut Vec<Statement>) -> (r: Unit)
        requires
            old(self).wf(),
        ensures
            steady(old(self), final(self)),
            final(self).result == old(self).result,
            r.is_ok() ==> consumed(old(self), final(self)),
            r.is_ok() ==> grown(old(writer)@, final(writer)@),
            r.is_ok() ==> final(writer)@.len() > old(writer)@.len(),
            grammar::statement(old(self)@, statements_of(old(writer)@)) == outcome(
                final(self),
                code_read(r, final(writer)@),
            ),
        decreases old(self).remaining(), 20nat,
    {
        reveal(grammar::statement);
        reveal(grammar::body);
        self.statement_body(writer)?;
        self.end_line()
    }

    /// Reads a statement without the end of its line.
    #[verifier::spinoff_prover]
    fn statement_body(&mut self, writer: &mut Vec<Statement>) -> (r: Unit)
        requires
            old(self).wf(),
        ensures
            steady(old(self), final(self)),
            final(self).result == old(self).result,
            r.is_ok() ==> consumed(old(self), final(self)),
            r.is_ok() ==> grown(old(writer)@, final(writer)@),
            r.is_ok() ==> final(writer)@.len() > old(writer)@.len(),
            grammar::body(old(self)@, statements_of(old(writer)@)) == outcome(
                final(self),
                code_read(r, final(writer)@),
            ),
        decreases old(self).remaining(), 19nat,
    {
        reveal(grammar::body);
        reveal(grammar::transaction_statement);
        reveal(grammar::if_statement);
        if self.matches(TokenKind::Let)? {
            self.assignment_statement(writer)
        } else if self.matches(TokenKind::Transaction)? {
            self.transaction_statement(writer)
        } else if self.matches(TokenKind::Begin)? {
            self.begin_statement(writer)
        } else if self.matches(TokenKind::Commit)? {
            self.commit_statement(writer)
        } else if self.matches(TokenKind::If)? {
            self.if_statement(writer)
        } else if self.matches(TokenKind::Else)? {
            self.else_statement(writer)
        } else if self.matches(TokenKind::Abort)? {
            self.abort_statement(writer)
        } else if self.matches(TokenKind::Latch)? {
            self.latch_statement(writer)
        } else if self.matches(TokenKind::Always)? {
            self.always_statement(writer)
        } else if self.matches(TokenKind::Never)? {
            self.never_statement(writer)
        } else if self.matches(TokenKind::Eventually)? {
            self.eventually_statement(writer)
        } else {
            self.expression_statement(writer)
        }
    }

    /// Reads the assignment after `let`.
    #[verifier::spinoff_prover]
    pub fn assignment_statement(&mut self, writer: &mut Vec<Statement>) -> (r: Unit)
        requires
            old(self).wf(),
        ensures
            steady(old(self), final(self)),
            final(self).result == old(self).result,
            r.is_ok() ==> consumed(old(self), final(self)),
            r.is_ok() ==> grown(old(writer)@, final(writer)@),
            r.is_ok() ==> final(writer)@.len() > old(writer)@.len(),
            grammar::assignment_statement(old(self)@, statements_of(old(writer)@)) == outcome(
                final(self),
                code_read(r, final(writer)@),
            ),
    {
        reveal(grammar::assignment_statement);
        let expr = self.assignment()?;
        put(writer, Statement::Expression(expr));
        Ok(())
    }

    /// Reads the isolation level of a transaction block, `do` and the end of
    /// the line.
    #[verifier::spinoff_prover]
    fn level(&mut self, tx_name: Option<Variable>) -> (r: Res<Option<Variable>>)
        requires
            old(self).wf(),
        ensures
            steady(old(self), final(self)),
            final(self).result == old(self).result,
            final(self).manual_commit == old(self).manual_commit,
            grammar::level(old(self)@, crate::ast::opt_name(tx_name)) == outcome(
                final(self),
                opt_name_read(r),
            ),
    {
        reveal(grammar::level);
        if is_level(&self.previous.lexeme) {
            self.consume(TokenKind::Do, "Expected block after transaction statement")?;
            self.end_line()?;
            Ok(tx_name)
        } else {
            Err(unexpected("Expected following isolation level: read_committed"))
        }
    }

    /// Reads the head of a transaction block: the name of the transaction,
    /// if it has one, the isolation level, `do` and the end of the line.
    #[verifier::spinoff_prover]
    fn transaction_head(&mut self) -> (r: Res<Option<Variable>>)
        requires
            old(self).wf(),
        ensures
            steady(old(self), final(self)),
            final(self).result == old(self).result,
            final(self).manual_commit == old(self).manual_commit,
            r.is_ok() ==> consumed(old(self), final(self)),
            grammar::transaction_head(old(self)@) == outcome(final(self), opt_name_read(r)),
    {
        reveal(grammar::transaction_head);
        let first = self.parse_variable("Expected transaction name or transaction level")?;
        if is_level(&first.name) {
            self.level(None)
        } else {
            self.consume(TokenKind::Identifier, "Expected isolation level after transaction name")?;
            self.level(Some(first))
        }
    }

    /// Reads a transaction block: a begin, the statements of the block, and
    /// a commit unless the block has ended the transaction itself.
    #[verifier::spinoff_prover]
    pub fn transaction_statement(&mut self, writer: &mut Vec<Statement>) -> (r: Unit)
        requires
            old(self).wf(),
        ensures
            steady(old(self), final(self)),
            final(self).result == old(self).result,
            r.is_ok() ==> consumed(old(self), final(self)),
            r.is_ok() ==> grown(old(writer)@, final(writer)@),
            r.is_ok() ==> final(writer)@.len() > old(writer)@.len(),
            grammar::transaction_statement(old(self)@, statements_of(old(writer)@)) == outcome(
                final(self),
                code_read(r, final(writer)@),
            ),
        decreases old(self).remaining(), 22nat,
    {
        reveal(grammar::transaction_statement);
        reveal(grammar::transaction_block);
        let tx_name = self.transaction_head()?;
        let ghost had = writer@;
        put(writer, Statement::Begin(IsolationLevel::ReadCommitted, tx_name));
        self.manual_commit = false;
        let ghost middle = writer@;
        let r = self.transaction_block(writer);
        proof {
            if r.is_ok() {
                lemma_grown_twice(had, middle, writer@);
            }
        }
        r
    }

    /// Reads the statements of a transaction block up to `end`, and adds a
    /// commit unless the block has ended the transaction itself.
    #[verifier::spinoff_prover]
    fn transaction_block(&mut self, writer: &mut Vec<Statement>) -> (r: Unit)
        requires
            old(self).wf(),
        ensures
            steady(old(self), final(self)),
            final(self).result == old(self).result,
            r.is_ok() ==> consumed(old(self), final(self)),
            r.is_ok() ==> grown(old(writer)@, final(writer)@),
            grammar::transaction_block(old(self)@, statements_of(old(writer)@)) == outcome(
                final(self),
                code_read(r, final(writer)@),
            ),
        decreases old(self).remaining(), 21nat,
    {
        let ghost base = writer@;
        loop
            invariant
                self.wf(),
                self.result == old(self).result,
                self.remaining() <= old(self).remaining(),
                base == old(writer)@,
                grown(base, writer@),
                grammar::transaction_block(old(self)@, statements_of(old(writer)@))
                    == grammar::transaction_block(self@, statements_of(writer@)),
            decreases self.remaining(),
        {
            reveal(grammar::transaction_block);
            reveal(grammar::statement);
            if self.check(TokenKind::End) {
                self.consume(TokenKind::End, "Expected to close transaction block")?;
                if !self.manual_commit {
                    let ghost middle = writer@;
                    put(writer, Statement::Commit);
                    proof {
                        lemma_grown_twice(base, middle, writer@);
                    }
                }
                return Ok(());
            }
            let ghost middle = writer@;
            self.statement(writer)?;
            proof {
                lemma_grown_twice(base, middle, writer@);
            }
        }
    }

    /// Reads a name.
    pub fn parse_variable(&mut self, expected: &str) -> (r: Res<Variable>)
        requires
            old(self).wf(),
        ensures
            steady(old(self), final(self)),
            r.is_ok() ==> consumed(old(self), final(self)),
            final(self).manual_commit == old(self).manual_commit,
            final(self).result == old(self).result,
            grammar::name(old(self)@, expected@) == outcome(final(self), name_read(r)),
    {
        self.consume(TokenKind::Identifier, expected)?;
        Ok(self.make_variable())
    }

    /// Reads the isolation level after `begin`.
    #[verifier::spinoff_prover]
    pub fn begin_statement(&mut self, writer: &mut Vec<Statement>) -> (r: Unit)
        requires
            old(self).wf(),
        ensures
            steady(old(self), final(self)),
            final(self).result == old(self).result,
            r.is_ok() ==> consumed(old(self), final(self)),
            r.is_ok() ==> grown(old(writer)@, final(writer)@),
            r.is_ok() ==> final(writer)@.len() > old(writer)@.len(),
            grammar::begin_statement(old(self)@, statements_of(old(writer)@)) == outcome(
                final(self),
                code_read(r, final(writer)@),
            ),
    {
        reveal(grammar::begin_statement);
        self.consume(TokenKind::Identifier, "Expected isolation level after begin")?;
        if is_level(&self.previous.lexeme) {
            put(writer, Statement::Begin(IsolationLevel::ReadCommitted, None));
            Ok(())
        } else {
            Err(unexpected("Expected following isolation level: read_committed"))
        }
    }

    /// Adds a commit.
    pub fn commit_statement(&mut self, writer: &mut Vec<Statement>) -> (r: Unit)
        requires
            old(self).wf(),
        ensures
            steady(old(self), final(self)),
            final(self).result == old(self).result,
            r.is_ok() ==> grown(old(writer)@, final(writer)@),
            r.is_ok() ==> final(writer)@.len() > old(writer)@.len(),
            grammar::commit_statement(old(self)@, statements_of(old(writer)@)) == outcome(
                final(self),
                code_read(r, final(writer)@),
            ),
    {
        put(writer, Statement::Commit);
        self.manual_commit = true;
        Ok(())
    }

    /// Reads the condition of a conditional, `do` and the end of the line.
    #[verifier::spinoff_prover]
    fn if_head(&mut self) -> (r: Res<Expression>)
        requires
            old(self).wf(),
        ensures
            steady(old(self), final(self)),
            final(self).result == old(self).result,
            r.is_ok() ==> consumed(old(self), final(self)),
            grammar::if_head(old(self)@) == outcome(final(self), expr_read(r)),
    {
        reveal(grammar::if_head);
        let expr = self.expression()?;
        self.consume(TokenKind::Do, "Expected do token after if condition")?;
        self.end_line()?;
        Ok(expr)
    }

    /// Reads a conditional: the condition, the statements to run where it
    /// holds and, after `else`, those to run where it does not. The `If`
    /// says how far to move to get behind the first, the `Else` how far to
    /// move to get behind the second.
    #[verifier::spinoff_prover]
    pub fn if_statement(&mut self, writer: &mut Vec<Statement>) -> (r: Unit)
        requires
            old(self).wf(),
        ensures
            steady(old(self), final(self)),
            final(self).result == old(self).result,
            r.is_ok() ==> consumed(old(self), final(self)),
            r.is_ok() ==> grown(old(writer)@, final(writer)@),
            r.is_ok() ==> final(writer)@.len() > old(writer)@.len(),
            grammar::if_statement(old(self)@, statements_of(old(writer)@)) == outcome(
                final(self),
                code_read(r, final(writer)@),
            ),
        decreases old(self).remaining(), 22nat,
    {
        reveal(grammar::if_statement);
        reveal(grammar::if_body);
        let condition = self.if_head()?;
        let at = writer.len();
        let ghost had = writer@;
        put(writer, Statement::Latch);
        assert(writer@.subrange(0, at as int) =~= had);
        self.if_body(writer, at, condition)
    }

    /// Reads the statements to run where the condition of the conditional
    /// at position `at` holds, and what follows them.
    #[verifier::spinoff_prover]
    fn if_body(&mut self, writer: &mut Vec<Statement>, at: usize, condition: Expression) -> (r: Unit)
        requires
            old(self).wf(),
            at < old(writer)@.len(),
            grown(old(writer)@.subrange(0, at as int), old(writer)@),
        ensures
            steady(old(self), final(self)),
            final(self).result == old(self).result,
            r.is_ok() ==> consumed(old(self), final(self)),
            r.is_ok() ==> grown(old(writer)@.subrange(0, at as int), final(writer)@),
            r.is_ok() ==> final(writer)@.len() >= old(writer)@.len(),
            grammar::if_body(old(self)@, statements_of(old(writer)@), at as nat, condition@) == outcome(
                final(self),
                code_read(r, final(writer)@),
            ),
        decreases old(self).remaining(), 21nat,
    {
        let ghost base = writer@.subrange(0, at as int);
        loop
            invariant
                self.wf(),
                self.result == old(self).result,
                self.remaining() <= old(self).remaining(),
                at < old(writer)@.len(),
                base == old(writer)@.subrange(0, at as int),
                base.len() == at,
                at < writer@.len(),
                writer@.len() >= old(writer)@.len(),
                grown(base, writer@),
                grammar::if_body(old(self)@, statements_of(old(writer)@), at as nat, condition@)
                    == grammar::if_body(self@, statements_of(writer@), at as nat, condition@),
            decreases self.remaining(),
        {
            reveal(grammar::if_body);
            reveal(grammar::else_head);
            reveal(grammar::statement);
            if self.matches_forward(TokenKind::Else)? {
                assert(writer@.subrange(0, at as int) =~= base);
                return self.else_head(writer, at, condition);
            }
            if self.matches_forward(TokenKind::End)? {
                let end = writer.len();
                let ghost parsed = writer@;
                let ghost model = condition@;
                writer.set(at, Statement::If(condition, end - at));
                proof {
                    assert(statements_of(writer@) =~= statements_of(parsed).update(
                        at as int,
                        StatementModel::If(model, (parsed.len() - at) as nat),
                    ));
                    assert forall|k: int| base.len() <= k < writer@.len() implies jump_fits(
                        #[trigger] writer@[k],
                        k,
                        writer@.len() as int,
                    ) by {
                        if k != at {
                            assert(writer@[k] == parsed[k]);
                        }
                    }
                }
                return Ok(());
            }
            let ghost middle = writer@;
            self.statement(writer)?;
            proof {
                lemma_grown_twice(base, middle, writer@);
            }
        }
    }

    /// Reads the end of the line behind `else`, the statements to run where
    /// the condition of the conditional at position `at` does not hold, and
    /// what follows them.
    #[verifier::spinoff_prover]
    fn else_head(&mut self, writer: &mut Vec<Statement>, at: usize, condition: Expression) -> (r:
        Unit)
        requires
            old(self).wf(),
            at < old(writer)@.len(),
            grown(old(writer)@.subrange(0, at as int), old(writer)@),
        ensures
            steady(old(self), final(self)),
            final(self).result == old(self).result,
            r.is_ok() ==> grown(old(writer)@.subrange(0, at as int), final(writer)@),
            r.is_ok() ==> final(writer)@.len() >= old(writer)@.len(),
            grammar::else_head(old(self)@, statements_of(old(writer)@), at as nat, condition@) == outcome(
                final(self),
                code_read(r, final(writer)@),
            ),
        decreases old(self).remaining(), 22nat,
    {
        reveal(grammar::else_head);
        reveal(grammar::else_body);
        let ghost base = writer@.subrange(0, at as int);
        self.end_line()?;
        let other = writer.len();
        let ghost had = writer@;
        put(writer, Statement::Latch);
        proof {
            lemma_grown_twice(base, had, writer@);
            assert(writer@.subrange(0, at as int) =~= base);
        }
        self.else_body(writer, at, other, condition)
    }

    /// Reads the statements to run where the condition of the conditional
    /// at position `at` does not hold, up to `end`; its `Else` stands at
    /// position `other`.
    #[verifier::spinoff_prover]
    fn else_body(
        &mut self,
        writer: &mut Vec<Statement>,
        at: usize,
        other: usize,
        condition: Expression,
    ) -> (r: Unit)
        requires
            old(self).wf(),
            at < other < old(writer)@.len(),
            grown(old(writer)@.subrange(0, at as int), old(writer)@),
        ensures
            steady(old(self), final(self)),
            final(self).result == old(self).result,
            r.is_ok() ==> consumed(old(self), final(self)),
            r.is_ok() ==> grown(old(writer)@.subrange(0, at as int), final(writer)@),
            r.is_ok() ==> final(writer)@.len() >= old(writer)@.len(),
            grammar::else_body(old(self)@, statements_of(old(writer)@), at as nat, other as nat, condition@) == outcome(
                final(self),
                code_read(r, final(writer)@),
            ),
        decreases old(self).remaining(), 21nat,
    {
        let ghost base = writer@.subrange(0, at as int);
        loop
            invariant
                self.wf(),
                self.result == old(self).result,
                self.remaining() <= old(self).remaining(),
                at < old(writer)@.len(),
                base == old(writer)@.subrange(0, at as int),
                base.len() == at,
                at < other < writer@.len(),
                writer@.len() >= old(writer)@.len(),
                grown(base, writer@),
                grammar::else_body(
                    old(self)@,
                    statements_of(old(writer)@),
                    at as nat,
                    other as nat,
                    condition@,
                ) == grammar::else_body(
                    self@,
                    statements_of(writer@),
                    at as nat,
                    other as nat,
                    condition@,
                ),
            decreases self.remaining(),
        {
            reveal(grammar::else_body);
            reveal(grammar::statement);
            if self.matches_forward(TokenKind::End)? {
                let end = writer.len();
                let ghost parsed = writer@;
                let ghost model = condition@;
                writer.set(other, Statement::Else(end - other));
                writer.set(at, Statement::If(condition, other + 1 - at));
                proof {
                    assert(statements_of(writer@) =~= statements_of(parsed).update(
                        other as int,
                        StatementModel::Else((parsed.len() - other) as nat),
                    ).update(at as int, StatementModel::If(model, (other + 1 - at) as nat)));
                    assert forall|k: int| base.len() <= k < writer@.len() implies jump_fits(
                        #[trigger] writer@[k],
                        k,
                        writer@.len() as int,
                    ) by {
                        if k != at && k != other {
                            assert(writer@[k] == parsed[k]);
                        }
                    }
                }
                return Ok(());
            }
            let ghost middle = writer@;
            self.statement(writer)?;
            proof {
                lemma_grown_twice(base, middle, writer@);
            }
        }
    }

    /// An `else` without its `if` is no statement.
    pub fn else_statement(&mut self, writer: &mut Vec<Statement>) -> (r: Unit)
        requires
            old(self).wf(),
        ensures
            steady(old(self), final(self)),
            final(self).result == old(self).result,
            r.is_ok() ==> grown(old(writer)@, final(writer)@),
            r.is_ok() ==> final(writer)@.len() > old(writer)@.len(),
            r.is_err(),
            grammar::else_statement(old(self)@, statements_of(old(writer)@)) == outcome(
                final(self),
                code_read(r, final(writer)@),
            ),
    {
        Err(unexpected("Expected a statement before else"))
    }

    /// Adds an abort.
    pub fn abort_statement(&mut self, writer: &mut Vec<Statement>) -> (r: Unit)
        requires
            old(self).wf(),
        ensures
            steady(old(self), final(self)),
            final(self).result == old(self).result,
            r.is_ok() ==> grown(old(writer)@, final(writer)@),
            r.is_ok() ==> final(writer)@.len() > old(writer)@.len(),
            grammar::abort_statement(old(self)@, statements_of(old(writer)@)) == outcome(
                final(self),
                code_read(r, final(writer)@),
            ),
    {
        put(writer, Statement::Abort);
        self.manual_commit = true;
        Ok(())
    }

    /// Adds a latch.
    pub fn latch_statement(&mut self, writer: &mut Vec<Statement>) -> (r: Unit)
        requires
            old(self).wf(),
        ensures
            steady(old(self), final(self)),
            final(self).result == old(self).result,
            r.is_ok() ==> grown(old(writer)@, final(writer)@),
            r.is_ok() ==> final(writer)@.len() > old(writer)@.len(),
            grammar::latch_statement(old(self)@, statements_of(old(writer)@)) == outcome(
                final(self),
                code_read(r, final(writer)@),
            ),
    {
        put(writer, Statement::Latch);
        Ok(())
    }

    /// Reads the expression of a property that must always hold.
    #[verifier::spinoff_prover]
    pub fn always_statement(&mut self, writer: &mut Vec<Statement>) -> (r: Unit)
        requires
            old(self).wf(),
        ensures
            steady(old(self), final(self)),
            final(self).result == old(self).result,
            r.is_ok() ==> consumed(old(self), final(self)),
            r.is_ok() ==> grown(old(writer)@, final(writer)@),
            r.is_ok() ==> final(writer)@.len() > old(writer)@.len(),
            grammar::always_statement(old(self)@, statements_of(old(writer)@)) == outcome(
                final(self),
                code_read(r, final(writer)@),
            ),
    {
        reveal(grammar::always_statement);
        self.consume(TokenKind::LeftParen, "Expected ( to open always statement")?;
        let expr = self.expression()?;
        self.consume(TokenKind::RightParen, "Expected ) to close always statement")?;
        put(writer, Statement::Always(expr));
        Ok(())
    }

    /// Reads the expression of a property that must never hold.
    #[verifier::spinoff_prover]
    pub fn never_statement(&mut self, writer: &mut Vec<Statement>) -> (r: Unit)
        requires
            old(self).wf(),
        ensures
            steady(old(self), final(self)),
            final(self).result == old(self).result,
            r.is_ok() ==> consumed(old(self), final(self)),
            r.is_ok() ==> grown(old(writer)@, final(writer)@),
            r.is_ok() ==> final(writer)@.len() > old(writer)@.len(),
            grammar::never_statement(old(self)@, statements_of(old(writer)@)) == outcome(
                final(self),
                code_read(r, final(writer)@),
            ),
    {
        reveal(grammar::never_statement);
        self.consume(TokenKind::LeftParen, "Expected ( to open never statement")?;
        let expr = self.expression()?;
        self.consume(TokenKind::RightParen, "Expected ) to close never statement")?;
        put(writer, Statement::Never(expr));
        Ok(())
    }

    /// Reads the expression of a property that must hold at some point.
    #[verifier::spinoff_prover]
    pub fn eventually_statement(&mut self, writer: &mut Vec<Statement>) -> (r: Unit)
        requires
            old(self).wf(),
        ensures
            steady(old(self), final(self)),
            final(self).result == old(self).result,
            r.is_ok() ==> consumed(old(self), final(self)),
            r.is_ok() ==> grown(old(writer)@, final(writer)@),
            r.is_ok() ==> final(writer)@.len() > old(writer)@.len(),
            grammar::eventually_statement(old(self)@, statements_of(old(writer)@)) == outcome(
                final(self),
                code_read(r, final(writer)@),
            ),
    {
        reveal(grammar::eventually_statement);
        self.consume(TokenKind::LeftParen, "Expected ( to open eventually statement")?;
        let expr = self.expression()?;
        self.skip_newlines()?;
        self.consume(TokenKind::RightParen, "Expected ) to close eventually statement")?;
        put(writer, Statement::Eventually(expr));
        Ok(())
    }

    /// Reads an expression that stands as a statement.
    #[verifier::spinoff_prover]
    pub fn expression_statement(&mut self, writer: &mut Vec<Statement>) -> (r: Unit)
        requires
            old(self).wf(),
        ensures
            steady(old(self), final(self)),
            final(self).result == old(self).result,
            r.is_ok() ==> consumed(old(self), final(self)),
            r.is_ok() ==> grown(old(writer)@, final(writer)@),
            r.is_ok() ==> final(writer)@.len() > old(writer)@.len(),
            grammar::expression_statement(old(self)@, statements_of(old(writer)@)) == outcome(
                final(self),
                code_read(r, final(writer)@),
            ),
    {
        reveal(grammar::expression_statement);
        let expr = self.expression()?;
        put(writer, Statement::Expression(expr));
        Ok(())
    }

    /// Reads an expression.
    #[verifier::spinoff_prover]
    pub fn expression(&mut self) -> (r: Res<Expression>)
        requires
            old(self).wf(),
        ensures
            steady(old(self), final(self)),
            final(self).result == old(self).result,
            final(self).manual_commit == old(self).manual_commit,
            r.is_ok() ==> consumed(old(self), final(self)),
            grammar::expression(old(self)@) == outcome(final(self), expr_read(r)),
        decreases old(self).remaining(), 11nat,
    {
        reveal(grammar::expression);
        reveal(grammar::assignment);
        self.assignment()
    }

    /// Reads an assignment, or what stands in its place.
    #[verifier::spinoff_prover]
    pub fn assignment(&mut self) -> (r: Res<Expression>)
        requires
            old(self).wf(),
        ensures
            steady(old(self), final(self)),
            final(self).result == old(self).result,
            final(self).manual_commit == old(self).manual_commit,
            r.is_ok() ==> consumed(old(self), final(self)),
            grammar::assignment(old(self)@) == outcome(final(self), expr_read(r)),
        decreases old(self).remaining(), 10nat,
    {
        reveal(grammar::assignment);
        reveal(grammar::or);
        reveal(grammar::assigned);
        let expr = self.or()?;
        self.assigned(expr)
    }

    /// Reads what a variable gets, where `:=` follows it.
    #[verifier::spinoff_prover]
    fn assigned(&mut self, left: Expression) -> (r: Res<Expression>)
        requires
            old(self).wf(),
        ensures
            steady(old(self), final(self)),
            final(self).result == old(self).result,
            final(self).manual_commit == old(self).manual_commit,
            grammar::assigned(old(self)@, left@) == outcome(final(self), expr_read(r)),
        decreases old(self).remaining(), 10nat,
    {
        reveal(grammar::assigned);
        reveal(grammar::assignment);
        if self.matches(TokenKind::ColonEqual)? {
            match left {
                Expression::Var(name) => {
                    let value = self.assignment()?;
                    Ok(Expression::Assignment(name, Box::new(value)))
                },
                _ => Err(unexpected_at("Expected variable before := assignment at ", &self.previous)),
            }
        } else {
            Ok(left)
        }
    }

    /// Reads a chain of `or`.
    #[verifier::spinoff_prover]
    pub fn or(&mut self) -> (r: Res<Expression>)
        requires
            old(self).wf(),
        ensures
            steady(old(self), final(self)),
            final(self).result == old(self).result,
            final(self).manual_commit == old(self).manual_commit,
            r.is_ok() ==> consumed(old(self), final(self)),
            grammar::or(old(self)@) == outcome(final(self), expr_read(r)),
        decreases old(self).remaining(), 9nat,
    {
        reveal(grammar::or);
        reveal(grammar::or_more);
        reveal(grammar::and);
        let mut expr = self.and()?;
        loop
            invariant
                self.wf(),
                self.result == old(self).result,
                self.manual_commit == old(self).manual_commit,
                self.remaining() < old(self).remaining(),
                grammar::or(old(self)@) == grammar::or_more(self@, expr@),
            decreases self.remaining(),
        {
            reveal(grammar::or);
            reveal(grammar::or_more);
            reveal(grammar::and);
            if !self.matches_forward(TokenKind::Or)? {
                return Ok(expr);
            }
            let right = self.and()?;
            expr =
            Expression::Binary { left: Box::new(expr), operator: Operator::Or, right: Box::new(right) };
        }
    }

    /// Reads a chain of `and`.
    #[verifier::spinoff_prover]
    pub fn and(&mut self) -> (r: Res<Expression>)
        requires
            old(self).wf(),
        ensures
            steady(old(self), final(self)),
            final(self).result == old(self).result,
            final(self).manual_commit == old(self).manual_commit,
            r.is_ok() ==> consumed(old(self), final(self)),
            grammar::and(old(self)@) == outcome(final(self), expr_read(r)),
        decreases old(self).remaining(), 8nat,
    {
        reveal(grammar::and);
        reveal(grammar::and_more);
        reveal(grammar::included);
        let mut expr = self.included()?;
        loop
            invariant
                self.wf(),
                self.result == old(self).result,
                self.manual_commit == old(self).manual_commit,
                self.remaining() < old(self).remaining(),
                grammar::and(old(self)@) == grammar::and_more(self@, expr@),
            decreases self.remaining(),
        {
            reveal(grammar::and);
            reveal(grammar::and_more);
            reveal(grammar::included);
            if !self.matches_forward(TokenKind::And)? {
                return Ok(expr);
            }
            let right = self.included()?;
            expr =
            Expression::Binary { left: Box::new(expr), operator: Operator::And, right: Box::new(right) };
        }
    }

    /// Reads an assignment of the query language, or what stands in its
    /// place.
    #[verifier::spinoff_prover]
    pub fn sql_assignment(&mut self) -> (r: Res<SqlExpression>)
        requires
            old(self).wf(),
        ensures
            steady(old(self), final(self)),
            final(self).result == old(self).result,
            final(self).manual_commit == old(self).manual_commit,
            r.is_ok() ==> consumed(old(self), final(self)),
            grammar::sql_assignment(old(self)@) == outcome(final(self), sql_read(r)),
        decreases old(self).remaining(), 8nat,
    {
        reveal(grammar::sql_assignment);
        reveal(grammar::sql_and);
        reveal(grammar::sql_assigned);
        let expr = self.sql_and()?;
        self.sql_assigned(expr)
    }

    /// Reads what a column gets, where `:=` follows it.
    #[verifier::spinoff_prover]
    fn sql_assigned(&mut self, left: SqlExpression) -> (r: Res<SqlExpression>)
        requires
            old(self).wf(),
        ensures
            steady(old(self), final(self)),
            final(self).result == old(self).result,
            final(self).manual_commit == old(self).manual_commit,
            grammar::sql_assigned(old(self)@, left@) == outcome(final(self), sql_read(r)),
        decreases old(self).remaining(), 8nat,
    {
        reveal(grammar::sql_assigned);
        reveal(grammar::sql_assignment);
        if self.matches(TokenKind::ColonEqual)? {
            match left {
                SqlExpression::Var(name) => {
                    let value = self.sql_assignment()?;
                    Ok(SqlExpression::Assignment(name, Box::new(value)))
                },
                _ => Err(unexpected_at("Expected variable before := assignment at ", &self.previous)),
            }
        } else {
            Ok(left)
        }
    }

    /// Reads a chain of `and` of the query language, which groups to the
    /// right.
    #[verifier::spinoff_prover]
    pub fn sql_and(&mut self) -> (r: Res<SqlExpression>)
        requires
            old(self).wf(),
        ensures
            steady(old(self), final(self)),
            final(self).result == old(self).result,
            final(self).manual_commit == old(self).manual_commit,
            r.is_ok() ==> consumed(old(self), final(self)),
            grammar::sql_and(old(self)@) == outcome(final(self), sql_read(r)),
        decreases old(self).remaining(), 7nat,
    {
        reveal(grammar::sql_and);
        reveal(grammar::sql_equality);
        reveal(grammar::sql_and_more);
        let expr = self.sql_equality()?;
        self.sql_and_more(expr)
    }

    /// Reads the rest of a chain of `and` of the query language, where
    /// `and` follows.
    #[verifier::spinoff_prover]
    fn sql_and_more(&mut self, left: SqlExpression) -> (r: Res<SqlExpression>)
        requires
            old(self).wf(),
        ensures
            steady(old(self), final(self)),
            final(self).result == old(self).result,
            final(self).manual_commit == old(self).manual_commit,
            grammar::sql_and_more(old(self)@, left@) == outcome(final(self), sql_read(r)),
        decreases old(self).remaining(), 7nat,
    {
        reveal(grammar::sql_and_more);
        reveal(grammar::sql_and);
        if self.matches_forward(TokenKind::And)? {
            let right = self.sql_and()?;
            Ok(
                SqlExpression::Binary {
                    left: Box::new(left),
                    operator: SqlOperator::And,
                    right: Box::new(right),
                },
            )
        } else {
            Ok(left)
        }
    }

    /// Reads an equality of the query language.
    #[verifier::spinoff_prover]
    pub fn sql_equality(&mut self) -> (r: Res<SqlExpression>)
        requires
            old(self).wf(),
        ensures
            steady(old(self), final(self)),
            final(self).result == old(self).result,
            final(self).manual_commit == old(self).manual_commit,
            r.is_ok() ==> consumed(old(self), final(self)),
            grammar::sql_equality(old(self)@) == outcome(final(self), sql_read(r)),
        decreases old(self).remaining(), 6nat,
    {
        reveal(grammar::sql_equality);
        reveal(grammar::sql_comparison);
        reveal(grammar::sql_equal);
        let expr = self.sql_comparison()?;
        self.sql_equal(expr)
    }

    /// Reads the right side of an equality behind the left one, where a
    /// sign of equality follows.
    #[verifier::spinoff_prover]
    fn sql_equal(&mut self, left: SqlExpression) -> (r: Res<SqlExpression>)
        requires
            old(self).wf(),
        ensures
            steady(old(self), final(self)),
            final(self).result == old(self).result,
            final(self).manual_commit == old(self).manual_commit,
            grammar::sql_equal(old(self)@, left@) == outcome(final(self), sql_read(r)),
        decreases old(self).remaining(), 6nat,
    {
        reveal(grammar::sql_equal);
        reveal(grammar::sql_comparison);
        let kinds = two(TokenKind::Equal, TokenKind::Different);
        if self.matches_forward_within(&kinds)? {
            let operator = match self.previous.kind {
                TokenKind::Different => SqlOperator::NotEqual,
                _ => SqlOperator::Equal,
            };
            let right = self.sql_comparison()?;
            Ok(SqlExpression::Binary { left: Box::new(left), operator, right: Box::new(right) })
        } else {
            Ok(left)
        }
    }

    /// Reads a chain of comparisons of the query language.
    #[verifier::spinoff_prover]
    pub fn sql_comparison(&mut self) -> (r: Res<SqlExpression>)
        requires
            old(self).wf(),
        ensures
            steady(old(self), final(self)),
            final(self).result == old(self).result,
            final(self).manual_commit == old(self).manual_commit,
            r.is_ok() ==> consumed(old(self), final(self)),
            grammar::sql_comparison(old(self)@) == outcome(final(self), sql_read(r)),
        decreases old(self).remaining(), 5nat,
    {
        reveal(grammar::sql_comparison);
        reveal(grammar::sql_comparisons);
        reveal(grammar::sql_in);
        let mut expr = self.sql_in()?;
        loop
            invariant
                self.wf(),
                self.result == old(self).result,
                self.manual_commit == old(self).manual_commit,
                self.remaining() < old(self).remaining(),
                grammar::sql_comparison(old(self)@) == grammar::sql_comparisons(self@, expr@),
            decreases self.remaining(),
        {
            reveal(grammar::sql_comparison);
            reveal(grammar::sql_comparisons);
            reveal(grammar::sql_in);
            let kinds = four(
                TokenKind::LeftCarret,
                TokenKind::LessEqual,
                TokenKind::GreaterEqual,
                TokenKind::RightCarret,
            );
            if !self.matches_forward_within(&kinds)? {
                return Ok(expr);
            }
            let operator = match self.previous.kind {
                TokenKind::LeftCarret => SqlOperator::Less,
                TokenKind::LessEqual => SqlOperator::LessEqual,
                TokenKind::GreaterEqual => SqlOperator::GreaterEqual,
                _ => SqlOperator::Greater,
            };
            let right = self.sql_in()?;
            expr = SqlExpression::Binary { left: Box::new(expr), operator, right: Box::new(right) };
        }
    }

    /// Reads a membership test of the query language.
    #[verifier::spinoff_prover]
    pub fn sql_in(&mut self) -> (r: Res<SqlExpression>)
        requires
            old(self).wf(),
        ensures
            steady(old(self), final(self)),
            final(self).result == old(self).result,
            final(self).manual_commit == old(self).manual_commit,
            r.is_ok() ==> consumed(old(self), final(self)),
            grammar::sql_in(old(self)@) == outcome(final(self), sql_read(r)),
        decreases old(self).remaining(), 4nat,
    {
        reveal(grammar::sql_in);
        reveal(grammar::sql_between);
        reveal(grammar::sql_included_in);
        let expr = self.sql_between()?;
        self.sql_included_in(expr)
    }

    /// Reads what something is tested to be in, where `in` follows it.
    #[verifier::spinoff_prover]
    fn sql_included_in(&mut self, left: SqlExpression) -> (r: Res<SqlExpression>)
        requires
            old(self).wf(),
        ensures
            steady(old(self), final(self)),
            final(self).result == old(self).result,
            final(self).manual_commit == old(self).manual_commit,
            grammar::sql_included_in(old(self)@, left@) == outcome(final(self), sql_read(r)),
        decreases old(self).remaining(), 4nat,
    {
        reveal(grammar::sql_included_in);
        reveal(grammar::sql_between);
        if self.matches_forward(TokenKind::In)? {
            let right = self.sql_between()?;
            Ok(
                SqlExpression::Binary {
                    left: Box::new(left),
                    operator: SqlOperator::In,
                    right: Box::new(right),
                },
            )
        } else {
            Ok(left)
        }
    }

    /// Reads a range test of the query language.
    #[verifier::spinoff_prover]
    pub fn sql_between(&mut self) -> (r: Res<SqlExpression>)
        requires
            old(self).wf(),
        ensures
            steady(old(self), final(self)),
            final(self).result == old(self).result,
            final(self).manual_commit == old(self).manual_commit,
            r.is_ok() ==> consumed(old(self), final(self)),
            grammar::sql_between(old(self)@) == outcome(final(self), sql_read(r)),
        decreases old(self).remaining(), 3nat,
    {
        reveal(grammar::sql_between);
        reveal(grammar::sql_additive);
        reveal(grammar::sql_bounds);
        let expr = self.sql_additive()?;
        self.sql_bounds(expr)
    }

    /// Reads the bounds of a range test behind what is tested, where
    /// `between` follows.
    #[verifier::spinoff_prover]
    fn sql_bounds(&mut self, left: SqlExpression) -> (r: Res<SqlExpression>)
        requires
            old(self).wf(),
        ensures
            steady(old(self), final(self)),
            final(self).result == old(self).result,
            final(self).manual_commit == old(self).manual_commit,
            grammar::sql_bounds(old(self)@, left@) == outcome(final(self), sql_read(r)),
        decreases old(self).remaining(), 3nat,
    {
        reveal(grammar::sql_bounds);
        reveal(grammar::sql_additive);
        reveal(grammar::sql_upper);
        if self.matches_forward(TokenKind::Between)? {
            let lower = self.sql_additive()?;
            self.sql_upper(left, lower)
        } else {
            Ok(left)
        }
    }

    /// Reads the upper bound of a range test behind the lower one.
    #[verifier::spinoff_prover]
    fn sql_upper(&mut self, left: SqlExpression, lower: SqlExpression) -> (r: Res<SqlExpression>)
        requires
            old(self).wf(),
        ensures
            steady(old(self), final(self)),
            final(self).result == old(self).result,
            final(self).manual_commit == old(self).manual_commit,
            grammar::sql_upper(old(self)@, left@, lower@) == outcome(final(self), sql_read(r)),
        decreases old(self).remaining(), 3nat,
    {
        reveal(grammar::sql_upper);
        reveal(grammar::sql_additive);
        self.consume(TokenKind::And, "Expected and for upper bound of the between")?;
        let upper = self.sql_additive()?;
        let ghost both = seq![lower@, upper@];
        let mut bounds: Vec<SqlExpression> = Vec::new();
        bounds.push(lower);
        bounds.push(upper);
        proof {
            crate::ast::lemma_sql_children(bounds);
            assert(sql_models_of(bounds@) =~= both);
        }
        let right = SqlExpression::Tuple(bounds);
        assert(right@ == SqlModel::Tuple(both));
        Ok(
            SqlExpression::Binary {
                left: Box::new(left),
                operator: SqlOperator::Between,
                right: Box::new(right),
            },
        )
    }

    /// Reads a chain of sums and differences of the query language.
    #[verifier::spinoff_prover]
    pub fn sql_additive(&mut self) -> (r: Res<SqlExpression>)
        requires
            old(self).wf(),
        ensures
            steady(old(self), final(self)),
            final(self).result == old(self).result,
            final(self).manual_commit == old(self).manual_commit,
            r.is_ok() ==> consumed(old(self), final(self)),
            grammar::sql_additive(old(self)@) == outcome(final(self), sql_read(r)),
        decreases old(self).remaining(), 2nat,
    {
        reveal(grammar::sql_additive);
        reveal(grammar::sql_terms);
        reveal(grammar::sql_multiplicative);
        let mut expr = self.sql_multiplicative()?;
        loop
            invariant
                self.wf(),
                self.result == old(self).result,
                self.manual_commit == old(self).manual_commit,
                self.remaining() < old(self).remaining(),
                grammar::sql_additive(old(self)@) == grammar::sql_terms(self@, expr@),
            decreases self.remaining(),
        {
            reveal(grammar::sql_additive);
            reveal(grammar::sql_terms);
            reveal(grammar::sql_multiplicative);
            let kinds = two(TokenKind::Plus, TokenKind::Minus);
            if !self.matches_forward_within(&kinds)? {
                return Ok(expr);
            }
            let operator = match self.previous.kind {
                TokenKind::Minus => SqlOperator::Subtract,
                _ => SqlOperator::Add,
            };
            let right = self.sql_multiplicative()?;
            expr = SqlExpression::Binary { left: Box::new(expr), operator, right: Box::new(right) };
        }
    }

    /// Reads a chain of products, quotients and remainders of the query
    /// language.
    #[verifier::spinoff_prover]
    pub fn sql_multiplicative(&mut self) -> (r: Res<SqlExpression>)
        requires
            old(self).wf(),
        ensures
            steady(old(self), final(self)),
            final(self).result == old(self).result,
            final(self).manual_commit == old(self).manual_commit,
            r.is_ok() ==> consumed(old(self), final(self)),
            grammar::sql_multiplicative(old(self)@) == outcome(final(self), sql_read(r)),
        decreases old(self).remaining(), 1nat,
    {
        reveal(grammar::sql_multiplicative);
        reveal(grammar::sql_factors);
        reveal(grammar::sql_primary);
        let mut expr = self.sql_primary()?;
        loop
            invariant
                self.wf(),
                self.result == old(self).result,
                self.manual_commit == old(self).manual_commit,
                self.remaining() < old(self).remaining(),
                grammar::sql_multiplicative(old(self)@) == grammar::sql_factors(self@, expr@),
            decreases self.remaining(),
        {
            reveal(grammar::sql_multiplicative);
            reveal(grammar::sql_factors);
            reveal(grammar::sql_primary);
            let kinds = three(TokenKind::Star, TokenKind::Slash, TokenKind::Percent);
            if !self.matches_forward_within(&kinds)? {
                return Ok(expr);
            }
            let operator = match self.previous.kind {
                TokenKind::Slash => SqlOperator::Divide,
                TokenKind::Percent => SqlOperator::Rem,
                _ => SqlOperator::Multiply,
            };
            let right = self.sql_primary()?;
            expr = SqlExpression::Binary { left: Box::new(expr), operator, right: Box::new(right) };
        }
    }

    /// Reads a number, a string, a variable of the program, a column or a
    /// parenthesis of the query language.
    #[verifier::spinoff_prover]
    pub fn sql_primary(&mut self) -> (r: Res<SqlExpression>)
        requires
            old(self).wf(),
        ensures
            steady(old(self), final(self)),
            final(self).result == old(self).result,
            final(self).manual_commit == old(self).manual_commit,
            r.is_ok() ==> consumed(old(self), final(self)),
            grammar::sql_primary(old(self)@) == outcome(final(self), sql_read(r)),
        decreases old(self).remaining(), 0nat,
    {
        reveal(grammar::sql_primary);
        reveal(grammar::sql_set);
        if self.matches(TokenKind::Number)? {
            match parse_integer(&self.previous.lexeme) {
                Ok(i) => Ok(SqlExpression::Integer(i)),
                Err(e) => Err(ParserErrorKind::ParseInt(e)),
            }
        } else if self.matches(TokenKind::String)? {
            Ok(SqlExpression::String(self.previous.lexeme.clone()))
        } else if self.matches(TokenKind::Dollar)? {
            let variable = self.parse_variable("Expect identifier after $")?;
            Ok(SqlExpression::UpVariable(variable))
        } else if self.matches(TokenKind::Identifier)? {
            Ok(SqlExpression::Var(self.make_variable()))
        } else if self.matches(TokenKind::LeftParen)? {
            self.sql_set()
        } else {
            Err(unexpected_got("Expected sql expression, got a ", self.current.kind))
        }
    }

    /// Reads the closing parenthesis of a set of the query language: one
    /// member is a scalar, any other number of them a set.
    fn sql_set_end(&mut self, members: Vec<SqlExpression>) -> (r: Res<SqlExpression>)
        requires
            old(self).wf(),
        ensures
            steady(old(self), final(self)),
            final(self).result == old(self).result,
            final(self).manual_commit == old(self).manual_commit,
            r.is_ok() ==> consumed(old(self), final(self)),
            grammar::sql_set_end(old(self)@, sql_models_of(members@)) == outcome(
                final(self),
                sql_read(r),
            ),
    {
        let mut members = members;
        self.consume(TokenKind::RightParen, "Expected ) to close a sql set")?;
        if members.len() == 1 {
            assert(sql_models_of(members@)[0] == members@[0]@);
            Ok(SqlExpression::Scalar(Box::new(members.remove(0))))
        } else {
            proof {
                crate::ast::lemma_sql_children(members);
            }
            Ok(SqlExpression::SetOf(members))
        }
    }

    /// Reads what stands between parentheses in the query language: one
    /// expression is a scalar, any other number of them a set.
    #[verifier::spinoff_prover]
    pub fn sql_set(&mut self) -> (r: Res<SqlExpression>)
        requires
            old(self).wf(),
        ensures
            steady(old(self), final(self)),
            final(self).result == old(self).result,
            final(self).manual_commit == old(self).manual_commit,
            grammar::sql_set(old(self)@) == outcome(final(self), sql_read(r)),
        decreases old(self).remaining(), 9nat,
    {
        reveal(grammar::sql_set);
        reveal(grammar::sql_set_more);
        reveal(grammar::sql_assignment);
        reveal(grammar::skip_newlines);
        self.skip_newlines()?;
        let mut members: Vec<SqlExpression> = Vec::new();
        assert(sql_models_of(members@) =~= Seq::empty());
        if self.check(TokenKind::RightParen) {
            return self.sql_set_end(members);
        }
        loop
            invariant
                self.wf(),
                self.result == old(self).result,
                self.manual_commit == old(self).manual_commit,
                self.remaining() <= old(self).remaining(),
                grammar::sql_set(old(self)@) == grammar::sql_set_more(
                    self@,
                    sql_models_of(members@),
                ),
            decreases self.remaining(),
        {
            reveal(grammar::sql_set);
            reveal(grammar::sql_set_more);
            reveal(grammar::sql_assignment);
            reveal(grammar::skip_newlines);
            let member = self.sql_assignment()?;
            let ghost had = members@;
            let ghost added = member@;
            members.push(member);
            assert(sql_models_of(members@) =~= sql_models_of(had).push(added));
            let found = self.matches(TokenKind::Comma)?;
            self.skip_newlines()?;
            if !found {
                return self.sql_set_end(members);
            }
        }
    }

    /// Reads a membership test.
    #[verifier::spinoff_prover]
    pub fn included(&mut self) -> (r: Res<Expression>)
        requires
            old(self).wf(),
        ensures
            steady(old(self), final(self)),
            final(self).result == old(self).result,
            final(self).manual_commit == old(self).manual_commit,
            r.is_ok() ==> consumed(old(self), final(self)),
            grammar::included(old(self)@) == outcome(final(self), expr_read(r)),
        decreases old(self).remaining(), 7nat,
    {
        reveal(grammar::included);
        reveal(grammar::equality);
        reveal(grammar::included_in);
        let expr = self.equality()?;
        self.included_in(expr)
    }

    /// Reads what something is tested to be in, where `in` follows it.
    #[verifier::spinoff_prover]
    fn included_in(&mut self, left: Expression) -> (r: Res<Expression>)
        requires
            old(self).wf(),
        ensures
            steady(old(self), final(self)),
            final(self).result == old(self).result,
            final(self).manual_commit == old(self).manual_commit,
            grammar::included_in(old(self)@, left@) == outcome(final(self), expr_read(r)),
        decreases old(self).remaining(), 7nat,
    {
        reveal(grammar::included_in);
        reveal(grammar::equality);
        if self.matches(TokenKind::In)? {
            let right = self.equality()?;
            Ok(
                Expression::Binary {
                    left: Box::new(left),
                    operator: Operator::Included,
                    right: Box::new(right),
                },
            )
        } else {
            Ok(left)
        }
    }

    /// Reads a chain of equalities.
    #[verifier::spinoff_prover]
    pub fn equality(&mut self) -> (r: Res<Expression>)
        requires
            old(self).wf(),
        ensures
            steady(old(self), final(self)),
            final(self).result == old(self).result,
            final(self).manual_commit == old(self).manual_commit,
            r.is_ok() ==> consumed(old(self), final(self)),
            grammar::equality(old(self)@) == outcome(final(self), expr_read(r)),
        decreases old(self).remaining(), 6nat,
    {
        reveal(grammar::equality);
        reveal(grammar::equalities);
        reveal(grammar::comparison);
        let mut expr = self.comparison()?;
        loop
            invariant
                self.wf(),
                self.result == old(self).result,
                self.manual_commit == old(self).manual_commit,
                self.remaining() < old(self).remaining(),
                grammar::equality(old(self)@) == grammar::equalities(self@, expr@),
            decreases self.remaining(),
        {
            reveal(grammar::equality);
            reveal(grammar::equalities);
            reveal(grammar::comparison);
            let kinds = two(TokenKind::Equal, TokenKind::Different);
            if !self.matches_within(&kinds)? {
                return Ok(expr);
            }
            let operator = match self.previous.kind {
                TokenKind::Different => Operator::NotEqual,
                _ => Operator::Equal,
            };
            let right = self.comparison()?;
            expr = Expression::Binary { left: Box::new(expr), operator, right: Box::new(right) };
        }
    }

    /// Reads a chain of comparisons.
    #[verifier::spinoff_prover]
    pub fn comparison(&mut self) -> (r: Res<Expression>)
        requires
            old(self).wf(),
        ensures
            steady(old(self), final(self)),
            final(self).result == old(self).result,
            final(self).manual_commit == old(self).manual_commit,
            r.is_ok() ==> consumed(old(self), final(self)),
            grammar::comparison(old(self)@) == outcome(final(self), expr_read(r)),
        decreases old(self).remaining(), 5nat,
    {
        reveal(grammar::comparison);
        reveal(grammar::comparisons);
        reveal(grammar::additive);
        let mut expr = self.additive()?;
        loop
            invariant
                self.wf(),
                self.result == old(self).result,
                self.manual_commit == old(self).manual_commit,
                self.remaining() < old(self).remaining(),
                grammar::comparison(old(self)@) == grammar::comparisons(self@, expr@),
            decreases self.remaining(),
        {
            reveal(grammar::comparison);
            reveal(grammar::comparisons);
            reveal(grammar::additive);
            let kinds = four(
                TokenKind::LeftCarret,
                TokenKind::LessEqual,
                TokenKind::GreaterEqual,
                TokenKind::RightCarret,
            );
            if !self.matches_within(&kinds)? {
                return Ok(expr);
            }
            let operator = match self.previous.kind {
                TokenKind::LessEqual => Operator::LessEqual,
                TokenKind::GreaterEqual => Operator::GreaterEqual,
                TokenKind::LeftCarret => Operator::Less,
                _ => Operator::Greater,
            };
            let right = self.additive()?;
            expr = Expression::Binary { left: Box::new(expr), operator, right: Box::new(right) };
        }
    }

    /// Reads a chain of sums and differences.
    #[verifier::spinoff_prover]
    pub fn additive(&mut self) -> (r: Res<Expression>)
        requires
            old(self).wf(),
        ensures
            steady(old(self), final(self)),
            final(self).result == old(self).result,
            final(self).manual_commit == old(self).manual_commit,
            r.is_ok() ==> consumed(old(self), final(self)),
            grammar::additive(old(self)@) == outcome(final(self), expr_read(r)),
        decreases old(self).remaining(), 4nat,
    {
        reveal(grammar::additive);
        reveal(grammar::terms);
        reveal(grammar::multiplicative);
        let mut expr = self.multiplicative()?;
        loop
            invariant
                self.wf(),
                self.result == old(self).result,
                self.manual_commit == old(self).manual_commit,
                self.remaining() < old(self).remaining(),
                grammar::additive(old(self)@) == grammar::terms(self@, expr@),
            decreases self.remaining(),
        {
            reveal(grammar::additive);
            reveal(grammar::terms);
            reveal(grammar::multiplicative);
            let kinds = two(TokenKind::Plus, TokenKind::Minus);
            if !self.matches_within(&kinds)? {
                return Ok(expr);
            }
            let operator = match self.previous.kind {
                TokenKind::Minus => Operator::Subtract,
                _ => Operator::Add,
            };
            let right = self.multiplicative()?;
            expr = Expression::Binary { left: Box::new(expr), operator, right: Box::new(right) };
        }
    }

    /// Reads a chain of products, quotients and remainders.
    #[verifier::spinoff_prover]
    pub fn multiplicative(&mut self) -> (r: Res<Expression>)
        requires
            old(self).wf(),
        ensures
            steady(old(self), final(self)),
            final(self).result == old(self).result,
            final(self).manual_commit == old(self).manual_commit,
            r.is_ok() ==> consumed(old(self), final(self)),
            grammar::multiplicative(old(self)@) == outcome(final(self), expr_read(r)),
        decreases old(self).remaining(), 3nat,
    {
        reveal(grammar::multiplicative);
        reveal(grammar::factors);
        reveal(grammar::unary);
        let mut expr = self.unary()?;
        loop
            invariant
                self.wf(),
                self.result == old(self).result,
                self.manual_commit == old(self).manual_commit,
                self.remaining() < old(self).remaining(),
                grammar::multiplicative(old(self)@) == grammar::factors(self@, expr@),
            decreases self.remaining(),
        {
            reveal(grammar::multiplicative);
            reveal(grammar::factors);
            reveal(grammar::unary);
            let kinds = three(TokenKind::Star, TokenKind::Percent, TokenKind::Slash);
            if !self.matches_within(&kinds)? {
                return Ok(expr);
            }
            let operator = match self.previous.kind {
                TokenKind::Percent => Operator::Rem,
                TokenKind::Slash => Operator::Divide,
                _ => Operator::Multiply,
            };
            let right = self.unary()?;
            expr = Expression::Binary { left: Box::new(expr), operator, right: Box::new(right) };
        }
    }

    /// Reads an expression after a leading `or` or `and`, or a member access.
    #[verifier::spinoff_prover]
    pub fn unary(&mut self) -> (r: Res<Expression>)
        requires
            old(self).wf(),
        ensures
            steady(old(self), final(self)),
            final(self).result == old(self).result,
            final(self).manual_commit == old(self).manual_commit,
            r.is_ok() ==> consumed(old(self), final(self)),
            grammar::unary(old(self)@) == outcome(final(self), expr_read(r)),
        decreases old(self).remaining(), 2nat,
    {
        reveal(grammar::unary);
        reveal(grammar::expression);
        reveal(grammar::member_access);
        if self.matches_forward(TokenKind::Or)? {
            self.expression()
        } else if self.matches_forward(TokenKind::And)? {
            self.expression()
        } else {
            self.member_access()
        }
    }

    /// Reads a member access, or what stands in its place.
    #[verifier::spinoff_prover]
    pub fn member_access(&mut self) -> (r: Res<Expression>)
        requires
            old(self).wf(),
        ensures
            steady(old(self), final(self)),
            final(self).result == old(self).result,
            final(self).manual_commit == old(self).manual_commit,
            r.is_ok() ==> consumed(old(self), final(self)),
            grammar::member_access(old(self)@) == outcome(final(self), expr_read(r)),
        decreases old(self).remaining(), 1nat,
    {
        reveal(grammar::member_access);
        reveal(grammar::primary);
        let expr = self.primary()?;
        if self.matches(TokenKind::Dot)? {
            let member = self.parse_variable(
                "Expected identifier after \".\" for member expression",
            )?;
            Ok(Expression::Member { call_site: Box::new(expr), member })
        } else {
            Ok(expr)
        }
    }

    /// Reads a number, a string, a set, a tuple, a variable or a query.
    #[verifier::spinoff_prover]
    pub fn primary(&mut self) -> (r: Res<Expression>)
        requires
            old(self).wf(),
        ensures
            steady(old(self), final(self)),
            final(self).result == old(self).result,
            final(self).manual_commit == old(self).manual_commit,
            r.is_ok() ==> consumed(old(self), final(self)),
            grammar::primary(old(self)@) == outcome(final(self), expr_read(r)),
        decreases old(self).remaining(), 0nat,
    {
        reveal(grammar::primary);
        reveal(grammar::set);
        reveal(grammar::tuple);
        reveal(grammar::expression);
        if self.matches(TokenKind::Number)? {
            self.number()
        } else if self.matches(TokenKind::String)? {
            self.string()
        } else if self.matches(TokenKind::LeftBrace)? {
            self.set()
        } else if self.matches(TokenKind::LeftParen)? {
            self.tuple()
        } else if self.matches(TokenKind::Identifier)? {
            self.variable()
        } else if self.matches(TokenKind::Backtick)? {
            self.sql_expression()
        } else if self.matches(TokenKind::Newline)? {
            self.expression()
        } else {
            Err(unexpected_got("Expected expression, got a ", self.current.kind))
        }
    }

    /// The variable that the token read last names.
    pub fn variable(&mut self) -> (r: Res<Expression>)
        ensures
            *final(self) == *old(self),
            expr_read(r) == Ok::<ExprModel, KindModel>(ExprModel::Var(old(self).previous.lexeme@)),
    {
        Ok(Expression::Var(self.make_variable()))
    }

    /// The number that the token read last spells.
    pub fn number(&mut self) -> (r: Res<Expression>)
        ensures
            *final(self) == *old(self),
            grammar::number(old(self)@) == outcome(final(self), expr_read(r)),
    {
        match parse_integer(&self.previous.lexeme) {
            Ok(i) => Ok(Expression::Integer(i)),
            Err(e) => Err(ParserErrorKind::from(e)),
        }
    }

    /// The string that the token read last holds.
    pub fn string(&mut self) -> (r: Res<Expression>)
        ensures
            *final(self) == *old(self),
            expr_read(r) == Ok::<ExprModel, KindModel>(ExprModel::Str(old(self).previous.lexeme@)),
    {
        Ok(Expression::String(self.previous.lexeme.clone()))
    }

    /// Reads the closing brace of a set.
    fn set_end(&mut self, members: Vec<Expression>) -> (r: Res<Expression>)
        requires
            old(self).wf(),
        ensures
            steady(old(self), final(self)),
            final(self).result == old(self).result,
            final(self).manual_commit == old(self).manual_commit,
            r.is_ok() ==> consumed(old(self), final(self)),
            grammar::set_end(old(self)@, expr_models_of(members@)) == outcome(
                final(self),
                expr_read(r),
            ),
    {
        self.consume(TokenKind::RightBrace, "Expected } to close a set expression")?;
        proof {
            crate::ast::lemma_expr_children(members);
        }
        Ok(Expression::SetOf(members))
    }

    /// Reads the members of a set, up to the closing brace.
    #[verifier::spinoff_prover]
    pub fn set(&mut self) -> (r: Res<Expression>)
        requires
            old(self).wf(),
        ensures
            steady(old(self), final(self)),
            final(self).result == old(self).result,
            final(self).manual_commit == old(self).manual_commit,
            grammar::set(old(self)@) == outcome(final(self), expr_read(r)),
        decreases old(self).remaining(), 12nat,
    {
        reveal(grammar::set);
        reveal(grammar::set_more);
        reveal(grammar::expression);
        reveal(grammar::skip_newlines);
        self.skip_newlines()?;
        let mut members: Vec<Expression> = Vec::new();
        assert(expr_models_of(members@) =~= Seq::empty());
        if self.check(TokenKind::RightBrace) {
            return self.set_end(members);
        }
        loop
            invariant
                self.wf(),
                self.result == old(self).result,
                self.manual_commit == old(self).manual_commit,
                self.remaining() <= old(self).remaining(),
                grammar::set(old(self)@) == grammar::set_more(self@, expr_models_of(members@)),
            decreases self.remaining(),
        {
            reveal(grammar::set);
            reveal(grammar::set_more);
            reveal(grammar::expression);
            reveal(grammar::skip_newlines);
            let member = self.expression()?;
            let ghost had = members@;
            let ghost added = member@;
            members.push(member);
            assert(expr_models_of(members@) =~= expr_models_of(had).push(added));
            let found = self.matches(TokenKind::Comma)?;
            self.skip_newlines()?;
            if !found {
                return self.set_end(members);
            }
        }
    }

    /// Reads the members of a tuple of the query language, up to the
    /// closing parenthesis.
    #[verifier::spinoff_prover]
    pub fn sql_tuple(&mut self) -> (r: Res<SqlExpression>)
        requires
            old(self).wf(),
        ensures
            steady(old(self), final(self)),
            final(self).result == old(self).result,
            final(self).manual_commit == old(self).manual_commit,
            r.is_ok() ==> consumed(old(self), final(self)),
            grammar::sql_tuple(old(self)@) == outcome(final(self), sql_read(r)),
    {
        reveal(grammar::sql_tuple);
        reveal(grammar::sql_tuple_more);
        let mut members: Vec<SqlExpression> = Vec::new();
        let first = self.sql_assignment()?;
        let ghost head = first@;
        members.push(first);
        assert(sql_models_of(members@) =~= seq![head]);
        loop
            invariant
                self.wf(),
                self.result == old(self).result,
                self.manual_commit == old(self).manual_commit,
                self.remaining() < old(self).remaining(),
                grammar::sql_tuple(old(self)@) == grammar::sql_tuple_more(
                    self@,
                    sql_models_of(members@),
                ),
            decreases self.remaining(),
        {
            reveal(grammar::sql_tuple);
            reveal(grammar::sql_tuple_more);
            if !self.matches(TokenKind::Comma)? {
                self.consume(TokenKind::RightParen, "Expected closing ) for tuple")?;
                proof {
                    crate::ast::lemma_sql_children(members);
                }
                return Ok(SqlExpression::Tuple(members));
            }
            let member = self.sql_assignment()?;
            let ghost had = members@;
            let ghost added = member@;
            members.push(member);
            assert(sql_models_of(members@) =~= sql_models_of(had).push(added));
        }
    }

    /// Reads the closing parenthesis of a tuple: one member is a scalar, any
    /// other number of them a tuple.
    fn tuple_end(&mut self, members: Vec<Expression>) -> (r: Res<Expression>)
        requires
            old(self).wf(),
        ensures
            steady(old(self), final(self)),
            final(self).result == old(self).result,
            final(self).manual_commit == old(self).manual_commit,
            r.is_ok() ==> consumed(old(self), final(self)),
            grammar::tuple_end(old(self)@, expr_models_of(members@)) == outcome(
                final(self),
                expr_read(r),
            ),
    {
        let mut members = members;
        self.consume(TokenKind::RightParen, "Expected closing ) for tuple")?;
        if members.len() == 1 {
            assert(expr_models_of(members@)[0] == members@[0]@);
            Ok(Expression::Scalar(Box::new(members.remove(0))))
        } else {
            proof {
                crate::ast::lemma_expr_children(members);
            }
            Ok(Expression::Tuple(members))
        }
    }

    /// Reads what stands between parentheses: one expression is a scalar,
    /// any other number of them a tuple.
    #[verifier::spinoff_prover]
    pub fn tuple(&mut self) -> (r: Res<Expression>)
        requires
            old(self).wf(),
        ensures
            steady(old(self), final(self)),
            final(self).result == old(self).result,
            final(self).manual_commit == old(self).manual_commit,
            grammar::tuple(old(self)@) == outcome(final(self), expr_read(r)),
        decreases old(self).remaining(), 12nat,
    {
        reveal(grammar::tuple);
        reveal(grammar::tuple_more);
        reveal(grammar::expression);
        reveal(grammar::skip_newlines);
        self.skip_newlines()?;
        let mut members: Vec<Expression> = Vec::new();
        assert(expr_models_of(members@) =~= Seq::empty());
        if self.check(TokenKind::RightParen) {
            return self.tuple_end(members);
        }
        loop
            invariant
                self.wf(),
                self.result == old(self).result,
                self.manual_commit == old(self).manual_commit,
                self.remaining() <= old(self).remaining(),
                grammar::tuple(old(self)@) == grammar::tuple_more(self@, expr_models_of(members@)),
            decreases self.remaining(),
        {
            reveal(grammar::tuple);
            reveal(grammar::tuple_more);
            reveal(grammar::expression);
            reveal(grammar::skip_newlines);
            let member = self.expression()?;
            let ghost had = members@;
            let ghost added = member@;
            members.push(member);
            assert(expr_models_of(members@) =~= expr_models_of(had).push(added));
            let found = self.matches(TokenKind::Comma)?;
            self.skip_newlines()?;
            if !found {
                return self.tuple_end(members);
            }
        }
    }

    /// Reads the query that the word at which reading stands starts.
    #[verifier::spinoff_prover]
    fn query(&mut self) -> (r: Res<SqlExpression>)
        requires
            old(self).wf(),
        ensures
            steady(old(self), final(self)),
            final(self).result == old(self).result,
            final(self).manual_commit == old(self).manual_commit,
            r.is_ok() ==> consumed(old(self), final(self)),
            grammar::query(old(self)@) == outcome(final(self), sql_read(r)),
    {
        reveal(grammar::query);
        if self.matches(TokenKind::Select)? {
            self.select()
        } else if self.matches(TokenKind::Insert)? {
            self.insert()
        } else if self.matches(TokenKind::Update)? {
            self.update()
        } else if self.matches(TokenKind::Delete)? {
            self.delete()
        } else if self.matches(TokenKind::Create)? {
            self.create()
        } else if self.matches(TokenKind::Alter)? {
            self.alter()
        } else {
            Err(unexpected_got("Expected sql expression, got a ", self.current.kind))
        }
    }

    /// Reads a query, up to the closing backtick.
    #[verifier::spinoff_prover]
    pub fn sql_expression(&mut self) -> (r: Res<Expression>)
        requires
            old(self).wf(),
        ensures
            steady(old(self), final(self)),
            final(self).result == old(self).result,
            final(self).manual_commit == old(self).manual_commit,
            r.is_ok() ==> consumed(old(self), final(self)),
            grammar::sql_expression(old(self)@) == outcome(final(self), expr_read(r)),
    {
        reveal(grammar::sql_expression);
        let sql = self.query()?;
        let mut message = String::from_str("Expected ` to end sql expression '");
        message.append(sql.to_text().as_str());
        message.append("'");
        self.consume(TokenKind::Backtick, message.as_str())?;
        Ok(Expression::Sql(sql))
    }

    /// Reads the entries of a select list, up to `from`.
    #[verifier::spinoff_prover]
    fn select_columns(&mut self) -> (r: Res<Vec<SelectItem>>)
        requires
            old(self).wf(),
        ensures
            steady(old(self), final(self)),
            final(self).result == old(self).result,
            final(self).manual_commit == old(self).manual_commit,
            grammar::select_columns(old(self)@, Seq::empty()) == outcome(
                final(self),
                entries_read(r),
            ),
    {
        reveal(grammar::select_columns);
        let mut columns: Vec<SelectItem> = Vec::new();
        assert(select_items_of(columns@) =~= Seq::empty());
        loop
            invariant
                self.wf(),
                self.result == old(self).result,
                self.manual_commit == old(self).manual_commit,
                self.remaining() <= old(self).remaining(),
                grammar::select_columns(old(self)@, Seq::empty()) == grammar::select_columns(
                    self@,
                    select_items_of(columns@),
                ),
            decreases self.remaining(),
        {
            reveal(grammar::select_columns);
            if self.check(TokenKind::From) {
                return Ok(columns);
            }
            let item = self.select_clause()?;
            let ghost had = columns@;
            let ghost added = item@;
            columns.push(item);
            assert(select_items_of(columns@) =~= select_items_of(had).push(added));
            if !self.matches(TokenKind::Comma)? {
                return Ok(columns);
            }
        }
    }

    /// Reads the condition of a query, where `where` stands.
    #[verifier::spinoff_prover]
    fn condition(&mut self) -> (r: Res<Option<Box<SqlExpression>>>)
        requires
            old(self).wf(),
        ensures
            steady(old(self), final(self)),
            final(self).result == old(self).result,
            final(self).manual_commit == old(self).manual_commit,
            grammar::condition(old(self)@) == outcome(final(self), opt_sql_read(r)),
    {
        reveal(grammar::condition);
        if self.matches(TokenKind::Where)? {
            let expr = self.sql_assignment()?;
            Ok(Some(Box::new(expr)))
        } else {
            Ok(None)
        }
    }

    /// Reads the order of a select, where `order by` stands.
    #[verifier::spinoff_prover]
    fn ordering(&mut self) -> (r: Res<Option<Box<SqlExpression>>>)
        requires
            old(self).wf(),
        ensures
            steady(old(self), final(self)),
            final(self).result == old(self).result,
            final(self).manual_commit == old(self).manual_commit,
            grammar::ordering(old(self)@) == outcome(final(self), opt_sql_read(r)),
    {
        reveal(grammar::ordering);
        if self.matches(TokenKind::Order)? {
            self.consume(TokenKind::By, "Expected by after order in select")?;
            let expr = self.sql_multiplicative()?;
            Ok(Some(Box::new(expr)))
        } else {
            Ok(None)
        }
    }

    /// Reads the number behind the word of the given kind, where that
    /// word stands.
    #[verifier::spinoff_prover]
    fn bound(&mut self, kind: TokenKind, expected: &str) -> (r: Res<Option<i16>>)
        requires
            old(self).wf(),
            kind != TokenKind::Eof,
        ensures
            steady(old(self), final(self)),
            final(self).result == old(self).result,
            final(self).manual_commit == old(self).manual_commit,
            grammar::bound(old(self)@, kind, expected@) == outcome(final(self), opt_int_read(r)),
    {
        reveal(grammar::bound);
        if self.matches(kind)? {
            self.consume(TokenKind::Number, expected)?;
            match parse_integer(&self.previous.lexeme) {
                Ok(i) => Ok(Some(i)),
                Err(e) => Err(ParserErrorKind::ParseInt(e)),
            }
        } else {
            Ok(None)
        }
    }

    /// Reads whether a select locks its rows: where `for update` stands.
    #[verifier::spinoff_prover]
    fn locking(&mut self) -> (r: Res<bool>)
        requires
            old(self).wf(),
        ensures
            steady(old(self), final(self)),
            final(self).result == old(self).result,
            final(self).manual_commit == old(self).manual_commit,
            grammar::locking(old(self)@) == outcome(final(self), flag_read(r)),
    {
        reveal(grammar::locking);
        if self.matches(TokenKind::For)? {
            self.consume(TokenKind::Update, "Expected update after lock condition in select")?;
            Ok(true)
        } else {
            Ok(false)
        }
    }

    /// Reads a select after its first word.
    #[verifier::spinoff_prover]
    pub fn select(&mut self) -> (r: Res<SqlExpression>)
        requires
            old(self).wf(),
        ensures
            steady(old(self), final(self)),
            final(self).result == old(self).result,
            final(self).manual_commit == old(self).manual_commit,
            r.is_ok() ==> consumed(old(self), final(self)),
            grammar::select(old(self)@) == outcome(final(self), sql_read(r)),
    {
        reveal(grammar::select);
        let columns = self.select_columns()?;
        match mixed_item(&columns) {
            Some(item) => {
                return Err(ParserErrorKind::AggregateError(item));
            },
            None => {},
        }
        self.consume(TokenKind::From, "Expected from clause")?;
        let from = self.parse_variable("Expected relation for select from")?;
        let condition = self.condition()?;
        let order_by = self.ordering()?;
        let limit = self.bound(TokenKind::Limit, "Expected number after limit")?;
        let offset = self.bound(TokenKind::Offset, "Expected number after offset")?;
        let locking = self.locking()?;
        Ok(SqlExpression::Select { columns, from, condition, order_by, limit, offset, locking })
    }

    /// Reads one entry of a select list.
    #[verifier::spinoff_prover]
    pub fn select_clause(&mut self) -> (r: Res<SelectItem>)
        requires
            old(self).wf(),
        ensures
            steady(old(self), final(self)),
            final(self).result == old(self).result,
            final(self).manual_commit == old(self).manual_commit,
            r.is_ok() ==> consumed(old(self), final(self)),
            grammar::select_clause(old(self)@) == outcome(final(self), entry_read(r)),
    {
        reveal(grammar::select_clause);
        if self.matches(TokenKind::Count)? {
            self.consume(TokenKind::LeftParen, "Expected ( after count")?;
            let item = self.parse_select_item()?;
            self.consume(TokenKind::RightParen, "Expected ) after count")?;
            Ok(SelectItem::Count(item))
        } else {
            let item = self.parse_select_item()?;
            Ok(SelectItem::Column(item))
        }
    }

    /// Reads what a select item names.
    #[verifier::spinoff_prover]
    pub fn parse_select_item(&mut self) -> (r: Res<Item>)
        requires
            old(self).wf(),
        ensures
            steady(old(self), final(self)),
            final(self).result == old(self).result,
            final(self).manual_commit == old(self).manual_commit,
            r.is_ok() ==> consumed(old(self), final(self)),
            grammar::select_item(old(self)@) == outcome(final(self), item_read(r)),
    {
        reveal(grammar::select_item);
        if self.matches(TokenKind::Star)? {
            Ok(Item::Wildcard)
        } else if self.matches(TokenKind::Identifier)? {
            Ok(Item::Column(self.make_variable().name))
        } else {
            Err(unexpected_kind("Expected select clause, got a ", self.current.kind, " instead"))
        }
    }

    /// Reads the assignments of an update.
    #[verifier::spinoff_prover]
    fn assignments(&mut self) -> (r: Res<Vec<SqlExpression>>)
        requires
            old(self).wf(),
        ensures
            steady(old(self), final(self)),
            final(self).result == old(self).result,
            final(self).manual_commit == old(self).manual_commit,
            r.is_ok() ==> consumed(old(self), final(self)),
            grammar::assignments(old(self)@, Seq::empty()) == outcome(
                final(self),
                sql_list_read(r),
            ),
    {
        reveal(grammar::assignments);
        let mut updates: Vec<SqlExpression> = Vec::new();
        assert(sql_models_of(updates@) =~= Seq::empty());
        loop
            invariant
                self.wf(),
                self.result == old(self).result,
                self.manual_commit == old(self).manual_commit,
                self.remaining() <= old(self).remaining(),
                grammar::assignments(old(self)@, Seq::empty()) == grammar::assignments(
                    self@,
                    sql_models_of(updates@),
                ),
            decreases self.remaining(),
        {
            reveal(grammar::assignments);
            let item = self.sql_assignment()?;
            let ghost had = updates@;
            let ghost added = item@;
            updates.push(item);
            assert(sql_models_of(updates@) =~= sql_models_of(had).push(added));
            if !self.matches(TokenKind::Comma)? {
                return Ok(updates);
            }
        }
    }

    /// Reads an update after its first word.
    #[verifier::spinoff_prover]
    pub fn update(&mut self) -> (r: Res<SqlExpression>)
        requires
            old(self).wf(),
        ensures
            steady(old(self), final(self)),
            final(self).result == old(self).result,
            final(self).manual_commit == old(self).manual_commit,
            r.is_ok() ==> consumed(old(self), final(self)),
            grammar::update(old(self)@) == outcome(final(self), sql_read(r)),
    {
        reveal(grammar::update);
        let relation = self.parse_variable("expected relation for update")?;
        self.consume(TokenKind::SetKeyword, "Expected set for update expression")?;
        let updates = self.assignments()?;
        let condition = self.condition()?;
        proof {
            crate::ast::lemma_sql_children(updates);
        }
        Ok(SqlExpression::Update { relation, updates, condition })
    }

    /// Reads a delete after its first word.
    #[verifier::spinoff_prover]
    pub fn delete(&mut self) -> (r: Res<SqlExpression>)
        requires
            old(self).wf(),
        ensures
            steady(old(self), final(self)),
            final(self).result == old(self).result,
            final(self).manual_commit == old(self).manual_commit,
            r.is_ok() ==> consumed(old(self), final(self)),
            grammar::delete(old(self)@) == outcome(final(self), sql_read(r)),
    {
        reveal(grammar::delete);
        self.consume(TokenKind::From, "Expected from clause")?;
        let relation = self.parse_variable("expect relation for delete")?;
        let condition = self.condition()?;
        Ok(SqlExpression::Delete { relation, condition })
    }

    /// Reads the closing parenthesis of a list of names.
    fn names_end(&mut self, columns: Vec<Variable>) -> (r: Res<Vec<Variable>>)
        requires
            old(self).wf(),
        ensures
            steady(old(self), final(self)),
            final(self).result == old(self).result,
            final(self).manual_commit == old(self).manual_commit,
            r.is_ok() ==> consumed(old(self), final(self)),
            grammar::names_end(old(self)@, names_of(columns@)) == outcome(
                final(self),
                names_read(r),
            ),
    {
        self.consume(TokenKind::RightParen, "Expected ) closing columns declaration")?;
        Ok(columns)
    }

    /// Reads a list of names between parentheses, after the opening one.
    #[verifier::spinoff_prover]
    fn names(&mut self) -> (r: Res<Vec<Variable>>)
        requires
            old(self).wf(),
        ensures
            steady(old(self), final(self)),
            final(self).result == old(self).result,
            final(self).manual_commit == old(self).manual_commit,
            r.is_ok() ==> consumed(old(self), final(self)),
            grammar::names(old(self)@, Seq::empty()) == outcome(final(self), names_read(r)),
    {
        reveal(grammar::names);
        let mut columns: Vec<Variable> = Vec::new();
        assert(names_of(columns@) =~= Seq::empty());
        loop
            invariant
                self.wf(),
                self.result == old(self).result,
                self.manual_commit == old(self).manual_commit,
                self.remaining() <= old(self).remaining(),
                grammar::names(old(self)@, Seq::empty()) == grammar::names(
                    self@,
                    names_of(columns@),
                ),
            decreases self.remaining(),
        {
            reveal(grammar::names);
            if !self.matches(TokenKind::Identifier)? {
                return self.names_end(columns);
            }
            let ghost had = columns@;
            let column = self.make_variable();
            let ghost added = column@;
            columns.push(column);
            assert(names_of(columns@) =~= names_of(had).push(added));
            if !self.matches(TokenKind::Comma)? {
                return self.names_end(columns);
            }
        }
    }

    /// Reads the declaration of a unique index after its first word.
    #[verifier::spinoff_prover]
    pub fn create(&mut self) -> (r: Res<SqlExpression>)
        requires
            old(self).wf(),
        ensures
            steady(old(self), final(self)),
            final(self).result == old(self).result,
            final(self).manual_commit == old(self).manual_commit,
            r.is_ok() ==> consumed(old(self), final(self)),
            grammar::create(old(self)@) == outcome(final(self), sql_read(r)),
    {
        reveal(grammar::create);
        self.consume(TokenKind::Unique, "Expected unique after create")?;
        self.consume(TokenKind::Index, "Expected index after create unique")?;
        self.consume(TokenKind::On, "Expected on after create unique index")?;
        let relation = self.parse_variable("Expected table object for create unique index")?;
        self.consume(TokenKind::LeftParen, "Expected column declaration after relation")?;
        let columns = self.names()?;
        Ok(SqlExpression::Create { relation, columns })
    }

    /// Reads the table and the constraint of the declaration of a foreign
    /// key, up to the opening parenthesis of its columns.
    #[verifier::spinoff_prover]
    fn alter_head(&mut self) -> (r: Res<(Variable, Variable)>)
        requires
            old(self).wf(),
        ensures
            steady(old(self), final(self)),
            final(self).result == old(self).result,
            final(self).manual_commit == old(self).manual_commit,
            r.is_ok() ==> consumed(old(self), final(self)),
            grammar::alter_head(old(self)@) == outcome(final(self), pair_read(r)),
    {
        reveal(grammar::alter_head);
        self.consume(TokenKind::Table, "Expected table after alter")?;
        let relation = self.parse_variable("Expected table name to alter")?;
        self.consume(TokenKind::Add, "Expected add after alter table name")?;
        self.consume(TokenKind::Constraint, "Expected constraint after add")?;
        let constraint_name = self.parse_variable("Expected constraint name to alter")?;
        self.consume(TokenKind::Foreign, "Expected foreign after constraint name")?;
        self.consume(TokenKind::Key, "Expected key after foreign")?;
        self.consume(TokenKind::LeftParen, "Expected column declaration after foreign key")?;
        Ok((relation, constraint_name))
    }

    /// Reads the declaration of a foreign key after its first word.
    #[verifier::spinoff_prover]
    pub fn alter(&mut self) -> (r: Res<SqlExpression>)
        requires
            old(self).wf(),
        ensures
            steady(old(self), final(self)),
            final(self).result == old(self).result,
            final(self).manual_commit == old(self).manual_commit,
            r.is_ok() ==> consumed(old(self), final(self)),
            grammar::alter(old(self)@) == outcome(final(self), sql_read(r)),
    {
        reveal(grammar::alter);
        let (relation, constraint_name) = self.alter_head()?;
        let columns = self.names()?;
        self.consume(TokenKind::References, "Expected reference after foreign key columns")?;
        let reference_relation = self.parse_variable("Expected table name to reference")?;
        self.consume(TokenKind::LeftParen, "Expected column declaration after foreign key")?;
        let reference_columns = self.names()?;
        Ok(
            SqlExpression::Alter {
                constraint_name,
                relation,
                columns,
                reference_relation,
                reference_columns,
            },
        )
    }

    /// Reads the rows of an insert.
    #[verifier::spinoff_prover]
    fn rows(&mut self) -> (r: Res<Vec<SqlExpression>>)
        requires
            old(self).wf(),
        ensures
            steady(old(self), final(self)),
            final(self).result == old(self).result,
            final(self).manual_commit == old(self).manual_commit,
            grammar::rows(old(self)@, Seq::empty()) == outcome(final(self), sql_list_read(r)),
    {
        reveal(grammar::rows);
        let mut values: Vec<SqlExpression> = Vec::new();
        assert(sql_models_of(values@) =~= Seq::empty());
        loop
            invariant
                self.wf(),
                self.result == old(self).result,
                self.manual_commit == old(self).manual_commit,
                self.remaining() <= old(self).remaining(),
                grammar::rows(old(self)@, Seq::empty()) == grammar::rows(
                    self@,
                    sql_models_of(values@),
                ),
            decreases self.remaining(),
        {
            reveal(grammar::rows);
            if !self.matches_forward(TokenKind::LeftParen)? {
                return Ok(values);
            }
            let tuple = self.sql_tuple()?;
            let ghost had = values@;
            let ghost added = tuple@;
            values.push(tuple);
            assert(sql_models_of(values@) =~= sql_models_of(had).push(added));
            if !self.matches(TokenKind::Comma)? {
                return Ok(values);
            }
        }
    }

    /// Reads an insert after its first word.
    #[verifier::spinoff_prover]
    pub fn insert(&mut self) -> (r: Res<SqlExpression>)
        requires
            old(self).wf(),
        ensures
            steady(old(self), final(self)),
            final(self).result == old(self).result,
            final(self).manual_commit == old(self).manual_commit,
            r.is_ok() ==> consumed(old(self), final(self)),
            grammar::insert(old(self)@) == outcome(final(self), sql_read(r)),
    {
        reveal(grammar::insert);
        self.consume(TokenKind::Into, "Expected into after insert")?;
        let relation = self.parse_variable("Expected relation after insert into")?;
        self.consume(TokenKind::LeftParen, "Expected column declaration after relation")?;
        let columns = self.names()?;
        self.consume(TokenKind::Values, "Expected values after relation declaration")?;
        let values = self.rows()?;
        proof {
            crate::ast::lemma_sql_children(values);
        }
        Ok(SqlExpression::Insert { relation, columns, values })
    }

    /// The name that the token read last spells.
    pub fn make_variable(&self) -> (r: Variable)
        ensures
            r@ == self.previous.lexeme@,
    {
        Variable { name: self.previous.lexeme.clone() }
    }

    /// Reads on over line breaks.
    #[verifier::spinoff_prover]
    pub fn skip_newlines(&mut self) -> (r: Unit)
        requires
            old(self).wf(),
        ensures
            steady(old(self), final(self)),
            final(self).manual_commit == old(self).manual_commit,
            final(self).result == old(self).result,
            grammar::skip_newlines(old(self)@) == outcome(final(self), unit_read(r)),
    {
        reveal(grammar::skip_newlines);
        loop
            invariant
                self.wf(),
                self.result == old(self).result,
                self.remaining() <= old(self).remaining(),
                self.manual_commit == old(self).manual_commit,
                grammar::skip_newlines(old(self)@) == grammar::skip_newlines(self@),
            decreases self.remaining(),
        {
            reveal(grammar::skip_newlines);
            if !self.check(TokenKind::Newline) {
                return Ok(());
            }
            self.advance()?;
        }
    }
}

/// The first entry of a select list that is no count, where the list has a
/// count as well.
fn mixed_item(columns: &Vec<SelectItem>) -> (r: Option<SelectItem>)
    ensures
        grammar::mixed(select_items_of(columns@)) == match r {
            Some(item) => Some(item@),
            None => None::<SelectItemModel>,
        },
{
    let ghost items = select_items_of(columns@);
    let mut counts = false;
    let mut i: usize = 0;
    while i < columns.len()
        invariant
            i <= columns.len(),
            items == select_items_of(columns@),
            counts == (exists|j: int| 0 <= j < i && (#[trigger] items[j]) is Count),
        decreases columns.len() - i,
    {
        assert(items[i as int] == columns@[i as int]@);
        match &columns[i] {
            SelectItem::Count(_) => {
                counts = true;
            },
            _ => {},
        }
        i += 1;
    }
    if !counts {
        return None;
    }
    let mut k: usize = 0;
    while k < columns.len()
        invariant
            k <= columns.len(),
            items == select_items_of(columns@),
            exists|j: int| 0 <= j < items.len() && (#[trigger] items[j]) is Count,
            grammar::first_plain(items, 0) == grammar::first_plain(items, k as int),
        decreases columns.len() - k,
    {
        assert(items[k as int] == columns@[k as int]@);
        let counted = match &columns[k] {
            SelectItem::Count(_) => true,
            _ => false,
        };
        if !counted {
            return Some(columns[k].clone());
        }
        k += 1;
    }
    None
}

/// A list of two kinds holds those two and no other.
proof fn lemma_two(kinds: Seq<TokenKind>)
    requires
        kinds.len() == 2,
    ensures
        forall|k: TokenKind| kinds.contains(k) ==> k == kinds[0] || k == kinds[1],
{
    assert forall|k: TokenKind| kinds.contains(k) implies k == kinds[0] || k == kinds[1] by {
        let i = choose|i: int| 0 <= i < kinds.len() && kinds[i] == k;
    }
}

/// A list of three kinds holds those three and no other.
proof fn lemma_three(kinds: Seq<TokenKind>)
    requires
        kinds.len() == 3,
    ensures
        forall|k: TokenKind| kinds.contains(k) ==> k == kinds[0] || k == kinds[1] || k == kinds[2],
{
    assert forall|k: TokenKind| kinds.contains(k) implies k == kinds[0] || k == kinds[1] || k
        == kinds[2] by {
        let i = choose|i: int| 0 <= i < kinds.len() && kinds[i] == k;
    }
}

/// A list of four kinds holds those four and no other.
proof fn lemma_four(kinds: Seq<TokenKind>)
    requires
        kinds.len() == 4,
    ensures
        forall|k: TokenKind|
            kinds.contains(k) ==> k == kinds[0] || k == kinds[1] || k == kinds[2] || k == kinds[3],
{
    assert forall|k: TokenKind| kinds.contains(k) implies k == kinds[0] || k == kinds[1] || k
        == kinds[2] || k == kinds[3] by {
        let i = choose|i: int| 0 <= i < kinds.len() && kinds[i] == k;
    }
}

} // verus!
