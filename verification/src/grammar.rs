//! The grammar of models: what reading a text gives, token by token. A
//! reader stands in the text with one token ahead; each rule of the grammar
//! says, for a reader, where reading that rule leaves it and what was read,
//! or at which token reading fails and why.

use crate::ast::{
    ExprModel, IsolationLevel, ItemModel, MetsModel, Operator, SelectItemModel, SqlModel,
    SqlOperator, StatementModel,
};
use crate::parser::{decimal, IntegerError};
use crate::render::{kind_text, sql_text, token_text};
use crate::scanner::{
    blanks_end, lexed_at, moved, reached, span, Cursor, Lexed, Position, ScannerErrorModel,
    TokenKind, TokenModel,
};
use vstd::prelude::*;

verus! {

/// Why a text could not be read as a model.
pub enum KindModel {
    AggregateError(SelectItemModel),
    ParseInt(IntegerError),
    Scanner(ScannerErrorModel),
    Unexpected(Seq<char>),
}

/// A failure to read: its kind, and the token at which reading stood.
pub struct Fault {
    pub current: TokenModel,
    pub kind: KindModel,
}

/// A reader in a text: the place up to which the text is read, the token
/// read last, the token that reading goes on with, and whether the
/// transaction block being read has ended its transaction itself.
pub struct Reader {
    pub source: Seq<char>,
    pub place: Cursor,
    pub previous: TokenModel,
    pub current: TokenModel,
    pub manual_commit: bool,
}

/// What reading gives: where it leaves the reader and what was read, or the
/// failure.
pub type Read<T> = Result<(Reader, T), Fault>;

impl Reader {
    /// How much is left to read: the characters not yet read, and the
    /// token that reading goes on with unless it stands for the end.
    pub open spec fn left(self) -> nat {
        ((if self.place.index < self.source.len() {
            self.source.len() - self.place.index
        } else {
            0
        }) + if self.current.kind == TokenKind::Eof {
            0int
        } else {
            1int
        }) as nat
    }
}

/// Whether less is left to read at `q` than at `p`.
pub open spec fn onward(p: Reader, q: Reader) -> bool {
    q.left() < p.left()
}

/// Whether no more is left to read at `q` than at `p`.
pub open spec fn held(p: Reader, q: Reader) -> bool {
    q.left() <= p.left()
}

/// The failure of the given kind at the token that reading goes on with.
pub open spec fn fail<T>(p: Reader, kind: KindModel) -> Read<T> {
    Err(Fault { current: p.current, kind })
}

/// The failure that says what was expected at the token that reading goes
/// on with.
pub open spec fn expected<T>(p: Reader, message: Seq<char>) -> Read<T> {
    fail(p, KindModel::Unexpected(message))
}

/// What a rule gives where it would read on from a reader at which no
/// less is left to read than where the rule began: the rules read on only
/// from where less is left, which is what makes them well founded.
pub open spec fn stalled<T>(p: Reader) -> Read<T> {
    expected(p, "Expected to read on"@)
}

/// Reads the next token: the token read last is the one that reading went
/// on with.
#[verifier::opaque]
pub open spec fn advance(p: Reader) -> Read<()> {
    let start = moved(p.place, blanks_end(p.source, p.place.index as int) - p.place.index);
    let (lexed, end) = lexed_at(p.source, start.index as int);
    let stop = reached(p.source, start, end);
    let lexeme = p.source.subrange(start.index as int, end);
    let position = span(start, stop);
    match lexed {
        Lexed::Token(kind) => Ok(
            (
                Reader {
                    place: stop,
                    previous: p.current,
                    current: TokenModel { kind, lexeme, position },
                    ..p
                },
                (),
            ),
        ),
        Lexed::Fault(expected) => fail(
            p,
            KindModel::Scanner(ScannerErrorModel { expected, lexeme, position }),
        ),
    }
}

/// Reads on if reading goes on with a token of the kind, and says whether
/// it did.
pub open spec fn matches(p: Reader, kind: TokenKind) -> Read<bool> {
    if p.current.kind == kind {
        match advance(p) {
            Err(e) => Err(e),
            Ok((q, _)) => Ok((q, true)),
        }
    } else {
        Ok((p, false))
    }
}

/// Reads on if reading goes on with a token of one of the kinds, and says
/// whether it did.
pub open spec fn matches_within(p: Reader, kinds: Seq<TokenKind>) -> Read<bool> {
    if kinds.contains(p.current.kind) {
        match advance(p) {
            Err(e) => Err(e),
            Ok((q, _)) => Ok((q, true)),
        }
    } else {
        Ok((p, false))
    }
}

/// Reads on if reading goes on with a token of the kind; fails with what
/// was expected otherwise.
pub open spec fn consume(p: Reader, kind: TokenKind, message: Seq<char>) -> Read<()> {
    if p.current.kind == kind {
        advance(p)
    } else {
        expected(p, message)
    }
}

/// Reads on over line breaks.
#[verifier::opaque]
pub open spec fn skip_newlines(p: Reader) -> Read<()>
    decreases p.left(),
{
    if p.current.kind != TokenKind::Newline {
        Ok((p, ()))
    } else {
        match advance(p) {
            Err(e) => Err(e),
            Ok((q, _)) => if onward(p, q) {
                skip_newlines(q)
            } else {
                stalled(q)
            },
        }
    }
}

/// Reads the end of a line, and the empty lines after it; at the end of
/// the text there is nothing to read.
pub open spec fn end_line(p: Reader) -> Read<()> {
    if p.current.kind == TokenKind::Eof {
        Ok((p, ()))
    } else {
        match consume(p, TokenKind::Newline, "Expected newline after declaration"@) {
            Err(e) => Err(e),
            Ok((q, _)) => skip_newlines(q),
        }
    }
}

/// The kind of the first token that is no line break, from a token of the
/// given kind on that is followed by the text from `place`; the end of the
/// text where only line breaks are left. Fails where the text cannot be
/// read that far.
pub open spec fn kind_ahead(source: Seq<char>, place: Cursor, kind: TokenKind) -> Result<
    TokenKind,
    ScannerErrorModel,
>
    decreases source.len() - place.index,
{
    if kind != TokenKind::Newline {
        Ok(kind)
    } else {
        let start = moved(place, blanks_end(source, place.index as int) - place.index);
        let (lexed, end) = lexed_at(source, start.index as int);
        let stop = reached(source, start, end);
        match lexed {
            Lexed::Fault(expected) => Err(
                ScannerErrorModel {
                    expected,
                    lexeme: source.subrange(start.index as int, end),
                    position: span(start, stop),
                },
            ),
            Lexed::Token(next) => if next != TokenKind::Eof && place.index < stop.index
                <= source.len() {
                kind_ahead(source, stop, next)
            } else {
                Ok(TokenKind::Eof)
            },
        }
    }
}

/// Reads on, over line breaks, if the next token that is no line break is
/// of one of the kinds, and says whether it did.
#[verifier::opaque]
pub open spec fn matches_forward_within(p: Reader, kinds: Seq<TokenKind>) -> Read<bool> {
    match kind_ahead(p.source, p.place, p.current.kind) {
        Err(fault) => fail(p, KindModel::Scanner(fault)),
        Ok(kind) => if kinds.contains(kind) {
            match skip_newlines(p) {
                Err(e) => Err(e),
                Ok((q, _)) => match advance(q) {
                    Err(e) => Err(e),
                    Ok((after, _)) => Ok((after, true)),
                },
            }
        } else {
            Ok((p, false))
        },
    }
}

/// Reads on, over line breaks, if the next token that is no line break is
/// of the kind, and says whether it did.
pub open spec fn matches_forward(p: Reader, kind: TokenKind) -> Read<bool> {
    matches_forward_within(p, seq![kind])
}

/// Reads a name.
pub open spec fn name(p: Reader, message: Seq<char>) -> Read<Seq<char>> {
    match consume(p, TokenKind::Identifier, message) {
        Err(e) => Err(e),
        Ok((q, _)) => Ok((q, q.previous.lexeme)),
    }
}

/// The 16-bit integer that a text spells in decimal digits.
pub open spec fn integer_of(lexeme: Seq<char>) -> Result<int, IntegerError> {
    match decimal(lexeme, lexeme.len() as int) {
        None => Err(IntegerError::InvalidDigit),
        Some(v) => if v > 32767 {
            Err(IntegerError::Overflow)
        } else {
            Ok(v)
        },
    }
}

/// The number that the token read last spells.
pub open spec fn number_read(p: Reader) -> Read<int> {
    match integer_of(p.previous.lexeme) {
        Ok(i) => Ok((p, i)),
        Err(e) => fail(p, KindModel::ParseInt(e)),
    }
}

/// The sign of a comparison of the query language.
pub open spec fn sql_comparison_sign(kind: TokenKind) -> SqlOperator {
    match kind {
        TokenKind::LeftCarret => SqlOperator::Less,
        TokenKind::LessEqual => SqlOperator::LessEqual,
        TokenKind::GreaterEqual => SqlOperator::GreaterEqual,
        _ => SqlOperator::Greater,
    }
}

/// The sign of a sum or a difference of the query language.
pub open spec fn sql_term_sign(kind: TokenKind) -> SqlOperator {
    match kind {
        TokenKind::Minus => SqlOperator::Subtract,
        _ => SqlOperator::Add,
    }
}

/// The sign of a product, a quotient or a remainder of the query language.
pub open spec fn sql_factor_sign(kind: TokenKind) -> SqlOperator {
    match kind {
        TokenKind::Slash => SqlOperator::Divide,
        TokenKind::Percent => SqlOperator::Rem,
        _ => SqlOperator::Multiply,
    }
}

/// The sign of an equality of the query language.
pub open spec fn sql_equality_sign(kind: TokenKind) -> SqlOperator {
    match kind {
        TokenKind::Different => SqlOperator::NotEqual,
        _ => SqlOperator::Equal,
    }
}

/// Two operands of the query language under a sign.
pub open spec fn sql_binary(left: SqlModel, operator: SqlOperator, right: SqlModel) -> SqlModel {
    SqlModel::Binary { left: Box::new(left), operator, right: Box::new(right) }
}

/// A number, a string, a variable of the program after `$`, a column, or
/// what stands between parentheses.
#[verifier::opaque]
pub open spec fn sql_primary(p: Reader) -> Read<SqlModel>
    decreases p.left(), 0nat,
{
    if p.current.kind == TokenKind::Number {
        match advance(p) {
            Err(e) => Err(e),
            Ok((q, _)) => match number_read(q) {
                Err(e) => Err(e),
                Ok((q, i)) => Ok((q, SqlModel::Integer(i))),
            },
        }
    } else if p.current.kind == TokenKind::String {
        match advance(p) {
            Err(e) => Err(e),
            Ok((q, _)) => Ok((q, SqlModel::Str(q.previous.lexeme))),
        }
    } else if p.current.kind == TokenKind::Dollar {
        match advance(p) {
            Err(e) => Err(e),
            Ok((q, _)) => match name(q, "Expect identifier after $"@) {
                Err(e) => Err(e),
                Ok((after, variable)) => Ok((after, SqlModel::UpVariable(variable))),
            },
        }
    } else if p.current.kind == TokenKind::Identifier {
        match advance(p) {
            Err(e) => Err(e),
            Ok((q, _)) => Ok((q, SqlModel::Var(q.previous.lexeme))),
        }
    } else if p.current.kind == TokenKind::LeftParen {
        match advance(p) {
            Err(e) => Err(e),
            Ok((q, _)) => if onward(p, q) {
                sql_set(q)
            } else {
                stalled(q)
            },
        }
    } else {
        expected(p, "Expected sql expression, got a "@ + kind_text(p.current.kind))
    }
}

/// A chain of products, quotients and remainders of the query language,
/// which groups to the left.
#[verifier::opaque]
pub open spec fn sql_multiplicative(p: Reader) -> Read<SqlModel>
    decreases p.left(), 1nat,
{
    match sql_primary(p) {
        Err(e) => Err(e),
        Ok((q, left)) => if onward(p, q) {
            sql_factors(q, left)
        } else {
            stalled(q)
        },
    }
}

/// The rest of a chain of products, quotients and remainders behind
/// `left`.
#[verifier::opaque]
pub open spec fn sql_factors(p: Reader, left: SqlModel) -> Read<SqlModel>
    decreases p.left(), 0nat,
{
    match matches_forward_within(p, seq![TokenKind::Star, TokenKind::Slash, TokenKind::Percent]) {
        Err(e) => Err(e),
        Ok((q, found)) => if !found {
            Ok((q, left))
        } else if onward(p, q) {
            match sql_primary(q) {
                Err(e) => Err(e),
                Ok((after, right)) => if onward(p, after) {
                    sql_factors(
                        after,
                        sql_binary(left, sql_factor_sign(q.previous.kind), right),
                    )
                } else {
                    stalled(after)
                },
            }
        } else {
            stalled(q)
        },
    }
}

/// A chain of sums and differences of the query language, which groups to
/// the left.
#[verifier::opaque]
pub open spec fn sql_additive(p: Reader) -> Read<SqlModel>
    decreases p.left(), 2nat,
{
    match sql_multiplicative(p) {
        Err(e) => Err(e),
        Ok((q, left)) => if onward(p, q) {
            sql_terms(q, left)
        } else {
            stalled(q)
        },
    }
}

/// The rest of a chain of sums and differences behind `left`.
#[verifier::opaque]
pub open spec fn sql_terms(p: Reader, left: SqlModel) -> Read<SqlModel>
    decreases p.left(), 0nat,
{
    match matches_forward_within(p, seq![TokenKind::Plus, TokenKind::Minus]) {
        Err(e) => Err(e),
        Ok((q, found)) => if !found {
            Ok((q, left))
        } else if onward(p, q) {
            match sql_multiplicative(q) {
                Err(e) => Err(e),
                Ok((after, right)) => if onward(p, after) {
                    sql_terms(after, sql_binary(left, sql_term_sign(q.previous.kind), right))
                } else {
                    stalled(after)
                },
            }
        } else {
            stalled(q)
        },
    }
}

/// A range test of the query language: a sum, and where `between` follows,
/// the two bounds with `and` between them.
#[verifier::opaque]
pub open spec fn sql_between(p: Reader) -> Read<SqlModel>
    decreases p.left(), 3nat,
{
    match sql_additive(p) {
        Err(e) => Err(e),
        Ok((q, left)) => if onward(p, q) {
            sql_bounds(q, left)
        } else {
            stalled(q)
        },
    }
}

/// The bounds of a range test behind what is tested, where `between`
/// follows.
#[verifier::opaque]
pub open spec fn sql_bounds(p: Reader, left: SqlModel) -> Read<SqlModel>
    decreases p.left(), 1nat,
{
    match matches_forward(p, TokenKind::Between) {
        Err(e) => Err(e),
        Ok((q, found)) => if !found {
            Ok((q, left))
        } else if onward(p, q) {
            match sql_additive(q) {
                Err(e) => Err(e),
                Ok((after, lower)) => if onward(p, after) {
                    sql_upper(after, left, lower)
                } else {
                    stalled(after)
                },
            }
        } else {
            stalled(q)
        },
    }
}

/// The upper bound of a range test behind the lower one: `and`, and a sum.
#[verifier::opaque]
pub open spec fn sql_upper(p: Reader, left: SqlModel, lower: SqlModel) -> Read<SqlModel>
    decreases p.left(), 0nat,
{
    match consume(p, TokenKind::And, "Expected and for upper bound of the between"@) {
        Err(e) => Err(e),
        Ok((q, _)) => if onward(p, q) {
            match sql_additive(q) {
                Err(e) => Err(e),
                Ok((after, upper)) => Ok(
                    (
                        after,
                        sql_binary(left, SqlOperator::Between, SqlModel::Tuple(seq![lower, upper])),
                    ),
                ),
            }
        } else {
            stalled(q)
        },
    }
}

/// A membership test of the query language.
#[verifier::opaque]
pub open spec fn sql_in(p: Reader) -> Read<SqlModel>
    decreases p.left(), 4nat,
{
    match sql_between(p) {
        Err(e) => Err(e),
        Ok((q, left)) => if onward(p, q) {
            sql_included_in(q, left)
        } else {
            stalled(q)
        },
    }
}

/// What something is tested to be in, where `in` follows it.
#[verifier::opaque]
pub open spec fn sql_included_in(p: Reader, left: SqlModel) -> Read<SqlModel>
    decreases p.left(), 0nat,
{
    match matches_forward(p, TokenKind::In) {
        Err(e) => Err(e),
        Ok((q, found)) => if !found {
            Ok((q, left))
        } else {
            if onward(p, q) {
                match sql_between(q) {
                    Err(e) => Err(e),
                    Ok((after, right)) => Ok((after, sql_binary(left, SqlOperator::In, right))),
                }
            } else {
                stalled(q)
            }
        },
    }
}

/// A chain of comparisons of the query language, which groups to the
/// left.
#[verifier::opaque]
pub open spec fn sql_comparison(p: Reader) -> Read<SqlModel>
    decreases p.left(), 5nat,
{
    match sql_in(p) {
        Err(e) => Err(e),
        Ok((q, left)) => if onward(p, q) {
            sql_comparisons(q, left)
        } else {
            stalled(q)
        },
    }
}

/// The rest of a chain of comparisons behind `left`.
#[verifier::opaque]
pub open spec fn sql_comparisons(p: Reader, left: SqlModel) -> Read<SqlModel>
    decreases p.left(), 0nat,
{
    match matches_forward_within(
        p,
        seq![
            TokenKind::LeftCarret,
            TokenKind::LessEqual,
            TokenKind::GreaterEqual,
            TokenKind::RightCarret,
        ],
    ) {
        Err(e) => Err(e),
        Ok((q, found)) => if !found {
            Ok((q, left))
        } else if onward(p, q) {
            match sql_in(q) {
                Err(e) => Err(e),
                Ok((after, right)) => if onward(p, after) {
                    sql_comparisons(
                        after,
                        sql_binary(left, sql_comparison_sign(q.previous.kind), right),
                    )
                } else {
                    stalled(after)
                },
            }
        } else {
            stalled(q)
        },
    }
}

/// An equality of the query language: one comparison, or two with the sign
/// between them.
#[verifier::opaque]
pub open spec fn sql_equality(p: Reader) -> Read<SqlModel>
    decreases p.left(), 6nat,
{
    match sql_comparison(p) {
        Err(e) => Err(e),
        Ok((q, left)) => if onward(p, q) {
            sql_equal(q, left)
        } else {
            stalled(q)
        },
    }
}

/// The right side of an equality behind the left one, where a sign of
/// equality follows.
#[verifier::opaque]
pub open spec fn sql_equal(p: Reader, left: SqlModel) -> Read<SqlModel>
    decreases p.left(), 0nat,
{
    match matches_forward_within(p, seq![TokenKind::Equal, TokenKind::Different]) {
        Err(e) => Err(e),
        Ok((q, found)) => if !found {
            Ok((q, left))
        } else if onward(p, q) {
            match sql_comparison(q) {
                Err(e) => Err(e),
                Ok((after, right)) => Ok(
                    (after, sql_binary(left, sql_equality_sign(q.previous.kind), right)),
                ),
            }
        } else {
            stalled(q)
        },
    }
}

/// A chain of `and` of the query language, which groups to the right.
#[verifier::opaque]
pub open spec fn sql_and(p: Reader) -> Read<SqlModel>
    decreases p.left(), 7nat,
{
    match sql_equality(p) {
        Err(e) => Err(e),
        Ok((q, left)) => if onward(p, q) {
            sql_and_more(q, left)
        } else {
            stalled(q)
        },
    }
}

/// The rest of a chain of `and` of the query language, where `and`
/// follows.
#[verifier::opaque]
pub open spec fn sql_and_more(p: Reader, left: SqlModel) -> Read<SqlModel>
    decreases p.left(), 0nat,
{
    match matches_forward(p, TokenKind::And) {
        Err(e) => Err(e),
        Ok((q, found)) => if !found {
            Ok((q, left))
        } else {
            if onward(p, q) {
                match sql_and(q) {
                    Err(e) => Err(e),
                    Ok((after, right)) => Ok((after, sql_binary(left, SqlOperator::And, right))),
                }
            } else {
                stalled(q)
            }
        },
    }
}

/// An assignment of the query language: a column, `:=` and what it gets;
/// or what stands in its place.
#[verifier::opaque]
pub open spec fn sql_assignment(p: Reader) -> Read<SqlModel>
    decreases p.left(), 8nat,
{
    match sql_and(p) {
        Err(e) => Err(e),
        Ok((q, left)) => if onward(p, q) {
            sql_assigned(q, left)
        } else {
            stalled(q)
        },
    }
}

/// What a column gets, where `:=` follows it.
#[verifier::opaque]
pub open spec fn sql_assigned(p: Reader, left: SqlModel) -> Read<SqlModel>
    decreases p.left(), 0nat,
{
    match matches(p, TokenKind::ColonEqual) {
        Err(e) => Err(e),
        Ok((q, found)) => if !found {
            Ok((q, left))
        } else {
            match left {
                SqlModel::Var(column) => if onward(p, q) {
                    match sql_assignment(q) {
                        Err(e) => Err(e),
                        Ok((after, value)) => Ok(
                            (after, SqlModel::Assignment(column, Box::new(value))),
                        ),
                    }
                } else {
                    stalled(q)
                },
                _ => expected(
                    q,
                    token_text(q.previous, "Expected variable before := assignment at "@),
                ),
            }
        },
    }
}

/// What stands between parentheses in the query language, behind the
/// opening one: one expression is a scalar, any other number of them a set.
#[verifier::opaque]
pub open spec fn sql_set(p: Reader) -> Read<SqlModel>
    decreases p.left(), 10nat,
{
    match skip_newlines(p) {
        Err(e) => Err(e),
        Ok((q, _)) => if q.current.kind == TokenKind::RightParen {
            sql_set_end(q, Seq::empty())
        } else if held(p, q) {
            sql_set_more(q, Seq::empty())
        } else {
            stalled(q)
        },
    }
}

/// The members of a set of the query language that follow `members`, with
/// commas between them, and the closing parenthesis.
#[verifier::opaque]
pub open spec fn sql_set_more(p: Reader, members: Seq<SqlModel>) -> Read<SqlModel>
    decreases p.left(), 9nat,
{
    match sql_assignment(p) {
        Err(e) => Err(e),
        Ok((q, member)) => match matches(q, TokenKind::Comma) {
            Err(e) => Err(e),
            Ok((q, found)) => match skip_newlines(q) {
                Err(e) => Err(e),
                Ok((q, _)) => if !found {
                    sql_set_end(q, members.push(member))
                } else if onward(p, q) {
                    sql_set_more(q, members.push(member))
                } else {
                    stalled(q)
                },
            },
        },
    }
}

/// The closing parenthesis of a set of the query language.
pub open spec fn sql_set_end(p: Reader, members: Seq<SqlModel>) -> Read<SqlModel> {
    match consume(p, TokenKind::RightParen, "Expected ) to close a sql set"@) {
        Err(e) => Err(e),
        Ok((q, _)) => Ok(
            (
                q,
                if members.len() == 1 {
                    SqlModel::Scalar(Box::new(members[0]))
                } else {
                    SqlModel::SetOf(members)
                },
            ),
        ),
    }
}

/// A tuple of the query language behind its opening parenthesis: one
/// member or more, with commas between them, and the closing parenthesis.
#[verifier::opaque]
pub open spec fn sql_tuple(p: Reader) -> Read<SqlModel> {
    match sql_assignment(p) {
        Err(e) => Err(e),
        Ok((q, first)) => sql_tuple_more(q, seq![first]),
    }
}

/// The members of a tuple of the query language that follow `members`,
/// and the closing parenthesis.
#[verifier::opaque]
pub open spec fn sql_tuple_more(p: Reader, members: Seq<SqlModel>) -> Read<SqlModel>
    decreases p.left(),
{
    match matches(p, TokenKind::Comma) {
        Err(e) => Err(e),
        Ok((q, found)) => if !found {
            match consume(q, TokenKind::RightParen, "Expected closing ) for tuple"@) {
                Err(e) => Err(e),
                Ok((after, _)) => Ok((after, SqlModel::Tuple(members))),
            }
        } else {
            match sql_assignment(q) {
                Err(e) => Err(e),
                Ok((after, member)) => if onward(p, after) {
                    sql_tuple_more(after, members.push(member))
                } else {
                    stalled(after)
                },
            }
        },
    }
}

/// The names of a list between parentheses that follow `columns`, with
/// commas between them, and the closing parenthesis.
#[verifier::opaque]
pub open spec fn names(p: Reader, columns: Seq<Seq<char>>) -> Read<Seq<Seq<char>>>
    decreases p.left(),
{
    match matches(p, TokenKind::Identifier) {
        Err(e) => Err(e),
        Ok((q, found)) => if !found {
            names_end(q, columns)
        } else {
            match matches(q, TokenKind::Comma) {
                Err(e) => Err(e),
                Ok((after, more)) => if !more {
                    names_end(after, columns.push(q.previous.lexeme))
                } else if onward(p, after) {
                    names(after, columns.push(q.previous.lexeme))
                } else {
                    stalled(after)
                },
            }
        },
    }
}

/// The closing parenthesis of a list of names.
pub open spec fn names_end(p: Reader, columns: Seq<Seq<char>>) -> Read<Seq<Seq<char>>> {
    match consume(p, TokenKind::RightParen, "Expected ) closing columns declaration"@) {
        Err(e) => Err(e),
        Ok((q, _)) => Ok((q, columns)),
    }
}

/// What a select item names: every column, or one.
#[verifier::opaque]
pub open spec fn select_item(p: Reader) -> Read<ItemModel> {
    if p.current.kind == TokenKind::Star {
        match advance(p) {
            Err(e) => Err(e),
            Ok((q, _)) => Ok((q, ItemModel::Wildcard)),
        }
    } else if p.current.kind == TokenKind::Identifier {
        match advance(p) {
            Err(e) => Err(e),
            Ok((q, _)) => Ok((q, ItemModel::Column(q.previous.lexeme))),
        }
    } else {
        expected(
            p,
            "Expected select clause, got a "@ + kind_text(p.current.kind) + " instead"@,
        )
    }
}

/// One entry of a select list: a count of what an item names, or the item.
#[verifier::opaque]
pub open spec fn select_clause(p: Reader) -> Read<SelectItemModel> {
    if p.current.kind == TokenKind::Count {
        match advance(p) {
            Err(e) => Err(e),
            Ok((q, _)) => match consume(q, TokenKind::LeftParen, "Expected ( after count"@) {
                Err(e) => Err(e),
                Ok((q, _)) => match select_item(q) {
                    Err(e) => Err(e),
                    Ok((q, item)) => match consume(
                        q,
                        TokenKind::RightParen,
                        "Expected ) after count"@,
                    ) {
                        Err(e) => Err(e),
                        Ok((after, _)) => Ok((after, SelectItemModel::Count(item))),
                    },
                },
            },
        }
    } else {
        match select_item(p) {
            Err(e) => Err(e),
            Ok((after, item)) => Ok((after, SelectItemModel::Column(item))),
        }
    }
}

/// The entries of a select list that follow `columns`, with commas between
/// them, up to `from`.
#[verifier::opaque]
pub open spec fn select_columns(p: Reader, columns: Seq<SelectItemModel>) -> Read<
    Seq<SelectItemModel>,
>
    decreases p.left(),
{
    if p.current.kind == TokenKind::From {
        Ok((p, columns))
    } else {
        match select_clause(p) {
            Err(e) => Err(e),
            Ok((q, item)) => match matches(q, TokenKind::Comma) {
                Err(e) => Err(e),
                Ok((after, found)) => if !found {
                    Ok((after, columns.push(item)))
                } else if onward(p, after) {
                    select_columns(after, columns.push(item))
                } else {
                    stalled(after)
                },
            },
        }
    }
}

/// The first entry from `from` on that is no count.
pub open spec fn first_plain(columns: Seq<SelectItemModel>, from: int) -> Option<SelectItemModel>
    decreases columns.len() - from,
{
    if from < 0 || from >= columns.len() {
        None
    } else if !(columns[from] is Count) {
        Some(columns[from])
    } else {
        first_plain(columns, from + 1)
    }
}

/// The first entry of a select list that is no count, where the list has a
/// count as well.
pub open spec fn mixed(columns: Seq<SelectItemModel>) -> Option<SelectItemModel> {
    if exists|i: int| 0 <= i < columns.len() && (#[trigger] columns[i]) is Count {
        first_plain(columns, 0)
    } else {
        None
    }
}

/// The condition of a query, where `where` stands.
#[verifier::opaque]
pub open spec fn condition(p: Reader) -> Read<Option<Box<SqlModel>>> {
    if p.current.kind == TokenKind::Where {
        match advance(p) {
            Err(e) => Err(e),
            Ok((q, _)) => match sql_assignment(q) {
                Err(e) => Err(e),
                Ok((after, expr)) => Ok((after, Some(Box::new(expr)))),
            },
        }
    } else {
        Ok((p, None))
    }
}

/// The order of a select, where `order by` stands.
#[verifier::opaque]
pub open spec fn ordering(p: Reader) -> Read<Option<Box<SqlModel>>> {
    if p.current.kind == TokenKind::Order {
        match advance(p) {
            Err(e) => Err(e),
            Ok((q, _)) => match consume(q, TokenKind::By, "Expected by after order in select"@) {
                Err(e) => Err(e),
                Ok((q, _)) => match sql_multiplicative(q) {
                    Err(e) => Err(e),
                    Ok((after, expr)) => Ok((after, Some(Box::new(expr)))),
                },
            },
        }
    } else {
        Ok((p, None))
    }
}

/// The number behind the word of the given kind, where that word stands.
#[verifier::opaque]
pub open spec fn bound(p: Reader, kind: TokenKind, message: Seq<char>) -> Read<Option<int>> {
    if p.current.kind == kind {
        match advance(p) {
            Err(e) => Err(e),
            Ok((q, _)) => match consume(q, TokenKind::Number, message) {
                Err(e) => Err(e),
                Ok((q, _)) => match number_read(q) {
                    Err(e) => Err(e),
                    Ok((after, i)) => Ok((after, Some(i))),
                },
            },
        }
    } else {
        Ok((p, None))
    }
}

/// Whether a select locks its rows: where `for update` stands.
#[verifier::opaque]
pub open spec fn locking(p: Reader) -> Read<bool> {
    if p.current.kind == TokenKind::For {
        match advance(p) {
            Err(e) => Err(e),
            Ok((q, _)) => match consume(
                q,
                TokenKind::Update,
                "Expected update after lock condition in select"@,
            ) {
                Err(e) => Err(e),
                Ok((after, _)) => Ok((after, true)),
            },
        }
    } else {
        Ok((p, false))
    }
}

/// A select behind its first word: the select list, which may not mix
/// counts with what is no count; the table; and, each where it stands, the
/// condition, the order, the limit, the offset and the locking.
#[verifier::opaque]
pub open spec fn select(p: Reader) -> Read<SqlModel> {
    match select_columns(p, Seq::empty()) {
        Err(e) => Err(e),
        Ok((q, columns)) => match mixed(columns) {
            Some(item) => fail(q, KindModel::AggregateError(item)),
            None => match consume(q, TokenKind::From, "Expected from clause"@) {
                Err(e) => Err(e),
                Ok((q, _)) => match name(q, "Expected relation for select from"@) {
                    Err(e) => Err(e),
                    Ok((q, from)) => match condition(q) {
                        Err(e) => Err(e),
                        Ok((q, condition)) => match ordering(q) {
                            Err(e) => Err(e),
                            Ok((q, order_by)) => match bound(
                                q,
                                TokenKind::Limit,
                                "Expected number after limit"@,
                            ) {
                                Err(e) => Err(e),
                                Ok((q, limit)) => match bound(
                                    q,
                                    TokenKind::Offset,
                                    "Expected number after offset"@,
                                ) {
                                    Err(e) => Err(e),
                                    Ok((q, offset)) => match locking(q) {
                                        Err(e) => Err(e),
                                        Ok((after, locking)) => Ok(
                                            (
                                                after,
                                                SqlModel::Select {
                                                    columns,
                                                    from,
                                                    condition,
                                                    order_by,
                                                    limit,
                                                    offset,
                                                    locking,
                                                },
                                            ),
                                        ),
                                    },
                                },
                            },
                        },
                    },
                },
            },
        },
    }
}

/// The assignments of an update that follow `updates`, with commas between
/// them.
#[verifier::opaque]
pub open spec fn assignments(p: Reader, updates: Seq<SqlModel>) -> Read<Seq<SqlModel>>
    decreases p.left(),
{
    match sql_assignment(p) {
        Err(e) => Err(e),
        Ok((q, item)) => match matches(q, TokenKind::Comma) {
            Err(e) => Err(e),
            Ok((after, found)) => if !found {
                Ok((after, updates.push(item)))
            } else if onward(p, after) {
                assignments(after, updates.push(item))
            } else {
                stalled(after)
            },
        },
    }
}

/// An update behind its first word: the table, `set`, the assignments and,
/// where it stands, the condition.
#[verifier::opaque]
pub open spec fn update(p: Reader) -> Read<SqlModel> {
    match name(p, "expected relation for update"@) {
        Err(e) => Err(e),
        Ok((q, relation)) => match consume(
            q,
            TokenKind::SetKeyword,
            "Expected set for update expression"@,
        ) {
            Err(e) => Err(e),
            Ok((q, _)) => match assignments(q, Seq::empty()) {
                Err(e) => Err(e),
                Ok((q, updates)) => match condition(q) {
                    Err(e) => Err(e),
                    Ok((after, condition)) => Ok(
                        (after, SqlModel::Update { relation, updates, condition }),
                    ),
                },
            },
        },
    }
}

/// A delete behind its first word: `from`, the table and, where it stands,
/// the condition.
#[verifier::opaque]
pub open spec fn delete(p: Reader) -> Read<SqlModel> {
    match consume(p, TokenKind::From, "Expected from clause"@) {
        Err(e) => Err(e),
        Ok((q, _)) => match name(q, "expect relation for delete"@) {
            Err(e) => Err(e),
            Ok((q, relation)) => match condition(q) {
                Err(e) => Err(e),
                Ok((after, condition)) => Ok((after, SqlModel::Delete { relation, condition })),
            },
        },
    }
}

/// The declaration of a unique index behind its first word: `unique index
/// on`, the table, and the columns between parentheses.
#[verifier::opaque]
pub open spec fn create(p: Reader) -> Read<SqlModel> {
    match consume(p, TokenKind::Unique, "Expected unique after create"@) {
        Err(e) => Err(e),
        Ok((q, _)) => match consume(q, TokenKind::Index, "Expected index after create unique"@) {
            Err(e) => Err(e),
            Ok((q, _)) => match consume(
                q,
                TokenKind::On,
                "Expected on after create unique index"@,
            ) {
                Err(e) => Err(e),
                Ok((q, _)) => match name(q, "Expected table object for create unique index"@) {
                    Err(e) => Err(e),
                    Ok((q, relation)) => match consume(
                        q,
                        TokenKind::LeftParen,
                        "Expected column declaration after relation"@,
                    ) {
                        Err(e) => Err(e),
                        Ok((q, _)) => match names(q, Seq::empty()) {
                            Err(e) => Err(e),
                            Ok((after, columns)) => Ok(
                                (after, SqlModel::Create { relation, columns }),
                            ),
                        },
                    },
                },
            },
        },
    }
}

/// The table and the constraint of the declaration of a foreign key: the
/// word `table`, the table, `add constraint`, the name of the constraint,
/// `foreign key` and the opening parenthesis.
#[verifier::opaque]
pub open spec fn alter_head(p: Reader) -> Read<(Seq<char>, Seq<char>)> {
    match consume(p, TokenKind::Table, "Expected table after alter"@) {
        Err(e) => Err(e),
        Ok((q, _)) => match name(q, "Expected table name to alter"@) {
            Err(e) => Err(e),
            Ok((q, relation)) => match consume(
                q,
                TokenKind::Add,
                "Expected add after alter table name"@,
            ) {
                Err(e) => Err(e),
                Ok((q, _)) => match consume(
                    q,
                    TokenKind::Constraint,
                    "Expected constraint after add"@,
                ) {
                    Err(e) => Err(e),
                    Ok((q, _)) => match name(q, "Expected constraint name to alter"@) {
                        Err(e) => Err(e),
                        Ok((q, constraint_name)) => match consume(
                            q,
                            TokenKind::Foreign,
                            "Expected foreign after constraint name"@,
                        ) {
                            Err(e) => Err(e),
                            Ok((q, _)) => match consume(
                                q,
                                TokenKind::Key,
                                "Expected key after foreign"@,
                            ) {
                                Err(e) => Err(e),
                                Ok((q, _)) => match consume(
                                    q,
                                    TokenKind::LeftParen,
                                    "Expected column declaration after foreign key"@,
                                ) {
                                    Err(e) => Err(e),
                                    Ok((after, _)) => Ok((after, (relation, constraint_name))),
                                },
                            },
                        },
                    },
                },
            },
        },
    }
}

/// The declaration of a foreign key behind its first word: the table and
/// the constraint, the columns, `references`, the table referred to, and
/// its columns.
#[verifier::opaque]
pub open spec fn alter(p: Reader) -> Read<SqlModel> {
    match alter_head(p) {
        Err(e) => Err(e),
        Ok((q, head)) => match names(q, Seq::empty()) {
            Err(e) => Err(e),
            Ok((q, columns)) => match consume(
                q,
                TokenKind::References,
                "Expected reference after foreign key columns"@,
            ) {
                Err(e) => Err(e),
                Ok((q, _)) => match name(q, "Expected table name to reference"@) {
                    Err(e) => Err(e),
                    Ok((q, reference_relation)) => match consume(
                        q,
                        TokenKind::LeftParen,
                        "Expected column declaration after foreign key"@,
                    ) {
                        Err(e) => Err(e),
                        Ok((q, _)) => match names(q, Seq::empty()) {
                            Err(e) => Err(e),
                            Ok((after, reference_columns)) => Ok(
                                (
                                    after,
                                    SqlModel::Alter {
                                        constraint_name: head.1,
                                        relation: head.0,
                                        columns,
                                        reference_relation,
                                        reference_columns,
                                    },
                                ),
                            ),
                        },
                    },
                },
            },
        },
    }
}

/// The rows of an insert that follow `values`: tuples, with commas between
/// them.
#[verifier::opaque]
pub open spec fn rows(p: Reader, values: Seq<SqlModel>) -> Read<Seq<SqlModel>>
    decreases p.left(),
{
    match matches_forward(p, TokenKind::LeftParen) {
        Err(e) => Err(e),
        Ok((q, found)) => if !found {
            Ok((q, values))
        } else {
            match sql_tuple(q) {
                Err(e) => Err(e),
                Ok((q, tuple)) => match matches(q, TokenKind::Comma) {
                    Err(e) => Err(e),
                    Ok((after, more)) => if !more {
                        Ok((after, values.push(tuple)))
                    } else if onward(p, after) {
                        rows(after, values.push(tuple))
                    } else {
                        stalled(after)
                    },
                },
            }
        },
    }
}

/// An insert behind its first word: `into`, the table, the columns between
/// parentheses, `values`, and the rows.
#[verifier::opaque]
pub open spec fn insert(p: Reader) -> Read<SqlModel> {
    match consume(p, TokenKind::Into, "Expected into after insert"@) {
        Err(e) => Err(e),
        Ok((q, _)) => match name(q, "Expected relation after insert into"@) {
            Err(e) => Err(e),
            Ok((q, relation)) => match consume(
                q,
                TokenKind::LeftParen,
                "Expected column declaration after relation"@,
            ) {
                Err(e) => Err(e),
                Ok((q, _)) => match names(q, Seq::empty()) {
                    Err(e) => Err(e),
                    Ok((q, columns)) => match consume(
                        q,
                        TokenKind::Values,
                        "Expected values after relation declaration"@,
                    ) {
                        Err(e) => Err(e),
                        Ok((q, _)) => match rows(q, Seq::empty()) {
                            Err(e) => Err(e),
                            Ok((after, values)) => Ok(
                                (after, SqlModel::Insert { relation, columns, values }),
                            ),
                        },
                    },
                },
            },
        },
    }
}

/// The query that the word at the reader starts.
#[verifier::opaque]
pub open spec fn query(p: Reader) -> Read<SqlModel> {
    match p.current.kind {
        TokenKind::Select => match advance(p) {
            Err(e) => Err(e),
            Ok((q, _)) => select(q),
        },
        TokenKind::Insert => match advance(p) {
            Err(e) => Err(e),
            Ok((q, _)) => insert(q),
        },
        TokenKind::Update => match advance(p) {
            Err(e) => Err(e),
            Ok((q, _)) => update(q),
        },
        TokenKind::Delete => match advance(p) {
            Err(e) => Err(e),
            Ok((q, _)) => delete(q),
        },
        TokenKind::Create => match advance(p) {
            Err(e) => Err(e),
            Ok((q, _)) => create(q),
        },
        TokenKind::Alter => match advance(p) {
            Err(e) => Err(e),
            Ok((q, _)) => alter(q),
        },
        _ => expected(p, "Expected sql expression, got a "@ + kind_text(p.current.kind)),
    }
}

/// A query behind its opening backtick, up to the closing one.
#[verifier::opaque]
pub open spec fn sql_expression(p: Reader) -> Read<ExprModel> {
    match query(p) {
        Err(e) => Err(e),
        Ok((q, sql)) => match consume(
            q,
            TokenKind::Backtick,
            "Expected ` to end sql expression '"@ + sql_text(sql) + "'"@,
        ) {
            Err(e) => Err(e),
            Ok((after, _)) => Ok((after, ExprModel::Sql(sql))),
        },
    }
}

/// The sign of an equality.
pub open spec fn equality_sign(kind: TokenKind) -> Operator {
    match kind {
        TokenKind::Different => Operator::NotEqual,
        _ => Operator::Equal,
    }
}

/// The sign of a comparison.
pub open spec fn comparison_sign(kind: TokenKind) -> Operator {
    match kind {
        TokenKind::LessEqual => Operator::LessEqual,
        TokenKind::GreaterEqual => Operator::GreaterEqual,
        TokenKind::LeftCarret => Operator::Less,
        _ => Operator::Greater,
    }
}

/// The sign of a sum or a difference.
pub open spec fn term_sign(kind: TokenKind) -> Operator {
    match kind {
        TokenKind::Minus => Operator::Subtract,
        _ => Operator::Add,
    }
}

/// The sign of a product, a quotient or a remainder.
pub open spec fn factor_sign(kind: TokenKind) -> Operator {
    match kind {
        TokenKind::Percent => Operator::Rem,
        TokenKind::Slash => Operator::Divide,
        _ => Operator::Multiply,
    }
}

/// Two operands under a sign.
pub open spec fn binary(left: ExprModel, operator: Operator, right: ExprModel) -> ExprModel {
    ExprModel::Binary { left: Box::new(left), operator, right: Box::new(right) }
}

/// The number that the token read last spells, as an expression.
pub open spec fn number(p: Reader) -> Read<ExprModel> {
    match number_read(p) {
        Err(e) => Err(e),
        Ok((q, i)) => Ok((q, ExprModel::Integer(i))),
    }
}

/// A number, a string, a set between braces, what stands between
/// parentheses, a variable, a query between backticks, or, behind a line
/// break, an expression.
#[verifier::opaque]
pub open spec fn primary(p: Reader) -> Read<ExprModel>
    decreases p.left(), 0nat,
{
    if p.current.kind == TokenKind::Number {
        match advance(p) {
            Err(e) => Err(e),
            Ok((q, _)) => number(q),
        }
    } else if p.current.kind == TokenKind::String {
        match advance(p) {
            Err(e) => Err(e),
            Ok((q, _)) => Ok((q, ExprModel::Str(q.previous.lexeme))),
        }
    } else if p.current.kind == TokenKind::LeftBrace {
        match advance(p) {
            Err(e) => Err(e),
            Ok((q, _)) => if onward(p, q) {
                set(q)
            } else {
                stalled(q)
            },
        }
    } else if p.current.kind == TokenKind::LeftParen {
        match advance(p) {
            Err(e) => Err(e),
            Ok((q, _)) => if onward(p, q) {
                tuple(q)
            } else {
                stalled(q)
            },
        }
    } else if p.current.kind == TokenKind::Identifier {
        match advance(p) {
            Err(e) => Err(e),
            Ok((q, _)) => Ok((q, ExprModel::Var(q.previous.lexeme))),
        }
    } else if p.current.kind == TokenKind::Backtick {
        match advance(p) {
            Err(e) => Err(e),
            Ok((q, _)) => sql_expression(q),
        }
    } else if p.current.kind == TokenKind::Newline {
        match advance(p) {
            Err(e) => Err(e),
            Ok((q, _)) => if onward(p, q) {
                expression(q)
            } else {
                stalled(q)
            },
        }
    } else {
        expected(p, "Expected expression, got a "@ + kind_text(p.current.kind))
    }
}

/// A member access: what is accessed, a dot and the name of the member; or
/// what stands in its place.
#[verifier::opaque]
pub open spec fn member_access(p: Reader) -> Read<ExprModel>
    decreases p.left(), 1nat,
{
    match primary(p) {
        Err(e) => Err(e),
        Ok((q, call_site)) => match matches(q, TokenKind::Dot) {
            Err(e) => Err(e),
            Ok((q, found)) => if !found {
                Ok((q, call_site))
            } else {
                match name(q, "Expected identifier after \".\" for member expression"@) {
                    Err(e) => Err(e),
                    Ok((after, member)) => Ok(
                        (after, ExprModel::Member { call_site: Box::new(call_site), member }),
                    ),
                }
            },
        },
    }
}

/// An expression behind a leading `or` or `and`, which may stand on a line
/// of its own; or a member access.
#[verifier::opaque]
pub open spec fn unary(p: Reader) -> Read<ExprModel>
    decreases p.left(), 2nat,
{
    match matches_forward(p, TokenKind::Or) {
        Err(e) => Err(e),
        Ok((q, found)) => if found {
            if onward(p, q) {
                expression(q)
            } else {
                stalled(q)
            }
        } else {
            match matches_forward(p, TokenKind::And) {
                Err(e) => Err(e),
                Ok((q, found)) => if found {
                    if onward(p, q) {
                        expression(q)
                    } else {
                        stalled(q)
                    }
                } else {
                    member_access(p)
                },
            }
        },
    }
}

/// A chain of products, quotients and remainders, which groups to the left.
#[verifier::opaque]
pub open spec fn multiplicative(p: Reader) -> Read<ExprModel>
    decreases p.left(), 3nat,
{
    match unary(p) {
        Err(e) => Err(e),
        Ok((q, left)) => if onward(p, q) {
            factors(q, left)
        } else {
            stalled(q)
        },
    }
}

/// The rest of a chain of products, quotients and remainders behind `left`.
#[verifier::opaque]
pub open spec fn factors(p: Reader, left: ExprModel) -> Read<ExprModel>
    decreases p.left(), 0nat,
{
    match matches_within(p, seq![TokenKind::Star, TokenKind::Percent, TokenKind::Slash]) {
        Err(e) => Err(e),
        Ok((q, found)) => if !found {
            Ok((q, left))
        } else if onward(p, q) {
            match unary(q) {
                Err(e) => Err(e),
                Ok((after, right)) => if onward(p, after) {
                    factors(after, binary(left, factor_sign(q.previous.kind), right))
                } else {
                    stalled(after)
                },
            }
        } else {
            stalled(q)
        },
    }
}

/// A chain of sums and differences, which groups to the left.
#[verifier::opaque]
pub open spec fn additive(p: Reader) -> Read<ExprModel>
    decreases p.left(), 4nat,
{
    match multiplicative(p) {
        Err(e) => Err(e),
        Ok((q, left)) => if onward(p, q) {
            terms(q, left)
        } else {
            stalled(q)
        },
    }
}

/// The rest of a chain of sums and differences behind `left`.
#[verifier::opaque]
pub open spec fn terms(p: Reader, left: ExprModel) -> Read<ExprModel>
    decreases p.left(), 0nat,
{
    match matches_within(p, seq![TokenKind::Plus, TokenKind::Minus]) {
        Err(e) => Err(e),
        Ok((q, found)) => if !found {
            Ok((q, left))
        } else if onward(p, q) {
            match multiplicative(q) {
                Err(e) => Err(e),
                Ok((after, right)) => if onward(p, after) {
                    terms(after, binary(left, term_sign(q.previous.kind), right))
                } else {
                    stalled(after)
                },
            }
        } else {
            stalled(q)
        },
    }
}

/// A chain of comparisons, which groups to the left.
#[verifier::opaque]
pub open spec fn comparison(p: Reader) -> Read<ExprModel>
    decreases p.left(), 5nat,
{
    match additive(p) {
        Err(e) => Err(e),
        Ok((q, left)) => if onward(p, q) {
            comparisons(q, left)
        } else {
            stalled(q)
        },
    }
}

/// The rest of a chain of comparisons behind `left`.
#[verifier::opaque]
pub open spec fn comparisons(p: Reader, left: ExprModel) -> Read<ExprModel>
    decreases p.left(), 0nat,
{
    match matches_within(p, seq![
            TokenKind::LeftCarret,
            TokenKind::LessEqual,
            TokenKind::GreaterEqual,
            TokenKind::RightCarret,
        ]) {
        Err(e) => Err(e),
        Ok((q, found)) => if !found {
            Ok((q, left))
        } else if onward(p, q) {
            match additive(q) {
                Err(e) => Err(e),
                Ok((after, right)) => if onward(p, after) {
                    comparisons(after, binary(left, comparison_sign(q.previous.kind), right))
                } else {
                    stalled(after)
                },
            }
        } else {
            stalled(q)
        },
    }
}

/// A chain of equalities, which groups to the left.
#[verifier::opaque]
pub open spec fn equality(p: Reader) -> Read<ExprModel>
    decreases p.left(), 6nat,
{
    match comparison(p) {
        Err(e) => Err(e),
        Ok((q, left)) => if onward(p, q) {
            equalities(q, left)
        } else {
            stalled(q)
        },
    }
}

/// The rest of a chain of equalities behind `left`.
#[verifier::opaque]
pub open spec fn equalities(p: Reader, left: ExprModel) -> Read<ExprModel>
    decreases p.left(), 0nat,
{
    match matches_within(p, seq![TokenKind::Equal, TokenKind::Different]) {
        Err(e) => Err(e),
        Ok((q, found)) => if !found {
            Ok((q, left))
        } else if onward(p, q) {
            match comparison(q) {
                Err(e) => Err(e),
                Ok((after, right)) => if onward(p, after) {
                    equalities(after, binary(left, equality_sign(q.previous.kind), right))
                } else {
                    stalled(after)
                },
            }
        } else {
            stalled(q)
        },
    }
}

/// A membership test: an equality, and where `in` follows, another.
#[verifier::opaque]
pub open spec fn included(p: Reader) -> Read<ExprModel>
    decreases p.left(), 7nat,
{
    match equality(p) {
        Err(e) => Err(e),
        Ok((q, left)) => if onward(p, q) {
            included_in(q, left)
        } else {
            stalled(q)
        },
    }
}

/// What something is tested to be in, where `in` follows it.
#[verifier::opaque]
pub open spec fn included_in(p: Reader, left: ExprModel) -> Read<ExprModel>
    decreases p.left(), 0nat,
{
    match matches(p, TokenKind::In) {
        Err(e) => Err(e),
        Ok((q, found)) => if !found {
            Ok((q, left))
        } else {
            if onward(p, q) {
                match equality(q) {
                    Err(e) => Err(e),
                    Ok((after, right)) => Ok((after, binary(left, Operator::Included, right))),
                }
            } else {
                stalled(q)
            }
        },
    }
}

/// A chain of `and`, which groups to the left; the sign may stand on the next line.
#[verifier::opaque]
pub open spec fn and(p: Reader) -> Read<ExprModel>
    decreases p.left(), 8nat,
{
    match included(p) {
        Err(e) => Err(e),
        Ok((q, left)) => if onward(p, q) {
            and_more(q, left)
        } else {
            stalled(q)
        },
    }
}

/// The rest of a chain of `and` behind `left`.
#[verifier::opaque]
pub open spec fn and_more(p: Reader, left: ExprModel) -> Read<ExprModel>
    decreases p.left(), 0nat,
{
    match matches_forward(p, TokenKind::And) {
        Err(e) => Err(e),
        Ok((q, found)) => if !found {
            Ok((q, left))
        } else if onward(p, q) {
            match included(q) {
                Err(e) => Err(e),
                Ok((after, right)) => if onward(p, after) {
                    and_more(after, binary(left, Operator::And, right))
                } else {
                    stalled(after)
                },
            }
        } else {
            stalled(q)
        },
    }
}

/// A chain of `or`, which groups to the left; the sign may stand on the next line.
#[verifier::opaque]
pub open spec fn or(p: Reader) -> Read<ExprModel>
    decreases p.left(), 9nat,
{
    match and(p) {
        Err(e) => Err(e),
        Ok((q, left)) => if onward(p, q) {
            or_more(q, left)
        } else {
            stalled(q)
        },
    }
}

/// The rest of a chain of `or` behind `left`.
#[verifier::opaque]
pub open spec fn or_more(p: Reader, left: ExprModel) -> Read<ExprModel>
    decreases p.left(), 0nat,
{
    match matches_forward(p, TokenKind::Or) {
        Err(e) => Err(e),
        Ok((q, found)) => if !found {
            Ok((q, left))
        } else if onward(p, q) {
            match and(q) {
                Err(e) => Err(e),
                Ok((after, right)) => if onward(p, after) {
                    or_more(after, binary(left, Operator::Or, right))
                } else {
                    stalled(after)
                },
            }
        } else {
            stalled(q)
        },
    }
}

/// An assignment: a variable, `:=` and what it gets; or what stands in
/// its place.
#[verifier::opaque]
pub open spec fn assignment(p: Reader) -> Read<ExprModel>
    decreases p.left(), 10nat,
{
    match or(p) {
        Err(e) => Err(e),
        Ok((q, left)) => if onward(p, q) {
            assigned(q, left)
        } else {
            stalled(q)
        },
    }
}

/// What a variable gets, where `:=` follows it.
#[verifier::opaque]
pub open spec fn assigned(p: Reader, left: ExprModel) -> Read<ExprModel>
    decreases p.left(), 0nat,
{
    match matches(p, TokenKind::ColonEqual) {
        Err(e) => Err(e),
        Ok((q, found)) => if !found {
            Ok((q, left))
        } else {
            match left {
                ExprModel::Var(variable) => if onward(p, q) {
                    match assignment(q) {
                        Err(e) => Err(e),
                        Ok((after, value)) => Ok(
                            (after, ExprModel::Assignment(variable, Box::new(value))),
                        ),
                    }
                } else {
                    stalled(q)
                },
                _ => expected(
                    q,
                    token_text(q.previous, "Expected variable before := assignment at "@),
                ),
            }
        },
    }
}

/// An expression.
#[verifier::opaque]
pub open spec fn expression(p: Reader) -> Read<ExprModel>
    decreases p.left(), 11nat,
{
    assignment(p)
}

/// A set behind its opening brace: its members, with commas between them,
/// and the closing brace. Line breaks may stand before each member and
/// before the closing brace.
#[verifier::opaque]
pub open spec fn set(p: Reader) -> Read<ExprModel>
    decreases p.left(), 13nat,
{
    match skip_newlines(p) {
        Err(e) => Err(e),
        Ok((q, _)) => if q.current.kind == TokenKind::RightBrace {
            set_end(q, Seq::empty())
        } else if held(p, q) {
            set_more(q, Seq::empty())
        } else {
            stalled(q)
        },
    }
}

/// The members of a set that follow `members`, and the closing brace.
#[verifier::opaque]
pub open spec fn set_more(p: Reader, members: Seq<ExprModel>) -> Read<ExprModel>
    decreases p.left(), 12nat,
{
    match expression(p) {
        Err(e) => Err(e),
        Ok((q, member)) => match matches(q, TokenKind::Comma) {
            Err(e) => Err(e),
            Ok((q, found)) => match skip_newlines(q) {
                Err(e) => Err(e),
                Ok((q, _)) => if !found {
                    set_end(q, members.push(member))
                } else if onward(p, q) {
                    set_more(q, members.push(member))
                } else {
                    stalled(q)
                },
            },
        },
    }
}

/// The closing brace of a set.
pub open spec fn set_end(p: Reader, members: Seq<ExprModel>) -> Read<ExprModel> {
    match consume(p, TokenKind::RightBrace, "Expected } to close a set expression"@) {
        Err(e) => Err(e),
        Ok((q, _)) => Ok((q, ExprModel::SetOf(members))),
    }
}

/// What stands between parentheses, behind the opening one: one expression
/// is a scalar, any other number of them a tuple. Line breaks may stand
/// before each member and before the closing parenthesis.
#[verifier::opaque]
pub open spec fn tuple(p: Reader) -> Read<ExprModel>
    decreases p.left(), 13nat,
{
    match skip_newlines(p) {
        Err(e) => Err(e),
        Ok((q, _)) => if q.current.kind == TokenKind::RightParen {
            tuple_end(q, Seq::empty())
        } else if held(p, q) {
            tuple_more(q, Seq::empty())
        } else {
            stalled(q)
        },
    }
}

/// The members of a tuple that follow `members`, and the closing
/// parenthesis.
#[verifier::opaque]
pub open spec fn tuple_more(p: Reader, members: Seq<ExprModel>) -> Read<ExprModel>
    decreases p.left(), 12nat,
{
    match expression(p) {
        Err(e) => Err(e),
        Ok((q, member)) => match matches(q, TokenKind::Comma) {
            Err(e) => Err(e),
            Ok((q, found)) => match skip_newlines(q) {
                Err(e) => Err(e),
                Ok((q, _)) => if !found {
                    tuple_end(q, members.push(member))
                } else if onward(p, q) {
                    tuple_more(q, members.push(member))
                } else {
                    stalled(q)
                },
            },
        },
    }
}

/// The closing parenthesis of a tuple.
pub open spec fn tuple_end(p: Reader, members: Seq<ExprModel>) -> Read<ExprModel> {
    match consume(p, TokenKind::RightParen, "Expected closing ) for tuple"@) {
        Err(e) => Err(e),
        Ok((q, _)) => Ok(
            (
                q,
                if members.len() == 1 {
                    ExprModel::Scalar(Box::new(members[0]))
                } else {
                    ExprModel::Tuple(members)
                },
            ),
        ),
    }
}

/// The text that names the isolation level.
pub open spec fn level_text() -> Seq<char> {
    "read_committed"@
}

/// An assignment behind `let`, as a statement.
#[verifier::opaque]
pub open spec fn assignment_statement(p: Reader, writer: Seq<StatementModel>) -> Read<
    Seq<StatementModel>,
> {
    match assignment(p) {
        Err(e) => Err(e),
        Ok((after, e)) => Ok((after, writer.push(StatementModel::Expression(e)))),
    }
}

/// An expression as a statement.
#[verifier::opaque]
pub open spec fn expression_statement(p: Reader, writer: Seq<StatementModel>) -> Read<
    Seq<StatementModel>,
> {
    match expression(p) {
        Err(e) => Err(e),
        Ok((after, e)) => Ok((after, writer.push(StatementModel::Expression(e)))),
    }
}

/// The isolation level behind `begin`.
#[verifier::opaque]
pub open spec fn begin_statement(p: Reader, writer: Seq<StatementModel>) -> Read<
    Seq<StatementModel>,
> {
    match consume(p, TokenKind::Identifier, "Expected isolation level after begin"@) {
        Err(e) => Err(e),
        Ok((q, _)) => if q.previous.lexeme == level_text() {
            Ok((q, writer.push(StatementModel::Begin(IsolationLevel::ReadCommitted, None))))
        } else {
            expected(q, "Expected following isolation level: read_committed"@)
        },
    }
}

/// A commit: the transaction block being read has ended its transaction
/// itself.
pub open spec fn commit_statement(p: Reader, writer: Seq<StatementModel>) -> Read<
    Seq<StatementModel>,
> {
    Ok((Reader { manual_commit: true, ..p }, writer.push(StatementModel::Commit)))
}

/// An abort: the transaction block being read has ended its transaction
/// itself.
pub open spec fn abort_statement(p: Reader, writer: Seq<StatementModel>) -> Read<
    Seq<StatementModel>,
> {
    Ok((Reader { manual_commit: true, ..p }, writer.push(StatementModel::Abort)))
}

/// A latch.
pub open spec fn latch_statement(p: Reader, writer: Seq<StatementModel>) -> Read<
    Seq<StatementModel>,
> {
    Ok((p, writer.push(StatementModel::Latch)))
}

/// An `else` without its `if` is no statement.
pub open spec fn else_statement(p: Reader, writer: Seq<StatementModel>) -> Read<
    Seq<StatementModel>,
> {
    expected(p, "Expected a statement before else"@)
}

/// A property behind the word `always`: an expression between parentheses.
#[verifier::opaque]
pub open spec fn always_statement(p: Reader, writer: Seq<StatementModel>) -> Read<Seq<StatementModel>> {
    match consume(p, TokenKind::LeftParen, "Expected ( to open always statement"@) {
        Err(e) => Err(e),
        Ok((q, _)) => match expression(q) {
            Err(e) => Err(e),
                Ok((q, condition)) => match consume(
                    q,
                    TokenKind::RightParen,
                    "Expected ) to close always statement"@,
                ) {
                    Err(e) => Err(e),
                    Ok((after, _)) => Ok((after, writer.push(StatementModel::Always(condition)))),
                },
        },
    }
}

/// A property behind the word `never`: an expression between parentheses.
#[verifier::opaque]
pub open spec fn never_statement(p: Reader, writer: Seq<StatementModel>) -> Read<Seq<StatementModel>> {
    match consume(p, TokenKind::LeftParen, "Expected ( to open never statement"@) {
        Err(e) => Err(e),
        Ok((q, _)) => match expression(q) {
            Err(e) => Err(e),
                Ok((q, condition)) => match consume(
                    q,
                    TokenKind::RightParen,
                    "Expected ) to close never statement"@,
                ) {
                    Err(e) => Err(e),
                    Ok((after, _)) => Ok((after, writer.push(StatementModel::Never(condition)))),
                },
        },
    }
}

/// A property behind the word `eventually`: an expression between parentheses. Line breaks
/// may stand before the closing parenthesis.
#[verifier::opaque]
pub open spec fn eventually_statement(p: Reader, writer: Seq<StatementModel>) -> Read<Seq<StatementModel>> {
    match consume(p, TokenKind::LeftParen, "Expected ( to open eventually statement"@) {
        Err(e) => Err(e),
        Ok((q, _)) => match expression(q) {
            Err(e) => Err(e),
                Ok((q, condition)) => match skip_newlines(q) {
                    Err(e) => Err(e),
                    Ok((q, _)) => match consume(
                        q,
                        TokenKind::RightParen,
                        "Expected ) to close eventually statement"@,
                    ) {
                        Err(e) => Err(e),
                        Ok((after, _)) => Ok(
                            (after, writer.push(StatementModel::Eventually(condition))),
                        ),
                    },
                },
        },
    }
}

/// The isolation level of a transaction block, `do` and the end of the
/// line, behind the name of the transaction, if it has one.
#[verifier::opaque]
pub open spec fn level(p: Reader, tx_name: Option<Seq<char>>) -> Read<Option<Seq<char>>> {
    if p.previous.lexeme == level_text() {
        match consume(p, TokenKind::Do, "Expected block after transaction statement"@) {
            Err(e) => Err(e),
            Ok((q, _)) => match end_line(q) {
                Err(e) => Err(e),
                Ok((after, _)) => Ok((after, tx_name)),
            },
        }
    } else {
        expected(p, "Expected following isolation level: read_committed"@)
    }
}

/// The head of a transaction block behind its first word: the name of the
/// transaction, if it has one, the isolation level, `do` and the end of
/// the line.
#[verifier::opaque]
pub open spec fn transaction_head(p: Reader) -> Read<Option<Seq<char>>> {
    match name(p, "Expected transaction name or transaction level"@) {
        Err(e) => Err(e),
        Ok((q, first)) => if first == level_text() {
            level(q, None)
        } else {
            match consume(
                q,
                TokenKind::Identifier,
                "Expected isolation level after transaction name"@,
            ) {
                Err(e) => Err(e),
                Ok((q, _)) => level(q, Some(first)),
            }
        },
    }
}

/// A statement with the end of its line: what it stands for is added to
/// `writer`.
#[verifier::opaque]
pub open spec fn statement(p: Reader, writer: Seq<StatementModel>) -> Read<Seq<StatementModel>>
    decreases p.left(), 20nat,
{
    match body(p, writer) {
        Err(e) => Err(e),
        Ok((q, code)) => match end_line(q) {
            Err(e) => Err(e),
            Ok((after, _)) => Ok((after, code)),
        },
    }
}

/// A statement without the end of its line: the word at which reading
/// stands says which; where it says nothing, an expression.
#[verifier::opaque]
pub open spec fn body(p: Reader, writer: Seq<StatementModel>) -> Read<Seq<StatementModel>>
    decreases p.left(), 19nat,
{
    match p.current.kind {
        TokenKind::Let => match advance(p) {
            Err(e) => Err(e),
            Ok((q, _)) => assignment_statement(q, writer),
        },
        TokenKind::Transaction => match advance(p) {
            Err(e) => Err(e),
            Ok((q, _)) => if onward(p, q) {
                transaction_statement(q, writer)
            } else {
                stalled(q)
            },
        },
        TokenKind::Begin => match advance(p) {
            Err(e) => Err(e),
            Ok((q, _)) => begin_statement(q, writer),
        },
        TokenKind::Commit => match advance(p) {
            Err(e) => Err(e),
            Ok((q, _)) => commit_statement(q, writer),
        },
        TokenKind::If => match advance(p) {
            Err(e) => Err(e),
            Ok((q, _)) => if onward(p, q) {
                if_statement(q, writer)
            } else {
                stalled(q)
            },
        },
        TokenKind::Else => match advance(p) {
            Err(e) => Err(e),
            Ok((q, _)) => else_statement(q, writer),
        },
        TokenKind::Abort => match advance(p) {
            Err(e) => Err(e),
            Ok((q, _)) => abort_statement(q, writer),
        },
        TokenKind::Latch => match advance(p) {
            Err(e) => Err(e),
            Ok((q, _)) => latch_statement(q, writer),
        },
        TokenKind::Always => match advance(p) {
            Err(e) => Err(e),
            Ok((q, _)) => always_statement(q, writer),
        },
        TokenKind::Never => match advance(p) {
            Err(e) => Err(e),
            Ok((q, _)) => never_statement(q, writer),
        },
        TokenKind::Eventually => match advance(p) {
            Err(e) => Err(e),
            Ok((q, _)) => eventually_statement(q, writer),
        },
        _ => expression_statement(p, writer),
    }
}

/// A transaction block behind its first word: a begin, the statements of
/// the block, and a commit unless the block has ended the transaction
/// itself.
#[verifier::opaque]
pub open spec fn transaction_statement(p: Reader, writer: Seq<StatementModel>) -> Read<
    Seq<StatementModel>,
>
    decreases p.left(), 22nat,
{
    match transaction_head(p) {
        Err(e) => Err(e),
        Ok((q, tx_name)) => if held(p, Reader { manual_commit: false, ..q }) {
            transaction_block(
                Reader { manual_commit: false, ..q },
                writer.push(StatementModel::Begin(IsolationLevel::ReadCommitted, tx_name)),
            )
        } else {
            stalled(q)
        },
    }
}

/// The statements of a transaction block up to `end`, and a commit unless
/// the block has ended the transaction itself.
#[verifier::opaque]
pub open spec fn transaction_block(p: Reader, writer: Seq<StatementModel>) -> Read<
    Seq<StatementModel>,
>
    decreases p.left(), 21nat,
{
    if p.current.kind == TokenKind::End {
        match consume(p, TokenKind::End, "Expected to close transaction block"@) {
            Err(e) => Err(e),
            Ok((after, _)) => Ok(
                (
                    after,
                    if after.manual_commit {
                        writer
                    } else {
                        writer.push(StatementModel::Commit)
                    },
                ),
            ),
        }
    } else {
        match statement(p, writer) {
            Err(e) => Err(e),
            Ok((q, code)) => if onward(p, q) {
                transaction_block(q, code)
            } else {
                stalled(q)
            },
        }
    }
}

/// The condition of a conditional, `do` and the end of the line.
#[verifier::opaque]
pub open spec fn if_head(p: Reader) -> Read<ExprModel> {
    match expression(p) {
        Err(e) => Err(e),
        Ok((q, condition)) => match consume(
            q,
            TokenKind::Do,
            "Expected do token after if condition"@,
        ) {
            Err(e) => Err(e),
            Ok((q, _)) => match end_line(q) {
                Err(e) => Err(e),
                Ok((after, _)) => Ok((after, condition)),
            },
        },
    }
}

/// A conditional behind its first word: the condition, the statements to
/// run where it holds and, behind `else`, those to run where it does not.
/// The `If` stands before the first and says how far to move to get behind
/// them; the `Else` stands before the second and says how far to move to
/// get behind those.
#[verifier::opaque]
pub open spec fn if_statement(p: Reader, writer: Seq<StatementModel>) -> Read<
    Seq<StatementModel>,
>
    decreases p.left(), 22nat,
{
    match if_head(p) {
        Err(e) => Err(e),
        Ok((q, condition)) => if held(p, q) {
            if_body(q, writer.push(StatementModel::Latch), writer.len(), condition)
        } else {
            stalled(q)
        },
    }
}

/// The statements to run where the condition of a conditional holds, up to
/// `else` or `end`, either of which may stand behind line breaks. The
/// conditional stands at position `at`.
#[verifier::opaque]
pub open spec fn if_body(p: Reader, writer: Seq<StatementModel>, at: nat, condition: ExprModel) -> Read<
    Seq<StatementModel>,
>
    decreases p.left(), 21nat,
{
    match matches_forward(p, TokenKind::Else) {
        Err(e) => Err(e),
        Ok((q, found)) => if found {
            if onward(p, q) {
                else_head(q, writer, at, condition)
            } else {
                stalled(q)
            }
        } else {
            match matches_forward(p, TokenKind::End) {
                Err(e) => Err(e),
                Ok((q, found)) => if found {
                    Ok(
                        (
                            q,
                            writer.update(
                                at as int,
                                StatementModel::If(condition, (writer.len() - at) as nat),
                            ),
                        ),
                    )
                } else {
                    match statement(p, writer) {
                        Err(e) => Err(e),
                        Ok((q, code)) => if onward(p, q) {
                            if_body(q, code, at, condition)
                        } else {
                            stalled(q)
                        },
                    }
                },
            }
        },
    }
}

/// The end of the line behind `else`, and the statements to run where the
/// condition of the conditional at position `at` does not hold.
#[verifier::opaque]
pub open spec fn else_head(p: Reader, writer: Seq<StatementModel>, at: nat, condition: ExprModel) -> Read<
    Seq<StatementModel>,
>
    decreases p.left(), 22nat,
{
    match end_line(p) {
        Err(e) => Err(e),
        Ok((q, _)) => if held(p, q) {
            else_body(q, writer.push(StatementModel::Latch), at, writer.len(), condition)
        } else {
            stalled(q)
        },
    }
}

/// The statements to run where the condition of a conditional does not
/// hold, up to `end`, which may stand behind line breaks. The conditional
/// stands at position `at`, its `Else` at position `other`.
#[verifier::opaque]
pub open spec fn else_body(
    p: Reader,
    writer: Seq<StatementModel>,
    at: nat,
    other: nat,
    condition: ExprModel,
) -> Read<Seq<StatementModel>>
    decreases p.left(), 21nat,
{
    match matches_forward(p, TokenKind::End) {
        Err(e) => Err(e),
        Ok((q, found)) => if found {
            Ok(
                (
                    q,
                    writer.update(
                        other as int,
                        StatementModel::Else((writer.len() - other) as nat),
                    ).update(at as int, StatementModel::If(condition, (other + 1 - at) as nat)),
                ),
            )
        } else {
            match statement(p, writer) {
                Err(e) => Err(e),
                Ok((q, code)) => if onward(p, q) {
                    else_body(q, code, at, other, condition)
                } else {
                    stalled(q)
                },
            }
        },
    }
}

/// The statements of a block that follow `writer`, up to `end`.
#[verifier::opaque]
pub open spec fn block(p: Reader, writer: Seq<StatementModel>) -> Read<Seq<StatementModel>>
    decreases p.left(),
{
    if p.current.kind == TokenKind::End {
        Ok((p, writer))
    } else {
        match statement(p, writer) {
            Err(e) => Err(e),
            Ok((q, code)) => if onward(p, q) {
                block(q, code)
            } else {
                stalled(q)
            },
        }
    }
}

/// A block behind the word that declares it: `do`, the end of the line,
/// the statements, `end` and the end of the line.
#[verifier::opaque]
pub open spec fn declared_block(p: Reader, open: Seq<char>, line: Seq<char>, close: Seq<char>) -> Read<
    Seq<StatementModel>,
> {
    match consume(p, TokenKind::Do, open) {
        Err(e) => Err(e),
        Ok((q, _)) => match consume(q, TokenKind::Newline, line) {
            Err(e) => Err(e),
            Ok((q, _)) => match block(q, Seq::empty()) {
                Err(e) => Err(e),
                Ok((q, code)) => match consume(q, TokenKind::End, close) {
                    Err(e) => Err(e),
                    Ok((q, _)) => match end_line(q) {
                        Err(e) => Err(e),
                        Ok((after, _)) => Ok((after, code)),
                    },
                },
            },
        },
    }
}

/// The setup behind its first word: its block becomes the setup of the
/// model.
#[verifier::opaque]
pub open spec fn init_declaration(p: Reader, m: MetsModel) -> Read<MetsModel> {
    match declared_block(
        p,
        "Expected do after init declaration"@,
        "Expected newline after init declaration"@,
        "Expected end at the end of init declaration"@,
    ) {
        Err(e) => Err(e),
        Ok((after, code)) => Ok((after, MetsModel { init: code, ..m })),
    }
}

/// A process behind its first word: its block is added to the processes
/// of the model.
#[verifier::opaque]
pub open spec fn process_declaration(p: Reader, m: MetsModel) -> Read<MetsModel> {
    match declared_block(
        p,
        "Expected do after process declaration"@,
        "Expected newline after process declaration"@,
        "Expected end at the end of process declaration"@,
    ) {
        Err(e) => Err(e),
        Ok((after, code)) => Ok((after, MetsModel { processes: m.processes.push(code), ..m })),
    }
}

/// A property: one statement, the first of what it stands for is added to
/// the properties of the model.
#[verifier::opaque]
pub open spec fn property_declaration(p: Reader, m: MetsModel) -> Read<MetsModel> {
    match statement(p, Seq::empty()) {
        Err(e) => Err(e),
        Ok((after, code)) => Ok((after, MetsModel { properties: m.properties.push(code[0]), ..m })),
    }
}

/// A declaration: a process, the setup or a property; the word `property`
/// before a property may be left out.
#[verifier::opaque]
pub open spec fn declaration(p: Reader, m: MetsModel) -> Read<MetsModel> {
    match p.current.kind {
        TokenKind::Process => match advance(p) {
            Err(e) => Err(e),
            Ok((q, _)) => process_declaration(q, m),
        },
        TokenKind::Init => match advance(p) {
            Err(e) => Err(e),
            Ok((q, _)) => init_declaration(q, m),
        },
        TokenKind::Property => match advance(p) {
            Err(e) => Err(e),
            Ok((q, _)) => property_declaration(q, m),
        },
        TokenKind::Always => property_declaration(p, m),
        TokenKind::Never => property_declaration(p, m),
        TokenKind::Eventually => property_declaration(p, m),
        _ => expected(
            p,
            "Expected either process, init or property. Parsed "@ + kind_text(p.current.kind)
                + " instead"@,
        ),
    }
}

/// The declarations up to the end of the text, each added to the model.
#[verifier::opaque]
pub open spec fn declarations(p: Reader, m: MetsModel) -> Read<MetsModel>
    decreases p.left(),
{
    if p.current.kind == TokenKind::Eof {
        match consume(p, TokenKind::Eof, "Expected end of expression"@) {
            Err(e) => Err(e),
            Ok((after, _)) => Ok((after, m)),
        }
    } else {
        match declaration(p, m) {
            Err(e) => Err(e),
            Ok((q, more)) => if onward(p, q) {
                declarations(q, more)
            } else {
                stalled(q)
            },
        }
    }
}

/// A whole text read from a reader that has not read a token yet: the
/// first token, the empty lines at the start, and the declarations, each
/// added to the model.
#[verifier::opaque]
pub open spec fn text(p: Reader, m: MetsModel) -> Read<MetsModel> {
    match advance(p) {
        Err(e) => Err(e),
        Ok((q, _)) => match skip_newlines(q) {
            Err(e) => Err(e),
            Ok((q, _)) => declarations(q, m),
        },
    }
}

/// The token that stands before anything has been read.
pub open spec fn blank_token() -> TokenModel {
    TokenModel {
        kind: TokenKind::Error,
        lexeme: Seq::empty(),
        position: Position { start_line: 1, start_col: 1, end_line: 1, end_col: 1 },
    }
}

/// The reader at the start of a text: nothing is read, and no token stands
/// ahead yet.
pub open spec fn start(source: Seq<char>) -> Reader {
    Reader {
        source,
        place: Cursor { index: 0, col: 1, line: 1 },
        previous: blank_token(),
        current: blank_token(),
        manual_commit: false,
    }
}

/// The model without a statement.
pub open spec fn blank() -> MetsModel {
    MetsModel { init: Seq::empty(), processes: Seq::empty(), properties: Seq::empty() }
}

/// What a text stands for: the model that it declares, or the failure to
/// read it.
pub open spec fn model_of(source: Seq<char>) -> Result<MetsModel, Fault> {
    match text(start(source), blank()) {
        Err(e) => Err(e),
        Ok((_, m)) => Ok(m),
    }
}

} // verus!
