use entremets::ast::{
    Expression, IsolationLevel, Item, Mets, Operator, SelectItem, SqlExpression,
    SqlOperator, Statement, Variable,
};
use entremets::parser::{parse_integer, IntegerError, Parser, ParserErrorKind};
use entremets::scanner::TokenKind;

fn compile(source: &str) -> Mets {
    Parser::new(source.to_string()).compile().expect("the model reads")
}

fn failure(source: &str) -> ParserErrorKind {
    Parser::new(source.to_string()).compile().expect_err("the model does not read").kind
}

fn var(name: &str) -> Variable {
    Variable { name: name.to_string() }
}

fn name(text: &str) -> Expression {
    Expression::Var(var(text))
}

fn statement(source: &str) -> Statement {
    let mut parser = Parser::new(source.to_string());
    parser.advance().unwrap();
    let mut statements = vec![];
    parser.statement(&mut statements).unwrap();
    assert_eq!(statements.len(), 1);
    statements.remove(0)
}

fn query(source: &str) -> SqlExpression {
    match statement(&format!("`{source}`\n")) {
        Statement::Expression(Expression::Sql(sql)) => sql,
        other => panic!("no query: {other:?}"),
    }
}

#[test]
fn numbers_are_read_in_decimal() {
    assert_eq!(parse_integer(&"0".to_string()), Ok(0));
    assert_eq!(parse_integer(&"120".to_string()), Ok(120));
    assert_eq!(parse_integer(&"007".to_string()), Ok(7));
    assert_eq!(parse_integer(&"32767".to_string()), Ok(32767));
    assert_eq!(parse_integer(&"32768".to_string()), Err(IntegerError::Overflow));
    assert_eq!(parse_integer(&"99999999999999999999".to_string()), Err(IntegerError::Overflow));
    assert_eq!(parse_integer(&"12a".to_string()), Err(IntegerError::InvalidDigit));
    assert_eq!(parse_integer(&"99999999999999999999x".to_string()), Err(IntegerError::InvalidDigit));
    assert_eq!(parse_integer(&"-1".to_string()), Err(IntegerError::InvalidDigit));
    assert_eq!(parse_integer(&"١٢".to_string()), Err(IntegerError::InvalidDigit));
    assert_eq!(parse_integer(&"".to_string()), Ok(0));
}

#[test]
fn a_number_too_large_does_not_read() {
    assert_eq!(failure("process do\nlet x := 40000\nend\n"), ParserErrorKind::ParseInt(IntegerError::Overflow));
    assert_eq!(failure("process do\nlet x := ٣\nend\n"), ParserErrorKind::ParseInt(IntegerError::InvalidDigit));
}

#[test]
fn the_empty_text_is_the_empty_model() {
    let mets = compile("");
    assert!(mets.init.is_empty());
    assert!(mets.processes.is_empty());
    assert!(mets.properties.is_empty());
    let blank = compile("\n\n   \n");
    assert_eq!(blank, mets);
}

#[test]
fn blocks_and_properties_are_told_apart() {
    let mets = compile(
        "init do\nlet a := 1\nend\n\nprocess do\nlatch\nend\nprocess do\nend\nproperty always(a = 1)\nnever(a = 2)\neventually(a = 1)\n",
    );
    assert_eq!(
        mets.init,
        vec![Statement::Expression(Expression::Assignment(
            var("a"),
            Box::new(Expression::Integer(1))
        ))]
    );
    assert_eq!(mets.processes, vec![vec![Statement::Latch], vec![]]);
    let holds = |n: i16| Expression::Binary {
        left: Box::new(name("a")),
        operator: Operator::Equal,
        right: Box::new(Expression::Integer(n)),
    };
    assert_eq!(
        mets.properties,
        vec![
            Statement::Always(holds(1)),
            Statement::Never(holds(2)),
            Statement::Eventually(holds(1))
        ]
    );
}

#[test]
fn a_transaction_block_begins_and_commits() {
    let mets = compile("process do\ntransaction read_committed do\nlatch\nend\nend\n");
    assert_eq!(
        mets.processes[0],
        vec![
            Statement::Begin(IsolationLevel::ReadCommitted, None),
            Statement::Latch,
            Statement::Commit
        ]
    );
    let named = compile("process do\ntransaction t1 read_committed do\nend\nend\n");
    assert_eq!(
        named.processes[0],
        vec![
            Statement::Begin(IsolationLevel::ReadCommitted, Some(var("t1"))),
            Statement::Commit
        ]
    );
}

#[test]
fn a_block_that_ends_its_transaction_gets_no_commit() {
    let aborting = compile("process do\ntransaction t1 read_committed do\nabort\nend\nend\n");
    assert_eq!(
        aborting.processes[0],
        vec![
            Statement::Begin(IsolationLevel::ReadCommitted, Some(var("t1"))),
            Statement::Abort
        ]
    );
    let committing = compile("process do\ntransaction read_committed do\ncommit\nend\nend\n");
    assert_eq!(
        committing.processes[0],
        vec![Statement::Begin(IsolationLevel::ReadCommitted, None), Statement::Commit]
    );
}

#[test]
fn begin_commit_and_abort_stand_alone() {
    let mets = compile("process do\nbegin read_committed\ncommit\nabort\nend\n");
    assert_eq!(
        mets.processes[0],
        vec![
            Statement::Begin(IsolationLevel::ReadCommitted, None),
            Statement::Commit,
            Statement::Abort
        ]
    );
    assert!(matches!(
        failure("process do\nbegin serializable\nend\n"),
        ParserErrorKind::Unexpected(message) if message == "Expected following isolation level: read_committed"
    ));
    assert!(matches!(
        failure("process do\ntransaction t1 serializable do\nend\nend\n"),
        ParserErrorKind::Unexpected(message) if message == "Expected following isolation level: read_committed"
    ));
}

#[test]
fn a_conditional_says_how_far_to_jump() {
    let mets = compile(
        "process do\nif a = 1 do\nlatch\ncommit\nelse\nabort\nend\nlatch\nend\n",
    );
    let condition = Expression::Binary {
        left: Box::new(name("a")),
        operator: Operator::Equal,
        right: Box::new(Expression::Integer(1)),
    };
    assert_eq!(
        mets.processes[0],
        vec![
            Statement::If(condition, 4),
            Statement::Latch,
            Statement::Commit,
            Statement::Else(2),
            Statement::Abort,
            Statement::Latch
        ]
    );
}

#[test]
fn a_conditional_needs_no_else() {
    let mets = compile("process do\nif a do\nlatch\nend\ncommit\nend\n");
    assert_eq!(
        mets.processes[0],
        vec![Statement::If(name("a"), 2), Statement::Latch, Statement::Commit]
    );
    let empty = compile("process do\nif a do\nend\nend\n");
    assert_eq!(empty.processes[0], vec![Statement::If(name("a"), 1)]);
    let empty_else = compile("process do\nif a do\nelse\nend\nend\n");
    assert_eq!(
        empty_else.processes[0],
        vec![Statement::If(name("a"), 2), Statement::Else(1)]
    );
}

#[test]
fn conditionals_nest() {
    let mets = compile(
        "process do\nif a do\nif b do\nlatch\nelse\ncommit\nend\nelse\ntransaction read_committed do\nlatch\nend\nend\nend\n",
    );
    assert_eq!(
        mets.processes[0],
        vec![
            Statement::If(name("a"), 6),
            Statement::If(name("b"), 3),
            Statement::Latch,
            Statement::Else(2),
            Statement::Commit,
            Statement::Else(4),
            Statement::Begin(IsolationLevel::ReadCommitted, None),
            Statement::Latch,
            Statement::Commit
        ]
    );
}

#[test]
fn operators_bind_as_in_arithmetic() {
    assert_eq!(
        statement("1 + 2 * 3 = 7 and a in {1, 2} or b < c\n"),
        Statement::Expression(Expression::Binary {
            left: Box::new(Expression::Binary {
                left: Box::new(Expression::Binary {
                    left: Box::new(Expression::Binary {
                        left: Box::new(Expression::Integer(1)),
                        operator: Operator::Add,
                        right: Box::new(Expression::Binary {
                            left: Box::new(Expression::Integer(2)),
                            operator: Operator::Multiply,
                            right: Box::new(Expression::Integer(3)),
                        }),
                    }),
                    operator: Operator::Equal,
                    right: Box::new(Expression::Integer(7)),
                }),
                operator: Operator::And,
                right: Box::new(Expression::Binary {
                    left: Box::new(name("a")),
                    operator: Operator::Included,
                    right: Box::new(Expression::SetOf(vec![
                        Expression::Integer(1),
                        Expression::Integer(2)
                    ])),
                }),
            }),
            operator: Operator::Or,
            right: Box::new(Expression::Binary {
                left: Box::new(name("b")),
                operator: Operator::Less,
                right: Box::new(name("c")),
            }),
        })
    );
}

#[test]
fn every_comparison_has_its_operator() {
    let compare = |sign: &str| match statement(&format!("a {sign} b\n")) {
        Statement::Expression(Expression::Binary { operator, .. }) => operator,
        other => panic!("no comparison: {other:?}"),
    };
    assert_eq!(compare("="), Operator::Equal);
    assert_eq!(compare("<>"), Operator::NotEqual);
    assert_eq!(compare("<"), Operator::Less);
    assert_eq!(compare("<="), Operator::LessEqual);
    assert_eq!(compare(">"), Operator::Greater);
    assert_eq!(compare(">="), Operator::GreaterEqual);
    assert_eq!(compare("/"), Operator::Divide);
    assert_eq!(compare("%"), Operator::Rem);
    assert_eq!(compare("-"), Operator::Subtract);
}

#[test]
fn primaries_are_read() {
    assert_eq!(statement("'text'\n"), Statement::Expression(Expression::String("'text'".to_string())));
    assert_eq!(statement("()\n"), Statement::Expression(Expression::Tuple(vec![])));
    assert_eq!(
        statement("(1)\n"),
        Statement::Expression(Expression::Scalar(Box::new(Expression::Integer(1))))
    );
    assert_eq!(
        statement("(1, a)\n"),
        Statement::Expression(Expression::Tuple(vec![Expression::Integer(1), name("a")]))
    );
    assert_eq!(statement("{}\n"), Statement::Expression(Expression::SetOf(vec![])));
    assert_eq!(
        statement("t1.committed\n"),
        Statement::Expression(Expression::Member {
            call_site: Box::new(name("t1")),
            member: var("committed")
        })
    );
    assert_eq!(
        statement("let x := y := 3\n"),
        Statement::Expression(Expression::Assignment(
            var("x"),
            Box::new(Expression::Assignment(var("y"), Box::new(Expression::Integer(3))))
        ))
    );
}

#[test]
fn a_select_is_read_with_all_its_clauses() {
    assert_eq!(
        query("select id, * from a where id = $x order by balance limit 2 offset 1 for update"),
        SqlExpression::Select {
            columns: vec![
                SelectItem::Column(Item::Column("id".to_string())),
                SelectItem::Column(Item::Wildcard)
            ],
            from: var("a"),
            condition: Some(Box::new(SqlExpression::Binary {
                left: Box::new(SqlExpression::Var(var("id"))),
                operator: SqlOperator::Equal,
                right: Box::new(SqlExpression::UpVariable(var("x"))),
            })),
            order_by: Some(Box::new(SqlExpression::Var(var("balance")))),
            limit: Some(2),
            offset: Some(1),
            locking: true,
        }
    );
    assert_eq!(
        query("select count(*) from a"),
        SqlExpression::Select {
            columns: vec![SelectItem::Count(Item::Wildcard)],
            from: var("a"),
            condition: None,
            order_by: None,
            limit: None,
            offset: None,
            locking: false,
        }
    );
}

#[test]
fn a_count_beside_a_column_does_not_read() {
    assert_eq!(
        failure("process do\n`select count(*), id from a`\nend\n"),
        ParserErrorKind::AggregateError(SelectItem::Column(Item::Column("id".to_string())))
    );
    assert_eq!(
        failure("process do\n`select id, count(*) from a`\nend\n"),
        ParserErrorKind::AggregateError(SelectItem::Column(Item::Column("id".to_string())))
    );
}

#[test]
fn the_other_queries_are_read() {
    assert_eq!(
        query("insert into a(id, balance) values (1, 100), ($x, 'n')"),
        SqlExpression::Insert {
            relation: var("a"),
            columns: vec![var("id"), var("balance")],
            values: vec![
                SqlExpression::Tuple(vec![SqlExpression::Integer(1), SqlExpression::Integer(100)]),
                SqlExpression::Tuple(vec![
                    SqlExpression::UpVariable(var("x")),
                    SqlExpression::String("'n'".to_string())
                ])
            ],
        }
    );
    assert_eq!(
        query("delete from a where id in (1, 2)"),
        SqlExpression::Delete {
            relation: var("a"),
            condition: Some(Box::new(SqlExpression::Binary {
                left: Box::new(SqlExpression::Var(var("id"))),
                operator: SqlOperator::In,
                right: Box::new(SqlExpression::SetOf(vec![
                    SqlExpression::Integer(1),
                    SqlExpression::Integer(2)
                ])),
            })),
        }
    );
    assert_eq!(query("delete from a"), SqlExpression::Delete { relation: var("a"), condition: None });
    assert_eq!(
        query("create unique index on u(k, l)"),
        SqlExpression::Create { relation: var("u"), columns: vec![var("k"), var("l")] }
    );
    assert_eq!(
        query("alter table orders add constraint fk foreign key(user_id) references users(id)"),
        SqlExpression::Alter {
            constraint_name: var("fk"),
            relation: var("orders"),
            columns: vec![var("user_id")],
            reference_relation: var("users"),
            reference_columns: vec![var("id")],
        }
    );
    assert_eq!(
        query("update a set x := 1 where y between 1 and (2)"),
        SqlExpression::Update {
            relation: var("a"),
            updates: vec![SqlExpression::Assignment(
                var("x"),
                Box::new(SqlExpression::Integer(1))
            )],
            condition: Some(Box::new(SqlExpression::Binary {
                left: Box::new(SqlExpression::Var(var("y"))),
                operator: SqlOperator::Between,
                right: Box::new(SqlExpression::Tuple(vec![
                    SqlExpression::Integer(1),
                    SqlExpression::Scalar(Box::new(SqlExpression::Integer(2)))
                ])),
            })),
        }
    );
}

#[test]
fn the_operators_of_the_query_language_are_read() {
    let operator = |sign: &str| match query(&format!("select a from t where a {sign} b")) {
        SqlExpression::Select { condition: Some(condition), .. } => match *condition {
            SqlExpression::Binary { operator, .. } => operator,
            other => panic!("no operator: {other:?}"),
        },
        other => panic!("no select: {other:?}"),
    };
    assert_eq!(operator("="), SqlOperator::Equal);
    assert_eq!(operator("<>"), SqlOperator::NotEqual);
    assert_eq!(operator("<"), SqlOperator::Less);
    assert_eq!(operator("<="), SqlOperator::LessEqual);
    assert_eq!(operator(">"), SqlOperator::Greater);
    assert_eq!(operator(">="), SqlOperator::GreaterEqual);
    assert_eq!(operator("+"), SqlOperator::Add);
    assert_eq!(operator("-"), SqlOperator::Subtract);
    assert_eq!(operator("*"), SqlOperator::Multiply);
    assert_eq!(operator("/"), SqlOperator::Divide);
    assert_eq!(operator("%"), SqlOperator::Rem);
    assert_eq!(operator("in"), SqlOperator::In);
    assert_eq!(operator("and"), SqlOperator::And);
}

#[test]
fn what_is_no_model_does_not_read() {
    assert!(matches!(
        failure("latch\n"),
        ParserErrorKind::Unexpected(message)
            if message == "Expected either process, init or property. Parsed Latch instead"
    ));
    assert!(matches!(
        failure("process\n"),
        ParserErrorKind::Unexpected(message) if message == "Expected do after process declaration"
    ));
    assert!(matches!(
        failure("process do\nlatch\n"),
        ParserErrorKind::Unexpected(message) if message == "Expected expression, got a Eof"
    ));
    assert!(matches!(
        failure("process do\nelse\nend\n"),
        ParserErrorKind::Unexpected(message) if message == "Expected a statement before else"
    ));
    assert!(matches!(
        failure("process do\n1 := 2\nend\n"),
        ParserErrorKind::Unexpected(message)
            if message == "Expected variable before := assignment at Token { kind: ColonEqual, \
                lexeme: \":=\", position: Position { start_line: 2, start_col: 3, end_line: 2, \
                end_col: 5 } }"
    ));
    assert!(matches!(
        failure("process do\n`select from`\nend\n"),
        ParserErrorKind::Unexpected(message) if message == "Expected relation for select from"
    ));
    assert!(matches!(
        failure("process do\n`drop a`\nend\n"),
        ParserErrorKind::Unexpected(message)
            if message == "Expected sql expression, got a Identifier"
    ));
    assert!(matches!(failure("process do\n#\nend\n"), ParserErrorKind::Scanner(_)));
    let error = Parser::new("process do\nlatch latch\nend\n".to_string()).compile().unwrap_err();
    assert_eq!(error.current.kind, TokenKind::Latch);
    assert_eq!(error.current.position.start_line, 2);
    assert_eq!(error.current.position.start_col, 7);
}

#[test]
fn the_parser_reads_one_token_ahead() {
    let mut parser = Parser::new("a b".to_string());
    assert_eq!(parser.current.kind, TokenKind::Error);
    parser.advance().unwrap();
    assert_eq!(parser.current.lexeme, "a");
    assert!(parser.check(TokenKind::Identifier));
    assert_eq!(parser.matches(TokenKind::Number), Ok(false));
    assert_eq!(parser.matches(TokenKind::Identifier), Ok(true));
    assert_eq!(parser.previous.lexeme, "a");
    assert_eq!(parser.current.lexeme, "b");
    assert_eq!(parser.make_variable(), var("a"));
    assert!(parser.consume(TokenKind::Comma, "Expected ,").is_err());
    assert_eq!(parser.consume(TokenKind::Identifier, "Expected name"), Ok(()));
    assert!(parser.check(TokenKind::Eof));
}

#[test]
fn looking_ahead_skips_line_breaks() {
    let mut parser = Parser::new("\n\n  and x".to_string());
    parser.advance().unwrap();
    assert_eq!(parser.current.kind, TokenKind::Newline);
    assert_eq!(parser.matches_forward(TokenKind::Or), Ok(false));
    assert_eq!(parser.current.kind, TokenKind::Newline);
    assert_eq!(parser.matches_forward(TokenKind::And), Ok(true));
    assert_eq!(parser.previous.kind, TokenKind::And);
    assert_eq!(parser.current.lexeme, "x");
    assert_eq!(
        parser.matches_forward_within(&vec![TokenKind::Plus, TokenKind::Identifier]),
        Ok(true)
    );
    assert_eq!(parser.matches_within(&vec![TokenKind::Plus]), Ok(false));
}

#[test]
fn a_failure_names_the_token_at_which_reading_stood() {
    let error = Parser::new("init do\nlet x := )\nend\n".to_string())
        .compile()
        .expect_err("the model does not read");
    assert_eq!(
        error.kind,
        ParserErrorKind::Unexpected("Expected expression, got a RightParen".to_string())
    );
    assert_eq!(error.current.kind, TokenKind::RightParen);
    assert_eq!(error.current.lexeme, ")");
    assert_eq!(error.current.position.start_line, 2);
    assert_eq!(error.current.position.start_col, 10);
    assert_eq!(error.current.position.end_line, 2);
    assert_eq!(error.current.position.end_col, 11);
}

#[test]
fn what_cannot_be_read_ahead_fails_where_reading_stands() {
    let error = Parser::new("init do\nlet x := 1\n\n:\nend\n".to_string())
        .compile()
        .expect_err("the model does not read");
    match error.kind {
        ParserErrorKind::Scanner(e) => {
            assert_eq!(e.expected, "Expected =");
            assert_eq!(e.lexeme, ":");
            assert_eq!(e.position.start_line, 4);
            assert_eq!(e.position.start_col, 1);
        }
        other => panic!("no failure of the scanner: {other:?}"),
    }
    assert_eq!(error.current.kind, TokenKind::Newline);
    assert_eq!(error.current.position.start_line, 2);
    assert_eq!(error.current.position.start_col, 11);
}

#[test]
fn a_sign_on_a_later_line_goes_on_with_the_expression() {
    let expected = Statement::Expression(Expression::Binary {
        left: Box::new(Expression::Integer(1)),
        operator: Operator::Or,
        right: Box::new(Expression::Binary {
            left: Box::new(Expression::Integer(2)),
            operator: Operator::And,
            right: Box::new(Expression::Integer(3)),
        }),
    });
    assert_eq!(statement("1\n\n\nor 2\nand 3\n"), expected);
}

#[test]
fn line_breaks_with_nothing_to_go_on_with_end_the_statement() {
    let mets = compile("init do\nlet x := 1\n\n\nlet y := 2\nend\n");
    assert_eq!(mets.init.len(), 2);
}

#[test]
fn a_failure_says_what_kind_of_token_stood_there() {
    assert_eq!(
        failure("process do\nset\nend\n"),
        ParserErrorKind::Unexpected("Expected expression, got a Set".to_string())
    );
    assert_eq!(
        failure("process do\n`select 1 from t`\nend\n"),
        ParserErrorKind::Unexpected("Expected select clause, got a Number instead".to_string())
    );
    assert_eq!(
        failure("process do\n`update t set a := (1 + )`\nend\n"),
        ParserErrorKind::Unexpected("Expected sql expression, got a RightParen".to_string())
    );
}

#[test]
fn a_query_that_is_not_closed_is_named() {
    let read = query("select a from t");
    match failure("process do\n`select a from t 1`\nend\n") {
        ParserErrorKind::Unexpected(message) => assert_eq!(
            message,
            format!("Expected ` to end sql expression '{}'", read.to_text())
        ),
        other => panic!("no unexpected token: {other:?}"),
    }
}

#[test]
fn the_token_before_an_assignment_is_named_as_the_standard_library_does() {
    let error = Parser::new("process do\n`update t set 1 := 2`\nend\n".to_string())
        .compile()
        .expect_err("the model does not read");
    assert_eq!(
        error.kind,
        ParserErrorKind::Unexpected(format!(
            "Expected variable before := assignment at {:?}",
            entremets::scanner::Token {
                kind: TokenKind::ColonEqual,
                lexeme: ":=".to_string(),
                position: entremets::scanner::Position {
                    start_line: 2,
                    start_col: 17,
                    end_line: 2,
                    end_col: 19,
                },
            }
        ))
    );
}
