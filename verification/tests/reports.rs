use std::collections::HashSet;
use entremets::ast::{Expression, IsolationLevel, Item, SelectItem, Statement, Variable};
use entremets::engine::{model_checker, Report, Violation};
use entremets::parser::Parser;
use entremets::reporter::summary;
use entremets::state::RcState;
use entremets::store::{Lock, RowId, UniqueIndex};
use entremets::value::Value;

fn compile(source: &str) -> entremets::ast::Mets {
    Parser::new(source.to_string()).compile().expect("the model reads")
}

fn text_of(source: &str) -> Vec<String> {
    compile(&format!("process do\n{source}\nend\n")).processes[0]
        .iter()
        .map(|s| s.to_text())
        .collect()
}

#[test]
fn statements_are_written_as_in_a_model() {
    assert_eq!(
        text_of("transaction t1 read_committed do\nlatch\nend\nbegin read_committed\nabort"),
        vec!["begin read committed (t1)", "latch", "commit", "begin read committed", "abort"]
    );
    assert_eq!(
        text_of("if a = 1 do\nlet b := (1, 2)\nelse\nlet c := {1, (2)}\nend"),
        vec!["if a = 1 do", "b := (1, 2)", "else", "c := {1, (2)}"]
    );
    assert_eq!(
        text_of("t1.committed and 1 + 2 * 3 <> 7 or 1 in {} or x <= y"),
        vec!["t1.committed and 1 + 2 * 3 <> 7 or 1 in {} or x <= y"]
    );
    assert_eq!(text_of("'text'\n(1 - 2) / 3 % 4 > 5"), vec!["'text'", "(1 - 2) / 3 % 4 > 5"]);
    assert_eq!(text_of("a >= b\na < b"), vec!["a >= b", "a < b"]);
    assert_eq!(
        Statement::Always(Expression::Integer(-3)).to_text(),
        "always(-3)"
    );
    assert_eq!(Statement::Never(Expression::Integer(3)).to_text(), "never(3)");
    assert_eq!(
        Statement::Eventually(Expression::Var(Variable { name: "x".to_string() })).to_text(),
        "eventually(x)"
    );
    assert_eq!(IsolationLevel::ReadCommitted.to_text(), "read committed");
    assert_eq!(Variable { name: "n".to_string() }.to_text(), "n");
}

#[test]
fn queries_are_written_as_in_a_model() {
    assert_eq!(
        text_of("`select id, * from a where id = $x and b in (1, 2) order by balance limit 2 offset 1 for update`"),
        vec!["select id, * from a where id = $x and b in (1, 2) order by balance limit 2 offset 1 for update"]
    );
    assert_eq!(text_of("`select count(*) from a`"), vec!["select count(*) from a"]);
    assert_eq!(
        text_of("`insert into a(id, balance) values (1, 100), ($x, 'n')`"),
        vec!["insert into a (id, balance) values (1, 100), ($x, 'n')"]
    );
    assert_eq!(
        text_of("`update a set x := x + 1, y := (2) where y between 1 and 3`"),
        vec!["update a set x := x + 1, y := (2) where y between (1, 3)"]
    );
    assert_eq!(text_of("`delete from a`"), vec!["delete from a"]);
    assert_eq!(text_of("`delete from a where a <> 1`"), vec!["delete from a where a <> 1"]);
    assert_eq!(
        text_of("`create unique index on u(k, l)`"),
        vec!["create unique index on u(k, l)"]
    );
    assert_eq!(
        text_of("`alter table orders add constraint fk foreign key(user_id) references users(id)`"),
        vec!["alter table orders add constraint fk foreign key(user_id) references users(id)"]
    );
    assert_eq!(SelectItem::Count(Item::Column("c".to_string())).to_text(), "count(c)");
    assert_eq!(SelectItem::Column(Item::Wildcard).to_text(), "*");
    assert_eq!(Item::Column("c".to_string()).to_text(), "c");
}

#[test]
fn locks_are_named() {
    assert_eq!(Lock::RowUpdate(RowId(12)).to_text(), "the update lock on row 12");
    assert_eq!(Lock::RowForKeyShare(RowId(3)).to_text(), "the key share lock on row 3");
    assert_eq!(
        Lock::Unique(
            "u".to_string(),
            UniqueIndex { columns: vec!["k".to_string()] },
            Value::Tuple(vec![Value::Integer(1)])
        )
        .to_text(),
        "the unique lock on (1) in u"
    );
}

#[test]
fn a_counter_example_is_told_step_by_step() {
    let source = "init do\n`insert into a(id, balance) values (1, 100)`\nend\n\
process do\nbegin read_committed\nlet x := `select balance from a where id = 1`\n`update a set balance := $x + 10 where id = 1`\ncommit\nend\n\
process do\nbegin read_committed\nlet y := `select balance from a where id = 1`\n`update a set balance := $y + 10 where id = 1`\ncommit\nend\n\
property eventually(`select balance from a where id = 1` = 120)\n";
    let mets = compile(source);
    let report = model_checker(&mets).unwrap();
    assert_eq!(
        summary(&mets, &report),
        format!(
            "Following property was violated: eventually(select balance from a where id = 1 = 120)\n\
             The following counter example was found:\n\
             Process 0: begin read committed\n\
             Process 0: x := select balance from a where id = 1\n\
             Process 0: update a set balance := $x + 10 where id = 1\n\
             Process 1: begin read committed\n\
             Process 1: y := select balance from a where id = 1\n\
             Process 0: commit\n\
             Process 1: update a set balance := $y + 10 where id = 1\n\
             Process 1: commit\n\
             \nStates explored: {}",
            report.states_explored
        )
    );
}

#[test]
fn a_jump_is_told_by_the_statement_that_was_run() {
    let source = "process do\nif 1 = 2 do\nlet a := 1\nelse\nlet a := 2\nend\nend\nproperty never(a = 2)\n";
    let mets = compile(source);
    let report = model_checker(&mets).unwrap();
    assert_eq!(
        summary(&mets, &report),
        "Following property was violated: never(a = 2)\n\
         The following counter example was found:\n\
         Process 0: if 1 = 2 do\n\
         Process 0: a := 2\n\
         \nStates explored: 2"
    );
}

#[test]
fn a_report_that_points_nowhere_has_no_steps() {
    let mets = compile("process do\nlatch\nend\n");
    let report = Report {
        states_explored: 7,
        violation: Some(Violation::PropertyViolation {
            property: Statement::Latch,
            state: RcState(5),
        }),
        states: vec![],
        expanded: vec![],
    };
    assert_eq!(
        summary(&mets, &report),
        "Following property was violated: latch\nThe following counter example was found:\n\nStates explored: 7"
    );
    let deadlock = Report {
        states_explored: 0,
        violation: Some(Violation::Deadlock { cycle: HashSet::from([0]), state: RcState(0) }),
        states: vec![],
        expanded: vec![],
    };
    assert_eq!(summary(&mets, &deadlock), "System ran into a deadlock:\n\nStates explored: 0");
}

fn read_failure(source: &str) -> entremets::parser::ParserError {
    *entremets::parser::Parser::new(source.to_string())
        .compile()
        .expect_err("the model does not read")
}

#[test]
fn a_token_out_of_place_is_named_with_its_place() {
    let error = read_failure("init do\nlet x := )\nend\n");
    assert_eq!(
        entremets::reporter::failure("model.mets", &error),
        "Error at model.mets:2:10: Unexpected token \")\": Expected expression, got a RightParen"
    );
}

#[test]
fn a_failure_of_the_scanner_is_named_field_by_field() {
    let error = read_failure("init do\nlet x := 1\n\n:\nend\n");
    let text = entremets::reporter::failure("m", &error);
    assert_eq!(
        text,
        "Error at m:2:11: Could not parse token \"\\n\": ScannerError { expected: \"Expected =\", \
         lexeme: \":\", position: Position { start_line: 4, start_col: 1, end_line: 4, end_col: 2 } }"
    );
    match &error.kind {
        entremets::parser::ParserErrorKind::Scanner(why) => assert_eq!(
            text,
            format!("Error at m:2:11: Could not parse token {:?}: {:?}", error.current.lexeme, why)
        ),
        other => panic!("no failure of the scanner: {other:?}"),
    }
}

#[test]
fn a_number_that_does_not_read_is_named_in_the_words_of_the_standard_library() {
    let error = read_failure("init do\nlet x := 99999\nend\n");
    let why = "99999".parse::<i16>().expect_err("too large");
    assert_eq!(
        entremets::reporter::failure("m", &error),
        format!("Error at m:2:15: Could not parse integer from lexeme \"\\n\": {why:?}")
    );
    assert_eq!(
        entremets::reporter::failure("m", &error),
        "Error at m:2:15: Could not parse integer from lexeme \"\\n\": ParseIntError { kind: PosOverflow }"
    );
}

#[test]
fn a_column_beside_a_count_is_named() {
    let error = read_failure("init do\n`select count(*), id from t`\nend\n");
    assert_eq!(
        entremets::reporter::failure("m", &error),
        "Error at m:2:22: Column id must appear in group by"
    );
}

#[test]
fn the_text_of_a_token_is_escaped_as_the_standard_library_does() {
    let error = read_failure("init do\nlet x := 'it''s' 'a\tb' )\nend\n");
    let text = entremets::reporter::failure("m", &error);
    assert!(text.starts_with("Error at m:2:"), "{text}");
    assert!(text.contains(&format!("{:?}", error.current.lexeme)), "{text}");
    assert_ne!(format!("{:?}", error.current.lexeme), error.current.lexeme);
}
