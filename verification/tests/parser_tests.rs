use entremets::ast::{
    Expression, Operator, SqlExpression, SqlOperator, Statement, Variable,
};
use entremets::parser::Parser;

#[test]
fn parse_sql_query() {
    let mut parser = Parser::new(
        "`update users set age := $t1_age + 1 where id = 1 and age = $t1_age`\n".to_string(),
    );
    parser.advance().unwrap();

    let mut statements = vec![];
    parser.statement(&mut statements).unwrap();
    assert_eq!(
        Statement::Expression(Expression::Sql(SqlExpression::Update {
            relation: Variable {
                name: "users".to_string()
            },
            updates: vec![SqlExpression::Assignment(
                Variable {
                    name: "age".to_string()
                },
                Box::new(SqlExpression::Binary {
                    left: Box::new(SqlExpression::UpVariable(Variable {
                        name: "t1_age".to_string()
                    })),
                    operator: SqlOperator::Add,
                    right: Box::new(SqlExpression::Integer(1)),
                }),
            )],
            condition: Some(Box::new(SqlExpression::Binary {
                left: Box::new(SqlExpression::Binary {
                    left: Box::new(SqlExpression::Var(Variable {
                        name: "id".to_string()
                    })),
                    operator: SqlOperator::Equal,
                    right: Box::new(SqlExpression::Integer(1)),
                }),
                operator: SqlOperator::And,
                right: Box::new(SqlExpression::Binary {
                    left: Box::new(SqlExpression::Var(Variable {
                        name: "age".to_string()
                    })),
                    operator: SqlOperator::Equal,
                    right: Box::new(SqlExpression::UpVariable(Variable {
                        name: "t1_age".to_string()
                    })),
                }),
            })),
        })),
        statements[0]
    );
}

#[test]
fn parse_multiple_addition() {
    let mut parser = Parser::new("10 - 3 - 4\n".to_string());
    parser.advance().unwrap();

    let mut statements = vec![];
    parser.statement(&mut statements).unwrap();
    assert_eq!(
        Statement::Expression(Expression::Binary {
            left: Box::new(Expression::Binary {
                left: Box::new(Expression::Integer(10)),
                operator: Operator::Subtract,
                right: Box::new(Expression::Integer(3)),
            }),
            operator: Operator::Subtract,
            right: Box::new(Expression::Integer(4)),
        }),
        statements[0]
    );
}

#[test]
fn parse_multiple_factor() {
    let mut parser = Parser::new("10 * 3 % 4\n".to_string());
    parser.advance().unwrap();

    let mut statements = vec![];
    parser.statement(&mut statements).unwrap();
    assert_eq!(
        Statement::Expression(Expression::Binary {
            left: Box::new(Expression::Binary {
                left: Box::new(Expression::Integer(10)),
                operator: Operator::Multiply,
                right: Box::new(Expression::Integer(3)),
            }),
            operator: Operator::Rem,
            right: Box::new(Expression::Integer(4)),
        }),
        statements[0]
    );
}
