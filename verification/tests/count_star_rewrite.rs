//! The COUNT(*) rewrite: a bare `COUNT(*)` becomes
//! `count(coalesce(<first table>.<first column>, 0))`, wherever it sits in
//! a selected expression.

use grouped_aggregate::column::{
    BinaryOperator, Column, Expr, FunctionExpr, Literal, Relation,
};
use grouped_aggregate::count_star::{RewriteError, SelectStatement, TableExpr};

fn rel(name: &str) -> Relation {
    Relation { schema: None, name: String::from(name) }
}

fn users_schema() -> Vec<(Relation, Vec<String>)> {
    vec![(
        rel("users"),
        vec![String::from("id"), String::from("name"), String::from("age")],
    )]
}

fn rel_eq(a: &Relation, b: &Relation) -> bool {
    a.schema == b.schema && a.name == b.name
}

fn column_eq(a: &Column, b: &Column) -> bool {
    a.name == b.name
        && match (&a.table, &b.table) {
            (Some(x), Some(y)) => rel_eq(x, y),
            (None, None) => true,
            _ => false,
        }
}

fn literal_eq(a: &Literal, b: &Literal) -> bool {
    match (a, b) {
        (Literal::Null, Literal::Null) => true,
        (Literal::Boolean(x), Literal::Boolean(y)) => x == y,
        (Literal::Integer(x), Literal::Integer(y)) => x == y,
        (Literal::UnsignedInteger(x), Literal::UnsignedInteger(y)) => x == y,
        (Literal::Str(x), Literal::Str(y)) => x == y,
        _ => false,
    }
}

fn expr_eq(a: &Expr, b: &Expr) -> bool {
    match (a, b) {
        (Expr::Literal(x), Expr::Literal(y)) => literal_eq(x, y),
        (Expr::Column(x), Expr::Column(y)) => column_eq(x, y),
        (Expr::Call(x), Expr::Call(y)) => fexpr_eq(x, y),
        (
            Expr::BinaryOp { lhs: l1, op: o1, rhs: r1 },
            Expr::BinaryOp { lhs: l2, op: o2, rhs: r2 },
        ) => o1 == o2 && expr_eq(l1, l2) && expr_eq(r1, r2),
        _ => false,
    }
}

fn fexpr_eq(a: &FunctionExpr, b: &FunctionExpr) -> bool {
    match (a, b) {
        (FunctionExpr::CountStar, FunctionExpr::CountStar) => true,
        (
            FunctionExpr::Call { name: n1, arguments: a1 },
            FunctionExpr::Call { name: n2, arguments: a2 },
        ) => {
            n1 == n2
                && a1.len() == a2.len()
                && a1.iter().zip(a2.iter()).all(|(x, y)| expr_eq(x, y))
        }
        (
            FunctionExpr::Count { expr: e1, distinct: d1 },
            FunctionExpr::Count { expr: e2, distinct: d2 },
        ) => d1 == d2 && expr_eq(e1, e2),
        _ => false,
    }
}

/// `count(coalesce(users.id, 0))`, not distinct.
fn expected_replacement() -> Expr {
    Expr::Call(FunctionExpr::Count {
        expr: Box::new(Expr::Call(FunctionExpr::Call {
            name: String::from("coalesce"),
            arguments: vec![
                Expr::Column(Column {
                    name: String::from("id"),
                    table: Some(rel("users")),
                }),
                Expr::Literal(Literal::Integer(0)),
            ],
        })),
        distinct: false,
    })
}

#[test]
fn it_expands_count_star() {
    // SELECT COUNT(*) FROM users;
    // -->
    // SELECT COUNT(coalesce(users.id, 0)) FROM users;
    let q = SelectStatement {
        tables: vec![TableExpr { table: rel("users") }],
        fields: vec![Expr::Call(FunctionExpr::CountStar)],
    };
    let res = q.rewrite_count_star(&users_schema()).unwrap();
    assert_eq!(res.fields.len(), 1);
    assert!(expr_eq(&res.fields[0], &expected_replacement()));
}

#[test]
fn it_expands_count_star_with_group_by() {
    // grouping does not change what the COUNT(*) itself becomes: the
    // selected expression is rewritten the same way
    let q = SelectStatement {
        tables: vec![TableExpr { table: rel("users") }],
        fields: vec![
            Expr::Column(Column { name: String::from("id"), table: None }),
            Expr::Call(FunctionExpr::CountStar),
        ],
    };
    let res = q.rewrite_count_star(&users_schema()).unwrap();
    assert_eq!(res.fields.len(), 2);
    assert!(expr_eq(
        &res.fields[0],
        &Expr::Column(Column { name: String::from("id"), table: None })
    ));
    assert!(expr_eq(&res.fields[1], &expected_replacement()));
}

#[test]
fn nested_in_expression() {
    // SELECT COUNT(*) + 1 FROM users;
    let q = SelectStatement {
        tables: vec![TableExpr { table: rel("users") }],
        fields: vec![Expr::BinaryOp {
            lhs: Box::new(Expr::Call(FunctionExpr::CountStar)),
            op: BinaryOperator::Add,
            rhs: Box::new(Expr::Literal(Literal::UnsignedInteger(1))),
        }],
    };
    let res = q.rewrite_count_star(&users_schema()).unwrap();
    assert_eq!(res.fields.len(), 1);
    assert!(expr_eq(
        &res.fields[0],
        &Expr::BinaryOp {
            lhs: Box::new(expected_replacement()),
            op: BinaryOperator::Add,
            rhs: Box::new(Expr::Literal(Literal::UnsignedInteger(1))),
        }
    ));
}

#[test]
fn unknown_table_is_an_error() {
    let q = SelectStatement {
        tables: vec![TableExpr { table: rel("ghosts") }],
        fields: vec![Expr::Call(FunctionExpr::CountStar)],
    };
    assert_eq!(q.rewrite_count_star(&users_schema()).unwrap_err(), RewriteError::TableNotFound);
}

#[test]
fn no_tables_is_an_error() {
    let q = SelectStatement { tables: vec![], fields: vec![Expr::Call(FunctionExpr::CountStar)] };
    assert_eq!(q.rewrite_count_star(&users_schema()).unwrap_err(), RewriteError::NoTables);
}

#[test]
fn statement_without_count_star_is_unchanged() {
    let q = SelectStatement {
        tables: vec![TableExpr { table: rel("users") }],
        fields: vec![Expr::Column(Column { name: String::from("age"), table: None })],
    };
    let res = q.rewrite_count_star(&users_schema()).unwrap();
    assert_eq!(res.fields.len(), 1);
    assert!(expr_eq(
        &res.fields[0],
        &Expr::Column(Column { name: String::from("age"), table: None })
    ));
}
