//! Column definitions: parsing `CREATE TABLE` column clauses in both
//! dialects, and rendering them back.

use grouped_aggregate::column::{
    column_specification, Column, ColumnConstraint, ColumnSpecification, Dialect, Expr,
    FunctionExpr, Literal, SqlType,
};

fn parse(dialect: Dialect, input: &[u8]) -> ColumnSpecification {
    column_specification(dialect, input, 0).unwrap().1
}

fn constraint_is_default_call(c: &ColumnConstraint, fname: &str) -> bool {
    match c {
        ColumnConstraint::DefaultValue(Expr::Call(FunctionExpr::Call { name, arguments })) => {
            name == fname && arguments.is_empty()
        }
        _ => false,
    }
}

#[test]
fn multiple_constraints() {
    let res = parse(
        Dialect::MySQL,
        b"`created_at` timestamp NOT NULL DEFAULT current_timestamp()",
    );
    assert_eq!(res.column.name, "created_at");
    assert!(res.column.table.is_none());
    assert!(matches!(res.sql_type, SqlType::Timestamp));
    assert!(res.comment.is_none());
    assert_eq!(res.constraints.len(), 2);
    assert!(matches!(res.constraints[0], ColumnConstraint::NotNull));
    assert!(constraint_is_default_call(&res.constraints[1], "current_timestamp"));
}

#[test]
fn null_round_trip() {
    let input = b"`c` INT(32) NULL";
    let cspec = parse(Dialect::MySQL, input);
    let res = cspec.display_string();
    assert_eq!(res, String::from_utf8(input.to_vec()).unwrap());
}

#[test]
fn default_booleans() {
    let input = b"`c` bool DEFAULT FALSE";
    let cspec = parse(Dialect::MySQL, input);
    assert_eq!(cspec.constraints.len(), 1);
    assert!(matches!(
        cspec.constraints[0],
        ColumnConstraint::DefaultValue(Expr::Literal(Literal::Boolean(false)))
    ));

    let input = b"`c` bool DEFAULT true";
    let cspec = parse(Dialect::MySQL, input);
    assert_eq!(cspec.constraints.len(), 1);
    assert!(matches!(
        cspec.constraints[0],
        ColumnConstraint::DefaultValue(Expr::Literal(Literal::Boolean(true)))
    ));
}

#[test]
fn column_multiple_constraints() {
    // the same constraints, quoted the PostgreSQL way
    let res = parse(
        Dialect::PostgreSQL,
        b"\"created_at\" timestamp NOT NULL DEFAULT current_timestamp()",
    );
    assert_eq!(res.column.name, "created_at");
    assert!(res.column.table.is_none());
    assert!(matches!(res.sql_type, SqlType::Timestamp));
    assert!(res.comment.is_none());
    assert_eq!(res.constraints.len(), 2);
    assert!(matches!(res.constraints[0], ColumnConstraint::NotNull));
    assert!(constraint_is_default_call(&res.constraints[1], "current_timestamp"));
}

#[test]
fn default_now() {
    let res1 = parse(Dialect::PostgreSQL, b"c timestamp NOT NULL DEFAULT NOW()");
    assert_eq!(res1.column.name, "c");
    assert!(res1.column.table.is_none());
    assert!(matches!(res1.sql_type, SqlType::Timestamp));
    assert!(res1.comment.is_none());
    assert_eq!(res1.constraints.len(), 2);
    assert!(matches!(res1.constraints[0], ColumnConstraint::NotNull));
    assert!(constraint_is_default_call(&res1.constraints[1], "NOW"));
}

#[test]
fn parses_many_constraint_kinds() {
    let res = parse(
        Dialect::MySQL,
        b"`id` BIGINT(20) NOT NULL AUTO_INCREMENT PRIMARY KEY UNIQUE KEY COMMENT 'the id'",
    );
    assert_eq!(res.column.name, "id");
    assert!(matches!(res.sql_type, SqlType::BigInt(Some(20))));
    assert_eq!(res.constraints.len(), 4);
    assert!(matches!(res.constraints[0], ColumnConstraint::NotNull));
    assert!(matches!(res.constraints[1], ColumnConstraint::AutoIncrement));
    assert!(matches!(res.constraints[2], ColumnConstraint::PrimaryKey));
    assert!(matches!(res.constraints[3], ColumnConstraint::Unique));
    assert_eq!(res.comment.as_deref(), Some("the id"));
}

#[test]
fn parses_charset_and_collation() {
    let res = parse(
        Dialect::MySQL,
        b"`name` VARCHAR(255) CHARACTER SET utf8mb4 COLLATE utf8mb4_bin NULL",
    );
    assert!(matches!(res.sql_type, SqlType::Varchar(Some(255))));
    assert_eq!(res.constraints.len(), 3);
    assert!(
        matches!(&res.constraints[0], ColumnConstraint::CharacterSet(cs) if cs == "utf8mb4")
    );
    assert!(matches!(&res.constraints[1], ColumnConstraint::Collation(cl) if cl == "utf8mb4_bin"));
    assert!(matches!(res.constraints[2], ColumnConstraint::Null));
}

#[test]
fn missing_type_defaults_to_text() {
    let res = parse(Dialect::MySQL, b"`c` NOT NULL");
    assert!(matches!(res.sql_type, SqlType::Text));
    assert_eq!(res.constraints.len(), 1);
    assert!(matches!(res.constraints[0], ColumnConstraint::NotNull));
}

#[test]
fn parses_on_update_current_timestamp() {
    let res = parse(
        Dialect::MySQL,
        b"`updated_at` timestamp NULL ON UPDATE CURRENT_TIMESTAMP",
    );
    assert_eq!(res.constraints.len(), 2);
    assert!(matches!(res.constraints[0], ColumnConstraint::Null));
    assert!(matches!(res.constraints[1], ColumnConstraint::OnUpdateCurrentTimestamp));
}

#[test]
fn default_literals() {
    let res = parse(Dialect::MySQL, b"`n` INT DEFAULT 42");
    assert!(matches!(
        res.constraints[0],
        ColumnConstraint::DefaultValue(Expr::Literal(Literal::UnsignedInteger(42)))
    ));
    let res = parse(Dialect::MySQL, b"`n` INT DEFAULT -7");
    assert!(matches!(
        res.constraints[0],
        ColumnConstraint::DefaultValue(Expr::Literal(Literal::Integer(-7)))
    ));
    let res = parse(Dialect::MySQL, b"`n` VARCHAR(10) DEFAULT 'hi'");
    assert!(matches!(
        &res.constraints[0],
        ColumnConstraint::DefaultValue(Expr::Literal(Literal::Str(s))) if s == "hi"
    ));
    let res = parse(Dialect::MySQL, b"`n` INT DEFAULT NULL");
    assert!(matches!(
        res.constraints[0],
        ColumnConstraint::DefaultValue(Expr::Literal(Literal::Null))
    ));
}

#[test]
fn has_default_finds_first_literal() {
    let cspec = parse(Dialect::MySQL, b"`c` bool NOT NULL DEFAULT FALSE");
    assert!(matches!(cspec.has_default(), Some(Literal::Boolean(false))));
    let cspec = parse(Dialect::MySQL, b"`c` timestamp DEFAULT now()");
    // a call is not a literal default
    assert!(cspec.has_default().is_none());
    let cspec = ColumnSpecification::new(Column::from_str_ref("t.c"), SqlType::Text);
    assert!(cspec.has_default().is_none());
}

#[test]
fn column_from_qualified_name() {
    let c = Column::from_str_ref("users.id");
    assert_eq!(c.name, "id");
    assert_eq!(c.table.as_ref().unwrap().name, "users");
    assert!(c.table.as_ref().unwrap().schema.is_none());
    let c = Column::from_str_ref("id");
    assert_eq!(c.name, "id");
    assert!(c.table.is_none());

    let spec = ColumnSpecification::with_constraints(
        Column::from_str_ref("c"),
        SqlType::Int(Some(32)),
        vec![ColumnConstraint::Null],
    );
    assert_eq!(spec.display_string(), "`c` INT(32) NULL");
}

#[test]
fn expression_display_forms() {
    let call = FunctionExpr::Call {
        name: String::from("greatest"),
        arguments: vec![
            Expr::Literal(Literal::UnsignedInteger(1)),
            Expr::Column(Column::from_str_ref("t.c")),
        ],
    };
    assert_eq!(call.display_string(), "greatest(1, t.`c`)");
    assert_eq!(Literal::Integer(-12).display_string(), "-12");
    assert_eq!(Literal::Str(String::from("x")).display_string(), "'x'");
    assert_eq!(
        ColumnConstraint::DefaultValue(Expr::Literal(Literal::Boolean(true)))
            .display_string(),
        "DEFAULT TRUE"
    );
}
