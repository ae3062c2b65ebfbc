//! SQL column definitions: the column model, its constraints, and a parser
//! for column specifications as they appear in `CREATE TABLE` statements.
//!
//! The grammar covers quoted and bare column names in the MySQL and
//! PostgreSQL dialects, the common type names, the column constraints
//! (`NOT NULL`, `DEFAULT ...`, `PRIMARY KEY`, ...), and a default-value
//! expression language of literals and zero-argument function calls.
//! Parsers work directly on bytes and return the position after what they
//! consumed.

use vstd::prelude::*;

use crate::strfmt::dec_str;

verus! {

/// A table reference: an optional schema and a table name.
#[derive(Debug)]
pub struct Relation {
    pub schema: Option<String>,
    pub name: String,
}

/// A column reference: a name and, optionally, the table it belongs to.
#[derive(Debug)]
pub struct Column {
    pub name: String,
    pub table: Option<Relation>,
}

impl Column {
    /// Split a possibly qualified name: `"t.c"` names column `c` of table
    /// `t`, a bare `"c"` a column with no table.
    pub fn from_str_ref(c: &str) -> (r: Column)
        ensures
            ({
                let dot = exists|j: int| 0 <= j < c@.len() && c@[j] == '.';
                if dot {
                    let j = (choose|j: int|
                        0 <= j < c@.len() && c@[j] == '.' && (forall|p: int|
                            0 <= p < j ==> c@[p] != '.'));
                    r.table matches Some(t) && t.schema is None && t.name@ == c@.take(j)
                        && r.name@ == c@.skip(j + 1)
                } else {
                    r.table is None && r.name@ == c@
                }
            }),
    {
        let n = c.unicode_len();
        let mut j: usize = 0;
        let mut found: bool = false;
        while j < n && !found
            invariant
                0 <= j <= n,
                n == c@.len(),
                forall|p: int| 0 <= p < j ==> c@[p] != '.',
                found ==> j < n && c@[j as int] == '.',
            decreases n - j + (if found { 0int } else { 1int }),
        {
            if c.get_char(j) == '.' {
                found = true;
            } else {
                j += 1;
            }
        }
        if found {
            let table_name = c.substring_char(0, j);
            let col_name = c.substring_char(j + 1, n);
            proof {
                assert(c@[j as int] == '.');
                assert(table_name@ =~= c@.take(j as int));
                assert(col_name@ =~= c@.skip(j + 1));
                let w = (choose|w: int|
                    0 <= w < c@.len() && c@[w] == '.' && (forall|p: int|
                        0 <= p < w ==> c@[p] != '.'));
                assert(0 <= w < c@.len() && c@[w] == '.' && (forall|p: int|
                    0 <= p < w ==> c@[p] != '.'));
                assert(w == j as int);
            }
            Column {
                name: String::from_str(col_name),
                table: Some(Relation { schema: None, name: String::from_str(table_name) }),
            }
        } else {
            proof {
                assert(forall|p: int| 0 <= p < c@.len() ==> c@[p] != '.');
            }
            Column { name: String::from_str(c), table: None }
        }
    }
}

/// The SQL type of a column, as far as column definitions need it.
#[derive(Debug)]
pub enum SqlType {
    Bool,
    Int(Option<u16>),
    BigInt(Option<u16>),
    Varchar(Option<u16>),
    Text,
    Timestamp,
}

/// The display form of an optional width suffix such as `(32)`.
pub open spec fn spec_width(w: Option<u16>) -> Seq<char> {
    match w {
        Option::Some(n) => "("@ + dec_str(n as nat) + ")"@,
        Option::None => Seq::empty(),
    }
}

/// The display form of a SQL type.
pub open spec fn spec_sql_type_display(t: SqlType) -> Seq<char> {
    match t {
        SqlType::Bool => "BOOL"@,
        SqlType::Int(w) => "INT"@ + spec_width(w),
        SqlType::BigInt(w) => "BIGINT"@ + spec_width(w),
        SqlType::Varchar(w) => "VARCHAR"@ + spec_width(w),
        SqlType::Text => "TEXT"@,
        SqlType::Timestamp => "TIMESTAMP"@,
    }
}

impl SqlType {
    /// Render the type as it appears in SQL.
    pub fn display_string(&self) -> (r: String)
        ensures
            r@ == spec_sql_type_display(*self),
    {
        let mut s = String::new();
        let w: Option<u16> = match self {
            SqlType::Bool => {
                s.append("BOOL");
                None
            },
            SqlType::Int(w) => {
                s.append("INT");
                *w
            },
            SqlType::BigInt(w) => {
                s.append("BIGINT");
                *w
            },
            SqlType::Varchar(w) => {
                s.append("VARCHAR");
                *w
            },
            SqlType::Text => {
                s.append("TEXT");
                None
            },
            SqlType::Timestamp => {
                s.append("TIMESTAMP");
                None
            },
        };
        match w {
            Some(n) => {
                s.append("(");
                crate::strfmt::push_u64_dec(&mut s, n as u64);
                s.append(")");
                proof {
                    assert(s@ =~= spec_sql_type_display(*self));
                }
            },
            None => {
                proof {
                    assert(spec_width(Option::None) =~= Seq::<char>::empty());
                    assert(s@ =~= spec_sql_type_display(*self));
                }
            },
        }
        s
    }
}

/// A literal value, as it can appear in a DEFAULT clause.
#[derive(Debug)]
pub enum Literal {
    Null,
    Boolean(bool),
    Integer(i64),
    UnsignedInteger(u64),
    Str(String),
}

/// A function-call expression.
#[derive(Debug)]
pub enum FunctionExpr {
    /// A call such as `current_timestamp()`.
    Call { name: String, arguments: Vec<Expr> },
    /// `COUNT(*)`.
    CountStar,
    /// `COUNT(expr)`.
    Count { expr: Box<Expr>, distinct: bool },
}

/// An expression, as far as column definitions and the COUNT(*) rewrite
/// need one.
#[derive(Debug)]
pub enum Expr {
    Literal(Literal),
    Column(Column),
    Call(FunctionExpr),
    BinaryOp { lhs: Box<Expr>, op: BinaryOperator, rhs: Box<Expr> },
}

/// A binary operator inside an expression.
#[derive(Clone, Copy, Debug, PartialEq, Eq, Structural)]
pub enum BinaryOperator {
    Add,
    Subtract,
    Multiply,
}

/// A constraint attached to a column definition.
#[derive(Debug)]
pub enum ColumnConstraint {
    Null,
    NotNull,
    CharacterSet(String),
    Collation(String),
    DefaultValue(Expr),
    AutoIncrement,
    PrimaryKey,
    Unique,
    /// `ON UPDATE CURRENT_TIMESTAMP`: genuinely its own constraint, not a
    /// default-value expression.
    OnUpdateCurrentTimestamp,
}

/// A full column definition: name, type, constraints, comment.
#[derive(Debug)]
pub struct ColumnSpecification {
    pub column: Column,
    pub sql_type: SqlType,
    pub constraints: Vec<ColumnConstraint>,
    pub comment: Option<String>,
}

/// The first DEFAULT-literal among a sequence of constraints, if any.
pub open spec fn spec_has_default(cs: Seq<ColumnConstraint>) -> Option<Literal>
    decreases cs.len(),
{
    if cs.len() == 0 {
        Option::None
    } else {
        match cs[0] {
            ColumnConstraint::DefaultValue(Expr::Literal(l)) => Option::Some(l),
            _ => spec_has_default(cs.drop_first()),
        }
    }
}

impl ColumnSpecification {
    /// A column definition with no constraints and no comment.
    pub fn new(column: Column, sql_type: SqlType) -> (r: ColumnSpecification)
        ensures
            r.column == column,
            r.sql_type == sql_type,
            r.constraints@ == Seq::<ColumnConstraint>::empty(),
            r.comment is None,
    {
        let r = ColumnSpecification { column, sql_type, constraints: Vec::new(), comment: None };
        proof {
            assert(r.constraints@ =~= Seq::<ColumnConstraint>::empty());
        }
        r
    }

    /// A column definition with the given constraints and no comment.
    pub fn with_constraints(
        column: Column,
        sql_type: SqlType,
        constraints: Vec<ColumnConstraint>,
    ) -> (r: ColumnSpecification)
        ensures
            r.column == column,
            r.sql_type == sql_type,
            r.constraints == constraints,
            r.comment is None,
    {
        ColumnSpecification { column, sql_type, constraints, comment: None }
    }

    /// The column's default value, when a DEFAULT constraint carries a
    /// literal.
    pub fn has_default(&self) -> (r: Option<&Literal>)
        ensures
            match r {
                Some(l) => spec_has_default(self.constraints@) == Option::Some(*l),
                None => spec_has_default(self.constraints@) is None,
            },
    {
        let n = self.constraints.len();
        proof {
            assert(self.constraints@.skip(0) =~= self.constraints@);
        }
        let mut i: usize = 0;
        while i < n
            invariant
                0 <= i <= n,
                n == self.constraints@.len(),
                spec_has_default(self.constraints@) == spec_has_default(
                    self.constraints@.skip(i as int),
                ),
            decreases n - i,
        {
            proof {
                assert(self.constraints@.skip(i as int)[0] == self.constraints@[i as int]);
                assert(self.constraints@.skip(i as int).drop_first() =~= self.constraints@.skip(
                    i + 1,
                ));
            }
            match &self.constraints[i] {
                ColumnConstraint::DefaultValue(Expr::Literal(l)) => {
                    return Some(l);
                },
                _ => {},
            }
            i += 1;
        }
        proof {
            assert(self.constraints@.skip(n as int).len() == 0);
        }
        None
    }
}

/// The SQL dialect a parser runs under; it decides how identifiers are
/// quoted.
#[derive(Clone, Copy, Debug, PartialEq, Eq, Structural)]
pub enum Dialect {
    MySQL,
    PostgreSQL,
}

impl Dialect {
    /// The byte that quotes identifiers in this dialect.
    pub fn quote_byte(&self) -> (r: u8)
        ensures
            r == (match *self {
                Dialect::MySQL => 96u8,
                Dialect::PostgreSQL => 34u8,
            }),
    {
        match self {
            Dialect::MySQL => 96,
            Dialect::PostgreSQL => 34,
        }
    }
}

/// Lower-case folding for ASCII bytes.
pub open spec fn lower_byte(b: u8) -> u8 {
    if 65 <= b <= 90 {
        (b + 32) as u8
    } else {
        b
    }
}

/// Whitespace bytes: space, tab, newline, carriage return.
pub open spec fn is_ws(b: u8) -> bool {
    b == 32 || b == 9 || b == 10 || b == 13
}

/// Bytes allowed in a bare identifier: letters, digits, underscore.
pub open spec fn is_ident_byte(b: u8) -> bool {
    (48 <= b <= 57) || (65 <= b <= 90) || (97 <= b <= 122) || b == 95
}

/// Relies on `core::str::from_utf8` (via `String::from_utf8_lossy`): a
/// sequence of ASCII bytes decodes to exactly those characters.
#[verifier::external_body]
fn ascii_to_string(b: &Vec<u8>) -> (r: String)
    requires
        forall|j: int| 0 <= j < b@.len() ==> b@[j] < 128,
    ensures
        r@.len() == b@.len(),
        forall|j: int| 0 <= j < b@.len() ==> r@[j] == b@[j] as char,
{
    String::from_utf8_lossy(b).into_owned()
}

/// The display form of a table reference.
pub open spec fn spec_relation_display(r: Relation) -> Seq<char> {
    match r.schema {
        Option::Some(sc) => sc@ + "."@ + r.name@,
        Option::None => r.name@,
    }
}

/// The display form of a column reference: the table qualifier if any,
/// then the backquoted name.
pub open spec fn spec_column_display(c: Column) -> Seq<char> {
    match c.table {
        Option::Some(t) => spec_relation_display(t) + "."@ + "`"@ + c.name@ + "`"@,
        Option::None => "`"@ + c.name@ + "`"@,
    }
}

/// The display form of a literal.
pub open spec fn spec_literal_display(l: Literal) -> Seq<char> {
    match l {
        Literal::Null => "NULL"@,
        Literal::Boolean(b) => if b {
            "TRUE"@
        } else {
            "FALSE"@
        },
        Literal::Integer(v) => crate::strfmt::int_str(v as int),
        Literal::UnsignedInteger(v) => dec_str(v as nat),
        Literal::Str(v) => "'"@ + v@ + "'"@,
    }
}

/// The display form of an expression.
pub open spec fn spec_expr_display(e: Expr) -> Seq<char>
    decreases e,
{
    match e {
        Expr::Literal(l) => spec_literal_display(l),
        Expr::Column(c) => spec_column_display(c),
        Expr::Call(f) => spec_fcall_display(f),
        Expr::BinaryOp { lhs, op, rhs } => spec_expr_display(*lhs) + (match op {
            BinaryOperator::Add => " + "@,
            BinaryOperator::Subtract => " - "@,
            BinaryOperator::Multiply => " * "@,
        }) + spec_expr_display(*rhs),
    }
}

/// The display form of the arguments of a call, from index `i` on.
pub open spec fn spec_args_display(args: Seq<Expr>, i: int) -> Seq<char>
    decreases args, args.len() - i,
{
    if i < 0 || i >= args.len() {
        Seq::empty()
    } else if i == args.len() - 1 {
        spec_expr_display(args[i])
    } else {
        spec_expr_display(args[i]) + ", "@ + spec_args_display(args, i + 1)
    }
}

/// The display form of a function expression.
pub open spec fn spec_fcall_display(f: FunctionExpr) -> Seq<char>
    decreases f,
{
    match f {
        FunctionExpr::Call { name, arguments } => name@ + "("@ + spec_args_display(arguments@, 0)
            + ")"@,
        FunctionExpr::CountStar => "count(*)"@,
        FunctionExpr::Count { expr, distinct } => if distinct {
            "count(distinct "@ + spec_expr_display(*expr) + ")"@
        } else {
            "count("@ + spec_expr_display(*expr) + ")"@
        },
    }
}

/// The display form of a column constraint.
pub open spec fn spec_constraint_display(c: ColumnConstraint) -> Seq<char> {
    match c {
        ColumnConstraint::Null => "NULL"@,
        ColumnConstraint::NotNull => "NOT NULL"@,
        ColumnConstraint::CharacterSet(cs) => "CHARACTER SET "@ + cs@,
        ColumnConstraint::Collation(cl) => "COLLATE "@ + cl@,
        ColumnConstraint::DefaultValue(e) => "DEFAULT "@ + spec_expr_display(e),
        ColumnConstraint::AutoIncrement => "AUTO_INCREMENT"@,
        ColumnConstraint::PrimaryKey => "PRIMARY KEY"@,
        ColumnConstraint::Unique => "UNIQUE"@,
        ColumnConstraint::OnUpdateCurrentTimestamp => "ON UPDATE CURRENT_TIMESTAMP"@,
    }
}

/// The display form of a whole column definition: backquoted name, type,
/// constraints, optional comment.
pub open spec fn spec_colspec_display(c: ColumnSpecification) -> Seq<char> {
    let head = "`"@ + c.column.name@ + "`"@ + " "@ + spec_sql_type_display(c.sql_type);
    let with_constraints = head + spec_constraints_display(c.constraints@, 0);
    match c.comment {
        Option::Some(cm) => with_constraints + " COMMENT '"@ + cm@ + "'"@,
        Option::None => with_constraints,
    }
}

/// The display form of a constraint list from index `i` on, each
/// preceded by one space.
pub open spec fn spec_constraints_display(cs: Seq<ColumnConstraint>, i: int) -> Seq<char>
    decreases cs.len() - i,
{
    if i < 0 || i >= cs.len() {
        Seq::empty()
    } else {
        " "@ + spec_constraint_display(cs[i]) + spec_constraints_display(cs, i + 1)
    }
}

impl Column {
    /// Render the column reference.
    pub fn display_string(&self) -> (r: String)
        ensures
            r@ == spec_column_display(*self),
    {
        let mut s = String::new();
        match &self.table {
            Some(t) => {
                match &t.schema {
                    Some(sc) => {
                        s.append(sc.as_str());
                        s.append(".");
                    },
                    None => {},
                }
                s.append(t.name.as_str());
                s.append(".");
            },
            None => {},
        }
        s.append("`");
        s.append(self.name.as_str());
        s.append("`");
        proof {
            assert(s@ =~= spec_column_display(*self));
        }
        s
    }
}

impl Literal {
    /// Render the literal.
    pub fn display_string(&self) -> (r: String)
        ensures
            r@ == spec_literal_display(*self),
    {
        match self {
            Literal::Null => String::from_str("NULL"),
            Literal::Boolean(b) => {
                if *b {
                    String::from_str("TRUE")
                } else {
                    String::from_str("FALSE")
                }
            },
            Literal::Integer(v) => crate::strfmt::i64_to_string(*v),
            Literal::UnsignedInteger(v) => crate::strfmt::u64_to_string(*v),
            Literal::Str(v) => {
                let mut s = String::from_str("'");
                s.append(v.as_str());
                s.append("'");
                proof {
                    assert(s@ =~= spec_literal_display(*self));
                }
                s
            },
        }
    }
}

impl Expr {
    /// Render the expression.
    pub fn display_string(&self) -> (r: String)
        ensures
            r@ == spec_expr_display(*self),
        decreases self,
    {
        match self {
            Expr::Literal(l) => l.display_string(),
            Expr::Column(c) => c.display_string(),
            Expr::Call(f) => f.display_string(),
            Expr::BinaryOp { lhs, op, rhs } => {
                let mut s = lhs.display_string();
                match op {
                    BinaryOperator::Add => s.append(" + "),
                    BinaryOperator::Subtract => s.append(" - "),
                    BinaryOperator::Multiply => s.append(" * "),
                }
                let rs = rhs.display_string();
                s.append(rs.as_str());
                proof {
                    assert(s@ =~= spec_expr_display(*self));
                }
                s
            },
        }
    }
}

impl FunctionExpr {
    /// Render the function expression.
    #[verifier::loop_isolation(false)]
    pub fn display_string(&self) -> (r: String)
        ensures
            r@ == spec_fcall_display(*self),
        decreases self,
    {
        match self {
            FunctionExpr::Call { name, arguments } => {
                let mut s = String::new();
                s.append(name.as_str());
                s.append("(");
                proof {
                    assert(s@ + spec_args_display(arguments@, 0) =~= name@ + "("@
                        + spec_args_display(arguments@, 0));
                }
                let n = arguments.len();
                let mut i: usize = 0;
                while i < n
                    invariant
                        0 <= i <= n,
                        n == arguments@.len(),
                        self == (FunctionExpr::Call { name: *name, arguments: *arguments }),
                        s@ + spec_args_display(arguments@, i as int) == name@ + "("@
                            + spec_args_display(arguments@, 0),
                    decreases n - i,
                {
                    proof {
                        assert(decreases_to!(*arguments => arguments@[i as int]));
                    }
                    let d = arguments[i].display_string();
                    s.append(d.as_str());
                    if i + 1 < n {
                        s.append(", ");
                    }
                    proof {
                        assert(arguments@[i as int] == arguments[i as int]);
                        if i + 1 < n {
                            assert(spec_args_display(arguments@, i as int) == spec_expr_display(
                                arguments@[i as int],
                            ) + ", "@ + spec_args_display(arguments@, i + 1));
                        } else {
                            assert(spec_args_display(arguments@, i as int) == spec_expr_display(
                                arguments@[i as int],
                            ));
                            assert(spec_args_display(arguments@, i + 1) =~= Seq::<char>::empty());
                        }
                        assert(s@ + spec_args_display(arguments@, i + 1) =~= name@ + "("@
                            + spec_args_display(arguments@, 0));
                    }
                    i += 1;
                }
                s.append(")");
                proof {
                    assert(spec_args_display(arguments@, n as int) =~= Seq::<char>::empty());
                    assert(s@ =~= spec_fcall_display(*self));
                }
                s
            },
            FunctionExpr::CountStar => String::from_str("count(*)"),
            FunctionExpr::Count { expr, distinct } => {
                let mut s = if *distinct {
                    String::from_str("count(distinct ")
                } else {
                    String::from_str("count(")
                };
                let es = expr.display_string();
                s.append(es.as_str());
                s.append(")");
                proof {
                    assert(s@ =~= spec_fcall_display(*self));
                }
                s
            },
        }
    }
}

impl ColumnConstraint {
    /// Render the constraint.
    pub fn display_string(&self) -> (r: String)
        ensures
            r@ == spec_constraint_display(*self),
    {
        match self {
            ColumnConstraint::Null => String::from_str("NULL"),
            ColumnConstraint::NotNull => String::from_str("NOT NULL"),
            ColumnConstraint::CharacterSet(cs) => {
                let mut s = String::from_str("CHARACTER SET ");
                s.append(cs.as_str());
                proof {
                    assert(s@ =~= spec_constraint_display(*self));
                }
                s
            },
            ColumnConstraint::Collation(cl) => {
                let mut s = String::from_str("COLLATE ");
                s.append(cl.as_str());
                proof {
                    assert(s@ =~= spec_constraint_display(*self));
                }
                s
            },
            ColumnConstraint::DefaultValue(e) => {
                let mut s = String::from_str("DEFAULT ");
                let es = e.display_string();
                s.append(es.as_str());
                proof {
                    assert(s@ =~= spec_constraint_display(*self));
                }
                s
            },
            ColumnConstraint::AutoIncrement => String::from_str("AUTO_INCREMENT"),
            ColumnConstraint::PrimaryKey => String::from_str("PRIMARY KEY"),
            ColumnConstraint::Unique => String::from_str("UNIQUE"),
            ColumnConstraint::OnUpdateCurrentTimestamp => String::from_str(
                "ON UPDATE CURRENT_TIMESTAMP",
            ),
        }
    }
}

impl ColumnSpecification {
    /// Render the whole column definition as it appears in SQL.
    pub fn display_string(&self) -> (r: String)
        ensures
            r@ == spec_colspec_display(*self),
    {
        let mut s = String::from_str("`");
        s.append(self.column.name.as_str());
        s.append("`");
        s.append(" ");
        let ts = self.sql_type.display_string();
        s.append(ts.as_str());
        let ghost head = "`"@ + self.column.name@ + "`"@ + " "@ + spec_sql_type_display(
            self.sql_type,
        );
        proof {
            assert(s@ =~= head);
        }
        let n = self.constraints.len();
        let mut i: usize = 0;
        while i < n
            invariant
                0 <= i <= n,
                n == self.constraints@.len(),
                head == "`"@ + self.column.name@ + "`"@ + " "@ + spec_sql_type_display(
                    self.sql_type,
                ),
                s@ + spec_constraints_display(self.constraints@, i as int) == head
                    + spec_constraints_display(self.constraints@, 0),
            decreases n - i,
        {
            s.append(" ");
            let cs = self.constraints[i].display_string();
            s.append(cs.as_str());
            proof {
                assert(spec_constraints_display(self.constraints@, i as int) == " "@
                    + spec_constraint_display(self.constraints@[i as int])
                    + spec_constraints_display(self.constraints@, i + 1));
                assert(self.constraints@[i as int] == self.constraints[i as int]);
            }
            i += 1;
        }
        proof {
            assert(spec_constraints_display(self.constraints@, n as int) =~= Seq::<char>::empty());
        }
        match &self.comment {
            Some(cm) => {
                s.append(" COMMENT '");
                s.append(cm.as_str());
                s.append("'");
                proof {
                    assert(s@ =~= spec_colspec_display(*self));
                }
            },
            None => {
                proof {
                    assert(s@ =~= spec_colspec_display(*self));
                }
            },
        }
        s
    }
}

/// A decimal digit byte.
pub open spec fn is_digit(b: u8) -> bool {
    48 <= b <= 57
}

/// The bytes from `from` (inclusive) to `to` (exclusive), as characters.
pub open spec fn bytes_chars(i: Seq<u8>, from: int, to: int) -> Seq<char> {
    Seq::new(
        if to >= from {
            (to - from) as nat
        } else {
            0
        },
        |j: int| i[from + j] as char,
    )
}

/// The (ASCII) word occurs at `pos`, compared without case.
pub open spec fn tag_at(i: Seq<u8>, pos: int, kw: Seq<char>) -> bool {
    &&& 0 <= pos
    &&& pos + kw.len() <= i.len()
    &&& forall|j: int|
        0 <= j < kw.len() ==> lower_byte(i[pos + j]) == lower_byte(#[trigger] kw[j] as u8)
}

/// The word occurs at `pos` as a whole word: nothing identifier-like
/// follows it.
pub open spec fn kw_at(i: Seq<u8>, pos: int, kw: Seq<char>) -> bool {
    tag_at(i, pos, kw) && (pos + kw.len() == i.len() || !is_ident_byte(i[pos + kw.len()]))
}

/// The first position at or after `p` that holds no whitespace.
pub open spec fn sp_ws_end(i: Seq<u8>, p: int) -> int
    decreases i.len() - p,
{
    if p < 0 || p >= i.len() || !is_ws(i[p]) {
        p
    } else {
        sp_ws_end(i, p + 1)
    }
}

/// The first position at or after `p` that holds no identifier byte.
pub open spec fn sp_ident_end(i: Seq<u8>, p: int) -> int
    decreases i.len() - p,
{
    if p < 0 || p >= i.len() || !is_ident_byte(i[p]) {
        p
    } else {
        sp_ident_end(i, p + 1)
    }
}

/// The first position at or after `p` that holds no digit.
pub open spec fn sp_digit_end(i: Seq<u8>, p: int) -> int
    decreases i.len() - p,
{
    if p < 0 || p >= i.len() || !is_digit(i[p]) {
        p
    } else {
        sp_digit_end(i, p + 1)
    }
}

/// The position of the closing quote: the first `q` at or after `p`,
/// provided everything before it is ASCII.
pub open spec fn sp_quote_end(i: Seq<u8>, p: int, q: u8) -> Option<int>
    decreases i.len() - p,
{
    if p < 0 || p >= i.len() {
        Option::None
    } else if i[p] == q {
        Option::Some(p)
    } else if i[p] >= 128 {
        Option::None
    } else {
        sp_quote_end(i, p + 1, q)
    }
}

/// The value of the digit run from `from` (inclusive) to `to` (exclusive).
pub open spec fn sp_digits_value(i: Seq<u8>, from: int, to: int) -> int
    decreases to - from,
{
    if to <= from {
        0
    } else {
        sp_digits_value(i, from, to - 1) * 10 + (i[to - 1] - 48)
    }
}

/// A scan never moves backwards and never leaves the input.
pub proof fn lemma_scan_bounds(i: Seq<u8>, p: int)
    requires
        0 <= p <= i.len(),
    ensures
        p <= sp_ws_end(i, p) <= i.len(),
        p <= sp_ident_end(i, p) <= i.len(),
        p <= sp_digit_end(i, p) <= i.len(),
        sp_quote_end(i, p, 96) matches Some(e) ==> p <= e < i.len(),
        sp_quote_end(i, p, 34) matches Some(e) ==> p <= e < i.len(),
        sp_quote_end(i, p, 39) matches Some(e) ==> p <= e < i.len(),
    decreases i.len() - p,
{
    if p < i.len() {
        lemma_scan_bounds(i, p + 1);
    }
}

/// Every byte scanned over by a digit run is a digit.
pub proof fn lemma_digit_end_range(i: Seq<u8>, p: int)
    requires
        0 <= p <= i.len(),
    ensures
        forall|k: int| p <= k < sp_digit_end(i, p) ==> is_digit(#[trigger] i[k]),
    decreases i.len() - p,
{
    if p < i.len() && is_digit(i[p]) {
        lemma_digit_end_range(i, p + 1);
        lemma_scan_bounds(i, p + 1);
    }
}

/// A digit run's value is never negative.
pub proof fn lemma_digits_value_nonneg(i: Seq<u8>, from: int, to: int)
    requires
        forall|k: int| from <= k < to ==> is_digit(#[trigger] i[k]),
    ensures
        sp_digits_value(i, from, to) >= 0,
    decreases to - from,
{
    if to > from {
        lemma_digits_value_nonneg(i, from, to - 1);
        let v = sp_digits_value(i, from, to - 1);
        assert(v * 10 >= v) by (nonlinear_arith)
            requires
                v >= 0,
        ;
    }
}

/// Appending digits never lowers a run's value.
pub proof fn lemma_digits_value_mono(i: Seq<u8>, from: int, to1: int, to2: int)
    requires
        from <= to1 <= to2,
        forall|k: int| from <= k < to2 ==> is_digit(#[trigger] i[k]),
    ensures
        sp_digits_value(i, from, to2) >= sp_digits_value(i, from, to1),
    decreases to2 - to1,
{
    if to2 > to1 {
        lemma_digits_value_mono(i, from, to1, to2 - 1);
        lemma_digits_value_nonneg(i, from, to2 - 1);
        let v = sp_digits_value(i, from, to2 - 1);
        assert(v * 10 >= v) by (nonlinear_arith)
            requires
                v >= 0,
        ;
    }
}

/// A bare identifier: the maximal non-empty run of identifier bytes.
pub open spec fn sp_bare_identifier(i: Seq<u8>, pos: int) -> Option<(int, Seq<char>)> {
    let e = sp_ident_end(i, pos);
    if e == pos {
        Option::None
    } else {
        Option::Some((e, bytes_chars(i, pos, e)))
    }
}

/// A `q`-quoted run of ASCII bytes: opening quote, content, closing quote.
pub open spec fn sp_quoted(i: Seq<u8>, pos: int, q: u8) -> Option<(int, Seq<char>)> {
    if 0 <= pos < i.len() && i[pos] == q {
        match sp_quote_end(i, pos + 1, q) {
            Option::Some(e) => Option::Some((e + 1, bytes_chars(i, pos + 1, e))),
            Option::None => Option::None,
        }
    } else {
        Option::None
    }
}

/// The identifier quote byte of a dialect.
pub open spec fn spec_quote_byte(d: Dialect) -> u8 {
    match d {
        Dialect::MySQL => 96,
        Dialect::PostgreSQL => 34,
    }
}

/// An identifier: quoted in the dialect's style, or bare.
pub open spec fn sp_identifier(d: Dialect, i: Seq<u8>, pos: int) -> Option<(int, Seq<char>)> {
    if 0 <= pos < i.len() && i[pos] == spec_quote_byte(d) {
        sp_quoted(i, pos, spec_quote_byte(d))
    } else {
        sp_bare_identifier(i, pos)
    }
}

/// An unsigned decimal number: a non-empty digit run whose value fits in
/// 64 bits.
pub open spec fn sp_decimal(i: Seq<u8>, pos: int) -> Option<(int, int)> {
    let e = sp_digit_end(i, pos);
    if e == pos {
        Option::None
    } else if sp_digits_value(i, pos, e) > u64::MAX {
        Option::None
    } else {
        Option::Some((e, sp_digits_value(i, pos, e)))
    }
}

/// Model of a parsed literal.
pub enum LiteralModel {
    Null,
    Boolean(bool),
    Integer(int),
    UnsignedInteger(int),
    Str(Seq<char>),
}

/// The model of a [`Literal`].
pub open spec fn literal_model(l: Literal) -> LiteralModel {
    match l {
        Literal::Null => LiteralModel::Null,
        Literal::Boolean(b) => LiteralModel::Boolean(b),
        Literal::Integer(v) => LiteralModel::Integer(v as int),
        Literal::UnsignedInteger(v) => LiteralModel::UnsignedInteger(v as int),
        Literal::Str(s) => LiteralModel::Str(s@),
    }
}

/// Model of a parsed DEFAULT expression: a literal, a bare column name, or
/// a zero-argument call.  `Other` stands for every expression the grammar
/// cannot produce.
pub enum DefaultExprModel {
    Lit(LiteralModel),
    Col(Seq<char>),
    Call0(Seq<char>),
    Other,
}

/// The model of an [`Expr`], as far as the DEFAULT grammar reaches.
pub open spec fn default_expr_model(e: Expr) -> DefaultExprModel {
    match e {
        Expr::Literal(l) => DefaultExprModel::Lit(literal_model(l)),
        Expr::Column(c) => if c.table is None {
            DefaultExprModel::Col(c.name@)
        } else {
            DefaultExprModel::Other
        },
        Expr::Call(f) => match f {
            FunctionExpr::Call { name, arguments } => if arguments@.len() == 0 {
                DefaultExprModel::Call0(name@)
            } else {
                DefaultExprModel::Other
            },
            _ => DefaultExprModel::Other,
        },
        _ => DefaultExprModel::Other,
    }
}

/// Model of a parsed column constraint.
pub enum ConstraintModel {
    Null,
    NotNull,
    CharacterSet(Seq<char>),
    Collation(Seq<char>),
    DefaultValue(DefaultExprModel),
    AutoIncrement,
    PrimaryKey,
    Unique,
    OnUpdateCurrentTimestamp,
}

/// The model of a [`ColumnConstraint`].
pub open spec fn constraint_model(c: ColumnConstraint) -> ConstraintModel {
    match c {
        ColumnConstraint::Null => ConstraintModel::Null,
        ColumnConstraint::NotNull => ConstraintModel::NotNull,
        ColumnConstraint::CharacterSet(cs) => ConstraintModel::CharacterSet(cs@),
        ColumnConstraint::Collation(cl) => ConstraintModel::Collation(cl@),
        ColumnConstraint::DefaultValue(e) => ConstraintModel::DefaultValue(default_expr_model(e)),
        ColumnConstraint::AutoIncrement => ConstraintModel::AutoIncrement,
        ColumnConstraint::PrimaryKey => ConstraintModel::PrimaryKey,
        ColumnConstraint::Unique => ConstraintModel::Unique,
        ColumnConstraint::OnUpdateCurrentTimestamp => ConstraintModel::OnUpdateCurrentTimestamp,
    }
}

/// The model of a [`Column`]: its name, and its table qualifier's schema
/// and name if it has one.
pub open spec fn column_model(c: Column) -> (Seq<char>, Option<(Option<Seq<char>>, Seq<char>)>) {
    (
        c.name@,
        match c.table {
            Option::Some(t) => Option::Some(
                (
                    match t.schema {
                        Option::Some(s) => Option::Some(s@),
                        Option::None => Option::None,
                    },
                    t.name@,
                ),
            ),
            Option::None => Option::None,
        },
    )
}

/// Model of a whole parsed column definition.
pub struct ColSpecModel {
    pub column: (Seq<char>, Option<(Option<Seq<char>>, Seq<char>)>),
    pub ty: SqlType,
    pub constraints: Seq<ConstraintModel>,
    pub comment: Option<Seq<char>>,
}

/// The model of a [`ColumnSpecification`].
pub open spec fn colspec_model(c: ColumnSpecification) -> ColSpecModel {
    ColSpecModel {
        column: column_model(c.column),
        ty: c.sql_type,
        constraints: c.constraints@.map_values(|x: ColumnConstraint| constraint_model(x)),
        comment: match c.comment {
            Option::Some(s) => Option::Some(s@),
            Option::None => Option::None,
        },
    }
}

/// A literal: NULL, TRUE, FALSE, a possibly signed number, or a
/// single-quoted string, tried in that order.
pub open spec fn sp_literal(i: Seq<u8>, pos: int) -> Option<(int, LiteralModel)> {
    if kw_at(i, pos, "null"@) {
        Option::Some((pos + "null"@.len(), LiteralModel::Null))
    } else if kw_at(i, pos, "true"@) {
        Option::Some((pos + "true"@.len(), LiteralModel::Boolean(true)))
    } else if kw_at(i, pos, "false"@) {
        Option::Some((pos + "false"@.len(), LiteralModel::Boolean(false)))
    } else if 0 <= pos < i.len() && i[pos] == 45 {
        match sp_decimal(i, pos + 1) {
            Option::Some((p, v)) => if v <= i64::MAX {
                Option::Some((p, LiteralModel::Integer(-v)))
            } else {
                Option::None
            },
            Option::None => Option::None,
        }
    } else {
        match sp_decimal(i, pos) {
            Option::Some((p, v)) => Option::Some((p, LiteralModel::UnsignedInteger(v))),
            Option::None => match sp_quoted(i, pos, 39) {
                Option::Some((p, s)) => Option::Some((p, LiteralModel::Str(s))),
                Option::None => Option::None,
            },
        }
    }
}

/// A DEFAULT expression: a literal, else an identifier that is a
/// zero-argument call when followed by `()` and a bare column reference
/// otherwise.
pub open spec fn sp_expression(d: Dialect, i: Seq<u8>, pos: int) -> Option<
    (int, DefaultExprModel),
> {
    match sp_literal(i, pos) {
        Option::Some((p, l)) => Option::Some((p, DefaultExprModel::Lit(l))),
        Option::None => match sp_identifier(d, i, pos) {
            Option::Some((p1, name)) => if p1 < i.len() && i[p1] == 40 && p1 + 1 < i.len() && i[p1
                + 1] == 41 {
                Option::Some((p1 + 2, DefaultExprModel::Call0(name)))
            } else {
                Option::Some((p1, DefaultExprModel::Col(name)))
            },
            Option::None => Option::None,
        },
    }
}

/// A trailing `COMMENT '...'` clause.
pub open spec fn sp_comment(i: Seq<u8>, pos: int) -> Option<(int, Seq<char>)> {
    let p = sp_ws_end(i, pos);
    if kw_at(i, p, "comment"@) {
        let p2 = p + "comment"@.len();
        let p3 = sp_ws_end(i, p2);
        if p3 > p2 {
            sp_quoted(i, p3, 39)
        } else {
            Option::None
        }
    } else {
        Option::None
    }
}

/// `ON UPDATE` followed by one of the CURRENT_TIMESTAMP synonyms, with an
/// optional empty argument list; yields the position after it.
pub open spec fn sp_on_update(i: Seq<u8>, pos: int) -> Option<int> {
    if !kw_at(i, pos, "on"@) {
        Option::None
    } else {
        let p1 = pos + "on"@.len();
        let p2 = sp_ws_end(i, p1);
        if p2 <= p1 || !kw_at(i, p2, "update"@) {
            Option::None
        } else {
            let p3 = p2 + "update"@.len();
            let p4 = sp_ws_end(i, p3);
            if p4 <= p3 {
                Option::None
            } else {
                let fun: Option<int> = if kw_at(i, p4, "current_timestamp"@) {
                    Option::Some(p4 + "current_timestamp"@.len())
                } else if kw_at(i, p4, "now"@) {
                    Option::Some(p4 + "now"@.len())
                } else if kw_at(i, p4, "localtime"@) {
                    Option::Some(p4 + "localtime"@.len())
                } else if kw_at(i, p4, "localtimestamp"@) {
                    Option::Some(p4 + "localtimestamp"@.len())
                } else {
                    Option::None
                };
                match fun {
                    Option::Some(p5) => if p5 < i.len() && i[p5] == 40 && p5 + 1 < i.len() && i[p5
                        + 1] == 41 {
                        Option::Some(p5 + 2)
                    } else {
                        Option::Some(p5)
                    },
                    Option::None => Option::None,
                }
            }
        }
    }
}

/// A type name with an optional width, e.g. `INT(32)` or `timestamp`.
pub open spec fn sp_width(i: Seq<u8>, p: int) -> Option<(int, Option<u16>)> {
    if 0 <= p < i.len() && i[p] == 40 {
        match sp_decimal(i, p + 1) {
            Option::Some((p2, v)) => if p2 < i.len() && i[p2] == 41 && v <= 65535 {
                Option::Some((p2 + 1, Option::Some(v as u16)))
            } else {
                Option::None
            },
            Option::None => Option::None,
        }
    } else {
        Option::Some((p, Option::None))
    }
}

/// The recognized type names, tried in order; the integer and character
/// kinds may carry a width.
pub open spec fn sp_type(i: Seq<u8>, pos: int) -> Option<(int, SqlType)> {
    if kw_at(i, pos, "timestamp"@) {
        Option::Some((pos + "timestamp"@.len(), SqlType::Timestamp))
    } else if kw_at(i, pos, "boolean"@) {
        Option::Some((pos + "boolean"@.len(), SqlType::Bool))
    } else if kw_at(i, pos, "bool"@) {
        Option::Some((pos + "bool"@.len(), SqlType::Bool))
    } else if kw_at(i, pos, "text"@) {
        Option::Some((pos + "text"@.len(), SqlType::Text))
    } else {
        let base: Option<(int, int)> = if kw_at(i, pos, "integer"@) {
            Option::Some((pos + "integer"@.len(), 1))
        } else if kw_at(i, pos, "int"@) {
            Option::Some((pos + "int"@.len(), 1))
        } else if kw_at(i, pos, "bigint"@) {
            Option::Some((pos + "bigint"@.len(), 2))
        } else if kw_at(i, pos, "varchar"@) {
            Option::Some((pos + "varchar"@.len(), 3))
        } else {
            Option::None
        };
        match base {
            Option::Some((p1, kind)) => match sp_width(i, p1) {
                Option::Some((pa, w)) => if kind == 1 {
                    Option::Some((pa, SqlType::Int(w)))
                } else if kind == 2 {
                    Option::Some((pa, SqlType::BigInt(w)))
                } else {
                    Option::Some((pa, SqlType::Varchar(w)))
                },
                Option::None => Option::None,
            },
            Option::None => Option::None,
        }
    }
}

/// A column reference without an alias: an optional table qualifier
/// followed by the column name, each an identifier; the parser never
/// yields a schema qualifier.
pub open spec fn sp_column_ident(d: Dialect, i: Seq<u8>, pos: int) -> Option<
    (int, (Seq<char>, Option<Seq<char>>)),
> {
    match sp_identifier(d, i, pos) {
        Option::Some((p1, first)) => if p1 < i.len() && i[p1] == 46 {
            match sp_identifier(d, i, p1 + 1) {
                Option::Some((p2, name)) => Option::Some((p2, (name, Option::Some(first)))),
                Option::None => Option::None,
            }
        } else {
            Option::Some((p1, (first, Option::None)))
        },
        Option::None => Option::None,
    }
}

/// One column constraint, surrounded by optional whitespace, tried in the
/// grammar's fixed order.
pub open spec fn sp_constraint(d: Dialect, i: Seq<u8>, pos: int) -> Option<
    (int, ConstraintModel),
> {
    let p0 = sp_ws_end(i, pos);
    if p0 >= i.len() {
        Option::None
    } else {
        let core: Option<(int, ConstraintModel)> = if tag_at(i, p0, "not null"@) {
            Option::Some((p0 + "not null"@.len(), ConstraintModel::NotNull))
        } else if kw_at(i, p0, "null"@) {
            Option::Some((p0 + "null"@.len(), ConstraintModel::Null))
        } else if kw_at(i, p0, "auto_increment"@) {
            Option::Some((p0 + "auto_increment"@.len(), ConstraintModel::AutoIncrement))
        } else if kw_at(i, p0, "default"@) {
            let pk = p0 + "default"@.len();
            let pw = sp_ws_end(i, pk);
            if pw <= pk {
                Option::None
            } else {
                match sp_expression(d, i, pw) {
                    Option::Some((pe, e)) => Option::Some((pe, ConstraintModel::DefaultValue(e))),
                    Option::None => Option::None,
                }
            }
        } else if tag_at(i, p0, "primary key"@) {
            Option::Some((p0 + "primary key"@.len(), ConstraintModel::PrimaryKey))
        } else if kw_at(i, p0, "unique"@) {
            let pk = p0 + "unique"@.len();
            let pw = sp_ws_end(i, pk);
            if kw_at(i, pw, "key"@) {
                Option::Some((pw + "key"@.len(), ConstraintModel::Unique))
            } else {
                Option::Some((pk, ConstraintModel::Unique))
            }
        } else if tag_at(i, p0, "character set"@) {
            let pk = p0 + "character set"@.len();
            let pw = sp_ws_end(i, pk);
            if pw <= pk {
                Option::None
            } else {
                match sp_identifier(d, i, pw) {
                    Option::Some((pi, cs)) => Option::Some((pi, ConstraintModel::CharacterSet(cs))),
                    Option::None => Option::None,
                }
            }
        } else if kw_at(i, p0, "collate"@) {
            let pk = p0 + "collate"@.len();
            let pw = sp_ws_end(i, pk);
            if pw <= pk {
                Option::None
            } else {
                match sp_identifier(d, i, pw) {
                    Option::Some((pi, cl)) => Option::Some((pi, ConstraintModel::Collation(cl))),
                    Option::None => Option::None,
                }
            }
        } else {
            match sp_on_update(i, p0) {
                Option::Some(p) => Option::Some((p, ConstraintModel::OnUpdateCurrentTimestamp)),
                Option::None => Option::None,
            }
        };
        match core {
            Option::Some((p1, c)) => if p1 <= p0 {
                Option::None
            } else {
                Option::Some((sp_ws_end(i, p1), c))
            },
            Option::None => Option::None,
        }
    }
}

/// The maximal run of constraints from `pos`, in input order.
pub open spec fn sp_constraints(d: Dialect, i: Seq<u8>, pos: int) -> (int, Seq<ConstraintModel>)
    decreases i.len() - pos,
{
    match sp_constraint(d, i, pos) {
        Option::None => (pos, Seq::empty()),
        Option::Some((p, c)) => if pos < p <= i.len() {
            let rest = sp_constraints(d, i, p);
            (rest.0, seq![c] + rest.1)
        } else {
            (pos, Seq::empty())
        },
    }
}

/// A full column specification: the column name, an optional type
/// (defaulting to TEXT), any number of constraints, and an optional
/// comment.
pub open spec fn sp_column_specification(d: Dialect, i: Seq<u8>, pos: int) -> Option<
    (int, ColSpecModel),
> {
    match sp_column_ident(d, i, pos) {
        Option::None => Option::None,
        Option::Some((p1, col)) => {
            let ws = sp_ws_end(i, p1);
            let after_ty: (int, SqlType) = if ws > p1 {
                match sp_type(i, ws) {
                    Option::Some((pt, t)) => (sp_ws_end(i, pt), t),
                    Option::None => (p1, SqlType::Text),
                }
            } else {
                (p1, SqlType::Text)
            };
            let cons = sp_constraints(d, i, after_ty.0);
            let fin: (int, Option<Seq<char>>) = match sp_comment(i, cons.0) {
                Option::Some((p2, s)) => (p2, Option::Some(s)),
                Option::None => (cons.0, Option::None),
            };
            Option::Some(
                (
                    fin.0,
                    ColSpecModel {
                        column: (col.0, match col.1 {
                            Option::Some(t) => Option::Some((Option::None, t)),
                            Option::None => Option::None,
                        }),
                        ty: after_ty.1,
                        constraints: cons.1,
                        comment: fin.1,
                    },
                ),
            )
        },
    }
}

/// Match an ASCII word at `pos`, ignoring case; succeeds exactly on the
/// inputs [`tag_at`] accepts, consuming exactly the word.
pub fn tag_no_case(i: &[u8], pos: usize, tag: &str) -> (r: Option<usize>)
    requires
        tag.is_ascii(),
    ensures
        match r {
            Some(p) => tag_at(i@, pos as int, tag@) && p == pos + tag@.len(),
            None => !tag_at(i@, pos as int, tag@),
        },
{
    proof {
        vstd::string::is_ascii_spec_bytes(tag);
    }
    let tb = tag.as_bytes();
    let tn = tb.len();
    let n = i.len();
    if pos > n || tn > n - pos {
        return None;
    }
    let mut j: usize = 0;
    while j < tn
        invariant
            0 <= j <= tn,
            tn == tag@.len(),
            tb@.len() == tag@.len(),
            forall|q: int| 0 <= q < tn ==> tb@[q] == (#[trigger] tag@[q]) as u8,
            n == i@.len(),
            pos + tn <= n,
            forall|q: int| 0 <= q < j ==> lower_byte(i@[pos + q]) == lower_byte(tag@[q] as u8),
        decreases tn - j,
    {
        let a = i[pos + j];
        let b = tb[j];
        let la: u8 = if 65 <= a && a <= 90 {
            a + 32
        } else {
            a
        };
        let lb: u8 = if 65 <= b && b <= 90 {
            b + 32
        } else {
            b
        };
        if la != lb {
            proof {
                assert(lower_byte(i@[pos + j]) != lower_byte(tag@[j as int] as u8));
            }
            return None;
        }
        j += 1;
    }
    Some(pos + tn)
}

/// Match a case-folded keyword at `pos`, requiring a word boundary after
/// it; succeeds exactly on the inputs [`kw_at`] accepts.
pub fn keyword(i: &[u8], pos: usize, kw: &str) -> (r: Option<usize>)
    requires
        kw.is_ascii(),
    ensures
        match r {
            Some(p) => kw_at(i@, pos as int, kw@) && p == pos + kw@.len(),
            None => !kw_at(i@, pos as int, kw@),
        },
{
    match tag_no_case(i, pos, kw) {
        Some(p) => {
            if p < i.len() {
                let b = i[p];
                let idb = (48 <= b && b <= 57) || (65 <= b && b <= 90) || (97 <= b && b <= 122)
                    || b == 95;
                if idb {
                    return None;
                }
            }
            Some(p)
        },
        None => None,
    }
}

/// Skip any run of whitespace; lands exactly on [`sp_ws_end`].
pub fn whitespace0(i: &[u8], pos: usize) -> (p: usize)
    requires
        pos <= i@.len(),
    ensures
        p == sp_ws_end(i@, pos as int),
        pos <= p <= i@.len(),
{
    let n = i.len();
    let mut p = pos;
    while p < n
        invariant
            pos <= p <= n,
            n == i@.len(),
            sp_ws_end(i@, pos as int) == sp_ws_end(i@, p as int),
        decreases n - p,
    {
        let b = i[p];
        if !(b == 32 || b == 9 || b == 10 || b == 13) {
            return p;
        }
        p += 1;
    }
    p
}

/// Require at least one whitespace byte, then skip the run.
pub fn whitespace1(i: &[u8], pos: usize) -> (r: Option<usize>)
    requires
        pos <= i@.len(),
    ensures
        match r {
            Some(p) => p == sp_ws_end(i@, pos as int) && pos < p <= i@.len(),
            None => sp_ws_end(i@, pos as int) == pos as int,
        },
{
    if pos >= i.len() {
        return None;
    }
    let b = i[pos];
    if !(b == 32 || b == 9 || b == 10 || b == 13) {
        return None;
    }
    let p = whitespace0(i, pos);
    proof {
        lemma_scan_bounds(i@, pos + 1);
    }
    Some(p)
}

/// A bare identifier, parsed exactly per [`sp_bare_identifier`].
pub fn bare_identifier(i: &[u8], pos: usize) -> (r: Option<(usize, String)>)
    requires
        pos <= i@.len(),
    ensures
        match r {
            Some(p) => sp_bare_identifier(i@, pos as int) == Option::Some(
                (p.0 as int, p.1@),
            ) && pos < p.0 <= i@.len(),
            None => sp_bare_identifier(i@, pos as int) is None,
        },
{
    let n = i.len();
    proof {
        lemma_scan_bounds(i@, pos as int);
    }
    if pos >= n {
        return None;
    }
    let mut bytes: Vec<u8> = Vec::new();
    let mut p = pos;
    let mut stopped = false;
    while p < n && !stopped
        invariant
            pos <= p <= n,
            n == i@.len(),
            bytes@.len() == p - pos,
            forall|j: int| pos <= j < p ==> is_ident_byte(i@[j]) && bytes@[j - pos] == i@[j],
            forall|j: int| 0 <= j < bytes@.len() ==> bytes@[j] < 128,
            sp_ident_end(i@, pos as int) == sp_ident_end(i@, p as int),
            stopped ==> p < n && !is_ident_byte(i@[p as int]),
        decreases n - p + (if stopped {
            0int
        } else {
            1int
        }),
    {
        let b = i[p];
        let ok = (48 <= b && b <= 57) || (65 <= b && b <= 90) || (97 <= b && b <= 122) || b == 95;
        if !ok {
            stopped = true;
        } else {
            bytes.push(b);
            p += 1;
        }
    }
    proof {
        assert(sp_ident_end(i@, p as int) == p as int);
    }
    if p == pos {
        return None;
    }
    let s = ascii_to_string(&bytes);
    proof {
        assert(s@ =~= bytes_chars(i@, pos as int, p as int));
    }
    Some((p, s))
}

/// A `q`-quoted string, parsed exactly per [`sp_quoted`].
fn quoted(i: &[u8], pos: usize, q: u8) -> (r: Option<(usize, String)>)
    requires
        pos <= i@.len(),
    ensures
        match r {
            Some(p) => sp_quoted(i@, pos as int, q) == Option::Some((p.0 as int, p.1@)) && pos
                < p.0 <= i@.len(),
            None => sp_quoted(i@, pos as int, q) is None,
        },
{
    let n = i.len();
    if pos >= n || i[pos] != q {
        return None;
    }
    let mut bytes: Vec<u8> = Vec::new();
    let mut p = pos + 1;
    while p < n
        invariant
            pos + 1 <= p <= n,
            n == i@.len(),
            i@[pos as int] == q,
            bytes@.len() == p - pos - 1,
            forall|j: int| pos + 1 <= j < p ==> bytes@[j - pos - 1] == i@[j] && i@[j] < 128,
            forall|j: int| 0 <= j < bytes@.len() ==> bytes@[j] < 128,
            sp_quote_end(i@, pos + 1, q) == sp_quote_end(i@, p as int, q),
        decreases n - p,
    {
        let b = i[p];
        if b == q {
            proof {
                assert(sp_quote_end(i@, p as int, q) == Option::Some(p as int));
            }
            let s = ascii_to_string(&bytes);
            proof {
                assert(s@ =~= bytes_chars(i@, pos + 1, p as int));
            }
            return Some((p + 1, s));
        }
        if b >= 128 {
            proof {
                assert(sp_quote_end(i@, p as int, q) is None);
            }
            return None;
        }
        bytes.push(b);
        p += 1;
    }
    proof {
        assert(sp_quote_end(i@, p as int, q) is None);
    }
    None
}

/// An identifier in the dialect, parsed exactly per [`sp_identifier`].
pub fn identifier(dialect: Dialect, i: &[u8], pos: usize) -> (r: Option<(usize, String)>)
    requires
        pos <= i@.len(),
    ensures
        match r {
            Some(p) => sp_identifier(dialect, i@, pos as int) == Option::Some(
                (p.0 as int, p.1@),
            ) && pos < p.0 <= i@.len(),
            None => sp_identifier(dialect, i@, pos as int) is None,
        },
{
    let q = dialect.quote_byte();
    if pos < i.len() && i[pos] == q {
        quoted(i, pos, q)
    } else {
        bare_identifier(i, pos)
    }
}

/// An unsigned decimal number, parsed exactly per [`sp_decimal`].
pub fn decimal_u64(i: &[u8], pos: usize) -> (r: Option<(usize, u64)>)
    requires
        pos <= i@.len(),
    ensures
        match r {
            Some(p) => sp_decimal(i@, pos as int) == Option::Some((p.0 as int, p.1 as int)) && pos
                < p.0 <= i@.len(),
            None => sp_decimal(i@, pos as int) is None,
        },
{
    let n = i.len();
    proof {
        lemma_scan_bounds(i@, pos as int);
        lemma_digit_end_range(i@, pos as int);
    }
    let mut p = pos;
    let mut v: u64 = 0;
    let mut stopped = false;
    while p < n && !stopped
        invariant
            pos <= p <= n,
            n == i@.len(),
            v == sp_digits_value(i@, pos as int, p as int),
            sp_digit_end(i@, pos as int) == sp_digit_end(i@, p as int),
            forall|k: int| pos <= k < sp_digit_end(i@, pos as int) ==> is_digit(#[trigger] i@[k]),
            stopped ==> p < n && !is_digit(i@[p as int]),
        decreases n - p + (if stopped {
            0int
        } else {
            1int
        }),
    {
        let b = i[p];
        if !(48 <= b && b <= 57) {
            stopped = true;
            continue ;
        }
        proof {
            assert(sp_digit_end(i@, p as int) == sp_digit_end(i@, p + 1));
            lemma_scan_bounds(i@, p + 1);
        }
        let step = match v.checked_mul(10) {
            Some(m) => m.checked_add((b - 48) as u64),
            None => None,
        };
        match step {
            Some(nv) => {
                v = nv;
            },
            None => {
                proof {
                    let e = sp_digit_end(i@, pos as int);
                    assert(e >= p + 1);
                    assert(sp_digits_value(i@, pos as int, p + 1) > u64::MAX);
                    lemma_digits_value_mono(i@, pos as int, p + 1, e);
                }
                return None;
            },
        }
        p += 1;
    }
    proof {
        assert(sp_digit_end(i@, p as int) == p as int);
    }
    if p == pos {
        None
    } else {
        Some((p, v))
    }
}

/// A column reference without an alias, parsed exactly per
/// [`sp_column_ident`]; a parsed qualifier never carries a schema.
pub fn column_identifier_no_alias(dialect: Dialect, i: &[u8], pos: usize) -> (r: Option<
    (usize, Column),
>)
    requires
        pos <= i@.len(),
    ensures
        match r {
            Some(p) => (sp_column_ident(dialect, i@, pos as int) matches Some(m) && p.0 == m.0
                && column_model(p.1) == ((m.1.0, match m.1.1 {
                Option::Some(t) => Option::Some((Option::<Seq<char>>::None, t)),
                Option::None => Option::None,
            }))) && pos < p.0 <= i@.len(),
            None => sp_column_ident(dialect, i@, pos as int) is None,
        },
{
    let (p1, first) = match identifier(dialect, i, pos) {
        Some(x) => x,
        None => {
            return None;
        },
    };
    if p1 < i.len() && i[p1] == 46 {
        match identifier(dialect, i, p1 + 1) {
            Some((p2, name)) => Some(
                (p2, Column { name, table: Some(Relation { schema: None, name: first }) }),
            ),
            None => None,
        }
    } else {
        Some((p1, Column { name: first, table: None }))
    }
}

/// A type name with an optional width, parsed exactly per [`sp_type`].
pub fn type_identifier(dialect: Dialect, i: &[u8], pos: usize) -> (r: Option<(usize, SqlType)>)
    requires
        pos <= i@.len(),
    ensures
        match r {
            Some(p) => sp_type(i@, pos as int) == Option::Some((p.0 as int, p.1)) && pos <= p.0
                <= i@.len(),
            None => sp_type(i@, pos as int) is None,
        },
{
    let _ = dialect;
    proof {
        reveal_strlit("timestamp");
        reveal_strlit("boolean");
        reveal_strlit("bool");
        reveal_strlit("text");
        reveal_strlit("integer");
        reveal_strlit("int");
        reveal_strlit("bigint");
        reveal_strlit("varchar");
    }
    if let Some(p1) = keyword(i, pos, "timestamp") {
        return Some((p1, SqlType::Timestamp));
    }
    if let Some(p1) = keyword(i, pos, "boolean") {
        return Some((p1, SqlType::Bool));
    }
    if let Some(p1) = keyword(i, pos, "bool") {
        return Some((p1, SqlType::Bool));
    }
    if let Some(p1) = keyword(i, pos, "text") {
        return Some((p1, SqlType::Text));
    }
    let (kind, p1): (u8, usize) = if let Some(p) = keyword(i, pos, "integer") {
        (1, p)
    } else if let Some(p) = keyword(i, pos, "int") {
        (1, p)
    } else if let Some(p) = keyword(i, pos, "bigint") {
        (2, p)
    } else if let Some(p) = keyword(i, pos, "varchar") {
        (3, p)
    } else {
        return None;
    };
    // optional (width)
    let mut width: Option<u16> = None;
    let mut p_after = p1;
    if p1 < i.len() && i[p1] == 40 {
        match decimal_u64(i, p1 + 1) {
            Some((p2, v)) => {
                if p2 < i.len() && i[p2] == 41 && v <= 65535 {
                    width = Some(v as u16);
                    p_after = p2 + 1;
                } else {
                    return None;
                }
            },
            None => {
                return None;
            },
        }
    }
    match kind {
        1 => Some((p_after, SqlType::Int(width))),
        2 => Some((p_after, SqlType::BigInt(width))),
        _ => Some((p_after, SqlType::Varchar(width))),
    }
}

/// A literal, parsed exactly per [`sp_literal`].
pub fn literal(dialect: Dialect, i: &[u8], pos: usize) -> (r: Option<(usize, Literal)>)
    requires
        pos <= i@.len(),
    ensures
        match r {
            Some(p) => (sp_literal(i@, pos as int) matches Some(m) && p.0 == m.0 && literal_model(
                p.1,
            ) == m.1) && pos < p.0 <= i@.len(),
            None => sp_literal(i@, pos as int) is None,
        },
{
    let _ = dialect;
    proof {
        reveal_strlit("null");
        reveal_strlit("true");
        reveal_strlit("false");
    }
    if let Some(p) = keyword(i, pos, "null") {
        return Some((p, Literal::Null));
    }
    if let Some(p) = keyword(i, pos, "true") {
        return Some((p, Literal::Boolean(true)));
    }
    if let Some(p) = keyword(i, pos, "false") {
        return Some((p, Literal::Boolean(false)));
    }
    if pos < i.len() && i[pos] == 45 {
        return match decimal_u64(i, pos + 1) {
            Some((p, v)) => {
                if v <= 9_223_372_036_854_775_807 {
                    let neg: i64 = -(v as i64);
                    Some((p, Literal::Integer(neg)))
                } else {
                    None
                }
            },
            None => None,
        };
    }
    if let Some((p, v)) = decimal_u64(i, pos) {
        return Some((p, Literal::UnsignedInteger(v)));
    }
    match quoted(i, pos, 39) {
        Some((p, s)) => Some((p, Literal::Str(s))),
        None => None,
    }
}

/// A DEFAULT expression, parsed exactly per [`sp_expression`].
pub fn expression(dialect: Dialect, i: &[u8], pos: usize) -> (r: Option<(usize, Expr)>)
    requires
        pos <= i@.len(),
    ensures
        match r {
            Some(p) => (sp_expression(dialect, i@, pos as int) matches Some(m) && p.0 == m.0
                && default_expr_model(p.1) == m.1) && pos < p.0 <= i@.len(),
            None => sp_expression(dialect, i@, pos as int) is None,
        },
{
    if let Some((p, l)) = literal(dialect, i, pos) {
        return Some((p, Expr::Literal(l)));
    }
    match identifier(dialect, i, pos) {
        Some((p1, name)) => {
            if p1 < i.len() && i[p1] == 40 && p1 + 1 < i.len() && i[p1 + 1] == 41 {
                let e = Expr::Call(FunctionExpr::Call { name, arguments: Vec::new() });
                Some((p1 + 2, e))
            } else {
                Some((p1, Expr::Column(Column { name, table: None })))
            }
        },
        None => None,
    }
}

/// A trailing `COMMENT '...'` clause, parsed exactly per [`sp_comment`].
pub fn parse_comment(i: &[u8], pos: usize) -> (r: Option<(usize, String)>)
    requires
        pos <= i@.len(),
    ensures
        match r {
            Some(p) => sp_comment(i@, pos as int) == Option::Some((p.0 as int, p.1@)) && pos < p.0
                <= i@.len(),
            None => sp_comment(i@, pos as int) is None,
        },
{
    proof {
        reveal_strlit("comment");
    }
    let p = whitespace0(i, pos);
    let p = match keyword(i, p, "comment") {
        Some(p) => p,
        None => {
            return None;
        },
    };
    let p = match whitespace1(i, p) {
        Some(p) => p,
        None => {
            return None;
        },
    };
    match quoted(i, p, 39) {
        Some((p2, s)) => Some((p2, s)),
        None => None,
    }
}

/// `ON UPDATE CURRENT_TIMESTAMP` (also accepting the NOW-style synonyms),
/// parsed exactly per [`sp_on_update`].  This really is its own
/// constraint, distinct from a default-value expression.
pub fn on_update_current_timestamp(i: &[u8], pos: usize) -> (r: Option<(usize, ColumnConstraint)>)
    requires
        pos <= i@.len(),
    ensures
        match r {
            Some(p) => sp_on_update(i@, pos as int) == Option::Some(p.0 as int) && (
            p.1 is OnUpdateCurrentTimestamp) && pos < p.0 <= i@.len(),
            None => sp_on_update(i@, pos as int) is None,
        },
{
    proof {
        reveal_strlit("on");
        reveal_strlit("update");
        reveal_strlit("current_timestamp");
        reveal_strlit("now");
        reveal_strlit("localtime");
        reveal_strlit("localtimestamp");
    }
    let p = match keyword(i, pos, "on") {
        Some(p) => p,
        None => {
            return None;
        },
    };
    let p = match whitespace1(i, p) {
        Some(p) => p,
        None => {
            return None;
        },
    };
    let p = match keyword(i, p, "update") {
        Some(p) => p,
        None => {
            return None;
        },
    };
    let p = match whitespace1(i, p) {
        Some(p) => p,
        None => {
            return None;
        },
    };
    let p = if let Some(p2) = keyword(i, p, "current_timestamp") {
        p2
    } else if let Some(p2) = keyword(i, p, "now") {
        p2
    } else if let Some(p2) = keyword(i, p, "localtime") {
        p2
    } else if let Some(p2) = keyword(i, p, "localtimestamp") {
        p2
    } else {
        return None;
    };
    let p = if p < i.len() && i[p] == 40 && p + 1 < i.len() && i[p + 1] == 41 {
        p + 2
    } else {
        p
    };
    Some((p, ColumnConstraint::OnUpdateCurrentTimestamp))
}

/// One column constraint, parsed exactly per [`sp_constraint`].
pub fn column_constraint(dialect: Dialect, i: &[u8], pos: usize) -> (r: Option<
    (usize, ColumnConstraint),
>)
    requires
        pos <= i@.len(),
    ensures
        match r {
            Some(p) => (sp_constraint(dialect, i@, pos as int) matches Some(m) && p.0 == m.0
                && constraint_model(p.1) == m.1) && pos < p.0 <= i@.len(),
            None => sp_constraint(dialect, i@, pos as int) is None,
        },
{
    proof {
        reveal_strlit("not null");
        reveal_strlit("null");
        reveal_strlit("auto_increment");
        reveal_strlit("default");
        reveal_strlit("primary key");
        reveal_strlit("unique");
        reveal_strlit("key");
        reveal_strlit("character set");
        reveal_strlit("collate");
    }
    let p0 = whitespace0(i, pos);
    if p0 >= i.len() {
        return None;
    }
    let (p1, c): (usize, ColumnConstraint) = if let Some(p) = tag_no_case(i, p0, "not null") {
        (p, ColumnConstraint::NotNull)
    } else if let Some(p) = keyword(i, p0, "null") {
        (p, ColumnConstraint::Null)
    } else if let Some(p) = keyword(i, p0, "auto_increment") {
        (p, ColumnConstraint::AutoIncrement)
    } else if let Some(p) = keyword(i, p0, "default") {
        let pw = match whitespace1(i, p) {
            Some(pw) => pw,
            None => {
                return None;
            },
        };
        match expression(dialect, i, pw) {
            Some((pe, e)) => (pe, ColumnConstraint::DefaultValue(e)),
            None => {
                return None;
            },
        }
    } else if let Some(p) = tag_no_case(i, p0, "primary key") {
        (p, ColumnConstraint::PrimaryKey)
    } else if let Some(p) = keyword(i, p0, "unique") {
        let pw = whitespace0(i, p);
        match keyword(i, pw, "key") {
            Some(pk) => (pk, ColumnConstraint::Unique),
            None => (p, ColumnConstraint::Unique),
        }
    } else if let Some(p) = tag_no_case(i, p0, "character set") {
        let pw = match whitespace1(i, p) {
            Some(pw) => pw,
            None => {
                return None;
            },
        };
        match identifier(dialect, i, pw) {
            Some((pi, cs)) => (pi, ColumnConstraint::CharacterSet(cs)),
            None => {
                return None;
            },
        }
    } else if let Some(p) = keyword(i, p0, "collate") {
        let pw = match whitespace1(i, p) {
            Some(pw) => pw,
            None => {
                return None;
            },
        };
        match identifier(dialect, i, pw) {
            Some((pi, cl)) => (pi, ColumnConstraint::Collation(cl)),
            None => {
                return None;
            },
        }
    } else {
        match on_update_current_timestamp(i, p0) {
            Some((p, c)) => (p, c),
            None => {
                return None;
            },
        }
    };
    if p1 <= p0 {
        return None;
    }
    let p2 = whitespace0(i, p1);
    Some((p2, c))
}

/// A full column specification, parsed exactly per
/// [`sp_column_specification`]: the column name, an optional type
/// (defaulting to TEXT), the maximal run of constraints in input order,
/// and an optional comment.
#[verifier::rlimit(100)]
pub fn column_specification(dialect: Dialect, i: &[u8], pos: usize) -> (r: Option<
    (usize, ColumnSpecification),
>)
    requires
        pos <= i@.len(),
    ensures
        match r {
            Some(p) => (sp_column_specification(dialect, i@, pos as int) matches Some(m) && p.0
                == m.0 && colspec_model(p.1) == m.1) && pos < p.0 <= i@.len(),
            None => sp_column_specification(dialect, i@, pos as int) is None,
        },
{
    let (p1, column) = match column_identifier_no_alias(dialect, i, pos) {
        Some(x) => x,
        None => {
            return None;
        },
    };
    let mut p = p1;
    let mut sql_type = SqlType::Text;
    if let Some(pw) = whitespace1(i, p1) {
        match type_identifier(dialect, i, pw) {
            Some((pt, t)) => {
                sql_type = t;
                p = whitespace0(i, pt);
            },
            None => {},
        }
    }
    let ghost p_start = p as int;
    let mut constraints: Vec<ColumnConstraint> = Vec::new();
    proof {
        assert(constraints@.map_values(|x: ColumnConstraint| constraint_model(x)) =~= Seq::<
            ConstraintModel,
        >::empty());
    }
    let mut done = false;
    while !done
        invariant
            pos < p <= i@.len(),
            p_start <= p,
            sp_constraints(dialect, i@, p_start).0 == sp_constraints(dialect, i@, p as int).0,
            sp_constraints(dialect, i@, p_start).1 == constraints@.map_values(
                |x: ColumnConstraint| constraint_model(x),
            ) + sp_constraints(dialect, i@, p as int).1,
            done ==> sp_constraint(dialect, i@, p as int) is None,
        decreases i@.len() - p + (if done {
            0int
        } else {
            1int
        }),
    {
        let ghost before = constraints@.map_values(|x: ColumnConstraint| constraint_model(x));
        match column_constraint(dialect, i, p) {
            Some((p2, c)) => {
                constraints.push(c);
                proof {
                    assert(constraints@.map_values(|x: ColumnConstraint| constraint_model(x))
                        =~= before.push(constraint_model(c)));
                    assert(before + (seq![constraint_model(c)] + sp_constraints(
                        dialect,
                        i@,
                        p2 as int,
                    ).1) =~= before.push(constraint_model(c)) + sp_constraints(
                        dialect,
                        i@,
                        p2 as int,
                    ).1);
                }
                p = p2;
            },
            None => {
                done = true;
            },
        }
    }
    proof {
        assert(sp_constraints(dialect, i@, p as int).1 =~= Seq::<ConstraintModel>::empty());
        assert(sp_constraints(dialect, i@, p_start).1 =~= constraints@.map_values(
            |x: ColumnConstraint| constraint_model(x),
        ));
    }
    let mut comment: Option<String> = None;
    match parse_comment(i, p) {
        Some((p2, cm)) => {
            comment = Some(cm);
            p = p2;
        },
        None => {},
    }
    Some((p, ColumnSpecification { column, sql_type, constraints, comment }))
}

} // verus!
