//! Rewriting `COUNT(*)` into a concrete column-counting expression.
//!
//! A plain `COUNT(*)` cannot be executed directly by the column-based
//! aggregation engine, so the planner rewrites it into
//! `count(coalesce(t.c, 0))` over the first column of the statement's
//! first table — a column that is non-null on every row, so the count is
//! unchanged.

use vstd::prelude::*;

use crate::column::{Column, Expr, FunctionExpr, Literal, Relation};

verus! {

/// An error raised while rewriting a statement.
#[derive(Clone, Copy, Debug, PartialEq, Eq, Structural)]
pub enum RewriteError {
    /// The statement's tables were not set before a `COUNT(*)` was met.
    NoTables,
    /// The first table has no schema entry.
    TableNotFound,
    /// The first table's schema lists no columns.
    EmptySchema,
}

/// A table expression in a FROM clause.
#[derive(Debug)]
pub struct TableExpr {
    pub table: Relation,
}

/// A SELECT statement, as far as this rewrite needs one: its tables and
/// its selected expressions.
#[derive(Debug)]
pub struct SelectStatement {
    pub tables: Vec<TableExpr>,
    pub fields: Vec<Expr>,
}

/// The model of a table reference: its schema and name contents.
pub open spec fn rel_model(r: Relation) -> (Option<Seq<char>>, Seq<char>) {
    (
        match r.schema {
            Option::Some(s) => Option::Some(s@),
            Option::None => Option::None,
        },
        r.name@,
    )
}

/// The columns registered for a table, by first match on the table
/// reference.
pub open spec fn spec_lookup_schema(schemas: Seq<(Relation, Vec<String>)>, t: Relation) -> Option<
    Vec<String>,
>
    decreases schemas.len(),
{
    if schemas.len() == 0 {
        Option::None
    } else if rel_model(schemas[0].0) == rel_model(t) {
        Option::Some(schemas[0].1)
    } else {
        spec_lookup_schema(schemas.drop_first(), t)
    }
}

/// The table and column a `COUNT(*)` will count over — the statement's
/// first table and its first schema column — or the error that stops the
/// rewrite.
pub open spec fn replacement_status(
    schemas: Seq<(Relation, Vec<String>)>,
    tables: Option<Vec<TableExpr>>,
) -> Result<(Relation, String), RewriteError> {
    match tables {
        Option::None => Err(RewriteError::NoTables),
        Option::Some(ts) => {
            if ts@.len() == 0 {
                Err(RewriteError::NoTables)
            } else {
                match spec_lookup_schema(schemas, ts@[0].table) {
                    Option::None => Err(RewriteError::TableNotFound),
                    Option::Some(cols) => {
                        if cols@.len() == 0 {
                            Err(RewriteError::EmptySchema)
                        } else {
                            Ok((ts@[0].table, cols@[0]))
                        }
                    },
                }
            }
        },
    }
}

/// Whether `g` is exactly the replacement of one `COUNT(*)`:
/// `count(coalesce(t.col, 0))`, not distinct.
pub open spec fn is_count_star_replacement(g: FunctionExpr, t: Relation, col: String) -> bool {
    match g {
        FunctionExpr::Count { expr, distinct } => !distinct && match *expr {
            Expr::Call(inner) => match inner {
                FunctionExpr::Call { name, arguments } => name@ == "coalesce"@ && arguments@
                    == seq![
                    Expr::Column(Column { name: col, table: Option::Some(t) }),
                    Expr::Literal(Literal::Integer(0)),
                ],
                _ => false,
            },
            _ => false,
        },
        _ => false,
    }
}

/// Whether an expression contains a `COUNT(*)` anywhere.
pub open spec fn expr_has_count_star(e: Expr) -> bool
    decreases e,
{
    match e {
        Expr::Literal(_) => false,
        Expr::Column(_) => false,
        Expr::Call(f) => fexpr_has_count_star(f),
        Expr::BinaryOp { lhs, op, rhs } => expr_has_count_star(*lhs) || expr_has_count_star(*rhs),
    }
}

/// Whether a function expression contains a `COUNT(*)` anywhere.
pub open spec fn fexpr_has_count_star(f: FunctionExpr) -> bool
    decreases f,
{
    match f {
        FunctionExpr::CountStar => true,
        FunctionExpr::Count { expr, distinct } => expr_has_count_star(*expr),
        FunctionExpr::Call { name, arguments } => exists|i: int|
            0 <= i < arguments@.len() && expr_has_count_star(#[trigger] arguments@[i]),
    }
}

/// `res` is `orig` with every `COUNT(*)` replaced by counting
/// `coalesce(t.col, 0)` and everything else intact.
pub open spec fn expr_rewritten(t: Relation, col: String, orig: Expr, res: Expr) -> bool
    decreases orig,
{
    match orig {
        Expr::Literal(l) => res == Expr::Literal(l),
        Expr::Column(c) => res == Expr::Column(c),
        Expr::Call(f) => match res {
            Expr::Call(g) => fexpr_rewritten(t, col, f, g),
            _ => false,
        },
        Expr::BinaryOp { lhs, op, rhs } => match res {
            Expr::BinaryOp { lhs: l2, op: o2, rhs: r2 } => o2 == op && expr_rewritten(
                t,
                col,
                *lhs,
                *l2,
            ) && expr_rewritten(t, col, *rhs, *r2),
            _ => false,
        },
    }
}

/// `g` is `f` with every `COUNT(*)` replaced, and everything else intact.
pub open spec fn fexpr_rewritten(t: Relation, col: String, f: FunctionExpr, g: FunctionExpr) -> bool
    decreases f,
{
    match f {
        FunctionExpr::CountStar => is_count_star_replacement(g, t, col),
        FunctionExpr::Count { expr, distinct } => match g {
            FunctionExpr::Count { expr: e2, distinct: d2 } => d2 == distinct && expr_rewritten(
                t,
                col,
                *expr,
                *e2,
            ),
            _ => false,
        },
        FunctionExpr::Call { name, arguments } => match g {
            FunctionExpr::Call { name: n2, arguments: a2 } => n2 == name && a2@.len()
                == arguments@.len() && (forall|i: int|
                0 <= i < arguments@.len() ==> expr_rewritten(
                    t,
                    col,
                    #[trigger] arguments@[i],
                    a2@[i],
                )),
            _ => false,
        },
    }
}

/// The visitor that performs the rewrite: the table schemas it may draw
/// replacement columns from, and the tables of the statement being
/// visited.
#[derive(Debug)]
pub struct CountStarRewriteVisitor<'schema> {
    pub schemas: &'schema Vec<(Relation, Vec<String>)>,
    pub tables: Option<Vec<TableExpr>>,
}

/// Copy a table reference.
pub fn clone_relation(r: &Relation) -> (c: Relation)
    ensures
        c == *r,
{
    Relation {
        schema: match &r.schema {
            Some(s) => Some(s.clone()),
            None => None,
        },
        name: r.name.clone(),
    }
}

/// Copy a column reference.
fn clone_column(c: &Column) -> (r: Column)
    ensures
        r == *c,
{
    Column {
        name: c.name.clone(),
        table: match &c.table {
            Some(t) => Some(clone_relation(t)),
            None => None,
        },
    }
}

/// Copy a literal.
fn clone_literal(l: &Literal) -> (r: Literal)
    ensures
        r == *l,
{
    match l {
        Literal::Null => Literal::Null,
        Literal::Boolean(b) => Literal::Boolean(*b),
        Literal::Integer(v) => Literal::Integer(*v),
        Literal::UnsignedInteger(v) => Literal::UnsignedInteger(*v),
        Literal::Str(s) => Literal::Str(s.clone()),
    }
}

/// Compare two table references by value.
fn rel_eq(a: &Relation, b: &Relation) -> (r: bool)
    ensures
        r == (rel_model(*a) == rel_model(*b)),
{
    let names = a.name.eq(&b.name);
    match (&a.schema, &b.schema) {
        (Some(x), Some(y)) => names && x.eq(y),
        (None, None) => names,
        _ => false,
    }
}

impl<'schema> CountStarRewriteVisitor<'schema> {
    /// The replacement for one `COUNT(*)`: pick the statement's first
    /// table, then that table's first schema column.
    fn count_star_replacement(&self) -> (r: Result<FunctionExpr, RewriteError>)
        ensures
            match r {
                Ok(g) => (replacement_status(self.schemas@, self.tables) matches Ok(p)
                    && is_count_star_replacement(g, p.0, p.1)),
                Err(e) => replacement_status(self.schemas@, self.tables) == Err::<
                    (Relation, String),
                    RewriteError,
                >(e),
            },
    {
        let bogo_table: &Relation = match &self.tables {
            Some(ts) => {
                if ts.len() == 0 {
                    return Err(RewriteError::NoTables);
                }
                &ts[0].table
            },
            None => {
                return Err(RewriteError::NoTables);
            },
        };
        let n = self.schemas.len();
        let mut i: usize = 0;
        let ghost smodel = self.schemas@;
        proof {
            assert(smodel.skip(0) =~= smodel);
        }
        while i < n
            invariant
                0 <= i <= n,
                n == smodel.len(),
                smodel == self.schemas@,
                spec_lookup_schema(smodel, *bogo_table) == spec_lookup_schema(
                    smodel.skip(i as int),
                    *bogo_table,
                ),
                self.tables matches Some(ts) && ts@.len() > 0 && *bogo_table == ts@[0].table,
            decreases n - i,
        {
            proof {
                assert(smodel.skip(i as int)[0] == smodel[i as int]);
                assert(smodel.skip(i as int).drop_first() =~= smodel.skip(i + 1));
            }
            let entry = &self.schemas[i];
            if rel_eq(&entry.0, bogo_table) {
                proof {
                    assert(spec_lookup_schema(smodel, *bogo_table) == Option::Some(
                        smodel[i as int].1,
                    ));
                }
                let cols = &entry.1;
                if cols.len() == 0 {
                    return Err(RewriteError::EmptySchema);
                }
                let name = cols[0].clone();
                let table = clone_relation(bogo_table);
                let mut arguments: Vec<Expr> = Vec::new();
                arguments.push(Expr::Column(Column { name, table: Some(table) }));
                arguments.push(Expr::Literal(Literal::Integer(0)));
                proof {
                    assert(arguments@ =~= seq![
                        Expr::Column(
                            Column {
                                name: smodel[i as int].1@[0],
                                table: Option::Some(*bogo_table),
                            },
                        ),
                        Expr::Literal(Literal::Integer(0)),
                    ]);
                }
                let g = FunctionExpr::Count {
                    expr: Box::new(
                        Expr::Call(
                            FunctionExpr::Call { name: String::from_str("coalesce"), arguments },
                        ),
                    ),
                    distinct: false,
                };
                proof {
                    assert(is_count_star_replacement(g, *bogo_table, smodel[i as int].1@[0]));
                    assert(replacement_status(self.schemas@, self.tables) == Ok::<
                        (Relation, String),
                        RewriteError,
                    >((*bogo_table, smodel[i as int].1@[0])));
                }
                return Ok(g);
            }
            i += 1;
        }
        proof {
            assert(smodel.skip(n as int).len() == 0);
        }
        Err(RewriteError::TableNotFound)
    }

    /// Rewrite one function expression, replacing every `COUNT(*)` in it.
    /// A function expression containing none comes back unchanged.
    #[verifier::loop_isolation(false)]
    pub fn visit_function_expr(&self, f: &FunctionExpr) -> (r: Result<FunctionExpr, RewriteError>)
        ensures
            match r {
                Ok(g) => if fexpr_has_count_star(*f) {
                    (replacement_status(self.schemas@, self.tables) matches Ok(p)
                        && fexpr_rewritten(p.0, p.1, *f, g))
                } else {
                    forall|t0: Relation, c0: String| fexpr_rewritten(t0, c0, *f, g)
                },
                Err(e) => fexpr_has_count_star(*f) && replacement_status(
                    self.schemas@,
                    self.tables,
                ) == Err::<(Relation, String), RewriteError>(e),
            },
        decreases f,
    {
        match f {
            FunctionExpr::CountStar => match self.count_star_replacement() {
                Ok(g) => Ok(g),
                Err(e) => Err(e),
            },
            FunctionExpr::Count { expr, distinct } => {
                match self.rewrite_expr(expr) {
                    Ok(e2) => {
                        let ghost e2g = e2;
                        let g = FunctionExpr::Count { expr: Box::new(e2), distinct: *distinct };
                        proof {
                            if fexpr_has_count_star(*f) {
                                let p = replacement_status(self.schemas@, self.tables)->Ok_0;
                                assert(expr_rewritten(p.0, p.1, **expr, e2g));
                                assert(fexpr_rewritten(p.0, p.1, *f, g));
                            } else {
                                assert forall|t0: Relation, c0: String| fexpr_rewritten(
                                    t0,
                                    c0,
                                    *f,
                                    g,
                                ) by {
                                    assert(expr_rewritten(t0, c0, **expr, e2g));
                                }
                            }
                        }
                        Ok(g)
                    },
                    Err(e) => Err(e),
                }
            },
            FunctionExpr::Call { name, arguments } => {
                let mut out: Vec<Expr> = Vec::new();
                let n = arguments.len();
                let mut i: usize = 0;
                let ghost st = replacement_status(self.schemas@, self.tables);
                while i < n
                    invariant
                        0 <= i <= n,
                        n == arguments@.len(),
                        st == replacement_status(self.schemas@, self.tables),
                        *f == (FunctionExpr::Call { name: *name, arguments: *arguments }),
                        out@.len() == i as int,
                        forall|j: int|
                            0 <= j < i ==> if expr_has_count_star(#[trigger] arguments@[j]) {
                                st matches Ok(p) && expr_rewritten(p.0, p.1, arguments@[j], out@[j])
                            } else {
                                forall|t0: Relation, c0: String|
                                    expr_rewritten(t0, c0, arguments@[j], out@[j])
                            },
                    decreases n - i,
                {
                    proof {
                        assert(decreases_to!(*arguments => arguments@[i as int]));
                    }
                    match self.rewrite_expr(&arguments[i]) {
                        Ok(e2) => {
                            out.push(e2);
                        },
                        Err(e) => {
                            proof {
                                assert(expr_has_count_star(arguments@[i as int]));
                                assert(fexpr_has_count_star(*f));
                            }
                            return Err(e);
                        },
                    }
                    i += 1;
                }
                let g = FunctionExpr::Call { name: name.clone(), arguments: out };
                proof {
                    if fexpr_has_count_star(*f) {
                        assert(st is Ok);
                        assert(fexpr_rewritten(st->Ok_0.0, st->Ok_0.1, *f, g)) by {
                            assert forall|j: int| 0 <= j < arguments@.len() implies expr_rewritten(
                                st->Ok_0.0,
                                st->Ok_0.1,
                                #[trigger] arguments@[j],
                                g->Call_arguments@[j],
                            ) by {
                                if !expr_has_count_star(arguments@[j]) {
                                }
                            }
                        }
                    } else {
                        assert forall|t0: Relation, c0: String| fexpr_rewritten(
                            t0,
                            c0,
                            *f,
                            g,
                        ) by {
                            assert forall|j: int|
                                0 <= j < arguments@.len() implies expr_rewritten(
                                t0,
                                c0,
                                #[trigger] arguments@[j],
                                g->Call_arguments@[j],
                            ) by {
                                assert(!expr_has_count_star(arguments@[j]));
                            }
                        }
                    }
                }
                Ok(g)
            },
        }
    }

    /// Rewrite one expression, replacing every `COUNT(*)` in it.  An
    /// expression containing none comes back unchanged.
    pub fn rewrite_expr(&self, e: &Expr) -> (r: Result<Expr, RewriteError>)
        ensures
            match r {
                Ok(res) => if expr_has_count_star(*e) {
                    (replacement_status(self.schemas@, self.tables) matches Ok(p)
                        && expr_rewritten(p.0, p.1, *e, res))
                } else {
                    forall|t0: Relation, c0: String| expr_rewritten(t0, c0, *e, res)
                },
                Err(err) => expr_has_count_star(*e) && replacement_status(
                    self.schemas@,
                    self.tables,
                ) == Err::<(Relation, String), RewriteError>(err),
            },
        decreases e,
    {
        match e {
            Expr::Literal(l) => {
                let r2 = Expr::Literal(clone_literal(l));
                proof {
                    assert(r2 == *e);
                }
                Ok(r2)
            },
            Expr::Column(c) => {
                let r2 = Expr::Column(clone_column(c));
                proof {
                    assert(r2 == *e);
                }
                Ok(r2)
            },
            Expr::Call(f) => match self.visit_function_expr(f) {
                Ok(g) => {
                    let ghost gg = g;
                    let res = Expr::Call(g);
                    proof {
                        if expr_has_count_star(*e) {
                            let p = replacement_status(self.schemas@, self.tables)->Ok_0;
                            assert(fexpr_rewritten(p.0, p.1, *f, gg));
                            assert(expr_rewritten(p.0, p.1, *e, res));
                        } else {
                            assert forall|t0: Relation, c0: String| expr_rewritten(
                                t0,
                                c0,
                                *e,
                                res,
                            ) by {
                                assert(fexpr_rewritten(t0, c0, *f, gg));
                            }
                        }
                    }
                    Ok(res)
                },
                Err(err) => Err(err),
            },
            Expr::BinaryOp { lhs, op, rhs } => {
                let l2 = match self.rewrite_expr(lhs) {
                    Ok(x) => x,
                    Err(err) => {
                        return Err(err);
                    },
                };
                let r2 = match self.rewrite_expr(rhs) {
                    Ok(x) => x,
                    Err(err) => {
                        return Err(err);
                    },
                };
                let res = Expr::BinaryOp { lhs: Box::new(l2), op: *op, rhs: Box::new(r2) };
                proof {
                    if expr_has_count_star(*e) {
                        let p = replacement_status(self.schemas@, self.tables)->Ok_0;
                        assert(expr_rewritten(p.0, p.1, **lhs, l2));
                        assert(expr_rewritten(p.0, p.1, **rhs, r2));
                    } else {
                        assert forall|t0: Relation, c0: String| expr_rewritten(
                            t0,
                            c0,
                            *e,
                            res,
                        ) by {
                            assert(expr_rewritten(t0, c0, **lhs, l2));
                            assert(expr_rewritten(t0, c0, **rhs, r2));
                        }
                    }
                }
                Ok(res)
            },
        }
    }
}

/// An expression with no `COUNT(*)` is its own rewrite.
pub proof fn lemma_rewritten_refl(t: Relation, col: String, e: Expr)
    requires
        !expr_has_count_star(e),
    ensures
        expr_rewritten(t, col, e, e),
    decreases e,
{
    match e {
        Expr::Literal(_) => {},
        Expr::Column(_) => {},
        Expr::Call(f) => {
            lemma_fexpr_rewritten_refl(t, col, f);
        },
        Expr::BinaryOp { lhs, op, rhs } => {
            lemma_rewritten_refl(t, col, *lhs);
            lemma_rewritten_refl(t, col, *rhs);
        },
    }
}

/// A function expression with no `COUNT(*)` is its own rewrite.
pub proof fn lemma_fexpr_rewritten_refl(t: Relation, col: String, f: FunctionExpr)
    requires
        !fexpr_has_count_star(f),
    ensures
        fexpr_rewritten(t, col, f, f),
    decreases f,
{
    match f {
        FunctionExpr::CountStar => {},
        FunctionExpr::Count { expr, distinct } => {
            lemma_rewritten_refl(t, col, *expr);
        },
        FunctionExpr::Call { name, arguments } => {
            assert forall|i: int| 0 <= i < arguments@.len() implies expr_rewritten(
                t,
                col,
                #[trigger] arguments@[i],
                arguments@[i],
            ) by {
                assert(!expr_has_count_star(arguments@[i]));
                lemma_rewritten_refl(t, col, arguments@[i]);
            }
        },
    }
}

impl SelectStatement {
    /// Rewrite every `COUNT(*)` among the statement's selected
    /// expressions; the tables are untouched, and a statement containing
    /// no `COUNT(*)` comes back with its fields unchanged.
    pub fn rewrite_count_star(self, schemas: &Vec<(Relation, Vec<String>)>) -> (r: Result<
        SelectStatement,
        RewriteError,
    >)
        ensures
            match r {
                Ok(st) => st.tables == self.tables && st.fields@.len() == self.fields@.len() && (
                forall|j: int|
                    0 <= j < self.fields@.len() ==> if expr_has_count_star(
                        #[trigger] self.fields@[j],
                    ) {
                        replacement_status(schemas@, Option::Some(self.tables)) matches Ok(p)
                            && expr_rewritten(p.0, p.1, self.fields@[j], st.fields@[j])
                    } else {
                        forall|t0: Relation, c0: String|
                            expr_rewritten(t0, c0, self.fields@[j], st.fields@[j])
                    }),
                Err(e) => replacement_status(schemas@, Option::Some(self.tables)) == Err::<
                    (Relation, String),
                    RewriteError,
                >(e) && exists|j: int|
                    0 <= j < self.fields@.len() && expr_has_count_star(#[trigger] self.fields@[j]),
            },
    {
        // the visitor borrows a copy of the tables, as the original
        // visitor records them before walking the statement
        let mut tables_copy: Vec<TableExpr> = Vec::new();
        let tn = self.tables.len();
        let mut ti: usize = 0;
        while ti < tn
            invariant
                0 <= ti <= tn,
                tn == self.tables@.len(),
                tables_copy@.len() == ti as int,
                forall|j: int| 0 <= j < ti ==> tables_copy@[j] == self.tables@[j],
            decreases tn - ti,
        {
            tables_copy.push(TableExpr { table: clone_relation(&self.tables[ti].table) });
            ti += 1;
        }
        proof {
            assert(tables_copy@ =~= self.tables@);
        }
        let visitor = CountStarRewriteVisitor { schemas, tables: Some(tables_copy) };
        let mut out: Vec<Expr> = Vec::new();
        let n = self.fields.len();
        let mut i: usize = 0;
        let ghost st = replacement_status(schemas@, Option::Some(self.tables));
        proof {
            assert(replacement_status(visitor.schemas@, visitor.tables) == st);
        }
        while i < n
            invariant
                0 <= i <= n,
                n == self.fields@.len(),
                visitor.schemas@ == schemas@,
                st == replacement_status(schemas@, Option::Some(self.tables)),
                st == replacement_status(visitor.schemas@, visitor.tables),
                out@.len() == i as int,
                forall|j: int|
                    0 <= j < i ==> if expr_has_count_star(#[trigger] self.fields@[j]) {
                        st matches Ok(p) && expr_rewritten(p.0, p.1, self.fields@[j], out@[j])
                    } else {
                        forall|t0: Relation, c0: String|
                            expr_rewritten(t0, c0, self.fields@[j], out@[j])
                    },
            decreases n - i,
        {
            match visitor.rewrite_expr(&self.fields[i]) {
                Ok(e2) => {
                    out.push(e2);
                },
                Err(e) => {
                    proof {
                        assert(expr_has_count_star(self.fields@[i as int]));
                    }
                    return Err(e);
                },
            }
            i += 1;
        }
        Ok(SelectStatement { tables: self.tables, fields: out })
    }
}

} // verus!
