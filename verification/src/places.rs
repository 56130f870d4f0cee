//! The resolver does not look at where a token stands. Two trees that are
//! the same but for the lines and places of their tokens resolve alike:
//! both to the same table, or both to a failure of the same code with the
//! same arguments. So text that gives no token, such as a comment or white
//! space, changes nothing of what the resolver finds.

use vstd::prelude::*;
use crate::ast::{Expression, FuncBody, Statement};
use crate::errors::Failure;
use crate::resolver::{
    Table, declare, define, introduce, introduce_params, introduce_uses, opened, refer_expr,
    walk_arms, walk_body, walk_case, walk_cases, walk_default, walk_expr, walk_exprs, walk_fields,
    walk_function, walk_scoped, walk_stmt, walk_stmts, walk_var, with_func, with_loop,
};
use crate::token::Token;

verus! {

/// The tokens are the same but for where they stand: of one kind, with one
/// text and one payload.
pub open spec fn same_token(a: Token, b: Token) -> bool {
    a.token == b.token && a.lexeme@ == b.lexeme@ && a@.value == b@.value
}

/// The tokens of two lists are the same but for where they stand.
pub open spec fn same_tokens(a: Seq<Token>, b: Seq<Token>) -> bool {
    a.len() == b.len() && forall|i: int| 0 <= i < a.len() ==> #[trigger] same_token(a[i], b[i])
}

/// The parameters of two lists are the same but for where they stand.
pub open spec fn same_params(a: Seq<(Token, Token)>, b: Seq<(Token, Token)>) -> bool {
    a.len() == b.len() && forall|i: int|
        0 <= i < a.len() ==> #[trigger] same_token(a[i].0, b[i].0) && same_token(a[i].1, b[i].1)
}

/// Two tokens that may be missing are the same but for where they stand.
pub open spec fn same_alias(a: Option<Token>, b: Option<Token>) -> bool {
    match (a, b) {
        (Some(x), Some(y)) => same_token(x, y),
        (None, None) => true,
        _ => false,
    }
}

/// The names of two lists, each with the alias it may have, are the same
/// but for where they stand.
pub open spec fn same_uses(a: Seq<(Token, Option<Token>)>, b: Seq<(Token, Option<Token>)>) -> bool {
    a.len() == b.len() && forall|i: int|
        0 <= i < a.len() ==> #[trigger] same_token(a[i].0, b[i].0) && same_alias(a[i].1, b[i].1)
}

/// The expressions are the same but for where their tokens stand.
pub open spec fn same_expr(a: Expression, b: Expression) -> bool
    decreases a, 0nat,
{
    match (a, b) {
        (Expression::Value { id: i, value: v }, Expression::Value { id: j, value: w }) => i == j
            && same_token(v, w),
        (Expression::Var { id: i, name: v }, Expression::Var { id: j, name: w }) => i == j
            && same_token(v, w),
        (
            Expression::Unary { id: i, left: l, operator: o },
            Expression::Unary { id: j, left: m, operator: p },
        ) => i == j && same_expr(*l, *m) && same_token(o, p),
        (
            Expression::Binary { id: i, left: l, operator: o, right: r },
            Expression::Binary { id: j, left: m, operator: p, right: s },
        ) => i == j && same_expr(*l, *m) && same_token(o, p) && same_expr(*r, *s),
        (
            Expression::Grouping { id: i, expression: l },
            Expression::Grouping { id: j, expression: m },
        ) => i == j && same_expr(*l, *m),
        (
            Expression::Call { id: i, name: l, args: x },
            Expression::Call { id: j, name: m, args: y },
        ) => i == j && same_expr(*l, *m) && same_exprs(x@, y@),
        (
            Expression::Method { id: i, left: l, name: v, args: x },
            Expression::Method { id: j, left: m, name: w, args: y },
        ) => i == j && same_expr(*l, *m) && same_token(v, w) && same_exprs(x@, y@),
        (
            Expression::Assign { id: i, name: v, value: l },
            Expression::Assign { id: j, name: w, value: m },
        ) => i == j && same_token(v, w) && same_expr(*l, *m),
        (Expression::Array { id: i, items: x }, Expression::Array { id: j, items: y }) => i == j
            && same_exprs(x@, y@),
        (Expression::Object { id: i, fields: x }, Expression::Object { id: j, fields: y }) => i
            == j && same_fields(x@, y@),
        (
            Expression::Func {
                id: i,
                name: v,
                value_type: t,
                body: c,
                params: x,
                is_async: f1,
                is_pub: f2,
            },
            Expression::Func {
                id: j,
                name: w,
                value_type: u,
                body: d,
                params: y,
                is_async: g1,
                is_pub: g2,
            },
        ) => i == j && same_token(v, w) && same_token(t, u) && same_body(c, d) && same_params(
            x@,
            y@,
        ) && f1 == g1 && f2 == g2,
        (Expression::Await { id: i, expr: l }, Expression::Await { id: j, expr: m }) => i == j
            && same_expr(*l, *m),
        _ => false,
    }
}

/// The expressions of two lists are the same but for where their tokens
/// stand.
pub open spec fn same_exprs(a: Seq<Expression>, b: Seq<Expression>) -> bool
    decreases a, 1nat,
{
    a.len() == b.len() && forall|i: int| 0 <= i < a.len() ==> same_expr(#[trigger] a[i], b[i])
}

/// The fields of two objects are the same but for where their tokens
/// stand.
pub open spec fn same_fields(a: Seq<(Token, Expression)>, b: Seq<(Token, Expression)>) -> bool
    decreases a, 1nat,
{
    a.len() == b.len() && forall|i: int|
        0 <= i < a.len() ==> same_token((#[trigger] a[i]).0, b[i].0) && same_expr(a[i].1, b[i].1)
}

/// The bodies are the same but for where their tokens stand.
pub open spec fn same_body(a: FuncBody, b: FuncBody) -> bool
    decreases a, 0nat,
{
    match (a, b) {
        (FuncBody::Statements(x), FuncBody::Statements(y)) => same_stmts(x@, y@),
        (FuncBody::Expression(x), FuncBody::Expression(y)) => same_expr(*x, *y),
        _ => false,
    }
}

/// Two initialisers that may be missing are the same but for where their
/// tokens stand.
pub open spec fn same_value(a: Option<Expression>, b: Option<Expression>) -> bool
    decreases a, 1nat,
{
    match (a, b) {
        (Some(x), Some(y)) => same_expr(x, y),
        (None, None) => true,
        _ => false,
    }
}

/// The `elif` arms of two lists are the same but for where their tokens
/// stand.
pub open spec fn same_arms(
    a: Seq<(Expression, Vec<Statement>)>,
    b: Seq<(Expression, Vec<Statement>)>,
) -> bool
    decreases a, 1nat,
{
    a.len() == b.len() && forall|i: int|
        0 <= i < a.len() ==> same_expr((#[trigger] a[i]).0, b[i].0) && same_stmts(a[i].1@, b[i].1@)
}

/// The cases of two `match` statements are the same but for where their
/// tokens stand.
pub open spec fn same_cases(a: Seq<(Expression, FuncBody)>, b: Seq<(Expression, FuncBody)>) -> bool
    decreases a, 1nat,
{
    a.len() == b.len() && forall|i: int|
        0 <= i < a.len() ==> same_expr((#[trigger] a[i]).0, b[i].0) && same_body(a[i].1, b[i].1)
}

/// The statements are the same but for where their tokens stand.
pub open spec fn same_stmt(a: Statement, b: Statement) -> bool
    decreases a, 0nat,
{
    match (a, b) {
        (Statement::Expression { expr: x }, Statement::Expression { expr: y }) => same_expr(x, y),
        (Statement::Block { stmts: x }, Statement::Block { stmts: y }) => same_stmts(x@, y@),
        (
            Statement::Var {
                names: n,
                value_type: t,
                value: v,
                is_mut: f1,
                is_pub: f2,
                pub_names: p,
                is_func: f3,
            },
            Statement::Var {
                names: m,
                value_type: u,
                value: w,
                is_mut: g1,
                is_pub: g2,
                pub_names: q,
                is_func: g3,
            },
        ) => same_tokens(n@, m@) && same_token(t, u) && same_value(v, w) && f1 == g1 && f2 == g2
            && same_tokens(p@, q@) && f3 == g3,
        (
            Statement::Func {
                name: v,
                value_type: t,
                body: c,
                params: x,
                is_async: f1,
                is_pub: f2,
                is_impl: f3,
                is_mut: f4,
            },
            Statement::Func {
                name: w,
                value_type: u,
                body: d,
                params: y,
                is_async: g1,
                is_pub: g2,
                is_impl: g3,
                is_mut: g4,
            },
        ) => same_token(v, w) && same_token(t, u) && same_body(c, d) && same_params(x@, y@) && f1
            == g1 && f2 == g2 && f3 == g3 && f4 == g4,
        (
            Statement::If { cond: c, body: x, else_branch: e, else_if_branches: r },
            Statement::If { cond: d, body: y, else_branch: f, else_if_branches: s },
        ) => same_expr(c, d) && same_stmts(x@, y@) && (match (e, f) {
            (Some(p), Some(q)) => same_stmts(p@, q@),
            (None, None) => true,
            _ => false,
        }) && same_arms(r@, s@),
        (Statement::Return { expr: x }, Statement::Return { expr: y }) => same_expr(x, y),
        (Statement::While { cond: c, body: x }, Statement::While { cond: d, body: y }) => same_expr(
            c,
            d,
        ) && same_stmts(x@, y@),
        (Statement::Loop { iter: i, body: x }, Statement::Loop { iter: j, body: y }) => i == j
            && same_stmts(x@, y@),
        (Statement::Break {  }, Statement::Break {  }) => true,
        (
            Statement::Match { cond: c, def_case: x, cases: r },
            Statement::Match { cond: d, def_case: y, cases: s },
        ) => same_expr(c, d) && same_body(x, y) && same_cases(r@, s@),
        (Statement::Mod { src: x }, Statement::Mod { src: y }) => x@ == y@,
        (
            Statement::Use { src: x, names: n, all: f1 },
            Statement::Use { src: y, names: m, all: g1 },
        ) => x@ == y@ && same_uses(n@, m@) && f1 == g1,
        (Statement::Struct { name: v, is_pub: f1 }, Statement::Struct { name: w, is_pub: g1 }) => {
            same_token(v, w) && f1 == g1
        },
        (Statement::Impl { name: v, body: x }, Statement::Impl { name: w, body: y }) => same_token(
            v,
            w,
        ) && same_stmts(x@, y@),
        (
            Statement::Enum { name: v, enums: n, is_pub: f1 },
            Statement::Enum { name: w, enums: m, is_pub: g1 },
        ) => same_token(v, w) && same_uses(n@, m@) && f1 == g1,
        _ => false,
    }
}

/// The statements of two lists are the same but for where their tokens
/// stand.
pub open spec fn same_stmts(a: Seq<Statement>, b: Seq<Statement>) -> bool
    decreases a, 1nat,
{
    a.len() == b.len() && forall|i: int| 0 <= i < a.len() ==> same_stmt(#[trigger] a[i], b[i])
}

/// The outcomes are alike: the same table, or failures of the same code
/// with the same arguments. Only where a failure points may differ.
pub open spec fn alike(a: Result<Table, Failure>, b: Result<Table, Failure>) -> bool {
    match (a, b) {
        (Ok(x), Ok(y)) => x == y,
        (Err(x), Err(y)) => x.code == y.code && x.args == y.args,
        _ => false,
    }
}

/// Introducing a name does not look at where its token stands.
pub proof fn lemma_introduce_alike(t: Table, a: Token, b: Token)
    requires
        same_token(a, b),
    ensures
        alike(declare(t, a), declare(t, b)),
        define(t, a) == define(t, b),
        alike(introduce(t, a), introduce(t, b)),
{
}

/// Introducing parameters does not look at where their tokens stand.
pub proof fn lemma_introduce_params_alike(
    t: Table,
    a: Seq<(Token, Token)>,
    b: Seq<(Token, Token)>,
    from: int,
)
    requires
        same_params(a, b),
    ensures
        alike(introduce_params(t, a, from), introduce_params(t, b, from)),
    decreases a.len() - from,
{
    if 0 <= from < a.len() {
        assert(same_token(a[from].0, b[from].0));
        lemma_introduce_alike(t, a[from].0, b[from].0);
        match introduce(t, a[from].0) {
            Ok(t1) => {
                lemma_introduce_params_alike(t1, a, b, from + 1);
            },
            Err(_) => {},
        }
    }
}

/// Introducing imported names does not look at where their tokens stand.
pub proof fn lemma_introduce_uses_alike(
    t: Table,
    a: Seq<(Token, Option<Token>)>,
    b: Seq<(Token, Option<Token>)>,
    from: int,
)
    requires
        same_uses(a, b),
    ensures
        alike(introduce_uses(t, a, from), introduce_uses(t, b, from)),
    decreases a.len() - from,
{
    if 0 <= from < a.len() {
        assert(same_token(a[from].0, b[from].0) && same_alias(a[from].1, b[from].1));
        let x = match a[from].1 {
            Some(alias) => alias,
            None => a[from].0,
        };
        let y = match b[from].1 {
            Some(alias) => alias,
            None => b[from].0,
        };
        lemma_introduce_alike(t, x, y);
        match introduce(t, x) {
            Ok(t1) => {
                lemma_introduce_uses_alike(t1, a, b, from + 1);
            },
            Err(_) => {},
        }
    }
}

/// The walk over an expression does not look at where its tokens stand.
pub proof fn lemma_walk_expr_alike(t: Table, a: Expression, b: Expression)
    requires
        same_expr(a, b),
    ensures
        alike(walk_expr(t, a), walk_expr(t, b)),
    decreases a, 0nat,
{
    match (a, b) {
        (Expression::Object { fields: x, .. }, Expression::Object { fields: y, .. }) => {
            lemma_walk_fields_alike(t, x@, y@, 0);
        },
        (Expression::Method { args: x, .. }, Expression::Method { args: y, .. }) => {
            lemma_walk_exprs_alike(t, x@, y@, 0);
        },
        (Expression::Assign { value: l, .. }, Expression::Assign { value: m, .. }) => {
            lemma_walk_expr_alike(t, *l, *m);
        },
        (Expression::Array { items: x, .. }, Expression::Array { items: y, .. }) => {
            lemma_walk_exprs_alike(t, x@, y@, 0);
        },
        (Expression::Var { .. }, Expression::Var { .. }) => {
            assert(alike(refer_expr(t, a), refer_expr(t, b)));
        },
        (
            Expression::Call { name: l, args: x, .. },
            Expression::Call { name: m, args: y, .. },
        ) => {
            lemma_walk_expr_alike(t, *l, *m);
            match walk_expr(t, *l) {
                Ok(t1) => {
                    lemma_walk_exprs_alike(t1, x@, y@, 0);
                },
                Err(_) => {},
            }
        },
        (
            Expression::Func { body: c, params: x, .. },
            Expression::Func { body: d, params: y, .. },
        ) => {
            lemma_walk_function_alike(t, c, d, x@, y@, false);
        },
        (Expression::Await { expr: l, .. }, Expression::Await { expr: m, .. }) => {
            lemma_walk_expr_alike(t, *l, *m);
        },
        (Expression::Unary { left: l, .. }, Expression::Unary { left: m, .. }) => {
            lemma_walk_expr_alike(t, *l, *m);
        },
        (
            Expression::Binary { left: l, right: r, .. },
            Expression::Binary { left: m, right: s, .. },
        ) => {
            lemma_walk_expr_alike(t, *l, *m);
            match walk_expr(t, *l) {
                Ok(t1) => {
                    lemma_walk_expr_alike(t1, *r, *s);
                },
                Err(_) => {},
            }
        },
        (
            Expression::Grouping { expression: l, .. },
            Expression::Grouping { expression: m, .. },
        ) => {
            lemma_walk_expr_alike(t, *l, *m);
        },
        _ => {},
    }
}

/// The walk over expressions does not look at where their tokens stand.
pub proof fn lemma_walk_exprs_alike(t: Table, a: Seq<Expression>, b: Seq<Expression>, from: int)
    requires
        same_exprs(a, b),
    ensures
        alike(walk_exprs(t, a, from), walk_exprs(t, b, from)),
    decreases a, a.len() - from,
{
    if 0 <= from < a.len() {
        assert(same_expr(a[from], b[from]));
        lemma_walk_expr_alike(t, a[from], b[from]);
        match walk_expr(t, a[from]) {
            Ok(t1) => {
                lemma_walk_exprs_alike(t1, a, b, from + 1);
            },
            Err(_) => {},
        }
    }
}

/// The walk over the fields of an object does not look at where their
/// tokens stand.
pub proof fn lemma_walk_fields_alike(
    t: Table,
    a: Seq<(Token, Expression)>,
    b: Seq<(Token, Expression)>,
    from: int,
)
    requires
        same_fields(a, b),
    ensures
        alike(walk_fields(t, a, from), walk_fields(t, b, from)),
    decreases a, a.len() - from,
{
    if 0 <= from < a.len() {
        assert(same_expr(a[from].1, b[from].1));
        lemma_walk_expr_alike(t, a[from].1, b[from].1);
        match walk_expr(t, a[from].1) {
            Ok(t1) => {
                lemma_walk_fields_alike(t1, a, b, from + 1);
            },
            Err(_) => {},
        }
    }
}

/// The walk over a body does not look at where its tokens stand.
pub proof fn lemma_walk_body_alike(t: Table, a: FuncBody, b: FuncBody)
    requires
        same_body(a, b),
    ensures
        alike(walk_body(t, a), walk_body(t, b)),
    decreases a, 0nat,
{
    match (a, b) {
        (FuncBody::Statements(x), FuncBody::Statements(y)) => {
            lemma_walk_stmts_alike(t, x@, y@, 0);
        },
        (FuncBody::Expression(x), FuncBody::Expression(y)) => {
            lemma_walk_expr_alike(t, *x, *y);
        },
        _ => {},
    }
}

/// The walk over a function or a lambda does not look at where its tokens
/// stand.
pub proof fn lemma_walk_function_alike(
    t: Table,
    a: FuncBody,
    b: FuncBody,
    x: Seq<(Token, Token)>,
    y: Seq<(Token, Token)>,
    strict: bool,
)
    requires
        same_body(a, b),
        same_params(x, y),
    ensures
        alike(walk_function(t, a, x, strict), walk_function(t, b, y, strict)),
    decreases a, 1nat,
{
    let t0 = opened(with_func(t, true));
    lemma_introduce_params_alike(t0, x, y, 0);
    match introduce_params(t0, x, 0) {
        Ok(t1) => {
            lemma_walk_body_alike(t1, a, b);
        },
        Err(_) => {},
    }
}

/// The walk over statements in a scope of their own does not look at where
/// their tokens stand.
pub proof fn lemma_walk_scoped_alike(t: Table, a: Seq<Statement>, b: Seq<Statement>)
    requires
        same_stmts(a, b),
    ensures
        alike(walk_scoped(t, a), walk_scoped(t, b)),
    decreases a, a.len() + 1,
{
    lemma_walk_stmts_alike(opened(t), a, b, 0);
}

/// The walk over a `var` declaration does not look at where its tokens
/// stand.
pub proof fn lemma_walk_var_alike(
    t: Table,
    a: Seq<Token>,
    b: Seq<Token>,
    v: Option<Expression>,
    w: Option<Expression>,
    from: int,
)
    requires
        same_tokens(a, b),
        same_value(v, w),
    ensures
        alike(walk_var(t, a, v, from), walk_var(t, b, w, from)),
    decreases v, a.len() - from,
{
    if 0 <= from < a.len() {
        assert(same_token(a[from], b[from]));
        lemma_introduce_alike(t, a[from], b[from]);
        match declare(t, a[from]) {
            Ok(t1) => {
                match (v, w) {
                    (Some(x), Some(y)) => {
                        lemma_walk_expr_alike(t1, x, y);
                    },
                    _ => {},
                }
                let walked = match v {
                    Some(x) => walk_expr(t1, x),
                    None => Ok(t1),
                };
                match walked {
                    Ok(t2) => {
                        lemma_introduce_alike(t2, a[from], b[from]);
                        lemma_walk_var_alike(define(t2, a[from]), a, b, v, w, from + 1);
                    },
                    Err(_) => {},
                }
            },
            Err(_) => {},
        }
    }
}

/// The walk over `elif` arms does not look at where their tokens stand.
pub proof fn lemma_walk_arms_alike(
    t: Table,
    a: Seq<(Expression, Vec<Statement>)>,
    b: Seq<(Expression, Vec<Statement>)>,
    from: int,
)
    requires
        same_arms(a, b),
    ensures
        alike(walk_arms(t, a, from), walk_arms(t, b, from)),
    decreases a, a.len() - from,
{
    if 0 <= from < a.len() {
        assert(same_expr(a[from].0, b[from].0) && same_stmts(a[from].1@, b[from].1@));
        lemma_walk_expr_alike(t, a[from].0, b[from].0);
        match walk_expr(t, a[from].0) {
            Ok(t1) => {
                lemma_walk_scoped_alike(t1, a[from].1@, b[from].1@);
                match walk_scoped(t1, a[from].1@) {
                    Ok(t2) => {
                        lemma_walk_arms_alike(t2, a, b, from + 1);
                    },
                    Err(_) => {},
                }
            },
            Err(_) => {},
        }
    }
}

/// The walk over a `match` case does not look at where its tokens stand.
pub proof fn lemma_walk_case_alike(t: Table, a: (Expression, FuncBody), b: (Expression, FuncBody))
    requires
        same_expr(a.0, b.0),
        same_body(a.1, b.1),
    ensures
        alike(walk_case(t, a), walk_case(t, b)),
    decreases a, 0nat,
{
    lemma_walk_expr_alike(opened(t), a.0, b.0);
    match walk_expr(opened(t), a.0) {
        Ok(t1) => {
            lemma_walk_body_alike(t1, a.1, b.1);
        },
        Err(_) => {},
    }
}

/// The walk over the default case of a `match` does not look at where its
/// tokens stand.
pub proof fn lemma_walk_default_alike(t: Table, a: FuncBody, b: FuncBody)
    requires
        same_body(a, b),
    ensures
        alike(walk_default(t, a), walk_default(t, b)),
    decreases a, 1nat,
{
    lemma_walk_body_alike(opened(t), a, b);
}

/// The walk over the cases of a `match` does not look at where their
/// tokens stand.
pub proof fn lemma_walk_cases_alike(
    t: Table,
    a: Seq<(Expression, FuncBody)>,
    b: Seq<(Expression, FuncBody)>,
    from: int,
)
    requires
        same_cases(a, b),
    ensures
        alike(walk_cases(t, a, from), walk_cases(t, b, from)),
    decreases a, a.len() - from,
{
    if 0 <= from < a.len() {
        assert(same_expr(a[from].0, b[from].0) && same_body(a[from].1, b[from].1));
        lemma_walk_case_alike(t, a[from], b[from]);
        match walk_case(t, a[from]) {
            Ok(t1) => {
                lemma_walk_cases_alike(t1, a, b, from + 1);
            },
            Err(_) => {},
        }
    }
}

/// The walk over a statement does not look at where its tokens stand.
pub proof fn lemma_walk_stmt_alike(t: Table, a: Statement, b: Statement)
    requires
        same_stmt(a, b),
    ensures
        alike(walk_stmt(t, a), walk_stmt(t, b)),
    decreases a, 0nat,
{
    match (a, b) {
        (
            Statement::If { cond: c, body: x, else_branch: e, else_if_branches: r },
            Statement::If { cond: d, body: y, else_branch: f, else_if_branches: s },
        ) => {
            lemma_walk_expr_alike(t, c, d);
            match walk_expr(t, c) {
                Ok(t1) => {
                    lemma_walk_scoped_alike(t1, x@, y@);
                    match walk_scoped(t1, x@) {
                        Ok(t2) => {
                            lemma_walk_arms_alike(t2, r@, s@, 0);
                            match (walk_arms(t2, r@, 0), e, f) {
                                (Ok(t3), Some(p), Some(q)) => {
                                    lemma_walk_scoped_alike(t3, p@, q@);
                                },
                                _ => {},
                            }
                        },
                        Err(_) => {},
                    }
                },
                Err(_) => {},
            }
        },
        (Statement::Block { stmts: x }, Statement::Block { stmts: y }) => {
            lemma_walk_scoped_alike(t, x@, y@);
        },
        (Statement::Enum { name: v, .. }, Statement::Enum { name: w, .. }) => {
            lemma_introduce_alike(t, v, w);
        },
        (Statement::Expression { expr: x }, Statement::Expression { expr: y }) => {
            lemma_walk_expr_alike(t, x, y);
        },
        (
            Statement::Func { body: c, params: x, .. },
            Statement::Func { body: d, params: y, .. },
        ) => {
            lemma_walk_function_alike(t, c, d, x@, y@, true);
        },
        (Statement::Loop { body: x, .. }, Statement::Loop { body: y, .. }) => {
            lemma_walk_stmts_alike(with_loop(opened(t), true), x@, y@, 0);
        },
        (
            Statement::Match { cond: c, def_case: x, cases: r },
            Statement::Match { cond: d, def_case: y, cases: s },
        ) => {
            lemma_walk_expr_alike(t, c, d);
            match walk_expr(t, c) {
                Ok(t1) => {
                    lemma_walk_cases_alike(t1, r@, s@, 0);
                    match walk_cases(t1, r@, 0) {
                        Ok(t2) => {
                            lemma_walk_default_alike(t2, x, y);
                        },
                        Err(_) => {},
                    }
                },
                Err(_) => {},
            }
        },
        (Statement::Return { expr: x }, Statement::Return { expr: y }) => {
            lemma_walk_expr_alike(t, x, y);
        },
        (Statement::Use { names: n, .. }, Statement::Use { names: m, .. }) => {
            lemma_introduce_uses_alike(t, n@, m@, 0);
        },
        (
            Statement::Var { names: n, value: v, .. },
            Statement::Var { names: m, value: w, .. },
        ) => {
            lemma_walk_var_alike(t, n@, m@, v, w, 0);
        },
        (Statement::While { cond: c, body: x }, Statement::While { cond: d, body: y }) => {
            lemma_walk_expr_alike(t, c, d);
            match walk_expr(t, c) {
                Ok(t1) => {
                    lemma_walk_stmts_alike(with_loop(t1, true), x@, y@, 0);
                },
                Err(_) => {},
            }
        },
        _ => {},
    }
}

/// The walk over statements does not look at where their tokens stand: two
/// programs that are the same but for the lines and places of their tokens
/// resolve to the same table, or fail with the same code and the same
/// arguments.
pub proof fn lemma_walk_stmts_alike(t: Table, a: Seq<Statement>, b: Seq<Statement>, from: int)
    requires
        same_stmts(a, b),
    ensures
        alike(walk_stmts(t, a, from), walk_stmts(t, b, from)),
    decreases a, a.len() - from,
{
    if 0 <= from < a.len() {
        assert(same_stmt(a[from], b[from]));
        lemma_walk_stmt_alike(t, a[from], b[from]);
        match walk_stmt(t, a[from]) {
            Ok(t1) => {
                lemma_walk_stmts_alike(t1, a, b, from + 1);
            },
            Err(_) => {},
        }
    }
}

} // verus!
