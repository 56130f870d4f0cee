//! The resolver: a walk over the statements before they run. It checks that
//! names are declared once per scope and not read while they are being
//! declared, that `return` stands in a function and `break` in a loop, and
//! it records for each variable read how many scopes lie between the read
//! and the declaration.

use vstd::prelude::*;
use vstd::string::StringExecFns;
use std::collections::HashMap;
use crate::ast::{Expression, FuncBody, Statement};
use crate::errors::{Error, ErrorCode, Failure, told, unplaced};
use crate::token::{Token, at};

verus! {

/// A name in a scope, and whether its declaration is complete.
pub type Entry = (Seq<char>, bool);

/// The state of a resolver.
pub struct Table {
    /// For the identity of a variable read: how many scopes to skip.
    pub locals: Map<usize, usize>,
    /// The open scopes, the innermost last. No scope holds a name twice
    /// (`neat`).
    pub scopes: Seq<Seq<Entry>>,
    /// Whether the walk is inside a function.
    pub in_func: bool,
    /// Whether the walk is inside a loop.
    pub in_loop: bool,
}

/// The first place at or behind `from` where `entries` holds `name`.
pub open spec fn place(entries: Seq<Entry>, name: Seq<char>, from: int) -> Option<int>
    decreases entries.len() - from,
{
    if from < 0 || from >= entries.len() {
        None
    } else if entries[from].0 == name {
        Some(from)
    } else {
        place(entries, name, from + 1)
    }
}

/// `entries` with `name` marked: in its place, or behind the others where
/// the name is new.
pub open spec fn mark(entries: Seq<Entry>, name: Seq<char>, defined: bool) -> Seq<Entry> {
    match place(entries, name, 0) {
        Some(i) => entries.update(i, (name, defined)),
        None => entries.push((name, defined)),
    }
}

/// `t` with other scopes.
pub open spec fn with_scopes(t: Table, scopes: Seq<Seq<Entry>>) -> Table {
    Table { locals: t.locals, scopes, in_func: t.in_func, in_loop: t.in_loop }
}

/// `t` with the function flag set to `b`.
pub open spec fn with_func(t: Table, b: bool) -> Table {
    Table { locals: t.locals, scopes: t.scopes, in_func: b, in_loop: t.in_loop }
}

/// `t` with the loop flag set to `b`.
pub open spec fn with_loop(t: Table, b: bool) -> Table {
    Table { locals: t.locals, scopes: t.scopes, in_func: t.in_func, in_loop: b }
}

/// `t` with `name` marked in the innermost scope. Outside every scope
/// nothing is recorded.
pub open spec fn marked(t: Table, name: Seq<char>, defined: bool) -> Table {
    if t.scopes.len() == 0 {
        t
    } else {
        with_scopes(
            t,
            t.scopes.update(t.scopes.len() - 1, mark(t.scopes.last(), name, defined)),
        )
    }
}

/// The failure of a second declaration of `name`.
pub open spec fn duplicate(name: Token) -> Failure {
    told(at(name, ErrorCode::E0x307), seq![name.lexeme@])
}

/// The failure of something that stands where `what` was expected.
pub open spec fn expected(what: Seq<char>) -> Failure {
    told(unplaced(ErrorCode::E0x306), seq![what])
}

/// Declares `name`: it enters the innermost scope as not yet defined. A
/// name that the scope already holds is a duplicate (`E0x307`).
pub open spec fn declare(t: Table, name: Token) -> Result<Table, Failure> {
    if t.scopes.len() > 0 && place(t.scopes.last(), name.lexeme@, 0) is Some {
        Err(duplicate(name))
    } else {
        Ok(marked(t, name.lexeme@, false))
    }
}

/// Completes the declaration of `name`.
pub open spec fn define(t: Table, name: Token) -> Table {
    marked(t, name.lexeme@, true)
}

/// Declares `name` and completes the declaration at once.
pub open spec fn introduce(t: Table, name: Token) -> Result<Table, Failure> {
    match declare(t, name) {
        Ok(t1) => Ok(define(t1, name)),
        Err(x) => Err(x),
    }
}

/// `t` with a fresh scope opened.
pub open spec fn opened(t: Table) -> Table {
    with_scopes(t, t.scopes.push(Seq::empty()))
}

/// `t` with the innermost scope closed. There must be one (`E0x308`).
pub open spec fn closed(t: Table) -> Result<Table, Failure> {
    if t.scopes.len() == 0 {
        Err(unplaced(ErrorCode::E0x308))
    } else {
        Ok(with_scopes(t, t.scopes.drop_last()))
    }
}

/// How many scopes, counted from the innermost and starting at `depth`,
/// must be skipped to reach one that holds `name`.
pub open spec fn distance(scopes: Seq<Seq<Entry>>, name: Seq<char>, depth: int) -> Option<int>
    decreases scopes.len() - depth,
{
    if depth < 0 || depth >= scopes.len() {
        None
    } else if place(scopes[scopes.len() - 1 - depth], name, 0) is Some {
        Some(depth)
    } else {
        distance(scopes, name, depth + 1)
    }
}

/// Records the distance of `name` for the expression `id`. A name that no
/// scope holds is global, and nothing is recorded.
pub open spec fn note(t: Table, name: Token, id: usize) -> Table {
    match distance(t.scopes, name.lexeme@, 0) {
        Some(d) => Table {
            locals: t.locals.insert(id, d as usize),
            scopes: t.scopes,
            in_func: t.in_func,
            in_loop: t.in_loop,
        },
        None => t,
    }
}

/// Whether `name` stands in the innermost scope as declared but not yet
/// defined.
pub open spec fn pending(t: Table, name: Seq<char>) -> bool {
    t.scopes.len() > 0 && match place(t.scopes.last(), name, 0) {
        Some(i) => !t.scopes.last()[i].1,
        None => false,
    }
}

/// A read of the variable `name` by the expression `id`: an error while the
/// name is being declared in the innermost scope (`E0x306`), else its
/// distance is recorded.
pub open spec fn refer(t: Table, name: Token, id: usize) -> Result<Table, Failure> {
    if pending(t, name.lexeme@) {
        Err(told(at(name, ErrorCode::E0x306), seq!["a local variable"@]))
    } else {
        Ok(note(t, name, id))
    }
}

/// What a variable expression asks of the resolver. A read is checked and
/// recorded. A call of a variable records the distance of the callee under
/// the identity of the call. Nothing else is a variable (`E0x306`).
pub open spec fn refer_expr(t: Table, e: Expression) -> Result<Table, Failure> {
    match e {
        Expression::Var { id, name } => refer(t, name, id),
        Expression::Call { id, name, .. } => match *name {
            Expression::Var { name, .. } => Ok(note(t, name, id)),
            _ => Err(expected("a variable"@)),
        },
        _ => Err(expected("a variable"@)),
    }
}

/// Introduces the parameters `params[from..]`.
pub open spec fn introduce_params(t: Table, params: Seq<(Token, Token)>, from: int) -> Result<
    Table,
    Failure,
>
    decreases params.len() - from,
{
    if from < 0 || from >= params.len() {
        Ok(t)
    } else {
        match introduce(t, params[from].0) {
            Ok(t1) => introduce_params(t1, params, from + 1),
            Err(x) => Err(x),
        }
    }
}

/// Introduces the imported names `names[from..]`, each under its alias
/// where it has one.
pub open spec fn introduce_uses(t: Table, names: Seq<(Token, Option<Token>)>, from: int) -> Result<
    Table,
    Failure,
>
    decreases names.len() - from,
{
    if from < 0 || from >= names.len() {
        Ok(t)
    } else {
        let name = match names[from].1 {
            Some(alias) => alias,
            None => names[from].0,
        };
        match introduce(t, name) {
            Ok(t1) => introduce_uses(t1, names, from + 1),
            Err(x) => Err(x),
        }
    }
}

/// The walk over an expression.
pub open spec fn walk_expr(t: Table, e: Expression) -> Result<Table, Failure>
    decreases e, 0nat,
{
    match e {
        Expression::Object { fields, .. } => walk_fields(t, fields@, 0),
        Expression::Method { args, .. } => walk_exprs(t, args@, 0),
        Expression::Assign { value, .. } => walk_expr(t, *value),
        Expression::Array { items, .. } => walk_exprs(t, items@, 0),
        Expression::Var { .. } => refer_expr(t, e),
        Expression::Call { name, args, .. } => match walk_expr(t, *name) {
            Ok(t1) => walk_exprs(t1, args@, 0),
            Err(x) => Err(x),
        },
        Expression::Func { body, params, .. } => walk_function(t, body, params@, false),
        Expression::Await { expr, .. } => walk_expr(t, *expr),
        Expression::Unary { left, .. } => walk_expr(t, *left),
        Expression::Value { .. } => Ok(t),
        Expression::Binary { left, right, .. } => match walk_expr(t, *left) {
            Ok(t1) => walk_expr(t1, *right),
            Err(x) => Err(x),
        },
        Expression::Grouping { expression, .. } => walk_expr(t, *expression),
    }
}

/// The walk over `items[from..]`, in order.
pub open spec fn walk_exprs(t: Table, items: Seq<Expression>, from: int) -> Result<Table, Failure>
    decreases items, items.len() - from,
{
    if from < 0 || from >= items.len() {
        Ok(t)
    } else {
        match walk_expr(t, items[from]) {
            Ok(t1) => walk_exprs(t1, items, from + 1),
            Err(x) => Err(x),
        }
    }
}

/// The walk over the values of `fields[from..]`, in order.
pub open spec fn walk_fields(t: Table, fields: Seq<(Token, Expression)>, from: int) -> Result<
    Table,
    Failure,
>
    decreases fields, fields.len() - from,
{
    if from < 0 || from >= fields.len() {
        Ok(t)
    } else {
        match walk_expr(t, fields[from].1) {
            Ok(t1) => walk_fields(t1, fields, from + 1),
            Err(x) => Err(x),
        }
    }
}

/// The walk over a body: its statements, or its one expression.
pub open spec fn walk_body(t: Table, body: FuncBody) -> Result<Table, Failure>
    decreases body, 0nat,
{
    match body {
        FuncBody::Statements(stmts) => walk_stmts(t, stmts@, 0),
        FuncBody::Expression(e) => walk_expr(t, *e),
    }
}

/// The walk over a function or a lambda: inside a fresh scope that holds the
/// parameters, and with the function flag set, the body is walked; then the
/// scope is closed and the flag is what it was. A declared function
/// (`strict`) must have statements for its body (`E0x305`).
pub open spec fn walk_function(t: Table, body: FuncBody, params: Seq<(Token, Token)>, strict: bool) -> Result<
    Table,
    Failure,
>
    decreases body, 1nat,
{
    match introduce_params(opened(with_func(t, true)), params, 0) {
        Ok(t1) => {
            if strict && body is Expression {
                Err(unplaced(ErrorCode::E0x305))
            } else {
                match walk_body(t1, body) {
                    Ok(t2) => match closed(t2) {
                        Ok(t3) => Ok(with_func(t3, t.in_func)),
                        Err(x) => Err(x),
                    },
                    Err(x) => Err(x),
                }
            }
        },
        Err(x) => Err(x),
    }
}

/// The walk over `stmts[from..]` inside a scope of their own.
pub open spec fn walk_scoped(t: Table, stmts: Seq<Statement>) -> Result<Table, Failure>
    decreases stmts, stmts.len() + 1,
{
    match walk_stmts(opened(t), stmts, 0) {
        Ok(t1) => closed(t1),
        Err(x) => Err(x),
    }
}

/// The walk over a `var` declaration, name by name from `names[from..]`:
/// the name is declared, the initialiser is walked, the name is defined.
pub open spec fn walk_var(t: Table, names: Seq<Token>, value: Option<Expression>, from: int) -> Result<
    Table,
    Failure,
>
    decreases value, names.len() - from,
{
    if from < 0 || from >= names.len() {
        Ok(t)
    } else {
        match declare(t, names[from]) {
            Ok(t1) => {
                let walked = match value {
                    Some(v) => walk_expr(t1, v),
                    None => Ok(t1),
                };
                match walked {
                    Ok(t2) => walk_var(define(t2, names[from]), names, value, from + 1),
                    Err(x) => Err(x),
                }
            },
            Err(x) => Err(x),
        }
    }
}

/// The walk over the `elif` arms `arms[from..]`: each condition, then its
/// body in a scope of its own.
pub open spec fn walk_arms(t: Table, arms: Seq<(Expression, Vec<Statement>)>, from: int) -> Result<
    Table,
    Failure,
>
    decreases arms, arms.len() - from,
{
    if from < 0 || from >= arms.len() {
        Ok(t)
    } else {
        match walk_expr(t, arms[from].0) {
            Ok(t1) => match walk_scoped(t1, arms[from].1@) {
                Ok(t2) => walk_arms(t2, arms, from + 1),
                Err(x) => Err(x),
            },
            Err(x) => Err(x),
        }
    }
}

/// The walk over one `match` case: in a scope of its own, the case
/// expression, then the body.
pub open spec fn walk_case(t: Table, arm: (Expression, FuncBody)) -> Result<Table, Failure>
    decreases arm, 0nat,
{
    match walk_expr(opened(t), arm.0) {
        Ok(t1) => match walk_body(t1, arm.1) {
            Ok(t2) => closed(t2),
            Err(x) => Err(x),
        },
        Err(x) => Err(x),
    }
}

/// The walk over the default case of a `match`: the body, in a scope of its
/// own.
pub open spec fn walk_default(t: Table, body: FuncBody) -> Result<Table, Failure>
    decreases body, 1nat,
{
    match walk_body(opened(t), body) {
        Ok(t1) => closed(t1),
        Err(x) => Err(x),
    }
}

/// The walk over the cases `cases[from..]` of a `match`.
pub open spec fn walk_cases(t: Table, cases: Seq<(Expression, FuncBody)>, from: int) -> Result<
    Table,
    Failure,
>
    decreases cases, cases.len() - from,
{
    if from < 0 || from >= cases.len() {
        Ok(t)
    } else {
        match walk_case(t, cases[from]) {
            Ok(t1) => walk_cases(t1, cases, from + 1),
            Err(x) => Err(x),
        }
    }
}

/// The walk over one statement.
pub open spec fn walk_stmt(t: Table, stmt: Statement) -> Result<Table, Failure>
    decreases stmt, 0nat,
{
    match stmt {
        Statement::If { cond, body, else_branch, else_if_branches } => match walk_expr(t, cond) {
            Ok(t1) => match walk_scoped(t1, body@) {
                Ok(t2) => match walk_arms(t2, else_if_branches@, 0) {
                    Ok(t3) => match else_branch {
                        Some(b) => walk_scoped(t3, b@),
                        None => Ok(t3),
                    },
                    Err(x) => Err(x),
                },
                Err(x) => Err(x),
            },
            Err(x) => Err(x),
        },
        Statement::Block { stmts } => walk_scoped(t, stmts@),
        Statement::Break {  } => {
            if t.in_loop {
                Ok(t)
            } else {
                Err(unplaced(ErrorCode::E0x302))
            }
        },
        Statement::Enum { name, .. } => introduce(t, name),
        Statement::Expression { expr } => walk_expr(t, expr),
        Statement::Func { body, params, .. } => walk_function(t, body, params@, true),
        Statement::Loop { body, .. } => match walk_stmts(with_loop(opened(t), true), body@, 0) {
            Ok(t1) => closed(with_loop(t1, t.in_loop)),
            Err(x) => Err(x),
        },
        Statement::Match { cond, def_case, cases } => match walk_expr(t, cond) {
            Ok(t1) => match walk_cases(t1, cases@, 0) {
                Ok(t2) => walk_default(t2, def_case),
                Err(x) => Err(x),
            },
            Err(x) => Err(x),
        },
        Statement::Return { expr } => {
            if t.in_func {
                walk_expr(t, expr)
            } else {
                Err(unplaced(ErrorCode::E0x303))
            }
        },
        Statement::Use { names, .. } => introduce_uses(t, names@, 0),
        Statement::Var { names, value, .. } => walk_var(t, names@, value, 0),
        Statement::While { cond, body } => match walk_expr(t, cond) {
            Ok(t1) => match walk_stmts(with_loop(t1, true), body@, 0) {
                Ok(t2) => Ok(with_loop(t2, t.in_loop)),
                Err(x) => Err(x),
            },
            Err(x) => Err(x),
        },
        _ => Ok(t),
    }
}

/// The walk over `stmts[from..]`, in order.
pub open spec fn walk_stmts(t: Table, stmts: Seq<Statement>, from: int) -> Result<Table, Failure>
    decreases stmts, stmts.len() - from,
{
    if from < 0 || from >= stmts.len() {
        Ok(t)
    } else {
        match walk_stmt(t, stmts[from]) {
            Ok(t1) => walk_stmts(t1, stmts, from + 1),
            Err(x) => Err(x),
        }
    }
}

/// A name that stands in a scope is found there.
pub proof fn lemma_place_finds(entries: Seq<Entry>, name: Seq<char>, from: int, at: int)
    requires
        0 <= from <= at < entries.len(),
        entries[at].0 == name,
    ensures
        place(entries, name, from) is Some,
    decreases at - from,
{
    if entries[from].0 != name {
        lemma_place_finds(entries, name, from + 1, at);
    }
}

/// What `place` finds holds the name.
pub proof fn lemma_place_found(entries: Seq<Entry>, name: Seq<char>, from: int)
    ensures
        place(entries, name, from) matches Some(i) ==> from <= i < entries.len() && entries[i].0
            == name,
    decreases entries.len() - from,
{
    if !(from < 0 || from >= entries.len()) && entries[from].0 != name {
        lemma_place_found(entries, name, from + 1);
    }
}

/// A name that was marked stands in the scope, with its mark.
pub proof fn lemma_marked_is_found(entries: Seq<Entry>, name: Seq<char>, defined: bool)
    ensures
        place(mark(entries, name, defined), name, 0) matches Some(i) && mark(
            entries,
            name,
            defined,
        )[i] == (name, defined),
{
    lemma_place_found(entries, name, 0);
    let after = mark(entries, name, defined);
    lemma_place_found(after, name, 0);
    lemma_place_first(entries, name, 0);
    lemma_place_first(after, name, 0);
    let at = match place(entries, name, 0) {
        Some(j) => j,
        None => entries.len() as int,
    };
    assert(after[at] == (name, defined));
    lemma_place_finds(after, name, 0, at);
    let i = place(after, name, 0)->0;
    if i < at {
        assert(entries[i].0 != name);
        assert(after[i] == entries[i]);
    }
}

/// What `place` finds is the first place that holds the name.
pub proof fn lemma_place_first(entries: Seq<Entry>, name: Seq<char>, from: int)
    requires
        0 <= from,
    ensures
        match place(entries, name, from) {
            Some(i) => forall|k: int| from <= k < i ==> (#[trigger] entries[k]).0 != name,
            None => forall|k: int| from <= k < entries.len() ==> (#[trigger] entries[k]).0 != name,
        },
    decreases entries.len() - from,
{
    if from < entries.len() && entries[from].0 != name {
        lemma_place_first(entries, name, from + 1);
    }
}

/// Inside a scope, a name can be declared once: a second declaration of
/// the same name is refused with `E0x307`, whether or not the first has
/// been completed.
pub proof fn lemma_declared_once(t: Table, name: Token, again: Token)
    requires
        t.scopes.len() > 0,
        again.lexeme@ == name.lexeme@,
    ensures
        declare(t, name) matches Ok(t1) ==> {
            &&& declare(t1, again) == Err::<Table, Failure>(duplicate(again))
            &&& declare(define(t1, name), again) == Err::<Table, Failure>(
                duplicate(again),
            )
        },
{
    if declare(t, name) is Ok {
        let t1 = declare(t, name)->Ok_0;
        lemma_marked_is_found(t.scopes.last(), name.lexeme@, false);
        lemma_marked_is_found(t1.scopes.last(), name.lexeme@, true);
    }
}

/// A variable that is read in the scope that declares it, once the
/// declaration is complete, is recorded at distance 0, whatever the scopes
/// around it hold.
pub proof fn lemma_own_scope_is_nearest(t: Table, name: Token, read: Token, id: usize)
    requires
        t.scopes.len() > 0,
        read.lexeme@ == name.lexeme@,
    ensures
        introduce(t, name) matches Ok(t1) ==> refer(t1, read, id) == Ok::<Table, Failure>(
            Table {
                locals: t1.locals.insert(id, 0),
                scopes: t1.scopes,
                in_func: t1.in_func,
                in_loop: t1.in_loop,
            },
        ),
{
    if introduce(t, name) is Ok {
        let t0 = declare(t, name)->Ok_0;
        lemma_marked_is_found(t0.scopes.last(), name.lexeme@, true);
    }
}

/// A name of an outer scope can be declared again in a scope of its own.
pub proof fn lemma_inner_scope_is_free(t: Table, name: Token)
    ensures
        declare(opened(t), name) is Ok,
{
    assert(opened(t).scopes.last() =~= Seq::<Entry>::empty());
}

/// Outside every function, `return` is refused with `E0x303`.
pub proof fn lemma_return_outside_function(t: Table, expr: Expression)
    requires
        !t.in_func,
    ensures
        walk_stmt(t, Statement::Return { expr }) == Err::<Table, Failure>(
            unplaced(ErrorCode::E0x303),
        ),
{
}

/// Outside every loop, `break` is refused with `E0x302`.
pub proof fn lemma_break_outside_loop(t: Table)
    requires
        !t.in_loop,
    ensures
        walk_stmt(t, Statement::Break {  }) == Err::<Table, Failure>(unplaced(ErrorCode::E0x302)),
{
}

/// A read of a variable that an open scope holds, and that is not being
/// declared in the innermost one, records the number of scopes between the
/// read and the nearest scope that holds the name; no scope nearer than
/// that holds it.
pub proof fn lemma_distance(scopes: Seq<Seq<Entry>>, name: Seq<char>, depth: int)
    requires
        0 <= depth,
    ensures
        distance(scopes, name, depth) matches Some(d) ==> {
            &&& depth <= d < scopes.len()
            &&& place(scopes[scopes.len() - 1 - d], name, 0) is Some
            &&& forall|k: int|
                depth <= k < d ==> place(#[trigger] scopes[scopes.len() - 1 - k], name, 0) is None
        },
    decreases scopes.len() - depth,
{
    if depth < scopes.len() && place(scopes[scopes.len() - 1 - depth], name, 0) is None {
        lemma_distance(scopes, name, depth + 1);
    }
}

/// No name stands twice in the scope.
pub open spec fn unique(entries: Seq<Entry>) -> bool {
    forall|i: int, j: int|
        0 <= i < j < entries.len() ==> (#[trigger] entries[i]).0 != (#[trigger] entries[j]).0
}

/// No open scope holds a name twice.
pub open spec fn neat(t: Table) -> bool {
    forall|k: int| 0 <= k < t.scopes.len() ==> unique(#[trigger] t.scopes[k])
}

/// The table `after` is level with `before`: as many scopes are open, the
/// walk is inside a function and inside a loop as it was, and no scope has
/// come to hold a name twice.
pub open spec fn even(before: Table, after: Table) -> bool {
    &&& after.scopes.len() == before.scopes.len()
    &&& after.in_func == before.in_func
    &&& after.in_loop == before.in_loop
    &&& neat(before) ==> neat(after)
}

/// Marking a name puts no name twice into a scope.
pub proof fn lemma_mark_keeps_unique(entries: Seq<Entry>, name: Seq<char>, defined: bool)
    requires
        unique(entries),
    ensures
        unique(mark(entries, name, defined)),
{
    lemma_place_found(entries, name, 0);
    lemma_place_first(entries, name, 0);
    let after = mark(entries, name, defined);
    assert forall|i: int, j: int| 0 <= i < j < after.len() implies (#[trigger] after[i]).0 != (
    #[trigger] after[j]).0 by {
        match place(entries, name, 0) {
            Some(at) => {
                assert(entries[at].0 == name);
                if i != at && j != at {
                    assert(entries[i].0 != entries[j].0);
                } else if i == at {
                    assert(entries[at].0 != entries[j].0);
                } else {
                    assert(entries[i].0 != entries[at].0);
                }
            },
            None => {
                if j < entries.len() {
                    assert(entries[i].0 != entries[j].0);
                } else {
                    assert(entries[i].0 != name);
                }
            },
        }
    }
}

/// Marking a name leaves the table level.
pub proof fn lemma_marked_even(t: Table, name: Seq<char>, defined: bool)
    ensures
        even(t, marked(t, name, defined)),
{
    if t.scopes.len() > 0 && neat(t) {
        let after = marked(t, name, defined);
        lemma_mark_keeps_unique(t.scopes.last(), name, defined);
        assert forall|k: int| 0 <= k < after.scopes.len() implies unique(
            #[trigger] after.scopes[k],
        ) by {
            if k < t.scopes.len() - 1 {
                assert(after.scopes[k] == t.scopes[k]);
            }
        }
    }
}

/// Introducing a name leaves the table level.
pub proof fn lemma_introduce_even(t: Table, name: Token)
    ensures
        declare(t, name) matches Ok(t1) ==> even(t, t1),
        even(t, define(t, name)),
        introduce(t, name) matches Ok(t1) ==> even(t, t1),
{
    lemma_marked_even(t, name.lexeme@, false);
    lemma_marked_even(t, name.lexeme@, true);
    if declare(t, name) is Ok {
        lemma_marked_even(declare(t, name)->Ok_0, name.lexeme@, true);
    }
}

/// Opening a scope and closing it again leaves as many scopes open, and
/// none of them with a name twice.
pub proof fn lemma_scope_even(t: Table)
    ensures
        opened(t).scopes.len() == t.scopes.len() + 1,
        opened(t).in_func == t.in_func,
        opened(t).in_loop == t.in_loop,
        neat(t) ==> neat(opened(t)),
        closed(t) matches Ok(t1) ==> {
            &&& t1.scopes.len() == t.scopes.len() - 1
            &&& t1.in_func == t.in_func
            &&& t1.in_loop == t.in_loop
            &&& neat(t) ==> neat(t1)
        },
{
    if neat(t) {
        let o = opened(t);
        assert forall|k: int| 0 <= k < o.scopes.len() implies unique(#[trigger] o.scopes[k]) by {
            if k < t.scopes.len() {
                assert(o.scopes[k] == t.scopes[k]);
            }
        }
        if closed(t) is Ok {
            let c = closed(t)->Ok_0;
            assert forall|k: int| 0 <= k < c.scopes.len() implies unique(#[trigger] c.scopes[k]) by {
                assert(c.scopes[k] == t.scopes[k]);
            }
        }
    }
}

/// Introducing parameters leaves the table level.
pub proof fn lemma_introduce_params_even(t: Table, params: Seq<(Token, Token)>, from: int)
    ensures
        introduce_params(t, params, from) matches Ok(t1) ==> even(t, t1),
    decreases params.len() - from,
{
    if 0 <= from < params.len() {
        lemma_introduce_even(t, params[from].0);
        match introduce(t, params[from].0) {
            Ok(t1) => {
                lemma_introduce_params_even(t1, params, from + 1);
            },
            Err(_) => {},
        }
    }
}

/// Introducing imported names leaves the table level.
pub proof fn lemma_introduce_uses_even(t: Table, names: Seq<(Token, Option<Token>)>, from: int)
    ensures
        introduce_uses(t, names, from) matches Ok(t1) ==> even(t, t1),
    decreases names.len() - from,
{
    if 0 <= from < names.len() {
        let name = match names[from].1 {
            Some(alias) => alias,
            None => names[from].0,
        };
        lemma_introduce_even(t, name);
        match introduce(t, name) {
            Ok(t1) => {
                lemma_introduce_uses_even(t1, names, from + 1);
            },
            Err(_) => {},
        }
    }
}

/// The walk over an expression leaves the table level: every scope that it
/// opens it closes, and the flags are what they were.
pub proof fn lemma_walk_expr_even(t: Table, e: Expression)
    ensures
        walk_expr(t, e) matches Ok(t1) ==> even(t, t1),
    decreases e, 0nat,
{
    match e {
        Expression::Object { fields, .. } => {
            lemma_walk_fields_even(t, fields@, 0);
        },
        Expression::Method { args, .. } => {
            lemma_walk_exprs_even(t, args@, 0);
        },
        Expression::Assign { value, .. } => {
            lemma_walk_expr_even(t, *value);
        },
        Expression::Array { items, .. } => {
            lemma_walk_exprs_even(t, items@, 0);
        },
        Expression::Var { .. } => {},
        Expression::Call { name, args, .. } => {
            lemma_walk_expr_even(t, *name);
            match walk_expr(t, *name) {
                Ok(t1) => {
                    lemma_walk_exprs_even(t1, args@, 0);
                },
                Err(_) => {},
            }
        },
        Expression::Func { body, params, .. } => {
            lemma_walk_function_even(t, body, params@, false);
        },
        Expression::Await { expr, .. } => {
            lemma_walk_expr_even(t, *expr);
        },
        Expression::Unary { left, .. } => {
            lemma_walk_expr_even(t, *left);
        },
        Expression::Value { .. } => {},
        Expression::Binary { left, right, .. } => {
            lemma_walk_expr_even(t, *left);
            match walk_expr(t, *left) {
                Ok(t1) => {
                    lemma_walk_expr_even(t1, *right);
                },
                Err(_) => {},
            }
        },
        Expression::Grouping { expression, .. } => {
            lemma_walk_expr_even(t, *expression);
        },
    }
}

/// The walk over expressions leaves the table level.
pub proof fn lemma_walk_exprs_even(t: Table, items: Seq<Expression>, from: int)
    ensures
        walk_exprs(t, items, from) matches Ok(t1) ==> even(t, t1),
    decreases items, items.len() - from,
{
    if 0 <= from < items.len() {
        lemma_walk_expr_even(t, items[from]);
        match walk_expr(t, items[from]) {
            Ok(t1) => {
                lemma_walk_exprs_even(t1, items, from + 1);
            },
            Err(_) => {},
        }
    }
}

/// The walk over the fields of an object leaves the table level.
pub proof fn lemma_walk_fields_even(t: Table, fields: Seq<(Token, Expression)>, from: int)
    ensures
        walk_fields(t, fields, from) matches Ok(t1) ==> even(t, t1),
    decreases fields, fields.len() - from,
{
    if 0 <= from < fields.len() {
        lemma_walk_expr_even(t, fields[from].1);
        match walk_expr(t, fields[from].1) {
            Ok(t1) => {
                lemma_walk_fields_even(t1, fields, from + 1);
            },
            Err(_) => {},
        }
    }
}

/// The walk over a body leaves the table level.
pub proof fn lemma_walk_body_even(t: Table, body: FuncBody)
    ensures
        walk_body(t, body) matches Ok(t1) ==> even(t, t1),
    decreases body, 0nat,
{
    match body {
        FuncBody::Statements(stmts) => {
            lemma_walk_stmts_even(t, stmts@, 0);
        },
        FuncBody::Expression(e) => {
            lemma_walk_expr_even(t, *e);
        },
    }
}

/// The walk over a function or a lambda leaves the table level: the scope
/// of the parameters is closed behind the body, and the walk is inside a
/// function only as far as it was before.
pub proof fn lemma_walk_function_even(
    t: Table,
    body: FuncBody,
    params: Seq<(Token, Token)>,
    strict: bool,
)
    ensures
        walk_function(t, body, params, strict) matches Ok(t1) ==> even(t, t1),
    decreases body, 1nat,
{
    let t0 = opened(with_func(t, true));
    lemma_scope_even(with_func(t, true));
    assert(neat(t) ==> neat(with_func(t, true)));
    lemma_introduce_params_even(t0, params, 0);
    match introduce_params(t0, params, 0) {
        Ok(t1) => {
            lemma_walk_body_even(t1, body);
            match walk_body(t1, body) {
                Ok(t2) => {
                    lemma_scope_even(t2);
                    match closed(t2) {
                        Ok(t3) => {
                            assert(neat(t3) ==> neat(with_func(t3, t.in_func)));
                        },
                        Err(_) => {},
                    }
                },
                Err(_) => {},
            }
        },
        Err(_) => {},
    }
}

/// The walk over statements in a scope of their own leaves the table
/// level.
pub proof fn lemma_walk_scoped_even(t: Table, stmts: Seq<Statement>)
    ensures
        walk_scoped(t, stmts) matches Ok(t1) ==> even(t, t1),
    decreases stmts, stmts.len() + 1,
{
    lemma_scope_even(t);
    lemma_walk_stmts_even(opened(t), stmts, 0);
    match walk_stmts(opened(t), stmts, 0) {
        Ok(t1) => {
            lemma_scope_even(t1);
        },
        Err(_) => {},
    }
}

/// The walk over a `var` declaration leaves the table level.
pub proof fn lemma_walk_var_even(t: Table, names: Seq<Token>, value: Option<Expression>, from: int)
    ensures
        walk_var(t, names, value, from) matches Ok(t1) ==> even(t, t1),
    decreases value, names.len() - from,
{
    if 0 <= from < names.len() {
        lemma_introduce_even(t, names[from]);
        match declare(t, names[from]) {
            Ok(t1) => {
                let walked = match value {
                    Some(v) => walk_expr(t1, v),
                    None => Ok(t1),
                };
                match value {
                    Some(v) => {
                        lemma_walk_expr_even(t1, v);
                    },
                    None => {},
                }
                match walked {
                    Ok(t2) => {
                        lemma_introduce_even(t2, names[from]);
                        lemma_walk_var_even(define(t2, names[from]), names, value, from + 1);
                    },
                    Err(_) => {},
                }
            },
            Err(_) => {},
        }
    }
}

/// The walk over `elif` arms leaves the table level.
pub proof fn lemma_walk_arms_even(t: Table, arms: Seq<(Expression, Vec<Statement>)>, from: int)
    ensures
        walk_arms(t, arms, from) matches Ok(t1) ==> even(t, t1),
    decreases arms, arms.len() - from,
{
    if 0 <= from < arms.len() {
        lemma_walk_expr_even(t, arms[from].0);
        match walk_expr(t, arms[from].0) {
            Ok(t1) => {
                lemma_walk_scoped_even(t1, arms[from].1@);
                match walk_scoped(t1, arms[from].1@) {
                    Ok(t2) => {
                        lemma_walk_arms_even(t2, arms, from + 1);
                    },
                    Err(_) => {},
                }
            },
            Err(_) => {},
        }
    }
}

/// The walk over a `match` case leaves the table level.
pub proof fn lemma_walk_case_even(t: Table, arm: (Expression, FuncBody))
    ensures
        walk_case(t, arm) matches Ok(t1) ==> even(t, t1),
    decreases arm, 0nat,
{
    lemma_scope_even(t);
    lemma_walk_expr_even(opened(t), arm.0);
    match walk_expr(opened(t), arm.0) {
        Ok(t1) => {
            lemma_walk_body_even(t1, arm.1);
            match walk_body(t1, arm.1) {
                Ok(t2) => {
                    lemma_scope_even(t2);
                },
                Err(_) => {},
            }
        },
        Err(_) => {},
    }
}

/// The walk over the default case of a `match` leaves the table level.
pub proof fn lemma_walk_default_even(t: Table, body: FuncBody)
    ensures
        walk_default(t, body) matches Ok(t1) ==> even(t, t1),
    decreases body, 1nat,
{
    lemma_scope_even(t);
    lemma_walk_body_even(opened(t), body);
    match walk_body(opened(t), body) {
        Ok(t1) => {
            lemma_scope_even(t1);
        },
        Err(_) => {},
    }
}

/// The walk over the cases of a `match` leaves the table level.
pub proof fn lemma_walk_cases_even(t: Table, cases: Seq<(Expression, FuncBody)>, from: int)
    ensures
        walk_cases(t, cases, from) matches Ok(t1) ==> even(t, t1),
    decreases cases, cases.len() - from,
{
    if 0 <= from < cases.len() {
        lemma_walk_case_even(t, cases[from]);
        match walk_case(t, cases[from]) {
            Ok(t1) => {
                lemma_walk_cases_even(t1, cases, from + 1);
            },
            Err(_) => {},
        }
    }
}

/// The walk over a statement leaves the table level: as many scopes are
/// open behind it as in front of it, and the walk is inside a function and
/// inside a loop as it was.
pub proof fn lemma_walk_stmt_even(t: Table, stmt: Statement)
    ensures
        walk_stmt(t, stmt) matches Ok(t1) ==> even(t, t1),
    decreases stmt, 0nat,
{
    match stmt {
        Statement::If { cond, body, else_branch, else_if_branches } => {
            lemma_walk_expr_even(t, cond);
            match walk_expr(t, cond) {
                Ok(t1) => {
                    lemma_walk_scoped_even(t1, body@);
                    match walk_scoped(t1, body@) {
                        Ok(t2) => {
                            lemma_walk_arms_even(t2, else_if_branches@, 0);
                            match (walk_arms(t2, else_if_branches@, 0), else_branch) {
                                (Ok(t3), Some(b)) => {
                                    lemma_walk_scoped_even(t3, b@);
                                },
                                _ => {},
                            }
                        },
                        Err(_) => {},
                    }
                },
                Err(_) => {},
            }
        },
        Statement::Block { stmts } => {
            lemma_walk_scoped_even(t, stmts@);
        },
        Statement::Enum { name, .. } => {
            lemma_introduce_even(t, name);
        },
        Statement::Expression { expr } => {
            lemma_walk_expr_even(t, expr);
        },
        Statement::Func { body, params, .. } => {
            lemma_walk_function_even(t, body, params@, true);
        },
        Statement::Loop { body, .. } => {
            lemma_scope_even(t);
            let t0 = with_loop(opened(t), true);
            assert(neat(opened(t)) ==> neat(t0));
            lemma_walk_stmts_even(t0, body@, 0);
            match walk_stmts(t0, body@, 0) {
                Ok(t1) => {
                    assert(neat(t1) ==> neat(with_loop(t1, t.in_loop)));
                    lemma_scope_even(with_loop(t1, t.in_loop));
                },
                Err(_) => {},
            }
        },
        Statement::Match { cond, def_case, cases } => {
            lemma_walk_expr_even(t, cond);
            match walk_expr(t, cond) {
                Ok(t1) => {
                    lemma_walk_cases_even(t1, cases@, 0);
                    match walk_cases(t1, cases@, 0) {
                        Ok(t2) => {
                            lemma_walk_default_even(t2, def_case);
                        },
                        Err(_) => {},
                    }
                },
                Err(_) => {},
            }
        },
        Statement::Return { expr } => {
            lemma_walk_expr_even(t, expr);
        },
        Statement::Use { names, .. } => {
            lemma_introduce_uses_even(t, names@, 0);
        },
        Statement::Var { names, value, .. } => {
            lemma_walk_var_even(t, names@, value, 0);
        },
        Statement::While { cond, body } => {
            lemma_walk_expr_even(t, cond);
            match walk_expr(t, cond) {
                Ok(t1) => {
                    assert(neat(t1) ==> neat(with_loop(t1, true)));
                    lemma_walk_stmts_even(with_loop(t1, true), body@, 0);
                    match walk_stmts(with_loop(t1, true), body@, 0) {
                        Ok(t2) => {
                            assert(neat(t2) ==> neat(with_loop(t2, t.in_loop)));
                        },
                        Err(_) => {},
                    }
                },
                Err(_) => {},
            }
        },
        _ => {},
    }
}

/// The walk over statements leaves the table level. So a resolver that
/// starts outside every scope, function and loop ends there.
pub proof fn lemma_walk_stmts_even(t: Table, stmts: Seq<Statement>, from: int)
    ensures
        walk_stmts(t, stmts, from) matches Ok(t1) ==> even(t, t1),
    decreases stmts, stmts.len() - from,
{
    if 0 <= from < stmts.len() {
        lemma_walk_stmt_even(t, stmts[from]);
        match walk_stmt(t, stmts[from]) {
            Ok(t1) => {
                lemma_walk_stmts_even(t1, stmts, from + 1);
            },
            Err(_) => {},
        }
    }
}

/// The walk over `stmt` if it is of the kind asked for, else nothing.
pub open spec fn walk_if(wanted: bool, t: Table, stmt: Statement) -> Result<Table, Failure> {
    if wanted {
        walk_stmt(t, stmt)
    } else {
        Ok(t)
    }
}

/// Whether the outcome `r`, with the table `after` behind it, is `expected`.
pub open spec fn agrees(r: Result<(), Error>, after: Table, expected: Result<Table, Failure>) -> bool {
    match r {
        Ok(_) => expected == Ok::<Table, Failure>(after),
        Err(x) => expected == Err::<Table, Failure>(x@),
    }
}

/// A name in a scope, and whether its declaration is complete.
#[derive(Debug)]
pub struct Decl {
    name: String,
    defined: bool,
}

/// The resolver.
#[derive(Debug)]
pub struct Resolver {
    locals: HashMap<usize, usize>,
    scopes: Vec<Vec<Decl>>,
    is_crnt_fnc: bool,
    is_crnt_loop: bool,
}

/// The entries of a scope.
pub closed spec fn entries(scope: Seq<Decl>) -> Seq<Entry> {
    Seq::new(scope.len(), |j: int| (scope[j].name@, scope[j].defined))
}

impl View for Resolver {
    type V = Table;

    closed spec fn view(&self) -> Table {
        Table {
            locals: self.locals@,
            scopes: Seq::new(self.scopes@.len(), |i: int| entries(self.scopes@[i]@)),
            in_func: self.is_crnt_fnc,
            in_loop: self.is_crnt_loop,
        }
    }
}

fn place_in(scope: &Vec<Decl>, name: &String) -> (r: Option<usize>)
    ensures
        match r {
            Some(i) => place(entries(scope@), name@, 0) == Some(i as int) && i < scope@.len()
                && scope@[i as int].name@ == name@,
            None => place(entries(scope@), name@, 0) is None,
        },
{
    let mut i: usize = 0;
    while i < scope.len()
        invariant
            i <= scope@.len(),
            place(entries(scope@), name@, 0) == place(entries(scope@), name@, i as int),
        decreases scope@.len() - i,
    {
        if scope[i].name == *name {
            return Some(i);
        }
        i = i + 1;
    }
    None
}

impl Resolver {
    /// A resolver outside every scope, function and loop, with nothing
    /// recorded.
    pub fn new() -> (r: Resolver)
        ensures
            r@ == (Table {
                locals: Map::empty(),
                scopes: Seq::empty(),
                in_func: false,
                in_loop: false,
            }),
    {
        let r = Resolver {
            locals: HashMap::new(),
            scopes: Vec::new(),
            is_crnt_fnc: false,
            is_crnt_loop: false,
        };
        assert(r@.scopes =~= Seq::empty());
        r
    }

    /// Walks the statements and returns what was recorded.
    pub fn resolve(&mut self, stmts: &Vec<Statement>) -> (r: Result<HashMap<usize, usize>, Error>)
        ensures
            match r {
                Ok(locals) => walk_stmts(old(self)@, stmts@, 0) == Ok::<Table, Failure>(final(self)@)
                    && locals@ == final(self)@.locals && even(old(self)@, final(self)@),
                Err(x) => walk_stmts(old(self)@, stmts@, 0) == Err::<Table, Failure>(x@),
            },
    {
        proof {
            lemma_walk_stmts_even(self@, stmts@, 0);
        }
        match self.resolve_many(stmts) {
            Ok(_) => Ok(self.locals.clone()),
            Err(x) => Err(x),
        }
    }

    #[verifier::loop_isolation(false)]
    fn resolve_stmt(&mut self, stmt: &Statement) -> (r: Result<(), Error>)
        ensures
            agrees(r, final(self)@, walk_stmt(old(self)@, *stmt)),
        decreases stmt, 1nat,
    {
        match stmt {
            Statement::If { .. } => self.ifs(stmt),
            Statement::Block { .. } => self.block(stmt),
            Statement::Break {  } => self.breaks(),
            Statement::Enum { .. } => self.enums(stmt),
            Statement::Expression { expr } => self.expr(expr),
            Statement::Func { .. } => self.func(stmt),
            Statement::Loop { .. } => self.loops(stmt),
            Statement::Match { .. } => self.matchs(stmt),
            Statement::Return { .. } => self.returned(stmt),
            Statement::Use { .. } => self.uses(stmt),
            Statement::Var { .. } => self.var(stmt),
            Statement::While { .. } => self.whiles(stmt),
            _ => Ok(()),
        }
    }

    fn introduce(&mut self, name: &Token) -> (r: Result<(), Error>)
        ensures
            agrees(r, final(self)@, introduce(old(self)@, *name)),
    {
        match self.declare(name) {
            Ok(_) => {
                self.define(name);
                Ok(())
            },
            Err(x) => Err(x),
        }
    }

    #[verifier::loop_isolation(false)]
    fn uses(&mut self, stmt: &Statement) -> (r: Result<(), Error>)
        ensures
            agrees(r, final(self)@, walk_if(stmt is Use, old(self)@, *stmt)),
    {
        if let Statement::Use { names, .. } = stmt {
            let mut i: usize = 0;
            while i < names.len()
                invariant
                    i <= names@.len(),
                    introduce_uses(old(self)@, names@, 0) == introduce_uses(self@, names@, i as int),
                decreases names@.len() - i,
            {
                let r = match &names[i].1 {
                    Some(alias) => self.introduce(alias),
                    None => self.introduce(&names[i].0),
                };
                match r {
                    Ok(_) => {},
                    Err(x) => {
                        return Err(x);
                    },
                }
                i = i + 1;
            }
        }
        Ok(())
    }

    #[verifier::loop_isolation(false)]
    fn var(&mut self, stmt: &Statement) -> (r: Result<(), Error>)
        ensures
            agrees(r, final(self)@, walk_if(stmt is Var, old(self)@, *stmt)),
        decreases stmt, 0nat,
    {
        if let Statement::Var { names, value, .. } = stmt {
            let mut i: usize = 0;
            while i < names.len()
                invariant
                    i <= names@.len(),
                    walk_var(old(self)@, names@, *value, 0) == walk_var(
                        self@,
                        names@,
                        *value,
                        i as int,
                    ),
                decreases names@.len() - i,
            {
                match self.declare(&names[i]) {
                    Ok(_) => {},
                    Err(x) => {
                        return Err(x);
                    },
                }
                if let Some(v) = value {
                    match self.expr(v) {
                        Ok(_) => {},
                        Err(x) => {
                            return Err(x);
                        },
                    }
                }
                self.define(&names[i]);
                i = i + 1;
            }
        }
        Ok(())
    }

    #[verifier::loop_isolation(false)]
    fn whiles(&mut self, stmt: &Statement) -> (r: Result<(), Error>)
        ensures
            agrees(r, final(self)@, walk_if(stmt is While, old(self)@, *stmt)),
        decreases stmt, 0nat,
    {
        if let Statement::While { body, cond } = stmt {
            let encl_loop = self.is_crnt_loop;
            match self.expr(cond) {
                Ok(_) => {},
                Err(x) => {
                    return Err(x);
                },
            }
            self.is_crnt_loop = true;
            match self.resolve_many(body) {
                Ok(_) => {},
                Err(x) => {
                    return Err(x);
                },
            }
            self.is_crnt_loop = encl_loop;
        }
        Ok(())
    }

    fn breaks(&mut self) -> (r: Result<(), Error>)
        ensures
            agrees(r, final(self)@, walk_stmt(old(self)@, Statement::Break {  })),
    {
        if !self.is_crnt_loop {
            return Err(Error::bare(ErrorCode::E0x302));
        }
        Ok(())
    }

    fn enums(&mut self, stmt: &Statement) -> (r: Result<(), Error>)
        ensures
            agrees(r, final(self)@, walk_if(stmt is Enum, old(self)@, *stmt)),
    {
        if let Statement::Enum { name, .. } = stmt {
            return self.introduce(name);
        }
        Ok(())
    }

    #[verifier::loop_isolation(false)]
    fn params(&mut self, params: &Vec<(Token, Token)>) -> (r: Result<(), Error>)
        ensures
            agrees(r, final(self)@, introduce_params(old(self)@, params@, 0)),
    {
        let mut i: usize = 0;
        while i < params.len()
            invariant
                i <= params@.len(),
                introduce_params(old(self)@, params@, 0) == introduce_params(
                    self@,
                    params@,
                    i as int,
                ),
            decreases params@.len() - i,
        {
            match self.introduce(&params[i].0) {
                Ok(_) => {},
                Err(x) => {
                    return Err(x);
                },
            }
            i = i + 1;
        }
        Ok(())
    }

    #[verifier::loop_isolation(false)]
    fn func(&mut self, stmt: &Statement) -> (r: Result<(), Error>)
        ensures
            agrees(r, final(self)@, walk_if(stmt is Func, old(self)@, *stmt)),
        decreases stmt, 0nat,
    {
        if let Statement::Func { body, params, .. } = stmt {
            return self.function(body, params, true);
        }
        Ok(())
    }

    /// Walks a function or a lambda.
    #[verifier::loop_isolation(false)]
    fn function(&mut self, body: &FuncBody, params: &Vec<(Token, Token)>, strict: bool) -> (r: Result<
        (),
        Error,
    >)
        ensures
            agrees(r, final(self)@, walk_function(old(self)@, *body, params@, strict)),
        decreases body, 1nat,
    {
        let encl_func = self.is_crnt_fnc;
        self.is_crnt_fnc = true;
        self.scope_start();
        match self.params(params) {
            Ok(_) => {},
            Err(x) => {
                return Err(x);
            },
        }
        if strict {
            if let FuncBody::Expression(_) = body {
                return Err(Error::bare(ErrorCode::E0x305));
            }
        }
        match self.body(body) {
            Ok(_) => {},
            Err(x) => {
                return Err(x);
            },
        }
        match self.scope_end() {
            Ok(_) => {},
            Err(x) => {
                return Err(x);
            },
        }
        self.is_crnt_fnc = encl_func;
        Ok(())
    }

    #[verifier::loop_isolation(false)]
    fn loops(&mut self, stmt: &Statement) -> (r: Result<(), Error>)
        ensures
            agrees(r, final(self)@, walk_if(stmt is Loop, old(self)@, *stmt)),
        decreases stmt, 0nat,
    {
        if let Statement::Loop { body, .. } = stmt {
            self.scope_start();
            let encl_loop = self.is_crnt_loop;
            self.is_crnt_loop = true;
            match self.resolve_many(body) {
                Ok(_) => {},
                Err(x) => {
                    return Err(x);
                },
            }
            self.is_crnt_loop = encl_loop;
            return self.scope_end();
        }
        Ok(())
    }

    #[verifier::loop_isolation(false)]
    fn body(&mut self, body: &FuncBody) -> (r: Result<(), Error>)
        ensures
            agrees(r, final(self)@, walk_body(old(self)@, *body)),
        decreases body, 0nat,
    {
        match body {
            FuncBody::Statements(stmts) => self.resolve_many(stmts),
            FuncBody::Expression(e) => self.expr(&**e),
        }
    }

    /// Walks one `match` case.
    #[verifier::loop_isolation(false)]
    fn case(&mut self, arm: &(Expression, FuncBody)) -> (r: Result<(), Error>)
        ensures
            agrees(r, final(self)@, walk_case(old(self)@, *arm)),
        decreases arm, 0nat,
    {
        self.scope_start();
        match self.expr(&arm.0) {
            Ok(_) => {},
            Err(x) => {
                return Err(x);
            },
        }
        match self.body(&arm.1) {
            Ok(_) => {},
            Err(x) => {
                return Err(x);
            },
        }
        self.scope_end()
    }

    /// Walks the default case of a `match`.
    #[verifier::loop_isolation(false)]
    fn default_case(&mut self, body: &FuncBody) -> (r: Result<(), Error>)
        ensures
            agrees(r, final(self)@, walk_default(old(self)@, *body)),
        decreases body, 1nat,
    {
        self.scope_start();
        match self.body(body) {
            Ok(_) => {},
            Err(x) => {
                return Err(x);
            },
        }
        self.scope_end()
    }

    #[verifier::loop_isolation(false)]
    fn matchs(&mut self, stmt: &Statement) -> (r: Result<(), Error>)
        ensures
            agrees(r, final(self)@, walk_if(stmt is Match, old(self)@, *stmt)),
        decreases stmt, 0nat,
    {
        if let Statement::Match { cond, def_case, cases } = stmt {
            match self.expr(cond) {
                Ok(_) => {},
                Err(x) => {
                    return Err(x);
                },
            }
            let ghost t1 = self@;
            let mut i: usize = 0;
            while i < cases.len()
                invariant
                    i <= cases@.len(),
                    walk_cases(t1, cases@, 0) == walk_cases(self@, cases@, i as int),
                decreases cases@.len() - i,
            {
                proof {
                    vstd::std_specs::vec::axiom_vec_index_decreases(*cases, i as int);
                }
                match self.case(&cases[i]) {
                    Ok(_) => {},
                    Err(x) => {
                        return Err(x);
                    },
                }
                i = i + 1;
            }
            return self.default_case(def_case);
        }
        Ok(())
    }

    #[verifier::loop_isolation(false)]
    fn returned(&mut self, stmt: &Statement) -> (r: Result<(), Error>)
        ensures
            stmt is Return ==> agrees(r, final(self)@, walk_stmt(old(self)@, *stmt)),
            !(stmt is Return) && old(self)@.in_func ==> r is Ok && final(self)@ == old(self)@,
            !(stmt is Return) && !old(self)@.in_func ==> (r matches Err(x) && x@ == unplaced(
                ErrorCode::E0x303,
            )),
        decreases stmt, 0nat,
    {
        if self.is_crnt_fnc {
            if let Statement::Return { expr } = stmt {
                return self.expr(expr);
            }
            Ok(())
        } else {
            Err(Error::bare(ErrorCode::E0x303))
        }
    }

    #[verifier::loop_isolation(false)]
    fn scoped(&mut self, stmts: &Vec<Statement>) -> (r: Result<(), Error>)
        ensures
            agrees(r, final(self)@, walk_scoped(old(self)@, stmts@)),
        decreases stmts, 1nat,
    {
        self.scope_start();
        match self.resolve_many(stmts) {
            Ok(_) => {},
            Err(x) => {
                return Err(x);
            },
        }
        self.scope_end()
    }

    #[verifier::loop_isolation(false)]
    fn ifs(&mut self, stmt: &Statement) -> (r: Result<(), Error>)
        ensures
            agrees(r, final(self)@, walk_if(stmt is If, old(self)@, *stmt)),
        decreases stmt, 0nat,
    {
        if let Statement::If { cond, body, else_if_branches, else_branch } = stmt {
            match self.expr(cond) {
                Ok(_) => {},
                Err(x) => {
                    return Err(x);
                },
            }
            match self.scoped(body) {
                Ok(_) => {},
                Err(x) => {
                    return Err(x);
                },
            }
            let ghost t2 = self@;
            let mut i: usize = 0;
            while i < else_if_branches.len()
                invariant
                    i <= else_if_branches@.len(),
                    walk_arms(t2, else_if_branches@, 0) == walk_arms(
                        self@,
                        else_if_branches@,
                        i as int,
                    ),
                decreases else_if_branches@.len() - i,
            {
                proof {
                    vstd::std_specs::vec::axiom_vec_index_decreases(*else_if_branches, i as int);
                }
                match self.expr(&else_if_branches[i].0) {
                    Ok(_) => {},
                    Err(x) => {
                        return Err(x);
                    },
                }
                match self.scoped(&else_if_branches[i].1) {
                    Ok(_) => {},
                    Err(x) => {
                        return Err(x);
                    },
                }
                i = i + 1;
            }
            if let Some(branch) = else_branch {
                return self.scoped(branch);
            }
        }
        Ok(())
    }

    #[verifier::loop_isolation(false)]
    fn block(&mut self, stmt: &Statement) -> (r: Result<(), Error>)
        ensures
            stmt is Block ==> agrees(r, final(self)@, walk_stmt(old(self)@, *stmt)),
            !(stmt is Block) ==> (r matches Err(x) && x@ == expected("a block statement"@)),
        decreases stmt, 0nat,
    {
        if let Statement::Block { stmts } = stmt {
            self.scoped(stmts)
        } else {
            Err(Error::with_arg(ErrorCode::E0x306, 0, (0, 0), String::from_str("a block statement")))
        }
    }

    #[verifier::loop_isolation(false)]
    fn exprs(&mut self, items: &Vec<Expression>) -> (r: Result<(), Error>)
        ensures
            agrees(r, final(self)@, walk_exprs(old(self)@, items@, 0)),
        decreases items, 0nat,
    {
        let mut i: usize = 0;
        while i < items.len()
            invariant
                i <= items@.len(),
                walk_exprs(old(self)@, items@, 0) == walk_exprs(self@, items@, i as int),
            decreases items@.len() - i,
        {
            proof {
                vstd::std_specs::vec::axiom_vec_index_decreases(*items, i as int);
            }
            match self.expr(&items[i]) {
                Ok(_) => {},
                Err(x) => {
                    return Err(x);
                },
            }
            i = i + 1;
        }
        Ok(())
    }

    #[verifier::loop_isolation(false)]
    fn expr(&mut self, expr: &Expression) -> (r: Result<(), Error>)
        ensures
            agrees(r, final(self)@, walk_expr(old(self)@, *expr)),
        decreases expr, 0nat,
    {
        match expr {
            Expression::Object { fields, .. } => {
                let mut i: usize = 0;
                while i < fields.len()
                    invariant
                        i <= fields@.len(),
                        walk_fields(old(self)@, fields@, 0) == walk_fields(
                            self@,
                            fields@,
                            i as int,
                        ),
                    decreases fields@.len() - i,
                {
                    proof {
                        vstd::std_specs::vec::axiom_vec_index_decreases(*fields, i as int);
                    }
                    match self.expr(&fields[i].1) {
                        Ok(_) => {},
                        Err(x) => {
                            return Err(x);
                        },
                    }
                    i = i + 1;
                }
                Ok(())
            },
            Expression::Method { args, .. } => self.exprs(args),
            Expression::Assign { value, .. } => self.expr(&**value),
            Expression::Array { items, .. } => self.exprs(items),
            Expression::Var { .. } => self.varexpr(expr),
            Expression::Call { name, args, .. } => {
                match self.expr(&**name) {
                    Ok(_) => {},
                    Err(x) => {
                        return Err(x);
                    },
                }
                self.exprs(args)
            },
            Expression::Func { body, params, .. } => self.callback(body, params),
            Expression::Await { expr, .. } => self.expr(&**expr),
            Expression::Unary { left, .. } => self.expr(&**left),
            Expression::Value { .. } => Ok(()),
            Expression::Binary { left, right, .. } => {
                match self.expr(&**left) {
                    Ok(_) => {},
                    Err(x) => {
                        return Err(x);
                    },
                }
                self.expr(&**right)
            },
            Expression::Grouping { expression, .. } => self.expr(&**expression),
        }
    }

    fn callback(&mut self, body: &FuncBody, params: &Vec<(Token, Token)>) -> (r: Result<(), Error>)
        ensures
            agrees(r, final(self)@, walk_function(old(self)@, *body, params@, false)),
        decreases body, 2nat,
    {
        self.function(body, params, false)
    }

    fn varexpr(&mut self, expr: &Expression) -> (r: Result<(), Error>)
        ensures
            agrees(r, final(self)@, refer_expr(old(self)@, *expr)),
    {
        if let Expression::Var { name, id } = expr {
            if self.scopes.len() > 0 {
                let last = self.scopes.len() - 1;
                if let Some(i) = place_in(&self.scopes[last], &name.lexeme) {
                    if !self.scopes[last][i].defined {
                        return Err(
                            Error::with_arg(
                                ErrorCode::E0x306,
                                name.line,
                                name.pos(),
                                String::from_str("a local variable"),
                            ),
                        );
                    }
                }
            }
            self.resolve_local(name, *id);
            Ok(())
        } else if let Expression::Call { name, id, .. } = expr {
            if let Expression::Var { name, .. } = &**name {
                self.resolve_local(name, *id);
                Ok(())
            } else {
                Err(Error::with_arg(ErrorCode::E0x306, 0, (0, 0), String::from_str("a variable")))
            }
        } else {
            Err(Error::with_arg(ErrorCode::E0x306, 0, (0, 0), String::from_str("a variable")))
        }
    }

    fn mark(&mut self, name: &String, defined: bool)
        ensures
            final(self)@ == marked(old(self)@, name@, defined),
            even(old(self)@, final(self)@),
    {
        proof {
            lemma_marked_even(self@, name@, defined);
        }
        if self.scopes.len() > 0 {
            let last = self.scopes.len() - 1;
            match place_in(&self.scopes[last], name) {
                Some(i) => {
                    self.scopes[last][i].defined = defined;
                },
                None => {
                    self.scopes[last].push(Decl { name: name.clone(), defined });
                },
            }
            assert(self@.scopes[last as int] =~= mark(old(self)@.scopes[last as int], name@, defined));
            assert(self@.scopes =~= marked(old(self)@, name@, defined).scopes);
        }
    }

    fn declare(&mut self, name: &Token) -> (r: Result<(), Error>)
        ensures
            agrees(r, final(self)@, declare(old(self)@, *name)),
    {
        if self.scopes.len() > 0 {
            let last = self.scopes.len() - 1;
            if place_in(&self.scopes[last], &name.lexeme).is_some() {
                return Err(
                    Error::with_arg(ErrorCode::E0x307, name.line, name.pos(), name.lexeme.clone()),
                );
            }
        }
        self.mark(&name.lexeme, false);
        Ok(())
    }

    fn define(&mut self, name: &Token)
        ensures
            final(self)@ == define(old(self)@, *name),
    {
        self.mark(&name.lexeme, true);
    }

    fn resolve_local(&mut self, name: &Token, id: usize)
        ensures
            final(self)@ == note(old(self)@, *name, id),
    {
        let n = self.scopes.len();
        let mut i: usize = 0;
        while i < n
            invariant
                n == self.scopes@.len(),
                i <= n,
                *self == *old(self),
                distance(self@.scopes, name.lexeme@, 0) == distance(
                    self@.scopes,
                    name.lexeme@,
                    i as int,
                ),
            decreases n - i,
        {
            if place_in(&self.scopes[n - 1 - i], &name.lexeme).is_some() {
                self.locals.insert(id, i);
                return ;
            }
            i = i + 1;
        }
    }

    #[verifier::loop_isolation(false)]
    fn resolve_many(&mut self, stmts: &Vec<Statement>) -> (r: Result<(), Error>)
        ensures
            agrees(r, final(self)@, walk_stmts(old(self)@, stmts@, 0)),
        decreases stmts, 0nat,
    {
        let mut i: usize = 0;
        while i < stmts.len()
            invariant
                i <= stmts@.len(),
                walk_stmts(old(self)@, stmts@, 0) == walk_stmts(self@, stmts@, i as int),
            decreases stmts@.len() - i,
        {
            proof {
                vstd::std_specs::vec::axiom_vec_index_decreases(*stmts, i as int);
            }
            match self.resolve_stmt(&stmts[i]) {
                Ok(_) => {},
                Err(x) => {
                    return Err(x);
                },
            }
            i = i + 1;
        }
        Ok(())
    }

    fn scope_start(&mut self)
        ensures
            final(self)@ == opened(old(self)@),
    {
        self.scopes.push(Vec::new());
        assert(self@.scopes =~= opened(old(self)@).scopes) by {
            assert(self@.scopes.last() =~= Seq::<Entry>::empty());
        }
    }

    fn scope_end(&mut self) -> (r: Result<(), Error>)
        ensures
            agrees(r, final(self)@, closed(old(self)@)),
    {
        if self.scopes.pop().is_none() {
            return Err(Error::bare(ErrorCode::E0x308));
        }
        assert(self@.scopes =~= old(self)@.scopes.drop_last());
        Ok(())
    }
}

} // verus!
