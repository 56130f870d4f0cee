//! Scopes are balanced: whatever runs, and however deep it opens scopes of
//! its own, the evaluator stands in the scope it stood in when it is done.
//! No scope is ever lost, the mode does not change, the record only grows,
//! and expressions leave the control signals alone: a signal that a
//! function body sets ends with the call.

use vstd::prelude::*;
use crate::ast::{Expression, FuncBody, Statement};
use crate::env::{Bound, Frame, define_in, enclose_in, lemma_locate_is_bound};
use crate::host::{Answer, grown};
use crate::semantics::{
    State, bind_params, branches, call, conforms, define_all, enter, eval, eval_all, exec,
    exec_all, fewer, repeat, roomy, rounds, run_body, with_env, with_scope,
};
use crate::token::Token;
use crate::value::{Closure, Value};

verus! {

/// The state stands in a scope that exists, and every scope has a handle.
pub open spec fn steady(st: State) -> bool {
    st.scope < st.env.len() <= usize::MAX
}

/// The state `after` stands where `before` stood: in the same scope and
/// mode, with no scope lost and every scope under a handle, and with a
/// record that continues the one before.
pub open spec fn level(before: State, after: State) -> bool {
    &&& after.scope == before.scope
    &&& after.is_mod == before.is_mod
    &&& before.env.len() <= after.env.len() <= usize::MAX
    &&& grown(before.said, after.said)
}

/// Defining names changes no scope count.
pub proof fn lemma_define_all_len(
    env: Seq<Frame>,
    scope: usize,
    names: Seq<Token>,
    value: Value,
    is_pub: bool,
    from: int,
)
    requires
        scope < env.len(),
    ensures
        define_all(env, scope, names, value, is_pub, from).len() == env.len(),
    decreases names.len() - from,
{
    if 0 <= from < names.len() {
        lemma_define_all_len(
            define_in(env, scope, Bound { name: names[from].lexeme@, value, is_pub, kind: None }),
            scope,
            names,
            value,
            is_pub,
            from + 1,
        );
    }
}

/// Binding parameters changes no scope count, and nothing but the scopes.
pub proof fn lemma_bind_params_level(
    st: State,
    scope: usize,
    declared: Token,
    params: Seq<(Token, Token)>,
    vals: Seq<Value>,
    from: int,
    answers: Seq<Answer>,
)
    requires
        scope < st.env.len(),
    ensures
        bind_params(st, scope, declared, params, vals, from, answers) matches Ok(after) ==> after
            == with_env(st, after.env) && after.env.len() == st.env.len(),
    decreases vals.len() - from,
{
    if 0 <= from < vals.len() && conforms(declared, vals[from]) {
        lemma_bind_params_level(
            with_env(
                st,
                define_in(
                    st.env,
                    scope,
                    Bound {
                        name: params[from].0.lexeme@,
                        value: vals[from],
                        is_pub: false,
                        kind: None,
                    },
                ),
            ),
            scope,
            declared,
            params,
            vals,
            from + 1,
            answers,
        );
    }
}

/// An expression leaves the evaluator where it stood, and the signals as
/// they were.
pub proof fn lemma_eval_level(fuel: nat, st: State, e: Expression, answers: Seq<Answer>)
    requires
        steady(st),
    ensures
        eval(fuel, st, e, answers) matches Ok((after, _)) ==> level(st, after) && after.specs
            == st.specs,
    decreases fuel, 0nat,
{
    if fuel > 0 {
        let f = (fuel - 1) as nat;
        match e {
            Expression::Unary { left, .. } => {
                lemma_eval_level(f, st, *left, answers);
            },
            Expression::Binary { left, operator, right, .. } => {
                lemma_eval_level(f, st, *left, answers);
                match eval(f, st, *left, answers) {
                    Ok((s1, l)) => {
                        lemma_eval_level(f, s1, *right, answers);
                    },
                    Err(_) => {},
                }
            },
            Expression::Grouping { expression, .. } => {
                lemma_eval_level(f, st, *expression, answers);
            },
            Expression::Call { name, args, .. } => {
                lemma_eval_level(f, st, *name, answers);
                match eval(f, st, *name, answers) {
                    Ok((s1, callee)) => match callee {
                        Value::Func(c) => {
                            lemma_call_level(f, s1, c, args@, answers);
                        },
                        Value::DeclrFunc { .. } => {
                            lemma_eval_all_level(f, s1, args@, 0, Seq::empty(), answers);
                        },
                        _ => {},
                    },
                    Err(_) => {},
                }
            },
            Expression::Assign { name, value, .. } => {
                lemma_eval_level(f, st, *value, answers);
                match eval(f, st, *value, answers) {
                    Ok((s1, _)) => {
                        lemma_locate_is_bound(s1.env, s1.scope, name.lexeme@);
                    },
                    Err(_) => {},
                }
            },
            Expression::Await { expr, .. } => {
                lemma_eval_level(f, st, *expr, answers);
            },
            _ => {},
        }
    }
}

/// Arguments leave the evaluator where it stood, and the signals as they
/// were.
pub proof fn lemma_eval_all_level(
    fuel: nat,
    st: State,
    args: Seq<Expression>,
    from: int,
    done: Seq<Value>,
    answers: Seq<Answer>,
)
    requires
        steady(st),
    ensures
        eval_all(fuel, st, args, from, done, answers) matches Ok((after, _)) ==> level(st, after)
            && after.specs == st.specs,
    decreases fuel, args.len() - from,
{
    if fuel > 0 && 0 <= from < args.len() {
        lemma_eval_level((fuel - 1) as nat, st, args[from], answers);
        match eval((fuel - 1) as nat, st, args[from], answers) {
            Ok((s1, v)) => {
                lemma_eval_all_level(fuel, s1, args, from + 1, done.push(v), answers);
            },
            Err(_) => {},
        }
    }
}

/// A call leaves the caller where it stood, and its signals as they were:
/// what the body signals ends with the call.
pub proof fn lemma_call_level(fuel: nat, st: State, c: Closure, args: Seq<Expression>, answers: Seq<Answer>)
    requires
        steady(st),
    ensures
        call(fuel, st, c, args, answers) matches Ok((after, _)) ==> level(st, after) && after.specs
            == st.specs,
    decreases fuel, 0nat,
{
    if fuel > 0 && args.len() == c.params@.len() {
        let f = (fuel - 1) as nat;
        lemma_eval_all_level(f, st, args, 0, Seq::empty(), answers);
        match eval_all(f, st, args, 0, Seq::empty(), answers) {
            Ok((s1, vals)) => if roomy(s1) {
                let scope = s1.env.len() as usize;
                lemma_bind_params_level(
                    with_env(s1, enclose_in(s1.env, c.env)),
                    scope,
                    c.value_type,
                    c.params@,
                    vals,
                    0,
                    answers,
                );
                match enter(s1, c, vals, answers) {
                    Ok(s2) => match c.body {
                        FuncBody::Statements(stmts) => {
                            lemma_run_body_level(f, s2, c.value_type, stmts@, 0, answers);
                        },
                        FuncBody::Expression(e) => {
                            lemma_eval_level(f, s2, *e, answers);
                        },
                    },
                    Err(_) => {},
                }
            },
            Err(_) => {},
        }
    }
}

/// A function body leaves the evaluator in the scope of the body.
pub proof fn lemma_run_body_level(
    fuel: nat,
    st: State,
    declared: Token,
    stmts: Seq<Statement>,
    from: int,
    answers: Seq<Answer>,
)
    requires
        steady(st),
    ensures
        run_body(fuel, st, declared, stmts, from, answers) matches Ok((after, _)) ==> level(
            st,
            after,
        ),
    decreases fuel, stmts.len() - from,
{
    if fuel > 0 && 0 <= from < stmts.len() {
        lemma_exec_level((fuel - 1) as nat, st, stmts[from], answers);
        match exec((fuel - 1) as nat, st, stmts[from], answers) {
            Ok(s1) => {
                if s1.specs.ret is None {
                    lemma_run_body_level(fuel, s1, declared, stmts, from + 1, answers);
                }
            },
            Err(_) => {},
        }
    }
}

/// A statement leaves the evaluator where it stood: the scope that a block
/// opens is left again at its end.
pub proof fn lemma_exec_level(fuel: nat, st: State, stmt: Statement, answers: Seq<Answer>)
    requires
        steady(st),
    ensures
        exec(fuel, st, stmt, answers) matches Ok(after) ==> level(st, after),
    decreases fuel, 0nat,
{
    if fuel > 0 {
        let f = (fuel - 1) as nat;
        match stmt {
            Statement::Expression { expr } => {
                lemma_eval_level(f, st, expr, answers);
            },
            Statement::Block { stmts } => {
                if !st.is_mod && roomy(st) {
                    let inner = with_scope(
                        with_env(st, enclose_in(st.env, st.scope)),
                        st.env.len() as usize,
                    );
                    lemma_exec_all_level(f, inner, stmts@, 0, answers);
                }
            },
            Statement::Var { names, value, pub_names, .. } => {
                match value {
                    Some(v) => {
                        lemma_eval_level(f, st, v, answers);
                        match eval(f, st, v, answers) {
                            Ok((s1, val)) => {
                                lemma_define_all_len(s1.env, s1.scope, names@, val, false, 0);
                                let e1 = define_all(s1.env, s1.scope, names@, val, false, 0);
                                lemma_define_all_len(e1, s1.scope, pub_names@, val, true, 0);
                                lemma_define_all_len(s1.env, s1.scope, pub_names@, val, true, 0);
                            },
                            Err(_) => {},
                        }
                    },
                    None => {
                        lemma_define_all_len(st.env, st.scope, names@, Value::Null, false, 0);
                    },
                }
            },
            Statement::If { cond, body, else_branch, else_if_branches } => {
                if !st.is_mod {
                    lemma_eval_level(f, st, cond, answers);
                    match eval(f, st, cond, answers) {
                        Ok((s1, c)) => {
                            if c.is_truthy() {
                                lemma_exec_all_level(f, s1, body@, 0, answers);
                            } else {
                                lemma_branches_level(f, s1, else_if_branches@, 0, answers);
                                match (
                                    branches(f, s1, else_if_branches@, 0, answers),
                                    else_branch,
                                ) {
                                    (Ok((s2, taken)), Some(other)) => {
                                        if !taken {
                                            lemma_exec_all_level(f, s2, other@, 0, answers);
                                        }
                                    },
                                    _ => {},
                                }
                            }
                        },
                        Err(_) => {},
                    }
                }
            },
            Statement::Return { expr } => {
                lemma_eval_level(f, st, expr, answers);
            },
            Statement::While { cond, body } => {
                if !st.is_mod {
                    lemma_rounds_level(f, st, cond, body@, answers);
                }
            },
            Statement::Loop { iter, body } => {
                if !st.is_mod {
                    lemma_repeat_level(f, st, iter, body@, answers);
                }
            },
            _ => {},
        }
    }
}

/// A list of statements leaves the evaluator where it stood.
pub proof fn lemma_exec_all_level(fuel: nat, st: State, stmts: Seq<Statement>, from: int, answers: Seq<Answer>)
    requires
        steady(st),
    ensures
        exec_all(fuel, st, stmts, from, answers) matches Ok(after) ==> level(st, after),
    decreases fuel, stmts.len() - from,
{
    if fuel > 0 && 0 <= from < stmts.len() {
        lemma_exec_level((fuel - 1) as nat, st, stmts[from], answers);
        match exec((fuel - 1) as nat, st, stmts[from], answers) {
            Ok(s1) => {
                lemma_exec_all_level(fuel, s1, stmts, from + 1, answers);
            },
            Err(_) => {},
        }
    }
}

/// The `elif` arms leave the evaluator where it stood.
pub proof fn lemma_branches_level(
    fuel: nat,
    st: State,
    arms: Seq<(Expression, Vec<Statement>)>,
    from: int,
    answers: Seq<Answer>,
)
    requires
        steady(st),
    ensures
        branches(fuel, st, arms, from, answers) matches Ok((after, _)) ==> level(st, after),
    decreases fuel, arms.len() - from,
{
    if fuel > 0 && 0 <= from < arms.len() {
        let f = (fuel - 1) as nat;
        lemma_eval_level(f, st, arms[from].0, answers);
        match eval(f, st, arms[from].0, answers) {
            Ok((s1, c)) => {
                if c.is_truthy() {
                    lemma_exec_all_level(f, s1, arms[from].1@, 0, answers);
                } else {
                    lemma_branches_level(fuel, s1, arms, from + 1, answers);
                }
            },
            Err(_) => {},
        }
    }
}

/// A `while` loop leaves the evaluator where it stood.
pub proof fn lemma_rounds_level(
    fuel: nat,
    st: State,
    cond: Expression,
    body: Seq<Statement>,
    answers: Seq<Answer>,
)
    requires
        steady(st),
    ensures
        rounds(fuel, st, cond, body, answers) matches Ok(after) ==> level(st, after),
    decreases fuel, 0nat,
{
    if fuel > 0 {
        let f = (fuel - 1) as nat;
        lemma_eval_level(f, st, cond, answers);
        match eval(f, st, cond, answers) {
            Ok((s1, c)) => {
                if c.is_truthy() {
                    lemma_exec_all_level(f, s1, body, 0, answers);
                    match exec_all(f, s1, body, 0, answers) {
                        Ok(s2) => {
                            if !s2.specs.brk {
                                lemma_rounds_level(f, s2, cond, body, answers);
                            }
                        },
                        Err(_) => {},
                    }
                }
            },
            Err(_) => {},
        }
    }
}

/// A `loop` leaves the evaluator where it stood.
pub proof fn lemma_repeat_level(
    fuel: nat,
    st: State,
    left: Option<usize>,
    body: Seq<Statement>,
    answers: Seq<Answer>,
)
    requires
        steady(st),
    ensures
        repeat(fuel, st, left, body, answers) matches Ok(after) ==> level(st, after),
    decreases fuel, 0nat,
{
    if left != Some(0usize) && fuel > 0 {
        let f = (fuel - 1) as nat;
        lemma_exec_all_level(f, st, body, 0, answers);
        match exec_all(f, st, body, 0, answers) {
            Ok(s1) => {
                if !s1.specs.brk {
                    lemma_repeat_level(f, s1, fewer(left), body, answers);
                }
            },
            Err(_) => {},
        }
    }
}

} // verus!
