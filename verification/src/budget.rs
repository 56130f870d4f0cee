//! The budget is only a bound: what evaluation gives within one budget, it
//! gives within every larger one. The one outcome that the budget itself
//! brings about, `E0x409`, is the exception. So the meaning of a program
//! that ends does not depend on the budget it was run with.

use vstd::prelude::*;
use crate::ast::{Expression, FuncBody, Statement};
use crate::env::enclose_in;
use crate::host::{Answer, Stop};
use crate::semantics::{
    State, anchored, branches, call, enter, eval, eval_all, exec, exec_all, failed, fewer, limit,
    repeat, roomy, rounds, run, run_body, with_env, with_scope,
};
use crate::token::{Token, TokenType};
use crate::value::{Closure, Value};

verus! {

/// Whether an outcome is the failure of a spent budget.
pub open spec fn spent<T>(r: Result<T, Stop>) -> bool {
    r == failed::<T>(limit())
}

/// The value of an expression does not depend on the budget.
pub proof fn lemma_eval_budget(small: nat, large: nat, st: State, e: Expression, answers: Seq<Answer>)
    requires
        small <= large,
        !spent(eval(small, st, e, answers)),
    ensures
        eval(large, st, e, answers) == eval(small, st, e, answers),
    decreases small, 0nat,
{
    let a = (small - 1) as nat;
    let b = (large - 1) as nat;
    match e {
        Expression::Unary { left, .. } => {
            lemma_eval_budget(a, b, st, *left, answers);
        },
        Expression::Binary { left, operator, right, .. } => {
            lemma_eval_budget(a, b, st, *left, answers);
            match eval(a, st, *left, answers) {
                Ok((s1, l)) => {
                    if !(operator.token == TokenType::And && !l.is_truthy()) && !(operator.token
                        == TokenType::Or && l.is_truthy()) {
                        lemma_eval_budget(a, b, s1, *right, answers);
                    }
                },
                Err(_) => {},
            }
        },
        Expression::Grouping { expression, .. } => {
            lemma_eval_budget(a, b, st, *expression, answers);
        },
        Expression::Call { name, args, .. } => {
            lemma_eval_budget(a, b, st, *name, answers);
            match eval(a, st, *name, answers) {
                Ok((s1, callee)) => match callee {
                    Value::Func(c) => {
                        lemma_call_budget(a, b, s1, c, args@, answers);
                    },
                    Value::DeclrFunc { arity, .. } => {
                        if args@.len() == arity {
                            lemma_eval_all_budget(a, b, s1, args@, 0, Seq::empty(), answers);
                        }
                    },
                    _ => {},
                },
                Err(_) => {},
            }
        },
        Expression::Assign { value, .. } => {
            lemma_eval_budget(a, b, st, *value, answers);
        },
        Expression::Await { expr, .. } => {
            lemma_eval_budget(a, b, st, *expr, answers);
        },
        _ => {},
    }
}

/// The values of arguments do not depend on the budget.
pub proof fn lemma_eval_all_budget(
    small: nat,
    large: nat,
    st: State,
    args: Seq<Expression>,
    from: int,
    done: Seq<Value>,
    answers: Seq<Answer>,
)
    requires
        small <= large,
        !spent(eval_all(small, st, args, from, done, answers)),
    ensures
        eval_all(large, st, args, from, done, answers) == eval_all(
            small,
            st,
            args,
            from,
            done,
            answers,
        ),
    decreases small, args.len() - from,
{
    if 0 <= from < args.len() {
        lemma_eval_budget((small - 1) as nat, (large - 1) as nat, st, args[from], answers);
        match eval((small - 1) as nat, st, args[from], answers) {
            Ok((s1, v)) => {
                lemma_eval_all_budget(small, large, s1, args, from + 1, done.push(v), answers);
            },
            Err(_) => {},
        }
    }
}

/// What a call gives does not depend on the budget.
pub proof fn lemma_call_budget(
    small: nat,
    large: nat,
    st: State,
    c: Closure,
    args: Seq<Expression>,
    answers: Seq<Answer>,
)
    requires
        small <= large,
        !spent(call(small, st, c, args, answers)),
    ensures
        call(large, st, c, args, answers) == call(small, st, c, args, answers),
    decreases small, 0nat,
{
    let a = (small - 1) as nat;
    let b = (large - 1) as nat;
    if args.len() == c.params@.len() {
        lemma_eval_all_budget(a, b, st, args, 0, Seq::empty(), answers);
        match eval_all(a, st, args, 0, Seq::empty(), answers) {
            Ok((s1, vals)) => match enter(s1, c, vals, answers) {
                Ok(s2) => match c.body {
                    FuncBody::Statements(stmts) => {
                        lemma_run_body_budget(a, b, s2, c.value_type, stmts@, 0, answers);
                    },
                    FuncBody::Expression(e) => {
                        lemma_eval_budget(a, b, s2, *e, answers);
                    },
                },
                Err(_) => {},
            },
            Err(_) => {},
        }
    }
}

/// What a function body gives does not depend on the budget.
pub proof fn lemma_run_body_budget(
    small: nat,
    large: nat,
    st: State,
    declared: Token,
    stmts: Seq<Statement>,
    from: int,
    answers: Seq<Answer>,
)
    requires
        small <= large,
        !spent(run_body(small, st, declared, stmts, from, answers)),
    ensures
        run_body(large, st, declared, stmts, from, answers) == run_body(
            small,
            st,
            declared,
            stmts,
            from,
            answers,
        ),
    decreases small, stmts.len() - from,
{
    if 0 <= from < stmts.len() {
        lemma_exec_budget((small - 1) as nat, (large - 1) as nat, st, stmts[from], answers);
        match exec((small - 1) as nat, st, stmts[from], answers) {
            Ok(s1) => {
                if s1.specs.ret is None {
                    lemma_run_body_budget(small, large, s1, declared, stmts, from + 1, answers);
                }
            },
            Err(_) => {},
        }
    }
}

/// The state behind a statement does not depend on the budget.
pub proof fn lemma_exec_budget(small: nat, large: nat, st: State, stmt: Statement, answers: Seq<Answer>)
    requires
        small <= large,
        !spent(exec(small, st, stmt, answers)),
    ensures
        exec(large, st, stmt, answers) == exec(small, st, stmt, answers),
    decreases small, 0nat,
{
    let a = (small - 1) as nat;
    let b = (large - 1) as nat;
    match stmt {
        Statement::Expression { expr } => {
            lemma_eval_budget(a, b, st, expr, answers);
        },
        Statement::Block { stmts } => {
            if !st.is_mod && roomy(st) {
                let inner = with_scope(
                    with_env(st, enclose_in(st.env, st.scope)),
                    st.env.len() as usize,
                );
                lemma_exec_all_budget(a, b, inner, stmts@, 0, answers);
            }
        },
        Statement::Var { value, is_pub, is_func, .. } => {
            match value {
                Some(v) => {
                    if (!st.is_mod && !is_func) || (st.is_mod && is_pub) {
                        lemma_eval_budget(a, b, st, v, answers);
                    }
                },
                None => {},
            }
        },
        Statement::If { cond, body, else_branch, else_if_branches } => {
            if !st.is_mod {
                lemma_eval_budget(a, b, st, cond, answers);
                match eval(a, st, cond, answers) {
                    Ok((s1, c)) => {
                        if c.is_truthy() {
                            lemma_exec_all_budget(a, b, s1, body@, 0, answers);
                        } else {
                            lemma_branches_budget(a, b, s1, else_if_branches@, 0, answers);
                            match (branches(a, s1, else_if_branches@, 0, answers), else_branch) {
                                (Ok((s2, taken)), Some(other)) => {
                                    if !taken {
                                        lemma_exec_all_budget(a, b, s2, other@, 0, answers);
                                    }
                                },
                                _ => {},
                            }
                        }
                    },
                    Err(_) => {},
                }
            }
        },
        Statement::Return { expr } => {
            lemma_eval_budget(a, b, st, expr, answers);
        },
        Statement::While { cond, body } => {
            if !st.is_mod {
                lemma_rounds_budget(a, b, st, cond, body@, answers);
            }
        },
        Statement::Loop { iter, body } => {
            if !st.is_mod {
                lemma_repeat_budget(a, b, st, iter, body@, answers);
            }
        },
        _ => {},
    }
}

/// The state behind a list of statements does not depend on the budget.
pub proof fn lemma_exec_all_budget(
    small: nat,
    large: nat,
    st: State,
    stmts: Seq<Statement>,
    from: int,
    answers: Seq<Answer>,
)
    requires
        small <= large,
        !spent(exec_all(small, st, stmts, from, answers)),
    ensures
        exec_all(large, st, stmts, from, answers) == exec_all(small, st, stmts, from, answers),
    decreases small, stmts.len() - from,
{
    if 0 <= from < stmts.len() {
        lemma_exec_budget((small - 1) as nat, (large - 1) as nat, st, stmts[from], answers);
        match exec((small - 1) as nat, st, stmts[from], answers) {
            Ok(s1) => {
                lemma_exec_all_budget(small, large, s1, stmts, from + 1, answers);
            },
            Err(_) => {},
        }
    }
}

/// Which `elif` arm runs, and what it leaves, does not depend on the budget.
pub proof fn lemma_branches_budget(
    small: nat,
    large: nat,
    st: State,
    arms: Seq<(Expression, Vec<Statement>)>,
    from: int,
    answers: Seq<Answer>,
)
    requires
        small <= large,
        !spent(branches(small, st, arms, from, answers)),
    ensures
        branches(large, st, arms, from, answers) == branches(small, st, arms, from, answers),
    decreases small, arms.len() - from,
{
    if 0 <= from < arms.len() {
        let a = (small - 1) as nat;
        let b = (large - 1) as nat;
        lemma_eval_budget(a, b, st, arms[from].0, answers);
        match eval(a, st, arms[from].0, answers) {
            Ok((s1, c)) => {
                if c.is_truthy() {
                    lemma_exec_all_budget(a, b, s1, arms[from].1@, 0, answers);
                } else {
                    lemma_branches_budget(small, large, s1, arms, from + 1, answers);
                }
            },
            Err(_) => {},
        }
    }
}

/// What a `while` loop leaves does not depend on the budget.
pub proof fn lemma_rounds_budget(
    small: nat,
    large: nat,
    st: State,
    cond: Expression,
    body: Seq<Statement>,
    answers: Seq<Answer>,
)
    requires
        small <= large,
        !spent(rounds(small, st, cond, body, answers)),
    ensures
        rounds(large, st, cond, body, answers) == rounds(small, st, cond, body, answers),
    decreases small, 0nat,
{
    let a = (small - 1) as nat;
    let b = (large - 1) as nat;
    lemma_eval_budget(a, b, st, cond, answers);
    match eval(a, st, cond, answers) {
        Ok((s1, c)) => {
            if c.is_truthy() {
                lemma_exec_all_budget(a, b, s1, body, 0, answers);
                match exec_all(a, s1, body, 0, answers) {
                    Ok(s2) => {
                        if !s2.specs.brk {
                            lemma_rounds_budget(a, b, s2, cond, body, answers);
                        }
                    },
                    Err(_) => {},
                }
            }
        },
        Err(_) => {},
    }
}

/// What a `loop` leaves does not depend on the budget.
pub proof fn lemma_repeat_budget(
    small: nat,
    large: nat,
    st: State,
    left: Option<usize>,
    body: Seq<Statement>,
    answers: Seq<Answer>,
)
    requires
        small <= large,
        !spent(repeat(small, st, left, body, answers)),
    ensures
        repeat(large, st, left, body, answers) == repeat(small, st, left, body, answers),
    decreases small, 0nat,
{
    if left != Some(0usize) {
        let a = (small - 1) as nat;
        let b = (large - 1) as nat;
        lemma_exec_all_budget(a, b, st, body, 0, answers);
        match exec_all(a, st, body, 0, answers) {
            Ok(s1) => {
                if !s1.specs.brk {
                    lemma_repeat_budget(a, b, s1, fewer(left), body, answers);
                }
            },
            Err(_) => {},
        }
    }
}

/// What a program leaves does not depend on the budget.
pub proof fn lemma_run_budget(small: nat, large: nat, st: State, stmts: Seq<Statement>, answers: Seq<Answer>)
    requires
        small <= large,
        !spent(run(small, st, stmts, answers)),
    ensures
        run(large, st, stmts, answers) == run(small, st, stmts, answers),
{
    if anchored(st) {
        lemma_exec_all_budget(small, large, st, stmts, 0, answers);
    }
}

} // verus!
