//! What evaluation means: the result of running expressions and statements
//! on a state, as functions of a budget, the state, the syntax and the
//! answers of the host.
//!
//! The budget bounds how deep evaluation may go: every nested construct,
//! every call and every round of a loop takes one from it, and evaluation
//! fails with `E0x409` where none is left. A program that never ends thus
//! fails under every budget. So does one that needs more scopes than there
//! are handles.
//!
//! The answers are those that the host gives, in the order in which it is
//! asked. The state keeps the record of what was asked and answered so far;
//! the next answer is the one behind those on record.

use vstd::prelude::*;
use crate::ast::{Expression, FuncBody, Statement};
use crate::display::written;
use crate::env::{Bound, Frame, assign_in, define_in, enclose_in, lookup};
use crate::errors::{ErrorCode, Failure, told, unplaced};
use crate::host::{Answer, Exchange, Request, Stop, reply};
use crate::token::{LiteralKind, Token, TokenType, TypeKind, at, at_first};
use crate::value::{Closure, SIGN, Value};

verus! {

/// The control signals that pass between statements.
pub struct Flags {
    /// A `break` ran and no loop has taken notice yet.
    pub brk: bool,
    /// A `return` ran, with this value.
    pub ret: Option<Value>,
}

/// The state of an evaluator: the scopes, the handle of the current one, the
/// control signals, whether a module is being loaded, and the record of
/// what the host was asked and what it answered.
pub struct State {
    pub env: Seq<Frame>,
    pub scope: usize,
    pub specs: Flags,
    pub is_mod: bool,
    pub said: Seq<Exchange>,
}

/// No signal is set.
pub open spec fn calm() -> Flags {
    Flags { brk: false, ret: None }
}

/// The outcome of a failure.
pub open spec fn failed<T>(f: Failure) -> Result<T, Stop> {
    Err(Stop::Failed(f))
}

/// The failure of a spent budget.
pub open spec fn limit() -> Failure {
    unplaced(ErrorCode::E0x409)
}

/// Whether there is a handle left for one more scope.
pub open spec fn roomy(st: State) -> bool {
    st.env.len() < usize::MAX
}

/// `st` with other scopes.
pub open spec fn with_env(st: State, env: Seq<Frame>) -> State {
    State { env, scope: st.scope, specs: st.specs, is_mod: st.is_mod, said: st.said }
}

/// `st` with another current scope.
pub open spec fn with_scope(st: State, scope: usize) -> State {
    State { env: st.env, scope, specs: st.specs, is_mod: st.is_mod, said: st.said }
}

/// `st` with other signals.
pub open spec fn with_specs(st: State, specs: Flags) -> State {
    State { env: st.env, scope: st.scope, specs, is_mod: st.is_mod, said: st.said }
}

/// `st` with another record.
pub open spec fn with_said(st: State, said: Seq<Exchange>) -> State {
    State { env: st.env, scope: st.scope, specs: st.specs, is_mod: st.is_mod, said }
}

/// `st` once a loop has taken notice of a `break`.
pub open spec fn settled(st: State) -> State {
    with_specs(st, Flags { brk: false, ret: st.specs.ret })
}

/// The value that stands for a built-in type.
pub open spec fn type_value(kind: TypeKind) -> Value {
    match kind {
        TypeKind::Number => Value::Number(0),
        TypeKind::String => Value::String(Seq::empty()),
        TypeKind::Char => Value::Char('\0'),
        TypeKind::Bool => Value::Boolean(false),
        TypeKind::Null => Value::Null,
        TypeKind::Void => Value::Void,
        TypeKind::Array => Value::Array(Seq::empty()),
        TypeKind::Func => Value::Null,
        TypeKind::Any => Value::Any,
    }
}

/// What a token asks of the host before it denotes a value: the double of
/// a numeric literal.
pub open spec fn literal_request(token: Token) -> Option<Request> {
    match (token.token, token.value) {
        (TokenType::NumberLit, Some(LiteralKind::Number { base, whole, fraction })) => Some(
            Request::Number { base, whole: whole@, fraction: fraction@ },
        ),
        _ => None,
    }
}

/// The failure of a token whose payload is not the one that its kind calls
/// for. It tells what was expected.
pub open spec fn misfit(token: Token, expected: Seq<char>) -> Failure {
    told(at(token, ErrorCode::E0x408), seq![expected])
}

/// The value that a token denotes, where `bits` is the double that the host
/// gave for a numeric literal. A literal token must carry the payload of
/// its kind, and a name the type that it names (`E0x408`, which tells what
/// was expected: `number`, `string`, `char`, `boolean` or `identifier`); a
/// token that is neither a literal nor a name denotes nothing (`E0x407`).
pub open spec fn literal_with(token: Token, bits: u64) -> Result<Value, Failure> {
    match token.token {
        TokenType::NumberLit => match token.value {
            Some(LiteralKind::Number { .. }) => Ok(Value::Number(bits)),
            _ => Err(misfit(token, "number"@)),
        },
        TokenType::StringLit => match token.value {
            Some(LiteralKind::String { value }) => Ok(Value::String(value@)),
            _ => Err(misfit(token, "string"@)),
        },
        TokenType::CharLit => match token.value {
            Some(LiteralKind::Char { value }) => Ok(Value::Char(value)),
            _ => Err(misfit(token, "char"@)),
        },
        TokenType::TrueLit | TokenType::FalseLit => match token.value {
            Some(LiteralKind::Bool { value }) => Ok(Value::Boolean(value)),
            _ => Err(misfit(token, "boolean"@)),
        },
        TokenType::NullLit => Ok(Value::Null),
        TokenType::ArrayLit => Ok(Value::Array(Seq::empty())),
        TokenType::Ident
        | TokenType::NumberIdent
        | TokenType::StringIdent
        | TokenType::AnyIdent
        | TokenType::BoolIdent
        | TokenType::CharIdent
        | TokenType::FuncIdent
        | TokenType::NullIdent
        | TokenType::ArrayIdent => match token.value {
            Some(LiteralKind::Type(kind)) => Ok(type_value(kind)),
            _ => Err(misfit(token, "identifier"@)),
        },
        _ => Err(at(token, ErrorCode::E0x407)),
    }
}

/// The value that a token denotes, and the record behind it.
pub open spec fn literal_of(token: Token, said: Seq<Exchange>, answers: Seq<Answer>) -> Result<
    (Seq<Exchange>, Value),
    Stop,
> {
    match literal_request(token) {
        Some(request) => match reply(said, request, answers) {
            Some((s1, Answer::Bits(bits))) => match literal_with(token, bits) {
                Ok(v) => Ok((s1, v)),
                Err(x) => failed(x),
            },
            _ => Err(Stop::Unheard),
        },
        None => match literal_with(token, 0) {
            Ok(v) => Ok((said, v)),
            Err(x) => failed(x),
        },
    }
}

/// Whether `value` has the type that `declared` names: the name is that of
/// the value's type, or it is `any`.
pub open spec fn conforms(declared: Token, value: Value) -> bool {
    declared.lexeme@ == "any"@ || declared.lexeme@ == value.typename()
}

/// The double of the opposite sign.
pub open spec fn negated(bits: u64) -> u64 {
    if bits >= SIGN {
        (bits - SIGN) as u64
    } else {
        (bits + SIGN) as u64
    }
}

/// What a prefix operator gives.
pub open spec fn unary(op: Token, v: Value) -> Result<Value, Failure> {
    match op.token {
        TokenType::Not => Ok(Value::Boolean(!v.is_truthy())),
        TokenType::Minus => match v {
            Value::Number(bits) => Ok(Value::Number(negated(bits))),
            _ => Err(at(op, ErrorCode::E0x301)),
        },
        _ => Err(at(op, ErrorCode::E0x301)),
    }
}

/// What `==` or `!=` gives for two operands that are, or are not, the same.
pub open spec fn verdict(op: Token, same: bool) -> Result<Value, Failure> {
    match op.token {
        TokenType::Eq => Ok(Value::Boolean(same)),
        TokenType::NotEq => Ok(Value::Boolean(!same)),
        _ => Err(at(op, ErrorCode::E0x301)),
    }
}

/// What an infix operator asks of the host: its result on two numbers.
pub open spec fn binary_request(op: Token, l: Value, r: Value) -> Option<Request> {
    match (l, r) {
        (Value::Number(left), Value::Number(right)) => Some(
            Request::Operate { op: op.token, left, right },
        ),
        _ => None,
    }
}

/// What an infix operator other than `&&` and `||` gives, where `answer` is
/// what the host gave for two numbers. Strings are joined by `+`; strings,
/// characters, booleans and nulls are compared by `==` and `!=`. Nothing
/// else has a meaning.
pub open spec fn binary_with(op: Token, l: Value, r: Value, answer: Value) -> Result<Value, Failure> {
    match (l, r) {
        (Value::Number(_), Value::Number(_)) => Ok(answer),
        (Value::String(a), Value::String(b)) => match op.token {
            TokenType::Plus => Ok(Value::String(a + b)),
            _ => verdict(op, a == b),
        },
        (Value::Char(a), Value::Char(b)) => verdict(op, a == b),
        (Value::Boolean(a), Value::Boolean(b)) => verdict(op, a == b),
        (Value::Null, Value::Null) => verdict(op, true),
        _ => Err(at(op, ErrorCode::E0x301)),
    }
}

/// What an infix operator other than `&&` and `||` gives, and the record
/// behind it.
pub open spec fn binary(op: Token, l: Value, r: Value, said: Seq<Exchange>, answers: Seq<Answer>) -> Result<
    (Seq<Exchange>, Value),
    Stop,
> {
    match binary_request(op, l, r) {
        Some(request) => match reply(said, request, answers) {
            Some((s1, Answer::Value(v))) => Ok((s1, v)),
            _ => Err(Stop::Unheard),
        },
        None => match binary_with(op, l, r, Value::Null) {
            Ok(v) => Ok((said, v)),
            Err(x) => failed(x),
        },
    }
}

/// The function value that a statement declares, made in scope `scope`.
pub open spec fn make_func(stmt: Statement, scope: usize) -> Result<Closure, Failure> {
    match stmt {
        Statement::Func { name, value_type, body, params, is_async, is_pub, is_impl, is_mut } => {
            match body {
                FuncBody::Statements(_) => Ok(
                    Closure {
                        name,
                        value_type,
                        body,
                        params,
                        is_async,
                        is_pub,
                        is_impl,
                        is_mut,
                        env: scope,
                    },
                ),
                _ => Err(at(name, ErrorCode::E0x403)),
            }
        },
        _ => Err(unplaced(ErrorCode::E0x404)),
    }
}

/// `env` with each of `names[from..]` bound to `value` in scope `scope`.
pub open spec fn define_all(
    env: Seq<Frame>,
    scope: usize,
    names: Seq<Token>,
    value: Value,
    is_pub: bool,
    from: int,
) -> Seq<Frame>
    decreases names.len() - from,
{
    if from < 0 || from >= names.len() {
        env
    } else {
        define_all(
            define_in(env, scope, Bound { name: names[from].lexeme@, value, is_pub, kind: None }),
            scope,
            names,
            value,
            is_pub,
            from + 1,
        )
    }
}

/// The failure of a value that has not the declared type, with the two
/// texts that tell of it.
pub open spec fn mismatch(first: Seq<char>, second: Seq<char>) -> Failure {
    told(unplaced(ErrorCode::E0x301), seq![first, second])
}

/// The outcome of an argument that has not the declared type: the failure
/// that tells of the value, twice.
pub open spec fn bad_argument<T>(v: Value, said: Seq<Exchange>, answers: Seq<Answer>) -> Result<
    T,
    Stop,
> {
    match written(v, said, answers) {
        Ok((s1, first)) => match written(v, s1, answers) {
            Ok((_, second)) => failed(mismatch(first, second)),
            Err(x) => Err(x),
        },
        Err(x) => Err(x),
    }
}

/// The outcome of a returned value that has not the declared type: the
/// failure that tells of the type and of the value.
pub open spec fn bad_return<T>(declared: Token, v: Value, said: Seq<Exchange>, answers: Seq<Answer>) -> Result<
    T,
    Stop,
> {
    match written(v, said, answers) {
        Ok((_, text)) => failed(mismatch(declared.lexeme@, text)),
        Err(x) => Err(x),
    }
}

/// `st` with the parameters `params[from..]` bound to `vals[from..]` in
/// scope `scope`, each value held to the type `declared`.
pub open spec fn bind_params(
    st: State,
    scope: usize,
    declared: Token,
    params: Seq<(Token, Token)>,
    vals: Seq<Value>,
    from: int,
    answers: Seq<Answer>,
) -> Result<State, Stop>
    decreases vals.len() - from,
{
    if from < 0 || from >= vals.len() {
        Ok(st)
    } else if !conforms(declared, vals[from]) {
        bad_argument(vals[from], st.said, answers)
    } else {
        bind_params(
            with_env(
                st,
                define_in(
                    st.env,
                    scope,
                    Bound {
                        name: params[from].0.lexeme@,
                        value: vals[from],
                        is_pub: false,
                        kind: None,
                    },
                ),
            ),
            scope,
            declared,
            params,
            vals,
            from + 1,
            answers,
        )
    }
}

/// The caller's state after a call: scopes and record as the call left
/// them, the rest as it was before.
pub open spec fn resume(inner: State, caller: State) -> State {
    State {
        env: inner.env,
        scope: caller.scope,
        specs: caller.specs,
        is_mod: caller.is_mod,
        said: inner.said,
    }
}

/// The value of an expression, and the state behind it.
pub open spec fn eval(fuel: nat, st: State, e: Expression, answers: Seq<Answer>) -> Result<
    (State, Value),
    Stop,
>
    decreases fuel, 0nat,
{
    if fuel == 0 {
        failed(limit())
    } else {
        let f = (fuel - 1) as nat;
        match e {
            Expression::Value { value, .. } => match literal_of(value, st.said, answers) {
                Ok((said, v)) => Ok((with_said(st, said), v)),
                Err(x) => Err(x),
            },
            Expression::Var { name, .. } => match lookup(st.env, st.scope, name.lexeme@) {
                Some(v) => Ok((st, v)),
                None => failed(at(name, ErrorCode::E0x306)),
            },
            Expression::Unary { left, operator, .. } => match eval(f, st, *left, answers) {
                Ok((s1, v)) => match unary(operator, v) {
                    Ok(r) => Ok((s1, r)),
                    Err(x) => failed(x),
                },
                Err(x) => Err(x),
            },
            Expression::Binary { left, operator, right, .. } => match eval(f, st, *left, answers) {
                Ok((s1, l)) => {
                    if operator.token == TokenType::And && !l.is_truthy() {
                        Ok((s1, Value::Boolean(false)))
                    } else if operator.token == TokenType::Or && l.is_truthy() {
                        Ok((s1, Value::Boolean(true)))
                    } else {
                        match eval(f, s1, *right, answers) {
                            Ok((s2, r)) => {
                                if operator.token == TokenType::And || operator.token
                                    == TokenType::Or {
                                    Ok((s2, Value::Boolean(r.is_truthy())))
                                } else {
                                    match binary(operator, l, r, s2.said, answers) {
                                        Ok((said, v)) => Ok((with_said(s2, said), v)),
                                        Err(x) => Err(x),
                                    }
                                }
                            },
                            Err(x) => Err(x),
                        }
                    }
                },
                Err(x) => Err(x),
            },
            Expression::Grouping { expression, .. } => eval(f, st, *expression, answers),
            Expression::Call { name, args, .. } => match eval(f, st, *name, answers) {
                Ok((s1, callee)) => match callee {
                    Value::Func(c) => call(f, s1, c, args@, answers),
                    Value::DeclrFunc { arity, func, .. } => {
                        if args@.len() != arity {
                            failed(unplaced(ErrorCode::E0x405))
                        } else {
                            match eval_all(f, s1, args@, 0, Seq::empty(), answers) {
                                Ok((s2, vals)) => match reply(
                                    s2.said,
                                    Request::Call { func, args: vals },
                                    answers,
                                ) {
                                    Some((said, Answer::Value(v))) => Ok((with_said(s2, said), v)),
                                    _ => Err(Stop::Unheard),
                                },
                                Err(x) => Err(x),
                            }
                        }
                    },
                    _ => failed(unplaced(ErrorCode::E0x301)),
                },
                Err(x) => Err(x),
            },
            Expression::Method { .. } => Ok((st, Value::Null)),
            Expression::Assign { name, value, .. } => match eval(f, st, *value, answers) {
                Ok((s1, v)) => match assign_in(s1.env, s1.scope, name.lexeme@, v) {
                    Some(env) => Ok((with_env(s1, env), v)),
                    None => failed(at(name, ErrorCode::E0x306)),
                },
                Err(x) => Err(x),
            },
            Expression::Array { .. } => Ok((st, Value::Array(Seq::empty()))),
            Expression::Object { .. } => Ok((st, Value::Null)),
            Expression::Func { name, value_type, body, params, is_async, is_pub, .. } => Ok(
                (
                    st,
                    Value::Func(
                        Closure {
                            name,
                            value_type,
                            body,
                            params,
                            is_async,
                            is_pub,
                            is_impl: false,
                            is_mut: false,
                            env: st.scope,
                        },
                    ),
                ),
            ),
            Expression::Await { expr, .. } => eval(f, st, *expr, answers),
        }
    }
}

/// The values of `args[from..]`, evaluated from left to right, behind
/// `done`.
pub open spec fn eval_all(
    fuel: nat,
    st: State,
    args: Seq<Expression>,
    from: int,
    done: Seq<Value>,
    answers: Seq<Answer>,
) -> Result<(State, Seq<Value>), Stop>
    decreases fuel, args.len() - from,
{
    if fuel == 0 {
        failed(limit())
    } else if from < 0 || from >= args.len() {
        Ok((st, done))
    } else {
        match eval((fuel - 1) as nat, st, args[from], answers) {
            Ok((s1, v)) => eval_all(fuel, s1, args, from + 1, done.push(v), answers),
            Err(x) => Err(x),
        }
    }
}

/// The state in which the body of `c` starts, called from `s1` with the
/// values `vals`: a fresh scope inside the one that the function captured
/// holds the parameters, and no signal is set.
pub open spec fn enter(s1: State, c: Closure, vals: Seq<Value>, answers: Seq<Answer>) -> Result<
    State,
    Stop,
> {
    if !roomy(s1) {
        failed(limit())
    } else {
        let scope = s1.env.len() as usize;
        match bind_params(
            with_env(s1, enclose_in(s1.env, c.env)),
            scope,
            c.value_type,
            c.params@,
            vals,
            0,
            answers,
        ) {
            Ok(s) => Ok(
                State { env: s.env, scope, specs: calm(), is_mod: false, said: s.said },
            ),
            Err(x) => Err(x),
        }
    }
}

/// The call of the function `c` on `args`, from the state `st`.
///
/// The number of arguments must be that of the parameters (`E0x405`). The
/// arguments are evaluated in the caller's scope, from left to right. A
/// fresh scope inside the one that the function captured binds each
/// parameter; each argument is held to the declared return type
/// (`E0x301`). The body runs there, with no signal set, statement by
/// statement until one of them has set the return signal; the value
/// returned is held to the declared type (`E0x301`). A body that ends
/// without returning gives null if the declared type is `void`, and fails
/// otherwise (`E0x406`). A body that is an expression returns its value.
pub open spec fn call(fuel: nat, st: State, c: Closure, args: Seq<Expression>, answers: Seq<Answer>) -> Result<
    (State, Value),
    Stop,
>
    decreases fuel, 0nat,
{
    if fuel == 0 {
        failed(limit())
    } else if args.len() != c.params@.len() {
        failed(unplaced(ErrorCode::E0x405))
    } else {
        let f = (fuel - 1) as nat;
        match eval_all(f, st, args, 0, Seq::empty(), answers) {
            Ok((s1, vals)) => match enter(s1, c, vals, answers) {
                Ok(s2) => match c.body {
                    FuncBody::Statements(stmts) => match run_body(
                        f,
                        s2,
                        c.value_type,
                        stmts@,
                        0,
                        answers,
                    ) {
                        Ok((s3, Some(v))) => Ok((resume(s3, s1), v)),
                        Ok((s3, None)) => {
                            if c.value_type.lexeme@ != "void"@ {
                                failed(unplaced(ErrorCode::E0x406))
                            } else {
                                Ok((resume(s3, s1), Value::Null))
                            }
                        },
                        Err(x) => Err(x),
                    },
                    FuncBody::Expression(e) => match eval(f, s2, *e, answers) {
                        Ok((s3, v)) => {
                            if conforms(c.value_type, v) {
                                Ok((resume(s3, s1), v))
                            } else {
                                bad_return(c.value_type, v, s3.said, answers)
                            }
                        },
                        Err(x) => Err(x),
                    },
                },
                Err(x) => Err(x),
            },
            Err(x) => Err(x),
        }
    }
}

/// Runs `stmts[from..]` as a function body: up to the first statement that
/// leaves the return signal set. The value returned is held to `declared`.
pub open spec fn run_body(
    fuel: nat,
    st: State,
    declared: Token,
    stmts: Seq<Statement>,
    from: int,
    answers: Seq<Answer>,
) -> Result<(State, Option<Value>), Stop>
    decreases fuel, stmts.len() - from,
{
    if fuel == 0 {
        failed(limit())
    } else if from < 0 || from >= stmts.len() {
        Ok((st, None))
    } else {
        match exec((fuel - 1) as nat, st, stmts[from], answers) {
            Ok(s1) => match s1.specs.ret {
                Some(v) => {
                    if conforms(declared, v) {
                        Ok((s1, Some(v)))
                    } else {
                        bad_return(declared, v, s1.said, answers)
                    }
                },
                None => run_body(fuel, s1, declared, stmts, from + 1, answers),
            },
            Err(x) => Err(x),
        }
    }
}

/// The state behind one statement.
///
/// While a module is loaded (`is_mod`), blocks, conditionals and loops are
/// passed over, and of the declarations only the public ones take effect.
pub open spec fn exec(fuel: nat, st: State, stmt: Statement, answers: Seq<Answer>) -> Result<
    State,
    Stop,
>
    decreases fuel, 0nat,
{
    if fuel == 0 {
        failed(limit())
    } else {
        let f = (fuel - 1) as nat;
        match stmt {
            Statement::Expression { expr } => match eval(f, st, expr, answers) {
                Ok((s1, _)) => Ok(s1),
                Err(x) => Err(x),
            },
            Statement::Block { stmts } => {
                if st.is_mod {
                    Ok(st)
                } else if !roomy(st) {
                    failed(limit())
                } else {
                    let inner = with_scope(
                        with_env(st, enclose_in(st.env, st.scope)),
                        st.env.len() as usize,
                    );
                    match exec_all(f, inner, stmts@, 0, answers) {
                        Ok(s1) => Ok(with_scope(s1, st.scope)),
                        Err(x) => Err(x),
                    }
                }
            },
            Statement::Var { names, value, is_pub, pub_names, is_func, .. } => match value {
                Some(v) => {
                    if !st.is_mod {
                        if is_func {
                            if names@.len() != 1 {
                                failed(at_first(names@, ErrorCode::E0x401))
                            } else {
                                failed(unplaced(ErrorCode::E0x404))
                            }
                        } else {
                            match eval(f, st, v, answers) {
                                Ok((s1, val)) => {
                                    let e1 = define_all(s1.env, s1.scope, names@, val, false, 0);
                                    if is_pub {
                                        Ok(
                                            with_env(
                                                s1,
                                                define_all(e1, s1.scope, pub_names@, val, true, 0),
                                            ),
                                        )
                                    } else {
                                        Ok(with_env(s1, e1))
                                    }
                                },
                                Err(x) => Err(x),
                            }
                        }
                    } else if is_pub {
                        match eval(f, st, v, answers) {
                            Ok((s1, val)) => Ok(
                                with_env(
                                    s1,
                                    define_all(s1.env, s1.scope, pub_names@, val, true, 0),
                                ),
                            ),
                            Err(x) => Err(x),
                        }
                    } else {
                        Ok(st)
                    }
                },
                None => {
                    if is_pub {
                        failed(at_first(names@, ErrorCode::E0x402))
                    } else {
                        Ok(
                            with_env(
                                st,
                                define_all(st.env, st.scope, names@, Value::Null, false, 0),
                            ),
                        )
                    }
                },
            },
            Statement::Func { name, is_pub, .. } => match make_func(stmt, st.scope) {
                Ok(c) => {
                    if is_pub || !st.is_mod {
                        Ok(
                            with_env(
                                st,
                                define_in(
                                    st.env,
                                    st.scope,
                                    Bound {
                                        name: name.lexeme@,
                                        value: Value::Func(c),
                                        is_pub,
                                        kind: None,
                                    },
                                ),
                            ),
                        )
                    } else {
                        Ok(st)
                    }
                },
                Err(x) => failed(x),
            },
            Statement::If { cond, body, else_branch, else_if_branches } => {
                if st.is_mod {
                    Ok(st)
                } else {
                    match eval(f, st, cond, answers) {
                        Ok((s1, c)) => {
                            if c.is_truthy() {
                                exec_all(f, s1, body@, 0, answers)
                            } else {
                                match branches(f, s1, else_if_branches@, 0, answers) {
                                    Ok((s2, taken)) => match else_branch {
                                        Some(b) => {
                                            if taken {
                                                Ok(s2)
                                            } else {
                                                exec_all(f, s2, b@, 0, answers)
                                            }
                                        },
                                        None => Ok(s2),
                                    },
                                    Err(x) => Err(x),
                                }
                            }
                        },
                        Err(x) => Err(x),
                    }
                }
            },
            Statement::Return { expr } => match eval(f, st, expr, answers) {
                Ok((s1, v)) => Ok(with_specs(s1, Flags { brk: s1.specs.brk, ret: Some(v) })),
                Err(x) => Err(x),
            },
            Statement::While { cond, body } => {
                if st.is_mod {
                    Ok(st)
                } else {
                    rounds(f, st, cond, body@, answers)
                }
            },
            Statement::Loop { iter, body } => {
                if st.is_mod {
                    Ok(st)
                } else {
                    repeat(f, st, iter, body@, answers)
                }
            },
            Statement::Break {  } => Ok(with_specs(st, Flags { brk: true, ret: st.specs.ret })),
            _ => Ok(st),
        }
    }
}

/// The state behind `stmts[from..]`, run in order.
pub open spec fn exec_all(fuel: nat, st: State, stmts: Seq<Statement>, from: int, answers: Seq<Answer>) -> Result<
    State,
    Stop,
>
    decreases fuel, stmts.len() - from,
{
    if fuel == 0 {
        failed(limit())
    } else if from < 0 || from >= stmts.len() {
        Ok(st)
    } else {
        match exec((fuel - 1) as nat, st, stmts[from], answers) {
            Ok(s1) => exec_all(fuel, s1, stmts, from + 1, answers),
            Err(x) => Err(x),
        }
    }
}

/// Tries the `elif` arms `arms[from..]` in order and runs the body of the
/// first whose condition holds. The flag says whether one was run.
pub open spec fn branches(
    fuel: nat,
    st: State,
    arms: Seq<(Expression, Vec<Statement>)>,
    from: int,
    answers: Seq<Answer>,
) -> Result<(State, bool), Stop>
    decreases fuel, arms.len() - from,
{
    if fuel == 0 {
        failed(limit())
    } else if from < 0 || from >= arms.len() {
        Ok((st, false))
    } else {
        match eval((fuel - 1) as nat, st, arms[from].0, answers) {
            Ok((s1, c)) => {
                if c.is_truthy() {
                    match exec_all((fuel - 1) as nat, s1, arms[from].1@, 0, answers) {
                        Ok(s2) => Ok((s2, true)),
                        Err(x) => Err(x),
                    }
                } else {
                    branches(fuel, s1, arms, from + 1, answers)
                }
            },
            Err(x) => Err(x),
        }
    }
}

/// A `while` loop: as long as the condition holds, the body runs; a round
/// that leaves the break signal set is the last, and clears it.
pub open spec fn rounds(
    fuel: nat,
    st: State,
    cond: Expression,
    body: Seq<Statement>,
    answers: Seq<Answer>,
) -> Result<State, Stop>
    decreases fuel, 0nat,
{
    if fuel == 0 {
        failed(limit())
    } else {
        let f = (fuel - 1) as nat;
        match eval(f, st, cond, answers) {
            Ok((s1, c)) => {
                if !c.is_truthy() {
                    Ok(s1)
                } else {
                    match exec_all(f, s1, body, 0, answers) {
                        Ok(s2) => {
                            if s2.specs.brk {
                                Ok(settled(s2))
                            } else {
                                rounds(f, s2, cond, body, answers)
                            }
                        },
                        Err(x) => Err(x),
                    }
                }
            },
            Err(x) => Err(x),
        }
    }
}

/// One less of a count, where there is a count.
pub open spec fn fewer(left: Option<usize>) -> Option<usize> {
    match left {
        Some(n) => Some((n - 1) as usize),
        None => None,
    }
}

/// A `loop`: the body runs `left` times, or without end where no count is
/// given; a round that leaves the break signal set is the last, and clears
/// it.
pub open spec fn repeat(
    fuel: nat,
    st: State,
    left: Option<usize>,
    body: Seq<Statement>,
    answers: Seq<Answer>,
) -> Result<State, Stop>
    decreases fuel, 0nat,
{
    if left == Some(0usize) {
        Ok(st)
    } else if fuel == 0 {
        failed(limit())
    } else {
        let f = (fuel - 1) as nat;
        match exec_all(f, st, body, 0, answers) {
            Ok(s1) => {
                if s1.specs.brk {
                    Ok(settled(s1))
                } else {
                    repeat(f, s1, fewer(left), body, answers)
                }
            },
            Err(x) => Err(x),
        }
    }
}

/// Whether the state stands in a scope that exists.
pub open spec fn anchored(st: State) -> bool {
    st.scope < st.env.len()
}

/// The state behind a program: its statements run in order. An evaluator
/// that stands in no scope cannot run (`E0x308`).
pub open spec fn run(fuel: nat, st: State, stmts: Seq<Statement>, answers: Seq<Answer>) -> Result<
    State,
    Stop,
> {
    if anchored(st) {
        exec_all(fuel, st, stmts, 0, answers)
    } else {
        failed(unplaced(ErrorCode::E0x308))
    }
}

/// The call of a function from outside a program. An evaluator that stands
/// in no scope cannot call (`E0x308`).
pub open spec fn invoke(fuel: nat, st: State, c: Closure, args: Seq<Expression>, answers: Seq<Answer>) -> Result<
    (State, Value),
    Stop,
> {
    if anchored(st) {
        call(fuel, st, c, args, answers)
    } else {
        failed(unplaced(ErrorCode::E0x308))
    }
}

/// The value of an expression asked from outside a program. An evaluator
/// that stands in no scope cannot evaluate (`E0x308`).
pub open spec fn value_of(fuel: nat, st: State, e: Expression, answers: Seq<Answer>) -> Result<
    (State, Value),
    Stop,
> {
    if anchored(st) {
        eval(fuel, st, e, answers)
    } else {
        failed(unplaced(ErrorCode::E0x308))
    }
}

/// A call with the wrong number of arguments fails with `E0x405`, and
/// evaluates none of them.
pub proof fn lemma_wrong_arity(fuel: nat, st: State, c: Closure, args: Seq<Expression>, answers: Seq<Answer>)
    requires
        fuel > 0,
        args.len() != c.params@.len(),
    ensures
        call(fuel, st, c, args, answers) == failed::<(State, Value)>(unplaced(ErrorCode::E0x405)),
{
}

/// What a function body hands back has the declared type.
pub proof fn lemma_body_returns_declared(
    fuel: nat,
    st: State,
    declared: Token,
    stmts: Seq<Statement>,
    from: int,
    answers: Seq<Answer>,
)
    ensures
        run_body(fuel, st, declared, stmts, from, answers) matches Ok((_, Some(v))) ==> conforms(
            declared,
            v,
        ),
    decreases fuel, stmts.len() - from,
{
    if fuel > 0 && 0 <= from < stmts.len() {
        match exec((fuel - 1) as nat, st, stmts[from], answers) {
            Ok(s1) => {
                if s1.specs.ret is None {
                    lemma_body_returns_declared(fuel, s1, declared, stmts, from + 1, answers);
                }
            },
            Err(_) => {},
        }
    }
}

/// The value of a call has the type that the function declares; or the
/// function declares `void`, has run to its end without returning, and the
/// value is null. So a function that returns a value of another type
/// fails, and so does a function that must return a value and does not.
pub proof fn lemma_call_returns_declared(
    fuel: nat,
    st: State,
    c: Closure,
    args: Seq<Expression>,
    answers: Seq<Answer>,
)
    ensures
        call(fuel, st, c, args, answers) matches Ok((_, v)) ==> conforms(c.value_type, v) || (v
            == Value::Null && c.value_type.lexeme@ == "void"@),
{
    if fuel > 0 && args.len() == c.params@.len() {
        let f = (fuel - 1) as nat;
        match eval_all(f, st, args, 0, Seq::empty(), answers) {
            Ok((s1, vals)) => match enter(s1, c, vals, answers) {
                Ok(s2) => match c.body {
                    FuncBody::Statements(stmts) => {
                        lemma_body_returns_declared(f, s2, c.value_type, stmts@, 0, answers);
                    },
                    FuncBody::Expression(_) => {},
                },
                Err(_) => {},
            },
            Err(_) => {},
        }
    }
}

} // verus!
