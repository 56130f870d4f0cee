//! The evaluator: it runs resolved statements against the environment and
//! is proved to compute what `semantics` says, whatever the host answers.

use vstd::prelude::*;
use vstd::string::StringExecFns;
use crate::ast::{Expression, FuncBody, Statement};
use crate::display::{text_of, written};
use crate::env::{Env, tidy};
use crate::errors::{Error, ErrorCode, Failure, unplaced};
use crate::host::{Answer, Exchange, Host, Request, Stop, grown, heard, lemma_heard_before};
use crate::literals::{
    apply_unary, binary_given, digits_of, literal_given, numbers_of, type_check,
    typekind_to_literaltype,
};
use crate::semantics::{
    Flags, State, bad_argument, bind_params, binary, branches, call, calm, define_all, enter,
    eval, eval_all, exec, exec_all, invoke, literal_of, make_func, repeat, resume, rounds, run,
    run_body, value_of, with_env, with_said,
};
use crate::stdlib::{load, seeded};
use crate::text::same;
use crate::token::{Token, TokenType, TypeKind, error_at};
use crate::value::{Closure, FuncImpl, LiteralType, Value, lemma_views, views};

verus! {

/// The control signals that pass between statements.
#[derive(Debug, PartialEq)]
pub struct Specs<'a> {
    /// A `break` ran and no loop has taken notice yet.
    pub brk: bool,
    /// A `return` ran, with this value.
    pub ret: Option<LiteralType<'a>>,
}

impl<'a> View for Specs<'a> {
    type V = Flags;

    open spec fn view(&self) -> Flags {
        Flags {
            brk: self.brk,
            ret: match self.ret {
                Some(v) => Some(v@),
                None => None,
            },
        }
    }
}

impl<'a> Specs<'a> {
    /// No signal is set.
    pub fn new() -> (s: Specs<'a>)
        ensures
            s@ == calm(),
    {
        Specs { brk: false, ret: None }
    }
}

/// An evaluator: the scopes and the handle of the current one, the control
/// signals, whether a module is being loaded, the host, the budget of each
/// run, the source text that diagnostics refer to, and the record of what
/// the host was asked and what it answered.
pub struct Interpreter<'a, H> {
    pub env: Env<'a>,
    pub scope: usize,
    pub specs: Specs<'a>,
    pub is_mod: bool,
    pub host: H,
    pub fuel: u64,
    pub source: String,
    pub said: Ghost<Seq<Exchange>>,
}

impl<'a, H> View for Interpreter<'a, H> {
    type V = State;

    open spec fn view(&self) -> State {
        State {
            env: self.env@,
            scope: self.scope,
            specs: self.specs@,
            is_mod: self.is_mod,
            said: self.said@,
        }
    }
}

/// The statements that a list of references leads to.
pub open spec fn derefs(stmts: Seq<&Statement>) -> Seq<Statement> {
    Seq::new(stmts.len(), |i: int| *stmts[i])
}

/// What no run changes, however it ends: the evaluator stands in the scope
/// it stood in, no scope has gone, the mode, the budget and the source are
/// what they were, the record has only grown, and no scope has come to
/// bind a name twice.
pub open spec fn kept<'a, H>(before: Interpreter<'a, H>, after: Interpreter<'a, H>) -> bool {
    &&& after.scope == before.scope
    &&& after.env@.len() >= before.env@.len()
    &&& after.is_mod == before.is_mod
    &&& after.fuel == before.fuel
    &&& after.source == before.source
    &&& grown(before.said@, after.said@)
    &&& tidy(before.env@) ==> tidy(after.env@)
}

/// The outcome of a step that gives a value.
pub open spec fn gave<'a>(r: Result<LiteralType<'a>, Error>, after: State) -> Result<
    (State, Value),
    Stop,
> {
    match r {
        Ok(v) => Ok((after, v@)),
        Err(x) => Err(Stop::Failed(x@)),
    }
}

/// The outcome of a step that gives values.
pub open spec fn gave_all<'a>(r: Result<Vec<LiteralType<'a>>, Error>, after: State) -> Result<
    (State, Seq<Value>),
    Stop,
> {
    match r {
        Ok(vals) => Ok((after, views(vals@))),
        Err(x) => Err(Stop::Failed(x@)),
    }
}

/// The outcome of a step that may give a value.
pub open spec fn gave_some<'a>(r: Result<Option<LiteralType<'a>>, Error>, after: State) -> Result<
    (State, Option<Value>),
    Stop,
> {
    match r {
        Ok(Some(v)) => Ok((after, Some(v@))),
        Ok(None) => Ok((after, None)),
        Err(x) => Err(Stop::Failed(x@)),
    }
}

/// The outcome of a step that gives a flag.
pub open spec fn gave_flag(r: Result<bool, Error>, after: State) -> Result<(State, bool), Stop> {
    match r {
        Ok(b) => Ok((after, b)),
        Err(x) => Err(Stop::Failed(x@)),
    }
}

/// The outcome of a step that gives nothing.
pub open spec fn went(r: Result<(), Error>, after: State) -> Result<State, Stop> {
    match r {
        Ok(_) => Ok(after),
        Err(x) => Err(Stop::Failed(x@)),
    }
}

impl<'a, H: Host> Interpreter<'a, H> {
    /// The current scope exists.
    pub open spec fn wf(&self) -> bool {
        self.scope < self.env@.len()
    }

    /// An evaluator whose root scope holds the standard library, with no
    /// signal set, nothing on record and the largest budget.
    pub fn new(src: &str, host: H) -> (interp: Interpreter<'a, H>)
        ensures
            interp.wf(),
            interp@ == (State {
                env: seeded(),
                scope: 0,
                specs: calm(),
                is_mod: false,
                said: Seq::empty(),
            }),
            interp.fuel == u64::MAX,
            interp.source@ == src@,
            tidy(interp.env@),
    {
        let mut env = Env::new();
        load(&mut env);
        Interpreter::new_with_env(env, 0, src, host)
    }

    /// An evaluator over the scopes `env`, standing in scope `scope`, with
    /// no signal set, nothing on record and the largest budget.
    pub fn new_with_env(env: Env<'a>, scope: usize, src: &str, host: H) -> (interp: Interpreter<'a, H>)
        ensures
            interp@ == (State {
                env: env@,
                scope,
                specs: calm(),
                is_mod: false,
                said: Seq::empty(),
            }),
            interp.fuel == u64::MAX,
            interp.source@ == src@,
    {
        Interpreter {
            env,
            scope,
            specs: Specs::new(),
            is_mod: false,
            host,
            fuel: u64::MAX,
            source: String::from_str(src),
            said: Ghost(Seq::empty()),
        }
    }

    /// The function value that the statement `stmt` declares, made in the
    /// current scope.
    pub fn create_func(&self, stmt: &'a Statement) -> (r: Result<FuncImpl<'a>, Error>)
        ensures
            match r {
                Ok(c) => make_func(*stmt, self.scope) == Ok::<Closure, Failure>(c@),
                Err(x) => make_func(*stmt, self.scope) == Err::<Closure, Failure>(x@),
            },
    {
        match stmt {
            Statement::Func { name, value_type, body, params, is_async, is_pub, is_impl, is_mut } => {
                match body {
                    FuncBody::Statements(_) => Ok(
                        FuncImpl {
                            name,
                            value_type,
                            body,
                            params,
                            is_async: *is_async,
                            is_pub: *is_pub,
                            is_impl: *is_impl,
                            is_mut: *is_mut,
                            env: self.scope,
                        },
                    ),
                    _ => Err(error_at(name, ErrorCode::E0x403)),
                }
            },
            _ => Err(Error::bare(ErrorCode::E0x404)),
        }
    }

    /// Binds each of `names` to `value` in the current scope.
    fn define_each(&mut self, names: &'a Vec<Token>, value: &LiteralType<'a>, is_pub: bool)
        requires
            old(self).wf(),
        ensures
            final(self)@ == with_env(
                old(self)@,
                define_all(old(self).env@, old(self).scope, names@, value@, is_pub, 0),
            ),
            kept(*old(self), *final(self)),
    {
        let mut i: usize = 0;
        while i < names.len()
            invariant
                i <= names@.len(),
                self.wf(),
                kept(*old(self), *self),
                self@ == with_env(old(self)@, self.env@),
                define_all(old(self).env@, old(self).scope, names@, value@, is_pub, 0) == define_all(
                    self.env@,
                    self.scope,
                    names@,
                    value@,
                    is_pub,
                    i as int,
                ),
            decreases names@.len() - i,
        {
            if is_pub {
                self.env.define_pub(self.scope, names[i].lexeme.clone(), value.copy());
            } else {
                self.env.define(self.scope, names[i].lexeme.clone(), value.copy());
            }
            i = i + 1;
        }
    }

    /// The value that a token denotes. The host is asked for the double of
    /// a numeric literal.
    pub fn literal(&mut self, token: &Token) -> (r: Result<LiteralType<'a>, Error>)
        ensures
            forall|answers: Seq<Answer>|
                heard(answers, final(self).said@) ==> #[trigger] literal_of(
                    *token,
                    old(self).said@,
                    answers,
                ) == (match r {
                    Ok(v) => Ok((final(self).said@, v@)),
                    Err(x) => Err(Stop::Failed(x@)),
                }),
            final(self)@ == with_said(old(self)@, final(self).said@),
            kept(*old(self), *final(self)),
    {
        match digits_of(token) {
            Some((base, whole, fraction)) => {
                let bits = self.host.to_number(base, whole, fraction);
                proof {
                    self.said@ = self.said@.push(
                        Exchange {
                            request: Request::Number {
                                base,
                                whole: whole@,
                                fraction: fraction@,
                            },
                            answer: Answer::Bits(bits),
                        },
                    );
                }
                literal_given(token, bits)
            },
            None => literal_given(token, 0),
        }
    }

    /// What an infix operator other than `&&` and `||` gives. The host is
    /// asked where both operands are numbers.
    pub fn operate(&mut self, op: &Token, l: &LiteralType<'a>, r: &LiteralType<'a>) -> (out: Result<
        LiteralType<'a>,
        Error,
    >)
        ensures
            forall|answers: Seq<Answer>|
                heard(answers, final(self).said@) ==> #[trigger] binary(
                    *op,
                    l@,
                    r@,
                    old(self).said@,
                    answers,
                ) == (match out {
                    Ok(v) => Ok((final(self).said@, v@)),
                    Err(x) => Err(Stop::Failed(x@)),
                }),
            final(self)@ == with_said(old(self)@, final(self).said@),
            kept(*old(self), *final(self)),
    {
        match numbers_of(op, l, r) {
            Some((left, right)) => {
                let answer = self.host.number_op(op.token, left, right);
                proof {
                    self.said@ = self.said@.push(
                        Exchange {
                            request: Request::Operate { op: op.token, left, right },
                            answer: Answer::Value(answer@),
                        },
                    );
                }
                binary_given(op, l, r, answer)
            },
            None => binary_given(op, l, r, LiteralType::Null),
        }
    }

    /// The value of an expression.
    #[verifier::loop_isolation(false)]
    pub fn eval(&mut self, e: &'a Expression, fuel: u64) -> (r: Result<LiteralType<'a>, Error>)
        requires
            old(self).wf(),
        ensures
            forall|answers: Seq<Answer>|
                heard(answers, final(self).said@) ==> #[trigger] eval(
                    fuel as nat,
                    old(self)@,
                    *e,
                    answers,
                ) == gave(r, final(self)@),
            kept(*old(self), *final(self)),
        decreases fuel, 0nat,
    {
        if fuel == 0 {
            return Err(Error::bare(ErrorCode::E0x409));
        }
        let f: u64 = fuel - 1;
        match e {
            Expression::Value { value, .. } => {
                let r = self.literal(value);
                proof {
                    assert forall|answers: Seq<Answer>| heard(answers, self.said@) implies
                        #[trigger] eval(fuel as nat, old(self)@, *e, answers) == gave(r, self@) by {
                        let x = literal_of(*value, old(self).said@, answers);
                    }
                }
                r
            },
            Expression::Var { name, .. } => match self.env.get(self.scope, &name.lexeme) {
                Ok(v) => Ok(v),
                Err(_) => Err(error_at(name, ErrorCode::E0x306)),
            },
            Expression::Unary { left, operator, .. } => {
                let r1 = self.eval(&**left, f);
                let ghost g1 = gave(r1, self@);
                let out = match r1 {
                    Ok(v) => apply_unary(operator, &v),
                    Err(x) => Err(x),
                };
                proof {
                    assert forall|answers: Seq<Answer>| heard(answers, self.said@) implies
                        #[trigger] eval(fuel as nat, old(self)@, *e, answers) == gave(out, self@) by {
                        assert(eval(f as nat, old(self)@, **left, answers) == g1);
                    }
                }
                out
            },
            Expression::Binary { left, operator, right, .. } => {
                let r1 = self.eval(&**left, f);
                let ghost g1 = gave(r1, self@);
                let ghost s1 = self@;
                let l = match r1 {
                    Ok(v) => v,
                    Err(x) => {
                        proof {
                            assert forall|answers: Seq<Answer>| heard(answers, self.said@) implies
                                #[trigger] eval(fuel as nat, old(self)@, *e, answers) == Err::<
                                (State, Value),
                                Stop,
                            >(Stop::Failed(x@)) by {
                                assert(eval(f as nat, old(self)@, **left, answers) == g1);
                            }
                        }
                        return Err(x);
                    },
                };
                if (operator.token == TokenType::And && !l.is_truthy()) || (operator.token
                    == TokenType::Or && l.is_truthy()) {
                    let out = LiteralType::Boolean(l.is_truthy());
                    proof {
                        assert forall|answers: Seq<Answer>| heard(answers, self.said@) implies
                            #[trigger] eval(fuel as nat, old(self)@, *e, answers) == Ok::<
                            (State, Value),
                            Stop,
                        >((self@, out@)) by {
                            assert(eval(f as nat, old(self)@, **left, answers) == g1);
                        }
                    }
                    return Ok(out);
                }
                let r2 = self.eval(&**right, f);
                let ghost g2 = gave(r2, self@);
                let ghost s2 = self@;
                let r = match r2 {
                    Ok(v) => v,
                    Err(x) => {
                        proof {
                            assert forall|answers: Seq<Answer>| heard(answers, self.said@) implies
                                #[trigger] eval(fuel as nat, old(self)@, *e, answers) == Err::<
                                (State, Value),
                                Stop,
                            >(Stop::Failed(x@)) by {
                                assert(eval(f as nat, old(self)@, **left, answers) == g1);
                                assert(eval(f as nat, s1, **right, answers) == g2);
                            }
                        }
                        return Err(x);
                    },
                };
                if operator.token == TokenType::And || operator.token == TokenType::Or {
                    let out = LiteralType::Boolean(r.is_truthy());
                    proof {
                        assert forall|answers: Seq<Answer>| heard(answers, self.said@) implies
                            #[trigger] eval(fuel as nat, old(self)@, *e, answers) == Ok::<
                            (State, Value),
                            Stop,
                        >((self@, out@)) by {
                            assert(eval(f as nat, old(self)@, **left, answers) == g1);
                            assert(eval(f as nat, s1, **right, answers) == g2);
                        }
                    }
                    Ok(out)
                } else {
                    let out = self.operate(operator, &l, &r);
                    proof {
                        assert forall|answers: Seq<Answer>| heard(answers, self.said@) implies
                            #[trigger] eval(fuel as nat, old(self)@, *e, answers) == gave(
                            out,
                            self@,
                        ) by {
                            assert(eval(f as nat, old(self)@, **left, answers) == g1);
                            assert(eval(f as nat, s1, **right, answers) == g2);
                            let x = binary(*operator, l@, r@, s2.said, answers);
                        }
                    }
                    out
                }
            },
            Expression::Grouping { expression, .. } => {
                let out = self.eval(&**expression, f);
                proof {
                    assert forall|answers: Seq<Answer>| heard(answers, self.said@) implies
                        #[trigger] eval(fuel as nat, old(self)@, *e, answers) == gave(out, self@) by {
                        assert(eval(f as nat, old(self)@, **expression, answers) == gave(
                            out,
                            self@,
                        ));
                    }
                }
                out
            },
            Expression::Call { name, args, .. } => {
                let r1 = self.eval(&**name, f);
                let ghost g1 = gave(r1, self@);
                let ghost s1 = self@;
                let callee = match r1 {
                    Ok(v) => v,
                    Err(x) => {
                        proof {
                            assert forall|answers: Seq<Answer>| heard(answers, self.said@) implies
                                #[trigger] eval(fuel as nat, old(self)@, *e, answers) == Err::<
                                (State, Value),
                                Stop,
                            >(Stop::Failed(x@)) by {
                                assert(eval(f as nat, old(self)@, **name, answers) == g1);
                            }
                        }
                        return Err(x);
                    },
                };
                match callee {
                    LiteralType::Func(c) => {
                        let out = self.call(c, args, f);
                        proof {
                            assert forall|answers: Seq<Answer>| heard(answers, self.said@) implies
                                #[trigger] eval(fuel as nat, old(self)@, *e, answers) == gave(
                                out,
                                self@,
                            ) by {
                                assert(eval(f as nat, old(self)@, **name, answers) == g1);
                                assert(call(f as nat, s1, c@, args@, answers) == gave(out, self@));
                            }
                        }
                        out
                    },
                    LiteralType::DeclrFunc(d) => {
                        if args.len() != d.arity {
                            proof {
                                assert forall|answers: Seq<Answer>| heard(
                                    answers,
                                    self.said@,
                                ) implies #[trigger] eval(fuel as nat, old(self)@, *e, answers)
                                    == Err::<(State, Value), Stop>(
                                    Stop::Failed(unplaced(ErrorCode::E0x405)),
                                ) by {
                                    assert(eval(f as nat, old(self)@, **name, answers) == g1);
                                }
                            }
                            return Err(Error::bare(ErrorCode::E0x405));
                        }
                        let r2 = self.eval_all(args, f);
                        let ghost g2 = gave_all(r2, self@);
                        let ghost s2 = self@;
                        let vals = match r2 {
                            Ok(v) => v,
                            Err(x) => {
                                proof {
                                    assert forall|answers: Seq<Answer>| heard(
                                        answers,
                                        self.said@,
                                    ) implies #[trigger] eval(
                                        fuel as nat,
                                        old(self)@,
                                        *e,
                                        answers,
                                    ) == Err::<(State, Value), Stop>(Stop::Failed(x@)) by {
                                        assert(eval(f as nat, old(self)@, **name, answers) == g1);
                                        assert(eval_all(
                                            f as nat,
                                            s1,
                                            args@,
                                            0,
                                            Seq::empty(),
                                            answers,
                                        ) == g2);
                                    }
                                }
                                return Err(x);
                            },
                        };
                        let answer = self.host.call(d.func, &vals);
                        proof {
                            self.said@ = self.said@.push(
                                Exchange {
                                    request: Request::Call { func: d.func, args: views(vals@) },
                                    answer: Answer::Value(answer@),
                                },
                            );
                            assert forall|answers: Seq<Answer>| heard(answers, self.said@) implies
                                #[trigger] eval(fuel as nat, old(self)@, *e, answers) == Ok::<
                                (State, Value),
                                Stop,
                            >((self@, answer@)) by {
                                assert(eval(f as nat, old(self)@, **name, answers) == g1);
                                assert(eval_all(f as nat, s1, args@, 0, Seq::empty(), answers)
                                    == g2);
                                assert(answers[s2.said.len() as int] == Answer::Value(answer@));
                            }
                        }
                        Ok(answer)
                    },
                    _ => {
                        proof {
                            assert forall|answers: Seq<Answer>| heard(answers, self.said@) implies
                                #[trigger] eval(fuel as nat, old(self)@, *e, answers) == Err::<
                                (State, Value),
                                Stop,
                            >(Stop::Failed(unplaced(ErrorCode::E0x301))) by {
                                assert(eval(f as nat, old(self)@, **name, answers) == g1);
                            }
                        }
                        Err(Error::bare(ErrorCode::E0x301))
                    },
                }
            },
            Expression::Method { .. } => Ok(LiteralType::Null),
            Expression::Assign { name, value, .. } => {
                let r1 = self.eval(&**value, f);
                let ghost g1 = gave(r1, self@);
                let v = match r1 {
                    Ok(v) => v,
                    Err(x) => {
                        proof {
                            assert forall|answers: Seq<Answer>| heard(answers, self.said@) implies
                                #[trigger] eval(fuel as nat, old(self)@, *e, answers) == Err::<
                                (State, Value),
                                Stop,
                            >(Stop::Failed(x@)) by {
                                assert(eval(f as nat, old(self)@, **value, answers) == g1);
                            }
                        }
                        return Err(x);
                    },
                };
                let out = match self.env.assign(self.scope, &name.lexeme, v.copy()) {
                    Ok(_) => Ok(v),
                    Err(_) => Err(error_at(name, ErrorCode::E0x306)),
                };
                proof {
                    assert forall|answers: Seq<Answer>| heard(answers, self.said@) implies
                        #[trigger] eval(fuel as nat, old(self)@, *e, answers) == gave(out, self@) by {
                        assert(eval(f as nat, old(self)@, **value, answers) == g1);
                    }
                }
                out
            },
            Expression::Array { .. } => Ok(typekind_to_literaltype(TypeKind::Array)),
            Expression::Object { .. } => Ok(LiteralType::Null),
            Expression::Func { name, value_type, body, params, is_async, is_pub, .. } => Ok(
                LiteralType::Func(
                    FuncImpl {
                        name,
                        value_type,
                        body,
                        params,
                        is_async: *is_async,
                        is_pub: *is_pub,
                        is_impl: false,
                        is_mut: false,
                        env: self.scope,
                    },
                ),
            ),
            Expression::Await { expr, .. } => {
                let out = self.eval(&**expr, f);
                proof {
                    assert forall|answers: Seq<Answer>| heard(answers, self.said@) implies
                        #[trigger] eval(fuel as nat, old(self)@, *e, answers) == gave(out, self@) by {
                        assert(eval(f as nat, old(self)@, **expr, answers) == gave(out, self@));
                    }
                }
                out
            },
        }
    }

    /// The values of `args`, evaluated from left to right.
    #[verifier::loop_isolation(false)]
    pub fn eval_all(&mut self, args: &'a Vec<Expression>, fuel: u64) -> (r: Result<
        Vec<LiteralType<'a>>,
        Error,
    >)
        requires
            old(self).wf(),
        ensures
            forall|answers: Seq<Answer>|
                heard(answers, final(self).said@) ==> #[trigger] eval_all(
                    fuel as nat,
                    old(self)@,
                    args@,
                    0,
                    Seq::empty(),
                    answers,
                ) == gave_all(r, final(self)@),
            r matches Ok(vals) ==> vals@.len() == args@.len(),
            kept(*old(self), *final(self)),
        decreases fuel, args@.len(),
    {
        if fuel == 0 {
            return Err(Error::bare(ErrorCode::E0x409));
        }
        let f: u64 = fuel - 1;
        let mut vals: Vec<LiteralType<'a>> = Vec::new();
        let mut i: usize = 0;
        proof {
            lemma_views(vals@);
            assert(views(vals@) =~= Seq::<Value>::empty());
        }
        while i < args.len()
            invariant
                i <= args@.len(),
                vals@.len() == i,
                fuel > 0,
                f == fuel - 1,
                self.wf(),
                kept(*old(self), *self),
                forall|answers: Seq<Answer>|
                    heard(answers, self.said@) ==> #[trigger] eval_all(
                        fuel as nat,
                        old(self)@,
                        args@,
                        0,
                        Seq::empty(),
                        answers,
                    ) == eval_all(fuel as nat, self@, args@, i as int, views(vals@), answers),
            decreases args@.len() - i,
        {
            let ghost done = views(vals@);
            let ghost had = vals@;
            let ghost before = self@;
            let r = self.eval(&args[i], f);
            let ghost g = gave(r, self@);
            proof {
                assert forall|answers: Seq<Answer>| heard(answers, self.said@) implies eval_all(
                    fuel as nat,
                    before,
                    args@,
                    i as int,
                    done,
                    answers,
                ) == (match g {
                    Ok((s, v)) => eval_all(fuel as nat, s, args@, i + 1, done.push(v), answers),
                    Err(x) => Err(x),
                }) by {
                    assert(eval(f as nat, before, args@[i as int], answers) == g);
                }
            }
            let v = match r {
                Ok(v) => v,
                Err(x) => {
                    return Err(x);
                },
            };
            vals.push(v);
            proof {
                lemma_views(vals@);
                lemma_views(had);
                assert(views(vals@) =~= done.push(v@));
            }
            i = i + 1;
        }
        Ok(vals)
    }

    /// Binds the parameters of `c` to `vals` in scope `scope`.
    fn bind_each(&mut self, scope: usize, c: FuncImpl<'a>, vals: &Vec<LiteralType<'a>>) -> (r: Result<
        (),
        Error,
    >)
        requires
            old(self).wf(),
            scope < old(self).env@.len(),
            vals@.len() == c.params@.len(),
        ensures
            forall|answers: Seq<Answer>|
                heard(answers, final(self).said@) ==> #[trigger] bind_params(
                    old(self)@,
                    scope,
                    *c.value_type,
                    c.params@,
                    views(vals@),
                    0,
                    answers,
                ) == went(r, final(self)@),
            r is Ok ==> final(self).env@.len() == old(self).env@.len() && final(self).said@ == old(
                self,
            ).said@,
            final(self).specs == old(self).specs,
            kept(*old(self), *final(self)),
    {
        let mut i: usize = 0;
        proof {
            lemma_views(vals@);
        }
        while i < vals.len()
            invariant
                i <= vals@.len(),
                vals@.len() == c.params@.len(),
                scope < self.env@.len(),
                self.wf(),
                kept(*old(self), *self),
                self.env@.len() == old(self).env@.len(),
                self.specs == old(self).specs,
                self.said@ == old(self).said@,
                views(vals@).len() == vals@.len(),
                forall|j: int| 0 <= j < vals@.len() ==> #[trigger] views(vals@)[j] == vals@[j]@,
                forall|answers: Seq<Answer>| #[trigger]
                    bind_params(
                        old(self)@,
                        scope,
                        *c.value_type,
                        c.params@,
                        views(vals@),
                        0,
                        answers,
                    ) == bind_params(
                        self@,
                        scope,
                        *c.value_type,
                        c.params@,
                        views(vals@),
                        i as int,
                        answers,
                    ),
            decreases vals@.len() - i,
        {
            if !type_check(c.value_type, &vals[i]) {
                let ghost before = self@;
                let ghost s0 = self.said@;
                let first = text_of(&vals[i], &self.host, &mut self.said);
                let ghost s1 = self.said@;
                let second = text_of(&vals[i], &self.host, &mut self.said);
                let out = Error::with_two(ErrorCode::E0x301, first, second);
                proof {
                    let v = views(vals@)[i as int];
                    assert(v == vals@[i as int]@);
                    assert forall|answers: Seq<Answer>| heard(answers, self.said@) implies
                        #[trigger] bind_params(
                        old(self)@,
                        scope,
                        *c.value_type,
                        c.params@,
                        views(vals@),
                        0,
                        answers,
                    ) == Err::<State, Stop>(Stop::Failed(out@)) by {
                        lemma_heard_before(answers, s1, self.said@);
                        assert(written(v, s0, answers) == Ok::<
                            (Seq<Exchange>, Seq<char>),
                            Stop,
                        >((s1, first@)));
                        assert(written(v, s1, answers) == Ok::<
                            (Seq<Exchange>, Seq<char>),
                            Stop,
                        >((self.said@, second@)));
                        assert(bind_params(
                            before,
                            scope,
                            *c.value_type,
                            c.params@,
                            views(vals@),
                            i as int,
                            answers,
                        ) == bad_argument::<State>(v, s0, answers));
                    }
                }
                return Err(out);
            }
            self.env.define(scope, c.params[i].0.lexeme.clone(), vals[i].copy());
            i = i + 1;
        }
        Ok(())
    }

    /// Puts the evaluator at the start of the body of `c`: in a fresh scope
    /// that holds the parameters, with no signal set. Hands back what the
    /// caller's scope, mode and signals were.
    fn enter(&mut self, c: FuncImpl<'a>, vals: &Vec<LiteralType<'a>>) -> (r: Result<
        (usize, bool, Specs<'a>),
        Error,
    >)
        requires
            old(self).wf(),
            vals@.len() == c.params@.len(),
        ensures
            forall|answers: Seq<Answer>|
                heard(answers, final(self).said@) ==> #[trigger] enter(
                    old(self)@,
                    c@,
                    views(vals@),
                    answers,
                ) == (match r {
                    Ok(_) => Ok(final(self)@),
                    Err(x) => Err(Stop::Failed(x@)),
                }),
            r matches Ok(saved) ==> {
                &&& final(self).wf()
                &&& final(self).env@.len() > old(self).env@.len()
                &&& saved.0 == old(self).scope
                &&& saved.1 == old(self).is_mod
                &&& saved.2 == old(self).specs
            },
            r is Err ==> kept(*old(self), *final(self)) && final(self).specs == old(self).specs,
            final(self).fuel == old(self).fuel,
            final(self).source == old(self).source,
            grown(old(self).said@, final(self).said@),
            tidy(old(self).env@) ==> tidy(final(self).env@),
    {
        if self.env.scopes.len() >= usize::MAX {
            return Err(Error::bare(ErrorCode::E0x409));
        }
        let scope = self.env.enclose(c.env);
        let ghost opened = self@;
        let r = self.bind_each(scope, c, vals);
        let ghost bound = self@;
        match r {
            Ok(_) => {},
            Err(x) => {
                proof {
                    assert forall|answers: Seq<Answer>| heard(answers, self.said@) implies
                        #[trigger] enter(old(self)@, c@, views(vals@), answers) == Err::<
                        State,
                        Stop,
                    >(Stop::Failed(x@)) by {
                        assert(bind_params(
                            opened,
                            scope,
                            *c.value_type,
                            c.params@,
                            views(vals@),
                            0,
                            answers,
                        ) == Err::<State, Stop>(Stop::Failed(x@)));
                    }
                }
                return Err(x);
            },
        }
        let saved_scope = self.scope;
        let saved_mod = self.is_mod;
        let mut saved_specs = Specs::new();
        core::mem::swap(&mut self.specs, &mut saved_specs);
        self.scope = scope;
        self.is_mod = false;
        proof {
            assert forall|answers: Seq<Answer>| heard(answers, self.said@) implies #[trigger] enter(
                old(self)@,
                c@,
                views(vals@),
                answers,
            ) == Ok::<State, Stop>(self@) by {
                assert(bind_params(
                    opened,
                    scope,
                    *c.value_type,
                    c.params@,
                    views(vals@),
                    0,
                    answers,
                ) == Ok::<State, Stop>(bound));
            }
        }
        Ok((saved_scope, saved_mod, saved_specs))
    }

    /// The call of the function `c` on `args`.
    #[verifier::loop_isolation(false)]
    pub fn call(&mut self, c: FuncImpl<'a>, args: &'a Vec<Expression>, fuel: u64) -> (r: Result<
        LiteralType<'a>,
        Error,
    >)
        requires
            old(self).wf(),
        ensures
            forall|answers: Seq<Answer>|
                heard(answers, final(self).said@) ==> #[trigger] call(
                    fuel as nat,
                    old(self)@,
                    c@,
                    args@,
                    answers,
                ) == gave(r, final(self)@),
            kept(*old(self), *final(self)),
        decreases fuel, 0nat,
    {
        if fuel == 0 {
            return Err(Error::bare(ErrorCode::E0x409));
        }
        if args.len() != c.params.len() {
            return Err(Error::bare(ErrorCode::E0x405));
        }
        let f: u64 = fuel - 1;
        let r1 = self.eval_all(args, f);
        let ghost g1 = gave_all(r1, self@);
        let ghost s1 = self@;
        let vals = match r1 {
            Ok(v) => v,
            Err(x) => {
                proof {
                    assert forall|answers: Seq<Answer>| heard(answers, self.said@) implies
                        #[trigger] call(fuel as nat, old(self)@, c@, args@, answers) == Err::<
                        (State, Value),
                        Stop,
                    >(Stop::Failed(x@)) by {
                        assert(eval_all(f as nat, old(self)@, args@, 0, Seq::empty(), answers)
                            == g1);
                    }
                }
                return Err(x);
            },
        };
        let r2 = self.enter(c, &vals);
        let ghost s2 = self@;
        let (caller_scope, caller_mod, caller_specs) = match r2 {
            Ok(saved) => saved,
            Err(x) => {
                proof {
                    assert forall|answers: Seq<Answer>| heard(answers, self.said@) implies
                        #[trigger] call(fuel as nat, old(self)@, c@, args@, answers) == Err::<
                        (State, Value),
                        Stop,
                    >(Stop::Failed(x@)) by {
                        assert(eval_all(f as nat, old(self)@, args@, 0, Seq::empty(), answers)
                            == g1);
                        assert(enter(s1, c@, views(vals@), answers) == Err::<State, Stop>(
                            Stop::Failed(x@),
                        ));
                    }
                }
                return Err(x);
            },
        };
        let out = match c.body {
            FuncBody::Statements(stmts) => {
                let r3 = self.run_body(c.value_type, stmts, f);
                let ghost g3 = gave_some(r3, self@);
                let out = match r3 {
                    Ok(Some(v)) => Ok(v),
                    Ok(None) => {
                        if !same(c.value_type.lexeme.as_str(), "void") {
                            Err(Error::bare(ErrorCode::E0x406))
                        } else {
                            Ok(LiteralType::Null)
                        }
                    },
                    Err(x) => Err(x),
                };
                proof {
                    let after = resume(self@, s1);
                    assert forall|answers: Seq<Answer>| heard(answers, self.said@) implies
                        #[trigger] call(fuel as nat, old(self)@, c@, args@, answers) == gave(
                        out,
                        after,
                    ) by {
                        assert(eval_all(f as nat, old(self)@, args@, 0, Seq::empty(), answers)
                            == g1);
                        assert(enter(s1, c@, views(vals@), answers) == Ok::<State, Stop>(s2));
                        assert(run_body(f as nat, s2, *c.value_type, stmts@, 0, answers) == g3);
                    }
                }
                out
            },
            FuncBody::Expression(e) => {
                let r3 = self.eval(&**e, f);
                let ghost g3 = gave(r3, self@);
                let ghost s3 = self@;
                match r3 {
                    Ok(v) => {
                        if type_check(c.value_type, &v) {
                            proof {
                                let after = resume(self@, s1);
                                assert forall|answers: Seq<Answer>| heard(
                                    answers,
                                    self.said@,
                                ) implies #[trigger] call(
                                    fuel as nat,
                                    old(self)@,
                                    c@,
                                    args@,
                                    answers,
                                ) == Ok::<(State, Value), Stop>((after, v@)) by {
                                    assert(eval_all(
                                        f as nat,
                                        old(self)@,
                                        args@,
                                        0,
                                        Seq::empty(),
                                        answers,
                                    ) == g1);
                                    assert(enter(s1, c@, views(vals@), answers) == Ok::<
                                        State,
                                        Stop,
                                    >(s2));
                                    assert(eval(f as nat, s2, **e, answers) == g3);
                                }
                            }
                            Ok(v)
                        } else {
                            let text = text_of(&v, &self.host, &mut self.said);
                            let x = Error::with_two(
                                ErrorCode::E0x301,
                                c.value_type.lexeme.clone(),
                                text,
                            );
                            proof {
                                assert forall|answers: Seq<Answer>| heard(
                                    answers,
                                    self.said@,
                                ) implies #[trigger] call(
                                    fuel as nat,
                                    old(self)@,
                                    c@,
                                    args@,
                                    answers,
                                ) == Err::<(State, Value), Stop>(Stop::Failed(x@)) by {
                                    assert(eval_all(
                                        f as nat,
                                        old(self)@,
                                        args@,
                                        0,
                                        Seq::empty(),
                                        answers,
                                    ) == g1);
                                    assert(enter(s1, c@, views(vals@), answers) == Ok::<
                                        State,
                                        Stop,
                                    >(s2));
                                    assert(eval(f as nat, s2, **e, answers) == g3);
                                    assert(written(v@, s3.said, answers) == Ok::<
                                        (Seq<Exchange>, Seq<char>),
                                        Stop,
                                    >((self.said@, text@)));
                                }
                            }
                            Err(x)
                        }
                    },
                    Err(x) => {
                        proof {
                            assert forall|answers: Seq<Answer>| heard(answers, self.said@) implies
                                #[trigger] call(fuel as nat, old(self)@, c@, args@, answers)
                                == Err::<(State, Value), Stop>(Stop::Failed(x@)) by {
                                assert(eval_all(
                                    f as nat,
                                    old(self)@,
                                    args@,
                                    0,
                                    Seq::empty(),
                                    answers,
                                ) == g1);
                                assert(enter(s1, c@, views(vals@), answers) == Ok::<State, Stop>(
                                    s2,
                                ));
                                assert(eval(f as nat, s2, **e, answers) == g3);
                            }
                        }
                        Err(x)
                    },
                }
            },
        };
        self.scope = caller_scope;
        self.is_mod = caller_mod;
        self.specs = caller_specs;
        out
    }

    /// Runs `stmts` as a function body.
    #[verifier::loop_isolation(false)]
    pub fn run_body(&mut self, declared: &'a Token, stmts: &'a Vec<Statement>, fuel: u64) -> (r: Result<
        Option<LiteralType<'a>>,
        Error,
    >)
        requires
            old(self).wf(),
        ensures
            forall|answers: Seq<Answer>|
                heard(answers, final(self).said@) ==> #[trigger] run_body(
                    fuel as nat,
                    old(self)@,
                    *declared,
                    stmts@,
                    0,
                    answers,
                ) == gave_some(r, final(self)@),
            kept(*old(self), *final(self)),
        decreases fuel, stmts@.len(),
    {
        if fuel == 0 {
            return Err(Error::bare(ErrorCode::E0x409));
        }
        let f: u64 = fuel - 1;
        let mut i: usize = 0;
        while i < stmts.len()
            invariant
                i <= stmts@.len(),
                fuel > 0,
                f == fuel - 1,
                self.wf(),
                kept(*old(self), *self),
                forall|answers: Seq<Answer>|
                    heard(answers, self.said@) ==> #[trigger] run_body(
                        fuel as nat,
                        old(self)@,
                        *declared,
                        stmts@,
                        0,
                        answers,
                    ) == run_body(fuel as nat, self@, *declared, stmts@, i as int, answers),
            decreases stmts@.len() - i,
        {
            let ghost before = self@;
            let r = self.exec(&stmts[i], f);
            let ghost g = went(r, self@);
            let ghost ran = self@;
            proof {
                assert forall|answers: Seq<Answer>| heard(answers, self.said@) implies exec(
                    f as nat,
                    before,
                    stmts@[i as int],
                    answers,
                ) == g by {}
            }
            match r {
                Ok(_) => {},
                Err(x) => {
                    proof {
                        assert forall|answers: Seq<Answer>| heard(answers, self.said@) implies
                            run_body(fuel as nat, before, *declared, stmts@, i as int, answers)
                            == Err::<(State, Option<Value>), Stop>(Stop::Failed(x@)) by {
                            assert(exec(f as nat, before, stmts@[i as int], answers) == g);
                        }
                    }
                    return Err(x);
                },
            }
            match &self.specs.ret {
                Some(v) => {
                    if !type_check(declared, v) {
                        let text = text_of(v, &self.host, &mut self.said);
                        let x = Error::with_two(ErrorCode::E0x301, declared.lexeme.clone(), text);
                        proof {
                            assert forall|answers: Seq<Answer>| heard(answers, self.said@) implies
                                run_body(
                                fuel as nat,
                                before,
                                *declared,
                                stmts@,
                                i as int,
                                answers,
                            ) == Err::<(State, Option<Value>), Stop>(Stop::Failed(x@)) by {
                                lemma_heard_before(answers, ran.said, self.said@);
                                assert(exec(f as nat, before, stmts@[i as int], answers) == g);
                                assert(written(v@, ran.said, answers) == Ok::<
                                    (Seq<Exchange>, Seq<char>),
                                    Stop,
                                >((self.said@, text@)));
                            }
                        }
                        return Err(x);
                    }
                    let out = v.copy();
                    proof {
                        assert forall|answers: Seq<Answer>| heard(answers, self.said@) implies
                            run_body(fuel as nat, before, *declared, stmts@, i as int, answers)
                            == Ok::<(State, Option<Value>), Stop>((self@, Some(out@))) by {
                            assert(exec(f as nat, before, stmts@[i as int], answers) == g);
                        }
                    }
                    return Ok(Some(out));
                },
                None => {},
            }
            proof {
                assert forall|answers: Seq<Answer>| heard(answers, self.said@) implies run_body(
                    fuel as nat,
                    before,
                    *declared,
                    stmts@,
                    i as int,
                    answers,
                ) == run_body(fuel as nat, self@, *declared, stmts@, i + 1, answers) by {
                    assert(exec(f as nat, before, stmts@[i as int], answers) == g);
                }
            }
            i = i + 1;
        }
        Ok(None)
    }

    /// Runs one statement.
    #[verifier::loop_isolation(false)]
    pub fn exec(&mut self, stmt: &'a Statement, fuel: u64) -> (r: Result<(), Error>)
        requires
            old(self).wf(),
        ensures
            forall|answers: Seq<Answer>|
                heard(answers, final(self).said@) ==> #[trigger] exec(
                    fuel as nat,
                    old(self)@,
                    *stmt,
                    answers,
                ) == went(r, final(self)@),
            kept(*old(self), *final(self)),
        decreases fuel, 0nat,
    {
        if fuel == 0 {
            return Err(Error::bare(ErrorCode::E0x409));
        }
        let f: u64 = fuel - 1;
        match stmt {
            Statement::Expression { expr } => {
                let r1 = self.eval(expr, f);
                let ghost g1 = gave(r1, self@);
                let out = match r1 {
                    Ok(_) => Ok(()),
                    Err(x) => Err(x),
                };
                proof {
                    assert forall|answers: Seq<Answer>| heard(answers, self.said@) implies
                        #[trigger] exec(fuel as nat, old(self)@, *stmt, answers) == went(out, self@) by {
                        assert(eval(f as nat, old(self)@, *expr, answers) == g1);
                    }
                }
                out
            },
            Statement::Block { stmts } => {
                if self.is_mod {
                    return Ok(());
                }
                if self.env.scopes.len() >= usize::MAX {
                    return Err(Error::bare(ErrorCode::E0x409));
                }
                let outer = self.scope;
                let inner = self.env.enclose(outer);
                self.scope = inner;
                let ghost opened = self@;
                let out = self.exec_all(stmts, f);
                let ghost g = went(out, self@);
                self.scope = outer;
                proof {
                    assert forall|answers: Seq<Answer>| heard(answers, self.said@) implies
                        #[trigger] exec(fuel as nat, old(self)@, *stmt, answers) == went(out, self@) by {
                        assert(exec_all(f as nat, opened, stmts@, 0, answers) == g);
                    }
                }
                out
            },
            Statement::Var { names, value, is_pub, pub_names, is_func, .. } => match value {
                Some(v) => {
                    if !self.is_mod {
                        if *is_func {
                            if names.len() != 1 {
                                if names.len() > 0 {
                                    Err(error_at(&names[0], ErrorCode::E0x401))
                                } else {
                                    Err(Error::bare(ErrorCode::E0x401))
                                }
                            } else {
                                match self.create_func(stmt) {
                                    Ok(_) => Err(Error::bare(ErrorCode::E0x404)),
                                    Err(x) => Err(x),
                                }
                            }
                        } else {
                            let r1 = self.eval(v, f);
                            let ghost g1 = gave(r1, self@);
                            let val = match r1 {
                                Ok(x) => x,
                                Err(x) => {
                                    proof {
                                        assert forall|answers: Seq<Answer>| heard(
                                            answers,
                                            self.said@,
                                        ) implies #[trigger] exec(
                                            fuel as nat,
                                            old(self)@,
                                            *stmt,
                                            answers,
                                        ) == Err::<State, Stop>(Stop::Failed(x@)) by {
                                            assert(eval(f as nat, old(self)@, *v, answers) == g1);
                                        }
                                    }
                                    return Err(x);
                                },
                            };
                            self.define_each(names, &val, false);
                            if *is_pub {
                                self.define_each(pub_names, &val, true);
                            }
                            proof {
                                assert forall|answers: Seq<Answer>| heard(
                                    answers,
                                    self.said@,
                                ) implies #[trigger] exec(
                                    fuel as nat,
                                    old(self)@,
                                    *stmt,
                                    answers,
                                ) == Ok::<State, Stop>(self@) by {
                                    assert(eval(f as nat, old(self)@, *v, answers) == g1);
                                }
                            }
                            Ok(())
                        }
                    } else if *is_pub {
                        let r1 = self.eval(v, f);
                        let ghost g1 = gave(r1, self@);
                        let val = match r1 {
                            Ok(x) => x,
                            Err(x) => {
                                proof {
                                    assert forall|answers: Seq<Answer>| heard(
                                        answers,
                                        self.said@,
                                    ) implies #[trigger] exec(
                                        fuel as nat,
                                        old(self)@,
                                        *stmt,
                                        answers,
                                    ) == Err::<State, Stop>(Stop::Failed(x@)) by {
                                        assert(eval(f as nat, old(self)@, *v, answers) == g1);
                                    }
                                }
                                return Err(x);
                            },
                        };
                        self.define_each(pub_names, &val, true);
                        proof {
                            assert forall|answers: Seq<Answer>| heard(answers, self.said@) implies
                                #[trigger] exec(fuel as nat, old(self)@, *stmt, answers) == Ok::<
                                State,
                                Stop,
                            >(self@) by {
                                assert(eval(f as nat, old(self)@, *v, answers) == g1);
                            }
                        }
                        Ok(())
                    } else {
                        Ok(())
                    }
                },
                None => {
                    if *is_pub {
                        if names.len() > 0 {
                            Err(error_at(&names[0], ErrorCode::E0x402))
                        } else {
                            Err(Error::bare(ErrorCode::E0x402))
                        }
                    } else {
                        self.define_each(names, &LiteralType::Null, false);
                        Ok(())
                    }
                },
            },
            Statement::Func { name, is_pub, .. } => {
                let c = match self.create_func(stmt) {
                    Ok(c) => c,
                    Err(x) => {
                        return Err(x);
                    },
                };
                if *is_pub {
                    self.env.define_pub(self.scope, name.lexeme.clone(), LiteralType::Func(c));
                } else if !self.is_mod {
                    self.env.define(self.scope, name.lexeme.clone(), LiteralType::Func(c));
                }
                Ok(())
            },
            Statement::If { cond, body, else_branch, else_if_branches } => {
                if self.is_mod {
                    return Ok(());
                }
                let r1 = self.eval(cond, f);
                let ghost g1 = gave(r1, self@);
                let ghost s1 = self@;
                let c = match r1 {
                    Ok(x) => x,
                    Err(x) => {
                        proof {
                            assert forall|answers: Seq<Answer>| heard(answers, self.said@) implies
                                #[trigger] exec(fuel as nat, old(self)@, *stmt, answers) == Err::<
                                State,
                                Stop,
                            >(Stop::Failed(x@)) by {
                                assert(eval(f as nat, old(self)@, *cond, answers) == g1);
                            }
                        }
                        return Err(x);
                    },
                };
                if c.is_truthy() {
                    let out = self.exec_all(body, f);
                    proof {
                        assert forall|answers: Seq<Answer>| heard(answers, self.said@) implies
                            #[trigger] exec(fuel as nat, old(self)@, *stmt, answers) == went(
                            out,
                            self@,
                        ) by {
                            assert(eval(f as nat, old(self)@, *cond, answers) == g1);
                            assert(exec_all(f as nat, s1, body@, 0, answers) == went(out, self@));
                        }
                    }
                    out
                } else {
                    let r2 = self.branches(else_if_branches, f);
                    let ghost g2 = gave_flag(r2, self@);
                    let ghost s2 = self@;
                    let taken = match r2 {
                        Ok(t) => t,
                        Err(x) => {
                            proof {
                                assert forall|answers: Seq<Answer>| heard(
                                    answers,
                                    self.said@,
                                ) implies #[trigger] exec(
                                    fuel as nat,
                                    old(self)@,
                                    *stmt,
                                    answers,
                                ) == Err::<State, Stop>(Stop::Failed(x@)) by {
                                    assert(eval(f as nat, old(self)@, *cond, answers) == g1);
                                    assert(branches(f as nat, s1, else_if_branches@, 0, answers)
                                        == g2);
                                }
                            }
                            return Err(x);
                        },
                    };
                    let out = match else_branch {
                        Some(b) => {
                            if taken {
                                Ok(())
                            } else {
                                let out = self.exec_all(b, f);
                                proof {
                                    assert forall|answers: Seq<Answer>| heard(
                                        answers,
                                        self.said@,
                                    ) implies exec_all(f as nat, s2, b@, 0, answers) == went(
                                        out,
                                        self@,
                                    ) by {}
                                }
                                out
                            }
                        },
                        None => Ok(()),
                    };
                    proof {
                        assert forall|answers: Seq<Answer>| heard(answers, self.said@) implies
                            #[trigger] exec(fuel as nat, old(self)@, *stmt, answers) == went(
                            out,
                            self@,
                        ) by {
                            assert(eval(f as nat, old(self)@, *cond, answers) == g1);
                            assert(branches(f as nat, s1, else_if_branches@, 0, answers) == g2);
                            if else_branch is Some && !taken {
                                assert(exec_all(f as nat, s2, else_branch->0@, 0, answers) == went(
                                    out,
                                    self@,
                                ));
                            }
                        }
                    }
                    out
                }
            },
            Statement::Return { expr } => {
                let r1 = self.eval(expr, f);
                let ghost g1 = gave(r1, self@);
                let out = match r1 {
                    Ok(v) => {
                        self.specs.ret = Some(v);
                        Ok(())
                    },
                    Err(x) => Err(x),
                };
                proof {
                    assert forall|answers: Seq<Answer>| heard(answers, self.said@) implies
                        #[trigger] exec(fuel as nat, old(self)@, *stmt, answers) == went(out, self@) by {
                        assert(eval(f as nat, old(self)@, *expr, answers) == g1);
                    }
                }
                out
            },
            Statement::While { cond, body } => {
                if self.is_mod {
                    return Ok(());
                }
                let out = self.rounds(cond, body, f);
                proof {
                    assert forall|answers: Seq<Answer>| heard(answers, self.said@) implies
                        #[trigger] exec(fuel as nat, old(self)@, *stmt, answers) == went(out, self@) by {
                        assert(rounds(f as nat, old(self)@, *cond, body@, answers) == went(
                            out,
                            self@,
                        ));
                    }
                }
                out
            },
            Statement::Loop { iter, body } => {
                if self.is_mod {
                    return Ok(());
                }
                let out = self.repeat(*iter, body, f);
                proof {
                    assert forall|answers: Seq<Answer>| heard(answers, self.said@) implies
                        #[trigger] exec(fuel as nat, old(self)@, *stmt, answers) == went(out, self@) by {
                        assert(repeat(f as nat, old(self)@, *iter, body@, answers) == went(
                            out,
                            self@,
                        ));
                    }
                }
                out
            },
            Statement::Break {  } => {
                self.specs.brk = true;
                Ok(())
            },
            _ => Ok(()),
        }
    }

    /// Runs `stmts` in order.
    #[verifier::loop_isolation(false)]
    pub fn exec_all(&mut self, stmts: &'a Vec<Statement>, fuel: u64) -> (r: Result<(), Error>)
        requires
            old(self).wf(),
        ensures
            forall|answers: Seq<Answer>|
                heard(answers, final(self).said@) ==> #[trigger] exec_all(
                    fuel as nat,
                    old(self)@,
                    stmts@,
                    0,
                    answers,
                ) == went(r, final(self)@),
            kept(*old(self), *final(self)),
        decreases fuel, stmts@.len(),
    {
        if fuel == 0 {
            return Err(Error::bare(ErrorCode::E0x409));
        }
        let f: u64 = fuel - 1;
        let mut i: usize = 0;
        while i < stmts.len()
            invariant
                i <= stmts@.len(),
                fuel > 0,
                f == fuel - 1,
                self.wf(),
                kept(*old(self), *self),
                forall|answers: Seq<Answer>|
                    heard(answers, self.said@) ==> #[trigger] exec_all(
                        fuel as nat,
                        old(self)@,
                        stmts@,
                        0,
                        answers,
                    ) == exec_all(fuel as nat, self@, stmts@, i as int, answers),
            decreases stmts@.len() - i,
        {
            let ghost before = self@;
            let r = self.exec(&stmts[i], f);
            proof {
                assert forall|answers: Seq<Answer>| heard(answers, self.said@) implies exec_all(
                    fuel as nat,
                    before,
                    stmts@,
                    i as int,
                    answers,
                ) == (match r {
                    Ok(_) => exec_all(fuel as nat, self@, stmts@, i + 1, answers),
                    Err(x) => Err(Stop::Failed(x@)),
                }) by {
                    assert(exec(f as nat, before, stmts@[i as int], answers) == went(r, self@));
                }
            }
            match r {
                Ok(_) => {},
                Err(x) => {
                    return Err(x);
                },
            }
            i = i + 1;
        }
        Ok(())
    }

    /// Tries the `elif` arms in order; says whether one was run.
    #[verifier::loop_isolation(false)]
    pub fn branches(&mut self, arms: &'a Vec<(Expression, Vec<Statement>)>, fuel: u64) -> (r: Result<
        bool,
        Error,
    >)
        requires
            old(self).wf(),
        ensures
            forall|answers: Seq<Answer>|
                heard(answers, final(self).said@) ==> #[trigger] branches(
                    fuel as nat,
                    old(self)@,
                    arms@,
                    0,
                    answers,
                ) == gave_flag(r, final(self)@),
            kept(*old(self), *final(self)),
        decreases fuel, arms@.len(),
    {
        if fuel == 0 {
            return Err(Error::bare(ErrorCode::E0x409));
        }
        let f: u64 = fuel - 1;
        let mut i: usize = 0;
        while i < arms.len()
            invariant
                i <= arms@.len(),
                fuel > 0,
                f == fuel - 1,
                self.wf(),
                kept(*old(self), *self),
                forall|answers: Seq<Answer>|
                    heard(answers, self.said@) ==> #[trigger] branches(
                        fuel as nat,
                        old(self)@,
                        arms@,
                        0,
                        answers,
                    ) == branches(fuel as nat, self@, arms@, i as int, answers),
            decreases arms@.len() - i,
        {
            let ghost before = self@;
            let r1 = self.eval(&arms[i].0, f);
            let ghost g1 = gave(r1, self@);
            let ghost s1 = self@;
            let c = match r1 {
                Ok(x) => x,
                Err(x) => {
                    proof {
                        assert forall|answers: Seq<Answer>| heard(answers, self.said@) implies
                            branches(fuel as nat, before, arms@, i as int, answers) == Err::<
                            (State, bool),
                            Stop,
                        >(Stop::Failed(x@)) by {
                            assert(eval(f as nat, before, arms@[i as int].0, answers) == g1);
                        }
                    }
                    return Err(x);
                },
            };
            if c.is_truthy() {
                let r2 = self.exec_all(&arms[i].1, f);
                let out = match r2 {
                    Ok(_) => Ok(true),
                    Err(x) => Err(x),
                };
                proof {
                    assert forall|answers: Seq<Answer>| heard(answers, self.said@) implies branches(
                        fuel as nat,
                        before,
                        arms@,
                        i as int,
                        answers,
                    ) == gave_flag(out, self@) by {
                        assert(eval(f as nat, before, arms@[i as int].0, answers) == g1);
                        assert(exec_all(f as nat, s1, arms@[i as int].1@, 0, answers) == went(
                            r2,
                            self@,
                        ));
                    }
                }
                return out;
            }
            proof {
                assert forall|answers: Seq<Answer>| heard(answers, self.said@) implies branches(
                    fuel as nat,
                    before,
                    arms@,
                    i as int,
                    answers,
                ) == branches(fuel as nat, self@, arms@, i + 1, answers) by {
                    assert(eval(f as nat, before, arms@[i as int].0, answers) == g1);
                }
            }
            i = i + 1;
        }
        Ok(false)
    }

    /// Runs a `while` loop.
    #[verifier::loop_isolation(false)]
    pub fn rounds(&mut self, cond: &'a Expression, body: &'a Vec<Statement>, fuel: u64) -> (r: Result<
        (),
        Error,
    >)
        requires
            old(self).wf(),
        ensures
            forall|answers: Seq<Answer>|
                heard(answers, final(self).said@) ==> #[trigger] rounds(
                    fuel as nat,
                    old(self)@,
                    *cond,
                    body@,
                    answers,
                ) == went(r, final(self)@),
            kept(*old(self), *final(self)),
        decreases fuel, 0nat,
    {
        let mut left: u64 = fuel;
        loop
            invariant
                left <= fuel,
                self.wf(),
                kept(*old(self), *self),
                forall|answers: Seq<Answer>|
                    heard(answers, self.said@) ==> #[trigger] rounds(
                        fuel as nat,
                        old(self)@,
                        *cond,
                        body@,
                        answers,
                    ) == rounds(left as nat, self@, *cond, body@, answers),
            decreases left,
        {
            if left == 0 {
                return Err(Error::bare(ErrorCode::E0x409));
            }
            let ghost had = left;
            let ghost before = self@;
            left = left - 1;
            let r1 = self.eval(cond, left);
            let ghost g1 = gave(r1, self@);
            let ghost s1 = self@;
            let c = match r1 {
                Ok(x) => x,
                Err(x) => {
                    proof {
                        assert forall|answers: Seq<Answer>| heard(answers, self.said@) implies
                            rounds(had as nat, before, *cond, body@, answers) == Err::<
                            State,
                            Stop,
                        >(Stop::Failed(x@)) by {
                            assert(eval(left as nat, before, *cond, answers) == g1);
                        }
                    }
                    return Err(x);
                },
            };
            if !c.is_truthy() {
                proof {
                    assert forall|answers: Seq<Answer>| heard(answers, self.said@) implies rounds(
                        had as nat,
                        before,
                        *cond,
                        body@,
                        answers,
                    ) == Ok::<State, Stop>(self@) by {
                        assert(eval(left as nat, before, *cond, answers) == g1);
                    }
                }
                return Ok(());
            }
            let r2 = self.exec_all(body, left);
            let ghost g2 = went(r2, self@);
            match r2 {
                Ok(_) => {},
                Err(x) => {
                    proof {
                        assert forall|answers: Seq<Answer>| heard(answers, self.said@) implies
                            rounds(had as nat, before, *cond, body@, answers) == Err::<
                            State,
                            Stop,
                        >(Stop::Failed(x@)) by {
                            assert(eval(left as nat, before, *cond, answers) == g1);
                            assert(exec_all(left as nat, s1, body@, 0, answers) == g2);
                        }
                    }
                    return Err(x);
                },
            }
            if self.specs.brk {
                self.specs.brk = false;
                proof {
                    assert forall|answers: Seq<Answer>| heard(answers, self.said@) implies rounds(
                        had as nat,
                        before,
                        *cond,
                        body@,
                        answers,
                    ) == Ok::<State, Stop>(self@) by {
                        assert(eval(left as nat, before, *cond, answers) == g1);
                        assert(exec_all(left as nat, s1, body@, 0, answers) == g2);
                    }
                }
                return Ok(());
            }
            proof {
                assert forall|answers: Seq<Answer>| heard(answers, self.said@) implies rounds(
                    had as nat,
                    before,
                    *cond,
                    body@,
                    answers,
                ) == rounds(left as nat, self@, *cond, body@, answers) by {
                    assert(eval(left as nat, before, *cond, answers) == g1);
                    assert(exec_all(left as nat, s1, body@, 0, answers) == g2);
                }
            }
        }
    }

    /// Runs a `loop`, `count` times or without end.
    #[verifier::loop_isolation(false)]
    pub fn repeat(&mut self, count: Option<usize>, body: &'a Vec<Statement>, fuel: u64) -> (r: Result<
        (),
        Error,
    >)
        requires
            old(self).wf(),
        ensures
            forall|answers: Seq<Answer>|
                heard(answers, final(self).said@) ==> #[trigger] repeat(
                    fuel as nat,
                    old(self)@,
                    count,
                    body@,
                    answers,
                ) == went(r, final(self)@),
            kept(*old(self), *final(self)),
        decreases fuel, 0nat,
    {
        let mut left: u64 = fuel;
        let mut todo: Option<usize> = count;
        loop
            invariant
                left <= fuel,
                self.wf(),
                kept(*old(self), *self),
                forall|answers: Seq<Answer>|
                    heard(answers, self.said@) ==> #[trigger] repeat(
                        fuel as nat,
                        old(self)@,
                        count,
                        body@,
                        answers,
                    ) == repeat(left as nat, self@, todo, body@, answers),
            decreases left,
        {
            match todo {
                Some(n) => {
                    if n == 0 {
                        return Ok(());
                    }
                },
                None => {},
            }
            if left == 0 {
                return Err(Error::bare(ErrorCode::E0x409));
            }
            let ghost had = left;
            let ghost before = self@;
            left = left - 1;
            let r1 = self.exec_all(body, left);
            let ghost g1 = went(r1, self@);
            match r1 {
                Ok(_) => {},
                Err(x) => {
                    proof {
                        assert forall|answers: Seq<Answer>| heard(answers, self.said@) implies
                            repeat(had as nat, before, todo, body@, answers) == Err::<
                            State,
                            Stop,
                        >(Stop::Failed(x@)) by {
                            assert(exec_all(left as nat, before, body@, 0, answers) == g1);
                        }
                    }
                    return Err(x);
                },
            }
            if self.specs.brk {
                self.specs.brk = false;
                proof {
                    assert forall|answers: Seq<Answer>| heard(answers, self.said@) implies repeat(
                        had as nat,
                        before,
                        todo,
                        body@,
                        answers,
                    ) == Ok::<State, Stop>(self@) by {
                        assert(exec_all(left as nat, before, body@, 0, answers) == g1);
                    }
                }
                return Ok(());
            }
            let ghost was = todo;
            todo =
            match todo {
                Some(n) => Some(n - 1),
                None => None,
            };
            proof {
                assert forall|answers: Seq<Answer>| heard(answers, self.said@) implies repeat(
                    had as nat,
                    before,
                    was,
                    body@,
                    answers,
                ) == repeat(left as nat, self@, todo, body@, answers) by {
                    assert(exec_all(left as nat, before, body@, 0, answers) == g1);
                }
            }
        }
    }

    /// Runs the statements in order, within the budget `self.fuel`.
    ///
    /// What is left behind is what `run` gives for the answers of the host,
    /// whatever it may answer later.
    pub fn interpret(&mut self, stmts: Vec<&'a Statement>) -> (r: Result<(), Error>)
        ensures
            forall|answers: Seq<Answer>|
                heard(answers, final(self).said@) ==> #[trigger] run(
                    old(self).fuel as nat,
                    old(self)@,
                    derefs(stmts@),
                    answers,
                ) == went(r, final(self)@),
            kept(*old(self), *final(self)),
    {
        if self.scope >= self.env.scopes.len() {
            return Err(Error::bare(ErrorCode::E0x308));
        }
        let fuel = self.fuel;
        if fuel == 0 {
            return Err(Error::bare(ErrorCode::E0x409));
        }
        let f: u64 = fuel - 1;
        let mut i: usize = 0;
        while i < stmts.len()
            invariant
                i <= stmts@.len(),
                fuel > 0,
                f == fuel - 1,
                fuel == old(self).fuel,
                old(self).wf(),
                self.wf(),
                kept(*old(self), *self),
                derefs(stmts@).len() == stmts@.len(),
                forall|answers: Seq<Answer>|
                    heard(answers, self.said@) ==> #[trigger] exec_all(
                        fuel as nat,
                        old(self)@,
                        derefs(stmts@),
                        0,
                        answers,
                    ) == exec_all(fuel as nat, self@, derefs(stmts@), i as int, answers),
            decreases stmts@.len() - i,
        {
            assert(derefs(stmts@)[i as int] == *stmts@[i as int]);
            let ghost before = self@;
            let r = self.exec(stmts[i], f);
            proof {
                assert forall|answers: Seq<Answer>| heard(answers, self.said@) implies exec_all(
                    fuel as nat,
                    before,
                    derefs(stmts@),
                    i as int,
                    answers,
                ) == (match r {
                    Ok(_) => exec_all(fuel as nat, self@, derefs(stmts@), i + 1, answers),
                    Err(x) => Err(Stop::Failed(x@)),
                }) by {
                    assert(exec(f as nat, before, *stmts@[i as int], answers) == went(r, self@));
                }
            }
            match r {
                Ok(_) => {},
                Err(x) => {
                    return Err(x);
                },
            }
            i = i + 1;
        }
        Ok(())
    }

    /// The value of an expression, within the budget `self.fuel`.
    pub fn evaluate(&mut self, e: &'a Expression) -> (r: Result<LiteralType<'a>, Error>)
        ensures
            forall|answers: Seq<Answer>|
                heard(answers, final(self).said@) ==> #[trigger] value_of(
                    old(self).fuel as nat,
                    old(self)@,
                    *e,
                    answers,
                ) == gave(r, final(self)@),
            kept(*old(self), *final(self)),
    {
        if self.scope >= self.env.scopes.len() {
            return Err(Error::bare(ErrorCode::E0x308));
        }
        let fuel = self.fuel;
        let r = self.eval(e, fuel);
        proof {
            assert forall|answers: Seq<Answer>| heard(answers, self.said@) implies
                #[trigger] value_of(fuel as nat, old(self)@, *e, answers) == gave(r, self@) by {
                assert(eval(fuel as nat, old(self)@, *e, answers) == gave(r, self@));
            }
        }
        r
    }
}

/// Calls the function `func` on `args`, which are evaluated in the current
/// scope of `interp`, within its budget.
pub fn run_func<'a, H: Host>(func: FuncImpl<'a>, args: &'a Vec<Expression>, interp: &mut Interpreter<
    'a,
    H,
>) -> (r: Result<LiteralType<'a>, Error>)
    ensures
        forall|answers: Seq<Answer>|
            heard(answers, final(interp).said@) ==> #[trigger] invoke(
                old(interp).fuel as nat,
                old(interp)@,
                func@,
                args@,
                answers,
            ) == gave(r, final(interp)@),
        kept(*old(interp), *final(interp)),
{
    if interp.scope >= interp.env.scopes.len() {
        return Err(Error::bare(ErrorCode::E0x308));
    }
    let fuel = interp.fuel;
    let r = interp.call(func, args, fuel);
    proof {
        assert forall|answers: Seq<Answer>| heard(answers, interp.said@) implies #[trigger] invoke(
            fuel as nat,
            old(interp)@,
            func@,
            args@,
            answers,
        ) == gave(r, interp@) by {
            assert(call(fuel as nat, old(interp)@, func@, args@, answers) == gave(r, interp@));
        }
    }
    r
}

} // verus!
