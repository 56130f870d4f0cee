//! The bridge to the host: how the functions that the host provides become
//! values of the language.

use vstd::prelude::*;
use vstd::string::StringExecFns;
use crate::env::{Bound, Env, Frame, FuncKind, Signature, define_in, tidy};
use crate::value::{DeclrFuncType, LiteralType, Value};

verus! {

/// The handle of the host function `print`, which takes one argument.
pub const PRINT: usize = 0;

/// The binding under which the host function `func` stands in the root
/// scope: public, with a record that lists no parameters.
pub open spec fn registered(name: Seq<char>, arity: usize, func: usize) -> Bound {
    Bound {
        name,
        value: Value::DeclrFunc { name, arity, func },
        is_pub: true,
        kind: Some(
            Signature {
                params: Seq::empty(),
                is_async: false,
                is_pub: false,
                is_impl: false,
                is_mut: false,
            },
        ),
    }
}

/// The scopes of a fresh evaluator: the root, which holds `print`.
pub open spec fn seeded() -> Seq<Frame> {
    define_in(
        seq![Frame { bindings: Seq::empty(), parent: None }],
        0,
        registered("print"@, 1, PRINT),
    )
}

/// Registers the host function with handle `func` under `name` in the root
/// scope of `env`.
pub fn func<'a>(name: &str, arity: usize, env: &mut Env<'a>, func: usize)
    requires
        old(env)@.len() > 0,
    ensures
        final(env)@ == define_in(old(env)@, 0, registered(name@, arity, func)),
        tidy(old(env)@) ==> tidy(final(env)@),
{
    let params: Vec<String> = Vec::new();
    let kind = FuncKind { params, is_async: false, is_pub: false, is_impl: false, is_mut: false };
    assert(kind@.params =~= Seq::empty());
    env.define_pub_func(
        0,
        String::from_str(name),
        LiteralType::DeclrFunc(DeclrFuncType { name: String::from_str(name), arity, func }),
        kind,
    );
}

/// Registers the standard library.
pub fn load<'a>(env: &mut Env<'a>)
    requires
        old(env)@.len() > 0,
    ensures
        final(env)@ == define_in(old(env)@, 0, registered("print"@, 1, PRINT)),
        tidy(old(env)@) ==> tidy(final(env)@),
{
    func("print", 1, env, PRINT);
}

} // verus!
