//! Runtime values.

use vstd::prelude::*;
use vstd::string::StringExecFns;
use crate::ast::FuncBody;
use crate::token::Token;

verus! {

/// A user-defined function together with the scope it was made in. It
/// borrows its text from the syntax tree.
#[derive(Clone, Copy, Debug, PartialEq)]
pub struct FuncImpl<'a> {
    pub name: &'a Token,
    pub value_type: &'a Token,
    pub body: &'a FuncBody,
    pub params: &'a Vec<(Token, Token)>,
    pub is_async: bool,
    pub is_pub: bool,
    pub is_impl: bool,
    pub is_mut: bool,
    /// The handle of the scope that the function captured.
    pub env: usize,
}

/// A function that the host provides: its name, the number of arguments it
/// takes, and the handle by which the host knows it.
#[derive(Debug, PartialEq)]
pub struct DeclrFuncType {
    pub name: String,
    pub arity: usize,
    pub func: usize,
}

/// A runtime value. A number is held as the bit pattern of the IEEE 754
/// double that it is.
#[derive(Debug, PartialEq)]
pub enum LiteralType<'a> {
    Number(u64),
    String(String),
    Char(char),
    Boolean(bool),
    Null,
    Void,
    Any,
    Array(Vec<LiteralType<'a>>),
    Func(FuncImpl<'a>),
    DeclrFunc(DeclrFuncType),
}

/// A user-defined function as contracts see it.
pub struct Closure {
    pub name: Token,
    pub value_type: Token,
    pub body: FuncBody,
    pub params: Vec<(Token, Token)>,
    pub is_async: bool,
    pub is_pub: bool,
    pub is_impl: bool,
    pub is_mut: bool,
    pub env: usize,
}

/// A runtime value as contracts see it.
pub enum Value {
    Number(u64),
    String(Seq<char>),
    Char(char),
    Boolean(bool),
    Null,
    Void,
    Any,
    Array(Seq<Value>),
    Func(Closure),
    DeclrFunc { name: Seq<char>, arity: usize, func: usize },
}

impl<'a> View for FuncImpl<'a> {
    type V = Closure;

    open spec fn view(&self) -> Closure {
        Closure {
            name: *self.name,
            value_type: *self.value_type,
            body: *self.body,
            params: *self.params,
            is_async: self.is_async,
            is_pub: self.is_pub,
            is_impl: self.is_impl,
            is_mut: self.is_mut,
            env: self.env,
        }
    }
}

impl<'a> View for LiteralType<'a> {
    type V = Value;

    open spec fn view(&self) -> Value
        decreases self,
    {
        match self {
            LiteralType::Number(bits) => Value::Number(*bits),
            LiteralType::String(s) => Value::String(s@),
            LiteralType::Char(c) => Value::Char(*c),
            LiteralType::Boolean(b) => Value::Boolean(*b),
            LiteralType::Null => Value::Null,
            LiteralType::Void => Value::Void,
            LiteralType::Any => Value::Any,
            LiteralType::Array(items) => Value::Array(views(items@)),
            LiteralType::Func(f) => Value::Func(f@),
            LiteralType::DeclrFunc(d) => Value::DeclrFunc {
                name: d.name@,
                arity: d.arity,
                func: d.func,
            },
        }
    }
}

/// The values of a sequence of runtime values.
pub open spec fn views<'a>(items: Seq<LiteralType<'a>>) -> Seq<Value>
    decreases items,
{
    Seq::new(
        items.len(),
        |i: int|
            if 0 <= i < items.len() {
                items[i].view()
            } else {
                Value::Null
            },
    )
}

/// `views` goes item by item.
pub proof fn lemma_views<'a>(items: Seq<LiteralType<'a>>)
    ensures
        views(items).len() == items.len(),
        forall|i: int| 0 <= i < items.len() ==> #[trigger] views(items)[i] == items[i]@,
{
}

/// The sign bit of a double. What is left of a bit pattern when the sign
/// is taken away is zero for `+0` and `-0` only.
pub const SIGN: u64 = 0x8000_0000_0000_0000;

impl Value {
    /// The name of the value's type.
    pub open spec fn typename(self) -> Seq<char> {
        match self {
            Value::Number(_) => "number"@,
            Value::String(_) => "string"@,
            Value::Char(_) => "char"@,
            Value::Boolean(_) => "bool"@,
            Value::Array(_) => "array"@,
            Value::Func(_) => "function"@,
            Value::Void => "void"@,
            Value::DeclrFunc { .. } => "declared function"@,
            Value::Null => "null"@,
            Value::Any => "any"@,
        }
    }

    /// Whether the value counts as true in a condition: a number unless it
    /// is zero (of either sign), a string or an array unless it is empty, a
    /// character unless it is NUL, a boolean by itself; nothing else.
    pub open spec fn is_truthy(self) -> bool {
        match self {
            Value::Number(bits) => bits % SIGN != 0,
            Value::String(s) => s.len() != 0,
            Value::Char(c) => c != '\0',
            Value::Boolean(b) => b,
            Value::Array(items) => items.len() != 0,
            _ => false,
        }
    }
}

/// A number counts as true unless it is zero: of all bit patterns only
/// those of `+0` and `-0` count as false.
pub proof fn lemma_number_is_truthy(bits: u64)
    ensures
        Value::Number(bits).is_truthy() <==> bits != 0 && bits != SIGN,
{
}

impl<'a> LiteralType<'a> {
    /// The name of the value's type.
    pub fn typename(&self) -> (name: String)
        ensures
            name@ == self@.typename(),
    {
        match self {
            LiteralType::Number(_) => String::from_str("number"),
            LiteralType::String(_) => String::from_str("string"),
            LiteralType::Char(_) => String::from_str("char"),
            LiteralType::Boolean(_) => String::from_str("bool"),
            LiteralType::Array(_) => String::from_str("array"),
            LiteralType::Func(_) => String::from_str("function"),
            LiteralType::Void => String::from_str("void"),
            LiteralType::DeclrFunc(_) => String::from_str("declared function"),
            LiteralType::Null => String::from_str("null"),
            LiteralType::Any => String::from_str("any"),
        }
    }

    /// Whether the value counts as true in a condition.
    pub fn is_truthy(&self) -> (r: bool)
        ensures
            r == self@.is_truthy(),
    {
        match self {
            LiteralType::Number(bits) => *bits % SIGN != 0,
            LiteralType::String(s) => s.as_str().unicode_len() != 0,
            LiteralType::Char(c) => *c != '\0',
            LiteralType::Boolean(b) => *b,
            LiteralType::Array(items) => {
                proof {
                    lemma_views(items@);
                }
                items.len() != 0
            },
            _ => false,
        }
    }

    /// The truth of the value as a boolean of the language.
    pub fn is_truthy_literal(&self) -> (r: LiteralType<'a>)
        ensures
            r@ == Value::Boolean(self@.is_truthy()),
    {
        LiteralType::Boolean(self.is_truthy())
    }

    /// A copy of the value.
    #[verifier::loop_isolation(false)]
    pub fn copy(&self) -> (r: LiteralType<'a>)
        ensures
            r@ == self@,
        decreases self,
    {
        match self {
            LiteralType::Number(bits) => LiteralType::Number(*bits),
            LiteralType::String(s) => LiteralType::String(s.clone()),
            LiteralType::Char(c) => LiteralType::Char(*c),
            LiteralType::Boolean(b) => LiteralType::Boolean(*b),
            LiteralType::Null => LiteralType::Null,
            LiteralType::Void => LiteralType::Void,
            LiteralType::Any => LiteralType::Any,
            LiteralType::Array(items) => {
                let mut out: Vec<LiteralType<'a>> = Vec::new();
                let mut i: usize = 0;
                while i < items.len()
                    invariant
                        *self == LiteralType::Array(*items),
                        i <= items@.len(),
                        out@.len() == i,
                        forall|j: int| 0 <= j < i ==> out@[j]@ == items@[j]@,
                    decreases items@.len() - i,
                {
                    proof {
                        vstd::std_specs::vec::axiom_vec_index_decreases(*items, i as int);
                    }
                    out.push(items[i].copy());
                    i = i + 1;
                }
                let r = LiteralType::Array(out);
                proof {
                    lemma_views(out@);
                    lemma_views(items@);
                }
                assert(views(out@) =~= views(items@));
                r
            },
            LiteralType::Func(f) => LiteralType::Func(*f),
            LiteralType::DeclrFunc(d) => LiteralType::DeclrFunc(
                DeclrFuncType { name: d.name.clone(), arity: d.arity, func: d.func },
            ),
        }
    }
}

} // verus!
