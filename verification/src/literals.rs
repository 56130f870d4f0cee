//! From tokens and operators to values: what needs no state.

use vstd::prelude::*;
use vstd::string::StringExecFns;
use crate::errors::{Error, ErrorCode, Failure};
use crate::host::{Host, Request};
use crate::semantics::{
    binary_request, binary_with, conforms, literal_request, literal_with, misfit, type_value,
    unary, verdict,
};
use crate::text::same;
use crate::token::{LiteralKind, Token, TokenType, TypeKind, error_at};
use crate::value::{LiteralType, SIGN, Value, lemma_views};

verus! {

/// Whether `r` is the outcome `expected`.
pub open spec fn yields<'a>(r: Result<LiteralType<'a>, Error>, expected: Result<Value, Failure>) -> bool {
    match r {
        Ok(v) => expected == Ok::<Value, Failure>(v@),
        Err(x) => expected == Err::<Value, Failure>(x@),
    }
}

/// The value that stands for a built-in type.
pub fn typekind_to_literaltype<'a>(kind: TypeKind) -> (v: LiteralType<'a>)
    ensures
        v@ == type_value(kind),
{
    let v = match kind {
        TypeKind::Number => LiteralType::Number(0),
        TypeKind::String => LiteralType::String(String::new()),
        TypeKind::Char => LiteralType::Char('\0'),
        TypeKind::Bool => LiteralType::Boolean(false),
        TypeKind::Null => LiteralType::Null,
        TypeKind::Void => LiteralType::Void,
        TypeKind::Array => LiteralType::Array(Vec::new()),
        TypeKind::Func => LiteralType::Null,
        TypeKind::Any => LiteralType::Any,
    };
    proof {
        if kind == TypeKind::Array {
            lemma_views(Seq::<LiteralType<'a>>::empty());
            assert(v@->Array_0 =~= Seq::<Value>::empty());
        }
    }
    v
}

/// The diagnostic of a token whose payload is not the one that its kind
/// calls for.
pub fn misfit_error(token: &Token, expected: &str) -> (e: Error)
    ensures
        e@ == misfit(*token, expected@),
{
    Error::with_arg(ErrorCode::E0x408, token.line, token.pos(), String::from_str(expected))
}

/// The value that a token denotes, where `bits` is the double that the host
/// gave for a numeric literal.
pub fn literal_given<'a>(token: &Token, bits: u64) -> (r: Result<LiteralType<'a>, Error>)
    ensures
        yields(r, literal_with(*token, bits)),
{
    match token.token {
        TokenType::NumberLit => match &token.value {
            Some(LiteralKind::Number { .. }) => Ok(LiteralType::Number(bits)),
            _ => Err(misfit_error(token, "number")),
        },
        TokenType::StringLit => match &token.value {
            Some(LiteralKind::String { value }) => Ok(LiteralType::String(value.clone())),
            _ => Err(misfit_error(token, "string")),
        },
        TokenType::CharLit => match &token.value {
            Some(LiteralKind::Char { value }) => Ok(LiteralType::Char(*value)),
            _ => Err(misfit_error(token, "char")),
        },
        TokenType::TrueLit | TokenType::FalseLit => match &token.value {
            Some(LiteralKind::Bool { value }) => Ok(LiteralType::Boolean(*value)),
            _ => Err(misfit_error(token, "boolean")),
        },
        TokenType::NullLit => Ok(LiteralType::Null),
        TokenType::ArrayLit => Ok(typekind_to_literaltype(TypeKind::Array)),
        TokenType::Ident
        | TokenType::NumberIdent
        | TokenType::StringIdent
        | TokenType::AnyIdent
        | TokenType::BoolIdent
        | TokenType::CharIdent
        | TokenType::FuncIdent
        | TokenType::NullIdent
        | TokenType::ArrayIdent => match &token.value {
            Some(LiteralKind::Type(kind)) => Ok(typekind_to_literaltype(*kind)),
            _ => Err(misfit_error(token, "identifier")),
        },
        _ => Err(error_at(token, ErrorCode::E0x407)),
    }
}

/// The digits of a numeric literal, where the token is one.
pub fn digits_of(token: &Token) -> (r: Option<(u8, &Vec<u8>, &Vec<u8>)>)
    ensures
        match r {
            Some((base, whole, fraction)) => literal_request(*token) == Some(
                Request::Number { base, whole: whole@, fraction: fraction@ },
            ),
            None => literal_request(*token) is None,
        },
{
    match (token.token, &token.value) {
        (TokenType::NumberLit, Some(LiteralKind::Number { base, whole, fraction })) => Some(
            (*base, whole, fraction),
        ),
        _ => None,
    }
}

/// The value that a token denotes. For a numeric literal the host says
/// which double it is: the value is the number that the host gave.
pub fn token_to_literal<'a, H: Host>(token: &Token, host: &H) -> (r: Result<LiteralType<'a>, Error>)
    ensures
        exists|bits: u64| yields(r, literal_with(*token, bits)),
{
    let bits: u64 = match digits_of(token) {
        Some((base, whole, fraction)) => host.to_number(base, whole, fraction),
        None => 0,
    };
    let r = literal_given(token, bits);
    assert(yields(r, literal_with(*token, bits)));
    r
}

/// Whether `value` has the type that `declared` names.
pub fn type_check<'a>(declared: &Token, value: &LiteralType<'a>) -> (r: bool)
    ensures
        r == conforms(*declared, value@),
{
    if same(declared.lexeme.as_str(), "any") {
        true
    } else {
        let name = value.typename();
        declared.lexeme == name
    }
}

/// What a prefix operator gives.
pub fn apply_unary<'a>(op: &Token, v: &LiteralType<'a>) -> (r: Result<LiteralType<'a>, Error>)
    ensures
        yields(r, unary(*op, v@)),
{
    match op.token {
        TokenType::Not => Ok(LiteralType::Boolean(!v.is_truthy())),
        TokenType::Minus => match v {
            LiteralType::Number(bits) => {
                if *bits >= SIGN {
                    Ok(LiteralType::Number(*bits - SIGN))
                } else {
                    Ok(LiteralType::Number(*bits + SIGN))
                }
            },
            _ => Err(error_at(op, ErrorCode::E0x301)),
        },
        _ => Err(error_at(op, ErrorCode::E0x301)),
    }
}

fn judge<'a>(op: &Token, same: bool) -> (r: Result<LiteralType<'a>, Error>)
    ensures
        yields(r, verdict(*op, same)),
{
    match op.token {
        TokenType::Eq => Ok(LiteralType::Boolean(same)),
        TokenType::NotEq => Ok(LiteralType::Boolean(!same)),
        _ => Err(error_at(op, ErrorCode::E0x301)),
    }
}

/// The two doubles that an infix operator stands between, where both
/// operands are numbers.
pub fn numbers_of<'a>(op: &Token, l: &LiteralType<'a>, r: &LiteralType<'a>) -> (out: Option<
    (u64, u64),
>)
    ensures
        match out {
            Some((left, right)) => binary_request(*op, l@, r@) == Some(
                Request::Operate { op: op.token, left, right },
            ),
            None => binary_request(*op, l@, r@) is None,
        },
{
    match (l, r) {
        (LiteralType::Number(a), LiteralType::Number(b)) => Some((*a, *b)),
        _ => None,
    }
}

/// What an infix operator other than `&&` and `||` gives, where `answer` is
/// what the host gave for two numbers.
pub fn binary_given<'a>(op: &Token, l: &LiteralType<'a>, r: &LiteralType<'a>, answer: LiteralType<'a>) -> (out:
    Result<LiteralType<'a>, Error>)
    ensures
        yields(out, binary_with(*op, l@, r@, answer@)),
{
    match (l, r) {
        (LiteralType::Number(_), LiteralType::Number(_)) => Ok(answer),
        (LiteralType::String(a), LiteralType::String(b)) => match op.token {
            TokenType::Plus => {
                let mut joined = a.clone();
                joined.append(b.as_str());
                Ok(LiteralType::String(joined))
            },
            _ => judge(op, *a == *b),
        },
        (LiteralType::Char(a), LiteralType::Char(b)) => judge(op, *a == *b),
        (LiteralType::Boolean(a), LiteralType::Boolean(b)) => judge(op, *a == *b),
        (LiteralType::Null, LiteralType::Null) => judge(op, true),
        _ => Err(error_at(op, ErrorCode::E0x301)),
    }
}

/// What an infix operator other than `&&` and `||` gives. On two numbers
/// the host decides: the value is what the host gave.
pub fn apply_binary<'a, H: Host>(host: &H, op: &Token, l: &LiteralType<'a>, r: &LiteralType<'a>) -> (out:
    Result<LiteralType<'a>, Error>)
    ensures
        exists|answer: Value| yields(out, binary_with(*op, l@, r@, answer)),
{
    let answer = match numbers_of(op, l, r) {
        Some((left, right)) => host.number_op(op.token, left, right),
        None => LiteralType::Null,
    };
    let ghost a = answer@;
    let out = binary_given(op, l, r, answer);
    assert(yields(out, binary_with(*op, l@, r@, a)));
    out
}

} // verus!
