//! Tokens: what the lexer produces and the syntax tree is built from.

use vstd::prelude::*;
use crate::errors::{Error, ErrorCode, Failure, placed, unplaced};

verus! {

/// The closed set of token kinds.
#[derive(Clone, Copy, Debug, PartialEq, Eq, Structural)]
pub enum TokenType {
    // punctuation
    LeftParen,
    RightParen,
    LeftBrace,
    RightBrace,
    LeftBracket,
    RightBracket,
    Comma,
    Semi,
    Colon,
    Dot,
    Arrow,
    // operators
    Plus,
    Minus,
    Star,
    Slash,
    Percent,
    Not,
    Assign,
    Eq,
    NotEq,
    Less,
    LessOrEq,
    Greater,
    GreaterOrEq,
    And,
    Or,
    BitAnd,
    BitOr,
    BitXor,
    LeftShift,
    RightShift,
    PlusEq,
    MinusEq,
    StarEq,
    SlashEq,
    PercentEq,
    // literals
    NumberLit,
    StringLit,
    CharLit,
    TrueLit,
    FalseLit,
    NullLit,
    ArrayLit,
    // names, and the names of the built-in types
    Ident,
    NumberIdent,
    StringIdent,
    CharIdent,
    BoolIdent,
    NullIdent,
    VoidIdent,
    ArrayIdent,
    AnyIdent,
    FuncIdent,
    // keywords
    Func,
    Var,
    If,
    Else,
    Elif,
    Return,
    While,
    Loop,
    Break,
    Match,
    Mod,
    Use,
    As,
    From,
    Struct,
    Impl,
    Enum,
    Async,
    Await,
    Pub,
    Mut,
    SelfKw,
    /// A comment; the lexer skips comments and never hands one out.
    Comment,
    /// The end-of-input marker.
    Eof,
}

/// The built-in types that a type name can stand for.
#[derive(Clone, Copy, Debug, PartialEq, Eq, Structural)]
pub enum TypeKind {
    Number,
    String,
    Char,
    Bool,
    Null,
    Void,
    Array,
    Func,
    Any,
}

/// The decoded payload of a literal token.
#[derive(Debug, PartialEq)]
#[allow(inconsistent_fields)]
pub enum LiteralKind {
    /// A number written in `base` (2, 8, 10 or 16): the digits in front of
    /// the point and those behind it, each by its value, the first first.
    /// There is no bound on how many there are.
    Number { base: u8, whole: Vec<u8>, fraction: Vec<u8> },
    /// A string, escapes processed.
    String { value: String },
    /// A single code point.
    Char { value: char },
    Bool { value: bool },
    /// The type that the token names.
    Type(TypeKind),
}

/// A payload as contracts see it.
#[allow(inconsistent_fields)]
pub enum Payload {
    Number { base: u8, whole: Seq<u8>, fraction: Seq<u8> },
    String { value: Seq<char> },
    Char { value: char },
    Bool { value: bool },
    Type(TypeKind),
}

impl View for LiteralKind {
    type V = Payload;

    open spec fn view(&self) -> Payload {
        match self {
            LiteralKind::Number { base, whole, fraction } => Payload::Number {
                base: *base,
                whole: whole@,
                fraction: fraction@,
            },
            LiteralKind::String { value } => Payload::String { value: value@ },
            LiteralKind::Char { value } => Payload::Char { value: *value },
            LiteralKind::Bool { value } => Payload::Bool { value: *value },
            LiteralKind::Type(kind) => Payload::Type(*kind),
        }
    }
}

/// The number that `digits` spell in `base`: the last digit counts once,
/// each digit in front of it `base` times as much as the next.
pub open spec fn digits_value(base: u8, digits: Seq<u8>) -> nat
    decreases digits.len(),
{
    if digits.len() == 0 {
        0
    } else {
        digits_value(base, digits.drop_last()) * (base as nat) + digits.last() as nat
    }
}

/// The first digits of a number never spell more than all of them.
pub proof fn lemma_digits_grow(base: u8, digits: Seq<u8>, n: int)
    requires
        0 <= n <= digits.len(),
        base >= 1,
    ensures
        digits_value(base, digits.take(n)) <= digits_value(base, digits),
    decreases digits.len() - n,
{
    if n < digits.len() {
        lemma_digits_grow(base, digits, n + 1);
        assert(digits.take(n + 1).drop_last() =~= digits.take(n));
        let v = digits_value(base, digits.take(n));
        assert(v * (base as nat) >= v) by (nonlinear_arith)
            requires
                base >= 1,
                v >= 0,
        ;
    } else {
        assert(digits.take(n) =~= digits);
    }
}

impl Payload {
    /// The whole number that a numeric literal without a fraction denotes.
    pub open spec fn integer(self) -> Option<nat> {
        match self {
            Payload::Number { base, whole, fraction } => if fraction.len() == 0 && base >= 1 {
                Some(digits_value(base, whole))
            } else {
                None
            },
            _ => None,
        }
    }
}

impl LiteralKind {
    /// The whole number that a numeric literal without a fraction denotes,
    /// if it fits 64 bits.
    #[verifier::loop_isolation(false)]
    pub fn integer(&self) -> (r: Option<u64>)
        ensures
            match r {
                Some(v) => self@.integer() == Some(v as nat),
                None => self@.integer() matches Some(v) ==> v > u64::MAX,
            },
    {
        match self {
            LiteralKind::Number { base, whole, fraction } => {
                if fraction.len() != 0 || *base < 1 {
                    return None;
                }
                let mut acc: u64 = 0;
                let mut i: usize = 0;
                assert(whole@.take(0) =~= Seq::<u8>::empty());
                while i < whole.len()
                    invariant
                        i <= whole@.len(),
                        *base >= 1,
                        acc == digits_value(*base, whole@.take(i as int)),
                    decreases whole@.len() - i,
                {
                    let next = match acc.checked_mul(*base as u64) {
                        Some(m) => m.checked_add(whole[i] as u64),
                        None => None,
                    };
                    proof {
                        assert(whole@.take(i + 1).drop_last() =~= whole@.take(i as int));
                        assert(whole@.take(i + 1).last() == whole@[i as int]);
                        assert(digits_value(*base, whole@.take(i + 1)) == acc * (*base as nat)
                            + whole@[i as int] as nat);
                        lemma_digits_grow(*base, whole@, i + 1);
                    }
                    match next {
                        Some(v) => {
                            acc = v;
                        },
                        None => {
                            return None;
                        },
                    }
                    i = i + 1;
                }
                assert(whole@.take(whole@.len() as int) =~= whole@);
                Some(acc)
            },
            _ => None,
        }
    }
}

/// One token: its kind, the exact source text it was read from, the line it
/// starts on, where it starts in the source (in characters, from 0) and how
/// many characters it spans, and the payload of a literal.
#[derive(Debug, PartialEq)]
pub struct Token {
    pub token: TokenType,
    pub lexeme: String,
    pub line: usize,
    pub start: usize,
    pub len: usize,
    pub value: Option<LiteralKind>,
}

/// A token as contracts see it.
pub struct Lexed {
    pub token: TokenType,
    pub lexeme: Seq<char>,
    pub line: usize,
    pub start: usize,
    pub len: usize,
    pub value: Option<Payload>,
}

impl View for Token {
    type V = Lexed;

    open spec fn view(&self) -> Lexed {
        Lexed {
            token: self.token,
            lexeme: self.lexeme@,
            line: self.line,
            start: self.start,
            len: self.len,
            value: match self.value {
                Some(v) => Some(v@),
                None => None,
            },
        }
    }
}

/// The end-of-input marker of a source whose first line is `line`: it has no
/// text and no place of its own.
pub open spec fn end_marker(line: usize) -> Lexed {
    Lexed { token: TokenType::Eof, lexeme: Seq::empty(), line, start: 0, len: 0, value: None }
}

impl Token {
    /// Where the token stands: its start and its length.
    pub fn pos(&self) -> (p: (usize, usize))
        ensures
            p == (self.start, self.len),
    {
        (self.start, self.len)
    }

    /// The end-of-input marker of a source whose first line is `line`.
    pub fn eof(line: usize) -> (t: Token)
        ensures
            t@ == end_marker(line),
    {
        Token {
            token: TokenType::Eof,
            lexeme: String::new(),
            line,
            start: 0,
            len: 0,
            value: None,
        }
    }
}

/// The failure `code` at `token`.
pub open spec fn at(token: Token, code: ErrorCode) -> Failure {
    placed(code, token.line, (token.start, token.len))
}

/// The failure `code` at the first of `names`, or nowhere if there is none.
pub open spec fn at_first(names: Seq<Token>, code: ErrorCode) -> Failure {
    if names.len() > 0 {
        at(names[0], code)
    } else {
        unplaced(code)
    }
}

/// The diagnostic `code` at `token`.
pub fn error_at(token: &Token, code: ErrorCode) -> (e: Error)
    ensures
        e@ == at(*token, code),
{
    Error::new(code, token.line, token.pos())
}

} // verus!
