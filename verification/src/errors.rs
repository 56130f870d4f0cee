//! Diagnostics: the stable error codes, and the positioned error value that
//! every failing operation of the core returns.

use vstd::prelude::*;

verus! {

/// The stable identifiers of the diagnostics that the core raises.
#[derive(Clone, Copy, Debug, PartialEq, Eq, Structural)]
pub enum ErrorCode {
    /// A value does not have the declared type.
    E0x301,
    /// `break` outside a loop.
    E0x302,
    /// `return` outside a function.
    E0x303,
    /// A function declaration whose body is not a statement list.
    E0x305,
    /// A name or an expression was expected.
    E0x306,
    /// A name is declared twice in one scope.
    E0x307,
    /// A scope was closed that had never been opened.
    E0x308,
    /// A function-shaped `var` binds more than one name.
    E0x401,
    /// A public `var` has no initialiser.
    E0x402,
    /// A function value whose body is not a statement list.
    E0x403,
    /// A function value was asked of a statement that declares no function.
    E0x404,
    /// The number of arguments differs from the number of parameters.
    E0x405,
    /// A function that must return a value ran to its end without `return`.
    E0x406,
    /// A token that stands for no literal.
    E0x407,
    /// A literal token whose payload does not fit its kind.
    E0x408,
    /// The evaluation budget ran out.
    E0x409,
}

/// A diagnostic as contracts see it: which one it is, where it points, and
/// the texts that go with it.
pub struct Failure {
    pub code: ErrorCode,
    pub line: usize,
    pub pos: (usize, usize),
    pub args: Seq<Seq<char>>,
}

/// A fatal, positioned diagnostic.
#[derive(Debug, PartialEq)]
pub struct Error {
    pub code: ErrorCode,
    pub line: usize,
    pub pos: (usize, usize),
    pub args: Vec<String>,
}

/// The texts of a sequence of strings.
pub open spec fn texts(args: Seq<String>) -> Seq<Seq<char>> {
    Seq::new(args.len(), |i: int| args[i]@)
}

impl View for Error {
    type V = Failure;

    open spec fn view(&self) -> Failure {
        Failure { code: self.code, line: self.line, pos: self.pos, args: texts(self.args@) }
    }
}

/// The failure `code` at `line` and `pos`, without arguments.
pub open spec fn placed(code: ErrorCode, line: usize, pos: (usize, usize)) -> Failure {
    Failure { code, line, pos, args: Seq::empty() }
}

/// The failure that names `code` and points nowhere.
pub open spec fn unplaced(code: ErrorCode) -> Failure {
    placed(code, 0, (0, 0))
}

/// The failure `f` with the arguments `args`.
pub open spec fn told(f: Failure, args: Seq<Seq<char>>) -> Failure {
    Failure { code: f.code, line: f.line, pos: f.pos, args }
}

impl Error {
    /// A diagnostic at `line` and `pos`, without arguments.
    pub fn new(code: ErrorCode, line: usize, pos: (usize, usize)) -> (e: Error)
        ensures
            e@ == placed(code, line, pos),
    {
        let e = Error { code, line, pos, args: Vec::new() };
        assert(e@.args =~= Seq::empty());
        e
    }

    /// A diagnostic that points nowhere.
    pub fn bare(code: ErrorCode) -> (e: Error)
        ensures
            e@ == unplaced(code),
    {
        Error::new(code, 0, (0, 0))
    }

    /// A diagnostic at `line` and `pos` with one argument.
    pub fn with_arg(code: ErrorCode, line: usize, pos: (usize, usize), arg: String) -> (e: Error)
        ensures
            e@ == told(placed(code, line, pos), seq![arg@]),
    {
        let mut args: Vec<String> = Vec::new();
        args.push(arg);
        let e = Error { code, line, pos, args };
        assert(e@.args =~= seq![arg@]);
        e
    }

    /// A diagnostic that points nowhere, with two arguments.
    pub fn with_two(code: ErrorCode, first: String, second: String) -> (e: Error)
        ensures
            e@ == told(unplaced(code), seq![first@, second@]),
    {
        let mut args: Vec<String> = Vec::new();
        args.push(first);
        args.push(second);
        let e = Error { code, line: 0, pos: (0, 0), args };
        assert(e@.args =~= seq![first@, second@]);
        e
    }
}

} // verus!
