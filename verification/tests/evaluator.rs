use ape_core::ast::{Expression, FuncBody, Statement};
use ape_core::display::to_text;
use ape_core::errors::ErrorCode;
use ape_core::host::Host;
use ape_core::interpreter::{run_func, Interpreter};
use ape_core::env::Env;
use ape_core::literals::{apply_binary, apply_unary, token_to_literal, type_check};
use ape_core::stdlib::func;
use ape_core::stdlib::PRINT;
use ape_core::token::{LiteralKind, Token, TokenType, TypeKind};
use ape_core::value::{DeclrFuncType, LiteralType};

/// The double that the digits of a literal denote.
fn double_of(base: u8, whole: &Vec<u8>, fraction: &Vec<u8>) -> f64 {
    if base == 10 {
        // the decimal text, which the standard library reads with correct rounding
        let mut text = String::new();
        for d in whole {
            text.push((b'0' + d) as char);
        }
        text.push('.');
        for d in fraction {
            text.push((b'0' + d) as char);
        }
        text.push('0');
        text.parse::<f64>().unwrap_or(f64::NAN)
    } else {
        let mut v = 0.0;
        for d in whole {
            v = v * base as f64 + *d as f64;
        }
        let mut place = 1.0;
        for d in fraction {
            place /= base as f64;
            v += *d as f64 * place;
        }
        v
    }
}

fn decimal(n: u64) -> Vec<u8> {
    n.to_string().bytes().map(|b| b - b'0').collect()
}

/// A host that keeps what is printed and computes on real doubles.
struct Console {
    out: Vec<String>,
}

impl Console {
    fn new() -> Self {
        Console { out: Vec::new() }
    }
}

impl Host for Console {
    fn call<'a>(&mut self, func: usize, args: &Vec<LiteralType<'a>>) -> LiteralType<'a> {
        if func == PRINT {
            let line = to_text(&args[0], &*self);
            self.out.push(line);
        }
        LiteralType::Null
    }

    fn to_number(&self, base: u8, whole: &Vec<u8>, fraction: &Vec<u8>) -> u64 {
        double_of(base, whole, fraction).to_bits()
    }

    fn number_op<'a>(&self, op: TokenType, left: u64, right: u64) -> LiteralType<'a> {
        let a = f64::from_bits(left);
        let b = f64::from_bits(right);
        match op {
            TokenType::Plus => LiteralType::Number((a + b).to_bits()),
            TokenType::Minus => LiteralType::Number((a - b).to_bits()),
            TokenType::Star => LiteralType::Number((a * b).to_bits()),
            TokenType::Slash => LiteralType::Number((a / b).to_bits()),
            TokenType::Percent => LiteralType::Number((a % b).to_bits()),
            TokenType::Less => LiteralType::Boolean(a < b),
            TokenType::LessOrEq => LiteralType::Boolean(a <= b),
            TokenType::Greater => LiteralType::Boolean(a > b),
            TokenType::GreaterOrEq => LiteralType::Boolean(a >= b),
            TokenType::Eq => LiteralType::Boolean(a == b),
            TokenType::NotEq => LiteralType::Boolean(a != b),
            _ => LiteralType::Null,
        }
    }

    fn number_text(&self, bits: u64) -> String {
        format!("{}", f64::from_bits(bits))
    }
}

fn tok(kind: TokenType, lexeme: &str) -> Token {
    Token { token: kind, lexeme: lexeme.to_string(), line: 1, start: 0, len: lexeme.len(), value: None }
}

fn ident(name: &str) -> Token {
    tok(TokenType::Ident, name)
}

fn num(id: usize, n: u64) -> Expression {
    Expression::Value {
        id,
        value: Token {
            token: TokenType::NumberLit,
            lexeme: n.to_string(),
            line: 1,
            start: 0,
            len: 1,
            value: Some(LiteralKind::Number { base: 10, whole: decimal(n), fraction: vec![] }),
        },
    }
}

fn text(id: usize, s: &str) -> Expression {
    Expression::Value {
        id,
        value: Token {
            token: TokenType::StringLit,
            lexeme: format!("\"{}\"", s),
            line: 1,
            start: 0,
            len: s.len() + 2,
            value: Some(LiteralKind::String { value: s.to_string() }),
        },
    }
}

fn var(id: usize, name: &str) -> Expression {
    Expression::Var { id, name: ident(name) }
}

fn binary(id: usize, left: Expression, kind: TokenType, lexeme: &str, right: Expression) -> Expression {
    Expression::Binary { id, left: Box::new(left), operator: tok(kind, lexeme), right: Box::new(right) }
}

fn call(id: usize, name: &str, args: Vec<Expression>) -> Expression {
    Expression::Call { id, name: Box::new(var(id + 1000, name)), args }
}

fn declare(name: &str, value: Expression) -> Statement {
    Statement::Var {
        names: vec![ident(name)],
        value_type: tok(TokenType::AnyIdent, "any"),
        value: Some(value),
        is_mut: true,
        is_pub: false,
        pub_names: vec![],
        is_func: false,
    }
}

fn stmt(expr: Expression) -> Statement {
    Statement::Expression { expr }
}

fn function(name: &str, params: Vec<&str>, returns: &str, body: Vec<Statement>) -> Statement {
    Statement::Func {
        name: ident(name),
        value_type: tok(TokenType::Ident, returns),
        body: FuncBody::Statements(body),
        params: params
            .into_iter()
            .map(|p| (ident(p), tok(TokenType::NumberIdent, "number")))
            .collect(),
        is_async: false,
        is_pub: false,
        is_impl: false,
        is_mut: false,
    }
}

fn number(x: f64) -> LiteralType<'static> {
    LiteralType::Number(x.to_bits())
}

#[test]
fn truthiness_of_values() {
    assert!(!number(0.0).is_truthy());
    assert!(!number(-0.0).is_truthy());
    assert!(number(1.0).is_truthy());
    assert!(number(-2.5).is_truthy());
    assert!(number(f64::NAN).is_truthy());
    assert!(!LiteralType::String(String::new()).is_truthy());
    assert!(LiteralType::String("a".to_string()).is_truthy());
    assert!(!LiteralType::Null.is_truthy());
    assert!(!LiteralType::Array(vec![]).is_truthy());
    assert!(LiteralType::Array(vec![number(0.0)]).is_truthy());
    assert!(!LiteralType::Char('\0').is_truthy());
    assert!(LiteralType::Char('x').is_truthy());
    assert!(LiteralType::Boolean(true).is_truthy());
    assert!(!LiteralType::Boolean(false).is_truthy());
    assert!(!LiteralType::Void.is_truthy());
    assert!(!LiteralType::Any.is_truthy());
    assert_eq!(number(3.0).is_truthy_literal(), LiteralType::Boolean(true));
    assert_eq!(LiteralType::Null.is_truthy_literal(), LiteralType::Boolean(false));
}

#[test]
fn names_of_types() {
    assert_eq!(number(1.0).typename(), "number");
    assert_eq!(LiteralType::String("s".to_string()).typename(), "string");
    assert_eq!(LiteralType::Char('c').typename(), "char");
    assert_eq!(LiteralType::Boolean(true).typename(), "bool");
    assert_eq!(LiteralType::Array(vec![]).typename(), "array");
    assert_eq!(LiteralType::Void.typename(), "void");
    assert_eq!(LiteralType::Null.typename(), "null");
    assert_eq!(LiteralType::Any.typename(), "any");
    let host = LiteralType::DeclrFunc(DeclrFuncType { name: "print".to_string(), arity: 1, func: 0 });
    assert_eq!(host.typename(), "declared function");
}

#[test]
fn values_are_written() {
    let host = Console::new();
    assert_eq!(to_text(&number(42.0), &host), "42");
    assert_eq!(to_text(&number(1.5), &host), "1.5");
    assert_eq!(to_text(&LiteralType::String("hi".to_string()), &host), "hi");
    assert_eq!(to_text(&LiteralType::Char('c'), &host), "c");
    assert_eq!(to_text(&LiteralType::Boolean(true), &host), "true");
    assert_eq!(to_text(&LiteralType::Boolean(false), &host), "false");
    assert_eq!(to_text(&LiteralType::Null, &host), "null");
    assert_eq!(to_text(&LiteralType::Any, &host), "any");
    assert_eq!(to_text(&LiteralType::Void, &host), "void");
    assert_eq!(to_text(&LiteralType::Array(vec![]), &host), "[]");
    let items = LiteralType::Array(vec![number(1.0), LiteralType::String("a".to_string()), LiteralType::Null]);
    assert_eq!(to_text(&items, &host), "[1, a, null]");
    let print = LiteralType::DeclrFunc(DeclrFuncType { name: "print".to_string(), arity: 1, func: 0 });
    assert_eq!(to_text(&print, &host), "print()");
    let decl = function("add", vec!["a"], "number", vec![]);
    let interp = Interpreter::new("", Console::new());
    let add = LiteralType::Func(interp.create_func(&decl).unwrap());
    assert_eq!(to_text(&add, &host), "add()");
    assert_eq!(add.typename(), "function");
    assert!(!add.is_truthy());
    let nested = LiteralType::Array(vec![LiteralType::Array(vec![number(1.0), number(2.0)]), LiteralType::Array(vec![])]);
    assert_eq!(to_text(&nested, &host), "[[1, 2], []]");
}

#[test]
fn tokens_become_literals() {
    let host = Console::new();
    let t = Token {
        token: TokenType::NumberLit,
        lexeme: "0x1F".to_string(),
        line: 1,
        start: 0,
        len: 4,
        value: Some(LiteralKind::Number { base: 16, whole: vec![1, 15], fraction: vec![] }),
    };
    assert_eq!(token_to_literal(&t, &host).unwrap(), number(31.0));
    let half = Token {
        token: TokenType::NumberLit,
        lexeme: "0.5".to_string(),
        line: 1,
        start: 0,
        len: 3,
        value: Some(LiteralKind::Number { base: 10, whole: vec![0], fraction: vec![5] }),
    };
    assert_eq!(token_to_literal(&half, &host).unwrap(), number(0.5));
    let s = Token {
        token: TokenType::StringLit,
        lexeme: "\"a\"".to_string(),
        line: 1,
        start: 0,
        len: 3,
        value: Some(LiteralKind::String { value: "a".to_string() }),
    };
    assert_eq!(token_to_literal(&s, &host).unwrap(), LiteralType::String("a".to_string()));
    let yes = Token {
        token: TokenType::TrueLit,
        lexeme: "true".to_string(),
        line: 1,
        start: 0,
        len: 4,
        value: Some(LiteralKind::Bool { value: true }),
    };
    assert_eq!(token_to_literal(&yes, &host).unwrap(), LiteralType::Boolean(true));
    assert_eq!(token_to_literal(&tok(TokenType::NullLit, "null"), &host).unwrap(), LiteralType::Null);
    assert_eq!(token_to_literal(&tok(TokenType::ArrayLit, "[]"), &host).unwrap(), LiteralType::Array(vec![]));
    let ty = Token {
        token: TokenType::StringIdent,
        lexeme: "string".to_string(),
        line: 1,
        start: 0,
        len: 6,
        value: Some(LiteralKind::Type(TypeKind::String)),
    };
    assert_eq!(token_to_literal(&ty, &host).unwrap(), LiteralType::String(String::new()));
    // a literal without its payload
    let bare = Token { token: TokenType::NumberLit, lexeme: "1".to_string(), line: 3, start: 7, len: 1, value: None };
    let e = token_to_literal(&bare, &host).unwrap_err();
    assert_eq!(e.code, ErrorCode::E0x408);
    assert_eq!((e.line, e.pos), (3, (7, 1)));
    assert_eq!(e.args, vec!["number".to_string()]);
    // a literal with the payload of another kind, and what each kind expects
    let expects = |kind: TokenType, value: Option<LiteralKind>| {
        let t = Token { token: kind, lexeme: "x".to_string(), line: 1, start: 0, len: 1, value };
        let e = token_to_literal(&t, &host).unwrap_err();
        assert_eq!(e.code, ErrorCode::E0x408);
        e.args
    };
    assert_eq!(expects(TokenType::NumberLit, Some(LiteralKind::Bool { value: true })), vec!["number".to_string()]);
    assert_eq!(expects(TokenType::StringLit, None), vec!["string".to_string()]);
    assert_eq!(expects(TokenType::StringLit, Some(LiteralKind::Char { value: 'a' })), vec!["string".to_string()]);
    assert_eq!(expects(TokenType::CharLit, None), vec!["char".to_string()]);
    assert_eq!(expects(TokenType::TrueLit, None), vec!["boolean".to_string()]);
    assert_eq!(expects(TokenType::FalseLit, Some(LiteralKind::String { value: String::new() })), vec!["boolean".to_string()]);
    assert_eq!(expects(TokenType::Ident, None), vec!["identifier".to_string()]);
    assert_eq!(expects(TokenType::NumberIdent, Some(LiteralKind::Bool { value: true })), vec!["identifier".to_string()]);
    // a token that is no literal
    let e = token_to_literal(&tok(TokenType::Semi, ";"), &host).unwrap_err();
    assert_eq!(e.code, ErrorCode::E0x407);
    assert!(e.args.is_empty());
}

#[test]
fn declared_types_are_checked() {
    assert!(type_check(&tok(TokenType::NumberIdent, "number"), &number(1.0)));
    assert!(!type_check(&tok(TokenType::NumberIdent, "number"), &LiteralType::String("1".to_string())));
    assert!(type_check(&tok(TokenType::AnyIdent, "any"), &LiteralType::Null));
    assert!(type_check(&tok(TokenType::BoolIdent, "bool"), &LiteralType::Boolean(false)));
    assert!(!type_check(&tok(TokenType::VoidIdent, "void"), &LiteralType::Null));
}

#[test]
fn addition_is_printed() {
    // var x = 41; var y = x + 1; print(y);
    let program = vec![
        declare("x", num(1, 41)),
        declare("y", binary(2, var(3, "x"), TokenType::Plus, "+", num(4, 1))),
        stmt(call(5, "print", vec![var(6, "y")])),
    ];
    let mut interp = Interpreter::new("", Console::new());
    interp.interpret(program.iter().collect()).unwrap();
    assert_eq!(interp.host.out, vec!["42"]);
}

#[test]
fn while_counts_to_three() {
    // var i = 0; while (i < 3) { i = i + 1; } print(i);
    let program = vec![
        declare("i", num(1, 0)),
        Statement::While {
            cond: binary(2, var(3, "i"), TokenType::Less, "<", num(4, 3)),
            body: vec![stmt(Expression::Assign {
                id: 5,
                name: ident("i"),
                value: Box::new(binary(6, var(7, "i"), TokenType::Plus, "+", num(8, 1))),
            })],
        },
        stmt(call(9, "print", vec![var(10, "i")])),
    ];
    let mut interp = Interpreter::new("", Console::new());
    interp.interpret(program.iter().collect()).unwrap();
    assert_eq!(interp.host.out, vec!["3"]);
}

#[test]
fn function_adds() {
    // fn add(a: number, b: number) -> number { return a + b; } print(add(2,3));
    let program = vec![
        function(
            "add",
            vec!["a", "b"],
            "number",
            vec![Statement::Return { expr: binary(1, var(2, "a"), TokenType::Plus, "+", var(3, "b")) }],
        ),
        stmt(call(4, "print", vec![call(5, "add", vec![num(6, 2), num(7, 3)])])),
    ];
    let mut interp = Interpreter::new("", Console::new());
    interp.interpret(program.iter().collect()).unwrap();
    assert_eq!(interp.host.out, vec!["5"]);
}

#[test]
fn counted_loop_prints_three_times() {
    // loop 3 { print("x"); }
    let program = vec![Statement::Loop {
        iter: Some(3),
        body: vec![stmt(call(1, "print", vec![text(2, "x")]))],
    }];
    let mut interp = Interpreter::new("", Console::new());
    interp.interpret(program.iter().collect()).unwrap();
    assert_eq!(interp.host.out, vec!["x", "x", "x"]);
}

#[test]
fn zero_takes_the_else_branch() {
    // if (0) { print("a"); } else { print("b"); }
    let program = vec![Statement::If {
        cond: num(1, 0),
        body: vec![stmt(call(2, "print", vec![text(3, "a")]))],
        else_branch: Some(vec![stmt(call(4, "print", vec![text(5, "b")]))]),
        else_if_branches: vec![],
    }];
    let mut interp = Interpreter::new("", Console::new());
    interp.interpret(program.iter().collect()).unwrap();
    assert_eq!(interp.host.out, vec!["b"]);
}

#[test]
fn elif_arms_are_tried_in_order() {
    let arm = |id: usize, cond: Expression, word: &str| (cond, vec![stmt(call(id, "print", vec![text(id + 1, word)]))]);
    let program = vec![Statement::If {
        cond: num(1, 0),
        body: vec![stmt(call(2, "print", vec![text(3, "a")]))],
        else_branch: Some(vec![stmt(call(4, "print", vec![text(5, "else")]))]),
        else_if_branches: vec![arm(10, num(6, 0), "first"), arm(20, num(7, 1), "second"), arm(30, num(8, 1), "third")],
    }];
    let mut interp = Interpreter::new("", Console::new());
    interp.interpret(program.iter().collect()).unwrap();
    assert_eq!(interp.host.out, vec!["second"]);
}

#[test]
fn too_many_arguments() {
    // fn f(a) ...; f(1, 2)
    let program = vec![
        function("f", vec!["a"], "any", vec![]),
        stmt(call(1, "f", vec![num(2, 1), num(3, 2)])),
    ];
    let mut interp = Interpreter::new("", Console::new());
    let e = interp.interpret(program.iter().collect()).unwrap_err();
    assert_eq!(e.code, ErrorCode::E0x405);
}

#[test]
fn host_function_arity_is_checked() {
    let program = vec![stmt(call(1, "print", vec![num(2, 1), num(3, 2)]))];
    let mut interp = Interpreter::new("", Console::new());
    let e = interp.interpret(program.iter().collect()).unwrap_err();
    assert_eq!(e.code, ErrorCode::E0x405);
    assert!(interp.host.out.is_empty());
}

#[test]
fn wrong_return_type() {
    // fn f() -> number { return "s"; } f();
    let program = vec![
        function("f", vec![], "number", vec![Statement::Return { expr: text(1, "s") }]),
        stmt(call(2, "f", vec![])),
    ];
    let mut interp = Interpreter::new("", Console::new());
    let e = interp.interpret(program.iter().collect()).unwrap_err();
    assert_eq!(e.code, ErrorCode::E0x301);
    assert_eq!(e.args, vec!["number".to_string(), "s".to_string()]);
}

#[test]
fn missing_return() {
    // fn f() -> number { } f();
    let program = vec![function("f", vec![], "number", vec![]), stmt(call(1, "f", vec![]))];
    let mut interp = Interpreter::new("", Console::new());
    let e = interp.interpret(program.iter().collect()).unwrap_err();
    assert_eq!(e.code, ErrorCode::E0x406);
}

#[test]
fn void_function_yields_null() {
    let decl = function("f", vec![], "void", vec![]);
    let program = vec![&decl];
    let mut interp = Interpreter::new("", Console::new());
    interp.interpret(program).unwrap();
    let f = interp.create_func(&decl).unwrap();
    let args = vec![];
    assert_eq!(run_func(f, &args, &mut interp).unwrap(), LiteralType::Null);
}

#[test]
fn closure_sees_later_assignment() {
    // var x = 1; var f = || x; x = 2; f()
    let program = vec![
        declare("x", num(1, 1)),
        declare(
            "f",
            Expression::Func {
                id: 2,
                name: ident("f"),
                value_type: tok(TokenType::AnyIdent, "any"),
                body: FuncBody::Expression(Box::new(var(3, "x"))),
                params: vec![],
                is_async: false,
                is_pub: false,
            },
        ),
        stmt(Expression::Assign { id: 4, name: ident("x"), value: Box::new(num(5, 2)) }),
    ];
    let last = call(6, "f", vec![]);
    let mut interp = Interpreter::new("", Console::new());
    interp.interpret(program.iter().collect()).unwrap();
    assert_eq!(interp.eval(&last, 1000).unwrap(), number(2.0));
}

#[test]
fn block_scope_ends_with_the_block() {
    // { var y = 1; } y
    let program = vec![Statement::Block { stmts: vec![declare("y", num(1, 1))] }];
    let read = var(2, "y");
    let mut interp = Interpreter::new("", Console::new());
    let scope = interp.scope;
    interp.interpret(program.iter().collect()).unwrap();
    assert_eq!(interp.scope, scope);
    let e = interp.eval(&read, 10).unwrap_err();
    assert_eq!(e.code, ErrorCode::E0x306);
}

#[test]
fn break_ends_the_loop() {
    // var i = 0; loop { i = i + 1; if (i == 3) { break; } } print(i);
    let program = vec![
        declare("i", num(1, 0)),
        Statement::Loop {
            iter: None,
            body: vec![
                stmt(Expression::Assign {
                    id: 2,
                    name: ident("i"),
                    value: Box::new(binary(3, var(4, "i"), TokenType::Plus, "+", num(5, 1))),
                }),
                Statement::If {
                    cond: binary(6, var(7, "i"), TokenType::Eq, "==", num(8, 3)),
                    body: vec![Statement::Break {}],
                    else_branch: None,
                    else_if_branches: vec![],
                },
            ],
        },
        stmt(call(9, "print", vec![var(10, "i")])),
    ];
    let mut interp = Interpreter::new("", Console::new());
    interp.interpret(program.iter().collect()).unwrap();
    assert_eq!(interp.host.out, vec!["3"]);
    assert!(!interp.specs.brk);
}

#[test]
fn endless_loop_spends_the_budget() {
    let program = vec![Statement::Loop { iter: None, body: vec![] }];
    let mut interp = Interpreter::new("", Console::new());
    interp.fuel = 500;
    let e = interp.interpret(program.iter().collect()).unwrap_err();
    assert_eq!(e.code, ErrorCode::E0x409);
}

#[test]
fn module_mode_keeps_public_declarations_only() {
    let public = Statement::Var {
        names: vec![ident("a")],
        value_type: tok(TokenType::AnyIdent, "any"),
        value: Some(num(1, 7)),
        is_mut: false,
        is_pub: true,
        pub_names: vec![ident("a")],
        is_func: false,
    };
    let program = vec![
        public,
        declare("b", num(2, 8)),
        stmt(call(3, "print", vec![text(4, "ran")])),
        Statement::Block { stmts: vec![stmt(call(5, "print", vec![text(6, "no")]))] },
    ];
    let mut interp = Interpreter::new("", Console::new());
    interp.is_mod = true;
    interp.interpret(program.iter().collect()).unwrap();
    assert_eq!(interp.host.out, vec!["ran"]);
    let (a, b) = (var(7, "a"), var(8, "b"));
    assert_eq!(interp.eval(&a, 10).unwrap(), number(7.0));
    assert_eq!(interp.eval(&b, 10).unwrap_err().code, ErrorCode::E0x306);
}

#[test]
fn var_without_value() {
    let plain = Statement::Var {
        names: vec![ident("a"), ident("b")],
        value_type: tok(TokenType::AnyIdent, "any"),
        value: None,
        is_mut: false,
        is_pub: false,
        pub_names: vec![],
        is_func: false,
    };
    let public = Statement::Var {
        names: vec![Token { token: TokenType::Ident, lexeme: "c".to_string(), line: 4, start: 9, len: 1, value: None }],
        value_type: tok(TokenType::AnyIdent, "any"),
        value: None,
        is_mut: false,
        is_pub: true,
        pub_names: vec![ident("c")],
        is_func: false,
    };
    let b = var(1, "b");
    let mut interp = Interpreter::new("", Console::new());
    interp.interpret(vec![&plain]).unwrap();
    assert_eq!(interp.eval(&b, 10).unwrap(), LiteralType::Null);
    let e = interp.interpret(vec![&public]).unwrap_err();
    assert_eq!(e.code, ErrorCode::E0x402);
    assert_eq!((e.line, e.pos), (4, (9, 1)));
}

#[test]
fn function_shaped_var() {
    let shaped = |names: Vec<Token>| Statement::Var {
        names,
        value_type: tok(TokenType::AnyIdent, "any"),
        value: Some(num(1, 1)),
        is_mut: false,
        is_pub: false,
        pub_names: vec![],
        is_func: true,
    };
    let two = shaped(vec![ident("a"), ident("b")]);
    let one = shaped(vec![ident("a")]);
    let mut interp = Interpreter::new("", Console::new());
    assert_eq!(interp.interpret(vec![&two]).unwrap_err().code, ErrorCode::E0x401);
    assert_eq!(interp.interpret(vec![&one]).unwrap_err().code, ErrorCode::E0x404);
}

#[test]
fn function_with_expression_body_is_malformed() {
    let bad = Statement::Func {
        name: ident("f"),
        value_type: tok(TokenType::AnyIdent, "any"),
        body: FuncBody::Expression(Box::new(num(1, 1))),
        params: vec![],
        is_async: false,
        is_pub: false,
        is_impl: false,
        is_mut: false,
    };
    let mut interp = Interpreter::new("", Console::new());
    assert_eq!(interp.interpret(vec![&bad]).unwrap_err().code, ErrorCode::E0x403);
}

#[test]
fn strings_and_logic() {
    let mut interp = Interpreter::new("", Console::new());
    let joined = binary(1, text(2, "ab"), TokenType::Plus, "+", text(3, "cd"));
    assert_eq!(interp.eval(&joined, 10).unwrap(), LiteralType::String("abcd".to_string()));
    let same = binary(4, text(5, "ab"), TokenType::Eq, "==", text(6, "ab"));
    assert_eq!(interp.eval(&same, 10).unwrap(), LiteralType::Boolean(true));
    let mixed = binary(7, text(8, "ab"), TokenType::Plus, "+", num(9, 1));
    assert_eq!(interp.eval(&mixed, 10).unwrap_err().code, ErrorCode::E0x301);
    // the right operand of `&&` is not evaluated where the left is false
    let lazy = binary(10, num(11, 0), TokenType::And, "&&", call(12, "print", vec![text(13, "x")]));
    assert_eq!(interp.eval(&lazy, 10).unwrap(), LiteralType::Boolean(false));
    assert!(interp.host.out.is_empty());
    let eager = binary(14, num(15, 1), TokenType::Or, "||", call(16, "print", vec![text(17, "x")]));
    assert_eq!(interp.eval(&eager, 10).unwrap(), LiteralType::Boolean(true));
    assert!(interp.host.out.is_empty());
    let not = Expression::Unary { id: 18, left: Box::new(num(19, 0)), operator: tok(TokenType::Not, "!") };
    assert_eq!(interp.eval(&not, 10).unwrap(), LiteralType::Boolean(true));
    let neg = Expression::Unary { id: 20, left: Box::new(num(21, 2)), operator: tok(TokenType::Minus, "-") };
    assert_eq!(interp.eval(&neg, 10).unwrap(), number(-2.0));
}

#[test]
fn operators_on_values() {
    let host = Console::new();
    let plus = tok(TokenType::Plus, "+");
    let less = tok(TokenType::Less, "<");
    let eq = tok(TokenType::Eq, "==");
    let ne = tok(TokenType::NotEq, "!=");
    assert_eq!(apply_binary(&host, &plus, &number(2.0), &number(0.5)).unwrap(), number(2.5));
    assert_eq!(apply_binary(&host, &less, &number(2.0), &number(0.5)).unwrap(), LiteralType::Boolean(false));
    let a = LiteralType::String("a".to_string());
    let b = LiteralType::String("b".to_string());
    assert_eq!(apply_binary(&host, &plus, &a, &b).unwrap(), LiteralType::String("ab".to_string()));
    assert_eq!(apply_binary(&host, &eq, &a, &b).unwrap(), LiteralType::Boolean(false));
    assert_eq!(apply_binary(&host, &ne, &a, &b).unwrap(), LiteralType::Boolean(true));
    assert_eq!(apply_binary(&host, &eq, &LiteralType::Char('x'), &LiteralType::Char('x')).unwrap(), LiteralType::Boolean(true));
    assert_eq!(apply_binary(&host, &ne, &LiteralType::Boolean(true), &LiteralType::Boolean(true)).unwrap(), LiteralType::Boolean(false));
    assert_eq!(apply_binary(&host, &eq, &LiteralType::Null, &LiteralType::Null).unwrap(), LiteralType::Boolean(true));
    // operands of different kinds have no operator
    let e = apply_binary(&host, &eq, &a, &LiteralType::Null).unwrap_err();
    assert_eq!(e.code, ErrorCode::E0x301);
    assert_eq!(apply_binary(&host, &less, &a, &b).unwrap_err().code, ErrorCode::E0x301);
    let minus = tok(TokenType::Minus, "-");
    let not = tok(TokenType::Not, "!");
    assert_eq!(apply_unary(&minus, &number(1.5)).unwrap(), number(-1.5));
    assert_eq!(apply_unary(&minus, &number(-0.0)).unwrap(), number(0.0));
    assert_eq!(apply_unary(&minus, &number(0.0)).unwrap(), number(-0.0));
    assert_eq!(apply_unary(&minus, &a).unwrap_err().code, ErrorCode::E0x301);
    assert_eq!(apply_unary(&not, &a).unwrap(), LiteralType::Boolean(false));
    assert_eq!(apply_unary(&not, &LiteralType::Null).unwrap(), LiteralType::Boolean(true));
    assert_eq!(apply_unary(&plus, &number(1.0)).unwrap_err().code, ErrorCode::E0x301);
}

/// A host with a function that gives a value back.
struct Doubler;

impl Host for Doubler {
    fn call<'a>(&mut self, func: usize, args: &Vec<LiteralType<'a>>) -> LiteralType<'a> {
        match (func, args.first()) {
            (7, Some(LiteralType::Number(bits))) => LiteralType::Number((f64::from_bits(*bits) * 2.0).to_bits()),
            _ => LiteralType::Null,
        }
    }

    fn to_number(&self, base: u8, whole: &Vec<u8>, fraction: &Vec<u8>) -> u64 {
        double_of(base, whole, fraction).to_bits()
    }

    fn number_op<'a>(&self, _: TokenType, _: u64, _: u64) -> LiteralType<'a> {
        LiteralType::Null
    }

    fn number_text(&self, bits: u64) -> String {
        f64::from_bits(bits).to_string()
    }
}

#[test]
fn host_functions_give_values() {
    let mut env = Env::new();
    func("twice", 1, &mut env, 7);
    let mut interp = Interpreter::new_with_env(env, 0, "", Doubler);
    let e = call(1, "twice", vec![call(2, "twice", vec![num(3, 5)])]);
    assert_eq!(interp.evaluate(&e).unwrap(), number(20.0));
    // what was bound can be called by another name
    let program = vec![declare("t", var(4, "twice"))];
    interp.interpret(program.iter().collect()).unwrap();
    let again = call(5, "t", vec![num(6, 1)]);
    assert_eq!(interp.evaluate(&again).unwrap(), number(2.0));
}

#[test]
fn an_evaluator_without_its_scope_does_not_run() {
    let program = vec![declare("x", num(1, 1))];
    let x = var(2, "x");
    let mut interp = Interpreter::new_with_env(Env::new(), 3, "", Console::new());
    assert_eq!(interp.interpret(program.iter().collect()).unwrap_err().code, ErrorCode::E0x308);
    assert_eq!(interp.evaluate(&x).unwrap_err().code, ErrorCode::E0x308);
    let decl = function("f", vec![], "void", vec![]);
    let f = interp.create_func(&decl).unwrap();
    let args = vec![];
    assert_eq!(run_func(f, &args, &mut interp).unwrap_err().code, ErrorCode::E0x308);
}

#[test]
fn arguments_are_held_to_the_declared_type() {
    // fn f(a) -> number { return a; } f("s")
    let program = vec![
        function("f", vec!["a"], "number", vec![Statement::Return { expr: var(1, "a") }]),
        stmt(call(2, "f", vec![text(3, "s")])),
    ];
    let mut interp = Interpreter::new("", Console::new());
    let e = interp.interpret(program.iter().collect()).unwrap_err();
    assert_eq!(e.code, ErrorCode::E0x301);
    assert_eq!(e.args, vec!["s".to_string(), "s".to_string()]);
}

#[test]
fn recursion_counts_down() {
    // fn down(n) -> any { if (n) { print(n); return down(n - 1); } return 0; } down(3);
    let body = vec![
        Statement::If {
            cond: var(1, "n"),
            body: vec![
                stmt(call(2, "print", vec![var(3, "n")])),
                Statement::Return {
                    expr: call(4, "down", vec![binary(5, var(6, "n"), TokenType::Minus, "-", num(7, 1))]),
                },
            ],
            else_branch: None,
            else_if_branches: vec![],
        },
        Statement::Return { expr: num(10, 0) },
    ];
    let program = vec![function("down", vec!["n"], "any", body), stmt(call(8, "down", vec![num(9, 3)]))];
    let mut interp = Interpreter::new("", Console::new());
    interp.interpret(program.iter().collect()).unwrap();
    assert_eq!(interp.host.out, vec!["3", "2", "1"]);
}

#[test]
fn statements_behind_a_return_still_run() {
    // the return signal is looked at between the statements of the body
    let body = vec![Statement::Block {
        stmts: vec![Statement::Return { expr: num(1, 1) }, stmt(call(2, "print", vec![text(3, "after")]))],
    }, stmt(call(4, "print", vec![text(5, "never")]))];
    let program = vec![function("f", vec![], "number", body), stmt(call(6, "print", vec![call(7, "f", vec![])]))];
    let mut interp = Interpreter::new("", Console::new());
    interp.interpret(program.iter().collect()).unwrap();
    assert_eq!(interp.host.out, vec!["after", "1"]);
}

#[test]
fn the_budget_bounds_recursion() {
    // fn f() -> any { return f(); } f();
    let body = vec![Statement::Return { expr: call(1, "f", vec![]) }];
    let program = vec![function("f", vec![], "any", body), stmt(call(2, "f", vec![]))];
    let mut interp = Interpreter::new("", Console::new());
    interp.fuel = 200;
    assert_eq!(interp.interpret(program.iter().collect()).unwrap_err().code, ErrorCode::E0x409);
    // the evaluator is where it was, and can go on
    assert_eq!(interp.scope, 0);
    let one = num(3, 1);
    assert_eq!(interp.evaluate(&one).unwrap(), number(1.0));
}
