use ape_core::ast::{Expression, FuncBody, Statement};
use ape_core::errors::ErrorCode;
use ape_core::resolver::Resolver;
use ape_core::token::{LiteralKind, Token, TokenType};

fn name(lexeme: &str) -> Token {
    Token { token: TokenType::Ident, lexeme: lexeme.to_string(), line: 2, start: 5, len: lexeme.len(), value: None }
}

fn one(id: usize) -> Expression {
    Expression::Value {
        id,
        value: Token {
            token: TokenType::NumberLit,
            lexeme: "1".to_string(),
            line: 1,
            start: 0,
            len: 1,
            value: Some(LiteralKind::Number { base: 10, whole: vec![1], fraction: vec![] }),
        },
    }
}

fn read(id: usize, lexeme: &str) -> Expression {
    Expression::Var { id, name: name(lexeme) }
}

fn var(lexeme: &str, value: Expression) -> Statement {
    Statement::Var {
        names: vec![name(lexeme)],
        value_type: name("any"),
        value: Some(value),
        is_mut: false,
        is_pub: false,
        pub_names: vec![],
        is_func: false,
    }
}

fn block(stmts: Vec<Statement>) -> Statement {
    Statement::Block { stmts }
}

fn function(lexeme: &str, params: Vec<&str>, body: FuncBody) -> Statement {
    Statement::Func {
        name: name(lexeme),
        value_type: name("any"),
        body,
        params: params.into_iter().map(|p| (name(p), name("any"))).collect(),
        is_async: false,
        is_pub: false,
        is_impl: false,
        is_mut: false,
    }
}

fn code(program: Vec<Statement>) -> ErrorCode {
    Resolver::new().resolve(&program).unwrap_err().code
}

#[test]
fn return_at_top_level() {
    assert_eq!(code(vec![Statement::Return { expr: one(1) }]), ErrorCode::E0x303);
}

#[test]
fn break_at_top_level() {
    assert_eq!(code(vec![Statement::Break {}]), ErrorCode::E0x302);
}

#[test]
fn break_in_a_block_outside_a_loop() {
    assert_eq!(code(vec![block(vec![Statement::Break {}])]), ErrorCode::E0x302);
}

#[test]
fn break_inside_loops() {
    let in_while = Statement::While { cond: one(1), body: vec![Statement::Break {}] };
    let in_loop = Statement::Loop { iter: None, body: vec![block(vec![Statement::Break {}])] };
    assert!(Resolver::new().resolve(&vec![in_while, in_loop]).unwrap().is_empty());
    // the flag is what it was behind the loop
    let after = vec![Statement::While { cond: one(1), body: vec![] }, Statement::Break {}];
    assert_eq!(code(after), ErrorCode::E0x302);
}

#[test]
fn return_inside_functions() {
    let f = function("f", vec![], FuncBody::Statements(vec![Statement::Return { expr: one(1) }]));
    assert!(Resolver::new().resolve(&vec![f]).unwrap().is_empty());
    let lambda = Statement::Expression {
        expr: Expression::Func {
            id: 1,
            name: name("g"),
            value_type: name("any"),
            body: FuncBody::Statements(vec![Statement::Return { expr: one(2) }]),
            params: vec![],
            is_async: false,
            is_pub: false,
        },
    };
    assert!(Resolver::new().resolve(&vec![lambda]).unwrap().is_empty());
    let after = vec![function("f", vec![], FuncBody::Statements(vec![])), Statement::Return { expr: one(3) }];
    assert_eq!(code(after), ErrorCode::E0x303);
}

#[test]
fn inner_declaration_does_not_clash() {
    // { var x = 1; { var x = 2; } }
    let program = vec![block(vec![var("x", one(1)), block(vec![var("x", one(2))])])];
    assert!(Resolver::new().resolve(&program).unwrap().is_empty());
}

#[test]
fn distances_are_recorded() {
    // { var x = 1; { var x = 2; x; } x; { { x; } } y; }
    let program = vec![block(vec![
        var("x", one(1)),
        block(vec![var("x", one(2)), Statement::Expression { expr: read(10, "x") }]),
        Statement::Expression { expr: read(11, "x") },
        block(vec![block(vec![Statement::Expression { expr: read(12, "x") }])]),
        Statement::Expression { expr: read(13, "y") },
    ])];
    let locals = Resolver::new().resolve(&program).unwrap();
    assert_eq!(locals.get(&10), Some(&0));
    assert_eq!(locals.get(&11), Some(&0));
    assert_eq!(locals.get(&12), Some(&2));
    // a name that no scope holds is global
    assert_eq!(locals.get(&13), None);
    assert_eq!(locals.len(), 3);
}

#[test]
fn parameters_are_found_in_the_function_scope() {
    // fn f(a) { { a; } }
    let body = FuncBody::Statements(vec![block(vec![Statement::Expression { expr: read(1, "a") }])]);
    let locals = Resolver::new().resolve(&vec![function("f", vec!["a"], body)]).unwrap();
    assert_eq!(locals.get(&1), Some(&1));
}

#[test]
fn duplicate_declaration() {
    let program = vec![block(vec![var("x", one(1)), var("x", one(2))])];
    let e = Resolver::new().resolve(&program).unwrap_err();
    assert_eq!(e.code, ErrorCode::E0x307);
    assert_eq!((e.line, e.pos), (2, (5, 1)));
    assert_eq!(e.args, vec!["x".to_string()]);
    assert_eq!(code(vec![function("f", vec!["a", "a"], FuncBody::Statements(vec![]))]), ErrorCode::E0x307);
}

#[test]
fn globals_may_be_declared_again() {
    // outside every scope nothing is recorded
    let program = vec![var("x", one(1)), var("x", one(2))];
    assert!(Resolver::new().resolve(&program).unwrap().is_empty());
}

#[test]
fn read_in_own_initialiser() {
    // { var x = x; }
    let program = vec![block(vec![var("x", read(1, "x"))])];
    let e = Resolver::new().resolve(&program).unwrap_err();
    assert_eq!(e.code, ErrorCode::E0x306);
    assert_eq!(e.args, vec!["a local variable".to_string()]);
    // an outer x is not in the way of an inner initialiser reading itself
    let program = vec![block(vec![var("x", one(1)), block(vec![var("x", read(2, "x"))])])];
    assert_eq!(code(program), ErrorCode::E0x306);
}

#[test]
fn function_needs_statements() {
    let f = function("f", vec![], FuncBody::Expression(Box::new(one(1))));
    assert_eq!(code(vec![f]), ErrorCode::E0x305);
}

#[test]
fn branches_have_scopes_of_their_own() {
    // if (1) { var a = 1; } elif (1) { var a = 1; } else { var a = 1; a; }
    let program = vec![block(vec![Statement::If {
        cond: one(1),
        body: vec![var("a", one(2))],
        else_if_branches: vec![(one(3), vec![var("a", one(4))])],
        else_branch: Some(vec![var("a", one(5)), Statement::Expression { expr: read(6, "a") }]),
    }])];
    let locals = Resolver::new().resolve(&program).unwrap();
    assert_eq!(locals.get(&6), Some(&0));
}

#[test]
fn match_cases_have_scopes_of_their_own() {
    let program = vec![block(vec![
        var("v", one(1)),
        Statement::Match {
            cond: read(2, "v"),
            def_case: FuncBody::Expression(Box::new(read(3, "v"))),
            cases: vec![
                (one(4), FuncBody::Statements(vec![var("a", one(5)), Statement::Expression { expr: read(6, "a") }])),
                (one(7), FuncBody::Expression(Box::new(read(8, "v")))),
            ],
        },
    ])];
    let locals = Resolver::new().resolve(&program).unwrap();
    assert_eq!(locals.get(&2), Some(&0));
    assert_eq!(locals.get(&3), Some(&1));
    assert_eq!(locals.get(&6), Some(&0));
    assert_eq!(locals.get(&8), Some(&1));
}

#[test]
fn imports_and_enums_are_declared() {
    let uses = Statement::Use {
        src: "m".to_string(),
        names: vec![(name("a"), None), (name("b"), Some(name("c")))],
        all: false,
    };
    let again = Statement::Use { src: "m".to_string(), names: vec![(name("c"), None)], all: false };
    assert_eq!(code(vec![block(vec![uses, again])]), ErrorCode::E0x307);
    let e = |n: &str| Statement::Enum { name: name(n), enums: vec![], is_pub: false };
    assert_eq!(code(vec![block(vec![e("E"), e("E")])]), ErrorCode::E0x307);
    assert!(Resolver::new().resolve(&vec![block(vec![e("E"), e("F")])]).is_ok());
}

/// A name that stands on line `line` at place `start`.
fn placed(lexeme: &str, line: usize, start: usize) -> Token {
    Token { token: TokenType::Ident, lexeme: lexeme.to_string(), line, start, len: lexeme.len(), value: None }
}

/// `{ var x = 1; { x; y; } var NAME = 2; }` with its tokens moved by `shift`.
fn shifted(shift: usize, name: &str) -> Vec<Statement> {
    let var = |lexeme: &str, at: usize| Statement::Var {
        names: vec![placed(lexeme, 1 + shift, at + 7 * shift)],
        value_type: placed("any", 1 + shift, at + 2 + 7 * shift),
        value: Some(one(at)),
        is_mut: false,
        is_pub: false,
        pub_names: vec![],
        is_func: false,
    };
    let read = |id: usize, lexeme: &str| Statement::Expression {
        expr: Expression::Var { id, name: placed(lexeme, 2 + 3 * shift, id + shift) },
    };
    vec![block(vec![var("x", 1), block(vec![read(10, "x"), read(11, "y")]), var(name, 2)])]
}

#[test]
fn places_of_tokens_do_not_matter() {
    // as if comments and blank lines had been put between the tokens
    let here = Resolver::new().resolve(&shifted(0, "z")).unwrap();
    let there = Resolver::new().resolve(&shifted(5, "z")).unwrap();
    assert_eq!(here, there);
    assert_eq!(here.get(&10), Some(&1));
    assert_eq!(here.get(&11), None);
    // a failure has the same code and arguments, and points elsewhere
    let e = Resolver::new().resolve(&shifted(0, "x")).unwrap_err();
    let f = Resolver::new().resolve(&shifted(5, "x")).unwrap_err();
    assert_eq!((e.code, &e.args), (f.code, &f.args));
    assert_eq!(e.code, ErrorCode::E0x307);
    assert_eq!((e.line, e.pos), (1, (2, 1)));
    assert_eq!((f.line, f.pos), (6, (37, 1)));
}

#[test]
fn scopes_are_closed_behind_the_walk() {
    // what a second run finds does not depend on the scopes of the first
    let mut r = Resolver::new();
    let first = vec![block(vec![var("x", one(1)), Statement::Expression { expr: read(2, "x") }])];
    let second = vec![Statement::Expression { expr: read(3, "x") }, Statement::Break {}];
    let locals = r.resolve(&first).unwrap();
    assert_eq!(locals.get(&2), Some(&0));
    // outside the block `x` is global again, and `break` is outside every loop
    assert_eq!(r.resolve(&second).unwrap_err().code, ErrorCode::E0x302);
    let third = vec![Statement::Expression { expr: read(3, "x") }];
    let locals = r.resolve(&third).unwrap();
    assert_eq!(locals.get(&3), None);
}
