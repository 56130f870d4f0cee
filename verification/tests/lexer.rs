use ape_core::lexer::{lex, LexError, LexErrorKind};
use ape_core::token::{LiteralKind, Token, TokenType, TypeKind};

fn kinds(src: &str) -> Vec<TokenType> {
    lex(src, 1).unwrap().iter().map(|t| t.token).collect()
}

fn flaw(src: &str) -> LexError {
    lex(src, 1).unwrap_err()
}

#[test]
fn every_result_ends_with_the_marker() {
    for src in ["", " ", "a", "1 + 2", "// only a comment", "\n\n", "\"s\" 'c'"] {
        let tokens = lex(src, 7).unwrap();
        assert_eq!(tokens.last().unwrap(), &Token::eof(7));
        assert_eq!(tokens.iter().filter(|t| t.token == TokenType::Eof).count(), 1);
    }
}

#[test]
fn empty_source_is_only_the_marker() {
    assert_eq!(lex("", 1).unwrap(), vec![Token::eof(1)]);
}

#[test]
fn comments_give_no_tokens() {
    assert_eq!(kinds("// a line comment"), vec![TokenType::Eof]);
    assert_eq!(kinds("// one\n// two\n"), vec![TokenType::Eof]);
    assert_eq!(kinds("/* a */ /* b */"), vec![TokenType::Eof]);
    assert_eq!(kinds("a /* b */ c // d"), vec![TokenType::Ident, TokenType::Ident, TokenType::Eof]);
    for t in lex("/* x */ y // z\n/* w */", 1).unwrap() {
        assert_ne!(t.token, TokenType::Comment);
    }
}

#[test]
fn block_comments_do_not_nest() {
    // the first `*/` ends the comment
    assert_eq!(
        kinds("/* a /* b */ c */"),
        vec![TokenType::Ident, TokenType::Star, TokenType::Slash, TokenType::Eof]
    );
}

#[test]
fn lines_survive_comments() {
    let tokens = lex("/* one\ntwo\nthree */ x // tail\ny", 1).unwrap();
    assert_eq!(tokens.len(), 3);
    assert_eq!((tokens[0].lexeme.as_str(), tokens[0].line, tokens[0].start), ("x", 3, 20));
    assert_eq!((tokens[1].lexeme.as_str(), tokens[1].line, tokens[1].start), ("y", 4, 30));
    let tokens = lex("/* hi \n */ ;", 1).unwrap();
    assert_eq!(tokens[0].token, TokenType::Semi);
    assert_eq!(tokens[0].line, 2);
}

#[test]
fn lines_start_where_asked() {
    let tokens = lex("a\nb", 10).unwrap();
    assert_eq!(tokens[0].line, 10);
    assert_eq!(tokens[1].line, 11);
    assert_eq!(tokens[2], Token::eof(10));
}

#[test]
fn the_line_counter_may_run_out() {
    assert_eq!(lex("a b", usize::MAX).unwrap().len(), 3);
    assert_eq!(
        lex("a\nb", usize::MAX).unwrap_err(),
        LexError { kind: LexErrorKind::TooManyLines, line: usize::MAX, pos: 1 }
    );
    assert_eq!(lex("/* a\n\n */", usize::MAX - 1).unwrap_err().kind, LexErrorKind::TooManyLines);
    assert_eq!(lex("/* a\n */ b", usize::MAX - 1).unwrap()[0].line, usize::MAX);
}

#[test]
fn numbers_in_all_bases() {
    let value = |src: &str| lex(src, 1).unwrap().remove(0).value;
    let number = |base: u8, whole: Vec<u8>, fraction: Vec<u8>| Some(LiteralKind::Number { base, whole, fraction });
    assert_eq!(value("0x1F"), number(16, vec![1, 15], vec![]));
    assert_eq!(value("0b101"), number(2, vec![1, 0, 1], vec![]));
    assert_eq!(value("0o17"), number(8, vec![1, 7], vec![]));
    assert_eq!(value("42"), number(10, vec![4, 2], vec![]));
    assert_eq!(value("0"), number(10, vec![0], vec![]));
    assert_eq!(value("3.25"), number(10, vec![3], vec![2, 5]));
    assert_eq!(value("0xff"), number(16, vec![15, 15], vec![]));
    assert_eq!(value("0xAb.C"), number(16, vec![10, 11], vec![12]));
    // the whole number that the digits spell
    let integer = |src: &str| value(src).unwrap().integer();
    assert_eq!(integer("0x1F"), Some(31));
    assert_eq!(integer("0b101"), Some(5));
    assert_eq!(integer("0o17"), Some(15));
    assert_eq!(integer("42"), Some(42));
    assert_eq!(integer("007"), Some(7));
    assert_eq!(integer("18446744073709551615"), Some(u64::MAX));
    assert_eq!(integer("18446744073709551616"), None);
    assert_eq!(integer("3.25"), None);
    assert_eq!(LiteralKind::Bool { value: true }.integer(), None);
    let t = lex("0x1F", 1).unwrap().remove(0);
    assert_eq!((t.token, t.lexeme.as_str(), t.start, t.len), (TokenType::NumberLit, "0x1F", 0, 4));
}

#[test]
fn numbers_of_any_length() {
    // more digits than 64 bits hold
    let long = "123456789012345678901234567890.5";
    let t = lex(long, 1).unwrap().remove(0);
    assert_eq!(t.lexeme, long);
    match &t.value {
        Some(LiteralKind::Number { base, whole, fraction }) => {
            assert_eq!(*base, 10);
            assert_eq!(whole.len(), 30);
            assert_eq!(whole[29], 0);
            assert_eq!(fraction, &vec![5]);
        }
        other => panic!("{:?}", other),
    }
    // more than 255 digits behind the point
    let deep = format!("0.{}1", "0".repeat(300));
    let t = lex(&deep, 1).unwrap().remove(0);
    match &t.value {
        Some(LiteralKind::Number { fraction, .. }) => assert_eq!(fraction.len(), 301),
        other => panic!("{:?}", other),
    }
    let wide = format!("0x{}", "f".repeat(100));
    assert_eq!(lex(&wide, 1).unwrap().len(), 2);
}

#[test]
fn a_point_needs_a_digit_behind_it() {
    assert_eq!(kinds("1.x"), vec![TokenType::NumberLit, TokenType::Dot, TokenType::Ident, TokenType::Eof]);
    assert_eq!(kinds("1."), vec![TokenType::NumberLit, TokenType::Dot, TokenType::Eof]);
}

#[test]
fn flawed_numbers() {
    assert_eq!(flaw("0b102").kind, LexErrorKind::BadDigit);
    assert_eq!(flaw("0o8").kind, LexErrorKind::BadDigit);
    assert_eq!(flaw("0x").kind, LexErrorKind::BadDigit);
    assert_eq!(flaw("12ab").kind, LexErrorKind::BadDigit);
    assert_eq!(flaw("  0b2"), LexError { kind: LexErrorKind::BadDigit, line: 1, pos: 2 });
}

#[test]
fn strings_are_decoded() {
    let t = lex("\"a\\nb\"", 1).unwrap().remove(0);
    assert_eq!(t.token, TokenType::StringLit);
    assert_eq!(t.lexeme, "\"a\\nb\"");
    assert_eq!(t.value, Some(LiteralKind::String { value: "a\nb".to_string() }));
    match &t.value {
        Some(LiteralKind::String { value }) => {
            assert_eq!(value.chars().collect::<Vec<char>>(), vec!['a', '\n', 'b']);
        }
        other => panic!("{:?}", other),
    }
    let t = lex("\"\\t\\r\\0\\\\\\\"\\'\"", 1).unwrap().remove(0);
    assert_eq!(t.value, Some(LiteralKind::String { value: "\t\r\0\\\"'".to_string() }));
    let t = lex("\"\"", 1).unwrap().remove(0);
    assert_eq!(t.value, Some(LiteralKind::String { value: String::new() }));
    // text outside ASCII is fine inside a string
    let t = lex("\"héllo ✓\"", 1).unwrap().remove(0);
    assert_eq!(t.value, Some(LiteralKind::String { value: "héllo ✓".to_string() }));
    assert_eq!(t.len, 9);
}

#[test]
fn a_string_may_span_lines() {
    let tokens = lex("\"a\nb\" c", 1).unwrap();
    assert_eq!(tokens[0].line, 1);
    assert_eq!(tokens[1].line, 2);
}

#[test]
fn characters_are_decoded() {
    let value = |src: &str| lex(src, 1).unwrap().remove(0).value;
    assert_eq!(value("'a'"), Some(LiteralKind::Char { value: 'a' }));
    assert_eq!(value("'\\n'"), Some(LiteralKind::Char { value: '\n' }));
    assert_eq!(value("'\\''"), Some(LiteralKind::Char { value: '\'' }));
    assert_eq!(value("'é'"), Some(LiteralKind::Char { value: 'é' }));
    assert_eq!(value("'\"'"), Some(LiteralKind::Char { value: '"' }));
}

#[test]
fn flawed_literals() {
    assert_eq!(flaw("\"abc").kind, LexErrorKind::UnterminatedString);
    assert_eq!(flaw("\"abc\\").kind, LexErrorKind::UnterminatedString);
    assert_eq!(flaw("\"a\\qb\"").kind, LexErrorKind::InvalidEscape);
    assert_eq!(flaw("'a").kind, LexErrorKind::UnterminatedChar);
    assert_eq!(flaw("'").kind, LexErrorKind::UnterminatedChar);
    assert_eq!(flaw("''").kind, LexErrorKind::BadCharLiteral);
    assert_eq!(flaw("'ab'").kind, LexErrorKind::BadCharLiteral);
    assert_eq!(flaw("'\\q'").kind, LexErrorKind::InvalidEscape);
    assert_eq!(flaw("/* never closed").kind, LexErrorKind::UnterminatedComment);
    assert_eq!(flaw("/*/").kind, LexErrorKind::UnterminatedComment);
    assert_eq!(flaw("x\n y \"open"), LexError { kind: LexErrorKind::UnterminatedString, line: 2, pos: 5 });
}

#[test]
fn unknown_characters_are_flaws() {
    assert_eq!(flaw("a # b"), LexError { kind: LexErrorKind::UnexpectedChar, line: 1, pos: 2 });
    assert_eq!(flaw("é").kind, LexErrorKind::UnexpectedChar);
    assert_eq!(flaw("a\n\n  @").line, 3);
}

#[test]
fn the_longest_operator_wins() {
    assert_eq!(kinds("=="), vec![TokenType::Eq, TokenType::Eof]);
    assert_eq!(kinds("="), vec![TokenType::Assign, TokenType::Eof]);
    assert_eq!(kinds("!="), vec![TokenType::NotEq, TokenType::Eof]);
    assert_eq!(kinds("!"), vec![TokenType::Not, TokenType::Eof]);
    assert_eq!(kinds("<="), vec![TokenType::LessOrEq, TokenType::Eof]);
    assert_eq!(kinds("<"), vec![TokenType::Less, TokenType::Eof]);
    assert_eq!(kinds(">= > >> <<"), vec![
        TokenType::GreaterOrEq,
        TokenType::Greater,
        TokenType::RightShift,
        TokenType::LeftShift,
        TokenType::Eof
    ]);
    assert_eq!(kinds("==="), vec![TokenType::Eq, TokenType::Assign, TokenType::Eof]);
    assert_eq!(kinds("&& & || | ^"), vec![
        TokenType::And,
        TokenType::BitAnd,
        TokenType::Or,
        TokenType::BitOr,
        TokenType::BitXor,
        TokenType::Eof
    ]);
    assert_eq!(kinds("+= -= *= /= %= -> + - * / %"), vec![
        TokenType::PlusEq,
        TokenType::MinusEq,
        TokenType::StarEq,
        TokenType::SlashEq,
        TokenType::PercentEq,
        TokenType::Arrow,
        TokenType::Plus,
        TokenType::Minus,
        TokenType::Star,
        TokenType::Slash,
        TokenType::Percent,
        TokenType::Eof
    ]);
    assert_eq!(kinds("( ) { } [ ] , ; : ."), vec![
        TokenType::LeftParen,
        TokenType::RightParen,
        TokenType::LeftBrace,
        TokenType::RightBrace,
        TokenType::LeftBracket,
        TokenType::RightBracket,
        TokenType::Comma,
        TokenType::Semi,
        TokenType::Colon,
        TokenType::Dot,
        TokenType::Eof
    ]);
}

#[test]
fn keywords_match_exactly() {
    assert_eq!(kinds("while"), vec![TokenType::While, TokenType::Eof]);
    assert_eq!(kinds("whiles"), vec![TokenType::Ident, TokenType::Eof]);
    assert_eq!(kinds("While"), vec![TokenType::Ident, TokenType::Eof]);
    assert_eq!(kinds("_if"), vec![TokenType::Ident, TokenType::Eof]);
    assert_eq!(kinds("fn var if else elif return loop break match"), vec![
        TokenType::Func,
        TokenType::Var,
        TokenType::If,
        TokenType::Else,
        TokenType::Elif,
        TokenType::Return,
        TokenType::Loop,
        TokenType::Break,
        TokenType::Match,
        TokenType::Eof
    ]);
    assert_eq!(kinds("mod use as from struct impl enum async await pub mut self"), vec![
        TokenType::Mod,
        TokenType::Use,
        TokenType::As,
        TokenType::From,
        TokenType::Struct,
        TokenType::Impl,
        TokenType::Enum,
        TokenType::Async,
        TokenType::Await,
        TokenType::Pub,
        TokenType::Mut,
        TokenType::SelfKw,
        TokenType::Eof
    ]);
    let name = lex("x_1", 1).unwrap().remove(0);
    assert_eq!((name.token, name.lexeme.as_str(), name.len, name.value), (TokenType::Ident, "x_1", 3, None));
}

#[test]
fn words_with_payloads() {
    let first = |src: &str| {
        let t = lex(src, 1).unwrap().remove(0);
        (t.token, t.value)
    };
    assert_eq!(first("true"), (TokenType::TrueLit, Some(LiteralKind::Bool { value: true })));
    assert_eq!(first("false"), (TokenType::FalseLit, Some(LiteralKind::Bool { value: false })));
    assert_eq!(first("null"), (TokenType::NullLit, None));
    assert_eq!(first("number"), (TokenType::NumberIdent, Some(LiteralKind::Type(TypeKind::Number))));
    assert_eq!(first("string"), (TokenType::StringIdent, Some(LiteralKind::Type(TypeKind::String))));
    assert_eq!(first("char"), (TokenType::CharIdent, Some(LiteralKind::Type(TypeKind::Char))));
    assert_eq!(first("bool"), (TokenType::BoolIdent, Some(LiteralKind::Type(TypeKind::Bool))));
    assert_eq!(first("void"), (TokenType::VoidIdent, Some(LiteralKind::Type(TypeKind::Void))));
    assert_eq!(first("array"), (TokenType::ArrayIdent, Some(LiteralKind::Type(TypeKind::Array))));
    assert_eq!(first("any"), (TokenType::AnyIdent, Some(LiteralKind::Type(TypeKind::Any))));
    assert_eq!(first("function"), (TokenType::FuncIdent, Some(LiteralKind::Type(TypeKind::Func))));
}

#[test]
fn a_small_program() {
    let tokens = lex("var x = 41;\nprint(x + 1);", 1).unwrap();
    let seen: Vec<(TokenType, &str, usize, usize)> =
        tokens.iter().map(|t| (t.token, t.lexeme.as_str(), t.line, t.start)).collect();
    assert_eq!(seen, vec![
        (TokenType::Var, "var", 1, 0),
        (TokenType::Ident, "x", 1, 4),
        (TokenType::Assign, "=", 1, 6),
        (TokenType::NumberLit, "41", 1, 8),
        (TokenType::Semi, ";", 1, 10),
        (TokenType::Ident, "print", 2, 12),
        (TokenType::LeftParen, "(", 2, 17),
        (TokenType::Ident, "x", 2, 18),
        (TokenType::Plus, "+", 2, 20),
        (TokenType::NumberLit, "1", 2, 22),
        (TokenType::RightParen, ")", 2, 23),
        (TokenType::Semi, ";", 2, 24),
        (TokenType::Eof, "", 1, 0),
    ]);
}
