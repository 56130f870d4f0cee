//! The lexer: from source text to tokens.
//!
//! `step` says what stands at a place in the text: something to pass over,
//! a token, or a flaw. `lex_from` follows the steps to the end of the text,
//! and `lexed` adds the end-of-input marker. The function `lex` computes
//! `lexed`.

use vstd::prelude::*;
use crate::text::{chars_of, slice_string, spells, string_of};
use crate::token::{LiteralKind, Lexed, Payload, Token, TokenType, TypeKind, end_marker};

verus! {

/// What can be wrong with a source text.
#[derive(Clone, Copy, Debug, PartialEq, Eq, Structural)]
pub enum LexErrorKind {
    /// A character that starts no token.
    UnexpectedChar,
    /// A string literal without its closing quote.
    UnterminatedString,
    /// A character literal without its closing quote.
    UnterminatedChar,
    /// A block comment without its end.
    UnterminatedComment,
    /// A backslash in front of a character that it cannot escape.
    InvalidEscape,
    /// A character literal that does not hold exactly one code point.
    BadCharLiteral,
    /// A digit that the base of the literal does not have, or a base prefix
    /// without digits.
    BadDigit,
    /// More lines than the line counter can count.
    TooManyLines,
}

/// A flaw in the source: its kind, and the line and the place where the
/// offending token starts.
#[derive(Clone, Copy, Debug, PartialEq, Eq, Structural)]
pub struct LexError {
    pub kind: LexErrorKind,
    pub line: usize,
    pub pos: usize,
}

/// What stands at a place in the text, and where it ends.
pub enum Step {
    /// White space or a comment.
    Skip { end: int },
    /// A token, with the payload of a literal.
    Tok { token: TokenType, end: int, value: Option<Payload> },
    /// A flaw.
    Fail { kind: LexErrorKind },
}

/// A blank, a tab, a carriage return or a line break.
pub open spec fn is_space(c: char) -> bool {
    c == ' ' || c == '\t' || c == '\r' || c == '\n'
}

/// A decimal digit.
pub open spec fn is_digit(c: char) -> bool {
    '0' <= c <= '9'
}

/// A letter or an underscore: what a name starts with.
pub open spec fn is_alpha(c: char) -> bool {
    ('a' <= c <= 'z') || ('A' <= c <= 'Z') || c == '_'
}

/// What a name goes on with.
pub open spec fn is_word(c: char) -> bool {
    is_alpha(c) || is_digit(c)
}

/// The value of a digit of any of the bases.
pub open spec fn digit_value(c: char) -> Option<u8> {
    if '0' <= c <= '9' {
        Some((c as u8 - '0' as u8) as u8)
    } else if 'a' <= c <= 'f' {
        Some((c as u8 - 'a' as u8 + 10) as u8)
    } else if 'A' <= c <= 'F' {
        Some((c as u8 - 'A' as u8 + 10) as u8)
    } else {
        None
    }
}

/// Whether `c` is a digit in `base`.
pub open spec fn is_digit_of(c: char, base: u8) -> bool {
    match digit_value(c) {
        Some(d) => d < base,
        None => false,
    }
}

/// The character that a backslash and `c` stand for.
pub open spec fn escape(c: char) -> Option<char> {
    if c == 'n' {
        Some('\n')
    } else if c == 't' {
        Some('\t')
    } else if c == 'r' {
        Some('\r')
    } else if c == '0' {
        Some('\0')
    } else if c == '\\' || c == '"' || c == '\'' {
        Some(c)
    } else {
        None
    }
}

/// How many line breaks `src[from..to]` holds.
pub open spec fn newlines(src: Seq<char>, from: int, to: int) -> nat
    decreases to - from,
{
    if to <= from || to > src.len() || from < 0 {
        0
    } else {
        newlines(src, from, to - 1) + if src[to - 1] == '\n' {
            1nat
        } else {
            0nat
        }
    }
}

/// Where the run of name characters that starts at `from` ends.
pub open spec fn word_end(src: Seq<char>, from: int) -> int
    decreases src.len() - from,
{
    if 0 <= from < src.len() && is_word(src[from]) {
        word_end(src, from + 1)
    } else {
        from
    }
}

/// Where the run of digits of `base` that starts at `from` ends.
pub open spec fn digits_end(src: Seq<char>, from: int, base: u8) -> int
    decreases src.len() - from,
{
    if 0 <= from < src.len() && is_digit_of(src[from], base) {
        digits_end(src, from + 1, base)
    } else {
        from
    }
}

/// The first line break at or behind `from`, or the end of the text.
pub open spec fn line_end(src: Seq<char>, from: int) -> int
    decreases src.len() - from,
{
    if 0 <= from < src.len() && src[from] != '\n' {
        line_end(src, from + 1)
    } else {
        from
    }
}

/// The place right behind the first `*/` at or behind `from`.
pub open spec fn block_end(src: Seq<char>, from: int) -> Option<int>
    decreases src.len() - from,
{
    if from < 0 || from + 1 >= src.len() {
        None
    } else if src[from] == '*' && src[from + 1] == '/' {
        Some(from + 2)
    } else {
        block_end(src, from + 1)
    }
}

/// The digits `src[from..to]`, each by its value.
pub open spec fn digits(src: Seq<char>, from: int, to: int) -> Seq<u8> {
    Seq::new(
        (to - from) as nat,
        |i: int|
            match digit_value(src[from + i]) {
                Some(d) => d,
                None => 0u8,
            },
    )
}

/// The rest of a string literal from `from` on, behind the characters
/// `done`: the place behind the closing quote and the characters of the
/// string, escapes processed.
pub open spec fn string_end(src: Seq<char>, from: int, done: Seq<char>) -> Result<
    (int, Seq<char>),
    LexErrorKind,
>
    decreases src.len() - from,
{
    if from < 0 || from >= src.len() {
        Err(LexErrorKind::UnterminatedString)
    } else if src[from] == '"' {
        Ok((from + 1, done))
    } else if src[from] == '\\' {
        if from + 1 >= src.len() {
            Err(LexErrorKind::UnterminatedString)
        } else {
            match escape(src[from + 1]) {
                Some(c) => string_end(src, from + 2, done.push(c)),
                None => Err(LexErrorKind::InvalidEscape),
            }
        }
    } else {
        string_end(src, from + 1, done.push(src[from]))
    }
}

/// The string literal that starts at `pos`.
pub open spec fn string_at(src: Seq<char>, pos: int) -> Step {
    match string_end(src, pos + 1, Seq::empty()) {
        Ok((end, value)) => Step::Tok {
            token: TokenType::StringLit,
            end,
            value: Some(Payload::String { value }),
        },
        Err(kind) => Step::Fail { kind },
    }
}

/// The closing quote of a character literal, expected at `at`.
pub open spec fn char_close(src: Seq<char>, at: int, value: char) -> Step {
    if at >= src.len() {
        Step::Fail { kind: LexErrorKind::UnterminatedChar }
    } else if src[at] == '\'' {
        Step::Tok { token: TokenType::CharLit, end: at + 1, value: Some(Payload::Char { value }) }
    } else {
        Step::Fail { kind: LexErrorKind::BadCharLiteral }
    }
}

/// The character literal that starts at `pos`: one character, or one
/// escape, between two quotes.
pub open spec fn char_at(src: Seq<char>, pos: int) -> Step {
    if pos + 1 >= src.len() {
        Step::Fail { kind: LexErrorKind::UnterminatedChar }
    } else if src[pos + 1] == '\'' {
        Step::Fail { kind: LexErrorKind::BadCharLiteral }
    } else if src[pos + 1] == '\\' {
        if pos + 2 >= src.len() {
            Step::Fail { kind: LexErrorKind::UnterminatedChar }
        } else {
            match escape(src[pos + 2]) {
                Some(c) => char_close(src, pos + 3, c),
                None => Step::Fail { kind: LexErrorKind::InvalidEscape },
            }
        }
    } else {
        char_close(src, pos + 2, src[pos + 1])
    }
}

/// The base that a literal starting at `pos` is written in: 2, 8 or 16
/// behind the prefix `0b`, `0o` or `0x`, else 10.
pub open spec fn base_at(src: Seq<char>, pos: int) -> u8 {
    if pos + 1 < src.len() && src[pos] == '0' {
        if src[pos + 1] == 'b' {
            2
        } else if src[pos + 1] == 'o' {
            8
        } else if src[pos + 1] == 'x' {
            16
        } else {
            10
        }
    } else {
        10
    }
}

/// The numeric literal that starts at `pos`.
///
/// Behind the prefix, if there is one, stand the digits of the whole part:
/// at least one. A point that a digit follows starts the fraction. No name
/// character may follow the literal. The payload holds every digit, however
/// many there are.
pub open spec fn number_at(src: Seq<char>, pos: int) -> Step {
    let base = base_at(src, pos);
    let start = if base == 10 {
        pos
    } else {
        pos + 2
    };
    let whole = digits_end(src, start, base);
    let fraction = whole + 1 < src.len() && src[whole] == '.' && is_digit_of(src[whole + 1], base);
    let end = if fraction {
        digits_end(src, whole + 1, base)
    } else {
        whole
    };
    if whole == start {
        Step::Fail { kind: LexErrorKind::BadDigit }
    } else if end < src.len() && is_word(src[end]) {
        Step::Fail { kind: LexErrorKind::BadDigit }
    } else {
        Step::Tok {
            token: TokenType::NumberLit,
            end,
            value: Some(
                Payload::Number {
                    base,
                    whole: digits(src, start, whole),
                    fraction: if fraction {
                        digits(src, whole + 1, end)
                    } else {
                        Seq::empty()
                    },
                },
            ),
        }
    }
}

/// The keyword that `word` is, or `Ident`.
pub open spec fn keyword(word: Seq<char>) -> TokenType {
    if word == "fn"@ {
        TokenType::Func
    } else if word == "var"@ {
        TokenType::Var
    } else if word == "if"@ {
        TokenType::If
    } else if word == "else"@ {
        TokenType::Else
    } else if word == "elif"@ {
        TokenType::Elif
    } else if word == "return"@ {
        TokenType::Return
    } else if word == "while"@ {
        TokenType::While
    } else if word == "loop"@ {
        TokenType::Loop
    } else if word == "break"@ {
        TokenType::Break
    } else if word == "match"@ {
        TokenType::Match
    } else if word == "mod"@ {
        TokenType::Mod
    } else if word == "use"@ {
        TokenType::Use
    } else if word == "as"@ {
        TokenType::As
    } else if word == "from"@ {
        TokenType::From
    } else if word == "struct"@ {
        TokenType::Struct
    } else if word == "impl"@ {
        TokenType::Impl
    } else if word == "enum"@ {
        TokenType::Enum
    } else if word == "async"@ {
        TokenType::Async
    } else if word == "await"@ {
        TokenType::Await
    } else if word == "pub"@ {
        TokenType::Pub
    } else if word == "mut"@ {
        TokenType::Mut
    } else if word == "self"@ {
        TokenType::SelfKw
    } else if word == "true"@ {
        TokenType::TrueLit
    } else if word == "false"@ {
        TokenType::FalseLit
    } else if word == "null"@ {
        TokenType::NullLit
    } else if word == "number"@ {
        TokenType::NumberIdent
    } else if word == "string"@ {
        TokenType::StringIdent
    } else if word == "char"@ {
        TokenType::CharIdent
    } else if word == "bool"@ {
        TokenType::BoolIdent
    } else if word == "void"@ {
        TokenType::VoidIdent
    } else if word == "array"@ {
        TokenType::ArrayIdent
    } else if word == "any"@ {
        TokenType::AnyIdent
    } else if word == "function"@ {
        TokenType::FuncIdent
    } else {
        TokenType::Ident
    }
}

/// The payload that a word token carries: a truth value, or the type that
/// it names.
pub open spec fn word_payload(token: TokenType) -> Option<Payload> {
    match token {
        TokenType::TrueLit => Some(Payload::Bool { value: true }),
        TokenType::FalseLit => Some(Payload::Bool { value: false }),
        TokenType::NumberIdent => Some(Payload::Type(TypeKind::Number)),
        TokenType::StringIdent => Some(Payload::Type(TypeKind::String)),
        TokenType::CharIdent => Some(Payload::Type(TypeKind::Char)),
        TokenType::BoolIdent => Some(Payload::Type(TypeKind::Bool)),
        TokenType::VoidIdent => Some(Payload::Type(TypeKind::Void)),
        TokenType::ArrayIdent => Some(Payload::Type(TypeKind::Array)),
        TokenType::AnyIdent => Some(Payload::Type(TypeKind::Any)),
        TokenType::FuncIdent => Some(Payload::Type(TypeKind::Func)),
        _ => None,
    }
}

/// The name or keyword that starts at `pos`.
pub open spec fn word_at(src: Seq<char>, pos: int) -> Step {
    let end = word_end(src, pos + 1);
    let token = keyword(src.subrange(pos, end));
    Step::Tok { token, end, value: word_payload(token) }
}

/// The operator or punctuation mark that `c` starts, and its length. The
/// longest mark wins: `next` is the character behind `c`, if there is one.
pub open spec fn mark_of(c: char, next: Option<char>) -> Option<(TokenType, int)> {
    if c == '(' {
        Some((TokenType::LeftParen, 1))
    } else if c == ')' {
        Some((TokenType::RightParen, 1))
    } else if c == '{' {
        Some((TokenType::LeftBrace, 1))
    } else if c == '}' {
        Some((TokenType::RightBrace, 1))
    } else if c == '[' {
        Some((TokenType::LeftBracket, 1))
    } else if c == ']' {
        Some((TokenType::RightBracket, 1))
    } else if c == ',' {
        Some((TokenType::Comma, 1))
    } else if c == ';' {
        Some((TokenType::Semi, 1))
    } else if c == ':' {
        Some((TokenType::Colon, 1))
    } else if c == '.' {
        Some((TokenType::Dot, 1))
    } else if c == '^' {
        Some((TokenType::BitXor, 1))
    } else if c == '+' {
        if next == Some('=') {
            Some((TokenType::PlusEq, 2))
        } else {
            Some((TokenType::Plus, 1))
        }
    } else if c == '-' {
        if next == Some('>') {
            Some((TokenType::Arrow, 2))
        } else if next == Some('=') {
            Some((TokenType::MinusEq, 2))
        } else {
            Some((TokenType::Minus, 1))
        }
    } else if c == '*' {
        if next == Some('=') {
            Some((TokenType::StarEq, 2))
        } else {
            Some((TokenType::Star, 1))
        }
    } else if c == '/' {
        if next == Some('=') {
            Some((TokenType::SlashEq, 2))
        } else {
            Some((TokenType::Slash, 1))
        }
    } else if c == '%' {
        if next == Some('=') {
            Some((TokenType::PercentEq, 2))
        } else {
            Some((TokenType::Percent, 1))
        }
    } else if c == '!' {
        if next == Some('=') {
            Some((TokenType::NotEq, 2))
        } else {
            Some((TokenType::Not, 1))
        }
    } else if c == '=' {
        if next == Some('=') {
            Some((TokenType::Eq, 2))
        } else {
            Some((TokenType::Assign, 1))
        }
    } else if c == '<' {
        if next == Some('=') {
            Some((TokenType::LessOrEq, 2))
        } else if next == Some('<') {
            Some((TokenType::LeftShift, 2))
        } else {
            Some((TokenType::Less, 1))
        }
    } else if c == '>' {
        if next == Some('=') {
            Some((TokenType::GreaterOrEq, 2))
        } else if next == Some('>') {
            Some((TokenType::RightShift, 2))
        } else {
            Some((TokenType::Greater, 1))
        }
    } else if c == '&' {
        if next == Some('&') {
            Some((TokenType::And, 2))
        } else {
            Some((TokenType::BitAnd, 1))
        }
    } else if c == '|' {
        if next == Some('|') {
            Some((TokenType::Or, 2))
        } else {
            Some((TokenType::BitOr, 1))
        }
    } else {
        None
    }
}

/// The character behind `pos`, if there is one.
pub open spec fn peek(src: Seq<char>, pos: int) -> Option<char> {
    if 0 <= pos + 1 < src.len() {
        Some(src[pos + 1])
    } else {
        None
    }
}

/// What stands at `pos`.
///
/// White space is passed over. `//` starts a comment that runs to the end
/// of the line, `/*` one that runs to the next `*/`; comments do not nest.
/// A digit starts a number, a quote a string, an apostrophe a character, a
/// letter or an underscore a name or a keyword. Anything else must be an
/// operator or a punctuation mark.
pub open spec fn step(src: Seq<char>, pos: int) -> Step
    recommends
        0 <= pos < src.len(),
{
    let c = src[pos];
    if is_space(c) {
        Step::Skip { end: pos + 1 }
    } else if c == '/' && peek(src, pos) == Some('/') {
        Step::Skip { end: line_end(src, pos + 2) }
    } else if c == '/' && peek(src, pos) == Some('*') {
        match block_end(src, pos + 2) {
            Some(end) => Step::Skip { end },
            None => Step::Fail { kind: LexErrorKind::UnterminatedComment },
        }
    } else if is_digit(c) {
        number_at(src, pos)
    } else if c == '"' {
        string_at(src, pos)
    } else if c == '\'' {
        char_at(src, pos)
    } else if is_alpha(c) {
        word_at(src, pos)
    } else {
        match mark_of(c, peek(src, pos)) {
            Some((token, len)) => Step::Tok { token, end: pos + len, value: None },
            None => Step::Fail { kind: LexErrorKind::UnexpectedChar },
        }
    }
}

/// Where a step from `pos` leads: behind what stands there.
pub open spec fn step_end(src: Seq<char>, pos: int) -> int {
    match step(src, pos) {
        Step::Skip { end } => end,
        Step::Tok { end, .. } => end,
        Step::Fail { .. } => pos + 1,
    }
}

/// The token that stands at `src[pos..end]` on line `line`.
pub open spec fn token_at(
    src: Seq<char>,
    pos: int,
    end: int,
    line: usize,
    token: TokenType,
    value: Option<Payload>,
) -> Lexed {
    Lexed {
        token,
        lexeme: src.subrange(pos, end),
        line,
        start: pos as usize,
        len: (end - pos) as usize,
        value,
    }
}

/// The line that `end` lies on, if `pos` lies on `line` and the line can
/// still be counted.
pub open spec fn line_at(src: Seq<char>, pos: int, end: int, line: usize) -> Option<usize> {
    if line + newlines(src, pos, end) <= usize::MAX {
        Some((line + newlines(src, pos, end)) as usize)
    } else {
        None
    }
}

/// A run of name characters ends behind its start and within the text.
pub proof fn lemma_word_end(src: Seq<char>, from: int)
    requires
        0 <= from <= src.len(),
    ensures
        from <= word_end(src, from) <= src.len(),
    decreases src.len() - from,
{
    if from < src.len() && is_word(src[from]) {
        lemma_word_end(src, from + 1);
    }
}

/// A run of digits ends behind its start and within the text.
pub proof fn lemma_digits_end(src: Seq<char>, from: int, base: u8)
    requires
        0 <= from <= src.len(),
    ensures
        from <= digits_end(src, from, base) <= src.len(),
    decreases src.len() - from,
{
    if from < src.len() && is_digit_of(src[from], base) {
        lemma_digits_end(src, from + 1, base);
    }
}

/// A line ends behind its start and within the text.
pub proof fn lemma_line_end(src: Seq<char>, from: int)
    requires
        0 <= from <= src.len(),
    ensures
        from <= line_end(src, from) <= src.len(),
    decreases src.len() - from,
{
    if from < src.len() && src[from] != '\n' {
        lemma_line_end(src, from + 1);
    }
}

/// A block comment ends behind its two closing characters and within the
/// text.
pub proof fn lemma_block_end(src: Seq<char>, from: int)
    requires
        0 <= from,
    ensures
        block_end(src, from) matches Some(end) ==> from + 2 <= end <= src.len(),
    decreases src.len() - from,
{
    if from + 1 < src.len() && !(src[from] == '*' && src[from + 1] == '/') {
        lemma_block_end(src, from + 1);
    }
}

/// A string ends behind its closing quote and within the text.
pub proof fn lemma_string_end(src: Seq<char>, from: int, done: Seq<char>)
    requires
        0 <= from,
    ensures
        string_end(src, from, done) matches Ok((end, _)) ==> from < end <= src.len(),
    decreases src.len() - from,
{
    if from < src.len() && src[from] != '"' {
        if src[from] == '\\' {
            if from + 1 < src.len() {
                match escape(src[from + 1]) {
                    Some(c) => {
                        lemma_string_end(src, from + 2, done.push(c));
                    },
                    None => {},
                }
            }
        } else {
            lemma_string_end(src, from + 1, done.push(src[from]));
        }
    }
}

/// Every step leads on, and not beyond the end of the text.
pub proof fn lemma_step_advances(src: Seq<char>, pos: int)
    requires
        0 <= pos < src.len(),
    ensures
        pos < step_end(src, pos) <= src.len(),
{
    if pos + 2 <= src.len() {
        lemma_line_end(src, pos + 2);
    }
    lemma_block_end(src, pos + 2);
    lemma_string_end(src, pos + 1, Seq::empty());
    lemma_word_end(src, pos + 1);
    let base = base_at(src, pos);
    let start = if base == 10 {
        pos
    } else {
        pos + 2
    };
    if is_digit(src[pos]) {
        lemma_digits_end(src, start, base);
        let whole = digits_end(src, start, base);
        if whole + 1 < src.len() {
            lemma_digits_end(src, whole + 1, base);
        }
    }
}

/// The tokens of `src[pos..]`, which starts on line `line`, behind the
/// tokens `done`; or the first flaw.
pub open spec fn lex_from(src: Seq<char>, pos: int, line: usize, done: Seq<Lexed>) -> Result<
    Seq<Lexed>,
    LexError,
>
    decreases src.len() - pos,
{
    if pos < 0 || pos >= src.len() {
        Ok(done)
    } else {
        proof {
            lemma_step_advances(src, pos);
        }
        let end = step_end(src, pos);
        let next = line_at(src, pos, end, line);
        match step(src, pos) {
            Step::Fail { kind } => Err(LexError { kind, line, pos: pos as usize }),
            Step::Skip { .. } => match next {
                Some(l) => lex_from(src, end, l, done),
                None => Err(LexError { kind: LexErrorKind::TooManyLines, line, pos: pos as usize }),
            },
            Step::Tok { token, value, .. } => match next {
                Some(l) => lex_from(
                    src,
                    end,
                    l,
                    done.push(token_at(src, pos, end, line, token, value)),
                ),
                None => Err(LexError { kind: LexErrorKind::TooManyLines, line, pos: pos as usize }),
            },
        }
    }
}

/// The tokens of a source text whose first line is `line`, with the
/// end-of-input marker behind them; or the first flaw.
pub open spec fn lexed(src: Seq<char>, line: usize) -> Result<Seq<Lexed>, LexError> {
    match lex_from(src, 0, line, Seq::empty()) {
        Ok(tokens) => Ok(tokens.push(end_marker(line))),
        Err(e) => Err(e),
    }
}

/// The line breaks of two stretches that meet add up.
pub proof fn lemma_newlines_add(src: Seq<char>, from: int, mid: int, to: int)
    requires
        0 <= from <= mid <= to <= src.len(),
    ensures
        newlines(src, from, to) == newlines(src, from, mid) + newlines(src, mid, to),
    decreases to - mid,
{
    if mid < to {
        lemma_newlines_add(src, from, mid, to - 1);
    }
}

/// A token is sound for a source whose first line is `first`: it is
/// neither a comment nor the end marker, its text is the stretch of the
/// source that it spans, and its line is the first line plus the line
/// breaks in front of it.
pub open spec fn sound(t: Lexed, src: Seq<char>, first: usize) -> bool {
    &&& t.token != TokenType::Comment
    &&& t.token != TokenType::Eof
    &&& t.start + t.len <= src.len()
    &&& t.len > 0
    &&& t.lexeme == src.subrange(t.start as int, t.start + t.len)
    &&& t.line == first + newlines(src, 0, t.start as int)
}

/// Lexing keeps what it has and adds only sound tokens, in the order of
/// the source.
pub proof fn lemma_lex_from_sound(
    src: Seq<char>,
    pos: int,
    line: usize,
    done: Seq<Lexed>,
    first: usize,
)
    requires
        0 <= pos <= src.len() <= usize::MAX,
        line == first + newlines(src, 0, pos),
        forall|i: int| 0 <= i < done.len() ==> sound(#[trigger] done[i], src, first),
    ensures
        lex_from(src, pos, line, done) matches Ok(tokens) ==> {
            &&& done.len() <= tokens.len()
            &&& forall|i: int| 0 <= i < done.len() ==> tokens[i] == done[i]
            &&& forall|i: int| 0 <= i < tokens.len() ==> sound(#[trigger] tokens[i], src, first)
        },
    decreases src.len() - pos,
{
    if pos < src.len() {
        lemma_step_advances(src, pos);
        let end = step_end(src, pos);
        lemma_newlines_add(src, 0, pos, end);
        match (step(src, pos), line_at(src, pos, end, line)) {
            (Step::Skip { .. }, Some(next)) => {
                lemma_lex_from_sound(src, end, next, done, first);
            },
            (Step::Tok { token, value, .. }, Some(next)) => {
                let t = token_at(src, pos, end, line, token, value);
                assert(sound(t, src, first));
                lemma_lex_from_sound(src, end, next, done.push(t), first);
                if lex_from(src, end, next, done.push(t)) is Ok {
                    let tokens = lex_from(src, end, next, done.push(t))->Ok_0;
                    assert forall|i: int| 0 <= i < done.len() implies tokens[i] == done[i] by {
                        assert(done.push(t)[i] == done[i]);
                    }
                }
            },
            _ => {},
        }
    }
}

/// Lexing adds its tokens in the order of the source: each stands behind
/// the one before it, and none in front of `pos`.
pub proof fn lemma_lex_from_ordered(src: Seq<char>, pos: int, line: usize, done: Seq<Lexed>)
    requires
        0 <= pos <= src.len() <= usize::MAX,
        forall|i: int| 0 <= i < done.len() ==> (#[trigger] done[i]).start + done[i].len <= pos,
        forall|i: int, j: int|
            0 <= i < j < done.len() ==> (#[trigger] done[i]).start + done[i].len <= (
            #[trigger] done[j]).start,
    ensures
        lex_from(src, pos, line, done) matches Ok(tokens) ==> forall|i: int, j: int|
            0 <= i < j < tokens.len() ==> (#[trigger] tokens[i]).start + tokens[i].len <= (
            #[trigger] tokens[j]).start,
    decreases src.len() - pos,
{
    if pos < src.len() {
        lemma_step_advances(src, pos);
        let end = step_end(src, pos);
        match (step(src, pos), line_at(src, pos, end, line)) {
            (Step::Skip { .. }, Some(next)) => {
                lemma_lex_from_ordered(src, end, next, done);
            },
            (Step::Tok { token, value, .. }, Some(next)) => {
                let t = token_at(src, pos, end, line, token, value);
                lemma_lex_from_ordered(src, end, next, done.push(t));
            },
            _ => {},
        }
    }
}

/// What the lexer hands out ends in the end-of-input marker, and holds it
/// nowhere else; every token in front of it is sound, and they stand in
/// the order of the source. In particular no comment gives a token, and the
/// tokens behind a comment stand on their true lines.
pub proof fn lemma_lexed(src: Seq<char>, line: usize)
    requires
        src.len() <= usize::MAX,
    ensures
        lexed(src, line) matches Ok(tokens) ==> {
            &&& tokens.len() > 0
            &&& tokens.last() == end_marker(line)
            &&& forall|i: int| 0 <= i < tokens.len() - 1 ==> sound(#[trigger] tokens[i], src, line)
            &&& forall|i: int, j: int|
                0 <= i < j < tokens.len() - 1 ==> (#[trigger] tokens[i]).start + tokens[i].len <= (
                #[trigger] tokens[j]).start
        },
{
    lemma_lex_from_sound(src, 0, line, Seq::empty(), line);
    lemma_lex_from_ordered(src, 0, line, Seq::empty());
}

/// A block comment is passed over: lexing from its start gives what lexing
/// from behind its end gives, on the line that the comment ends on.
pub proof fn lemma_block_comment(src: Seq<char>, pos: int, line: usize, done: Seq<Lexed>)
    requires
        0 <= pos,
        pos + 1 < src.len(),
        src[pos] == '/',
        src[pos + 1] == '*',
        block_end(src, pos + 2) is Some,
        line_at(src, pos, block_end(src, pos + 2)->0, line) is Some,
    ensures
        lex_from(src, pos, line, done) == lex_from(
            src,
            block_end(src, pos + 2)->0,
            line_at(src, pos, block_end(src, pos + 2)->0, line)->0,
            done,
        ),
{
}

/// A line comment is passed over: lexing from its start gives what lexing
/// from the end of the line gives, on the same line.
pub proof fn lemma_line_comment(src: Seq<char>, pos: int, line: usize, done: Seq<Lexed>)
    requires
        0 <= pos,
        pos + 1 < src.len(),
        src[pos] == '/',
        src[pos + 1] == '/',
    ensures
        lex_from(src, pos, line, done) == lex_from(src, line_end(src, pos + 2), line, done),
{
    lemma_line_end(src, pos + 2);
    lemma_line_has_no_break(src, pos + 2);
    let end = line_end(src, pos + 2);
    lemma_newlines_add(src, pos, pos + 2, end);
    assert(newlines(src, pos, pos + 2) == 0) by {
        assert(newlines(src, pos, pos) == 0);
        assert(newlines(src, pos, pos + 1) == 0);
    }
}

/// No line break stands in front of the end of the line.
pub proof fn lemma_line_has_no_break(src: Seq<char>, from: int)
    requires
        0 <= from <= src.len(),
    ensures
        newlines(src, from, line_end(src, from)) == 0,
    decreases src.len() - from,
{
    if from < src.len() && src[from] != '\n' {
        lemma_line_has_no_break(src, from + 1);
        lemma_line_end(src, from + 1);
        lemma_newlines_add(src, from, from + 1, line_end(src, from + 1));
        assert(newlines(src, from, from + 1) == 0) by {
            assert(newlines(src, from, from) == 0);
        }
    }
}

/// What the scanner found at a place.
pub enum Scanned {
    Skip { end: usize },
    Tok { token: TokenType, end: usize, value: Option<LiteralKind> },
    Fail { kind: LexErrorKind },
}

impl View for Scanned {
    type V = Step;

    open spec fn view(&self) -> Step {
        match self {
            Scanned::Skip { end } => Step::Skip { end: *end as int },
            Scanned::Tok { token, end, value } => Step::Tok {
                token: *token,
                end: *end as int,
                value: match value {
                    Some(v) => Some(v@),
                    None => None,
                },
            },
            Scanned::Fail { kind } => Step::Fail { kind: *kind },
        }
    }
}

/// The tokens of a sequence as contracts see them.
pub open spec fn token_views(tokens: Seq<Token>) -> Seq<Lexed> {
    Seq::new(tokens.len(), |i: int| tokens[i]@)
}

/// Whether `c` is white space.
pub fn space(c: char) -> (r: bool)
    ensures
        r == is_space(c),
{
    c == ' ' || c == '\t' || c == '\r' || c == '\n'
}

/// Whether `c` is a decimal digit.
pub fn digit(c: char) -> (r: bool)
    ensures
        r == is_digit(c),
{
    '0' <= c && c <= '9'
}

/// Whether a name can start with `c`.
pub fn alpha(c: char) -> (r: bool)
    ensures
        r == is_alpha(c),
{
    ('a' <= c && c <= 'z') || ('A' <= c && c <= 'Z') || c == '_'
}

/// Whether a name can go on with `c`.
pub fn word(c: char) -> (r: bool)
    ensures
        r == is_word(c),
{
    alpha(c) || digit(c)
}

/// The value of a digit of any of the bases.
pub fn digit_of(c: char) -> (r: Option<u8>)
    ensures
        r == digit_value(c),
{
    if '0' <= c && c <= '9' {
        Some(c as u8 - '0' as u8)
    } else if 'a' <= c && c <= 'f' {
        Some(c as u8 - 'a' as u8 + 10)
    } else if 'A' <= c && c <= 'F' {
        Some(c as u8 - 'A' as u8 + 10)
    } else {
        None
    }
}

/// Whether `c` is a digit in `base`.
pub fn digit_in(c: char, base: u8) -> (r: bool)
    ensures
        r == is_digit_of(c, base),
{
    match digit_of(c) {
        Some(d) => d < base,
        None => false,
    }
}

/// The character that a backslash and `c` stand for.
pub fn unescape(c: char) -> (r: Option<char>)
    ensures
        r == escape(c),
{
    if c == 'n' {
        Some('\n')
    } else if c == 't' {
        Some('\t')
    } else if c == 'r' {
        Some('\r')
    } else if c == '0' {
        Some('\0')
    } else if c == '\\' || c == '"' || c == '\'' {
        Some(c)
    } else {
        None
    }
}

/// How many line breaks `chars[from..to]` holds.
pub fn count_newlines(chars: &Vec<char>, from: usize, to: usize) -> (n: usize)
    requires
        from <= to <= chars@.len(),
    ensures
        n == newlines(chars@, from as int, to as int),
        n <= to - from,
{
    let mut n: usize = 0;
    let mut i: usize = from;
    while i < to
        invariant
            from <= i <= to <= chars@.len(),
            n == newlines(chars@, from as int, i as int),
            n <= i - from,
        decreases to - i,
    {
        if chars[i] == '\n' {
            n = n + 1;
        }
        i = i + 1;
    }
    n
}

fn scan_word(chars: &Vec<char>, from: usize) -> (end: usize)
    requires
        from <= chars@.len(),
    ensures
        end == word_end(chars@, from as int),
        from <= end <= chars@.len(),
{
    let mut i: usize = from;
    while i < chars.len() && word(chars[i])
        invariant
            from <= i <= chars@.len(),
            word_end(chars@, from as int) == word_end(chars@, i as int),
        decreases chars@.len() - i,
    {
        i = i + 1;
    }
    i
}

fn scan_digits(chars: &Vec<char>, from: usize, base: u8) -> (end: usize)
    requires
        from <= chars@.len(),
    ensures
        end == digits_end(chars@, from as int, base),
        from <= end <= chars@.len(),
{
    let mut i: usize = from;
    while i < chars.len() && digit_in(chars[i], base)
        invariant
            from <= i <= chars@.len(),
            digits_end(chars@, from as int, base) == digits_end(chars@, i as int, base),
        decreases chars@.len() - i,
    {
        i = i + 1;
    }
    i
}

fn scan_line(chars: &Vec<char>, from: usize) -> (end: usize)
    requires
        from <= chars@.len(),
    ensures
        end == line_end(chars@, from as int),
        from <= end <= chars@.len(),
{
    let mut i: usize = from;
    while i < chars.len() && chars[i] != '\n'
        invariant
            from <= i <= chars@.len(),
            line_end(chars@, from as int) == line_end(chars@, i as int),
        decreases chars@.len() - i,
    {
        i = i + 1;
    }
    i
}

fn scan_block(chars: &Vec<char>, from: usize) -> (r: Option<usize>)
    requires
        from <= chars@.len(),
    ensures
        match r {
            Some(end) => block_end(chars@, from as int) == Some(end as int) && from + 2 <= end
                <= chars@.len(),
            None => block_end(chars@, from as int) is None,
        },
{
    let n: usize = chars.len();
    let mut i: usize = from;
    while i < n && i + 1 < n
        invariant
            n == chars@.len(),
            from <= i <= chars@.len(),
            block_end(chars@, from as int) == block_end(chars@, i as int),
        decreases chars@.len() - i,
    {
        if chars[i] == '*' && chars[i + 1] == '/' {
            return Some(i + 2);
        }
        i = i + 1;
    }
    None
}

/// The digits `chars[from..to]`, each by its value.
fn read_digits(chars: &Vec<char>, from: usize, to: usize) -> (r: Vec<u8>)
    requires
        from <= to <= chars@.len(),
    ensures
        r@ == digits(chars@, from as int, to as int),
{
    let mut out: Vec<u8> = Vec::new();
    let mut i: usize = from;
    while i < to
        invariant
            from <= i <= to <= chars@.len(),
            out@ == digits(chars@, from as int, i as int),
        decreases to - i,
    {
        let d: u8 = match digit_of(chars[i]) {
            Some(d) => d,
            None => 0,
        };
        out.push(d);
        i = i + 1;
        assert(out@ =~= digits(chars@, from as int, i as int));
    }
    out
}

fn scan_number(chars: &Vec<char>, pos: usize) -> (r: Scanned)
    requires
        pos < chars@.len(),
        is_digit(chars@[pos as int]),
    ensures
        r@ == number_at(chars@, pos as int),
{
    let n: usize = chars.len();
    let mut base: u8 = 10;
    if pos + 1 < n && chars[pos] == '0' {
        if chars[pos + 1] == 'b' {
            base = 2;
        } else if chars[pos + 1] == 'o' {
            base = 8;
        } else if chars[pos + 1] == 'x' {
            base = 16;
        }
    }
    let start: usize = if base == 10 {
        pos
    } else {
        pos + 2
    };
    let whole = scan_digits(chars, start, base);
    let fraction = whole < n && whole + 1 < n && chars[whole] == '.' && digit_in(
        chars[whole + 1],
        base,
    );
    let end: usize = if fraction {
        scan_digits(chars, whole + 1, base)
    } else {
        whole
    };
    if whole == start {
        return Scanned::Fail { kind: LexErrorKind::BadDigit };
    }
    if end < n && word(chars[end]) {
        return Scanned::Fail { kind: LexErrorKind::BadDigit };
    }
    let front = read_digits(chars, start, whole);
    let behind: Vec<u8> = if fraction {
        read_digits(chars, whole + 1, end)
    } else {
        Vec::new()
    };
    Scanned::Tok {
        token: TokenType::NumberLit,
        end,
        value: Some(LiteralKind::Number { base, whole: front, fraction: behind }),
    }
}

fn scan_string(chars: &Vec<char>, pos: usize) -> (r: Scanned)
    requires
        pos < chars@.len(),
    ensures
        r@ == string_at(chars@, pos as int),
{
    let n: usize = chars.len();
    let mut value: Vec<char> = Vec::new();
    let mut i: usize = pos + 1;
    loop
        invariant
            n == chars@.len(),
            pos < i <= chars@.len(),
            string_end(chars@, pos + 1, Seq::empty()) == string_end(chars@, i as int, value@),
        decreases chars@.len() - i,
    {
        if i >= n {
            return Scanned::Fail { kind: LexErrorKind::UnterminatedString };
        }
        let c = chars[i];
        if c == '"' {
            let text = string_of(&value);
            return Scanned::Tok {
                token: TokenType::StringLit,
                end: i + 1,
                value: Some(LiteralKind::String { value: text }),
            };
        }
        if c == '\\' {
            if i + 1 >= n {
                return Scanned::Fail { kind: LexErrorKind::UnterminatedString };
            }
            match unescape(chars[i + 1]) {
                Some(d) => {
                    value.push(d);
                    i = i + 2;
                },
                None => {
                    return Scanned::Fail { kind: LexErrorKind::InvalidEscape };
                },
            }
        } else {
            value.push(c);
            i = i + 1;
        }
    }
}

fn close_char(chars: &Vec<char>, at: usize, value: char) -> (r: Scanned)
    ensures
        r@ == char_close(chars@, at as int, value),
{
    let n: usize = chars.len();
    if at >= n {
        Scanned::Fail { kind: LexErrorKind::UnterminatedChar }
    } else if chars[at] == '\'' {
        Scanned::Tok { token: TokenType::CharLit, end: at + 1, value: Some(LiteralKind::Char { value }) }
    } else {
        Scanned::Fail { kind: LexErrorKind::BadCharLiteral }
    }
}

fn scan_char(chars: &Vec<char>, pos: usize) -> (r: Scanned)
    requires
        pos < chars@.len(),
    ensures
        r@ == char_at(chars@, pos as int),
{
    let n: usize = chars.len();
    if pos + 1 >= n {
        Scanned::Fail { kind: LexErrorKind::UnterminatedChar }
    } else if chars[pos + 1] == '\'' {
        Scanned::Fail { kind: LexErrorKind::BadCharLiteral }
    } else if chars[pos + 1] == '\\' {
        if pos + 2 >= n {
            Scanned::Fail { kind: LexErrorKind::UnterminatedChar }
        } else {
            match unescape(chars[pos + 2]) {
                Some(c) => close_char(chars, pos + 3, c),
                None => Scanned::Fail { kind: LexErrorKind::InvalidEscape },
            }
        }
    } else {
        close_char(chars, pos + 2, chars[pos + 1])
    }
}

/// The keyword that `chars[from..to]` is, or `Ident`.
fn classify(chars: &Vec<char>, from: usize, to: usize) -> (t: TokenType)
    requires
        from <= to <= chars@.len(),
    ensures
        t == keyword(chars@.subrange(from as int, to as int)),
{
    if spells(chars, from, to, "fn") {
        TokenType::Func
    } else if spells(chars, from, to, "var") {
        TokenType::Var
    } else if spells(chars, from, to, "if") {
        TokenType::If
    } else if spells(chars, from, to, "else") {
        TokenType::Else
    } else if spells(chars, from, to, "elif") {
        TokenType::Elif
    } else if spells(chars, from, to, "return") {
        TokenType::Return
    } else if spells(chars, from, to, "while") {
        TokenType::While
    } else if spells(chars, from, to, "loop") {
        TokenType::Loop
    } else if spells(chars, from, to, "break") {
        TokenType::Break
    } else if spells(chars, from, to, "match") {
        TokenType::Match
    } else if spells(chars, from, to, "mod") {
        TokenType::Mod
    } else if spells(chars, from, to, "use") {
        TokenType::Use
    } else if spells(chars, from, to, "as") {
        TokenType::As
    } else if spells(chars, from, to, "from") {
        TokenType::From
    } else if spells(chars, from, to, "struct") {
        TokenType::Struct
    } else if spells(chars, from, to, "impl") {
        TokenType::Impl
    } else if spells(chars, from, to, "enum") {
        TokenType::Enum
    } else if spells(chars, from, to, "async") {
        TokenType::Async
    } else if spells(chars, from, to, "await") {
        TokenType::Await
    } else if spells(chars, from, to, "pub") {
        TokenType::Pub
    } else if spells(chars, from, to, "mut") {
        TokenType::Mut
    } else if spells(chars, from, to, "self") {
        TokenType::SelfKw
    } else if spells(chars, from, to, "true") {
        TokenType::TrueLit
    } else if spells(chars, from, to, "false") {
        TokenType::FalseLit
    } else if spells(chars, from, to, "null") {
        TokenType::NullLit
    } else if spells(chars, from, to, "number") {
        TokenType::NumberIdent
    } else if spells(chars, from, to, "string") {
        TokenType::StringIdent
    } else if spells(chars, from, to, "char") {
        TokenType::CharIdent
    } else if spells(chars, from, to, "bool") {
        TokenType::BoolIdent
    } else if spells(chars, from, to, "void") {
        TokenType::VoidIdent
    } else if spells(chars, from, to, "array") {
        TokenType::ArrayIdent
    } else if spells(chars, from, to, "any") {
        TokenType::AnyIdent
    } else if spells(chars, from, to, "function") {
        TokenType::FuncIdent
    } else {
        TokenType::Ident
    }
}

/// The payload that a word token carries.
fn payload_of(token: TokenType) -> (r: Option<LiteralKind>)
    ensures
        match r {
            Some(v) => word_payload(token) == Some(v@),
            None => word_payload(token) is None,
        },
{
    match token {
        TokenType::TrueLit => Some(LiteralKind::Bool { value: true }),
        TokenType::FalseLit => Some(LiteralKind::Bool { value: false }),
        TokenType::NumberIdent => Some(LiteralKind::Type(TypeKind::Number)),
        TokenType::StringIdent => Some(LiteralKind::Type(TypeKind::String)),
        TokenType::CharIdent => Some(LiteralKind::Type(TypeKind::Char)),
        TokenType::BoolIdent => Some(LiteralKind::Type(TypeKind::Bool)),
        TokenType::VoidIdent => Some(LiteralKind::Type(TypeKind::Void)),
        TokenType::ArrayIdent => Some(LiteralKind::Type(TypeKind::Array)),
        TokenType::AnyIdent => Some(LiteralKind::Type(TypeKind::Any)),
        TokenType::FuncIdent => Some(LiteralKind::Type(TypeKind::Func)),
        _ => None,
    }
}

/// The operator or punctuation mark that `c` starts, and its length.
fn mark(c: char, next: Option<char>) -> (r: Option<(TokenType, usize)>)
    ensures
        match r {
            Some((t, n)) => mark_of(c, next) == Some((t, n as int)),
            None => mark_of(c, next) is None,
        },
{
    let eq = next == Some('=');
    if c == '(' {
        Some((TokenType::LeftParen, 1))
    } else if c == ')' {
        Some((TokenType::RightParen, 1))
    } else if c == '{' {
        Some((TokenType::LeftBrace, 1))
    } else if c == '}' {
        Some((TokenType::RightBrace, 1))
    } else if c == '[' {
        Some((TokenType::LeftBracket, 1))
    } else if c == ']' {
        Some((TokenType::RightBracket, 1))
    } else if c == ',' {
        Some((TokenType::Comma, 1))
    } else if c == ';' {
        Some((TokenType::Semi, 1))
    } else if c == ':' {
        Some((TokenType::Colon, 1))
    } else if c == '.' {
        Some((TokenType::Dot, 1))
    } else if c == '^' {
        Some((TokenType::BitXor, 1))
    } else if c == '+' {
        if eq {
            Some((TokenType::PlusEq, 2))
        } else {
            Some((TokenType::Plus, 1))
        }
    } else if c == '-' {
        if next == Some('>') {
            Some((TokenType::Arrow, 2))
        } else if eq {
            Some((TokenType::MinusEq, 2))
        } else {
            Some((TokenType::Minus, 1))
        }
    } else if c == '*' {
        if eq {
            Some((TokenType::StarEq, 2))
        } else {
            Some((TokenType::Star, 1))
        }
    } else if c == '/' {
        if eq {
            Some((TokenType::SlashEq, 2))
        } else {
            Some((TokenType::Slash, 1))
        }
    } else if c == '%' {
        if eq {
            Some((TokenType::PercentEq, 2))
        } else {
            Some((TokenType::Percent, 1))
        }
    } else if c == '!' {
        if eq {
            Some((TokenType::NotEq, 2))
        } else {
            Some((TokenType::Not, 1))
        }
    } else if c == '=' {
        if eq {
            Some((TokenType::Eq, 2))
        } else {
            Some((TokenType::Assign, 1))
        }
    } else if c == '<' {
        if eq {
            Some((TokenType::LessOrEq, 2))
        } else if next == Some('<') {
            Some((TokenType::LeftShift, 2))
        } else {
            Some((TokenType::Less, 1))
        }
    } else if c == '>' {
        if eq {
            Some((TokenType::GreaterOrEq, 2))
        } else if next == Some('>') {
            Some((TokenType::RightShift, 2))
        } else {
            Some((TokenType::Greater, 1))
        }
    } else if c == '&' {
        if next == Some('&') {
            Some((TokenType::And, 2))
        } else {
            Some((TokenType::BitAnd, 1))
        }
    } else if c == '|' {
        if next == Some('|') {
            Some((TokenType::Or, 2))
        } else {
            Some((TokenType::BitOr, 1))
        }
    } else {
        None
    }
}

/// What stands at `pos`.
pub fn scan(chars: &Vec<char>, pos: usize) -> (r: Scanned)
    requires
        pos < chars@.len(),
    ensures
        r@ == step(chars@, pos as int),
{
    let n: usize = chars.len();
    let c = chars[pos];
    let next: Option<char> = if pos + 1 < n {
        Some(chars[pos + 1])
    } else {
        None
    };
    if space(c) {
        Scanned::Skip { end: pos + 1 }
    } else if c == '/' && next == Some('/') {
        Scanned::Skip { end: scan_line(chars, pos + 2) }
    } else if c == '/' && next == Some('*') {
        match scan_block(chars, pos + 2) {
            Some(end) => Scanned::Skip { end },
            None => Scanned::Fail { kind: LexErrorKind::UnterminatedComment },
        }
    } else if digit(c) {
        scan_number(chars, pos)
    } else if c == '"' {
        scan_string(chars, pos)
    } else if c == '\'' {
        scan_char(chars, pos)
    } else if alpha(c) {
        let end = scan_word(chars, pos + 1);
        let token = classify(chars, pos, end);
        Scanned::Tok { token, end, value: payload_of(token) }
    } else {
        match mark(c, next) {
            Some((token, len)) => Scanned::Tok { token, end: pos + len, value: None },
            None => Scanned::Fail { kind: LexErrorKind::UnexpectedChar },
        }
    }
}

/// The tokens of the source text `src`, whose first line is `line`, with
/// the end-of-input marker behind them; or the first flaw.
pub fn lex(src: &str, line: usize) -> (r: Result<Vec<Token>, LexError>)
    ensures
        match r {
            Ok(tokens) => lexed(src@, line) == Ok::<Seq<Lexed>, LexError>(token_views(tokens@)),
            Err(e) => lexed(src@, line) == Err::<Seq<Lexed>, LexError>(e),
        },
{
    let chars = chars_of(src);
    let mut tokens: Vec<Token> = Vec::new();
    let mut pos: usize = 0;
    let mut at: usize = line;
    assert(token_views(tokens@) =~= Seq::<Lexed>::empty());
    while pos < chars.len()
        invariant
            chars@ == src@,
            pos <= chars@.len(),
            lex_from(src@, 0, line, Seq::empty()) == lex_from(
                src@,
                pos as int,
                at,
                token_views(tokens@),
            ),
        decreases chars@.len() - pos,
    {
        proof {
            lemma_step_advances(chars@, pos as int);
        }
        match scan(&chars, pos) {
            Scanned::Skip { end } => {
                match at.checked_add(count_newlines(&chars, pos, end)) {
                    Some(next) => {
                        at = next;
                    },
                    None => {
                        return Err(LexError { kind: LexErrorKind::TooManyLines, line: at, pos });
                    },
                }
                pos = end;
            },
            Scanned::Tok { token, end, value } => {
                let ghost before = token_views(tokens@);
                let next = match at.checked_add(count_newlines(&chars, pos, end)) {
                    Some(next) => next,
                    None => {
                        return Err(LexError { kind: LexErrorKind::TooManyLines, line: at, pos });
                    },
                };
                let t = Token {
                    token,
                    lexeme: slice_string(&chars, pos, end),
                    line: at,
                    start: pos,
                    len: end - pos,
                    value,
                };
                assert(t@ == token_at(src@, pos as int, end as int, at, token, t@.value));
                tokens.push(t);
                assert(token_views(tokens@) =~= before.push(t@));
                at = next;
                pos = end;
            },
            Scanned::Fail { kind } => {
                return Err(LexError { kind, line: at, pos });
            },
        }
    }
    let ghost before = token_views(tokens@);
    let marker = Token::eof(line);
    tokens.push(marker);
    assert(token_views(tokens@) =~= before.push(end_marker(line)));
    Ok(tokens)
}

} // verus!
