use vstd::prelude::*;

use crate::text::{chars_eq, chars_to_string, str_to_chars, str_to_string, sub_chars};
use crate::token::{literal_opt_view, tokens_view, LexError, Literal, LiteralView, Token, TokenType, TokenView};

verus! {

// ---------------------------------------------------------------------------
// The lexical grammar, as spec functions over the source characters.
// ---------------------------------------------------------------------------

pub open spec fn is_digit(c: char) -> bool {
    '0' <= c && c <= '9'
}

pub open spec fn is_alpha(c: char) -> bool {
    ('a' <= c && c <= 'z') || ('A' <= c && c <= 'Z') || c == '_'
}

pub open spec fn is_alphanumeric(c: char) -> bool {
    is_alpha(c) || is_digit(c)
}

/// The keyword that a word spells, if any.
pub open spec fn keyword(text: Seq<char>) -> Option<TokenType> {
    if text == seq!['a', 'n', 'd'] {
        Some(TokenType::And)
    } else if text == seq!['c', 'l', 'a', 's', 's'] {
        Some(TokenType::Class)
    } else if text == seq!['e', 'l', 's', 'e'] {
        Some(TokenType::Else)
    } else if text == seq!['f', 'a', 'l', 's', 'e'] {
        Some(TokenType::False)
    } else if text == seq!['f', 'o', 'r'] {
        Some(TokenType::For)
    } else if text == seq!['f', 'u', 'n'] {
        Some(TokenType::Fun)
    } else if text == seq!['i', 'f'] {
        Some(TokenType::If)
    } else if text == seq!['n', 'i', 'l'] {
        Some(TokenType::Nil)
    } else if text == seq!['o', 'r'] {
        Some(TokenType::Or)
    } else if text == seq!['p', 'r', 'i', 'n', 't'] {
        Some(TokenType::Print)
    } else if text == seq!['r', 'e', 't', 'u', 'r', 'n'] {
        Some(TokenType::Return)
    } else if text == seq!['s', 'u', 'p', 'e', 'r'] {
        Some(TokenType::Super)
    } else if text == seq!['t', 'h', 'i', 's'] {
        Some(TokenType::This)
    } else if text == seq!['t', 'r', 'u', 'e'] {
        Some(TokenType::True)
    } else if text == seq!['v', 'a', 'r'] {
        Some(TokenType::Var)
    } else if text == seq!['w', 'h', 'i', 'l', 'e'] {
        Some(TokenType::While)
    } else {
        None
    }
}

/// The first index at or after `j` that does not hold a digit.
pub open spec fn digits_end(src: Seq<char>, j: int) -> int
    decreases src.len() - j,
{
    if 0 <= j < src.len() && is_digit(src[j]) {
        digits_end(src, j + 1)
    } else {
        j
    }
}

/// The end of a number literal that starts at `start` (which holds a digit):
/// digits, then optionally a dot followed by at least one digit and more digits.
pub open spec fn number_end(src: Seq<char>, start: int) -> int {
    let j = digits_end(src, start + 1);
    if 0 <= j && j + 1 < src.len() && src[j] == '.' && is_digit(src[j + 1]) {
        digits_end(src, j + 1)
    } else {
        j
    }
}

/// The first index at or after `j` that does not hold a letter, digit or `_`.
pub open spec fn ident_end(src: Seq<char>, j: int) -> int
    decreases src.len() - j,
{
    if 0 <= j < src.len() && is_alphanumeric(src[j]) {
        ident_end(src, j + 1)
    } else {
        j
    }
}

/// The first index at or after `j` that holds a newline, or the end.
pub open spec fn line_end(src: Seq<char>, j: int) -> int
    decreases src.len() - j,
{
    if 0 <= j < src.len() && src[j] != '\n' {
        line_end(src, j + 1)
    } else {
        j
    }
}

/// The first index at or after `j` that starts `*/`, or the end.
pub open spec fn block_end(src: Seq<char>, j: int) -> int
    decreases src.len() - j,
{
    if 0 <= j < src.len() && !(src[j] == '*' && j + 1 < src.len() && src[j + 1] == '/') {
        block_end(src, j + 1)
    } else {
        j
    }
}

/// The first index at or after `j` that holds a double quote, or the end.
pub open spec fn string_end(src: Seq<char>, j: int) -> int
    decreases src.len() - j,
{
    if 0 <= j < src.len() && src[j] != '"' {
        string_end(src, j + 1)
    } else {
        j
    }
}

/// The number of newlines among the characters from `a` to `b`.
pub open spec fn newlines(src: Seq<char>, a: int, b: int) -> int
    decreases b - a,
{
    if b <= a {
        0
    } else {
        newlines(src, a, b - 1) + if src[b - 1] == '\n' {
            1int
        } else {
            0int
        }
    }
}

/// The model of a [`LexError`].
pub struct LexErrorView {
    pub line: nat,
    pub message: Seq<char>,
}

pub open spec fn lex_error_view(e: LexError) -> LexErrorView {
    LexErrorView { line: e.line as nat, message: e.message@ }
}

pub open spec fn lex_errors_view(es: Seq<LexError>) -> Seq<LexErrorView> {
    es.map_values(|e: LexError| lex_error_view(e))
}

/// What scanning from one position does: where it continues, on which line,
/// and the token or the error it produces, if any.
pub struct ScanStep {
    pub next: int,
    pub line: int,
    pub token: Option<TokenView>,
    pub error: Option<LexErrorView>,
}

pub open spec fn token_view(tt: TokenType, lexeme: Seq<char>, literal: Option<LiteralView>, line: int) -> TokenView {
    TokenView { token_type: tt, lexeme, literal, line: line as nat }
}

pub open spec fn emit(src: Seq<char>, s: int, next: int, line: int, tt: TokenType) -> ScanStep {
    ScanStep {
        next,
        line,
        token: Some(token_view(tt, src.subrange(s, next), None, line)),
        error: None,
    }
}

pub open spec fn skip(next: int, line: int) -> ScanStep {
    ScanStep { next, line, token: None, error: None }
}

pub open spec fn fail(next: int, line: int, message: Seq<char>) -> ScanStep {
    ScanStep { next, line, token: None, error: Some(LexErrorView { line: line as nat, message }) }
}

/// A one- or two-character operator: `tt2` when the next character is `=`.
pub open spec fn with_equal(src: Seq<char>, s: int, line: int, tt2: TokenType, tt1: TokenType) -> ScanStep {
    if s + 1 < src.len() && src[s + 1] == '=' {
        emit(src, s, s + 2, line, tt2)
    } else {
        emit(src, s, s + 1, line, tt1)
    }
}

pub open spec fn single_char_type(c: char) -> Option<TokenType> {
    if c == '(' {
        Some(TokenType::LeftParen)
    } else if c == ')' {
        Some(TokenType::RightParen)
    } else if c == '{' {
        Some(TokenType::LeftBrace)
    } else if c == '}' {
        Some(TokenType::RightBrace)
    } else if c == ',' {
        Some(TokenType::Comma)
    } else if c == '.' {
        Some(TokenType::Dot)
    } else if c == '-' {
        Some(TokenType::Minus)
    } else if c == '+' {
        Some(TokenType::Plus)
    } else if c == ';' {
        Some(TokenType::Semicolon)
    } else if c == '*' {
        Some(TokenType::Star)
    } else if c == '?' {
        Some(TokenType::Question)
    } else if c == ':' {
        Some(TokenType::Colon)
    } else {
        None
    }
}

pub open spec fn slash_step(src: Seq<char>, s: int, line: int) -> ScanStep {
    if s + 1 < src.len() && src[s + 1] == '/' {
        skip(line_end(src, s + 2), line)
    } else if s + 1 < src.len() && src[s + 1] == '*' {
        let e = block_end(src, s + 2);
        let l2 = line + newlines(src, s + 2, e);
        if e >= src.len() {
            fail(e, l2, "Unterminated block comment."@)
        } else {
            skip(e + 2, l2)
        }
    } else {
        emit(src, s, s + 1, line, TokenType::Slash)
    }
}

pub open spec fn string_step(src: Seq<char>, s: int, line: int) -> ScanStep {
    let e = string_end(src, s + 1);
    let l2 = line + newlines(src, s + 1, e);
    if e >= src.len() {
        fail(e, l2, "Unterminated string."@)
    } else {
        ScanStep {
            next: e + 1,
            line: l2,
            token: Some(
                token_view(
                    TokenType::String,
                    src.subrange(s, e + 1),
                    Some(LiteralView::String(src.subrange(s + 1, e))),
                    l2,
                ),
            ),
            error: None,
        }
    }
}

pub open spec fn number_step(src: Seq<char>, s: int, line: int) -> ScanStep {
    let e = number_end(src, s);
    ScanStep {
        next: e,
        line,
        token: Some(
            token_view(TokenType::Number, src.subrange(s, e), Some(LiteralView::Number(src.subrange(s, e))), line),
        ),
        error: None,
    }
}

pub open spec fn identifier_step(src: Seq<char>, s: int, line: int) -> ScanStep {
    let e = ident_end(src, s + 1);
    let text = src.subrange(s, e);
    let tt = match keyword(text) {
        Some(k) => k,
        None => TokenType::Identifier,
    };
    emit(src, s, e, line, tt)
}

/// Scanning the lexeme that starts at `s` (which is inside the source).
pub open spec fn scan_one(src: Seq<char>, s: int, line: int) -> ScanStep {
    let c = src[s];
    if single_char_type(c) is Some {
        emit(src, s, s + 1, line, single_char_type(c)->0)
    } else if c == '!' {
        with_equal(src, s, line, TokenType::BangEqual, TokenType::Bang)
    } else if c == '=' {
        with_equal(src, s, line, TokenType::EqualEqual, TokenType::Equal)
    } else if c == '<' {
        with_equal(src, s, line, TokenType::LessEqual, TokenType::Less)
    } else if c == '>' {
        with_equal(src, s, line, TokenType::GreaterEqual, TokenType::Greater)
    } else if c == '/' {
        slash_step(src, s, line)
    } else if c == ' ' || c == '\r' || c == '\t' {
        skip(s + 1, line)
    } else if c == '\n' {
        skip(s + 1, line + 1)
    } else if c == '"' {
        string_step(src, s, line)
    } else if is_digit(c) {
        number_step(src, s, line)
    } else if is_alpha(c) {
        identifier_step(src, s, line)
    } else {
        fail(s + 1, line, "Unexpected character."@)
    }
}

pub proof fn lemma_digits_end(src: Seq<char>, j: int)
    requires
        0 <= j <= src.len(),
    ensures
        j <= digits_end(src, j) <= src.len(),
        forall|k: int| j <= k < digits_end(src, j) ==> is_digit(#[trigger] src[k]),
    decreases src.len() - j,
{
    if j < src.len() && is_digit(src[j]) {
        lemma_digits_end(src, j + 1);
    }
}

pub proof fn lemma_ident_end(src: Seq<char>, j: int)
    requires
        0 <= j <= src.len(),
    ensures
        j <= ident_end(src, j) <= src.len(),
        forall|k: int| j <= k < ident_end(src, j) ==> is_alphanumeric(#[trigger] src[k]),
    decreases src.len() - j,
{
    if j < src.len() && is_alphanumeric(src[j]) {
        lemma_ident_end(src, j + 1);
    }
}

pub proof fn lemma_line_end(src: Seq<char>, j: int)
    requires
        0 <= j <= src.len(),
    ensures
        j <= line_end(src, j) <= src.len(),
        forall|k: int| j <= k < line_end(src, j) ==> #[trigger] src[k] != '\n',
    decreases src.len() - j,
{
    if j < src.len() && src[j] != '\n' {
        lemma_line_end(src, j + 1);
    }
}

pub proof fn lemma_block_end(src: Seq<char>, j: int)
    requires
        0 <= j <= src.len(),
    ensures
        j <= block_end(src, j) <= src.len(),
        block_end(src, j) < src.len() ==> block_end(src, j) + 1 < src.len() && src[block_end(src, j)] == '*'
            && src[block_end(src, j) + 1] == '/',
    decreases src.len() - j,
{
    if j < src.len() && !(src[j] == '*' && j + 1 < src.len() && src[j + 1] == '/') {
        lemma_block_end(src, j + 1);
    }
}

pub proof fn lemma_string_end(src: Seq<char>, j: int)
    requires
        0 <= j <= src.len(),
    ensures
        j <= string_end(src, j) <= src.len(),
        string_end(src, j) < src.len() ==> src[string_end(src, j)] == '"',
    decreases src.len() - j,
{
    if j < src.len() && src[j] != '"' {
        lemma_string_end(src, j + 1);
    }
}

pub proof fn lemma_newlines_bound(src: Seq<char>, a: int, b: int)
    requires
        a <= b,
    ensures
        0 <= newlines(src, a, b) <= b - a,
    decreases b - a,
{
    if a < b {
        lemma_newlines_bound(src, a, b - 1);
    }
}

/// Counting the newlines of a stretch in two parts.
pub proof fn lemma_newlines_split(src: Seq<char>, a: int, b: int, c: int)
    requires
        a <= b <= c,
    ensures
        newlines(src, a, c) == newlines(src, a, b) + newlines(src, b, c),
    decreases c - b,
{
    if b < c {
        lemma_newlines_split(src, a, b, c - 1);
    }
}

/// A stretch without a newline character counts none.
pub proof fn lemma_no_newlines(src: Seq<char>, a: int, b: int)
    requires
        a <= b,
        forall|k: int| a <= k < b ==> #[trigger] src[k] != '\n',
    ensures
        newlines(src, a, b) == 0,
    decreases b - a,
{
    if a < b {
        lemma_no_newlines(src, a, b - 1);
    }
}

/// Every step of the scanner moves forward, stays inside the source, and adds
/// no more lines than characters it consumed.
pub proof fn lemma_scan_one(src: Seq<char>, s: int, line: int)
    requires
        0 <= s < src.len(),
    ensures
        s < scan_one(src, s, line).next <= src.len(),
        line <= scan_one(src, s, line).line <= line + (scan_one(src, s, line).next - s),
{
    lemma_digits_end(src, s + 1);
    lemma_ident_end(src, s + 1);
    lemma_line_end(src, if s + 2 <= src.len() { s + 2 } else { src.len() as int });
    if s + 2 <= src.len() {
        lemma_block_end(src, s + 2);
        lemma_newlines_bound(src, s + 2, block_end(src, s + 2));
    }
    lemma_string_end(src, s + 1);
    lemma_newlines_bound(src, s + 1, string_end(src, s + 1));
    let j = digits_end(src, s + 1);
    if 0 <= j && j + 1 < src.len() && src[j] == '.' && is_digit(src[j + 1]) {
        lemma_digits_end(src, j + 1);
    }
}

/// The tokens and errors found from position `s` on, and the line reached.
pub open spec fn scan_from(src: Seq<char>, s: int, line: int) -> (Seq<TokenView>, Seq<LexErrorView>, int)
    decreases src.len() - s,
{
    if s < 0 || s >= src.len() {
        (Seq::empty(), Seq::empty(), line)
    } else {
        let st = scan_one(src, s, line);
        proof {
            lemma_scan_one(src, s, line);
        }
        let rest = scan_from(src, st.next, st.line);
        (
            match st.token {
                Some(t) => seq![t] + rest.0,
                None => rest.0,
            },
            match st.error {
                Some(e) => seq![e] + rest.1,
                None => rest.1,
            },
            rest.2,
        )
    }
}

proof fn lemma_scan_one_not_eof(src: Seq<char>, s: int, line: int)
    requires
        0 <= s < src.len(),
    ensures
        scan_one(src, s, line).token matches Some(t) ==> t.token_type != TokenType::Eof,
{
    let c = src[s];
    if is_alpha(c) && !is_digit(c) {
        let e = ident_end(src, s + 1);
        let text = src.subrange(s, e);
        assert(keyword(text) != Some(TokenType::Eof));
    }
}

proof fn lemma_scan_from_facts(src: Seq<char>, s: int, line: int)
    requires
        0 <= s,
    ensures
        scan_from(src, s, line).0.len() <= if s < src.len() { src.len() - s } else { 0 },
        forall|k: int|
            0 <= k < scan_from(src, s, line).0.len() ==> (#[trigger] scan_from(src, s, line).0[k]).token_type
                != TokenType::Eof,
    decreases src.len() - s,
{
    if s < src.len() {
        let st = scan_one(src, s, line);
        lemma_scan_one(src, s, line);
        lemma_scan_one_not_eof(src, s, line);
        lemma_scan_from_facts(src, st.next, st.line);
        let rest = scan_from(src, st.next, st.line);
        match st.token {
            Some(t) => {
                let all = seq![t] + rest.0;
                assert forall|k: int| 0 <= k < all.len() implies (#[trigger] all[k]).token_type != TokenType::Eof by {
                    if k > 0 {
                        assert(all[k] == rest.0[k - 1]);
                    }
                }
            },
            None => {},
        }
    }
}

/// Scanning a source text gives at most one token per character, then the
/// end-of-file token; the end-of-file token comes last and nowhere else.
pub proof fn law_tokens_end_with_eof(src: Seq<char>)
    ensures
        scan_source(src).len() <= src.len() + 1,
        scan_source(src).last().token_type == TokenType::Eof,
        forall|k: int| 0 <= k < scan_source(src).len() - 1 ==> (#[trigger] scan_source(src)[k]).token_type != TokenType::Eof,
{
    lemma_scan_from_facts(src, 0, 1);
    let r = scan_from(src, 0, 1);
    assert forall|k: int| 0 <= k < scan_source(src).len() - 1 implies (#[trigger] scan_source(src)[k]).token_type
        != TokenType::Eof by {
        assert(scan_source(src)[k] == r.0[k]);
    }
}

proof fn lemma_scan_one_line(src: Seq<char>, s: int, line: int)
    requires
        0 <= s < src.len(),
        0 <= line,
    ensures
        scan_one(src, s, line).token matches Some(t) ==> t.line == scan_one(src, s, line).line,
{
    lemma_scan_one(src, s, line);
}

proof fn lemma_scan_from_lines(src: Seq<char>, s: int, line: int)
    requires
        0 <= s,
        1 <= line,
    ensures
        scan_from(src, s, line).2 >= line,
        forall|k: int|
            0 <= k < scan_from(src, s, line).0.len() ==> line <= (#[trigger] scan_from(src, s, line).0[k]).line
                <= scan_from(src, s, line).2,
        forall|i: int, j: int|
            0 <= i <= j < scan_from(src, s, line).0.len() ==> (#[trigger] scan_from(src, s, line).0[i]).line
                <= (#[trigger] scan_from(src, s, line).0[j]).line,
    decreases src.len() - s,
{
    if s < src.len() {
        let st = scan_one(src, s, line);
        lemma_scan_one(src, s, line);
        lemma_scan_one_line(src, s, line);
        lemma_scan_from_lines(src, st.next, st.line);
        let rest = scan_from(src, st.next, st.line);
        if let Some(t) = st.token {
            let all = seq![t] + rest.0;
            assert forall|k: int| 0 <= k < all.len() implies line <= (#[trigger] all[k]).line <= rest.2 by {
                if k > 0 {
                    assert(all[k] == rest.0[k - 1]);
                }
            }
            assert forall|i: int, j: int| 0 <= i <= j < all.len() implies (#[trigger] all[i]).line
                <= (#[trigger] all[j]).line by {
                if i > 0 {
                    assert(all[i] == rest.0[i - 1]);
                }
                if j > 0 {
                    assert(all[j] == rest.0[j - 1]);
                }
            }
        }
    }
}

/// The tokens of a source text come in the order of their lines: no token
/// is on an earlier line than one before it, every line is at least 1, and
/// the end-of-file token is on the last line.
pub proof fn law_token_lines_ordered(src: Seq<char>)
    ensures
        forall|i: int, j: int|
            0 <= i <= j < scan_source(src).len() ==> (#[trigger] scan_source(src)[i]).line
                <= (#[trigger] scan_source(src)[j]).line,
        forall|k: int| 0 <= k < scan_source(src).len() ==> 1 <= (#[trigger] scan_source(src)[k]).line,
{
    lemma_scan_from_lines(src, 0, 1);
    let r = scan_from(src, 0, 1);
    let all = scan_source(src);
    assert forall|k: int| 0 <= k < all.len() implies 1 <= (#[trigger] all[k]).line <= r.2 by {
        if k < r.0.len() {
            assert(all[k] == r.0[k]);
        }
    }
    assert forall|i: int, j: int| 0 <= i <= j < all.len() implies (#[trigger] all[i]).line
        <= (#[trigger] all[j]).line by {
        if j < r.0.len() {
            assert(all[i] == r.0[i]);
            assert(all[j] == r.0[j]);
        } else {
            assert(all[all.len() - 1] == eof_token(r.2));
            assert(1 <= all[i].line <= r.2);
        }
    }
}

/// One step of the scanner moves the line on by the newlines among the
/// characters it consumed.
proof fn lemma_scan_one_newlines(src: Seq<char>, s: int, line: int)
    requires
        0 <= s < src.len(),
    ensures
        scan_one(src, s, line).line == line + newlines(src, s, scan_one(src, s, line).next),
{
    lemma_scan_one(src, s, line);
    let c = src[s];
    let st = scan_one(src, s, line);
    assert(newlines(src, s, s) == 0);
    assert(newlines(src, s, s + 1) == if c == '\n' { 1int } else { 0int });
    if single_char_type(c) is Some || c == ' ' || c == '\r' || c == '\t' || c == '\n' {
    } else if c == '!' || c == '=' || c == '<' || c == '>' {
        if st.next == s + 2 {
            lemma_newlines_split(src, s, s + 1, s + 2);
        }
    } else if c == '/' {
        if s + 1 < src.len() && src[s + 1] == '/' {
            lemma_line_end(src, s + 2);
            assert forall|k: int| s <= k < st.next implies #[trigger] src[k] != '\n' by {}
            lemma_no_newlines(src, s, st.next);
        } else if s + 1 < src.len() && src[s + 1] == '*' {
            let e = block_end(src, s + 2);
            lemma_block_end(src, s + 2);
            lemma_no_newlines(src, s, s + 2);
            lemma_newlines_split(src, s, s + 2, e);
            if e < src.len() {
                lemma_no_newlines(src, e, e + 2);
                lemma_newlines_split(src, s, e, e + 2);
            }
        }
    } else if c == '"' {
        let e = string_end(src, s + 1);
        lemma_string_end(src, s + 1);
        lemma_newlines_split(src, s, s + 1, e);
        if e < src.len() {
            lemma_newlines_split(src, s, e, e + 1);
        }
    } else if is_digit(c) {
        lemma_digits_end(src, s + 1);
        let j = digits_end(src, s + 1);
        if 0 <= j && j + 1 < src.len() && src[j] == '.' && is_digit(src[j + 1]) {
            lemma_digits_end(src, j + 1);
        }
        assert forall|k: int| s <= k < st.next implies #[trigger] src[k] != '\n' by {
            if k >= j + 1 {
                assert(is_digit(src[k]));
            }
        }
        lemma_no_newlines(src, s, st.next);
    } else if is_alpha(c) {
        lemma_ident_end(src, s + 1);
        assert forall|k: int| s <= k < st.next implies #[trigger] src[k] != '\n' by {
            if k > s {
                assert(is_alphanumeric(src[k]));
            }
        }
        lemma_no_newlines(src, s, st.next);
    }
}

proof fn lemma_scan_from_newlines(src: Seq<char>, s: int, line: int)
    requires
        0 <= s <= src.len(),
        0 <= line,
    ensures
        scan_from(src, s, line).2 == line + newlines(src, s, src.len() as int),
        forall|k: int|
            0 <= k < scan_from(src, s, line).1.len() ==> line <= (#[trigger] scan_from(src, s, line).1[k]).line
                <= scan_from(src, s, line).2,
    decreases src.len() - s,
{
    if s < src.len() {
        let st = scan_one(src, s, line);
        lemma_scan_one(src, s, line);
        lemma_scan_one_newlines(src, s, line);
        lemma_scan_from_newlines(src, st.next, st.line);
        lemma_newlines_split(src, s, st.next, src.len() as int);
        lemma_newlines_bound(src, st.next, src.len() as int);
        let rest = scan_from(src, st.next, st.line);
        if let Some(e) = st.error {
            let all = seq![e] + rest.1;
            assert forall|k: int| 0 <= k < all.len() implies line <= (#[trigger] all[k]).line <= rest.2 by {
                if k > 0 {
                    assert(all[k] == rest.1[k - 1]);
                }
            }
        }
    }
}

/// The end-of-file token of a source text is on line 1 plus the number of
/// newline characters in it, and every error is reported on a line from 1 up
/// to that one.
pub proof fn law_eof_line_counts_newlines(src: Seq<char>)
    ensures
        scan_source(src).last().line == 1 + newlines(src, 0, src.len() as int),
        forall|k: int|
            0 <= k < scan_source_errors(src).len() ==> 1 <= (#[trigger] scan_source_errors(src)[k]).line <= 1
                + newlines(src, 0, src.len() as int),
{
    lemma_scan_from_newlines(src, 0, 1);
    lemma_newlines_bound(src, 0, src.len() as int);
}

proof fn lemma_ident_end_whole(src: Seq<char>, j: int)
    requires
        0 <= j <= src.len(),
        forall|k: int| j <= k < src.len() ==> is_alphanumeric(#[trigger] src[k]),
    ensures
        ident_end(src, j) == src.len(),
    decreases src.len() - j,
{
    if j < src.len() {
        lemma_ident_end_whole(src, j + 1);
    }
}

/// A word is one token: a source text made of a letter or `_` followed by
/// letters, digits and `_` scans to a single identifier or keyword token
/// whose lexeme is the whole text, on line 1, then the end-of-file token.
pub proof fn law_word_is_one_token(src: Seq<char>)
    requires
        src.len() >= 1,
        ('a' <= src[0] <= 'z') || ('A' <= src[0] <= 'Z') || src[0] == '_',
        forall|k: int|
            1 <= k < src.len() ==> ('a' <= #[trigger] src[k] <= 'z') || ('A' <= src[k] <= 'Z') || src[k] == '_' || (
            '0' <= src[k] <= '9'),
    ensures
        scan_source(src).len() == 2,
        scan_source(src)[0].lexeme == src,
        scan_source(src)[0].token_type == TokenType::Identifier || keyword(src) == Some(
            scan_source(src)[0].token_type,
        ),
        scan_source(src)[0].line == 1,
        scan_source(src)[0].literal is None,
        scan_source(src)[1] == eof_token(1),
{
    assert forall|k: int| 1 <= k < src.len() implies is_alphanumeric(#[trigger] src[k]) by {}
    lemma_ident_end_whole(src, 1);
    let st = scan_one(src, 0, 1);
    assert(src.subrange(0, src.len() as int) =~= src);
    assert(st.next == src.len());
    assert(scan_from(src, st.next, st.line).0 =~= Seq::<TokenView>::empty());
}

proof fn lemma_digits_end_whole(src: Seq<char>, j: int)
    requires
        0 <= j <= src.len(),
        forall|k: int| j <= k < src.len() ==> is_digit(#[trigger] src[k]),
    ensures
        digits_end(src, j) == src.len(),
    decreases src.len() - j,
{
    if j < src.len() {
        lemma_digits_end_whole(src, j + 1);
    }
}

/// A run of digits is one number token: a source text made only of the
/// digits 0 to 9 scans to a single number token whose lexeme and literal are
/// the whole text, on line 1, then the end-of-file token.
pub proof fn law_digits_are_one_number(src: Seq<char>)
    requires
        src.len() >= 1,
        forall|k: int| 0 <= k < src.len() ==> '0' <= #[trigger] src[k] <= '9',
    ensures
        scan_source(src).len() == 2,
        scan_source(src)[0].token_type == TokenType::Number,
        scan_source(src)[0].lexeme == src,
        scan_source(src)[0].literal == Some(LiteralView::Number(src)),
        scan_source(src)[0].line == 1,
        scan_source(src)[1] == eof_token(1),
{
    assert forall|k: int| 1 <= k < src.len() implies is_digit(#[trigger] src[k]) by {}
    assert('0' <= src[0] <= '9');
    lemma_digits_end_whole(src, 1);
    let st = scan_one(src, 0, 1);
    assert(src.subrange(0, src.len() as int) =~= src);
    assert(st.next == src.len());
    assert(scan_from(src, st.next, st.line).0 =~= Seq::<TokenView>::empty());
}

/// The end-of-file token on the given line.
pub open spec fn eof_token(line: int) -> TokenView {
    token_view(TokenType::Eof, Seq::empty(), None, line)
}

/// The tokens of a whole source text: what scanning from its start on line 1
/// finds, followed by the end-of-file token.
pub open spec fn scan_source(src: Seq<char>) -> Seq<TokenView> {
    let r = scan_from(src, 0, 1);
    r.0.push(eof_token(r.2))
}

/// The errors found while scanning a whole source text.
pub open spec fn scan_source_errors(src: Seq<char>) -> Seq<LexErrorView> {
    scan_from(src, 0, 1).1
}

// ---------------------------------------------------------------------------
// The scanner.
// ---------------------------------------------------------------------------

/// A scanner over a source text.
pub struct Lexer {
    source: Vec<char>,
    tokens: Vec<Token>,
    errors: Vec<LexError>,
    start: usize,
    current: usize,
    line: usize,
}

impl Lexer {
    /// The characters being scanned.
    pub closed spec fn src(&self) -> Seq<char> {
        self.source@
    }

    /// The position of the next character to scan.
    pub closed spec fn cur(&self) -> int {
        self.current as int
    }

    /// The line being scanned.
    pub closed spec fn ln(&self) -> int {
        self.line as int
    }

    /// The tokens found so far.
    pub closed spec fn toks(&self) -> Seq<TokenView> {
        tokens_view(self.tokens@)
    }

    /// The errors found so far.
    pub closed spec fn errs(&self) -> Seq<LexErrorView> {
        lex_errors_view(self.errors@)
    }

    /// The scanner's invariant: positions inside the source, and no line
    /// count that could overflow while scanning the rest.
    pub closed spec fn wf(&self) -> bool {
        &&& self.start <= self.current <= self.source@.len()
        &&& self.source@.len() < usize::MAX
        &&& self.line + (self.source@.len() - self.current) < usize::MAX
    }

    /// A scanner at the start of `source`, on line 1.
    pub fn new(source: String) -> (l: Lexer)
        ensures
            l.src() == source@,
            l.cur() == 0,
            l.ln() == 1,
            l.toks() == Seq::<TokenView>::empty(),
            l.errs() == Seq::<LexErrorView>::empty(),
            source@.len() + 2 < usize::MAX ==> l.wf(),
    {
        let chars = str_to_chars(source.as_str());
        let l = Lexer {
            source: chars,
            tokens: Vec::new(),
            errors: Vec::new(),
            start: 0,
            current: 0,
            line: 1,
        };
        assert(l.toks() =~= Seq::<TokenView>::empty());
        assert(l.errs() =~= Seq::<LexErrorView>::empty());
        l
    }

    /// Scans the rest of the source: the tokens found (ending with the
    /// end-of-file token) and the errors, in order. The scanner keeps no token
    /// and no error afterwards.
    pub fn scan_tokens(&mut self) -> (res: (Vec<Token>, Vec<LexError>))
        requires
            old(self).wf(),
        ensures
            tokens_view(res.0@) == old(self).toks() + scan_from(old(self).src(), old(self).cur(), old(self).ln()).0.push(
                eof_token(scan_from(old(self).src(), old(self).cur(), old(self).ln()).2),
            ),
            lex_errors_view(res.1@) == old(self).errs() + scan_from(old(self).src(), old(self).cur(), old(self).ln()).1,
            final(self).src() == old(self).src(),
            final(self).cur() == old(self).src().len(),
            final(self).toks() == Seq::<TokenView>::empty(),
            final(self).errs() == Seq::<LexErrorView>::empty(),
            final(self).wf(),
    {
        let ghost src = self.source@;
        let ghost total = scan_from(src, self.current as int, self.line as int);
        let ghost toks0 = self.toks();
        let ghost errs0 = self.errs();
        while !self.is_at_end()
            invariant
                self.wf(),
                self.source@ == src,
                self.toks() + scan_from(src, self.current as int, self.line as int).0 == toks0 + total.0,
                self.errs() + scan_from(src, self.current as int, self.line as int).1 == errs0 + total.1,
                scan_from(src, self.current as int, self.line as int).2 == total.2,
            decreases src.len() - self.current,
        {
            self.start = self.current;
            let ghost before_toks = self.toks();
            let ghost before_errs = self.errs();
            let ghost st = scan_one(src, self.current as int, self.line as int);
            let ghost rest = scan_from(src, st.next, st.line);
            proof {
                lemma_scan_one(src, self.current as int, self.line as int);
            }
            self.scan_token();
            proof {
                match st.token {
                    Some(t) => {
                        assert(before_toks + (seq![t] + rest.0) == before_toks.push(t) + rest.0);
                    },
                    None => {},
                }
                match st.error {
                    Some(e) => {
                        assert(before_errs + (seq![e] + rest.1) == before_errs.push(e) + rest.1);
                    },
                    None => {},
                }
            }
        }
        proof {
            assert(scan_from(src, self.current as int, self.line as int).0 =~= Seq::<TokenView>::empty());
            assert(self.toks() =~= toks0 + total.0);
            assert(self.errs() =~= errs0 + total.1);
        }
        let eof = Token::new(TokenType::Eof, String::new(), None, self.line);
        let ghost before = self.tokens@;
        self.tokens.push(eof);
        proof {
            assert(eof@ == eof_token(total.2));
            assert(tokens_view(self.tokens@) =~= tokens_view(before).push(eof@));
            assert(tokens_view(self.tokens@) =~= toks0 + total.0.push(eof_token(total.2)));
        }
        let mut tokens: Vec<Token> = Vec::new();
        let mut errors: Vec<LexError> = Vec::new();
        std::mem::swap(&mut tokens, &mut self.tokens);
        std::mem::swap(&mut errors, &mut self.errors);
        proof {
            assert(self.toks() =~= Seq::<TokenView>::empty());
            assert(self.errs() =~= Seq::<LexErrorView>::empty());
        }
        (tokens, errors)
    }

    /// Scans one lexeme starting at the current position.
    fn scan_token(&mut self)
        requires
            old(self).wf(),
            old(self).start == old(self).current,
            old(self).current < old(self).source@.len(),
        ensures
            final(self).wf(),
            final(self).source@ == old(self).source@,
            ({
                let st = scan_one(old(self).source@, old(self).current as int, old(self).line as int);
                &&& final(self).current == st.next
                &&& final(self).line == st.line
                &&& final(self).toks() == match st.token {
                    Some(t) => old(self).toks().push(t),
                    None => old(self).toks(),
                }
                &&& final(self).errs() == match st.error {
                    Some(e) => old(self).errs().push(e),
                    None => old(self).errs(),
                }
            }),
    {
        let ghost src = self.source@;
        let ghost s = self.current as int;
        let ghost line0 = self.line as int;
        proof {
            lemma_scan_one(src, s, line0);
        }
        let c = self.advance();
        match c {
            '(' => self.add_token(TokenType::LeftParen, None),
            ')' => self.add_token(TokenType::RightParen, None),
            '{' => self.add_token(TokenType::LeftBrace, None),
            '}' => self.add_token(TokenType::RightBrace, None),
            ',' => self.add_token(TokenType::Comma, None),
            '.' => self.add_token(TokenType::Dot, None),
            '-' => self.add_token(TokenType::Minus, None),
            '+' => self.add_token(TokenType::Plus, None),
            ';' => self.add_token(TokenType::Semicolon, None),
            '*' => self.add_token(TokenType::Star, None),
            '?' => self.add_token(TokenType::Question, None),
            ':' => self.add_token(TokenType::Colon, None),
            '!' => {
                if self.match_char('=') {
                    self.add_token(TokenType::BangEqual, None);
                } else {
                    self.add_token(TokenType::Bang, None);
                }
            },
            '=' => {
                if self.match_char('=') {
                    self.add_token(TokenType::EqualEqual, None);
                } else {
                    self.add_token(TokenType::Equal, None);
                }
            },
            '<' => {
                if self.match_char('=') {
                    self.add_token(TokenType::LessEqual, None);
                } else {
                    self.add_token(TokenType::Less, None);
                }
            },
            '>' => {
                if self.match_char('=') {
                    self.add_token(TokenType::GreaterEqual, None);
                } else {
                    self.add_token(TokenType::Greater, None);
                }
            },
            '/' => {
                if self.match_char('/') {
                    self.line_comment();
                } else if self.match_char('*') {
                    self.block_comment();
                } else {
                    self.add_token(TokenType::Slash, None);
                }
            },
            ' ' | '\r' | '\t' => {},
            '\n' => {
                self.line = self.line + 1;
            },
            '"' => self.string(),
            _ => {
                if Self::is_digit(c) {
                    self.number();
                } else if Self::is_alpha(c) {
                    self.identifier();
                } else {
                    self.error(str_to_string("Unexpected character."));
                }
            },
        }
    }

    /// Skips the rest of a line comment.
    fn line_comment(&mut self)
        requires
            old(self).wf(),
            old(self).current <= old(self).source@.len(),
        ensures
            final(self).wf(),
            final(self).source@ == old(self).source@,
            final(self).start == old(self).start,
            final(self).current == line_end(old(self).source@, old(self).current as int),
            final(self).line == old(self).line,
            final(self).tokens == old(self).tokens,
            final(self).errors == old(self).errors,
    {
        let ghost src = self.source@;
        let ghost target = line_end(src, self.current as int);
        while self.peek() != '\n' && !self.is_at_end()
            invariant
                self.wf(),
                self.source@ == src,
                self.start == old(self).start,
                self.line == old(self).line,
                self.tokens == old(self).tokens,
                self.errors == old(self).errors,
                line_end(src, self.current as int) == target,
            decreases src.len() - self.current,
        {
            self.advance();
        }
    }

    /// Skips the rest of a block comment, counting its lines; reports an
    /// error when the source ends first.
    fn block_comment(&mut self)
        requires
            old(self).wf(),
            old(self).current <= old(self).source@.len(),
        ensures
            final(self).wf(),
            final(self).source@ == old(self).source@,
            final(self).start == old(self).start,
            ({
                let src = old(self).source@;
                let e = block_end(src, old(self).current as int);
                let l2 = old(self).line + newlines(src, old(self).current as int, e);
                &&& final(self).line == l2
                &&& final(self).tokens == old(self).tokens
                &&& if e >= src.len() {
                    &&& final(self).current == e
                    &&& final(self).errs() == old(self).errs().push(
                        LexErrorView { line: l2 as nat, message: "Unterminated block comment."@ },
                    )
                } else {
                    &&& final(self).current == e + 2
                    &&& final(self).errs() == old(self).errs()
                }
            }),
    {
        let ghost src = self.source@;
        let ghost a = self.current as int;
        let ghost target = block_end(src, a);
        proof {
            lemma_block_end(src, a);
        }
        while !(self.peek() == '*' && self.peek_next() == '/') && !self.is_at_end()
            invariant
                self.wf(),
                self.source@ == src,
                self.start == old(self).start,
                a <= self.current,
                self.line == old(self).line + newlines(src, a, self.current as int),
                self.tokens == old(self).tokens,
                self.errors == old(self).errors,
                block_end(src, self.current as int) == target,
            decreases src.len() - self.current,
        {
            proof {
                lemma_newlines_bound(src, a, self.current as int);
            }
            let newline = self.peek() == '\n';
            self.advance();
            if newline {
                self.line = self.line + 1;
            }
        }
        if self.is_at_end() {
            self.error(str_to_string("Unterminated block comment."));
        } else {
            self.advance();
            self.advance();
        }
    }

    /// Scans a string literal whose opening quote was consumed.
    fn string(&mut self)
        requires
            old(self).wf(),
            0 < old(self).current <= old(self).source@.len(),
            old(self).start + 1 == old(self).current,
        ensures
            final(self).wf(),
            final(self).source@ == old(self).source@,
            ({
                let st = string_step(old(self).source@, old(self).start as int, old(self).line as int);
                &&& final(self).current == st.next
                &&& final(self).line == st.line
                &&& final(self).toks() == match st.token {
                    Some(t) => old(self).toks().push(t),
                    None => old(self).toks(),
                }
                &&& final(self).errs() == match st.error {
                    Some(e) => old(self).errs().push(e),
                    None => old(self).errs(),
                }
            }),
    {
        let ghost src = self.source@;
        let ghost a = self.current as int;
        let ghost target = string_end(src, a);
        proof {
            lemma_string_end(src, a);
        }
        while self.peek() != '"' && !self.is_at_end()
            invariant
                self.wf(),
                self.source@ == src,
                self.start + 1 == a,
                a <= self.current,
                self.line == old(self).line + newlines(src, a, self.current as int),
                self.tokens == old(self).tokens,
                self.errors == old(self).errors,
                string_end(src, self.current as int) == target,
            decreases src.len() - self.current,
        {
            proof {
                lemma_newlines_bound(src, a, self.current as int);
            }
            let newline = self.peek() == '\n';
            self.advance();
            if newline {
                self.line = self.line + 1;
            }
        }
        if self.is_at_end() {
            self.error(str_to_string("Unterminated string."));
            return;
        }
        // The closing quote.
        self.advance();
        // The value without the surrounding quotes.
        let value = chars_to_string(sub_chars(self.source.as_slice(), self.start + 1, self.current - 1).as_slice());
        self.add_token(TokenType::String, Some(Literal::String(value)));
    }

    /// Records an error on the current line.
    fn error(&mut self, message: String)
        ensures
            final(self).source == old(self).source,
            final(self).start == old(self).start,
            final(self).current == old(self).current,
            final(self).line == old(self).line,
            final(self).tokens == old(self).tokens,
            final(self).errs() == old(self).errs().push(
                LexErrorView { line: old(self).line as nat, message: message@ },
            ),
    {
        self.errors.push(LexError { line: self.line, message });
        proof {
            assert(self.errs() =~= old(self).errs().push(
                LexErrorView { line: old(self).line as nat, message: message@ },
            ));
        }
    }

    /// Scans a number literal whose first digit was consumed.
    fn number(&mut self)
        requires
            old(self).wf(),
            0 < old(self).current <= old(self).source@.len(),
            old(self).start + 1 == old(self).current,
            is_digit(old(self).source@[old(self).start as int]),
        ensures
            final(self).wf(),
            final(self).source@ == old(self).source@,
            ({
                let st = number_step(old(self).source@, old(self).start as int, old(self).line as int);
                &&& final(self).current == st.next
                &&& final(self).line == st.line
                &&& final(self).toks() == old(self).toks().push(st.token->0)
                &&& final(self).errors == old(self).errors
            }),
    {
        let ghost src = self.source@;
        let ghost j0 = digits_end(src, self.current as int);
        proof {
            lemma_digits_end(src, self.current as int);
        }
        while Self::is_digit(self.peek())
            invariant
                self.wf(),
                self.source@ == src,
                self.start == old(self).start,
                self.line == old(self).line,
                self.tokens == old(self).tokens,
                self.errors == old(self).errors,
                digits_end(src, self.current as int) == j0,
            decreases src.len() - self.current,
        {
            self.advance();
        }
        // A fractional part.
        if self.peek() == '.' && Self::is_digit(self.peek_next()) {
            self.advance();
            let ghost j1 = digits_end(src, self.current as int);
            proof {
                lemma_digits_end(src, self.current as int);
            }
            while Self::is_digit(self.peek())
                invariant
                    self.wf(),
                    self.source@ == src,
                    self.start == old(self).start,
                    self.line == old(self).line,
                    self.tokens == old(self).tokens,
                    self.errors == old(self).errors,
                    digits_end(src, self.current as int) == j1,
                decreases src.len() - self.current,
            {
                self.advance();
            }
        }
        let text = chars_to_string(sub_chars(self.source.as_slice(), self.start, self.current).as_slice());
        let lit = text.clone();
        self.add_token(TokenType::Number, Some(Literal::Number(lit)));
    }

    /// Consumes the current character.
    fn advance(&mut self) -> (c: char)
        requires
            old(self).wf(),
            old(self).current < old(self).source@.len(),
        ensures
            final(self).wf(),
            c == old(self).source@[old(self).current as int],
            final(self).current == old(self).current + 1,
            final(self).source == old(self).source,
            final(self).start == old(self).start,
            final(self).line == old(self).line,
            final(self).tokens == old(self).tokens,
            final(self).errors == old(self).errors,
    {
        let c = self.source[self.current];
        self.current = self.current + 1;
        c
    }

    /// Records a token made of the text from `start` to `current`.
    fn add_token(&mut self, token_type: TokenType, literal: Option<Literal>)
        requires
            old(self).start <= old(self).current <= old(self).source@.len(),
        ensures
            final(self).source == old(self).source,
            final(self).start == old(self).start,
            final(self).current == old(self).current,
            final(self).line == old(self).line,
            final(self).errors == old(self).errors,
            final(self).toks() == old(self).toks().push(
                token_view(
                    token_type,
                    old(self).source@.subrange(old(self).start as int, old(self).current as int),
                    literal_opt_view(literal),
                    old(self).line as int,
                ),
            ),
    {
        let text = chars_to_string(sub_chars(self.source.as_slice(), self.start, self.current).as_slice());
        let t = Token::new(token_type, text, literal, self.line);
        self.tokens.push(t);
        proof {
            assert(tokens_view(self.tokens@) =~= tokens_view(old(self).tokens@).push(t@));
        }
    }

    /// Consumes the current character if it is `expected`.
    fn match_char(&mut self, expected: char) -> (r: bool)
        requires
            old(self).wf(),
        ensures
            final(self).wf(),
            r == (old(self).current < old(self).source@.len() && old(self).source@[old(self).current as int] == expected),
            final(self).current == old(self).current + if r {
                1int
            } else {
                0int
            },
            final(self).source == old(self).source,
            final(self).start == old(self).start,
            final(self).line == old(self).line,
            final(self).tokens == old(self).tokens,
            final(self).errors == old(self).errors,
    {
        if self.is_at_end() {
            return false;
        }
        if self.source[self.current] != expected {
            return false;
        }
        self.current = self.current + 1;
        true
    }

    fn is_at_end(&self) -> (r: bool)
        ensures
            r == (self.current >= self.source@.len()),
    {
        self.current >= self.source.len()
    }

    /// The current character, or `'\0'` at the end.
    fn peek(&self) -> (c: char)
        ensures
            c == if self.current < self.source@.len() {
                self.source@[self.current as int]
            } else {
                '\0'
            },
    {
        if self.is_at_end() {
            '\0'
        } else {
            self.source[self.current]
        }
    }

    /// The character after the current one, or `'\0'` past the end.
    fn peek_next(&self) -> (c: char)
        requires
            self.current < usize::MAX,
        ensures
            c == if self.current + 1 < self.source@.len() {
                self.source@[self.current + 1]
            } else {
                '\0'
            },
    {
        if self.current + 1 >= self.source.len() {
            '\0'
        } else {
            self.source[self.current + 1]
        }
    }

    /// Scans an identifier or keyword whose first character was consumed.
    fn identifier(&mut self)
        requires
            old(self).wf(),
            0 < old(self).current <= old(self).source@.len(),
            old(self).start + 1 == old(self).current,
        ensures
            final(self).wf(),
            final(self).source@ == old(self).source@,
            ({
                let st = identifier_step(old(self).source@, old(self).start as int, old(self).line as int);
                &&& final(self).current == st.next
                &&& final(self).line == st.line
                &&& final(self).toks() == old(self).toks().push(st.token->0)
                &&& final(self).errors == old(self).errors
            }),
    {
        let ghost src = self.source@;
        let ghost target = ident_end(src, self.current as int);
        proof {
            lemma_ident_end(src, self.current as int);
        }
        while Self::is_alphanumeric(self.peek())
            invariant
                self.wf(),
                self.source@ == src,
                self.start == old(self).start,
                self.line == old(self).line,
                self.tokens == old(self).tokens,
                self.errors == old(self).errors,
                ident_end(src, self.current as int) == target,
            decreases src.len() - self.current,
        {
            self.advance();
        }
        let text = sub_chars(self.source.as_slice(), self.start, self.current);
        let token_type = match Self::keyword_type(text.as_slice()) {
            Some(k) => k,
            None => TokenType::Identifier,
        };
        self.add_token(token_type, None);
    }

    fn is_digit(c: char) -> (r: bool)
        ensures
            r == is_digit(c),
    {
        c >= '0' && c <= '9'
    }

    fn is_alpha(c: char) -> (r: bool)
        ensures
            r == is_alpha(c),
    {
        (c >= 'a' && c <= 'z') || (c >= 'A' && c <= 'Z') || c == '_'
    }

    fn is_alphanumeric(c: char) -> (r: bool)
        ensures
            r == is_alphanumeric(c),
    {
        Self::is_alpha(c) || Self::is_digit(c)
    }

    /// The keyword that `text` spells, if any.
    fn keyword_type(text: &[char]) -> (r: Option<TokenType>)
        ensures
            r == keyword(text@),
    {
        if chars_eq(text, &['a', 'n', 'd']) {
            Some(TokenType::And)
        } else if chars_eq(text, &['c', 'l', 'a', 's', 's']) {
            Some(TokenType::Class)
        } else if chars_eq(text, &['e', 'l', 's', 'e']) {
            Some(TokenType::Else)
        } else if chars_eq(text, &['f', 'a', 'l', 's', 'e']) {
            Some(TokenType::False)
        } else if chars_eq(text, &['f', 'o', 'r']) {
            Some(TokenType::For)
        } else if chars_eq(text, &['f', 'u', 'n']) {
            Some(TokenType::Fun)
        } else if chars_eq(text, &['i', 'f']) {
            Some(TokenType::If)
        } else if chars_eq(text, &['n', 'i', 'l']) {
            Some(TokenType::Nil)
        } else if chars_eq(text, &['o', 'r']) {
            Some(TokenType::Or)
        } else if chars_eq(text, &['p', 'r', 'i', 'n', 't']) {
            Some(TokenType::Print)
        } else if chars_eq(text, &['r', 'e', 't', 'u', 'r', 'n']) {
            Some(TokenType::Return)
        } else if chars_eq(text, &['s', 'u', 'p', 'e', 'r']) {
            Some(TokenType::Super)
        } else if chars_eq(text, &['t', 'h', 'i', 's']) {
            Some(TokenType::This)
        } else if chars_eq(text, &['t', 'r', 'u', 'e']) {
            Some(TokenType::True)
        } else if chars_eq(text, &['v', 'a', 'r']) {
            Some(TokenType::Var)
        } else if chars_eq(text, &['w', 'h', 'i', 'l', 'e']) {
            Some(TokenType::While)
        } else {
            None
        }
    }
}

} // verus!
