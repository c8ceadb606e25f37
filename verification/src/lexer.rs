use vstd::prelude::*;

use vstd::string::*;

use crate::literal::push_char;
use crate::token::{Token, TokenKind, TokenView};

verus! {

// ---------------------------------------------------------------------------
// Character classes
// ---------------------------------------------------------------------------

/// What `char::is_alphanumeric` answers for `c` (Unicode Alphabetic or Numeric).
pub uninterp spec fn unicode_alphanumeric(c: char) -> bool;

pub open spec fn is_ascii_letter(c: char) -> bool {
    ('a' <= c && c <= 'z') || ('A' <= c && c <= 'Z')
}

pub open spec fn is_digit(c: char) -> bool {
    '0' <= c && c <= '9'
}

pub open spec fn is_blank(c: char) -> bool {
    c == ' ' || c == '\t' || c == '\r' || c == '\n'
}

/// A character that may start a word (identifier or keyword).
pub open spec fn is_word_start(c: char) -> bool {
    is_ascii_letter(c) || c == '_'
}

/// A character that may continue a word: among ASCII characters a letter,
/// a digit or `_`; beyond ASCII, what `char::is_alphanumeric` accepts.
pub open spec fn is_word_char(c: char) -> bool {
    if (c as u32) < 128 {
        is_ascii_letter(c) || is_digit(c) || c == '_'
    } else {
        unicode_alphanumeric(c)
    }
}

/// `char::is_alphanumeric`: true when `c` has the Unicode Alphabetic or
/// Numeric property. Among the ASCII characters exactly the letters and the
/// digits have one of them.
#[verifier::external_body]
fn char_is_alphanumeric(c: char) -> (r: bool)
    ensures
        r == unicode_alphanumeric(c),
        (c as u32) < 128 ==> (r == (is_ascii_letter(c) || is_digit(c))),
{
    c.is_alphanumeric()
}

// ---------------------------------------------------------------------------
// Scanning over the source characters
// ---------------------------------------------------------------------------

/// The first index at or after `i` that does not hold a decimal digit.
pub open spec fn digits_end(s: Seq<char>, i: int) -> int
    decreases s.len() - i,
{
    if i >= s.len() || !is_digit(s[i]) {
        i
    } else {
        digits_end(s, i + 1)
    }
}

/// The first index at or after `i` that does not hold a word character.
pub open spec fn word_end(s: Seq<char>, i: int) -> int
    decreases s.len() - i,
{
    if i >= s.len() || !is_word_char(s[i]) {
        i
    } else {
        word_end(s, i + 1)
    }
}

/// The first index at or after `i` that holds `ch`, or the length of `s`.
pub open spec fn find_char(s: Seq<char>, i: int, ch: char) -> int
    decreases s.len() - i,
{
    if i >= s.len() || s[i] == ch {
        i
    } else {
        find_char(s, i + 1, ch)
    }
}

/// Where a block comment whose body starts at `i` ends: just past the first
/// `-#`, or the length of `s` when there is none.
pub open spec fn block_comment_end(s: Seq<char>, i: int) -> int
    decreases s.len() - i,
{
    if i >= s.len() {
        s.len() as int
    } else if s[i] == '-' && i + 1 < s.len() && s[i + 1] == '#' {
        i + 2
    } else {
        block_comment_end(s, i + 1)
    }
}

/// Line and column after reading one character.
pub open spec fn next_line_col(c: char, line: int, col: int) -> (int, int) {
    if c == '\n' {
        (line + 1, 1)
    } else {
        (line, col + 1)
    }
}

/// Line and column after reading `s[from..to]`, starting at `line`, `col`.
pub open spec fn line_col_after(s: Seq<char>, from: int, to: int, line: int, col: int) -> (int, int)
    decreases to - from,
{
    if to <= from {
        (line, col)
    } else {
        let (l, c) = line_col_after(s, from, to - 1, line, col);
        next_line_col(s[to - 1], l, c)
    }
}

// ---------------------------------------------------------------------------
// Lexemes
// ---------------------------------------------------------------------------

/// The keyword that a word spells, or `Identifier`.
pub open spec fn keyword_kind(w: Seq<char>) -> TokenKind {
    if w == "mut"@ {
        TokenKind::Mut
    } else if w == "if"@ {
        TokenKind::If
    } else if w == "else"@ {
        TokenKind::Else
    } else if w == "in"@ {
        TokenKind::In
    } else if w == "then"@ {
        TokenKind::Then
    } else if w == "struct"@ {
        TokenKind::Struct
    } else if w == "error"@ {
        TokenKind::Error
    } else if w == "int"@ {
        TokenKind::IntType
    } else if w == "flt"@ {
        TokenKind::FltType
    } else if w == "str"@ {
        TokenKind::StrType
    } else if w == "bool"@ {
        TokenKind::BoolType
    } else if w == "abyss"@ {
        TokenKind::AbyssType
    } else if w == "true"@ {
        TokenKind::True
    } else if w == "false"@ {
        TokenKind::False
    } else if w == "I"@ {
        TokenKind::I
    } else if w == "_"@ {
        TokenKind::Underscore
    } else if w == "band"@ {
        TokenKind::Band
    } else if w == "bor"@ {
        TokenKind::Bor
    } else if w == "bxor"@ {
        TokenKind::Bxor
    } else if w == "bnot"@ {
        TokenKind::Bnot
    } else {
        TokenKind::Identifier
    }
}

/// The two-character operator that `c` followed by `d` spells, if any.
pub open spec fn two_char_kind(c: char, d: char) -> Option<TokenKind> {
    if c == '=' && d == '=' {
        Some(TokenKind::DoubleEquals)
    } else if c == '!' && d == '!' {
        Some(TokenKind::DoubleBang)
    } else if c == '!' && d == '=' {
        Some(TokenKind::NotEquals)
    } else if c == '.' && d == '.' {
        Some(TokenKind::DotDot)
    } else if c == '-' && d == '>' {
        Some(TokenKind::Arrow)
    } else if c == '~' && d == '>' {
        Some(TokenKind::PipeArrow)
    } else if c == '<' && d == '=' {
        Some(TokenKind::LessEqual)
    } else if c == '>' && d == '>' {
        Some(TokenKind::PipeLine)
    } else if c == '>' && d == '=' {
        Some(TokenKind::GreaterEquals)
    } else if c == '&' && d == '&' {
        Some(TokenKind::And)
    } else if c == '|' && d == '|' {
        Some(TokenKind::Or)
    } else {
        None
    }
}

/// The one-character token that `c` spells, if any.
pub open spec fn one_char_kind(c: char) -> Option<TokenKind> {
    if c == '=' {
        Some(TokenKind::Equals)
    } else if c == ':' {
        Some(TokenKind::Colon)
    } else if c == ';' {
        Some(TokenKind::Semicolon)
    } else if c == '(' {
        Some(TokenKind::LeftParen)
    } else if c == ')' {
        Some(TokenKind::RightParen)
    } else if c == '{' {
        Some(TokenKind::LeftBrace)
    } else if c == '}' {
        Some(TokenKind::RightBrace)
    } else if c == '[' {
        Some(TokenKind::LeftBracket)
    } else if c == ']' {
        Some(TokenKind::RightBracket)
    } else if c == '?' {
        Some(TokenKind::Question)
    } else if c == '!' {
        Some(TokenKind::Bang)
    } else if c == '@' {
        Some(TokenKind::At)
    } else if c == '.' {
        Some(TokenKind::Dot)
    } else if c == '+' {
        Some(TokenKind::Plus)
    } else if c == '-' {
        Some(TokenKind::Minus)
    } else if c == '*' {
        Some(TokenKind::Star)
    } else if c == '/' {
        Some(TokenKind::Slash)
    } else if c == '^' {
        Some(TokenKind::Caret)
    } else if c == '%' {
        Some(TokenKind::Percent)
    } else if c == '<' {
        Some(TokenKind::LeftAngle)
    } else if c == '>' {
        Some(TokenKind::RightAngle)
    } else if c == ',' {
        Some(TokenKind::Comma)
    } else if c == '|' {
        Some(TokenKind::Pipe)
    } else {
        None
    }
}

/// A problem found while lexing; lexing goes on after it.
#[derive(Debug, Clone, Copy, PartialEq, Eq, Structural)]
pub enum LexError {
    /// A `"` with no closing `"` before the end of the source.
    UnterminatedString { line: usize, column: usize },
    /// A character that starts no token.
    UnexpectedChar { ch: char, line: usize, column: usize },
}

/// What one lexeme starting at a position yields: where it ends, the token it
/// produces (if any) and the problem it reports (if any).
pub struct LexStep {
    pub end: int,
    pub token: Option<TokenView>,
    pub problem: Option<LexError>,
}

pub open spec fn emit(s: Seq<char>, kind: TokenKind, start: int, end: int, line: int, col: int) -> LexStep {
    LexStep {
        end,
        token: Some(TokenView { kind, value: s.subrange(start, end), line, column: col }),
        problem: None,
    }
}

pub open spec fn skip_to(end: int) -> LexStep {
    LexStep { end, token: None, problem: None }
}

/// The lexeme of `s` that starts at `pos` (with `pos < s.len()`), the start
/// being at `line`, `col`.
pub open spec fn lex_step(s: Seq<char>, pos: int, line: int, col: int) -> LexStep {
    let c = s[pos];
    if is_blank(c) {
        skip_to(pos + 1)
    } else if c == '"' {
        let close = find_char(s, pos + 1, '"');
        if close < s.len() {
            LexStep {
                end: close + 1,
                token: Some(
                    TokenView {
                        kind: TokenKind::StrLiteral,
                        value: s.subrange(pos + 1, close),
                        line,
                        column: col,
                    },
                ),
                problem: None,
            }
        } else {
            LexStep {
                end: s.len() as int,
                token: None,
                problem: Some(
                    LexError::UnterminatedString { line: line as usize, column: col as usize },
                ),
            }
        }
    } else if c == '#' {
        if pos + 1 < s.len() && s[pos + 1] == '-' {
            skip_to(block_comment_end(s, pos + 2))
        } else {
            skip_to(find_char(s, pos, '\n'))
        }
    } else if is_digit(c) {
        let whole = digits_end(s, pos);
        if whole + 1 < s.len() && s[whole] == '.' && is_digit(s[whole + 1]) {
            emit(s, TokenKind::FltLiteral, pos, digits_end(s, whole + 1), line, col)
        } else {
            emit(s, TokenKind::IntLiteral, pos, whole, line, col)
        }
    } else if is_word_start(c) {
        let end = word_end(s, pos + 1);
        emit(s, keyword_kind(s.subrange(pos, end)), pos, end, line, col)
    } else if pos + 1 < s.len() && two_char_kind(c, s[pos + 1]).is_some() {
        emit(s, two_char_kind(c, s[pos + 1]).unwrap(), pos, pos + 2, line, col)
    } else if one_char_kind(c).is_some() {
        emit(s, one_char_kind(c).unwrap(), pos, pos + 1, line, col)
    } else {
        LexStep {
            end: pos + 1,
            token: None,
            problem: Some(
                LexError::UnexpectedChar { ch: c, line: line as usize, column: col as usize },
            ),
        }
    }
}

pub open spec fn opt_seq<A>(o: Option<A>) -> Seq<A> {
    match o {
        Some(a) => seq![a],
        None => Seq::empty(),
    }
}

/// The tokens (ending with `EOF`) and the problems that lexing `s` from
/// `pos` yields, the character at `pos` standing at `line`, `col`.
pub open spec fn lex_from(s: Seq<char>, pos: int, line: int, col: int) -> (Seq<TokenView>, Seq<LexError>)
    decreases s.len() - pos,
{
    if pos < 0 || pos >= s.len() {
        (seq![TokenView { kind: TokenKind::EOF, value: Seq::empty(), line, column: col }], Seq::empty())
    } else {
        let st = lex_step(s, pos, line, col);
        proof {
            lemma_step_progress(s, pos, line, col);
        }
        let (l2, c2) = line_col_after(s, pos, st.end, line, col);
        let rest = lex_from(s, st.end, l2, c2);
        (opt_seq(st.token) + rest.0, opt_seq(st.problem) + rest.1)
    }
}

/// The tokens that lexing the whole of `s` yields.
pub open spec fn lex_tokens(s: Seq<char>) -> Seq<TokenView> {
    lex_from(s, 0, 1, 1).0
}

/// The problems that lexing the whole of `s` reports, in source order.
pub open spec fn lex_problems(s: Seq<char>) -> Seq<LexError> {
    lex_from(s, 0, 1, 1).1
}

pub open spec fn token_views(ts: Seq<Token>) -> Seq<TokenView> {
    ts.map_values(|t: Token| t@)
}

// ---------------------------------------------------------------------------
// Lemmas about scanning
// ---------------------------------------------------------------------------

proof fn lemma_digits_end(s: Seq<char>, i: int)
    requires
        0 <= i <= s.len(),
    ensures
        i <= digits_end(s, i) <= s.len(),
    decreases s.len() - i,
{
    if i < s.len() && is_digit(s[i]) {
        lemma_digits_end(s, i + 1);
    }
}

proof fn lemma_word_end(s: Seq<char>, i: int)
    requires
        0 <= i <= s.len(),
    ensures
        i <= word_end(s, i) <= s.len(),
    decreases s.len() - i,
{
    if i < s.len() && is_word_char(s[i]) {
        lemma_word_end(s, i + 1);
    }
}

proof fn lemma_find_char(s: Seq<char>, i: int, ch: char)
    requires
        0 <= i <= s.len(),
    ensures
        i <= find_char(s, i, ch) <= s.len(),
        find_char(s, i, ch) < s.len() ==> s[find_char(s, i, ch)] == ch,
        forall|k: int| i <= k < find_char(s, i, ch) ==> s[k] != ch,
    decreases s.len() - i,
{
    if i < s.len() && s[i] != ch {
        lemma_find_char(s, i + 1, ch);
    }
}

proof fn lemma_block_comment_end(s: Seq<char>, i: int)
    requires
        0 <= i,
    ensures
        i <= block_comment_end(s, i) || block_comment_end(s, i) == s.len(),
        block_comment_end(s, i) <= s.len() || i > s.len(),
        i <= s.len() ==> i <= block_comment_end(s, i) <= s.len(),
    decreases s.len() - i,
{
    if i < s.len() && !(s[i] == '-' && i + 1 < s.len() && s[i + 1] == '#') {
        lemma_block_comment_end(s, i + 1);
    }
}

/// Each lexeme moves forward and stays within the source.
pub proof fn lemma_step_progress(s: Seq<char>, pos: int, line: int, col: int)
    requires
        0 <= pos < s.len(),
    ensures
        pos < lex_step(s, pos, line, col).end <= s.len(),
{
    let c = s[pos];
    if c == '"' {
        lemma_find_char(s, pos + 1, '"');
    } else if c == '#' {
        if pos + 1 < s.len() && s[pos + 1] == '-' {
            lemma_block_comment_end(s, pos + 2);
        } else {
            assert(find_char(s, pos, '\n') == find_char(s, pos + 1, '\n'));
            lemma_find_char(s, pos + 1, '\n');
        }
    } else if is_digit(c) {
        lemma_digits_end(s, pos);
        let whole = digits_end(s, pos);
        assert(whole > pos) by {
            assert(digits_end(s, pos) == digits_end(s, pos + 1));
            lemma_digits_end(s, pos + 1);
        }
        if whole + 1 < s.len() && s[whole] == '.' && is_digit(s[whole + 1]) {
            lemma_digits_end(s, whole + 1);
        }
    } else if is_word_start(c) {
        lemma_word_end(s, pos + 1);
    }
}

/// A lexeme never yields an `EOF` token.
proof fn lemma_step_not_eof(s: Seq<char>, pos: int, line: int, col: int)
    requires
        0 <= pos < s.len(),
    ensures
        lex_step(s, pos, line, col).token matches Some(t) ==> t.kind != TokenKind::EOF,
{
    let c = s[pos];
    if pos + 1 < s.len() && two_char_kind(c, s[pos + 1]).is_some() {
        assert(two_char_kind(c, s[pos + 1]).unwrap() != TokenKind::EOF);
    }
    if one_char_kind(c).is_some() {
        assert(one_char_kind(c).unwrap() != TokenKind::EOF);
    }
}

/// Lexing always ends with exactly one `EOF` token, the last one.
pub proof fn lemma_lex_ends_with_eof(s: Seq<char>, pos: int, line: int, col: int)
    ensures
        lex_from(s, pos, line, col).0.len() >= 1,
        lex_from(s, pos, line, col).0.last().kind == TokenKind::EOF,
        forall|i: int|
            0 <= i < lex_from(s, pos, line, col).0.len() - 1 ==> (#[trigger] lex_from(s, pos, line, col).0[i]).kind
                != TokenKind::EOF,
    decreases s.len() - pos,
{
    if 0 <= pos < s.len() {
        let st = lex_step(s, pos, line, col);
        lemma_step_progress(s, pos, line, col);
        lemma_step_not_eof(s, pos, line, col);
        let (l2, c2) = line_col_after(s, pos, st.end, line, col);
        lemma_lex_ends_with_eof(s, st.end, l2, c2);
        let rest = lex_from(s, st.end, l2, c2).0;
        let all = lex_from(s, pos, line, col).0;
        assert(all == opt_seq(st.token) + rest);
        assert forall|i: int| 0 <= i < all.len() - 1 implies (#[trigger] all[i]).kind != TokenKind::EOF by {
            if st.token is Some {
                if i > 0 {
                    assert(all[i] == rest[i - 1]);
                }
            } else {
                assert(all[i] == rest[i]);
            }
        }
    }
}

/// Whether the place `line`, `col` comes before the place `line2`, `col2`
/// in a text.
pub open spec fn place_before(line: int, col: int, line2: int, col2: int) -> bool {
    line < line2 || (line == line2 && col < col2)
}

/// Reading characters moves the line and column forward.
proof fn lemma_line_col_advances(s: Seq<char>, from: int, to: int, line: int, col: int)
    requires
        from <= to,
    ensures
        !place_before(
            line_col_after(s, from, to, line, col).0,
            line_col_after(s, from, to, line, col).1,
            line,
            col,
        ),
        from < to ==> place_before(
            line,
            col,
            line_col_after(s, from, to, line, col).0,
            line_col_after(s, from, to, line, col).1,
        ),
    decreases to - from,
{
    if from < to {
        lemma_line_col_advances(s, from, to - 1, line, col);
    }
}

proof fn lemma_tokens_ordered_from(s: Seq<char>, pos: int, line: int, col: int)
    ensures
        forall|i: int|
            0 <= i < lex_from(s, pos, line, col).0.len() ==> !place_before(
                (#[trigger] lex_from(s, pos, line, col).0[i]).line,
                lex_from(s, pos, line, col).0[i].column,
                line,
                col,
            ),
        forall|i: int, j: int|
            0 <= i < j < lex_from(s, pos, line, col).0.len() ==> place_before(
                (#[trigger] lex_from(s, pos, line, col).0[i]).line,
                lex_from(s, pos, line, col).0[i].column,
                (#[trigger] lex_from(s, pos, line, col).0[j]).line,
                lex_from(s, pos, line, col).0[j].column,
            ),
    decreases s.len() - pos,
{
    if 0 <= pos < s.len() {
        let st = lex_step(s, pos, line, col);
        lemma_step_progress(s, pos, line, col);
        let (l2, c2) = line_col_after(s, pos, st.end, line, col);
        lemma_line_col_advances(s, pos, st.end, line, col);
        lemma_tokens_ordered_from(s, st.end, l2, c2);
        let rest = lex_from(s, st.end, l2, c2).0;
        let all = lex_from(s, pos, line, col).0;
        assert(all == opt_seq(st.token) + rest);
        if st.token is Some {
            assert(st.token.unwrap().line == line && st.token.unwrap().column == col);
            assert forall|i: int| 0 < i < all.len() implies all[i] == rest[i - 1] by {}
            assert forall|i: int, j: int| 0 <= i < j < all.len() implies place_before(
                (#[trigger] all[i]).line,
                all[i].column,
                (#[trigger] all[j]).line,
                all[j].column,
            ) by {
                assert(all[j] == rest[j - 1]);
                if i > 0 {
                    assert(all[i] == rest[i - 1]);
                }
            }
            assert forall|i: int| 0 <= i < all.len() implies !place_before(
                (#[trigger] all[i]).line,
                all[i].column,
                line,
                col,
            ) by {
                if i > 0 {
                    assert(all[i] == rest[i - 1]);
                }
            }
        } else {
            assert(all =~= rest);
        }
    }
}

/// The tokens come in the order of the text: each one stands at a place
/// after the place of the one before it.
pub proof fn law_tokens_in_source_order(s: Seq<char>)
    ensures
        forall|i: int, j: int|
            0 <= i < j < lex_tokens(s).len() ==> place_before(
                (#[trigger] lex_tokens(s)[i]).line,
                lex_tokens(s)[i].column,
                (#[trigger] lex_tokens(s)[j]).line,
                lex_tokens(s)[j].column,
            ),
{
    lemma_tokens_ordered_from(s, 0, 1, 1);
}

/// How each operator and punctuation token is spelled.
pub open spec fn operator_text(k: TokenKind) -> Option<Seq<char>> {
    match k {
        TokenKind::DoubleEquals => Some(seq!['=', '=']),
        TokenKind::DoubleBang => Some(seq!['!', '!']),
        TokenKind::NotEquals => Some(seq!['!', '=']),
        TokenKind::DotDot => Some(seq!['.', '.']),
        TokenKind::Arrow => Some(seq!['-', '>']),
        TokenKind::PipeArrow => Some(seq!['~', '>']),
        TokenKind::LessEqual => Some(seq!['<', '=']),
        TokenKind::PipeLine => Some(seq!['>', '>']),
        TokenKind::GreaterEquals => Some(seq!['>', '=']),
        TokenKind::And => Some(seq!['&', '&']),
        TokenKind::Or => Some(seq!['|', '|']),
        TokenKind::Equals => Some(seq!['=']),
        TokenKind::Colon => Some(seq![':']),
        TokenKind::Semicolon => Some(seq![';']),
        TokenKind::LeftParen => Some(seq!['(']),
        TokenKind::RightParen => Some(seq![')']),
        TokenKind::LeftBrace => Some(seq!['{']),
        TokenKind::RightBrace => Some(seq!['}']),
        TokenKind::LeftBracket => Some(seq!['[']),
        TokenKind::RightBracket => Some(seq![']']),
        TokenKind::Question => Some(seq!['?']),
        TokenKind::Bang => Some(seq!['!']),
        TokenKind::At => Some(seq!['@']),
        TokenKind::Dot => Some(seq!['.']),
        TokenKind::Plus => Some(seq!['+']),
        TokenKind::Minus => Some(seq!['-']),
        TokenKind::Star => Some(seq!['*']),
        TokenKind::Slash => Some(seq!['/']),
        TokenKind::Caret => Some(seq!['^']),
        TokenKind::Percent => Some(seq!['%']),
        TokenKind::LeftAngle => Some(seq!['<']),
        TokenKind::RightAngle => Some(seq!['>']),
        TokenKind::Comma => Some(seq![',']),
        TokenKind::Pipe => Some(seq!['|']),
        _ => None,
    }
}

/// An operator or punctuation spelled on its own lexes to exactly its
/// token, in one piece (`>=` is one token, not `>` and `=`), followed by
/// `EOF`.
pub proof fn law_operators_lex_whole(k: TokenKind)
    requires
        operator_text(k) is Some,
    ensures
        ({
            let t = operator_text(k).unwrap();
            lex_tokens(t) == seq![
                TokenView { kind: k, value: t, line: 1, column: 1 },
                TokenView { kind: TokenKind::EOF, value: Seq::empty(), line: 1, column: 1 + t.len() as int },
            ]
        }),
{
    let t = operator_text(k).unwrap();
    let st = lex_step(t, 0, 1, 1);
    assert(st.end == t.len());
    assert(st.token == Some(TokenView { kind: k, value: t, line: 1, column: 1 })) by {
        assert(t.subrange(0, t.len() as int) =~= t);
    }
    assert(st.problem is None);
    assert(line_col_after(t, 0, t.len() as int, 1, 1) == (1int, 1 + t.len() as int)) by {
        lemma_line_col_base(t, 0, 1, 1);
        lemma_line_col_step(t, 0, 0, 1, 1);
        assert(t[0] != '\n');
        if t.len() == 2 {
            lemma_line_col_step(t, 0, 1, 1, 1);
            assert(t[1] != '\n');
        }
    }
    let rest = lex_from(t, t.len() as int, 1, 1 + t.len() as int);
    assert(lex_tokens(t) == opt_seq(st.token) + rest.0);
}


/// How each keyword is spelled.
pub open spec fn keyword_text(k: TokenKind) -> Option<Seq<char>> {
    match k {
        TokenKind::Mut => Some(seq!['m', 'u', 't']),
        TokenKind::If => Some(seq!['i', 'f']),
        TokenKind::Else => Some(seq!['e', 'l', 's', 'e']),
        TokenKind::In => Some(seq!['i', 'n']),
        TokenKind::Then => Some(seq!['t', 'h', 'e', 'n']),
        TokenKind::Struct => Some(seq!['s', 't', 'r', 'u', 'c', 't']),
        TokenKind::Error => Some(seq!['e', 'r', 'r', 'o', 'r']),
        TokenKind::IntType => Some(seq!['i', 'n', 't']),
        TokenKind::FltType => Some(seq!['f', 'l', 't']),
        TokenKind::StrType => Some(seq!['s', 't', 'r']),
        TokenKind::BoolType => Some(seq!['b', 'o', 'o', 'l']),
        TokenKind::AbyssType => Some(seq!['a', 'b', 'y', 's', 's']),
        TokenKind::True => Some(seq!['t', 'r', 'u', 'e']),
        TokenKind::False => Some(seq!['f', 'a', 'l', 's', 'e']),
        TokenKind::I => Some(seq!['I']),
        TokenKind::Underscore => Some(seq!['_']),
        TokenKind::Band => Some(seq!['b', 'a', 'n', 'd']),
        TokenKind::Bor => Some(seq!['b', 'o', 'r']),
        TokenKind::Bxor => Some(seq!['b', 'x', 'o', 'r']),
        TokenKind::Bnot => Some(seq!['b', 'n', 'o', 't']),
        _ => None,
    }
}

proof fn lemma_keyword_kind_spells(w: Seq<char>)
    ensures
        keyword_kind(w) != TokenKind::Identifier ==> keyword_text(keyword_kind(w)) == Some(w),
        forall|k: TokenKind| keyword_text(k) == Some(w) ==> keyword_kind(w) == k,
{
    reveal_strlit("mut");
    reveal_strlit("if");
    reveal_strlit("else");
    reveal_strlit("in");
    reveal_strlit("then");
    reveal_strlit("struct");
    reveal_strlit("error");
    reveal_strlit("int");
    reveal_strlit("flt");
    reveal_strlit("str");
    reveal_strlit("bool");
    reveal_strlit("abyss");
    reveal_strlit("true");
    reveal_strlit("false");
    reveal_strlit("I");
    reveal_strlit("_");
    reveal_strlit("band");
    reveal_strlit("bor");
    reveal_strlit("bxor");
    reveal_strlit("bnot");
    assert forall|k: TokenKind| keyword_text(k) == Some(w) implies keyword_kind(w) == k by {
        match k {
            TokenKind::Mut => {
                assert(w =~= "mut"@);
                assert(w[0] == 'm');
                assert(w[1] == 'u');
                assert(w[2] == 't');
            },
            TokenKind::If => {
                assert(w =~= "if"@);
                assert(w[0] == 'i');
                assert(w[1] == 'f');
            },
            TokenKind::Else => {
                assert(w =~= "else"@);
                assert(w[0] == 'e');
                assert(w[1] == 'l');
                assert(w[2] == 's');
                assert(w[3] == 'e');
            },
            TokenKind::In => {
                assert(w =~= "in"@);
                assert(w[0] == 'i');
                assert(w[1] == 'n');
            },
            TokenKind::Then => {
                assert(w =~= "then"@);
                assert(w[0] == 't');
                assert(w[1] == 'h');
                assert(w[2] == 'e');
                assert(w[3] == 'n');
            },
            TokenKind::Struct => {
                assert(w =~= "struct"@);
                assert(w[0] == 's');
                assert(w[1] == 't');
                assert(w[2] == 'r');
                assert(w[3] == 'u');
                assert(w[4] == 'c');
                assert(w[5] == 't');
            },
            TokenKind::Error => {
                assert(w =~= "error"@);
                assert(w[0] == 'e');
                assert(w[1] == 'r');
                assert(w[2] == 'r');
                assert(w[3] == 'o');
                assert(w[4] == 'r');
            },
            TokenKind::IntType => {
                assert(w =~= "int"@);
                assert(w[0] == 'i');
                assert(w[1] == 'n');
                assert(w[2] == 't');
            },
            TokenKind::FltType => {
                assert(w =~= "flt"@);
                assert(w[0] == 'f');
                assert(w[1] == 'l');
                assert(w[2] == 't');
            },
            TokenKind::StrType => {
                assert(w =~= "str"@);
                assert(w[0] == 's');
                assert(w[1] == 't');
                assert(w[2] == 'r');
            },
            TokenKind::BoolType => {
                assert(w =~= "bool"@);
                assert(w[0] == 'b');
                assert(w[1] == 'o');
                assert(w[2] == 'o');
                assert(w[3] == 'l');
            },
            TokenKind::AbyssType => {
                assert(w =~= "abyss"@);
                assert(w[0] == 'a');
                assert(w[1] == 'b');
                assert(w[2] == 'y');
                assert(w[3] == 's');
                assert(w[4] == 's');
            },
            TokenKind::True => {
                assert(w =~= "true"@);
                assert(w[0] == 't');
                assert(w[1] == 'r');
                assert(w[2] == 'u');
                assert(w[3] == 'e');
            },
            TokenKind::False => {
                assert(w =~= "false"@);
                assert(w[0] == 'f');
                assert(w[1] == 'a');
                assert(w[2] == 'l');
                assert(w[3] == 's');
                assert(w[4] == 'e');
            },
            TokenKind::I => {
                assert(w =~= "I"@);
                assert(w[0] == 'I');
            },
            TokenKind::Underscore => {
                assert(w =~= "_"@);
                assert(w[0] == '_');
            },
            TokenKind::Band => {
                assert(w =~= "band"@);
                assert(w[0] == 'b');
                assert(w[1] == 'a');
                assert(w[2] == 'n');
                assert(w[3] == 'd');
            },
            TokenKind::Bor => {
                assert(w =~= "bor"@);
                assert(w[0] == 'b');
                assert(w[1] == 'o');
                assert(w[2] == 'r');
            },
            TokenKind::Bxor => {
                assert(w =~= "bxor"@);
                assert(w[0] == 'b');
                assert(w[1] == 'x');
                assert(w[2] == 'o');
                assert(w[3] == 'r');
            },
            TokenKind::Bnot => {
                assert(w =~= "bnot"@);
                assert(w[0] == 'b');
                assert(w[1] == 'n');
                assert(w[2] == 'o');
                assert(w[3] == 't');
            },
            _ => {},
        }
    }
}

/// A word made of word characters reaches to the end of the text.
proof fn lemma_word_end_all(s: Seq<char>, i: int)
    requires
        0 <= i <= s.len(),
        forall|j: int| i <= j < s.len() ==> is_word_char(#[trigger] s[j]),
    ensures
        word_end(s, i) == s.len(),
    decreases s.len() - i,
{
    if i < s.len() {
        lemma_word_end_all(s, i + 1);
    }
}

/// Reading characters without a line break moves only the column.
proof fn lemma_line_col_plain(s: Seq<char>, a: int, b: int, line: int, col: int)
    requires
        0 <= a <= b <= s.len(),
        forall|j: int| a <= j < b ==> #[trigger] s[j] != '\n',
    ensures
        line_col_after(s, a, b, line, col) == (line, col + b - a),
    decreases b - a,
{
    if b > a {
        lemma_line_col_plain(s, a, b - 1, line, col);
        lemma_line_col_step(s, a, b - 1, line, col);
    }
}

/// A word on its own lexes to one token holding the whole word: the
/// keyword it spells, or an identifier when it spells none.
pub proof fn law_words_lex_whole(w: Seq<char>)
    requires
        w.len() >= 1,
        is_word_start(w[0]),
        forall|i: int| 0 <= i < w.len() ==> is_word_char(#[trigger] w[i]),
    ensures
        lex_tokens(w).len() == 2,
        lex_tokens(w)[0].value == w,
        lex_tokens(w)[0].line == 1 && lex_tokens(w)[0].column == 1,
        lex_tokens(w)[1] == (TokenView { kind: TokenKind::EOF, value: Seq::empty(), line: 1, column: 1 + w.len() as int }),
        forall|k: TokenKind| #[trigger] keyword_text(k) == Some(w) ==> lex_tokens(w)[0].kind == k,
        (forall|k: TokenKind| #[trigger] keyword_text(k) != Some(w)) ==> lex_tokens(w)[0].kind == TokenKind::Identifier,
{
    lemma_word_end_all(w, 1);
    lemma_keyword_kind_spells(w);
    assert(w.subrange(0, w.len() as int) =~= w);
    let st = lex_step(w, 0, 1, 1);
    assert(st.end == w.len());
    assert(st.token == Some(TokenView { kind: keyword_kind(w), value: w, line: 1, column: 1 }));
    assert forall|j: int| 0 <= j < w.len() implies #[trigger] w[j] != '\n' by {
        assert(is_word_char(w[j]));
    }
    lemma_line_col_plain(w, 0, w.len() as int, 1, 1);
    let rest = lex_from(w, w.len() as int, 1, 1 + w.len() as int);
    assert(lex_tokens(w) == opt_seq(st.token) + rest.0);
    if keyword_kind(w) != TokenKind::Identifier {
        assert(keyword_text(keyword_kind(w)) == Some(w));
    }
}


/// The number of line breaks among the first `n` characters of `s`.
pub open spec fn newlines_before(s: Seq<char>, n: int) -> int
    decreases n,
{
    if n <= 0 {
        0
    } else {
        newlines_before(s, n - 1) + if s[n - 1] == '\n' {
            1int
        } else {
            0int
        }
    }
}

/// Where the line holding position `n` of `s` starts: just after the last
/// line break before `n`, or 0.
pub open spec fn line_start_before(s: Seq<char>, n: int) -> int
    decreases n,
{
    if n <= 0 {
        0
    } else if s[n - 1] == '\n' {
        n
    } else {
        line_start_before(s, n - 1)
    }
}

/// The line of position `n` of `s` is one more than the line breaks before
/// it, and its column one more than the characters between it and the
/// start of its line.
pub proof fn law_place_of_position(s: Seq<char>, n: int)
    requires
        0 <= n <= s.len(),
    ensures
        line_col_after(s, 0, n, 1, 1) == (1 + newlines_before(s, n), 1 + n - line_start_before(s, n)),
    decreases n,
{
    if n > 0 {
        law_place_of_position(s, n - 1);
    }
}

proof fn lemma_eof_place_from(s: Seq<char>, pos: int, line: int, col: int)
    requires
        0 <= pos,
    ensures
        lex_from(s, pos, line, col).0.last() == (TokenView {
            kind: TokenKind::EOF,
            value: Seq::empty(),
            line: line_col_after(s, pos, s.len() as int, line, col).0,
            column: line_col_after(s, pos, s.len() as int, line, col).1,
        }),
    decreases s.len() - pos,
{
    if pos < s.len() {
        let st = lex_step(s, pos, line, col);
        lemma_step_progress(s, pos, line, col);
        let (l2, c2) = line_col_after(s, pos, st.end, line, col);
        lemma_eof_place_from(s, st.end, l2, c2);
        lemma_lex_ends_with_eof(s, st.end, l2, c2);
        lemma_line_col_concat(s, pos, st.end, s.len() as int, line, col);
        let rest = lex_from(s, st.end, l2, c2).0;
        assert((opt_seq(st.token) + rest).last() == rest.last());
    }
}

/// Lexing ends with an `EOF` token with no text, standing at the place just
/// after the whole source: on the line after its last line break, in the
/// column after its last character.
pub proof fn law_eof_after_source(s: Seq<char>)
    ensures
        lex_tokens(s).last() == (TokenView {
            kind: TokenKind::EOF,
            value: Seq::empty(),
            line: 1 + newlines_before(s, s.len() as int),
            column: 1 + s.len() - line_start_before(s, s.len() as int),
        }),
{
    lemma_eof_place_from(s, 0, 1, 1);
    law_place_of_position(s, s.len() as int);
}

/// Token `t` was read from position `p` of `s`: it stands at the line and
/// column of `p`, and its text is what follows there (for a string, what
/// stands between the quote at `p` and the first quote after it, so that it
/// holds no quote).
pub open spec fn read_at(s: Seq<char>, t: TokenView, p: int) -> bool {
    &&& 0 <= p < s.len()
    &&& (t.line, t.column) == line_col_after(s, 0, p, 1, 1)
    &&& if t.kind == TokenKind::StrLiteral {
        &&& s[p] == '"'
        &&& p + 1 + t.value.len() < s.len()
        &&& s.subrange(p + 1, p + 1 + t.value.len()) == t.value
        &&& s[p + 1 + t.value.len()] == '"'
        &&& forall|k: int| 0 <= k < t.value.len() ==> t.value[k] != '"'
    } else {
        &&& t.value.len() > 0
        &&& p + t.value.len() <= s.len()
        &&& s.subrange(p, p + t.value.len()) == t.value
    }
}

/// Every token of `toks` but the last was read from a position of `s` at or
/// after `from`.
pub open spec fn tokens_read(s: Seq<char>, toks: Seq<TokenView>, from: int) -> bool {
    forall|i: int| 0 <= i < toks.len() - 1 ==> #[trigger] read_after(s, toks[i], from)
}

/// Token `t` was read from a position of `s` at or after `from`.
pub open spec fn read_after(s: Seq<char>, t: TokenView, from: int) -> bool {
    exists|p: int| from <= p && #[trigger] read_at(s, t, p)
}

proof fn lemma_tokens_read_from(s: Seq<char>, pos: int)
    requires
        0 <= pos,
    ensures
        tokens_read(
            s,
            lex_from(s, pos, line_col_after(s, 0, pos, 1, 1).0, line_col_after(s, 0, pos, 1, 1).1).0,
            pos,
        ),
    decreases s.len() - pos,
{
    let (line, col) = line_col_after(s, 0, pos, 1, 1);
    if pos < s.len() {
        let st = lex_step(s, pos, line, col);
        lemma_step_progress(s, pos, line, col);
        let (l2, c2) = line_col_after(s, pos, st.end, line, col);
        lemma_line_col_concat(s, 0, pos, st.end, 1, 1);
        assert(line_col_after(s, 0, st.end, 1, 1) == (l2, c2));
        lemma_tokens_read_from(s, st.end);
        lemma_lex_ends_with_eof(s, st.end, l2, c2);
        let rest = lex_from(s, st.end, l2, c2).0;
        let all = lex_from(s, pos, line, col).0;
        assert(all == opt_seq(st.token) + rest);
        if st.token is Some {
            let t = st.token.unwrap();
            assert(read_at(s, t, pos)) by {
                let c = s[pos];
                if c == '"' {
                    lemma_find_char(s, pos + 1, '"');
                    assert(t.value =~= s.subrange(pos + 1, pos + 1 + t.value.len()));
                } else {
                    assert(t.value =~= s.subrange(pos, pos + t.value.len()));
                }
            }
            assert forall|i: int| 0 <= i < all.len() - 1 implies #[trigger] read_after(s, all[i], pos) by {
                if i == 0 {
                    assert(all[0] == t);
                } else {
                    assert(all[i] == rest[i - 1]);
                    assert(read_after(s, rest[i - 1], st.end));
                    let p = choose|p: int| st.end <= p && #[trigger] read_at(s, rest[i - 1], p);
                    assert(read_at(s, all[i], p));
                }
            }
            assert(tokens_read(s, all, pos));
        } else {
            assert(all =~= rest);
            assert forall|i: int| 0 <= i < all.len() - 1 implies #[trigger] read_after(s, all[i], pos) by {
                assert(read_after(s, rest[i], st.end));
                let p = choose|p: int| st.end <= p && #[trigger] read_at(s, rest[i], p);
                assert(read_at(s, all[i], p));
            }
            assert(tokens_read(s, all, pos));
        }
        assert(tokens_read(s, all, pos));
    }
}

/// Every token but the final `EOF` was read from a position of the source:
/// it carries the line and column of its first character, and its text is
/// the source text there.
pub proof fn law_tokens_read_from_source(s: Seq<char>)
    ensures
        tokens_read(s, lex_tokens(s), 0),
{
    lemma_tokens_read_from(s, 0);
    assert(line_col_after(s, 0, 0, 1, 1) == (1int, 1int));
}

// ---------------------------------------------------------------------------
// The lexer
// ---------------------------------------------------------------------------

/// A hand-written lexer over the characters of a source text.
pub struct Lexer {
    source: Vec<char>,
    position: usize,
    line: usize,
    column: usize,
    problems: Vec<LexError>,
}

/// The state of a lexer: the source characters, the index of the next
/// character, its line and column, and the problems reported so far.
pub struct LexerView {
    pub source: Seq<char>,
    pub position: int,
    pub line: int,
    pub column: int,
    pub problems: Seq<LexError>,
}

impl View for Lexer {
    type V = LexerView;

    closed spec fn view(&self) -> LexerView {
        LexerView {
            source: self.source@,
            position: self.position as int,
            line: self.line as int,
            column: self.column as int,
            problems: self.problems@,
        }
    }
}

impl Lexer {
    /// The lexer's internal consistency: the position lies within the
    /// source, and line and column are at least 1 and at most one more than
    /// the position.
    pub closed spec fn wf(&self) -> bool {
        &&& self.source@.len() < usize::MAX
        &&& self.position <= self.source@.len()
        &&& 1 <= self.line <= self.position + 1
        &&& 1 <= self.column <= self.position + 1
    }

    /// A lexer at the start of `source`.
    pub fn new(source: String) -> (lexer: Lexer)
        requires
            source@.len() < usize::MAX,
        ensures
            lexer.wf(),
            lexer@.source == source@,
            lexer@.position == 0,
            lexer@.line == 1,
            lexer@.column == 1,
            lexer@.problems == Seq::<LexError>::empty(),
    {
        let chars = crate::literal::chars_of(source.as_str());
        Lexer { source: chars, position: 0, line: 1, column: 1, problems: Vec::new() }
    }

    /// The problems reported so far, in the order they were found.
    pub fn problems(&self) -> (r: &Vec<LexError>)
        ensures
            r@ == self@.problems,
    {
        &self.problems
    }

    fn peek(&self) -> (r: Option<char>)
        requires
            self.wf(),
        ensures
            self.position < self.source@.len() ==> r == Some(self.source@[self.position as int]),
            self.position >= self.source@.len() ==> r is None,
    {
        if self.position < self.source.len() {
            Some(self.source[self.position])
        } else {
            None
        }
    }

    fn peek_next(&self) -> (r: Option<char>)
        requires
            self.wf(),
        ensures
            self.position + 1 < self.source@.len() ==> r == Some(self.source@[self.position + 1]),
            self.position + 1 >= self.source@.len() ==> r is None,
    {
        if self.position < self.source.len() && self.position + 1 < self.source.len() {
            Some(self.source[self.position + 1])
        } else {
            None
        }
    }

    fn advance(&mut self) -> (r: Option<char>)
        requires
            old(self).wf(),
        ensures
            final(self).wf(),
            final(self).source == old(self).source,
            final(self).problems == old(self).problems,
            old(self).position < old(self).source@.len() ==> {
                &&& r == Some(old(self).source@[old(self).position as int])
                &&& final(self).position == old(self).position + 1
                &&& (final(self).line as int, final(self).column as int) == next_line_col(
                    old(self).source@[old(self).position as int],
                    old(self).line as int,
                    old(self).column as int,
                )
            },
            old(self).position >= old(self).source@.len() ==> r is None && *final(self) == *old(self),
    {
        if self.position < self.source.len() {
            let current = self.source[self.position];
            self.position = self.position + 1;
            if current == '\n' {
                self.line = self.line + 1;
                self.column = 1;
            } else {
                self.column = self.column + 1;
            }
            Some(current)
        } else {
            None
        }
    }
}


pub open spec fn opt_token_view(t: Option<Token>) -> Option<TokenView> {
    match t {
        Some(t) => Some(t@),
        None => None,
    }
}

/// Exec counterpart of `two_char_kind`.
fn two_char_kind_of(c: char, d: char) -> (r: Option<TokenKind>)
    ensures
        r == two_char_kind(c, d),
{
    if c == '=' && d == '=' {
        Some(TokenKind::DoubleEquals)
    } else if c == '!' && d == '!' {
        Some(TokenKind::DoubleBang)
    } else if c == '!' && d == '=' {
        Some(TokenKind::NotEquals)
    } else if c == '.' && d == '.' {
        Some(TokenKind::DotDot)
    } else if c == '-' && d == '>' {
        Some(TokenKind::Arrow)
    } else if c == '~' && d == '>' {
        Some(TokenKind::PipeArrow)
    } else if c == '<' && d == '=' {
        Some(TokenKind::LessEqual)
    } else if c == '>' && d == '>' {
        Some(TokenKind::PipeLine)
    } else if c == '>' && d == '=' {
        Some(TokenKind::GreaterEquals)
    } else if c == '&' && d == '&' {
        Some(TokenKind::And)
    } else if c == '|' && d == '|' {
        Some(TokenKind::Or)
    } else {
        None
    }
}

/// Exec counterpart of `one_char_kind`.
fn one_char_kind_of(c: char) -> (r: Option<TokenKind>)
    ensures
        r == one_char_kind(c),
{
    if c == '=' {
        Some(TokenKind::Equals)
    } else if c == ':' {
        Some(TokenKind::Colon)
    } else if c == ';' {
        Some(TokenKind::Semicolon)
    } else if c == '(' {
        Some(TokenKind::LeftParen)
    } else if c == ')' {
        Some(TokenKind::RightParen)
    } else if c == '{' {
        Some(TokenKind::LeftBrace)
    } else if c == '}' {
        Some(TokenKind::RightBrace)
    } else if c == '[' {
        Some(TokenKind::LeftBracket)
    } else if c == ']' {
        Some(TokenKind::RightBracket)
    } else if c == '?' {
        Some(TokenKind::Question)
    } else if c == '!' {
        Some(TokenKind::Bang)
    } else if c == '@' {
        Some(TokenKind::At)
    } else if c == '.' {
        Some(TokenKind::Dot)
    } else if c == '+' {
        Some(TokenKind::Plus)
    } else if c == '-' {
        Some(TokenKind::Minus)
    } else if c == '*' {
        Some(TokenKind::Star)
    } else if c == '/' {
        Some(TokenKind::Slash)
    } else if c == '^' {
        Some(TokenKind::Caret)
    } else if c == '%' {
        Some(TokenKind::Percent)
    } else if c == '<' {
        Some(TokenKind::LeftAngle)
    } else if c == '>' {
        Some(TokenKind::RightAngle)
    } else if c == ',' {
        Some(TokenKind::Comma)
    } else if c == '|' {
        Some(TokenKind::Pipe)
    } else {
        None
    }
}

impl Lexer {
    /// `after` is this lexer once the lexeme that starts at `self`'s
    /// position has been read, yielding `tok`.
    closed spec fn lexeme_read(&self, after: &Lexer, tok: Option<Token>) -> bool {
        let s = self.source@;
        let st = lex_step(s, self.position as int, self.line as int, self.column as int);
        &&& after.wf()
        &&& after.source@ == s
        &&& after.position == st.end
        &&& (after.line as int, after.column as int) == line_col_after(
            s,
            self.position as int,
            st.end,
            self.line as int,
            self.column as int,
        )
        &&& after.problems@ == self.problems@ + opt_seq(st.problem)
        &&& opt_token_view(tok) == st.token
    }

    /// The source text between `start` and `end`.
    fn text(&self, start: usize, end: usize) -> (r: String)
        requires
            start <= end <= self.source@.len(),
        ensures
            r@ == self.source@.subrange(start as int, end as int),
    {
        let mut r = String::new();
        let mut i = start;
        while i < end
            invariant
                start <= i <= end <= self.source@.len(),
                r@ == self.source@.subrange(start as int, i as int),
            decreases end - i,
        {
            push_char(&mut r, self.source[i]);
            i = i + 1;
            assert(r@ =~= self.source@.subrange(start as int, i as int));
        }
        r
    }

    /// Whether the source text between `start` and `end` is `w`.
    fn text_is(&self, start: usize, end: usize, w: &str) -> (b: bool)
        requires
            start <= end <= self.source@.len(),
        ensures
            b == (self.source@.subrange(start as int, end as int) == w@),
    {
        let n = w.unicode_len();
        if end - start != n {
            return false;
        }
        let mut i: usize = 0;
        while i < n
            invariant
                n == w@.len(),
                end - start == n,
                start <= end <= self.source@.len(),
                i <= n,
                forall|j: int| 0 <= j < i ==> self.source@[start + j] == w@[j],
            decreases n - i,
        {
            if self.source[start + i] != w.get_char(i) {
                assert(self.source@.subrange(start as int, end as int)[i as int] != w@[i as int]);
                return false;
            }
            i = i + 1;
        }
        assert(self.source@.subrange(start as int, end as int) =~= w@);
        true
    }

    /// The kind of the word between `start` and `end`.
    fn word_kind(&self, start: usize, end: usize) -> (k: TokenKind)
        requires
            start <= end <= self.source@.len(),
        ensures
            k == keyword_kind(self.source@.subrange(start as int, end as int)),
    {
        if self.text_is(start, end, "mut") {
            TokenKind::Mut
        } else if self.text_is(start, end, "if") {
            TokenKind::If
        } else if self.text_is(start, end, "else") {
            TokenKind::Else
        } else if self.text_is(start, end, "in") {
            TokenKind::In
        } else if self.text_is(start, end, "then") {
            TokenKind::Then
        } else if self.text_is(start, end, "struct") {
            TokenKind::Struct
        } else if self.text_is(start, end, "error") {
            TokenKind::Error
        } else if self.text_is(start, end, "int") {
            TokenKind::IntType
        } else if self.text_is(start, end, "flt") {
            TokenKind::FltType
        } else if self.text_is(start, end, "str") {
            TokenKind::StrType
        } else if self.text_is(start, end, "bool") {
            TokenKind::BoolType
        } else if self.text_is(start, end, "abyss") {
            TokenKind::AbyssType
        } else if self.text_is(start, end, "true") {
            TokenKind::True
        } else if self.text_is(start, end, "false") {
            TokenKind::False
        } else if self.text_is(start, end, "I") {
            TokenKind::I
        } else if self.text_is(start, end, "_") {
            TokenKind::Underscore
        } else if self.text_is(start, end, "band") {
            TokenKind::Band
        } else if self.text_is(start, end, "bor") {
            TokenKind::Bor
        } else if self.text_is(start, end, "bxor") {
            TokenKind::Bxor
        } else if self.text_is(start, end, "bnot") {
            TokenKind::Bnot
        } else {
            TokenKind::Identifier
        }
    }

    /// Reads a string literal; the lexer stands on its opening quote.
    fn lex_string(&mut self) -> (tok: Option<Token>)
        requires
            old(self).wf(),
            old(self).position < old(self).source@.len(),
            old(self).source@[old(self).position as int] == '"',
        ensures
            old(self).lexeme_read(final(self), tok),
    {
        let ghost s = self.source@;
        let ghost p0 = self.position as int;
        let ghost l0 = self.line as int;
        let ghost c0 = self.column as int;
        let line = self.line;
        let column = self.column;
        self.advance();
        proof {
            lemma_line_col_step(s, p0, p0, l0, c0);
        }
        let start = self.position;
        loop
            invariant
                self.wf(),
                self.source@ == s,
                self.problems == old(self).problems,
                p0 + 1 == start,
                p0 == old(self).position,
                l0 == old(self).line,
                c0 == old(self).column,
                s == old(self).source@,
                p0 < s.len(),
                s[p0] == '"',
                line == l0,
                column == c0,
                start <= self.position <= s.len(),
                find_char(s, start as int, '"') == find_char(s, self.position as int, '"'),
                (self.line as int, self.column as int) == line_col_after(s, p0, self.position as int, l0, c0),
            ensures
                self.wf(),
                self.source@ == s,
                self.problems == old(self).problems,
                self.position == s.len(),
                find_char(s, start as int, '"') == s.len(),
                (self.line as int, self.column as int) == line_col_after(s, p0, self.position as int, l0, c0),
            decreases s.len() - self.position,
        {
            match self.peek() {
                Some(c) => {
                    if c == '"' {
                        let end = self.position;
                        self.advance();
                        proof {
                            lemma_line_col_step(s, p0, end as int, l0, c0);
                        }
                        let text = self.text(start, end);
                        let tok = Token { kind: TokenKind::StrLiteral, value: text, line, column };
                        proof {
                            let st = lex_step(s, p0, l0, c0);
                            assert(find_char(s, end as int, '"') == end);
                            assert(opt_token_view(Some(tok)) == st.token);
                            assert(self.problems@ == old(self).problems@ + opt_seq(st.problem));
                        }
                        return Some(tok);
                    } else {
                        self.advance();
                        proof {
                            lemma_line_col_step(s, p0, self.position - 1, l0, c0);
                        }
                    }
                },
                None => {
                    break;
                },
            }
        }
        self.problems.push(LexError::UnterminatedString { line, column });
        proof {
            let st = lex_step(s, p0, l0, c0);
            assert(st.end == self.position);
            assert(st.token is None);
            assert(self.problems@ == old(self).problems@ + opt_seq(st.problem));
        }
        None
    }

    /// Skips a comment; the lexer stands on its `#`.
    fn skip_comment(&mut self)
        requires
            old(self).wf(),
            old(self).position < old(self).source@.len(),
            old(self).source@[old(self).position as int] == '#',
        ensures
            old(self).lexeme_read(final(self), None),
    {
        let ghost s = self.source@;
        let ghost p0 = self.position as int;
        let ghost l0 = self.line as int;
        let ghost c0 = self.column as int;
        if self.peek_next() == Some('-') {
            self.advance();
            proof {
                lemma_line_col_step(s, p0, p0, l0, c0);
            }
            self.advance();
            proof {
                lemma_line_col_step(s, p0, p0 + 1, l0, c0);
            }
            loop
                invariant_except_break
                    block_comment_end(s, p0 + 2) == block_comment_end(s, self.position as int),
                invariant
                    self.wf(),
                    self.source@ == s,
                    self.problems == old(self).problems,
                    p0 + 2 <= self.position <= s.len(),
                    (self.line as int, self.column as int) == line_col_after(s, p0, self.position as int, l0, c0),
                ensures
                    self.position == block_comment_end(s, p0 + 2),
                decreases s.len() - self.position,
            {
                match self.peek() {
                    Some(c) => {
                        if c == '-' && self.peek_next() == Some('#') {
                            self.advance();
                            proof {
                                lemma_line_col_step(s, p0, self.position - 1, l0, c0);
                            }
                            self.advance();
                            proof {
                                lemma_line_col_step(s, p0, self.position - 1, l0, c0);
                            }
                            break;
                        }
                        self.advance();
                        proof {
                            lemma_line_col_step(s, p0, self.position - 1, l0, c0);
                        }
                    },
                    None => {
                        break;
                    },
                }
            }
        } else {
            loop
                invariant
                    self.wf(),
                    self.source@ == s,
                    self.problems == old(self).problems,
                    p0 <= self.position <= s.len(),
                    find_char(s, p0, '\n') == find_char(s, self.position as int, '\n'),
                    (self.line as int, self.column as int) == line_col_after(s, p0, self.position as int, l0, c0),
                ensures
                    self.wf(),
                    self.source@ == s,
                    self.problems == old(self).problems,
                    self.position == find_char(s, p0, '\n'),
                    (self.line as int, self.column as int) == line_col_after(s, p0, self.position as int, l0, c0),
                decreases s.len() - self.position,
            {
                match self.peek() {
                    Some(c) => {
                        if c == '\n' {
                            break;
                        }
                        self.advance();
                        proof {
                            lemma_line_col_step(s, p0, self.position - 1, l0, c0);
                        }
                    },
                    None => {
                        break;
                    },
                }
            }
        }
    }

    /// Reads the digits at the lexer's position.
    fn skip_digits(&mut self)
        requires
            old(self).wf(),
        ensures
            final(self).wf(),
            final(self).source == old(self).source,
            final(self).problems == old(self).problems,
            old(self).position <= final(self).position,
            final(self).position == digits_end(old(self).source@, old(self).position as int),
            (final(self).line as int, final(self).column as int) == line_col_after(
                old(self).source@,
                old(self).position as int,
                final(self).position as int,
                old(self).line as int,
                old(self).column as int,
            ),
    {
        let ghost s = self.source@;
        let ghost p0 = self.position as int;
        let ghost l0 = self.line as int;
        let ghost c0 = self.column as int;
        proof {
            lemma_line_col_base(s, p0, l0, c0);
        }
        loop
            invariant
                self.wf(),
                self.source@ == s,
                self.source == old(self).source,
                self.problems == old(self).problems,
                p0 <= self.position <= s.len(),
                digits_end(s, p0) == digits_end(s, self.position as int),
                (self.line as int, self.column as int) == line_col_after(s, p0, self.position as int, l0, c0),
            ensures
                self.wf(),
                self.source == old(self).source,
                self.problems == old(self).problems,
                p0 <= self.position,
                self.position == digits_end(s, p0),
                (self.line as int, self.column as int) == line_col_after(s, p0, self.position as int, l0, c0),
            decreases s.len() - self.position,
        {
            match self.peek() {
                Some(c) => {
                    if '0' <= c && c <= '9' {
                        self.advance();
                        proof {
                            lemma_line_col_step(s, p0, self.position - 1, l0, c0);
                        }
                    } else {
                        break;
                    }
                },
                None => {
                    break;
                },
            }
        }
    }

    /// Reads an integer or float literal; the lexer stands on its first digit.
    fn lex_number(&mut self) -> (tok: Token)
        requires
            old(self).wf(),
            old(self).position < old(self).source@.len(),
            is_digit(old(self).source@[old(self).position as int]),
        ensures
            old(self).lexeme_read(final(self), Some(tok)),
    {
        let ghost s = self.source@;
        let ghost p0 = self.position as int;
        let ghost l0 = self.line as int;
        let ghost c0 = self.column as int;
        let start = self.position;
        let line = self.line;
        let column = self.column;
        self.skip_digits();
        proof {
            lemma_digits_end(s, p0);
        }
        let is_float = self.peek() == Some('.') && match self.peek_next() {
            Some(d) => '0' <= d && d <= '9',
            None => false,
        };
        if is_float {
            let ghost p1 = self.position as int;
            self.advance();
            proof {
                lemma_line_col_step(s, p0, p1, l0, c0);
            }
            let ghost l2 = self.line as int;
            let ghost c2 = self.column as int;
            self.skip_digits();
            proof {
                lemma_digits_end(s, p1 + 1);
                lemma_line_col_concat(s, p0, p1 + 1, self.position as int, l0, c0);
            }
        }
        let value = self.text(start, self.position);
        let kind = if is_float {
            TokenKind::FltLiteral
        } else {
            TokenKind::IntLiteral
        };
        Token { kind, value, line, column }
    }

    /// Reads a word: an identifier or a keyword; the lexer stands on its
    /// first character.
    fn lex_word(&mut self) -> (tok: Token)
        requires
            old(self).wf(),
            old(self).position < old(self).source@.len(),
            is_word_start(old(self).source@[old(self).position as int]),
        ensures
            old(self).lexeme_read(final(self), Some(tok)),
    {
        let ghost s = self.source@;
        let ghost p0 = self.position as int;
        let ghost l0 = self.line as int;
        let ghost c0 = self.column as int;
        let start = self.position;
        let line = self.line;
        let column = self.column;
        proof {
            lemma_line_col_base(s, p0, l0, c0);
        }
        loop
            invariant
                self.wf(),
                self.source@ == s,
                self.problems == old(self).problems,
                p0 == start,
                p0 < s.len(),
                is_word_start(s[p0]),
                p0 <= self.position <= s.len(),
                self.position == p0 || word_end(s, p0 + 1) == word_end(s, self.position as int),
                (self.line as int, self.column as int) == line_col_after(s, p0, self.position as int, l0, c0),
            ensures
                self.wf(),
                self.source@ == s,
                self.problems == old(self).problems,
                p0 < self.position <= s.len(),
                self.position == word_end(s, p0 + 1),
                (self.line as int, self.column as int) == line_col_after(s, p0, self.position as int, l0, c0),
            decreases s.len() - self.position,
        {
            match self.peek() {
                Some(c) => {
                    if char_is_alphanumeric(c) || c == '_' {
                        self.advance();
                        proof {
                            lemma_line_col_step(s, p0, self.position - 1, l0, c0);
                        }
                    } else {
                        break;
                    }
                },
                None => {
                    break;
                },
            }
        }
        let kind = self.word_kind(start, self.position);
        let value = self.text(start, self.position);
        Token { kind, value, line, column }
    }

    /// Reads an operator or punctuation token, or reports the character
    /// as unexpected.
    fn lex_symbol(&mut self, c: char) -> (tok: Option<Token>)
        requires
            old(self).wf(),
            old(self).position < old(self).source@.len(),
            c == old(self).source@[old(self).position as int],
            !is_blank(c),
            c != '"',
            c != '#',
            !is_digit(c),
            !is_word_start(c),
        ensures
            old(self).lexeme_read(final(self), tok),
    {
        let ghost s = self.source@;
        let ghost p0 = self.position as int;
        let ghost l0 = self.line as int;
        let ghost c0 = self.column as int;
        let start = self.position;
        let line = self.line;
        let column = self.column;
        if let Some(d) = self.peek_next() {
            if let Some(kind) = two_char_kind_of(c, d) {
                self.advance();
                self.advance();
                proof {
                    lemma_line_col_step(s, p0, p0, l0, c0);
                    lemma_line_col_step(s, p0, p0 + 1, l0, c0);
                }
                let value = self.text(start, start + 2);
                return Some(Token { kind, value, line, column });
            }
        }
        proof {
            lemma_line_col_step(s, p0, p0, l0, c0);
        }
        if let Some(kind) = one_char_kind_of(c) {
            self.advance();
            let value = self.text(start, start + 1);
            let tok = Token { kind, value, line, column };
            proof {
                let st = lex_step(s, p0, l0, c0);
                assert(opt_token_view(Some(tok)) == st.token);
                assert(self.problems@ == old(self).problems@ + opt_seq(st.problem));
            }
            Some(tok)
        } else {
            self.advance();
            self.problems.push(LexError::UnexpectedChar { ch: c, line, column });
            proof {
                let st = lex_step(s, p0, l0, c0);
                assert(self.problems@ =~= old(self).problems@ + opt_seq(st.problem));
            }
            None
        }
    }

    /// Reads the lexeme that starts at the lexer's position, whose first
    /// character is `c`.
    fn next_lexeme(&mut self, c: char) -> (tok: Option<Token>)
        requires
            old(self).wf(),
            old(self).position < old(self).source@.len(),
            c == old(self).source@[old(self).position as int],
        ensures
            old(self).lexeme_read(final(self), tok),
    {
        if c == ' ' || c == '\t' || c == '\r' || c == '\n' {
            self.advance();
            proof {
                lemma_line_col_step(self.source@, old(self).position as int, old(self).position as int, old(self).line as int, old(self).column as int);
            }
            None
        } else if c == '"' {
            self.lex_string()
        } else if c == '#' {
            self.skip_comment();
            None
        } else if '0' <= c && c <= '9' {
            Some(self.lex_number())
        } else if ('a' <= c && c <= 'z') || ('A' <= c && c <= 'Z') || c == '_' {
            Some(self.lex_word())
        } else {
            self.lex_symbol(c)
        }
    }

    /// Reads the rest of the source into tokens, ending with an `EOF` token
    /// at the end of the source. Comments and white space yield no token;
    /// each problem found is added to `problems`.
    pub fn tokenize(&mut self) -> (tokens: Vec<Token>)
        requires
            old(self).wf(),
        ensures
            final(self).wf(),
            final(self)@.source == old(self)@.source,
            final(self)@.position == old(self)@.source.len(),
            token_views(tokens@) == lex_from(
                old(self)@.source,
                old(self)@.position,
                old(self)@.line,
                old(self)@.column,
            ).0,
            final(self)@.problems == old(self)@.problems + lex_from(
                old(self)@.source,
                old(self)@.position,
                old(self)@.line,
                old(self)@.column,
            ).1,
            tokens@.len() >= 1,
            tokens@.last().kind == TokenKind::EOF,
            forall|i: int| 0 <= i < tokens@.len() - 1 ==> (#[trigger] tokens@[i]).kind != TokenKind::EOF,
    {
        let ghost s = self.source@;
        proof {
            lemma_lex_ends_with_eof(s, self.position as int, self.line as int, self.column as int);
        }
        let ghost start = lex_from(s, self.position as int, self.line as int, self.column as int);
        let mut tokens: Vec<Token> = Vec::new();
        loop
            invariant
                self.wf(),
                self.source@ == s,
                start.0 == token_views(tokens@) + lex_from(
                    s,
                    self.position as int,
                    self.line as int,
                    self.column as int,
                ).0,
                old(self).problems@ + start.1 == self.problems@ + lex_from(
                    s,
                    self.position as int,
                    self.line as int,
                    self.column as int,
                ).1,
            ensures
                self.wf(),
                self.source@ == s,
                self.position == s.len(),
                start.0 == token_views(tokens@) + lex_from(
                    s,
                    self.position as int,
                    self.line as int,
                    self.column as int,
                ).0,
                old(self).problems@ + start.1 == self.problems@ + lex_from(
                    s,
                    self.position as int,
                    self.line as int,
                    self.column as int,
                ).1,
            decreases s.len() - self.position,
        {
            match self.peek() {
                Some(c) => {
                    let ghost before = *self;
                    let ghost seen = tokens@;
                    let tok = self.next_lexeme(c);
                    proof {
                        lemma_step_progress(s, before.position as int, before.line as int, before.column as int);
                    }
                    match tok {
                        Some(t) => {
                            tokens.push(t);
                            assert(token_views(tokens@) =~= token_views(seen) + seq![t@]);
                        },
                        None => {},
                    }
                    assert(old(self).problems@ + start.1 =~= self.problems@ + lex_from(
                        s,
                        self.position as int,
                        self.line as int,
                        self.column as int,
                    ).1);
                    assert(start.0 =~= token_views(tokens@) + lex_from(
                        s,
                        self.position as int,
                        self.line as int,
                        self.column as int,
                    ).0);
                },
                None => {
                    break;
                },
            }
        }
        let ghost seen = tokens@;
        tokens.push(Token { kind: TokenKind::EOF, value: String::new(), line: self.line, column: self.column });
        assert(token_views(tokens@) =~= token_views(seen) + lex_from(
            s,
            self.position as int,
            self.line as int,
            self.column as int,
        ).0);
        assert(self.problems@ =~= self.problems@ + lex_from(
            s,
            self.position as int,
            self.line as int,
            self.column as int,
        ).1);
        proof {
            assert forall|i: int| 0 <= i < tokens@.len() implies (#[trigger] tokens@[i]).kind == token_views(
                tokens@,
            )[i].kind by {}
        }
        tokens
    }
}

proof fn lemma_line_col_base(s: Seq<char>, a: int, line: int, col: int)
    ensures
        line_col_after(s, a, a, line, col) == (line, col),
{
}

proof fn lemma_line_col_step(s: Seq<char>, a: int, b: int, line: int, col: int)
    requires
        a <= b,
    ensures
        line_col_after(s, a, b + 1, line, col) == next_line_col(
            s[b],
            line_col_after(s, a, b, line, col).0,
            line_col_after(s, a, b, line, col).1,
        ),
{
    assert(line_col_after(s, a, a, line, col) == (line, col));
}

proof fn lemma_line_col_concat(s: Seq<char>, a: int, b: int, c: int, line: int, col: int)
    requires
        a <= b <= c,
    ensures
        line_col_after(s, a, c, line, col) == line_col_after(
            s,
            b,
            c,
            line_col_after(s, a, b, line, col).0,
            line_col_after(s, a, b, line, col).1,
        ),
    decreases c - b,
{
    if c > b {
        lemma_line_col_concat(s, a, b, c - 1, line, col);
    }
}

} // verus!
