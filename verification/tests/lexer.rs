use dex::lexer::{LexError, Lexer};
use dex::token::{Token, TokenKind};

fn lex(src: &str) -> (Vec<Token>, Vec<LexError>) {
    let mut lexer = Lexer::new(src.to_string());
    let tokens = lexer.tokenize();
    let problems = lexer.problems().clone();
    (tokens, problems)
}

fn kinds(tokens: &[Token]) -> Vec<TokenKind> {
    tokens.iter().map(|t| t.kind).collect()
}

fn values(tokens: &[Token]) -> Vec<String> {
    tokens.iter().map(|t| t.value.clone()).collect()
}

#[test]
fn lexes_a_binding_with_positions() {
    let (tokens, problems) = lex("x = 10");
    assert!(problems.is_empty());
    assert_eq!(
        kinds(&tokens),
        vec![TokenKind::Identifier, TokenKind::Equals, TokenKind::IntLiteral, TokenKind::EOF]
    );
    assert_eq!(values(&tokens), vec!["x", "=", "10", ""]);
    let positions: Vec<(usize, usize)> = tokens.iter().map(|t| (t.line, t.column)).collect();
    assert_eq!(positions, vec![(1, 1), (1, 3), (1, 5), (1, 7)]);
}

#[test]
fn empty_source_gives_only_eof() {
    let (tokens, problems) = lex("");
    assert!(problems.is_empty());
    assert_eq!(kinds(&tokens), vec![TokenKind::EOF]);
    assert_eq!((tokens[0].line, tokens[0].column), (1, 1));
}

#[test]
fn keywords_are_recognised() {
    let (tokens, _) =
        lex("mut if else in then struct error int flt str bool abyss true false I _ band bor bxor bnot when foo");
    assert_eq!(
        kinds(&tokens),
        vec![
            TokenKind::Mut,
            TokenKind::If,
            TokenKind::Else,
            TokenKind::In,
            TokenKind::Then,
            TokenKind::Struct,
            TokenKind::Error,
            TokenKind::IntType,
            TokenKind::FltType,
            TokenKind::StrType,
            TokenKind::BoolType,
            TokenKind::AbyssType,
            TokenKind::True,
            TokenKind::False,
            TokenKind::I,
            TokenKind::Underscore,
            TokenKind::Band,
            TokenKind::Bor,
            TokenKind::Bxor,
            TokenKind::Bnot,
            TokenKind::Identifier,
            TokenKind::Identifier,
            TokenKind::EOF,
        ]
    );
}

#[test]
fn two_character_operators_are_munched_whole() {
    let (tokens, problems) = lex("== != !! .. -> ~> <= >= >> && ||");
    assert!(problems.is_empty());
    assert_eq!(
        kinds(&tokens),
        vec![
            TokenKind::DoubleEquals,
            TokenKind::NotEquals,
            TokenKind::DoubleBang,
            TokenKind::DotDot,
            TokenKind::Arrow,
            TokenKind::PipeArrow,
            TokenKind::LessEqual,
            TokenKind::GreaterEquals,
            TokenKind::PipeLine,
            TokenKind::And,
            TokenKind::Or,
            TokenKind::EOF,
        ]
    );
    assert_eq!(values(&tokens)[4], "->");
}

#[test]
fn single_character_tokens() {
    let (tokens, problems) = lex("= : ; ( ) { } [ ] ? ! @ . + - * / ^ % < > , |");
    assert!(problems.is_empty());
    assert_eq!(
        kinds(&tokens),
        vec![
            TokenKind::Equals,
            TokenKind::Colon,
            TokenKind::Semicolon,
            TokenKind::LeftParen,
            TokenKind::RightParen,
            TokenKind::LeftBrace,
            TokenKind::RightBrace,
            TokenKind::LeftBracket,
            TokenKind::RightBracket,
            TokenKind::Question,
            TokenKind::Bang,
            TokenKind::At,
            TokenKind::Dot,
            TokenKind::Plus,
            TokenKind::Minus,
            TokenKind::Star,
            TokenKind::Slash,
            TokenKind::Caret,
            TokenKind::Percent,
            TokenKind::LeftAngle,
            TokenKind::RightAngle,
            TokenKind::Comma,
            TokenKind::Pipe,
            TokenKind::EOF,
        ]
    );
}

#[test]
fn numbers_integers_and_floats() {
    let (tokens, _) = lex("3.14 3. 3..4 42");
    assert_eq!(
        kinds(&tokens),
        vec![
            TokenKind::FltLiteral,
            TokenKind::IntLiteral,
            TokenKind::Dot,
            TokenKind::IntLiteral,
            TokenKind::DotDot,
            TokenKind::IntLiteral,
            TokenKind::IntLiteral,
            TokenKind::EOF,
        ]
    );
    assert_eq!(values(&tokens), vec!["3.14", "3", ".", "3", "..", "4", "42", ""]);
}

#[test]
fn string_literal_drops_its_quotes() {
    let (tokens, problems) = lex("s = \"hello world\"");
    assert!(problems.is_empty());
    assert_eq!(tokens[2].kind, TokenKind::StrLiteral);
    assert_eq!(tokens[2].value, "hello world");
    assert_eq!((tokens[2].line, tokens[2].column), (1, 5));
}

#[test]
fn unterminated_string_is_reported_and_consumes_the_rest() {
    let (tokens, problems) = lex("x \"abc\ndef");
    assert_eq!(kinds(&tokens), vec![TokenKind::Identifier, TokenKind::EOF]);
    assert_eq!(problems, vec![LexError::UnterminatedString { line: 1, column: 3 }]);
    assert_eq!((tokens[1].line, tokens[1].column), (2, 4));
}

#[test]
fn line_comment_is_discarded() {
    let (tokens, _) = lex("x # a comment\ny");
    assert_eq!(kinds(&tokens), vec![TokenKind::Identifier, TokenKind::Identifier, TokenKind::EOF]);
    assert_eq!((tokens[1].line, tokens[1].column), (2, 1));
    assert_eq!((tokens[2].line, tokens[2].column), (2, 2));
}

#[test]
fn block_comment_is_discarded() {
    let (tokens, _) = lex("a #- multi\nline -# b");
    assert_eq!(values(&tokens), vec!["a", "b", ""]);
    assert_eq!((tokens[1].line, tokens[1].column), (2, 9));
}

#[test]
fn unclosed_block_comment_runs_to_the_end() {
    let (tokens, problems) = lex("a #- never closed b");
    assert!(problems.is_empty());
    assert_eq!(values(&tokens), vec!["a", ""]);
}

#[test]
fn unexpected_characters_are_reported_and_skipped() {
    let (tokens, problems) = lex("a $ & ~ b");
    assert_eq!(values(&tokens), vec!["a", "b", ""]);
    assert_eq!(
        problems,
        vec![
            LexError::UnexpectedChar { ch: '$', line: 1, column: 3 },
            LexError::UnexpectedChar { ch: '&', line: 1, column: 5 },
            LexError::UnexpectedChar { ch: '~', line: 1, column: 7 },
        ]
    );
}

#[test]
fn identifiers_continue_with_unicode_letters() {
    let (tokens, _) = lex("caf\u{e9}_1 x");
    assert_eq!(values(&tokens), vec!["caf\u{e9}_1", "x", ""]);
    assert_eq!((tokens[1].line, tokens[1].column), (1, 8));
}

#[test]
fn newline_moves_to_next_line() {
    let (tokens, _) = lex("a\n  b\n");
    assert_eq!((tokens[1].line, tokens[1].column), (2, 3));
    assert_eq!((tokens[2].line, tokens[2].column), (3, 1));
}

#[test]
fn tokenizing_again_gives_only_eof() {
    let mut lexer = Lexer::new("x y".to_string());
    let first = lexer.tokenize();
    assert_eq!(first.len(), 3);
    let second = lexer.tokenize();
    assert_eq!(kinds(&second), vec![TokenKind::EOF]);
    assert_eq!((second[0].line, second[0].column), (1, 4));
}

#[test]
fn token_kind_names() {
    assert_eq!(TokenKind::PipeLine.name(), "PipeLine");
    assert_eq!(TokenKind::EOF.name(), "EOF");
    assert_eq!(TokenKind::RightParen.name(), format!("{:?}", TokenKind::RightParen));
}

#[test]
fn tokens_come_in_source_order() {
    let (tokens, _) = lex("x = 1\n  #- note\n -# y >= \"s t\"\n\n@() f -> int { 2 }");
    assert!(tokens.len() > 5);
    for pair in tokens.windows(2) {
        let (a, b) = (&pair[0], &pair[1]);
        assert!(
            a.line < b.line || (a.line == b.line && a.column < b.column),
            "{:?} does not come before {:?}",
            a,
            b
        );
    }
    assert_eq!(tokens.last().unwrap().kind, TokenKind::EOF);
}

#[test]
fn eof_stands_after_the_source() {
    let (tokens, _) = lex("ab\n\ncd # note");
    let eof = tokens.last().unwrap();
    assert_eq!(eof.kind, TokenKind::EOF);
    assert_eq!(eof.value, "");
    assert_eq!((eof.line, eof.column), (3, 10));
}

#[test]
fn tokens_carry_the_text_at_their_place() {
    let src = "x = \"hi\"\n  total >= 12";
    let (tokens, _) = lex(src);
    let lines: Vec<Vec<char>> = src.split('\n').map(|l| l.chars().collect()).collect();
    for t in &tokens[..tokens.len() - 1] {
        let line = &lines[t.line - 1];
        let from = t.column - 1;
        let text: String = if t.kind == TokenKind::StrLiteral {
            assert_eq!(line[from], '"');
            line[from + 1..from + 1 + t.value.chars().count()].iter().collect()
        } else {
            line[from..from + t.value.chars().count()].iter().collect()
        };
        assert_eq!(text, t.value);
    }
}
