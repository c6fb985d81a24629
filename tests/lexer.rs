use expr_parser::{Lexeme, Lexer, Span, SyntaxKind};

fn range(start: usize, end: usize) -> Span {
    Span { start, end }
}

fn check(input: &str, expected_kind: SyntaxKind) {
    let mut lexer = Lexer::new(input);
    let lexeme = lexer.next().unwrap();
    assert_eq!(lexeme.kind, expected_kind);
    assert_eq!(lexeme.text, input);
}

#[test]
fn lexer_yields_lexemes() {
    let mut lexer = Lexer::new("1 + 2");

    assert_eq!(
        lexer.next(),
        Some(Lexeme { kind: SyntaxKind::Number, text: String::from("1"), range: range(0, 1) }),
    );
    assert_eq!(
        lexer.next(),
        Some(Lexeme { kind: SyntaxKind::Whitespace, text: String::from(" "), range: range(1, 2) }),
    );
    assert_eq!(
        lexer.next(),
        Some(Lexeme { kind: SyntaxKind::Plus, text: String::from("+"), range: range(2, 3) }),
    );
    assert_eq!(
        lexer.next(),
        Some(Lexeme { kind: SyntaxKind::Whitespace, text: String::from(" "), range: range(3, 4) }),
    );
    assert_eq!(
        lexer.next(),
        Some(Lexeme { kind: SyntaxKind::Number, text: String::from("2"), range: range(4, 5) }),
    );
    assert_eq!(lexer.next(), None);
}

#[test]
fn lexes_nothing() {
    assert_eq!(Lexer::new("").next(), None);
}

#[test]
fn lexes_spaces() {
    check("    ", SyntaxKind::Whitespace);
}

#[test]
fn lexes_newlines() {
    check("\n\n", SyntaxKind::Whitespace);
}

#[test]
fn lexes_numbers() {
    check("1234567890", SyntaxKind::Number);
}

#[test]
fn lexes_addition() {
    check("+", SyntaxKind::Plus);
}

#[test]
fn lexes_subtraction() {
    check("-", SyntaxKind::Minus);
}

#[test]
fn lexes_multiplication() {
    check("*", SyntaxKind::Star);
}

#[test]
fn lexes_division() {
    check("/", SyntaxKind::Slash);
}

#[test]
fn each_unknown_character_is_its_own_error_lexeme() {
    let mut lexer = Lexer::new("ab\t");
    let kinds: Vec<(SyntaxKind, String)> =
        std::iter::from_fn(|| lexer.next()).map(|l| (l.kind, l.text)).collect();
    assert_eq!(
        kinds,
        vec![
            (SyntaxKind::Error, String::from("a")),
            (SyntaxKind::Error, String::from("b")),
            (SyntaxKind::Error, String::from("\t")),
        ],
    );
}

#[test]
fn ranges_count_bytes_not_characters() {
    let mut lexer = Lexer::new("é12");
    assert_eq!(
        lexer.next(),
        Some(Lexeme { kind: SyntaxKind::Error, text: String::from("é"), range: range(0, 2) }),
    );
    assert_eq!(
        lexer.next(),
        Some(Lexeme { kind: SyntaxKind::Number, text: String::from("12"), range: range(2, 4) }),
    );
    assert_eq!(lexer.next(), None);
}

#[test]
fn mixed_whitespace_runs_are_one_lexeme() {
    let mut lexer = Lexer::new(" \n \n7");
    let first = lexer.next().unwrap();
    assert_eq!(first.kind, SyntaxKind::Whitespace);
    assert_eq!(first.text, " \n \n");
    assert_eq!(first.range, range(0, 4));
}
