use expr_parser::{SyntaxErrorKind, SyntaxKind};

#[test]
fn expected_with_one_kind_has_no_separators() {
    assert_eq!(
        SyntaxErrorKind::Expected { expected: vec![SyntaxKind::Number] }.message(),
        "expected a number literal",
    );
}

#[test]
fn expected_with_two_kinds_separates_with_or() {
    assert_eq!(
        SyntaxErrorKind::Expected { expected: vec![SyntaxKind::Plus, SyntaxKind::Minus] }
            .message(),
        "expected a plus sign or a minus sign",
    );
}

#[test]
fn expected_with_four_kinds_separates_with_comma_then_or() {
    assert_eq!(
        SyntaxErrorKind::Expected {
            expected: vec![
                SyntaxKind::Plus,
                SyntaxKind::Star,
                SyntaxKind::Slash,
                SyntaxKind::Minus,
            ],
        }
        .message(),
        "expected a plus sign, an asterisk, a slash or a minus sign",
    );
}

#[test]
fn found_expected_with_one_kind_has_no_separators() {
    assert_eq!(
        SyntaxErrorKind::FoundExpected { found: SyntaxKind::Plus, expected: vec![SyntaxKind::Number] }
            .message(),
        "found a plus sign, expected a number literal",
    );
}

#[test]
fn found_expected_with_two_kinds_separates_with_or() {
    assert_eq!(
        SyntaxErrorKind::FoundExpected {
            found: SyntaxKind::Minus,
            expected: vec![SyntaxKind::Number, SyntaxKind::Star],
        }
        .message(),
        "found a minus sign, expected a number literal or an asterisk",
    );
}

#[test]
fn found_expected_with_three_kinds_separates_with_comma_then_or() {
    assert_eq!(
        SyntaxErrorKind::FoundExpected {
            found: SyntaxKind::Slash,
            expected: vec![SyntaxKind::Plus, SyntaxKind::Minus, SyntaxKind::Star],
        }
        .message(),
        "found a slash, expected a plus sign, a minus sign or an asterisk",
    );
}

#[test]
fn phrases_of_every_token_kind() {
    assert_eq!(SyntaxKind::Whitespace.phrase(), "whitespace");
    assert_eq!(SyntaxKind::Error.phrase(), "an erroneous character");
    assert_eq!(SyntaxKind::Number.phrase(), "a number literal");
}

#[test]
fn raw_kinds_round_trip() {
    let kinds = [
        SyntaxKind::Whitespace,
        SyntaxKind::Number,
        SyntaxKind::Plus,
        SyntaxKind::Minus,
        SyntaxKind::Star,
        SyntaxKind::Slash,
        SyntaxKind::Error,
        SyntaxKind::Root,
        SyntaxKind::Operation,
    ];
    for k in kinds {
        assert_eq!(SyntaxKind::from_raw(k.to_raw()), Some(k));
    }
    assert_eq!(SyntaxKind::from_raw(9), None);
}
