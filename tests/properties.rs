use expr_parser::eval::apply;
use expr_parser::{EvalError, Op, Parser, Span, SyntaxError, SyntaxErrorKind, SyntaxKind};

fn eval(input: &str) -> Option<Result<u32, EvalError>> {
    Parser::new(input).parse().eval()
}

fn operators() -> Vec<SyntaxKind> {
    vec![SyntaxKind::Plus, SyntaxKind::Star, SyntaxKind::Slash, SyntaxKind::Minus]
}

#[test]
fn text_of_tree_is_the_input() {
    for input in ["", "   ", "\n", "1+2*3", "abc1", "1 a+ 2", "1+", "+", "é/ 7 ** 3\t", " 14 +26- 27 /  3 * 2 "] {
        assert_eq!(Parser::new(input).parse().text(), input);
    }
}

#[test]
fn precedence_of_multiplication() {
    assert_eq!(eval("1+2*3"), Some(Ok(7)));
}

#[test]
fn subtraction_associates_left() {
    assert_eq!(eval("10-7-3"), Some(Ok(0)));
}

#[test]
fn whitespace_does_not_change_the_value() {
    assert_eq!(eval(" 14 +26- 27 /  3 * 2 "), Some(Ok(22)));
    assert_eq!(eval("14+26-27/3*2"), Some(Ok(22)));
}

#[test]
fn leading_junk_is_reported_per_character() {
    let parse = Parser::new("abc1").parse();
    assert_eq!(parse.eval(), Some(Ok(1)));
    let expected: Vec<SyntaxError> = (0..3)
        .map(|i| SyntaxError {
            kind: SyntaxErrorKind::FoundExpected {
                found: SyntaxKind::Error,
                expected: vec![SyntaxKind::Number],
            },
            range: Span { start: i, end: i + 1 },
        })
        .collect();
    assert_eq!(parse.errors(), expected.as_slice());
}

#[test]
fn interior_junk_is_reported_once() {
    let parse = Parser::new("1 a+ 2").parse();
    assert_eq!(parse.eval(), Some(Ok(3)));
    assert_eq!(
        parse.errors(),
        &[SyntaxError {
            kind: SyntaxErrorKind::FoundExpected { found: SyntaxKind::Error, expected: operators() },
            range: Span { start: 2, end: 3 },
        }],
    );
    assert_eq!(
        parse.errors()[0].message(),
        "found an erroneous character, expected a plus sign, an asterisk, a slash or a minus sign",
    );
}

#[test]
fn incomplete_input_has_no_value() {
    let parse = Parser::new("1+").parse();
    assert_eq!(parse.eval(), None);
    assert_eq!(
        parse.errors(),
        &[SyntaxError {
            kind: SyntaxErrorKind::Expected { expected: vec![SyntaxKind::Number] },
            range: Span { start: 2, end: 2 },
        }],
    );
}

#[test]
fn empty_input_expects_a_number() {
    let parse = Parser::new("").parse();
    assert_eq!(parse.eval(), None);
    assert_eq!(parse.format(), "Root@0..0\n");
    assert_eq!(parse.errors().len(), 1);
    assert_eq!(parse.errors()[0].message(), "expected a number literal");
}

#[test]
fn formatting_twice_gives_the_same_text() {
    let parse = Parser::new(" 1 *x 2-").parse();
    let first = parse.format();
    let second = parse.format();
    assert_eq!(first, second);
}

#[test]
fn division_by_zero_is_reported() {
    assert_eq!(eval("1/0"), Some(Err(EvalError::DivisionByZero)));
}

#[test]
fn overflow_is_reported() {
    assert_eq!(eval("4294967295+1"), Some(Err(EvalError::Overflow)));
    assert_eq!(eval("1-2"), Some(Err(EvalError::Overflow)));
    assert_eq!(eval("65536*65536"), Some(Err(EvalError::Overflow)));
    assert_eq!(eval("4294967296"), Some(Err(EvalError::Overflow)));
    assert_eq!(eval("4294967295"), Some(Ok(4294967295)));
}

#[test]
fn left_failure_comes_before_right() {
    assert_eq!(eval("1/0+1-2"), Some(Err(EvalError::DivisionByZero)));
}

#[test]
fn division_truncates() {
    assert_eq!(eval("7/2"), Some(Ok(3)));
    assert_eq!(eval("2*3/4"), Some(Ok(1)));
}

#[test]
fn binding_powers() {
    assert_eq!(expr_parser::parser::infix_bp(Op::Add), (1, 2));
    assert_eq!(expr_parser::parser::infix_bp(Op::Sub), (1, 2));
    assert_eq!(expr_parser::parser::infix_bp(Op::Mul), (3, 4));
    assert_eq!(expr_parser::parser::infix_bp(Op::Div), (3, 4));
}

#[test]
fn apply_each_operator() {
    assert_eq!(apply(Op::Add, 2, 3), Ok(5));
    assert_eq!(apply(Op::Sub, 5, 3), Ok(2));
    assert_eq!(apply(Op::Mul, 4, 3), Ok(12));
    assert_eq!(apply(Op::Div, 9, 4), Ok(2));
    assert_eq!(apply(Op::Div, 9, 0), Err(EvalError::DivisionByZero));
}

#[test]
fn dump_counts_bytes_and_escapes_text() {
    let parse = Parser::new("é\t\"").parse();
    assert_eq!(
        parse.format(),
        "Root@0..4\n  Error@0..2 \"é\"\n  Error@2..3 \"\\t\"\n  Error@3..4 \"\\\"\"\n",
    );
}

#[test]
fn number_in_operator_position_is_junk() {
    let parse = Parser::new("2 3").parse();
    assert_eq!(parse.eval(), Some(Ok(2)));
    assert_eq!(
        parse.errors(),
        &[SyntaxError {
            kind: SyntaxErrorKind::FoundExpected { found: SyntaxKind::Number, expected: operators() },
            range: Span { start: 2, end: 3 },
        }],
    );
}

#[test]
fn diagnostics_one_per_error() {
    let parse = Parser::new("abc1").parse();
    let diagnostics = parse.diagnostics(());
    assert_eq!(diagnostics.len(), 3);
    assert_eq!(diagnostics[0].labels[0].range, 0..1);
    assert_eq!(diagnostics[0].labels[0].message, "found an erroneous character, expected a number literal");
}

#[test]
fn dump_quotes_control_characters_as_debug_does() {
    let parse = Parser::new("\u{1}").parse();
    assert_eq!(parse.format(), "Root@0..1\n  Error@0..1 \"\\u{1}\"\n");
}

#[test]
fn label_parts_carry_range_and_message() {
    let parse = Parser::new("1+").parse();
    let (range, message) = parse.errors()[0].label_parts();
    assert_eq!(range, Span { start: 2, end: 2 });
    assert_eq!(message, "expected a number literal");
}
