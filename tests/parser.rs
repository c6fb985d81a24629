use expr_parser::Parser;

#[test]
fn parse_single_number() {
    let parse = Parser::new("1").parse();

    assert_eq!(
        parse.format(),
        r#"Root@0..1
  Number@0..1 "1"
"#,
    );
}

#[test]
fn parse_simple_binary_operation() {
    let parse = Parser::new("1+1").parse();

    assert_eq!(
        parse.format(),
        r#"Root@0..3
  Operation@0..3
    Number@0..1 "1"
    Plus@1..2 "+"
    Number@2..3 "1"
"#,
    );
}

#[test]
fn multiplication_has_higher_precedence_than_addition() {
    let parse = Parser::new("1+2*3").parse();

    assert_eq!(
        parse.format(),
        r#"Root@0..5
  Operation@0..5
    Number@0..1 "1"
    Plus@1..2 "+"
    Operation@2..5
      Number@2..3 "2"
      Star@3..4 "*"
      Number@4..5 "3"
"#,
    );
}

#[test]
fn subtraction_is_left_associative() {
    let parse = Parser::new("10-7-3").parse();

    assert_eq!(
        parse.format(),
        r#"Root@0..6
  Operation@0..6
    Operation@0..4
      Number@0..2 "10"
      Minus@2..3 "-"
      Number@3..4 "7"
    Minus@4..5 "-"
    Number@5..6 "3"
"#,
    );
}

#[test]
fn whitespace_is_skipped() {
    let parse = Parser::new(" 14 +26- 27 /  3 * 2 ").parse();

    assert_eq!(
        parse.format(),
        r#"Root@0..21
  Whitespace@0..1 " "
  Operation@1..21
    Operation@1..7
      Number@1..3 "14"
      Whitespace@3..4 " "
      Plus@4..5 "+"
      Number@5..7 "26"
    Minus@7..8 "-"
    Whitespace@8..9 " "
    Operation@9..21
      Operation@9..17
        Number@9..11 "27"
        Whitespace@11..12 " "
        Slash@12..13 "/"
        Whitespace@13..15 "  "
        Number@15..16 "3"
        Whitespace@16..17 " "
      Star@17..18 "*"
      Whitespace@18..19 " "
      Number@19..20 "2"
      Whitespace@20..21 " "
"#,
    );
}

#[test]
fn junk_before_numbers_is_skipped() {
    let parse = Parser::new("abc1").parse();

    assert_eq!(
        parse.format(),
        r#"Root@0..4
  Error@0..1 "a"
  Error@1..2 "b"
  Error@2..3 "c"
  Number@3..4 "1"
"#,
    );
}

#[test]
fn junk_before_operators_is_skipped() {
    let parse = Parser::new("1 a+ 2").parse();

    assert_eq!(
        parse.format(),
        r#"Root@0..6
  Operation@0..6
    Number@0..1 "1"
    Whitespace@1..2 " "
    Error@2..3 "a"
    Plus@3..4 "+"
    Whitespace@4..5 " "
    Number@5..6 "2"
"#,
    )
}
