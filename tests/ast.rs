use expr_parser::ast::{Expr, Number, Operation, Root};
use expr_parser::green::GreenChild;
use expr_parser::{EvalError, Op, SyntaxKind};
use rowan::{GreenNode, GreenToken, NodeOrToken};

type Element = NodeOrToken<GreenNode, GreenToken>;

fn tok(kind: SyntaxKind, text: &str) -> Element {
    NodeOrToken::Token(GreenToken::new(rowan::SyntaxKind(kind.to_raw()), text))
}

fn node(kind: SyntaxKind, children: Vec<Element>) -> GreenNode {
    GreenNode::new(rowan::SyntaxKind(kind.to_raw()), children)
}

#[test]
fn operation_accessors_scan_children() {
    let op = node(
        SyntaxKind::Operation,
        vec![
            tok(SyntaxKind::Number, "4"),
            tok(SyntaxKind::Whitespace, " "),
            tok(SyntaxKind::Star, "*"),
            tok(SyntaxKind::Number, "5"),
        ],
    );
    let op = Operation::cast(op).unwrap();
    assert!(matches!(op.lhs(), Some(Expr::Number(_))));
    assert!(matches!(op.rhs(), Some(Expr::Number(_))));
    assert_eq!(op.op().unwrap().op(), Some(Op::Mul));
    assert_eq!(op.eval(), Some(Ok(20)));
}

#[test]
fn operation_without_operator_has_no_value() {
    let op = node(
        SyntaxKind::Operation,
        vec![tok(SyntaxKind::Number, "4"), tok(SyntaxKind::Number, "5")],
    );
    let op = Operation::cast(op).unwrap();
    assert!(op.op().is_none());
    assert_eq!(op.eval(), None);
}

#[test]
fn operation_without_right_operand_has_no_value() {
    let op = node(SyntaxKind::Operation, vec![tok(SyntaxKind::Number, "4"), tok(SyntaxKind::Plus, "+")]);
    let op = Operation::cast(op).unwrap();
    assert!(op.rhs().is_none());
    assert_eq!(op.eval(), None);
}

#[test]
fn casts_check_the_kind() {
    assert!(Operation::cast(node(SyntaxKind::Root, vec![])).is_none());
    assert!(Root::cast(node(SyntaxKind::Operation, vec![])).is_none());
    assert!(Root::cast(node(SyntaxKind::Root, vec![])).is_some());
    let number = GreenToken::new(rowan::SyntaxKind(SyntaxKind::Number.to_raw()), "12");
    assert_eq!(Number::cast(number).unwrap().eval(), Some(Ok(12)));
    let plus = GreenToken::new(rowan::SyntaxKind(SyntaxKind::Plus.to_raw()), "+");
    assert!(Number::cast(plus.clone()).is_none());
    assert!(Expr::cast(GreenChild::Token(plus)).is_none());
}

#[test]
fn nested_operations_evaluate_inside_out() {
    let inner = node(
        SyntaxKind::Operation,
        vec![tok(SyntaxKind::Number, "9"), tok(SyntaxKind::Slash, "/"), tok(SyntaxKind::Number, "0")],
    );
    let outer = node(
        SyntaxKind::Operation,
        vec![tok(SyntaxKind::Number, "1"), tok(SyntaxKind::Plus, "+"), NodeOrToken::Node(inner)],
    );
    assert_eq!(Operation::cast(outer).unwrap().eval(), Some(Err(EvalError::DivisionByZero)));
}

#[test]
fn root_passes_over_leading_siblings() {
    let root = node(
        SyntaxKind::Root,
        vec![
            tok(SyntaxKind::Whitespace, " "),
            tok(SyntaxKind::Error, "x"),
            tok(SyntaxKind::Number, "8"),
        ],
    );
    assert_eq!(Root::cast(root).unwrap().eval(), Some(Ok(8)));
    let empty = node(SyntaxKind::Root, vec![tok(SyntaxKind::Whitespace, " ")]);
    assert_eq!(Root::cast(empty).unwrap().eval(), None);
}
