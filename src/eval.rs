//! Evaluation of expressions over the tree.
use vstd::prelude::*;
use crate::ast::{find_expr, find_operator, op_of_text, Expr, Number, Op, Operation, Root};
use crate::green::{
    green_node_children, green_token_text, node_kind, node_tree, token_kind, token_tree, Tree,
};
use crate::lexer::is_digit;
use crate::syntax_kind::{kind_raw, SyntaxKind};

verus! {

broadcast use vstd::string::axiom_spec_iter;

/// An arithmetic failure: a value that does not fit in a `u32` (including a
/// negative difference), or a division by zero.
#[derive(Clone, Copy, Debug, PartialEq, Eq, Structural)]
pub enum EvalError {
    Overflow,
    DivisionByZero,
}

/// The value of a non-empty decimal digit string.
pub open spec fn digits_value(s: Seq<char>) -> nat
    decreases s.len(),
{
    if s.len() == 0 {
        0
    } else {
        digits_value(s.drop_last()) * 10 + ((s.last() as u32) - ('0' as u32)) as nat
    }
}

/// Whether `s` is a non-empty string of decimal digits.
pub open spec fn is_numeral(s: Seq<char>) -> bool {
    s.len() > 0 && forall|i: int| 0 <= i < s.len() ==> is_digit(#[trigger] s[i])
}

/// The value of a number token's text: absent unless it is a numeral, an
/// overflow if it does not fit in a `u32`.
pub open spec fn number_value(text: Seq<char>) -> Option<Result<u32, EvalError>> {
    if !is_numeral(text) {
        None
    } else if digits_value(text) > u32::MAX {
        Some(Err(EvalError::Overflow))
    } else {
        Some(Ok(digits_value(text) as u32))
    }
}

/// An operator applied to two values, with failures made explicit.
pub open spec fn apply_op(op: Op, x: u32, y: u32) -> Result<u32, EvalError> {
    match op {
        Op::Add => if x + y > u32::MAX {
            Err(EvalError::Overflow)
        } else {
            Ok((x + y) as u32)
        },
        Op::Sub => if x < y {
            Err(EvalError::Overflow)
        } else {
            Ok((x - y) as u32)
        },
        Op::Mul => if x * y > u32::MAX {
            Err(EvalError::Overflow)
        } else {
            Ok((x * y) as u32)
        },
        Op::Div => if y == 0 {
            Err(EvalError::DivisionByZero)
        } else {
            Ok((x / y) as u32)
        },
    }
}

/// The operator that a tree spells, if it is a token that spells one.
pub open spec fn operator_of(t: Tree) -> Option<Op> {
    match t {
        Tree::Token { text, .. } => op_of_text(text),
        Tree::Node { .. } => None,
    }
}

/// Two operand results and an operator combined: absent if any part is
/// absent; otherwise the first failure, left before right, or the result.
pub open spec fn combine(
    l: Option<Result<u32, EvalError>>,
    r: Option<Result<u32, EvalError>>,
    op: Option<Op>,
) -> Option<Result<u32, EvalError>> {
    if l is None || r is None || op is None {
        None
    } else {
        match (l->0, r->0) {
            (Err(e), _) => Some(Err(e)),
            (Ok(_), Err(e)) => Some(Err(e)),
            (Ok(x), Ok(y)) => Some(apply_op(op->0, x, y)),
        }
    }
}

/// The value of an expression tree. A number token is its numeral's value;
/// an operation node combines its first and second expression children with
/// its first operator token. Anything else is absent.
pub open spec fn eval_tree(t: Tree) -> Option<Result<u32, EvalError>>
    decreases t,
{
    match t {
        Tree::Token { kind, text } => if kind == kind_raw(SyntaxKind::Number) {
            number_value(text)
        } else {
            None
        },
        Tree::Node { kind, children } => {
            let i = find_expr(children, 0);
            let j = find_expr(children, i + 1);
            let o = find_operator(children, 0);
            if kind == kind_raw(SyntaxKind::Operation) && i < children.len() && j < children.len()
                && o < children.len() {
                combine(
                    eval_tree(children[i as int]),
                    eval_tree(children[j as int]),
                    operator_of(children[o as int]),
                )
            } else {
                None
            }
        },
    }
}

/// The value of a root: that of its first expression child. Whitespace and
/// erroneous characters beside it are passed over.
pub open spec fn eval_root(t: Tree) -> Option<Result<u32, EvalError>> {
    match t {
        Tree::Node { kind, children } => {
            let i = find_expr(children, 0);
            if kind == kind_raw(SyntaxKind::Root) && i < children.len() {
                eval_tree(children[i as int])
            } else {
                None
            }
        },
        Tree::Token { .. } => None,
    }
}

proof fn lemma_digits_value_grows(s: Seq<char>, c: char)
    requires
        is_digit(c),
    ensures
        digits_value(s.push(c)) >= digits_value(s),
{
    assert(s.push(c).drop_last() =~= s);
}

impl Number {
    /// The value of this number's digits.
    pub fn eval(&self) -> (r: Option<Result<u32, EvalError>>)
        ensures
            r == number_value(green_token_text(self.0)),
    {
        let t = self.text();
        let mut value: u32 = 0;
        let mut overflowed = false;
        let mut nonempty = false;
        for c in it: t.chars()
            invariant
                it.seq() == t@,
                t@ == green_token_text(self.0),
                it.index() <= t@.len(),
                nonempty == (it.index() > 0),
                forall|i: int| 0 <= i < it.index() ==> is_digit(#[trigger] t@[i]),
                !overflowed ==> value == digits_value(t@.take(it.index() as int)),
                overflowed ==> digits_value(t@.take(it.index() as int)) > u32::MAX,
        {
            let ghost prefix = t@.take(it.index() as int);
            assert(c == t@[it.index() as int]);
            if !('0' <= c && c <= '9') {
                proof {
                    assert(!is_digit(t@[it.index() as int]));
                    assert(!is_numeral(t@));
                }
                return None;
            }
            proof {
                assert(t@.take(it.index() + 1) =~= prefix.push(c));
                assert(prefix.push(c).drop_last() =~= prefix);
                lemma_digits_value_grows(prefix, c);
            }
            let d = (c as u32) - ('0' as u32);
            if !overflowed {
                if value > (u32::MAX - d) / 10 {
                    overflowed = true;
                } else {
                    value = value * 10 + d;
                }
            }
            nonempty = true;
        }

        assert(t@.take(t@.len() as int) =~= t@);
        if !nonempty {
            None
        } else if overflowed {
            Some(Err(EvalError::Overflow))
        } else {
            Some(Ok(value))
        }
    }
}

/// An operator applied to two values; overflow and division by zero are
/// reported, never trapped.
pub fn apply(op: Op, x: u32, y: u32) -> (r: Result<u32, EvalError>)
    ensures
        r == apply_op(op, x, y),
{
    match op {
        Op::Add => match x.checked_add(y) {
            Some(v) => Ok(v),
            None => Err(EvalError::Overflow),
        },
        Op::Sub => match x.checked_sub(y) {
            Some(v) => Ok(v),
            None => Err(EvalError::Overflow),
        },
        Op::Mul => match x.checked_mul(y) {
            Some(v) => Ok(v),
            None => Err(EvalError::Overflow),
        },
        Op::Div => if y == 0 {
            Err(EvalError::DivisionByZero)
        } else {
            Ok(x / y)
        },
    }
}

impl Operation {
    /// The value of this operation: its left operand, operator and right
    /// operand combined.
    pub fn eval(&self) -> (r: Option<Result<u32, EvalError>>)
        ensures
            r == eval_tree(node_tree(self.0)),
        decreases node_tree(self.0), 0nat,
    {
        if node_kind(&self.0) != SyntaxKind::Operation.to_raw() {
            return None;
        }
        let ghost ch = green_node_children(self.0);
        proof {
            crate::ast::lemma_find_expr_bound(ch, 0);
            crate::ast::lemma_find_expr_bound(ch, find_expr(ch, 0) + 1);
            crate::ast::lemma_find_operator_bound(ch, 0);
        }
        let l = match self.lhs() {
            Some(e) => {
                assert(decreases_to!(node_tree(self.0) => e.tree()));
                e.eval()
            },
            None => {
                return None;
            },
        };
        let r = match self.rhs() {
            Some(e) => {
                assert(decreases_to!(node_tree(self.0) => e.tree()));
                e.eval()
            },
            None => {
                return None;
            },
        };
        let op = match self.op() {
            Some(o) => o.op(),
            None => {
                return None;
            },
        };
        match (l, r, op) {
            (Some(Ok(x)), Some(Ok(y)), Some(op)) => Some(apply(op, x, y)),
            (Some(Err(e)), Some(_), Some(_)) => Some(Err(e)),
            (Some(Ok(_)), Some(Err(e)), Some(_)) => Some(Err(e)),
            _ => None,
        }
    }
}

impl Expr {
    /// The value of this expression.
    pub fn eval(&self) -> (r: Option<Result<u32, EvalError>>)
        ensures
            r == eval_tree(self.tree()),
        decreases self.tree(), 1nat,
    {
        match self {
            Expr::Number(n) => if token_kind(&n.0) == SyntaxKind::Number.to_raw() {
                n.eval()
            } else {
                None
            },
            Expr::Operation(o) => o.eval(),
        }
    }
}

impl Root {
    /// The value of the expression under this root: its first expression
    /// child, with whitespace and erroneous characters before it passed over.
    pub fn eval(&self) -> (r: Option<Result<u32, EvalError>>)
        ensures
            r == eval_root(node_tree(self.0)),
    {
        if node_kind(&self.0) != SyntaxKind::Root.to_raw() {
            return None;
        }
        let ghost ch = green_node_children(self.0);
        let n = crate::green::node_child_count(&self.0);
        let mut i: usize = 0;
        while i < n
            invariant
                ch == green_node_children(self.0),
                n == ch.len(),
                find_expr(ch, 0) == find_expr(ch, i as nat),
                crate::green::green_node_kind(self.0) == kind_raw(SyntaxKind::Root),
            decreases n - i,
        {
            match Expr::cast(crate::green::node_child(&self.0, i)) {
                Some(e) => {
                    assert(find_expr(ch, i as nat) == i);
                    return e.eval();
                },
                None => {},
            }
            i = i + 1;
        }
        None
    }
}

} // verus!
