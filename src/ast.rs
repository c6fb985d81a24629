//! Typed views over the green tree, obtained by checking kinds.
use vstd::prelude::*;
use rowan::{GreenNode, GreenToken};
use crate::green::{
    green_node_children, green_node_kind, green_token_kind, green_token_text, node_child,
    node_child_count, node_kind, node_tree, token_kind, token_text, token_tree, GreenChild, Tree,
};
use crate::syntax_kind::{kind_raw, SyntaxKind};

verus! {

/// The four arithmetic operators.
#[derive(Clone, Copy, Debug, PartialEq, Eq, Structural)]
pub enum Op {
    Add,
    Sub,
    Mul,
    Div,
}

/// Whether a tree is an expression: a number token or an operation node.
pub open spec fn is_expr(t: Tree) -> bool {
    match t {
        Tree::Token { kind, .. } => kind == kind_raw(SyntaxKind::Number),
        Tree::Node { kind, .. } => kind == kind_raw(SyntaxKind::Operation),
    }
}

/// Whether a tree is an operator token.
pub open spec fn is_operator(t: Tree) -> bool {
    match t {
        Tree::Token { kind, .. } => kind == kind_raw(SyntaxKind::Plus) || kind == kind_raw(
            SyntaxKind::Star,
        ) || kind == kind_raw(SyntaxKind::Slash) || kind == kind_raw(SyntaxKind::Minus),
        Tree::Node { .. } => false,
    }
}

/// The index of the first expression in `ts` at or after `from`, or
/// `ts.len()` if there is none.
pub open spec fn find_expr(ts: Seq<Tree>, from: nat) -> nat
    decreases ts.len() - from,
{
    if from >= ts.len() {
        ts.len()
    } else if is_expr(ts[from as int]) {
        from
    } else {
        find_expr(ts, from + 1)
    }
}

/// The index of the first operator token in `ts` at or after `from`, or
/// `ts.len()` if there is none.
pub open spec fn find_operator(ts: Seq<Tree>, from: nat) -> nat
    decreases ts.len() - from,
{
    if from >= ts.len() {
        ts.len()
    } else if is_operator(ts[from as int]) {
        from
    } else {
        find_operator(ts, from + 1)
    }
}

/// The operator that an operator token's text spells.
pub open spec fn op_of_text(text: Seq<char>) -> Option<Op> {
    if text == "+"@ {
        Some(Op::Add)
    } else if text == "-"@ {
        Some(Op::Sub)
    } else if text == "*"@ {
        Some(Op::Mul)
    } else if text == "/"@ {
        Some(Op::Div)
    } else {
        None
    }
}

pub proof fn lemma_find_expr_bound(ts: Seq<Tree>, from: nat)
    ensures
        find_expr(ts, from) <= ts.len(),
        find_expr(ts, from) < ts.len() ==> from <= find_expr(ts, from) && is_expr(
            ts[find_expr(ts, from) as int],
        ),
    decreases ts.len() - from,
{
    if from < ts.len() && !is_expr(ts[from as int]) {
        lemma_find_expr_bound(ts, from + 1);
    }
}

pub proof fn lemma_find_operator_bound(ts: Seq<Tree>, from: nat)
    ensures
        find_operator(ts, from) <= ts.len(),
        find_operator(ts, from) < ts.len() ==> is_operator(ts[find_operator(ts, from) as int]),
    decreases ts.len() - from,
{
    if from < ts.len() && !is_operator(ts[from as int]) {
        lemma_find_operator_bound(ts, from + 1);
    }
}

/// The root node of a tree.
pub struct Root(pub GreenNode);

/// An operation node: left operand, operator, right operand.
pub struct Operation(pub GreenNode);

/// A number token.
pub struct Number(pub GreenToken);

/// One of the four operator tokens.
pub struct Operator(pub GreenToken);

/// An expression: a number or an operation.
pub enum Expr {
    Number(Number),
    Operation(Operation),
}

impl Expr {
    /// The tree of this expression.
    pub open spec fn tree(&self) -> Tree {
        match self {
            Expr::Number(n) => token_tree(n.0),
            Expr::Operation(o) => node_tree(o.0),
        }
    }

    /// The element as an expression, if its kind is that of one.
    pub fn cast(element: GreenChild) -> (r: Option<Expr>)
        ensures
            r.is_some() == is_expr(element.tree()),
            r.is_some() ==> r->0.tree() == element.tree(),
    {
        match element {
            GreenChild::Token(t) => match Number::cast(t) {
                Some(n) => Some(Expr::Number(n)),
                None => None,
            },
            GreenChild::Node(n) => match Operation::cast(n) {
                Some(o) => Some(Expr::Operation(o)),
                None => None,
            },
        }
    }
}

impl Root {
    /// The node as a root, if it has the root's kind.
    pub fn cast(node: GreenNode) -> (r: Option<Root>)
        ensures
            r.is_some() == (green_node_kind(node) == kind_raw(SyntaxKind::Root)),
            r.is_some() ==> (r->0).0 == node,
    {
        if node_kind(&node) == SyntaxKind::Root.to_raw() {
            Some(Root(node))
        } else {
            None
        }
    }
}

impl Number {
    /// The token as a number, if it has the number kind.
    pub fn cast(token: GreenToken) -> (r: Option<Number>)
        ensures
            r.is_some() == (green_token_kind(token) == kind_raw(SyntaxKind::Number)),
            r.is_some() ==> (r->0).0 == token,
    {
        if token_kind(&token) == SyntaxKind::Number.to_raw() {
            Some(Number(token))
        } else {
            None
        }
    }

    /// The digits of this number.
    pub fn text(&self) -> (r: &str)
        ensures
            r@ == green_token_text(self.0),
    {
        token_text(&self.0)
    }
}

impl Operator {
    /// The token as an operator, if it has one of the operator kinds.
    pub fn cast(token: GreenToken) -> (r: Option<Operator>)
        ensures
            r.is_some() == is_operator(token_tree(token)),
            r.is_some() ==> (r->0).0 == token,
    {
        let k = token_kind(&token);
        if k == SyntaxKind::Plus.to_raw() || k == SyntaxKind::Star.to_raw() || k
            == SyntaxKind::Slash.to_raw() || k == SyntaxKind::Minus.to_raw() {
            Some(Operator(token))
        } else {
            None
        }
    }

    /// The operator that this token's text spells.
    pub fn op(&self) -> (r: Option<Op>)
        ensures
            r == op_of_text(green_token_text(self.0)),
    {
        let t = token_text(&self.0);
        proof {
            reveal_strlit("+");
            reveal_strlit("-");
            reveal_strlit("*");
            reveal_strlit("/");
        }
        if t.unicode_len() != 1 {
            return None;
        }
        let c = t.get_char(0);
        if c == '+' {
            assert(t@ =~= "+"@);
            Some(Op::Add)
        } else if c == '-' {
            assert(t@ =~= "-"@);
            Some(Op::Sub)
        } else if c == '*' {
            assert(t@ =~= "*"@);
            Some(Op::Mul)
        } else if c == '/' {
            assert(t@ =~= "/"@);
            Some(Op::Div)
        } else {
            assert(t@ != "+"@ && t@ != "-"@ && t@ != "*"@ && t@ != "/"@) by {
                assert(t@[0] == c);
            }
            None
        }
    }
}

impl Operation {
    /// The node as an operation, if it has the operation kind.
    pub fn cast(node: GreenNode) -> (r: Option<Operation>)
        ensures
            r.is_some() == (green_node_kind(node) == kind_raw(SyntaxKind::Operation)),
            r.is_some() ==> (r->0).0 == node,
    {
        if node_kind(&node) == SyntaxKind::Operation.to_raw() {
            Some(Operation(node))
        } else {
            None
        }
    }

    /// The first expression among the children at or after `from`, with its
    /// index.
    fn expr_from(&self, from: usize) -> (r: Option<(usize, Expr)>)
        ensures
            ({
                let ch = green_node_children(self.0);
                let i = find_expr(ch, from as nat);
                &&& r.is_some() == (i < ch.len())
                &&& r.is_some() ==> (r->0).0 == i && (r->0).1.tree() == ch[i as int]
                &&& ch.len() <= usize::MAX
            }),
    {
        let ghost ch = green_node_children(self.0);
        let n = node_child_count(&self.0);
        let mut i = from;
        while i < n
            invariant
                ch == green_node_children(self.0),
                n == ch.len(),
                from <= i,
                find_expr(ch, from as nat) == find_expr(ch, i as nat),
            decreases n - i,
        {
            let child = node_child(&self.0, i);
            match Expr::cast(child) {
                Some(e) => {
                    return Some((i, e));
                },
                None => {},
            }
            i = i + 1;
        }
        None
    }

    /// The left operand: the first expression among the children.
    pub fn lhs(&self) -> (r: Option<Expr>)
        ensures
            ({
                let ch = green_node_children(self.0);
                let i = find_expr(ch, 0);
                &&& r.is_some() == (i < ch.len())
                &&& r.is_some() ==> r->0.tree() == ch[i as int]
            }),
    {
        match self.expr_from(0) {
            Some((_, e)) => Some(e),
            None => None,
        }
    }

    /// The right operand: the second expression among the children.
    pub fn rhs(&self) -> (r: Option<Expr>)
        ensures
            ({
                let ch = green_node_children(self.0);
                let i = find_expr(ch, 0);
                let j = find_expr(ch, i + 1);
                &&& r.is_some() == (i < ch.len() && j < ch.len())
                &&& r.is_some() ==> r->0.tree() == ch[j as int]
            }),
    {
        match self.expr_from(0) {
            Some((i, _)) => match self.expr_from(i + 1) {
                Some((_, e)) => Some(e),
                None => None,
            },
            None => None,
        }
    }

    /// The operator: the first operator token among the children.
    pub fn op(&self) -> (r: Option<Operator>)
        ensures
            ({
                let ch = green_node_children(self.0);
                let i = find_operator(ch, 0);
                &&& r.is_some() == (i < ch.len())
                &&& r.is_some() ==> token_tree((r->0).0) == ch[i as int]
            }),
    {
        let ghost ch = green_node_children(self.0);
        let n = node_child_count(&self.0);
        let mut i: usize = 0;
        while i < n
            invariant
                ch == green_node_children(self.0),
                n == ch.len(),
                find_operator(ch, 0) == find_operator(ch, i as nat),
            decreases n - i,
        {
            match node_child(&self.0, i) {
                GreenChild::Token(t) => match Operator::cast(t) {
                    Some(o) => {
                        return Some(o);
                    },
                    None => {},
                },
                GreenChild::Node(_) => {},
            }
            i = i + 1;
        }
        None
    }
}

} // verus!
