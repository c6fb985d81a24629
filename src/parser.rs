//! The precedence-climbing parser, which builds the tree and collects errors.
use vstd::prelude::*;
use rowan::{GreenNode, GreenNodeBuilder};
use codespan_reporting::diagnostic::Diagnostic;
use crate::ast::{Op, Root};
use crate::dump::{dump, dump_tree};
use crate::eval::{eval_root, EvalError};
use crate::errors::{SyntaxError, SyntaxErrorKind};
use crate::green::{
    builder_checkpoint, builder_children, builder_finish, builder_finish_node, builder_new,
    builder_parents, builder_start_node, builder_start_node_at, builder_token, checkpoint_index,
    forest_text, green_node_children, lemma_seq_text_concat, lemma_seq_text_push, node_child,
    node_child_count, node_clone, node_tree, seq_text, token_text, tree_text, GreenChild, Tree,
};
use crate::grammar::{
    binding_power, error_record, expr_result, expr_spec, find_op_spec, has_token, junk_error,
    lemma_expr_unfold, lemma_op_loop_step, lemma_op_loop_stop, lemma_token_here, offset_of,
    op_loop_result, operand_spec, operator_kinds, parse_spec, token_at, token_len, ws_spec,
    ErrorRecord,
};
use crate::lexer::{lead_kind, lexeme_len, Lexer, Span};
use crate::syntax_kind::{kind_raw, SyntaxKind};
use crate::text::{byte_len, lemma_byte_len_prefix, push_str};

verus! {

/// The result of a parse: the lossless tree and the errors met on the way.
pub struct Parse {
    green_node: GreenNode,
    errors: Vec<SyntaxError>,
}

impl Parse {
    /// Every parse is well formed.
    #[verifier::type_invariant]
    closed spec fn well_formed(&self) -> bool {
        self.wf()
    }

    /// The tree, as the contracts see it.
    pub closed spec fn tree(&self) -> Tree {
        node_tree(self.green_node)
    }

    /// The errors, in the order they were met.
    pub closed spec fn error_list(&self) -> Seq<SyntaxError> {
        self.errors@
    }

    /// A finished parse: a root node whose text fits rowan's `u32` offsets.
    pub open spec fn wf(&self) -> bool {
        &&& self.tree() is Node
        &&& self.tree()->Node_kind == kind_raw(SyntaxKind::Root)
        &&& byte_len(tree_text(self.tree())) <= u32::MAX
    }

    /// The errors, in the order they were met.
    pub fn errors(&self) -> (r: &[SyntaxError])
        ensures
            r@ == self.error_list(),
    {
        self.errors.as_slice()
    }

    /// The value of the parsed expression: absent when the tree has no
    /// expression or one with a part missing, an explicit failure on overflow
    /// or division by zero.
    pub fn eval(&self) -> (r: Option<Result<u32, EvalError>>)
        ensures
            r == eval_root(self.tree()),
    {
        let root = Root(node_clone(&self.green_node));
        root.eval()
    }

    /// One diagnostic per error, in order.
    pub fn diagnostics<FileId: Clone>(&self, file_id: FileId) -> (r: Vec<Diagnostic<FileId>>)
        ensures
            r.len() == self.error_list().len(),
    {
        let mut out: Vec<Diagnostic<FileId>> = Vec::new();
        let mut i: usize = 0;
        while i < self.errors.len()
            invariant
                i <= self.errors.len(),
                out.len() == i,
            decreases self.errors.len() - i,
        {
            out.push(self.errors[i].as_diagnostic(file_id.clone()));
            i = i + 1;
        }
        out
    }

    /// The text of the tree: its tokens' texts in order.
    pub fn text(&self) -> (r: String)
        ensures
            r@ == tree_text(self.tree()),
    {
        let mut out = String::new();
        push_node_text(&self.green_node, &mut out);
        out
    }

    /// A dump of the tree, one line per node or token.
    pub fn format(&self) -> (r: String)
        ensures
            r@ == dump_tree(self.tree(), seq![], 0),
    {
        proof {
            use_type_invariant(self);
        }
        dump(&self.green_node)
    }
}

/// Formatting reads only the tree, which never changes once parsed, so two
/// dumps of one parse are the same text.
pub proof fn lemma_format_repeatable(p: &Parse, first: Seq<char>, second: Seq<char>)
    requires
        first == dump_tree(p.tree(), seq![], 0),
        second == dump_tree(p.tree(), seq![], 0),
    ensures
        first == second,
{
}

/// The binding powers of an operator.
pub fn infix_bp(op: Op) -> (r: (u8, u8))
    ensures
        r == binding_power(op),
        r.0 < r.1,
{
    match op {
        Op::Add | Op::Sub => (1, 2),
        Op::Mul | Op::Div => (3, 4),
    }
}

fn number_expected() -> (r: Vec<SyntaxKind>)
    ensures
        r@ == seq![SyntaxKind::Number],
{
    let mut v = Vec::new();
    v.push(SyntaxKind::Number);
    v
}

fn operators_expected() -> (r: Vec<SyntaxKind>)
    ensures
        r@ == operator_kinds(),
{
    let mut v = Vec::new();
    v.push(SyntaxKind::Plus);
    v.push(SyntaxKind::Star);
    v.push(SyntaxKind::Slash);
    v.push(SyntaxKind::Minus);
    v
}

/// The parser's state: a cursor over the lexemes, the tree builder, and the
/// errors so far.
pub struct Parser {
    lexer: Lexer,
    builder: GreenNodeBuilder<'static>,
    errors: Vec<SyntaxError>,
}

impl Parser {
    /// The text being parsed.
    pub closed spec fn source(&self) -> Seq<char> {
        self.lexer.source()
    }

    closed spec fn pos(&self) -> nat {
        self.lexer.position()
    }

    closed spec fn children(&self) -> Seq<Tree> {
        builder_children(self.builder)
    }

    closed spec fn parents(&self) -> Seq<(u16, nat)> {
        builder_parents(self.builder)
    }

    closed spec fn records(&self) -> Seq<ErrorRecord> {
        self.errors@.map_values(|e: SyntaxError| error_record(e))
    }

    /// The tree so far holds exactly the text consumed so far.
    closed spec fn inv(&self) -> bool {
        &&& self.lexer.wf()
        &&& seq_text(self.children()) == self.source().take(self.pos() as int)
        &&& self.parents().len() > 0 ==> self.parents().last().1 <= self.children().len()
    }

    /// Nothing has been consumed or built yet.
    pub closed spec fn ready(&self) -> bool {
        &&& self.inv()
        &&& self.pos() == 0
        &&& self.children().len() == 0
        &&& self.parents().len() == 0
        &&& self.errors@.len() == 0
    }

    /// A parser at the start of `s`. Offsets are `u32`, so the text must fit.
    pub fn new(s: &str) -> (r: Parser)
        requires
            byte_len(s@) <= u32::MAX,
        ensures
            r.ready(),
            r.source() == s@,
    {
        let lexer = Lexer::new(s);
        let builder = builder_new();
        let p = Parser { lexer, builder, errors: Vec::new() };
        assert(seq_text(p.children()) =~= p.source().take(0));
        p
    }

    fn peek(&self) -> (r: Option<SyntaxKind>)
        requires
            self.inv(),
        ensures
            self.pos() >= self.source().len() ==> r.is_none(),
            self.pos() < self.source().len() ==> r == Some(
                lead_kind(self.source()[self.pos() as int]),
            ) && has_token(self.source(), self.pos()),
    {
        proof {
            self.lexer.lemma_wf();
            if self.pos() < self.source().len() {
                lemma_token_here(self.source(), self.pos());
            }
        }
        self.lexer.peek()
    }

    /// Consumes the next lexeme into the tree under `kind`, or under its own
    /// kind when `kind` is `None`; returns its range.
    fn eat_as(&mut self, kind: Option<SyntaxKind>) -> (r: Span)
        requires
            old(self).inv(),
            old(self).pos() < old(self).source().len(),
        ensures
            ({
                let src = old(self).source();
                let p = old(self).pos();
                let k = match kind {
                    Some(k) => k,
                    None => lead_kind(src[p as int]),
                };
                &&& final(self).inv()
                &&& final(self).source() == src
                &&& has_token(src, p)
                &&& final(self).pos() == p + token_len(src, p)
                &&& final(self).parents() == old(self).parents()
                &&& final(self).children() == old(self).children().push(token_at(src, p, k))
                &&& final(self).errors == old(self).errors
                &&& r.start == offset_of(src, p)
                &&& r.end == offset_of(src, p + token_len(src, p))
            }),
    {
        let ghost old_children = self.children();
        let ghost rest = self.lexer.rest();
        proof {
            self.lexer.lemma_wf();
            lemma_token_here(self.source(), self.pos());
        }
        let lexeme = self.lexer.next().unwrap();
        let k = match kind {
            Some(k) => k,
            None => lexeme.kind,
        };
        builder_token(&mut self.builder, k.to_raw(), lexeme.text.as_str());
        proof {
            let p = old(self).pos() as int;
            let n = lexeme_len(rest) as int;
            let src = self.source();
            self.lexer.lemma_wf();
            assert(src.skip(p).take(n) =~= src.subrange(p, p + n));
            let t = Tree::Token { kind: kind_raw(k), text: lexeme.text@ };
            lemma_seq_text_push(old_children, t);
            assert(src.take(p) + src.skip(p).take(n) =~= src.take(p + n));
        }
        lexeme.range
    }

    fn skip_ws(&mut self)
        requires
            old(self).inv(),
        ensures
            ({
                let w = ws_spec(old(self).source(), old(self).pos());
                &&& final(self).inv()
                &&& final(self).source() == old(self).source()
                &&& final(self).pos() == w.pos
                &&& old(self).pos() <= w.pos <= old(self).source().len()
                &&& final(self).parents() == old(self).parents()
                &&& final(self).children() == old(self).children() + w.trees
                &&& final(self).errors == old(self).errors
                &&& w.errors.len() == 0
            }),
    {
        let ghost src = self.source();
        let ghost whole = ws_spec(src, self.pos());
        let ghost mut acc: Seq<Tree> = seq![];
        proof {
            self.lexer.lemma_wf();
            assert(self.children() =~= old(self).children() + acc);
            lemma_ws_errors(src, self.pos());
        }
        while self.peek() == Some(SyntaxKind::Whitespace)
            invariant
                self.inv(),
                old(self).inv(),
                self.source() == src,
                src == old(self).source(),
                old(self).pos() <= self.pos() <= src.len(),
                self.parents() == old(self).parents(),
                self.errors == old(self).errors,
                self.children() == old(self).children() + acc,
                whole == ws_spec(src, old(self).pos()),
                whole.trees == acc + ws_spec(src, self.pos()).trees,
                whole.pos == ws_spec(src, self.pos()).pos,
                whole.errors.len() == 0,
            decreases src.len() - self.pos(),
        {
            let ghost p = self.pos();
            self.eat_as(None);
            proof {
                self.lexer.lemma_wf();
                let t = token_at(src, p, SyntaxKind::Whitespace);
                assert(ws_spec(src, p).trees == seq![t] + ws_spec(src, self.pos()).trees);
                assert(whole.trees =~= acc.push(t) + ws_spec(src, self.pos()).trees);
                acc = acc.push(t);
                assert(self.children() =~= old(self).children() + acc);
            }
        }
        proof {
            self.lexer.lemma_wf();
            assert(whole.trees =~= acc);
        }
    }
}

/// Whitespace brings no errors, and ends within the source.
proof fn lemma_ws_errors(src: Seq<char>, pos: nat)
    requires
        pos <= src.len(),
    ensures
        ws_spec(src, pos).errors.len() == 0,
        pos <= ws_spec(src, pos).pos <= src.len(),
    decreases src.len() - pos,
{
    if has_token(src, pos) && lead_kind(src[pos as int]) == SyntaxKind::Whitespace {
        lemma_ws_errors(src, pos + token_len(src, pos));
    }
}

impl Parser {
    /// Parses the whole text: leading whitespace, one expression, trailing
    /// whitespace, all under a root node. The tree and the errors are exactly
    /// those that `parse_spec` describes, and every character of the text
    /// ends up in the tree.
    pub fn parse(self) -> (r: Parse)
        requires
            self.ready(),
        ensures
            r.wf(),
            r.tree() == parse_spec(self.source()).0,
            r.error_list().map_values(|e: SyntaxError| error_record(e)) == parse_spec(
                self.source(),
            ).1,
            tree_text(r.tree()) == self.source(),
    {
        let mut p = self;
        let ghost src = p.source();
        builder_start_node(&mut p.builder, SyntaxKind::Root.to_raw());
        p.skip_ws();
        p.expr_bp(0);
        p.skip_ws();
        proof {
            p.lexer.lemma_wf();
            assert(src.take(src.len() as int) =~= src);
            assert(p.parents().len() == 1);
        }
        let ghost full = p.children();
        builder_finish_node(&mut p.builder);
        proof {
            assert(p.parents() =~= Seq::<(u16, nat)>::empty());
            assert(full.skip(0) =~= full);
            assert(full.take(0) =~= Seq::<Tree>::empty());
            let root = Tree::Node { kind: kind_raw(SyntaxKind::Root), children: full };
            assert(p.children() =~= seq![root]);
            assert(tree_text(p.children()[0]) == seq_text(full));
            let w1 = ws_spec(src, 0);
            reveal(expr_result);
            let e = expr_spec(src, w1.pos, 0);
            let w2 = ws_spec(src, e.pos);
            assert(full =~= w1.trees + e.trees + w2.trees);
            assert(p.records() =~= e.errors);
        }
        let green_node = builder_finish(p.builder);
        Parse { green_node, errors: p.errors }
    }

    /// An operand: lexemes other than a number are consumed as error tokens,
    /// each with an error, up to and including the first number. Returns
    /// whether a number came before the end of the input.
    fn operand(&mut self) -> (found: bool)
        requires
            old(self).inv(),
        ensures
            ({
                let o = operand_spec(old(self).source(), old(self).pos());
                &&& final(self).inv()
                &&& final(self).source() == old(self).source()
                &&& final(self).pos() == o.0.pos
                &&& old(self).pos() <= o.0.pos <= old(self).source().len()
                &&& final(self).parents() == old(self).parents()
                &&& final(self).children() == old(self).children() + o.0.trees
                &&& final(self).records() == old(self).records() + o.0.errors
                &&& found == o.1
                &&& !found ==> o.0.pos == old(self).source().len()
            }),
    {
        let ghost src = self.source();
        let ghost o = operand_spec(src, self.pos());
        let ghost mut acc: Seq<Tree> = seq![];
        let ghost mut errs: Seq<ErrorRecord> = seq![];
        proof {
            self.lexer.lemma_wf();
            assert(self.children() =~= old(self).children() + acc);
            assert(self.records() =~= old(self).records() + errs);
        }
        loop
            invariant
                self.inv(),
                old(self).inv(),
                self.source() == src,
                src == old(self).source(),
                old(self).pos() <= self.pos() <= src.len(),
                self.parents() == old(self).parents(),
                self.children() == old(self).children() + acc,
                self.records() == old(self).records() + errs,
                o == operand_spec(src, old(self).pos()),
                o.0.trees == acc + operand_spec(src, self.pos()).0.trees,
                o.0.errors == errs + operand_spec(src, self.pos()).0.errors,
                o.0.pos == operand_spec(src, self.pos()).0.pos,
                o.1 == operand_spec(src, self.pos()).1,
            decreases src.len() - self.pos(),
        {
            let ghost p = self.pos();
            let ghost e_before = self.errors@;
            match self.peek() {
                Some(SyntaxKind::Number) => {
                    self.eat_as(None);
                    proof {
                        self.lexer.lemma_wf();
                        let t = token_at(src, p, SyntaxKind::Number);
                        assert(o.0.trees =~= acc.push(t));
                        assert(o.0.errors =~= errs);
                        assert(self.children() =~= old(self).children() + acc.push(t));
                    }
                    return true;
                },
                Some(found) => {
                    let range = self.eat_as(Some(SyntaxKind::Error));
                    let expected = number_expected();
                    let err = SyntaxError {
                        kind: SyntaxErrorKind::FoundExpected { found, expected },
                        range,
                    };
                    self.errors.push(err);
                    proof {
                        self.lexer.lemma_wf();
                        let t = token_at(src, p, SyntaxKind::Error);
                        let er = junk_error(src, p, seq![SyntaxKind::Number]);
                        assert(error_record(err) == er);
                        assert(self.records() =~= e_before.map_values(
                            |e: SyntaxError| error_record(e),
                        ).push(er));
                        assert(o.0.trees =~= acc.push(t) + operand_spec(src, self.pos()).0.trees);
                        assert(o.0.errors =~= errs.push(er) + operand_spec(
                            src,
                            self.pos(),
                        ).0.errors);
                        acc = acc.push(t);
                        errs = errs.push(er);
                        assert(self.children() =~= old(self).children() + acc);
                        assert(self.records() =~= old(self).records() + errs);
                    }
                },
                None => {
                    let end = self.lexer.offset();
                    let expected = number_expected();
                    let err = SyntaxError {
                        kind: SyntaxErrorKind::Expected { expected },
                        range: Span { start: end, end },
                    };
                    self.errors.push(err);
                    proof {
                        let er = ErrorRecord {
                            found: None,
                            expected: seq![SyntaxKind::Number],
                            start: offset_of(src, p),
                            end: offset_of(src, p),
                        };
                        assert(error_record(err) == er);
                        assert(self.records() =~= e_before.map_values(
                            |e: SyntaxError| error_record(e),
                        ).push(er));
                        assert(o.0.errors =~= errs.push(er));
                        assert(o.0.trees =~= acc);
                        assert(self.records() =~= old(self).records() + errs.push(er));
                    }
                    return false;
                },
            }
        }
    }

    /// The search for an operator: lexemes that are not operators are
    /// consumed as error tokens, each with an error. Returns the operator in
    /// front of which it stopped, if it did not reach the end of the input.
    fn find_op(&mut self) -> (r: Option<Op>)
        requires
            old(self).inv(),
        ensures
            ({
                let j = find_op_spec(old(self).source(), old(self).pos());
                &&& final(self).inv()
                &&& final(self).source() == old(self).source()
                &&& final(self).pos() == j.0.pos
                &&& old(self).pos() <= j.0.pos <= old(self).source().len()
                &&& final(self).parents() == old(self).parents()
                &&& final(self).children() == old(self).children() + j.0.trees
                &&& final(self).records() == old(self).records() + j.0.errors
                &&& r == j.1
                &&& r is Some ==> has_token(old(self).source(), j.0.pos)
                &&& r is None ==> j.0.pos == old(self).source().len()
            }),
    {
        let ghost src = self.source();
        let ghost j = find_op_spec(src, self.pos());
        let ghost mut acc: Seq<Tree> = seq![];
        let ghost mut errs: Seq<ErrorRecord> = seq![];
        proof {
            self.lexer.lemma_wf();
            assert(self.children() =~= old(self).children() + acc);
            assert(self.records() =~= old(self).records() + errs);
        }
        loop
            invariant
                self.inv(),
                old(self).inv(),
                self.source() == src,
                src == old(self).source(),
                old(self).pos() <= self.pos() <= src.len(),
                self.parents() == old(self).parents(),
                self.children() == old(self).children() + acc,
                self.records() == old(self).records() + errs,
                j == find_op_spec(src, old(self).pos()),
                j.0.trees == acc + find_op_spec(src, self.pos()).0.trees,
                j.0.errors == errs + find_op_spec(src, self.pos()).0.errors,
                j.0.pos == find_op_spec(src, self.pos()).0.pos,
                j.1 == find_op_spec(src, self.pos()).1,
            decreases src.len() - self.pos(),
        {
            let ghost p = self.pos();
            let ghost e_before = self.errors@;
            let k = self.peek();
            match k {
                Some(found) => {
                    let op = match found {
                        SyntaxKind::Plus => Some(Op::Add),
                        SyntaxKind::Star => Some(Op::Mul),
                        SyntaxKind::Slash => Some(Op::Div),
                        SyntaxKind::Minus => Some(Op::Sub),
                        _ => None,
                    };
                    if op.is_some() {
                        proof {
                            assert(j.0.trees =~= acc);
                            assert(j.0.errors =~= errs);
                        }
                        return op;
                    }
                    let range = self.eat_as(Some(SyntaxKind::Error));
                    let expected = operators_expected();
                    let err = SyntaxError {
                        kind: SyntaxErrorKind::FoundExpected { found, expected },
                        range,
                    };
                    self.errors.push(err);
                    proof {
                        self.lexer.lemma_wf();
                        let t = token_at(src, p, SyntaxKind::Error);
                        let er = junk_error(src, p, operator_kinds());
                        assert(error_record(err) == er);
                        assert(self.records() =~= e_before.map_values(
                            |e: SyntaxError| error_record(e),
                        ).push(er));
                        assert(j.0.trees =~= acc.push(t) + find_op_spec(src, self.pos()).0.trees);
                        assert(j.0.errors =~= errs.push(er) + find_op_spec(
                            src,
                            self.pos(),
                        ).0.errors);
                        acc = acc.push(t);
                        errs = errs.push(er);
                        assert(self.children() =~= old(self).children() + acc);
                        assert(self.records() =~= old(self).records() + errs);
                    }
                },
                None => {
                    proof {
                        assert(j.0.trees =~= acc);
                        assert(j.0.errors =~= errs);
                    }
                    return None;
                },
            }
        }
    }

    /// Parses an expression whose operators bind at least as tightly as
    /// `min_bp`, wrapping each operation found in an `Operation` node.
    fn expr_bp(&mut self, min_bp: u8)
        requires
            old(self).inv(),
        ensures
            ({
                let e = expr_result(old(self).source(), old(self).pos(), min_bp);
                &&& final(self).inv()
                &&& final(self).source() == old(self).source()
                &&& final(self).pos() == e.pos
                &&& old(self).pos() <= e.pos <= old(self).source().len()
                &&& final(self).parents() == old(self).parents()
                &&& final(self).children() == old(self).children() + e.trees
                &&& final(self).records() == old(self).records() + e.errors
                &&& min_bp == 0 ==> e.pos == old(self).source().len()
            }),
        decreases old(self).source().len() - old(self).pos(), 1nat,
    {
        let ghost src = self.source();
        let ghost pos0 = self.pos();
        let ghost start = self.children();
        let ghost errs0 = self.records();
        let ghost whole = expr_result(src, pos0, min_bp);
        let checkpoint = builder_checkpoint(&self.builder);
        let found = self.operand();
        if !found {
            proof {
                lemma_ws_errors(src, self.pos());
                lemma_expr_unfold(src, pos0, min_bp);
            }
            return ;
        }
        self.skip_ws();
        proof {
            lemma_expr_unfold(src, pos0, min_bp);
        }
        let ghost o = operand_spec(src, pos0).0;
        let ghost mut acc: Seq<Tree> = o.trees + ws_spec(src, o.pos).trees;
        let ghost mut errs: Seq<ErrorRecord> = o.errors;
        proof {
            assert(self.children() =~= start + acc);
        }
        loop
            invariant
                self.inv(),
                old(self).inv(),
                self.source() == src,
                src == old(self).source(),
                pos0 == old(self).pos(),
                start == old(self).children(),
                errs0 == old(self).records(),
                pos0 <= self.pos() <= src.len(),
                self.parents() == old(self).parents(),
                self.children() == start + acc,
                self.records() == errs0 + errs,
                checkpoint_index(checkpoint) == start.len(),
                whole == expr_result(src, pos0, min_bp),
                whole == op_loop_result(src, self.pos(), min_bp, acc, errs),
            decreases src.len() - self.pos(),
        {
            let ghost q0 = self.pos();
            let ghost j = find_op_spec(src, q0);
            let op = match self.find_op() {
                Some(op) => op,
                None => {
                    proof {
                        lemma_op_loop_stop(src, q0, min_bp, acc, errs);
                        assert(self.children() =~= start + whole.trees);
                        assert(self.records() =~= errs0 + whole.errors);
                    }
                    return ;
                },
            };
            let (left_bp, right_bp) = infix_bp(op);
            if left_bp < min_bp {
                proof {
                    lemma_op_loop_stop(src, q0, min_bp, acc, errs);
                    assert(self.children() =~= start + whole.trees);
                    assert(self.records() =~= errs0 + whole.errors);
                }
                return ;
            }
            let ghost q = self.pos();
            let ghost acc1 = acc + j.0.trees;
            let ghost errs1 = errs + j.0.errors;
            proof {
                self.lexer.lemma_wf();
                assert(self.children() =~= start + acc1);
            }
            builder_start_node_at(&mut self.builder, checkpoint, SyntaxKind::Operation.to_raw());
            self.operation_tail(right_bp);
            let ghost w = ws_spec(src, q + token_len(src, q));
            let ghost r = expr_result(src, w.pos, right_bp);
            let ghost tail = seq![token_at(src, q, lead_kind(src[q as int]))] + w.trees + r.trees;
            let ghost full = self.children();
            proof {
                self.lexer.lemma_wf();
                lemma_byte_len_prefix(self.source(), self.pos() as int);
                assert(full =~= start + (acc1 + tail));
                assert(full.take(start.len() as int) =~= start);
            }
            builder_finish_node(&mut self.builder);
            proof {
                let k = start.len() as int;
                let kind = kind_raw(SyntaxKind::Operation);
                let node = Tree::Node { kind, children: acc1 + tail };
                assert(full.skip(k) =~= acc1 + tail);
                assert(full =~= full.take(k) + full.skip(k));
                lemma_seq_text_concat(full.take(k), full.skip(k));
                lemma_seq_text_push(full.take(k), node);
                lemma_op_loop_step(src, q0, min_bp, acc, errs);
                acc = seq![node];
                assert(self.children() =~= start + acc);
                errs = errs1 + r.errors;
                assert(self.records() =~= errs0 + errs);
            }
        }
    }

    /// The rest of an operation once its operator is found: the operator,
    /// the whitespace after it, and the right operand.
    fn operation_tail(&mut self, right_bp: u8)
        requires
            old(self).inv(),
            has_token(old(self).source(), old(self).pos()),
        ensures
            ({
                let src = old(self).source();
                let q = old(self).pos();
                let w = ws_spec(src, q + token_len(src, q));
                let r = expr_result(src, w.pos, right_bp);
                &&& final(self).inv()
                &&& final(self).source() == src
                &&& final(self).pos() == r.pos
                &&& q + token_len(src, q) <= w.pos <= r.pos <= src.len()
                &&& final(self).parents() == old(self).parents()
                &&& final(self).children() == old(self).children() + (seq![
                    token_at(src, q, lead_kind(src[q as int])),
                ] + w.trees + r.trees)
                &&& final(self).records() == old(self).records() + r.errors
            }),
        decreases old(self).source().len() - old(self).pos(), 0nat,
    {
        let ghost src = self.source();
        let ghost q = self.pos();
        let ghost c0 = self.children();
        let ghost r0 = self.records();
        self.eat_as(None);
        let ghost c1 = self.children();
        self.skip_ws();
        let ghost c2 = self.children();
        self.expr_bp(right_bp);
        proof {
            let w = ws_spec(src, q + token_len(src, q));
            let r = expr_result(src, w.pos, right_bp);
            assert(self.children() =~= c0 + (seq![token_at(src, q, lead_kind(src[q as int]))]
                + w.trees + r.trees));
        }
    }
}

/// Appends the text of a green node's tokens, in order.
fn push_node_text(n: &GreenNode, out: &mut String)
    ensures
        final(out)@ == old(out)@ + tree_text(node_tree(*n)),
    decreases node_tree(*n),
{
    let ghost ch = green_node_children(*n);
    let ghost base = out@;
    let count = node_child_count(n);
    let mut i: usize = 0;
    while i < count
        invariant
            ch == green_node_children(*n),
            count == ch.len(),
            i <= count,
            out@ == base + forest_text(ch, i as nat),
        decreases count - i,
    {
        match node_child(n, i) {
            GreenChild::Node(c) => {
                proof {
                    vstd::seq::axiom_seq_index_decreases(ch, i as int);
                    let whole = node_tree(*n);
                    let kind = crate::green::green_node_kind(*n);
                    assert(whole == Tree::Node { kind, children: ch });
                    assert(decreases_to!(whole => whole->Node_children));
                }
                push_node_text(&c, out);
            },
            GreenChild::Token(t) => {
                push_str(out, token_text(&t));
            },
        }
        assert(forest_text(ch, (i + 1) as nat) == forest_text(ch, i as nat) + tree_text(
            ch[i as int],
        ));
        i = i + 1;
        assert(out@ =~= base + forest_text(ch, i as nat));
    }
}

} // verus!
