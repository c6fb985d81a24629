//! What a parse produces, stated over the characters of the source: the
//! elements each step appends to the tree, the errors it records, and where
//! it leaves off.
use vstd::prelude::*;
use crate::ast::Op;
use crate::errors::{SyntaxError, SyntaxErrorKind};
use crate::green::{lemma_seq_text_concat, lemma_seq_text_push, seq_text, tree_text, Tree};
use crate::lexer::{lead_kind, lemma_lexeme_len_bound, lexeme_len};
use crate::syntax_kind::{kind_raw, SyntaxKind};
use crate::text::byte_len;

verus! {

/// An error as the contracts see it: the kind found (none at the end of the
/// input), the kinds expected, and its byte range.
pub struct ErrorRecord {
    pub found: Option<SyntaxKind>,
    pub expected: Seq<SyntaxKind>,
    pub start: nat,
    pub end: nat,
}

/// The outcome of a parsing step: the elements it appends, the errors it
/// records, and the character position where it stops.
pub struct Parsed {
    pub trees: Seq<Tree>,
    pub errors: Seq<ErrorRecord>,
    pub pos: nat,
}

/// A syntax error as a record.
pub open spec fn error_record(e: SyntaxError) -> ErrorRecord {
    match e.kind {
        SyntaxErrorKind::FoundExpected { found, expected } => ErrorRecord {
            found: Some(found),
            expected: expected@,
            start: e.range.start as nat,
            end: e.range.end as nat,
        },
        SyntaxErrorKind::Expected { expected } => ErrorRecord {
            found: None,
            expected: expected@,
            start: e.range.start as nat,
            end: e.range.end as nat,
        },
    }
}

/// The binding powers of an operator, left and right: `+` and `-` bind
/// loosest, and a left power below the right one makes a level associate to
/// the left.
pub open spec fn binding_power(op: Op) -> (u8, u8) {
    match op {
        Op::Add | Op::Sub => (1, 2),
        Op::Mul | Op::Div => (3, 4),
    }
}

/// The operator of an operator kind.
pub open spec fn op_of_kind(k: SyntaxKind) -> Option<Op> {
    match k {
        SyntaxKind::Plus => Some(Op::Add),
        SyntaxKind::Star => Some(Op::Mul),
        SyntaxKind::Slash => Some(Op::Div),
        SyntaxKind::Minus => Some(Op::Sub),
        _ => None,
    }
}

/// The kinds expected where an operator is missing, in the order they are
/// tried.
pub open spec fn operator_kinds() -> Seq<SyntaxKind> {
    seq![SyntaxKind::Plus, SyntaxKind::Star, SyntaxKind::Slash, SyntaxKind::Minus]
}

/// The length in characters of the lexeme at `pos`.
pub open spec fn token_len(src: Seq<char>, pos: nat) -> nat {
    lexeme_len(src.skip(pos as int))
}

/// Whether a lexeme starts at `pos`.
pub open spec fn has_token(src: Seq<char>, pos: nat) -> bool {
    pos < src.len() && 0 < token_len(src, pos) && pos + token_len(src, pos) <= src.len()
}

/// The lexeme at `pos` as a token of kind `kind`.
pub open spec fn token_at(src: Seq<char>, pos: nat, kind: SyntaxKind) -> Tree {
    Tree::Token {
        kind: kind_raw(kind),
        text: src.subrange(pos as int, (pos + token_len(src, pos)) as int),
    }
}

/// The byte offset of character position `pos`.
pub open spec fn offset_of(src: Seq<char>, pos: nat) -> nat {
    byte_len(src.take(pos as int))
}

/// The error for an unexpected lexeme at `pos`.
pub open spec fn junk_error(src: Seq<char>, pos: nat, expected: Seq<SyntaxKind>) -> ErrorRecord {
    ErrorRecord {
        found: Some(lead_kind(src[pos as int])),
        expected,
        start: offset_of(src, pos),
        end: offset_of(src, pos + token_len(src, pos)),
    }
}

/// The whitespace lexemes at `pos`, each as its own token.
pub open spec fn ws_spec(src: Seq<char>, pos: nat) -> Parsed
    decreases src.len() - pos,
{
    if has_token(src, pos) && lead_kind(src[pos as int]) == SyntaxKind::Whitespace {
        let rest = ws_spec(src, pos + token_len(src, pos));
        Parsed {
            trees: seq![token_at(src, pos, SyntaxKind::Whitespace)] + rest.trees,
            errors: rest.errors,
            pos: rest.pos,
        }
    } else {
        Parsed { trees: seq![], errors: seq![], pos }
    }
}

/// An operand at `pos`: lexemes other than a number become error tokens,
/// each with an error, up to the first number; the flag says whether one was
/// found before the end of the input, where an error is recorded instead.
pub open spec fn operand_spec(src: Seq<char>, pos: nat) -> (Parsed, bool)
    decreases src.len() - pos,
{
    if !has_token(src, pos) {
        (
            Parsed {
                trees: seq![],
                errors: seq![
                    ErrorRecord {
                        found: None,
                        expected: seq![SyntaxKind::Number],
                        start: offset_of(src, pos),
                        end: offset_of(src, pos),
                    },
                ],
                pos,
            },
            false,
        )
    } else if lead_kind(src[pos as int]) == SyntaxKind::Number {
        (
            Parsed {
                trees: seq![token_at(src, pos, SyntaxKind::Number)],
                errors: seq![],
                pos: pos + token_len(src, pos),
            },
            true,
        )
    } else {
        let r = operand_spec(src, pos + token_len(src, pos));
        (
            Parsed {
                trees: seq![token_at(src, pos, SyntaxKind::Error)] + r.0.trees,
                errors: seq![junk_error(src, pos, seq![SyntaxKind::Number])] + r.0.errors,
                pos: r.0.pos,
            },
            r.1,
        )
    }
}

/// The search for an operator at `pos`: lexemes that are not operators
/// become error tokens, each with an error. It stops in front of the first
/// operator, which it does not consume, or at the end of the input.
pub open spec fn find_op_spec(src: Seq<char>, pos: nat) -> (Parsed, Option<Op>)
    decreases src.len() - pos,
{
    if !has_token(src, pos) {
        (Parsed { trees: seq![], errors: seq![], pos }, None)
    } else if op_of_kind(lead_kind(src[pos as int])) is Some {
        (Parsed { trees: seq![], errors: seq![], pos }, op_of_kind(lead_kind(src[pos as int])))
    } else {
        let r = find_op_spec(src, pos + token_len(src, pos));
        (
            Parsed {
                trees: seq![token_at(src, pos, SyntaxKind::Error)] + r.0.trees,
                errors: seq![junk_error(src, pos, operator_kinds())] + r.0.errors,
                pos: r.0.pos,
            },
            r.1,
        )
    }
}

/// An expression at `pos` whose operators bind at least as tightly as
/// `min_bp`: an operand, the whitespace after it, then the operator loop.
/// (The position checks only make termination evident: positions never go
/// back.)
pub open spec fn expr_spec(src: Seq<char>, pos: nat, min_bp: u8) -> Parsed
    decreases src.len() - pos, 1nat,
{
    let (o, found) = operand_spec(src, pos);
    let w = ws_spec(src, o.pos);
    if !found || w.pos < pos || w.pos > src.len() {
        o
    } else {
        op_loop_spec(src, w.pos, min_bp, o.trees + w.trees, o.errors)
    }
}

/// The operator loop at `pos`, with `acc` the elements since the start of
/// the expression and `errs` its errors so far. An operator that binds less
/// tightly than `min_bp`, or the end of the input, ends the loop; otherwise
/// everything so far, the operator, the whitespace after it and the right
/// operand become one operation node, which is the left operand of the next
/// round.
pub open spec fn op_loop_spec(
    src: Seq<char>,
    pos: nat,
    min_bp: u8,
    acc: Seq<Tree>,
    errs: Seq<ErrorRecord>,
) -> Parsed
    decreases src.len() - pos, 0nat,
{
    let (j, found) = find_op_spec(src, pos);
    let stop = Parsed { trees: acc + j.trees, errors: errs + j.errors, pos: j.pos };
    match found {
        None => stop,
        Some(op) => {
            let q = j.pos;
            let w = ws_spec(src, q + token_len(src, q));
            if binding_power(op).0 < min_bp || q < pos || token_len(src, q) == 0 || w.pos < q
                + token_len(src, q) || w.pos > src.len() {
                stop
            } else {
                let r = expr_spec(src, w.pos, binding_power(op).1);
                let node = Tree::Node {
                    kind: kind_raw(SyntaxKind::Operation),
                    children: acc + j.trees + seq![token_at(src, q, lead_kind(src[q as int]))]
                        + w.trees + r.trees,
                };
                let errors = errs + j.errors + r.errors;
                if r.pos <= pos || r.pos > src.len() {
                    Parsed { trees: seq![node], errors, pos: r.pos }
                } else {
                    op_loop_spec(src, r.pos, min_bp, seq![node], errors)
                }
            }
        },
    }
}

/// The whole parse of `src`: leading whitespace, an expression, trailing
/// whitespace, under a root node; and the errors met.
pub open spec fn parse_spec(src: Seq<char>) -> (Tree, Seq<ErrorRecord>) {
    let w1 = ws_spec(src, 0);
    let e = expr_spec(src, w1.pos, 0);
    let w2 = ws_spec(src, e.pos);
    (
        Tree::Node { kind: kind_raw(SyntaxKind::Root), children: w1.trees + e.trees + w2.trees },
        e.errors,
    )
}

/// `expr_spec`, sealed: proofs about the parser go through the unfolding
/// lemmas below rather than the definition.
#[verifier::opaque]
pub open spec fn expr_result(src: Seq<char>, pos: nat, min_bp: u8) -> Parsed {
    expr_spec(src, pos, min_bp)
}

/// `op_loop_spec`, sealed in the same way.
#[verifier::opaque]
pub open spec fn op_loop_result(
    src: Seq<char>,
    pos: nat,
    min_bp: u8,
    acc: Seq<Tree>,
    errs: Seq<ErrorRecord>,
) -> Parsed {
    op_loop_spec(src, pos, min_bp, acc, errs)
}

/// An expression that starts with an operand goes on with the operator
/// loop after the whitespace that follows the operand; one that finds none
/// is just the failed operand.
pub proof fn lemma_expr_unfold(src: Seq<char>, pos: nat, min_bp: u8)
    requires
        pos <= operand_spec(src, pos).0.pos,
        operand_spec(src, pos).0.pos <= ws_spec(src, operand_spec(src, pos).0.pos).pos <= src.len(),
    ensures
        ({
            let (o, found) = operand_spec(src, pos);
            let w = ws_spec(src, o.pos);
            &&& !found ==> expr_result(src, pos, min_bp) == o
            &&& found ==> expr_result(src, pos, min_bp) == op_loop_result(
                src,
                w.pos,
                min_bp,
                o.trees + w.trees,
                o.errors,
            )
        }),
{
    reveal(expr_result);
    reveal(op_loop_result);
}

/// The operator loop stops at the end of the input, or in front of an
/// operator that binds less tightly than `min_bp`.
pub proof fn lemma_op_loop_stop(
    src: Seq<char>,
    pos: nat,
    min_bp: u8,
    acc: Seq<Tree>,
    errs: Seq<ErrorRecord>,
)
    requires
        find_op_spec(src, pos).1 is None || binding_power(find_op_spec(src, pos).1->0).0
            < min_bp,
    ensures
        ({
            let j = find_op_spec(src, pos).0;
            op_loop_result(src, pos, min_bp, acc, errs) == (Parsed {
                trees: acc + j.trees,
                errors: errs + j.errors,
                pos: j.pos,
            })
        }),
{
    reveal(op_loop_result);
}

/// One round of the operator loop: everything so far, the operator, the
/// whitespace after it and the right operand become one operation node.
pub proof fn lemma_op_loop_step(
    src: Seq<char>,
    pos: nat,
    min_bp: u8,
    acc: Seq<Tree>,
    errs: Seq<ErrorRecord>,
)
    requires
        find_op_spec(src, pos).1 is Some,
        binding_power(find_op_spec(src, pos).1->0).0 >= min_bp,
        pos <= find_op_spec(src, pos).0.pos,
        has_token(src, find_op_spec(src, pos).0.pos),
        ({
            let q = find_op_spec(src, pos).0.pos;
            let w = ws_spec(src, q + token_len(src, q));
            let r = expr_result(src, w.pos, binding_power(find_op_spec(src, pos).1->0).1);
            q + token_len(src, q) <= w.pos <= r.pos <= src.len()
        }),
    ensures
        ({
            let (j, found) = find_op_spec(src, pos);
            let q = j.pos;
            let w = ws_spec(src, q + token_len(src, q));
            let r = expr_result(src, w.pos, binding_power(found->0).1);
            let node = Tree::Node {
                kind: kind_raw(SyntaxKind::Operation),
                children: acc + j.trees + (seq![token_at(src, q, lead_kind(src[q as int]))]
                    + w.trees + r.trees),
            };
            op_loop_result(src, pos, min_bp, acc, errs) == op_loop_result(
                src,
                r.pos,
                min_bp,
                seq![node],
                errs + j.errors + r.errors,
            )
        }),
{
    reveal(expr_result);
    reveal(op_loop_result);
    let (j, found) = find_op_spec(src, pos);
    let q = j.pos;
    let w = ws_spec(src, q + token_len(src, q));
    let r = expr_result(src, w.pos, binding_power(found->0).1);
    let t = seq![token_at(src, q, lead_kind(src[q as int]))];
    assert(acc + j.trees + t + w.trees + r.trees =~= acc + j.trees + (t + w.trees + r.trees));
}

/// A lexeme starts wherever input is left.
pub proof fn lemma_token_here(src: Seq<char>, pos: nat)
    requires
        pos < src.len(),
    ensures
        has_token(src, pos),
        src.skip(pos as int)[0] == src[pos as int],
{
    lemma_lexeme_len_bound(src.skip(pos as int));
}

proof fn lemma_single_text(t: Tree)
    ensures
        seq_text(seq![t]) == tree_text(t),
{
    lemma_seq_text_push(seq![], t);
    assert(Seq::<Tree>::empty().push(t) =~= seq![t]);
    assert(seq_text(Seq::<Tree>::empty()) =~= Seq::<char>::empty());
}

/// A token followed by more trees holds the text of both.
proof fn lemma_cons_text(src: Seq<char>, pos: nat, k: SyntaxKind, rest: Seq<Tree>, end: nat)
    requires
        has_token(src, pos),
        pos + token_len(src, pos) <= end <= src.len(),
        seq_text(rest) == src.subrange((pos + token_len(src, pos)) as int, end as int),
    ensures
        seq_text(seq![token_at(src, pos, k)] + rest) == src.subrange(pos as int, end as int),
{
    let t = token_at(src, pos, k);
    lemma_single_text(t);
    lemma_seq_text_concat(seq![t], rest);
    let mid = (pos + token_len(src, pos)) as int;
    assert(src.subrange(pos as int, mid) + src.subrange(mid, end as int) =~= src.subrange(
        pos as int,
        end as int,
    ));
}

proof fn lemma_ws_text(src: Seq<char>, pos: nat)
    requires
        pos <= src.len(),
    ensures
        pos <= ws_spec(src, pos).pos <= src.len(),
        seq_text(ws_spec(src, pos).trees) == src.subrange(pos as int, ws_spec(src, pos).pos as int),
    decreases src.len() - pos,
{
    if has_token(src, pos) && lead_kind(src[pos as int]) == SyntaxKind::Whitespace {
        let n = token_len(src, pos);
        lemma_ws_text(src, pos + n);
        let rest = ws_spec(src, pos + n);
        lemma_cons_text(src, pos, SyntaxKind::Whitespace, rest.trees, rest.pos);
    } else {
        assert(src.subrange(pos as int, pos as int) =~= Seq::<char>::empty());
    }
}

proof fn lemma_operand_text(src: Seq<char>, pos: nat)
    requires
        pos <= src.len(),
    ensures
        pos <= operand_spec(src, pos).0.pos <= src.len(),
        seq_text(operand_spec(src, pos).0.trees) == src.subrange(
            pos as int,
            operand_spec(src, pos).0.pos as int,
        ),
        !operand_spec(src, pos).1 ==> operand_spec(src, pos).0.pos == src.len(),
    decreases src.len() - pos,
{
    if pos < src.len() {
        lemma_token_here(src, pos);
    }
    if !has_token(src, pos) {
        assert(src.subrange(pos as int, pos as int) =~= Seq::<char>::empty());
    } else if lead_kind(src[pos as int]) == SyntaxKind::Number {
        let n = token_len(src, pos);
        assert(src.subrange((pos + n) as int, (pos + n) as int) =~= Seq::<char>::empty());
        assert(seq![token_at(src, pos, SyntaxKind::Number)] + Seq::<Tree>::empty() =~= seq![
            token_at(src, pos, SyntaxKind::Number),
        ]);
        lemma_cons_text(src, pos, SyntaxKind::Number, seq![], pos + n);
    } else {
        let n = token_len(src, pos);
        lemma_operand_text(src, pos + n);
        let r = operand_spec(src, pos + n);
        lemma_cons_text(src, pos, SyntaxKind::Error, r.0.trees, r.0.pos);
    }
}

proof fn lemma_find_op_text(src: Seq<char>, pos: nat)
    requires
        pos <= src.len(),
    ensures
        pos <= find_op_spec(src, pos).0.pos <= src.len(),
        seq_text(find_op_spec(src, pos).0.trees) == src.subrange(
            pos as int,
            find_op_spec(src, pos).0.pos as int,
        ),
        find_op_spec(src, pos).1 is None ==> find_op_spec(src, pos).0.pos == src.len(),
        find_op_spec(src, pos).1 is Some ==> has_token(src, find_op_spec(src, pos).0.pos),
    decreases src.len() - pos,
{
    if pos < src.len() {
        lemma_token_here(src, pos);
    }
    if !has_token(src, pos) || op_of_kind(lead_kind(src[pos as int])) is Some {
        assert(src.subrange(pos as int, pos as int) =~= Seq::<char>::empty());
    } else {
        let n = token_len(src, pos);
        lemma_find_op_text(src, pos + n);
        let r = find_op_spec(src, pos + n);
        lemma_cons_text(src, pos, SyntaxKind::Error, r.0.trees, r.0.pos);
    }
}

proof fn lemma_expr_text(src: Seq<char>, pos: nat, min_bp: u8)
    requires
        pos <= src.len(),
    ensures
        pos <= expr_result(src, pos, min_bp).pos <= src.len(),
        seq_text(expr_result(src, pos, min_bp).trees) == src.subrange(
            pos as int,
            expr_result(src, pos, min_bp).pos as int,
        ),
        min_bp == 0 ==> expr_result(src, pos, min_bp).pos == src.len(),
    decreases src.len() - pos, 2nat,
{
    let (o, found) = operand_spec(src, pos);
    lemma_operand_text(src, pos);
    let w = ws_spec(src, o.pos);
    lemma_ws_text(src, o.pos);
    lemma_expr_unfold(src, pos, min_bp);
    if found {
        lemma_op_loop_text(src, w.pos, min_bp, o.trees + w.trees, o.errors);
        lemma_seq_text_concat(o.trees, w.trees);
        assert(src.subrange(pos as int, o.pos as int) + src.subrange(o.pos as int, w.pos as int)
            =~= src.subrange(pos as int, w.pos as int));
        let r = op_loop_result(src, w.pos, min_bp, o.trees + w.trees, o.errors);
        assert(src.subrange(pos as int, w.pos as int) + src.subrange(w.pos as int, r.pos as int)
            =~= src.subrange(pos as int, r.pos as int));
    }
}

proof fn lemma_op_loop_text(
    src: Seq<char>,
    pos: nat,
    min_bp: u8,
    acc: Seq<Tree>,
    errs: Seq<ErrorRecord>,
)
    requires
        pos <= src.len(),
    ensures
        ({
            let r = op_loop_result(src, pos, min_bp, acc, errs);
            &&& pos <= r.pos <= src.len()
            &&& seq_text(r.trees) == seq_text(acc) + src.subrange(pos as int, r.pos as int)
            &&& min_bp == 0 ==> r.pos == src.len()
        }),
    decreases src.len() - pos, 1nat,
{
    let (j, found) = find_op_spec(src, pos);
    lemma_find_op_text(src, pos);
    if found is None || binding_power(found->0).0 < min_bp {
        lemma_seq_text_concat(acc, j.trees);
        lemma_op_loop_stop(src, pos, min_bp, acc, errs);
    } else {
        lemma_op_round_text(src, pos, min_bp, acc, errs);
    }
}

/// The children of an operation node hold the text from the start of the
/// round to the end of its right operand.
proof fn lemma_round_children_text(
    src: Seq<char>,
    pos: nat,
    q: nat,
    wpos: nat,
    rpos: nat,
    acc: Seq<Tree>,
    junk: Seq<Tree>,
    ws: Seq<Tree>,
    rhs: Seq<Tree>,
)
    requires
        pos <= q,
        has_token(src, q),
        q + token_len(src, q) <= wpos <= rpos <= src.len(),
        seq_text(junk) == src.subrange(pos as int, q as int),
        seq_text(ws) == src.subrange((q + token_len(src, q)) as int, wpos as int),
        seq_text(rhs) == src.subrange(wpos as int, rpos as int),
    ensures
        seq_text(acc + junk + (seq![token_at(src, q, lead_kind(src[q as int]))] + ws + rhs))
            == seq_text(acc) + src.subrange(pos as int, rpos as int),
{
    let t = token_at(src, q, lead_kind(src[q as int]));
    let tail = seq![t] + ws + rhs;
    lemma_seq_text_concat(acc, junk);
    lemma_seq_text_concat(ws, rhs);
    let mid = (q + token_len(src, q)) as int;
    assert(src.subrange(mid, wpos as int) + src.subrange(wpos as int, rpos as int) =~= src.subrange(
        mid,
        rpos as int,
    ));
    lemma_cons_text(src, q, lead_kind(src[q as int]), ws + rhs, rpos);
    assert(tail =~= seq![t] + (ws + rhs));
    lemma_seq_text_concat(acc + junk, tail);
    let whole = src.subrange(pos as int, rpos as int);
    assert(src.subrange(pos as int, q as int) + src.subrange(q as int, rpos as int) =~= whole);
}

/// One round of the operator loop keeps the text.
proof fn lemma_op_round_text(
    src: Seq<char>,
    pos: nat,
    min_bp: u8,
    acc: Seq<Tree>,
    errs: Seq<ErrorRecord>,
)
    requires
        pos <= src.len(),
        find_op_spec(src, pos).1 is Some,
        binding_power(find_op_spec(src, pos).1->0).0 >= min_bp,
    ensures
        ({
            let r = op_loop_result(src, pos, min_bp, acc, errs);
            &&& pos <= r.pos <= src.len()
            &&& seq_text(r.trees) == seq_text(acc) + src.subrange(pos as int, r.pos as int)
            &&& min_bp == 0 ==> r.pos == src.len()
        }),
    decreases src.len() - pos, 0nat,
{
    let (j, found) = find_op_spec(src, pos);
    let op = found->0;
    lemma_find_op_text(src, pos);
    let q = j.pos;
    let n = token_len(src, q);
    lemma_ws_text(src, q + n);
    let w = ws_spec(src, q + n);
    lemma_expr_text(src, w.pos, binding_power(op).1);
    let r = expr_result(src, w.pos, binding_power(op).1);
    let t = token_at(src, q, lead_kind(src[q as int]));
    let tail = seq![t] + w.trees + r.trees;
    let children = acc + j.trees + tail;
    let node = Tree::Node { kind: kind_raw(SyntaxKind::Operation), children };
    let errors = errs + j.errors + r.errors;
    lemma_op_loop_step(src, pos, min_bp, acc, errs);
    lemma_round_children_text(src, pos, q, w.pos, r.pos, acc, j.trees, w.trees, r.trees);
    lemma_single_text(node);
    lemma_op_loop_text(src, r.pos, min_bp, seq![node], errors);
    let z = op_loop_result(src, r.pos, min_bp, seq![node], errors);
    assert(src.subrange(pos as int, r.pos as int) + src.subrange(r.pos as int, z.pos as int)
        =~= src.subrange(pos as int, z.pos as int));
}

/// Losslessness: every character of the source lands in the parse tree, in
/// order, whatever the source holds.
pub proof fn lemma_parse_lossless(src: Seq<char>)
    ensures
        tree_text(parse_spec(src).0) == src,
{
    let w1 = ws_spec(src, 0);
    lemma_ws_text(src, 0);
    reveal(expr_result);
    let e = expr_spec(src, w1.pos, 0);
    lemma_expr_text(src, w1.pos, 0);
    let w2 = ws_spec(src, e.pos);
    lemma_ws_text(src, e.pos);
    lemma_seq_text_concat(w1.trees, e.trees);
    lemma_seq_text_concat(w1.trees + e.trees, w2.trees);
    let (a, b) = (w1.pos as int, e.pos as int);
    assert(src.subrange(0, a) + src.subrange(a, b) + src.subrange(b, w2.pos as int) =~= src);
}

/// A number lexeme at `pos`, the whitespace after it, and then a well-formed
/// tail. (The position checks only make termination evident.)
pub open spec fn operand_ok(src: Seq<char>, pos: nat) -> bool
    decreases src.len() - pos, 1nat,
{
    has_token(src, pos) && lead_kind(src[pos as int]) == SyntaxKind::Number && {
        let q = ws_spec(src, pos + token_len(src, pos)).pos;
        pos + token_len(src, pos) <= q <= src.len() && tail_ok(src, q)
    }
}

/// The end of the text, or an operator lexeme at `pos`, the whitespace after
/// it, and a well-formed operand.
pub open spec fn tail_ok(src: Seq<char>, pos: nat) -> bool
    decreases src.len() - pos, 0nat,
{
    pos == src.len() || (has_token(src, pos) && op_of_kind(lead_kind(src[pos as int])) is Some
        && {
        let q = ws_spec(src, pos + token_len(src, pos)).pos;
        pos + token_len(src, pos) <= q <= src.len() && operand_ok(src, q)
    })
}

/// A well-formed text: its lexemes read whitespace, a number, then any
/// number of operators each followed by a number, with whitespace allowed
/// after each number and each operator.
pub open spec fn well_formed(src: Seq<char>) -> bool {
    operand_ok(src, ws_spec(src, 0).pos)
}

proof fn lemma_find_op_clean(src: Seq<char>, pos: nat)
    requires
        pos <= src.len(),
        tail_ok(src, pos),
    ensures
        find_op_spec(src, pos).0.errors.len() == 0,
        find_op_spec(src, pos).0.trees.len() == 0,
        find_op_spec(src, pos).0.pos == pos,
        pos == src.len() ==> find_op_spec(src, pos).1 is None,
{
}

proof fn lemma_expr_clean(src: Seq<char>, pos: nat, min_bp: u8)
    requires
        pos <= src.len(),
        operand_ok(src, pos),
    ensures
        expr_result(src, pos, min_bp).errors.len() == 0,
        tail_ok(src, expr_result(src, pos, min_bp).pos),
        pos <= expr_result(src, pos, min_bp).pos <= src.len(),
    decreases src.len() - pos, 2nat,
{
    lemma_operand_text(src, pos);
    let (o, found) = operand_spec(src, pos);
    lemma_ws_text(src, o.pos);
    let w = ws_spec(src, o.pos);
    lemma_expr_unfold(src, pos, min_bp);
    assert(o.errors =~= Seq::<ErrorRecord>::empty());
    lemma_op_loop_clean(src, w.pos, min_bp, o.trees + w.trees, o.errors);
}

proof fn lemma_op_loop_clean(
    src: Seq<char>,
    pos: nat,
    min_bp: u8,
    acc: Seq<Tree>,
    errs: Seq<ErrorRecord>,
)
    requires
        pos <= src.len(),
        tail_ok(src, pos),
    ensures
        op_loop_result(src, pos, min_bp, acc, errs).errors == errs,
        tail_ok(src, op_loop_result(src, pos, min_bp, acc, errs).pos),
        pos <= op_loop_result(src, pos, min_bp, acc, errs).pos <= src.len(),
    decreases src.len() - pos, 1nat,
{
    let (j, found) = find_op_spec(src, pos);
    lemma_find_op_clean(src, pos);
    lemma_find_op_text(src, pos);
    if found is None || binding_power(found->0).0 < min_bp {
        lemma_op_loop_stop(src, pos, min_bp, acc, errs);
        assert(errs + j.errors =~= errs);
    } else {
        lemma_op_round_clean(src, pos, min_bp, acc, errs);
    }
}

/// One round of the operator loop over a well-formed tail records no error.
proof fn lemma_op_round_clean(
    src: Seq<char>,
    pos: nat,
    min_bp: u8,
    acc: Seq<Tree>,
    errs: Seq<ErrorRecord>,
)
    requires
        pos <= src.len(),
        tail_ok(src, pos),
        find_op_spec(src, pos).1 is Some,
        binding_power(find_op_spec(src, pos).1->0).0 >= min_bp,
    ensures
        op_loop_result(src, pos, min_bp, acc, errs).errors == errs,
        tail_ok(src, op_loop_result(src, pos, min_bp, acc, errs).pos),
        pos <= op_loop_result(src, pos, min_bp, acc, errs).pos <= src.len(),
    decreases src.len() - pos, 0nat,
{
    let (j, found) = find_op_spec(src, pos);
    let op = found->0;
    lemma_find_op_clean(src, pos);
    lemma_find_op_text(src, pos);
    let n = token_len(src, pos);
    lemma_ws_text(src, pos + n);
    let w = ws_spec(src, pos + n);
    lemma_expr_text(src, w.pos, binding_power(op).1);
    lemma_expr_clean(src, w.pos, binding_power(op).1);
    let r = expr_result(src, w.pos, binding_power(op).1);
    let t = token_at(src, pos, lead_kind(src[pos as int]));
    let node = Tree::Node {
        kind: kind_raw(SyntaxKind::Operation),
        children: acc + j.trees + (seq![t] + w.trees + r.trees),
    };
    lemma_op_loop_step(src, pos, min_bp, acc, errs);
    assert(errs + j.errors + r.errors =~= errs);
    lemma_op_loop_clean(src, r.pos, min_bp, seq![node], errs);
}

/// A well-formed text parses with no error.
pub proof fn lemma_well_formed_parses_cleanly(src: Seq<char>)
    requires
        well_formed(src),
    ensures
        parse_spec(src).1.len() == 0,
{
    lemma_ws_text(src, 0);
    let w1 = ws_spec(src, 0);
    lemma_expr_clean(src, w1.pos, 0);
    reveal(expr_result);
}

proof fn lemma_operand_missing(src: Seq<char>, pos: nat)
    requires
        !operand_spec(src, pos).1,
    ensures
        operand_spec(src, pos).0.errors.len() > 0,
    decreases src.len() - pos,
{
    if has_token(src, pos) && lead_kind(src[pos as int]) != SyntaxKind::Number {
        lemma_operand_missing(src, pos + token_len(src, pos));
    }
}

proof fn lemma_operand_errors(src: Seq<char>, pos: nat)
    requires
        pos <= src.len(),
        operand_spec(src, pos).0.errors.len() == 0,
    ensures
        has_token(src, pos),
        lead_kind(src[pos as int]) == SyntaxKind::Number,
{
    if pos < src.len() {
        lemma_token_here(src, pos);
    }
}

proof fn lemma_find_op_errors(src: Seq<char>, pos: nat)
    requires
        pos <= src.len(),
        find_op_spec(src, pos).0.errors.len() == 0,
    ensures
        pos == src.len() || (has_token(src, pos) && op_of_kind(lead_kind(src[pos as int])) is Some
            && find_op_spec(src, pos).0.pos == pos && find_op_spec(src, pos).1 == op_of_kind(
            lead_kind(src[pos as int]),
        )),
{
    if pos < src.len() {
        lemma_token_here(src, pos);
    }
}

/// The operator loop never drops errors: those of the search for its first
/// operator come on top of the ones it was given.
proof fn lemma_op_loop_errors_grow(
    src: Seq<char>,
    pos: nat,
    min_bp: u8,
    acc: Seq<Tree>,
    errs: Seq<ErrorRecord>,
)
    requires
        pos <= src.len(),
    ensures
        op_loop_result(src, pos, min_bp, acc, errs).errors.len() >= errs.len()
            + find_op_spec(src, pos).0.errors.len(),
    decreases src.len() - pos,
{
    let (j, found) = find_op_spec(src, pos);
    lemma_find_op_text(src, pos);
    if found is None || binding_power(found->0).0 < min_bp {
        lemma_op_loop_stop(src, pos, min_bp, acc, errs);
    } else {
        let op = found->0;
        let q = j.pos;
        let n = token_len(src, q);
        lemma_ws_text(src, q + n);
        let w = ws_spec(src, q + n);
        lemma_expr_text(src, w.pos, binding_power(op).1);
        let r = expr_result(src, w.pos, binding_power(op).1);
        let t = token_at(src, q, lead_kind(src[q as int]));
        let node = Tree::Node {
            kind: kind_raw(SyntaxKind::Operation),
            children: acc + j.trees + (seq![t] + w.trees + r.trees),
        };
        lemma_op_loop_step(src, pos, min_bp, acc, errs);
        lemma_op_loop_errors_grow(src, r.pos, min_bp, seq![node], errs + j.errors + r.errors);
    }
}

proof fn lemma_expr_clean_back(src: Seq<char>, pos: nat, min_bp: u8)
    requires
        pos <= src.len(),
        expr_result(src, pos, min_bp).errors.len() == 0,
        tail_ok(src, expr_result(src, pos, min_bp).pos),
    ensures
        operand_ok(src, pos),
    decreases src.len() - pos, 2nat,
{
    lemma_operand_text(src, pos);
    let (o, found) = operand_spec(src, pos);
    lemma_ws_text(src, o.pos);
    let w = ws_spec(src, o.pos);
    lemma_expr_unfold(src, pos, min_bp);
    if !found {
        lemma_operand_missing(src, pos);
    }
    lemma_op_loop_errors_grow(src, w.pos, min_bp, o.trees + w.trees, o.errors);
    lemma_operand_errors(src, pos);
    assert(o.errors =~= Seq::<ErrorRecord>::empty());
    assert(expr_result(src, pos, min_bp).errors =~= o.errors);
    lemma_op_loop_clean_back(src, w.pos, min_bp, o.trees + w.trees, o.errors);
}

proof fn lemma_op_loop_clean_back(
    src: Seq<char>,
    pos: nat,
    min_bp: u8,
    acc: Seq<Tree>,
    errs: Seq<ErrorRecord>,
)
    requires
        pos <= src.len(),
        op_loop_result(src, pos, min_bp, acc, errs).errors == errs,
        tail_ok(src, op_loop_result(src, pos, min_bp, acc, errs).pos),
    ensures
        tail_ok(src, pos),
    decreases src.len() - pos, 1nat,
{
    let (j, found) = find_op_spec(src, pos);
    lemma_find_op_text(src, pos);
    lemma_op_loop_errors_grow(src, pos, min_bp, acc, errs);
    lemma_find_op_errors(src, pos);
    if pos < src.len() {
        if binding_power(found->0).0 < min_bp {
            lemma_op_loop_stop(src, pos, min_bp, acc, errs);
        } else {
            lemma_op_round_clean_back(src, pos, min_bp, acc, errs);
        }
    }
}

proof fn lemma_op_round_clean_back(
    src: Seq<char>,
    pos: nat,
    min_bp: u8,
    acc: Seq<Tree>,
    errs: Seq<ErrorRecord>,
)
    requires
        pos < src.len(),
        has_token(src, pos),
        op_of_kind(lead_kind(src[pos as int])) is Some,
        find_op_spec(src, pos).0.pos == pos,
        find_op_spec(src, pos).0.errors.len() == 0,
        find_op_spec(src, pos).1 == op_of_kind(lead_kind(src[pos as int])),
        binding_power(find_op_spec(src, pos).1->0).0 >= min_bp,
        op_loop_result(src, pos, min_bp, acc, errs).errors == errs,
        tail_ok(src, op_loop_result(src, pos, min_bp, acc, errs).pos),
    ensures
        tail_ok(src, pos),
    decreases src.len() - pos, 0nat,
{
    let (j, found) = find_op_spec(src, pos);
    let op = found->0;
    lemma_find_op_text(src, pos);
    let n = token_len(src, pos);
    lemma_ws_text(src, pos + n);
    let w = ws_spec(src, pos + n);
    lemma_expr_text(src, w.pos, binding_power(op).1);
    let r = expr_result(src, w.pos, binding_power(op).1);
    let t = token_at(src, pos, lead_kind(src[pos as int]));
    let node = Tree::Node {
        kind: kind_raw(SyntaxKind::Operation),
        children: acc + j.trees + (seq![t] + w.trees + r.trees),
    };
    lemma_op_loop_step(src, pos, min_bp, acc, errs);
    let errs2 = errs + j.errors + r.errors;
    lemma_op_loop_errors_grow(src, r.pos, min_bp, seq![node], errs2);
    assert(r.errors.len() == 0);
    assert(errs2 =~= errs);
    lemma_op_loop_clean_back(src, r.pos, min_bp, seq![node], errs2);
    lemma_expr_clean_back(src, w.pos, binding_power(op).1);
}

/// A text parses with no error exactly when it is well formed.
pub proof fn lemma_clean_exactly_when_well_formed(src: Seq<char>)
    ensures
        parse_spec(src).1.len() == 0 <==> well_formed(src),
{
    lemma_ws_text(src, 0);
    let w1 = ws_spec(src, 0);
    if well_formed(src) {
        lemma_well_formed_parses_cleanly(src);
    }
    if parse_spec(src).1.len() == 0 {
        lemma_expr_text(src, w1.pos, 0);
        reveal(expr_result);
        lemma_expr_clean_back(src, w1.pos, 0);
    }
}

} // verus!
