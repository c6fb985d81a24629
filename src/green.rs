//! The lossless tree, kept in rowan's green nodes, and the model that the
//! contracts speak of.
use vstd::prelude::*;
use rowan::{Checkpoint, GreenNode, GreenNodeBuilder, GreenToken, NodeOrToken};
use crate::text::byte_len;

verus! {

/// A tree as the contracts see it: interior nodes with ordered children, and
/// tokens that hold their exact text.
pub enum Tree {
    Node { kind: u16, children: Seq<Tree> },
    Token { kind: u16, text: Seq<char> },
}

/// The text of a tree: the text of its tokens, in order.
pub open spec fn tree_text(t: Tree) -> Seq<char>
    decreases t, 0nat,
{
    match t {
        Tree::Token { text, .. } => text,
        Tree::Node { children, .. } => forest_text(children, children.len()),
    }
}

/// The text of the first `n` trees of `ts`, laid end to end.
pub open spec fn forest_text(ts: Seq<Tree>, n: nat) -> Seq<char>
    decreases ts, n,
{
    if n == 0 || n > ts.len() {
        seq![]
    } else {
        forest_text(ts, (n - 1) as nat) + tree_text(ts[n - 1])
    }
}

/// The text of all trees of `ts`.
pub open spec fn seq_text(ts: Seq<Tree>) -> Seq<char> {
    forest_text(ts, ts.len())
}

/// The text of a prefix does not depend on what follows it.
pub proof fn lemma_forest_text_prefix(ts: Seq<Tree>, us: Seq<Tree>, n: nat)
    requires
        n <= ts.len(),
        n <= us.len(),
        ts.take(n as int) == us.take(n as int),
    ensures
        forest_text(ts, n) == forest_text(us, n),
    decreases n,
{
    if n > 0 {
        assert(ts[n - 1] == ts.take(n as int)[n - 1]);
        assert(us[n - 1] == us.take(n as int)[n - 1]);
        assert(ts.take(n - 1) =~= ts.take(n as int).take(n - 1));
        assert(us.take(n - 1) =~= us.take(n as int).take(n - 1));
        lemma_forest_text_prefix(ts, us, (n - 1) as nat);
    }
}

/// Appending a tree appends its text.
pub proof fn lemma_seq_text_push(ts: Seq<Tree>, t: Tree)
    ensures
        seq_text(ts.push(t)) == seq_text(ts) + tree_text(t),
{
    assert(ts.push(t).take(ts.len() as int) =~= ts.take(ts.len() as int));
    lemma_forest_text_prefix(ts.push(t), ts, ts.len());
}

/// The text of a concatenation of forests.
pub proof fn lemma_seq_text_concat(ts: Seq<Tree>, us: Seq<Tree>)
    ensures
        seq_text(ts + us) == seq_text(ts) + seq_text(us),
    decreases us.len(),
{
    if us.len() == 0 {
        assert(ts + us =~= ts);
        assert(seq_text(ts) + seq_text(us) =~= seq_text(ts));
    } else {
        let u = us.last();
        let pre = us.drop_last();
        assert(ts + us =~= (ts + pre).push(u));
        assert(us =~= pre.push(u));
        lemma_seq_text_concat(ts, pre);
        lemma_seq_text_push(ts + pre, u);
        lemma_seq_text_push(pre, u);
        assert(seq_text(ts + us) =~= seq_text(ts) + seq_text(us));
    }
}

#[verifier::external_type_specification]
#[verifier::external_body]
pub struct ExGreenNode(GreenNode);

#[verifier::external_type_specification]
#[verifier::external_body]
pub struct ExGreenToken(GreenToken);

#[verifier::external_type_specification]
#[verifier::external_body]
pub struct ExCheckpoint(Checkpoint);

#[verifier::external_type_specification]
#[verifier::external_body]
pub struct ExGreenNodeBuilder<'cache>(GreenNodeBuilder<'cache>);

/// The raw kind of a green node.
pub uninterp spec fn green_node_kind(n: GreenNode) -> u16;

/// The children of a green node, in order.
pub uninterp spec fn green_node_children(n: GreenNode) -> Seq<Tree>;

/// The raw kind of a green token.
pub uninterp spec fn green_token_kind(t: GreenToken) -> u16;

/// The text of a green token.
pub uninterp spec fn green_token_text(t: GreenToken) -> Seq<char>;

/// The finished elements that a builder holds, oldest first.
pub uninterp spec fn builder_children(b: GreenNodeBuilder<'static>) -> Seq<Tree>;

/// The nodes that a builder has open, outermost first: the kind of each and
/// the index among the finished elements where its children begin.
pub uninterp spec fn builder_parents(b: GreenNodeBuilder<'static>) -> Seq<(u16, nat)>;

/// The index among a builder's finished elements that a checkpoint marks.
pub uninterp spec fn checkpoint_index(c: Checkpoint) -> nat;

/// A green node as a tree.
pub open spec fn node_tree(n: GreenNode) -> Tree {
    Tree::Node { kind: green_node_kind(n), children: green_node_children(n) }
}

/// A green token as a tree.
pub open spec fn token_tree(t: GreenToken) -> Tree {
    Tree::Token { kind: green_token_kind(t), text: green_token_text(t) }
}

/// A child of a green node, owned.
pub enum GreenChild {
    Node(GreenNode),
    Token(GreenToken),
}

impl GreenChild {
    pub open spec fn tree(&self) -> Tree {
        match self {
            GreenChild::Node(n) => node_tree(*n),
            GreenChild::Token(t) => token_tree(*t),
        }
    }
}

/// Relies on `GreenNodeBuilder::new`: a builder with nothing in it.
#[verifier::external_body]
pub(crate) fn builder_new() -> (r: GreenNodeBuilder<'static>)
    ensures
        builder_children(r) == Seq::<Tree>::empty(),
        builder_parents(r) == Seq::<(u16, nat)>::empty(),
{
    GreenNodeBuilder::new()
}

/// Relies on `GreenNodeBuilder::token`: a token of that kind and text is
/// appended to the finished elements.
#[verifier::external_body]
pub(crate) fn builder_token(b: &mut GreenNodeBuilder<'static>, kind: u16, text: &str)
    ensures
        builder_children(*final(b)) == builder_children(*old(b)).push(
            Tree::Token { kind, text: text@ },
        ),
        builder_parents(*final(b)) == builder_parents(*old(b)),
{
    b.token(rowan::SyntaxKind(kind), text);
}

/// Relies on `GreenNodeBuilder::start_node`: a node is opened whose children
/// begin after the elements already finished.
#[verifier::external_body]
pub(crate) fn builder_start_node(b: &mut GreenNodeBuilder<'static>, kind: u16)
    ensures
        builder_children(*final(b)) == builder_children(*old(b)),
        builder_parents(*final(b)) == builder_parents(*old(b)).push(
            (kind, builder_children(*old(b)).len()),
        ),
{
    b.start_node(rowan::SyntaxKind(kind));
}

/// Relies on `GreenNodeBuilder::finish_node`: the innermost open node closes
/// over the elements finished since it was opened, and becomes one element.
/// Its text length is summed in a `u32`, hence the bound.
#[verifier::external_body]
pub(crate) fn builder_finish_node(b: &mut GreenNodeBuilder<'static>)
    requires
        builder_parents(*old(b)).len() > 0,
        builder_parents(*old(b)).last().1 <= builder_children(*old(b)).len(),
        byte_len(seq_text(builder_children(*old(b)))) <= u32::MAX,
    ensures
        ({
            let (kind, first) = builder_parents(*old(b)).last();
            let cs = builder_children(*old(b));
            &&& builder_parents(*final(b)) == builder_parents(*old(b)).drop_last()
            &&& builder_children(*final(b)) == cs.take(first as int).push(
                Tree::Node { kind, children: cs.skip(first as int) },
            )
        }),
{
    b.finish_node();
}

/// Relies on `GreenNodeBuilder::checkpoint`: it marks the number of finished
/// elements.
#[verifier::external_body]
pub(crate) fn builder_checkpoint(b: &GreenNodeBuilder<'static>) -> (r: Checkpoint)
    ensures
        checkpoint_index(r) == builder_children(*b).len(),
{
    b.checkpoint()
}

/// Relies on `GreenNodeBuilder::start_node_at`: a node is opened whose
/// children begin at the checkpoint. It panics unless the checkpoint lies
/// within the finished elements of the innermost open node.
#[verifier::external_body]
pub(crate) fn builder_start_node_at(b: &mut GreenNodeBuilder<'static>, c: Checkpoint, kind: u16)
    requires
        checkpoint_index(c) <= builder_children(*old(b)).len(),
        builder_parents(*old(b)).len() > 0 ==> builder_parents(*old(b)).last().1
            <= checkpoint_index(c),
    ensures
        builder_children(*final(b)) == builder_children(*old(b)),
        builder_parents(*final(b)) == builder_parents(*old(b)).push((kind, checkpoint_index(c))),
{
    b.start_node_at(c, rowan::SyntaxKind(kind));
}

/// Relies on `GreenNodeBuilder::finish`: with no node open and exactly one
/// finished element, a node, that node is the result.
#[verifier::external_body]
pub(crate) fn builder_finish(b: GreenNodeBuilder<'static>) -> (r: GreenNode)
    requires
        builder_parents(b).len() == 0,
        builder_children(b).len() == 1,
        builder_children(b)[0] is Node,
    ensures
        node_tree(r) == builder_children(b)[0],
{
    b.finish()
}

/// Relies on `GreenNodeData::kind`.
#[verifier::external_body]
pub(crate) fn node_kind(n: &GreenNode) -> (r: u16)
    ensures
        r == green_node_kind(*n),
{
    n.kind().0
}

/// Relies on `GreenNodeData::children`, an exact-size iterator over the
/// children in order.
#[verifier::external_body]
pub(crate) fn node_child_count(n: &GreenNode) -> (r: usize)
    ensures
        r == green_node_children(*n).len(),
{
    n.children().len()
}

/// Relies on `GreenNodeData::children`: the child at index `i`, owned.
#[verifier::external_body]
pub(crate) fn node_child(n: &GreenNode, i: usize) -> (r: GreenChild)
    requires
        i < green_node_children(*n).len(),
    ensures
        r.tree() == green_node_children(*n)[i as int],
{
    match n.children().nth(i).unwrap() {
        NodeOrToken::Node(c) => GreenChild::Node(c.to_owned()),
        NodeOrToken::Token(t) => GreenChild::Token(t.to_owned()),
    }
}

/// Relies on `GreenTokenData::kind`.
#[verifier::external_body]
pub(crate) fn token_kind(t: &GreenToken) -> (r: u16)
    ensures
        r == green_token_kind(*t),
{
    t.kind().0
}

/// Relies on `GreenTokenData::text`.
#[verifier::external_body]
pub(crate) fn token_text(t: &GreenToken) -> (r: &str)
    ensures
        r@ == green_token_text(*t),
{
    t.text()
}

/// Relies on `GreenNodeData::text_len`: the byte length of the node's text,
/// which rowan sums in a `u32` as the node is built.
#[verifier::external_body]
pub(crate) fn node_text_len(n: &GreenNode) -> (r: u32)
    ensures
        byte_len(tree_text(node_tree(*n))) <= u32::MAX ==> r == byte_len(tree_text(node_tree(*n))),
{
    n.text_len().into()
}

/// Relies on `GreenNode`'s `Clone`: a second handle on the same node.
#[verifier::external_body]
pub(crate) fn node_clone(n: &GreenNode) -> (r: GreenNode)
    ensures
        green_node_kind(r) == green_node_kind(*n),
        green_node_children(r) == green_node_children(*n),
{
    n.clone()
}

} // verus!
