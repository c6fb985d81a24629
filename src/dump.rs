//! A debug dump of the tree: one line per node or token, indented by depth,
//! with its kind, its byte range, and a token's text in quotes.
use vstd::prelude::*;
use rowan::{GreenNode, GreenToken};
use crate::green::{
    forest_text, green_node_children, green_token_kind, green_token_text, node_child,
    node_child_count, node_kind, node_text_len, node_tree, token_kind, token_text, token_tree,
    tree_text, GreenChild, Tree,
};
use crate::syntax_kind::{kind_name, kind_of_raw, SyntaxKind};
use crate::text::{byte_len, decimal, lemma_byte_len_concat, push_char, push_decimal, push_str};

verus! {

/// The label of a raw kind in a dump.
pub open spec fn kind_label(raw: u16) -> Seq<char> {
    match kind_of_raw(raw) {
        Some(k) => kind_name(k),
        None => "Unknown"@,
    }
}

/// A text as std's `Debug` for `str` writes it: in double quotes, with
/// quotes, backslashes, control characters and some others escaped.
pub uninterp spec fn debug_quoted(s: Seq<char>) -> Seq<char>;

/// Relies on `<str as Debug>::fmt` (through `format!("{:?}")`): the quoted,
/// escaped form of the text, which depends on the text alone.
#[verifier::external_body]
fn quote(t: &str) -> (r: String)
    ensures
        r@ == debug_quoted(t@),
{
    format!("{:?}", t)
}

/// `@start..end`.
pub open spec fn range_text(start: nat, end: nat) -> Seq<char> {
    seq!['@'] + decimal(start) + seq!['.', '.'] + decimal(end)
}

/// The dump of a tree whose text starts at byte `offset`, each line
/// prefixed by `indent`.
pub open spec fn dump_tree(t: Tree, indent: Seq<char>, offset: nat) -> Seq<char>
    decreases t, 0nat,
{
    match t {
        Tree::Token { kind, text } => indent + kind_label(kind) + range_text(
            offset,
            offset + byte_len(text),
        ) + seq![' '] + debug_quoted(text) + seq!['\n'],
        Tree::Node { kind, children } => indent + kind_label(kind) + range_text(
            offset,
            offset + byte_len(forest_text(children, children.len())),
        ) + seq!['\n'] + dump_forest(children, children.len(), indent + seq![' ', ' '], offset),
    }
}

/// The dumps of the first `n` trees of `ts`, laid one after the other, the
/// first starting at byte `offset`.
pub open spec fn dump_forest(ts: Seq<Tree>, n: nat, indent: Seq<char>, offset: nat) -> Seq<
    char,
>
    decreases ts, n,
{
    if n == 0 || n > ts.len() {
        seq![]
    } else {
        dump_forest(ts, (n - 1) as nat, indent, offset) + dump_tree(
            ts[n - 1],
            indent,
            offset + byte_len(forest_text(ts, (n - 1) as nat)),
        )
    }
}

proof fn lemma_forest_bytes_step(ts: Seq<Tree>, i: nat)
    requires
        i < ts.len(),
    ensures
        byte_len(forest_text(ts, i + 1)) == byte_len(forest_text(ts, i)) + byte_len(
            tree_text(ts[i as int]),
        ),
{
    lemma_byte_len_concat(forest_text(ts, i), tree_text(ts[i as int]));
}

proof fn lemma_forest_bytes_mono(ts: Seq<Tree>, i: nat, n: nat)
    requires
        i <= n <= ts.len(),
    ensures
        byte_len(forest_text(ts, i)) <= byte_len(forest_text(ts, n)),
    decreases n - i,
{
    if i < n {
        lemma_forest_bytes_step(ts, i);
        lemma_forest_bytes_mono(ts, i + 1, n);
    }
}

fn push_kind_label(out: &mut String, raw: u16)
    ensures
        final(out)@ == old(out)@ + kind_label(raw),
{
    match SyntaxKind::from_raw(raw) {
        Some(k) => push_str(out, k.name()),
        None => {
            push_str(out, "Unknown");
            proof {
                reveal_strlit("Unknown");
            }
        },
    }
}

fn push_range(out: &mut String, start: usize, end: usize)
    ensures
        final(out)@ == old(out)@ + range_text(start as nat, end as nat),
{
    push_char(out, '@');
    push_decimal(out, start);
    push_char(out, '.');
    push_char(out, '.');
    push_decimal(out, end);
    assert(final(out)@ =~= old(out)@ + range_text(start as nat, end as nat));
}

fn dump_token(t: &GreenToken, indent: &String, offset: usize, out: &mut String)
    requires
        offset + byte_len(green_token_text(*t)) <= u32::MAX,
    ensures
        final(out)@ == old(out)@ + dump_tree(token_tree(*t), indent@, offset as nat),
{
    let text = token_text(t);
    let len = text.len();
    push_str(out, indent.as_str());
    push_kind_label(out, token_kind(t));
    push_range(out, offset, offset + len);
    push_char(out, ' ');
    let quoted = quote(text);
    push_str(out, quoted.as_str());
    push_char(out, '\n');
    assert(final(out)@ =~= old(out)@ + dump_tree(token_tree(*t), indent@, offset as nat));
}

fn dump_node(n: &GreenNode, indent: &String, offset: usize, out: &mut String)
    requires
        offset + byte_len(tree_text(node_tree(*n))) <= u32::MAX,
    ensures
        final(out)@ == old(out)@ + dump_tree(node_tree(*n), indent@, offset as nat),
    decreases node_tree(*n),
{
    let ghost ch = green_node_children(*n);
    let len = node_text_len(n);
    push_str(out, indent.as_str());
    push_kind_label(out, node_kind(n));
    push_range(out, offset, offset + len as usize);
    push_char(out, '\n');
    let ghost head = out@;
    let mut inner = indent.clone();
    push_str(&mut inner, "  ");
    proof {
        reveal_strlit("  ");
        assert(inner@ =~= indent@ + seq![' ', ' ']);
    }
    let count = node_child_count(n);
    let mut i: usize = 0;
    let mut off = offset;
    proof {
        lemma_forest_bytes_mono(ch, 0, ch.len());
    }
    while i < count
        invariant
            ch == green_node_children(*n),
            count == ch.len(),
            i <= count,
            off == offset + byte_len(forest_text(ch, i as nat)),
            offset + byte_len(forest_text(ch, ch.len())) <= u32::MAX,
            inner@ == indent@ + seq![' ', ' '],
            out@ == head + dump_forest(ch, i as nat, inner@, offset as nat),
        decreases count - i,
    {
        proof {
            lemma_forest_bytes_step(ch, i as nat);
            lemma_forest_bytes_mono(ch, (i + 1) as nat, ch.len());
        }
        match node_child(n, i) {
            GreenChild::Node(c) => {
                proof {
                    assert(node_tree(c) == ch[i as int]);
                    vstd::seq::axiom_seq_index_decreases(ch, i as int);
                    let whole = node_tree(*n);
                    let kind = crate::green::green_node_kind(*n);
                    assert(whole == Tree::Node { kind, children: ch });
                    assert(decreases_to!(whole => whole->Node_children));
                    assert(decreases_to!(node_tree(*n) => ch[i as int]));
                }
                dump_node(&c, &inner, off, out);
                let l = node_text_len(&c);
                off = off + l as usize;
            },
            GreenChild::Token(t) => {
                dump_token(&t, &inner, off, out);
                let l = token_text(&t).len();
                off = off + l;
            },
        }
        i = i + 1;
    }
    assert(out@ =~= old(out)@ + dump_tree(node_tree(*n), indent@, offset as nat));
}

/// The dump of a green node whose text fits `u32` offsets.
pub(crate) fn dump(n: &GreenNode) -> (r: String)
    requires
        byte_len(tree_text(node_tree(*n))) <= u32::MAX,
    ensures
        r@ == dump_tree(node_tree(*n), seq![], 0),
{
    let mut out = String::new();
    let indent = String::new();
    dump_node(n, &indent, 0, &mut out);
    out
}

} // verus!
