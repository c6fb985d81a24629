//! The lexer: splits text into classified lexemes that cover it without gaps.
use vstd::prelude::*;
use vstd::std_specs::iter::IteratorSpec;
use crate::syntax_kind::SyntaxKind;
use crate::text::{byte_len, char_width, char_width_of, lemma_byte_len_prefix, lemma_byte_len_push};

verus! {

broadcast use vstd::string::axiom_spec_iter;

/// A half-open byte range `start..end` of the source text.
#[derive(Clone, Copy, Debug, PartialEq, Eq, Structural)]
pub struct Span {
    pub start: usize,
    pub end: usize,
}

/// A classified piece of the source text, with its byte range.
#[derive(Debug, PartialEq)]
pub struct Lexeme {
    pub kind: SyntaxKind,
    pub text: String,
    pub range: Span,
}

/// Space and newline are whitespace; nothing else is.
pub open spec fn is_space(c: char) -> bool {
    c == ' ' || c == '\n'
}

pub open spec fn is_digit(c: char) -> bool {
    '0' <= c <= '9'
}

/// The kind of the lexeme that starts with `c`.
pub open spec fn lead_kind(c: char) -> SyntaxKind {
    if is_space(c) {
        SyntaxKind::Whitespace
    } else if is_digit(c) {
        SyntaxKind::Number
    } else if c == '+' {
        SyntaxKind::Plus
    } else if c == '-' {
        SyntaxKind::Minus
    } else if c == '*' {
        SyntaxKind::Star
    } else if c == '/' {
        SyntaxKind::Slash
    } else {
        SyntaxKind::Error
    }
}

/// Whether `c` continues a lexeme of kind `k` (only whitespace and numbers
/// run over several characters).
pub open spec fn continues(k: SyntaxKind, c: char) -> bool {
    (k == SyntaxKind::Whitespace && is_space(c)) || (k == SyntaxKind::Number && is_digit(c))
}

/// The length of the longest prefix of `cs` whose characters all continue `k`.
pub open spec fn run_len(k: SyntaxKind, cs: Seq<char>) -> nat
    decreases cs.len(),
{
    if cs.len() > 0 && continues(k, cs[0]) {
        1 + run_len(k, cs.drop_first())
    } else {
        0
    }
}

/// The length of the first lexeme of non-empty `cs`: a maximal run of
/// whitespace or of digits, or else one character.
pub open spec fn lexeme_len(cs: Seq<char>) -> nat {
    if cs.len() == 0 {
        0
    } else {
        1 + run_len(lead_kind(cs[0]), cs.drop_first())
    }
}

/// The lexemes of `cs`, as kind and text, in order.
pub open spec fn lex(cs: Seq<char>) -> Seq<(SyntaxKind, Seq<char>)>
    decreases cs.len(),
{
    let n = lexeme_len(cs);
    if cs.len() == 0 || n == 0 || n > cs.len() {
        seq![]
    } else {
        seq![(lead_kind(cs[0]), cs.take(n as int))] + lex(cs.skip(n as int))
    }
}

/// The text of a sequence of lexemes, laid end to end.
pub open spec fn lexemes_text(ls: Seq<(SyntaxKind, Seq<char>)>) -> Seq<char>
    decreases ls.len(),
{
    if ls.len() == 0 {
        seq![]
    } else {
        ls[0].1 + lexemes_text(ls.drop_first())
    }
}

pub proof fn lemma_run_len_bound(k: SyntaxKind, cs: Seq<char>)
    ensures
        run_len(k, cs) <= cs.len(),
        forall|i: int| 0 <= i < run_len(k, cs) ==> continues(k, #[trigger] cs[i]),
        run_len(k, cs) < cs.len() ==> !continues(k, cs[run_len(k, cs) as int]),
    decreases cs.len(),
{
    if cs.len() > 0 && continues(k, cs[0]) {
        lemma_run_len_bound(k, cs.drop_first());
        assert forall|i: int| 0 <= i < run_len(k, cs) implies continues(k, #[trigger] cs[i]) by {
            if i > 0 {
                assert(cs[i] == cs.drop_first()[i - 1]);
            }
        }
    }
}

/// A non-empty text has a first lexeme, at least one character long.
pub proof fn lemma_lexeme_len_bound(cs: Seq<char>)
    requires
        cs.len() > 0,
    ensures
        1 <= lexeme_len(cs) <= cs.len(),
{
    lemma_run_len_bound(lead_kind(cs[0]), cs.drop_first());
}

/// Laid end to end, the lexemes give back the text exactly.
pub proof fn lemma_lex_lossless(cs: Seq<char>)
    ensures
        lexemes_text(lex(cs)) == cs,
    decreases cs.len(),
{
    if cs.len() == 0 {
        assert(lexemes_text(lex(cs)) =~= cs);
    } else {
        lemma_lexeme_len_bound(cs);
        let n = lexeme_len(cs) as int;
        lemma_lex_lossless(cs.skip(n));
        let ls = lex(cs);
        assert(ls.drop_first() =~= lex(cs.skip(n)));
        assert(cs.take(n) + cs.skip(n) =~= cs);
    }
}

/// A cursor over the lexemes of a text.
pub struct Lexer {
    chars: Vec<char>,
    pos: usize,
    offset: usize,
}

impl Lexer {
    /// The whole text being lexed.
    pub closed spec fn source(&self) -> Seq<char> {
        self.chars@
    }

    /// How many characters have been consumed.
    pub closed spec fn position(&self) -> nat {
        self.pos as nat
    }

    /// The text not yet handed out.
    pub open spec fn rest(&self) -> Seq<char> {
        self.source().skip(self.position() as int)
    }

    /// The cursor lies within the text, the byte offset matches it, and the
    /// text's byte length fits the tree's `u32` offsets.
    pub closed spec fn wf(&self) -> bool {
        &&& self.pos <= self.chars.len()
        &&& self.offset == byte_len(self.chars@.take(self.pos as int))
        &&& byte_len(self.chars@) <= u32::MAX
    }

    /// What well-formedness gives a caller.
    pub proof fn lemma_wf(&self)
        requires
            self.wf(),
        ensures
            self.position() <= self.source().len(),
            byte_len(self.source()) <= u32::MAX,
    {
    }

    /// The byte offset of the next lexeme.
    pub fn offset(&self) -> (r: usize)
        requires
            self.wf(),
        ensures
            r == byte_len(self.source().take(self.position() as int)),
    {
        self.offset
    }

    /// A lexer at the start of `s`.
    pub fn new(s: &str) -> (r: Lexer)
        requires
            byte_len(s@) <= u32::MAX,
        ensures
            r.wf(),
            r.source() == s@,
            r.position() == 0,
    {
        let mut chars: Vec<char> = Vec::new();
        for c in it: s.chars()
            invariant
                chars@ == it.seq().take(it.index() as int),
        {
            assert(chars@.push(c) =~= it.seq().take(it.index() + 1));
            chars.push(c);
        }
        assert(chars@ =~= s@);
        assert(chars@.take(0) =~= Seq::<char>::empty());
        Lexer { chars, pos: 0, offset: 0 }
    }

    /// The kind of the next lexeme, without consuming it.
    pub fn peek(&self) -> (r: Option<SyntaxKind>)
        requires
            self.wf(),
        ensures
            self.rest().len() == 0 ==> r.is_none(),
            self.rest().len() > 0 ==> r == Some(lead_kind(self.rest()[0])),
    {
        if self.pos < self.chars.len() {
            Some(classify(self.chars[self.pos]))
        } else {
            None
        }
    }

    /// Hands out the next lexeme: its kind, its text, and its byte range.
    pub fn next(&mut self) -> (r: Option<Lexeme>)
        requires
            old(self).wf(),
        ensures
            final(self).wf(),
            final(self).source() == old(self).source(),
            old(self).rest().len() == 0 ==> r.is_none() && final(self).position() == old(
                self,
            ).position(),
            old(self).rest().len() > 0 ==> {
                let n = lexeme_len(old(self).rest());
                &&& r.is_some()
                &&& final(self).position() == old(self).position() + n
                &&& r->0.kind == lead_kind(old(self).rest()[0])
                &&& r->0.text@ == old(self).rest().take(n as int)
                &&& r->0.range.start == byte_len(
                    old(self).source().take(old(self).position() as int),
                )
                &&& r->0.range.end == byte_len(
                    old(self).source().take(final(self).position() as int),
                )
                &&& (r->0.kind, r->0.text@) == lex(old(self).rest())[0]
                &&& lex(final(self).rest()) == lex(old(self).rest()).drop_first()
            },
    {
        if self.pos >= self.chars.len() {
            return None;
        }
        let ghost rest = self.rest();
        let first = self.chars[self.pos];
        let kind = classify(first);
        let start = self.offset;
        let mut text = String::new();
        crate::text::push_char(&mut text, first);
        proof {
            lemma_byte_len_push(self.chars@.take(self.pos as int), first);
            assert(self.chars@.take(self.pos as int).push(first) =~= self.chars@.take(
                self.pos + 1,
            ));
            lemma_byte_len_prefix(self.chars@, self.pos + 1);
            lemma_run_len_bound(kind, rest.drop_first());
        }
        let w = char_width_of(first);
        self.offset = self.offset + w;
        self.pos = self.pos + 1;
        let ghost start_pos: int = self.pos - 1;
        while self.pos < self.chars.len() && continues_exec(kind, self.chars[self.pos])
            invariant
                self.chars@ == old(self).chars@,
                0 <= start_pos < self.pos <= self.chars.len(),
                rest == self.chars@.skip(start_pos as int),
                kind == lead_kind(rest[0]),
                self.offset == byte_len(self.chars@.take(self.pos as int)),
                byte_len(self.chars@) <= u32::MAX,
                text@ == self.chars@.subrange(start_pos as int, self.pos as int),
                self.pos - start_pos <= 1 + run_len(kind, rest.drop_first()),
                run_len(kind, rest.drop_first()) <= rest.len() - 1,
                forall|i: int|
                    0 <= i < run_len(kind, rest.drop_first()) ==> continues(
                        kind,
                        #[trigger] rest.drop_first()[i],
                    ),
                run_len(kind, rest.drop_first()) < rest.len() - 1 ==> !continues(
                    kind,
                    rest.drop_first()[run_len(kind, rest.drop_first()) as int],
                ),
            decreases self.chars.len() - self.pos,
        {
            let c = self.chars[self.pos];
            proof {
                let k = (self.pos - start_pos - 1) as int;
                assert(rest.len() == self.chars.len() - start_pos);
                assert(rest.drop_first()[k] == rest[k + 1]);
                assert(rest[k + 1] == self.chars@[start_pos + k + 1]);
                assert(rest.drop_first()[k] == c);
                lemma_byte_len_push(self.chars@.take(self.pos as int), c);
                assert(self.chars@.take(self.pos as int).push(c) =~= self.chars@.take(
                    self.pos + 1,
                ));
                lemma_byte_len_prefix(self.chars@, self.pos + 1);
            }
            let ghost before = text@;
            crate::text::push_char(&mut text, c);
            assert(text@ == before.push(c));
            let w = char_width_of(c);
            self.offset = self.offset + w;
            self.pos = self.pos + 1;
            assert(text@ =~= self.chars@.subrange(start_pos as int, self.pos as int));
        }
        proof {
            let k = (self.pos - start_pos - 1) as int;
            if k < run_len(kind, rest.drop_first()) {
                assert(rest.drop_first()[k] == self.chars@[self.pos as int]);
            }
            assert(rest.take((self.pos - start_pos) as int) =~= text@);
            lemma_lexeme_len_bound(rest);
            let n = lexeme_len(rest) as int;
            assert(self.chars@.skip(self.pos as int) =~= rest.skip(n));
            assert(lex(rest).drop_first() =~= lex(rest.skip(n)));
        }
        Some(Lexeme { kind, text, range: Span { start, end: self.offset } })
    }
}

/// The kind of the lexeme that starts with `c`.
fn classify(c: char) -> (r: SyntaxKind)
    ensures
        r == lead_kind(c),
{
    if c == ' ' || c == '\n' {
        SyntaxKind::Whitespace
    } else if '0' <= c && c <= '9' {
        SyntaxKind::Number
    } else if c == '+' {
        SyntaxKind::Plus
    } else if c == '-' {
        SyntaxKind::Minus
    } else if c == '*' {
        SyntaxKind::Star
    } else if c == '/' {
        SyntaxKind::Slash
    } else {
        SyntaxKind::Error
    }
}

fn continues_exec(k: SyntaxKind, c: char) -> (r: bool)
    ensures
        r == continues(k, c),
{
    match k {
        SyntaxKind::Whitespace => c == ' ' || c == '\n',
        SyntaxKind::Number => '0' <= c && c <= '9',
        _ => false,
    }
}

} // verus!
