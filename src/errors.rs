//! Syntax errors and their messages.
use vstd::prelude::*;
use crate::lexer::Span;
use crate::syntax_kind::{kind_phrase, SyntaxKind};
use crate::text::push_str;
use codespan_reporting::diagnostic::{Diagnostic, Label};

verus! {

/// What went wrong at an error's place.
#[derive(Debug, PartialEq)]
pub enum SyntaxErrorKind {
    /// A token of kind `found` stands where one of `expected` was needed.
    FoundExpected { found: SyntaxKind, expected: Vec<SyntaxKind> },
    /// The input ended where one of `expected` was needed.
    Expected { expected: Vec<SyntaxKind> },
}

/// A syntax error and the byte range it covers.
#[derive(Debug, PartialEq)]
pub struct SyntaxError {
    pub kind: SyntaxErrorKind,
    pub range: Span,
}

/// The first `n` kinds of `ks` as a list in words: the first as it is, each
/// following one after ", ", the last after " or ".
pub open spec fn join_kinds(ks: Seq<SyntaxKind>, n: nat) -> Seq<char>
    decreases n,
{
    if n == 0 || n > ks.len() {
        seq![]
    } else if n == 1 {
        kind_phrase(ks[0])
    } else if n == ks.len() {
        join_kinds(ks, (n - 1) as nat) + " or "@ + kind_phrase(ks[n - 1])
    } else {
        join_kinds(ks, (n - 1) as nat) + ", "@ + kind_phrase(ks[n - 1])
    }
}

/// The message of an error of this kind.
pub open spec fn error_message(k: SyntaxErrorKind) -> Seq<char> {
    match k {
        SyntaxErrorKind::FoundExpected { found, expected } => "found "@ + kind_phrase(found)
            + ", "@ + "expected "@ + join_kinds(expected@, expected@.len()),
        SyntaxErrorKind::Expected { expected } => "expected "@ + join_kinds(
            expected@,
            expected@.len(),
        ),
    }
}

impl SyntaxErrorKind {
    /// The message that describes this error ("found a slash, expected a
    /// number literal").
    pub fn message(&self) -> (r: String)
        ensures
            r@ == error_message(*self),
    {
        let mut s = String::new();
        let expected = match self {
            SyntaxErrorKind::FoundExpected { found, expected } => {
                push_str(&mut s, "found ");
                push_str(&mut s, found.phrase());
                push_str(&mut s, ", ");
                expected
            },
            SyntaxErrorKind::Expected { expected } => expected,
        };
        let ghost head = s@;
        push_str(&mut s, "expected ");
        let n = expected.len();
        let mut i: usize = 0;
        while i < n
            invariant
                n == expected@.len(),
                i <= n,
                s@ == head + "expected "@ + join_kinds(expected@, i as nat),
            decreases n - i,
        {
            let ghost before = s@;
            if i == 0 {
            } else if i + 1 == n {
                push_str(&mut s, " or ");
            } else {
                push_str(&mut s, ", ");
            }
            push_str(&mut s, expected[i].phrase());
            i = i + 1;
            assert(s@ =~= head + "expected "@ + join_kinds(expected@, i as nat));
        }
        assert(head + "expected "@ + join_kinds(expected@, expected@.len()) =~= error_message(
            *self,
        ));
        s
    }
}

impl SyntaxError {
    /// The message that describes this error.
    pub fn message(&self) -> (r: String)
        ensures
            r@ == error_message(self.kind),
    {
        self.kind.message()
    }
}

#[verifier::external_type_specification]
#[verifier::external_body]
#[verifier::reject_recursive_types(FileId)]
pub struct ExDiagnostic<FileId>(Diagnostic<FileId>);

#[verifier::external_type_specification]
#[verifier::external_body]
#[verifier::reject_recursive_types(FileId)]
pub struct ExLabel<FileId>(Label<FileId>);

/// Relies on `Diagnostic::error`: an error-severity diagnostic with no
/// labels.
#[verifier::external_body]
fn diagnostic_error<FileId>() -> Diagnostic<FileId> {
    Diagnostic::error()
}

/// Relies on `Diagnostic::with_labels`: the labels are appended.
#[verifier::external_body]
fn diagnostic_with_labels<FileId>(d: Diagnostic<FileId>, labels: Vec<Label<FileId>>) -> Diagnostic<
    FileId,
> {
    d.with_labels(labels)
}

/// Relies on `Label::primary`: a primary label over the byte range.
#[verifier::external_body]
fn label_primary<FileId>(file_id: FileId, range: Span) -> Label<FileId> {
    Label::primary(file_id, range.start..range.end)
}

/// Relies on `Label::with_message`: the label carries the message.
#[verifier::external_body]
fn label_with_message<FileId>(l: Label<FileId>, message: String) -> Label<FileId> {
    l.with_message(message)
}

impl SyntaxError {
    /// This error as a diagnostic: one primary label over its range, with its
    /// message.
    pub fn as_diagnostic<FileId>(&self, file_id: FileId) -> Diagnostic<FileId> {
        let (range, message) = self.label_parts();
        let label = label_with_message(label_primary(file_id, range), message);
        diagnostic_with_labels(diagnostic_error(), vec![label])
    }

    /// What the diagnostic's one label carries: this error's byte range and
    /// its message.
    pub fn label_parts(&self) -> (r: (Span, String))
        ensures
            r.0 == self.range,
            r.1@ == error_message(self.kind),
    {
        (self.range, self.message())
    }
}

} // verus!
