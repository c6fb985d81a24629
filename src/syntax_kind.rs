//! The closed vocabulary of token and node kinds.
use vstd::prelude::*;

verus! {

/// Every kind that a token or a node of the tree can carry.
#[derive(Clone, Copy, Debug, PartialEq, Eq, Structural)]
pub enum SyntaxKind {
    Whitespace,
    Number,
    Plus,
    Minus,
    Star,
    Slash,
    Error,
    Root,
    Operation,
}

/// The raw tag under which a kind is stored in the tree.
pub open spec fn kind_raw(k: SyntaxKind) -> u16 {
    match k {
        SyntaxKind::Whitespace => 0,
        SyntaxKind::Number => 1,
        SyntaxKind::Plus => 2,
        SyntaxKind::Minus => 3,
        SyntaxKind::Star => 4,
        SyntaxKind::Slash => 5,
        SyntaxKind::Error => 6,
        SyntaxKind::Root => 7,
        SyntaxKind::Operation => 8,
    }
}

/// The kind stored under a raw tag, if any.
pub open spec fn kind_of_raw(raw: u16) -> Option<SyntaxKind> {
    if raw == 0 {
        Some(SyntaxKind::Whitespace)
    } else if raw == 1 {
        Some(SyntaxKind::Number)
    } else if raw == 2 {
        Some(SyntaxKind::Plus)
    } else if raw == 3 {
        Some(SyntaxKind::Minus)
    } else if raw == 4 {
        Some(SyntaxKind::Star)
    } else if raw == 5 {
        Some(SyntaxKind::Slash)
    } else if raw == 6 {
        Some(SyntaxKind::Error)
    } else if raw == 7 {
        Some(SyntaxKind::Root)
    } else if raw == 8 {
        Some(SyntaxKind::Operation)
    } else {
        None
    }
}

/// The phrase that names a token kind in a diagnostic.
pub open spec fn kind_phrase(k: SyntaxKind) -> Seq<char> {
    match k {
        SyntaxKind::Whitespace => "whitespace"@,
        SyntaxKind::Number => "a number literal"@,
        SyntaxKind::Plus => "a plus sign"@,
        SyntaxKind::Minus => "a minus sign"@,
        SyntaxKind::Star => "an asterisk"@,
        SyntaxKind::Slash => "a slash"@,
        SyntaxKind::Error => "an erroneous character"@,
        SyntaxKind::Root => "the root"@,
        SyntaxKind::Operation => "an operation"@,
    }
}

/// The name under which a kind appears in a tree dump.
pub open spec fn kind_name(k: SyntaxKind) -> Seq<char> {
    match k {
        SyntaxKind::Whitespace => "Whitespace"@,
        SyntaxKind::Number => "Number"@,
        SyntaxKind::Plus => "Plus"@,
        SyntaxKind::Minus => "Minus"@,
        SyntaxKind::Star => "Star"@,
        SyntaxKind::Slash => "Slash"@,
        SyntaxKind::Error => "Error"@,
        SyntaxKind::Root => "Root"@,
        SyntaxKind::Operation => "Operation"@,
    }
}

impl SyntaxKind {
    /// The raw tag of this kind.
    pub fn to_raw(self) -> (r: u16)
        ensures
            r == kind_raw(self),
    {
        match self {
            SyntaxKind::Whitespace => 0,
            SyntaxKind::Number => 1,
            SyntaxKind::Plus => 2,
            SyntaxKind::Minus => 3,
            SyntaxKind::Star => 4,
            SyntaxKind::Slash => 5,
            SyntaxKind::Error => 6,
            SyntaxKind::Root => 7,
            SyntaxKind::Operation => 8,
        }
    }

    /// The kind with the given raw tag, if there is one.
    pub fn from_raw(raw: u16) -> (r: Option<SyntaxKind>)
        ensures
            r == kind_of_raw(raw),
    {
        if raw == 0 {
            Some(SyntaxKind::Whitespace)
        } else if raw == 1 {
            Some(SyntaxKind::Number)
        } else if raw == 2 {
            Some(SyntaxKind::Plus)
        } else if raw == 3 {
            Some(SyntaxKind::Minus)
        } else if raw == 4 {
            Some(SyntaxKind::Star)
        } else if raw == 5 {
            Some(SyntaxKind::Slash)
        } else if raw == 6 {
            Some(SyntaxKind::Error)
        } else if raw == 7 {
            Some(SyntaxKind::Root)
        } else if raw == 8 {
            Some(SyntaxKind::Operation)
        } else {
            None
        }
    }

    /// The phrase that names this kind in a diagnostic ("a plus sign").
    pub fn phrase(self) -> (r: &'static str)
        ensures
            r@ == kind_phrase(self),
    {
        match self {
            SyntaxKind::Whitespace => "whitespace",
            SyntaxKind::Number => "a number literal",
            SyntaxKind::Plus => "a plus sign",
            SyntaxKind::Minus => "a minus sign",
            SyntaxKind::Star => "an asterisk",
            SyntaxKind::Slash => "a slash",
            SyntaxKind::Error => "an erroneous character",
            SyntaxKind::Root => "the root",
            SyntaxKind::Operation => "an operation",
        }
    }

    /// The name of this kind in a tree dump ("Plus").
    pub fn name(self) -> (r: &'static str)
        ensures
            r@ == kind_name(self),
    {
        match self {
            SyntaxKind::Whitespace => "Whitespace",
            SyntaxKind::Number => "Number",
            SyntaxKind::Plus => "Plus",
            SyntaxKind::Minus => "Minus",
            SyntaxKind::Star => "Star",
            SyntaxKind::Slash => "Slash",
            SyntaxKind::Error => "Error",
            SyntaxKind::Root => "Root",
            SyntaxKind::Operation => "Operation",
        }
    }
}

} // verus!
