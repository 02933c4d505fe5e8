//! The diagnostic value shapes transported by the bus.

use vstd::prelude::*;

verus! {

/// The ghost value of a [`Diagnostic`]: identifier names appear as byte
/// sequences, everything else is carried unchanged.
pub enum DiagView {
    UnexpectedEndOfStringLiteral,
    InvalidControlCharacter { byte: u8 },
    InvalidUnicodeCodePoint,
    DigitExceedsRadix { radix: u8, digit: u8 },
    UnrecognizedRadixPrefix { code: u8 },
    UnrecognizedCharacter { byte: u8 },
    UnboundIdentifier { name: Seq<u8> },
    DuplicateBinding { name: Seq<u8> },
}

/// One reportable condition: a tagged variant carrying only the data needed
/// to reconstruct a message later. Immutable once constructed; rendering is
/// the consumer's business, not this crate's.
#[derive(Clone, PartialEq, Eq, Debug)]
pub enum Diagnostic {
    /// A string literal ended at end of input.
    UnexpectedEndOfStringLiteral,
    /// A control character appeared where none is allowed.
    InvalidControlCharacter { byte: u8 },
    /// An escape named a scalar value outside the Unicode range.
    InvalidUnicodeCodePoint,
    /// A digit of a radix literal is not a digit of that radix.
    DigitExceedsRadix { radix: u8, digit: u8 },
    /// The letter after `0` names no known radix.
    UnrecognizedRadixPrefix { code: u8 },
    /// A byte that starts no token.
    UnrecognizedCharacter { byte: u8 },
    /// An identifier was referenced but is bound in no enclosing scope.
    UnboundIdentifier { name: Vec<u8> },
    /// An identifier was bound twice in the same scope.
    DuplicateBinding { name: Vec<u8> },
}

impl View for Diagnostic {
    type V = DiagView;

    open spec fn view(&self) -> DiagView {
        match self {
            Diagnostic::UnexpectedEndOfStringLiteral => DiagView::UnexpectedEndOfStringLiteral,
            Diagnostic::InvalidControlCharacter { byte } => DiagView::InvalidControlCharacter {
                byte: *byte,
            },
            Diagnostic::InvalidUnicodeCodePoint => DiagView::InvalidUnicodeCodePoint,
            Diagnostic::DigitExceedsRadix { radix, digit } => DiagView::DigitExceedsRadix {
                radix: *radix,
                digit: *digit,
            },
            Diagnostic::UnrecognizedRadixPrefix { code } => DiagView::UnrecognizedRadixPrefix {
                code: *code,
            },
            Diagnostic::UnrecognizedCharacter { byte } => DiagView::UnrecognizedCharacter {
                byte: *byte,
            },
            Diagnostic::UnboundIdentifier { name } => DiagView::UnboundIdentifier { name: name@ },
            Diagnostic::DuplicateBinding { name } => DiagView::DuplicateBinding { name: name@ },
        }
    }
}

/// Compares two identifiers byte for byte.
pub fn bytes_eq(a: &Vec<u8>, b: &Vec<u8>) -> (r: bool)
    ensures
        r == (a@ == b@),
{
    if a.len() != b.len() {
        return false;
    }
    let mut i: usize = 0;
    while i < a.len()
        invariant
            i <= a.len(),
            a.len() == b.len(),
            forall|j: int| 0 <= j < i ==> a@[j] == b@[j],
        decreases a.len() - i,
    {
        if a[i] != b[i] {
            return false;
        }
        i = i + 1;
    }
    proof {
        assert(a@ =~= b@);
    }
    true
}

/// Copies an identifier, byte for byte.
pub fn copy_bytes(a: &Vec<u8>) -> (r: Vec<u8>)
    ensures
        r@ == a@,
{
    let mut out: Vec<u8> = Vec::new();
    let mut i: usize = 0;
    while i < a.len()
        invariant
            i <= a.len(),
            out@ == a@.subrange(0, i as int),
        decreases a.len() - i,
    {
        out.push(a[i]);
        proof {
            assert(out@ =~= a@.subrange(0, i + 1));
        }
        i = i + 1;
    }
    proof {
        assert(out@ =~= a@);
    }
    out
}

} // verus!
