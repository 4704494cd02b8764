//! The error a formatter reports when a document uses a construct it does
//! not canonicalize.  Formatting is all-or-nothing: no partial output is
//! produced for such a document.

use vstd::prelude::*;
use vstd::string::StringExecFns;

verus! {

/// An unsupported construct found while formatting.
#[derive(Clone, Copy, Debug, PartialEq, Eq, Structural)]
pub enum FormatError {
    /// A directive appears on some node of the document.
    Directive,
    /// A type-system document extends an existing type.
    TypeExtension,
    /// A type-system document declares a standalone directive.
    DirectiveDefinition,
}

impl FormatError {
    /// The label reported for this construct.
    pub open spec fn message_spec(&self) -> Seq<char> {
        match *self {
            FormatError::Directive => "unsupported construct: directive"@,
            FormatError::TypeExtension => "unsupported construct: type extension"@,
            FormatError::DirectiveDefinition => "unsupported construct: directive definition"@,
        }
    }

    /// A human-readable description of the error.
    pub fn message(&self) -> (r: String)
        ensures
            r@ == self.message_spec(),
    {
        match *self {
            FormatError::Directive => String::from_str("unsupported construct: directive"),
            FormatError::TypeExtension => String::from_str(
                "unsupported construct: type extension",
            ),
            FormatError::DirectiveDefinition => String::from_str(
                "unsupported construct: directive definition",
            ),
        }
    }
}

} // verus!
