//! The syntax trees the formatters consume, together with their
//! mathematical models.
//!
//! Each executable type has a view: a ghost value built from `Seq` and
//! `Option` that the rendering specifications and the canonical-form lemmas
//! are stated over.  An external parser (or a test) builds these trees from
//! raw text; the formatters never see the text itself.

use vstd::prelude::*;

pub mod query;
pub mod schema;

verus! {

/// A directive attached to a node, such as `@skip(if: $flag)`.
///
/// Directives are not canonicalized: a document that carries one anywhere
/// is rejected as unsupported.  Only the name is kept, to identify the
/// offending construct.
pub struct Directive {
    pub name: String,
}

impl View for Directive {
    type V = Seq<char>;

    open spec fn view(&self) -> Seq<char> {
        self.name@
    }
}

/// The view of a directive list: the sequence of directive names.
pub open spec fn directives_view(ds: Seq<Directive>) -> Seq<Seq<char>> {
    ds.map_values(|d: Directive| d@)
}

} // verus!
