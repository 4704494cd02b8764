//! The syntax tree of a type-system document (schema block, object,
//! interface, enum, scalar, union and input types), and its view.
//!
//! Unlike a selection set, nothing here nests: the tree is two levels deep
//! at most, so every view is a plain record over sequences.

use vstd::prelude::*;

use crate::ast::directives_view;
use crate::ast::Directive;
use crate::sort::view_seq;

verus! {

/// A type-system document: a sequence of definitions in source order.
pub struct Document {
    pub definitions: Vec<Definition>,
}

/// One top-level definition of a type-system document.
pub enum Definition {
    Schema(SchemaBlock),
    Object(ObjectType),
    Interface(InterfaceType),
    Enum(EnumType),
    Scalar(ScalarType),
    Union(UnionType),
    InputObject(InputObjectType),
    /// A `extend type ...` construct; not canonicalized.
    TypeExtension(TypeExtension),
    /// A standalone `directive @x on ...` declaration; not canonicalized.
    DirectiveDefinition(DirectiveDefinition),
}

/// The `schema { ... }` block naming the root operation types.
pub struct SchemaBlock {
    pub query: Option<String>,
    pub mutation: Option<String>,
    pub subscription: Option<String>,
    pub directives: Vec<Directive>,
}

/// A `type Name implements A & B { ... }` definition.
pub struct ObjectType {
    pub name: String,
    pub description: Option<String>,
    /// Kept in declared order; rendering preserves it.
    pub implements_interfaces: Vec<String>,
    pub directives: Vec<Directive>,
    pub fields: Vec<Field>,
}

/// An `interface Name { ... }` definition.
pub struct InterfaceType {
    pub name: String,
    pub description: Option<String>,
    pub directives: Vec<Directive>,
    pub fields: Vec<Field>,
}

/// An `enum Name { ... }` definition; only the value names are kept.
pub struct EnumType {
    pub name: String,
    pub description: Option<String>,
    pub directives: Vec<Directive>,
    pub values: Vec<String>,
}

/// A `scalar Name` definition.
pub struct ScalarType {
    pub name: String,
    pub description: Option<String>,
    pub directives: Vec<Directive>,
}

/// A `union Name = A | B` definition.
pub struct UnionType {
    pub name: String,
    pub description: Option<String>,
    pub directives: Vec<Directive>,
    pub types: Vec<String>,
}

/// An `input Name { ... }` definition.
pub struct InputObjectType {
    pub name: String,
    pub description: Option<String>,
    pub directives: Vec<Directive>,
    pub fields: Vec<InputValue>,
}

/// One field of an object or interface: name, optional argument list and
/// the field's type as text.
pub struct Field {
    pub name: String,
    pub description: Option<String>,
    pub arguments: Vec<InputValue>,
    /// The type as text, e.g. `[Episode]!`.
    pub field_type: String,
    pub directives: Vec<Directive>,
}

/// One input value: an entry of an input type or of a field's argument
/// list.  Default values are out of scope and not modeled.
pub struct InputValue {
    pub name: String,
    pub description: Option<String>,
    /// The type as text.
    pub value_type: String,
    pub directives: Vec<Directive>,
}

/// An unsupported `extend` construct, kept only to be reported.
pub struct TypeExtension {
    pub name: String,
}

/// An unsupported directive declaration, kept only to be reported.
pub struct DirectiveDefinition {
    pub name: String,
}

// ------------------------------------------------------------------
// Views
// ------------------------------------------------------------------

pub open spec fn opt_text_view(o: Option<String>) -> Option<Seq<char>> {
    match o {
        Option::Some(s) => Option::Some(s@),
        Option::None => Option::None,
    }
}

pub struct DocumentView {
    pub definitions: Seq<DefinitionView>,
}

pub enum DefinitionView {
    Schema(SchemaBlockView),
    Object(ObjectTypeView),
    Interface(InterfaceTypeView),
    Enum(EnumTypeView),
    Scalar(ScalarTypeView),
    Union(UnionTypeView),
    InputObject(InputObjectTypeView),
    TypeExtension(Seq<char>),
    DirectiveDefinition(Seq<char>),
}

pub struct SchemaBlockView {
    pub query: Option<Seq<char>>,
    pub mutation: Option<Seq<char>>,
    pub subscription: Option<Seq<char>>,
    pub directives: Seq<Seq<char>>,
}

pub struct ObjectTypeView {
    pub name: Seq<char>,
    pub description: Option<Seq<char>>,
    pub implements_interfaces: Seq<Seq<char>>,
    pub directives: Seq<Seq<char>>,
    pub fields: Seq<FieldView>,
}

pub struct InterfaceTypeView {
    pub name: Seq<char>,
    pub description: Option<Seq<char>>,
    pub directives: Seq<Seq<char>>,
    pub fields: Seq<FieldView>,
}

pub struct EnumTypeView {
    pub name: Seq<char>,
    pub description: Option<Seq<char>>,
    pub directives: Seq<Seq<char>>,
    pub values: Seq<Seq<char>>,
}

pub struct ScalarTypeView {
    pub name: Seq<char>,
    pub description: Option<Seq<char>>,
    pub directives: Seq<Seq<char>>,
}

pub struct UnionTypeView {
    pub name: Seq<char>,
    pub description: Option<Seq<char>>,
    pub directives: Seq<Seq<char>>,
    pub types: Seq<Seq<char>>,
}

pub struct InputObjectTypeView {
    pub name: Seq<char>,
    pub description: Option<Seq<char>>,
    pub directives: Seq<Seq<char>>,
    pub fields: Seq<InputValueView>,
}

pub struct FieldView {
    pub name: Seq<char>,
    pub description: Option<Seq<char>>,
    pub arguments: Seq<InputValueView>,
    pub field_type: Seq<char>,
    pub directives: Seq<Seq<char>>,
}

pub struct InputValueView {
    pub name: Seq<char>,
    pub description: Option<Seq<char>>,
    pub value_type: Seq<char>,
    pub directives: Seq<Seq<char>>,
}

impl View for InputValue {
    type V = InputValueView;

    open spec fn view(&self) -> InputValueView {
        InputValueView {
            name: self.name@,
            description: opt_text_view(self.description),
            value_type: self.value_type@,
            directives: directives_view(self.directives@),
        }
    }
}

impl View for Field {
    type V = FieldView;

    open spec fn view(&self) -> FieldView {
        FieldView {
            name: self.name@,
            description: opt_text_view(self.description),
            arguments: view_seq(self.arguments@),
            field_type: self.field_type@,
            directives: directives_view(self.directives@),
        }
    }
}

impl View for SchemaBlock {
    type V = SchemaBlockView;

    open spec fn view(&self) -> SchemaBlockView {
        SchemaBlockView {
            query: opt_text_view(self.query),
            mutation: opt_text_view(self.mutation),
            subscription: opt_text_view(self.subscription),
            directives: directives_view(self.directives@),
        }
    }
}

impl View for ObjectType {
    type V = ObjectTypeView;

    open spec fn view(&self) -> ObjectTypeView {
        ObjectTypeView {
            name: self.name@,
            description: opt_text_view(self.description),
            implements_interfaces: view_seq(self.implements_interfaces@),
            directives: directives_view(self.directives@),
            fields: view_seq(self.fields@),
        }
    }
}

impl View for InterfaceType {
    type V = InterfaceTypeView;

    open spec fn view(&self) -> InterfaceTypeView {
        InterfaceTypeView {
            name: self.name@,
            description: opt_text_view(self.description),
            directives: directives_view(self.directives@),
            fields: view_seq(self.fields@),
        }
    }
}

impl View for EnumType {
    type V = EnumTypeView;

    open spec fn view(&self) -> EnumTypeView {
        EnumTypeView {
            name: self.name@,
            description: opt_text_view(self.description),
            directives: directives_view(self.directives@),
            values: view_seq(self.values@),
        }
    }
}

impl View for ScalarType {
    type V = ScalarTypeView;

    open spec fn view(&self) -> ScalarTypeView {
        ScalarTypeView {
            name: self.name@,
            description: opt_text_view(self.description),
            directives: directives_view(self.directives@),
        }
    }
}

impl View for UnionType {
    type V = UnionTypeView;

    open spec fn view(&self) -> UnionTypeView {
        UnionTypeView {
            name: self.name@,
            description: opt_text_view(self.description),
            directives: directives_view(self.directives@),
            types: view_seq(self.types@),
        }
    }
}

impl View for InputObjectType {
    type V = InputObjectTypeView;

    open spec fn view(&self) -> InputObjectTypeView {
        InputObjectTypeView {
            name: self.name@,
            description: opt_text_view(self.description),
            directives: directives_view(self.directives@),
            fields: view_seq(self.fields@),
        }
    }
}

impl View for Definition {
    type V = DefinitionView;

    open spec fn view(&self) -> DefinitionView {
        match *self {
            Definition::Schema(s) => DefinitionView::Schema(s@),
            Definition::Object(o) => DefinitionView::Object(o@),
            Definition::Interface(i) => DefinitionView::Interface(i@),
            Definition::Enum(e) => DefinitionView::Enum(e@),
            Definition::Scalar(s) => DefinitionView::Scalar(s@),
            Definition::Union(u) => DefinitionView::Union(u@),
            Definition::InputObject(io) => DefinitionView::InputObject(io@),
            Definition::TypeExtension(t) => DefinitionView::TypeExtension(t.name@),
            Definition::DirectiveDefinition(d) => DefinitionView::DirectiveDefinition(d.name@),
        }
    }
}

impl View for Document {
    type V = DocumentView;

    open spec fn view(&self) -> DocumentView {
        DocumentView { definitions: view_seq(self.definitions@) }
    }
}

} // verus!
