//! The syntax tree of an operation document (queries, mutations,
//! subscriptions and fragment definitions), and its view.
//!
//! Values held in arguments and variable defaults are opaque: the external
//! parser supplies them already stringified, and the formatter never
//! reparses or reformats their internal spacing.

use vstd::prelude::*;

use crate::ast::Directive;
use crate::ast::directives_view;
use crate::sort::view_seq;

verus! {

/// Which keyword introduces an operation.
#[derive(Clone, Copy, PartialEq, Eq, Structural)]
pub enum OperationKind {
    Query,
    Mutation,
    Subscription,
}

/// One `$name: Type = default` entry of an operation's variable list.
pub struct VariableDefinition {
    pub name: String,
    /// The type as text, e.g. `[String!]!`.
    pub var_type: String,
    /// The default literal as text, if present.
    pub default_value: Option<String>,
}

/// A named argument with an opaque, pre-stringified value.
pub struct Argument {
    pub name: String,
    pub value: String,
}

/// A document: a sequence of top-level definitions, kept in source order.
pub struct Document {
    pub definitions: Vec<Definition>,
}

/// A top-level definition of an operation document.
pub enum Definition {
    Operation(Operation),
    Fragment(FragmentDefinition),
    /// A bare selection set standing alone at the top level.
    SelectionSet(SelectionSet),
}

/// A query, mutation or subscription, as one polymorphic shape.
pub struct Operation {
    pub kind: OperationKind,
    pub name: Option<String>,
    pub variable_definitions: Vec<VariableDefinition>,
    pub directives: Vec<Directive>,
    pub selection_set: SelectionSet,
}

/// A `fragment Name on Type { ... }` definition.
pub struct FragmentDefinition {
    pub name: String,
    pub type_condition: String,
    pub directives: Vec<Directive>,
    pub selection_set: SelectionSet,
}

/// The braced group of selections under an operation or field; the order
/// of `items` is the source order, and rendering computes its own order.
pub struct SelectionSet {
    pub items: Vec<Selection>,
}

/// One entry of a selection set.
pub enum Selection {
    Field(Field),
    FragmentSpread(FragmentSpread),
    InlineFragment(InlineFragment),
}

/// A field selection, with an optional alias and nested selections.
pub struct Field {
    pub alias: Option<String>,
    pub name: String,
    pub arguments: Vec<Argument>,
    pub directives: Vec<Directive>,
    pub selection_set: SelectionSet,
}

/// A `...fragmentName` spread.
pub struct FragmentSpread {
    pub fragment_name: String,
    pub directives: Vec<Directive>,
}

/// An inline `... on Type { ... }` fragment; the type condition may be
/// absent.
pub struct InlineFragment {
    pub type_condition: Option<String>,
    pub directives: Vec<Directive>,
    pub selection_set: SelectionSet,
}

// ------------------------------------------------------------------
// Views
// ------------------------------------------------------------------

pub struct VariableDefinitionView {
    pub name: Seq<char>,
    pub var_type: Seq<char>,
    pub default_value: Option<Seq<char>>,
}

pub struct ArgumentView {
    pub name: Seq<char>,
    pub value: Seq<char>,
}

pub struct DocumentView {
    pub definitions: Seq<DefinitionView>,
}

pub enum DefinitionView {
    Operation(OperationView),
    Fragment(FragmentDefinitionView),
    SelectionSet(SelectionSetView),
}

pub struct OperationView {
    pub kind: OperationKind,
    pub name: Option<Seq<char>>,
    pub variable_definitions: Seq<VariableDefinitionView>,
    pub directives: Seq<Seq<char>>,
    pub selection_set: SelectionSetView,
}

pub struct FragmentDefinitionView {
    pub name: Seq<char>,
    pub type_condition: Seq<char>,
    pub directives: Seq<Seq<char>>,
    pub selection_set: SelectionSetView,
}

pub struct SelectionSetView {
    pub items: Seq<SelectionView>,
}

pub enum SelectionView {
    Field(FieldView),
    FragmentSpread(FragmentSpreadView),
    InlineFragment(InlineFragmentView),
}

pub struct FieldView {
    pub alias: Option<Seq<char>>,
    pub name: Seq<char>,
    pub arguments: Seq<ArgumentView>,
    pub directives: Seq<Seq<char>>,
    pub selection_set: SelectionSetView,
}

pub struct FragmentSpreadView {
    pub fragment_name: Seq<char>,
    pub directives: Seq<Seq<char>>,
}

pub struct InlineFragmentView {
    pub type_condition: Option<Seq<char>>,
    pub directives: Seq<Seq<char>>,
    pub selection_set: SelectionSetView,
}

pub open spec fn opt_view(o: Option<String>) -> Option<Seq<char>> {
    match o {
        Option::Some(s) => Option::Some(s@),
        Option::None => Option::None,
    }
}

impl View for VariableDefinition {
    type V = VariableDefinitionView;

    open spec fn view(&self) -> VariableDefinitionView {
        VariableDefinitionView {
            name: self.name@,
            var_type: self.var_type@,
            default_value: opt_view(self.default_value),
        }
    }
}

impl View for Argument {
    type V = ArgumentView;

    open spec fn view(&self) -> ArgumentView {
        ArgumentView { name: self.name@, value: self.value@ }
    }
}

pub open spec fn view_selection_set(set: SelectionSet) -> SelectionSetView
    decreases set,
{
    SelectionSetView { items: view_selections(set.items@) }
}

pub open spec fn view_selections(items: Seq<Selection>) -> Seq<SelectionView>
    decreases items,
{
    if items.len() == 0 {
        Seq::empty()
    } else {
        seq![view_selection(items[0])] + view_selections(items.drop_first())
    }
}

pub open spec fn view_selection(sel: Selection) -> SelectionView
    decreases sel,
{
    match sel {
        Selection::Field(f) => SelectionView::Field(view_field(f)),
        Selection::FragmentSpread(fs) => SelectionView::FragmentSpread(
            FragmentSpreadView {
                fragment_name: fs.fragment_name@,
                directives: directives_view(fs.directives@),
            },
        ),
        Selection::InlineFragment(g) => SelectionView::InlineFragment(
            InlineFragmentView {
                type_condition: opt_view(g.type_condition),
                directives: directives_view(g.directives@),
                selection_set: view_selection_set(g.selection_set),
            },
        ),
    }
}

pub open spec fn view_field(f: Field) -> FieldView
    decreases f,
{
    FieldView {
        alias: opt_view(f.alias),
        name: f.name@,
        arguments: view_seq(f.arguments@),
        directives: directives_view(f.directives@),
        selection_set: view_selection_set(f.selection_set),
    }
}

impl View for SelectionSet {
    type V = SelectionSetView;

    open spec fn view(&self) -> SelectionSetView {
        view_selection_set(*self)
    }
}

impl View for Selection {
    type V = SelectionView;

    open spec fn view(&self) -> SelectionView {
        view_selection(*self)
    }
}

impl View for Field {
    type V = FieldView;

    open spec fn view(&self) -> FieldView {
        view_field(*self)
    }
}

impl View for Operation {
    type V = OperationView;

    open spec fn view(&self) -> OperationView {
        OperationView {
            kind: self.kind,
            name: opt_view(self.name),
            variable_definitions: view_seq(self.variable_definitions@),
            directives: directives_view(self.directives@),
            selection_set: view_selection_set(self.selection_set),
        }
    }
}

impl View for FragmentDefinition {
    type V = FragmentDefinitionView;

    open spec fn view(&self) -> FragmentDefinitionView {
        FragmentDefinitionView {
            name: self.name@,
            type_condition: self.type_condition@,
            directives: directives_view(self.directives@),
            selection_set: view_selection_set(self.selection_set),
        }
    }
}

impl View for Definition {
    type V = DefinitionView;

    open spec fn view(&self) -> DefinitionView {
        match *self {
            Definition::Operation(op) => DefinitionView::Operation(op@),
            Definition::Fragment(fr) => DefinitionView::Fragment(fr@),
            Definition::SelectionSet(set) => DefinitionView::SelectionSet(view_selection_set(set)),
        }
    }
}

impl View for Document {
    type V = DocumentView;

    open spec fn view(&self) -> DocumentView {
        DocumentView { definitions: view_seq(self.definitions@) }
    }
}

/// The view of a selection list keeps its length.
pub proof fn lemma_view_selections_len(items: Seq<Selection>)
    ensures
        view_selections(items).len() == items.len(),
    decreases items.len(),
{
    if items.len() > 0 {
        lemma_view_selections_len(items.drop_first());
    }
}

/// The view of a selection list is the list of the views.
pub proof fn lemma_view_selections_index(items: Seq<Selection>, i: int)
    requires
        0 <= i < items.len(),
    ensures
        view_selections(items).len() == items.len(),
        view_selections(items)[i] == view_selection(items[i]),
    decreases i,
{
    lemma_view_selections_len(items);
    if i > 0 {
        lemma_view_selections_index(items.drop_first(), i - 1);
    }
}

// ------------------------------------------------------------------
// Node counts, the measure for recursion over a view
// ------------------------------------------------------------------

/// Number of nodes of a selection set, counting the set itself.
pub open spec fn size_selection_set(sv: SelectionSetView) -> nat
    decreases sv,
{
    1 + size_selections(sv.items)
}

/// Total node count of a sequence of selections.
pub open spec fn size_selections(items: Seq<SelectionView>) -> nat
    decreases items,
{
    if items.len() == 0 {
        0
    } else {
        size_selection(items[0]) + size_selections(items.drop_first())
    }
}

/// Node count of one selection.
pub open spec fn size_selection(sel: SelectionView) -> nat
    decreases sel,
{
    match sel {
        SelectionView::Field(f) => size_field(f),
        SelectionView::FragmentSpread(_) => 1,
        SelectionView::InlineFragment(g) => 1 + size_selection_set(g.selection_set),
    }
}

/// Node count of a field, counting the field itself.
pub open spec fn size_field(f: FieldView) -> nat
    decreases f,
{
    1 + size_selection_set(f.selection_set)
}

/// Node count of a top-level definition.
pub open spec fn size_definition(def: DefinitionView) -> nat {
    match def {
        DefinitionView::Operation(op) => 1 + size_selection_set(op.selection_set),
        DefinitionView::Fragment(fr) => 1 + size_selection_set(fr.selection_set),
        DefinitionView::SelectionSet(set) => 1 + size_selection_set(set),
    }
}

/// Total node count of a document.
pub open spec fn size_document(d: DocumentView) -> nat
    decreases d.definitions.len(),
{
    if d.definitions.len() == 0 {
        0
    } else {
        size_definition(d.definitions[0]) + size_document(
            DocumentView { definitions: d.definitions.drop_first() },
        )
    }
}

/// Every selection counts at least one node.
pub proof fn lemma_size_selection_pos(sel: SelectionView)
    ensures
        size_selection(sel) >= 1,
{
    match sel {
        SelectionView::Field(f) => {
            assert(size_selection(sel) == size_field(f));
        },
        SelectionView::FragmentSpread(_) => {},
        SelectionView::InlineFragment(_) => {},
    }
}

/// One selection's count is bounded by the count of any list holding it.
pub proof fn lemma_size_selections_element(items: Seq<SelectionView>, i: int)
    requires
        0 <= i < items.len(),
    ensures
        size_selection(items[i]) <= size_selections(items),
    decreases items.len(),
{
    if i > 0 {
        lemma_size_selections_element(items.drop_first(), i - 1);
    }
}

} // verus!
