//! The canonical form of a document, and the laws of the formatters.
//!
//! `canon_document` (and `canon_schema_document`) produce the tree whose
//! order matches what rendering emits: selections, arguments, fields,
//! input values, enum values and union members sorted, everything else
//! untouched.  The laws proved here say that rendering depends only on
//! that canonical form and that canonicalizing twice is the same as
//! canonicalizing once.  Together they are the tree-level half of the
//! round-trip property `format(format(x)) == format(x)`: the other half,
//! that parsing the rendered text recovers its canonical tree, belongs to
//! the external parser and is exercised by tests.

use vstd::prelude::*;

use crate::ast::query::{
    ArgumentView, DefinitionView, DocumentView, FieldView, OperationView, SelectionSetView,
    SelectionView, size_field, size_selection, size_selection_set, size_selections,
    lemma_size_selection_pos, lemma_size_selections_element,
};
use crate::format::query::{
    field_head, render_definition, render_definitions, render_document, render_field,
    render_selection, render_selection_set, render_selections, selection_rank,
    selection_sort_name, sort_arguments, sort_selections, lemma_sort_selections_size,
};
use crate::ast::query::{Argument, Selection};
use crate::ast::schema::{
    DefinitionView as SchemaDefinitionView, DocumentView as SchemaDocumentView,
    EnumTypeView, Field as SchemaField, FieldView as SchemaFieldView, InputObjectTypeView,
    InputValue, InputValueView, InterfaceTypeView, ObjectTypeView, UnionTypeView,
};
use crate::format::schema::{
    field_block, render_fields, render_schema_definition, render_schema_definitions,
    render_schema_document, render_schema_field, sort_fields, sort_input_values, sort_names,
};
use crate::format::{deeper, Indentation};
use crate::sort::{
    key_order, leq_total, leq_transitive, seq_sorted_by,
    lemma_sort_by_insertion_idempotent, lemma_sort_by_insertion_len, lemma_sort_by_insertion_map,
    lemma_sort_by_insertion_multiset, lemma_sort_by_insertion_of_sorted,
    lemma_sort_by_insertion_sorted,
};
use crate::strings::{lemma_seq_le_total, lemma_seq_le_trans};

verus! {

// ------------------------------------------------------------------
// The selection order is a total preorder
// ------------------------------------------------------------------

/// The selection order relates any two selections and is transitive: what
/// sorting a selection set needs of it.
pub proof fn lemma_selection_order_valid()
    ensures
        leq_total(key_order::<Selection>()),
        leq_transitive(key_order::<Selection>()),
{
    let leq = key_order::<Selection>();
    assert forall|a: SelectionView, b: SelectionView| #[trigger] leq(a, b) || #[trigger] leq(
        b,
        a,
    ) by {
        lemma_seq_le_total(selection_sort_name(a), selection_sort_name(b));
    }
    assert forall|a: SelectionView, b: SelectionView, c: SelectionView|
        #[trigger] leq(a, b) && #[trigger] leq(b, c) implies leq(a, c) by {
        if selection_rank(a) == selection_rank(b) && selection_rank(b) == selection_rank(c) {
            lemma_seq_le_trans(
                selection_sort_name(a),
                selection_sort_name(b),
                selection_sort_name(c),
            );
        }
    }
}

/// The argument order relates any two arguments and is transitive.
pub proof fn lemma_argument_order_valid()
    ensures
        leq_total(key_order::<Argument>()),
        leq_transitive(key_order::<Argument>()),
{
    let leq = key_order::<Argument>();
    assert forall|a: ArgumentView, b: ArgumentView| #[trigger] leq(a, b) || #[trigger] leq(
        b,
        a,
    ) by {
        lemma_seq_le_total(a.name, b.name);
    }
    assert forall|a: ArgumentView, b: ArgumentView, c: ArgumentView|
        #[trigger] leq(a, b) && #[trigger] leq(b, c) implies leq(a, c) by {
        lemma_seq_le_trans(a.name, b.name, c.name);
    }
}

/// Selection ordering law: the computed order of a selection set is sorted
/// by tier and name, and is a permutation of the source selections.
pub proof fn lemma_sort_selections_canonical(items: Seq<SelectionView>)
    ensures
        seq_sorted_by(sort_selections(items), key_order::<Selection>()),
        sort_selections(items).to_multiset() == items.to_multiset(),
        sort_selections(items).len() == items.len(),
{
    lemma_selection_order_valid();
    lemma_sort_by_insertion_sorted(key_order::<Selection>(), items);
    lemma_sort_by_insertion_multiset(key_order::<Selection>(), items);
    lemma_sort_by_insertion_len(key_order::<Selection>(), items);
}

/// Argument ordering law: the computed order of an argument list is sorted
/// by argument name, and is a permutation of the source arguments.
pub proof fn lemma_sort_arguments_canonical(args: Seq<ArgumentView>)
    ensures
        seq_sorted_by(sort_arguments(args), key_order::<Argument>()),
        sort_arguments(args).to_multiset() == args.to_multiset(),
        sort_arguments(args).len() == args.len(),
{
    lemma_argument_order_valid();
    lemma_sort_by_insertion_sorted(key_order::<Argument>(), args);
    lemma_sort_by_insertion_multiset(key_order::<Argument>(), args);
    lemma_sort_by_insertion_len(key_order::<Argument>(), args);
}

// ------------------------------------------------------------------
// The canonical form of an operation document
// ------------------------------------------------------------------

/// A selection set with every level in canonical order.
pub open spec fn canon_selection_set(set: SelectionSetView) -> SelectionSetView
    decreases size_selection_set(set), 3int,
{
    SelectionSetView { items: sort_selections(canon_selections(set.items)) }
}

/// Each selection canonicalized, order untouched.
pub open spec fn canon_selections(items: Seq<SelectionView>) -> Seq<SelectionView>
    decreases size_selections(items), 2int,
{
    if items.len() == 0 {
        Seq::empty()
    } else {
        proof {
            lemma_size_selection_pos(items[0]);
            lemma_size_selections_element(items, 0);
        }
        seq![canon_selection(items[0])] + canon_selections(items.drop_first())
    }
}

/// One selection canonicalized.
pub open spec fn canon_selection(sel: SelectionView) -> SelectionView
    decreases size_selection(sel), 1int,
{
    match sel {
        SelectionView::Field(f) => SelectionView::Field(canon_field(f)),
        SelectionView::FragmentSpread(fs) => SelectionView::FragmentSpread(fs),
        SelectionView::InlineFragment(g) => SelectionView::InlineFragment(
            crate::ast::query::InlineFragmentView {
                type_condition: g.type_condition,
                directives: g.directives,
                selection_set: canon_selection_set(g.selection_set),
            },
        ),
    }
}

/// A field with sorted arguments and a canonical selection set.
pub open spec fn canon_field(f: FieldView) -> FieldView
    decreases size_field(f), 0int,
{
    FieldView {
        alias: f.alias,
        name: f.name,
        arguments: sort_arguments(f.arguments),
        directives: f.directives,
        selection_set: canon_selection_set(f.selection_set),
    }
}

/// An operation with a canonical selection set; its variable list keeps
/// source order, as rendering does.
pub open spec fn canon_operation(op: OperationView) -> OperationView {
    OperationView {
        kind: op.kind,
        name: op.name,
        variable_definitions: op.variable_definitions,
        directives: op.directives,
        selection_set: canon_selection_set(op.selection_set),
    }
}

/// A top-level definition canonicalized.
pub open spec fn canon_definition(def: DefinitionView) -> DefinitionView {
    match def {
        DefinitionView::Operation(op) => DefinitionView::Operation(canon_operation(op)),
        DefinitionView::Fragment(fr) => DefinitionView::Fragment(
            crate::ast::query::FragmentDefinitionView {
                name: fr.name,
                type_condition: fr.type_condition,
                directives: fr.directives,
                selection_set: canon_selection_set(fr.selection_set),
            },
        ),
        DefinitionView::SelectionSet(set) => DefinitionView::SelectionSet(
            canon_selection_set(set),
        ),
    }
}

/// A document canonicalized; the top-level order is preserved.
pub open spec fn canon_document(d: DocumentView) -> DocumentView {
    DocumentView {
        definitions: d.definitions.map_values(|def: DefinitionView| canon_definition(def)),
    }
}

// ------------------------------------------------------------------
// Helper lemmas about canon_selections
// ------------------------------------------------------------------

/// The canonicalization of a selection, as a function value.
pub open spec fn canon_selection_fn() -> spec_fn(SelectionView) -> SelectionView {
    |s: SelectionView| canon_selection(s)
}

proof fn lemma_canon_selections_is_map(items: Seq<SelectionView>)
    ensures
        canon_selections(items) == items.map_values(canon_selection_fn()),
    decreases items.len(),
{
    if items.len() == 0 {
        assert(canon_selections(items) =~= items.map_values(canon_selection_fn()));
    } else {
        lemma_canon_selections_is_map(items.drop_first());
        assert(items.drop_first().map_values(canon_selection_fn()) =~= items.map_values(
            canon_selection_fn(),
        ).drop_first());
        assert(canon_selections(items) =~= items.map_values(canon_selection_fn()));
    }
}

/// Canonicalizing a selection set keeps the number of entries.
proof fn lemma_canon_selection_set_len(set: SelectionSetView)
    ensures
        canon_selection_set(set).items.len() == set.items.len(),
{
    lemma_canon_selections_is_map(set.items);
    lemma_sort_by_insertion_len(key_order::<Selection>(), canon_selections(set.items));
}

/// Canonicalizing a selection keeps its sort key: its tier and its name.
proof fn lemma_canon_selection_key(sel: SelectionView)
    ensures
        selection_rank(canon_selection(sel)) == selection_rank(sel),
        selection_sort_name(canon_selection(sel)) == selection_sort_name(sel),
{
    match sel {
        SelectionView::Field(f) => {
            lemma_canon_selection_set_len(f.selection_set);
        },
        SelectionView::FragmentSpread(_) => {},
        SelectionView::InlineFragment(_) => {},
    }
}

/// Sorting commutes with canonicalizing the entries.
proof fn lemma_sort_canon_commute(items: Seq<SelectionView>)
    ensures
        sort_selections(canon_selections(items)) == canon_selections(sort_selections(items)),
{
    let leq = key_order::<Selection>();
    let f = canon_selection_fn();
    assert forall|a: SelectionView, b: SelectionView| #[trigger] leq(f(a), f(b)) == leq(a, b) by {
        lemma_canon_selection_key(a);
        lemma_canon_selection_key(b);
    }
    lemma_canon_selections_is_map(items);
    lemma_sort_by_insertion_map(leq, f, items);
    lemma_canon_selections_is_map(sort_selections(items));
}

// ------------------------------------------------------------------
// Rendering depends only on the canonical form
// ------------------------------------------------------------------

proof fn lemma_render_canon_selection_set(set: SelectionSetView, ind: Indentation, w: nat)
    ensures
        render_selection_set(canon_selection_set(set), ind, w) == render_selection_set(
            set,
            ind,
            w,
        ),
    decreases size_selection_set(set), 3int,
{
    lemma_canon_selection_set_len(set);
    if set.items.len() == 0 {
    } else {
        lemma_selection_order_valid();
        lemma_sort_by_insertion_idempotent(key_order::<Selection>(), canon_selections(set.items));
        lemma_sort_canon_commute(set.items);
        lemma_sort_selections_size(set.items);
        lemma_render_canon_selections(sort_selections(set.items), deeper(ind), w);
        assert(sort_selections(canon_selection_set(set).items) == canon_selections(
            sort_selections(set.items),
        ));
    }
}

proof fn lemma_render_canon_selections(items: Seq<SelectionView>, ind: Indentation, w: nat)
    ensures
        render_selections(canon_selections(items), ind, w) == render_selections(items, ind, w),
    decreases size_selections(items), 2int,
{
    if items.len() == 0 {
    } else {
        lemma_size_selection_pos(items[0]);
        lemma_size_selections_element(items, 0);
        lemma_render_canon_selection(items[0], ind, w);
        lemma_render_canon_selections(items.drop_first(), ind, w);
        let c = canon_selections(items);
        assert(c[0] == canon_selection(items[0]));
        assert(c.drop_first() =~= canon_selections(items.drop_first()));
        assert(c.len() > 0);
        assert(render_selections(c, ind, w) == render_selection(c[0], ind, w)
            + render_selections(c.drop_first(), ind, w));
    }
}

proof fn lemma_render_canon_selection(sel: SelectionView, ind: Indentation, w: nat)
    ensures
        render_selection(canon_selection(sel), ind, w) == render_selection(sel, ind, w),
    decreases size_selection(sel), 1int,
{
    match sel {
        SelectionView::Field(f) => {
            lemma_render_canon_field(f, ind, w);
        },
        SelectionView::FragmentSpread(_) => {},
        SelectionView::InlineFragment(g) => {
            lemma_canon_selection_set_len(g.selection_set);
            lemma_render_canon_selection_set(g.selection_set, ind, w);
        },
    }
}

proof fn lemma_render_canon_field(f: FieldView, ind: Indentation, w: nat)
    ensures
        render_field(canon_field(f), ind, w) == render_field(f, ind, w),
    decreases size_field(f), 0int,
{
    let cf = canon_field(f);
    assert(field_head(cf) == field_head(f));
    lemma_canon_selection_set_len(f.selection_set);
    lemma_render_canon_selection_set(f.selection_set, ind, w);
    if f.arguments.len() > 0 {
        lemma_argument_order_valid();
        lemma_sort_by_insertion_len(key_order::<Argument>(), f.arguments);
        lemma_sort_by_insertion_idempotent(key_order::<Argument>(), f.arguments);
        assert(sort_arguments(cf.arguments) == sort_arguments(f.arguments));
    }
}

proof fn lemma_render_canon_definition(def: DefinitionView, ind: Indentation, w: nat)
    ensures
        render_definition(canon_definition(def), ind, w) == render_definition(def, ind, w),
{
    match def {
        DefinitionView::Operation(op) => {
            lemma_render_canon_selection_set(op.selection_set, ind, w);
        },
        DefinitionView::Fragment(fr) => {
            lemma_render_canon_selection_set(fr.selection_set, ind, w);
        },
        DefinitionView::SelectionSet(set) => {
            lemma_render_canon_selection_set(set, ind, w);
        },
    }
}

proof fn lemma_render_canon_definitions(defs: Seq<DefinitionView>, ind: Indentation, w: nat)
    ensures
        render_definitions(
            defs.map_values(|def: DefinitionView| canon_definition(def)),
            ind,
            w,
        ) == render_definitions(defs, ind, w),
    decreases defs.len(),
{
    let c = defs.map_values(|def: DefinitionView| canon_definition(def));
    if defs.len() == 0 {
        assert(c.len() == 0);
    } else {
        lemma_render_canon_definition(defs[0], ind, w);
        lemma_render_canon_definitions(defs.drop_first(), ind, w);
        assert(c[0] == canon_definition(defs[0]));
        assert(c.drop_first() =~= defs.drop_first().map_values(
            |def: DefinitionView| canon_definition(def),
        ));
        assert(render_definitions(c, ind, w) == render_definition(c[0], ind, w)
            + render_definitions(c.drop_first(), ind, w));
    }
}

/// Rendering depends only on a document's canonical form: the canonical
/// tree renders to exactly the same text as the tree it came from.
pub proof fn lemma_render_canonical(d: DocumentView, ind: Indentation, w: nat)
    ensures
        render_document(canon_document(d), ind, w) == render_document(d, ind, w),
{
    lemma_render_canon_definitions(d.definitions, ind, w);
}

/// Two documents with the same canonical form render to the same text:
/// the canonical form carries everything formatting looks at.
pub proof fn lemma_render_determined_by_canon(
    d1: DocumentView,
    d2: DocumentView,
    ind: Indentation,
    w: nat,
)
    requires
        canon_document(d1) == canon_document(d2),
    ensures
        render_document(d1, ind, w) == render_document(d2, ind, w),
{
    lemma_render_canonical(d1, ind, w);
    lemma_render_canonical(d2, ind, w);
}

// ------------------------------------------------------------------
// Canonicalizing is idempotent
// ------------------------------------------------------------------

proof fn lemma_canon_idem_selection_set(set: SelectionSetView)
    ensures
        canon_selection_set(canon_selection_set(set)) == canon_selection_set(set),
    decreases size_selection_set(set), 3int,
{
    let a = canon_selection_set(set).items;
    lemma_selection_order_valid();
    lemma_canon_idem_selections(set.items);
    lemma_sort_canon_commute(canon_selections(set.items));
    assert(canon_selections(a) == sort_selections(
        canon_selections(canon_selections(set.items)),
    ));
    assert(canon_selections(a) == a);
    lemma_sort_by_insertion_sorted(key_order::<Selection>(), canon_selections(set.items));
    lemma_sort_by_insertion_of_sorted(key_order::<Selection>(), a);
    assert(canon_selection_set(canon_selection_set(set)).items == a);
}

proof fn lemma_canon_idem_selections(items: Seq<SelectionView>)
    ensures
        canon_selections(canon_selections(items)) == canon_selections(items),
    decreases size_selections(items), 2int,
{
    if items.len() == 0 {
        assert(canon_selections(canon_selections(items)) =~= canon_selections(items));
    } else {
        lemma_size_selection_pos(items[0]);
        lemma_size_selections_element(items, 0);
        lemma_canon_idem_selection(items[0]);
        lemma_canon_idem_selections(items.drop_first());
        let c = canon_selections(items);
        assert(c[0] == canon_selection(items[0]));
        assert(c.drop_first() =~= canon_selections(items.drop_first()));
        assert(c.len() > 0);
        assert(canon_selections(c) == seq![canon_selection(c[0])] + canon_selections(
            c.drop_first(),
        ));
        assert(canon_selections(c) =~= c);
    }
}

proof fn lemma_canon_idem_selection(sel: SelectionView)
    ensures
        canon_selection(canon_selection(sel)) == canon_selection(sel),
    decreases size_selection(sel), 1int,
{
    match sel {
        SelectionView::Field(f) => {
            lemma_canon_idem_field(f);
        },
        SelectionView::FragmentSpread(_) => {},
        SelectionView::InlineFragment(g) => {
            lemma_canon_idem_selection_set(g.selection_set);
        },
    }
}

proof fn lemma_canon_idem_field(f: FieldView)
    ensures
        canon_field(canon_field(f)) == canon_field(f),
    decreases size_field(f), 0int,
{
    lemma_argument_order_valid();
    lemma_sort_by_insertion_idempotent(key_order::<Argument>(), f.arguments);
    lemma_canon_idem_selection_set(f.selection_set);
}

proof fn lemma_canon_idem_definition(def: DefinitionView)
    ensures
        canon_definition(canon_definition(def)) == canon_definition(def),
{
    match def {
        DefinitionView::Operation(op) => {
            lemma_canon_idem_selection_set(op.selection_set);
        },
        DefinitionView::Fragment(fr) => {
            lemma_canon_idem_selection_set(fr.selection_set);
        },
        DefinitionView::SelectionSet(set) => {
            lemma_canon_idem_selection_set(set);
        },
    }
}

/// Canonicalizing is idempotent: a canonical document is its own
/// canonical form.  With `lemma_render_canonical` this is the tree-level
/// content of the round trip: once a document is canonical, formatting
/// reproduces the same text again.
pub proof fn lemma_canon_idempotent(d: DocumentView)
    ensures
        canon_document(canon_document(d)) == canon_document(d),
{
    let c = canon_document(d);
    assert forall|i: int| 0 <= i < c.definitions.len() implies canon_definition(
        #[trigger] c.definitions[i],
    ) == c.definitions[i] by {
        lemma_canon_idem_definition(d.definitions[i]);
    }
    assert(canon_document(c).definitions =~= c.definitions);
}

// ------------------------------------------------------------------
// The canonical form of a type-system document, and its laws
// ------------------------------------------------------------------

/// The name orders used by the schema formatter relate any two values and
/// are transitive.
pub proof fn lemma_schema_orders_valid()
    ensures
        leq_total(key_order::<String>()),
        leq_transitive(key_order::<String>()),
        leq_total(key_order::<SchemaField>()),
        leq_transitive(key_order::<SchemaField>()),
        leq_total(key_order::<InputValue>()),
        leq_transitive(key_order::<InputValue>()),
{
    assert forall|a: Seq<char>, b: Seq<char>|
        #[trigger] key_order::<String>()(a, b) || #[trigger] key_order::<String>()(b, a) by {
        lemma_seq_le_total(a, b);
    }
    assert forall|a: Seq<char>, b: Seq<char>, c: Seq<char>|
        #[trigger] key_order::<String>()(a, b) && #[trigger] key_order::<String>()(b, c) implies
        key_order::<String>()(a, c) by {
        lemma_seq_le_trans(a, b, c);
    }
    assert forall|a: SchemaFieldView, b: SchemaFieldView|
        #[trigger] key_order::<SchemaField>()(a, b) || #[trigger] key_order::<SchemaField>()(
        b,
        a,
    ) by {
        lemma_seq_le_total(a.name, b.name);
    }
    assert forall|a: SchemaFieldView, b: SchemaFieldView, c: SchemaFieldView|
        #[trigger] key_order::<SchemaField>()(a, b) && #[trigger] key_order::<SchemaField>()(
        b,
        c,
    ) implies key_order::<SchemaField>()(a, c) by {
        lemma_seq_le_trans(a.name, b.name, c.name);
    }
    assert forall|a: InputValueView, b: InputValueView|
        #[trigger] key_order::<InputValue>()(a, b) || #[trigger] key_order::<InputValue>()(
        b,
        a,
    ) by {
        lemma_seq_le_total(a.name, b.name);
    }
    assert forall|a: InputValueView, b: InputValueView, c: InputValueView|
        #[trigger] key_order::<InputValue>()(a, b) && #[trigger] key_order::<InputValue>()(
        b,
        c,
    ) implies key_order::<InputValue>()(a, c) by {
        lemma_seq_le_trans(a.name, b.name, c.name);
    }
}

/// Name ordering law: enum values and union member types come out sorted,
/// as a permutation of the declared values.
pub proof fn lemma_sort_names_canonical(names: Seq<Seq<char>>)
    ensures
        seq_sorted_by(sort_names(names), key_order::<String>()),
        sort_names(names).to_multiset() == names.to_multiset(),
        sort_names(names).len() == names.len(),
{
    lemma_schema_orders_valid();
    lemma_sort_by_insertion_sorted(key_order::<String>(), names);
    lemma_sort_by_insertion_multiset(key_order::<String>(), names);
    lemma_sort_by_insertion_len(key_order::<String>(), names);
}

/// Field ordering law: a field block comes out sorted by field name, as a
/// permutation of the declared fields.
pub proof fn lemma_sort_fields_canonical(fields: Seq<SchemaFieldView>)
    ensures
        seq_sorted_by(sort_fields(fields), key_order::<SchemaField>()),
        sort_fields(fields).to_multiset() == fields.to_multiset(),
        sort_fields(fields).len() == fields.len(),
{
    lemma_schema_orders_valid();
    lemma_sort_by_insertion_sorted(key_order::<SchemaField>(), fields);
    lemma_sort_by_insertion_multiset(key_order::<SchemaField>(), fields);
    lemma_sort_by_insertion_len(key_order::<SchemaField>(), fields);
}

/// Input-value ordering law: an input block comes out sorted by name, as a
/// permutation of the declared entries.
pub proof fn lemma_sort_input_values_canonical(values: Seq<InputValueView>)
    ensures
        seq_sorted_by(sort_input_values(values), key_order::<InputValue>()),
        sort_input_values(values).to_multiset() == values.to_multiset(),
        sort_input_values(values).len() == values.len(),
{
    lemma_schema_orders_valid();
    lemma_sort_by_insertion_sorted(key_order::<InputValue>(), values);
    lemma_sort_by_insertion_multiset(key_order::<InputValue>(), values);
    lemma_sort_by_insertion_len(key_order::<InputValue>(), values);
}

/// A schema field with its argument list sorted.
pub open spec fn canon_schema_field(f: SchemaFieldView) -> SchemaFieldView {
    SchemaFieldView {
        name: f.name,
        description: f.description,
        arguments: sort_input_values(f.arguments),
        field_type: f.field_type,
        directives: f.directives,
    }
}

/// The canonicalization of a schema field, as a function value.
pub open spec fn canon_schema_field_fn() -> spec_fn(SchemaFieldView) -> SchemaFieldView {
    |f: SchemaFieldView| canon_schema_field(f)
}

/// A field list with each field canonicalized and the list sorted.
pub open spec fn canon_schema_fields(fs: Seq<SchemaFieldView>) -> Seq<SchemaFieldView> {
    sort_fields(fs.map_values(canon_schema_field_fn()))
}

/// A type-system definition canonicalized: fields, input values, enum
/// values and union members sorted; the `implements` clause and the
/// schema block untouched.
pub open spec fn canon_schema_definition(def: SchemaDefinitionView) -> SchemaDefinitionView {
    match def {
        SchemaDefinitionView::Schema(s) => SchemaDefinitionView::Schema(s),
        SchemaDefinitionView::Object(o) => SchemaDefinitionView::Object(
            ObjectTypeView {
                name: o.name,
                description: o.description,
                implements_interfaces: o.implements_interfaces,
                directives: o.directives,
                fields: canon_schema_fields(o.fields),
            },
        ),
        SchemaDefinitionView::Interface(it) => SchemaDefinitionView::Interface(
            InterfaceTypeView {
                name: it.name,
                description: it.description,
                directives: it.directives,
                fields: canon_schema_fields(it.fields),
            },
        ),
        SchemaDefinitionView::Enum(e) => SchemaDefinitionView::Enum(
            EnumTypeView {
                name: e.name,
                description: e.description,
                directives: e.directives,
                values: sort_names(e.values),
            },
        ),
        SchemaDefinitionView::Scalar(s) => SchemaDefinitionView::Scalar(s),
        SchemaDefinitionView::Union(u) => SchemaDefinitionView::Union(
            UnionTypeView {
                name: u.name,
                description: u.description,
                directives: u.directives,
                types: sort_names(u.types),
            },
        ),
        SchemaDefinitionView::InputObject(io) => SchemaDefinitionView::InputObject(
            InputObjectTypeView {
                name: io.name,
                description: io.description,
                directives: io.directives,
                fields: sort_input_values(io.fields),
            },
        ),
        SchemaDefinitionView::TypeExtension(n) => SchemaDefinitionView::TypeExtension(n),
        SchemaDefinitionView::DirectiveDefinition(n) => SchemaDefinitionView::DirectiveDefinition(
            n,
        ),
    }
}

/// A type-system document canonicalized; top-level order preserved.
pub open spec fn canon_schema_document(d: SchemaDocumentView) -> SchemaDocumentView {
    SchemaDocumentView {
        definitions: d.definitions.map_values(
            |def: SchemaDefinitionView| canon_schema_definition(def),
        ),
    }
}

proof fn lemma_render_canon_schema_field(f: SchemaFieldView, ind: Indentation, w: nat)
    ensures
        render_schema_field(canon_schema_field(f), ind, w) == render_schema_field(f, ind, w),
{
    if f.arguments.len() > 0 {
        lemma_schema_orders_valid();
        lemma_sort_by_insertion_len(key_order::<InputValue>(), f.arguments);
        lemma_sort_by_insertion_idempotent(key_order::<InputValue>(), f.arguments);
    }
}

proof fn lemma_render_canon_schema_fields(fs: Seq<SchemaFieldView>, ind: Indentation, w: nat)
    ensures
        render_fields(fs.map_values(canon_schema_field_fn()), ind, w) == render_fields(
            fs,
            ind,
            w,
        ),
    decreases fs.len(),
{
    let c = fs.map_values(canon_schema_field_fn());
    if fs.len() == 0 {
        assert(c.len() == 0);
    } else {
        lemma_render_canon_schema_field(fs[0], ind, w);
        lemma_render_canon_schema_fields(fs.drop_first(), ind, w);
        assert(c[0] == canon_schema_field(fs[0]));
        assert(c.drop_first() =~= fs.drop_first().map_values(canon_schema_field_fn()));
        assert(render_fields(c, ind, w) == render_schema_field(c[0], ind, w) + render_fields(
            c.drop_first(),
            ind,
            w,
        ));
    }
}

proof fn lemma_canon_field_block(fs: Seq<SchemaFieldView>, ind: Indentation, w: nat)
    ensures
        field_block(canon_schema_fields(fs), ind, w) == field_block(fs, ind, w),
{
    let leq = key_order::<SchemaField>();
    let f = canon_schema_field_fn();
    lemma_schema_orders_valid();
    assert forall|a: SchemaFieldView, b: SchemaFieldView| #[trigger] leq(f(a), f(b)) == leq(
        a,
        b,
    ) by {}
    lemma_sort_by_insertion_idempotent(leq, fs.map_values(f));
    lemma_sort_by_insertion_map(leq, f, fs);
    lemma_render_canon_schema_fields(sort_fields(fs), deeper(ind), w);
    assert(sort_fields(canon_schema_fields(fs)) == sort_fields(fs).map_values(f));
}

proof fn lemma_render_canon_schema_definition(
    def: SchemaDefinitionView,
    ind: Indentation,
    w: nat,
)
    ensures
        render_schema_definition(canon_schema_definition(def), ind, w)
            == render_schema_definition(def, ind, w),
{
    lemma_schema_orders_valid();
    match def {
        SchemaDefinitionView::Object(o) => {
            lemma_canon_field_block(o.fields, ind, w);
        },
        SchemaDefinitionView::Interface(it) => {
            lemma_canon_field_block(it.fields, ind, w);
        },
        SchemaDefinitionView::Enum(e) => {
            lemma_sort_by_insertion_idempotent(key_order::<String>(), e.values);
        },
        SchemaDefinitionView::Union(u) => {
            lemma_sort_by_insertion_idempotent(key_order::<String>(), u.types);
        },
        SchemaDefinitionView::InputObject(io) => {
            lemma_sort_by_insertion_idempotent(key_order::<InputValue>(), io.fields);
        },
        _ => {},
    }
}

proof fn lemma_render_canon_schema_definitions(
    defs: Seq<SchemaDefinitionView>,
    ind: Indentation,
    w: nat,
)
    ensures
        render_schema_definitions(
            defs.map_values(|def: SchemaDefinitionView| canon_schema_definition(def)),
            ind,
            w,
        ) == render_schema_definitions(defs, ind, w),
    decreases defs.len(),
{
    let c = defs.map_values(|def: SchemaDefinitionView| canon_schema_definition(def));
    if defs.len() == 0 {
        assert(c.len() == 0);
    } else {
        lemma_render_canon_schema_definition(defs[0], ind, w);
        lemma_render_canon_schema_definitions(defs.drop_first(), ind, w);
        assert(c[0] == canon_schema_definition(defs[0]));
        assert(c.drop_first() =~= defs.drop_first().map_values(
            |def: SchemaDefinitionView| canon_schema_definition(def),
        ));
        assert(render_schema_definitions(c, ind, w) == render_schema_definition(c[0], ind, w)
            + render_schema_definitions(c.drop_first(), ind, w));
    }
}

/// Rendering a type-system document depends only on its canonical form.
pub proof fn lemma_render_schema_canonical(d: SchemaDocumentView, ind: Indentation, w: nat)
    ensures
        render_schema_document(canon_schema_document(d), ind, w) == render_schema_document(
            d,
            ind,
            w,
        ),
{
    lemma_render_canon_schema_definitions(d.definitions, ind, w);
}

/// Two type-system documents with the same canonical form render to the
/// same text.
pub proof fn lemma_schema_render_determined_by_canon(
    d1: SchemaDocumentView,
    d2: SchemaDocumentView,
    ind: Indentation,
    w: nat,
)
    requires
        canon_schema_document(d1) == canon_schema_document(d2),
    ensures
        render_schema_document(d1, ind, w) == render_schema_document(d2, ind, w),
{
    lemma_render_schema_canonical(d1, ind, w);
    lemma_render_schema_canonical(d2, ind, w);
}

proof fn lemma_canon_idem_schema_definition(def: SchemaDefinitionView)
    ensures
        canon_schema_definition(canon_schema_definition(def)) == canon_schema_definition(def),
{
    lemma_schema_orders_valid();
    match def {
        SchemaDefinitionView::Object(o) => {
            lemma_canon_schema_fields_idem(o.fields);
        },
        SchemaDefinitionView::Interface(it) => {
            lemma_canon_schema_fields_idem(it.fields);
        },
        SchemaDefinitionView::Enum(e) => {
            lemma_sort_by_insertion_idempotent(key_order::<String>(), e.values);
        },
        SchemaDefinitionView::Union(u) => {
            lemma_sort_by_insertion_idempotent(key_order::<String>(), u.types);
        },
        SchemaDefinitionView::InputObject(io) => {
            lemma_sort_by_insertion_idempotent(key_order::<InputValue>(), io.fields);
        },
        _ => {},
    }
}

proof fn lemma_canon_schema_fields_idem(fs: Seq<SchemaFieldView>)
    ensures
        canon_schema_fields(canon_schema_fields(fs)) == canon_schema_fields(fs),
{
    broadcast use vstd::seq_lib::group_to_multiset_ensures;

    let leq = key_order::<SchemaField>();
    let f = canon_schema_field_fn();
    lemma_schema_orders_valid();
    let m = fs.map_values(f);
    let a = canon_schema_fields(fs);
    lemma_sort_by_insertion_multiset(leq, m);
    lemma_sort_by_insertion_len(leq, m);
    assert forall|i: int| 0 <= i < a.len() implies f(#[trigger] a[i]) == a[i] by {
        assert(a.contains(a[i]));
        assert(a.to_multiset().count(a[i]) > 0);
        assert(m.to_multiset().count(a[i]) > 0);
        assert(m.contains(a[i]));
        let j = choose|j: int| 0 <= j < m.len() && m[j] == a[i];
        assert(a[i] == f(fs[j]));
        lemma_sort_by_insertion_idempotent(key_order::<InputValue>(), fs[j].arguments);
        assert(f(f(fs[j])) == f(fs[j]));
    }
    assert(a.map_values(f) =~= a);
    lemma_sort_by_insertion_sorted(leq, m);
    lemma_sort_by_insertion_of_sorted(leq, a);
}

/// Canonicalizing a type-system document is idempotent.
pub proof fn lemma_schema_canon_idempotent(d: SchemaDocumentView)
    ensures
        canon_schema_document(canon_schema_document(d)) == canon_schema_document(d),
{
    let c = canon_schema_document(d);
    assert forall|i: int| 0 <= i < c.definitions.len() implies canon_schema_definition(
        #[trigger] c.definitions[i],
    ) == c.definitions[i] by {
        lemma_canon_idem_schema_definition(d.definitions[i]);
    }
    assert(canon_schema_document(c).definitions =~= c.definitions);
}

} // verus!
