//! Canonical rendering of operation documents.
//!
//! The functions here realize, and are verified against, the rendering
//! specification `render_document`: top-level definitions keep their source
//! order, selections are reordered by tier and name, arguments are sorted
//! by name, and an argument list that would run past the column limit is
//! wrapped onto one line per argument.

use vstd::prelude::*;
use vstd::string::StringExecFns;

use crate::ast::query::{
    Argument, ArgumentView, Definition, DefinitionView, Document, DocumentView, Field, FieldView,
    FragmentDefinition, FragmentDefinitionView, FragmentSpread, InlineFragment, Operation,
    OperationKind, OperationView, Selection, SelectionSet, SelectionSetView, SelectionView,
    VariableDefinition, VariableDefinitionView, size_definition, size_document, size_field,
    size_selection, size_selection_set, size_selections, lemma_size_selection_pos,
    lemma_size_selections_element, lemma_view_selections_index, lemma_view_selections_len,
    view_field, view_selection, view_selection_set, view_selections,
};
use crate::error::FormatError;
use crate::format::{
    after_last_newline, at_line_start, current_line_of, deeper, initial_indentation,
    join_strings, join_texts, trim_of, Indentation, Output, INDENT_SIZE, MAX_LINE_LENGTH,
};
use crate::sort::{
    key_order, seq_sum, sort_by_insertion, sort_vec, view_seq, lemma_sort_by_insertion_sum,
    Sortable,
};
use crate::strings::{seq_le, str_le};

verus! {

// ------------------------------------------------------------------
// The canonical order of a selection set
// ------------------------------------------------------------------

/// The tier of a selection: leaf fields first, then fields with nested
/// selections, then fragment spreads, then inline fragments with a type
/// condition, then bare inline fragments.
pub open spec fn selection_rank(sel: SelectionView) -> int {
    match sel {
        SelectionView::Field(f) => if f.selection_set.items.len() == 0 {
            1
        } else {
            2
        },
        SelectionView::FragmentSpread(_) => 3,
        SelectionView::InlineFragment(g) => match g.type_condition {
            Option::Some(_) => 4,
            Option::None => 5,
        },
    }
}

/// The name a selection is ordered by within its tier.
pub open spec fn selection_sort_name(sel: SelectionView) -> Seq<char> {
    match sel {
        SelectionView::Field(f) => f.name,
        SelectionView::FragmentSpread(fs) => fs.fragment_name,
        SelectionView::InlineFragment(g) => match g.type_condition {
            Option::Some(tc) => tc,
            Option::None => Seq::empty(),
        },
    }
}

/// The full selection order: by tier, then by name.
pub open spec fn selection_leq(a: SelectionView, b: SelectionView) -> bool {
    selection_rank(a) < selection_rank(b) || (selection_rank(a) == selection_rank(b) && seq_le(
        selection_sort_name(a),
        selection_sort_name(b),
    ))
}

impl Sortable for Selection {
    open spec fn key_leq(a: SelectionView, b: SelectionView) -> bool {
        selection_leq(a, b)
    }

    fn leq(&self, other: &Selection) -> (r: bool) {
        let ra = self.rank();
        let rb = other.rank();
        if ra < rb {
            true
        } else if ra > rb {
            false
        } else {
            str_le(self.sort_name(), other.sort_name())
        }
    }
}

impl Selection {
    fn rank(&self) -> (r: u8)
        ensures
            r as int == selection_rank(self@),
    {
        match self {
            Selection::Field(f) => {
                proof {
                    lemma_view_selections_len(f.selection_set.items@);
                }
                if f.selection_set.items.len() == 0 {
                    1
                } else {
                    2
                }
            },
            Selection::FragmentSpread(_) => 3,
            Selection::InlineFragment(g) => match &g.type_condition {
                Option::Some(_) => 4,
                Option::None => 5,
            },
        }
    }

    fn sort_name(&self) -> (r: &str)
        ensures
            r@ == selection_sort_name(self@),
    {
        match self {
            Selection::Field(f) => f.name.as_str(),
            Selection::FragmentSpread(fs) => fs.fragment_name.as_str(),
            Selection::InlineFragment(g) => match &g.type_condition {
                Option::Some(tc) => tc.as_str(),
                Option::None => {
                    proof {
                        reveal_strlit("");
                        assert(""@ =~= Seq::<char>::empty());
                    }
                    ""
                },
            },
        }
    }
}

/// Selections in their canonical order.
pub open spec fn sort_selections(items: Seq<SelectionView>) -> Seq<SelectionView> {
    sort_by_insertion(key_order::<Selection>(), items)
}

impl Sortable for Argument {
    open spec fn key_leq(a: ArgumentView, b: ArgumentView) -> bool {
        seq_le(a.name, b.name)
    }

    fn leq(&self, other: &Argument) -> (r: bool) {
        str_le(self.name.as_str(), other.name.as_str())
    }
}

/// Arguments sorted by name; entries with equal names keep source order.
pub open spec fn sort_arguments(args: Seq<ArgumentView>) -> Seq<ArgumentView> {
    sort_by_insertion(key_order::<Argument>(), args)
}

// ------------------------------------------------------------------
// The rendering specification
// ------------------------------------------------------------------

/// The keyword that introduces an operation.
pub open spec fn keyword_text(k: OperationKind) -> Seq<char> {
    match k {
        OperationKind::Query => "query"@,
        OperationKind::Mutation => "mutation"@,
        OperationKind::Subscription => "subscription"@,
    }
}

/// One `$name: Type` entry, with its ` = default` suffix when present.
pub open spec fn variable_text(v: VariableDefinitionView) -> Seq<char> {
    let base = "$"@ + v.name + ": "@ + v.var_type;
    match v.default_value {
        Option::Some(d) => base + " = "@ + d,
        Option::None => base,
    }
}

/// The rendered texts of a variable list.
pub open spec fn variable_texts(vars: Seq<VariableDefinitionView>) -> Seq<Seq<char>> {
    vars.map_values(|v: VariableDefinitionView| variable_text(v))
}

/// One `name: value` argument entry.
pub open spec fn argument_text(a: ArgumentView) -> Seq<char> {
    a.name + ": "@ + a.value
}

/// The rendered texts of an argument list.
pub open spec fn argument_texts(args: Seq<ArgumentView>) -> Seq<Seq<char>> {
    args.map_values(|a: ArgumentView| argument_text(a))
}

/// An argument list rendered inline: comma-joined, with the closing
/// parenthesis.
pub open spec fn arguments_inline(args: Seq<ArgumentView>) -> Seq<char> {
    join_texts(argument_texts(args), ", "@) + ")"@
}

/// An argument list wrapped onto one line per argument, each followed by a
/// comma.
pub open spec fn wrapped_arg_lines(args: Seq<ArgumentView>, ind: Indentation) -> Seq<char>
    decreases args.len(),
{
    if args.len() == 0 {
        Seq::empty()
    } else {
        ind.spaces_spec() + argument_text(args[0]) + ",\n"@ + wrapped_arg_lines(
            args.drop_first(),
            ind,
        )
    }
}

/// `alias: name`, or just the name.
pub open spec fn field_head(f: FieldView) -> Seq<char> {
    match f.alias {
        Option::Some(a) => a + ": "@ + f.name,
        Option::None => f.name,
    }
}

/// The node-count measure of a selection.
pub open spec fn selection_measure() -> spec_fn(SelectionView) -> nat {
    |s: SelectionView| size_selection(s)
}

/// Sorting a selection list does not change its node count.
pub proof fn lemma_sort_selections_size(items: Seq<SelectionView>)
    ensures
        size_selections(sort_selections(items)) == size_selections(items),
{
    lemma_size_selections_as_sum(items);
    lemma_size_selections_as_sum(sort_selections(items));
    lemma_sort_by_insertion_sum(key_order::<Selection>(), items, selection_measure());
}

proof fn lemma_size_selections_as_sum(items: Seq<SelectionView>)
    ensures
        size_selections(items) == seq_sum(items, selection_measure()),
    decreases items.len(),
{
    if items.len() > 0 {
        lemma_size_selections_as_sum(items.drop_first());
    }
}

/// A rendered selection set: ` {` then the sorted selections one level
/// deeper, then `}` at the enclosing indentation.  An empty list renders
/// nothing, which is how a leaf field carries no braces.
pub open spec fn render_selection_set(set: SelectionSetView, ind: Indentation, w: nat) -> Seq<
    char,
>
    decreases size_selection_set(set), 4int,
{
    if set.items.len() == 0 {
        Seq::empty()
    } else {
        proof {
            lemma_sort_selections_size(set.items);
        }
        " {\n"@ + render_selections(sort_selections(set.items), deeper(ind), w)
            + ind.spaces_spec() + "}\n"@
    }
}

/// Renders each selection in turn.
pub open spec fn render_selections(items: Seq<SelectionView>, ind: Indentation, w: nat) -> Seq<
    char,
>
    decreases size_selections(items), 3int,
{
    if items.len() == 0 {
        Seq::empty()
    } else {
        proof {
            lemma_size_selection_pos(items[0]);
            lemma_size_selections_element(items, 0);
        }
        render_selection(items[0], ind, w) + render_selections(items.drop_first(), ind, w)
    }
}

/// Renders one selection at the current indentation.
pub open spec fn render_selection(sel: SelectionView, ind: Indentation, w: nat) -> Seq<char>
    decreases size_selection(sel), 2int,
{
    match sel {
        SelectionView::Field(f) => render_field(f, ind, w),
        SelectionView::FragmentSpread(fs) => ind.spaces_spec() + "..."@ + fs.fragment_name
            + "\n"@,
        SelectionView::InlineFragment(g) => ind.spaces_spec() + "..."@ + (match g.type_condition {
            Option::Some(tc) => " on "@ + tc,
            Option::None => Seq::empty(),
        }) + (if g.selection_set.items.len() == 0 {
            "\n"@
        } else {
            render_selection_set(g.selection_set, ind, w)
        }),
    }
}

/// Renders one field: head, sorted argument list (inline or wrapped by the
/// column limit `w`), then the nested selection set or a newline.
pub open spec fn render_field(f: FieldView, ind: Indentation, w: nat) -> Seq<char>
    decreases size_field(f), 1int,
{
    let head = ind.spaces_spec() + field_head(f);
    let tail = if f.selection_set.items.len() == 0 {
        "\n"@
    } else {
        render_selection_set(f.selection_set, ind, w)
    };
    if f.arguments.len() == 0 {
        head + tail
    } else {
        let sorted = sort_arguments(f.arguments);
        let inline_args = arguments_inline(sorted);
        let open_len = after_last_newline(head + "("@).len();
        if open_len + inline_args.len() > w {
            head + "("@ + "\n"@ + wrapped_arg_lines(sorted, deeper(ind)) + ind.spaces_spec()
                + ")"@ + tail
        } else {
            head + "("@ + inline_args + tail
        }
    }
}

/// The head of an operation: keyword, optional name, optional
/// source-ordered variable list.
pub open spec fn render_operation_head(op: OperationView) -> Seq<char> {
    let named = keyword_text(op.kind) + (match op.name {
        Option::Some(n) => " "@ + n,
        Option::None => Seq::empty(),
    });
    if op.variable_definitions.len() == 0 {
        named
    } else {
        let open = if op.name is Some {
            "("@
        } else {
            " ("@
        };
        named + open + join_texts(variable_texts(op.variable_definitions), ", "@) + ")"@
    }
}

/// Renders one operation.
pub open spec fn render_operation(op: OperationView, ind: Indentation, w: nat) -> Seq<char> {
    ind.spaces_spec() + render_operation_head(op) + render_selection_set(op.selection_set, ind, w)
}

/// Renders one fragment definition.
pub open spec fn render_fragment(fr: FragmentDefinitionView, ind: Indentation, w: nat) -> Seq<
    char,
> {
    ind.spaces_spec() + "fragment "@ + fr.name + " on "@ + fr.type_condition
        + render_selection_set(fr.selection_set, ind, w)
}

/// Renders one top-level definition, followed by its blank-line separator.
pub open spec fn render_definition(def: DefinitionView, ind: Indentation, w: nat) -> Seq<char> {
    (match def {
        DefinitionView::Operation(op) => render_operation(op, ind, w),
        DefinitionView::Fragment(fr) => render_fragment(fr, ind, w),
        DefinitionView::SelectionSet(set) => render_selection_set(set, ind, w),
    }) + "\n"@
}

/// Renders the definitions in source order.
pub open spec fn render_definitions(defs: Seq<DefinitionView>, ind: Indentation, w: nat) -> Seq<
    char,
>
    decreases defs.len(),
{
    if defs.len() == 0 {
        Seq::empty()
    } else {
        render_definition(defs[0], ind, w) + render_definitions(defs.drop_first(), ind, w)
    }
}

/// The full untrimmed rendering of a document.
pub open spec fn render_document(d: DocumentView, ind: Indentation, w: nat) -> Seq<char> {
    render_definitions(d.definitions, ind, w)
}

// ------------------------------------------------------------------
// Unsupported-construct detection
// ------------------------------------------------------------------

/// Some node below this selection set carries a directive.
pub open spec fn selection_set_has_directive(set: SelectionSetView) -> bool
    decreases set,
{
    selections_have_directive(set.items)
}

pub open spec fn selections_have_directive(items: Seq<SelectionView>) -> bool
    decreases items,
{
    if items.len() == 0 {
        false
    } else {
        selection_has_directive(items[0]) || selections_have_directive(items.drop_first())
    }
}

pub open spec fn selection_has_directive(sel: SelectionView) -> bool
    decreases sel,
{
    match sel {
        SelectionView::Field(f) => f.directives.len() > 0 || selection_set_has_directive(
            f.selection_set,
        ),
        SelectionView::FragmentSpread(fs) => fs.directives.len() > 0,
        SelectionView::InlineFragment(g) => g.directives.len() > 0 || selection_set_has_directive(
            g.selection_set,
        ),
    }
}

/// Some node of this definition carries a directive.
pub open spec fn definition_has_directive(def: DefinitionView) -> bool {
    match def {
        DefinitionView::Operation(op) => op.directives.len() > 0 || selection_set_has_directive(
            op.selection_set,
        ),
        DefinitionView::Fragment(fr) => fr.directives.len() > 0 || selection_set_has_directive(
            fr.selection_set,
        ),
        DefinitionView::SelectionSet(set) => selection_set_has_directive(set),
    }
}

pub open spec fn definitions_have_directive(defs: Seq<DefinitionView>) -> bool
    decreases defs.len(),
{
    if defs.len() == 0 {
        false
    } else {
        definition_has_directive(defs[0]) || definitions_have_directive(defs.drop_first())
    }
}

/// Some node of the document carries a directive, the one construct of an
/// operation document that formatting rejects.
pub open spec fn document_has_directive(d: DocumentView) -> bool {
    definitions_have_directive(d.definitions)
}

// ------------------------------------------------------------------
// Lemmas connecting the list specifications to iteration
// ------------------------------------------------------------------

/// The recursive selection view agrees with the pointwise view.
pub proof fn lemma_view_selections_eq(items: Seq<Selection>)
    ensures
        view_selections(items) == view_seq::<Selection>(items),
{
    lemma_view_selections_len(items);
    assert forall|i: int| 0 <= i < items.len() implies view_selections(items)[i]
        == view_seq::<Selection>(items)[i] by {
        lemma_view_selections_index(items, i);
    }
    assert(view_selections(items) =~= view_seq::<Selection>(items));
}

proof fn lemma_render_selections_push(
    items: Seq<SelectionView>,
    x: SelectionView,
    ind: Indentation,
    w: nat,
)
    ensures
        render_selections(items.push(x), ind, w) == render_selections(items, ind, w)
            + render_selection(x, ind, w),
    decreases items.len(),
{
    if items.len() == 0 {
        assert(items.push(x)[0] == x);
        assert(items.push(x).drop_first() =~= Seq::<SelectionView>::empty());
        assert(render_selections(Seq::<SelectionView>::empty(), ind, w) =~= Seq::<char>::empty());
        assert(render_selections(items, ind, w) + render_selection(x, ind, w) =~= render_selection(
            x,
            ind,
            w,
        ));
        assert(render_selection(x, ind, w) + Seq::<char>::empty() =~= render_selection(x, ind, w));
    } else {
        lemma_render_selections_push(items.drop_first(), x, ind, w);
        assert(items.push(x).drop_first() =~= items.drop_first().push(x));
        assert(items.push(x)[0] == items[0]);
        assert(render_selection(items[0], ind, w) + (render_selections(items.drop_first(), ind, w)
            + render_selection(x, ind, w)) =~= (render_selection(items[0], ind, w)
            + render_selections(items.drop_first(), ind, w)) + render_selection(x, ind, w));
    }
}

proof fn lemma_wrapped_arg_lines_push(args: Seq<ArgumentView>, x: ArgumentView, ind: Indentation)
    ensures
        wrapped_arg_lines(args.push(x), ind) == wrapped_arg_lines(args, ind) + ind.spaces_spec()
            + argument_text(x) + ",\n"@,
    decreases args.len(),
{
    if args.len() == 0 {
        assert(args.push(x)[0] == x);
        assert(args.push(x).drop_first() =~= Seq::<ArgumentView>::empty());
        assert(wrapped_arg_lines(Seq::<ArgumentView>::empty(), ind) == Seq::<char>::empty());
        assert(wrapped_arg_lines(args.push(x), ind) == ind.spaces_spec() + argument_text(x)
            + ",\n"@ + Seq::<char>::empty());
        assert(wrapped_arg_lines(args.push(x), ind) =~= wrapped_arg_lines(args, ind)
            + ind.spaces_spec() + argument_text(x) + ",\n"@);
    } else {
        lemma_wrapped_arg_lines_push(args.drop_first(), x, ind);
        assert(args.push(x).drop_first() =~= args.drop_first().push(x));
        assert(args.push(x)[0] == args[0]);
        assert(ind.spaces_spec() + argument_text(args[0]) + ",\n"@ + (wrapped_arg_lines(
            args.drop_first(),
            ind,
        ) + ind.spaces_spec() + argument_text(x) + ",\n"@) =~= (ind.spaces_spec() + argument_text(
            args[0],
        ) + ",\n"@ + wrapped_arg_lines(args.drop_first(), ind)) + ind.spaces_spec()
            + argument_text(x) + ",\n"@);
    }
}

proof fn lemma_render_definitions_push(
    defs: Seq<DefinitionView>,
    x: DefinitionView,
    ind: Indentation,
    w: nat,
)
    ensures
        render_definitions(defs.push(x), ind, w) == render_definitions(defs, ind, w)
            + render_definition(x, ind, w),
    decreases defs.len(),
{
    if defs.len() == 0 {
        assert(defs.push(x)[0] == x);
        assert(defs.push(x).drop_first() =~= Seq::<DefinitionView>::empty());
        assert(render_definitions(Seq::<DefinitionView>::empty(), ind, w) == Seq::<char>::empty());
        assert(render_definitions(defs.push(x), ind, w) == render_definition(x, ind, w)
            + Seq::<char>::empty());
        assert(render_definitions(defs.push(x), ind, w) =~= render_definitions(defs, ind, w)
            + render_definition(x, ind, w));
    } else {
        lemma_render_definitions_push(defs.drop_first(), x, ind, w);
        assert(defs.push(x).drop_first() =~= defs.drop_first().push(x));
        assert(defs.push(x)[0] == defs[0]);
        assert(render_definition(defs[0], ind, w) + (render_definitions(defs.drop_first(), ind, w)
            + render_definition(x, ind, w)) =~= (render_definition(defs[0], ind, w)
            + render_definitions(defs.drop_first(), ind, w)) + render_definition(x, ind, w));
    }
}

/// A selection list has a directive exactly when one of its entries does.
proof fn lemma_selections_have_directive_exists(items: Seq<SelectionView>)
    ensures
        selections_have_directive(items) == (exists|i: int|
            0 <= i < items.len() && selection_has_directive(#[trigger] items[i])),
    decreases items.len(),
{
    if items.len() > 0 {
        lemma_selections_have_directive_exists(items.drop_first());
        if selection_has_directive(items[0]) {
        } else if selections_have_directive(items.drop_first()) {
            let i = choose|i: int|
                0 <= i < items.drop_first().len() && selection_has_directive(
                    #[trigger] items.drop_first()[i],
                );
            assert(items[i + 1] == items.drop_first()[i]);
        } else {
            assert forall|i: int| 0 <= i < items.len() implies !selection_has_directive(
                #[trigger] items[i],
            ) by {
                if i > 0 {
                    assert(items.drop_first()[i - 1] == items[i]);
                }
            }
        }
    }
}

/// A definition list has a directive exactly when one of its entries does.
proof fn lemma_definitions_have_directive_exists(defs: Seq<DefinitionView>)
    ensures
        definitions_have_directive(defs) == (exists|i: int|
            0 <= i < defs.len() && definition_has_directive(#[trigger] defs[i])),
    decreases defs.len(),
{
    if defs.len() > 0 {
        lemma_definitions_have_directive_exists(defs.drop_first());
        if definition_has_directive(defs[0]) {
        } else if definitions_have_directive(defs.drop_first()) {
            let i = choose|i: int|
                0 <= i < defs.drop_first().len() && definition_has_directive(
                    #[trigger] defs.drop_first()[i],
                );
            assert(defs[i + 1] == defs.drop_first()[i]);
        } else {
            assert forall|i: int| 0 <= i < defs.len() implies !definition_has_directive(
                #[trigger] defs[i],
            ) by {
                if i > 0 {
                    assert(defs.drop_first()[i - 1] == defs[i]);
                }
            }
        }
    }
}

/// Each definition's node count is bounded by the document's.
pub proof fn lemma_size_document_element(d: DocumentView, i: int)
    requires
        0 <= i < d.definitions.len(),
    ensures
        size_definition(d.definitions[i]) <= size_document(d),
    decreases d.definitions.len(),
{
    if i > 0 {
        let rest = DocumentView { definitions: d.definitions.drop_first() };
        lemma_size_document_element(rest, i - 1);
    }
}

// ------------------------------------------------------------------
// Detecting directives
// ------------------------------------------------------------------

fn selection_set_directives(set: &SelectionSet) -> (b: bool)
    ensures
        b == selection_set_has_directive(set@),
    decreases size_selection_set(set@), 3int,
{
    let ghost items_v = view_selections(set.items@);
    proof {
        lemma_view_selections_len(set.items@);
        lemma_selections_have_directive_exists(items_v);
    }
    let mut i: usize = 0;
    while i < set.items.len()
        invariant
            0 <= i <= set.items@.len(),
            items_v == view_selections(set.items@),
            items_v.len() == set.items@.len(),
            forall|k: int| 0 <= k < i ==> !selection_has_directive(#[trigger] items_v[k]),
        decreases set.items@.len() - i,
    {
        proof {
            lemma_view_selections_index(set.items@, i as int);
            lemma_size_selections_element(items_v, i as int);
        }
        if selection_directives(&set.items[i]) {
            proof {
                lemma_selections_have_directive_exists(items_v);
            }
            return true;
        }
        i = i + 1;
    }
    proof {
        lemma_selections_have_directive_exists(items_v);
    }
    false
}

fn selection_directives(sel: &Selection) -> (b: bool)
    ensures
        b == selection_has_directive(sel@),
    decreases size_selection(sel@), 2int,
{
    match sel {
        Selection::Field(f) => {
            if f.directives.len() > 0 {
                true
            } else {
                selection_set_directives(&f.selection_set)
            }
        },
        Selection::FragmentSpread(fs) => fs.directives.len() > 0,
        Selection::InlineFragment(g) => {
            if g.directives.len() > 0 {
                true
            } else {
                selection_set_directives(&g.selection_set)
            }
        },
    }
}

fn definition_directives(def: &Definition) -> (b: bool)
    ensures
        b == definition_has_directive(def@),
{
    match def {
        Definition::Operation(op) => {
            if op.directives.len() > 0 {
                true
            } else {
                selection_set_directives(&op.selection_set)
            }
        },
        Definition::Fragment(fr) => {
            if fr.directives.len() > 0 {
                true
            } else {
                selection_set_directives(&fr.selection_set)
            }
        },
        Definition::SelectionSet(set) => selection_set_directives(set),
    }
}

fn document_directives(doc: &Document) -> (b: bool)
    ensures
        b == document_has_directive(doc@),
{
    let ghost defs_v = view_seq::<Definition>(doc.definitions@);
    let mut i: usize = 0;
    while i < doc.definitions.len()
        invariant
            0 <= i <= doc.definitions@.len(),
            defs_v == view_seq::<Definition>(doc.definitions@),
            forall|k: int| 0 <= k < i ==> !definition_has_directive(#[trigger] defs_v[k]),
        decreases doc.definitions@.len() - i,
    {
        if definition_directives(&doc.definitions[i]) {
            proof {
                assert(defs_v[i as int] == doc.definitions@[i as int]@);
                assert(definition_has_directive(defs_v[i as int]));
                lemma_definitions_have_directive_exists(defs_v);
                assert(doc@.definitions == defs_v);
            }
            return true;
        }
        i = i + 1;
    }
    proof {
        lemma_definitions_have_directive_exists(defs_v);
        assert(doc@.definitions == defs_v);
        assert(!definitions_have_directive(defs_v));
    }
    false
}

// ------------------------------------------------------------------
// Rendering
// ------------------------------------------------------------------

fn argument_to_text(a: &Argument) -> (r: String)
    ensures
        r@ == argument_text(a@),
{
    let mut r = a.name.clone();
    r.append(": ");
    r.append(a.value.as_str());
    r
}

fn field_head_string(f: &Field) -> (r: String)
    ensures
        r@ == field_head(f@),
{
    match &f.alias {
        Option::Some(a) => {
            let mut r = a.clone();
            r.append(": ");
            r.append(f.name.as_str());
            r
        },
        Option::None => f.name.clone(),
    }
}

fn format_field(field: Field, indent: &mut Indentation, out: &mut Output, width: usize)
    requires
        at_line_start(old(out)@),
        old(indent).count + size_field(field@) <= usize::MAX,
    ensures
        *final(indent) == *old(indent),
        final(out)@ == old(out)@ + render_field(field@, *old(indent), width as nat),
        at_line_start(final(out)@),
    decreases size_field(field@), 1int,
{
    let ghost f_v = view_field(field);
    let ghost ind0 = *old(indent);
    let ghost w = width as nat;
    let ghost buf0 = old(out)@;
    let ghost head_v = ind0.spaces_spec() + field_head(f_v);
    let ghost args_v = f_v.arguments;
    let ghost sorted_v = sort_arguments(args_v);
    let ghost set_v = f_v.selection_set;
    let head = field_head_string(&field);
    out.push(head.as_str(), indent);
    proof {
        assert(out@ =~= buf0 + head_v);
    }
    let has_args = field.arguments.len() > 0;
    let ghost mid: Seq<char> = if args_v.len() == 0 {
        head_v
    } else {
        let inline_args = arguments_inline(sorted_v);
        let open_len = after_last_newline(head_v + "("@).len();
        if open_len + inline_args.len() > w {
            head_v + "("@ + "\n"@ + wrapped_arg_lines(sorted_v, deeper(ind0))
                + ind0.spaces_spec() + ")"@
        } else {
            head_v + "("@ + inline_args
        }
    };
    if has_args {
        out.push_str("(");
        proof {
            assert(out@ =~= buf0 + (head_v + "("@));
        }
        let open_len = out.current_line_length();
        proof {
            reveal_strlit("(");
            assert((head_v + "("@).last() == '(');
            assert(out@.last() == '(');
            assert(current_line_of(out@) == after_last_newline(out@));
            crate::format::lemma_after_last_newline_concat(buf0, head_v + "("@);
            assert(after_last_newline(out@) == after_last_newline(head_v + "("@));
            assert(open_len == after_last_newline(head_v + "("@).len());
        }
        let mut args = field.arguments;
        sort_vec(&mut args);
        proof {
            assert(view_seq::<Argument>(args@) == sorted_v);
            crate::sort::lemma_sort_by_insertion_len(key_order::<Argument>(), args_v);
            assert(sorted_v.len() == args_v.len());
        }
        let mut texts: Vec<String> = Vec::new();
        let mut i: usize = 0;
        while i < args.len()
            invariant
                0 <= i <= args@.len(),
                view_seq::<Argument>(args@) == sorted_v,
                sorted_v.len() == args@.len(),
                texts@.len() == i,
                texts.deep_view() == argument_texts(sorted_v).take(i as int),
            decreases args@.len() - i,
        {
            let t = argument_to_text(&args[i]);
            texts.push(t);
            proof {
                assert(args@[i as int]@ == sorted_v[i as int]);
                assert(texts.deep_view() =~= argument_texts(sorted_v).take(i + 1));
            }
            i = i + 1;
        }
        proof {
            assert(argument_texts(sorted_v).take(sorted_v.len() as int) =~= argument_texts(
                sorted_v,
            ));
        }
        let mut args_joined = join_strings(&texts, ", ");
        args_joined.append(")");
        proof {
            assert(args_joined@ == arguments_inline(sorted_v));
        }
        let args_len = args_joined.as_str().unicode_len();
        let wrap = if open_len > width {
            true
        } else {
            args_len > width - open_len
        };
        proof {
            assert(wrap == (after_last_newline(head_v + "("@).len() + arguments_inline(
                sorted_v,
            ).len() > w));
        }
        if wrap {
            indent.increment();
            let ghost ind1 = deeper(ind0);
            proof {
                assert(*indent == ind1);
            }
            out.push_str("\n");
            let ghost base = buf0 + (head_v + "("@) + "\n"@;
            proof {
                assert(out@ =~= base);
                assert(wrapped_arg_lines(sorted_v.take(0), ind1) == Seq::<char>::empty());
                assert(out@ =~= base + wrapped_arg_lines(sorted_v.take(0), ind1));
            }
            let mut j: usize = 0;
            while j < texts.len()
                invariant
                    0 <= j <= texts@.len(),
                    texts@.len() == sorted_v.len(),
                    texts.deep_view() == argument_texts(sorted_v),
                    *indent == ind1,
                    ind1 == deeper(ind0),
                    out@ == base + wrapped_arg_lines(sorted_v.take(j as int), ind1),
                decreases texts@.len() - j,
            {
                out.push(texts[j].as_str(), indent);
                out.push_str(",\n");
                proof {
                    assert(texts@[j as int]@ == argument_texts(sorted_v)[j as int]);
                    assert(texts@[j as int]@ == argument_text(sorted_v[j as int]));
                    assert(sorted_v.take(j + 1) =~= sorted_v.take(j as int).push(
                        sorted_v[j as int],
                    ));
                    lemma_wrapped_arg_lines_push(
                        sorted_v.take(j as int),
                        sorted_v[j as int],
                        ind1,
                    );
                    assert(out@ =~= base + wrapped_arg_lines(sorted_v.take(j + 1), ind1));
                }
                j = j + 1;
            }
            proof {
                assert(sorted_v.take(sorted_v.len() as int) =~= sorted_v);
            }
            indent.decrement();
            proof {
                assert(*indent == ind0);
            }
            out.push(")", indent);
            proof {
                assert(out@ =~= buf0 + mid);
            }
        } else {
            out.push_str(args_joined.as_str());
            proof {
                assert(out@ =~= buf0 + mid);
            }
        }
    } else {
        proof {
            assert(out@ =~= buf0 + mid);
        }
    }
    proof {
        lemma_view_selections_len(field.selection_set.items@);
        assert(field.selection_set@ == set_v);
    }
    if field.selection_set.items.len() == 0 {
        out.push_str("\n");
        proof {
            reveal_strlit("\n");
            crate::format::lemma_at_line_start_concat(buf0 + mid, "\n"@);
            assert(out@ =~= buf0 + (mid + "\n"@));
            assert(render_field(f_v, ind0, w) == mid + "\n"@);
        }
    } else {
        format_selection_set(field.selection_set, indent, out, width);
        proof {
            assert(out@ =~= buf0 + (mid + render_selection_set(set_v, ind0, w)));
            assert(render_field(f_v, ind0, w) == mid + render_selection_set(set_v, ind0, w));
        }
    }
}

fn format_selection(sel: Selection, indent: &mut Indentation, out: &mut Output, width: usize)
    requires
        at_line_start(old(out)@),
        old(indent).count + size_selection(sel@) <= usize::MAX,
    ensures
        *final(indent) == *old(indent),
        final(out)@ == old(out)@ + render_selection(sel@, *old(indent), width as nat),
        at_line_start(final(out)@),
    decreases size_selection(sel@), 2int,
{
    let ghost sel_v = view_selection(sel);
    let ghost ind0 = *old(indent);
    let ghost w = width as nat;
    let ghost buf0 = old(out)@;
    match sel {
        Selection::Field(f) => {
            format_field(f, indent, out, width);
        },
        Selection::FragmentSpread(fs) => {
            let mut line = String::from_str("...");
            line.append(fs.fragment_name.as_str());
            line.append("\n");
            out.push(line.as_str(), indent);
            proof {
                reveal_strlit("\n");
                assert(line@.last() == '\n');
                crate::format::lemma_at_line_start_concat(buf0 + ind0.spaces_spec(), line@);
                assert(out@ =~= buf0 + (ind0.spaces_spec() + "..."@ + fs.fragment_name@
                    + "\n"@));
            }
        },
        Selection::InlineFragment(g) => {
            let ghost set_v = view_selection_set(g.selection_set);
            let ghost cond_v: Seq<char> = match view_selection(Selection::InlineFragment(g)) {
                SelectionView::InlineFragment(gv) => match gv.type_condition {
                    Option::Some(tc) => " on "@ + tc,
                    Option::None => Seq::empty(),
                },
                _ => Seq::empty(),
            };
            out.push("...", indent);
            match &g.type_condition {
                Option::Some(tc) => {
                    out.push_str(" on ");
                    out.push_str(tc.as_str());
                },
                Option::None => {},
            }
            let ghost head = ind0.spaces_spec() + "..."@ + cond_v;
            proof {
                assert(out@ =~= buf0 + head);
            }
            proof {
                lemma_view_selections_len(g.selection_set.items@);
            }
            if g.selection_set.items.len() == 0 {
                out.push_str("\n");
                proof {
                    reveal_strlit("\n");
                    crate::format::lemma_at_line_start_concat(buf0 + head, "\n"@);
                    assert(out@ =~= buf0 + (head + "\n"@));
                    assert(render_selection(sel_v, ind0, w) == head + "\n"@);
                }
            } else {
                format_selection_set(g.selection_set, indent, out, width);
                proof {
                    assert(out@ =~= buf0 + (head + render_selection_set(set_v, ind0, w)));
                    assert(render_selection(sel_v, ind0, w) == head + render_selection_set(
                        set_v,
                        ind0,
                        w,
                    ));
                }
            }
        },
    }
}

#[verifier::loop_isolation(false)]
fn format_selection_set(set: SelectionSet, indent: &mut Indentation, out: &mut Output, width: usize)
    requires
        old(indent).count + size_selection_set(set@) <= usize::MAX,
    ensures
        *final(indent) == *old(indent),
        final(out)@ == old(out)@ + render_selection_set(set@, *old(indent), width as nat),
        set@.items.len() > 0 ==> at_line_start(final(out)@),
    decreases size_selection_set(set@), 4int,
{
    let ghost set_v = view_selection_set(set);
    let ghost items0 = set.items@;
    let ghost items_v = view_selections(items0);
    let ghost sorted_v = sort_selections(items_v);
    let ghost ind0 = *old(indent);
    let ghost w = width as nat;
    let ghost buf0 = old(out)@;
    proof {
        lemma_view_selections_len(items0);
    }
    if set.items.len() == 0 {
        proof {
            assert(render_selection_set(set_v, ind0, w) == Seq::<char>::empty());
            assert(buf0 + Seq::<char>::empty() =~= buf0);
        }
        return;
    }
    out.push_str(" {\n");
    indent.increment();
    let ghost ind1 = deeper(ind0);
    proof {
        assert(*indent == ind1);
        reveal_strlit(" {\n");
    }
    let mut items = set.items;
    sort_vec(&mut items);
    proof {
        lemma_view_selections_eq(items0);
        assert(view_seq::<Selection>(items@) == sorted_v);
        lemma_sort_selections_size(items_v);
        crate::sort::lemma_sort_by_insertion_len(key_order::<Selection>(), items_v);
        assert(sorted_v.len() == items_v.len());
        assert(sorted_v.skip(0) =~= sorted_v);
        assert(render_selections(sorted_v.take(0), ind1, w) == Seq::<char>::empty());
    }
    let ghost base = buf0 + " {\n"@;
    let ghost n = sorted_v.len();
    let mut i: usize = 0;
    while items.len() > 0
        invariant
            i as int + items@.len() == n,
            n == sorted_v.len(),
            n == items_v.len(),
            sorted_v == sort_selections(items_v),
            view_seq::<Selection>(items@) == sorted_v.skip(i as int),
            out@ == base + render_selections(sorted_v.take(i as int), ind1, w),
            at_line_start(out@),
            *indent == ind1,
            ind1 == deeper(ind0),
            ind0.count + size_selection_set(set_v) <= usize::MAX,
            size_selection_set(set_v) == 1 + size_selections(items_v),
            size_selections(sorted_v) == size_selections(items_v),
        decreases items@.len(),
    {
        let ghost items_before = items@;
        let sel = items.remove(0);
        proof {
            assert(sel@ == view_seq::<Selection>(items_before)[0]);
            assert(sel@ == sorted_v[i as int]);
            assert forall|k: int| 0 <= k < items@.len() implies view_seq::<Selection>(items@)[k]
                == sorted_v.skip(i + 1)[k] by {
                assert(items@[k] == items_before[k + 1]);
                assert(view_seq::<Selection>(items_before)[k + 1] == sorted_v.skip(i as int)[k
                    + 1]);
            }
            assert(view_seq::<Selection>(items@) =~= sorted_v.skip(i + 1));
            lemma_size_selections_element(sorted_v, i as int);
        }
        format_selection(sel, indent, out, width);
        proof {
            assert(sorted_v.take(i + 1) =~= sorted_v.take(i as int).push(sorted_v[i as int]));
            lemma_render_selections_push(sorted_v.take(i as int), sorted_v[i as int], ind1, w);
            assert(out@ =~= base + render_selections(sorted_v.take(i + 1), ind1, w));
        }
        i = i + 1;
    }
    proof {
        assert(sorted_v.take(n as int) =~= sorted_v);
    }
    indent.decrement();
    proof {
        assert(*indent == ind0);
    }
    out.push("}\n", indent);
    proof {
        reveal_strlit("}\n");
        crate::format::lemma_at_line_start_concat(
            base + render_selections(sorted_v, ind1, w) + ind0.spaces_spec(),
            "}\n"@,
        );
        assert(out@ =~= buf0 + (" {\n"@ + render_selections(sorted_v, ind1, w)
            + ind0.spaces_spec() + "}\n"@));
        assert(render_selection_set(set_v, ind0, w) == " {\n"@ + render_selections(
            sort_selections(set_v.items),
            deeper(ind0),
            w,
        ) + ind0.spaces_spec() + "}\n"@);
        assert(set_v.items == items_v);
    }
}

fn variable_to_text(v: &VariableDefinition) -> (r: String)
    ensures
        r@ == variable_text(v@),
{
    let mut r = String::from_str("$");
    r.append(v.name.as_str());
    r.append(": ");
    r.append(v.var_type.as_str());
    match &v.default_value {
        Option::Some(d) => {
            r.append(" = ");
            r.append(d.as_str());
        },
        Option::None => {},
    }
    r
}

fn format_operation(op: Operation, indent: &mut Indentation, out: &mut Output, width: usize)
    requires
        old(indent).count + size_selection_set(op@.selection_set) <= usize::MAX,
    ensures
        *final(indent) == *old(indent),
        final(out)@ == old(out)@ + render_operation(op@, *old(indent), width as nat),
{
    let ghost op_v = op@;
    let ghost ind0 = *old(indent);
    let ghost w = width as nat;
    let ghost buf0 = old(out)@;
    let keyword: &str = match op.kind {
        OperationKind::Query => "query",
        OperationKind::Mutation => "mutation",
        OperationKind::Subscription => "subscription",
    };
    let mut head = String::from_str(keyword);
    match &op.name {
        Option::Some(n) => {
            head.append(" ");
            head.append(n.as_str());
        },
        Option::None => {},
    }
    let ghost named = keyword_text(op_v.kind) + (match op_v.name {
        Option::Some(n) => " "@ + n,
        Option::None => Seq::<char>::empty(),
    });
    proof {
        assert(head@ =~= named);
    }
    if op.variable_definitions.len() > 0 {
        if op.name.is_some() {
            head.append("(");
        } else {
            head.append(" (");
        }
        let mut texts: Vec<String> = Vec::new();
        let ghost vars_v = op_v.variable_definitions;
        let mut i: usize = 0;
        while i < op.variable_definitions.len()
            invariant
                0 <= i <= op.variable_definitions@.len(),
                vars_v == view_seq::<VariableDefinition>(op.variable_definitions@),
                vars_v.len() == op.variable_definitions@.len(),
                texts@.len() == i,
                texts.deep_view() == variable_texts(vars_v).take(i as int),
            decreases op.variable_definitions@.len() - i,
        {
            let t = variable_to_text(&op.variable_definitions[i]);
            texts.push(t);
            proof {
                assert(op.variable_definitions@[i as int]@ == vars_v[i as int]);
                assert(texts.deep_view() =~= variable_texts(vars_v).take(i + 1));
            }
            i = i + 1;
        }
        proof {
            assert(variable_texts(vars_v).take(vars_v.len() as int) =~= variable_texts(vars_v));
        }
        let joined = join_strings(&texts, ", ");
        head.append(joined.as_str());
        head.append(")");
        proof {
            let open: Seq<char> = if op_v.name is Some {
                "("@
            } else {
                " ("@
            };
            assert(head@ =~= named + open + join_texts(variable_texts(vars_v), ", "@) + ")"@);
            assert(head@ == render_operation_head(op_v));
        }
    } else {
        proof {
            assert(head@ == render_operation_head(op_v));
        }
    }
    out.push(head.as_str(), indent);
    format_selection_set(op.selection_set, indent, out, width);
    proof {
        assert(op.selection_set@ == op_v.selection_set);
        assert(final(out)@ =~= buf0 + (ind0.spaces_spec() + render_operation_head(op_v)
            + render_selection_set(op_v.selection_set, ind0, w)));
    }
}

fn format_fragment(fr: FragmentDefinition, indent: &mut Indentation, out: &mut Output, width: usize)
    requires
        old(indent).count + size_selection_set(fr@.selection_set) <= usize::MAX,
    ensures
        *final(indent) == *old(indent),
        final(out)@ == old(out)@ + render_fragment(fr@, *old(indent), width as nat),
{
    let ghost fr_v = fr@;
    let ghost ind0 = *old(indent);
    let ghost w = width as nat;
    let ghost buf0 = old(out)@;
    let mut head = String::from_str("fragment ");
    head.append(fr.name.as_str());
    head.append(" on ");
    head.append(fr.type_condition.as_str());
    out.push(head.as_str(), indent);
    format_selection_set(fr.selection_set, indent, out, width);
    proof {
        assert(fr.selection_set@ == fr_v.selection_set);
        assert(final(out)@ =~= buf0 + (ind0.spaces_spec() + "fragment "@ + fr_v.name + " on "@
            + fr_v.type_condition + render_selection_set(fr_v.selection_set, ind0, w)));
    }
}

fn format_definition(def: Definition, indent: &mut Indentation, out: &mut Output, width: usize)
    requires
        old(indent).count + size_definition(def@) <= usize::MAX,
    ensures
        *final(indent) == *old(indent),
        final(out)@ == old(out)@ + render_definition(def@, *old(indent), width as nat),
        at_line_start(final(out)@),
    decreases size_definition(def@), 5int,
{
    let ghost def_v = def@;
    let ghost ind0 = *old(indent);
    let ghost w = width as nat;
    let ghost buf0 = old(out)@;
    let ghost core: Seq<char> = match def_v {
        DefinitionView::Operation(op) => render_operation(op, ind0, w),
        DefinitionView::Fragment(fr) => render_fragment(fr, ind0, w),
        DefinitionView::SelectionSet(set) => render_selection_set(set, ind0, w),
    };
    match def {
        Definition::Operation(op) => {
            format_operation(op, indent, out, width);
        },
        Definition::Fragment(fr) => {
            format_fragment(fr, indent, out, width);
        },
        Definition::SelectionSet(set) => {
            format_selection_set(set, indent, out, width);
        },
    }
    proof {
        assert(out@ == buf0 + core);
    }
    out.push_str("\n");
    proof {
        reveal_strlit("\n");
        crate::format::lemma_at_line_start_concat(buf0 + core, "\n"@);
        assert(out@ =~= buf0 + (core + "\n"@));
        assert(render_definition(def_v, ind0, w) == core + "\n"@);
    }
}

/// Formats an operation document at the given indentation width and column
/// limit.
///
/// The document is consumed: the tree is walked once, top to bottom, and
/// only the rendered text survives.  A document that carries a directive
/// anywhere is rejected whole.  The precondition asks only that the node
/// count fit in `usize`, which any tree held in memory satisfies.
#[verifier::loop_isolation(false)]
pub fn format_with(doc: Document, indent_size: usize, max_line_length: usize) -> (r: Result<
    String,
    FormatError,
>)
    requires
        size_document(doc@) <= usize::MAX,
    ensures
        match r {
            Result::Ok(s) => !document_has_directive(doc@) && s@ == trim_of(
                render_document(doc@, initial_indentation(indent_size), max_line_length as nat),
            ),
            Result::Err(e) => document_has_directive(doc@) && e == FormatError::Directive,
        },
{
    let ghost doc_v = doc@;
    let ghost ind0 = initial_indentation(indent_size);
    let ghost w = max_line_length as nat;
    if document_directives(&doc) {
        return Result::Err(FormatError::Directive);
    }
    let mut indent = Indentation::new(indent_size);
    let mut out = Output::new();
    let ghost defs_v = doc_v.definitions;
    let mut defs = doc.definitions;
    proof {
        assert(view_seq::<Definition>(defs@) == defs_v);
        assert(render_definitions(defs_v.take(0), ind0, w) == Seq::<char>::empty());
        assert(out@ =~= render_definitions(defs_v.take(0), ind0, w));
        assert(defs_v.skip(0) =~= defs_v);
    }
    let total = defs.len();
    let ghost n = defs_v.len();
    proof {
        assert(n == total);
    }
    let mut i: usize = 0;
    while defs.len() > 0
        invariant
            i as int + defs@.len() == n,
            n == defs_v.len(),
            n <= usize::MAX,
            defs_v == doc_v.definitions,
            view_seq::<Definition>(defs@) == defs_v.skip(i as int),
            out@ == render_definitions(defs_v.take(i as int), ind0, w),
            indent == ind0,
            size_document(doc_v) <= usize::MAX,
        decreases defs@.len(),
    {
        let ghost defs_before = defs@;
        let def = defs.remove(0);
        proof {
            assert(def@ == view_seq::<Definition>(defs_before)[0]);
            assert(def@ == defs_v[i as int]);
            assert forall|k: int| 0 <= k < defs@.len() implies view_seq::<Definition>(defs@)[k]
                == defs_v.skip(i + 1)[k] by {
                assert(defs@[k] == defs_before[k + 1]);
                assert(view_seq::<Definition>(defs_before)[k + 1] == defs_v.skip(i as int)[k + 1]);
            }
            assert(view_seq::<Definition>(defs@) =~= defs_v.skip(i + 1));
            lemma_size_document_element(doc_v, i as int);
        }
        format_definition(def, &mut indent, &mut out, max_line_length);
        proof {
            assert(defs_v.take(i + 1) =~= defs_v.take(i as int).push(defs_v[i as int]));
            lemma_render_definitions_push(defs_v.take(i as int), defs_v[i as int], ind0, w);
            assert(out@ =~= render_definitions(defs_v.take(i + 1), ind0, w));
        }
        i = i + 1;
    }
    proof {
        assert(defs_v.take(n as int) =~= defs_v);
        assert(out@ == render_document(doc_v, ind0, w));
    }
    Result::Ok(out.trim())
}

/// Formats an operation document with two-space indentation and the
/// 80-column wrap limit.
pub fn format(doc: Document) -> (r: Result<String, FormatError>)
    requires
        size_document(doc@) <= usize::MAX,
    ensures
        match r {
            Result::Ok(s) => !document_has_directive(doc@) && s@ == trim_of(
                render_document(
                    doc@,
                    initial_indentation(INDENT_SIZE),
                    MAX_LINE_LENGTH as nat,
                ),
            ),
            Result::Err(e) => document_has_directive(doc@) && e == FormatError::Directive,
        },
{
    format_with(doc, INDENT_SIZE, MAX_LINE_LENGTH)
}

} // verus!
