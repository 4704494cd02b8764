//! Canonical rendering of type-system documents.
//!
//! Definitions keep their source order.  Within a definition, fields,
//! input values, enum values and union member types are sorted by name; an
//! object's `implements` clause is deliberately left in declared order.
//! The root-type lines of a `schema` block always come out in the order
//! mutation, query, subscription.  Field argument lists share the
//! line-wrap rule of the operation-document formatter.

use vstd::prelude::*;
use vstd::string::StringExecFns;

use crate::ast::schema::{
    Definition, DefinitionView, Document, DocumentView, EnumType, Field, FieldView,
    InputObjectType, InputValue, InputValueView, InterfaceType, ObjectType, ScalarType,
    SchemaBlock, TypeExtension, UnionType, opt_text_view,
};
use crate::error::FormatError;
use crate::format::{
    after_last_newline, at_line_start, current_line_of, deeper, initial_indentation,
    join_strings, join_texts, lemma_after_last_newline_concat, lemma_at_line_start_concat,
    trim_of, Indentation, Output, INDENT_SIZE, MAX_LINE_LENGTH,
};
use crate::sort::{key_order, sort_by_insertion, sort_vec, view_seq, Sortable};
use crate::strings::{seq_le, str_le};

verus! {

// ------------------------------------------------------------------
// The sort orders
// ------------------------------------------------------------------

impl Sortable for String {
    open spec fn key_leq(a: Seq<char>, b: Seq<char>) -> bool {
        seq_le(a, b)
    }

    fn leq(&self, other: &String) -> (r: bool) {
        str_le(self.as_str(), other.as_str())
    }
}

impl Sortable for Field {
    open spec fn key_leq(a: FieldView, b: FieldView) -> bool {
        seq_le(a.name, b.name)
    }

    fn leq(&self, other: &Field) -> (r: bool) {
        str_le(self.name.as_str(), other.name.as_str())
    }
}

impl Sortable for InputValue {
    open spec fn key_leq(a: InputValueView, b: InputValueView) -> bool {
        seq_le(a.name, b.name)
    }

    fn leq(&self, other: &InputValue) -> (r: bool) {
        str_le(self.name.as_str(), other.name.as_str())
    }
}

/// Names in their canonical order (enum values, union member types).
pub open spec fn sort_names(names: Seq<Seq<char>>) -> Seq<Seq<char>> {
    sort_by_insertion(key_order::<String>(), names)
}

/// Fields sorted by name; entries with equal names keep source order.
pub open spec fn sort_fields(fields: Seq<FieldView>) -> Seq<FieldView> {
    sort_by_insertion(key_order::<Field>(), fields)
}

/// Input values sorted by name.
pub open spec fn sort_input_values(values: Seq<InputValueView>) -> Seq<InputValueView> {
    sort_by_insertion(key_order::<InputValue>(), values)
}

// ------------------------------------------------------------------
// The rendering specification
// ------------------------------------------------------------------

/// The single quoted description line above an entity, or nothing.
pub open spec fn desc_line(desc: Option<Seq<char>>, ind: Indentation) -> Seq<char> {
    match desc {
        Option::Some(d) => ind.spaces_spec() + "\""@ + d + "\"\n"@,
        Option::None => Seq::empty(),
    }
}

/// One `name: Type` input-value entry, without its description.
pub open spec fn input_value_text(v: InputValueView) -> Seq<char> {
    v.name + ": "@ + v.value_type
}

/// The rendered texts of an input-value list.
pub open spec fn input_value_texts(vs: Seq<InputValueView>) -> Seq<Seq<char>> {
    vs.map_values(|v: InputValueView| input_value_text(v))
}

/// An argument list rendered inline, with the closing parenthesis.
pub open spec fn input_values_inline(vs: Seq<InputValueView>) -> Seq<char> {
    join_texts(input_value_texts(vs), ", "@) + ")"@
}

/// An argument list wrapped onto one line per entry.
pub open spec fn wrapped_value_lines(vs: Seq<InputValueView>, ind: Indentation) -> Seq<char>
    decreases vs.len(),
{
    if vs.len() == 0 {
        Seq::empty()
    } else {
        ind.spaces_spec() + input_value_text(vs[0]) + ",\n"@ + wrapped_value_lines(
            vs.drop_first(),
            ind,
        )
    }
}

/// Renders one object or interface field: description, name, sorted and
/// possibly wrapped argument list, and the field's type.
pub open spec fn render_schema_field(f: FieldView, ind: Indentation, w: nat) -> Seq<char> {
    let head = ind.spaces_spec() + f.name;
    let args_part: Seq<char> = if f.arguments.len() == 0 {
        Seq::empty()
    } else {
        let sorted = sort_input_values(f.arguments);
        let inline = input_values_inline(sorted);
        let open_len = after_last_newline(head + "("@).len();
        if open_len + inline.len() > w {
            "("@ + "\n"@ + wrapped_value_lines(sorted, deeper(ind)) + ind.spaces_spec() + ")"@
        } else {
            "("@ + inline
        }
    };
    desc_line(f.description, ind) + head + args_part + ": "@ + f.field_type + "\n"@
}

/// Renders fields in the order given.
pub open spec fn render_fields(fs: Seq<FieldView>, ind: Indentation, w: nat) -> Seq<char>
    decreases fs.len(),
{
    if fs.len() == 0 {
        Seq::empty()
    } else {
        render_schema_field(fs[0], ind, w) + render_fields(fs.drop_first(), ind, w)
    }
}

/// The sorted field block of an object or interface, one level deeper.
pub open spec fn field_block(fs: Seq<FieldView>, ind: Indentation, w: nat) -> Seq<char> {
    render_fields(sort_fields(fs), deeper(ind), w)
}

/// One `keyword: TypeName` line of a schema block, or nothing.
pub open spec fn root_line(kw: Seq<char>, name: Option<Seq<char>>, ind: Indentation) -> Seq<
    char,
> {
    match name {
        Option::Some(n) => ind.spaces_spec() + kw + n + "\n"@,
        Option::None => Seq::empty(),
    }
}

/// ` implements A & B` in declared order, or nothing.
pub open spec fn implements_part(names: Seq<Seq<char>>) -> Seq<char> {
    if names.len() == 0 {
        Seq::empty()
    } else {
        " implements "@ + join_texts(names, " & "@)
    }
}

/// One line per enum value, in the order given.
pub open spec fn enum_value_lines(vals: Seq<Seq<char>>, ind: Indentation) -> Seq<char>
    decreases vals.len(),
{
    if vals.len() == 0 {
        Seq::empty()
    } else {
        ind.spaces_spec() + vals[0] + "\n"@ + enum_value_lines(vals.drop_first(), ind)
    }
}

/// One input-value entry with its description, unterminated.
pub open spec fn input_entry(v: InputValueView, ind: Indentation) -> Seq<char> {
    desc_line(v.description, ind) + ind.spaces_spec() + input_value_text(v)
}

/// Some entry of the block carries a description.
pub open spec fn has_described_entry(vs: Seq<InputValueView>) -> bool {
    exists|i: int| 0 <= i < vs.len() && vs[i].description is Some
}

/// Entries separated by plain newlines: the form of a block in which no
/// entry is described.
pub open spec fn plain_entries(vs: Seq<InputValueView>, ind: Indentation) -> Seq<char>
    decreases vs.len(),
{
    if vs.len() == 0 {
        Seq::empty()
    } else {
        input_entry(vs[0], ind) + "\n"@ + plain_entries(vs.drop_first(), ind)
    }
}

/// Entries separated by blank lines: the form of a block in which some
/// entry is described.  The last entry is followed by a plain newline.
pub open spec fn spaced_entries(vs: Seq<InputValueView>, ind: Indentation) -> Seq<char>
    decreases vs.len(),
{
    if vs.len() == 0 {
        Seq::empty()
    } else if vs.len() == 1 {
        input_entry(vs[0], ind) + "\n"@
    } else {
        input_entry(vs[0], ind) + "\n\n"@ + spaced_entries(vs.drop_first(), ind)
    }
}

/// The body of an `input` type, over the already sorted entries.  If any
/// entry carries a description, every entry gets a blank-line separator,
/// so that descriptions stay attached to their entries; otherwise the
/// entries sit on consecutive lines.
pub open spec fn input_value_block(vs: Seq<InputValueView>, ind: Indentation) -> Seq<char> {
    if has_described_entry(vs) {
        spaced_entries(vs, ind)
    } else {
        plain_entries(vs, ind)
    }
}

/// Renders one type-system definition, ending with its blank-line
/// separator.  The unsupported constructs render nothing; formatting
/// rejects a document that holds one before rendering anything.
pub open spec fn render_schema_definition(def: DefinitionView, ind: Indentation, w: nat) -> Seq<
    char,
> {
    match def {
        DefinitionView::Schema(s) => ind.spaces_spec() + "schema {\n"@ + root_line(
            "mutation: "@,
            s.mutation,
            deeper(ind),
        ) + root_line("query: "@, s.query, deeper(ind)) + root_line(
            "subscription: "@,
            s.subscription,
            deeper(ind),
        ) + ind.spaces_spec() + "}\n\n"@,
        DefinitionView::Object(o) => desc_line(o.description, ind) + ind.spaces_spec() + "type "@
            + o.name + implements_part(o.implements_interfaces) + " {\n"@ + field_block(
            o.fields,
            ind,
            w,
        ) + ind.spaces_spec() + "}\n\n"@,
        DefinitionView::Interface(it) => desc_line(it.description, ind) + ind.spaces_spec()
            + "interface "@ + it.name + " {\n"@ + field_block(it.fields, ind, w)
            + ind.spaces_spec() + "}\n\n"@,
        DefinitionView::Enum(e) => desc_line(e.description, ind) + ind.spaces_spec() + "enum "@
            + e.name + " {\n"@ + enum_value_lines(sort_names(e.values), deeper(ind))
            + ind.spaces_spec() + "}\n\n"@,
        DefinitionView::Scalar(s) => desc_line(s.description, ind) + ind.spaces_spec()
            + "scalar "@ + s.name + "\n\n"@,
        DefinitionView::Union(u) => desc_line(u.description, ind) + ind.spaces_spec() + "union "@
            + u.name + " = "@ + join_texts(sort_names(u.types), " | "@) + "\n\n"@,
        DefinitionView::InputObject(io) => desc_line(io.description, ind) + ind.spaces_spec()
            + "input "@ + io.name + " {\n"@ + input_value_block(
            sort_input_values(io.fields),
            deeper(ind),
        ) + ind.spaces_spec() + "}\n\n"@,
        DefinitionView::TypeExtension(_) => Seq::empty(),
        DefinitionView::DirectiveDefinition(_) => Seq::empty(),
    }
}

/// Renders the definitions in source order.
pub open spec fn render_schema_definitions(
    defs: Seq<DefinitionView>,
    ind: Indentation,
    w: nat,
) -> Seq<char>
    decreases defs.len(),
{
    if defs.len() == 0 {
        Seq::empty()
    } else {
        render_schema_definition(defs[0], ind, w) + render_schema_definitions(
            defs.drop_first(),
            ind,
            w,
        )
    }
}

/// The full untrimmed rendering of a type-system document.
pub open spec fn render_schema_document(d: DocumentView, ind: Indentation, w: nat) -> Seq<char> {
    render_schema_definitions(d.definitions, ind, w)
}

// ------------------------------------------------------------------
// Unsupported-construct detection
// ------------------------------------------------------------------

/// Some entry of the list carries a directive.
pub open spec fn values_have_directive(vs: Seq<InputValueView>) -> bool {
    exists|i: int| 0 <= i < vs.len() && vs[i].directives.len() > 0
}

/// The field or one of its arguments carries a directive.
pub open spec fn field_has_directive(f: FieldView) -> bool {
    f.directives.len() > 0 || values_have_directive(f.arguments)
}

/// Some field of the list carries a directive.
pub open spec fn fields_have_directive(fs: Seq<FieldView>) -> bool {
    exists|i: int| 0 <= i < fs.len() && field_has_directive(#[trigger] fs[i])
}

/// The construct, if any, that makes this definition unsupported.
pub open spec fn definition_error(def: DefinitionView) -> Option<FormatError> {
    match def {
        DefinitionView::Schema(s) => if s.directives.len() > 0 {
            Option::Some(FormatError::Directive)
        } else {
            Option::None
        },
        DefinitionView::Object(o) => if o.directives.len() > 0 || fields_have_directive(
            o.fields,
        ) {
            Option::Some(FormatError::Directive)
        } else {
            Option::None
        },
        DefinitionView::Interface(it) => if it.directives.len() > 0 || fields_have_directive(
            it.fields,
        ) {
            Option::Some(FormatError::Directive)
        } else {
            Option::None
        },
        DefinitionView::Enum(e) => if e.directives.len() > 0 {
            Option::Some(FormatError::Directive)
        } else {
            Option::None
        },
        DefinitionView::Scalar(s) => if s.directives.len() > 0 {
            Option::Some(FormatError::Directive)
        } else {
            Option::None
        },
        DefinitionView::Union(u) => if u.directives.len() > 0 {
            Option::Some(FormatError::Directive)
        } else {
            Option::None
        },
        DefinitionView::InputObject(io) => if io.directives.len() > 0 || values_have_directive(
            io.fields,
        ) {
            Option::Some(FormatError::Directive)
        } else {
            Option::None
        },
        DefinitionView::TypeExtension(_) => Option::Some(FormatError::TypeExtension),
        DefinitionView::DirectiveDefinition(_) => Option::Some(FormatError::DirectiveDefinition),
    }
}

/// The first unsupported construct of the definition list, in source
/// order.
pub open spec fn definitions_error(defs: Seq<DefinitionView>) -> Option<FormatError>
    decreases defs.len(),
{
    if defs.len() == 0 {
        Option::None
    } else if definition_error(defs[0]) is Some {
        definition_error(defs[0])
    } else {
        definitions_error(defs.drop_first())
    }
}

/// The first unsupported construct of the document, if any.
pub open spec fn document_error(d: DocumentView) -> Option<FormatError> {
    definitions_error(d.definitions)
}

/// A document without unsupported constructs has none in any definition.
pub proof fn lemma_definitions_error_none(defs: Seq<DefinitionView>, i: int)
    requires
        definitions_error(defs) is None,
        0 <= i < defs.len(),
    ensures
        definition_error(defs[i]) is None,
    decreases defs.len(),
{
    if i > 0 {
        lemma_definitions_error_none(defs.drop_first(), i - 1);
    }
}

// ------------------------------------------------------------------
// Detecting unsupported constructs
// ------------------------------------------------------------------

fn input_values_directives(vs: &Vec<InputValue>) -> (b: bool)
    ensures
        b == values_have_directive(view_seq(vs@)),
{
    let ghost vs_v = view_seq::<InputValue>(vs@);
    let mut i: usize = 0;
    while i < vs.len()
        invariant
            0 <= i <= vs@.len(),
            vs_v == view_seq::<InputValue>(vs@),
            forall|k: int| 0 <= k < i ==> #[trigger] vs_v[k].directives.len() == 0,
        decreases vs@.len() - i,
    {
        if vs[i].directives.len() > 0 {
            proof {
                assert(vs_v[i as int].directives.len() > 0);
            }
            return true;
        }
        i = i + 1;
    }
    false
}

fn field_directives(f: &Field) -> (b: bool)
    ensures
        b == field_has_directive(f@),
{
    if f.directives.len() > 0 {
        true
    } else {
        input_values_directives(&f.arguments)
    }
}

fn fields_directives(fs: &Vec<Field>) -> (b: bool)
    ensures
        b == fields_have_directive(view_seq(fs@)),
{
    let ghost fs_v = view_seq::<Field>(fs@);
    let mut i: usize = 0;
    while i < fs.len()
        invariant
            0 <= i <= fs@.len(),
            fs_v == view_seq::<Field>(fs@),
            forall|k: int| 0 <= k < i ==> !field_has_directive(#[trigger] fs_v[k]),
        decreases fs@.len() - i,
    {
        if field_directives(&fs[i]) {
            proof {
                assert(field_has_directive(fs_v[i as int]));
            }
            return true;
        }
        i = i + 1;
    }
    false
}

fn check_definition(def: &Definition) -> (r: Option<FormatError>)
    ensures
        r == definition_error(def@),
{
    match def {
        Definition::Schema(s) => {
            if s.directives.len() > 0 {
                Option::Some(FormatError::Directive)
            } else {
                Option::None
            }
        },
        Definition::Object(o) => {
            if o.directives.len() > 0 || fields_directives(&o.fields) {
                Option::Some(FormatError::Directive)
            } else {
                Option::None
            }
        },
        Definition::Interface(it) => {
            if it.directives.len() > 0 || fields_directives(&it.fields) {
                Option::Some(FormatError::Directive)
            } else {
                Option::None
            }
        },
        Definition::Enum(e) => {
            if e.directives.len() > 0 {
                Option::Some(FormatError::Directive)
            } else {
                Option::None
            }
        },
        Definition::Scalar(s) => {
            if s.directives.len() > 0 {
                Option::Some(FormatError::Directive)
            } else {
                Option::None
            }
        },
        Definition::Union(u) => {
            if u.directives.len() > 0 {
                Option::Some(FormatError::Directive)
            } else {
                Option::None
            }
        },
        Definition::InputObject(io) => {
            if io.directives.len() > 0 || input_values_directives(&io.fields) {
                Option::Some(FormatError::Directive)
            } else {
                Option::None
            }
        },
        Definition::TypeExtension(_) => Option::Some(FormatError::TypeExtension),
        Definition::DirectiveDefinition(_) => Option::Some(FormatError::DirectiveDefinition),
    }
}

fn check_document(doc: &Document) -> (r: Option<FormatError>)
    ensures
        r == document_error(doc@),
{
    let ghost defs_v = view_seq::<Definition>(doc.definitions@);
    proof {
        assert(defs_v.skip(0) =~= defs_v);
    }
    let mut i: usize = 0;
    while i < doc.definitions.len()
        invariant
            0 <= i <= doc.definitions@.len(),
            defs_v == view_seq::<Definition>(doc.definitions@),
            definitions_error(defs_v) == definitions_error(defs_v.skip(i as int)),
        decreases doc.definitions@.len() - i,
    {
        let r = check_definition(&doc.definitions[i]);
        proof {
            assert(defs_v.skip(i as int)[0] == defs_v[i as int]);
            assert(defs_v.skip(i as int).drop_first() =~= defs_v.skip(i + 1));
            assert(defs_v[i as int] == doc.definitions@[i as int]@);
        }
        if r.is_some() {
            proof {
                assert(definitions_error(defs_v.skip(i as int)) == definition_error(
                    defs_v[i as int],
                ));
            }
            return r;
        }
        i = i + 1;
    }
    proof {
        assert(defs_v.skip(defs_v.len() as int) =~= Seq::<DefinitionView>::empty());
    }
    Option::None
}

// ------------------------------------------------------------------
// Rendering
// ------------------------------------------------------------------

/// Writes the quoted description line, if a description is present.
fn push_desc(desc: &Option<String>, indent: &Indentation, out: &mut Output)
    ensures
        final(out)@ == old(out)@ + desc_line(opt_text_view(*desc), *indent),
        at_line_start(old(out)@) ==> at_line_start(final(out)@),
{
    match desc {
        Option::Some(d) => {
            let mut line = String::from_str("\"");
            line.append(d.as_str());
            line.append("\"\n");
            out.push(line.as_str(), indent);
            proof {
                reveal_strlit("\"\n");
                assert(line@.last() == '\n');
                lemma_at_line_start_concat(old(out)@ + indent.spaces_spec(), line@);
                assert(out@ =~= old(out)@ + (indent.spaces_spec() + "\""@ + d@ + "\"\n"@));
            }
        },
        Option::None => {
            proof {
                assert(old(out)@ + Seq::<char>::empty() =~= old(out)@);
            }
        },
    }
}

fn input_value_to_text(v: &InputValue) -> (r: String)
    ensures
        r@ == input_value_text(v@),
{
    let mut r = v.name.clone();
    r.append(": ");
    r.append(v.value_type.as_str());
    r
}

fn format_schema_field(field: Field, indent: &mut Indentation, out: &mut Output, width: usize)
    requires
        at_line_start(old(out)@),
        old(indent).count < usize::MAX,
    ensures
        *final(indent) == *old(indent),
        final(out)@ == old(out)@ + render_schema_field(field@, *old(indent), width as nat),
        at_line_start(final(out)@),
{
    let ghost f_v = field@;
    let ghost ind0 = *old(indent);
    let ghost w = width as nat;
    let ghost buf0 = old(out)@;
    let ghost head_v = ind0.spaces_spec() + f_v.name;
    let ghost sorted_v = sort_input_values(f_v.arguments);
    push_desc(&field.description, indent, out);
    let ghost base1 = buf0 + desc_line(f_v.description, ind0);
    out.push(field.name.as_str(), indent);
    proof {
        assert(out@ =~= base1 + head_v);
    }
    let ghost args_part: Seq<char> = if f_v.arguments.len() == 0 {
        Seq::empty()
    } else {
        let inline = input_values_inline(sorted_v);
        let open_len = after_last_newline(head_v + "("@).len();
        if open_len + inline.len() > w {
            "("@ + "\n"@ + wrapped_value_lines(sorted_v, deeper(ind0)) + ind0.spaces_spec()
                + ")"@
        } else {
            "("@ + inline
        }
    };
    if field.arguments.len() > 0 {
        out.push_str("(");
        proof {
            assert(out@ =~= base1 + (head_v + "("@));
        }
        let open_len = out.current_line_length();
        proof {
            reveal_strlit("(");
            assert((head_v + "("@).last() == '(');
            assert(out@.last() == '(');
            assert(current_line_of(out@) == after_last_newline(out@));
            lemma_after_last_newline_concat(base1, head_v + "("@);
            assert(open_len == after_last_newline(head_v + "("@).len());
        }
        let mut args = field.arguments;
        sort_vec(&mut args);
        proof {
            assert(view_seq::<InputValue>(args@) == sorted_v);
            crate::sort::lemma_sort_by_insertion_len(key_order::<InputValue>(), f_v.arguments);
            assert(sorted_v.len() == f_v.arguments.len());
        }
        let mut texts: Vec<String> = Vec::new();
        let mut i: usize = 0;
        while i < args.len()
            invariant
                0 <= i <= args@.len(),
                view_seq::<InputValue>(args@) == sorted_v,
                sorted_v.len() == args@.len(),
                texts@.len() == i,
                texts.deep_view() == input_value_texts(sorted_v).take(i as int),
            decreases args@.len() - i,
        {
            let t = input_value_to_text(&args[i]);
            texts.push(t);
            proof {
                assert(args@[i as int]@ == sorted_v[i as int]);
                assert(texts.deep_view() =~= input_value_texts(sorted_v).take(i + 1));
            }
            i = i + 1;
        }
        proof {
            assert(input_value_texts(sorted_v).take(sorted_v.len() as int) =~= input_value_texts(
                sorted_v,
            ));
        }
        let mut args_joined = join_strings(&texts, ", ");
        args_joined.append(")");
        proof {
            assert(args_joined@ == input_values_inline(sorted_v));
        }
        let args_len = args_joined.as_str().unicode_len();
        let wrap = if open_len > width {
            true
        } else {
            args_len > width - open_len
        };
        proof {
            assert(wrap == (after_last_newline(head_v + "("@).len() + input_values_inline(
                sorted_v,
            ).len() > w));
        }
        if wrap {
            indent.increment();
            let ghost ind1 = deeper(ind0);
            proof {
                assert(*indent == ind1);
            }
            out.push_str("\n");
            let ghost base = base1 + (head_v + "("@) + "\n"@;
            proof {
                assert(out@ =~= base);
                assert(wrapped_value_lines(sorted_v.take(0), ind1) == Seq::<char>::empty());
                assert(out@ =~= base + wrapped_value_lines(sorted_v.take(0), ind1));
            }
            let mut j: usize = 0;
            while j < texts.len()
                invariant
                    0 <= j <= texts@.len(),
                    texts@.len() == sorted_v.len(),
                    texts.deep_view() == input_value_texts(sorted_v),
                    *indent == ind1,
                    ind1 == deeper(ind0),
                    out@ == base + wrapped_value_lines(sorted_v.take(j as int), ind1),
                decreases texts@.len() - j,
            {
                out.push(texts[j].as_str(), indent);
                out.push_str(",\n");
                proof {
                    assert(texts@[j as int]@ == input_value_texts(sorted_v)[j as int]);
                    assert(texts@[j as int]@ == input_value_text(sorted_v[j as int]));
                    assert(sorted_v.take(j + 1) =~= sorted_v.take(j as int).push(
                        sorted_v[j as int],
                    ));
                    lemma_wrapped_value_lines_push(
                        sorted_v.take(j as int),
                        sorted_v[j as int],
                        ind1,
                    );
                    assert(out@ =~= base + wrapped_value_lines(sorted_v.take(j + 1), ind1));
                }
                j = j + 1;
            }
            proof {
                assert(sorted_v.take(sorted_v.len() as int) =~= sorted_v);
            }
            indent.decrement();
            proof {
                assert(*indent == ind0);
            }
            out.push(")", indent);
            proof {
                assert(out@ =~= base1 + (head_v + args_part));
            }
        } else {
            out.push_str(args_joined.as_str());
            proof {
                assert(out@ =~= base1 + (head_v + args_part));
            }
        }
    } else {
        proof {
            assert(head_v + args_part =~= head_v);
            assert(out@ =~= base1 + (head_v + args_part));
        }
    }
    let mut tail = String::from_str(": ");
    tail.append(field.field_type.as_str());
    tail.append("\n");
    out.push_str(tail.as_str());
    proof {
        reveal_strlit("\n");
        assert(tail@ =~= ": "@ + f_v.field_type + "\n"@);
        assert(tail@.last() == '\n');
        lemma_at_line_start_concat(base1 + (head_v + args_part), tail@);
        assert(out@ =~= buf0 + (desc_line(f_v.description, ind0) + head_v + args_part + ": "@
            + f_v.field_type + "\n"@));
        assert(render_schema_field(f_v, ind0, w) == desc_line(f_v.description, ind0) + head_v
            + args_part + ": "@ + f_v.field_type + "\n"@);
    }
}

fn format_field_block(fields: Vec<Field>, indent: &mut Indentation, out: &mut Output, width: usize)
    requires
        at_line_start(old(out)@),
        old(indent).count + 2 <= usize::MAX,
    ensures
        *final(indent) == *old(indent),
        final(out)@ == old(out)@ + field_block(view_seq(fields@), *old(indent), width as nat),
        at_line_start(final(out)@),
{
    let ghost fields_v = view_seq::<Field>(fields@);
    let ghost sorted_v = sort_fields(fields_v);
    let ghost ind0 = *old(indent);
    let ghost ind1 = deeper(ind0);
    let ghost w = width as nat;
    let ghost buf0 = old(out)@;
    indent.increment();
    proof {
        assert(*indent == ind1);
    }
    let mut items = fields;
    sort_vec(&mut items);
    proof {
        assert(view_seq::<Field>(items@) == sorted_v);
        crate::sort::lemma_sort_by_insertion_len(key_order::<Field>(), fields_v);
        assert(sorted_v.len() == fields_v.len());
        assert(sorted_v.skip(0) =~= sorted_v);
        assert(buf0 + Seq::<char>::empty() =~= buf0);
    }
    let total = items.len();
    let ghost n = sorted_v.len();
    proof {
        assert(n == total);
    }
    let mut i: usize = 0;
    while items.len() > 0
        invariant
            i as int + items@.len() == n,
            n == sorted_v.len(),
            n <= usize::MAX,
            view_seq::<Field>(items@) == sorted_v.skip(i as int),
            out@ + render_fields(sorted_v.skip(i as int), ind1, w) == buf0 + render_fields(
                sorted_v,
                ind1,
                w,
            ),
            at_line_start(out@),
            *indent == ind1,
            ind1 == deeper(ind0),
            ind1.count < usize::MAX,
            w == width as nat,
        decreases items@.len(),
    {
        let ghost items_before = items@;
        let f = items.remove(0);
        proof {
            assert(f@ == view_seq::<Field>(items_before)[0]);
            assert(f@ == sorted_v[i as int]);
            assert forall|k: int| 0 <= k < items@.len() implies view_seq::<Field>(items@)[k]
                == sorted_v.skip(i + 1)[k] by {
                assert(items@[k] == items_before[k + 1]);
                assert(view_seq::<Field>(items_before)[k + 1] == sorted_v.skip(i as int)[k + 1]);
            }
            assert(view_seq::<Field>(items@) =~= sorted_v.skip(i + 1));
        }
        let ghost out_before = out@;
        format_schema_field(f, indent, out, width);
        proof {
            assert(sorted_v.skip(i as int)[0] == sorted_v[i as int]);
            assert(sorted_v.skip(i as int).drop_first() =~= sorted_v.skip(i + 1));
            assert(render_fields(sorted_v.skip(i as int), ind1, w) == render_schema_field(
                sorted_v[i as int],
                ind1,
                w,
            ) + render_fields(sorted_v.skip(i + 1), ind1, w));
            assert(out@ == out_before + render_schema_field(sorted_v[i as int], ind1, w));
            assert(out@ + render_fields(sorted_v.skip(i + 1), ind1, w) =~= out_before
                + (render_schema_field(sorted_v[i as int], ind1, w) + render_fields(
                sorted_v.skip(i + 1),
                ind1,
                w,
            )));
            assert(out_before + (render_schema_field(sorted_v[i as int], ind1, w)
                + render_fields(sorted_v.skip(i + 1), ind1, w)) == out_before + render_fields(
                sorted_v.skip(i as int),
                ind1,
                w,
            ));
            assert(out@ + render_fields(sorted_v.skip(i + 1), ind1, w) == buf0 + render_fields(
                sorted_v,
                ind1,
                w,
            ));
        }
        i = i + 1;
    }
    proof {
        assert(sorted_v.skip(n as int) =~= Seq::<FieldView>::empty());
    }
    indent.decrement();
    proof {
        assert(*indent == ind0);
        assert(out@ + Seq::<char>::empty() =~= out@);
        assert(out@ =~= buf0 + render_fields(sorted_v, ind1, w));
    }
}

fn format_enum_values(values: Vec<String>, indent: &mut Indentation, out: &mut Output)
    requires
        old(indent).count < usize::MAX,
    ensures
        *final(indent) == *old(indent),
        final(out)@ == old(out)@ + enum_value_lines(
            sort_names(view_seq(values@)),
            deeper(*old(indent)),
        ),
{
    let ghost values_v = view_seq::<String>(values@);
    let ghost sorted_v = sort_names(values_v);
    let ghost ind0 = *old(indent);
    let ghost ind1 = deeper(ind0);
    let ghost buf0 = old(out)@;
    indent.increment();
    proof {
        assert(*indent == ind1);
    }
    let mut vals = values;
    sort_vec(&mut vals);
    proof {
        assert(view_seq::<String>(vals@) == sorted_v);
        crate::sort::lemma_sort_by_insertion_len(key_order::<String>(), values_v);
        assert(sorted_v.len() == values_v.len());
        assert(sorted_v.skip(0) =~= sorted_v);
        assert(buf0 + Seq::<char>::empty() =~= buf0);
    }
    let ghost n = sorted_v.len();
    let mut i: usize = 0;
    while i < vals.len()
        invariant
            0 <= i <= vals@.len(),
            n == vals@.len(),
            n == sorted_v.len(),
            view_seq::<String>(vals@) == sorted_v,
            out@ + enum_value_lines(sorted_v.skip(i as int), ind1) == buf0 + enum_value_lines(
                sorted_v,
                ind1,
            ),
            *indent == ind1,
        decreases vals@.len() - i,
    {
        let ghost out_before = out@;
        out.push(vals[i].as_str(), indent);
        out.push_str("\n");
        proof {
            assert(vals@[i as int]@ == sorted_v[i as int]);
            assert(sorted_v.skip(i as int)[0] == sorted_v[i as int]);
            assert(sorted_v.skip(i as int).drop_first() =~= sorted_v.skip(i + 1));
            assert(enum_value_lines(sorted_v.skip(i as int), ind1) == ind1.spaces_spec()
                + sorted_v[i as int] + "\n"@ + enum_value_lines(sorted_v.skip(i + 1), ind1));
            assert(out@ =~= out_before + (ind1.spaces_spec() + sorted_v[i as int] + "\n"@));
            assert(out@ + enum_value_lines(sorted_v.skip(i + 1), ind1) =~= out_before
                + enum_value_lines(sorted_v.skip(i as int), ind1));
            assert(out@ + enum_value_lines(sorted_v.skip(i + 1), ind1) == buf0
                + enum_value_lines(sorted_v, ind1));
        }
        i = i + 1;
    }
    proof {
        assert(sorted_v.skip(n as int) =~= Seq::<Seq<char>>::empty());
        assert(out@ + Seq::<char>::empty() =~= out@);
    }
    indent.decrement();
    proof {
        assert(*indent == ind0);
    }
}

fn format_input_block(values: Vec<InputValue>, indent: &mut Indentation, out: &mut Output)
    requires
        at_line_start(old(out)@),
        old(indent).count < usize::MAX,
    ensures
        *final(indent) == *old(indent),
        final(out)@ == old(out)@ + input_value_block(
            sort_input_values(view_seq(values@)),
            deeper(*old(indent)),
        ),
        at_line_start(final(out)@),
{
    let ghost values_v = view_seq::<InputValue>(values@);
    let ghost sorted_v = sort_input_values(values_v);
    let ghost ind0 = *old(indent);
    let ghost ind1 = deeper(ind0);
    let ghost buf0 = old(out)@;
    indent.increment();
    proof {
        assert(*indent == ind1);
    }
    let mut vals = values;
    sort_vec(&mut vals);
    proof {
        assert(view_seq::<InputValue>(vals@) == sorted_v);
        crate::sort::lemma_sort_by_insertion_len(key_order::<InputValue>(), values_v);
        assert(sorted_v.len() == values_v.len());
        assert(sorted_v.skip(0) =~= sorted_v);
        assert(buf0 + Seq::<char>::empty() =~= buf0);
    }
    let ghost n = sorted_v.len();
    let mut described = false;
    let mut k: usize = 0;
    while k < vals.len()
        invariant
            0 <= k <= vals@.len(),
            n == vals@.len(),
            n == sorted_v.len(),
            view_seq::<InputValue>(vals@) == sorted_v,
            described == (exists|t: int|
                0 <= t < k && (#[trigger] sorted_v[t]).description is Some),
        decreases vals@.len() - k,
    {
        if vals[k].description.is_some() {
            proof {
                assert(vals@[k as int]@ == sorted_v[k as int]);
                assert(sorted_v[k as int].description is Some);
            }
            described = true;
        }
        k = k + 1;
    }
    proof {
        assert(described == has_described_entry(sorted_v));
    }
    let ghost total_block = input_value_block(sorted_v, ind1);
    if described {
        let mut i: usize = 0;
        while i < vals.len()
            invariant
                0 <= i <= vals@.len(),
                n == vals@.len(),
                n == sorted_v.len(),
                view_seq::<InputValue>(vals@) == sorted_v,
                out@ + spaced_entries(sorted_v.skip(i as int), ind1) == buf0 + spaced_entries(
                    sorted_v,
                    ind1,
                ),
                at_line_start(out@),
                *indent == ind1,
            decreases vals@.len() - i,
        {
            let ghost out_before = out@;
            push_desc(&vals[i].description, indent, out);
            let t = input_value_to_text(&vals[i]);
            out.push(t.as_str(), indent);
            proof {
                assert(vals@[i as int]@ == sorted_v[i as int]);
                assert(out@ =~= out_before + input_entry(sorted_v[i as int], ind1));
            }
            let ghost entry = input_entry(sorted_v[i as int], ind1);
            if i + 1 == vals.len() {
                out.push_str("\n");
                proof {
                    reveal_strlit("\n");
                    assert(sorted_v.skip(i as int).len() == 1);
                    assert(sorted_v.skip(i as int)[0] == sorted_v[i as int]);
                    assert(spaced_entries(sorted_v.skip(i as int), ind1) == entry + "\n"@);
                    assert(out@ =~= out_before + (entry + "\n"@));
                    lemma_at_line_start_concat(out_before + entry, "\n"@);
                    assert(out@ =~= (out_before + entry) + "\n"@);
                    assert(sorted_v.skip(i + 1) =~= Seq::<InputValueView>::empty());
                    assert(out@ + spaced_entries(sorted_v.skip(i + 1), ind1) =~= out_before
                        + spaced_entries(sorted_v.skip(i as int), ind1));
                    assert(out@ + spaced_entries(sorted_v.skip(i + 1), ind1) == buf0
                        + spaced_entries(sorted_v, ind1));
                }
            } else {
                out.push_str("\n\n");
                proof {
                    reveal_strlit("\n\n");
                    assert(sorted_v.skip(i as int).len() > 1);
                    assert(sorted_v.skip(i as int)[0] == sorted_v[i as int]);
                    assert(sorted_v.skip(i as int).drop_first() =~= sorted_v.skip(i + 1));
                    assert(spaced_entries(sorted_v.skip(i as int), ind1) == entry + "\n\n"@
                        + spaced_entries(sorted_v.skip(i + 1), ind1));
                    assert(out@ =~= out_before + (entry + "\n\n"@));
                    lemma_at_line_start_concat(out_before + entry, "\n\n"@);
                    assert(out@ =~= (out_before + entry) + "\n\n"@);
                    assert(out@ + spaced_entries(sorted_v.skip(i + 1), ind1) =~= out_before
                        + spaced_entries(sorted_v.skip(i as int), ind1));
                    assert(out@ + spaced_entries(sorted_v.skip(i + 1), ind1) == buf0
                        + spaced_entries(sorted_v, ind1));
                }
            }
            i = i + 1;
        }
        proof {
            assert(sorted_v.skip(n as int) =~= Seq::<InputValueView>::empty());
            assert(out@ + Seq::<char>::empty() =~= out@);
            assert(out@ == buf0 + total_block);
        }
    } else {
        let mut i: usize = 0;
        while i < vals.len()
            invariant
                0 <= i <= vals@.len(),
                n == vals@.len(),
                n == sorted_v.len(),
                view_seq::<InputValue>(vals@) == sorted_v,
                out@ + plain_entries(sorted_v.skip(i as int), ind1) == buf0 + plain_entries(
                    sorted_v,
                    ind1,
                ),
                at_line_start(out@),
                *indent == ind1,
            decreases vals@.len() - i,
        {
            let ghost out_before = out@;
            push_desc(&vals[i].description, indent, out);
            let t = input_value_to_text(&vals[i]);
            out.push(t.as_str(), indent);
            out.push_str("\n");
            proof {
                reveal_strlit("\n");
                assert(vals@[i as int]@ == sorted_v[i as int]);
                let entry = input_entry(sorted_v[i as int], ind1);
                assert(sorted_v.skip(i as int)[0] == sorted_v[i as int]);
                assert(sorted_v.skip(i as int).drop_first() =~= sorted_v.skip(i + 1));
                assert(plain_entries(sorted_v.skip(i as int), ind1) == entry + "\n"@
                    + plain_entries(sorted_v.skip(i + 1), ind1));
                assert(out@ =~= out_before + (entry + "\n"@));
                lemma_at_line_start_concat(out_before + entry, "\n"@);
                assert(out@ =~= (out_before + entry) + "\n"@);
                assert(out@ + plain_entries(sorted_v.skip(i + 1), ind1) =~= out_before
                    + plain_entries(sorted_v.skip(i as int), ind1));
                assert(out@ + plain_entries(sorted_v.skip(i + 1), ind1) == buf0 + plain_entries(
                    sorted_v,
                    ind1,
                ));
            }
            i = i + 1;
        }
        proof {
            assert(sorted_v.skip(n as int) =~= Seq::<InputValueView>::empty());
            assert(out@ + Seq::<char>::empty() =~= out@);
            assert(out@ == buf0 + total_block);
        }
    }
    indent.decrement();
    proof {
        assert(*indent == ind0);
    }
}

#[verifier::rlimit(50)]
fn format_schema_block(s: SchemaBlock, indent: &mut Indentation, out: &mut Output, width: usize)
    requires
        old(indent).count < usize::MAX,
    ensures
        *final(indent) == *old(indent),
        final(out)@ == old(out)@ + render_schema_definition(
            (DefinitionView::Schema(s@)),
            *old(indent),
            width as nat,
        ),
        at_line_start(final(out)@),
{
    let ghost def_v = DefinitionView::Schema(s@);
    let ghost s_v = s@;
    let ghost ind0 = *old(indent);
    let ghost ind1 = deeper(ind0);
    let ghost w = width as nat;
    let ghost buf0 = old(out)@;
    out.push("schema {\n", indent);
    indent.increment();
    proof {
        assert(*indent == ind1);
    }
    let ghost base1 = buf0 + (ind0.spaces_spec() + "schema {\n"@);
    proof {
        assert(out@ =~= base1);
    }
    match &s.mutation {
        Option::Some(n) => {
            let mut line = String::from_str("mutation: ");
            line.append(n.as_str());
            line.append("\n");
            out.push(line.as_str(), indent);
            proof {
                assert(out@ =~= base1 + root_line("mutation: "@, s_v.mutation, ind1));
            }
        },
        Option::None => {
            proof {
                assert(out@ + Seq::<char>::empty() =~= out@);
                assert(out@ =~= base1 + root_line("mutation: "@, s_v.mutation, ind1));
            }
        },
    }
    let ghost base2 = base1 + root_line("mutation: "@, s_v.mutation, ind1);
    match &s.query {
        Option::Some(n) => {
            let mut line = String::from_str("query: ");
            line.append(n.as_str());
            line.append("\n");
            out.push(line.as_str(), indent);
            proof {
                assert(out@ =~= base2 + root_line("query: "@, s_v.query, ind1));
            }
        },
        Option::None => {
            proof {
                assert(out@ =~= base2 + root_line("query: "@, s_v.query, ind1));
            }
        },
    }
    let ghost base3 = base2 + root_line("query: "@, s_v.query, ind1);
    match &s.subscription {
        Option::Some(n) => {
            let mut line = String::from_str("subscription: ");
            line.append(n.as_str());
            line.append("\n");
            out.push(line.as_str(), indent);
            proof {
                assert(out@ =~= base3 + root_line("subscription: "@, s_v.subscription, ind1));
            }
        },
        Option::None => {
            proof {
                assert(out@ =~= base3 + root_line("subscription: "@, s_v.subscription, ind1));
            }
        },
    }
    indent.decrement();
    proof {
        assert(*indent == ind0);
    }
    out.push("}\n\n", indent);
    proof {
        reveal_strlit("}\n\n");
        lemma_at_line_start_concat(
            base3 + root_line("subscription: "@, s_v.subscription, ind1) + ind0.spaces_spec(),
            "}\n\n"@,
        );
        assert(out@ =~= buf0 + render_schema_definition(def_v, ind0, w));
    }
}

fn format_object(o: ObjectType, indent: &mut Indentation, out: &mut Output, width: usize)
    requires
        old(indent).count + 2 <= usize::MAX,
    ensures
        *final(indent) == *old(indent),
        final(out)@ == old(out)@ + render_schema_definition(
            (DefinitionView::Object(o@)),
            *old(indent),
            width as nat,
        ),
        at_line_start(final(out)@),
{
    let ghost def_v = DefinitionView::Object(o@);
    let ghost o_v = o@;
    let ghost ind0 = *old(indent);
    let ghost w = width as nat;
    let ghost buf0 = old(out)@;
    push_desc(&o.description, indent, out);
    let ghost base1 = buf0 + desc_line(o_v.description, ind0);
    let mut head = String::from_str("type ");
    head.append(o.name.as_str());
    out.push(head.as_str(), indent);
    proof {
        assert(out@ =~= base1 + (ind0.spaces_spec() + "type "@ + o_v.name));
    }
    let ghost base2 = base1 + (ind0.spaces_spec() + "type "@ + o_v.name);
    if o.implements_interfaces.len() > 0 {
        out.push_str(" implements ");
        let joined = join_strings(&o.implements_interfaces, " & ");
        out.push_str(joined.as_str());
        proof {
            assert(o.implements_interfaces.deep_view() =~= view_seq::<String>(
                o.implements_interfaces@,
            ));
            assert(joined@ == join_texts(o_v.implements_interfaces, " & "@));
            assert(out@ =~= base2 + implements_part(o_v.implements_interfaces));
        }
    } else {
        proof {
            assert(out@ + Seq::<char>::empty() =~= out@);
            assert(out@ =~= base2 + implements_part(o_v.implements_interfaces));
        }
    }
    let ghost base3 = base2 + implements_part(o_v.implements_interfaces);
    out.push_str(" {\n");
    proof {
        reveal_strlit(" {\n");
        lemma_at_line_start_concat(base3, " {\n"@);
        assert(out@ =~= base3 + " {\n"@);
    }
    format_field_block(o.fields, indent, out, width);
    proof {
        assert(view_seq::<Field>(o.fields@) == o_v.fields);
        assert(out@ =~= (base3 + " {\n"@) + field_block(o_v.fields, ind0, w));
    }
    out.push("}\n\n", indent);
    proof {
        reveal_strlit("}\n\n");
        lemma_at_line_start_concat(
            (base3 + " {\n"@) + field_block(o_v.fields, ind0, w) + ind0.spaces_spec(),
            "}\n\n"@,
        );
        assert(out@ =~= buf0 + render_schema_definition(def_v, ind0, w));
    }
}

fn format_interface(it: InterfaceType, indent: &mut Indentation, out: &mut Output, width: usize)
    requires
        old(indent).count + 2 <= usize::MAX,
    ensures
        *final(indent) == *old(indent),
        final(out)@ == old(out)@ + render_schema_definition(
            (DefinitionView::Interface(it@)),
            *old(indent),
            width as nat,
        ),
        at_line_start(final(out)@),
{
    let ghost def_v = DefinitionView::Interface(it@);
    let ghost it_v = it@;
    let ghost ind0 = *old(indent);
    let ghost w = width as nat;
    let ghost buf0 = old(out)@;
    push_desc(&it.description, indent, out);
    let ghost base1 = buf0 + desc_line(it_v.description, ind0);
    let mut head = String::from_str("interface ");
    head.append(it.name.as_str());
    out.push(head.as_str(), indent);
    let ghost base2 = base1 + (ind0.spaces_spec() + "interface "@ + it_v.name);
    proof {
        assert(out@ =~= base2);
    }
    out.push_str(" {\n");
    proof {
        reveal_strlit(" {\n");
        lemma_at_line_start_concat(base2, " {\n"@);
        assert(out@ =~= base2 + " {\n"@);
    }
    format_field_block(it.fields, indent, out, width);
    proof {
        assert(view_seq::<Field>(it.fields@) == it_v.fields);
        assert(out@ =~= (base2 + " {\n"@) + field_block(it_v.fields, ind0, w));
    }
    out.push("}\n\n", indent);
    proof {
        reveal_strlit("}\n\n");
        lemma_at_line_start_concat(
            (base2 + " {\n"@) + field_block(it_v.fields, ind0, w) + ind0.spaces_spec(),
            "}\n\n"@,
        );
        assert(out@ =~= buf0 + render_schema_definition(def_v, ind0, w));
    }
}

fn format_enum(e: EnumType, indent: &mut Indentation, out: &mut Output, width: usize)
    requires
        old(indent).count < usize::MAX,
    ensures
        *final(indent) == *old(indent),
        final(out)@ == old(out)@ + render_schema_definition(
            (DefinitionView::Enum(e@)),
            *old(indent),
            width as nat,
        ),
        at_line_start(final(out)@),
{
    let ghost def_v = DefinitionView::Enum(e@);
    let ghost e_v = e@;
    let ghost ind0 = *old(indent);
    let ghost ind1 = deeper(ind0);
    let ghost w = width as nat;
    let ghost buf0 = old(out)@;
    push_desc(&e.description, indent, out);
    let ghost base1 = buf0 + desc_line(e_v.description, ind0);
    let mut head = String::from_str("enum ");
    head.append(e.name.as_str());
    out.push(head.as_str(), indent);
    let ghost base2 = base1 + (ind0.spaces_spec() + "enum "@ + e_v.name);
    proof {
        assert(out@ =~= base2);
    }
    out.push_str(" {\n");
    proof {
        assert(out@ =~= base2 + " {\n"@);
    }
    format_enum_values(e.values, indent, out);
    proof {
        assert(view_seq::<String>(e.values@) == e_v.values);
        assert(out@ =~= (base2 + " {\n"@) + enum_value_lines(sort_names(e_v.values), ind1));
    }
    out.push("}\n\n", indent);
    proof {
        reveal_strlit("}\n\n");
        lemma_at_line_start_concat(
            (base2 + " {\n"@) + enum_value_lines(sort_names(e_v.values), ind1)
                + ind0.spaces_spec(),
            "}\n\n"@,
        );
        assert(out@ =~= buf0 + render_schema_definition(def_v, ind0, w));
    }
}

fn format_scalar(s: ScalarType, indent: &mut Indentation, out: &mut Output, width: usize)
    ensures
        *final(indent) == *old(indent),
        final(out)@ == old(out)@ + render_schema_definition(
            (DefinitionView::Scalar(s@)),
            *old(indent),
            width as nat,
        ),
        at_line_start(final(out)@),
{
    let ghost def_v = DefinitionView::Scalar(s@);
    let ghost s_v = s@;
    let ghost ind0 = *old(indent);
    let ghost w = width as nat;
    let ghost buf0 = old(out)@;
    push_desc(&s.description, indent, out);
    let ghost base1 = buf0 + desc_line(s_v.description, ind0);
    let mut line = String::from_str("scalar ");
    line.append(s.name.as_str());
    line.append("\n\n");
    out.push(line.as_str(), indent);
    proof {
        reveal_strlit("\n\n");
        assert(line@ =~= "scalar "@ + s_v.name + "\n\n"@);
        assert(line@.last() == '\n');
        lemma_at_line_start_concat(base1 + ind0.spaces_spec(), line@);
        assert(out@ =~= buf0 + render_schema_definition(def_v, ind0, w));
    }
}

fn format_union(u: UnionType, indent: &mut Indentation, out: &mut Output, width: usize)
    ensures
        *final(indent) == *old(indent),
        final(out)@ == old(out)@ + render_schema_definition(
            (DefinitionView::Union(u@)),
            *old(indent),
            width as nat,
        ),
        at_line_start(final(out)@),
{
    let ghost def_v = DefinitionView::Union(u@);
    let ghost u_v = u@;
    let ghost ind0 = *old(indent);
    let ghost w = width as nat;
    let ghost buf0 = old(out)@;
    push_desc(&u.description, indent, out);
    let ghost base1 = buf0 + desc_line(u_v.description, ind0);
    let mut ts = u.types;
    sort_vec(&mut ts);
    proof {
        assert(view_seq::<String>(ts@) == sort_names(u_v.types));
    }
    let joined = join_strings(&ts, " | ");
    proof {
        assert(ts.deep_view() =~= view_seq::<String>(ts@));
        assert(joined@ == join_texts(sort_names(u_v.types), " | "@));
    }
    let mut line = String::from_str("union ");
    line.append(u.name.as_str());
    line.append(" = ");
    line.append(joined.as_str());
    line.append("\n\n");
    out.push(line.as_str(), indent);
    proof {
        reveal_strlit("\n\n");
        assert(line@ =~= "union "@ + u_v.name + " = "@ + join_texts(
            sort_names(u_v.types),
            " | "@,
        ) + "\n\n"@);
        assert(line@.last() == '\n');
        lemma_at_line_start_concat(base1 + ind0.spaces_spec(), line@);
        assert(out@ =~= buf0 + render_schema_definition(def_v, ind0, w));
    }
}

fn format_input_object(io: InputObjectType, indent: &mut Indentation, out: &mut Output, width: usize)
    requires
        old(indent).count < usize::MAX,
    ensures
        *final(indent) == *old(indent),
        final(out)@ == old(out)@ + render_schema_definition(
            (DefinitionView::InputObject(io@)),
            *old(indent),
            width as nat,
        ),
        at_line_start(final(out)@),
{
    let ghost def_v = DefinitionView::InputObject(io@);
    let ghost io_v = io@;
    let ghost ind0 = *old(indent);
    let ghost ind1 = deeper(ind0);
    let ghost w = width as nat;
    let ghost buf0 = old(out)@;
    push_desc(&io.description, indent, out);
    let ghost base1 = buf0 + desc_line(io_v.description, ind0);
    let mut head = String::from_str("input ");
    head.append(io.name.as_str());
    out.push(head.as_str(), indent);
    let ghost base2 = base1 + (ind0.spaces_spec() + "input "@ + io_v.name);
    proof {
        assert(out@ =~= base2);
    }
    out.push_str(" {\n");
    proof {
        reveal_strlit(" {\n");
        lemma_at_line_start_concat(base2, " {\n"@);
        assert(out@ =~= base2 + " {\n"@);
    }
    format_input_block(io.fields, indent, out);
    proof {
        assert(view_seq::<InputValue>(io.fields@) == io_v.fields);
        assert(out@ =~= (base2 + " {\n"@) + input_value_block(
            sort_input_values(io_v.fields),
            ind1,
        ));
    }
    out.push("}\n\n", indent);
    proof {
        reveal_strlit("}\n\n");
        lemma_at_line_start_concat(
            (base2 + " {\n"@) + input_value_block(sort_input_values(io_v.fields), ind1)
                + ind0.spaces_spec(),
            "}\n\n"@,
        );
        assert(out@ =~= buf0 + render_schema_definition(def_v, ind0, w));
    }
}

fn format_schema_definition(
    def: Definition,
    indent: &mut Indentation,
    out: &mut Output,
    width: usize,
)
    requires
        definition_error(def@) is None,
        old(indent).count + 2 <= usize::MAX,
    ensures
        *final(indent) == *old(indent),
        final(out)@ == old(out)@ + render_schema_definition(def@, *old(indent), width as nat),
        at_line_start(final(out)@),
{
    match def {
        Definition::Schema(s) => format_schema_block(s, indent, out, width),
        Definition::Object(o) => format_object(o, indent, out, width),
        Definition::Interface(it) => format_interface(it, indent, out, width),
        Definition::Enum(e) => format_enum(e, indent, out, width),
        Definition::Scalar(s) => format_scalar(s, indent, out, width),
        Definition::Union(u) => format_union(u, indent, out, width),
        Definition::InputObject(io) => format_input_object(io, indent, out, width),
        Definition::TypeExtension(_) => {
            proof {
                assert(false);
            }
        },
        Definition::DirectiveDefinition(_) => {
            proof {
                assert(false);
            }
        },
    }
}

/// Formats a type-system document at the given indentation width and
/// column limit.
///
/// The document is consumed: the tree is walked once, top to bottom, and
/// only the rendered text survives.  A document with a directive anywhere,
/// a type extension or a standalone directive declaration is rejected
/// whole, with the first such construct reported.
#[verifier::loop_isolation(false)]
pub fn format_with(doc: Document, indent_size: usize, max_line_length: usize) -> (r: Result<
    String,
    FormatError,
>)
    ensures
        match r {
            Result::Ok(s) => document_error(doc@) is None && s@ == trim_of(
                render_schema_document(
                    doc@,
                    initial_indentation(indent_size),
                    max_line_length as nat,
                ),
            ),
            Result::Err(e) => document_error(doc@) == Option::Some(e),
        },
{
    let ghost doc_v = doc@;
    let ghost ind0 = initial_indentation(indent_size);
    let ghost w = max_line_length as nat;
    let check = check_document(&doc);
    match check {
        Option::Some(e) => {
            return Result::Err(e);
        },
        Option::None => {},
    }
    let mut indent = Indentation::new(indent_size);
    let mut out = Output::new();
    let ghost defs_v = doc_v.definitions;
    let mut defs = doc.definitions;
    proof {
        assert(view_seq::<Definition>(defs@) == defs_v);
        assert(defs_v.skip(0) =~= defs_v);
        assert(out@ + render_schema_definitions(defs_v, ind0, w) =~= render_schema_definitions(
            defs_v,
            ind0,
            w,
        ));
    }
    let total = defs.len();
    let ghost n = defs_v.len();
    proof {
        assert(n == total);
    }
    let mut i: usize = 0;
    while defs.len() > 0
        invariant
            i as int + defs@.len() == n,
            n == defs_v.len(),
            n <= usize::MAX,
            defs_v == doc_v.definitions,
            definitions_error(defs_v) is None,
            view_seq::<Definition>(defs@) == defs_v.skip(i as int),
            out@ + render_schema_definitions(defs_v.skip(i as int), ind0, w)
                == render_schema_definitions(defs_v, ind0, w),
            indent == ind0,
        decreases defs@.len(),
    {
        let ghost defs_before = defs@;
        let def = defs.remove(0);
        proof {
            assert(def@ == view_seq::<Definition>(defs_before)[0]);
            assert(def@ == defs_v[i as int]);
            assert forall|k: int| 0 <= k < defs@.len() implies view_seq::<Definition>(defs@)[k]
                == defs_v.skip(i + 1)[k] by {
                assert(defs@[k] == defs_before[k + 1]);
                assert(view_seq::<Definition>(defs_before)[k + 1] == defs_v.skip(i as int)[k + 1]);
            }
            assert(view_seq::<Definition>(defs@) =~= defs_v.skip(i + 1));
            lemma_definitions_error_none(defs_v, i as int);
        }
        let ghost out_before = out@;
        format_schema_definition(def, &mut indent, &mut out, max_line_length);
        proof {
            assert(defs_v.skip(i as int)[0] == defs_v[i as int]);
            assert(defs_v.skip(i as int).drop_first() =~= defs_v.skip(i + 1));
            assert(render_schema_definitions(defs_v.skip(i as int), ind0, w)
                == render_schema_definition(defs_v[i as int], ind0, w)
                + render_schema_definitions(defs_v.skip(i + 1), ind0, w));
            assert(out@ == out_before + render_schema_definition(defs_v[i as int], ind0, w));
            assert(out@ + render_schema_definitions(defs_v.skip(i + 1), ind0, w) =~= out_before
                + render_schema_definitions(defs_v.skip(i as int), ind0, w));
            assert(out@ + render_schema_definitions(defs_v.skip(i + 1), ind0, w)
                == render_schema_definitions(defs_v, ind0, w));
        }
        i = i + 1;
    }
    proof {
        assert(defs_v.skip(n as int) =~= Seq::<DefinitionView>::empty());
        assert(out@ + Seq::<char>::empty() =~= out@);
        assert(out@ == render_schema_document(doc_v, ind0, w));
    }
    Result::Ok(out.trim())
}

/// Formats a type-system document with two-space indentation and the
/// 80-column wrap limit.
pub fn format(doc: Document) -> (r: Result<String, FormatError>)
    ensures
        match r {
            Result::Ok(s) => document_error(doc@) is None && s@ == trim_of(
                render_schema_document(
                    doc@,
                    initial_indentation(INDENT_SIZE),
                    MAX_LINE_LENGTH as nat,
                ),
            ),
            Result::Err(e) => document_error(doc@) == Option::Some(e),
        },
{
    format_with(doc, INDENT_SIZE, MAX_LINE_LENGTH)
}

proof fn lemma_wrapped_value_lines_push(vs: Seq<InputValueView>, x: InputValueView, ind: Indentation)
    ensures
        wrapped_value_lines(vs.push(x), ind) == wrapped_value_lines(vs, ind) + ind.spaces_spec()
            + input_value_text(x) + ",\n"@,
    decreases vs.len(),
{
    if vs.len() == 0 {
        assert(vs.push(x)[0] == x);
        assert(vs.push(x).drop_first() =~= Seq::<InputValueView>::empty());
        assert(wrapped_value_lines(Seq::<InputValueView>::empty(), ind) == Seq::<char>::empty());
        assert(wrapped_value_lines(vs.push(x), ind) == ind.spaces_spec() + input_value_text(x)
            + ",\n"@ + Seq::<char>::empty());
        assert(wrapped_value_lines(vs.push(x), ind) =~= wrapped_value_lines(vs, ind)
            + ind.spaces_spec() + input_value_text(x) + ",\n"@);
    } else {
        lemma_wrapped_value_lines_push(vs.drop_first(), x, ind);
        assert(vs.push(x).drop_first() =~= vs.drop_first().push(x));
        assert(vs.push(x)[0] == vs[0]);
        assert(ind.spaces_spec() + input_value_text(vs[0]) + ",\n"@ + (wrapped_value_lines(
            vs.drop_first(),
            ind,
        ) + ind.spaces_spec() + input_value_text(x) + ",\n"@) =~= (ind.spaces_spec()
            + input_value_text(vs[0]) + ",\n"@ + wrapped_value_lines(vs.drop_first(), ind))
            + ind.spaces_spec() + input_value_text(x) + ",\n"@);
    }
}

} // verus!
