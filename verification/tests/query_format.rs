//! Formatting of operation documents, driven through the real parser.

use gqltools::ast::query as ast;
use gqltools::ast::Directive;
use gqltools::error::FormatError;
use graphql_parser::query as gq;

fn conv_dirs(ds: Vec<gq::Directive<'static, String>>) -> Vec<Directive> {
    ds.into_iter().map(|d| Directive { name: d.name }).collect()
}

fn conv_set(s: gq::SelectionSet<'static, String>) -> ast::SelectionSet {
    ast::SelectionSet {
        items: s.items.into_iter().map(conv_sel).collect(),
    }
}

fn conv_sel(s: gq::Selection<'static, String>) -> ast::Selection {
    match s {
        gq::Selection::Field(f) => ast::Selection::Field(ast::Field {
            alias: f.alias,
            name: f.name,
            arguments: f
                .arguments
                .into_iter()
                .map(|(k, v)| ast::Argument {
                    name: k,
                    value: v.to_string(),
                })
                .collect(),
            directives: conv_dirs(f.directives),
            selection_set: conv_set(f.selection_set),
        }),
        gq::Selection::FragmentSpread(fs) => ast::Selection::FragmentSpread(ast::FragmentSpread {
            fragment_name: fs.fragment_name,
            directives: conv_dirs(fs.directives),
        }),
        gq::Selection::InlineFragment(g) => ast::Selection::InlineFragment(ast::InlineFragment {
            type_condition: g.type_condition.map(|gq::TypeCondition::On(n)| n),
            directives: conv_dirs(g.directives),
            selection_set: conv_set(g.selection_set),
        }),
    }
}

fn conv_op(
    kind: ast::OperationKind,
    name: Option<String>,
    vars: Vec<gq::VariableDefinition<'static, String>>,
    dirs: Vec<gq::Directive<'static, String>>,
    set: gq::SelectionSet<'static, String>,
) -> ast::Definition {
    ast::Definition::Operation(ast::Operation {
        kind,
        name,
        variable_definitions: vars
            .into_iter()
            .map(|v| ast::VariableDefinition {
                name: v.name,
                var_type: v.var_type.to_string(),
                default_value: v.default_value.map(|d| d.to_string()),
            })
            .collect(),
        directives: conv_dirs(dirs),
        selection_set: conv_set(set),
    })
}

fn conv_def(d: gq::Definition<'static, String>) -> ast::Definition {
    match d {
        gq::Definition::Operation(op) => match op {
            gq::OperationDefinition::SelectionSet(s) => ast::Definition::SelectionSet(conv_set(s)),
            gq::OperationDefinition::Query(q) => conv_op(
                ast::OperationKind::Query,
                q.name,
                q.variable_definitions,
                q.directives,
                q.selection_set,
            ),
            gq::OperationDefinition::Mutation(m) => conv_op(
                ast::OperationKind::Mutation,
                m.name,
                m.variable_definitions,
                m.directives,
                m.selection_set,
            ),
            gq::OperationDefinition::Subscription(s) => conv_op(
                ast::OperationKind::Subscription,
                s.name,
                s.variable_definitions,
                s.directives,
                s.selection_set,
            ),
        },
        gq::Definition::Fragment(f) => {
            let gq::TypeCondition::On(tc) = f.type_condition;
            ast::Definition::Fragment(ast::FragmentDefinition {
                name: f.name,
                type_condition: tc,
                directives: conv_dirs(f.directives),
                selection_set: conv_set(f.selection_set),
            })
        }
    }
}

fn parse_to_ast(text: &str) -> ast::Document {
    let parsed = graphql_parser::parse_query::<String>(text)
        .expect("syntax error")
        .into_static();
    ast::Document {
        definitions: parsed.definitions.into_iter().map(conv_def).collect(),
    }
}

fn format(text: &str) -> Result<String, FormatError> {
    gqltools::format::query::format(parse_to_ast(text))
}

fn format_test(query: &str, expected: &str) {
    let query = query.trim();
    let actual = format(query).unwrap();
    let expected = expected.trim();
    if actual != expected {
        println!("--- Actual:\n{}", actual);
        println!("--- Expected:\n{}", expected);
        panic!("expected != actual");
    }
}

#[test]
fn query_test_basic() {
    format_test(
        "
query One { firstName }
query Two { firstName lastName }
            ",
        "
query One {
  firstName
}

query Two {
  firstName
  lastName
}
            ",
    );
}

#[test]
fn test_nested_queries() {
    let query = "
query One { firstName }
query Two { firstName lastName team { id slug league { id } } country { id } }
        "
    .trim();

    let actual = format(query).unwrap();
    let expected = "
query One {
  firstName
}

query Two {
  firstName
  lastName
  country {
    id
  }
  team {
    id
    slug
    league {
      id
    }
  }
}
            "
    .trim();

    if actual != expected {
        println!("Actual:\n\n{}\n", actual);
        println!("Expected:\n\n{}", expected);
        panic!("expected != actual");
    }
}

#[test]
fn alias() {
    let query = "
query One { alias: firstName }
        "
    .trim();

    let actual = format(query).unwrap();
    let expected = "
query One {
  alias: firstName
}
            "
    .trim();

    if actual != expected {
        println!("Actual:\n\n{}\n", actual);
        println!("Expected:\n\n{}", expected);
        panic!("expected != actual");
    }
}

#[test]
fn args() {
    let query = "
query One { firstName(a: { b: 123, one:ONE }) { id } }
query Two { firstName(a: \"123\") { id } }
        "
    .trim();

    let actual = format(query).unwrap();
    let expected = "
query One {
  firstName(a: {b: 123, one: ONE}) {
    id
  }
}

query Two {
  firstName(a: \"123\") {
    id
  }
}
            "
    .trim();

    if actual != expected {
        println!("Actual:\n\n{}\n", actual);
        println!("Expected:\n\n{}", expected);
        panic!("expected != actual");
    }
}

#[test]
fn args_long_lines() {
    let query = "
query UserProfile {
  user(a: 123, a: 123, a: 123, a: 123, a: 123, a: 123, a: 123, a: 123, a: 123, a: 123) {
    team
  }
}
        "
    .trim();

    let actual = format(query).unwrap();
    let expected = "
query UserProfile {
  user(
    a: 123,
    a: 123,
    a: 123,
    a: 123,
    a: 123,
    a: 123,
    a: 123,
    a: 123,
    a: 123,
    a: 123,
  ) {
    team
  }
}
            "
    .trim();

    if actual != expected {
        println!("Actual:\n\n{}\n", actual);
        println!("Expected:\n\n{}", expected);
        panic!("expected != actual");
    }
}

#[test]
fn mutation() {
    let query = "
mutation NewUser {
  newUser(name: \"Bob\") { id }
}
        "
    .trim();

    let actual = format(query).unwrap();
    let expected = "
mutation NewUser {
  newUser(name: \"Bob\") {
    id
  }
}
            "
    .trim();

    if actual != expected {
        println!("Actual:\n\n{}\n", actual);
        println!("Expected:\n\n{}", expected);
        panic!("expected != actual");
    }
}

#[test]
fn sorting_args() {
    let query = "
query UserProfile {
  user(x: 1, h: 1, a: 1) {
    team
  }
}
        "
    .trim();

    let actual = format(query).unwrap();
    let expected = "
query UserProfile {
  user(a: 1, h: 1, x: 1) {
    team
  }
}
            "
    .trim();

    if actual != expected {
        println!("Actual:\n\n{}\n", actual);
        println!("Expected:\n\n{}", expected);
        panic!("expected != actual");
    }
}

#[test]
fn variables() {
    let query = "
query UserProfile ($username:String!
) {
  reddit {
    user(username: $username) {
      username
      commentKarma
      createdISO
    }
  }
}
        "
    .trim();

    let actual = format(query).unwrap();
    let expected = "
query UserProfile($username: String!) {
  reddit {
    user(username: $username) {
      commentKarma
      createdISO
      username
    }
  }
}
            "
    .trim();

    if actual != expected {
        println!("Actual:\n\n{}\n", actual);
        println!("Expected:\n\n{}", expected);
        panic!("expected != actual");
    }
}

#[test]
fn variables_with_default_args() {
    let query = "
query UserProfile ($username:String! = \"123\"
) {
  reddit {
    user(username: $username) {
      username
      commentKarma
      createdISO
    }
  }
}
        "
    .trim();

    let actual = format(query).unwrap();
    let expected = "
query UserProfile($username: String! = \"123\") {
  reddit {
    user(username: $username) {
      commentKarma
      createdISO
      username
    }
  }
}
            "
    .trim();

    if actual != expected {
        println!("Actual:\n\n{}\n", actual);
        println!("Expected:\n\n{}", expected);
        panic!("expected != actual");
    }
}

#[test]
fn unnamed_query_with_variables() {
    let query = "
query   ($username:String!
) {
  reddit {
    user(username: $username) {
      username
      commentKarma
      createdISO
    }
  }
}
        "
    .trim();

    let actual = format(query).unwrap();
    let expected = "
query ($username: String!) {
  reddit {
    user(username: $username) {
      commentKarma
      createdISO
      username
    }
  }
}
            "
    .trim();

    if actual != expected {
        println!("Actual:\n\n{}\n", actual);
        println!("Expected:\n\n{}", expected);
        panic!("expected != actual");
    }
}

#[test]
fn inline_fragment() {
    let query = "
query {
  a(query:\"hi\") {
    ... on User {
      id
      name
    }
  }
  b(query: \"hi\") {
    ... {
      id
      name
    }
  }
}
        "
    .trim();

    let actual = format(query).unwrap();
    let expected = "
query {
  a(query: \"hi\") {
    ... on User {
      id
      name
    }
  }
  b(query: \"hi\") {
    ... {
      id
      name
    }
  }
}
            "
    .trim();

    if actual != expected {
        println!("Actual:\n\n{}\n", actual);
        println!("Expected:\n\n{}", expected);
        panic!("expected != actual");
    }
}

#[test]
fn fragment_definition() {
    let query = "
fragment comparisonFields on Character {
name
friendsConnection(first: $first) {
  totalCount
  edges {
    node {
      name
    }
  }
}
}
        "
    .trim();

    let actual = format(query).unwrap();
    let expected = "
fragment comparisonFields on Character {
  name
  friendsConnection(first: $first) {
    totalCount
    edges {
      node {
        name
      }
    }
  }
}
            "
    .trim();

    if actual != expected {
        println!("Actual:\n\n{}\n", actual);
        println!("Expected:\n\n{}", expected);
        panic!("expected != actual");
    }
}

#[test]
fn selection_ordering_tiers() {
    let actual = format("{ b a c { x } }").unwrap();
    let expected = "{\n  a\n  b\n  c {\n    x\n  }\n}";
    assert_eq!(actual, expected);
}

#[test]
fn three_short_args_stay_inline() {
    let actual = format("query Q { user(a: 123, b: 123, c: 123) { id } }").unwrap();
    let expected = "query Q {\n  user(a: 123, b: 123, c: 123) {\n    id\n  }\n}";
    assert_eq!(actual, expected);
}

#[test]
fn query_format_round_trip() {
    let inputs = [
        "query One { firstName }\nquery Two { firstName lastName }",
        "{ b a c { x } }",
        "query UserProfile { user(x: 1, h: 1, a: 1) { team } }",
        "fragment f on T { z y x { w v } }",
        "query ($u: String! = \"7\") { r { s(u: $u) { b a } } }",
        "query Q { user(a: 123, a: 123, a: 123, a: 123, a: 123, a: 123, a: 123, a: 123, a: 123, a: 123) { team } }",
        "query { a { ... on U { n } ... { m } ...spread } }",
        "query Q { b }\n{ a }",
        "fragment f on T { x }\nquery Q { y }",
    ];
    for input in inputs {
        let once = format(input).unwrap();
        let twice = format(&once).unwrap();
        assert_eq!(once, twice, "formatting is not idempotent for {:?}", input);
    }
}

#[test]
fn directive_on_field_is_rejected() {
    let err = format("query Q { name @skip(if: true) }").unwrap_err();
    assert_eq!(err, FormatError::Directive);
}

#[test]
fn directive_on_fragment_spread_is_rejected() {
    let err = format("query Q { ...frag @skip(if: true) }").unwrap_err();
    assert_eq!(err, FormatError::Directive);
}

#[test]
fn directive_on_operation_is_rejected() {
    let err = format("query Q @cached { name }").unwrap_err();
    assert_eq!(err, FormatError::Directive);
    assert_eq!(err.message(), "unsupported construct: directive");
}

#[test]
fn wrap_threshold_is_exclusive_at_the_limit() {
    // The line "  user(a: <69 chars>)" is exactly 80 columns: it stays inline.
    let value_at = "A".repeat(69);
    let at_limit = format(&format!("query Q {{ user(a: {}) }}", value_at)).unwrap();
    assert!(at_limit.contains(&format!("  user(a: {})", value_at)));

    // One character more crosses 80 columns: the list wraps.
    let value_over = "A".repeat(70);
    let over_limit = format(&format!("query Q {{ user(a: {}) }}", value_over)).unwrap();
    assert!(over_limit.contains("  user(\n"));
    assert!(over_limit.contains(&format!("    a: {},\n", value_over)));
}

#[test]
fn wider_indent_unit_is_honored() {
    let doc = parse_to_ast("query Q { a { b } }");
    let wide = gqltools::format::query::format_with(doc, 4, 80).unwrap();
    assert_eq!(wide, "query Q {\n    a {\n        b\n    }\n}");
}

#[test]
fn narrow_width_wraps_three_args() {
    let doc = parse_to_ast("query Q { user(a: 1, b: 2, c: 3) }");
    let narrow = gqltools::format::query::format_with(doc, 2, 20).unwrap();
    assert_eq!(narrow, "query Q {\n  user(\n    a: 1,\n    b: 2,\n    c: 3,\n  )\n}");
}
