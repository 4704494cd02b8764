//! Formatting of type-system documents, driven through the real parser.

use gqltools::ast::schema as ast;
use gqltools::ast::Directive;
use gqltools::error::FormatError;
use graphql_parser::schema as gs;

fn conv_dirs(ds: Vec<gs::Directive<'static, String>>) -> Vec<Directive> {
    ds.into_iter().map(|d| Directive { name: d.name }).collect()
}

fn conv_input_value(v: gs::InputValue<'static, String>) -> ast::InputValue {
    ast::InputValue {
        name: v.name,
        description: v.description,
        value_type: v.value_type.to_string(),
        directives: conv_dirs(v.directives),
    }
}

fn conv_field(f: gs::Field<'static, String>) -> ast::Field {
    ast::Field {
        name: f.name,
        description: f.description,
        arguments: f.arguments.into_iter().map(conv_input_value).collect(),
        field_type: f.field_type.to_string(),
        directives: conv_dirs(f.directives),
    }
}

fn conv_def(d: gs::Definition<'static, String>) -> ast::Definition {
    match d {
        gs::Definition::SchemaDefinition(s) => ast::Definition::Schema(ast::SchemaBlock {
            query: s.query,
            mutation: s.mutation,
            subscription: s.subscription,
            directives: conv_dirs(s.directives),
        }),
        gs::Definition::TypeDefinition(t) => match t {
            gs::TypeDefinition::Scalar(s) => ast::Definition::Scalar(ast::ScalarType {
                name: s.name,
                description: s.description,
                directives: conv_dirs(s.directives),
            }),
            gs::TypeDefinition::Object(o) => ast::Definition::Object(ast::ObjectType {
                name: o.name,
                description: o.description,
                implements_interfaces: o.implements_interfaces,
                directives: conv_dirs(o.directives),
                fields: o.fields.into_iter().map(conv_field).collect(),
            }),
            gs::TypeDefinition::Interface(i) => ast::Definition::Interface(ast::InterfaceType {
                name: i.name,
                description: i.description,
                directives: conv_dirs(i.directives),
                fields: i.fields.into_iter().map(conv_field).collect(),
            }),
            gs::TypeDefinition::Union(u) => ast::Definition::Union(ast::UnionType {
                name: u.name,
                description: u.description,
                directives: conv_dirs(u.directives),
                types: u.types,
            }),
            gs::TypeDefinition::Enum(e) => ast::Definition::Enum(ast::EnumType {
                name: e.name,
                description: e.description,
                directives: conv_dirs(e.directives),
                values: e.values.into_iter().map(|v| v.name).collect(),
            }),
            gs::TypeDefinition::InputObject(io) => {
                ast::Definition::InputObject(ast::InputObjectType {
                    name: io.name,
                    description: io.description,
                    directives: conv_dirs(io.directives),
                    fields: io.fields.into_iter().map(conv_input_value).collect(),
                })
            }
        },
        gs::Definition::TypeExtension(t) => {
            let name = match t {
                gs::TypeExtension::Scalar(s) => s.name,
                gs::TypeExtension::Object(o) => o.name,
                gs::TypeExtension::Interface(i) => i.name,
                gs::TypeExtension::Union(u) => u.name,
                gs::TypeExtension::Enum(e) => e.name,
                gs::TypeExtension::InputObject(io) => io.name,
            };
            ast::Definition::TypeExtension(ast::TypeExtension { name })
        }
        gs::Definition::DirectiveDefinition(d) => {
            ast::Definition::DirectiveDefinition(ast::DirectiveDefinition { name: d.name })
        }
    }
}

fn parse_to_ast(text: &str) -> ast::Document {
    let parsed = graphql_parser::parse_schema::<String>(text)
        .expect("syntax error")
        .into_static();
    ast::Document {
        definitions: parsed.definitions.into_iter().map(conv_def).collect(),
    }
}

fn format(text: &str) -> Result<String, FormatError> {
    gqltools::format::schema::format(parse_to_ast(text))
}

fn format_test(schema: &str, expected: &str) {
    let schema = schema.trim();
    let actual = format(schema).unwrap();
    let expected = expected.trim();
    if actual != expected {
        println!("--- Actual:\n{}", actual);
        println!("--- Expected:\n{}", expected);
        panic!("expected != actual");
    }
}

#[test]
fn schema_test_basic() {
    format_test(
        "
type User { id: Int! name: String }
schema { query:Query mutation:Mutation }
            ",
        "
type User {
  id: Int!
  name: String
}

schema {
  mutation: Mutation
  query: Query
}
            ",
    );
}

#[test]
fn test_schema_first() {
    format_test(
        "
schema { query:Query mutation:Mutation }
type User { id: Int! name: String }
            ",
        "
schema {
  mutation: Mutation
  query: Query
}

type User {
  id: Int!
  name: String
}
            ",
    );
}

#[test]
fn test_implements_interfaces() {
    format_test(
        "
type User implements Foo & Bar & Baz { id: Int! name: String }
type Team implements Foo { id: Int! name: String }
            ",
        "
type User implements Foo & Bar & Baz {
  id: Int!
  name: String
}

type Team implements Foo {
  id: Int!
  name: String
}
            ",
    );
}

#[test]
fn test_enum() {
    format_test(
        "
enum Number { ONE TWO THREE }
            ",
        "
enum Number {
  ONE
  THREE
  TWO
}
            ",
    );
}

#[test]
fn test_scalar() {
    format_test(
        "
            scalar DateTime
            ",
        "
scalar DateTime
            ",
    );
}

#[test]
fn test_define_interface() {
    format_test(
        "
interface Character { id: ID! appearsIn: [Episode]! friends: [Character] name: String! }
            ",
        "
interface Character {
  appearsIn: [Episode]!
  friends: [Character]
  id: ID!
  name: String!
}
            ",
    );
}

#[test]
fn test_union() {
    format_test(
        "
union SearchResult
    = Z | Human | Droid | Starship
            ",
        "
union SearchResult = Droid | Human | Starship | Z
            ",
    );
}

#[test]
fn test_descriptions() {
    format_test(
        "
\"The user type\"
type User { \"the id\" id: Int! \"the name\" name: String }
schema { query:Query mutation:Mutation }
            ",
        "
\"The user type\"
type User {
  \"the id\"
  id: Int!
  \"the name\"
  name: String
}

schema {
  mutation: Mutation
  query: Query
}
            ",
    );
}

#[test]
fn test_field_args() {
    format_test(
        "
type Query { user(slug: String): User }
            ",
        "
type Query {
  user(slug: String): User
}
            ",
    );
}

#[test]
fn test_input_value() {
    format_test(
        "
            \"Creating a user\"
input UserInput{
  \"A field\"
  id: Int
  \"Another field\"
  slug: String!
}

input UserInput2{
  \"A field\"
  id: Int
  slug: String!
}

input WithoutDocs{
  id: Int
  slug: String!
}
            ",
        "
\"Creating a user\"
input UserInput {
  \"A field\"
  id: Int

  \"Another field\"
  slug: String!
}

input UserInput2 {
  \"A field\"
  id: Int

  slug: String!
}

input WithoutDocs {
  id: Int
  slug: String!
}
            ",
    );
}

#[test]
fn schema_block_order_is_fixed() {
    format_test(
        "
schema { subscription: Sub query:Query mutation:Mutation }
            ",
        "
schema {
  mutation: Mutation
  query: Query
  subscription: Sub
}
            ",
    );
}

#[test]
fn schema_format_round_trip() {
    let inputs = [
        "type User { id: Int! name: String }\nschema { query:Query mutation:Mutation }",
        "enum Number { ONE TWO THREE }",
        "union SearchResult = Z | Human | Droid | Starship",
        "\"The user type\"\ntype User implements Foo & Bar { \"the id\" id: Int! name: String }",
        "input UserInput { \"A field\" id: Int slug: String! }",
        "interface Character { id: ID! appearsIn: [Episode]! }",
        "type Query { user(slug: String, id: Int, name: String): User }",
    ];
    for input in inputs {
        let once = format(input).unwrap();
        let twice = format(&once).unwrap();
        assert_eq!(once, twice, "formatting is not idempotent for {:?}", input);
    }
}

#[test]
fn directive_on_schema_field_is_rejected() {
    let err = format("type User { name: String @deprecated }").unwrap_err();
    assert_eq!(err, FormatError::Directive);
}

#[test]
fn type_extension_is_rejected() {
    let err = format("type User { id: Int }\nextend type User { name: String }").unwrap_err();
    assert_eq!(err, FormatError::TypeExtension);
    assert_eq!(err.message(), "unsupported construct: type extension");
}

#[test]
fn directive_definition_is_rejected() {
    let err = format("directive @cached on FIELD").unwrap_err();
    assert_eq!(err, FormatError::DirectiveDefinition);
    assert_eq!(err.message(), "unsupported construct: directive definition");
}

#[test]
fn long_field_arguments_wrap() {
    let actual = format(
        "type Query { user(aaaaaaaaaa: String, bbbbbbbbbb: String, cccccccccc: String, dddddddddd: String): User }",
    )
    .unwrap();
    let expected = "type Query {\n  user(\n    aaaaaaaaaa: String,\n    bbbbbbbbbb: String,\n    cccccccccc: String,\n    dddddddddd: String,\n  ): User\n}";
    assert_eq!(actual, expected);
}
