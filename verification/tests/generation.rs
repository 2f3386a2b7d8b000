use proto_gen::parser::file::ParsedFile;
use proto_gen::protobuf::package::filter::NamespaceFilter;
use proto_gen::protobuf::package::ProtoPackages;
use proto_gen::syntax::{Pair, Rule};

fn leaf(rule: Rule, text: &str) -> Pair {
    Pair { rule, text: text.to_string(), inner: vec![] }
}

fn node(rule: Rule, inner: Vec<Pair>) -> Pair {
    Pair { rule, text: String::new(), inner }
}

fn number_field(name: &str, number: &str) -> Pair {
    node(
        Rule::ClassMember,
        vec![node(
            Rule::Field,
            vec![
                leaf(Rule::ModifierVisibility, "public"),
                leaf(Rule::FieldModifier, "const"),
                leaf(Rule::Type, "int"),
                leaf(Rule::Ident, name),
                node(Rule::FieldAssignValue, vec![node(Rule::Value, vec![leaf(Rule::Number, number)])]),
            ],
        )],
    )
}

fn backing_field(name: &str, ty: &str) -> Pair {
    node(
        Rule::ClassMember,
        vec![node(
            Rule::Field,
            vec![leaf(Rule::ModifierVisibility, "private"), leaf(Rule::Type, ty), leaf(Rule::Ident, name)],
        )],
    )
}

fn accessor(name: &str, ty: &str) -> Pair {
    node(
        Rule::ClassMember,
        vec![node(
            Rule::Property,
            vec![
                leaf(Rule::ModifierVisibility, "public"),
                leaf(Rule::Type, ty),
                leaf(Rule::Ident, name),
                node(Rule::PropertyBody, vec![leaf(Rule::PropertyKind, "get"), leaf(Rule::PropertyKind, "set")]),
            ],
        )],
    )
}

fn message_class(name: &str, index: &str, members: Vec<Pair>) -> Pair {
    node(
        Rule::FileMember,
        vec![node(
            Rule::Class,
            vec![
                leaf(Rule::Comment, &format!("// TypeDefIndex: {index}")),
                leaf(Rule::ModifierVisibility, "public"),
                leaf(Rule::ClassModifier, "sealed"),
                leaf(Rule::Ident, name),
                node(Rule::ClassInterfaces, vec![leaf(Rule::Ident, "IMessage")]),
                node(Rule::ClassBody, members),
            ],
        )],
    )
}

fn dump() -> Pair {
    node(
        Rule::File,
        vec![
            leaf(Rule::Comment, "// Namespace: Game.Common"),
            message_class(
                "Ping",
                "10",
                vec![number_field("ValueFieldNumber", "1"), backing_field("value_", "int"), accessor("Value", "int")],
            ),
            leaf(Rule::Comment, "// Namespace: Game.Common"),
            message_class(
                "Pong",
                "11",
                vec![number_field("PingFieldNumber", "2"), backing_field("ping_", "Ping"), accessor("Ping", "Ping")],
            ),
            leaf(Rule::Comment, "// Namespace: Other"),
            message_class(
                "Hidden",
                "12",
                vec![number_field("ValueFieldNumber", "1"), backing_field("value_", "int"), accessor("Value", "int")],
            ),
            leaf(Rule::Eoi, ""),
        ],
    )
}

#[test]
fn from_tree_reads_members_with_namespaces() {
    let parsed = ParsedFile::from_tree(&dump());
    assert_eq!(parsed.members.len(), 3);
    assert_eq!(parsed.members[0].namespace.as_deref(), Some("Game.Common"));
    assert_eq!(parsed.members[2].namespace.as_deref(), Some("Other"));
}

#[test]
fn from_parsed_writes_one_sorted_package_per_namespace() {
    let parsed = ParsedFile::from_tree(&dump());
    let filter = NamespaceFilter::new("^Game").unwrap();
    let packages = ProtoPackages::from_parsed(parsed, filter);
    let all = packages.packages();
    assert_eq!(all.len(), 1);
    let package = &all[0];
    assert_eq!(package.name(), "game.common");
    assert_eq!(package.file_name(), "game.common.proto");
    let expected = "syntax = \"proto3\";\n\n\
        package game.common;\n\n\
        message Ping {\n\tint32 value = 1;\n}\n\n\
        message Pong {\n\t.game.common.Ping ping = 2;\n}\n\n";
    assert_eq!(package.to_string(), expected);
}

#[test]
fn from_parsed_imports_other_packages() {
    let parsed = ParsedFile::from_tree(&node(
        Rule::File,
        vec![
            leaf(Rule::Comment, "// Namespace: Game.Common"),
            message_class(
                "Ping",
                "10",
                vec![number_field("ValueFieldNumber", "1"), backing_field("value_", "int"), accessor("Value", "int")],
            ),
            leaf(Rule::Comment, "// Namespace: Game.Fight"),
            message_class(
                "Hit",
                "11",
                vec![
                    number_field("PingFieldNumber", "1"),
                    backing_field("ping_", "Ping"),
                    accessor("Ping", "Ping"),
                    number_field("ExtraFieldNumber", "2"),
                    backing_field("extra_", "Any"),
                    accessor("Extra", "Any"),
                ],
            ),
        ],
    ));
    let packages = ProtoPackages::from_parsed(parsed, NamespaceFilter::new("Game").unwrap());
    let all = packages.packages();
    assert_eq!(all.len(), 2);
    let fight = all.iter().find(|p| p.name() == "game.fight").unwrap();
    let expected = "syntax = \"proto3\";\n\n\
        import \"game.common.proto\";\n\n\
        import \"google/protobuf/any.proto\";\n\n\
        package game.fight;\n\n\
        message Hit {\n\t.game.common.Ping ping = 1;\n\t.google.protobuf.Any extra = 2;\n}\n\n";
    assert_eq!(fight.to_string(), expected);
}

#[test]
fn namespace_filter_refuses_bad_pattern() {
    let err = NamespaceFilter::new("(unclosed").err().unwrap();
    assert!(!err.message.is_empty());
}

#[test]
fn try_from_parsed_gives_the_packages_of_a_sound_dump() {
    let parsed = ParsedFile::from_tree(&dump());
    let packages = ProtoPackages::try_from_parsed(parsed, NamespaceFilter::new("^Game").unwrap()).unwrap();
    assert_eq!(packages.packages().len(), 1);
    assert_eq!(packages.packages()[0].name(), "game.common");
}

#[test]
fn try_from_parsed_refuses_a_type_that_names_nothing() {
    let parsed = ParsedFile::from_tree(&node(
        Rule::File,
        vec![
            leaf(Rule::Comment, "// Namespace: Game"),
            message_class(
                "Lost",
                "10",
                vec![number_field("WhatFieldNumber", "1"), backing_field("what_", "Nowhere"), accessor("What", "Nowhere")],
            ),
        ],
    ));
    assert!(ProtoPackages::try_from_parsed(parsed, NamespaceFilter::new("Game").unwrap()).is_none());
}

#[test]
fn try_from_parsed_refuses_a_field_number_without_its_accessor() {
    let parsed = ParsedFile::from_tree(&node(
        Rule::File,
        vec![
            leaf(Rule::Comment, "// Namespace: Game"),
            message_class("Half", "10", vec![number_field("ValueFieldNumber", "1"), backing_field("value_", "int")]),
        ],
    ));
    assert!(ProtoPackages::try_from_parsed(parsed, NamespaceFilter::new("Game").unwrap()).is_none());
}

#[test]
fn try_from_parsed_skips_namespaces_the_filter_refuses() {
    let parsed = ParsedFile::from_tree(&node(
        Rule::File,
        vec![
            leaf(Rule::Comment, "// Namespace: Other"),
            message_class(
                "Lost",
                "10",
                vec![number_field("WhatFieldNumber", "1"), backing_field("what_", "Nowhere"), accessor("What", "Nowhere")],
            ),
        ],
    ));
    let packages = ProtoPackages::try_from_parsed(parsed, NamespaceFilter::new("^Game").unwrap()).unwrap();
    assert_eq!(packages.packages().len(), 0);
}
