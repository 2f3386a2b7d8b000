use proto_gen::parser::common::{Literal, Visibility};
use proto_gen::parser::data_structs::{
    Class, ClassModifier, DataStruct, DataStructInner, Enum, Field, FieldModifier, Method, Property, PropertyKind,
};
use proto_gen::syntax::{Error, Pair, Rule};

fn leaf(rule: Rule, text: &str) -> Pair {
    Pair { rule, text: text.to_string(), inner: vec![] }
}

fn node(rule: Rule, inner: Vec<Pair>) -> Pair {
    Pair { rule, text: String::new(), inner }
}

#[test]
fn field_reads_all_parts() {
    let f = Field::try_from(&node(
        Rule::Field,
        vec![
            leaf(Rule::Comment, "// a comment"),
            leaf(Rule::ModifierVisibility, "public"),
            leaf(Rule::FieldModifier, "const"),
            leaf(Rule::FieldModifier, "static"),
            leaf(Rule::Type, "int"),
            leaf(Rule::Ident, "IdFieldNumber"),
            node(Rule::FieldAssignValue, vec![node(Rule::Value, vec![leaf(Rule::Number, "7")])]),
        ],
    ))
    .unwrap();
    assert_eq!(f.ty, "int");
    assert_eq!(f.name, "IdFieldNumber");
    assert!(matches!(f.visibility, Visibility::Public));
    assert_eq!(f.modifiers, vec![FieldModifier::Const, FieldModifier::Static]);
    assert!(matches!(f.assign_value, Some(Literal::Number(ref n)) if n == "7"));
}

#[test]
fn field_without_name_names_the_missing_part() {
    let err = Field::try_from(&node(
        Rule::Field,
        vec![leaf(Rule::ModifierVisibility, "private"), leaf(Rule::Type, "int")],
    ))
    .err()
    .unwrap();
    assert!(matches!(err, Error::Builder(ref n) if n == "name"));
}

#[test]
fn field_of_other_rule_is_refused() {
    let err = Field::try_from(&leaf(Rule::Ident, "x")).err().unwrap();
    assert!(matches!(err, Error::UnexpectedRule(Rule::Field, Rule::Ident)));
}

#[test]
fn field_with_unexpected_node_is_refused() {
    let err = Field::try_from(&node(Rule::Field, vec![leaf(Rule::Class, "x")])).err().unwrap();
    assert!(matches!(err, Error::UnexpectedInnerRule(Rule::Field, Rule::Class)));
}

#[test]
fn method_reads_parameters() {
    let m = Method::try_from(&node(
        Rule::Method,
        vec![
            leaf(Rule::ModifierVisibility, "public"),
            leaf(Rule::MethodModifier, "override"),
            leaf(Rule::Type, "void"),
            leaf(Rule::Ident, "MergeFrom"),
            node(
                Rule::MethodParams,
                vec![node(Rule::MethodParam, vec![leaf(Rule::Type, "Ping"), leaf(Rule::Ident, "other")])],
            ),
            leaf(Rule::MethodBody, "{ }"),
        ],
    ))
    .unwrap();
    assert_eq!(m.name, "MergeFrom");
    assert_eq!(m.params.len(), 1);
    assert_eq!(m.params[0].ty, "Ping");
    assert_eq!(m.params[0].name.as_deref(), Some("other"));
}

#[test]
fn property_reads_accessors() {
    let p = Property::try_from(&node(
        Rule::Property,
        vec![
            leaf(Rule::ModifierVisibility, "public"),
            leaf(Rule::Type, "int"),
            leaf(Rule::Ident, "Value"),
            node(Rule::PropertyBody, vec![leaf(Rule::PropertyKind, "get"), leaf(Rule::PropertyKind, "set")]),
        ],
    ))
    .unwrap();
    assert_eq!(p.kinds, vec![PropertyKind::Getter, PropertyKind::Setter]);
}

#[test]
fn enum_members_take_their_attributes() {
    let e = Enum::try_from(&node(
        Rule::Enum,
        vec![
            leaf(Rule::Comment, "// TypeDefIndex: 42"),
            leaf(Rule::ModifierVisibility, "public"),
            leaf(Rule::Ident, "Color"),
            node(
                Rule::EnumBody,
                vec![
                    leaf(Rule::Attribute, "[OriginalName(\"RED\")]"),
                    node(
                        Rule::Field,
                        vec![
                            leaf(Rule::ModifierVisibility, "public"),
                            leaf(Rule::Type, "Color"),
                            leaf(Rule::Ident, "Red"),
                            node(Rule::FieldAssignValue, vec![node(Rule::Value, vec![leaf(Rule::Number, "0")])]),
                        ],
                    ),
                    node(
                        Rule::Field,
                        vec![leaf(Rule::ModifierVisibility, "public"), leaf(Rule::Type, "Color"), leaf(Rule::Ident, "Green")],
                    ),
                ],
            ),
        ],
    ))
    .unwrap();
    assert_eq!(e.name, "Color");
    assert_eq!(e.type_index, Some(42));
    assert_eq!(e.members.len(), 2);
    assert_eq!(e.members[0].attributes.len(), 1);
    assert_eq!(e.members[1].attributes.len(), 0);
}

#[test]
fn bad_type_index_is_an_invalid_token() {
    let err = Enum::try_from(&node(Rule::Enum, vec![leaf(Rule::Comment, "// TypeDefIndex: x1")])).err().unwrap();
    assert!(matches!(err, Error::InvalidToken(Rule::Comment, ref t) if t == "x1"));
}

#[test]
fn class_reads_body_and_interfaces() {
    let c = Class::try_from(&node(
        Rule::Class,
        vec![
            leaf(Rule::ModifierVisibility, "internal"),
            leaf(Rule::ClassModifier, "abstract"),
            leaf(Rule::Ident, "Base"),
            node(Rule::ClassInterfaces, vec![leaf(Rule::Ident, "IMessage"), leaf(Rule::Ident, "IDisposable")]),
            node(
                Rule::ClassBody,
                vec![node(
                    Rule::ClassMember,
                    vec![
                        leaf(Rule::Attribute, "[Debugger]"),
                        node(
                            Rule::Field,
                            vec![leaf(Rule::ModifierVisibility, "private"), leaf(Rule::Type, "int"), leaf(Rule::Ident, "x_")],
                        ),
                    ],
                )],
            ),
        ],
    ))
    .unwrap();
    assert_eq!(c.name, "Base");
    assert_eq!(c.modifier, Some(ClassModifier::Abstract));
    assert_eq!(c.interfaces, vec!["IMessage".to_string(), "IDisposable".to_string()]);
    assert_eq!(c.fields.len(), 1);
    assert_eq!(c.type_index, None);
}

#[test]
fn class_without_visibility_names_it() {
    let err = Class::try_from(&node(Rule::Class, vec![leaf(Rule::Ident, "Base")])).err().unwrap();
    assert!(matches!(err, Error::Builder(ref n) if n == "visibility"));
}

#[test]
fn data_struct_keeps_leading_attributes() {
    let d = DataStruct::try_from(&node(
        Rule::FileMember,
        vec![leaf(Rule::Attribute, "[Serializable]"), leaf(Rule::Struct, "struct S {}")],
    ))
    .unwrap();
    assert_eq!(d.attributes.len(), 1);
    assert!(matches!(d.kind, DataStructInner::Struct));
    assert!(d.namespace.is_none());
}

#[test]
fn data_struct_refuses_unknown_kind() {
    let err = DataStruct::try_from(&node(Rule::FileMember, vec![leaf(Rule::Method, "m")])).err().unwrap();
    assert!(matches!(err, Error::UnexpectedInnerRule(Rule::FileMember, Rule::Method)));
}

#[test]
fn keyword_readers() {
    assert!(matches!(FieldModifier::try_from(&leaf(Rule::FieldModifier, "readonly")), Ok(FieldModifier::ReadOnly)));
    assert!(matches!(
        FieldModifier::try_from(&leaf(Rule::FieldModifier, "volatile")),
        Err(Error::InvalidToken(Rule::FieldModifier, _))
    ));
    assert!(matches!(Visibility::try_from(&leaf(Rule::ModifierVisibility, "protected internal")), Ok(Visibility::ProtectedInternal)));
}

#[test]
fn field_read_halts_on_an_unknown_visibility() {
    let pair = node(Rule::Field, vec![leaf(Rule::ModifierVisibility, "hidden"), leaf(Rule::Type, "int"), leaf(Rule::Ident, "x")]);
    assert!(Field::read(&pair).is_none());
    let ok = node(Rule::Field, vec![leaf(Rule::ModifierVisibility, "public"), leaf(Rule::Type, "int"), leaf(Rule::Ident, "x")]);
    assert!(matches!(Field::read(&ok), Some(Ok(_))));
}

#[test]
fn method_read_halts_on_an_empty_default_value() {
    let pair = node(
        Rule::Method,
        vec![
            leaf(Rule::ModifierVisibility, "public"),
            leaf(Rule::Type, "void"),
            leaf(Rule::Ident, "Go"),
            node(
                Rule::MethodParams,
                vec![node(
                    Rule::MethodParam,
                    vec![leaf(Rule::Type, "int"), leaf(Rule::Ident, "a"), node(Rule::FieldAssignValue, vec![node(Rule::Value, vec![])])],
                )],
            ),
        ],
    );
    assert!(Method::read(&pair).is_none());
}

#[test]
fn data_struct_read_halts_without_a_kind() {
    let only_attributes = node(Rule::FileMember, vec![leaf(Rule::Attribute, "[Serializable]")]);
    assert!(DataStruct::read(&only_attributes).is_none());
    let other_rule = node(Rule::Class, vec![]);
    assert!(DataStruct::read(&other_rule).is_none());
}

#[test]
fn try_from_tree_halts_on_a_member_that_cannot_be_read() {
    let bad = node(
        Rule::File,
        vec![node(
            Rule::FileMember,
            vec![node(Rule::Enum, vec![leaf(Rule::ModifierVisibility, "nowhere"), leaf(Rule::Ident, "E")])],
        )],
    );
    assert!(proto_gen::parser::file::ParsedFile::try_from_tree(&bad).is_none());
    let stray = node(Rule::File, vec![leaf(Rule::Ident, "stray")]);
    assert!(proto_gen::parser::file::ParsedFile::try_from_tree(&stray).is_none());
    let fine = node(
        Rule::File,
        vec![
            leaf(Rule::Comment, "// Namespace: Game"),
            node(Rule::FileMember, vec![node(Rule::Enum, vec![leaf(Rule::ModifierVisibility, "public"), leaf(Rule::Ident, "E")])]),
            leaf(Rule::Eoi, ""),
        ],
    );
    let file = proto_gen::parser::file::ParsedFile::try_from_tree(&fine).unwrap();
    assert_eq!(file.members.len(), 1);
    assert_eq!(file.members[0].namespace.as_deref(), Some("Game"));
}

#[test]
fn data_struct_read_stops_on_an_error_inside_the_kind() {
    let pair = node(Rule::FileMember, vec![node(Rule::Enum, vec![leaf(Rule::ModifierVisibility, "public")])]);
    assert!(matches!(DataStruct::read(&pair), Some(Err(Error::Builder(ref n))) if n == "name"));
}
