use proto_gen::parser::common::{Attribute, Literal, Visibility};
use proto_gen::parser::data_structs::{Enum, EnumMember, Field, FieldModifier};
use proto_gen::protobuf::builders::field::GenField;
use proto_gen::protobuf::proto_enum::{members_ok, original_name, original_name_fits, ProtoEnum};
use proto_gen::protobuf::render::DisplayWithTabs;
use proto_gen::protobuf::message::field::{Field as ProtoField, NormalField};
use proto_gen::protobuf::message::{PackageMember, ProtoMessage, Unresolved};

fn field(vis: Visibility, modifiers: Vec<FieldModifier>, ty: &str, name: &str, value: Option<Literal>) -> Field {
    Field { ty: ty.to_string(), name: name.to_string(), visibility: vis, modifiers, assign_value: value }
}

#[test]
fn gen_field_number() {
    let f = field(
        Visibility::Public,
        vec![FieldModifier::Const],
        "int",
        "PlayerIdFieldNumber",
        Some(Literal::Number("3".to_string())),
    );
    assert!(matches!(GenField::try_from(f), Ok(GenField::Number(ref n, 3)) if n == "player_id"));
}

#[test]
fn gen_field_plain_repeated_and_map() {
    let plain = field(Visibility::Private, vec![], "string", "playerName_", None);
    assert!(matches!(GenField::try_from(plain), Ok(GenField::Type(ref n, ref t)) if n == "player_name" && t == "string"));
    let repeated = field(Visibility::Private, vec![FieldModifier::ReadOnly], "RepeatedField<int>", "items_", None);
    assert!(matches!(GenField::try_from(repeated), Ok(GenField::RepeatedType(ref n, ref t)) if n == "items" && t == "int"));
    let map = field(Visibility::Private, vec![FieldModifier::ReadOnly], "MapField<int, string>", "names_", None);
    assert!(matches!(GenField::try_from(map), Ok(GenField::MapType(ref n, ref t)) if n == "names" && t == "int, string"));
}

#[test]
fn gen_field_blankets_and_refusal() {
    let parser = field(Visibility::Private, vec![FieldModifier::Static, FieldModifier::ReadOnly], "MessageParser<Ping>", "_parser", None);
    assert!(matches!(GenField::try_from(parser), Ok(GenField::Blanket)));
    let other = field(Visibility::Public, vec![], "int", "Count", None);
    assert!(GenField::try_from(other).is_err());
}

fn member(name: &str, number: Option<&str>, attributes: Vec<&str>) -> EnumMember {
    EnumMember {
        field: field(Visibility::Public, vec![], "Color", name, number.map(|n| Literal::Number(n.to_string()))),
        attributes: attributes.into_iter().map(|a| Attribute(a.to_string())).collect(),
    }
}

#[test]
fn proto_enum_takes_original_names_and_skips_value() {
    let e = Enum {
        visibility: Visibility::Public,
        name: "Color".to_string(),
        type_index: Some(5),
        members: vec![
            member("value__", None, vec![]),
            member("Red", Some("0"), vec!["[OriginalName(\"COLOR_RED\")]"]),
            member("Green", Some("1"), vec![]),
        ],
    };
    let p = ProtoEnum::from(e);
    assert_eq!(p.display_with_tabs(1), "\tenum Color {\n\t\tCOLOR_RED = 0;\n\t\tGreen = 1;\n\t}\n");
}

#[test]
fn original_name_cuts_the_attribute() {
    let attrs = vec![Attribute("[Other]".to_string()), Attribute("[OriginalName(\"UNKNOWN\")]".to_string())];
    assert_eq!(original_name(&attrs).as_deref(), Some("UNKNOWN"));
    assert_eq!(original_name(&vec![]), None);
}

#[test]
fn number_unfit_flags_a_number_beyond_u32() {
    let big = field(
        Visibility::Public,
        vec![FieldModifier::Const],
        "int",
        "HugeFieldNumber",
        Some(Literal::Number("4294967296".to_string())),
    );
    assert!(GenField::number_unfit(&big));
    let fine = field(
        Visibility::Public,
        vec![FieldModifier::Const],
        "int",
        "SmallFieldNumber",
        Some(Literal::Number("7".to_string())),
    );
    assert!(!GenField::number_unfit(&fine));
    let plain = field(Visibility::Private, vec![], "string", "name_", None);
    assert!(!GenField::number_unfit(&plain));
}

#[test]
fn members_ok_needs_values_and_cuttable_names() {
    let good = Enum {
        visibility: Visibility::Public,
        name: "Color".to_string(),
        type_index: Some(5),
        members: vec![member("value__", None, vec![]), member("Red", Some("0"), vec![])],
    };
    assert!(members_ok(&good));
    let no_value = Enum {
        visibility: Visibility::Public,
        name: "Color".to_string(),
        type_index: Some(5),
        members: vec![member("Red", None, vec![])],
    };
    assert!(!members_ok(&no_value));
    let short_name = Enum {
        visibility: Visibility::Public,
        name: "Color".to_string(),
        type_index: Some(5),
        members: vec![member("Red", Some("0"), vec!["[OriginalName]"])],
    };
    assert!(!members_ok(&short_name));
}

#[test]
fn original_name_fits_checks_only_the_first_original_name() {
    let attrs = vec![Attribute("[OriginalName(\"A\")]".to_string()), Attribute("[OriginalName]".to_string())];
    assert!(original_name_fits(&attrs));
    let attrs = vec![Attribute("[OriginalName]".to_string()), Attribute("[OriginalName(\"A\")]".to_string())];
    assert!(!original_name_fits(&attrs));
    assert!(original_name_fits(&vec![Attribute("[Other]".to_string())]));
}

#[test]
fn package_member_contains_for_enums_and_messages() {
    let e = Enum { visibility: Visibility::Public, name: "Color".to_string(), type_index: Some(5), members: vec![] };
    let member: PackageMember<Unresolved> = PackageMember::from_enum(ProtoEnum::from(e));
    assert!(!member.contains(&vec![]));
    assert!(member.contains(&vec!["Color".to_string()]));
    assert!(!member.contains(&vec!["Color".to_string(), "Red".to_string()]));
    let inner: PackageMember<Unresolved> = PackageMember::from_message(ProtoMessage::new("Inner".to_string(), vec![], vec![]));
    let outer: PackageMember<Unresolved> = PackageMember::from_message(ProtoMessage::new("Outer".to_string(), vec![], vec![inner]));
    assert!(outer.contains(&vec!["Outer".to_string(), "Inner".to_string()]));
    assert!(!outer.contains(&vec!["Inner".to_string()]));
}

#[test]
fn set_custom_types_renames_in_place() {
    let mut f = ProtoField::OneOf(
        "data".to_string(),
        vec![
            NormalField::new(&"int".to_string(), "a".to_string(), 1),
            NormalField::new(&"Foo".to_string(), "b".to_string(), 2),
            NormalField::new(&"Bar".to_string(), "c".to_string(), 3),
        ],
    );
    assert_eq!(f.custom_types(), vec!["Foo".to_string(), "Bar".to_string()]);
    f.set_custom_types(&vec![".pkg.Foo".to_string(), ".pkg.Bar".to_string()]);
    assert_eq!(f.custom_types(), vec![".pkg.Foo".to_string(), ".pkg.Bar".to_string()]);
}
