use proto_gen::protobuf::type_path::TypePath;

#[test]
fn try_from_str_drops_types_parts() {
    let p = TypePath::try_from_str("Outer.Types.Inner").unwrap();
    assert_eq!(p.to_owned(), vec!["Outer".to_string(), "Inner".to_string()]);
    assert!(p.is_nested());
    assert_eq!(p.joined(), "Outer.Inner");
}

#[test]
fn try_from_str_refuses_empty_parts() {
    assert!(TypePath::try_from_str("").is_err());
    assert!(TypePath::try_from_str("A..B").is_err());
}

#[test]
fn try_from_str_accepts_oneof_case() {
    let p = TypePath::try_from_str("Outer.KindOneofCase").unwrap();
    assert!(p.is_onecase());
    assert!(TypePath::try_from_str("Outer.Kind").is_err());
}

#[test]
fn index_range_takes_the_names_between_its_bounds() {
    let path = || TypePath::try_from_str("A.Types.B.Types.C.Types.D").unwrap();
    assert_eq!(path().index_range(1, 3).to_owned(), vec!["B".to_string(), "C".to_string()]);
    assert_eq!(path().index_range(1, 4).to_owned(), vec!["B".to_string(), "C".to_string(), "D".to_string()]);
    assert!(path().index_range(2, 2).is_empty());
}

#[test]
fn nested_names_read_back_as_written() {
    let names = ["Outer", "Middle", "Types", "Inner"];
    let p = TypePath::try_from_str(&names.join(".Types.")).unwrap();
    assert_eq!(p.to_owned(), names.iter().map(|s| s.to_string()).collect::<Vec<_>>());
    assert_eq!(p.joined(), names.join("."));
}
