use proto_gen::modules::{convert_case, decode_map_line, escape_ident, ModuleLine, ModuleNode};

#[test]
fn convert_case_lowers_inner_capitals() {
    assert_eq!(convert_case("HTTPRequest"), "HttpRequest");
    assert_eq!(convert_case("Ping"), "Ping");
    assert_eq!(convert_case("ABC"), "AbC");
}

#[test]
fn escape_ident_escapes_move() {
    assert_eq!(escape_ident("move"), "r#move");
    assert_eq!(escape_ident("game"), "game");
}

#[test]
fn module_tree_lines() {
    let root = ModuleNode::from_packages(vec![
        ("game.common".to_string(), vec![Some("Ping".to_string()), None]),
        ("google.protobuf".to_string(), vec![Some("Any".to_string())]),
        ("game.move".to_string(), vec![Some("Step".to_string())]),
    ]);
    let lines = root.generate_include();
    let texts: Vec<String> = lines
        .iter()
        .map(|l| match l {
            ModuleLine::Text(t) => t.clone(),
            ModuleLine::Generated(p) => format!("<{p}>\n"),
        })
        .collect();
    assert_eq!(texts[0], "#[doc(hidden)]\n");
    assert_eq!(texts[1], "pub mod game {\n");
    assert_eq!(texts[2], "pub mod common {\n");
    assert_eq!(texts[3], "<game.common>\n");
    assert_eq!(texts[4], "}\n");
    assert_eq!(texts[5], "pub mod r#move {\n");
    assert_eq!(texts[6], "<game.r#move>\n");
    assert_eq!(texts[7], "}\n");
    assert_eq!(texts[8], "}\n");
    assert_eq!(texts.len(), 10);
    assert!(texts[9].starts_with("static DECODE_MAP:"));
    assert!(texts[9].contains("type.ankama.com/game.common.Ping"));
    assert!(texts[9].contains("|bytes| Ok(Box::new(game::r#move::Step::decode(bytes)?))"));
    assert!(!texts[9].contains("google"));
}

#[test]
fn try_generate_include_refuses_a_repeated_type_url() {
    let root = ModuleNode::from_packages(vec![
        ("game".to_string(), vec![Some("Ping".to_string())]),
        ("game".to_string(), vec![Some("Ping".to_string())]),
    ]);
    assert!(root.try_generate_include().is_none());
}

#[test]
fn try_generate_include_ignores_repeats_under_google() {
    let root = ModuleNode::from_packages(vec![
        ("google.protobuf".to_string(), vec![Some("Any".to_string()), Some("Any".to_string())]),
        ("game".to_string(), vec![Some("Ping".to_string())]),
    ]);
    let lines = root.try_generate_include().unwrap();
    assert_eq!(lines.len(), 5);
}

#[test]
fn decode_map_line_wraps_the_built_code() {
    match decode_map_line("::phf::Map { }") {
        ModuleLine::Text(t) => assert_eq!(
            t,
            "static DECODE_MAP: phf::Map<&'static str, fn(&[u8]) -> Result<Box<dyn ::prost::Message>, DecodeError>> = ::phf::Map { };\n"
        ),
        ModuleLine::Generated(_) => panic!("a text line was expected"),
    }
}

#[test]
fn generate_include_writes_phf_map_code() {
    let root = ModuleNode::from_packages(vec![("game".to_string(), vec![Some("Ping".to_string())])]);
    let lines = root.generate_include();
    match lines.last().unwrap() {
        ModuleLine::Text(t) => assert!(t.contains("= ::phf::Map {\n    key: ")),
        ModuleLine::Generated(_) => panic!("a text line was expected"),
    }
}

#[test]
fn generate_include_lists_each_decode_map_entry() {
    let root = ModuleNode::from_packages(vec![
        ("game".to_string(), vec![Some("Ping".to_string()), Some("Pong".to_string())]),
    ]);
    let lines = root.generate_include();
    match lines.last().unwrap() {
        ModuleLine::Text(t) => {
            assert!(t.contains("\n        (\"type.ankama.com/game.Ping\", |bytes| Ok(Box::new(game::Ping::decode(bytes)?))),"));
            assert!(t.contains("\n        (\"type.ankama.com/game.Pong\", |bytes| Ok(Box::new(game::Pong::decode(bytes)?))),"));
            assert!(t.ends_with("\n    ],\n};\n"));
        },
        ModuleLine::Generated(_) => panic!("a text line was expected"),
    }
}
