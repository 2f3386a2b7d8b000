use proto_gen::protobuf::type_path::{calc_namespace_similarity, find_closest, PathKind, PathSim};

fn local(s: &str) -> PathKind {
    PathKind::Local(s.to_string())
}

#[test]
fn similarity_counts_shared_leading_names() {
    assert_eq!(calc_namespace_similarity("game.fight.common", "game.fight.ui"), 2);
    assert_eq!(calc_namespace_similarity("game", "other"), 0);
    assert_eq!(calc_namespace_similarity("a.b", "a.b"), 2);
}

#[test]
fn current_namespace_wins() {
    let paths = vec![local("game.other"), PathKind::Extern(".google.protobuf.Any".to_string(), "x".to_string()), local("game.fight")];
    assert!(matches!(find_closest(&paths, "game.fight"), PathKind::Local(n) if n == "game.fight"));
}

#[test]
fn outside_type_beats_other_namespaces() {
    let paths = vec![local("game.other"), PathKind::Extern(".google.protobuf.Any".to_string(), "x".to_string())];
    assert!(matches!(find_closest(&paths, "game.fight"), PathKind::Extern(n, _) if n == ".google.protobuf.Any"));
}

#[test]
fn closest_then_first_by_name() {
    let paths = vec![local("game.zeta"), local("game.alpha"), local("other.fight")];
    assert!(matches!(find_closest(&paths, "game.fight"), PathKind::Local(n) if n == "game.alpha"));
}

#[test]
fn sim_order() {
    assert_eq!(PathSim::sim(&local("a.b.c"), "a.b.d"), PathSim::Sim(2));
    assert_eq!(PathSim::sim(&local("a.b"), "a.b"), PathSim::Eq);
    assert_eq!(PathSim::Sim(3).cmp(&PathSim::Ext), std::cmp::Ordering::Less);
    assert_eq!(PathSim::Eq.cmp(&PathSim::Ext), std::cmp::Ordering::Greater);
    assert_eq!(PathSim::Sim(1).partial_cmp(&PathSim::Sim(1)), Some(std::cmp::Ordering::Equal));
}
