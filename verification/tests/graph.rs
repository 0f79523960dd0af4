use atomic_core::atoms::{Atom, AtomKind};
use atomic_core::graph::{
    at_depth, ids_of, join_atoms, join_edges, limit_atoms, meet_first_ring, meet_second_ring,
    EdgeKind, Met, PairRow,
};
use atomic_core::rows::{group_tags, kind_of, placeholders, ATOM_COLUMNS, ATOM_COLUMNS_A};
use atomic_core::strmap::StrMap;
use atomic_core::tags::Tag;

fn texts(list: &[&str]) -> Vec<String> {
    list.iter().map(|s| s.to_string()).collect()
}

fn met(list: &Vec<Met>) -> Vec<(&str, i32)> {
    list.iter().map(|m| (m.id.as_str(), m.depth)).collect()
}

fn tag(id: &str) -> Tag {
    Tag {
        id: id.to_string(),
        name: id.to_uppercase(),
        parent_id: None,
        created_at: "t".to_string(),
        is_autotag_target: false,
        autotag_description: String::new(),
    }
}

fn atom(id: &str) -> Atom {
    Atom {
        id: id.to_string(),
        content: format!("content of {id}"),
        title: String::new(),
        snippet: String::new(),
        source_url: None,
        source: None,
        published_at: None,
        created_at: String::new(),
        updated_at: String::new(),
        embedding_status: "complete".to_string(),
        tagging_status: "complete".to_string(),
        embedding_error: None,
        tagging_error: None,
        kind: AtomKind::Captured,
    }
}

fn pair(a: &str, b: &str, value: i32) -> PairRow {
    PairRow {
        a: a.to_string(),
        b: b.to_string(),
        value,
    }
}

#[test]
fn rings_grow_outwards() {
    let first = meet_first_ring("c", &texts(&["s", "t"]), &texts(&["t", "u", "c"]));
    assert_eq!(met(&first), vec![("c", 0), ("s", 1), ("t", 1), ("u", 1)]);
    assert_eq!(at_depth(&first, 1), texts(&["s", "t", "u"]));
    let second = meet_second_ring(first, &vec![texts(&["c", "x"]), texts(&["x", "t", "y"])]);
    assert_eq!(
        met(&second),
        vec![("c", 0), ("s", 1), ("t", 1), ("u", 1), ("x", 2), ("y", 2)]
    );
    assert_eq!(ids_of(&second), texts(&["c", "s", "t", "u", "x", "y"]));
}

#[test]
fn nearer_atoms_are_kept_first() {
    let many: Vec<String> = (0..25).map(|i| format!("n{i}")).collect();
    let ring = meet_first_ring("c", &many, &vec![]);
    assert_eq!(ring.len(), 26);
    let one = limit_atoms(ring, 1);
    assert_eq!(one.len(), 20);
    assert_eq!((one[0].id.as_str(), one[19].id.as_str()), ("c", "n18"));
    let ring = meet_first_ring("c", &many, &vec![]);
    let ring = meet_second_ring(ring, &vec![(0..9).map(|i| format!("m{i}")).collect()]);
    let two = limit_atoms(ring, 2);
    assert_eq!(two.len(), 30);
    assert_eq!((two[25].depth, two[26].depth, two[29].depth), (1, 2, 2));
}

#[test]
fn centre_stands_first_at_no_distance() {
    let many: Vec<String> = (0..40).map(|i| format!("n{}", i % 35)).collect();
    let lists = vec![texts(&["c", "n1", "far"]), texts(&["c"])];
    for depth in [1, 2] {
        let ring = meet_first_ring("c", &many, &texts(&["c", "n3"]));
        let ring = limit_atoms(meet_second_ring(ring, &lists), depth);
        assert_eq!((ring[0].id.as_str(), ring[0].depth), ("c", 0));
        assert!(ring[1..].iter().all(|m| m.id != "c" && m.depth > 0));
    }
}

#[test]
fn pairs_have_one_edge() {
    let ids = texts(&["a", "b", "c"]);
    let similar = vec![pair("a", "b", 0), pair("b", "a", 1), pair("a", "a", 2), pair("a", "b", 3)];
    let shared = vec![pair("a", "b", 4), pair("b", "c", 1), pair("c", "c", 9)];
    let edges = join_edges(&ids, &similar, &shared);
    let ends: Vec<(&str, &str)> = edges
        .iter()
        .map(|e| (e.source_id.as_str(), e.target_id.as_str()))
        .collect();
    assert_eq!(ends, vec![("a", "b"), ("b", "c")]);
}

#[test]
fn atoms_come_with_their_tags() {
    let mut tags = StrMap::new();
    tags.insert("b".to_string(), vec![tag("t1"), tag("t2")]);
    let chosen = meet_first_ring("a", &texts(&["gone", "b"]), &vec![]);
    let joined = join_atoms(&chosen, &vec![atom("b"), atom("a")], &tags);
    assert_eq!(joined.len(), 2);
    assert_eq!((joined[0].atom.atom.id.as_str(), joined[0].depth), ("a", 0));
    assert!(joined[0].atom.tags.is_empty());
    assert_eq!((joined[1].atom.atom.content.as_str(), joined[1].depth), ("content of b", 1));
    assert_eq!(joined[1].atom.tags[1].name, "T2");
}

#[test]
fn edges_join_likeness_and_tags() {
    let ids = texts(&["b", "a", "c"]);
    let similar = vec![pair("a", "b", 70), pair("c", "a", 71)];
    let shared = vec![pair("a", "b", 2), pair("b", "c", 5)];
    let edges = join_edges(&ids, &similar, &shared);
    let got: Vec<(&str, &str, EdgeKind, i32, Option<i32>)> = edges
        .iter()
        .map(|e| {
            (
                e.source_id.as_str(),
                e.target_id.as_str(),
                e.kind,
                e.shared_tag_count,
                e.similarity_row,
            )
        })
        .collect();
    assert_eq!(
        got,
        vec![
            ("b", "a", EdgeKind::Both, 2, Some(70)),
            ("b", "c", EdgeKind::Tag, 5, None),
            ("a", "c", EdgeKind::Semantic, 0, Some(71)),
        ]
    );
    assert_eq!(EdgeKind::Both.name(), "both");
    assert_eq!(EdgeKind::Semantic.name(), "semantic");
    assert_eq!(EdgeKind::Tag.name(), "tag");
    assert!(join_edges(&ids, &vec![], &vec![pair("b", "a", 3)]).is_empty());
}

#[test]
fn columns_are_the_same_with_an_alias() {
    assert_eq!(ATOM_COLUMNS.matches(", ").count(), 16);
    assert!(ATOM_COLUMNS.starts_with("id, content, title, snippet, source_url, source, "));
    assert!(ATOM_COLUMNS.ends_with("COALESCE(kind, 'captured')"));
    assert_eq!(ATOM_COLUMNS_A.replace("a.", ""), ATOM_COLUMNS);
}

#[test]
fn placeholders_are_joined_by_commas() {
    assert_eq!(placeholders(0), "");
    assert_eq!(placeholders(1), "?");
    assert_eq!(placeholders(3), "?,?,?");
}

#[test]
fn unknown_kind_is_captured() {
    assert_eq!(kind_of("captured"), AtomKind::Captured);
    assert_eq!(kind_of("report"), AtomKind::Report);
    assert_eq!(kind_of("else"), AtomKind::Captured);
}

#[test]
fn tags_are_grouped_by_atom() {
    let map = group_tags(vec![
        ("a".to_string(), tag("t1")),
        ("b".to_string(), tag("t2")),
        ("a".to_string(), tag("t3")),
    ]);
    assert_eq!(map.len(), 2);
    let names: Vec<&str> = map.get("a").unwrap().iter().map(|t| t.id.as_str()).collect();
    assert_eq!(names, vec!["t1", "t3"]);
    assert_eq!(map.get("b").unwrap().len(), 1);
    assert!(map.get("c").is_none());
}
