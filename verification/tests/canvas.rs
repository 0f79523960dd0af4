use atomic_core::canvas::{
    build_cluster_labels, filter_top_k_edges, place_atoms, AtomCluster, CanvasAtomRow, CanvasCache,
    CanvasEdge, CANVAS_CACHE_DEBOUNCE, EDGES_PER_ATOM, MIN_CLUSTER_SIZE,
};
use atomic_core::embeddings::{le_word, plan_averages, ChunkRow};
use atomic_core::strmap::StrMap;

fn texts(list: &[&str]) -> Vec<String> {
    list.iter().map(|s| s.to_string()).collect()
}

fn edges(list: &[(&str, &str)]) -> Vec<CanvasEdge> {
    list.iter()
        .map(|(a, b)| CanvasEdge {
            source: a.to_string(),
            target: b.to_string(),
        })
        .collect()
}

fn row(id: &str) -> CanvasAtomRow {
    CanvasAtomRow {
        atom_id: id.to_string(),
        title: format!("title of {id}"),
        primary_tag: None,
        tag_count: 2,
        source_url: None,
    }
}

#[test]
fn canvas_rules_have_their_numbers() {
    assert_eq!((CANVAS_CACHE_DEBOUNCE, EDGES_PER_ATOM, MIN_CLUSTER_SIZE), (500, 2, 3));
}

#[test]
fn cache_keeps_a_stale_payload_until_rebuilt() {
    let mut cache: CanvasCache<u32> = CanvasCache::new();
    assert_eq!(cache.get(), None);
    cache.set(1);
    let ticket = cache.invalidate_debounced();
    assert_eq!(cache.get(), Some(&1));
    assert!(cache.is_current(ticket));
    cache.finish_rebuild(ticket, Some(2));
    assert_eq!(cache.get(), Some(&2));
    // A rebuild that failed leaves what is there.
    let ticket = cache.invalidate_debounced();
    cache.finish_rebuild(ticket, None);
    assert_eq!(cache.get(), Some(&2));
}

#[test]
fn only_the_latest_rebuild_counts() {
    let mut cache: CanvasCache<u32> = CanvasCache::new();
    cache.set(1);
    let first = cache.invalidate_debounced();
    let second = cache.invalidate_debounced();
    assert!(!cache.is_current(first) && cache.is_current(second));
    cache.finish_rebuild(first, Some(10));
    assert_eq!(cache.get(), Some(&1));
    cache.invalidate();
    assert_eq!(cache.get(), None);
    assert!(!cache.is_current(second));
    cache.finish_rebuild(second, Some(20));
    assert_eq!(cache.get(), None);
}

#[test]
fn atoms_without_a_projection_are_not_shown() {
    let mut tags = StrMap::new();
    tags.insert("a".to_string(), texts(&["t1", "t2"]));
    tags.insert("z".to_string(), texts(&["t9"]));
    let shown = place_atoms(
        vec![row("a"), row("hidden"), row("b"), row("a")],
        &texts(&["b", "a"]),
        tags,
    );
    let got: Vec<(&str, usize, Vec<String>)> = shown
        .iter()
        .map(|s| (s.row.atom_id.as_str(), s.position, s.tag_ids.clone()))
        .collect();
    // A second row of one atom finds its tags taken.
    assert_eq!(
        got,
        vec![
            ("a", 1, texts(&["t1", "t2"])),
            ("b", 0, vec![]),
            ("a", 1, vec![])
        ]
    );
}

#[test]
fn each_atom_has_at_most_so_many_edges() {
    let star = edges(&[("a", "b"), ("a", "c"), ("a", "d"), ("c", "d")]);
    assert_eq!(filter_top_k_edges(&star, 2), vec![0, 1, 3]);
    assert_eq!(filter_top_k_edges(&star, 1), vec![0, 3]);
    assert_eq!(filter_top_k_edges(&star, 3), vec![0, 1, 2, 3]);
    assert!(filter_top_k_edges(&star, 0).is_empty());
    assert!(filter_top_k_edges(&vec![], 2).is_empty());
    // An edge from an atom to itself takes two of its ends.
    let looped = edges(&[("a", "a"), ("a", "b")]);
    assert_eq!(filter_top_k_edges(&looped, 2), vec![0]);
}

#[test]
fn clusters_are_labelled_by_their_tags() {
    let cluster = |id: i32, atoms: &[&str], tags: &[&str]| AtomCluster {
        cluster_id: id,
        atom_ids: texts(atoms),
        dominant_tags: texts(tags),
    };
    let labels = build_cluster_labels(
        &vec![
            cluster(0, &["a", "x", "b"], &["Rust", "Go", "C"]),
            cluster(1, &["x", "y"], &["Lost"]),
            cluster(2, &["b"], &["Only"]),
            cluster(3, &["a"], &[]),
            cluster(-2, &["a"], &[]),
        ],
        &texts(&["a", "b"]),
    );
    let got: Vec<(&str, &str, i32, Vec<usize>)> = labels
        .iter()
        .map(|l| (l.id.as_str(), l.label.as_str(), l.atom_count, l.positions.clone()))
        .collect();
    assert_eq!(
        got,
        vec![
            ("cluster:0", "Rust, Go", 3, vec![0, 1]),
            ("cluster:2", "Only", 1, vec![1]),
            ("cluster:3", "Cluster 4", 1, vec![0]),
            ("cluster:-2", "Cluster -1", 1, vec![0]),
        ]
    );
    assert_eq!(labels[0].atom_ids, texts(&["a", "x", "b"]));
}

#[test]
fn embeddings_are_little_endian() {
    let mut blob = Vec::new();
    for x in [1.5f32, -0.25, f32::MAX] {
        blob.extend_from_slice(&x.to_le_bytes());
    }
    assert_eq!(f32::from_bits(le_word(&blob, 0)), 1.5);
    assert_eq!(f32::from_bits(le_word(&blob, 1)), -0.25);
    assert_eq!(f32::from_bits(le_word(&blob, 2)), f32::MAX);
}

#[test]
fn averages_are_of_chunks_of_one_dimension() {
    let chunk = |id: &str, len: usize| ChunkRow {
        atom_id: id.to_string(),
        blob_len: len,
    };
    let plans = plan_averages(&vec![
        chunk("a", 3),
        chunk("a", 8),
        chunk("a", 12),
        chunk("a", 8),
        chunk("b", 9),
        chunk("c", 2),
        chunk("b", 8),
        chunk("d", 5),
        chunk("e", 4),
    ]);
    let got: Vec<(&str, usize, Vec<usize>)> = plans
        .iter()
        .map(|p| (p.atom_id.as_str(), p.dim, p.rows.clone()))
        .collect();
    assert_eq!(
        got,
        vec![("a", 2, vec![1, 3]), ("b", 2, vec![6]), ("e", 1, vec![8])]
    );
    assert!(plan_averages(&vec![]).is_empty());
}
