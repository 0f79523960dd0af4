use atomic_core::strmap::StrMap;
use atomic_core::tags::{build_tag_tree_with_counts, checked_tag_tree, Tag, TagWithCount};

fn tag(id: &str, parent: Option<&str>) -> Tag {
    Tag {
        id: id.to_string(),
        name: format!("name of {id}"),
        parent_id: parent.map(|p| p.to_string()),
        created_at: "t".to_string(),
        is_autotag_target: true,
        autotag_description: "about".to_string(),
    }
}

fn counts(list: &[(&str, i32)]) -> StrMap<i32> {
    let mut m = StrMap::new();
    for (k, v) in list {
        m.insert(k.to_string(), *v);
    }
    m
}

fn show(nodes: &[TagWithCount]) -> String {
    let parts: Vec<String> = nodes
        .iter()
        .map(|n| {
            format!(
                "{}:{}/{}({})",
                n.tag.id,
                n.atom_count,
                n.children_total,
                show(&n.children)
            )
        })
        .collect();
    parts.join(" ")
}

fn forest() -> Vec<Tag> {
    vec![
        tag("topics", None),
        tag("people", None),
        tag("ai", Some("topics")),
        tag("ml", Some("ai")),
        tag("web", Some("topics")),
        tag("lost", Some("nowhere")),
    ]
}

#[test]
fn counts_add_up_to_the_roots() {
    let direct = counts(&[("topics", 1), ("ai", 2), ("ml", 4), ("web", 8), ("people", 3), ("lost", 9)]);
    assert_eq!(
        show(&build_tag_tree_with_counts(&forest(), None, &direct, 0)),
        "topics:15/2(web:8/0() ai:6/1(ml:4/0())) people:3/0()"
    );
}

#[test]
fn small_leaves_are_pruned() {
    let direct = counts(&[("ai", 1), ("ml", 2), ("web", 1)]);
    // A parent of what is kept stays; a root that is a small leaf does not.
    assert_eq!(
        show(&build_tag_tree_with_counts(&forest(), None, &direct, 2)),
        "topics:3/2(ai:3/1(ml:2/0()))"
    );
    // What is pruned counts for nothing above it.
    assert_eq!(show(&build_tag_tree_with_counts(&forest(), None, &direct, 3)), "");
    let lone = vec![tag("r", None)];
    assert!(build_tag_tree_with_counts(&lone, None, &counts(&[]), 5).is_empty());
    assert_eq!(
        show(&build_tag_tree_with_counts(&lone, None, &counts(&[("r", 5)]), 5)),
        "r:5/0()"
    );
    // What holds a large tag up is kept, however little it counts itself.
    let large = counts(&[("ml", 9), ("web", 1)]);
    assert_eq!(
        show(&build_tag_tree_with_counts(&forest(), None, &large, 9)),
        "topics:9/2(ai:9/1(ml:9/0()))"
    );
    assert_eq!(
        show(&build_tag_tree_with_counts(&forest(), None, &direct, -5)),
        "topics:4/2(ai:3/1(ml:2/0()) web:1/0()) people:0/0()"
    );
}

#[test]
fn equal_counts_keep_their_order() {
    let tags = vec![tag("b", None), tag("a", None), tag("c", None)];
    let direct = counts(&[("c", 1)]);
    assert_eq!(
        show(&build_tag_tree_with_counts(&tags, None, &direct, 0)),
        "c:1/0() b:0/0() a:0/0()"
    );
}

#[test]
fn tags_are_copied_whole() {
    let nodes = build_tag_tree_with_counts(&[tag("a", None)], Some("ignored"), &counts(&[]), 0);
    assert_eq!(nodes[0].tag.name, "name of a");
    assert_eq!(nodes[0].tag.autotag_description, "about");
    assert!(nodes[0].tag.is_autotag_target && nodes[0].tag.parent_id.is_none());
}

#[test]
fn trees_that_cannot_be_built_are_refused() {
    let direct = counts(&[("topics", 1)]);
    assert!(checked_tag_tree(&forest(), &direct, 0).is_some());
    // The sum does not fit.
    let big = counts(&[("topics", i32::MAX), ("ai", 1)]);
    assert!(checked_tag_tree(&forest(), &big, 0).is_none());
    // A circle that no root leads to is never met.
    let apart = vec![tag("r", None), tag("x", Some("y")), tag("y", Some("x"))];
    assert_eq!(
        show(&checked_tag_tree(&apart, &counts(&[]), 0).unwrap()),
        "r:0/0()"
    );
}
