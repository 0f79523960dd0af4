use atomic_core::atoms::{
    check_bulk_size, finish_create_atoms_bulk, pipeline_job, pipeline_jobs, plan_create_atom,
    plan_create_atom_as, plan_create_atoms_bulk, plan_create_atoms_bulk_as, select_new,
    source_to_check, sources_to_check, Atom, AtomKind, AtomWithTags, CreateAtomRequest,
    MAX_BULK_ATOMS,
};
use atomic_core::error::AtomicCoreError;

fn request(content: &str, url: Option<&str>, skip: bool) -> CreateAtomRequest {
    CreateAtomRequest {
        content: content.to_string(),
        source_url: url.map(|u| u.to_string()),
        skip_if_source_exists: skip,
        ..Default::default()
    }
}

fn inserted(id: &str) -> AtomWithTags {
    AtomWithTags {
        atom: Atom {
            id: id.to_string(),
            content: String::new(),
            title: String::new(),
            snippet: String::new(),
            source_url: None,
            source: None,
            published_at: None,
            created_at: String::new(),
            updated_at: String::new(),
            embedding_status: "pending".to_string(),
            tagging_status: "pending".to_string(),
            embedding_error: None,
            tagging_error: None,
            kind: AtomKind::Captured,
        },
        tags: vec![],
    }
}

fn message(r: Result<(), AtomicCoreError>) -> String {
    match r {
        Err(AtomicCoreError::Validation(m)) => m,
        _ => panic!("Wrong result"),
    }
}

#[test]
fn default_request_is_empty() {
    let r = CreateAtomRequest::default();
    assert!(r.content.is_empty() && r.source_url.is_none() && r.published_at.is_none());
    assert!(r.tag_ids.is_empty() && !r.skip_if_source_exists);
}

#[test]
fn source_is_checked_only_when_flagged() {
    assert_eq!(source_to_check(&request("x", Some("u"), true)), Some("u".to_string()));
    assert_eq!(source_to_check(&request("x", Some("u"), false)), None);
    assert_eq!(source_to_check(&request("x", None, true)), None);
}

#[test]
fn new_atom_is_queued_unless_blank() {
    let plan = plan_create_atom_as(
        &request("hello", None, false),
        false,
        "a1".to_string(),
        "now".to_string(),
    )
    .unwrap();
    assert_eq!((plan.id.as_str(), plan.created_at.as_str()), ("a1", "now"));
    let job = plan.job.unwrap();
    assert_eq!(job.atom_id, "a1");
    assert_eq!(job.reason, "create_atom");
    assert!(job.embed_requested && job.tag_requested && !job.replace_existing);
    assert!(job.not_before.is_none());
    let blank = plan_create_atom_as(
        &request(" \n\u{a0}", None, false),
        false,
        "a1".to_string(),
        "now".to_string(),
    )
    .unwrap();
    assert!(blank.job.is_none());
}

#[test]
fn known_source_is_skipped_when_flagged() {
    assert!(plan_create_atom(&request("x", Some("u"), true), true).is_none());
    assert!(plan_create_atom(&request("x", Some("u"), false), true).is_some());
    assert!(plan_create_atom(&request("x", None, true), true).is_some());
    assert!(plan_create_atom(&request("x", Some("u"), true), false).is_some());
}

#[test]
fn fresh_ids_are_random_uuids() {
    let a = plan_create_atom(&request("x", None, false), false).unwrap();
    let b = plan_create_atom(&request("x", None, false), false).unwrap();
    assert_ne!(a.id, b.id);
    let parsed = uuid::Uuid::parse_str(&a.id).unwrap();
    assert_eq!(parsed.get_version_num(), 4);
    assert_eq!(parsed.to_string(), a.id);
    let at = chrono::DateTime::parse_from_rfc3339(&a.created_at).unwrap();
    assert_eq!(at.to_rfc3339(), a.created_at);
}

#[test]
fn bulk_takes_one_to_a_thousand() {
    assert_eq!(MAX_BULK_ATOMS, 1000);
    assert_eq!(message(check_bulk_size(0)), "At least one atom is required");
    assert_eq!(message(check_bulk_size(1001)), "Maximum 1000 atoms per bulk create");
    assert!(check_bulk_size(1).is_ok());
    assert!(check_bulk_size(1000).is_ok());
}

#[test]
fn bulk_looks_up_the_flagged_sources() {
    let requests = vec![
        request("a", Some("u1"), true),
        request("b", Some("u2"), false),
        request("c", None, true),
        request("d", Some("u1"), true),
    ];
    assert_eq!(
        sources_to_check(&requests),
        Some(vec!["u1".to_string(), "u1".to_string()])
    );
    assert_eq!(sources_to_check(&vec![request("b", Some("u2"), false)]), None);
    assert_eq!(sources_to_check(&vec![request("c", None, true)]), Some(vec![]));
}

#[test]
fn bulk_skips_flagged_duplicates_only() {
    let requests = vec![
        request("a", Some("u1"), true),
        request("b", Some("u1"), false),
        request("c", Some("u2"), true),
        request("d", None, true),
    ];
    let existing = vec!["u1".to_string()];
    let (kept, skipped) = select_new(requests.clone(), &existing);
    let contents: Vec<&str> = kept.iter().map(|r| r.content.as_str()).collect();
    assert_eq!(contents, vec!["b", "c", "d"]);
    assert_eq!(skipped, 1);
    let plan = plan_create_atoms_bulk(requests, &existing);
    assert_eq!(plan.skipped, 1);
    assert_eq!(plan.atoms.len(), 3);
    // One moment for all, an id for each.
    assert_eq!(plan.atoms[0].2, plan.atoms[2].2);
    assert_ne!(plan.atoms[0].0, plan.atoms[1].0);
    for (id, _, _) in &plan.atoms {
        assert!(uuid::Uuid::parse_str(id).is_ok());
    }
}

#[test]
fn bulk_takes_the_ids_in_order() {
    let requests = vec![
        request("a", Some("u1"), true),
        request("b", None, false),
        request("c", None, false),
    ];
    let ids = vec!["i1".to_string(), "i2".to_string(), "i3".to_string()];
    let plan =
        plan_create_atoms_bulk_as(requests, &vec!["u1".to_string()], ids, "now".to_string());
    let atoms: Vec<(&str, &str, &str)> = plan
        .atoms
        .iter()
        .map(|(id, r, t)| (id.as_str(), r.content.as_str(), t.as_str()))
        .collect();
    assert_eq!(atoms, vec![("i1", "b", "now"), ("i2", "c", "now")]);
    assert_eq!(plan.skipped, 1);
}

#[test]
fn bulk_queues_what_was_inserted() {
    let (jobs, result) = finish_create_atoms_bulk(vec![inserted("x"), inserted("y")], 3);
    let ids: Vec<&str> = jobs.iter().map(|j| j.atom_id.as_str()).collect();
    assert_eq!(ids, vec!["x", "y"]);
    assert!(jobs.iter().all(|j| j.reason == "create_atoms_bulk" && !j.replace_existing));
    assert_eq!((result.count, result.skipped, result.atoms.len()), (2, 3, 2));
    let (jobs, result) = finish_create_atoms_bulk(vec![], 1);
    assert!(jobs.is_empty());
    assert_eq!((result.count, result.skipped), (0, 1));
}

#[test]
fn jobs_carry_their_reason() {
    let job = pipeline_job("a", true, false, "why", true);
    assert_eq!((job.atom_id.as_str(), job.reason.as_str()), ("a", "why"));
    assert!(job.embed_requested && !job.tag_requested && job.replace_existing);
    let jobs = pipeline_jobs(&vec!["a".to_string(), "b".to_string()], false, true, "w", false);
    assert_eq!(jobs.len(), 2);
    assert_eq!(jobs[1].atom_id, "b");
    assert!(!jobs[1].embed_requested && jobs[1].tag_requested);
}
