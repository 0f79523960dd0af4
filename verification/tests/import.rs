use atomic_core::error::AtomicCoreError;
use atomic_core::import::{
    import_unsupported, vault_not_found, HierarchicalTag, ImportAction, ImportEvent, ImportResult,
    ImportRun, ParsedNote,
};

fn texts(list: &[&str]) -> Vec<String> {
    list.iter().map(|s| s.to_string()).collect()
}

fn folder(name: &str, above: &[&str]) -> HierarchicalTag {
    HierarchicalTag {
        name: name.to_string(),
        parent_path: texts(above),
    }
}

fn note(content: &str, folders: Vec<HierarchicalTag>, tags: &[&str]) -> ParsedNote {
    ParsedNote {
        content: content.to_string(),
        source_url: "obsidian://Vault/note.md".to_string(),
        created_at: "2026-01-01T00:00:00Z".to_string(),
        folder_tags: folders,
        frontmatter_tags: texts(tags),
    }
}

fn parsed(n: ParsedNote) -> ImportEvent {
    ImportEvent::Parsed(Ok(n))
}

fn go(run: &mut ImportRun, event: ImportEvent, id: &str) -> ImportAction {
    assert!(run.accepts(&event));
    run.step_as(event, id.to_string(), "now".to_string()).1
}

#[test]
fn obsidian_import_marks_user_tags_manual() {
    let (mut run, action) = ImportRun::start(texts(&["Projects/note.md"]), None);
    assert!(matches!(action, ImportAction::Parse(0)));
    let n = note(
        "# Imported note\n\nEnough content to import.",
        vec![folder("Projects", &[])],
        &["frontmatter-tag"],
    );
    match go(&mut run, parsed(n), "-") {
        ImportAction::CheckSource(url) => assert_eq!(url, "obsidian://Vault/note.md"),
        _ => panic!("Wrong action"),
    }
    match go(&mut run, ImportEvent::SourceChecked(Ok(false)), "a1") {
        ImportAction::Insert { atom_id, request, created_at } => {
            assert_eq!(atom_id, "a1");
            assert!(request.content.starts_with("# Imported note"));
            assert_eq!(request.source_url.as_deref(), Some("obsidian://Vault/note.md"));
            assert!(request.tag_ids.is_empty() && !request.skip_if_source_exists);
            assert_eq!(created_at, "2026-01-01T00:00:00Z");
        }
        _ => panic!("Wrong action"),
    }
    assert!(matches!(
        go(&mut run, ImportEvent::Inserted(true), "-"),
        ImportAction::OpenTables
    ));
    match go(&mut run, ImportEvent::TablesOpened(Ok(())), "-") {
        ImportAction::FindTag { name, parent_id } => {
            assert_eq!((name.as_str(), parent_id), ("Projects", None))
        }
        _ => panic!("Wrong action"),
    }
    match go(&mut run, ImportEvent::TagFound(None), "t1") {
        ImportAction::CreateTag { id, name, parent_id, created_at } => {
            assert_eq!((id.as_str(), name.as_str(), parent_id), ("t1", "Projects", None));
            assert_eq!(created_at, "now");
        }
        _ => panic!("Wrong action"),
    }
    match go(&mut run, ImportEvent::TagCreated(true), "-") {
        ImportAction::LinkTag { atom_id, tag_id, source } => {
            assert_eq!((atom_id.as_str(), tag_id.as_str(), source), ("a1", "t1", "manual"))
        }
        _ => panic!("Wrong action"),
    }
    match go(&mut run, ImportEvent::TagLinked(true), "-") {
        ImportAction::FindTag { name, parent_id } => {
            assert_eq!((name.as_str(), parent_id), ("frontmatter-tag", None))
        }
        _ => panic!("Wrong action"),
    }
    match go(&mut run, ImportEvent::TagFound(Some("t2".to_string())), "-") {
        ImportAction::LinkTag { tag_id, source, .. } => {
            assert_eq!((tag_id.as_str(), source), ("t2", "manual"))
        }
        _ => panic!("Wrong action"),
    }
    let event = ImportEvent::TagLinked(true);
    let (progress, action) = run.step_as(event, "-".to_string(), "now".to_string());
    let progress = progress.unwrap();
    assert_eq!((progress.current, progress.total), (1, 1));
    assert_eq!(progress.current_file, "Projects/note.md");
    assert_eq!(progress.status, "importing");
    match action {
        ImportAction::Finish { stats, jobs } => {
            assert_eq!(
                stats,
                ImportResult {
                    imported: 1,
                    skipped: 0,
                    errors: 0,
                    tags_created: 1,
                    tags_linked: 2
                }
            );
            assert_eq!(jobs.len(), 1);
            assert_eq!((jobs[0].atom_id.as_str(), jobs[0].reason.as_str()), ("a1", "import_markdown"));
        }
        _ => panic!("Wrong action"),
    }
}

#[test]
fn nested_folders_and_known_tags_are_found_once() {
    let (mut run, _) = ImportRun::start(texts(&["x.md", "y.md"]), None);
    let content = "enough to be kept";
    let n = note(content, vec![folder("A", &[]), folder("B", &["A"])], &["a"]);
    go(&mut run, parsed(n), "-");
    go(&mut run, ImportEvent::SourceChecked(Ok(false)), "n1");
    go(&mut run, ImportEvent::Inserted(true), "-");
    go(&mut run, ImportEvent::TablesOpened(Ok(())), "-");
    go(&mut run, ImportEvent::TagFound(Some("ta".to_string())), "-");
    match go(&mut run, ImportEvent::TagLinked(false), "-") {
        ImportAction::FindTag { name, parent_id } => {
            assert_eq!((name.as_str(), parent_id.as_deref()), ("B", Some("ta")))
        }
        _ => panic!("Wrong action"),
    }
    go(&mut run, ImportEvent::TagFound(None), "tb");
    // The tag of that name, without a parent, is known: its name is compared in lower case.
    match go(&mut run, ImportEvent::TagCreated(false), "-") {
        ImportAction::LinkTag { tag_id, .. } => assert_eq!(tag_id, "ta"),
        _ => panic!("Wrong action"),
    }
    assert!(matches!(
        go(&mut run, ImportEvent::TagLinked(true), "-"),
        ImportAction::Parse(1)
    ));
    // In the second file too; the folder whose tag could not be made is asked for again.
    let n = note(content, vec![folder("a", &[]), folder("b", &["a"])], &[]);
    go(&mut run, parsed(n), "-");
    go(&mut run, ImportEvent::SourceChecked(Ok(false)), "n2");
    go(&mut run, ImportEvent::Inserted(true), "-");
    assert!(matches!(
        go(&mut run, ImportEvent::TablesOpened(Ok(())), "-"),
        ImportAction::LinkTag { .. }
    ));
    match go(&mut run, ImportEvent::TagLinked(true), "-") {
        ImportAction::FindTag { name, parent_id } => {
            assert_eq!((name.as_str(), parent_id.as_deref()), ("b", Some("ta")))
        }
        _ => panic!("Wrong action"),
    }
    go(&mut run, ImportEvent::TagFound(Some("tb2".to_string())), "-");
    match go(&mut run, ImportEvent::TagLinked(true), "-") {
        ImportAction::Finish { stats, jobs } => {
            assert_eq!((stats.imported, stats.tags_created, stats.tags_linked), (2, 0, 3));
            let ids: Vec<&str> = jobs.iter().map(|j| j.atom_id.as_str()).collect();
            assert_eq!(ids, vec!["n1", "n2"]);
        }
        _ => panic!("Wrong action"),
    }
}

#[test]
fn names_are_compared_in_lower_case_beyond_ascii() {
    let (mut run, _) = ImportRun::start(texts(&["x.md"]), None);
    let n = note("enough to be kept", vec![], &["ÄRGER", "ärger"]);
    go(&mut run, parsed(n), "-");
    go(&mut run, ImportEvent::SourceChecked(Ok(false)), "n1");
    go(&mut run, ImportEvent::Inserted(true), "-");
    go(&mut run, ImportEvent::TablesOpened(Ok(())), "-");
    go(&mut run, ImportEvent::TagFound(Some("t".to_string())), "-");
    assert!(matches!(
        go(&mut run, ImportEvent::TagLinked(true), "-"),
        ImportAction::LinkTag { .. }
    ));
}

#[test]
fn every_file_is_counted_once() {
    let (mut run, _) = ImportRun::start(texts(&["1", "2", "3", "4", "5"]), Some(4));
    let status = |run: &mut ImportRun, event: ImportEvent| {
        let (p, _) = run.step(event);
        p.map(|p| (p.current, p.total, p.status))
    };
    assert_eq!(
        status(&mut run, ImportEvent::Parsed(Err(()))),
        Some((1, 4, "error".to_string()))
    );
    // Nine bytes are too few, ten are enough; white space around them does not count.
    assert_eq!(
        status(&mut run, parsed(note(" 123456789\n", vec![], &[]))),
        Some((2, 4, "skipped".to_string()))
    );
    assert_eq!(status(&mut run, parsed(note("1234567é9", vec![], &[]))), None);
    assert_eq!(
        status(&mut run, ImportEvent::SourceChecked(Ok(true))),
        Some((3, 4, "skipped".to_string()))
    );
    assert_eq!(status(&mut run, parsed(note("1234567890", vec![], &[]))), None);
    assert_eq!(status(&mut run, ImportEvent::SourceChecked(Ok(false))), None);
    let (p, action) = run.step(ImportEvent::Inserted(false));
    assert_eq!(p.unwrap().status, "error");
    match action {
        ImportAction::Finish { stats, jobs } => {
            assert_eq!((stats.imported, stats.skipped, stats.errors), (0, 2, 2));
            assert!(jobs.is_empty());
        }
        _ => panic!("Wrong action"),
    }
    assert!(!run.accepts(&ImportEvent::Parsed(Err(()))));
}

#[test]
fn limit_of_notes_is_kept() {
    let files = texts(&["1", "2"]);
    for (limit, total) in [(1, 1), (5, 2), (-1, 2)] {
        let (mut run, _) = ImportRun::start(files.clone(), Some(limit));
        let (progress, _) = run.step(ImportEvent::Parsed(Err(())));
        assert_eq!(progress.unwrap().total, total);
    }
    assert!(matches!(
        ImportRun::start(files, Some(0)).1,
        ImportAction::Finish { .. }
    ));
    assert!(matches!(
        ImportRun::start(vec![], None).1,
        ImportAction::Finish { .. }
    ));
}

#[test]
fn import_stops_at_what_the_storage_cannot_do() {
    let (mut run, _) = ImportRun::start(texts(&["1"]), None);
    run.step(parsed(note("1234567890", vec![], &[])));
    run.step(ImportEvent::SourceChecked(Ok(false)));
    run.step(ImportEvent::Inserted(true));
    match run.step(ImportEvent::TablesOpened(Err(import_unsupported()))) {
        (None, ImportAction::Fail(AtomicCoreError::Configuration(m))) => {
            assert_eq!(m, "Obsidian import is not yet supported with Postgres backend")
        }
        _ => panic!("Wrong action"),
    }
    let (mut run, _) = ImportRun::start(texts(&["1"]), None);
    run.step(parsed(note("1234567890", vec![], &[])));
    let down = AtomicCoreError::Database("down".to_string());
    assert!(matches!(
        run.step(ImportEvent::SourceChecked(Err(down))).1,
        ImportAction::Fail(AtomicCoreError::Database(_))
    ));
    match vault_not_found("\"/no/vault\"") {
        AtomicCoreError::Validation(m) => assert_eq!(m, "Vault not found at \"/no/vault\""),
        _ => panic!("Wrong error"),
    }
}
