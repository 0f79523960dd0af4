use atomic_core::atoms::{Atom, AtomKind, AtomWithTags};
use atomic_core::auth::{oauth_store, oauth_unavailable, token_store, ServerStore};
use atomic_core::error::AtomicCoreError;
use atomic_core::events::{EmbeddingEvent, ServerEvent};
use atomic_core::pipeline::{
    changes_canvas, check_found, check_not_embedding, check_not_tagging, has_work,
    process_atom_pipeline, reembed_all_jobs, reembed_pending_jobs, retag_all_jobs,
    retry_embedding_job, retry_tagging_job, retry_tagging_settings, suggestion_limit,
    update_atom_if_unchanged_job, update_atom_job,
};
use atomic_core::reports::featured::{
    delete_clears_featured, get_featured_report_id, report_to_look_up, set_featured_report_id,
    FeaturedChange, FEATURED_REPORT_SETTING,
};
use atomic_core::reports::schedule::{
    check_create_report, check_update_report, judge_schedule, report_missing, validate_schedule,
    ReportSchedule, ReportScheduleChange,
};
use atomic_core::routes::{
    announce_finding, delete_reply, done_reply, featured_reply, finding_to_announce,
    findings_limit, report_reply, run_now_reply, set_featured_reply, was_featured,
    ListFindingsQuery, Reply, RunOutcome, SetFeaturedReportRequest,
};
use atomic_core::search::{
    blocking_search_failed, global_search_storage, search_tag, SearchAction, SearchEvent,
    SearchMode, SearchRun, SearchStorage,
};
use atomic_core::startup::{
    categories_to_seed, checks_dimension, dimension_to_restore, index_dimension, needs_centroids,
    seeds_settings, DEFAULT_DIMENSION,
};
use atomic_core::strmap::StrMap;

fn texts(list: &[&str]) -> Vec<String> {
    list.iter().map(|s| s.to_string()).collect()
}

fn validation(r: Result<(), AtomicCoreError>) -> String {
    match r {
        Err(AtomicCoreError::Validation(m)) => m,
        _ => panic!("Wrong result"),
    }
}

fn down() -> AtomicCoreError {
    AtomicCoreError::Database("down".to_string())
}

fn atom(id: &str) -> AtomWithTags {
    AtomWithTags {
        atom: Atom {
            id: id.to_string(),
            content: String::new(),
            title: String::new(),
            snippet: String::new(),
            source_url: None,
            source: None,
            published_at: None,
            created_at: String::new(),
            updated_at: String::new(),
            embedding_status: String::new(),
            tagging_status: String::new(),
            embedding_error: None,
            tagging_error: None,
            kind: AtomKind::Report,
        },
        tags: vec![],
    }
}

#[test]
fn tokens_live_in_the_registry_if_there_is_one() {
    assert_eq!(token_store(true), ServerStore::Registry);
    assert_eq!(token_store(false), ServerStore::Storage);
    assert_eq!(oauth_store(true, false).unwrap(), ServerStore::Registry);
    assert_eq!(oauth_store(false, true).unwrap(), ServerStore::Storage);
    let text = "OAuth is unavailable: no SQLite registry is attached and the storage backend does not support OAuth";
    assert!(matches!(oauth_store(false, false), Err(AtomicCoreError::Configuration(m)) if m == text));
    assert!(matches!(oauth_unavailable(), AtomicCoreError::Configuration(m) if m == text));
}

#[test]
fn atoms_at_work_are_not_retried() {
    assert_eq!(
        validation(check_not_embedding("a", "processing")),
        "Atom a is already being embedded"
    );
    assert_eq!(
        validation(check_not_tagging("a", "processing")),
        "Atom a is already being tagged"
    );
    assert!(check_not_embedding("a", "failed").is_ok());
    assert!(check_not_tagging("a", "Processing").is_ok());
    assert!(check_found("a", true).is_ok());
    assert!(matches!(check_found("a", false), Err(AtomicCoreError::NotFound(m)) if m == "Atom a not found"));
}

#[test]
fn jobs_say_what_they_are_for() {
    let job = update_atom_job("a");
    assert_eq!((job.reason.as_str(), job.embed_requested, job.tag_requested), ("update_atom", true, true));
    assert_eq!(update_atom_if_unchanged_job("a").reason, "update_atom_if_unchanged");
    let job = retry_embedding_job("a", "pending");
    assert_eq!((job.reason.as_str(), job.embed_requested, job.tag_requested), ("retry_embedding", true, true));
    assert!(!retry_embedding_job("a", "complete").tag_requested);
    let job = retry_tagging_job("a");
    assert_eq!((job.reason.as_str(), job.embed_requested, job.tag_requested), ("retry_tagging", false, true));
    let ids = texts(&["a", "b"]);
    let (n, jobs) = reembed_pending_jobs(&ids);
    assert_eq!((n, jobs.len(), jobs[1].reason.as_str()), (2, 2, "spawn_reembed_pending"));
    assert!(jobs[0].embed_requested && !jobs[0].tag_requested && jobs[0].replace_existing);
    let (n, jobs) = reembed_all_jobs(&ids);
    assert_eq!((n, jobs[0].reason.as_str(), jobs[0].replace_existing), (2, "reembed_all_atoms", true));
    let (n, jobs) = retag_all_jobs(&ids);
    assert_eq!((n, jobs[0].reason.as_str(), jobs[0].replace_existing), (2, "retag_all_atoms", false));
    assert!(!jobs[0].embed_requested && jobs[0].tag_requested);
    assert_eq!(retag_all_jobs(&vec![]).0, 0);
}

#[test]
fn explicit_pipeline_run_needs_text() {
    assert!(process_atom_pipeline("a", Some(" \n")).unwrap().is_none());
    let job = process_atom_pipeline("a", Some("x")).unwrap().unwrap();
    assert_eq!(job.reason, "process_atom_pipeline");
    assert!(matches!(
        process_atom_pipeline("a", None),
        Err(AtomicCoreError::NotFound(m)) if m == "Atom not found: a"
    ));
}

#[test]
fn tagging_again_turns_tagging_on() {
    let mut settings = StrMap::new();
    settings.insert("auto_tagging_enabled".to_string(), "false".to_string());
    settings.insert("theme".to_string(), "dark".to_string());
    let forced = retry_tagging_settings(&settings);
    assert_eq!(forced.get("auto_tagging_enabled").unwrap(), "true");
    assert_eq!(forced.get("theme").unwrap(), "dark");
    assert_eq!(retry_tagging_settings(&StrMap::new()).len(), 1);
}

#[test]
fn only_visible_changes_reach_the_canvas() {
    let id = || "a".to_string();
    assert!(changes_canvas(&EmbeddingEvent::EmbeddingComplete { atom_id: id() }));
    assert!(changes_canvas(&EmbeddingEvent::TaggingComplete {
        atom_id: id(),
        tags_extracted: vec![],
        new_tags_created: vec![],
    }));
    assert!(!changes_canvas(&EmbeddingEvent::Started { atom_id: id() }));
    assert!(!changes_canvas(&EmbeddingEvent::TaggingSkipped { atom_id: id() }));
    assert!(has_work(1) && !has_work(0) && !has_work(-1));
    assert_eq!([suggestion_limit(0), suggestion_limit(7), suggestion_limit(99)], [1, 7, 50]);
}

#[test]
fn report_create_rejects_invalid_cron_as_validation() {
    let m = validation(check_create_report(&ReportSchedule {
        schedule: "this is not a cron".to_string(),
        schedule_tz: None,
    }));
    assert!(m.starts_with("invalid cron expression: "), "got: {m}");
}

#[test]
fn report_create_rejects_invalid_timezone_as_validation() {
    let m = validation(check_create_report(&ReportSchedule {
        schedule: "0 0 7 * * *".to_string(),
        schedule_tz: Some("Not/A_Zone".to_string()),
    }));
    assert!(m.starts_with("invalid timezone 'Not/A_Zone': "), "got: {m}");
    assert!(m.len() > "invalid timezone 'Not/A_Zone': ".len());
}

#[test]
fn report_update_rejects_invalid_cron_as_validation() {
    let change = |schedule: Option<&str>, tz: Option<Option<&str>>| ReportScheduleChange {
        schedule: schedule.map(|s| s.to_string()),
        schedule_tz: tz.map(|t| t.map(|z| z.to_string())),
    };
    let m = validation(check_update_report(&change(Some("nope"), None)));
    assert!(m.contains("cron"), "got: {m}");
    assert!(check_update_report(&change(None, None)).is_ok());
    assert!(check_update_report(&change(None, Some(None))).is_ok());
    assert!(check_update_report(&change(Some("0 0 7 * * *"), Some(Some("Europe/Berlin")))).is_ok());
    let m = validation(check_update_report(&change(None, Some(Some("nowhere")))));
    assert!(m.contains("timezone"), "got: {m}");
}

#[test]
fn cron_is_judged_before_the_timezone() {
    assert!(validate_schedule(Some("0 0 7 * * *"), Some("UTC")).is_ok());
    assert!(validate_schedule(None, None).is_ok());
    let m = validation(validate_schedule(Some("x"), Some("y")));
    assert!(m.contains("cron") && !m.contains("timezone"), "got: {m}");
    assert_eq!(
        validation(judge_schedule(Some("bad".to_string()), None)),
        "invalid cron expression: bad"
    );
    assert_eq!(
        validation(judge_schedule(None, Some(("Z".to_string(), "why".to_string())))),
        "invalid timezone 'Z': why"
    );
    assert!(judge_schedule(None, None).is_ok());
    assert!(matches!(
        report_missing("r9"),
        AtomicCoreError::DatabaseOperation(m) if m == "report r9 not found"
    ));
}

#[test]
fn featured_report_id_cleared_when_report_deleted() {
    assert_eq!(FEATURED_REPORT_SETTING, "dashboard.featured_report_id");
    let mut setting = match set_featured_report_id(Some("r1".to_string()), true) {
        Ok(FeaturedChange::Point(id)) => Some(id),
        _ => panic!("Wrong result"),
    };
    assert_eq!(get_featured_report_id(setting.clone(), true), Some("r1".to_string()));
    assert!(!delete_clears_featured(setting.as_deref(), "r2"));
    if delete_clears_featured(setting.as_deref(), "r1") {
        setting = None;
    }
    assert_eq!(get_featured_report_id(setting, true), None);
}

#[test]
fn featured_report_must_exist() {
    assert_eq!(
        validation(set_featured_report_id(Some("r1".to_string()), false).map(|_| ())),
        "report not found: r1"
    );
    // Only no id at all clears; an empty one names no report.
    assert_eq!(
        validation(set_featured_report_id(Some(String::new()), false).map(|_| ())),
        "report not found: "
    );
    assert!(matches!(set_featured_report_id(None, false), Ok(FeaturedChange::Clear)));
    assert!(matches!(set_featured_report_id(None, true), Ok(FeaturedChange::Clear)));
    // A pointer to what is gone, or to nothing, is as none.
    assert_eq!(get_featured_report_id(Some("r1".to_string()), false), None);
    assert_eq!(get_featured_report_id(Some(String::new()), true), None);
    assert_eq!(report_to_look_up(Some(String::new())), None);
    assert_eq!(report_to_look_up(Some("r1".to_string())), Some("r1".to_string()));
    assert_eq!(report_to_look_up(None), None);
    assert!(!delete_clears_featured(None, "r1"));
}

#[test]
fn replies_follow_what_was_found() {
    assert_eq!(findings_limit(&ListFindingsQuery { limit: None }), 50);
    assert_eq!(findings_limit(&ListFindingsQuery { limit: Some(0) }), 1);
    assert_eq!(findings_limit(&ListFindingsQuery { limit: Some(500) }), 200);
    assert_eq!(findings_limit(&ListFindingsQuery { limit: Some(77) }), 77);
    assert!(matches!(report_reply(Ok(Some(5))), Reply::Body(5)));
    assert!(matches!(report_reply::<u8>(Ok(None)), Reply::NotFound(m) if m == "not found"));
    assert!(matches!(report_reply::<u8>(Err(down())), Reply::Failed(AtomicCoreError::Database(_))));
    assert!(matches!(done_reply(Ok(())), Reply::NoContent));
    assert!(matches!(done_reply(Err(down())), Reply::Failed(_)));
}

#[test]
fn deleting_the_featured_report_is_announced() {
    let featured = Ok(Some("r1".to_string()));
    assert!(was_featured(&featured, "r1"));
    assert!(!was_featured(&featured, "r2"));
    assert!(!was_featured(&Ok(None), "r1"));
    assert!(!was_featured(&Err(down()), "r1"));
    assert!(matches!(
        delete_reply(Ok(()), true),
        (Reply::NoContent, Some(ServerEvent::DashboardFeaturedChanged { report_id: None }))
    ));
    assert!(matches!(delete_reply(Ok(()), false), (Reply::NoContent, None)));
    assert!(matches!(delete_reply(Err(down()), true), (Reply::Failed(_), None)));
}

#[test]
fn change_of_the_featured_report_is_announced() {
    let body = SetFeaturedReportRequest { report_id: Some("r1".to_string()) };
    match set_featured_reply(Ok(()), &body) {
        (Reply::Body(b), Some(ServerEvent::DashboardFeaturedChanged { report_id })) => {
            assert_eq!(b.report_id.as_deref(), Some("r1"));
            assert_eq!(report_id.as_deref(), Some("r1"));
        }
        _ => panic!("Wrong reply"),
    }
    assert!(matches!(set_featured_reply(Err(down()), &body), (Reply::Failed(_), None)));
    assert!(matches!(
        featured_reply(Ok(Some("r1".to_string()))),
        Reply::Body(b) if b.report_id.as_deref() == Some("r1")
    ));
    assert!(matches!(featured_reply(Err(down())), Reply::Failed(_)));
}

#[test]
fn run_is_accepted_and_its_finding_announced() {
    match run_now_reply(Ok(Some(1)), "r1") {
        Reply::Accepted(r) => {
            assert_eq!((r.report_id.as_str(), r.status), ("r1", "dispatched"));
            assert_eq!(r.findings_url, "/api/reports/r1/findings");
        }
        _ => panic!("Wrong reply"),
    }
    assert!(matches!(run_now_reply::<u8>(Ok(None), "r1"), Reply::NotFound(m) if m == "report not found"));
    assert!(matches!(run_now_reply::<u8>(Err(down()), "r1"), Reply::Failed(_)));
    assert_eq!(finding_to_announce(&RunOutcome::Skipped), None);
    assert_eq!(finding_to_announce(&RunOutcome::EmptyScope), None);
    let done = RunOutcome::Succeeded { finding_atom_id: "f".to_string() };
    assert_eq!(finding_to_announce(&done), Some("f".to_string()));
    assert!(matches!(
        announce_finding(Ok(Some(atom("f")))),
        Some(ServerEvent::AtomCreated { atom }) if atom.atom.id == "f"
    ));
    assert!(announce_finding(Ok(None)).is_none());
    assert!(announce_finding(Err(down())).is_none());
}

#[test]
fn keyword_search_asks_once() {
    let (mut run, action) = SearchRun::start(SearchMode::Keyword, 7);
    assert!(matches!(action, SearchAction::SearchKeywords(7)));
    assert!(!run.accepts(&SearchEvent::Embedded(Ok(true))));
    assert!(matches!(
        run.step(SearchEvent::KeywordsFound(Ok(()))),
        SearchAction::AnswerKeywords
    ));
}

#[test]
fn semantic_search_needs_an_embedding() {
    let (mut run, action) = SearchRun::start(SearchMode::Semantic, 7);
    assert!(matches!(action, SearchAction::Embed));
    assert!(matches!(run.step(SearchEvent::Embedded(Ok(true))), SearchAction::SearchVectors(7)));
    assert!(matches!(run.step(SearchEvent::VectorsFound(Ok(()))), SearchAction::AnswerVectors));
    let (mut run, _) = SearchRun::start(SearchMode::Semantic, 7);
    assert!(matches!(run.step(SearchEvent::Embedded(Ok(false))), SearchAction::AnswerNothing));
    let (mut run, _) = SearchRun::start(SearchMode::Semantic, 7);
    assert!(matches!(
        run.step(SearchEvent::Embedded(Err("no key".to_string()))),
        SearchAction::Fail(AtomicCoreError::Search(m)) if m == "no key"
    ));
}

#[test]
fn hybrid_search_asks_twice_for_twice_as_many() {
    let (mut run, _) = SearchRun::start(SearchMode::Hybrid, 7);
    assert!(matches!(run.step(SearchEvent::Embedded(Ok(true))), SearchAction::SearchKeywords(14)));
    assert!(matches!(run.step(SearchEvent::KeywordsFound(Ok(()))), SearchAction::SearchVectors(14)));
    assert!(matches!(run.step(SearchEvent::VectorsFound(Ok(()))), SearchAction::AnswerBoth(7)));
    let (mut run, _) = SearchRun::start(SearchMode::Hybrid, 7);
    run.step(SearchEvent::Embedded(Ok(false)));
    assert!(matches!(run.step(SearchEvent::KeywordsFound(Ok(()))), SearchAction::AnswerBoth(7)));
    let (mut run, _) = SearchRun::start(SearchMode::Hybrid, 7);
    run.step(SearchEvent::Embedded(Ok(true)));
    assert!(matches!(run.step(SearchEvent::KeywordsFound(Err(down()))), SearchAction::Fail(_)));
}

#[test]
fn global_search_needs_a_storage_that_can() {
    assert_eq!(search_tag(&texts(&["t1", "t2"])), Some("t1".to_string()));
    assert_eq!(search_tag(&vec![]), None);
    assert_eq!(global_search_storage(true, true).unwrap(), SearchStorage::Sqlite);
    assert_eq!(global_search_storage(false, true).unwrap(), SearchStorage::Postgres);
    assert!(matches!(
        global_search_storage(false, false),
        Err(AtomicCoreError::Search(m))
            if m == "Global keyword search is not implemented for this storage backend"
    ));
    assert!(matches!(
        blocking_search_failed("panic"),
        AtomicCoreError::DatabaseOperation(m) if m == "spawn_blocking join: panic"
    ));
}

#[test]
fn dimension_is_read_off_the_index() {
    assert_eq!(DEFAULT_DIMENSION, 1536);
    let sql = "CREATE VIRTUAL TABLE vec_chunks USING vec0(chunk_id TEXT, embedding float[768])";
    assert_eq!(index_dimension(Some(sql)), 768);
    assert_eq!(index_dimension(Some("float[+12]")), 12);
    assert_eq!(index_dimension(Some("float[x] float[7]")), 1536);
    assert_eq!(index_dimension(Some("float[7")), 1536);
    assert_eq!(index_dimension(Some("float[]")), 1536);
    assert_eq!(index_dimension(Some("float[-1]")), 1536);
    assert_eq!(index_dimension(Some("float[99999999999999999999]")), 1536);
    assert_eq!(index_dimension(Some("nothing")), 1536);
    assert_eq!(index_dimension(None), 1536);
    assert_eq!(dimension_to_restore(Some(sql), 768), None);
    assert_eq!(dimension_to_restore(Some(sql), 1024), Some(1024));
    assert_eq!(dimension_to_restore(None, 1536), None);
}

#[test]
fn fresh_databases_are_prepared() {
    assert!(checks_dimension(true, Some(0)));
    assert!(checks_dimension(true, None));
    assert!(!checks_dimension(true, Some(3)));
    assert!(!checks_dimension(false, Some(0)));
    assert!(needs_centroids(Some(true), Some(false)));
    assert!(needs_centroids(Some(true), None));
    assert!(!needs_centroids(Some(true), Some(true)));
    assert!(!needs_centroids(None, None));
    assert_eq!(
        categories_to_seed(0),
        texts(&["Topics", "People", "Locations", "Organizations", "Events"])
    );
    assert!(categories_to_seed(1).is_empty());
    assert!(seeds_settings(false, 0));
    assert!(!seeds_settings(true, 0) && !seeds_settings(false, 1));
}
