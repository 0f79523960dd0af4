use atomic_core::atoms::CreateAtomRequest;
use atomic_core::error::AtomicCoreError;
use atomic_core::events::IngestionEvent;
use atomic_core::ingest::{
    copy_texts, feed_failed, fetch_failure, keep_ended_polls, task_failed, FeedItem, FeedPoll,
    FeedPollResult, Ingestion, IngestionRequest, ParsedFeed, PollAction, PollEvent, ResolvedPage,
};

fn request(hint: Option<&str>) -> IngestionRequest {
    IngestionRequest {
        url: "https://x.com/a".to_string(),
        title_hint: hint.map(|h| h.to_string()),
        published_at: Some("2026-01-01".to_string()),
        tag_ids: vec!["t".to_string()],
    }
}

fn page() -> ResolvedPage {
    ResolvedPage {
        title: "Own title".to_string(),
        markdown: "# é".to_string(),
    }
}

fn item(guid: &str, link: Option<&str>) -> FeedItem {
    FeedItem {
        guid: guid.to_string(),
        link: link.map(|l| l.to_string()),
        published_at: Some(format!("date of {guid}")),
    }
}

fn feed(title: Option<&str>, items: Vec<FeedItem>) -> ParsedFeed {
    ParsedFeed {
        title: title.map(|t| t.to_string()),
        site_url: None,
        items,
    }
}

fn started(f: ParsedFeed) -> (FeedPoll, PollAction) {
    FeedPoll::start("f1".to_string(), vec!["t".to_string()], f)
}

fn go(poll: &mut FeedPoll, event: PollEvent) -> PollAction {
    assert!(poll.accepts(&event));
    poll.step(event)
}

#[test]
fn known_page_is_refused() {
    let i = Ingestion::begin(request(None));
    assert!(uuid::Uuid::parse_str(&i.request_id).is_ok());
    assert!(i.source_checked(false).is_ok());
    match i.source_checked(true) {
        Err(AtomicCoreError::Validation(m)) => {
            assert_eq!(m, "URL already ingested: https://x.com/a")
        }
        _ => panic!("Wrong result"),
    }
}

#[test]
fn page_becomes_an_atom() {
    let i = Ingestion::begin(request(Some("Hint")));
    let id = i.request_id.clone();
    let (p, create) = i.resolved(page());
    assert_eq!((p.title.as_str(), p.content_length), ("Hint", 4));
    assert_eq!(create.content, "# é");
    assert_eq!(create.source_url.as_deref(), Some("https://x.com/a"));
    assert_eq!(create.published_at.as_deref(), Some("2026-01-01"));
    assert_eq!(create.tag_ids, vec!["t"]);
    assert!(!create.skip_if_source_exists);
    let (result, event) = p.created(Some("a1".to_string())).unwrap();
    assert_eq!((result.atom_id.as_str(), result.title.as_str()), ("a1", "Hint"));
    assert_eq!((result.url.as_str(), result.content_length), ("https://x.com/a", 4));
    match event {
        IngestionEvent::IngestionComplete { request_id, atom_id, url, title } => {
            assert_eq!((request_id, atom_id.as_str()), (id, "a1"));
            assert_eq!((url.as_str(), title.as_str()), ("https://x.com/a", "Hint"));
        }
        _ => panic!("Wrong event"),
    }
}

#[test]
fn title_hint_counts_unless_empty() {
    assert_eq!(Ingestion::begin(request(None)).resolved(page()).0.title, "Own title");
    assert_eq!(Ingestion::begin(request(Some(""))).resolved(page()).0.title, "Own title");
    assert_eq!(Ingestion::begin(request(Some(" "))).resolved(page()).0.title, " ");
}

#[test]
fn page_that_fails_is_told() {
    let i = Ingestion::begin(request(None));
    match i.resolve_failed("not an article".to_string()) {
        (IngestionEvent::IngestionFailed { request_id, url, error }, AtomicCoreError::Ingestion(m)) => {
            assert_eq!(request_id, i.request_id);
            assert_eq!((url.as_str(), error.as_str()), ("https://x.com/a", "not an article"));
            assert_eq!(m, "not an article");
        }
        _ => panic!("Wrong result"),
    }
    match i.resolved(page()).0.created(None) {
        Err(AtomicCoreError::Validation(m)) => assert_eq!(m, "Atom creation returned None"),
        _ => panic!("Wrong result"),
    }
    match task_failed("cancelled") {
        AtomicCoreError::Ingestion(m) => assert_eq!(m, "Task join error: cancelled"),
        _ => panic!("Wrong error"),
    }
}

#[test]
fn feed_that_fails_is_told() {
    let text = fetch_failure("timeout");
    assert_eq!(text, "Cannot fetch feed: timeout");
    match feed_failed("f1", text) {
        (IngestionEvent::FeedPollFailed { feed_id, error }, AtomicCoreError::Ingestion(m)) => {
            assert_eq!((feed_id.as_str(), error.as_str()), ("f1", "Cannot fetch feed: timeout"));
            assert_eq!(m, error);
        }
        _ => panic!("Wrong result"),
    }
}

#[test]
fn each_claimed_item_is_counted() {
    let (mut poll, action) = started(feed(
        Some("Feed"),
        vec![
            item("taken", Some("l0")),
            item("bare", None),
            item("good", Some("l1")),
            item("twice", Some("l2")),
            item("bad", Some("l3")),
            item("gone", Some("l4")),
        ],
    ));
    assert!(matches!(action, PollAction::Claim { guid } if guid == "taken"));
    assert!(matches!(
        go(&mut poll, PollEvent::Claimed(Ok(false))),
        PollAction::Claim { guid } if guid == "bare"
    ));
    match go(&mut poll, PollEvent::Claimed(Ok(true))) {
        PollAction::Skip { guid, reason } => {
            assert_eq!((guid.as_str(), reason.as_str()), ("bare", "No link in feed item"))
        }
        _ => panic!("Wrong action"),
    }
    go(&mut poll, PollEvent::Marked(Ok(())));
    match go(&mut poll, PollEvent::Claimed(Ok(true))) {
        PollAction::Resolve { link, request_id } => {
            assert_eq!(link, "l1");
            assert!(uuid::Uuid::parse_str(&request_id).is_ok());
        }
        _ => panic!("Wrong action"),
    }
    match go(&mut poll, PollEvent::Resolved(Ok("text".to_string()))) {
        PollAction::Create {
            request:
                CreateAtomRequest {
                    content,
                    source_url,
                    published_at,
                    tag_ids,
                    skip_if_source_exists,
                },
        } => {
            assert_eq!((content.as_str(), source_url.as_deref()), ("text", Some("l1")));
            assert_eq!(published_at.as_deref(), Some("date of good"));
            assert_eq!(tag_ids, vec!["t"]);
            assert!(skip_if_source_exists);
        }
        _ => panic!("Wrong action"),
    }
    match go(&mut poll, PollEvent::Created(Ok(Some("a1".to_string())))) {
        PollAction::Complete { guid, atom_id } => {
            assert_eq!((guid.as_str(), atom_id.as_str()), ("good", "a1"))
        }
        _ => panic!("Wrong action"),
    }
    go(&mut poll, PollEvent::Marked(Ok(())));
    go(&mut poll, PollEvent::Claimed(Ok(true)));
    go(&mut poll, PollEvent::Resolved(Ok("text".to_string())));
    assert!(matches!(
        go(&mut poll, PollEvent::Created(Ok(None))),
        PollAction::Skip { reason, .. } if reason == "duplicate source_url"
    ));
    go(&mut poll, PollEvent::Marked(Ok(())));
    go(&mut poll, PollEvent::Claimed(Ok(true)));
    go(&mut poll, PollEvent::Resolved(Ok("text".to_string())));
    assert!(matches!(
        go(&mut poll, PollEvent::Created(Err("disk full".to_string()))),
        PollAction::Skip { reason, .. } if reason == "disk full"
    ));
    go(&mut poll, PollEvent::Marked(Ok(())));
    go(&mut poll, PollEvent::Claimed(Ok(true)));
    assert!(matches!(
        go(&mut poll, PollEvent::Resolved(Err("404".to_string()))),
        PollAction::Skip { guid, reason } if guid == "gone" && reason == "404"
    ));
    assert!(matches!(
        go(&mut poll, PollEvent::Marked(Ok(()))),
        PollAction::MarkPolled
    ));
    match go(&mut poll, PollEvent::FeedMarked(Ok(()))) {
        PollAction::Backfill { title, site_url } => {
            assert_eq!((title.as_deref(), site_url), (Some("Feed"), None))
        }
        _ => panic!("Wrong action"),
    }
    match go(&mut poll, PollEvent::Backfilled(Ok(()))) {
        PollAction::Finish { result, event } => {
            assert_eq!(result.feed_id, "f1");
            assert_eq!((result.new_items, result.skipped, result.errors), (1, 3, 1));
            assert!(matches!(
                event,
                IngestionEvent::FeedPollComplete { new_items: 1, skipped: 3, errors: 1, .. }
            ));
        }
        _ => panic!("Wrong action"),
    }
    assert!(!poll.accepts(&PollEvent::Claimed(Ok(true))));
}

#[test]
fn feed_without_a_name_is_not_filled_in() {
    let (mut poll, action) = started(feed(None, vec![]));
    assert!(matches!(action, PollAction::MarkPolled));
    assert!(matches!(
        go(&mut poll, PollEvent::FeedMarked(Ok(()))),
        PollAction::Finish { .. }
    ));
}

#[test]
fn poll_stops_when_a_mark_cannot_be_written() {
    let lock = || AtomicCoreError::Lock("busy".to_string());
    let one = || feed(Some("F"), vec![item("g", None)]);
    let (mut poll, _) = started(one());
    assert!(matches!(
        go(&mut poll, PollEvent::Claimed(Err(lock()))),
        PollAction::Fail(AtomicCoreError::Lock(_))
    ));
    let (mut poll, _) = started(one());
    go(&mut poll, PollEvent::Claimed(Ok(true)));
    assert!(matches!(
        go(&mut poll, PollEvent::Marked(Err(lock()))),
        PollAction::Fail(AtomicCoreError::Lock(_))
    ));
    let (mut poll, _) = started(feed(Some("F"), vec![]));
    assert!(matches!(
        go(&mut poll, PollEvent::FeedMarked(Err(lock()))),
        PollAction::Fail(AtomicCoreError::Lock(_))
    ));
    let (mut poll, _) = started(feed(Some("F"), vec![]));
    go(&mut poll, PollEvent::FeedMarked(Ok(())));
    assert!(matches!(
        go(&mut poll, PollEvent::Backfilled(Err(lock()))),
        PollAction::Fail(AtomicCoreError::Lock(_))
    ));
}

#[test]
fn polls_that_failed_are_left_out() {
    let result = |id: &str| FeedPollResult {
        feed_id: id.to_string(),
        new_items: 1,
        skipped: 0,
        errors: 0,
    };
    let kept = keep_ended_polls(vec![
        Ok(result("a")),
        Err(AtomicCoreError::Ingestion("x".to_string())),
        Ok(result("b")),
    ]);
    let ids: Vec<&str> = kept.iter().map(|r| r.feed_id.as_str()).collect();
    assert_eq!(ids, vec!["a", "b"]);
    assert_eq!(copy_texts(&vec!["x".to_string()]), vec!["x"]);
}
