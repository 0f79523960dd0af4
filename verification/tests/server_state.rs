use atomic_core::events::{ChatEvent, EmbeddingEvent, IngestionEvent, ServerEvent};
use atomic_core::state::{
    select_database, ClientIp, DatabaseChoice, SetupClaimLimiter, SetupToken,
};
use tokio::sync::broadcast;

#[test]
fn test_embedding_started_conversion() {
    let event = EmbeddingEvent::Started {
        atom_id: "a1".into(),
    };
    let server_event = ServerEvent::from(event);
    match server_event {
        ServerEvent::EmbeddingStarted { atom_id } => assert_eq!(atom_id, "a1"),
        _ => panic!("Wrong variant"),
    }
}

#[test]
fn test_embedding_complete_conversion() {
    let event = EmbeddingEvent::EmbeddingComplete {
        atom_id: "a2".into(),
    };
    match ServerEvent::from(event) {
        ServerEvent::EmbeddingComplete { atom_id } => assert_eq!(atom_id, "a2"),
        _ => panic!("Wrong variant"),
    }
}

#[test]
fn test_embedding_failed_conversion() {
    let event = EmbeddingEvent::EmbeddingFailed {
        atom_id: "a3".into(),
        error: "timeout".into(),
    };
    match ServerEvent::from(event) {
        ServerEvent::EmbeddingFailed { atom_id, error } => {
            assert_eq!(atom_id, "a3");
            assert_eq!(error, "timeout");
        }
        _ => panic!("Wrong variant"),
    }
}

#[test]
fn test_tagging_complete_conversion() {
    let event = EmbeddingEvent::TaggingComplete {
        atom_id: "a4".into(),
        tags_extracted: vec!["t1".into()],
        new_tags_created: vec!["t2".into()],
    };
    match ServerEvent::from(event) {
        ServerEvent::TaggingComplete {
            atom_id,
            tags_extracted,
            new_tags_created,
        } => {
            assert_eq!(atom_id, "a4");
            assert_eq!(tags_extracted, vec!["t1"]);
            assert_eq!(new_tags_created, vec!["t2"]);
        }
        _ => panic!("Wrong variant"),
    }
}

#[test]
fn test_chat_stream_delta_conversion() {
    let event = ChatEvent::StreamDelta {
        conversation_id: "c1".into(),
        content: "hello".into(),
    };
    match ServerEvent::from(event) {
        ServerEvent::ChatStreamDelta {
            conversation_id,
            content,
        } => {
            assert_eq!(conversation_id, "c1");
            assert_eq!(content, "hello");
        }
        _ => panic!("Wrong variant"),
    }
}

#[test]
fn test_chat_tool_start_conversion() {
    let mut input = serde_json::Map::new();
    input.insert("query".to_string(), serde_json::Value::from("test"));
    let event = ChatEvent::ToolStart {
        conversation_id: "c2".into(),
        tool_call_id: "tc1".into(),
        tool_name: "search".into(),
        tool_input: serde_json::Value::Object(input),
    };
    match ServerEvent::from(event) {
        ServerEvent::ChatToolStart {
            conversation_id,
            tool_name,
            tool_input,
            ..
        } => {
            assert_eq!(conversation_id, "c2");
            assert_eq!(tool_name, "search");
            assert_eq!(tool_input["query"], "test");
        }
        _ => panic!("Wrong variant"),
    }
}

#[test]
fn test_chat_error_conversion() {
    let event = ChatEvent::Error {
        conversation_id: "c3".into(),
        error: "api failed".into(),
    };
    match ServerEvent::from(event) {
        ServerEvent::ChatError {
            conversation_id,
            error,
        } => {
            assert_eq!(conversation_id, "c3");
            assert_eq!(error, "api failed");
        }
        _ => panic!("Wrong variant"),
    }
}

#[test]
fn test_event_broadcast_delivery() {
    let (tx, mut rx) = broadcast::channel::<ServerEvent>(16);
    let event = ServerEvent::EmbeddingStarted {
        atom_id: "a1".into(),
    };
    tx.send(event).unwrap();

    let received = rx.try_recv().unwrap();
    match received {
        ServerEvent::EmbeddingStarted { atom_id } => assert_eq!(atom_id, "a1"),
        _ => panic!("Wrong variant"),
    }
}

#[test]
fn copied_events_keep_their_values() {
    let event = ServerEvent::ChatCanvasAction {
        conversation_id: "c".into(),
        action: "focus".into(),
        params: serde_json::Value::from(vec![1, 2]),
    };
    match event.clone() {
        ServerEvent::ChatCanvasAction { params, .. } => {
            assert_eq!(params, serde_json::Value::from(vec![1, 2]))
        }
        _ => panic!("Wrong variant"),
    }
}

#[test]
fn pipeline_events_in_a_chat_are_sent_as_outside_of_it() {
    let event = ChatEvent::AtomPipelineEvent {
        conversation_id: "c".into(),
        event: EmbeddingEvent::TaggingFailed {
            atom_id: "a".into(),
            error: "no model".into(),
        },
    };
    match ServerEvent::from(event) {
        ServerEvent::TaggingFailed { atom_id, error } => {
            assert_eq!((atom_id.as_str(), error.as_str()), ("a", "no model"))
        }
        _ => panic!("Wrong variant"),
    }
    match ServerEvent::from(IngestionEvent::Skipped {
        url: "u".into(),
        request_id: "r".into(),
        reason: "why".into(),
    }) {
        ServerEvent::IngestionSkipped { url, request_id, reason } => {
            assert_eq!((url.as_str(), request_id.as_str(), reason.as_str()), ("u", "r", "why"))
        }
        _ => panic!("Wrong variant"),
    }
}

#[test]
fn setup_token_verifies_its_own_text() {
    let token = SetupToken::from_raw("  s3cret\n".to_string()).unwrap();
    assert!(token.verify("s3cret"));
    assert!(token.verify("\ts3cret "));
    assert!(!token.verify("s3cres"));
    assert!(!token.verify("S3cret"));
    assert!(!token.verify(""));
    assert!(SetupToken::from_raw(" \n\t".to_string()).is_none());
    assert!(SetupToken::from_raw(String::new()).is_none());
}

#[test]
fn setup_token_is_kept_as_its_digest() {
    // The digest of the text is not itself a token for it.
    let token = SetupToken::from_raw("abc".to_string()).unwrap();
    assert!(!token
        .verify("ba7816bf8f01cfea414140de5dae2223b00361a396177a9cb410ff61f20015ad"));
}

const SECOND: u64 = 1_000_000_000;

#[test]
fn claims_are_limited_within_the_window() {
    let mut limiter = SetupClaimLimiter::new();
    let ip = ClientIp::V4(0x7f00_0001);
    for i in 0..10 {
        assert!(limiter.check(ip, i * SECOND));
    }
    assert!(!limiter.check(ip, 10 * SECOND));
    // Exactly a window after the first claim it still counts.
    assert!(!limiter.check(ip, 60 * SECOND));
    // Just after, it does not; but the second one does.
    assert!(limiter.check(ip, 60 * SECOND + 1));
    assert!(!limiter.check(ip, 60 * SECOND + 2));
}

#[test]
fn claims_get_through_while_fewer_are_in_the_window() {
    let mut limiter = SetupClaimLimiter::new();
    let ip = ClientIp::V4(3);
    let mut passed: Vec<u64> = vec![];
    let mut now: u64 = 0;
    for step in 0..400 {
        now = now.max((step * step % 7 + step * 3) * SECOND);
        let counted = passed.iter().filter(|at| now - **at <= 60 * SECOND).count();
        let allowed = limiter.check(ip, now);
        assert_eq!(allowed, counted < 10, "{step}");
        if allowed {
            passed.push(now);
        }
    }
    assert!(passed.len() > 10 && passed.len() < 400);
}

#[test]
fn clients_are_limited_apart() {
    let mut limiter = SetupClaimLimiter::new();
    let a = ClientIp::V4(1);
    let b = ClientIp::V6(1);
    for _ in 0..10 {
        assert!(limiter.check(a, 5));
    }
    assert!(!limiter.check(a, 5));
    assert!(limiter.check(b, 5));
    assert!(!limiter.check(a, 6));
}

#[test]
fn time_that_goes_back_frees_nothing() {
    let mut limiter = SetupClaimLimiter::new();
    let ip = ClientIp::V4(9);
    for _ in 0..10 {
        assert!(limiter.check(ip, 100 * SECOND));
    }
    assert!(!limiter.check(ip, 0));
}

fn chosen(header: Option<&str>, query: &str) -> Option<String> {
    match select_database(header, query) {
        DatabaseChoice::Named(n) => Some(n),
        DatabaseChoice::Active => None,
    }
}

#[test]
fn database_is_named_by_header_then_query() {
    assert_eq!(chosen(Some("h"), "db=q"), Some("h".to_string()));
    assert_eq!(chosen(Some(""), "db=q"), Some(String::new()));
    assert_eq!(chosen(None, "db=q"), Some("q".to_string()));
    assert_eq!(chosen(None, "a=1&db=x=y&db=z"), Some("x=y".to_string()));
    assert_eq!(chosen(None, "db&db="), Some(String::new()));
    assert_eq!(chosen(None, "db"), None);
    assert_eq!(chosen(None, "dbx=1&xdb=2"), None);
    assert_eq!(chosen(None, ""), None);
}
