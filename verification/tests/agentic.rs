use atomic_core::atoms::{Atom, AtomKind, AtomWithTags};
use atomic_core::error::AtomicCoreError;
use atomic_core::reports::citations::{extract_citations, resolve_markers, CITATION_PATTERN};
use atomic_core::reports::evidence::{
    has_tag_scope, passes_context_filter, show_hits, AgentState, MessageRole, SearchHit, ToolCall,
};
use atomic_core::reports::prompt::{build_user_prompt, excerpt_for, snippet_for, FINAL_PROMPT};
use atomic_core::reports::report::{
    max_iterations, CitationPolicy, ContextFilter, ContextScopeMode, KindFilter, Report, TimeWindow,
};
use atomic_core::reports::research::{
    plan_call, reply_to_read, CallPlan, Completion, ResearchAction, ResearchEvent, ResearchRun,
    ToolArgs,
};
use atomic_core::reports::tools::{report_schema, report_tools, MemberType};

fn mock_atom(id: &str, title: &str, body: &str) -> AtomWithTags {
    AtomWithTags {
        atom: Atom {
            id: id.to_string(),
            content: body.to_string(),
            title: title.to_string(),
            snippet: body.to_string(),
            source_url: None,
            source: None,
            published_at: None,
            created_at: "2026-04-11T00:00:00Z".to_string(),
            updated_at: "2026-04-11T00:00:00Z".to_string(),
            embedding_status: "complete".to_string(),
            tagging_status: "complete".to_string(),
            embedding_error: None,
            tagging_error: None,
            kind: AtomKind::Captured,
        },
        tags: vec![],
    }
}

fn mock_report(policy: CitationPolicy) -> Report {
    Report {
        id: "r1".into(),
        name: "test".into(),
        description: None,
        research_prompt: "investigate".into(),
        source_scope_tag_ids: vec![],
        source_scope_window: None,
        source_include_kinds: vec![AtomKind::Captured],
        context_scope_mode: ContextScopeMode::All,
        context_scope_tag_ids: vec![],
        context_scope_window: None,
        context_include_kinds: vec![AtomKind::Captured],
        citation_policy: policy,
        max_source_atoms: None,
        max_source_tokens: None,
        max_tool_iterations: None,
        schedule: "0 0 * * * *".into(),
        schedule_tz: None,
        enabled: true,
        output_atom_tags: vec![],
        last_run_at: None,
        last_finding_atom_id: None,
        last_error: None,
        created_at: "2026-01-01T00:00:00Z".into(),
        updated_at: "2026-01-01T00:00:00Z".into(),
    }
}

fn open_context() -> ContextFilter {
    ContextFilter {
        tag_ids: vec![],
        time_window: None,
        kinds: KindFilter::All,
        excluded_atom_ids: vec![],
    }
}

fn hit(id: &str, title: &str, chunk: &str) -> SearchHit {
    SearchHit {
        atom: mock_atom(id, title, "body"),
        score: "0.87".to_string(),
        matching_chunk_content: chunk.to_string(),
    }
}

fn call(id: &str, name: &str, arguments: &str) -> ToolCall {
    ToolCall {
        id: id.to_string(),
        name: Some(name.to_string()),
        arguments: Some(arguments.to_string()),
    }
}

fn completion(calls: Vec<ToolCall>) -> ResearchEvent {
    ResearchEvent::Completed(Ok(Completion {
        content: String::new(),
        tool_calls: Some(calls),
    }))
}

#[test]
fn source_atoms_numbered_one_indexed() {
    let report = mock_report(CitationPolicy::SourceOnly);
    let source = vec![
        mock_atom("a1", "one", "first"),
        mock_atom("a2", "two", "second"),
    ];
    let state = AgentState::from_source(&report, &source);
    assert_eq!(state.citables.get("a1").unwrap().number, 1);
    assert_eq!(state.citables.get("a2").unwrap().number, 2);
    assert_eq!(state.next_citation_number, 3);
}

#[test]
fn source_only_refuses_to_cite_context_results() {
    let report = mock_report(CitationPolicy::SourceOnly);
    let source = vec![mock_atom("a1", "one", "first")];
    let mut state = AgentState::from_source(&report, &source);
    let new = mock_atom("a-new", "context", "body");
    assert!(state.citation_for_search_result(&new).is_none());
    assert!(!state.citables.contains_key("a-new"));
}

#[test]
fn source_and_context_assigns_next_number_on_first_appearance() {
    let report = mock_report(CitationPolicy::SourceAndContext);
    let source = vec![mock_atom("a1", "one", "first")];
    let mut state = AgentState::from_source(&report, &source);
    let new = mock_atom("a-new", "context", "body");
    assert_eq!(state.citation_for_search_result(&new), Some(2));
    // Reuses the same number on second appearance.
    assert_eq!(state.citation_for_search_result(&new), Some(2));
    // Third atom gets 3.
    let other = mock_atom("a-other", "other", "body");
    assert_eq!(state.citation_for_search_result(&other), Some(3));
}

#[test]
fn shown_numbers_are_the_numbers_that_resolve() {
    let report = mock_report(CitationPolicy::SourceOnly);
    let source = vec![
        mock_atom("a1", "one", "first"),
        mock_atom("a2", "", "second"),
        mock_atom("a3", "three", "third"),
    ];
    let prompt = build_user_prompt(&report, &source, 3);
    let state = AgentState::from_source(&report, &source);
    let mut rest = prompt.as_str();
    for (i, atom) in source.iter().enumerate() {
        let title = if atom.atom.title.is_empty() { "(untitled)" } else { &atom.atom.title };
        let entry = format!(
            "[{}] {}\n    {}\n    (atom id: {})\n\n",
            i + 1,
            title,
            snippet_for(atom),
            atom.atom.id
        );
        let at = rest.find(&entry).unwrap();
        rest = &rest[at + entry.len()..];
        assert_eq!(state.citables.get(&atom.atom.id).unwrap().number, i as i32 + 1);
        let cited = extract_citations(&format!("[{}]", i + 1), &state.citables);
        assert_eq!(cited[0].cited_atom_id, atom.atom.id);
    }
}

#[test]
fn extract_citations_maps_marker_to_known_atom() {
    let report = mock_report(CitationPolicy::SourceOnly);
    let source = vec![
        mock_atom("a1", "one", "first"),
        mock_atom("a2", "two", "second"),
    ];
    let state = AgentState::from_source(&report, &source);
    let content = "Intro [1]. Detail [2]. More [1].";
    let cites = extract_citations(content, &state.citables);
    assert_eq!(cites.len(), 2);
    assert_eq!(cites[0].position, 1);
    assert_eq!(cites[0].cited_atom_id, "a1");
    assert_eq!(cites[1].position, 2);
    assert_eq!(cites[1].cited_atom_id, "a2");
}

#[test]
fn extract_citations_out_of_sequence_preserves_marker_number() {
    let report = mock_report(CitationPolicy::SourceOnly);
    let source = vec![
        mock_atom("a1", "one", "first"),
        mock_atom("a2", "two", "second"),
        mock_atom("a3", "three", "third"),
    ];
    let state = AgentState::from_source(&report, &source);
    let content = "First [3]. Then [1].";
    let cites = extract_citations(content, &state.citables);
    assert_eq!(cites.len(), 2);
    assert_eq!(cites[0].position, 3);
    assert_eq!(cites[0].cited_atom_id, "a3");
    assert_eq!(cites[1].position, 1);
    assert_eq!(cites[1].cited_atom_id, "a1");
}

#[test]
fn extract_citations_drops_unknown_markers() {
    let report = mock_report(CitationPolicy::SourceOnly);
    let source = vec![mock_atom("a1", "one", "first")];
    let state = AgentState::from_source(&report, &source);
    let content = "Valid [1]. Hallucinated [9].";
    let cites = extract_citations(content, &state.citables);
    assert_eq!(cites.len(), 1);
    assert_eq!(cites[0].cited_atom_id, "a1");
}

#[test]
fn passes_context_filter_excludes_listed_ids() {
    let atom = mock_atom("ex", "title", "body");
    let ctx = ContextFilter {
        tag_ids: vec![],
        time_window: None,
        kinds: KindFilter::All,
        excluded_atom_ids: vec!["ex".to_string()],
    };
    assert!(!passes_context_filter(&atom, &ctx));
}

#[test]
fn passes_context_filter_before_window() {
    let atom = mock_atom("a", "t", "b");
    // atom.created_at = "2026-04-11T00:00:00Z"
    let ctx = ContextFilter {
        tag_ids: vec![],
        time_window: Some(TimeWindow::Before("2026-04-10T00:00:00Z".into())),
        kinds: KindFilter::All,
        excluded_atom_ids: vec![],
    };
    assert!(!passes_context_filter(&atom, &ctx));
    let ctx_after = ContextFilter {
        time_window: Some(TimeWindow::Before("2026-04-12T00:00:00Z".into())),
        ..ctx
    };
    assert!(passes_context_filter(&atom, &ctx_after));
}

#[test]
fn context_window_is_open_at_both_ends() {
    let atom = mock_atom("a", "t", "b");
    let at = "2026-04-11T00:00:00Z".to_string();
    let before = ContextFilter {
        time_window: Some(TimeWindow::Before(at.clone())),
        ..open_context()
    };
    let after = ContextFilter {
        time_window: Some(TimeWindow::After(at)),
        ..open_context()
    };
    assert!(!passes_context_filter(&atom, &before));
    assert!(!passes_context_filter(&atom, &after));
    let long_after = ContextFilter {
        time_window: Some(TimeWindow::After("2026-04-10T23:59:59Z".into())),
        ..open_context()
    };
    assert!(passes_context_filter(&atom, &long_after));
}

#[test]
fn context_kinds_must_be_listed() {
    let atom = mock_atom("a", "t", "b");
    let none = ContextFilter {
        kinds: KindFilter::Only(vec![]),
        ..open_context()
    };
    assert!(!passes_context_filter(&atom, &none));
    let captured = ContextFilter {
        kinds: KindFilter::only(AtomKind::Captured),
        ..open_context()
    };
    assert!(passes_context_filter(&atom, &captured));
    let reports = ContextFilter {
        kinds: KindFilter::only(AtomKind::Report),
        ..open_context()
    };
    assert!(!passes_context_filter(&atom, &reports));
}

#[test]
fn context_tags_are_looked_up_only_if_there_are_any() {
    assert!(!has_tag_scope(&open_context()));
    let tagged = ContextFilter {
        tag_ids: vec!["t1".to_string()],
        ..open_context()
    };
    assert!(has_tag_scope(&tagged));
}

#[test]
fn source_only_evidence_never_grows() {
    let report = mock_report(CitationPolicy::SourceOnly);
    let source = vec![mock_atom("a1", "one", "first")];
    let mut state = AgentState::from_source(&report, &source);
    assert_eq!(state.citation_for_search_result(&mock_atom("a1", "one", "first")), Some(1));
    assert_eq!(state.citation_for_search_result(&mock_atom("b", "t", "x")), None);
    assert_eq!(state.next_citation_number, 2);
    assert_eq!(state.citables.len(), 1);
}

#[test]
fn repeated_source_atom_has_its_last_place_as_number() {
    let report = mock_report(CitationPolicy::SourceOnly);
    let source = vec![
        mock_atom("a", "one", "first"),
        mock_atom("b", "two", "second"),
        mock_atom("a", "one", "third"),
    ];
    let state = AgentState::from_source(&report, &source);
    assert_eq!(state.citables.get("a").unwrap().number, 3);
    assert_eq!(state.citables.get("a").unwrap().excerpt, "third");
    assert_eq!(state.next_citation_number, 4);
    assert_eq!(extract_citations("[1] [2] [3]", &state.citables).len(), 2);
}

#[test]
fn markers_are_digits_in_brackets() {
    let report = mock_report(CitationPolicy::SourceOnly);
    let source: Vec<AtomWithTags> = (1..=12)
        .map(|i| mock_atom(&format!("a{i}"), "t", &format!("body {i}")))
        .collect();
    let state = AgentState::from_source(&report, &source);
    let positions = |content: &str| -> Vec<i32> {
        extract_citations(content, &state.citables)
            .iter()
            .map(|c| c.position)
            .collect()
    };
    assert_eq!(positions("[12][3]"), vec![12, 3]);
    assert_eq!(positions("[[3]]"), vec![3]);
    assert_eq!(positions("[ 3] [3 ] [] [a] [-3] [+3] [3"), Vec::<i32>::new());
    assert_eq!(positions("[03] [3]"), vec![3]);
    assert_eq!(positions("[0]"), Vec::<i32>::new());
    assert_eq!(positions("[99999999999999999999] [2]"), vec![2]);
    assert_eq!(positions("[2147483648] [1]"), vec![1]);
    assert_eq!(positions("[\u{663}] [1\u{663}] [4]"), vec![4]);
    assert_eq!(positions("[1[2]3]"), vec![2]);
    assert_eq!(positions(""), Vec::<i32>::new());
}

#[test]
fn citation_pattern_compiles() {
    let re = regex::Regex::new(CITATION_PATTERN).unwrap();
    let found: Vec<&str> = re
        .captures_iter("x [1] y [23]")
        .map(|c| c.get(1).unwrap().as_str())
        .collect();
    assert_eq!(found, vec!["1", "23"]);
}

#[test]
fn markers_resolve_to_evidence() {
    let report = mock_report(CitationPolicy::SourceOnly);
    let source = vec![mock_atom("a1", "one", "first"), mock_atom("a2", "two", "second")];
    let state = AgentState::from_source(&report, &source);
    let groups = vec!["2".to_string(), "x".to_string(), "2".to_string(), "1".to_string()];
    let cites = resolve_markers(&groups, &state.citables);
    assert_eq!(cites.len(), 2);
    assert_eq!((cites[0].position, cites[0].excerpt.as_str()), (2, "second"));
    assert_eq!((cites[1].position, cites[1].excerpt.as_str()), (1, "first"));
}

#[test]
fn snippets_are_one_line_and_cut() {
    let mut atom = mock_atom("a", "t", " first\nsecond ");
    assert_eq!(snippet_for(&atom), "first second");
    assert_eq!(excerpt_for(&atom), "first\nsecond");
    atom.atom.snippet = String::new();
    atom.atom.content = "x".repeat(400);
    assert_eq!(snippet_for(&atom), format!("{}...", "x".repeat(200)));
    assert_eq!(excerpt_for(&atom), format!("{}...", "x".repeat(300)));
    atom.atom.content = "x".repeat(200);
    assert_eq!(snippet_for(&atom), "x".repeat(200));
    // A character that straddles the limit is kept whole.
    atom.atom.content = format!("{}é{}", "x".repeat(199), "y".repeat(50));
    assert_eq!(snippet_for(&atom), format!("{}é...", "x".repeat(199)));
}

#[test]
fn user_prompt_lists_the_sources() {
    let report = mock_report(CitationPolicy::SourceOnly);
    let source = vec![mock_atom("a1", "one", "first"), mock_atom("a2", "", "second")];
    assert_eq!(
        build_user_prompt(&report, &source, 5),
        "RESEARCH PROMPT:\ninvestigate\n\nCite source atoms with [N] inline markers using the bracketed numbers from the source list below.\n\nSOURCE ATOMS (2 of 5 in scope):\n(showing the newest within the configured cap; older atoms truncated)\n\n[1] one\n    first\n    (atom id: a1)\n\n[2] (untitled)\n    second\n    (atom id: a2)\n\nCitation policy: source_only — only the [N] above may be cited; search results are background only.\n"
    );
    let report = mock_report(CitationPolicy::SourceAndContext);
    let prompt = build_user_prompt(&report, &source, 2);
    assert!(prompt.contains("Cite with [N] inline markers — numbers come from the source list"));
    assert!(prompt.contains("SOURCE ATOMS (2 of 2 in scope):\n[1] one"));
    assert!(prompt.ends_with("Citation policy: source_and_context — search results will be assigned [N] numbers and become citable.\n"));
    assert!(build_user_prompt(&report, &[], 0).ends_with("(no source atoms — this should be unreachable; the runner short-circuits empty scopes)\n"));
    assert!(build_user_prompt(&report, &source, -1).contains("(2 of -1 in scope):\n(showing"));
}

#[test]
fn rounds_are_at_least_one() {
    let mut report = mock_report(CitationPolicy::SourceOnly);
    assert_eq!(max_iterations(&report), 20);
    report.max_tool_iterations = Some(0);
    assert_eq!(max_iterations(&report), 1);
    report.max_tool_iterations = Some(-7);
    assert_eq!(max_iterations(&report), 1);
    report.max_tool_iterations = Some(33);
    assert_eq!(max_iterations(&report), 33);
}

#[test]
fn tools_are_three() {
    let tools = report_tools();
    let names: Vec<&str> = tools.iter().map(|t| t.name.as_str()).collect();
    assert_eq!(names, vec!["read_atom", "semantic_search", "done"]);
    assert_eq!(tools[0].parameters.required, vec!["atom_id"]);
    assert_eq!(tools[0].parameters.members.len(), 3);
    assert_eq!(tools[0].parameters.members[1].default, Some(500));
    assert_eq!(tools[1].parameters.members[1].default, Some(5));
    assert!(tools[2].parameters.members.is_empty());
    let schema = report_schema();
    assert_eq!(schema.required, vec!["finding_content", "citations_used"]);
    assert_eq!(schema.members[1].member_type, MemberType::Integers);
}

#[test]
fn calls_are_planned_within_bounds() {
    let args = |limit: Option<i64>, offset: Option<i64>| ToolArgs {
        atom_id: Some("a1".to_string()),
        query: Some("cats".to_string()),
        limit,
        offset,
    };
    match plan_call("read_atom", args(None, None)) {
        CallPlan::Read { atom_id, limit, offset } => {
            assert_eq!((atom_id.as_str(), limit, offset), ("a1", 500, 0));
        }
        _ => panic!("Wrong plan"),
    }
    match plan_call("read_atom", args(Some(0), Some(-3))) {
        CallPlan::Read { limit, offset, .. } => assert_eq!((limit, offset), (1, 0)),
        _ => panic!("Wrong plan"),
    }
    match plan_call("read_atom", args(Some(9000), Some(12))) {
        CallPlan::Read { limit, offset, .. } => assert_eq!((limit, offset), (500, 12)),
        _ => panic!("Wrong plan"),
    }
    let search = |limit: Option<i64>| match plan_call("semantic_search", args(limit, None)) {
        CallPlan::Search { query, requested, fetch } => {
            assert_eq!(query, "cats");
            (requested, fetch)
        }
        _ => panic!("Wrong plan"),
    };
    assert_eq!(search(None), (5, 10));
    assert_eq!(search(Some(1)), (1, 3));
    assert_eq!(search(Some(3)), (3, 9));
    assert_eq!(search(Some(-4)), (1, 3));
    assert_eq!(search(Some(100)), (10, 10));
    let empty = ToolArgs { atom_id: None, query: None, limit: None, offset: None };
    match plan_call("read_atom", empty) {
        CallPlan::Reply(text) => assert_eq!(text, "Error: atom_id is required"),
        _ => panic!("Wrong plan"),
    }
    let blank = ToolArgs { atom_id: None, query: Some(String::new()), limit: None, offset: None };
    match plan_call("semantic_search", blank) {
        CallPlan::Reply(text) => assert_eq!(text, "Error: query is required"),
        _ => panic!("Wrong plan"),
    }
    assert!(matches!(plan_call("done", args(None, None)), CallPlan::Done));
    match plan_call("fly", args(None, None)) {
        CallPlan::Reply(text) => assert_eq!(text, "Unknown tool: fly"),
        _ => panic!("Wrong plan"),
    }
}

#[test]
fn atoms_are_read_in_windows() {
    let mut atom = mock_atom("a1", "Title", "b");
    atom.atom.content = "l1\nl2\r\nl3\nl4".to_string();
    let found = Ok(Some(atom));
    assert_eq!(
        reply_to_read("a1", 2, 1, &found),
        "# Title\n(lines 2-3 of 4)\n\nl2\nl3\n\n(More content available. Call read_atom again with offset=3 to continue.)"
    );
    assert_eq!(reply_to_read("a1", 500, 0, &found), "# Title\n(lines 1-4 of 4)\n\nl1\nl2\nl3\nl4");
    assert_eq!(reply_to_read("a1", 2, 9, &found), "# Title\n(lines 5-4 of 4)\n\n");
    assert_eq!(
        reply_to_read("a9", 1, 0, &Ok(None)),
        "Error: no atom found with id a9"
    );
    assert_eq!(
        reply_to_read("a9", 1, 0, &Err("locked".to_string())),
        "Error fetching atom a9: locked"
    );
    let untitled = Ok(Some(mock_atom("a2", "", "")));
    assert_eq!(reply_to_read("a2", 5, 0, &untitled), "# (untitled)\n(lines 1-0 of 0)\n\n");
}

#[test]
fn pages_give_every_line_once() {
    let mut atom = mock_atom("a1", "Title", "");
    let lines: Vec<String> = (0..23).map(|i| format!("line {i}")).collect();
    atom.atom.content = lines.join("\n");
    let found = Ok(Some(atom));
    let mut read: Vec<String> = vec![];
    let mut offset: u64 = 0;
    for limit in [5, 1, 7, 2, 500] {
        let reply = reply_to_read("a1", limit, offset, &found);
        let body = reply.split_once(")\n\n").unwrap().1;
        let (page, more) = match body.split_once("\n\n(More content available. Call read_atom again with offset=") {
            Some((page, rest)) => (page, Some(rest)),
            None => (body, None),
        };
        read.extend(page.split('\n').map(|l| l.to_string()));
        match more {
            Some(rest) => offset = rest.strip_suffix(" to continue.)").unwrap().parse().unwrap(),
            None => break,
        }
    }
    assert_eq!(read, lines);
}

#[test]
fn search_results_are_numbered_and_filtered() {
    let report = mock_report(CitationPolicy::SourceAndContext);
    let mut state = AgentState::from_source(&report, &[mock_atom("a1", "one", "first")]);
    let ctx = ContextFilter {
        excluded_atom_ids: vec!["out".to_string()],
        ..open_context()
    };
    let scope = Some(vec!["a1".to_string(), "b".to_string(), "out".to_string()]);
    let hits = vec![
        hit("out", "excluded", "x"),
        hit("c", "untagged", "x"),
        hit("b", "new", "two\nlines"),
        hit("a1", "one", "x"),
    ];
    assert_eq!(
        show_hits(&mut state, &ctx, &scope, &hits, 5),
        "[2] citable. new\n   two lines\n   (atom id: b, score: 0.87)\n   two lines\n\n[1] citable. one\n   x\n   (atom id: a1, score: 0.87)\n   x\n\n"
    );
    assert_eq!(state.next_citation_number, 3);
    let only = mock_report(CitationPolicy::SourceOnly);
    let mut state = AgentState::from_source(&only, &[]);
    assert_eq!(
        show_hits(&mut state, &ctx, &None, &hits, 1),
        "(context only, not citable). untagged\n   x\n   (atom id: c, score: 0.87)\n   x\n\n"
    );
    assert_eq!(
        show_hits(&mut state, &ctx, &Some(vec![]), &hits, 3),
        "No results in context scope."
    );
}

#[test]
fn research_answers_every_call() {
    let mut report = mock_report(CitationPolicy::SourceAndContext);
    report.max_tool_iterations = Some(2);
    let source = vec![mock_atom("a1", "one", "first")];
    let mut run = ResearchRun::begin(&report, &source, 1, open_context(), None);
    assert_eq!(run.messages().len(), 2);
    assert_eq!(run.messages()[0].role, MessageRole::System);
    assert!(run.messages()[0]
        .content
        .as_deref()
        .unwrap()
        .ends_with("Call done() before writing the final report.\n\n---\nReport-specific instructions follow."));
    let event = completion(vec![
        call("c1", "fly", "{}"),
        call("c2", "read_atom", "{\"atom_id\": \"a7\", \"limit\": 3}"),
        call("c3", "semantic_search", "{\"query\": \"cats\", \"limit\": 2}"),
        call("c4", "semantic_search", "not json"),
    ]);
    assert!(run.accepts(&event));
    match run.step(event) {
        ResearchAction::GetAtom(id) => assert_eq!(id, "a7"),
        _ => panic!("Wrong action"),
    }
    let found = ResearchEvent::AtomFound(Ok(Some(mock_atom("a7", "seven", "1\n2\n3\n4"))));
    assert!(run.accepts(&found));
    match run.step(found) {
        ResearchAction::Search { query, limit } => assert_eq!((query.as_str(), limit), ("cats", 6)),
        _ => panic!("Wrong action"),
    }
    let hits = ResearchEvent::Found(Ok(vec![hit("b", "bee", "buzz")]));
    assert!(run.accepts(&hits));
    assert!(matches!(run.step(hits), ResearchAction::Complete));
    let ids: Vec<&str> = run.messages()[3..]
        .iter()
        .map(|m| m.tool_call_id.as_deref().unwrap())
        .collect();
    assert_eq!(ids, vec!["c1", "c2", "c3", "c4"]);
    let texts: Vec<&str> = run.messages()[3..]
        .iter()
        .map(|m| m.content.as_deref().unwrap())
        .collect();
    assert_eq!(texts[0], "Unknown tool: fly");
    assert!(texts[1].starts_with("# seven\n(lines 1-3 of 4)"));
    assert!(texts[2].starts_with("[2] citable. bee"));
    assert_eq!(texts[3], "Error: query is required");
    // The second round is the last, whether or not the end is called.
    assert!(matches!(
        run.step(completion(vec![call("c5", "fly", "{}")])),
        ResearchAction::Finish
    ));
    assert!(!run.done_called());
    assert!(!run.accepts(&completion(vec![])));
    run.ask_for_finding();
    assert_eq!(
        run.messages().last().unwrap().content.as_deref(),
        Some(FINAL_PROMPT)
    );
    let out = run.conclude(Ok("See [2] and [1].".to_string())).unwrap();
    assert_eq!(out.content, "See [2] and [1].");
    let cited: Vec<(i32, &str)> = out
        .citations
        .iter()
        .map(|c| (c.position, c.cited_atom_id.as_str()))
        .collect();
    assert_eq!(cited, vec![(2, "b"), (1, "a1")]);
    match run.conclude(Err("bad json".to_string())) {
        Err(AtomicCoreError::DatabaseOperation(m)) => {
            assert_eq!(m, "final report pass failed: bad json")
        }
        _ => panic!("Wrong result"),
    }
}

#[test]
fn research_ends_when_the_end_is_called() {
    let report = mock_report(CitationPolicy::SourceOnly);
    let mut run = ResearchRun::begin(&report, &[], 0, open_context(), None);
    let event = completion(vec![call("c1", "done", "{}"), call("c2", "fly", "{}")]);
    assert!(matches!(run.step(event), ResearchAction::Finish));
    assert!(run.done_called());
    assert_eq!(run.messages().len(), 5);
    assert_eq!(
        run.messages()[3].content.as_deref(),
        Some("Acknowledged. Write the report in your next message.")
    );
    // A call behind the end is still answered; then no round follows.
    let mut run = ResearchRun::begin(&report, &[], 0, open_context(), None);
    let event = completion(vec![
        call("c1", "done", "{}"),
        call("c2", "read_atom", "{\"atom_id\":\"a9\"}"),
    ]);
    assert!(matches!(run.step(event), ResearchAction::GetAtom(_)));
    assert!(run.done_called());
    assert!(matches!(run.step(ResearchEvent::AtomFound(Ok(None))), ResearchAction::Finish));
    // Without the end another round follows, and nothing is noted.
    let mut run = ResearchRun::begin(&report, &[], 0, open_context(), None);
    let event = completion(vec![call("c1", "fly", "{}")]);
    assert!(matches!(run.step(event), ResearchAction::Complete));
    assert!(!run.done_called());
}

#[test]
fn research_ends_without_calls_and_fails_without_a_writer() {
    let report = mock_report(CitationPolicy::SourceOnly);
    let mut run = ResearchRun::begin(&report, &[], 0, open_context(), None);
    assert!(matches!(run.step(completion(vec![])), ResearchAction::Finish));
    let mut run = ResearchRun::begin(&report, &[], 0, open_context(), None);
    match run.step(ResearchEvent::Completed(Err("timeout".to_string()))) {
        ResearchAction::Fail(AtomicCoreError::DatabaseOperation(m)) => {
            assert_eq!(m, "report research LLM call failed: timeout")
        }
        _ => panic!("Wrong action"),
    }
    let mut run = ResearchRun::begin(&report, &[], 0, open_context(), None);
    run.step(completion(vec![call("c", "semantic_search", "{\"query\":\"q\"}")]));
    assert!(matches!(
        run.step(ResearchEvent::Found(Err("down".to_string()))),
        ResearchAction::Complete
    ));
    assert_eq!(
        run.messages().last().unwrap().content.as_deref(),
        Some("Search error: down")
    );
}
