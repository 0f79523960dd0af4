use atomic_core::error::AtomicCoreError;
use atomic_core::settings::ProviderType;
use atomic_core::strmap::StrMap;
use atomic_core::wiki::{
    accept_wiki_proposal, article_to_propose_against, article_to_update, build_wiki_config,
    linkable_article_names, propose_wiki_update, propose_wiki_update_as, resolve_model,
    updated_article, ProposalStep, RelatedTag, WikiArticle, WikiArticleWithCitations, WikiDraft,
    WikiProposal, WikiProposalOutcome,
};

fn article() -> WikiArticle {
    WikiArticle {
        id: "w1".to_string(),
        tag_id: "t1".to_string(),
        content: "old".to_string(),
        created_at: "c".to_string(),
        updated_at: "u1".to_string(),
        atom_count: 4,
    }
}

fn with_citations(article: WikiArticle) -> WikiArticleWithCitations<u8> {
    WikiArticleWithCitations {
        article,
        citations: vec![1],
    }
}

fn draft() -> WikiProposalOutcome<u8, char> {
    WikiProposalOutcome::Draft(WikiDraft {
        merged_content: "new".to_string(),
        citations: vec![7, 8],
        ops: vec!['+'],
        new_atom_count: 3,
    })
}

fn proposal() -> WikiProposal<u8, char> {
    match propose_wiki_update_as("t1", &article(), draft(), "p1".to_string(), "u2".to_string()) {
        ProposalStep::Save(p) => p,
        _ => panic!("Wrong step"),
    }
}

fn wiki_error<T>(r: Result<T, AtomicCoreError>) -> String {
    match r {
        Err(AtomicCoreError::Wiki(m)) => m,
        _ => panic!("Wrong result"),
    }
}

#[test]
fn only_tags_with_an_article_are_linked() {
    let related = |id: &str, has_article: bool| RelatedTag {
        tag_id: id.to_string(),
        tag_name: id.to_uppercase(),
        has_article,
    };
    let list = vec![related("a", true), related("b", false), related("c", true)];
    assert_eq!(
        linkable_article_names(Some(&list)),
        vec![
            ("a".to_string(), "A".to_string()),
            ("c".to_string(), "C".to_string())
        ]
    );
    assert!(linkable_article_names(None).is_empty());
}

#[test]
fn writer_is_named_by_provider_or_settings() {
    let mut settings = StrMap::new();
    assert_eq!(resolve_model(&settings, ProviderType::OpenRouter, "llm", "fallback"), "fallback");
    settings.insert("wiki_model".to_string(), "chosen".to_string());
    assert_eq!(resolve_model(&settings, ProviderType::OpenRouter, "llm", "fallback"), "chosen");
    assert_eq!(resolve_model(&settings, ProviderType::Ollama, "llm", "fallback"), "llm");
    assert_eq!(resolve_model(&settings, ProviderType::OpenAICompat, "llm", "fallback"), "llm");
    settings.insert("wiki_update_prompt".to_string(), "be brief".to_string());
    let config = build_wiki_config(&settings, ProviderType::OpenRouter, "llm", "fallback", None);
    assert_eq!((config.wiki_model.as_str(), config.strategy.as_str()), ("chosen", "centroid"));
    assert_eq!(config.custom_update_prompt.as_deref(), Some("be brief"));
    assert_eq!(config.custom_generation_prompt, None);
    settings.insert("wiki_strategy".to_string(), "agentic".to_string());
    let config = build_wiki_config(&settings, ProviderType::Ollama, "llm", "fallback", None);
    assert_eq!((config.wiki_model.as_str(), config.strategy.as_str()), ("llm", "agentic"));
}

#[test]
fn update_needs_an_article() {
    assert!(article_to_update(Some(with_citations(article()))).is_ok());
    assert_eq!(wiki_error(article_to_update::<u8>(None)), "No existing article to update");
    assert_eq!(
        wiki_error(article_to_propose_against::<u8>(None)),
        "No existing article to propose update against"
    );
    assert!(article_to_propose_against(Some(with_citations(article()))).is_ok());
    let (kept, save) = updated_article(with_citations(article()), None);
    assert_eq!((kept.article.content.as_str(), save), ("old", false));
    let mut other = article();
    other.content = "rewritten".to_string();
    let (new, save) = updated_article(with_citations(article()), Some(with_citations(other)));
    assert_eq!((new.article.content.as_str(), save), ("rewritten", true));
}

#[test]
fn proposal_is_made_against_the_live_article() {
    let p = proposal();
    assert_eq!((p.id.as_str(), p.tag_id.as_str()), ("p1", "t1"));
    assert_eq!((p.base_article_id.as_str(), p.base_updated_at.as_str()), ("w1", "u1"));
    assert_eq!((p.content.as_str(), p.created_at.as_str()), ("new", "u2"));
    assert_eq!((p.citations, p.ops, p.new_atom_count), (vec![7, 8], vec!['+'], 3));
    match propose_wiki_update("t1", &article(), draft()) {
        ProposalStep::Save(p) => {
            assert!(uuid::Uuid::parse_str(&p.id).is_ok());
            assert!(chrono::DateTime::parse_from_rfc3339(&p.created_at).is_ok());
        }
        _ => panic!("Wrong step"),
    }
}

#[test]
fn baseline_advances_when_nothing_changes() {
    let none: WikiProposalOutcome<u8, char> = WikiProposalOutcome::NoChange;
    assert!(matches!(
        propose_wiki_update("t1", &article(), none),
        ProposalStep::AdvanceBaseline(None)
    ));
    let none: WikiProposalOutcome<u8, char> = WikiProposalOutcome::NoUpdateChunks;
    assert!(matches!(
        propose_wiki_update("t1", &article(), none),
        ProposalStep::AdvanceBaseline(Some(4))
    ));
}

#[test]
fn accepted_proposal_becomes_the_article() {
    let r = accept_wiki_proposal("t1", Some(proposal()), Some(article())).unwrap();
    assert_eq!((r.article.id.as_str(), r.article.content.as_str()), ("w1", "new"));
    assert_eq!((r.article.created_at.as_str(), r.article.updated_at.as_str()), ("c", "u2"));
    assert_eq!((r.article.tag_id.as_str(), r.article.atom_count), ("t1", 7));
    assert_eq!(r.citations, vec![7, 8]);
    // The article has changed by it, so the same proposal is stale now.
    assert!(accept_wiki_proposal("t1", Some(proposal()), Some(r.article)).is_err());
}

#[test]
fn stale_proposals_are_refused() {
    let stale = "Proposal is stale — live article was updated since the proposal was computed. Regenerate the proposal to review it.";
    let mut newer = article();
    newer.updated_at = "u9".to_string();
    assert_eq!(wiki_error(accept_wiki_proposal("t1", Some(proposal()), Some(newer))), stale);
    let mut other = article();
    other.id = "w2".to_string();
    assert_eq!(wiki_error(accept_wiki_proposal("t1", Some(proposal()), Some(other))), stale);
    assert_eq!(
        wiki_error(accept_wiki_proposal::<u8, char>("t1", None, Some(article()))),
        "No pending proposal for this tag"
    );
    assert_eq!(
        wiki_error(accept_wiki_proposal("t1", Some(proposal()), None)),
        "Live article disappeared while proposal was pending"
    );
}
