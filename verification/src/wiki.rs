//! Wiki articles: how they are generated, and how an update is proposed and accepted.

use crate::error::{AtomicCoreError, ErrorView};
use crate::ids::{is_id, new_id, now_rfc3339};
use crate::settings::{row, ProviderType};
use crate::strmap::StrMap;
use crate::text::{opt_view, text_eq};
use vstd::prelude::*;

verus! {

/// How many related tags are looked at for articles to link to.
pub const MAX_CROSS_LINK_TAGS: usize = 50;

/// A wiki article.
#[derive(Debug, Clone)]
pub struct WikiArticle {
    pub id: String,
    pub tag_id: String,
    pub content: String,
    pub created_at: String,
    pub updated_at: String,
    pub atom_count: i32,
}

/// A wiki article with its citations.
#[derive(Debug)]
pub struct WikiArticleWithCitations<C> {
    pub article: WikiArticle,
    pub citations: Vec<C>,
}

/// An update that waits to be accepted.
#[derive(Debug)]
pub struct WikiProposal<C, O> {
    pub id: String,
    pub tag_id: String,
    pub base_article_id: String,
    pub base_updated_at: String,
    pub content: String,
    pub citations: Vec<C>,
    pub ops: Vec<O>,
    pub new_atom_count: i32,
    pub created_at: String,
}

/// An update as it was written.
#[derive(Debug)]
pub struct WikiDraft<C, O> {
    pub merged_content: String,
    pub citations: Vec<C>,
    pub ops: Vec<O>,
    pub new_atom_count: i32,
}

/// What an attempt to write an update came to.
#[derive(Debug)]
pub enum WikiProposalOutcome<C, O> {
    Draft(WikiDraft<C, O>),
    /// What is new gives no reason for a change.
    NoChange,
    /// Nothing new was found.
    NoUpdateChunks,
}

/// A tag that is related to another one.
#[derive(Debug, Clone)]
pub struct RelatedTag {
    pub tag_id: String,
    pub tag_name: String,
    pub has_article: bool,
}

/// The related tags that have articles: ids and names.
pub open spec fn linkable(related: Seq<RelatedTag>) -> Seq<(Seq<char>, Seq<char>)>
    decreases related.len(),
{
    if related.len() == 0 {
        Seq::empty()
    } else {
        let before = linkable(related.drop_last());
        if related.last().has_article {
            before.push((related.last().tag_id@, related.last().tag_name@))
        } else {
            before
        }
    }
}

/// What a list of ids and names holds.
pub open spec fn name_views(names: Seq<(String, String)>) -> Seq<(Seq<char>, Seq<char>)> {
    names.map_values(|p: (String, String)| (p.0@, p.1@))
}

/// The articles that an article may link to: those of the related tags that have one; none if
/// the related tags could not be had.
pub fn linkable_article_names(related: Option<&Vec<RelatedTag>>) -> (r: Vec<(String, String)>)
    ensures
        name_views(r@) == match related {
            Some(v) => linkable(v@),
            None => Seq::empty(),
        },
{
    let mut r: Vec<(String, String)> = Vec::new();
    assert(name_views(r@) =~= Seq::empty());
    let list = match related {
        Some(v) => v,
        None => {
            return r;
        },
    };
    let mut i: usize = 0;
    while i < list.len()
        invariant
            i <= list@.len(),
            name_views(r@) == linkable(list@.take(i as int)),
        decreases list@.len() - i,
    {
        let ghost before = name_views(r@);
        assert(list@.take(i + 1).drop_last() =~= list@.take(i as int));
        if list[i].has_article {
            let pair = (list[i].tag_id.clone(), list[i].tag_name.clone());
            r.push(pair);
            assert(name_views(r@) =~= before.push((list@[i as int].tag_id@, list@[i as int].tag_name@)));
        }
        i = i + 1;
    }
    assert(list@.take(i as int) =~= list@);
    r
}

/// How an article is written.
#[derive(Debug)]
pub struct WikiConfig {
    pub wiki_model: String,
    pub strategy: String,
    pub linkable_article_names: Vec<(String, String)>,
    pub custom_generation_prompt: Option<String>,
    pub custom_update_prompt: Option<String>,
}

/// The value of a setting, or another one where it has none.
pub open spec fn setting_or(settings: Map<Seq<char>, String>, key: Seq<char>, other: Seq<char>) -> Seq<
    char,
> {
    match row(settings, key) {
        Some(v) => v,
        None => other,
    }
}

fn get_or(settings: &StrMap<String>, key: &str, other: &str) -> (r: String)
    ensures
        r@ == setting_or(settings@, key@, other@),
{
    match settings.get(key) {
        Some(v) => v.clone(),
        None => other.to_owned(),
    }
}

fn get_setting(settings: &StrMap<String>, key: &str) -> (r: Option<String>)
    ensures
        opt_view(r) == row(settings@, key@),
{
    match settings.get(key) {
        Some(v) => Some(v.clone()),
        None => None,
    }
}

/// The model that writes: the provider's own, or, where the provider has many, the one that the
/// settings name, or else `router_model`.
pub open spec fn writer_named(
    settings: Map<Seq<char>, String>,
    provider: ProviderType,
    llm_model: Seq<char>,
    router_model: Seq<char>,
) -> Seq<char> {
    match provider {
        ProviderType::OpenRouter => setting_or(settings, "wiki_model"@, router_model),
        _ => llm_model,
    }
}

/// The model that writes articles and reports. Which model `router_model` is, the caller says.
pub fn resolve_model(
    settings: &StrMap<String>,
    provider: ProviderType,
    llm_model: &str,
    router_model: &str,
) -> (r: String)
    ensures
        r@ == writer_named(settings@, provider, llm_model@, router_model@),
{
    match provider {
        ProviderType::OpenRouter => get_or(settings, "wiki_model", router_model),
        _ => llm_model.to_owned(),
    }
}

/// How an article is written under the settings: by centroids unless the settings say otherwise.
pub fn build_wiki_config(
    settings: &StrMap<String>,
    provider: ProviderType,
    llm_model: &str,
    router_model: &str,
    related: Option<&Vec<RelatedTag>>,
) -> (r: WikiConfig)
    ensures
        r.wiki_model@ == writer_named(settings@, provider, llm_model@, router_model@),
        r.strategy@ == setting_or(settings@, "wiki_strategy"@, "centroid"@),
        name_views(r.linkable_article_names@) == match related {
            Some(v) => linkable(v@),
            None => Seq::empty(),
        },
        opt_view(r.custom_generation_prompt) == row(settings@, "wiki_generation_prompt"@),
        opt_view(r.custom_update_prompt) == row(settings@, "wiki_update_prompt"@),
{
    WikiConfig {
        wiki_model: resolve_model(settings, provider, llm_model, router_model),
        strategy: get_or(settings, "wiki_strategy", "centroid"),
        linkable_article_names: linkable_article_names(related),
        custom_generation_prompt: get_setting(settings, "wiki_generation_prompt"),
        custom_update_prompt: get_setting(settings, "wiki_update_prompt"),
    }
}

/// The article that is rewritten; without one there is nothing to rewrite.
pub fn article_to_update<C>(existing: Option<WikiArticleWithCitations<C>>) -> (r: Result<
    WikiArticleWithCitations<C>,
    AtomicCoreError,
>)
    ensures
        match r {
            Ok(a) => existing == Some(a),
            Err(e) => existing is None && e@ == ErrorView::Wiki("No existing article to update"@),
        },
{
    match existing {
        Some(a) => Ok(a),
        None => Err(AtomicCoreError::Wiki("No existing article to update".to_owned())),
    }
}

/// The article after a rewrite, and whether it has to be saved: where nothing was rewritten, the
/// article stays.
pub fn updated_article<C>(
    existing: WikiArticleWithCitations<C>,
    rewritten: Option<WikiArticleWithCitations<C>>,
) -> (r: (WikiArticleWithCitations<C>, bool))
    ensures
        match rewritten {
            Some(a) => r == (a, true),
            None => r == (existing, false),
        },
{
    match rewritten {
        Some(a) => (a, true),
        None => (existing, false),
    }
}

/// The article against which an update is proposed; without one there is nothing to propose.
pub fn article_to_propose_against<C>(existing: Option<WikiArticleWithCitations<C>>) -> (r: Result<
    WikiArticleWithCitations<C>,
    AtomicCoreError,
>)
    ensures
        match r {
            Ok(a) => existing == Some(a),
            Err(e) => existing is None && e@ == ErrorView::Wiki(
                "No existing article to propose update against"@,
            ),
        },
{
    match existing {
        Some(a) => Ok(a),
        None => Err(
            AtomicCoreError::Wiki("No existing article to propose update against".to_owned()),
        ),
    }
}

/// What follows an attempt to write an update.
#[derive(Debug)]
pub enum ProposalStep<C, O> {
    /// Save the proposal, in place of any that waits.
    Save(WikiProposal<C, O>),
    /// Take the present atoms as accounted for; with a number, only if there are no more of them
    /// than that.
    AdvanceBaseline(Option<i32>),
}

/// Whether a proposal is what a draft gives against an article.
pub open spec fn is_proposal_of<C, O>(
    p: WikiProposal<C, O>,
    tag_id: Seq<char>,
    existing: WikiArticle,
    draft: WikiDraft<C, O>,
    id: Seq<char>,
    now: Seq<char>,
) -> bool {
    &&& p.id@ == id
    &&& p.tag_id@ == tag_id
    &&& p.base_article_id@ == existing.id@
    &&& p.base_updated_at@ == existing.updated_at@
    &&& p.content@ == draft.merged_content@
    &&& p.citations == draft.citations
    &&& p.ops == draft.ops
    &&& p.new_atom_count == draft.new_atom_count
    &&& p.created_at@ == now
}

/// Whether a step is what follows an attempt. Where what is new gives no reason for a change, the
/// atoms are accounted for, so that they are not weighed again; where nothing new was found they
/// are only if there are no more of them than the article says.
pub open spec fn is_proposal_step<C, O>(
    step: ProposalStep<C, O>,
    tag_id: Seq<char>,
    existing: WikiArticle,
    outcome: WikiProposalOutcome<C, O>,
    id: Seq<char>,
    now: Seq<char>,
) -> bool {
    match outcome {
        WikiProposalOutcome::Draft(draft) => step matches ProposalStep::Save(p) && is_proposal_of(
            p,
            tag_id,
            existing,
            draft,
            id,
            now,
        ),
        WikiProposalOutcome::NoChange => step == ProposalStep::<C, O>::AdvanceBaseline(None),
        WikiProposalOutcome::NoUpdateChunks => step == ProposalStep::<C, O>::AdvanceBaseline(
            Some(existing.atom_count),
        ),
    }
}

/// What follows an attempt to write an update, under the given id and at the given time.
pub fn propose_wiki_update_as<C, O>(
    tag_id: &str,
    existing: &WikiArticle,
    outcome: WikiProposalOutcome<C, O>,
    id: String,
    now: String,
) -> (r: ProposalStep<C, O>)
    ensures
        is_proposal_step(r, tag_id@, *existing, outcome, id@, now@),
{
    match outcome {
        WikiProposalOutcome::Draft(draft) => ProposalStep::Save(
            WikiProposal {
                id,
                tag_id: tag_id.to_owned(),
                base_article_id: existing.id.clone(),
                base_updated_at: existing.updated_at.clone(),
                content: draft.merged_content,
                citations: draft.citations,
                ops: draft.ops,
                new_atom_count: draft.new_atom_count,
                created_at: now,
            },
        ),
        WikiProposalOutcome::NoChange => ProposalStep::AdvanceBaseline(None),
        WikiProposalOutcome::NoUpdateChunks => ProposalStep::AdvanceBaseline(
            Some(existing.atom_count),
        ),
    }
}

/// What follows an attempt to write an update, under a fresh id and at the present time.
pub fn propose_wiki_update<C, O>(
    tag_id: &str,
    existing: &WikiArticle,
    outcome: WikiProposalOutcome<C, O>,
) -> (r: ProposalStep<C, O>)
    ensures
        exists|id: Seq<char>, now: Seq<char>|
            is_id(id) && #[trigger] is_proposal_step(r, tag_id@, *existing, outcome, id, now),
{
    let id = new_id();
    let now = now_rfc3339();
    propose_wiki_update_as(tag_id, existing, outcome, id, now)
}

/// Whether the article that a proposal was made against has been changed since.
pub open spec fn is_stale<C, O>(p: WikiProposal<C, O>, live: WikiArticle) -> bool {
    live.updated_at@ != p.base_updated_at@ || live.id@ != p.base_article_id@
}

/// Whether an article is what a proposal makes of the live one.
pub open spec fn is_accepted<C, O>(
    r: WikiArticleWithCitations<C>,
    tag_id: Seq<char>,
    p: WikiProposal<C, O>,
    live: WikiArticle,
) -> bool {
    &&& r.article.id@ == live.id@
    &&& r.article.tag_id@ == tag_id
    &&& r.article.content@ == p.content@
    &&& r.article.created_at@ == live.created_at@
    &&& r.article.updated_at@ == p.created_at@
    &&& r.article.atom_count == live.atom_count + p.new_atom_count
    &&& r.citations == p.citations
}

/// What a proposal is answered that was made against an older article.
pub open spec fn stale_error() -> ErrorView {
    ErrorView::Wiki(
        "Proposal is stale — live article was updated since the proposal was computed. Regenerate the proposal to review it."@,
    )
}

/// Accepts the proposal that waits for a tag: the article that it makes, unless there is no
/// proposal, no article, or the article has been changed since.
pub fn accept_wiki_proposal<C, O>(
    tag_id: &str,
    proposal: Option<WikiProposal<C, O>>,
    existing: Option<WikiArticle>,
) -> (r: Result<WikiArticleWithCitations<C>, AtomicCoreError>)
    requires
        proposal is Some && existing is Some && !is_stale(proposal->0, existing->0) ==> i32::MIN
            <= existing->0.atom_count + proposal->0.new_atom_count <= i32::MAX,
    ensures
        match r {
            Ok(a) => proposal is Some && existing is Some && !is_stale(proposal->0, existing->0)
                && is_accepted(a, tag_id@, proposal->0, existing->0),
            Err(e) => if proposal is None {
                e@ == ErrorView::Wiki("No pending proposal for this tag"@)
            } else if existing is None {
                e@ == ErrorView::Wiki("Live article disappeared while proposal was pending"@)
            } else {
                is_stale(proposal->0, existing->0) && e@ == stale_error()
            },
        },
{
    let p = match proposal {
        Some(p) => p,
        None => {
            return Err(AtomicCoreError::Wiki("No pending proposal for this tag".to_owned()));
        },
    };
    let live = match existing {
        Some(a) => a,
        None => {
            return Err(
                AtomicCoreError::Wiki(
                    "Live article disappeared while proposal was pending".to_owned(),
                ),
            );
        },
    };
    if !text_eq(live.updated_at.as_str(), p.base_updated_at.as_str()) || !text_eq(
        live.id.as_str(),
        p.base_article_id.as_str(),
    ) {
        return Err(
            AtomicCoreError::Wiki(
                "Proposal is stale — live article was updated since the proposal was computed. Regenerate the proposal to review it.".to_owned(),
            ),
        );
    }
    Ok(
        WikiArticleWithCitations {
            article: WikiArticle {
                id: live.id,
                tag_id: tag_id.to_owned(),
                content: p.content,
                created_at: live.created_at,
                updated_at: p.created_at,
                atom_count: live.atom_count + p.new_atom_count,
            },
            citations: p.citations,
        },
    )
}

/// A proposal is good as long as its article is left alone: what accepting it gives is the draft,
/// under the article's own id. Once the article has another time of change, it is stale.
pub proof fn law_proposal_is_good_until_article_changes<C, O>(
    p: WikiProposal<C, O>,
    tag_id: Seq<char>,
    base: WikiArticle,
    draft: WikiDraft<C, O>,
    id: Seq<char>,
    now: Seq<char>,
    live: WikiArticle,
    r: WikiArticleWithCitations<C>,
)
    requires
        is_proposal_of(p, tag_id, base, draft, id, now),
    ensures
        live.id@ == base.id@ && live.updated_at@ == base.updated_at@ ==> !is_stale(p, live),
        live.updated_at@ != base.updated_at@ || live.id@ != base.id@ ==> is_stale(p, live),
        is_accepted(r, tag_id, p, base) ==> r.article.content@ == draft.merged_content@
            && r.article.id@ == base.id@ && r.citations == draft.citations,
{
}

/// A proposal can be accepted once: after that its article has the time of the proposal, and
/// unless that is the time that the article had before, the proposal is stale.
pub proof fn law_accepted_proposal_is_stale<C, O>(
    p: WikiProposal<C, O>,
    tag_id: Seq<char>,
    live: WikiArticle,
    r: WikiArticleWithCitations<C>,
)
    requires
        !is_stale(p, live),
        is_accepted(r, tag_id, p, live),
        p.created_at@ != live.updated_at@,
    ensures
        is_stale(p, r.article),
{
}

/// An article may link to those of the related tags that have an article, all of them in order,
/// each by its own id and name.
pub proof fn law_related_articles_are_linkable(
    related: &Vec<RelatedTag>,
    r: Vec<(String, String)>,
    none: Vec<(String, String)>,
)
    requires
        call_ensures(linkable_article_names, (Some(related),), r),
        call_ensures(linkable_article_names, (None,), none),
    ensures
        name_views(r@) == related@.filter(|t: RelatedTag| t.has_article).map_values(
            |t: RelatedTag| (t.tag_id@, t.tag_name@),
        ),
        none@.len() == 0,
{
    lemma_linkable(related@);
    assert(name_views(none@).len() == none@.len());
}

proof fn lemma_linkable(related: Seq<RelatedTag>)
    ensures
        linkable(related) == related.filter(|t: RelatedTag| t.has_article).map_values(
            |t: RelatedTag| (t.tag_id@, t.tag_name@),
        ),
    decreases related.len(),
{
    reveal(Seq::filter);
    let p = |t: RelatedTag| t.has_article;
    let f = |t: RelatedTag| (t.tag_id@, t.tag_name@);
    if related.len() > 0 {
        let d = related.drop_last();
        lemma_linkable(d);
        if p(related.last()) {
            assert(related.filter(p).map_values(f) =~= d.filter(p).map_values(f).push(
                f(related.last()),
            ));
        }
    } else {
        assert(related.filter(p).map_values(f) =~= Seq::empty());
    }
}

/// The settings say how an article is written: each by the value that it has, if it has one. Which
/// model writes they say only where the provider has many.
pub proof fn law_settings_shape_the_writing(
    settings: &StrMap<String>,
    provider: ProviderType,
    llm_model: &str,
    router_model: &str,
    related: Option<&Vec<RelatedTag>>,
    r: WikiConfig,
    model: String,
)
    requires
        call_ensures(build_wiki_config, (settings, provider, llm_model, router_model, related), r),
        call_ensures(resolve_model, (settings, provider, llm_model, router_model), model),
    ensures
        model@ == r.wiki_model@,
        provider != ProviderType::OpenRouter ==> r.wiki_model@ == llm_model@,
        provider == ProviderType::OpenRouter && settings@.contains_key("wiki_model"@)
            ==> r.wiki_model@ == settings@["wiki_model"@]@,
        provider == ProviderType::OpenRouter && !settings@.contains_key("wiki_model"@)
            ==> r.wiki_model@ == router_model@,
        settings@.contains_key("wiki_strategy"@) ==> r.strategy@ == settings@["wiki_strategy"@]@,
        !settings@.contains_key("wiki_strategy"@) ==> r.strategy@ == "centroid"@,
        r.custom_generation_prompt is Some <==> settings@.contains_key("wiki_generation_prompt"@),
        r.custom_generation_prompt matches Some(t) ==> t@ == settings@["wiki_generation_prompt"@]@,
        r.custom_update_prompt is Some <==> settings@.contains_key("wiki_update_prompt"@),
        r.custom_update_prompt matches Some(t) ==> t@ == settings@["wiki_update_prompt"@]@,
        related is None ==> r.linkable_article_names@.len() == 0,
        related matches Some(v) ==> name_views(r.linkable_article_names@) == v@.filter(
            |t: RelatedTag| t.has_article,
        ).map_values(|t: RelatedTag| (t.tag_id@, t.tag_name@)),
{
    assert(name_views(r.linkable_article_names@).len() == r.linkable_article_names@.len());
    if related is Some {
        lemma_linkable(related->0@);
    }
}

/// An update is made of an article that is there; what is not rewritten is kept and not saved.
pub proof fn law_articles_change_only_by_rewriting<C>(
    existing: WikiArticleWithCitations<C>,
    update: Result<WikiArticleWithCitations<C>, AtomicCoreError>,
    propose: Result<WikiArticleWithCitations<C>, AtomicCoreError>,
    kept: (WikiArticleWithCitations<C>, bool),
    rewritten: WikiArticleWithCitations<C>,
    changed: (WikiArticleWithCitations<C>, bool),
)
    requires
        call_ensures(article_to_update::<C>, (Some(existing),), update),
        call_ensures(article_to_propose_against::<C>, (Some(existing),), propose),
        call_ensures(updated_article::<C>, (existing, None), kept),
        call_ensures(updated_article::<C>, (existing, Some(rewritten)), changed),
    ensures
        update == Ok::<WikiArticleWithCitations<C>, AtomicCoreError>(existing),
        propose == Ok::<WikiArticleWithCitations<C>, AtomicCoreError>(existing),
        kept == (existing, false),
        changed == (rewritten, true),
{
}

/// Without an article there is nothing to update, and nothing to propose against.
pub proof fn law_missing_articles_are_not_updated<C>(
    update: Result<WikiArticleWithCitations<C>, AtomicCoreError>,
    propose: Result<WikiArticleWithCitations<C>, AtomicCoreError>,
)
    requires
        call_ensures(article_to_update::<C>, (None,), update),
        call_ensures(article_to_propose_against::<C>, (None,), propose),
    ensures
        update is Err,
        propose is Err,
{
}

/// A draft becomes a proposal against the article as it is now, with all that the draft holds.
pub proof fn law_drafts_become_proposals<C, O>(
    tag_id: &str,
    existing: &WikiArticle,
    draft: WikiDraft<C, O>,
    id: String,
    now: String,
    r: ProposalStep<C, O>,
)
    requires
        call_ensures(
            propose_wiki_update_as::<C, O>,
            (tag_id, existing, WikiProposalOutcome::Draft(draft), id, now),
            r,
        ),
    ensures
        r matches ProposalStep::Save(p) && p.id@ == id@ && p.tag_id@ == tag_id@ && p.base_article_id@
            == existing.id@ && p.base_updated_at@ == existing.updated_at@ && p.content@
            == draft.merged_content@ && p.citations@ == draft.citations@ && p.ops@ == draft.ops@
            && p.new_atom_count == draft.new_atom_count && p.created_at@ == now@,
{
}

/// Without a draft nothing is proposed: the atoms are accounted for, without condition where they
/// gave no reason for a change, and else only if there are no more of them than the article says.
pub proof fn law_no_draft_advances_the_baseline<C, O>(
    tag_id: &str,
    existing: &WikiArticle,
    id: String,
    now: String,
    no_change: ProposalStep<C, O>,
    no_chunks: ProposalStep<C, O>,
)
    requires
        call_ensures(
            propose_wiki_update_as::<C, O>,
            (tag_id, existing, WikiProposalOutcome::NoChange, id, now),
            no_change,
        ),
        call_ensures(
            propose_wiki_update_as::<C, O>,
            (tag_id, existing, WikiProposalOutcome::NoUpdateChunks, id, now),
            no_chunks,
        ),
    ensures
        no_change == ProposalStep::<C, O>::AdvanceBaseline(None),
        no_chunks == ProposalStep::<C, O>::AdvanceBaseline(Some(existing.atom_count)),
{
}

/// A proposal is accepted if and only if its article is there and is, by id and time of change,
/// the one that it was made against. The article then has the content and the citations of the
/// proposal and its time, and counts the proposal's atoms on top of its own; its id and its time
/// of creation stay.
pub proof fn law_fresh_proposals_are_accepted<C, O>(
    tag_id: &str,
    p: WikiProposal<C, O>,
    live: WikiArticle,
    r: Result<WikiArticleWithCitations<C>, AtomicCoreError>,
)
    requires
        i32::MIN <= live.atom_count + p.new_atom_count <= i32::MAX,
        call_ensures(accept_wiki_proposal::<C, O>, (tag_id, Some(p), Some(live)), r),
    ensures
        r is Ok <==> p.base_article_id@ == live.id@ && p.base_updated_at@ == live.updated_at@,
        r matches Ok(a) ==> {
            &&& a.article.id@ == live.id@
            &&& a.article.tag_id@ == tag_id@
            &&& a.article.content@ == p.content@
            &&& a.article.created_at@ == live.created_at@
            &&& a.article.updated_at@ == p.created_at@
            &&& a.article.atom_count == live.atom_count + p.new_atom_count
            &&& a.citations@ == p.citations@
        },
{
}

/// Without a proposal, or without the article that it was made against, nothing is accepted.
pub proof fn law_nothing_is_accepted_without_both<C, O>(
    tag_id: &str,
    p: WikiProposal<C, O>,
    live: Option<WikiArticle>,
    no_proposal: Result<WikiArticleWithCitations<C>, AtomicCoreError>,
    no_article: Result<WikiArticleWithCitations<C>, AtomicCoreError>,
)
    requires
        call_ensures(accept_wiki_proposal::<C, O>, (tag_id, None, live), no_proposal),
        call_ensures(accept_wiki_proposal::<C, O>, (tag_id, Some(p), None), no_article),
    ensures
        no_proposal is Err,
        no_article is Err,
{
}

} // verus!
