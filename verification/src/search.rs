//! Searching: which searches are made, and what is made of what they find.

use crate::error::{AtomicCoreError, ErrorView};
use crate::text::{glue, opt_view};
use vstd::prelude::*;

verus! {

/// How to search.
#[derive(Debug, Clone, Copy, PartialEq, Eq, Structural)]
pub enum SearchMode {
    Keyword,
    Semantic,
    Hybrid,
}

/// What is awaited of a search.
#[derive(Debug, Clone, Copy, PartialEq, Eq, Structural)]
pub enum SearchPhase {
    Embedding,
    Keywords,
    Vectors,
    Over,
}

/// A search under way.
#[derive(Debug, Clone, Copy, PartialEq, Eq, Structural)]
pub struct SearchRun {
    pub mode: SearchMode,
    pub limit: i32,
    pub phase: SearchPhase,
    /// Whether the query has an embedding.
    pub embedded: bool,
}

/// What has happened in a search.
pub enum SearchEvent {
    /// Whether the query got an embedding with anything in it, or why there was none to be had.
    Embedded(Result<bool, String>),
    /// The search for words is done, or failed.
    KeywordsFound(Result<(), AtomicCoreError>),
    /// The search among the vectors is done, or failed.
    VectorsFound(Result<(), AtomicCoreError>),
}

/// What a search does next.
pub enum SearchAction {
    /// Get an embedding of the query.
    Embed,
    /// Search for words, for so many results.
    SearchKeywords(i32),
    /// Search among the vectors, for so many results.
    SearchVectors(i32),
    /// Answer with nothing.
    AnswerNothing,
    /// Answer with what the search for words found.
    AnswerKeywords,
    /// Answer with what the search among the vectors found.
    AnswerVectors,
    /// Answer with what both found, by their ranks, so many results; if the query has no
    /// embedding, the vectors found nothing.
    AnswerBoth(i32),
    /// The search fails.
    Fail(AtomicCoreError),
}

/// What a search does next, as a value.
pub enum SearchActionView {
    Embed,
    SearchKeywords(int),
    SearchVectors(int),
    AnswerNothing,
    AnswerKeywords,
    AnswerVectors,
    AnswerBoth(int),
    Fail(ErrorView),
}

impl View for SearchAction {
    type V = SearchActionView;

    open spec fn view(&self) -> SearchActionView {
        match self {
            SearchAction::Embed => SearchActionView::Embed,
            SearchAction::SearchKeywords(n) => SearchActionView::SearchKeywords(*n as int),
            SearchAction::SearchVectors(n) => SearchActionView::SearchVectors(*n as int),
            SearchAction::AnswerNothing => SearchActionView::AnswerNothing,
            SearchAction::AnswerKeywords => SearchActionView::AnswerKeywords,
            SearchAction::AnswerVectors => SearchActionView::AnswerVectors,
            SearchAction::AnswerBoth(n) => SearchActionView::AnswerBoth(*n as int),
            SearchAction::Fail(e) => SearchActionView::Fail(e@),
        }
    }
}

/// Whether twice the limit is a number of 32 bits, as a hybrid search needs it.
pub open spec fn limit_fits(mode: SearchMode, limit: i32) -> bool {
    mode == SearchMode::Hybrid ==> i32::MIN <= 2 * limit <= i32::MAX
}

/// Whether the event is one that is awaited.
pub open spec fn search_awaits(phase: SearchPhase, event: SearchEvent) -> bool {
    match phase {
        SearchPhase::Embedding => event is Embedded,
        SearchPhase::Keywords => event is KeywordsFound,
        SearchPhase::Vectors => event is VectorsFound,
        SearchPhase::Over => false,
    }
}

/// Whether the state of a search is one that it can come to.
pub open spec fn search_ok(s: SearchRun) -> bool {
    &&& limit_fits(s.mode, s.limit)
    &&& s.phase == SearchPhase::Embedding ==> s.mode != SearchMode::Keyword
    &&& s.phase == SearchPhase::Keywords ==> s.mode != SearchMode::Semantic
    &&& s.phase == SearchPhase::Vectors ==> s.mode != SearchMode::Keyword && s.embedded
}

/// What an awaited event leads to. A semantic search without an embedding finds nothing; a hybrid
/// one looks for twice as many results each way, and does without the vectors.
pub open spec fn search_outcome(s: SearchRun, event: SearchEvent) -> (SearchRun, SearchActionView) {
    let over = SearchRun { phase: SearchPhase::Over, ..s };
    match event {
        SearchEvent::Embedded(Err(reason)) => (
            over,
            SearchActionView::Fail(ErrorView::Search(reason@)),
        ),
        SearchEvent::Embedded(Ok(embedded)) => if s.mode == SearchMode::Hybrid {
            (
                SearchRun { phase: SearchPhase::Keywords, embedded, ..s },
                SearchActionView::SearchKeywords(2 * s.limit),
            )
        } else if embedded {
            (
                SearchRun { phase: SearchPhase::Vectors, embedded, ..s },
                SearchActionView::SearchVectors(s.limit as int),
            )
        } else {
            (SearchRun { embedded, ..over }, SearchActionView::AnswerNothing)
        },
        SearchEvent::KeywordsFound(Err(e)) => (over, SearchActionView::Fail(e@)),
        SearchEvent::KeywordsFound(Ok(_)) => if s.mode == SearchMode::Keyword {
            (over, SearchActionView::AnswerKeywords)
        } else if s.embedded {
            (
                SearchRun { phase: SearchPhase::Vectors, ..s },
                SearchActionView::SearchVectors(2 * s.limit),
            )
        } else {
            (over, SearchActionView::AnswerBoth(s.limit as int))
        },
        SearchEvent::VectorsFound(Err(e)) => (over, SearchActionView::Fail(e@)),
        SearchEvent::VectorsFound(Ok(_)) => if s.mode == SearchMode::Hybrid {
            (over, SearchActionView::AnswerBoth(s.limit as int))
        } else {
            (over, SearchActionView::AnswerVectors)
        },
    }
}

impl SearchRun {
    /// Starts a search.
    pub fn start(mode: SearchMode, limit: i32) -> (r: (SearchRun, SearchAction))
        requires
            limit_fits(mode, limit),
        ensures
            search_ok(r.0),
            r.0.mode == mode,
            r.0.limit == limit,
            mode == SearchMode::Keyword ==> r.0.phase == SearchPhase::Keywords && r.1@
                == SearchActionView::SearchKeywords(limit as int),
            mode != SearchMode::Keyword ==> r.0.phase == SearchPhase::Embedding && r.1@
                == SearchActionView::Embed,
    {
        if mode == SearchMode::Keyword {
            (
                SearchRun { mode, limit, phase: SearchPhase::Keywords, embedded: false },
                SearchAction::SearchKeywords(limit),
            )
        } else {
            (
                SearchRun { mode, limit, phase: SearchPhase::Embedding, embedded: false },
                SearchAction::Embed,
            )
        }
    }

    /// Whether the event is awaited.
    pub fn accepts(&self, event: &SearchEvent) -> (r: bool)
        ensures
            r == search_awaits(self.phase, *event),
    {
        match (self.phase, event) {
            (SearchPhase::Embedding, SearchEvent::Embedded(_)) => true,
            (SearchPhase::Keywords, SearchEvent::KeywordsFound(_)) => true,
            (SearchPhase::Vectors, SearchEvent::VectorsFound(_)) => true,
            _ => false,
        }
    }

    /// Takes in an event.
    pub fn step(&mut self, event: SearchEvent) -> (action: SearchAction)
        requires
            search_ok(*old(self)),
            search_awaits(old(self).phase, event),
        ensures
            search_ok(*final(self)),
            *final(self) == search_outcome(*old(self), event).0,
            action@ == search_outcome(*old(self), event).1,
    {
        match event {
            SearchEvent::Embedded(Err(reason)) => {
                self.phase = SearchPhase::Over;
                SearchAction::Fail(AtomicCoreError::Search(reason))
            },
            SearchEvent::Embedded(Ok(embedded)) => {
                self.embedded = embedded;
                if self.mode == SearchMode::Hybrid {
                    self.phase = SearchPhase::Keywords;
                    SearchAction::SearchKeywords(self.limit * 2)
                } else if embedded {
                    self.phase = SearchPhase::Vectors;
                    SearchAction::SearchVectors(self.limit)
                } else {
                    self.phase = SearchPhase::Over;
                    SearchAction::AnswerNothing
                }
            },
            SearchEvent::KeywordsFound(Err(e)) => {
                self.phase = SearchPhase::Over;
                SearchAction::Fail(e)
            },
            SearchEvent::KeywordsFound(Ok(_)) => {
                if self.mode == SearchMode::Keyword {
                    self.phase = SearchPhase::Over;
                    SearchAction::AnswerKeywords
                } else if self.embedded {
                    self.phase = SearchPhase::Vectors;
                    SearchAction::SearchVectors(self.limit * 2)
                } else {
                    self.phase = SearchPhase::Over;
                    SearchAction::AnswerBoth(self.limit)
                }
            },
            SearchEvent::VectorsFound(Err(e)) => {
                self.phase = SearchPhase::Over;
                SearchAction::Fail(e)
            },
            SearchEvent::VectorsFound(Ok(_)) => {
                let hybrid = self.mode == SearchMode::Hybrid;
                self.phase = SearchPhase::Over;
                if hybrid {
                    SearchAction::AnswerBoth(self.limit)
                } else {
                    SearchAction::AnswerVectors
                }
            },
        }
    }
}

/// The tag that a search is confined to: the first of its scope.
pub fn search_tag(scope_tag_ids: &Vec<String>) -> (r: Option<String>)
    ensures
        opt_view(r) == if scope_tag_ids@.len() == 0 {
            None
        } else {
            Some(scope_tag_ids@[0]@)
        },
{
    if scope_tag_ids.len() == 0 {
        None
    } else {
        Some(scope_tag_ids[0].clone())
    }
}

/// The storages that can search for words everywhere.
#[derive(Debug, Clone, Copy, PartialEq, Eq, Structural)]
pub enum SearchStorage {
    Sqlite,
    Postgres,
}

/// The storage that a search everywhere uses.
pub fn global_search_storage(has_sqlite: bool, has_postgres: bool) -> (r: Result<
    SearchStorage,
    AtomicCoreError,
>)
    ensures
        match r {
            Ok(SearchStorage::Sqlite) => has_sqlite,
            Ok(SearchStorage::Postgres) => !has_sqlite && has_postgres,
            Err(e) => !has_sqlite && !has_postgres && e@ == ErrorView::Search(
                "Global keyword search is not implemented for this storage backend"@,
            ),
        },
{
    if has_sqlite {
        Ok(SearchStorage::Sqlite)
    } else if has_postgres {
        Ok(SearchStorage::Postgres)
    } else {
        Err(
            AtomicCoreError::Search(
                "Global keyword search is not implemented for this storage backend".to_owned(),
            ),
        )
    }
}

/// What is answered when the task of a blocking search comes to grief.
pub fn blocking_search_failed(reason: &str) -> (e: AtomicCoreError)
    ensures
        e@ == ErrorView::DatabaseOperation("spawn_blocking join: "@ + reason@),
{
    AtomicCoreError::DatabaseOperation(glue("spawn_blocking join: ", reason))
}

/// A search for words makes that search alone, for as many results as were asked for, and answers
/// with what it finds.
pub proof fn law_keyword_searches_look_for_words(
    limit: i32,
    r: (SearchRun, SearchAction),
    e: AtomicCoreError,
)
    requires
        call_ensures(SearchRun::start, (SearchMode::Keyword, limit), r),
    ensures
        r.1 == SearchAction::SearchKeywords(limit),
        search_awaits(r.0.phase, SearchEvent::KeywordsFound(Ok(()))),
        search_outcome(r.0, SearchEvent::KeywordsFound(Ok(()))).1
            == SearchActionView::AnswerKeywords,
        search_outcome(r.0, SearchEvent::KeywordsFound(Err(e))).1 == SearchActionView::Fail(e@),
{
}

/// A semantic search gets an embedding first. Without one it answers with nothing; with one it
/// searches among the vectors, for as many results as were asked for, and answers with those.
pub proof fn law_semantic_searches_look_among_vectors(
    limit: i32,
    r: (SearchRun, SearchAction),
    reason: String,
    e: AtomicCoreError,
)
    requires
        call_ensures(SearchRun::start, (SearchMode::Semantic, limit), r),
    ensures
        r.1 is Embed,
        search_awaits(r.0.phase, SearchEvent::Embedded(Ok(true))),
        search_outcome(r.0, SearchEvent::Embedded(Err(reason))).1 == SearchActionView::Fail(
            ErrorView::Search(reason@),
        ),
        search_outcome(r.0, SearchEvent::Embedded(Ok(false))).1 == SearchActionView::AnswerNothing,
        ({
            let o = search_outcome(r.0, SearchEvent::Embedded(Ok(true)));
            &&& o.1 == SearchActionView::SearchVectors(limit as int)
            &&& search_awaits(o.0.phase, SearchEvent::VectorsFound(Ok(())))
            &&& search_outcome(o.0, SearchEvent::VectorsFound(Ok(()))).1
                == SearchActionView::AnswerVectors
            &&& search_outcome(o.0, SearchEvent::VectorsFound(Err(e))).1
                == SearchActionView::Fail(e@)
        }),
{
}

/// A hybrid search makes both searches, each for twice as many results as were asked for, and
/// answers with as many of both as were asked for; without an embedding it makes the search for
/// words alone. What fails on the way is what the search fails with.
pub proof fn law_hybrid_searches_look_both_ways(
    limit: i32,
    r: (SearchRun, SearchAction),
    embedded: bool,
    e: AtomicCoreError,
    reason: String,
)
    requires
        limit_fits(SearchMode::Hybrid, limit),
        call_ensures(SearchRun::start, (SearchMode::Hybrid, limit), r),
    ensures
        r.1 is Embed,
        search_outcome(r.0, SearchEvent::Embedded(Err(reason))).1 == SearchActionView::Fail(
            ErrorView::Search(reason@),
        ),
        ({
            let o = search_outcome(r.0, SearchEvent::Embedded(Ok(embedded)));
            let p = search_outcome(o.0, SearchEvent::KeywordsFound(Ok(())));
            &&& o.1 == SearchActionView::SearchKeywords(limit + limit)
            &&& search_awaits(o.0.phase, SearchEvent::KeywordsFound(Ok(())))
            &&& search_outcome(o.0, SearchEvent::KeywordsFound(Err(e))).1
                == SearchActionView::Fail(e@)
            &&& !embedded ==> p.1 == SearchActionView::AnswerBoth(limit as int)
            &&& embedded ==> {
                &&& p.1 == SearchActionView::SearchVectors(limit + limit)
                &&& search_awaits(p.0.phase, SearchEvent::VectorsFound(Ok(())))
                &&& search_outcome(p.0, SearchEvent::VectorsFound(Ok(()))).1
                    == SearchActionView::AnswerBoth(limit as int)
                &&& search_outcome(p.0, SearchEvent::VectorsFound(Err(e))).1
                    == SearchActionView::Fail(e@)
            }
        }),
{
}

/// A search that has answered or failed awaits nothing more, and one that goes on awaits what it
/// asked for.
pub proof fn law_searches_await_what_they_asked_for(s: SearchRun, event: SearchEvent, next: SearchEvent)
    requires
        search_ok(s),
        search_awaits(s.phase, event),
    ensures
        ({
            let o = search_outcome(s, event);
            &&& search_ok(o.0)
            &&& o.1 is SearchKeywords ==> (search_awaits(o.0.phase, next) <==> next is KeywordsFound)
            &&& o.1 is SearchVectors ==> (search_awaits(o.0.phase, next) <==> next is VectorsFound)
            &&& !(o.1 is SearchKeywords) && !(o.1 is SearchVectors) ==> !search_awaits(
                o.0.phase,
                next,
            )
            &&& o.0.mode == s.mode && o.0.limit == s.limit
        }),
{
}

/// An action is one thing: two that say the same are the same, but for the errors they hold.
pub proof fn law_search_actions_differ(a: SearchAction, n: int)
    ensures
        a@ == SearchActionView::SearchKeywords(n) <==> (a matches SearchAction::SearchKeywords(m)
            && m == n),
        a@ == SearchActionView::SearchVectors(n) <==> (a matches SearchAction::SearchVectors(m) && m
            == n),
        a@ == SearchActionView::AnswerBoth(n) <==> (a matches SearchAction::AnswerBoth(m) && m == n),
        a@ is AnswerKeywords <==> a is AnswerKeywords,
        a@ is AnswerVectors <==> a is AnswerVectors,
        a@ is AnswerNothing <==> a is AnswerNothing,
{
}

/// A search is confined to the first tag of its scope, and to none if that is empty.
pub proof fn law_first_tag_confines_the_search(scope: &Vec<String>, r: Option<String>)
    requires
        call_ensures(search_tag, (scope,), r),
    ensures
        r is None <==> scope@.len() == 0,
        r matches Some(t) ==> t@ == scope@[0]@,
{
}

/// A search everywhere prefers SQLite, goes to Postgres where that is all there is, and fails only
/// where there is neither.
pub proof fn law_searches_everywhere_use_what_there_is(
    sqlite: bool,
    postgres: bool,
    r: Result<SearchStorage, AtomicCoreError>,
)
    requires
        call_ensures(global_search_storage, (sqlite, postgres), r),
    ensures
        sqlite ==> r == Ok::<SearchStorage, AtomicCoreError>(SearchStorage::Sqlite),
        !sqlite && postgres ==> r == Ok::<SearchStorage, AtomicCoreError>(SearchStorage::Postgres),
        !sqlite && !postgres ==> r is Err,
{
}

} // verus!
