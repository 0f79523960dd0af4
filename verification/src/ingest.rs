//! Taking in pages and feeds: what to do next, given what has happened.

use crate::atoms::CreateAtomRequest;
use crate::error::{AtomicCoreError, ErrorView};
use crate::events::IngestionEvent;
use crate::ids::{is_id, new_id};
use crate::tags::copy_opt;
use crate::text::{byte_len, bytes_in, glue, opt_view, views};
use vstd::prelude::*;

verus! {

/// A page to take in.
#[derive(Debug, Clone)]
pub struct IngestionRequest {
    pub url: String,
    pub title_hint: Option<String>,
    pub published_at: Option<String>,
    pub tag_ids: Vec<String>,
}

/// What a page gave.
#[derive(Debug, Clone)]
pub struct ResolvedPage {
    pub title: String,
    pub markdown: String,
}

/// A page that was taken in.
#[derive(Debug, Clone)]
pub struct IngestionResult {
    pub atom_id: String,
    pub url: String,
    pub title: String,
    pub content_length: usize,
}

/// A copy of a list of texts.
pub fn copy_texts(list: &Vec<String>) -> (r: Vec<String>)
    ensures
        r@ == list@,
{
    let mut r: Vec<String> = Vec::new();
    let mut i: usize = 0;
    while i < list.len()
        invariant
            i <= list@.len(),
            r@ == list@.take(i as int),
        decreases list@.len() - i,
    {
        r.push(list[i].clone());
        assert(list@.take(i + 1) =~= list@.take(i as int).push(list@[i as int]));
        i = i + 1;
    }
    assert(list@.take(i as int) =~= list@);
    r
}

/// A page that is being taken in.
pub struct Ingestion {
    pub request_id: String,
    pub request: IngestionRequest,
}

/// The title of a page: the hint, if there is one that is not empty, else its own.
pub open spec fn chosen_title(hint: Option<Seq<char>>, own: Seq<char>) -> Seq<char> {
    match hint {
        Some(h) => if h.len() > 0 {
            h
        } else {
            own
        },
        None => own,
    }
}

/// A page whose atom is being made.
pub struct IngestedPage {
    pub request_id: String,
    pub url: String,
    pub title: String,
    pub content_length: usize,
}

impl Ingestion {
    /// Begins to take in a page, under a fresh id.
    pub fn begin(request: IngestionRequest) -> (r: Ingestion)
        ensures
            r.request == request,
            is_id(r.request_id@),
    {
        Ingestion { request_id: new_id(), request }
    }

    /// A page goes on unless an atom has it as its source.
    pub fn source_checked(&self, exists: bool) -> (r: Result<(), AtomicCoreError>)
        ensures
            match r {
                Ok(_) => !exists,
                Err(e) => exists && e@ == ErrorView::Validation(
                    "URL already ingested: "@ + self.request.url@,
                ),
            },
    {
        if exists {
            Err(
                AtomicCoreError::Validation(
                    glue("URL already ingested: ", self.request.url.as_str()),
                ),
            )
        } else {
            Ok(())
        }
    }

    /// A page that cannot be had: the event that says so, and the error.
    pub fn resolve_failed(&self, error: String) -> (r: (IngestionEvent, AtomicCoreError))
        ensures
            r.0 matches IngestionEvent::IngestionFailed { request_id, url, error: e }
                && request_id@ == self.request_id@ && url@ == self.request.url@ && e@ == error@,
            r.1@ == ErrorView::Ingestion(error@),
    {
        (
            IngestionEvent::IngestionFailed {
                request_id: self.request_id.clone(),
                url: self.request.url.clone(),
                error: error.clone(),
            },
            AtomicCoreError::Ingestion(error),
        )
    }

    /// A page that was had: the atom to make of it, whether or not its source exists by now.
    pub fn resolved(self, page: ResolvedPage) -> (r: (IngestedPage, CreateAtomRequest))
        ensures
            r.0.request_id@ == self.request_id@,
            r.0.url@ == self.request.url@,
            r.0.title@ == chosen_title(opt_view(self.request.title_hint), page.title@),
            r.0.content_length == byte_len(page.markdown@),
            r.1.content@ == page.markdown@,
            opt_view(r.1.source_url) == Some(self.request.url@),
            r.1.published_at == self.request.published_at,
            r.1.tag_ids == self.request.tag_ids,
            !r.1.skip_if_source_exists,
    {
        let title = match &self.request.title_hint {
            Some(hint) => if hint.as_str().is_empty() {
                page.title.clone()
            } else {
                hint.clone()
            },
            None => page.title.clone(),
        };
        let content_length: usize = bytes_in(page.markdown.as_str());
        let url = self.request.url;
        let create = CreateAtomRequest {
            content: page.markdown,
            source_url: Some(url.clone()),
            published_at: self.request.published_at,
            tag_ids: self.request.tag_ids,
            skip_if_source_exists: false,
        };
        (IngestedPage { request_id: self.request_id, url, title, content_length }, create)
    }
}

impl IngestedPage {
    /// The atom was made, or was not: the answer, and the event that goes with it.
    pub fn created(self, atom_id: Option<String>) -> (r: Result<
        (IngestionResult, IngestionEvent),
        AtomicCoreError,
    >)
        ensures
            match r {
                Ok((result, event)) => {
                    &&& opt_view(atom_id) == Some(result.atom_id@)
                    &&& result.url@ == self.url@
                    &&& result.title@ == self.title@
                    &&& result.content_length == self.content_length
                    &&& event matches IngestionEvent::IngestionComplete {
                        request_id,
                        atom_id: id,
                        url,
                        title,
                    }
                    &&& request_id@ == self.request_id@
                    &&& id@ == result.atom_id@
                    &&& url@ == self.url@
                    &&& title@ == self.title@
                },
                Err(e) => atom_id is None && e@ == ErrorView::Validation(
                    "Atom creation returned None"@,
                ),
            },
    {
        match atom_id {
            Some(id) => Ok(
                (
                    IngestionResult {
                        atom_id: id.clone(),
                        url: self.url.clone(),
                        title: self.title.clone(),
                        content_length: self.content_length,
                    },
                    IngestionEvent::IngestionComplete {
                        request_id: self.request_id,
                        atom_id: id,
                        url: self.url,
                        title: self.title,
                    },
                ),
            ),
            None => Err(AtomicCoreError::Validation("Atom creation returned None".to_owned())),
        }
    }
}

/// What a page is answered whose task came to grief.
pub fn task_failed(reason: &str) -> (e: AtomicCoreError)
    ensures
        e@ == ErrorView::Ingestion("Task join error: "@ + reason@),
{
    AtomicCoreError::Ingestion(glue("Task join error: ", reason))
}

/// What is said of a feed that cannot be fetched.
pub fn fetch_failure(reason: &str) -> (r: String)
    ensures
        r@ == "Cannot fetch feed: "@ + reason@,
{
    glue("Cannot fetch feed: ", reason)
}

/// What follows when a feed cannot be fetched or read: the event that says so, and the error.
/// The same text is written to the feed.
pub fn feed_failed(feed_id: &str, error: String) -> (r: (IngestionEvent, AtomicCoreError))
    ensures
        r.0 matches IngestionEvent::FeedPollFailed { feed_id: f, error: e } && f@ == feed_id@
            && e@ == error@,
        r.1@ == ErrorView::Ingestion(error@),
{
    (
        IngestionEvent::FeedPollFailed { feed_id: feed_id.to_owned(), error: error.clone() },
        AtomicCoreError::Ingestion(error),
    )
}

/// What a poll of a feed came to.
#[derive(Debug, Clone)]
pub struct FeedPollResult {
    pub feed_id: String,
    pub new_items: i32,
    pub skipped: i32,
    pub errors: i32,
}

/// An item of a feed.
#[derive(Debug, Clone)]
pub struct FeedItem {
    pub guid: String,
    pub link: Option<String>,
    pub published_at: Option<String>,
}

/// A feed as it was read.
#[derive(Debug, Clone)]
pub struct ParsedFeed {
    pub title: Option<String>,
    pub site_url: Option<String>,
    pub items: Vec<FeedItem>,
}

/// The columns of a poll's count.
#[derive(Debug, Clone, Copy, PartialEq, Eq, Structural)]
pub struct PollCounts {
    pub new_items: i32,
    pub skipped: i32,
    pub errors: i32,
}

/// A column of a poll's count.
#[derive(Debug, Clone, Copy, PartialEq, Eq, Structural)]
pub enum Column {
    New,
    Skipped,
    Errors,
}

/// One more in a column.
pub open spec fn one_more(c: PollCounts, column: Column) -> PollCounts {
    match column {
        Column::New => PollCounts { new_items: (c.new_items + 1) as i32, ..c },
        Column::Skipped => PollCounts { skipped: (c.skipped + 1) as i32, ..c },
        Column::Errors => PollCounts { errors: (c.errors + 1) as i32, ..c },
    }
}

/// All the columns together.
pub open spec fn count_total(c: PollCounts) -> int {
    c.new_items + c.skipped + c.errors
}

/// What a poll awaits.
#[derive(Debug, Clone, Copy, PartialEq, Eq, Structural)]
pub enum PollPhase {
    Claiming,
    Resolving,
    Creating,
    Marking(Column),
    Polled,
    Backfilled,
    Over,
}

/// A poll of a feed under way.
pub struct FeedPoll {
    feed_id: String,
    tag_ids: Vec<String>,
    feed: ParsedFeed,
    index: usize,
    counts: PollCounts,
    phase: PollPhase,
}

/// What has happened in a poll.
pub enum PollEvent {
    /// Whether this poll was the first to claim the item.
    Claimed(Result<bool, AtomicCoreError>),
    /// The text of the page, or why there is none.
    Resolved(Result<String, String>),
    /// The id of the atom, nothing if its source exists, or what the error says.
    Created(Result<Option<String>, String>),
    /// The mark on the item was written, or was not.
    Marked(Result<(), AtomicCoreError>),
    /// The mark on the feed was written, or was not.
    FeedMarked(Result<(), AtomicCoreError>),
    /// The title and the site were filled in, or were not.
    Backfilled(Result<(), AtomicCoreError>),
}

/// What a poll does next.
pub enum PollAction {
    /// Claim the item with this guid.
    Claim { guid: String },
    /// Get the page behind this link.
    Resolve { link: String, request_id: String },
    /// Make an atom.
    Create { request: CreateAtomRequest },
    /// Mark the item as skipped.
    Skip { guid: String, reason: String },
    /// Mark the item as taken in.
    Complete { guid: String, atom_id: String },
    /// Mark the feed as polled.
    MarkPolled,
    /// Fill in title and site where the feed has none.
    Backfill { title: Option<String>, site_url: Option<String> },
    /// The poll is over.
    Finish { result: FeedPollResult, event: IngestionEvent },
    /// The poll fails.
    Fail(AtomicCoreError),
}

/// What a poll does next, as a value.
pub enum PollActionView {
    Claim { guid: Seq<char> },
    Resolve { link: Seq<char>, request_id: Seq<char> },
    Create {
        content: Seq<char>,
        source_url: Seq<char>,
        published_at: Option<Seq<char>>,
        tag_ids: Seq<Seq<char>>,
    },
    Skip { guid: Seq<char>, reason: Seq<char> },
    Complete { guid: Seq<char>, atom_id: Seq<char> },
    MarkPolled,
    Backfill { title: Option<Seq<char>>, site_url: Option<Seq<char>> },
    Finish { feed_id: Seq<char>, counts: PollCounts },
    Fail(ErrorView),
}

impl PollAction {
    /// Whether this is the action that `v` describes. An atom is made only if its source does not
    /// exist; an end is told to the caller and to whoever listens.
    pub open spec fn says(self, v: PollActionView) -> bool {
        match (self, v) {
            (PollAction::Claim { guid }, PollActionView::Claim { guid: g }) => guid@ == g,
            (
                PollAction::Resolve { link, request_id },
                PollActionView::Resolve { link: l, request_id: r },
            ) => link@ == l && request_id@ == r,
            (
                PollAction::Create { request },
                PollActionView::Create { content, source_url, published_at, tag_ids },
            ) => {
                &&& request.content@ == content
                &&& opt_view(request.source_url) == Some(source_url)
                &&& opt_view(request.published_at) == published_at
                &&& views(request.tag_ids@) == tag_ids
                &&& request.skip_if_source_exists
            },
            (
                PollAction::Skip { guid, reason },
                PollActionView::Skip { guid: g, reason: r },
            ) => guid@ == g && reason@ == r,
            (
                PollAction::Complete { guid, atom_id },
                PollActionView::Complete { guid: g, atom_id: a },
            ) => guid@ == g && atom_id@ == a,
            (PollAction::MarkPolled, PollActionView::MarkPolled) => true,
            (
                PollAction::Backfill { title, site_url },
                PollActionView::Backfill { title: t, site_url: s },
            ) => opt_view(title) == t && opt_view(site_url) == s,
            (
                PollAction::Finish { result, event },
                PollActionView::Finish { feed_id, counts },
            ) => {
                &&& result.feed_id@ == feed_id
                &&& result.new_items == counts.new_items
                &&& result.skipped == counts.skipped
                &&& result.errors == counts.errors
                &&& event matches IngestionEvent::FeedPollComplete {
                    feed_id: f,
                    new_items,
                    skipped,
                    errors,
                }
                &&& f@ == feed_id
                &&& new_items == counts.new_items
                &&& skipped == counts.skipped
                &&& errors == counts.errors
            },
            (PollAction::Fail(e), PollActionView::Fail(f)) => e@ == f,
            _ => false,
        }
    }
}

/// What changes in a poll: the item at hand, the counts and what is awaited.
pub struct PollState {
    pub index: int,
    pub counts: PollCounts,
    pub phase: PollPhase,
}

/// Where a poll stands.
pub struct PollView {
    pub feed_id: Seq<char>,
    pub tag_ids: Seq<Seq<char>>,
    pub feed: ParsedFeed,
    pub state: PollState,
}

impl View for FeedPoll {
    type V = PollView;

    closed spec fn view(&self) -> PollView {
        PollView {
            feed_id: self.feed_id@,
            tag_ids: views(self.tag_ids@),
            feed: self.feed,
            state: PollState { index: self.index as int, counts: self.counts, phase: self.phase },
        }
    }
}

/// The next item comes, or the end of the items.
pub open spec fn at_item(items: Seq<FeedItem>, index: int, counts: PollCounts) -> (
    PollState,
    PollActionView,
) {
    if index < items.len() {
        (
            PollState { index, counts, phase: PollPhase::Claiming },
            PollActionView::Claim { guid: items[index].guid@ },
        )
    } else {
        (PollState { index, counts, phase: PollPhase::Polled }, PollActionView::MarkPolled)
    }
}

/// A poll that fails.
pub open spec fn poll_fails(s: PollState, e: ErrorView) -> (PollState, PollActionView) {
    (PollState { phase: PollPhase::Over, ..s }, PollActionView::Fail(e))
}

/// A poll that is over.
pub open spec fn poll_ends(s: PollState, feed_id: Seq<char>) -> (PollState, PollActionView) {
    (
        PollState { phase: PollPhase::Over, ..s },
        PollActionView::Finish { feed_id, counts: s.counts },
    )
}

/// The item at hand is to be marked as skipped, and counted in the column once it is.
pub open spec fn skip_item(
    s: PollState,
    item: FeedItem,
    reason: Seq<char>,
    column: Column,
) -> (PollState, PollActionView) {
    (
        PollState { phase: PollPhase::Marking(column), ..s },
        PollActionView::Skip { guid: item.guid@, reason },
    )
}

/// Whether the event is one that is awaited.
pub open spec fn poll_awaits(phase: PollPhase, event: PollEvent) -> bool {
    match phase {
        PollPhase::Claiming => event is Claimed,
        PollPhase::Resolving => event is Resolved,
        PollPhase::Creating => event is Created,
        PollPhase::Marking(_) => event is Marked,
        PollPhase::Polled => event is FeedMarked,
        PollPhase::Backfilled => event is Backfilled,
        PollPhase::Over => false,
    }
}

/// What an awaited event leads to. `request_id` is the id under which a page is got.
pub open spec fn poll_outcome(
    poll: PollView,
    event: PollEvent,
    request_id: Seq<char>,
) -> (PollState, PollActionView) {
    let s = poll.state;
    let items = poll.feed.items@;
    let item = items[s.index];
    match (s.phase, event) {
        (PollPhase::Claiming, PollEvent::Claimed(Ok(first))) => if !first {
            at_item(items, s.index + 1, s.counts)
        } else {
            match item.link {
                Some(link) => (
                    PollState { phase: PollPhase::Resolving, ..s },
                    PollActionView::Resolve { link: link@, request_id },
                ),
                None => skip_item(s, item, "No link in feed item"@, Column::Skipped),
            }
        },
        (PollPhase::Claiming, PollEvent::Claimed(Err(e))) => poll_fails(s, e@),
        (PollPhase::Resolving, PollEvent::Resolved(Ok(markdown))) => (
            PollState { phase: PollPhase::Creating, ..s },
            PollActionView::Create {
                content: markdown@,
                source_url: match item.link {
                    Some(link) => link@,
                    None => Seq::empty(),
                },
                published_at: opt_view(item.published_at),
                tag_ids: poll.tag_ids,
            },
        ),
        (PollPhase::Resolving, PollEvent::Resolved(Err(reason))) => skip_item(
            s,
            item,
            reason@,
            Column::Skipped,
        ),
        (PollPhase::Creating, PollEvent::Created(Ok(Some(atom_id)))) => (
            PollState { phase: PollPhase::Marking(Column::New), ..s },
            PollActionView::Complete { guid: item.guid@, atom_id: atom_id@ },
        ),
        (PollPhase::Creating, PollEvent::Created(Ok(None))) => skip_item(
            s,
            item,
            "duplicate source_url"@,
            Column::Skipped,
        ),
        (PollPhase::Creating, PollEvent::Created(Err(text))) => skip_item(
            s,
            item,
            text@,
            Column::Errors,
        ),
        (PollPhase::Marking(column), PollEvent::Marked(Ok(_))) => at_item(
            items,
            s.index + 1,
            one_more(s.counts, column),
        ),
        (PollPhase::Marking(_), PollEvent::Marked(Err(e))) => poll_fails(s, e@),
        (PollPhase::Polled, PollEvent::FeedMarked(Ok(_))) => if poll.feed.title is Some
            || poll.feed.site_url is Some {
            (
                PollState { phase: PollPhase::Backfilled, ..s },
                PollActionView::Backfill {
                    title: opt_view(poll.feed.title),
                    site_url: opt_view(poll.feed.site_url),
                },
            )
        } else {
            poll_ends(s, poll.feed_id)
        },
        (PollPhase::Polled, PollEvent::FeedMarked(Err(e))) => poll_fails(s, e@),
        (PollPhase::Backfilled, PollEvent::Backfilled(Ok(_))) => poll_ends(s, poll.feed_id),
        (PollPhase::Backfilled, PollEvent::Backfilled(Err(e))) => poll_fails(s, e@),
        _ => arbitrary(),
    }
}

/// What a step leaves alone: the feed, its tags and its items.
pub open spec fn same_feed(a: PollView, b: PollView) -> bool {
    a.feed_id == b.feed_id && a.tag_ids == b.tag_ids && a.feed == b.feed
}

/// Whether a poll stands at an item as long as it works on one, and has counted no more than it
/// has passed.
pub open spec fn poll_ok(items: Seq<FeedItem>, s: PollState) -> bool {
    &&& 0 <= s.index <= items.len() <= i32::MAX
    &&& 0 <= s.counts.new_items
    &&& 0 <= s.counts.skipped
    &&& 0 <= s.counts.errors
    &&& count_total(s.counts) <= s.index
    &&& match s.phase {
        PollPhase::Claiming | PollPhase::Resolving | PollPhase::Creating | PollPhase::Marking(_)
            => s.index < items.len(),
        _ => true,
    }
}

/// Every step keeps the accounts of a poll: the items are taken in order, and each item that this
/// poll claims is counted once, in one column, when it is done with; one that was claimed before
/// is not counted.
pub proof fn law_poll_counts_each_claimed_item(
    poll: PollView,
    event: PollEvent,
    request_id: Seq<char>,
)
    requires
        poll_ok(poll.feed.items@, poll.state),
        poll_awaits(poll.state.phase, event),
    ensures
        ({
            let s = poll.state;
            let t = poll_outcome(poll, event, request_id).0;
            &&& poll_ok(poll.feed.items@, t)
            &&& t.index == s.index || t.index == s.index + 1
            &&& t.index == s.index ==> t.counts == s.counts
            &&& t.index == s.index + 1 ==> count_total(t.counts) - count_total(s.counts) == if event
                is Claimed {
                0int
            } else {
                1
            }
        }),
{
}

impl FeedPoll {
    fn at_item(&mut self) -> (action: PollAction)
        ensures
            same_feed(old(self)@, final(self)@),
            ({
                let o = at_item(old(self)@.feed.items@, old(self)@.state.index, old(self)@.state.counts);
                final(self)@.state == o.0 && action.says(o.1)
            }),
    {
        if self.index < self.feed.items.len() {
            self.phase = PollPhase::Claiming;
            PollAction::Claim { guid: self.feed.items[self.index].guid.clone() }
        } else {
            self.phase = PollPhase::Polled;
            PollAction::MarkPolled
        }
    }

    fn skip(&mut self, reason: String, column: Column) -> (action: PollAction)
        requires
            old(self)@.state.index < old(self)@.feed.items@.len(),
        ensures
            same_feed(old(self)@, final(self)@),
            ({
                let o = skip_item(
                    old(self)@.state,
                    old(self)@.feed.items@[old(self)@.state.index],
                    reason@,
                    column,
                );
                final(self)@.state == o.0 && action.says(o.1)
            }),
    {
        self.phase = PollPhase::Marking(column);
        PollAction::Skip { guid: self.feed.items[self.index].guid.clone(), reason }
    }

    fn fail(&mut self, e: AtomicCoreError) -> (action: PollAction)
        ensures
            same_feed(old(self)@, final(self)@),
            final(self)@.state == poll_fails(old(self)@.state, e@).0,
            action.says(poll_fails(old(self)@.state, e@).1),
    {
        self.phase = PollPhase::Over;
        PollAction::Fail(e)
    }

    fn end(&mut self) -> (action: PollAction)
        ensures
            same_feed(old(self)@, final(self)@),
            final(self)@.state == poll_ends(old(self)@.state, old(self)@.feed_id).0,
            action.says(poll_ends(old(self)@.state, old(self)@.feed_id).1),
    {
        self.phase = PollPhase::Over;
        PollAction::Finish {
            result: FeedPollResult {
                feed_id: self.feed_id.clone(),
                new_items: self.counts.new_items,
                skipped: self.counts.skipped,
                errors: self.counts.errors,
            },
            event: IngestionEvent::FeedPollComplete {
                feed_id: self.feed_id.clone(),
                new_items: self.counts.new_items,
                skipped: self.counts.skipped,
                errors: self.counts.errors,
            },
        }
    }

    /// Starts on the items of a feed that has been read.
    pub fn start(feed_id: String, tag_ids: Vec<String>, feed: ParsedFeed) -> (r: (
        FeedPoll,
        PollAction,
    ))
        requires
            feed.items@.len() <= i32::MAX,
        ensures
            r.0@.feed_id == feed_id@,
            r.0@.tag_ids == views(tag_ids@),
            r.0@.feed == feed,
            poll_ok(feed.items@, r.0@.state),
            ({
                let none = PollCounts { new_items: 0, skipped: 0, errors: 0 };
                let o = at_item(feed.items@, 0, none);
                r.0@.state == o.0 && r.1.says(o.1)
            }),
    {
        let mut poll = FeedPoll {
            feed_id,
            tag_ids,
            feed,
            index: 0,
            counts: PollCounts { new_items: 0, skipped: 0, errors: 0 },
            phase: PollPhase::Claiming,
        };
        let action = poll.at_item();
        (poll, action)
    }

    /// Whether the event is awaited.
    pub fn accepts(&self, event: &PollEvent) -> (r: bool)
        ensures
            r == poll_awaits(self@.state.phase, *event),
    {
        match (self.phase, event) {
            (PollPhase::Claiming, PollEvent::Claimed(_)) => true,
            (PollPhase::Resolving, PollEvent::Resolved(_)) => true,
            (PollPhase::Creating, PollEvent::Created(_)) => true,
            (PollPhase::Marking(_), PollEvent::Marked(_)) => true,
            (PollPhase::Polled, PollEvent::FeedMarked(_)) => true,
            (PollPhase::Backfilled, PollEvent::Backfilled(_)) => true,
            _ => false,
        }
    }

    /// Takes in an event, with the id under which a page is got.
    pub fn step_as(&mut self, event: PollEvent, request_id: String) -> (action: PollAction)
        requires
            poll_ok(old(self)@.feed.items@, old(self)@.state),
            poll_awaits(old(self)@.state.phase, event),
        ensures
            same_feed(old(self)@, final(self)@),
            poll_ok(final(self)@.feed.items@, final(self)@.state),
            final(self)@.state == poll_outcome(old(self)@, event, request_id@).0,
            action.says(poll_outcome(old(self)@, event, request_id@).1),
    {
        proof {
            law_poll_counts_each_claimed_item(self@, event, request_id@);
        }
        match (self.phase, event) {
            (PollPhase::Claiming, PollEvent::Claimed(Ok(first))) => {
                if !first {
                    self.index = self.index + 1;
                    return self.at_item();
                }
                match copy_opt(&self.feed.items[self.index].link) {
                    Some(link) => {
                        self.phase = PollPhase::Resolving;
                        PollAction::Resolve { link, request_id }
                    },
                    None => self.skip("No link in feed item".to_owned(), Column::Skipped),
                }
            },
            (PollPhase::Claiming, PollEvent::Claimed(Err(e))) => self.fail(e),
            (PollPhase::Resolving, PollEvent::Resolved(Ok(markdown))) => {
                let source_url = match &self.feed.items[self.index].link {
                    Some(link) => link.clone(),
                    None => String::new(),
                };
                let request = CreateAtomRequest {
                    content: markdown,
                    source_url: Some(source_url),
                    published_at: copy_opt(&self.feed.items[self.index].published_at),
                    tag_ids: copy_texts(&self.tag_ids),
                    skip_if_source_exists: true,
                };
                self.phase = PollPhase::Creating;
                PollAction::Create { request }
            },
            (PollPhase::Resolving, PollEvent::Resolved(Err(reason))) => self.skip(
                reason,
                Column::Skipped,
            ),
            (PollPhase::Creating, PollEvent::Created(Ok(Some(atom_id)))) => {
                self.phase = PollPhase::Marking(Column::New);
                PollAction::Complete {
                    guid: self.feed.items[self.index].guid.clone(),
                    atom_id,
                }
            },
            (PollPhase::Creating, PollEvent::Created(Ok(None))) => self.skip(
                "duplicate source_url".to_owned(),
                Column::Skipped,
            ),
            (PollPhase::Creating, PollEvent::Created(Err(text))) => self.skip(
                text,
                Column::Errors,
            ),
            (PollPhase::Marking(column), PollEvent::Marked(Ok(_))) => {
                match column {
                    Column::New => {
                        self.counts.new_items = self.counts.new_items + 1;
                    },
                    Column::Skipped => {
                        self.counts.skipped = self.counts.skipped + 1;
                    },
                    Column::Errors => {
                        self.counts.errors = self.counts.errors + 1;
                    },
                }
                self.index = self.index + 1;
                self.at_item()
            },
            (PollPhase::Marking(_), PollEvent::Marked(Err(e))) => self.fail(e),
            (PollPhase::Polled, PollEvent::FeedMarked(Ok(_))) => {
                if self.feed.title.is_some() || self.feed.site_url.is_some() {
                    self.phase = PollPhase::Backfilled;
                    PollAction::Backfill {
                        title: copy_opt(&self.feed.title),
                        site_url: copy_opt(&self.feed.site_url),
                    }
                } else {
                    self.end()
                }
            },
            (PollPhase::Polled, PollEvent::FeedMarked(Err(e))) => self.fail(e),
            (PollPhase::Backfilled, PollEvent::Backfilled(Ok(_))) => self.end(),
            (PollPhase::Backfilled, PollEvent::Backfilled(Err(e))) => self.fail(e),
            _ => {
                assert(false);
                PollAction::MarkPolled
            },
        }
    }

    /// Takes in an event; a page is got under a fresh id.
    pub fn step(&mut self, event: PollEvent) -> (action: PollAction)
        requires
            poll_ok(old(self)@.feed.items@, old(self)@.state),
            poll_awaits(old(self)@.state.phase, event),
        ensures
            same_feed(old(self)@, final(self)@),
            poll_ok(final(self)@.feed.items@, final(self)@.state),
            exists|request_id: Seq<char>|
                is_id(request_id) && final(self)@.state == (#[trigger] poll_outcome(
                    old(self)@,
                    event,
                    request_id,
                )).0 && action.says(poll_outcome(old(self)@, event, request_id).1),
    {
        let request_id = new_id();
        self.step_as(event, request_id)
    }
}

/// The results of the polls that came to an end, in their order.
pub open spec fn ended_polls(polls: Seq<Result<FeedPollResult, AtomicCoreError>>) -> Seq<
    FeedPollResult,
>
    decreases polls.len(),
{
    if polls.len() == 0 {
        Seq::empty()
    } else {
        match polls.last() {
            Ok(r) => ended_polls(polls.drop_last()).push(r),
            Err(_) => ended_polls(polls.drop_last()),
        }
    }
}

/// The results of the polls that came to an end; one that failed does not keep the others back.
pub fn keep_ended_polls(polls: Vec<Result<FeedPollResult, AtomicCoreError>>) -> (r: Vec<
    FeedPollResult,
>)
    ensures
        r@ == ended_polls(polls@),
{
    let ghost all = polls@;
    let mut r: Vec<FeedPollResult> = Vec::new();
    for p in it: polls.into_iter()
        invariant
            it.seq() == all,
            r@ == ended_polls(all.take(it.index() as int)),
    {
        assert(all.take(it.index() + 1).drop_last() =~= all.take(it.index() as int));
        match p {
            Ok(result) => {
                r.push(result);
            },
            Err(_) => {},
        }
    }
    assert(all.take(all.len() as int) =~= all);
    r
}

/// An action says one thing: two descriptions of it are the same.
pub proof fn law_poll_action_says_one_thing(a: PollAction, v: PollActionView, w: PollActionView)
    requires
        a.says(v),
        a.says(w),
    ensures
        v == w,
{
    match (v, w) {
        (PollActionView::Finish { counts: c, .. }, PollActionView::Finish { counts: d, .. }) => {
            assert(c == d);
        },
        _ => {},
    }
}

/// An atom that a poll asks for has the text that was fetched, the link of the item at hand as its
/// source, the item's date, and the feed's tags, all of them in order; and it is asked for only
/// when the text has just been fetched.
pub proof fn law_atoms_carry_the_feeds_tags(poll: PollView, event: PollEvent, request_id: Seq<char>)
    requires
        poll_ok(poll.feed.items@, poll.state),
        poll_awaits(poll.state.phase, event),
    ensures
        poll_outcome(poll, event, request_id).1 matches PollActionView::Create {
            content,
            source_url,
            published_at,
            tag_ids,
        } ==> {
            let item = poll.feed.items@[poll.state.index];
            &&& event matches PollEvent::Resolved(Ok(text)) && content == text@
            &&& opt_view(item.link) matches Some(link) ==> source_url == link
            &&& published_at == opt_view(item.published_at)
            &&& tag_ids.len() == poll.tag_ids.len()
            &&& forall|i: int| 0 <= i < tag_ids.len() ==> tag_ids[i] == poll.tag_ids[i]
        },
        event matches PollEvent::Resolved(Ok(_)) ==> poll_outcome(
            poll,
            event,
            request_id,
        ).1 is Create,
{
}

/// Items are claimed by their guids, one after the other. A claimed item that has a link is
/// fetched from there, one that has none is skipped; an item that was claimed before is passed
/// over, and nothing is done with it.
pub proof fn law_items_are_claimed_in_order(poll: PollView, request_id: Seq<char>, e: AtomicCoreError)
    requires
        poll_ok(poll.feed.items@, poll.state),
        poll.state.phase == PollPhase::Claiming,
    ensures
        ({
            let items = poll.feed.items@;
            let item = items[poll.state.index];
            let first = poll_outcome(poll, PollEvent::Claimed(Ok(true)), request_id);
            let late = poll_outcome(poll, PollEvent::Claimed(Ok(false)), request_id);
            let down = poll_outcome(poll, PollEvent::Claimed(Err(e)), request_id);
            &&& first.0.index == poll.state.index && first.0.counts == poll.state.counts
            &&& item.link matches Some(link) ==> first.1 == (PollActionView::Resolve {
                link: link@,
                request_id,
            })
            &&& item.link is None ==> first.1 == (PollActionView::Skip {
                guid: item.guid@,
                reason: "No link in feed item"@,
            }) && first.0.phase == PollPhase::Marking(Column::Skipped)
            &&& late.0.index == poll.state.index + 1 && late.0.counts == poll.state.counts
            &&& late.1 == if poll.state.index + 1 < items.len() {
                PollActionView::Claim { guid: items[poll.state.index + 1].guid@ }
            } else {
                PollActionView::MarkPolled
            }
            &&& down.1 == PollActionView::Fail(e@) && down.0.phase == PollPhase::Over
        }),
{
}

/// What becomes of an item that was fetched: an atom completes it and is counted as new; a source
/// that exists or a page that cannot be had skips it, with the reason; an atom that could not be
/// made skips it too, and counts as an error. It is counted when the mark is written, in that
/// column alone, and then the next item comes.
pub proof fn law_items_are_counted_by_what_became_of_them(
    poll: PollView,
    request_id: Seq<char>,
    atom_id: String,
    text: String,
    column: Column,
)
    requires
        poll_ok(poll.feed.items@, poll.state),
        poll.state.index < poll.feed.items@.len(),
    ensures
        ({
            let guid = poll.feed.items@[poll.state.index].guid@;
            let at = |phase: PollPhase| PollView { state: PollState { phase, ..poll.state }, ..poll };
            let made = poll_outcome(
                at(PollPhase::Creating),
                PollEvent::Created(Ok(Some(atom_id))),
                request_id,
            );
            let known = poll_outcome(at(PollPhase::Creating), PollEvent::Created(Ok(None)), request_id);
            let failed = poll_outcome(
                at(PollPhase::Creating),
                PollEvent::Created(Err(text)),
                request_id,
            );
            let unread = poll_outcome(
                at(PollPhase::Resolving),
                PollEvent::Resolved(Err(text)),
                request_id,
            );
            &&& made.1 == (PollActionView::Complete { guid, atom_id: atom_id@ })
            &&& made.0.phase == PollPhase::Marking(Column::New)
            &&& known.1 == (PollActionView::Skip { guid, reason: "duplicate source_url"@ })
            &&& known.0.phase == PollPhase::Marking(Column::Skipped)
            &&& failed.1 == (PollActionView::Skip { guid, reason: text@ })
            &&& failed.0.phase == PollPhase::Marking(Column::Errors)
            &&& unread.1 == (PollActionView::Skip { guid, reason: text@ })
            &&& unread.0.phase == PollPhase::Marking(Column::Skipped)
        }),
        ({
            let marked = poll_outcome(
                PollView {
                    state: PollState { phase: PollPhase::Marking(column), ..poll.state },
                    ..poll
                },
                PollEvent::Marked(Ok(())),
                request_id,
            ).0;
            &&& marked.index == poll.state.index + 1
            &&& marked.counts.new_items == poll.state.counts.new_items + (if column == Column::New {
                1int
            } else {
                0
            })
            &&& marked.counts.skipped == poll.state.counts.skipped + (if column == Column::Skipped {
                1int
            } else {
                0
            })
            &&& marked.counts.errors == poll.state.counts.errors + (if column == Column::Errors {
                1int
            } else {
                0
            })
        }),
{
}

/// When all items are done with the feed is marked as polled, then title and site are filled in if
/// the feed gives either, and then the poll ends with the counts as they stand; whatever cannot
/// be written fails the poll with what the storage said.
pub proof fn law_poll_ends_with_its_counts(poll: PollView, request_id: Seq<char>, e: AtomicCoreError)
    ensures
        ({
            let at = |phase: PollPhase| PollView { state: PollState { phase, ..poll.state }, ..poll };
            let polled = poll_outcome(at(PollPhase::Polled), PollEvent::FeedMarked(Ok(())), request_id);
            let filled = poll_outcome(
                at(PollPhase::Backfilled),
                PollEvent::Backfilled(Ok(())),
                request_id,
            );
            let end = PollActionView::Finish { feed_id: poll.feed_id, counts: poll.state.counts };
            &&& poll.feed.title is None && poll.feed.site_url is None ==> polled.1 == end
            &&& poll.feed.title is Some || poll.feed.site_url is Some ==> polled.1
                == (PollActionView::Backfill {
                title: opt_view(poll.feed.title),
                site_url: opt_view(poll.feed.site_url),
            })
            &&& filled.1 == end && filled.0.phase == PollPhase::Over
            &&& poll_outcome(at(PollPhase::Polled), PollEvent::FeedMarked(Err(e)), request_id).1
                == PollActionView::Fail(e@)
            &&& poll_outcome(at(PollPhase::Backfilled), PollEvent::Backfilled(Err(e)), request_id).1
                == PollActionView::Fail(e@)
            &&& poll_outcome(
                at(PollPhase::Marking(Column::New)),
                PollEvent::Marked(Err(e)),
                request_id,
            ).1 == PollActionView::Fail(e@)
            &&& poll_outcome(
                at(PollPhase::Marking(Column::Skipped)),
                PollEvent::Marked(Err(e)),
                request_id,
            ).1 == PollActionView::Fail(e@)
            &&& poll_outcome(
                at(PollPhase::Marking(Column::Errors)),
                PollEvent::Marked(Err(e)),
                request_id,
            ).1 == PollActionView::Fail(e@)
        }),
{
}

/// A hint that is not empty is the title, whatever the page's own is.
pub proof fn law_hints_go_before_titles(hint: Seq<char>, own: Seq<char>)
    ensures
        chosen_title(None, own) == own,
        hint.len() == 0 ==> chosen_title(Some(hint), own) == own,
        hint.len() > 0 ==> chosen_title(Some(hint), own) == hint,
{
}

/// Of many polls those that came to an end are answered, all of them in order; one that failed
/// leaves the others as they are.
pub proof fn law_failed_polls_leave_the_others(
    polls: Seq<Result<FeedPollResult, AtomicCoreError>>,
    r: FeedPollResult,
    e: AtomicCoreError,
)
    ensures
        ended_polls(Seq::empty()) == Seq::<FeedPollResult>::empty(),
        ended_polls(polls.push(Ok(r))) == ended_polls(polls).push(r),
        ended_polls(polls.push(Err(e))) == ended_polls(polls),
{
    assert(polls.push(Ok(r)).drop_last() =~= polls);
    assert(polls.push(Err(e)).drop_last() =~= polls);
}

/// A page that is taken in becomes an atom with all that the page gave and the request asked for:
/// its text, its address as the source, the time of publication and every tag. What is answered and
/// told in the end names the atom and the page, with its title and the length of its text.
pub proof fn law_pages_become_atoms(
    page: Ingestion,
    got: ResolvedPage,
    r: (IngestedPage, CreateAtomRequest),
    atom_id: String,
    done: Result<(IngestionResult, IngestionEvent), AtomicCoreError>,
)
    requires
        call_ensures(Ingestion::resolved, (page, got), r),
        call_ensures(IngestedPage::created, (r.0, Some(atom_id)), done),
    ensures
        r.1.content@ == got.markdown@,
        r.1.source_url is Some && r.1.source_url->0@ == page.request.url@,
        r.1.published_at == page.request.published_at,
        r.1.tag_ids@ == page.request.tag_ids@,
        !r.1.skip_if_source_exists,
        done is Ok,
        done->Ok_0.0.atom_id@ == atom_id@,
        done->Ok_0.0.url@ == page.request.url@,
        done->Ok_0.0.content_length == byte_len(got.markdown@),
        page.request.title_hint is None ==> done->Ok_0.0.title@ == got.title@,
        page.request.title_hint matches Some(h) ==> done->Ok_0.0.title@ == if h@.len() > 0 {
            h@
        } else {
            got.title@
        },
        done->Ok_0.1 matches IngestionEvent::IngestionComplete { request_id, atom_id: id, url, title }
            && request_id@ == page.request_id@ && id@ == atom_id@ && url@ == page.request.url@
            && title@ == done->Ok_0.0.title@,
{
}

/// A page whose source exists is refused, one that cannot be had is told with the reason, and one
/// of which no atom was made is an error.
pub proof fn law_pages_that_fail_are_told(
    page: &Ingestion,
    exists: bool,
    checked: Result<(), AtomicCoreError>,
    error: String,
    failed: (IngestionEvent, AtomicCoreError),
    ingested: IngestedPage,
    none: Result<(IngestionResult, IngestionEvent), AtomicCoreError>,
)
    requires
        call_ensures(Ingestion::source_checked, (page, exists), checked),
        call_ensures(Ingestion::resolve_failed, (page, error), failed),
        call_ensures(IngestedPage::created, (ingested, None), none),
    ensures
        checked is Err <==> exists,
        failed.0 matches IngestionEvent::IngestionFailed { request_id, url, error: e } && request_id@
            == page.request_id@ && url@ == page.request.url@ && e@ == error@,
        failed.1@ == ErrorView::Ingestion(error@),
        none is Err,
{
}

/// A feed that fails is told by its id, with the reason.
pub proof fn law_feeds_that_fail_are_told(
    feed_id: &str,
    error: String,
    r: (IngestionEvent, AtomicCoreError),
)
    requires
        call_ensures(feed_failed, (feed_id, error), r),
    ensures
        r.0 matches IngestionEvent::FeedPollFailed { feed_id: f, error: e } && f@ == feed_id@ && e@
            == error@,
        r.1@ == ErrorView::Ingestion(error@),
{
}

/// An atom of a feed is made only if its source does not exist yet, and whoever listens to a poll is
/// told of its end what the caller is.
pub proof fn law_poll_actions_are_carried_out(a: PollAction, v: PollActionView)
    requires
        a.says(v),
    ensures
        a matches PollAction::Create { request } ==> request.skip_if_source_exists
            && request.source_url is Some && v is Create && views(request.tag_ids@)
            == v->Create_tag_ids && request.content@ == v->Create_content,
        a matches PollAction::Finish { result, event } ==> (
        event matches IngestionEvent::FeedPollComplete { feed_id, new_items, skipped, errors }
            && feed_id@ == result.feed_id@ && new_items == result.new_items && skipped
            == result.skipped && errors == result.errors),
{
}

/// A copy of a list has every text of it, in order.
pub proof fn law_copies_have_every_text(list: &Vec<String>, r: Vec<String>)
    requires
        call_ensures(copy_texts, (list,), r),
    ensures
        r@.len() == list@.len(),
        forall|i: int| 0 <= i < list@.len() ==> #[trigger] r@[i] == list@[i],
{
}

} // verus!
