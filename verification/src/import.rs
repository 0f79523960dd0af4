//! Importing the notes of a vault: what to do next, given what has happened.

use crate::atoms::{
    job_views, jobs_for, pipeline_jobs, AtomPipelineJobRequest, CreateAtomRequest, JobView,
};
use crate::error::{AtomicCoreError, ErrorView};
use crate::ids::{is_id, new_id, now_rfc3339};
use crate::text::{byte_len, bytes_in, glue, opt_view, text_eq, trim, trimmed, views};
use vstd::prelude::*;

verus! {

/// What an import has done so far.
#[derive(Debug, Clone, Copy, PartialEq, Eq, Structural)]
pub struct ImportResult {
    pub imported: i32,
    pub skipped: i32,
    pub errors: i32,
    pub tags_created: i32,
    pub tags_linked: i32,
}

/// Nothing done yet.
pub open spec fn nothing_imported() -> ImportResult {
    ImportResult { imported: 0, skipped: 0, errors: 0, tags_created: 0, tags_linked: 0 }
}

/// How one file fared.
#[derive(Debug)]
pub struct ImportProgress {
    pub current: i32,
    pub total: i32,
    pub current_file: String,
    pub status: String,
}

/// What a progress report says.
pub struct ProgressView {
    pub current: int,
    pub total: int,
    pub current_file: Seq<char>,
    pub status: Seq<char>,
}

impl View for ImportProgress {
    type V = ProgressView;

    open spec fn view(&self) -> ProgressView {
        ProgressView {
            current: self.current as int,
            total: self.total as int,
            current_file: self.current_file@,
            status: self.status@,
        }
    }
}

/// A tag that a folder of the vault gives, with the folders above it.
#[derive(Debug)]
pub struct HierarchicalTag {
    pub name: String,
    pub parent_path: Vec<String>,
}

/// A note as it was read.
#[derive(Debug)]
pub struct ParsedNote {
    pub content: String,
    pub source_url: String,
    pub created_at: String,
    pub folder_tags: Vec<HierarchicalTag>,
    pub frontmatter_tags: Vec<String>,
}

/// What a note holds: of a folder tag, its name and how many folders stand above it.
pub struct NoteView {
    pub content: Seq<char>,
    pub source_url: Seq<char>,
    pub created_at: Seq<char>,
    pub folder_tags: Seq<(Seq<char>, nat)>,
    pub frontmatter_tags: Seq<Seq<char>>,
}

impl View for ParsedNote {
    type V = NoteView;

    open spec fn view(&self) -> NoteView {
        NoteView {
            content: self.content@,
            source_url: self.source_url@,
            created_at: self.created_at@,
            folder_tags: self.folder_tags@.map_values(
                |t: HierarchicalTag| (t.name@, t.parent_path@.len()),
            ),
            frontmatter_tags: views(self.frontmatter_tags@),
        }
    }
}

/// The fewest bytes that a note must have, white space around it not counted.
pub const MIN_NOTE_BYTES: usize = 10;

/// A tag that a note asks for.
struct WantedTag {
    name: String,
    /// For the tag of a folder, how many folders stand above it.
    above: Option<usize>,
}

/// The tags that a note asks for: those of its folders, then those of its front matter.
pub open spec fn wanted(note: NoteView) -> Seq<(Seq<char>, Option<nat>)> {
    note.folder_tags.map_values(|t: (Seq<char>, nat)| (t.0, Some(t.1)))
        + note.frontmatter_tags.map_values(|n: Seq<char>| (n, None::<nat>))
}

/// What a list of wanted tags holds.
spec fn wanted_views(tags: Seq<WantedTag>) -> Seq<(Seq<char>, Option<nat>)> {
    tags.map_values(
        |t: WantedTag|
            (
                t.name@,
                match t.above {
                    Some(n) => Some(n as nat),
                    None => None,
                },
            ),
    )
}

/// A walk over the tags that a note asks for.
struct TagWalk {
    tags: Vec<WantedTag>,
    atom_id: String,
    /// The ids of the folder tags so far.
    folder_ids: Vec<String>,
    /// The tag at hand.
    at: usize,
}

/// Where a walk stands.
pub struct WalkView {
    pub tags: Seq<(Seq<char>, Option<nat>)>,
    pub atom_id: Seq<char>,
    pub folder_ids: Seq<Seq<char>>,
    pub at: int,
}

impl View for TagWalk {
    type V = WalkView;

    closed spec fn view(&self) -> WalkView {
        WalkView {
            tags: wanted_views(self.tags@),
            atom_id: self.atom_id@,
            folder_ids: views(self.folder_ids@),
            at: self.at as int,
        }
    }
}

/// What is awaited.
enum Phase {
    Parsing,
    Checking { note: ParsedNote },
    Inserting { note: ParsedNote, atom_id: String },
    Opening { note: ParsedNote, atom_id: String },
    Finding { walk: TagWalk },
    Creating { walk: TagWalk, tag_id: String },
    Linking { walk: TagWalk },
    Over,
}

/// What is awaited, as a value.
pub enum PhaseView {
    Parsing,
    Checking { note: NoteView },
    Inserting { note: NoteView, atom_id: Seq<char> },
    Opening { note: NoteView, atom_id: Seq<char> },
    Finding { walk: WalkView },
    Creating { walk: WalkView, tag_id: Seq<char> },
    Linking { walk: WalkView },
    Over,
}

impl View for Phase {
    type V = PhaseView;

    closed spec fn view(&self) -> PhaseView {
        match self {
            Phase::Parsing => PhaseView::Parsing,
            Phase::Checking { note } => PhaseView::Checking { note: note@ },
            Phase::Inserting { note, atom_id } => PhaseView::Inserting {
                note: note@,
                atom_id: atom_id@,
            },
            Phase::Opening { note, atom_id } => PhaseView::Opening {
                note: note@,
                atom_id: atom_id@,
            },
            Phase::Finding { walk } => PhaseView::Finding { walk: walk@ },
            Phase::Creating { walk, tag_id } => PhaseView::Creating {
                walk: walk@,
                tag_id: tag_id@,
            },
            Phase::Linking { walk } => PhaseView::Linking { walk: walk@ },
            Phase::Over => PhaseView::Over,
        }
    }
}

/// A tag that has been found or made: its name in lower case, its parent and its id.
struct CachedTag {
    name: String,
    parent_id: Option<String>,
    id: String,
}

/// What is known of the tags: name in lower case, parent and id of each.
pub type TagCacheView = Seq<(Seq<char>, Option<Seq<char>>, Seq<char>)>;

/// What the cache holds.
spec fn cache_view(cache: Seq<CachedTag>) -> TagCacheView {
    cache.map_values(|t: CachedTag| (t.name@, opt_view(t.parent_id), t.id@))
}

/// The id of the tag with this name under this parent, if it is known.
pub open spec fn cached(
    cache: TagCacheView,
    name: Seq<char>,
    parent: Option<Seq<char>>,
) -> Option<Seq<char>>
    decreases cache.len(),
{
    if cache.len() == 0 {
        None
    } else if cache[0].0 == name && cache[0].1 == parent {
        Some(cache[0].2)
    } else {
        cached(cache.drop_first(), name, parent)
    }
}

/// A text in lower case, as `str::to_lowercase` makes it.
pub uninterp spec fn lowercase(s: Seq<char>) -> Seq<char>;

/// The text in lower case: what `str::to_lowercase` returns, which is a function of the text.
#[verifier::external_body]
pub(crate) fn to_lowercase(s: &str) -> (r: String)
    ensures
        r@ == lowercase(s@),
{
    s.to_lowercase()
}

/// An import under way.
pub struct ImportRun {
    files: Vec<String>,
    index: usize,
    stats: ImportResult,
    cache: Vec<CachedTag>,
    imported: Vec<String>,
    phase: Phase,
}

/// Where an import stands.
pub struct RunView {
    pub files: Seq<Seq<char>>,
    pub index: int,
    pub stats: ImportResult,
    pub cache: TagCacheView,
    pub imported: Seq<Seq<char>>,
    pub phase: PhaseView,
}

impl View for ImportRun {
    type V = RunView;

    closed spec fn view(&self) -> RunView {
        RunView {
            files: views(self.files@),
            index: self.index as int,
            stats: self.stats,
            cache: cache_view(self.cache@),
            imported: views(self.imported@),
            phase: self.phase@,
        }
    }
}

/// What has happened.
pub enum ImportEvent {
    /// The note at hand was read, or could not be.
    Parsed(Result<ParsedNote, ()>),
    /// Whether the source exists, if that could be told.
    SourceChecked(Result<bool, AtomicCoreError>),
    /// Whether the atom was inserted.
    Inserted(bool),
    /// Whether the tables of tags can be used.
    TablesOpened(Result<(), AtomicCoreError>),
    /// The id of the tag that was looked for, if there is one.
    TagFound(Option<String>),
    /// Whether the tag was made.
    TagCreated(bool),
    /// Whether the tag was linked.
    TagLinked(bool),
}

/// What is to be done.
pub enum ImportAction {
    /// Read the note with this index.
    Parse(usize),
    /// Look up whether an atom with this source exists.
    CheckSource(String),
    /// Insert the atom.
    Insert { atom_id: String, request: CreateAtomRequest, created_at: String },
    /// Get at the tables of tags.
    OpenTables,
    /// Look for a tag with this name, in whatever case, under this parent.
    FindTag { name: String, parent_id: Option<String> },
    /// Make a tag.
    CreateTag { id: String, name: String, parent_id: Option<String>, created_at: String },
    /// Link a tag to the atom, and note where the link comes from.
    LinkTag { atom_id: String, tag_id: String, source: &'static str },
    /// The import is over: the answer, and the jobs for what was imported.
    Finish { stats: ImportResult, jobs: Vec<AtomPipelineJobRequest> },
    /// The import fails.
    Fail(AtomicCoreError),
}

/// What is to be done, as a value.
pub enum ActionView {
    Parse(int),
    CheckSource(Seq<char>),
    Insert { atom_id: Seq<char>, content: Seq<char>, source_url: Seq<char>, created_at: Seq<char> },
    OpenTables,
    FindTag { name: Seq<char>, parent_id: Option<Seq<char>> },
    CreateTag {
        id: Seq<char>,
        name: Seq<char>,
        parent_id: Option<Seq<char>>,
        created_at: Seq<char>,
    },
    LinkTag { atom_id: Seq<char>, tag_id: Seq<char>, source: Seq<char> },
    Finish { stats: ImportResult, jobs: Seq<JobView> },
    Fail(ErrorView),
}

/// Whether a request asks for a plain note: its content and its source, nothing else.
pub open spec fn is_plain_request(
    r: CreateAtomRequest,
    content: Seq<char>,
    source_url: Seq<char>,
) -> bool {
    &&& r.content@ == content
    &&& opt_view(r.source_url) == Some(source_url)
    &&& r.published_at is None
    &&& r.tag_ids@.len() == 0
    &&& !r.skip_if_source_exists
}

impl ImportAction {
    /// Whether this is the action that `v` describes.
    pub open spec fn says(self, v: ActionView) -> bool {
        match (self, v) {
            (ImportAction::Parse(i), ActionView::Parse(j)) => i == j,
            (ImportAction::CheckSource(s), ActionView::CheckSource(t)) => s@ == t,
            (
                ImportAction::Insert { atom_id, request, created_at },
                ActionView::Insert { atom_id: a, content: c, source_url: s, created_at: t },
            ) => atom_id@ == a && is_plain_request(request, c, s) && created_at@ == t,
            (ImportAction::OpenTables, ActionView::OpenTables) => true,
            (
                ImportAction::FindTag { name, parent_id },
                ActionView::FindTag { name: n, parent_id: p },
            ) => name@ == n && opt_view(parent_id) == p,
            (
                ImportAction::CreateTag { id, name, parent_id, created_at },
                ActionView::CreateTag { id: i, name: n, parent_id: p, created_at: t },
            ) => id@ == i && name@ == n && opt_view(parent_id) == p && created_at@ == t,
            (
                ImportAction::LinkTag { atom_id, tag_id, source },
                ActionView::LinkTag { atom_id: a, tag_id: t, source: s },
            ) => atom_id@ == a && tag_id@ == t && source@ == s,
            (
                ImportAction::Finish { stats, jobs },
                ActionView::Finish { stats: s, jobs: j },
            ) => stats == s && job_views(jobs@) == j,
            (ImportAction::Fail(e), ActionView::Fail(f)) => e@ == f,
            _ => false,
        }
    }
}

/// What happens in answer to an event: the new state, a progress report if a file is done with,
/// and the next action.
pub struct Outcome {
    pub run: RunView,
    pub progress: Option<ProgressView>,
    pub action: ActionView,
}

/// The action at the head of the file at hand, or the end of the import.
pub open spec fn at_file(run: RunView) -> (RunView, ActionView) {
    if run.index < run.files.len() {
        (RunView { phase: PhaseView::Parsing, ..run }, ActionView::Parse(run.index))
    } else {
        (
            RunView { phase: PhaseView::Over, ..run },
            ActionView::Finish {
                stats: run.stats,
                jobs: jobs_for(run.imported, true, true, "import_markdown"@, false),
            },
        )
    }
}

/// The file at hand is done with: it is reported, and the next one comes.
pub open spec fn file_done(run: RunView, stats: ImportResult, status: Seq<char>) -> Outcome {
    let next = at_file(RunView { index: run.index + 1, stats, ..run });
    Outcome {
        run: next.0,
        progress: Some(
            ProgressView {
                current: run.index + 1,
                total: run.files.len() as int,
                current_file: run.files[run.index],
                status,
            },
        ),
        action: next.1,
    }
}

/// One more in the column of the files that gave errors.
pub open spec fn one_error(s: ImportResult) -> ImportResult {
    ImportResult { errors: (s.errors + 1) as i32, ..s }
}

/// One more in the column of the files that were skipped.
pub open spec fn one_skipped(s: ImportResult) -> ImportResult {
    ImportResult { skipped: (s.skipped + 1) as i32, ..s }
}

/// One more in the column of the files that were imported.
pub open spec fn one_imported(s: ImportResult) -> ImportResult {
    ImportResult { imported: (s.imported + 1) as i32, ..s }
}

/// The name of the tag at hand.
pub open spec fn tag_name(w: WalkView) -> Seq<char> {
    w.tags[w.at].0
}

/// The parent of the tag at hand: for a folder tag, the id of the folder tag that stands as
/// deep in the list of ids as its folder has folders above it, if there is one.
pub open spec fn tag_parent(w: WalkView) -> Option<Seq<char>> {
    match w.tags[w.at].1 {
        Some(above) => if above == 0 || above > w.folder_ids.len() {
            None
        } else {
            Some(w.folder_ids[above - 1])
        },
        None => None,
    }
}

/// The id of the tag at hand is known: it is kept if the tag is a folder's, and linked as the
/// user's own, which tagging anew leaves alone.
pub open spec fn tag_known(run: RunView, w: WalkView, id: Seq<char>) -> Outcome {
    let walk = WalkView {
        folder_ids: if w.tags[w.at].1 is Some {
            w.folder_ids.push(id)
        } else {
            w.folder_ids
        },
        ..w
    };
    Outcome {
        run: RunView { phase: PhaseView::Linking { walk }, ..run },
        progress: None,
        action: ActionView::LinkTag { atom_id: w.atom_id, tag_id: id, source: "manual"@ },
    }
}

/// The tag at hand comes next, or the end of the note if there is none left.
pub open spec fn at_tag(run: RunView, w: WalkView) -> Outcome {
    if w.at >= w.tags.len() {
        file_done(run, one_imported(run.stats), "importing"@)
    } else {
        match cached(run.cache, lowercase(tag_name(w)), tag_parent(w)) {
            Some(id) => tag_known(run, w, id),
            None => Outcome {
                run: RunView { phase: PhaseView::Finding { walk: w }, ..run },
                progress: None,
                action: ActionView::FindTag { name: tag_name(w), parent_id: tag_parent(w) },
            },
        }
    }
}

/// The id of the tag at hand has been found or made, and is remembered.
pub open spec fn tag_learned(run: RunView, w: WalkView, id: Seq<char>) -> Outcome {
    tag_known(
        RunView { cache: run.cache.push((lowercase(tag_name(w)), tag_parent(w), id)), ..run },
        w,
        id,
    )
}

/// The import fails.
pub open spec fn failed(run: RunView, e: ErrorView) -> Outcome {
    Outcome {
        run: RunView { phase: PhaseView::Over, ..run },
        progress: None,
        action: ActionView::Fail(e),
    }
}

/// Whether the event is one that is awaited.
pub open spec fn awaits(phase: PhaseView, event: ImportEvent) -> bool {
    match phase {
        PhaseView::Parsing => event is Parsed,
        PhaseView::Checking { .. } => event is SourceChecked,
        PhaseView::Inserting { .. } => event is Inserted,
        PhaseView::Opening { .. } => event is TablesOpened,
        PhaseView::Finding { .. } => event is TagFound,
        PhaseView::Creating { .. } => event is TagCreated,
        PhaseView::Linking { .. } => event is TagLinked,
        PhaseView::Over => false,
    }
}

/// What an awaited event leads to. `id` is the id of the atom or the tag that is made next, if
/// one is, and `now` the time at which a tag is made.
pub open spec fn outcome(run: RunView, event: ImportEvent, id: Seq<char>, now: Seq<char>) -> Outcome {
    match (run.phase, event) {
        (PhaseView::Parsing, ImportEvent::Parsed(Err(_))) => file_done(
            run,
            one_error(run.stats),
            "error"@,
        ),
        (PhaseView::Parsing, ImportEvent::Parsed(Ok(note))) => if byte_len(trimmed(note@.content))
            < 10 {
            file_done(run, one_skipped(run.stats), "skipped"@)
        } else {
            Outcome {
                run: RunView { phase: PhaseView::Checking { note: note@ }, ..run },
                progress: None,
                action: ActionView::CheckSource(note@.source_url),
            }
        },
        (PhaseView::Checking { note }, ImportEvent::SourceChecked(Ok(exists))) => if exists {
            file_done(run, one_skipped(run.stats), "skipped"@)
        } else {
            Outcome {
                run: RunView { phase: PhaseView::Inserting { note, atom_id: id }, ..run },
                progress: None,
                action: ActionView::Insert {
                    atom_id: id,
                    content: note.content,
                    source_url: note.source_url,
                    created_at: note.created_at,
                },
            }
        },
        (PhaseView::Checking { .. }, ImportEvent::SourceChecked(Err(e))) => failed(run, e@),
        (PhaseView::Inserting { note, atom_id }, ImportEvent::Inserted(ok)) => if ok {
            Outcome {
                run: RunView {
                    imported: run.imported.push(atom_id),
                    phase: PhaseView::Opening { note, atom_id },
                    ..run
                },
                progress: None,
                action: ActionView::OpenTables,
            }
        } else {
            file_done(run, one_error(run.stats), "error"@)
        },
        (PhaseView::Opening { note, atom_id }, ImportEvent::TablesOpened(Ok(_))) => at_tag(
            run,
            WalkView { tags: wanted(note), atom_id, folder_ids: Seq::empty(), at: 0 },
        ),
        (PhaseView::Opening { .. }, ImportEvent::TablesOpened(Err(e))) => failed(run, e@),
        (PhaseView::Finding { walk }, ImportEvent::TagFound(Some(found))) => tag_learned(
            run,
            walk,
            found@,
        ),
        (PhaseView::Finding { walk }, ImportEvent::TagFound(None)) => Outcome {
            run: RunView { phase: PhaseView::Creating { walk, tag_id: id }, ..run },
            progress: None,
            action: ActionView::CreateTag {
                id,
                name: tag_name(walk),
                parent_id: tag_parent(walk),
                created_at: now,
            },
        },
        (PhaseView::Creating { walk, tag_id }, ImportEvent::TagCreated(ok)) => if ok {
            tag_learned(
                RunView {
                    stats: ImportResult {
                        tags_created: (run.stats.tags_created + 1) as i32,
                        ..run.stats
                    },
                    ..run
                },
                walk,
                tag_id,
            )
        } else {
            at_tag(run, WalkView { at: walk.at + 1, ..walk })
        },
        (PhaseView::Linking { walk }, ImportEvent::TagLinked(ok)) => at_tag(
            RunView {
                stats: if ok {
                    ImportResult {
                        tags_linked: (run.stats.tags_linked + 1) as i32,
                        ..run.stats
                    }
                } else {
                    run.stats
                },
                ..run
            },
            WalkView { at: walk.at + 1, ..walk },
        ),
        _ => arbitrary(),
    }
}

/// Whether every file that is done with is in one column of the count, and the walk stands at a
/// tag of its note.
pub open spec fn run_ok(run: RunView) -> bool {
    &&& 0 <= run.index <= run.files.len() <= i32::MAX
    &&& !(run.phase is Over) ==> run.index < run.files.len()
    &&& 0 <= run.stats.imported
    &&& 0 <= run.stats.skipped
    &&& 0 <= run.stats.errors
    &&& run.stats.imported + run.stats.skipped + run.stats.errors == run.index
    &&& match run.phase {
        PhaseView::Finding { walk } => 0 <= walk.at < walk.tags.len(),
        PhaseView::Creating { walk, .. } => 0 <= walk.at < walk.tags.len(),
        PhaseView::Linking { walk } => 0 <= walk.at < walk.tags.len(),
        _ => true,
    }
}

/// Whether there is room for one more tag in the counts.
pub open spec fn has_room(stats: ImportResult) -> bool {
    stats.tags_created < i32::MAX && stats.tags_linked < i32::MAX
}

/// Every step keeps the accounts: each file that is done with is counted once, as imported,
/// skipped or failed.
pub proof fn law_every_file_is_counted_once(
    run: RunView,
    event: ImportEvent,
    id: Seq<char>,
    now: Seq<char>,
)
    requires
        run_ok(run),
        awaits(run.phase, event),
    ensures
        run_ok(outcome(run, event, id, now).run),
{
}

/// An import that ends has one report and one count for every file: the reports are numbered one
/// after the other, and the counts add up to the number of files.
pub proof fn law_import_ends_with_every_file(
    run: RunView,
    event: ImportEvent,
    id: Seq<char>,
    now: Seq<char>,
)
    requires
        run_ok(run),
        awaits(run.phase, event),
    ensures
        outcome(run, event, id, now).action matches ActionView::Finish { stats, .. } ==> stats.imported
            + stats.skipped + stats.errors == run.files.len(),
        outcome(run, event, id, now).progress matches Some(p) ==> p.current == run.index + 1
            && outcome(run, event, id, now).run.index == run.index + 1,
        outcome(run, event, id, now).progress is None ==> outcome(run, event, id, now).run.index
            == run.index,
{
}

/// A tag that has been learned is known from then on, and nothing else changes: a tag that was
/// found or made is not looked for again.
pub proof fn law_learned_tag_is_known(
    cache: TagCacheView,
    name: Seq<char>,
    parent: Option<Seq<char>>,
    id: Seq<char>,
)
    requires
        cached(cache, name, parent) is None,
    ensures
        cached(cache.push((name, parent, id)), name, parent) == Some(id),
        forall|n: Seq<char>, p: Option<Seq<char>>|
            n != name || p != parent ==> #[trigger] cached(cache.push((name, parent, id)), n, p)
                == cached(cache, n, p),
    decreases cache.len(),
{
    let grown = cache.push((name, parent, id));
    if cache.len() == 0 {
        assert(grown.drop_first() =~= Seq::empty());
        assert forall|n: Seq<char>, p: Option<Seq<char>>|
            n != name || p != parent implies #[trigger] cached(grown, n, p) == cached(
            cache,
            n,
            p,
        ) by {
            reveal_with_fuel(cached, 2);
        }
    } else {
        law_learned_tag_is_known(cache.drop_first(), name, parent, id);
        assert(grown.drop_first() =~= cache.drop_first().push((name, parent, id)));
        assert forall|n: Seq<char>, p: Option<Seq<char>>|
            n != name || p != parent implies #[trigger] cached(grown, n, p) == cached(
            cache,
            n,
            p,
        ) by {
            assert(cached(grown.drop_first(), n, p) == cached(cache.drop_first(), n, p));
        }
    }
}

/// Every tag that an import gives to an atom is linked as the user's own.
pub proof fn law_imported_tags_are_manual(
    run: RunView,
    event: ImportEvent,
    id: Seq<char>,
    now: Seq<char>,
)
    requires
        awaits(run.phase, event),
    ensures
        outcome(run, event, id, now).action matches ActionView::LinkTag { source, .. } ==> source
            == "manual"@,
{
}

/// The files that are imported: all of them, or as many as the limit says; a negative number
/// does not limit them.
pub open spec fn within_limit(files: Seq<Seq<char>>, max_notes: Option<i32>) -> Seq<Seq<char>> {
    match max_notes {
        Some(m) => if 0 <= m < files.len() {
            files.take(m as int)
        } else {
            files
        },
        None => files,
    }
}

/// Whether the outcome of a step is the one described.
pub open spec fn is_outcome(
    run: RunView,
    progress: Option<ImportProgress>,
    action: ImportAction,
    o: Outcome,
) -> bool {
    &&& run == o.run
    &&& (match progress {
        Some(p) => Some(p@),
        None => None,
    }) == o.progress
    &&& action.says(o.action)
}

/// The id of the tag with this name under this parent, if it is known.
fn find_cached(cache: &Vec<CachedTag>, name: &str, parent: &Option<String>) -> (r: Option<String>)
    ensures
        opt_view(r) == cached(cache_view(cache@), name@, opt_view(*parent)),
{
    let ghost all = cache_view(cache@);
    let mut i: usize = 0;
    assert(all.skip(0) =~= all);
    while i < cache.len()
        invariant
            i <= cache@.len(),
            all == cache_view(cache@),
            cached(all, name@, opt_view(*parent)) == cached(
                all.skip(i as int),
                name@,
                opt_view(*parent),
            ),
        decreases cache@.len() - i,
    {
        let t = &cache[i];
        let same_parent = match (&t.parent_id, parent) {
            (Some(a), Some(b)) => text_eq(a.as_str(), b.as_str()),
            (None, None) => true,
            _ => false,
        };
        assert(all.skip(i as int)[0] == all[i as int]);
        assert(all.skip(i as int).drop_first() =~= all.skip(i + 1));
        if text_eq(t.name.as_str(), name) && same_parent {
            return Some(t.id.clone());
        }
        i = i + 1;
    }
    None
}

/// The tags that a note asks for.
fn tags_wanted(note: ParsedNote) -> (r: Vec<WantedTag>)
    ensures
        wanted_views(r@) == wanted(note@),
{
    let ghost nv = note@;
    let folder_tags = note.folder_tags;
    let frontmatter_tags = note.frontmatter_tags;
    let n: usize = folder_tags.len();
    let mut r: Vec<WantedTag> = Vec::new();
    let mut i: usize = 0;
    while i < folder_tags.len()
        invariant
            i <= folder_tags@.len(),
            nv.folder_tags == folder_tags@.map_values(
                |t: HierarchicalTag| (t.name@, t.parent_path@.len()),
            ),
            wanted_views(r@) == wanted(nv).take(i as int),
        decreases folder_tags@.len() - i,
    {
        let t = &folder_tags[i];
        let w = WantedTag { name: t.name.clone(), above: Some(t.parent_path.len()) };
        let ghost before = r@;
        r.push(w);
        assert(wanted_views(r@) =~= wanted_views(before).push(wanted(nv)[i as int]));
        assert(wanted(nv).take(i + 1) =~= wanted(nv).take(i as int).push(wanted(nv)[i as int]));
        i = i + 1;
    }
    let mut i: usize = 0;
    while i < frontmatter_tags.len()
        invariant
            i <= frontmatter_tags@.len(),
            n == nv.folder_tags.len(),
            nv.frontmatter_tags == views(frontmatter_tags@),
            wanted_views(r@) == wanted(nv).take(n + i),
        decreases frontmatter_tags@.len() - i,
    {
        let w = WantedTag { name: frontmatter_tags[i].clone(), above: None };
        let ghost before = r@;
        r.push(w);
        assert(nv.frontmatter_tags[i as int] == frontmatter_tags@[i as int]@);
        assert(wanted_views(r@) =~= wanted_views(before).push(wanted(nv)[n + i]));
        assert(wanted(nv).take(n + i + 1) =~= wanted(nv).take(n + i).push(wanted(nv)[n + i]));
        i = i + 1;
    }
    assert(wanted(nv).take(n + i) =~= wanted(nv));
    r
}

impl TagWalk {
    /// The name of the tag at hand.
    fn name(&self) -> (r: String)
        requires
            self.at < self.tags@.len(),
        ensures
            r@ == tag_name(self@),
    {
        self.tags[self.at].name.clone()
    }

    /// The parent of the tag at hand.
    fn parent(&self) -> (r: Option<String>)
        requires
            self.at < self.tags@.len(),
        ensures
            opt_view(r) == tag_parent(self@),
    {
        match self.tags[self.at].above {
            Some(above) => {
                if above == 0 || above > self.folder_ids.len() {
                    None
                } else {
                    assert(self@.folder_ids[above - 1] == self.folder_ids@[above - 1]@);
                    Some(self.folder_ids[above - 1].clone())
                }
            },
            None => None,
        }
    }
}

impl ImportRun {
    /// The action at the head of the file at hand, or the end of the import.
    fn at_file(&mut self) -> (action: ImportAction)
        ensures
            final(self)@ == at_file(old(self)@).0,
            action.says(at_file(old(self)@).1),
    {
        if self.index < self.files.len() {
            self.phase = Phase::Parsing;
            ImportAction::Parse(self.index)
        } else {
            self.phase = Phase::Over;
            let jobs = pipeline_jobs(&self.imported, true, true, "import_markdown", false);
            ImportAction::Finish { stats: self.stats, jobs }
        }
    }

    /// The file at hand is done with.
    fn file_done(&mut self, status: &str) -> (r: (Option<ImportProgress>, ImportAction))
        requires
            old(self).index < old(self).files@.len() <= i32::MAX,
        ensures
            is_outcome(
                final(self)@,
                r.0,
                r.1,
                file_done(old(self)@, old(self).stats, status@),
            ),
    {
        assert(self@.files[self.index as int] == self.files@[self.index as int]@);
        let progress = ImportProgress {
            current: self.index as i32 + 1,
            total: self.files.len() as i32,
            current_file: self.files[self.index].clone(),
            status: status.to_owned(),
        };
        self.index = self.index + 1;
        let action = self.at_file();
        (Some(progress), action)
    }

    /// The id of the tag at hand is known.
    fn tag_known(&mut self, walk: TagWalk, id: String) -> (r: (Option<ImportProgress>, ImportAction))
        requires
            walk.at < walk.tags@.len(),
        ensures
            is_outcome(final(self)@, r.0, r.1, tag_known(old(self)@, walk@, id@)),
    {
        let mut walk = walk;
        let atom_id = walk.atom_id.clone();
        if walk.tags[walk.at].above.is_some() {
            let ghost before = views(walk.folder_ids@);
            walk.folder_ids.push(id.clone());
            assert(views(walk.folder_ids@) =~= before.push(id@));
        }
        self.phase = Phase::Linking { walk };
        (None, ImportAction::LinkTag { atom_id, tag_id: id, source: "manual" })
    }

    /// The tag at hand comes next, or the end of the note.
    fn at_tag(&mut self, walk: TagWalk) -> (r: (Option<ImportProgress>, ImportAction))
        requires
            run_ok(old(self)@),
            old(self).index < old(self).files@.len(),
        ensures
            is_outcome(final(self)@, r.0, r.1, at_tag(old(self)@, walk@)),
    {
        if walk.at >= walk.tags.len() {
            self.stats.imported = self.stats.imported + 1;
            return self.file_done("importing");
        }
        let name = walk.name();
        let parent_id = walk.parent();
        let key = to_lowercase(name.as_str());
        match find_cached(&self.cache, key.as_str(), &parent_id) {
            Some(id) => self.tag_known(walk, id),
            None => {
                self.phase = Phase::Finding { walk };
                (None, ImportAction::FindTag { name, parent_id })
            },
        }
    }

    /// The id of the tag at hand has been found or made.
    fn tag_learned(&mut self, walk: TagWalk, id: String) -> (r: (
        Option<ImportProgress>,
        ImportAction,
    ))
        requires
            walk.at < walk.tags@.len(),
        ensures
            is_outcome(final(self)@, r.0, r.1, tag_learned(old(self)@, walk@, id@)),
    {
        let name = walk.name();
        let key = to_lowercase(name.as_str());
        let parent_id = walk.parent();
        let ghost before = cache_view(self.cache@);
        let t = CachedTag { name: key, parent_id, id: id.clone() };
        let ghost tv = (t.name@, opt_view(t.parent_id), t.id@);
        self.cache.push(t);
        assert(cache_view(self.cache@) =~= before.push(tv));
        self.tag_known(walk, id)
    }

    /// The import fails.
    fn fail(&mut self, e: AtomicCoreError) -> (r: (Option<ImportProgress>, ImportAction))
        ensures
            is_outcome(final(self)@, r.0, r.1, failed(old(self)@, e@)),
    {
        self.phase = Phase::Over;
        (None, ImportAction::Fail(e))
    }

    /// Starts an import of the files, as many as the limit allows.
    pub fn start(files: Vec<String>, max_notes: Option<i32>) -> (r: (ImportRun, ImportAction))
        requires
            within_limit(views(files@), max_notes).len() <= i32::MAX,
        ensures
            run_ok(r.0@),
            ({
                let begun = RunView {
                    files: within_limit(views(files@), max_notes),
                    index: 0,
                    stats: nothing_imported(),
                    cache: Seq::empty(),
                    imported: Seq::empty(),
                    phase: PhaseView::Parsing,
                };
                r.0@ == at_file(begun).0 && r.1.says(at_file(begun).1)
            }),
    {
        let ghost all = views(files@);
        let mut files = files;
        match max_notes {
            Some(m) => {
                if m >= 0 && (m as usize) < files.len() {
                    files.truncate(m as usize);
                    assert(views(files@) =~= all.take(m as int));
                }
            },
            None => {},
        }
        let mut run = ImportRun {
            files,
            index: 0,
            stats: ImportResult {
                imported: 0,
                skipped: 0,
                errors: 0,
                tags_created: 0,
                tags_linked: 0,
            },
            cache: Vec::new(),
            imported: Vec::new(),
            phase: Phase::Parsing,
        };
        assert(cache_view(run.cache@) =~= Seq::empty());
        assert(views(run.imported@) =~= Seq::empty());
        let action = run.at_file();
        (run, action)
    }

    /// Whether the event is awaited and there is room to count what comes of it.
    pub fn accepts(&self, event: &ImportEvent) -> (r: bool)
        ensures
            r == (awaits(self@.phase, *event) && has_room(self@.stats)),
    {
        let awaited = match (&self.phase, event) {
            (Phase::Parsing, ImportEvent::Parsed(_)) => true,
            (Phase::Checking { .. }, ImportEvent::SourceChecked(_)) => true,
            (Phase::Inserting { .. }, ImportEvent::Inserted(_)) => true,
            (Phase::Opening { .. }, ImportEvent::TablesOpened(_)) => true,
            (Phase::Finding { .. }, ImportEvent::TagFound(_)) => true,
            (Phase::Creating { .. }, ImportEvent::TagCreated(_)) => true,
            (Phase::Linking { .. }, ImportEvent::TagLinked(_)) => true,
            _ => false,
        };
        awaited && self.stats.tags_created < i32::MAX && self.stats.tags_linked < i32::MAX
    }

    /// Takes in an event, with the id of what is made next and the time.
    pub fn step_as(&mut self, event: ImportEvent, id: String, now: String) -> (r: (
        Option<ImportProgress>,
        ImportAction,
    ))
        requires
            run_ok(old(self)@),
            awaits(old(self)@.phase, event),
            has_room(old(self)@.stats),
        ensures
            is_outcome(final(self)@, r.0, r.1, outcome(old(self)@, event, id@, now@)),
            run_ok(final(self)@),
    {
        proof {
            law_every_file_is_counted_once(self@, event, id@, now@);
        }
        let mut phase = Phase::Over;
        std::mem::swap(&mut phase, &mut self.phase);
        match (phase, event) {
            (Phase::Parsing, ImportEvent::Parsed(Err(_))) => {
                self.stats.errors = self.stats.errors + 1;
                self.file_done("error")
            },
            (Phase::Parsing, ImportEvent::Parsed(Ok(note))) => {
                if bytes_in(trim(note.content.as_str()).as_str()) < MIN_NOTE_BYTES {
                    self.stats.skipped = self.stats.skipped + 1;
                    self.file_done("skipped")
                } else {
                    let url = note.source_url.clone();
                    self.phase = Phase::Checking { note };
                    (None, ImportAction::CheckSource(url))
                }
            },
            (Phase::Checking { note }, ImportEvent::SourceChecked(Ok(exists))) => {
                if exists {
                    self.stats.skipped = self.stats.skipped + 1;
                    self.file_done("skipped")
                } else {
                    let request = CreateAtomRequest {
                        content: note.content.clone(),
                        source_url: Some(note.source_url.clone()),
                        published_at: None,
                        tag_ids: Vec::new(),
                        skip_if_source_exists: false,
                    };
                    let created_at = note.created_at.clone();
                    self.phase = Phase::Inserting { note, atom_id: id.clone() };
                    (None, ImportAction::Insert { atom_id: id, request, created_at })
                }
            },
            (Phase::Checking { .. }, ImportEvent::SourceChecked(Err(e))) => self.fail(e),
            (Phase::Inserting { note, atom_id }, ImportEvent::Inserted(ok)) => {
                if ok {
                    let ghost before = views(self.imported@);
                    self.imported.push(atom_id.clone());
                    assert(views(self.imported@) =~= before.push(atom_id@));
                    self.phase = Phase::Opening { note, atom_id };
                    (None, ImportAction::OpenTables)
                } else {
                    self.stats.errors = self.stats.errors + 1;
                    self.file_done("error")
                }
            },
            (Phase::Opening { note, atom_id }, ImportEvent::TablesOpened(Ok(_))) => {
                let walk = TagWalk {
                    tags: tags_wanted(note),
                    atom_id,
                    folder_ids: Vec::new(),
                    at: 0,
                };
                assert(views(walk.folder_ids@) =~= Seq::empty());
                self.at_tag(walk)
            },
            (Phase::Opening { .. }, ImportEvent::TablesOpened(Err(e))) => self.fail(e),
            (Phase::Finding { walk }, ImportEvent::TagFound(Some(found))) => {
                self.tag_learned(walk, found)
            },
            (Phase::Finding { walk }, ImportEvent::TagFound(None)) => {
                let name = walk.name();
                let parent_id = walk.parent();
                self.phase = Phase::Creating { walk, tag_id: id.clone() };
                (None, ImportAction::CreateTag { id, name, parent_id, created_at: now })
            },
            (Phase::Creating { walk, tag_id }, ImportEvent::TagCreated(ok)) => {
                if ok {
                    self.stats.tags_created = self.stats.tags_created + 1;
                    self.tag_learned(walk, tag_id)
                } else {
                    let mut walk = walk;
                    assert(walk.at < walk.tags.len());
                    walk.at = walk.at + 1;
                    self.at_tag(walk)
                }
            },
            (Phase::Linking { walk }, ImportEvent::TagLinked(ok)) => {
                if ok {
                    self.stats.tags_linked = self.stats.tags_linked + 1;
                }
                let mut walk = walk;
                assert(walk.at < walk.tags.len());
                walk.at = walk.at + 1;
                self.at_tag(walk)
            },
            _ => {
                assert(false);
                (None, ImportAction::OpenTables)
            },
        }
    }

    /// Takes in an event; what is made next gets a fresh id, and a tag the present time.
    pub fn step(&mut self, event: ImportEvent) -> (r: (Option<ImportProgress>, ImportAction))
        requires
            run_ok(old(self)@),
            awaits(old(self)@.phase, event),
            has_room(old(self)@.stats),
        ensures
            run_ok(final(self)@),
            exists|id: Seq<char>, now: Seq<char>|
                is_id(id) && is_outcome(
                    final(self)@,
                    r.0,
                    r.1,
                    #[trigger] outcome(old(self)@, event, id, now),
                ),
    {
        let id = new_id();
        let now = now_rfc3339();
        self.step_as(event, id, now)
    }
}

/// What a vault that cannot be found is answered; `path` is the path as it is shown.
pub fn vault_not_found(path: &str) -> (e: AtomicCoreError)
    ensures
        e@ == ErrorView::Validation("Vault not found at "@ + path@),
{
    AtomicCoreError::Validation(glue("Vault not found at ", path))
}

/// What an import is answered when the storage has no tables of tags to write to.
pub fn import_unsupported() -> (e: AtomicCoreError)
    ensures
        e@ == ErrorView::Configuration(
            "Obsidian import is not yet supported with Postgres backend"@,
        ),
{
    AtomicCoreError::Configuration(
        "Obsidian import is not yet supported with Postgres backend".to_owned(),
    )
}

/// A note asks for the tags of its folders, then for those of its front matter, each in order; the
/// tag of a folder knows how many folders stand above it.
pub proof fn law_notes_ask_for_all_their_tags(note: NoteView)
    ensures
        wanted(note).len() == note.folder_tags.len() + note.frontmatter_tags.len(),
        forall|i: int|
            0 <= i < note.folder_tags.len() ==> #[trigger] wanted(note)[i] == (
                note.folder_tags[i].0,
                Some(note.folder_tags[i].1),
            ),
        forall|i: int|
            0 <= i < note.frontmatter_tags.len() ==> #[trigger] wanted(
                note,
            )[note.folder_tags.len() + i] == (note.frontmatter_tags[i], None::<nat>),
{
}

/// Folder tags nest as the folders do. Where `ids` are the ids of the folder tags that come before
/// the tag at hand in the walk, one for each, a tag that must be looked for is looked for under
/// the id of the folder directly above it, which is the one with as many folders up to it as the
/// tag has above it; the tag of a folder at the top, and one that is no folder's, has no parent.
pub proof fn law_folder_tags_nest(run: RunView, w: WalkView, ids: Seq<Seq<char>>, above: nat)
    requires
        0 <= w.at < w.tags.len(),
        w.folder_ids == ids,
    ensures
        at_tag(run, w).action matches ActionView::FindTag { name, parent_id } ==> {
            &&& name == w.tags[w.at].0
            &&& w.tags[w.at].1 is None ==> parent_id is None
            &&& w.tags[w.at].1 == Some(0nat) ==> parent_id is None
            &&& w.tags[w.at].1 == Some(above) && 0 < above <= ids.len() ==> parent_id == Some(
                ids[above - 1],
            )
        },
        w.tags[w.at].1 == Some(above) && 0 < above <= ids.len() ==> tag_parent(w) == Some(
            ids[above - 1],
        ),
        w.tags[w.at].1 == Some(above) && above > ids.len() ==> tag_parent(w) is None,
        tag_parent(w) matches Some(p) ==> ids.contains(p) && w.tags[w.at].1 is Some,
{
    if tag_parent(w) is Some {
        let above = w.tags[w.at].1->0;
        assert(ids[above - 1] == tag_parent(w)->0);
    }
}

/// A tag is made under the parent under which it was looked for, with the name that the note gives
/// it, under the id and at the time that are given.
pub proof fn law_tags_are_made_where_they_were_looked_for(
    run: RunView,
    w: WalkView,
    id: Seq<char>,
    now: Seq<char>,
)
    requires
        run.phase == (PhaseView::Finding { walk: w }),
        0 <= w.at < w.tags.len(),
        cached(run.cache, lowercase(w.tags[w.at].0), tag_parent(w)) is None,
    ensures
        ({
            let asked = at_tag(run, w).action;
            let o = outcome(run, ImportEvent::TagFound(None), id, now);
            &&& asked matches ActionView::FindTag { name, parent_id } && o.action
                == (ActionView::CreateTag { id, name, parent_id, created_at: now })
            &&& o.run.phase == (PhaseView::Creating { walk: w, tag_id: id })
            &&& o.run.cache == run.cache
            &&& o.run.stats == run.stats
            &&& o.progress is None
        }),
{
}

/// A tag that is found or made is linked to the atom of the note under its id, and the ids of the
/// folder tags go on in order: the next tag of the walk finds one more if this was a folder's.
pub proof fn law_found_tags_are_linked(
    run: RunView,
    w: WalkView,
    found: String,
    made: Seq<char>,
    id: Seq<char>,
    now: Seq<char>,
)
    requires
        0 <= w.at < w.tags.len(),
    ensures
        ({
            let o = outcome(
                RunView { phase: PhaseView::Finding { walk: w }, ..run },
                ImportEvent::TagFound(Some(found)),
                id,
                now,
            );
            &&& o.action == (ActionView::LinkTag {
                atom_id: w.atom_id,
                tag_id: found@,
                source: "manual"@,
            })
            &&& o.run.stats == run.stats
            &&& o.run.phase matches PhaseView::Linking { walk } && walk.tags == w.tags && walk.at
                == w.at && walk.atom_id == w.atom_id && walk.folder_ids == if w.tags[w.at].1 is Some {
                w.folder_ids.push(found@)
            } else {
                w.folder_ids
            }
        }),
        ({
            let o = outcome(
                RunView { phase: PhaseView::Creating { walk: w, tag_id: made }, ..run },
                ImportEvent::TagCreated(true),
                id,
                now,
            );
            &&& o.action == (ActionView::LinkTag {
                atom_id: w.atom_id,
                tag_id: made,
                source: "manual"@,
            })
            &&& o.run.stats.tags_linked == run.stats.tags_linked
            &&& run.stats.tags_created < i32::MAX ==> o.run.stats.tags_created
                == run.stats.tags_created + 1
            &&& o.run.phase matches PhaseView::Linking { walk } && walk.tags == w.tags && walk.at
                == w.at && walk.atom_id == w.atom_id && walk.folder_ids == if w.tags[w.at].1 is Some {
                w.folder_ids.push(made)
            } else {
                w.folder_ids
            }
        }),
{
}

/// What is learned of a tag is its name in lower case, its parent and its id; it is linked at once
/// where it is wanted again, whatever the case of the name.
pub proof fn law_known_tags_are_not_looked_for(run: RunView, w: WalkView, found: String)
    requires
        0 <= w.at < w.tags.len(),
    ensures
        cached(run.cache, lowercase(w.tags[w.at].0), tag_parent(w)) matches Some(known) ==> at_tag(
            run,
            w,
        ).action == (ActionView::LinkTag { atom_id: w.atom_id, tag_id: known, source: "manual"@ }),
        outcome(
            RunView { phase: PhaseView::Finding { walk: w }, ..run },
            ImportEvent::TagFound(Some(found)),
            Seq::empty(),
            Seq::empty(),
        ).run.cache == run.cache.push((lowercase(w.tags[w.at].0), tag_parent(w), found@)),
{
}

/// What is known of a tag is one of the entries for its name and parent, and the first of them;
/// nothing is known if there is none.
pub proof fn law_known_tags_have_the_name(
    cache: TagCacheView,
    name: Seq<char>,
    parent: Option<Seq<char>>,
)
    ensures
        cached(cache, name, parent) matches Some(id) ==> exists|i: int|
            0 <= i < cache.len() && #[trigger] cache[i] == (name, parent, id) && forall|j: int|
                0 <= j < i ==> (#[trigger] cache[j]).0 != name || cache[j].1 != parent,
        cached(cache, name, parent) is None <==> forall|i: int|
            0 <= i < cache.len() ==> (#[trigger] cache[i]).0 != name || cache[i].1 != parent,
    decreases cache.len(),
{
    if cache.len() > 0 && !(cache[0].0 == name && cache[0].1 == parent) {
        let rest = cache.drop_first();
        law_known_tags_have_the_name(rest, name, parent);
        if cached(cache, name, parent) is Some {
            let id = cached(cache, name, parent)->0;
            let i = choose|i: int|
                0 <= i < rest.len() && #[trigger] rest[i] == (name, parent, id) && forall|j: int|
                    0 <= j < i ==> (#[trigger] rest[j]).0 != name || rest[j].1 != parent;
            assert(cache[i + 1] == rest[i]);
            assert forall|j: int| 0 <= j < i + 1 implies (#[trigger] cache[j]).0 != name
                || cache[j].1 != parent by {
                if j > 0 {
                    assert(cache[j] == rest[j - 1]);
                }
            }
        } else {
            assert forall|i: int| 0 <= i < cache.len() implies (#[trigger] cache[i]).0 != name
                || cache[i].1 != parent by {
                if i > 0 {
                    assert(cache[i] == rest[i - 1]);
                }
            }
        }
        if forall|i: int|
            0 <= i < cache.len() ==> (#[trigger] cache[i]).0 != name || cache[i].1 != parent {
            assert forall|i: int| 0 <= i < rest.len() implies (#[trigger] rest[i]).0 != name
                || rest[i].1 != parent by {
                assert(rest[i] == cache[i + 1]);
            }
        }
    }
}

/// After a tag is linked, or could not be made, the next tag of the note comes, with the ids of the
/// folder tags as they are; a link counts if it was made. After the last tag the note is imported.
pub proof fn law_tags_come_one_after_the_other(run: RunView, w: WalkView, ok: bool, tag_id: Seq<char>)
    requires
        0 <= w.at < w.tags.len(),
        run.stats.tags_linked < i32::MAX,
        run.stats.imported < i32::MAX,
    ensures
        ({
            let next = WalkView { at: w.at + 1, ..w };
            let linked = outcome(
                RunView { phase: PhaseView::Linking { walk: w }, ..run },
                ImportEvent::TagLinked(ok),
                Seq::empty(),
                Seq::empty(),
            );
            let refused = outcome(
                RunView { phase: PhaseView::Creating { walk: w, tag_id }, ..run },
                ImportEvent::TagCreated(false),
                Seq::empty(),
                Seq::empty(),
            );
            &&& linked.run.stats.tags_linked == run.stats.tags_linked + (if ok {
                1int
            } else {
                0
            })
            &&& refused.run.stats.tags_linked == run.stats.tags_linked
            &&& linked.run.stats.tags_created == run.stats.tags_created
            &&& refused.run.stats.tags_created == run.stats.tags_created
            &&& next.at < next.tags.len() ==> linked.action == at_tag(run, next).action
                && refused.action == at_tag(run, next).action && linked.progress is None
                && refused.progress is None && linked.run.stats.imported == run.stats.imported
            &&& next.at == next.tags.len() ==> {
                &&& linked.run.stats.imported == run.stats.imported + 1
                &&& refused.run.stats.imported == run.stats.imported + 1
                &&& linked.run.stats.skipped == run.stats.skipped
                &&& linked.run.stats.errors == run.stats.errors
                &&& linked.progress matches Some(p) && p.status == "importing"@
                &&& refused.progress matches Some(p) && p.status == "importing"@
            }
        }),
{
}

/// A note that cannot be read is an error; one with fewer than ten bytes, white space around it
/// aside, is skipped; any other goes on with the question whether its source exists.
pub proof fn law_short_notes_are_skipped(run: RunView, note: ParsedNote)
    requires
        run.phase is Parsing,
        run.stats.skipped < i32::MAX,
        run.stats.errors < i32::MAX,
    ensures
        ({
            let o = outcome(run, ImportEvent::Parsed(Ok(note)), Seq::empty(), Seq::empty());
            &&& byte_len(trimmed(note.content@)) < 10 ==> o.run.stats == (ImportResult {
                skipped: (run.stats.skipped + 1) as i32,
                ..run.stats
            }) && (o.progress matches Some(p) && p.status == "skipped"@)
            &&& byte_len(trimmed(note.content@)) >= 10 ==> o.run.stats == run.stats
                && o.progress is None && o.action == ActionView::CheckSource(note.source_url@)
                && o.run.phase == (PhaseView::Checking { note: note@ })
            &&& o.run.imported == run.imported
            &&& o.run.cache == run.cache
        }),
        ({
            let o = outcome(run, ImportEvent::Parsed(Err(())), Seq::empty(), Seq::empty());
            &&& o.run.stats == (ImportResult {
                errors: (run.stats.errors + 1) as i32,
                ..run.stats
            })
            &&& o.progress matches Some(p) && p.status == "error"@
            &&& o.run.imported == run.imported
        }),
{
}

/// A note whose source exists is skipped; else its atom is inserted, with the note's content, its
/// source and its time; an atom that could not be inserted is an error, one that was is imported.
/// Where the storage cannot answer, the import fails with what it said.
pub proof fn law_new_notes_are_inserted(
    run: RunView,
    note: NoteView,
    atom_id: Seq<char>,
    id: Seq<char>,
    now: Seq<char>,
    e: AtomicCoreError,
)
    requires
        run.stats.skipped < i32::MAX,
        run.stats.errors < i32::MAX,
    ensures
        ({
            let asked = RunView { phase: PhaseView::Checking { note }, ..run };
            let known = outcome(asked, ImportEvent::SourceChecked(Ok(true)), id, now);
            let new = outcome(asked, ImportEvent::SourceChecked(Ok(false)), id, now);
            let down = outcome(asked, ImportEvent::SourceChecked(Err(e)), id, now);
            &&& known.run.stats == (ImportResult {
                skipped: (run.stats.skipped + 1) as i32,
                ..run.stats
            })
            &&& known.progress matches Some(p) && p.status == "skipped"@
            &&& known.run.imported == run.imported
            &&& new.action == (ActionView::Insert {
                atom_id: id,
                content: note.content,
                source_url: note.source_url,
                created_at: note.created_at,
            })
            &&& new.run.phase == (PhaseView::Inserting { note, atom_id: id })
            &&& new.run.stats == run.stats && new.run.imported == run.imported
            &&& down.action == ActionView::Fail(e@) && down.run.phase is Over
        }),
        ({
            let sent = RunView { phase: PhaseView::Inserting { note, atom_id }, ..run };
            let done = outcome(sent, ImportEvent::Inserted(true), id, now);
            let failed = outcome(sent, ImportEvent::Inserted(false), id, now);
            &&& done.run.imported == run.imported.push(atom_id)
            &&& done.run.stats == run.stats
            &&& done.action == ActionView::OpenTables
            &&& done.run.phase == (PhaseView::Opening { note, atom_id })
            &&& failed.run.imported == run.imported
            &&& failed.run.stats == (ImportResult {
                errors: (run.stats.errors + 1) as i32,
                ..run.stats
            })
            &&& failed.progress matches Some(p) && p.status == "error"@
        }),
        ({
            let opened = RunView { phase: PhaseView::Opening { note, atom_id }, ..run };
            let ok = outcome(opened, ImportEvent::TablesOpened(Ok(())), id, now);
            let down = outcome(opened, ImportEvent::TablesOpened(Err(e)), id, now);
            &&& down.action == ActionView::Fail(e@) && down.run.phase is Over
            &&& ok == at_tag(
                opened,
                WalkView { tags: wanted(note), atom_id, folder_ids: Seq::empty(), at: 0 },
            )
        }),
{
}

/// A file that is done with is reported once, under its name and its place among all files, and
/// the next file is read; after the last one the import ends with the counts as they are and one
/// job for each atom that was imported.
pub proof fn law_done_files_are_reported(run: RunView, stats: ImportResult, status: Seq<char>)
    requires
        0 <= run.index < run.files.len(),
    ensures
        ({
            let o = file_done(run, stats, status);
            &&& o.progress == Some(
                ProgressView {
                    current: run.index + 1,
                    total: run.files.len() as int,
                    current_file: run.files[run.index],
                    status,
                },
            )
            &&& o.run.index == run.index + 1 && o.run.files == run.files && o.run.stats == stats
                && o.run.cache == run.cache && o.run.imported == run.imported
            &&& run.index + 1 < run.files.len() ==> o.action == ActionView::Parse(run.index + 1)
                && o.run.phase is Parsing
            &&& run.index + 1 == run.files.len() ==> o.run.phase is Over && (o.action matches
                ActionView::Finish { stats: s, jobs } && s == stats && jobs.len()
                == run.imported.len() && forall|i: int|
                0 <= i < jobs.len() ==> (#[trigger] jobs[i]).atom_id == run.imported[i]
                    && jobs[i].embed_requested && jobs[i].tag_requested && jobs[i].reason
                    == "import_markdown"@ && !jobs[i].replace_existing)
        }),
{
}

/// As many files are imported as the limit says, the first ones; without a limit, or with one that
/// is negative or not reached, all of them.
pub proof fn law_limit_takes_the_first_files(files: Seq<Seq<char>>, max: i32)
    ensures
        within_limit(files, None) == files,
        max < 0 ==> within_limit(files, Some(max)) == files,
        within_limit(files, Some(max)).is_prefix_of(files),
        0 <= max <= files.len() ==> within_limit(files, Some(max)).len() == max,
        max > files.len() ==> within_limit(files, Some(max)) == files,
{
}

/// An action says one thing: two descriptions of it are the same.
pub proof fn law_import_action_says_one_thing(a: ImportAction, v: ActionView, w: ActionView)
    requires
        a.says(v),
        a.says(w),
    ensures
        v == w,
{
}

/// A note is inserted with its content and its source, without tags or a time of publication, and
/// whether or not its source exists.
pub proof fn law_notes_are_inserted_plainly(a: ImportAction, v: ActionView)
    requires
        a.says(v),
        v is Insert,
    ensures
        a matches ImportAction::Insert { atom_id, request, created_at } && atom_id@
            == v->Insert_atom_id && created_at@ == v->Insert_created_at && request.content@
            == v->Insert_content && request.source_url is Some && request.source_url->0@
            == v->Insert_source_url && request.tag_ids@.len() == 0 && request.published_at is None
            && !request.skip_if_source_exists,
{
}

} // verus!
