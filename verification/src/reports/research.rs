//! The research for a report: which tool is called with what, what it answers, and when the
//! research is over.

use super::citations::{
    citation_views, citations, extract_citations, law_citations_match_markers, markers,
    match_markers, numbers_distinct, RunOutput,
};
use super::evidence::{
    cited_view, evidence_ok, law_search_stays_in_context, search_reply, show_hits, shown_hits,
    source_evidence, AgentState, Evidence, Message, MessageRole, SearchHit, ToolCall,
};
use super::prompt::{
    build_user_prompt, shown_title, title_for, user_prompt, FINAL_PROMPT, SYSTEM_PROMPT,
};
use super::report::{iteration_limit, max_iterations, CitationPolicy, ContextFilter, Report};
use super::tools::{law_tools_take_what_they_require, report_tools, ToolDefinition};
use crate::atoms::AtomWithTags;
use crate::error::{AtomicCoreError, ErrorView};
use crate::text::{
    decimal, decimal_of, glue, join, joined, lines, lines_of, opt_view, text_eq, views,
};
use vstd::prelude::*;

verus! {

/// How many lines of an atom are read unless a number is asked for, and at most.
pub const MAX_READ_LIMIT: i64 = 500;

/// How many search results are shown unless a number is asked for.
pub const DEFAULT_SEARCH_LIMIT: i64 = 5;

/// How many search results are shown at most.
pub const MAX_SEARCH_LIMIT: i64 = 10;

/// The member of a JSON object under a key, if the text is an object and the member is text.
pub uninterp spec fn json_text(object: Seq<char>, key: Seq<char>) -> Option<Seq<char>>;

/// The member of a JSON object under a key, if the text is an object and the member is an integer
/// of 64 bits.
pub uninterp spec fn json_integer(object: Seq<char>, key: Seq<char>) -> Option<i64>;

/// A member of a JSON object that is text: what `serde_json::from_str`, `get` and `as_str` give,
/// one after the other, which is a function of the text and the key.
#[verifier::external_body]
fn text_member(object: &str, key: &str) -> (r: Option<String>)
    ensures
        opt_view(r) == json_text(object@, key@),
{
    let value: serde_json::Value = serde_json::from_str(object).ok()?;
    value.get(key)?.as_str().map(|s| s.to_string())
}

/// A member of a JSON object that is an integer: what `serde_json::from_str`, `get` and `as_i64`
/// give, one after the other, which is a function of the text and the key.
#[verifier::external_body]
fn integer_member(object: &str, key: &str) -> (r: Option<i64>)
    ensures
        r == json_integer(object@, key@),
{
    let value: serde_json::Value = serde_json::from_str(object).ok()?;
    value.get(key)?.as_i64()
}

/// What a tool is called with.
#[derive(Debug)]
pub struct ToolArgs {
    pub atom_id: Option<String>,
    pub query: Option<String>,
    pub limit: Option<i64>,
    pub offset: Option<i64>,
}

/// What a tool is called with, as a value.
pub struct ArgsView {
    pub atom_id: Option<Seq<char>>,
    pub query: Option<Seq<char>>,
    pub limit: Option<i64>,
    pub offset: Option<i64>,
}

impl View for ToolArgs {
    type V = ArgsView;

    open spec fn view(&self) -> ArgsView {
        ArgsView {
            atom_id: opt_view(self.atom_id),
            query: opt_view(self.query),
            limit: self.limit,
            offset: self.offset,
        }
    }
}

/// What the arguments of a call say; without arguments, nothing.
pub open spec fn decoded(arguments: Option<Seq<char>>) -> ArgsView {
    match arguments {
        Some(a) => ArgsView {
            atom_id: json_text(a, "atom_id"@),
            query: json_text(a, "query"@),
            limit: json_integer(a, "limit"@),
            offset: json_integer(a, "offset"@),
        },
        None => ArgsView { atom_id: None, query: None, limit: None, offset: None },
    }
}

fn decode_args(arguments: &Option<String>) -> (r: ToolArgs)
    ensures
        r@ == decoded(opt_view(*arguments)),
{
    match arguments {
        Some(a) => ToolArgs {
            atom_id: text_member(a.as_str(), "atom_id"),
            query: text_member(a.as_str(), "query"),
            limit: integer_member(a.as_str(), "limit"),
            offset: integer_member(a.as_str(), "offset"),
        },
        None => ToolArgs { atom_id: None, query: None, limit: None, offset: None },
    }
}

/// A number within bounds.
pub open spec fn clamped(n: int, low: int, high: int) -> int {
    if n < low {
        low
    } else if n > high {
        high
    } else {
        n
    }
}

/// What comes of a call.
#[derive(Debug)]
pub enum CallPlan {
    /// An answer at once.
    Reply(String),
    /// The end of the research.
    Done,
    /// An atom is read, so many lines from a line on.
    Read { atom_id: String, limit: usize, offset: u64 },
    /// A search is made: for what, how many results are shown, and how many are asked for.
    Search { query: String, requested: usize, fetch: i32 },
}

/// What comes of a call, as a value.
pub enum PlanView {
    Reply(Seq<char>),
    Done,
    Read { atom_id: Seq<char>, limit: int, offset: int },
    Search { query: Seq<char>, requested: int, fetch: int },
}

impl View for CallPlan {
    type V = PlanView;

    open spec fn view(&self) -> PlanView {
        match self {
            CallPlan::Reply(s) => PlanView::Reply(s@),
            CallPlan::Done => PlanView::Done,
            CallPlan::Read { atom_id, limit, offset } => PlanView::Read {
                atom_id: atom_id@,
                limit: *limit as int,
                offset: *offset as int,
            },
            CallPlan::Search { query, requested, fetch } => PlanView::Search {
                query: query@,
                requested: *requested as int,
                fetch: *fetch as int,
            },
        }
    }
}

/// How many lines are read: as many as asked for, within bounds.
pub open spec fn read_limit(limit: Option<i64>) -> int {
    match limit {
        Some(n) => clamped(n as int, 1, 500),
        None => 500,
    }
}

/// The line from which an atom is read.
pub open spec fn read_offset(offset: Option<i64>) -> int {
    match offset {
        Some(n) => if n < 0 {
            0
        } else {
            n as int
        },
        None => 0,
    }
}

/// How many search results are shown: as many as asked for, within bounds.
pub open spec fn search_limit(limit: Option<i64>) -> int {
    match limit {
        Some(n) => clamped(n as int, 1, 10),
        None => 5,
    }
}

/// How many search results are asked for: more than are shown, since some will not belong to the
/// context.
pub open spec fn fetch_limit(requested: int) -> int {
    if 3 * requested > 10 {
        10
    } else {
        3 * requested
    }
}

/// What comes of a call of the tool with the name.
pub open spec fn call_plan(name: Seq<char>, args: ArgsView) -> PlanView {
    if name == "read_atom"@ {
        match args.atom_id {
            Some(id) => PlanView::Read {
                atom_id: id,
                limit: read_limit(args.limit),
                offset: read_offset(args.offset),
            },
            None => PlanView::Reply("Error: atom_id is required"@),
        }
    } else if name == "semantic_search"@ {
        match args.query {
            Some(q) => if q.len() > 0 {
                PlanView::Search {
                    query: q,
                    requested: search_limit(args.limit),
                    fetch: fetch_limit(search_limit(args.limit)),
                }
            } else {
                PlanView::Reply("Error: query is required"@)
            },
            None => PlanView::Reply("Error: query is required"@),
        }
    } else if name == "done"@ {
        PlanView::Done
    } else {
        PlanView::Reply("Unknown tool: "@ + name)
    }
}

/// What comes of a call.
pub fn plan_call(name: &str, args: ToolArgs) -> (r: CallPlan)
    ensures
        r@ == call_plan(name@, args@),
{
    if text_eq(name, "read_atom") {
        let limit: usize = match args.limit {
            Some(n) => if n < 1 {
                1
            } else if n > MAX_READ_LIMIT {
                500
            } else {
                n as usize
            },
            None => 500,
        };
        let offset: u64 = match args.offset {
            Some(n) => if n < 0 {
                0
            } else {
                n as u64
            },
            None => 0,
        };
        match args.atom_id {
            Some(atom_id) => CallPlan::Read { atom_id, limit, offset },
            None => CallPlan::Reply("Error: atom_id is required".to_owned()),
        }
    } else if text_eq(name, "semantic_search") {
        let requested: usize = match args.limit {
            Some(n) => if n < 1 {
                1
            } else if n > MAX_SEARCH_LIMIT {
                10
            } else {
                n as usize
            },
            None => DEFAULT_SEARCH_LIMIT as usize,
        };
        let fetch: i32 = if 3 * requested > 10 {
            10
        } else {
            3 * requested as i32
        };
        match args.query {
            Some(query) => if query.as_str().is_empty() {
                CallPlan::Reply("Error: query is required".to_owned())
            } else {
                CallPlan::Search { query, requested, fetch }
            },
            None => CallPlan::Reply("Error: query is required".to_owned()),
        }
    } else if text_eq(name, "done") {
        CallPlan::Done
    } else {
        CallPlan::Reply(glue("Unknown tool: ", name))
    }
}

/// The smaller of two numbers.
pub open spec fn smaller(a: int, b: int) -> int {
    if a < b {
        a
    } else {
        b
    }
}

/// The line with which a window begins.
pub open spec fn window_start(total: int, offset: int) -> int {
    smaller(offset, total)
}

/// The line before which a window ends.
pub open spec fn window_end(total: int, limit: int, offset: int) -> int {
    smaller(window_start(total, offset) + limit, total)
}

/// The lines of a window.
pub open spec fn window_lines(all: Seq<Seq<char>>, limit: int, offset: int) -> Seq<Seq<char>> {
    let total = all.len() as int;
    all.subrange(window_start(total, offset), window_end(total, limit, offset))
}

/// The line from which to go on reading, if there are more.
pub open spec fn offered_offset(total: int, limit: int, offset: int) -> Option<int> {
    if window_end(total, limit, offset) < total {
        Some(window_end(total, limit, offset))
    } else {
        None
    }
}

/// A window of an atom's lines, with a heading that says which they are, and where to go on if
/// there are more.
pub open spec fn atom_window(title: Seq<char>, content: Seq<char>, limit: int, offset: int) -> Seq<
    char,
> {
    let all = lines_of(content);
    let total = all.len() as int;
    "# "@ + shown_title(title) + "\n(lines "@ + decimal(
        (window_start(total, offset) + 1) as nat,
    ) + "-"@ + decimal(window_end(total, limit, offset) as nat) + " of "@ + decimal(total as nat)
        + ")\n\n"@ + joined(window_lines(all, limit, offset), "\n"@) + (match offered_offset(
        total,
        limit,
        offset,
    ) {
        Some(next) => "\n\n(More content available. Call read_atom again with offset="@ + decimal(
            next as nat,
        ) + " to continue.)"@,
        None => Seq::empty(),
    })
}

/// The lines that are read from an offset on by following the offsets that are offered; `asked`
/// is the limit that is asked for at an offset.
pub open spec fn read_on(all: Seq<Seq<char>>, asked: spec_fn(int) -> Option<i64>, offset: int) -> Seq<
    Seq<char>,
>
    decreases all.len() - offset,
{
    let limit = read_limit(asked(offset));
    let window = window_lines(all, limit, offset);
    match offered_offset(all.len() as int, limit, offset) {
        Some(next) => if next > offset {
            window + read_on(all, asked, next)
        } else {
            window
        },
        None => window,
    }
}

proof fn lemma_read_on(all: Seq<Seq<char>>, asked: spec_fn(int) -> Option<i64>, offset: int)
    requires
        0 <= offset <= all.len(),
    ensures
        read_on(all, asked, offset) == all.skip(offset),
    decreases all.len() - offset,
{
    let limit = read_limit(asked(offset));
    let window = window_lines(all, limit, offset);
    match offered_offset(all.len() as int, limit, offset) {
        Some(next) => {
            lemma_read_on(all, asked, next);
            assert(window + all.skip(next) =~= all.skip(offset));
        },
        None => {
            assert(window =~= all.skip(offset));
        },
    }
}

/// Whoever reads an atom from its first line and follows the offsets that are offered, whatever
/// limits are asked for on the way, reads every line once, in order. An offset that is offered is
/// taken as it is.
pub proof fn law_pages_give_every_line_once(content: Seq<char>, asked: spec_fn(int) -> Option<i64>)
    ensures
        read_on(lines_of(content), asked, read_offset(None)) == lines_of(content),
        forall|offset: i64| offset >= 0 ==> #[trigger] read_offset(Some(offset)) == offset,
{
    lemma_read_on(lines_of(content), asked, 0);
    assert(lines_of(content).skip(0) =~= lines_of(content));
}

/// The answer of the tool that reads an atom, given what was found.
pub open spec fn read_reply(
    atom_id: Seq<char>,
    limit: int,
    offset: int,
    found: Result<Option<AtomWithTags>, String>,
) -> Seq<char> {
    match found {
        Ok(Some(atom)) => atom_window(atom.atom.title@, atom.atom.content@, limit, offset),
        Ok(None) => "Error: no atom found with id "@ + atom_id,
        Err(e) => "Error fetching atom "@ + atom_id + ": "@ + e@,
    }
}

fn window_of(atom: &AtomWithTags, limit: usize, offset: u64) -> (r: String)
    ensures
        r@ == atom_window(atom.atom.title@, atom.atom.content@, limit as int, offset as int),
{
    let all = lines(atom.atom.content.as_str());
    let total: usize = all.len();
    assert(views(all@).len() == total);
    let start: usize = if offset < total as u64 {
        offset as usize
    } else {
        total
    };
    let end: usize = if limit < total - start {
        start + limit
    } else {
        total
    };
    let mut out = "# ".to_owned();
    out.append(title_for(atom.atom.title.as_str()).as_str());
    out.append("\n(lines ");
    out.append(decimal_of(start as u128 + 1).as_str());
    out.append("-");
    out.append(decimal_of(end as u128).as_str());
    out.append(" of ");
    out.append(decimal_of(total as u128).as_str());
    out.append(")\n\n");
    out.append(join(&all, start, end, "\n").as_str());
    let ghost body = out@;
    if end < total {
        let mut more = "\n\n(More content available. Call read_atom again with offset=".to_owned();
        more.append(decimal_of(end as u128).as_str());
        more.append(" to continue.)");
        out.append(more.as_str());
    } else {
        assert(body + Seq::<char>::empty() =~= body);
    }
    out
}

/// The answer of the tool that reads an atom, given what was found.
pub fn reply_to_read(
    atom_id: &str,
    limit: usize,
    offset: u64,
    found: &Result<Option<AtomWithTags>, String>,
) -> (r: String)
    ensures
        r@ == read_reply(atom_id@, limit as int, offset as int, *found),
{
    match found {
        Ok(Some(atom)) => window_of(atom, limit, offset),
        Ok(None) => glue("Error: no atom found with id ", atom_id),
        Err(e) => {
            let mut out = glue("Error fetching atom ", atom_id);
            out.append(": ");
            out.append(e.as_str());
            out
        },
    }
}

/// What is said of a message.
pub struct MessageView {
    pub role: MessageRole,
    pub content: Option<Seq<char>>,
    pub calls: Option<Seq<CallView>>,
    pub tool_call_id: Option<Seq<char>>,
}

/// What is said of a call.
pub struct CallView {
    pub id: Seq<char>,
    pub name: Option<Seq<char>>,
    pub arguments: Option<Seq<char>>,
}

impl View for ToolCall {
    type V = CallView;

    open spec fn view(&self) -> CallView {
        CallView {
            id: self.id@,
            name: opt_view(self.name),
            arguments: opt_view(self.arguments),
        }
    }
}

/// What is said of calls.
pub open spec fn call_views(calls: Seq<ToolCall>) -> Seq<CallView> {
    calls.map_values(|c: ToolCall| c@)
}

impl View for Message {
    type V = MessageView;

    open spec fn view(&self) -> MessageView {
        MessageView {
            role: self.role,
            content: opt_view(self.content),
            calls: match self.tool_calls {
                Some(calls) => Some(call_views(calls@)),
                None => None,
            },
            tool_call_id: opt_view(self.tool_call_id),
        }
    }
}

/// What is said of messages.
pub open spec fn message_views(messages: Seq<Message>) -> Seq<MessageView> {
    messages.map_values(|m: Message| m@)
}

/// A message without calls.
pub open spec fn plain_message(role: MessageRole, content: Seq<char>) -> MessageView {
    MessageView { role, content: Some(content), calls: None, tool_call_id: None }
}

/// The answer of a tool.
pub open spec fn tool_result(id: Seq<char>, content: Seq<char>) -> MessageView {
    MessageView {
        role: MessageRole::Tool,
        content: Some(content),
        calls: None,
        tool_call_id: Some(id),
    }
}

/// The writer's own message, with its calls; an empty text is none.
pub open spec fn assistant_message(content: Seq<char>, calls: Seq<CallView>) -> MessageView {
    MessageView {
        role: MessageRole::Assistant,
        content: if content.len() == 0 {
            None
        } else {
            Some(content)
        },
        calls: Some(calls),
        tool_call_id: None,
    }
}

fn copy_call(c: &ToolCall) -> (r: ToolCall)
    ensures
        r == *c,
{
    ToolCall {
        id: c.id.clone(),
        name: crate::tags::copy_opt(&c.name),
        arguments: crate::tags::copy_opt(&c.arguments),
    }
}

fn copy_calls(calls: &Vec<ToolCall>) -> (r: Vec<ToolCall>)
    ensures
        r@ == calls@,
{
    let mut r: Vec<ToolCall> = Vec::new();
    let mut i: usize = 0;
    while i < calls.len()
        invariant
            i <= calls@.len(),
            r@ == calls@.take(i as int),
        decreases calls@.len() - i,
    {
        r.push(copy_call(&calls[i]));
        assert(calls@.take(i + 1) =~= calls@.take(i as int).push(calls@[i as int]));
        i = i + 1;
    }
    assert(calls@.take(i as int) =~= calls@);
    r
}

/// What the research awaits.
enum ResearchPhase {
    Completing,
    Reading { atom_id: String, limit: usize, offset: u64 },
    Searching { requested: usize },
    Over,
}

/// What the research awaits, as a value.
pub enum ResearchPhaseView {
    Completing,
    Reading { atom_id: Seq<char>, limit: int, offset: int },
    Searching { requested: int },
    Over,
}

impl View for ResearchPhase {
    type V = ResearchPhaseView;

    closed spec fn view(&self) -> ResearchPhaseView {
        match self {
            ResearchPhase::Completing => ResearchPhaseView::Completing,
            ResearchPhase::Reading { atom_id, limit, offset } => ResearchPhaseView::Reading {
                atom_id: atom_id@,
                limit: *limit as int,
                offset: *offset as int,
            },
            ResearchPhase::Searching { requested } => ResearchPhaseView::Searching {
                requested: *requested as int,
            },
            ResearchPhase::Over => ResearchPhaseView::Over,
        }
    }
}

/// The research for a report under way.
pub struct ResearchRun {
    state: AgentState,
    context: ContextFilter,
    /// The atoms that carry the tags of the context, if it has any.
    scope: Option<Vec<String>>,
    max_iterations: usize,
    /// The rounds that are over.
    iteration: usize,
    /// The calls of this round, and the one at hand.
    calls: Vec<ToolCall>,
    at: usize,
    /// Whether the end was called in this round.
    done_this_round: bool,
    phase: ResearchPhase,
}

/// Where the research stands.
pub struct ResearchView {
    pub messages: Seq<MessageView>,
    pub done_called: bool,
    pub evidence: Evidence,
    pub iteration: int,
    pub calls: Seq<CallView>,
    pub at: int,
    pub done_this_round: bool,
    pub phase: ResearchPhaseView,
}

/// What does not change in the course of the research.
pub struct ResearchFrame {
    pub policy: CitationPolicy,
    pub context: ContextFilter,
    pub scope: Option<Vec<String>>,
    pub max_iterations: int,
}

/// What the writer of a report answers: a text and the calls that it makes.
#[derive(Debug)]
pub struct Completion {
    pub content: String,
    pub tool_calls: Option<Vec<ToolCall>>,
}

/// What has happened in the research.
pub enum ResearchEvent {
    /// The writer's answer, or why there is none.
    Completed(Result<Completion, String>),
    /// The atom that was looked up, if it exists, or why it cannot be had.
    AtomFound(Result<Option<AtomWithTags>, String>),
    /// What the search found, or why it failed.
    Found(Result<Vec<SearchHit>, String>),
}

/// What the research does next.
#[derive(Debug)]
pub enum ResearchAction {
    /// Ask the writer to go on.
    Complete,
    /// Look up an atom.
    GetAtom(String),
    /// Search, for so many results.
    Search { query: String, limit: i32 },
    /// The research is over.
    Finish,
    /// The research fails.
    Fail(AtomicCoreError),
}

/// What the research does next, as a value.
pub enum ResearchActionView {
    Complete,
    GetAtom(Seq<char>),
    Search { query: Seq<char>, limit: int },
    Finish,
    Fail(ErrorView),
}

impl View for ResearchAction {
    type V = ResearchActionView;

    open spec fn view(&self) -> ResearchActionView {
        match self {
            ResearchAction::Complete => ResearchActionView::Complete,
            ResearchAction::GetAtom(id) => ResearchActionView::GetAtom(id@),
            ResearchAction::Search { query, limit } => ResearchActionView::Search {
                query: query@,
                limit: *limit as int,
            },
            ResearchAction::Finish => ResearchActionView::Finish,
            ResearchAction::Fail(e) => ResearchActionView::Fail(e@),
        }
    }
}

/// The round is over: another one follows unless the end was called or there have been enough.
pub open spec fn round_over(f: ResearchFrame, v: ResearchView) -> (
    ResearchView,
    ResearchActionView,
) {
    if v.done_this_round || v.iteration + 1 >= f.max_iterations {
        (ResearchView { phase: ResearchPhaseView::Over, ..v }, ResearchActionView::Finish)
    } else {
        (
            ResearchView {
                iteration: v.iteration + 1,
                phase: ResearchPhaseView::Completing,
                ..v
            },
            ResearchActionView::Complete,
        )
    }
}

/// The call at hand is answered.
pub open spec fn answered(v: ResearchView, text: Seq<char>) -> ResearchView {
    ResearchView {
        messages: v.messages.push(tool_result(v.calls[v.at].id, text)),
        at: v.at + 1,
        ..v
    }
}

/// The name of the tool that a call calls.
pub open spec fn called_name(c: CallView) -> Seq<char> {
    match c.name {
        Some(n) => n,
        None => Seq::empty(),
    }
}

/// The call at hand comes next: it is answered at once, or waits for what must be fetched; after
/// the last one the round is over.
pub open spec fn at_call(f: ResearchFrame, v: ResearchView) -> (ResearchView, ResearchActionView)
    decreases v.calls.len() - v.at,
{
    if v.at < 0 || v.at >= v.calls.len() {
        round_over(f, v)
    } else {
        let c = v.calls[v.at];
        match call_plan(called_name(c), decoded(c.arguments)) {
            PlanView::Reply(text) => at_call(f, answered(v, text)),
            PlanView::Done => at_call(
                f,
                answered(
                    ResearchView { done_this_round: true, done_called: true, ..v },
                    "Acknowledged. Write the report in your next message."@,
                ),
            ),
            PlanView::Read { atom_id, limit, offset } => (
                ResearchView {
                    phase: ResearchPhaseView::Reading { atom_id, limit, offset },
                    ..v
                },
                ResearchActionView::GetAtom(atom_id),
            ),
            PlanView::Search { query, requested, fetch } => (
                ResearchView { phase: ResearchPhaseView::Searching { requested }, ..v },
                ResearchActionView::Search { query, limit: fetch },
            ),
        }
    }
}

/// Whether the event is one that is awaited.
pub open spec fn research_awaits(phase: ResearchPhaseView, event: ResearchEvent) -> bool {
    match phase {
        ResearchPhaseView::Completing => event is Completed,
        ResearchPhaseView::Reading { .. } => event is AtomFound,
        ResearchPhaseView::Searching { .. } => event is Found,
        ResearchPhaseView::Over => false,
    }
}

/// What an awaited event leads to.
pub open spec fn research_outcome(f: ResearchFrame, v: ResearchView, event: ResearchEvent) -> (
    ResearchView,
    ResearchActionView,
) {
    match (v.phase, event) {
        (ResearchPhaseView::Completing, ResearchEvent::Completed(Err(e))) => (
            ResearchView { phase: ResearchPhaseView::Over, ..v },
            ResearchActionView::Fail(
                ErrorView::DatabaseOperation("report research LLM call failed: "@ + e@),
            ),
        ),
        (ResearchPhaseView::Completing, ResearchEvent::Completed(Ok(c))) => {
            let calls = match c.tool_calls {
                Some(t) => call_views(t@),
                None => Seq::empty(),
            };
            if calls.len() == 0 {
                (ResearchView { phase: ResearchPhaseView::Over, ..v }, ResearchActionView::Finish)
            } else {
                at_call(
                    f,
                    ResearchView {
                        messages: v.messages.push(assistant_message(c.content@, calls)),
                        calls,
                        at: 0,
                        done_this_round: false,
                        ..v
                    },
                )
            }
        },
        (
            ResearchPhaseView::Reading { atom_id, limit, offset },
            ResearchEvent::AtomFound(found),
        ) => at_call(f, answered(v, read_reply(atom_id, limit, offset, found))),
        (ResearchPhaseView::Searching { requested }, ResearchEvent::Found(Ok(hits))) => {
            let o = shown_hits(
                v.evidence,
                f.policy,
                f.context,
                f.scope,
                hits@,
                requested as nat,
                hits@.len(),
            );
            at_call(f, answered(ResearchView { evidence: o.0, ..v }, search_reply(o.1)))
        },
        (ResearchPhaseView::Searching { .. }, ResearchEvent::Found(Err(e))) => at_call(
            f,
            answered(v, "Search error: "@ + e@),
        ),
        _ => arbitrary(),
    }
}

/// Whether the calls of the round that come before the one at hand are the ones that the last
/// messages answer, in order.
pub open spec fn calls_answered(v: ResearchView) -> bool {
    &&& 0 <= v.at <= v.calls.len()
    &&& v.at < v.messages.len()
    &&& forall|k: int|
        #![trigger v.calls[k]]
        0 <= k < v.at ==> {
            let m = v.messages[v.messages.len() - v.at + k];
            m.role == MessageRole::Tool && m.tool_call_id == Some(v.calls[k].id)
        }
}

/// Whether a call calls the end.
pub open spec fn is_end(c: CallView) -> bool {
    called_name(c) == "done"@
}

/// Whether the end is noted if and only if it is among the calls of the round that have been
/// answered.
pub open spec fn noted_so_far(v: ResearchView) -> bool {
    &&& v.done_called == v.done_this_round
    &&& v.done_called <==> exists|k: int| 0 <= k < v.at && is_end(#[trigger] v.calls[k])
}

/// Whether the state of the research is one that it can come to.
pub open spec fn research_ok(f: ResearchFrame, v: ResearchView) -> bool {
    &&& evidence_ok(v.evidence)
    &&& 0 <= v.iteration < f.max_iterations
    &&& !(v.phase is Over) ==> calls_answered(v)
    &&& noted_so_far(v)
    &&& v.phase is Completing ==> !v.done_called
    &&& match v.phase {
        ResearchPhaseView::Completing => v.at == v.calls.len(),
        ResearchPhaseView::Reading { limit, offset, .. } => v.at < v.calls.len() && !is_end(
            v.calls[v.at],
        ) && 1 <= limit <= 500 && offset >= 0,
        ResearchPhaseView::Searching { requested } => v.at < v.calls.len() && !is_end(
            v.calls[v.at],
        ) && 1 <= requested <= 10,
        ResearchPhaseView::Over => true,
    }
}

proof fn lemma_answered(v: ResearchView, text: Seq<char>)
    requires
        calls_answered(v),
        v.at < v.calls.len(),
    ensures
        calls_answered(answered(v, text)),
{
    let w = answered(v, text);
    assert forall|k: int| #![trigger w.calls[k]] 0 <= k < w.at implies {
        let m = w.messages[w.messages.len() - w.at + k];
        m.role == MessageRole::Tool && m.tool_call_id == Some(w.calls[k].id)
    } by {
        if k < v.at {
            assert(v.calls[k] == w.calls[k]);
            assert(w.messages[w.messages.len() - w.at + k] == v.messages[v.messages.len() - v.at
                + k]);
        }
    }
}

/// The end is noted when it is called and answered, and not otherwise.
proof fn lemma_answer_notes_end(v: ResearchView, text: Seq<char>)
    requires
        0 <= v.at < v.calls.len(),
        noted_so_far(v),
    ensures
        is_end(v.calls[v.at]) ==> noted_so_far(
            answered(ResearchView { done_this_round: true, done_called: true, ..v }, text),
        ),
        !is_end(v.calls[v.at]) ==> noted_so_far(answered(v, text)),
{
    let w = answered(v, text);
    if exists|k: int| 0 <= k < v.at && is_end(#[trigger] v.calls[k]) {
        let k = choose|k: int| 0 <= k < v.at && is_end(#[trigger] v.calls[k]);
        assert(is_end(w.calls[k]));
    }
    if is_end(v.calls[v.at]) {
        let u = answered(ResearchView { done_this_round: true, done_called: true, ..v }, text);
        assert(is_end(u.calls[v.at]));
    }
}

/// Which calls come of a name.
proof fn lemma_plan_of_name(name: Seq<char>, args: ArgsView)
    ensures
        call_plan(name, args) is Done <==> name == "done"@,
{
    reveal_strlit("done");
    reveal_strlit("read_atom");
    reveal_strlit("semantic_search");
    assert("done"@.len() == 4 && "read_atom"@.len() == 9 && "semantic_search"@.len() == 15);
}

proof fn lemma_at_call(f: ResearchFrame, v: ResearchView)
    requires
        evidence_ok(v.evidence),
        0 <= v.iteration < f.max_iterations,
        calls_answered(v),
        noted_so_far(v),
    ensures
        research_ok(f, at_call(f, v).0),
        calls_answered(at_call(f, v).0),
        at_call(f, v).0.evidence == v.evidence,
        v.messages.is_prefix_of(at_call(f, v).0.messages),
        at_call(f, v).0.phase is Completing || at_call(f, v).0.phase is Over ==> at_call(
            f,
            v,
        ).0.at == v.calls.len(),
        at_call(f, v).1 is Complete <==> at_call(f, v).0.phase is Completing,
        at_call(f, v).1 is Finish <==> at_call(f, v).0.phase is Over,
        at_call(f, v).1 is Complete ==> at_call(f, v).0.iteration == v.iteration + 1,
        at_call(f, v).0.calls == v.calls,
        v.done_called ==> at_call(f, v).0.done_called,
        at_call(f, v).0.done_called && at_call(f, v).0.at == v.calls.len() ==> at_call(
            f,
            v,
        ).1 is Finish,
    decreases v.calls.len() - v.at,
{
    if v.at < v.calls.len() {
        let c = v.calls[v.at];
        lemma_plan_of_name(called_name(c), decoded(c.arguments));
        match call_plan(called_name(c), decoded(c.arguments)) {
            PlanView::Reply(text) => {
                lemma_answer_notes_end(v, text);
                lemma_answered(v, text);
                lemma_at_call(f, answered(v, text));
                assert(v.messages.is_prefix_of(answered(v, text).messages));
            },
            PlanView::Done => {
                let w = ResearchView { done_this_round: true, done_called: true, ..v };
                let text = "Acknowledged. Write the report in your next message."@;
                lemma_answer_notes_end(v, text);
                assert(calls_answered(w)) by {
                    assert(w.calls == v.calls && w.messages == v.messages);
                }
                lemma_answered(w, text);
                lemma_at_call(f, answered(w, text));
                assert(v.messages.is_prefix_of(answered(w, text).messages));
            },
            PlanView::Read { atom_id, limit, offset } => {
                let w = at_call(f, v).0;
                assert(w.calls == v.calls && w.messages == v.messages && w.at == v.at);
            },
            PlanView::Search { query, requested, fetch } => {
                let w = at_call(f, v).0;
                assert(w.calls == v.calls && w.messages == v.messages && w.at == v.at);
            },
        }
    } else {
        let w = at_call(f, v).0;
        assert(w.calls == v.calls && w.messages == v.messages && w.at == v.at);
    }
}

/// What holds of every step of the research.
proof fn lemma_step(f: ResearchFrame, v: ResearchView, event: ResearchEvent)
    requires
        research_ok(f, v),
        research_awaits(v.phase, event),
    ensures
        ({
            let o = research_outcome(f, v, event);
            &&& research_ok(f, o.0)
            &&& v.messages.is_prefix_of(o.0.messages)
            &&& o.1 is Complete ==> o.0.phase is Completing && o.0.iteration == v.iteration + 1
            &&& o.1 is Finish ==> o.0.phase is Over
            &&& o.1 is Complete || o.1 is Finish ==> calls_answered(o.0) && o.0.at
                == o.0.calls.len()
            &&& f.policy == CitationPolicy::SourceOnly ==> o.0.evidence == v.evidence
            &&& v.done_called ==> o.0.done_called
            &&& o.0.done_called && o.0.at == o.0.calls.len() ==> o.1 is Finish
        }),
{
    match (v.phase, event) {
        (ResearchPhaseView::Completing, ResearchEvent::Completed(Ok(c))) => {
            let calls = match c.tool_calls {
                Some(t) => call_views(t@),
                None => Seq::empty(),
            };
            if calls.len() > 0 {
                let w = ResearchView {
                    messages: v.messages.push(assistant_message(c.content@, calls)),
                    calls,
                    at: 0,
                    done_this_round: false,
                    ..v
                };
                lemma_at_call(f, w);
                assert(v.messages.is_prefix_of(w.messages));
            } else {
                let w = research_outcome(f, v, event).0;
                assert(w.calls == v.calls && w.messages == v.messages && w.at == v.at);
            }
        },
        (
            ResearchPhaseView::Reading { atom_id, limit, offset },
            ResearchEvent::AtomFound(found),
        ) => {
            let text = read_reply(atom_id, limit, offset, found);
            lemma_answer_notes_end(v, text);
            lemma_answered(v, text);
            lemma_at_call(f, answered(v, text));
            assert(v.messages.is_prefix_of(answered(v, text).messages));
        },
        (ResearchPhaseView::Searching { requested }, ResearchEvent::Found(Ok(hits))) => {
            let o = shown_hits(
                v.evidence,
                f.policy,
                f.context,
                f.scope,
                hits@,
                requested as nat,
                hits@.len(),
            );
            law_search_stays_in_context(
                v.evidence,
                f.policy,
                f.context,
                f.scope,
                hits@,
                requested as nat,
                hits@.len(),
            );
            let w = ResearchView { evidence: o.0, ..v };
            assert(calls_answered(w)) by {
                assert(w.calls == v.calls && w.messages == v.messages && w.at == v.at);
            }
            assert(noted_so_far(w)) by {
                assert(w.calls == v.calls && w.at == v.at);
            }
            lemma_answer_notes_end(w, search_reply(o.1));
            lemma_answered(w, search_reply(o.1));
            lemma_at_call(f, answered(w, search_reply(o.1)));
            assert(v.messages.is_prefix_of(answered(w, search_reply(o.1)).messages));
        },
        (ResearchPhaseView::Searching { .. }, ResearchEvent::Found(Err(e))) => {
            let text = "Search error: "@ + e@;
            lemma_answer_notes_end(v, text);
            lemma_answered(v, text);
            lemma_at_call(f, answered(v, text));
            assert(v.messages.is_prefix_of(answered(v, text).messages));
        },
        _ => {
            let w = research_outcome(f, v, event).0;
            assert(w.calls == v.calls && w.messages == v.messages && w.at == v.at);
        },
    }
}

/// Every step of the research keeps its state sound, and the conversation only grows. When the
/// writer is asked to go on, or the research ends of itself, every call that the writer made has
/// been answered, in order; and the writer is asked to go on no more often than there are rounds.
pub proof fn law_every_call_is_answered(f: ResearchFrame, v: ResearchView, event: ResearchEvent)
    requires
        research_ok(f, v),
        research_awaits(v.phase, event),
    ensures
        ({
            let o = research_outcome(f, v, event);
            &&& research_ok(f, o.0)
            &&& v.messages.is_prefix_of(o.0.messages)
            &&& o.1 is Complete ==> o.0.phase is Completing && o.0.iteration == v.iteration + 1
            &&& o.1 is Finish ==> o.0.phase is Over
            &&& o.1 is Complete || o.1 is Finish ==> calls_answered(o.0) && o.0.at
                == o.0.calls.len()
        }),
{
    lemma_step(f, v, event);
}

/// Where only the sources may be cited, the evidence is the same from the first step of the
/// research to the last.
pub proof fn law_source_only_evidence_is_fixed(
    f: ResearchFrame,
    v: ResearchView,
    event: ResearchEvent,
)
    requires
        research_ok(f, v),
        research_awaits(v.phase, event),
        f.policy == CitationPolicy::SourceOnly,
    ensures
        research_outcome(f, v, event).0.evidence == v.evidence,
{
    lemma_step(f, v, event);
}

/// The end is noted if and only if it is among the calls that have been answered in the last
/// round, and stays noted. No round follows it: the writer is asked to go on only if no call of
/// the round was the end, and once all calls of a round with the end are answered the research is
/// over.
pub proof fn law_no_round_follows_the_end(f: ResearchFrame, v: ResearchView, event: ResearchEvent)
    requires
        research_ok(f, v),
        research_awaits(v.phase, event),
    ensures
        ({
            let o = research_outcome(f, v, event);
            &&& o.0.done_called <==> exists|k: int|
                0 <= k < o.0.at && is_end(#[trigger] o.0.calls[k])
            &&& v.done_called ==> o.0.done_called && !(o.1 is Complete)
            &&& o.1 is Complete ==> forall|k: int|
                0 <= k < o.0.calls.len() ==> !is_end(#[trigger] o.0.calls[k])
            &&& o.0.done_called && o.0.at == o.0.calls.len() ==> o.1 is Finish
        }),
{
    lemma_step(f, v, event);
}

impl View for ResearchRun {
    type V = ResearchView;

    closed spec fn view(&self) -> ResearchView {
        ResearchView {
            messages: message_views(self.state.messages@),
            done_called: self.state.done_called,
            evidence: self.state.evidence(),
            iteration: self.iteration as int,
            calls: call_views(self.calls@),
            at: self.at as int,
            done_this_round: self.done_this_round,
            phase: self.phase@,
        }
    }
}

fn say(messages: &mut Vec<Message>, role: MessageRole, content: String)
    ensures
        message_views(final(messages)@) == message_views(old(messages)@).push(
            plain_message(role, content@),
        ),
{
    let ghost before = message_views(messages@);
    let m = Message { role, content: Some(content), tool_calls: None, tool_call_id: None };
    let ghost mv = m@;
    messages.push(m);
    assert(message_views(messages@) =~= before.push(mv));
}

impl ResearchRun {
    /// What does not change in the course of the research.
    pub closed spec fn frame(self) -> ResearchFrame {
        ResearchFrame {
            policy: self.state.citation_policy,
            context: self.context,
            scope: self.scope,
            max_iterations: self.max_iterations as int,
        }
    }

    /// Whether there are numbers left for the results of a search.
    pub open spec fn has_room(self) -> bool {
        self.frame().policy == CitationPolicy::SourceAndContext ==> self@.evidence.next + 10
            <= i32::MAX
    }

    /// The conversation with the writer.
    pub fn messages(&self) -> (r: &Vec<Message>)
        ensures
            message_views(r@) == self@.messages,
    {
        &self.state.messages
    }

    /// Whether the writer has called the end.
    pub fn done_called(&self) -> (r: bool)
        ensures
            r == self@.done_called,
    {
        self.state.done_called
    }

    /// Begins the research for a report: the source atoms are numbered, and the writer is told
    /// what it is about.
    pub fn begin(
        report: &Report,
        source: &[AtomWithTags],
        total_in_scope: i32,
        context: ContextFilter,
        scope: Option<Vec<String>>,
    ) -> (r: ResearchRun)
        requires
            source@.len() < i32::MAX,
        ensures
            r.frame() == (ResearchFrame {
                policy: report.citation_policy,
                context,
                scope,
                max_iterations: iteration_limit(report.max_tool_iterations),
            }),
            r@ == (ResearchView {
                messages: seq![
                    plain_message(MessageRole::System, SYSTEM_PROMPT@),
                    plain_message(
                        MessageRole::User,
                        user_prompt(
                            report.research_prompt@,
                            report.citation_policy,
                            source@,
                            total_in_scope as int,
                        ),
                    ),
                ],
                done_called: false,
                evidence: Evidence {
                    cited: source_evidence(source@, source@.len()),
                    next: source@.len() as int + 1,
                },
                iteration: 0,
                calls: Seq::empty(),
                at: 0,
                done_this_round: false,
                phase: ResearchPhaseView::Completing,
            }),
            research_ok(r.frame(), r@),
    {
        let mut state = AgentState::from_source(report, source);
        assert(message_views(state.messages@) =~= Seq::empty());
        say(&mut state.messages, MessageRole::System, SYSTEM_PROMPT.to_owned());
        say(
            &mut state.messages,
            MessageRole::User,
            build_user_prompt(report, source, total_in_scope),
        );
        let r = ResearchRun {
            state,
            context,
            scope,
            max_iterations: max_iterations(report),
            iteration: 0,
            calls: Vec::new(),
            at: 0,
            done_this_round: false,
            phase: ResearchPhase::Completing,
        };
        assert(r@.calls =~= Seq::empty());
        assert(r@.messages =~= seq![
            plain_message(MessageRole::System, SYSTEM_PROMPT@),
            plain_message(
                MessageRole::User,
                user_prompt(
                    report.research_prompt@,
                    report.citation_policy,
                    source@,
                    total_in_scope as int,
                ),
            ),
        ]);
        r
    }

    fn round_over(&mut self) -> (action: ResearchAction)
        requires
            old(self).iteration < old(self).max_iterations,
        ensures
            final(self).frame() == old(self).frame(),
            final(self)@ == round_over(old(self).frame(), old(self)@).0,
            action@ == round_over(old(self).frame(), old(self)@).1,
    {
        if self.done_this_round || self.iteration + 1 >= self.max_iterations {
            self.phase = ResearchPhase::Over;
            ResearchAction::Finish
        } else {
            self.iteration = self.iteration + 1;
            self.phase = ResearchPhase::Completing;
            ResearchAction::Complete
        }
    }

    fn answer(&mut self, text: String)
        requires
            old(self).at < old(self).calls@.len(),
        ensures
            final(self).frame() == old(self).frame(),
            final(self).max_iterations == old(self).max_iterations,
            final(self).iteration == old(self).iteration,
            final(self).calls == old(self).calls,
            final(self).at == old(self).at + 1,
            final(self)@ == answered(old(self)@, text@),
    {
        let m = Message {
            role: MessageRole::Tool,
            content: Some(text),
            tool_calls: None,
            tool_call_id: Some(self.calls[self.at].id.clone()),
        };
        let ghost mv = m@;
        let ghost before = message_views(self.state.messages@);
        self.state.messages.push(m);
        assert(message_views(self.state.messages@) =~= before.push(mv));
        assert(self.at < self.calls.len());
        self.at = self.at + 1;
    }

    fn at_call(&mut self) -> (action: ResearchAction)
        requires
            old(self).at <= old(self).calls@.len(),
            old(self).iteration < old(self).max_iterations,
        ensures
            final(self).frame() == old(self).frame(),
            final(self)@ == at_call(old(self).frame(), old(self)@).0,
            action@ == at_call(old(self).frame(), old(self)@).1,
    {
        let ghost f = self.frame();
        let ghost outcome = at_call(f, self@);
        while self.at < self.calls.len()
            invariant
                self.at <= self.calls@.len(),
                self.iteration < self.max_iterations,
                self.frame() == f,
                f == old(self).frame(),
                outcome == at_call(f, old(self)@),
                outcome == at_call(f, self@),
            decreases self.calls@.len() - self.at,
        {
            assert(self@.calls[self.at as int] == self.calls@[self.at as int]@);
            let args = decode_args(&self.calls[self.at].arguments);
            let name = match &self.calls[self.at].name {
                Some(n) => n.clone(),
                None => String::new(),
            };
            match plan_call(name.as_str(), args) {
                CallPlan::Reply(text) => {
                    self.answer(text);
                },
                CallPlan::Done => {
                    self.done_this_round = true;
                    self.state.done_called = true;
                    self.answer("Acknowledged. Write the report in your next message.".to_owned());
                },
                CallPlan::Read { atom_id, limit, offset } => {
                    let id = atom_id.clone();
                    self.phase = ResearchPhase::Reading { atom_id, limit, offset };
                    return ResearchAction::GetAtom(id);
                },
                CallPlan::Search { query, requested, fetch } => {
                    self.phase = ResearchPhase::Searching { requested };
                    return ResearchAction::Search { query, limit: fetch };
                },
            }
        }
        self.round_over()
    }

    /// Whether the event is awaited, and there are numbers left for what it may bring.
    pub fn accepts(&self, event: &ResearchEvent) -> (r: bool)
        ensures
            r == (research_awaits(self@.phase, *event) && self.has_room()),
    {
        let awaited = match (&self.phase, event) {
            (ResearchPhase::Completing, ResearchEvent::Completed(_)) => true,
            (ResearchPhase::Reading { .. }, ResearchEvent::AtomFound(_)) => true,
            (ResearchPhase::Searching { .. }, ResearchEvent::Found(_)) => true,
            _ => false,
        };
        awaited && (self.state.citation_policy == CitationPolicy::SourceOnly
            || self.state.next_citation_number <= i32::MAX - 10)
    }

    /// Takes in an event.
    pub fn step(&mut self, event: ResearchEvent) -> (action: ResearchAction)
        requires
            research_ok(old(self).frame(), old(self)@),
            research_awaits(old(self)@.phase, event),
            old(self).has_room(),
        ensures
            final(self).frame() == old(self).frame(),
            research_ok(final(self).frame(), final(self)@),
            final(self)@ == research_outcome(old(self).frame(), old(self)@, event).0,
            action@ == research_outcome(old(self).frame(), old(self)@, event).1,
    {
        proof {
            law_every_call_is_answered(self.frame(), self@, event);
        }
        let mut phase = ResearchPhase::Over;
        std::mem::swap(&mut phase, &mut self.phase);
        match (phase, event) {
            (ResearchPhase::Completing, ResearchEvent::Completed(Err(e))) => {
                ResearchAction::Fail(
                    AtomicCoreError::DatabaseOperation(
                        glue("report research LLM call failed: ", e.as_str()),
                    ),
                )
            },
            (ResearchPhase::Completing, ResearchEvent::Completed(Ok(c))) => {
                let calls = match c.tool_calls {
                    Some(calls) => calls,
                    None => {
                        return ResearchAction::Finish;
                    },
                };
                if calls.len() == 0 {
                    return ResearchAction::Finish;
                }
                let content = if c.content.as_str().is_empty() {
                    None
                } else {
                    Some(c.content)
                };
                let m = Message {
                    role: MessageRole::Assistant,
                    content,
                    tool_calls: Some(copy_calls(&calls)),
                    tool_call_id: None,
                };
                let ghost mv = m@;
                let ghost before = message_views(self.state.messages@);
                self.state.messages.push(m);
                assert(message_views(self.state.messages@) =~= before.push(mv));
                self.calls = calls;
                self.at = 0;
                self.done_this_round = false;
                self.phase = ResearchPhase::Completing;
                self.at_call()
            },
            (
                ResearchPhase::Reading { atom_id, limit, offset },
                ResearchEvent::AtomFound(found),
            ) => {
                let text = reply_to_read(atom_id.as_str(), limit, offset, &found);
                self.phase = ResearchPhase::Reading { atom_id, limit, offset };
                self.answer(text);
                self.at_call()
            },
            (ResearchPhase::Searching { requested }, ResearchEvent::Found(Ok(hits))) => {
                let text = show_hits(
                    &mut self.state,
                    &self.context,
                    &self.scope,
                    &hits,
                    requested,
                );
                self.phase = ResearchPhase::Searching { requested };
                self.answer(text);
                self.at_call()
            },
            (ResearchPhase::Searching { requested }, ResearchEvent::Found(Err(e))) => {
                let text = glue("Search error: ", e.as_str());
                self.phase = ResearchPhase::Searching { requested };
                self.answer(text);
                self.at_call()
            },
            _ => {
                assert(false);
                ResearchAction::Finish
            },
        }
    }

    /// Asks the writer for the finding, once the research is over: the last message before it is
    /// written.
    pub fn ask_for_finding(&mut self)
        requires
            research_ok(old(self).frame(), old(self)@),
            old(self)@.phase is Over,
        ensures
            final(self).frame() == old(self).frame(),
            research_ok(final(self).frame(), final(self)@),
            final(self)@ == (ResearchView {
                messages: old(self)@.messages.push(
                    plain_message(MessageRole::User, FINAL_PROMPT@),
                ),
                ..old(self)@
            }),
    {
        say(&mut self.state.messages, MessageRole::User, FINAL_PROMPT.to_owned());
        assert(self@.calls == old(self)@.calls && self@.at == old(self)@.at);
    }

    /// What the report came to, given the finding that was written or why there is none: the
    /// finding, with its markers resolved to the evidence.
    pub fn conclude(&self, written: Result<String, String>) -> (r: Result<
        RunOutput,
        AtomicCoreError,
    >)
        requires
            evidence_ok(self@.evidence),
        ensures
            match (written, r) {
                (Ok(content), Ok(out)) => out.content@ == content@ && citation_views(
                    out.citations@,
                ) == citations(markers(content@), self@.evidence.cited),
                (Err(e), Err(f)) => f@ == ErrorView::DatabaseOperation(
                    "final report pass failed: "@ + e@,
                ),
                _ => false,
            },
    {
        match written {
            Ok(content) => {
                proof {
                    let e = self@.evidence;
                    assert(e.cited == cited_view(self.state.citables@));
                    assert(numbers_distinct(e.cited)) by {
                        assert forall|a: Seq<char>, b: Seq<char>|
                            #![trigger e.cited.contains_key(a), e.cited.contains_key(b)]
                            e.cited.contains_key(a) && e.cited.contains_key(b) && a
                                != b implies e.cited[a].number != e.cited[b].number by {}
                    }
                }
                let citations = extract_citations(content.as_str(), &self.state.citables);
                Ok(RunOutput { content, citations })
            },
            Err(e) => Err(
                AtomicCoreError::DatabaseOperation(
                    glue("final report pass failed: ", e.as_str()),
                ),
            ),
        }
    }
}

/// A tool is called by its name: an atom is read if it is named, so many lines as are asked for,
/// within one and five hundred, from the line that is asked for on; a search is made if it is for
/// anything, for the results that are asked for, within one and ten; the end is called. Every
/// other call is answered at once.
pub proof fn law_calls_do_what_they_ask_for(name: &str, args: ToolArgs, r: CallPlan)
    requires
        call_ensures(plan_call, (name, args), r),
    ensures
        r is Read <==> name@ == "read_atom"@ && args.atom_id is Some,
        r matches CallPlan::Read { atom_id, limit, offset } ==> {
            &&& atom_id@ == args.atom_id->0@
            &&& 1 <= limit <= 500
            &&& args.limit is None ==> limit == 500
            &&& args.limit matches Some(n) ==> (1 <= n <= 500 ==> limit == n) && (n < 1 ==> limit
                == 1) && (n > 500 ==> limit == 500)
            &&& args.offset is None ==> offset == 0
            &&& args.offset matches Some(n) ==> (n >= 0 ==> offset == n) && (n < 0 ==> offset == 0)
        },
        r is Search <==> name@ == "semantic_search"@ && args.query is Some && args.query->0@.len()
            > 0,
        r matches CallPlan::Search { query, requested, fetch } ==> {
            &&& query@ == args.query->0@
            &&& 1 <= requested <= 10
            &&& args.limit is None ==> requested == 5
            &&& args.limit matches Some(n) ==> (1 <= n <= 10 ==> requested == n) && (n < 1
                ==> requested == 1) && (n > 10 ==> requested == 10)
            &&& requested <= 3 ==> fetch == 3 * requested
            &&& requested > 3 ==> fetch == 10
        },
        r is Done <==> name@ == "done"@,
        r matches CallPlan::Reply(t) ==> (name@ != "read_atom"@ && name@ != "semantic_search"@
            ==> t@ == "Unknown tool: "@ + name@),
{
    reveal_strlit("done");
    reveal_strlit("read_atom");
    reveal_strlit("semantic_search");
    assert("done"@.len() == 4 && "read_atom"@.len() == 9 && "semantic_search"@.len() == 15);
    assert(r@ == call_plan(name@, args@));
}

/// What a call says of a parameter is read from the member of that name; a call without arguments
/// says nothing.
pub proof fn law_parameters_are_read_by_name(a: Seq<char>)
    ensures
        decoded(Some(a)).atom_id == json_text(a, "atom_id"@),
        decoded(Some(a)).query == json_text(a, "query"@),
        decoded(Some(a)).limit == json_integer(a, "limit"@),
        decoded(Some(a)).offset == json_integer(a, "offset"@),
        decoded(None).atom_id is None && decoded(None).query is None && decoded(None).limit is None
            && decoded(None).offset is None,
{
}

/// An atom that was found is answered with its title and its lines from the offset on, as many as
/// the limit says or as there are, under their numbers; and where to go on is said if and only if
/// there are more.
pub proof fn law_read_atoms_are_shown(
    atom_id: &str,
    limit: usize,
    offset: u64,
    atom: AtomWithTags,
    r: String,
)
    requires
        call_ensures(reply_to_read, (atom_id, limit, offset, &Ok(Some(atom))), r),
        offset < lines_of(atom.atom.content@).len(),
    ensures
        ({
            let all = lines_of(atom.atom.content@);
            let end = if offset + limit < all.len() {
                offset + limit
            } else {
                all.len() as int
            };
            r@ == "# "@ + shown_title(atom.atom.title@) + "\n(lines "@ + decimal(
                (offset + 1) as nat,
            ) + "-"@ + decimal(end as nat) + " of "@ + decimal(all.len()) + ")\n\n"@ + joined(
                all.subrange(offset as int, end),
                "\n"@,
            ) + (if offset + limit < all.len() {
                "\n\n(More content available. Call read_atom again with offset="@ + decimal(
                    (offset + limit) as nat,
                ) + " to continue.)"@
            } else {
                Seq::empty()
            })
        }),
{
}

/// What was not found, or cannot be had, is answered with the id that was asked for.
pub proof fn law_missing_atoms_are_told(
    atom_id: &str,
    limit: usize,
    offset: u64,
    e: String,
    missing: String,
    failed: String,
)
    requires
        call_ensures(reply_to_read, (atom_id, limit, offset, &Ok(None)), missing),
        call_ensures(reply_to_read, (atom_id, limit, offset, &Err(e)), failed),
    ensures
        missing@ == "Error: no atom found with id "@ + atom_id@,
        failed@ == "Error fetching atom "@ + atom_id@ + ": "@ + e@,
{
}

/// What a call is answered at once; nothing if something must be fetched for it.
pub open spec fn answer_at_once(c: CallView) -> Option<Seq<char>> {
    match call_plan(called_name(c), decoded(c.arguments)) {
        PlanView::Reply(text) => Some(text),
        PlanView::Done => Some("Acknowledged. Write the report in your next message."@),
        _ => None,
    }
}

proof fn lemma_answers_at_once(f: ResearchFrame, v: ResearchView)
    requires
        0 <= v.at <= v.calls.len(),
    ensures
        ({
            let o = at_call(f, v);
            &&& v.at <= o.0.at <= v.calls.len()
            &&& o.0.calls == v.calls
            &&& o.0.evidence == v.evidence
            &&& o.0.messages.len() == v.messages.len() + (o.0.at - v.at)
            &&& forall|k: int| 0 <= k < v.messages.len() ==> o.0.messages[k] == v.messages[k]
            &&& forall|k: int|
                #![trigger v.calls[k]]
                v.at <= k < o.0.at ==> answer_at_once(v.calls[k]) is Some && o.0.messages[
                v.messages.len() + (k - v.at)] == tool_result(
                    v.calls[k].id,
                    answer_at_once(v.calls[k])->0,
                )
            &&& o.0.at < v.calls.len() ==> match call_plan(
                called_name(v.calls[o.0.at]),
                decoded(v.calls[o.0.at].arguments),
            ) {
                PlanView::Read { atom_id, limit, offset } => o.1 == ResearchActionView::GetAtom(
                    atom_id,
                ) && o.0.phase == (ResearchPhaseView::Reading { atom_id, limit, offset }),
                PlanView::Search { query, requested, fetch } => o.1
                    == (ResearchActionView::Search { query, limit: fetch }) && o.0.phase
                    == (ResearchPhaseView::Searching { requested }),
                _ => false,
            }
            &&& o.0.at == v.calls.len() ==> if o.0.done_this_round || v.iteration + 1
                >= f.max_iterations {
                o.1 is Finish && o.0.phase is Over && o.0.iteration == v.iteration
            } else {
                o.1 is Complete && o.0.phase is Completing && o.0.iteration == v.iteration + 1
            }
        }),
    decreases v.calls.len() - v.at,
{
    if v.at < v.calls.len() {
        let c = v.calls[v.at];
        let next = match call_plan(called_name(c), decoded(c.arguments)) {
            PlanView::Reply(text) => Some(answered(v, text)),
            PlanView::Done => Some(
                answered(
                    ResearchView { done_this_round: true, done_called: true, ..v },
                    "Acknowledged. Write the report in your next message."@,
                ),
            ),
            _ => None,
        };
        match next {
            Some(w) => {
                lemma_answers_at_once(f, w);
                let o = at_call(f, v);
                assert forall|k: int| 0 <= k < v.messages.len() implies o.0.messages[k]
                    == v.messages[k] by {
                    assert(o.0.messages[k] == w.messages[k]);
                }
                assert forall|k: int|
                    #![trigger v.calls[k]]
                    v.at <= k < o.0.at implies answer_at_once(v.calls[k]) is Some && o.0.messages[
                v.messages.len() + (k - v.at)] == tool_result(
                    v.calls[k].id,
                    answer_at_once(v.calls[k])->0,
                ) by {
                    if k == v.at {
                        assert(o.0.messages[v.messages.len() as int] == w.messages[
                        v.messages.len() as int]);
                    } else {
                        assert(w.calls[k] == v.calls[k]);
                        assert(w.messages.len() + (k - w.at) == v.messages.len() + (k - v.at));
                    }
                }
            },
            None => {},
        }
    }
}

/// What is told of a call for which something was fetched.
pub open spec fn fetched_answer(
    f: ResearchFrame,
    v: ResearchView,
    event: ResearchEvent,
) -> Seq<char> {
    match (v.phase, event) {
        (
            ResearchPhaseView::Reading { atom_id, limit, offset },
            ResearchEvent::AtomFound(found),
        ) => read_reply(atom_id, limit, offset, found),
        (ResearchPhaseView::Searching { requested }, ResearchEvent::Found(Ok(hits))) => {
            search_reply(
                shown_hits(
                    v.evidence,
                    f.policy,
                    f.context,
                    f.scope,
                    hits@,
                    requested as nat,
                    hits@.len(),
                ).1,
            )
        },
        (ResearchPhaseView::Searching { .. }, ResearchEvent::Found(Err(e))) => "Search error: "@
            + e@,
        _ => Seq::empty(),
    }
}

/// What was fetched for a call is the answer to that call, and the calls behind it that need
/// nothing fetched are answered in order right after it, up to the first that does; nothing else
/// is said, and only what a search shows is added to the evidence.
pub proof fn law_fetched_answers_go_to_their_call(
    f: ResearchFrame,
    v: ResearchView,
    event: ResearchEvent,
)
    requires
        research_ok(f, v),
        research_awaits(v.phase, event),
        !(v.phase is Completing),
    ensures
        ({
            let o = research_outcome(f, v, event);
            &&& v.at < o.0.at <= v.calls.len()
            &&& o.0.calls == v.calls
            &&& o.0.messages.len() == v.messages.len() + (o.0.at - v.at)
            &&& o.0.messages[v.messages.len() as int] == tool_result(
                v.calls[v.at].id,
                fetched_answer(f, v, event),
            )
            &&& forall|k: int|
                #![trigger v.calls[k]]
                v.at < k < o.0.at ==> answer_at_once(v.calls[k]) is Some && o.0.messages[
                v.messages.len() + (k - v.at)] == tool_result(
                    v.calls[k].id,
                    answer_at_once(v.calls[k])->0,
                )
            &&& o.0.at < v.calls.len() ==> answer_at_once(v.calls[o.0.at]) is None
            &&& !(event is Found && event->Found_0 is Ok) ==> o.0.evidence == v.evidence
        }),
{
    let w = match (v.phase, event) {
        (ResearchPhaseView::Searching { requested }, ResearchEvent::Found(Ok(hits))) => {
            ResearchView {
                evidence: shown_hits(
                    v.evidence,
                    f.policy,
                    f.context,
                    f.scope,
                    hits@,
                    requested as nat,
                    hits@.len(),
                ).0,
                ..v
            }
        },
        _ => v,
    };
    let u = answered(w, fetched_answer(f, v, event));
    let o = research_outcome(f, v, event);
    assert(o == at_call(f, u));
    lemma_answers_at_once(f, u);
    assert(o.0.messages[v.messages.len() as int] == u.messages[v.messages.len() as int]);
    assert forall|k: int|
        #![trigger v.calls[k]]
        v.at < k < o.0.at implies answer_at_once(v.calls[k]) is Some && o.0.messages[
    v.messages.len() + (k - v.at)] == tool_result(
        v.calls[k].id,
        answer_at_once(v.calls[k])->0,
    ) by {
        assert(u.calls[k] == v.calls[k]);
        assert(u.messages.len() + (k - u.at) == v.messages.len() + (k - v.at));
    }
    if o.0.at < v.calls.len() {
        assert(u.calls[o.0.at] == v.calls[o.0.at]);
    }
}

/// A round begins with what the writer says and the calls that it makes; an answer without calls
/// ends the research, and an error fails it with what went wrong.
pub proof fn law_rounds_begin_with_the_writer(f: ResearchFrame, v: ResearchView, c: Completion, e: String)
    requires
        research_ok(f, v),
        v.phase is Completing,
    ensures
        ({
            let o = research_outcome(f, v, ResearchEvent::Completed(Ok(c)));
            if c.tool_calls is None || c.tool_calls->0@.len() == 0 {
                o.1 is Finish && o.0.messages == v.messages
            } else {
                let said = o.0.messages[v.messages.len() as int];
                &&& o.0.messages.len() == v.messages.len() + 1 + o.0.at
                &&& said.role == MessageRole::Assistant
                &&& c.content@.len() > 0 ==> said.content == Some(c.content@)
                &&& c.content@.len() == 0 ==> said.content is None
                &&& said.calls is Some && said.calls->0.len() == c.tool_calls->0@.len()
                &&& said.calls->0 == o.0.calls
                &&& forall|k: int|
                    #![trigger said.calls->0[k]]
                    0 <= k < said.calls->0.len() ==> said.calls->0[k] == c.tool_calls->0@[k]@
                &&& o.0.evidence == v.evidence
            }
        }),
        ({
            let o = research_outcome(f, v, ResearchEvent::Completed(Err(e)));
            o.1 == ResearchActionView::Fail(
                ErrorView::DatabaseOperation("report research LLM call failed: "@ + e@),
            ) && o.0.messages == v.messages
        }),
{
    if c.tool_calls is Some {
        let calls = call_views(c.tool_calls->0@);
        assert(calls.len() == c.tool_calls->0@.len());
        if calls.len() > 0 {
            let w = ResearchView {
                messages: v.messages.push(assistant_message(c.content@, calls)),
                calls,
                at: 0,
                done_this_round: false,
                ..v
            };
            lemma_answers_at_once(f, w);
            let o = research_outcome(f, v, ResearchEvent::Completed(Ok(c)));
            assert(o == at_call(f, w));
            assert(o.0.messages[v.messages.len() as int] == w.messages[v.messages.len() as int]);
        }
    }
}

/// Research goes on as long as it may: once all calls of a round are answered, the writer is asked
/// to go on unless the end was called or this was the last of the rounds that the report has.
pub proof fn law_research_goes_on_while_there_are_rounds(
    f: ResearchFrame,
    v: ResearchView,
    event: ResearchEvent,
)
    requires
        research_ok(f, v),
        research_awaits(v.phase, event),
        event matches ResearchEvent::Completed(r) ==> r is Ok && r->Ok_0.tool_calls is Some
            && r->Ok_0.tool_calls->0@.len() > 0,
    ensures
        ({
            let o = research_outcome(f, v, event);
            &&& o.1 is Finish <==> o.0.at == o.0.calls.len() && (o.0.done_called || v.iteration + 1
                == f.max_iterations)
            &&& o.1 is Complete <==> o.0.at == o.0.calls.len() && !o.0.done_called && v.iteration
                + 1 < f.max_iterations
            &&& !(o.1 is Fail)
        }),
{
    lemma_step(f, v, event);
    let o = research_outcome(f, v, event);
    let w = match (v.phase, event) {
        (ResearchPhaseView::Completing, ResearchEvent::Completed(Ok(c))) => {
            let calls = call_views(c.tool_calls->0@);
            ResearchView {
                messages: v.messages.push(assistant_message(c.content@, calls)),
                calls,
                at: 0,
                done_this_round: false,
                ..v
            }
        },
        (ResearchPhaseView::Searching { requested }, ResearchEvent::Found(Ok(hits))) => {
            answered(
                ResearchView {
                    evidence: shown_hits(
                        v.evidence,
                        f.policy,
                        f.context,
                        f.scope,
                        hits@,
                        requested as nat,
                        hits@.len(),
                    ).0,
                    ..v
                },
                fetched_answer(f, v, event),
            )
        },
        _ => answered(v, fetched_answer(f, v, event)),
    };
    assert(o == at_call(f, w));
    lemma_answers_at_once(f, w);
}

/// Research begins with two messages, what every report is told and the prompt of this one, with
/// no call open and the first of the report's rounds before it.
pub proof fn law_research_begins_with_the_prompt(
    report: &Report,
    source: &[AtomWithTags],
    total_in_scope: i32,
    context: ContextFilter,
    scope: Option<Vec<String>>,
    r: ResearchRun,
)
    requires
        source@.len() < i32::MAX,
        call_ensures(ResearchRun::begin, (report, source, total_in_scope, context, scope), r),
    ensures
        r@.messages.len() == 2,
        r@.messages[0].role == MessageRole::System && r@.messages[0].content == Some(
            SYSTEM_PROMPT@,
        ),
        r@.messages[1].role == MessageRole::User && r@.messages[1].content == Some(
            user_prompt(
                report.research_prompt@,
                report.citation_policy,
                source@,
                total_in_scope as int,
            ),
        ),
        r@.calls.len() == 0 && !r@.done_called && r@.iteration == 0 && r@.phase is Completing,
        r@.evidence.cited == source_evidence(source@, source@.len()),
        r@.evidence.next == source@.len() + 1,
        r.frame().policy == report.citation_policy,
        r.frame().context == context,
        r.frame().scope == scope,
        report.max_tool_iterations is None ==> r.frame().max_iterations == 20,
        report.max_tool_iterations matches Some(n) ==> n >= 1 ==> r.frame().max_iterations == n,
{
}

/// What a report comes to is the finding as it was written, with the citations that its markers
/// make; without a finding it is an error.
pub proof fn law_findings_are_concluded(
    run: &ResearchRun,
    content: String,
    e: String,
    done: Result<RunOutput, AtomicCoreError>,
    failed: Result<RunOutput, AtomicCoreError>,
)
    requires
        evidence_ok(run@.evidence),
        call_ensures(ResearchRun::conclude, (run, Ok(content)), done),
        call_ensures(ResearchRun::conclude, (run, Err(e)), failed),
    ensures
        done is Ok,
        done->Ok_0.content@ == content@,
        match_markers(
            citation_views(done->Ok_0.citations@),
            markers(content@),
            run@.evidence.cited,
        ),
        failed matches Err(f) && f@ == ErrorView::DatabaseOperation(
            "final report pass failed: "@ + e@,
        ),
{
    law_citations_match_markers(content@, run@.evidence.cited);
}

/// The tools that the writer is told of are those that it can call, and where a tool names a
/// default that is what is taken if nothing is asked for.
pub proof fn law_told_tools_can_be_called(tools: Vec<ToolDefinition>, args: ArgsView, i: int)
    requires
        call_ensures(report_tools, (), tools),
        0 <= i < tools@.len(),
    ensures
        call_plan(tools@[i].name@, args) != PlanView::Reply("Unknown tool: "@ + tools@[i].name@)
            || args.atom_id is None || args.query is None || args.query->0.len() == 0,
        tools@[0].parameters.members@[1].default matches Some(n) && n == read_limit(None),
        tools@[0].parameters.members@[2].default matches Some(n) && n == read_offset(None),
        tools@[1].parameters.members@[1].default matches Some(n) && n == search_limit(None),
{
    law_tools_take_what_they_require(tools);
}

} // verus!
