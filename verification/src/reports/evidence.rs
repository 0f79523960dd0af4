//! What a report may cite: the numbers of its evidence, and which search results belong to its
//! context.

use super::prompt::{excerpt_for, excerpt_text, shown_title, title_for};
use super::report::{CitationPolicy, ContextFilter, KindFilter, Report, TimeWindow};
use crate::atoms::AtomWithTags;
use crate::strmap::StrMap;
use crate::text::{
    line_feeds_to_blanks, on_one_line, precedes, signed_decimal, signed_decimal_of, text_before,
    text_in, truncate_on_char_boundary, truncated, views,
};
use vstd::prelude::*;

verus! {

/// A piece of evidence that may be cited, under its number.
#[derive(Debug, Clone)]
pub struct Citable {
    pub number: i32,
    pub atom_id: String,
    pub excerpt: String,
}

/// What a piece of evidence is.
pub struct CitableView {
    pub number: int,
    pub atom_id: Seq<char>,
    pub excerpt: Seq<char>,
}

impl View for Citable {
    type V = CitableView;

    open spec fn view(&self) -> CitableView {
        CitableView {
            number: self.number as int,
            atom_id: self.atom_id@,
            excerpt: self.excerpt@,
        }
    }
}

/// Who says something to the writer of a report, or what the writer says.
#[derive(Debug, Clone, Copy, PartialEq, Eq, Structural)]
pub enum MessageRole {
    System,
    User,
    Assistant,
    Tool,
}

/// A call of a tool.
#[derive(Debug, Clone)]
pub struct ToolCall {
    pub id: String,
    pub name: Option<String>,
    pub arguments: Option<String>,
}

/// A message of the conversation with the writer of a report.
#[derive(Debug, Clone)]
pub struct Message {
    pub role: MessageRole,
    pub content: Option<String>,
    pub tool_calls: Option<Vec<ToolCall>>,
    pub tool_call_id: Option<String>,
}

/// The state of the research for a report.
pub struct AgentState {
    pub messages: Vec<Message>,
    pub done_called: bool,
    /// The evidence, by the ids of the atoms.
    pub citables: StrMap<Citable>,
    pub next_citation_number: i32,
    pub citation_policy: CitationPolicy,
}

/// The evidence: what may be cited, and the number that comes next.
pub struct Evidence {
    pub cited: Map<Seq<char>, CitableView>,
    pub next: int,
}

/// What a map of evidence holds.
pub open spec fn cited_view(m: Map<Seq<char>, Citable>) -> Map<Seq<char>, CitableView> {
    m.map_values(|c: Citable| c@)
}

/// Whether each piece of evidence stands under its own atom and has a number of its own, below
/// the next one.
pub open spec fn evidence_ok(e: Evidence) -> bool {
    &&& e.next >= 1
    &&& forall|id: Seq<char>| #[trigger]
        e.cited.contains_key(id) ==> e.cited[id].atom_id == id && 1 <= e.cited[id].number < e.next
    &&& forall|a: Seq<char>, b: Seq<char>|
        #![trigger e.cited.contains_key(a), e.cited.contains_key(b)]
        e.cited.contains_key(a) && e.cited.contains_key(b) && a != b ==> e.cited[a].number
            != e.cited[b].number
}

/// The evidence of an atom under a number.
pub open spec fn citable_of(atom: AtomWithTags, number: int) -> CitableView {
    CitableView { number, atom_id: atom.atom.id@, excerpt: excerpt_text(atom) }
}

/// The evidence that the first `n` source atoms make: they are numbered from one on.
pub open spec fn source_evidence(source: Seq<AtomWithTags>, n: nat) -> Map<Seq<char>, CitableView>
    decreases n,
{
    if n == 0 {
        Map::empty()
    } else {
        source_evidence(source, (n - 1) as nat).insert(
            source[n - 1].atom.id@,
            citable_of(source[n - 1], n as int),
        )
    }
}

/// What becomes of the evidence when a search brings up an atom, and the number under which the
/// atom may be cited: the one that it has; the next one if it is new and context may be cited;
/// else none.
pub open spec fn cite(e: Evidence, atom: AtomWithTags, policy: CitationPolicy) -> (
    Evidence,
    Option<int>,
) {
    let id = atom.atom.id@;
    if e.cited.contains_key(id) {
        (e, Some(e.cited[id].number))
    } else if policy == CitationPolicy::SourceAndContext {
        (
            Evidence { cited: e.cited.insert(id, citable_of(atom, e.next)), next: e.next + 1 },
            Some(e.next),
        )
    } else {
        (e, None)
    }
}

/// Evidence with the next number keeps the evidence sound.
proof fn lemma_next_number(e: Evidence, atom: AtomWithTags)
    requires
        evidence_ok(e),
    ensures
        evidence_ok(
            (Evidence {
                cited: e.cited.insert(atom.atom.id@, citable_of(atom, e.next)),
                next: e.next + 1,
            }),
        ),
{
    let id = atom.atom.id@;
    let m = e.cited.insert(id, citable_of(atom, e.next));
    assert forall|k: Seq<char>| #[trigger] m.contains_key(k) implies m[k].atom_id == k && 1
        <= m[k].number < e.next + 1 by {
        if k != id {
            assert(e.cited.contains_key(k));
        }
    }
    assert forall|a: Seq<char>, b: Seq<char>|
        #![trigger m.contains_key(a), m.contains_key(b)]
        m.contains_key(a) && m.contains_key(b) && a != b implies m[a].number != m[b].number by {
        if a != id {
            assert(e.cited.contains_key(a));
        }
        if b != id {
            assert(e.cited.contains_key(b));
        }
    }
}

proof fn lemma_source_evidence(source: Seq<AtomWithTags>, n: nat)
    requires
        n <= source.len(),
    ensures
        evidence_ok((Evidence { cited: source_evidence(source, n), next: n as int + 1 })),
        forall|i: int|
            0 <= i < n ==> source_evidence(source, n).contains_key(
                (#[trigger] source[i]).atom.id@,
            ),
    decreases n,
{
    if n > 0 {
        lemma_source_evidence(source, (n - 1) as nat);
        lemma_next_number(
            Evidence { cited: source_evidence(source, (n - 1) as nat), next: n as int },
            source[n - 1],
        );
    }
}

/// The source atoms give sound evidence: every one of them may be cited, and where their ids
/// differ each has its place in the list as its number.
pub proof fn law_source_atoms_are_numbered(source: Seq<AtomWithTags>, i: int)
    requires
        0 <= i < source.len(),
        forall|j: int| i < j < source.len() ==> (#[trigger] source[j]).atom.id@ != source[i].atom.id@,
    ensures
        evidence_ok(
            (Evidence { cited: source_evidence(source, source.len()), next: source.len() as int + 1 }),
        ),
        source_evidence(source, source.len()).contains_key(source[i].atom.id@),
        source_evidence(source, source.len())[source[i].atom.id@] == citable_of(source[i], i + 1),
{
    lemma_source_evidence(source, source.len());
    lemma_source_number(source, i, source.len());
}

proof fn lemma_source_number(source: Seq<AtomWithTags>, i: int, n: nat)
    requires
        0 <= i < n <= source.len(),
        forall|j: int| i < j < n ==> (#[trigger] source[j]).atom.id@ != source[i].atom.id@,
    ensures
        source_evidence(source, n).contains_key(source[i].atom.id@),
        source_evidence(source, n)[source[i].atom.id@] == citable_of(source[i], i + 1),
    decreases n,
{
    if n > i + 1 {
        lemma_source_number(source, i, (n - 1) as nat);
    }
}

/// Evidence stays sound whatever a search brings up, and no number is ever changed.
pub proof fn law_numbers_are_kept(e: Evidence, atom: AtomWithTags, policy: CitationPolicy)
    requires
        evidence_ok(e),
    ensures
        evidence_ok(cite(e, atom, policy).0),
        forall|id: Seq<char>| #[trigger]
            e.cited.contains_key(id) ==> cite(e, atom, policy).0.cited.contains_key(id) && cite(
                e,
                atom,
                policy,
            ).0.cited[id] == e.cited[id],
{
    lemma_next_number(e, atom);
}

/// An atom that comes up again keeps its number, and the evidence is left alone.
pub proof fn law_second_appearance_reuses_number(
    e: Evidence,
    atom: AtomWithTags,
    policy: CitationPolicy,
)
    ensures
        cite(cite(e, atom, policy).0, atom, policy) == cite(e, atom, policy),
{
}

/// Where only the sources may be cited, a search adds nothing to the evidence, and an atom that
/// is no source has no number.
pub proof fn law_source_only_cites_no_context(e: Evidence, atom: AtomWithTags)
    ensures
        cite(e, atom, CitationPolicy::SourceOnly).0 == e,
        !e.cited.contains_key(atom.atom.id@) ==> cite(
            e,
            atom,
            CitationPolicy::SourceOnly,
        ).1 is None,
{
}

impl AgentState {
    /// The evidence.
    pub open spec fn evidence(self) -> Evidence {
        Evidence { cited: cited_view(self.citables@), next: self.next_citation_number as int }
    }

    /// Whether so many more atoms can be numbered; where context is not cited, none will be.
    pub open spec fn room_for(self, n: int) -> bool {
        self.citation_policy == CitationPolicy::SourceAndContext ==> self.next_citation_number + n
            <= i32::MAX
    }

    /// The state at the start: the source atoms are the evidence.
    pub fn from_source(report: &Report, source: &[AtomWithTags]) -> (r: Self)
        requires
            source@.len() < i32::MAX,
        ensures
            r.messages@.len() == 0,
            !r.done_called,
            r.citation_policy == report.citation_policy,
            r.evidence() == (Evidence {
                cited: source_evidence(source@, source@.len()),
                next: source@.len() as int + 1,
            }),
            evidence_ok(r.evidence()),
    {
        let mut citables: StrMap<Citable> = StrMap::new();
        let mut i: usize = 0;
        assert(cited_view(citables@) =~= Map::empty());
        while i < source.len()
            invariant
                i <= source@.len() < i32::MAX,
                cited_view(citables@) == source_evidence(source@, i as nat),
            decreases source@.len() - i,
        {
            let ghost before = citables@;
            let atom = &source[i];
            let c = Citable {
                number: i as i32 + 1,
                atom_id: atom.atom.id.clone(),
                excerpt: excerpt_for(atom),
            };
            let ghost cv = c;
            citables.insert(atom.atom.id.clone(), c);
            assert(cited_view(citables@) =~= cited_view(before).insert(atom.atom.id@, cv@));
            i = i + 1;
        }
        proof {
            lemma_source_evidence(source@, source@.len());
        }
        AgentState {
            messages: Vec::new(),
            done_called: false,
            citables,
            next_citation_number: source.len() as i32 + 1,
            citation_policy: report.citation_policy,
        }
    }

    /// The number under which an atom that a search brought up may be cited.
    pub fn citation_for_search_result(&mut self, atom: &AtomWithTags) -> (r: Option<i32>)
        requires
            cite(old(self).evidence(), *atom, old(self).citation_policy).0.next <= i32::MAX,
        ensures
            final(self).evidence() == cite(
                old(self).evidence(),
                *atom,
                old(self).citation_policy,
            ).0,
            (match r {
                Some(n) => Some(n as int),
                None => None,
            }) == cite(old(self).evidence(), *atom, old(self).citation_policy).1,
            final(self).citation_policy == old(self).citation_policy,
            final(self).messages == old(self).messages,
            final(self).done_called == old(self).done_called,
    {
        let ghost before = self.citables@;
        let found: Option<i32> = match self.citables.get(atom.atom.id.as_str()) {
            Some(c) => Some(c.number),
            None => None,
        };
        match found {
            Some(n) => {
                assert(cited_view(before).contains_key(atom.atom.id@));
                return Some(n);
            },
            None => {},
        }
        if self.citation_policy == CitationPolicy::SourceAndContext {
            let number: i32 = self.next_citation_number;
            self.next_citation_number = number + 1;
            let c = Citable {
                number,
                atom_id: atom.atom.id.clone(),
                excerpt: excerpt_for(atom),
            };
            let ghost cv = c;
            self.citables.insert(atom.atom.id.clone(), c);
            assert(cited_view(self.citables@) =~= cited_view(before).insert(
                atom.atom.id@,
                cv@,
            ));
            Some(number)
        } else {
            None
        }
    }
}

/// Whether an atom was made within the window.
pub open spec fn in_window(created_at: Seq<char>, window: Option<TimeWindow>) -> bool {
    match window {
        None => true,
        Some(TimeWindow::Before(cutoff)) => precedes(created_at, cutoff@),
        Some(TimeWindow::After(cutoff)) => precedes(cutoff@, created_at),
    }
}

/// Whether an atom belongs to the context: it is not excluded, was made within the window, and is
/// of a kind that counts.
pub open spec fn in_context(atom: AtomWithTags, ctx: ContextFilter) -> bool {
    &&& !views(ctx.excluded_atom_ids@).contains(atom.atom.id@)
    &&& in_window(atom.atom.created_at@, ctx.time_window)
    &&& ctx.kinds.admits(atom.atom.kind)
}

/// Whether an atom belongs to the context, as far as that shows on the atom itself.
pub fn passes_context_filter(atom: &AtomWithTags, ctx: &ContextFilter) -> (r: bool)
    ensures
        r == in_context(*atom, *ctx),
{
    if text_in(&ctx.excluded_atom_ids, atom.atom.id.as_str()) {
        return false;
    }
    let timely = match &ctx.time_window {
        None => true,
        Some(TimeWindow::Before(cutoff)) => text_before(
            atom.atom.created_at.as_str(),
            cutoff.as_str(),
        ),
        Some(TimeWindow::After(cutoff)) => text_before(
            cutoff.as_str(),
            atom.atom.created_at.as_str(),
        ),
    };
    timely && ctx.kinds.allows(atom.atom.kind)
}

/// Whether an atom carries a tag of the context: every atom does if the context has no tags.
pub open spec fn in_tag_scope(id: Seq<char>, scope: Option<Vec<String>>) -> bool {
    match scope {
        Some(ids) => views(ids@).contains(id),
        None => true,
    }
}

/// Whether the context is confined to tags, so that the atoms that carry them must be looked up.
pub fn has_tag_scope(ctx: &ContextFilter) -> (r: bool)
    ensures
        r == (ctx.tag_ids@.len() > 0),
{
    ctx.tag_ids.len() > 0
}

/// What a search found: an atom, how well it fits, as text, and the part that fits.
#[derive(Debug)]
pub struct SearchHit {
    pub atom: AtomWithTags,
    pub score: String,
    pub matching_chunk_content: String,
}

/// A search result as it is shown: the number under which it may be cited, or zero, and the
/// search's own account of it.
pub struct ShownHit {
    pub number: int,
    pub hit: SearchHit,
}

/// The search results that are shown, of the first `n`: those in the context, as many as were
/// asked for; and what becomes of the evidence.
pub open spec fn shown_hits(
    e: Evidence,
    policy: CitationPolicy,
    ctx: ContextFilter,
    scope: Option<Vec<String>>,
    hits: Seq<SearchHit>,
    requested: nat,
    n: nat,
) -> (Evidence, Seq<ShownHit>)
    decreases n,
{
    if n == 0 {
        (e, Seq::empty())
    } else {
        let before = shown_hits(e, policy, ctx, scope, hits, requested, (n - 1) as nat);
        let hit = hits[n - 1];
        if before.1.len() >= requested || !in_context(hit.atom, ctx) || !in_tag_scope(
            hit.atom.atom.id@,
            scope,
        ) {
            before
        } else {
            let c = cite(before.0, hit.atom, policy);
            (
                c.0,
                before.1.push(
                    ShownHit {
                        number: match c.1 {
                            Some(k) => k,
                            None => 0,
                        },
                        hit,
                    },
                ),
            )
        }
    }
}

/// The text of a search result.
pub open spec fn hit_text(h: ShownHit) -> Seq<char> {
    let snippet = truncated(on_one_line(h.hit.matching_chunk_content@), 200);
    (if h.number > 0 {
        "["@ + signed_decimal(h.number) + "] citable"@
    } else {
        "(context only, not citable)"@
    }) + ". "@ + shown_title(h.hit.atom.atom.title@) + "\n   "@ + snippet + "\n   (atom id: "@
        + h.hit.atom.atom.id@ + ", score: "@ + h.hit.score@ + ")\n   "@ + snippet + "\n\n"@
}

/// The texts of the first `n` search results.
pub open spec fn hit_texts(shown: Seq<ShownHit>, n: nat) -> Seq<char>
    decreases n,
{
    if n == 0 {
        Seq::empty()
    } else {
        hit_texts(shown, (n - 1) as nat) + hit_text(shown[n - 1])
    }
}

/// The answer of the search tool.
pub open spec fn search_reply(shown: Seq<ShownHit>) -> Seq<char> {
    if shown.len() == 0 {
        "No results in context scope."@
    } else {
        hit_texts(shown, shown.len())
    }
}

fn text_for_hit(number: i32, hit: &SearchHit) -> (r: String)
    ensures
        r@ == hit_text((ShownHit { number: number as int, hit: *hit })),
{
    let flat = line_feeds_to_blanks(hit.matching_chunk_content.as_str());
    let snippet = truncate_on_char_boundary(flat.as_str(), super::prompt::SNIPPET_LEN);
    let mut out = if number > 0 {
        let mut marker = "[".to_owned();
        marker.append(signed_decimal_of(number as i64).as_str());
        marker.append("] citable");
        marker
    } else {
        "(context only, not citable)".to_owned()
    };
    out.append(". ");
    out.append(title_for(hit.atom.atom.title.as_str()).as_str());
    out.append("\n   ");
    out.append(snippet.as_str());
    out.append("\n   (atom id: ");
    out.append(hit.atom.atom.id.as_str());
    out.append(", score: ");
    out.append(hit.score.as_str());
    out.append(")\n   ");
    out.append(snippet.as_str());
    out.append("\n\n");
    out
}

/// The answer of the search tool, and what becomes of the evidence.
pub fn show_hits(
    state: &mut AgentState,
    ctx: &ContextFilter,
    scope: &Option<Vec<String>>,
    hits: &Vec<SearchHit>,
    requested: usize,
) -> (r: String)
    requires
        old(state).room_for(requested as int),
    ensures
        ({
            let o = shown_hits(
                old(state).evidence(),
                old(state).citation_policy,
                *ctx,
                *scope,
                hits@,
                requested as nat,
                hits@.len(),
            );
            &&& final(state).evidence() == o.0
            &&& r@ == search_reply(o.1)
        }),
        final(state).citation_policy == old(state).citation_policy,
        final(state).messages == old(state).messages,
        final(state).done_called == old(state).done_called,
{
    let ghost e = state.evidence();
    let ghost policy = state.citation_policy;
    let ghost first = *state;
    let ghost want = requested as nat;
    let mut count: usize = 0;
    let mut out = String::new();
    let mut i: usize = 0;
    let ghost mut shown: Seq<ShownHit> = Seq::empty();
    while i < hits.len()
        invariant
            i <= hits@.len(),
            first == *old(state),
            first.room_for(requested as int),
            e == first.evidence(),
            policy == first.citation_policy,
            want == requested as nat,
            shown_hits(e, policy, *ctx, *scope, hits@, want, i as nat) == (
                state.evidence(),
                shown,
            ),
            count == shown.len() <= requested,
            out@ == hit_texts(shown, shown.len()),
            state.citation_policy == policy,
            state.messages == first.messages,
            state.done_called == first.done_called,
            state.next_citation_number <= first.next_citation_number + count,
        decreases hits@.len() - i,
    {
        let hit = &hits[i];
        if count < requested {
            let tagged = match scope {
                Some(ids) => text_in(ids, hit.atom.atom.id.as_str()),
                None => true,
            };
            if passes_context_filter(&hit.atom, ctx) && tagged {
                let number: i32 = match state.citation_for_search_result(&hit.atom) {
                    Some(n) => n,
                    None => 0,
                };
                out.append(text_for_hit(number, hit).as_str());
                proof {
                    let more = shown.push(ShownHit { number: number as int, hit: *hit });
                    lemma_hit_texts_prefix(shown, more, shown.len());
                    shown = more;
                }
                count = count + 1;
            }
        }
        i = i + 1;
    }
    if count == 0 {
        "No results in context scope.".to_owned()
    } else {
        out
    }
}

proof fn lemma_hit_texts_prefix(a: Seq<ShownHit>, b: Seq<ShownHit>, n: nat)
    requires
        n <= a.len() <= b.len(),
        forall|i: int| 0 <= i < a.len() ==> a[i] == b[i],
    ensures
        hit_texts(a, n) == hit_texts(b, n),
    decreases n,
{
    if n > 0 {
        lemma_hit_texts_prefix(a, b, (n - 1) as nat);
    }
}

/// The writer of a report is never shown an atom from outside its context, nor more results than
/// it asked for; and the evidence stays sound.
pub proof fn law_search_stays_in_context(
    e: Evidence,
    policy: CitationPolicy,
    ctx: ContextFilter,
    scope: Option<Vec<String>>,
    hits: Seq<SearchHit>,
    requested: nat,
    n: nat,
)
    requires
        n <= hits.len(),
        evidence_ok(e),
    ensures
        ({
            let o = shown_hits(e, policy, ctx, scope, hits, requested, n);
            &&& evidence_ok(o.0)
            &&& o.1.len() <= requested
            &&& forall|i: int|
                0 <= i < o.1.len() ==> in_context((#[trigger] o.1[i]).hit.atom, ctx)
                    && in_tag_scope(o.1[i].hit.atom.atom.id@, scope) && hits.contains(o.1[i].hit)
            &&& policy == CitationPolicy::SourceOnly ==> o.0 == e
        }),
    decreases n,
{
    if n > 0 {
        law_search_stays_in_context(e, policy, ctx, scope, hits, requested, (n - 1) as nat);
        let before = shown_hits(e, policy, ctx, scope, hits, requested, (n - 1) as nat);
        law_numbers_are_kept(before.0, hits[n - 1].atom, policy);
        assert(hits.contains(hits[n - 1]));
    }
}

/// Whether an atom was made within the window depends on how the two times compare: before and
/// after a time are apart, neither holds the time itself, and between them they leave out nothing
/// else; without a window every time will do.
pub proof fn law_windows_are_apart(created_at: Seq<char>, cutoff: String)
    ensures
        in_window(created_at, None),
        created_at == cutoff@ ==> !in_window(created_at, Some(TimeWindow::Before(cutoff))),
        created_at == cutoff@ ==> !in_window(created_at, Some(TimeWindow::After(cutoff))),
        created_at != cutoff@ ==> (in_window(created_at, Some(TimeWindow::Before(cutoff)))
            <==> !in_window(created_at, Some(TimeWindow::After(cutoff)))),
        in_window(created_at, Some(TimeWindow::Before(cutoff))) <==> precedes(
            created_at,
            cutoff@,
        ),
{
    crate::text::lemma_precedes_total(created_at, cutoff@);
}

/// An atom belongs to a context that excludes nothing, has no window and takes all kinds. In any
/// context it does not belong to it if and only if its id is excluded, its time is outside the
/// window, or its kind is not among those that are listed.
pub proof fn law_only_the_filter_keeps_atoms_out(atom: AtomWithTags, ctx: ContextFilter)
    ensures
        ctx.excluded_atom_ids@.len() == 0 && ctx.time_window is None && ctx.kinds is All
            ==> in_context(atom, ctx),
        !in_context(atom, ctx) <==> {
            ||| exists|i: int|
                0 <= i < ctx.excluded_atom_ids@.len() && (#[trigger] ctx.excluded_atom_ids@[i])@
                    == atom.atom.id@
            ||| (ctx.time_window matches Some(TimeWindow::Before(t)) && !precedes(
                atom.atom.created_at@,
                t@,
            ))
            ||| (ctx.time_window matches Some(TimeWindow::After(t)) && !precedes(
                t@,
                atom.atom.created_at@,
            ))
            ||| (ctx.kinds matches KindFilter::Only(kinds) && forall|k: int|
                0 <= k < kinds@.len() ==> kinds@[k] != atom.atom.kind)
        },
{
    let ids = views(ctx.excluded_atom_ids@);
    if ids.contains(atom.atom.id@) {
        let i = choose|i: int| 0 <= i < ids.len() && ids[i] == atom.atom.id@;
        assert(ctx.excluded_atom_ids@[i]@ == atom.atom.id@);
    }
    if exists|i: int|
        0 <= i < ctx.excluded_atom_ids@.len() && (#[trigger] ctx.excluded_atom_ids@[i])@
            == atom.atom.id@ {
        let i = choose|i: int|
            0 <= i < ctx.excluded_atom_ids@.len() && (#[trigger] ctx.excluded_atom_ids@[i])@
                == atom.atom.id@;
        assert(ids[i] == atom.atom.id@);
    }
}

/// The hits that belong to the context and carry its tags.
pub open spec fn hits_in_context(
    hits: Seq<SearchHit>,
    ctx: ContextFilter,
    scope: Option<Vec<String>>,
) -> Seq<SearchHit> {
    hits.filter(
        |h: SearchHit|
            in_context(h.atom, ctx) && (scope matches Some(ids) ==> views(ids@).contains(
                h.atom.atom.id@,
            )),
    )
}

/// A search shows the first hits that belong to the context, as many as were asked for, or all of
/// them if there are fewer; none is left out, and they stand in the order in which they were
/// found.
pub proof fn law_search_shows_the_first_hits(
    e: Evidence,
    policy: CitationPolicy,
    ctx: ContextFilter,
    scope: Option<Vec<String>>,
    hits: Seq<SearchHit>,
    requested: nat,
)
    ensures
        ({
            let shown = shown_hits(e, policy, ctx, scope, hits, requested, hits.len()).1;
            let fit = hits_in_context(hits, ctx, scope);
            let n: int = if requested < fit.len() {
                requested as int
            } else {
                fit.len() as int
            };
            &&& shown.len() == n
            &&& shown.map_values(|s: ShownHit| s.hit) == fit.take(n)
        }),
{
    lemma_first_hits(e, policy, ctx, scope, hits, requested, hits.len());
    assert(hits.take(hits.len() as int) =~= hits);
}

proof fn lemma_first_hits(
    e: Evidence,
    policy: CitationPolicy,
    ctx: ContextFilter,
    scope: Option<Vec<String>>,
    hits: Seq<SearchHit>,
    requested: nat,
    n: nat,
)
    requires
        n <= hits.len(),
    ensures
        ({
            let shown = shown_hits(e, policy, ctx, scope, hits, requested, n).1;
            let fit = hits_in_context(hits.take(n as int), ctx, scope);
            let m: int = if requested < fit.len() {
                requested as int
            } else {
                fit.len() as int
            };
            &&& shown.len() == m
            &&& shown.map_values(|s: ShownHit| s.hit) == fit.take(m)
        }),
    decreases n,
{
    reveal(Seq::filter);
    if n > 0 {
        let k = (n - 1) as nat;
        lemma_first_hits(e, policy, ctx, scope, hits, requested, k);
        assert(hits.take(n as int).drop_last() =~= hits.take(k as int));
        let before = shown_hits(e, policy, ctx, scope, hits, requested, k).1;
        let shown = shown_hits(e, policy, ctx, scope, hits, requested, n).1;
        let fit0 = hits_in_context(hits.take(k as int), ctx, scope);
        let fit = hits_in_context(hits.take(n as int), ctx, scope);
        let hit = hits[n - 1];
        assert(hits.take(n as int).last() == hit);
        let hit_of = |s: ShownHit| s.hit;
        if fit.len() == fit0.len() {
            assert(shown == before);
        } else {
            assert(fit == fit0.push(hit));
            if before.len() >= requested {
                assert(shown == before);
                assert(fit0.take(requested as int) =~= fit.take(requested as int));
            } else {
                assert(fit0.take(fit0.len() as int) =~= fit0);
                assert(shown.drop_last() =~= before);
                assert(shown.map_values(hit_of) =~= before.map_values(hit_of).push(hit));
                assert(fit.take(fit.len() as int) =~= fit);
            }
        }
    } else {
        let fit = hits_in_context(hits.take(0), ctx, scope);
        assert(fit =~= Seq::empty());
        assert(fit.take(0) =~= Seq::empty());
    }
}

/// Whether some evidence has the number.
pub open spec fn is_given(e: Evidence, k: int) -> bool {
    exists|id: Seq<char>| #[trigger] e.cited.contains_key(id) && e.cited[id].number == k
}

/// What a search shows is what may be cited. Where context may be cited every shown hit has a
/// number, under which the evidence holds its atom; elsewhere a hit has a number if and only if
/// its atom was evidence before, and nothing becomes evidence. What was evidence stays as it was,
/// and only atoms that are shown are added, under the numbers that come next.
pub proof fn law_shown_hits_become_citable(
    e: Evidence,
    policy: CitationPolicy,
    ctx: ContextFilter,
    scope: Option<Vec<String>>,
    hits: Seq<SearchHit>,
    requested: nat,
    n: nat,
)
    requires
        n <= hits.len(),
        evidence_ok(e),
    ensures
        ({
            let o = shown_hits(e, policy, ctx, scope, hits, requested, n);
            &&& forall|i: int|
                #![trigger o.1[i]]
                0 <= i < o.1.len() ==> {
                    let id = o.1[i].hit.atom.atom.id@;
                    &&& policy == CitationPolicy::SourceAndContext ==> o.0.cited.contains_key(id)
                    &&& o.0.cited.contains_key(id) ==> o.1[i].number == o.0.cited[id].number
                        && o.1[i].number >= 1
                    &&& !o.0.cited.contains_key(id) ==> o.1[i].number == 0
                }
            &&& forall|id: Seq<char>| #[trigger]
                e.cited.contains_key(id) ==> o.0.cited.contains_key(id) && o.0.cited[id]
                    == e.cited[id]
            &&& forall|id: Seq<char>| #[trigger]
                o.0.cited.contains_key(id) && !e.cited.contains_key(id) ==> {
                    &&& policy == CitationPolicy::SourceAndContext
                    &&& e.next <= o.0.cited[id].number < o.0.next
                    &&& exists|i: int|
                        0 <= i < o.1.len() && (#[trigger] o.1[i]).hit.atom.atom.id@ == id
                            && o.0.cited[id].excerpt == excerpt_text(o.1[i].hit.atom)
                }
            &&& forall|k: int| e.next <= k < o.0.next ==> #[trigger] is_given(o.0, k)
            &&& e.next <= o.0.next
            &&& evidence_ok(o.0)
        }),
    decreases n,
{
    if n > 0 {
        law_shown_hits_become_citable(e, policy, ctx, scope, hits, requested, (n - 1) as nat);
        let b = shown_hits(e, policy, ctx, scope, hits, requested, (n - 1) as nat);
        let o = shown_hits(e, policy, ctx, scope, hits, requested, n);
        let hit = hits[n - 1];
        if o.1.len() > b.1.len() {
            let c = cite(b.0, hit.atom, policy);
            law_numbers_are_kept(b.0, hit.atom, policy);
            let me = hit.atom.atom.id@;
            let last = b.1.len() as int;
            assert(o.0 == c.0);
            assert forall|i: int| #![trigger o.1[i]] 0 <= i < o.1.len() implies {
                let id = o.1[i].hit.atom.atom.id@;
                &&& policy == CitationPolicy::SourceAndContext ==> o.0.cited.contains_key(id)
                &&& o.0.cited.contains_key(id) ==> o.1[i].number == o.0.cited[id].number
                    && o.1[i].number >= 1
                &&& !o.0.cited.contains_key(id) ==> o.1[i].number == 0
            } by {
                let id = o.1[i].hit.atom.atom.id@;
                if i < last {
                    assert(o.1[i] == b.1[i]);
                    if b.0.cited.contains_key(id) {
                        assert(o.0.cited[id] == b.0.cited[id]);
                    }
                } else {
                    assert(o.1[i].hit == hit);
                    if o.0.cited.contains_key(id) {
                        assert(o.1[i].number == o.0.cited[id].number);
                    }
                }
            }
            assert forall|id: Seq<char>| #[trigger]
                o.0.cited.contains_key(id) && !e.cited.contains_key(id) implies {
                &&& policy == CitationPolicy::SourceAndContext
                &&& e.next <= o.0.cited[id].number < o.0.next
                &&& exists|i: int|
                    0 <= i < o.1.len() && (#[trigger] o.1[i]).hit.atom.atom.id@ == id
                        && o.0.cited[id].excerpt == excerpt_text(o.1[i].hit.atom)
            } by {
                if b.0.cited.contains_key(id) {
                    let i = choose|i: int|
                        0 <= i < b.1.len() && (#[trigger] b.1[i]).hit.atom.atom.id@ == id
                            && b.0.cited[id].excerpt == excerpt_text(b.1[i].hit.atom);
                    assert(o.1[i] == b.1[i]);
                } else {
                    assert(id == me);
                    assert(o.1[last].hit.atom.atom.id@ == id);
                }
            }
            assert forall|k: int| e.next <= k < o.0.next implies #[trigger] is_given(o.0, k) by {
                if k < b.0.next {
                    assert(is_given(b.0, k));
                    let id = choose|id: Seq<char>| #[trigger]
                        b.0.cited.contains_key(id) && b.0.cited[id].number == k;
                    assert(o.0.cited.contains_key(id));
                } else {
                    assert(o.0.cited.contains_key(me));
                }
            }
        } else {
            assert(o == b);
        }
    }
}

/// An atom that a search brings up for the first time, where context may be cited, is evidence from
/// then on, under the number that comes next and with its excerpt, and no other atom is touched.
pub proof fn law_new_context_gets_the_next_number(e: Evidence, atom: AtomWithTags)
    requires
        !e.cited.contains_key(atom.atom.id@),
    ensures
        ({
            let o = cite(e, atom, CitationPolicy::SourceAndContext);
            &&& o.1 == Some(e.next)
            &&& o.0.next == e.next + 1
            &&& o.0.cited.contains_key(atom.atom.id@)
            &&& o.0.cited[atom.atom.id@].number == e.next
            &&& o.0.cited[atom.atom.id@].atom_id == atom.atom.id@
            &&& o.0.cited[atom.atom.id@].excerpt == excerpt_text(atom)
            &&& o.0.cited.remove(atom.atom.id@) == e.cited
        }),
{
    let o = cite(e, atom, CitationPolicy::SourceAndContext);
    assert(o.0.cited.remove(atom.atom.id@) =~= e.cited);
}

/// The evidence that source atoms make is of those atoms alone: each holds the id and the excerpt
/// of one of them, under its place in the list.
pub proof fn law_source_evidence_is_of_the_source(source: Seq<AtomWithTags>, id: Seq<char>)
    ensures
        source_evidence(source, source.len()).contains_key(id) <==> exists|i: int|
            0 <= i < source.len() && (#[trigger] source[i]).atom.id@ == id,
        source_evidence(source, source.len()).contains_key(id) ==> exists|i: int|
            0 <= i < source.len() && (#[trigger] source[i]).atom.id@ == id && source_evidence(
                source,
                source.len(),
            )[id] == (CitableView {
                number: i + 1,
                atom_id: source[i].atom.id@,
                excerpt: excerpt_text(source[i]),
            }),
{
    lemma_evidence_of_source(source, source.len(), id);
    lemma_source_evidence(source, source.len());
}

proof fn lemma_evidence_of_source(source: Seq<AtomWithTags>, n: nat, id: Seq<char>)
    requires
        n <= source.len(),
    ensures
        source_evidence(source, n).contains_key(id) ==> exists|i: int|
            0 <= i < n && (#[trigger] source[i]).atom.id@ == id && source_evidence(source, n)[id]
                == (CitableView {
                number: i + 1,
                atom_id: source[i].atom.id@,
                excerpt: excerpt_text(source[i]),
            }),
    decreases n,
{
    if n > 0 {
        lemma_evidence_of_source(source, (n - 1) as nat, id);
        if source[n - 1].atom.id@ == id {
            assert(source[n - 1].atom.id@ == id);
        } else if source_evidence(source, n).contains_key(id) {
            let i = choose|i: int|
                0 <= i < n - 1 && (#[trigger] source[i]).atom.id@ == id && source_evidence(
                    source,
                    (n - 1) as nat,
                )[id] == (CitableView {
                    number: i + 1,
                    atom_id: source[i].atom.id@,
                    excerpt: excerpt_text(source[i]),
                });
            assert(source[i].atom.id@ == id);
        }
    }
}

/// The answer of a search holds the entry of every hit that is shown, in order and nothing else;
/// only if there is none does it say so.
pub proof fn law_search_reply_lists_what_is_shown(a: Seq<ShownHit>, h: ShownHit)
    ensures
        search_reply(Seq::empty()) == "No results in context scope."@,
        search_reply(seq![h]) == hit_text(h),
        a.len() > 0 ==> search_reply(a.push(h)) == search_reply(a) + hit_text(h),
{
    let b = a.push(h);
    lemma_hit_texts_prefix(a, b, a.len());
    assert(hit_texts(b, b.len()) == hit_texts(b, a.len()) + hit_text(h));
    let one = seq![h];
    reveal_with_fuel(hit_texts, 2);
    assert(hit_texts(one, 1) =~= hit_text(h));
}

/// The entry of a hit begins with its number in brackets if it has one, and with the note that it
/// may not be cited if it has none; then come its title, and, twice, a snippet that has no line
/// feed and is the beginning of what was found, with the id and the score between.
pub proof fn law_hit_is_told(h: ShownHit)
    ensures
        ({
            let found = on_one_line(h.hit.matching_chunk_content@);
            let head = if h.number > 0 {
                seq!['['] + signed_decimal(h.number) + "] citable. "@
            } else {
                "(context only, not citable). "@
            };
            let title = if h.hit.atom.atom.title@.len() == 0 {
                "(untitled)"@
            } else {
                h.hit.atom.atom.title@
            };
            exists|snippet: Seq<char>|
                #![trigger truncated_to(found, snippet)]
                truncated_to(found, snippet) && hit_text(h) == head + title + "\n   "@ + snippet
                    + "\n   (atom id: "@ + h.hit.atom.atom.id@ + ", score: "@ + h.hit.score@
                    + ")\n   "@ + snippet + "\n\n"@
        }),
{
    let found = on_one_line(h.hit.matching_chunk_content@);
    let snippet = truncated(found, 200);
    let k = crate::text::law_cut_texts_reach_the_limit(found, 200);
    assert(truncated_to(found, snippet)) by {
        if crate::text::byte_len(found) > 200 {
            assert(found.take(k).is_prefix_of(found));
        }
    }
    reveal_strlit("[");
    reveal_strlit("] citable");
    reveal_strlit("] citable. ");
    reveal_strlit(". ");
    reveal_strlit("(context only, not citable)");
    reveal_strlit("(context only, not citable). ");
    assert("["@ =~= seq!['[']);
    let head = if h.number > 0 {
        seq!['['] + signed_decimal(h.number) + "] citable. "@
    } else {
        "(context only, not citable). "@
    };
    if h.number > 0 {
        assert("] citable"@ + ". "@ =~= "] citable. "@);
        assert(("["@ + signed_decimal(h.number) + "] citable"@) + ". "@ =~= head);
    } else {
        assert("(context only, not citable)"@ + ". "@ =~= head);
    }
}

/// Whether a text is what is shown of another: the text itself if it has at most two hundred
/// bytes, else a beginning of it with at least as many, and three dots.
pub open spec fn truncated_to(text: Seq<char>, shown: Seq<char>) -> bool {
    if crate::text::byte_len(text) <= 200 {
        shown == text
    } else {
        exists|k: int|
            0 <= k <= text.len() && shown == #[trigger] text.take(k) + seq!['.', '.', '.']
                && crate::text::byte_len(text.take(k)) >= 200 && (k > 0 ==> crate::text::byte_len(
                text.take(k - 1),
            ) < 200)
    }
}

} // verus!
