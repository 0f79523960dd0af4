//! What the writer of a report is told.

use super::report::{CitationPolicy, Report};
use crate::atoms::AtomWithTags;
use crate::text::{
    decimal, decimal_of, line_feeds_to_blanks, on_one_line, signed_decimal, signed_decimal_of,
    trim, trimmed, truncate_on_char_boundary, truncated,
};
use vstd::prelude::*;

verus! {

/// The length of a snippet in a prompt or in the answer of a tool, in bytes.
pub const SNIPPET_LEN: usize = 200;

/// The length of an excerpt that is kept with a citation, in bytes.
pub const EXCERPT_LEN: usize = 300;

/// The text of an atom that snippets are taken from: its own snippet, or its content if it has
/// none.
pub open spec fn quoted_text(atom: AtomWithTags) -> Seq<char> {
    if atom.atom.snippet@.len() > 0 {
        atom.atom.snippet@
    } else {
        atom.atom.content@
    }
}

/// The snippet of an atom: one line, trimmed and cut.
pub open spec fn snippet_text(atom: AtomWithTags) -> Seq<char> {
    truncated(trimmed(on_one_line(quoted_text(atom))), 200)
}

/// The excerpt of an atom: trimmed and cut.
pub open spec fn excerpt_text(atom: AtomWithTags) -> Seq<char> {
    truncated(trimmed(quoted_text(atom)), 300)
}

/// The snippet of an atom.
pub fn snippet_for(atom: &AtomWithTags) -> (r: String)
    ensures
        r@ == snippet_text(*atom),
{
    let src = if !atom.atom.snippet.as_str().is_empty() {
        atom.atom.snippet.as_str()
    } else {
        atom.atom.content.as_str()
    };
    let cleaned = line_feeds_to_blanks(src);
    truncate_on_char_boundary(trim(cleaned.as_str()).as_str(), SNIPPET_LEN)
}

/// The excerpt of an atom.
pub fn excerpt_for(atom: &AtomWithTags) -> (r: String)
    ensures
        r@ == excerpt_text(*atom),
{
    let src = if !atom.atom.snippet.as_str().is_empty() {
        atom.atom.snippet.as_str()
    } else {
        atom.atom.content.as_str()
    };
    truncate_on_char_boundary(trim(src).as_str(), EXCERPT_LEN)
}

/// The title by which an atom is shown.
pub open spec fn shown_title(title: Seq<char>) -> Seq<char> {
    if title.len() == 0 {
        "(untitled)"@
    } else {
        title
    }
}

/// The title by which an atom is shown.
pub fn title_for(title: &str) -> (r: String)
    ensures
        r@ == shown_title(title@),
{
    if title.is_empty() {
        "(untitled)".to_owned()
    } else {
        title.to_owned()
    }
}

/// The reminder to cite.
pub open spec fn citation_reminder(policy: CitationPolicy) -> Seq<char> {
    match policy {
        CitationPolicy::SourceOnly => {
            "Cite source atoms with [N] inline markers using the bracketed numbers from the source list below.\n\n"@
        },
        CitationPolicy::SourceAndContext => {
            "Cite with [N] inline markers — numbers come from the source list below and from semantic_search results as they are surfaced.\n\n"@
        },
    }
}

/// The policy, spelled out.
pub open spec fn policy_text(policy: CitationPolicy) -> Seq<char> {
    match policy {
        CitationPolicy::SourceOnly => {
            "source_only — only the [N] above may be cited; search results are background only."@
        },
        CitationPolicy::SourceAndContext => {
            "source_and_context — search results will be assigned [N] numbers and become citable."@
        },
    }
}

/// The entry of a source atom: its number, title, snippet and id.
pub open spec fn source_entry(number: nat, atom: AtomWithTags) -> Seq<char> {
    "["@ + decimal(number) + "] "@ + shown_title(atom.atom.title@) + "\n    "@ + snippet_text(atom)
        + "\n    (atom id: "@ + atom.atom.id@ + ")\n\n"@
}

/// The entries of the first `n` source atoms, which are numbered from one on.
pub open spec fn source_entries(source: Seq<AtomWithTags>, n: nat) -> Seq<char>
    decreases n,
{
    if n == 0 {
        Seq::empty()
    } else {
        source_entries(source, (n - 1) as nat) + source_entry(n, source[n - 1])
    }
}

/// The entries of the first atoms stand before those of the others.
pub proof fn lemma_entries_in_order(source: Seq<AtomWithTags>, m: nat, n: nat)
    requires
        m <= n,
    ensures
        source_entries(source, m).is_prefix_of(source_entries(source, n)),
    decreases n,
{
    if m < n {
        lemma_entries_in_order(source, m, (n - 1) as nat);
    }
}

/// What stands before the source atoms: the research prompt and the reminder to cite.
pub open spec fn prompt_head(research_prompt: Seq<char>, policy: CitationPolicy) -> Seq<char> {
    "RESEARCH PROMPT:\n"@ + research_prompt + "\n\n"@ + citation_reminder(policy)
}

/// The headline of the source atoms: how many there are, out of how many in scope.
pub open spec fn source_headline(shown: nat, total_in_scope: int) -> Seq<char> {
    "SOURCE ATOMS ("@ + decimal(shown) + " of "@ + signed_decimal(total_in_scope)
        + " in scope):\n"@
}

/// What is said when not all atoms in scope are shown.
pub open spec fn source_notice(shown: nat, total_in_scope: int) -> Seq<char> {
    if total_in_scope < 0 || total_in_scope > shown {
        "(showing the newest within the configured cap; older atoms truncated)\n\n"@
    } else {
        Seq::empty()
    }
}

/// The prompt of a report.
pub open spec fn user_prompt(
    research_prompt: Seq<char>,
    policy: CitationPolicy,
    source: Seq<AtomWithTags>,
    total_in_scope: int,
) -> Seq<char> {
    if source.len() == 0 {
        prompt_head(research_prompt, policy)
            + "(no source atoms — this should be unreachable; the runner short-circuits empty scopes)\n"@
    } else {
        prompt_head(research_prompt, policy) + source_headline(source.len(), total_in_scope)
            + source_notice(source.len(), total_in_scope) + source_entries(source, source.len())
            + "Citation policy: "@ + policy_text(policy) + "\n"@
    }
}

fn entry_for(number: u128, atom: &AtomWithTags) -> (r: String)
    ensures
        r@ == source_entry(number as nat, *atom),
{
    let mut out = "[".to_owned();
    out.append(decimal_of(number).as_str());
    out.append("] ");
    out.append(title_for(atom.atom.title.as_str()).as_str());
    out.append("\n    ");
    out.append(snippet_for(atom).as_str());
    out.append("\n    (atom id: ");
    out.append(atom.atom.id.as_str());
    out.append(")\n\n");
    out
}

/// The prompt of a report: its research prompt, the source atoms with their numbers, and the
/// citation policy.
pub fn build_user_prompt(report: &Report, source: &[AtomWithTags], total_in_scope: i32) -> (r:
    String)
    ensures
        r@ == user_prompt(
            report.research_prompt@,
            report.citation_policy,
            source@,
            total_in_scope as int,
        ),
{
    let mut out = "RESEARCH PROMPT:\n".to_owned();
    out.append(report.research_prompt.as_str());
    out.append("\n\n");
    match report.citation_policy {
        CitationPolicy::SourceOnly => out.append(
            "Cite source atoms with [N] inline markers using the bracketed numbers from the source list below.\n\n",
        ),
        CitationPolicy::SourceAndContext => out.append(
            "Cite with [N] inline markers — numbers come from the source list below and from semantic_search results as they are surfaced.\n\n",
        ),
    }
    if source.len() == 0 {
        out.append(
            "(no source atoms — this should be unreachable; the runner short-circuits empty scopes)\n",
        );
        return out;
    }
    let ghost head = prompt_head(report.research_prompt@, report.citation_policy);
    assert(out@ == head);
    let mut line = "SOURCE ATOMS (".to_owned();
    line.append(decimal_of(source.len() as u128).as_str());
    line.append(" of ");
    line.append(signed_decimal_of(total_in_scope as i64).as_str());
    line.append(" in scope):\n");
    out.append(line.as_str());
    let ghost base = out@;
    if total_in_scope < 0 || total_in_scope as u128 > source.len() as u128 {
        out.append("(showing the newest within the configured cap; older atoms truncated)\n\n");
    } else {
        assert(base + Seq::<char>::empty() =~= base);
    }
    let ghost top = out@;
    let mut i: usize = 0;
    assert(top + Seq::<char>::empty() =~= top);
    while i < source.len()
        invariant
            i <= source@.len(),
            out@ == top + source_entries(source@, i as nat),
        decreases source@.len() - i,
    {
        let ghost before = source_entries(source@, i as nat);
        let entry = entry_for(i as u128 + 1, &source[i]);
        out.append(entry.as_str());
        assert((top + before) + entry@ =~= top + (before + entry@));
        i = i + 1;
    }
    out.append("Citation policy: ");
    match report.citation_policy {
        CitationPolicy::SourceOnly => out.append(
            "source_only — only the [N] above may be cited; search results are background only.",
        ),
        CitationPolicy::SourceAndContext => out.append(
            "source_and_context — search results will be assigned [N] numbers and become citable.",
        ),
    }
    out.append("\n");
    out
}

/// What the writer of a report is told first.
pub const SYSTEM_PROMPT: &'static str = "You are running a scheduled research report over a personal knowledge base.

You will receive a numbered list of source atoms (your primary evidence) and a research prompt describing what to investigate. You may use the provided tools to read individual atoms in full and to search the broader corpus for context.

Tools:
- read_atom(atom_id, limit?, offset?): Read a window of lines from an atom's markdown.
- semantic_search(query, limit): Search the configured context corpus. Returns titles and snippets. Each result has a citation number — for `source_only` reports these numbers are not citable; for `source_and_context` reports they are. The tool response will tell you which.
- done(): Signal that you have enough material and will now write the report.

Citation conventions:
- Cite using [N] inline markers. The N refers to the numbered position in the source list (and, under source_and_context, the numbers assigned to search results as they are surfaced).
- Do not invent citation numbers. Only cite atoms you actually saw via the source list or a tool response.
- Skip atoms that aren't relevant. Length should match what the research prompt asks for.

Call done() before writing the final report.

---
Report-specific instructions follow.";

/// What the writer of a report is told last.
pub const FINAL_PROMPT: &'static str = "Now write the final report. Respond with a JSON object matching the report_generation_result schema: set `finding_content` to markdown prose with [N] citation markers, and `citations_used` to the list of numbers you referenced. Do not call tools.";

/// Snippets and excerpts are taken from an atom's own snippet, and from its content only if it has
/// none. A snippet is on one line and has two hundred bytes, an excerpt three hundred, give or
/// take the character that crosses the limit.
pub proof fn law_snippets_are_of_the_atom(atom: &AtomWithTags, snippet: String, excerpt: String)
    requires
        call_ensures(snippet_for, (atom,), snippet),
        call_ensures(excerpt_for, (atom,), excerpt),
    ensures
        atom.atom.snippet@.len() > 0 ==> snippet@ == truncated(
            trimmed(on_one_line(atom.atom.snippet@)),
            200,
        ) && excerpt@ == truncated(trimmed(atom.atom.snippet@), 300),
        atom.atom.snippet@.len() == 0 ==> snippet@ == truncated(
            trimmed(on_one_line(atom.atom.content@)),
            200,
        ) && excerpt@ == truncated(trimmed(atom.atom.content@), 300),
{
}

/// An atom is shown by its title, if it has one.
pub proof fn law_titles_are_shown(title: &str, r: String)
    requires
        call_ensures(title_for, (title,), r),
    ensures
        title@.len() > 0 ==> r@ == title@,
        title@.len() == 0 ==> r@ == "(untitled)"@,
{
}

/// The entries of a list are those of its beginning followed by one for each atom behind it, under
/// the next number, with title, snippet and id.
pub proof fn law_every_source_has_an_entry(source: Seq<AtomWithTags>, atom: AtomWithTags)
    ensures
        source_entries(source.push(atom), source.len() + 1) == source_entries(source, source.len())
            + ("["@ + decimal(source.len() + 1) + "] "@ + shown_title(atom.atom.title@) + "\n    "@
            + snippet_text(atom) + "\n    (atom id: "@ + atom.atom.id@ + ")\n\n"@),
        source_entries(Seq::empty(), 0).len() == 0,
{
    lemma_same_entries(source, source.push(atom), source.len());
}

proof fn lemma_same_entries(a: Seq<AtomWithTags>, b: Seq<AtomWithTags>, n: nat)
    requires
        forall|i: int| 0 <= i < n ==> a[i] == b[i],
    ensures
        source_entries(a, n) == source_entries(b, n),
    decreases n,
{
    if n > 0 {
        lemma_same_entries(a, b, (n - 1) as nat);
        assert(a[n - 1] == b[n - 1]);
    }
}

/// The prompt begins with what is to be investigated, says how many of the atoms in scope are
/// listed, and that there are older ones if and only if there are more than these; then come the
/// entries, and it ends with the policy.
pub proof fn law_prompts_tell_the_report(
    report: &Report,
    source: &[AtomWithTags],
    total_in_scope: i32,
    r: String,
)
    requires
        call_ensures(build_user_prompt, (report, source, total_in_scope), r),
        source@.len() > 0,
        total_in_scope >= 0,
    ensures
        ("RESEARCH PROMPT:\n"@ + report.research_prompt@ + "\n\n"@).is_prefix_of(r@),
        r@ == "RESEARCH PROMPT:\n"@ + report.research_prompt@ + "\n\n"@ + citation_reminder(
            report.citation_policy,
        ) + ("SOURCE ATOMS ("@ + decimal(source@.len()) + " of "@ + decimal(total_in_scope as nat)
            + " in scope):\n"@) + (if total_in_scope > source@.len() {
            "(showing the newest within the configured cap; older atoms truncated)\n\n"@
        } else {
            Seq::empty()
        }) + source_entries(source@, source@.len()) + "Citation policy: "@ + (
        if report.citation_policy == CitationPolicy::SourceOnly {
            "source_only — only the [N] above may be cited; search results are background only."@
        } else {
            "source_and_context — search results will be assigned [N] numbers and become citable."@
        }) + "\n"@,
{
    let start = "RESEARCH PROMPT:\n"@ + report.research_prompt@ + "\n\n"@;
    let reminder = citation_reminder(report.citation_policy);
    let rest = source_headline(source@.len(), total_in_scope as int) + source_notice(
        source@.len(),
        total_in_scope as int,
    ) + source_entries(source@, source@.len()) + "Citation policy: "@ + policy_text(
        report.citation_policy,
    ) + "\n"@;
    assert(r@ =~= start + (reminder + rest));
}

} // verus!
