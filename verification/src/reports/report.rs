//! What a report is.

use crate::atoms::AtomKind;
use vstd::prelude::*;

verus! {

/// What a report may cite: its source atoms alone, or what it finds while it searches too.
#[derive(Debug, Clone, Copy, PartialEq, Eq, Structural)]
pub enum CitationPolicy {
    SourceOnly,
    SourceAndContext,
}

/// Where a report may look for context.
#[derive(Debug, Clone, Copy, PartialEq, Eq, Structural)]
pub enum ContextScopeMode {
    All,
    SameAsSource,
    Explicit,
}

/// A report: what it investigates, in which atoms, and when.
#[derive(Debug, Clone)]
pub struct Report {
    pub id: String,
    pub name: String,
    pub description: Option<String>,
    pub research_prompt: String,
    pub source_scope_tag_ids: Vec<String>,
    pub source_scope_window: Option<String>,
    pub source_include_kinds: Vec<AtomKind>,
    pub context_scope_mode: ContextScopeMode,
    pub context_scope_tag_ids: Vec<String>,
    pub context_scope_window: Option<String>,
    pub context_include_kinds: Vec<AtomKind>,
    pub citation_policy: CitationPolicy,
    pub max_source_atoms: Option<i32>,
    pub max_source_tokens: Option<i32>,
    pub max_tool_iterations: Option<i32>,
    pub schedule: String,
    pub schedule_tz: Option<String>,
    pub enabled: bool,
    pub output_atom_tags: Vec<String>,
    pub last_run_at: Option<String>,
    pub last_finding_atom_id: Option<String>,
    pub last_error: Option<String>,
    pub created_at: String,
    pub updated_at: String,
}

/// Which kinds of atoms count.
#[derive(Debug, Clone)]
pub enum KindFilter {
    All,
    Only(Vec<AtomKind>),
}

impl KindFilter {
    /// The atoms of one kind.
    pub fn only(kind: AtomKind) -> (r: KindFilter)
        ensures
            r matches KindFilter::Only(kinds) && kinds@ == seq![kind],
    {
        let mut kinds: Vec<AtomKind> = Vec::new();
        kinds.push(kind);
        assert(kinds@ =~= seq![kind]);
        KindFilter::Only(kinds)
    }

    /// Whether atoms of the kind count; if no kind is listed none does.
    pub open spec fn admits(self, kind: AtomKind) -> bool {
        match self {
            KindFilter::All => true,
            KindFilter::Only(kinds) => kinds@.contains(kind),
        }
    }

    /// Whether atoms of the kind count.
    pub fn allows(&self, kind: AtomKind) -> (r: bool)
        ensures
            r == self.admits(kind),
    {
        match self {
            KindFilter::All => true,
            KindFilter::Only(kinds) => {
                let mut i: usize = 0;
                while i < kinds.len()
                    invariant
                        i <= kinds@.len(),
                        *self == KindFilter::Only(*kinds),
                        forall|j: int| 0 <= j < i ==> kinds@[j] != kind,
                    decreases kinds@.len() - i,
                {
                    if kinds[i] == kind {
                        assert(kinds@.contains(kind)) by {
                            assert(kinds@[i as int] == kind);
                        }
                        return true;
                    }
                    i = i + 1;
                }
                false
            },
        }
    }
}

/// When an atom must have been made.
#[derive(Debug, Clone)]
pub enum TimeWindow {
    Before(String),
    After(String),
}

/// What a report may draw on as context.
#[derive(Debug, Clone)]
pub struct ContextFilter {
    pub tag_ids: Vec<String>,
    pub time_window: Option<TimeWindow>,
    pub kinds: KindFilter,
    pub excluded_atom_ids: Vec<String>,
}

/// How many rounds of research a report has unless it says otherwise.
pub const DEFAULT_MAX_ITERATIONS: usize = 20;

/// How many rounds of research a report has: at least one.
pub open spec fn iteration_limit(max_tool_iterations: Option<i32>) -> int {
    match max_tool_iterations {
        Some(n) => if n < 1 {
            1
        } else {
            n as int
        },
        None => 20,
    }
}

/// How many rounds of research a report has.
pub fn max_iterations(report: &Report) -> (r: usize)
    ensures
        r == iteration_limit(report.max_tool_iterations),
        r >= 1,
{
    match report.max_tool_iterations {
        Some(n) => if n < 1 {
            1
        } else {
            n as usize
        },
        None => DEFAULT_MAX_ITERATIONS,
    }
}

/// A report has as many rounds as it says, but at least one, and twenty if it says nothing.
pub proof fn law_reports_say_their_rounds(report: &Report, r: usize)
    requires
        call_ensures(max_iterations, (report,), r),
    ensures
        report.max_tool_iterations is None ==> r == 20,
        report.max_tool_iterations matches Some(n) ==> (n >= 1 ==> r == n) && (n < 1 ==> r == 1),
{
}

/// A filter of one kind lets that kind through and no other; one of all kinds lets every kind
/// through, and one of listed kinds those that are listed.
pub proof fn law_filters_let_their_kinds_through(
    kind: AtomKind,
    one: KindFilter,
    other: AtomKind,
    listed: Vec<AtomKind>,
    by_one: bool,
    by_all: bool,
    by_list: bool,
)
    requires
        call_ensures(KindFilter::only, (kind,), one),
        call_ensures(KindFilter::allows, (&one, other), by_one),
        call_ensures(KindFilter::allows, (&KindFilter::All, other), by_all),
        call_ensures(KindFilter::allows, (&KindFilter::Only(listed), other), by_list),
    ensures
        by_one <==> other == kind,
        by_all,
        by_list <==> exists|i: int| 0 <= i < listed@.len() && #[trigger] listed@[i] == other,
{
    let kinds = one->Only_0;
    assert(kinds@[0] == kind);
    if kinds@.contains(other) {
        let i = kinds@.index_of(other);
        assert(kinds@[i] == other);
    }
}

} // verus!
