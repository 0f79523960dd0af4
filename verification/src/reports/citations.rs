//! Citations: from the markers in a finding to the evidence that they name.

use super::evidence::{
    citable_of, cited_view, evidence_ok, law_source_atoms_are_numbered, source_evidence, Citable,
    CitableView, Evidence,
};
use super::prompt::{
    lemma_entries_in_order, prompt_head, source_entries, source_entry, source_headline,
    source_notice, user_prompt,
};
use super::report::CitationPolicy;
use crate::atoms::AtomWithTags;
use crate::strmap::StrMap;
use crate::text::{
    all_digits, chars_of, decimal, digits_value, is_digit, law_written_numbers_are_read_back,
    parse_unsigned, views,
};
use vstd::prelude::*;

verus! {

/// A citation: the number of its marker, and the evidence that this names.
#[derive(Debug, Clone)]
pub struct ResolvedCitation {
    pub position: i32,
    pub cited_atom_id: String,
    pub excerpt: String,
}

/// What a citation holds.
pub struct CitationView {
    pub position: int,
    pub cited_atom_id: Seq<char>,
    pub excerpt: Seq<char>,
}

impl View for ResolvedCitation {
    type V = CitationView;

    open spec fn view(&self) -> CitationView {
        CitationView {
            position: self.position as int,
            cited_atom_id: self.cited_atom_id@,
            excerpt: self.excerpt@,
        }
    }
}

/// What a report came to.
#[derive(Debug)]
pub struct RunOutput {
    /// The prose, with `[N]` citation markers.
    pub content: String,
    /// The citations, in the order in which their markers first stand in the prose.
    pub citations: Vec<ResolvedCitation>,
}

/// What a marker looks like: a number in brackets.
pub const CITATION_PATTERN: &'static str = "\\[(\\d+)\\]";

/// How many digits begin a text.
pub open spec fn digit_run(s: Seq<char>) -> nat
    decreases s.len(),
{
    if s.len() > 0 && is_digit(s[0]) {
        1 + digit_run(s.drop_first())
    } else {
        0
    }
}

/// The digits of the marker that begins a text, if one does: digits, at least one, in brackets.
pub open spec fn marker_at(s: Seq<char>) -> Option<Seq<char>> {
    let n = digit_run(s.drop_first());
    if s.len() > 0 && s[0] == '[' && n > 0 && n + 1 < s.len() && s[n as int + 1] == ']' {
        Some(s.subrange(1, n as int + 1))
    } else {
        None
    }
}

/// The digits of the markers in a text, in order.
pub open spec fn markers(s: Seq<char>) -> Seq<Seq<char>>
    decreases s.len(),
{
    if s.len() == 0 {
        Seq::empty()
    } else {
        match marker_at(s) {
            Some(digits) => seq![digits] + markers(s.drop_first()),
            None => markers(s.drop_first()),
        }
    }
}

/// What stands between the brackets wherever the pattern of a marker matches: the first captures
/// of `regex::Regex::captures_iter`. The pattern compiles. It matches digits of every script;
/// those of its captures that are made of ASCII digits alone are the markers of the text. Of the
/// others nothing is claimed.
#[verifier::external_body]
fn capture_first(pattern: &str, text: &str) -> (r: Option<Vec<String>>)
    requires
        pattern@ == CITATION_PATTERN@,
    ensures
        r is Some,
        views(r->0@).filter(|g: Seq<char>| all_digits(g)) == markers(text@),
{
    match regex::Regex::new(pattern) {
        Ok(re) => Some(re.captures_iter(text).map(|c| c[1].to_string()).collect()),
        Err(_) => None,
    }
}

/// The number that digits write, if it is one of 32 bits.
pub open spec fn marker_number(digits: Seq<char>) -> Option<int> {
    if digits.len() > 0 && all_digits(digits) && digits_value(digits) <= i32::MAX {
        Some(digits_value(digits) as int)
    } else {
        None
    }
}

/// The evidence with a number, if there is any.
pub open spec fn evidence_numbered(cited: Map<Seq<char>, CitableView>, n: int) -> Option<
    CitableView,
> {
    if exists|id: Seq<char>| #[trigger] cited.contains_key(id) && cited[id].number == n {
        Some(cited[choose|id: Seq<char>| #[trigger] cited.contains_key(id) && cited[id].number == n])
    } else {
        None
    }
}

/// Whether no two pieces of evidence have the same number.
pub open spec fn numbers_distinct(cited: Map<Seq<char>, CitableView>) -> bool {
    forall|a: Seq<char>, b: Seq<char>|
        #![trigger cited.contains_key(a), cited.contains_key(b)]
        cited.contains_key(a) && cited.contains_key(b) && a != b ==> cited[a].number
            != cited[b].number
}

/// Whether a number is cited.
pub open spec fn is_cited(list: Seq<CitationView>, n: int) -> bool {
    exists|i: int| 0 <= i < list.len() && (#[trigger] list[i]).position == n
}

/// The citations that markers make: each number once, where it first stands, and only if there
/// is evidence with it.
pub open spec fn citations(groups: Seq<Seq<char>>, cited: Map<Seq<char>, CitableView>) -> Seq<
    CitationView,
>
    decreases groups.len(),
{
    if groups.len() == 0 {
        Seq::empty()
    } else {
        let before = citations(groups.drop_last(), cited);
        match marker_number(groups.last()) {
            Some(n) => match evidence_numbered(cited, n) {
                Some(c) => if is_cited(before, n) {
                    before
                } else {
                    before.push(
                        CitationView {
                            position: n,
                            cited_atom_id: c.atom_id,
                            excerpt: c.excerpt,
                        },
                    )
                },
                None => before,
            },
            None => before,
        }
    }
}

proof fn lemma_only_digits_count(groups: Seq<Seq<char>>, cited: Map<Seq<char>, CitableView>)
    ensures
        citations(groups, cited) == citations(
            groups.filter(|g: Seq<char>| all_digits(g)),
            cited,
        ),
    decreases groups.len(),
{
    let p = |g: Seq<char>| all_digits(g);
    reveal(Seq::filter);
    if groups.len() > 0 {
        let d = groups.drop_last();
        lemma_only_digits_count(d, cited);
        if p(groups.last()) {
            assert(groups.filter(p) == d.filter(p).push(groups.last()));
            assert(d.filter(p).push(groups.last()).drop_last() =~= d.filter(p));
        }
    }
}

fn number_of(digits: &str) -> (r: Option<i32>)
    ensures
        (match r {
            Some(n) => Some(n as int),
            None => None,
        }) == marker_number(digits@),
{
    let cs = chars_of(digits);
    let mut i: usize = 0;
    while i < cs.len()
        invariant
            i <= cs@.len(),
            cs@ == digits@,
            forall|j: int| 0 <= j < i ==> is_digit(#[trigger] cs@[j]),
        decreases cs@.len() - i,
    {
        let c = cs[i];
        if !('0' <= c && c <= '9') {
            assert(!is_digit(cs@[i as int]));
            return None;
        }
        i = i + 1;
    }
    assert(all_digits(digits@));
    assert(digits@.len() > 0 ==> is_digit(digits@[0]));
    match parse_unsigned(digits, i32::MAX as u64) {
        Some(n) => Some(n as i32),
        None => None,
    }
}

fn find_numbered(citables: &StrMap<Citable>, n: i32) -> (r: Option<ResolvedCitation>)
    requires
        numbers_distinct(cited_view(citables@)),
    ensures
        (match r {
            Some(c) => Some(c@),
            None => None,
        }) == match evidence_numbered(cited_view(citables@), n as int) {
            Some(c) => Some(
                CitationView {
                    position: n as int,
                    cited_atom_id: c.atom_id,
                    excerpt: c.excerpt,
                },
            ),
            None => None,
        },
{
    let ghost cited = cited_view(citables@);
    let total: usize = citables.len();
    let ghost keys = citables.keys();
    let mut i: usize = 0;
    while i < total
        invariant
            i <= total == keys.len(),
            keys == citables.keys(),
            cited == cited_view(citables@),
            numbers_distinct(cited),
            forall|k: Seq<char>| #[trigger] citables@.contains_key(k) <==> keys.contains(k),
            forall|j: int| 0 <= j < i ==> cited[#[trigger] keys[j]].number != n,
        decreases total - i,
    {
        let (key, c) = citables.entry(i);
        assert(cited.contains_key(key@));
        assert(cited[key@] == c@);
        if c.number == n {
            proof {
                let id = choose|id: Seq<char>| #[trigger]
                    cited.contains_key(id) && cited[id].number == n;
                assert(cited.contains_key(id) && cited[id].number == n);
                assert(id == key@);
            }
            return Some(
                ResolvedCitation {
                    position: n,
                    cited_atom_id: c.atom_id.clone(),
                    excerpt: c.excerpt.clone(),
                },
            );
        }
        i = i + 1;
    }
    proof {
        assert forall|id: Seq<char>| #[trigger] cited.contains_key(id) implies cited[id].number
            != n by {
            assert(citables@.contains_key(id));
            let j = choose|j: int| 0 <= j < keys.len() && keys[j] == id;
            assert(cited[keys[j]].number != n);
        }
    }
    None
}

/// What citations hold.
pub open spec fn citation_views(list: Seq<ResolvedCitation>) -> Seq<CitationView> {
    list.map_values(|c: ResolvedCitation| c@)
}

/// The citations that markers make, given what stands between their brackets.
pub fn resolve_markers(groups: &Vec<String>, citables: &StrMap<Citable>) -> (r: Vec<
    ResolvedCitation,
>)
    requires
        numbers_distinct(cited_view(citables@)),
    ensures
        citation_views(r@) == citations(views(groups@), cited_view(citables@)),
{
    let ghost all = views(groups@);
    let ghost cited = cited_view(citables@);
    let mut out: Vec<ResolvedCitation> = Vec::new();
    let mut i: usize = 0;
    assert(citation_views(out@) =~= Seq::empty());
    while i < groups.len()
        invariant
            i <= groups@.len(),
            all == views(groups@),
            cited == cited_view(citables@),
            numbers_distinct(cited),
            citation_views(out@) == citations(all.take(i as int), cited),
        decreases groups@.len() - i,
    {
        let ghost before = citation_views(out@);
        assert(all.take(i + 1).drop_last() =~= all.take(i as int));
        assert(all.take(i + 1).last() == groups@[i as int]@);
        match number_of(groups[i].as_str()) {
            Some(n) => match find_numbered(citables, n) {
                Some(c) => {
                    let mut seen: bool = false;
                    let mut k: usize = 0;
                    while k < out.len()
                        invariant
                            k <= out@.len(),
                            before == citation_views(out@),
                            seen ==> is_cited(before, n as int),
                            !seen ==> forall|j: int|
                                0 <= j < k ==> (#[trigger] before[j]).position != n,
                        decreases out@.len() - k,
                    {
                        if out[k].position == n {
                            assert(before[k as int].position == n);
                            seen = true;
                        }
                        k = k + 1;
                    }
                    if !seen {
                        let ghost cv = c@;
                        out.push(c);
                        assert(citation_views(out@) =~= before.push(cv));
                    }
                },
                None => {},
            },
            None => {},
        }
        i = i + 1;
    }
    assert(all.take(i as int) =~= all);
    out
}

/// The citations of a finding: each of its markers is resolved to the evidence with its number.
/// Markers whose number no evidence has are dropped, and repeated ones count once.
pub fn extract_citations(content: &str, citables: &StrMap<Citable>) -> (r: Vec<ResolvedCitation>)
    requires
        numbers_distinct(cited_view(citables@)),
    ensures
        citation_views(r@) == citations(markers(content@), cited_view(citables@)),
{
    match capture_first(CITATION_PATTERN, content) {
        Some(groups) => {
            proof {
                lemma_only_digits_count(views(groups@), cited_view(citables@));
            }
            resolve_markers(&groups, citables)
        },
        None => Vec::new(),
    }
}

/// Whether a citation holds the evidence with its number.
pub open spec fn holds_evidence(c: CitationView, cited: Map<Seq<char>, CitableView>) -> bool {
    match evidence_numbered(cited, c.position) {
        Some(e) => e.atom_id == c.cited_atom_id && e.excerpt == c.excerpt,
        None => false,
    }
}

/// Whether citations are those of markers: no number is cited twice, and each citation holds the
/// evidence with its number; the number of a citation is that of a marker, and every marker whose
/// number evidence has is cited.
pub open spec fn match_markers(
    list: Seq<CitationView>,
    groups: Seq<Seq<char>>,
    cited: Map<Seq<char>, CitableView>,
) -> bool {
    &&& forall|i: int, j: int|
        #![trigger list[i], list[j]]
        0 <= i < j < list.len() ==> list[i].position != list[j].position
    &&& forall|i: int| 0 <= i < list.len() ==> holds_evidence(#[trigger] list[i], cited)
    &&& forall|k: int|
        0 <= k < groups.len() && marker_number(#[trigger] groups[k]) is Some && evidence_numbered(
            cited,
            marker_number(groups[k])->0,
        ) is Some ==> is_cited(list, marker_number(groups[k])->0)
    &&& forall|i: int|
        0 <= i < list.len() ==> exists|k: int|
            0 <= k < groups.len() && marker_number(#[trigger] groups[k]) == Some(
                (#[trigger] list[i]).position,
            )
}

proof fn lemma_citations(groups: Seq<Seq<char>>, cited: Map<Seq<char>, CitableView>)
    ensures
        match_markers(citations(groups, cited), groups, cited),
    decreases groups.len(),
{
    if groups.len() > 0 {
        let d = groups.drop_last();
        lemma_citations(d, cited);
        let before = citations(d, cited);
        let list = citations(groups, cited);
        assert(forall|k: int| 0 <= k < d.len() ==> d[k] == groups[k]);
        assert forall|i: int, j: int| #![trigger list[i], list[j]] 0 <= i < j < list.len() implies list[i].position
            != list[j].position by {
            assert(list[i] == before[i]);
            if j < before.len() {
                assert(list[j] == before[j]);
            } else {
                assert(!is_cited(before, list[j].position));
            }
        }
        assert forall|k: int|
            0 <= k < groups.len() && marker_number(#[trigger] groups[k]) is Some
                && evidence_numbered(cited, marker_number(groups[k])->0) is Some implies is_cited(
            list,
            marker_number(groups[k])->0,
        ) by {
            let n = marker_number(groups[k])->0;
            if k < d.len() {
                assert(d[k] == groups[k]);
                assert(is_cited(before, n));
            }
            if is_cited(before, n) {
                let i = choose|i: int| 0 <= i < before.len() && (#[trigger] before[i]).position == n;
                assert(list[i].position == n);
            } else {
                assert(list[list.len() - 1].position == n);
            }
        }
        assert forall|i: int| 0 <= i < list.len() implies exists|k: int|
            0 <= k < groups.len() && marker_number(#[trigger] groups[k]) == Some(
                (#[trigger] list[i]).position,
            ) by {
            if i < before.len() {
                assert(list[i] == before[i]);
                let k = choose|k: int|
                    0 <= k < d.len() && marker_number(#[trigger] d[k]) == Some(before[i].position);
                assert(groups[k] == d[k]);
            } else {
                assert(groups[groups.len() - 1] == groups.last());
            }
        }
    }
}

/// The citations of a finding are those of its markers: no number is cited twice, each citation
/// holds the evidence with its number, and every marker whose number evidence has is cited.
pub proof fn law_citations_match_markers(content: Seq<char>, cited: Map<Seq<char>, CitableView>)
    ensures
        match_markers(citations(markers(content), cited), markers(content), cited),
{
    lemma_citations(markers(content), cited);
}

/// Whether the marker at `k` is the first with its number.
pub open spec fn first_appears(groups: Seq<Seq<char>>, n: int, k: int) -> bool {
    &&& 0 <= k < groups.len()
    &&& marker_number(groups[k]) == Some(n)
    &&& forall|l: int| 0 <= l < k ==> marker_number(#[trigger] groups[l]) != Some(n)
}

/// Whether any marker has the number.
pub open spec fn appears(groups: Seq<Seq<char>>, n: int) -> bool {
    exists|k: int| first_appears(groups, n, k)
}

/// Citations stand in the order in which their markers first appear.
pub open spec fn in_order_of_appearance(list: Seq<CitationView>, groups: Seq<Seq<char>>) -> bool {
    &&& forall|i: int| 0 <= i < list.len() ==> appears(groups, (#[trigger] list[i]).position)
    &&& forall|i: int, j: int, a: int, b: int|
        #![trigger first_appears(groups, list[i].position, a), first_appears(groups, list[j].position, b)]
        0 <= i < j < list.len() && first_appears(groups, list[i].position, a) && first_appears(
            groups,
            list[j].position,
            b,
        ) ==> a < b
}

proof fn lemma_order_of_appearance(groups: Seq<Seq<char>>, cited: Map<Seq<char>, CitableView>)
    ensures
        in_order_of_appearance(citations(groups, cited), groups),
    decreases groups.len(),
{
    if groups.len() > 0 {
        let d = groups.drop_last();
        lemma_order_of_appearance(d, cited);
        lemma_citations(d, cited);
        let before = citations(d, cited);
        let list = citations(groups, cited);
        let last = groups.len() - 1;
        assert(forall|k: int| 0 <= k < d.len() ==> d[k] == groups[k]);
        assert forall|i: int| 0 <= i < list.len() implies appears(
            groups,
            (#[trigger] list[i]).position,
        ) by {
            let n = list[i].position;
            if i < before.len() {
                assert(list[i] == before[i]);
                assert(appears(d, before[i].position));
                let a = choose|a: int| first_appears(d, n, a);
                assert(first_appears(groups, n, a));
            } else {
                assert forall|l: int| 0 <= l < last implies marker_number(#[trigger] groups[l])
                    != Some(n) by {
                    assert(d[l] == groups[l]);
                }
                assert(first_appears(groups, n, last));
            }
        }
        assert forall|i: int, j: int, a: int, b: int|
            #![trigger first_appears(groups, list[i].position, a), first_appears(groups, list[j].position, b)]
            0 <= i < j < list.len() && first_appears(groups, list[i].position, a)
                && first_appears(groups, list[j].position, b) implies a < b by {
            assert(list[i] == before[i]);
            assert(appears(d, before[i].position));
            let c = choose|c: int| first_appears(d, before[i].position, c);
            assert(d[c] == groups[c]);
            assert(a == c) by {
                if a < c {
                    assert(d[a] == groups[a]);
                }
            }
            assert(first_appears(d, before[i].position, a));
            if j < before.len() {
                assert(list[j] == before[j]);
                assert(appears(d, before[j].position));
                let e = choose|e: int| first_appears(d, before[j].position, e);
                assert(d[e] == groups[e]);
                assert(b == e) by {
                    if b < e {
                        assert(d[b] == groups[b]);
                    }
                }
                assert(first_appears(d, before[j].position, b));
            } else if b < last {
                assert(d[b] == groups[b]);
            }
        }
    }
}

/// The citations of a finding stand in the order in which their markers first appear in it.
pub proof fn law_citations_follow_the_text(content: Seq<char>, cited: Map<Seq<char>, CitableView>)
    ensures
        in_order_of_appearance(citations(markers(content), cited), markers(content)),
{
    lemma_order_of_appearance(markers(content), cited);
}

/// Sound evidence can be cited: its numbers differ, and the number of a piece names that piece.
pub proof fn law_sound_evidence_is_found(e: Evidence, id: Seq<char>)
    requires
        evidence_ok(e),
        e.cited.contains_key(id),
    ensures
        numbers_distinct(e.cited),
        evidence_numbered(e.cited, e.cited[id].number) == Some(e.cited[id]),
{
    let n = e.cited[id].number;
    let k = choose|k: Seq<char>| #[trigger] e.cited.contains_key(k) && e.cited[k].number == n;
    assert(e.cited.contains_key(k) && e.cited[k].number == n);
    assert(k == id);
}

/// The numbers that the prompt shows are the numbers that resolve: where the ids of the source
/// atoms differ, the prompt lists each atom in its place, behind the atoms before it, under its
/// number with title, snippet and id; and the evidence from the source atoms has that atom, and no
/// other, under that number.
pub proof fn law_shown_numbers_resolve(
    research_prompt: Seq<char>,
    policy: CitationPolicy,
    source: Seq<AtomWithTags>,
    total_in_scope: int,
    i: int,
)
    requires
        0 <= i < source.len(),
        forall|a: int, b: int|
            #![trigger source[a], source[b]]
            0 <= a < b < source.len() ==> source[a].atom.id@ != source[b].atom.id@,
    ensures
        (prompt_head(research_prompt, policy) + source_headline(source.len(), total_in_scope)
            + source_notice(source.len(), total_in_scope) + source_entries(source, i as nat)
            + source_entry((i + 1) as nat, source[i])).is_prefix_of(
            user_prompt(research_prompt, policy, source, total_in_scope),
        ),
        ({
            let cited = source_evidence(source, source.len());
            let id = source[i].atom.id@;
            &&& cited.contains_key(id)
            &&& cited[id] == citable_of(source[i], i + 1)
            &&& evidence_numbered(cited, i + 1) == Some(citable_of(source[i], i + 1))
        }),
{
    let top = prompt_head(research_prompt, policy) + source_headline(source.len(), total_in_scope)
        + source_notice(source.len(), total_in_scope);
    let entries = source_entries(source, source.len());
    lemma_entries_in_order(source, (i + 1) as nat, source.len());
    assert(top + source_entries(source, i as nat) + source_entry((i + 1) as nat, source[i])
        =~= top + source_entries(source, (i + 1) as nat));
    assert((top + source_entries(source, (i + 1) as nat)).is_prefix_of(top + entries));
    law_source_atoms_are_numbered(source, i);
    law_sound_evidence_is_found(
        Evidence { cited: source_evidence(source, source.len()), next: source.len() as int + 1 },
        source[i].atom.id@,
    );
}

proof fn lemma_digit_run(s: Seq<char>)
    ensures
        digit_run(s) <= s.len(),
        forall|i: int| 0 <= i < digit_run(s) ==> is_digit(#[trigger] s[i]),
        digit_run(s) < s.len() ==> !is_digit(s[digit_run(s) as int]),
    decreases s.len(),
{
    if s.len() > 0 && is_digit(s[0]) {
        let rest = s.drop_first();
        lemma_digit_run(rest);
        assert forall|i: int| 0 <= i < digit_run(s) implies is_digit(#[trigger] s[i]) by {
            if i > 0 {
                assert(is_digit(rest[i - 1]));
            }
        }
    }
}

/// A marker is digits in brackets, at least one: a text begins with one if and only if it begins
/// so, and its digits are all of those.
pub proof fn law_markers_are_digits_in_brackets(s: Seq<char>, digits: Seq<char>)
    ensures
        marker_at(s) == Some(digits) <==> digits.len() > 0 && all_digits(digits) && (seq!['[']
            + digits + seq![']']).is_prefix_of(s),
{
    let rest = s.drop_first();
    let n = digit_run(rest) as int;
    let whole = seq!['['] + digits + seq![']'];
    if s.len() > 0 {
        lemma_digit_run(rest);
    }
    if marker_at(s) == Some(digits) {
        assert forall|i: int| 0 <= i < digits.len() implies is_digit(#[trigger] digits[i]) by {
            assert(digits[i] == rest[i]);
        }
        assert(s.subrange(0, whole.len() as int) =~= whole);
    }
    if digits.len() > 0 && all_digits(digits) && whole.is_prefix_of(s) {
        let k = digits.len() as int;
        assert(s.subrange(0, k + 2) =~= whole);
        assert(s[0] == whole[0]);
        assert forall|i: int| 0 <= i < k implies rest[i] == #[trigger] digits[i] by {
            assert(whole[i + 1] == digits[i]);
            assert(s[i + 1] == whole[i + 1]);
        }
        assert(s[k + 1] == whole[k + 1]);
        assert(rest[k] == ']');
        assert(n == k) by {
            if n < k {
                assert(rest[n] == digits[n]);
                assert(is_digit(digits[n]));
            }
            if k < n {
                assert(is_digit(rest[k]));
            }
        }
        assert(s.subrange(1, n + 1) =~= digits);
    }
}

proof fn lemma_marker_before(a: Seq<char>, t: Seq<char>)
    requires
        a.len() > 0,
        t.len() == 0 || t[0] == '[',
    ensures
        marker_at(a + t) == marker_at(a),
{
    let s = a + t;
    if t.len() == 0 {
        assert(s =~= a);
    } else {
        match marker_at(a) {
            Some(d) => {
                law_markers_are_digits_in_brackets(a, d);
                law_markers_are_digits_in_brackets(s, d);
                let whole = seq!['['] + d + seq![']'];
                assert(s.subrange(0, whole.len() as int) =~= whole) by {
                    assert(a.subrange(0, whole.len() as int) =~= whole);
                    assert forall|i: int| 0 <= i < whole.len() implies s[i] == whole[i] by {
                        assert(a.subrange(0, whole.len() as int)[i] == whole[i]);
                    }
                }
            },
            None => {
                match marker_at(s) {
                    Some(d) => {
                        law_markers_are_digits_in_brackets(s, d);
                        law_markers_are_digits_in_brackets(a, d);
                        let whole = seq!['['] + d + seq![']'];
                        assert(s.subrange(0, whole.len() as int) =~= whole);
                        if whole.len() <= a.len() {
                            assert(a.subrange(0, whole.len() as int) =~= whole) by {
                                assert forall|i: int| 0 <= i < whole.len() implies a[i]
                                    == whole[i] by {
                                    assert(s.subrange(0, whole.len() as int)[i] == s[i]);
                                }
                            }
                        } else {
                            let i = a.len() as int;
                            assert(s.subrange(0, whole.len() as int)[i] == s[i]);
                            assert(s[i] == t[0]);
                            if i <= d.len() {
                                assert(whole[i] == d[i - 1]);
                                assert(is_digit(d[i - 1]));
                            }
                        }
                    },
                    None => {},
                }
            },
        }
    }
}

/// The markers of a text are those of what stands before a bracket followed by those from the
/// bracket on; a marker that begins a text comes first, and a text without an opening bracket has
/// none.
pub proof fn law_markers_are_read_in_order(a: Seq<char>, digits: Seq<char>, b: Seq<char>, t: Seq<char>)
    requires
        digits.len() > 0,
        all_digits(digits),
        t.len() == 0 || t[0] == '[',
    ensures
        markers(a + t) == markers(a) + markers(t),
        markers(seq!['['] + digits + seq![']'] + b) == seq![digits] + markers(b),
        (forall|i: int| 0 <= i < a.len() ==> #[trigger] a[i] != '[') ==> markers(a).len() == 0,
{
    lemma_markers_add_up(a, t);
    let whole = seq!['['] + digits + seq![']'];
    let s = whole + b;
    law_markers_are_digits_in_brackets(s, digits);
    assert(s.subrange(0, whole.len() as int) =~= whole);
    assert(s.drop_first() =~= (digits + seq![']']) + b);
    assert forall|i: int| 0 <= i < (digits + seq![']']).len() implies (#[trigger] (digits + seq![
        ']',
    ])[i]) != '[' by {
        if i < digits.len() {
            assert(is_digit(digits[i]));
        }
    }
    lemma_no_markers(digits + seq![']'], b);
    if forall|i: int| 0 <= i < a.len() ==> #[trigger] a[i] != '[' {
        lemma_no_markers(a, Seq::empty());
        assert(a + Seq::<char>::empty() =~= a);
    }
}

proof fn lemma_markers_add_up(a: Seq<char>, t: Seq<char>)
    requires
        t.len() == 0 || t[0] == '[',
    ensures
        markers(a + t) == markers(a) + markers(t),
    decreases a.len(),
{
    if a.len() == 0 {
        assert(a + t =~= t);
        assert(markers(a) + markers(t) =~= markers(t));
    } else {
        lemma_marker_before(a, t);
        lemma_markers_add_up(a.drop_first(), t);
        assert((a + t).drop_first() =~= a.drop_first() + t);
        assert(markers(a + t) =~= markers(a) + markers(t));
    }
}

proof fn lemma_no_markers(a: Seq<char>, b: Seq<char>)
    requires
        forall|i: int| 0 <= i < a.len() ==> #[trigger] a[i] != '[',
    ensures
        markers(a + b) == markers(b),
    decreases a.len(),
{
    if a.len() == 0 {
        assert(a + b =~= b);
    } else {
        let rest = a.drop_first();
        assert((a + b)[0] == a[0]);
        assert((a + b).drop_first() =~= rest + b);
        assert forall|i: int| 0 <= i < rest.len() implies #[trigger] rest[i] != '[' by {
            assert(a[i + 1] != '[');
        }
        lemma_no_markers(rest, b);
    }
}

/// A marker has the number that its digits write, as far as 32 bits hold it.
pub proof fn law_markers_have_their_number(n: nat, digits: Seq<char>)
    ensures
        n <= i32::MAX ==> marker_number(decimal(n)) == Some(n as int),
        n > i32::MAX ==> marker_number(decimal(n)) is None,
        marker_number(digits) matches Some(m) ==> m == digits_value(digits),
        digits.len() > 0 && all_digits(digits) && digits_value(digits) == n ==> marker_number(digits)
            == marker_number(decimal(n)),
{
    law_written_numbers_are_read_back(n);
}

/// The evidence with a number has it, and there is some if any has it.
pub proof fn law_numbers_name_their_evidence(cited: Map<Seq<char>, CitableView>, n: int)
    ensures
        match evidence_numbered(cited, n) {
            Some(c) => c.number == n && exists|id: Seq<char>| #[trigger]
                cited.contains_key(id) && cited[id] == c,
            None => forall|id: Seq<char>| #[trigger]
                cited.contains_key(id) ==> cited[id].number != n,
        },
{
}

} // verus!
