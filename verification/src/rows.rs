//! Rows of the database: how they are asked for, and what is made of them.

use crate::atoms::AtomKind;
use crate::strmap::StrMap;
use crate::tags::Tag;
use crate::text::{joined, text_eq};
use vstd::prelude::*;

verus! {

/// The columns of an atom, in the order in which they are read.
pub const ATOM_COLUMNS: &'static str = "id, content, title, snippet, source_url, source, published_at, created_at, updated_at, COALESCE(embedding_status, 'pending'), COALESCE(tagging_status, 'pending'), embedding_error, tagging_error, COALESCE(kind, 'captured')";

/// The same columns, of the table under the name `a`.
pub const ATOM_COLUMNS_A: &'static str = "a.id, a.content, a.title, a.snippet, a.source_url, a.source, a.published_at, a.created_at, a.updated_at, COALESCE(a.embedding_status, 'pending'), COALESCE(a.tagging_status, 'pending'), a.embedding_error, a.tagging_error, COALESCE(a.kind, 'captured')";

/// Question marks for so many values.
pub open spec fn question_marks(n: nat) -> Seq<Seq<char>> {
    Seq::new(n, |i: int| "?"@)
}

/// The placeholders for so many values, with commas between them.
pub fn placeholders(n: usize) -> (r: String)
    ensures
        r@ == joined(question_marks(n as nat), ","@),
{
    let mut out = String::new();
    let mut i: usize = 0;
    assert(out@ =~= joined(question_marks(0), ","@));
    while i < n
        invariant
            i <= n,
            out@ == joined(question_marks(i as nat), ","@),
        decreases n - i,
    {
        let ghost before = out@;
        let ghost q = question_marks((i + 1) as nat);
        assert(q.drop_last() =~= question_marks(i as nat));
        assert(q.last() == "?"@);
        if i > 0 {
            out.append(",");
        } else {
            assert(before =~= Seq::empty());
            assert(before + "?"@ =~= "?"@);
        }
        out.append("?");
        i = i + 1;
    }
    out
}

/// The kind that a text names: what names none is a captured atom.
pub open spec fn kind_named(text: Seq<char>) -> AtomKind {
    if text == "report"@ {
        AtomKind::Report
    } else {
        AtomKind::Captured
    }
}

/// The kind that a column holds.
pub fn kind_of(text: &str) -> (r: AtomKind)
    ensures
        r == kind_named(text@),
{
    if text_eq(text, "report") {
        AtomKind::Report
    } else {
        AtomKind::Captured
    }
}

/// The tags of the rows that belong to an atom, in the order of the rows.
pub open spec fn tags_in(rows: Seq<(String, Tag)>, id: Seq<char>) -> Seq<Tag>
    decreases rows.len(),
{
    if rows.len() == 0 {
        Seq::empty()
    } else if rows.last().0@ == id {
        tags_in(rows.drop_last(), id).push(rows.last().1)
    } else {
        tags_in(rows.drop_last(), id)
    }
}

/// The tags that a map holds for an atom.
pub open spec fn tags_at(m: Map<Seq<char>, Vec<Tag>>, id: Seq<char>) -> Seq<Tag> {
    if m.contains_key(id) {
        m[id]@
    } else {
        Seq::empty()
    }
}

/// The tags of the rows, by the atoms that they belong to.
pub fn group_tags(rows: Vec<(String, Tag)>) -> (r: StrMap<Vec<Tag>>)
    ensures
        forall|id: Seq<char>| #[trigger] tags_at(r@, id) == tags_in(rows@, id),
        forall|id: Seq<char>| #[trigger] r@.contains_key(id) ==> tags_in(rows@, id).len() > 0,
{
    let ghost all = rows@;
    let mut r: StrMap<Vec<Tag>> = StrMap::new();
    for row in it: rows.into_iter()
        invariant
            it.seq() == all,
            forall|id: Seq<char>| #[trigger]
                tags_at(r@, id) == tags_in(all.take(it.index() as int), id),
            forall|id: Seq<char>| #[trigger]
                r@.contains_key(id) ==> tags_in(all.take(it.index() as int), id).len() > 0,
    {
        let ghost before = r@;
        let ghost seen = all.take(it.index() as int);
        let ghost now = all.take(it.index() + 1);
        assert(now.drop_last() =~= seen);
        let (atom_id, tag) = row;
        let ghost key = atom_id@;
        assert(now.last() == (atom_id, tag));
        let mut list = match r.remove(atom_id.as_str()) {
            Some(v) => v,
            None => Vec::new(),
        };
        assert(list@ =~= tags_at(before, key));
        list.push(tag);
        r.insert(atom_id, list);
        proof {
            assert forall|id: Seq<char>| #[trigger] tags_at(r@, id) == tags_in(now, id) by {
                assert(tags_at(before, id) == tags_in(seen, id));
            }
            assert forall|id: Seq<char>| #[trigger] r@.contains_key(id) implies tags_in(
                now,
                id,
            ).len() > 0 by {
                if id != key {
                    assert(before.contains_key(id));
                }
            }
        }
    }
    assert(all.take(all.len() as int) =~= all);
    r
}

/// So many values have so many question marks, each two of them with a comma between.
pub proof fn law_every_value_has_a_placeholder(n: usize, r: String)
    requires
        call_ensures(placeholders, (n,), r),
    ensures
        n > 0 ==> r@.len() == 2 * n - 1,
        n == 0 ==> r@.len() == 0,
        forall|i: int|
            0 <= i < r@.len() ==> #[trigger] r@[i] == if i % 2 == 0 {
                '?'
            } else {
                ','
            },
{
    lemma_question_marks(n as nat);
}

proof fn lemma_question_marks(n: nat)
    ensures
        ({
            let s = joined(question_marks(n), ","@);
            &&& n > 0 ==> s.len() == 2 * n - 1
            &&& n == 0 ==> s.len() == 0
            &&& forall|i: int|
                0 <= i < s.len() ==> #[trigger] s[i] == if i % 2 == 0 {
                    '?'
                } else {
                    ','
                }
        }),
    decreases n,
{
    reveal_strlit("?");
    reveal_strlit(",");
    if n > 0 {
        let m = (n - 1) as nat;
        lemma_question_marks(m);
        let q = question_marks(n);
        assert(q.drop_last() =~= question_marks(m));
        assert(q.last() == "?"@);
        assert(q[0] == "?"@);
    }
}

/// An atom is a report's if and only if its column says so.
pub proof fn law_reports_are_named(text: &str, r: AtomKind)
    requires
        call_ensures(kind_of, (text,), r),
    ensures
        r == AtomKind::Report <==> text@ == "report"@,
        r == AtomKind::Captured <==> text@ != "report"@,
{
}

/// An atom has the tags of all its rows, in order, and no others; an atom without rows has none.
pub proof fn law_rows_are_grouped_by_atom(rows: Vec<(String, Tag)>, r: StrMap<Vec<Tag>>, id: Seq<char>)
    requires
        call_ensures(group_tags, (rows,), r),
    ensures
        ({
            let own = rows@.filter(|p: (String, Tag)| p.0@ == id).map_values(
                |p: (String, Tag)| p.1,
            );
            &&& r@.contains_key(id) <==> own.len() > 0
            &&& r@.contains_key(id) ==> r@[id]@ == own
        }),
{
    lemma_tags_in(rows@, id);
    assert(tags_at(r@, id) == tags_in(rows@, id));
    assert(r@.contains_key(id) ==> tags_in(rows@, id).len() > 0);
}

proof fn lemma_tags_in(rows: Seq<(String, Tag)>, id: Seq<char>)
    ensures
        tags_in(rows, id) == rows.filter(|p: (String, Tag)| p.0@ == id).map_values(
            |p: (String, Tag)| p.1,
        ),
    decreases rows.len(),
{
    reveal(Seq::filter);
    let p = |p: (String, Tag)| p.0@ == id;
    let f = |p: (String, Tag)| p.1;
    if rows.len() > 0 {
        let d = rows.drop_last();
        lemma_tags_in(d, id);
        if p(rows.last()) {
            assert(rows.filter(p).map_values(f) =~= d.filter(p).map_values(f).push(rows.last().1));
        }
    } else {
        assert(rows.filter(p).map_values(f) =~= Seq::empty());
    }
}

} // verus!
