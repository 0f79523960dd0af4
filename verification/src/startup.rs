//! What is done when a database is opened.

use crate::text::{
    chars_of, decimal, find_str, find_text, is_digit, law_numbers_are_read,
    law_written_numbers_are_read_back, parse_unsigned, string_of_range, unsigned_value,
};
use vstd::prelude::*;

verus! {

/// The dimension of a vector index whose definition does not tell.
pub const DEFAULT_DIMENSION: usize = 1536;

/// The dimension that the definition of a vector index names: the number between `float[` and the
/// next closing bracket.
pub open spec fn dimension_in(sql: Seq<char>) -> Option<nat> {
    match find_text(sql, "float["@) {
        Some(start) => {
            let after = sql.skip(start + "float["@.len());
            match find_text(after, "]"@) {
                Some(end) => unsigned_value(after.take(end), usize::MAX as nat),
                None => None,
            }
        },
        None => None,
    }
}

/// The dimension of a vector index, given its definition if there is one.
pub fn index_dimension(sql: Option<&str>) -> (r: usize)
    ensures
        r == match sql {
            Some(s) => match dimension_in(s@) {
                Some(n) => n,
                None => 1536,
            },
            None => 1536,
        },
{
    let cs = match sql {
        Some(s) => chars_of(s),
        None => {
            return DEFAULT_DIMENSION;
        },
    };
    assert(cs.len() <= usize::MAX);
    let open = chars_of("float[");
    let close = chars_of("]");
    let start: usize = match find_str(cs.as_slice(), open.as_slice()) {
        Some(i) => i + open.len(),
        None => {
            return DEFAULT_DIMENSION;
        },
    };
    let mut after: Vec<char> = Vec::new();
    let mut i: usize = start;
    while i < cs.len()
        invariant
            start <= i <= cs@.len(),
            after@ == cs@.subrange(start as int, i as int),
        decreases cs@.len() - i,
    {
        after.push(cs[i]);
        assert(cs@.subrange(start as int, i + 1) =~= cs@.subrange(start as int, i as int).push(
            cs@[i as int],
        ));
        i = i + 1;
    }
    assert(after@ =~= cs@.skip(start as int));
    let end: usize = match find_str(after.as_slice(), close.as_slice()) {
        Some(e) => e,
        None => {
            return DEFAULT_DIMENSION;
        },
    };
    let digits = string_of_range(after.as_slice(), 0, end);
    assert(digits@ =~= after@.take(end as int));
    match parse_unsigned(digits.as_str(), usize::MAX as u64) {
        Some(n) => n as usize,
        None => DEFAULT_DIMENSION,
    }
}

/// Whether the dimension of the vector index is held against that of the configured model: only
/// in a workspace, and only while the database has no atoms. A count that cannot be had is none.
pub fn checks_dimension(has_registry: bool, atom_count: Option<i64>) -> (r: bool)
    ensures
        r == (has_registry && (atom_count is None || atom_count->0 == 0)),
{
    has_registry && match atom_count {
        Some(n) => n == 0,
        None => true,
    }
}

/// The dimension with which the vector index is made anew, if it has another one than the
/// configured model.
pub fn dimension_to_restore(sql: Option<&str>, expected: usize) -> (r: Option<usize>)
    ensures
        r == ({
            let current = match sql {
                Some(s) => match dimension_in(s@) {
                    Some(n) => n,
                    None => 1536,
                },
                None => 1536,
            };
            if current != expected {
                Some(expected)
            } else {
                None
            }
        }),
{
    if index_dimension(sql) != expected {
        Some(expected)
    } else {
        None
    }
}

/// Whether the centroids of the tags are to be computed: when there are embeddings and no
/// centroid yet. What cannot be told is no.
pub fn needs_centroids(has_embeddings: Option<bool>, has_centroids: Option<bool>) -> (r: bool)
    ensures
        r == (has_embeddings == Some(true) && has_centroids != Some(true)),
{
    let embedded = match has_embeddings {
        Some(b) => b,
        None => false,
    };
    let centred = match has_centroids {
        Some(b) => b,
        None => false,
    };
    embedded && !centred
}

/// The categories that a new server database starts with.
pub open spec fn default_categories() -> Seq<Seq<char>> {
    seq!["Topics"@, "People"@, "Locations"@, "Organizations"@, "Events"@]
}

/// The categories to make in a server database: all of them while it has no tag, else none.
pub fn categories_to_seed(tag_count: usize) -> (r: Vec<String>)
    ensures
        crate::text::views(r@) == if tag_count == 0 {
            default_categories()
        } else {
            Seq::empty()
        },
{
    let mut r: Vec<String> = Vec::new();
    if tag_count == 0 {
        r.push("Topics".to_owned());
        r.push("People".to_owned());
        r.push("Locations".to_owned());
        r.push("Organizations".to_owned());
        r.push("Events".to_owned());
        assert(crate::text::views(r@) =~= default_categories());
    } else {
        assert(crate::text::views(r@) =~= Seq::empty());
    }
    r
}

/// Whether the default settings are written to a server database: when it has none, and there is
/// no registry to hold them.
pub fn seeds_settings(has_registry: bool, setting_count: usize) -> (r: bool)
    ensures
        r == (!has_registry && setting_count == 0),
{
    !has_registry && setting_count == 0
}

/// The dimension of a vector index is the number that its definition names between `float[` and
/// the next bracket, whatever stands around that; a definition without one, or none at all, means
/// the default.
pub proof fn law_dimension_is_named_by_the_definition(
    before: Seq<char>,
    n: nat,
    after: Seq<char>,
    sql: Seq<char>,
)
    requires
        n <= usize::MAX,
        find_text(before + "float["@ + decimal(n) + "]"@ + after, "float["@) == Some(
            before.len() as int,
        ),
    ensures
        dimension_in(before + "float["@ + decimal(n) + "]"@ + after) == Some(n),
        find_text(sql, "float["@) is None ==> dimension_in(sql) is None,
{
    let open = "float["@;
    let close = "]"@;
    let s = before + open + decimal(n) + close + after;
    let rest = s.skip((before.len() + open.len()) as int);
    assert(rest =~= decimal(n) + close + after);
    reveal_strlit("]");
    law_written_numbers_are_read_back(n);
    assert forall|i: int| 0 <= i < decimal(n).len() implies rest[i] != ']' by {
        assert(rest[i] == decimal(n)[i]);
        assert(is_digit(decimal(n)[i]));
    }
    lemma_first_bracket(rest, decimal(n).len() as int);
    assert(rest.take(decimal(n).len() as int) =~= decimal(n));
    law_numbers_are_read(n, usize::MAX as nat, Seq::empty());
}

proof fn lemma_first_bracket(s: Seq<char>, p: int)
    requires
        0 <= p < s.len(),
        s[p] == ']',
        forall|i: int| 0 <= i < p ==> s[i] != ']',
    ensures
        find_text(s, "]"@) == Some(p),
    decreases s.len(),
{
    reveal_strlit("]");
    assert("]"@ =~= seq![']']);
    if p > 0 {
        if "]"@.is_prefix_of(s) {
            assert("]"@[0] == s.subrange(0, 1)[0]);
        }
        assert forall|i: int| 0 <= i < p - 1 implies s.drop_first()[i] != ']' by {
            assert(s[i + 1] != ']');
        }
        lemma_first_bracket(s.drop_first(), p - 1);
    } else {
        assert("]"@.is_prefix_of(s));
    }
}

/// The vector index is made anew if and only if its dimension is not that of the model, and then
/// with that; an index that tells no dimension has the default one.
pub proof fn law_index_gets_the_models_dimension(
    sql: Option<&str>,
    expected: usize,
    current: usize,
    r: Option<usize>,
)
    requires
        call_ensures(index_dimension, (sql,), current),
        call_ensures(dimension_to_restore, (sql, expected), r),
    ensures
        r is None <==> current == expected,
        r matches Some(d) ==> d == expected,
        sql is None ==> current == 1536,
        sql matches Some(s) ==> (match dimension_in(s@) {
            Some(n) => current == n,
            None => current == 1536,
        }),
{
}

/// What is done when a database is opened depends on what it has: its index is checked only in a
/// workspace and while it has no atoms, centroids are made only where there are embeddings and
/// none yet, and settings are written only where there is neither a registry nor any setting.
pub proof fn law_opening_fills_what_is_missing(
    has_registry: bool,
    atoms: Option<i64>,
    embeddings: Option<bool>,
    centroids: Option<bool>,
    settings: usize,
    checked: bool,
    centred: bool,
    seeded: bool,
)
    requires
        call_ensures(checks_dimension, (has_registry, atoms), checked),
        call_ensures(needs_centroids, (embeddings, centroids), centred),
        call_ensures(seeds_settings, (has_registry, settings), seeded),
    ensures
        !has_registry ==> !checked,
        atoms matches Some(n) ==> n != 0 ==> !checked,
        has_registry && (atoms is None || atoms == Some(0i64)) ==> checked,
        embeddings != Some(true) ==> !centred,
        centroids == Some(true) ==> !centred,
        embeddings == Some(true) && centroids != Some(true) ==> centred,
        has_registry ==> !seeded,
        settings > 0 ==> !seeded,
        !has_registry && settings == 0 ==> seeded,
{
}

/// A server database without tags gets the five categories, one with any tag gets none.
pub proof fn law_new_databases_get_the_categories(tag_count: usize, r: Vec<String>)
    requires
        call_ensures(categories_to_seed, (tag_count,), r),
    ensures
        tag_count > 0 ==> r@.len() == 0,
        tag_count == 0 ==> r@.len() == 5 && r@[0]@ == "Topics"@ && r@[1]@ == "People"@ && r@[2]@
            == "Locations"@ && r@[3]@ == "Organizations"@ && r@[4]@ == "Events"@,
{
    let v = crate::text::views(r@);
    assert(v.len() == r@.len());
    assert(forall|i: int| 0 <= i < r@.len() ==> #[trigger] v[i] == r@[i]@);
    if tag_count == 0 {
        assert(v[0] == r@[0]@ && v[1] == r@[1]@ && v[2] == r@[2]@ && v[3] == r@[3]@ && v[4]
            == r@[4]@);
    }
}

} // verus!
