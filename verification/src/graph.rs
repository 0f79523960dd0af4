//! The neighbourhood of an atom: which atoms belong to it, and which edges join them.

use crate::atoms::{Atom, AtomWithTags};
use crate::rows::tags_at;
use crate::strmap::StrMap;
use crate::tags::{copy_opt, stands_before, Tag};
use crate::text::{precedes, text_before, text_eq, views};
use vstd::prelude::*;

verus! {

/// An atom and how many steps it is away from the centre.
#[derive(Debug)]
pub struct Met {
    pub id: String,
    pub depth: i32,
}

/// What a list of atoms that were met holds: ids and distances.
pub type MetView = Seq<(Seq<char>, int)>;

/// What a list of atoms that were met holds.
pub open spec fn met_view(list: Seq<Met>) -> MetView {
    list.map_values(|m: Met| (m.id@, m.depth as int))
}

/// Whether an atom was met.
pub open spec fn was_met(list: MetView, id: Seq<char>) -> bool {
    exists|i: int| 0 <= i < list.len() && (#[trigger] list[i]).0 == id
}

/// An atom is met: its first distance stands.
pub open spec fn meet(list: MetView, id: Seq<char>, depth: int) -> MetView {
    if was_met(list, id) {
        list
    } else {
        list.push((id, depth))
    }
}

/// Atoms are met one after the other.
pub open spec fn meet_all(list: MetView, ids: Seq<Seq<char>>, depth: int) -> MetView
    decreases ids.len(),
{
    if ids.len() == 0 {
        list
    } else {
        meet(meet_all(list, ids.drop_last(), depth), ids.last(), depth)
    }
}

/// Lists of atoms are met one after the other.
pub open spec fn meet_lists(list: MetView, lists: Seq<Seq<Seq<char>>>, depth: int) -> MetView
    decreases lists.len(),
{
    if lists.len() == 0 {
        list
    } else {
        meet_all(meet_lists(list, lists.drop_last(), depth), lists.last(), depth)
    }
}

/// What lists of texts hold.
pub open spec fn lists_view(lists: Seq<Vec<String>>) -> Seq<Seq<Seq<char>>> {
    lists.map_values(|v: Vec<String>| views(v@))
}

/// No atom occurs twice, and the atoms stand by growing distance, none of them beyond `far`.
pub open spec fn in_rings(list: MetView, far: int) -> bool {
    &&& forall|i: int, j: int|
        #![trigger list[i], list[j]]
        0 <= i < j < list.len() ==> list[i].0 != list[j].0 && list[i].1 <= list[j].1
    &&& forall|i: int| 0 <= i < list.len() ==> (#[trigger] list[i]).1 <= far
}

/// To meet an atom that is as far as any keeps the rings.
pub proof fn lemma_meet_keeps_rings(list: MetView, id: Seq<char>, depth: int)
    requires
        in_rings(list, depth),
    ensures
        in_rings(meet(list, id, depth), depth),
{
    if !was_met(list, id) {
        let r = list.push((id, depth));
        assert forall|i: int, j: int| #![trigger r[i], r[j]] 0 <= i < j < r.len() implies r[i].0
            != r[j].0 && r[i].1 <= r[j].1 by {
            assert(list[i] == r[i]);
            if j < list.len() {
                assert(list[j] == r[j]);
            } else {
                assert(list[i].0 != id);
            }
        }
    }
}

/// To meet atoms that are as far as any keeps the rings.
pub proof fn lemma_meet_all_keeps_rings(list: MetView, ids: Seq<Seq<char>>, depth: int)
    requires
        in_rings(list, depth),
    ensures
        in_rings(meet_all(list, ids, depth), depth),
    decreases ids.len(),
{
    if ids.len() > 0 {
        lemma_meet_all_keeps_rings(list, ids.drop_last(), depth);
        lemma_meet_keeps_rings(meet_all(list, ids.drop_last(), depth), ids.last(), depth);
    }
}

/// To meet lists of atoms that are as far as any keeps the rings.
pub proof fn lemma_meet_lists_keeps_rings(list: MetView, lists: Seq<Seq<Seq<char>>>, depth: int)
    requires
        in_rings(list, depth),
    ensures
        in_rings(meet_lists(list, lists, depth), depth),
    decreases lists.len(),
{
    if lists.len() > 0 {
        lemma_meet_lists_keeps_rings(list, lists.drop_last(), depth);
        lemma_meet_all_keeps_rings(
            meet_lists(list, lists.drop_last(), depth),
            lists.last(),
            depth,
        );
    }
}

fn meet_ids(list: &mut Vec<Met>, ids: &Vec<String>, depth: i32)
    ensures
        met_view(final(list)@) == meet_all(met_view(old(list)@), views(ids@), depth as int),
{
    let ghost start = met_view(list@);
    let ghost all = views(ids@);
    let mut i: usize = 0;
    assert(all.take(0) =~= Seq::empty());
    while i < ids.len()
        invariant
            i <= ids@.len(),
            all == views(ids@),
            met_view(list@) == meet_all(start, all.take(i as int), depth as int),
        decreases ids@.len() - i,
    {
        let ghost now = met_view(list@);
        proof {
            assert(all.take(i + 1).drop_last() =~= all.take(i as int));
            assert(all.take(i + 1).last() == ids@[i as int]@);
        }
        let mut known: bool = false;
        let mut k: usize = 0;
        while k < list.len()
            invariant
                k <= list@.len(),
                i < ids@.len(),
                now == met_view(list@),
                known ==> was_met(now, ids@[i as int]@),
                !known ==> forall|j: int| 0 <= j < k ==> (#[trigger] now[j]).0 != ids@[i as int]@,
            decreases list@.len() - k,
        {
            if text_eq(list[k].id.as_str(), ids[i].as_str()) {
                assert(now[k as int].0 == ids@[i as int]@);
                known = true;
            }
            k = k + 1;
        }
        if !known {
            list.push(Met { id: ids[i].clone(), depth });
            assert(met_view(list@) =~= now.push((ids@[i as int]@, depth as int)));
        }
        i = i + 1;
    }
    assert(all.take(i as int) =~= all);
}

/// The centre and what is one step away: the atoms that are like it, then those that share tags.
pub open spec fn first_ring(
    center: Seq<char>,
    similar: Seq<Seq<char>>,
    tagged: Seq<Seq<char>>,
) -> MetView {
    meet_all(meet_all(seq![(center, 0)], similar, 1), tagged, 1)
}

/// The centre and what is one step away, each atom once.
pub fn meet_first_ring(center: &str, similar: &Vec<String>, tagged: &Vec<String>) -> (r: Vec<Met>)
    ensures
        met_view(r@) == first_ring(center@, views(similar@), views(tagged@)),
        in_rings(met_view(r@), 1),
{
    let mut r: Vec<Met> = Vec::new();
    r.push(Met { id: center.to_owned(), depth: 0 });
    assert(met_view(r@) =~= seq![(center@, 0int)]);
    proof {
        lemma_meet_all_keeps_rings(met_view(r@), views(similar@), 1);
        lemma_meet_all_keeps_rings(
            meet_all(met_view(r@), views(similar@), 1),
            views(tagged@),
            1,
        );
    }
    meet_ids(&mut r, similar, 1);
    meet_ids(&mut r, tagged, 1);
    r
}

/// The ids of the atoms at a distance.
pub open spec fn ids_at(list: MetView, depth: int) -> Seq<Seq<char>>
    decreases list.len(),
{
    if list.len() == 0 {
        Seq::empty()
    } else if list.last().1 == depth {
        ids_at(list.drop_last(), depth).push(list.last().0)
    } else {
        ids_at(list.drop_last(), depth)
    }
}

/// The ids of the atoms at a distance.
pub fn at_depth(list: &Vec<Met>, depth: i32) -> (r: Vec<String>)
    ensures
        views(r@) == ids_at(met_view(list@), depth as int),
{
    let ghost all = met_view(list@);
    let mut r: Vec<String> = Vec::new();
    let mut i: usize = 0;
    assert(views(r@) =~= Seq::empty());
    while i < list.len()
        invariant
            i <= list@.len(),
            all == met_view(list@),
            views(r@) == ids_at(all.take(i as int), depth as int),
        decreases list@.len() - i,
    {
        let ghost before = views(r@);
        assert(all.take(i + 1).drop_last() =~= all.take(i as int));
        if list[i].depth == depth {
            r.push(list[i].id.clone());
            assert(views(r@) =~= before.push(all[i as int].0));
        }
        i = i + 1;
    }
    assert(all.take(i as int) =~= all);
    r
}

/// What is two steps away is met too: the neighbours of each atom that is one step away.
pub fn meet_second_ring(list: Vec<Met>, neighbours: &Vec<Vec<String>>) -> (r: Vec<Met>)
    ensures
        met_view(r@) == meet_lists(met_view(list@), lists_view(neighbours@), 2),
        in_rings(met_view(list@), 1) ==> in_rings(met_view(r@), 2),
{
    let ghost start = met_view(list@);
    let ghost all = lists_view(neighbours@);
    let mut r = list;
    let mut i: usize = 0;
    assert(all.take(0) =~= Seq::empty());
    while i < neighbours.len()
        invariant
            i <= neighbours@.len(),
            all == lists_view(neighbours@),
            met_view(r@) == meet_lists(start, all.take(i as int), 2),
        decreases neighbours@.len() - i,
    {
        assert(all.take(i + 1).drop_last() =~= all.take(i as int));
        assert(all.take(i + 1).last() == views(neighbours@[i as int]@));
        meet_ids(&mut r, &neighbours[i], 2);
        i = i + 1;
    }
    assert(all.take(i as int) =~= all);
    proof {
        if in_rings(start, 1) {
            assert(in_rings(start, 2));
            lemma_meet_lists_keeps_rings(start, all, 2);
        }
    }
    r
}

/// How many atoms a neighbourhood may have.
pub open spec fn atom_limit(depth: i32) -> int {
    if depth >= 2 {
        30
    } else {
        20
    }
}

/// The nearest atoms, as many as there may be.
pub open spec fn nearest(list: MetView, depth: i32) -> MetView {
    if list.len() > atom_limit(depth) {
        list.take(atom_limit(depth))
    } else {
        list
    }
}

/// The centre stands first, and it alone is at no distance.
pub open spec fn is_centred(list: MetView, center: Seq<char>) -> bool {
    &&& list.len() > 0
    &&& list[0] == (center, 0int)
    &&& forall|i: int|
        0 < i < list.len() ==> (#[trigger] list[i]).0 != center && list[i].1 > 0
}

proof fn lemma_meet_all_keeps_centre(
    list: MetView,
    ids: Seq<Seq<char>>,
    depth: int,
    center: Seq<char>,
)
    requires
        is_centred(list, center),
        depth > 0,
    ensures
        is_centred(meet_all(list, ids, depth), center),
    decreases ids.len(),
{
    if ids.len() > 0 {
        lemma_meet_all_keeps_centre(list, ids.drop_last(), depth, center);
        let before = meet_all(list, ids.drop_last(), depth);
        assert(before[0].0 == center);
        if ids.last() == center {
            assert(was_met(before, center));
        }
    }
}

proof fn lemma_meet_lists_keeps_centre(
    list: MetView,
    lists: Seq<Seq<Seq<char>>>,
    depth: int,
    center: Seq<char>,
)
    requires
        is_centred(list, center),
        depth > 0,
    ensures
        is_centred(meet_lists(list, lists, depth), center),
    decreases lists.len(),
{
    if lists.len() > 0 {
        lemma_meet_lists_keeps_centre(list, lists.drop_last(), depth, center);
        lemma_meet_all_keeps_centre(
            meet_lists(list, lists.drop_last(), depth),
            lists.last(),
            depth,
            center,
        );
    }
}

/// The centre stands first and alone has distance zero: among what is one step away, among what
/// is two steps away, and after either is cut to the limit.
pub proof fn law_centre_stands_first(
    center: Seq<char>,
    similar: Seq<Seq<char>>,
    tagged: Seq<Seq<char>>,
    neighbours: Seq<Seq<Seq<char>>>,
    depth: i32,
)
    ensures
        ({
            let one = first_ring(center, similar, tagged);
            let two = meet_lists(one, neighbours, 2);
            &&& is_centred(one, center)
            &&& is_centred(two, center)
            &&& is_centred(nearest(one, depth), center)
            &&& is_centred(nearest(two, depth), center)
        }),
{
    let start: MetView = seq![(center, 0)];
    lemma_meet_all_keeps_centre(start, similar, 1, center);
    lemma_meet_all_keeps_centre(meet_all(start, similar, 1), tagged, 1, center);
    lemma_meet_lists_keeps_centre(first_ring(center, similar, tagged), neighbours, 2, center);
}

/// The atoms of the neighbourhood: the nearest ones, as many as there may be.
pub fn limit_atoms(list: Vec<Met>, depth: i32) -> (r: Vec<Met>)
    ensures
        met_view(r@) == nearest(met_view(list@), depth),
        r@ == if list@.len() > atom_limit(depth) {
            list@.take(atom_limit(depth))
        } else {
            list@
        },
        forall|far: int|
            in_rings(met_view(list@), far) ==> #[trigger] in_rings(met_view(r@), far),
        forall|far: int, i: int, j: int|
            #![trigger in_rings(met_view(list@), far), met_view(list@)[i], met_view(r@)[j]]
            in_rings(met_view(list@), far) && r@.len() <= i < list@.len() && 0 <= j < r@.len()
                ==> met_view(r@)[j].1 <= met_view(list@)[i].1,
{
    let max: usize = if depth >= 2 {
        30
    } else {
        20
    };
    let ghost all = met_view(list@);
    let mut r = list;
    if r.len() > max {
        r.truncate(max);
    }
    proof {
        let v = met_view(r@);
        assert(forall|i: int| 0 <= i < v.len() ==> v[i] == all[i]);
        assert(v =~= nearest(all, depth));
    }
    r
}

/// The ids of the atoms, in order.
pub fn ids_of(list: &Vec<Met>) -> (r: Vec<String>)
    ensures
        views(r@) == met_view(list@).map_values(|m: (Seq<char>, int)| m.0),
{
    let mut r: Vec<String> = Vec::new();
    let mut i: usize = 0;
    while i < list.len()
        invariant
            i <= list@.len(),
            r@.len() == i,
            forall|j: int| 0 <= j < i ==> (#[trigger] r@[j])@ == list@[j].id@,
        decreases list@.len() - i,
    {
        r.push(list[i].id.clone());
        i = i + 1;
    }
    assert(views(r@) =~= met_view(list@).map_values(|m: (Seq<char>, int)| m.0));
    r
}

impl Atom {
    /// A copy of the atom.
    pub fn copy(&self) -> (r: Atom)
        ensures
            r == *self,
    {
        Atom {
            id: self.id.clone(),
            content: self.content.clone(),
            title: self.title.clone(),
            snippet: self.snippet.clone(),
            source_url: copy_opt(&self.source_url),
            source: copy_opt(&self.source),
            published_at: copy_opt(&self.published_at),
            created_at: self.created_at.clone(),
            updated_at: self.updated_at.clone(),
            embedding_status: self.embedding_status.clone(),
            tagging_status: self.tagging_status.clone(),
            embedding_error: copy_opt(&self.embedding_error),
            tagging_error: copy_opt(&self.tagging_error),
            kind: self.kind,
        }
    }
}

/// A copy of a list of tags.
pub fn copy_tags(tags: &Vec<Tag>) -> (r: Vec<Tag>)
    ensures
        r@ == tags@,
{
    let mut r: Vec<Tag> = Vec::new();
    let mut i: usize = 0;
    while i < tags.len()
        invariant
            i <= tags@.len(),
            r@ == tags@.take(i as int),
        decreases tags@.len() - i,
    {
        r.push(tags[i].copy());
        assert(tags@.take(i + 1) =~= tags@.take(i as int).push(tags@[i as int]));
        i = i + 1;
    }
    assert(tags@.take(i as int) =~= tags@);
    r
}

/// An atom of a neighbourhood.
#[derive(Debug)]
pub struct NeighborhoodAtom {
    pub atom: AtomWithTags,
    pub depth: i32,
}

/// The last row that holds the atom with the id, if one does.
pub open spec fn row_of(rows: Seq<Atom>, id: Seq<char>) -> Option<Atom>
    decreases rows.len(),
{
    if rows.len() == 0 {
        None
    } else if rows.last().id@ == id {
        Some(rows.last())
    } else {
        row_of(rows.drop_last(), id)
    }
}

fn find_row(rows: &Vec<Atom>, id: &str) -> (r: Option<usize>)
    ensures
        match r {
            Some(i) => i < rows@.len() && row_of(rows@, id@) == Some(rows@[i as int]),
            None => row_of(rows@, id@) is None,
        },
{
    let mut i: usize = rows.len();
    assert(rows@.take(i as int) =~= rows@);
    while i > 0
        invariant
            i <= rows@.len(),
            row_of(rows@, id@) == row_of(rows@.take(i as int), id@),
        decreases i,
    {
        assert(rows@.take(i as int).drop_last() =~= rows@.take(i - 1));
        if text_eq(rows[i - 1].id.as_str(), id) {
            return Some(i - 1);
        }
        i = i - 1;
    }
    None
}

/// The atoms of the neighbourhood that the rows hold, with tags and distance: atom, tags and
/// distance of each.
pub open spec fn joined_atoms(
    chosen: MetView,
    rows: Seq<Atom>,
    tags: Map<Seq<char>, Vec<Tag>>,
) -> Seq<(Atom, Seq<Tag>, int)>
    decreases chosen.len(),
{
    if chosen.len() == 0 {
        Seq::empty()
    } else {
        let before = joined_atoms(chosen.drop_last(), rows, tags);
        match row_of(rows, chosen.last().0) {
            Some(atom) => before.push((atom, tags_at(tags, chosen.last().0), chosen.last().1)),
            None => before,
        }
    }
}

/// What a list of atoms of a neighbourhood holds.
pub open spec fn neighborhood_view(list: Seq<NeighborhoodAtom>) -> Seq<(Atom, Seq<Tag>, int)> {
    list.map_values(|n: NeighborhoodAtom| (n.atom.atom, n.atom.tags@, n.depth as int))
}

/// Joins the chosen atoms with their rows and tags; an atom without a row is left out.
pub fn join_atoms(chosen: &Vec<Met>, rows: &Vec<Atom>, tags: &StrMap<Vec<Tag>>) -> (r: Vec<
    NeighborhoodAtom,
>)
    ensures
        neighborhood_view(r@) == joined_atoms(met_view(chosen@), rows@, tags@),
{
    let ghost all = met_view(chosen@);
    let mut r: Vec<NeighborhoodAtom> = Vec::new();
    let mut i: usize = 0;
    assert(neighborhood_view(r@) =~= Seq::empty());
    while i < chosen.len()
        invariant
            i <= chosen@.len(),
            all == met_view(chosen@),
            neighborhood_view(r@) == joined_atoms(all.take(i as int), rows@, tags@),
        decreases chosen@.len() - i,
    {
        let ghost before = neighborhood_view(r@);
        assert(all.take(i + 1).drop_last() =~= all.take(i as int));
        let id = chosen[i].id.as_str();
        match find_row(rows, id) {
            Some(k) => {
                let own = match tags.get(id) {
                    Some(t) => copy_tags(t),
                    None => Vec::new(),
                };
                assert(own@ =~= tags_at(tags@, id@));
                let n = NeighborhoodAtom {
                    atom: AtomWithTags { atom: rows[k].copy(), tags: own },
                    depth: chosen[i].depth,
                };
                let ghost nv = (n.atom.atom, n.atom.tags@, n.depth as int);
                r.push(n);
                assert(neighborhood_view(r@) =~= before.push(nv));
            },
            None => {},
        }
        i = i + 1;
    }
    assert(all.take(i as int) =~= all);
    r
}

/// A number that belongs to an ordered pair of atoms.
#[derive(Debug)]
pub struct PairRow {
    pub a: String,
    pub b: String,
    pub value: i32,
}

/// What rows of pairs hold.
pub type PairView = Seq<(Seq<char>, Seq<char>, int)>;

/// What rows of pairs hold.
pub open spec fn pair_view(rows: Seq<PairRow>) -> PairView {
    rows.map_values(|p: PairRow| (p.a@, p.b@, p.value as int))
}

/// The number of the last row for an ordered pair, if there is one.
pub open spec fn pair_value(rows: PairView, a: Seq<char>, b: Seq<char>) -> Option<int>
    decreases rows.len(),
{
    if rows.len() == 0 {
        None
    } else if rows.last().0 == a && rows.last().1 == b {
        Some(rows.last().2)
    } else {
        pair_value(rows.drop_last(), a, b)
    }
}

fn find_pair(rows: &Vec<PairRow>, a: &str, b: &str) -> (r: Option<i32>)
    ensures
        (match r {
            Some(v) => Some(v as int),
            None => None,
        }) == pair_value(pair_view(rows@), a@, b@),
{
    let ghost all = pair_view(rows@);
    let mut i: usize = rows.len();
    assert(all.take(i as int) =~= all);
    while i > 0
        invariant
            i <= rows@.len(),
            all == pair_view(rows@),
            pair_value(all, a@, b@) == pair_value(all.take(i as int), a@, b@),
        decreases i,
    {
        assert(all.take(i as int).drop_last() =~= all.take(i - 1));
        let row = &rows[i - 1];
        if text_eq(row.a.as_str(), a) && text_eq(row.b.as_str(), b) {
            return Some(row.value);
        }
        i = i - 1;
    }
    None
}

/// What joins two atoms.
#[derive(Debug, Clone, Copy, PartialEq, Eq, Structural)]
pub enum EdgeKind {
    Both,
    Semantic,
    Tag,
}

impl EdgeKind {
    /// The name of the kind.
    pub open spec fn spec_name(self) -> Seq<char> {
        match self {
            EdgeKind::Both => "both"@,
            EdgeKind::Semantic => "semantic"@,
            EdgeKind::Tag => "tag"@,
        }
    }

    /// The name of the kind.
    pub fn name(self) -> (r: String)
        ensures
            r@ == self.spec_name(),
    {
        match self {
            EdgeKind::Both => "both".to_owned(),
            EdgeKind::Semantic => "semantic".to_owned(),
            EdgeKind::Tag => "tag".to_owned(),
        }
    }
}

/// An edge between two atoms. The similarity is given by the number of the row that holds it.
#[derive(Debug)]
pub struct EdgePlan {
    pub source_id: String,
    pub target_id: String,
    pub kind: EdgeKind,
    pub shared_tag_count: i32,
    pub similarity_row: Option<i32>,
}

/// What an edge holds.
pub struct EdgeView {
    pub source_id: Seq<char>,
    pub target_id: Seq<char>,
    pub kind: EdgeKind,
    pub shared_tag_count: int,
    pub similarity_row: Option<int>,
}

impl View for EdgePlan {
    type V = EdgeView;

    open spec fn view(&self) -> EdgeView {
        EdgeView {
            source_id: self.source_id@,
            target_id: self.target_id@,
            kind: self.kind,
            shared_tag_count: self.shared_tag_count as int,
            similarity_row: match self.similarity_row {
                Some(i) => Some(i as int),
                None => None,
            },
        }
    }
}

/// The similarity of two atoms, whichever of them its row names first.
pub open spec fn similarity_of(similar: PairView, a: Seq<char>, b: Seq<char>) -> Option<int> {
    match pair_value(similar, a, b) {
        Some(v) => Some(v),
        None => pair_value(similar, b, a),
    }
}

/// How many tags two atoms share: the row names the smaller id first.
pub open spec fn shared_of(shared: PairView, a: Seq<char>, b: Seq<char>) -> int {
    let found = if precedes(a, b) {
        pair_value(shared, a, b)
    } else {
        pair_value(shared, b, a)
    };
    match found {
        Some(n) => n,
        None => 0,
    }
}

/// The edge between two atoms, if they are alike or share tags.
pub open spec fn edge_between(
    similar: PairView,
    shared: PairView,
    a: Seq<char>,
    b: Seq<char>,
) -> Option<EdgeView> {
    let s = similarity_of(similar, a, b);
    let n = shared_of(shared, a, b);
    if s is None && n <= 0 {
        None
    } else {
        Some(
            EdgeView {
                source_id: a,
                target_id: b,
                kind: if s is Some && n > 0 {
                    EdgeKind::Both
                } else if s is Some {
                    EdgeKind::Semantic
                } else {
                    EdgeKind::Tag
                },
                shared_tag_count: n,
                similarity_row: s,
            },
        )
    }
}

/// The edges from one atom to those behind it, as far as `to`.
pub open spec fn edges_from(
    similar: PairView,
    shared: PairView,
    ids: Seq<Seq<char>>,
    i: int,
    to: int,
) -> Seq<EdgeView>
    decreases to - i,
{
    if to <= i + 1 {
        Seq::empty()
    } else {
        let before = edges_from(similar, shared, ids, i, to - 1);
        match edge_between(similar, shared, ids[i], ids[to - 1]) {
            Some(e) => before.push(e),
            None => before,
        }
    }
}

/// The edges from the first `n` atoms to those behind them.
pub open spec fn edges_of(
    similar: PairView,
    shared: PairView,
    ids: Seq<Seq<char>>,
    n: int,
) -> Seq<EdgeView>
    decreases n,
{
    if n <= 0 {
        Seq::empty()
    } else {
        edges_of(similar, shared, ids, n - 1) + edges_from(
            similar,
            shared,
            ids,
            n - 1,
            ids.len() as int,
        )
    }
}

/// What a list of edges holds.
pub open spec fn edge_views(edges: Seq<EdgePlan>) -> Seq<EdgeView> {
    edges.map_values(|e: EdgePlan| e@)
}

fn join_pair(similar: &Vec<PairRow>, shared: &Vec<PairRow>, a: &str, b: &str) -> (r: Option<
    EdgePlan,
>)
    ensures
        (match r {
            Some(e) => Some(e@),
            None => None,
        }) == edge_between(pair_view(similar@), pair_view(shared@), a@, b@),
{
    let similarity_row: Option<i32> = match find_pair(similar, a, b) {
        Some(v) => Some(v),
        None => find_pair(similar, b, a),
    };
    let found = if text_before(a, b) {
        find_pair(shared, a, b)
    } else {
        find_pair(shared, b, a)
    };
    let shared_tag_count: i32 = match found {
        Some(n) => n,
        None => 0,
    };
    let kind = if similarity_row.is_some() && shared_tag_count > 0 {
        EdgeKind::Both
    } else if similarity_row.is_some() {
        EdgeKind::Semantic
    } else if shared_tag_count > 0 {
        EdgeKind::Tag
    } else {
        return None;
    };
    Some(
        EdgePlan {
            source_id: a.to_owned(),
            target_id: b.to_owned(),
            kind,
            shared_tag_count,
            similarity_row,
        },
    )
}

/// The edges among the atoms: one for each pair that is alike or shares tags.
pub fn join_edges(ids: &Vec<String>, similar: &Vec<PairRow>, shared: &Vec<PairRow>) -> (r: Vec<
    EdgePlan,
>)
    ensures
        edge_views(r@) == edges_of(
            pair_view(similar@),
            pair_view(shared@),
            views(ids@),
            ids@.len() as int,
        ),
{
    let ghost all = views(ids@);
    let ghost sim = pair_view(similar@);
    let ghost sha = pair_view(shared@);
    let mut r: Vec<EdgePlan> = Vec::new();
    let mut i: usize = 0;
    assert(edge_views(r@) =~= Seq::empty());
    while i < ids.len()
        invariant
            i <= ids@.len(),
            all == views(ids@),
            sim == pair_view(similar@),
            sha == pair_view(shared@),
            edge_views(r@) == edges_of(sim, sha, all, i as int),
        decreases ids@.len() - i,
    {
        let ghost base = edge_views(r@);
        let mut j: usize = i + 1;
        assert(base + edges_from(sim, sha, all, i as int, j as int) =~= base);
        while j < ids.len()
            invariant
                i < j <= ids@.len(),
                all == views(ids@),
                sim == pair_view(similar@),
                sha == pair_view(shared@),
                edge_views(r@) == base + edges_from(sim, sha, all, i as int, j as int),
            decreases ids@.len() - j,
        {
            let ghost before = edge_views(r@);
            let ghost row = edges_from(sim, sha, all, i as int, j as int);
            match join_pair(similar, shared, ids[i].as_str(), ids[j].as_str()) {
                Some(e) => {
                    let ghost ev = e@;
                    r.push(e);
                    assert(edge_views(r@) =~= before.push(ev));
                    assert(before.push(ev) =~= base + row.push(ev));
                },
                None => {},
            }
            j = j + 1;
        }
        i = i + 1;
    }
    r
}

/// The similarity of two atoms does not depend on which comes first, unless both orders have a
/// row; nor does the number of tags that they share.
pub proof fn law_edges_are_symmetric(
    similar: PairView,
    shared: PairView,
    a: Seq<char>,
    b: Seq<char>,
)
    requires
        pair_value(similar, a, b) is None || pair_value(similar, b, a) is None,
    ensures
        similarity_of(similar, a, b) == similarity_of(similar, b, a),
        shared_of(shared, a, b) == shared_of(shared, b, a),
{
    crate::text::lemma_precedes_total(a, b);
}

/// Whether an edge joins two atoms, whichever of them it names first.
pub open spec fn joins(e: EdgeView, a: Seq<char>, b: Seq<char>) -> bool {
    (e.source_id == a && e.target_id == b) || (e.source_id == b && e.target_id == a)
}

/// Whether an edge goes from an atom with an index below `n` to one behind it, as far as `to`.
pub open spec fn goes_on(e: EdgeView, ids: Seq<Seq<char>>, n: int, to: int) -> bool {
    exists|a: int, b: int|
        0 <= a < n && a < b < to && #[trigger] ids[a] == e.source_id && #[trigger] ids[b]
            == e.target_id
}

proof fn lemma_edges_from(
    similar: PairView,
    shared: PairView,
    ids: Seq<Seq<char>>,
    i: int,
    to: int,
)
    requires
        ids.no_duplicates(),
        0 <= i < to <= ids.len(),
    ensures
        forall|k: int|
            #![trigger edges_from(similar, shared, ids, i, to)[k]]
            0 <= k < edges_from(similar, shared, ids, i, to).len() ==> {
                let e = edges_from(similar, shared, ids, i, to)[k];
                e.source_id == ids[i] && goes_on(e, ids, i + 1, to)
            },
        forall|k: int, l: int|
            #![trigger edges_from(similar, shared, ids, i, to)[k], edges_from(similar, shared, ids, i, to)[l]]
            0 <= k < l < edges_from(similar, shared, ids, i, to).len() ==> edges_from(
                similar,
                shared,
                ids,
                i,
                to,
            )[k].target_id != edges_from(similar, shared, ids, i, to)[l].target_id,
        forall|b: int|
            i < b < to && (#[trigger] edge_between(similar, shared, ids[i], ids[b])) is Some
                ==> edges_from(similar, shared, ids, i, to).contains(
                edge_between(similar, shared, ids[i], ids[b])->0,
            ),
    decreases to - i,
{
    if to > i + 1 {
        lemma_edges_from(similar, shared, ids, i, to - 1);
        let before = edges_from(similar, shared, ids, i, to - 1);
        let now = edges_from(similar, shared, ids, i, to);
        assert forall|k: int| #![trigger now[k]] 0 <= k < now.len() implies now[k].source_id
            == ids[i] && goes_on(now[k], ids, i + 1, to) by {
            if k < before.len() {
                assert(now[k] == before[k]);
                let (a, b) = choose|a: int, b: int|
                    0 <= a < i + 1 && a < b < to - 1 && #[trigger] ids[a] == before[k].source_id
                        && #[trigger] ids[b] == before[k].target_id;
                assert(ids[a] == now[k].source_id && ids[b] == now[k].target_id);
            } else {
                assert(ids[i] == now[k].source_id && ids[to - 1] == now[k].target_id);
            }
        }
        assert forall|k: int, l: int|
            #![trigger now[k], now[l]]
            0 <= k < l < now.len() implies now[k].target_id != now[l].target_id by {
            assert(now[k] == before[k]);
            if l < before.len() {
                assert(now[l] == before[l]);
            } else {
                let (a, b) = choose|a: int, b: int|
                    0 <= a < i + 1 && a < b < to - 1 && #[trigger] ids[a] == before[k].source_id
                        && #[trigger] ids[b] == before[k].target_id;
                assert(ids[b] != ids[to - 1]);
            }
        }
        assert forall|b: int|
            i < b < to && (#[trigger] edge_between(similar, shared, ids[i], ids[b])) is Some implies now.contains(
            edge_between(similar, shared, ids[i], ids[b])->0,
        ) by {
            let e = edge_between(similar, shared, ids[i], ids[b])->0;
            if b < to - 1 {
                let k = choose|k: int| 0 <= k < before.len() && before[k] == e;
                assert(now[k] == e);
            } else {
                assert(now[now.len() - 1] == e);
            }
        }
    }
}

proof fn lemma_edges_of(similar: PairView, shared: PairView, ids: Seq<Seq<char>>, n: int)
    requires
        ids.no_duplicates(),
        0 <= n <= ids.len(),
    ensures
        forall|k: int|
            0 <= k < edges_of(similar, shared, ids, n).len() ==> goes_on(
                #[trigger] edges_of(similar, shared, ids, n)[k],
                ids,
                n,
                ids.len() as int,
            ),
        forall|k: int, l: int|
            #![trigger edges_of(similar, shared, ids, n)[k], edges_of(similar, shared, ids, n)[l]]
            0 <= k < l < edges_of(similar, shared, ids, n).len() ==> !joins(
                edges_of(similar, shared, ids, n)[k],
                edges_of(similar, shared, ids, n)[l].source_id,
                edges_of(similar, shared, ids, n)[l].target_id,
            ),
        forall|a: int, b: int|
            0 <= a < n && a < b < ids.len() && (#[trigger] edge_between(
                similar,
                shared,
                ids[a],
                ids[b],
            )) is Some ==> edges_of(similar, shared, ids, n).contains(
                edge_between(similar, shared, ids[a], ids[b])->0,
            ),
    decreases n,
{
    if n > 0 {
        let to = ids.len() as int;
        lemma_edges_of(similar, shared, ids, n - 1);
        lemma_edges_from(similar, shared, ids, n - 1, to);
        let before = edges_of(similar, shared, ids, n - 1);
        let row = edges_from(similar, shared, ids, n - 1, to);
        let now = edges_of(similar, shared, ids, n);
        let m = before.len() as int;
        assert forall|k: int| 0 <= k < now.len() implies goes_on(
            #[trigger] now[k],
            ids,
            n,
            to,
        ) by {
            if k < m {
                assert(now[k] == before[k]);
                let (a, b) = choose|a: int, b: int|
                    0 <= a < n - 1 && a < b < to && #[trigger] ids[a] == before[k].source_id
                        && #[trigger] ids[b] == before[k].target_id;
                assert(ids[a] == now[k].source_id && ids[b] == now[k].target_id);
            } else {
                assert(now[k] == row[k - m]);
            }
        }
        assert forall|k: int, l: int| #![trigger now[k], now[l]] 0 <= k < l < now.len() implies !joins(
            now[k],
            now[l].source_id,
            now[l].target_id,
        ) by {
            if l < m {
                assert(now[k] == before[k] && now[l] == before[l]);
            } else {
                assert(now[l] == row[l - m]);
                let (c, d) = choose|c: int, d: int|
                    0 <= c < n && c < d < to && #[trigger] ids[c] == row[l - m].source_id
                        && #[trigger] ids[d] == row[l - m].target_id;
                assert(c == n - 1);
                if k < m {
                    assert(now[k] == before[k]);
                    let (a, b) = choose|a: int, b: int|
                        0 <= a < n - 1 && a < b < to && #[trigger] ids[a] == before[k].source_id
                            && #[trigger] ids[b] == before[k].target_id;
                    assert(ids[a] != ids[c] && ids[a] != ids[d]);
                } else {
                    assert(now[k] == row[k - m]);
                    assert(row[k - m].target_id != row[l - m].target_id);
                    assert(ids[c] != ids[d]);
                }
            }
        }
        assert forall|a: int, b: int|
            0 <= a < n && a < b < ids.len() && (#[trigger] edge_between(
                similar,
                shared,
                ids[a],
                ids[b],
            )) is Some implies now.contains(
            edge_between(similar, shared, ids[a], ids[b])->0,
        ) by {
            let e = edge_between(similar, shared, ids[a], ids[b])->0;
            if a < n - 1 {
                assert(before.contains(e));
                let k = choose|k: int| 0 <= k < before.len() && before[k] == e;
                assert(now[k] == e);
            } else {
                assert(row.contains(e));
                let k = choose|k: int| 0 <= k < row.len() && row[k] == e;
                assert(now[m + k] == e);
            }
        }
    }
}

/// Among atoms with distinct ids no edge joins an atom to itself, two atoms are joined by one edge
/// at most, and two that are alike or share tags are joined.
pub proof fn law_pairs_have_one_edge(similar: PairView, shared: PairView, ids: Seq<Seq<char>>)
    requires
        ids.no_duplicates(),
    ensures
        ({
            let edges = edges_of(similar, shared, ids, ids.len() as int);
            &&& forall|k: int|
                0 <= k < edges.len() ==> (#[trigger] edges[k]).source_id != edges[k].target_id
                    && ids.contains(edges[k].source_id) && ids.contains(edges[k].target_id)
            &&& forall|k: int, l: int, a: Seq<char>, b: Seq<char>|
                #![trigger joins(edges[k], a, b), joins(edges[l], a, b)]
                0 <= k < edges.len() && 0 <= l < edges.len() && joins(edges[k], a, b) && joins(
                    edges[l],
                    a,
                    b,
                ) ==> k == l
            &&& forall|a: int, b: int|
                0 <= a < b < ids.len() && (#[trigger] edge_between(
                    similar,
                    shared,
                    ids[a],
                    ids[b],
                )) is Some ==> edges.contains(edge_between(similar, shared, ids[a], ids[b])->0)
        }),
{
    let n = ids.len() as int;
    let edges = edges_of(similar, shared, ids, n);
    lemma_edges_of(similar, shared, ids, n);
    assert forall|k: int| 0 <= k < edges.len() implies (#[trigger] edges[k]).source_id
        != edges[k].target_id && ids.contains(edges[k].source_id) && ids.contains(
        edges[k].target_id,
    ) by {
        assert(goes_on(edges[k], ids, n, n));
        let (a, b) = choose|a: int, b: int|
            0 <= a < n && a < b < n && #[trigger] ids[a] == edges[k].source_id && #[trigger] ids[b]
                == edges[k].target_id;
        assert(ids[a] != ids[b]);
    }
    assert forall|k: int, l: int, a: Seq<char>, b: Seq<char>|
        #![trigger joins(edges[k], a, b), joins(edges[l], a, b)]
        0 <= k < edges.len() && 0 <= l < edges.len() && joins(edges[k], a, b) && joins(
            edges[l],
            a,
            b,
        ) implies k == l by {
        if k < l {
            assert(!joins(edges[k], edges[l].source_id, edges[l].target_id));
        }
        if l < k {
            assert(!joins(edges[l], edges[k].source_id, edges[k].target_id));
        }
    }
}

/// The number that a pair has is that of its last row: a row for the pair sets it, a row for any
/// other pair leaves it, and without a row there is none.
pub proof fn law_last_row_of_a_pair_counts(
    rows: PairView,
    row: (Seq<char>, Seq<char>, int),
    a: Seq<char>,
    b: Seq<char>,
)
    ensures
        pair_value(rows.push(row), row.0, row.1) == Some(row.2),
        (a, b) != (row.0, row.1) ==> pair_value(rows.push(row), a, b) == pair_value(rows, a, b),
        pair_value(rows, a, b) is None <==> forall|i: int|
            0 <= i < rows.len() ==> (#[trigger] rows[i]).0 != a || rows[i].1 != b,
        pair_value(rows, a, b) matches Some(v) ==> rows.contains((a, b, v)),
    decreases rows.len(),
{
    assert(rows.push(row).drop_last() =~= rows);
    if rows.len() > 0 {
        let d = rows.drop_last();
        law_last_row_of_a_pair_counts(d, row, a, b);
        assert(forall|i: int| 0 <= i < d.len() ==> d[i] == rows[i]);
        let last = rows[rows.len() - 1];
        assert(last == rows.last());
        if last.0 == a && last.1 == b {
            assert(rows.contains((a, b, last.2)));
        } else if pair_value(d, a, b) is Some {
            let v = pair_value(d, a, b)->0;
            let k = choose|k: int| 0 <= k < d.len() && d[k] == (a, b, v);
            assert(rows[k] == (a, b, v));
        } else {
            assert forall|i: int| 0 <= i < rows.len() implies (#[trigger] rows[i]).0 != a
                || rows[i].1 != b by {
                if i < d.len() {
                    assert(d[i] == rows[i]);
                }
            }
        }
    }
}

/// Whether two atoms are alike: a row names them, in either order.
pub open spec fn are_alike(similar: PairView, a: Seq<char>, b: Seq<char>) -> bool {
    exists|i: int|
        0 <= i < similar.len() && (((#[trigger] similar[i]).0 == a && similar[i].1 == b) || (
        similar[i].0 == b && similar[i].1 == a))
}

/// The type of an edge tells what joins its atoms: likeness if and only if it has a similarity,
/// which a row of the two holds, and tags if and only if it counts any.
pub proof fn law_edges_tell_what_joins(
    similar: PairView,
    shared: PairView,
    a: Seq<char>,
    b: Seq<char>,
)
    ensures
        edge_between(similar, shared, a, b) matches Some(e) ==> {
            &&& e.source_id == a && e.target_id == b
            &&& e.kind == EdgeKind::Both <==> e.similarity_row is Some && e.shared_tag_count > 0
            &&& e.kind == EdgeKind::Semantic <==> e.similarity_row is Some && e.shared_tag_count
                <= 0
            &&& e.kind == EdgeKind::Tag <==> e.similarity_row is None && e.shared_tag_count > 0
            &&& e.similarity_row is Some <==> are_alike(similar, a, b)
            &&& e.similarity_row matches Some(v) ==> similar.contains((a, b, v))
                || similar.contains((b, a, v))
        },
{
    law_last_row_of_a_pair_counts(similar, (a, b, 0), a, b);
    law_last_row_of_a_pair_counts(similar, (a, b, 0), b, a);
    if similarity_of(similar, a, b) is Some {
        let v = similarity_of(similar, a, b)->0;
        if similar.contains((a, b, v)) {
            let i = choose|i: int| 0 <= i < similar.len() && similar[i] == (a, b, v);
            assert(similar[i].0 == a && similar[i].1 == b);
        } else {
            let i = choose|i: int| 0 <= i < similar.len() && similar[i] == (b, a, v);
            assert(similar[i].0 == b && similar[i].1 == a);
        }
    }
}

/// The tags that two atoms share are counted by the row that names the smaller id first; without
/// such a row they share none.
pub proof fn law_shared_tags_stand_under_the_smaller_id(
    shared: PairView,
    a: Seq<char>,
    b: Seq<char>,
    n: int,
)
    requires
        precedes(a, b),
    ensures
        shared_of(shared.push((a, b, n)), a, b) == n,
        shared_of(shared.push((a, b, n)), b, a) == n,
        shared_of(shared.push((b, a, n)), a, b) == shared_of(shared, a, b),
        (forall|i: int| 0 <= i < shared.len() ==> (#[trigger] shared[i]).0 != a || shared[i].1 != b)
            ==> shared_of(shared, a, b) == 0,
{
    crate::text::lemma_precedes_total(a, b);
    law_last_row_of_a_pair_counts(shared, (a, b, n), a, b);
    law_last_row_of_a_pair_counts(shared, (b, a, n), a, b);
}

/// Every edge of a neighbourhood joins two atoms that are alike or share tags, and says which of
/// the two it is; two atoms that are neither have no edge.
pub proof fn law_edges_join_related_atoms(similar: PairView, shared: PairView, ids: Seq<Seq<char>>, k: int)
    requires
        0 <= k < edges_of(similar, shared, ids, ids.len() as int).len(),
    ensures
        ({
            let e = edges_of(similar, shared, ids, ids.len() as int)[k];
            &&& are_alike(similar, e.source_id, e.target_id) || e.shared_tag_count > 0
            &&& e.kind == EdgeKind::Both <==> are_alike(similar, e.source_id, e.target_id)
                && e.shared_tag_count > 0
            &&& e.kind == EdgeKind::Semantic <==> are_alike(similar, e.source_id, e.target_id)
                && e.shared_tag_count <= 0
            &&& e.kind == EdgeKind::Tag <==> !are_alike(similar, e.source_id, e.target_id)
                && e.shared_tag_count > 0
            &&& e.shared_tag_count == shared_of(shared, e.source_id, e.target_id)
        }),
{
    let n = ids.len() as int;
    lemma_edges_are_between(similar, shared, ids, n);
    let e = edges_of(similar, shared, ids, n)[k];
    assert(edge_between(similar, shared, e.source_id, e.target_id) == Some(e));
    law_edges_tell_what_joins(similar, shared, e.source_id, e.target_id);
}

proof fn lemma_edges_are_between(similar: PairView, shared: PairView, ids: Seq<Seq<char>>, n: int)
    requires
        0 <= n <= ids.len(),
    ensures
        forall|k: int|
            #![trigger edges_of(similar, shared, ids, n)[k]]
            0 <= k < edges_of(similar, shared, ids, n).len() ==> {
                let e = edges_of(similar, shared, ids, n)[k];
                edge_between(similar, shared, e.source_id, e.target_id) == Some(e)
            },
    decreases n,
{
    if n > 0 {
        lemma_edges_are_between(similar, shared, ids, n - 1);
        lemma_row_is_between(similar, shared, ids, n - 1, ids.len() as int);
        let before = edges_of(similar, shared, ids, n - 1);
        let row = edges_from(similar, shared, ids, n - 1, ids.len() as int);
        let now = edges_of(similar, shared, ids, n);
        assert forall|k: int| #![trigger now[k]] 0 <= k < now.len() implies edge_between(
            similar,
            shared,
            now[k].source_id,
            now[k].target_id,
        ) == Some(now[k]) by {
            if k < before.len() {
                assert(now[k] == before[k]);
            } else {
                assert(now[k] == row[k - before.len()]);
            }
        }
    }
}

proof fn lemma_row_is_between(
    similar: PairView,
    shared: PairView,
    ids: Seq<Seq<char>>,
    i: int,
    to: int,
)
    ensures
        forall|k: int|
            #![trigger edges_from(similar, shared, ids, i, to)[k]]
            0 <= k < edges_from(similar, shared, ids, i, to).len() ==> {
                let e = edges_from(similar, shared, ids, i, to)[k];
                edge_between(similar, shared, e.source_id, e.target_id) == Some(e)
            },
    decreases to - i,
{
    if to > i + 1 {
        lemma_row_is_between(similar, shared, ids, i, to - 1);
        let before = edges_from(similar, shared, ids, i, to - 1);
        let now = edges_from(similar, shared, ids, i, to);
        assert forall|k: int| #![trigger now[k]] 0 <= k < now.len() implies edge_between(
            similar,
            shared,
            now[k].source_id,
            now[k].target_id,
        ) == Some(now[k]) by {
            if k < before.len() {
                assert(now[k] == before[k]);
            }
        }
    }
}

/// Two atoms that are alike or share tags have an edge that names the one that stands first in the
/// list first.
pub proof fn law_related_atoms_are_joined(
    similar: PairView,
    shared: PairView,
    ids: Seq<Seq<char>>,
    a: int,
    b: int,
)
    requires
        ids.no_duplicates(),
        0 <= a < b < ids.len(),
        are_alike(similar, ids[a], ids[b]) || shared_of(shared, ids[a], ids[b]) > 0,
    ensures
        exists|k: int|
            0 <= k < edges_of(similar, shared, ids, ids.len() as int).len() && (#[trigger] edges_of(
                similar,
                shared,
                ids,
                ids.len() as int,
            )[k]).source_id == ids[a] && edges_of(similar, shared, ids, ids.len() as int)[k].target_id
                == ids[b],
{
    law_last_row_of_a_pair_counts(similar, (ids[a], ids[b], 0), ids[a], ids[b]);
    law_last_row_of_a_pair_counts(similar, (ids[a], ids[b], 0), ids[b], ids[a]);
    let found = edge_between(similar, shared, ids[a], ids[b]);
    assert(found is Some);
    lemma_edges_of(similar, shared, ids, ids.len() as int);
    let edges = edges_of(similar, shared, ids, ids.len() as int);
    assert(edges.contains(found->0));
    let k = choose|k: int| 0 <= k < edges.len() && edges[k] == found->0;
    assert(edges[k].source_id == ids[a]);
}

proof fn lemma_meet_all(list: MetView, ids: Seq<Seq<char>>, depth: int)
    ensures
        list.is_prefix_of(meet_all(list, ids, depth)),
        forall|id: Seq<char>| #[trigger]
            was_met(meet_all(list, ids, depth), id) <==> was_met(list, id) || ids.contains(id),
        forall|i: int|
            list.len() <= i < meet_all(list, ids, depth).len() ==> (#[trigger] meet_all(
                list,
                ids,
                depth,
            )[i]).1 == depth,
        forall|i: int, j: int|
            #![trigger meet_all(list, ids, depth)[i], meet_all(list, ids, depth)[j]]
            list.len() <= i < j < meet_all(list, ids, depth).len() ==> stands_before(
                ids,
                meet_all(list, ids, depth)[i].0,
                meet_all(list, ids, depth)[j].0,
            ),
    decreases ids.len(),
{
    let now = meet_all(list, ids, depth);
    if ids.len() > 0 {
        let d = ids.drop_last();
        lemma_meet_all(list, d, depth);
        let before = meet_all(list, d, depth);
        let last = ids.last();
        assert(ids[ids.len() - 1] == last);
        assert(before.is_prefix_of(now));
        assert(forall|k: int| 0 <= k < d.len() ==> d[k] == ids[k]);
        assert forall|id: Seq<char>| #[trigger] was_met(now, id) <==> was_met(list, id)
            || ids.contains(id) by {
            if was_met(now, id) {
                let i = choose|i: int| 0 <= i < now.len() && (#[trigger] now[i]).0 == id;
                if i < before.len() {
                    assert(before[i] == now[i]);
                    assert(was_met(before, id));
                    if d.contains(id) {
                        let k = choose|k: int| 0 <= k < d.len() && d[k] == id;
                        assert(ids[k] == id);
                    }
                } else {
                    assert(id == last);
                }
            }
            if was_met(list, id) || ids.contains(id) {
                if was_met(before, id) {
                    let i = choose|i: int| 0 <= i < before.len() && (#[trigger] before[i]).0 == id;
                    assert(now[i].0 == id);
                } else {
                    let k = choose|k: int| 0 <= k < ids.len() && ids[k] == id;
                    if k < d.len() {
                        assert(d[k] == id);
                        assert(d.contains(id));
                    }
                    assert(id == last);
                    assert(now[now.len() - 1].0 == id);
                }
            }
        }
        assert forall|i: int, j: int|
            #![trigger now[i], now[j]]
            list.len() <= i < j < now.len() implies stands_before(ids, now[i].0, now[j].0) by {
            assert(now[i] == before[i]);
            if j < before.len() {
                assert(now[j] == before[j]);
                assert(stands_before(d, before[i].0, before[j].0));
                let (a, b) = choose|a: int, b: int|
                    0 <= a < b < d.len() && #[trigger] d[a] == before[i].0 && #[trigger] d[b]
                        == before[j].0;
                assert(ids[a] == now[i].0 && ids[b] == now[j].0);
            } else {
                assert(was_met(before, before[i].0));
                if was_met(list, before[i].0) {
                    lemma_met_once(list, d, depth, i);
                }
                assert(d.contains(before[i].0));
                let a = choose|a: int| 0 <= a < d.len() && d[a] == before[i].0;
                assert(ids[a] == now[i].0 && ids[ids.len() - 1] == now[j].0);
            }
        }
    } else {
        assert(now == list);
    }
}

proof fn lemma_met_once(list: MetView, ids: Seq<Seq<char>>, depth: int, i: int)
    requires
        list.len() <= i < meet_all(list, ids, depth).len(),
    ensures
        !was_met(list, meet_all(list, ids, depth)[i].0),
    decreases ids.len(),
{
    if ids.len() > 0 {
        let before = meet_all(list, ids.drop_last(), depth);
        let now = meet_all(list, ids, depth);
        if i < before.len() {
            assert(now[i] == before[i]);
            lemma_met_once(list, ids.drop_last(), depth, i);
        } else {
            if was_met(list, now[i].0) {
                let k = choose|k: int| 0 <= k < list.len() && (#[trigger] list[k]).0 == now[i].0;
                lemma_meet_all(list, ids.drop_last(), depth);
                assert(before[k] == list[k]);
            }
        }
    }
}

/// The first ring holds the centre and every atom that is like it or shares tags, and no other,
/// each once; all but the centre are one step away, those that are like it before the others, and
/// either in the order in which they were given.
pub proof fn law_first_ring_is_complete(
    center: Seq<char>,
    similar: Seq<Seq<char>>,
    tagged: Seq<Seq<char>>,
    id: Seq<char>,
)
    ensures
        ({
            let ring = first_ring(center, similar, tagged);
            &&& was_met(ring, id) <==> id == center || similar.contains(id) || tagged.contains(id)
            &&& forall|i: int| 0 < i < ring.len() ==> (#[trigger] ring[i]).1 == 1
            &&& forall|i: int, j: int|
                #![trigger ring[i], ring[j]]
                0 <= i < j < ring.len() ==> ring[i].0 != ring[j].0
            &&& forall|i: int, j: int|
                #![trigger ring[i], ring[j]]
                0 < i < j < ring.len() && similar.contains(ring[j].0) ==> similar.contains(
                    ring[i].0,
                ) && stands_before(similar, ring[i].0, ring[j].0)
            &&& forall|i: int, j: int|
                #![trigger ring[i], ring[j]]
                0 < i < j < ring.len() && !similar.contains(ring[i].0) ==> stands_before(
                    tagged,
                    ring[i].0,
                    ring[j].0,
                )
        }),
{
    let start: MetView = seq![(center, 0int)];
    let one = meet_all(start, similar, 1);
    let ring = first_ring(center, similar, tagged);
    lemma_meet_all(start, similar, 1);
    lemma_meet_all(one, tagged, 1);
    assert(was_met(start, id) <==> id == center) by {
        assert(start[0].0 == center);
    }
    assert(was_met(one, id) <==> id == center || similar.contains(id));
    assert forall|i: int| 0 < i < ring.len() implies (#[trigger] ring[i]).1 == 1 by {
        if i < one.len() {
            assert(ring[i] == one[i]);
        }
    }
    lemma_meet_all_keeps_rings(start, similar, 1);
    lemma_meet_all_keeps_rings(one, tagged, 1);
    law_centre_stands_first(center, similar, tagged, Seq::empty(), 1);
    assert forall|i: int, j: int|
        #![trigger ring[i], ring[j]]
        0 < i < j < ring.len() && !similar.contains(ring[i].0) implies stands_before(
        tagged,
        ring[i].0,
        ring[j].0,
    ) by {
        if i < one.len() {
            assert(ring[i] == one[i]);
            assert(was_met(one, one[i].0));
            assert(was_met(start, one[i].0) || similar.contains(one[i].0));
            if was_met(start, one[i].0) {
                let k = choose|k: int| 0 <= k < start.len() && (#[trigger] start[k]).0 == one[i].0;
                assert(one[i].0 == center);
            }
        }
    }
    assert forall|i: int, j: int|
        #![trigger ring[i], ring[j]]
        0 < i < j < ring.len() && similar.contains(ring[j].0) implies similar.contains(
        ring[i].0,
    ) && stands_before(similar, ring[i].0, ring[j].0) by {
        if j >= one.len() {
            lemma_met_once(one, tagged, 1, j);
            assert(was_met(one, ring[j].0));
        }
        assert(ring[j] == one[j]);
        assert(ring[i] == one[i]);
        assert(was_met(one, one[i].0));
        assert(was_met(start, one[i].0) || similar.contains(one[i].0));
        if was_met(start, one[i].0) {
            let k = choose|k: int| 0 <= k < start.len() && (#[trigger] start[k]).0 == one[i].0;
            assert(one[i].0 == center);
        }
    }
}

proof fn lemma_meet_lists(list: MetView, lists: Seq<Seq<Seq<char>>>, depth: int)
    ensures
        list.is_prefix_of(meet_lists(list, lists, depth)),
        forall|id: Seq<char>| #[trigger]
            was_met(meet_lists(list, lists, depth), id) <==> was_met(list, id) || exists|k: int|
                0 <= k < lists.len() && (#[trigger] lists[k]).contains(id),
        forall|i: int|
            list.len() <= i < meet_lists(list, lists, depth).len() ==> (#[trigger] meet_lists(
                list,
                lists,
                depth,
            )[i]).1 == depth,
    decreases lists.len(),
{
    let now = meet_lists(list, lists, depth);
    if lists.len() > 0 {
        let d = lists.drop_last();
        lemma_meet_lists(list, d, depth);
        let before = meet_lists(list, d, depth);
        lemma_meet_all(before, lists.last(), depth);
        assert(lists[lists.len() - 1] == lists.last());
        assert(forall|k: int| 0 <= k < d.len() ==> d[k] == lists[k]);
        assert forall|id: Seq<char>| #[trigger] was_met(now, id) <==> was_met(list, id) || exists|
            k: int,
        |
            0 <= k < lists.len() && (#[trigger] lists[k]).contains(id) by {
            assert(was_met(now, id) <==> was_met(before, id) || lists.last().contains(id));
            if was_met(before, id) && !was_met(list, id) {
                let k = choose|k: int| 0 <= k < d.len() && (#[trigger] d[k]).contains(id);
                assert(lists[k].contains(id));
            }
            if exists|k: int| 0 <= k < lists.len() && (#[trigger] lists[k]).contains(id) {
                let k = choose|k: int| 0 <= k < lists.len() && (#[trigger] lists[k]).contains(id);
                if k < d.len() {
                    assert(d[k].contains(id));
                }
            }
        }
        assert forall|i: int| list.len() <= i < now.len() implies (#[trigger] now[i]).1
            == depth by {
            if i < before.len() {
                assert(now[i] == before[i]);
            }
        }
    } else {
        assert(now == list);
    }
}

/// The second ring stands behind the first and holds every neighbour that was not met before, two
/// steps away; what was met keeps its place and its distance.
pub proof fn law_second_ring_is_complete(
    list: MetView,
    neighbours: Seq<Seq<Seq<char>>>,
    id: Seq<char>,
)
    ensures
        list.is_prefix_of(meet_lists(list, neighbours, 2)),
        was_met(meet_lists(list, neighbours, 2), id) <==> was_met(list, id) || exists|k: int|
            0 <= k < neighbours.len() && (#[trigger] neighbours[k]).contains(id),
        forall|i: int|
            list.len() <= i < meet_lists(list, neighbours, 2).len() ==> (#[trigger] meet_lists(
                list,
                neighbours,
                2,
            )[i]).1 == 2,
{
    lemma_meet_lists(list, neighbours, 2);
}

/// A neighbourhood has at most twenty atoms, at most thirty where it reaches two steps, and these
/// are the first that were met; a smaller one is left whole.
pub proof fn law_nearest_atoms_are_kept(list: MetView, depth: i32)
    ensures
        nearest(list, depth).is_prefix_of(list),
        depth < 2 && list.len() <= 20 ==> nearest(list, depth) == list,
        depth < 2 && list.len() > 20 ==> nearest(list, depth).len() == 20,
        depth >= 2 && list.len() <= 30 ==> nearest(list, depth) == list,
        depth >= 2 && list.len() > 30 ==> nearest(list, depth).len() == 30,
{
}

/// The atoms at a distance are all those that were met there, in their order.
pub proof fn law_atoms_at_a_distance(list: MetView, depth: int)
    ensures
        ids_at(list, depth) == list.filter(|m: (Seq<char>, int)| m.1 == depth).map_values(
            |m: (Seq<char>, int)| m.0,
        ),
    decreases list.len(),
{
    reveal(Seq::filter);
    let at = |m: (Seq<char>, int)| m.1 == depth;
    let id = |m: (Seq<char>, int)| m.0;
    if list.len() > 0 {
        let d = list.drop_last();
        law_atoms_at_a_distance(d, depth);
        if at(list.last()) {
            assert(list.filter(at).map_values(id) =~= d.filter(at).map_values(id).push(
                list.last().0,
            ));
        }
    } else {
        assert(list.filter(at).map_values(id) =~= Seq::empty());
    }
}

/// The row of an atom is the last one with its id, if there is any.
pub proof fn law_last_row_of_an_atom_counts(rows: Seq<Atom>, row: Atom, id: Seq<char>)
    ensures
        row_of(rows.push(row), row.id@) == Some(row),
        id != row.id@ ==> row_of(rows.push(row), id) == row_of(rows, id),
        row_of(Seq::empty(), id) is None,
        row_of(rows, id) matches Some(a) ==> a.id@ == id && rows.contains(a),
    decreases rows.len(),
{
    assert(rows.push(row).drop_last() =~= rows);
    if rows.len() > 0 {
        let d = rows.drop_last();
        law_last_row_of_an_atom_counts(d, row, id);
        if row_of(rows, id) is Some {
            let a = row_of(rows, id)->0;
            if rows.last().id@ == id {
                assert(rows[rows.len() - 1] == a);
            } else {
                let k = choose|k: int| 0 <= k < d.len() && d[k] == a;
                assert(rows[k] == a);
            }
        }
    }
}

/// Joining adds, for an atom that has a row, that row with the atom's tags and its distance behind
/// what is there, and nothing for one that has none.
pub proof fn law_atoms_are_joined_with_their_rows(
    chosen: MetView,
    m: (Seq<char>, int),
    rows: Seq<Atom>,
    tags: Map<Seq<char>, Vec<Tag>>,
)
    ensures
        joined_atoms(Seq::empty(), rows, tags) == Seq::<(Atom, Seq<Tag>, int)>::empty(),
        row_of(rows, m.0) is None ==> joined_atoms(chosen.push(m), rows, tags) == joined_atoms(
            chosen,
            rows,
            tags,
        ),
        row_of(rows, m.0) matches Some(a) ==> joined_atoms(chosen.push(m), rows, tags)
            == joined_atoms(chosen, rows, tags).push(
            (
                a,
                if tags.contains_key(m.0) {
                    tags[m.0]@
                } else {
                    Seq::empty()
                },
                m.1,
            ),
        ),
{
    assert(chosen.push(m).drop_last() =~= chosen);
}

} // verus!
