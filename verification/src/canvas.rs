//! The canvas: its cache, and what is shown on it. Coordinates and weights are given by the
//! numbers of the rows that hold them.

use crate::strmap::StrMap;
use crate::text::{glue, signed_decimal, signed_decimal_of, text_eq, views};
use vstd::prelude::*;

verus! {

/// How long a debounced rebuild waits, in milliseconds.
pub const CANVAS_CACHE_DEBOUNCE: u64 = 500;

/// How many edges of each atom are shown.
pub const EDGES_PER_ATOM: usize = 2;

/// How many atoms make a cluster.
pub const MIN_CLUSTER_SIZE: i32 = 3;

/// The cache of the canvas: a payload, if one is known, and the generation of its rebuilds.
pub struct CanvasCache<T> {
    data: Option<T>,
    rebuild_gen: u64,
}

/// The generation after another one.
pub open spec fn next_generation(g: u64) -> u64 {
    if g == u64::MAX {
        0
    } else {
        (g + 1) as u64
    }
}

impl<T> CanvasCache<T> {
    /// The payload, if one is known.
    pub closed spec fn payload(self) -> Option<T> {
        self.data
    }

    /// The generation.
    pub closed spec fn generation(self) -> u64 {
        self.rebuild_gen
    }

    /// An empty cache.
    pub fn new() -> (r: Self)
        ensures
            r.payload() is None,
            r.generation() == 0,
    {
        CanvasCache { data: None, rebuild_gen: 0 }
    }

    /// The payload, if one is known.
    pub fn get(&self) -> (r: Option<&T>)
        ensures
            match r {
                Some(d) => self.payload() == Some(*d),
                None => self.payload() is None,
            },
    {
        match &self.data {
            Some(d) => Some(d),
            None => None,
        }
    }

    /// Stores a payload that was just computed.
    pub fn set(&mut self, data: T)
        ensures
            final(self).payload() == Some(data),
            final(self).generation() == old(self).generation(),
    {
        self.data = Some(data);
    }

    /// Drops the payload at once, and makes every rebuild under way count for nothing.
    pub fn invalidate(&mut self)
        ensures
            final(self).payload() is None,
            final(self).generation() == next_generation(old(self).generation()),
    {
        self.rebuild_gen = if self.rebuild_gen == u64::MAX {
            0
        } else {
            self.rebuild_gen + 1
        };
        self.data = None;
    }

    /// Schedules a rebuild and hands out its number. The payload stays, stale as it is; earlier
    /// rebuilds count for nothing.
    pub fn invalidate_debounced(&mut self) -> (ticket: u64)
        ensures
            ticket == next_generation(old(self).generation()),
            final(self).generation() == ticket,
            final(self).payload() == old(self).payload(),
    {
        self.rebuild_gen = if self.rebuild_gen == u64::MAX {
            0
        } else {
            self.rebuild_gen + 1
        };
        self.rebuild_gen
    }

    /// Whether a scheduled rebuild is still the latest, and so worth computing.
    pub fn is_current(&self, ticket: u64) -> (r: bool)
        ensures
            r == (self.generation() == ticket),
    {
        self.rebuild_gen == ticket
    }

    /// A rebuild is done, or failed: its payload is stored if it is still the latest.
    pub fn finish_rebuild(&mut self, ticket: u64, fresh: Option<T>)
        ensures
            final(self).generation() == old(self).generation(),
            final(self).payload() == if old(self).generation() == ticket && fresh is Some {
                fresh
            } else {
                old(self).payload()
            },
    {
        if self.rebuild_gen == ticket {
            match fresh {
                Some(data) => {
                    self.data = Some(data);
                },
                None => {},
            }
        }
    }
}

/// The generation after a number of invalidations of either sort.
pub open spec fn generation_after(g: u64, n: nat) -> u64
    decreases n,
{
    if n == 0 {
        g
    } else {
        next_generation(generation_after(g, (n - 1) as nat))
    }
}

/// Only the latest rebuild counts: once a rebuild is scheduled, a further invalidation of either
/// sort, or a number of them short of the whole range of generations, leaves its number outdated,
/// so that finishing it changes nothing.
pub proof fn law_only_the_latest_rebuild_counts(ticket: u64, n: nat)
    requires
        0 < n <= u64::MAX,
    ensures
        generation_after(ticket, n) != ticket,
{
    lemma_generation_after(ticket, n);
}

proof fn lemma_generation_after(g: u64, n: nat)
    requires
        n <= u64::MAX,
    ensures
        generation_after(g, n) as int == if g + n <= u64::MAX {
            g + n
        } else {
            g + n - u64::MAX - 1
        },
    decreases n,
{
    if n > 0 {
        lemma_generation_after(g, (n - 1) as nat);
    }
}

/// The last place at which an id stands, if it does.
pub open spec fn last_place(ids: Seq<Seq<char>>, id: Seq<char>) -> Option<int>
    decreases ids.len(),
{
    if ids.len() == 0 {
        None
    } else if ids.last() == id {
        Some(ids.len() - 1)
    } else {
        last_place(ids.drop_last(), id)
    }
}

fn find_place(ids: &Vec<String>, id: &str) -> (r: Option<usize>)
    ensures
        match r {
            Some(i) => i < ids@.len() && last_place(views(ids@), id@) == Some(i as int),
            None => last_place(views(ids@), id@) is None,
        },
{
    let ghost all = views(ids@);
    let mut i: usize = ids.len();
    assert(all.take(i as int) =~= all);
    while i > 0
        invariant
            i <= ids@.len(),
            all == views(ids@),
            last_place(all, id@) == last_place(all.take(i as int), id@),
        decreases i,
    {
        assert(all.take(i as int).drop_last() =~= all.take(i - 1));
        assert(all.take(i as int).last() == ids@[i - 1]@);
        if text_eq(ids[i - 1].as_str(), id) {
            return Some(i - 1);
        }
        i = i - 1;
    }
    None
}

/// What is known of an atom that may be shown.
#[derive(Debug, Clone)]
pub struct CanvasAtomRow {
    pub atom_id: String,
    pub title: String,
    pub primary_tag: Option<String>,
    pub tag_count: i32,
    pub source_url: Option<String>,
}

/// An atom on the canvas; `position` is the number of its projection.
#[derive(Debug)]
pub struct CanvasAtom {
    pub row: CanvasAtomRow,
    pub tag_ids: Vec<String>,
    pub position: usize,
}

/// The ids of the tags of an atom.
pub open spec fn tag_ids_of(tags: Map<Seq<char>, Vec<String>>, id: Seq<char>) -> Seq<String> {
    if tags.contains_key(id) {
        tags[id]@
    } else {
        Seq::empty()
    }
}

/// The atoms on the canvas, and the tags that are left: a row with a projection takes the tags of
/// its atom with it, one without is not shown.
pub open spec fn placed(
    rows: Seq<CanvasAtomRow>,
    projected: Seq<Seq<char>>,
    tags: Map<Seq<char>, Vec<String>>,
) -> (Seq<(CanvasAtomRow, Seq<String>, int)>, Map<Seq<char>, Vec<String>>)
    decreases rows.len(),
{
    if rows.len() == 0 {
        (Seq::empty(), tags)
    } else {
        let before = placed(rows.drop_last(), projected, tags);
        let row = rows.last();
        match last_place(projected, row.atom_id@) {
            Some(p) => (
                before.0.push((row, tag_ids_of(before.1, row.atom_id@), p)),
                before.1.remove(row.atom_id@),
            ),
            None => before,
        }
    }
}

/// What a list of atoms on the canvas holds.
pub open spec fn canvas_view(atoms: Seq<CanvasAtom>) -> Seq<(CanvasAtomRow, Seq<String>, int)> {
    atoms.map_values(|a: CanvasAtom| (a.row, a.tag_ids@, a.position as int))
}

/// The atoms on the canvas: those of the rows that have a projection, in the order of the rows.
pub fn place_atoms(
    rows: Vec<CanvasAtomRow>,
    projected: &Vec<String>,
    tags: StrMap<Vec<String>>,
) -> (r: Vec<CanvasAtom>)
    ensures
        canvas_view(r@) == placed(rows@, views(projected@), tags@).0,
{
    let ghost all = rows@;
    let ghost start = tags@;
    let ghost ids = views(projected@);
    let mut tags = tags;
    let mut r: Vec<CanvasAtom> = Vec::new();
    assert(canvas_view(r@) =~= Seq::empty());
    for row in it: rows.into_iter()
        invariant
            it.seq() == all,
            ids == views(projected@),
            canvas_view(r@) == placed(all.take(it.index() as int), ids, start).0,
            tags@ == placed(all.take(it.index() as int), ids, start).1,
    {
        let ghost before = canvas_view(r@);
        assert(all.take(it.index() + 1).drop_last() =~= all.take(it.index() as int));
        match find_place(projected, row.atom_id.as_str()) {
            Some(position) => {
                let ghost left = tags@;
                let tag_ids = match tags.remove(row.atom_id.as_str()) {
                    Some(t) => t,
                    None => Vec::new(),
                };
                assert(tag_ids@ =~= tag_ids_of(left, row.atom_id@));
                let atom = CanvasAtom { row, tag_ids, position };
                let ghost av = (atom.row, atom.tag_ids@, atom.position as int);
                r.push(atom);
                assert(canvas_view(r@) =~= before.push(av));
            },
            None => {},
        }
    }
    assert(all.take(all.len() as int) =~= all);
    r
}

/// An edge between two atoms.
#[derive(Debug, Clone)]
pub struct CanvasEdge {
    pub source: String,
    pub target: String,
}

/// What a list of edges holds.
pub open spec fn canvas_edges(edges: Seq<CanvasEdge>) -> Seq<(Seq<char>, Seq<char>)> {
    edges.map_values(|e: CanvasEdge| (e.source@, e.target@))
}

/// How many ends the chosen edges have at an atom.
pub open spec fn degree(edges: Seq<(Seq<char>, Seq<char>)>, chosen: Seq<int>, id: Seq<char>) -> nat
    decreases chosen.len(),
{
    if chosen.len() == 0 {
        0
    } else {
        let e = edges[chosen.last()];
        degree(edges, chosen.drop_last(), id) + (if e.0 == id {
            1nat
        } else {
            0
        }) + (if e.1 == id {
            1nat
        } else {
            0
        })
    }
}

/// Which of the first `n` edges are kept: an edge is passed over when one of its atoms has its
/// fill already.
pub open spec fn kept_edges(edges: Seq<(Seq<char>, Seq<char>)>, top_k: nat, n: nat) -> Seq<int>
    decreases n,
{
    if n == 0 {
        Seq::empty()
    } else {
        let before = kept_edges(edges, top_k, (n - 1) as nat);
        let e = edges[n - 1];
        if degree(edges, before, e.0) >= top_k || degree(edges, before, e.1) >= top_k {
            before
        } else {
            before.push(n - 1)
        }
    }
}

fn count_ends(edges: &Vec<CanvasEdge>, chosen: &Vec<usize>, id: &str, cap: usize) -> (r: bool)
    requires
        forall|i: int| 0 <= i < chosen@.len() ==> (#[trigger] chosen@[i]) < edges@.len(),
    ensures
        r == (degree(canvas_edges(edges@), chosen@.map_values(|c: usize| c as int), id@) >= cap),
{
    let ghost es = canvas_edges(edges@);
    let ghost cs = chosen@.map_values(|c: usize| c as int);
    let mut left: usize = cap;
    let mut i: usize = 0;
    assert(cs.take(0) =~= Seq::empty());
    while i < chosen.len()
        invariant
            i <= chosen@.len(),
            es == canvas_edges(edges@),
            cs == chosen@.map_values(|c: usize| c as int),
            forall|i: int| 0 <= i < chosen@.len() ==> (#[trigger] chosen@[i]) < edges@.len(),
            left <= cap,
            left == if degree(es, cs.take(i as int), id@) >= cap {
                0
            } else {
                cap - degree(es, cs.take(i as int), id@)
            },
        decreases chosen@.len() - i,
    {
        assert(cs.take(i + 1).drop_last() =~= cs.take(i as int));
        let e = &edges[chosen[i]];
        if left > 0 && text_eq(e.source.as_str(), id) {
            left = left - 1;
        }
        if left > 0 && text_eq(e.target.as_str(), id) {
            left = left - 1;
        }
        i = i + 1;
    }
    assert(cs.take(i as int) =~= cs);
    left == 0
}

/// The numbers of the edges to show, of edges that stand by falling score: at most `top_k` of
/// each atom.
pub fn filter_top_k_edges(edges: &Vec<CanvasEdge>, top_k: usize) -> (r: Vec<usize>)
    ensures
        r@.map_values(|c: usize| c as int) == kept_edges(
            canvas_edges(edges@),
            top_k as nat,
            edges@.len(),
        ),
{
    let ghost es = canvas_edges(edges@);
    let mut r: Vec<usize> = Vec::new();
    let mut i: usize = 0;
    assert(r@.map_values(|c: usize| c as int) =~= Seq::empty());
    while i < edges.len()
        invariant
            i <= edges@.len(),
            es == canvas_edges(edges@),
            forall|j: int| 0 <= j < r@.len() ==> (#[trigger] r@[j]) < i,
            r@.map_values(|c: usize| c as int) == kept_edges(es, top_k as nat, i as nat),
        decreases edges@.len() - i,
    {
        let ghost before = r@.map_values(|c: usize| c as int);
        let full = count_ends(edges, &r, edges[i].source.as_str(), top_k) || count_ends(
            edges,
            &r,
            edges[i].target.as_str(),
            top_k,
        );
        if !full {
            r.push(i);
            assert(r@.map_values(|c: usize| c as int) =~= before.push(i as int));
        }
        i = i + 1;
    }
    r
}

/// How many of the chosen edges touch an atom.
pub open spec fn touching(
    edges: Seq<(Seq<char>, Seq<char>)>,
    chosen: Seq<int>,
    id: Seq<char>,
) -> nat
    decreases chosen.len(),
{
    if chosen.len() == 0 {
        0
    } else {
        let e = edges[chosen.last()];
        touching(edges, chosen.drop_last(), id) + (if e.0 == id || e.1 == id {
            1nat
        } else {
            0
        })
    }
}

proof fn lemma_touching_below_degree(
    edges: Seq<(Seq<char>, Seq<char>)>,
    chosen: Seq<int>,
    id: Seq<char>,
)
    ensures
        touching(edges, chosen, id) <= degree(edges, chosen, id),
    decreases chosen.len(),
{
    if chosen.len() > 0 {
        lemma_touching_below_degree(edges, chosen.drop_last(), id);
    }
}

/// No atom is shown with more than `top_k` edges.
pub proof fn law_edges_are_limited_per_atom(
    edges: Seq<(Seq<char>, Seq<char>)>,
    top_k: nat,
    n: nat,
    id: Seq<char>,
)
    requires
        n <= edges.len(),
    ensures
        touching(edges, kept_edges(edges, top_k, n), id) <= top_k,
    decreases n,
{
    if n > 0 {
        let before = kept_edges(edges, top_k, (n - 1) as nat);
        law_edges_are_limited_per_atom(edges, top_k, (n - 1) as nat, id);
        lemma_touching_below_degree(edges, before, id);
        assert(before.push(n - 1).drop_last() =~= before);
    }
}

proof fn lemma_kept_edges_are_seen(edges: Seq<(Seq<char>, Seq<char>)>, top_k: nat, n: nat)
    requires
        n <= edges.len(),
    ensures
        forall|j: int|
            0 <= j < kept_edges(edges, top_k, n).len() ==> 0 <= #[trigger] kept_edges(
                edges,
                top_k,
                n,
            )[j] < n,
    decreases n,
{
    if n > 0 {
        lemma_kept_edges_are_seen(edges, top_k, (n - 1) as nat);
        let before = kept_edges(edges, top_k, (n - 1) as nat);
        let after = kept_edges(edges, top_k, n);
        assert forall|j: int| 0 <= j < after.len() implies 0 <= #[trigger] after[j] < n by {
            if j < before.len() {
                assert(after[j] == before[j]);
            }
        }
    }
}

proof fn lemma_kept_stays(edges: Seq<(Seq<char>, Seq<char>)>, top_k: nat, i: nat, n: nat)
    requires
        i < n <= edges.len(),
    ensures
        kept_edges(edges, top_k, n).contains(i as int) == kept_edges(edges, top_k, i + 1).contains(
            i as int,
        ),
    decreases n - i,
{
    if n > i + 1 {
        lemma_kept_stays(edges, top_k, i, (n - 1) as nat);
        let before = kept_edges(edges, top_k, (n - 1) as nat);
        let after = kept_edges(edges, top_k, n);
        if before.contains(i as int) {
            let j = choose|j: int| 0 <= j < before.len() && before[j] == i;
            assert(after[j] == i);
        }
        if after.contains(i as int) {
            let j = choose|j: int| 0 <= j < after.len() && after[j] == i;
            assert(before[j] == i);
        }
    }
}

/// An edge gives way only to better ones: it is shown unless, of the edges before it, those that
/// are shown fill one of its atoms.
pub proof fn law_edges_give_way_to_better_ones(
    edges: Seq<(Seq<char>, Seq<char>)>,
    top_k: nat,
    i: nat,
)
    requires
        i < edges.len(),
    ensures
        kept_edges(edges, top_k, edges.len()).contains(i as int) <==> degree(
            edges,
            kept_edges(edges, top_k, i),
            edges[i as int].0,
        ) < top_k && degree(edges, kept_edges(edges, top_k, i), edges[i as int].1) < top_k,
{
    let before = kept_edges(edges, top_k, i);
    lemma_kept_stays(edges, top_k, i, edges.len());
    lemma_kept_edges_are_seen(edges, top_k, i);
    assert(before.push(i as int)[before.len() as int] == i);
}

/// A cluster of atoms.
#[derive(Debug)]
pub struct AtomCluster {
    pub cluster_id: i32,
    pub atom_ids: Vec<String>,
    pub dominant_tags: Vec<String>,
}

/// The label of a cluster; its place is the mean of the projections `positions`.
#[derive(Debug)]
pub struct ClusterLabel {
    pub id: String,
    pub label: String,
    pub atom_count: i32,
    pub atom_ids: Vec<String>,
    pub positions: Vec<usize>,
}

/// What a label holds.
pub struct LabelView {
    pub id: Seq<char>,
    pub label: Seq<char>,
    pub atom_count: int,
    pub atom_ids: Seq<String>,
    pub positions: Seq<int>,
}

impl View for ClusterLabel {
    type V = LabelView;

    open spec fn view(&self) -> LabelView {
        LabelView {
            id: self.id@,
            label: self.label@,
            atom_count: self.atom_count as int,
            atom_ids: self.atom_ids@,
            positions: self.positions@.map_values(|p: usize| p as int),
        }
    }
}

/// The projections of the atoms that have one.
pub open spec fn places_of(projected: Seq<Seq<char>>, ids: Seq<Seq<char>>) -> Seq<int>
    decreases ids.len(),
{
    if ids.len() == 0 {
        Seq::empty()
    } else {
        let before = places_of(projected, ids.drop_last());
        match last_place(projected, ids.last()) {
            Some(p) => before.push(p),
            None => before,
        }
    }
}

/// The text of a cluster's label: its first two tags, its only tag, or its number.
pub open spec fn cluster_text(tags: Seq<Seq<char>>, cluster_id: int) -> Seq<char> {
    if tags.len() >= 2 {
        tags[0] + ", "@ + tags[1]
    } else if tags.len() == 1 {
        tags[0]
    } else {
        "Cluster "@ + signed_decimal(cluster_id + 1)
    }
}

/// The label of a cluster, if any of its atoms has a projection.
pub open spec fn label_of(projected: Seq<Seq<char>>, c: AtomCluster) -> Option<LabelView> {
    let positions = places_of(projected, views(c.atom_ids@));
    if positions.len() == 0 {
        None
    } else {
        Some(
            LabelView {
                id: "cluster:"@ + signed_decimal(c.cluster_id as int),
                label: cluster_text(views(c.dominant_tags@), c.cluster_id as int),
                atom_count: c.atom_ids@.len() as int,
                atom_ids: c.atom_ids@,
                positions,
            },
        )
    }
}

/// The labels of the clusters that have one, in order.
pub open spec fn labels_of(projected: Seq<Seq<char>>, clusters: Seq<AtomCluster>) -> Seq<LabelView>
    decreases clusters.len(),
{
    if clusters.len() == 0 {
        Seq::empty()
    } else {
        let before = labels_of(projected, clusters.drop_last());
        match label_of(projected, clusters.last()) {
            Some(l) => before.push(l),
            None => before,
        }
    }
}

fn find_places(projected: &Vec<String>, ids: &Vec<String>) -> (r: Vec<usize>)
    ensures
        r@.map_values(|p: usize| p as int) == places_of(views(projected@), views(ids@)),
{
    let ghost all = views(ids@);
    let mut r: Vec<usize> = Vec::new();
    let mut i: usize = 0;
    assert(r@.map_values(|p: usize| p as int) =~= Seq::empty());
    while i < ids.len()
        invariant
            i <= ids@.len(),
            all == views(ids@),
            r@.map_values(|p: usize| p as int) == places_of(
                views(projected@),
                all.take(i as int),
            ),
        decreases ids@.len() - i,
    {
        let ghost before = r@.map_values(|p: usize| p as int);
        assert(all.take(i + 1).drop_last() =~= all.take(i as int));
        assert(all.take(i + 1).last() == ids@[i as int]@);
        match find_place(projected, ids[i].as_str()) {
            Some(p) => {
                r.push(p);
                assert(r@.map_values(|p: usize| p as int) =~= before.push(p as int));
            },
            None => {},
        }
        i = i + 1;
    }
    assert(all.take(i as int) =~= all);
    r
}

fn label_cluster(projected: &Vec<String>, c: &AtomCluster) -> (r: Option<ClusterLabel>)
    requires
        c.atom_ids@.len() <= i32::MAX,
        c.dominant_tags@.len() == 0 ==> c.cluster_id < i32::MAX,
    ensures
        (match r {
            Some(l) => Some(l@),
            None => None,
        }) == label_of(views(projected@), *c),
{
    let positions = find_places(projected, &c.atom_ids);
    if positions.len() == 0 {
        return None;
    }
    let n: usize = c.dominant_tags.len();
    assert(views(c.dominant_tags@).len() == n);
    let label = if n >= 2 {
        assert(views(c.dominant_tags@)[0] == c.dominant_tags@[0]@);
        assert(views(c.dominant_tags@)[1] == c.dominant_tags@[1]@);
        let head = glue(c.dominant_tags[0].as_str(), ", ");
        glue(head.as_str(), c.dominant_tags[1].as_str())
    } else if n == 1 {
        assert(views(c.dominant_tags@)[0] == c.dominant_tags@[0]@);
        c.dominant_tags[0].clone()
    } else {
        glue("Cluster ", signed_decimal_of(c.cluster_id as i64 + 1).as_str())
    };
    Some(
        ClusterLabel {
            id: glue("cluster:", signed_decimal_of(c.cluster_id as i64).as_str()),
            label,
            atom_count: c.atom_ids.len() as i32,
            atom_ids: crate::ingest::copy_texts(&c.atom_ids),
            positions,
        },
    )
}

/// The labels of the clusters: a cluster none of whose atoms has a projection gets none.
pub fn build_cluster_labels(clusters: &Vec<AtomCluster>, projected: &Vec<String>) -> (r: Vec<
    ClusterLabel,
>)
    requires
        forall|i: int|
            0 <= i < clusters@.len() ==> (#[trigger] clusters@[i]).atom_ids@.len() <= i32::MAX && (
            clusters@[i].dominant_tags@.len() == 0 ==> clusters@[i].cluster_id < i32::MAX),
    ensures
        r@.map_values(|l: ClusterLabel| l@) == labels_of(views(projected@), clusters@),
{
    let mut r: Vec<ClusterLabel> = Vec::new();
    let mut i: usize = 0;
    assert(r@.map_values(|l: ClusterLabel| l@) =~= Seq::empty());
    while i < clusters.len()
        invariant
            i <= clusters@.len(),
            forall|i: int|
                0 <= i < clusters@.len() ==> (#[trigger] clusters@[i]).atom_ids@.len() <= i32::MAX
                    && (clusters@[i].dominant_tags@.len() == 0 ==> clusters@[i].cluster_id
                    < i32::MAX),
            r@.map_values(|l: ClusterLabel| l@) == labels_of(
                views(projected@),
                clusters@.take(i as int),
            ),
        decreases clusters@.len() - i,
    {
        let ghost before = r@.map_values(|l: ClusterLabel| l@);
        assert(clusters@.take(i + 1).drop_last() =~= clusters@.take(i as int));
        match label_cluster(projected, &clusters[i]) {
            Some(l) => {
                let ghost lv = l@;
                r.push(l);
                assert(r@.map_values(|l: ClusterLabel| l@) =~= before.push(lv));
            },
            None => {},
        }
        i = i + 1;
    }
    assert(clusters@.take(i as int) =~= clusters@);
    r
}

/// The last place of an id is one where it stands, and it stands nowhere behind; an id has none
/// if and only if it stands nowhere.
pub proof fn law_last_place_is_the_last(ids: Seq<Seq<char>>, id: Seq<char>)
    ensures
        match last_place(ids, id) {
            Some(p) => 0 <= p < ids.len() && ids[p] == id && forall|j: int|
                p < j < ids.len() ==> #[trigger] ids[j] != id,
            None => !ids.contains(id),
        },
    decreases ids.len(),
{
    if ids.len() > 0 {
        let d = ids.drop_last();
        law_last_place_is_the_last(d, id);
        if ids.last() != id {
            match last_place(d, id) {
                Some(p) => {
                    assert(d[p] == ids[p]);
                    assert forall|j: int| p < j < ids.len() implies #[trigger] ids[j] != id by {
                        if j < d.len() {
                            assert(d[j] == ids[j]);
                        }
                    }
                },
                None => {
                    if ids.contains(id) {
                        let j = ids.index_of(id);
                        assert(d[j] == id);
                    }
                },
            }
        }
    }
}

proof fn lemma_placed(
    rows: Seq<CanvasAtomRow>,
    projected: Seq<Seq<char>>,
    tags: Map<Seq<char>, Vec<String>>,
)
    ensures
        placed(rows, projected, tags).0.map_values(
            |a: (CanvasAtomRow, Seq<String>, int)| a.0,
        ) == rows.filter(|r: CanvasAtomRow| projected.contains(r.atom_id@)),
        forall|i: int|
            #![trigger placed(rows, projected, tags).0[i]]
            0 <= i < placed(rows, projected, tags).0.len() ==> {
                let a = placed(rows, projected, tags).0[i];
                &&& last_place(projected, a.0.atom_id@) == Some(a.2)
                &&& a.1 == if first_of_its_id(placed(rows, projected, tags).0, i) {
                    tag_ids_of(tags, a.0.atom_id@)
                } else {
                    Seq::empty()
                }
            },
        forall|id: Seq<char>| #[trigger]
            tag_ids_of(placed(rows, projected, tags).1, id) == if shows(
                placed(rows, projected, tags).0,
                id,
            ) {
                Seq::empty()
            } else {
                tag_ids_of(tags, id)
            },
    decreases rows.len(),
{
    reveal(Seq::filter);
    let f = |a: (CanvasAtomRow, Seq<String>, int)| a.0;
    let p = |r: CanvasAtomRow| projected.contains(r.atom_id@);
    let now = placed(rows, projected, tags);
    if rows.len() == 0 {
        assert(now.0.map_values(f) =~= rows.filter(p));
    } else {
        let d = rows.drop_last();
        let row = rows.last();
        lemma_placed(d, projected, tags);
        law_last_place_is_the_last(projected, row.atom_id@);
        let before = placed(d, projected, tags);
        match last_place(projected, row.atom_id@) {
            Some(place) => {
                assert(projected[place] == row.atom_id@);
                assert(p(row));
                assert(now.0.map_values(f) =~= before.0.map_values(f).push(row));
                assert forall|i: int|
                    #![trigger now.0[i]]
                    0 <= i < now.0.len() implies {
                    let a = now.0[i];
                    &&& last_place(projected, a.0.atom_id@) == Some(a.2)
                    &&& a.1 == if first_of_its_id(now.0, i) {
                        tag_ids_of(tags, a.0.atom_id@)
                    } else {
                        Seq::empty()
                    }
                } by {
                    if i < before.0.len() {
                        assert(now.0[i] == before.0[i]);
                        assert(forall|j: int| 0 <= j < i ==> now.0[j] == before.0[j]);
                        assert(first_of_its_id(now.0, i) == first_of_its_id(before.0, i));
                    } else {
                        assert(now.0[i].1 == tag_ids_of(before.1, row.atom_id@));
                        assert(forall|j: int| 0 <= j < i ==> now.0[j] == before.0[j]);
                        assert(first_of_its_id(now.0, i) == !shows(before.0, row.atom_id@));
                    }
                }
                assert forall|id: Seq<char>| #[trigger]
                    tag_ids_of(now.1, id) == if shows(now.0, id) {
                        Seq::empty()
                    } else {
                        tag_ids_of(tags, id)
                    } by {
                    assert(tag_ids_of(before.1, id) == if shows(before.0, id) {
                        Seq::empty()
                    } else {
                        tag_ids_of(tags, id)
                    });
                    if shows(before.0, id) {
                        let j = choose|j: int|
                            0 <= j < before.0.len() && (#[trigger] before.0[j]).0.atom_id@ == id;
                        assert(now.0[j] == before.0[j]);
                    }
                    if shows(now.0, id) && id != row.atom_id@ {
                        let j = choose|j: int|
                            0 <= j < now.0.len() && (#[trigger] now.0[j]).0.atom_id@ == id;
                        assert(now.0[j] == before.0[j]);
                    }
                    if id == row.atom_id@ {
                        assert(now.0[before.0.len() as int].0.atom_id@ == id);
                    }
                }
            },
            None => {
                assert(!p(row));
            },
        }
    }
}

/// Whether an atom is among those on the canvas.
pub open spec fn shows(atoms: Seq<(CanvasAtomRow, Seq<String>, int)>, id: Seq<char>) -> bool {
    exists|j: int| 0 <= j < atoms.len() && (#[trigger] atoms[j]).0.atom_id@ == id
}

/// Whether no atom before the one at `i` has its id.
pub open spec fn first_of_its_id(
    atoms: Seq<(CanvasAtomRow, Seq<String>, int)>,
    i: int,
) -> bool {
    forall|j: int| 0 <= j < i ==> (#[trigger] atoms[j]).0.atom_id@ != atoms[i].0.atom_id@
}

/// The rows on the canvas are those whose atom has a projection, all of them in order; each stands
/// where its atom's projection is, with all the tags of its atom.
pub proof fn law_projected_atoms_are_placed(
    rows: Vec<CanvasAtomRow>,
    projected: &Vec<String>,
    tags: StrMap<Vec<String>>,
    r: Vec<CanvasAtom>,
)
    requires
        call_ensures(place_atoms, (rows, projected, tags), r),
    ensures
        r@.map_values(|a: CanvasAtom| a.row) == rows@.filter(
            |q: CanvasAtomRow| views(projected@).contains(q.atom_id@),
        ),
        forall|i: int|
            #![trigger r@[i]]
            0 <= i < r@.len() ==> {
                &&& r@[i].position < projected@.len()
                &&& projected@[r@[i].position as int]@ == r@[i].row.atom_id@
                &&& (forall|j: int|
                    0 <= j < i ==> (#[trigger] r@[j]).row.atom_id@ != r@[i].row.atom_id@)
                    && tags@.contains_key(r@[i].row.atom_id@) ==> r@[i].tag_ids@
                    == tags@[r@[i].row.atom_id@]@
                &&& !tags@.contains_key(r@[i].row.atom_id@) ==> r@[i].tag_ids@.len() == 0
            },
{
    let ids = views(projected@);
    let list = placed(rows@, ids, tags@).0;
    lemma_placed(rows@, ids, tags@);
    assert(canvas_view(r@) == list);
    assert(canvas_view(r@).len() == r@.len());
    assert forall|i: int| #![trigger r@[i]] 0 <= i < r@.len() implies list[i] == (
        r@[i].row,
        r@[i].tag_ids@,
        r@[i].position as int,
    ) by {
        assert(canvas_view(r@)[i] == list[i]);
    }
    assert(r@.map_values(|a: CanvasAtom| a.row) =~= list.map_values(
        |a: (CanvasAtomRow, Seq<String>, int)| a.0,
    ));
    assert forall|i: int| #![trigger r@[i]] 0 <= i < r@.len() implies {
        &&& r@[i].position < projected@.len()
        &&& projected@[r@[i].position as int]@ == r@[i].row.atom_id@
        &&& (forall|j: int|
            0 <= j < i ==> (#[trigger] r@[j]).row.atom_id@ != r@[i].row.atom_id@)
            && tags@.contains_key(r@[i].row.atom_id@) ==> r@[i].tag_ids@
            == tags@[r@[i].row.atom_id@]@
        &&& !tags@.contains_key(r@[i].row.atom_id@) ==> r@[i].tag_ids@.len() == 0
    } by {
        assert(list[i] == (r@[i].row, r@[i].tag_ids@, r@[i].position as int));
        law_last_place_is_the_last(ids, r@[i].row.atom_id@);
        assert(ids[r@[i].position as int] == projected@[r@[i].position as int]@);
        if forall|j: int| 0 <= j < i ==> (#[trigger] r@[j]).row.atom_id@ != r@[i].row.atom_id@ {
            assert forall|j: int| 0 <= j < i implies (#[trigger] list[j]).0.atom_id@
                != list[i].0.atom_id@ by {
                assert(list[j].0 == r@[j].row);
            }
            assert(first_of_its_id(list, i));
        }
    }
}

/// The ends at an atom are counted one by one: at every chosen edge that starts there, and at
/// every one that ends there.
pub proof fn law_every_end_counts(
    edges: Seq<(Seq<char>, Seq<char>)>,
    chosen: Seq<int>,
    id: Seq<char>,
)
    ensures
        degree(edges, chosen, id) == chosen.filter(|c: int| edges[c].0 == id).len()
            + chosen.filter(|c: int| edges[c].1 == id).len(),
    decreases chosen.len(),
{
    reveal(Seq::filter);
    if chosen.len() > 0 {
        law_every_end_counts(edges, chosen.drop_last(), id);
    }
}

/// The edges that are shown come in the order in which they were given, none of them twice.
pub proof fn law_shown_edges_keep_their_order(
    edges: &Vec<CanvasEdge>,
    top_k: usize,
    r: Vec<usize>,
    i: int,
    j: int,
)
    requires
        call_ensures(filter_top_k_edges, (edges, top_k), r),
        0 <= i < j < r@.len(),
    ensures
        r@[i] < r@[j] < edges@.len(),
{
    let kept = kept_edges(canvas_edges(edges@), top_k as nat, edges@.len());
    let given = r@.map_values(|c: usize| c as int);
    assert(given == kept);
    assert(given[i] == r@[i] && given[j] == r@[j]);
    assert(canvas_edges(edges@).len() == edges@.len());
    lemma_kept_in_order(canvas_edges(edges@), top_k as nat, edges@.len());
    lemma_kept_edges_are_seen(canvas_edges(edges@), top_k as nat, edges@.len());
}

proof fn lemma_kept_in_order(edges: Seq<(Seq<char>, Seq<char>)>, top_k: nat, n: nat)
    requires
        n <= edges.len(),
    ensures
        forall|i: int, j: int|
            #![trigger kept_edges(edges, top_k, n)[i], kept_edges(edges, top_k, n)[j]]
            0 <= i < j < kept_edges(edges, top_k, n).len() ==> kept_edges(edges, top_k, n)[i]
                < kept_edges(edges, top_k, n)[j],
    decreases n,
{
    if n > 0 {
        let m = (n - 1) as nat;
        lemma_kept_in_order(edges, top_k, m);
        lemma_kept_edges_are_seen(edges, top_k, m);
        let before = kept_edges(edges, top_k, m);
        let now = kept_edges(edges, top_k, n);
        assert forall|i: int, j: int|
            #![trigger now[i], now[j]]
            0 <= i < j < now.len() implies now[i] < now[j] by {
            assert(now[i] == before[i]);
            if j < before.len() {
                assert(now[j] == before[j]);
            }
        }
    }
}

/// The projections of a list of atoms are those of the atoms that have one, in order, each the
/// last one of its atom.
pub proof fn law_places_are_of_projected_atoms(projected: Seq<Seq<char>>, ids: Seq<Seq<char>>)
    ensures
        places_of(projected, ids) == ids.filter(
            |id: Seq<char>| projected.contains(id),
        ).map_values(|id: Seq<char>| last_place(projected, id)->0),
    decreases ids.len(),
{
    reveal(Seq::filter);
    let p = |id: Seq<char>| projected.contains(id);
    let f = |id: Seq<char>| last_place(projected, id)->0;
    if ids.len() > 0 {
        let d = ids.drop_last();
        law_places_are_of_projected_atoms(projected, d);
        law_last_place_is_the_last(projected, ids.last());
        if p(ids.last()) {
            assert(ids.filter(p).map_values(f) =~= d.filter(p).map_values(f).push(f(ids.last())));
        } else {
            assert(last_place(projected, ids.last()) is None) by {
                if last_place(projected, ids.last()) is Some {
                    assert(projected[last_place(projected, ids.last())->0] == ids.last());
                }
            }
        }
    } else {
        assert(ids.filter(p).map_values(f) =~= Seq::empty());
    }
}

/// Whether any atom of a cluster has a projection.
pub open spec fn is_on_canvas(projected: Seq<String>, c: AtomCluster) -> bool {
    exists|i: int|
        0 <= i < c.atom_ids@.len() && views(projected).contains((#[trigger] c.atom_ids@[i])@)
}

/// Whether a label is a cluster's own: with all its atoms, their number, and its first two tags,
/// its only tag, or its number for a text.
pub open spec fn labels(l: ClusterLabel, c: AtomCluster) -> bool {
    &&& l.id@ == "cluster:"@ + signed_decimal(c.cluster_id as int)
    &&& l.atom_count == c.atom_ids@.len()
    &&& l.atom_ids@ == c.atom_ids@
    &&& c.dominant_tags@.len() >= 2 ==> l.label@ == c.dominant_tags@[0]@ + ", "@
        + c.dominant_tags@[1]@
    &&& c.dominant_tags@.len() == 1 ==> l.label@ == c.dominant_tags@[0]@
    &&& c.dominant_tags@.len() == 0 ==> l.label@ == "Cluster "@ + signed_decimal(c.cluster_id + 1)
}

/// Every cluster with an atom on the canvas gets a label of its own, in order, and no other
/// cluster does.
pub proof fn law_clusters_on_canvas_are_labelled(
    clusters: &Vec<AtomCluster>,
    projected: &Vec<String>,
    r: Vec<ClusterLabel>,
)
    requires
        call_ensures(build_cluster_labels, (clusters, projected), r),
    ensures
        ({
            let shown = clusters@.filter(|c: AtomCluster| is_on_canvas(projected@, c));
            &&& r@.len() == shown.len()
            &&& forall|i: int| #![trigger r@[i]] 0 <= i < r@.len() ==> labels(r@[i], shown[i])
        }),
{
    let shown = clusters@.filter(|c: AtomCluster| is_on_canvas(projected@, c));
    let all = r@.map_values(|l: ClusterLabel| l@);
    lemma_labels(projected@, clusters@);
    assert(all.len() == r@.len());
    assert forall|i: int| #![trigger r@[i]] 0 <= i < r@.len() implies labels(r@[i], shown[i]) by {
        assert(all[i] == r@[i]@);
        let tags = shown[i].dominant_tags@;
        assert(views(tags).len() == tags.len());
        if tags.len() > 0 {
            assert(views(tags)[0] == tags[0]@);
        }
        if tags.len() > 1 {
            assert(views(tags)[1] == tags[1]@);
        }
    }
}

proof fn lemma_labels(projected: Seq<String>, clusters: Seq<AtomCluster>)
    ensures
        ({
            let shown = clusters.filter(|c: AtomCluster| is_on_canvas(projected, c));
            let list = labels_of(views(projected), clusters);
            &&& list.len() == shown.len()
            &&& forall|i: int|
                #![trigger list[i]]
                0 <= i < list.len() ==> label_of(views(projected), shown[i]) == Some(list[i])
        }),
    decreases clusters.len(),
{
    reveal(Seq::filter);
    let p = |c: AtomCluster| is_on_canvas(projected, c);
    if clusters.len() > 0 {
        let d = clusters.drop_last();
        let c = clusters.last();
        lemma_labels(projected, d);
        lemma_on_canvas(projected, c);
        let list = labels_of(views(projected), clusters);
        let before = labels_of(views(projected), d);
        assert forall|i: int| #![trigger list[i]] 0 <= i < list.len() implies label_of(
            views(projected),
            clusters.filter(p)[i],
        ) == Some(list[i]) by {
            if i < before.len() {
                assert(before[i] == list[i]);
                assert(d.filter(p)[i] == clusters.filter(p)[i]);
            }
        }
    }
}

proof fn lemma_on_canvas(projected: Seq<String>, c: AtomCluster)
    ensures
        label_of(views(projected), c) is Some <==> is_on_canvas(projected, c),
{
    broadcast use vstd::seq_lib::group_filter_ensures;

    let ids = views(c.atom_ids@);
    let all = views(projected);
    let p = |id: Seq<char>| all.contains(id);
    law_places_are_of_projected_atoms(all, ids);
    if is_on_canvas(projected, c) {
        let i = choose|i: int|
            0 <= i < c.atom_ids@.len() && all.contains((#[trigger] c.atom_ids@[i])@);
        assert(ids[i] == c.atom_ids@[i]@);
        assert(p(ids[i]));
        assert(ids.filter(p).contains(ids[i]));
    }
    if ids.filter(p).len() > 0 {
        assert(ids.filter(p).contains(ids.filter(p)[0]));
        ids.lemma_filter_contains_rev(p, ids.filter(p)[0]);
        let i = ids.index_of(ids.filter(p)[0]);
        assert(ids[i] == c.atom_ids@[i]@);
        assert(p(ids.filter(p)[0]));
    }
}

/// Generations are told apart by counting on: the next one is one more, and after the last one they
/// begin anew.
pub proof fn law_generations_count_on(g: u64)
    ensures
        g < u64::MAX ==> next_generation(g) == g + 1,
        g == u64::MAX ==> next_generation(g) == 0,
{
}

} // verus!
