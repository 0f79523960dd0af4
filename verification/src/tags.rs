//! Tags and the tree that they make.

use crate::strmap::StrMap;
use crate::text::{opt_view, text_eq};
use vstd::prelude::*;

verus! {

/// A tag.
#[derive(Debug, Clone)]
pub struct Tag {
    pub id: String,
    pub name: String,
    pub parent_id: Option<String>,
    pub created_at: String,
    pub is_autotag_target: bool,
    pub autotag_description: String,
}

/// What a tag holds.
pub struct TagView {
    pub id: Seq<char>,
    pub name: Seq<char>,
    pub parent_id: Option<Seq<char>>,
    pub created_at: Seq<char>,
    pub is_autotag_target: bool,
    pub autotag_description: Seq<char>,
}

impl View for Tag {
    type V = TagView;

    open spec fn view(&self) -> TagView {
        TagView {
            id: self.id@,
            name: self.name@,
            parent_id: opt_view(self.parent_id),
            created_at: self.created_at@,
            is_autotag_target: self.is_autotag_target,
            autotag_description: self.autotag_description@,
        }
    }
}

/// A copy of an optional text.
pub fn copy_opt(s: &Option<String>) -> (r: Option<String>)
    ensures
        r == *s,
{
    match s {
        Some(t) => Some(t.clone()),
        None => None,
    }
}

impl Tag {
    /// A copy of the tag.
    pub fn copy(&self) -> (r: Tag)
        ensures
            r == *self,
    {
        Tag {
            id: self.id.clone(),
            name: self.name.clone(),
            parent_id: copy_opt(&self.parent_id),
            created_at: self.created_at.clone(),
            is_autotag_target: self.is_autotag_target,
            autotag_description: self.autotag_description.clone(),
        }
    }
}

/// A tag in the tree, with the atoms of its subtree counted.
#[derive(Debug)]
pub struct TagWithCount {
    pub tag: Tag,
    pub atom_count: i32,
    pub children_total: i32,
    pub children: Vec<TagWithCount>,
}

/// What a node of the tree holds.
pub struct NodeView {
    pub tag: TagView,
    pub atom_count: int,
    pub children_total: int,
    pub children: Seq<NodeView>,
}

impl TagWithCount {
    /// What the node holds.
    pub open spec fn node(self) -> NodeView
        decreases self,
    {
        NodeView {
            tag: self.tag@,
            atom_count: self.atom_count as int,
            children_total: self.children_total as int,
            children: Seq::new(
                self.children@.len(),
                |i: int|
                    if 0 <= i < self.children@.len() {
                        self.children@[i].node()
                    } else {
                        arbitrary()
                    },
            ),
        }
    }
}

/// What the nodes of a list hold.
pub open spec fn nodes(list: Seq<TagWithCount>) -> Seq<NodeView> {
    list.map_values(|n: TagWithCount| n.node())
}

/// What the tags of a list hold.
pub open spec fn tag_views(tags: Seq<Tag>) -> Seq<TagView> {
    tags.map_values(|t: Tag| t@)
}

/// No two tags have the same id.
pub open spec fn ids_distinct(tags: Seq<TagView>) -> bool {
    forall|i: int, j: int|
        #![trigger tags[i].id, tags[j].id]
        0 <= i < j < tags.len() ==> tags[i].id != tags[j].id
}

/// The tags directly under a parent, in the order of the list.
pub open spec fn children_of(tags: Seq<TagView>, parent: Option<Seq<char>>) -> Seq<TagView> {
    tags.filter(|t: TagView| t.parent_id == parent)
}

/// The atoms that carry the tag itself.
pub open spec fn own_count(counts: Map<Seq<char>, i32>, id: Seq<char>) -> int {
    if counts.contains_key(id) {
        counts[id] as int
    } else {
        0
    }
}

/// The sum of the counts of a list of nodes.
pub open spec fn count_sum(list: Seq<NodeView>) -> int
    decreases list.len(),
{
    if list.len() == 0 {
        0
    } else {
        count_sum(list.drop_last()) + list.last().atom_count
    }
}

/// A node goes behind the last node that counts as much or more.
pub open spec fn ranked_in(list: Seq<NodeView>, n: NodeView) -> Seq<NodeView>
    decreases list.len(),
{
    if list.len() == 0 || list.last().atom_count >= n.atom_count {
        list.push(n)
    } else {
        ranked_in(list.drop_last(), n).push(list.last())
    }
}

/// The nodes by falling count; nodes with equal counts keep their order.
pub open spec fn ranked(list: Seq<NodeView>) -> Seq<NodeView>
    decreases list.len(),
{
    if list.len() == 0 {
        list
    } else {
        ranked_in(ranked(list.drop_last()), list.last())
    }
}

/// Whether a node stays in the tree: every node does when there is no threshold; else a node does
/// if it reaches the threshold or has children left.
pub open spec fn stays(n: NodeView, min_count: int) -> bool {
    min_count <= 0 || n.atom_count >= min_count || n.children.len() > 0
}

/// The node of a tag whose subtrees are `children`.
pub open spec fn node_of(
    tags: Seq<TagView>,
    counts: Map<Seq<char>, i32>,
    t: TagView,
    children: Seq<NodeView>,
) -> NodeView {
    NodeView {
        tag: t,
        atom_count: own_count(counts, t.id) + count_sum(children),
        children_total: children_of(tags, Some(t.id)).len() as int,
        children,
    }
}

/// The nodes of a list of tags, each with at most `depth` levels under it.
pub open spec fn nodes_of(
    tags: Seq<TagView>,
    counts: Map<Seq<char>, i32>,
    min_count: int,
    list: Seq<TagView>,
    depth: nat,
) -> Seq<NodeView>
    decreases depth, list.len(),
{
    if list.len() == 0 {
        Seq::empty()
    } else {
        nodes_of(tags, counts, min_count, list.drop_last(), depth).push(
            node_of(
                tags,
                counts,
                list.last(),
                forest(tags, counts, min_count, Some(list.last().id), depth),
            ),
        )
    }
}

/// The subtrees under a parent, at most `depth` levels of them.
pub open spec fn forest(
    tags: Seq<TagView>,
    counts: Map<Seq<char>, i32>,
    min_count: int,
    parent: Option<Seq<char>>,
    depth: nat,
) -> Seq<NodeView>
    decreases depth, 0nat,
{
    if depth == 0 {
        Seq::empty()
    } else {
        ranked(
            nodes_of(
                tags,
                counts,
                min_count,
                children_of(tags, parent),
                (depth - 1) as nat,
            ).filter(|n: NodeView| stays(n, min_count)),
        )
    }
}

/// The tag tree: where every branch ends, none is longer than the list of tags.
pub open spec fn tag_tree(
    tags: Seq<TagView>,
    counts: Map<Seq<char>, i32>,
    min_count: int,
) -> Seq<NodeView> {
    forest(tags, counts, min_count, None, tags.len())
}

/// Every count that is added up on the way to the sum of a list fits in 32 bits.
pub open spec fn sums_fit(list: Seq<NodeView>) -> bool {
    forall|k: int|
        0 <= k <= list.len() ==> i32::MIN <= #[trigger] count_sum(list.take(k)) <= i32::MAX
}

/// Every count in the subtrees under a parent fits in 32 bits, and so does every sum on the way
/// to one.
pub open spec fn counts_fit(
    tags: Seq<TagView>,
    counts: Map<Seq<char>, i32>,
    min_count: int,
    parent: Option<Seq<char>>,
    depth: nat,
) -> bool
    decreases depth,
{
    depth == 0 || forall|i: int|
        #![trigger children_of(tags, parent)[i]]
        0 <= i < children_of(tags, parent).len() ==> {
            let t = children_of(tags, parent)[i];
            let kids = forest(tags, counts, min_count, Some(t.id), (depth - 1) as nat);
            &&& counts_fit(tags, counts, min_count, Some(t.id), (depth - 1) as nat)
            &&& sums_fit(kids)
            &&& i32::MIN <= node_of(tags, counts, t, kids).atom_count <= i32::MAX
        }
}

/// A branch of the tags: the indices of a root, of a child of it, and so on down.
pub open spec fn is_branch(tags: Seq<TagView>, branch: Seq<int>) -> bool {
    &&& forall|k: int| 0 <= k < branch.len() ==> 0 <= #[trigger] branch[k] < tags.len()
    &&& branch.len() > 0 ==> tags[branch[0]].parent_id is None
    &&& forall|k: int|
        #![trigger branch[k]]
        0 < k < branch.len() ==> tags[branch[k]].parent_id == Some(tags[branch[k - 1]].id)
}

/// A branch meets no tag twice when the ids are distinct.
proof fn lemma_branch_distinct(tags: Seq<TagView>, branch: Seq<int>, a: int, b: int)
    requires
        ids_distinct(tags),
        is_branch(tags, branch),
        0 <= a < b < branch.len(),
    ensures
        branch[a] != branch[b],
    decreases a,
{
    if branch[a] == branch[b] {
        if a == 0 {
            assert(tags[branch[b]].parent_id == Some(tags[branch[b - 1]].id));
        } else {
            lemma_branch_distinct(tags, branch, a - 1, b - 1);
            let p = branch[a - 1];
            let q = branch[b - 1];
            assert(tags[branch[a]].parent_id == Some(tags[p].id));
            assert(tags[branch[b]].parent_id == Some(tags[q].id));
            assert(tags[p].id == tags[q].id);
            if p < q {
                assert(tags[p].id != tags[q].id);
            } else {
                assert(tags[q].id != tags[p].id);
            }
        }
    }
}

/// Every branch ends: none is longer than the list of tags.
pub open spec fn branches_end(tags: Seq<TagView>) -> bool {
    forall|branch: Seq<int>| #[trigger] is_branch(tags, branch) ==> branch.len() <= tags.len()
}

/// With distinct ids every branch ends, whatever cycles the parents make: no tag of a cycle
/// hangs under a root.
pub proof fn law_distinct_ids_end_branches(tags: Seq<TagView>)
    requires
        ids_distinct(tags),
    ensures
        branches_end(tags),
{
    assert forall|branch: Seq<int>| #[trigger] is_branch(tags, branch) implies branch.len()
        <= tags.len() by {
        lemma_branch_len(tags, branch);
    }
}

proof fn lemma_branch_len(tags: Seq<TagView>, branch: Seq<int>)
    requires
        ids_distinct(tags),
        is_branch(tags, branch),
    ensures
        branch.len() <= tags.len(),
{
    assert(branch.no_duplicates()) by {
        assert forall|a: int, b: int|
            0 <= a < branch.len() && 0 <= b < branch.len() && a != b implies branch[a]
            != branch[b] by {
            if a < b {
                lemma_branch_distinct(tags, branch, a, b);
            } else {
                lemma_branch_distinct(tags, branch, b, a);
            }
        }
    }
    branch.unique_seq_to_set();
    let all = vstd::set_lib::set_int_range(0, tags.len() as int);
    vstd::set_lib::lemma_int_range(0, tags.len() as int);
    assert(branch.to_set().subset_of(all)) by {
        assert forall|i: int| branch.to_set().contains(i) implies all.contains(i) by {
            let k = choose|k: int| 0 <= k < branch.len() && branch[k] == i;
        }
    }
    vstd::set_lib::lemma_len_subset(branch.to_set(), all);
}

proof fn lemma_filter_step<A>(s: Seq<A>, p: spec_fn(A) -> bool, i: int)
    requires
        0 <= i < s.len(),
    ensures
        s.take(i + 1).filter(p) == if p(s[i]) {
            s.take(i).filter(p).push(s[i])
        } else {
            s.take(i).filter(p)
        },
{
    reveal(Seq::filter);
    assert(s.take(i + 1).drop_last() =~= s.take(i));
}

proof fn lemma_filter_prefix<A>(s: Seq<A>, p: spec_fn(A) -> bool, i: int)
    requires
        0 <= i <= s.len(),
    ensures
        s.take(i).filter(p).is_prefix_of(s.filter(p)),
    decreases s.len() - i,
{
    if i < s.len() {
        lemma_filter_prefix(s, p, i + 1);
        lemma_filter_step(s, p, i);
        let a = s.take(i).filter(p);
        let b = s.take(i + 1).filter(p);
        assert(a.is_prefix_of(b));
        assert(a =~= s.filter(p).subrange(0, a.len() as int));
    } else {
        assert(s.take(i) =~= s);
    }
}

proof fn lemma_ranked_in(s: Seq<NodeView>, n: NodeView, p: int)
    requires
        0 <= p <= s.len(),
        forall|k: int| p <= k < s.len() ==> (#[trigger] s[k]).atom_count < n.atom_count,
        p > 0 ==> s[p - 1].atom_count >= n.atom_count,
    ensures
        ranked_in(s, n) == s.insert(p, n),
    decreases s.len(),
{
    if p < s.len() {
        let d = s.drop_last();
        assert(forall|k: int| 0 <= k < d.len() ==> d[k] == s[k]);
        lemma_ranked_in(d, n, p);
        assert(ranked_in(s, n) =~= s.insert(p, n));
    } else {
        assert(ranked_in(s, n) =~= s.insert(p, n));
    }
}

/// Puts a node in its place.
fn insert_ranked(list: &mut Vec<TagWithCount>, n: TagWithCount)
    ensures
        nodes(final(list)@) == ranked_in(nodes(old(list)@), n.node()),
{
    let mut p: usize = list.len();
    while p > 0 && list[p - 1].atom_count < n.atom_count
        invariant
            p <= list@.len(),
            forall|k: int|
                p <= k < list@.len() ==> (#[trigger] list@[k]).atom_count < n.atom_count,
        decreases p,
    {
        p = p - 1;
    }
    let ghost before = list@;
    proof {
        let s = nodes(before);
        assert forall|k: int| p <= k < s.len() implies (#[trigger] s[k]).atom_count
            < n.node().atom_count by {
            assert(before[k].atom_count < n.atom_count);
        }
        lemma_ranked_in(s, n.node(), p as int);
    }
    let ghost v = n.node();
    list.insert(p, n);
    assert(nodes(list@) =~= nodes(before).insert(p as int, v));
}

/// The number of tags directly under a parent.
fn count_children(tags: &[Tag], id: &str) -> (r: i32)
    requires
        tags@.len() <= i32::MAX,
    ensures
        r == children_of(tag_views(tags@), Some(id@)).len(),
{
    let ghost views = tag_views(tags@);
    let ghost p = |t: TagView| t.parent_id == Some(id@);
    let mut r: i32 = 0;
    let mut i: usize = 0;
    proof {
        reveal(Seq::filter);
        assert(views.take(0).filter(p) =~= Seq::<TagView>::empty());
    }
    while i < tags.len()
        invariant
            i <= tags@.len() <= i32::MAX,
            r <= i,
            views == tag_views(tags@),
            p == |t: TagView| t.parent_id == Some(id@),
            r == views.take(i as int).filter(p).len(),
        decreases tags@.len() - i,
    {
        proof {
            lemma_filter_step(views, p, i as int);
            assert(views[i as int] == tags@[i as int]@);
        }
        if stands_under(&tags[i], Some(id)) {
            r = r + 1;
        }
        i = i + 1;
    }
    assert(views.take(i as int) =~= views);
    r
}

/// Whether the tag stands directly under the parent.
fn stands_under(tag: &Tag, parent: Option<&str>) -> (r: bool)
    ensures
        r == (tag@.parent_id == match parent {
            Some(p) => Some(p@),
            None => None,
        }),
{
    match (&tag.parent_id, parent) {
        (Some(a), Some(b)) => text_eq(a.as_str(), b),
        (None, None) => true,
        _ => false,
    }
}

/// The sum of the counts of the nodes, unless it leaves 32 bits on the way.
fn add_up(list: &Vec<TagWithCount>) -> (r: Option<i32>)
    ensures
        match r {
            Some(s) => sums_fit(nodes(list@)) && s == count_sum(nodes(list@)),
            None => !sums_fit(nodes(list@)),
        },
{
    let ghost s = nodes(list@);
    let mut sum: i32 = 0;
    let mut i: usize = 0;
    while i < list.len()
        invariant
            i <= list@.len(),
            s == nodes(list@),
            sum == count_sum(s.take(i as int)),
            forall|k: int|
                0 <= k <= i ==> i32::MIN <= #[trigger] count_sum(s.take(k)) <= i32::MAX,
        decreases list@.len() - i,
    {
        proof {
            assert(s.take(i + 1).drop_last() =~= s.take(i as int));
            assert(s[i as int] == list@[i as int].node());
        }
        match sum.checked_add(list[i].atom_count) {
            Some(v) => {
                sum = v;
            },
            None => {
                assert(!(i32::MIN <= count_sum(s.take(i + 1)) <= i32::MAX));
                return None;
            },
        }
        i = i + 1;
    }
    assert(s.take(i as int) =~= s);
    Some(sum)
}

proof fn lemma_branch_grows(
    tags: Seq<TagView>,
    branch: Seq<int>,
    parent: Option<Seq<char>>,
    i: int,
)
    requires
        branches_end(tags),
        is_branch(tags, branch),
        parent == if branch.len() == 0 {
            None
        } else {
            Some(tags[branch.last()].id)
        },
        0 <= i < tags.len(),
        tags[i].parent_id == parent,
    ensures
        is_branch(tags, branch.push(i)),
        branch.len() < tags.len(),
{
    let b = branch.push(i);
    assert(is_branch(tags, b)) by {
        assert forall|k: int| 0 <= k < b.len() implies 0 <= #[trigger] b[k] < tags.len() by {
            if k < branch.len() {
                assert(b[k] == branch[k]);
            }
        }
        assert forall|k: int| #![trigger b[k]] 0 < k < b.len() implies tags[b[k]].parent_id == Some(
            tags[b[k - 1]].id,
        ) by {
            assert(b[k - 1] == branch[k - 1]);
            if k < branch.len() {
                assert(b[k] == branch[k]);
            }
        }
        if branch.len() > 0 {
            assert(b[0] == branch[0]);
        }
    }
}

/// The subtrees under a parent, unless a count leaves 32 bits.
fn subtrees(
    tags: &[Tag],
    parent: Option<&str>,
    counts: &StrMap<i32>,
    min_count: i32,
    Ghost(branch): Ghost<Seq<int>>,
) -> (r: Option<Vec<TagWithCount>>)
    requires
        tags@.len() <= i32::MAX,
        branches_end(tag_views(tags@)),
        is_branch(tag_views(tags@), branch),
        branch.len() <= tags@.len(),
        (match parent {
            Some(p) => Some(p@),
            None => None,
        }) == if branch.len() == 0 {
            None
        } else {
            Some(tag_views(tags@)[branch.last()].id)
        },
    ensures
        ({
            let views = tag_views(tags@);
            let depth = (tags@.len() - branch.len()) as nat;
            let p = match parent {
                Some(p) => Some(p@),
                None => None,
            };
            match r {
                Some(v) => counts_fit(views, counts@, min_count as int, p, depth) && nodes(v@)
                    == forest(views, counts@, min_count as int, p, depth),
                None => !counts_fit(views, counts@, min_count as int, p, depth),
            }
        }),
    decreases tags@.len() - branch.len(),
{
    let ghost views = tag_views(tags@);
    let ghost depth = (tags@.len() - branch.len()) as nat;
    let ghost par: Option<Seq<char>> = match parent {
        Some(p) => Some(p@),
        None => None,
    };
    let ghost under = |t: TagView| t.parent_id == par;
    let ghost below = (depth - 1) as nat;
    let ghost keep = |n: NodeView| stays(n, min_count as int);
    let mut result: Vec<TagWithCount> = Vec::new();
    let mut i: usize = 0;
    proof {
        reveal(Seq::filter);
        assert(views.take(0).filter(under) =~= Seq::<TagView>::empty());
        assert(Seq::<NodeView>::empty().filter(keep) =~= Seq::<NodeView>::empty());
        assert(nodes(result@) =~= Seq::<NodeView>::empty());
    }
    while i < tags.len()
        invariant
            i <= tags@.len() <= i32::MAX,
            branches_end(views),
            is_branch(views, branch),
            branch.len() <= tags@.len(),
            views == tag_views(tags@),
            depth == (tags@.len() - branch.len()) as nat,
            par == (match parent {
                Some(p) => Some(p@),
                None => None,
            }),
            par == if branch.len() == 0 {
                None
            } else {
                Some(views[branch.last()].id)
            },
            under == |t: TagView| t.parent_id == par,
            below == (depth - 1) as nat,
            keep == |n: NodeView| stays(n, min_count as int),
            depth == 0 ==> views.take(i as int).filter(under).len() == 0,
            nodes(result@) == ranked(
                nodes_of(
                    views,
                    counts@,
                    min_count as int,
                    views.take(i as int).filter(under),
                    below,
                ).filter(keep),
            ),
            forall|j: int|
                #![trigger views.take(i as int).filter(under)[j]]
                0 <= j < views.take(i as int).filter(under).len() ==> {
                    let t = views.take(i as int).filter(under)[j];
                    let kids = forest(views, counts@, min_count as int, Some(t.id), below);
                    &&& counts_fit(views, counts@, min_count as int, Some(t.id), below)
                    &&& sums_fit(kids)
                    &&& i32::MIN <= node_of(views, counts@, t, kids).atom_count <= i32::MAX
                },
        decreases tags@.len() - i,
    {
        let ghost t = views[i as int];
        let ghost seen = views.take(i as int).filter(under);
        let ghost next = views.take(i + 1).filter(under);
        proof {
            lemma_filter_step(views, under, i as int);
            lemma_filter_prefix(views, under, i + 1);
            assert(t == tags@[i as int]@);
        }
        if stands_under(&tags[i], parent) {
            proof {
                lemma_branch_grows(views, branch, par, i as int);
                assert(next == seen.push(t));
                assert(next[seen.len() as int] == t);
                assert(children_of(views, par)[seen.len() as int] == t);
            }
            let ghost kids = forest(views, counts@, min_count as int, Some(t.id), below);
            let tag: &Tag = &tags[i];
            let children = match subtrees(
                tags,
                Some(tag.id.as_str()),
                counts,
                min_count,
                Ghost(branch.push(i as int)),
            ) {
                Some(c) => c,
                None => {
                    return None;
                },
            };
            let below_count: i32 = match add_up(&children) {
                Some(c) => c,
                None => {
                    return None;
                },
            };
            let own: i32 = match counts.get(tag.id.as_str()) {
                Some(c) => *c,
                None => 0,
            };
            let atom_count: i32 = match own.checked_add(below_count) {
                Some(c) => c,
                None => {
                    assert(!(i32::MIN <= node_of(views, counts@, t, kids).atom_count <= i32::MAX));
                    return None;
                },
            };
            let node = TagWithCount {
                tag: tag.copy(),
                atom_count,
                children_total: count_children(tags, tag.id.as_str()),
                children,
            };
            proof {
                assert(node.node().children =~= nodes(node.children@));
                let n = node_of(views, counts@, t, kids);
                assert(node.node() == n);
                assert(next.drop_last() =~= seen);
                let before = nodes_of(views, counts@, min_count as int, seen, below);
                assert(nodes_of(views, counts@, min_count as int, next, below) == before.push(n));
                assert(before.push(n).drop_last() =~= before);
                reveal(Seq::filter);
                let kept = before.filter(keep);
                assert(kept.push(n).drop_last() =~= kept);
            }
            if min_count <= 0 || node.atom_count >= min_count || node.children.len() > 0 {
                insert_ranked(&mut result, node);
            }
        }
        i = i + 1;
    }
    assert(views.take(i as int) =~= views);
    proof {
        if depth == 0 {
            reveal(Seq::filter);
        }
    }
    Some(result)
}

/// The tag tree, or nothing if a count in it leaves 32 bits.
pub fn checked_tag_tree(
    all_tags: &[Tag],
    direct_counts: &StrMap<i32>,
    min_count: i32,
) -> (r: Option<Vec<TagWithCount>>)
    requires
        all_tags@.len() <= i32::MAX,
        branches_end(tag_views(all_tags@)),
    ensures
        match r {
            Some(v) => counts_fit(
                tag_views(all_tags@),
                direct_counts@,
                min_count as int,
                None,
                all_tags@.len(),
            ) && nodes(v@) == tag_tree(tag_views(all_tags@), direct_counts@, min_count as int),
            None => !counts_fit(
                tag_views(all_tags@),
                direct_counts@,
                min_count as int,
                None,
                all_tags@.len(),
            ),
        },
{
    assert(is_branch(tag_views(all_tags@), Seq::empty()));
    subtrees(all_tags, None, direct_counts, min_count, Ghost(Seq::empty()))
}

/// The tag tree: each node counts the atoms of its own tag and those of its children, an atom
/// that carries both being counted twice. Siblings stand by falling count. With a threshold,
/// nodes that do not reach it and have no child left are dropped, roots among them, and
/// `children_total` still counts them. The tree is that of the roots, whatever parent is given.
pub fn build_tag_tree_with_counts(
    all_tags: &[Tag],
    _parent_id: Option<&str>,
    direct_counts: &StrMap<i32>,
    min_count: i32,
) -> (r: Vec<TagWithCount>)
    requires
        all_tags@.len() <= i32::MAX,
        branches_end(tag_views(all_tags@)),
        counts_fit(
            tag_views(all_tags@),
            direct_counts@,
            min_count as int,
            None,
            all_tags@.len(),
        ),
    ensures
        nodes(r@) == tag_tree(tag_views(all_tags@), direct_counts@, min_count as int),
{
    match checked_tag_tree(all_tags, direct_counts, min_count) {
        Some(r) => r,
        None => Vec::new(),
    }
}

/// A property of the children of a parent holds throughout the subtrees of a list.
pub open spec fn throughout(
    list: Seq<NodeView>,
    parent: Option<Seq<char>>,
    p: spec_fn(Option<Seq<char>>, Seq<NodeView>) -> bool,
) -> bool
    decreases list,
{
    p(parent, list) && forall|i: int|
        #![trigger list[i]]
        0 <= i < list.len() ==> throughout(list[i].children, Some(list[i].tag.id), p)
}

/// Each node counts its own atoms and those of the nodes under it, and knows how many tags
/// stand directly under its tag.
pub open spec fn counted(
    tags: Seq<TagView>,
    counts: Map<Seq<char>, i32>,
) -> spec_fn(Option<Seq<char>>, Seq<NodeView>) -> bool {
    |parent: Option<Seq<char>>, list: Seq<NodeView>|
        forall|i: int|
            #![trigger list[i]]
            0 <= i < list.len() ==> {
                &&& tags.contains(list[i].tag)
                &&& list[i].tag.parent_id == parent
                &&& list[i].atom_count == own_count(counts, list[i].tag.id) + count_sum(
                    list[i].children,
                )
                &&& list[i].children_total == children_of(tags, Some(list[i].tag.id)).len()
            }
}

/// Siblings stand by falling count.
pub open spec fn falling(parent: Option<Seq<char>>, list: Seq<NodeView>) -> bool {
    forall|i: int, j: int|
        #![trigger list[i], list[j]]
        0 <= i < j < list.len() ==> list[i].atom_count >= list[j].atom_count
}

/// What the threshold leaves of the tags under a parent: all of them when there is none; else
/// only nodes that reach it or have children.
pub open spec fn pruned(
    tags: Seq<TagView>,
    min_count: int,
) -> spec_fn(Option<Seq<char>>, Seq<NodeView>) -> bool {
    |parent: Option<Seq<char>>, list: Seq<NodeView>|
        if min_count <= 0 {
            list.map_values(|n: NodeView| n.tag).to_multiset() == children_of(
                tags,
                parent,
            ).to_multiset()
        } else {
            forall|i: int|
                #![trigger list[i]]
                0 <= i < list.len() ==> list[i].atom_count >= min_count
                    || list[i].children.len() > 0
        }
}

proof fn lemma_ranked_in_keeps(s: Seq<NodeView>, n: NodeView)
    ensures
        ranked_in(s, n).to_multiset() == s.to_multiset().insert(n),
        ranked_in(s, n).map_values(|n: NodeView| n.tag).to_multiset() == s.map_values(
            |n: NodeView| n.tag,
        ).to_multiset().insert(n.tag),
    decreases s.len(),
{
    broadcast use vstd::seq_lib::group_to_multiset_ensures;

    let tag = |n: NodeView| n.tag;
    if s.len() == 0 || s.last().atom_count >= n.atom_count {
        assert(s.push(n).map_values(tag) =~= s.map_values(tag).push(n.tag));
    } else {
        let d = s.drop_last();
        lemma_ranked_in_keeps(d, n);
        assert(s =~= d.push(s.last()));
        let r = ranked_in(d, n);
        assert(r.push(s.last()).map_values(tag) =~= r.map_values(tag).push(s.last().tag));
        assert(s.map_values(tag) =~= d.map_values(tag).push(s.last().tag));
        assert(d.to_multiset().insert(n).insert(s.last()) =~= d.to_multiset().insert(
            s.last(),
        ).insert(n));
        assert(d.map_values(tag).to_multiset().insert(n.tag).insert(s.last().tag)
            =~= d.map_values(tag).to_multiset().insert(s.last().tag).insert(n.tag));
    }
}

proof fn lemma_ranked_in_falls(s: Seq<NodeView>, n: NodeView)
    requires
        falling(None, s),
    ensures
        falling(None, ranked_in(s, n)),
        forall|i: int|
            0 <= i < ranked_in(s, n).len() ==> (#[trigger] ranked_in(s, n)[i]).atom_count
                == n.atom_count || (s.len() > 0 && ranked_in(s, n)[i].atom_count
                >= s.last().atom_count),
    decreases s.len(),
{
    let r = ranked_in(s, n);
    if s.len() == 0 || s.last().atom_count >= n.atom_count {
    } else {
        let d = s.drop_last();
        assert(forall|k: int| 0 <= k < d.len() ==> d[k] == s[k]);
        lemma_ranked_in_falls(d, n);
        let q = ranked_in(d, n);
        assert forall|i: int| 0 <= i < r.len() implies (#[trigger] r[i]).atom_count == n.atom_count
            || r[i].atom_count >= s.last().atom_count by {
            if i < q.len() {
                assert(r[i] == q[i]);
            }
        }
        assert forall|i: int, j: int| #![trigger r[i], r[j]] 0 <= i < j < r.len() implies r[i].atom_count
            >= r[j].atom_count by {
            assert(r[i] == q[i]);
            if j < q.len() {
                assert(r[j] == q[j]);
            }
        }
    }
}

proof fn lemma_ranked(s: Seq<NodeView>)
    ensures
        ranked(s).to_multiset() == s.to_multiset(),
        ranked(s).map_values(|n: NodeView| n.tag).to_multiset() == s.map_values(
            |n: NodeView| n.tag,
        ).to_multiset(),
        falling(None, ranked(s)),
    decreases s.len(),
{
    broadcast use vstd::seq_lib::group_to_multiset_ensures;

    if s.len() > 0 {
        let tag = |n: NodeView| n.tag;
        let d = s.drop_last();
        lemma_ranked(d);
        lemma_ranked_in_keeps(ranked(d), s.last());
        lemma_ranked_in_falls(ranked(d), s.last());
        assert(s =~= d.push(s.last()));
        assert(s.map_values(tag) =~= d.map_values(tag).push(s.last().tag));
    }
}

/// Where the nodes of a list come from.
proof fn lemma_nodes_of(
    tags: Seq<TagView>,
    counts: Map<Seq<char>, i32>,
    min_count: int,
    list: Seq<TagView>,
    depth: nat,
)
    ensures
        nodes_of(tags, counts, min_count, list, depth).len() == list.len(),
        forall|i: int|
            0 <= i < list.len() ==> #[trigger] nodes_of(tags, counts, min_count, list, depth)[i]
                == node_of(
                tags,
                counts,
                list[i],
                forest(tags, counts, min_count, Some(list[i].id), depth),
            ),
    decreases list.len(),
{
    if list.len() > 0 {
        lemma_nodes_of(tags, counts, min_count, list.drop_last(), depth);
    }
}

/// Each node of a level is the node of a child of the parent that stays.
proof fn lemma_level(
    tags: Seq<TagView>,
    counts: Map<Seq<char>, i32>,
    min_count: int,
    parent: Option<Seq<char>>,
    depth: nat,
    i: int,
)
    requires
        depth > 0,
        0 <= i < forest(tags, counts, min_count, parent, depth).len(),
    ensures
        ({
            let n = forest(tags, counts, min_count, parent, depth)[i];
            &&& tags.contains(n.tag)
            &&& n.tag.parent_id == parent
            &&& n == node_of(
                tags,
                counts,
                n.tag,
                forest(tags, counts, min_count, Some(n.tag.id), (depth - 1) as nat),
            )
            &&& stays(n, min_count)
        }),
{
    broadcast use vstd::seq_lib::group_to_multiset_ensures;
    broadcast use vstd::seq_lib::group_filter_ensures;

    let f = forest(tags, counts, min_count, parent, depth);
    let below = (depth - 1) as nat;
    let kids = children_of(tags, parent);
    let all = nodes_of(tags, counts, min_count, kids, below);
    let keep = |n: NodeView| stays(n, min_count);
    let kept = all.filter(keep);
    lemma_ranked(kept);
    assert(f == ranked(kept));
    let n = f[i];
    assert(f.contains(n));
    assert(f.to_multiset().count(n) > 0);
    assert(kept.contains(n));
    let k = choose|k: int| 0 <= k < kept.len() && kept[k] == n;
    assert(keep(kept[k]));
    lemma_filter_from(all, keep, k);
    lemma_nodes_of(tags, counts, min_count, kids, below);
    let j = choose|j: int| 0 <= j < all.len() && all[j] == n;
    assert(all[j] == n);
    let under = |t: TagView| t.parent_id == parent;
    assert(under(kids[j]));
    lemma_filter_from(tags, under, j);
}

proof fn lemma_filter_from<A>(s: Seq<A>, p: spec_fn(A) -> bool, k: int)
    requires
        0 <= k < s.filter(p).len(),
    ensures
        s.contains(s.filter(p)[k]),
    decreases s.len(),
{
    reveal(Seq::filter);
    let d = s.drop_last();
    if k < d.filter(p).len() {
        lemma_filter_from(d, p, k);
        let x = s.filter(p)[k];
        let j = choose|j: int| 0 <= j < d.len() && d[j] == x;
        assert(s[j] == x);
    } else {
        assert(s[s.len() - 1] == s.filter(p)[k]);
    }
}

proof fn lemma_throughout(
    tags: Seq<TagView>,
    counts: Map<Seq<char>, i32>,
    min_count: int,
    parent: Option<Seq<char>>,
    depth: nat,
    branch: Seq<int>,
    p: spec_fn(Option<Seq<char>>, Seq<NodeView>) -> bool,
)
    requires
        branches_end(tags),
        is_branch(tags, branch),
        depth >= tags.len() - branch.len(),
        parent == if branch.len() == 0 {
            None
        } else {
            Some(tags[branch.last()].id)
        },
        forall|q: Option<Seq<char>>, d: nat|
            #![trigger forest(tags, counts, min_count, q, d)]
            d > 0 || children_of(tags, q).len() == 0 ==> p(
                q,
                forest(tags, counts, min_count, q, d),
            ),
    ensures
        throughout(forest(tags, counts, min_count, parent, depth), parent, p),
    decreases depth,
{
    let f = forest(tags, counts, min_count, parent, depth);
    if depth == 0 {
        let under = |t: TagView| t.parent_id == parent;
        if children_of(tags, parent).len() > 0 {
            broadcast use vstd::seq_lib::group_filter_ensures;

            let t = children_of(tags, parent)[0];
            lemma_filter_from(tags, under, 0);
            assert(under(tags.filter(under)[0]));
            let j = choose|j: int| 0 <= j < tags.len() && tags[j] == t;
            lemma_branch_grows(tags, branch, parent, j);
        }
    } else {
        assert forall|i: int| #![trigger f[i]] 0 <= i < f.len() implies throughout(
            f[i].children,
            Some(f[i].tag.id),
            p,
        ) by {
            lemma_level(tags, counts, min_count, parent, depth, i);
            let j = choose|j: int| 0 <= j < tags.len() && tags[j] == f[i].tag;
            assert(tags[j] == f[i].tag);
            lemma_branch_grows(tags, branch, parent, j);
            lemma_throughout(
                tags,
                counts,
                min_count,
                Some(f[i].tag.id),
                (depth - 1) as nat,
                branch.push(j),
                p,
            );
        }
    }
}

/// In the whole tree each node counts its own atoms and those of the nodes under it, and
/// `children_total` is the number of tags directly under its tag, dropped ones included.
pub proof fn law_tree_is_counted(
    tags: Seq<TagView>,
    counts: Map<Seq<char>, i32>,
    min_count: int,
)
    requires
        branches_end(tags),
    ensures
        throughout(tag_tree(tags, counts, min_count), None, counted(tags, counts)),
{
    let p = counted(tags, counts);
    assert forall|q: Option<Seq<char>>, d: nat|
        #![trigger forest(tags, counts, min_count, q, d)]
        d > 0 || children_of(tags, q).len() == 0 implies p(
        q,
        forest(tags, counts, min_count, q, d),
    ) by {
        let f = forest(tags, counts, min_count, q, d);
        assert forall|i: int| #![trigger f[i]] 0 <= i < f.len() implies {
            &&& tags.contains(f[i].tag)
            &&& f[i].tag.parent_id == q
            &&& f[i].atom_count == own_count(counts, f[i].tag.id) + count_sum(f[i].children)
            &&& f[i].children_total == children_of(tags, Some(f[i].tag.id)).len()
        } by {
            lemma_level(tags, counts, min_count, q, d, i);
        }
    }
    assert(is_branch(tags, Seq::empty()));
    lemma_throughout(tags, counts, min_count, None, tags.len(), Seq::empty(), p);
}

/// Siblings with equal counts stand in the order in which the tags are listed.
pub open spec fn in_listed_order(tags: Seq<TagView>) -> spec_fn(
    Option<Seq<char>>,
    Seq<NodeView>,
) -> bool {
    |parent: Option<Seq<char>>, list: Seq<NodeView>|
        forall|i: int, j: int|
            #![trigger list[i], list[j]]
            0 <= i < j < list.len() && list[i].atom_count == list[j].atom_count ==> stands_before(
                tags,
                list[i].tag,
                list[j].tag,
            )
}

/// Whether an item stands somewhere before another in a list.
pub open spec fn stands_before<A>(s: Seq<A>, x: A, y: A) -> bool {
    exists|a: int, b: int| 0 <= a < b < s.len() && #[trigger] s[a] == x && #[trigger] s[b] == y
}

/// What is filtered keeps its order.
proof fn lemma_filter_keeps_order<A>(s: Seq<A>, p: spec_fn(A) -> bool, i: int, j: int)
    requires
        0 <= i < j < s.filter(p).len(),
    ensures
        stands_before(s, s.filter(p)[i], s.filter(p)[j]),
    decreases s.len(),
{
    reveal(Seq::filter);
    let d = s.drop_last();
    let x = s.filter(p)[i];
    let y = s.filter(p)[j];
    if j < d.filter(p).len() {
        lemma_filter_keeps_order(d, p, i, j);
        let (a, b) = choose|a: int, b: int|
            0 <= a < b < d.len() && #[trigger] d[a] == x && #[trigger] d[b] == y;
        assert(s[a] == x && s[b] == y);
    } else {
        lemma_filter_from(d, p, i);
        let a = choose|a: int| 0 <= a < d.len() && d[a] == x;
        assert(s[a] == x && s[s.len() - 1] == y);
    }
}

/// A node has its place: before those that count less, behind all others.
proof fn lemma_place(s: Seq<NodeView>, n: NodeView) -> (p: int)
    ensures
        0 <= p <= s.len(),
        ranked_in(s, n) == s.insert(p, n),
        forall|k: int|
            p < k < ranked_in(s, n).len() ==> (#[trigger] ranked_in(s, n)[k]).atom_count
                < n.atom_count,
    decreases s.len(),
{
    if s.len() == 0 || s.last().atom_count >= n.atom_count {
        assert(s.push(n) =~= s.insert(s.len() as int, n));
        s.len() as int
    } else {
        let d = s.drop_last();
        let p = lemma_place(d, n);
        let r = ranked_in(s, n);
        assert(r =~= s.insert(p, n));
        assert forall|k: int| p < k < r.len() implies (#[trigger] r[k]).atom_count
            < n.atom_count by {
            if k < r.len() - 1 {
                assert(r[k] == ranked_in(d, n)[k]);
            }
        }
        p
    }
}

/// Nodes with equal counts keep their order when they are ranked.
proof fn lemma_ranked_keeps_order(s: Seq<NodeView>, i: int, j: int)
    requires
        0 <= i < j < ranked(s).len(),
        ranked(s)[i].atom_count == ranked(s)[j].atom_count,
    ensures
        stands_before(s, ranked(s)[i], ranked(s)[j]),
    decreases s.len(),
{
    broadcast use vstd::seq_lib::group_to_multiset_ensures;

    let d = s.drop_last();
    let n = s.last();
    let q = ranked(d);
    let r = ranked(s);
    let p = lemma_place(q, n);
    assert(r == q.insert(p, n));
    let x = r[i];
    let y = r[j];
    let i0 = if i < p {
        i
    } else {
        i - 1
    };
    let j0 = if j < p {
        j
    } else {
        j - 1
    };
    if j == p {
        lemma_ranked(d);
        assert(q[i] == x);
        assert(q.contains(x));
        assert(q.to_multiset().count(x) > 0);
        assert(d.contains(x));
        let a = choose|a: int| 0 <= a < d.len() && d[a] == x;
        assert(s[a] == x && s[s.len() - 1] == y);
    } else {
        assert(i != p);
        assert(q[i0] == x && q[j0] == y);
        lemma_ranked_keeps_order(d, i0, j0);
        let (a, b) = choose|a: int, b: int|
            0 <= a < b < d.len() && #[trigger] d[a] == x && #[trigger] d[b] == y;
        assert(s[a] == x && s[b] == y);
    }
}

/// In the whole tree siblings with equal counts stand in the order in which the tags are listed.
pub proof fn law_equal_siblings_keep_their_order(
    tags: Seq<TagView>,
    counts: Map<Seq<char>, i32>,
    min_count: int,
)
    requires
        branches_end(tags),
    ensures
        throughout(tag_tree(tags, counts, min_count), None, in_listed_order(tags)),
{
    let p = in_listed_order(tags);
    assert forall|q: Option<Seq<char>>, d: nat|
        #![trigger forest(tags, counts, min_count, q, d)]
        d > 0 || children_of(tags, q).len() == 0 implies p(
        q,
        forest(tags, counts, min_count, q, d),
    ) by {
        let f = forest(tags, counts, min_count, q, d);
        assert forall|i: int, j: int|
            #![trigger f[i], f[j]]
            0 <= i < j < f.len() && f[i].atom_count == f[j].atom_count implies stands_before(
            tags,
            f[i].tag,
            f[j].tag,
        ) by {
            lemma_level_keeps_order(tags, counts, min_count, q, d, i, j);
        }
    }
    assert(is_branch(tags, Seq::empty()));
    lemma_throughout(tags, counts, min_count, None, tags.len(), Seq::empty(), p);
}

proof fn lemma_level_keeps_order(
    tags: Seq<TagView>,
    counts: Map<Seq<char>, i32>,
    min_count: int,
    parent: Option<Seq<char>>,
    depth: nat,
    i: int,
    j: int,
)
    requires
        0 <= i < j < forest(tags, counts, min_count, parent, depth).len(),
        forest(tags, counts, min_count, parent, depth)[i].atom_count == forest(
            tags,
            counts,
            min_count,
            parent,
            depth,
        )[j].atom_count,
    ensures
        stands_before(
            tags,
            forest(tags, counts, min_count, parent, depth)[i].tag,
            forest(tags, counts, min_count, parent, depth)[j].tag,
        ),
{
    let f = forest(tags, counts, min_count, parent, depth);
    let below = (depth - 1) as nat;
    let kids = children_of(tags, parent);
    let all = nodes_of(tags, counts, min_count, kids, below);
    let keep = |n: NodeView| stays(n, min_count);
    let kept = all.filter(keep);
    assert(f == ranked(kept));
    lemma_ranked_keeps_order(kept, i, j);
    let (a, b) = choose|a: int, b: int|
        0 <= a < b < kept.len() && #[trigger] kept[a] == f[i] && #[trigger] kept[b] == f[j];
    lemma_filter_keeps_order(all, keep, a, b);
    let (c, e) = choose|c: int, e: int|
        0 <= c < e < all.len() && #[trigger] all[c] == f[i] && #[trigger] all[e] == f[j];
    lemma_nodes_of(tags, counts, min_count, kids, below);
    assert(kids[c] == f[i].tag && kids[e] == f[j].tag);
    lemma_filter_keeps_order(tags, |t: TagView| t.parent_id == parent, c, e);
}

/// In the whole tree siblings stand by falling count.
pub proof fn law_tree_is_ranked(
    tags: Seq<TagView>,
    counts: Map<Seq<char>, i32>,
    min_count: int,
)
    requires
        branches_end(tags),
    ensures
        throughout(
            tag_tree(tags, counts, min_count),
            None,
            |p: Option<Seq<char>>, l: Seq<NodeView>| falling(p, l),
        ),
{
    let p = |p: Option<Seq<char>>, l: Seq<NodeView>| falling(p, l);
    assert forall|q: Option<Seq<char>>, d: nat|
        #![trigger forest(tags, counts, min_count, q, d)]
        d > 0 || children_of(tags, q).len() == 0 implies p(
        q,
        forest(tags, counts, min_count, q, d),
    ) by {
        if d > 0 {
            lemma_ranked(
                nodes_of(tags, counts, min_count, children_of(tags, q), (d - 1) as nat).filter(
                    |n: NodeView| stays(n, min_count),
                ),
            );
        }
    }
    assert(is_branch(tags, Seq::empty()));
    lemma_throughout(tags, counts, min_count, None, tags.len(), Seq::empty(), p);
}

proof fn lemma_filter_all<A>(s: Seq<A>, p: spec_fn(A) -> bool)
    requires
        forall|i: int| 0 <= i < s.len() ==> p(#[trigger] s[i]),
    ensures
        s.filter(p) == s,
    decreases s.len(),
{
    reveal(Seq::filter);
    if s.len() > 0 {
        let d = s.drop_last();
        assert(forall|i: int| 0 <= i < d.len() ==> d[i] == s[i]);
        lemma_filter_all(d, p);
        assert(s =~= d.push(s.last()));
    } else {
        assert(s.filter(p) =~= s);
    }
}

/// A tag under a parent has its node if its own atoms reach the threshold or anything is left
/// under it.
proof fn lemma_level_keeps(
    tags: Seq<TagView>,
    counts: Map<Seq<char>, i32>,
    min_count: int,
    parent: Option<Seq<char>>,
    depth: nat,
    t: TagView,
)
    requires
        depth > 0,
        children_of(tags, parent).contains(t),
        own_count(counts, t.id) >= min_count || forest(
            tags,
            counts,
            min_count,
            Some(t.id),
            (depth - 1) as nat,
        ).len() > 0,
    ensures
        forest(tags, counts, min_count, parent, depth).contains(
            node_of(
                tags,
                counts,
                t,
                forest(tags, counts, min_count, Some(t.id), (depth - 1) as nat),
            ),
        ),
{
    broadcast use vstd::seq_lib::group_to_multiset_ensures;
    broadcast use vstd::seq_lib::group_filter_ensures;

    let f = forest(tags, counts, min_count, parent, depth);
    let below = (depth - 1) as nat;
    let kids = children_of(tags, parent);
    let all = nodes_of(tags, counts, min_count, kids, below);
    let keep = |n: NodeView| stays(n, min_count);
    let kept = all.filter(keep);
    lemma_nodes_of(tags, counts, min_count, kids, below);
    lemma_ranked(kept);
    let j = choose|j: int| 0 <= j < kids.len() && kids[j] == t;
    let n = all[j];
    assert(keep(n));
    assert(kept.contains(n));
    assert(kept.to_multiset().count(n) > 0);
    assert(f.contains(n));
}

/// Whether the tags of a branch, from the `k`-th on, have nodes in a list and, each under the one
/// before, below it.
pub open spec fn leads_down(list: Seq<NodeView>, tags: Seq<TagView>, branch: Seq<int>, k: int) -> bool
    decreases branch.len() - k,
{
    k >= branch.len() || exists|i: int|
        0 <= i < list.len() && (#[trigger] list[i]).tag == tags[branch[k]] && leads_down(
            list[i].children,
            tags,
            branch,
            k + 1,
        )
}

proof fn lemma_leads_down(
    tags: Seq<TagView>,
    counts: Map<Seq<char>, i32>,
    min_count: int,
    branch: Seq<int>,
    k: int,
)
    requires
        branches_end(tags),
        is_branch(tags, branch),
        0 <= k < branch.len(),
        own_count(counts, tags[branch.last()].id) >= min_count,
    ensures
        branch.len() <= tags.len(),
        leads_down(
            forest(tags, counts, min_count, tags[branch[k]].parent_id, (tags.len() - k) as nat),
            tags,
            branch,
            k,
        ),
    decreases branch.len() - k,
{
    broadcast use vstd::seq_lib::group_filter_ensures;

    let t = tags[branch[k]];
    let depth = (tags.len() - k) as nat;
    let f = forest(tags, counts, min_count, t.parent_id, depth);
    let below = forest(tags, counts, min_count, Some(t.id), (depth - 1) as nat);
    let under = |u: TagView| u.parent_id == t.parent_id;
    assert(tags.contains(t) && under(t));
    assert(children_of(tags, t.parent_id).contains(t));
    if k + 1 < branch.len() {
        assert(tags[branch[k + 1]].parent_id == Some(t.id));
        lemma_leads_down(tags, counts, min_count, branch, k + 1);
        assert(leads_down(below, tags, branch, k + 1));
    } else {
        assert(branch.last() == branch[k]);
    }
    lemma_level_keeps(tags, counts, min_count, t.parent_id, depth, t);
    let n = node_of(tags, counts, t, below);
    let i = choose|i: int| 0 <= i < f.len() && f[i] == n;
    assert(f[i].tag == tags[branch[k]] && leads_down(f[i].children, tags, branch, k + 1));
}

/// A tag whose own atoms reach the threshold is in the tree, and so is every tag above it, however
/// small its count: what holds others up is kept.
pub proof fn law_branches_to_large_tags_are_kept(
    tags: Seq<TagView>,
    counts: Map<Seq<char>, i32>,
    min_count: int,
    branch: Seq<int>,
)
    requires
        branches_end(tags),
        is_branch(tags, branch),
        branch.len() > 0,
        own_count(counts, tags[branch.last()].id) >= min_count,
    ensures
        leads_down(tag_tree(tags, counts, min_count), tags, branch, 0),
{
    lemma_leads_down(tags, counts, min_count, branch, 0);
}

/// The threshold drops nothing when it is not positive; else what is left, roots included, reaches
/// it or has children.
pub proof fn law_tree_is_pruned(
    tags: Seq<TagView>,
    counts: Map<Seq<char>, i32>,
    min_count: int,
)
    requires
        branches_end(tags),
    ensures
        throughout(tag_tree(tags, counts, min_count), None, pruned(tags, min_count)),
{
    let p = pruned(tags, min_count);
    assert forall|q: Option<Seq<char>>, d: nat|
        #![trigger forest(tags, counts, min_count, q, d)]
        d > 0 || children_of(tags, q).len() == 0 implies p(
        q,
        forest(tags, counts, min_count, q, d),
    ) by {
        let f = forest(tags, counts, min_count, q, d);
        let kids = children_of(tags, q);
        let tag = |n: NodeView| n.tag;
        if min_count <= 0 {
            if d > 0 {
                let all = nodes_of(tags, counts, min_count, kids, (d - 1) as nat);
                let keep = |n: NodeView| stays(n, min_count);
                lemma_filter_all(all, keep);
                lemma_ranked(all);
                lemma_nodes_of(tags, counts, min_count, kids, (d - 1) as nat);
                assert(all.map_values(tag) =~= kids);
            } else {
                assert(f.map_values(tag) =~= kids);
            }
        } else {
            assert forall|i: int| #![trigger f[i]] 0 <= i < f.len() implies f[i].atom_count
                >= min_count || f[i].children.len() > 0 by {
                lemma_level(tags, counts, min_count, q, d, i);
            }
        }
    }
    assert(is_branch(tags, Seq::empty()));
    lemma_throughout(tags, counts, min_count, None, tags.len(), Seq::empty(), p);
}

/// The sum of a list of nodes counts every node once: nothing has no sum, each node that is put
/// behind others adds its own count, and lists add up.
pub proof fn law_every_node_is_added(a: Seq<NodeView>, b: Seq<NodeView>, n: NodeView)
    ensures
        count_sum(Seq::empty()) == 0,
        count_sum(a.push(n)) == count_sum(a) + n.atom_count,
        count_sum(a + b) == count_sum(a) + count_sum(b),
    decreases b.len(),
{
    assert(a.push(n).drop_last() =~= a);
    if b.len() > 0 {
        law_every_node_is_added(a, b.drop_last(), n);
        assert((a + b).drop_last() =~= a + b.drop_last());
        assert((a + b).last() == b.last());
    } else {
        assert(a + b =~= a);
    }
}

/// The direct counts of all the tags in a list of subtrees, however deep they stand.
pub open spec fn direct_total(counts: Map<Seq<char>, i32>, list: Seq<NodeView>) -> int
    decreases list,
{
    if list.len() == 0 {
        0
    } else {
        direct_total(counts, list.drop_last()) + (if counts.contains_key(list.last().tag.id) {
            counts[list.last().tag.id] as int
        } else {
            0
        }) + direct_total(counts, list.last().children)
    }
}

proof fn lemma_direct_total(
    tags: Seq<TagView>,
    counts: Map<Seq<char>, i32>,
    list: Seq<NodeView>,
    parent: Option<Seq<char>>,
)
    requires
        throughout(list, parent, counted(tags, counts)),
    ensures
        count_sum(list) == direct_total(counts, list),
    decreases list,
{
    if list.len() > 0 {
        let d = list.drop_last();
        let p = counted(tags, counts);
        assert(p(parent, list));
        assert forall|i: int| #![trigger d[i]] 0 <= i < d.len() implies throughout(
            d[i].children,
            Some(d[i].tag.id),
            p,
        ) by {
            assert(d[i] == list[i]);
        }
        assert(p(parent, d)) by {
            assert(forall|i: int| 0 <= i < d.len() ==> d[i] == list[i]);
        }
        lemma_direct_total(tags, counts, d, parent);
        let n = list[list.len() - 1];
        assert(n == list.last());
        lemma_direct_total(tags, counts, n.children, Some(n.tag.id));
    }
}

/// A node counts the atoms of its whole subtree: its count is the sum of the direct counts of its
/// tag and of every tag in the tree below it; a tag without a direct count has none.
pub proof fn law_nodes_count_their_subtrees(
    tags: Seq<TagView>,
    counts: Map<Seq<char>, i32>,
    min_count: int,
    i: int,
)
    requires
        branches_end(tags),
        0 <= i < tag_tree(tags, counts, min_count).len(),
    ensures
        ({
            let n = tag_tree(tags, counts, min_count)[i];
            &&& n.atom_count == direct_total(counts, seq![n])
            &&& n.atom_count == direct_total(counts, n.children) + (if counts.contains_key(
                n.tag.id,
            ) {
                counts[n.tag.id] as int
            } else {
                0
            })
        }),
        count_sum(tag_tree(tags, counts, min_count)) == direct_total(
            counts,
            tag_tree(tags, counts, min_count),
        ),
{
    law_tree_is_counted(tags, counts, min_count);
    let tree = tag_tree(tags, counts, min_count);
    lemma_direct_total(tags, counts, tree, None);
    let p = counted(tags, counts);
    assert(p(None, tree));
    let n = tree[i];
    lemma_direct_total(tags, counts, n.children, Some(n.tag.id));
    let one = seq![n];
    assert(one.drop_last() =~= Seq::empty());
    assert(one.last() == n);
    assert(direct_total(counts, one.drop_last()) == 0);
}

/// The tags under a parent are those that name it, each as often as it is listed, in the order of
/// the list.
pub proof fn law_children_name_their_parent(
    tags: Seq<TagView>,
    parent: Option<Seq<char>>,
    t: TagView,
    i: int,
    j: int,
)
    ensures
        children_of(tags, parent).contains(t) <==> tags.contains(t) && t.parent_id == parent,
        children_of(tags, parent).to_multiset().count(t) == if t.parent_id == parent {
            tags.to_multiset().count(t)
        } else {
            0
        },
        0 <= i < j < children_of(tags, parent).len() ==> stands_before(
            tags,
            children_of(tags, parent)[i],
            children_of(tags, parent)[j],
        ),
    decreases tags.len(),
{
    broadcast use vstd::seq_lib::group_to_multiset_ensures;
    broadcast use vstd::seq_lib::group_filter_ensures;

    let under = |u: TagView| u.parent_id == parent;
    lemma_filter_counts(tags, under, t);
    if tags.contains(t) && t.parent_id == parent {
        assert(under(t));
    }
    if children_of(tags, parent).contains(t) {
        let k = choose|k: int|
            0 <= k < children_of(tags, parent).len() && children_of(tags, parent)[k] == t;
        lemma_filter_from(tags, under, k);
        assert(under(tags.filter(under)[k]));
    }
    if 0 <= i < j < children_of(tags, parent).len() {
        lemma_filter_keeps_order(tags, under, i, j);
    }
}

/// What is filtered is there as often as before if it passes, and gone if not.
proof fn lemma_filter_counts<A>(s: Seq<A>, p: spec_fn(A) -> bool, x: A)
    ensures
        s.filter(p).to_multiset().count(x) == if p(x) {
            s.to_multiset().count(x)
        } else {
            0
        },
    decreases s.len(),
{
    broadcast use vstd::seq_lib::group_to_multiset_ensures;

    reveal(Seq::filter);
    if s.len() > 0 {
        let d = s.drop_last();
        lemma_filter_counts(d, p, x);
        assert(s =~= d.push(s.last()));
        assert(s.to_multiset() =~= d.to_multiset().insert(s.last()));
        if p(s.last()) {
            assert(s.filter(p).to_multiset() =~= d.filter(p).to_multiset().insert(s.last()));
        }
    }
}

/// Among siblings no tag stands more often than it is listed.
pub open spec fn as_listed(tags: Seq<TagView>) -> spec_fn(
    Option<Seq<char>>,
    Seq<NodeView>,
) -> bool {
    |parent: Option<Seq<char>>, list: Seq<NodeView>|
        forall|t: TagView|
            list.map_values(|n: NodeView| n.tag).to_multiset().count(t) <= #[trigger] tags.to_multiset().count(
                t,
            )
}

proof fn lemma_filter_tags(s: Seq<NodeView>, p: spec_fn(NodeView) -> bool, t: TagView)
    ensures
        s.filter(p).map_values(|n: NodeView| n.tag).to_multiset().count(t) <= s.map_values(
            |n: NodeView| n.tag,
        ).to_multiset().count(t),
    decreases s.len(),
{
    broadcast use vstd::seq_lib::group_to_multiset_ensures;

    reveal(Seq::filter);
    let tag = |n: NodeView| n.tag;
    if s.len() > 0 {
        let d = s.drop_last();
        lemma_filter_tags(d, p, t);
        assert(s.map_values(tag) =~= d.map_values(tag).push(s.last().tag));
        if p(s.last()) {
            assert(s.filter(p).map_values(tag) =~= d.filter(p).map_values(tag).push(s.last().tag));
        }
    }
}

/// In the whole tree no tag stands more often among its siblings than it is listed.
pub proof fn law_tree_repeats_no_tag(
    tags: Seq<TagView>,
    counts: Map<Seq<char>, i32>,
    min_count: int,
)
    requires
        branches_end(tags),
    ensures
        throughout(tag_tree(tags, counts, min_count), None, as_listed(tags)),
{
    let p = as_listed(tags);
    let tag = |n: NodeView| n.tag;
    assert forall|q: Option<Seq<char>>, d: nat|
        #![trigger forest(tags, counts, min_count, q, d)]
        d > 0 || children_of(tags, q).len() == 0 implies p(
        q,
        forest(tags, counts, min_count, q, d),
    ) by {
        let f = forest(tags, counts, min_count, q, d);
        assert forall|t: TagView|
            f.map_values(tag).to_multiset().count(t) <= #[trigger] tags.to_multiset().count(
                t,
            ) by {
            broadcast use vstd::seq_lib::group_to_multiset_ensures;

            if d > 0 {
                let below = (d - 1) as nat;
                let kids = children_of(tags, q);
                let all = nodes_of(tags, counts, min_count, kids, below);
                let keep = |n: NodeView| stays(n, min_count);
                lemma_ranked(all.filter(keep));
                lemma_filter_tags(all, keep, t);
                lemma_nodes_of(tags, counts, min_count, kids, below);
                assert(all.map_values(tag) =~= kids);
                law_children_name_their_parent(tags, q, t, 0, 0);
            } else {
                assert(f.map_values(tag) =~= Seq::empty());
            }
        }
    }
    assert(is_branch(tags, Seq::empty()));
    lemma_throughout(tags, counts, min_count, None, tags.len(), Seq::empty(), p);
}

} // verus!
