//! Stored embeddings: which of them are averaged, and how their numbers are laid out.

use crate::text::text_eq;
use vstd::prelude::*;

verus! {

/// How many bytes a number of an embedding takes.
pub const WORD_BYTES: usize = 4;

/// The bits of the number at `i` in an embedding: four bytes, the lowest first.
pub open spec fn word_at(blob: Seq<u8>, i: int) -> int {
    blob[4 * i] + 0x100 * blob[4 * i + 1] + 0x1_0000 * blob[4 * i + 2] + 0x100_0000 * blob[4 * i
        + 3]
}

/// The bits of the number at `i` in an embedding.
pub fn le_word(blob: &Vec<u8>, i: usize) -> (r: u32)
    requires
        4 * i + 3 < blob@.len(),
    ensures
        r == word_at(blob@, i as int),
{
    assert(4 * i + 3 < blob.len());
    let k: usize = 4 * i;
    (blob[k] as u32) + 0x100 * (blob[k + 1] as u32) + 0x1_0000 * (blob[k + 2] as u32) + 0x100_0000
        * (blob[k + 3] as u32)
}

/// A chunk: the atom that it belongs to, and how many bytes its embedding has.
#[derive(Debug)]
pub struct ChunkRow {
    pub atom_id: String,
    pub blob_len: usize,
}

/// An average to be taken: of the chunks `rows`, which are all of the dimension.
#[derive(Debug)]
pub struct AveragePlan {
    pub atom_id: String,
    pub dim: usize,
    pub rows: Vec<usize>,
}

/// What a chunk holds.
pub type ChunkView = (Seq<char>, nat);

/// What chunks hold.
pub open spec fn chunk_views(rows: Seq<ChunkRow>) -> Seq<ChunkView> {
    rows.map_values(|r: ChunkRow| (r.atom_id@, r.blob_len as nat))
}

/// An average to be taken.
pub struct AverageView {
    pub atom_id: Seq<char>,
    pub dim: nat,
    pub rows: Seq<int>,
}

impl View for AveragePlan {
    type V = AverageView;

    open spec fn view(&self) -> AverageView {
        AverageView {
            atom_id: self.atom_id@,
            dim: self.dim as nat,
            rows: self.rows@.map_values(|i: usize| i as int),
        }
    }
}

/// The averages of the first `n` chunks, empty ones among them. A chunk too short for a number
/// does not count. A chunk of another atom than the one before starts an average, whose dimension
/// it sets; a chunk belongs to the average at hand if its length is that of the dimension.
pub open spec fn averages(rows: Seq<ChunkView>, n: nat) -> Seq<AverageView>
    decreases n,
{
    if n == 0 {
        Seq::empty()
    } else {
        let before = averages(rows, (n - 1) as nat);
        let (id, len) = rows[n - 1];
        if len / 4 == 0 {
            before
        } else {
            let open = if before.len() > 0 && before.last().atom_id == id {
                before
            } else {
                before.push(AverageView { atom_id: id, dim: len / 4, rows: Seq::empty() })
            };
            if len == 4 * open.last().dim {
                open.drop_last().push(
                    AverageView { rows: open.last().rows.push(n - 1), ..open.last() },
                )
            } else {
                open
            }
        }
    }
}

/// The averages that have anything to average.
pub open spec fn taken(list: Seq<AverageView>) -> Seq<AverageView> {
    list.filter(|a: AverageView| a.rows.len() > 0)
}

/// What a list of averages holds.
pub open spec fn average_views(list: Seq<AveragePlan>) -> Seq<AverageView> {
    list.map_values(|a: AveragePlan| a@)
}

/// The averages to be taken of chunks that stand by their atoms.
pub fn plan_averages(rows: &Vec<ChunkRow>) -> (r: Vec<AveragePlan>)
    ensures
        average_views(r@) == taken(averages(chunk_views(rows@), rows@.len())),
{
    let ghost all = chunk_views(rows@);
    let mut list: Vec<AveragePlan> = Vec::new();
    let mut i: usize = 0;
    assert(average_views(list@) =~= Seq::empty());
    while i < rows.len()
        invariant
            i <= rows@.len(),
            all == chunk_views(rows@),
            average_views(list@) == averages(all, i as nat),
            forall|j: int| 0 <= j < list@.len() ==> (#[trigger] list@[j]).dim <= usize::MAX / 4,
        decreases rows@.len() - i,
    {
        let len: usize = rows[i].blob_len;
        let dim: usize = len / WORD_BYTES;
        assert(all[i as int] == (rows@[i as int].atom_id@, len as nat));
        if dim > 0 {
            let ghost before = average_views(list@);
            let n: usize = list.len();
            let same = n > 0 && text_eq(list[n - 1].atom_id.as_str(), rows[i].atom_id.as_str());
            if !same {
                let plan = AveragePlan { atom_id: rows[i].atom_id.clone(), dim, rows: Vec::new() };
                assert(plan@.rows =~= Seq::empty());
                let ghost pv = plan@;
                list.push(plan);
                assert(average_views(list@) =~= before.push(pv));
            }
            let ghost open = average_views(list@);
            assert(list@.len() > 0);
            match list.pop() {
                Some(last) => {
                    let mut last = last;
                    assert(average_views(list@) =~= open.drop_last());
                    assert(open.last() == last@);
                    if len == WORD_BYTES * last.dim {
                        let ghost lv = last@;
                        last.rows.push(i);
                        assert(last@.rows =~= lv.rows.push(i as int));
                    }
                    let ghost lv = last@;
                    list.push(last);
                    assert(average_views(list@) =~= open.drop_last().push(lv));
                    assert(open =~= open.drop_last().push(open.last()));
                },
                None => {},
            }
        }
        i = i + 1;
    }
    let ghost full = average_views(list@);
    let ghost p = |a: AverageView| a.rows.len() > 0;
    let mut r: Vec<AveragePlan> = Vec::new();
    proof {
        reveal(Seq::filter);
        assert(average_views(r@) =~= full.take(0).filter(p));
    }
    let ghost given = list@;
    for a in it: list.into_iter()
        invariant
            it.seq() == given,
            full == average_views(given),
            p == |a: AverageView| a.rows.len() > 0,
            average_views(r@) == full.take(it.index() as int).filter(p),
    {
        let ghost before = average_views(r@);
        proof {
            let k = it.index() as int;
            assert(full.take(k + 1).drop_last() =~= full.take(k));
            assert(full[k] == a@);
            reveal(Seq::filter);
        }
        if a.rows.len() > 0 {
            let ghost av = a@;
            r.push(a);
            assert(average_views(r@) =~= before.push(av));
        }
    }
    assert(full.take(full.len() as int) =~= full);
    r
}

proof fn lemma_averages_fit(rows: Seq<ChunkView>, n: nat)
    requires
        n <= rows.len(),
    ensures
        forall|a: int, k: int|
            #![trigger averages(rows, n)[a].rows[k]]
            0 <= a < averages(rows, n).len() && 0 <= k < averages(rows, n)[a].rows.len() ==> {
                let i = averages(rows, n)[a].rows[k];
                0 <= i < n && rows[i].0 == averages(rows, n)[a].atom_id && rows[i].1 == 4
                    * averages(rows, n)[a].dim
            },
        forall|a: int|
            0 <= a < averages(rows, n).len() ==> (#[trigger] averages(rows, n)[a]).dim > 0,
    decreases n,
{
    if n > 0 {
        lemma_averages_fit(rows, (n - 1) as nat);
        let before = averages(rows, (n - 1) as nat);
        let now = averages(rows, n);
        let (id, len) = rows[n - 1];
        if len / 4 != 0 {
            let open = if before.len() > 0 && before.last().atom_id == id {
                before
            } else {
                before.push(AverageView { atom_id: id, dim: len / 4, rows: Seq::empty() })
            };
            assert forall|a: int, k: int|
                #![trigger now[a].rows[k]]
                0 <= a < now.len() && 0 <= k < now[a].rows.len() implies {
                let i = now[a].rows[k];
                0 <= i < n && rows[i].0 == now[a].atom_id && rows[i].1 == 4 * now[a].dim
            } by {
                if a < before.len() {
                    if a < now.len() - 1 {
                        assert(now[a] == before[a]);
                        assert(before[a].rows[k] == now[a].rows[k]);
                    } else {
                        assert(open.last() == before[a]);
                        if k < before[a].rows.len() {
                            assert(before[a].rows[k] == now[a].rows[k]);
                        }
                    }
                }
            }
            assert forall|a: int| 0 <= a < now.len() implies (#[trigger] now[a]).dim > 0 by {
                if a < before.len() {
                    assert(before[a].dim > 0);
                }
            }
        }
    }
}

/// An average is only taken of chunks of its atom, all of them of its dimension, which is not
/// zero.
pub proof fn law_averages_are_of_equal_chunks(rows: Seq<ChunkView>, a: int, k: int)
    requires
        0 <= a < averages(rows, rows.len()).len(),
        0 <= k < averages(rows, rows.len())[a].rows.len(),
    ensures
        ({
            let average = averages(rows, rows.len())[a];
            let i = average.rows[k];
            &&& 0 <= i < rows.len()
            &&& rows[i].0 == average.atom_id
            &&& rows[i].1 == 4 * average.dim
            &&& average.dim > 0
        }),
{
    lemma_averages_fit(rows, rows.len());
}

/// The four bytes of a number, the lowest first, are those of the embedding.
pub proof fn law_bytes_make_the_number(blob: &Vec<u8>, i: usize, r: u32)
    requires
        4 * i + 3 < blob@.len(),
        call_ensures(le_word, (blob, i), r),
    ensures
        r % 0x100 == blob@[4 * i],
        (r / 0x100) % 0x100 == blob@[4 * i + 1],
        (r / 0x1_0000) % 0x100 == blob@[4 * i + 2],
        r / 0x100_0000 == blob@[4 * i + 3],
{
}

/// The last of the first `n` chunks that is long enough for a number.
pub open spec fn last_long(rows: Seq<ChunkView>, n: nat) -> Option<int>
    decreases n,
{
    if n == 0 {
        None
    } else if rows[n - 1].1 >= 4 {
        Some(n - 1)
    } else {
        last_long(rows, (n - 1) as nat)
    }
}

/// The first chunk of the run that the chunk at `i` belongs to: chunks of one atom, with nothing
/// between them but chunks too short for a number.
pub open spec fn run_start(rows: Seq<ChunkView>, i: nat) -> int
    decreases i,
{
    match last_long(rows, i) {
        Some(p) => if 0 <= p < i && rows[p].0 == rows[i as int].0 {
            run_start(rows, p as nat)
        } else {
            i as int
        },
        None => i as int,
    }
}

/// Whether the average `a` of a list is that of the run of the chunk at `i`, with the chunk in it
/// if it is of the length of the first one.
pub open spec fn averages_at(
    list: Seq<AverageView>,
    rows: Seq<ChunkView>,
    i: nat,
    a: int,
) -> bool {
    let first = rows[run_start(rows, i)];
    &&& 0 <= a < list.len()
    &&& list[a].atom_id == rows[i as int].0
    &&& list[a].dim == first.1 / 4
    &&& list[a].rows.contains(i as int) <==> rows[i as int].1 == 4 * (first.1 / 4)
}

/// Whether some average of a list is that of the run of the chunk at `i`.
pub open spec fn is_averaged(list: Seq<AverageView>, rows: Seq<ChunkView>, i: nat) -> bool {
    exists|a: int| averages_at(list, rows, i, a)
}

proof fn lemma_last_long(rows: Seq<ChunkView>, n: nat)
    requires
        n <= rows.len(),
    ensures
        last_long(rows, n) matches Some(p) ==> 0 <= p < n && rows[p].1 >= 4,
    decreases n,
{
    if n > 0 {
        lemma_last_long(rows, (n - 1) as nat);
    }
}

proof fn lemma_runs_are_averaged(rows: Seq<ChunkView>, n: nat)
    requires
        n <= rows.len(),
    ensures
        last_long(rows, n) is None <==> averages(rows, n).len() == 0,
        last_long(rows, n) matches Some(p) ==> averages(rows, n).last().atom_id == rows[p].0
            && averages(rows, n).last().dim == rows[run_start(rows, p as nat)].1 / 4,
        forall|i: nat| i < n && rows[i as int].1 >= 4 ==> #[trigger] is_averaged(
            averages(rows, n),
            rows,
            i,
        ),
    decreases n,
{
    if n > 0 {
        let m = (n - 1) as nat;
        lemma_runs_are_averaged(rows, m);
        lemma_last_long(rows, m);
        lemma_averages_fit(rows, m);
        let before = averages(rows, m);
        let now = averages(rows, n);
        let (id, len) = rows[m as int];
        if len / 4 != 0 {
            let open = if before.len() > 0 && before.last().atom_id == id {
                before
            } else {
                before.push(AverageView { atom_id: id, dim: len / 4, rows: Seq::empty() })
            };
            assert(open.last().dim == rows[run_start(rows, m)].1 / 4);
            assert forall|i: nat| i < n && rows[i as int].1 >= 4 implies #[trigger] is_averaged(
                now,
                rows,
                i,
            ) by {
                if i == m {
                    let a = now.len() - 1;
                    if len == 4 * open.last().dim {
                        assert(now[a].rows[open.last().rows.len() as int] == m);
                    } else {
                        if open.last().rows.contains(m as int) {
                            let k = open.last().rows.index_of(m as int);
                            assert(before[a].rows[k] == m);
                        }
                    }
                    assert(averages_at(now, rows, i, a));
                } else {
                    assert(is_averaged(before, rows, i));
                    let a = choose|a: int| averages_at(before, rows, i, a);
                    if before[a].rows.contains(i as int) {
                        let k = before[a].rows.index_of(i as int);
                        assert(now[a].rows[k] == i);
                    }
                    if now[a].rows.contains(i as int) {
                        let k = now[a].rows.index_of(i as int);
                        assert(before[a].rows[k] == i);
                    }
                    assert(averages_at(now, rows, i, a));
                }
            }
        } else {
            assert forall|i: nat| i < n && rows[i as int].1 >= 4 implies #[trigger] is_averaged(
                now,
                rows,
                i,
            ) by {
                assert(is_averaged(before, rows, i));
            }
        }
    }
}

/// Whether some average is taken of the chunk at `i`, for its atom and with its dimension.
pub open spec fn takes(list: Seq<AveragePlan>, rows: Seq<ChunkRow>, i: int) -> bool {
    exists|a: int|
        0 <= a < list.len() && (#[trigger] list[a]).atom_id@ == rows[i].atom_id@ && list[a].dim
            == rows[i].blob_len / 4 && list[a]@.rows.contains(i)
}

/// Every chunk whose length is a whole number of numbers, and that of the first chunk of its run,
/// is averaged, for its atom and with its dimension; no average is taken of nothing, and each is
/// only of chunks of its atom and of its dimension.
pub proof fn law_every_fitting_chunk_is_averaged(rows: &Vec<ChunkRow>, r: Vec<AveragePlan>)
    requires
        call_ensures(plan_averages, (rows,), r),
    ensures
        forall|i: int|
            #![trigger rows@[i]]
            0 <= i < rows@.len() && rows@[i].blob_len >= 4 && rows@[i].blob_len == 4 * (
            chunk_views(rows@)[run_start(chunk_views(rows@), i as nat)].1 / 4) ==> takes(
                r@,
                rows@,
                i,
            ),
        forall|a: int| #![trigger r@[a]] 0 <= a < r@.len() ==> r@[a].rows@.len() > 0,
        forall|a: int, k: int|
            #![trigger r@[a].rows@[k]]
            0 <= a < r@.len() && 0 <= k < r@[a].rows@.len() ==> r@[a].rows@[k] < rows@.len()
                && rows@[r@[a].rows@[k] as int].atom_id@ == r@[a].atom_id@
                && rows@[r@[a].rows@[k] as int].blob_len == 4 * r@[a].dim,
{
    broadcast use vstd::seq_lib::group_filter_ensures;

    let all = chunk_views(rows@);
    let list = averages(all, all.len());
    let p = |a: AverageView| a.rows.len() > 0;
    lemma_runs_are_averaged(all, all.len());
    lemma_averages_fit(all, all.len());
    assert(average_views(r@) == list.filter(p));
    assert forall|i: int|
        #![trigger rows@[i]]
        0 <= i < rows@.len() && rows@[i].blob_len >= 4 && rows@[i].blob_len == 4 * (all[run_start(
            all,
            i as nat,
        )].1 / 4) implies takes(r@, rows@, i) by {
        assert(all[i] == (rows@[i].atom_id@, rows@[i].blob_len as nat));
        let j = i as nat;
        assert(is_averaged(list, all, j));
        let a = choose|a: int| averages_at(list, all, j, a);
        assert(list[a].rows.contains(i));
        assert(p(list[a]));
        assert(list.filter(p).contains(list[a]));
        let b = list.filter(p).index_of(list[a]);
        assert(average_views(r@)[b] == r@[b]@);
        assert(r@[b]@ == list[a]);
        assert(r@[b].dim == rows@[i].blob_len / 4);
    }
    assert forall|a: int| #![trigger r@[a]] 0 <= a < r@.len() implies r@[a].rows@.len() > 0 by {
        assert(average_views(r@)[a] == r@[a]@);
        assert(p(list.filter(p)[a]));
        assert(r@[a]@.rows.len() == r@[a].rows@.len());
    }
    assert forall|a: int, k: int|
        #![trigger r@[a].rows@[k]]
        0 <= a < r@.len() && 0 <= k < r@[a].rows@.len() implies r@[a].rows@[k] < rows@.len()
        && rows@[r@[a].rows@[k] as int].atom_id@ == r@[a].atom_id@
        && rows@[r@[a].rows@[k] as int].blob_len == 4 * r@[a].dim by {
        assert(average_views(r@)[a] == r@[a]@);
        assert(list.filter(p).contains(list.filter(p)[a]));
        list.lemma_filter_contains_rev(p, list.filter(p)[a]);
        let b = list.index_of(list.filter(p)[a]);
        assert(list[b] == r@[a]@);
        let i = list[b].rows[k];
        assert(i == r@[a].rows@[k]);
        assert(all[i] == (rows@[i].atom_id@, rows@[i].blob_len as nat));
    }
}

} // verus!
