//! Laws of the traversal engines, stated over the same specification
//! functions that the executable scans are proved against.

use vstd::prelude::*;

use crate::btree::{
    spec_child_list,
    spec_list_ok,
    spec_page_entries,
    spec_page_no_valid,
    spec_range_has,
    spec_scan_list,
    spec_search_cells,
    spec_search_list,
    spec_search_tree,
    spec_subtree_scan,
    spec_tree_ok,
    RowView,
    SearchTask,
};
use crate::page::{spec_read_cell, PageView};

verus! {

/// Every cell of the page decodes.
pub open spec fn spec_page_clean(p: PageView) -> bool {
    forall|i: int| 0 <= i < p.btree_header.ncells as int ==> (#[trigger] spec_read_cell(p, i)) is Ok
}

/// Every cell of every page in the tree below `pno` decodes.
pub open spec fn spec_tree_clean(db: Seq<PageView>, pno: int, fuel: nat) -> bool
    decreases fuel, 0int,
{
    if !spec_page_no_valid(db, pno) || fuel == 0 {
        true
    } else {
        spec_page_clean(db[pno - 1]) && spec_list_clean(
            db,
            spec_child_list(db[pno - 1], 0),
            (fuel - 1) as nat,
        )
    }
}

/// `spec_tree_clean` for every page of a list.
pub open spec fn spec_list_clean(db: Seq<PageView>, pnos: Seq<int>, fuel: nat) -> bool
    decreases fuel, pnos.len() + 1,
{
    if pnos.len() == 0 {
        true
    } else {
        spec_tree_clean(db, pnos[0], fuel) && spec_list_clean(db, pnos.skip(1), fuel)
    }
}

/// How many of the page's cells from `i` on carry an entry of their own.
pub open spec fn spec_page_entry_count(p: PageView, i: int) -> nat
    decreases p.btree_header.ncells - i,
{
    let nc = p.btree_header.ncells as int;
    if i < 0 || i >= nc {
        0
    } else {
        let rest = spec_page_entry_count(p, i + 1);
        match spec_read_cell(p, i) {
            Err(_) => rest,
            Ok(cc) => if cc.columns is Some {
                (1 + rest) as nat
            } else {
                rest
            },
        }
    }
}

/// The number of entry-bearing cells in the whole tree below `pno`.
pub open spec fn spec_tree_cell_count(db: Seq<PageView>, pno: int, fuel: nat) -> nat
    decreases fuel, 0int,
{
    if !spec_page_no_valid(db, pno) || fuel == 0 {
        0
    } else {
        spec_page_entry_count(db[pno - 1], 0) + spec_list_cell_count(
            db,
            spec_child_list(db[pno - 1], 0),
            (fuel - 1) as nat,
        )
    }
}

/// The summed cell count of a list of subtrees.
pub open spec fn spec_list_cell_count(db: Seq<PageView>, pnos: Seq<int>, fuel: nat) -> nat
    decreases fuel, pnos.len() + 1,
{
    if pnos.len() == 0 {
        0
    } else {
        spec_tree_cell_count(db, pnos[0], fuel) + spec_list_cell_count(db, pnos.skip(1), fuel)
    }
}

/// On a page whose cells all decode, the entries are one per entry-bearing
/// cell and nothing is skipped.
proof fn lemma_page_entries_count(p: PageView, i: int)
    requires
        spec_page_clean(p),
    ensures
        spec_page_entries(p, i).1 == 0,
        spec_page_entries(p, i).0.len() == spec_page_entry_count(p, i),
    decreases p.btree_header.ncells - i,
{
    let nc = p.btree_header.ncells as int;
    if 0 <= i < nc {
        lemma_page_entries_count(p, i + 1);
    }
}

/// Unconstrained-scan completeness: over a well-founded tree whose cells
/// all decode, the scan skips nothing and yields exactly one row per
/// entry-bearing cell of the tree.  Together with the scan's own contract,
/// which pins the produced row sequence itself, every such cell is yielded
/// exactly once.
pub proof fn lemma_unconstrained_scan_complete(db: Seq<PageView>, pno: int, fuel: nat)
    requires
        spec_tree_ok(db, pno, fuel),
        spec_tree_clean(db, pno, fuel),
    ensures
        spec_subtree_scan(db, pno, fuel).1 == 0,
        spec_subtree_scan(db, pno, fuel).0.len() == spec_tree_cell_count(db, pno, fuel),
    decreases fuel, 0int,
{
    if spec_page_no_valid(db, pno) {
        lemma_page_entries_count(db[pno - 1], 0);
        lemma_list_scan_complete(db, spec_child_list(db[pno - 1], 0), (fuel - 1) as nat);
    }
}

/// `lemma_unconstrained_scan_complete` for every page of a list.
proof fn lemma_list_scan_complete(db: Seq<PageView>, pnos: Seq<int>, fuel: nat)
    requires
        spec_list_ok(db, pnos, fuel),
        spec_list_clean(db, pnos, fuel),
    ensures
        spec_scan_list(db, pnos, fuel).1 == 0,
        spec_scan_list(db, pnos, fuel).0.len() == spec_list_cell_count(db, pnos, fuel),
    decreases fuel, pnos.len() + 1,
{
    if pnos.len() > 0 {
        lemma_unconstrained_scan_complete(db, pnos[0], fuel);
        lemma_list_scan_complete(db, pnos.skip(1), fuel);
    }
}

/// Whether a row's rowid lies in the candidate range.
pub open spec fn spec_row_in_candidates(r: RowView, ids: Seq<i64>, lo: int, hi: int) -> bool {
    match r.rowid {
        Some(v) => spec_range_has(ids, lo, hi, v),
        None => false,
    }
}

/// Key-range-scan soundness: every row a key-range scan yields has a rowid
/// among the candidates it was given.  (The scan's own contract pins the
/// exact row sequence; this law states the guarantee that pruning never
/// invents rows.)
pub proof fn lemma_key_range_scan_sound(
    db: Seq<PageView>,
    ids: Seq<i64>,
    pno: int,
    lo: int,
    hi: int,
    fuel: nat,
)
    requires
        0 <= lo <= hi <= ids.len(),
    ensures
        forall|k: int|
            0 <= k < spec_search_tree(db, ids, pno, lo, hi, fuel).0.len()
                ==> spec_row_in_candidates(
                #[trigger] spec_search_tree(db, ids, pno, lo, hi, fuel).0[k],
                ids,
                0,
                ids.len() as int,
            ),
    decreases fuel, 0int,
{
    if spec_page_no_valid(db, pno) && lo < hi && fuel > 0 {
        let p = db[pno - 1];
        let c = spec_search_cells(p, ids, 0, lo, hi);
        let rmp_tasks: Seq<SearchTask> = match p.btree_header.right_most_pointer {
            Some(rp) => seq![(rp as int, c.3, hi)],
            None => Seq::empty(),
        };
        lemma_search_cells_sound(p, db, ids, 0, lo, hi);
        assert forall|k: int| 0 <= k < (c.2 + rmp_tasks).len() implies {
            let t = #[trigger] (c.2 + rmp_tasks)[k];
            0 <= t.1 && t.1 <= t.2 && t.2 <= ids.len()
        } by {
            if k < c.2.len() {
                assert((c.2 + rmp_tasks)[k] == c.2[k]);
            } else {
                assert((c.2 + rmp_tasks)[k] == rmp_tasks[k - c.2.len()]);
            }
        }
        lemma_search_list_sound(db, ids, c.2 + rmp_tasks, (fuel - 1) as nat);
        let own = c.0;
        let sub = spec_search_list(db, ids, c.2 + rmp_tasks, (fuel - 1) as nat).0;
        assert forall|k: int| 0 <= k < (own + sub).len() implies spec_row_in_candidates(
            #[trigger] (own + sub)[k],
            ids,
            0,
            ids.len() as int,
        ) by {
            if k < own.len() {
                assert((own + sub)[k] == own[k]);
            } else {
                assert((own + sub)[k] == sub[k - own.len()]);
            }
        }
    }
}

/// `lemma_key_range_scan_sound` for every task of a list.
proof fn lemma_search_list_sound(db: Seq<PageView>, ids: Seq<i64>, tasks: Seq<SearchTask>, fuel: nat)
    requires
        forall|k: int|
            0 <= k < tasks.len() ==> {
                let t = #[trigger] tasks[k];
                0 <= t.1 && t.1 <= t.2 && t.2 <= ids.len()
            },
    ensures
        forall|k: int|
            0 <= k < spec_search_list(db, ids, tasks, fuel).0.len() ==> spec_row_in_candidates(
                #[trigger] spec_search_list(db, ids, tasks, fuel).0[k],
                ids,
                0,
                ids.len() as int,
            ),
    decreases fuel, tasks.len() + 1,
{
    if tasks.len() > 0 {
        lemma_key_range_scan_sound(db, ids, tasks[0].0, tasks[0].1, tasks[0].2, fuel);
        assert forall|k: int| 0 <= k < tasks.skip(1).len() implies {
            let t = #[trigger] tasks.skip(1)[k];
            0 <= t.1 && t.1 <= t.2 && t.2 <= ids.len()
        } by {
            assert(tasks.skip(1)[k] == tasks[k + 1]);
        }
        lemma_search_list_sound(db, ids, tasks.skip(1), fuel);
        let first = spec_search_tree(db, ids, tasks[0].0, tasks[0].1, tasks[0].2, fuel).0;
        let rest = spec_search_list(db, ids, tasks.skip(1), fuel).0;
        assert forall|k: int| 0 <= k < (first + rest).len() implies spec_row_in_candidates(
            #[trigger] (first + rest)[k],
            ids,
            0,
            ids.len() as int,
        ) by {
            if k < first.len() {
                assert((first + rest)[k] == first[k]);
            } else {
                assert((first + rest)[k] == rest[k - first.len()]);
            }
        }
    }
}

/// A candidate found in a subrange is a candidate of the whole list.
proof fn lemma_range_has_widen(ids: Seq<i64>, lo: int, hi: int, x: i64)
    requires
        0 <= lo,
        hi <= ids.len(),
        spec_range_has(ids, lo, hi, x),
    ensures
        spec_range_has(ids, 0, ids.len() as int, x),
{
}

/// The rows that the cells of one page yield themselves, under a candidate
/// range, all carry candidate rowids.
proof fn lemma_search_cells_sound(
    p: PageView,
    db: Seq<PageView>,
    ids: Seq<i64>,
    i: int,
    lo: int,
    hi: int,
)
    requires
        0 <= lo,
        hi <= ids.len(),
        lo <= hi,
    ensures
        forall|k: int|
            0 <= k < spec_search_cells(p, ids, i, lo, hi).0.len() ==> spec_row_in_candidates(
                #[trigger] spec_search_cells(p, ids, i, lo, hi).0[k],
                ids,
                0,
                ids.len() as int,
            ),
        lo <= spec_search_cells(p, ids, i, lo, hi).3 <= hi,
        forall|k: int|
            0 <= k < spec_search_cells(p, ids, i, lo, hi).2.len() ==> {
                let t = #[trigger] spec_search_cells(p, ids, i, lo, hi).2[k];
                lo <= t.1 && t.1 <= t.2 && t.2 <= hi
            },
    decreases p.btree_header.ncells - i,
{
    let nc = p.btree_header.ncells as int;
    if 0 <= i < nc {
        match spec_read_cell(p, i) {
            Err(_) => {
                lemma_search_cells_sound(p, db, ids, i + 1, lo, hi);
            },
            Ok(cc) => match (cc.left_child, cc.rowid) {
                (Some(_), Some(key)) => {
                    let cut = crate::btree::spec_partition(ids, lo, hi, key);
                    lemma_partition_bounds(ids, lo, hi, key);
                    lemma_search_cells_sound(p, db, ids, i + 1, cut, hi);
                },
                (Some(_), None) => {
                    lemma_search_cells_sound(p, db, ids, i + 1, lo, hi);
                },
                (None, Some(rowid)) => {
                    lemma_search_cells_sound(p, db, ids, i + 1, lo, hi);
                    let r = spec_search_cells(p, ids, i + 1, lo, hi);
                    let own: Seq<RowView> = if spec_range_has(ids, lo, hi, rowid) {
                        match cc.columns {
                            Some(cols) => seq![RowView { rowid: Some(rowid), columns: cols }],
                            None => Seq::empty(),
                        }
                    } else {
                        Seq::empty()
                    };
                    if spec_range_has(ids, lo, hi, rowid) {
                        lemma_range_has_widen(ids, lo, hi, rowid);
                    }
                    assert forall|k: int| 0 <= k < (own + r.0).len() implies spec_row_in_candidates(
                        #[trigger] (own + r.0)[k],
                        ids,
                        0,
                        ids.len() as int,
                    ) by {
                        if k < own.len() {
                            assert((own + r.0)[k] == own[k]);
                        } else {
                            assert((own + r.0)[k] == r.0[k - own.len()]);
                        }
                    }
                },
                (None, None) => {
                    lemma_search_cells_sound(p, db, ids, i + 1, lo, hi);
                },
            },
        }
    }
}

/// A partition point lies within its range.
proof fn lemma_partition_bounds(ids: Seq<i64>, lo: int, hi: int, key: i64)
    requires
        lo <= hi,
    ensures
        lo <= crate::btree::spec_partition(ids, lo, hi, key) <= hi,
    decreases hi - lo,
{
    if lo < hi && ids[lo] < key {
        lemma_partition_bounds(ids, lo + 1, hi, key);
    }
}

/// Traversal is idempotent: what a scan must return is a function of the
/// database value and the root alone, so repeated traversals of the same
/// immutable database answer identically.
pub proof fn lemma_traversal_idempotent(
    db1: Seq<PageView>,
    db2: Seq<PageView>,
    pno: int,
    fuel: nat,
)
    requires
        db1 == db2,
    ensures
        spec_subtree_scan(db1, pno, fuel) == spec_subtree_scan(db2, pno, fuel),
{
}

// ---------------------------------------------------------------------------
// Key-range-scan exactness.
//
// Over a table B-tree whose boundary keys strictly separate the subtrees,
// a key-range scan with a sorted candidate list yields exactly the rows of
// the unconstrained scan whose rowids are candidates, in the same order.
// ---------------------------------------------------------------------------

/// Ascending order of the candidate list.
pub open spec fn spec_sorted(ids: Seq<i64>) -> bool {
    forall|a: int, b: int| 0 <= a <= b < ids.len() ==> #[trigger] ids[a] <= #[trigger] ids[b]
}

/// The scan rows whose rowids appear somewhere in the candidate list.
pub open spec fn spec_filter_rows(rows: Seq<RowView>, ids: Seq<i64>) -> Seq<RowView>
    decreases rows.len(),
{
    if rows.len() == 0 {
        Seq::empty()
    } else {
        let keep: Seq<RowView> = if spec_row_in_candidates(rows[0], ids, 0, ids.len() as int) {
            seq![rows[0]]
        } else {
            Seq::empty()
        };
        keep + spec_filter_rows(rows.skip(1), ids)
    }
}

/// Filtering a concatenation filters both parts in order.
proof fn lemma_filter_rows_concat(a: Seq<RowView>, b: Seq<RowView>, ids: Seq<i64>)
    ensures
        spec_filter_rows(a + b, ids) == spec_filter_rows(a, ids) + spec_filter_rows(b, ids),
    decreases a.len(),
{
    if a.len() == 0 {
        assert(a + b =~= b);
        assert(spec_filter_rows(a, ids) + spec_filter_rows(b, ids) =~= spec_filter_rows(b, ids));
    } else {
        assert((a + b)[0] == a[0]);
        assert((a + b).skip(1) =~= a.skip(1) + b);
        lemma_filter_rows_concat(a.skip(1), b, ids);
        assert(spec_filter_rows(a + b, ids) =~= spec_filter_rows(a, ids) + spec_filter_rows(
            b,
            ids,
        ));
    }
}

/// The boundary key in force after cells `i..` have threaded their keys
/// through, starting from `lb`: the lower bound that the right-most
/// pointer's subtree must respect.
pub open spec fn spec_cells_final_lb(p: PageView, i: int, lb: i64) -> i64
    decreases p.btree_header.ncells - i,
{
    let nc = p.btree_header.ncells as int;
    if i < 0 || i >= nc {
        lb
    } else {
        match spec_read_cell(p, i) {
            Err(_) => spec_cells_final_lb(p, i + 1, lb),
            Ok(cc) => match (cc.left_child, cc.rowid) {
                (Some(_), Some(k)) => spec_cells_final_lb(p, i + 1, k),
                _ => spec_cells_final_lb(p, i + 1, lb),
            },
        }
    }
}

/// A strictly separated table subtree: every row's rowid lies in
/// `[lb, ub)`, every boundary key separates its left child's rowids
/// strictly from the cells after it, and no index-shaped cells occur.
pub open spec fn spec_tree_ordered(db: Seq<PageView>, pno: int, fuel: nat, lb: i64, ub: i64) -> bool
    decreases fuel, 0int,
{
    if !spec_page_no_valid(db, pno) || fuel == 0 {
        true
    } else {
        spec_cells_ordered(db, db[pno - 1], 0, (fuel - 1) as nat, lb, ub)
    }
}

/// `spec_tree_ordered`, cell by cell, threading the boundary keys.
pub open spec fn spec_cells_ordered(
    db: Seq<PageView>,
    p: PageView,
    i: int,
    cfuel: nat,
    lb: i64,
    ub: i64,
) -> bool
    decreases cfuel, (if i <= p.btree_header.ncells as int {
        p.btree_header.ncells + 1 - i
    } else {
        1
    }),
{
    let nc = p.btree_header.ncells as int;
    if i < 0 || i >= nc {
        match p.btree_header.right_most_pointer {
            Some(rp) => spec_tree_ordered(db, rp as int, cfuel, lb, ub),
            None => true,
        }
    } else {
        match spec_read_cell(p, i) {
            Err(_) => spec_cells_ordered(db, p, i + 1, cfuel, lb, ub),
            Ok(cc) => match (cc.left_child, cc.rowid) {
                (Some(lc), Some(k)) => {
                    &&& lb <= k <= ub
                    &&& spec_tree_ordered(db, lc as int, cfuel, lb, k)
                    &&& spec_cells_ordered(db, p, i + 1, cfuel, k, ub)
                },
                (None, Some(rid)) => {
                    &&& lb <= rid < ub
                    &&& spec_cells_ordered(db, p, i + 1, cfuel, lb, ub)
                },
                _ => false,
            },
        }
    }
}

/// Over an ordered subtree, every scan row carries a rowid in `[lb, ub)`.
proof fn lemma_ordered_rows_in_range(db: Seq<PageView>, pno: int, fuel: nat, lb: i64, ub: i64)
    requires
        spec_tree_ok(db, pno, fuel),
        spec_tree_ordered(db, pno, fuel, lb, ub),
    ensures
        forall|k: int|
            0 <= k < spec_subtree_scan(db, pno, fuel).0.len() ==> {
                let r = #[trigger] spec_subtree_scan(db, pno, fuel).0[k];
                r.rowid matches Some(v) && lb <= v < ub
            },
    decreases fuel, 0int,
{
    if spec_page_no_valid(db, pno) {
        let p = db[pno - 1];
        lemma_ordered_cells_rows_in_range(db, p, 0, (fuel - 1) as nat, lb, ub);
        let own = spec_page_entries(p, 0).0;
        let sub = spec_scan_list(db, spec_child_list(p, 0), (fuel - 1) as nat).0;
        assert forall|k: int| 0 <= k < (own + sub).len() implies {
            let r = #[trigger] (own + sub)[k];
            r.rowid matches Some(v) && lb <= v < ub
        } by {
            if k < own.len() {
                assert((own + sub)[k] == own[k]);
            } else {
                assert((own + sub)[k] == sub[k - own.len()]);
            }
        }
    }
}

/// `lemma_ordered_rows_in_range`, cell by cell: the page's own entries from
/// `i` on and the subtrees of its children from `i` on all lie in range.
proof fn lemma_ordered_cells_rows_in_range(
    db: Seq<PageView>,
    p: PageView,
    i: int,
    cfuel: nat,
    lb: i64,
    ub: i64,
)
    requires
        spec_list_ok(db, spec_child_list(p, i), cfuel),
        spec_cells_ordered(db, p, i, cfuel, lb, ub),
    ensures
        forall|k: int|
            0 <= k < spec_page_entries(p, i).0.len() ==> {
                let r = #[trigger] spec_page_entries(p, i).0[k];
                r.rowid matches Some(v) && lb <= v < ub
            },
        forall|k: int|
            0 <= k < spec_scan_list(db, spec_child_list(p, i), cfuel).0.len() ==> {
                let r = #[trigger] spec_scan_list(db, spec_child_list(p, i), cfuel).0[k];
                r.rowid matches Some(v) && lb <= v < ub
            },
    decreases cfuel, (if i <= p.btree_header.ncells as int {
        p.btree_header.ncells + 1 - i
    } else {
        1
    }),
{
    let nc = p.btree_header.ncells as int;
    if i < 0 || i >= nc {
        match p.btree_header.right_most_pointer {
            Some(rp) => {
                assert(spec_child_list(p, i) =~= seq![rp as int]);
                assert(spec_child_list(p, i)[0] == rp as int);
                assert(spec_child_list(p, i).skip(1) =~= Seq::<int>::empty());
                lemma_ordered_rows_in_range(db, rp as int, cfuel, lb, ub);
                let first = spec_subtree_scan(db, rp as int, cfuel).0;
                let rest = spec_scan_list(db, spec_child_list(p, i).skip(1), cfuel).0;
                assert(rest =~= Seq::<RowView>::empty());
                assert(spec_scan_list(db, spec_child_list(p, i), cfuel).0 =~= first);
            },
            None => {
                assert(spec_child_list(p, i) =~= Seq::<int>::empty());
            },
        }
    } else {
        match spec_read_cell(p, i) {
            Err(_) => {
                lemma_ordered_cells_rows_in_range(db, p, i + 1, cfuel, lb, ub);
            },
            Ok(cc) => match (cc.left_child, cc.rowid) {
                (Some(lc), Some(k)) => {
                    assert(spec_child_list(p, i) == seq![lc as int] + spec_child_list(p, i + 1));
                    assert(spec_child_list(p, i)[0] == lc as int);
                    assert(spec_child_list(p, i).skip(1) =~= spec_child_list(p, i + 1));
                    lemma_ordered_cells_rows_in_range(db, p, i + 1, cfuel, k, ub);
                    lemma_ordered_rows_in_range(db, lc as int, cfuel, lb, k);
                    let first = spec_subtree_scan(db, lc as int, cfuel).0;
                    let rest = spec_scan_list(db, spec_child_list(p, i + 1), cfuel).0;
                    assert forall|w: int| 0 <= w < (first + rest).len() implies {
                        let r = #[trigger] (first + rest)[w];
                        r.rowid matches Some(v) && lb <= v < ub
                    } by {
                        if w < first.len() {
                            assert((first + rest)[w] == first[w]);
                        } else {
                            assert((first + rest)[w] == rest[w - first.len()]);
                        }
                    }
                },
                (None, Some(rid)) => {
                    lemma_ordered_cells_rows_in_range(db, p, i + 1, cfuel, lb, ub);
                    match cc.columns {
                        Some(cols) => {
                            let own0 = seq![RowView { rowid: Some(rid), columns: cols }];
                            let restown = spec_page_entries(p, i + 1).0;
                            assert forall|w: int| 0 <= w < (own0 + restown).len() implies {
                                let r = #[trigger] (own0 + restown)[w];
                                r.rowid matches Some(v) && lb <= v < ub
                            } by {
                                if w < own0.len() {
                                    assert((own0 + restown)[w] == own0[0]);
                                } else {
                                    assert((own0 + restown)[w] == restown[w - own0.len()]);
                                }
                            }
                        },
                        None => {},
                    }
                },
                _ => {},
            },
        }
    }
}

/// Candidates scanned over by a partition are below the key.
proof fn lemma_partition_below(ids: Seq<i64>, lo: int, hi: int, key: i64)
    ensures
        forall|m: int|
            lo <= m < crate::btree::spec_partition(ids, lo, hi, key) ==> #[trigger] ids[m] < key,
    decreases hi - lo,
{
    if lo < hi && ids[lo] < key {
        lemma_partition_below(ids, lo + 1, hi, key);
    }
}

/// In a sorted list, candidates at or after the partition point are at
/// least the key.
proof fn lemma_partition_above(ids: Seq<i64>, lo: int, hi: int, key: i64)
    requires
        spec_sorted(ids),
        0 <= lo <= hi <= ids.len(),
    ensures
        forall|m: int|
            crate::btree::spec_partition(ids, lo, hi, key) <= m < hi ==> #[trigger] ids[m] >= key,
    decreases hi - lo,
{
    if lo < hi {
        if ids[lo] < key {
            lemma_partition_above(ids, lo + 1, hi, key);
        }
    }
}

/// For a value within the window's bounds, membership in the whole
/// candidate list and membership in the window agree, provided candidates
/// before the window are below the lower bound and candidates after it are
/// at least the upper bound.
proof fn lemma_member_window(ids: Seq<i64>, v: i64, lo: int, hi: int, lb: i64, ub: i64)
    requires
        0 <= lo <= hi <= ids.len(),
        lb <= v < ub,
        forall|m: int| 0 <= m < lo ==> #[trigger] ids[m] < lb,
        forall|m: int| hi <= m < ids.len() ==> #[trigger] ids[m] >= ub,
    ensures
        spec_range_has(ids, 0, ids.len() as int, v) <==> spec_range_has(ids, lo, hi, v),
{
    if spec_range_has(ids, 0, ids.len() as int, v) {
        let m = choose|m: int| 0 <= m < ids.len() && #[trigger] ids[m] == v;
        assert(lo <= m < hi);
        assert(spec_range_has(ids, lo, hi, v));
    }
}

/// Key-range-scan exactness, page-level: pairing the searched cells with
/// the scanned cells of the same page, the searched rows plus the searched
/// child subtrees equal the filtered scanned rows plus the filtered scanned
/// child subtrees, and the range start handed to the right-most pointer
/// aligns with the threaded boundary key.
proof fn lemma_exact_cells(
    db: Seq<PageView>,
    p: PageView,
    ids: Seq<i64>,
    i: int,
    lo: int,
    hi: int,
    cfuel: nat,
    lb: i64,
    ub: i64,
)
    requires
        spec_sorted(ids),
        0 <= lo <= hi <= ids.len(),
        lb <= ub,
        spec_list_ok(db, spec_child_list(p, i), cfuel),
        spec_cells_ordered(db, p, i, cfuel, lb, ub),
        forall|m: int| 0 <= m < lo ==> #[trigger] ids[m] < lb,
        forall|m: int| hi <= m < ids.len() ==> #[trigger] ids[m] >= ub,
    ensures
        ({
            let c = spec_search_cells(p, ids, i, lo, hi);
            let tasks_rows = spec_search_list(db, ids, c.2, cfuel).0;
            let own = spec_page_entries(p, i).0;
            let subs = spec_scan_list(
                db,
                crate::btree::spec_task_pnos(c.2),
                cfuel,
            ).0;
            &&& c.0 == spec_filter_rows(own, ids)
            &&& tasks_rows == spec_filter_rows(subs, ids)
            &&& lo <= c.3 <= hi
            &&& (forall|m: int|
                0 <= m < c.3 ==> #[trigger] ids[m] < spec_cells_final_lb(p, i, lb))
            &&& lb <= spec_cells_final_lb(p, i, lb) <= ub
        }),
    decreases cfuel, (if i <= p.btree_header.ncells as int {
        p.btree_header.ncells + 1 - i
    } else {
        1
    }),
{
    let nc = p.btree_header.ncells as int;
    if i < 0 || i >= nc {
        let c = spec_search_cells(p, ids, i, lo, hi);
        assert(c.2 =~= Seq::<crate::btree::SearchTask>::empty());
        assert(crate::btree::spec_task_pnos(c.2) =~= Seq::<int>::empty());
        assert(spec_search_list(db, ids, c.2, cfuel).0 =~= Seq::<RowView>::empty());
        assert(spec_scan_list(db, Seq::<int>::empty(), cfuel).0 =~= Seq::<RowView>::empty());
        assert(spec_page_entries(p, i).0 =~= Seq::<RowView>::empty());
    } else {
        match spec_read_cell(p, i) {
            Err(_) => {
                lemma_exact_cells(db, p, ids, i + 1, lo, hi, cfuel, lb, ub);
            },
            Ok(cc) => match (cc.left_child, cc.rowid) {
                (Some(lc), Some(k)) => {
                    let cut = crate::btree::spec_partition(ids, lo, hi, k);
                    lemma_partition_bounds(ids, lo, hi, k);
                    lemma_partition_below(ids, lo, hi, k);
                    lemma_partition_above(ids, lo, hi, k);
                    assert(spec_child_list(p, i)[0] == lc as int);
                    assert(spec_child_list(p, i).skip(1) =~= spec_child_list(p, i + 1));
                    // candidates before `cut` are below `k`; after `cut`,
                    // at least `k`
                    assert forall|m: int| 0 <= m < cut implies #[trigger] ids[m] < k by {
                        if m < lo {
                            assert(ids[m] < lb);
                        }
                    }
                    assert forall|m: int| cut <= m < ids.len() implies #[trigger] ids[m] >= k by {
                        if m >= hi {
                            assert(ids[m] >= ub);
                        }
                    }
                    // the left child: search on [lo, cut) is the filter of
                    // its scan
                    lemma_exact_tree(db, ids, lc as int, lo, cut, cfuel, lb, k);
                    // the later cells: search on [cut, hi)
                    lemma_exact_cells(db, p, ids, i + 1, cut, hi, cfuel, k, ub);
                    let c = spec_search_cells(p, ids, i, lo, hi);
                    let r = spec_search_cells(p, ids, i + 1, cut, hi);
                    assert(c.2 == seq![(lc as int, lo, cut)] + r.2);
                    assert(c.2[0] == (lc as int, lo, cut));
                    assert(c.2.skip(1) =~= r.2);
                    assert(crate::btree::spec_task_pnos(c.2) =~= seq![lc as int]
                        + crate::btree::spec_task_pnos(r.2));
                    assert(crate::btree::spec_task_pnos(c.2)[0] == lc as int);
                    assert(crate::btree::spec_task_pnos(c.2).skip(1)
                        =~= crate::btree::spec_task_pnos(r.2));
                    let child_scan = spec_subtree_scan(db, lc as int, cfuel).0;
                    let rest_scan = spec_scan_list(
                        db,
                        crate::btree::spec_task_pnos(r.2),
                        cfuel,
                    ).0;
                    lemma_filter_rows_concat(child_scan, rest_scan, ids);
                    assert(spec_scan_list(db, crate::btree::spec_task_pnos(c.2), cfuel).0
                        =~= child_scan + rest_scan);
                    assert(spec_search_list(db, ids, c.2, cfuel).0 =~= spec_search_tree(
                        db,
                        ids,
                        lc as int,
                        lo,
                        cut,
                        cfuel,
                    ).0 + spec_search_list(db, ids, r.2, cfuel).0);
                },
                (None, Some(rid)) => {
                    lemma_exact_cells(db, p, ids, i + 1, lo, hi, cfuel, lb, ub);
                    let c = spec_search_cells(p, ids, i, lo, hi);
                    let r = spec_search_cells(p, ids, i + 1, lo, hi);
                    lemma_member_window(ids, rid, lo, hi, lb, ub);
                    match cc.columns {
                        Some(cols) => {
                            let row = RowView { rowid: Some(rid), columns: cols };
                            let own_rest = spec_page_entries(p, i + 1).0;
                            lemma_filter_rows_concat(seq![row], own_rest, ids);
                            assert(spec_page_entries(p, i).0 =~= seq![row] + own_rest);
                            assert(seq![row].skip(1) =~= Seq::<RowView>::empty());
                            assert(spec_filter_rows(Seq::<RowView>::empty(), ids)
                                =~= Seq::<RowView>::empty());
                            assert(seq![row][0] == row);
                            if spec_row_in_candidates(row, ids, 0, ids.len() as int) {
                                assert(seq![row] + Seq::<RowView>::empty() =~= seq![row]);
                                assert(spec_filter_rows(seq![row], ids) =~= seq![row]);
                                assert(c.0 =~= seq![row] + r.0);
                            } else {
                                assert(spec_filter_rows(seq![row], ids)
                                    =~= Seq::<RowView>::empty());
                                assert(c.0 =~= r.0);
                                assert(Seq::<RowView>::empty() + r.0 =~= r.0);
                            }
                        },
                        None => {},
                    }
                },
                _ => {
                    assert(false);
                },
            },
        }
    }
}

/// Key-range-scan exactness: over a well-founded, strictly separated table
/// B-tree and a sorted candidate list, the key-range scan yields exactly
/// the rows of the unconstrained scan whose rowids are candidates, in the
/// same order.
pub proof fn lemma_exact_tree(
    db: Seq<PageView>,
    ids: Seq<i64>,
    pno: int,
    lo: int,
    hi: int,
    fuel: nat,
    lb: i64,
    ub: i64,
)
    requires
        spec_sorted(ids),
        0 <= lo <= hi <= ids.len(),
        lb <= ub,
        spec_tree_ok(db, pno, fuel),
        spec_tree_ordered(db, pno, fuel, lb, ub),
        forall|m: int| 0 <= m < lo ==> #[trigger] ids[m] < lb,
        forall|m: int| hi <= m < ids.len() ==> #[trigger] ids[m] >= ub,
    ensures
        spec_search_tree(db, ids, pno, lo, hi, fuel).0 == spec_filter_rows(
            spec_subtree_scan(db, pno, fuel).0,
            ids,
        ),
    decreases fuel, 0int,
{
    if !spec_page_no_valid(db, pno) {
        assert(spec_filter_rows(Seq::<RowView>::empty(), ids) =~= Seq::<RowView>::empty());
    } else if lo >= hi {
        // no candidates: every scanned row is in [lb, ub), and nothing in
        // the candidate list lies there
        lemma_ordered_rows_in_range(db, pno, fuel, lb, ub);
        lemma_filter_out_of_window(spec_subtree_scan(db, pno, fuel).0, ids, lo, hi, lb, ub);
    } else {
        let p = db[pno - 1];
        let cfuel = (fuel - 1) as nat;
        lemma_exact_cells(db, p, ids, 0, lo, hi, cfuel, lb, ub);
        let c = spec_search_cells(p, ids, 0, lo, hi);
        let flb = spec_cells_final_lb(p, 0, lb);
        lemma_cells_ordered_final(db, p, 0, cfuel, lb, ub);
        let rmp_tasks: Seq<crate::btree::SearchTask> = match p.btree_header.right_most_pointer {
            Some(rp) => seq![(rp as int, c.3, hi)],
            None => Seq::empty(),
        };
        crate::btree::lemma_search_tasks_align(p, ids, 0, lo, hi);
        crate::btree::lemma_scan_list_concat(
            db,
            crate::btree::spec_task_pnos(c.2),
            crate::btree::spec_rmp_seq(p),
            cfuel,
        );
        crate::btree::lemma_search_list_concat(db, ids, c.2, rmp_tasks, cfuel);
        assert(crate::btree::spec_task_pnos(c.2) + crate::btree::spec_rmp_seq(p)
            =~= spec_child_list(p, 0));
        let own = spec_page_entries(p, 0).0;
        let subs = spec_scan_list(db, crate::btree::spec_task_pnos(c.2), cfuel).0;
        match p.btree_header.right_most_pointer {
            Some(rp) => {
                assert(crate::btree::spec_rmp_seq(p) =~= seq![rp as int]);
                assert(crate::btree::spec_rmp_seq(p)[0] == rp as int);
                assert(crate::btree::spec_rmp_seq(p).skip(1) =~= Seq::<int>::empty());
                let rmp_scan = spec_subtree_scan(db, rp as int, cfuel).0;
                assert(spec_scan_list(db, crate::btree::spec_rmp_seq(p).skip(1), cfuel).0
                    =~= Seq::<RowView>::empty());
                assert(rmp_scan + Seq::<RowView>::empty() =~= rmp_scan);
                assert(spec_scan_list(db, crate::btree::spec_rmp_seq(p), cfuel).0 =~= rmp_scan);
                assert(rmp_tasks[0] == (rp as int, c.3, hi));
                assert(rmp_tasks.skip(1) =~= Seq::<crate::btree::SearchTask>::empty());
                let rmp_search = spec_search_tree(db, ids, rp as int, c.3, hi, cfuel).0;
                assert(spec_search_list(db, ids, rmp_tasks.skip(1), cfuel).0
                    =~= Seq::<RowView>::empty());
                assert(rmp_search + Seq::<RowView>::empty() =~= rmp_search);
                assert(spec_search_list(db, ids, rmp_tasks, cfuel).0 =~= rmp_search);
                lemma_exact_tree(db, ids, rp as int, c.3, hi, cfuel, flb, ub);
                lemma_filter_rows_concat(own, subs + rmp_scan, ids);
                lemma_filter_rows_concat(subs, rmp_scan, ids);
                assert(spec_subtree_scan(db, pno, fuel).0 =~= own + (subs + rmp_scan));
                assert(spec_search_tree(db, ids, pno, lo, hi, fuel).0 =~= c.0 + (
                spec_search_list(db, ids, c.2, cfuel).0 + rmp_search));
            },
            None => {
                assert(crate::btree::spec_rmp_seq(p) =~= Seq::<int>::empty());
                assert(spec_scan_list(db, Seq::<int>::empty(), cfuel).0
                    =~= Seq::<RowView>::empty());
                assert(spec_search_list(
                    db,
                    ids,
                    Seq::<crate::btree::SearchTask>::empty(),
                    cfuel,
                ).0 =~= Seq::<RowView>::empty());
                assert(subs + Seq::<RowView>::empty() =~= subs);
                assert(c.2 + rmp_tasks =~= c.2);
                assert(crate::btree::spec_task_pnos(c.2) + crate::btree::spec_rmp_seq(p)
                    =~= crate::btree::spec_task_pnos(c.2));
                lemma_filter_rows_concat(own, subs, ids);
                assert(spec_subtree_scan(db, pno, fuel).0 =~= own + subs);
                assert(spec_search_tree(db, ids, pno, lo, hi, fuel).0 =~= c.0 + spec_search_list(
                    db,
                    ids,
                    c.2,
                    cfuel,
                ).0);
            },
        }
    }
}

/// Rows whose rowids all lie in a window holding no candidates filter to
/// nothing.
proof fn lemma_filter_out_of_window(
    rows: Seq<RowView>,
    ids: Seq<i64>,
    lo: int,
    hi: int,
    lb: i64,
    ub: i64,
)
    requires
        0 <= lo <= hi <= ids.len(),
        lo >= hi,
        forall|m: int| 0 <= m < lo ==> #[trigger] ids[m] < lb,
        forall|m: int| hi <= m < ids.len() ==> #[trigger] ids[m] >= ub,
        forall|k: int|
            0 <= k < rows.len() ==> {
                let r = #[trigger] rows[k];
                r.rowid matches Some(v) && lb <= v < ub
            },
    ensures
        spec_filter_rows(rows, ids) == Seq::<RowView>::empty(),
    decreases rows.len(),
{
    if rows.len() > 0 {
        match rows[0].rowid {
            Some(v) => {
                lemma_member_window(ids, v, lo, hi, lb, ub);
            },
            None => {},
        }
        assert forall|k: int| 0 <= k < rows.skip(1).len() implies {
            let r = #[trigger] rows.skip(1)[k];
            r.rowid matches Some(v) && lb <= v < ub
        } by {
            assert(rows.skip(1)[k] == rows[k + 1]);
        }
        lemma_filter_out_of_window(rows.skip(1), ids, lo, hi, lb, ub);
        assert(spec_filter_rows(rows, ids) =~= Seq::<RowView>::empty());
    }
}

/// The right-most pointer's subtree is ordered above the final threaded
/// boundary key.
proof fn lemma_cells_ordered_final(
    db: Seq<PageView>,
    p: PageView,
    i: int,
    cfuel: nat,
    lb: i64,
    ub: i64,
)
    requires
        lb <= ub,
        spec_cells_ordered(db, p, i, cfuel, lb, ub),
    ensures
        lb <= spec_cells_final_lb(p, i, lb) <= ub,
        match p.btree_header.right_most_pointer {
            Some(rp) => spec_tree_ordered(db, rp as int, cfuel, spec_cells_final_lb(p, i, lb), ub),
            None => true,
        },
    decreases (if i <= p.btree_header.ncells as int {
        p.btree_header.ncells + 1 - i
    } else {
        1
    }),
{
    let nc = p.btree_header.ncells as int;
    if 0 <= i < nc {
        match spec_read_cell(p, i) {
            Err(_) => {
                lemma_cells_ordered_final(db, p, i + 1, cfuel, lb, ub);
            },
            Ok(cc) => match (cc.left_child, cc.rowid) {
                (Some(_), Some(k)) => {
                    lemma_cells_ordered_final(db, p, i + 1, cfuel, k, ub);
                },
                _ => {
                    lemma_cells_ordered_final(db, p, i + 1, cfuel, lb, ub);
                },
            },
        }
    }
}

/// The headline form of key-range-scan exactness: searched with every
/// candidate, a strictly separated table B-tree yields exactly the
/// unconstrained scan's rows whose rowids are candidates, in order.
pub proof fn lemma_key_range_scan_exact(
    db: Seq<PageView>,
    ids: Seq<i64>,
    pno: int,
    fuel: nat,
    lb: i64,
    ub: i64,
)
    requires
        spec_sorted(ids),
        lb <= ub,
        spec_tree_ok(db, pno, fuel),
        spec_tree_ordered(db, pno, fuel, lb, ub),
    ensures
        spec_search_tree(db, ids, pno, 0, ids.len() as int, fuel).0 == spec_filter_rows(
            spec_subtree_scan(db, pno, fuel).0,
            ids,
        ),
{
    lemma_exact_tree(db, ids, pno, 0, ids.len() as int, fuel, lb, ub);
}

} // verus!
