//! The B-tree traversal engine.
//!
//! Traversal is iterative, over an explicit work-list of page numbers seeded
//! with the root: no call-stack recursion, so memory use does not depend on
//! the host stack.  Visiting a page yields the entries its own cells carry
//! (rows of leaf-table cells, records of index cells) and queues its
//! children: each cell's left child in cell order, then the right-most
//! pointer.  Children are pushed in reverse so that a last-in-first-out list
//! visits them in cell order, which for table B-trees is ascending key order.
//!
//! A cell that fails to decode is skipped and counted, never silently
//! dropped; a child page number outside the file is skipped, as looking a
//! missing page up finds nothing.
//!
//! The specification measures trees with a fuel bound: `spec_tree_ok` says
//! the tree below a page is well-founded within the given depth, and
//! `spec_subtree_scan` gives the rows and skip count such a traversal
//! produces.  Fuel is a proof device only: any two sufficient fuels give the
//! same scan (`lemma_scan_fuel_irrelevant`).

use vstd::prelude::*;

use crate::column::{SerialType, ValueView};
use crate::page::{spec_page_wf, spec_read_cell, Page, PageView};
use crate::record::Record;

verus! {

/// One row or index entry produced by a traversal: the rowid for table rows,
/// and the decoded record.
#[derive(Debug, Clone, PartialEq, Eq)]
pub struct Row {
    pub rowid: Option<i64>,
    pub record: Record,
}

/// The mathematical shadow of `Row`.
pub struct RowView {
    pub rowid: Option<i64>,
    pub columns: Seq<(SerialType, ValueView)>,
}

impl View for Row {
    type V = RowView;

    open spec fn view(&self) -> RowView {
        RowView { rowid: self.rowid, columns: self.record@ }
    }
}

/// Whether a 1-based page number lies inside the file.
pub open spec fn spec_page_no_valid(db: Seq<PageView>, pno: int) -> bool {
    1 <= pno <= db.len()
}

/// The entries that cells `i..` of page `p` carry themselves, paired with
/// the count of cells that failed to decode.
pub open spec fn spec_page_entries(p: PageView, i: int) -> (Seq<RowView>, nat)
    decreases p.btree_header.ncells - i,
{
    let nc = p.btree_header.ncells as int;
    if i < 0 || i >= nc {
        (Seq::empty(), 0)
    } else {
        let rest = spec_page_entries(p, i + 1);
        match spec_read_cell(p, i) {
            Err(_) => (rest.0, (rest.1 + 1) as nat),
            Ok(cc) => match cc.columns {
                Some(cols) => (
                    seq![RowView { rowid: cc.rowid, columns: cols }] + rest.0,
                    rest.1,
                ),
                None => rest,
            },
        }
    }
}

/// The children of page `p` from cell `i` on, in visit order: each cell's
/// left child, then the right-most pointer.  A cell that fails to decode
/// contributes no child.
pub open spec fn spec_child_list(p: PageView, i: int) -> Seq<int>
    decreases p.btree_header.ncells - i,
{
    let nc = p.btree_header.ncells as int;
    if i < 0 || i >= nc {
        match p.btree_header.right_most_pointer {
            Some(rp) => seq![rp as int],
            None => Seq::empty(),
        }
    } else {
        let rest = spec_child_list(p, i + 1);
        match spec_read_cell(p, i) {
            Err(_) => rest,
            Ok(cc) => match cc.left_child {
                Some(lc) => seq![lc as int] + rest,
                None => rest,
            },
        }
    }
}

/// Whether the tree below page `pno` is well-founded within depth `fuel`.
pub open spec fn spec_tree_ok(db: Seq<PageView>, pno: int, fuel: nat) -> bool
    decreases fuel, 0int,
{
    if !spec_page_no_valid(db, pno) {
        true
    } else if fuel == 0 {
        false
    } else {
        spec_list_ok(db, spec_child_list(db[pno - 1], 0), (fuel - 1) as nat)
    }
}

/// `spec_tree_ok` for every page of a list.
pub open spec fn spec_list_ok(db: Seq<PageView>, pnos: Seq<int>, fuel: nat) -> bool
    decreases fuel, pnos.len() + 1,
{
    if pnos.len() == 0 {
        true
    } else {
        spec_tree_ok(db, pnos[0], fuel) && spec_list_ok(db, pnos.skip(1), fuel)
    }
}

/// The rows and skip count of scanning the tree below page `pno`: the page's
/// own entries first, then each child subtree in visit order.  An invalid
/// page number yields nothing.
pub open spec fn spec_subtree_scan(db: Seq<PageView>, pno: int, fuel: nat) -> (Seq<RowView>, nat)
    decreases fuel, 0int,
{
    if !spec_page_no_valid(db, pno) || fuel == 0 {
        (Seq::empty(), 0)
    } else {
        let p = db[pno - 1];
        let own = spec_page_entries(p, 0);
        let sub = spec_scan_list(db, spec_child_list(p, 0), (fuel - 1) as nat);
        (own.0 + sub.0, (own.1 + sub.1) as nat)
    }
}

/// The scan of a list of subtrees, first first.
pub open spec fn spec_scan_list(db: Seq<PageView>, pnos: Seq<int>, fuel: nat) -> (
    Seq<RowView>,
    nat,
)
    decreases fuel, pnos.len() + 1,
{
    if pnos.len() == 0 {
        (Seq::empty(), 0)
    } else {
        let first = spec_subtree_scan(db, pnos[0], fuel);
        let rest = spec_scan_list(db, pnos.skip(1), fuel);
        (first.0 + rest.0, (first.1 + rest.1) as nat)
    }
}

/// The scan still owed by a work-list, top of the stack (the last element)
/// first.
pub open spec fn spec_scan_stack(db: Seq<PageView>, pnos: Seq<int>, fuel: nat) -> (
    Seq<RowView>,
    nat,
) {
    spec_scan_list(db, pnos.reverse(), fuel)
}

/// `spec_tree_ok` for every page of a work-list.
pub open spec fn spec_stack_ok(db: Seq<PageView>, pnos: Seq<int>, fuel: nat) -> bool {
    spec_list_ok(db, pnos.reverse(), fuel)
}

/// How many pages a scan of the tree below `pno` visits, as a termination
/// measure for the work-list loop.
pub open spec fn spec_tree_size(db: Seq<PageView>, pno: int, fuel: nat) -> nat
    decreases fuel, 0int,
{
    if !spec_page_no_valid(db, pno) || fuel == 0 {
        0
    } else {
        1 + spec_list_size(db, spec_child_list(db[pno - 1], 0), (fuel - 1) as nat)
    }
}

/// The summed size of a list of subtrees.
pub open spec fn spec_list_size(db: Seq<PageView>, pnos: Seq<int>, fuel: nat) -> nat
    decreases fuel, pnos.len() + 1,
{
    if pnos.len() == 0 {
        0
    } else {
        spec_tree_size(db, pnos[0], fuel) + spec_list_size(db, pnos.skip(1), fuel)
    }
}

/// The summed size of the subtrees a work-list still owes.
pub open spec fn spec_stack_size(db: Seq<PageView>, pnos: Seq<int>, fuel: nat) -> nat {
    spec_list_size(db, pnos.reverse(), fuel)
}

/// Scanning a concatenation scans both parts in order.
pub proof fn lemma_scan_list_concat(db: Seq<PageView>, a: Seq<int>, b: Seq<int>, fuel: nat)
    ensures
        spec_scan_list(db, a + b, fuel).0 == spec_scan_list(db, a, fuel).0 + spec_scan_list(
            db,
            b,
            fuel,
        ).0,
        spec_scan_list(db, a + b, fuel).1 == spec_scan_list(db, a, fuel).1 + spec_scan_list(
            db,
            b,
            fuel,
        ).1,
        spec_list_ok(db, a + b, fuel) <==> (spec_list_ok(db, a, fuel) && spec_list_ok(
            db,
            b,
            fuel,
        )),
        spec_list_size(db, a + b, fuel) == spec_list_size(db, a, fuel) + spec_list_size(
            db,
            b,
            fuel,
        ),
    decreases a.len(),
{
    if a.len() == 0 {
        assert(a + b =~= b);
        assert(spec_scan_list(db, a, fuel).0 + spec_scan_list(db, b, fuel).0 =~= spec_scan_list(
            db,
            b,
            fuel,
        ).0);
    } else {
        assert((a + b)[0] == a[0]);
        assert((a + b).skip(1) =~= a.skip(1) + b);
        lemma_scan_list_concat(db, a.skip(1), b, fuel);
        assert(spec_scan_list(db, a + b, fuel).0 =~= spec_scan_list(db, a, fuel).0
            + spec_scan_list(db, b, fuel).0);
    }
}

/// More fuel never changes a scan that already has enough: well-foundedness
/// and the scan's value carry up to any larger fuel.
pub proof fn lemma_tree_fuel_mono(db: Seq<PageView>, pno: int, f1: nat, f2: nat)
    requires
        spec_tree_ok(db, pno, f1),
        f1 <= f2,
    ensures
        spec_tree_ok(db, pno, f2),
        spec_subtree_scan(db, pno, f2) == spec_subtree_scan(db, pno, f1),
        spec_tree_size(db, pno, f2) == spec_tree_size(db, pno, f1),
    decreases f2, 0int,
{
    if spec_page_no_valid(db, pno) {
        lemma_list_fuel_mono(
            db,
            spec_child_list(db[pno - 1], 0),
            (f1 - 1) as nat,
            (f2 - 1) as nat,
        );
    }
}

/// `lemma_tree_fuel_mono` for every page of a list.
pub proof fn lemma_list_fuel_mono(db: Seq<PageView>, pnos: Seq<int>, f1: nat, f2: nat)
    requires
        spec_list_ok(db, pnos, f1),
        f1 <= f2,
    ensures
        spec_list_ok(db, pnos, f2),
        spec_scan_list(db, pnos, f2) == spec_scan_list(db, pnos, f1),
        spec_list_size(db, pnos, f2) == spec_list_size(db, pnos, f1),
    decreases f2, pnos.len() + 1,
{
    if pnos.len() > 0 {
        lemma_tree_fuel_mono(db, pnos[0], f1, f2);
        lemma_list_fuel_mono(db, pnos.skip(1), f1, f2);
    }
}

/// Any two sufficient fuels give the same scan.
pub proof fn lemma_scan_fuel_irrelevant(db: Seq<PageView>, pno: int, f1: nat, f2: nat)
    requires
        spec_tree_ok(db, pno, f1),
        spec_tree_ok(db, pno, f2),
    ensures
        spec_subtree_scan(db, pno, f1) == spec_subtree_scan(db, pno, f2),
{
    if f1 <= f2 {
        lemma_tree_fuel_mono(db, pno, f1, f2);
    } else {
        lemma_tree_fuel_mono(db, pno, f2, f1);
    }
}

/// Popping the top of a work-list takes its subtree first.
proof fn lemma_scan_stack_pop(db: Seq<PageView>, pnos: Seq<int>, fuel: nat)
    requires
        pnos.len() > 0,
    ensures
        spec_scan_stack(db, pnos, fuel).0 == spec_subtree_scan(db, pnos.last(), fuel).0
            + spec_scan_stack(db, pnos.drop_last(), fuel).0,
        spec_scan_stack(db, pnos, fuel).1 == spec_subtree_scan(db, pnos.last(), fuel).1
            + spec_scan_stack(db, pnos.drop_last(), fuel).1,
        spec_stack_ok(db, pnos, fuel) <==> (spec_tree_ok(db, pnos.last(), fuel) && spec_stack_ok(
            db,
            pnos.drop_last(),
            fuel,
        )),
        spec_stack_size(db, pnos, fuel) == spec_tree_size(db, pnos.last(), fuel)
            + spec_stack_size(db, pnos.drop_last(), fuel),
{
    let r = pnos.reverse();
    assert(r[0] == pnos.last());
    assert(r.skip(1) =~= pnos.drop_last().reverse());
}

/// Pushing a child list in reverse onto a work-list owes exactly that list's
/// scan, in visit order, before the rest.
proof fn lemma_scan_stack_push(db: Seq<PageView>, stack: Seq<int>, children: Seq<int>, fuel: nat)
    ensures
        spec_scan_stack(db, stack + children.reverse(), fuel).0 == spec_scan_list(
            db,
            children,
            fuel,
        ).0 + spec_scan_stack(db, stack, fuel).0,
        spec_scan_stack(db, stack + children.reverse(), fuel).1 == spec_scan_list(
            db,
            children,
            fuel,
        ).1 + spec_scan_stack(db, stack, fuel).1,
        spec_stack_ok(db, stack + children.reverse(), fuel) <==> (spec_list_ok(db, children, fuel)
            && spec_stack_ok(db, stack, fuel)),
        spec_stack_size(db, stack + children.reverse(), fuel) == spec_list_size(
            db,
            children,
            fuel,
        ) + spec_stack_size(db, stack, fuel),
{
    assert((stack + children.reverse()).reverse() =~= children + stack.reverse());
    lemma_scan_list_concat(db, children, stack.reverse(), fuel);
}

/// That some fuel witnesses the tree as well-founded, with a scan small
/// enough for its counters: what a caller of the unconstrained scan must
/// know.
pub open spec fn spec_scan_feasible(db: Seq<PageView>, root: int) -> bool {
    exists|f: nat|
        #[trigger] spec_tree_ok(db, root, f) && spec_subtree_scan(db, root, f).0.len()
            + spec_subtree_scan(db, root, f).1 <= usize::MAX
}

/// The key-range analogue of `spec_scan_feasible`.
pub open spec fn spec_search_feasible(db: Seq<PageView>, ids: Seq<i64>, root: int) -> bool {
    exists|f: nat|
        #[trigger] spec_tree_ok(db, root, f) && spec_search_tree(
            db,
            ids,
            root,
            0,
            ids.len() as int,
            f,
        ).0.len() + spec_search_tree(db, ids, root, 0, ids.len() as int, f).1 <= usize::MAX
}

/// Every page of the database is well-formed.
pub open spec fn spec_db_wf(db: Seq<PageView>) -> bool {
    forall|i: int| 0 <= i < db.len() ==> spec_page_wf(#[trigger] db[i])
}

/// Decodes every cell of one page: the entries the page itself carries, the
/// count of cells that failed to decode, and the children in visit order.
#[verifier::loop_isolation(false)]
fn scan_page_cells(page: &Page) -> (r: (Vec<Row>, usize, Vec<usize>))
    requires
        spec_page_wf(page@),
    ensures
        r.0@.map_values(|x: Row| x@) == spec_page_entries(page@, 0).0,
        r.1 as nat == spec_page_entries(page@, 0).1,
        r.2@.map_values(|p: usize| p as int) == spec_child_list(page@, 0),
{
    let nc: u16 = page.btree_header.ncells;
    let mut rows: Vec<Row> = Vec::new();
    let mut skip: usize = 0;
    let mut children: Vec<usize> = Vec::new();
    let mut i: u16 = 0;
    while i < nc
        invariant
            i <= nc,
            skip <= i,
            spec_page_entries(page@, 0).0 == rows@.map_values(|x: Row| x@) + spec_page_entries(
                page@,
                i as int,
            ).0,
            spec_page_entries(page@, 0).1 == skip + spec_page_entries(page@, i as int).1,
            spec_child_list(page@, 0) == children@.map_values(|p: usize| p as int)
                + spec_child_list(page@, i as int),
        decreases nc - i,
    {
        let ghost rest_rows = spec_page_entries(page@, i + 1);
        let ghost rest_children = spec_child_list(page@, i + 1);
        match page.read_cell(i) {
            Ok(cv) => {
                proof {
                    let cmap = children@.map_values(|p: usize| p as int);
                    match cv@.left_child {
                        Some(lc) => {
                            assert((children@.push(lc as usize)).map_values(|p: usize| p as int)
                                =~= cmap.push(lc as int));
                            assert(cmap + (seq![lc as int] + rest_children) =~= cmap.push(
                                lc as int,
                            ) + rest_children);
                        },
                        None => {},
                    }
                    let rmap = rows@.map_values(|x: Row| x@);
                    match cv@.columns {
                        Some(cols) => {
                            let rv = RowView { rowid: cv.rowid, columns: cols };
                            assert(rmap + (seq![rv] + rest_rows.0) =~= rmap.push(rv)
                                + rest_rows.0);
                        },
                        None => {},
                    }
                }
                match cv.left_child {
                    Some(lc) => {
                        children.push(lc as usize);
                        proof {
                            assert(children@.drop_last().map_values(|p: usize| p as int).push(
                                lc as int,
                            ) =~= children@.map_values(|p: usize| p as int));
                        }
                    },
                    None => {},
                }
                match cv.record {
                    Some(rec) => {
                        let row = Row { rowid: cv.rowid, record: rec };
                        proof {
                            let rmap = rows@.map_values(|x: Row| x@);
                            assert((rows@.push(row)).map_values(|x: Row| x@) =~= rmap.push(row@));
                        }
                        rows.push(row);
                    },
                    None => {},
                }
            },
            Err(_) => {
                skip = skip + 1;
            },
        }
        i = i + 1;
    }
    match page.btree_header.right_most_pointer {
        Some(rp) => {
            proof {
                let cmap = children@.map_values(|p: usize| p as int);
                assert((children@.push(rp as usize)).map_values(|p: usize| p as int) =~= cmap.push(
                    rp as int,
                ));
                assert(cmap + seq![rp as int] =~= cmap.push(rp as int));
            }
            children.push(rp as usize);
        },
        None => {},
    }
    proof {
        assert(rows@.map_values(|x: Row| x@) + Seq::<RowView>::empty() =~= rows@.map_values(
            |x: Row| x@,
        ));
        assert(children@.map_values(|p: usize| p as int) + Seq::<int>::empty() =~= children@
            .map_values(|p: usize| p as int));
    }
    (rows, skip, children)
}

impl crate::database::Database {
    /// Unconstrained scan: every row or index entry of the tree rooted at
    /// 1-based page `root`, in visit order, together with the count of cells
    /// that failed to decode and were skipped.
    ///
    /// For table B-trees the visit order is ascending rowid order.  Repeated
    /// calls on the same database return the same rows: the result is a
    /// function of the database value and the root alone.
    #[verifier::loop_isolation(false)]
    pub fn scan_tree(&self, root: usize) -> (r: (Vec<Row>, usize))
        requires
            spec_db_wf(self@),
            spec_scan_feasible(self@, root as int),
        ensures
            forall|f: nat|
                #[trigger] spec_tree_ok(self@, root as int, f) ==> r.0@.map_values(|x: Row| x@)
                    == spec_subtree_scan(self@, root as int, f).0 && r.1 as nat
                    == spec_subtree_scan(self@, root as int, f).1,
    {
        let ghost dbv = self@;
        let ghost f0: nat = choose|f: nat|
            #[trigger] spec_tree_ok(self@, root as int, f) && spec_subtree_scan(
                self@,
                root as int,
                f,
            ).0.len() + spec_subtree_scan(self@, root as int, f).1 <= usize::MAX;
        let ghost target = spec_subtree_scan(dbv, root as int, f0);
        let mut rows: Vec<Row> = Vec::new();
        let mut skipped: usize = 0;
        let mut stack: Vec<usize> = Vec::new();
        stack.push(root);
        proof {
            let smap = stack@.map_values(|p: usize| p as int);
            assert(smap =~= seq![root as int]);
            let rsm = smap.reverse();
            assert(rsm =~= seq![root as int]);
            assert(rsm.skip(1) =~= Seq::<int>::empty());
            assert(rsm[0] == root as int);
            assert(spec_tree_ok(self@, root as int, f0));
            assert(spec_tree_ok(dbv, root as int, f0));
            assert(rsm.len() == 1);
            assert(spec_list_ok(dbv, rsm.skip(1), f0));
            assert(spec_list_ok(dbv, rsm, f0));
            assert(spec_scan_list(dbv, rsm.skip(1), f0).0 =~= Seq::<RowView>::empty());
            assert(spec_scan_list(dbv, rsm.skip(1), f0).1 == 0);
            assert(spec_scan_list(dbv, rsm, f0).0 =~= target.0);
            assert(spec_scan_list(dbv, rsm, f0).1 == target.1);
            assert(rows@.map_values(|x: Row| x@) =~= Seq::<RowView>::empty());
            assert(Seq::<RowView>::empty() + target.0 =~= target.0);
        }
        while stack.len() > 0
            invariant
                dbv == self@,
                target == spec_subtree_scan(dbv, root as int, f0),
                spec_stack_ok(dbv, stack@.map_values(|p: usize| p as int), f0),
                target.0 == rows@.map_values(|x: Row| x@) + spec_scan_stack(
                    dbv,
                    stack@.map_values(|p: usize| p as int),
                    f0,
                ).0,
                target.1 == skipped + spec_scan_stack(
                    dbv,
                    stack@.map_values(|p: usize| p as int),
                    f0,
                ).1,
            decreases spec_stack_size(dbv, stack@.map_values(|p: usize| p as int), f0),
                stack@.len(),
        {
            let ghost old_smap = stack@.map_values(|p: usize| p as int);
            let pno = match stack.pop() {
                Some(p) => p,
                None => { return (rows, skipped) },
            };
            let ghost rest_smap = stack@.map_values(|p: usize| p as int);
            proof {
                assert(rest_smap =~= old_smap.drop_last());
                assert(old_smap.last() == pno as int);
                lemma_scan_stack_pop(dbv, old_smap, f0);
            }
            if pno < 1 || pno > self.pages.len() {
                continue;
            }
            let page = &self.pages[pno - 1];
            proof {
                assert(dbv[pno - 1] == page@);
            }
            let (mut prows, pskip, children) = scan_page_cells(page);
            let ghost childmap = children@.map_values(|p: usize| p as int);
            proof {
                lemma_list_fuel_mono(dbv, childmap, (f0 - 1) as nat, f0);
                lemma_scan_stack_push(dbv, rest_smap, childmap, f0);
                let rmap = rows@.map_values(|x: Row| x@);
                let pmap = prows@.map_values(|x: Row| x@);
                assert((rows@ + prows@).map_values(|x: Row| x@) =~= rmap + pmap);
            }
            rows.append(&mut prows);
            skipped = skipped + pskip;
            let mut j: usize = children.len();
            proof {
                assert(childmap.skip(j as int).reverse() =~= Seq::<int>::empty());
                assert(stack@.map_values(|p: usize| p as int) =~= rest_smap + childmap.skip(
                    j as int,
                ).reverse());
            }
            while j > 0
                invariant
                    j <= children@.len(),
                    childmap == children@.map_values(|p: usize| p as int),
                    stack@.map_values(|p: usize| p as int) == rest_smap + childmap.skip(
                        j as int,
                    ).reverse(),
                decreases j,
            {
                j = j - 1;
                proof {
                    let pre = stack@.map_values(|p: usize| p as int);
                    assert((stack@.push(children@[j as int])).map_values(|p: usize| p as int)
                        =~= pre.push(children@[j as int] as int));
                    assert(childmap.skip(j as int).reverse() =~= childmap.skip(
                        j + 1,
                    ).reverse().push(childmap[j as int]));
                }
                stack.push(children[j]);
            }
            proof {
                assert(stack@.map_values(|p: usize| p as int) =~= rest_smap + childmap.reverse());
            }
        }
        proof {
            let smap = stack@.map_values(|p: usize| p as int);
            assert(smap =~= Seq::<int>::empty());
            assert(smap.reverse() =~= Seq::<int>::empty());
            assert(rows@.map_values(|x: Row| x@) =~= target.0);
            assert forall|f: nat| spec_tree_ok(dbv, root as int, f) implies rows@.map_values(
                |x: Row| x@,
            ) == spec_subtree_scan(dbv, root as int, f).0 && skipped as nat == spec_subtree_scan(
                dbv,
                root as int,
                f,
            ).1 by {
                lemma_scan_fuel_irrelevant(dbv, root as int, f, f0);
            }
        }
        (rows, skipped)
    }
}

// ---------------------------------------------------------------------------
// Key-range scan: a table B-tree searched with a sorted candidate rowid
// list.  At each interior table cell the still-unsatisfied candidates are
// partitioned: those below the cell's boundary key go to the left child, the
// rest stay for the remaining siblings and the right-most pointer.  At a
// leaf, a row is yielded only if its rowid is among the remaining
// candidates.  A subtree whose candidate range is empty is never read.
// Candidate ranges are half-open index ranges `[lo, hi)` into one shared
// sorted list.
// ---------------------------------------------------------------------------

/// The first index in `[lo, hi)` whose candidate is not below `key`, or
/// `hi` when they all are.
pub open spec fn spec_partition(ids: Seq<i64>, lo: int, hi: int, key: i64) -> int
    decreases hi - lo,
{
    if lo >= hi {
        hi
    } else if ids[lo] < key {
        spec_partition(ids, lo + 1, hi, key)
    } else {
        lo
    }
}

/// Whether some candidate in `[lo, hi)` equals `x`.
pub open spec fn spec_range_has(ids: Seq<i64>, lo: int, hi: int, x: i64) -> bool {
    exists|i: int| lo <= i < hi && ids[i] == x
}

/// One pending search task: a 1-based page number and the candidate index
/// range routed to it.
pub type SearchTask = (int, int, int);

/// The page-level step of the key-range scan, over cells `i..`: the rows of
/// leaf cells whose rowid is a candidate, the count of cells that failed to
/// decode, the child tasks in visit order, and the candidate range start
/// left for the right-most pointer.  Interior table cells narrow the range;
/// cells without a boundary key route no candidates.
pub open spec fn spec_search_cells(p: PageView, ids: Seq<i64>, i: int, lo: int, hi: int) -> (
    Seq<RowView>,
    nat,
    Seq<SearchTask>,
    int,
)
    decreases p.btree_header.ncells - i,
{
    let nc = p.btree_header.ncells as int;
    if i < 0 || i >= nc {
        (Seq::empty(), 0, Seq::empty(), lo)
    } else {
        match spec_read_cell(p, i) {
            Err(_) => {
                let r = spec_search_cells(p, ids, i + 1, lo, hi);
                (r.0, (r.1 + 1) as nat, r.2, r.3)
            },
            Ok(cc) => match (cc.left_child, cc.rowid) {
                (Some(lc), Some(key)) => {
                    let cut = spec_partition(ids, lo, hi, key);
                    let r = spec_search_cells(p, ids, i + 1, cut, hi);
                    (r.0, r.1, seq![(lc as int, lo, cut)] + r.2, r.3)
                },
                (Some(lc), None) => {
                    let r = spec_search_cells(p, ids, i + 1, lo, hi);
                    (r.0, r.1, seq![(lc as int, lo, lo)] + r.2, r.3)
                },
                (None, Some(rowid)) => {
                    let r = spec_search_cells(p, ids, i + 1, lo, hi);
                    let own: Seq<RowView> = if spec_range_has(ids, lo, hi, rowid) {
                        match cc.columns {
                            Some(cols) => seq![RowView { rowid: Some(rowid), columns: cols }],
                            None => Seq::empty(),
                        }
                    } else {
                        Seq::empty()
                    };
                    (own + r.0, r.1, r.2, r.3)
                },
                (None, None) => spec_search_cells(p, ids, i + 1, lo, hi),
            },
        }
    }
}

/// The right-most pointer as a task list end, shared by the spec and the
/// proofs: the page numbers of a page's search tasks are exactly its child
/// list.
pub open spec fn spec_rmp_seq(p: PageView) -> Seq<int> {
    match p.btree_header.right_most_pointer {
        Some(rp) => seq![rp as int],
        None => Seq::empty(),
    }
}

/// The rows and skip count of a key-range scan of the tree below `pno` with
/// candidates `ids[lo..hi]`.  An invalid page, an empty candidate range, or
/// exhausted fuel yields nothing.
pub open spec fn spec_search_tree(
    db: Seq<PageView>,
    ids: Seq<i64>,
    pno: int,
    lo: int,
    hi: int,
    fuel: nat,
) -> (Seq<RowView>, nat)
    decreases fuel, 0int,
{
    if !spec_page_no_valid(db, pno) || lo >= hi || fuel == 0 {
        (Seq::empty(), 0)
    } else {
        let p = db[pno - 1];
        let c = spec_search_cells(p, ids, 0, lo, hi);
        let rmp_tasks: Seq<SearchTask> = match p.btree_header.right_most_pointer {
            Some(rp) => seq![(rp as int, c.3, hi)],
            None => Seq::empty(),
        };
        let sub = spec_search_list(db, ids, c.2 + rmp_tasks, (fuel - 1) as nat);
        (c.0 + sub.0, (c.1 + sub.1) as nat)
    }
}

/// The key-range scan of a task list, first first.
pub open spec fn spec_search_list(
    db: Seq<PageView>,
    ids: Seq<i64>,
    tasks: Seq<SearchTask>,
    fuel: nat,
) -> (Seq<RowView>, nat)
    decreases fuel, tasks.len() + 1,
{
    if tasks.len() == 0 {
        (Seq::empty(), 0)
    } else {
        let first = spec_search_tree(db, ids, tasks[0].0, tasks[0].1, tasks[0].2, fuel);
        let rest = spec_search_list(db, ids, tasks.skip(1), fuel);
        (first.0 + rest.0, (first.1 + rest.1) as nat)
    }
}

/// The key-range scan still owed by a work-list, top (the last task) first.
pub open spec fn spec_search_stack(
    db: Seq<PageView>,
    ids: Seq<i64>,
    tasks: Seq<SearchTask>,
    fuel: nat,
) -> (Seq<RowView>, nat) {
    spec_search_list(db, ids, tasks.reverse(), fuel)
}

/// The page numbers of a task list.
pub open spec fn spec_task_pnos(tasks: Seq<SearchTask>) -> Seq<int> {
    tasks.map_values(|t: SearchTask| t.0)
}

/// A page's search tasks, right-most pointer included, point at exactly the
/// page's child list.
pub proof fn lemma_search_tasks_align(p: PageView, ids: Seq<i64>, i: int, lo: int, hi: int)
    ensures
        spec_task_pnos(spec_search_cells(p, ids, i, lo, hi).2) + spec_rmp_seq(p)
            =~= spec_child_list(p, i),
    decreases p.btree_header.ncells - i,
{
    let nc = p.btree_header.ncells as int;
    if i < 0 || i >= nc {
        assert(spec_search_cells(p, ids, i, lo, hi).2 =~= Seq::<SearchTask>::empty());
        assert(spec_task_pnos(Seq::<SearchTask>::empty()) =~= Seq::<int>::empty());
    } else {
        match spec_read_cell(p, i) {
            Err(_) => {
                lemma_search_tasks_align(p, ids, i + 1, lo, hi);
            },
            Ok(cc) => match (cc.left_child, cc.rowid) {
                (Some(lc), Some(key)) => {
                    let cut = spec_partition(ids, lo, hi, key);
                    lemma_search_tasks_align(p, ids, i + 1, cut, hi);
                    let r2 = spec_search_cells(p, ids, i + 1, cut, hi).2;
                    assert(spec_task_pnos(seq![(lc as int, lo, cut)] + r2) =~= seq![lc as int]
                        + spec_task_pnos(r2));
                },
                (Some(lc), None) => {
                    lemma_search_tasks_align(p, ids, i + 1, lo, hi);
                    let r2 = spec_search_cells(p, ids, i + 1, lo, hi).2;
                    assert(spec_task_pnos(seq![(lc as int, lo, lo)] + r2) =~= seq![lc as int]
                        + spec_task_pnos(r2));
                },
                (None, Some(_)) => {
                    lemma_search_tasks_align(p, ids, i + 1, lo, hi);
                },
                (None, None) => {
                    lemma_search_tasks_align(p, ids, i + 1, lo, hi);
                },
            },
        }
    }
}

/// Searching a concatenation of task lists searches both parts in order.
pub proof fn lemma_search_list_concat(
    db: Seq<PageView>,
    ids: Seq<i64>,
    a: Seq<SearchTask>,
    b: Seq<SearchTask>,
    fuel: nat,
)
    ensures
        spec_search_list(db, ids, a + b, fuel).0 == spec_search_list(db, ids, a, fuel).0
            + spec_search_list(db, ids, b, fuel).0,
        spec_search_list(db, ids, a + b, fuel).1 == spec_search_list(db, ids, a, fuel).1
            + spec_search_list(db, ids, b, fuel).1,
    decreases a.len(),
{
    if a.len() == 0 {
        assert(a + b =~= b);
        assert(spec_search_list(db, ids, a, fuel).0 + spec_search_list(db, ids, b, fuel).0
            =~= spec_search_list(db, ids, b, fuel).0);
    } else {
        assert((a + b)[0] == a[0]);
        assert((a + b).skip(1) =~= a.skip(1) + b);
        lemma_search_list_concat(db, ids, a.skip(1), b, fuel);
        assert(spec_search_list(db, ids, a + b, fuel).0 =~= spec_search_list(db, ids, a, fuel).0
            + spec_search_list(db, ids, b, fuel).0);
    }
}

/// More fuel never changes a key-range scan over a tree that is well-founded
/// at the smaller fuel.
pub proof fn lemma_search_tree_fuel_mono(
    db: Seq<PageView>,
    ids: Seq<i64>,
    pno: int,
    lo: int,
    hi: int,
    f1: nat,
    f2: nat,
)
    requires
        spec_tree_ok(db, pno, f1),
        f1 <= f2,
    ensures
        spec_search_tree(db, ids, pno, lo, hi, f2) == spec_search_tree(db, ids, pno, lo, hi, f1),
    decreases f2, 0int,
{
    if spec_page_no_valid(db, pno) && lo < hi {
        let p = db[pno - 1];
        let c = spec_search_cells(p, ids, 0, lo, hi);
        let rmp_tasks: Seq<SearchTask> = match p.btree_header.right_most_pointer {
            Some(rp) => seq![(rp as int, c.3, hi)],
            None => Seq::empty(),
        };
        lemma_search_tasks_align(p, ids, 0, lo, hi);
        assert(spec_task_pnos(c.2 + rmp_tasks) =~= spec_task_pnos(c.2) + spec_rmp_seq(p));
        lemma_search_list_fuel_mono(db, ids, c.2 + rmp_tasks, (f1 - 1) as nat, (f2 - 1) as nat);
    }
}

/// `lemma_search_tree_fuel_mono` for every task of a list.
pub proof fn lemma_search_list_fuel_mono(
    db: Seq<PageView>,
    ids: Seq<i64>,
    tasks: Seq<SearchTask>,
    f1: nat,
    f2: nat,
)
    requires
        spec_list_ok(db, spec_task_pnos(tasks), f1),
        f1 <= f2,
    ensures
        spec_search_list(db, ids, tasks, f2) == spec_search_list(db, ids, tasks, f1),
    decreases f2, tasks.len() + 1,
{
    if tasks.len() > 0 {
        assert(spec_task_pnos(tasks)[0] == tasks[0].0);
        assert(spec_task_pnos(tasks).skip(1) =~= spec_task_pnos(tasks.skip(1)));
        lemma_search_tree_fuel_mono(db, ids, tasks[0].0, tasks[0].1, tasks[0].2, f1, f2);
        lemma_search_list_fuel_mono(db, ids, tasks.skip(1), f1, f2);
    }
}

/// Any two sufficient fuels give the same key-range scan.
pub proof fn lemma_search_fuel_irrelevant(
    db: Seq<PageView>,
    ids: Seq<i64>,
    pno: int,
    lo: int,
    hi: int,
    f1: nat,
    f2: nat,
)
    requires
        spec_tree_ok(db, pno, f1),
        spec_tree_ok(db, pno, f2),
    ensures
        spec_search_tree(db, ids, pno, lo, hi, f1) == spec_search_tree(db, ids, pno, lo, hi, f2),
{
    if f1 <= f2 {
        lemma_search_tree_fuel_mono(db, ids, pno, lo, hi, f1, f2);
    } else {
        lemma_search_tree_fuel_mono(db, ids, pno, lo, hi, f2, f1);
    }
}

/// Popping the top of a search work-list takes its subtree first.
proof fn lemma_search_stack_pop(db: Seq<PageView>, ids: Seq<i64>, tasks: Seq<SearchTask>, fuel: nat)
    requires
        tasks.len() > 0,
    ensures
        spec_search_stack(db, ids, tasks, fuel).0 == spec_search_tree(
            db,
            ids,
            tasks.last().0,
            tasks.last().1,
            tasks.last().2,
            fuel,
        ).0 + spec_search_stack(db, ids, tasks.drop_last(), fuel).0,
        spec_search_stack(db, ids, tasks, fuel).1 == spec_search_tree(
            db,
            ids,
            tasks.last().0,
            tasks.last().1,
            tasks.last().2,
            fuel,
        ).1 + spec_search_stack(db, ids, tasks.drop_last(), fuel).1,
{
    let r = tasks.reverse();
    assert(r[0] == tasks.last());
    assert(r.skip(1) =~= tasks.drop_last().reverse());
}

/// Pushing child tasks in reverse onto a search work-list owes exactly their
/// scan, in visit order, before the rest.
proof fn lemma_search_stack_push(
    db: Seq<PageView>,
    ids: Seq<i64>,
    stack: Seq<SearchTask>,
    tasks: Seq<SearchTask>,
    fuel: nat,
)
    ensures
        spec_search_stack(db, ids, stack + tasks.reverse(), fuel).0 == spec_search_list(
            db,
            ids,
            tasks,
            fuel,
        ).0 + spec_search_stack(db, ids, stack, fuel).0,
        spec_search_stack(db, ids, stack + tasks.reverse(), fuel).1 == spec_search_list(
            db,
            ids,
            tasks,
            fuel,
        ).1 + spec_search_stack(db, ids, stack, fuel).1,
{
    assert((stack + tasks.reverse()).reverse() =~= tasks + stack.reverse());
    lemma_search_list_concat(db, ids, tasks, stack.reverse(), fuel);
}

/// Finds the first candidate in `[lo, hi)` that is not below `key`.
fn partition_point(ids: &Vec<i64>, lo: usize, hi: usize, key: i64) -> (r: usize)
    requires
        lo <= hi <= ids@.len(),
    ensures
        lo <= r <= hi,
        r as int == spec_partition(ids@, lo as int, hi as int, key),
{
    let mut j: usize = lo;
    while j < hi
        invariant
            lo <= j <= hi <= ids@.len(),
            spec_partition(ids@, lo as int, hi as int, key) == spec_partition(
                ids@,
                j as int,
                hi as int,
                key,
            ),
        decreases hi - j,
    {
        if ids[j] >= key {
            return j;
        }
        j = j + 1;
    }
    j
}

/// Whether some candidate in `[lo, hi)` equals `x`.
fn range_has(ids: &Vec<i64>, lo: usize, hi: usize, x: i64) -> (r: bool)
    requires
        lo <= hi <= ids@.len(),
    ensures
        r == spec_range_has(ids@, lo as int, hi as int, x),
{
    let mut j: usize = lo;
    while j < hi
        invariant
            lo <= j <= hi <= ids@.len(),
            forall|k: int| lo <= k < j ==> ids@[k] != x,
        decreases hi - j,
    {
        if ids[j] == x {
            return true;
        }
        j = j + 1;
    }
    false
}

/// Decodes every cell of one page under a candidate range: the matching
/// rows, the count of cells that failed to decode, the child tasks in visit
/// order, and the range start left for the right-most pointer.
#[verifier::loop_isolation(false)]
fn search_page_cells(page: &Page, ids: &Vec<i64>, lo: usize, hi: usize) -> (r: (
    Vec<Row>,
    usize,
    Vec<(usize, usize, usize)>,
    usize,
))
    requires
        spec_page_wf(page@),
        lo <= hi <= ids@.len(),
    ensures
        r.0@.map_values(|x: Row| x@) == spec_search_cells(page@, ids@, 0, lo as int, hi as int).0,
        r.1 as nat == spec_search_cells(page@, ids@, 0, lo as int, hi as int).1,
        r.2@.map_values(|t: (usize, usize, usize)| (t.0 as int, t.1 as int, t.2 as int))
            == spec_search_cells(page@, ids@, 0, lo as int, hi as int).2,
        r.3 as int == spec_search_cells(page@, ids@, 0, lo as int, hi as int).3,
        forall|k: int|
            0 <= k < r.2@.len() ==> (#[trigger] r.2@[k]).1 <= r.2@[k].2 <= ids@.len(),
        lo <= r.3 <= hi,
{
    let nc: u16 = page.btree_header.ncells;
    let mut rows: Vec<Row> = Vec::new();
    let mut skip: usize = 0;
    let mut tasks: Vec<(usize, usize, usize)> = Vec::new();
    let mut cur: usize = lo;
    let mut i: u16 = 0;
    while i < nc
        invariant
            i <= nc,
            skip <= i,
            lo <= cur <= hi,
            spec_search_cells(page@, ids@, 0, lo as int, hi as int).0 == rows@.map_values(
                |x: Row| x@,
            ) + spec_search_cells(page@, ids@, i as int, cur as int, hi as int).0,
            spec_search_cells(page@, ids@, 0, lo as int, hi as int).1 == skip
                + spec_search_cells(page@, ids@, i as int, cur as int, hi as int).1,
            spec_search_cells(page@, ids@, 0, lo as int, hi as int).2 == tasks@.map_values(
                |t: (usize, usize, usize)| (t.0 as int, t.1 as int, t.2 as int),
            ) + spec_search_cells(page@, ids@, i as int, cur as int, hi as int).2,
            spec_search_cells(page@, ids@, 0, lo as int, hi as int).3 == spec_search_cells(
                page@,
                ids@,
                i as int,
                cur as int,
                hi as int,
            ).3,
            forall|k: int|
                0 <= k < tasks@.len() ==> (#[trigger] tasks@[k]).1 <= tasks@[k].2 <= ids@.len(),
        decreases nc - i,
    {
        let ghost tmap = tasks@.map_values(
            |t: (usize, usize, usize)| (t.0 as int, t.1 as int, t.2 as int),
        );
        let ghost rmap = rows@.map_values(|x: Row| x@);
        match page.read_cell(i) {
            Ok(cv) => {
                match (cv.left_child, cv.rowid) {
                    (Some(lc), Some(key)) => {
                        let cut = partition_point(ids, cur, hi, key);
                        let t = (lc as usize, cur, cut);
                        proof {
                            let rest = spec_search_cells(
                                page@,
                                ids@,
                                i + 1,
                                cut as int,
                                hi as int,
                            ).2;
                            assert((tasks@.push(t)).map_values(
                                |t: (usize, usize, usize)| (t.0 as int, t.1 as int, t.2 as int),
                            ) =~= tmap.push((lc as int, cur as int, cut as int)));
                            assert(tmap + (seq![(lc as int, cur as int, cut as int)] + rest)
                                =~= tmap.push((lc as int, cur as int, cut as int)) + rest);
                        }
                        tasks.push(t);
                        cur = cut;
                    },
                    (Some(lc), None) => {
                        let t = (lc as usize, cur, cur);
                        proof {
                            let rest = spec_search_cells(
                                page@,
                                ids@,
                                i + 1,
                                cur as int,
                                hi as int,
                            ).2;
                            assert((tasks@.push(t)).map_values(
                                |t: (usize, usize, usize)| (t.0 as int, t.1 as int, t.2 as int),
                            ) =~= tmap.push((lc as int, cur as int, cur as int)));
                            assert(tmap + (seq![(lc as int, cur as int, cur as int)] + rest)
                                =~= tmap.push((lc as int, cur as int, cur as int)) + rest);
                        }
                        tasks.push(t);
                    },
                    (None, Some(rowid)) => {
                        if range_has(ids, cur, hi, rowid) {
                            match cv.record {
                                Some(rec) => {
                                    let row = Row { rowid: Some(rowid), record: rec };
                                    proof {
                                        let rest = spec_search_cells(
                                            page@,
                                            ids@,
                                            i + 1,
                                            cur as int,
                                            hi as int,
                                        ).0;
                                        assert((rows@.push(row)).map_values(|x: Row| x@)
                                            =~= rmap.push(row@));
                                        assert(rmap + (seq![row@] + rest) =~= rmap.push(row@)
                                            + rest);
                                    }
                                    rows.push(row);
                                },
                                None => {},
                            }
                        }
                    },
                    (None, None) => {},
                }
            },
            Err(_) => {
                skip = skip + 1;
            },
        }
        i = i + 1;
    }
    (rows, skip, tasks, cur)
}

impl crate::database::Database {
    /// Key-range scan: the rows of the table B-tree rooted at 1-based page
    /// `root` whose rowids appear in the sorted candidate list `ids`,
    /// together with the count of cells that failed to decode.  Subtrees
    /// whose candidate range is empty are pruned, never read.
    #[verifier::loop_isolation(false)]
    #[verifier::rlimit(60)]
    pub fn scan_tree_with_ids(&self, root: usize, ids: &Vec<i64>) -> (r: (Vec<Row>, usize))
        requires
            spec_db_wf(self@),
            spec_search_feasible(self@, ids@, root as int),
        ensures
            forall|f: nat|
                #[trigger] spec_tree_ok(self@, root as int, f) ==> r.0@.map_values(|x: Row| x@)
                    == spec_search_tree(self@, ids@, root as int, 0, ids@.len() as int, f).0
                    && r.1 as nat == spec_search_tree(
                    self@,
                    ids@,
                    root as int,
                    0,
                    ids@.len() as int,
                    f,
                ).1,
    {
        let ghost dbv = self@;
        let ghost idv = ids@;
        let ghost f0: nat = choose|f: nat|
            #[trigger] spec_tree_ok(self@, root as int, f) && spec_search_tree(
                self@,
                ids@,
                root as int,
                0,
                ids@.len() as int,
                f,
            ).0.len() + spec_search_tree(self@, ids@, root as int, 0, ids@.len() as int, f).1
                <= usize::MAX;
        let ghost target = spec_search_tree(dbv, idv, root as int, 0, idv.len() as int, f0);
        let nids: usize = ids.len();
        let mut rows: Vec<Row> = Vec::new();
        let mut skipped: usize = 0;
        let mut stack: Vec<(usize, usize, usize)> = Vec::new();
        stack.push((root, 0, nids));
        proof {
            let tmap = stack@.map_values(
                |t: (usize, usize, usize)| (t.0 as int, t.1 as int, t.2 as int),
            );
            assert(tmap =~= seq![(root as int, 0int, idv.len() as int)]);
            let rsm = tmap.reverse();
            assert(rsm =~= tmap);
            assert(rsm.skip(1) =~= Seq::<SearchTask>::empty());
            assert(spec_search_list(dbv, idv, rsm.skip(1), f0).0 =~= Seq::<RowView>::empty());
            assert(spec_search_list(dbv, idv, rsm.skip(1), f0).1 == 0);
            assert(spec_search_list(dbv, idv, rsm, f0).0 =~= target.0);
            assert(spec_search_list(dbv, idv, rsm, f0).1 == target.1);
            let pmap = stack@.map_values(|t: (usize, usize, usize)| t.0 as int);
            assert(pmap =~= seq![root as int]);
            assert(pmap.reverse() =~= seq![root as int]);
            assert(pmap.reverse().skip(1) =~= Seq::<int>::empty());
            assert(spec_tree_ok(self@, root as int, f0));
            assert(spec_tree_ok(dbv, root as int, f0));
            assert(spec_list_ok(dbv, pmap.reverse().skip(1), f0));
            assert(spec_list_ok(dbv, pmap.reverse(), f0));
            assert(rows@.map_values(|x: Row| x@) =~= Seq::<RowView>::empty());
            assert(Seq::<RowView>::empty() + target.0 =~= target.0);
        }
        while stack.len() > 0
            invariant
                dbv == self@,
                idv == ids@,
                nids == ids@.len(),
                target == spec_search_tree(dbv, idv, root as int, 0, idv.len() as int, f0),
                spec_stack_ok(
                    dbv,
                    stack@.map_values(|t: (usize, usize, usize)| t.0 as int),
                    f0,
                ),
                forall|k: int|
                    0 <= k < stack@.len() ==> (#[trigger] stack@[k]).1 <= stack@[k].2
                        <= idv.len(),
                target.0 == rows@.map_values(|x: Row| x@) + spec_search_stack(
                    dbv,
                    idv,
                    stack@.map_values(
                        |t: (usize, usize, usize)| (t.0 as int, t.1 as int, t.2 as int),
                    ),
                    f0,
                ).0,
                target.1 == skipped + spec_search_stack(
                    dbv,
                    idv,
                    stack@.map_values(
                        |t: (usize, usize, usize)| (t.0 as int, t.1 as int, t.2 as int),
                    ),
                    f0,
                ).1,
            decreases spec_stack_size(
                dbv,
                stack@.map_values(|t: (usize, usize, usize)| t.0 as int),
                f0,
            ), stack@.len(),
        {
            let ghost old_tmap = stack@.map_values(
                |t: (usize, usize, usize)| (t.0 as int, t.1 as int, t.2 as int),
            );
            let ghost old_pmap = stack@.map_values(|t: (usize, usize, usize)| t.0 as int);
            let task = match stack.pop() {
                Some(t) => t,
                None => { return (rows, skipped) },
            };
            let (pno, lo, hi) = task;
            let ghost rest_tmap = stack@.map_values(
                |t: (usize, usize, usize)| (t.0 as int, t.1 as int, t.2 as int),
            );
            let ghost rest_pmap = stack@.map_values(|t: (usize, usize, usize)| t.0 as int);
            proof {
                assert(rest_tmap =~= old_tmap.drop_last());
                assert(rest_pmap =~= old_pmap.drop_last());
                assert(old_tmap.last() == (pno as int, lo as int, hi as int));
                assert(old_pmap.last() == pno as int);
                lemma_search_stack_pop(dbv, idv, old_tmap, f0);
                lemma_scan_stack_pop(dbv, old_pmap, f0);
            }
            if pno < 1 || pno > self.pages.len() || lo >= hi {
                continue;
            }
            let page = &self.pages[pno - 1];
            proof {
                assert(dbv[pno - 1] == page@);
            }
            let (mut prows, pskip, tasks, cur) = search_page_cells(page, ids, lo, hi);
            let ghost ctmap = tasks@.map_values(
                |t: (usize, usize, usize)| (t.0 as int, t.1 as int, t.2 as int),
            );
            let ghost cpm = spec_search_cells(page@, idv, 0, lo as int, hi as int);
            let mut all_tasks = tasks;
            match page.btree_header.right_most_pointer {
                Some(rp) => {
                    proof {
                        assert((all_tasks@.push((rp as usize, cur, hi))).map_values(
                            |t: (usize, usize, usize)| (t.0 as int, t.1 as int, t.2 as int),
                        ) =~= ctmap.push((rp as int, cur as int, hi as int)));
                        assert(ctmap + seq![(rp as int, cur as int, hi as int)] =~= ctmap.push((
                            rp as int,
                            cur as int,
                            hi as int,
                        )));
                    }
                    all_tasks.push((rp as usize, cur, hi));
                },
                None => {
                    proof {
                        assert(ctmap + Seq::<SearchTask>::empty() =~= ctmap);
                    }
                },
            }
            let ghost atmap = all_tasks@.map_values(
                |t: (usize, usize, usize)| (t.0 as int, t.1 as int, t.2 as int),
            );
            proof {
                // the task page numbers are exactly the page's child list
                lemma_search_tasks_align(page@, idv, 0, lo as int, hi as int);
                let apm = all_tasks@.map_values(|t: (usize, usize, usize)| t.0 as int);
                assert(apm =~= spec_task_pnos(atmap));
                assert(spec_task_pnos(atmap) =~= spec_task_pnos(cpm.2) + spec_rmp_seq(page@));
                assert(apm =~= spec_child_list(page@, 0));
                // fuel: the children are well-founded one level down, hence at f0
                lemma_list_fuel_mono(dbv, apm, (f0 - 1) as nat, f0);
                lemma_search_list_fuel_mono(dbv, idv, atmap, (f0 - 1) as nat, f0);
                // rows produced by this page plus what its tasks owe
                lemma_search_stack_push(dbv, idv, rest_tmap, atmap, f0);
                lemma_scan_stack_push(dbv, rest_pmap, apm, f0);
                let rmap = rows@.map_values(|x: Row| x@);
                let pm = prows@.map_values(|x: Row| x@);
                assert((rows@ + prows@).map_values(|x: Row| x@) =~= rmap + pm);
            }
            rows.append(&mut prows);
            skipped = skipped + pskip;
            let mut j: usize = all_tasks.len();
            proof {
                assert(atmap.skip(j as int).reverse() =~= Seq::<SearchTask>::empty());
                assert(stack@.map_values(
                    |t: (usize, usize, usize)| (t.0 as int, t.1 as int, t.2 as int),
                ) =~= rest_tmap + atmap.skip(j as int).reverse());
            }
            while j > 0
                invariant
                    j <= all_tasks@.len(),
                    atmap == all_tasks@.map_values(
                        |t: (usize, usize, usize)| (t.0 as int, t.1 as int, t.2 as int),
                    ),
                    stack@.map_values(
                        |t: (usize, usize, usize)| (t.0 as int, t.1 as int, t.2 as int),
                    ) == rest_tmap + atmap.skip(j as int).reverse(),
                    forall|k: int|
                        0 <= k < stack@.len() ==> (#[trigger] stack@[k]).1 <= stack@[k].2
                            <= idv.len(),
                decreases j,
            {
                j = j - 1;
                proof {
                    let pre = stack@.map_values(
                        |t: (usize, usize, usize)| (t.0 as int, t.1 as int, t.2 as int),
                    );
                    assert((stack@.push(all_tasks@[j as int])).map_values(
                        |t: (usize, usize, usize)| (t.0 as int, t.1 as int, t.2 as int),
                    ) =~= pre.push(atmap[j as int]));
                    assert(atmap.skip(j as int).reverse() =~= atmap.skip(j + 1).reverse().push(
                        atmap[j as int],
                    ));
                }
                stack.push(all_tasks[j]);
            }
            proof {
                assert(stack@.map_values(
                    |t: (usize, usize, usize)| (t.0 as int, t.1 as int, t.2 as int),
                ) =~= rest_tmap + atmap.reverse());
                let newt = stack@.map_values(
                    |t: (usize, usize, usize)| (t.0 as int, t.1 as int, t.2 as int),
                );
                let newp = stack@.map_values(|t: (usize, usize, usize)| t.0 as int);
                let apm = all_tasks@.map_values(|t: (usize, usize, usize)| t.0 as int);
                assert(apm.len() == atmap.len());
                assert forall|k: int| 0 <= k < newp.len() implies newp[k] == (rest_pmap
                    + apm.reverse())[k] by {
                    assert(newp[k] == newt[k].0);
                    if k < rest_tmap.len() {
                        assert(newt[k] == rest_tmap[k]);
                        assert(rest_pmap[k] == rest_tmap[k].0);
                    } else {
                        let m = atmap.len() - 1 - (k - rest_tmap.len());
                        assert(newt[k] == atmap.reverse()[k - rest_tmap.len()]);
                        assert(atmap.reverse()[k - rest_tmap.len()] == atmap[m]);
                        assert(atmap[m].0 == apm[m]);
                        assert(apm.reverse()[k - rest_tmap.len()] == apm[m]);
                    }
                }
                assert(newp =~= rest_pmap + apm.reverse());
            }
        }
        proof {
            let tmap = stack@.map_values(
                |t: (usize, usize, usize)| (t.0 as int, t.1 as int, t.2 as int),
            );
            assert(tmap =~= Seq::<SearchTask>::empty());
            assert(tmap.reverse() =~= Seq::<SearchTask>::empty());
            assert(rows@.map_values(|x: Row| x@) =~= target.0);
            assert forall|f: nat| spec_tree_ok(dbv, root as int, f) implies rows@.map_values(
                |x: Row| x@,
            ) == spec_search_tree(dbv, idv, root as int, 0, idv.len() as int, f).0 && skipped as nat
                == spec_search_tree(dbv, idv, root as int, 0, idv.len() as int, f).1 by {
                lemma_search_fuel_irrelevant(dbv, idv, root as int, 0, idv.len() as int, f, f0);
            }
        }
        (rows, skipped)
    }
}

} // verus!
