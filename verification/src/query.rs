//! Query execution: table scans, filtered selects, catalog lookups, and
//! index-assisted rowid collection, composed from the traversal engine.
//!
//! The catalog is the table B-tree rooted at page 1; its rows are
//! `(type, name, tbl_name, rootpage, sql)`.

use vstd::prelude::*;

use crate::btree::{spec_db_wf, spec_search_tree, spec_subtree_scan, spec_tree_ok, Row, RowView};
use crate::column::ValueView;
use crate::database::Database;
use crate::record::Record;
use crate::render::{bytes_to_text, lossy_text};
use crate::sql::{
    bytes_eq,
    project_line,
    record_matches,
    set_contains,
    spec_project_line,
    spec_row_matches,
    spec_set_insert,
    Sql,
};

verus! {

/// The projected display lines of a row list.
pub open spec fn spec_project_rows(rows: Seq<RowView>, fields: Seq<(usize, String)>) -> Seq<
    Seq<char>,
> {
    rows.map_values(|r: RowView| spec_project_line(r.columns, fields))
}

/// Folds a row list into the deduplicating output set: each row whose
/// columns hold text equal to the literal contributes its projected line,
/// once.
pub open spec fn spec_collect_matching(
    rows: Seq<RowView>,
    lit: Seq<u8>,
    fields: Seq<(usize, String)>,
    acc: Seq<Seq<char>>,
) -> Seq<Seq<char>>
    decreases rows.len(),
{
    if rows.len() == 0 {
        acc
    } else {
        let acc1 = if spec_row_matches(rows[0].columns, lit) {
            spec_set_insert(acc, spec_project_line(rows[0].columns, fields))
        } else {
            acc
        };
        spec_collect_matching(rows.skip(1), lit, fields, acc1)
    }
}

/// The UTF-8 bytes of the catalog type tag `table`.
pub open spec fn spec_table_tag() -> Seq<u8> {
    seq![116u8, 97u8, 98u8, 108u8, 101u8]
}

/// The UTF-8 bytes of the internal table name `sqlite_sequence`, which the
/// table listing leaves out.
pub open spec fn spec_sequence_tag() -> Seq<u8> {
    seq![
        115u8,
        113u8,
        108u8,
        105u8,
        116u8,
        101u8,
        95u8,
        115u8,
        101u8,
        113u8,
        117u8,
        101u8,
        110u8,
        99u8,
        101u8,
    ]
}

/// Whether a catalog row describes the table called `name`: five columns,
/// type text `table`, matching `tbl_name`, an integer root page, and SQL
/// text.
pub open spec fn spec_catalog_row_for(cols: Seq<(crate::column::SerialType, ValueView)>, name: Seq<
    u8,
>) -> bool {
    &&& cols.len() >= 5
    &&& cols[0].1 == ValueView::Text(spec_table_tag())
    &&& cols[2].1 == ValueView::Text(name)
    &&& cols[3].1 is Integer
    &&& cols[4].1 is Text
}

/// The root page and creation SQL of the first catalog row describing the
/// table called `name`.
pub open spec fn spec_catalog_root(rows: Seq<RowView>, name: Seq<u8>) -> Option<(i64, Seq<u8>)>
    decreases rows.len(),
{
    if rows.len() == 0 {
        None
    } else if spec_catalog_row_for(rows[0].columns, name) {
        Some((rows[0].columns[3].1->Integer_0, rows[0].columns[4].1->Text_0))
    } else {
        spec_catalog_root(rows.skip(1), name)
    }
}

/// Whether a catalog row enters the table listing: a `table` row whose
/// `tbl_name` is text and not the internal sequence table.
pub open spec fn spec_listed_table(cols: Seq<(crate::column::SerialType, ValueView)>) -> bool {
    &&& cols.len() >= 3
    &&& cols[0].1 == ValueView::Text(spec_table_tag())
    &&& cols[2].1 is Text
    &&& cols[2].1 != ValueView::Text(spec_sequence_tag())
}

/// The `tbl_name` bytes of every listed catalog row, in row order.
pub open spec fn spec_table_names(rows: Seq<RowView>) -> Seq<Seq<u8>>
    decreases rows.len(),
{
    if rows.len() == 0 {
        Seq::empty()
    } else {
        let rest = spec_table_names(rows.skip(1));
        if spec_listed_table(rows[0].columns) {
            seq![rows[0].columns[2].1->Text_0] + rest
        } else {
            rest
        }
    }
}

/// Whether an index entry matches the literal: its first column is text
/// equal to the literal and its last column, the table rowid, is an
/// integer.
pub open spec fn spec_index_entry_for(cols: Seq<(crate::column::SerialType, ValueView)>, lit: Seq<
    u8,
>) -> bool {
    &&& cols.len() >= 2
    &&& cols[0].1 == ValueView::Text(lit)
    &&& cols[cols.len() - 1].1 is Integer
}

/// The rowids of every index entry matching the literal, in entry order.
pub open spec fn spec_index_rowids(rows: Seq<RowView>, lit: Seq<u8>) -> Seq<i64>
    decreases rows.len(),
{
    if rows.len() == 0 {
        Seq::empty()
    } else {
        let rest = spec_index_rowids(rows.skip(1), lit);
        if spec_index_entry_for(rows[0].columns, lit) {
            seq![rows[0].columns[rows[0].columns.len() - 1].1->Integer_0] + rest
        } else {
            rest
        }
    }
}

/// Strictly ascending order: sorted and free of duplicates.
pub open spec fn spec_sorted_strict(ids: Seq<i64>) -> bool {
    forall|i: int, j: int| 0 <= i < j < ids.len() ==> ids[i] < ids[j]
}

/// Builds the bytes of the `table` tag.
fn table_tag() -> (r: Vec<u8>)
    ensures
        r@ == spec_table_tag(),
{
    let mut v: Vec<u8> = Vec::new();
    v.push(116);
    v.push(97);
    v.push(98);
    v.push(108);
    v.push(101);
    proof {
        assert(v@ =~= spec_table_tag());
    }
    v
}

/// Builds the bytes of the `sqlite_sequence` name.
fn sequence_tag() -> (r: Vec<u8>)
    ensures
        r@ == spec_sequence_tag(),
{
    let mut v: Vec<u8> = Vec::new();
    v.push(115);
    v.push(113);
    v.push(108);
    v.push(105);
    v.push(116);
    v.push(101);
    v.push(95);
    v.push(115);
    v.push(101);
    v.push(113);
    v.push(117);
    v.push(101);
    v.push(110);
    v.push(99);
    v.push(101);
    proof {
        assert(v@ =~= spec_sequence_tag());
    }
    v
}

/// Whether column `idx` is text equal to `bytes`.
fn col_text_eq(rec: &Record, idx: usize, bytes: &[u8]) -> (r: bool)
    requires
        idx < rec.columns@.len(),
    ensures
        r == (rec@[idx as int].1 == ValueView::Text(bytes@)),
{
    proof {
        assert(rec@[idx as int] == (rec.columns@[idx as int])@);
    }
    match rec.columns[idx].data() {
        crate::column::SerialValue::Text(b) => bytes_eq(b.as_slice(), bytes),
        _ => false,
    }
}

/// The integer value of column `idx`, if it holds one.
fn col_integer(rec: &Record, idx: usize) -> (r: Option<i64>)
    requires
        idx < rec.columns@.len(),
    ensures
        match r {
            Some(v) => rec@[idx as int].1 == ValueView::Integer(v),
            None => !(rec@[idx as int].1 is Integer),
        },
{
    proof {
        assert(rec@[idx as int] == (rec.columns@[idx as int])@);
    }
    match rec.columns[idx].data() {
        crate::column::SerialValue::Integer(v) => Some(*v),
        _ => None,
    }
}

/// A copy of the text bytes of column `idx`, if it holds text.
fn col_text(rec: &Record, idx: usize) -> (r: Option<Vec<u8>>)
    requires
        idx < rec.columns@.len(),
    ensures
        match r {
            Some(b) => rec@[idx as int].1 == ValueView::Text(b@),
            None => !(rec@[idx as int].1 is Text),
        },
{
    proof {
        assert(rec@[idx as int] == (rec.columns@[idx as int])@);
    }
    match rec.columns[idx].data() {
        crate::column::SerialValue::Text(b) => {
            let c = crate::record::copy_range(b.as_slice(), 0, b.len());
            proof {
                assert(c@ =~= b@);
            }
            Some(c)
        },
        _ => None,
    }
}

/// Projects every row to its display line.
#[verifier::loop_isolation(false)]
fn project_rows(rows: &Vec<Row>, fields: &Vec<(usize, String)>) -> (r: Vec<String>)
    ensures
        r@.map_values(|s: String| s@) == spec_project_rows(
            rows@.map_values(|x: Row| x@),
            fields@,
        ),
{
    let ghost rv = rows@.map_values(|x: Row| x@);
    let mut out: Vec<String> = Vec::new();
    let mut i: usize = 0;
    while i < rows.len()
        invariant
            rv == rows@.map_values(|x: Row| x@),
            i <= rows@.len(),
            out@.map_values(|s: String| s@) == spec_project_rows(rv, fields@).take(i as int),
        decreases rows@.len() - i,
    {
        let line = project_line(&rows[i].record, fields);
        proof {
            let m = out@.map_values(|s: String| s@);
            assert((out@.push(line)).map_values(|s: String| s@) =~= m.push(line@));
            assert(spec_project_rows(rv, fields@).take(i + 1) =~= spec_project_rows(
                rv,
                fields@,
            ).take(i as int).push(spec_project_line(rv[i as int].columns, fields@)));
            assert(rv[i as int].columns == rows@[i as int].record@);
        }
        out.push(line);
        i = i + 1;
    }
    proof {
        assert(spec_project_rows(rv, fields@).take(rows@.len() as int) =~= spec_project_rows(
            rv,
            fields@,
        ));
    }
    out
}

/// Folds every matching row's projected line into the deduplicating output
/// set.
#[verifier::loop_isolation(false)]
fn collect_matching_rows(
    rows: &Vec<Row>,
    lit: &String,
    fields: &Vec<(usize, String)>,
    set: &mut Vec<String>,
)
    ensures
        final(set)@.map_values(|s: String| s@) == spec_collect_matching(
            rows@.map_values(|x: Row| x@),
            vstd::utf8::encode_utf8(lit@),
            fields@,
            old(set)@.map_values(|s: String| s@),
        ),
{
    let ghost rv = rows@.map_values(|x: Row| x@);
    let ghost lb = vstd::utf8::encode_utf8(lit@);
    let ghost target = spec_collect_matching(rv, lb, fields@, old(set)@.map_values(
        |s: String| s@,
    ));
    proof {
        assert(rv.skip(0) =~= rv);
    }
    let mut i: usize = 0;
    while i < rows.len()
        invariant
            rv == rows@.map_values(|x: Row| x@),
            i <= rows@.len(),
            target == spec_collect_matching(rv.skip(i as int), lb, fields@, set@.map_values(
                |s: String| s@,
            )),
        decreases rows@.len() - i,
    {
        proof {
            assert(rv.skip(i as int)[0] == rv[i as int]);
            assert(rv.skip(i as int).skip(1) =~= rv.skip(i + 1));
            assert(rv[i as int].columns == rows@[i as int].record@);
        }
        if record_matches(&rows[i].record, lit) {
            let line = project_line(&rows[i].record, fields);
            if !set_contains(set, &line) {
                proof {
                    let m = set@.map_values(|s: String| s@);
                    assert((set@.push(line)).map_values(|s: String| s@) =~= m.push(line@));
                }
                set.push(line);
            }
        }
        i = i + 1;
    }
    proof {
        assert(rv.skip(rows@.len() as int) =~= Seq::<RowView>::empty());
    }
}

/// Whether the list holds `x`.
fn contains_i64(v: &Vec<i64>, x: i64) -> (r: bool)
    ensures
        r == v@.contains(x),
{
    let mut j: usize = 0;
    while j < v.len()
        invariant
            j <= v@.len(),
            forall|k: int| 0 <= k < j ==> v@[k] != x,
        decreases v@.len() - j,
    {
        if v[j] == x {
            return true;
        }
        j = j + 1;
    }
    false
}

/// Sorts the rowids ascending and drops duplicates; membership is kept
/// exactly.
#[verifier::loop_isolation(false)]
pub fn sort_dedup(v: &Vec<i64>) -> (r: Vec<i64>)
    ensures
        spec_sorted_strict(r@),
        forall|x: i64| r@.contains(x) <==> v@.contains(x),
{
    let mut out: Vec<i64> = Vec::new();
    let mut i: usize = 0;
    while i < v.len()
        invariant
            i <= v@.len(),
            spec_sorted_strict(out@),
            forall|x: i64| out@.contains(x) <==> v@.take(i as int).contains(x),
        decreases v@.len() - i,
    {
        let x = v[i];
        proof {
            assert(v@.take(i + 1) =~= v@.take(i as int).push(x));
            assert(v@.take(i + 1).contains(x)) by {
                assert(v@.take(i + 1)[i as int] == x);
            }
            assert forall|y: i64| v@.take(i + 1).contains(y) implies (v@.take(i as int).contains(y)
                || y == x) by {
                let w = choose|w: int|
                    0 <= w < v@.take(i + 1).len() && #[trigger] v@.take(i + 1)[w] == y;
                if w < i {
                    assert(v@.take(i as int)[w] == y);
                }
            }
            assert forall|y: i64| v@.take(i as int).contains(y) implies v@.take(
                i + 1,
            ).contains(y) by {
                let w = choose|w: int|
                    0 <= w < v@.take(i as int).len() && #[trigger] v@.take(i as int)[w] == y;
                assert(v@.take(i + 1)[w] == y);
            }
        }
        if !contains_i64(&out, x) {
            let mut pos: usize = 0;
            while pos < out.len() && out[pos] < x
                invariant
                    pos <= out@.len(),
                    forall|k: int| 0 <= k < pos ==> out@[k] < x,
                decreases out@.len() - pos,
            {
                pos = pos + 1;
            }
            let ghost before = out@;
            out.insert(pos, x);
            proof {
                assert(out@ =~= before.take(pos as int) + seq![x] + before.skip(pos as int));
                assert forall|a: int, b: int| 0 <= a < b < out@.len() implies out@[a]
                    < out@[b] by {
                    if a < pos && b == pos {
                        assert(out@[a] == before[a]);
                    } else if a == pos && b > pos {
                        assert(out@[b] == before[b - 1]);
                        assert(before[b - 1] >= x);
                        assert(before[b - 1] != x);
                    } else if a < pos && b > pos {
                        assert(out@[a] == before[a] && out@[b] == before[b - 1]);
                    } else if a > pos && b > pos {
                        assert(out@[a] == before[a - 1] && out@[b] == before[b - 1]);
                    } else if a < pos && b < pos {
                        assert(out@[a] == before[a] && out@[b] == before[b]);
                    }
                }
                assert(out@.contains(x)) by {
                    assert(out@[pos as int] == x);
                }
                assert forall|y: i64| out@.contains(y) implies v@.take(i + 1).contains(y) by {
                    let w = choose|w: int| 0 <= w < out@.len() && #[trigger] out@[w] == y;
                    if w < pos {
                        assert(before[w] == y);
                        assert(before.contains(y));
                    } else if w > pos {
                        assert(before[w - 1] == y);
                        assert(before.contains(y));
                    }
                }
                assert forall|y: i64| v@.take(i + 1).contains(y) implies out@.contains(y) by {
                    if y == x {
                    } else {
                        assert(v@.take(i as int).contains(y));
                        assert(before.contains(y));
                        let w = choose|w: int| 0 <= w < before.len() && #[trigger] before[w] == y;
                        if w < pos {
                            assert(out@[w] == y);
                        } else {
                            assert(out@[w + 1] == y);
                        }
                    }
                }
            }
        } else {
            proof {
                assert forall|y: i64| v@.take(i + 1).contains(y) implies out@.contains(y) by {
                    if y != x {
                        assert(v@.take(i as int).contains(y));
                    }
                }
                assert forall|y: i64| out@.contains(y) implies v@.take(i + 1).contains(y) by {
                    assert(v@.take(i as int).contains(y));
                }
            }
        }
        i = i + 1;
    }
    proof {
        assert(v@.take(v@.len() as int) =~= v@);
    }
    out
}

impl Database {
    /// Runs a select over the table B-tree rooted at 1-based page `num`.
    ///
    /// Without a predicate, every row of the tree is projected to a display
    /// line, in ascending rowid order, and `row_set` is untouched.  With a
    /// predicate, each matching row's projected line is added to `row_set`
    /// once, and no lines are returned.  The second result is the count of
    /// cells skipped because they failed to decode.
    pub fn read_table(
        &self,
        num: usize,
        select: &Sql,
        fields: &Vec<(usize, String)>,
        row_set: &mut Vec<String>,
    ) -> (r: (Vec<String>, usize))
        requires
            spec_db_wf(self@),
            crate::btree::spec_scan_feasible(self@, num as int),
        ensures
            forall|f: nat|
                #[trigger] spec_tree_ok(self@, num as int, f) ==> {
                    let scan = spec_subtree_scan(self@, num as int, f);
                    &&& r.1 as nat == scan.1
                    &&& match select.selection {
                        None => final(row_set)@ == old(row_set)@ && r.0@.map_values(
                            |s: String| s@,
                        ) == spec_project_rows(scan.0, fields@),
                        Some((_, lit)) => r.0@.len() == 0 && final(row_set)@.map_values(
                            |s: String| s@,
                        ) == spec_collect_matching(
                            scan.0,
                            vstd::utf8::encode_utf8(lit@),
                            fields@,
                            old(row_set)@.map_values(|s: String| s@),
                        ),
                    }
                },
    {
        let ghost f0: nat = choose|f: nat|
            #[trigger] spec_tree_ok(self@, num as int, f) && spec_subtree_scan(
                self@,
                num as int,
                f,
            ).0.len() + spec_subtree_scan(self@, num as int, f).1 <= usize::MAX;
        let (rows, skipped) = self.scan_tree(num);
        let mut lines: Vec<String> = Vec::new();
        match &select.selection {
            None => {
                lines = project_rows(&rows, fields);
            },
            Some((_, lit)) => {
                collect_matching_rows(&rows, lit, fields, row_set);
            },
        }
        proof {
            assert forall|f: nat| spec_tree_ok(self@, num as int, f) implies spec_subtree_scan(
                self@,
                num as int,
                f,
            ) == spec_subtree_scan(self@, num as int, f0) by {
                crate::btree::lemma_scan_fuel_irrelevant(self@, num as int, f, f0);
            }
        }
        (lines, skipped)
    }

    /// Runs a select over the table B-tree rooted at `num`, restricted to
    /// the candidate rowids `ids`, which the caller supplies sorted
    /// ascending; subtrees whose candidate range is empty are never read.
    /// The two output modes are those of `read_table`.
    pub fn read_ids_from_table(
        &self,
        num: usize,
        select: &Sql,
        fields: &Vec<(usize, String)>,
        row_set: &mut Vec<String>,
        ids: &Vec<i64>,
    ) -> (r: (Vec<String>, usize))
        requires
            spec_db_wf(self@),
            crate::btree::spec_search_feasible(self@, ids@, num as int),
        ensures
            forall|f: nat|
                #[trigger] spec_tree_ok(self@, num as int, f) ==> {
                    let found = spec_search_tree(
                        self@,
                        ids@,
                        num as int,
                        0,
                        ids@.len() as int,
                        f,
                    );
                    &&& r.1 as nat == found.1
                    &&& match select.selection {
                        None => final(row_set)@ == old(row_set)@ && r.0@.map_values(
                            |s: String| s@,
                        ) == spec_project_rows(found.0, fields@),
                        Some((_, lit)) => r.0@.len() == 0 && final(row_set)@.map_values(
                            |s: String| s@,
                        ) == spec_collect_matching(
                            found.0,
                            vstd::utf8::encode_utf8(lit@),
                            fields@,
                            old(row_set)@.map_values(|s: String| s@),
                        ),
                    }
                },
    {
        let ghost f0: nat = choose|f: nat|
            #[trigger] spec_tree_ok(self@, num as int, f) && spec_search_tree(
                self@,
                ids@,
                num as int,
                0,
                ids@.len() as int,
                f,
            ).0.len() + spec_search_tree(self@, ids@, num as int, 0, ids@.len() as int, f).1
                <= usize::MAX;
        let (rows, skipped) = self.scan_tree_with_ids(num, ids);
        let mut lines: Vec<String> = Vec::new();
        match &select.selection {
            None => {
                lines = project_rows(&rows, fields);
            },
            Some((_, lit)) => {
                collect_matching_rows(&rows, lit, fields, row_set);
            },
        }
        proof {
            assert forall|f: nat| spec_tree_ok(self@, num as int, f) implies spec_search_tree(
                self@,
                ids@,
                num as int,
                0,
                ids@.len() as int,
                f,
            ) == spec_search_tree(self@, ids@, num as int, 0, ids@.len() as int, f0) by {
                crate::btree::lemma_search_fuel_irrelevant(
                    self@,
                    ids@,
                    num as int,
                    0,
                    ids@.len() as int,
                    f,
                    f0,
                );
            }
        }
        (lines, skipped)
    }

    /// `COUNT(*)`: the number of cells across every leaf of the tree rooted
    /// at `num`, decoded rows and skipped cells together.
    pub fn count_rows(&self, num: usize) -> (r: usize)
        requires
            spec_db_wf(self@),
            crate::btree::spec_scan_feasible(self@, num as int),
        ensures
            forall|f: nat|
                #[trigger] spec_tree_ok(self@, num as int, f) ==> r as nat == spec_subtree_scan(
                    self@,
                    num as int,
                    f,
                ).0.len() + spec_subtree_scan(self@, num as int, f).1,
    {
        let ghost f0: nat = choose|f: nat|
            #[trigger] spec_tree_ok(self@, num as int, f) && spec_subtree_scan(
                self@,
                num as int,
                f,
            ).0.len() + spec_subtree_scan(self@, num as int, f).1 <= usize::MAX;
        let (rows, skipped) = self.scan_tree(num);
        proof {
            assert forall|f: nat| spec_tree_ok(self@, num as int, f) implies spec_subtree_scan(
                self@,
                num as int,
                f,
            ) == spec_subtree_scan(self@, num as int, f0) by {
                crate::btree::lemma_scan_fuel_irrelevant(self@, num as int, f, f0);
            }
        }
        rows.len() + skipped
    }

    /// Looks the table called `name` up in the catalog: the root page and
    /// creation SQL of the first catalog row describing it.
    #[verifier::loop_isolation(false)]
    pub fn find_table(&self, name: &String) -> (r: Option<(i64, String)>)
        requires
            spec_db_wf(self@),
            crate::btree::spec_scan_feasible(self@, 1),
        ensures
            forall|f: nat|
                #[trigger] spec_tree_ok(self@, 1, f) ==> match (
                    r,
                    spec_catalog_root(
                        spec_subtree_scan(self@, 1, f).0,
                        vstd::utf8::encode_utf8(name@),
                    ),
                ) {
                    (Some((rp, sql)), Some((srp, sb))) => rp == srp && sql@ == lossy_text(sb),
                    (None, None) => true,
                    _ => false,
                },
    {
        let ghost f0: nat = choose|f: nat|
            #[trigger] spec_tree_ok(self@, 1, f) && spec_subtree_scan(self@, 1, f).0.len()
                + spec_subtree_scan(self@, 1, f).1 <= usize::MAX;
        proof {
            assert forall|f: nat| spec_tree_ok(self@, 1, f) implies spec_subtree_scan(self@, 1, f)
                == spec_subtree_scan(self@, 1, f0) by {
                crate::btree::lemma_scan_fuel_irrelevant(self@, 1, f, f0);
            }
        }
        let (rows, _skipped) = self.scan_tree(1);
        let ghost rv = rows@.map_values(|x: Row| x@);
        let ghost nm = vstd::utf8::encode_utf8(name@);
        let tag = table_tag();
        let name_bytes: &[u8] = name.as_str().as_bytes();
        proof {
            assert(name_bytes@ == nm);
            assert(rv.skip(0) =~= rv);
        }
        let mut i: usize = 0;
        while i < rows.len()
            invariant
                i <= rows@.len(),
                spec_catalog_root(rv, nm) == spec_catalog_root(rv.skip(i as int), nm),
            decreases rows@.len() - i,
        {
            let rec = &rows[i].record;
            proof {
                assert(rv.skip(i as int)[0] == rv[i as int]);
                assert(rv.skip(i as int).skip(1) =~= rv.skip(i + 1));
                assert(rv[i as int].columns == rows@[i as int].record@);
            }
            if rec.columns.len() >= 5 {
                if col_text_eq(rec, 0, tag.as_slice()) && col_text_eq(rec, 2, name_bytes) {
                    match (col_integer(rec, 3), col_text(rec, 4)) {
                        (Some(rp), Some(sq)) => {
                            proof {
                                assert(spec_catalog_row_for(rv[i as int].columns, nm));
                                assert(spec_catalog_root(rv, nm) == Some(
                                    (rp, sq@),
                                ));
                            }
                            return Some((rp, bytes_to_text(sq.as_slice())));
                        },
                        _ => {},
                    }
                }
            }
            i = i + 1;
        }
        proof {
            assert(rv.skip(rows@.len() as int) =~= Seq::<RowView>::empty());
        }
        None
    }

    /// The names of the user tables the catalog lists, in row order.
    #[verifier::loop_isolation(false)]
    pub fn table_names(&self) -> (r: Vec<String>)
        requires
            spec_db_wf(self@),
            crate::btree::spec_scan_feasible(self@, 1),
        ensures
            forall|f: nat|
                #[trigger] spec_tree_ok(self@, 1, f) ==> {
                    let names = spec_table_names(spec_subtree_scan(self@, 1, f).0);
                    &&& r@.len() == names.len()
                    &&& forall|k: int| 0 <= k < names.len() ==> (#[trigger] r@[k])@ == lossy_text(
                        names[k],
                    )
                },
    {
        let ghost f0: nat = choose|f: nat|
            #[trigger] spec_tree_ok(self@, 1, f) && spec_subtree_scan(self@, 1, f).0.len()
                + spec_subtree_scan(self@, 1, f).1 <= usize::MAX;
        proof {
            assert forall|f: nat| spec_tree_ok(self@, 1, f) implies spec_subtree_scan(self@, 1, f)
                == spec_subtree_scan(self@, 1, f0) by {
                crate::btree::lemma_scan_fuel_irrelevant(self@, 1, f, f0);
            }
        }
        let (rows, _skipped) = self.scan_tree(1);
        let ghost rv = rows@.map_values(|x: Row| x@);
        let tag = table_tag();
        let seq_tag = sequence_tag();
        let mut out: Vec<String> = Vec::new();
        let ghost collected: Seq<Seq<u8>> = Seq::empty();
        proof {
            assert(rv.skip(0) =~= rv);
            assert(collected + spec_table_names(rv) =~= spec_table_names(rv));
        }
        let mut i: usize = 0;
        while i < rows.len()
            invariant
                i <= rows@.len(),
                spec_table_names(rv) == collected + spec_table_names(rv.skip(i as int)),
                out@.len() == collected.len(),
                forall|k: int|
                    0 <= k < collected.len() ==> (#[trigger] out@[k])@ == lossy_text(collected[k]),
            decreases rows@.len() - i,
        {
            let rec = &rows[i].record;
            proof {
                assert(rv.skip(i as int)[0] == rv[i as int]);
                assert(rv.skip(i as int).skip(1) =~= rv.skip(i + 1));
                assert(rv[i as int].columns == rows@[i as int].record@);
            }
            let mut listed = false;
            let mut bytes: Vec<u8> = Vec::new();
            if rec.columns.len() >= 3 {
                if col_text_eq(rec, 0, tag.as_slice()) {
                    match col_text(rec, 2) {
                        Some(b) => {
                            if !bytes_eq(b.as_slice(), seq_tag.as_slice()) {
                                listed = true;
                                bytes = b;
                            }
                        },
                        None => {},
                    }
                }
            }
            if listed {
                proof {
                    assert(spec_listed_table(rv[i as int].columns));
                    assert((collected + (seq![bytes@] + spec_table_names(rv.skip(i + 1)))) =~= (
                    collected.push(bytes@) + spec_table_names(rv.skip(i + 1))));
                }
                out.push(bytes_to_text(bytes.as_slice()));
                proof {
                    collected = collected.push(bytes@);
                }
            } else {
                proof {
                    assert(!spec_listed_table(rv[i as int].columns));
                }
            }
            i = i + 1;
        }
        proof {
            assert(rv.skip(rows@.len() as int) =~= Seq::<RowView>::empty());
            assert(collected + Seq::<Seq<u8>>::empty() =~= collected);
        }
        out
    }

    /// Collects, from the index B-tree rooted at `root`, the rowid of every
    /// entry whose indexed value is text equal to `lit`, in entry order.
    #[verifier::loop_isolation(false)]
    pub fn collect_index_rowids(&self, root: usize, lit: &String) -> (r: Vec<i64>)
        requires
            spec_db_wf(self@),
            crate::btree::spec_scan_feasible(self@, root as int),
        ensures
            forall|f: nat|
                #[trigger] spec_tree_ok(self@, root as int, f) ==> r@ == spec_index_rowids(
                    spec_subtree_scan(self@, root as int, f).0,
                    vstd::utf8::encode_utf8(lit@),
                ),
    {
        let ghost f0: nat = choose|f: nat|
            #[trigger] spec_tree_ok(self@, root as int, f) && spec_subtree_scan(
                self@,
                root as int,
                f,
            ).0.len() + spec_subtree_scan(self@, root as int, f).1 <= usize::MAX;
        proof {
            assert forall|f: nat| spec_tree_ok(self@, root as int, f) implies spec_subtree_scan(
                self@,
                root as int,
                f,
            ) == spec_subtree_scan(self@, root as int, f0) by {
                crate::btree::lemma_scan_fuel_irrelevant(self@, root as int, f, f0);
            }
        }
        let (rows, _skipped) = self.scan_tree(root);
        let ghost rv = rows@.map_values(|x: Row| x@);
        let ghost lb = vstd::utf8::encode_utf8(lit@);
        let lit_bytes: &[u8] = lit.as_str().as_bytes();
        let mut out: Vec<i64> = Vec::new();
        proof {
            assert(lit_bytes@ == lb);
            assert(rv.skip(0) =~= rv);
            assert(out@ + spec_index_rowids(rv, lb) =~= spec_index_rowids(rv, lb));
        }
        let mut i: usize = 0;
        while i < rows.len()
            invariant
                i <= rows@.len(),
                spec_index_rowids(rv, lb) == out@ + spec_index_rowids(rv.skip(i as int), lb),
            decreases rows@.len() - i,
        {
            let rec = &rows[i].record;
            proof {
                assert(rv.skip(i as int)[0] == rv[i as int]);
                assert(rv.skip(i as int).skip(1) =~= rv.skip(i + 1));
                assert(rv[i as int].columns == rows@[i as int].record@);
            }
            let nc = rec.columns.len();
            if nc >= 2 {
                if col_text_eq(rec, 0, lit_bytes) {
                    match col_integer(rec, nc - 1) {
                        Some(rowid) => {
                            proof {
                                assert(spec_index_entry_for(rv[i as int].columns, lb));
                                assert((out@ + (seq![rowid] + spec_index_rowids(
                                    rv.skip(i + 1),
                                    lb,
                                ))) =~= (out@.push(rowid) + spec_index_rowids(rv.skip(i + 1), lb)));
                            }
                            out.push(rowid);
                        },
                        None => {
                            proof {
                                assert(!spec_index_entry_for(rv[i as int].columns, lb));
                            }
                        },
                    }
                } else {
                    proof {
                        assert(!spec_index_entry_for(rv[i as int].columns, lb));
                    }
                }
            } else {
                proof {
                    assert(!spec_index_entry_for(rv[i as int].columns, lb));
                }
            }
            i = i + 1;
        }
        proof {
            assert(rv.skip(rows@.len() as int) =~= Seq::<RowView>::empty());
            assert(out@ + Seq::<i64>::empty() =~= out@);
        }
        out
    }
}

} // verus!
