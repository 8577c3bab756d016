//! The structured query, and row projection against it.
//!
//! SQL text itself is parsed outside this library; what arrives here is the
//! structured form: a table name, the requested column names, and at most
//! one equality predicate whose literal is already unquoted.

use vstd::prelude::*;

use crate::column::{SerialType, ValueView};
use crate::page::{spec_page_wf, spec_read_cell, Page};
use crate::record::Record;
use crate::column::SerialValue;
use crate::render::spec_value_text;
use vstd::string::StringExecFns;

verus! {

/// A structured query: the requested column names, at most one equality
/// predicate (column name, literal), and the table it runs against.  For a
/// parsed `CREATE TABLE` statement, `field_name` is the declared column
/// order and `selection` is empty.
#[derive(Debug, Clone, PartialEq, Eq)]
pub struct Sql {
    pub field_name: Vec<String>,
    pub selection: Option<(String, String)>,
    pub tbl_name: String,
}

/// The first index of `name` in the declared column list, or 0 when the
/// name resolves nowhere.
pub open spec fn spec_find_ordinal(decl: Seq<String>, name: Seq<char>, i: int) -> int
    decreases decl.len() - i,
{
    if i < 0 || i >= decl.len() {
        0
    } else if decl[i]@ == name {
        i
    } else {
        spec_find_ordinal(decl, name, i + 1)
    }
}

/// The display text of column `idx` of a row, or empty text when the row
/// has no such column.
pub open spec fn spec_field_text(cols: Seq<(SerialType, ValueView)>, idx: int) -> Seq<char> {
    if 0 <= idx < cols.len() {
        spec_value_text(cols[idx].1)
    } else {
        Seq::empty()
    }
}

/// The projected display line of a row: the requested fields' texts joined
/// with `|`.
pub open spec fn spec_project_line(
    cols: Seq<(SerialType, ValueView)>,
    fields: Seq<(usize, String)>,
) -> Seq<char> {
    crate::render::spec_join(
        fields.map_values(|f: (usize, String)| spec_field_text(cols, f.0 as int)),
    )
}

/// Whether some column of the row is text equal to the literal's UTF-8
/// bytes.
pub open spec fn spec_row_matches(cols: Seq<(SerialType, ValueView)>, lit: Seq<u8>) -> bool {
    exists|j: int| 0 <= j < cols.len() && (#[trigger] cols[j]).1 == ValueView::Text(lit)
}

/// Inserting into a deduplicating list: unchanged when the line is present.
pub open spec fn spec_set_insert(set0: Seq<Seq<char>>, line: Seq<char>) -> Seq<Seq<char>> {
    if set0.contains(line) {
        set0
    } else {
        set0.push(line)
    }
}

/// What one `print_rows` call leaves in the output set: unchanged unless
/// the query has a predicate, the cell decodes to a record, and some column
/// is text equal to the predicate's literal; then the row's projected line
/// joins the set if it is not already there.
pub open spec fn spec_print_rows(
    sel: Option<(String, String)>,
    p: crate::page::PageView,
    i: int,
    fields: Seq<(usize, String)>,
    set0: Seq<Seq<char>>,
) -> Seq<Seq<char>> {
    match sel {
        None => set0,
        Some((_, lit)) => match spec_read_cell(p, i) {
            Err(_) => set0,
            Ok(cc) => match cc.columns {
                None => set0,
                Some(cols) => if spec_row_matches(cols, vstd::utf8::encode_utf8(lit@)) {
                    spec_set_insert(set0, spec_project_line(cols, fields))
                } else {
                    set0
                },
            },
        },
    }
}

/// Compares two byte slices.
pub(crate) fn bytes_eq(a: &[u8], b: &[u8]) -> (r: bool)
    ensures
        r == (a@ == b@),
{
    if a.len() != b.len() {
        return false;
    }
    let mut j: usize = 0;
    while j < a.len()
        invariant
            a@.len() == b@.len(),
            j <= a@.len(),
            forall|k: int| 0 <= k < j ==> a@[k] == b@[k],
        decreases a@.len() - j,
    {
        if a[j] != b[j] {
            return false;
        }
        j = j + 1;
    }
    proof {
        assert(a@ =~= b@);
    }
    true
}

/// Compares two strings by their characters.
pub(crate) fn string_eq(a: &String, b: &String) -> (r: bool)
    ensures
        r == (a@ == b@),
{
    *a == *b
}

/// Whether the deduplicating list already holds `line`.
pub(crate) fn set_contains(set: &Vec<String>, line: &String) -> (r: bool)
    ensures
        r == set@.map_values(|s: String| s@).contains(line@),
{
    let ghost views = set@.map_values(|s: String| s@);
    let mut j: usize = 0;
    while j < set.len()
        invariant
            views == set@.map_values(|s: String| s@),
            j <= set@.len(),
            forall|k: int| 0 <= k < j ==> views[k] != line@,
        decreases set@.len() - j,
    {
        if string_eq(&set[j], line) {
            proof {
                assert(views[j as int] == line@);
            }
            return true;
        }
        j = j + 1;
    }
    false
}

/// The display text of column `idx` of the record.
fn field_text(rec: &Record, idx: usize) -> (r: String)
    ensures
        r@ == spec_field_text(rec@, idx as int),
{
    if idx < rec.columns.len() {
        rec.columns[idx].data().display()
    } else {
        String::new()
    }
}

/// Joins the requested fields' texts from `k` on with `|`.
fn join_fields_from(rec: &Record, fields: &Vec<(usize, String)>, k: usize) -> (r: String)
    requires
        k <= fields@.len(),
    ensures
        r@ == crate::render::spec_join(
            fields@.skip(k as int).map_values(|f: (usize, String)| spec_field_text(rec@, f.0 as int)),
        ),
    decreases fields@.len() - k,
{
    let ghost parts = fields@.skip(k as int).map_values(
        |f: (usize, String)| spec_field_text(rec@, f.0 as int),
    );
    if k >= fields.len() {
        proof {
            assert(parts =~= Seq::<Seq<char>>::empty());
        }
        return String::new();
    }
    let mut s = field_text(rec, fields[k].0);
    proof {
        assert(parts[0] == spec_field_text(rec@, fields@[k as int].0 as int));
    }
    if k + 1 < fields.len() {
        proof {
            reveal_strlit("|");
        }
        s.append("|");
        let rest = join_fields_from(rec, fields, k + 1);
        s.append(rest.as_str());
        proof {
            assert(fields@.skip(k as int).skip(1) =~= fields@.skip(k + 1));
            assert(parts.skip(1) =~= fields@.skip(k + 1).map_values(
                |f: (usize, String)| spec_field_text(rec@, f.0 as int),
            ));
            assert("|"@ =~= seq!['|']);
            assert(s@ =~= parts[0] + seq!['|'] + crate::render::spec_join(parts.skip(1)));
        }
    } else {
        proof {
            assert(parts.len() == 1);
        }
    }
    s
}

/// Builds the projected display line of a decoded record.
pub fn project_line(rec: &Record, fields: &Vec<(usize, String)>) -> (r: String)
    ensures
        r@ == spec_project_line(rec@, fields@),
{
    let r = join_fields_from(rec, fields, 0);
    proof {
        assert(fields@.skip(0) =~= fields@);
    }
    r
}

/// Whether some column of the record is text equal to `lit`'s UTF-8 bytes.
#[verifier::loop_isolation(false)]
pub(crate) fn record_matches(rec: &Record, lit: &String) -> (r: bool)
    ensures
        r == spec_row_matches(rec@, vstd::utf8::encode_utf8(lit@)),
{
    let lit_bytes: &[u8] = lit.as_str().as_bytes();
    let ghost lb = vstd::utf8::encode_utf8(lit@);
    proof {
        assert(lit_bytes@ == lb);
    }
    let mut j: usize = 0;
    while j < rec.columns.len()
        invariant
            lit_bytes@ == lb,
            j <= rec.columns@.len(),
            forall|k: int| 0 <= k < j ==> (#[trigger] rec@[k]).1 != ValueView::Text(lb),
        decreases rec.columns@.len() - j,
    {
        match rec.columns[j].data() {
            SerialValue::Text(b) => {
                if bytes_eq(b.as_slice(), lit_bytes) {
                    proof {
                        assert(rec@[j as int] == (rec.columns@[j as int])@);
                        assert(rec@[j as int].1 == ValueView::Text(lb));
                        assert((j as int) < rec@.len());
                        assert(spec_row_matches(rec@, lb));
                    }
                    return true;
                }
            },
            _ => {},
        }
        proof {
            assert(rec@[j as int] == (rec.columns@[j as int])@);
        }
        j = j + 1;
    }
    false
}

impl Sql {
    /// Resolves each requested column name to its ordinal in the declared
    /// column order of `create`, defaulting to ordinal 0 for a name that
    /// resolves nowhere.
    pub fn get_fields(&self, create: &Sql) -> (r: Vec<(usize, String)>)
        ensures
            r@.len() == self.field_name@.len(),
            forall|i: int|
                0 <= i < r@.len() ==> (#[trigger] r@[i]).1@ == self.field_name@[i]@ && r@[i].0 as int
                    == spec_find_ordinal(create.field_name@, self.field_name@[i]@, 0),
    {
        let mut r: Vec<(usize, String)> = Vec::new();
        let mut i: usize = 0;
        while i < self.field_name.len()
            invariant
                i <= self.field_name@.len(),
                r@.len() == i,
                forall|k: int|
                    0 <= k < i ==> (#[trigger] r@[k]).1@ == self.field_name@[k]@ && r@[k].0 as int
                        == spec_find_ordinal(create.field_name@, self.field_name@[k]@, 0),
            decreases self.field_name@.len() - i,
        {
            let name = &self.field_name[i];
            let ord = find_ordinal(&create.field_name, name);
            r.push((ord, name.clone()));
            i = i + 1;
        }
        r
    }
}

/// Finds the first index of `name` in `decl`, or 0 when absent.
fn find_ordinal(decl: &Vec<String>, name: &String) -> (r: usize)
    ensures
        r as int == spec_find_ordinal(decl@, name@, 0),
{
    let mut j: usize = 0;
    while j < decl.len()
        invariant
            j <= decl@.len(),
            spec_find_ordinal(decl@, name@, 0) == spec_find_ordinal(decl@, name@, j as int),
        decreases decl@.len() - j,
    {
        if string_eq(&decl[j], name) {
            return j;
        }
        j = j + 1;
    }
    0
}

impl Sql {
    /// Applies the query's predicate to one cell of a page and, on a match,
    /// inserts the row's projected line into the deduplicating output set.
    /// Without a predicate, or when the cell does not decode to a record,
    /// the set is left unchanged.
    pub fn print_rows(&self, page: &Page, i: u16, fields: &Vec<(usize, String)>, set: &mut Vec<
        String,
    >)
        requires
            spec_page_wf(page@),
        ensures
            final(set)@.map_values(|s: String| s@) == spec_print_rows(
                self.selection,
                page@,
                i as int,
                fields@,
                old(set)@.map_values(|s: String| s@),
            ),
    {
        let lit: &String = match &self.selection {
            None => { return },
            Some((_, l)) => l,
        };
        let cv = match page.read_cell(i) {
            Ok(cv) => cv,
            Err(_) => { return },
        };
        let rec = match cv.record {
            Some(rec) => rec,
            None => { return },
        };
        if record_matches(&rec, lit) {
            let line = project_line(&rec, fields);
            if !set_contains(set, &line) {
                proof {
                    let views = set@.map_values(|s: String| s@);
                    assert((set@.push(line)).map_values(|s: String| s@) =~= views.push(line@));
                }
                set.push(line);
            }
        }
    }
}

} // verus!
