use sqlite_reader::{Database, Sql};

const PAGE_SIZE: usize = 512;

fn magic_header(n_bytes: usize) -> Vec<u8> {
    let mut h = b"SQLite format 3\0".to_vec();
    h.extend_from_slice(&[(PAGE_SIZE >> 8) as u8, (PAGE_SIZE & 0xff) as u8]);
    h.resize(n_bytes, 0);
    h
}

fn record_payload(columns: &[(u8, Vec<u8>)]) -> Vec<u8> {
    let hlen = 1 + columns.len();
    assert!(hlen < 128);
    let mut payload = vec![hlen as u8];
    for (code, _) in columns {
        assert!(*code < 128);
        payload.push(*code);
    }
    for (_, body) in columns {
        payload.extend_from_slice(body);
    }
    payload
}

fn text_col(s: &str) -> (u8, Vec<u8>) {
    let b = s.as_bytes().to_vec();
    assert!(13 + 2 * b.len() < 128);
    ((13 + 2 * b.len()) as u8, b)
}

fn int_col(v: u8) -> (u8, Vec<u8>) {
    (1, vec![v])
}

/// Builds one leaf-table page holding the given `(rowid, payload)` cells.
/// `first` pages leave room for the 100-byte file header.
fn leaf_table_page(cells: &[(u8, Vec<u8>)], first: bool) -> Vec<u8> {
    let hoff = if first { 100 } else { 0 };
    let mut page = vec![0u8; PAGE_SIZE];
    page[hoff] = 13;
    page[hoff + 3] = (cells.len() >> 8) as u8;
    page[hoff + 4] = (cells.len() & 0xff) as u8;
    let mut end = PAGE_SIZE;
    let mut offsets = Vec::new();
    for (rowid, payload) in cells.iter().rev() {
        assert!(payload.len() < 128 && *rowid < 128);
        let cell_len = 2 + payload.len();
        end -= cell_len;
        page[end] = payload.len() as u8;
        page[end + 1] = *rowid;
        page[end + 2..end + 2 + payload.len()].copy_from_slice(payload);
        offsets.push(end as u16);
    }
    offsets.reverse();
    for (i, off) in offsets.iter().enumerate() {
        let p = hoff + 8 + 2 * i;
        page[p] = (off >> 8) as u8;
        page[p + 1] = (off & 0xff) as u8;
    }
    page
}

/// Builds one interior-table page: `(child, boundary key)` cells and the
/// right-most pointer.
fn interior_table_page(cells: &[(u32, u8)], rmp: u32) -> Vec<u8> {
    let mut page = vec![0u8; PAGE_SIZE];
    page[0] = 5;
    page[3] = (cells.len() >> 8) as u8;
    page[4] = (cells.len() & 0xff) as u8;
    page[8..12].copy_from_slice(&rmp.to_be_bytes());
    let mut end = PAGE_SIZE;
    let mut offsets = Vec::new();
    for (child, key) in cells.iter().rev() {
        end -= 5;
        page[end..end + 4].copy_from_slice(&child.to_be_bytes());
        page[end + 4] = *key;
        offsets.push(end as u16);
    }
    offsets.reverse();
    for (i, off) in offsets.iter().enumerate() {
        let p = 12 + 2 * i;
        page[p] = (off >> 8) as u8;
        page[p + 1] = (off & 0xff) as u8;
    }
    page
}

/// Assembles a file from full pages; the first page's buffer must already
/// leave its first 100 bytes free for the header.
fn build_file(mut pages: Vec<Vec<u8>>) -> Vec<u8> {
    let header = magic_header(100);
    pages[0][..100].copy_from_slice(&header);
    pages.concat()
}

/// A two-page database: the catalog and one table `t(id INTEGER, name
/// TEXT)` with rows (1, Alice) and (2, Bob).
fn two_page_db() -> Database {
    let catalog_row = record_payload(&[
        text_col("table"),
        text_col("t"),
        text_col("t"),
        int_col(2),
        text_col("CREATE TABLE t(id INTEGER, name TEXT)"),
    ]);
    let page1 = leaf_table_page(&[(1, catalog_row)], true);
    let rows = vec![
        (1u8, record_payload(&[int_col(1), text_col("Alice")])),
        (2u8, record_payload(&[int_col(2), text_col("Bob")])),
    ];
    let page2 = leaf_table_page(&rows, false);
    let file = build_file(vec![page1, page2]);
    Database::from_bytes(&file).unwrap()
}

/// A database whose table at page 2 is a two-level B-tree holding rowids 1
/// through 100, twenty per leaf, with strict boundary keys.
fn hundred_row_db() -> Database {
    let catalog_row = record_payload(&[
        text_col("table"),
        text_col("t"),
        text_col("t"),
        int_col(2),
        text_col("CREATE TABLE t(id INTEGER)"),
    ]);
    let page1 = leaf_table_page(&[(1, catalog_row)], true);
    let root = interior_table_page(&[(3, 21), (4, 41), (5, 61), (6, 81)], 7);
    let mut pages = vec![page1, root];
    for leaf in 0..5u8 {
        let rows: Vec<(u8, Vec<u8>)> = (0..20u8)
            .map(|k| {
                let rowid = leaf * 20 + k + 1;
                (rowid, record_payload(&[int_col(rowid)]))
            })
            .collect();
        pages.push(leaf_table_page(&rows, false));
    }
    let file = build_file(pages);
    Database::from_bytes(&file).unwrap()
}

fn select_of(names: &[&str], table: &str, pred: Option<(&str, &str)>) -> Sql {
    Sql {
        field_name: names.iter().map(|s| s.to_string()).collect(),
        selection: pred.map(|(c, v)| (c.to_string(), v.to_string())),
        tbl_name: table.to_string(),
    }
}

#[test]
fn end_to_end_two_page_file() {
    let db = two_page_db();
    assert_eq!(db.page_size(), PAGE_SIZE);

    let name = "t".to_string();
    let (root, sql) = db.find_table(&name).unwrap();
    assert_eq!(root, 2);
    assert_eq!(sql, "CREATE TABLE t(id INTEGER, name TEXT)");

    // COUNT(*) over t.
    assert_eq!(db.count_rows(root as usize), 2);

    // Unfiltered select of name.
    let create = select_of(&["id", "name"], "t", None);
    let select = select_of(&["name"], "t", None);
    let fields = select.get_fields(&create);
    assert_eq!(fields, vec![(1usize, "name".to_string())]);
    let mut row_set = Vec::new();
    let (lines, skipped) = db.read_table(root as usize, &select, &fields, &mut row_set);
    assert_eq!(lines, vec!["Alice".to_string(), "Bob".to_string()]);
    assert_eq!(skipped, 0);
    assert!(row_set.is_empty());

    // Filtered select name = 'Bob'.
    let filtered = select_of(&["name"], "t", Some(("name", "Bob")));
    let ffields = filtered.get_fields(&create);
    let mut out = Vec::new();
    let (lines2, _) = db.read_table(root as usize, &filtered, &ffields, &mut out);
    assert!(lines2.is_empty());
    assert_eq!(out, vec!["Bob".to_string()]);
}

#[test]
fn catalog_table_listing() {
    let db = two_page_db();
    assert_eq!(db.table_names(), vec!["t".to_string()]);
    let missing = "absent".to_string();
    assert_eq!(db.find_table(&missing), None);
}

#[test]
fn unconstrained_scan_completeness() {
    let db = hundred_row_db();
    assert_eq!(db.count_rows(2), 100);
    let create = select_of(&["id"], "t", None);
    let select = select_of(&["id"], "t", None);
    let fields = select.get_fields(&create);
    let mut row_set = Vec::new();
    let (lines, skipped) = db.read_table(2, &select, &fields, &mut row_set);
    assert_eq!(skipped, 0);
    let expect: Vec<String> = (1..=100).map(|v: i64| v.to_string()).collect();
    assert_eq!(lines, expect);
}

#[test]
fn key_range_scan_yields_exactly_the_candidates() {
    let db = hundred_row_db();
    let create = select_of(&["id"], "t", None);
    let select = select_of(&["id"], "t", None);
    let fields = select.get_fields(&create);
    let ids = vec![7i64, 42, 99];
    let mut row_set = Vec::new();
    let (lines, skipped) = db.read_ids_from_table(2, &select, &fields, &mut row_set, &ids);
    assert_eq!(skipped, 0);
    assert_eq!(
        lines,
        vec!["7".to_string(), "42".to_string(), "99".to_string()]
    );
}

#[test]
fn key_range_scan_empty_candidates() {
    let db = hundred_row_db();
    let select = select_of(&["id"], "t", None);
    let fields = select.get_fields(&select);
    let ids: Vec<i64> = Vec::new();
    let mut row_set = Vec::new();
    let (lines, skipped) = db.read_ids_from_table(2, &select, &fields, &mut row_set, &ids);
    assert!(lines.is_empty());
    assert_eq!(skipped, 0);
}

#[test]
fn repeated_traversals_are_identical() {
    let db = hundred_row_db();
    let select = select_of(&["id"], "t", None);
    let fields = select.get_fields(&select);
    let mut set_a = Vec::new();
    let mut set_b = Vec::new();
    let (first, sk1) = db.read_table(2, &select, &fields, &mut set_a);
    let (second, sk2) = db.read_table(2, &select, &fields, &mut set_b);
    assert_eq!(first, second);
    assert_eq!(sk1, sk2);
    assert_eq!(db.count_rows(2), db.count_rows(2));
}

#[test]
fn index_rowid_collection_and_sorting() {
    // A one-page index B-tree: entries (value text, rowid).
    let entries = vec![
        (0u8, record_payload(&[text_col("Bob"), int_col(9)])),
        (0u8, record_payload(&[text_col("Ann"), int_col(4)])),
        (0u8, record_payload(&[text_col("Bob"), int_col(2)])),
    ];
    // Leaf-index pages have no rowid varint, so build the page by hand.
    let mut page = vec![0u8; PAGE_SIZE];
    page[0] = 10;
    page[3] = 0;
    page[4] = entries.len() as u8;
    let mut end = PAGE_SIZE;
    let mut offsets = Vec::new();
    for (_, payload) in entries.iter().rev() {
        end -= 1 + payload.len();
        page[end] = payload.len() as u8;
        page[end + 1..end + 1 + payload.len()].copy_from_slice(payload);
        offsets.push(end as u16);
    }
    offsets.reverse();
    for (i, off) in offsets.iter().enumerate() {
        let p = 8 + 2 * i;
        page[p] = (off >> 8) as u8;
        page[p + 1] = (off & 0xff) as u8;
    }
    let catalog_row = record_payload(&[
        text_col("index"),
        text_col("i"),
        text_col("t"),
        int_col(2),
        text_col("CREATE INDEX i ON t(name)"),
    ]);
    let page1 = leaf_table_page(&[(1, catalog_row)], true);
    let file = build_file(vec![page1, page]);
    let db = Database::from_bytes(&file).unwrap();

    let lit = "Bob".to_string();
    let rowids = db.collect_index_rowids(2, &lit);
    assert_eq!(rowids, vec![9, 2]);
    let sorted = sqlite_reader::sort_dedup(&rowids);
    assert_eq!(sorted, vec![2, 9]);
}

#[test]
fn sort_dedup_orders_and_drops_duplicates() {
    let v = vec![5i64, 3, 5, 1, -7, 3];
    assert_eq!(sqlite_reader::sort_dedup(&v), vec![-7, 1, 3, 5]);
    let empty: Vec<i64> = Vec::new();
    assert_eq!(sqlite_reader::sort_dedup(&empty), empty);
}

#[test]
fn get_fields_defaults_unresolved_names_to_zero() {
    let create = select_of(&["id", "name"], "t", None);
    let select = select_of(&["name", "nope"], "t", None);
    assert_eq!(
        select.get_fields(&create),
        vec![(1usize, "name".to_string()), (0usize, "nope".to_string())]
    );
}

#[test]
fn print_rows_deduplicates() {
    let rows = vec![(1u8, record_payload(&[int_col(1), text_col("Bob")]))];
    let page_bytes = leaf_table_page(&rows, false);
    let header = sqlite_reader::DbHeader {
        magic: b"SQLite format 3\0".to_vec(),
        page_size: PAGE_SIZE,
    };
    let page = sqlite_reader::Page::new(1, header, &page_bytes).unwrap();
    let select = select_of(&["name"], "t", Some(("name", "Bob")));
    let create = select_of(&["id", "name"], "t", None);
    let fields = select.get_fields(&create);
    let mut set = Vec::new();
    select.print_rows(&page, 0, &fields, &mut set);
    select.print_rows(&page, 0, &fields, &mut set);
    assert_eq!(set, vec!["Bob".to_string()]);
    // A literal that matches nothing adds nothing.
    let miss = select_of(&["name"], "t", Some(("name", "Zed")));
    miss.print_rows(&page, 0, &fields, &mut set);
    assert_eq!(set, vec!["Bob".to_string()]);
}

#[test]
fn scan_skips_undecodable_cells_and_counts_them() {
    // Two cells: one good row, one whose record declares the reserved
    // serial type 10.
    let good = record_payload(&[int_col(1), text_col("ok")]);
    let bad = vec![2u8, 10]; // header length 2, invalid serial type
    let page1 = leaf_table_page(
        &[(
            1,
            record_payload(&[
                text_col("table"),
                text_col("t"),
                text_col("t"),
                int_col(2),
                text_col("CREATE TABLE t(id INTEGER, name TEXT)"),
            ]),
        )],
        true,
    );
    let page2 = leaf_table_page(&[(1, good), (2, bad)], false);
    let db = Database::from_bytes(&build_file(vec![page1, page2])).unwrap();

    let create = select_of(&["id", "name"], "t", None);
    let select = select_of(&["name"], "t", None);
    let fields = select.get_fields(&create);
    let mut row_set = Vec::new();
    let (lines, skipped) = db.read_table(2, &select, &fields, &mut row_set);
    assert_eq!(lines, vec!["ok".to_string()]);
    assert_eq!(skipped, 1);
    // The count still covers every leaf cell.
    assert_eq!(db.count_rows(2), 2);
}
