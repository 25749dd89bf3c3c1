use sqlite_reader::dispatch::run_command;
use sqlite_reader::error::Error;
use sqlite_reader::varint::encode_varint;

#[derive(Clone)]
enum Col<'a> {
    Null,
    Int8(u8),
    Text(&'a str),
}

fn serial_of(c: &Col) -> u64 {
    match c {
        Col::Null => 0,
        Col::Int8(_) => 1,
        Col::Text(s) => 13 + 2 * (s.len() as u64),
    }
}

fn body_of(c: &Col) -> Vec<u8> {
    match c {
        Col::Null => Vec::new(),
        Col::Int8(v) => vec![*v],
        Col::Text(s) => s.as_bytes().to_vec(),
    }
}

fn record(cols: &[Col]) -> Vec<u8> {
    let mut serials: Vec<u8> = Vec::new();
    for c in cols {
        serials.extend(encode_varint(serial_of(c)));
    }
    let hs = 1 + serials.len();
    assert!(hs < 128);
    let mut rec = vec![hs as u8];
    rec.extend(serials);
    for c in cols {
        rec.extend(body_of(c));
    }
    rec
}

fn table_leaf_cell(rowid: u64, cols: &[Col]) -> Vec<u8> {
    let rec = record(cols);
    let mut cell = encode_varint(rec.len() as u64);
    cell.extend(encode_varint(rowid));
    cell.extend(rec);
    cell
}

fn index_leaf_cell(cols: &[Col]) -> Vec<u8> {
    let rec = record(cols);
    let mut cell = encode_varint(rec.len() as u64);
    cell.extend(rec);
    cell
}

fn table_interior_cell(child: u32, rowid: u64) -> Vec<u8> {
    let mut cell = child.to_be_bytes().to_vec();
    cell.extend(encode_varint(rowid));
    cell
}

fn build_page(
    psz: usize,
    page1: bool,
    ptype: u8,
    right_child: Option<u32>,
    cells: &[Vec<u8>],
) -> Vec<u8> {
    let mut page = vec![0u8; psz];
    let h = if page1 { 100 } else { 0 };
    page[h] = ptype;
    let cc = cells.len() as u16;
    page[h + 3..h + 5].copy_from_slice(&cc.to_be_bytes());
    let hdr_len = if right_child.is_some() { 12 } else { 8 };
    if let Some(rc) = right_child {
        page[h + 8..h + 12].copy_from_slice(&rc.to_be_bytes());
    }
    let ptr = h + hdr_len;
    let mut pos = ptr + 2 * cells.len();
    for (i, cell) in cells.iter().enumerate() {
        page[ptr + 2 * i..ptr + 2 * i + 2].copy_from_slice(&(pos as u16).to_be_bytes());
        page[pos..pos + cell.len()].copy_from_slice(cell);
        pos += cell.len();
    }
    page
}

fn schema_row_cell(rowid: u64, rtype: &str, name: &str, tbl: &str, root: u8, sql: &str) -> Vec<u8> {
    table_leaf_cell(
        rowid,
        &[
            Col::Text(rtype),
            Col::Text(name),
            Col::Text(tbl),
            Col::Int8(root),
            Col::Text(sql),
        ],
    )
}

fn build_db(psz: usize, pages: Vec<Vec<u8>>) -> Vec<u8> {
    let mut db = Vec::new();
    for p in pages {
        assert_eq!(p.len(), psz);
        db.extend(p);
    }
    db[16..18].copy_from_slice(&(psz as u16).to_be_bytes());
    db
}

fn run(db: &Vec<u8>, cmd: &str) -> Result<Vec<String>, Error> {
    run_command(db, &cmd.as_bytes().to_vec())
        .map(|lines| lines.into_iter().map(|l| String::from_utf8(l).unwrap()).collect())
}

const PSZ: usize = 4096;

fn apples_rows() -> Vec<Vec<u8>> {
    vec![
        table_leaf_cell(1, &[Col::Null, Col::Text("Granny Smith"), Col::Text("Light Green")]),
        table_leaf_cell(2, &[Col::Null, Col::Text("Fuji"), Col::Text("Red")]),
        table_leaf_cell(3, &[Col::Null, Col::Text("Honeycrisp"), Col::Text("Yellow")]),
        table_leaf_cell(4, &[Col::Null, Col::Text("Golden Delicious"), Col::Text("Yellow")]),
    ]
}

fn fixture_fruit() -> Vec<u8> {
    let schema = vec![
        schema_row_cell(
            1,
            "table",
            "apples",
            "apples",
            2,
            "CREATE TABLE apples (id INTEGER PRIMARY KEY, name TEXT, color TEXT)",
        ),
        schema_row_cell(
            2,
            "table",
            "oranges",
            "oranges",
            3,
            "CREATE TABLE oranges (id INTEGER PRIMARY KEY, name TEXT)",
        ),
    ];
    let page1 = build_page(PSZ, true, 0x0d, None, &schema);
    let page2 = build_page(PSZ, false, 0x0d, None, &apples_rows());
    let oranges = vec![
        table_leaf_cell(1, &[Col::Null, Col::Text("Valencia")]),
        table_leaf_cell(2, &[Col::Null, Col::Text("Navel")]),
    ];
    let page3 = build_page(PSZ, false, 0x0d, None, &oranges);
    build_db(PSZ, vec![page1, page2, page3])
}

fn fixture_three_tables() -> Vec<u8> {
    let schema = vec![
        schema_row_cell(
            1,
            "table",
            "apples",
            "apples",
            2,
            "CREATE TABLE apples (id INTEGER PRIMARY KEY, name TEXT, color TEXT)",
        ),
        schema_row_cell(
            2,
            "table",
            "oranges",
            "oranges",
            3,
            "CREATE TABLE oranges (id INTEGER PRIMARY KEY, name TEXT)",
        ),
        schema_row_cell(
            3,
            "table",
            "grapes",
            "grapes",
            4,
            "CREATE TABLE grapes (id INTEGER PRIMARY KEY, name TEXT)",
        ),
    ];
    let page1 = build_page(PSZ, true, 0x0d, None, &schema);
    let page2 = build_page(PSZ, false, 0x0d, None, &apples_rows());
    let page3 = build_page(PSZ, false, 0x0d, None, &[]);
    let page4 = build_page(PSZ, false, 0x0d, None, &[]);
    build_db(PSZ, vec![page1, page2, page3, page4])
}

fn companies_rows() -> Vec<Vec<u8>> {
    vec![
        table_leaf_cell(1, &[Col::Null, Col::Text("AcmeCorp"), Col::Text("eritrea")]),
        table_leaf_cell(2, &[Col::Null, Col::Text("Umbrella"), Col::Text("france")]),
        table_leaf_cell(3, &[Col::Null, Col::Text("RedSea"), Col::Text("eritrea")]),
    ]
}

fn fixture_companies(with_index: bool) -> Vec<u8> {
    let mut schema = vec![schema_row_cell(
        1,
        "table",
        "companies",
        "companies",
        2,
        "CREATE TABLE companies (id INTEGER PRIMARY KEY, name TEXT, country TEXT)",
    )];
    if with_index {
        schema.push(schema_row_cell(
            2,
            "index",
            "idx_companies_country",
            "companies",
            3,
            "CREATE INDEX idx_companies_country ON companies (country)",
        ));
    }
    let page1 = build_page(PSZ, true, 0x0d, None, &schema);
    let page2 = build_page(PSZ, false, 0x0d, None, &companies_rows());
    let index_cells = vec![
        index_leaf_cell(&[Col::Text("eritrea"), Col::Int8(1)]),
        index_leaf_cell(&[Col::Text("eritrea"), Col::Int8(3)]),
        index_leaf_cell(&[Col::Text("france"), Col::Int8(2)]),
    ];
    let page3 = build_page(PSZ, false, 0x0a, None, &index_cells);
    build_db(PSZ, vec![page1, page2, page3])
}

fn fixture_interior() -> Vec<u8> {
    let schema = vec![schema_row_cell(
        1,
        "table",
        "nums",
        "nums",
        2,
        "CREATE TABLE nums (id INTEGER PRIMARY KEY, val TEXT)",
    )];
    let page1 = build_page(PSZ, true, 0x0d, None, &schema);
    let page2 = build_page(PSZ, false, 0x05, Some(4), &[table_interior_cell(3, 2)]);
    let left = vec![
        table_leaf_cell(1, &[Col::Null, Col::Text("one")]),
        table_leaf_cell(2, &[Col::Null, Col::Text("two")]),
    ];
    let page3 = build_page(PSZ, false, 0x0d, None, &left);
    let right = vec![
        table_leaf_cell(3, &[Col::Null, Col::Text("three")]),
        table_leaf_cell(4, &[Col::Null, Col::Text("four")]),
        table_leaf_cell(5, &[Col::Null, Col::Text("five")]),
    ];
    let page4 = build_page(PSZ, false, 0x0d, None, &right);
    build_db(PSZ, vec![page1, page2, page3, page4])
}

#[test]
fn dbinfo_reports_page_size_and_table_count() {
    let db = fixture_three_tables();
    let lines = run(&db, ".dbinfo").unwrap();
    assert_eq!(lines, vec!["database page size: 4096", "number of tables: 3"]);
}

#[test]
fn tables_lists_names_in_storage_order() {
    let db = fixture_fruit();
    let lines = run(&db, ".tables").unwrap();
    assert_eq!(lines, vec!["apples oranges"]);
}

#[test]
fn tables_empty_schema_prints_nothing() {
    let page1 = build_page(PSZ, true, 0x0d, None, &[]);
    let db = build_db(PSZ, vec![page1]);
    let lines = run(&db, ".tables").unwrap();
    assert!(lines.is_empty());
}

#[test]
fn count_rows() {
    let db = fixture_fruit();
    let lines = run(&db, "SELECT COUNT(*) FROM apples").unwrap();
    assert_eq!(lines, vec!["4"]);
}

#[test]
fn count_rows_with_semicolon() {
    let db = fixture_fruit();
    let lines = run(&db, "SELECT COUNT(*) FROM apples;").unwrap();
    assert_eq!(lines, vec!["4"]);
}

#[test]
fn select_single_column_in_rowid_order() {
    let db = fixture_fruit();
    let lines = run(&db, "SELECT name FROM apples").unwrap();
    assert_eq!(lines, vec!["Granny Smith", "Fuji", "Honeycrisp", "Golden Delicious"]);
}

#[test]
fn select_keywords_are_case_insensitive() {
    let db = fixture_fruit();
    let lines = run(&db, "select name from apples").unwrap();
    assert_eq!(lines.len(), 4);
    assert_eq!(lines[0], "Granny Smith");
}

#[test]
fn select_multi_column_joins_with_pipe() {
    let db = fixture_fruit();
    let lines = run(&db, "SELECT name, color FROM apples").unwrap();
    assert_eq!(
        lines,
        vec![
            "Granny Smith|Light Green",
            "Fuji|Red",
            "Honeycrisp|Yellow",
            "Golden Delicious|Yellow"
        ]
    );
}

#[test]
fn select_rowid_alias_prints_decimal() {
    let db = fixture_fruit();
    let lines = run(&db, "SELECT id, name FROM apples").unwrap();
    assert_eq!(lines[0], "1|Granny Smith");
    assert_eq!(lines[3], "4|Golden Delicious");
}

#[test]
fn select_where_filters_rows() {
    let db = fixture_fruit();
    let lines = run(&db, "SELECT name, color FROM apples WHERE color = 'Yellow'").unwrap();
    assert_eq!(lines, vec!["Honeycrisp|Yellow", "Golden Delicious|Yellow"]);
}

#[test]
fn select_where_quoted_value_with_space() {
    let db = fixture_fruit();
    let lines = run(&db, "SELECT name FROM apples WHERE color = 'Light Green'").unwrap();
    assert_eq!(lines, vec!["Granny Smith"]);
}

#[test]
fn select_where_double_quoted_value() {
    let db = fixture_fruit();
    let lines = run(&db, "SELECT name FROM apples WHERE color = \"Red\"").unwrap();
    assert_eq!(lines, vec!["Fuji"]);
}

#[test]
fn select_where_no_match_prints_nothing() {
    let db = fixture_fruit();
    let lines = run(&db, "SELECT name FROM apples WHERE color = 'Blue'").unwrap();
    assert!(lines.is_empty());
}

#[test]
fn select_where_through_index() {
    let db = fixture_companies(true);
    let lines = run(&db, "SELECT id, name FROM companies WHERE country = 'eritrea'").unwrap();
    assert_eq!(lines, vec!["1|AcmeCorp", "3|RedSea"]);
}

#[test]
fn index_and_scan_agree() {
    let with_index = fixture_companies(true);
    let without_index = fixture_companies(false);
    let q = "SELECT id, name FROM companies WHERE country = 'eritrea'";
    let a = run(&with_index, q).unwrap();
    let b = run(&without_index, q).unwrap();
    assert_eq!(a, b);
    assert_eq!(a, vec!["1|AcmeCorp", "3|RedSea"]);
}

#[test]
fn index_lookup_returns_matching_rowids() {
    let db = fixture_companies(true);
    let target = b"eritrea".to_vec();
    let rowids = sqlite_reader::visitors::scan_index_btree_for_value(&db, PSZ, 3, &target).unwrap();
    assert_eq!(rowids, vec![1, 3]);
}

#[test]
fn interior_pages_are_walked_depth_first() {
    let db = fixture_interior();
    let count = run(&db, "SELECT COUNT(*) FROM nums").unwrap();
    assert_eq!(count, vec!["5"]);
    let vals = run(&db, "SELECT val FROM nums").unwrap();
    assert_eq!(vals, vec!["one", "two", "three", "four", "five"]);
}

#[test]
fn count_matches_full_projection() {
    let db = fixture_interior();
    let count = run(&db, "SELECT COUNT(*) FROM nums").unwrap();
    let rows = run(&db, "SELECT id, val FROM nums").unwrap();
    assert_eq!(count[0].parse::<usize>().unwrap(), rows.len());
}

#[test]
fn find_by_rowid_returns_aliased_decimal() {
    let db = fixture_fruit();
    let idxs = vec![0usize, 1usize];
    let row = sqlite_reader::visitors::scan_table_btree_for_rowid(&db, PSZ, 2, 3, &idxs)
        .unwrap()
        .unwrap();
    assert_eq!(row[0], b"3".to_vec());
    assert_eq!(row[1], b"Honeycrisp".to_vec());
}

#[test]
fn find_by_rowid_absent_is_none() {
    let db = fixture_fruit();
    let idxs = vec![0usize];
    let r = sqlite_reader::visitors::scan_table_btree_for_rowid(&db, PSZ, 2, 99, &idxs).unwrap();
    assert!(r.is_none());
}

#[test]
fn tables_count_equals_table_rows() {
    let db = fixture_fruit();
    let names = sqlite_reader::schema::read_table_names(&db).unwrap();
    let rows = sqlite_reader::schema::read_schema_rows(&db).unwrap();
    let table_rows = rows.iter().filter(|r| r.row_type == b"table".to_vec()).count();
    assert_eq!(names.len(), table_rows);
}

#[test]
fn schema_rows_carry_all_five_columns() {
    let db = fixture_fruit();
    let rows = sqlite_reader::schema::read_schema_rows(&db).unwrap();
    assert_eq!(rows.len(), 2);
    assert_eq!(rows[0].row_type, b"table".to_vec());
    assert_eq!(rows[0].name, b"apples".to_vec());
    assert_eq!(rows[0].tbl_name, b"apples".to_vec());
    assert_eq!(rows[0].rootpage, 2);
    assert!(rows[0].sql.starts_with(b"CREATE TABLE apples"));
}

#[test]
fn record_sizes_account_for_payload() {
    let db = fixture_fruit();
    let page = sqlite_reader::page::read_page(&db, PSZ, 2).unwrap();
    let hdr = sqlite_reader::page::parse_page_header(&page, 2).unwrap();
    assert_eq!(hdr.page_type, 0x0d);
    assert_eq!(hdr.cell_count, 4);
    let off = sqlite_reader::page::cell_pointer(&page, &hdr, 0) as usize;
    let (payload, rowid, serials, _body) =
        sqlite_reader::record::parse_table_cell(&page, off).unwrap();
    assert_eq!(rowid, 1);
    assert_eq!(serials, vec![0, 13 + 2 * 12, 13 + 2 * 11]);
    let header_size: u64 = 1 + serials.len() as u64;
    let body_sum: u64 = serials
        .iter()
        .map(|s| sqlite_reader::serial::serial_type_size(*s) as u64)
        .sum();
    assert_eq!(payload, header_size + body_sum);
}

#[test]
fn unknown_command_is_rejected() {
    let db = fixture_fruit();
    assert_eq!(run(&db, "DROP TABLE apples"), Err(Error::UnknownCommand));
    assert_eq!(run(&db, ".schema"), Err(Error::UnknownCommand));
    assert_eq!(run(&db, "SELECT name FROM"), Err(Error::UnknownCommand));
    assert_eq!(run(&db, "SELECT name FROM apples WHERE color = 'open"), Err(Error::UnknownCommand));
}

#[test]
fn missing_table_is_reported() {
    let db = fixture_fruit();
    assert_eq!(run(&db, "SELECT COUNT(*) FROM pears"), Err(Error::TableNotFound));
    assert_eq!(run(&db, "SELECT name FROM pears"), Err(Error::TableNotFound));
}

#[test]
fn missing_column_is_reported() {
    let db = fixture_fruit();
    assert_eq!(run(&db, "SELECT taste FROM apples"), Err(Error::UnknownColumn));
}

#[test]
fn short_image_is_reported() {
    let db = vec![0u8; 50];
    assert_eq!(run(&db, ".dbinfo"), Err(Error::ShortRead));
    assert_eq!(run(&db, ".tables"), Err(Error::ShortRead));
}

#[test]
fn image_shorter_than_page_is_reported() {
    let mut db = fixture_fruit();
    db.truncate(PSZ - 1);
    assert_eq!(run(&db, ".tables"), Err(Error::ShortRead));
}

#[test]
fn tiny_page_size_is_corrupt() {
    let mut db = fixture_fruit();
    db[16..18].copy_from_slice(&50u16.to_be_bytes());
    assert_eq!(run(&db, ".tables"), Err(Error::CorruptPage));
}

#[test]
fn page_zero_is_corrupt() {
    let db = fixture_fruit();
    assert_eq!(
        sqlite_reader::page::read_page(&db, PSZ, 0),
        Err(Error::CorruptPage)
    );
}

#[test]
fn overflowing_payload_is_unsupported() {
    // A cell whose declared payload reaches past the page boundary.
    let mut cell = encode_varint(5000);
    cell.extend(encode_varint(1));
    cell.extend(record(&[Col::Text("x")]));
    let page = build_page(PSZ, false, 0x0d, None, &[cell]);
    let off = 10usize;
    assert_eq!(
        sqlite_reader::record::parse_table_cell(&page, off),
        Err(Error::OverflowUnsupported)
    );
}

#[test]
fn truncated_record_is_reported() {
    let page: Vec<u8> = vec![0x80; 16];
    assert_eq!(
        sqlite_reader::record::parse_table_cell(&page, 0),
        Err(Error::Truncated)
    );
}

#[test]
fn cyclic_pages_are_corrupt() {
    // Page 2 is an interior page whose right child points back to itself.
    let schema = vec![schema_row_cell(
        1,
        "table",
        "loop",
        "loop",
        2,
        "CREATE TABLE loop (id INTEGER PRIMARY KEY)",
    )];
    let page1 = build_page(PSZ, true, 0x0d, None, &schema);
    let page2 = build_page(PSZ, false, 0x05, Some(2), &[]);
    let db = build_db(PSZ, vec![page1, page2]);
    assert_eq!(run(&db, "SELECT COUNT(*) FROM loop"), Err(Error::CorruptPage));
}

#[test]
fn index_interior_pages_are_descended() {
    // A two-level index: page 3 is an interior index page pointing at
    // leaves 4 and 5.
    let schema = vec![
        schema_row_cell(
            1,
            "table",
            "companies",
            "companies",
            2,
            "CREATE TABLE companies (id INTEGER PRIMARY KEY, name TEXT, country TEXT)",
        ),
        schema_row_cell(
            2,
            "index",
            "idx_companies_country",
            "companies",
            3,
            "CREATE INDEX idx_companies_country ON companies (country)",
        ),
    ];
    let page1 = build_page(PSZ, true, 0x0d, None, &schema);
    let page2 = build_page(PSZ, false, 0x0d, None, &companies_rows());
    let mut sep = 4u32.to_be_bytes().to_vec();
    sep.extend(index_leaf_cell(&[Col::Text("eritrea"), Col::Int8(3)]));
    let page3 = build_page(PSZ, false, 0x02, Some(5), &[sep]);
    let left = vec![
        index_leaf_cell(&[Col::Text("eritrea"), Col::Int8(1)]),
        index_leaf_cell(&[Col::Text("eritrea"), Col::Int8(3)]),
    ];
    let page4 = build_page(PSZ, false, 0x0a, None, &left);
    let right = vec![index_leaf_cell(&[Col::Text("france"), Col::Int8(2)])];
    let page5 = build_page(PSZ, false, 0x0a, None, &right);
    let db = build_db(PSZ, vec![page1, page2, page3, page4, page5]);
    let lines = run(&db, "SELECT id, name FROM companies WHERE country = 'eritrea'").unwrap();
    assert_eq!(lines, vec!["1|AcmeCorp", "3|RedSea"]);
    let rowids =
        sqlite_reader::visitors::scan_index_btree_for_value(&db, PSZ, 3, &b"eritrea".to_vec())
            .unwrap();
    assert_eq!(rowids, vec![1, 3]);
}
