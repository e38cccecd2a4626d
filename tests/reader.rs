use sqlite_reader::{
    execute_command, read_varint, Cell, ComparisonOperator, Database, DbError, Record, RecordHeader, RecordValue,
    SchemaObject, TableSchema, WhereCondition, AppMode, ViewState,
};

/// A value to store in a test record.
#[derive(Clone)]
enum V {
    Null,
    Int(i64),
    Text(&'static str),
}

fn varint(v: u64) -> Vec<u8> {
    if v >= 1u64 << 56 {
        let mut out = Vec::new();
        let hi = v >> 8;
        for i in (0..8).rev() {
            out.push(0x80 | ((hi >> (7 * i)) & 0x7f) as u8);
        }
        out.push((v & 0xff) as u8);
        return out;
    }
    let mut groups = vec![(v & 0x7f) as u8];
    let mut rest = v >> 7;
    while rest > 0 {
        groups.push(0x80 | (rest & 0x7f) as u8);
        rest >>= 7;
    }
    groups.reverse();
    groups
}

fn record(values: &[V]) -> Vec<u8> {
    let mut types = Vec::new();
    let mut body = Vec::new();
    for v in values {
        match v {
            V::Null => types.extend(varint(0)),
            V::Int(i) => {
                if *i >= -128 && *i <= 127 {
                    types.extend(varint(1));
                    body.push(*i as i8 as u8);
                } else if *i >= -32768 && *i <= 32767 {
                    types.extend(varint(2));
                    body.extend((*i as i16).to_be_bytes());
                } else {
                    types.extend(varint(6));
                    body.extend(i.to_be_bytes());
                }
            }
            V::Text(s) => {
                types.extend(varint(13 + 2 * s.len() as u64));
                body.extend(s.as_bytes());
            }
        }
    }
    let mut out = varint(types.len() as u64 + 1);
    out.extend(types);
    out.extend(body);
    out
}

fn page_with_cells(page_no: usize, page_size: usize, kind: u8, right: Option<u32>, cells: &[Vec<u8>]) -> Vec<u8> {
    let mut page = vec![0u8; page_size];
    let h = if page_no == 1 { 100 } else { 0 };
    let hdr_len = if right.is_some() { 12 } else { 8 };
    page[h] = kind;
    page[h + 3..h + 5].copy_from_slice(&(cells.len() as u16).to_be_bytes());
    if let Some(r) = right {
        page[h + 8..h + 12].copy_from_slice(&r.to_be_bytes());
    }
    let mut end = page_size;
    for (i, c) in cells.iter().enumerate() {
        end -= c.len();
        page[end..end + c.len()].copy_from_slice(c);
        let p = h + hdr_len + 2 * i;
        page[p..p + 2].copy_from_slice(&(end as u16).to_be_bytes());
    }
    page[h + 5..h + 7].copy_from_slice(&(end as u16).to_be_bytes());
    page
}

fn table_leaf(page_no: usize, page_size: usize, rows: &[(u64, Vec<V>)]) -> Vec<u8> {
    let cells: Vec<Vec<u8>> = rows
        .iter()
        .map(|(id, vals)| {
            let rec = record(vals);
            let mut c = varint(rec.len() as u64);
            c.extend(varint(*id));
            c.extend(rec);
            c
        })
        .collect();
    page_with_cells(page_no, page_size, 13, None, &cells)
}

fn table_interior(page_no: usize, page_size: usize, children: &[(u32, u64)], right: u32) -> Vec<u8> {
    let cells: Vec<Vec<u8>> = children
        .iter()
        .map(|(child, key)| {
            let mut c = child.to_be_bytes().to_vec();
            c.extend(varint(*key));
            c
        })
        .collect();
    page_with_cells(page_no, page_size, 5, Some(right), &cells)
}

fn index_leaf(page_no: usize, page_size: usize, entries: &[Vec<V>]) -> Vec<u8> {
    let cells: Vec<Vec<u8>> = entries
        .iter()
        .map(|vals| {
            let rec = record(vals);
            let mut c = varint(rec.len() as u64);
            c.extend(rec);
            c
        })
        .collect();
    page_with_cells(page_no, page_size, 10, None, &cells)
}

fn index_interior(page_no: usize, page_size: usize, children: &[(u32, Vec<V>)], right: u32) -> Vec<u8> {
    let cells: Vec<Vec<u8>> = children
        .iter()
        .map(|(child, vals)| {
            let rec = record(vals);
            let mut c = child.to_be_bytes().to_vec();
            c.extend(varint(rec.len() as u64));
            c.extend(rec);
            c
        })
        .collect();
    page_with_cells(page_no, page_size, 2, Some(right), &cells)
}

fn image(page_size: usize, pages: Vec<Vec<u8>>) -> Vec<u8> {
    let mut out: Vec<u8> = pages.concat();
    out[..16].copy_from_slice(b"SQLite format 3\0");
    let declared: u16 = if page_size == 65536 { 1 } else { page_size as u16 };
    out[16..18].copy_from_slice(&declared.to_be_bytes());
    out
}

fn schema_row(kind: &'static str, name: &'static str, tbl: &'static str, root: i64, sql: &'static str) -> Vec<V> {
    vec![V::Text(kind), V::Text(name), V::Text(tbl), V::Int(root), V::Text(sql)]
}

/// The fruit fixture: tables `apples`, `sqlite_sequence` and `oranges`.
fn sample_db() -> Database {
    let ps = 4096;
    let schema = table_leaf(
        1,
        ps,
        &[
            (1, schema_row("table", "apples", "apples", 2, "CREATE TABLE apples\n(\n\tid integer primary key autoincrement,\n\tname text,\n\tcolor text\n)")),
            (2, schema_row("table", "sqlite_sequence", "sqlite_sequence", 3, "CREATE TABLE sqlite_sequence(name,seq)")),
            (3, schema_row("table", "oranges", "oranges", 4, "CREATE TABLE oranges\n(\n\tid integer primary key autoincrement,\n\tname text,\n\tdescription text\n)")),
        ],
    );
    let apples = table_leaf(
        2,
        ps,
        &[
            (1, vec![V::Null, V::Text("Granny Smith"), V::Text("Light Green")]),
            (2, vec![V::Null, V::Text("Fuji"), V::Text("Red")]),
            (3, vec![V::Null, V::Text("Honeycrisp"), V::Text("Blush Red")]),
            (4, vec![V::Null, V::Text("Golden Delicious"), V::Text("Yellow")]),
        ],
    );
    let seq = table_leaf(3, ps, &[(1, vec![V::Text("apples"), V::Int(4)]), (2, vec![V::Text("oranges"), V::Int(6)])]);
    let oranges = table_leaf(
        4,
        ps,
        &[
            (1, vec![V::Null, V::Text("Mandarin"), V::Text("great for snacking")]),
            (2, vec![V::Null, V::Text("Tangelo"), V::Text("sweet and tart")]),
            (3, vec![V::Null, V::Text("Tangerine"), V::Text("great for sweets")]),
            (4, vec![V::Null, V::Text("Clementine"), V::Text("usually seedless, great for snacking")]),
            (5, vec![V::Null, V::Text("Valencia Orange"), V::Text("best for juicing")]),
            (6, vec![V::Null, V::Text("Navel Orange"), V::Text("sweet with slight bitterness")]),
        ],
    );
    Database::new(image(ps, vec![schema, apples, seq, oranges])).expect("fixture opens")
}

/// The companies fixture: a table spread over two leaves under an interior
/// page, with an index on `country` whose root is an interior index page.
fn companies_db() -> Database {
    let ps = 1024;
    let schema = table_leaf(
        1,
        ps,
        &[
            (1, schema_row("table", "companies", "companies", 2, "CREATE TABLE companies (id integer primary key, name text, country text)")),
            (2, schema_row("index", "idx_companies_country", "companies", 3, "CREATE INDEX idx_companies_country on companies (country)")),
        ],
    );
    let root = table_interior(2, ps, &[(4, 3)], 5);
    let index_root = index_interior(3, ps, &[(6, vec![V::Text("egypt"), V::Int(5)])], 7);
    let left = table_leaf(
        4,
        ps,
        &[
            (1, vec![V::Null, V::Text("Acme"), V::Text("chad")]),
            (2, vec![V::Null, V::Text("Asmara Foods"), V::Text("eritrea")]),
            (3, vec![V::Null, V::Text("Bolt"), V::Text("estonia")]),
        ],
    );
    let right = table_leaf(
        5,
        ps,
        &[
            (4, vec![V::Null, V::Text("Massawa Port"), V::Text("eritrea")]),
            (5, vec![V::Null, V::Text("Nile Co"), V::Text("egypt")]),
        ],
    );
    let index_left = index_leaf(6, ps, &[vec![V::Text("chad"), V::Int(1)]]);
    let index_right = index_leaf(
        7,
        ps,
        &[vec![V::Text("eritrea"), V::Int(2)], vec![V::Text("eritrea"), V::Int(4)], vec![V::Text("estonia"), V::Int(3)]],
    );
    Database::new(image(ps, vec![schema, root, index_root, left, right, index_left, index_right])).expect("fixture opens")
}

fn lines(out: &sqlite_reader::QueryOutput) -> Vec<String> {
    out.lines.clone()
}

fn shown_rows(out: &sqlite_reader::QueryOutput) -> Vec<String> {
    out.rows
        .iter()
        .map(|r| r.iter().map(|v| v.to_display_string()).collect::<Vec<_>>().join("|"))
        .collect()
}

fn expect_err<T>(r: Result<T, DbError>) -> DbError {
    match r {
        Ok(_) => panic!("expected an error"),
        Err(e) => e,
    }
}

fn run(db: &Database, cmd: &str) -> sqlite_reader::QueryOutput {
    execute_command(db, cmd).expect("command succeeds")
}

#[test]
fn dbinfo_reports_page_size_and_schema_cells() {
    let out = run(&sample_db(), ".dbinfo");
    assert_eq!(lines(&out), vec!["database page size: 4096".to_string(), "number of tables: 3".to_string()]);
    assert!(out.rows.is_empty());
}

#[test]
fn tables_lists_names_in_page_order() {
    let out = run(&sample_db(), ".tables");
    assert_eq!(lines(&out), vec!["apples", "sqlite_sequence", "oranges"]);
}

#[test]
fn count_star_counts_root_cells() {
    let out = run(&sample_db(), "SELECT COUNT(*) FROM apples");
    assert_eq!(lines(&out), vec!["4"]);
    let out = run(&sample_db(), "select count(*) from oranges");
    assert_eq!(lines(&out), vec!["6"]);
}

#[test]
fn select_one_column_in_row_id_order() {
    let out = run(&sample_db(), "SELECT name FROM apples");
    assert_eq!(lines(&out), vec!["name"]);
    assert_eq!(shown_rows(&out), vec!["Granny Smith", "Fuji", "Honeycrisp", "Golden Delicious"]);
}

#[test]
fn select_with_where_uses_row_id_alias() {
    let out = run(&sample_db(), "SELECT id, name FROM apples WHERE color = 'Yellow'");
    assert_eq!(lines(&out), vec!["id|name"]);
    assert_eq!(shown_rows(&out), vec!["4|Golden Delicious"]);
}

#[test]
fn select_not_equal_filters_out_matches() {
    let out = run(&sample_db(), "SELECT name FROM apples WHERE color != 'Red'");
    assert_eq!(shown_rows(&out), vec!["Granny Smith", "Honeycrisp", "Golden Delicious"]);
}

#[test]
fn select_star_prints_header_separator_and_rows() {
    let out = run(&sample_db(), "SELECT * FROM apples");
    assert_eq!(lines(&out), vec!["id|name|color", "----------|----------|----------"]);
    assert_eq!(out.rows.len(), 4);
    assert_eq!(shown_rows(&out)[1], "2|Fuji|Red");
}

#[test]
fn select_star_with_where() {
    let out = run(&sample_db(), "SELECT * FROM oranges WHERE name = \"Tangelo\"");
    assert_eq!(shown_rows(&out), vec!["2|Tangelo|sweet and tart"]);
}

#[test]
fn schema_lists_objects_and_sql() {
    let out = run(&companies_db(), ".schema");
    let l = lines(&out);
    assert_eq!(l.len(), 4);
    assert_eq!(l[0], "table: companies (table: companies, page: 2)");
    assert_eq!(l[1], "  SQL: CREATE TABLE companies (id integer primary key, name text, country text)");
    assert_eq!(l[2], "index: idx_companies_country (table: companies, page: 3)");
}

#[test]
fn index_probe_matches_full_scan() {
    let db = companies_db();
    let out = run(&db, "SELECT name FROM companies WHERE country = 'eritrea'");
    assert_eq!(shown_rows(&out), vec!["Asmara Foods", "Massawa Port"]);
    let scan = run(&db, "SELECT * FROM companies WHERE country = 'eritrea'");
    let names: Vec<String> = scan.rows.iter().map(|r| r[1].to_display_string()).collect();
    assert_eq!(names, vec!["Asmara Foods", "Massawa Port"]);
}

#[test]
fn index_is_found_and_searched() {
    let db = companies_db();
    let index = db.find_index_for_column("companies", "country").unwrap().expect("index exists");
    assert_eq!(index.name, "idx_companies_country");
    assert_eq!(index.rootpage, 3);
    assert_eq!(db.search_index(&index, "eritrea").unwrap(), vec![2, 4]);
    assert_eq!(db.search_index(&index, "chad").unwrap(), vec![1]);
    assert!(db.search_index(&index, "zambia").unwrap().is_empty());
    assert!(db.find_index_for_column("companies", "name").unwrap().is_none());
}

#[test]
fn interior_table_scan_visits_every_leaf() {
    let db = companies_db();
    let rows = db.get_table_rows("companies").unwrap();
    let ids: Vec<u64> = rows.rows.iter().map(|r| r.row_id).collect();
    assert_eq!(ids, vec![1, 2, 3, 4, 5]);
    let out = run(&db, "SELECT * FROM companies");
    assert_eq!(out.rows.len(), 5);
}

#[test]
fn point_probe_descends_to_the_right_leaf() {
    let db = companies_db();
    let row = db.get_table_row_by_id("companies", 4).unwrap().expect("row 4");
    assert_eq!(row.values[1].to_display_string(), "Massawa Port");
    assert_eq!(row.values[0].to_display_string(), "4");
    assert!(db.get_table_row_by_id("companies", 9).unwrap().is_none());
    let some = db.get_table_rows_by_ids("companies", &[5, 9, 1]).unwrap();
    let ids: Vec<u64> = some.rows.iter().map(|r| r.row_id).collect();
    assert_eq!(ids, vec![5, 1]);
}

#[test]
fn column_values_project_requested_columns() {
    let db = sample_db();
    let vals = db.get_column_values("apples", &["COLOR", "id"]).unwrap();
    assert_eq!(vals.len(), 4);
    assert_eq!(vals[0][0].to_display_string(), "Light Green");
    assert_eq!(vals[3][1].to_display_string(), "4");
    assert_eq!(expect_err(db.get_column_values("apples", &["weight"])), DbError::SchemaNotFound);
}

#[test]
fn catalog_lookups() {
    let db = sample_db();
    assert_eq!(db.get_table_names().unwrap(), vec!["apples", "sqlite_sequence", "oranges"]);
    assert_eq!(db.get_num_tables().unwrap(), 3);
    assert_eq!(db.count_table_rows("sqlite_sequence").unwrap(), 2);
    let cols = db.get_col_names("oranges").unwrap();
    let names: Vec<String> = cols.iter().map(|c| c.name.clone()).collect();
    assert_eq!(names, vec!["id", "name", "description"]);
    assert!(cols[0].is_primary_key);
    let objects = db.get_all_schema_objects().unwrap();
    assert_eq!(objects.len(), 3);
    assert_eq!(objects[2].rootpage, 4);
    let info = db.find_table_info("oranges").unwrap();
    assert_eq!(info.row_id, 3);
    assert_eq!(expect_err(db.find_table_info("pears")), DbError::SchemaNotFound);
}

#[test]
fn read_page_parses_leaf_cells() {
    let db = sample_db();
    let cells = db.read_page(3).unwrap();
    assert_eq!(cells.len(), 2);
    assert_eq!(cells[1].record.body[0].to_display_string(), "oranges");
    assert_eq!(cells[1].record.body[1].to_display_string(), "6");
    let page = db.read_page_data(2).unwrap();
    assert_eq!(page.len(), 4096);
    assert_eq!(expect_err(db.read_page_data(0)), DbError::ShortRead);
    assert_eq!(expect_err(db.read_page_data(5)), DbError::ShortRead);
}

#[test]
fn record_decoding_of_every_serial_class() {
    let mut full = vec![10u8, 0, 1, 2, 7, 8, 9, 10, 19, 16];
    full.extend([0xff, 0x80, 0x00]);
    full.extend(1.5f64.to_bits().to_be_bytes());
    full.extend(b"abc");
    full.extend([0xde, 0xad]);
    let header = RecordHeader::from_bytes(&full).unwrap();
    assert_eq!(header.size, 10);
    assert_eq!(header.column_types, vec![0, 1, 2, 7, 8, 9, 10, 19, 16]);
    assert_eq!(expect_err(Record::from_bytes(&full[..full.len() - 1])), DbError::ShortRecord);
    let rec = Record::from_bytes(&full).unwrap();
    let shown: Vec<String> = rec.body.iter().map(|v| v.to_display_string()).collect();
    assert_eq!(shown[0], "NULL");
    assert_eq!(shown[1], "-1");
    assert_eq!(shown[2], "-32768");
    assert!(matches!(rec.body[3], RecordValue::Float(b) if b == 1.5f64.to_bits()));
    assert_eq!(shown[3], format!("<REAL {}>", 1.5f64.to_bits()));
    assert_eq!(shown[4], "0");
    assert_eq!(shown[5], "1");
    assert_eq!(shown[6], "<RESERVED 10>");
    assert_eq!(shown[7], "abc");
    assert_eq!(shown[8], "<BLOB 2 bytes>");
}

#[test]
fn integer_widths_sign_extend() {
    let data = [0x80, 0x00, 0x00, 0x7f, 0xff, 0xff, 0xff, 0xff, 0xff, 0xff];
    let (v, n) = RecordValue::from_type_and_data(3, &data, 0).unwrap();
    assert_eq!(n, 3);
    assert!(matches!(v, RecordValue::Int(-8388608)));
    let (v, n) = RecordValue::from_type_and_data(5, &data, 3).unwrap();
    assert_eq!(n, 6);
    assert!(matches!(v, RecordValue::Int(0x7fff_ffff_ffff)));
    let (v, _) = RecordValue::from_type_and_data(6, &[0xff; 8], 0).unwrap();
    assert!(matches!(v, RecordValue::Int(-1)));
    assert_eq!(expect_err(RecordValue::from_type_and_data(4, &data, 8)), DbError::ShortRecord);
    let (v, n) = RecordValue::from_type_and_data(12, &data, 20).unwrap_or((RecordValue::Null, 99));
    assert_eq!(n, 99);
    assert!(matches!(v, RecordValue::Null));
}

#[test]
fn invalid_utf8_text_is_replaced() {
    let (v, n) = RecordValue::from_type_and_data(17, &[b'o', 0xff], 0).unwrap();
    assert_eq!(n, 2);
    assert_eq!(v.to_display_string(), "o\u{fffd}");
    let (v, _) = RecordValue::from_type_and_data(19, "é!".as_bytes(), 0).unwrap();
    assert_eq!(v.to_display_string(), "é!");
}

#[test]
fn varints_of_one_two_and_nine_bytes() {
    assert_eq!(read_varint(&[0x05], 0).unwrap(), (5, 1));
    assert_eq!(read_varint(&[0x00, 0x81, 0x00], 1).unwrap(), (128, 2));
    assert_eq!(read_varint(&[0xff; 9], 0).unwrap(), (u64::MAX, 9));
    assert_eq!(read_varint(&[0x81, 0x80, 0x80, 0x80, 0x80, 0x80, 0x80, 0x80, 0x01], 0).unwrap(), ((1u64 << 57) | 1, 9));
    assert_eq!(expect_err(read_varint(&[0x81, 0x82], 0)), DbError::CorruptVarint);
    assert_eq!(expect_err(read_varint(&[], 0)), DbError::CorruptVarint);
}

#[test]
fn varint_reencoding_round_trips() {
    for v in [0u64, 1, 127, 128, 300, 16383, 16384, (1 << 56) - 1, 1 << 56, u64::MAX] {
        let enc = varint(v);
        assert!(enc.len() <= 9);
        assert_eq!(read_varint(&enc, 0).unwrap(), (v, enc.len()));
    }
    let padded = [0x80, 0x80, 0x05];
    let (v, n) = read_varint(&padded, 0).unwrap();
    assert_eq!((v, n), (5, 3));
    let canonical = varint(v);
    assert!(canonical.len() <= n);
    assert_eq!(read_varint(&canonical, 0).unwrap(), (5, 1));
}

#[test]
fn where_clause_parsing() {
    let c = WhereCondition::parse("  color = 'Yellow' ").unwrap();
    assert_eq!(c.column_name, "color");
    assert_eq!(c.operator, ComparisonOperator::Equal);
    assert_eq!(c.value, "Yellow");
    let c = WhereCondition::parse("name != \"x y\"").unwrap();
    assert_eq!(c.operator, ComparisonOperator::NotEqual);
    assert_eq!(c.value, "x y");
    let c = WhereCondition::parse("id = 3").unwrap();
    assert_eq!(c.value, "3");
    let c = WhereCondition::parse("a = '").unwrap();
    assert_eq!(c.value, "'");
    assert_eq!(expect_err(WhereCondition::parse("id > 3")), DbError::UnsupportedWhere);
    assert_eq!(expect_err(WhereCondition::parse("id=3")), DbError::UnsupportedWhere);
}

#[test]
fn where_matching_compares_display_forms() {
    let c = WhereCondition::parse("n = 42").unwrap();
    assert!(c.matches(&RecordValue::Int(42)));
    assert!(!c.matches(&RecordValue::Text("43".to_string())));
    let c = WhereCondition::parse("n != NULL").unwrap();
    assert!(!c.matches(&RecordValue::Null));
    assert!(c.matches(&RecordValue::One));
}

#[test]
fn create_table_columns_and_alias() {
    let t = TableSchema::from_create_sql("CREATE TABLE t (id INTEGER PRIMARY KEY, name TEXT, , note)").unwrap();
    let names: Vec<String> = t.columns.iter().map(|c| c.name.clone()).collect();
    assert_eq!(names, vec!["id", "name", "note"]);
    assert_eq!(t.columns[2].index, 3);
    assert!(t.columns[0].is_primary_key);
    assert!(!t.columns[1].is_primary_key);
    assert_eq!(t.get_column_index("NAME"), Some(1));
    assert_eq!(t.get_column_index("NOTE"), Some(3));
    assert_eq!(t.get_column_index("missing"), None);
    let two = TableSchema::from_create_sql("create table t (a int primary key, b int Primary Key)").unwrap();
    assert!(two.columns[0].is_primary_key);
    assert!(!two.columns[1].is_primary_key);
    assert_eq!(expect_err(TableSchema::from_create_sql("CREATE TABLE t")), DbError::InvalidDDL);
    assert_eq!(expect_err(TableSchema::from_create_sql("CREATE TABLE t ) x (")), DbError::InvalidDDL);
}

#[test]
fn unsupported_queries_fail() {
    let db = sample_db();
    assert_eq!(expect_err(execute_command(&db, "DELETE FROM apples")), DbError::UnsupportedSQL);
    assert_eq!(expect_err(execute_command(&db, "")), DbError::UnsupportedSQL);
    assert_eq!(expect_err(execute_command(&db, "SELECT name apples")), DbError::UnsupportedSQL);
    assert_eq!(expect_err(execute_command(&db, "SELECT * apples")), DbError::UnsupportedSQL);
    assert_eq!(expect_err(execute_command(&db, "SELECT * FROM WHERE a = 1")), DbError::UnsupportedSQL);
    assert_eq!(expect_err(execute_command(&db, "SELECT name FROM apples WHERE color > 'x'")), DbError::UnsupportedWhere);
    assert_eq!(expect_err(execute_command(&db, "SELECT name FROM pears")), DbError::SchemaNotFound);
    assert_eq!(expect_err(execute_command(&db, "SELECT weight FROM apples")), DbError::SchemaNotFound);
    assert_eq!(expect_err(execute_command(&db, "SELECT name FROM apples WHERE weight = 1")), DbError::SchemaNotFound);
}

#[test]
fn bad_images_are_refused() {
    assert_eq!(expect_err(Database::new(vec![0u8; 50])), DbError::BadHeader);
    let mut img = vec![0u8; 512];
    img[16] = 0x03;
    img[17] = 0x00;
    assert_eq!(expect_err(Database::new(img)), DbError::BadHeader);
    let mut img = vec![0u8; 100];
    img[16] = 0x02;
    img[17] = 0x00;
    let db = Database::new(img).unwrap();
    assert_eq!(db.get_page_size(), 512);
    assert_eq!(expect_err(db.get_num_tables()), DbError::ShortRead);
    let mut img = vec![0u8; 512];
    img[17] = 0x01;
    assert_eq!(Database::new(img).unwrap().get_page_size(), 65536);
}

#[test]
fn wrong_page_types_and_truncated_cells() {
    let ps = 512;
    let schema = table_leaf(1, ps, &[(1, schema_row("table", "t", "t", 2, "CREATE TABLE t (a)"))]);
    let mut bogus = vec![0u8; ps];
    bogus[0] = 7;
    let db = Database::new(image(ps, vec![schema.clone(), bogus])).unwrap();
    assert_eq!(expect_err(db.get_table_rows("t")), DbError::InvalidPageType);
    let mut broken = table_leaf(2, ps, &[(1, vec![V::Text("hello")])]);
    let ptr = u16::from_be_bytes([broken[8], broken[9]]) as usize;
    broken[ptr] = 0x7f;
    let db = Database::new(image(ps, vec![schema.clone(), broken])).unwrap();
    assert_eq!(expect_err(db.get_table_rows("t")), DbError::OutOfBounds);
    let mut unterminated = table_leaf(2, ps, &[(1, vec![V::Int(1)])]);
    unterminated[8] = 0x01;
    unterminated[9] = 0xfe;
    for b in unterminated.iter_mut().skip(0x1fe) {
        *b = 0xff;
    }
    let db = Database::new(image(ps, vec![schema, unterminated])).unwrap();
    assert_eq!(expect_err(db.get_table_rows("t")), DbError::CorruptVarint);
    let direct = Cell::from_bytes(&[0x05, 0x01], 0);
    assert_eq!(expect_err(direct), DbError::OutOfBounds);
}

#[test]
fn schema_object_needs_typed_columns() {
    let rec = Record::from_bytes(&record(&[V::Text("table"), V::Text("t"), V::Text("t"), V::Text("2")])).unwrap();
    assert!(SchemaObject::from_record(&rec).is_none());
    assert_eq!(expect_err(rec.get_page_number()), DbError::InvalidSerialType);
    let rec = Record::from_bytes(&record(&[V::Text("view"), V::Text("v"), V::Text("t"), V::Int(0)])).unwrap();
    let obj = SchemaObject::from_record(&rec).unwrap();
    assert_eq!(obj.object_type, "view");
    assert!(obj.sql.is_none());
    assert!(rec.get_table_name().is_none());
    assert!(rec.get_sql_schema().is_none());
}

#[test]
fn tree_cycles_stop_at_the_depth_bound() {
    let ps = 512;
    let schema = table_leaf(1, ps, &[(1, schema_row("table", "t", "t", 2, "CREATE TABLE t (a)"))]);
    let looped = table_interior(2, ps, &[], 2);
    let db = Database::new(image(ps, vec![schema, looped])).unwrap();
    assert_eq!(expect_err(db.get_table_rows("t")), DbError::TreeTooDeep);
}

#[test]
fn view_modes_cycle_both_ways() {
    let mut v = ViewState::new(3);
    assert_eq!(v.mode, AppMode::Tables);
    v.next_mode();
    assert_eq!(v.mode, AppMode::Query);
    v.next_mode();
    v.next_mode();
    assert_eq!(v.mode, AppMode::Tables);
    v.previous_mode();
    assert_eq!(v.mode, AppMode::Schema);
}

#[test]
fn view_table_selection_wraps() {
    let mut v = ViewState::new(3);
    assert_eq!(v.selected_table, Some(0));
    v.previous_table();
    assert_eq!(v.selected_table, Some(2));
    v.next_table();
    assert_eq!(v.selected_table, Some(0));
    v.next_table();
    assert_eq!(v.selected_table, Some(1));
    let mut empty = ViewState::new(0);
    empty.next_table();
    assert_eq!(empty.selected_table, None);
}

#[test]
fn view_scrolling_is_clamped() {
    let mut v = ViewState::new(1);
    v.scroll_down();
    assert_eq!(v.vertical_scroll, 0);
    v.load_table(25, 3);
    v.scroll_table_down_fast();
    assert_eq!(v.vertical_scroll, 10);
    v.scroll_table_down_fast();
    v.scroll_table_down_fast();
    assert_eq!(v.vertical_scroll, 24);
    v.scroll_down();
    assert_eq!(v.vertical_scroll, 24);
    v.scroll_table_up_fast();
    assert_eq!(v.vertical_scroll, 14);
    v.scroll_to_table_top();
    v.scroll_up();
    assert_eq!(v.vertical_scroll, 0);
    v.scroll_to_table_bottom();
    assert_eq!(v.vertical_scroll, 24);
    v.scroll_right();
    v.scroll_right();
    v.scroll_right();
    assert_eq!(v.horizontal_scroll, 2);
    v.scroll_left();
    assert_eq!(v.horizontal_scroll, 1);
    v.next_mode();
    v.scroll_down();
    v.scroll_down();
    assert_eq!(v.query_scroll, 2);
    v.toggle_help();
    assert!(v.show_help);
}

#[test]
fn view_query_cursor_tracks_edits() {
    let mut v = ViewState::new(0);
    v.add_char_to_query();
    v.add_char_to_query();
    v.move_cursor_left();
    assert_eq!(v.query_cursor_position, 1);
    assert!(v.delete_char_from_query());
    assert_eq!((v.query_cursor_position, v.query_len), (0, 1));
    assert!(!v.delete_char_from_query());
    v.move_cursor_right();
    v.move_cursor_right();
    assert_eq!(v.query_cursor_position, 1);
    v.clear_query();
    assert_eq!((v.query_cursor_position, v.query_len), (0, 0));
}

#[test]
fn record_body_widths_fill_the_payload() {
    let payload = record(&[V::Int(7), V::Text("pear"), V::Null, V::Int(-300)]);
    let header = RecordHeader::from_bytes(&payload).unwrap();
    let widths: u64 = header
        .column_types
        .iter()
        .map(|&t| match t {
            0 | 8 | 9 | 10 | 11 => 0,
            1..=4 => t,
            5 => 6,
            6 | 7 => 8,
            n if n % 2 == 0 => (n - 12) / 2,
            n => (n - 13) / 2,
        })
        .sum();
    assert_eq!(widths, payload.len() as u64 - header.size);
    let rec = Record::from_bytes(&payload).unwrap();
    assert_eq!(rec.body.len(), 4);
    assert_eq!(rec.body[3].to_display_string(), "-300");
}

#[test]
fn schema_roots_have_matching_page_types() {
    let db = companies_db();
    for obj in db.get_all_schema_objects().unwrap() {
        let page = db.read_page_data(obj.rootpage).unwrap();
        let kind = page[0];
        if obj.object_type == "table" {
            assert!(kind == 13 || kind == 5);
        } else {
            assert!(kind == 10 || kind == 2);
        }
    }
}

#[test]
fn tables_are_named_by_the_name_column() {
    let ps = 512;
    let schema = table_leaf(1, ps, &[(1, schema_row("table", "a", "b", 2, "CREATE TABLE a (x)"))]);
    let data = table_leaf(2, ps, &[(1, vec![V::Int(9)])]);
    let db = Database::new(image(ps, vec![schema, data])).unwrap();
    assert_eq!(db.get_table_names().unwrap(), vec!["a"]);
    assert_eq!(db.count_table_rows("a").unwrap(), 1);
    assert_eq!(expect_err(db.find_table_info("b")), DbError::SchemaNotFound);
    let out = run(&db, ".tables");
    assert_eq!(lines(&out), vec!["a"]);
}

#[test]
fn index_lookup_folds_only_the_sql() {
    let ps = 512;
    let schema = table_leaf(
        1,
        ps,
        &[
            (1, schema_row("table", "Apples", "Apples", 2, "CREATE TABLE Apples (id integer primary key, color text)")),
            (2, schema_row("index", "idx_color", "Apples", 3, "CREATE INDEX idx_color ON APPLES (COLOR)")),
        ],
    );
    let data = table_leaf(2, ps, &[(1, vec![V::Null, V::Text("Red")])]);
    let index = index_leaf(3, ps, &[vec![V::Text("Red"), V::Int(1)]]);
    let db = Database::new(image(ps, vec![schema, data, index])).unwrap();
    assert!(db.find_index_for_column("Apples", "color").unwrap().is_none());
    let out = run(&db, "SELECT id FROM Apples WHERE color = 'Red'");
    assert_eq!(shown_rows(&out), vec!["1"]);
}

#[test]
fn index_lookup_matches_folded_sql_with_lowercase_names() {
    let ps = 512;
    let schema = table_leaf(
        1,
        ps,
        &[
            (1, schema_row("table", "apples", "apples", 2, "CREATE TABLE apples (id integer primary key, color text)")),
            (2, schema_row("index", "idx_color", "apples", 3, "CREATE INDEX idx_color ON APPLES (COLOR)")),
        ],
    );
    let data = table_leaf(2, ps, &[(1, vec![V::Null, V::Text("Red")])]);
    let index = index_leaf(3, ps, &[vec![V::Text("Red"), V::Int(1)]]);
    let db = Database::new(image(ps, vec![schema, data, index])).unwrap();
    let found = db.find_index_for_column("apples", "color").unwrap().expect("index found");
    assert_eq!(found.name, "idx_color");
}

#[test]
fn primary_key_found_through_unicode_lowercasing() {
    let t = TableSchema::from_create_sql("CREATE TABLE t (id INTEGER PRIMARY \u{212A}EY, name TEXT)").unwrap();
    assert!(t.columns[0].is_primary_key);
    assert!(!t.columns[1].is_primary_key);
}

#[test]
fn index_found_through_unicode_lowercasing() {
    let ps = 512;
    let schema = table_leaf(
        1,
        ps,
        &[
            (1, schema_row("table", "t", "t", 2, "CREATE TABLE t (id integer primary key, \u{e4} text)")),
            (2, schema_row("index", "i", "t", 3, "CREATE INDEX i ON t (\u{c4})")),
        ],
    );
    let data = table_leaf(2, ps, &[(1, vec![V::Null, V::Text("x")])]);
    let index = index_leaf(3, ps, &[vec![V::Text("x"), V::Int(1)]]);
    let db = Database::new(image(ps, vec![schema, data, index])).unwrap();
    let found = db.find_index_for_column("t", "\u{e4}").unwrap().expect("index found");
    assert_eq!(found.name, "i");
}
