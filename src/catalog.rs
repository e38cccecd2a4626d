//! The schema catalog on page 1, table lookup, and row assembly.
use vstd::prelude::*;

use crate::cell::{Cell, CellModel};
use crate::database::{
    as_ints, cell_count_spec, cells_view, header_offset, index_search, page_bytes, page_exists,
    page_type_spec, probe_table, get_cell_count, table_cells, Database, DbImage,
    INTERIOR_INDEX_PAGE, INTERIOR_TABLE_PAGE, LEAF_INDEX_PAGE, LEAF_TABLE_PAGE, MAX_TREE_DEPTH,
};
use crate::error::DbError;
use crate::record::{values_view, Record, RecordModel, RecordValue, ValueModel};
use crate::schema::{columns_view, schema_columns, ColumnInfo, ColumnModel, TableSchema};
use crate::text::{contains_text, find, lower_of, lowercase, text_eq};

verus! {

/// A row of the schema catalog: an object's type, name, table, root page and
/// `CREATE` statement.
#[derive(Debug)]
pub struct SchemaObject {
    pub object_type: String,
    pub name: String,
    pub tbl_name: String,
    pub rootpage: usize,
    pub sql: Option<String>,
}

/// The mathematical content of a [`SchemaObject`].
pub struct SchemaModel {
    pub object_type: Seq<char>,
    pub name: Seq<char>,
    pub tbl_name: Seq<char>,
    pub rootpage: int,
    pub sql: Option<Seq<char>>,
}

impl View for SchemaObject {
    type V = SchemaModel;

    open spec fn view(&self) -> SchemaModel {
        SchemaModel {
            object_type: self.object_type@,
            name: self.name@,
            tbl_name: self.tbl_name@,
            rootpage: self.rootpage as int,
            sql: match self.sql {
                Some(s) => Some(s@),
                None => None,
            },
        }
    }
}

/// The models of a sequence of schema objects.
pub open spec fn objects_view(os: Seq<SchemaObject>) -> Seq<SchemaModel> {
    os.map_values(|o: SchemaObject| o@)
}

/// The text of a value, if it is text.
pub open spec fn text_of(v: ValueModel) -> Option<Seq<char>> {
    match v {
        ValueModel::Text(t) => Some(t),
        _ => None,
    }
}

/// The schema object that a catalog record describes: its first three columns
/// must be text and its fourth an integer; its fifth, if text, is the SQL.
pub open spec fn schema_object_of(rec: RecordModel) -> Option<SchemaModel> {
    let vs = rec.values;
    if vs.len() < 4 {
        None
    } else {
        match (text_of(vs[0]), text_of(vs[1]), text_of(vs[2]), vs[3]) {
            (Some(t), Some(n), Some(tb), ValueModel::Int(p)) => Some(
                SchemaModel {
                    object_type: t,
                    name: n,
                    tbl_name: tb,
                    rootpage: (p as usize) as int,
                    sql: if vs.len() > 4 {
                        text_of(vs[4])
                    } else {
                        None
                    },
                },
            ),
            _ => None,
        }
    }
}

/// The name of the table that a catalog record describes, if it describes a
/// table: its second column, `name`.
pub open spec fn table_name_of(rec: RecordModel) -> Option<Seq<char>> {
    if rec.values.len() > 1 && text_of(rec.values[0]) == Some("table"@) {
        text_of(rec.values[1])
    } else {
        None
    }
}

/// The SQL of a catalog record, if its fifth column is text.
pub open spec fn sql_of(rec: RecordModel) -> Option<Seq<char>> {
    if rec.values.len() > 4 {
        text_of(rec.values[4])
    } else {
        None
    }
}

/// The root page of a catalog record: its fourth column, which must be an integer.
pub open spec fn root_page_of(rec: RecordModel) -> Result<int, DbError> {
    if rec.values.len() > 3 {
        match rec.values[3] {
            ValueModel::Int(p) => Ok((p as usize) as int),
            _ => Err(DbError::InvalidSerialType),
        }
    } else {
        Err(DbError::InvalidSerialType)
    }
}

/// The rows of the catalog: the cells of the table B-tree rooted at page 1.
pub open spec fn catalog_cells(m: DbImage) -> Result<Seq<CellModel>, DbError> {
    table_cells(m, 1, MAX_TREE_DEPTH as nat)
}

/// The schema objects of the catalog rows `cs`, skipping rows that describe none.
pub open spec fn objects_of(cs: Seq<CellModel>) -> Seq<SchemaModel>
    decreases cs.len(),
{
    if cs.len() == 0 {
        Seq::empty()
    } else {
        let pre = objects_of(cs.drop_last());
        match schema_object_of(cs.last().record) {
            Some(o) => pre.push(o),
            None => pre,
        }
    }
}

/// The names of the tables that the catalog rows `cs` describe, in order.
pub open spec fn table_names_of(cs: Seq<CellModel>) -> Seq<Seq<char>>
    decreases cs.len(),
{
    if cs.len() == 0 {
        Seq::empty()
    } else {
        let pre = table_names_of(cs.drop_last());
        match table_name_of(cs.last().record) {
            Some(n) => pre.push(n),
            None => pre,
        }
    }
}

/// The first of the catalog rows `cs[i..]` that describes the table `name`.
pub open spec fn first_table_cell(cs: Seq<CellModel>, i: int, name: Seq<char>) -> Option<CellModel>
    decreases cs.len() - i,
{
    if i < 0 || i >= cs.len() {
        None
    } else if table_name_of(cs[i].record) == Some(name) {
        Some(cs[i])
    } else {
        first_table_cell(cs, i + 1, name)
    }
}

/// The catalog row of the table `name`.
pub open spec fn table_info_spec(m: DbImage, name: Seq<char>) -> Result<CellModel, DbError> {
    match catalog_cells(m) {
        Err(e) => Err(e),
        Ok(cs) => match first_table_cell(cs, 0, name) {
            Some(c) => Ok(c),
            None => Err(DbError::SchemaNotFound),
        },
    }
}

/// The declared columns of the table `name`.
pub open spec fn table_columns_spec(m: DbImage, name: Seq<char>) -> Result<Seq<ColumnModel>, DbError> {
    match table_info_spec(m, name) {
        Err(e) => Err(e),
        Ok(c) => match sql_of(c.record) {
            None => Err(DbError::SchemaNotFound),
            Some(sql) => schema_columns(sql),
        },
    }
}

/// The root page of the table `name`.
pub open spec fn table_root_spec(m: DbImage, name: Seq<char>) -> Result<int, DbError> {
    match table_info_spec(m, name) {
        Err(e) => Err(e),
        Ok(c) => root_page_of(c.record),
    }
}

/// A row of a table: its row id and one value per declared column.
#[derive(Debug)]
pub struct TableRow {
    pub row_id: u64,
    pub values: Vec<RecordValue>,
}

/// The mathematical content of a [`TableRow`].
pub struct RowModel {
    pub row_id: u64,
    pub values: Seq<ValueModel>,
}

impl View for TableRow {
    type V = RowModel;

    open spec fn view(&self) -> RowModel {
        RowModel { row_id: self.row_id, values: values_view(self.values@) }
    }
}

/// The models of a sequence of rows.
pub open spec fn rows_view(rs: Seq<TableRow>) -> Seq<RowModel> {
    rs.map_values(|r: TableRow| r@)
}

/// The rows of a table together with its declared columns.
#[derive(Debug)]
pub struct TableRows {
    pub columns: Vec<ColumnInfo>,
    pub rows: Vec<TableRow>,
}

/// The value of column `i` of the row that `c` holds: the row id for the
/// row-id alias, else the stored value, else `NULL` when the record is short.
pub open spec fn column_value(c: CellModel, cols: Seq<ColumnModel>, i: int) -> ValueModel {
    if cols[i].is_primary_key {
        ValueModel::Int(c.row_id as i64)
    } else if i < c.record.values.len() {
        c.record.values[i]
    } else {
        ValueModel::Null
    }
}

/// The row that the cell `c` holds under the declared columns `cols`.
pub open spec fn row_of(c: CellModel, cols: Seq<ColumnModel>) -> RowModel {
    RowModel { row_id: c.row_id, values: Seq::new(cols.len(), |i: int| column_value(c, cols, i)) }
}

/// The rows that the cells `cs` hold under the declared columns `cols`.
pub open spec fn rows_of(cs: Seq<CellModel>, cols: Seq<ColumnModel>) -> Seq<RowModel> {
    Seq::new(cs.len(), |i: int| row_of(cs[i], cols))
}

/// Every row of the table `name`, with its declared columns.
pub open spec fn table_rows_spec(m: DbImage, name: Seq<char>) -> Result<
    (Seq<ColumnModel>, Seq<RowModel>),
    DbError,
> {
    match table_info_spec(m, name) {
        Err(e) => Err(e),
        Ok(info) => match table_columns_spec(m, name) {
            Err(e) => Err(e),
            Ok(cols) => match root_page_of(info.record) {
                Err(e) => Err(e),
                Ok(root) => match table_cells(m, root, MAX_TREE_DEPTH as nat) {
                    Err(e) => Err(e),
                    Ok(cs) => Ok((cols, rows_of(cs, cols))),
                },
            },
        },
    }
}

/// The row of the table `name` with row id `id`, found by a point probe.
pub open spec fn row_by_id_spec(m: DbImage, name: Seq<char>, id: u64) -> Result<
    Option<RowModel>,
    DbError,
> {
    match table_info_spec(m, name) {
        Err(e) => Err(e),
        Ok(info) => match table_columns_spec(m, name) {
            Err(e) => Err(e),
            Ok(cols) => match root_page_of(info.record) {
                Err(e) => Err(e),
                Ok(root) => match probe_table(m, root, id, MAX_TREE_DEPTH as nat) {
                    Err(e) => Err(e),
                    Ok(None) => Ok(None),
                    Ok(Some(c)) => Ok(Some(row_of(c, cols))),
                },
            },
        },
    }
}

impl SchemaObject {
    /// The schema object that a catalog record describes, if any.
    pub fn from_record(record: &Record) -> (r: Option<SchemaObject>)
        ensures
            match schema_object_of(record@) {
                Some(o) => r matches Some(s) && s@ == o,
                None => r is None,
            },
    {
        let body = &record.body;
        if body.len() < 4 {
            return None;
        }
        let object_type = match &body[0] {
            RecordValue::Text(t) => t.clone(),
            _ => return None,
        };
        let name = match &body[1] {
            RecordValue::Text(t) => t.clone(),
            _ => return None,
        };
        let tbl_name = match &body[2] {
            RecordValue::Text(t) => t.clone(),
            _ => return None,
        };
        let rootpage = match &body[3] {
            RecordValue::Int(p) => *p as usize,
            _ => return None,
        };
        let sql = if body.len() > 4 {
            match &body[4] {
                RecordValue::Text(s) => Some(s.clone()),
                _ => None,
            }
        } else {
            None
        };
        Some(SchemaObject { object_type, name, tbl_name, rootpage, sql })
    }
}

impl Record {
    /// The name (second column) of the table that this catalog record
    /// describes, if it describes a table.
    pub fn get_table_name(&self) -> (r: Option<String>)
        ensures
            match table_name_of(self@) {
                Some(n) => r matches Some(s) && s@ == n,
                None => r is None,
            },
    {
        if self.body.len() > 1 {
            if let RecordValue::Text(t) = &self.body[0] {
                if text_eq(t.as_str(), "table") {
                    if let RecordValue::Text(name) = &self.body[1] {
                        return Some(name.clone());
                    }
                }
            }
        }
        None
    }

    /// The SQL of this catalog record, if its fifth column is text.
    pub fn get_sql_schema(&self) -> (r: Option<String>)
        ensures
            match sql_of(self@) {
                Some(n) => r matches Some(s) && s@ == n,
                None => r is None,
            },
    {
        if self.body.len() > 4 {
            if let RecordValue::Text(sql) = &self.body[4] {
                return Some(sql.clone());
            }
        }
        None
    }

    /// The root page of this catalog record.
    pub fn get_page_number(&self) -> (r: Result<usize, DbError>)
        ensures
            match root_page_of(self@) {
                Ok(p) => r == Ok::<usize, DbError>(p as usize),
                Err(e) => r == Err::<usize, DbError>(e),
            },
    {
        if self.body.len() > 3 {
            if let RecordValue::Int(p) = &self.body[3] {
                return Ok(*p as usize);
            }
        }
        Err(DbError::InvalidSerialType)
    }
}

/// The text an index's SQL must hold for the index to serve `column` of `table`.
pub open spec fn index_pattern(table: Seq<char>, column: Seq<char>) -> Seq<char> {
    "on "@ + table + " ("@ + column + ")"@
}

/// Whether the schema object `o` is an index that serves `column` of `table`:
/// the lower-case form of its SQL (as `str::to_lowercase` gives it) holds
/// [`index_pattern`] exactly as the table and column names are given.
pub open spec fn serves_column(o: SchemaModel, table: Seq<char>, column: Seq<char>) -> bool {
    &&& o.object_type == "index"@
    &&& o.tbl_name == table
    &&& o.sql matches Some(sql) && find(lower_of(sql), index_pattern(table, column), false) is Some
}

/// The first of the objects `os[i..]` that serves `column` of `table`.
pub open spec fn first_serving(os: Seq<SchemaModel>, i: int, table: Seq<char>, column: Seq<char>) -> Option<
    SchemaModel,
>
    decreases os.len() - i,
{
    if i < 0 || i >= os.len() {
        None
    } else if serves_column(os[i], table, column) {
        Some(os[i])
    } else {
        first_serving(os, i + 1, table, column)
    }
}

/// The rows with the row ids `ids`, in that order, each found by a point probe;
/// ids that match no row are passed over.
pub open spec fn rows_by_ids(m: DbImage, name: Seq<char>, ids: Seq<u64>) -> Result<Seq<RowModel>, DbError>
    decreases ids.len(),
{
    if ids.len() == 0 {
        Ok(Seq::empty())
    } else {
        match rows_by_ids(m, name, ids.drop_last()) {
            Err(e) => Err(e),
            Ok(pre) => match row_by_id_spec(m, name, ids.last()) {
                Err(e) => Err(e),
                Ok(None) => Ok(pre),
                Ok(Some(r)) => Ok(pre.push(r)),
            },
        }
    }
}

/// The position of the first column named `name` in `cols`, up to ASCII case.
pub open spec fn position_of(cols: Seq<ColumnModel>, name: Seq<char>) -> Option<int>
    decreases cols.len(),
{
    if cols.len() == 0 {
        None
    } else if crate::text::eq_ignore_case(cols.last().name, name) && position_of(cols.drop_last(), name) is None {
        Some(cols.len() - 1)
    } else {
        position_of(cols.drop_last(), name)
    }
}

/// The positions of the columns `names` in `cols`.
pub open spec fn positions_of(cols: Seq<ColumnModel>, names: Seq<Seq<char>>) -> Result<Seq<int>, DbError>
    decreases names.len(),
{
    if names.len() == 0 {
        Ok(Seq::empty())
    } else {
        match positions_of(cols, names.drop_last()) {
            Err(e) => Err(e),
            Ok(pre) => match position_of(cols, names.last()) {
                None => Err(DbError::SchemaNotFound),
                Some(k) => Ok(pre.push(k)),
            },
        }
    }
}

/// The values at positions `idx` of each row of `rows`.
pub open spec fn project(rows: Seq<RowModel>, idx: Seq<int>) -> Seq<Seq<ValueModel>> {
    Seq::new(
        rows.len(),
        |i: int|
            Seq::new(
                idx.len(),
                |j: int|
                    if idx[j] < rows[i].values.len() {
                        rows[i].values[idx[j]]
                    } else {
                        ValueModel::Null
                    },
            ),
    )
}

/// The values of each row of the table `name` in the columns `names`.
pub open spec fn column_values_spec(m: DbImage, name: Seq<char>, names: Seq<Seq<char>>) -> Result<
    Seq<Seq<ValueModel>>,
    DbError,
> {
    match table_rows_spec(m, name) {
        Err(e) => Err(e),
        Ok((cols, rows)) => match positions_of(cols, names) {
            Err(e) => Err(e),
            Ok(idx) => Ok(project(rows, idx)),
        },
    }
}

/// The models of sequences of values.
pub open spec fn value_rows_view(rs: Seq<Vec<RecordValue>>) -> Seq<Seq<ValueModel>> {
    rs.map_values(|r: Vec<RecordValue>| values_view(r@))
}

/// The positions of the columns `names` in `columns`.
pub fn resolve_columns(columns: &Vec<ColumnInfo>, names: &Vec<String>) -> (r: Result<Vec<usize>, DbError>)
    ensures
        match positions_of(columns_view(columns@), names@.map_values(|n: String| n@)) {
            Ok(idx) => r matches Ok(v) && as_ints(v@) == idx,
            Err(e) => r == Err::<Vec<usize>, DbError>(e),
        },
{
    let ghost cols = columns_view(columns@);
    let ghost ns = names@.map_values(|n: String| n@);
    let mut out: Vec<usize> = Vec::new();
    let mut k: usize = 0;
    assert(ns.subrange(0, 0) =~= Seq::<Seq<char>>::empty());
    assert(as_ints(out@) =~= Seq::<int>::empty());
    while k < names.len()
        invariant
            cols == columns_view(columns@),
            ns == names@.map_values(|n: String| n@),
            k <= names@.len(),
            positions_of(cols, ns.subrange(0, k as int)) == Ok::<Seq<int>, DbError>(as_ints(out@)),
        decreases names@.len() - k,
    {
        assert(ns.subrange(0, k + 1).drop_last() =~= ns.subrange(0, k as int));
        assert(ns.subrange(0, k + 1).last() == names@[k as int]@);
        let nm = names[k].as_str();
        assert(nm@ == names@[k as int]@);
        let pos = match position_in(columns, nm) {
            Some(p) => p,
            None => {
                proof {
                    lemma_positions_err(cols, ns, k + 1);
                }
                return Err(DbError::SchemaNotFound);
            },
        };
        let ghost prev = out@;
        out.push(pos);
        assert(as_ints(out@) =~= as_ints(prev).push(pos as int));
        assert(positions_of(cols, ns.subrange(0, k + 1)) == Ok::<Seq<int>, DbError>(as_ints(out@)));
        k = k + 1;
    }
    assert(ns.subrange(0, names@.len() as int) =~= ns);
    Ok(out)
}

proof fn lemma_positions_err(cols: Seq<ColumnModel>, ns: Seq<Seq<char>>, k: int)
    requires
        0 <= k <= ns.len(),
        positions_of(cols, ns.subrange(0, k)) is Err,
    ensures
        positions_of(cols, ns) == positions_of(cols, ns.subrange(0, k)),
    decreases ns.len(),
{
    if ns.len() == k {
        assert(ns.subrange(0, k) =~= ns);
    } else {
        assert(ns.drop_last().subrange(0, k) =~= ns.subrange(0, k));
        lemma_positions_err(cols, ns.drop_last(), k);
    }
}

/// The position of the first column named `name`, up to ASCII case.
pub fn position_in(columns: &Vec<ColumnInfo>, name: &str) -> (r: Option<usize>)
    ensures
        match position_of(columns_view(columns@), name@) {
            Some(k) => r matches Some(p) && p == k && k < columns@.len(),
            None => r is None,
        },
{
    let ghost cols = columns_view(columns@);
    let mut i: usize = 0;
    assert(cols.subrange(0, 0) =~= Seq::<ColumnModel>::empty());
    while i < columns.len()
        invariant
            cols == columns_view(columns@),
            i <= cols.len(),
            position_of(cols.subrange(0, i as int), name@) is None,
        decreases cols.len() - i,
    {
        assert(cols.subrange(0, i + 1).drop_last() =~= cols.subrange(0, i as int));
        if crate::text::text_eq_ignore_case(columns[i].name.as_str(), name) {
            proof {
                lemma_position_prefix(cols, i + 1, name@);
            }
            return Some(i);
        }
        i = i + 1;
    }
    assert(cols.subrange(0, cols.len() as int) =~= cols);
    None
}

proof fn lemma_position_prefix(cols: Seq<ColumnModel>, k: int, name: Seq<char>)
    requires
        0 <= k <= cols.len(),
        position_of(cols.subrange(0, k), name) is Some,
    ensures
        position_of(cols, name) == position_of(cols.subrange(0, k), name),
        position_of(cols, name) matches Some(p) && 0 <= p < k,
    decreases cols.len(),
{
    if cols.len() == k {
        assert(cols.subrange(0, k) =~= cols);
        lemma_position_range(cols, name);
    } else {
        assert(cols.drop_last().subrange(0, k) =~= cols.subrange(0, k));
        lemma_position_prefix(cols.drop_last(), k, name);
    }
}

proof fn lemma_position_range(cols: Seq<ColumnModel>, name: Seq<char>)
    ensures
        position_of(cols, name) matches Some(p) ==> 0 <= p < cols.len(),
    decreases cols.len(),
{
    if cols.len() > 0 {
        lemma_position_range(cols.drop_last(), name);
    }
}

/// The values at positions `idx` of each row of `rows`.
pub fn project_rows(rows: &Vec<TableRow>, idx: &Vec<usize>) -> (r: Vec<Vec<RecordValue>>)
    ensures
        value_rows_view(r@) == project(rows_view(rows@), as_ints(idx@)),
{
    let ghost want = project(rows_view(rows@), as_ints(idx@));
    let mut out: Vec<Vec<RecordValue>> = Vec::new();
    let mut i: usize = 0;
    while i < rows.len()
        invariant
            want == project(rows_view(rows@), as_ints(idx@)),
            i <= rows@.len(),
            value_rows_view(out@) == want.subrange(0, i as int),
        decreases rows@.len() - i,
    {
        let row = &rows[i];
        let mut vals: Vec<RecordValue> = Vec::new();
        let mut j: usize = 0;
        while j < idx.len()
            invariant
                want == project(rows_view(rows@), as_ints(idx@)),
                i < rows@.len(),
                *row == rows@[i as int],
                j <= idx@.len(),
                values_view(vals@) == want[i as int].subrange(0, j as int),
            decreases idx@.len() - j,
        {
            let k = idx[j];
            let v = if k < row.values.len() {
                row.values[k].clone_value()
            } else {
                RecordValue::Null
            };
            let ghost prev = vals@;
            vals.push(v);
            assert(values_view(vals@) =~= values_view(prev).push(v@));
            assert(want[i as int].subrange(0, j + 1) =~= want[i as int].subrange(0, j as int).push(
                want[i as int][j as int],
            ));
            j = j + 1;
        }
        assert(want[i as int].subrange(0, idx@.len() as int) =~= want[i as int]);
        let ghost prev = out@;
        out.push(vals);
        assert(value_rows_view(out@) =~= value_rows_view(prev).push(values_view(vals@)));
        assert(want.subrange(0, i + 1) =~= want.subrange(0, i as int).push(want[i as int]));
        i = i + 1;
    }
    assert(want.subrange(0, rows@.len() as int) =~= want);
    out
}

/// The row that `cell` holds under the declared columns `columns`.
fn create_table_row(cell: &Cell, columns: &Vec<ColumnInfo>) -> (r: TableRow)
    ensures
        r@ == row_of(cell@, columns_view(columns@)),
{
    let ghost cols = columns_view(columns@);
    let ghost want = row_of(cell@, cols);
    let mut values: Vec<RecordValue> = Vec::new();
    let mut i: usize = 0;
    while i < columns.len()
        invariant
            cols == columns_view(columns@),
            want == row_of(cell@, cols),
            i <= cols.len(),
            values_view(values@) == want.values.subrange(0, i as int),
        decreases cols.len() - i,
    {
        let v = if columns[i].is_primary_key {
            RecordValue::Int(cell.row_id as i64)
        } else if i < cell.record.body.len() {
            cell.record.body[i].clone_value()
        } else {
            RecordValue::Null
        };
        let ghost prev = values@;
        values.push(v);
        assert(values_view(values@) =~= values_view(prev).push(v@));
        assert(want.values.subrange(0, i + 1) =~= want.values.subrange(0, i as int).push(
            want.values[i as int],
        ));
        i = i + 1;
    }
    assert(want.values.subrange(0, cols.len() as int) =~= want.values);
    TableRow { row_id: cell.row_id, values }
}

/// The cell count in the B-tree header of the root page of the table `name`.
pub open spec fn root_cell_count(m: DbImage, name: Seq<char>) -> Result<int, DbError> {
    match table_root_spec(m, name) {
        Err(e) => Err(e),
        Ok(root) => if !page_exists(m, root) {
            Err(DbError::ShortRead)
        } else {
            cell_count_spec(page_bytes(m, root), header_offset(root))
        },
    }
}

/// The cell count in the B-tree header of page 1.
pub open spec fn page_one_cell_count(m: DbImage) -> Result<int, DbError> {
    if !page_exists(m, 1) {
        Err(DbError::ShortRead)
    } else {
        cell_count_spec(page_bytes(m, 1), 100)
    }
}

/// The index that serves `column` of `table`, if the catalog holds one.
pub open spec fn index_for_column_spec(m: DbImage, table: Seq<char>, column: Seq<char>) -> Result<
    Option<SchemaModel>,
    DbError,
> {
    match catalog_cells(m) {
        Err(e) => Err(e),
        Ok(cs) => Ok(first_serving(objects_of(cs), 0, table, column)),
    }
}

proof fn lemma_rows_by_ids_err(m: DbImage, name: Seq<char>, ids: Seq<u64>, k: int)
    requires
        0 <= k <= ids.len(),
        rows_by_ids(m, name, ids.subrange(0, k)) is Err,
    ensures
        rows_by_ids(m, name, ids) == rows_by_ids(m, name, ids.subrange(0, k)),
    decreases ids.len(),
{
    if ids.len() == k {
        assert(ids.subrange(0, k) =~= ids);
    } else {
        assert(ids.drop_last().subrange(0, k) =~= ids.subrange(0, k));
        lemma_rows_by_ids_err(m, name, ids.drop_last(), k);
    }
}

impl Database {
    /// Every schema object of the catalog, in catalog order.
    pub fn get_all_schema_objects(&self) -> (r: Result<Vec<SchemaObject>, DbError>)
        requires
            self.wf(),
        ensures
            match catalog_cells(self@) {
                Ok(cs) => r matches Ok(v) && objects_view(v@) == objects_of(cs),
                Err(e) => r == Err::<Vec<SchemaObject>, DbError>(e),
            },
    {
        let cells = match self.collect_all_table_cells(1, MAX_TREE_DEPTH) {
            Ok(c) => c,
            Err(e) => return Err(e),
        };
        let ghost cs = cells_view(cells@);
        let mut objects: Vec<SchemaObject> = Vec::new();
        let mut i: usize = 0;
        assert(cs.subrange(0, 0) =~= Seq::<CellModel>::empty());
        assert(objects_view(objects@) =~= Seq::<SchemaModel>::empty());
        while i < cells.len()
            invariant
                cs == cells_view(cells@),
                i <= cs.len(),
                objects_view(objects@) == objects_of(cs.subrange(0, i as int)),
            decreases cs.len() - i,
        {
            assert(cs.subrange(0, i + 1).drop_last() =~= cs.subrange(0, i as int));
            assert(cs.subrange(0, i + 1).last() == cells@[i as int]@);
            match SchemaObject::from_record(&cells[i].record) {
                Some(o) => {
                    let ghost prev = objects@;
                    objects.push(o);
                    assert(objects_view(objects@) =~= objects_view(prev).push(o@));
                },
                None => {},
            }
            i = i + 1;
        }
        assert(cs.subrange(0, cs.len() as int) =~= cs);
        Ok(objects)
    }

    /// The names of the catalog's tables, in catalog order.
    pub fn get_table_names(&self) -> (r: Result<Vec<String>, DbError>)
        requires
            self.wf(),
        ensures
            match catalog_cells(self@) {
                Ok(cs) => r matches Ok(v) && v@.map_values(|s: String| s@) == table_names_of(cs),
                Err(e) => r == Err::<Vec<String>, DbError>(e),
            },
    {
        let cells = match self.collect_all_table_cells(1, MAX_TREE_DEPTH) {
            Ok(c) => c,
            Err(e) => return Err(e),
        };
        let ghost cs = cells_view(cells@);
        let mut names: Vec<String> = Vec::new();
        let mut i: usize = 0;
        assert(cs.subrange(0, 0) =~= Seq::<CellModel>::empty());
        assert(names@.map_values(|s: String| s@) =~= Seq::<Seq<char>>::empty());
        while i < cells.len()
            invariant
                cs == cells_view(cells@),
                i <= cs.len(),
                names@.map_values(|s: String| s@) == table_names_of(cs.subrange(0, i as int)),
            decreases cs.len() - i,
        {
            assert(cs.subrange(0, i + 1).drop_last() =~= cs.subrange(0, i as int));
            assert(cs.subrange(0, i + 1).last() == cells@[i as int]@);
            match cells[i].record.get_table_name() {
                Some(n) => {
                    let ghost prev = names@;
                    names.push(n);
                    assert(names@.map_values(|s: String| s@) =~= prev.map_values(|s: String| s@).push(
                        n@,
                    ));
                },
                None => {},
            }
            i = i + 1;
        }
        assert(cs.subrange(0, cs.len() as int) =~= cs);
        Ok(names)
    }

    /// The catalog row of the table `table_name`.
    pub fn find_table_info(&self, table_name: &str) -> (r: Result<Cell, DbError>)
        requires
            self.wf(),
        ensures
            match table_info_spec(self@, table_name@) {
                Ok(c) => r matches Ok(cell) && cell@ == c,
                Err(e) => r == Err::<Cell, DbError>(e),
            },
    {
        let mut cells = match self.collect_all_table_cells(1, MAX_TREE_DEPTH) {
            Ok(c) => c,
            Err(e) => return Err(e),
        };
        let ghost cs = cells_view(cells@);
        let mut i: usize = 0;
        while i < cells.len()
            invariant
                cs == cells_view(cells@),
                i <= cs.len(),
                table_info_spec(self@, table_name@) == match first_table_cell(cs, i as int, table_name@) {
                    Some(c) => Ok(c),
                    None => Err(DbError::SchemaNotFound),
                },
            decreases cs.len() - i,
        {
            let found = match cells[i].record.get_table_name() {
                Some(n) => text_eq(n.as_str(), table_name),
                None => false,
            };
            if found {
                let cell = cells.remove(i);
                return Ok(cell);
            }
            i = i + 1;
        }
        Err(DbError::SchemaNotFound)
    }

    /// The declared columns of the table `table_name`.
    pub fn get_col_names(&self, table_name: &str) -> (r: Result<Vec<ColumnInfo>, DbError>)
        requires
            self.wf(),
        ensures
            match table_columns_spec(self@, table_name@) {
                Ok(cols) => r matches Ok(v) && columns_view(v@) == cols,
                Err(e) => r == Err::<Vec<ColumnInfo>, DbError>(e),
            },
    {
        let info = match self.find_table_info(table_name) {
            Ok(c) => c,
            Err(e) => return Err(e),
        };
        let sql = match info.record.get_sql_schema() {
            Some(s) => s,
            None => return Err(DbError::SchemaNotFound),
        };
        match TableSchema::from_create_sql(sql.as_str()) {
            Ok(schema) => Ok(schema.columns),
            Err(e) => Err(e),
        }
    }

    /// The cell count of the root page of the table `table_name`; the rows of a
    /// table that fits in one leaf.
    pub fn count_table_rows(&self, table_name: &str) -> (r: Result<usize, DbError>)
        requires
            self.wf(),
        ensures
            match root_cell_count(self@, table_name@) {
                Ok(n) => r == Ok::<usize, DbError>(n as usize),
                Err(e) => r == Err::<usize, DbError>(e),
            },
    {
        let info = match self.find_table_info(table_name) {
            Ok(c) => c,
            Err(e) => return Err(e),
        };
        let root = match info.record.get_page_number() {
            Ok(p) => p,
            Err(e) => return Err(e),
        };
        let page = match self.read_page_data(root) {
            Ok(p) => p,
            Err(e) => return Err(e),
        };
        get_cell_count(page.as_slice(), Self::get_dbheader_offset(root))
    }

    /// The cell count of page 1: every row of the catalog that sits there.
    pub fn get_num_tables(&self) -> (r: Result<u16, DbError>)
        requires
            self.wf(),
        ensures
            match page_one_cell_count(self@) {
                Ok(n) => r == Ok::<u16, DbError>(n as u16),
                Err(e) => r == Err::<u16, DbError>(e),
            },
    {
        let page = match self.read_page_data(1) {
            Ok(p) => p,
            Err(e) => return Err(e),
        };
        match get_cell_count(page.as_slice(), 100) {
            Ok(n) => Ok(n as u16),
            Err(e) => Err(e),
        }
    }

    /// The index that serves `column_name` of `table_name`, if any.
    pub fn find_index_for_column(&self, table_name: &str, column_name: &str) -> (r: Result<
        Option<SchemaObject>,
        DbError,
    >)
        requires
            self.wf(),
        ensures
            match index_for_column_spec(self@, table_name@, column_name@) {
                Ok(Some(o)) => r matches Ok(Some(obj)) && obj@ == o,
                Ok(None) => r matches Ok(None),
                Err(e) => r == Err::<Option<SchemaObject>, DbError>(e),
            },
    {
        let mut objects = match self.get_all_schema_objects() {
            Ok(v) => v,
            Err(e) => return Err(e),
        };
        let mut pattern = "on ".to_owned();
        pattern.append(table_name);
        pattern.append(" (");
        pattern.append(column_name);
        pattern.append(")");
        let ghost os = objects_view(objects@);
        let mut i: usize = 0;
        while i < objects.len()
            invariant
                os == objects_view(objects@),
                pattern@ == index_pattern(table_name@, column_name@),
                i <= os.len(),
                index_for_column_spec(self@, table_name@, column_name@) == Ok::<
                    Option<SchemaModel>,
                    DbError,
                >(first_serving(os, i as int, table_name@, column_name@)),
            decreases os.len() - i,
        {
            let obj = &objects[i];
            let mut serves = false;
            if text_eq(obj.object_type.as_str(), "index") && text_eq(obj.tbl_name.as_str(), table_name) {
                match &obj.sql {
                    Some(sql) => {
                        let lowered = lowercase(sql.as_str());
                        serves = contains_text(lowered.as_str(), pattern.as_str());
                    },
                    None => {},
                }
            }
            if serves {
                let o = objects.remove(i);
                return Ok(Some(o));
            }
            i = i + 1;
        }
        Ok(None)
    }

    /// The row ids that a search of the index `index` for `search_value` yields.
    pub fn search_index(&self, index: &SchemaObject, search_value: &str) -> (r: Result<Vec<u64>, DbError>)
        requires
            self.wf(),
        ensures
            match index_search(self@, index.rootpage as int, search_value@, MAX_TREE_DEPTH as nat) {
                Ok(ids) => r matches Ok(v) && v@ == ids,
                Err(e) => r == Err::<Vec<u64>, DbError>(e),
            },
    {
        self.traverse_index_for_value(index.rootpage, search_value, MAX_TREE_DEPTH)
    }

    /// Every row of the table `table_name`, in B-tree order, with its columns.
    pub fn get_table_rows(&self, table_name: &str) -> (r: Result<TableRows, DbError>)
        requires
            self.wf(),
        ensures
            match table_rows_spec(self@, table_name@) {
                Ok((cols, rows)) => r matches Ok(t) && columns_view(t.columns@) == cols && rows_view(
                    t.rows@,
                ) == rows,
                Err(e) => r == Err::<TableRows, DbError>(e),
            },
    {
        let info = match self.find_table_info(table_name) {
            Ok(c) => c,
            Err(e) => return Err(e),
        };
        let columns = match self.get_col_names(table_name) {
            Ok(c) => c,
            Err(e) => return Err(e),
        };
        let root = match info.record.get_page_number() {
            Ok(p) => p,
            Err(e) => return Err(e),
        };
        let cells = match self.collect_all_table_cells(root, MAX_TREE_DEPTH) {
            Ok(c) => c,
            Err(e) => return Err(e),
        };
        let ghost cols = columns_view(columns@);
        let ghost want = rows_of(cells_view(cells@), cols);
        let mut rows: Vec<TableRow> = Vec::new();
        let mut i: usize = 0;
        while i < cells.len()
            invariant
                cols == columns_view(columns@),
                want == rows_of(cells_view(cells@), cols),
                i <= cells@.len(),
                rows_view(rows@) == want.subrange(0, i as int),
            decreases cells@.len() - i,
        {
            let row = create_table_row(&cells[i], &columns);
            let ghost prev = rows@;
            rows.push(row);
            assert(rows_view(rows@) =~= rows_view(prev).push(row@));
            assert(want.subrange(0, i + 1) =~= want.subrange(0, i as int).push(want[i as int]));
            i = i + 1;
        }
        assert(want.subrange(0, cells@.len() as int) =~= want);
        Ok(TableRows { columns, rows })
    }

    /// The row of the table `table_name` with row id `row_id`, found by a point probe.
    pub fn get_table_row_by_id(&self, table_name: &str, row_id: u64) -> (r: Result<Option<TableRow>, DbError>)
        requires
            self.wf(),
        ensures
            match row_by_id_spec(self@, table_name@, row_id) {
                Ok(Some(row)) => r matches Ok(Some(t)) && t@ == row,
                Ok(None) => r matches Ok(None),
                Err(e) => r == Err::<Option<TableRow>, DbError>(e),
            },
    {
        let info = match self.find_table_info(table_name) {
            Ok(c) => c,
            Err(e) => return Err(e),
        };
        let columns = match self.get_col_names(table_name) {
            Ok(c) => c,
            Err(e) => return Err(e),
        };
        let root = match info.record.get_page_number() {
            Ok(p) => p,
            Err(e) => return Err(e),
        };
        match self.search_table_for_row_id(root, row_id, MAX_TREE_DEPTH) {
            Ok(Some(cell)) => Ok(Some(create_table_row(&cell, &columns))),
            Ok(None) => Ok(None),
            Err(e) => Err(e),
        }
    }

    /// The rows of the table `table_name` with the row ids `row_ids`, in that
    /// order, each found by a point probe; ids that match no row are passed over.
    pub fn get_table_rows_by_ids(&self, table_name: &str, row_ids: &[u64]) -> (r: Result<TableRows, DbError>)
        requires
            self.wf(),
        ensures
            match table_columns_spec(self@, table_name@) {
                Err(e) => r == Err::<TableRows, DbError>(e),
                Ok(cols) => match rows_by_ids(self@, table_name@, row_ids@) {
                    Ok(rows) => r matches Ok(t) && columns_view(t.columns@) == cols && rows_view(
                        t.rows@,
                    ) == rows,
                    Err(e) => r == Err::<TableRows, DbError>(e),
                },
            },
    {
        let columns = match self.get_col_names(table_name) {
            Ok(c) => c,
            Err(e) => return Err(e),
        };
        let ghost ids = row_ids@;
        let mut rows: Vec<TableRow> = Vec::new();
        let mut i: usize = 0;
        assert(ids.subrange(0, 0) =~= Seq::<u64>::empty());
        assert(rows_view(rows@) =~= Seq::<RowModel>::empty());
        while i < row_ids.len()
            invariant
                self.wf(),
                ids == row_ids@,
                i <= ids.len(),
                rows_by_ids(self@, table_name@, ids.subrange(0, i as int)) == Ok::<Seq<RowModel>, DbError>(
                    rows_view(rows@),
                ),
            decreases ids.len() - i,
        {
            assert(ids.subrange(0, i + 1).drop_last() =~= ids.subrange(0, i as int));
            assert(ids.subrange(0, i + 1).last() == row_ids@[i as int]);
            match self.get_table_row_by_id(table_name, row_ids[i]) {
                Ok(Some(row)) => {
                    let ghost prev = rows@;
                    rows.push(row);
                    assert(rows_view(rows@) =~= rows_view(prev).push(row@));
                },
                Ok(None) => {},
                Err(e) => {
                    proof {
                        lemma_rows_by_ids_err(self@, table_name@, ids, i + 1);
                    }
                    return Err(e);
                },
            }
            i = i + 1;
        }
        assert(ids.subrange(0, ids.len() as int) =~= ids);
        Ok(TableRows { columns, rows })
    }

    /// The values of each row of the table `table_name` in the columns
    /// `column_names`, each looked up up to ASCII case.
    pub fn get_column_values(&self, table_name: &str, column_names: &[&str]) -> (r: Result<
        Vec<Vec<RecordValue>>,
        DbError,
    >)
        requires
            self.wf(),
        ensures
            match column_values_spec(self@, table_name@, column_names@.map_values(|s: &str| s@)) {
                Ok(vals) => r matches Ok(v) && value_rows_view(v@) == vals,
                Err(e) => r == Err::<Vec<Vec<RecordValue>>, DbError>(e),
            },
    {
        let table = match self.get_table_rows(table_name) {
            Ok(t) => t,
            Err(e) => return Err(e),
        };
        let mut names: Vec<String> = Vec::new();
        let mut k: usize = 0;
        while k < column_names.len()
            invariant
                k <= column_names@.len(),
                names@.map_values(|n: String| n@) == column_names@.map_values(|s: &str| s@).subrange(
                    0,
                    k as int,
                ),
            decreases column_names@.len() - k,
        {
            let c: &str = column_names[k];
            let n = c.to_owned();
            assert(n@ == column_names@[k as int]@);
            let ghost prev = names@;
            names.push(n);
            assert(names@.map_values(|n: String| n@) =~= prev.map_values(|n: String| n@).push(n@));
            assert(names@.map_values(|n: String| n@) =~= column_names@.map_values(|s: &str| s@).subrange(
                0,
                k + 1,
            ));
            k = k + 1;
        }
        assert(column_names@.map_values(|s: &str| s@).subrange(0, column_names@.len() as int)
            =~= column_names@.map_values(|s: &str| s@));
        let idx = match resolve_columns(&table.columns, &names) {
            Ok(v) => v,
            Err(e) => return Err(e),
        };
        Ok(project_rows(&table.rows, &idx))
    }
}

/// The root page that the catalog gives a table, once its rows have been read,
/// is a page of the image whose B-tree header is of a table type.
pub proof fn lemma_table_root_is_table_page(m: DbImage, t: Seq<char>)
    requires
        table_rows_spec(m, t) is Ok,
    ensures
        table_root_spec(m, t) is Ok,
        page_exists(m, table_root_spec(m, t)->Ok_0),
        page_type_spec(m, table_root_spec(m, t)->Ok_0) matches Ok(ty) && (ty == LEAF_TABLE_PAGE || ty
            == INTERIOR_TABLE_PAGE),
{
}

/// The root page of an index that a search has read is a page of the image
/// whose B-tree header is of an index type.
pub proof fn lemma_index_root_is_index_page(m: DbImage, root: int, value: Seq<char>)
    requires
        index_search(m, root, value, MAX_TREE_DEPTH as nat) is Ok,
    ensures
        page_exists(m, root),
        page_type_spec(m, root) matches Ok(ty) && (ty == LEAF_INDEX_PAGE || ty == INTERIOR_INDEX_PAGE),
{
}

} // verus!
