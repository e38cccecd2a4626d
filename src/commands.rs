//! The query executor: dot-commands, `SELECT` shapes, and `WHERE` filters.
use vstd::prelude::*;

use crate::catalog::{
    catalog_cells, index_for_column_spec, objects_of, objects_view, page_one_cell_count,
    position_in, position_of, positions_of, project, project_rows, resolve_columns,
    root_cell_count, row_by_id_spec, rows_by_ids, rows_view, table_columns_spec, table_names_of,
    table_root_spec, table_rows_spec, value_rows_view, RowModel, SchemaModel, SchemaObject,
    TableRow, TableRows,
};
use crate::database::{
    index_search, leaf_cell_total, lemma_table_cells_count, Database, DbImage, MAX_TREE_DEPTH,
};
use crate::error::DbError;
use crate::record::{display_of, values_view, RecordValue, ValueModel};
use crate::schema::{columns_view, ColumnInfo, ColumnModel};
use crate::text::{
    chars_of, decimal_nat, eq_ignore_case, find, find_in, occurs_at, occurs_in, pieces, push_char,
    push_decimal, split_bounds, split_on, text_between, text_eq, text_eq_ignore_case, trim,
    trim_bounds, word_bounds, words,
};
use vstd::utf8::encode_utf8;

verus! {

/// A comparison in a `WHERE` clause.
#[derive(Clone, Copy, Debug, PartialEq, Eq, Structural)]
pub enum ComparisonOperator {
    Equal,
    NotEqual,
    LessThan,
    LessThanOrEqual,
    GreaterThan,
    GreaterThanOrEqual,
}

/// A `WHERE <column> <operator> <value>` condition.
#[derive(Debug)]
pub struct WhereCondition {
    pub column_name: String,
    pub operator: ComparisonOperator,
    pub value: String,
}

/// The mathematical content of a [`WhereCondition`].
pub struct ConditionModel {
    pub column_name: Seq<char>,
    pub operator: ComparisonOperator,
    pub value: Seq<char>,
}

impl View for WhereCondition {
    type V = ConditionModel;

    open spec fn view(&self) -> ConditionModel {
        ConditionModel { column_name: self.column_name@, operator: self.operator, value: self.value@ }
    }
}

/// Whether `c` is a quote character that a literal may be wrapped in.
pub open spec fn is_quote(c: char) -> bool {
    c == '\'' || c == '"'
}

/// `v` without one pair of matching surrounding quotes, if it has them.
pub open spec fn unquote(v: Seq<char>) -> Seq<char> {
    if v.len() >= 2 && is_quote(v[0]) && v.last() == v[0] {
        v.subrange(1, v.len() - 1)
    } else {
        v
    }
}

/// The condition that the `WHERE` clause `s` states: the first ` = ` or, failing
/// that, the first ` != ` splits it into a column name and a literal.
pub open spec fn parse_where_spec(s: Seq<char>) -> Result<ConditionModel, DbError> {
    let t = trim(s);
    match find(t, " = "@, false) {
        Some(p) => Ok(
            ConditionModel {
                column_name: trim(t.subrange(0, p)),
                operator: ComparisonOperator::Equal,
                value: unquote(trim(t.subrange(p + 3, t.len() as int))),
            },
        ),
        None => match find(t, " != "@, false) {
            Some(p) => Ok(
                ConditionModel {
                    column_name: trim(t.subrange(0, p)),
                    operator: ComparisonOperator::NotEqual,
                    value: unquote(trim(t.subrange(p + 4, t.len() as int))),
                },
            ),
            None => Err(DbError::UnsupportedWhere),
        },
    }
}

/// Whether a value satisfies a condition: its display form equals, or differs
/// from, the literal.
pub open spec fn condition_holds(c: ConditionModel, v: ValueModel) -> bool {
    match c.operator {
        ComparisonOperator::Equal => display_of(v) == c.value,
        ComparisonOperator::NotEqual => display_of(v) != c.value,
        _ => false,
    }
}

/// The rows of `rows` whose value at position `k` satisfies `c`.
pub open spec fn filter_rows(rows: Seq<RowModel>, k: int, c: ConditionModel) -> Seq<RowModel>
    decreases rows.len(),
{
    if rows.len() == 0 {
        Seq::empty()
    } else {
        let pre = filter_rows(rows.drop_last(), k, c);
        let r = rows.last();
        if 0 <= k < r.values.len() && condition_holds(c, r.values[k]) {
            pre.push(r)
        } else {
            pre
        }
    }
}

/// The rows of a table that satisfy `c`, with its columns unchanged.
pub open spec fn where_filter_spec(cols: Seq<ColumnModel>, rows: Seq<RowModel>, c: ConditionModel) -> Result<
    Seq<RowModel>,
    DbError,
> {
    match position_of(cols, c.column_name) {
        None => Err(DbError::SchemaNotFound),
        Some(k) => Ok(filter_rows(rows, k, c)),
    }
}

/// The bounds within `lo..hi` of `v[lo..hi]` without one pair of matching quotes.
fn unquote_bounds(v: &Vec<char>, lo: usize, hi: usize) -> (r: (usize, usize))
    requires
        lo <= hi <= v@.len(),
    ensures
        lo <= r.0 <= r.1 <= hi,
        v@.subrange(r.0 as int, r.1 as int) == unquote(v@.subrange(lo as int, hi as int)),
{
    let ghost s = v@.subrange(lo as int, hi as int);
    if hi - lo >= 2 && (v[lo] == '\'' || v[lo] == '"') && v[hi - 1] == v[lo] {
        assert(s.subrange(1, s.len() - 1) =~= v@.subrange(lo + 1, hi - 1));
        (lo + 1, hi - 1)
    } else {
        (lo, hi)
    }
}

/// A copy of a value sequence.
pub fn clone_values(vs: &Vec<RecordValue>) -> (r: Vec<RecordValue>)
    ensures
        crate::record::values_view(r@) == crate::record::values_view(vs@),
{
    let mut out: Vec<RecordValue> = Vec::new();
    let mut i: usize = 0;
    while i < vs.len()
        invariant
            i <= vs@.len(),
            crate::record::values_view(out@) == crate::record::values_view(vs@).subrange(0, i as int),
        decreases vs@.len() - i,
    {
        let v = vs[i].clone_value();
        let ghost prev = out@;
        out.push(v);
        assert(crate::record::values_view(out@) =~= crate::record::values_view(prev).push(v@));
        assert(crate::record::values_view(vs@).subrange(0, i + 1) =~= crate::record::values_view(
            vs@,
        ).subrange(0, i as int).push(vs@[i as int]@));
        i = i + 1;
    }
    assert(crate::record::values_view(vs@).subrange(0, vs@.len() as int) =~= crate::record::values_view(vs@));
    out
}

/// A copy of a column list.
pub fn clone_columns(cs: &Vec<ColumnInfo>) -> (r: Vec<ColumnInfo>)
    ensures
        columns_view(r@) == columns_view(cs@),
{
    let mut out: Vec<ColumnInfo> = Vec::new();
    let mut i: usize = 0;
    while i < cs.len()
        invariant
            i <= cs@.len(),
            columns_view(out@) == columns_view(cs@).subrange(0, i as int),
        decreases cs@.len() - i,
    {
        let c = ColumnInfo { name: cs[i].name.clone(), index: cs[i].index, is_primary_key: cs[i].is_primary_key };
        let ghost prev = out@;
        out.push(c);
        assert(columns_view(out@) =~= columns_view(prev).push(c@));
        assert(columns_view(cs@).subrange(0, i + 1) =~= columns_view(cs@).subrange(0, i as int).push(
            cs@[i as int]@,
        ));
        i = i + 1;
    }
    assert(columns_view(cs@).subrange(0, cs@.len() as int) =~= columns_view(cs@));
    out
}

impl WhereCondition {
    /// Parses a `WHERE` clause of the form `<column> = <value>` or
    /// `<column> != <value>`; the value may be single- or double-quoted.
    pub fn parse(where_clause: &str) -> (r: Result<WhereCondition, DbError>)
        ensures
            match parse_where_spec(where_clause@) {
                Ok(c) => r matches Ok(w) && w@ == c,
                Err(e) => r == Err::<WhereCondition, DbError>(e),
            },
    {
        let v = chars_of(where_clause);
        let n = v.len();
        let (a, b) = trim_bounds(&v, 0, n);
        assert(v@.subrange(0, n as int) =~= v@);
        let ghost t = v@.subrange(a as int, b as int);
        let eq = chars_of(" = ");
        let ne = chars_of(" != ");
        proof {
            reveal_strlit(" = ");
            reveal_strlit(" != ");
        }
        let (pos, width, op) = match find_in(&v, a, b, &eq, false) {
            Some(p) => {
                assert(p + 3 <= b);
                (p, 3, ComparisonOperator::Equal)
            },
            None => match find_in(&v, a, b, &ne, false) {
                Some(p) => {
                    assert(p + 4 <= b);
                    (p, 4, ComparisonOperator::NotEqual)
                },
                None => return Err(DbError::UnsupportedWhere),
            },
        };
        assert(t.subrange(0, pos - a) =~= v@.subrange(a as int, pos as int));
        assert(t.subrange(pos - a + width, t.len() as int) =~= v@.subrange(pos + width, b as int));
        let (c1, c2) = trim_bounds(&v, a, pos);
        let (d1, d2) = trim_bounds(&v, pos + width, b);
        let (e1, e2) = unquote_bounds(&v, d1, d2);
        let column_name = text_between(where_clause, c1, c2);
        let value = text_between(where_clause, e1, e2);
        Ok(WhereCondition { column_name, operator: op, value })
    }

    /// Whether `record_value` satisfies this condition, comparing its display
    /// form with the literal. A real number's display form here is its bit
    /// pattern (`<REAL n>`), so no decimal literal such as `1.5` matches it.
    pub fn matches(&self, record_value: &RecordValue) -> (r: bool)
        ensures
            r == condition_holds(self@, record_value@),
    {
        let shown = record_value.to_display_string();
        match self.operator {
            ComparisonOperator::Equal => shown == self.value,
            ComparisonOperator::NotEqual => !(shown == self.value),
            _ => false,
        }
    }
}

/// The rows of `table_data` that satisfy `condition`, with the same columns.
pub fn apply_where_filter(table_data: &TableRows, condition: &WhereCondition) -> (r: Result<
    TableRows,
    DbError,
>)
    ensures
        match where_filter_spec(columns_view(table_data.columns@), rows_view(table_data.rows@), condition@) {
            Ok(rows) => r matches Ok(t) && columns_view(t.columns@) == columns_view(table_data.columns@)
                && rows_view(t.rows@) == rows,
            Err(e) => r == Err::<TableRows, DbError>(e),
        },
{
    let k = match position_in(&table_data.columns, condition.column_name.as_str()) {
        Some(k) => k,
        None => return Err(DbError::SchemaNotFound),
    };
    let ghost all = rows_view(table_data.rows@);
    let mut rows: Vec<TableRow> = Vec::new();
    let mut i: usize = 0;
    assert(all.subrange(0, 0) =~= Seq::<RowModel>::empty());
    assert(rows_view(rows@) =~= Seq::<RowModel>::empty());
    while i < table_data.rows.len()
        invariant
            all == rows_view(table_data.rows@),
            i <= all.len(),
            rows_view(rows@) == filter_rows(all.subrange(0, i as int), k as int, condition@),
        decreases all.len() - i,
    {
        let row = &table_data.rows[i];
        assert(all.subrange(0, i + 1).drop_last() =~= all.subrange(0, i as int));
        assert(all.subrange(0, i + 1).last() == row@);
        if k < row.values.len() && condition.matches(&row.values[k]) {
            let copy = TableRow { row_id: row.row_id, values: clone_values(&row.values) };
            let ghost prev = rows@;
            rows.push(copy);
            assert(rows_view(rows@) =~= rows_view(prev).push(copy@));
        }
        i = i + 1;
    }
    assert(all.subrange(0, all.len() as int) =~= all);
    Ok(TableRows { columns: clone_columns(&table_data.columns), rows })
}

/// What a command prints: text lines, then one line per row of values, the
/// values separated by `|`.
#[derive(Debug)]
pub struct QueryOutput {
    pub lines: Vec<String>,
    pub rows: Vec<Vec<RecordValue>>,
}

/// The mathematical content of a [`QueryOutput`].
pub struct OutputModel {
    pub lines: Seq<Seq<char>>,
    pub rows: Seq<Seq<ValueModel>>,
}

impl View for QueryOutput {
    type V = OutputModel;

    open spec fn view(&self) -> OutputModel {
        OutputModel { lines: texts_view(self.lines@), rows: value_rows_view(self.rows@) }
    }
}

/// The characters of each text.
pub open spec fn texts_view(ts: Seq<String>) -> Seq<Seq<char>> {
    ts.map_values(|t: String| t@)
}

/// The texts `parts` with `sep` between each two.
pub open spec fn join(parts: Seq<Seq<char>>, sep: Seq<char>) -> Seq<char>
    decreases parts.len(),
{
    if parts.len() == 0 {
        Seq::empty()
    } else if parts.len() == 1 {
        parts[0]
    } else {
        join(parts.drop_last(), sep) + sep + parts.last()
    }
}

/// `n` dashes.
pub open spec fn dashes(n: nat) -> Seq<char> {
    Seq::new(n, |i: int| '-')
}

/// The header line of a full-table result: the column names joined by `|`.
pub open spec fn header_line(cols: Seq<ColumnModel>) -> Seq<char> {
    join(cols.map_values(|c: ColumnModel| c.name), "|"@)
}

/// The dashes under a column name: as many as its UTF-8 bytes, at least ten.
pub open spec fn rule_for(name: Seq<char>) -> Seq<char> {
    let n = encode_utf8(name).len();
    dashes(if n < 10 {
        10
    } else {
        n
    })
}

/// The separator line of a full-table result.
pub open spec fn separator_line(cols: Seq<ColumnModel>) -> Seq<char> {
    join(cols.map_values(|c: ColumnModel| rule_for(c.name)), "|"@)
}

/// The line that describes a schema object.
pub open spec fn object_line(o: SchemaModel) -> Seq<char> {
    o.object_type + ": "@ + o.name + " (table: "@ + o.tbl_name + ", page: "@ + decimal_nat(
        o.rootpage as nat,
    ) + ")"@
}

/// The lines of `.schema`: each object's line, followed by its SQL when it has one.
pub open spec fn schema_lines(os: Seq<SchemaModel>) -> Seq<Seq<char>>
    decreases os.len(),
{
    if os.len() == 0 {
        Seq::empty()
    } else {
        let o = os.last();
        let pre = schema_lines(os.drop_last()).push(object_line(o));
        match o.sql {
            Some(sql) => pre.push("  SQL: "@ + sql),
            None => pre,
        }
    }
}

/// An output of text lines only.
pub open spec fn text_output(lines: Seq<Seq<char>>) -> OutputModel {
    OutputModel { lines, rows: Seq::empty() }
}

/// What `.dbinfo` prints.
pub open spec fn dbinfo_spec(m: DbImage) -> Result<OutputModel, DbError> {
    match page_one_cell_count(m) {
        Err(e) => Err(e),
        Ok(n) => Ok(
            text_output(
                seq![
                    "database page size: "@ + decimal_nat(m.page_size),
                    "number of tables: "@ + decimal_nat(n as nat),
                ],
            ),
        ),
    }
}

/// What `.tables` prints.
pub open spec fn tables_spec(m: DbImage) -> Result<OutputModel, DbError> {
    match catalog_cells(m) {
        Err(e) => Err(e),
        Ok(cs) => Ok(text_output(table_names_of(cs))),
    }
}

/// What `.schema` prints.
pub open spec fn schema_spec(m: DbImage) -> Result<OutputModel, DbError> {
    match catalog_cells(m) {
        Err(e) => Err(e),
        Ok(cs) => Ok(text_output(schema_lines(objects_of(cs)))),
    }
}

/// The position of the first of `parts[i..]` that is the word `where`.
pub open spec fn where_position(parts: Seq<Seq<char>>, i: int) -> Option<int>
    decreases parts.len() - i,
{
    if i < 0 || i >= parts.len() {
        None
    } else if eq_ignore_case(parts[i], "where"@) {
        Some(i)
    } else {
        where_position(parts, i + 1)
    }
}

/// The table name and optional condition of the words after `FROM`.
pub open spec fn table_and_where_spec(parts: Seq<Seq<char>>) -> Result<
    (Seq<char>, Option<ConditionModel>),
    DbError,
> {
    if parts.len() == 0 {
        Err(DbError::UnsupportedSQL)
    } else {
        match where_position(parts, 0) {
            None => Ok((parts[0], None)),
            Some(w) => if w == 0 {
                Err(DbError::UnsupportedSQL)
            } else {
                match parse_where_spec(join(parts.subrange(w + 1, parts.len() as int), " "@)) {
                    Err(e) => Err(e),
                    Ok(c) => Ok((parts[0], Some(c))),
                }
            },
        }
    }
}

/// The values of each row.
pub open spec fn row_values(rows: Seq<RowModel>) -> Seq<Seq<ValueModel>> {
    rows.map_values(|r: RowModel| r.values)
}

/// What `SELECT COUNT(*) FROM ...` prints, given the words after `SELECT`.
pub open spec fn count_spec(m: DbImage, ws: Seq<Seq<char>>) -> Result<OutputModel, DbError> {
    if ws.len() < 3 || !eq_ignore_case(ws[1], "from"@) {
        Err(DbError::UnsupportedSQL)
    } else {
        match root_cell_count(m, ws[2]) {
            Err(e) => Err(e),
            Ok(n) => Ok(text_output(seq![decimal_nat(n as nat)])),
        }
    }
}

/// The rows of `table`, filtered by `cond` when there is one.
pub open spec fn scan_spec(m: DbImage, table: Seq<char>, cond: Option<ConditionModel>) -> Result<
    (Seq<ColumnModel>, Seq<RowModel>),
    DbError,
> {
    match table_rows_spec(m, table) {
        Err(e) => Err(e),
        Ok((cols, rows)) => match cond {
            None => Ok((cols, rows)),
            Some(c) => match where_filter_spec(cols, rows, c) {
                Err(e) => Err(e),
                Ok(f) => Ok((cols, f)),
            },
        },
    }
}

/// What `SELECT * FROM ...` prints, given the words after `SELECT`.
pub open spec fn star_spec(m: DbImage, ws: Seq<Seq<char>>) -> Result<OutputModel, DbError> {
    if ws.len() < 2 || !eq_ignore_case(ws[1], "from"@) {
        Err(DbError::UnsupportedSQL)
    } else {
        match table_and_where_spec(ws.subrange(2, ws.len() as int)) {
            Err(e) => Err(e),
            Ok((table, cond)) => match table_rows_spec(m, table) {
                Err(e) => Err(e),
                Ok((cols, _)) => if cols.len() == 0 {
                    Err(DbError::SchemaNotFound)
                } else {
                    match scan_spec(m, table, cond) {
                        Err(e) => Err(e),
                        Ok((_, rows)) => Ok(
                            OutputModel {
                                lines: seq![header_line(cols), separator_line(cols)],
                                rows: row_values(rows),
                            },
                        ),
                    }
                },
            },
        }
    }
}

/// The rows that an equality condition selects through the index `ix`: its
/// row ids, each fetched by a point probe.
pub open spec fn index_rows_spec(m: DbImage, table: Seq<char>, ix: SchemaModel, c: ConditionModel) -> Result<
    (Seq<ColumnModel>, Seq<RowModel>),
    DbError,
> {
    match index_search(m, ix.rootpage, c.value, MAX_TREE_DEPTH as nat) {
        Err(e) => Err(e),
        Ok(ids) => match table_columns_spec(m, table) {
            Err(e) => Err(e),
            Ok(cols) => match rows_by_ids(m, table, ids) {
                Err(e) => Err(e),
                Ok(rows) => Ok((cols, rows)),
            },
        },
    }
}

/// The rows that a column query reads: through an index for an equality
/// condition on an indexed column, else by a full scan and filter.
pub open spec fn selected_rows_spec(m: DbImage, table: Seq<char>, cond: Option<ConditionModel>) -> Result<
    (Seq<ColumnModel>, Seq<RowModel>),
    DbError,
> {
    match cond {
        Some(c) => if c.operator == ComparisonOperator::Equal {
            match index_for_column_spec(m, table, c.column_name) {
                Ok(Some(ix)) => index_rows_spec(m, table, ix, c),
                _ => scan_spec(m, table, cond),
            }
        } else {
            scan_spec(m, table, cond)
        },
        None => scan_spec(m, table, cond),
    }
}

/// The table name and optional condition of the text after ` FROM `.
pub open spec fn from_clause_spec(faw: Seq<char>) -> Result<(Seq<char>, Option<ConditionModel>), DbError> {
    match find(faw, " where "@, true) {
        None => Ok((faw, None)),
        Some(w) => match parse_where_spec(trim(faw.subrange(w + 7, faw.len() as int))) {
            Err(e) => Err(e),
            Ok(c) => Ok((trim(faw.subrange(0, w)), Some(c))),
        },
    }
}

/// The requested column names of a column query: the text before ` FROM `,
/// split at commas and trimmed.
pub open spec fn requested_columns(cstr: Seq<char>) -> Seq<Seq<char>> {
    split_on(cstr, ',').map_values(|p: Seq<char>| trim(p))
}

/// What `SELECT <columns> FROM ...` prints, given the text after `SELECT `.
pub open spec fn columns_query_spec(m: DbImage, after: Seq<char>) -> Result<OutputModel, DbError> {
    match find(after, " from "@, true) {
        None => Err(DbError::UnsupportedSQL),
        Some(f) => {
            let names = requested_columns(trim(after.subrange(0, f)));
            match from_clause_spec(trim(after.subrange(f + 6, after.len() as int))) {
                Err(e) => Err(e),
                Ok((table, cond)) => match selected_rows_spec(m, table, cond) {
                    Err(e) => Err(e),
                    Ok((cols, rows)) => if cols.len() == 0 {
                        Err(DbError::SchemaNotFound)
                    } else {
                        match positions_of(cols, names) {
                            Err(e) => Err(e),
                            Ok(idx) => Ok(
                                OutputModel { lines: seq![join(names, "|"@)], rows: project(rows, idx) },
                            ),
                        }
                    },
                },
            }
        },
    }
}

/// What a `SELECT` query prints.
pub open spec fn select_spec(m: DbImage, q: Seq<char>) -> Result<OutputModel, DbError> {
    if !occurs_at(q, 0, "select "@, true) {
        Err(DbError::UnsupportedSQL)
    } else {
        let after = q.subrange(7, q.len() as int);
        if occurs_at(after, 0, "count(*)"@, true) {
            count_spec(m, words(after))
        } else if after.len() > 0 && after[0] == '*' {
            star_spec(m, words(after))
        } else {
            columns_query_spec(m, after)
        }
    }
}

/// What a command prints: `.dbinfo`, `.tables`, `.schema`, or a `SELECT` query.
pub open spec fn command_spec(m: DbImage, cmd: Seq<char>) -> Result<OutputModel, DbError> {
    if cmd == ".dbinfo"@ {
        dbinfo_spec(m)
    } else if cmd == ".tables"@ {
        tables_spec(m)
    } else if cmd == ".schema"@ {
        schema_spec(m)
    } else {
        let ws = words(cmd);
        if ws.len() == 0 || !eq_ignore_case(ws[0], "select"@) {
            Err(DbError::UnsupportedSQL)
        } else {
            select_spec(m, cmd)
        }
    }
}

/// The model of an optional condition.
pub open spec fn cond_view(c: Option<WhereCondition>) -> Option<ConditionModel> {
    match c {
        Some(w) => Some(w@),
        None => None,
    }
}

/// The texts `parts` joined with `sep` between each two.
fn join_texts(parts: &[String], sep: &str) -> (r: String)
    ensures
        r@ == join(texts_view(parts@), sep@),
{
    let ghost ps = texts_view(parts@);
    let mut out = String::new();
    let mut i: usize = 0;
    assert(ps.subrange(0, 0) =~= Seq::<Seq<char>>::empty());
    while i < parts.len()
        invariant
            ps == texts_view(parts@),
            i <= ps.len(),
            out@ == join(ps.subrange(0, i as int), sep@),
        decreases ps.len() - i,
    {
        assert(ps.subrange(0, i + 1).drop_last() =~= ps.subrange(0, i as int));
        assert(ps.subrange(0, i + 1).last() == parts@[i as int]@);
        if i == 0 {
            out = parts[i].clone();
        } else {
            out.append(sep);
            out.append(parts[i].as_str());
        }
        i = i + 1;
    }
    assert(ps.subrange(0, ps.len() as int) =~= ps);
    out
}

/// The texts of the pieces of `s` (whose characters are `v`) that `bounds` mark.
fn texts_of(s: &str, v: &Vec<char>, bounds: &Vec<(usize, usize)>, lo: usize, hi: usize, trimmed: bool) -> (r: Vec<String>)
    requires
        v@ == s@,
        hi <= v@.len(),
        forall|k: int| 0 <= k < bounds@.len() ==> lo <= #[trigger] bounds@[k].0 <= bounds@[k].1 <= hi,
    ensures
        texts_view(r@) == if trimmed {
            pieces(v@, bounds@).map_values(|p: Seq<char>| trim(p))
        } else {
            pieces(v@, bounds@)
        },
{
    let ghost want = if trimmed {
        pieces(v@, bounds@).map_values(|p: Seq<char>| trim(p))
    } else {
        pieces(v@, bounds@)
    };
    let mut out: Vec<String> = Vec::new();
    let mut i: usize = 0;
    while i < bounds.len()
        invariant
            v@ == s@,
            hi <= v@.len(),
            forall|k: int| 0 <= k < bounds@.len() ==> lo <= #[trigger] bounds@[k].0 <= bounds@[k].1 <= hi,
            want == if trimmed {
                pieces(v@, bounds@).map_values(|p: Seq<char>| trim(p))
            } else {
                pieces(v@, bounds@)
            },
            i <= bounds@.len(),
            texts_view(out@) == want.subrange(0, i as int),
        decreases bounds@.len() - i,
    {
        let (a, b) = bounds[i];
        assert(lo <= bounds@[i as int].0 <= bounds@[i as int].1 <= hi);
        let t = if trimmed {
            let (x, y) = trim_bounds(v, a, b);
            text_between(s, x, y)
        } else {
            text_between(s, a, b)
        };
        let ghost prev = out@;
        out.push(t);
        assert(texts_view(out@) =~= texts_view(prev).push(t@));
        assert(want.subrange(0, i + 1) =~= want.subrange(0, i as int).push(want[i as int]));
        i = i + 1;
    }
    assert(want.subrange(0, bounds@.len() as int) =~= want);
    out
}

/// Whether `v[lo..]`, with ASCII upper-case letters folded to lower case, starts with `pat`.
fn starts_with_ci(v: &Vec<char>, lo: usize, pat: &Vec<char>) -> (r: bool)
    requires
        lo <= v@.len(),
    ensures
        r == occurs_at(v@.subrange(lo as int, v@.len() as int), 0, pat@, true),
{
    let ghost after = v@.subrange(lo as int, v@.len() as int);
    if pat.len() > v.len() - lo {
        return false;
    }
    assert(after.subrange(0, pat@.len() as int) =~= v@.subrange(lo as int, lo + pat@.len()));
    occurs_in(v, lo, pat, true)
}

/// A line of text made of a literal and a decimal numeral.
fn labelled_number(label: &str, n: u64) -> (r: String)
    ensures
        r@ == label@ + decimal_nat(n as nat),
{
    let mut s = label.to_owned();
    push_decimal(&mut s, n);
    s
}

/// The line that describes a schema object.
fn describe_object(o: &SchemaObject) -> (r: String)
    ensures
        r@ == object_line(o@),
{
    let mut s = o.object_type.clone();
    s.append(": ");
    s.append(o.name.as_str());
    s.append(" (table: ");
    s.append(o.tbl_name.as_str());
    s.append(", page: ");
    push_decimal(&mut s, o.rootpage as u64);
    s.append(")");
    s
}

/// The dashes under a column name.
fn rule(name: &String) -> (r: String)
    ensures
        r@ == rule_for(name@),
{
    let n = name.as_str().as_bytes().len();
    let width = if n < 10 {
        10
    } else {
        n
    };
    let mut s = String::new();
    let mut i: usize = 0;
    while i < width
        invariant
            i <= width,
            s@ == dashes(i as nat),
        decreases width - i,
    {
        push_char(&mut s, '-');
        assert(s@ =~= dashes((i + 1) as nat));
        i = i + 1;
    }
    s
}

/// What `.dbinfo` prints.
fn handle_dbinfo(db: &Database) -> (r: Result<QueryOutput, DbError>)
    requires
        db.wf(),
    ensures
        match dbinfo_spec(db@) {
            Ok(o) => r matches Ok(out) && out@ == o,
            Err(e) => r == Err::<QueryOutput, DbError>(e),
        },
{
    let count = match db.get_num_tables() {
        Ok(n) => n,
        Err(e) => return Err(e),
    };
    let mut lines: Vec<String> = Vec::new();
    lines.push(labelled_number("database page size: ", db.get_page_size() as u64));
    lines.push(labelled_number("number of tables: ", count as u64));
    let out = QueryOutput { lines, rows: Vec::new() };
    assert(out@.lines =~= dbinfo_spec(db@)->Ok_0.lines);
    assert(out@.rows =~= Seq::<Seq<ValueModel>>::empty());
    Ok(out)
}

/// What `.tables` prints.
fn handle_tables(db: &Database) -> (r: Result<QueryOutput, DbError>)
    requires
        db.wf(),
    ensures
        match tables_spec(db@) {
            Ok(o) => r matches Ok(out) && out@ == o,
            Err(e) => r == Err::<QueryOutput, DbError>(e),
        },
{
    let names = match db.get_table_names() {
        Ok(n) => n,
        Err(e) => return Err(e),
    };
    let out = QueryOutput { lines: names, rows: Vec::new() };
    assert(out@.rows =~= Seq::<Seq<ValueModel>>::empty());
    Ok(out)
}

/// What `.schema` prints.
fn handle_schema(db: &Database) -> (r: Result<QueryOutput, DbError>)
    requires
        db.wf(),
    ensures
        match schema_spec(db@) {
            Ok(o) => r matches Ok(out) && out@ == o,
            Err(e) => r == Err::<QueryOutput, DbError>(e),
        },
{
    let objects = match db.get_all_schema_objects() {
        Ok(v) => v,
        Err(e) => return Err(e),
    };
    let ghost os = objects_view(objects@);
    let mut lines: Vec<String> = Vec::new();
    let mut i: usize = 0;
    assert(os.subrange(0, 0) =~= Seq::<SchemaModel>::empty());
    assert(texts_view(lines@) =~= Seq::<Seq<char>>::empty());
    while i < objects.len()
        invariant
            os == objects_view(objects@),
            i <= os.len(),
            texts_view(lines@) == schema_lines(os.subrange(0, i as int)),
        decreases os.len() - i,
    {
        let o = &objects[i];
        assert(os.subrange(0, i + 1).drop_last() =~= os.subrange(0, i as int));
        assert(os.subrange(0, i + 1).last() == o@);
        let line = describe_object(o);
        let ghost prev = lines@;
        lines.push(line);
        assert(texts_view(lines@) =~= texts_view(prev).push(line@));
        match &o.sql {
            Some(sql) => {
                let mut t = "  SQL: ".to_owned();
                t.append(sql.as_str());
                let ghost mid = lines@;
                lines.push(t);
                assert(texts_view(lines@) =~= texts_view(mid).push(t@));
            },
            None => {},
        }
        i = i + 1;
    }
    assert(os.subrange(0, os.len() as int) =~= os);
    let out = QueryOutput { lines, rows: Vec::new() };
    assert(out@.rows =~= Seq::<Seq<ValueModel>>::empty());
    Ok(out)
}

/// What `SELECT COUNT(*) FROM ...` prints, given the words after `SELECT`.
fn handle_select_count_from_remaining(db: &Database, words: &Vec<String>) -> (r: Result<QueryOutput, DbError>)
    requires
        db.wf(),
    ensures
        match count_spec(db@, texts_view(words@)) {
            Ok(o) => r matches Ok(out) && out@ == o,
            Err(e) => r == Err::<QueryOutput, DbError>(e),
        },
{
    if words.len() < 3 || !text_eq_ignore_case(words[1].as_str(), "from") {
        return Err(DbError::UnsupportedSQL);
    }
    let count = match db.count_table_rows(words[2].as_str()) {
        Ok(n) => n,
        Err(e) => return Err(e),
    };
    let mut line = String::new();
    push_decimal(&mut line, count as u64);
    let mut lines: Vec<String> = Vec::new();
    lines.push(line);
    let out = QueryOutput { lines, rows: Vec::new() };
    assert(out@.lines =~= count_spec(db@, texts_view(words@))->Ok_0.lines);
    assert(out@.rows =~= Seq::<Seq<ValueModel>>::empty());
    Ok(out)
}

/// The position of the first of `parts` that is the word `where`.
fn find_where(parts: &[String]) -> (r: Option<usize>)
    ensures
        match where_position(texts_view(parts@), 0) {
            Some(k) => r matches Some(i) && i == k && k < parts@.len(),
            None => r is None,
        },
{
    let ghost ps = texts_view(parts@);
    let mut i: usize = 0;
    while i < parts.len()
        invariant
            ps == texts_view(parts@),
            i <= ps.len(),
            where_position(ps, 0) == where_position(ps, i as int),
        decreases ps.len() - i,
    {
        assert(ps[i as int] == parts@[i as int]@);
        if text_eq_ignore_case(parts[i].as_str(), "where") {
            return Some(i);
        }
        i = i + 1;
    }
    None
}

/// The table name and optional condition of the words after `FROM`.
pub fn parse_table_and_where(parts: &[String]) -> (r: Result<(String, Option<WhereCondition>), DbError>)
    ensures
        match table_and_where_spec(texts_view(parts@)) {
            Ok((t, c)) => r matches Ok((table, cond)) && table@ == t && cond_view(cond) == c,
            Err(e) => r == Err::<(String, Option<WhereCondition>), DbError>(e),
        },
{
    let ghost ps = texts_view(parts@);
    if parts.len() == 0 {
        return Err(DbError::UnsupportedSQL);
    }
    let i = match find_where(parts) {
        None => return Ok((parts[0].clone(), None)),
        Some(i) => i,
    };
    if i == 0 {
        return Err(DbError::UnsupportedSQL);
    }
    let rest = &parts[i + 1..parts.len()];
    assert(texts_view(rest@) =~= ps.subrange(i + 1, ps.len() as int));
    let clause = join_texts(rest, " ");
    match WhereCondition::parse(clause.as_str()) {
        Ok(c) => Ok((parts[0].clone(), Some(c))),
        Err(e) => Err(e),
    }
}

/// The rows of `table`, filtered by `cond` when there is one.
fn scan_rows(db: &Database, table: &str, cond: &Option<WhereCondition>) -> (r: Result<TableRows, DbError>)
    requires
        db.wf(),
    ensures
        match scan_spec(db@, table@, cond_view(*cond)) {
            Ok((cols, rows)) => r matches Ok(t) && columns_view(t.columns@) == cols && rows_view(t.rows@)
                == rows,
            Err(e) => r == Err::<TableRows, DbError>(e),
        },
{
    let data = match db.get_table_rows(table) {
        Ok(t) => t,
        Err(e) => return Err(e),
    };
    match cond {
        None => Ok(data),
        Some(c) => apply_where_filter(&data, c),
    }
}

/// The rows that a column query reads: through an index for an equality
/// condition on an indexed column, else by a full scan and filter.
fn select_rows(db: &Database, table: &str, cond: &Option<WhereCondition>) -> (r: Result<TableRows, DbError>)
    requires
        db.wf(),
    ensures
        match selected_rows_spec(db@, table@, cond_view(*cond)) {
            Ok((cols, rows)) => r matches Ok(t) && columns_view(t.columns@) == cols && rows_view(t.rows@)
                == rows,
            Err(e) => r == Err::<TableRows, DbError>(e),
        },
{
    match cond {
        Some(c) => {
            if c.operator == ComparisonOperator::Equal {
                match db.find_index_for_column(table, c.column_name.as_str()) {
                    Ok(Some(index)) => {
                        let ids = match db.search_index(&index, c.value.as_str()) {
                            Ok(v) => v,
                            Err(e) => return Err(e),
                        };
                        db.get_table_rows_by_ids(table, ids.as_slice())
                    },
                    _ => scan_rows(db, table, cond),
                }
            } else {
                scan_rows(db, table, cond)
            }
        },
        None => scan_rows(db, table, cond),
    }
}

/// The values of the columns `column_names`, looked up up to ASCII case, of
/// each row of `table_data`.
pub fn extract_columns(table_data: &TableRows, column_names: &Vec<String>) -> (r: Result<
    Vec<Vec<RecordValue>>,
    DbError,
>)
    ensures
        match positions_of(columns_view(table_data.columns@), texts_view(column_names@)) {
            Ok(idx) => r matches Ok(v) && value_rows_view(v@) == project(rows_view(table_data.rows@), idx),
            Err(e) => r == Err::<Vec<Vec<RecordValue>>, DbError>(e),
        },
{
    let idx = match resolve_columns(&table_data.columns, column_names) {
        Ok(i) => i,
        Err(e) => return Err(e),
    };
    assert(texts_view(column_names@) =~= column_names@.map_values(|n: String| n@));
    Ok(project_rows(&table_data.rows, &idx))
}

/// The values of each row.
fn values_of_rows(rows: &Vec<TableRow>) -> (r: Vec<Vec<RecordValue>>)
    ensures
        value_rows_view(r@) == row_values(rows_view(rows@)),
{
    let ghost want = row_values(rows_view(rows@));
    let mut out: Vec<Vec<RecordValue>> = Vec::new();
    let mut i: usize = 0;
    while i < rows.len()
        invariant
            want == row_values(rows_view(rows@)),
            i <= rows@.len(),
            value_rows_view(out@) == want.subrange(0, i as int),
        decreases rows@.len() - i,
    {
        let vals = clone_values(&rows[i].values);
        let ghost prev = out@;
        out.push(vals);
        assert(value_rows_view(out@) =~= value_rows_view(prev).push(values_view(vals@)));
        assert(want.subrange(0, i + 1) =~= want.subrange(0, i as int).push(want[i as int]));
        i = i + 1;
    }
    assert(want.subrange(0, rows@.len() as int) =~= want);
    out
}

/// The header and separator lines of a full-table result.
fn header_lines(columns: &Vec<ColumnInfo>) -> (r: Vec<String>)
    ensures
        texts_view(r@) == seq![header_line(columns_view(columns@)), separator_line(columns_view(columns@))],
{
    let ghost cols = columns_view(columns@);
    let mut names: Vec<String> = Vec::new();
    let mut rules: Vec<String> = Vec::new();
    let mut i: usize = 0;
    while i < columns.len()
        invariant
            cols == columns_view(columns@),
            i <= cols.len(),
            texts_view(names@) == cols.map_values(|c: ColumnModel| c.name).subrange(0, i as int),
            texts_view(rules@) == cols.map_values(|c: ColumnModel| rule_for(c.name)).subrange(0, i as int),
        decreases cols.len() - i,
    {
        let n = columns[i].name.clone();
        let d = rule(&columns[i].name);
        let ghost pn = names@;
        let ghost pr = rules@;
        names.push(n);
        rules.push(d);
        assert(texts_view(names@) =~= texts_view(pn).push(n@));
        assert(texts_view(rules@) =~= texts_view(pr).push(d@));
        assert(cols.map_values(|c: ColumnModel| c.name).subrange(0, i + 1) =~= cols.map_values(
            |c: ColumnModel| c.name,
        ).subrange(0, i as int).push(cols[i as int].name));
        assert(cols.map_values(|c: ColumnModel| rule_for(c.name)).subrange(0, i + 1) =~= cols.map_values(
            |c: ColumnModel| rule_for(c.name),
        ).subrange(0, i as int).push(rule_for(cols[i as int].name)));
        i = i + 1;
    }
    assert(cols.map_values(|c: ColumnModel| c.name).subrange(0, cols.len() as int) =~= cols.map_values(
        |c: ColumnModel| c.name,
    ));
    assert(cols.map_values(|c: ColumnModel| rule_for(c.name)).subrange(0, cols.len() as int)
        =~= cols.map_values(|c: ColumnModel| rule_for(c.name)));
    let mut out: Vec<String> = Vec::new();
    let h = join_texts(names.as_slice(), "|");
    let s = join_texts(rules.as_slice(), "|");
    out.push(h);
    out.push(s);
    assert(texts_view(out@) =~= seq![h@, s@]);
    out
}

/// What `SELECT * FROM ...` prints, given the words after `SELECT`.
fn handle_select_all_from_remaining(db: &Database, words: &Vec<String>) -> (r: Result<QueryOutput, DbError>)
    requires
        db.wf(),
    ensures
        match star_spec(db@, texts_view(words@)) {
            Ok(o) => r matches Ok(out) && out@ == o,
            Err(e) => r == Err::<QueryOutput, DbError>(e),
        },
{
    if words.len() < 2 || !text_eq_ignore_case(words[1].as_str(), "from") {
        return Err(DbError::UnsupportedSQL);
    }
    let rest = &words.as_slice()[2..words.len()];
    assert(texts_view(rest@) =~= texts_view(words@).subrange(2, words@.len() as int));
    let (table, cond) = match parse_table_and_where(rest) {
        Ok(x) => x,
        Err(e) => return Err(e),
    };
    let data = match db.get_table_rows(table.as_str()) {
        Ok(t) => t,
        Err(e) => return Err(e),
    };
    if data.columns.len() == 0 {
        return Err(DbError::SchemaNotFound);
    }
    let filtered = match &cond {
        None => data,
        Some(c) => match apply_where_filter(&data, c) {
            Ok(t) => t,
            Err(e) => return Err(e),
        },
    };
    let lines = header_lines(&filtered.columns);
    let rows = values_of_rows(&filtered.rows);
    Ok(QueryOutput { lines, rows })
}

/// The table name and optional condition of the text `v[lo..hi]` after ` FROM `.
fn parse_from_clause(q: &str, v: &Vec<char>, lo: usize, hi: usize) -> (r: Result<
    (String, Option<WhereCondition>),
    DbError,
>)
    requires
        v@ == q@,
        lo <= hi <= v@.len(),
    ensures
        match from_clause_spec(v@.subrange(lo as int, hi as int)) {
            Ok((t, c)) => r matches Ok((table, cond)) && table@ == t && cond_view(cond) == c,
            Err(e) => r == Err::<(String, Option<WhereCondition>), DbError>(e),
        },
{
    let ghost faw = v@.subrange(lo as int, hi as int);
    let where_kw = chars_of(" where ");
    proof {
        reveal_strlit(" where ");
    }
    match find_in(v, lo, hi, &where_kw, true) {
        Some(w) => {
            assert(faw.subrange(0, w - lo) =~= v@.subrange(lo as int, w as int));
            assert(faw.subrange(w - lo + 7, faw.len() as int) =~= v@.subrange(w + 7, hi as int));
            let (t1, t2) = trim_bounds(v, lo, w);
            let (u1, u2) = trim_bounds(v, w + 7, hi);
            let clause = text_between(q, u1, u2);
            let c = match WhereCondition::parse(clause.as_str()) {
                Ok(c) => c,
                Err(e) => return Err(e),
            };
            Ok((text_between(q, t1, t2), Some(c)))
        },
        None => Ok((text_between(q, lo, hi), None)),
    }
}

/// What `SELECT <columns> FROM ...` prints; the query is `q`, with characters
/// `v`, and the text after `SELECT ` starts at `lo`.
fn handle_select_columns(db: &Database, q: &str, v: &Vec<char>, lo: usize) -> (r: Result<
    QueryOutput,
    DbError,
>)
    requires
        db.wf(),
        v@ == q@,
        lo <= v@.len(),
    ensures
        match columns_query_spec(db@, v@.subrange(lo as int, v@.len() as int)) {
            Ok(o) => r matches Ok(out) && out@ == o,
            Err(e) => r == Err::<QueryOutput, DbError>(e),
        },
{
    let n = v.len();
    let ghost after = v@.subrange(lo as int, n as int);
    let from_kw = chars_of(" from ");
    proof {
        reveal_strlit(" from ");
    }
    let f = match find_in(v, lo, n, &from_kw, true) {
        Some(f) => f,
        None => return Err(DbError::UnsupportedSQL),
    };
    assert(after.subrange(0, f - lo) =~= v@.subrange(lo as int, f as int));
    assert(after.subrange(f - lo + 6, after.len() as int) =~= v@.subrange(f + 6, n as int));
    let (c1, c2) = trim_bounds(v, lo, f);
    let (g1, g2) = trim_bounds(v, f + 6, n);
    let (table, cond) = match parse_from_clause(q, v, g1, g2) {
        Ok(x) => x,
        Err(e) => return Err(e),
    };
    let parts = split_bounds(v, c1, c2, ',');
    let names = texts_of(q, v, &parts, c1, c2, true);
    let data = match select_rows(db, table.as_str(), &cond) {
        Ok(t) => t,
        Err(e) => return Err(e),
    };
    if data.columns.len() == 0 {
        return Err(DbError::SchemaNotFound);
    }
    let rows = match extract_columns(&data, &names) {
        Ok(r) => r,
        Err(e) => return Err(e),
    };
    let mut lines: Vec<String> = Vec::new();
    let header = join_texts(names.as_slice(), "|");
    lines.push(header);
    let out = QueryOutput { lines, rows };
    assert(out@.lines =~= seq![header@]);
    Ok(out)
}

/// The words of `v[lo..]`, as texts of `s`.
fn words_from(s: &str, v: &Vec<char>, lo: usize) -> (r: Vec<String>)
    requires
        v@ == s@,
        lo <= v@.len(),
    ensures
        texts_view(r@) == words(v@.subrange(lo as int, v@.len() as int)),
{
    let b = word_bounds(v, lo, v.len());
    texts_of(s, v, &b, lo, v.len(), false)
}

/// What a `SELECT` query prints.
fn handle_select_query(db: &Database, q: &str, v: &Vec<char>) -> (r: Result<QueryOutput, DbError>)
    requires
        db.wf(),
        v@ == q@,
    ensures
        match select_spec(db@, q@) {
            Ok(o) => r matches Ok(out) && out@ == o,
            Err(e) => r == Err::<QueryOutput, DbError>(e),
        },
{
    let select_kw = chars_of("select ");
    let count_kw = chars_of("count(*)");
    proof {
        reveal_strlit("select ");
    }
    assert(v@.subrange(0, v@.len() as int) =~= v@);
    if !starts_with_ci(v, 0, &select_kw) {
        return Err(DbError::UnsupportedSQL);
    }
    if starts_with_ci(v, 7, &count_kw) {
        let ws = words_from(q, v, 7);
        handle_select_count_from_remaining(db, &ws)
    } else if v.len() > 7 && v[7] == '*' {
        let ws = words_from(q, v, 7);
        handle_select_all_from_remaining(db, &ws)
    } else {
        handle_select_columns(db, q, v, 7)
    }
}

/// Runs `command` against the database: `.dbinfo`, `.tables`, `.schema`, or
/// a `SELECT` query; returns what it prints.
pub fn execute_command(db: &Database, command: &str) -> (r: Result<QueryOutput, DbError>)
    requires
        db.wf(),
    ensures
        match command_spec(db@, command@) {
            Ok(o) => r matches Ok(out) && out@ == o,
            Err(e) => r == Err::<QueryOutput, DbError>(e),
        },
{
    if text_eq(command, ".dbinfo") {
        handle_dbinfo(db)
    } else if text_eq(command, ".tables") {
        handle_tables(db)
    } else if text_eq(command, ".schema") {
        handle_schema(db)
    } else {
        let v = chars_of(command);
        let ws = words_from(command, &v, 0);
        assert(v@.subrange(0, v@.len() as int) =~= v@);
        if ws.len() == 0 || !text_eq_ignore_case(ws[0].as_str(), "select") {
            return Err(DbError::UnsupportedSQL);
        }
        handle_select_query(db, command, &v)
    }
}

/// `SELECT * FROM t` emits one row for each cell that the leaf pages of
/// `t`'s table B-tree declare.
pub proof fn lemma_select_star_row_count(m: DbImage, t: Seq<char>)
    requires
        !eq_ignore_case(t, "where"@),
        star_spec(m, seq!["*"@, "FROM"@, t]) is Ok,
    ensures
        table_root_spec(m, t) is Ok,
        star_spec(m, seq!["*"@, "FROM"@, t])->Ok_0.rows.len() == leaf_cell_total(
            m,
            table_root_spec(m, t)->Ok_0,
            MAX_TREE_DEPTH as nat,
        ),
{
    let ws = seq!["*"@, "FROM"@, t];
    reveal_strlit("FROM");
    reveal_strlit("from");
    assert(eq_ignore_case(ws[1], "from"@));
    let rest = ws.subrange(2, 3);
    assert(rest =~= seq![t]);
    assert(where_position(rest, 1) is None);
    assert(where_position(rest, 0) is None);
    let root = table_root_spec(m, t)->Ok_0;
    lemma_table_cells_count(m, root, MAX_TREE_DEPTH as nat);
}

/// The row ids of `rows`, in order.
pub open spec fn row_ids(rows: Seq<RowModel>) -> Seq<u64> {
    rows.map_values(|r: RowModel| r.row_id)
}

/// Whether the index `ix` agrees with the table `table` on the condition `c`:
/// a search for `c`'s literal yields, in order, the row ids of exactly the rows
/// `rows`, and a point probe for each of those ids finds that row.
pub open spec fn index_agrees(m: DbImage, table: Seq<char>, ix: SchemaModel, c: ConditionModel, rows: Seq<RowModel>) -> bool {
    &&& index_search(m, ix.rootpage, c.value, MAX_TREE_DEPTH as nat) == Ok::<Seq<u64>, DbError>(row_ids(rows))
    &&& forall|i: int| 0 <= i < rows.len() ==> row_by_id_spec(m, table, #[trigger] rows[i].row_id) == Ok::<
        Option<RowModel>,
        DbError,
    >(Some(rows[i]))
}

proof fn lemma_rows_by_ids_agree(m: DbImage, table: Seq<char>, rows: Seq<RowModel>)
    requires
        forall|i: int| 0 <= i < rows.len() ==> row_by_id_spec(m, table, #[trigger] rows[i].row_id) == Ok::<
            Option<RowModel>,
            DbError,
        >(Some(rows[i])),
    ensures
        rows_by_ids(m, table, row_ids(rows)) == Ok::<Seq<RowModel>, DbError>(rows),
    decreases rows.len(),
{
    if rows.len() > 0 {
        let pre = rows.drop_last();
        assert forall|i: int| 0 <= i < pre.len() implies row_by_id_spec(m, table, #[trigger] pre[i].row_id)
            == Ok::<Option<RowModel>, DbError>(Some(pre[i])) by {
            assert(pre[i] == rows[i]);
        }
        lemma_rows_by_ids_agree(m, table, pre);
        assert(row_ids(rows).drop_last() =~= row_ids(pre));
        assert(row_ids(rows).last() == rows[rows.len() - 1].row_id);
        assert(row_by_id_spec(m, table, rows[rows.len() - 1].row_id) == Ok::<Option<RowModel>, DbError>(
            Some(rows[rows.len() - 1]),
        ));
        assert(pre.push(rows.last()) =~= rows);
        assert(row_ids(rows).len() > 0);
        assert(rows_by_ids(m, table, row_ids(rows).drop_last()) == Ok::<Seq<RowModel>, DbError>(pre));
    } else {
        assert(row_ids(rows) =~= Seq::<u64>::empty());
        assert(rows =~= Seq::<RowModel>::empty());
    }
}

/// For a query `WHERE col = val`, reading the rows through an index that
/// agrees with its table gives the same result as a full scan with a filter.
pub proof fn lemma_index_path_matches_scan(m: DbImage, table: Seq<char>, c: ConditionModel)
    requires
        c.operator == ComparisonOperator::Equal,
        scan_spec(m, table, Some(c)) is Ok,
        index_for_column_spec(m, table, c.column_name) matches Ok(Some(ix)) ==> index_agrees(
            m,
            table,
            ix,
            c,
            scan_spec(m, table, Some(c))->Ok_0.1,
        ),
    ensures
        selected_rows_spec(m, table, Some(c)) == scan_spec(m, table, Some(c)),
{
    match index_for_column_spec(m, table, c.column_name) {
        Ok(Some(ix)) => {
            let rows = scan_spec(m, table, Some(c))->Ok_0.1;
            lemma_rows_by_ids_agree(m, table, rows);
        },
        _ => {},
    }
}

} // verus!
