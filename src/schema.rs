//! The column list of a `CREATE TABLE` statement.
use vstd::prelude::*;

use crate::error::DbError;
use crate::text::{
    chars_of, contains_text, eq_ignore_case, find, find_in, first_word, first_word_end, lower_of,
    lowercase, pieces, rfind_char, rfind_in, split_bounds, split_on, text_between,
    text_eq_ignore_case, trim, trim_bounds,
};

verus! {

/// A declared column: its name, its position in the column list, and whether
/// it is the row-id alias.
#[derive(Debug)]
pub struct ColumnInfo {
    pub name: String,
    pub index: usize,
    pub is_primary_key: bool,
}

/// The mathematical content of a [`ColumnInfo`].
pub struct ColumnModel {
    pub name: Seq<char>,
    pub index: int,
    pub is_primary_key: bool,
}

impl View for ColumnInfo {
    type V = ColumnModel;

    open spec fn view(&self) -> ColumnModel {
        ColumnModel { name: self.name@, index: self.index as int, is_primary_key: self.is_primary_key }
    }
}

/// The models of a sequence of columns.
pub open spec fn columns_view(cs: Seq<ColumnInfo>) -> Seq<ColumnModel> {
    cs.map_values(|c: ColumnInfo| c@)
}

/// The columns of a table, in declaration order.
#[derive(Debug)]
pub struct TableSchema {
    pub columns: Vec<ColumnInfo>,
}

/// Whether a column definition declares a primary key: its lower-case form
/// (as `str::to_lowercase` gives it) holds `primary key`.
pub open spec fn declares_primary_key(def: Seq<char>) -> bool {
    find(lower_of(def), "primary key"@, false) is Some
}

/// The columns that the definitions `defs[i..]` declare: each non-blank
/// definition gives a column named by its first word; the first one that
/// declares a primary key, unless `seen`, is the row-id alias.
pub open spec fn columns_from(defs: Seq<Seq<char>>, i: int, seen: bool) -> Seq<ColumnModel>
    decreases defs.len() - i,
{
    if i < 0 || i >= defs.len() {
        Seq::empty()
    } else {
        let t = trim(defs[i]);
        if t.len() == 0 {
            columns_from(defs, i + 1, seen)
        } else {
            let pk = !seen && declares_primary_key(t);
            seq![ColumnModel { name: first_word(t), index: i, is_primary_key: pk }] + columns_from(
                defs,
                i + 1,
                seen || pk,
            )
        }
    }
}

/// The column definitions of a `CREATE TABLE` statement: the text between its
/// first `(` and its last `)`, split at every comma.
pub open spec fn column_defs(sql: Seq<char>) -> Result<Seq<Seq<char>>, DbError> {
    match find(sql, "("@, false) {
        None => Err(DbError::InvalidDDL),
        Some(open) => match rfind_char(sql, ')') {
            None => Err(DbError::InvalidDDL),
            Some(close) => if open >= close {
                Err(DbError::InvalidDDL)
            } else {
                Ok(split_on(sql.subrange(open + 1, close), ','))
            },
        },
    }
}

/// The columns that the `CREATE TABLE` statement `sql` declares.
pub open spec fn schema_columns(sql: Seq<char>) -> Result<Seq<ColumnModel>, DbError> {
    match column_defs(sql) {
        Err(e) => Err(e),
        Ok(defs) => Ok(columns_from(defs, 0, false)),
    }
}

/// The position (field `index`) of the first column named `name`, up to ASCII case.
pub open spec fn column_index_of(cols: Seq<ColumnModel>, name: Seq<char>) -> Option<int>
    decreases cols.len(),
{
    if cols.len() == 0 {
        None
    } else if eq_ignore_case(cols[0].name, name) {
        Some(cols[0].index)
    } else {
        column_index_of(cols.drop_first(), name)
    }
}

impl TableSchema {
    /// Extracts the column list of the `CREATE TABLE` statement `sql`.
    pub fn from_create_sql(sql: &str) -> (r: Result<TableSchema, DbError>)
        ensures
            match schema_columns(sql@) {
                Ok(cols) => r matches Ok(t) && columns_view(t.columns@) == cols,
                Err(e) => r == Err::<TableSchema, DbError>(e),
            },
    {
        let v = chars_of(sql);
        let n = v.len();
        assert(v@.subrange(0, n as int) =~= v@);
        let open_paren = chars_of("(");
        let start = match find_in(&v, 0, n, &open_paren, false) {
            Some(p) => p,
            None => return Err(DbError::InvalidDDL),
        };
        let end = match rfind_in(&v, ')') {
            Some(p) => p,
            None => return Err(DbError::InvalidDDL),
        };
        if start >= end {
            return Err(DbError::InvalidDDL);
        }
        let parts = split_bounds(&v, start + 1, end, ',');
        let ghost defs = pieces(v@, parts@);
        let mut columns: Vec<ColumnInfo> = Vec::new();
        let mut seen = false;
        let mut i: usize = 0;
        assert(columns_view(columns@) + columns_from(defs, 0, false) =~= columns_from(defs, 0, false));
        while i < parts.len()
            invariant
                v@ == sql@,
                defs == pieces(v@, parts@),
                end < v@.len(),
                forall|k: int| 0 <= k < parts@.len() ==> start + 1 <= #[trigger] parts@[k].0 <= parts@[k].1 <= end,
                i <= parts@.len(),
                columns_from(defs, 0, false) == columns_view(columns@) + columns_from(
                    defs,
                    i as int,
                    seen,
                ),
            decreases parts@.len() - i,
        {
            let (a, b) = parts[i];
            assert(defs[i as int] == v@.subrange(a as int, b as int));
            let (x, y) = trim_bounds(&v, a, b);
            if x < y {
                let w = first_word_end(&v, x, y);
                let name = text_between(sql, x, w);
                let pk = if seen {
                    false
                } else {
                    let def = text_between(sql, x, y);
                    let lowered = lowercase(def.as_str());
                    contains_text(lowered.as_str(), "primary key")
                };
                let ghost prev = columns@;
                let col = ColumnInfo { name, index: i, is_primary_key: pk };
                columns.push(col);
                assert(columns_view(columns@) =~= columns_view(prev).push(col@));
                assert(columns_view(columns@) + columns_from(defs, i + 1, seen || pk) =~= columns_view(
                    prev,
                ) + columns_from(defs, i as int, seen));
                seen = seen || pk;
            }
            i = i + 1;
        }
        assert(columns_view(columns@) + columns_from(defs, i as int, seen) =~= columns_view(columns@));
        Ok(TableSchema { columns })
    }

    /// The position of the column named `name`, compared up to ASCII case.
    pub fn get_column_index(&self, name: &str) -> (r: Option<usize>)
        ensures
            match column_index_of(columns_view(self.columns@), name@) {
                Some(k) => r == Some(k as usize),
                None => r is None,
            },
    {
        let ghost cols = columns_view(self.columns@);
        let mut i: usize = 0;
        assert(cols.subrange(0, cols.len() as int) =~= cols);
        while i < self.columns.len()
            invariant
                cols == columns_view(self.columns@),
                i <= cols.len(),
                column_index_of(cols, name@) == column_index_of(cols.subrange(i as int, cols.len() as int), name@),
            decreases cols.len() - i,
        {
            let ghost rest = cols.subrange(i as int, cols.len() as int);
            assert(rest.drop_first() =~= cols.subrange(i + 1, cols.len() as int));
            assert(rest[0] == self.columns@[i as int]@);
            if text_eq_ignore_case(self.columns[i].name.as_str(), name) {
                return Some(self.columns[i].index);
            }
            i = i + 1;
        }
        None
    }
}

} // verus!
