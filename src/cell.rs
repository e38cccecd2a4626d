//! Table-leaf cells: a payload size, a row id and a record.
use vstd::prelude::*;

use crate::error::DbError;
use crate::record::{record_spec, Record, RecordModel};
use crate::varint::{read_varint, varint_at};

verus! {

/// A table-leaf cell: the size of its payload, its row id and its record.
#[derive(Debug)]
pub struct Cell {
    pub record_size: u64,
    pub row_id: u64,
    pub record: Record,
}

/// The mathematical content of a [`Cell`].
pub struct CellModel {
    pub record_size: u64,
    pub row_id: u64,
    pub record: RecordModel,
}

impl View for Cell {
    type V = CellModel;

    open spec fn view(&self) -> CellModel {
        CellModel { record_size: self.record_size, row_id: self.row_id, record: self.record@ }
    }
}

/// The table-leaf cell that starts at `off` in the page `p`.
pub open spec fn table_leaf_cell(p: Seq<u8>, off: int) -> Result<CellModel, DbError> {
    match varint_at(p, off) {
        None => Err(DbError::CorruptVarint),
        Some((size, n1)) => match varint_at(p, off + n1) {
            None => Err(DbError::CorruptVarint),
            Some((row_id, n2)) => {
                let start = off + n1 + n2;
                if start + size > p.len() {
                    Err(DbError::OutOfBounds)
                } else {
                    match record_spec(p.subrange(start, start + size)) {
                        Err(e) => Err(e),
                        Ok(rec) => Ok(
                            CellModel { record_size: size as u64, row_id: row_id as u64, record: rec },
                        ),
                    }
                }
            },
        },
    }
}

impl Cell {
    /// Decodes the table-leaf cell that starts at `offset` in `data`.
    pub fn from_bytes(data: &[u8], offset: usize) -> (r: Result<Cell, DbError>)
        ensures
            match table_leaf_cell(data@, offset as int) {
                Ok(m) => r matches Ok(c) && c@ == m,
                Err(e) => r == Err::<Cell, DbError>(e),
            },
    {
        let len = data.len();
        let (record_size, n1) = match read_varint(data, offset) {
            Ok(x) => x,
            Err(e) => return Err(e),
        };
        let pos = offset + n1;
        let (row_id, n2) = match read_varint(data, pos) {
            Ok(x) => x,
            Err(e) => return Err(e),
        };
        let start = pos + n2;
        if record_size > (len - start) as u64 {
            return Err(DbError::OutOfBounds);
        }
        let end = start + record_size as usize;
        let record = match Record::from_bytes(&data[start..end]) {
            Ok(rec) => rec,
            Err(e) => return Err(e),
        };
        Ok(Cell { record_size, row_id, record })
    }
}

} // verus!
