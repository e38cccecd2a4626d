use vstd::prelude::*;

verus! {

/// The kinds of failure that abort a command.
#[derive(Clone, Copy, Debug, PartialEq, Eq, Structural)]
pub enum DbError {
    /// The image is shorter than its header, or the page size is implausible.
    BadHeader,
    /// A page number outside the image, or a page shorter than it claims.
    ShortRead,
    /// An offset or length that runs past the end of a buffer.
    OutOfBounds,
    /// A varint that runs past the end of its buffer.
    CorruptVarint,
    /// A B-tree header whose type byte is not one the operation accepts.
    InvalidPageType,
    /// A record whose body is shorter than its header declares.
    ShortRecord,
    /// A record value of the wrong type where a specific type is required.
    InvalidSerialType,
    /// A table or column that the schema does not hold.
    SchemaNotFound,
    /// A `CREATE TABLE` statement without a usable column list.
    InvalidDDL,
    /// A query whose shape the executor does not handle.
    UnsupportedSQL,
    /// A `WHERE` clause with an operator other than `=` or `!=`.
    UnsupportedWhere,
    /// A B-tree deeper than any the reader follows, such as one with a cycle.
    TreeTooDeep,
}

} // verus!
