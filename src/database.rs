//! The database image: pages, B-tree headers, and the table and index B-tree
//! walkers.
use vstd::prelude::*;

use crate::cell::{table_leaf_cell, Cell, CellModel};
use crate::error::DbError;
use crate::record::{display_of, record_spec, Record, RecordValue, ValueModel};
use crate::text::{bytes_le, text_eq, text_le};
use crate::varint::{read_varint, varint_at};
use vstd::utf8::encode_utf8;

verus! {

/// Bytes of the database header at the start of page 1.
pub const DB_HEADER_SIZE: usize = 100;

/// Bytes of a leaf B-tree page header.
pub const BTREE_HEADER_SIZE: usize = 8;

/// Bytes of an interior B-tree page header: a leaf header and the rightmost child.
pub const INTERIOR_HEADER_SIZE: usize = 12;

/// Page type byte of an interior index B-tree page.
pub const INTERIOR_INDEX_PAGE: u8 = 2;

/// Page type byte of an interior table B-tree page.
pub const INTERIOR_TABLE_PAGE: u8 = 5;

/// Page type byte of a leaf index B-tree page.
pub const LEAF_INDEX_PAGE: u8 = 10;

/// Page type byte of a leaf table B-tree page.
pub const LEAF_TABLE_PAGE: u8 = 13;

/// How many levels of B-tree the walkers descend before they give up.
pub const MAX_TREE_DEPTH: usize = 64;

/// The mathematical content of a [`Database`]: the file image and its page size.
pub struct DbImage {
    pub file: Seq<u8>,
    pub page_size: nat,
}

/// The big-endian 16-bit integer at `i` in `p`.
pub open spec fn be16(p: Seq<u8>, i: int) -> int {
    p[i] * 256 + p[i + 1]
}

/// The big-endian 32-bit integer at `i` in `p`.
pub open spec fn be32(p: Seq<u8>, i: int) -> int {
    ((p[i] * 256 + p[i + 1]) * 256 + p[i + 2]) * 256 + p[i + 3]
}

/// The page size that the database header of `file` declares.
pub open spec fn header_page_size(file: Seq<u8>) -> nat {
    let v = be16(file, 16);
    if v == 1 {
        65536
    } else {
        v as nat
    }
}

/// Whether `ps` is a page size that the format allows.
pub open spec fn valid_page_size(ps: nat) -> bool {
    ps == 512 || ps == 1024 || ps == 2048 || ps == 4096 || ps == 8192 || ps == 16384 || ps
        == 32768 || ps == 65536
}

/// Whether `file` holds a database header with a valid page size.
pub open spec fn valid_image(file: Seq<u8>) -> bool {
    file.len() >= 100 && valid_page_size(header_page_size(file))
}

/// Whether page `n` lies wholly within the image.
pub open spec fn page_exists(m: DbImage, n: int) -> bool {
    1 <= n && n * m.page_size <= m.file.len()
}

/// The bytes of page `n`.
pub open spec fn page_bytes(m: DbImage, n: int) -> Seq<u8> {
    m.file.subrange((n - 1) * m.page_size, n * m.page_size)
}

/// The offset of the B-tree header within page `n`.
pub open spec fn header_offset(n: int) -> int {
    if n == 1 {
        100
    } else {
        0
    }
}

/// The `count` big-endian 16-bit cell pointers that start at `start` in `p`.
pub open spec fn pointer_array(p: Seq<u8>, start: int, count: int) -> Seq<int> {
    Seq::new(count as nat, |i: int| be16(p, start + 2 * i))
}

/// The cell count in the B-tree header at `h` of page `p`.
pub open spec fn cell_count_spec(p: Seq<u8>, h: int) -> Result<int, DbError> {
    if h + 5 > p.len() {
        Err(DbError::OutOfBounds)
    } else {
        Ok(be16(p, h + 3))
    }
}

/// The cell offsets of the page `p` whose B-tree header of `hdr_len` bytes is at `h`.
pub open spec fn cell_offsets_spec(p: Seq<u8>, h: int, hdr_len: int) -> Result<Seq<int>, DbError> {
    match cell_count_spec(p, h) {
        Err(e) => Err(e),
        Ok(count) => if h + hdr_len + 2 * count > p.len() {
            Err(DbError::OutOfBounds)
        } else {
            Ok(pointer_array(p, h + hdr_len, count))
        },
    }
}

/// The table-leaf cells at the offsets `offs` of page `p`, in order.
pub open spec fn leaf_cells(p: Seq<u8>, offs: Seq<int>) -> Result<Seq<CellModel>, DbError>
    decreases offs.len(),
{
    if offs.len() == 0 {
        Ok(Seq::empty())
    } else {
        match leaf_cells(p, offs.drop_last()) {
            Err(e) => Err(e),
            Ok(pre) => match table_leaf_cell(p, offs.last()) {
                Err(e) => Err(e),
                Ok(c) => Ok(pre.push(c)),
            },
        }
    }
}

/// The left-child page numbers of the interior cells at `offs`, skipping any
/// cell too close to the end of the page to hold one.
pub open spec fn left_children(p: Seq<u8>, offs: Seq<int>) -> Seq<int>
    decreases offs.len(),
{
    if offs.len() == 0 {
        Seq::empty()
    } else {
        let o = offs.last();
        let pre = left_children(p, offs.drop_last());
        if 0 <= o && o + 4 <= p.len() {
            pre.push(be32(p, o))
        } else {
            pre
        }
    }
}

/// The child pages of the interior page `p` with its B-tree header at `h`:
/// the left children in cell order, then the rightmost child.
pub open spec fn interior_children(p: Seq<u8>, h: int) -> Result<Seq<int>, DbError> {
    match cell_offsets_spec(p, h, 12) {
        Err(e) => Err(e),
        Ok(offs) => Ok(left_children(p, offs).push(be32(p, h + 8))),
    }
}

/// The cells of the page `n`, each read as a table-leaf cell.
pub open spec fn page_cells(m: DbImage, n: int) -> Result<Seq<CellModel>, DbError> {
    if !page_exists(m, n) {
        Err(DbError::ShortRead)
    } else {
        let p = page_bytes(m, n);
        match cell_offsets_spec(p, header_offset(n), 8) {
            Err(e) => Err(e),
            Ok(offs) => leaf_cells(p, offs),
        }
    }
}

/// The B-tree type byte of page `n`.
pub open spec fn page_type_spec(m: DbImage, n: int) -> Result<u8, DbError> {
    if !page_exists(m, n) {
        Err(DbError::ShortRead)
    } else if header_offset(n) >= m.page_size {
        Err(DbError::OutOfBounds)
    } else {
        Ok(page_bytes(m, n)[header_offset(n)])
    }
}

/// The cells of every leaf of the table B-tree rooted at `n`, in order,
/// following at most `depth` levels.
pub open spec fn table_cells(m: DbImage, n: int, depth: nat) -> Result<Seq<CellModel>, DbError>
    decreases depth, 0int,
{
    if depth == 0 {
        Err(DbError::TreeTooDeep)
    } else {
        match page_type_spec(m, n) {
            Err(e) => Err(e),
            Ok(t) => {
                let p = page_bytes(m, n);
                let h = header_offset(n);
                if t == LEAF_TABLE_PAGE {
                    match cell_offsets_spec(p, h, 8) {
                        Err(e) => Err(e),
                        Ok(offs) => leaf_cells(p, offs),
                    }
                } else if t == INTERIOR_TABLE_PAGE {
                    match interior_children(p, h) {
                        Err(e) => Err(e),
                        Ok(children) => subtree_cells(m, children, (depth - 1) as nat),
                    }
                } else {
                    Err(DbError::InvalidPageType)
                }
            },
        }
    }
}

/// The cells of the subtrees rooted at `children`, one after another.
pub open spec fn subtree_cells(m: DbImage, children: Seq<int>, depth: nat) -> Result<
    Seq<CellModel>,
    DbError,
>
    decreases depth, children.len(),
{
    if children.len() == 0 {
        Ok(Seq::empty())
    } else {
        match subtree_cells(m, children.drop_last(), depth) {
            Err(e) => Err(e),
            Ok(pre) => match table_cells(m, children.last(), depth) {
                Err(e) => Err(e),
                Ok(cs) => Ok(pre + cs),
            },
        }
    }
}

/// A sequence of offsets or page numbers, as integers.
pub open spec fn as_ints(v: Seq<usize>) -> Seq<int> {
    v.map_values(|o: usize| o as int)
}

/// The models of a sequence of cells.
pub open spec fn cells_view(cs: Seq<Cell>) -> Seq<CellModel> {
    cs.map_values(|c: Cell| c@)
}

/// A database image held in memory, with the page size its header declares.
pub struct Database {
    data: Vec<u8>,
    page_size: usize,
}

impl View for Database {
    type V = DbImage;

    closed spec fn view(&self) -> DbImage {
        DbImage { file: self.data@, page_size: self.page_size as nat }
    }
}

/// Reads the big-endian 16-bit integer at `i`.
fn read_be16(p: &[u8], i: usize) -> (r: usize)
    requires
        i + 2 <= p@.len(),
    ensures
        r as int == be16(p@, i as int),
{
    p[i] as usize * 256 + p[i + 1] as usize
}

/// Reads the big-endian 32-bit integer at `i`.
fn read_be32(p: &[u8], i: usize) -> (r: usize)
    requires
        i + 4 <= p@.len(),
    ensures
        r as int == be32(p@, i as int),
{
    let v: u32 = ((p[i] as u32 * 256 + p[i + 1] as u32) * 256 + p[i + 2] as u32) * 256 + p[i
        + 3] as u32;
    v as usize
}

impl Database {
    /// Whether the page size is the one the image's header declares, and valid.
    pub closed spec fn wf(&self) -> bool {
        &&& valid_image(self.data@)
        &&& self.page_size as nat == header_page_size(self.data@)
    }

    /// Opens the database image `data`, reading its page size from the header.
    pub fn new(data: Vec<u8>) -> (r: Result<Database, DbError>)
        ensures
            match r {
                Ok(db) => valid_image(data@) && db.wf() && db@.file == data@ && db@.page_size
                    == header_page_size(data@),
                Err(e) => !valid_image(data@) && e == DbError::BadHeader,
            },
    {
        if data.len() < DB_HEADER_SIZE {
            return Err(DbError::BadHeader);
        }
        let v = read_be16(data.as_slice(), 16);
        let ps: usize = if v == 1 {
            65536
        } else {
            v
        };
        if !(ps == 512 || ps == 1024 || ps == 2048 || ps == 4096 || ps == 8192 || ps == 16384
            || ps == 32768 || ps == 65536) {
            return Err(DbError::BadHeader);
        }
        Ok(Database { data, page_size: ps })
    }

    /// The page size in bytes.
    pub fn get_page_size(&self) -> (r: usize)
        ensures
            r as nat == self@.page_size,
    {
        self.page_size
    }

    /// The bytes of page `page_number` (numbered from 1).
    pub fn read_page_data(&self, page_number: usize) -> (r: Result<Vec<u8>, DbError>)
        requires
            self.wf(),
        ensures
            match r {
                Ok(p) => page_exists(self@, page_number as int) && p@ == page_bytes(
                    self@,
                    page_number as int,
                ) && p@.len() == self@.page_size,
                Err(e) => !page_exists(self@, page_number as int) && e == DbError::ShortRead,
            },
    {
        let ps = self.page_size;
        let len = self.data.len();
        let q = len / ps;
        proof {
            vstd::arithmetic::div_mod::lemma_fundamental_div_mod(len as int, ps as int);
            let n = page_number as int;
            let psi = ps as int;
            let qi = q as int;
            if n > qi {
                assert(n * psi >= qi * psi + psi) by (nonlinear_arith)
                    requires
                        n >= qi + 1,
                        psi > 0,
                ;
            } else {
                assert(n * psi <= qi * psi) by (nonlinear_arith)
                    requires
                        n <= qi,
                        psi > 0,
                ;
            }
        }
        if page_number == 0 || page_number > q {
            return Err(DbError::ShortRead);
        }
        proof {
            assert((page_number - 1) * ps + ps == page_number * ps) by (nonlinear_arith);
        }
        let start = (page_number - 1) * ps;
        let page = vstd::slice::slice_to_vec(&self.data.as_slice()[start..start + ps]);
        Ok(page)
    }

    /// The offset of the B-tree header within page `page_number`.
    pub(crate) fn get_dbheader_offset(page_number: usize) -> (r: usize)
        ensures
            r as int == header_offset(page_number as int),
    {
        if page_number == 1 {
            DB_HEADER_SIZE
        } else {
            0
        }
    }
}

/// The cell count in the B-tree header at `h`.
pub(crate) fn get_cell_count(page: &[u8], h: usize) -> (r: Result<usize, DbError>)
    ensures
        match cell_count_spec(page@, h as int) {
            Ok(c) => r == Ok::<usize, DbError>(c as usize),
            Err(e) => r == Err::<usize, DbError>(e),
        },
{
    if h > page.len() || page.len() - h < 5 {
        return Err(DbError::OutOfBounds);
    }
    Ok(read_be16(page, h + 3))
}

/// The cell offsets of a page whose B-tree header of `hdr_len` bytes is at `h`.
fn get_cell_offsets(page: &[u8], h: usize, hdr_len: usize) -> (r: Result<Vec<usize>, DbError>)
    requires
        hdr_len <= 12,
        h <= 100,
    ensures
        match cell_offsets_spec(page@, h as int, hdr_len as int) {
            Ok(offs) => r matches Ok(v) && as_ints(v@) == offs,
            Err(e) => r == Err::<Vec<usize>, DbError>(e),
        },
{
    let count = match get_cell_count(page, h) {
        Ok(c) => c,
        Err(e) => return Err(e),
    };
    let len = page.len();
    let start = h + hdr_len;
    if start > page.len() || (page.len() - start) / 2 < count {
        return Err(DbError::OutOfBounds);
    }
    let ghost offs = pointer_array(page@, start as int, count as int);
    let mut v: Vec<usize> = Vec::new();
    let mut i: usize = 0;
    while i < count
        invariant
            start + 2 * count <= page@.len() <= usize::MAX,
            offs == pointer_array(page@, start as int, count as int),
            i <= count,
            as_ints(v@) == offs.subrange(0, i as int),
        decreases count - i,
    {
        let o = read_be16(page, start + 2 * i);
        let ghost prev = v@;
        v.push(o);
        assert(as_ints(v@) =~= as_ints(prev).push(
            o as int,
        ));
        assert(offs[i as int] == o as int);
        assert(offs.subrange(0, i + 1) =~= offs.subrange(0, i as int).push(offs[i as int]));
        i = i + 1;
    }
    assert(offs.subrange(0, count as int) =~= offs);
    Ok(v)
}

proof fn lemma_leaf_cells_err(p: Seq<u8>, offs: Seq<int>, k: int)
    requires
        0 <= k <= offs.len(),
        leaf_cells(p, offs.subrange(0, k)) is Err,
    ensures
        leaf_cells(p, offs) == leaf_cells(p, offs.subrange(0, k)),
    decreases offs.len(),
{
    if offs.len() == k {
        assert(offs.subrange(0, k) =~= offs);
    } else {
        assert(offs.drop_last().subrange(0, k) =~= offs.subrange(0, k));
        lemma_leaf_cells_err(p, offs.drop_last(), k);
    }
}

proof fn lemma_subtree_cells_err(m: DbImage, ch: Seq<int>, k: int, depth: nat)
    requires
        0 <= k <= ch.len(),
        subtree_cells(m, ch.subrange(0, k), depth) is Err,
    ensures
        subtree_cells(m, ch, depth) == subtree_cells(m, ch.subrange(0, k), depth),
    decreases ch.len(),
{
    if ch.len() == k {
        assert(ch.subrange(0, k) =~= ch);
    } else {
        assert(ch.drop_last().subrange(0, k) =~= ch.subrange(0, k));
        lemma_subtree_cells_err(m, ch.drop_last(), k, depth);
    }
}

/// Decodes the table-leaf cells at `offs`, in order.
fn parse_leaf_cells(page: &[u8], offs: &Vec<usize>) -> (r: Result<Vec<Cell>, DbError>)
    ensures
        match leaf_cells(page@, as_ints(offs@)) {
            Ok(cs) => r matches Ok(v) && cells_view(v@) == cs,
            Err(e) => r == Err::<Vec<Cell>, DbError>(e),
        },
{
    let ghost all = as_ints(offs@);
    let mut cells: Vec<Cell> = Vec::new();
    let mut i: usize = 0;
    assert(all.subrange(0, 0) =~= Seq::<int>::empty());
    assert(cells_view(cells@) =~= Seq::<CellModel>::empty());
    while i < offs.len()
        invariant
            all == as_ints(offs@),
            i <= offs@.len(),
            leaf_cells(page@, all.subrange(0, i as int)) == Ok::<Seq<CellModel>, DbError>(
                cells_view(cells@),
            ),
        decreases offs@.len() - i,
    {
        let ghost pre = all.subrange(0, i as int);
        assert(all.subrange(0, i + 1).drop_last() =~= pre);
        assert(all.subrange(0, i + 1).last() == offs@[i as int] as int);
        let cell = match Cell::from_bytes(page, offs[i]) {
            Ok(c) => c,
            Err(e) => {
                proof {
                    lemma_leaf_cells_err(page@, all, i + 1);
                }
                return Err(e);
            },
        };
        let ghost prev = cells@;
        cells.push(cell);
        assert(cells_view(cells@) =~= cells_view(prev).push(cell@));
        i = i + 1;
    }
    assert(all.subrange(0, offs@.len() as int) =~= all);
    Ok(cells)
}

/// The child page numbers of an interior page with its B-tree header at `h`:
/// the left children in cell order, then the rightmost child.
fn get_child_page_numbers(page: &[u8], h: usize) -> (r: Result<Vec<usize>, DbError>)
    requires
        h <= 100,
    ensures
        match interior_children(page@, h as int) {
            Ok(ch) => r matches Ok(v) && as_ints(v@) == ch,
            Err(e) => r == Err::<Vec<usize>, DbError>(e),
        },
{
    let offs = match get_cell_offsets(page, h, INTERIOR_HEADER_SIZE) {
        Ok(v) => v,
        Err(e) => return Err(e),
    };
    let ghost all = as_ints(offs@);
    let len = page.len();
    let mut children: Vec<usize> = Vec::new();
    let mut i: usize = 0;
    assert(all.subrange(0, 0) =~= Seq::<int>::empty());
    assert(as_ints(children@) =~= Seq::<int>::empty());
    while i < offs.len()
        invariant
            all == as_ints(offs@),
            len == page@.len(),
            i <= offs@.len(),
            as_ints(children@) == left_children(page@, all.subrange(0, i as int)),
        decreases offs@.len() - i,
    {
        let o = offs[i];
        assert(all.subrange(0, i + 1).drop_last() =~= all.subrange(0, i as int));
        assert(all.subrange(0, i + 1).last() == o as int);
        if o <= len && len - o >= 4 {
            let c = read_be32(page, o);
            let ghost prev = children@;
            children.push(c);
            assert(as_ints(children@) =~= as_ints(prev).push(c as int));
        }
        i = i + 1;
    }
    assert(all.subrange(0, offs@.len() as int) =~= all);
    let right = read_be32(page, h + 8);
    let ghost prev = children@;
    children.push(right);
    assert(as_ints(children@) =~= as_ints(prev).push(right as int));
    Ok(children)
}

impl Database {
    /// The B-tree type byte of page `page_number`.
    fn read_page_type(&self, page_number: usize, page: &[u8]) -> (r: Result<u8, DbError>)
        requires
            self.wf(),
            page_exists(self@, page_number as int),
            page@ == page_bytes(self@, page_number as int),
            page@.len() == self@.page_size,
        ensures
            match page_type_spec(self@, page_number as int) {
                Ok(t) => r == Ok::<u8, DbError>(t),
                Err(e) => r == Err::<u8, DbError>(e),
            },
    {
        let h = Self::get_dbheader_offset(page_number);
        if h >= page.len() {
            return Err(DbError::OutOfBounds);
        }
        Ok(page[h])
    }

    /// Every cell of page `page_number`, each read as a table-leaf cell.
    pub fn read_page(&self, page_number: usize) -> (r: Result<Vec<Cell>, DbError>)
        requires
            self.wf(),
        ensures
            match page_cells(self@, page_number as int) {
                Ok(cs) => r matches Ok(v) && cells_view(v@) == cs,
                Err(e) => r == Err::<Vec<Cell>, DbError>(e),
            },
    {
        let page = match self.read_page_data(page_number) {
            Ok(p) => p,
            Err(e) => return Err(e),
        };
        let h = Self::get_dbheader_offset(page_number);
        let offs = match get_cell_offsets(page.as_slice(), h, BTREE_HEADER_SIZE) {
            Ok(v) => v,
            Err(e) => return Err(e),
        };
        parse_leaf_cells(page.as_slice(), &offs)
    }

    /// The cells of every leaf of the table B-tree rooted at `page_num`, in
    /// order, descending at most `depth` levels.
    pub fn collect_all_table_cells(&self, page_num: usize, depth: usize) -> (r: Result<
        Vec<Cell>,
        DbError,
    >)
        requires
            self.wf(),
        ensures
            match table_cells(self@, page_num as int, depth as nat) {
                Ok(cs) => r matches Ok(v) && cells_view(v@) == cs,
                Err(e) => r == Err::<Vec<Cell>, DbError>(e),
            },
        decreases depth,
    {
        if depth == 0 {
            return Err(DbError::TreeTooDeep);
        }
        let page = match self.read_page_data(page_num) {
            Ok(p) => p,
            Err(e) => return Err(e),
        };
        let t = match self.read_page_type(page_num, page.as_slice()) {
            Ok(t) => t,
            Err(e) => return Err(e),
        };
        let h = Self::get_dbheader_offset(page_num);
        if t == LEAF_TABLE_PAGE {
            let offs = match get_cell_offsets(page.as_slice(), h, BTREE_HEADER_SIZE) {
                Ok(v) => v,
                Err(e) => return Err(e),
            };
            parse_leaf_cells(page.as_slice(), &offs)
        } else if t == INTERIOR_TABLE_PAGE {
            let children = match get_child_page_numbers(page.as_slice(), h) {
                Ok(v) => v,
                Err(e) => return Err(e),
            };
            let ghost ch = as_ints(children@);
            let ghost d = (depth - 1) as nat;
            assert(table_cells(self@, page_num as int, depth as nat) == subtree_cells(self@, ch, d));
            let mut all: Vec<Cell> = Vec::new();
            let mut i: usize = 0;
            assert(ch.subrange(0, 0) =~= Seq::<int>::empty());
            assert(cells_view(all@) =~= Seq::<CellModel>::empty());
            while i < children.len()
                invariant
                    self.wf(),
                    depth >= 1,
                    d == depth - 1,
                    ch == as_ints(children@),
                    table_cells(self@, page_num as int, depth as nat) == subtree_cells(self@, ch, d),
                    i <= children@.len(),
                    subtree_cells(self@, ch.subrange(0, i as int), d) == Ok::<
                        Seq<CellModel>,
                        DbError,
                    >(cells_view(all@)),
                decreases children@.len() - i,
            {
                assert(ch.subrange(0, i + 1).drop_last() =~= ch.subrange(0, i as int));
                assert(ch.subrange(0, i + 1).last() == children@[i as int] as int);
                let mut sub = match self.collect_all_table_cells(children[i], depth - 1) {
                    Ok(v) => v,
                    Err(e) => {
                        proof {
                            assert(subtree_cells(self@, ch.subrange(0, i + 1), d) == Err::<
                                Seq<CellModel>,
                                DbError,
                            >(e));
                            lemma_subtree_cells_err(self@, ch, i + 1, d);
                        }
                        return Err(e);
                    },
                };
                let ghost prev = all@;
                let ghost subv = sub@;
                all.append(&mut sub);
                assert(cells_view(all@) =~= cells_view(prev) + cells_view(subv));
                i = i + 1;
            }
            assert(ch.subrange(0, children@.len() as int) =~= ch);
            Ok(all)
        } else {
            Err(DbError::InvalidPageType)
        }
    }
}

/// The left child and the key of the interior table cell at `o`.
pub open spec fn interior_table_cell(p: Seq<u8>, o: int) -> Result<(int, int), DbError> {
    if o < 0 || o + 4 > p.len() {
        Err(DbError::OutOfBounds)
    } else {
        match varint_at(p, o + 4) {
            None => Err(DbError::CorruptVarint),
            Some((k, _)) => Ok((be32(p, o), k)),
        }
    }
}

/// The child that a probe for `target` descends into from the cells `offs[i..]`:
/// the left child of the first cell whose key is at least `target`, else `right`.
pub open spec fn probe_child(p: Seq<u8>, offs: Seq<int>, i: int, target: int, right: int) -> Result<
    int,
    DbError,
>
    decreases offs.len() - i,
{
    if i >= offs.len() {
        Ok(right)
    } else {
        match interior_table_cell(p, offs[i]) {
            Err(e) => Err(e),
            Ok((c, k)) => if k >= target {
                Ok(c)
            } else {
                probe_child(p, offs, i + 1, target, right)
            },
        }
    }
}

/// The first of the leaf cells `offs[i..]` whose row id is `target`.
pub open spec fn probe_leaf(p: Seq<u8>, offs: Seq<int>, i: int, target: u64) -> Result<
    Option<CellModel>,
    DbError,
>
    decreases offs.len() - i,
{
    if i >= offs.len() {
        Ok(None)
    } else {
        match table_leaf_cell(p, offs[i]) {
            Err(e) => Err(e),
            Ok(c) => if c.row_id == target {
                Ok(Some(c))
            } else {
                probe_leaf(p, offs, i + 1, target)
            },
        }
    }
}

/// The cell with row id `target` that a point probe of the table B-tree rooted
/// at `n` finds, descending at most `depth` levels.
pub open spec fn probe_table(m: DbImage, n: int, target: u64, depth: nat) -> Result<
    Option<CellModel>,
    DbError,
>
    decreases depth,
{
    if depth == 0 {
        Err(DbError::TreeTooDeep)
    } else {
        match page_type_spec(m, n) {
            Err(e) => Err(e),
            Ok(t) => {
                let p = page_bytes(m, n);
                let h = header_offset(n);
                if t == LEAF_TABLE_PAGE {
                    match cell_offsets_spec(p, h, 8) {
                        Err(e) => Err(e),
                        Ok(offs) => probe_leaf(p, offs, 0, target),
                    }
                } else if t == INTERIOR_TABLE_PAGE {
                    match cell_offsets_spec(p, h, 12) {
                        Err(e) => Err(e),
                        Ok(offs) => match probe_child(p, offs, 0, target as int, be32(p, h + 8)) {
                            Err(e) => Err(e),
                            Ok(c) => probe_table(m, c, target, (depth - 1) as nat),
                        },
                    }
                } else {
                    Err(DbError::InvalidPageType)
                }
            },
        }
    }
}

/// An index entry: its key in display form and the row id it points at.
#[derive(Debug)]
pub struct IndexCell {
    pub key: String,
    pub row_id: u64,
}

/// The key (display form of the first column) and row id (the last column,
/// which must be an integer) of the index payload that starts at `o`.
pub open spec fn index_cell_at(p: Seq<u8>, o: int) -> Result<(Seq<char>, u64), DbError> {
    match varint_at(p, o) {
        None => Err(DbError::CorruptVarint),
        Some((size, n)) => {
            let start = o + n;
            if start + size > p.len() {
                Err(DbError::OutOfBounds)
            } else {
                match record_spec(p.subrange(start, start + size)) {
                    Err(e) => Err(e),
                    Ok(rec) => if rec.values.len() < 2 {
                        Err(DbError::ShortRecord)
                    } else {
                        match rec.values.last() {
                            ValueModel::Int(id) => Ok((display_of(rec.values[0]), id as u64)),
                            _ => Err(DbError::InvalidSerialType),
                        }
                    },
                }
            }
        },
    }
}

/// The row ids of the leaf index cells `offs[i..]` whose key is `value`;
/// cells that do not decode are passed over.
pub open spec fn index_leaf_matches(p: Seq<u8>, offs: Seq<int>, i: int, value: Seq<char>) -> Seq<
    u64,
>
    decreases offs.len() - i,
{
    if i >= offs.len() {
        Seq::empty()
    } else {
        let rest = index_leaf_matches(p, offs, i + 1, value);
        match index_cell_at(p, offs[i]) {
            Ok((k, id)) => if k == value {
                seq![id] + rest
            } else {
                rest
            },
            Err(_) => rest,
        }
    }
}

/// The children that a search for `value` descends into from the interior
/// index cells `offs[i..]`: the left child of the first cell whose key is at
/// least `value` (and no later one), else `right`; a cell whose key does not
/// decode contributes its left child and the walk goes on.
pub open spec fn index_descent(p: Seq<u8>, offs: Seq<int>, i: int, value: Seq<char>, right: int) -> Seq<
    int,
>
    decreases offs.len() - i,
{
    if i >= offs.len() {
        seq![right]
    } else {
        let o = offs[i];
        if o < 0 || o + 4 > p.len() {
            index_descent(p, offs, i + 1, value, right)
        } else {
            let c = be32(p, o);
            match index_cell_at(p, o + 4) {
                Ok((k, _)) => if bytes_le(encode_utf8(value), encode_utf8(k)) {
                    seq![c]
                } else {
                    index_descent(p, offs, i + 1, value, right)
                },
                Err(_) => seq![c] + index_descent(p, offs, i + 1, value, right),
            }
        }
    }
}

/// The row ids that a search for `value` in the index B-tree rooted at `n`
/// yields, descending at most `depth` levels.
pub open spec fn index_search(m: DbImage, n: int, value: Seq<char>, depth: nat) -> Result<
    Seq<u64>,
    DbError,
>
    decreases depth, 0int,
{
    if depth == 0 {
        Err(DbError::TreeTooDeep)
    } else {
        match page_type_spec(m, n) {
            Err(e) => Err(e),
            Ok(t) => {
                let p = page_bytes(m, n);
                let h = header_offset(n);
                if t == LEAF_INDEX_PAGE {
                    match cell_offsets_spec(p, h, 8) {
                        Err(e) => Err(e),
                        Ok(offs) => Ok(index_leaf_matches(p, offs, 0, value)),
                    }
                } else if t == INTERIOR_INDEX_PAGE {
                    match cell_offsets_spec(p, h, 12) {
                        Err(e) => Err(e),
                        Ok(offs) => index_search_all(
                            m,
                            index_descent(p, offs, 0, value, be32(p, h + 8)),
                            value,
                            (depth - 1) as nat,
                        ),
                    }
                } else {
                    Err(DbError::InvalidPageType)
                }
            },
        }
    }
}

/// The row ids that searches of the subtrees `children` yield, one after another.
pub open spec fn index_search_all(m: DbImage, children: Seq<int>, value: Seq<char>, depth: nat) -> Result<
    Seq<u64>,
    DbError,
>
    decreases depth, children.len(),
{
    if children.len() == 0 {
        Ok(Seq::empty())
    } else {
        match index_search_all(m, children.drop_last(), value, depth) {
            Err(e) => Err(e),
            Ok(pre) => match index_search(m, children.last(), value, depth) {
                Err(e) => Err(e),
                Ok(ids) => Ok(pre + ids),
            },
        }
    }
}

proof fn lemma_index_search_all_err(m: DbImage, ch: Seq<int>, k: int, value: Seq<char>, depth: nat)
    requires
        0 <= k <= ch.len(),
        index_search_all(m, ch.subrange(0, k), value, depth) is Err,
    ensures
        index_search_all(m, ch, value, depth) == index_search_all(m, ch.subrange(0, k), value, depth),
    decreases ch.len(),
{
    if ch.len() == k {
        assert(ch.subrange(0, k) =~= ch);
    } else {
        assert(ch.drop_last().subrange(0, k) =~= ch.subrange(0, k));
        lemma_index_search_all_err(m, ch.drop_last(), k, value, depth);
    }
}

/// Reads the interior table cell at `o`: its left child and its key.
fn read_interior_table_cell(page: &[u8], o: usize) -> (r: Result<(usize, u64), DbError>)
    ensures
        match interior_table_cell(page@, o as int) {
            Ok((c, k)) => r == Ok::<(usize, u64), DbError>((c as usize, k as u64)) && c == c as usize && k == k as u64,
            Err(e) => r == Err::<(usize, u64), DbError>(e),
        },
{
    if o > page.len() || page.len() - o < 4 {
        return Err(DbError::OutOfBounds);
    }
    let child = read_be32(page, o);
    match read_varint(page, o + 4) {
        Ok((k, _)) => Ok((child, k)),
        Err(e) => Err(e),
    }
}

/// Reads the index payload that starts at `offset`: its key and row id.
fn read_index_cell(page: &[u8], offset: usize) -> (r: Result<IndexCell, DbError>)
    requires
        page@.len() < usize::MAX,
    ensures
        match index_cell_at(page@, offset as int) {
            Ok((k, id)) => r matches Ok(c) && c.key@ == k && c.row_id == id,
            Err(e) => r == Err::<IndexCell, DbError>(e),
        },
{
    let len = page.len();
    let (size, n) = match read_varint(page, offset) {
        Ok(x) => x,
        Err(e) => return Err(e),
    };
    let start = offset + n;
    if size > (len - start) as u64 {
        return Err(DbError::OutOfBounds);
    }
    let end = start + size as usize;
    let record = match Record::from_bytes(&page[start..end]) {
        Ok(rec) => rec,
        Err(e) => return Err(e),
    };
    let count = record.body.len();
    if count < 2 {
        return Err(DbError::ShortRecord);
    }
    let row_id = match &record.body[count - 1] {
        RecordValue::Int(id) => *id as u64,
        _ => return Err(DbError::InvalidSerialType),
    };
    let key = record.body[0].to_display_string();
    Ok(IndexCell { key, row_id })
}

impl Database {
    /// The cell with row id `target_row_id` in the table B-tree rooted at
    /// `page_num`, found by a point probe that descends at most `depth` levels.
    pub fn search_table_for_row_id(&self, page_num: usize, target_row_id: u64, depth: usize) -> (r:
        Result<Option<Cell>, DbError>)
        requires
            self.wf(),
        ensures
            match probe_table(self@, page_num as int, target_row_id, depth as nat) {
                Ok(Some(c)) => r matches Ok(Some(v)) && v@ == c,
                Ok(None) => r matches Ok(None),
                Err(e) => r == Err::<Option<Cell>, DbError>(e),
            },
        decreases depth,
    {
        if depth == 0 {
            return Err(DbError::TreeTooDeep);
        }
        let page = match self.read_page_data(page_num) {
            Ok(p) => p,
            Err(e) => return Err(e),
        };
        let t = match self.read_page_type(page_num, page.as_slice()) {
            Ok(t) => t,
            Err(e) => return Err(e),
        };
        let h = Self::get_dbheader_offset(page_num);
        let ghost p = page@;
        if t == LEAF_TABLE_PAGE {
            let offs = match get_cell_offsets(page.as_slice(), h, BTREE_HEADER_SIZE) {
                Ok(v) => v,
                Err(e) => return Err(e),
            };
            let ghost all = as_ints(offs@);
            let mut i: usize = 0;
            while i < offs.len()
                invariant
                    p == page@,
                    all == as_ints(offs@),
                    i <= offs@.len(),
                    probe_table(self@, page_num as int, target_row_id, depth as nat) == probe_leaf(
                        p,
                        all,
                        i as int,
                        target_row_id,
                    ),
                decreases offs@.len() - i,
            {
                let cell = match Cell::from_bytes(page.as_slice(), offs[i]) {
                    Ok(c) => c,
                    Err(e) => return Err(e),
                };
                if cell.row_id == target_row_id {
                    return Ok(Some(cell));
                }
                i = i + 1;
            }
            Ok(None)
        } else if t == INTERIOR_TABLE_PAGE {
            let offs = match get_cell_offsets(page.as_slice(), h, INTERIOR_HEADER_SIZE) {
                Ok(v) => v,
                Err(e) => return Err(e),
            };
            let right = read_be32(page.as_slice(), h + 8);
            let child = match pick_probe_child(page.as_slice(), &offs, target_row_id, right) {
                Ok(c) => c,
                Err(e) => return Err(e),
            };
            self.search_table_for_row_id(child, target_row_id, depth - 1)
        } else {
            Err(DbError::InvalidPageType)
        }
    }

    /// The row ids that a search for `search_value` in the index B-tree rooted
    /// at `page_num` yields, descending at most `depth` levels.
    pub fn traverse_index_for_value(&self, page_num: usize, search_value: &str, depth: usize) -> (r:
        Result<Vec<u64>, DbError>)
        requires
            self.wf(),
        ensures
            match index_search(self@, page_num as int, search_value@, depth as nat) {
                Ok(ids) => r matches Ok(v) && v@ == ids,
                Err(e) => r == Err::<Vec<u64>, DbError>(e),
            },
        decreases depth,
    {
        if depth == 0 {
            return Err(DbError::TreeTooDeep);
        }
        let page = match self.read_page_data(page_num) {
            Ok(p) => p,
            Err(e) => return Err(e),
        };
        let t = match self.read_page_type(page_num, page.as_slice()) {
            Ok(t) => t,
            Err(e) => return Err(e),
        };
        let h = Self::get_dbheader_offset(page_num);
        let ghost p = page@;
        let ghost value = search_value@;
        if t == LEAF_INDEX_PAGE {
            let offs = match get_cell_offsets(page.as_slice(), h, BTREE_HEADER_SIZE) {
                Ok(v) => v,
                Err(e) => return Err(e),
            };
            Ok(search_index_leaf_page(page.as_slice(), &offs, search_value))
        } else if t == INTERIOR_INDEX_PAGE {
            let offs = match get_cell_offsets(page.as_slice(), h, INTERIOR_HEADER_SIZE) {
                Ok(v) => v,
                Err(e) => return Err(e),
            };
            let right = read_be32(page.as_slice(), h + 8);
            let children = get_index_child_pages(page.as_slice(), &offs, search_value, right);
            let ghost ch = as_ints(children@);
            let ghost d = (depth - 1) as nat;
            assert(index_search(self@, page_num as int, value, depth as nat) == index_search_all(
                self@,
                ch,
                value,
                d,
            ));
            let mut ids: Vec<u64> = Vec::new();
            let mut i: usize = 0;
            assert(ch.subrange(0, 0) =~= Seq::<int>::empty());
            while i < children.len()
                invariant
                    self.wf(),
                    depth >= 1,
                    d == depth - 1,
                    value == search_value@,
                    ch == as_ints(children@),
                    index_search(self@, page_num as int, value, depth as nat) == index_search_all(
                        self@,
                        ch,
                        value,
                        d,
                    ),
                    i <= children@.len(),
                    index_search_all(self@, ch.subrange(0, i as int), value, d) == Ok::<
                        Seq<u64>,
                        DbError,
                    >(ids@),
                decreases children@.len() - i,
            {
                assert(ch.subrange(0, i + 1).drop_last() =~= ch.subrange(0, i as int));
                assert(ch.subrange(0, i + 1).last() == children@[i as int] as int);
                let mut sub = match self.traverse_index_for_value(children[i], search_value, depth - 1) {
                    Ok(v) => v,
                    Err(e) => {
                        proof {
                            assert(index_search_all(self@, ch.subrange(0, i + 1), value, d) == Err::<
                                Seq<u64>,
                                DbError,
                            >(e));
                            lemma_index_search_all_err(self@, ch, i + 1, value, d);
                        }
                        return Err(e);
                    },
                };
                ids.append(&mut sub);
                i = i + 1;
            }
            assert(ch.subrange(0, children@.len() as int) =~= ch);
            Ok(ids)
        } else {
            Err(DbError::InvalidPageType)
        }
    }
}

/// The child that a probe for `target` descends into from the interior table
/// cells at `offs`, with `right` the rightmost child.
fn pick_probe_child(page: &[u8], offs: &Vec<usize>, target: u64, right: usize) -> (r: Result<
    usize,
    DbError,
>)
    ensures
        match probe_child(page@, as_ints(offs@), 0, target as int, right as int) {
            Ok(c) => r == Ok::<usize, DbError>(c as usize) && c == c as usize,
            Err(e) => r == Err::<usize, DbError>(e),
        },
{
    let ghost all = as_ints(offs@);
    let mut i: usize = 0;
    while i < offs.len()
        invariant
            all == as_ints(offs@),
            i <= offs@.len(),
            probe_child(page@, all, 0, target as int, right as int) == probe_child(
                page@,
                all,
                i as int,
                target as int,
                right as int,
            ),
        decreases offs@.len() - i,
    {
        let (c, k) = match read_interior_table_cell(page, offs[i]) {
            Ok(x) => x,
            Err(e) => return Err(e),
        };
        if k >= target {
            return Ok(c);
        }
        i = i + 1;
    }
    Ok(right)
}

/// The row ids of the leaf index cells at `offs` whose key is `search_value`.
fn search_index_leaf_page(page: &[u8], offs: &Vec<usize>, search_value: &str) -> (r: Vec<u64>)
    requires
        page@.len() < usize::MAX,
    ensures
        r@ == index_leaf_matches(page@, as_ints(offs@), 0, search_value@),
{
    let ghost all = as_ints(offs@);
    let ghost value = search_value@;
    let mut ids: Vec<u64> = Vec::new();
    let mut i: usize = 0;
    while i < offs.len()
        invariant
            page@.len() < usize::MAX,
            all == as_ints(offs@),
            value == search_value@,
            i <= offs@.len(),
            index_leaf_matches(page@, all, 0, value) == ids@ + index_leaf_matches(
                page@,
                all,
                i as int,
                value,
            ),
        decreases offs@.len() - i,
    {
        let ghost rest = index_leaf_matches(page@, all, i + 1, value);
        match read_index_cell(page, offs[i]) {
            Ok(cell) => {
                if text_eq(cell.key.as_str(), search_value) {
                    assert(ids@.push(cell.row_id) + rest =~= ids@ + (seq![cell.row_id] + rest));
                    ids.push(cell.row_id);
                }
            },
            Err(_) => {},
        }
        i = i + 1;
    }
    assert(ids@ + Seq::<u64>::empty() =~= ids@);
    ids
}

/// The children that a search for `search_value` descends into from the
/// interior index cells at `offs`, with `right` the rightmost child.
fn get_index_child_pages(page: &[u8], offs: &Vec<usize>, search_value: &str, right: usize) -> (r: Vec<
    usize,
>)
    requires
        page@.len() < usize::MAX,
    ensures
        as_ints(r@) == index_descent(page@, as_ints(offs@), 0, search_value@, right as int),
{
    let ghost all = as_ints(offs@);
    let ghost value = search_value@;
    let len = page.len();
    let mut children: Vec<usize> = Vec::new();
    let mut i: usize = 0;
    while i < offs.len()
        invariant
            len == page@.len() < usize::MAX,
            all == as_ints(offs@),
            value == search_value@,
            i <= offs@.len(),
            index_descent(page@, all, 0, value, right as int) == as_ints(children@)
                + index_descent(page@, all, i as int, value, right as int),
        decreases offs@.len() - i,
    {
        let o = offs[i];
        let ghost rest = index_descent(page@, all, i + 1, value, right as int);
        if o <= len && len - o >= 4 {
            let c = read_be32(page, o);
            let ghost prev = children@;
            match read_index_cell(page, o + 4) {
                Ok(cell) => {
                    if text_le(search_value, cell.key.as_str()) {
                        children.push(c);
                        assert(as_ints(children@) =~= as_ints(prev) + seq![c as int]);
                        return children;
                    }
                },
                Err(_) => {
                    children.push(c);
                    assert(as_ints(children@) + rest =~= as_ints(prev) + (seq![c as int] + rest));
                },
            }
        }
        i = i + 1;
    }
    let ghost prev = children@;
    children.push(right);
    assert(as_ints(children@) =~= as_ints(prev) + seq![right as int]);
    children
}

/// A page that lies within the image is exactly one page size long, and the
/// cell pointer array of its B-tree header holds as many entries as the
/// header's cell count.
pub proof fn lemma_page_layout(m: DbImage, n: int, hdr_len: int)
    requires
        page_exists(m, n),
    ensures
        page_bytes(m, n).len() == m.page_size,
        cell_offsets_spec(page_bytes(m, n), header_offset(n), hdr_len) matches Ok(offs) ==> offs.len()
            == be16(page_bytes(m, n), header_offset(n) + 3),
{
    let ps = m.page_size as int;
    assert((n - 1) * ps + ps == n * ps) by (nonlinear_arith);
    assert(0 <= (n - 1) * ps) by (nonlinear_arith)
        requires
            n >= 1,
            ps >= 0,
    ;
}

/// The number of cells that the table-leaf pages of the B-tree rooted at `n`
/// declare in their headers, following at most `depth` levels.
pub open spec fn leaf_cell_total(m: DbImage, n: int, depth: nat) -> int
    decreases depth, 0int,
{
    if depth == 0 {
        0
    } else {
        match page_type_spec(m, n) {
            Err(_) => 0,
            Ok(t) => {
                let p = page_bytes(m, n);
                let h = header_offset(n);
                if t == LEAF_TABLE_PAGE {
                    match cell_count_spec(p, h) {
                        Ok(c) => c,
                        Err(_) => 0,
                    }
                } else if t == INTERIOR_TABLE_PAGE {
                    match interior_children(p, h) {
                        Ok(children) => subtree_leaf_total(m, children, (depth - 1) as nat),
                        Err(_) => 0,
                    }
                } else {
                    0
                }
            },
        }
    }
}

/// The leaf cell totals of the subtrees rooted at `children`, added up.
pub open spec fn subtree_leaf_total(m: DbImage, children: Seq<int>, depth: nat) -> int
    decreases depth, children.len(),
{
    if children.len() == 0 {
        0
    } else {
        subtree_leaf_total(m, children.drop_last(), depth) + leaf_cell_total(m, children.last(), depth)
    }
}

proof fn lemma_leaf_cells_len(p: Seq<u8>, offs: Seq<int>)
    ensures
        leaf_cells(p, offs) matches Ok(cs) ==> cs.len() == offs.len(),
    decreases offs.len(),
{
    if offs.len() > 0 {
        lemma_leaf_cells_len(p, offs.drop_last());
    }
}

/// A full scan of a table B-tree yields one cell for each cell that its
/// leaf pages declare.
pub proof fn lemma_table_cells_count(m: DbImage, n: int, depth: nat)
    ensures
        table_cells(m, n, depth) matches Ok(cs) ==> cs.len() == leaf_cell_total(m, n, depth),
    decreases depth, 0int,
{
    if depth > 0 {
        match page_type_spec(m, n) {
            Err(_) => {},
            Ok(t) => {
                let p = page_bytes(m, n);
                let h = header_offset(n);
                if t == LEAF_TABLE_PAGE {
                    match cell_offsets_spec(p, h, 8) {
                        Ok(offs) => lemma_leaf_cells_len(p, offs),
                        Err(_) => {},
                    }
                } else if t == INTERIOR_TABLE_PAGE {
                    match interior_children(p, h) {
                        Ok(children) => lemma_subtree_cells_count(m, children, (depth - 1) as nat),
                        Err(_) => {},
                    }
                }
            },
        }
    }
}

/// A scan of several subtrees yields one cell for each cell that their leaf
/// pages declare.
pub proof fn lemma_subtree_cells_count(m: DbImage, children: Seq<int>, depth: nat)
    ensures
        subtree_cells(m, children, depth) matches Ok(cs) ==> cs.len() == subtree_leaf_total(
            m,
            children,
            depth,
        ),
    decreases depth, children.len(),
{
    if children.len() > 0 {
        lemma_subtree_cells_count(m, children.drop_last(), depth);
        lemma_table_cells_count(m, children.last(), depth);
    }
}

/// The row-id keys of the interior table cells at `offs`, one for each cell
/// that [`left_children`] takes a child from.
pub open spec fn separator_keys(p: Seq<u8>, offs: Seq<int>) -> Seq<int>
    decreases offs.len(),
{
    if offs.len() == 0 {
        Seq::empty()
    } else {
        let o = offs.last();
        let pre = separator_keys(p, offs.drop_last());
        if 0 <= o && o + 4 <= p.len() {
            pre.push(
                match varint_at(p, o + 4) {
                    Some((k, _)) => k,
                    None => 0,
                },
            )
        } else {
            pre
        }
    }
}

/// Whether the row ids of `cs` rise strictly.
pub open spec fn ascending_ids(cs: Seq<CellModel>) -> bool {
    forall|i: int, j: int| 0 <= i < j < cs.len() ==> cs[i].row_id < cs[j].row_id
}

/// Whether every row id of `cs` lies in `(lo, hi]`.
pub open spec fn ids_within(cs: Seq<CellModel>, lo: int, hi: int) -> bool {
    forall|i: int| 0 <= i < cs.len() ==> lo < #[trigger] cs[i].row_id <= hi
}

/// Whether `b` never decreases.
pub open spec fn nondecreasing(b: Seq<int>) -> bool {
    forall|i: int, j: int| 0 <= i <= j < b.len() ==> b[i] <= b[j]
}

/// Whether the table B-tree rooted at `n` keeps the format's ordering
/// invariant with every row id in `(lo, hi]`: each leaf decodes with rising
/// row ids, and each interior page's keys rise and bound the row ids of the
/// child to their left, the rightmost child holding those above the last key.
pub open spec fn ordered_table(m: DbImage, n: int, lo: int, hi: int, depth: nat) -> bool
    decreases depth, 0int,
{
    if depth == 0 {
        false
    } else {
        match page_type_spec(m, n) {
            Err(_) => false,
            Ok(t) => {
                let p = page_bytes(m, n);
                let h = header_offset(n);
                if t == LEAF_TABLE_PAGE {
                    match cell_offsets_spec(p, h, 8) {
                        Err(_) => false,
                        Ok(offs) => match leaf_cells(p, offs) {
                            Err(_) => false,
                            Ok(cs) => ascending_ids(cs) && ids_within(cs, lo, hi),
                        },
                    }
                } else if t == INTERIOR_TABLE_PAGE {
                    match cell_offsets_spec(p, h, 12) {
                        Err(_) => false,
                        Ok(offs) => {
                            let bounds = seq![lo] + separator_keys(p, offs) + seq![hi];
                            &&& nondecreasing(bounds)
                            &&& ordered_children(
                                m,
                                left_children(p, offs).push(be32(p, h + 8)),
                                bounds,
                                (depth - 1) as nat,
                            )
                        },
                    }
                } else {
                    false
                }
            },
        }
    }
}

/// Whether each subtree `children[i]` is ordered within `(bounds[i], bounds[i + 1]]`.
pub open spec fn ordered_children(m: DbImage, children: Seq<int>, bounds: Seq<int>, depth: nat) -> bool
    decreases depth, children.len(),
{
    if children.len() == 0 {
        true
    } else {
        &&& bounds.len() == children.len() + 1
        &&& ordered_children(m, children.drop_last(), bounds.drop_last(), depth)
        &&& ordered_table(
            m,
            children.last(),
            bounds[children.len() - 1],
            bounds[children.len() as int],
            depth,
        )
    }
}

proof fn lemma_separator_keys_len(p: Seq<u8>, offs: Seq<int>)
    ensures
        separator_keys(p, offs).len() == left_children(p, offs).len(),
    decreases offs.len(),
{
    if offs.len() > 0 {
        lemma_separator_keys_len(p, offs.drop_last());
    }
}

/// A full scan of a table B-tree that keeps the format's ordering invariant
/// succeeds and yields strictly ascending row ids.
pub proof fn lemma_ordered_scan_ascending(m: DbImage, n: int, lo: int, hi: int, depth: nat)
    requires
        ordered_table(m, n, lo, hi, depth),
    ensures
        table_cells(m, n, depth) is Ok,
        ascending_ids(table_cells(m, n, depth)->Ok_0),
        ids_within(table_cells(m, n, depth)->Ok_0, lo, hi),
    decreases depth, 0int,
{
    let t = page_type_spec(m, n)->Ok_0;
    let p = page_bytes(m, n);
    let h = header_offset(n);
    if t == INTERIOR_TABLE_PAGE {
        let offs = cell_offsets_spec(p, h, 12)->Ok_0;
        let ch = left_children(p, offs).push(be32(p, h + 8));
        let bounds = seq![lo] + separator_keys(p, offs) + seq![hi];
        lemma_separator_keys_len(p, offs);
        lemma_ordered_children(m, ch, bounds, (depth - 1) as nat);
        assert(interior_children(p, h) == Ok::<Seq<int>, DbError>(ch));
        assert(bounds[0] == lo);
        assert(bounds[ch.len() as int] == hi);
    }
}

/// Scans of ordered subtrees with non-decreasing bounds succeed and together
/// yield strictly ascending row ids within the outer bounds.
pub proof fn lemma_ordered_children(m: DbImage, ch: Seq<int>, bounds: Seq<int>, depth: nat)
    requires
        ordered_children(m, ch, bounds, depth),
        bounds.len() == ch.len() + 1,
        nondecreasing(bounds),
    ensures
        subtree_cells(m, ch, depth) is Ok,
        ascending_ids(subtree_cells(m, ch, depth)->Ok_0),
        ids_within(subtree_cells(m, ch, depth)->Ok_0, bounds[0], bounds[ch.len() as int]),
    decreases depth, ch.len(),
{
    if ch.len() > 0 {
        let k = ch.len() - 1;
        let b2 = bounds.drop_last();
        assert(nondecreasing(b2));
        lemma_ordered_children(m, ch.drop_last(), b2, depth);
        lemma_ordered_scan_ascending(m, ch.last(), bounds[k], bounds[k + 1], depth);
        let pre = subtree_cells(m, ch.drop_last(), depth)->Ok_0;
        let cs = table_cells(m, ch.last(), depth)->Ok_0;
        let all = pre + cs;
        assert(b2[0] == bounds[0]);
        assert(b2[k] == bounds[k]);
        assert(bounds[0] <= bounds[k] <= bounds[k + 1]);
        assert forall|i: int, j: int| 0 <= i < j < all.len() implies all[i].row_id < all[j].row_id by {
            if j < pre.len() {
            } else if i >= pre.len() {
                assert(all[i] == cs[i - pre.len()]);
                assert(all[j] == cs[j - pre.len()]);
            } else {
                assert(all[i] == pre[i]);
                assert(all[j] == cs[j - pre.len()]);
                assert(lo_hi(pre, i, bounds[0], bounds[k]));
                assert(lo_hi(cs, j - pre.len(), bounds[k], bounds[k + 1]));
            }
        }
        assert forall|i: int| 0 <= i < all.len() implies bounds[0] < #[trigger] all[i].row_id
            <= bounds[k + 1] by {
            if i < pre.len() {
                assert(all[i] == pre[i]);
                assert(lo_hi(pre, i, bounds[0], bounds[k]));
            } else {
                assert(all[i] == cs[i - pre.len()]);
                assert(lo_hi(cs, i - pre.len(), bounds[k], bounds[k + 1]));
            }
        }
    }
}

/// Whether cell `i` of `cs` has its row id in `(lo, hi]`.
spec fn lo_hi(cs: Seq<CellModel>, i: int, lo: int, hi: int) -> bool {
    lo < cs[i].row_id <= hi
}

/// Whether a leaf that a search for `value` from the index page `n` reaches
/// holds an entry with key `value` and row id `id`.
pub open spec fn reached_entry(m: DbImage, n: int, value: Seq<char>, id: u64, depth: nat) -> bool
    decreases depth, 0int,
{
    if depth == 0 {
        false
    } else {
        match page_type_spec(m, n) {
            Err(_) => false,
            Ok(t) => {
                let p = page_bytes(m, n);
                let h = header_offset(n);
                if t == LEAF_INDEX_PAGE {
                    match cell_offsets_spec(p, h, 8) {
                        Err(_) => false,
                        Ok(offs) => exists|i: int|
                            0 <= i < offs.len() && #[trigger] index_cell_at(p, offs[i]) == Ok::<
                                (Seq<char>, u64),
                                DbError,
                            >((value, id)),
                    }
                } else if t == INTERIOR_INDEX_PAGE {
                    match cell_offsets_spec(p, h, 12) {
                        Err(_) => false,
                        Ok(offs) => reached_below(
                            m,
                            index_descent(p, offs, 0, value, be32(p, h + 8)),
                            value,
                            id,
                            (depth - 1) as nat,
                        ),
                    }
                } else {
                    false
                }
            },
        }
    }
}

/// Whether a search for `value` from one of the pages `children` reaches an
/// entry with key `value` and row id `id`.
pub open spec fn reached_below(m: DbImage, children: Seq<int>, value: Seq<char>, id: u64, depth: nat) -> bool
    decreases depth, children.len(),
{
    if children.len() == 0 {
        false
    } else {
        reached_below(m, children.drop_last(), value, id, depth) || reached_entry(
            m,
            children.last(),
            value,
            id,
            depth,
        )
    }
}

proof fn lemma_leaf_matches_sound(p: Seq<u8>, offs: Seq<int>, i: int, value: Seq<char>, k: int)
    requires
        0 <= i,
        0 <= k < index_leaf_matches(p, offs, i, value).len(),
    ensures
        exists|j: int|
            i <= j < offs.len() && #[trigger] index_cell_at(p, offs[j]) == Ok::<(Seq<char>, u64), DbError>(
                (value, index_leaf_matches(p, offs, i, value)[k]),
            ),
    decreases offs.len() - i,
{
    if i < offs.len() {
        let rest = index_leaf_matches(p, offs, i + 1, value);
        match index_cell_at(p, offs[i]) {
            Ok((key, id)) => {
                if key == value {
                    if k == 0 {
                        assert(index_cell_at(p, offs[i]) == Ok::<(Seq<char>, u64), DbError>((value, id)));
                    } else {
                        assert(index_leaf_matches(p, offs, i, value)[k] == rest[k - 1]);
                        lemma_leaf_matches_sound(p, offs, i + 1, value, k - 1);
                    }
                } else {
                    lemma_leaf_matches_sound(p, offs, i + 1, value, k);
                }
            },
            Err(_) => lemma_leaf_matches_sound(p, offs, i + 1, value, k),
        }
    }
}

/// Every row id that a search of an index B-tree for `value` yields belongs to
/// an entry with key `value` in a leaf that the search reached.
pub proof fn lemma_index_search_sound(m: DbImage, n: int, value: Seq<char>, depth: nat, k: int)
    requires
        index_search(m, n, value, depth) is Ok,
        0 <= k < index_search(m, n, value, depth)->Ok_0.len(),
    ensures
        reached_entry(m, n, value, index_search(m, n, value, depth)->Ok_0[k], depth),
    decreases depth, 0int,
{
    let t = page_type_spec(m, n)->Ok_0;
    let p = page_bytes(m, n);
    let h = header_offset(n);
    if t == LEAF_INDEX_PAGE {
        let offs = cell_offsets_spec(p, h, 8)->Ok_0;
        lemma_leaf_matches_sound(p, offs, 0, value, k);
    } else {
        let offs = cell_offsets_spec(p, h, 12)->Ok_0;
        let ch = index_descent(p, offs, 0, value, be32(p, h + 8));
        lemma_index_search_all_sound(m, ch, value, (depth - 1) as nat, k);
    }
}

/// Every row id that searches of several subtrees yield belongs to an entry
/// with key `value` that one of them reached.
pub proof fn lemma_index_search_all_sound(m: DbImage, ch: Seq<int>, value: Seq<char>, depth: nat, k: int)
    requires
        index_search_all(m, ch, value, depth) is Ok,
        0 <= k < index_search_all(m, ch, value, depth)->Ok_0.len(),
    ensures
        reached_below(m, ch, value, index_search_all(m, ch, value, depth)->Ok_0[k], depth),
    decreases depth, ch.len(),
{
    let pre = index_search_all(m, ch.drop_last(), value, depth)->Ok_0;
    let ids = index_search(m, ch.last(), value, depth)->Ok_0;
    let all = index_search_all(m, ch, value, depth)->Ok_0;
    assert(all == pre + ids);
    if k < pre.len() {
        assert(all[k] == pre[k]);
        lemma_index_search_all_sound(m, ch.drop_last(), value, depth, k);
    } else {
        assert(all[k] == ids[k - pre.len()]);
        lemma_index_search_sound(m, ch.last(), value, depth, k - pre.len());
    }
}

/// The length of the B-tree header of a page of type `t`: twelve bytes for an
/// interior page, which adds the rightmost child, and eight for any other.
pub open spec fn btree_header_len(t: u8) -> int {
    if t == INTERIOR_INDEX_PAGE || t == INTERIOR_TABLE_PAGE {
        12
    } else {
        8
    }
}

/// On a page of the image whose cell pointer array lies within it, the array
/// after the B-tree header (of the length its type gives) has exactly as many
/// entries as the header's cell count, each the big-endian 16-bit offset there.
pub proof fn lemma_cell_pointer_array(m: DbImage, n: int)
    requires
        page_exists(m, n),
        header_offset(n) + 5 <= m.page_size,
        header_offset(n) + btree_header_len(page_bytes(m, n)[header_offset(n)]) + 2 * be16(
            page_bytes(m, n),
            header_offset(n) + 3,
        ) <= m.page_size,
    ensures
        ({
            let p = page_bytes(m, n);
            let h = header_offset(n);
            let hl = btree_header_len(p[h]);
            &&& cell_offsets_spec(p, h, hl) is Ok
            &&& cell_offsets_spec(p, h, hl)->Ok_0.len() == be16(p, h + 3)
            &&& forall|i: int|
                0 <= i < be16(p, h + 3) ==> #[trigger] cell_offsets_spec(p, h, hl)->Ok_0[i] == be16(
                    p,
                    h + hl + 2 * i,
                )
        }),
{
    lemma_page_layout(m, n, 8);
}

/// A full scan of a table B-tree that keeps the format's ordering invariant
/// succeeds, and yields one row for each cell that its leaf pages declare.
pub proof fn lemma_ordered_scan_count(m: DbImage, n: int, lo: int, hi: int, depth: nat)
    requires
        ordered_table(m, n, lo, hi, depth),
    ensures
        table_cells(m, n, depth) is Ok,
        table_cells(m, n, depth)->Ok_0.len() == leaf_cell_total(m, n, depth),
{
    lemma_ordered_scan_ascending(m, n, lo, hi, depth);
    lemma_table_cells_count(m, n, depth);
}

} // verus!
