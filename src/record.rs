//! Records: a header of serial types followed by the column values.
use vstd::prelude::*;
use vstd::utf8::{decode_utf8, valid_utf8};

use crate::error::DbError;
use crate::text::{decimal_int, decimal_nat, push_decimal, push_signed_decimal};
use crate::varint::{read_varint, varint_at};

verus! {

/// A decoded column value, tagged by its storage class.
///
/// A real number is held as the bit pattern of its IEEE-754 binary64 encoding.
#[derive(Debug)]
pub enum RecordValue {
    Null,
    Int(i64),
    Float(u64),
    Zero,
    One,
    Blob(Vec<u8>),
    Text(String),
    Reserved(u64),
}

/// The mathematical value of a [`RecordValue`].
pub enum ValueModel {
    Null,
    Int(i64),
    Float(u64),
    Zero,
    One,
    Blob(Seq<u8>),
    Text(Seq<char>),
    Reserved(u64),
}

impl View for RecordValue {
    type V = ValueModel;

    open spec fn view(&self) -> ValueModel {
        match self {
            RecordValue::Null => ValueModel::Null,
            RecordValue::Int(i) => ValueModel::Int(*i),
            RecordValue::Float(b) => ValueModel::Float(*b),
            RecordValue::Zero => ValueModel::Zero,
            RecordValue::One => ValueModel::One,
            RecordValue::Blob(b) => ValueModel::Blob(b@),
            RecordValue::Text(s) => ValueModel::Text(s@),
            RecordValue::Reserved(c) => ValueModel::Reserved(*c),
        }
    }
}

/// The models of a sequence of values.
pub open spec fn values_view(vs: Seq<RecordValue>) -> Seq<ValueModel> {
    vs.map_values(|v: RecordValue| v@)
}

/// What `String::from_utf8_lossy` makes of a byte string.
pub uninterp spec fn utf8_lossy(b: Seq<u8>) -> Seq<char>;

/// Relies on `String::from_utf8_lossy`: the text depends on the bytes alone, and
/// bytes that are valid UTF-8 decode as they stand.
#[verifier::external_body]
fn text_from_utf8(b: &[u8]) -> (r: String)
    ensures
        r@ == utf8_lossy(b@),
        valid_utf8(b@) ==> r@ == decode_utf8(b@),
{
    String::from_utf8_lossy(b).into_owned()
}

/// `256` raised to the power `k`.
pub open spec fn pow256(k: nat) -> nat
    decreases k,
{
    if k == 0 {
        1
    } else {
        256 * pow256((k - 1) as nat)
    }
}

/// The unsigned big-endian integer that `s` encodes.
pub open spec fn be_unsigned(s: Seq<u8>) -> int
    decreases s.len(),
{
    if s.len() == 0 {
        0
    } else {
        be_unsigned(s.drop_last()) * 256 + s.last() as int
    }
}

/// The two's-complement big-endian integer that `s` encodes.
pub open spec fn be_signed(s: Seq<u8>) -> int {
    if s.len() > 0 && s[0] >= 128 {
        be_unsigned(s) - pow256(s.len())
    } else {
        be_unsigned(s)
    }
}

/// The number of body bytes that a column of serial type `t` takes.
pub open spec fn serial_width(t: u64) -> int {
    if t == 0 || t == 8 || t == 9 || t == 10 || t == 11 {
        0
    } else if 1 <= t <= 4 {
        t as int
    } else if t == 5 {
        6
    } else if t == 6 || t == 7 {
        8
    } else if t % 2 == 0 {
        (t - 12) / 2
    } else {
        (t - 13) / 2
    }
}

/// Whether decoding a column of serial type `t` checks that its bytes are there.
pub open spec fn serial_reads_body(t: u64) -> bool {
    (1 <= t <= 7) || t >= 12
}

/// The value of a column of serial type `t` whose body bytes are `b`.
pub open spec fn value_model(t: u64, b: Seq<u8>) -> ValueModel {
    if t == 0 {
        ValueModel::Null
    } else if 1 <= t <= 6 {
        ValueModel::Int(be_signed(b) as i64)
    } else if t == 7 {
        ValueModel::Float(be_unsigned(b) as u64)
    } else if t == 8 {
        ValueModel::Zero
    } else if t == 9 {
        ValueModel::One
    } else if t == 10 || t == 11 {
        ValueModel::Reserved(t)
    } else if t % 2 == 0 {
        ValueModel::Blob(b)
    } else {
        ValueModel::Text(utf8_lossy(b))
    }
}

/// The column of serial type `t` whose body starts at `off` in `data`, with
/// the number of bytes it takes.
pub open spec fn value_at(t: u64, data: Seq<u8>, off: int) -> Result<(ValueModel, int), DbError> {
    let w = serial_width(t);
    if serial_reads_body(t) && off + w > data.len() {
        Err(DbError::ShortRecord)
    } else {
        Ok((value_model(t, data.subrange(off, off + w)), w))
    }
}

proof fn lemma_be_unsigned_bound(s: Seq<u8>)
    ensures
        0 <= be_unsigned(s) < pow256(s.len()),
    decreases s.len(),
{
    if s.len() > 0 {
        lemma_be_unsigned_bound(s.drop_last());
        let a = be_unsigned(s.drop_last());
        let p = pow256(s.drop_last().len());
        assert(0 <= a * 256 + s.last() < p * 256) by (nonlinear_arith)
            requires
                0 <= a < p,
                0 <= s.last() < 256,
        ;
    }
}

/// The first byte of a big-endian integer weighs `256^(len-1)`.
proof fn lemma_be_unsigned_first(s: Seq<u8>)
    requires
        s.len() > 0,
    ensures
        be_unsigned(s) == s[0] * pow256((s.len() - 1) as nat) + be_unsigned(s.drop_first()),
    decreases s.len(),
{
    if s.len() == 1 {
        assert(s.drop_last().len() == 0);
        assert(s.drop_first().len() == 0);
        assert(pow256(0) == 1);
        assert(s.last() == s[0]);
        assert(be_unsigned(s.drop_last()) == 0);
        assert(be_unsigned(s) == s[0]);
        assert(be_unsigned(s.drop_first()) == 0);
        assert(s[0] * pow256(0) == s[0]);
    } else {
        let t = s.drop_last();
        lemma_be_unsigned_first(t);
        assert(t[0] == s[0]);
        assert(t.drop_first() =~= s.drop_first().drop_last());
        assert(s.drop_first().last() == s.last());
        assert(be_unsigned(s.drop_first()) == be_unsigned(s.drop_first().drop_last()) * 256
            + s.drop_first().last());
        let p = pow256((t.len() - 1) as nat);
        assert(pow256((s.len() - 1) as nat) == 256 * p);
        assert((s[0] * p + be_unsigned(t.drop_first())) * 256 + s.last() == s[0] * (256 * p) + (
        be_unsigned(t.drop_first()) * 256 + s.last())) by (nonlinear_arith);
        assert(be_unsigned(s) == be_unsigned(t) * 256 + s.last());
    }
}

/// Whether `w` bytes starting at `offset` lie within `data`.
fn fits(data: &[u8], offset: usize, w: u64) -> (b: bool)
    ensures
        b == (offset + w <= data@.len()),
{
    offset <= data.len() && w <= (data.len() - offset) as u64
}

/// Reads `w` bytes at `offset` as an unsigned big-endian integer.
fn read_be_unsigned(data: &[u8], offset: usize, w: usize) -> (r: u64)
    requires
        w <= 8,
        offset + w <= data@.len(),
    ensures
        r as int == be_unsigned(data@.subrange(offset as int, offset + w)),
{
    let _len = data.len();
    let mut acc: u64 = 0;
    let mut k: usize = 0;
    while k < w
        invariant
            k <= w <= 8,
            offset + w <= data@.len() <= usize::MAX,
            acc as int == be_unsigned(data@.subrange(offset as int, offset + k)),
        decreases w - k,
    {
        let ghost pre = data@.subrange(offset as int, offset + k);
        let ghost next = data@.subrange(offset as int, offset + k + 1);
        assert(next.drop_last() =~= pre);
        proof {
            lemma_be_unsigned_bound(pre);
            lemma_pow256_le(k as nat, 7);
            reveal_with_fuel(pow256, 9);
        }
        assert((acc as int) * 256 + (data[offset + k] as int) < 0x1_0000_0000_0000_0000) by (
        nonlinear_arith)
            requires
                acc < 0x100_0000_0000_0000,
                data[offset + k] < 256,
        ;
        let b = data[offset + k];
        acc = acc * 256 + b as u64;
        k = k + 1;
    }
    acc
}

proof fn lemma_pow256_le(a: nat, b: nat)
    requires
        a <= b,
    ensures
        pow256(a) <= pow256(b),
    decreases b - a,
{
    if a < b {
        lemma_pow256_le(a, (b - 1) as nat);
    }
}

impl RecordValue {
    /// Decodes the column of serial type `col_type` whose body starts at
    /// `offset` in `data`; also returns the number of body bytes it takes.
    pub fn from_type_and_data(col_type: u64, data: &[u8], offset: usize) -> (r: Result<
        (RecordValue, usize),
        DbError,
    >)
        ensures
            match value_at(col_type, data@, offset as int) {
                Ok((v, w)) => r matches Ok((rv, n)) && rv@ == v && n == w,
                Err(e) => r == Err::<(RecordValue, usize), DbError>(e),
            },
    {
        let _len = data.len();
        if col_type == 0 {
            Ok((RecordValue::Null, 0))
        } else if col_type <= 6 {
            let w: usize = if col_type <= 4 {
                col_type as usize
            } else if col_type == 5 {
                6
            } else {
                8
            };
            if !fits(data, offset, w as u64) {
                return Err(DbError::ShortRecord);
            }
            let v = Self::read_int(data, offset, w);
            Ok((RecordValue::Int(v), w))
        } else if col_type == 7 {
            if !fits(data, offset, 8) {
                return Err(DbError::ShortRecord);
            }
            let bits = read_be_unsigned(data, offset, 8);
            Ok((RecordValue::Float(bits), 8))
        } else if col_type == 8 {
            Ok((RecordValue::Zero, 0))
        } else if col_type == 9 {
            Ok((RecordValue::One, 0))
        } else if col_type == 10 || col_type == 11 {
            Ok((RecordValue::Reserved(col_type), 0))
        } else if col_type % 2 == 0 {
            let len = (col_type - 12) / 2;
            if !fits(data, offset, len) {
                return Err(DbError::ShortRecord);
            }
            let n = len as usize;
            let blob = vstd::slice::slice_to_vec(&data[offset..offset + n]);
            Ok((RecordValue::Blob(blob), n))
        } else {
            let len = (col_type - 13) / 2;
            if !fits(data, offset, len) {
                return Err(DbError::ShortRecord);
            }
            let n = len as usize;
            let text = text_from_utf8(&data[offset..offset + n]);
            Ok((RecordValue::Text(text), n))
        }
    }

    /// Reads `size` bytes at `offset` as a sign-extended big-endian integer.
    fn read_int(data: &[u8], offset: usize, size: usize) -> (r: i64)
        requires
            1 <= size <= 8,
            offset + size <= data@.len(),
        ensures
            r as int == be_signed(data@.subrange(offset as int, offset + size)),
    {
        let ghost s = data@.subrange(offset as int, offset + size);
        let u = read_be_unsigned(data, offset, size);
        let all_ones: u64 = if size == 1 {
            0xff
        } else if size == 2 {
            0xffff
        } else if size == 3 {
            0xff_ffff
        } else if size == 4 {
            0xffff_ffff
        } else if size == 5 {
            0xff_ffff_ffff
        } else if size == 6 {
            0xffff_ffff_ffff
        } else if size == 7 {
            0xff_ffff_ffff_ffff
        } else {
            0xffff_ffff_ffff_ffff
        };
        proof {
            reveal_with_fuel(pow256, 9);
            lemma_be_unsigned_bound(s);
            lemma_be_unsigned_first(s);
            lemma_be_unsigned_bound(s.drop_first());
            assert(s[0] == data[offset as int]);
            assert(all_ones + 1 == pow256(size as nat));
        }
        if data[offset] >= 0x80 {
            proof {
                let p = pow256((size - 1) as nat);
                assert(s[0] * p >= 128 * p) by (nonlinear_arith)
                    requires
                        s[0] >= 128,
                        p >= 0,
                ;
                assert(pow256(size as nat) == 256 * p);
            }
            let c = all_ones - u;
            0i64 - (c as i64) - 1
        } else {
            proof {
                let p = pow256((size - 1) as nat);
                assert(s[0] * p <= 127 * p) by (nonlinear_arith)
                    requires
                        s[0] <= 127,
                        p >= 0,
                ;
                assert(pow256(size as nat) == 256 * p);
            }
            u as i64
        }
    }

    /// A copy of this value.
    pub fn clone_value(&self) -> (r: RecordValue)
        ensures
            r@ == self@,
    {
        match self {
            RecordValue::Null => RecordValue::Null,
            RecordValue::Int(i) => RecordValue::Int(*i),
            RecordValue::Float(b) => RecordValue::Float(*b),
            RecordValue::Zero => RecordValue::Zero,
            RecordValue::One => RecordValue::One,
            RecordValue::Blob(b) => RecordValue::Blob(vstd::slice::slice_to_vec(b.as_slice())),
            RecordValue::Text(s) => RecordValue::Text(s.clone()),
            RecordValue::Reserved(c) => RecordValue::Reserved(*c),
        }
    }
}

/// The serial types of a record header, read from `pos` up to `hsize`.
pub open spec fn header_types_from(p: Seq<u8>, pos: int, hsize: int) -> Option<Seq<u64>>
    decreases (if pos < hsize {
        hsize - pos
    } else {
        0
    }),
{
    if pos >= hsize {
        Some(Seq::empty())
    } else if varint_at(p, pos) is None {
        None
    } else {
        let t = varint_at(p, pos)->Some_0.0;
        let n = varint_at(p, pos)->Some_0.1;
        if n == 0 {
            None
        } else {
            match header_types_from(p, pos + n, hsize) {
                None => None,
                Some(rest) => Some(seq![t as u64] + rest),
            }
        }
    }
}

/// The header of the record `p`: its declared size and its serial types.
pub open spec fn record_header_spec(p: Seq<u8>) -> Result<(u64, Seq<u64>), DbError> {
    match varint_at(p, 0) {
        None => Err(DbError::CorruptVarint),
        Some((h, n)) => match header_types_from(p, n as int, h) {
            None => Err(DbError::CorruptVarint),
            Some(ts) => Ok((h as u64, ts)),
        },
    }
}

/// The values of the columns `i..` of types `ts`, the first starting at `off`.
pub open spec fn values_from(p: Seq<u8>, ts: Seq<u64>, i: int, off: int) -> Result<
    Seq<ValueModel>,
    DbError,
>
    decreases ts.len() - i,
{
    if i >= ts.len() {
        Ok(Seq::empty())
    } else {
        match value_at(ts[i], p, off) {
            Err(e) => Err(e),
            Ok((v, w)) => match values_from(p, ts, i + 1, off + w) {
                Err(e) => Err(e),
                Ok(rest) => Ok(seq![v] + rest),
            },
        }
    }
}

/// The mathematical content of a decoded record.
pub struct RecordModel {
    pub header_size: u64,
    pub types: Seq<u64>,
    pub values: Seq<ValueModel>,
}

/// The record that the payload `p` encodes.
pub open spec fn record_spec(p: Seq<u8>) -> Result<RecordModel, DbError> {
    match record_header_spec(p) {
        Err(e) => Err(e),
        Ok((h, ts)) => match values_from(p, ts, 0, h as int) {
            Err(e) => Err(e),
            Ok(vs) => Ok(RecordModel { header_size: h, types: ts, values: vs }),
        },
    }
}

/// The header of a record: its size in bytes and the serial type of each column.
#[derive(Debug)]
pub struct RecordHeader {
    pub size: u64,
    pub column_types: Vec<u64>,
}

impl RecordHeader {
    /// Decodes the header at the start of the record payload `data`.
    pub fn from_bytes(data: &[u8]) -> (r: Result<RecordHeader, DbError>)
        ensures
            match record_header_spec(data@) {
                Ok((h, ts)) => r matches Ok(hd) && hd.size == h && hd.column_types@ == ts,
                Err(e) => r == Err::<RecordHeader, DbError>(e),
            },
    {
        let len = data.len();
        let (header_size, first) = match read_varint(data, 0) {
            Ok(x) => x,
            Err(e) => return Err(e),
        };
        let ghost full = header_types_from(data@, first as int, header_size as int);
        let mut pos: usize = first;
        let mut column_types: Vec<u64> = Vec::new();
        while (pos as u64) < header_size
            invariant
                pos <= data@.len() <= usize::MAX,
                varint_at(data@, 0) == Some((header_size as int, first as nat)),
                full == header_types_from(data@, first as int, header_size as int),
                match header_types_from(data@, pos as int, header_size as int) {
                    Some(rest) => full == Some(column_types@ + rest),
                    None => full is None,
                },
            decreases (if pos < header_size {
                header_size - pos
            } else {
                0
            }),
        {
            let (col_type, n) = match read_varint(data, pos) {
                Ok(x) => x,
                Err(e) => return Err(e),
            };
            proof {
                match header_types_from(data@, pos + n, header_size as int) {
                    Some(rest) => {
                        assert(column_types@.push(col_type) + rest =~= column_types@ + (seq![
                            col_type,
                        ] + rest));
                    },
                    None => {},
                }
            }
            column_types.push(col_type);
            pos = pos + n;
        }
        assert(column_types@ + Seq::<u64>::empty() =~= column_types@);
        Ok(RecordHeader { size: header_size, column_types })
    }
}

/// A decoded record: its header and one value per column.
#[derive(Debug)]
pub struct Record {
    pub header: RecordHeader,
    pub body: Vec<RecordValue>,
}

impl View for Record {
    type V = RecordModel;

    open spec fn view(&self) -> RecordModel {
        RecordModel {
            header_size: self.header.size,
            types: self.header.column_types@,
            values: values_view(self.body@),
        }
    }
}

proof fn lemma_values_from_past_end(p: Seq<u8>, ts: Seq<u64>, i: int, a: int, b: int)
    requires
        a > p.len(),
        b > p.len(),
    ensures
        values_from(p, ts, i, a) == values_from(p, ts, i, b),
    decreases ts.len() - i,
{
    if i < ts.len() {
        lemma_values_from_past_end(p, ts, i + 1, a, b);
    }
}

impl Record {
    /// Decodes the record payload `data`.
    pub fn from_bytes(data: &[u8]) -> (r: Result<Record, DbError>)
        requires
            data@.len() < usize::MAX,
        ensures
            match record_spec(data@) {
                Ok(m) => r matches Ok(rec) && rec@ == m,
                Err(e) => r == Err::<Record, DbError>(e),
            },
    {
        let header = match RecordHeader::from_bytes(data) {
            Ok(h) => h,
            Err(e) => return Err(e),
        };
        let len = data.len();
        let start: usize = if header.size > len as u64 {
            len + 1
        } else {
            header.size as usize
        };
        proof {
            if header.size > len as u64 {
                lemma_values_from_past_end(data@, header.column_types@, 0, start as int, header.size as int);
            }
        }
        let ghost ts = header.column_types@;
        let ghost full = values_from(data@, ts, 0, header.size as int);
        let mut body: Vec<RecordValue> = Vec::new();
        let mut off: usize = start;
        let mut i: usize = 0;
        while i < header.column_types.len()
            invariant
                ts == header.column_types@,
                record_header_spec(data@) == Ok::<(u64, Seq<u64>), DbError>((header.size, ts)),
                len == data@.len(),
                i <= ts.len(),
                off <= len + 1,
                full == values_from(data@, ts, 0, header.size as int),
                match values_from(data@, ts, i as int, off as int) {
                    Ok(rest) => full == Ok::<Seq<ValueModel>, DbError>(values_view(body@) + rest),
                    Err(e) => full == Err::<Seq<ValueModel>, DbError>(e),
                },
            decreases ts.len() - i,
        {
            let t = header.column_types[i];
            let (value, n) = match RecordValue::from_type_and_data(t, data, off) {
                Ok(x) => x,
                Err(e) => return Err(e),
            };
            proof {
                match values_from(data@, ts, i + 1, off + n) {
                    Ok(rest) => {
                        assert(values_view(body@.push(value)) + rest =~= values_view(body@) + (seq![
                            value@,
                        ] + rest));
                    },
                    Err(_) => {},
                }
            }
            body.push(value);
            off = off + n;
            i = i + 1;
        }
        assert(values_view(body@) + Seq::<ValueModel>::empty() =~= values_view(body@));
        Ok(Record { header, body })
    }
}

/// The canonical display form of a value: the text that output shows and that
/// `WHERE` and index keys compare against.
///
/// A real number shows its bit pattern in decimal; rendering it as a decimal
/// fraction is left to the caller.
pub open spec fn display_of(v: ValueModel) -> Seq<char> {
    match v {
        ValueModel::Null => "NULL"@,
        ValueModel::Int(i) => decimal_int(i as int),
        ValueModel::Float(b) => "<REAL "@ + decimal_nat(b as nat) + ">"@,
        ValueModel::Zero => "0"@,
        ValueModel::One => "1"@,
        ValueModel::Text(t) => t,
        ValueModel::Blob(b) => "<BLOB "@ + decimal_nat(b.len()) + " bytes>"@,
        ValueModel::Reserved(r) => "<RESERVED "@ + decimal_nat(r as nat) + ">"@,
    }
}

impl RecordValue {
    /// The canonical display form of this value.
    pub fn to_display_string(&self) -> (r: String)
        ensures
            r@ == display_of(self@),
    {
        match self {
            RecordValue::Null => "NULL".to_owned(),
            RecordValue::Int(i) => {
                let mut s = String::new();
                push_signed_decimal(&mut s, *i);
                assert(s@ =~= decimal_int(*i as int));
                s
            },
            RecordValue::Float(b) => {
                let mut s = "<REAL ".to_owned();
                push_decimal(&mut s, *b);
                s.append(">");
                s
            },
            RecordValue::Zero => "0".to_owned(),
            RecordValue::One => "1".to_owned(),
            RecordValue::Text(t) => t.clone(),
            RecordValue::Blob(b) => {
                let mut s = "<BLOB ".to_owned();
                push_decimal(&mut s, b.len() as u64);
                s.append(" bytes>");
                s
            },
            RecordValue::Reserved(r) => {
                let mut s = "<RESERVED ".to_owned();
                push_decimal(&mut s, *r);
                s.append(">");
                s
            },
        }
    }
}

/// The body bytes that columns `i..` of types `ts` take.
pub open spec fn widths_from(ts: Seq<u64>, i: int) -> int
    decreases ts.len() - i,
{
    if i < 0 || i >= ts.len() {
        0
    } else {
        serial_width(ts[i]) + widths_from(ts, i + 1)
    }
}

proof fn lemma_serial_width_nonneg(t: u64)
    ensures
        serial_width(t) >= 0,
{
}

proof fn lemma_values_from_widths(p: Seq<u8>, ts: Seq<u64>, i: int, off: int)
    requires
        0 <= i,
        off <= p.len(),
        values_from(p, ts, i, off) is Ok,
    ensures
        off + widths_from(ts, i) <= p.len(),
        values_from(p, ts, i, off)->Ok_0.len() == ts.len() - i || i >= ts.len(),
    decreases ts.len() - i,
{
    if i < ts.len() {
        let w = serial_width(ts[i]);
        lemma_serial_width_nonneg(ts[i]);
        if !serial_reads_body(ts[i]) {
            assert(w == 0);
        }
        lemma_values_from_widths(p, ts, i + 1, off + w);
    }
}

/// In a decoded record whose header fits in its payload, the columns' byte
/// widths, added to the header size, never run past the payload's end: the
/// body holds at least the bytes its serial types declare.
pub proof fn lemma_record_widths(p: Seq<u8>)
    requires
        record_spec(p) is Ok,
        record_spec(p)->Ok_0.header_size <= p.len(),
    ensures
        record_spec(p)->Ok_0.header_size + widths_from(record_spec(p)->Ok_0.types, 0) <= p.len(),
        record_spec(p)->Ok_0.values.len() == record_spec(p)->Ok_0.types.len(),
{
    let rec = record_spec(p)->Ok_0;
    lemma_values_from_widths(p, rec.types, 0, rec.header_size as int);
}

} // verus!
