//! The record decoder: from a cell inside a page buffer, recover the rowid
//! and the sequence of column values.
//!
//! A record begins with a header-size varint (whose own bytes count toward
//! the header size), then one serial-type varint per column, then the
//! concatenated column bodies.

use vstd::prelude::*;

use crate::bytes::{be_uint, read_be_uint, spec_u64_decimal, u64_to_decimal};
use crate::error::Error;
use crate::serial::{serial_type_size, spec_serial_size};
use crate::varint::{lemma_varint_len, read_varint, varint_at};

verus! {

/// The serial-type varints found between `pos` and `end`, or `None` when a
/// varint runs off the end of the buffer. A varint that starts before `end`
/// is taken whole even if it reaches past `end`, as the header walk of the
/// engine does.
pub open spec fn spec_parse_serials(pg: Seq<u8>, pos: int, end: int) -> Option<Seq<u64>>
    decreases end - pos,
    via spec_parse_serials_dec
{
    if pos >= end {
        Some(Seq::empty())
    } else {
        match varint_at(pg, pos) {
            None => None,
            Some((v, l)) => {
                if pos + l >= end {
                    Some(seq![v])
                } else {
                    match spec_parse_serials(pg, pos + l, end) {
                        None => None,
                        Some(rest) => Some(seq![v] + rest),
                    }
                }
            },
        }
    }
}

#[via_fn]
proof fn spec_parse_serials_dec(pg: Seq<u8>, pos: int, end: int) {
    if pos < end && varint_at(pg, pos) is Some {
        lemma_varint_len(pg, pos);
    }
}

/// Read the serial-type varints between `pos` and `end` (`end` may lie far
/// beyond the buffer; parsing then fails with `Truncated` at the buffer end).
pub fn parse_serials(pg: &Vec<u8>, start: usize, end: u128) -> (r: Result<Vec<u64>, Error>)
    ensures
        match r {
            Ok(v) => spec_parse_serials(pg@, start as int, end as int) == Some(v@),
            Err(e) => e == Error::Truncated && spec_parse_serials(pg@, start as int, end as int)
                is None,
        },
{
    let mut v: Vec<u64> = Vec::new();
    let mut pos: usize = start;
    loop
        invariant
            spec_parse_serials(pg@, start as int, end as int) == (match spec_parse_serials(
                pg@,
                pos as int,
                end as int,
            ) {
                Some(rest) => Some(v@ + rest),
                None => None::<Seq<u64>>,
            }),
        decreases end as int - pos as int,
    {
        if (pos as u128) >= end {
            proof {
                assert(v@ + Seq::<u64>::empty() =~= v@);
            }
            return Ok(v);
        }
        match read_varint(pg, pos) {
            Err(_) => {
                return Err(Error::Truncated);
            },
            Ok((val, l)) => {
                proof {
                    lemma_varint_len(pg@, pos as int);
                }
                proof {
                    assert(pos + l <= pg.len());
                }
                let ghost old_v = v@;
                v.push(val);
                if ((pos + l) as u128) >= end {
                    proof {
                        assert(old_v + seq![val] =~= v@);
                    }
                    return Ok(v);
                }
                proof {
                    if spec_parse_serials(pg@, pos + l, end as int) is Some {
                        let rest = spec_parse_serials(pg@, pos + l, end as int)->Some_0;
                        assert((old_v + seq![val]) + rest =~= old_v + (seq![val] + rest));
                    }
                }
                pos = pos + l;
            },
        }
    }
}

/// The parsed frame of a table-leaf cell: declared payload size, rowid,
/// serial types, and the position where the column bodies begin.
pub open spec fn spec_table_cell_parts(pg: Seq<u8>, cell: int) -> Result<
    (u64, u64, Seq<u64>, int),
    Error,
> {
    match varint_at(pg, cell) {
        None => Err(Error::Truncated),
        Some((payload, l1)) => match varint_at(pg, cell + l1) {
            None => Err(Error::Truncated),
            Some((rowid, l2)) => {
                let hs = cell + l1 + l2;
                if hs + payload > pg.len() {
                    Err(Error::OverflowUnsupported)
                } else {
                    match varint_at(pg, hs) {
                        None => Err(Error::Truncated),
                        Some((h, l3)) => match spec_parse_serials(pg, hs + l3, hs + h) {
                            None => Err(Error::Truncated),
                            Some(serials) => Ok((payload, rowid, serials, hs + h)),
                        },
                    }
                }
            },
        },
    }
}

/// Parse the frame of the table-leaf cell at `cell`: its declared payload
/// size, its rowid, its serial types and the position of its column bodies.
///
/// Fails with `OverflowUnsupported` when the declared payload reaches past
/// the page boundary, and with `Truncated` when a varint runs off the buffer.
pub fn parse_table_cell(pg: &Vec<u8>, cell: usize) -> (r: Result<
    (u64, u64, Vec<u64>, u128),
    Error,
>)
    ensures
        match r {
            Ok((payload, rowid, serials, body)) => spec_table_cell_parts(pg@, cell as int) == Ok::<
                _,
                Error,
            >((payload, rowid, serials@, body as int)),
            Err(e) => spec_table_cell_parts(pg@, cell as int) == Err::<(u64, u64, Seq<u64>, int),
                _,
            >(e),
        },
{
    let (payload, l1) = match read_varint(pg, cell) {
        Ok(x) => x,
        Err(e) => {
            return Err(e);
        },
    };
    proof {
        lemma_varint_len(pg@, cell as int);
        assert(varint_at(pg@, cell as int)->Some_0.1 == l1);
        assert(cell + l1 <= pg.len());
    }
    let (rowid, l2) = match read_varint(pg, cell + l1) {
        Ok(x) => x,
        Err(e) => {
            return Err(e);
        },
    };
    proof {
        lemma_varint_len(pg@, cell + l1);
        assert(cell + l1 + l2 <= pg.len());
    }
    let hs = cell + l1 + l2;
    if (hs as u128) + (payload as u128) > (pg.len() as u128) {
        return Err(Error::OverflowUnsupported);
    }
    let (h, l3) = match read_varint(pg, hs) {
        Ok(x) => x,
        Err(e) => {
            return Err(e);
        },
    };
    proof {
        lemma_varint_len(pg@, hs as int);
    }
    let end: u128 = (hs as u128) + (h as u128);
    let serials = match parse_serials(pg, hs + l3, end) {
        Ok(s) => s,
        Err(e) => {
            return Err(e);
        },
    };
    Ok((payload, rowid, serials, end))
}

/// The sum of the body sizes of the first `k` serial types.
pub open spec fn spec_sum_sizes(serials: Seq<u64>, k: int) -> int
    decreases k,
{
    if k <= 0 {
        0
    } else {
        spec_sum_sizes(serials, k - 1) + spec_serial_size(serials[k - 1])
    }
}

/// Prefix sums of serial sizes never decrease.
pub proof fn lemma_sum_sizes_monotonic(serials: Seq<u64>, j: int, k: int)
    requires
        j <= k,
    ensures
        spec_sum_sizes(serials, j) <= spec_sum_sizes(serials, k),
    decreases k - j,
{
    if j < k {
        lemma_sum_sizes_monotonic(serials, j, k - 1);
    }
}

/// The raw bytes of column `col` in a record whose serial types are
/// `serials` and whose bodies start at `body`: empty for a missing column or
/// a zero-sized serial, `Truncated` when the body would reach past the
/// buffer.
pub open spec fn spec_column_bytes_in(
    pg: Seq<u8>,
    serials: Seq<u64>,
    body: int,
    col: int,
) -> Result<Seq<u8>, Error> {
    if col >= serials.len() {
        Ok(Seq::empty())
    } else if spec_serial_size(serials[col]) == 0 {
        Ok(Seq::empty())
    } else {
        let start = body + spec_sum_sizes(serials, col);
        let size = spec_serial_size(serials[col]) as int;
        if start + size > pg.len() {
            Err(Error::Truncated)
        } else {
            Ok(pg.subrange(start, start + size))
        }
    }
}

/// Copy the bytes of column `col` out of a record.
pub fn column_bytes_in(pg: &Vec<u8>, serials: &Vec<u64>, body: u128, col: usize) -> (r: Result<
    Vec<u8>,
    Error,
>)
    ensures
        match r {
            Ok(b) => spec_column_bytes_in(pg@, serials@, body as int, col as int) == Ok::<_, Error>(
                b@,
            ),
            Err(e) => spec_column_bytes_in(pg@, serials@, body as int, col as int) == Err::<
                Seq<u8>,
                _,
            >(e),
        },
{
    if col >= serials.len() {
        let v: Vec<u8> = Vec::new();
        proof {
            assert(v@ =~= Seq::<u8>::empty());
        }
        return Ok(v);
    }
    let size = serial_type_size(serials[col]);
    if size == 0 {
        let v: Vec<u8> = Vec::new();
        proof {
            assert(v@ =~= Seq::<u8>::empty());
        }
        return Ok(v);
    }
    let mut sum: u128 = body;
    let mut j: usize = 0;
    while j < col
        invariant
            0 <= j <= col,
            col < serials.len(),
            spec_serial_size(serials@[col as int]) != 0,
            sum == body + spec_sum_sizes(serials@, j as int),
        decreases col - j,
    {
        if sum > pg.len() as u128 {
            proof {
                lemma_sum_sizes_monotonic(serials@, j as int, col as int);
            }
            return Err(Error::Truncated);
        }
        let s = serial_type_size(serials[j]);
        sum = sum + (s as u128);
        j = j + 1;
    }
    let size128 = size as u128;
    if sum > pg.len() as u128 || size128 > (pg.len() as u128) - sum {
        return Err(Error::Truncated);
    }
    let start = sum as usize;
    let mut out: Vec<u8> = Vec::new();
    let mut k: usize = 0;
    while k < size
        invariant
            0 <= k <= size,
            start + size <= pg.len(),
            out@ =~= pg@.subrange(start as int, start + k),
        decreases size - k,
    {
        out.push(pg[start + k]);
        proof {
            assert(out@ =~= pg@.subrange(start as int, start + k + 1));
        }
        k = k + 1;
    }
    Ok(out)
}

/// The value of column `col` of the table-leaf cell at `cell`, as the
/// engine's projector sees it.
///
/// A missing column or a zero-sized serial type yields `None`, except that a
/// zero-sized serial at column 0 stands for the `INTEGER PRIMARY KEY` alias
/// and yields the rowid rendered in decimal.
pub open spec fn spec_extract_column(pg: Seq<u8>, cell: int, col: int) -> Result<
    Option<Seq<u8>>,
    Error,
> {
    match spec_table_cell_parts(pg, cell) {
        Err(e) => Err(e),
        Ok((payload, rowid, serials, body)) => {
            if col >= serials.len() {
                Ok(None)
            } else if spec_serial_size(serials[col]) == 0 {
                if col == 0 {
                    Ok(Some(spec_u64_decimal(rowid)))
                } else {
                    Ok(None)
                }
            } else {
                match spec_column_bytes_in(pg, serials, body, col) {
                    Err(e) => Err(e),
                    Ok(b) => Ok(Some(b)),
                }
            }
        },
    }
}

/// Extract column `col` from the table-leaf cell at `cell_offset`, with the
/// `INTEGER PRIMARY KEY` rewrite: a zero-sized serial at column 0 returns
/// the rowid as a decimal string.
pub fn extract_column_from_table_cell(pg: &Vec<u8>, cell_offset: usize, col_index: usize) -> (r:
    Result<Option<Vec<u8>>, Error>)
    ensures
        match r {
            Ok(Some(b)) => spec_extract_column(pg@, cell_offset as int, col_index as int) == Ok::<
                _,
                Error,
            >(Some(b@)),
            Ok(None) => spec_extract_column(pg@, cell_offset as int, col_index as int) == Ok::<
                Option<Seq<u8>>,
                Error,
            >(None),
            Err(e) => spec_extract_column(pg@, cell_offset as int, col_index as int) == Err::<
                Option<Seq<u8>>,
                _,
            >(e),
        },
{
    let (_payload, rowid, serials, body) = match parse_table_cell(pg, cell_offset) {
        Ok(x) => x,
        Err(e) => {
            return Err(e);
        },
    };
    if col_index >= serials.len() {
        return Ok(None);
    }
    let size = serial_type_size(serials[col_index]);
    if size == 0 {
        if col_index == 0 {
            return Ok(Some(u64_to_decimal(rowid)));
        } else {
            return Ok(None);
        }
    }
    match column_bytes_in(pg, &serials, body, col_index) {
        Ok(b) => Ok(Some(b)),
        Err(e) => Err(e),
    }
}

/// The raw bytes of column `col` of the table-leaf cell at `cell`, without
/// the rowid rewrite: empty for a missing column or a zero-sized serial.
pub open spec fn spec_column_bytes(pg: Seq<u8>, cell: int, col: int) -> Result<Seq<u8>, Error> {
    match spec_table_cell_parts(pg, cell) {
        Err(e) => Err(e),
        Ok((payload, rowid, serials, body)) => spec_column_bytes_in(pg, serials, body, col),
    }
}

/// Copy the raw bytes of column `col` of the table-leaf cell at `cell`.
pub fn column_bytes(pg: &Vec<u8>, cell: usize, col: usize) -> (r: Result<Vec<u8>, Error>)
    ensures
        match r {
            Ok(b) => spec_column_bytes(pg@, cell as int, col as int) == Ok::<_, Error>(b@),
            Err(e) => spec_column_bytes(pg@, cell as int, col as int) == Err::<Seq<u8>, _>(e),
        },
{
    match parse_table_cell(pg, cell) {
        Err(e) => Err(e),
        Ok((_, _, serials, body)) => column_bytes_in(pg, &serials, body, col),
    }
}

/// Extract the `tbl_name` column (the third) of the schema-row cell at
/// `cell_offset`.
pub fn extract_tbl_name_from_cell(pg: &Vec<u8>, cell_offset: usize) -> (r: Result<Vec<u8>, Error>)
    ensures
        match r {
            Ok(b) => spec_column_bytes(pg@, cell_offset as int, 2) == Ok::<_, Error>(b@),
            Err(e) => spec_column_bytes(pg@, cell_offset as int, 2) == Err::<Seq<u8>, _>(e),
        },
{
    column_bytes(pg, cell_offset, 2)
}

/// One row of the `sqlite_schema` table: its five columns, with `rootpage`
/// reinterpreted as an unsigned page number.
#[derive(Debug)]
pub struct SchemaRow {
    /// The `type` column: `table`, `index`, `view` or `trigger`.
    pub row_type: Vec<u8>,
    /// The object's own name.
    pub name: Vec<u8>,
    /// The table the object belongs to.
    pub tbl_name: Vec<u8>,
    /// The root page of the object's B-tree.
    pub rootpage: u32,
    /// The `CREATE ...` text the object was made with.
    pub sql: Vec<u8>,
}

/// The mathematical image of a schema row.
pub struct SpecSchemaRow {
    pub row_type: Seq<u8>,
    pub name: Seq<u8>,
    pub tbl_name: Seq<u8>,
    pub rootpage: u32,
    pub sql: Seq<u8>,
}

impl View for SchemaRow {
    type V = SpecSchemaRow;

    open spec fn view(&self) -> SpecSchemaRow {
        SpecSchemaRow {
            row_type: self.row_type@,
            name: self.name@,
            tbl_name: self.tbl_name@,
            rootpage: self.rootpage,
            sql: self.sql@,
        }
    }
}

/// The schema row stored in the table-leaf cell at `cell`: its five columns
/// in order, the fourth folded into an unsigned page number.
pub open spec fn spec_schema_row(pg: Seq<u8>, cell: int) -> Result<SpecSchemaRow, Error> {
    match spec_column_bytes(pg, cell, 0) {
        Err(e) => Err(e),
        Ok(row_type) => match spec_column_bytes(pg, cell, 1) {
            Err(e) => Err(e),
            Ok(name) => match spec_column_bytes(pg, cell, 2) {
                Err(e) => Err(e),
                Ok(tbl_name) => match spec_column_bytes(pg, cell, 3) {
                    Err(e) => Err(e),
                    Ok(rp) => match spec_column_bytes(pg, cell, 4) {
                        Err(e) => Err(e),
                        Ok(sql) => Ok(
                            SpecSchemaRow {
                                row_type,
                                name,
                                tbl_name,
                                rootpage: be_uint(rp) as u32,
                                sql,
                            },
                        ),
                    },
                },
            },
        },
    }
}

/// Decode the schema row held by the table-leaf cell at `cell_offset`.
pub fn extract_schema_row_from_cell(pg: &Vec<u8>, cell_offset: usize) -> (r: Result<
    SchemaRow,
    Error,
>)
    ensures
        match r {
            Ok(row) => spec_schema_row(pg@, cell_offset as int) == Ok::<_, Error>(row@),
            Err(e) => spec_schema_row(pg@, cell_offset as int) == Err::<SpecSchemaRow, _>(e),
        },
{
    let row_type = match column_bytes(pg, cell_offset, 0) {
        Ok(b) => b,
        Err(e) => {
            return Err(e);
        },
    };
    let name = match column_bytes(pg, cell_offset, 1) {
        Ok(b) => b,
        Err(e) => {
            return Err(e);
        },
    };
    let tbl_name = match column_bytes(pg, cell_offset, 2) {
        Ok(b) => b,
        Err(e) => {
            return Err(e);
        },
    };
    let rp = match column_bytes(pg, cell_offset, 3) {
        Ok(b) => b,
        Err(e) => {
            return Err(e);
        },
    };
    let sql = match column_bytes(pg, cell_offset, 4) {
        Ok(b) => b,
        Err(e) => {
            return Err(e);
        },
    };
    let rootpage = read_be_uint(&rp) as u32;
    Ok(SchemaRow { row_type, name, tbl_name, rootpage, sql })
}

/// The parsed frame of an index cell's record: declared payload size,
/// serial types, and the position where the column bodies begin. Index
/// cells carry no rowid varint; their record's last column holds the rowid.
pub open spec fn spec_index_cell_parts(pg: Seq<u8>, cell: int) -> Result<
    (u64, Seq<u64>, int),
    Error,
> {
    match varint_at(pg, cell) {
        None => Err(Error::Truncated),
        Some((payload, l1)) => {
            let rs = cell + l1;
            if rs + payload > pg.len() {
                Err(Error::OverflowUnsupported)
            } else {
                match varint_at(pg, rs) {
                    None => Err(Error::Truncated),
                    Some((h, l2)) => match spec_parse_serials(pg, rs + l2, rs + h) {
                        None => Err(Error::Truncated),
                        Some(serials) => Ok((payload, serials, rs + h)),
                    },
                }
            }
        },
    }
}

/// The key bytes (first column) and the rowid (last column, folded as an
/// unsigned big-endian integer) of the index-leaf cell at `cell`. A record
/// of fewer than two columns yields an empty key or a zero rowid.
pub open spec fn spec_index_key_rowid(pg: Seq<u8>, cell: int) -> Result<(Seq<u8>, u64), Error> {
    match spec_index_cell_parts(pg, cell) {
        Err(e) => Err(e),
        Ok((payload, serials, body)) => {
            if serials.len() == 0 {
                Ok((Seq::empty(), 0))
            } else {
                match spec_column_bytes_in(pg, serials, body, 0) {
                    Err(e) => Err(e),
                    Ok(key) => {
                        if serials.len() == 1 {
                            Ok((key, 0))
                        } else {
                            match spec_column_bytes_in(pg, serials, body, serials.len() - 1) {
                                Err(e) => Err(e),
                                Ok(rb) => Ok((key, be_uint(rb))),
                            }
                        }
                    },
                }
            }
        },
    }
}

/// Parse the frame of the index cell record at `cell`.
pub fn parse_index_cell(pg: &Vec<u8>, cell: usize) -> (r: Result<(u64, Vec<u64>, u128), Error>)
    ensures
        match r {
            Ok((payload, serials, body)) => spec_index_cell_parts(pg@, cell as int) == Ok::<
                _,
                Error,
            >((payload, serials@, body as int)),
            Err(e) => spec_index_cell_parts(pg@, cell as int) == Err::<(u64, Seq<u64>, int), _>(e),
        },
{
    let (payload, l1) = match read_varint(pg, cell) {
        Ok(x) => x,
        Err(e) => {
            return Err(e);
        },
    };
    proof {
        lemma_varint_len(pg@, cell as int);
        assert(cell + l1 <= pg.len());
    }
    let rs = cell + l1;
    if (rs as u128) + (payload as u128) > (pg.len() as u128) {
        return Err(Error::OverflowUnsupported);
    }
    let (h, l2) = match read_varint(pg, rs) {
        Ok(x) => x,
        Err(e) => {
            return Err(e);
        },
    };
    proof {
        lemma_varint_len(pg@, rs as int);
    }
    let end: u128 = (rs as u128) + (h as u128);
    let serials = match parse_serials(pg, rs + l2, end) {
        Ok(s) => s,
        Err(e) => {
            return Err(e);
        },
    };
    Ok((payload, serials, end))
}

/// Extract the key bytes and the trailing rowid of the index-leaf cell at
/// `cell_offset`.
pub fn extract_index_key_and_rowid_from_cell(pg: &Vec<u8>, cell_offset: usize) -> (r: Result<
    (Vec<u8>, u64),
    Error,
>)
    ensures
        match r {
            Ok((key, rowid)) => spec_index_key_rowid(pg@, cell_offset as int) == Ok::<_, Error>(
                (key@, rowid),
            ),
            Err(e) => spec_index_key_rowid(pg@, cell_offset as int) == Err::<(Seq<u8>, u64), _>(e),
        },
{
    let (_payload, serials, body) = match parse_index_cell(pg, cell_offset) {
        Ok(x) => x,
        Err(e) => {
            return Err(e);
        },
    };
    if serials.len() == 0 {
        let key: Vec<u8> = Vec::new();
        proof {
            assert(key@ =~= Seq::<u8>::empty());
        }
        return Ok((key, 0));
    }
    let key = match column_bytes_in(pg, &serials, body, 0) {
        Ok(b) => b,
        Err(e) => {
            return Err(e);
        },
    };
    if serials.len() == 1 {
        return Ok((key, 0));
    }
    let rb = match column_bytes_in(pg, &serials, body, serials.len() - 1) {
        Ok(b) => b,
        Err(e) => {
            return Err(e);
        },
    };
    let rowid = read_be_uint(&rb);
    Ok((key, rowid))
}

} // verus!
