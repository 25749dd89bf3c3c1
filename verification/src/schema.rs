//! The schema reader: the rows of the `sqlite_schema` table, taken from the
//! cells of page 1.
//!
//! The engine reads the schema from page 1 alone, laid out as a table-leaf
//! page whose B-tree header starts at offset 100: the cell count at offset
//! 103 and the cell-pointer array at offset 108.

use vstd::prelude::*;

use crate::bytes::{be16, read_be16};
use crate::error::Error;
use crate::page::{page_seq, read_page};
use crate::record::{
    extract_schema_row_from_cell, extract_tbl_name_from_cell, spec_column_bytes, spec_schema_row,
    SchemaRow, SpecSchemaRow,
};

verus! {

/// The page size stored in the file header, read as a raw big-endian 16-bit
/// integer from bytes 16 and 17.
pub open spec fn spec_page_size(db: Seq<u8>) -> int {
    be16(db, 16)
}

/// The number the `.dbinfo` command reports as the table count: the cell
/// count of the schema's root page (a lower bound when the schema spans
/// several pages).
pub open spec fn spec_number_of_tables(db: Seq<u8>) -> Result<int, Error> {
    if db.len() < 108 {
        Err(Error::ShortRead)
    } else {
        Ok(be16(db, 103))
    }
}

/// Read the cell count of the schema's root page.
pub fn read_number_of_tables(db: &Vec<u8>) -> (r: Result<u16, Error>)
    ensures
        match r {
            Ok(n) => spec_number_of_tables(db@) == Ok::<int, Error>(n as int),
            Err(e) => spec_number_of_tables(db@) == Err::<int, _>(e),
        },
{
    if db.len() < 108 {
        return Err(Error::ShortRead);
    }
    Ok(read_be16(db, 103))
}

/// The offsets of the schema cells: the cell-pointer array of page 1, read
/// as a table-leaf page. Fails with `ShortRead` when the image is shorter
/// than its header or its first page claims, and with `CorruptPage` when
/// the page size cannot hold the page-1 header and pointer array.
pub open spec fn spec_schema_cell_offsets(db: Seq<u8>) -> Result<Seq<int>, Error> {
    if db.len() < 100 {
        Err(Error::ShortRead)
    } else {
        let psz = spec_page_size(db);
        if psz < 108 {
            Err(Error::CorruptPage)
        } else if db.len() < psz {
            Err(Error::ShortRead)
        } else {
            let pg = page_seq(db, psz, 1);
            let cc = be16(pg, 103);
            if 108 + 2 * cc > psz {
                Err(Error::CorruptPage)
            } else {
                Ok(Seq::new(cc as nat, |i: int| be16(pg, 108 + 2 * i)))
            }
        }
    }
}

/// Fetch page 1 and read the schema cell-pointer array.
///
/// Returns the page buffer, its size, and the cell offsets.
pub fn read_schema_page(db: &Vec<u8>) -> (r: Result<(Vec<u8>, usize, Vec<u16>), Error>)
    ensures
        match r {
            Ok((pg, psz, offs)) => {
                &&& spec_schema_cell_offsets(db@) == Ok::<_, Error>(
                    offs@.map_values(|o: u16| o as int),
                )
                &&& psz == spec_page_size(db@)
                &&& 108 <= psz <= 65535
                &&& pg@ == page_seq(db@, psz as int, 1)
                &&& pg.len() == psz
            },
            Err(e) => spec_schema_cell_offsets(db@) == Err::<Seq<int>, _>(e),
        },
{
    if db.len() < 100 {
        return Err(Error::ShortRead);
    }
    let psz = read_be16(db, 16) as usize;
    if psz < 108 {
        return Err(Error::CorruptPage);
    }
    let pg = match read_page(db, psz, 1) {
        Ok(p) => p,
        Err(e) => {
            proof {
                assert(db@.len() < psz ==> e == Error::ShortRead);
            }
            return Err(e);
        },
    };
    let cc = read_be16(&pg, 103) as usize;
    if cc * 2 > psz - 108 {
        return Err(Error::CorruptPage);
    }
    let mut offs: Vec<u16> = Vec::new();
    let mut i: usize = 0;
    while i < cc
        invariant
            0 <= i <= cc,
            108 <= psz <= 65535,
            108 + 2 * cc <= psz,
            pg@ == page_seq(db@, psz as int, 1),
            pg.len() == psz,
            offs@.len() == i,
            forall|k: int| 0 <= k < i ==> offs@[k] as int == be16(pg@, 108 + 2 * k),
        decreases cc - i,
    {
        let o = read_be16(&pg, 108 + 2 * i);
        offs.push(o);
        i = i + 1;
    }
    proof {
        assert(offs@.map_values(|o: u16| o as int) =~= Seq::new(
            cc as nat,
            |k: int| be16(pg@, 108 + 2 * k),
        ));
    }
    Ok((pg, psz, offs))
}

/// The `tbl_name` column of each schema cell, in storage order.
pub open spec fn spec_names_at(pg: Seq<u8>, offs: Seq<int>) -> Result<Seq<Seq<u8>>, Error>
    decreases offs.len(),
{
    if offs.len() == 0 {
        Ok(Seq::empty())
    } else {
        match spec_column_bytes(pg, offs[0], 2) {
            Err(e) => Err(e),
            Ok(name) => match spec_names_at(pg, offs.drop_first()) {
                Err(e) => Err(e),
                Ok(rest) => Ok(seq![name] + rest),
            },
        }
    }
}

/// What `.tables` lists: the `tbl_name` of every schema cell, in storage
/// order.
pub open spec fn spec_table_names(db: Seq<u8>) -> Result<Seq<Seq<u8>>, Error> {
    match spec_schema_cell_offsets(db) {
        Err(e) => Err(e),
        Ok(offs) => spec_names_at(page_seq(db, spec_page_size(db), 1), offs),
    }
}

/// Read the `tbl_name` of every schema row, in storage order.
pub fn read_table_names(db: &Vec<u8>) -> (r: Result<Vec<Vec<u8>>, Error>)
    ensures
        match r {
            Ok(v) => spec_table_names(db@) == Ok::<_, Error>(v.deep_view()),
            Err(e) => spec_table_names(db@) == Err::<Seq<Seq<u8>>, _>(e),
        },
{
    let (pg, psz, offs) = match read_schema_page(db) {
        Ok(x) => x,
        Err(e) => {
            return Err(e);
        },
    };
    let ghost offsi = offs@.map_values(|o: u16| o as int);
    let ghost full = spec_names_at(pg@, offsi);
    let mut out: Vec<Vec<u8>> = Vec::new();
    let mut i: usize = 0;
    proof {
        assert(offsi.skip(0) =~= offsi);
        if full is Ok {
            let rest = full->Ok_0;
            assert(out.deep_view() + rest =~~= rest);
        }
    }
    while i < offs.len()
        invariant
            0 <= i <= offs.len(),
            offsi == offs@.map_values(|o: u16| o as int),
            spec_table_names(db@) == spec_names_at(pg@, offsi),
            full == spec_names_at(pg@, offsi),
            full == (match spec_names_at(pg@, offsi.skip(i as int)) {
                Ok(rest) => Ok::<_, Error>(out.deep_view() + rest),
                Err(e) => Err(e),
            }),
        decreases offs.len() - i,
    {
        proof {
            assert(offsi.skip(i as int)[0] == offsi[i as int]);
            assert(offsi.skip(i as int).drop_first() =~= offsi.skip(i + 1));
        }
        let name = match extract_tbl_name_from_cell(&pg, offs[i] as usize) {
            Ok(n) => n,
            Err(e) => {
                return Err(e);
            },
        };
        let ghost oldd = out.deep_view();
        let ghost nn = name@;
        out.push(name);
        proof {
            assert(out.deep_view() =~~= oldd.push(nn));
            if spec_names_at(pg@, offsi.skip(i + 1)) is Ok {
                let rest = spec_names_at(pg@, offsi.skip(i + 1))->Ok_0;
                assert(oldd + (seq![nn] + rest) =~~= oldd.push(nn) + rest);
            }
        }
        i = i + 1;
    }
    proof {
        assert(offsi.skip(offsi.len() as int) =~= Seq::<int>::empty());
        assert(out.deep_view() + Seq::<Seq<u8>>::empty() =~~= out.deep_view());
    }
    Ok(out)
}

/// The view of a run of decoded schema rows.
pub open spec fn rows_view(rows: Seq<SchemaRow>) -> Seq<SpecSchemaRow> {
    rows.map_values(|r: SchemaRow| r@)
}

/// The decoded schema rows at the given cell offsets, in storage order.
pub open spec fn spec_rows_at(pg: Seq<u8>, offs: Seq<int>) -> Result<Seq<SpecSchemaRow>, Error>
    decreases offs.len(),
{
    if offs.len() == 0 {
        Ok(Seq::empty())
    } else {
        match spec_schema_row(pg, offs[0]) {
            Err(e) => Err(e),
            Ok(row) => match spec_rows_at(pg, offs.drop_first()) {
                Err(e) => Err(e),
                Ok(rest) => Ok(seq![row] + rest),
            },
        }
    }
}

/// Every schema row of the database, in storage order.
pub open spec fn spec_schema_rows(db: Seq<u8>) -> Result<Seq<SpecSchemaRow>, Error> {
    match spec_schema_cell_offsets(db) {
        Err(e) => Err(e),
        Ok(offs) => spec_rows_at(page_seq(db, spec_page_size(db), 1), offs),
    }
}

/// Decode every schema row, in storage order.
pub fn read_schema_rows(db: &Vec<u8>) -> (r: Result<Vec<SchemaRow>, Error>)
    ensures
        match r {
            Ok(v) => spec_schema_rows(db@) == Ok::<_, Error>(rows_view(v@)),
            Err(e) => spec_schema_rows(db@) == Err::<Seq<SpecSchemaRow>, _>(e),
        },
{
    let (pg, psz, offs) = match read_schema_page(db) {
        Ok(x) => x,
        Err(e) => {
            return Err(e);
        },
    };
    let ghost offsi = offs@.map_values(|o: u16| o as int);
    let ghost full = spec_rows_at(pg@, offsi);
    let mut out: Vec<SchemaRow> = Vec::new();
    let mut i: usize = 0;
    proof {
        assert(offsi.skip(0) =~= offsi);
        if full is Ok {
            let rest = full->Ok_0;
            assert(rows_view(out@) + rest =~= rest);
        }
    }
    while i < offs.len()
        invariant
            0 <= i <= offs.len(),
            offsi == offs@.map_values(|o: u16| o as int),
            spec_schema_rows(db@) == spec_rows_at(pg@, offsi),
            full == spec_rows_at(pg@, offsi),
            full == (match spec_rows_at(pg@, offsi.skip(i as int)) {
                Ok(rest) => Ok::<_, Error>(rows_view(out@) + rest),
                Err(e) => Err(e),
            }),
        decreases offs.len() - i,
    {
        proof {
            assert(offsi.skip(i as int)[0] == offsi[i as int]);
            assert(offsi.skip(i as int).drop_first() =~= offsi.skip(i + 1));
        }
        let row = match extract_schema_row_from_cell(&pg, offs[i] as usize) {
            Ok(x) => x,
            Err(e) => {
                return Err(e);
            },
        };
        let ghost oldv = rows_view(out@);
        let ghost rr = row@;
        out.push(row);
        proof {
            assert(rows_view(out@) =~= oldv.push(rr));
            if spec_rows_at(pg@, offsi.skip(i + 1)) is Ok {
                let rest = spec_rows_at(pg@, offsi.skip(i + 1))->Ok_0;
                assert(oldv + (seq![rr] + rest) =~= oldv.push(rr) + rest);
            }
        }
        i = i + 1;
    }
    proof {
        assert(offsi.skip(offsi.len() as int) =~= Seq::<int>::empty());
        assert(rows_view(out@) + Seq::<SpecSchemaRow>::empty() =~= rows_view(out@));
    }
    Ok(out)
}

/// The first schema row whose `tbl_name` equals `name`.
pub open spec fn spec_find_table(rows: Seq<SpecSchemaRow>, name: Seq<u8>) -> Option<SpecSchemaRow>
    decreases rows.len(),
{
    if rows.len() == 0 {
        None
    } else if rows[0].tbl_name == name {
        Some(rows[0])
    } else {
        spec_find_table(rows.drop_first(), name)
    }
}

/// Find the position of the first schema row whose `tbl_name` equals
/// `name`.
pub fn find_table(rows: &Vec<SchemaRow>, name: &Vec<u8>) -> (r: Option<usize>)
    ensures
        match r {
            Some(i) => i < rows.len() && spec_find_table(rows_view(rows@), name@) == Some(
                rows@[i as int]@,
            ),
            None => spec_find_table(rows_view(rows@), name@) is None,
        },
{
    let ghost rv = rows_view(rows@);
    let mut i: usize = 0;
    proof {
        assert(rv.skip(0) =~= rv);
    }
    while i < rows.len()
        invariant
            0 <= i <= rows.len(),
            rv == rows_view(rows@),
            spec_find_table(rv, name@) == spec_find_table(rv.skip(i as int), name@),
        decreases rows.len() - i,
    {
        proof {
            assert(rv.skip(i as int)[0] == rv[i as int]);
            assert(rv.skip(i as int).drop_first() =~= rv.skip(i + 1));
        }
        if crate::bytes::bytes_eq(&rows[i].tbl_name, name) {
            return Some(i);
        }
        i = i + 1;
    }
    proof {
        assert(rv.skip(rv.len() as int) =~= Seq::<SpecSchemaRow>::empty());
    }
    None
}

} // verus!
