//! The query execution layer: look a table up in the schema, resolve its
//! columns against the stored DDL, and drive the B-tree walkers.

use vstd::prelude::*;

use crate::bytes::{ascii_lower, bytes_eq, contains_sub, read_be16, spec_lower};
use crate::ddl::{get_column_index_from_sql, spec_get_column_index};
use crate::error::Error;
use crate::record::{SchemaRow, SpecSchemaRow};
use crate::schema::{
    find_table, read_schema_rows, rows_view, spec_find_table, spec_page_size, spec_schema_rows,
};
use crate::visitors::{
    scan_index_btree_for_value, scan_table_btree_all_columns, scan_table_btree_column,
    scan_table_btree_count, scan_table_btree_for_rowid, scan_table_btree_where, spec_scan_all_columns,
    spec_scan_column, spec_scan_count, spec_scan_for_rowid, spec_scan_index_value, spec_scan_where,
};

verus! {

/// The page size taken from the header of an image whose schema was read
/// successfully lies between 108 and 65535.
pub proof fn lemma_schema_psz(db: Seq<u8>)
    requires
        spec_schema_rows(db) is Ok,
    ensures
        108 <= spec_page_size(db) <= 65535,
        db.len() >= 108,
{
}

/// Read the page size from the file header.
pub fn read_page_size(db: &Vec<u8>) -> (r: usize)
    requires
        db@.len() >= 100,
    ensures
        r == spec_page_size(db@),
        r <= 65535,
{
    read_be16(db, 16) as usize
}

/// `COUNT(*)` against a named table: the number of leaf cells under the
/// root page of the first schema row carrying the table's name, or
/// `TableNotFound`.
pub open spec fn spec_count_rows(db: Seq<u8>, name: Seq<u8>) -> Result<int, Error> {
    match spec_schema_rows(db) {
        Err(e) => Err(e),
        Ok(rows) => match spec_find_table(rows, name) {
            None => Err(Error::TableNotFound),
            Some(row) => spec_scan_count(db, spec_page_size(db), row.rootpage),
        },
    }
}

/// Count the rows of the named table.
pub fn count_rows_in_table(db: &Vec<u8>, table_name: &Vec<u8>) -> (r: Result<usize, Error>)
    ensures
        match r {
            Ok(n) => spec_count_rows(db@, table_name@) == Ok::<int, Error>(n as int),
            Err(e) => spec_count_rows(db@, table_name@) == Err::<int, _>(e),
        },
{
    let rows = match read_schema_rows(db) {
        Ok(x) => x,
        Err(e) => {
            return Err(e);
        },
    };
    let ti = match find_table(&rows, table_name) {
        Some(i) => i,
        None => {
            return Err(Error::TableNotFound);
        },
    };
    proof {
        lemma_schema_psz(db@);
    }
    let psz = read_page_size(db);
    scan_table_btree_count(db, psz, rows[ti].rootpage)
}

/// A single-column SELECT: resolve the column in the DDL of the first
/// schema row carrying the table's name, then project it over a full scan.
pub open spec fn spec_select_column(db: Seq<u8>, name: Seq<u8>, col: Seq<u8>) -> Result<
    Seq<Seq<u8>>,
    Error,
> {
    match spec_schema_rows(db) {
        Err(e) => Err(e),
        Ok(rows) => match spec_find_table(rows, name) {
            None => Err(Error::TableNotFound),
            Some(row) => match spec_get_column_index(row.sql, col) {
                Err(e) => Err(e),
                Ok(ci) => spec_scan_column(db, spec_page_size(db), row.rootpage, ci),
            },
        },
    }
}

/// Project one named column of the named table, in rowid order, skipping
/// SQL NULL values.
pub fn select_column_from_table(db: &Vec<u8>, table_name: &Vec<u8>, column_name: &Vec<u8>) -> (r:
    Result<Vec<Vec<u8>>, Error>)
    ensures
        match r {
            Ok(v) => spec_select_column(db@, table_name@, column_name@) == Ok::<_, Error>(
                v.deep_view(),
            ),
            Err(e) => spec_select_column(db@, table_name@, column_name@) == Err::<Seq<Seq<u8>>, _>(
                e,
            ),
        },
{
    let rows = match read_schema_rows(db) {
        Ok(x) => x,
        Err(e) => {
            return Err(e);
        },
    };
    let ti = match find_table(&rows, table_name) {
        Some(i) => i,
        None => {
            return Err(Error::TableNotFound);
        },
    };
    let ci = match get_column_index_from_sql(&rows[ti].sql, column_name) {
        Ok(i) => i,
        Err(e) => {
            return Err(e);
        },
    };
    proof {
        lemma_schema_psz(db@);
    }
    let psz = read_page_size(db);
    scan_table_btree_column(db, psz, rows[ti].rootpage, ci)
}

/// The positions of several named columns in a stored `CREATE TABLE`
/// text, in the order asked for.
pub open spec fn spec_resolve_cols(sql: Seq<u8>, cols: Seq<Seq<u8>>) -> Result<Seq<usize>, Error>
    decreases cols.len(),
{
    if cols.len() == 0 {
        Ok(Seq::empty())
    } else {
        match spec_get_column_index(sql, cols[0]) {
            Err(e) => Err(e),
            Ok(i) => match spec_resolve_cols(sql, cols.drop_first()) {
                Err(e) => Err(e),
                Ok(rest) => Ok(seq![i as usize] + rest),
            },
        }
    }
}

/// Resolve each named column to its position in the DDL.
pub fn resolve_cols(sql: &Vec<u8>, cols: &Vec<Vec<u8>>) -> (r: Result<Vec<usize>, Error>)
    ensures
        match r {
            Ok(v) => spec_resolve_cols(sql@, cols.deep_view()) == Ok::<_, Error>(v@),
            Err(e) => spec_resolve_cols(sql@, cols.deep_view()) == Err::<Seq<usize>, _>(e),
        },
{
    let ghost cv = cols.deep_view();
    let ghost full = spec_resolve_cols(sql@, cv);
    let mut out: Vec<usize> = Vec::new();
    let mut i: usize = 0;
    proof {
        assert(cv.skip(0) =~= cv);
        if full is Ok {
            let rest = full->Ok_0;
            assert(out@ + rest =~= rest);
        }
    }
    while i < cols.len()
        invariant
            0 <= i <= cols.len(),
            cv == cols.deep_view(),
            cv.len() == cols.len(),
            full == spec_resolve_cols(sql@, cv),
            full == (match spec_resolve_cols(sql@, cv.skip(i as int)) {
                Ok(rest) => Ok::<_, Error>(out@ + rest),
                Err(e) => Err(e),
            }),
        decreases cols.len() - i,
    {
        proof {
            assert(cv.skip(i as int)[0] == cv[i as int]);
            assert(cv.skip(i as int).drop_first() =~= cv.skip(i + 1));
            assert(cv[i as int] == cols@[i as int].deep_view());
            assert(cols@[i as int].deep_view() =~= cols@[i as int]@);
        }
        let ci = match get_column_index_from_sql(sql, &cols[i]) {
            Ok(x) => x,
            Err(e) => {
                return Err(e);
            },
        };
        let ghost oldo = out@;
        out.push(ci);
        proof {
            if spec_resolve_cols(sql@, cv.skip(i + 1)) is Ok {
                let rest = spec_resolve_cols(sql@, cv.skip(i + 1))->Ok_0;
                assert(oldo + (seq![ci] + rest) =~= oldo.push(ci) + rest);
            }
        }
        i = i + 1;
    }
    proof {
        assert(cv.skip(cv.len() as int) =~= Seq::<Seq<u8>>::empty());
        assert(out@ + Seq::<usize>::empty() =~= out@);
    }
    Ok(out)
}

/// A multi-column SELECT without a WHERE clause: resolve the columns, then
/// project every row of a full scan.
pub open spec fn spec_select_columns(db: Seq<u8>, name: Seq<u8>, cols: Seq<Seq<u8>>) -> Result<
    Seq<Seq<Seq<u8>>>,
    Error,
> {
    match spec_schema_rows(db) {
        Err(e) => Err(e),
        Ok(rows) => match spec_find_table(rows, name) {
            None => Err(Error::TableNotFound),
            Some(row) => match spec_resolve_cols(row.sql, cols) {
                Err(e) => Err(e),
                Ok(idxs) => spec_scan_all_columns(db, spec_page_size(db), row.rootpage, idxs),
            },
        },
    }
}

/// Project the named columns of every row of the named table, in rowid
/// order.
pub fn select_columns_from_table(db: &Vec<u8>, table_name: &Vec<u8>, columns: &Vec<Vec<u8>>) -> (r:
    Result<Vec<Vec<Vec<u8>>>, Error>)
    ensures
        match r {
            Ok(v) => spec_select_columns(db@, table_name@, columns.deep_view()) == Ok::<_, Error>(
                v.deep_view(),
            ),
            Err(e) => spec_select_columns(db@, table_name@, columns.deep_view()) == Err::<
                Seq<Seq<Seq<u8>>>,
                _,
            >(e),
        },
{
    let rows = match read_schema_rows(db) {
        Ok(x) => x,
        Err(e) => {
            return Err(e);
        },
    };
    let ti = match find_table(&rows, table_name) {
        Some(i) => i,
        None => {
            return Err(Error::TableNotFound);
        },
    };
    let idxs = match resolve_cols(&rows[ti].sql, columns) {
        Ok(x) => x,
        Err(e) => {
            return Err(e);
        },
    };
    proof {
        lemma_schema_psz(db@);
    }
    let psz = read_page_size(db);
    scan_table_btree_all_columns(db, psz, rows[ti].rootpage, &idxs)
}

/// The lowercase text `create table`.
pub open spec fn kw_create_table() -> Seq<u8> {
    seq![
        0x63u8,
        0x72u8,
        0x65u8,
        0x61u8,
        0x74u8,
        0x65u8,
        0x20u8,
        0x74u8,
        0x61u8,
        0x62u8,
        0x6cu8,
        0x65u8,
    ]
}

/// The lowercase text `create index`.
pub open spec fn kw_create_index() -> Seq<u8> {
    seq![
        0x63u8,
        0x72u8,
        0x65u8,
        0x61u8,
        0x74u8,
        0x65u8,
        0x20u8,
        0x69u8,
        0x6eu8,
        0x64u8,
        0x65u8,
        0x78u8,
    ]
}

/// Build the text `create table`.
pub fn lit_create_table() -> (r: Vec<u8>)
    ensures
        r@ == kw_create_table(),
{
    let mut v: Vec<u8> = Vec::new();
    v.push(0x63);
    v.push(0x72);
    v.push(0x65);
    v.push(0x61);
    v.push(0x74);
    v.push(0x65);
    v.push(0x20);
    v.push(0x74);
    v.push(0x61);
    v.push(0x62);
    v.push(0x6c);
    v.push(0x65);
    proof {
        assert(v@ =~= kw_create_table());
    }
    v
}

/// Build the text `create index`.
pub fn lit_create_index() -> (r: Vec<u8>)
    ensures
        r@ == kw_create_index(),
{
    let mut v: Vec<u8> = Vec::new();
    v.push(0x63);
    v.push(0x72);
    v.push(0x65);
    v.push(0x61);
    v.push(0x74);
    v.push(0x65);
    v.push(0x20);
    v.push(0x69);
    v.push(0x6e);
    v.push(0x64);
    v.push(0x65);
    v.push(0x78);
    proof {
        assert(v@ =~= kw_create_index());
    }
    v
}

/// The single pass over the schema that a filtered SELECT makes: keep the
/// first row for the table whose lowercased `sql` holds `create table`,
/// and the first whose lowercased `sql` holds `create index` together with
/// the lowercased WHERE column name.
pub open spec fn spec_where_search(
    rows: Seq<SpecSchemaRow>,
    name: Seq<u8>,
    wcol: Seq<u8>,
    tr: Option<SpecSchemaRow>,
    ir: Option<SpecSchemaRow>,
) -> (Option<SpecSchemaRow>, Option<SpecSchemaRow>)
    decreases rows.len(),
{
    if rows.len() == 0 {
        (tr, ir)
    } else {
        let row = rows[0];
        let rest = rows.drop_first();
        if row.tbl_name == name {
            let sl = spec_lower(row.sql);
            if contains_sub(sl, kw_create_table()) && tr is None {
                spec_where_search(rest, name, wcol, Some(row), ir)
            } else if contains_sub(sl, kw_create_index()) && contains_sub(sl, spec_lower(wcol))
                && ir is None {
                spec_where_search(rest, name, wcol, tr, Some(row))
            } else {
                spec_where_search(rest, name, wcol, tr, ir)
            }
        } else {
            spec_where_search(rest, name, wcol, tr, ir)
        }
    }
}

/// The schema row an option of a row position stands for.
pub open spec fn opt_row(rv: Seq<SpecSchemaRow>, o: Option<usize>) -> Option<SpecSchemaRow> {
    match o {
        Some(i) => {
            if i < rv.len() {
                Some(rv[i as int])
            } else {
                None
            }
        },
        None => None,
    }
}

/// Make the schema pass of a filtered SELECT: the positions of the table
/// row and of the usable index row, if present.
pub fn find_where_rows(rows: &Vec<SchemaRow>, name: &Vec<u8>, wcol: &Vec<u8>) -> (r: (
    Option<usize>,
    Option<usize>,
))
    ensures
        ({
            let rv = rows_view(rows@);
            let (tr, ir) = spec_where_search(rv, name@, wcol@, None, None);
            &&& (match r.0 {
                Some(i) => i < rows.len() && tr == Some(rv[i as int]),
                None => tr is None,
            })
            &&& (match r.1 {
                Some(i) => i < rows.len() && ir == Some(rv[i as int]),
                None => ir is None,
            })
        }),
{
    let ghost rv = rows_view(rows@);
    let mut trow: Option<usize> = None;
    let mut irow: Option<usize> = None;
    let mut i: usize = 0;
    let ct = lit_create_table();
    let ci = lit_create_index();
    let wlow = ascii_lower(wcol);
    proof {
        assert(rv.skip(0) =~= rv);
    }
    while i < rows.len()
        invariant
            0 <= i <= rows.len(),
            rv == rows_view(rows@),
            rv.len() == rows.len(),
            ct@ == kw_create_table(),
            ci@ == kw_create_index(),
            wlow@ == spec_lower(wcol@),
            (match trow {
                Some(t) => t < i,
                None => true,
            }),
            (match irow {
                Some(t) => t < i,
                None => true,
            }),
            spec_where_search(rv, name@, wcol@, None, None) == spec_where_search(
                rv.skip(i as int),
                name@,
                wcol@,
                opt_row(rv, trow),
                opt_row(rv, irow),
            ),
        decreases rows.len() - i,
    {
        proof {
            assert(rv.skip(i as int)[0] == rv[i as int]);
            assert(rv.skip(i as int).drop_first() =~= rv.skip(i + 1));
            assert(rv[i as int] == rows@[i as int]@);
        }
        if bytes_eq(&rows[i].tbl_name, name) {
            let low_sql = ascii_lower(&rows[i].sql);
            let has_ct = crate::bytes::find_sub(&low_sql, &ct);
            if has_ct && trow.is_none() {
                trow = Some(i);
            } else {
                let has_ci = crate::bytes::find_sub(&low_sql, &ci);
                let has_w = crate::bytes::find_sub(&low_sql, &wlow);
                if has_ci && has_w && irow.is_none() {
                    irow = Some(i);
                }
            }
        }
        i = i + 1;
    }
    proof {
        assert(rv.skip(rv.len() as int) =~= Seq::<SpecSchemaRow>::empty());
    }
    (trow, irow)
}

/// The rows reached by pointed lookups for a run of rowids, in the order
/// the rowids come; absent rowids contribute nothing.
pub open spec fn spec_rows_by_ids(
    db: Seq<u8>,
    psz: int,
    root: u32,
    rowids: Seq<u64>,
    idxs: Seq<usize>,
) -> Result<Seq<Seq<Seq<u8>>>, Error>
    decreases rowids.len(),
{
    if rowids.len() == 0 {
        Ok(Seq::empty())
    } else {
        match spec_scan_for_rowid(db, psz, root, rowids[0], idxs) {
            Err(e) => Err(e),
            Ok(None) => spec_rows_by_ids(db, psz, root, rowids.drop_first(), idxs),
            Ok(Some(row)) => match spec_rows_by_ids(db, psz, root, rowids.drop_first(), idxs) {
                Err(e) => Err(e),
                Ok(rest) => Ok(seq![row] + rest),
            },
        }
    }
}

/// Look every rowid of a run up in the table B-tree and project each row
/// found.
pub fn rows_by_ids(
    db: &Vec<u8>,
    page_size: usize,
    root: u32,
    rowids: &Vec<u64>,
    idxs: &Vec<usize>,
) -> (r: Result<Vec<Vec<Vec<u8>>>, Error>)
    requires
        1 <= page_size <= 65536,
    ensures
        match r {
            Ok(v) => spec_rows_by_ids(db@, page_size as int, root, rowids@, idxs@) == Ok::<
                _,
                Error,
            >(v.deep_view()),
            Err(e) => spec_rows_by_ids(db@, page_size as int, root, rowids@, idxs@) == Err::<
                Seq<Seq<Seq<u8>>>,
                _,
            >(e),
        },
{
    let ghost psz = page_size as int;
    let ghost full = spec_rows_by_ids(db@, psz, root, rowids@, idxs@);
    let mut out: Vec<Vec<Vec<u8>>> = Vec::new();
    let mut i: usize = 0;
    proof {
        assert(rowids@.skip(0) =~= rowids@);
        if full is Ok {
            let rest = full->Ok_0;
            assert(out.deep_view() + rest =~~= rest);
        }
    }
    while i < rowids.len()
        invariant
            0 <= i <= rowids.len(),
            1 <= page_size <= 65536,
            psz == page_size as int,
            full == spec_rows_by_ids(db@, psz, root, rowids@, idxs@),
            full == (match spec_rows_by_ids(db@, psz, root, rowids@.skip(i as int), idxs@) {
                Ok(rest) => Ok::<_, Error>(out.deep_view() + rest),
                Err(e) => Err(e),
            }),
        decreases rowids.len() - i,
    {
        proof {
            assert(rowids@.skip(i as int)[0] == rowids@[i as int]);
            assert(rowids@.skip(i as int).drop_first() =~= rowids@.skip(i + 1));
        }
        match scan_table_btree_for_rowid(db, page_size, root, rowids[i], idxs) {
            Err(e) => {
                return Err(e);
            },
            Ok(None) => {},
            Ok(Some(row)) => {
                let ghost oldd = out.deep_view();
                let ghost rr = row.deep_view();
                out.push(row);
                proof {
                    assert(out.deep_view() =~~= oldd.push(rr));
                    if spec_rows_by_ids(db@, psz, root, rowids@.skip(i + 1), idxs@) is Ok {
                        let rest = spec_rows_by_ids(db@, psz, root, rowids@.skip(i + 1), idxs@)
                            ->Ok_0;
                        assert(oldd + (seq![rr] + rest) =~~= oldd.push(rr) + rest);
                    }
                }
            },
        }
        i = i + 1;
    }
    proof {
        assert(rowids@.skip(rowids@.len() as int) =~= Seq::<u64>::empty());
        assert(out.deep_view() + Seq::<Seq<Seq<u8>>>::empty() =~~= out.deep_view());
    }
    Ok(out)
}

/// A filtered SELECT: after the schema pass, either collect candidate
/// rowids from the index B-tree and look each up, or run the
/// filter-projector over a full scan.
pub open spec fn spec_select_where(
    db: Seq<u8>,
    name: Seq<u8>,
    cols: Seq<Seq<u8>>,
    wcol: Seq<u8>,
    wval: Seq<u8>,
) -> Result<Seq<Seq<Seq<u8>>>, Error> {
    match spec_schema_rows(db) {
        Err(e) => Err(e),
        Ok(rows) => {
            let (tr, ir) = spec_where_search(rows, name, wcol, None, None);
            match tr {
                None => Err(Error::TableNotFound),
                Some(trow) => match spec_resolve_cols(trow.sql, cols) {
                    Err(e) => Err(e),
                    Ok(idxs) => match spec_get_column_index(trow.sql, wcol) {
                        Err(e) => Err(e),
                        Ok(wi) => {
                            let psz = spec_page_size(db);
                            match ir {
                                Some(irow) => match spec_scan_index_value(
                                    db,
                                    psz,
                                    irow.rootpage,
                                    wval,
                                ) {
                                    Err(e) => Err(e),
                                    Ok(rowids) => spec_rows_by_ids(
                                        db,
                                        psz,
                                        trow.rootpage,
                                        rowids,
                                        idxs,
                                    ),
                                },
                                None => spec_scan_where(
                                    db,
                                    psz,
                                    trow.rootpage,
                                    idxs,
                                    wi,
                                    wval,
                                ),
                            }
                        },
                    },
                },
            }
        },
    }
}

/// Project the named columns of the rows of the named table whose column
/// `where_col` equals `where_val`, through the index B-tree when the
/// schema holds a usable index, by a filtered full scan otherwise.
pub fn select_columns_from_table_where(
    db: &Vec<u8>,
    table_name: &Vec<u8>,
    columns: &Vec<Vec<u8>>,
    where_col: &Vec<u8>,
    where_val: &Vec<u8>,
) -> (r: Result<Vec<Vec<Vec<u8>>>, Error>)
    ensures
        match r {
            Ok(v) => spec_select_where(
                db@,
                table_name@,
                columns.deep_view(),
                where_col@,
                where_val@,
            ) == Ok::<_, Error>(v.deep_view()),
            Err(e) => spec_select_where(
                db@,
                table_name@,
                columns.deep_view(),
                where_col@,
                where_val@,
            ) == Err::<Seq<Seq<Seq<u8>>>, _>(e),
        },
{
    let rows = match read_schema_rows(db) {
        Ok(x) => x,
        Err(e) => {
            return Err(e);
        },
    };
    let (trow, irow) = find_where_rows(&rows, table_name, where_col);
    let ti = match trow {
        Some(i) => i,
        None => {
            return Err(Error::TableNotFound);
        },
    };
    let idxs = match resolve_cols(&rows[ti].sql, columns) {
        Ok(x) => x,
        Err(e) => {
            return Err(e);
        },
    };
    let wi = match get_column_index_from_sql(&rows[ti].sql, where_col) {
        Ok(x) => x,
        Err(e) => {
            return Err(e);
        },
    };
    proof {
        lemma_schema_psz(db@);
        assert(rows_view(rows@)[ti as int] == rows@[ti as int]@);
    }
    let psz = read_page_size(db);
    match irow {
        Some(ii) => {
            proof {
                assert(rows_view(rows@)[ii as int] == rows@[ii as int]@);
            }
            let rowids = match scan_index_btree_for_value(
                db,
                psz,
                rows[ii].rootpage,
                where_val,
            ) {
                Ok(x) => x,
                Err(e) => {
                    return Err(e);
                },
            };
            rows_by_ids(db, psz, rows[ti].rootpage, &rowids, &idxs)
        },
        None => scan_table_btree_where(db, psz, rows[ti].rootpage, &idxs, wi, where_val),
    }
}

} // verus!
