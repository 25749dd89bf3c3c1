//! The canonical visitors over a B-tree walk: the counter, the projector,
//! the filter-projector, the pointed rowid lookup, and the index key match.

use vstd::prelude::*;

use crate::btree::{
    collect_index_cells, collect_table_cells, spec_index_cells, spec_table_cells,
};
use crate::bytes::bytes_eq;
use crate::error::Error;
use crate::page::{page_in_file, page_seq, read_page};
use crate::record::{
    extract_column_from_table_cell, extract_index_key_and_rowid_from_cell, spec_extract_column,
    spec_index_key_rowid,
};
use crate::varint::{lemma_varint_len, read_varint, varint_at};

verus! {

/// The error a page fetch reports for a page outside the image.
pub open spec fn page_error(p: u32) -> Error {
    if p < 1 {
        Error::CorruptPage
    } else {
        Error::ShortRead
    }
}

/// One column of one leaf cell, as the projector sees it.
pub open spec fn spec_cell_column(db: Seq<u8>, psz: int, cell: (u32, u16), col: int) -> Result<
    Option<Seq<u8>>,
    Error,
> {
    if !page_in_file(db, psz, cell.0) {
        Err(page_error(cell.0))
    } else {
        spec_extract_column(page_seq(db, psz, cell.0), cell.1 as int, col)
    }
}

/// Fetch the page of `cell` and extract one column from it.
pub fn cell_column(db: &Vec<u8>, page_size: usize, cell: (u32, u16), col: usize) -> (r: Result<
    Option<Vec<u8>>,
    Error,
>)
    requires
        1 <= page_size <= 65536,
    ensures
        match r {
            Ok(Some(b)) => spec_cell_column(db@, page_size as int, cell, col as int) == Ok::<
                _,
                Error,
            >(Some(b@)),
            Ok(None) => spec_cell_column(db@, page_size as int, cell, col as int) == Ok::<
                Option<Seq<u8>>,
                Error,
            >(None),
            Err(e) => spec_cell_column(db@, page_size as int, cell, col as int) == Err::<
                Option<Seq<u8>>,
                _,
            >(e),
        },
{
    let pg = match read_page(db, page_size, cell.0) {
        Ok(p) => p,
        Err(e) => {
            return Err(e);
        },
    };
    extract_column_from_table_cell(&pg, cell.1 as usize, col)
}

/// The rowid varint of one table-leaf cell.
pub open spec fn spec_cell_rowid(db: Seq<u8>, psz: int, cell: (u32, u16)) -> Result<u64, Error> {
    if !page_in_file(db, psz, cell.0) {
        Err(page_error(cell.0))
    } else {
        let pg = page_seq(db, psz, cell.0);
        match varint_at(pg, cell.1 as int) {
            None => Err(Error::Truncated),
            Some((payload, l1)) => match varint_at(pg, cell.1 + l1) {
                None => Err(Error::Truncated),
                Some((rid, l2)) => Ok(rid),
            },
        }
    }
}

/// Fetch the page of `cell` and read its rowid varint.
pub fn cell_rowid(db: &Vec<u8>, page_size: usize, cell: (u32, u16)) -> (r: Result<u64, Error>)
    requires
        1 <= page_size <= 65536,
    ensures
        match r {
            Ok(rid) => spec_cell_rowid(db@, page_size as int, cell) == Ok::<_, Error>(rid),
            Err(e) => spec_cell_rowid(db@, page_size as int, cell) == Err::<u64, _>(e),
        },
{
    let pg = match read_page(db, page_size, cell.0) {
        Ok(p) => p,
        Err(e) => {
            return Err(e);
        },
    };
    let off = cell.1 as usize;
    let (_payload, l1) = match read_varint(&pg, off) {
        Ok(x) => x,
        Err(e) => {
            return Err(e);
        },
    };
    proof {
        lemma_varint_len(pg@, off as int);
    }
    let (rid, _l2) = match read_varint(&pg, off + l1) {
        Ok(x) => x,
        Err(e) => {
            return Err(e);
        },
    };
    Ok(rid)
}

/// The key and trailing rowid of one index-leaf cell.
pub open spec fn spec_cell_index_entry(db: Seq<u8>, psz: int, cell: (u32, u16)) -> Result<
    (Seq<u8>, u64),
    Error,
> {
    if !page_in_file(db, psz, cell.0) {
        Err(page_error(cell.0))
    } else {
        spec_index_key_rowid(page_seq(db, psz, cell.0), cell.1 as int)
    }
}

/// Fetch the page of `cell` and extract its index key and rowid.
pub fn cell_index_entry(db: &Vec<u8>, page_size: usize, cell: (u32, u16)) -> (r: Result<
    (Vec<u8>, u64),
    Error,
>)
    requires
        1 <= page_size <= 65536,
    ensures
        match r {
            Ok((key, rid)) => spec_cell_index_entry(db@, page_size as int, cell) == Ok::<_, Error>(
                (key@, rid),
            ),
            Err(e) => spec_cell_index_entry(db@, page_size as int, cell) == Err::<(Seq<u8>, u64), _>(
                e,
            ),
        },
{
    let pg = match read_page(db, page_size, cell.0) {
        Ok(p) => p,
        Err(e) => {
            return Err(e);
        },
    };
    extract_index_key_and_rowid_from_cell(&pg, cell.1 as usize)
}

/// The value of an optional column, with SQL NULL collapsing to the empty
/// string, as the engine's row output does.
pub open spec fn opt_or_empty(o: Option<Seq<u8>>) -> Seq<u8> {
    match o {
        Some(b) => b,
        None => Seq::empty(),
    }
}

/// The Counter visitor: how many leaf cells the table B-tree under `root`
/// holds.
pub open spec fn spec_scan_count(db: Seq<u8>, psz: int, root: u32) -> Result<int, Error> {
    match spec_table_cells(db, psz, root) {
        Err(e) => Err(e),
        Ok(cells) => Ok(cells.len() as int),
    }
}

/// Count the rows of the table B-tree rooted at `page_no`.
pub fn scan_table_btree_count(db: &Vec<u8>, page_size: usize, page_no: u32) -> (r: Result<
    usize,
    Error,
>)
    requires
        1 <= page_size <= 65536,
    ensures
        match r {
            Ok(n) => spec_scan_count(db@, page_size as int, page_no) == Ok::<int, Error>(n as int),
            Err(e) => spec_scan_count(db@, page_size as int, page_no) == Err::<int, _>(e),
        },
{
    match collect_table_cells(db, page_size, page_no) {
        Ok(cells) => Ok(cells.len()),
        Err(e) => Err(e),
    }
}

/// The single-column Projector over a run of cells: the value of column
/// `col` of each cell whose value is present (SQL NULL rows are skipped).
pub open spec fn spec_project_column(
    db: Seq<u8>,
    psz: int,
    cells: Seq<(u32, u16)>,
    col: int,
) -> Result<Seq<Seq<u8>>, Error>
    decreases cells.len(),
{
    if cells.len() == 0 {
        Ok(Seq::empty())
    } else {
        match spec_cell_column(db, psz, cells[0], col) {
            Err(e) => Err(e),
            Ok(opt) => match spec_project_column(db, psz, cells.drop_first(), col) {
                Err(e) => Err(e),
                Ok(rest) => match opt {
                    Some(b) => Ok(seq![b] + rest),
                    None => Ok(rest),
                },
            },
        }
    }
}

/// The single-column Projector over the table B-tree under `root`.
pub open spec fn spec_scan_column(db: Seq<u8>, psz: int, root: u32, col: int) -> Result<
    Seq<Seq<u8>>,
    Error,
> {
    match spec_table_cells(db, psz, root) {
        Err(e) => Err(e),
        Ok(cells) => spec_project_column(db, psz, cells, col),
    }
}

/// Project column `col_index` of every row of the table B-tree rooted at
/// `page_no`, in traversal (rowid) order, skipping SQL NULL values.
pub fn scan_table_btree_column(db: &Vec<u8>, page_size: usize, page_no: u32, col_index: usize) -> (r:
    Result<Vec<Vec<u8>>, Error>)
    requires
        1 <= page_size <= 65536,
    ensures
        match r {
            Ok(v) => spec_scan_column(db@, page_size as int, page_no, col_index as int) == Ok::<
                _,
                Error,
            >(v.deep_view()),
            Err(e) => spec_scan_column(db@, page_size as int, page_no, col_index as int) == Err::<
                Seq<Seq<u8>>,
                _,
            >(e),
        },
{
    let ghost psz = page_size as int;
    let cells = match collect_table_cells(db, page_size, page_no) {
        Ok(c) => c,
        Err(e) => {
            return Err(e);
        },
    };
    let ghost full = spec_project_column(db@, psz, cells@, col_index as int);
    let mut out: Vec<Vec<u8>> = Vec::new();
    let mut i: usize = 0;
    proof {
        assert(cells@.skip(0) =~= cells@);
        assert(out.deep_view() =~~= Seq::<Seq<u8>>::empty());
        if spec_project_column(db@, psz, cells@, col_index as int) is Ok {
            let rest = spec_project_column(db@, psz, cells@, col_index as int)->Ok_0;
            assert(out.deep_view() + rest =~~= rest);
        }
    }
    while i < cells.len()
        invariant
            0 <= i <= cells.len(),
            1 <= page_size <= 65536,
            psz == page_size as int,
            spec_table_cells(db@, psz, page_no) == Ok::<_, Error>(cells@),
            full == spec_project_column(db@, psz, cells@, col_index as int),
            full == (match spec_project_column(db@, psz, cells@.skip(i as int), col_index as int) {
                Ok(rest) => Ok::<_, Error>(out.deep_view() + rest),
                Err(e) => Err(e),
            }),
        decreases cells.len() - i,
    {
        proof {
            assert(cells@.skip(i as int)[0] == cells@[i as int]);
            assert(cells@.skip(i as int).drop_first() =~= cells@.skip(i + 1));
        }
        let cell = cells[i];
        match cell_column(db, page_size, cell, col_index) {
            Err(e) => {
                return Err(e);
            },
            Ok(None) => {},
            Ok(Some(b)) => {
                let ghost oldd = out.deep_view();
                let ghost bb = b@;
                out.push(b);
                proof {
                    assert(out.deep_view() =~~= oldd.push(bb));
                    if spec_project_column(db@, psz, cells@.skip(i + 1), col_index as int) is Ok {
                        let rest = spec_project_column(
                            db@,
                            psz,
                            cells@.skip(i + 1),
                            col_index as int,
                        )->Ok_0;
                        assert(oldd + (seq![bb] + rest) =~~= oldd.push(bb) + rest);
                    }
                }
            },
        }
        i = i + 1;
    }
    proof {
        assert(cells@.skip(cells@.len() as int) =~= Seq::<(u32, u16)>::empty());
        assert(out.deep_view() + Seq::<Seq<u8>>::empty() =~~= out.deep_view());
    }
    Ok(out)
}

/// The row the Projector emits for one cell: the chosen columns in order,
/// SQL NULL rendered as the empty string.
pub open spec fn spec_project_row(
    db: Seq<u8>,
    psz: int,
    cell: (u32, u16),
    indexes: Seq<usize>,
) -> Result<Seq<Seq<u8>>, Error>
    decreases indexes.len(),
{
    if indexes.len() == 0 {
        Ok(Seq::empty())
    } else {
        match spec_cell_column(db, psz, cell, indexes[0] as int) {
            Err(e) => Err(e),
            Ok(opt) => match spec_project_row(db, psz, cell, indexes.drop_first()) {
                Err(e) => Err(e),
                Ok(rest) => Ok(seq![opt_or_empty(opt)] + rest),
            },
        }
    }
}

/// Project the columns `indexes` out of one cell.
pub fn project_row(db: &Vec<u8>, page_size: usize, cell: (u32, u16), indexes: &Vec<usize>) -> (r:
    Result<Vec<Vec<u8>>, Error>)
    requires
        1 <= page_size <= 65536,
    ensures
        match r {
            Ok(v) => spec_project_row(db@, page_size as int, cell, indexes@) == Ok::<_, Error>(
                v.deep_view(),
            ),
            Err(e) => spec_project_row(db@, page_size as int, cell, indexes@) == Err::<
                Seq<Seq<u8>>,
                _,
            >(e),
        },
{
    let ghost psz = page_size as int;
    let ghost full = spec_project_row(db@, psz, cell, indexes@);
    let mut out: Vec<Vec<u8>> = Vec::new();
    let mut i: usize = 0;
    proof {
        assert(indexes@.skip(0) =~= indexes@);
        if spec_project_row(db@, psz, cell, indexes@) is Ok {
            let rest = spec_project_row(db@, psz, cell, indexes@)->Ok_0;
            assert(out.deep_view() + rest =~~= rest);
        }
    }
    while i < indexes.len()
        invariant
            0 <= i <= indexes.len(),
            1 <= page_size <= 65536,
            psz == page_size as int,
            full == spec_project_row(db@, psz, cell, indexes@),
            full == (match spec_project_row(db@, psz, cell, indexes@.skip(i as int)) {
                Ok(rest) => Ok::<_, Error>(out.deep_view() + rest),
                Err(e) => Err(e),
            }),
        decreases indexes.len() - i,
    {
        proof {
            assert(indexes@.skip(i as int)[0] == indexes@[i as int]);
            assert(indexes@.skip(i as int).drop_first() =~= indexes@.skip(i + 1));
        }
        let val = match cell_column(db, page_size, cell, indexes[i]) {
            Err(e) => {
                return Err(e);
            },
            Ok(Some(b)) => b,
            Ok(None) => Vec::new(),
        };
        let ghost oldd = out.deep_view();
        let ghost vv = val@;
        proof {
            assert(vv =~= opt_or_empty(
                spec_cell_column(db@, psz, cell, indexes@[i as int] as int)->Ok_0,
            ));
        }
        out.push(val);
        proof {
            assert(out.deep_view() =~~= oldd.push(vv));
            if spec_project_row(db@, psz, cell, indexes@.skip(i + 1)) is Ok {
                let rest = spec_project_row(db@, psz, cell, indexes@.skip(i + 1))->Ok_0;
                assert(oldd + (seq![vv] + rest) =~~= oldd.push(vv) + rest);
            }
        }
        i = i + 1;
    }
    proof {
        assert(indexes@.skip(indexes@.len() as int) =~= Seq::<usize>::empty());
        assert(out.deep_view() + Seq::<Seq<u8>>::empty() =~~= out.deep_view());
    }
    Ok(out)
}

/// The multi-column Projector over a run of cells: one row per cell.
pub open spec fn spec_project_rows(
    db: Seq<u8>,
    psz: int,
    cells: Seq<(u32, u16)>,
    indexes: Seq<usize>,
) -> Result<Seq<Seq<Seq<u8>>>, Error>
    decreases cells.len(),
{
    if cells.len() == 0 {
        Ok(Seq::empty())
    } else {
        match spec_project_row(db, psz, cells[0], indexes) {
            Err(e) => Err(e),
            Ok(row) => match spec_project_rows(db, psz, cells.drop_first(), indexes) {
                Err(e) => Err(e),
                Ok(rest) => Ok(seq![row] + rest),
            },
        }
    }
}

/// The multi-column Projector over the table B-tree under `root`.
pub open spec fn spec_scan_all_columns(
    db: Seq<u8>,
    psz: int,
    root: u32,
    indexes: Seq<usize>,
) -> Result<Seq<Seq<Seq<u8>>>, Error> {
    match spec_table_cells(db, psz, root) {
        Err(e) => Err(e),
        Ok(cells) => spec_project_rows(db, psz, cells, indexes),
    }
}

/// Project the columns `indexes` of every row of the table B-tree rooted at
/// `page_no`, one row per cell, in traversal (rowid) order.
pub fn scan_table_btree_all_columns(
    db: &Vec<u8>,
    page_size: usize,
    page_no: u32,
    indexes: &Vec<usize>,
) -> (r: Result<Vec<Vec<Vec<u8>>>, Error>)
    requires
        1 <= page_size <= 65536,
    ensures
        match r {
            Ok(v) => spec_scan_all_columns(db@, page_size as int, page_no, indexes@) == Ok::<
                _,
                Error,
            >(v.deep_view()),
            Err(e) => spec_scan_all_columns(db@, page_size as int, page_no, indexes@) == Err::<
                Seq<Seq<Seq<u8>>>,
                _,
            >(e),
        },
{
    let ghost psz = page_size as int;
    let cells = match collect_table_cells(db, page_size, page_no) {
        Ok(c) => c,
        Err(e) => {
            return Err(e);
        },
    };
    let ghost full = spec_project_rows(db@, psz, cells@, indexes@);
    let mut out: Vec<Vec<Vec<u8>>> = Vec::new();
    let mut i: usize = 0;
    proof {
        assert(cells@.skip(0) =~= cells@);
        if spec_project_rows(db@, psz, cells@, indexes@) is Ok {
            let rest = spec_project_rows(db@, psz, cells@, indexes@)->Ok_0;
            assert(out.deep_view() + rest =~~= rest);
        }
    }
    while i < cells.len()
        invariant
            0 <= i <= cells.len(),
            1 <= page_size <= 65536,
            psz == page_size as int,
            spec_table_cells(db@, psz, page_no) == Ok::<_, Error>(cells@),
            full == spec_project_rows(db@, psz, cells@, indexes@),
            full == (match spec_project_rows(db@, psz, cells@.skip(i as int), indexes@) {
                Ok(rest) => Ok::<_, Error>(out.deep_view() + rest),
                Err(e) => Err(e),
            }),
        decreases cells.len() - i,
    {
        proof {
            assert(cells@.skip(i as int)[0] == cells@[i as int]);
            assert(cells@.skip(i as int).drop_first() =~= cells@.skip(i + 1));
        }
        let cell = cells[i];
        let row = match project_row(db, page_size, cell, indexes) {
            Ok(rw) => rw,
            Err(e) => {
                return Err(e);
            },
        };
        let ghost oldd = out.deep_view();
        let ghost rr = row.deep_view();
        out.push(row);
        proof {
            assert(out.deep_view() =~~= oldd.push(rr));
            if spec_project_rows(db@, psz, cells@.skip(i + 1), indexes@) is Ok {
                let rest = spec_project_rows(db@, psz, cells@.skip(i + 1), indexes@)->Ok_0;
                assert(oldd + (seq![rr] + rest) =~~= oldd.push(rr) + rest);
            }
        }
        i = i + 1;
    }
    proof {
        assert(cells@.skip(cells@.len() as int) =~= Seq::<(u32, u16)>::empty());
        assert(out.deep_view() + Seq::<Seq<Seq<u8>>>::empty() =~~= out.deep_view());
    }
    Ok(out)
}

/// The Filter-projector over a run of cells: the rows whose column
/// `where_col` is present and equals `val`, projected through `indexes`.
pub open spec fn spec_filter_rows(
    db: Seq<u8>,
    psz: int,
    cells: Seq<(u32, u16)>,
    indexes: Seq<usize>,
    where_col: int,
    val: Seq<u8>,
) -> Result<Seq<Seq<Seq<u8>>>, Error>
    decreases cells.len(),
{
    if cells.len() == 0 {
        Ok(Seq::empty())
    } else {
        match spec_cell_column(db, psz, cells[0], where_col) {
            Err(e) => Err(e),
            Ok(None) => spec_filter_rows(db, psz, cells.drop_first(), indexes, where_col, val),
            Ok(Some(w)) => {
                if w != val {
                    spec_filter_rows(db, psz, cells.drop_first(), indexes, where_col, val)
                } else {
                    match spec_project_row(db, psz, cells[0], indexes) {
                        Err(e) => Err(e),
                        Ok(row) => match spec_filter_rows(
                            db,
                            psz,
                            cells.drop_first(),
                            indexes,
                            where_col,
                            val,
                        ) {
                            Err(e) => Err(e),
                            Ok(rest) => Ok(seq![row] + rest),
                        },
                    }
                }
            },
        }
    }
}

/// The Filter-projector over the table B-tree under `root`.
pub open spec fn spec_scan_where(
    db: Seq<u8>,
    psz: int,
    root: u32,
    indexes: Seq<usize>,
    where_col: int,
    val: Seq<u8>,
) -> Result<Seq<Seq<Seq<u8>>>, Error> {
    match spec_table_cells(db, psz, root) {
        Err(e) => Err(e),
        Ok(cells) => spec_filter_rows(db, psz, cells, indexes, where_col, val),
    }
}

/// Project the columns `indexes` of every row of the table B-tree rooted at
/// `page_no` whose column `where_index` equals `where_val`, in traversal
/// (rowid) order.
pub fn scan_table_btree_where(
    db: &Vec<u8>,
    page_size: usize,
    page_no: u32,
    indexes: &Vec<usize>,
    where_index: usize,
    where_val: &Vec<u8>,
) -> (r: Result<Vec<Vec<Vec<u8>>>, Error>)
    requires
        1 <= page_size <= 65536,
    ensures
        match r {
            Ok(v) => spec_scan_where(
                db@,
                page_size as int,
                page_no,
                indexes@,
                where_index as int,
                where_val@,
            ) == Ok::<_, Error>(v.deep_view()),
            Err(e) => spec_scan_where(
                db@,
                page_size as int,
                page_no,
                indexes@,
                where_index as int,
                where_val@,
            ) == Err::<Seq<Seq<Seq<u8>>>, _>(e),
        },
{
    let ghost psz = page_size as int;
    let cells = match collect_table_cells(db, page_size, page_no) {
        Ok(c) => c,
        Err(e) => {
            return Err(e);
        },
    };
    let ghost full = spec_filter_rows(
        db@,
        psz,
        cells@,
        indexes@,
        where_index as int,
        where_val@,
    );
    let mut out: Vec<Vec<Vec<u8>>> = Vec::new();
    let mut i: usize = 0;
    proof {
        assert(cells@.skip(0) =~= cells@);
        if full is Ok {
            let rest = full->Ok_0;
            assert(out.deep_view() + rest =~~= rest);
        }
    }
    while i < cells.len()
        invariant
            0 <= i <= cells.len(),
            1 <= page_size <= 65536,
            psz == page_size as int,
            spec_table_cells(db@, psz, page_no) == Ok::<_, Error>(cells@),
            full == spec_filter_rows(db@, psz, cells@, indexes@, where_index as int, where_val@),
            full == (match spec_filter_rows(
                db@,
                psz,
                cells@.skip(i as int),
                indexes@,
                where_index as int,
                where_val@,
            ) {
                Ok(rest) => Ok::<_, Error>(out.deep_view() + rest),
                Err(e) => Err(e),
            }),
        decreases cells.len() - i,
    {
        proof {
            assert(cells@.skip(i as int)[0] == cells@[i as int]);
            assert(cells@.skip(i as int).drop_first() =~= cells@.skip(i + 1));
        }
        let cell = cells[i];
        match cell_column(db, page_size, cell, where_index) {
            Err(e) => {
                return Err(e);
            },
            Ok(None) => {},
            Ok(Some(w)) => {
                if bytes_eq(&w, where_val) {
                    let row = match project_row(db, page_size, cell, indexes) {
                        Ok(rw) => rw,
                        Err(e) => {
                            return Err(e);
                        },
                    };
                    let ghost oldd = out.deep_view();
                    let ghost rr = row.deep_view();
                    out.push(row);
                    proof {
                        assert(out.deep_view() =~~= oldd.push(rr));
                        if spec_filter_rows(
                            db@,
                            psz,
                            cells@.skip(i + 1),
                            indexes@,
                            where_index as int,
                            where_val@,
                        ) is Ok {
                            let rest = spec_filter_rows(
                                db@,
                                psz,
                                cells@.skip(i + 1),
                                indexes@,
                                where_index as int,
                                where_val@,
                            )->Ok_0;
                            assert(oldd + (seq![rr] + rest) =~~= oldd.push(rr) + rest);
                        }
                    }
                }
            },
        }
        i = i + 1;
    }
    proof {
        assert(cells@.skip(cells@.len() as int) =~= Seq::<(u32, u16)>::empty());
        assert(out.deep_view() + Seq::<Seq<Seq<u8>>>::empty() =~~= out.deep_view());
    }
    Ok(out)
}

/// The pointed lookup over a run of cells: the projected row of the first
/// cell whose rowid equals `target`, or `None` when no cell matches.
pub open spec fn spec_find_rowid(
    db: Seq<u8>,
    psz: int,
    cells: Seq<(u32, u16)>,
    target: u64,
    indexes: Seq<usize>,
) -> Result<Option<Seq<Seq<u8>>>, Error>
    decreases cells.len(),
{
    if cells.len() == 0 {
        Ok(None)
    } else {
        match spec_cell_rowid(db, psz, cells[0]) {
            Err(e) => Err(e),
            Ok(rid) => {
                if rid == target {
                    match spec_project_row(db, psz, cells[0], indexes) {
                        Err(e) => Err(e),
                        Ok(row) => Ok(Some(row)),
                    }
                } else {
                    spec_find_rowid(db, psz, cells.drop_first(), target, indexes)
                }
            },
        }
    }
}

/// The pointed lookup over the table B-tree under `root`.
pub open spec fn spec_scan_for_rowid(
    db: Seq<u8>,
    psz: int,
    root: u32,
    target: u64,
    indexes: Seq<usize>,
) -> Result<Option<Seq<Seq<u8>>>, Error> {
    match spec_table_cells(db, psz, root) {
        Err(e) => Err(e),
        Ok(cells) => spec_find_rowid(db, psz, cells, target, indexes),
    }
}

/// Find the first row of the table B-tree rooted at `page_no` whose rowid
/// equals `target_rowid` and project the columns `indexes` out of it.
pub fn scan_table_btree_for_rowid(
    db: &Vec<u8>,
    page_size: usize,
    page_no: u32,
    target_rowid: u64,
    indexes: &Vec<usize>,
) -> (r: Result<Option<Vec<Vec<u8>>>, Error>)
    requires
        1 <= page_size <= 65536,
    ensures
        match r {
            Ok(Some(v)) => spec_scan_for_rowid(
                db@,
                page_size as int,
                page_no,
                target_rowid,
                indexes@,
            ) == Ok::<_, Error>(Some(v.deep_view())),
            Ok(None) => spec_scan_for_rowid(
                db@,
                page_size as int,
                page_no,
                target_rowid,
                indexes@,
            ) == Ok::<Option<Seq<Seq<u8>>>, Error>(None),
            Err(e) => spec_scan_for_rowid(
                db@,
                page_size as int,
                page_no,
                target_rowid,
                indexes@,
            ) == Err::<Option<Seq<Seq<u8>>>, _>(e),
        },
{
    let ghost psz = page_size as int;
    let cells = match collect_table_cells(db, page_size, page_no) {
        Ok(c) => c,
        Err(e) => {
            return Err(e);
        },
    };
    let ghost full = spec_find_rowid(db@, psz, cells@, target_rowid, indexes@);
    let mut i: usize = 0;
    proof {
        assert(cells@.skip(0) =~= cells@);
    }
    while i < cells.len()
        invariant
            0 <= i <= cells.len(),
            1 <= page_size <= 65536,
            psz == page_size as int,
            spec_table_cells(db@, psz, page_no) == Ok::<_, Error>(cells@),
            full == spec_find_rowid(db@, psz, cells@, target_rowid, indexes@),
            full == spec_find_rowid(db@, psz, cells@.skip(i as int), target_rowid, indexes@),
        decreases cells.len() - i,
    {
        proof {
            assert(cells@.skip(i as int)[0] == cells@[i as int]);
            assert(cells@.skip(i as int).drop_first() =~= cells@.skip(i + 1));
        }
        let cell = cells[i];
        let rid = match cell_rowid(db, page_size, cell) {
            Ok(x) => x,
            Err(e) => {
                return Err(e);
            },
        };
        if rid == target_rowid {
            let row = match project_row(db, page_size, cell, indexes) {
                Ok(rw) => rw,
                Err(e) => {
                    return Err(e);
                },
            };
            return Ok(Some(row));
        }
        i = i + 1;
    }
    proof {
        assert(cells@.skip(cells@.len() as int) =~= Seq::<(u32, u16)>::empty());
    }
    Ok(None)
}

/// The index key match over a run of index-leaf cells: the rowids of the
/// entries whose key equals `target`, in traversal order.
pub open spec fn spec_index_matches(
    db: Seq<u8>,
    psz: int,
    cells: Seq<(u32, u16)>,
    target: Seq<u8>,
) -> Result<Seq<u64>, Error>
    decreases cells.len(),
{
    if cells.len() == 0 {
        Ok(Seq::empty())
    } else {
        match spec_cell_index_entry(db, psz, cells[0]) {
            Err(e) => Err(e),
            Ok((key, rid)) => match spec_index_matches(db, psz, cells.drop_first(), target) {
                Err(e) => Err(e),
                Ok(rest) => {
                    if key == target {
                        Ok(seq![rid] + rest)
                    } else {
                        Ok(rest)
                    }
                },
            },
        }
    }
}

/// The index key match over the index B-tree under `root`.
pub open spec fn spec_scan_index_value(db: Seq<u8>, psz: int, root: u32, target: Seq<u8>) -> Result<
    Seq<u64>,
    Error,
> {
    match spec_index_cells(db, psz, root) {
        Err(e) => Err(e),
        Ok(cells) => spec_index_matches(db, psz, cells, target),
    }
}

/// Collect the rowids of every entry of the index B-tree rooted at
/// `page_no` whose key equals `target_val`, in traversal order.
pub fn scan_index_btree_for_value(
    db: &Vec<u8>,
    page_size: usize,
    page_no: u32,
    target_val: &Vec<u8>,
) -> (r: Result<Vec<u64>, Error>)
    requires
        1 <= page_size <= 65536,
    ensures
        match r {
            Ok(v) => spec_scan_index_value(db@, page_size as int, page_no, target_val@) == Ok::<
                _,
                Error,
            >(v@),
            Err(e) => spec_scan_index_value(db@, page_size as int, page_no, target_val@) == Err::<
                Seq<u64>,
                _,
            >(e),
        },
{
    let ghost psz = page_size as int;
    let cells = match collect_index_cells(db, page_size, page_no) {
        Ok(c) => c,
        Err(e) => {
            return Err(e);
        },
    };
    let ghost full = spec_index_matches(db@, psz, cells@, target_val@);
    let mut out: Vec<u64> = Vec::new();
    let mut i: usize = 0;
    proof {
        assert(cells@.skip(0) =~= cells@);
        if full is Ok {
            let rest = full->Ok_0;
            assert(out@ + rest =~= rest);
        }
    }
    while i < cells.len()
        invariant
            0 <= i <= cells.len(),
            1 <= page_size <= 65536,
            psz == page_size as int,
            spec_index_cells(db@, psz, page_no) == Ok::<_, Error>(cells@),
            full == spec_index_matches(db@, psz, cells@, target_val@),
            full == (match spec_index_matches(db@, psz, cells@.skip(i as int), target_val@) {
                Ok(rest) => Ok::<_, Error>(out@ + rest),
                Err(e) => Err(e),
            }),
        decreases cells.len() - i,
    {
        proof {
            assert(cells@.skip(i as int)[0] == cells@[i as int]);
            assert(cells@.skip(i as int).drop_first() =~= cells@.skip(i + 1));
        }
        let cell = cells[i];
        let (key, rid) = match cell_index_entry(db, page_size, cell) {
            Ok(x) => x,
            Err(e) => {
                return Err(e);
            },
        };
        if bytes_eq(&key, target_val) {
            let ghost oldo = out@;
            out.push(rid);
            proof {
                if spec_index_matches(db@, psz, cells@.skip(i + 1), target_val@) is Ok {
                    let rest = spec_index_matches(db@, psz, cells@.skip(i + 1), target_val@)->Ok_0;
                    assert(oldo + (seq![rid] + rest) =~= oldo.push(rid) + rest);
                    assert(out@ =~= oldo.push(rid));
                }
            }
        }
        i = i + 1;
    }
    proof {
        assert(cells@.skip(cells@.len() as int) =~= Seq::<(u32, u16)>::empty());
        assert(out@ + Seq::<u64>::empty() =~= out@);
    }
    Ok(out)
}

} // verus!
