//! Laws the engine obeys, stated over the same specification functions its
//! public contracts use and proved once and for all.

use vstd::prelude::*;

use crate::btree::spec_table_cells;
use crate::bytes::spec_u64_decimal;
use crate::engine::spec_rows_by_ids;
use crate::error::Error;
use crate::page::{page_in_file, page_seq};
use crate::record::{
    lemma_sum_sizes_monotonic, spec_extract_column, spec_sum_sizes, spec_table_cell_parts,
    SpecSchemaRow,
};
use crate::schema::{
    spec_names_at, spec_rows_at, spec_schema_cell_offsets, spec_schema_rows, spec_table_names,
};
use crate::serial::spec_serial_size;
use crate::varint::varint_at;
use crate::visitors::{
    opt_or_empty, spec_cell_column, spec_cell_rowid, spec_filter_rows, spec_find_rowid,
    spec_project_row, spec_project_rows, spec_scan_all_columns, spec_scan_count,
    spec_scan_for_rowid, spec_scan_index_value, spec_scan_where,
};

verus! {

/// The `type` column text of an ordinary table row.
pub open spec fn kw_type_table() -> Seq<u8> {
    seq![0x74u8, 0x61u8, 0x62u8, 0x6cu8, 0x65u8]
}

/// The name prefix of the system tables.
pub open spec fn kw_sqlite_prefix() -> Seq<u8> {
    seq![0x73u8, 0x71u8, 0x6cu8, 0x69u8, 0x74u8, 0x65u8, 0x5fu8]
}

/// Whether `s` begins with `p`.
pub open spec fn starts_with(s: Seq<u8>, p: Seq<u8>) -> bool {
    s.len() >= p.len() && s.subrange(0, p.len() as int) == p
}

/// How many schema rows have type `table`.
pub open spec fn spec_count_table_rows(rows: Seq<SpecSchemaRow>) -> int
    decreases rows.len(),
{
    if rows.len() == 0 {
        0
    } else {
        (if rows[0].row_type == kw_type_table() {
            1int
        } else {
            0int
        }) + spec_count_table_rows(rows.drop_first())
    }
}

proof fn lemma_names_at_len(pg: Seq<u8>, offs: Seq<int>)
    requires
        spec_names_at(pg, offs) is Ok,
    ensures
        spec_names_at(pg, offs)->Ok_0.len() == offs.len(),
    decreases offs.len(),
{
    if offs.len() > 0 {
        lemma_names_at_len(pg, offs.drop_first());
    }
}

proof fn lemma_rows_at_len(pg: Seq<u8>, offs: Seq<int>)
    requires
        spec_rows_at(pg, offs) is Ok,
    ensures
        spec_rows_at(pg, offs)->Ok_0.len() == offs.len(),
    decreases offs.len(),
{
    if offs.len() > 0 {
        lemma_rows_at_len(pg, offs.drop_first());
    }
}

proof fn lemma_all_table_rows_count(rows: Seq<SpecSchemaRow>)
    requires
        forall|i: int| 0 <= i < rows.len() ==> #[trigger] rows[i].row_type == kw_type_table(),
    ensures
        spec_count_table_rows(rows) == rows.len(),
    decreases rows.len(),
{
    if rows.len() > 0 {
        assert forall|i: int|
            0 <= i < rows.drop_first().len() implies #[trigger] rows.drop_first()[i].row_type
            == kw_type_table() by {
            assert(rows.drop_first()[i] == rows[i + 1]);
        }
        lemma_all_table_rows_count(rows.drop_first());
    }
}

/// In a database whose schema holds only ordinary tables — every schema
/// row of type `table`, none named with the system prefix — the `.tables`
/// listing has exactly one entry per schema row whose type is `table`.
pub proof fn lemma_tables_lists_all_tables(db: Seq<u8>)
    requires
        spec_table_names(db) is Ok,
        spec_schema_rows(db) is Ok,
        forall|i: int|
            0 <= i < spec_schema_rows(db)->Ok_0.len() ==> #[trigger] spec_schema_rows(
                db,
            )->Ok_0[i].row_type == kw_type_table(),
        forall|i: int|
            0 <= i < spec_schema_rows(db)->Ok_0.len() ==> !starts_with(
                #[trigger] spec_schema_rows(db)->Ok_0[i].tbl_name,
                kw_sqlite_prefix(),
            ),
    ensures
        spec_table_names(db)->Ok_0.len() == spec_count_table_rows(spec_schema_rows(db)->Ok_0),
{
    let offs = spec_schema_cell_offsets(db)->Ok_0;
    let pg = page_seq(db, crate::schema::spec_page_size(db), 1);
    lemma_names_at_len(pg, offs);
    lemma_rows_at_len(pg, offs);
    lemma_all_table_rows_count(spec_schema_rows(db)->Ok_0);
}

proof fn lemma_project_rows_len(db: Seq<u8>, psz: int, cells: Seq<(u32, u16)>, idxs: Seq<usize>)
    requires
        spec_project_rows(db, psz, cells, idxs) is Ok,
    ensures
        spec_project_rows(db, psz, cells, idxs)->Ok_0.len() == cells.len(),
    decreases cells.len(),
{
    if cells.len() > 0 {
        lemma_project_rows_len(db, psz, cells.drop_first(), idxs);
    }
}

/// The rowids of a run of cells, each taken from its second varint.
pub open spec fn spec_cells_rowids(db: Seq<u8>, psz: int, cells: Seq<(u32, u16)>) -> Seq<u64> {
    cells.map_values(|c: (u32, u16)| spec_cell_rowid(db, psz, c)->Ok_0)
}

/// The Counter visitor counts exactly the rows the Projector walk yields:
/// whenever both succeed on the same root, the count equals the number of
/// projected rows.
pub proof fn lemma_count_matches_projection(db: Seq<u8>, psz: int, root: u32, idxs: Seq<usize>)
    requires
        spec_scan_count(db, psz, root) is Ok,
        spec_scan_all_columns(db, psz, root, idxs) is Ok,
    ensures
        spec_scan_count(db, psz, root)->Ok_0 == spec_scan_all_columns(db, psz, root, idxs)
            ->Ok_0.len(),
{
    let cells = spec_table_cells(db, psz, root)->Ok_0;
    lemma_project_rows_len(db, psz, cells, idxs);
}

/// With pairwise-distinct rowids — the format's invariant for table trees
/// — the Counter value is the number of distinct rowids the full walk
/// reaches.
pub proof fn lemma_count_is_distinct_rowids(db: Seq<u8>, psz: int, root: u32, idxs: Seq<usize>)
    requires
        spec_scan_count(db, psz, root) is Ok,
        spec_scan_all_columns(db, psz, root, idxs) is Ok,
        spec_cells_rowids(db, psz, spec_table_cells(db, psz, root)->Ok_0).no_duplicates(),
    ensures
        spec_scan_count(db, psz, root)->Ok_0 == spec_cells_rowids(
            db,
            psz,
            spec_table_cells(db, psz, root)->Ok_0,
        ).to_set().len(),
{
    let cells = spec_table_cells(db, psz, root)->Ok_0;
    let rowids = spec_cells_rowids(db, psz, cells);
    rowids.unique_seq_to_set();
    lemma_project_rows_len(db, psz, cells, idxs);
}

/// A projected row has one entry per asked column: entry `k` is the value
/// of column `idxs[k]`, with SQL NULL as the empty string.
pub proof fn lemma_project_row_entry(
    db: Seq<u8>,
    psz: int,
    cell: (u32, u16),
    idxs: Seq<usize>,
    k: int,
)
    requires
        spec_project_row(db, psz, cell, idxs) is Ok,
        0 <= k < idxs.len(),
    ensures
        spec_project_row(db, psz, cell, idxs)->Ok_0.len() == idxs.len(),
        spec_cell_column(db, psz, cell, idxs[k] as int) is Ok,
        spec_project_row(db, psz, cell, idxs)->Ok_0[k] == opt_or_empty(
            spec_cell_column(db, psz, cell, idxs[k] as int)->Ok_0,
        ),
    decreases idxs.len(),
{
    if idxs.len() > 0 {
        if k == 0 {
            lemma_project_row_len(db, psz, cell, idxs.drop_first());
        } else {
            lemma_project_row_entry(db, psz, cell, idxs.drop_first(), k - 1);
            assert(idxs.drop_first()[k - 1] == idxs[k]);
        }
    }
}

proof fn lemma_project_row_len(db: Seq<u8>, psz: int, cell: (u32, u16), idxs: Seq<usize>)
    requires
        spec_project_row(db, psz, cell, idxs) is Ok,
    ensures
        spec_project_row(db, psz, cell, idxs)->Ok_0.len() == idxs.len(),
    decreases idxs.len(),
{
    if idxs.len() > 0 {
        lemma_project_row_len(db, psz, cell, idxs.drop_first());
    }
}

/// The pointed lookup returns the projected row of the first cell whose
/// rowid matches.
pub proof fn lemma_find_first_rowid(
    db: Seq<u8>,
    psz: int,
    cells: Seq<(u32, u16)>,
    r: u64,
    idxs: Seq<usize>,
    j0: int,
)
    requires
        0 <= j0 < cells.len(),
        forall|j: int|
            0 <= j < j0 ==> #[trigger] spec_cell_rowid(db, psz, cells[j]) is Ok && spec_cell_rowid(
                db,
                psz,
                cells[j],
            )->Ok_0 != r,
        spec_cell_rowid(db, psz, cells[j0]) == Ok::<u64, Error>(r),
        spec_project_row(db, psz, cells[j0], idxs) is Ok,
    ensures
        spec_find_rowid(db, psz, cells, r, idxs) == Ok::<_, Error>(
            Some(spec_project_row(db, psz, cells[j0], idxs)->Ok_0),
        ),
    decreases j0,
{
    if j0 > 0 {
        assert forall|j: int|
            0 <= j < j0 - 1 implies #[trigger] spec_cell_rowid(db, psz, cells.drop_first()[j])
            is Ok && spec_cell_rowid(db, psz, cells.drop_first()[j])->Ok_0 != r by {
            assert(cells.drop_first()[j] == cells[j + 1]);
        }
        assert(cells.drop_first()[j0 - 1] == cells[j0]);
        lemma_find_first_rowid(db, psz, cells.drop_first(), r, idxs, j0 - 1);
        assert(spec_cell_rowid(db, psz, cells[0]) is Ok && spec_cell_rowid(db, psz, cells[0])->Ok_0
            != r);
    }
}

/// Whether the cell's record stores its first column as the rowid alias: a
/// zero-sized serial type in column 0.
pub open spec fn rowid_aliased(db: Seq<u8>, psz: int, cell: (u32, u16)) -> bool {
    page_in_file(db, psz, cell.0) && {
        let pg = page_seq(db, psz, cell.0);
        spec_table_cell_parts(pg, cell.1 as int) is Ok && {
            let (payload, rowid, serials, body) = spec_table_cell_parts(pg, cell.1 as int)->Ok_0;
            serials.len() > 0 && spec_serial_size(serials[0]) == 0
        }
    }
}

/// For every rowid `r` present in a table, the pointed lookup returns a
/// row; and when the projection asks for column 0 of a cell that stores
/// its first column as the rowid alias, that entry reads as the decimal
/// text of `r`. Here `j0` names the first matching cell and `k` the place
/// of column 0 in the projection.
pub proof fn lemma_find_by_rowid_alias(
    db: Seq<u8>,
    psz: int,
    root: u32,
    r: u64,
    idxs: Seq<usize>,
    j0: int,
    k: int,
)
    requires
        spec_table_cells(db, psz, root) is Ok,
        0 <= j0 < spec_table_cells(db, psz, root)->Ok_0.len(),
        forall|j: int|
            0 <= j < j0 ==> #[trigger] spec_cell_rowid(
                db,
                psz,
                spec_table_cells(db, psz, root)->Ok_0[j],
            ) is Ok && spec_cell_rowid(db, psz, spec_table_cells(db, psz, root)->Ok_0[j])->Ok_0
                != r,
        spec_cell_rowid(db, psz, spec_table_cells(db, psz, root)->Ok_0[j0]) == Ok::<u64, Error>(r),
        spec_project_row(db, psz, spec_table_cells(db, psz, root)->Ok_0[j0], idxs) is Ok,
        rowid_aliased(db, psz, spec_table_cells(db, psz, root)->Ok_0[j0]),
        0 <= k < idxs.len(),
        idxs[k] == 0,
    ensures
        spec_scan_for_rowid(db, psz, root, r, idxs) matches Ok(Some(row)) && row[k]
            == spec_u64_decimal(r),
{
    let cells = spec_table_cells(db, psz, root)->Ok_0;
    let cell = cells[j0];
    lemma_find_first_rowid(db, psz, cells, r, idxs, j0);
    lemma_project_row_entry(db, psz, cell, idxs, k);
    let pg = page_seq(db, psz, cell.0);
    let (payload, l1) = varint_at(pg, cell.1 as int)->Some_0;
    assert(spec_cell_column(db, psz, cell, 0) == Ok::<Option<Seq<u8>>, Error>(
        Some(spec_u64_decimal(r)),
    ));
}

/// The record accounting identity keeps reads inside the page: in a cell
/// whose header size plus summed body sizes equal its declared payload
/// size — the identity the format guarantees for every cell — extracting
/// any present column succeeds; no read runs off the page.
pub proof fn lemma_wf_record_columns_in_bounds(pg: Seq<u8>, cell: int)
    requires
        spec_table_cell_parts(pg, cell) is Ok,
        ({
            let (payload, rowid, serials, body) = spec_table_cell_parts(pg, cell)->Ok_0;
            let (p0, l1) = varint_at(pg, cell)->Some_0;
            let (r0, l2) = varint_at(pg, cell + l1)->Some_0;
            body + spec_sum_sizes(serials, serials.len() as int) == cell + l1 + l2 + payload
        }),
    ensures
        forall|col: int|
            0 <= col < spec_table_cell_parts(pg, cell)->Ok_0.2.len() ==> #[trigger]
                spec_extract_column(pg, cell, col) is Ok,
{
    let (payload, rowid, serials, body) = spec_table_cell_parts(pg, cell)->Ok_0;
    let (p0, l1) = varint_at(pg, cell)->Some_0;
    let (r0, l2) = varint_at(pg, cell + l1)->Some_0;
    let hs = cell + l1 + l2;
    assert forall|col: int|
        0 <= col < serials.len() implies #[trigger] spec_extract_column(pg, cell, col) is Ok by {
        if spec_serial_size(serials[col]) != 0 {
            lemma_sum_sizes_monotonic(serials, col + 1, serials.len() as int);
            assert(spec_sum_sizes(serials, col + 1) == spec_sum_sizes(serials, col)
                + spec_serial_size(serials[col]));
            assert(body + spec_sum_sizes(serials, col) + spec_serial_size(serials[col])
                <= hs + payload);
            assert(hs + payload <= pg.len());
        }
    }
}

/// The rowids of the cells from position `t` on whose column `wcol` equals
/// `val`, in traversal order.
pub open spec fn matching_rowids_from(
    db: Seq<u8>,
    psz: int,
    cells: Seq<(u32, u16)>,
    wcol: int,
    val: Seq<u8>,
    t: int,
) -> Seq<u64>
    decreases cells.len() - t,
{
    if t < 0 || t >= cells.len() {
        Seq::empty()
    } else if spec_cell_column(db, psz, cells[t], wcol) == Ok::<Option<Seq<u8>>, Error>(
        Some(val),
    ) {
        seq![spec_cell_rowid(db, psz, cells[t])->Ok_0] + matching_rowids_from(
            db,
            psz,
            cells,
            wcol,
            val,
            t + 1,
        )
    } else {
        matching_rowids_from(db, psz, cells, wcol, val, t + 1)
    }
}

/// The projected rows of the cells from position `t` on whose column
/// `wcol` equals `val`, in traversal order.
pub open spec fn matching_rows_from(
    db: Seq<u8>,
    psz: int,
    cells: Seq<(u32, u16)>,
    idxs: Seq<usize>,
    wcol: int,
    val: Seq<u8>,
    t: int,
) -> Seq<Seq<Seq<u8>>>
    decreases cells.len() - t,
{
    if t < 0 || t >= cells.len() {
        Seq::empty()
    } else if spec_cell_column(db, psz, cells[t], wcol) == Ok::<Option<Seq<u8>>, Error>(
        Some(val),
    ) {
        seq![spec_project_row(db, psz, cells[t], idxs)->Ok_0] + matching_rows_from(
            db,
            psz,
            cells,
            idxs,
            wcol,
            val,
            t + 1,
        )
    } else {
        matching_rows_from(db, psz, cells, idxs, wcol, val, t + 1)
    }
}

/// The filter scan from position `t` on yields exactly the projections of
/// the matching cells.
proof fn lemma_filter_is_matching(
    db: Seq<u8>,
    psz: int,
    cells: Seq<(u32, u16)>,
    idxs: Seq<usize>,
    wcol: int,
    val: Seq<u8>,
    t: int,
)
    requires
        0 <= t <= cells.len(),
        forall|j: int|
            0 <= j < cells.len() ==> #[trigger] spec_cell_column(db, psz, cells[j], wcol) is Ok,
        forall|j: int|
            0 <= j < cells.len() ==> #[trigger] spec_project_row(db, psz, cells[j], idxs) is Ok,
    ensures
        spec_filter_rows(db, psz, cells.skip(t), idxs, wcol, val) == Ok::<_, Error>(
            matching_rows_from(db, psz, cells, idxs, wcol, val, t),
        ),
    decreases cells.len() - t,
{
    if t == cells.len() {
        assert(cells.skip(t) =~= Seq::<(u32, u16)>::empty());
    } else {
        lemma_filter_is_matching(db, psz, cells, idxs, wcol, val, t + 1);
        assert(cells.skip(t)[0] == cells[t]);
        assert(cells.skip(t).drop_first() =~= cells.skip(t + 1));
    }
}

/// Looking the matching rowids up one by one yields exactly the
/// projections of the matching cells, provided rowids are pairwise
/// distinct across the table.
proof fn lemma_ids_lookup_is_matching(
    db: Seq<u8>,
    psz: int,
    root: u32,
    idxs: Seq<usize>,
    wcol: int,
    val: Seq<u8>,
    t: int,
)
    requires
        spec_table_cells(db, psz, root) is Ok,
        0 <= t <= spec_table_cells(db, psz, root)->Ok_0.len(),
        forall|j: int|
            0 <= j < spec_table_cells(db, psz, root)->Ok_0.len() ==> #[trigger] spec_cell_rowid(
                db,
                psz,
                spec_table_cells(db, psz, root)->Ok_0[j],
            ) is Ok,
        forall|j: int|
            0 <= j < spec_table_cells(db, psz, root)->Ok_0.len() ==> #[trigger] spec_project_row(
                db,
                psz,
                spec_table_cells(db, psz, root)->Ok_0[j],
                idxs,
            ) is Ok,
        forall|j1: int, j2: int|
            0 <= j1 < j2 < spec_table_cells(db, psz, root)->Ok_0.len() ==> spec_cell_rowid(
                db,
                psz,
                #[trigger] spec_table_cells(db, psz, root)->Ok_0[j1],
            )->Ok_0 != spec_cell_rowid(
                db,
                psz,
                #[trigger] spec_table_cells(db, psz, root)->Ok_0[j2],
            )->Ok_0,
    ensures
        spec_rows_by_ids(
            db,
            psz,
            root,
            matching_rowids_from(db, psz, spec_table_cells(db, psz, root)->Ok_0, wcol, val, t),
            idxs,
        ) == Ok::<_, Error>(
            matching_rows_from(db, psz, spec_table_cells(db, psz, root)->Ok_0, idxs, wcol, val, t),
        ),
    decreases spec_table_cells(db, psz, root)->Ok_0.len() - t,
{
    let cells = spec_table_cells(db, psz, root)->Ok_0;
    if t == cells.len() {
    } else {
        lemma_ids_lookup_is_matching(db, psz, root, idxs, wcol, val, t + 1);
        if spec_cell_column(db, psz, cells[t], wcol) == Ok::<Option<Seq<u8>>, Error>(Some(val)) {
            let r = spec_cell_rowid(db, psz, cells[t])->Ok_0;
            assert forall|j: int|
                0 <= j < t implies #[trigger] spec_cell_rowid(db, psz, cells[j]) is Ok
                && spec_cell_rowid(db, psz, cells[j])->Ok_0 != r by {}
            lemma_find_first_rowid(db, psz, cells, r, idxs, t);
            let ids = matching_rowids_from(db, psz, cells, wcol, val, t);
            assert(ids.drop_first() =~= matching_rowids_from(db, psz, cells, wcol, val, t + 1));
            assert(ids[0] == r);
        }
    }
}

/// An index-accelerated WHERE lookup returns the same rows as the filtered
/// full scan, row for row (so also as a multiset): provided the index
/// B-tree yields exactly the rowids of the cells whose column matches, in
/// traversal order, as a well-formed index does; that rowids are pairwise
/// distinct across the table, as the format guarantees; and that every
/// cell of the table decodes.
pub proof fn lemma_index_plan_matches_scan(
    db: Seq<u8>,
    psz: int,
    troot: u32,
    iroot: u32,
    idxs: Seq<usize>,
    wcol: int,
    val: Seq<u8>,
)
    requires
        spec_table_cells(db, psz, troot) is Ok,
        forall|j: int|
            0 <= j < spec_table_cells(db, psz, troot)->Ok_0.len() ==> #[trigger] spec_cell_rowid(
                db,
                psz,
                spec_table_cells(db, psz, troot)->Ok_0[j],
            ) is Ok,
        forall|j: int|
            0 <= j < spec_table_cells(db, psz, troot)->Ok_0.len() ==> #[trigger] spec_cell_column(
                db,
                psz,
                spec_table_cells(db, psz, troot)->Ok_0[j],
                wcol,
            ) is Ok,
        forall|j: int|
            0 <= j < spec_table_cells(db, psz, troot)->Ok_0.len() ==> #[trigger] spec_project_row(
                db,
                psz,
                spec_table_cells(db, psz, troot)->Ok_0[j],
                idxs,
            ) is Ok,
        forall|j1: int, j2: int|
            0 <= j1 < j2 < spec_table_cells(db, psz, troot)->Ok_0.len() ==> spec_cell_rowid(
                db,
                psz,
                #[trigger] spec_table_cells(db, psz, troot)->Ok_0[j1],
            )->Ok_0 != spec_cell_rowid(
                db,
                psz,
                #[trigger] spec_table_cells(db, psz, troot)->Ok_0[j2],
            )->Ok_0,
        spec_scan_index_value(db, psz, iroot, val) == Ok::<Seq<u64>, Error>(
            matching_rowids_from(db, psz, spec_table_cells(db, psz, troot)->Ok_0, wcol, val, 0),
        ),
    ensures
        spec_scan_where(db, psz, troot, idxs, wcol, val) is Ok,
        spec_rows_by_ids(
            db,
            psz,
            troot,
            spec_scan_index_value(db, psz, iroot, val)->Ok_0,
            idxs,
        ) == spec_scan_where(db, psz, troot, idxs, wcol, val),
{
    let cells = spec_table_cells(db, psz, troot)->Ok_0;
    lemma_filter_is_matching(db, psz, cells, idxs, wcol, val, 0);
    lemma_ids_lookup_is_matching(db, psz, troot, idxs, wcol, val, 0);
    assert(cells.skip(0) =~= cells);
}

} // verus!
