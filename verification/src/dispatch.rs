//! The command dispatcher: parse one command string, run it against the
//! database image, and shape the output lines.
//!
//! `.dbinfo` yields two lines; `.tables` one space-joined line (or none
//! when the schema is empty); `COUNT(*)` one decimal line; a single-column
//! projection one line per value; a multi-column projection one line per
//! row, columns joined by `|`.

use vstd::prelude::*;

use crate::bytes::{spec_u64_decimal, u64_to_decimal};
use crate::ddl::subvec;
use crate::engine::{
    count_rows_in_table, select_column_from_table, select_columns_from_table,
    select_columns_from_table_where, spec_count_rows, spec_select_column, spec_select_columns,
    spec_select_where,
};
use crate::error::Error;
use crate::schema::{
    read_number_of_tables, read_table_names, spec_number_of_tables, spec_page_size,
    spec_table_names,
};
use crate::sql::{parse_command, spec_parse_command, Query, SpecQuery};

verus! {

/// The tail of a joined line from item `i` on: a separator before each
/// remaining item.
pub open spec fn join_from(items: Seq<Seq<u8>>, sep: u8, i: int) -> Seq<u8>
    decreases items.len() - i,
{
    if i < 0 || i >= items.len() {
        Seq::empty()
    } else {
        seq![sep] + items[i] + join_from(items, sep, i + 1)
    }
}

/// The items joined by a single separator byte.
pub open spec fn spec_join(items: Seq<Seq<u8>>, sep: u8) -> Seq<u8> {
    if items.len() == 0 {
        Seq::empty()
    } else {
        items[0] + join_from(items, sep, 1)
    }
}

/// Join byte strings with a single separator byte.
pub fn join_bytes(items: &Vec<Vec<u8>>, sep: u8) -> (r: Vec<u8>)
    ensures
        r@ == spec_join(items.deep_view(), sep),
{
    let ghost iv = items.deep_view();
    if items.len() == 0 {
        let out: Vec<u8> = Vec::new();
        proof {
            assert(out@ =~= Seq::<u8>::empty());
        }
        return out;
    }
    let mut out = subvec(&items[0], 0, items[0].len());
    proof {
        assert(iv[0] == items@[0].deep_view());
        assert(items@[0].deep_view() =~= items@[0]@);
    }
    let mut i: usize = 1;
    while i < items.len()
        invariant
            1 <= i <= items.len(),
            iv == items.deep_view(),
            iv.len() == items.len(),
            spec_join(iv, sep) == out@ + join_from(iv, sep, i as int),
        decreases items.len() - i,
    {
        proof {
            assert(iv[i as int] == items@[i as int].deep_view());
            assert(items@[i as int].deep_view() =~= items@[i as int]@);
        }
        let ghost oldo = out@;
        out.push(sep);
        let mut part = subvec(&items[i], 0, items[i].len());
        let ghost pp = part@;
        out.append(&mut part);
        proof {
            assert(out@ =~= oldo + seq![sep] + pp);
            assert((oldo + seq![sep] + pp) + join_from(iv, sep, i + 1) =~= oldo + (seq![sep] + pp
                + join_from(iv, sep, i + 1)));
        }
        i = i + 1;
    }
    proof {
        assert(join_from(iv, sep, iv.len() as int) =~= Seq::<u8>::empty());
        assert(out@ + Seq::<u8>::empty() =~= out@);
    }
    out
}

/// The text `database page size: `.
pub open spec fn kw_page_size_line() -> Seq<u8> {
    seq![
        0x64u8,
        0x61u8,
        0x74u8,
        0x61u8,
        0x62u8,
        0x61u8,
        0x73u8,
        0x65u8,
        0x20u8,
        0x70u8,
        0x61u8,
        0x67u8,
        0x65u8,
        0x20u8,
        0x73u8,
        0x69u8,
        0x7au8,
        0x65u8,
        0x3au8,
        0x20u8,
    ]
}

/// The text `number of tables: `.
pub open spec fn kw_table_count_line() -> Seq<u8> {
    seq![
        0x6eu8,
        0x75u8,
        0x6du8,
        0x62u8,
        0x65u8,
        0x72u8,
        0x20u8,
        0x6fu8,
        0x66u8,
        0x20u8,
        0x74u8,
        0x61u8,
        0x62u8,
        0x6cu8,
        0x65u8,
        0x73u8,
        0x3au8,
        0x20u8,
    ]
}

/// Build the text `database page size: `.
pub fn lit_page_size_line() -> (r: Vec<u8>)
    ensures
        r@ == kw_page_size_line(),
{
    let mut v: Vec<u8> = Vec::new();
    v.push(0x64);
    v.push(0x61);
    v.push(0x74);
    v.push(0x61);
    v.push(0x62);
    v.push(0x61);
    v.push(0x73);
    v.push(0x65);
    v.push(0x20);
    v.push(0x70);
    v.push(0x61);
    v.push(0x67);
    v.push(0x65);
    v.push(0x20);
    v.push(0x73);
    v.push(0x69);
    v.push(0x7a);
    v.push(0x65);
    v.push(0x3a);
    v.push(0x20);
    proof {
        assert(v@ =~= kw_page_size_line());
    }
    v
}

/// Build the text `number of tables: `.
pub fn lit_table_count_line() -> (r: Vec<u8>)
    ensures
        r@ == kw_table_count_line(),
{
    let mut v: Vec<u8> = Vec::new();
    v.push(0x6e);
    v.push(0x75);
    v.push(0x6d);
    v.push(0x62);
    v.push(0x65);
    v.push(0x72);
    v.push(0x20);
    v.push(0x6f);
    v.push(0x66);
    v.push(0x20);
    v.push(0x74);
    v.push(0x61);
    v.push(0x62);
    v.push(0x6c);
    v.push(0x65);
    v.push(0x73);
    v.push(0x3a);
    v.push(0x20);
    proof {
        assert(v@ =~= kw_table_count_line());
    }
    v
}

/// The output lines of one command against one database image.
pub open spec fn spec_run_command(db: Seq<u8>, cmd: Seq<u8>) -> Result<Seq<Seq<u8>>, Error> {
    match spec_parse_command(cmd) {
        Err(e) => Err(e),
        Ok(q) => match q {
            SpecQuery::DbInfo => match spec_number_of_tables(db) {
                Err(e) => Err(e),
                Ok(n) => Ok(
                    seq![
                        kw_page_size_line() + spec_u64_decimal(spec_page_size(db) as u64),
                        kw_table_count_line() + spec_u64_decimal(n as u64),
                    ],
                ),
            },
            SpecQuery::Tables => match spec_table_names(db) {
                Err(e) => Err(e),
                Ok(names) => {
                    if names.len() == 0 {
                        Ok(Seq::empty())
                    } else {
                        Ok(seq![spec_join(names, 0x20)])
                    }
                },
            },
            SpecQuery::Count { table } => match spec_count_rows(db, table) {
                Err(e) => Err(e),
                Ok(n) => Ok(seq![spec_u64_decimal(n as u64)]),
            },
            SpecQuery::Select { cols, table, filter: None } => {
                if cols.len() == 1 {
                    spec_select_column(db, table, cols[0])
                } else {
                    match spec_select_columns(db, table, cols) {
                        Err(e) => Err(e),
                        Ok(rows) => Ok(
                            rows.map_values(|row: Seq<Seq<u8>>| spec_join(row, 0x7c)),
                        ),
                    }
                }
            },
            SpecQuery::Select { cols, table, filter: Some(f) } => {
                match spec_select_where(db, table, cols, f.0, f.1) {
                    Err(e) => Err(e),
                    Ok(rows) => Ok(rows.map_values(|row: Seq<Seq<u8>>| spec_join(row, 0x7c))),
                }
            },
        },
    }
}

/// Join each row's columns with `|`.
fn join_rows(rows: &Vec<Vec<Vec<u8>>>) -> (r: Vec<Vec<u8>>)
    ensures
        r.deep_view() == rows.deep_view().map_values(
            |row: Seq<Seq<u8>>| spec_join(row, 0x7c),
        ),
{
    let ghost rv = rows.deep_view();
    let mut out: Vec<Vec<u8>> = Vec::new();
    let mut i: usize = 0;
    while i < rows.len()
        invariant
            0 <= i <= rows.len(),
            rv == rows.deep_view(),
            rv.len() == rows.len(),
            out.deep_view().len() == i,
            forall|k: int|
                0 <= k < i ==> out.deep_view()[k] == spec_join(rv[k], 0x7c),
        decreases rows.len() - i,
    {
        proof {
            assert(rv[i as int] == rows@[i as int].deep_view());
        }
        let line = join_bytes(&rows[i], 0x7c);
        let ghost oldd = out.deep_view();
        let ghost lv = line@;
        out.push(line);
        proof {
            assert(out.deep_view() =~~= oldd.push(lv));
        }
        i = i + 1;
    }
    proof {
        assert(out.deep_view() =~~= rv.map_values(|row: Seq<Seq<u8>>| spec_join(row, 0x7c)));
    }
    out
}

/// Run one command against the database image and return the lines it
/// prints, in order. Everything the command surface can do passes through
/// here: the two dot commands and the three SELECT forms.
#[verifier::rlimit(50)]
pub fn run_command(db: &Vec<u8>, command: &Vec<u8>) -> (r: Result<Vec<Vec<u8>>, Error>)
    ensures
        match r {
            Ok(lines) => spec_run_command(db@, command@) == Ok::<_, Error>(lines.deep_view()),
            Err(e) => spec_run_command(db@, command@) == Err::<Seq<Seq<u8>>, _>(e),
        },
{
    let q = match parse_command(command) {
        Ok(q) => q,
        Err(e) => {
            return Err(e);
        },
    };
    match q {
        Query::DbInfo => {
            let n = match read_number_of_tables(db) {
                Ok(n) => n,
                Err(e) => {
                    return Err(e);
                },
            };
            let psz = crate::engine::read_page_size(db);
            let mut line1 = lit_page_size_line();
            let mut d1 = u64_to_decimal(psz as u64);
            let ghost l1a = line1@;
            let ghost d1v = d1@;
            line1.append(&mut d1);
            let mut line2 = lit_table_count_line();
            let mut d2 = u64_to_decimal(n as u64);
            let ghost l2a = line2@;
            let ghost d2v = d2@;
            line2.append(&mut d2);
            let mut out: Vec<Vec<u8>> = Vec::new();
            let ghost lv1 = line1@;
            let ghost lv2 = line2@;
            out.push(line1);
            out.push(line2);
            proof {
                assert(out.deep_view() =~~= seq![lv1, lv2]);
            }
            Ok(out)
        },
        Query::Tables => {
            let names = match read_table_names(db) {
                Ok(n) => n,
                Err(e) => {
                    return Err(e);
                },
            };
            let mut out: Vec<Vec<u8>> = Vec::new();
            if names.len() == 0 {
                proof {
                    assert(out.deep_view() =~~= Seq::<Seq<u8>>::empty());
                }
                return Ok(out);
            }
            let line = join_bytes(&names, 0x20);
            let ghost lv = line@;
            out.push(line);
            proof {
                assert(out.deep_view() =~~= seq![lv]);
            }
            Ok(out)
        },
        Query::Count { table } => {
            let n = match count_rows_in_table(db, &table) {
                Ok(n) => n,
                Err(e) => {
                    return Err(e);
                },
            };
            let line = u64_to_decimal(n as u64);
            let ghost lv = line@;
            let mut out: Vec<Vec<u8>> = Vec::new();
            out.push(line);
            proof {
                assert(out.deep_view() =~~= seq![lv]);
            }
            Ok(out)
        },
        Query::Select { cols, table, filter: None } => {
            if cols.len() == 1 {
                proof {
                    assert(cols.deep_view()[0] == cols@[0].deep_view());
                    assert(cols@[0].deep_view() =~= cols@[0]@);
                }
                select_column_from_table(db, &table, &cols[0])
            } else {
                match select_columns_from_table(db, &table, &cols) {
                    Ok(rows) => Ok(join_rows(&rows)),
                    Err(e) => Err(e),
                }
            }
        },
        Query::Select { cols, table, filter: Some((wc, wv)) } => {
            match select_columns_from_table_where(db, &table, &cols, &wc, &wv) {
                Ok(rows) => Ok(join_rows(&rows)),
                Err(e) => Err(e),
            }
        },
    }
}

} // verus!
