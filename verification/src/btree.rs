//! The B-tree walker: a depth-first, left-to-right traversal that gathers
//! the positions of every leaf cell under a root page.
//!
//! One walker serves both B-tree variants: table trees (leaf type 0x0D,
//! interior type 0x05) and index trees (leaf type 0x0A, interior type 0x02).
//! An interior cell begins with the 4-byte page number of its left child;
//! after all cells the walk descends into the page's right child. Pages of
//! any other type contribute nothing, as the engine ignores them.
//!
//! The walk carries fuel: one unit per level of descent. Callers supply more
//! fuel than any acyclic tree inside the image can need, so running out
//! proves a cycle among the page numbers, and the walk reports the page
//! structure as corrupt.

use vstd::prelude::*;

use crate::bytes::{be32, read_be32};
use crate::error::Error;
use crate::page::{
    cell_pointer, page_in_file, page_seq, parse_page_header, read_page, spec_cell_ptr,
    spec_page_header, PageHeader,
};

verus! {

/// The `(page number, cell offset)` pairs of every leaf cell under page
/// `p`, in traversal order, for the B-tree variant whose page types are
/// `leaf` and `interior`.
pub open spec fn spec_btree_cells(
    db: Seq<u8>,
    psz: int,
    p: u32,
    leaf: u8,
    interior: u8,
    fuel: nat,
) -> Result<Seq<(u32, u16)>, Error>
    decreases fuel, 1int, 0int,
{
    if fuel == 0 {
        Err(Error::CorruptPage)
    } else if !page_in_file(db, psz, p) {
        Err(
            if p < 1 {
                Error::CorruptPage
            } else {
                Error::ShortRead
            },
        )
    } else {
        let pg = page_seq(db, psz, p);
        match spec_page_header(pg, p) {
            Err(e) => Err(e),
            Ok(h) => {
                if h.page_type == leaf {
                    Ok(
                        Seq::new(
                            h.cell_count as nat,
                            |i: int| (p, spec_cell_ptr(pg, h, i) as u16),
                        ),
                    )
                } else if h.page_type == interior {
                    spec_btree_children(db, psz, p, leaf, interior, 0, fuel)
                } else {
                    Ok(Seq::empty())
                }
            },
        }
    }
}

/// The leaf cells under children `i`, `i + 1`, ... of the interior page
/// `p`, followed by those under its right child.
pub open spec fn spec_btree_children(
    db: Seq<u8>,
    psz: int,
    p: u32,
    leaf: u8,
    interior: u8,
    i: int,
    fuel: nat,
) -> Result<Seq<(u32, u16)>, Error>
    decreases fuel, 0int, spec_page_header(page_seq(db, psz, p), p)->Ok_0.cell_count - i,
{
    let pg = page_seq(db, psz, p);
    let h = spec_page_header(pg, p)->Ok_0;
    if fuel == 0 {
        Err(Error::CorruptPage)
    } else if i >= h.cell_count {
        spec_btree_cells(db, psz, h.right_child->Some_0, leaf, interior, (fuel - 1) as nat)
    } else {
        let ci = spec_cell_ptr(pg, h, i);
        if ci + 4 > pg.len() {
            Err(Error::CorruptPage)
        } else {
            let child = be32(pg, ci) as u32;
            match spec_btree_cells(db, psz, child, leaf, interior, (fuel - 1) as nat) {
                Err(e) => Err(e),
                Ok(first) => match spec_btree_children(db, psz, p, leaf, interior, i + 1, fuel) {
                    Err(e) => Err(e),
                    Ok(rest) => Ok(first + rest),
                },
            }
        }
    }
}

/// Gather every leaf cell under page `page_no`, depth first and left to
/// right, for the B-tree variant whose page types are `leaf` and `interior`.
pub fn collect_btree_cells(
    db: &Vec<u8>,
    page_size: usize,
    page_no: u32,
    leaf: u8,
    interior: u8,
    fuel: u64,
) -> (r: Result<Vec<(u32, u16)>, Error>)
    requires
        1 <= page_size <= 65536,
        interior == 0x05 || interior == 0x02,
    ensures
        match r {
            Ok(v) => spec_btree_cells(
                db@,
                page_size as int,
                page_no,
                leaf,
                interior,
                fuel as nat,
            ) == Ok::<_, Error>(v@),
            Err(e) => spec_btree_cells(
                db@,
                page_size as int,
                page_no,
                leaf,
                interior,
                fuel as nat,
            ) == Err::<Seq<(u32, u16)>, _>(e),
        },
    decreases fuel,
{
    if fuel == 0 {
        return Err(Error::CorruptPage);
    }
    let pg = match read_page(db, page_size, page_no) {
        Ok(p) => p,
        Err(e) => {
            return Err(e);
        },
    };
    let h = match parse_page_header(&pg, page_no) {
        Ok(h) => h,
        Err(e) => {
            return Err(e);
        },
    };
    if h.page_type == leaf {
        let cc = h.cell_count as usize;
        let mut v: Vec<(u32, u16)> = Vec::new();
        let mut i: usize = 0;
        proof {
            assert(h.cell_ptr_offset + 2 * h.cell_count <= pg@.len());
            assert(v@ =~= Seq::new(0nat, |k: int| (page_no, spec_cell_ptr(pg@, h, k) as u16)));
        }
        while i < cc
            invariant
                0 <= i <= cc,
                cc == h.cell_count,
                h.cell_ptr_offset + 2 * h.cell_count <= pg.len(),
                v@ =~= Seq::new(i as nat, |k: int| (page_no, spec_cell_ptr(pg@, h, k) as u16)),
            decreases cc - i,
        {
            let cp = cell_pointer(&pg, &h, i);
            v.push((page_no, cp));
            proof {
                assert(v@ =~= Seq::new(
                    (i + 1) as nat,
                    |k: int| (page_no, spec_cell_ptr(pg@, h, k) as u16),
                ));
            }
            i = i + 1;
        }
        return Ok(v);
    }
    if h.page_type != interior {
        let v: Vec<(u32, u16)> = Vec::new();
        proof {
            assert(v@ =~= Seq::<(u32, u16)>::empty());
        }
        return Ok(v);
    }
    let rc = match h.right_child {
        Some(c) => c,
        None => {
            proof {
                assert(false);
            }
            return Err(Error::CorruptPage);
        },
    };
    let ghost psz = page_size as int;
    let cc = h.cell_count as usize;
    let mut v: Vec<(u32, u16)> = Vec::new();
    let mut i: usize = 0;
    proof {
        if spec_btree_children(db@, psz, page_no, leaf, interior, 0, fuel as nat) is Ok {
            let rest = spec_btree_children(db@, psz, page_no, leaf, interior, 0, fuel as nat)->Ok_0;
            assert(v@ + rest =~= rest);
        }
    }
    while i < cc
        invariant
            0 <= i <= cc,
            1 <= page_size <= 65536,
            interior == 0x05 || interior == 0x02,
            fuel >= 1,
            psz == page_size as int,
            page_in_file(db@, psz, page_no),
            pg@ == page_seq(db@, psz, page_no),
            pg.len() == page_size,
            spec_page_header(pg@, page_no) == Ok::<_, Error>(h),
            h.page_type == interior,
            cc == h.cell_count,
            h.cell_ptr_offset + 2 * h.cell_count <= pg.len(),
            spec_btree_cells(db@, psz, page_no, leaf, interior, fuel as nat) == (
            match spec_btree_children(db@, psz, page_no, leaf, interior, i as int, fuel as nat) {
                Ok(rest) => Ok::<_, Error>(v@ + rest),
                Err(e) => Err(e),
            }),
        decreases cc - i,
    {
        let ci = cell_pointer(&pg, &h, i);
        if (ci as usize) + 4 > page_size {
            return Err(Error::CorruptPage);
        }
        let child = read_be32(&pg, ci as usize);
        let mut c = match collect_btree_cells(db, page_size, child, leaf, interior, fuel - 1) {
            Ok(c) => c,
            Err(e) => {
                return Err(e);
            },
        };
        let ghost old_v = v@;
        let ghost child_cells = c@;
        v.append(&mut c);
        proof {
            if spec_btree_children(db@, psz, page_no, leaf, interior, i + 1, fuel as nat) is Ok {
                let rest = spec_btree_children(
                    db@,
                    psz,
                    page_no,
                    leaf,
                    interior,
                    i + 1,
                    fuel as nat,
                )->Ok_0;
                assert((old_v + child_cells) + rest =~= old_v + (child_cells + rest));
            }
        }
        i = i + 1;
    }
    let mut c = match collect_btree_cells(db, page_size, rc, leaf, interior, fuel - 1) {
        Ok(c) => c,
        Err(e) => {
            return Err(e);
        },
    };
    v.append(&mut c);
    Ok(v)
}

/// The fuel handed to a walk: one more than the number of whole pages in
/// the image, which exceeds the depth of any acyclic tree stored there.
pub open spec fn spec_fuel(db: Seq<u8>, psz: int) -> nat {
    let q = db.len() as int / psz;
    if q == u64::MAX {
        q as nat
    } else {
        (q + 1) as nat
    }
}

/// Compute the walk fuel for this image.
pub fn compute_fuel(db: &Vec<u8>, page_size: usize) -> (r: u64)
    requires
        1 <= page_size,
    ensures
        r as nat == spec_fuel(db@, page_size as int),
{
    let q: u64 = (db.len() as u64) / (page_size as u64);
    if q == u64::MAX {
        q
    } else {
        q + 1
    }
}

/// The leaf cells of the table B-tree rooted at page `p`.
pub open spec fn spec_table_cells(db: Seq<u8>, psz: int, p: u32) -> Result<Seq<(u32, u16)>, Error> {
    spec_btree_cells(db, psz, p, 0x0d, 0x05, spec_fuel(db, psz))
}

/// The leaf cells of the index B-tree rooted at page `p`.
pub open spec fn spec_index_cells(db: Seq<u8>, psz: int, p: u32) -> Result<Seq<(u32, u16)>, Error> {
    spec_btree_cells(db, psz, p, 0x0a, 0x02, spec_fuel(db, psz))
}

/// Gather every leaf cell of the table B-tree rooted at `page_no`.
pub fn collect_table_cells(db: &Vec<u8>, page_size: usize, page_no: u32) -> (r: Result<
    Vec<(u32, u16)>,
    Error,
>)
    requires
        1 <= page_size <= 65536,
    ensures
        match r {
            Ok(v) => spec_table_cells(db@, page_size as int, page_no) == Ok::<_, Error>(v@),
            Err(e) => spec_table_cells(db@, page_size as int, page_no) == Err::<Seq<(u32, u16)>, _>(
                e,
            ),
        },
{
    let fuel = compute_fuel(db, page_size);
    collect_btree_cells(db, page_size, page_no, 0x0d, 0x05, fuel)
}

/// Gather every leaf cell of the index B-tree rooted at `page_no`.
pub fn collect_index_cells(db: &Vec<u8>, page_size: usize, page_no: u32) -> (r: Result<
    Vec<(u32, u16)>,
    Error,
>)
    requires
        1 <= page_size <= 65536,
    ensures
        match r {
            Ok(v) => spec_index_cells(db@, page_size as int, page_no) == Ok::<_, Error>(v@),
            Err(e) => spec_index_cells(db@, page_size as int, page_no) == Err::<Seq<(u32, u16)>, _>(
                e,
            ),
        },
{
    let fuel = compute_fuel(db, page_size);
    collect_btree_cells(db, page_size, page_no, 0x0a, 0x02, fuel)
}

} // verus!
