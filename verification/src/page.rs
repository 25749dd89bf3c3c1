//! The pager and the B-tree page-header decoder.
//!
//! Pages are numbered from 1 and are `page_size` bytes long; page `p` starts
//! at byte `(p - 1) * page_size` of the database image. The B-tree header of
//! page 1 starts at offset 100, behind the file header; on every other page
//! it starts at offset 0.

use vstd::prelude::*;

use crate::bytes::{be16, be32, read_be16, read_be32};
use crate::error::Error;

verus! {

/// The byte offset of page `p` inside the database image.
pub open spec fn page_start(psz: int, p: u32) -> int {
    (p - 1) * psz
}

/// Whether page `p` lies wholly inside the database image.
pub open spec fn page_in_file(db: Seq<u8>, psz: int, p: u32) -> bool {
    1 <= psz && 1 <= p && page_start(psz, p) + psz <= db.len()
}

/// The bytes of page `p`.
pub open spec fn page_seq(db: Seq<u8>, psz: int, p: u32) -> Seq<u8> {
    db.subrange(page_start(psz, p), page_start(psz, p) + psz)
}

/// Fetch page `page_no` as a fresh buffer of exactly `page_size` bytes.
///
/// Fails with `CorruptPage` on page number 0 and with `ShortRead` when the
/// page would reach past the end of the image.
pub fn read_page(db: &Vec<u8>, page_size: usize, page_no: u32) -> (r: Result<Vec<u8>, Error>)
    requires
        1 <= page_size <= 65536,
    ensures
        match r {
            Ok(pg) => page_in_file(db@, page_size as int, page_no) && pg@ == page_seq(
                db@,
                page_size as int,
                page_no,
            ) && pg.len() == page_size,
            Err(e) => !page_in_file(db@, page_size as int, page_no) && e == (if page_no < 1 {
                Error::CorruptPage
            } else {
                Error::ShortRead
            }),
        },
{
    if page_no < 1 {
        return Err(Error::CorruptPage);
    }
    let a: u64 = (page_no - 1) as u64;
    let b: u64 = page_size as u64;
    proof {
        assert(a * b <= 0xffff_fffeu64 * 65536u64) by (nonlinear_arith)
            requires
                a <= 0xffff_fffeu64,
                b <= 65536u64,
        ;
    }
    let start64: u64 = a * b;
    if start64 > u64::MAX - (page_size as u64) || start64 + (page_size as u64) > (db.len() as u64) {
        return Err(Error::ShortRead);
    }
    let start = start64 as usize;
    let mut pg: Vec<u8> = Vec::new();
    let mut k: usize = 0;
    while k < page_size
        invariant
            0 <= k <= page_size,
            start + page_size <= db.len(),
            start == page_start(page_size as int, page_no),
            pg@ =~= db@.subrange(start as int, start + k),
        decreases page_size - k,
    {
        pg.push(db[start + k]);
        proof {
            assert(pg@ =~= db@.subrange(start as int, start + k + 1));
        }
        k = k + 1;
    }
    Ok(pg)
}

/// The offset of the B-tree page header inside page `p`.
pub open spec fn hdr_off(p: u32) -> int {
    if p == 1 {
        100
    } else {
        0
    }
}

/// The decoded B-tree page header.
#[derive(Clone, Copy, Debug)]
pub struct PageHeader {
    /// The page-type byte: 0x02, 0x05, 0x0A or 0x0D for the recognized
    /// kinds; any other value marks a page the walkers skip.
    pub page_type: u8,
    /// How many cells the page holds.
    pub cell_count: u16,
    /// Where the cell-pointer array begins, relative to the page start.
    pub cell_ptr_offset: usize,
    /// The right-child page number; present exactly on interior pages.
    pub right_child: Option<u32>,
}

/// Decode the B-tree header of page `p` from its buffer: the type byte, the
/// cell count, the position of the cell-pointer array (which follows the
/// 8-byte leaf or 12-byte interior header) and, on interior pages, the
/// right-child page number. Fails with `CorruptPage` when the header or the
/// whole cell-pointer array would reach past the page end.
pub open spec fn spec_page_header(pg: Seq<u8>, p: u32) -> Result<PageHeader, Error> {
    let h = hdr_off(p);
    if h + 8 > pg.len() {
        Err(Error::CorruptPage)
    } else {
        let t = pg[h];
        let cc = be16(pg, h + 3);
        if t == 0x02 || t == 0x05 {
            if h + 12 > pg.len() || h + 12 + 2 * cc > pg.len() {
                Err(Error::CorruptPage)
            } else {
                Ok(
                    PageHeader {
                        page_type: t,
                        cell_count: cc as u16,
                        cell_ptr_offset: (h + 12) as usize,
                        right_child: Some(be32(pg, h + 8) as u32),
                    },
                )
            }
        } else {
            if h + 8 + 2 * cc > pg.len() {
                Err(Error::CorruptPage)
            } else {
                Ok(
                    PageHeader {
                        page_type: t,
                        cell_count: cc as u16,
                        cell_ptr_offset: (h + 8) as usize,
                        right_child: None,
                    },
                )
            }
        }
    }
}

/// Decode the B-tree header of page `page_no` from its buffer.
pub fn parse_page_header(page: &Vec<u8>, page_no: u32) -> (r: Result<PageHeader, Error>)
    ensures
        r == spec_page_header(page@, page_no),
{
    let h: usize = if page_no == 1 {
        100
    } else {
        0
    };
    if page.len() < 8 || h > page.len() - 8 {
        return Err(Error::CorruptPage);
    }
    let t = page[h];
    let cc = read_be16(page, h + 3);
    if t == 0x02 || t == 0x05 {
        if page.len() < 12 || h > page.len() - 12 || (cc as usize) * 2 > page.len() - h - 12 {
            return Err(Error::CorruptPage);
        }
        Ok(
            PageHeader {
                page_type: t,
                cell_count: cc,
                cell_ptr_offset: h + 12,
                right_child: Some(read_be32(page, h + 8)),
            },
        )
    } else {
        if (cc as usize) * 2 > page.len() - h - 8 {
            return Err(Error::CorruptPage);
        }
        Ok(
            PageHeader {
                page_type: t,
                cell_count: cc,
                cell_ptr_offset: h + 8,
                right_child: None,
            },
        )
    }
}

/// The `i`-th entry of a page's cell-pointer array.
pub open spec fn spec_cell_ptr(pg: Seq<u8>, hdr: PageHeader, i: int) -> int {
    be16(pg, hdr.cell_ptr_offset + 2 * i)
}

/// Read the `i`-th entry of the cell-pointer array.
pub fn cell_pointer(page: &Vec<u8>, hdr: &PageHeader, i: usize) -> (r: u16)
    requires
        i < hdr.cell_count,
        hdr.cell_ptr_offset + 2 * hdr.cell_count <= page.len(),
    ensures
        r == spec_cell_ptr(page@, *hdr, i as int),
{
    read_be16(page, hdr.cell_ptr_offset + 2 * i)
}

} // verus!
