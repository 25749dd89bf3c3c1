//! The DDL column resolver: from the stored `CREATE TABLE` text and a
//! column name, the zero-based position of that column.
//!
//! The algorithm isolates the text between the first `(` and the last `)`,
//! splits it on every comma, takes the first whitespace-delimited token of
//! each piece, strips surrounding quote characters, and compares
//! ASCII-case-insensitively against the requested name.

use vstd::prelude::*;

use crate::bytes::{bytes_eq_ignore_case, spec_lower};
use crate::error::Error;

verus! {

/// Whether `b` is an ASCII whitespace byte.
pub open spec fn is_ws(b: u8) -> bool {
    b == 0x20 || b == 0x09 || b == 0x0a || b == 0x0b || b == 0x0c || b == 0x0d
}

/// Test a byte for ASCII whitespace.
pub fn is_ws_byte(b: u8) -> (r: bool)
    ensures
        r == is_ws(b),
{
    b == 0x20 || b == 0x09 || b == 0x0a || b == 0x0b || b == 0x0c || b == 0x0d
}

/// Whether `b` is one of the quote characters stripped around column names:
/// `"`, a backquote, `[` or `]`.
pub open spec fn is_quote(b: u8) -> bool {
    b == 0x22 || b == 0x60 || b == 0x5b || b == 0x5d
}

/// Test a byte for a quote character.
pub fn is_quote_byte(b: u8) -> (r: bool)
    ensures
        r == is_quote(b),
{
    b == 0x22 || b == 0x60 || b == 0x5b || b == 0x5d
}

/// Copy `s[from .. to]` into a fresh buffer.
pub fn subvec(s: &Vec<u8>, from: usize, to: usize) -> (r: Vec<u8>)
    requires
        from <= to <= s.len(),
    ensures
        r@ == s@.subrange(from as int, to as int),
{
    let mut out: Vec<u8> = Vec::new();
    let mut k: usize = from;
    proof {
        assert(out@ =~= s@.subrange(from as int, from as int));
    }
    while k < to
        invariant
            from <= k <= to <= s.len(),
            out@ =~= s@.subrange(from as int, k as int),
        decreases to - k,
    {
        out.push(s[k]);
        proof {
            assert(out@ =~= s@.subrange(from as int, k + 1));
        }
        k = k + 1;
    }
    out
}

/// The position of the first occurrence of `b` in `s`.
pub open spec fn find_byte(s: Seq<u8>, b: u8) -> Option<int>
    decreases s.len(),
{
    if s.len() == 0 {
        None
    } else if s[0] == b {
        Some(0)
    } else {
        match find_byte(s.drop_first(), b) {
            Some(i) => Some(i + 1),
            None => None,
        }
    }
}

/// `find_byte` names the first occurrence: the byte there is `b` and none
/// before it is.
pub proof fn lemma_find_byte(s: Seq<u8>, b: u8)
    ensures
        match find_byte(s, b) {
            Some(i) => 0 <= i < s.len() && s[i] == b && forall|k: int| 0 <= k < i ==> s[k] != b,
            None => forall|k: int| 0 <= k < s.len() ==> s[k] != b,
        },
    decreases s.len(),
{
    if s.len() > 0 && s[0] != b {
        lemma_find_byte(s.drop_first(), b);
        if find_byte(s.drop_first(), b) is Some {
            let j = find_byte(s.drop_first(), b)->Some_0;
            assert forall|k: int| 0 <= k < j + 1 implies s[k] != b by {
                if k > 0 {
                    assert(s.drop_first()[k - 1] != b);
                    assert(s.drop_first()[k - 1] == s[k]);
                }
            }
        } else {
            assert forall|k: int| 0 <= k < s.len() implies s[k] != b by {
                if k > 0 {
                    assert(s.drop_first()[k - 1] != b);
                    assert(s.drop_first()[k - 1] == s[k]);
                }
            }
        }
    }
}

/// The position of the last occurrence of `b` in `s`.
pub open spec fn rfind_byte(s: Seq<u8>, b: u8) -> Option<int>
    decreases s.len(),
{
    if s.len() == 0 {
        None
    } else if s.last() == b {
        Some(s.len() - 1)
    } else {
        rfind_byte(s.drop_last(), b)
    }
}

/// `rfind_byte` names the last occurrence: the byte there is `b` and none
/// after it is.
pub proof fn lemma_rfind_byte(s: Seq<u8>, b: u8)
    ensures
        match rfind_byte(s, b) {
            Some(i) => 0 <= i < s.len() && s[i] == b && forall|k: int| i < k < s.len() ==> s[k]
                != b,
            None => forall|k: int| 0 <= k < s.len() ==> s[k] != b,
        },
    decreases s.len(),
{
    if s.len() > 0 && s.last() != b {
        lemma_rfind_byte(s.drop_last(), b);
        if rfind_byte(s.drop_last(), b) is Some {
            let j = rfind_byte(s.drop_last(), b)->Some_0;
            assert forall|k: int| j < k < s.len() implies s[k] != b by {
                if k < s.len() - 1 {
                    assert(s.drop_last()[k] != b);
                    assert(s.drop_last()[k] == s[k]);
                }
            }
        } else {
            assert forall|k: int| 0 <= k < s.len() implies s[k] != b by {
                if k < s.len() - 1 {
                    assert(s.drop_last()[k] != b);
                    assert(s.drop_last()[k] == s[k]);
                }
            }
        }
    }
}

/// Search forward for the first occurrence of `b`.
pub fn find_byte_vec(s: &Vec<u8>, b: u8) -> (r: Option<usize>)
    ensures
        match r {
            Some(i) => find_byte(s@, b) == Some(i as int),
            None => find_byte(s@, b) is None,
        },
{
    proof {
        lemma_find_byte(s@, b);
    }
    let mut i: usize = 0;
    while i < s.len()
        invariant
            0 <= i <= s.len(),
            forall|k: int| 0 <= k < i ==> s@[k] != b,
            match find_byte(s@, b) {
                Some(j) => 0 <= j < s@.len() && s@[j] == b && forall|k: int|
                    0 <= k < j ==> s@[k] != b,
                None => forall|k: int| 0 <= k < s@.len() ==> s@[k] != b,
            },
        decreases s.len() - i,
    {
        if s[i] == b {
            return Some(i);
        }
        i = i + 1;
    }
    None
}

/// Search backward for the last occurrence of `b`.
pub fn rfind_byte_vec(s: &Vec<u8>, b: u8) -> (r: Option<usize>)
    ensures
        match r {
            Some(i) => rfind_byte(s@, b) == Some(i as int),
            None => rfind_byte(s@, b) is None,
        },
{
    proof {
        lemma_rfind_byte(s@, b);
    }
    let mut i: usize = s.len();
    while i > 0
        invariant
            0 <= i <= s.len(),
            forall|k: int| i <= k < s.len() ==> s@[k] != b,
            match rfind_byte(s@, b) {
                Some(j) => 0 <= j < s@.len() && s@[j] == b && forall|k: int|
                    j < k < s@.len() ==> s@[k] != b,
                None => forall|k: int| 0 <= k < s@.len() ==> s@[k] != b,
            },
        decreases i,
    {
        i = i - 1;
        if s[i] == b {
            return Some(i);
        }
    }
    None
}

/// The pieces of `s` between its commas, in order; splitting on every comma
/// and keeping empty pieces.
pub open spec fn split_commas(s: Seq<u8>) -> Seq<Seq<u8>>
    decreases s.len(),
    via split_commas_dec
{
    match find_byte(s, 0x2c) {
        None => seq![s],
        Some(i) => seq![s.subrange(0, i)] + split_commas(s.skip(i + 1)),
    }
}

#[via_fn]
proof fn split_commas_dec(s: Seq<u8>) {
    lemma_find_byte(s, 0x2c);
}

/// Split `s` on every comma.
pub fn split_commas_vec(s: &Vec<u8>) -> (r: Vec<Vec<u8>>)
    ensures
        r.deep_view() == split_commas(s@),
{
    let mut out: Vec<Vec<u8>> = Vec::new();
    let mut start: usize = 0;
    proof {
        assert(s@.skip(0) =~= s@);
        assert(out.deep_view() + split_commas(s@) =~~= split_commas(s@));
    }
    loop
        invariant
            0 <= start <= s.len(),
            split_commas(s@) == out.deep_view() + split_commas(s@.skip(start as int)),
        decreases s.len() - start,
    {
        let rest = subvec(s, start, s.len());
        match find_byte_vec(&rest, 0x2c) {
            None => {
                let ghost oldd = out.deep_view();
                let ghost rr = rest@;
                out.push(rest);
                proof {
                    assert(out.deep_view() =~~= oldd.push(rr));
                    assert(split_commas(s@.skip(start as int)) == seq![rr]);
                    assert(oldd + seq![rr] =~~= oldd.push(rr));
                }
                return out;
            },
            Some(j) => {
                proof {
                    lemma_find_byte(rest@, 0x2c);
                }
                let part = subvec(&rest, 0, j);
                let ghost oldd = out.deep_view();
                let ghost pp = part@;
                out.push(part);
                proof {
                    assert(out.deep_view() =~~= oldd.push(pp));
                    assert(pp =~= s@.skip(start as int).subrange(0, j as int));
                    assert(s@.skip(start as int).skip(j + 1) =~= s@.skip(start + j + 1));
                    assert(split_commas(s@.skip(start as int)) == seq![pp] + split_commas(
                        s@.skip(start + j + 1),
                    ));
                    assert(oldd + (seq![pp] + split_commas(s@.skip(start + j + 1))) =~~= oldd.push(
                        pp,
                    ) + split_commas(s@.skip(start + j + 1)));
                }
                start = start + j + 1;
            },
        }
    }
}

/// `s` with leading and trailing ASCII whitespace removed.
pub open spec fn spec_trim_ws(s: Seq<u8>) -> Seq<u8>
    decreases s.len(),
{
    if s.len() > 0 && is_ws(s[0]) {
        spec_trim_ws(s.drop_first())
    } else if s.len() > 0 && is_ws(s.last()) {
        spec_trim_ws(s.drop_last())
    } else {
        s
    }
}

/// Trim ASCII whitespace from both ends.
pub fn trim_ws(s: &Vec<u8>) -> (r: Vec<u8>)
    ensures
        r@ == spec_trim_ws(s@),
    decreases s.len(),
{
    if s.len() > 0 && is_ws_byte(s[0]) {
        let t = subvec(s, 1, s.len());
        proof {
            assert(t@ =~= s@.drop_first());
        }
        trim_ws(&t)
    } else if s.len() > 0 && is_ws_byte(s[s.len() - 1]) {
        let t = subvec(s, 0, s.len() - 1);
        proof {
            assert(t@ =~= s@.drop_last());
        }
        trim_ws(&t)
    } else {
        subvec(s, 0, s.len())
    }
}

/// `s` with leading and trailing quote characters removed.
pub open spec fn spec_trim_quotes(s: Seq<u8>) -> Seq<u8>
    decreases s.len(),
{
    if s.len() > 0 && is_quote(s[0]) {
        spec_trim_quotes(s.drop_first())
    } else if s.len() > 0 && is_quote(s.last()) {
        spec_trim_quotes(s.drop_last())
    } else {
        s
    }
}

/// Trim quote characters from both ends.
pub fn trim_quotes(s: &Vec<u8>) -> (r: Vec<u8>)
    ensures
        r@ == spec_trim_quotes(s@),
    decreases s.len(),
{
    if s.len() > 0 && is_quote_byte(s[0]) {
        let t = subvec(s, 1, s.len());
        proof {
            assert(t@ =~= s@.drop_first());
        }
        trim_quotes(&t)
    } else if s.len() > 0 && is_quote_byte(s[s.len() - 1]) {
        let t = subvec(s, 0, s.len() - 1);
        proof {
            assert(t@ =~= s@.drop_last());
        }
        trim_quotes(&t)
    } else {
        subvec(s, 0, s.len())
    }
}

/// The position right after the token that starts at `i`: the first
/// position at or after `i` holding whitespace, or the end.
pub open spec fn token_end(s: Seq<u8>, i: int) -> int
    decreases s.len() - i,
{
    if i < 0 || i >= s.len() || is_ws(s[i]) {
        i
    } else {
        token_end(s, i + 1)
    }
}

/// Find where the token starting at position 0 ends.
pub fn find_token_end(s: &Vec<u8>) -> (r: usize)
    ensures
        r == token_end(s@, 0),
{
    let mut i: usize = 0;
    while i < s.len() && !is_ws_byte(s[i])
        invariant
            0 <= i <= s.len(),
            token_end(s@, 0) == token_end(s@, i as int),
        decreases s.len() - i,
    {
        i = i + 1;
    }
    i
}

/// Whether one comma-separated piece of the DDL declares the column
/// `name`: its trimmed text is nonempty and its first token, stripped of
/// quote characters, equals `name` up to ASCII case.
pub open spec fn spec_col_match(part: Seq<u8>, name: Seq<u8>) -> bool {
    let t = spec_trim_ws(part);
    t.len() > 0 && spec_lower(spec_trim_quotes(t.subrange(0, token_end(t, 0)))) == spec_lower(name)
}

/// Decide whether one DDL piece declares the column `name`.
pub fn col_match(part: &Vec<u8>, name: &Vec<u8>) -> (r: bool)
    ensures
        r == spec_col_match(part@, name@),
{
    let t = trim_ws(part);
    if t.len() == 0 {
        return false;
    }
    let te = find_token_end(&t);
    proof {
        assert(0 <= token_end(t@, 0) <= t@.len()) by {
            lemma_token_end_bounds(t@, 0);
        }
    }
    let tok = subvec(&t, 0, te);
    let clean = trim_quotes(&tok);
    bytes_eq_ignore_case(&clean, name)
}

/// The end of a token never lies before its start nor past the buffer.
pub proof fn lemma_token_end_bounds(s: Seq<u8>, i: int)
    requires
        0 <= i <= s.len(),
    ensures
        i <= token_end(s, i) <= s.len(),
    decreases s.len() - i,
{
    if i < s.len() && !is_ws(s[i]) {
        lemma_token_end_bounds(s, i + 1);
    }
}

/// The position of the first DDL piece that declares `name`.
pub open spec fn find_col(parts: Seq<Seq<u8>>, name: Seq<u8>) -> Option<int>
    decreases parts.len(),
{
    if parts.len() == 0 {
        None
    } else if spec_col_match(parts[0], name) {
        Some(0)
    } else {
        match find_col(parts.drop_first(), name) {
            Some(i) => Some(i + 1),
            None => None,
        }
    }
}

/// `find_col` names the first declaring piece.
pub proof fn lemma_find_col(parts: Seq<Seq<u8>>, name: Seq<u8>)
    ensures
        match find_col(parts, name) {
            Some(i) => 0 <= i < parts.len() && spec_col_match(parts[i], name) && forall|k: int|
                0 <= k < i ==> !spec_col_match(parts[k], name),
            None => forall|k: int| 0 <= k < parts.len() ==> !spec_col_match(parts[k], name),
        },
    decreases parts.len(),
{
    if parts.len() > 0 && !spec_col_match(parts[0], name) {
        lemma_find_col(parts.drop_first(), name);
        if find_col(parts.drop_first(), name) is Some {
            let j = find_col(parts.drop_first(), name)->Some_0;
            assert forall|k: int| 0 <= k < j + 1 implies !spec_col_match(parts[k], name) by {
                if k > 0 {
                    assert(!spec_col_match(parts.drop_first()[k - 1], name));
                    assert(parts.drop_first()[k - 1] == parts[k]);
                }
            }
        } else {
            assert forall|k: int| 0 <= k < parts.len() implies !spec_col_match(parts[k], name) by {
                if k > 0 {
                    assert(!spec_col_match(parts.drop_first()[k - 1], name));
                    assert(parts.drop_first()[k - 1] == parts[k]);
                }
            }
        }
    }
}

/// Where the requested column stands in the stored `CREATE TABLE` text.
///
/// `MalformedDdl` when the text lacks an opening or a closing parenthesis
/// in order; `UnknownColumn` when no piece declares the name.
pub open spec fn spec_get_column_index(sql: Seq<u8>, name: Seq<u8>) -> Result<int, Error> {
    match find_byte(sql, 0x28) {
        None => Err(Error::MalformedDdl),
        Some(p) => match rfind_byte(sql, 0x29) {
            None => Err(Error::MalformedDdl),
            Some(q) => {
                if p + 1 > q {
                    Err(Error::MalformedDdl)
                } else {
                    match find_col(split_commas(sql.subrange(p + 1, q)), name) {
                        Some(i) => Ok(i),
                        None => Err(Error::UnknownColumn),
                    }
                }
            },
        },
    }
}

/// Resolve `column_name` to its zero-based position in the columns of the
/// stored `CREATE TABLE` text.
pub fn get_column_index_from_sql(sql: &Vec<u8>, column_name: &Vec<u8>) -> (r: Result<usize, Error>)
    ensures
        match r {
            Ok(i) => spec_get_column_index(sql@, column_name@) == Ok::<int, Error>(i as int),
            Err(e) => spec_get_column_index(sql@, column_name@) == Err::<int, _>(e),
        },
{
    let p = match find_byte_vec(sql, 0x28) {
        Some(p) => p,
        None => {
            return Err(Error::MalformedDdl);
        },
    };
    let q = match rfind_byte_vec(sql, 0x29) {
        Some(q) => q,
        None => {
            return Err(Error::MalformedDdl);
        },
    };
    proof {
        lemma_find_byte(sql@, 0x28);
        lemma_rfind_byte(sql@, 0x29);
        assert(p < sql.len());
        assert(q < sql.len());
    }
    if p + 1 > q {
        return Err(Error::MalformedDdl);
    }
    let inner = subvec(sql, p + 1, q);
    let parts = split_commas_vec(&inner);
    let ghost pv = parts.deep_view();
    proof {
        lemma_find_col(pv, column_name@);
        assert(pv == split_commas(sql@.subrange(p + 1, q as int)));
    }
    let mut i: usize = 0;
    while i < parts.len()
        invariant
            0 <= i <= parts.len(),
            pv == parts.deep_view(),
            pv.len() == parts.len(),
            find_byte(sql@, 0x28) == Some(p as int),
            rfind_byte(sql@, 0x29) == Some(q as int),
            p + 1 <= q < sql.len(),
            pv == split_commas(sql@.subrange(p + 1, q as int)),
            forall|k: int| 0 <= k < i ==> !spec_col_match(pv[k], column_name@),
            match find_col(pv, column_name@) {
                Some(j) => 0 <= j < pv.len() && spec_col_match(pv[j], column_name@) && forall|
                    k: int,
                |
                    0 <= k < j ==> !spec_col_match(pv[k], column_name@),
                None => forall|k: int| 0 <= k < pv.len() ==> !spec_col_match(pv[k], column_name@),
            },
        decreases parts.len() - i,
    {
        proof {
            assert(pv[i as int] == parts@[i as int].deep_view());
            assert(parts@[i as int].deep_view() =~= parts@[i as int]@);
        }
        if col_match(&parts[i], column_name) {
            return Ok(i);
        }
        i = i + 1;
    }
    Err(Error::UnknownColumn)
}

} // verus!
