use sqlite_reader::bytes::{ascii_lower, bytes_eq_ignore_case, find_sub, read_be_uint, u64_to_decimal};
use sqlite_reader::ddl::{split_commas_vec, trim_quotes, trim_ws};
use sqlite_reader::page::parse_page_header;
use sqlite_reader::sql::{tokenize, Token};

fn v(s: &str) -> Vec<u8> {
    s.as_bytes().to_vec()
}

#[test]
fn decimal_rendering() {
    assert_eq!(u64_to_decimal(0), v("0"));
    assert_eq!(u64_to_decimal(7), v("7"));
    assert_eq!(u64_to_decimal(40960), v("40960"));
    assert_eq!(u64_to_decimal(u64::MAX), v("18446744073709551615"));
}

#[test]
fn big_endian_fold() {
    assert_eq!(read_be_uint(&vec![]), 0);
    assert_eq!(read_be_uint(&vec![0x12]), 0x12);
    assert_eq!(read_be_uint(&vec![0x12, 0x34]), 0x1234);
    assert_eq!(read_be_uint(&vec![1, 0, 0, 0, 0, 0, 0, 0]), 1 << 56);
}

#[test]
fn ascii_case_folding() {
    assert_eq!(ascii_lower(&v("CREATE Table X_9;")), v("create table x_9;"));
    assert!(bytes_eq_ignore_case(&v("CoLoR"), &v("color")));
    assert!(!bytes_eq_ignore_case(&v("color"), &v("colour")));
}

#[test]
fn substring_search() {
    assert!(find_sub(&v("create index on t(c)"), &v("create index")));
    assert!(find_sub(&v("abc"), &v("")));
    assert!(find_sub(&v("abcabd"), &v("abd")));
    assert!(!find_sub(&v("abcab"), &v("abd")));
    assert!(!find_sub(&v("ab"), &v("abc")));
}

#[test]
fn trimming() {
    assert_eq!(trim_ws(&v("  name TEXT \n")), v("name TEXT"));
    assert_eq!(trim_ws(&v("")), v(""));
    assert_eq!(trim_ws(&v("   ")), v(""));
    assert_eq!(trim_quotes(&v("\"id\"")), v("id"));
    assert_eq!(trim_quotes(&v("[color]")), v("color"));
    assert_eq!(trim_quotes(&v("`name`")), v("name"));
}

#[test]
fn comma_splitting_keeps_empty_pieces() {
    let parts = split_commas_vec(&v("a, b,,c"));
    assert_eq!(parts, vec![v("a"), v(" b"), v(""), v("c")]);
    assert_eq!(split_commas_vec(&v("abc")), vec![v("abc")]);
}

#[test]
fn tokenizer_token_kinds() {
    let toks = tokenize(&v("SELECT a,b FROM t WHERE c = 'x y';")).unwrap();
    let words: Vec<String> = toks
        .iter()
        .map(|t| match t {
            Token::Word(w) => format!("w:{}", String::from_utf8(w.clone()).unwrap()),
            Token::StrLit(s) => format!("s:{}", String::from_utf8(s.clone()).unwrap()),
            Token::Comma => ",".to_string(),
            Token::Semi => ";".to_string(),
            Token::Eq => "=".to_string(),
            Token::LParen => "(".to_string(),
            Token::RParen => ")".to_string(),
        })
        .collect();
    assert_eq!(
        words,
        vec!["w:SELECT", "w:a", ",", "w:b", "w:FROM", "w:t", "w:WHERE", "w:c", "=", "s:x y", ";"]
    );
}

#[test]
fn tokenizer_unterminated_string() {
    assert!(tokenize(&v("SELECT 'oops")).is_none());
}

#[test]
fn page_header_fields() {
    // A leaf page: type byte, cell count 2, pointer array at 8.
    let mut page = vec![0u8; 64];
    page[0] = 0x0d;
    page[3] = 0;
    page[4] = 2;
    let h = parse_page_header(&page, 2).unwrap();
    assert_eq!(h.page_type, 0x0d);
    assert_eq!(h.cell_count, 2);
    assert_eq!(h.cell_ptr_offset, 8);
    assert_eq!(h.right_child, None);
    // An interior page carries a right child and a 12-byte header.
    let mut page = vec![0u8; 64];
    page[0] = 0x05;
    page[4] = 1;
    page[8..12].copy_from_slice(&7u32.to_be_bytes());
    let h = parse_page_header(&page, 2).unwrap();
    assert_eq!(h.page_type, 0x05);
    assert_eq!(h.cell_ptr_offset, 12);
    assert_eq!(h.right_child, Some(7));
}

#[test]
fn page_one_header_sits_behind_the_file_header() {
    let mut page = vec![0u8; 256];
    page[100] = 0x0d;
    page[104] = 1;
    let h = parse_page_header(&page, 1).unwrap();
    assert_eq!(h.cell_ptr_offset, 108);
}
