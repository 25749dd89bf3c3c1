use sqlite_reader::ddl::get_column_index_from_sql;
use sqlite_reader::error::Error;
use sqlite_reader::sql::{
    parse_select_columns_query, parse_select_columns_where_query, parse_table_name,
};

fn v(s: &str) -> Vec<u8> {
    s.as_bytes().to_vec()
}

#[test]
fn column_positions_follow_the_ddl() {
    let sql = v("CREATE TABLE apples (id INTEGER PRIMARY KEY, name TEXT, color TEXT)");
    assert_eq!(get_column_index_from_sql(&sql, &v("id")), Ok(0));
    assert_eq!(get_column_index_from_sql(&sql, &v("name")), Ok(1));
    assert_eq!(get_column_index_from_sql(&sql, &v("color")), Ok(2));
}

#[test]
fn column_lookup_ignores_ascii_case() {
    let sql = v("CREATE TABLE t (Id INTEGER, NAME TEXT)");
    assert_eq!(get_column_index_from_sql(&sql, &v("ID")), Ok(0));
    assert_eq!(get_column_index_from_sql(&sql, &v("name")), Ok(1));
}

#[test]
fn column_names_lose_their_quotes() {
    let sql = v("CREATE TABLE t (\"id\" INTEGER, `name` TEXT, [color] TEXT)");
    assert_eq!(get_column_index_from_sql(&sql, &v("id")), Ok(0));
    assert_eq!(get_column_index_from_sql(&sql, &v("name")), Ok(1));
    assert_eq!(get_column_index_from_sql(&sql, &v("color")), Ok(2));
}

#[test]
fn column_lookup_spans_newlines() {
    let sql = v("CREATE TABLE t (\n  id INTEGER,\n  name TEXT\n)");
    assert_eq!(get_column_index_from_sql(&sql, &v("name")), Ok(1));
}

#[test]
fn unknown_column_is_reported() {
    let sql = v("CREATE TABLE t (id INTEGER)");
    assert_eq!(get_column_index_from_sql(&sql, &v("taste")), Err(Error::UnknownColumn));
}

#[test]
fn malformed_ddl_is_reported() {
    assert_eq!(get_column_index_from_sql(&v("CREATE TABLE t"), &v("id")), Err(Error::MalformedDdl));
    assert_eq!(
        get_column_index_from_sql(&v("CREATE TABLE t (id"), &v("id")),
        Err(Error::MalformedDdl)
    );
    assert_eq!(get_column_index_from_sql(&v(") t ("), &v("id")), Err(Error::MalformedDdl));
}

#[test]
fn table_name_comes_from_the_query() {
    assert_eq!(parse_table_name(&v("SELECT COUNT(*) FROM apples")), Ok(v("apples")));
    assert_eq!(parse_table_name(&v("SELECT COUNT(*) FROM apples;")), Ok(v("apples")));
    assert_eq!(parse_table_name(&v("select count(*) from Oranges")), Ok(v("Oranges")));
    assert_eq!(parse_table_name(&v("SELECT name FROM pears")), Ok(v("pears")));
    assert_eq!(parse_table_name(&v(".dbinfo")), Err(Error::UnknownCommand));
}

#[test]
fn select_columns_are_split_on_commas() {
    let (cols, table) = parse_select_columns_query(&v("SELECT name, color FROM apples")).unwrap();
    assert_eq!(cols, vec![v("name"), v("color")]);
    assert_eq!(table, v("apples"));
}

#[test]
fn select_single_column_parses() {
    let (cols, table) = parse_select_columns_query(&v("SELECT name FROM apples;")).unwrap();
    assert_eq!(cols, vec![v("name")]);
    assert_eq!(table, v("apples"));
}

#[test]
fn where_clause_parses_quoted_literal() {
    let (cols, table, wc, wv) = parse_select_columns_where_query(&v(
        "SELECT name, color FROM apples WHERE color = 'Yellow'",
    ))
    .unwrap();
    assert_eq!(cols, vec![v("name"), v("color")]);
    assert_eq!(table, v("apples"));
    assert_eq!(wc, v("color"));
    assert_eq!(wv, v("Yellow"));
}

#[test]
fn where_clause_parses_bareword_literal() {
    let (_, _, wc, wv) =
        parse_select_columns_where_query(&v("SELECT id FROM t WHERE k = 42;")).unwrap();
    assert_eq!(wc, v("k"));
    assert_eq!(wv, v("42"));
}

#[test]
fn where_literal_keeps_inner_spaces() {
    let (_, _, _, wv) =
        parse_select_columns_where_query(&v("SELECT name FROM apples WHERE color = 'Light Green'"))
            .unwrap();
    assert_eq!(wv, v("Light Green"));
}

#[test]
fn malformed_queries_are_unknown_commands() {
    assert_eq!(
        parse_select_columns_where_query(&v("SELECT name FROM apples WHERE color =")),
        Err(Error::UnknownCommand)
    );
    assert_eq!(parse_select_columns_query(&v("name FROM apples")), Err(Error::UnknownCommand));
    assert_eq!(parse_select_columns_query(&v("SELECT , FROM apples")), Err(Error::UnknownCommand));
    assert_eq!(parse_select_columns_query(&v("")), Err(Error::UnknownCommand));
}

#[test]
fn where_query_without_filter_is_not_a_where_query() {
    assert_eq!(
        parse_select_columns_where_query(&v("SELECT name FROM apples")),
        Err(Error::UnknownCommand)
    );
}
