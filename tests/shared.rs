use qpl_parser::lexer::ParseError;
use qpl_parser::names::{column_in_table, column_name, table_name};
use qpl_parser::schemas::concert_singer;
use qpl_parser::shared::input_ids;
use qpl_parser::state::QplState;

fn stadium_index() -> usize {
    0
}

#[test]
fn test_table_name_complete_table_exists() {
    let sc = concert_singer();
    let (t, _) = table_name(&sc, b"singer", 0, false).unwrap();
    assert_eq!(sc.table_names[t], b"singer".to_vec());
}

#[test]
fn test_table_name_partial_parse() {
    let sc = concert_singer();
    match table_name(&sc, b"sing", 0, true) {
        Err(ParseError::Incomplete) => {}
        _ => panic!("\"sing\" should be a partial parse of the table \"singer\""),
    }
}

#[test]
fn test_table_name_table_does_not_exist() {
    let sc = concert_singer();
    assert!(table_name(&sc, b"foobar", 0, true).is_err());
}

#[test]
fn test_input_ids_one_id() {
    let mut st = QplState::new();
    st.mark_seen(1);
    let (output, _) = input_ids(&st, b"[ #1 ] ", 0, true).unwrap();
    assert_eq!(output, vec![1]);
}

#[test]
fn test_input_ids_two_ids() {
    let mut st = QplState::new();
    st.mark_seen(1);
    st.mark_seen(2);
    let (output, _) = input_ids(&st, b"[ #1, #2 ] ", 0, true).unwrap();
    assert_eq!(output, vec![1, 2]);
}

#[test]
fn test_input_ids_fails_if_ids_not_seen() {
    let st = QplState::new();
    assert!(input_ids(&st, b"[ #1, #2 ] ", 0, true).is_err());
}

#[test]
fn test_column_name_returns_original_column_name() {
    let sc = concert_singer();
    let (output, _) = column_name(&sc, b"stadium_id", 0, true).unwrap();
    assert_eq!(output, b"Stadium_ID".to_vec());
}

#[test]
fn test_column_in_table_returns_existing_column_without_alias() {
    let sc = concert_singer();
    let ((column, alias, _), _) = column_in_table(&sc, stadium_index(), b"Stadium_ID", 0, false).unwrap();
    assert_eq!(column, b"Stadium_ID".to_vec());
    assert!(alias.is_none());
}

#[test]
fn test_column_in_table_returns_existing_column_with_alias() {
    let sc = concert_singer();
    let ((column, alias, _), _) =
        column_in_table(&sc, stadium_index(), b"Stadium_ID AS sid", 0, false).unwrap();
    assert_eq!(column, b"Stadium_ID".to_vec());
    assert_eq!(alias, Some(b"sid".to_vec()));
}

#[test]
fn column_in_table_rejects_column_of_other_table() {
    let sc = concert_singer();
    assert_eq!(
        column_in_table(&sc, stadium_index(), b"Year", 0, false),
        Err(ParseError::Mismatch)
    );
}

#[test]
fn input_ids_allows_three_ids_not() {
    let mut st = QplState::new();
    st.mark_seen(1);
    st.mark_seen(2);
    st.mark_seen(3);
    assert!(input_ids(&st, b"[ #1, #2, #3 ] ", 0, false).is_err());
}
