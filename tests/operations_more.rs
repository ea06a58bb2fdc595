use qpl_parser::api::parse_program;
use qpl_parser::domain::{Column, ColumnType, ExceptOperator, Operation, Table};
use qpl_parser::lexer::ParseError;
use qpl_parser::schemas::concert_singer;

fn ok(program: &str) -> Vec<qpl_parser::domain::Line> {
    let sc = concert_singer();
    match parse_program(&sc, true, program, false) {
        Ok((lines, _)) => lines,
        Err(e) => panic!("{:?}: {}", e, program),
    }
}

fn fails(program: &str) {
    let sc = concert_singer();
    assert!(parse_program(&sc, true, program, false).is_err(), "{}", program);
}

#[test]
fn filter_keeps_named_and_aggregate_columns() {
    let lines = ok("#1 = Scan Table [ singer ] Output [ Age , Country ] ; #2 = Aggregate [ #1 ] GroupBy [ Country ] Output [ Country , AVG(Age) AS Avg_Age ] ; #3 = Filter [ #2 ] Predicate [ Avg_Age > 30 ] Output [ Country , Avg_Age ]");
    assert!(matches!(lines[2].operation, Operation::Filter { input: 2, is_distinct: false, .. }));
}

#[test]
fn filter_with_dummy_output() {
    ok("#1 = Scan Table [ singer ] Output [ Age ] ; #2 = Filter [ #1 ] Predicate [ Age > 30 ] Output [ 1 AS One ]");
}

#[test]
fn filter_rejects_two_inputs() {
    fails("#1 = Scan Table [ singer ] Output [ Age ] ; #2 = Scan Table [ singer ] Output [ Age ] ; #3 = Filter [ #1, #2 ] Output [ Age ]");
}

#[test]
fn top_and_sort() {
    let lines = ok("#1 = Scan Table [ singer ] Output [ Name , Age ] ; #2 = Sort [ #1 ] OrderBy [ Age ASC , Name DESC ] Output [ Name , Age ] ; #3 = Top [ #2 ] Rows [ 3 ] Output [ Name ]");
    assert_eq!(
        lines[1].operation,
        Operation::Sort {
            input: 1,
            order_by: vec![b"Age ASC".to_vec(), b"Name DESC".to_vec()],
            is_distinct: false
        }
    );
    assert_eq!(lines[2].operation, Operation::Top { input: 2, rows: 3 });
}

#[test]
fn top_sort_with_ties() {
    let lines = ok("#1 = Scan Table [ singer ] Output [ Name , Age ] ; #2 = TopSort [ #1 ] Rows [ 1 ] OrderBy [ Age DESC ] WithTies [ true ] Output [ Name ]");
    assert_eq!(
        lines[1].operation,
        Operation::TopSort { input: 1, rows: 1, order_by: vec![b"Age DESC".to_vec()], with_ties: true }
    );
}

#[test]
fn sort_by_a_column_the_input_lacks_fails() {
    fails("#1 = Scan Table [ singer ] Output [ Name ] ; #2 = Sort [ #1 ] OrderBy [ Age ASC ] Output [ Name ]");
}

#[test]
fn union_and_intersect() {
    let lines = ok("#1 = Scan Table [ singer ] Output [ Name ] ; #2 = Scan Table [ stadium ] Output [ Name ] ; #3 = Union [ #1 , #2 ] Output [ #1.Name ] ; #4 = Intersect [ #1 , #2 ] Predicate [ #1.Name = #2.Name ] Output [ #2.Name ]");
    assert_eq!(lines[2].operation, Operation::Union { inputs: vec![1, 2] });
    assert!(matches!(lines[3].operation, Operation::Intersect { .. }));
}

#[test]
fn except_columns() {
    let lines = ok("#1 = Scan Table [ stadium ] Output [ Stadium_ID , Name ] ; #2 = Scan Table [ concert ] Output [ Stadium_ID ] ; #3 = Except [ #1 , #2 ] ExceptColumns [ #2.Stadium_ID ] Output [ #1.Name ]");
    assert_eq!(
        lines[2].operation,
        Operation::Except {
            inputs: vec![1, 2],
            operator: ExceptOperator::ExceptColumn(b"Stadium_ID".to_vec()),
            is_distinct: false
        }
    );
}

#[test]
fn join_requires_key_link_on_equality() {
    // Stadium_ID (foreign key) against Name (no key) is rejected
    fails("#1 = Scan Table [ stadium ] Output [ Stadium_ID , Name ] ; #2 = Scan Table [ concert ] Output [ Stadium_ID , Theme ] ; #3 = Join [ #1 , #2 ] Predicate [ #2.Stadium_ID = #1.Name ] Output [ #1.Name ]");
    // without type checking the same join is accepted
    let sc = concert_singer();
    assert!(parse_program(&sc, false, "#1 = Scan Table [ stadium ] Output [ Stadium_ID , Name ] ; #2 = Scan Table [ concert ] Output [ Stadium_ID , Theme ] ; #3 = Join [ #1 , #2 ] Predicate [ #2.Stadium_ID = #1.Name ] Output [ #1.Name ]", false).is_ok());
}

#[test]
fn join_with_dummy_output() {
    ok("#1 = Scan Table [ stadium ] Output [ Stadium_ID ] ; #2 = Scan Table [ concert ] Output [ Stadium_ID ] ; #3 = Join [ #1 , #2 ] Predicate [ #2.Stadium_ID = #1.Stadium_ID ] Output [ 1 AS One ]");
}

#[test]
fn join_output_names_must_be_distinct() {
    fails("#1 = Scan Table [ stadium ] Output [ Name ] ; #2 = Scan Table [ singer ] Output [ Name ] ; #3 = Join [ #1 , #2 ] Output [ #1.Name , #2.Name ]");
}

#[test]
fn join_copies_input_columns() {
    let sc = concert_singer();
    let (_, st) = parse_program(&sc, true, "#1 = Scan Table [ stadium ] Output [ Stadium_ID , Capacity ] ; #2 = Scan Table [ concert ] Output [ Stadium_ID ] ; #3 = Join [ #1 , #2 ] Predicate [ #2.Stadium_ID = #1.Stadium_ID ] Output [ #1.Capacity ]", false).unwrap();
    assert_eq!(
        st.idx_to_table[2].1,
        Table::Indexed {
            idx: 3,
            columns: vec![Column::Plain { name: b"Capacity".to_vec(), typ: ColumnType::Number, keys: vec![] }]
        }
    );
}

#[test]
fn unknown_line_reference_fails() {
    fails("#1 = Scan Table [ singer ] Output [ Age ] ; #2 = Filter [ #3 ] Output [ Age ]");
}

#[test]
fn open_input_cut_inside_a_keyword_is_incomplete() {
    let sc = concert_singer();
    assert_eq!(
        parse_program(&sc, true, "#1 = Scan Table [ singer ] Output [ Age ] ; #2 = TopS", true).map(|_| ()),
        Err(ParseError::Incomplete)
    );
    assert_eq!(
        parse_program(&sc, true, "#1 = Scan Table [ singer ] Output [ Age ] ; #2 = Topx", true).map(|_| ()),
        Err(ParseError::Mismatch)
    );
}

#[test]
fn exponent_without_digits_fails_the_program() {
    let sc = concert_singer();
    let program = "#1 = Scan Table [ concert ] Predicate [ Year >= 2e ] Output [ Year ]";
    assert_eq!(parse_program(&sc, true, program, true).map(|_| ()), Err(ParseError::Cut));
    assert_eq!(parse_program(&sc, true, program, false).map(|_| ()), Err(ParseError::Cut));
}

#[test]
fn failed_line_leaves_state_unchanged() {
    let sc = concert_singer();
    let mut st = qpl_parser::state::QplState::new();
    let first = b"#1 = Scan Table [ singer ] Output [ Age ]";
    assert!(qpl_parser::program::qpl_line(&mut st, &sc, true, first, 0, false).is_ok());
    assert_eq!(st.current_idx, 1);
    let bad = b"#2 = Filter [ #1 ] Output [ Nowhere ]";
    assert!(qpl_parser::program::qpl_line(&mut st, &sc, true, bad, 0, false).is_err());
    assert_eq!(st.current_idx, 1);
    assert_eq!(st.seen, vec![1]);
    assert_eq!(st.idx_to_table.len(), 1);
}
