use qpl_parser::domain::{
    Column, ColumnType, Comparable, Comparison, KeyType, Operation, Predicate, Table,
};
use qpl_parser::ops::{aggregate, scan};
use qpl_parser::schemas::concert_singer;
use qpl_parser::state::QplState;

fn b(s: &str) -> Vec<u8> {
    s.as_bytes().to_vec()
}

/// A state where line 1 is complete and derived `columns` from `table`.
fn after_line_one(table: &str, columns: Vec<Column>) -> QplState {
    QplState {
        current_idx: 1,
        seen: vec![1],
        idx_to_table: vec![(1, Table::Named { name: b(table), columns })],
    }
}

fn age_column() -> Vec<Column> {
    vec![Column::Plain { name: b("Age"), typ: ColumnType::Number, keys: vec![] }]
}

#[test]
fn test_aggregate_count_star() {
    let sc = concert_singer();
    let st = after_line_one("concert", vec![Column::Dummy]);
    let input = b"Aggregate [ #1 ] Output [ countstar AS Count_Star ]";
    let (output, _, _) = aggregate(&st, &sc, input, 0, false).unwrap();
    assert_eq!(output, Operation::Aggregate { input: 1, group_by: vec![] });
}

#[test]
fn test_aggregate_with_group_by() {
    let sc = concert_singer();
    let st = after_line_one(
        "concert",
        vec![Column::Plain { name: b("Theme"), typ: ColumnType::Text, keys: vec![] }],
    );
    let input = b"Aggregate [ #1 ] GroupBy [ Theme ] Output [ countstar AS Count_Star ]";
    let (output, _, _) = aggregate(&st, &sc, input, 0, false).unwrap();
    assert_eq!(output, Operation::Aggregate { input: 1, group_by: vec![b("Theme")] });
}

#[test]
fn test_aggregate_with_max() {
    let sc = concert_singer();
    let st = after_line_one("singer", age_column());
    let input = b"Aggregate [ #1 ] Output [ MAX(Age) AS Max_Age ]";
    let (output, _, _) = aggregate(&st, &sc, input, 0, false).unwrap();
    assert_eq!(output, Operation::Aggregate { input: 1, group_by: vec![] });
}

#[test]
fn test_aggregate_with_count_distinct() {
    let sc = concert_singer();
    let st = after_line_one("singer", age_column());
    let input = b"Aggregate [ #1 ] Output [ COUNT(DISTINCT Age) AS Count_Dist_Age ]";
    let (output, _, _) = aggregate(&st, &sc, input, 0, false).unwrap();
    assert_eq!(output, Operation::Aggregate { input: 1, group_by: vec![] });
}

#[test]
fn test_aggregate_fails_if_alias_is_wrong() {
    let sc = concert_singer();
    let st = after_line_one("singer", age_column());
    let input = b"Aggregate [ #1 ] Output [ MAX(Age) AS Foo ]";
    assert!(aggregate(&st, &sc, input, 0, false).is_err());
}

#[test]
fn aggregate_derives_numeric_aliases() {
    let sc = concert_singer();
    let st = after_line_one("singer", age_column());
    let input = b"Aggregate [ #1 ] Output [ MAX(Age) AS Max_Age , countstar AS Count_Star ]";
    let (_, table, end) = aggregate(&st, &sc, input, 0, false).unwrap();
    assert_eq!(end, input.len());
    assert_eq!(
        table,
        Table::Indexed {
            idx: 1,
            columns: vec![
                Column::Aliased { name: b("Max_Age"), typ: ColumnType::Number, keys: vec![] },
                Column::Aliased { name: b("Count_Star"), typ: ColumnType::Number, keys: vec![] },
            ]
        }
    );
}

#[test]
fn test_scan_toy_example() {
    let sc = concert_singer();
    let st = QplState::new();
    let (output, _, _) =
        scan(&st, &sc, true, b"Scan Table [ stadium ] Output [ Location ]", 0, false).unwrap();
    assert_eq!(
        output,
        Operation::Scan { table: b("stadium"), predicate: None, is_distinct: false }
    );
}

#[test]
fn test_scan_bigger_example() {
    let sc = concert_singer();
    let st = QplState::new();
    let input = b"Scan Table [ concert ] Predicate [ Year >= 2014 AND Year <= 2024 ] Distinct [ true ] Output [ Stadium_ID , Year ]";
    let (output, _, _) = scan(&st, &sc, true, input, 0, false).unwrap();
    assert_eq!(
        output,
        Operation::Scan {
            table: b("concert"),
            predicate: Some(Predicate::And {
                lhs: Box::new(Predicate::Single {
                    comparison: Comparison::GreaterThanOrEqual(
                        Comparable::Column(b("Year")),
                        Comparable::Number(b("2014"))
                    )
                }),
                rhs: Box::new(Predicate::Single {
                    comparison: Comparison::LessThanOrEqual(
                        Comparable::Column(b("Year")),
                        Comparable::Number(b("2024"))
                    )
                })
            }),
            is_distinct: true
        }
    );
}

#[test]
fn test_scan_fails_on_type_mismatch() {
    let sc = concert_singer();
    let st = QplState::new();
    let input =
        b"Scan Table [ concert ] Predicate [ Year >= '2014' ] Output [ Stadium_ID , Year ]";
    assert!(scan(&st, &sc, true, input, 0, false).is_err());
}

#[test]
fn test_scan_fails_on_duplicate_outputs() {
    let sc = concert_singer();
    let st = QplState::new();
    let input = b"Scan Table [ concert ] Output [ Stadium_ID , Stadium_ID ]";
    assert!(scan(&st, &sc, true, input, 0, false).is_err());
}

#[test]
fn scan_without_type_checking_accepts_string_for_number() {
    let sc = concert_singer();
    let st = QplState::new();
    let input =
        b"Scan Table [ concert ] Predicate [ Year >= '2014' ] Output [ Stadium_ID , Year ]";
    assert!(scan(&st, &sc, false, input, 0, false).is_ok());
}

#[test]
fn scan_derives_types_and_keys() {
    let sc = concert_singer();
    let st = QplState::new();
    let input = b"Scan Table [ concert ] Output [ Stadium_ID AS sid , Year ]";
    let (_, table, _) = scan(&st, &sc, true, input, 0, false).unwrap();
    assert_eq!(
        table,
        Table::Named {
            name: b("concert"),
            columns: vec![
                Column::Plain {
                    name: b("sid"),
                    typ: ColumnType::Number,
                    keys: vec![
                        KeyType::PrimaryKey { table: b("concert") },
                        KeyType::ForeignKey { table: b("concert") },
                        KeyType::ForeignKey { table: b("singer") },
                        KeyType::ForeignKey { table: b("stadium") },
                    ],
                },
                Column::Plain { name: b("Year"), typ: ColumnType::Number, keys: vec![] },
            ]
        }
    );
}

#[test]
fn scan_rejects_renames_that_collide() {
    let sc = concert_singer();
    let st = QplState::new();
    let input = b"Scan Table [ concert ] Output [ Stadium_ID AS x , Year AS x ]";
    assert!(scan(&st, &sc, true, input, 0, false).is_err());
}
