use qpl_parser::api::parse_program;
use qpl_parser::domain::{Operation, Line};
use qpl_parser::lexer::ParseError;
use qpl_parser::schemas::concert_singer;

pub const POSITIVES: [&str; 8] = [
    "#1 = Scan Table [ stadium ] Output [ Stadium_ID , Capacity , Name ] ; #2 = Scan Table [ concert ] Predicate [ Year >= 2014 ] Output [ Stadium_ID , Year ] ; #3 = Aggregate [ #2 ] GroupBy [ Stadium_ID ] Output [ Stadium_ID , countstar AS Count_Star ] ; #4 = Join [ #1 , #3 ] Predicate [ #3.Stadium_ID = #1.Stadium_ID ] Output [ #1.Name , #3.Count_Star , #1.Capacity ] ; #5 = TopSort [ #4 ] Rows [ 1 ] OrderBy [ Count_Star DESC ] Output [ Capacity , Count_Star , Name ]",
    "#1 = Scan Table [ stadium ] Output [ Stadium_ID , Name ] ; #2 = Scan Table [ concert ] Output [ Stadium_ID ] ; #3 = Except [ #1 , #2 ] Predicate [ #2.Stadium_ID IS NULL OR #1.Stadium_ID = #2.Stadium_ID ] Output [ #1.Name ]",
    "#1 = Scan Table [ singer ] Predicate [ Country = 'france' ] Output [ Age , Country ] ; #2 = Aggregate [ #1 ] Output [ AVG(Age) AS Avg_Age , MAX(Age) AS Max_Age , MIN(Age) AS Min_Age ]",
    "#1 = Scan Table [ singer ] Output [ Singer_ID , Name ] ; #2 = Scan Table [ singer_in_concert ] Output [ Singer_ID ] ; #3 = Aggregate [ #2 ] GroupBy [ Singer_ID ] Output [ Singer_ID , countstar AS Count_Star ] ; #4 = Join [ #1 , #3 ] Predicate [ #3.Singer_ID = #1.Singer_ID ] Output [ #1.Name , #3.Count_Star ]",
    "#1 = Scan Table [ stadium ] Distinct [ true ] Output [ Name ] ; #2 = Scan Table [ stadium ] Output [ Stadium_ID , Name ] ; #3 = Scan Table [ concert ] Predicate [ Year = 2014 ] Output [ Stadium_ID , Year ] ; #4 = Join [ #2 , #3 ] Predicate [ #3.Stadium_ID = #2.Stadium_ID ] Distinct [ true ] Output [ #2.Name ] ; #5 = Except [ #1 , #4 ] Predicate [ #1.Name = #4.Name ] Output [ #1.Name ]",
    "#1 = Scan Table [ stadium ] Predicate [ Capacity >= 5000 AND Capacity <= 10000 ] Output [ Location , Capacity , Name ]",
    "#1 = Scan Table [ stadium ] Output [ Stadium_ID , Name ] ; #2 = Scan Table [ concert ] Output [ Stadium_ID ] ; #3 = Join [ #1 , #2 ] Predicate [ #2.Stadium_ID = #1.Stadium_ID ] Output [ #2.Stadium_ID , #1.Name ] ; #4 = Aggregate [ #3 ] GroupBy [ Stadium_ID ] Output [ countstar AS Count_Star , Name ]",
    "#1 = Scan Table [ stadium ] Output [ Average , Capacity ] ; #2 = Aggregate [ #1 ] GroupBy [ Average ] Output [ Average , MAX(Capacity) AS Max_Capacity ]",
];

pub const NEGATIVES: [&str; 14] = [
    "#1 = Scan Table [ stadium ] Output [ Name, Capacity, Stadium_ID ] ; #2 = Scan Table [ concert ] Predicate [ Year >= 2014 ] Output [ Stadium_ID, Year ] ; #3 = Join [ #1, #2 ] Predicate [ #2.Stadium_ID = #1.Stadium_ID ] Output [ #1.Name, #1.Capacity ] ; #4 = Aggregate [ #3 ] GroupBy [ Name ] Output [ Name, countstar AS Count_Star ] ; #5 = TopSort [ #4 ] Rows [ 1 ] OrderBy [ Count_Star DESC ] Output [ Name, Count_Star, Capacity ]",
    "#1 = Scan Table [ stadium ] Output [ Location, Capacity, Name ] ; #2 = Aggregate [ #1 ] GroupBy [ Capacity ] Output [ Capacity, countstar AS Count_Star, Location ] ; #3 = Filter [ #2 ] Predicate [ Count_Star < 10000.0 ] Output [ Location, Count_Star, Name ]",
    "#1 = Scan Table [ concert ] Output [ Concert_Name, Theme ] ; #2 = Scan Table [ singer_in_concert ] Output [ Concert_ID, Singer_ID ] ; #3 = Join [ #1, #2 ] Predicate [ #2.Concert_ID = #1.Concert_ID ] Output [ #1.Concert_Name, #1.Theme ] ; #4 = Aggregate [ #3 ] GroupBy [ Concert_Name ] Output [ Concert_Name, countstar AS Count_Star ]",
    "#1 = Scan Table [ singer ] Output [ Age, Song_Name ] ; #2 = Aggregate [ #1 ] GroupBy [ Age ] Output [ Age, AVG(Age) AS Avg_Age ] ; #3 = TopSort [ #2 ] Rows [ 1 ] OrderBy [ Avg_Age DESC ] Output [ Age, Song_Name ]",
    "#1 = Scan Table [ concert ] Output [ Concert_Name, Theme, Concert_ID ] ; #2 = Scan Table [ singer_in_concert ] Output [ Concert_ID, Singer_ID ] ; #3 = Join [ #1, #2 ] Predicate [ #2.Concert_ID = #1.Concert_ID ] Output [ #1.Concert_Name, #2.Theme, #1.Concert_ID ] ; #4 = Aggregate [ #3 ] GroupBy [ Concert_Name ] Output [ Concert_Name, countstar AS Count_Star, Concert_Name ]",
    "#1 = Scan Table [ singer ] Output [ Name, Singer_ID ] ; #2 = Scan Table [ concert ] Predicate [ Year = 2014 ] Output [ Year, Concert_ID ] ; #3 = Join [ #1, #2 ] Predicate [ #2.Concert_ID = #1.Concert_ID ] Output [ #2.Name ]",
    "#1 = Scan Table [ singer ] Output [ Song_Name, Age ] ; #2 = TopSort [ #1 ] Rows [ 1 ] OrderBy [ Age DESC ] Output [ Song_Name, Age, Song_Release_Year ]",
    "#1 = Scan Table [ stadium ] Output [ Name, Location, Stadium_ID ] ; #2 = Scan Table [ concert ] Predicate [ Year = 2014 OR Year = 2015 ] Output [ Stadium_ID, Year ] ; #3 = Join [ #1, #2 ] Predicate [ #2.Stadium_ID = #1.Stadium_ID ] Output [ #1.Name, #2.Location ]",
    "#1 = Scan Table [ singer ] Output [ Age, Song_Name ] ; #2 = Aggregate [ #1 ] GroupBy [ Age ] Output [ Age, AVG(Age) AS Avg_Age ] ; #3 = Filter [ #2 ] Predicate [ Avg_Age >= 1 ] Output [ Song_Name ]",
    "#1 = Scan Table [ singer ] Output [ Name, Singer_ID ] ; #2 = Scan Table [ concert ] Predicate [ Year = 2014 ] Output [ Year, Concert_ID ] ; #3 = Scan Table [ singer_in_concert ] Output [ Singer_ID ] ; #4 = Join [ #2, #3 ] Predicate [ #3.Singer_ID = #2.Singer_ID ] Output [ #3.Name ]",
    "#1 = Scan Table [ stadium ] Output [ Location, Name, Stadium_ID ] ; #2 = Scan Table [ concert ] Predicate [ Year = 2014 AND Year = 2015 ] Output [ Stadium_ID, Year ] ; #3 = Join [ #1, #2 ] Predicate [ #2.Stadium_ID = #1.Stadium_ID ] Output [ #2.Name, #1.Location ]",
    "#1 = Scan Table [ stadium ] Output [ Name, Capacity, Stadium_ID ] ; #2 = Scan Table [ concert ] Predicate [ Year > 2013 ] Output [ Stadium_ID, Year ] ; #3 = Join [ #1, #2 ] Predicate [ #2.Stadium_ID = #1.Stadium_ID ] Output [ #1.Name, #1.Capacity ] ; #4 = Aggregate [ #3 ] GroupBy [ Name ] Output [ Name, countstar AS Count_Star ] ; #5 = TopSort [ #4 ] Rows [ 1 ] OrderBy [ Count_Star DESC ] Output [ Name, Count_Star, Capacity ]",
    "#1 = Scan Table [ stadium ] Output [ Capacity, Location, Name ] ; #2 = Aggregate [ #1 ] GroupBy [ Capacity ] Output [ Capacity, countstar AS Count_Star, Location ] ; #3 = Filter [ #2 ] Predicate [ Count_Star < 10000.0 ] Output [ Location, Name, Count_Star, Location, Name, Count_Star, Location, Count_Star, Location, Name, Count_Star, Location, Count_Star, Location, Count_Star, Location, Count_Star, Location, Count_Star, Location, Count_Star, Location, Count_Star, Location, Count_Star, Location, Count_Star, Location, Count_Star, Location, Count_Star, Location, Count_Star, Location, Count_Star, Location, Count_Star, Location, Count_Star, Location, Count_Star, Location, Count_Star, Location, Count_Star, Location, Count_Star, Location, Count_Star, Location, Count_Star, Location, Count_Star, Location, Count_Star, Location, Count_Star, Location, Count_Star, Location, Count_Star, Location, Count_Star, Location, Count_Star, Location, Count_Star, Location, Count_Star, Location, Count_Star, Location, Count_Star, Location, Count_Star, Location, Count_Star, Location, Count_Star, Location, Count_Star, Location, Count_Star, Location, Count_Star, Location, Count_Star, Location, Count_Star, Location, Count_Star, Count_Star, Location, Count_Star",
    "#1 = Scan Table [ singer ] Output [ Age, Song_Name ] ; #2 = Aggregate [ #1 ] GroupBy [ Age ] Output [ Age, AVG(Age) AS Avg_Age ] ; #3 = TopSort [ #2 ] Rows [ 1 ] OrderBy [ Avg_Age DESC ] Output [ Song_Name, Avg_Age, Affect_Sort_Sort_Sort_Sort_Sort_Sort_Sort_Sort_Sort_Sort_Sort_Sort_Sort_Sort_Sort_Sort_Sort_Sort_Sort_Sort_Sort_Sort_Sort_Sort_Sort_Sort_Sort_Sort_Sort_Sort_Sort_Sort_Sort_Sort_Sort_Sort_Sort_Sort_Sort_Sort_Sort_Sort_Sort_Sort_Sort_Sort_Sort_Sort_Sort_Sort_Sort_Sort_Sort_Sort_Sort_Sort_Sort_Sort_Sort_Sort_Sort_Sort_Sort_Sort_Sort_Sort_Sort_Sort_Sort_Sort_Sort_Sort_Sort_Sort_Sort_Sort_Sort_Sort_Sort_Sort_Sort_Sort_Sort_Sort_Sort_Sort_Sort_Sort_Sort_Sort_Sort_Sort_Sort_Sort_Sort_Sort_Sort_Sort_Sort_Sort_",
];

fn scan_of(table: &str) -> Operation {
    Operation::Scan { table: table.as_bytes().to_vec(), predicate: None, is_distinct: false }
}

#[test]
fn test_single_line_qpl() {
    let sc = concert_singer();
    let (output, _) =
        parse_program(&sc, true, "#1 = Scan Table [ stadium ] Output [ Location ]", false)
            .unwrap();
    assert_eq!(output, vec![Line { idx: 1, operation: scan_of("stadium") }]);
}

#[test]
fn test_two_lines_qpl() {
    let sc = concert_singer();
    let (output, _) = parse_program(
        &sc,
        true,
        "#1 = Scan Table [ singer ] Output [ Age ] ; #2 = Aggregate [ #1 ] GroupBy [ Age ] Output [ countstar AS Count_Star ]",
        false,
    )
    .unwrap();
    assert_eq!(
        output,
        vec![
            Line { idx: 1, operation: scan_of("singer") },
            Line {
                idx: 2,
                operation: Operation::Aggregate { input: 1, group_by: vec![b"Age".to_vec()] }
            },
        ]
    );
}

#[test]
fn test_all_positives() {
    let sc = concert_singer();
    for example in POSITIVES {
        let result = parse_program(&sc, true, example, false);
        assert!(result.is_ok(), "{}", example);
    }
}

#[test]
fn test_all_negatives() {
    let sc = concert_singer();
    for example in NEGATIVES {
        let result = parse_program(&sc, true, example, false);
        assert!(result.is_err(), "{}", example);
    }
}

#[test]
fn test_partial_qpl() {
    let sc = concert_singer();
    let result = parse_program(&sc, true, "#1 = Scan Table [ stadium ] Output [ Name, Capacity, Stadium_ID ] ; #2 = Scan Table [ concert ] Predicate [ Year >= 2014 ] Output [ Stadium_ID, Year ] ; #3 = Join [ #1, #2 ] Predicate [ #2.Stadium_ID = #1.Stadium_ID ] Output [ #1.Name, #1.Capacity ] ; #4 = Aggregate [ #3 ] GroupBy [ Name ] Output [ Name, countstar AS Count_Star ] ; #5 = TopSort [ #4 ] Rows [ 1 ] OrderBy [ Count_Star ", true);
    assert!(matches!(result, Err(ParseError::Incomplete)));
}

use qpl_parser::api::{classify, prefixed_qpl, validate, FeedResult, ValidationResult};
use qpl_parser::domain::{Column, ColumnType, Table};
use qpl_parser::registry::SchemaRegistry;

fn registry() -> SchemaRegistry {
    let mut reg = SchemaRegistry::new();
    reg.register(concert_singer());
    reg
}

fn prefixed(program: &str) -> String {
    format!("concert_singer | {}", program)
}

#[test]
fn single_scan_is_complete_with_text_location() {
    let reg = registry();
    let input = prefixed("#1 = Scan Table [ stadium ] Output [ Location ]");
    assert_eq!(classify(&reg, true, &input, true), FeedResult::Complete);
    let (_, env) = prefixed_qpl(&reg, true, input.as_bytes(), false).unwrap();
    assert_eq!(env.state.idx_to_table.len(), 1);
    let (idx, table) = &env.state.idx_to_table[0];
    assert_eq!(*idx, 1);
    assert_eq!(
        *table,
        Table::Named {
            name: b"stadium".to_vec(),
            columns: vec![Column::Plain {
                name: b"Location".to_vec(),
                typ: ColumnType::Text,
                keys: vec![]
            }]
        }
    );
}

#[test]
fn scan_with_typed_predicate_is_complete() {
    let reg = registry();
    let input = prefixed("#1 = Scan Table [ concert ] Predicate [ Year >= 2014 AND Year <= 2024 ] Distinct [ true ] Output [ Stadium_ID , Year ]");
    assert_eq!(classify(&reg, true, &input, true), FeedResult::Complete);
}

#[test]
fn scan_with_type_mismatch_fails() {
    let reg = registry();
    let input = prefixed(
        "#1 = Scan Table [ concert ] Predicate [ Year >= '2014' ] Output [ Stadium_ID , Year ]",
    );
    assert_eq!(classify(&reg, true, &input, true), FeedResult::Failure);
}

#[test]
fn duplicate_outputs_fail() {
    let reg = registry();
    let input = prefixed("#1 = Scan Table [ concert ] Output [ Stadium_ID , Stadium_ID ]");
    assert_eq!(classify(&reg, true, &input, true), FeedResult::Failure);
}

#[test]
fn aggregate_join_top_sort_is_complete() {
    let reg = registry();
    assert_eq!(classify(&reg, true, &prefixed(POSITIVES[0]), true), FeedResult::Complete);
}

#[test]
fn every_positive_without_closing_bracket_is_partial() {
    let reg = registry();
    for example in POSITIVES {
        let cut = &example[..example.len() - 1];
        assert_eq!(classify(&reg, true, &prefixed(cut), false), FeedResult::Partial, "{}", cut);
    }
}

#[test]
fn every_strict_prefix_of_a_complete_program_is_partial() {
    let reg = registry();
    for example in POSITIVES {
        let full = prefixed(example);
        assert_eq!(classify(&reg, true, &full, true), FeedResult::Complete);
        for end in 0..full.len() {
            let r = classify(&reg, true, &full[..end], false);
            assert!(r == FeedResult::Partial || r == FeedResult::Complete, "{}", &full[..end]);
        }
    }
}

#[test]
fn a_failed_prefix_stays_failed() {
    let reg = registry();
    for example in NEGATIVES {
        let full = prefixed(example);
        let first = (0..=full.len())
            .find(|&end| classify(&reg, true, &full[..end], false) == FeedResult::Failure);
        if let Some(first) = first {
            for end in first..=full.len() {
                assert_eq!(classify(&reg, true, &full[..end], false), FeedResult::Failure);
            }
        }
        assert_eq!(classify(&reg, true, &full, true), FeedResult::Failure);
    }
}

#[test]
fn classification_is_repeatable() {
    let reg = registry();
    for example in POSITIVES.iter().chain(NEGATIVES.iter()) {
        let input = prefixed(example);
        assert_eq!(classify(&reg, true, &input, true), classify(&reg, true, &input, true));
        assert_eq!(classify(&reg, true, &input, false), classify(&reg, true, &input, false));
    }
}

#[test]
fn lines_are_numbered_in_order_and_read_earlier_lines() {
    let sc = concert_singer();
    for example in POSITIVES {
        let (lines, st) = parse_program(&sc, true, example, false).unwrap();
        assert_eq!(st.current_idx, lines.len());
        for (i, line) in lines.iter().enumerate() {
            assert_eq!(line.idx, i + 1);
        }
    }
    let out_of_order = "#2 = Scan Table [ stadium ] Output [ Name ]";
    assert!(parse_program(&sc, true, out_of_order, false).is_err());
    let forward = "#1 = Scan Table [ stadium ] Output [ Name ] ; #2 = Filter [ #2 ] Output [ Name ]";
    assert!(parse_program(&sc, true, forward, false).is_err());
}

#[test]
fn derived_tables_have_distinct_column_names() {
    let sc = concert_singer();
    for example in POSITIVES {
        let (_, st) = parse_program(&sc, true, example, false).unwrap();
        for (_, table) in &st.idx_to_table {
            let cols = match table {
                Table::Named { columns, .. } => columns,
                Table::Indexed { columns, .. } => columns,
            };
            for i in 0..cols.len() {
                for j in i + 1..cols.len() {
                    assert_ne!(cols[i].name(), cols[j].name());
                }
            }
        }
    }
}

#[test]
fn validation_verdicts() {
    let reg = registry();
    assert!(matches!(validate(&reg, true, &prefixed(POSITIVES[0])), ValidationResult::Valid));
    match validate(&reg, true, &prefixed(NEGATIVES[0])) {
        ValidationResult::Invalid { reason } => assert_eq!(reason, "Failed to parse"),
        ValidationResult::Valid => panic!("a negative example validated"),
    }
}
