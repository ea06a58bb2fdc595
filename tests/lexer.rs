use qpl_parser::domain::CompOp;
use qpl_parser::keys::{column_key, is_foreign_key_of, is_primary_key_of, lex_less};
use qpl_parser::domain::KeyType;
use qpl_parser::lexer::{
    boolean, comparison_op, dec_uint, literal, multispace0, null, number, quoted,
    spaced_comparison_op, usize_digits, ParseError,
};
use qpl_parser::names::starts_with_agg;
use qpl_parser::schemas::concert_singer;

#[test]
fn literal_outcomes() {
    assert_eq!(literal(b"Output [ x", 0, b"Output [ ", false, true), Ok(9));
    assert_eq!(literal(b"Outp", 0, b"Output [ ", false, true), Err(ParseError::Incomplete));
    assert_eq!(literal(b"Outp", 0, b"Output [ ", false, false), Err(ParseError::Mismatch));
    assert_eq!(literal(b"Outq", 0, b"Output [ ", false, true), Err(ParseError::Mismatch));
    assert_eq!(literal(b"OUTPUT", 0, b"output", true, false), Ok(6));
    assert_eq!(literal(b"OUTPUT", 0, b"output", false, false), Err(ParseError::Mismatch));
}

#[test]
fn numbers_keep_their_text() {
    assert_eq!(number(b"2014 ]", 0, false), Ok((b"2014".to_vec(), 4)));
    assert_eq!(number(b"-3.25e+2 ]", 0, false), Ok((b"-3.25e+2".to_vec(), 8)));
    assert_eq!(number(b".5 ]", 0, false), Ok((b".5".to_vec(), 2)));
    assert_eq!(number(b"10000.0 ]", 0, false), Ok((b"10000.0".to_vec(), 7)));
    assert_eq!(number(b"inf ]", 0, false), Ok((b"inf".to_vec(), 3)));
    assert_eq!(number(b"NaN ]", 0, false), Ok((b"NaN".to_vec(), 3)));
    assert_eq!(number(b"'x'", 0, false), Err(ParseError::Mismatch));
}

#[test]
fn number_at_the_end_of_open_input_is_incomplete() {
    assert_eq!(number(b"201", 0, true), Err(ParseError::Incomplete));
    assert_eq!(number(b"201", 0, false), Ok((b"201".to_vec(), 3)));
}

#[test]
fn exponent_without_digits_cuts() {
    assert_eq!(number(b"1e ]", 0, false), Err(ParseError::Cut));
}

#[test]
fn unsigned_integers() {
    assert_eq!(dec_uint(b"42 ]", 0, false), Ok((42, 2)));
    assert_eq!(dec_uint(b"0 ]", 0, false), Ok((0, 1)));
    assert_eq!(dec_uint(b"007", 0, false), Ok((0, 1)));
    assert_eq!(dec_uint(b"42", 0, true), Err(ParseError::Incomplete));
    assert_eq!(dec_uint(b"x", 0, true), Err(ParseError::Mismatch));
    assert_eq!(dec_uint(b"99999999999999999999999 ]", 0, false), Err(ParseError::Mismatch));
}

#[test]
fn strings_booleans_null() {
    assert_eq!(quoted(b"'france' ]", 0, false), Ok((b"france".to_vec(), 8)));
    assert_eq!(quoted(b"'fra", 0, true), Err(ParseError::Incomplete));
    assert_eq!(quoted(b"'fra", 0, false), Err(ParseError::Mismatch));
    assert_eq!(boolean(b"1", 0, false), Ok((true, 1)));
    assert_eq!(boolean(b"0", 0, false), Ok((false, 1)));
    assert_eq!(boolean(b"2", 0, false), Err(ParseError::Mismatch));
    assert_eq!(null(b"NULL ]", 0, false), Ok(4));
    assert_eq!(null(b"null ]", 0, false), Err(ParseError::Mismatch));
    assert_eq!(null(b"NU", 0, true), Err(ParseError::Incomplete));
}

#[test]
fn comparison_operators_prefer_the_longer_spelling() {
    assert_eq!(comparison_op(b"<= 3", 0, false), Ok((CompOp::LessThanOrEqual, 2)));
    assert_eq!(comparison_op(b"<> 3", 0, false), Ok((CompOp::NotEqual, 2)));
    assert_eq!(comparison_op(b"< 3", 0, false), Ok((CompOp::LessThan, 1)));
    assert_eq!(comparison_op(b"IS NOT NULL", 0, false), Ok((CompOp::IsNot, 6)));
    assert_eq!(comparison_op(b"is NULL", 0, false), Ok((CompOp::Is, 2)));
    assert_eq!(comparison_op(b"NOT LIKE 'a'", 0, false), Ok((CompOp::NotLike, 8)));
    assert_eq!(comparison_op(b"Like 'a'", 0, false), Ok((CompOp::Like, 4)));
    assert_eq!(comparison_op(b"= 3", 0, false), Ok((CompOp::Equal, 1)));
    assert_eq!(comparison_op(b"<", 0, true), Err(ParseError::Incomplete));
    assert_eq!(comparison_op(b"~", 0, false), Err(ParseError::Mismatch));
    assert_eq!(spaced_comparison_op(b"  >=  5", 0, false), Ok((CompOp::GreaterThanOrEqual, 6)));
}

#[test]
fn whitespace_runs() {
    assert_eq!(multispace0(b" \t\nx", 0, true), Ok(3));
    assert_eq!(multispace0(b"   ", 0, true), Err(ParseError::Incomplete));
    assert_eq!(multispace0(b"   ", 0, false), Ok(3));
}

#[test]
fn decimal_text_of_line_numbers() {
    assert_eq!(usize_digits(0), b"0".to_vec());
    assert_eq!(usize_digits(7), b"7".to_vec());
    assert_eq!(usize_digits(1203), b"1203".to_vec());
}

#[test]
fn aggregate_result_names() {
    assert!(starts_with_agg(b"Max_Age"));
    assert!(starts_with_agg(b"Count_Star"));
    assert!(starts_with_agg(b"countstar AS Count_Star"));
    assert!(starts_with_agg(b"Avg_Dist_Age"));
    assert!(!starts_with_agg(b"MAX_Age"));
    assert!(!starts_with_agg(b"Age"));
}

#[test]
fn lexicographic_order() {
    assert!(lex_less(b"concert", b"singer"));
    assert!(lex_less(b"sing", b"singer"));
    assert!(!lex_less(b"singer", b"singer"));
    assert!(!lex_less(b"stadium", b"singer"));
}

#[test]
fn key_classification() {
    let sc = concert_singer();
    let fks = vec![
        KeyType::ForeignKey { table: b"concert".to_vec() },
        KeyType::ForeignKey { table: b"singer".to_vec() },
        KeyType::ForeignKey { table: b"stadium".to_vec() },
    ];
    // stadium.Stadium_ID: a primary key, not a foreign-key source
    assert_eq!(column_key(&sc, 0, b"Stadium_ID"), vec![KeyType::PrimaryKey { table: b"stadium".to_vec() }]);
    // concert.Stadium_ID: a foreign-key source
    let mut expected = vec![KeyType::PrimaryKey { table: b"concert".to_vec() }];
    expected.extend(fks);
    assert_eq!(column_key(&sc, 2, b"stadium_id"), expected);
    // concert.Year: neither
    assert_eq!(column_key(&sc, 2, b"Year"), vec![]);
    // no such column in the table
    assert_eq!(column_key(&sc, 0, b"Year"), vec![]);
    let pk = KeyType::PrimaryKey { table: b"stadium".to_vec() };
    assert!(is_primary_key_of(&pk, b"stadium"));
    assert!(!is_primary_key_of(&pk, b"singer"));
    assert!(!is_foreign_key_of(&pk, b"stadium"));
}
