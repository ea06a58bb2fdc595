use qpl_parser::api::{classify, feed_decoded, strip_end_marker, FeedResult};
use qpl_parser::domain::SqlSchema;
use qpl_parser::lexer::ParseError;
use qpl_parser::names::table_name;
use qpl_parser::registry::SchemaRegistry;
use qpl_parser::schemas::concert_singer;

fn b(s: &str) -> Vec<u8> {
    s.as_bytes().to_vec()
}

/// A schema with one table `t` of one column `c`.
fn tiny(db_id: &str) -> SqlSchema {
    SqlSchema::new(b(db_id), vec![b("t")], vec![b("c")], vec![qpl_parser::domain::ColumnType::Text], vec![0], vec![], vec![], vec![])
}

const PROGRAM: &str = "#1 = Scan Table [ stadium ] Output [ Location ]";

#[test]
fn longest_table_name_is_bound() {
    let sc = concert_singer();
    let input = b"singer_in_concert ]";
    let (t, end) = table_name(&sc, input, 0, false).unwrap();
    assert_eq!(sc.table_names[t], b("singer_in_concert"));
    assert_eq!(end, "singer_in_concert".len());
}

#[test]
fn table_name_is_case_insensitive() {
    let sc = concert_singer();
    let (t, _) = table_name(&sc, b"SINGER ]", 0, false).unwrap();
    assert_eq!(sc.table_names[t], b("singer"));
}

#[test]
fn unrelated_schema_does_not_change_outcomes() {
    let mut both = SchemaRegistry::new();
    both.register(concert_singer());
    both.register(tiny("other_db"));
    let mut one = SchemaRegistry::new();
    one.register(concert_singer());
    for input in [
        format!("concert_singer | {}", PROGRAM),
        format!("concert_singer | {}", &PROGRAM[..20]),
        "concert_singer | #1 = Scan Table [ nowhere ]".to_string(),
    ] {
        for complete in [true, false] {
            assert_eq!(
                classify(&both, true, &input, complete),
                classify(&one, true, &input, complete)
            );
        }
    }
}

#[test]
fn registering_twice_is_registering_once() {
    let mut once = SchemaRegistry::new();
    once.register(concert_singer());
    let mut twice = SchemaRegistry::new();
    twice.register(concert_singer());
    twice.register(concert_singer());
    assert_eq!(once.schemas.len(), 1);
    assert_eq!(twice.schemas.len(), 1);
    let input = format!("concert_singer | {}", PROGRAM);
    assert_eq!(classify(&once, true, &input, true), classify(&twice, true, &input, true));
}

#[test]
fn longer_schema_id_wins() {
    let mut reg = SchemaRegistry::new();
    reg.register(tiny("concert"));
    reg.register(concert_singer());
    let input = format!("concert_singer | {}", PROGRAM);
    assert_eq!(classify(&reg, true, &input, true), FeedResult::Complete);
    let (j, end) = reg.select(input.as_bytes(), 0, false).unwrap();
    assert_eq!(reg.schemas[j].db_id, b("concert_singer"));
    assert_eq!(end, "concert_singer".len());
}

#[test]
fn special_tokens_and_spaces_are_skipped() {
    let mut reg = SchemaRegistry::new();
    reg.register(concert_singer());
    let input = format!("  <pad><s> CONCERT_SINGER  |  {}", PROGRAM);
    assert_eq!(classify(&reg, true, &input, true), FeedResult::Complete);
}

#[test]
fn unknown_schema_fails() {
    let mut reg = SchemaRegistry::new();
    reg.register(concert_singer());
    let input = format!("pets_1 | {}", PROGRAM);
    assert_eq!(classify(&reg, true, &input, true), FeedResult::Failure);
    let empty = SchemaRegistry::new();
    assert_eq!(classify(&empty, true, &format!("concert_singer | {}", PROGRAM), true), FeedResult::Failure);
}

#[test]
fn open_input_is_never_complete() {
    let mut reg = SchemaRegistry::new();
    reg.register(concert_singer());
    let input = format!("concert_singer | {}", PROGRAM);
    assert_eq!(classify(&reg, true, &input, false), FeedResult::Partial);
}

#[test]
fn end_marker_completes_decoded_text() {
    let mut reg = SchemaRegistry::new();
    reg.register(concert_singer());
    let with_marker = format!("<pad> concert_singer | {}</s>", PROGRAM);
    assert_eq!(feed_decoded(&reg, true, &with_marker), FeedResult::Complete);
    let without = format!("<pad> concert_singer | {}", PROGRAM);
    assert_eq!(feed_decoded(&reg, true, &without), FeedResult::Partial);
    let cut = format!("<pad> concert_singer | {}</s>", &PROGRAM[..10]);
    assert_eq!(feed_decoded(&reg, true, &cut), FeedResult::Failure);
}

#[test]
fn end_marker_is_stripped() {
    assert_eq!(strip_end_marker(b"abc</s>"), (b("abc"), true));
    assert_eq!(strip_end_marker(b"abc"), (b("abc"), false));
    assert_eq!(strip_end_marker(b"</s"), (b("</s"), false));
}

#[test]
fn separator_spacing_is_exact() {
    let sc = concert_singer();
    let good = "#1 = Scan Table [ stadium ] Output [ Name ] ; #2 = Scan Table [ singer ] Output [ Name ]";
    assert!(qpl_parser::api::parse_program(&sc, true, good, false).is_ok());
    let bad = "#1 = Scan Table [ stadium ] Output [ Name ];#2 = Scan Table [ singer ] Output [ Name ]";
    assert_eq!(
        qpl_parser::api::parse_program(&sc, true, bad, false).map(|_| ()),
        Err(ParseError::Mismatch)
    );
}
