use arc_ledger::ids::{cursor, event_id_after, event_id_from, EventIdError};
use arc_ledger::input::{
    body_source, has_space, normalize_tags, parse_duration, read_body, BodyError, BodySource,
    DurationError,
};
use arc_ledger::messages::read_since;
use arc_ledger::text::{
    char_count, contains, decimal, ends_with, is_blank, join, less, lines, parse_number, same,
    same_option, same_texts, signed, split, split_once, starts_with, strip, strip_end,
    strip_prefix, trim, trim_end, trim_start, words,
};
use arc_ledger::time::Timestamp;

fn texts(values: &[&str]) -> Vec<String> {
    values.iter().map(|value| value.to_string()).collect()
}

#[test]
fn texts_are_trimmed_and_cut() {
    assert_eq!(trim("\u{2003} a b\t"), "a b");
    assert_eq!(trim(&trim("  a ")), trim("  a "));
    assert_eq!(trim_start("  a "), "a ");
    assert_eq!(trim_end("  a "), "  a");
    assert!(is_blank(" \n\u{a0}"));
    assert!(!is_blank(" x "));
    assert_eq!(strip("--a-b--", '-'), "a-b");
    assert_eq!(strip_end("a//", '/'), "a");
    assert_eq!(strip_prefix("fork/a", "fork/"), Some("a".to_string()));
    assert_eq!(strip_prefix("fork", "fork/"), None);
    assert!(starts_with("abc", "ab") && !starts_with("a", "ab"));
    assert!(ends_with("abc", "bc") && !ends_with("c", "bc"));
    assert_eq!(split_once("a:b:c", ':'), Some(("a".to_string(), "b:c".to_string())));
    assert_eq!(split_once("abc", ':'), None);
    assert_eq!(split("a,,b", ','), "a,,b".split(',').collect::<Vec<_>>());
    assert_eq!(split("", ','), vec![""]);
}

#[test]
fn lines_and_words_are_those_of_std() {
    for text in ["", "a", "a\n", "a\nb", "a\r\nb\r\n", "\n\n", "a\rb", "a\n\r"] {
        assert_eq!(lines(text), text.lines().collect::<Vec<_>>(), "{text:?}");
        assert_eq!(words(text), text.split_whitespace().collect::<Vec<_>>(), "{text:?}");
    }
    assert_eq!(words(" a\t b\u{3000}c "), vec!["a", "b", "c"]);
    assert_eq!(join(&texts(&["a", "b"]), ", "), "a, b");
    assert_eq!(join(&Vec::new(), ", "), "");
    assert_eq!(char_count("añ"), 2);
}

#[test]
fn texts_compare_as_std_does() {
    assert!(same("a", "a") && !same("a", "b"));
    assert!(same_option(&None, &None) && !same_option(&None, &Some("a".into())));
    assert!(same_texts(&texts(&["a", "b"]), &texts(&["a", "b"])));
    assert!(!same_texts(&texts(&["a"]), &texts(&["a", "b"])));
    assert!(contains(&texts(&["a", "b"]), "b") && !contains(&texts(&["a"]), "b"));
    for (left, right) in [("a", "b"), ("a", "ab"), ("b", "ab"), ("", "a"), ("é", "z"), ("a", "a")] {
        assert_eq!(less(left, right), left < right, "{left} {right}");
    }
}

#[test]
fn numbers_are_written_and_read() {
    assert_eq!(decimal(0), "0");
    assert_eq!(decimal(u64::MAX), u64::MAX.to_string());
    assert_eq!(signed(-12), "-12");
    assert_eq!(signed(i32::MIN), i32::MIN.to_string());
    assert_eq!(parse_number("0042"), Some(42));
    assert_eq!(parse_number(&u64::MAX.to_string()), Some(u64::MAX));
    assert_eq!(parse_number("18446744073709551616"), None);
    assert_eq!(parse_number(""), None);
    assert_eq!(parse_number("1x"), None);
}

#[test]
fn durations_have_a_number_and_a_unit() {
    assert_eq!(parse_duration("45s"), Ok(45));
    assert_eq!(parse_duration("2m"), Ok(120));
    assert_eq!(parse_duration("3h"), Ok(10_800));
    assert_eq!(parse_duration(""), Err(DurationError::Empty));
    assert_eq!(parse_duration("s"), Err(DurationError::NotANumber));
    assert_eq!(parse_duration("-1s"), Err(DurationError::NotANumber));
    assert_eq!(parse_duration("99999999999999999999s"), Err(DurationError::NumberTooLarge));
    assert_eq!(parse_duration("0m"), Err(DurationError::Zero));
    assert_eq!(parse_duration("5d"), Err(DurationError::UnknownUnit));
    assert_eq!(parse_duration("9223372036854775808s"), Err(DurationError::TooLarge));
    assert_eq!(parse_duration("9223372036854775807s"), Ok(9_223_372_036_854_775_807));
}

#[test]
fn tags_are_a_sorted_set() {
    let tags = normalize_tags(&texts(&[" b ", "a", "b"])).unwrap();
    assert_eq!(tags, vec!["a", "b"]);
    assert_eq!(normalize_tags(&tags).unwrap(), tags);
    assert_eq!(normalize_tags(&texts(&["a b"])).unwrap_err().tag, "a b");
    assert_eq!(normalize_tags(&texts(&["a", " "])).unwrap_err().tag, "");
    assert!(has_space("a b") && !has_space("ab"));
}

#[test]
fn bodies_come_from_one_place() {
    assert!(matches!(
        body_source(Some("b".into()), None),
        Ok(BodySource::Given(text)) if text == "b"
    ));
    assert!(matches!(body_source(None, Some("-".into())), Ok(BodySource::Stdin)));
    assert!(matches!(
        body_source(None, Some("f".into())),
        Ok(BodySource::File(path)) if path == "f"
    ));
    assert_eq!(body_source(None, None).err(), Some(BodyError::Missing));
    assert_eq!(body_source(Some("b".into()), Some("f".into())).err(), Some(BodyError::Both));
    assert_eq!(read_body("  b \n"), Ok("b".to_string()));
    assert_eq!(read_body(" \n"), Err(BodyError::Empty));
}

#[test]
fn instants_are_read_in_any_zone() {
    let early = Timestamp::new(10, 5).unwrap();
    let late = Timestamp::new(10, 6).unwrap();
    assert!(early.is_before(&late) && !late.is_before(&early) && !early.is_before(&early));
    assert_eq!((early.seconds(), early.nanoseconds()), (10, 5));
    assert!(Timestamp::new(i64::MAX, 0).is_none());
    assert!(Timestamp::new(0, 2_000_000_000).is_none());
    assert_eq!(
        read_since(&Some("1970-01-01T01:00:05+01:00".into())),
        Ok(Some(Timestamp::new(5, 0).unwrap()))
    );
    assert_eq!(read_since(&Some("yesterday".into())), Err(()));
    assert_eq!(read_since(&None), Ok(None));
}

#[test]
fn event_ids_ascend() {
    let id = "01ARZ3NDEKTSV4RRFFQ69G5FAV";
    let next = event_id_after(id).unwrap();
    assert!(next.as_str() > id);
    // Nothing is later than now in the far future, so the next id follows the given one.
    let future = "7ZZZZZZZZZ0000000000000000";
    assert_eq!(event_id_after(future), Ok("7ZZZZZZZZZ0000000000000001".to_string()));
    assert_eq!(event_id_from(id, 0), Ok("01ARZ3NDEKTSV4RRFFQ69G5FAW".to_string()));
    assert_eq!(
        event_id_from(id, u128::MAX),
        Ok("7ZZZZZZZZZZZZZZZZZZZZZZZZZ".to_string())
    );
    assert_eq!(event_id_from("x", 0), Err(EventIdError::NotAUlid));
    assert_eq!(
        event_id_from("7ZZZZZZZZZZZZZZZZZZZZZZZZZ", 0),
        Err(EventIdError::Overflowed)
    );
}

#[test]
fn cursors_are_written_as_identities_are() {
    let id = "01ARZ3NDEKTSV4RRFFQ69G5FAV";
    assert_eq!(cursor(id), Ok(id.to_string()));
    assert_eq!(cursor(&id.to_lowercase()), Ok(id.to_string()));
    assert_eq!(cursor("yesterday"), Err(EventIdError::NotAUlid));
}
