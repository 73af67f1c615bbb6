use pnch::error::{GlobalError, Record, Syntax};
use pnch::pnch::{Description, Format};
use pnch::text::{parse_uint, split_once, str_eq};
use pnch::time::{Date, Period, Time};

fn parse_error(syntax: Syntax, value: &str) -> GlobalError {
    GlobalError::Parse { syntax, value: value.to_string() }
}

#[test]
fn period_with_count_and_unit() {
    assert_eq!(Period::parse("3 weeks"), Ok(Period::Weeks(3)));
    assert_eq!(Period::parse("56 months"), Ok(Period::Months(56)));
    assert_eq!(Period::parse("1 day"), Ok(Period::Days(1)));
    assert_eq!(Period::parse("10 years"), Ok(Period::Years(10)));
}

#[test]
fn period_without_count_is_one() {
    assert_eq!(Period::parse("year"), Ok(Period::Years(1)));
    assert_eq!(Period::parse("days"), Ok(Period::Days(1)));
}

#[test]
fn period_rejects_bad_text() {
    assert_eq!(Period::parse("3 fortnights"), Err(parse_error(Syntax::Period, "3 fortnights")));
    assert_eq!(Period::parse("x weeks"), Err(parse_error(Syntax::Period, "x weeks")));
    assert_eq!(Period::parse("3  weeks"), Err(parse_error(Syntax::Period, "3  weeks")));
    assert_eq!(Period::parse(""), Err(parse_error(Syntax::Period, "")));
    assert_eq!(Period::parse("4294967296 days"), Err(parse_error(Syntax::Period, "4294967296 days")));
}

#[test]
fn period_days() {
    assert_eq!(Period::Days(5).as_days(), 5);
    assert_eq!(Period::Weeks(2).as_days(), 14);
    assert_eq!(Period::Months(3).as_days(), 90);
    assert_eq!(Period::Years(2).as_days(), 730);
    assert_eq!(Period::Years(u32::MAX).as_days(), u32::MAX as u64 * 365);
}

#[test]
fn period_from_str() {
    let p: Period = "2 weeks".parse().unwrap();
    assert_eq!(p, Period::Weeks(2));
}

#[test]
fn date_parses() {
    assert_eq!(Date::parse("2024-05-10"), Ok(Date { year: 2024, month: 5, day: 10 }));
    assert_eq!(Date::parse("0-0-0"), Ok(Date { year: 0, month: 0, day: 0 }));
    assert_eq!(Date::parse("+2024-05-10"), Ok(Date { year: 2024, month: 5, day: 10 }));
}

#[test]
fn date_rejects_bad_text() {
    for bad in ["2024-05", "2024/05/10", "70000-01-01", "2024-300-01", "2024-05-10-1", "a-b-c"] {
        assert_eq!(Date::parse(bad), Err(parse_error(Syntax::Date, bad)));
    }
}

#[test]
fn time_parses() {
    assert_eq!(Time::parse("09:00"), Ok(Time { hours: 9, minutes: 0 }));
    assert_eq!(Time::parse("23:59"), Ok(Time { hours: 23, minutes: 59 }));
    assert_eq!(Time::parse("1:5"), Ok(Time { hours: 1, minutes: 5 }));
}

#[test]
fn time_rejects_bad_text() {
    for bad in ["0900", "09:", ":30", "256:00", "09:60x", "-1:00"] {
        assert_eq!(Time::parse(bad), Err(parse_error(Syntax::Time, bad)));
    }
}

#[test]
fn description_splits_at_first_slash() {
    let d = Description::parse("BUG-1/fixed it/really");
    assert_eq!(d.tag, Some("BUG-1".to_string()));
    assert_eq!(d.description, "fixed it/really");
    let d = Description::parse("just words");
    assert_eq!(d.tag, None);
    assert_eq!(d.description, "just words");
    let d = Description::parse("tag/");
    assert_eq!(d.tag, Some("tag".to_string()));
    assert_eq!(d.description, "");
}

#[test]
fn format_names_in_any_case() {
    assert_eq!(Format::parse("CSV"), Ok(Format::Csv));
    assert_eq!(Format::parse("Table"), Ok(Format::Table));
    assert_eq!(Format::parse("list"), Ok(Format::List));
    assert_eq!(Format::parse("pretty"), Err(parse_error(Syntax::Format, "pretty")));
}

#[test]
fn text_helpers() {
    assert_eq!(split_once("a:b:c", ':'), Some(("a", "b:c")));
    assert_eq!(split_once("abc", ':'), None);
    assert_eq!(split_once("é:ü", ':'), Some(("é", "ü")));
    assert!(str_eq("abc", "abc"));
    assert!(!str_eq("abc", "abd"));
    assert_eq!(parse_uint("255", 255), Some(255));
    assert_eq!(parse_uint("256", 255), None);
    assert_eq!(parse_uint("+7", 255), Some(7));
    assert_eq!(parse_uint("+", 255), None);
    assert_eq!(parse_uint("007", 255), Some(7));
}

#[test]
fn error_constructors() {
    assert_eq!(GlobalError::parse(Syntax::Date, "x"), parse_error(Syntax::Date, "x"));
    assert_eq!(
        GlobalError::wrong_byte_len(Record::Tag, 3, 28),
        GlobalError::WrongByteLen { record: Record::Tag, actual: 3, expected: 28 }
    );
    assert_eq!(GlobalError::desc_only_tag("t"), GlobalError::DescOnlyTag { tag: "t".to_string() });
    assert_eq!(
        GlobalError::fs("load", "tags"),
        GlobalError::Fs { action: "load".to_string(), typ: "tags".to_string() }
    );
    assert_eq!(
        GlobalError::desc_already_specified("t", "d"),
        GlobalError::DescAlreadySpecified { tag: "t".to_string(), description: "d".to_string() }
    );
    assert_eq!(GlobalError::desc_not_specified(), GlobalError::DescNotSpecified);
    assert_eq!(GlobalError::pnch_already_closed(), GlobalError::PnchAlreadyClosed);
    assert_eq!(GlobalError::pnch_not_exists(), GlobalError::PnchNotExists);
    assert_eq!(GlobalError::pnch_not_open(), GlobalError::PnchNotOpen);
    assert_eq!(GlobalError::formatting("csv"), GlobalError::Formatting { typ: "csv".to_string() });
    assert_eq!(GlobalError::ls_uncomplete_range(), GlobalError::LsUncompleteRange);
    let (a, b) = (Time { hours: 9, minutes: 0 }, Time { hours: 8, minutes: 0 });
    assert_eq!(GlobalError::pnch_out_before_in(a, b), GlobalError::PnchOutBeforeIn { time_in: a, out: b });
    assert_eq!(GlobalError::pnch_already_open(), GlobalError::PnchAlreadyOpen);
    assert_eq!(GlobalError::tag_table_full(), GlobalError::TagTableFull);
    assert_eq!(GlobalError::config_invalid_key("k"), GlobalError::ConfigInvalidKey { key: "k".to_string() });
}

#[test]
fn time_default_is_a_clock_time() {
    let now = Time::default();
    assert!(now.hours < 24 && now.minutes < 60);
}

#[test]
fn from_str_matches_parse() {
    let d: Description = "BUG-1/fixed it".parse().unwrap();
    assert_eq!(d.tag, Some("BUG-1".to_string()));
    assert_eq!(d.description, "fixed it");
    let f: Format = "CSV".parse().unwrap();
    assert_eq!(f, Format::Csv);
    let day: Date = "2024-05-10".parse().unwrap();
    assert_eq!(day, Date { year: 2024, month: 5, day: 10 });
    let time: Time = "9:05".parse().unwrap();
    assert_eq!(time, Time { hours: 9, minutes: 5 });
    assert_eq!("nope".parse::<Time>(), Err(parse_error(Syntax::Time, "nope")));
}
