use pnch::codec::{push_text_field, read_text_field, strip_zeros};
use pnch::config::Config;
use pnch::error::{GlobalError, Record};
use pnch::pnch::{Pnch, Pnchs};
use pnch::tag::{Tag, Tags};
use pnch::time::{Date, Period, Time};

fn tag(id: u32, text: &str) -> Tag {
    Tag { id, tag: text.to_string() }
}

fn pnch(id: u32, date: Date, time_in: Time, out: Option<Time>, tag: Option<Tag>, description: Option<&str>) -> Pnch {
    Pnch { id, date, _in: time_in, out, tag, description: description.map(|d| d.to_string()) }
}

fn d(year: u16, month: u8, day: u8) -> Date {
    Date { year, month, day }
}

fn t(hours: u8, minutes: u8) -> Time {
    Time { hours, minutes }
}

#[test]
fn date_and_time_bytes() {
    assert_eq!(d(2024, 5, 10).to_le_bytes(), [0xE8, 0x07, 5, 10]);
    assert_eq!(Date::try_from_bytes(&[0xE8, 0x07, 5, 10]), Ok(d(2024, 5, 10)));
    assert_eq!(t(9, 30).to_le_bytes(), [9, 30]);
    assert_eq!(Time::try_from_bytes(&[9, 30]), Ok(t(9, 30)));
    assert_eq!(Time::none().to_le_bytes(), [0xFF, 0xFF]);
    assert_eq!(
        Date::try_from_bytes(&[1, 2, 3]),
        Err(GlobalError::WrongByteLen { record: Record::Date, actual: 3, expected: 4 })
    );
    assert_eq!(
        Time::try_from_bytes(&[1, 2, 3]),
        Err(GlobalError::WrongByteLen { record: Record::Time, actual: 3, expected: 2 })
    );
}

#[test]
fn date_bounds() {
    assert_eq!(Date::min(), d(0, 0, 0));
    assert_eq!(Date::max(), d(u16::MAX, 12, 31));
    assert_eq!(Date::from_calendar(-5, 3, 4), d(0, 3, 4));
    assert_eq!(Date::from_calendar(70000, 3, 4), d(0, 3, 4));
    assert_eq!(Date::from_calendar(2023, 12, 31), d(2023, 12, 31));
}

#[test]
fn clock_values_are_in_range() {
    let today = Date::today();
    assert!((1..=12).contains(&today.month) && (1..=31).contains(&today.day));
    let now = Time::now();
    assert!(now.hours < 24 && now.minutes < 60);
    let week_ago = Period::Weeks(1).to_date_since_today();
    assert!(week_ago.is_before(&today));
    assert_eq!(Period::Days(0).to_date_since_today(), Date::today());
    assert_eq!(Period::Years(u32::MAX).to_date_since_today(), Date::min());
}

#[test]
fn tag_bytes_layout() {
    let bytes = tag(3, "ab").to_bytes().unwrap();
    assert_eq!(bytes.len(), 28);
    assert_eq!(&bytes[..6], &[3, 0, 0, 0, b'a', b'b']);
    assert!(bytes[6..].iter().all(|&b| b == 0));
}

#[test]
fn tag_round_trip() {
    for original in [tag(0, "BUG-1"), tag(7, ""), tag(12, "ünïcødé"), tag(1, "exactly-twenty-four-byte")] {
        let bytes = original.to_bytes().unwrap();
        assert_eq!(Tag::try_from_bytes(&bytes), Ok(original));
    }
}

#[test]
fn tag_text_with_zero_byte_fails() {
    assert_eq!(tag(0, "a\0b").to_bytes(), Err(GlobalError::NulInText));
}

#[test]
fn tag_text_too_long_fails() {
    assert_eq!(
        tag(0, "twenty-five-bytes-of-text").to_bytes(),
        Err(GlobalError::TextTooLong { actual: 25, max: 24 })
    );
}

#[test]
fn tag_decoding_errors() {
    assert_eq!(
        Tag::try_from_bytes(&[0; 27]),
        Err(GlobalError::WrongByteLen { record: Record::Tag, actual: 27, expected: 28 })
    );
    let mut bytes = vec![0u8; 28];
    bytes[4] = 0xC3;
    assert_eq!(Tag::try_from_bytes(&bytes), Err(GlobalError::BadString));
}

#[test]
fn tag_none_is_sentinel() {
    let none = Tag::none();
    assert_eq!(none.id, u32::MAX);
    assert_eq!(none.tag, "");
}

#[test]
fn text_fields() {
    let mut out = vec![9u8];
    assert_eq!(push_text_field(&mut out, "hé", 5), Ok(()));
    assert_eq!(out, vec![9, b'h', 0xC3, 0xA9, 0, 0]);
    assert_eq!(strip_zeros(&[0, 1, 0, 2, 0]), vec![1, 2]);
    assert_eq!(read_text_field(&[b'h', 0xC3, 0xA9, 0, 0]), Ok("hé".to_string()));
    assert_eq!(read_text_field(&[0xFF, 0]), Err(GlobalError::BadString));
    let mut out = Vec::new();
    assert_eq!(push_text_field(&mut out, "abc", 2), Err(GlobalError::TextTooLong { actual: 3, max: 2 }));
    assert!(out.is_empty());
}

#[test]
fn tags_get_or_insert_interns() {
    let mut tags = Tags::new();
    let first = tags.get_or_insert("BUG-1".to_string());
    assert_eq!(first, tag(0, "BUG-1"));
    assert_eq!(tags.len(), 1);
    let again = tags.get_or_insert("BUG-1".to_string());
    assert_eq!(again.id, first.id);
    assert_eq!(tags.len(), 1);
    let other = tags.get_or_insert("BUG-2".to_string());
    assert_eq!(other, tag(1, "BUG-2"));
    assert_eq!(tags.len(), 2);
}

#[test]
fn tags_get_by_id() {
    let mut tags = Tags::new();
    tags.get_or_insert("a".to_string());
    tags.get_or_insert("b".to_string());
    assert_eq!(tags.get(1), Some(tag(1, "b")));
    assert_eq!(tags.get(2), None);
    assert_eq!(tags.get(u32::MAX), None);
}

#[test]
fn tags_save_and_load() {
    let mut tags = Tags::new();
    tags.get_or_insert("a".to_string());
    tags.get_or_insert("bb".to_string());
    let bytes = tags.save().unwrap();
    assert_eq!(bytes.len(), 56);
    let loaded = Tags::load(&bytes).unwrap();
    assert_eq!(loaded.len(), 2);
    assert_eq!(loaded.get(0), Some(tag(0, "a")));
    assert_eq!(loaded.get(1), Some(tag(1, "bb")));
    assert_eq!(Tags::load(&[]).unwrap().len(), 0);
}

#[test]
fn tags_load_rejects_partial_record() {
    assert_eq!(
        Tags::load(&[0u8; 30]).err(),
        Some(GlobalError::WrongByteLen { record: Record::Tag, actual: 2, expected: 28 })
    );
}

#[test]
fn tags_save_rejects_unstorable_tag() {
    let mut tags = Tags::new();
    tags.get_or_insert("a\0".to_string());
    assert_eq!(tags.save().err(), Some(GlobalError::NulInText));
}

#[test]
fn pnch_bytes_layout() {
    let p = pnch(0, d(2024, 5, 10), t(9, 0), None, None, Some("x"));
    let bytes = p.to_bytes().unwrap();
    assert_eq!(bytes.len(), 92);
    assert_eq!(&bytes[..13], &[0xE8, 0x07, 5, 10, 9, 0, 0xFF, 0xFF, 0xFF, 0xFF, 0xFF, 0xFF, b'x']);
    assert!(bytes[13..].iter().all(|&b| b == 0));
}

#[test]
fn pnch_round_trip() {
    let mut tags = Tags::new();
    let bug = tags.get_or_insert("BUG-1".to_string());
    let cases = [
        pnch(0, d(2024, 5, 10), t(9, 0), None, None, None),
        pnch(1, d(2024, 5, 10), t(9, 0), Some(t(10, 15)), Some(bug.clone()), Some("fixed it")),
        pnch(2, d(1999, 12, 31), t(23, 59), Some(t(23, 59)), None, Some("é, ü and ✓")),
    ];
    for original in cases {
        let bytes = original.to_bytes().unwrap();
        let decoded = Pnch::try_from_bytes(original.id, &bytes, &tags).unwrap();
        assert_eq!(decoded, original);
    }
}

#[test]
fn pnch_unknown_tag_id_decodes_without_tag() {
    let tags = Tags::new();
    let p = pnch(0, d(2024, 5, 10), t(9, 0), None, Some(tag(5, "gone")), Some("x"));
    let decoded = Pnch::try_from_bytes(0, &p.to_bytes().unwrap(), &tags).unwrap();
    assert_eq!(decoded.tag, None);
}

#[test]
fn pnch_description_with_zero_byte_fails() {
    let p = pnch(0, d(2024, 5, 10), t(9, 0), None, None, Some("a\0b"));
    assert_eq!(p.to_bytes(), Err(GlobalError::NulInText));
}

#[test]
fn pnch_description_too_long_fails() {
    let long = "x".repeat(81);
    let p = pnch(0, d(2024, 5, 10), t(9, 0), None, None, Some(&long));
    assert_eq!(p.to_bytes(), Err(GlobalError::TextTooLong { actual: 81, max: 80 }));
}

#[test]
fn pnch_decoding_errors() {
    let tags = Tags::new();
    assert_eq!(
        Pnch::try_from_bytes(0, &[0; 91], &tags),
        Err(GlobalError::WrongByteLen { record: Record::Pnch, actual: 91, expected: 92 })
    );
    let mut bytes = vec![0u8; 92];
    bytes[12] = 0xFF;
    assert_eq!(Pnch::try_from_bytes(0, &bytes, &tags), Err(GlobalError::BadString));
}

#[test]
fn pnchs_load_sorts_by_date_then_time() {
    let tags = Tags::new();
    let records = [
        pnch(0, d(2024, 5, 11), t(8, 0), Some(t(9, 0)), None, Some("c")),
        pnch(0, d(2024, 5, 10), t(14, 0), Some(t(15, 0)), None, Some("b")),
        pnch(0, d(2024, 5, 10), t(9, 0), Some(t(10, 0)), None, Some("a")),
        pnch(0, d(2023, 12, 31), t(23, 0), None, None, None),
    ];
    let mut bytes = Vec::new();
    for r in &records {
        bytes.extend(r.to_bytes().unwrap());
    }
    let loaded = Pnchs::load(&bytes, &tags).unwrap();
    let order: Vec<(u32, Date, Time)> = loaded.0.iter().map(|p| (p.id, p.date, p._in)).collect();
    assert_eq!(
        order,
        vec![
            (3, d(2023, 12, 31), t(23, 0)),
            (2, d(2024, 5, 10), t(9, 0)),
            (1, d(2024, 5, 10), t(14, 0)),
            (0, d(2024, 5, 11), t(8, 0)),
        ]
    );
}

#[test]
fn pnchs_load_rejects_partial_record() {
    let tags = Tags::new();
    assert_eq!(
        Pnchs::load(&[0u8; 100], &tags).err(),
        Some(GlobalError::WrongByteLen { record: Record::Pnch, actual: 8, expected: 92 })
    );
}

#[test]
fn pnchs_save_keeps_memory_order() {
    let a = pnch(0, d(2024, 5, 11), t(8, 0), Some(t(9, 0)), None, Some("late"));
    let b = pnch(1, d(2024, 5, 10), t(8, 0), Some(t(9, 0)), None, Some("early"));
    let store = Pnchs(vec![a.clone(), b.clone()]);
    let bytes = store.save().unwrap();
    assert_eq!(bytes.len(), 184);
    assert_eq!(bytes[..92].to_vec(), a.to_bytes().unwrap());
    assert_eq!(bytes[92..].to_vec(), b.to_bytes().unwrap());
}

#[test]
fn config_defaults_on_empty_blob() {
    let config = Config::load(&[]).unwrap();
    assert!(config.print_color);
    assert_eq!(config.ls_default_period, Period::Weeks(2));
    assert_eq!(config.ls_default_period.as_days(), 14);
    assert_eq!(Config::default(), config);
}

#[test]
fn config_round_trip() {
    let config = Config { print_color: false, ls_default_period: Period::Days(28) };
    let bytes = config.save();
    assert_eq!(bytes, vec![0, 28, 0, 0, 0]);
    assert_eq!(Config::load(&bytes), Ok(config));
    let weeks = Config { print_color: true, ls_default_period: Period::Weeks(3) };
    assert_eq!(
        Config::load(&weeks.save()),
        Ok(Config { print_color: true, ls_default_period: Period::Days(21) })
    );
}

#[test]
fn config_saturates_huge_period() {
    let config = Config { print_color: true, ls_default_period: Period::Years(u32::MAX) };
    assert_eq!(config.save(), vec![1, 0xFF, 0xFF, 0xFF, 0xFF]);
}

#[test]
fn config_wrong_length() {
    assert_eq!(
        Config::load(&[1, 2, 3]),
        Err(GlobalError::WrongByteLen { record: Record::Config, actual: 3, expected: 5 })
    );
    assert_eq!(
        Config::load(&[7, 1, 0, 0, 0]),
        Ok(Config { print_color: true, ls_default_period: Period::Days(1) })
    );
}

#[test]
fn config_try_set() {
    let mut config = Config::default();
    assert_eq!(config.try_set("print-color", "false"), Ok(()));
    assert!(!config.print_color);
    assert_eq!(config.try_set("ls-default-period", "28 days"), Ok(()));
    assert_eq!(config.ls_default_period, Period::Days(28));
    assert_eq!(
        config.try_set("print-color", "yes"),
        Err(GlobalError::Parse { syntax: pnch::error::Syntax::Bool, value: "yes".to_string() })
    );
    assert_eq!(
        config.try_set("ls-default-period", "soon"),
        Err(GlobalError::Parse { syntax: pnch::error::Syntax::Period, value: "soon".to_string() })
    );
    assert_eq!(
        config.try_set("colour", "true"),
        Err(GlobalError::ConfigInvalidKey { key: "colour".to_string() })
    );
    assert_eq!(config, Config { print_color: false, ls_default_period: Period::Days(28) });
}

#[test]
fn date_and_time_text() {
    assert_eq!(d(2024, 5, 9).to_text(), "2024-05-09");
    assert_eq!(d(7, 12, 31).to_text(), "0007-12-31");
    assert_eq!(d(65535, 255, 0).to_text(), "65535-255-00");
    assert_eq!(t(9, 5).to_text(), "9:05");
    assert_eq!(t(23, 59).to_text(), "23:59");
    assert_eq!(t(0, 0).to_text(), "0:00");
}

#[test]
fn decimal_helpers() {
    let mut s = String::from("x");
    pnch::text::push_decimal(&mut s, 4294967295);
    assert_eq!(s, "x4294967295");
    let mut s = String::new();
    pnch::text::push_zero_padded(&mut s, 42, 5);
    assert_eq!(s, "00042");
    let mut s = String::new();
    pnch::text::push_zero_padded(&mut s, 123456, 2);
    assert_eq!(s, "123456");
    assert_eq!(pnch::text::decimal_len(0), 1);
    assert_eq!(pnch::text::decimal_len(1000), 4);
}

#[test]
fn csv_export() {
    let store = Pnchs(vec![
        pnch(0, d(2024, 5, 10), t(9, 0), Some(t(10, 30)), Some(tag(0, "BUG-1")), Some("fixed it")),
        pnch(1, d(2024, 5, 11), t(14, 5), None, None, None),
    ]);
    assert_eq!(
        store.into_csv(),
        Ok("BUG-1,fixed it,2024-05-10,9:00,10:30\n,,2024-05-11,14:05,\n".to_string())
    );
    assert_eq!(Pnchs(Vec::new()).into_csv(), Ok(String::new()));
}

#[test]
fn pnchs_load_keeps_record_order_on_ties() {
    let tags = Tags::new();
    let records = [
        pnch(0, d(2024, 5, 11), t(9, 0), None, None, Some("late")),
        pnch(0, d(2024, 5, 10), t(9, 0), Some(t(9, 0)), None, Some("first")),
        pnch(0, d(2024, 5, 10), t(9, 0), Some(t(9, 30)), None, Some("second")),
    ];
    let mut bytes = Vec::new();
    for r in &records {
        bytes.extend(r.to_bytes().unwrap());
    }
    let loaded = Pnchs::load(&bytes, &tags).unwrap();
    let order: Vec<(u32, Option<String>)> = loaded.0.iter().map(|p| (p.id, p.description.clone())).collect();
    assert_eq!(
        order,
        vec![(1, Some("first".to_string())), (2, Some("second".to_string())), (0, Some("late".to_string()))]
    );
}

#[test]
fn date_from_found() {
    assert_eq!(Date::from_found(None), Date::min());
    assert_eq!(Date::from_found(Some((2024, 2, 29))), d(2024, 2, 29));
    assert_eq!(Date::from_found(Some((-3, 2, 1))), d(0, 2, 1));
}

#[test]
fn period_counts_back_from_today() {
    let today = Date::today();
    let a = Period::Days(10).to_date_since_today();
    let b = Period::Weeks(2).to_date_since_today();
    assert!(b.is_before(&a) && a.is_before(&today));
    assert_eq!(Period::Days(0).to_date_since_today(), today);
}

#[test]
fn pnchs_load_ignores_file_order() {
    let tags = Tags::new();
    let a = pnch(0, d(2024, 5, 11), t(8, 0), Some(t(9, 0)), None, Some("a"));
    let b = pnch(0, d(2024, 5, 10), t(14, 0), Some(t(15, 0)), None, Some("b"));
    let c = pnch(0, d(2024, 5, 10), t(9, 0), None, None, None);
    let blob = |records: &[&Pnch]| -> Vec<u8> { records.iter().flat_map(|r| r.to_bytes().unwrap()).collect() };
    let first = Pnchs::load(&blob(&[&a, &b, &c]), &tags).unwrap();
    let second = Pnchs::load(&blob(&[&c, &a, &b]), &tags).unwrap();
    let strip = |p: &Pnchs| -> Vec<Pnch> { p.0.iter().map(|x| Pnch { id: 0, ..x.clone() }).collect() };
    assert_eq!(strip(&first), strip(&second));
    assert_eq!(strip(&first), vec![c.clone(), b.clone(), a.clone()]);
}

#[test]
fn period_date_since_a_given_day() {
    assert_eq!(Period::Days(1).date_since(2024, 3, 1), d(2024, 2, 29));
    assert_eq!(Period::Weeks(1).date_since(2024, 1, 3), d(2023, 12, 27));
    assert_eq!(Period::Months(1).date_since(2024, 3, 31), d(2024, 3, 1));
    assert_eq!(Period::Days(0).date_since(2024, 5, 10), d(2024, 5, 10));
    assert_eq!(Period::Days(1).date_since(2023, 2, 30), Date::min());
    assert_eq!(Period::Days(1).date_since(2023, 13, 1), Date::min());
}
