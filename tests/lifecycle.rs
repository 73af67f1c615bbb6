use pnch::command::{run, Cli, Commands, Entry, Outcome};
use pnch::config::Config;
use pnch::error::GlobalError;
use pnch::pnch::{Description, Format, Pnch, Pnchs};
use pnch::tag::{Tag, Tags};
use pnch::time::{Date, Period, Time};

fn d(year: u16, month: u8, day: u8) -> Date {
    Date { year, month, day }
}

fn t(hours: u8, minutes: u8) -> Time {
    Time { hours, minutes }
}

fn open(date: Date, time_in: Time, description: Option<&str>) -> Pnch {
    Pnch { id: 0, date, _in: time_in, out: None, tag: None, description: description.map(|s| s.to_string()) }
}

fn closed(id: u32, date: Date, tag: Option<Tag>) -> Pnch {
    Pnch { id, date, _in: t(9, 0), out: Some(t(10, 0)), tag, description: Some("work".to_string()) }
}

fn entry(description: Option<&str>, time: Time) -> Entry {
    Entry { description: description.map(Description::parse), time }
}

fn cmd(command: Commands, tags: &mut Tags, pnchs: &mut Pnchs, config: &mut Config) -> Result<Outcome, GlobalError> {
    run(Cli { command }, tags, pnchs, config)
}

#[test]
fn punch_in_on_empty_store_appends() {
    let mut store = Pnchs(Vec::new());
    assert_eq!(store._in(open(d(2024, 1, 1), t(9, 0), None)), Ok(()));
    assert_eq!(store.0.len(), 1);
}

#[test]
fn punch_in_after_open_fails() {
    let mut store = Pnchs(vec![open(d(2024, 1, 1), t(9, 0), None)]);
    assert_eq!(store._in(open(d(2024, 1, 1), t(11, 0), None)), Err(GlobalError::PnchAlreadyOpen));
    assert_eq!(store.0.len(), 1);
}

#[test]
fn punch_in_after_closed_appends() {
    let mut store = Pnchs(vec![closed(0, d(2024, 1, 1), None)]);
    assert_eq!(store._in(open(d(2024, 1, 1), t(11, 0), None)), Ok(()));
    assert_eq!(store.0.len(), 2);
    assert_eq!(store.0[1]._in, t(11, 0));
}

#[test]
fn new_punch_is_open_and_dated_today() {
    let p = Pnch::new(4, t(8, 15), None, Some("x".to_string()));
    assert_eq!(p.id, 4);
    assert_eq!(p._in, t(8, 15));
    assert_eq!(p.out, None);
    assert_eq!(p.date, Date::today());
}

#[test]
fn out_before_in_fails_whatever_the_arguments() {
    let mut p = open(d(2024, 1, 1), t(9, 0), Some("desc"));
    assert_eq!(
        p.out(t(8, 30), None, None),
        Err(GlobalError::PnchOutBeforeIn { time_in: t(9, 0), out: t(8, 30) })
    );
    let tag = Some(Tag { id: 0, tag: "T".to_string() });
    assert_eq!(
        p.out(t(8, 59), tag, Some("other".to_string())),
        Err(GlobalError::PnchOutBeforeIn { time_in: t(9, 0), out: t(8, 59) })
    );
    assert_eq!(p.out, None);
}

#[test]
fn out_without_any_description_fails() {
    let mut p = open(d(2024, 1, 1), t(9, 0), None);
    assert_eq!(p.out(t(10, 0), None, None), Err(GlobalError::DescNotSpecified));
    let tag = Some(Tag { id: 0, tag: "T".to_string() });
    assert_eq!(p.out(t(10, 0), tag, None), Err(GlobalError::DescNotSpecified));
    assert_eq!(p.out(t(10, 0), None, Some(String::new())), Err(GlobalError::DescNotSpecified));
    assert_eq!(p, open(d(2024, 1, 1), t(9, 0), None));
}

#[test]
fn out_with_description_from_punch_in() {
    let mut p = open(d(2024, 1, 1), t(9, 0), Some("desc"));
    assert_eq!(p.out(t(9, 0), None, None), Ok(()));
    assert_eq!(p.out, Some(t(9, 0)));
    assert_eq!(p.description, Some("desc".to_string()));
    assert_eq!(p.duration(), Some(0));
}

#[test]
fn out_cannot_overwrite_description() {
    let mut p = open(d(2024, 1, 1), t(9, 0), Some("desc"));
    let tag = Some(Tag { id: 0, tag: "T".to_string() });
    assert_eq!(
        p.out(t(10, 0), tag, Some("new".to_string())),
        Err(GlobalError::DescAlreadySpecified { tag: "T".to_string(), description: "new".to_string() })
    );
    assert_eq!(p.out, None);
}

#[test]
fn out_twice_fails() {
    let mut p = open(d(2024, 1, 1), t(9, 0), Some("desc"));
    assert_eq!(p.out(t(10, 0), None, None), Ok(()));
    assert_eq!(p.out(t(11, 0), None, None), Err(GlobalError::PnchAlreadyClosed));
    assert_eq!(p.out, Some(t(10, 0)));
}

#[test]
fn out_takes_tag_with_description() {
    let mut p = open(d(2024, 1, 1), t(9, 0), None);
    let tag = Tag { id: 2, tag: "T".to_string() };
    assert_eq!(p.out(t(10, 30), Some(tag.clone()), Some("done".to_string())), Ok(()));
    assert_eq!(p.tag, Some(tag));
    assert_eq!(p.description, Some("done".to_string()));
    assert_eq!(p.duration(), Some(90));
}

#[test]
fn total_duration_counts_closed_punches() {
    let store = Pnchs(vec![
        closed(0, d(2024, 1, 1), None),
        Pnch { out: Some(t(9, 45)), ..closed(1, d(2024, 1, 2), None) },
        open(d(2024, 1, 3), t(9, 0), None),
    ]);
    assert_eq!(store.duration(), 105);
    assert_eq!(Pnchs(Vec::new()).duration(), 0);
}

#[test]
fn get_and_get_last() {
    let mut store = Pnchs(vec![closed(5, d(2024, 1, 1), None), closed(3, d(2024, 1, 2), None)]);
    assert_eq!(store.get(3).map(|p| p.date), Some(d(2024, 1, 2)));
    assert!(store.get(4).is_none());
    if let Some(p) = store.get(5) {
        p._in = t(8, 0);
    }
    assert_eq!(store.0[0]._in, t(8, 0));
    assert_eq!(store.get_last().map(|p| p.id), Some(3));
    assert!(Pnchs(Vec::new()).get_last().is_none());
}

fn sample() -> Pnchs {
    let tag = Tag { id: 0, tag: "BUG-1".to_string() };
    Pnchs(vec![
        closed(0, d(2024, 1, 5), None),
        closed(1, d(2024, 2, 10), Some(tag.clone())),
        closed(2, d(2024, 3, 20), Some(tag)),
        closed(3, d(2024, 4, 1), Some(Tag { id: 1, tag: "OTHER".to_string() })),
    ])
}

fn ids(p: &Pnchs) -> Vec<u32> {
    p.0.iter().map(|p| p.id).collect()
}

#[test]
fn filter_bounds_are_a_union() {
    let listed = sample().filter(Some(d(2024, 3, 1)), None, Some((d(2024, 1, 1), d(2024, 1, 31))), None);
    assert_eq!(ids(&listed), vec![0, 2, 3]);
}

#[test]
fn filter_since_beats_failing_range() {
    let listed = sample().filter(Some(d(2024, 4, 1)), None, Some((d(2020, 1, 1), d(2020, 1, 2))), None);
    assert_eq!(ids(&listed), vec![3]);
}

#[test]
fn filter_without_bounds_keeps_all() {
    assert_eq!(ids(&sample().filter(None, None, None, None)), vec![0, 1, 2, 3]);
}

#[test]
fn filter_tag_narrows_and_drops_untagged() {
    let listed = sample().filter(Some(d(2024, 1, 1)), None, None, Some("BUG-1"));
    assert_eq!(ids(&listed), vec![1, 2]);
    let listed = sample().filter(None, Some(d(2024, 3, 1)), None, Some("BUG-1"));
    assert_eq!(ids(&listed), vec![2]);
    let listed = sample().filter(None, None, Some((d(2024, 1, 1), d(2024, 1, 31))), Some("BUG-1"));
    assert!(listed.0.is_empty());
}

#[test]
fn scenario_in_out_with_tag() {
    let mut tags = Tags::new();
    let mut store = Pnchs(Vec::new());
    let mut config = Config::default();
    assert_eq!(
        cmd(Commands::In(entry(None, t(9, 0))), &mut tags, &mut store, &mut config),
        Ok(Outcome::PunchedIn)
    );
    assert_eq!(store.0.len(), 1);
    assert_eq!(store.0[0].out, None);
    assert_eq!(store.0[0].tag, None);
    assert_eq!(
        cmd(Commands::Out(entry(None, t(8, 30))), &mut tags, &mut store, &mut config),
        Err(GlobalError::PnchOutBeforeIn { time_in: t(9, 0), out: t(8, 30) })
    );
    assert_eq!(
        cmd(Commands::Out(entry(Some("BUG-1/fixed it"), t(10, 0))), &mut tags, &mut store, &mut config),
        Ok(Outcome::PunchedOut)
    );
    let p = &store.0[0];
    assert_eq!(p.out, Some(t(10, 0)));
    assert_eq!(p.tag, Some(Tag { id: 0, tag: "BUG-1".to_string() }));
    assert_eq!(p.description, Some("fixed it".to_string()));
    assert_eq!(tags.get(0), Some(Tag { id: 0, tag: "BUG-1".to_string() }));
    assert_eq!(tags.len(), 1);
}

#[test]
fn run_in_twice_fails() {
    let mut tags = Tags::new();
    let mut store = Pnchs(Vec::new());
    let mut config = Config::default();
    assert!(cmd(Commands::In(entry(Some("a/b"), t(9, 0))), &mut tags, &mut store, &mut config).is_ok());
    assert_eq!(
        cmd(Commands::In(entry(None, t(9, 30))), &mut tags, &mut store, &mut config),
        Err(GlobalError::PnchAlreadyOpen)
    );
    assert_eq!(store.0.len(), 1);
}

#[test]
fn run_out_on_empty_store_fails() {
    let mut tags = Tags::new();
    let mut store = Pnchs(Vec::new());
    let mut config = Config::default();
    assert_eq!(
        cmd(Commands::Out(entry(Some("x"), t(9, 0))), &mut tags, &mut store, &mut config),
        Err(GlobalError::PnchNotOpen)
    );
    assert_eq!(tags.len(), 0);
}

#[test]
fn run_edit_overwrites_fields() {
    let mut tags = Tags::new();
    let mut store = sample();
    let mut config = Config::default();
    let edit = Commands::Edit {
        description: Some(Description::parse("NEW/changed")),
        id: Some(1),
        time_in: Some(t(7, 0)),
        out: Some(t(6, 0)),
    };
    assert_eq!(cmd(edit, &mut tags, &mut store, &mut config), Ok(Outcome::Edited));
    let p = &store.0[1];
    assert_eq!((p._in, p.out), (t(7, 0), Some(t(6, 0))));
    assert_eq!(p.tag, Some(Tag { id: 0, tag: "NEW".to_string() }));
    assert_eq!(p.description, Some("changed".to_string()));
    let missing = Commands::Edit { description: None, id: Some(9), time_in: None, out: None };
    assert_eq!(cmd(missing, &mut tags, &mut store, &mut config), Err(GlobalError::PnchNotOpen));
}

#[test]
fn run_ls_needs_both_range_ends() {
    let mut tags = Tags::new();
    let mut store = sample();
    let mut config = Config::default();
    let ls = Commands::Ls { since: None, last: None, from: Some(d(2024, 1, 1)), to: None, tag: None, format: None };
    assert_eq!(cmd(ls, &mut tags, &mut store, &mut config), Err(GlobalError::LsUncompleteRange));
}

#[test]
fn run_ls_lists_with_union_of_bounds() {
    let mut tags = Tags::new();
    let mut store = sample();
    let mut config = Config::default();
    let ls = Commands::Ls {
        since: Some(d(2024, 3, 1)),
        last: None,
        from: Some(d(2024, 1, 1)),
        to: Some(d(2024, 1, 31)),
        tag: None,
        format: Some(Format::Csv),
    };
    match cmd(ls, &mut tags, &mut store, &mut config) {
        Ok(Outcome::Listed { pnchs, format }) => {
            assert_eq!(ids(&pnchs), vec![0, 2, 3]);
            assert_eq!(format, Some(Format::Csv));
        }
        other => panic!("unexpected {:?}", other.err()),
    }
}

#[test]
fn run_ls_last_period() {
    let mut tags = Tags::new();
    let mut store = Pnchs(vec![closed(0, Date::today(), None), closed(1, d(2000, 1, 1), None)]);
    let mut config = Config::default();
    let ls = Commands::Ls { since: None, last: Some(Period::Days(3)), from: None, to: None, tag: None, format: None };
    match cmd(ls, &mut tags, &mut store, &mut config) {
        Ok(Outcome::Listed { pnchs, .. }) => assert_eq!(ids(&pnchs), vec![0]),
        other => panic!("unexpected {:?}", other.err()),
    }
}

#[test]
fn run_config_sets_key() {
    let mut tags = Tags::new();
    let mut store = Pnchs(Vec::new());
    let mut config = Config::default();
    let set = Commands::Config { key: "ls-default-period".to_string(), value: "3 days".to_string() };
    assert_eq!(cmd(set, &mut tags, &mut store, &mut config), Ok(Outcome::ConfigUpdated));
    assert_eq!(config.ls_default_period, Period::Days(3));
    let bad = Commands::Config { key: "nope".to_string(), value: "1".to_string() };
    assert_eq!(
        cmd(bad, &mut tags, &mut store, &mut config),
        Err(GlobalError::ConfigInvalidKey { key: "nope".to_string() })
    );
}

#[test]
fn out_cannot_overwrite_empty_description() {
    let mut p = open(d(2024, 1, 1), t(9, 0), Some(""));
    assert_eq!(
        p.out(t(10, 0), None, Some("new".to_string())),
        Err(GlobalError::DescAlreadySpecified { tag: String::new(), description: "new".to_string() })
    );
    assert_eq!(p.out(t(10, 0), None, None), Err(GlobalError::DescNotSpecified));
    assert_eq!(p, open(d(2024, 1, 1), t(9, 0), Some("")));
}

#[test]
fn run_ls_keeps_default_window_beside_since() {
    let mut tags = Tags::new();
    let mut store = Pnchs(vec![closed(0, Date::today(), None), closed(1, d(2000, 1, 1), None)]);
    let mut config = Config::default();
    let ls = Commands::Ls { since: Some(d(2030, 1, 1)), last: None, from: None, to: None, tag: None, format: None };
    match cmd(ls, &mut tags, &mut store, &mut config) {
        Ok(Outcome::Listed { pnchs, .. }) => assert_eq!(ids(&pnchs), vec![0]),
        other => panic!("unexpected {:?}", other.err()),
    }
}
