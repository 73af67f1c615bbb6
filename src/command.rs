//! One invocation of the tracker: a command applied to the stores of a run.

use vstd::prelude::*;

use crate::config::Config;
use crate::error::GlobalError;
use crate::pnch::{
    closed_with, find_id, out_fails, Description, Format, Pnch, PnchView, Pnchs,
};
use crate::query::listing;
use crate::tag::{intern, Tag, TagView, Tags, NO_TAG_ID};
use crate::time::{Date, Period, Time};

verus! {

/// The description given to `in` or `out`, and the time to record.
#[derive(Debug, Clone, PartialEq, Eq)]
pub struct Entry {
    pub description: Option<Description>,
    pub time: Time,
}

/// One invocation of the tracker.
#[derive(Debug, Clone, PartialEq, Eq)]
pub enum Commands {
    /// Opens a punch.
    In(Entry),
    /// Closes the last punch.
    Out(Entry),
    /// Overwrites fields of the punch with id `id`, or of the last punch.
    Edit {
        description: Option<Description>,
        id: Option<u32>,
        time_in: Option<Time>,
        out: Option<Time>,
    },
    /// Lists the punches that pass any one date bound (`since`, `from..to`,
    /// and the rolling window of `last` or of the configured default period),
    /// then the tag filter.
    Ls {
        since: Option<Date>,
        last: Option<Period>,
        from: Option<Date>,
        to: Option<Date>,
        tag: Option<String>,
        format: Option<Format>,
    },
    /// Sets one configuration key.
    Config { key: String, value: String },
}

/// The parsed command line.
#[derive(Debug, Clone, PartialEq, Eq)]
pub struct Cli {
    pub command: Commands,
}

/// What a successful invocation did, and so what is left to save or print.
#[derive(Debug, PartialEq, Eq)]
pub enum Outcome {
    /// A punch was opened: punches and tags are to be saved.
    PunchedIn,
    /// The last punch was closed: punches and tags are to be saved.
    PunchedOut,
    /// A punch was edited: punches and tags are to be saved.
    Edited,
    /// The punches to print, and how.
    Listed { pnchs: Pnchs, format: Option<Format> },
    /// The configuration changed and is to be saved.
    ConfigUpdated,
}

pub open spec fn tag_view(t: Option<Tag>) -> Option<TagView> {
    match t {
        Some(t) => Some(t@),
        None => None,
    }
}

pub open spec fn text_view(s: Option<String>) -> Option<Seq<char>> {
    match s {
        Some(s) => Some(s@),
        None => None,
    }
}

/// The tag table after taking in a description, the tag it names (interned
/// in the table) and its text.
pub open spec fn tagging(tags: Seq<TagView>, d: Option<Description>) -> (
    Seq<TagView>,
    Option<TagView>,
    Option<Seq<char>>,
) {
    match d {
        Some(d) => match d.tag {
            Some(t) => (intern(tags, t@).0, Some(intern(tags, t@).1), Some(d.description@)),
            None => (tags, None, Some(d.description@)),
        },
        None => (tags, None, None),
    }
}

/// Interns the tag of a description and hands back the tag and the text.
fn take_description(tags: &mut Tags, description: Option<Description>) -> (r: (
    Option<Tag>,
    Option<String>,
))
    requires
        old(tags)@.len() < NO_TAG_ID,
    ensures
        (final(tags)@, tag_view(r.0), text_view(r.1)) == tagging(old(tags)@, description),
{
    match description {
        Some(d) => {
            let tag = match d.tag {
                Some(t) => Some(tags.get_or_insert(t)),
                None => None,
            };
            (tag, Some(d.description))
        },
        None => (None, None),
    }
}

/// The punch that an edit leaves: a given out or in time replaces the old
/// one, and a given description replaces the description and the tag.
pub open spec fn edited(
    p: PnchView,
    out: Option<Time>,
    time_in: Option<Time>,
    tag: Option<TagView>,
    description: Option<Seq<char>>,
) -> PnchView {
    PnchView {
        out: if out is Some {
            out
        } else {
            p.out
        },
        time_in: match time_in {
            Some(t) => t,
            None => p.time_in,
        },
        tag: if description is Some {
            tag
        } else {
            p.tag
        },
        description: if description is Some {
            description
        } else {
            p.description
        },
        ..p
    }
}

/// The period of the rolling window of a listing: the one given, or the
/// configured default.
pub open spec fn window_period(last: Option<Period>, config: Config) -> Period {
    match last {
        Some(p) => p,
        None => config.ls_default_period,
    }
}

/// The range that both ends give.
pub open spec fn date_range(from: Option<Date>, to: Option<Date>) -> Option<(Date, Date)> {
    match (from, to) {
        (Some(f), Some(t)) => Some((f, t)),
        _ => None,
    }
}

/// The slot that an edit targets: the first punch with the id, or the last.
pub open spec fn edit_target(s: Seq<PnchView>, id: Option<u32>) -> Option<int> {
    match id {
        Some(id) => find_id(s, id),
        None => if s.len() > 0 {
            Some(s.len() - 1)
        } else {
            None
        },
    }
}

/// The configuration after setting `key` to `value`, or `None` where the key
/// is unknown or the value does not parse.
pub open spec fn set_config(c: Config, key: Seq<char>, value: Seq<char>) -> Option<Config> {
    if key == "ls-default-period"@ {
        match Period::spec_parse(value) {
            Some(p) => Some(Config { ls_default_period: p, ..c }),
            None => None,
        }
    } else if key == "print-color"@ {
        if value == "true"@ || value == "false"@ {
            Some(Config { print_color: value == "true"@, ..c })
        } else {
            None
        }
    } else {
        None
    }
}

/// Carries out one command on the stores of a run. Nothing is saved here:
/// the outcome says what is left to save. Listing moves the punches into the
/// outcome.
pub fn run(args: Cli, tags: &mut Tags, pnchs: &mut Pnchs, config: &mut Config) -> (r: Result<
    Outcome,
    GlobalError,
>)
    requires
        old(tags)@.len() < NO_TAG_ID,
    ensures
        !(args.command is Config) ==> *final(config) == *old(config),
        args.command matches Commands::In(e) ==> {
            let (t, tag, desc) = tagging(old(tags)@, e.description);
            &&& final(tags)@ == t
            &&& old(pnchs)@.len() > 0 && old(pnchs)@.last().out is None ==> r == Err::<
                Outcome,
                GlobalError,
            >(GlobalError::PnchAlreadyOpen) && final(pnchs)@ == old(pnchs)@
            &&& !(old(pnchs)@.len() > 0 && old(pnchs)@.last().out is None) ==> (r matches Ok(
                Outcome::PunchedIn,
            ) && final(pnchs)@.drop_last() == old(pnchs)@ && final(pnchs)@.len() == old(
                pnchs,
            )@.len() + 1 && final(pnchs)@.last() == (PnchView {
                id: old(pnchs)@.len() as u32,
                date: final(pnchs)@.last().date,
                time_in: e.time,
                out: None,
                tag,
                description: desc,
            }) && 1 <= final(pnchs)@.last().date.month <= 12
                && 1 <= final(pnchs)@.last().date.day <= 31)
        },
        args.command matches Commands::Out(e) ==> {
            let (t, tag, desc) = tagging(old(tags)@, e.description);
            let s = old(pnchs)@;
            &&& s.len() == 0 ==> r == Err::<Outcome, GlobalError>(GlobalError::PnchNotOpen)
                && final(pnchs)@ == s && final(tags)@ == old(tags)@
            &&& s.len() > 0 ==> final(tags)@ == t
            &&& s.len() > 0 && !out_fails(s.last(), e.time, desc) ==> (r matches Ok(
                Outcome::PunchedOut,
            ) && final(pnchs)@ == s.update(s.len() - 1, closed_with(s.last(), e.time, tag, desc)))
            &&& s.len() > 0 && out_fails(s.last(), e.time, desc) ==> r is Err && final(pnchs)@
                == s
        },
        args.command matches Commands::Edit { description, id, time_in, out } ==> {
            let (t, tag, desc) = tagging(old(tags)@, description);
            let s = old(pnchs)@;
            &&& edit_target(s, id) is None ==> r == Err::<Outcome, GlobalError>(
                GlobalError::PnchNotOpen,
            ) && final(pnchs)@ == s && final(tags)@ == old(tags)@
            &&& edit_target(s, id) matches Some(i) ==> (r matches Ok(Outcome::Edited)
                && final(tags)@ == t && final(pnchs)@ == s.update(
                i,
                edited(s[i], out, time_in, tag, desc),
            ))
        },
        args.command matches Commands::Ls { since, last, from, to, tag, format } ==> {
            &&& final(tags)@ == old(tags)@
            &&& from.is_some() != to.is_some() ==> r == Err::<Outcome, GlobalError>(
                GlobalError::LsUncompleteRange,
            )
            &&& from.is_some() == to.is_some() ==> (r matches Ok(
                Outcome::Listed { pnchs: l, format: f },
            ) && f == format && exists|year: i32, month: u8, day: u8|
                {
                    &&& 1 <= month <= 12 && 1 <= day <= 31
                    &&& l@ == #[trigger] listing(
                        old(pnchs)@,
                        since,
                        Some(window_period(last, *old(config)).spec_date_since(year, month, day)),
                        date_range(from, to),
                        text_view(tag),
                    )
                })
        },
        args.command matches Commands::Config { key, value } ==> {
            &&& final(tags)@ == old(tags)@
            &&& final(pnchs)@ == old(pnchs)@
            &&& set_config(*old(config), key@, value@) matches Some(c) ==> (r matches Ok(
                Outcome::ConfigUpdated,
            ) && *final(config) == c)
            &&& set_config(*old(config), key@, value@) is None ==> r is Err && *final(config)
                == *old(config)
        },
{
    match args.command {
        Commands::In(Entry { description, time }) => {
            let (tag, description) = take_description(tags, description);
            let id = pnchs.0.len() as u32;
            match pnchs._in(Pnch::new(id, time, tag, description)) {
                Ok(()) => Ok(Outcome::PunchedIn),
                Err(e) => Err(e),
            }
        },
        Commands::Out(Entry { description, time }) => {
            match pnchs.get_last() {
                Some(pnch) => {
                    let (tag, description) = take_description(tags, description);
                    match pnch.out(time, tag, description) {
                        Ok(()) => Ok(Outcome::PunchedOut),
                        Err(e) => Err(e),
                    }
                },
                None => Err(GlobalError::pnch_not_open()),
            }
        },
        Commands::Edit { description, id, time_in, out } => {
            proof {
                if let Some(id) = id {
                    crate::pnch::lemma_find_id_bounds(pnchs@, id);
                }
            }
            let pnch = match id {
                Some(id) => pnchs.get(id),
                None => pnchs.get_last(),
            };
            match pnch {
                Some(pnch) => {
                    if let Some(out) = out {
                        pnch.out = Some(out);
                    }
                    if let Some(time_in) = time_in {
                        pnch._in = time_in;
                    }
                    if description.is_some() {
                        let (tag, text) = take_description(tags, description);
                        pnch.tag = tag;
                        pnch.description = text;
                    }
                    proof {
                        let i = edit_target(old(pnchs)@, id)->0;
                        assert(pnchs@ =~= old(pnchs)@.update(i, pnchs.0@[i]@));
                    }
                    Ok(Outcome::Edited)
                },
                None => Err(GlobalError::pnch_not_open()),
            }
        },
        Commands::Ls { since, last, from, to, tag, format } => {
            if from.is_some() != to.is_some() {
                return Err(GlobalError::ls_uncomplete_range());
            }
            let period = match last {
                Some(period) => period,
                None => config.ls_default_period,
            };
            let last_date = Some(period.to_date_since_today());
            let range = match (from, to) {
                (Some(f), Some(t)) => Some((f, t)),
                _ => None,
            };
            let mut all = Pnchs(Vec::new());
            core::mem::swap(pnchs, &mut all);
            let listed = match &tag {
                Some(t) => all.filter(since, last_date, range, Some(t.as_str())),
                None => all.filter(since, last_date, range, None),
            };
            Ok(Outcome::Listed { pnchs: listed, format })
        },
        Commands::Config { key, value } => {
            match config.try_set(key.as_str(), value.as_str()) {
                Ok(()) => Ok(Outcome::ConfigUpdated),
                Err(e) => Err(e),
            }
        },
    }
}

} // verus!
