//! The failures that the library reports.

use vstd::prelude::*;

verus! {

/// The record whose bytes could not be decoded.
#[derive(Debug, Clone, Copy, PartialEq, Eq, Structural)]
pub enum Record {
    Date,
    Time,
    Tag,
    Pnch,
    Config,
}

/// The textual grammar that a value failed to follow.
#[derive(Debug, Clone, Copy, PartialEq, Eq, Structural)]
pub enum Syntax {
    Period,
    Date,
    Time,
    Bool,
    Format,
}

/// Every failure that the library reports.
#[derive(Debug, Clone, PartialEq, Eq)]
pub enum GlobalError {
    /// A value did not follow its grammar.
    Parse { syntax: Syntax, value: String },
    /// A chunk of bytes had the wrong length for its record.
    WrongByteLen { record: Record, actual: usize, expected: usize },
    /// A stored text field was not valid UTF-8.
    BadString,
    /// A text field holds a zero byte, which its encoding uses as padding.
    NulInText,
    /// A text field is longer than its fixed width.
    TextTooLong { actual: usize, max: usize },
    /// A tag was given without a description.
    DescOnlyTag { tag: String },
    /// The storage could not perform an action on a database.
    Fs { action: String, typ: String },
    /// The punch already carries a description.
    DescAlreadySpecified { tag: String, description: String },
    /// A punch cannot be closed without a description.
    DescNotSpecified,
    /// The punch is already closed.
    PnchAlreadyClosed,
    /// There is no punch at all.
    PnchNotExists,
    /// There is no open punch.
    PnchNotOpen,
    /// A listing could not be formatted.
    Formatting { typ: String },
    /// Only one end of a date range was given.
    LsUncompleteRange,
    /// The closing time lies before the opening time.
    PnchOutBeforeIn { time_in: crate::time::Time, out: crate::time::Time },
    /// A punch is already open.
    PnchAlreadyOpen,
    /// The configuration has no such key.
    ConfigInvalidKey { key: String },
    /// The tag table holds as many tags as ids can number.
    TagTableFull,
}

impl GlobalError {
    pub fn parse(syntax: Syntax, value: &str) -> (r: Self)
        ensures
            r matches GlobalError::Parse { syntax: s, value: v } && s == syntax && v@ == value@,
    {
        GlobalError::Parse { syntax, value: value.to_owned() }
    }

    pub fn wrong_byte_len(record: Record, actual: usize, expected: usize) -> (r: Self)
        ensures
            r == (GlobalError::WrongByteLen { record, actual, expected }),
    {
        GlobalError::WrongByteLen { record, actual, expected }
    }

    pub fn desc_only_tag(tag: &str) -> (r: Self)
        ensures
            r matches GlobalError::DescOnlyTag { tag: t } && t@ == tag@,
    {
        GlobalError::DescOnlyTag { tag: tag.to_owned() }
    }

    pub fn fs(action: &str, typ: &str) -> (r: Self)
        ensures
            r matches GlobalError::Fs { action: a, typ: t } && a@ == action@ && t@ == typ@,
    {
        GlobalError::Fs { action: action.to_owned(), typ: typ.to_owned() }
    }

    pub fn desc_already_specified(tag: &str, description: &str) -> (r: Self)
        ensures
            r matches GlobalError::DescAlreadySpecified { tag: t, description: d } && t@ == tag@
                && d@ == description@,
    {
        GlobalError::DescAlreadySpecified { tag: tag.to_owned(), description: description.to_owned() }
    }

    pub fn desc_not_specified() -> (r: Self)
        ensures
            r == GlobalError::DescNotSpecified,
    {
        GlobalError::DescNotSpecified
    }

    pub fn pnch_already_closed() -> (r: Self)
        ensures
            r == GlobalError::PnchAlreadyClosed,
    {
        GlobalError::PnchAlreadyClosed
    }

    pub fn pnch_not_exists() -> (r: Self)
        ensures
            r == GlobalError::PnchNotExists,
    {
        GlobalError::PnchNotExists
    }

    pub fn pnch_not_open() -> (r: Self)
        ensures
            r == GlobalError::PnchNotOpen,
    {
        GlobalError::PnchNotOpen
    }

    pub fn formatting(typ: &str) -> (r: Self)
        ensures
            r matches GlobalError::Formatting { typ: t } && t@ == typ@,
    {
        GlobalError::Formatting { typ: typ.to_owned() }
    }

    pub fn ls_uncomplete_range() -> (r: Self)
        ensures
            r == GlobalError::LsUncompleteRange,
    {
        GlobalError::LsUncompleteRange
    }

    pub fn pnch_out_before_in(time_in: crate::time::Time, out: crate::time::Time) -> (r: Self)
        ensures
            r == (GlobalError::PnchOutBeforeIn { time_in, out }),
    {
        GlobalError::PnchOutBeforeIn { time_in, out }
    }

    pub fn pnch_already_open() -> (r: Self)
        ensures
            r == GlobalError::PnchAlreadyOpen,
    {
        GlobalError::PnchAlreadyOpen
    }

    pub fn tag_table_full() -> (r: Self)
        ensures
            r == GlobalError::TagTableFull,
    {
        GlobalError::TagTableFull
    }

    pub fn config_invalid_key(key: &str) -> (r: Self)
        ensures
            r matches GlobalError::ConfigInvalidKey { key: k } && k@ == key@,
    {
        GlobalError::ConfigInvalidKey { key: key.to_owned() }
    }
}

} // verus!
