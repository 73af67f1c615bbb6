//! Personal time tracking: punches in and out of timed activities, tags to
//! categorise them, a small configuration record, and the fixed-width binary
//! encodings under which all three are stored.

pub mod codec;
pub mod command;
pub mod config;
pub mod error;
pub mod text;
pub mod pnch;
pub mod query;
pub mod tag;
pub mod time;
