//! The typed arguments a host command may be invoked with.
use vstd::prelude::*;

verus! {

/// What a host command is invoked with.
#[derive(Debug, Clone, PartialEq, Eq)]
pub enum CommandArgs {
    /// No arguments.
    NoArgs,
    TrackId(i64),
    TrackIds(Vec<i64>),
    RawPayload(String),
    LyricsSearch { title: String, artist: String },
}

} // verus!
