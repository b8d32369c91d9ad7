//! A verified core for a chat-channel image downloader: interpreting the
//! user's settings, walking a reverse-chronological message feed page by
//! page, filtering image attachments, enforcing a download budget with
//! exactly-once accounting per message, and deriving destination filenames.

use vstd::prelude::*;

pub mod collector;
pub mod config;
pub mod dates;
pub mod strings;
pub mod urls;

verus! {

/// Number of milliseconds between the Unix epoch and the Discord epoch
/// (the first moment of 2015), the offset used when a timestamp is
/// encoded as a snowflake.
pub const DISCORD_EPOCH_MILLIS: u64 = 1420070400000;

/// Converts a millisecond Unix timestamp into a snowflake: the number of
/// milliseconds since the Discord epoch, shifted into the timestamp bits.
pub open spec fn snowflake_of_millis(millis: u64) -> u64
    recommends
        millis >= DISCORD_EPOCH_MILLIS,
{
    (((millis - DISCORD_EPOCH_MILLIS) as u64) << 22u64) as u64
}

/// Computes the snowflake that encodes the given millisecond timestamp.
pub fn snowflake_from_millis(millis: u64) -> (r: u64)
    requires
        millis >= DISCORD_EPOCH_MILLIS,
    ensures
        r == snowflake_of_millis(millis),
{
    (millis - DISCORD_EPOCH_MILLIS) << 22u64
}

} // verus!
