//! Building the request URLs the remote API expects, and deriving the
//! destination filename of a downloaded attachment from its source URL.

use vstd::prelude::*;
use crate::strings::dec_str;
use crate::strings::split_at;
use crate::strings::split_string;
use crate::strings::u64_to_string;
use crate::strings::lemma_split_at_len;

verus! {

/// The page request URL: the channel's message listing, capped at the fixed
/// page size, with an `after` filter when the cursor is non-zero.
pub open spec fn page_url_spec(channel: Seq<char>, after: u64) -> Seq<char> {
    let base = "https://discordapp.com/api/channels/"@ + channel + "/messages?limit=100"@;
    if after > 0 {
        base + "&after="@ + dec_str(after as nat)
    } else {
        base
    }
}

/// Builds the URL that requests the page of up to 100 messages with
/// identifiers strictly greater than `after` (no filter when `after` is 0).
pub fn page_request_url(channel: &str, after: u64) -> (r: String)
    ensures
        r@ == page_url_spec(channel@, after),
{
    let mut s = String::from_str("https://discordapp.com/api/channels/");
    s.append(channel);
    s.append("/messages?limit=100");
    if after > 0 {
        s.append("&after=");
        let digits = u64_to_string(after);
        s.append(digits.as_str());
    }
    s
}

/// Builds the URL of an API endpoint given its path below the API root.
pub fn api_url(path: &str) -> (r: String)
    ensures
        r@ == "https://discordapp.com/api/"@ + path@,
{
    let mut s = String::from_str("https://discordapp.com/api/");
    s.append(path);
    s
}

/// Builds the API path that names a channel.
pub fn channel_api_path(channel: &str) -> (r: String)
    ensures
        r@ == "channels/"@ + channel@,
{
    let mut s = String::from_str("channels/");
    s.append(channel);
    s
}

/// Builds the authorization header value for a bot credential.
pub fn auth_header(token: &str) -> (r: String)
    ensures
        r@ == "Bot "@ + token@,
{
    let mut s = String::from_str("Bot ");
    s.append(token);
    s
}

/// Joins the suggested image folder onto a directory path.
pub fn default_dir_path(base: &str) -> (r: String)
    ensures
        r@ == base@ + "/Discord Images"@,
{
    let mut s = String::from_str(base);
    s.append("/Discord Images");
    s
}

/// A filename can be derived only from a URL with at least six
/// slash-delimited segments.
pub open spec fn filename_derivable(url: Seq<char>) -> bool {
    split_at(url, '/').len() >= 6
}

/// The destination filename of a downloaded attachment: the URL's sixth
/// slash-delimited segment as the stem, and everything after the URL's
/// last period as the extension.
pub open spec fn filename_spec(url: Seq<char>) -> Seq<char> {
    split_at(url, '/')[5] + "."@ + split_at(url, '.').last()
}

/// Derives the destination filename from an attachment URL, or nothing
/// when the URL is too short to name one.
pub fn derive_filename(url: &str) -> (r: Option<String>)
    ensures
        r is Some <==> filename_derivable(url@),
        r matches Some(name) ==> name@ == filename_spec(url@),
{
    let slash = split_string(url, '/');
    if slash.len() < 6 {
        return None;
    }
    let dot = split_string(url, '.');
    proof {
        lemma_split_at_len(url@, '.');
    }
    let mut name = slash[5].clone();
    name.append(".");
    name.append(dot[dot.len() - 1].as_str());
    Some(name)
}

/// Idempotence of filename derivation: equal URLs always derive the same
/// destination filename, so persisting the same URL twice writes to the
/// same path both times.
pub proof fn lemma_filename_derivation_deterministic(u1: Seq<char>, u2: Seq<char>)
    requires
        u1 == u2,
    ensures
        filename_spec(u1) == filename_spec(u2),
        filename_derivable(u1) == filename_derivable(u2),
{
}

} // verus!
