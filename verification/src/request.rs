//! The request that asks the synthesis service for a stream.

use crate::urlencoding::{encode, encoded};
use vstd::prelude::*;
use vstd::string::*;

verus! {

/// Address of the synthesis service on this machine.
pub const DAEMON_URL: &'static str = "http://127.0.0.1:7125";

/// The address that the stream for `text`, spoken by `voice`, is fetched from.
pub open spec fn tts_url_of(text: Seq<char>, voice: Seq<char>) -> Seq<char> {
    DAEMON_URL@ + "/tts?text="@ + encoded(text) + "&voice="@ + encoded(voice)
}

/// Builds the address that the stream for `text`, spoken by `voice`, is
/// fetched from. Both are percent-encoded, so neither can add a parameter to
/// the query or end it early.
pub fn tts_url(text: &str, voice: &str) -> (url: String)
    ensures
        url@ == tts_url_of(text@, voice@),
{
    let mut url = String::from_str(DAEMON_URL);
    url.append("/tts?text=");
    url.append(encode(text).as_str());
    url.append("&voice=");
    url.append(encode(voice).as_str());
    url
}

} // verus!
