//! The address that goes into printed codes and tags.

use vstd::prelude::*;
use crate::config::PublicEndpoint;
use crate::domain::hash::{hex_encode, TrackId};
use crate::domain::track::opt_text;
use crate::text::{chars_of, string_of, trim_end, trimmed_end};

verus! {

/// The address under which a track is played: the base address without
/// slashes at its end, then `/play?h=` and the identity, and `&y=` with the
/// video where one is given.
pub open spec fn play_url(base_url: Seq<char>, track: Seq<u8>, yt_part: Option<Seq<char>>) -> Seq<
    char,
> {
    let url = trimmed_end(base_url, '/') + "/play?h="@ + hex_encode(track);
    match yt_part {
        Some(yt) => url + "&y="@ + yt,
        None => url,
    }
}

/// The address to be printed on a code or written on a tag.
pub fn get_play_url(conf: &PublicEndpoint, track: TrackId, yt_part: Option<String>) -> (url: String)
    ensures
        url@ == play_url(conf.base_url@, track@, opt_text(yt_part)),
{
    let base = string_of(&trim_end(&chars_of(conf.base_url.as_str()), '/'));
    let hex = track.to_hex();
    let url = base.concat("/play?h=").concat(hex.as_str());
    match yt_part {
        Some(yt) => url.concat("&y=").concat(yt.as_str()),
        None => url,
    }
}

} // verus!
