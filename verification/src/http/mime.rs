//! The media type under which a track is served.

use vstd::prelude::*;
use crate::path::extension_of;
use crate::text::ascii_lowercase;

verus! {

/// The media type that `mime_guess` has for a file extension, and
/// `application/octet-stream` where it has none.
pub uninterp spec fn guessed_mime(ext: Seq<char>) -> Seq<char>;

/// Calls `mime_guess::from_ext`, which looks the extension up in the
/// crate's table without regard to case, and then `first_or_octet_stream`
/// on the guess: the first media type of the entry, or
/// `application/octet-stream` for an extension that is empty or not in the
/// table. The result depends on the extension alone.
#[verifier::external_body]
pub(crate) fn guess_mime(ext: &str) -> (mime: String)
    ensures
        mime@ == guessed_mime(ext@),
{
    mime_guess::from_ext(ext).first_or_octet_stream().to_string()
}

/// The media type for the audio extensions that browsers need to be told
/// exactly; `None` for any other extension. The extension is taken as it
/// is, without its dot.
pub open spec fn audio_mime(ext: Seq<char>) -> Option<Seq<char>> {
    if ext == "m4a"@ {
        Some("audio/x-m4a"@)
    } else if ext == "aac"@ {
        Some("audio/aac"@)
    } else if ext == "mp3"@ {
        Some("audio/mpeg"@)
    } else if ext == "wav"@ {
        Some("audio/wav"@)
    } else if ext == "ogg"@ {
        Some("audio/ogg"@)
    } else if ext == "flac"@ {
        Some("audio/flac"@)
    } else {
        None
    }
}

/// The media type under which the file at `path` is served: that of its
/// extension in lower case where it is one of the audio extensions, else
/// what `mime_guess` has for the extension as it stands. A path without
/// extension is looked up as the empty extension.
pub open spec fn mime_of(path: Seq<char>) -> Seq<char> {
    match extension_of(path) {
        Some(ext) => match audio_mime(ascii_lowercase(ext)) {
            Some(mime) => mime,
            None => guessed_mime(ext),
        },
        None => guessed_mime(Seq::empty()),
    }
}

} // verus!
