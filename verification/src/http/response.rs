//! Responses: status, headers and body, and the pages that are sent.

use vstd::prelude::*;
use crate::domain::hash::{hex_encode, TrackId};
use crate::domain::track::{MetadataView, opt_metadata, opt_text, TrackMetadata};
use crate::http::error::{ApiError, ApiErrorView};
use crate::http::request::header_texts;
use crate::text::{decimal, replaced};

verus! {

/// The metadata of a track as it is sent to a client.
#[derive(Debug)]
pub struct TrackMetadataResponse {
    pub artist: String,
    pub title: String,
    pub year: Option<u32>,
    pub label: Option<String>,
    pub artwork: Option<String>,
}

impl View for TrackMetadataResponse {
    type V = MetadataView;

    open spec fn view(&self) -> MetadataView {
        MetadataView {
            artist: self.artist@,
            title: self.title@,
            year: self.year,
            label: opt_text(self.label),
            artwork: opt_text(self.artwork),
        }
    }
}

/// What is known of a track, as it is sent to a client.
#[derive(Debug)]
pub struct TrackResponse {
    pub track_id: String,
    pub path: String,
    pub metadata: Option<TrackMetadataResponse>,
}

/// The mathematical content of a `TrackResponse`.
pub struct TrackResponseView {
    pub track_id: Seq<char>,
    pub path: Seq<char>,
    pub metadata: Option<MetadataView>,
}

impl View for TrackResponse {
    type V = TrackResponseView;

    open spec fn view(&self) -> TrackResponseView {
        TrackResponseView {
            track_id: self.track_id@,
            path: self.path@,
            metadata: match self.metadata {
                Some(m) => Some(m@),
                None => None,
            },
        }
    }
}

impl TrackResponse {
    /// What is sent of a track with the given identity, location and
    /// metadata.
    pub fn from_domain(track: &TrackId, path: String, meta: Option<TrackMetadata>) -> (r: TrackResponse)
        ensures
            r@ == (TrackResponseView {
                track_id: hex_encode(track@),
                path: path@,
                metadata: opt_metadata(meta),
            }),
    {
        TrackResponse {
            track_id: track.to_hex(),
            path,
            metadata: match meta {
                Some(metadata) => Some(
                    TrackMetadataResponse {
                        artist: metadata.artist,
                        title: metadata.title,
                        year: metadata.year,
                        label: metadata.label,
                        artwork: match metadata.artwork {
                            Some(a) => Some(a.0),
                            None => None,
                        },
                    },
                ),
                None => None,
            },
        }
    }
}

/// The body of a response.
#[derive(Debug)]
pub enum Body {
    /// No body.
    Empty,
    /// Plain text.
    Text(String),
    /// An HTML page.
    Html(String),
    /// A value to be sent as JSON.
    Json(TrackResponse),
    /// All the bytes of the file at `path`, as media type `mime`.
    File { path: String, mime: String },
    /// `len` bytes of the file at `path`, from offset `start` on, as media
    /// type `mime`.
    FileRange { path: String, mime: String, start: u64, len: u64 },
}

/// The mathematical content of a `Body`.
pub enum BodyView {
    Empty,
    Text(Seq<char>),
    Html(Seq<char>),
    Json(TrackResponseView),
    File { path: Seq<char>, mime: Seq<char> },
    FileRange { path: Seq<char>, mime: Seq<char>, start: u64, len: u64 },
}

impl View for Body {
    type V = BodyView;

    open spec fn view(&self) -> BodyView {
        match *self {
            Body::Empty => BodyView::Empty,
            Body::Text(t) => BodyView::Text(t@),
            Body::Html(t) => BodyView::Html(t@),
            Body::Json(v) => BodyView::Json(v@),
            Body::File { path, mime } => BodyView::File { path: path@, mime: mime@ },
            Body::FileRange { path, mime, start, len } => BodyView::FileRange {
                path: path@,
                mime: mime@,
                start,
                len,
            },
        }
    }
}

/// A response: status, headers besides the content type, and body.
#[derive(Debug)]
pub struct HttpResponse {
    pub status_code: u16,
    pub headers: Vec<(String, String)>,
    pub body: Body,
}

/// The mathematical content of an `HttpResponse`.
pub struct ResponseView {
    pub status_code: u16,
    pub headers: Seq<(Seq<char>, Seq<char>)>,
    pub body: BodyView,
}

impl View for HttpResponse {
    type V = ResponseView;

    open spec fn view(&self) -> ResponseView {
        ResponseView {
            status_code: self.status_code,
            headers: header_texts(self.headers@),
            body: self.body@,
        }
    }
}

/// The response that reports a failure: its status code, and its message as
/// plain text.
pub open spec fn error_response(e: ApiErrorView) -> ResponseView {
    ResponseView { status_code: e.status_code(), headers: Seq::empty(), body: BodyView::Text(e.text()) }
}

impl ApiError {
    /// The response that reports this failure.
    pub fn into_response(self) -> (r: HttpResponse)
        ensures
            r@ == error_response(self@),
    {
        let r = HttpResponse {
            status_code: self.status_code(),
            headers: Vec::new(),
            body: Body::Text(self.to_text()),
        };
        assert(r@.headers =~= Seq::empty());
        r
    }
}

/// The pages that the server sends. In the fallback pages `{{STATUS}}` and
/// `{{REASON}}` stand for the status and the message of a failure, and in
/// the page that offers a video `{{YT_URL}}` stands for its address.
#[derive(Debug)]
pub struct Pages {
    /// The player.
    pub listen: String,
    /// Shown when a track cannot be played and a video is known instead.
    pub offer_yt: String,
    /// Shown when a track cannot be played and nothing else is known.
    pub no_track: String,
}

impl Clone for Pages {
    fn clone(&self) -> (r: Pages)
        ensures
            r == *self,
    {
        Pages {
            listen: self.listen.clone(),
            offer_yt: self.offer_yt.clone(),
            no_track: self.no_track.clone(),
        }
    }
}

/// The page shown in place of a track that cannot be played.
pub open spec fn fallback_page(
    pages: Pages,
    youtube_id: Option<Seq<char>>,
    status: u16,
    reason: Seq<char>,
) -> Seq<char> {
    match youtube_id {
        Some(yid) => replaced(
            replaced(
                replaced(pages.offer_yt@, "{{YT_URL}}"@, "https://youtu.be/"@ + yid),
                "{{STATUS}}"@,
                decimal(status as nat),
            ),
            "{{REASON}}"@,
            reason,
        ),
        None => replaced(
            replaced(pages.no_track@, "{{STATUS}}"@, decimal(status as nat)),
            "{{REASON}}"@,
            reason,
        ),
    }
}

/// The headers that go with the bytes of a track: that ranges are
/// accepted, and artist and title where they are known.
pub open spec fn stream_headers(metadata: Option<MetadataView>) -> Seq<(Seq<char>, Seq<char>)> {
    match metadata {
        Some(m) => seq![
            ("Accept-Ranges"@, "bytes"@),
            ("X-Track-Artist"@, m.artist),
            ("X-Track-Title"@, m.title),
        ],
        None => seq![("Accept-Ranges"@, "bytes"@)],
    }
}

/// The value of the `Content-Range` header for the bytes from `start` up to
/// and including `end` of a file of `size` bytes.
pub open spec fn content_range(start: u64, end: u64, size: u64) -> Seq<char> {
    "bytes "@ + decimal(start as nat) + "-"@ + decimal(end as nat) + "/"@ + decimal(size as nat)
}

} // verus!
