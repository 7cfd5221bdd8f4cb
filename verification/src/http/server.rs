//! Requests, responses, and the server that turns the one into the other.
//!
//! The answer to a request is a function of the request, the catalog and of
//! what the file system reported for the paths that the request is about.
//! A caller asks `paths_to_probe` which paths those are, looks at them, and
//! hands the reports to `handle_request`. Bodies that are files are named,
//! not read: sending the bytes is the caller's part.

use vstd::prelude::*;
use crate::config::HttpConfig;
use crate::domain::hash::{hex_decode, hex_encode, is_identity_text, TrackId};
use crate::domain::track::opt_text;
use crate::http::error::{ApiError, ApiErrorView};
use crate::http::mime::{audio_mime, guess_mime, mime_of};
use crate::http::range::{parse_http_range, range_of, RangeRequest};
use crate::http::request::{header_of, header_texts, query_param, route_of, RouteView};
use crate::http::response::{
    BodyView, content_range, error_response, fallback_page, ResponseView, stream_headers,
    TrackResponseView,
};
use crate::path::extension;
use crate::storage::catalog::{CatalogView, stored_paths};
use crate::storage::error::StorageError;
use crate::storage::fs::FileProbe;
use crate::storage::operations::Storage;
use crate::storage::operations::lookup::{
    first_valid, lemma_first_valid_is_first, Lookup, lookup_of,
};
use crate::text::{
    chars_of, decimal, decimal_string, replace_text, same_text, string_of, texts,
    to_ascii_lowercase,
};

pub use crate::http::request::{route, HttpRequest, Route};
pub use crate::http::response::{
    Body, HttpResponse, Pages, TrackMetadataResponse, TrackResponse,
};

verus! {

/// The paths that the catalog holds for the track that `id_text` names;
/// none where it names no track.
pub open spec fn named_paths(catalog: CatalogView, id_text: Seq<char>) -> Seq<Seq<char>> {
    if is_identity_text(id_text) {
        stored_paths(catalog.files, hex_encode(hex_decode(id_text)))
    } else {
        Seq::empty()
    }
}

/// The answer to a request for what is known of a track.
pub open spec fn track_response_of(
    catalog: CatalogView,
    id_text: Seq<char>,
    probes: Seq<FileProbe>,
) -> ResponseView {
    if !is_identity_text(id_text) {
        error_response(ApiErrorView::BadRequest("invalid track id"@))
    } else {
        let key = hex_encode(hex_decode(id_text));
        let paths = stored_paths(catalog.files, key);
        match lookup_of(paths, probes) {
            Lookup::Unknown => error_response(
                ApiErrorView::NotFound("track "@ + key + " not found"@),
            ),
            Lookup::NoValidFile => error_response(
                ApiErrorView::BadRequest("track "@ + key + " has no valid files"@),
            ),
            Lookup::Found { index } => ResponseView {
                status_code: 200,
                headers: Seq::empty(),
                body: BodyView::Json(
                    TrackResponseView {
                        track_id: key,
                        path: paths[index],
                        metadata: catalog.metadata_of(key),
                    },
                ),
            },
        }
    }
}

/// The answer to a request for the bytes of a track, or the failure.
///
/// The track must be named by the textual form of an identity, be in the
/// catalog, and have a location that is plausibly a playable music file;
/// the first such location is served, and its size is what the file system
/// reported. Without a `Range` header, or with one that is not of the
/// form `bytes=<start>-<end>`, the whole file is sent with status 200. With
/// a range that the file has, exactly `end - start + 1` bytes from offset
/// `start` are sent with status 206 and a `Content-Range` header. A range
/// that the file does not have is a failure of its own.
pub open spec fn stream_of(
    catalog: CatalogView,
    id_text: Seq<char>,
    range: Option<Seq<char>>,
    probes: Seq<FileProbe>,
) -> Result<ResponseView, ApiErrorView> {
    if !is_identity_text(id_text) {
        Err(ApiErrorView::BadRequest("invalid track id"@))
    } else {
        let key = hex_encode(hex_decode(id_text));
        let paths = stored_paths(catalog.files, key);
        match lookup_of(paths, probes) {
            Lookup::Unknown => Err(ApiErrorView::NotFound("track "@ + key + " not found"@)),
            Lookup::NoValidFile => Err(
                ApiErrorView::BadRequest("track "@ + key + " has no valid files"@),
            ),
            Lookup::Found { index } => {
                let path = paths[index];
                let size = probes[index].len;
                let whole = ResponseView {
                    status_code: 200,
                    headers: stream_headers(catalog.metadata_of(key)),
                    body: BodyView::File { path, mime: mime_of(path) },
                };
                match range {
                    None => Ok(whole),
                    Some(header) => match range_of(header, size) {
                        RangeRequest::Whole => Ok(whole),
                        RangeRequest::Unsatisfiable => Err(ApiErrorView::InvalidRange),
                        RangeRequest::Part { start, end } => Ok(
                            ResponseView {
                                status_code: 206,
                                headers: seq![("Content-Range"@, content_range(start, end, size))]
                                    + stream_headers(catalog.metadata_of(key)),
                                body: BodyView::FileRange {
                                    path,
                                    mime: mime_of(path),
                                    start,
                                    len: (end - start + 1) as u64,
                                },
                            },
                        ),
                    },
                }
            },
        }
    }
}

/// The answer to `/play`: the bytes of the track that parameter `h` names,
/// as `stream_of` says; where that fails, a page with status 200 that
/// tells the status and the message of the failure, and offers the video
/// that parameter `y` names if there is one. Without `h` the request is
/// bad.
pub open spec fn play_of(
    catalog: CatalogView,
    pages: Pages,
    h: Option<Seq<char>>,
    y: Option<Seq<char>>,
    range: Option<Seq<char>>,
    probes: Seq<FileProbe>,
) -> ResponseView {
    match h {
        None => ResponseView {
            status_code: 400,
            headers: Seq::empty(),
            body: BodyView::Text("Error: missing media hash"@),
        },
        Some(hash) => match stream_of(catalog, hash, range, probes) {
            Ok(response) => response,
            Err(e) => ResponseView {
                status_code: 200,
                headers: Seq::empty(),
                body: BodyView::Html(fallback_page(pages, y, e.status_code(), e.text())),
            },
        },
    }
}

/// The answer to a request.
pub open spec fn response_of(
    catalog: CatalogView,
    pages: Pages,
    method: Seq<char>,
    raw_url: Seq<char>,
    headers: Seq<(Seq<char>, Seq<char>)>,
    probes: Seq<FileProbe>,
) -> ResponseView {
    match route_of(method, raw_url) {
        RouteView::Track(id) => track_response_of(catalog, id, probes),
        RouteView::Stream(id) => match stream_of(catalog, id, header_of(headers, "Range"@), probes) {
            Ok(response) => response,
            Err(e) => error_response(e),
        },
        RouteView::Listen(_) => ResponseView {
            status_code: 200,
            headers: Seq::empty(),
            body: BodyView::Html(pages.listen@),
        },
        RouteView::Play => play_of(
            catalog,
            pages,
            query_param(raw_url, "h"@),
            query_param(raw_url, "y"@),
            header_of(headers, "Range"@),
            probes,
        ),
        RouteView::Unknown => ResponseView {
            status_code: 404,
            headers: Seq::empty(),
            body: BodyView::Empty,
        },
    }
}

/// The paths that a request is about: those of the track that it names.
pub open spec fn paths_of_request(catalog: CatalogView, method: Seq<char>, raw_url: Seq<char>) -> Seq<
    Seq<char>,
> {
    match route_of(method, raw_url) {
        RouteView::Track(id) => named_paths(catalog, id),
        RouteView::Stream(id) => named_paths(catalog, id),
        RouteView::Play => match query_param(raw_url, "h"@) {
            Some(hash) => named_paths(catalog, hash),
            None => Seq::empty(),
        },
        _ => Seq::empty(),
    }
}

/// The address to listen on: host, colon, port.
pub fn bind_address(config: &HttpConfig) -> (addr: String)
    ensures
        addr@ == config.bind_addr@ + ":"@ + decimal(config.port as nat),
{
    let port = decimal_string(config.port as u64);
    config.bind_addr.clone().concat(":").concat(port.as_str())
}

/// The server: a catalog, the address it listens on, and its pages.
#[derive(Debug)]
pub struct HttpServer {
    pub storage: Storage,
    pub config: HttpConfig,
    pub pages: Pages,
}

impl HttpServer {
    /// A server for the given catalog.
    pub fn new(storage: Storage, config: HttpConfig, pages: Pages) -> (server: HttpServer)
        ensures
            server.storage == storage,
            server.config == config,
            server.pages == pages,
    {
        HttpServer { storage, config, pages }
    }

    /// Maps a file extension, without dot, to the media type for playback in
    /// a browser; `None` if the extension is not recognised.
    pub fn mime_from_ext(ext: &str) -> (mime: Option<String>)
        ensures
            mime is Some <==> audio_mime(ext@) is Some,
            mime matches Some(m) ==> m@ == audio_mime(ext@).unwrap(),
    {
        if same_text(ext, "m4a") {
            Some(String::from_str("audio/x-m4a"))
        } else if same_text(ext, "aac") {
            Some(String::from_str("audio/aac"))
        } else if same_text(ext, "mp3") {
            Some(String::from_str("audio/mpeg"))
        } else if same_text(ext, "wav") {
            Some(String::from_str("audio/wav"))
        } else if same_text(ext, "ogg") {
            Some(String::from_str("audio/ogg"))
        } else if same_text(ext, "flac") {
            Some(String::from_str("audio/flac"))
        } else {
            None
        }
    }

    /// The media type under which the file at `path` is served.
    pub fn mime_for_track(path: &str) -> (mime: String)
        ensures
            mime@ == mime_of(path@),
    {
        let p = chars_of(path);
        match extension(&p) {
            Some(ext) => {
                let lower = string_of(&to_ascii_lowercase(&ext));
                match Self::mime_from_ext(lower.as_str()) {
                    Some(mime) => mime,
                    None => {
                        let plain = string_of(&ext);
                        guess_mime(plain.as_str())
                    },
                }
            },
            None => {
                let none = String::new();
                guess_mime(none.as_str())
            },
        }
    }

    /// The paths to look at before `handle_request` is called: those that
    /// the catalog holds for the track that the request names, in the order
    /// in which the reports are expected.
    pub fn paths_to_probe(&self, request: &HttpRequest) -> (paths: Vec<String>)
        ensures
            texts(paths@) == paths_of_request(
                self.storage@,
                request.method@,
                request.raw_url@,
            ),
    {
        match route(request) {
            Route::Track(id) => self.paths_named(id.as_str()),
            Route::Stream(id) => self.paths_named(id.as_str()),
            Route::Play => match request.get_param("h") {
                Some(hash) => self.paths_named(hash.as_str()),
                None => {
                    let none: Vec<String> = Vec::new();
                    assert(texts(none@) =~= Seq::<Seq<char>>::empty());
                    none
                },
            },
            _ => {
                let none: Vec<String> = Vec::new();
                assert(texts(none@) =~= Seq::<Seq<char>>::empty());
                none
            },
        }
    }

    /// The paths that the catalog holds for the track that `id_text` names.
    fn paths_named(&self, id_text: &str) -> (paths: Vec<String>)
        ensures
            texts(paths@) == named_paths(self.storage@, id_text@),
    {
        match TrackId::from_hex(id_text) {
            Ok(id) => self.storage.track_paths(&id),
            Err(_) => {
                let none: Vec<String> = Vec::new();
                assert(texts(none@) =~= Seq::<Seq<char>>::empty());
                none
            },
        }
    }

    /// Answers a request.
    ///
    /// `probes` holds what the file system reported for the paths of
    /// `paths_to_probe`, position by position.
    pub fn handle_request(&self, request: &HttpRequest, probes: &Vec<FileProbe>) -> (response: HttpResponse)
        ensures
            response@ == response_of(
                self.storage@,
                self.pages,
                request.method@,
                request.raw_url@,
                header_texts(request.headers@),
                probes@,
            ),
    {
        match route(request) {
            Route::Track(id) => Self::handle_get_track(id.as_str(), &self.storage, probes),
            Route::Stream(id) => Self::handle_get_track_stream(
                id.as_str(),
                request,
                &self.storage,
                probes,
            ),
            Route::Listen(_) => self.handle_listen_page(),
            Route::Play => self.handle_play(request, probes),
            Route::Unknown => {
                let r = HttpResponse { status_code: 404, headers: Vec::new(), body: Body::Empty };
                assert(r@.headers =~= Seq::empty());
                r
            },
        }
    }

    /// Answers a request for what is known of a track.
    pub fn handle_get_track(id: &str, storage: &Storage, probes: &Vec<FileProbe>) -> (response: HttpResponse)
        ensures
            response@ == track_response_of(storage@, id@, probes@),
    {
        let track_id = match TrackId::from_hex(id) {
            Ok(id) => id,
            Err(_) => {
                return ApiError::from(StorageError::InvalidTrackId).into_response();
            },
        };
        match storage.get_track(track_id, probes) {
            Ok((track, path, metadata)) => {
                let r = HttpResponse {
                    status_code: 200,
                    headers: Vec::new(),
                    body: Body::Json(TrackResponse::from_domain(&track, path, metadata)),
                };
                assert(r@.headers =~= Seq::empty());
                r
            },
            Err(e) => ApiError::from(e).into_response(),
        }
    }

    /// Plans the streaming of a track: which bytes of which file are to be
    /// sent, with which status and headers.
    pub fn get_track_stream(
        id: &str,
        request: &HttpRequest,
        storage: &Storage,
        probes: &Vec<FileProbe>,
    ) -> (r: Result<HttpResponse, ApiError>)
        ensures
            match stream_of(
                storage@,
                id@,
                header_of(header_texts(request.headers@), "Range"@),
                probes@,
            ) {
                Ok(response) => r matches Ok(planned) && planned@ == response,
                Err(failure) => r matches Err(e) && e@ == failure,
            },
    {
        let range = request.header("Range");
        Self::plan_stream(id, range, storage, probes)
    }

    /// `get_track_stream`, for a `Range` header that was already looked up.
    fn plan_stream(id: &str, range: Option<String>, storage: &Storage, probes: &Vec<FileProbe>) -> (r:
        Result<HttpResponse, ApiError>)
        ensures
            match stream_of(storage@, id@, opt_text(range), probes@) {
                Ok(response) => r matches Ok(planned) && planned@ == response,
                Err(failure) => r matches Err(e) && e@ == failure,
            },
    {
        let track_id = match TrackId::from_hex(id) {
            Ok(id) => id,
            Err(_) => {
                return Err(ApiError::from(StorageError::InvalidTrackId));
            },
        };
        let (at, path, meta) = match storage.locate_track(track_id, probes) {
            Ok(found) => found,
            Err(e) => {
                return Err(ApiError::from(e));
            },
        };
        let mime = Self::mime_for_track(path.as_str());
        let file_size = probes[at].len;
        let mut headers: Vec<(String, String)> = Vec::new();
        let mut partial: Option<(u64, u64)> = None;
        if let Some(header) = range {
            match parse_http_range(header.as_str(), file_size) {
                Ok(Some((start, end))) => {
                    partial = Some((start, end));
                    let value = String::from_str("bytes ").concat(
                        decimal_string(start).as_str(),
                    ).concat("-").concat(decimal_string(end).as_str()).concat("/").concat(
                        decimal_string(file_size).as_str(),
                    );
                    headers.push((String::from_str("Content-Range"), value));
                },
                Ok(None) => {},
                Err(e) => {
                    return Err(e);
                },
            }
        }
        headers.push((String::from_str("Accept-Ranges"), String::from_str("bytes")));
        if let Some(meta) = meta {
            headers.push((String::from_str("X-Track-Artist"), meta.artist));
            headers.push((String::from_str("X-Track-Title"), meta.title));
        }
        let response = match partial {
            Some((start, end)) => HttpResponse {
                status_code: 206,
                headers,
                body: Body::FileRange { path, mime, start, len: end - start + 1 },
            },
            None => HttpResponse { status_code: 200, headers, body: Body::File { path, mime } },
        };
        proof {
            let expected = stream_of(storage@, id@, opt_text(range), probes@);
            assert(expected is Ok);
            assert(response@.headers =~= expected->Ok_0.headers);
        }
        Ok(response)
    }

    /// Answers a request for the bytes of a track.
    pub fn handle_get_track_stream(
        id: &str,
        request: &HttpRequest,
        storage: &Storage,
        probes: &Vec<FileProbe>,
    ) -> (response: HttpResponse)
        ensures
            response@ == match stream_of(
                storage@,
                id@,
                header_of(header_texts(request.headers@), "Range"@),
                probes@,
            ) {
                Ok(planned) => planned,
                Err(e) => error_response(e),
            },
    {
        match Self::get_track_stream(id, request, storage, probes) {
            Ok(r) => r,
            Err(e) => e.into_response(),
        }
    }

    /// Answers a request for the player page.
    pub fn handle_listen_page(&self) -> (response: HttpResponse)
        ensures
            response@ == (ResponseView {
                status_code: 200,
                headers: Seq::empty(),
                body: BodyView::Html(self.pages.listen@),
            }),
    {
        let r = HttpResponse {
            status_code: 200,
            headers: Vec::new(),
            body: Body::Html(self.pages.listen.clone()),
        };
        assert(r@.headers =~= Seq::empty());
        r
    }

    /// Answers `/play`: streams the track that parameter `h` names, and
    /// where that fails sends a page that offers the video that parameter
    /// `y` names.
    pub fn handle_play(&self, request: &HttpRequest, probes: &Vec<FileProbe>) -> (response: HttpResponse)
        ensures
            response@ == play_of(
                self.storage@,
                self.pages,
                query_param(request.raw_url@, "h"@),
                query_param(request.raw_url@, "y"@),
                header_of(header_texts(request.headers@), "Range"@),
                probes@,
            ),
    {
        let hash = match request.get_param("h") {
            Some(hash) => hash,
            None => {
                let r = HttpResponse {
                    status_code: 400,
                    headers: Vec::new(),
                    body: Body::Text(String::from_str("Error: missing media hash")),
                };
                assert(r@.headers =~= Seq::empty());
                return r;
            },
        };
        let youtube_id = request.get_param("y");
        match Self::get_track_stream(hash.as_str(), request, &self.storage, probes) {
            Ok(response) => response,
            Err(err) => {
                let error_text = err.to_text();
                let status = err.status_code();
                self.render_fallback(youtube_id, status, error_text.as_str())
            },
        }
    }

    /// The page shown in place of a track that cannot be played.
    pub fn render_fallback(&self, youtube_id: Option<String>, status: u16, reason: &str) -> (response:
        HttpResponse)
        ensures
            response@ == (ResponseView {
                status_code: 200,
                headers: Seq::empty(),
                body: BodyView::Html(
                    fallback_page(self.pages, opt_text(youtube_id), status, reason@),
                ),
            }),
    {
        let code = decimal_string(status as u64);
        let page = match youtube_id {
            Some(yid) => {
                let url = String::from_str("https://youtu.be/").concat(yid.as_str());
                let with_url = replace_text(self.pages.offer_yt.as_str(), "{{YT_URL}}", url.as_str());
                let with_status = replace_text(with_url.as_str(), "{{STATUS}}", code.as_str());
                replace_text(with_status.as_str(), "{{REASON}}", reason)
            },
            None => {
                let with_status = replace_text(
                    self.pages.no_track.as_str(),
                    "{{STATUS}}",
                    code.as_str(),
                );
                replace_text(with_status.as_str(), "{{REASON}}", reason)
            },
        };
        let r = HttpResponse { status_code: 200, headers: Vec::new(), body: Body::Html(page) };
        assert(r@.headers =~= Seq::empty());
        r
    }
}

/// A request to `/play` that names a track is never answered with a bare
/// failure: it gets the bytes of the track, whole or in part, or a page.
pub proof fn lemma_play_degrades_to_a_page(
    catalog: CatalogView,
    pages: Pages,
    hash: Seq<char>,
    y: Option<Seq<char>>,
    range: Option<Seq<char>>,
    probes: Seq<FileProbe>,
)
    ensures
        ({
            let response = play_of(catalog, pages, Some(hash), y, range, probes);
            match stream_of(catalog, hash, range, probes) {
                Ok(planned) => response == planned && (response.status_code == 200
                    || response.status_code == 206),
                Err(_) => response.status_code == 200 && response.body is Html,
            }
        }),
{
}

/// What is sent of a track lies within its file: a part begins and ends
/// inside the file that was looked at, has at least one byte, and goes with
/// status 206 and the header that names it; the whole file goes with status
/// 200. Either way the response says that ranges are accepted.
pub proof fn lemma_stream_lies_within_file(
    catalog: CatalogView,
    id_text: Seq<char>,
    range: Option<Seq<char>>,
    probes: Seq<FileProbe>,
)
    ensures
        stream_of(catalog, id_text, range, probes) matches Ok(response) ==> {
            let paths = named_paths(catalog, id_text);
            &&& lookup_of(paths, probes) matches Lookup::Found { index }
            &&& 0 <= index < probes.len()
            &&& response.headers.contains(("Accept-Ranges"@, "bytes"@))
            &&& match response.body {
                BodyView::File { path, .. } => response.status_code == 200 && path == paths[index],
                BodyView::FileRange { path, start, len, .. } => {
                    &&& response.status_code == 206
                    &&& path == paths[index]
                    &&& len >= 1
                    &&& start + len <= probes[index].len
                    &&& response.headers[0] == ("Content-Range"@, content_range(
                        start,
                        (start + len - 1) as u64,
                        probes[index].len,
                    ))
                },
                _ => false,
            }
        },
{
    if stream_of(catalog, id_text, range, probes) is Ok {
        let response = stream_of(catalog, id_text, range, probes)->Ok_0;
        let key = hex_encode(hex_decode(id_text));
        let paths = stored_paths(catalog.files, key);
        let index = first_valid(paths, probes)->Some_0;
        lemma_first_valid_is_first(paths, probes);
        let extra = stream_headers(catalog.metadata_of(key));
        assert(extra[0] == ("Accept-Ranges"@, "bytes"@));
        match response.body {
            BodyView::FileRange { .. } => {
                let all = seq![("Content-Range"@, response.headers[0].1)] + extra;
                assert(response.headers =~= all);
                assert(response.headers[1] == ("Accept-Ranges"@, "bytes"@));
            },
            _ => {},
        }
    }
}

} // verus!
