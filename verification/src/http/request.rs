//! Requests: what the server reads of them, and what they ask for.

use vstd::prelude::*;
use crate::domain::track::opt_text;
use crate::text::{
    before_first, chars_before_first, chars_between, chars_of, eq_ignore_ascii_case, has_prefix,
    same_ignoring_ascii_case, same_text, spells, string_of,
};

verus! {

/// The value of a parameter of the query of a URL, as
/// `rouille::Request::get_param` reads it; `None` where the query has no
/// such parameter.
pub uninterp spec fn query_param(raw_url: Seq<char>, name: Seq<char>) -> Option<Seq<char>>;

/// Builds a request for the URL with `rouille::Request::fake_http` and
/// calls `rouille::Request::get_param` on it. The method takes what follows
/// the first `?` of the URL, splits it at `&`, takes the first pair that is
/// `name` or begins with `name=`, and of it what stands between the first
/// and the second `=`, with `+` read as a space, percent escapes decoded,
/// and bytes that are not UTF-8 replaced by U+FFFD. The result depends on
/// the URL and the name alone.
#[verifier::external_body]
fn request_param(raw_url: &str, name: &str) -> (value: Option<String>)
    ensures
        opt_text(value) == query_param(raw_url@, name@),
{
    rouille::Request::fake_http("GET", raw_url, vec![], vec![]).get_param(name)
}

/// A segment of a URL with its percent escapes decoded, as rouille's router
/// decodes a segment that stands for a parameter.
pub uninterp spec fn percent_decoded(segment: Seq<char>) -> Seq<char>;

/// Calls `percent_encoding::percent_decode` on the bytes of the segment and
/// `decode_utf8_lossy` on the result, as rouille's router does: each `%`
/// with two hexadecimal digits becomes the byte they spell, and bytes that
/// are not UTF-8 become U+FFFD. The result depends on the segment alone.
#[verifier::external_body]
fn percent_decode(segment: &str) -> (decoded: String)
    ensures
        decoded@ == percent_decoded(segment@),
{
    rouille::percent_encoding::percent_decode(segment.as_bytes()).decode_utf8_lossy().into_owned()
}

/// The texts of a list of headers.
pub open spec fn header_texts(headers: Seq<(String, String)>) -> Seq<(Seq<char>, Seq<char>)> {
    headers.map_values(|h: (String, String)| (h.0@, h.1@))
}

/// The value of the first header named `key`, the case of ASCII letters
/// aside.
pub open spec fn header_of(headers: Seq<(Seq<char>, Seq<char>)>, key: Seq<char>) -> Option<
    Seq<char>,
>
    decreases headers.len(),
{
    if headers.len() == 0 {
        None
    } else if same_ignoring_ascii_case(headers[0].0, key) {
        Some(headers[0].1)
    } else {
        header_of(headers.skip(1), key)
    }
}

/// A request: what the server reads of it.
#[derive(Debug)]
pub struct HttpRequest {
    pub method: String,
    /// The URL as it was sent: path and query, escapes not decoded.
    pub raw_url: String,
    pub headers: Vec<(String, String)>,
}

impl HttpRequest {
    /// A request with the given method, URL and headers.
    pub fn new(method: &str, url: &str, headers: Vec<(String, String)>) -> (r: HttpRequest)
        ensures
            r.method@ == method@,
            r.raw_url@ == url@,
            r.headers == headers,
    {
        HttpRequest { method: String::from_str(method), raw_url: String::from_str(url), headers }
    }

    /// The value of a header of the request.
    pub fn header(&self, key: &str) -> (value: Option<String>)
        ensures
            opt_text(value) == header_of(header_texts(self.headers@), key@),
    {
        let ghost all = header_texts(self.headers@);
        let mut i: usize = 0;
        assert(all.skip(0) =~= all);
        while i < self.headers.len()
            invariant
                i <= self.headers.len(),
                all == header_texts(self.headers@),
                header_of(all.skip(i as int), key@) == header_of(all, key@),
            decreases self.headers.len() - i,
        {
            proof {
                assert(all.skip(i as int)[0] == all[i as int]);
                assert(all.skip(i as int).skip(1) =~= all.skip(i + 1));
            }
            if eq_ignore_ascii_case(self.headers[i].0.as_str(), key) {
                return Some(self.headers[i].1.clone());
            }
            i += 1;
        }
        None
    }

    /// The value of a parameter of the query.
    pub fn get_param(&self, name: &str) -> (value: Option<String>)
        ensures
            opt_text(value) == query_param(self.raw_url@, name@),
    {
        request_param(self.raw_url.as_str(), name)
    }
}

/// What a request asks for.
#[derive(Debug)]
pub enum Route {
    /// `GET /tracks/{id}`: what is known of a track.
    Track(String),
    /// `GET /tracks/{id}/stream`: the bytes of a track.
    Stream(String),
    /// `GET /listen/{id}`: the player page.
    Listen(String),
    /// `GET /play`: the bytes of the track named in the query, or a page
    /// that says why not.
    Play,
    /// Anything else.
    Unknown,
}

/// The mathematical content of a `Route`.
pub enum RouteView {
    Track(Seq<char>),
    Stream(Seq<char>),
    Listen(Seq<char>),
    Play,
    Unknown,
}

impl View for Route {
    type V = RouteView;

    open spec fn view(&self) -> RouteView {
        match *self {
            Route::Track(id) => RouteView::Track(id@),
            Route::Stream(id) => RouteView::Stream(id@),
            Route::Listen(id) => RouteView::Listen(id@),
            Route::Play => RouteView::Play,
            Route::Unknown => RouteView::Unknown,
        }
    }
}

/// The route of a request. Only `GET` requests have one. The path is what
/// stands in front of the first `?` of the URL; a parameter is one segment
/// of it, decoded.
pub open spec fn route_of(method: Seq<char>, raw_url: Seq<char>) -> RouteView {
    let path = before_first(raw_url, '?');
    if method != "GET"@ {
        RouteView::Unknown
    } else if "/tracks/"@.is_prefix_of(path) {
        let tail = path.skip("/tracks/"@.len() as int);
        let segment = before_first(tail, '/');
        let rest = tail.skip(segment.len() as int);
        if rest.len() == 0 {
            RouteView::Track(percent_decoded(segment))
        } else if rest == "/stream"@ {
            RouteView::Stream(percent_decoded(segment))
        } else {
            RouteView::Unknown
        }
    } else if "/listen/"@.is_prefix_of(path) {
        let tail = path.skip("/listen/"@.len() as int);
        let segment = before_first(tail, '/');
        if segment.len() == tail.len() {
            RouteView::Listen(percent_decoded(segment))
        } else {
            RouteView::Unknown
        }
    } else if path == "/play"@ {
        RouteView::Play
    } else {
        RouteView::Unknown
    }
}

/// Finds the route of a request.
pub fn route(request: &HttpRequest) -> (r: Route)
    ensures
        r@ == route_of(request.method@, request.raw_url@),
{
    if !same_text(request.method.as_str(), "GET") {
        return Route::Unknown;
    }
    let url = chars_of(request.raw_url.as_str());
    let path = chars_before_first(&url, '?');
    let tracks = chars_of("/tracks/");
    let listen = chars_of("/listen/");
    if has_prefix(&path, &tracks) {
        let tail = chars_between(&path, tracks.len(), path.len());
        assert(tail@ =~= path@.skip("/tracks/"@.len() as int));
        let segment = chars_before_first(&tail, '/');
        let rest = chars_between(&tail, segment.len(), tail.len());
        assert(rest@ =~= tail@.skip(segment@.len() as int));
        if rest.len() == 0 {
            let s = string_of(&segment);
            Route::Track(percent_decode(s.as_str()))
        } else if spells(&rest, "/stream") {
            let s = string_of(&segment);
            Route::Stream(percent_decode(s.as_str()))
        } else {
            Route::Unknown
        }
    } else if has_prefix(&path, &listen) {
        let tail = chars_between(&path, listen.len(), path.len());
        assert(tail@ =~= path@.skip("/listen/"@.len() as int));
        let segment = chars_before_first(&tail, '/');
        if segment.len() == tail.len() {
            let s = string_of(&segment);
            Route::Listen(percent_decode(s.as_str()))
        } else {
            Route::Unknown
        }
    } else if spells(&path, "/play") {
        Route::Play
    } else {
        Route::Unknown
    }
}

} // verus!
