use localdeck::config::{HttpConfig, LibrarySource};
use localdeck::domain::hash::TrackId;
use localdeck::domain::track::ArtworkRef;
use localdeck::http::error::ApiError;
use localdeck::http::range::parse_http_range;
use localdeck::http::server::{
    bind_address, route, Body, HttpRequest, HttpResponse, HttpServer, Pages, Route, TrackResponse,
};
use localdeck::storage::error::StorageError;
use localdeck::storage::fs::FileProbe;
use localdeck::storage::operations::{MetadataUpdate, Storage};

fn mock_id(x: i32) -> TrackId {
    TrackId::from_bytes(&x.to_be_bytes())
}

fn mock_id_str(x: i32) -> String {
    mock_id(x).to_hex()
}

fn pages() -> Pages {
    Pages {
        listen: "<html>player</html>".to_string(),
        offer_yt: "<p>{{STATUS}} {{REASON}}</p><a href=\"{{YT_URL}}\">watch</a> {{STATUS}}"
            .to_string(),
        no_track: "<p>{{STATUS}}: {{REASON}}; no youtube link</p>".to_string(),
    }
}

fn create_server_with_tracks(tracks: &[(TrackId, &str)]) -> HttpServer {
    let mut storage = Storage::new(LibrarySource::default());
    let rows: Vec<(TrackId, String)> = tracks.iter().map(|(t, p)| (*t, p.to_string())).collect();
    storage.insert_tracks(&rows, 1);
    HttpServer::new(
        storage,
        HttpConfig { bind_addr: "0.0.0.0".to_string(), port: 8080 },
        pages(),
    )
}

fn create_empty_server() -> HttpServer {
    create_server_with_tracks(&[])
}

fn with_test_metadata(mut server: HttpServer, id: TrackId) -> HttpServer {
    server
        .storage
        .update_track_metadata(
            id,
            MetadataUpdate {
                title: Some("Test Song".to_string()),
                artist: Some("Test Artist".to_string()),
                year: Some(2026),
                label: Some("Test Label".to_string()),
                artwork: Some(ArtworkRef("cover.jpg".to_string())),
            },
            false,
            2,
        )
        .unwrap();
    server
}

fn get(url: &str) -> HttpRequest {
    HttpRequest::new("GET", url, vec![])
}

fn get_range(url: &str, range: &str) -> HttpRequest {
    HttpRequest::new("GET", url, vec![("Range".to_string(), range.to_string())])
}

fn json_of(response: HttpResponse) -> TrackResponse {
    match response.body {
        Body::Json(track) => track,
        other => panic!("expected a JSON body, got {:?}", other),
    }
}

fn text_of(response: HttpResponse) -> String {
    match response.body {
        Body::Text(text) | Body::Html(text) => text,
        other => panic!("expected a text body, got {:?}", other),
    }
}

fn header_value(response: &HttpResponse, name: &str) -> Option<String> {
    response.headers.iter().find(|(k, _)| k.eq_ignore_ascii_case(name)).map(|(_, v)| v.clone())
}

#[test]
fn test_http_get_track_success() {
    let server = create_server_with_tracks(&[(mock_id(1), "/tmp/m/song.mp3")]);
    let request = get(&format!("/tracks/{}", mock_id_str(1)));
    assert_eq!(server.paths_to_probe(&request), vec!["/tmp/m/song.mp3".to_string()]);

    let response = server.handle_request(&request, &vec![FileProbe::file(1)]);

    assert_eq!(response.status_code, 200);
    let body = json_of(response);
    assert_eq!(body.track_id, mock_id_str(1));
    assert_eq!(body.path, "/tmp/m/song.mp3");
    assert!(body.metadata.is_none());
}

#[test]
fn test_http_get_track_invalid_id() {
    let server = create_empty_server();
    let request = get("/tracks/not-a-valid-id");
    assert!(server.paths_to_probe(&request).is_empty());

    let response = server.handle_request(&request, &vec![]);

    assert_eq!(response.status_code, 400);
    assert_eq!(text_of(response), "invalid track id");
}

#[test]
fn test_http_get_track_not_found() {
    let server = create_empty_server();
    let track_id = TrackId::from_bytes(&[0, 1, 3]).to_hex();
    let request = get(&format!("/tracks/{}", track_id));

    let response = server.handle_request(&request, &vec![]);

    assert_eq!(response.status_code, 404);
    assert_eq!(text_of(response), format!("track {} not found", track_id));
}

#[test]
fn test_http_get_track_stream_success() {
    let server = create_server_with_tracks(&[(mock_id(1), "/tmp/m/song.mp3")]);
    let request = get(&format!("/tracks/{}/stream", mock_id_str(1)));

    let response = server.handle_request(&request, &vec![FileProbe::file(1)]);

    assert_eq!(response.status_code, 200);
    // the whole file is the body
    match response.body {
        Body::File { path, mime } => {
            assert_eq!(path, "/tmp/m/song.mp3");
            assert_eq!(mime, "audio/mpeg");
        }
        other => panic!("expected the file, got {:?}", other),
    }
}

#[test]
fn test_http_get_track_stream_not_found() {
    let server = create_empty_server();
    let track_id = TrackId::from_bytes(&[0, 1, 3]);
    let request = get(&format!("/tracks/{}/stream", track_id.to_hex()));

    let response = server.handle_request(&request, &vec![]);

    assert_eq!(response.status_code, 404);
}

#[test]
fn test_http_get_track_stream_invalid_id() {
    let server = create_empty_server();
    let request = get("/tracks/not-a-valid-id/stream");

    let response = server.handle_request(&request, &vec![]);

    assert_eq!(response.status_code, 400);
}

#[test]
fn test_play_streams_track_successfully() {
    let server = create_server_with_tracks(&[(mock_id(123), "somewhere")]);
    let request = get("/play?h=123");

    let response = server.handle_request(&request, &vec![]);
    let status = response.status_code;

    assert!(status == 200 || status == 206, "expected streaming response, got {}", status);
}

#[test]
fn test_play_fallback_with_youtube() {
    let server = create_empty_server();
    let request = get("/play?h=123&y=dQw4w9WgXcQ");

    let response = server.handle_request(&request, &vec![]);

    assert_eq!(response.status_code, 200);
    let body = text_of(response);
    assert!(
        body.contains("youtu.be/dQw4w9WgXcQ"),
        "expected youtube link in fallback, got: {}",
        body
    );
    assert_eq!(
        body,
        "<p>400 invalid track id</p><a href=\"https://youtu.be/dQw4w9WgXcQ\">watch</a> 400"
    );
}

#[test]
fn test_play_fallback_without_youtube() {
    let server = create_empty_server();
    let request = get("/play?h=123");

    let response = server.handle_request(&request, &vec![]);

    assert_eq!(response.status_code, 200);
    let body = text_of(response);
    assert!(
        body.contains("no youtube link"),
        "expected no-youtube fallback message, got: {}",
        body
    );
    assert_eq!(body, "<p>400: invalid track id; no youtube link</p>");
}

#[test]
fn test_play_missing_hash() {
    let server = create_empty_server();
    let request = get("/play");

    let response = server.handle_request(&request, &vec![]);

    assert_eq!(response.status_code, 400);
    let body = text_of(response);
    assert!(body.contains("missing media hash"), "expected missing-hash error, got: {}", body);
    assert_eq!(body, "Error: missing media hash");
}

#[test]
fn play_of_an_unknown_identity_falls_back_to_a_page() {
    let server = create_empty_server();
    let hex = mock_id_str(5);

    let with_video = server.handle_request(&get(&format!("/play?h={}&y=abc", hex)), &vec![]);
    assert_eq!(with_video.status_code, 200);
    assert!(matches!(with_video.body, Body::Html(_)));
    assert_eq!(
        text_of(with_video),
        format!(
            "<p>404 track {} not found</p><a href=\"https://youtu.be/abc\">watch</a> 404",
            hex
        )
    );

    let without = server.handle_request(&get(&format!("/play?h={}", hex)), &vec![]);
    assert_eq!(without.status_code, 200);
    assert_eq!(text_of(without), format!("<p>404: track {} not found; no youtube link</p>", hex));
}

#[test]
fn play_of_a_known_track_streams_it() {
    let id = mock_id(9);
    let server = create_server_with_tracks(&[(id, "/m/a.flac")]);
    let request = get_range(&format!("/play?y=vid&h={}", id.to_hex()), "bytes=0-0");
    assert_eq!(server.paths_to_probe(&request), vec!["/m/a.flac".to_string()]);
    let response = server.handle_request(&request, &vec![FileProbe::file(7)]);
    assert_eq!(response.status_code, 206);
    assert_eq!(header_value(&response, "Content-Range").unwrap(), "bytes 0-0/7");
    assert!(matches!(response.body, Body::FileRange { start: 0, len: 1, .. }));

    // a range that the file does not have: the page, which tells 416
    let request = get_range(&format!("/play?h={}", id.to_hex()), "bytes=7-9");
    let response = server.handle_request(&request, &vec![FileProbe::file(7)]);
    assert_eq!(response.status_code, 200);
    assert_eq!(text_of(response), "<p>416: invalid byte range; no youtube link</p>");
}

#[test]
fn test_stream_headers() {
    let track_id = mock_id(12345);
    let server = create_server_with_tracks(&[(track_id, "/tmp/m/song.mp3")]);
    let request = get(&format!("/tracks/{}/stream", track_id.to_hex()));

    let response = HttpServer::get_track_stream(
        &track_id.to_hex(),
        &request,
        &server.storage,
        &vec![FileProbe::file(1)],
    )
    .expect("streaming should succeed");

    assert_eq!(response.headers.iter().any(|(k, _)| k.eq_ignore_ascii_case("Accept-Ranges")), true);
    assert_eq!(header_value(&response, "Accept-Ranges").unwrap(), "bytes");
    assert!(
        response.status_code == 200 || response.status_code == 206,
        "expected 200 or 206, got {}",
        response.status_code
    );
    assert_eq!(response.status_code, 200);
    assert!(header_value(&response, "X-Track-Artist").is_none());
}

#[test]
fn test_stream_partial_range() {
    let track_id = mock_id(12345);
    let server = create_server_with_tracks(&[(track_id, "/tmp/m/song.mp3")]);
    // the file holds the ten bytes "asdfghjkas"
    let probes = vec![FileProbe::file(10)];
    let request = get_range(&format!("/tracks/{}/stream", track_id.to_hex()), "bytes=2-5");

    let response =
        HttpServer::get_track_stream(&track_id.to_hex(), &request, &server.storage, &probes)
            .expect("partial streaming should succeed");

    assert_eq!(response.status_code, 206);
    let content_range =
        header_value(&response, "Content-Range").expect("Content-Range header should be present");
    assert_eq!(content_range, "bytes 2-5/10");
    assert_eq!(header_value(&response, "Accept-Ranges").unwrap(), "bytes");
    match response.body {
        Body::FileRange { path, mime, start, len } => {
            assert_eq!(path, "/tmp/m/song.mp3");
            assert_eq!(mime, "audio/mpeg");
            assert_eq!(start, 2);
            assert_eq!(len, 4);
        }
        other => panic!("expected a part of the file, got {:?}", other),
    }
}

#[test]
fn test_stream_invalid_range_returns_416() {
    let track_id = mock_id(12345);
    let server = create_server_with_tracks(&[(track_id, "/tmp/m/song.mp3")]);
    let request = get_range("/tracks/{track_id}/stream", "bytes=20-30");

    let response = HttpServer::get_track_stream(
        &track_id.to_hex(),
        &request,
        &server.storage,
        &vec![FileProbe::file(1)],
    );

    assert!(matches!(response, Err(ApiError::InvalidRange)));
    assert_eq!(response.unwrap_err().status_code(), 416);
}

#[test]
fn ranges_of_a_ten_byte_file() {
    let track_id = mock_id(1);
    let server = create_server_with_tracks(&[(track_id, "/m/song.mp3")]);
    let url = format!("/tracks/{}/stream", track_id.to_hex());
    let probes = vec![FileProbe::file(10)];

    // out of the file: 416 over the route, too
    let response = server.handle_request(&get_range(&url, "bytes=20-30"), &probes);
    assert_eq!(response.status_code, 416);
    assert_eq!(text_of(response), "invalid byte range");

    // no Range header: all ten bytes
    let response = server.handle_request(&get(&url), &probes);
    assert_eq!(response.status_code, 200);
    assert_eq!(header_value(&response, "Accept-Ranges").unwrap(), "bytes");
    assert!(header_value(&response, "Content-Range").is_none());
    assert!(matches!(response.body, Body::File { .. }));

    // the name of the header in another case
    let request = HttpRequest::new("GET", &url, vec![("rAnGe".to_string(), "bytes=9-".to_string())]);
    let response = server.handle_request(&request, &probes);
    assert_eq!(response.status_code, 206);
    assert_eq!(header_value(&response, "Content-Range").unwrap(), "bytes 9-9/10");
    assert!(matches!(response.body, Body::FileRange { start: 9, len: 1, .. }));

    // not of the form: the whole file
    let response = server.handle_request(&get_range(&url, "items=2-5"), &probes);
    assert_eq!(response.status_code, 200);
}

#[test]
fn range_headers_are_read_strictly() {
    let none: Option<(u64, u64)> = None;
    assert_eq!(parse_http_range("bytes=2-5", 10).unwrap(), Some((2, 5)));
    assert_eq!(parse_http_range("bytes=0-9", 10).unwrap(), Some((0, 9)));
    assert_eq!(parse_http_range("bytes=4-", 10).unwrap(), Some((4, 9)));
    assert_eq!(parse_http_range("bytes=5-5", 10).unwrap(), Some((5, 5)));
    assert_eq!(parse_http_range("bytes=+1-+2", 10).unwrap(), Some((1, 2)));
    assert_eq!(parse_http_range("bytes=007-8", 10).unwrap(), Some((7, 8)));

    for unsatisfiable in ["bytes=20-30", "bytes=5-2", "bytes=0-10", "bytes=10-", "bytes=9-10"] {
        assert!(
            matches!(parse_http_range(unsatisfiable, 10), Err(ApiError::InvalidRange)),
            "{}",
            unsatisfiable
        );
    }
    // an empty file has no bytes at all
    assert!(matches!(parse_http_range("bytes=0-", 0), Err(ApiError::InvalidRange)));
    assert!(matches!(parse_http_range("bytes=0-0", 0), Err(ApiError::InvalidRange)));

    for other in [
        "",
        "bytes",
        "bytes=",
        "bytes=5",
        "Bytes=2-5",
        " bytes=2-5",
        "bytes=-5",
        "bytes=a-5",
        "bytes=2-b",
        "bytes=2-5-7",
        "bytes=2--5",
        "bytes= 2-5",
        "bytes=2-5 ",
        "bytes=2-5,7-8",
        "bytes=18446744073709551616-",
        "bytes=0-18446744073709551616",
        "items=2-5",
    ] {
        assert_eq!(parse_http_range(other, 10).unwrap(), none, "{:?}", other);
        assert_eq!(parse_http_range(other, 0).unwrap(), none, "{:?}", other);
    }
    assert_eq!(
        parse_http_range("bytes=0-18446744073709551615", u64::MAX).unwrap_err().status_code(),
        416
    );
    assert_eq!(
        parse_http_range("bytes=18446744073709551614-", u64::MAX).unwrap(),
        Some((u64::MAX - 1, u64::MAX - 1))
    );
}

#[test]
fn test_http_get_track_with_metadata() {
    let track_id = mock_id(42);
    let track_id_str = mock_id_str(42);
    let server =
        with_test_metadata(create_server_with_tracks(&[(track_id, "/tmp/m/song.mp3")]), track_id);

    let request = get(&format!("/tracks/{}", track_id_str));
    let response = server.handle_request(&request, &vec![FileProbe::file(1)]);

    assert_eq!(response.status_code, 200);
    let body = json_of(response);
    assert_eq!(body.track_id, track_id_str);
    assert_eq!(body.path, "/tmp/m/song.mp3");

    let metadata = body.metadata.expect("Metadata should be present");
    assert_eq!(metadata.title, "Test Song");
    assert_eq!(metadata.artist, "Test Artist");
    assert_eq!(metadata.year, Some(2026));
    assert_eq!(metadata.label.as_deref(), Some("Test Label"));
    assert_eq!(metadata.artwork.as_ref().map(|a| a.as_str()), Some("cover.jpg"));
}

#[test]
fn a_stream_tells_artist_and_title() {
    let track_id = mock_id(42);
    let server =
        with_test_metadata(create_server_with_tracks(&[(track_id, "/tmp/m/song.m4a")]), track_id);
    let request = get_range(&format!("/tracks/{}/stream", track_id.to_hex()), "bytes=1-3");
    let response = server.handle_request(&request, &vec![FileProbe::file(4)]);
    assert_eq!(response.status_code, 206);
    let headers: Vec<(&str, &str)> =
        response.headers.iter().map(|(k, v)| (k.as_str(), v.as_str())).collect();
    assert_eq!(
        headers,
        vec![
            ("Content-Range", "bytes 1-3/4"),
            ("Accept-Ranges", "bytes"),
            ("X-Track-Artist", "Test Artist"),
            ("X-Track-Title", "Test Song"),
        ]
    );
    assert!(matches!(response.body, Body::FileRange { ref mime, start: 1, len: 3, .. } if mime == "audio/x-m4a"));
}

#[test]
fn a_track_without_valid_file_is_a_bad_request() {
    let track_id = mock_id(3);
    let server = create_server_with_tracks(&[(track_id, "/m/song.txt"), (track_id, "/m/gone.mp3")]);
    let probes = vec![FileProbe::file(1), FileProbe::missing()];
    let response =
        server.handle_request(&get(&format!("/tracks/{}", track_id.to_hex())), &probes);
    assert_eq!(response.status_code, 400);
    assert_eq!(text_of(response), format!("track {} has no valid files", track_id.to_hex()));
    let response =
        server.handle_request(&get(&format!("/tracks/{}/stream", track_id.to_hex())), &probes);
    assert_eq!(response.status_code, 400);
}

#[test]
fn an_identity_in_capitals_names_the_same_track() {
    let track_id = mock_id(3);
    let server = create_server_with_tracks(&[(track_id, "/m/song.mp3")]);
    let request = get(&format!("/tracks/{}", track_id.to_hex().to_uppercase()));
    assert_eq!(server.paths_to_probe(&request), vec!["/m/song.mp3".to_string()]);
    let response = server.handle_request(&request, &vec![FileProbe::file(1)]);
    assert_eq!(response.status_code, 200);
    assert_eq!(json_of(response).track_id, track_id.to_hex());
}

#[test]
fn requests_are_routed_by_method_and_path() {
    assert!(matches!(route(&get("/tracks/abc")), Route::Track(id) if id == "abc"));
    assert!(matches!(route(&get("/tracks/abc?x=1/2")), Route::Track(id) if id == "abc"));
    assert!(matches!(route(&get("/tracks/")), Route::Track(id) if id.is_empty()));
    assert!(matches!(route(&get("/tracks/abc/stream")), Route::Stream(id) if id == "abc"));
    assert!(matches!(route(&get("/tracks//stream")), Route::Stream(id) if id.is_empty()));
    assert!(matches!(route(&get("/tracks/%61b%20c")), Route::Track(id) if id == "ab c"));
    assert!(matches!(route(&get("/listen/anything")), Route::Listen(id) if id == "anything"));
    assert!(matches!(route(&get("/play")), Route::Play));
    assert!(matches!(route(&get("/play?h=1")), Route::Play));

    for unknown in [
        "/",
        "",
        "/tracks",
        "/tracks/abc/",
        "/tracks/abc/stream/",
        "/tracks/abc/streams",
        "/tracks/abc/other",
        "/tracksabc",
        "/listen",
        "/listen/a/b",
        "/play/",
        "/player",
        "/Play",
        "play",
    ] {
        assert!(matches!(route(&get(unknown)), Route::Unknown), "{:?}", unknown);
    }
    assert!(matches!(route(&HttpRequest::new("POST", "/play", vec![])), Route::Unknown));
    assert!(matches!(route(&HttpRequest::new("get", "/play", vec![])), Route::Unknown));

    let server = create_empty_server();
    let response = server.handle_request(&get("/nowhere"), &vec![]);
    assert_eq!(response.status_code, 404);
    assert!(matches!(response.body, Body::Empty));
    assert!(response.headers.is_empty());
    assert!(server.paths_to_probe(&get("/nowhere")).is_empty());
    assert!(server.paths_to_probe(&get("/play")).is_empty());

    let response = server.handle_request(&get("/listen/whatever"), &vec![]);
    assert_eq!(response.status_code, 200);
    assert!(matches!(response.body, Body::Html(ref page) if page == "<html>player</html>"));
}

#[test]
fn parameters_and_headers_of_a_request() {
    let request = HttpRequest::new(
        "GET",
        "/play?h=abc&y=d+e%21&h=second&empty=&bare",
        vec![
            ("Accept".to_string(), "*/*".to_string()),
            ("range".to_string(), "bytes=1-2".to_string()),
            ("Range".to_string(), "bytes=3-4".to_string()),
        ],
    );
    assert_eq!(request.get_param("h"), Some("abc".to_string()));
    assert_eq!(request.get_param("y"), Some("d e!".to_string()));
    assert_eq!(request.get_param("empty"), Some(String::new()));
    assert_eq!(request.get_param("bare"), Some(String::new()));
    assert_eq!(request.get_param("missing"), None);
    assert_eq!(get("/play").get_param("h"), None);

    assert_eq!(request.header("Range"), Some("bytes=1-2".to_string()));
    assert_eq!(request.header("ACCEPT"), Some("*/*".to_string()));
    assert_eq!(request.header("Content-Type"), None);
    assert_eq!(get("/").header("Range"), None);
}

#[test]
fn every_failure_has_its_status() {
    let cases: Vec<(ApiError, u16, &str)> = vec![
        (ApiError::NotFound("gone".to_string()), 404, "gone"),
        (ApiError::BadRequest("bad".to_string()), 400, "bad"),
        (ApiError::Internal("oops".to_string()), 500, "oops"),
        (ApiError::InvalidRange, 416, "invalid byte range"),
    ];
    for (error, status, text) in cases {
        assert_eq!(error.status_code(), status);
        assert_eq!(error.to_text(), text);
        let response = error.into_response();
        assert_eq!(response.status_code, status);
        assert!(response.headers.is_empty());
        assert!(matches!(response.body, Body::Text(ref t) if t == text));
    }
}

#[test]
fn storage_failures_are_reported_without_their_details() {
    let id = mock_id(1);
    let hex = id.to_hex();

    let e = ApiError::from(StorageError::TrackNotFound(id));
    assert!(matches!(e, ApiError::NotFound(ref m) if *m == format!("track {} not found", hex)));
    let e = ApiError::from(StorageError::InvalidTrackFile { track: id });
    assert!(matches!(e, ApiError::BadRequest(ref m) if *m == format!("track {} has no valid files", hex)));
    let e = ApiError::from(StorageError::InvalidTrackId);
    assert!(matches!(e, ApiError::BadRequest(ref m) if m == "invalid track id"));
    for hidden in [
        StorageError::Database("disk full".to_string()),
        StorageError::Fs("denied".to_string()),
        StorageError::Internal("poisoned".to_string()),
    ] {
        let e = ApiError::from(hidden);
        assert_eq!(e.status_code(), 500);
        assert_eq!(e.to_text(), "internal server error");
    }

    assert_eq!(StorageError::Database("disk full".to_string()).to_text(), "database error: disk full");
    assert_eq!(StorageError::TrackNotFound(id).to_text(), format!("track {} not found", hex));
    assert_eq!(
        StorageError::InvalidTrackFile { track: id }.to_text(),
        format!("track {} has no valid music files", hex)
    );
    assert_eq!(StorageError::Fs("denied".to_string()).to_text(), "filesystem error: denied");
    assert_eq!(StorageError::InvalidTrackId.to_text(), "invalid track id");
    assert_eq!(StorageError::Internal("poisoned".to_string()).to_text(), "internal error: poisoned");
}

#[test]
fn media_types_of_tracks() {
    assert_eq!(HttpServer::mime_from_ext("m4a"), Some("audio/x-m4a".to_string()));
    assert_eq!(HttpServer::mime_from_ext("aac"), Some("audio/aac".to_string()));
    assert_eq!(HttpServer::mime_from_ext("mp3"), Some("audio/mpeg".to_string()));
    assert_eq!(HttpServer::mime_from_ext("wav"), Some("audio/wav".to_string()));
    assert_eq!(HttpServer::mime_from_ext("ogg"), Some("audio/ogg".to_string()));
    assert_eq!(HttpServer::mime_from_ext("flac"), Some("audio/flac".to_string()));
    assert_eq!(HttpServer::mime_from_ext("MP3"), None);
    assert_eq!(HttpServer::mime_from_ext(".mp3"), None);
    assert_eq!(HttpServer::mime_from_ext("txt"), None);
    assert_eq!(HttpServer::mime_from_ext(""), None);

    assert_eq!(HttpServer::mime_for_track("/m/Song.MP3"), "audio/mpeg");
    assert_eq!(HttpServer::mime_for_track("a.b/c.FlaC"), "audio/flac");
    assert_eq!(HttpServer::mime_for_track("/m/notes.txt"), "text/plain");
    assert_eq!(HttpServer::mime_for_track("/m/cover.PNG"), "image/png");
    assert_eq!(HttpServer::mime_for_track("/m/noext"), "application/octet-stream");
    assert_eq!(HttpServer::mime_for_track("/m.mp3/noext"), "application/octet-stream");
    assert_eq!(HttpServer::mime_for_track("/m/.mp3"), "application/octet-stream");
    assert_eq!(HttpServer::mime_for_track("/m/what.is-this"), "application/octet-stream");
}

#[test]
fn the_server_says_where_it_listens() {
    let server = create_empty_server();
    assert_eq!(bind_address(&server.config), "0.0.0.0:8080");
    assert_eq!(
        bind_address(&HttpConfig { bind_addr: "localhost".to_string(), port: 0 }),
        "localhost:0"
    );
    assert_eq!(server.config.port, 8080);
}

#[test]
fn fallback_pages_are_filled_in() {
    let server = create_empty_server();
    let page = text_of(server.render_fallback(Some("v1".to_string()), 404, "no {{STATUS}} here"));
    assert_eq!(
        page,
        "<p>404 no {{STATUS}} here</p><a href=\"https://youtu.be/v1\">watch</a> 404"
    );
    let page = text_of(server.render_fallback(None, 500, ""));
    assert_eq!(page, "<p>500: ; no youtube link</p>");
}
