use http_server::headers::HeaderMap;
use http_server::numbers::{parse_dec, render_dec};
use http_server::reader::{MessageReader, ReadStep};
use http_server::request::{
    FileOperation, FileOutcome, ParseError, Request, RequestLine, RequestType, Routed,
};
use http_server::response::{ContentType, Response, StatusCode};

use std::collections::HashMap;
use std::io::Write;

fn parse_request(text: &str, body: &[u8]) -> Request {
    Request::parse_string_with_body(text.as_bytes().to_vec(), body.to_vec()).unwrap()
}

fn routed_response(req: &Request, root: &[u8], store: &mut HashMap<Vec<u8>, Vec<u8>>) -> Response {
    match req.construct_response(root) {
        Routed::Done(resp) => resp,
        Routed::File(FileOperation::ReadFile { path }) => match store.get(&path) {
            Some(data) => req.construct_file_response(FileOutcome::ReadOk(data.clone())),
            None => req.construct_file_response(FileOutcome::ReadFailed),
        },
        Routed::File(FileOperation::WriteFile { path, content }) => {
            store.insert(path, content);
            req.construct_file_response(FileOutcome::WriteOk)
        }
    }
}

fn header_value(resp: &Response, name: &[u8]) -> Option<Vec<u8>> {
    resp.headers.get(name).cloned()
}

fn gzip_reference(data: &[u8]) -> Vec<u8> {
    let mut encoder =
        flate2::write::GzEncoder::new(Vec::new(), flate2::Compression::default());
    encoder.write_all(data).unwrap();
    encoder.finish().unwrap()
}

#[test]
fn request_line_round_trips_get() {
    let rl = RequestLine::parse_line(b"GET /echo/abc HTTP/1.1").unwrap();
    assert!(matches!(rl.request_type, RequestType::Get));
    assert_eq!(rl.url, b"/echo/abc".to_vec());
}

#[test]
fn request_line_round_trips_post() {
    let rl = RequestLine::parse_line(b"POST /files/note.txt HTTP/1.1").unwrap();
    assert!(matches!(rl.request_type, RequestType::Post));
    assert_eq!(rl.url, b"/files/note.txt".to_vec());
}

#[test]
fn request_line_rejects_bad_token_count() {
    assert!(RequestLine::parse_line(b"GET /echo/abc").is_none());
    assert!(RequestLine::parse_line(b"GET /a b HTTP/1.1").is_none());
    assert!(RequestLine::parse_line(b"").is_none());
}

#[test]
fn request_line_rejects_bad_version_or_method() {
    assert!(RequestLine::parse_line(b"GET / HTTP/1.0").is_none());
    assert!(RequestLine::parse_line(b"PUT / HTTP/1.1").is_none());
    assert!(RequestLine::parse_line(b"get / HTTP/1.1").is_none());
}

#[test]
fn header_lookup_is_case_insensitive() {
    let mut headers = HeaderMap::new();
    headers.insert(b"User-Agent".to_vec(), b"foo".to_vec());
    assert_eq!(headers.get(b"user-agent"), Some(&b"foo".to_vec()));
    assert_eq!(headers.get(b"User-Agent"), Some(&b"foo".to_vec()));
    assert_eq!(headers.get(b"USER-AGENT"), Some(&b"foo".to_vec()));
    assert_eq!(headers.get(b"user-agenx"), None);
}

#[test]
fn header_insert_replaces_case_insensitively() {
    let mut headers = HeaderMap::new();
    headers.insert(b"Content-Length".to_vec(), b"3".to_vec());
    headers.insert(b"content-length".to_vec(), b"10".to_vec());
    assert_eq!(headers.get(b"Content-Length"), Some(&b"10".to_vec()));
    assert_eq!(headers.entry_count(), 1);
}

#[test]
fn serialize_ok_with_headers_and_body() {
    let mut headers = HeaderMap::new();
    headers.insert(b"Content-Type".to_vec(), b"text/plain".to_vec());
    headers.insert(b"Content-Length".to_vec(), b"5".to_vec());
    let resp = Response::new(StatusCode::OK, headers, b"hello".to_vec());
    let wire = resp.get_response_string();
    assert_eq!(
        wire,
        b"HTTP/1.1 200 OK\r\nContent-Type: text/plain\r\nContent-Length: 5\r\n\r\nhello\r\n"
            .to_vec()
    );
}

#[test]
fn serialize_created_is_status_line_only() {
    let resp = Response::construct_created();
    assert_eq!(resp.get_response_string(), b"HTTP/1.1 201 Created\r\n\r\n".to_vec());
}

#[test]
fn serialize_not_found_empty() {
    let resp = Response::construct_not_found();
    assert_eq!(resp.get_response_string(), b"HTTP/1.1 404 Not Found\r\n\r\n".to_vec());
}

#[test]
fn root_route_returns_ok() {
    let req = parse_request("GET / HTTP/1.1", b"");
    let mut store = HashMap::new();
    let resp = routed_response(&req, b"/tmp", &mut store);
    assert!(matches!(resp.status, StatusCode::OK));
    assert_eq!(resp.get_response_string(), b"HTTP/1.1 200 OK\r\n\r\n".to_vec());
}

#[test]
fn echo_without_accept_encoding() {
    let req = parse_request("GET /echo/abc HTTP/1.1", b"");
    let mut store = HashMap::new();
    let resp = routed_response(&req, b"/tmp", &mut store);
    assert!(matches!(resp.status, StatusCode::OK));
    assert_eq!(resp.body, b"abc".to_vec());
    assert_eq!(header_value(&resp, b"Content-Length"), Some(b"3".to_vec()));
    assert_eq!(header_value(&resp, b"Content-Type"), Some(b"text/plain".to_vec()));
    assert_eq!(header_value(&resp, b"Content-Encoding"), None);
}

#[test]
fn echo_with_gzip_accept_encoding() {
    let req = parse_request(
        "GET /echo/abc HTTP/1.1\r\nAccept-Encoding: gzip",
        b"",
    );
    let mut store = HashMap::new();
    let resp = routed_response(&req, b"/tmp", &mut store);
    let expected = gzip_reference(b"abc");
    assert!(matches!(resp.status, StatusCode::OK));
    assert_eq!(header_value(&resp, b"Content-Encoding"), Some(b"gzip".to_vec()));
    assert_eq!(resp.body, expected);
    assert_eq!(
        header_value(&resp, b"Content-Length"),
        Some(expected.len().to_string().into_bytes())
    );
    assert_ne!(resp.body, b"abc".to_vec());
}

#[test]
fn echo_picks_supported_encoding_from_list() {
    let req = parse_request(
        "GET /echo/xyz HTTP/1.1\r\nAccept-Encoding: deflate, gzip, br",
        b"",
    );
    let mut store = HashMap::new();
    let resp = routed_response(&req, b"/tmp", &mut store);
    assert_eq!(header_value(&resp, b"Content-Encoding"), Some(b"gzip".to_vec()));
    assert_eq!(resp.body, gzip_reference(b"xyz"));
}

#[test]
fn echo_accepts_comma_separated_list_without_spaces() {
    let req = parse_request(
        "GET /echo/xyz HTTP/1.1\r\nAccept-Encoding: gzip,br",
        b"",
    );
    let mut store = HashMap::new();
    let resp = routed_response(&req, b"/tmp", &mut store);
    assert_eq!(header_value(&resp, b"Content-Encoding"), Some(b"gzip".to_vec()));
    assert_eq!(resp.body, gzip_reference(b"xyz"));
}

#[test]
fn echo_accepts_space_separated_list() {
    let req = parse_request(
        "GET /echo/xyz HTTP/1.1\r\nAccept-Encoding: deflate gzip",
        b"",
    );
    let mut store = HashMap::new();
    let resp = routed_response(&req, b"/tmp", &mut store);
    assert_eq!(header_value(&resp, b"Content-Encoding"), Some(b"gzip".to_vec()));
    assert_eq!(resp.body, gzip_reference(b"xyz"));
}

#[test]
fn echo_does_not_match_gzip_inside_a_longer_token() {
    for value in ["gzipped", "not-gzip", "xgzip,br"] {
        let req = parse_request(
            &format!("GET /echo/xyz HTTP/1.1\r\nAccept-Encoding: {}", value),
            b"",
        );
        let mut store = HashMap::new();
        let resp = routed_response(&req, b"/tmp", &mut store);
        assert_eq!(header_value(&resp, b"Content-Encoding"), None);
        assert_eq!(resp.body, b"xyz".to_vec());
    }
}

#[test]
fn echo_ignores_unsupported_encodings() {
    let req = parse_request(
        "GET /echo/xyz HTTP/1.1\r\nAccept-Encoding: deflate, br",
        b"",
    );
    let mut store = HashMap::new();
    let resp = routed_response(&req, b"/tmp", &mut store);
    assert_eq!(header_value(&resp, b"Content-Encoding"), None);
    assert_eq!(resp.body, b"xyz".to_vec());
}

#[test]
fn user_agent_is_reflected() {
    let req = parse_request(
        "GET /user-agent HTTP/1.1\r\nUser-Agent: test-client/1.0",
        b"",
    );
    let mut store = HashMap::new();
    let resp = routed_response(&req, b"/tmp", &mut store);
    assert!(matches!(resp.status, StatusCode::OK));
    assert_eq!(resp.body, b"test-client/1.0".to_vec());
    assert_eq!(header_value(&resp, b"Content-Length"), Some(b"15".to_vec()));
}

#[test]
fn user_agent_missing_is_not_found() {
    let req = parse_request("GET /user-agent HTTP/1.1", b"");
    let mut store = HashMap::new();
    let resp = routed_response(&req, b"/tmp", &mut store);
    assert!(matches!(resp.status, StatusCode::NotFound));
    assert!(resp.body.is_empty());
}

#[test]
fn files_post_then_get_round_trips() {
    let mut store = HashMap::new();
    let post = parse_request(
        "POST /files/note.txt HTTP/1.1\r\nContent-Length: 2",
        b"hi",
    );
    let created = routed_response(&post, b"/srv", &mut store);
    assert!(matches!(created.status, StatusCode::Created));
    let get = parse_request("GET /files/note.txt HTTP/1.1", b"");
    let resp = routed_response(&get, b"/srv", &mut store);
    assert!(matches!(resp.status, StatusCode::OK));
    assert_eq!(resp.body, b"hi".to_vec());
    assert_eq!(
        header_value(&resp, b"Content-Type"),
        Some(b"application/octet-stream".to_vec())
    );
    assert_eq!(header_value(&resp, b"Content-Length"), Some(b"2".to_vec()));
}

#[test]
fn files_missing_is_not_found_with_empty_body() {
    let req = parse_request("GET /files/missing.txt HTTP/1.1", b"");
    let mut store = HashMap::new();
    let resp = routed_response(&req, b"/srv", &mut store);
    assert!(matches!(resp.status, StatusCode::NotFound));
    assert!(resp.body.is_empty());
}

#[test]
fn files_path_separator_only_when_root_lacks_one() {
    let req = parse_request("GET /files/a.txt HTTP/1.1", b"");
    match req.construct_response(b"/srv") {
        Routed::File(FileOperation::ReadFile { path }) => {
            assert_eq!(path, b"/srv/a.txt".to_vec())
        }
        _ => panic!("expected a file read"),
    }
    match req.construct_response(b"/srv/") {
        Routed::File(FileOperation::ReadFile { path }) => {
            assert_eq!(path, b"/srv/a.txt".to_vec())
        }
        _ => panic!("expected a file read"),
    }
}

#[test]
fn files_without_name_is_not_found() {
    let req = parse_request("GET /files HTTP/1.1", b"");
    let mut store = HashMap::new();
    let resp = routed_response(&req, b"/srv", &mut store);
    assert!(matches!(resp.status, StatusCode::NotFound));
}

#[test]
fn unknown_route_is_not_found() {
    let req = parse_request("GET /nothing/here HTTP/1.1", b"");
    let mut store = HashMap::new();
    let resp = routed_response(&req, b"/srv", &mut store);
    assert!(matches!(resp.status, StatusCode::NotFound));
}

#[test]
fn parser_attaches_body_verbatim() {
    let req = parse_request(
        "POST /files/x HTTP/1.1\r\nContent-Length: 4",
        b"a\r\nb",
    );
    assert_eq!(req.body, b"a\r\nb".to_vec());
}

#[test]
fn parser_stops_headers_at_first_malformed_line() {
    let req = parse_request(
        "GET / HTTP/1.1\r\nHost: here\r\nnot-a-header\r\nLater: ignored",
        b"",
    );
    assert_eq!(req.read_field_from_header(b"Host"), Some(&b"here".to_vec()));
    assert_eq!(req.read_field_from_header(b"Later"), None);
}

#[test]
fn parser_rejects_malformed_request_line() {
    match Request::parse_string_with_body(b"BAD LINE".to_vec(), Vec::new()) {
        Ok(_) => panic!("a malformed request line must not parse"),
        Err(e) => assert!(matches!(e, ParseError::MalformedRequestLine)),
    }
}

#[test]
fn reader_frames_request_without_body() {
    let mut reader = MessageReader::new();
    assert!(matches!(
        reader.feed_line(b"GET /echo/hey HTTP/1.1\r\n".to_vec()),
        ReadStep::More
    ));
    assert!(matches!(
        reader.feed_line(b"Host: localhost\r\n".to_vec()),
        ReadStep::More
    ));
    assert!(matches!(reader.feed_line(b"\r\n".to_vec()), ReadStep::Complete));
    let req = reader.finish().unwrap();
    assert_eq!(req.line.url, b"/echo/hey".to_vec());
    assert_eq!(req.read_field_from_header(b"host"), Some(&b"localhost".to_vec()));
    assert!(req.body.is_empty());
}

#[test]
fn reader_waits_for_declared_body() {
    let mut reader = MessageReader::new();
    assert!(matches!(
        reader.feed_line(b"POST /files/x HTTP/1.1\r\n".to_vec()),
        ReadStep::More
    ));
    assert!(matches!(
        reader.feed_line(b"Content-Length: 5\r\n".to_vec()),
        ReadStep::More
    ));
    match reader.feed_line(b"\r\n".to_vec()) {
        ReadStep::NeedBody { length } => assert_eq!(length, 5),
        other => panic!("expected the reader to demand the body, got {:?}", other),
    }
    assert!(matches!(reader.feed_body(b"hello".to_vec()), ReadStep::Complete));
    let req = reader.finish().unwrap();
    assert_eq!(req.body, b"hello".to_vec());
}

#[test]
fn reader_completes_on_blank_line_when_no_length_declared() {
    let mut reader = MessageReader::new();
    reader.feed_line(b"GET / HTTP/1.1\r\n".to_vec());
    match reader.feed_line(b"\r\n".to_vec()) {
        ReadStep::Complete => {}
        other => panic!("expected completion, got {:?}", other),
    }
    let req = reader.finish().unwrap();
    assert!(req.body.is_empty());
}

#[test]
fn reader_single_line_request_parses() {
    let mut reader = MessageReader::new();
    assert!(matches!(
        reader.feed_line(b"GET / HTTP/1.1\r\n".to_vec()),
        ReadStep::More
    ));
    assert!(matches!(reader.feed_line(b"\r\n".to_vec()), ReadStep::Complete));
    let req = reader.finish().unwrap();
    assert!(matches!(req.line.request_type, RequestType::Get));
    assert_eq!(req.line.url, b"/".to_vec());
}

#[test]
fn reader_rejects_malformed_content_length() {
    let mut reader = MessageReader::new();
    reader.feed_line(b"POST /files/x HTTP/1.1\r\n".to_vec());
    match reader.feed_line(b"Content-Length: five\r\n".to_vec()) {
        ReadStep::Error(e) => assert!(matches!(e, ParseError::MalformedContentLength)),
        other => panic!("expected a fatal error, got {:?}", other),
    }
}

#[test]
fn request_header_lookup_is_case_insensitive() {
    let req = parse_request("GET / HTTP/1.1\r\nUser-Agent: foo", b"");
    assert_eq!(req.read_field_from_header(b"USER-AGENT"), Some(&b"foo".to_vec()));
    assert_eq!(req.read_field_from_header(b"User-Agent"), Some(&b"foo".to_vec()));
    assert_eq!(req.read_field_from_header(b"user-agent"), Some(&b"foo".to_vec()));
}

#[test]
fn header_value_keeps_everything_after_first_separator() {
    let req = parse_request("GET / HTTP/1.1\r\nX-Note: a: b", b"");
    assert_eq!(req.read_field_from_header(b"x-note"), Some(&b"a: b".to_vec()));
}

#[test]
fn reader_takes_piece_after_first_separator_as_length() {
    let mut reader = MessageReader::new();
    reader.feed_line(b"POST /files/x HTTP/1.1\r\n".to_vec());
    assert!(matches!(
        reader.feed_line(b"Content-Length: 2: 9\r\n".to_vec()),
        ReadStep::More
    ));
    match reader.feed_line(b"\r\n".to_vec()) {
        ReadStep::NeedBody { length } => assert_eq!(length, 2),
        other => panic!("expected a body demand, got {:?}", other),
    }
}

#[test]
fn empty_target_is_not_found() {
    let req = parse_request("GET  HTTP/1.1", b"");
    assert_eq!(req.line.url, Vec::<u8>::new());
    let mut store = HashMap::new();
    let resp = routed_response(&req, b"/srv", &mut store);
    assert!(matches!(resp.status, StatusCode::NotFound));
}

#[test]
fn content_type_display_text() {
    assert_eq!(ContentType::PlainText.to_bytes(), b"text/plain".to_vec());
    assert_eq!(
        ContentType::OctetStream.to_bytes(),
        b"application/octet-stream".to_vec()
    );
}

#[test]
fn decimal_rendering_exact_values() {
    assert_eq!(render_dec(0), b"0".to_vec());
    assert_eq!(render_dec(3), b"3".to_vec());
    assert_eq!(render_dec(1234), b"1234".to_vec());
}

#[test]
fn decimal_parsing_exact_values() {
    assert_eq!(parse_dec(b"0"), Some(0));
    assert_eq!(parse_dec(b"123"), Some(123));
    assert_eq!(parse_dec(b""), None);
    assert_eq!(parse_dec(b"12a"), None);
    assert_eq!(parse_dec(b"99999999999999999999999999"), None);
}

#[test]
fn full_round_trip_over_the_reader() {
    let mut reader = MessageReader::new();
    reader.feed_line(b"GET /echo/abc HTTP/1.1\r\n".to_vec());
    reader.feed_line(b"Accept-Encoding: gzip\r\n".to_vec());
    reader.feed_line(b"\r\n".to_vec());
    let req = reader.finish().unwrap();
    let mut store = HashMap::new();
    let resp = routed_response(&req, b"/srv", &mut store);
    let expected_body = gzip_reference(b"abc");
    let mut expected = Vec::new();
    expected.extend_from_slice(b"HTTP/1.1 200 OK\r\n");
    expected.extend_from_slice(b"Content-Type: text/plain\r\n");
    expected.extend_from_slice(
        format!("Content-Length: {}\r\n", expected_body.len()).as_bytes(),
    );
    expected.extend_from_slice(b"Content-Encoding: gzip\r\n\r\n");
    expected.extend_from_slice(&expected_body);
    expected.extend_from_slice(b"\r\n");
    assert_eq!(resp.get_response_string(), expected);
}
