use rusty_web::headers::{
    connection_type, contains_full_headers, content_length, extract_content_type, host,
    parse_header, parse_raw_headers, parse_request_method_header, query_params_from_raw,
    HeaderExtractor, HeaderProgress,
};
use rusty_web::multimap::{map_first_vec_value, MultiMap};
use rusty_web::parser::multipart::ChunkReader;
use rusty_web::parser::url_encoded::{self, UrlEncodedFormDataError, UrlEncodedReader};
use rusty_web::parser::body;
use rusty_web::parser::body::{BodyReader, BodyReadError};
use rusty_web::parser::{parse_url_encoded, url_decode, url_encode};
use rusty_web::paths::{match_path, Path};
use rusty_web::request::form::{FormFileMethods, MapFirstStringMethod};
use rusty_web::request::Request;
use rusty_web::response::Response;
use rusty_web::status::{Status, StatusCode, StatusMethods};

fn headers_of(pairs: &[(&str, &str)]) -> rusty_web::headers::Headers {
    let mut h: rusty_web::headers::Headers = MultiMap::new();
    for (name, value) in pairs {
        h.append(name.to_string(), value.to_string());
    }
    h
}

#[test]
fn header_extractor_finds_terminator_in_one_chunk() {
    let mut ex = HeaderExtractor::new(1024);
    match ex.push_chunk(b"GET / HTTP/1.1\r\nHost: h\r\n\r\nBODY") {
        HeaderProgress::Done(head, leftover) => {
            assert_eq!(head, b"GET / HTTP/1.1\r\nHost: h".to_vec());
            assert_eq!(leftover, b"BODY".to_vec());
        }
        _ => panic!("expected a complete head"),
    }
}

#[test]
fn header_extractor_finds_terminator_across_reads() {
    // The blank line straddles two socket reads.
    let mut ex = HeaderExtractor::new(1024);
    assert!(matches!(ex.push_chunk(b"GET / HTTP/1.1\r"), HeaderProgress::NeedMore));
    assert!(matches!(ex.push_chunk(b"\n\r"), HeaderProgress::NeedMore));
    match ex.push_chunk(b"\nrest") {
        HeaderProgress::Done(head, leftover) => {
            assert_eq!(head, b"GET / HTTP/1.1".to_vec());
            assert_eq!(leftover, b"rest".to_vec());
        }
        _ => panic!("expected a complete head"),
    }
}

#[test]
fn header_extractor_enforces_size_limit() {
    let mut ex = HeaderExtractor::new(4);
    assert!(matches!(
        ex.push_chunk(b"far too many header bytes"),
        HeaderProgress::TooLarge
    ));
}

#[test]
fn raw_header_block_parses_into_fields() {
    let (start, headers) =
        parse_raw_headers(b"POST /x HTTP/1.1\r\nHost: example\r\nAccept: a\r\nAccept: b\r\nBad line\r\nContent-Length: 5");
    assert_eq!(start, "POST /x HTTP/1.1");
    assert_eq!(host(&headers).unwrap(), "example");
    assert_eq!(content_length(&headers).unwrap(), 5);
    let accepts = headers.get("Accept").unwrap();
    assert_eq!(accepts.len(), 2);
    assert_eq!(accepts[0], "a");
    assert_eq!(accepts[1], "b");
    assert!(headers.get("Bad line").is_none());
}

#[test]
fn header_value_helpers() {
    let headers = headers_of(&[
        ("Content-Length", "12"),
        ("Connection", "keep-alive"),
        ("Content-Type", "text/plain"),
    ]);
    assert_eq!(content_length(&headers).unwrap(), 12);
    assert_eq!(connection_type(&headers).unwrap(), "keep-alive");
    assert_eq!(extract_content_type(&headers).unwrap(), "text/plain");
    assert!(host(&headers).is_none());
    let empty = headers_of(&[]);
    assert!(content_length(&empty).is_none());
    let bad = headers_of(&[("Content-Length", "12x")]);
    assert!(content_length(&bad).is_none());
}

#[test]
fn request_line_parses_method_and_path() {
    let (method, path) = parse_request_method_header("GET /search?q=hi HTTP/1.1").unwrap();
    assert_eq!(method, "GET");
    assert_eq!(path, "/search?q=hi");
    assert!(parse_request_method_header("GARBAGE").is_none());
    assert!(parse_request_method_header("GET /x").is_none());
    let (m2, p2) = parse_request_method_header("a b c d").unwrap();
    assert_eq!(m2, "a b");
    assert_eq!(p2, "c");
}

#[test]
fn header_line_splits_on_first_colon() {
    let (name, value) = parse_header("Content-Length: 10").unwrap();
    assert_eq!(name, "Content-Length");
    assert_eq!(value, "10");
    let (n2, v2) = parse_header("Host: site:8080").unwrap();
    assert_eq!(n2, "Host");
    assert_eq!(v2, "site:8080");
    assert!(parse_header("no colon here").is_none());
}

#[test]
fn terminator_position_is_reported() {
    assert_eq!(contains_full_headers(b"ab\r\n\r\ncd"), Some(2));
    assert_eq!(contains_full_headers(b"abcd"), None);
}

#[test]
fn url_codec_round_trip() {
    // Unreserved ASCII text survives decode-then-encode untouched.
    for text in ["abc", "A-b_c.d~9", "hello"] {
        let decoded = url_decode(text);
        assert_eq!(decoded, text);
        assert_eq!(url_encode(&decoded), text);
    }
    assert_eq!(url_decode("%41%20b"), "A b");
    assert_eq!(url_decode("a%2Bb"), "a+b");
    // Malformed escapes stay as they are.
    assert_eq!(url_decode("100%"), "100%");
    assert_eq!(url_decode("%GGx"), "%GGx");
    // An escape that does not decode to UTF-8 leaves the text unchanged.
    assert_eq!(url_decode("%FF"), "%FF");
    // Multi-byte escapes decode through UTF-8.
    assert_eq!(url_decode("%C3%A9"), "\u{e9}");
    assert_eq!(url_encode("a b/c"), "a%20b%2Fc");
}

#[test]
fn url_decode_agrees_with_the_urlencoding_crate() {
    for text in ["plain", "a%20b", "x%2By", "%C3%A9", "100%", "%4"] {
        let mine = url_decode(text);
        let theirs = urlencoding::decode(text).unwrap().to_string();
        assert_eq!(mine, theirs);
    }
}

#[test]
fn url_encoded_text_parses_to_multi_valued_map() {
    let m = parse_url_encoded("name=John&age=22&name=Jane&skip&x=a%20b");
    assert_eq!(map_first_vec_value(&m, "name").unwrap(), "John");
    assert_eq!(map_first_vec_value(&m, "age").unwrap(), "22");
    assert_eq!(map_first_vec_value(&m, "x").unwrap(), "a b");
    assert!(map_first_vec_value(&m, "skip").is_none());
    let names = m.get("name").unwrap();
    assert_eq!(names.len(), 2);
    assert_eq!(names[1], "Jane");
    // The value is everything after the first equals sign.
    let m2 = parse_url_encoded("a=b=c");
    assert_eq!(map_first_vec_value(&m2, "a").unwrap(), "b=c");
}

#[test]
fn url_encoded_body_parse_enforces_preconditions() {
    let headers = headers_of(&[("Content-Length", "16")]);
    let mut reader = ChunkReader::new(b"name=John&age=22".to_vec(), vec![3]);
    let fields = url_encoded::parse(
        Vec::new(),
        &headers,
        &mut reader,
        url_encoded::Limits { max_body_size: 1024 },
    )
    .unwrap();
    assert_eq!(map_first_vec_value(&fields, "name").unwrap(), "John");
    assert_eq!(map_first_vec_value(&fields, "age").unwrap(), "22");

    let no_len = headers_of(&[]);
    let mut reader2 = ChunkReader::new(Vec::new(), Vec::new());
    let r2 = url_encoded::parse(
        Vec::new(),
        &no_len,
        &mut reader2,
        url_encoded::Limits { max_body_size: 1024 },
    );
    assert!(matches!(r2, Err(UrlEncodedFormDataError::ContentLengthMissing(_))));

    let big = headers_of(&[("Content-Length", "4096")]);
    let mut reader3 = ChunkReader::new(Vec::new(), Vec::new());
    let r3 = url_encoded::parse(
        Vec::new(),
        &big,
        &mut reader3,
        url_encoded::Limits { max_body_size: 1024 },
    );
    assert!(matches!(r3, Err(UrlEncodedFormDataError::MaxBodySizeExceed(_))));
}

#[test]
fn url_encoded_reader_stops_at_declared_length() {
    let inner = ChunkReader::new(b"name=x&tail-of-next-request".to_vec(), Vec::new());
    let mut reader = UrlEncodedReader::new(inner, 6, 0);
    let headers = headers_of(&[("Content-Length", "6")]);
    let fields = url_encoded::parse(
        Vec::new(),
        &headers,
        &mut reader,
        url_encoded::Limits { max_body_size: 1024 },
    )
    .unwrap();
    assert_eq!(map_first_vec_value(&fields, "name").unwrap(), "x");
}

#[test]
fn body_parse_spools_declared_length() {
    let headers = headers_of(&[("Content-Length", "10")]);
    let reader = ChunkReader::new(b"56789".to_vec(), vec![2]);
    let wrapped = BodyReader::new(reader, 10, 5, body::Limits { max_body_size: 1024 });
    let mut spool = body::parse(b"01234".to_vec(), &headers, wrapped).unwrap();
    assert_eq!(spool.read_remaining().unwrap(), b"0123456789".to_vec());

    let no_len = headers_of(&[]);
    let reader2 = ChunkReader::new(Vec::new(), Vec::new());
    let wrapped2 = BodyReader::new(reader2, 10, 0, body::Limits { max_body_size: 1024 });
    let r2 = body::parse(Vec::new(), &no_len, wrapped2);
    assert!(matches!(r2, Err(BodyReadError::ContentLengthMissing)));
}

#[test]
fn request_head_is_decoded_on_construction() {
    let req = Request::new(
        "GET".to_string(),
        "/search?q=hi&lang=en".to_string(),
        headers_of(&[]),
    );
    assert_eq!(req.pathname, "/search");
    assert_eq!(req.query_params.first("q").unwrap(), "hi");
    assert_eq!(req.query_params.first("lang").unwrap(), "en");
    assert!(!req.body_read);
}

#[test]
fn setup_marks_bodiless_methods_as_read() {
    let mut req = Request::new("GET".to_string(), "/".to_string(), headers_of(&[]));
    req.setup();
    assert!(req.body_read);

    let mut post = Request::new("POST".to_string(), "/".to_string(), headers_of(&[]));
    post.setup();
    assert!(!post.body_read);

    let mut get_len = Request::new(
        "GET".to_string(),
        "/".to_string(),
        headers_of(&[("Content-Length", "4")]),
    );
    get_len.setup();
    assert!(!get_len.body_read);
}

#[test]
fn connection_close_decision() {
    // Without a Connection header the connection closes, whatever the
    // body-read state.
    for read in [false, true] {
        let mut req = Request::new("GET".to_string(), "/".to_string(), headers_of(&[]));
        req.body_read = read;
        assert!(req.should_close_connection());
    }
    let mut keep = Request::new(
        "GET".to_string(),
        "/".to_string(),
        headers_of(&[("Connection", "keep-alive")]),
    );
    keep.body_read = true;
    assert!(!keep.should_close_connection());
    keep.body_read = false;
    assert!(keep.should_close_connection());
}

#[test]
fn form_data_parses_urlencoded_body_once() {
    let mut req = Request::new(
        "POST".to_string(),
        "/".to_string(),
        headers_of(&[
            ("Content-Type", "application/x-www-form-urlencoded"),
            ("Content-Length", "16"),
        ]),
    );
    req.set_partial_body_bytes(b"name=John&age=22".to_vec());
    let reader = ChunkReader::new(Vec::new(), Vec::new());
    {
        let fd = req.form_data(reader);
        assert_eq!(fd.value("name").unwrap(), "John");
        assert_eq!(fd.value("age").unwrap(), "22");
    }
    assert!(req.body_read);
    assert!(req.body_parsed);
    // A second call leaves the mapping as it is.
    let reader2 = ChunkReader::new(b"name=Other".to_vec(), Vec::new());
    let fd2 = req.form_data(reader2);
    assert_eq!(fd2.value("name").unwrap(), "John");
}

#[test]
fn form_files_parse_multipart_body() {
    let body = "--b\r\nContent-Disposition: form-data; name=\"name\"\r\n\r\nJohn Doe\r\n--b\r\nContent-Disposition: form-data; name=\"file\"; filename=\"a.txt\"\r\nContent-Type: text/plain\r\n\r\nhello\n\r\n--b--\r\n";
    let mut req = Request::new(
        "POST".to_string(),
        "/upload".to_string(),
        headers_of(&[("Content-Type", "multipart/form-data; boundary=b")]),
    );
    req.set_partial_body_bytes(body.as_bytes().to_vec());
    let reader = ChunkReader::new(Vec::new(), Vec::new());
    req.parse_request_body(reader);
    assert!(req.body_read);
    assert!(req.body_parsed);
    assert_eq!(req.form_data.value("name").unwrap(), "John Doe");
    let file = req.form_files.value("file").unwrap();
    assert_eq!(file.filename, "a.txt");
}

#[test]
fn body_returns_none_after_any_consumer() {
    let mut req = Request::new(
        "POST".to_string(),
        "/".to_string(),
        headers_of(&[("Content-Length", "4")]),
    );
    req.set_partial_body_bytes(b"data".to_vec());
    let reader = ChunkReader::new(Vec::new(), Vec::new());
    let first = req.body(reader);
    assert!(first.is_some());
    let mut spool = first.unwrap();
    assert_eq!(spool.read_remaining().unwrap(), b"data".to_vec());
    let reader2 = ChunkReader::new(Vec::new(), Vec::new());
    assert!(req.body(reader2).is_none());
}

#[test]
fn response_serialises_status_and_headers() {
    let req = Request::new("GET".to_string(), "/".to_string(), headers_of(&[]));
    let mut response = Response::new(req);
    response.html(Status::Okay, "Hi".to_string());
    let (bytes, close) = response.build_output();
    assert!(close);
    let text = String::from_utf8(bytes).unwrap();
    assert_eq!(
        text,
        "HTTP/1.1 200 OK\r\nContent-Type: text/html\r\nContent-Length: 2\r\n\r\nHi"
    );
}

#[test]
fn response_keeps_connection_alive_when_asked() {
    let mut req = Request::new(
        "GET".to_string(),
        "/".to_string(),
        headers_of(&[("Connection", "keep-alive")]),
    );
    req.body_read = true;
    let mut response = Response::new(req);
    response.json(200usize, "{}".to_string());
    response.add_header("X-Extra", "1");
    let (bytes, close) = response.build_output();
    assert!(!close);
    let text = String::from_utf8(bytes).unwrap();
    assert_eq!(
        text,
        "HTTP/1.1 200 OK\r\nContent-Type: application/json\r\nX-Extra: 1\r\nContent-Length: 2\r\nConnection: keep-alive\r\n\r\n{}"
    );
}

#[test]
fn head_requests_get_no_body() {
    let mut req = Request::new("HEAD".to_string(), "/".to_string(), headers_of(&[]));
    req.body_read = true;
    let mut response = Response::new(req);
    response.html(Status::Okay, "Hi".to_string());
    let (bytes, _close) = response.build_output();
    let text = String::from_utf8(bytes).unwrap();
    assert!(text.ends_with("\r\n\r\n"));
    assert!(!text.ends_with("Hi"));
}

#[test]
fn status_codes_and_reasons() {
    assert_eq!(Status::Okay.code(), 200);
    assert_eq!(Status::NotFound.code(), 404);
    assert_eq!(Status::ImaTeaPot.to_usize(), 418);
    assert_eq!(404usize.to_usize(), 404);
    assert_eq!(Status::status_text(200).unwrap(), "OK");
    assert_eq!(Status::status_text(404).unwrap(), "Not Found");
    assert_eq!(Status::status_text(511).unwrap(), "Network Authentication Required");
    assert!(Status::status_text(299).is_none());
    assert_eq!(Status::NotFound.status_code().unwrap(), 404);
}

#[test]
fn path_matching_is_exact_and_last_wins() {
    let paths: Vec<Path<u32>> = vec![
        Path::new("/", 1),
        Path::new("/about", 2),
        Path::new("/about", 3),
    ];
    assert_eq!(match_path(&paths, "/"), Some(0));
    assert_eq!(match_path(&paths, "/about"), Some(2));
    assert_eq!(match_path(&paths, "/missing"), None);
    assert_eq!(paths[2].view, 3);
}

#[test]
fn query_params_come_from_the_raw_path() {
    let m = query_params_from_raw(&"/search?name=John&age=22".to_string());
    assert_eq!(map_first_vec_value(&m, "name").unwrap(), "John");
    assert_eq!(map_first_vec_value(&m, "age").unwrap(), "22");
    let none = query_params_from_raw(&"/plain".to_string());
    assert_eq!(none.len(), 0);
    let trailing = query_params_from_raw(&"/x?".to_string());
    assert_eq!(trailing.len(), 0);
}
