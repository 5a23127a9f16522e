use rusty_web::parser::multipart::{
    extract_boundary, extract_form_part_body, extract_form_value, parse, parse_form_part_header,
    ChunkReader, FormPart, Limits, MultipartFormDataError, StreamReader,
};
use rusty_web::multimap::MultiMap;
use rusty_web::parser::multipart::FormPartLimit;

const SAMPLE_BODY_2: &str = "--boundary123\r\nContent-Disposition: form-data; name=\"field1\"\r\n\r\nvalue1\r\n\r\n--boundary123\r\nContent-Disposition: form-data; name=\"file\"; filename=\"example.txt\"\r\nContent-Type: text/plain\r\n\r\nThis is the content of the file.\r\n--boundary123\r\nContent-Disposition: form-data; name=\"field2\"\r\n\r\nvalue2\r\n--boundary123--\r\n";

fn headers_with(name: &str, value: &str) -> rusty_web::headers::Headers {
    let mut h: rusty_web::headers::Headers = MultiMap::new();
    h.append(name.to_string(), value.to_string());
    h
}

#[test]
fn test_parser() {
    let mut reader = ChunkReader::new(SAMPLE_BODY_2.as_bytes().to_vec(), Vec::new());
    let request_chunk_result = reader.get_exact(SAMPLE_BODY_2.len());
    assert_eq!(true, request_chunk_result.is_ok());

    let headers = headers_with("Content-Type", "multipart/form-data; boundary=boundary123");

    let partial_body = request_chunk_result.unwrap();
    let parse_result = parse(partial_body, &headers, reader, Limits::none());
    match parse_result {
        Ok(form_parts) => {
            for form_part in form_parts.iter() {
                let _name = form_part.name.as_ref().unwrap();
                if form_part.value.as_ref().is_some() {
                    let _value = String::from_utf8(form_part.value.as_ref().unwrap().to_vec());
                }
            }
        }
        Err(_error) => {}
    }
}

#[test]
fn test_header_parser() {
    let header_sample_1 = "\r\nContent-Disposition: form-data; name=\"John Doe\"\r\n\r\n";
    let parsing_result = parse_form_part_header(header_sample_1.to_string());
    assert_eq!(true, parsing_result.is_ok());
    let form_part = parsing_result.unwrap();
    assert_eq!("John Doe", form_part.name.unwrap());

    let header_sample_2 = "Content-Disposition: form-data; name=\"file\"; filename=\"a.txt\"\r\n\
        Content-Type: text/plain\r\n\r\n";
    let parsing_result = parse_form_part_header(header_sample_2.to_string());
    assert_eq!(true, parsing_result.is_ok());
    let form_part = parsing_result.unwrap();

    assert_eq!(form_part.name.unwrap(), "file");
    assert_eq!(form_part.filename.unwrap(), "a.txt");
    assert_eq!(form_part.content_type.unwrap(), "text/plain");
}

#[test]
fn test_extract_file_body() {
    let sample_body =
        "John Doe\r\n\r\n----------------------------163905767229441796406063\r\nContent-Disposition...";

    for round in 0..10 {
        let mut form_part = FormPart {
            name: Some("file".to_string()),
            filename: Some("file.txt".to_string()),
            content_type: Some("text/html".to_string()),
            temp_file: None,
            value: None,
        };

        let sizes: Vec<usize> = vec![round + 1, 3, 7, 2];
        let mut reader = ChunkReader::new(sample_body.as_bytes().to_vec(), sizes);
        let mut body_buffer = reader.get_chunk().unwrap();

        let boundary = "--------------------------163905767229441796406063".to_string();
        let result = extract_form_part_body(
            &mut reader,
            &mut body_buffer,
            &boundary,
            &mut form_part,
            &Limits::none(),
        );
        match result {
            Ok(_res) => {
                let mut temp_file = form_part.temp_file.unwrap();
                let content = temp_file.read_remaining().expect("Error reading temporary file");
                assert_eq!(content, b"John Doe".to_vec());
            }
            Err(_) => {
                panic!("Multipart body parsing returned error.");
            }
        }
    }
}

#[test]
fn test_extract_form_value() {
    let sample_body =
        "John Doe\r\n----------------------------163905767229441796406063\r\nContent-Disposition";
    let mut reader = ChunkReader::new(sample_body.as_bytes().to_vec(), Vec::new());
    let mut body_buffer = reader.get_chunk().unwrap();
    let boundary = "--------------------------163905767229441796406063".to_string();
    let mut form_part = FormPart::empty();

    let result = extract_form_value(&mut reader, &mut body_buffer, &boundary, &mut form_part, None);

    assert_eq!(true, result.is_ok());
    assert_eq!(b"John Doe".to_vec(), form_part.value.unwrap());
}

fn parse_sample(body: &str, boundary_header: &str, sizes: Vec<usize>) -> Vec<FormPart> {
    let reader = ChunkReader::new(body.as_bytes().to_vec(), sizes);
    let headers = headers_with("Content-Type", boundary_header);
    parse(Vec::new(), &headers, reader, Limits::none()).expect("multipart body should parse")
}

#[test]
fn multipart_value_and_file_parts() {
    // A value part and a file part whose content ends with a line break
    // kept inside the file: the extra CRLF before the separator must be
    // stripped, the content's own newline kept.
    let body = "--b\r\nContent-Disposition: form-data; name=\"name\"\r\n\r\nJohn Doe\r\n--b\r\nContent-Disposition: form-data; name=\"file\"; filename=\"a.txt\"\r\nContent-Type: text/plain\r\n\r\nhello\n\r\n--b--\r\n";
    let parts = parse_sample(body, "multipart/form-data; boundary=b", Vec::new());
    assert_eq!(parts.len(), 2);
    assert_eq!(parts[0].name.as_ref().unwrap(), "name");
    assert_eq!(parts[0].value.as_ref().unwrap(), &b"John Doe".to_vec());
    assert!(parts[0].temp_file.is_none());
    assert_eq!(parts[1].name.as_ref().unwrap(), "file");
    assert_eq!(parts[1].filename.as_ref().unwrap(), "a.txt");
    assert_eq!(parts[1].content_type.as_ref().unwrap(), "text/plain");
    assert!(parts[1].value.is_none());
    let mut parts = parts;
    let content = parts[1].temp_file.as_mut().unwrap().read_remaining().unwrap();
    assert_eq!(content, b"hello\n".to_vec());
}

#[test]
fn multipart_chunking_gives_same_parts() {
    // The same body fed one byte at a time and in large chunks decodes to
    // the same list of parts.
    let body = "--b\r\nContent-Disposition: form-data; name=\"a\"\r\n\r\nfirst\r\n--b\r\nContent-Disposition: form-data; name=\"a\"\r\n\r\nsecond\r\n--b--\r\n";
    let tiny = parse_sample(body, "multipart/form-data; boundary=b", vec![1]);
    let big = parse_sample(body, "multipart/form-data; boundary=b", vec![1024]);
    let odd = parse_sample(body, "multipart/form-data; boundary=b", vec![3, 5, 2, 11]);
    assert_eq!(tiny.len(), 2);
    assert_eq!(big.len(), 2);
    assert_eq!(odd.len(), 2);
    for parts in [&tiny, &big, &odd] {
        assert_eq!(parts[0].name.as_ref().unwrap(), "a");
        assert_eq!(parts[0].value.as_ref().unwrap(), &b"first".to_vec());
        assert_eq!(parts[1].value.as_ref().unwrap(), &b"second".to_vec());
    }
}

#[test]
fn multipart_empty_part_body() {
    let body = "--b\r\nContent-Disposition: form-data; name=\"x\"\r\n\r\n\r\n--b--\r\n";
    let parts = parse_sample(body, "multipart/form-data; boundary=b", vec![1]);
    assert_eq!(parts.len(), 1);
    assert_eq!(parts[0].value.as_ref().unwrap(), &Vec::<u8>::new());
}

#[test]
fn multipart_body_just_under_separator_length() {
    // A part body one byte shorter than the separator, fed in single
    // bytes: the sliding tail must still find the separator.
    let body = "--b\r\nContent-Disposition: form-data; name=\"x\"\r\n\r\nXXXX\r\n--b--\r\n";
    let parts = parse_sample(body, "multipart/form-data; boundary=b", vec![1]);
    assert_eq!(parts.len(), 1);
    assert_eq!(parts[0].value.as_ref().unwrap(), &b"XXXX".to_vec());
}

#[test]
fn multipart_file_part_in_the_middle() {
    // A non-final file part: its separator is followed by CRLF and a
    // further value part, the final part by the dashes.
    let body = "--b\r\nContent-Disposition: form-data; name=\"file\"; filename=\"a.txt\"\r\n\r\ndata\r\n--b\r\nContent-Disposition: form-data; name=\"x\"\r\n\r\nlast\r\n--b--\r\n";
    let parts = parse_sample(body, "multipart/form-data; boundary=b", vec![2, 5]);
    assert_eq!(parts.len(), 2);
    let mut parts = parts;
    let content = parts[0].temp_file.as_mut().unwrap().read_remaining().unwrap();
    assert_eq!(content, b"data".to_vec());
    assert_eq!(parts[1].value.as_ref().unwrap(), &b"last".to_vec());
}

#[test]
fn multipart_final_and_nonfinal_tails() {
    // A non-final part is followed by CRLF after the separator, the final
    // part by the two dashes and CRLF.
    let body = "--b\r\nContent-Disposition: form-data; name=\"p\"\r\n\r\none\r\n--b\r\nContent-Disposition: form-data; name=\"q\"\r\n\r\ntwo\r\n--b--\r\n";
    let parts = parse_sample(body, "multipart/form-data; boundary=b", Vec::new());
    assert_eq!(parts.len(), 2);
    assert_eq!(parts[0].value.as_ref().unwrap(), &b"one".to_vec());
    assert_eq!(parts[1].value.as_ref().unwrap(), &b"two".to_vec());
}

#[test]
fn multipart_rejects_missing_start_boundary() {
    let body = "GARBAGE\r\nContent-Disposition: form-data; name=\"x\"\r\n\r\nv\r\n--b--\r\n";
    let reader = ChunkReader::new(body.as_bytes().to_vec(), Vec::new());
    let headers = headers_with("Content-Type", "multipart/form-data; boundary=b");
    let r = parse(Vec::new(), &headers, reader, Limits::none());
    assert!(matches!(r, Err(MultipartFormDataError::InvalidMultiPart(_))));
}

#[test]
fn multipart_rejects_oversized_declared_body() {
    let body = "--b\r\nContent-Disposition: form-data; name=\"x\"\r\n\r\nv\r\n--b--\r\n";
    let reader = ChunkReader::new(body.as_bytes().to_vec(), Vec::new());
    let mut headers = headers_with("Content-Type", "multipart/form-data; boundary=b");
    headers.append("Content-Length".to_string(), "20".to_string());
    let limits = Limits {
        max_body_size: Some(10),
        max_header_size: None,
        form_part_limits: MultiMap::new(),
    };
    let r = parse(Vec::new(), &headers, reader, limits);
    assert!(matches!(r, Err(MultipartFormDataError::MaxBodySizeExceed(_))));
}

#[test]
fn multipart_rejects_oversized_part_header() {
    let body = "--b\r\nContent-Disposition: form-data; name=\"a-rather-long-field-name\"\r\n\r\nv\r\n--b--\r\n";
    let reader = ChunkReader::new(body.as_bytes().to_vec(), Vec::new());
    let headers = headers_with("Content-Type", "multipart/form-data; boundary=b");
    let limits = Limits {
        max_body_size: None,
        max_header_size: Some(8),
        form_part_limits: MultiMap::new(),
    };
    let r = parse(Vec::new(), &headers, reader, limits);
    assert!(matches!(r, Err(MultipartFormDataError::HeaderSizeExceed(_))));
}

#[test]
fn multipart_rejects_oversized_field() {
    let body = "--b\r\nContent-Disposition: form-data; name=\"x\"\r\n\r\nmuch too large for the field\r\n--b--\r\n";
    let reader = ChunkReader::new(body.as_bytes().to_vec(), Vec::new());
    let headers = headers_with("Content-Type", "multipart/form-data; boundary=b");
    let mut field_limits: MultiMap<FormPartLimit> = MultiMap::new();
    field_limits.append(
        "x".to_string(),
        FormPartLimit { max_size: Some(4), content_type: None },
    );
    let limits = Limits {
        max_body_size: None,
        max_header_size: None,
        form_part_limits: field_limits,
    };
    let r = parse(Vec::new(), &headers, reader, limits);
    match r {
        Err(MultipartFormDataError::MaxFieldSizeExceed(name, _)) => {
            assert_eq!(name, "x");
        }
        other => panic!("expected the field size error, got {}", outcome_name(&other)),
    }
}

#[test]
fn multipart_rejects_bad_separator_tail() {
    let body = "--b\r\nContent-Disposition: form-data; name=\"x\"\r\n\r\nv\r\n--bXYZW\r\n";
    let reader = ChunkReader::new(body.as_bytes().to_vec(), Vec::new());
    let headers = headers_with("Content-Type", "multipart/form-data; boundary=b");
    let r = parse(Vec::new(), &headers, reader, Limits::none());
    assert!(matches!(r, Err(MultipartFormDataError::ParsingError(_))));
}

#[test]
fn multipart_reports_truncated_body() {
    let body = "--b\r\nContent-Disposition: form-data; name=\"x\"\r\n\r\nnever ends";
    let reader = ChunkReader::new(body.as_bytes().to_vec(), Vec::new());
    let headers = headers_with("Content-Type", "multipart/form-data; boundary=b");
    let r = parse(Vec::new(), &headers, reader, Limits::none());
    assert!(matches!(r, Err(MultipartFormDataError::BodyReadEnd)));
}

fn outcome_name(r: &Result<Vec<FormPart>, MultipartFormDataError>) -> &'static str {
    match r {
        Ok(_) => "parts",
        Err(MultipartFormDataError::InvalidMultiPart(_)) => "invalid multipart",
        Err(MultipartFormDataError::ParsingError(_)) => "parsing error",
        Err(MultipartFormDataError::HeaderSizeExceed(_)) => "header size",
        Err(MultipartFormDataError::MaxBodySizeExceed(_)) => "body size",
        Err(MultipartFormDataError::MaxFieldSizeExceed(_, _)) => "field size",
        Err(MultipartFormDataError::BodyReadEnd) => "body read end",
        Err(MultipartFormDataError::Others(_)) => "other",
    }
}

#[test]
fn boundary_extraction_scans_every_parameter() {
    assert_eq!(
        extract_boundary(&"multipart/form-data; boundary=abc".to_string()).unwrap(),
        "abc"
    );
    assert_eq!(
        extract_boundary(&"multipart/form-data; charset=utf-8; boundary=xyz".to_string()).unwrap(),
        "xyz"
    );
    assert!(extract_boundary(&"multipart/form-data".to_string()).is_none());
    assert!(extract_boundary(&"multipart/form-data; charset=utf-8".to_string()).is_none());
    // The media type itself is not a parameter.
    assert!(extract_boundary(&"boundary=abc".to_string()).is_none());
}
