use server::{
    feed_header_line, insert_header, is_header_end, parse_header_line, parse_request, parse_request_line, HttpError,
    Method, Request, Response, Status,
};

fn pairs(items: &[(&str, &str)]) -> Vec<(String, String)> {
    items.iter().map(|(k, v)| (k.to_string(), v.to_string())).collect()
}

#[test]
fn method_parse_known_tokens() {
    assert_eq!(Method::parse("GET"), Ok(Method::Get));
    assert_eq!(Method::parse("POST"), Ok(Method::Post));
}

#[test]
fn method_parse_other_tokens() {
    for t in ["get", "Post", "PUT", "", "GET ", " GET", "GETS", "DELETE"] {
        assert_eq!(Method::parse(t), Err(HttpError::InvalidMethod), "token {t:?}");
    }
}

#[test]
fn status_codes_round_trip() {
    assert_eq!(Status::from_code(200), Ok(Status::OK));
    assert_eq!(Status::from_code(200).unwrap().line(), "200 OK");
    assert_eq!(Status::from_code(404), Ok(Status::NotFound));
    assert_eq!(Status::from_code(404).unwrap().line(), "404 Not Found");
}

#[test]
fn status_other_codes_fail() {
    for c in [0u16, 1, 199, 201, 301, 403, 405, 500, u16::MAX] {
        assert_eq!(Status::from_code(c), Err(HttpError::InvalidStatusCode), "code {c}");
    }
}

#[test]
fn parse_simple_request() {
    let r = parse_request("GET /hello HTTP/1.1\nHost: example.com\n\nworld").unwrap();
    assert_eq!(r.method, Method::Get);
    assert_eq!(r.path, "/hello");
    assert_eq!(r.headers, pairs(&[("Host", "example.com")]));
    assert_eq!(r.body, "world");
}

#[test]
fn header_without_colon_fails() {
    assert_eq!(parse_header_line("X-Bad\n"), Err(HttpError::MissingHeaderName));
    assert_eq!(
        parse_request("GET / HTTP/1.1\nX-Bad\n\n"),
        Err(HttpError::MissingHeaderName)
    );
}

#[test]
fn header_without_value_fails() {
    assert_eq!(parse_header_line("Key:\n"), Err(HttpError::MissingHeaderValue));
    assert_eq!(parse_header_line("Key:\r\n"), Err(HttpError::MissingHeaderValue));
    assert_eq!(parse_header_line("Key:"), Err(HttpError::MissingHeaderValue));
    assert_eq!(
        parse_request("POST /x HTTP/1.1\nKey:\n\nbody"),
        Err(HttpError::MissingHeaderValue)
    );
}

#[test]
fn header_value_keeps_later_colons_and_is_trimmed() {
    assert_eq!(
        parse_header_line("Host:  example.com:8080 \r\n"),
        Ok(("Host".to_string(), "example.com:8080".to_string()))
    );
    assert_eq!(
        parse_header_line("X:   \n"),
        Ok(("X".to_string(), String::new()))
    );
}

#[test]
fn missing_method_and_path() {
    assert_eq!(parse_request(""), Err(HttpError::MissingMethod));
    assert_eq!(parse_request("   \n"), Err(HttpError::MissingMethod));
    assert_eq!(parse_request("GET\n\n"), Err(HttpError::MissingPath));
    assert_eq!(parse_request_line("GET   \r\n"), Err(HttpError::MissingPath));
}

#[test]
fn invalid_method_is_reported_before_missing_path() {
    assert_eq!(parse_request("get /x HTTP/1.1\n\n"), Err(HttpError::InvalidMethod));
    assert_eq!(parse_request("FETCH\n"), Err(HttpError::InvalidMethod));
}

#[test]
fn request_line_ignores_version_and_extra_tokens() {
    assert_eq!(
        parse_request_line("POST  /a/b   HTTP/1.1 trailing junk\n"),
        Ok((Method::Post, "/a/b".to_string()))
    );
    assert_eq!(
        parse_request_line("GET\u{3000}/wide\u{a0}x"),
        Ok((Method::Get, "/wide".to_string()))
    );
}

#[test]
fn crlf_request_is_parsed() {
    let r = parse_request("POST /submit HTTP/1.1\r\nA: 1\r\nB: two words \r\n\r\nline1\r\nline2\r\n")
        .unwrap();
    assert_eq!(r.method, Method::Post);
    assert_eq!(r.path, "/submit");
    assert_eq!(r.headers, pairs(&[("A", "1"), ("B", "two words")]));
    assert_eq!(r.body, "line1\r\nline2\r\n");
}

#[test]
fn repeated_header_overwrites_in_place() {
    let r = parse_request("GET / HTTP/1.1\nA: 1\nB: 2\nA: 3\n\n").unwrap();
    assert_eq!(r.headers, pairs(&[("A", "3"), ("B", "2")]));
    assert_eq!(r.body, "");
}

#[test]
fn input_ending_inside_headers_has_empty_body() {
    let r = parse_request("GET /x HTTP/1.1\nA: 1").unwrap();
    assert_eq!(r.headers, pairs(&[("A", "1")]));
    assert_eq!(r.body, "");
    let r = parse_request("GET /x").unwrap();
    assert_eq!(r.path, "/x");
    assert!(r.headers.is_empty());
    assert_eq!(r.body, "");
}

#[test]
fn header_names_are_case_sensitive_and_untrimmed() {
    let r = parse_request("GET / HTTP/1.1\nhost: a\nHost: b\n X: c\n\n").unwrap();
    assert_eq!(r.headers, pairs(&[("host", "a"), ("Host", "b"), (" X", "c")]));
}

#[test]
fn body_after_blank_line_is_kept_verbatim() {
    let r = parse_request("GET / HTTP/1.1\n\nA: 1\n\nmore").unwrap();
    assert!(r.headers.is_empty());
    assert_eq!(r.body, "A: 1\n\nmore");
}

#[test]
fn parsing_twice_gives_equal_requests() {
    let input = "POST /echo HTTP/1.1\r\nHost: h\r\nX: y\r\n\r\npayload";
    let a: Request = parse_request(input).unwrap();
    let b: Request = parse_request(&input.to_string()).unwrap();
    assert_eq!(a, b);
    assert_eq!(parse_request("GET\n"), parse_request("GET\n"));
}

#[test]
fn header_end_lines() {
    assert!(is_header_end(""));
    assert!(is_header_end("\n"));
    assert!(is_header_end("\r\n"));
    assert!(!is_header_end(" \n"));
    assert!(!is_header_end("\r"));
    assert!(!is_header_end("A: b\n"));
}

#[test]
fn insert_header_appends_and_replaces() {
    let mut hs = Vec::new();
    insert_header(&mut hs, "A".to_string(), "1".to_string());
    insert_header(&mut hs, "B".to_string(), "2".to_string());
    insert_header(&mut hs, "A".to_string(), "3".to_string());
    assert_eq!(hs, pairs(&[("A", "3"), ("B", "2")]));
}

#[test]
fn json_response_wire_text() {
    let value: serde_json::Value = serde_json::from_str("{\"a\":1}").unwrap();
    let r = Response::from_json(Status::OK, value);
    assert_eq!(r.status, Status::OK);
    assert_eq!(
        r.headers,
        pairs(&[("Content-Type", "application/json"), ("Content-Length", "7")])
    );
    assert_eq!(r.body, b"{\"a\":1}".to_vec());
    let mut wire = r.status_and_headers().into_bytes();
    wire.extend_from_slice(&r.body);
    assert_eq!(
        wire,
        b"HTTP/1.1 200 OK\r\nContent-Type: application/json\r\nContent-Length: 7\r\n\r\n{\"a\":1}"
            .to_vec()
    );
}

#[test]
fn json_response_of_nested_value_is_compact() {
    let value: serde_json::Value =
        serde_json::from_str("{ \"k\" : [1, 2, null], \"s\": \"x y\" }").unwrap();
    let r = Response::from_json(Status::NotFound, value);
    assert_eq!(r.body, b"{\"k\":[1,2,null],\"s\":\"x y\"}".to_vec());
    assert_eq!(r.headers[1], ("Content-Length".to_string(), "26".to_string()));
    assert!(r.status_and_headers().starts_with("HTTP/1.1 404 Not Found\r\n"));
}

#[test]
fn string_response_counts_utf8_bytes() {
    let r = Response::from_string(Status::OK, "text/plain", "h\u{e9}llo".to_string());
    assert_eq!(r.body, "h\u{e9}llo".as_bytes().to_vec());
    assert_eq!(
        r.headers,
        pairs(&[("Content-Type", "text/plain"), ("Content-Length", "6")])
    );
}

#[test]
fn string_response_lengths_in_decimal() {
    let r = Response::from_string(Status::OK, "text/plain", String::new());
    assert_eq!(r.headers[1].1, "0");
    assert!(r.body.is_empty());
    let r = Response::from_string(Status::OK, "text/plain", "x".repeat(10));
    assert_eq!(r.headers[1].1, "10");
    let r = Response::from_string(Status::OK, "text/plain", "y".repeat(1234));
    assert_eq!(r.headers[1].1, "1234");
}

#[test]
fn head_without_headers_has_one_blank_line() {
    let r = Response { status: Status::NotFound, headers: Vec::new(), body: Vec::new() };
    assert_eq!(r.status_and_headers(), "HTTP/1.1 404 Not Found\r\n\r\n");
}

#[test]
fn head_keeps_header_order() {
    let r = Response {
        status: Status::OK,
        headers: pairs(&[("Z", "1"), ("A", "2")]),
        body: Vec::new(),
    };
    assert_eq!(r.status_and_headers(), "HTTP/1.1 200 OK\r\nZ: 1\r\nA: 2\r\n\r\n");
}

#[test]
fn feed_header_line_steps() {
    let mut hs = Vec::new();
    assert_eq!(feed_header_line(&mut hs, "A: 1\r\n"), Ok(false));
    assert_eq!(feed_header_line(&mut hs, "B:2\n"), Ok(false));
    assert_eq!(feed_header_line(&mut hs, "A: 3\n"), Ok(false));
    assert_eq!(feed_header_line(&mut hs, "bad\n"), Err(HttpError::MissingHeaderName));
    assert_eq!(feed_header_line(&mut hs, "C:\n"), Err(HttpError::MissingHeaderValue));
    assert_eq!(hs, pairs(&[("A", "3"), ("B", "2")]));
    assert_eq!(feed_header_line(&mut hs, "\r\n"), Ok(true));
    assert_eq!(feed_header_line(&mut hs, ""), Ok(true));
    assert_eq!(hs, pairs(&[("A", "3"), ("B", "2")]));
}

#[test]
fn colonless_header_fails_whatever_follows() {
    assert_eq!(
        parse_request("GET / HTTP/1.1\nA: 1\nB: 2\nX-Bad\nC: 3\n\nbody: text"),
        Err(HttpError::MissingHeaderName)
    );
    assert_eq!(parse_request("POST /p\r\nNoColon"), Err(HttpError::MissingHeaderName));
}

#[test]
fn json_response_matches_string_response_of_its_text() {
    let value: serde_json::Value = serde_json::from_str("[true, \"\u{e9}\", {\"b\": null}]").unwrap();
    let text = value.to_string();
    let a = Response::from_json(Status::NotFound, value);
    let b = Response::from_string(Status::NotFound, "application/json", text);
    assert_eq!(a, b);
}

#[test]
fn json_response_body_parses_back() {
    let value: serde_json::Value =
        serde_json::from_str("{\"a\": 1, \"list\": [1, -2, \"three\"], \"o\": {}}").unwrap();
    let r = Response::from_json(Status::OK, value.clone());
    let back: serde_json::Value = serde_json::from_slice(&r.body).unwrap();
    assert_eq!(back, value);
    assert_eq!(r.headers[1].1, r.body.len().to_string());
}
