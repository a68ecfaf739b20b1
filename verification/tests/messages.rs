use protorbit::{Headers, Method, ParseError, Request, Response, StatusCode, Version};

#[test]
fn request_test() {
    let raw_req = "GET / HTTP/1.1\r\nContent-Type: application/json\r\n\r\n{}";
    let req = Request::parse(raw_req).unwrap();
    let mut headers = Headers::new();
    headers.insert("Content-Type".to_string(), "application/json".to_string());
    let expected_req = Request::new(
        Method::GET,
        "/".to_string(),
        Version::HTTP1_1,
        headers,
        "{}".to_string(),
    );
    assert_eq!(req, expected_req);
    let request_string: String = req.serialize();
    assert_eq!(raw_req, request_string);
}

#[test]
fn response_test() {
    let raw_res = "HTTP/1.1 200 OK\r\nContent-Type: application/json\r\n\r\n{}";
    let res = Response::parse(raw_res).unwrap();
    let mut headers = Headers::new();
    headers.insert("Content-Type".to_string(), "application/json".to_string());
    let expected_res = Response::new(
        Version::HTTP1_1,
        StatusCode::OK,
        "OK".to_string(),
        headers,
        "{}".to_string(),
    );
    assert_eq!(res, expected_res);
    let response_string: String = res.serialize();
    assert_eq!(raw_res, response_string);
}

#[test]
fn method_parse_is_case_insensitive() {
    assert_eq!(Method::parse("get"), Ok(Method::GET));
    assert_eq!(Method::parse("GET"), Ok(Method::GET));
    assert_eq!(Method::parse("Get"), Ok(Method::GET));
    assert_eq!(Method::parse("pAtCh"), Ok(Method::PATCH));
    assert_eq!(Method::parse("delete"), Ok(Method::DELETE));
}

#[test]
fn version_parse_is_case_insensitive() {
    assert_eq!(Version::parse("http/1.1"), Ok(Version::HTTP1_1));
    assert_eq!(Version::parse("HTTP/1.1"), Ok(Version::HTTP1_1));
    assert_eq!(Version::parse("Http/2.0"), Ok(Version::HTTP2_0));
    assert_eq!(Version::parse("http/0.9"), Ok(Version::HTTP0_9));
}

#[test]
fn status_parse_accepts_number_and_canonical_text() {
    assert_eq!(StatusCode::parse("200"), Ok(StatusCode::OK));
    assert_eq!(StatusCode::parse("200 OK"), Ok(StatusCode::OK));
    assert_eq!(StatusCode::parse("200 ok"), Ok(StatusCode::OK));
    assert_eq!(StatusCode::parse("404 not found"), Ok(StatusCode::NotFound));
    assert_eq!(StatusCode::parse("400"), Ok(StatusCode::BadRequest));
    assert_eq!(
        StatusCode::parse("500 Internal Server Error"),
        Ok(StatusCode::InternalServerError)
    );
}

#[test]
fn tokens_are_trimmed_before_matching() {
    assert_eq!(Method::parse("  get \t"), Ok(Method::GET));
    assert_eq!(Version::parse(" http/1.0 "), Ok(Version::HTTP1_0));
    assert_eq!(StatusCode::parse(" 404 "), Ok(StatusCode::NotFound));
}

#[test]
fn duplicate_headers_last_write_wins() {
    let req = Request::parse("GET / HTTP/1.1\r\nX: 1\r\nX: 2\r\n\r\n").unwrap();
    assert_eq!(req.headers.get("X"), Some(&"2".to_string()));

    let mut headers = Headers::new();
    headers.insert("X".to_string(), "1".to_string());
    headers.insert("X".to_string(), "2".to_string());
    assert_eq!(headers.get("X"), Some(&"2".to_string()));
    assert_eq!(headers.len(), 1);
}

#[test]
fn unknown_method_token_is_rejected() {
    assert_eq!(Method::parse("FOO"), Err(ParseError::InvalidToken));
    assert_eq!(Method::parse(""), Err(ParseError::InvalidToken));
}

#[test]
fn unknown_status_is_rejected() {
    assert_eq!(StatusCode::parse("999"), Err(ParseError::InvalidCode));
    assert_eq!(StatusCode::from_number(999), Err(ParseError::InvalidCode));
    assert_eq!(StatusCode::from_number(201), Err(ParseError::InvalidCode));
}

#[test]
fn missing_blank_line_is_rejected() {
    assert_eq!(
        Request::parse("GET / HTTP/1.1\r\nHost: x"),
        Err(ParseError::MalformedMessage)
    );
    assert_eq!(
        Response::parse("HTTP/1.1 200 OK\r\nHost: x"),
        Err(ParseError::MalformedMessage)
    );
}

#[test]
fn request_line_token_count_is_checked() {
    assert_eq!(
        Request::parse("GET /\r\n\r\n"),
        Err(ParseError::MalformedRequestLine)
    );
    assert_eq!(
        Request::parse("GET / HTTP/1.1 extra\r\n\r\n"),
        Err(ParseError::MalformedRequestLine)
    );
}

#[test]
fn unknown_method_in_request_line() {
    assert_eq!(
        Request::parse("FOO / HTTP/1.1\r\n\r\n"),
        Err(ParseError::InvalidMethod)
    );
}

#[test]
fn unknown_version_in_request_line() {
    assert_eq!(
        Request::parse("GET / HTTP/9.9\r\n\r\n"),
        Err(ParseError::InvalidVersion)
    );
}

#[test]
fn header_line_without_colon_is_rejected() {
    assert_eq!(
        Request::parse("GET / HTTP/1.1\r\nNoColon\r\n\r\n"),
        Err(ParseError::MalformedHeader)
    );
    assert_eq!(
        Response::parse("HTTP/1.1 200 OK\r\nNoColon\r\n\r\n"),
        Err(ParseError::MalformedHeader)
    );
}

#[test]
fn status_line_without_reason_is_rejected() {
    assert_eq!(
        Response::parse("HTTP/1.1 200\r\n\r\n"),
        Err(ParseError::MalformedResponseLine)
    );
}

#[test]
fn unknown_status_in_status_line() {
    assert_eq!(
        Response::parse("HTTP/1.1 999 Oops\r\n\r\n"),
        Err(ParseError::InvalidStatus)
    );
}

#[test]
fn unknown_version_in_status_line() {
    assert_eq!(
        Response::parse("SPDY/1 200 OK\r\n\r\n"),
        Err(ParseError::InvalidVersion)
    );
}

#[test]
fn reason_phrase_is_preserved_verbatim() {
    let res = Response::parse("HTTP/1.1 404 Resource Missing\r\n\r\n").unwrap();
    assert_eq!(res.reason_phrase, "Resource Missing");
    assert_eq!(res.status_code, StatusCode::NotFound);
    assert_eq!(res.serialize(), "HTTP/1.1 404 Resource Missing\r\n\r\n");
}

#[test]
fn request_round_trip() {
    let mut headers = Headers::new();
    headers.insert("Host".to_string(), "example.test".to_string());
    headers.insert("Accept".to_string(), "*/*".to_string());
    let req = Request::new(
        Method::POST,
        "/items?q=1".to_string(),
        Version::HTTP1_0,
        headers,
        "payload\r\nwith lines".to_string(),
    );
    let wire = req.serialize();
    let back = Request::parse(&wire).unwrap();
    assert_eq!(back, req);
}

#[test]
fn response_round_trip() {
    let mut headers = Headers::new();
    headers.insert("Content-Length".to_string(), "5".to_string());
    let res = Response::new(
        Version::HTTP2_0,
        StatusCode::InternalServerError,
        "Server Blew Up".to_string(),
        headers,
        "oops!".to_string(),
    );
    let wire = res.serialize();
    let back = Response::parse(&wire).unwrap();
    assert_eq!(back, res);
}

#[test]
fn header_names_and_values_are_trimmed() {
    let req = Request::parse("GET / HTTP/1.1\r\n  K  :   spaced value  \r\n\r\n").unwrap();
    assert_eq!(req.headers.get("K"), Some(&"spaced value".to_string()));
}

#[test]
fn bare_lf_head_lines_are_accepted() {
    let req = Request::parse("GET / HTTP/1.1\nHost: a\r\n\r\nbody").unwrap();
    assert_eq!(req.method, Method::GET);
    assert_eq!(req.headers.get("Host"), Some(&"a".to_string()));
    assert_eq!(req.body, "body");
}

#[test]
fn body_is_kept_verbatim_after_first_blank_line() {
    let req = Request::parse("GET / HTTP/1.1\r\n\r\nline1\r\nline2\r\n\r\ntail").unwrap();
    assert_eq!(req.body, "line1\r\nline2\r\n\r\ntail");
    assert_eq!(req.headers.len(), 0);
}

#[test]
fn empty_body_parses() {
    let req = Request::parse("GET / HTTP/1.1\r\n\r\n").unwrap();
    assert_eq!(req.body, "");
    assert_eq!(req.path, "/");
}

#[test]
fn status_numeric_conversions() {
    assert_eq!(StatusCode::OK.to_number(), 200);
    assert_eq!(StatusCode::BadRequest.to_number(), 400);
    assert_eq!(StatusCode::NotFound.to_number(), 404);
    assert_eq!(StatusCode::InternalServerError.to_number(), 500);
    assert_eq!(StatusCode::from_number(200), Ok(StatusCode::OK));
    assert_eq!(StatusCode::from_number(400), Ok(StatusCode::BadRequest));
    assert_eq!(StatusCode::from_number(404), Ok(StatusCode::NotFound));
    assert_eq!(
        StatusCode::from_number(500),
        Ok(StatusCode::InternalServerError)
    );
}

#[test]
fn canonical_text_forms() {
    assert_eq!(Method::CONNECT.to_text(), "CONNECT");
    assert_eq!(Version::HTTP0_9.to_text(), "HTTP/0.9");
    assert_eq!(StatusCode::BadRequest.to_text(), "400 Bad Request");
    assert_eq!(StatusCode::NotFound.to_digits(), "404");
}

#[test]
fn missing_header_lookup_is_none() {
    let headers = Headers::new();
    assert_eq!(headers.get("absent"), None);
    let req = Request::parse("GET / HTTP/1.1\r\nA: 1\r\n\r\n").unwrap();
    assert_eq!(req.headers.get("B"), None);
}
