use honeypot::addr::parse_ip;
use honeypot::admin::UnbanResult;
use honeypot::ban::UnbanOutcome;
use honeypot::config::AdminConfig;
use honeypot::inline_admin::{
    admin_subpath, bearer_password, complete_request, could_be_http_request, decide,
    handle_inline_request, normalize_prefix, parse_complete_request, parse_request_line,
    probe_step, query_string, request_step, response_head, unban_inline, CandidateReader, Decision,
    Head, HeaderLine, InlineError, InlineHttpRequest, ReadStep, UnbanBody,
};

#[test]
fn admin_subpath_matches_only_configured_prefix() {
    assert_eq!(
        admin_subpath("/_honeypot_admin/unban?ip=1.1.1.1", "/_honeypot_admin").unwrap(),
        "/unban"
    );
    assert!(admin_subpath("/_honeypot_adminx/unban", "/_honeypot_admin").is_none());
    assert!(admin_subpath("/unban", "/_honeypot_admin").is_none());
}

#[test]
fn complete_request_parser_waits_for_body() {
    let partial = b"POST /_honeypot_admin/unban HTTP/1.1\r\ncontent-length: 4\r\n\r\n{}";
    assert!(parse_complete_request(partial, 16 * 1024)
        .unwrap()
        .is_none());

    let full = b"POST /_honeypot_admin/unban HTTP/1.1\r\ncontent-length: 2\r\n\r\n{}";
    let parsed = parse_complete_request(full, 16 * 1024).unwrap().unwrap();
    assert_eq!(parsed.method, "POST");
    assert_eq!(parsed.target, "/_honeypot_admin/unban");
    assert_eq!(parsed.body, b"{}");
}

#[test]
fn rejects_oversized_and_ambiguous_requests_without_panicking() {
    let overflow = format!(
        "POST /_honeypot_admin/unban HTTP/1.1\r\ncontent-length: {}\r\n\r\n",
        usize::MAX
    );
    assert!(parse_complete_request(overflow.as_bytes(), 16 * 1024).is_err());

    let duplicate = b"POST /_honeypot_admin/unban HTTP/1.1\r\ncontent-length: 0\r\ncontent-length: 0\r\n\r\n";
    assert!(parse_complete_request(duplicate, 16 * 1024).is_err());

    let chunked = b"POST /_honeypot_admin/unban HTTP/1.1\r\ntransfer-encoding: chunked\r\n\r\n";
    assert!(parse_complete_request(chunked, 16 * 1024).is_err());
}

#[test]
fn extracts_bearer_password_case_insensitively() {
    assert_eq!(bearer_password(Some("Bearer secret")).as_deref(), Some("secret"));
    assert_eq!(bearer_password(Some("bearer secret")).as_deref(), Some("secret"));
    assert_eq!(bearer_password(Some("Basic secret")), None);
}

#[test]
fn candidate_reader_accepts_fragmented_request_line() {
    let config = AdminConfig {
        inline_on_honeypot_port: true,
        inline_probe_timeout_ms: 100,
        inline_request_timeout_ms: 200,
        ..AdminConfig::default()
    };
    let mut reader = CandidateReader::new();
    let mut probes = Vec::new();
    for part in [
        b"G".as_slice(),
        b"ET /_honeypot_admin/health HTTP/1.1\r\n".as_slice(),
        b"host: localhost\r\n\r\n".as_slice(),
    ] {
        match reader.next_step(&config) {
            ReadStep::Read { limit, probing } => {
                assert_eq!(limit, 1024);
                probes.push(probing);
            }
            _ => panic!("unexpected step"),
        }
        reader.received(part);
    }
    assert_eq!(probes, vec![true, true, false]);
    match reader.next_step(&config) {
        ReadStep::Request { request } => assert_eq!(request.target, "/_honeypot_admin/health"),
        _ => panic!("unexpected step"),
    }
}

fn head(headers: Vec<(&str, &[u8])>) -> Head {
    Head::Complete {
        length: 10,
        method: Some("post".to_string()),
        target: Some("/x".to_string()),
        headers: headers
            .into_iter()
            .map(|(name, value)| HeaderLine { name: name.to_string(), value: value.to_vec() })
            .collect(),
    }
}

fn parsed(headers: Vec<(&str, &[u8])>) -> Result<Option<InlineHttpRequest>, InlineError> {
    complete_request(head(headers), b"0123456789abcdef", 100)
}

#[test]
fn heads_are_judged_by_their_headers() {
    assert_eq!(
        complete_request(Head::Invalid, b"", 100),
        Err(InlineError::InvalidRequest)
    );
    assert_eq!(complete_request(Head::Partial, b"", 100), Ok(None));
    let request = parsed(vec![("Content-Length", b" 4 "), ("AUTHORIZATION", b"\tBearer x ")])
        .unwrap()
        .unwrap();
    assert_eq!(request.method, "POST");
    assert_eq!(request.target, "/x");
    assert_eq!(request.body, b"abcd");
    assert_eq!(request.authorization.as_deref(), Some("Bearer x"));
    assert_eq!(parsed(vec![]).unwrap().unwrap().body, b"");
    assert_eq!(parsed(vec![("content-length", b"7")]), Ok(None));
    assert_eq!(parsed(vec![("content-length", b"91")]), Err(InlineError::TooLarge));
    assert_eq!(parsed(vec![("content-length", b"+2")]).unwrap().unwrap().body, b"ab");
    assert_eq!(
        parsed(vec![("content-length", b"-2")]),
        Err(InlineError::InvalidContentLength)
    );
    assert_eq!(
        parsed(vec![("content-length", b"18446744073709551616")]),
        Err(InlineError::InvalidContentLength)
    );
    assert_eq!(
        parsed(vec![("content-length", b"18446744073709551615")]),
        Err(InlineError::LengthOverflow)
    );
    assert_eq!(
        parsed(vec![("content-length", b"\xff")]),
        Err(InlineError::ContentLengthNotText)
    );
    assert_eq!(
        parsed(vec![("content-length", b"1"), ("CONTENT-length", b"1")]),
        Err(InlineError::DuplicateContentLength)
    );
    assert_eq!(
        parsed(vec![("Transfer-Encoding", b"identity")]),
        Err(InlineError::TransferEncoding)
    );
    assert_eq!(
        parsed(vec![("authorization", b"a"), ("authorization", b"a")]),
        Err(InlineError::DuplicateAuthorization)
    );
    assert_eq!(
        parsed(vec![("authorization", b"\xc3")]),
        Err(InlineError::AuthorizationNotText)
    );
    assert_eq!(
        complete_request(
            Head::Complete { length: 0, method: None, target: None, headers: vec![] },
            b"",
            1
        ),
        Err(InlineError::MethodMissing)
    );
    assert_eq!(
        complete_request(
            Head::Complete {
                length: 0,
                method: Some("GET".to_string()),
                target: None,
                headers: vec![]
            },
            b"",
            1
        ),
        Err(InlineError::TargetMissing)
    );
}

#[test]
fn the_head_is_read_by_the_parser_library() {
    assert_eq!(
        parse_complete_request(b"GET / HTTP/1.1\r\nbad header\r\n\r\n", 1000),
        Err(InlineError::InvalidRequest)
    );
    assert_eq!(parse_complete_request(b"GET / HTTP/1.1\r\nho", 1000), Ok(None));
    let request = parse_complete_request(
        b"GET /a?b=c HTTP/1.1\r\nAuthorization: Bearer p\r\nX: y\r\n\r\nrest",
        1000,
    )
    .unwrap()
    .unwrap();
    assert_eq!(request.method, "GET");
    assert_eq!(request.target, "/a?b=c");
    assert_eq!(request.authorization.as_deref(), Some("Bearer p"));
    assert!(request.body.is_empty());
    let mut many = b"GET / HTTP/1.1\r\n".to_vec();
    for _ in 0..32 {
        many.extend_from_slice(b"a: b\r\n");
    }
    let mut more = many.clone();
    many.extend_from_slice(b"\r\n");
    assert!(parse_complete_request(&many, 1000).unwrap().is_some());
    more.extend_from_slice(b"a: b\r\n\r\n");
    assert_eq!(parse_complete_request(&more, 1000), Err(InlineError::InvalidRequest));
    assert_eq!(parse_complete_request(&many, 100), Err(InlineError::TooLarge));
}

#[test]
fn request_lines_show_method_and_target() {
    assert_eq!(
        parse_request_line(b"get   /x  HTTP/1.1\r\nmore"),
        Some(("GET".to_string(), "/x".to_string()))
    );
    assert_eq!(
        parse_request_line(b"  DELETE\t/y\n"),
        Some(("DELETE".to_string(), "/y".to_string()))
    );
    assert_eq!(parse_request_line(b"GET /x HTTP/1.1"), None);
    assert_eq!(parse_request_line(b"GET\n"), None);
    assert_eq!(parse_request_line(b"\n"), None);
    assert_eq!(parse_request_line(b"PATCH /x\n"), None);
    assert_eq!(parse_request_line(b"GET /\xff\n"), None);
    assert_eq!(
        parse_request_line("GET /ü\n".as_bytes()),
        Some(("GET".to_string(), "/ü".to_string()))
    );
}

#[test]
fn beginnings_of_requests_are_recognised() {
    assert!(could_be_http_request(b""));
    assert!(could_be_http_request(b"G"));
    assert!(could_be_http_request(b"DELETE"));
    assert!(could_be_http_request(b"PUT /x"));
    assert!(could_be_http_request(b"HEAD "));
    assert!(could_be_http_request(b"POST "));
    assert!(!could_be_http_request(b"SSH-2.0"));
    assert!(!could_be_http_request(b"get /"));
    assert!(!could_be_http_request(b"GETX"));
    assert!(!could_be_http_request(b"PATCH "));
}

#[test]
fn paths_below_the_prefix_are_found() {
    assert_eq!(admin_subpath("/a", "/a").as_deref(), Some("/"));
    assert_eq!(admin_subpath("/a?x=/b", "/a//").as_deref(), Some("/"));
    assert_eq!(admin_subpath("/a/", "/a").as_deref(), Some("/"));
    assert_eq!(admin_subpath("/a//b", "/a/").as_deref(), Some("//b"));
    assert_eq!(admin_subpath("/b", "").as_deref(), Some("/b"));
    assert_eq!(admin_subpath("b", ""), None);
    assert_eq!(normalize_prefix("/a//"), "/a");
    assert_eq!(query_string("/a?b?c"), "b?c");
    assert_eq!(query_string("/a"), "");
}

fn config(legacy: bool) -> AdminConfig {
    AdminConfig {
        password: "correct horse battery staple".to_string(),
        inline_on_honeypot_port: true,
        allow_legacy_get_password: legacy,
        ..AdminConfig::default()
    }
}

fn request(method: &str, path: &str, authorization: Option<&str>) -> InlineHttpRequest {
    InlineHttpRequest {
        method: method.to_string(),
        target: format!("/_honeypot_admin{path}"),
        body: Vec::new(),
        authorization: authorization.map(str::to_string),
    }
}

fn status(decision: Decision) -> (u16, String) {
    match decision {
        Decision::Answer { reply } => (reply.status, reply.message),
        Decision::ListBanned => (0, "list".to_string()),
        Decision::Unban { ip } => (0, ip.to_string()),
    }
}

const BEARER: Option<&str> = Some("Bearer correct horse battery staple");

#[test]
fn requests_are_decided_by_path_method_and_password() {
    let config = config(false);
    let ask = |method: &str, path: &str, authorization: Option<&str>, body: Option<UnbanBody>| {
        status(handle_inline_request(&request(method, path, authorization), &config, body))
    };
    assert_eq!(ask("GET", "/health", None, None), (200, "ok".to_string()));
    assert_eq!(ask("GET", "/banned", BEARER, None), (0, "list".to_string()));
    assert_eq!(
        ask("GET", "/banned", Some("Bearer wrong"), None),
        (401, "invalid credentials".to_string())
    );
    assert_eq!(
        ask("GET", "/banned?password=correct+horse+battery+staple", None, None),
        (401, "invalid credentials".to_string())
    );
    assert_eq!(
        ask("GET", "/unban?ip=203.0.113.10", BEARER, None),
        (405, "use POST /unban".to_string())
    );
    assert_eq!(ask("POST", "/unban", BEARER, None), (400, "invalid json".to_string()));
    let body = |password: Option<&str>| {
        Some(UnbanBody {
            ip: parse_ip("203.0.113.10").unwrap(),
            password: password.map(str::to_string),
        })
    };
    assert_eq!(ask("POST", "/unban", BEARER, body(None)), (0, "203.0.113.10".to_string()));
    assert_eq!(
        ask("POST", "/unban", None, body(Some("correct horse battery staple"))),
        (0, "203.0.113.10".to_string())
    );
    assert_eq!(
        ask("POST", "/unban", Some("Bearer wrong"), body(Some("correct horse battery staple"))),
        (401, "invalid credentials".to_string())
    );
    assert_eq!(
        ask("POST", "/unban", None, body(None)),
        (401, "invalid credentials".to_string())
    );
    assert_eq!(ask("PUT", "/unban", BEARER, None), (404, "not found".to_string()));
    assert_eq!(ask("GET", "/", BEARER, None), (404, "not found".to_string()));
    let mut outside = request("GET", "/health", BEARER);
    outside.target = "/health".to_string();
    assert_eq!(
        status(handle_inline_request(&outside, &config, None)),
        (404, "not found".to_string())
    );
}

#[test]
fn legacy_queries_are_decoded_by_the_form_library() {
    let config = config(true);
    let ask = |path: &str| status(handle_inline_request(&request("GET", path, None), &config, None));
    assert_eq!(
        ask("/banned?password=correct+horse%20battery+staple&other=1"),
        (0, "list".to_string())
    );
    assert_eq!(
        ask("/unban?ip=203.0.113.10&password=correct+horse+battery+staple"),
        (0, "203.0.113.10".to_string())
    );
    assert_eq!(
        ask("/unban?ip=2001%3Adb8%3A%3A1&password=correct+horse+battery+staple"),
        (0, "2001:db8::1".to_string())
    );
    assert_eq!(
        ask("/unban?ip=203.0.113.10&password=wrong"),
        (401, "invalid credentials".to_string())
    );
    assert_eq!(ask("/unban?ip=203.0.113.10"), (400, "invalid query".to_string()));
    assert_eq!(
        ask("/unban?ip=nonsense&password=correct+horse+battery+staple"),
        (400, "invalid query".to_string())
    );
    assert_eq!(
        ask("/unban?ip=203.0.113.10&ip=203.0.113.10&password=correct+horse+battery+staple"),
        (400, "invalid query".to_string())
    );
    assert_eq!(ask("/banned?password=a&password=a"), (401, "invalid credentials".to_string()));
}

#[test]
fn decisions_follow_the_pairs_of_the_query() {
    let config = config(true);
    let pair = |name: &str, value: &str| (name.to_string(), value.to_string());
    let asked = request("GET", "/unban", BEARER);
    assert_eq!(
        status(decide(
            &asked,
            &config,
            Some(vec![
                pair("ip", "::1"),
                pair("x", "y"),
                pair("password", "correct horse battery staple")
            ]),
            None
        )),
        (0, "::1".to_string())
    );
    assert_eq!(
        status(decide(&asked, &config, None, None)),
        (400, "invalid query".to_string())
    );
    assert_eq!(
        status(decide(&asked, &config, Some(vec![pair("ip", "::1"), pair("password", "no")]), None)),
        (401, "invalid credentials".to_string())
    );
}

#[test]
fn answers_have_their_heads() {
    assert_eq!(
        response_head(200, 11),
        "HTTP/1.1 200 OK\r\ncontent-type: application/json\r\ncache-control: no-store\r\ncontent-length: 11\r\nconnection: close\r\n\r\n"
    );
    for (code, reason) in [
        (400, "Bad Request"),
        (401, "Unauthorized"),
        (404, "Not Found"),
        (405, "Method Not Allowed"),
        (500, "Internal Server Error"),
    ] {
        assert!(response_head(code, 0).starts_with(&format!("HTTP/1.1 {code} {reason}\r\n")));
    }
    let reply = unban_inline(
        parse_ip("203.0.113.10").unwrap(),
        UnbanResult::Done { outcome: UnbanOutcome::Unbanned },
    );
    assert_eq!(reply.message, "203.0.113.10 unbanned");
}

#[test]
fn other_traffic_is_let_go() {
    let config = config(false);
    let mut reader = CandidateReader::new();
    reader.received(b"SSH-2.0-OpenSSH\r\n");
    assert!(matches!(reader.next_step(&config), ReadStep::NotAdmin));
    let mut reader = CandidateReader::new();
    reader.received(b"GET /index.html HTTP/1.1\r\n");
    assert!(matches!(reader.next_step(&config), ReadStep::NotAdmin));
    let mut reader = CandidateReader::new();
    reader.received(b"X");
    assert!(matches!(reader.next_step(&config), ReadStep::NotAdmin));
    assert!(matches!(reader.closed(), ReadStep::NotAdmin));
    assert!(matches!(reader.timed_out(), ReadStep::NotAdmin));
}

#[test]
fn a_slow_request_fails_only_once_it_is_known_to_be_one() {
    let config = config(false);
    let mut reader = CandidateReader::new();
    assert!(matches!(reader.timed_out(), ReadStep::NotAdmin));
    reader.received(b"GET /_honeypot");
    assert!(matches!(reader.next_step(&config), ReadStep::Read { .. }));
    assert!(matches!(reader.timed_out(), ReadStep::NotAdmin));
    reader.received(b"_admin/health HTTP/1.1\r\n");
    assert!(matches!(reader.next_step(&config), ReadStep::Read { .. }));
    assert!(matches!(
        reader.timed_out(),
        ReadStep::Fail { error: InlineError::DeadlineExceeded }
    ));
}

#[test]
fn bytes_after_a_request_change_nothing() {
    let request = b"POST /_honeypot_admin/unban HTTP/1.1\r\ncontent-length: 2\r\n\r\n{}";
    for more in [&b"x"[..], b"GET / HTTP/1.1\r\n\r\n", b"\r\n", b"\x00\xff"] {
        let mut bytes = request.to_vec();
        bytes.extend_from_slice(more);
        let parsed = parse_complete_request(&bytes, 16 * 1024).unwrap().unwrap();
        assert_eq!(parsed.method, "POST");
        assert_eq!(parsed.target, "/_honeypot_admin/unban");
        assert_eq!(parsed.body, b"{}");
        assert_eq!(parsed.authorization, None);
    }
    let refused = b"POST / HTTP/1.1\r\ntransfer-encoding: chunked\r\n\r\n";
    let error = parse_complete_request(refused, 16 * 1024).err();
    assert!(error.is_some());
    let mut bytes = refused.to_vec();
    bytes.extend_from_slice(b"0\r\n\r\n");
    assert_eq!(parse_complete_request(&bytes, 16 * 1024).err(), error);
}

#[test]
fn a_request_that_grows_too_large_is_refused() {
    let mut config = config(false);
    config.inline_max_request_bytes = 40;
    let mut reader = CandidateReader::new();
    reader.received(b"GET /_honeypot_admin/health HTTP/1.1\r\n");
    assert!(matches!(
        reader.next_step(&config),
        ReadStep::Read { limit: 2, probing: false }
    ));
    reader.received(b"ho");
    assert!(matches!(
        reader.next_step(&config),
        ReadStep::Fail { error: InlineError::TooLarge }
    ));
    assert!(matches!(
        reader.closed(),
        ReadStep::Fail { error: InlineError::ClosedEarly }
    ));
}

#[test]
fn steps_are_taken_by_what_was_read() {
    let config = config(false);
    assert!(matches!(
        probe_step(b"GE", &config),
        Some(ReadStep::Read { limit: 1024, probing: true })
    ));
    assert!(matches!(probe_step(b"GET /x\n", &config), Some(ReadStep::NotAdmin)));
    assert!(probe_step(b"GET /_honeypot_admin\n", &config).is_none());
    assert!(matches!(
        request_step(Ok(None), 10, 20),
        ReadStep::Read { limit: 10, probing: false }
    ));
    assert!(matches!(
        request_step(Ok(None), 20, 20),
        ReadStep::Fail { error: InlineError::TooLarge }
    ));
    assert!(matches!(
        request_step(Err(InlineError::TransferEncoding), 0, 20),
        ReadStep::Fail { error: InlineError::TransferEncoding }
    ));
}

#[test]
fn errors_have_their_messages() {
    for (error, message) in [
        (InlineError::InvalidRequest, "invalid inline admin HTTP request"),
        (InlineError::MethodMissing, "inline admin HTTP method missing"),
        (InlineError::TargetMissing, "inline admin HTTP target missing"),
        (InlineError::DuplicateContentLength, "duplicate content-length header"),
        (InlineError::ContentLengthNotText, "content-length header was not valid ASCII"),
        (InlineError::InvalidContentLength, "invalid content-length header"),
        (InlineError::TransferEncoding, "transfer-encoding is not supported by inline admin"),
        (InlineError::DuplicateAuthorization, "duplicate authorization header"),
        (InlineError::AuthorizationNotText, "authorization header was not valid UTF-8"),
        (InlineError::LengthOverflow, "inline admin request length overflow"),
        (InlineError::TooLarge, "inline admin request exceeded configured size limit"),
        (InlineError::DeadlineExceeded, "inline admin request deadline exceeded"),
        (
            InlineError::ClosedEarly,
            "inline admin connection closed before the request completed",
        ),
    ] {
        assert_eq!(error.to_string(), message);
    }
}
