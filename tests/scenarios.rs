use csrf_killer::form::FormMap;
use csrf_killer::json::merge_json;
use csrf_killer::parts::{Data, RequestPart, RequestParts};
use csrf_killer::report::{count_lines_words, log_response, Outcome, Report, ResponseSummary, Row, Tally};
use csrf_killer::request::{get_part_file, parse_method, target_request, Body, Method, Payload};
use csrf_killer::settings::{validate_form, validate_headers, Args, Filters, Target};
use csrf_killer::tokens::{filter_tokens, validate_tokens, Csrf};

fn csrf_with(decl: &str) -> Csrf {
    Csrf {
        url: "http://t/csrf".to_string(),
        tokens: validate_tokens(&vec![decl.to_string()]).unwrap(),
    }
}

fn json(text: &str) -> serde_json::Value {
    serde_json::from_str(text).unwrap()
}

#[test]
fn url_fuzz_with_form_token() {
    let csrf = csrf_with("csrf==form==_token=([^&]+)");
    let target = Target {
        url: "http://t/login?u=FUZZ".to_string(),
        method: "post".to_string(),
        data: Some(Data::Form(validate_form("pw=hunter2").unwrap())),
    };
    for (line, url) in [("a", "http://t/login?u=a"), ("b", "http://t/login?u=b")] {
        let parts = filter_tokens(&csrf, "_token=XYZ").unwrap();
        let req = target_request(&target, parts, &Payload::Line(line.to_string()), None).unwrap();
        assert_eq!(req.method, Method::Post);
        assert_eq!(req.url, url);
        assert!(req.query.is_empty());
        assert!(req.headers.is_empty());
        match req.body {
            Body::Form(form) => {
                let fields: Vec<(String, String)> = form.entries().clone();
                assert_eq!(fields, vec![
                    ("pw".to_string(), "hunter2".to_string()),
                    ("csrf".to_string(), "XYZ".to_string())
                ]);
            }
            _ => panic!("expected a form body"),
        }
    }
}

#[test]
fn json_token_merged_into_json_body() {
    let csrf = csrf_with("csrf==json==\"nonce\":\"([A-Z]+)\"");
    let target = Target {
        url: "http://t/api".to_string(),
        method: "put".to_string(),
        data: Some(Data::Json(json(r#"{"user":"FUZZ"}"#))),
    };
    let parts = filter_tokens(&csrf, "{\"nonce\":\"ABC\"}").unwrap();
    let req = target_request(&target, parts, &Payload::Line("alice".to_string()), None).unwrap();
    assert_eq!(req.method, Method::Put);
    match req.body {
        Body::Json(v) => assert_eq!(v, json(r#"{"user":"alice","csrf":"ABC"}"#)),
        _ => panic!("expected a JSON body"),
    }
}

#[test]
fn cookie_token_becomes_cookie_header() {
    let csrf = csrf_with("sess==cookie==sess=(\\w+)");
    let target = Target { url: "http://t/x".to_string(), method: "get".to_string(), data: None };
    let parts = filter_tokens(&csrf, "<p>sess=T1</p>").unwrap();
    let req = target_request(&target, parts, &Payload::Line("p".to_string()), None).unwrap();
    assert_eq!(req.method, Method::Get);
    assert_eq!(req.headers, vec![("Cookie".to_string(), "sess=T1".to_string())]);
    assert!(matches!(req.body, Body::Empty));
}

#[test]
fn header_token_next_to_configured_header() {
    let configured = validate_headers(&vec!["X-Trace:1".to_string()]).unwrap();
    assert_eq!(configured, vec![("X-Trace".to_string(), "1".to_string())]);
    let csrf = csrf_with("X-Token==header==tok=(\\w+)");
    let target = Target { url: "http://t/x?q=FUZZ".to_string(), method: "delete".to_string(), data: None };
    let parts = filter_tokens(&csrf, "tok=abc").unwrap();
    let req = target_request(&target, parts, &Payload::Line("1 2".to_string()), None).unwrap();
    assert_eq!(req.method, Method::Delete);
    assert_eq!(req.url, "http://t/x?q=1 2");
    assert_eq!(req.headers, vec![("X-Token".to_string(), "abc".to_string())]);
}

#[test]
fn query_token_becomes_query_parameter() {
    let csrf = csrf_with("t==query==value=\"(\\d+)\"");
    let target = Target { url: "http://t/x".to_string(), method: "get".to_string(), data: None };
    let parts = filter_tokens(&csrf, "value=\"42\"").unwrap();
    let req = target_request(&target, parts, &Payload::Line("p".to_string()), None).unwrap();
    assert_eq!(req.query, vec![("t".to_string(), "42".to_string())]);
}

#[test]
fn multipart_upload_with_text_token() {
    let csrf = csrf_with("csrf==multipart==_token=(\\w+)");
    let target = Target { url: "http://t/upload".to_string(), method: "post".to_string(), data: None };
    let parts = filter_tokens(&csrf, "_token=K9").unwrap();
    let payload = Payload::Upload("upload".to_string(), "files/report.txt".to_string());
    let file = get_part_file("upload", "files/report.txt", b"hello".to_vec()).unwrap();
    let req = target_request(&target, parts, &payload, Some(file)).unwrap();
    assert_eq!(req.url, "http://t/upload");
    match req.body {
        Body::Multipart(items) => {
            assert_eq!(items.len(), 2);
            match &items[0] {
                Data::File(field, name, mime, bytes) => {
                    assert_eq!(field, "upload");
                    assert_eq!(name, "report.txt");
                    assert_eq!(mime, "text/plain");
                    assert_eq!(bytes, &b"hello".to_vec());
                }
                _ => panic!("expected the file first"),
            }
            match &items[1] {
                Data::PartText(m) => assert_eq!(m.get("csrf"), Some(&"K9".to_string())),
                _ => panic!("expected the token text part"),
            }
        }
        _ => panic!("expected a multipart body"),
    }
}

#[test]
fn upload_without_its_file_part_fails() {
    let csrf = csrf_with("csrf==multipart==_token=(\\w+)");
    let target = Target { url: "http://t/upload".to_string(), method: "post".to_string(), data: None };
    let payload = Payload::Upload("upload".to_string(), "missing".to_string());
    let parts = filter_tokens(&csrf, "_token=K9").unwrap();
    let r = target_request(&target, parts, &payload, None);
    assert_eq!(r.err().unwrap().message(), "An upload needs the part of its file");
    let parts = filter_tokens(&csrf, "_token=K9").unwrap();
    let not_a_file = RequestPart::Header("h".to_string(), "v".to_string());
    assert!(target_request(&target, parts, &payload, Some(not_a_file)).is_err());
}

#[test]
fn token_value_is_the_last_group() {
    let csrf = csrf_with("t==query==(id)=(\\d+)");
    let target = Target { url: "http://t/x".to_string(), method: "get".to_string(), data: None };
    let parts = filter_tokens(&csrf, "id=77 id=88").unwrap();
    let req = target_request(&target, parts, &Payload::Line("p".to_string()), None).unwrap();
    assert_eq!(req.query, vec![("t".to_string(), "77".to_string())]);
}

#[test]
fn duplicate_token_names_are_seen() {
    let csrf = csrf_with("t==form==a(b)");
    assert!(csrf.has_distinct_names());
    let mut twice = csrf_with("t==form==a(b)");
    twice.tokens.extend(validate_tokens(&vec!["t==header==c(d)".to_string()]).unwrap());
    assert!(!twice.has_distinct_names());
}

#[test]
fn mime_and_file_name_come_from_the_path() {
    match get_part_file("f", "a/b/photo.png", vec![1, 2]).unwrap() {
        RequestPart::Data(Data::File(field, name, mime, bytes)) => {
            assert_eq!(field, "f");
            assert_eq!(name, "photo.png");
            assert_eq!(mime, "image/png");
            assert_eq!(bytes, vec![1, 2]);
        }
        _ => panic!("expected a file part"),
    }
    match get_part_file("f", "data.json", vec![]).unwrap() {
        RequestPart::Data(Data::File(_, _, mime, _)) => assert_eq!(mime, "application/json"),
        _ => panic!("expected a file part"),
    }
    assert!(get_part_file("f", "/", vec![]).is_err());
}

#[test]
fn missing_token_is_fatal() {
    let csrf = csrf_with("csrf==form==_token=([^&]+)");
    let err = filter_tokens(&csrf, "no token here").err().unwrap();
    assert_eq!(err.message(), "Don't found a match for the regex of the token: csrf");
}

#[test]
fn unmatched_last_group_is_fatal() {
    let csrf = csrf_with("csrf==form==a(b)?");
    let err = filter_tokens(&csrf, "a").err().unwrap();
    assert_eq!(err.message(), "Can not get the value of the last group of the regex");
}

#[test]
fn unknown_position_is_fatal() {
    let csrf = csrf_with("csrf==body==_token=(\\w+)");
    let err = filter_tokens(&csrf, "_token=abc").err().unwrap();
    assert_eq!(err.message(), "Invalid token position");
}

#[test]
fn payload_that_breaks_json_is_an_error() {
    let target = Target {
        url: "http://t/api".to_string(),
        method: "post".to_string(),
        data: Some(Data::Json(json(r#"{"user":"FUZZ"}"#))),
    };
    let r = target_request(&target, RequestParts::new(), &Payload::Line("a\"b".to_string()), None);
    assert!(r.is_err());
}

#[test]
fn unknown_method_is_an_error() {
    let target = Target { url: "http://t".to_string(), method: "patch".to_string(), data: None };
    let r = target_request(&target, RequestParts::new(), &Payload::Line("a".to_string()), None);
    assert_eq!(r.err().unwrap().message(), "Invalid method");
    assert_eq!(parse_method("get"), Some(Method::Get));
    assert_eq!(parse_method("post"), Some(Method::Post));
    assert_eq!(parse_method("GET"), None);
}

#[test]
fn multipart_body_is_fuzzed_too() {
    let target = Target {
        url: "http://t".to_string(),
        method: "post".to_string(),
        data: Some(Data::PartText(validate_form("name=FUZZ-FUZZ").unwrap())),
    };
    let req = target_request(&target, RequestParts::new(), &Payload::Line("x".to_string()), None).unwrap();
    match req.body {
        Body::Multipart(items) => match &items[0] {
            Data::PartText(m) => assert_eq!(m.get("name"), Some(&"x-x".to_string())),
            _ => panic!("expected text part"),
        },
        _ => panic!("expected multipart"),
    }
}

#[test]
fn filter_suppresses_matching_status() {
    let filters = Filters { status: Some(404), length: None, lines: None, words: None };
    let mut tally = Tally::new();
    let r404 = log_response(
        Outcome::Response(ResponseSummary { status: 404, content_length: Some(9), text: "not found".to_string() }),
        &filters,
        &mut tally,
    );
    assert!(matches!(r404, Ok(Report::Suppressed)));
    let r200 = log_response(
        Outcome::Response(ResponseSummary { status: 200, content_length: None, text: "a b\nc\n".to_string() }),
        &filters,
        &mut tally,
    );
    match r200 {
        Ok(Report::Print(row)) => assert_eq!(row, Row { no: 2, status: 200, length: 0, lines: 2, words: 3 }),
        _ => panic!("expected a printed row"),
    }
    assert_eq!(tally.no_req, 3);
    assert_eq!(tally.no_err, 1);
}

#[test]
fn filters_on_length_lines_and_words() {
    let mut tally = Tally::new();
    let resp = || Outcome::Response(ResponseSummary { status: 200, content_length: Some(5), text: "one two".to_string() });
    let by_len = Filters { status: None, length: Some(5), lines: None, words: None };
    let by_lines = Filters { status: None, length: None, lines: Some(1), words: None };
    let by_words = Filters { status: None, length: None, lines: None, words: Some(2) };
    let none = Filters { status: None, length: None, lines: None, words: None };
    assert!(matches!(log_response(resp(), &by_len, &mut tally), Ok(Report::Suppressed)));
    assert!(matches!(log_response(resp(), &by_lines, &mut tally), Ok(Report::Suppressed)));
    assert!(matches!(log_response(resp(), &by_words, &mut tally), Ok(Report::Suppressed)));
    assert!(matches!(log_response(resp(), &none, &mut tally), Ok(Report::Print(_))));
    assert_eq!(tally.no_req, 5);
}

#[test]
fn transport_errors_and_fatal_errors() {
    let filters = Filters { status: None, length: None, lines: None, words: None };
    let mut tally = Tally::new();
    assert!(matches!(log_response(Outcome::TransportError, &filters, &mut tally), Ok(Report::Error(1))));
    assert!(matches!(log_response(Outcome::TransportError, &filters, &mut tally), Ok(Report::Error(2))));
    let fatal = csrf_killer::error::KillerError::new("boom");
    let r = log_response(Outcome::Fatal(fatal), &filters, &mut tally);
    assert_eq!(r.err().unwrap().message(), "boom");
    assert_eq!(tally.no_req, 4);
    assert_eq!(tally.no_err, 3);
}

#[test]
fn line_and_word_counts() {
    assert_eq!(count_lines_words(""), (0, 0));
    assert_eq!(count_lines_words("\n"), (1, 0));
    assert_eq!(count_lines_words("a b\nc\n"), (2, 3));
    assert_eq!(count_lines_words("x\r\ny"), (2, 2));
    assert_eq!(count_lines_words("  lead  trail  "), (1, 2));
    assert_eq!(count_lines_words("a\u{3000}b\u{a0}c"), (1, 3));
}

#[test]
fn deep_json_merge() {
    let mut a = json(r#"{"x":{"p":1,"q":2},"y":1}"#);
    merge_json(&mut a, json(r#"{"x":{"q":3,"r":4},"z":5}"#));
    assert_eq!(a, json(r#"{"x":{"p":1,"q":3,"r":4},"y":1,"z":5}"#));

    let mut b = json(r#"{"x":{"p":1}}"#);
    merge_json(&mut b, json(r#"{"x":2}"#));
    assert_eq!(b, json(r#"{"x":2}"#));

    let mut c = json("[1]");
    merge_json(&mut c, json(r#"{"k":1}"#));
    assert_eq!(c, json(r#"{"k":1}"#));

    let mut d = json(r#"{"k":1}"#);
    merge_json(&mut d, json("3"));
    assert_eq!(d, json("3"));
}

fn args() -> Args {
    Args {
        url: "http://t/login".to_string(),
        csrf_url: "http://t/csrf".to_string(),
        tokens: vec!["csrf==form==_token=([^&]+)".to_string()],
        method: "post".to_string(),
        brute_force: true,
        wordlist: Some("words.txt".to_string()),
        upload_files: false,
        file_paths: None,
        field_name: None,
        concurrence: 10,
        delay_ms: 5,
        data_post: Some("user=admin&pw=FUZZ".to_string()),
        data_type: Some("form".to_string()),
        headers: Some(vec!["X-Trace:1".to_string()]),
        store_cookies: true,
        no_redirects: true,
        proxy: None,
        timeout_ms: 5000,
        no_status: Some(404),
        no_length: None,
        no_words: None,
        no_lines: None,
    }
}

#[test]
fn arguments_become_settings() {
    let s = args().move_to_setting().unwrap();
    assert_eq!(s.target.url, "http://t/login");
    assert_eq!(s.csrf.url, "http://t/csrf");
    assert_eq!(s.csrf.tokens.len(), 1);
    assert_eq!(s.concurrence, 10);
    assert_eq!(s.delay_ms, 5);
    assert_eq!(s.filters, Filters { status: Some(404), length: None, lines: None, words: None });
    assert_eq!(s.options.headers, Some(vec![("X-Trace".to_string(), "1".to_string())]));
    match s.target.data {
        Some(Data::Form(m)) => assert_eq!(m.get("pw"), Some(&"FUZZ".to_string())),
        _ => panic!("expected a form body"),
    }
}

#[test]
fn mixed_body_kinds_are_rejected() {
    let mut a = args();
    a.tokens = vec!["csrf==json==_token=([^&]+)".to_string()];
    let err = a.move_to_setting().err().unwrap();
    assert_eq!(err.message(), "Can't send multiples data type in the same request ex: json and form");
}

#[test]
fn brute_force_needs_fuzz() {
    let mut a = args();
    a.data_post = Some("user=admin&pw=x".to_string());
    let err = a.move_to_setting().err().unwrap();
    assert_eq!(err.message(), "Mode brute force without FUZZ keyword");
    let mut b = args();
    b.data_post = Some("user=admin&pw=x".to_string());
    b.url = "http://t/login?u=FUZZ".to_string();
    assert!(b.move_to_setting().is_ok());
}

#[test]
fn invalid_json_body_is_rejected() {
    let mut a = args();
    a.data_type = Some("json".to_string());
    a.tokens = vec!["csrf==header==_token=([^&]+)".to_string()];
    let err = a.move_to_setting().err().unwrap();
    assert!(err.message().starts_with("Invalid json: "));
    let mut b = args();
    b.data_type = Some("json".to_string());
    b.data_post = Some(r#"{"u":"FUZZ"}"#.to_string());
    b.tokens = vec!["csrf==json==_token=([^&]+)".to_string()];
    assert!(b.move_to_setting().is_ok());
}

#[test]
fn bad_headers_are_rejected() {
    let mut a = args();
    a.headers = Some(vec!["broken".to_string()]);
    assert_eq!(a.move_to_setting().err().unwrap().message(), "Invalid header: broken, must be : separated");
}

#[test]
fn form_map_insert_replaces() {
    let mut m = FormMap::new();
    m.insert("a".to_string(), "1".to_string());
    m.insert("b".to_string(), "2".to_string());
    m.insert("a".to_string(), "3".to_string());
    assert_eq!(m.len(), 2);
    assert_eq!(m.get("a"), Some(&"3".to_string()));
}
