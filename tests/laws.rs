use csrf_killer::form::FormMap;
use csrf_killer::parts::{Data, RequestPart, RequestParts};
use csrf_killer::request::{target_request, Body, Payload};
use csrf_killer::settings::{Filters, Modes, Target};
use csrf_killer::report::{log_response, Outcome, Report, ResponseSummary, Tally};
use csrf_killer::tokens::{validate_tokens, Csrf};
use csrf_killer::worker::{Step, Worker};

fn form(pairs: &[(&str, &str)]) -> FormMap {
    let mut m = FormMap::new();
    for (k, v) in pairs {
        m.insert(k.to_string(), v.to_string());
    }
    m
}

#[test]
fn fuzz_substitution_in_form_value() {
    let configured = form(&[("k", "prefix-FUZZ-suffix")]);
    let target = Target { url: "http://t".to_string(), method: "post".to_string(), data: Some(Data::Form(configured)) };
    let req = target_request(&target, RequestParts::new(), &Payload::Line("x1".to_string()), None).unwrap();
    match req.body {
        Body::Form(m) => assert_eq!(m.get("k"), Some(&"prefix-x1-suffix".to_string())),
        _ => panic!("expected a form"),
    }
    match &target.data {
        Some(Data::Form(m)) => assert_eq!(m.get("k"), Some(&"prefix-FUZZ-suffix".to_string())),
        _ => panic!("configured body changed"),
    }
}

#[test]
fn form_merge_union_and_shared_key() {
    let mut parts = RequestParts::new();
    parts.add(RequestPart::Data(Data::Form(form(&[("a", "1"), ("s", "early")]))));
    parts.add(RequestPart::Data(Data::Form(form(&[("b", "2"), ("s", "late")]))));
    parts.join_parts();
    assert_eq!(parts.values.len(), 1);
    match &parts.values[0] {
        RequestPart::Data(Data::Form(m)) => {
            assert_eq!(m.len(), 3);
            assert_eq!(m.get("a"), Some(&"1".to_string()));
            assert_eq!(m.get("b"), Some(&"2".to_string()));
            assert_eq!(m.get("s"), Some(&"late".to_string()));
        }
        _ => panic!("expected a form"),
    }
    let joined = csrf_killer::parts::RequestParts::join_part(
        RequestPart::Data(Data::Form(form(&[("s", "a")]))),
        RequestPart::Data(Data::Form(form(&[("s", "b")]))),
    );
    match joined {
        RequestPart::Data(Data::Form(m)) => assert_eq!(m.get("s"), Some(&"a".to_string())),
        _ => panic!("expected a form"),
    }
}

#[test]
fn json_merge_keeps_both_sides() {
    let earlier: serde_json::Value = serde_json::from_str(r#"{"a":1,"n":{"x":1},"c":"old"}"#).unwrap();
    let later: serde_json::Value = serde_json::from_str(r#"{"b":2,"n":{"y":2},"c":"new"}"#).unwrap();
    let mut parts = RequestParts::new();
    parts.add(RequestPart::Data(Data::Json(earlier)));
    parts.add(RequestPart::Header("h".to_string(), "1".to_string()));
    parts.add(RequestPart::Data(Data::Json(later)));
    parts.join_parts();
    assert_eq!(parts.values.len(), 2);
    let r = parts.values.pop().unwrap();
    match r {
        RequestPart::Data(Data::Json(v)) => {
            let want: serde_json::Value = serde_json::from_str(r#"{"a":1,"b":2,"n":{"x":1,"y":2},"c":"new"}"#).unwrap();
            assert_eq!(v, want);
        }
        _ => panic!("expected JSON"),
    }
}

#[test]
fn cookie_merge_joins_with_semicolon() {
    let r = csrf_killer::parts::RequestParts::join_part(RequestPart::Cookie("a=1".to_string()), RequestPart::Cookie("b=2".to_string()));
    match r {
        RequestPart::Cookie(c) => assert_eq!(c, "a=1; b=2"),
        _ => panic!("expected a cookie"),
    }
}

#[test]
fn kind_isolation_counts() {
    let mut parts = RequestParts::new();
    parts.add(RequestPart::Header("h".to_string(), "1".to_string()));
    parts.add(RequestPart::Query("q".to_string(), "1".to_string()));
    parts.add(RequestPart::Cookie("c=1".to_string()));
    parts.add(RequestPart::Data(Data::Form(form(&[("f", "1")]))));
    parts.add(RequestPart::Header("h".to_string(), "2".to_string()));
    parts.add(RequestPart::Cookie("c=2".to_string()));
    parts.add(RequestPart::Data(Data::Form(form(&[("g", "2")]))));
    parts.add(RequestPart::Query("q".to_string(), "2".to_string()));
    parts.join_parts();
    let count = |f: &dyn Fn(&RequestPart) -> bool| parts.values.iter().filter(|p| f(p)).count();
    assert_eq!(count(&|p| matches!(p, RequestPart::Header(..))), 2);
    assert_eq!(count(&|p| matches!(p, RequestPart::Query(..))), 2);
    assert_eq!(count(&|p| matches!(p, RequestPart::Cookie(..))), 1);
    assert_eq!(count(&|p| matches!(p, RequestPart::Data(Data::Form(..)))), 1);
    assert_eq!(parts.values.len(), 6);
}

#[test]
fn filter_suppression_still_counts() {
    let filters = Filters { status: Some(200), length: None, lines: None, words: None };
    let mut tally = Tally::new();
    let r = log_response(
        Outcome::Response(ResponseSummary { status: 200, content_length: Some(2), text: "ok".to_string() }),
        &filters,
        &mut tally,
    );
    assert!(matches!(r, Ok(Report::Suppressed)));
    assert_eq!(tally.no_req, 2);
}

fn brute_modes() -> Modes {
    Modes { brute_force: true, wordlist: Some("w".to_string()), upload_files: false, file_paths: None, field_name: None }
}

#[test]
fn one_fresh_csrf_fetch_per_payload() {
    let csrf = Csrf { url: "http://t/csrf".to_string(), tokens: validate_tokens(&vec!["t==form==tok=(\\w+)".to_string()]).unwrap() };
    let modes = brute_modes();
    let mut w = Worker::new();
    let mut fetches = 0;
    let mut fired = Vec::new();
    for (line, page) in [("a", "tok=one"), ("b", "tok=two"), ("c", "tok=three")] {
        match w.on_line(Some(line.to_string()), &modes) {
            Step::FetchCsrf => fetches += 1,
            _ => panic!("expected a CSRF fetch"),
        }
        match w.on_csrf_page(&csrf, Some(page)) {
            Step::Fire(Payload::Line(l), parts) => {
                assert_eq!(l, line);
                match &parts.values[0] {
                    RequestPart::Data(Data::Form(m)) => fired.push(m.get("t").unwrap().clone()),
                    _ => panic!("expected a form token"),
                }
            }
            _ => panic!("expected to fire"),
        }
    }
    assert_eq!(fetches, 3);
    assert_eq!(fired, vec!["one".to_string(), "two".to_string(), "three".to_string()]);
    assert_eq!((w.pulled, w.fetched, w.fired), (3, 3, 3));
}

#[test]
fn csrf_transport_error_skips_the_attempt() {
    let csrf = Csrf { url: "u".to_string(), tokens: Vec::new() };
    let mut w = Worker::new();
    assert!(matches!(w.on_line(Some("a".to_string()), &brute_modes()), Step::FetchCsrf));
    assert!(matches!(w.on_csrf_page(&csrf, None), Step::Skip));
    assert!(matches!(w.on_line(Some("b".to_string()), &brute_modes()), Step::FetchCsrf));
    assert_eq!((w.pulled, w.fetched, w.fired), (2, 2, 0));
}

#[test]
fn stream_exhaustion_stops_after_k_payloads() {
    let csrf = Csrf { url: "u".to_string(), tokens: Vec::new() };
    let lines = vec!["l1", "l2", "l3", "l4"];
    let mut w = Worker::new();
    let mut feed = lines.iter().map(|l| Some(l.to_string())).chain(std::iter::once(None));
    let mut attempts = 0;
    loop {
        match w.on_line(feed.next().unwrap(), &brute_modes()) {
            Step::FetchCsrf => {
                attempts += 1;
                assert!(matches!(w.on_csrf_page(&csrf, Some("")), Step::Fire(..)));
            }
            Step::Stop => break,
            _ => panic!("unexpected step"),
        }
    }
    assert_eq!(attempts, lines.len());
    assert_eq!(w.pulled, 4);
}

#[test]
fn upload_mode_wraps_the_path() {
    let modes = Modes {
        brute_force: false,
        wordlist: None,
        upload_files: true,
        file_paths: Some("paths.txt".to_string()),
        field_name: Some("upload".to_string()),
    };
    let csrf = Csrf { url: "u".to_string(), tokens: Vec::new() };
    let mut w = Worker::new();
    assert!(matches!(w.on_line(Some("a.png".to_string()), &modes), Step::FetchCsrf));
    match w.on_csrf_page(&csrf, Some("")) {
        Step::Fire(Payload::Upload(f, p), _) => {
            assert_eq!(f, "upload");
            assert_eq!(p, "a.png");
        }
        _ => panic!("expected an upload payload"),
    }
}

#[test]
fn three_cookies_read_later_first() {
    let mut parts = RequestParts::new();
    parts.add(RequestPart::Cookie("a=1".to_string()));
    parts.add(RequestPart::Cookie("b=2".to_string()));
    parts.add(RequestPart::Cookie("c=3".to_string()));
    parts.join_parts();
    assert_eq!(parts.values.len(), 1);
    match &parts.values[0] {
        RequestPart::Cookie(c) => assert_eq!(c, "c=3; b=2; a=1"),
        _ => panic!("expected a cookie"),
    }
}
