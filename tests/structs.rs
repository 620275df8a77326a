use csrf_killer::form::FormMap;
use csrf_killer::parts::{Data, RequestPart, RequestParts};

#[test]
fn test_add_request_parts() {
    let mut parts = RequestParts::new();
    parts.add(RequestPart::Header(
        "Content-Type".to_string(),
        "application/json".to_string(),
    ));
    parts.add(RequestPart::Cookie("session_id".to_string()));

    assert_eq!(parts.values.len(), 2);
    match &parts.values[0] {
        RequestPart::Header(key, value) => {
            assert_eq!(key, "Content-Type");
            assert_eq!(value, "application/json");
        }
        _ => panic!("Expected header"),
    }
    match &parts.values[1] {
        RequestPart::Cookie(cookie) => assert_eq!(cookie, "session_id"),
        _ => panic!("Expected cookie"),
    }
}

#[test]
fn test_extend_request_parts() {
    let mut parts1 = RequestParts::new();
    parts1.add(RequestPart::Header(
        "Content-Type".to_string(),
        "application/json".to_string(),
    ));

    let mut parts2 = RequestParts::new();
    parts2.add(RequestPart::Cookie("session_id".to_string()));

    parts1.extend(parts2);

    assert_eq!(parts1.values.len(), 2);
}

#[test]
fn test_merge_form_data() {
    let mut form_a = FormMap::new();
    form_a.insert("username".to_string(), "user1".to_string());

    let mut form_b = FormMap::new();
    form_b.insert("password".to_string(), "pass123".to_string());

    let mut parts = RequestParts::new();
    parts.add(RequestPart::Data(Data::Form(form_a)));

    let mut other_parts = RequestParts::new();
    other_parts.add(RequestPart::Data(Data::Form(form_b)));

    parts.extend(other_parts);
    parts.join_parts();

    match &parts.values[0] {
        RequestPart::Data(Data::Form(form)) => {
            assert_eq!(form.get("username"), Some(&"user1".to_string()));
            assert_eq!(form.get("password"), Some(&"pass123".to_string()));
        }
        _ => panic!("Expected form data"),
    }
}

#[test]
fn test_merge_json_data() {
    let json_a: serde_json::Value = serde_json::from_str(r#"{"key1": "value1"}"#).unwrap();
    let json_b: serde_json::Value = serde_json::from_str(r#"{"key2": "value2"}"#).unwrap();

    let mut parts = RequestParts::new();
    parts.add(RequestPart::Data(Data::Json(json_a)));

    let mut other_parts = RequestParts::new();
    other_parts.add(RequestPart::Data(Data::Json(json_b)));

    parts.extend(other_parts);
    parts.join_parts();

    match &parts.values[0] {
        RequestPart::Data(Data::Json(json)) => {
            assert_eq!(json["key1"], "value1");
            assert_eq!(json["key2"], "value2");
        }
        _ => panic!("Expected JSON data"),
    }
}

#[test]
fn test_merge_cookies() {
    let mut parts = RequestParts::new();
    parts.add(RequestPart::Cookie("cookie1=value1".to_string()));
    parts.add(RequestPart::Cookie("cookie2=value2".to_string()));

    parts.join_parts();

    assert_eq!(parts.values.len(), 1);
    match &parts.values[0] {
        RequestPart::Cookie(cookies) => {
            assert_eq!(cookies, "cookie2=value2; cookie1=value1");
        }
        _ => panic!("Expected merged cookies"),
    }
}
