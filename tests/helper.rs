use csrf_killer::settings::{validate_form, validate_headers};
use csrf_killer::tokens::validate_tokens;

#[test]
fn test_validate_tokens() {
    let vec = vec!["token==form==a(.*?)b".to_string()];
    let result = validate_tokens(&vec);
    assert!(result.is_ok());

    // unclose regex group
    let vec = vec!["token==form==a(.*?b".to_string()];
    let result = validate_tokens(&vec);
    assert!(result.is_err());

    // invalid separator
    let vec = vec!["token==form=a(.*?)b".to_string()];
    let result = validate_tokens(&vec);
    assert!(result.is_err())
}

#[test]
fn tokens_keep_fields_and_last_declaration_wins() {
    let vec = vec![
        "csrf==form==_token=([^&]+)".to_string(),
        "sess==cookie==sid=(\\w+)".to_string(),
        "csrf==header==x=(\\d+)".to_string(),
    ];
    let tokens = validate_tokens(&vec).unwrap();
    assert_eq!(tokens.len(), 2);
    assert_eq!(tokens[0].0, "csrf");
    assert_eq!(tokens[0].1 .0, "header");
    assert_eq!(tokens[0].1 .1.as_str(), "x=(\\d+)");
    assert_eq!(tokens[1].0, "sess");
    assert_eq!(tokens[1].1 .0, "cookie");
}

#[test]
fn token_with_too_many_fields_fails() {
    let vec = vec!["a==form==b==c".to_string()];
    let err = validate_tokens(&vec).err().unwrap();
    assert_eq!(
        err.message(),
        "Invalid token struct: a==form==b==c, must be == separated"
    );
}

#[test]
fn form_body_is_read_field_by_field() {
    let form = validate_form("user=admin&pw=FUZZ").unwrap();
    assert_eq!(form.len(), 2);
    assert_eq!(form.get("user"), Some(&"admin".to_string()));
    assert_eq!(form.get("pw"), Some(&"FUZZ".to_string()));
    assert_eq!(form.get("other"), None);
}

#[test]
fn malformed_form_bodies_fail() {
    for bad in ["", "a", "a=", "=b", "a=b&", "a=b=c", "a=b&&c=d"] {
        let err = validate_form(bad).err().unwrap();
        assert_eq!(err.message(), "Invalid format of form data");
    }
}

#[test]
fn headers_split_at_the_colon() {
    let hs = validate_headers(&vec!["X-Trace:1".to_string(), "A: b".to_string()]).unwrap();
    assert_eq!(hs, vec![
        ("X-Trace".to_string(), "1".to_string()),
        ("A".to_string(), " b".to_string())
    ]);
    assert!(validate_headers(&vec!["NoColon".to_string()]).is_err());
    assert!(validate_headers(&vec!["a:b:c".to_string()]).is_err());
}

#[test]
fn token_regex_needs_a_capture_group() {
    let err = validate_tokens(&vec!["t==form==abc".to_string()]).err().unwrap();
    assert_eq!(err.message(), "The regex of the token has no capture group: t==form==abc");
    assert!(validate_tokens(&vec!["t==form==(?:abc)".to_string()]).is_err());
    assert!(validate_tokens(&vec!["t==form==a(b)c".to_string()]).is_ok());
}

#[test]
fn headers_with_invalid_names_or_values_fail() {
    assert!(validate_headers(&vec!["Bad Name:1".to_string()]).is_err());
    assert!(validate_headers(&vec!["X-A:line\nbreak".to_string()]).is_err());
    assert!(validate_headers(&vec!["X-A:ok value".to_string()]).is_ok());
}
