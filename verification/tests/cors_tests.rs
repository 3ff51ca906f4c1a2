use jarman::cors::CORS;

#[test]
fn preflight_requests_get_the_headers_and_an_empty_body() {
    let r = CORS().on_response(true, false);
    assert_eq!(r.headers.len(), 4);
    assert_eq!(r.headers[0], ("Access-Control-Allow-Origin".to_string(), "http://localhost:3449".to_string()));
    assert_eq!(r.headers[1], ("Access-Control-Allow-Methods".to_string(), "POST, GET, OPTIONS, DELETE, PUT".to_string()));
    assert_eq!(r.headers[3], ("Access-Control-Allow-Credentials".to_string(), "false".to_string()));
    assert!(r.plain_empty_body);
    assert!(r.status_ok);
}

#[test]
fn json_responses_get_the_headers_only() {
    let r = CORS().on_response(false, true);
    assert_eq!(r.headers.len(), 4);
    assert_eq!(r.headers[2].0, "Access-Control-Allow-Headers");
    assert!(!r.plain_empty_body);
    assert!(r.status_ok);
}

#[test]
fn other_responses_are_left_alone() {
    let r = CORS().on_response(false, false);
    assert!(r.headers.is_empty());
    assert!(!r.plain_empty_body);
    assert!(!r.status_ok);
}
