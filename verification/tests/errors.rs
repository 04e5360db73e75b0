use fantasy_hockey::error::Error;

#[test]
fn describe_prefixes_the_kind() {
    assert_eq!(
        Error::Database("pool timed out".to_string()).describe(),
        "Database error: pool timed out"
    );
    assert_eq!(Error::NhlApi("429".to_string()).describe(), "NHL API error: 429");
    assert_eq!(Error::NotFound("team 9".to_string()).describe(), "Not found: team 9");
    assert_eq!(
        Error::Validation("bad date".to_string()).describe(),
        "Validation error: bad date"
    );
    assert_eq!(Error::Internal("boom".to_string()).describe(), "Internal error: boom");
    assert_eq!(Error::Unauthorized("no token".to_string()).describe(), "Unauthorized: no token");
    assert_eq!(Error::Forbidden("admin only".to_string()).describe(), "Forbidden: admin only");
    assert_eq!(Error::Conflict("taken".to_string()).describe(), "Conflict: taken");
}

#[test]
fn server_errors_answer_5xx_without_detail() {
    let (status, body) = Error::Database("secret dsn".to_string()).to_response();
    assert_eq!(status, 500);
    assert!(!body.success);
    assert_eq!(body.error, "Database error occurred");

    let (status, body) = Error::NhlApi("upstream 503".to_string()).to_response();
    assert_eq!(status, 502);
    assert_eq!(body.error, "External service error");

    let (status, body) = Error::Internal("stack".to_string()).to_response();
    assert_eq!(status, 500);
    assert_eq!(body.error, "Internal server error");
}

#[test]
fn client_errors_answer_4xx_with_their_detail() {
    let cases = vec![
        (Error::NotFound("no such league".to_string()), 404u16, "no such league"),
        (Error::Validation("bad pick".to_string()), 400, "bad pick"),
        (Error::Unauthorized("login".to_string()), 401, "login"),
        (Error::Forbidden("not yours".to_string()), 403, "not yours"),
        (Error::Conflict("already drafted".to_string()), 409, "already drafted"),
    ];
    for (err, want_status, want_msg) in cases {
        let (status, body) = err.to_response();
        assert_eq!(status, want_status);
        assert!(!body.success);
        assert_eq!(body.error, want_msg);
    }
}
