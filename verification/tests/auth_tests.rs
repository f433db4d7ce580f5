use rustfin::auth::{
    choose_stream_credential, is_admin_role, path_under_roots, stream_access_check,
    stream_audience_ok, stream_scope_ok, StreamAccess, StreamAuthQuery, StreamClaims,
    StreamCredential,
};

fn claims(file_id: Option<&str>) -> StreamClaims {
    StreamClaims {
        sub: "u1".to_string(),
        role: "user".to_string(),
        aud: "stream".to_string(),
        file_id: file_id.map(str::to_string),
        session_id: None,
        exp: 0,
    }
}

#[test]
fn credential_selection_order() {
    let bearer = Some("tok".to_string());
    let both = StreamAuthQuery { st: Some("st".to_string()), token: Some("legacy".to_string()) };
    assert_eq!(choose_stream_credential(&bearer, &both), StreamCredential::Bearer);
    assert_eq!(choose_stream_credential(&None, &both), StreamCredential::StreamToken);
    let legacy_only = StreamAuthQuery { st: None, token: Some("legacy".to_string()) };
    assert_eq!(choose_stream_credential(&None, &legacy_only), StreamCredential::LegacyRejected);
    let none = StreamAuthQuery { st: None, token: None };
    assert_eq!(choose_stream_credential(&None, &none), StreamCredential::Missing);
}

#[test]
fn stream_token_scoping() {
    assert!(stream_scope_ok(&claims(Some("f1")), "f1"));
    assert!(!stream_scope_ok(&claims(Some("f1")), "f2"));
    assert!(stream_scope_ok(&claims(None), "anything"));
    assert!(stream_audience_ok(&claims(None)));
    assert!(is_admin_role("admin"));
    assert!(!is_admin_role("user"));
}

#[test]
fn path_authorization_by_roots() {
    let roots = vec!["/media/movies".to_string(), "/media/tv".to_string()];
    assert!(path_under_roots("/media/movies/film.mkv", &roots));
    assert!(path_under_roots("/media/tv/show/ep.mkv", &roots));
    assert!(!path_under_roots("/etc/passwd", &roots));
    assert!(!path_under_roots("/media/music/a.mp3", &roots));
    assert!(!path_under_roots("/media/movies/film.mkv", &vec![]));
}

#[test]
fn stream_access_check_order() {
    // no credential at all, or the rejected legacy parameter: unauthorized
    assert_eq!(
        stream_access_check(StreamCredential::Missing, false, true, true, true, true),
        StreamAccess::Unauthorized
    );
    assert_eq!(
        stream_access_check(StreamCredential::LegacyRejected, true, true, true, true, true),
        StreamAccess::Unauthorized
    );
    // a bearer token that did not decode: unauthorized
    assert_eq!(
        stream_access_check(StreamCredential::Bearer, false, true, true, true, true),
        StreamAccess::Unauthorized
    );
    // a stream token bound to another file: forbidden before file lookup
    assert_eq!(
        stream_access_check(StreamCredential::StreamToken, true, false, false, false, false),
        StreamAccess::ForbiddenScope
    );
    // unknown or absent file: not found before path checks
    assert_eq!(
        stream_access_check(StreamCredential::Bearer, true, true, false, false, false),
        StreamAccess::NotFoundFile
    );
    assert_eq!(
        stream_access_check(StreamCredential::Bearer, true, true, true, false, false),
        StreamAccess::NotFoundFile
    );
    // a path outside every allowed root: forbidden
    assert_eq!(
        stream_access_check(StreamCredential::Bearer, true, true, true, true, false),
        StreamAccess::ForbiddenPath
    );
    assert_eq!(
        stream_access_check(StreamCredential::Bearer, true, true, true, true, true),
        StreamAccess::Allowed
    );
}
