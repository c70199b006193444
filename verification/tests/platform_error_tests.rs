use loc::error::AppError;
use loc::platform::Platform;

#[test]
fn platform_parse_known_names() {
    assert_eq!(Platform::parse("github"), Some(Platform::GitHub));
    assert_eq!(Platform::parse("codeberg"), Some(Platform::Codeberg));
    assert_eq!(Platform::parse("gitlab"), Some(Platform::GitLab));
    assert_eq!(Platform::parse("bitbucket"), Some(Platform::Bitbucket));
}

#[test]
fn platform_parse_unknown_names() {
    assert_eq!(Platform::parse("GitHub"), None);
    assert_eq!(Platform::parse(""), None);
    assert_eq!(Platform::parse("githubx"), None);
}

#[test]
fn platform_as_str_parse_roundtrip() {
    for p in [Platform::GitHub, Platform::Codeberg, Platform::GitLab, Platform::Bitbucket] {
        assert_eq!(Platform::parse(p.as_str()), Some(p));
    }
    assert_eq!(Platform::GitLab.as_str(), "gitlab");
}

#[test]
fn app_error_status_codes() {
    assert_eq!(AppError::NotFound("x".to_string()).status_code(), 404);
    assert_eq!(AppError::BadRequest("x".to_string()).status_code(), 400);
    assert_eq!(AppError::Upstream("x".to_string()).status_code(), 502);
}

#[test]
fn app_error_into_parts() {
    let (code, msg) = AppError::Upstream("boom".to_string()).into_parts();
    assert_eq!(code, 502);
    assert_eq!(msg, "boom");
    let (code, msg) = AppError::NotFound("gone".to_string()).into_parts();
    assert_eq!((code, msg.as_str()), (404, "gone"));
}
