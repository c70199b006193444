use loc::error::AppError;
use loc::forge::{
    auth_header_value, branch_not_found_message, check_status, default_branch_from, repo_api_url,
    repo_not_found_message, tarball_url,
};

#[test]
fn urls_are_built_from_parts() {
    assert_eq!(repo_api_url("rust-lang", "rust"), "https://api.github.com/repos/rust-lang/rust");
    assert_eq!(
        tarball_url("rust-lang", "rust", "master"),
        "https://codeload.github.com/rust-lang/rust/tar.gz/refs/heads/master"
    );
    assert_eq!(auth_header_value("abc"), "token abc");
}

#[test]
fn not_found_messages() {
    assert_eq!(repo_not_found_message("o", "r"), "repository o/r not found");
    assert_eq!(branch_not_found_message("o", "r", "dev"), "branch 'dev' not found in o/r");
}

#[test]
fn check_status_decisions() {
    assert_eq!(check_status(200, "200 OK", || "nf".to_string(), "GitHub API returned "), Ok(()));
    assert_eq!(check_status(204, "204 No Content", || "nf".to_string(), "p "), Ok(()));
    assert_eq!(
        check_status(404, "404 Not Found", || "nf".to_string(), "GitHub API returned "),
        Err(AppError::NotFound("nf".to_string()))
    );
    assert_eq!(
        check_status(500, "500 Internal Server Error", || "nf".to_string(), "GitHub API returned "),
        Err(AppError::Upstream("GitHub API returned 500 Internal Server Error".to_string()))
    );
    assert_eq!(
        check_status(301, "301 Moved Permanently", || "nf".to_string(), "failed to download source: "),
        Err(AppError::Upstream("failed to download source: 301 Moved Permanently".to_string()))
    );
}

#[test]
fn default_branch_field() {
    assert_eq!(default_branch_from(Some("main".to_string())), Ok("main".to_string()));
    assert_eq!(
        default_branch_from(None),
        Err(AppError::Upstream("missing default_branch in GitHub response".to_string()))
    );
}
