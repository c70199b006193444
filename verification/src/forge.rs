//! What the service asks a git host for, and how it reads the answers: the
//! URLs and headers of its requests, and the decisions taken on a response's
//! status and body.

use vstd::prelude::*;
use crate::error::AppError;
use crate::text::{concat, concat_spec};

verus! {

/// The GitHub API URL of a repository.
pub fn repo_api_url(owner: &str, repo: &str) -> (url: String)
    ensures
        url@ == concat_spec(seq!["https://api.github.com/repos/"@, owner@, "/"@, repo@]),
{
    let url = concat(&["https://api.github.com/repos/", owner, "/", repo]);
    assert(seq!["https://api.github.com/repos/", owner, "/", repo].map_values(|p: &str| p@)
        =~= seq!["https://api.github.com/repos/"@, owner@, "/"@, repo@]);
    url
}

/// The URL of the gzipped tarball of a branch of a repository.
pub fn tarball_url(owner: &str, repo: &str, branch: &str) -> (url: String)
    ensures
        url@ == concat_spec(
            seq![
                "https://codeload.github.com/"@,
                owner@,
                "/"@,
                repo@,
                "/tar.gz/refs/heads/"@,
                branch@,
            ],
        ),
{
    let parts = ["https://codeload.github.com/", owner, "/", repo, "/tar.gz/refs/heads/", branch];
    let url = concat(&parts);
    assert(parts@.map_values(|p: &str| p@) =~= seq![
        "https://codeload.github.com/"@,
        owner@,
        "/"@,
        repo@,
        "/tar.gz/refs/heads/"@,
        branch@,
    ]);
    url
}

/// The value of the `Authorization` header sent with a token.
pub fn auth_header_value(token: &str) -> (value: String)
    ensures
        value@ == concat_spec(seq!["token "@, token@]),
{
    let value = concat(&["token ", token]);
    assert(seq!["token ", token].map_values(|p: &str| p@) =~= seq!["token "@, token@]);
    value
}

/// The message for a repository that does not exist.
pub fn repo_not_found_message(owner: &str, repo: &str) -> (m: String)
    ensures
        m@ == concat_spec(seq!["repository "@, owner@, "/"@, repo@, " not found"@]),
{
    let m = concat(&["repository ", owner, "/", repo, " not found"]);
    assert(seq!["repository ", owner, "/", repo, " not found"].map_values(|p: &str| p@)
        =~= seq!["repository "@, owner@, "/"@, repo@, " not found"@]);
    m
}

/// The message for a branch that does not exist.
pub fn branch_not_found_message(owner: &str, repo: &str, branch: &str) -> (m: String)
    ensures
        m@ == concat_spec(seq!["branch '"@, branch@, "' not found in "@, owner@, "/"@, repo@]),
{
    let parts = ["branch '", branch, "' not found in ", owner, "/", repo];
    let m = concat(&parts);
    assert(parts@.map_values(|p: &str| p@) =~= seq![
        "branch '"@,
        branch@,
        "' not found in "@,
        owner@,
        "/"@,
        repo@,
    ]);
    m
}

/// Status codes 200 to 299 report success.
pub open spec fn is_success_code(status: u16) -> bool {
    200 <= status < 300
}

/// The outcome of a response's status: success, 404 answered as not found
/// with a message for which `not_found` holds, any other status answered as
/// an upstream failure whose message is `failure_prefix` followed by the
/// status as displayed.
pub open spec fn status_outcome(
    status: u16,
    status_text: Seq<char>,
    not_found: spec_fn(String) -> bool,
    failure_prefix: Seq<char>,
    r: Result<(), AppError>,
) -> bool {
    if status == 404 {
        r matches Err(AppError::NotFound(m)) && not_found(m)
    } else if !is_success_code(status) {
        r matches Err(AppError::Upstream(m)) && m@ == failure_prefix + status_text
    } else {
        r is Ok
    }
}

/// Decides on a response's status before its body is read. The not-found
/// message is made only for a 404.
pub fn check_status<F: FnOnce() -> String>(
    status: u16,
    status_text: &str,
    not_found: F,
    failure_prefix: &str,
) -> (r: Result<(), AppError>)
    requires
        status == 404 ==> not_found.requires(()),
    ensures
        status_outcome(
            status,
            status_text@,
            |m: String| not_found.ensures((), m),
            failure_prefix@,
            r,
        ),
{
    if status == 404 {
        let m = not_found();
        return Err(AppError::NotFound(m));
    }
    if !(200 <= status && status < 300) {
        let m = concat(&[failure_prefix, status_text]);
        proof {
            assert(seq![failure_prefix, status_text].map_values(|p: &str| p@) =~= seq![
                failure_prefix@,
                status_text@,
            ]);
            crate::text::lemma_concat_two(failure_prefix@, status_text@);
        }
        return Err(AppError::Upstream(m));
    }
    Ok(())
}

/// The message when the repository metadata lacks its default branch.
pub open spec fn missing_branch_message() -> Seq<char> {
    "missing default_branch in GitHub response"@
}

/// The default branch read from the `default_branch` field of the
/// repository's metadata, when that field holds a string.
pub fn default_branch_from(field: Option<String>) -> (r: Result<String, AppError>)
    ensures
        match field {
            Some(b) => r == Ok::<String, AppError>(b),
            None => r matches Err(AppError::Upstream(m)) && m@ == missing_branch_message(),
        },
{
    match field {
        Some(branch) => Ok(branch),
        None => {
            let m = String::from_str("missing default_branch in GitHub response");
            proof {
                reveal_strlit("missing default_branch in GitHub response");
            }
            Err(AppError::Upstream(m))
        },
    }
}

} // verus!
