//! The git hosting platforms the service knows by name.

use vstd::prelude::*;
use crate::text::str_eq;

verus! {

/// A git hosting platform.
#[derive(Clone, Copy, Debug, Hash, PartialEq, Eq, Structural)]
pub enum Platform {
    GitHub,
    Codeberg,
    GitLab,
    Bitbucket,
}

/// The name a platform goes by in requests.
pub open spec fn platform_name(p: Platform) -> Seq<char> {
    match p {
        Platform::GitHub => "github"@,
        Platform::Codeberg => "codeberg"@,
        Platform::GitLab => "gitlab"@,
        Platform::Bitbucket => "bitbucket"@,
    }
}

/// The platform a name stands for, if any.
pub open spec fn platform_named(s: Seq<char>) -> Option<Platform> {
    if s == "github"@ {
        Some(Platform::GitHub)
    } else if s == "codeberg"@ {
        Some(Platform::Codeberg)
    } else if s == "gitlab"@ {
        Some(Platform::GitLab)
    } else if s == "bitbucket"@ {
        Some(Platform::Bitbucket)
    } else {
        None
    }
}

impl Platform {
    /// The platform with the given name, if there is one.
    pub fn parse(s: &str) -> (r: Option<Self>)
        ensures
            r == platform_named(s@),
    {
        if str_eq(s, "github") {
            Some(Platform::GitHub)
        } else if str_eq(s, "codeberg") {
            Some(Platform::Codeberg)
        } else if str_eq(s, "gitlab") {
            Some(Platform::GitLab)
        } else if str_eq(s, "bitbucket") {
            Some(Platform::Bitbucket)
        } else {
            None
        }
    }

    /// The name of the platform.
    pub fn as_str(&self) -> (s: &'static str)
        ensures
            s@ == platform_name(*self),
    {
        match self {
            Platform::GitHub => "github",
            Platform::Codeberg => "codeberg",
            Platform::GitLab => "gitlab",
            Platform::Bitbucket => "bitbucket",
        }
    }
}

/// `parse` and `as_str` are inverse: every platform is parsed back from its
/// name, and a name that parses is the name of the platform it parses to.
pub proof fn lemma_parse_as_str(p: Platform, s: Seq<char>)
    ensures
        platform_named(platform_name(p)) == Some(p),
        platform_named(s) == Some(p) ==> s == platform_name(p),
{
    reveal_strlit("github");
    reveal_strlit("codeberg");
    reveal_strlit("gitlab");
    reveal_strlit("bitbucket");
    assert("github"@[0] != "codeberg"@[0]);
    assert("github"@[3] != "gitlab"@[3]);
    assert("github"@[0] != "bitbucket"@[0]);
    assert("codeberg"@[0] != "gitlab"@[0]);
    assert("codeberg"@[0] != "bitbucket"@[0]);
    assert("gitlab"@[0] != "bitbucket"@[0]);
}

} // verus!
