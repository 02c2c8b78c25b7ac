//! What the bounty sources yield: repositories to build.
use vstd::prelude::*;
use vstd::string::*;

verus! {

/// A repository found by a bounty source: the source's name, the link to
/// clone, the local directory and, optionally, the commit to check out.
pub struct Repo {
    pub parser: String,
    pub url: String,
    pub name: String,
    pub commit: Option<String>,
}

/// The local directory of a repository, under `repos/`.
pub open spec fn repo_directory(part: Seq<char>) -> Seq<char> {
    "repos/"@ + part
}

/// The local directory for a repository whose path ends in `part`.
pub fn repo_directory_of(part: &str) -> (r: String)
    ensures
        r@ == repo_directory(part@),
{
    let mut name = "repos/".to_owned();
    name.append(part);
    name
}

/// A failure to read what a bounty source returned.
pub struct ParseError {
    message: String,
}

impl ParseError {
    pub closed spec fn spec_message(&self) -> Seq<char> {
        self.message@
    }

    pub fn new(message: &str) -> (e: Self)
        ensures
            e.spec_message() == message@,
    {
        ParseError { message: message.to_owned() }
    }

    pub fn message(&self) -> (m: &str)
        ensures
            m@ == self.spec_message(),
    {
        self.message.as_str()
    }
}

} // verus!
