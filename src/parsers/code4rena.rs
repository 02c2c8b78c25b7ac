//! Code4rena: contest pages link to the repositories under audit.
use vstd::prelude::*;
use crate::github_api::{get_last_path_part, last_path_part};
use crate::parsers::parse::{repo_directory, repo_directory_of, Repo};
use crate::text::{contains_text, occurs_in, same_text};

verus! {

pub struct Code4renaParser {
    pub name: String,
    pub url: String,
}

/// A link on the contests page leads to a repository under audit when it
/// points at GitHub and is not one of Code4rena's own pages there.
pub open spec fn is_contest_repo_link(link: Seq<char>) -> bool {
    occurs_in(link, "github.com"@) && link != "https://github.com/code-423n4/"@ && link
        != "https://github.com/code-423n4/media-kit"@
}

impl Code4renaParser {
    pub fn new() -> (p: Self)
        ensures
            p.name@ == "code4rena"@,
            p.url@ == "https://code4rena.com/contests"@,
    {
        Code4renaParser {
            name: "code4rena".to_owned(),
            url: "https://code4rena.com/contests".to_owned(),
        }
    }

    pub fn url(&self) -> (u: &str)
        ensures
            u@ == self.url@,
    {
        self.url.as_str()
    }

    /// Whether a link on the contests page leads to a repository under audit.
    pub fn accepts_link(link: &str) -> (r: bool)
        ensures
            r == is_contest_repo_link(link@),
    {
        contains_text(link, "github.com") && !same_text(link, "https://github.com/code-423n4/")
            && !same_text(link, "https://github.com/code-423n4/media-kit")
    }

    /// The repository a link on the contests page leads to; none when the link
    /// is not one, or has no path to name the repository by.
    pub fn repo_for_link(&self, link: &str) -> (r: Option<Repo>)
        ensures
            r is Some <==> is_contest_repo_link(link@) && last_path_part(link@) is Some,
            r matches Some(repo) ==> {
                &&& repo.parser@ == self.name@
                &&& repo.url@ == link@
                &&& repo.name@ == repo_directory(last_path_part(link@).unwrap())
                &&& repo.commit is None
            },
    {
        if !Self::accepts_link(link) {
            return None;
        }
        match get_last_path_part(link) {
            Some(part) => {
                let name = repo_directory_of(part.as_str());
                Some(Repo { parser: self.name.clone(), url: link.to_owned(), name, commit: None })
            },
            None => None,
        }
    }
}

} // verus!
