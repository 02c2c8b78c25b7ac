//! Immunefi: bounty pages link to the repositories in scope.
use vstd::prelude::*;
use vstd::string::*;
use crate::github_api::{get_last_path_part, last_path_part};
use crate::parsers::parse::{repo_directory, repo_directory_of, Repo};
use crate::text::{contains_text, occurs_in};

verus! {

pub struct ImmunefiParser {
    pub name: String,
    pub url: String,
}

/// Every Immunefi bounty link mentions `bounty`.
pub open spec fn is_bounty_link(link: Seq<char>) -> bool {
    occurs_in(link, "bounty"@)
}

/// A link on a bounty page leads to a project repository when it points at
/// GitHub and not at Immunefi's own organisation there.
pub open spec fn is_project_repo_link(link: Seq<char>) -> bool {
    occurs_in(link, "github.com"@) && !occurs_in(link, "immunefi-team"@)
}

/// The site that bounty links are relative to.
pub open spec fn site() -> Seq<char> {
    "https://immunefi.com"@
}

impl ImmunefiParser {
    pub fn new() -> (p: Self)
        ensures
            p.name@ == "immunefi"@,
            p.url@ == "https://immunefi.com/explore/"@,
    {
        ImmunefiParser {
            name: "immunefi".to_owned(),
            url: "https://immunefi.com/explore/".to_owned(),
        }
    }

    pub fn url(&self) -> (u: &str)
        ensures
            u@ == self.url@,
    {
        self.url.as_str()
    }

    /// Whether a link on the listing page leads to a bounty.
    pub fn accepts_bounty_link(link: &str) -> (r: bool)
        ensures
            r == is_bounty_link(link@),
    {
        contains_text(link, "bounty")
    }

    /// Whether a link on a bounty page leads to a project repository.
    pub fn accepts_repo_link(link: &str) -> (r: bool)
        ensures
            r == is_project_repo_link(link@),
    {
        contains_text(link, "github.com") && !contains_text(link, "immunefi-team")
    }

    /// The full address of a bounty page from its link on the listing page.
    pub fn bounty_page(link: &str) -> (r: String)
        ensures
            r@ == site() + link@,
    {
        let mut page = "https://immunefi.com".to_owned();
        page.append(link);
        page
    }

    /// The repository a repository link names; none when it has no path.
    pub fn repo_for_link(&self, link: &str) -> (r: Option<Repo>)
        ensures
            r is Some <==> last_path_part(link@) is Some,
            r matches Some(repo) ==> {
                &&& repo.parser@ == self.name@
                &&& repo.url@ == link@
                &&& repo.name@ == repo_directory(last_path_part(link@).unwrap())
                &&& repo.commit is None
            },
    {
        match get_last_path_part(link) {
            Some(part) => Some(
                Repo {
                    parser: self.name.clone(),
                    url: link.to_owned(),
                    name: repo_directory_of(part.as_str()),
                    commit: None,
                },
            ),
            None => None,
        }
    }
}

} // verus!
