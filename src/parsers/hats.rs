//! Hats Finance: a subgraph per chain lists vaults, whose descriptions name
//! the contracts covered and their repositories.
use vstd::prelude::*;
use crate::github_api::{get_last_path_part, last_path_part};
use crate::parsers::parse::{repo_directory, repo_directory_of, Repo};

verus! {

pub struct Source {
    pub name: String,
    pub url: String,
}

pub struct ProjectMetadata {
    pub name: String,
    pub icon: String,
    pub token_icon: String,
    pub website: String,
    pub type_field: Option<String>,
}

/// The subgraph endpoints to query, one per chain.
pub struct HatsParser {
    pub urls: Vec<String>,
}

impl HatsParser {
    pub fn new() -> (p: Self)
        ensures
            p.urls@.len() == 4,
            p.urls@[0]@ == "https://api.thegraph.com/subgraphs/name/hats-finance/hats"@,
            p.urls@[1]@ == "https://api.thegraph.com/subgraphs/name/hats-finance/hats_polygon"@,
            p.urls@[2]@ == "https://api.thegraph.com/subgraphs/name/hats-finance/hats_arbitrum"@,
            p.urls@[3]@ == "https://api.thegraph.com/subgraphs/name/hats-finance/hats_optimism"@,
    {
        HatsParser {
            urls: vec![
                "https://api.thegraph.com/subgraphs/name/hats-finance/hats".to_owned(),
                "https://api.thegraph.com/subgraphs/name/hats-finance/hats_polygon".to_owned(),
                "https://api.thegraph.com/subgraphs/name/hats-finance/hats_arbitrum".to_owned(),
                "https://api.thegraph.com/subgraphs/name/hats-finance/hats_optimism".to_owned(),
            ],
        }
    }

    /// The first endpoint.
    pub fn url(&self) -> (u: &str)
        requires
            self.urls@.len() > 0,
        ensures
            u@ == self.urls@[0]@,
    {
        self.urls[0].as_str()
    }

    /// The repository a repository link names; none when it has no path.
    pub fn repo_for_link(link: &str) -> (r: Option<Repo>)
        ensures
            r is Some <==> last_path_part(link@) is Some,
            r matches Some(repo) ==> {
                &&& repo.parser@ == "hats"@
                &&& repo.url@ == link@
                &&& repo.name@ == repo_directory(last_path_part(link@).unwrap())
                &&& repo.commit is None
            },
    {
        match get_last_path_part(link) {
            Some(part) => Some(
                Repo {
                    parser: "hats".to_owned(),
                    url: link.to_owned(),
                    name: repo_directory_of(part.as_str()),
                    commit: None,
                },
            ),
            None => None,
        }
    }
}

} // verus!
