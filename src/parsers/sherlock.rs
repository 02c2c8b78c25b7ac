//! Sherlock: an API lists the contests; the description of a running contest
//! links to its repository at the commit under audit.
use vstd::prelude::*;
use crate::github_api::{last_segment, parse_github_url, repository_path, url_parent, url_path_segments};
use crate::parsers::parse::{repo_directory, repo_directory_of, Repo};
use crate::text::{contains_text, occurs_in, same_text};

verus! {

pub struct SherlockParser {
    pub url: String,
}

/// One contest as the contest list reports it.
pub struct Contests {
    pub calc_completed: bool,
    pub ends_at: i64,
    pub escalation_started_at: Option<i64>,
    pub id: i64,
    pub judging_ends_at: i64,
    pub judging_prize_pool: Option<i64>,
    pub judging_repo_name: String,
    pub lead_judge_fixed_pay: Option<i64>,
    pub lead_judge_handle: Option<String>,
    pub lead_senior_auditor_fixed_pay: Option<i64>,
    pub lead_senior_auditor_handle: Option<String>,
    pub logo_url: String,
    pub private: bool,
    pub prize_pool: Option<i64>,
    pub rewards: Option<i64>,
    pub score_sequence: Option<i64>,
    pub short_description: String,
    pub starts_at: Option<i64>,
    pub status: String,
    pub template_repo_name: String,
    pub title: String,
}

/// The details of one contest.
pub struct Contest {
    pub description: String,
}

impl SherlockParser {
    pub fn new() -> (p: Self)
        ensures
            p.url@ == "https://mainnet-contest.sherlock.xyz/contests"@,
    {
        SherlockParser { url: "https://mainnet-contest.sherlock.xyz/contests".to_owned() }
    }

    pub fn url(&self) -> (u: &str)
        ensures
            u@ == self.url@,
    {
        self.url.as_str()
    }

    /// Only running contests are looked into.
    pub fn is_running(contest: &Contests) -> (r: bool)
        ensures
            r == (contest.status@ == "RUNNING"@),
    {
        same_text(contest.status.as_str(), "RUNNING")
    }

    /// The repository a link in a contest description names, at the commit
    /// the link points at; none for a link that is not to GitHub or cannot be split.
    pub fn repo_for_link(link: &str) -> (r: Option<Repo>)
        ensures
            r is Some <==> occurs_in(link@, "github.com"@) && url_parent(link@) is Some
                && url_path_segments(link@) is Some,
            r matches Some(repo) ==> {
                &&& repo.parser@ == "sherlock"@
                &&& Some(repo.url@) == url_parent(link@)
                &&& repo.name@ == repo_directory(repository_path(url_path_segments(link@).unwrap()))
                &&& repo.commit is Some
                &&& Some(repo.commit.unwrap()@) == last_segment(url_path_segments(link@).unwrap())
            },
    {
        if !contains_text(link, "github.com") {
            return None;
        }
        match parse_github_url(link) {
            Some((url, repository, sha)) => Some(
                Repo {
                    parser: "sherlock".to_owned(),
                    url,
                    name: repo_directory_of(repository.as_str()),
                    commit: Some(sha),
                },
            ),
            None => None,
        }
    }
}

} // verus!
