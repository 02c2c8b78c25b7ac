use bounty_builder::github_api::{
    get_last_path_part, github_repository_link, last_path_segment, link_parts, parse_github_url,
    repository_link_from, repository_of,
};
use bounty_builder::parsers::code4rena::Code4renaParser;
use bounty_builder::parsers::hats::HatsParser;
use bounty_builder::parsers::immunefi::ImmunefiParser;
use bounty_builder::parsers::parse::{repo_directory_of, ParseError};
use bounty_builder::parsers::sherlock::{Contests, SherlockParser};
use bounty_builder::text::{contains_text, final_segment_of, has_suffix, same_text, trim_sol_of};

fn strings(v: &[&str]) -> Vec<String> {
    v.iter().map(|s| s.to_string()).collect()
}

#[test]
fn last_path_part_of_urls() {
    assert_eq!(get_last_path_part("https://github.com/org/repo"), Some("repo".to_string()));
    assert_eq!(get_last_path_part("https://github.com"), Some(String::new()));
    assert_eq!(get_last_path_part("not a url"), None);
    assert_eq!(get_last_path_part("data:text/plain,Hello"), None);
}

#[test]
fn github_url_parts() {
    let parts = parse_github_url("https://github.com/org/repo/tree/abc123").unwrap();
    assert_eq!(parts.0, "https://github.com/org/repo/");
    assert_eq!(parts.1, "org/repo");
    assert_eq!(parts.2, "abc123");
    assert_eq!(parse_github_url("nonsense"), None);
}

#[test]
fn parts_from_segments() {
    assert_eq!(repository_of(&strings(&["org", "repo", "tree"])), "org/repo");
    assert_eq!(repository_of(&strings(&["org"])), "org");
    assert_eq!(repository_of(&vec![]), "");
    assert_eq!(last_path_segment(&strings(&["a", "b"])), Some("b".to_string()));
    assert_eq!(last_path_segment(&vec![]), None);
    assert_eq!(
        link_parts("base".to_string(), &strings(&["o", "r", "c"])),
        Some(("base".to_string(), "o/r".to_string(), "c".to_string()))
    );
    assert_eq!(link_parts("base".to_string(), &vec![]), None);
    assert_eq!(repository_link_from("https", "github.com", &strings(&["o", "r", "blob"])), "https://github.com/o/r");
}

#[test]
fn repository_link_of_github_urls() {
    assert_eq!(
        github_repository_link("https://github.com/org/repo/blob/main/src/A.sol"),
        Some("https://github.com/org/repo".to_string())
    );
    assert_eq!(github_repository_link("nonsense"), None);
    assert_eq!(github_repository_link("mailto:someone@example.com"), None);
}

#[test]
fn code4rena_links() {
    let p = Code4renaParser::new();
    assert_eq!(p.url(), "https://code4rena.com/contests");
    assert!(!Code4renaParser::accepts_link("https://github.com/code-423n4/"));
    assert!(!Code4renaParser::accepts_link("https://github.com/code-423n4/media-kit"));
    assert!(!Code4renaParser::accepts_link("https://example.com/x"));
    let repo = p.repo_for_link("https://github.com/code-423n4/2024-01-audit").unwrap();
    assert_eq!(repo.parser, "code4rena");
    assert_eq!(repo.name, "repos/2024-01-audit");
    assert_eq!(repo.url, "https://github.com/code-423n4/2024-01-audit");
    assert!(repo.commit.is_none());
    assert!(p.repo_for_link("https://github.com/code-423n4/media-kit").is_none());
}

#[test]
fn immunefi_links() {
    let p = ImmunefiParser::new();
    assert_eq!(p.url(), "https://immunefi.com/explore/");
    assert!(ImmunefiParser::accepts_bounty_link("/bounty/acme/"));
    assert!(!ImmunefiParser::accepts_bounty_link("/about/"));
    assert!(ImmunefiParser::accepts_repo_link("https://github.com/acme/core"));
    assert!(!ImmunefiParser::accepts_repo_link("https://github.com/immunefi-team/x"));
    assert_eq!(ImmunefiParser::bounty_page("/bounty/acme/"), "https://immunefi.com/bounty/acme/");
    let repo = p.repo_for_link("https://github.com/acme/core").unwrap();
    assert_eq!(repo.name, "repos/core");
    assert_eq!(repo.parser, "immunefi");
}

#[test]
fn hats_and_sherlock() {
    let h = HatsParser::new();
    assert_eq!(h.urls.len(), 4);
    assert_eq!(h.url(), "https://api.thegraph.com/subgraphs/name/hats-finance/hats");
    let repo = HatsParser::repo_for_link("https://github.com/hats/vault").unwrap();
    assert_eq!(repo.name, "repos/vault");
    assert_eq!(repo.parser, "hats");
    let s = SherlockParser::new();
    assert_eq!(s.url(), "https://mainnet-contest.sherlock.xyz/contests");
    let repo = SherlockParser::repo_for_link("https://github.com/sherlock-audit/2024-x/tree/0abc").unwrap();
    assert_eq!(repo.name, "repos/sherlock-audit/2024-x");
    assert_eq!(repo.commit.as_deref(), Some("0abc"));
    assert_eq!(repo.url, "https://github.com/sherlock-audit/2024-x/");
    assert!(SherlockParser::repo_for_link("https://gitlab.com/a/b/c").is_none());
}

fn contest(status: &str) -> Contests {
    Contests {
        calc_completed: false,
        ends_at: 0,
        escalation_started_at: None,
        id: 7,
        judging_ends_at: 0,
        judging_prize_pool: None,
        judging_repo_name: String::new(),
        lead_judge_fixed_pay: None,
        lead_judge_handle: None,
        lead_senior_auditor_fixed_pay: None,
        lead_senior_auditor_handle: None,
        logo_url: String::new(),
        private: false,
        prize_pool: None,
        rewards: None,
        score_sequence: None,
        short_description: String::new(),
        starts_at: None,
        status: status.to_string(),
        template_repo_name: String::new(),
        title: String::new(),
    }
}

#[test]
fn sherlock_running_contests() {
    assert!(SherlockParser::is_running(&contest("RUNNING")));
    assert!(!SherlockParser::is_running(&contest("FINISHED")));
}

#[test]
fn parse_error_keeps_message() {
    assert_eq!(ParseError::new("Failed to parse contest").message(), "Failed to parse contest");
    assert_eq!(repo_directory_of("x"), "repos/x");
}

#[test]
fn text_helpers() {
    assert!(same_text("abc", "abc"));
    assert!(!same_text("abc", "abd"));
    assert!(!same_text("abc", "ab"));
    assert!(has_suffix("Foo.dbg", ".dbg"));
    assert!(!has_suffix("dbg", ".dbg"));
    assert_eq!(final_segment_of("a/b/C.sol"), "C.sol");
    assert_eq!(final_segment_of("C.sol"), "C.sol");
    assert_eq!(final_segment_of("a/"), "");
    assert_eq!(trim_sol_of("C.sol.sol"), "C");
    assert_eq!(trim_sol_of(".sol"), "");
    assert!(contains_text("https://github.com/x", "github.com"));
    assert!(contains_text("abc", ""));
    assert!(!contains_text("git", "github"));
}
