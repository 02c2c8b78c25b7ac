//! Reading repository links: the path of a repository and the commit a link points at.
use vstd::prelude::*;
use crate::contract::text_view;
use crate::registry::names_view;

verus! {

/// The path segments of the URL that a text parses to; none when it does not
/// parse or the URL cannot be a base.
pub uninterp spec fn url_path_segments(s: Seq<char>) -> Option<Seq<Seq<char>>>;

/// The text of the URL `..` resolved against the URL that a text parses to;
/// none when either step fails.
pub uninterp spec fn url_parent(s: Seq<char>) -> Option<Seq<char>>;

/// Relies on `url::Url::parse` and `url::Url::path_segments`: the segments of
/// the path of the parsed URL, none for a text that does not parse or for a
/// cannot-be-a-base URL. A path always splits into at least one segment.
#[verifier::external_body]
fn path_segments_of(url: &str) -> (r: Option<Vec<String>>)
    ensures
        match r {
            Some(segments) => url_path_segments(url@) == Some(names_view(segments@))
                && segments@.len() >= 1,
            None => url_path_segments(url@) is None,
        },
{
    match url::Url::parse(url) {
        Ok(parsed) => match parsed.path_segments() {
            Some(segments) => Some(segments.map(String::from).collect()),
            None => None,
        },
        Err(_) => None,
    }
}

/// Relies on `url::Url::parse` and `url::Url::join`: the text of `..` resolved
/// against the parsed URL, none when parsing or joining fails.
#[verifier::external_body]
fn parent_of(url: &str) -> (r: Option<String>)
    ensures
        text_view(r) == url_parent(url@),
{
    match url::Url::parse(url) {
        Ok(parsed) => match parsed.join("..") {
            Ok(joined) => Some(joined.into()),
            Err(_) => None,
        },
        Err(_) => None,
    }
}

/// The scheme and host of the URL that a text parses to; none when it does not parse.
pub uninterp spec fn url_origin(s: Seq<char>) -> Option<(Seq<char>, Option<Seq<char>>)>;

/// Relies on `url::Url::parse`, `url::Url::scheme` and `url::Url::host_str`:
/// the scheme and the host (if any) of the parsed URL, none for a text that
/// does not parse.
#[verifier::external_body]
fn origin_of(url: &str) -> (r: Option<(String, Option<String>)>)
    ensures
        match r {
            Some((scheme, host)) => url_origin(url@) == Some((scheme@, text_view(host))),
            None => url_origin(url@) is None,
        },
{
    match url::Url::parse(url) {
        Ok(parsed) => Some((parsed.scheme().to_owned(), parsed.host_str().map(String::from))),
        Err(_) => None,
    }
}

/// The last of a URL's path segments.
pub open spec fn last_segment(segments: Seq<Seq<char>>) -> Option<Seq<char>> {
    if segments.len() == 0 {
        None
    } else {
        Some(segments.last())
    }
}

/// The repository a path names: its first two segments, joined by `/`.
pub open spec fn repository_path(segments: Seq<Seq<char>>) -> Seq<char> {
    if segments.len() == 0 {
        Seq::empty()
    } else if segments.len() == 1 {
        segments[0]
    } else {
        segments[0] + seq!['/'] + segments[1]
    }
}

/// The last path segment of the URL a text parses to.
pub open spec fn last_path_part(s: Seq<char>) -> Option<Seq<char>> {
    match url_path_segments(s) {
        Some(segments) => last_segment(segments),
        None => None,
    }
}

/// The last of a URL's path segments.
pub fn last_path_segment(segments: &Vec<String>) -> (r: Option<String>)
    ensures
        text_view(r) == last_segment(names_view(segments@)),
{
    if segments.len() == 0 {
        None
    } else {
        Some(segments[segments.len() - 1].clone())
    }
}

/// The repository a path names: its first two segments, joined by `/`.
pub fn repository_of(segments: &Vec<String>) -> (r: String)
    ensures
        r@ == repository_path(names_view(segments@)),
{
    if segments.len() == 0 {
        String::new()
    } else if segments.len() == 1 {
        segments[0].clone()
    } else {
        let mut path = segments[0].clone();
        path.append("/");
        path.append(segments[1].as_str());
        proof {
            reveal_strlit("/");
        }
        path
    }
}

/// The last segment of the path of a URL; none when the text is no URL with a path.
pub fn get_last_path_part(url: &str) -> (r: Option<String>)
    ensures
        text_view(r) == last_path_part(url@),
{
    match path_segments_of(url) {
        Some(segments) => last_path_segment(&segments),
        None => None,
    }
}

/// The parts of a repository link, from the parent URL and the path segments
/// of the link: the parent URL, the repository (the first two segments) and
/// the last segment, which names a commit or branch.
pub fn link_parts(parent: String, segments: &Vec<String>) -> (r: Option<(String, String, String)>)
    ensures
        match r {
            Some((base, repository, last)) => segments@.len() > 0 && base@ == parent@
                && repository@ == repository_path(names_view(segments@))
                && Some(last@) == last_segment(names_view(segments@)),
            None => segments@.len() == 0,
        },
{
    match last_path_segment(segments) {
        Some(last) => Some((parent, repository_of(segments), last)),
        None => None,
    }
}

/// Splits a repository link into its parent URL, the repository path and the
/// last segment; none when the text is no URL with a path, or `..` cannot be
/// resolved against it.
pub fn parse_github_url(url: &str) -> (r: Option<(String, String, String)>)
    ensures
        match r {
            Some((base, repository, last)) => url_parent(url@) == Some(base@)
                && url_path_segments(url@) is Some && repository@ == repository_path(
                url_path_segments(url@).unwrap(),
            ) && Some(last@) == last_segment(url_path_segments(url@).unwrap()),
            None => url_parent(url@) is None || url_path_segments(url@) is None,
        },
{
    let parent = match parent_of(url) {
        Some(parent) => parent,
        None => return None,
    };
    match path_segments_of(url) {
        Some(segments) => link_parts(parent, &segments),
        None => None,
    }
}

/// The link to a repository: scheme, host and the first two path segments.
pub open spec fn repository_link(
    scheme: Seq<char>,
    host: Seq<char>,
    segments: Seq<Seq<char>>,
) -> Seq<char> {
    scheme + "://"@ + host + seq!['/'] + repository_path(segments)
}

/// The link to a repository from the parts of a URL.
pub fn repository_link_from(scheme: &str, host: &str, segments: &Vec<String>) -> (r: String)
    ensures
        r@ == repository_link(scheme@, host@, names_view(segments@)),
{
    let mut link = scheme.to_owned();
    link.append("://");
    link.append(host);
    link.append("/");
    let path = repository_of(segments);
    link.append(path.as_str());
    proof {
        reveal_strlit("/");
        assert(link@ =~= repository_link(scheme@, host@, names_view(segments@)));
    }
    link
}

/// The link to the repository a GitHub URL points into, such as a file or a
/// commit of it; none when the text is no URL with a host and a path.
pub fn github_repository_link(url: &str) -> (r: Option<String>)
    ensures
        match (url_origin(url@), url_path_segments(url@)) {
            (Some((scheme, Some(host))), Some(segments)) => r is Some && r.unwrap()@
                == repository_link(scheme, host, segments),
            _ => r is None,
        },
{
    let (scheme, host) = match origin_of(url) {
        Some(origin) => origin,
        None => return None,
    };
    let host = match host {
        Some(host) => host,
        None => return None,
    };
    match path_segments_of(url) {
        Some(segments) => Some(repository_link_from(scheme.as_str(), host.as_str(), &segments)),
        None => None,
    }
}

} // verus!
