//! The GitHub side of a review: pull request addresses, API endpoints and what
//! the answers of the API mean.
use vstd::prelude::*;

use crate::error::AgentError;
use crate::letters::{
    all_ascii, ascii_alphanumeric, ascii_lower, is_ascii_alphanumeric, lowercased,
    same_ignoring_ascii_case,
};
use crate::numeral::{
    decimal, decimal_is_digits, decimal_of, decimal_reads_back, digit_char, is_digit, parse_u64,
    read_numbers_fit, read_unsigned, NumberError,
};
use crate::text::{
    chars_of, contains, ends_with, join, lemma_views_push, occurs_at, opt_view,
    parts_are_contained, same, starts_with, text_between, text_contains, text_join, views,
};
use crate::web::{
    is_success, success_status, parse_url, percent_decode, percent_decoded, status_digits, status_text, status_words,
    url_parsed, UrlParts, UrlView,
};

verus! {

/// The address of the GitHub API.
pub const GITHUB_API_BASE: &'static str = "https://api.github.com";

/// The hosts whose pull requests can be named by an address.
#[derive(Debug, Clone, Copy, PartialEq, Eq, Structural)]
pub enum GitHost {
    GitHub,
    GitLab,
    Bitbucket,
}

/// The host that a name stands for.
pub open spec fn host_of(name: Seq<char>) -> Option<GitHost> {
    let lower = lowercased(name);
    if lower == "github.com"@ || lower == "www.github.com"@ {
        Some(GitHost::GitHub)
    } else if lower == "gitlab.com"@ {
        Some(GitHost::GitLab)
    } else if lower == "bitbucket.org"@ {
        Some(GitHost::Bitbucket)
    } else {
        None
    }
}

pub open spec fn unknown_host(name: Seq<char>) -> Seq<char> {
    "URL host must be github.com, gitlab.com, or bitbucket.org, got '"@ + name + "'"@
}

/// Where the number stands among the segments of a path, if the path has the
/// form that the host uses.
pub open spec fn number_place(host: GitHost, segments: Seq<Seq<char>>) -> Option<int> {
    match host {
        GitHost::GitHub => if segments.len() >= 4 && ascii_lower(segments[2]) == ascii_lower(
            "pull"@,
        ) {
            Some(3)
        } else {
            None
        },
        GitHost::GitLab => if segments.len() >= 5 && segments[2] == "-"@ && segments[3]
            == "merge_requests"@ {
            Some(4)
        } else {
            None
        },
        GitHost::Bitbucket => if segments.len() >= 4 && segments[2] == "pull-requests"@ {
            Some(3)
        } else {
            None
        },
    }
}

/// The form of a pull request path.
pub open spec fn path_form(host: GitHost) -> Seq<char> {
    match host {
        GitHost::GitHub => "/owner/repo/pull/N"@,
        GitHost::GitLab => "/owner/repo/-/merge_requests/N"@,
        GitHost::Bitbucket => "/owner/repo/pull-requests/N"@,
    }
}

pub open spec fn host_name(host: GitHost) -> Seq<char> {
    match host {
        GitHost::GitHub => "github.com"@,
        GitHost::GitLab => "gitlab.com"@,
        GitHost::Bitbucket => "bitbucket.org"@,
    }
}

impl GitHost {
    /// The host that a name stands for, whatever its case.
    pub fn from_host(host: &str) -> (r: Result<Self, String>)
        ensures
            match r {
                Ok(h) => host_of(host@) == Some(h),
                Err(e) => host_of(host@) is None && e@ == unknown_host(host@),
            },
    {
        let lower = host.to_lowercase();
        if same(lower.as_str(), "github.com") || same(lower.as_str(), "www.github.com") {
            Ok(GitHost::GitHub)
        } else if same(lower.as_str(), "gitlab.com") {
            Ok(GitHost::GitLab)
        } else if same(lower.as_str(), "bitbucket.org") {
            Ok(GitHost::Bitbucket)
        } else {
            let mut e =
                "URL host must be github.com, gitlab.com, or bitbucket.org, got '".to_owned();
            e.push_str(host);
            e.push_str("'");
            Err(e)
        }
    }

    /// Where the number stands among the segments of a path.
    pub fn path_format(&self, segments: &Vec<String>) -> (r: Option<usize>)
        ensures
            match r {
                Some(i) => number_place(*self, views(segments@)) == Some(i as int) && i
                    < segments@.len(),
                None => number_place(*self, views(segments@)) is None,
            },
    {
        let ghost v = views(segments@);
        match self {
            GitHost::GitHub => {
                if segments.len() >= 4 {
                    assert(v[2] == segments@[2]@);
                    if same_ignoring_ascii_case(segments[2].as_str(), "pull") {
                        return Some(3);
                    }
                }
                None
            },
            GitHost::GitLab => {
                if segments.len() >= 5 {
                    assert(v[2] == segments@[2]@ && v[3] == segments@[3]@);
                    if same(segments[2].as_str(), "-") && same(
                        segments[3].as_str(),
                        "merge_requests",
                    ) {
                        return Some(4);
                    }
                }
                None
            },
            GitHost::Bitbucket => {
                if segments.len() >= 4 {
                    assert(v[2] == segments@[2]@);
                    if same(segments[2].as_str(), "pull-requests") {
                        return Some(3);
                    }
                }
                None
            },
        }
    }
}

// ---------------------------------------------------------------------------
// Pull request addresses

/// An owner and a repository are named by ASCII letters, digits, `.`, `_` and
/// `-`, at least one, without two dots in a row.
pub open spec fn safe_name(s: Seq<char>) -> bool {
    &&& s.len() > 0
    &&& !contains(s, ".."@)
    &&& forall|i: int| 0 <= i < s.len() ==> name_char(#[trigger] s[i])
}

pub open spec fn name_char(c: char) -> bool {
    is_ascii_alphanumeric(c) || c == '.' || c == '_' || c == '-'
}

/// A pull request: owner, repository and number.
pub type PullView = (Seq<char>, Seq<char>, u64);

/// The first segment from `from` on that holds two dots in a row.
pub open spec fn dotted(segments: Seq<Seq<char>>, from: int) -> Option<Seq<char>>
    decreases segments.len() - from,
{
    if from < 0 || from >= segments.len() {
        None
    } else if contains(segments[from], ".."@) {
        Some(segments[from])
    } else {
        dotted(segments, from + 1)
    }
}

/// The pull request that the decoded segments of a path name, or what is wrong
/// with them.
pub open spec fn pull_of_segments(host: GitHost, segments: Seq<Seq<char>>) -> Result<
    PullView,
    Seq<char>,
> {
    match number_place(host, segments) {
        None => Err(
            "URL path must be "@ + path_form(host) + " for "@ + host_name(host) + ", got '/"@
                + join(segments, "/"@) + "'"@,
        ),
        Some(at) => match read_unsigned(segments[at], u64::MAX as nat) {
            Err(e) => Err("Invalid PR number '"@ + segments[at] + "': "@ + e.words()),
            Ok(n) => if !safe_name(segments[0]) {
                Err("Invalid owner '"@ + segments[0] + "'"@)
            } else if !safe_name(segments[1]) {
                Err("Invalid repo '"@ + segments[1] + "'"@)
            } else {
                match dotted(segments, 2) {
                    Some(s) => Err("Invalid path segment '"@ + s + "'"@),
                    None => Ok((segments[0], segments[1], n as u64)),
                }
            },
        },
    }
}

/// The segments with their percent escapes decoded; the first that is not UTF-8
/// is an error.
pub open spec fn decoded(segments: Seq<Seq<char>>) -> Result<Seq<Seq<char>>, Seq<char>>
    decreases segments.len(),
{
    if segments.len() == 0 {
        Ok(Seq::empty())
    } else {
        match decoded(segments.drop_last()) {
            Err(e) => Err(e),
            Ok(front) => match percent_decoded(segments.last()) {
                Some(s) => Ok(front.push(s)),
                None => Err("Path segment contains invalid UTF-8: '"@ + segments.last() + "'"@),
            },
        }
    }
}

/// The pull request that the parts of a URL name.
pub open spec fn pull_of_parts(url: UrlView) -> Result<PullView, Seq<char>> {
    if url.scheme != "https"@ {
        Err("URL scheme must be https, got '"@ + url.scheme + "'"@)
    } else {
        let name = match url.host {
            Some(h) => h,
            None => ""@,
        };
        match host_of(name) {
            None => Err(unknown_host(name)),
            Some(host) => {
                let raw = match url.segments {
                    Some(s) => s,
                    None => Seq::empty(),
                };
                match decoded(raw) {
                    Err(e) => Err(e),
                    Ok(segments) => pull_of_segments(host, segments),
                }
            },
        }
    }
}

/// `s` without the slashes at its end.
pub open spec fn without_slashes(s: Seq<char>) -> Seq<char>
    decreases s.len(),
{
    if s.len() > 0 && s.last() == '/' {
        without_slashes(s.drop_last())
    } else {
        s
    }
}

/// The pull request that an address names, or what is wrong with it.
pub open spec fn pull_of_url(url: Seq<char>) -> Result<PullView, Seq<char>> {
    let trimmed = without_slashes(url);
    match url_parsed(trimmed) {
        Err(_) => Err(
            "Invalid URL: expected https://github.com/owner/repo/pull/N, got '"@ + trimmed + "'"@,
        ),
        Ok(parts) => pull_of_parts(parts),
    }
}

/// The view of a parsed pull request address.
pub open spec fn pull_view(r: Result<(String, String, u64), String>) -> Result<
    PullView,
    Seq<char>,
> {
    match r {
        Ok((owner, repo, number)) => Ok((owner@, repo@, number)),
        Err(e) => Err(e@),
    }
}

/// `s` without the slashes at its end.
pub fn trim_slashes(s: &str) -> (r: String)
    ensures
        r@ == without_slashes(s@),
{
    let v = chars_of(s);
    let mut i: usize = v.len();
    assert(v@.subrange(0, v@.len() as int) =~= v@);
    while i > 0 && v[i - 1] == '/'
        invariant
            i <= v@.len(),
            without_slashes(v@) == without_slashes(v@.subrange(0, i as int)),
        decreases i,
    {
        assert(v@.subrange(0, i as int).drop_last() =~= v@.subrange(0, i - 1));
        i -= 1;
    }
    text_between(&v, 0, i)
}

fn is_safe_name(s: &str) -> (r: bool)
    ensures
        r == safe_name(s@),
{
    if text_contains(s, "..") {
        return false;
    }
    let v = chars_of(s);
    let mut i: usize = 0;
    while i < v.len()
        invariant
            i <= v@.len(),
            v@ == s@,
            forall|j: int| 0 <= j < i ==> name_char(#[trigger] s@[j]),
        decreases v@.len() - i,
    {
        let c: char = v[i];
        if !(ascii_alphanumeric(c) || c == '.' || c == '_' || c == '-') {
            assert(!name_char(s@[i as int]));
            return false;
        }
        i += 1;
    }
    v.len() > 0
}

fn quoted(front: &str, middle: &str) -> (r: String)
    ensures
        r@ == front@ + middle@ + "'"@,
{
    let mut e = front.to_owned();
    e.push_str(middle);
    e.push_str("'");
    e
}

/// The pull request that the decoded segments of a path name.
pub fn parse_segments(host: GitHost, segments: &Vec<String>) -> (r: Result<
    (String, String, u64),
    String,
>)
    ensures
        pull_view(r) == pull_of_segments(host, views(segments@)),
{
    let ghost v = views(segments@);
    let at: usize = match host.path_format(segments) {
        Some(i) => i,
        None => {
            let (form, name) = match host {
                GitHost::GitHub => ("/owner/repo/pull/N", "github.com"),
                GitHost::GitLab => ("/owner/repo/-/merge_requests/N", "gitlab.com"),
                GitHost::Bitbucket => ("/owner/repo/pull-requests/N", "bitbucket.org"),
            };
            let mut e = "URL path must be ".to_owned();
            e.push_str(form);
            e.push_str(" for ");
            e.push_str(name);
            e.push_str(", got '/");
            e.push_str(text_join(segments, "/").as_str());
            e.push_str("'");
            return Err(e);
        },
    };
    assert(v[at as int] == segments@[at as int]@);
    assert(v[0] == segments@[0]@ && v[1] == segments@[1]@);
    let number: u64 = match parse_u64(segments[at].as_str()) {
        Ok(n) => n,
        Err(cause) => {
            let mut e = "Invalid PR number '".to_owned();
            e.push_str(segments[at].as_str());
            e.push_str("': ");
            e.push_str(cause.message().as_str());
            return Err(e);
        },
    };
    if !is_safe_name(segments[0].as_str()) {
        return Err(quoted("Invalid owner '", segments[0].as_str()));
    }
    if !is_safe_name(segments[1].as_str()) {
        return Err(quoted("Invalid repo '", segments[1].as_str()));
    }
    let mut i: usize = 2;
    while i < segments.len()
        invariant
            2 <= i <= segments@.len(),
            v == views(segments@),
            dotted(v, 2) == dotted(v, i as int),
            number_place(host, v) == Some(at as int),
            read_unsigned(v[at as int], u64::MAX as nat) == Ok::<nat, NumberError>(number as nat),
            safe_name(v[0]),
            safe_name(v[1]),
        decreases segments@.len() - i,
    {
        assert(v[i as int] == segments@[i as int]@);
        if text_contains(segments[i].as_str(), "..") {
            return Err(quoted("Invalid path segment '", segments[i].as_str()));
        }
        i += 1;
    }
    Ok((segments[0].clone(), segments[1].clone(), number))
}

/// The segments with their percent escapes decoded.
fn decode_segments(segments: &Vec<String>) -> (r: Result<Vec<String>, String>)
    ensures
        match r {
            Ok(s) => decoded(views(segments@)) == Ok::<Seq<Seq<char>>, Seq<char>>(views(s@)),
            Err(e) => decoded(views(segments@)) == Err::<Seq<Seq<char>>, Seq<char>>(e@),
        },
{
    let ghost all = views(segments@);
    let mut out: Vec<String> = Vec::new();
    let mut i: usize = 0;
    assert(views(out@) =~= Seq::<Seq<char>>::empty());
    while i < segments.len()
        invariant
            i <= segments@.len(),
            all == views(segments@),
            decoded(all.take(i as int)) == Ok::<Seq<Seq<char>>, Seq<char>>(views(out@)),
        decreases segments@.len() - i,
    {
        assert(all.take(i + 1).drop_last() =~= all.take(i as int));
        assert(all.take(i + 1).last() == segments@[i as int]@);
        match percent_decode(segments[i].as_str()) {
            Some(s) => {
                proof {
                    lemma_views_push(out@, s);
                }
                out.push(s);
            },
            None => {
                let e = quoted("Path segment contains invalid UTF-8: '", segments[i].as_str());
                proof {
                    lemma_decoded_error(all, i + 1);
                }
                return Err(e);
            },
        }
        i += 1;
    }
    assert(all.take(i as int) =~= all);
    Ok(out)
}

/// An error among the first segments is the error of all of them.
proof fn lemma_decoded_error(segments: Seq<Seq<char>>, n: int)
    requires
        0 <= n <= segments.len(),
        decoded(segments.take(n)) is Err,
    ensures
        decoded(segments) == decoded(segments.take(n)),
    decreases segments.len() - n,
{
    if n < segments.len() {
        assert(segments.take(n + 1).drop_last() =~= segments.take(n));
        lemma_decoded_error(segments, n + 1);
    } else {
        assert(segments.take(n) =~= segments);
    }
}

/// The pull request that the parts of a URL name.
pub fn parse_parts(parts: &UrlParts) -> (r: Result<(String, String, u64), String>)
    ensures
        pull_view(r) == pull_of_parts(parts@),
{
    if !same(parts.scheme.as_str(), "https") {
        return Err(quoted("URL scheme must be https, got '", parts.scheme.as_str()));
    }
    let name = match &parts.host {
        Some(h) => h.as_str(),
        None => "",
    };
    let host = match GitHost::from_host(name) {
        Ok(h) => h,
        Err(e) => {
            return Err(e);
        },
    };
    let decoded_segments = match &parts.segments {
        Some(s) => decode_segments(s),
        None => {
            let none: Vec<String> = Vec::new();
            assert(views(none@) =~= Seq::<Seq<char>>::empty());
            Ok(none)
        },
    };
    match decoded_segments {
        Ok(segments) => parse_segments(host, &segments),
        Err(e) => Err(e),
    }
}

/// Reads the address of a pull request on GitHub, GitLab or Bitbucket as owner,
/// repository and number. Further path segments behind the number are let pass.
pub fn parse_pr_url(url_str: &str) -> (r: Result<(String, String, u64), String>)
    ensures
        pull_view(r) == pull_of_url(url_str@),
{
    let trimmed = trim_slashes(url_str);
    match parse_url(trimmed.as_str()) {
        Ok(parts) => parse_parts(&parts),
        Err(_) => Err(
            quoted(
                "Invalid URL: expected https://github.com/owner/repo/pull/N, got '",
                trimmed.as_str(),
            ),
        ),
    }
}

/// Whatever address is accepted, its owner and its repository are safe to put
/// into the path of another address: no slash, no percent sign and no two dots
/// in a row.
pub proof fn accepted_names_are_safe(url: Seq<char>)
    requires
        pull_of_url(url) is Ok,
    ensures
        ({
            let (owner, repo, number) = pull_of_url(url)->Ok_0;
            &&& safe_name(owner) && !owner.contains('/') && !owner.contains('%')
            &&& safe_name(repo) && !repo.contains('/') && !repo.contains('%')
        }),
{
    let (owner, repo, number) = pull_of_url(url)->Ok_0;
    assert(safe_name(owner) && safe_name(repo));
    assert(!name_char('/') && !name_char('%'));
    assert(!owner.contains('/') && !repo.contains('/'));
    assert(!owner.contains('%') && !repo.contains('%'));
}

/// The case of ASCII letters does not matter in the name of a host.
pub proof fn case_of_hosts_does_not_matter(a: Seq<char>, b: Seq<char>)
    requires
        all_ascii(a),
        all_ascii(b),
        ascii_lower(a) == ascii_lower(b),
    ensures
        host_of(a) == host_of(b),
{
}

/// The segments of the path that names a pull request on a host, before any
/// further segments.
pub open spec fn pull_path(host: GitHost, owner: Seq<char>, repo: Seq<char>, number: u64) -> Seq<
    Seq<char>,
> {
    match host {
        GitHost::GitHub => seq![owner, repo, "pull"@, decimal(number as nat)],
        GitHost::GitLab => seq![owner, repo, "-"@, "merge_requests"@, decimal(number as nat)],
        GitHost::Bitbucket => seq![owner, repo, "pull-requests"@, decimal(number as nat)],
    }
}

/// The path that names a pull request is read back as that pull request,
/// whatever segments without two dots in a row follow it.
pub proof fn pull_path_reads_back(
    host: GitHost,
    owner: Seq<char>,
    repo: Seq<char>,
    number: u64,
    more: Seq<Seq<char>>,
)
    requires
        safe_name(owner),
        safe_name(repo),
        forall|i: int| 0 <= i < more.len() ==> !contains(#[trigger] more[i], ".."@),
    ensures
        pull_of_segments(host, pull_path(host, owner, repo, number) + more) == Ok::<
            PullView,
            Seq<char>,
        >((owner, repo, number)),
{
    let path = pull_path(host, owner, repo, number);
    let segments = path + more;
    let at = path.len() - 1;
    let digits = decimal(number as nat);
    decimal_reads_back(number as nat, u64::MAX as nat);
    assert(segments[0] == owner && segments[1] == repo && segments[at] == digits);
    assert forall|i: int| 2 <= i < segments.len() implies !contains(#[trigger] segments[i], ".."@) by {
        reveal_strlit("..");
        if i >= path.len() {
            assert(segments[i] == more[i - path.len()]);
        } else if i == at {
            decimal_is_digits(number as nat);
            if contains(digits, ".."@) {
                let k = choose|k: int| occurs_at(digits, ".."@, k);
                assert(digits.subrange(k, k + 2)[0] == digits[k]);
                assert(is_digit(digits[k]));
            }
        } else {
            reveal_strlit("pull");
            reveal_strlit("-");
            reveal_strlit("merge_requests");
            reveal_strlit("pull-requests");
            let s = segments[i];
            if contains(s, ".."@) {
                let k = choose|k: int| occurs_at(s, ".."@, k);
                assert(s.subrange(k, k + 2)[0] == s[k]);
            }
        }
    }
    lemma_not_dotted(segments, 2);
}

proof fn lemma_not_dotted(segments: Seq<Seq<char>>, from: int)
    requires
        0 <= from,
        forall|i: int| from <= i < segments.len() ==> !contains(#[trigger] segments[i], ".."@),
    ensures
        dotted(segments, from) is None,
    decreases segments.len() - from,
{
    if from < segments.len() {
        lemma_not_dotted(segments, from + 1);
    }
}

// ---------------------------------------------------------------------------
// Endpoints

/// The address that the API is reached at: the configured one without the
/// slashes at its end, which must be a URL, or the public one.
pub open spec fn api_base_of(base_url: Seq<char>) -> Result<Seq<char>, Seq<char>> {
    if base_url.len() == 0 {
        Ok(GITHUB_API_BASE@)
    } else {
        match url_parsed(without_slashes(base_url)) {
            Ok(_) => Ok(without_slashes(base_url)),
            Err(e) => Err("Invalid github.base_url '"@ + base_url + "': "@ + e),
        }
    }
}

/// The address that the API is reached at.
pub fn api_base(base_url: &str) -> (r: Result<String, AgentError>)
    ensures
        match r {
            Ok(base) => api_base_of(base_url@) == Ok::<Seq<char>, Seq<char>>(base@),
            Err(e) => e matches AgentError::Config(m) && api_base_of(base_url@) == Err::<
                Seq<char>,
                Seq<char>,
            >(m@),
        },
{
    if base_url.is_empty() {
        return Ok(GITHUB_API_BASE.to_owned());
    }
    let trimmed = trim_slashes(base_url);
    match parse_url(trimmed.as_str()) {
        Ok(_) => Ok(trimmed),
        Err(cause) => {
            let mut m = "Invalid github.base_url '".to_owned();
            m.push_str(base_url);
            m.push_str("': ");
            m.push_str(cause.as_str());
            Err(AgentError::Config(m))
        },
    }
}

pub open spec fn repo_path(base: Seq<char>, owner: Seq<char>, repo: Seq<char>) -> Seq<char> {
    base + "/repos/"@ + owner + "/"@ + repo
}

fn repo_url(base: &str, owner: &str, repo: &str) -> (r: String)
    ensures
        r@ == repo_path(base@, owner@, repo@),
{
    let mut url = base.to_owned();
    url.push_str("/repos/");
    url.push_str(owner);
    url.push_str("/");
    url.push_str(repo);
    url
}

/// The address of a pull request.
pub open spec fn pull_address(base: Seq<char>, owner: Seq<char>, repo: Seq<char>, number: u64) -> Seq<
    char,
> {
    repo_path(base, owner, repo) + "/pulls/"@ + decimal(number as nat)
}

/// The address of the reviews of a pull request.
pub open spec fn reviews_address(
    base: Seq<char>,
    owner: Seq<char>,
    repo: Seq<char>,
    number: u64,
) -> Seq<char> {
    pull_address(base, owner, repo, number) + "/reviews"@
}

/// The address of the comments on a pull request.
pub open spec fn comments_address(
    base: Seq<char>,
    owner: Seq<char>,
    repo: Seq<char>,
    number: u64,
) -> Seq<char> {
    repo_path(base, owner, repo) + "/issues/"@ + decimal(number as nat) + "/comments"@
}

/// The address of a comment.
pub open spec fn comment_address(
    base: Seq<char>,
    owner: Seq<char>,
    repo: Seq<char>,
    comment_id: u64,
) -> Seq<char> {
    repo_path(base, owner, repo) + "/issues/comments/"@ + decimal(comment_id as nat)
}

/// Every address lies below that of its repository and ends with what it is for: the
/// number of the pull request, its reviews or its comments, or the number of a comment.
pub proof fn addresses_lie_below_the_repository(
    base: Seq<char>,
    owner: Seq<char>,
    repo: Seq<char>,
    number: u64,
)
    ensures
        ({
            let front = base + "/repos/"@ + owner + "/"@ + repo + "/"@;
            let n = decimal(number as nat);
            &&& pull_address(base, owner, repo, number) == front + "pulls/"@ + n
            &&& reviews_address(base, owner, repo, number) == front + "pulls/"@ + n + "/reviews"@
            &&& comments_address(base, owner, repo, number) == front + "issues/"@ + n + "/comments"@
            &&& comment_address(base, owner, repo, number) == front + "issues/comments/"@ + n
        }),
{
    reveal_strlit("/");
    reveal_strlit("/pulls/");
    reveal_strlit("pulls/");
    reveal_strlit("/issues/");
    reveal_strlit("issues/");
    reveal_strlit("/issues/comments/");
    reveal_strlit("issues/comments/");
    let front = base + "/repos/"@ + owner + "/"@ + repo + "/"@;
    let n = decimal(number as nat);
    assert("/pulls/"@ =~= "/"@ + "pulls/"@);
    assert("/issues/"@ =~= "/"@ + "issues/"@);
    assert("/issues/comments/"@ =~= "/"@ + "issues/comments/"@);
    assert(pull_address(base, owner, repo, number) =~= front + "pulls/"@ + n);
    assert(reviews_address(base, owner, repo, number) =~= front + "pulls/"@ + n + "/reviews"@);
    assert(comments_address(base, owner, repo, number) =~= front + "issues/"@ + n + "/comments"@);
    assert(comment_address(base, owner, repo, number) =~= front + "issues/comments/"@ + n);
}

/// Where the metadata and the diff of a pull request are read.
pub fn pull_url(base: &str, owner: &str, repo: &str, number: u64) -> (r: String)
    ensures
        r@ == pull_address(base@, owner@, repo@, number),
        r@ == repo_path(base@, owner@, repo@) + "/pulls/"@ + decimal(number as nat),
{
    let mut url = repo_url(base, owner, repo);
    url.push_str("/pulls/");
    url.push_str(decimal_of(number).as_str());
    url
}

/// Where a review of a pull request is posted.
pub fn reviews_url(base: &str, owner: &str, repo: &str, number: u64) -> (r: String)
    ensures
        r@ == reviews_address(base@, owner@, repo@, number),
        r@ == repo_path(base@, owner@, repo@) + "/pulls/"@ + decimal(number as nat) + "/reviews"@,
{
    let mut url = pull_url(base, owner, repo, number);
    url.push_str("/reviews");
    url
}

/// Where the comments on a pull request are listed.
pub fn comments_url(base: &str, owner: &str, repo: &str, number: u64) -> (r: String)
    ensures
        r@ == comments_address(base@, owner@, repo@, number),
        r@ == repo_path(base@, owner@, repo@) + "/issues/"@ + decimal(number as nat) + "/comments"@,
{
    let mut url = repo_url(base, owner, repo);
    url.push_str("/issues/");
    url.push_str(decimal_of(number).as_str());
    url.push_str("/comments");
    url
}

/// Where a comment is edited.
pub fn comment_url(base: &str, owner: &str, repo: &str, comment_id: u64) -> (r: String)
    ensures
        r@ == comment_address(base@, owner@, repo@, comment_id),
        r@ == repo_path(base@, owner@, repo@) + "/issues/comments/"@ + decimal(comment_id as nat),
{
    let mut url = repo_url(base, owner, repo);
    url.push_str("/issues/comments/");
    url.push_str(decimal_of(comment_id).as_str());
    url
}

/// The value of an authorization header.
pub fn bearer(token: &str) -> (r: String)
    ensures
        r@ == "Bearer "@ + token@,
{
    let mut value = "Bearer ".to_owned();
    value.push_str(token);
    value
}

// ---------------------------------------------------------------------------
// Data

/// A pull request as the API describes it.
pub struct PullRequest {
    pub number: u64,
    pub title: String,
    pub body: Option<String>,
    /// The login of the author.
    pub author: Option<String>,
    /// The name of the branch to merge.
    pub head_ref: String,
    /// The name of the branch to merge into.
    pub base_ref: String,
}

/// A comment on a pull request.
pub struct Comment {
    pub id: u64,
    pub body: Option<String>,
}

/// What a review says about the change as a whole.
#[derive(Debug, Clone, Copy, PartialEq, Eq, Structural)]
pub enum ReviewEvent {
    Comment,
}

impl ReviewEvent {
    /// The word that the API uses.
    pub fn as_str(&self) -> (r: &'static str)
        ensures
            r@ == "COMMENT"@,
    {
        match self {
            ReviewEvent::Comment => "COMMENT",
        }
    }
}

/// The body of a request that posts a review.
pub struct ReviewBody {
    pub body: String,
    pub event: Option<String>,
    pub commit_id: Option<String>,
}

/// The body of a request that posts a review.
pub fn review_body(body: &str, event: Option<ReviewEvent>) -> (r: ReviewBody)
    ensures
        r.body@ == body@,
        opt_view(r.event) == match event {
            Some(_) => Some("COMMENT"@),
            None => None,
        },
        r.commit_id is None,
{
    let event = match event {
        Some(e) => Some(e.as_str().to_owned()),
        None => None,
    };
    ReviewBody { body: body.to_owned(), event, commit_id: None }
}

/// Whether a comment holds the marker.
pub open spec fn is_marked(c: Comment, marker: Seq<char>) -> bool {
    c.body matches Some(b) && contains(b@, marker)
}

/// The first comment that holds the marker, of a list that names the most
/// recent comment first.
pub fn find_comment(comments: &Vec<Comment>, marker: &str) -> (r: Option<usize>)
    ensures
        match r {
            Some(i) => i < comments@.len() && is_marked(comments@[i as int], marker@) && forall|
                j: int,
            |
                0 <= j < i ==> !is_marked(#[trigger] comments@[j], marker@),
            None => forall|j: int|
                0 <= j < comments@.len() ==> !is_marked(#[trigger] comments@[j], marker@),
        },
{
    let mut i: usize = 0;
    while i < comments.len()
        invariant
            i <= comments@.len(),
            forall|j: int| 0 <= j < i ==> !is_marked(#[trigger] comments@[j], marker@),
        decreases comments@.len() - i,
    {
        let found = match &comments[i].body {
            Some(b) => text_contains(b.as_str(), marker),
            None => false,
        };
        if found {
            return Some(i);
        }
        i += 1;
    }
    None
}

// ---------------------------------------------------------------------------
// Answers

/// Whether a refused request ran into the rate limit: the header tells, or
/// where it is missing the body.
pub open spec fn rate_limited(body: Seq<char>, remaining: Option<Seq<char>>) -> bool {
    match remaining {
        Some(n) => n == "0"@,
        None => contains(body, "rate limit"@),
    }
}

/// The words for an answer that is no success.
pub open spec fn failure_words(status: u16, body: Seq<char>, remaining: Option<Seq<char>>) -> Seq<
    char,
> {
    if status == 401 || status == 403 {
        if rate_limited(body, remaining) {
            "GitHub API rate limit exceeded"@
        } else {
            "GitHub API authentication failed ("@ + status_words(status) + "): "@ + body
        }
    } else if status == 404 {
        "GitHub resource not found (404): "@ + body
    } else if 500 <= status <= 599 || status == 429 {
        "GitHub API transient error ("@ + status_words(status) + "): "@ + body
    } else {
        "GitHub API error ("@ + status_words(status) + "): "@ + body
    }
}

fn with_status(front: &str, status: u16, body: &str) -> (r: String)
    requires
        100 <= status <= 999,
    ensures
        r@ == front@ + status_words(status) + "): "@ + body@,
{
    let mut m = front.to_owned();
    m.push_str(status_text(status).as_str());
    m.push_str("): ");
    m.push_str(body);
    m
}

/// The error for an answer that is no success. The header
/// `X-RateLimit-Remaining` tells a rate limit from a refusal; without it the
/// body does.
pub fn classify_error(status: u16, body: &str, rate_limit_remaining: Option<&str>) -> (r:
    AgentError)
    requires
        100 <= status <= 999,
    ensures
        r matches AgentError::GitHub(m) && m@ == failure_words(
            status,
            body@,
            match rate_limit_remaining {
                Some(n) => Some(n@),
                None => None,
            },
        ),
{
    let message = if status == 401 || status == 403 {
        let limited = match rate_limit_remaining {
            Some(n) => same(n, "0"),
            None => text_contains(body, "rate limit"),
        };
        if limited {
            "GitHub API rate limit exceeded".to_owned()
        } else {
            with_status("GitHub API authentication failed (", status, body)
        }
    } else if status == 404 {
        let mut m = "GitHub resource not found (404): ".to_owned();
        m.push_str(body);
        m
    } else if (500 <= status && status <= 599) || status == 429 {
        with_status("GitHub API transient error (", status, body)
    } else {
        with_status("GitHub API error (", status, body)
    };
    AgentError::GitHub(message)
}

/// The body of an answer, or the error that the answer means.
pub fn read_answer(status: u16, body: String, rate_limit_remaining: Option<&str>) -> (r: Result<
    String,
    AgentError,
>)
    requires
        100 <= status <= 999,
    ensures
        success_status(status) ==> r == Ok::<String, AgentError>(body),
        !success_status(status) ==> (r matches Err(AgentError::GitHub(m)) && m@ == failure_words(
            status,
            body@,
            match rate_limit_remaining {
                Some(n) => Some(n@),
                None => None,
            },
        )),
{
    if is_success(status) {
        Ok(body)
    } else {
        Err(classify_error(status, body.as_str(), rate_limit_remaining))
    }
}

/// Exactly rate limits and server errors are worth a second attempt.
pub proof fn transient_answers(
    status: u16,
    body: Seq<char>,
    remaining: Option<Seq<char>>,
    error: AgentError,
)
    requires
        100 <= status <= 999,
        error matches AgentError::GitHub(m) && m@ == failure_words(status, body, remaining),
    ensures
        error.transient() <==> (status == 429 || 500 <= status <= 599 || ((status == 401 || status
            == 403) && rate_limited(body, remaining))),
{
    let words = failure_words(status, body, remaining);
    reveal_strlit("GitHub API transient error");
    reveal_strlit("GitHub API rate limit exceeded");
    reveal_strlit("GitHub API error (5");
    reveal_strlit("GitHub API error (429)");
    let transient = "GitHub API transient error"@;
    let limit = "GitHub API rate limit exceeded"@;
    let server = "GitHub API error (5"@;
    let many = "GitHub API error (429)"@;
    assert forall|pat: Seq<char>, k: int|
        0 <= k < pat.len() && #[trigger] starts_with(words, pat) implies #[trigger] pat[k]
        == words[k] by {
        assert(words.subrange(0, pat.len() as int)[k] == words[k]);
    }
    if status == 401 || status == 403 {
        if rate_limited(body, remaining) {
            assert(words.subrange(0, limit.len() as int) =~= limit);
        } else {
            reveal_strlit("GitHub API authentication failed (");
            assert(words[11] == 'a');
            assert(transient[11] == 't' && limit[11] == 'r' && server[11] == 'e' && many[11] == 'e');
        }
    } else if status == 404 {
        reveal_strlit("GitHub resource not found (404): ");
        assert(words[7] == 'r');
        assert(transient[7] == 'A' && limit[7] == 'A' && server[7] == 'A' && many[7] == 'A');
    } else if 500 <= status <= 599 || status == 429 {
        reveal_strlit("GitHub API transient error (");
        assert(words.subrange(0, transient.len() as int) =~= transient);
    } else {
        reveal_strlit("GitHub API error (");
        reveal_strlit(" ");
        status_digits(status as nat);
        let digits = decimal(status as nat);
        assert(words[11] == 'e' && words[18] == digits[0] && words[21] == ' ');
        assert(transient[11] == 't' && limit[11] == 'r');
        assert(server[18] == '5' && many[21] == ')');
        assert(digits[0] == digit_char(status as nat / 100));
    }
}

/// Decoding takes each segment by itself.
pub proof fn segments_are_decoded_one_by_one(segments: Seq<Seq<char>>)
    ensures
        match decoded(segments) {
            Ok(out) => out.len() == segments.len() && forall|i: int|
                0 <= i < segments.len() ==> percent_decoded(segments[i]) == Some(#[trigger] out[i]),
            Err(_) => exists|i: int|
                0 <= i < segments.len() && percent_decoded(#[trigger] segments[i]) is None,
        },
    decreases segments.len(),
{
    if segments.len() > 0 {
        let front = segments.drop_last();
        segments_are_decoded_one_by_one(front);
        match decoded(front) {
            Ok(out) => {
                if decoded(segments) is Err {
                    assert(percent_decoded(segments[segments.len() - 1]) is None);
                }
            },
            Err(_) => {
                let i = choose|i: int|
                    0 <= i < front.len() && percent_decoded(#[trigger] front[i]) is None;
                assert(percent_decoded(segments[i]) is None);
            },
        }
    }
}

/// An address that is accepted is one of a pull request: it is secure, its host is a
/// known one, the first two segments of its path are the owner and the repository, the
/// words of the host stand behind them, and behind these the number.
pub proof fn only_addresses_of_pull_requests_are_accepted(url: UrlView, pull: PullView)
    requires
        pull_of_parts(url) == Ok::<PullView, Seq<char>>(pull),
    ensures
        url.scheme == "https"@,
        url.host is Some && host_of(url.host.unwrap()) is Some,
        url.segments is Some && decoded(url.segments.unwrap()) is Ok,
        ({
            let name = url.host.unwrap();
            let path = decoded(url.segments.unwrap())->Ok_0;
            &&& path.len() >= 4
            &&& path[0] == pull.0
            &&& path[1] == pull.1
            &&& safe_name(pull.0) && safe_name(pull.1)
            &&& host_of(name) == Some(GitHost::GitHub) ==> ascii_lower(path[2]) == ascii_lower(
                "pull"@,
            ) && read_unsigned(path[3], u64::MAX as nat) == Ok::<nat, NumberError>(pull.2 as nat)
            &&& host_of(name) == Some(GitHost::GitLab) ==> path.len() >= 5 && path[2] == "-"@
                && path[3] == "merge_requests"@ && read_unsigned(path[4], u64::MAX as nat) == Ok::<
                nat,
                NumberError,
            >(pull.2 as nat)
            &&& host_of(name) == Some(GitHost::Bitbucket) ==> path[2] == "pull-requests"@
                && read_unsigned(path[3], u64::MAX as nat) == Ok::<nat, NumberError>(pull.2 as nat)
        }),
{
    reveal_strlit("");
    reveal_strlit("github.com");
    reveal_strlit("www.github.com");
    reveal_strlit("gitlab.com");
    reveal_strlit("bitbucket.org");
    if url.host is None {
        assert(host_of(""@) is None) by {
            assert(all_ascii(""@));
            assert(ascii_lower(""@).len() == 0);
            assert(lowercased(""@) == ascii_lower(""@));
        }
    }
    lemma_read_bounded();
}

proof fn lemma_read_bounded()
    ensures
        forall|s: Seq<char>|
            #![trigger read_unsigned(s, u64::MAX as nat)]
            read_unsigned(s, u64::MAX as nat) matches Ok(n) ==> n <= u64::MAX,
{
    assert forall|s: Seq<char>|
        #![trigger read_unsigned(s, u64::MAX as nat)]
        read_unsigned(s, u64::MAX as nat) matches Ok(n) implies read_unsigned(
        s,
        u64::MAX as nat,
    )->Ok_0 <= u64::MAX by {
        read_numbers_fit(s, u64::MAX as nat);
    }
}

/// The three hosts are known by their names, and the first of them by a second one.
pub proof fn hosts_go_by_their_names(name: Seq<char>)
    ensures
        lowercased(name) == "github.com"@ ==> host_of(name) == Some(GitHost::GitHub),
        lowercased(name) == "www.github.com"@ ==> host_of(name) == Some(GitHost::GitHub),
        lowercased(name) == "gitlab.com"@ ==> host_of(name) == Some(GitHost::GitLab),
        lowercased(name) == "bitbucket.org"@ ==> host_of(name) == Some(GitHost::Bitbucket),
        host_of(name) is Some ==> lowercased(name) == "github.com"@ || lowercased(name)
            == "www.github.com"@ || lowercased(name) == "gitlab.com"@ || lowercased(name)
            == "bitbucket.org"@,
{
    reveal_strlit("github.com");
    reveal_strlit("www.github.com");
    reveal_strlit("gitlab.com");
    reveal_strlit("bitbucket.org");
    assert("github.com"@.len() == 10 && "github.com"@[3] == 'h' && "gitlab.com"@[3] == 'l');
    assert("www.github.com"@.len() == 14 && "gitlab.com"@.len() == 10 && "bitbucket.org"@.len()
        == 13);
}

/// Slashes at the end of an address come off, all of them and nothing else.
pub proof fn slashes_at_the_end_come_off(s: Seq<char>)
    ensures
        exists|n: int|
            {
                &&& 0 <= n <= s.len()
                &&& without_slashes(s) == #[trigger] s.subrange(0, n)
                &&& forall|i: int| n <= i < s.len() ==> #[trigger] s[i] == '/'
            },
        without_slashes(s).len() > 0 ==> without_slashes(s).last() != '/',
    decreases s.len(),
{
    if s.len() > 0 && s.last() == '/' {
        let front = s.drop_last();
        slashes_at_the_end_come_off(front);
        let n = choose|n: int|
            {
                &&& 0 <= n <= front.len()
                &&& without_slashes(front) == #[trigger] front.subrange(0, n)
                &&& forall|i: int| n <= i < front.len() ==> #[trigger] front[i] == '/'
            };
        assert(front.subrange(0, n) =~= s.subrange(0, n));
        assert forall|i: int| n <= i < s.len() implies #[trigger] s[i] == '/' by {
            if i < front.len() {
                assert(front[i] == s[i]);
            }
        }
    } else {
        assert(s.subrange(0, s.len() as int) =~= s);
    }
}

/// An answer that is no success tells its body, and where it is no rate limit its
/// status.
pub proof fn errors_tell_status_and_body(
    status: u16,
    body: Seq<char>,
    remaining: Option<Seq<char>>,
)
    requires
        100 <= status <= 999,
        !((status == 401 || status == 403) && rate_limited(body, remaining)),
    ensures
        ends_with(failure_words(status, body, remaining), body),
        status != 404 ==> contains(failure_words(status, body, remaining), status_words(status)),
        status == 404 ==> starts_with(
            failure_words(status, body, remaining),
            "GitHub resource not found (404)"@,
        ),
{
    let words = failure_words(status, body, remaining);
    assert(words.subrange(words.len() - body.len(), words.len() as int) =~= body);
    if status == 404 {
        reveal_strlit("GitHub resource not found (404): ");
        reveal_strlit("GitHub resource not found (404)");
        let front = "GitHub resource not found (404)"@;
        assert(words.subrange(0, front.len() as int) =~= front);
    } else {
        let front = if status == 401 || status == 403 {
            "GitHub API authentication failed ("@
        } else if 500 <= status <= 599 || status == 429 {
            "GitHub API transient error ("@
        } else {
            "GitHub API error ("@
        };
        parts_are_contained(front, status_words(status), "): "@ + body);
        assert(front + status_words(status) + ("): "@ + body) =~= words);
    }
}

/// A rate limit is told by the header where there is one, and else by the body.
pub proof fn rate_limits_are_told_by_the_header(body: Seq<char>, n: Seq<char>)
    ensures
        rate_limited(body, Some("0"@)),
        n != "0"@ ==> !rate_limited(body, Some(n)),
        rate_limited(body, None) <==> contains(body, "rate limit"@),
{
}

/// The API is reached at the public address unless another is named, which is taken
/// without the slashes at its end.
pub proof fn the_api_is_where_it_is_named(base_url: Seq<char>)
    ensures
        api_base_of(Seq::empty()) == Ok::<Seq<char>, Seq<char>>("https://api.github.com"@),
        base_url.len() > 0 ==> match api_base_of(base_url) {
            Ok(base) => base == without_slashes(base_url) && url_parsed(base) is Ok,
            Err(_) => url_parsed(without_slashes(base_url)) is Err,
        },
{
}

} // verus!
