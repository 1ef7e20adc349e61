use review_agent::error::AgentError;
use review_agent::github::{
    api_base, bearer, classify_error, comment_url, comments_url, find_comment, parse_pr_url,
    parse_segments, pull_url, read_answer, review_body, reviews_url, Comment, GitHost, ReviewEvent,
};
use review_agent::services::github_service::{sticky_marker, sticky_step, StickyStep};

#[test]
fn parse_valid_pr_url() {
    assert_eq!(
        parse_pr_url("https://github.com/devstroop/review-agent/pull/42").unwrap(),
        ("devstroop".into(), "review-agent".into(), 42)
    );
}

#[test]
fn parse_pr_url_with_trailing_slash() {
    assert_eq!(
        parse_pr_url("https://github.com/o/r/pull/7/").unwrap(),
        ("o".into(), "r".into(), 7)
    );
}

#[test]
fn parse_pr_url_with_query() {
    let (_owner, _repo, number) = parse_pr_url("https://github.com/a/b/pull/99?foo=bar").unwrap();
    assert_eq!(number, 99);
}

#[test]
fn parse_invalid_pr_url() {
    assert!(parse_pr_url("https://github.com/devstroop/review-agent").is_err());
    assert!(parse_pr_url("not-a-url").is_err());
    assert!(parse_pr_url("https://github.com/o/r/pull/abc").is_err());
}

#[test]
fn parse_pr_url_with_fragment() {
    let (owner, repo, number) = parse_pr_url("https://github.com/o/r/pull/7#section").unwrap();
    assert_eq!((owner.as_str(), repo.as_str(), number), ("o", "r", 7));
}

#[test]
fn parse_pr_url_extra_trailing_segments() {
    let (owner, repo, number) = parse_pr_url("https://github.com/o/r/pull/123/files").unwrap();
    assert_eq!((owner.as_str(), repo.as_str(), number), ("o", "r", 123));

    let (owner, repo, number) =
        parse_pr_url("https://github.com/o/r/pull/42/commits/abc123").unwrap();
    assert_eq!((owner.as_str(), repo.as_str(), number), ("o", "r", 42));
}

#[test]
fn parse_pr_url_wrong_host_rejected() {
    assert!(parse_pr_url("https://malicious.example.com/o/r/pull/1").is_err());
    assert!(parse_pr_url("https://evil.com/o/r/pull-requests/1").is_err());
}

#[test]
fn parse_pr_url_http_scheme_rejected() {
    assert!(parse_pr_url("http://github.com/o/r/pull/1").is_err());
    assert_eq!(
        parse_pr_url("http://github.com/o/r/pull/1").unwrap_err(),
        "URL scheme must be https, got 'http'"
    );
}

#[test]
fn parse_pr_url_case_insensitive_host() {
    assert_eq!(parse_pr_url("https://GITHUB.COM/o/r/pull/1").unwrap().2, 1);
    assert_eq!(parse_pr_url("https://Github.com/o/r/pull/1").unwrap().2, 1);
}

#[test]
fn parse_pr_url_www_subdomain() {
    let (owner, repo, number) = parse_pr_url("https://www.github.com/o/r/pull/1").unwrap();
    assert_eq!((owner.as_str(), repo.as_str(), number), ("o", "r", 1));
}

#[test]
fn parse_pr_url_percent_decoded_rejected() {
    assert!(parse_pr_url("https://github.com/user%2Fname/repo%2Btest/pull/1").is_err());
}

#[test]
fn parse_pr_url_case_insensitive_pull() {
    assert_eq!(parse_pr_url("https://github.com/o/r/Pull/1").unwrap().2, 1);
    assert_eq!(parse_pr_url("https://github.com/o/r/PULL/2").unwrap().2, 2);
    assert_eq!(parse_pr_url("https://github.com/o/r/pUlL/3").unwrap().2, 3);
}

#[test]
fn parse_pr_url_invalid_owner_rejected() {
    assert!(parse_pr_url("https://github.com//r/pull/1").is_err());
}

#[test]
fn parse_pr_url_invalid_repo_rejected() {
    assert!(parse_pr_url("https://github.com/o//pull/1").is_err());
}

#[test]
fn parse_pr_url_path_traversal_rejected() {
    assert!(parse_pr_url("https://github.com/o/r/pull/1/../../leak").is_err());
}

#[test]
fn parse_gitlab_url_valid() {
    assert_eq!(
        parse_pr_url("https://gitlab.com/owner/repo/-/merge_requests/42").unwrap(),
        ("owner".into(), "repo".into(), 42)
    );
}

#[test]
fn parse_gitlab_url_wrong_path_rejected() {
    assert!(parse_pr_url("https://gitlab.com/o/r/pull/1").is_err());
    assert!(parse_pr_url("https://gitlab.com/o/r/merge_requests/1").is_err());
}

#[test]
fn parse_bitbucket_url_valid() {
    assert_eq!(
        parse_pr_url("https://bitbucket.org/owner/repo/pull-requests/99").unwrap(),
        ("owner".into(), "repo".into(), 99)
    );
}

#[test]
fn parse_bitbucket_url_wrong_path_rejected() {
    assert!(parse_pr_url("https://bitbucket.org/o/r/pull/1").is_err());
}

#[test]
fn parse_gitlab_path_traversal_rejected() {
    assert!(parse_pr_url("https://gitlab.com/o/r/-/merge_requests/1/../../leak").is_err());
}

#[test]
fn parse_bitbucket_path_traversal_rejected() {
    assert!(parse_pr_url("https://bitbucket.org/o/r/pull-requests/1/../../leak").is_err());
}

#[test]
fn parse_gitlab_percent_decoded_rejected() {
    assert!(parse_pr_url("https://gitlab.com/user%2Fname/repo/-/merge_requests/1").is_err());
}

#[test]
fn parse_bitbucket_percent_decoded_rejected() {
    assert!(parse_pr_url("https://bitbucket.org/user%2Fname/repo/pull-requests/1").is_err());
}

#[test]
fn parse_unknown_host_rejected() {
    let err = parse_pr_url("https://bitbucket.example.com/o/r/pull/1").unwrap_err();
    assert!(err.contains("must be github.com, gitlab.com, or bitbucket.org"));
    let err = parse_pr_url("https://gitlab.example.com/o/r/pull/1").unwrap_err();
    assert!(err.contains("must be github.com, gitlab.com, or bitbucket.org"));
}

#[test]
fn percent_escapes_are_decoded_once() {
    assert_eq!(
        parse_pr_url("https://github.com/%6Fwner/r/pull/1").unwrap().0,
        "owner"
    );
    assert_eq!(
        parse_pr_url("https://github.com/%2541/r/pull/1").unwrap_err(),
        "Invalid owner '%41'"
    );
    assert_eq!(
        parse_pr_url("https://github.com/%FF/r/pull/1").unwrap_err(),
        "Path segment contains invalid UTF-8: '%FF'"
    );
}

#[test]
fn pull_numbers_are_checked() {
    assert_eq!(
        parse_pr_url("https://github.com/o/r/pull/x").unwrap_err(),
        "Invalid PR number 'x': invalid digit found in string"
    );
    assert_eq!(
        parse_pr_url("https://github.com/o/r/pull/18446744073709551616").unwrap_err(),
        "Invalid PR number '18446744073709551616': number too large to fit in target type"
    );
    assert_eq!(
        parse_pr_url("https://github.com/o/r/pull/18446744073709551615").unwrap().2,
        u64::MAX
    );
    assert_eq!(parse_pr_url("https://github.com/o/r/pull/+7").unwrap().2, 7);
    assert_eq!(
        parse_pr_url("https://github.com/o/r/pull//x").unwrap_err(),
        "Invalid PR number '': cannot parse integer from empty string"
    );
}

#[test]
fn wrong_paths_are_named() {
    assert_eq!(
        parse_pr_url("https://gitlab.com/o/r/pull/1").unwrap_err(),
        "URL path must be /owner/repo/-/merge_requests/N for gitlab.com, got '/o/r/pull/1'"
    );
    assert_eq!(
        parse_pr_url("nonsense/").unwrap_err(),
        "Invalid URL: expected https://github.com/owner/repo/pull/N, got 'nonsense'"
    );
}

#[test]
fn segments_read_back_on_every_host() {
    let github: Vec<String> = vec!["o".into(), "r".into(), "pull".into(), "5".into()];
    assert_eq!(
        parse_segments(GitHost::GitHub, &github).unwrap(),
        ("o".into(), "r".into(), 5)
    );
    let bitbucket: Vec<String> = vec![
        "o".into(),
        "r".into(),
        "pull-requests".into(),
        "6".into(),
        "diff".into(),
    ];
    assert_eq!(
        parse_segments(GitHost::Bitbucket, &bitbucket).unwrap(),
        ("o".into(), "r".into(), 6)
    );
    let dotted: Vec<String> = vec![
        "o".into(),
        "r".into(),
        "pull".into(),
        "6".into(),
        "a..b".into(),
    ];
    assert_eq!(
        parse_segments(GitHost::GitHub, &dotted).unwrap_err(),
        "Invalid path segment 'a..b'"
    );
    assert_eq!(GitHost::from_host("GitLab.COM"), Ok(GitHost::GitLab));
}

#[test]
fn mod_test_classify_errors() {
    let err = classify_error(401, "bad credentials", None);
    assert!(err.message().contains("authentication failed"));

    let err = classify_error(404, "not found", None);
    assert!(err.message().contains("not found"));

    let err = classify_error(429, "", None);
    assert!(err.message().contains("transient"));

    // When X-RateLimit-Remaining: 0, it's a rate limit even with a body
    let err = classify_error(403, "", Some("0"));
    assert!(err.message().contains("rate limit"));

    // When X-RateLimit-Remaining is not 0, it's an auth failure
    let err = classify_error(403, "bad credentials", Some("5"));
    assert!(err.message().contains("authentication failed"));

    // Without the header, fall back to body text
    let err = classify_error(403, "rate limit exceeded", None);
    assert!(err.message().contains("rate limit"));
}

#[test]
fn mod_test_transient_detection() {
    let transient = AgentError::GitHub("GitHub API transient error (503)".into());
    assert!(transient.is_transient());

    let rate = AgentError::GitHub("GitHub API rate limit exceeded".into());
    assert!(rate.is_transient());

    let auth = AgentError::GitHub("GitHub API authentication failed".into());
    assert!(!auth.is_transient());

    let config = AgentError::Config("test".into());
    assert!(!config.is_transient());
}

#[test]
fn status_words_are_spelled_out() {
    match classify_error(503, "down", None) {
        AgentError::GitHub(m) => assert_eq!(
            m,
            "GitHub API transient error (503 Service Unavailable): down"
        ),
        _ => panic!("expected a GitHub error"),
    }
    match classify_error(599, "", None) {
        AgentError::GitHub(m) => assert_eq!(
            m,
            "GitHub API transient error (599 <unknown status code>): "
        ),
        _ => panic!("expected a GitHub error"),
    }
}

#[test]
fn only_rate_limits_and_server_errors_are_transient() {
    for status in 100u16..1000 {
        let err = classify_error(status, "body", None);
        assert_eq!(
            err.is_transient(),
            status == 429 || (500..600).contains(&status),
            "status {status}"
        );
    }
    assert!(classify_error(403, "", Some("0")).is_transient());
}

#[test]
fn answers_are_read_or_classified() {
    assert_eq!(
        read_answer(200, "text".into(), None).unwrap_or_default(),
        "text"
    );
    assert!(read_answer(404, "gone".into(), None).is_err());
}

#[test]
fn endpoints() {
    let base = api_base("").unwrap_or_default();
    assert_eq!(base, "https://api.github.com");
    assert_eq!(
        api_base("https://ghe.example.com/api///").unwrap_or_default(),
        "https://ghe.example.com/api"
    );
    match api_base("nope") {
        Err(AgentError::Config(m)) => assert_eq!(
            m,
            "Invalid github.base_url 'nope': relative URL without a base"
        ),
        _ => panic!("expected a settings error"),
    }
    assert_eq!(pull_url(&base, "o", "r", 4), "https://api.github.com/repos/o/r/pulls/4");
    assert_eq!(
        reviews_url(&base, "o", "r", 4),
        "https://api.github.com/repos/o/r/pulls/4/reviews"
    );
    assert_eq!(
        comments_url(&base, "o", "r", 4),
        "https://api.github.com/repos/o/r/issues/4/comments"
    );
    assert_eq!(
        comment_url(&base, "o", "r", 9),
        "https://api.github.com/repos/o/r/issues/comments/9"
    );
    assert_eq!(bearer("t"), "Bearer t");
}

#[test]
fn review_bodies_name_their_event() {
    let body = review_body("hello", Some(ReviewEvent::Comment));
    assert_eq!(body.body, "hello");
    assert_eq!(body.event.as_deref(), Some("COMMENT"));
    assert!(body.commit_id.is_none());
    assert!(review_body("x", None).event.is_none());
}

#[test]
fn sticky_comments_are_updated_in_place() {
    let none: Vec<Comment> = vec![Comment { id: 1, body: Some("hi".into()) }];
    let marker = sticky_marker("review-agent");
    assert_eq!(marker, "<!-- review-agent-sticky -->");
    let first = match sticky_step("review-agent", "  review  ", &none) {
        StickyStep::Publish { body } => body,
        StickyStep::Edit { .. } => panic!("nothing to edit"),
    };
    assert_eq!(first, format!("review\n{marker}"));
    let comments = vec![
        Comment { id: 1, body: None },
        Comment { id: 2, body: Some(first) },
        Comment { id: 3, body: Some(format!("{marker} again")) },
    ];
    assert_eq!(find_comment(&comments, &marker), Some(1));
    match sticky_step("review-agent", "new", &comments) {
        StickyStep::Edit { comment_id, body } => {
            assert_eq!(comment_id, 2);
            assert_eq!(body, format!("new\n{marker}\n\n*Review updated*"));
            let again = vec![Comment { id: 2, body: Some(body) }];
            assert_eq!(find_comment(&again, &marker), Some(0));
        }
        StickyStep::Publish { .. } => panic!("there was a comment to edit"),
    }
    // The comments of a program of another name are left alone.
    assert!(matches!(
        sticky_step("other", "new", &comments),
        StickyStep::Publish { .. }
    ));
}
