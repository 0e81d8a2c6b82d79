use std::str::FromStr;

use guided_review::{PullRequestRef, PullRequestRefError};
use guided_review::pull_request::{valid_owner, valid_repository};

#[test]
fn parses_pull_request_reference() {
    let pull_request =
        PullRequestRef::from_str("github/desktop#144").expect("valid pull request reference");

    assert_eq!(pull_request.owner, "github");
    assert_eq!(pull_request.repository, "desktop");
    assert_eq!(pull_request.number, 144);
    assert_eq!(
        pull_request.github_url(),
        "https://github.com/github/desktop/pull/144"
    );
}

#[test]
fn rejects_invalid_pull_request_references() {
    for value in [
        "github/desktop",
        "github/desktop#0",
        "github/desktop#abc",
        "github/desktop/pull#144",
        "-github/desktop#144",
        "github/desktop #144",
    ] {
        assert!(
            PullRequestRef::from_str(value).is_err(),
            "{value} should be rejected"
        );
    }
}

#[test]
fn display_writes_owner_repository_and_number() {
    let pull_request = PullRequestRef::parse("owner/repository#7").expect("valid reference");
    assert_eq!(pull_request.display(), "owner/repository#7");
    assert_eq!(
        pull_request.github_url(),
        "https://github.com/owner/repository/pull/7"
    );
}

#[test]
fn display_then_parse_gives_the_same_reference() {
    let original = PullRequestRef {
        owner: "a-b1".to_owned(),
        repository: "x.y_z-2".to_owned(),
        number: 18446744073709551615,
    };
    let again = PullRequestRef::parse(&original.display()).expect("round trip");
    assert_eq!(again, original);
}

#[test]
fn format_errors_and_number_errors_are_told_apart() {
    let cases = [
        ("github/desktop", PullRequestRefError::InvalidFormat),
        ("github/desktop#0", PullRequestRefError::InvalidNumber),
        ("github/desktop#abc", PullRequestRefError::InvalidNumber),
        ("github/desktop#", PullRequestRefError::InvalidNumber),
        ("github/desktop#-1", PullRequestRefError::InvalidNumber),
        ("github/desktop#+", PullRequestRefError::InvalidNumber),
        ("github/desktop#18446744073709551616", PullRequestRefError::InvalidNumber),
        ("github/desktop#1 2", PullRequestRefError::InvalidNumber),
        ("github/desktop/pull#144", PullRequestRefError::InvalidFormat),
        ("github/desktop#1#2", PullRequestRefError::InvalidFormat),
        ("-github/desktop#144", PullRequestRefError::InvalidFormat),
        ("github-/desktop#144", PullRequestRefError::InvalidFormat),
        ("git_hub/desktop#144", PullRequestRefError::InvalidFormat),
        ("github/desk top#144", PullRequestRefError::InvalidFormat),
        ("github/#144", PullRequestRefError::InvalidFormat),
        ("/desktop#144", PullRequestRefError::InvalidFormat),
        (" github/desktop#144", PullRequestRefError::InvalidFormat),
        ("github/desktop#144\n", PullRequestRefError::InvalidFormat),
        ("github/desktop#144\u{3000}", PullRequestRefError::InvalidFormat),
        ("github/desktöp#144", PullRequestRefError::InvalidFormat),
        ("", PullRequestRefError::InvalidFormat),
    ];
    for (value, expected) in cases {
        assert_eq!(
            PullRequestRef::parse(value).expect_err(value),
            expected,
            "{value:?}"
        );
    }
}

#[test]
fn accepts_a_leading_plus_and_leading_zeros_in_the_number() {
    let plus = PullRequestRef::parse("github/desktop#+144").expect("plus sign");
    assert_eq!(plus.number, 144);
    let zeros = PullRequestRef::parse("github/desktop#00144").expect("leading zeros");
    assert_eq!(zeros.number, 144);
    assert_eq!(zeros.display(), "github/desktop#144");
}

#[test]
fn accepts_dots_and_underscores_in_repository_names() {
    let pull_request = PullRequestRef::parse("my-org/repo.name_2#9").expect("valid");
    assert_eq!(pull_request.owner, "my-org");
    assert_eq!(pull_request.repository, "repo.name_2");
    assert_eq!(pull_request.number, 9);
}

#[test]
fn owner_and_repository_name_rules() {
    assert!(valid_owner("a"));
    assert!(valid_owner("a-b"));
    assert!(!valid_owner(""));
    assert!(!valid_owner("-a"));
    assert!(!valid_owner("a-"));
    assert!(!valid_owner("a.b"));
    assert!(valid_repository("."));
    assert!(valid_repository("a_b.c-d"));
    assert!(!valid_repository(""));
    assert!(!valid_repository("a/b"));
}

#[test]
fn error_messages_name_the_expected_format() {
    let error = PullRequestRef::from_str("github/desktop/pull/144").expect_err("malformed");
    assert!(error.message().contains("OWNER/REPO#NUMBER"));
    assert_eq!(
        PullRequestRefError::InvalidNumber.message(),
        "pull request number must be a positive integer"
    );
}
