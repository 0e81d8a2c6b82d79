use guided_review::{default_output_path, display_input, reads_stdin, PullRequestRef};

#[test]
fn dash_names_standard_input() {
    assert_eq!(display_input("-"), "stdin");
    assert_eq!(display_input("review.json"), "review.json");
    assert!(reads_stdin("-"));
    assert!(reads_stdin("-/"));
    assert!(reads_stdin("-//./"));
    assert!(!reads_stdin("./-"));
    assert!(!reads_stdin("-/.."));
    assert!(!reads_stdin("--"));
    assert!(!reads_stdin(""));
    assert!(!reads_stdin("/-"));
}

#[test]
fn default_output_path_names_owner_repository_and_number() {
    let pull_request = PullRequestRef::parse("github/desktop#144").expect("valid reference");
    assert_eq!(
        default_output_path(&pull_request),
        "github-desktop-144-guided-review.html"
    );
}
