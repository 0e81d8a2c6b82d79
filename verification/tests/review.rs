use guided_review::{
    ClaimBasis, CodeExcerpt, GuidedReview, LineMapEntry, PullRequestMetadata, ReadingStep,
    Recommendation, ReviewDecision, ReviewLine, SupportedClaim, Verification, VerificationStatus,
};

fn excerpt() -> CodeExcerpt {
    CodeExcerpt {
        name: "Relevant code".to_owned(),
        path: "src/core.rs".to_owned(),
        start_line: 1,
        end_line: 1,
        language: "rust".to_owned(),
        code: "fn core() {}".to_owned(),
    }
}

fn supported_claim(text: &str) -> SupportedClaim {
    SupportedClaim {
        text: text.to_owned(),
        basis: ClaimBasis::Observed,
        evidence: vec![excerpt()],
    }
}

fn valid_review() -> GuidedReview {
    GuidedReview {
        title: "Review".to_owned(),
        metadata: PullRequestMetadata {
            files: "1 changed".to_owned(),
            additions: "+1".to_owned(),
            deletions: "-0".to_owned(),
            tests: "1 passed".to_owned(),
            merge: "CLEAN".to_owned(),
        },
        thesis: supported_claim("Thesis"),
        reading_order: vec![ReadingStep {
            path: vec!["src/core.rs".to_owned()],
            reason: supported_claim("Start here"),
        }],
        line_map: vec![LineMapEntry {
            line: ReviewLine::Visible,
            title: "Visible behavior".to_owned(),
            claim: supported_claim("Visible behavior"),
        }],
        risks: vec![],
        verification: vec![Verification {
            status: VerificationStatus::Verified,
            title: "Verification title".to_owned(),
            claim: supported_claim("Verification"),
        }],
        questions: vec![],
        recommendation: Recommendation {
            decision: ReviewDecision::CommentOnly,
            summary: supported_claim("Recommendation"),
            blockers: vec![],
            follow_ups: vec![],
        },
    }
}

fn rejection(review: &GuidedReview) -> String {
    review.validate().expect_err("review should be rejected").message()
}

#[test]
fn review_accepts_an_otherwise_minimal_valid_review() {
    valid_review().validate().expect("valid review");
}

#[test]
fn review_accepts_a_reading_step_with_multiple_paths() {
    let mut review = valid_review();
    review.reading_order[0].path = vec!["src/core.rs".to_owned(), "src/render.rs".to_owned()];

    review.validate().expect("valid multi-path reading step");
}

#[test]
fn review_rejects_a_reading_step_without_paths() {
    let mut review = valid_review();
    review.reading_order[0].path = vec![];

    let error = rejection(&review);

    assert!(error.contains("reading_order[0].path"));
}

#[test]
fn review_rejects_a_claim_without_code_evidence() {
    let mut review = valid_review();
    review.thesis.evidence = vec![];

    let error = rejection(&review);

    assert!(error.contains("thesis.evidence"));
}

#[test]
fn review_rejects_an_excerpt_whose_range_does_not_match_its_code() {
    let mut review = valid_review();
    review.thesis.evidence[0].end_line = 2;

    let error = rejection(&review);

    assert!(error.contains("line range describes 2 lines but code contains 1"));
}

#[test]
fn review_rejects_approve_when_blockers_are_present() {
    let mut review = valid_review();
    review.recommendation.decision = ReviewDecision::Approve;
    review.recommendation.blockers = vec![supported_claim("Blocker")];

    let error = rejection(&review);

    assert!(error.contains("an approve recommendation cannot include blockers"));
}

#[test]
fn approve_without_blockers_is_accepted() {
    let mut review = valid_review();
    review.recommendation.decision = ReviewDecision::Approve;
    review.recommendation.follow_ups = vec![supported_claim("Later")];
    review.validate().expect("approval without blockers");
}

#[test]
fn report_lists_each_issue_with_its_path() {
    let mut review = valid_review();
    review.title = "  \t".to_owned();
    review.reading_order[0].path = vec![];
    review.questions = vec![guided_review::Question {
        title: "Why?".to_owned(),
        text: " ".to_owned(),
        evidence: vec![],
    }];

    assert_eq!(
        rejection(&review),
        "title: must not be blank\n\
         reading_order[0].path: length is lower than 1\n\
         questions[0].text: must not be blank\n\
         questions[0].evidence: length is lower than 1\n"
    );
}

#[test]
fn excerpt_rules_come_before_field_rules() {
    let mut review = valid_review();
    review.line_map[0].claim.evidence[0].start_line = 0;
    review.line_map[0].claim.evidence[0].code = String::new();

    assert_eq!(
        rejection(&review),
        "line_map[0].claim.evidence[0]: end_line must be greater than or equal to start_line\n\
         line_map[0].claim.evidence[0].start_line: lower than 1\n\
         line_map[0].claim.evidence[0].code: must not be blank\n"
    );
}

#[test]
fn backwards_ranges_are_rejected() {
    let mut review = valid_review();
    review.thesis.evidence[0].start_line = 3;
    review.thesis.evidence[0].end_line = 2;

    assert_eq!(
        rejection(&review),
        "thesis.evidence[0]: end_line must be greater than or equal to start_line\n"
    );
}

#[test]
fn blank_reading_paths_and_empty_lists_are_reported() {
    let mut review = valid_review();
    review.reading_order[0].path = vec!["a.rs".to_owned(), " ".to_owned()];
    review.line_map = vec![];
    review.verification = vec![];

    assert_eq!(
        rejection(&review),
        "reading_order[0].path[1]: must not be blank\n\
         line_map: length is lower than 1\n\
         verification: length is lower than 1\n"
    );
}

#[test]
fn issues_carry_path_and_message() {
    let mut review = valid_review();
    review.recommendation.blockers = vec![supported_claim("")];
    let report = review.validate().expect_err("blank blocker");
    assert_eq!(report.issues.len(), 1);
    assert_eq!(report.issues[0].path, "recommendation.blockers[0].text");
    assert_eq!(report.issues[0].message, "must not be blank");
}

#[test]
fn numbered_lines_count_from_the_start_line() {
    let code = CodeExcerpt {
        start_line: 10,
        end_line: 11,
        code: "let first = 1;\r\nlet second = 2;".to_owned(),
        ..excerpt()
    };
    let lines = code.numbered_lines();
    assert_eq!(lines.len(), 2);
    assert_eq!(lines[0].number, 10);
    assert_eq!(lines[0].text, "let first = 1;");
    assert_eq!(lines[1].number, 11);
    assert_eq!(lines[1].text, "let second = 2;");
}

#[test]
fn trailing_newline_does_not_add_a_line() {
    let mut review = valid_review();
    review.thesis.evidence[0].code = "fn core() {}\n".to_owned();
    review.validate().expect("one line with a final line ending");
    review.thesis.evidence[0].code = "fn core() {}\n\n".to_owned();
    assert!(rejection(&review).contains("line range describes 1 lines but code contains 2"));
}
