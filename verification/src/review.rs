//! The guided review of one pull request, and the rules it must keep before
//! a page is rendered from it: every text filled in, every claim backed by
//! code, every excerpt as long as its line range, and no approval that
//! carries blockers.

use vstd::prelude::*;

use crate::report::{
    blank_issues, check_at_least_one, check_list, check_not_blank, check_not_empty, key_path,
    key_text, lemma_list_issues, lemma_report_grows, list_issues, min_len_issues, min_value_issues, Checked, Issue,
    ValidationReport,
};
use crate::text::{decimal, is_blank, lines, line_count, push_decimal, strings_view, text_lines};

verus! {

/// A complete guided review of one pull request. Every claim must cite at
/// least one code excerpt as evidence, and text fields must not be blank.
#[derive(Clone, Debug)]
pub struct GuidedReview {
    /// Review headline shown at the top of the page.
    pub title: String,
    /// Pull request statistics displayed in the page header.
    pub metadata: PullRequestMetadata,
    /// One-paragraph statement of what the change accomplishes.
    pub thesis: SupportedClaim,
    /// Suggested order in which to read the changed files.
    pub reading_order: Vec<ReadingStep>,
    /// Claims organized by review line (visible behavior, data, state, ...).
    pub line_map: Vec<LineMapEntry>,
    /// Identified risks, from blockers down to follow-ups.
    pub risks: Vec<Risk>,
    /// What has been proven, partially proven, or remains unproven.
    pub verification: Vec<Verification>,
    /// Open questions for the pull request author.
    pub questions: Vec<Question>,
    /// The final review decision with its justification.
    pub recommendation: Recommendation,
}

/// Display-only pull request statistics, already formatted for the header.
#[derive(Clone, Debug)]
pub struct PullRequestMetadata {
    /// Changed-file count, e.g. "60 changed".
    pub files: String,
    /// Added-line count, e.g. "+4,835".
    pub additions: String,
    /// Deleted-line count, e.g. "-217".
    pub deletions: String,
    /// Test outcome, e.g. "378 passed".
    pub tests: String,
    /// Merge state, e.g. "CLEAN".
    pub merge: String,
}

/// A statement of the review backed by at least one cited code excerpt.
#[derive(Clone, Debug)]
pub struct SupportedClaim {
    /// The statement itself, one or two sentences.
    pub text: String,
    /// How the claim was established.
    pub basis: ClaimBasis,
    /// Code excerpts that support the claim.
    pub evidence: Vec<CodeExcerpt>,
}

/// One stop in the suggested reading order.
#[derive(Clone, Debug)]
pub struct ReadingStep {
    /// Repository-relative file paths read together at this stop.
    pub path: Vec<String>,
    /// Why this file should be read at this point.
    pub reason: SupportedClaim,
}

/// A claim filed under one review line.
#[derive(Clone, Debug)]
pub struct LineMapEntry {
    /// The review line this claim belongs to.
    pub line: ReviewLine,
    /// Short label for the claim.
    pub title: String,
    /// What the review asserts about this line.
    pub claim: SupportedClaim,
}

/// A risk identified in the change.
#[derive(Clone, Debug)]
pub struct Risk {
    /// Severity of the risk.
    pub level: RiskLevel,
    /// Short label for the risk.
    pub title: String,
    /// What the risk is and why it matters.
    pub claim: SupportedClaim,
}

/// One verification item: something the review checked or could not check.
#[derive(Clone, Debug)]
pub struct Verification {
    /// How far the item has been proven.
    pub status: VerificationStatus,
    /// Short label for the verification item.
    pub title: String,
    /// What was verified, or what evidence is missing.
    pub claim: SupportedClaim,
}

/// An open question for the pull request author.
#[derive(Clone, Debug)]
pub struct Question {
    /// Short label for the question.
    pub title: String,
    /// The question itself.
    pub text: String,
    /// Code excerpts that prompted the question.
    pub evidence: Vec<CodeExcerpt>,
}

/// The final review decision. An `approve` decision cannot include blockers.
#[derive(Clone, Debug)]
pub struct Recommendation {
    /// The verdict on the pull request.
    pub decision: ReviewDecision,
    /// Justification for the decision.
    pub summary: SupportedClaim,
    /// Issues that must be resolved before merging.
    pub blockers: Vec<SupportedClaim>,
    /// Improvements that can land after this pull request.
    pub follow_ups: Vec<SupportedClaim>,
}

/// A cited code excerpt. `code` must contain exactly
/// `end_line - start_line + 1` lines.
#[derive(Clone, Debug)]
pub struct CodeExcerpt {
    /// Short caption naming what the excerpt shows.
    pub name: String,
    /// Repository-relative path of the excerpted file.
    pub path: String,
    /// First excerpted line, 1-indexed.
    pub start_line: u32,
    /// Last excerpted line, inclusive; must be >= start_line.
    pub end_line: u32,
    /// Syntax-highlighting language tag, e.g. "rust" or "typescript".
    pub language: String,
    /// The excerpted source, one line per range line.
    pub code: String,
}

/// One line of an excerpt with its line number in the file.
#[derive(Clone, Debug)]
pub struct CodeLine {
    pub number: u32,
    pub text: String,
}

/// How a claim was established: read directly at the cited site (observed)
/// or concluded from several sites together (synthesis).
#[derive(Clone, Copy, Debug, PartialEq, Eq, Structural)]
pub enum ClaimBasis {
    Observed,
    Synthesis,
}

/// The review dimension a line-map claim addresses, from user-visible
/// behavior down to hidden coupling and degradation.
#[derive(Clone, Copy, Debug, PartialEq, Eq, Structural)]
pub enum ReviewLine {
    Visible,
    Hidden,
    Data,
    State,
    Permission,
    Error,
    Test,
    Complexity,
    Degradation,
}

/// Risk severity: blocker (must fix before merge), should_fix (fix in this
/// pull request), or follow_up (may land later).
#[derive(Clone, Copy, Debug, PartialEq, Eq, Structural)]
pub enum RiskLevel {
    Blocker,
    ShouldFix,
    FollowUp,
}

/// How far a verification item has been proven by tests or evidence.
#[derive(Clone, Copy, Debug, PartialEq, Eq, Structural)]
pub enum VerificationStatus {
    Verified,
    Partial,
    Unproven,
}

/// The overall verdict on the pull request.
#[derive(Clone, Copy, Debug, PartialEq, Eq, Structural)]
pub enum ReviewDecision {
    Approve,
    RequestChanges,
    CommentOnly,
}

// ---------------------------------------------------------------------------
// Excerpts
// ---------------------------------------------------------------------------

/// The rule on an excerpt as a whole: its range starts at line 1 or later,
/// does not run backwards, and spans as many lines as `code` holds.
pub open spec fn excerpt_range_issues(e: CodeExcerpt, path: Seq<char>) -> Seq<Issue> {
    if e.start_line == 0 || e.end_line < e.start_line {
        seq![(path, "end_line must be greater than or equal to start_line"@)]
    } else if lines(e.code@).len() != e.end_line - e.start_line + 1 {
        seq![
            (
                path,
                "line range describes "@ + decimal((e.end_line - e.start_line + 1) as nat)
                    + " lines but code contains "@ + decimal(lines(e.code@).len()),
            ),
        ]
    } else {
        Seq::empty()
    }
}

impl CodeExcerpt {
    /// The number of lines the inclusive range `start_line..=end_line` describes.
    pub open spec fn range_len(self) -> int {
        self.end_line - self.start_line + 1
    }

    /// The lines of the excerpt, numbered from `start_line` on, as the page
    /// shows them.
    pub fn numbered_lines(&self) -> (r: Vec<CodeLine>)
        requires
            self.start_line + lines(self.code@).len() <= u32::MAX + 1,
        ensures
            r@.len() == lines(self.code@).len(),
            forall|i: int|
                #![trigger r@[i]]
                0 <= i < r@.len() ==> r@[i].number == self.start_line + i && r@[i].text@ == lines(
                    self.code@,
                )[i],
    {
        let texts = text_lines(self.code.as_str());
        let n = texts.len();
        let mut out: Vec<CodeLine> = Vec::new();
        let mut i: usize = 0;
        while i < n
            invariant
                n == texts@.len(),
                strings_view(texts@) == lines(self.code@),
                self.start_line + n <= u32::MAX + 1,
                i <= n,
                out@.len() == i,
                forall|j: int|
                    #![trigger out@[j]]
                    0 <= j < i ==> out@[j].number == self.start_line + j && out@[j].text@ == lines(
                        self.code@,
                    )[j],
            decreases n - i,
        {
            assert(strings_view(texts@)[i as int] == texts@[i as int]@);
            let text = texts[i].clone();
            let line = CodeLine { number: self.start_line + i as u32, text };
            let ghost before = out@;
            out.push(line);
            assert forall|j: int|
                #![trigger out@[j]]
                0 <= j < i + 1 implies out@[j].number == self.start_line + j && out@[j].text@
                    == lines(self.code@)[j] by {
                if j < i {
                    assert(out@[j] == before[j]);
                }
            }
            i = i + 1;
        }
        out
    }
}

impl Checked for CodeExcerpt {
    open spec fn issues_at(&self, path: Seq<char>) -> Seq<Issue> {
        excerpt_range_issues(*self, path) + blank_issues(self.name@, key_path(path, "name"@))
            + blank_issues(self.path@, key_path(path, "path"@)) + min_value_issues(
            self.start_line,
            key_path(path, "start_line"@),
        ) + min_value_issues(self.end_line, key_path(path, "end_line"@)) + blank_issues(
            self.language@,
            key_path(path, "language"@),
        ) + blank_issues(self.code@, key_path(path, "code"@))
    }

    open spec fn is_valid(&self) -> bool {
        &&& !is_blank(self.name@)
        &&& !is_blank(self.path@)
        &&& 1 <= self.start_line <= self.end_line
        &&& lines(self.code@).len() == self.range_len()
        &&& !is_blank(self.language@)
        &&& !is_blank(self.code@)
    }

    proof fn lemma_issues_at(&self, path: Seq<char>) {
    }

    fn check_at(&self, path: &String, report: &mut ValidationReport) {
        let ghost start = report@;
        check_excerpt_range(self, path, report);
        let ghost mut done = excerpt_range_issues(*self, path@);
        let name = key_text(path, "name");
        let ghost next = blank_issues(self.name@, name@);
        check_not_blank(&self.name, name, report);
        proof {
            lemma_report_grows(start, done, next);
            done = done + next;
        }
        let file = key_text(path, "path");
        let ghost next = blank_issues(self.path@, file@);
        check_not_blank(&self.path, file, report);
        proof {
            lemma_report_grows(start, done, next);
            done = done + next;
        }
        let start_line = key_text(path, "start_line");
        let ghost next = min_value_issues(self.start_line, start_line@);
        check_at_least_one(self.start_line, start_line, report);
        proof {
            lemma_report_grows(start, done, next);
            done = done + next;
        }
        let end_line = key_text(path, "end_line");
        let ghost next = min_value_issues(self.end_line, end_line@);
        check_at_least_one(self.end_line, end_line, report);
        proof {
            lemma_report_grows(start, done, next);
            done = done + next;
        }
        let language = key_text(path, "language");
        let ghost next = blank_issues(self.language@, language@);
        check_not_blank(&self.language, language, report);
        proof {
            lemma_report_grows(start, done, next);
            done = done + next;
        }
        let code = key_text(path, "code");
        let ghost next = blank_issues(self.code@, code@);
        check_not_blank(&self.code, code, report);
        proof {
            lemma_report_grows(start, done, next);
            done = done + next;
        }
    }
}

/// Reports `path` when the excerpt's line range is backwards or does not
/// match the number of lines in its code.
fn check_excerpt_range(e: &CodeExcerpt, path: &String, report: &mut ValidationReport)
    ensures
        final(report)@ == old(report)@ + excerpt_range_issues(*e, path@),
{
    if e.start_line == 0 || e.end_line < e.start_line {
        report.add(
            path.clone(),
            String::from_str("end_line must be greater than or equal to start_line"),
        );
    } else {
        let expected = e.end_line - e.start_line + 1;
        let actual = line_count(e.code.as_str());
        if actual as u64 != expected as u64 {
            let mut message = String::from_str("line range describes ");
            push_decimal(&mut message, expected as u64);
            message.append(" lines but code contains ");
            push_decimal(&mut message, actual as u64);
            report.add(path.clone(), message);
        }
    }
    assert(final(report)@ =~= old(report)@ + excerpt_range_issues(*e, path@));
}

/// A valid excerpt's lines are numbered exactly `start_line..=end_line`:
/// there is one line per number of the range, so numbering them never runs
/// past `end_line`.
pub proof fn lemma_valid_excerpt_lines_fill_range(e: CodeExcerpt)
    requires
        e.is_valid(),
    ensures
        e.start_line + lines(e.code@).len() == e.end_line + 1,
        e.start_line + lines(e.code@).len() <= u32::MAX + 1,
        lines(e.code@).len() > 0,
{
}

// ---------------------------------------------------------------------------
// Claims and the entries that carry them
// ---------------------------------------------------------------------------

impl Checked for SupportedClaim {
    open spec fn issues_at(&self, path: Seq<char>) -> Seq<Issue> {
        blank_issues(self.text@, key_path(path, "text"@)) + list_issues(
            self.evidence@,
            key_path(path, "evidence"@),
        ) + min_len_issues(self.evidence@.len(), key_path(path, "evidence"@))
    }

    open spec fn is_valid(&self) -> bool {
        &&& !is_blank(self.text@)
        &&& self.evidence@.len() >= 1
        &&& forall|i: int| 0 <= i < self.evidence@.len() ==> #[trigger] self.evidence@[i].is_valid()
    }

    proof fn lemma_issues_at(&self, path: Seq<char>) {
        lemma_list_issues(self.evidence@, key_path(path, "evidence"@));
    }

    fn check_at(&self, path: &String, report: &mut ValidationReport) {
        let ghost start = report@;
        check_not_blank(&self.text, key_text(path, "text"), report);
        let evidence = key_text(path, "evidence");
        check_list(&self.evidence, &evidence, report);
        check_not_empty(self.evidence.len(), evidence, report);
        assert(report@ =~= start + self.issues_at(path@));
    }
}

impl Checked for ReadingStep {
    open spec fn issues_at(&self, path: Seq<char>) -> Seq<Issue> {
        list_issues(self.path@, key_path(path, "path"@)) + min_len_issues(
            self.path@.len(),
            key_path(path, "path"@),
        ) + self.reason.issues_at(key_path(path, "reason"@))
    }

    open spec fn is_valid(&self) -> bool {
        &&& self.path@.len() >= 1
        &&& forall|i: int| 0 <= i < self.path@.len() ==> #[trigger] self.path@[i].is_valid()
        &&& self.reason.is_valid()
    }

    proof fn lemma_issues_at(&self, path: Seq<char>) {
        lemma_list_issues(self.path@, key_path(path, "path"@));
        self.reason.lemma_issues_at(key_path(path, "reason"@));
    }

    fn check_at(&self, path: &String, report: &mut ValidationReport) {
        let ghost start = report@;
        let paths = key_text(path, "path");
        check_list(&self.path, &paths, report);
        check_not_empty(self.path.len(), paths, report);
        self.reason.check_at(&key_text(path, "reason"), report);
        assert(report@ =~= start + self.issues_at(path@));
    }
}

impl Checked for LineMapEntry {
    open spec fn issues_at(&self, path: Seq<char>) -> Seq<Issue> {
        blank_issues(self.title@, key_path(path, "title"@)) + self.claim.issues_at(
            key_path(path, "claim"@),
        )
    }

    open spec fn is_valid(&self) -> bool {
        !is_blank(self.title@) && self.claim.is_valid()
    }

    proof fn lemma_issues_at(&self, path: Seq<char>) {
        self.claim.lemma_issues_at(key_path(path, "claim"@));
    }

    fn check_at(&self, path: &String, report: &mut ValidationReport) {
        let ghost start = report@;
        check_not_blank(&self.title, key_text(path, "title"), report);
        self.claim.check_at(&key_text(path, "claim"), report);
        assert(report@ =~= start + self.issues_at(path@));
    }
}

impl Checked for Risk {
    open spec fn issues_at(&self, path: Seq<char>) -> Seq<Issue> {
        blank_issues(self.title@, key_path(path, "title"@)) + self.claim.issues_at(
            key_path(path, "claim"@),
        )
    }

    open spec fn is_valid(&self) -> bool {
        !is_blank(self.title@) && self.claim.is_valid()
    }

    proof fn lemma_issues_at(&self, path: Seq<char>) {
        self.claim.lemma_issues_at(key_path(path, "claim"@));
    }

    fn check_at(&self, path: &String, report: &mut ValidationReport) {
        let ghost start = report@;
        check_not_blank(&self.title, key_text(path, "title"), report);
        self.claim.check_at(&key_text(path, "claim"), report);
        assert(report@ =~= start + self.issues_at(path@));
    }
}

impl Checked for Verification {
    open spec fn issues_at(&self, path: Seq<char>) -> Seq<Issue> {
        blank_issues(self.title@, key_path(path, "title"@)) + self.claim.issues_at(
            key_path(path, "claim"@),
        )
    }

    open spec fn is_valid(&self) -> bool {
        !is_blank(self.title@) && self.claim.is_valid()
    }

    proof fn lemma_issues_at(&self, path: Seq<char>) {
        self.claim.lemma_issues_at(key_path(path, "claim"@));
    }

    fn check_at(&self, path: &String, report: &mut ValidationReport) {
        let ghost start = report@;
        check_not_blank(&self.title, key_text(path, "title"), report);
        self.claim.check_at(&key_text(path, "claim"), report);
        assert(report@ =~= start + self.issues_at(path@));
    }
}

impl Checked for Question {
    open spec fn issues_at(&self, path: Seq<char>) -> Seq<Issue> {
        blank_issues(self.title@, key_path(path, "title"@)) + blank_issues(
            self.text@,
            key_path(path, "text"@),
        ) + list_issues(self.evidence@, key_path(path, "evidence"@)) + min_len_issues(
            self.evidence@.len(),
            key_path(path, "evidence"@),
        )
    }

    open spec fn is_valid(&self) -> bool {
        &&& !is_blank(self.title@)
        &&& !is_blank(self.text@)
        &&& self.evidence@.len() >= 1
        &&& forall|i: int| 0 <= i < self.evidence@.len() ==> #[trigger] self.evidence@[i].is_valid()
    }

    proof fn lemma_issues_at(&self, path: Seq<char>) {
        lemma_list_issues(self.evidence@, key_path(path, "evidence"@));
    }

    fn check_at(&self, path: &String, report: &mut ValidationReport) {
        let ghost start = report@;
        check_not_blank(&self.title, key_text(path, "title"), report);
        check_not_blank(&self.text, key_text(path, "text"), report);
        let evidence = key_text(path, "evidence");
        check_list(&self.evidence, &evidence, report);
        check_not_empty(self.evidence.len(), evidence, report);
        assert(report@ =~= start + self.issues_at(path@));
    }
}

/// The rule on a recommendation as a whole: an approval carries no blockers.
pub open spec fn recommendation_issues(r: Recommendation, path: Seq<char>) -> Seq<Issue> {
    if r.decision == ReviewDecision::Approve && r.blockers@.len() > 0 {
        seq![(path, "an approve recommendation cannot include blockers"@)]
    } else {
        Seq::empty()
    }
}

impl Checked for Recommendation {
    open spec fn issues_at(&self, path: Seq<char>) -> Seq<Issue> {
        recommendation_issues(*self, path) + self.summary.issues_at(key_path(path, "summary"@))
            + list_issues(self.blockers@, key_path(path, "blockers"@)) + list_issues(
            self.follow_ups@,
            key_path(path, "follow_ups"@),
        )
    }

    open spec fn is_valid(&self) -> bool {
        &&& (self.decision == ReviewDecision::Approve ==> self.blockers@.len() == 0)
        &&& self.summary.is_valid()
        &&& forall|i: int| 0 <= i < self.blockers@.len() ==> #[trigger] self.blockers@[i].is_valid()
        &&& forall|i: int|
            0 <= i < self.follow_ups@.len() ==> #[trigger] self.follow_ups@[i].is_valid()
    }

    proof fn lemma_issues_at(&self, path: Seq<char>) {
        self.summary.lemma_issues_at(key_path(path, "summary"@));
        lemma_list_issues(self.blockers@, key_path(path, "blockers"@));
        lemma_list_issues(self.follow_ups@, key_path(path, "follow_ups"@));
    }

    fn check_at(&self, path: &String, report: &mut ValidationReport) {
        let ghost start = report@;
        let approve = match self.decision {
            ReviewDecision::Approve => true,
            _ => false,
        };
        if approve && self.blockers.len() > 0 {
            report.add(
                path.clone(),
                String::from_str("an approve recommendation cannot include blockers"),
            );
        }
        assert(report@ =~= start + recommendation_issues(*self, path@));
        self.summary.check_at(&key_text(path, "summary"), report);
        check_list(&self.blockers, &key_text(path, "blockers"), report);
        check_list(&self.follow_ups, &key_text(path, "follow_ups"), report);
        assert(report@ =~= start + self.issues_at(path@));
    }
}

impl Checked for PullRequestMetadata {
    open spec fn issues_at(&self, path: Seq<char>) -> Seq<Issue> {
        blank_issues(self.files@, key_path(path, "files"@)) + blank_issues(
            self.additions@,
            key_path(path, "additions"@),
        ) + blank_issues(self.deletions@, key_path(path, "deletions"@)) + blank_issues(
            self.tests@,
            key_path(path, "tests"@),
        ) + blank_issues(self.merge@, key_path(path, "merge"@))
    }

    open spec fn is_valid(&self) -> bool {
        &&& !is_blank(self.files@)
        &&& !is_blank(self.additions@)
        &&& !is_blank(self.deletions@)
        &&& !is_blank(self.tests@)
        &&& !is_blank(self.merge@)
    }

    proof fn lemma_issues_at(&self, path: Seq<char>) {
    }

    fn check_at(&self, path: &String, report: &mut ValidationReport) {
        let ghost start = report@;
        check_not_blank(&self.files, key_text(path, "files"), report);
        check_not_blank(&self.additions, key_text(path, "additions"), report);
        check_not_blank(&self.deletions, key_text(path, "deletions"), report);
        check_not_blank(&self.tests, key_text(path, "tests"), report);
        check_not_blank(&self.merge, key_text(path, "merge"), report);
        assert(report@ =~= start + self.issues_at(path@));
    }
}

impl Checked for GuidedReview {
    open spec fn issues_at(&self, path: Seq<char>) -> Seq<Issue> {
        blank_issues(self.title@, key_path(path, "title"@)) + self.metadata.issues_at(
            key_path(path, "metadata"@),
        ) + self.thesis.issues_at(key_path(path, "thesis"@)) + list_issues(
            self.reading_order@,
            key_path(path, "reading_order"@),
        ) + min_len_issues(self.reading_order@.len(), key_path(path, "reading_order"@))
            + list_issues(self.line_map@, key_path(path, "line_map"@)) + min_len_issues(
            self.line_map@.len(),
            key_path(path, "line_map"@),
        ) + list_issues(self.risks@, key_path(path, "risks"@)) + list_issues(
            self.verification@,
            key_path(path, "verification"@),
        ) + min_len_issues(self.verification@.len(), key_path(path, "verification"@))
            + list_issues(self.questions@, key_path(path, "questions"@))
            + self.recommendation.issues_at(key_path(path, "recommendation"@))
    }

    open spec fn is_valid(&self) -> bool {
        &&& !is_blank(self.title@)
        &&& self.metadata.is_valid()
        &&& self.thesis.is_valid()
        &&& self.reading_order@.len() >= 1
        &&& forall|i: int|
            0 <= i < self.reading_order@.len() ==> #[trigger] self.reading_order@[i].is_valid()
        &&& self.line_map@.len() >= 1
        &&& forall|i: int| 0 <= i < self.line_map@.len() ==> #[trigger] self.line_map@[i].is_valid()
        &&& forall|i: int| 0 <= i < self.risks@.len() ==> #[trigger] self.risks@[i].is_valid()
        &&& self.verification@.len() >= 1
        &&& forall|i: int|
            0 <= i < self.verification@.len() ==> #[trigger] self.verification@[i].is_valid()
        &&& forall|i: int| 0 <= i < self.questions@.len() ==> #[trigger] self.questions@[i].is_valid()
        &&& self.recommendation.is_valid()
    }

    proof fn lemma_issues_at(&self, path: Seq<char>) {
        self.metadata.lemma_issues_at(key_path(path, "metadata"@));
        self.thesis.lemma_issues_at(key_path(path, "thesis"@));
        lemma_list_issues(self.reading_order@, key_path(path, "reading_order"@));
        lemma_list_issues(self.line_map@, key_path(path, "line_map"@));
        lemma_list_issues(self.risks@, key_path(path, "risks"@));
        lemma_list_issues(self.verification@, key_path(path, "verification"@));
        lemma_list_issues(self.questions@, key_path(path, "questions"@));
        self.recommendation.lemma_issues_at(key_path(path, "recommendation"@));
    }

    fn check_at(&self, path: &String, report: &mut ValidationReport) {
        let ghost start = report@;
        let title = key_text(path, "title");
        let ghost mut done = blank_issues(self.title@, title@);
        check_not_blank(&self.title, title, report);
        let metadata = key_text(path, "metadata");
        let ghost next = self.metadata.issues_at(metadata@);
        self.metadata.check_at(&metadata, report);
        proof {
            lemma_report_grows(start, done, next);
            done = done + next;
        }
        let thesis = key_text(path, "thesis");
        let ghost next = self.thesis.issues_at(thesis@);
        self.thesis.check_at(&thesis, report);
        proof {
            lemma_report_grows(start, done, next);
            done = done + next;
        }
        let reading_order = key_text(path, "reading_order");
        let ghost next = list_issues(self.reading_order@, reading_order@);
        check_list(&self.reading_order, &reading_order, report);
        proof {
            lemma_report_grows(start, done, next);
            done = done + next;
        }
        let ghost next = min_len_issues(self.reading_order@.len(), reading_order@);
        check_not_empty(self.reading_order.len(), reading_order, report);
        proof {
            lemma_report_grows(start, done, next);
            done = done + next;
        }
        let line_map = key_text(path, "line_map");
        let ghost next = list_issues(self.line_map@, line_map@);
        check_list(&self.line_map, &line_map, report);
        proof {
            lemma_report_grows(start, done, next);
            done = done + next;
        }
        let ghost next = min_len_issues(self.line_map@.len(), line_map@);
        check_not_empty(self.line_map.len(), line_map, report);
        proof {
            lemma_report_grows(start, done, next);
            done = done + next;
        }
        let risks = key_text(path, "risks");
        let ghost next = list_issues(self.risks@, risks@);
        check_list(&self.risks, &risks, report);
        proof {
            lemma_report_grows(start, done, next);
            done = done + next;
        }
        let verification = key_text(path, "verification");
        let ghost next = list_issues(self.verification@, verification@);
        check_list(&self.verification, &verification, report);
        proof {
            lemma_report_grows(start, done, next);
            done = done + next;
        }
        let ghost next = min_len_issues(self.verification@.len(), verification@);
        check_not_empty(self.verification.len(), verification, report);
        proof {
            lemma_report_grows(start, done, next);
            done = done + next;
        }
        let questions = key_text(path, "questions");
        let ghost next = list_issues(self.questions@, questions@);
        check_list(&self.questions, &questions, report);
        proof {
            lemma_report_grows(start, done, next);
            done = done + next;
        }
        let recommendation = key_text(path, "recommendation");
        let ghost next = self.recommendation.issues_at(recommendation@);
        self.recommendation.check_at(&recommendation, report);
        proof {
            lemma_report_grows(start, done, next);
            done = done + next;
        }
    }
}

impl GuidedReview {
    /// Checks every rule of the review. `Ok` exactly when the review keeps
    /// them all; otherwise the report lists each broken rule, with the path
    /// of the offending value, in field order.
    pub fn validate(&self) -> (r: Result<(), ValidationReport>)
        ensures
            r is Ok <==> self.is_valid(),
            match r {
                Ok(()) => self.issues_at(Seq::empty()).len() == 0,
                Err(report) => report@ == self.issues_at(Seq::empty()) && report@.len() > 0,
            },
    {
        let mut report = ValidationReport::new();
        let root = String::new();
        self.check_at(&root, &mut report);
        proof {
            self.lemma_issues_at(Seq::empty());
            assert(report@ =~= self.issues_at(Seq::empty()));
        }
        if report.is_empty() {
            Ok(())
        } else {
            Err(report)
        }
    }
}

} // verus!

verus! {

/// An approval that carries blockers is rejected, and the report names the
/// recommendation: `recommendation: an approve recommendation cannot
/// include blockers`.
pub proof fn lemma_approve_with_blockers_is_rejected(review: GuidedReview)
    requires
        review.recommendation.decision == ReviewDecision::Approve,
        review.recommendation.blockers@.len() > 0,
    ensures
        !review.is_valid(),
        review.issues_at(Seq::empty()).contains(
            ("recommendation"@, "an approve recommendation cannot include blockers"@),
        ),
{
    let p = key_path(Seq::empty(), "recommendation"@);
    assert(p == "recommendation"@);
    let all = review.issues_at(Seq::empty());
    let tail = review.recommendation.issues_at(p);
    let head = all.subrange(0, all.len() - tail.len());
    assert(all =~= head + tail);
    assert(tail[0] == (p, "an approve recommendation cannot include blockers"@));
    assert(all[head.len() as int] == tail[0]);
}

/// A claim without evidence is rejected wherever it stands: the report
/// names its `evidence` list as too short.
pub proof fn lemma_claim_without_evidence_is_rejected(claim: SupportedClaim, path: Seq<char>)
    requires
        claim.evidence@.len() == 0,
    ensures
        !claim.is_valid(),
        claim.issues_at(path).contains((key_path(path, "evidence"@), "length is lower than 1"@)),
{
    let all = claim.issues_at(path);
    let last = (key_path(path, "evidence"@), "length is lower than 1"@);
    assert(all[all.len() - 1] == last);
}

} // verus!
