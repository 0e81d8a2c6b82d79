//! Verified core of the guided-review page generator: pull request
//! references, review validation, and the small path and text rules the
//! command-line front end relies on.

pub mod generate;
pub mod pull_request;
pub mod report;
pub mod review;
pub mod serve;
pub mod text;

pub use generate::{default_output_path, display_input, reads_stdin};
pub use pull_request::{PullRequestRef, PullRequestRefError};
pub use report::{ValidationIssue, ValidationReport};
pub use review::{
    ClaimBasis, CodeExcerpt, CodeLine, GuidedReview, LineMapEntry, PullRequestMetadata, Question,
    ReadingStep, Recommendation, ReviewDecision, ReviewLine, Risk, RiskLevel, SupportedClaim,
    Verification, VerificationStatus,
};
pub use serve::{content_type, index_fallback, resolve, ServeArgs};
