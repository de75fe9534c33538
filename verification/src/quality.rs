//! Evaluation results and code review.

use vstd::prelude::*;
use vstd::string::StringExecFns;

verus! {

/// One recommendation out of an evaluation.
#[derive(Clone, Debug)]
pub struct Recommendation {
    pub id: String,
    pub category: RecommendationCategory,
    pub priority: RecommendationPriority,
    pub title: String,
    pub description: String,
    pub suggested_action: Option<String>,
    pub affected_dimensions: Option<Vec<String>>,
}

/// What a recommendation is about.
#[derive(Clone, Copy, Debug, PartialEq, Eq, Structural)]
pub enum RecommendationCategory {
    Structure,
    Composability,
    Performance,
    Security,
    Maintainability,
    Testing,
    Documentation,
    Patterns,
}

/// How urgent a recommendation is.
#[derive(Clone, Copy, Debug, PartialEq, Eq, Structural)]
pub enum RecommendationPriority {
    Critical,
    High,
    Medium,
    Low,
    Info,
}

/// What kind of artifact was evaluated.
#[derive(Clone, Copy, Debug, PartialEq, Eq, Structural)]
pub enum ArtifactType {
    Code,
    Architecture,
    Design,
    Prompt,
    Response,
    Workflow,
    Configuration,
    Documentation,
}

/// One issue found in a review.
#[derive(Clone, Debug)]
pub struct CodeReviewIssue {
    pub id: String,
    pub severity: IssueSeverity,
    pub category: IssueCategory,
    pub file_path: Option<String>,
    pub line_number: Option<u32>,
    pub message: String,
    pub suggestion: Option<String>,
}

/// How severe an issue is.
#[derive(Clone, Copy, Debug, PartialEq, Eq, Structural)]
pub enum IssueSeverity {
    Error,
    Warning,
    Info,
    Hint,
}

/// What an issue concerns.
#[derive(Clone, Copy, Debug, PartialEq, Eq, Structural)]
pub enum IssueCategory {
    Bug,
    Security,
    Performance,
    Style,
    Complexity,
    Duplication,
    TypeSafety,
    ErrorHandling,
    Documentation,
}

/// The outcome of one review.
#[derive(Clone, Debug)]
pub struct CodeReviewResult {
    pub id: String,
    pub file_path: String,
    pub issues: Vec<CodeReviewIssue>,
    pub summary: ReviewSummary,
    pub approved: bool,
    pub reviewer_id: String,
    pub timestamp: String,
}

/// Issue counts of one review.
#[derive(Clone, Debug)]
pub struct ReviewSummary {
    pub total_issues: usize,
    pub errors: usize,
    pub warnings: usize,
    pub info: usize,
    pub hints: usize,
    pub overall_quality: String,
}

/// Counts the issues at `severity`.
pub open spec fn count_severity(issues: Seq<CodeReviewIssue>, severity: IssueSeverity) -> int {
    issues.filter(|i: CodeReviewIssue| i.severity == severity).len() as int
}

/// Reviews code: counts issues and approves only clean results.
#[derive(Debug)]
pub struct CodeReviewer {
    pub reviewer_id: String,
    pub auto_approve_threshold: usize,
}

impl CodeReviewer {
    /// Approves only results without blocking errors.
    pub fn new(reviewer_id: String) -> (r: Self)
        ensures
            r.reviewer_id@ == reviewer_id@,
            r.auto_approve_threshold == 0,
    {
        CodeReviewer { reviewer_id, auto_approve_threshold: 0 }
    }

    /// Summarizes `issues` for `file_path`: exact counts per severity,
    /// and approval exactly when no error exceeds the threshold.
    pub fn review(&self, file_path: &str, issues: Vec<CodeReviewIssue>) -> (r: CodeReviewResult)
        ensures
            r.file_path@ == file_path@,
            r.reviewer_id@ == self.reviewer_id@,
            r.issues@ == issues@,
            r.summary.total_issues == issues@.len(),
            r.summary.errors == count_severity(issues@, IssueSeverity::Error),
            r.summary.warnings == count_severity(issues@, IssueSeverity::Warning),
            r.summary.info == count_severity(issues@, IssueSeverity::Info),
            r.summary.hints == count_severity(issues@, IssueSeverity::Hint),
            r.approved == (count_severity(issues@, IssueSeverity::Error)
                <= self.auto_approve_threshold),
    {
        let ghost err_pred = |i: CodeReviewIssue| i.severity == IssueSeverity::Error;
        let ghost warn_pred = |i: CodeReviewIssue| i.severity == IssueSeverity::Warning;
        let ghost info_pred = |i: CodeReviewIssue| i.severity == IssueSeverity::Info;
        let ghost hint_pred = |i: CodeReviewIssue| i.severity == IssueSeverity::Hint;
        let n = issues.len();
        let mut errors: usize = 0;
        let mut warnings: usize = 0;
        let mut info: usize = 0;
        let mut hints: usize = 0;
        let mut i: usize = 0;
        proof {
            assert(issues@.take(0) =~= Seq::<CodeReviewIssue>::empty());
            reveal(Seq::filter);
        }
        while i < n
            invariant
                0 <= i <= n,
                n == issues@.len(),
                err_pred == (|i: CodeReviewIssue| i.severity == IssueSeverity::Error),
                warn_pred == (|i: CodeReviewIssue| i.severity == IssueSeverity::Warning),
                info_pred == (|i: CodeReviewIssue| i.severity == IssueSeverity::Info),
                hint_pred == (|i: CodeReviewIssue| i.severity == IssueSeverity::Hint),
                errors == issues@.take(i as int).filter(err_pred).len(),
                warnings == issues@.take(i as int).filter(warn_pred).len(),
                info == issues@.take(i as int).filter(info_pred).len(),
                hints == issues@.take(i as int).filter(hint_pred).len(),
                errors <= i && warnings <= i && info <= i && hints <= i,
            decreases n - i,
        {
            proof {
                assert(issues@.take(i + 1) =~= issues@.take(i as int).push(issues@[i as int]));
                crate::log::lemma_filter_push(issues@.take(i as int), issues@[i as int], err_pred);
                crate::log::lemma_filter_push(
                    issues@.take(i as int),
                    issues@[i as int],
                    warn_pred,
                );
                crate::log::lemma_filter_push(
                    issues@.take(i as int),
                    issues@[i as int],
                    info_pred,
                );
                crate::log::lemma_filter_push(
                    issues@.take(i as int),
                    issues@[i as int],
                    hint_pred,
                );
            }
            match issues[i].severity {
                IssueSeverity::Error => {
                    errors = errors + 1;
                },
                IssueSeverity::Warning => {
                    warnings = warnings + 1;
                },
                IssueSeverity::Info => {
                    info = info + 1;
                },
                IssueSeverity::Hint => {
                    hints = hints + 1;
                },
            }
            i = i + 1;
        }
        proof {
            assert(issues@.take(n as int) =~= issues@);
        }
        let overall_quality = if errors == 0 && warnings == 0 {
            String::from_str("excellent")
        } else if errors == 0 {
            String::from_str("good")
        } else {
            String::from_str("needs work")
        };
        let approved = errors <= self.auto_approve_threshold;
        CodeReviewResult {
            id: crate::state::new_unique_id(),
            file_path: String::from_str(file_path),
            issues,
            summary: ReviewSummary {
                total_issues: n,
                errors,
                warnings,
                info,
                hints,
                overall_quality,
            },
            approved,
            reviewer_id: self.reviewer_id.clone(),
            timestamp: String::new(),
        }
    }
}

} // verus!
