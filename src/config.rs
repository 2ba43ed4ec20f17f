//! Rules, their configuration, and the record of one rule's outcome.

use vstd::prelude::*;
use crate::rules::CheckRule;
use crate::value::{JVal, JsonValue};

verus! {

/// The rules to run, in the order in which results are reported.
#[derive(Debug)]
pub struct Config {
    pub rules: Vec<Rule>,
}

/// One validation rule.
#[derive(Debug)]
pub struct Rule {
    pub name: String,
    /// Where the document comes from; resolved by the caller.
    pub json_file: String,
    /// The path query that selects the values to check.
    pub jsonpath: String,
    pub check: CheckRule,
}

/// Why a rule could not be evaluated.
#[derive(Debug)]
pub enum CheckError {
    /// The document could not be read.
    DocumentUnavailable { reason: String },
    /// The document is not valid JSON.
    DocumentMalformed { reason: String },
    /// The path query was rejected.
    QueryFailed { reason: String },
    /// The regular expression of a `Regex` rule does not compile.
    PatternInvalid { pattern: String },
}

/// The view of a `CheckError`: its kind and its text.
pub enum ErrorView {
    DocumentUnavailable(Seq<char>),
    DocumentMalformed(Seq<char>),
    QueryFailed(Seq<char>),
    PatternInvalid(Seq<char>),
}

impl View for CheckError {
    type V = ErrorView;

    open spec fn view(&self) -> ErrorView {
        match self {
            CheckError::DocumentUnavailable { reason } => ErrorView::DocumentUnavailable(reason@),
            CheckError::DocumentMalformed { reason } => ErrorView::DocumentMalformed(reason@),
            CheckError::QueryFailed { reason } => ErrorView::QueryFailed(reason@),
            CheckError::PatternInvalid { pattern } => ErrorView::PatternInvalid(pattern@),
        }
    }
}

/// The outcome of one rule.
#[derive(Debug)]
pub struct CheckResult {
    pub rule_name: String,
    pub passed: bool,
    /// Why the rule could not be evaluated, if it could not.
    pub error: Option<CheckError>,
    /// Positions in the selection of the values blamed for a failure.
    pub invalid_indices: Vec<usize>,
    /// Paths of the blamed values in the document, without repeated
    /// (path, value) pairs.
    pub invalid_positions: Vec<String>,
    /// The blamed values, one for each entry of `invalid_positions`.
    pub values_found: Vec<JsonValue>,
}

/// Paths paired with the values found at them.
pub open spec fn pairs_view(paths: Seq<String>, values: Seq<JsonValue>) -> Seq<(Seq<char>, JVal)> {
    Seq::new(paths.len(), |i: int| (paths[i]@, values[i]@))
}

impl CheckError {
    /// A copy of the error.
    pub fn copy(&self) -> (r: CheckError)
        ensures
            r@ == self@,
    {
        match self {
            CheckError::DocumentUnavailable { reason } => CheckError::DocumentUnavailable {
                reason: reason.clone(),
            },
            CheckError::DocumentMalformed { reason } => CheckError::DocumentMalformed {
                reason: reason.clone(),
            },
            CheckError::QueryFailed { reason } => CheckError::QueryFailed { reason: reason.clone() },
            CheckError::PatternInvalid { pattern } => CheckError::PatternInvalid {
                pattern: pattern.clone(),
            },
        }
    }
}

/// The view of a `CheckResult`.
pub struct ResultView {
    pub rule_name: Seq<char>,
    pub passed: bool,
    pub error: Option<ErrorView>,
    pub invalid_indices: Seq<usize>,
    pub located: Seq<(Seq<char>, JVal)>,
}

impl View for CheckResult {
    type V = ResultView;

    open spec fn view(&self) -> ResultView {
        ResultView {
            rule_name: self.rule_name@,
            passed: self.passed,
            error: match self.error {
                Some(e) => Some(e@),
                None => None,
            },
            invalid_indices: self.invalid_indices@,
            located: pairs_view(self.invalid_positions@, self.values_found@),
        }
    }
}

impl CheckResult {
    /// Positions and values are paired one to one.
    pub open spec fn wf(&self) -> bool {
        self.invalid_positions.len() == self.values_found.len()
    }

    /// A result without diagnostics.
    pub fn new(rule_name: String, passed: bool, error: Option<CheckError>) -> (r: CheckResult)
        ensures
            r.wf(),
            r.rule_name == rule_name,
            r.passed == passed,
            r.error == error,
            r.invalid_indices@.len() == 0,
            r.invalid_positions@.len() == 0,
            r.values_found@.len() == 0,
    {
        CheckResult {
            rule_name,
            passed,
            error,
            invalid_indices: Vec::new(),
            invalid_positions: Vec::new(),
            values_found: Vec::new(),
        }
    }

    /// A failed or passed result with the given diagnostics.
    pub fn with_positions(
        rule_name: String,
        passed: bool,
        invalid_indices: Vec<usize>,
        invalid_positions: Vec<String>,
        values_found: Vec<JsonValue>,
    ) -> (r: CheckResult)
        ensures
            r.rule_name == rule_name,
            r.passed == passed,
            r.error is None,
            r.invalid_indices == invalid_indices,
            r.invalid_positions == invalid_positions,
            r.values_found == values_found,
    {
        CheckResult { rule_name, passed, error: None, invalid_indices, invalid_positions, values_found }
    }
}

} // verus!
