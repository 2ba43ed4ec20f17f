//! Validation of JSON documents against declarative rules.
//!
//! The library holds the rule evaluation engine: the value model, the two
//! containment relations, the per-rule evaluation, the attribution of a
//! failure to individual selected values, and the reconstruction of the paths
//! where those values live in the document.
//! Reading files, parsing JSON text and running path queries happen around it.

pub mod number;
pub mod value;
pub mod text;
pub mod containment;
pub mod pattern;
pub mod rules;
pub mod config;
pub mod checker;
pub mod paths;
pub mod path_finder;
pub mod json_path_finder;

pub use checker::{JsonChecker, RuleInput};
pub use config::{CheckError, CheckResult, Config, Rule};
pub use number::JsonNumber;
pub use rules::CheckRule;
pub use value::JsonValue;
