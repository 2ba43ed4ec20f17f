//! Rule kinds and their meaning on a single selected value.

use vstd::prelude::*;
use crate::number::{JsonNumber, num_lt};
use crate::pattern::pattern_matches;
use crate::value::{JVal, JsonValue, deep_contains, has_key, is_empty, json_eq, shallow_contains};

verus! {

/// What a rule demands of the values that its query selects.
#[derive(Debug)]
pub enum CheckRule {
    /// Every value is empty (null, `""`, `[]`, `{}`); also passes when
    /// nothing is selected.
    Empty,
    /// Every value is non-empty.
    NonEmpty,
    /// Some value equals `value`.
    Equals { value: JsonValue },
    /// No value equals `value`.
    NotEquals { value: JsonValue },
    /// Some value shallowly contains `value`.
    Contains { value: JsonValue },
    /// Every value is shallowly contained in `value`.
    ContainedBy { value: JsonValue },
    /// Some value structurally contains `value`.
    JsonbContains { value: JsonValue },
    /// Every value is structurally contained in `value`.
    JsonbContainedBy { value: JsonValue },
    /// Some value is an object with member `key`.
    JsonbExists { key: String },
    /// Some value is an object with at least one of `keys`.
    JsonbExistsAny { keys: Vec<String> },
    /// Some value is an object with all of `keys`.
    JsonbExistsAll { keys: Vec<String> },
    /// Passes on any non-empty selection.
    JsonbPathMatch { path: String },
    /// Some value is a string in which `pattern` finds a match.
    Regex { pattern: String },
    /// Some value is a number above `value`.
    GreaterThan { value: JsonNumber },
    /// Some value is a number below `value`.
    LessThan { value: JsonNumber },
    /// Some value is an array whose length lies within the given bounds
    /// (both inclusive, an absent bound is no constraint).
    ArrayLength { min: Option<usize>, max: Option<usize> },
}

/// The views of a list of strings.
pub open spec fn key_views(keys: Seq<String>) -> Seq<Seq<char>> {
    keys.map_values(|k: String| k@)
}

/// Whether `len` lies within the optional inclusive bounds.
pub open spec fn length_within(len: nat, min: Option<usize>, max: Option<usize>) -> bool {
    &&& (min matches Some(m) ==> len >= m)
    &&& (max matches Some(m) ==> len <= m)
}

/// `o` has a member named by one of `ks`.
pub open spec fn has_any_key(o: Seq<(Seq<char>, JVal)>, ks: Seq<Seq<char>>) -> bool {
    exists|i: int| 0 <= i < ks.len() && has_key(o, #[trigger] ks[i])
}

/// `o` has a member named by each of `ks`.
pub open spec fn has_all_keys(o: Seq<(Seq<char>, JVal)>, ks: Seq<Seq<char>>) -> bool {
    forall|i: int| 0 <= i < ks.len() ==> has_key(o, #[trigger] ks[i])
}

/// The condition that a rule puts on one selected value.
pub open spec fn value_ok(check: CheckRule, v: JVal) -> bool {
    match check {
        CheckRule::Empty => is_empty(v),
        CheckRule::NonEmpty => !is_empty(v),
        CheckRule::Equals { value } => json_eq(v, value@),
        CheckRule::NotEquals { value } => !json_eq(v, value@),
        CheckRule::Contains { value } => shallow_contains(v, value@),
        CheckRule::ContainedBy { value } => shallow_contains(value@, v),
        CheckRule::JsonbContains { value } => deep_contains(v, value@),
        CheckRule::JsonbContainedBy { value } => deep_contains(value@, v),
        CheckRule::JsonbExists { key } => match v {
            JVal::Obj(o) => has_key(o, key@),
            _ => false,
        },
        CheckRule::JsonbExistsAny { keys } => match v {
            JVal::Obj(o) => has_any_key(o, key_views(keys@)),
            _ => false,
        },
        CheckRule::JsonbExistsAll { keys } => match v {
            JVal::Obj(o) => has_all_keys(o, key_views(keys@)),
            _ => false,
        },
        CheckRule::JsonbPathMatch { .. } => true,
        CheckRule::Regex { pattern } => match v {
            JVal::Str(s) => pattern_matches(pattern@, s),
            _ => false,
        },
        CheckRule::GreaterThan { value } => match v {
            JVal::Num(n) => num_lt(value, n),
            _ => false,
        },
        CheckRule::LessThan { value } => match v {
            JVal::Num(n) => num_lt(n, value),
            _ => false,
        },
        CheckRule::ArrayLength { min, max } => match v {
            JVal::Arr(s) => length_within(s.len(), min, max),
            _ => false,
        },
    }
}

/// Kinds that every selected value has to satisfy; the others need one.
pub open spec fn is_universal(check: CheckRule) -> bool {
    match check {
        CheckRule::Empty | CheckRule::NonEmpty | CheckRule::NotEquals { .. }
        | CheckRule::ContainedBy { .. } | CheckRule::JsonbContainedBy { .. } => true,
        _ => false,
    }
}

/// The verdict of a rule on a selection.
pub open spec fn evaluate(sel: Seq<JVal>, check: CheckRule) -> bool {
    if sel.len() == 0 {
        check is Empty
    } else if is_universal(check) {
        forall|i: int| 0 <= i < sel.len() ==> value_ok(check, #[trigger] sel[i])
    } else {
        exists|i: int| 0 <= i < sel.len() && value_ok(check, #[trigger] sel[i])
    }
}

/// With nothing selected, a rule passes exactly when it is `Empty`.
pub proof fn lemma_empty_selection(check: CheckRule)
    ensures
        evaluate(Seq::empty(), check) == (check is Empty),
{
}

/// Every value is either empty or non-empty, never both, and a single
/// selected value passes `Empty` when it is empty and `NonEmpty` when it is
/// not.
pub proof fn lemma_emptiness_complete(v: JVal)
    ensures
        is_empty(v) || !is_empty(v),
        !(is_empty(v) && !is_empty(v)),
        evaluate(seq![v], CheckRule::Empty) == is_empty(v),
        evaluate(seq![v], CheckRule::NonEmpty) == !is_empty(v),
{
    let s = seq![v];
    assert(s[0] == v);
    if evaluate(s, CheckRule::Empty) {
        assert(value_ok(CheckRule::Empty, s[0]));
    }
    if evaluate(s, CheckRule::NonEmpty) {
        assert(value_ok(CheckRule::NonEmpty, s[0]));
    }
}

} // verus!
