//! The rule evaluator and the attribution of failures to selected values.

use vstd::prelude::*;
use crate::config::{CheckError, CheckResult, Config, ErrorView, ResultView, Rule, pairs_view};
use crate::containment;
use crate::pattern::{Pattern, compile_pattern, pattern_compiles, pattern_is_match};
use crate::rules::{
    CheckRule, evaluate, has_all_keys, has_any_key, is_universal, key_views, value_ok,
};
use crate::path_finder::{
    find_nth_occurrence_path, item_occurrences, member_occurrences, occurrences, root_segments,
    wildcard,
};
use crate::paths::{
    index_child, index_segment, index_segment_string, join_path, replace_all, replace_chars,
};
use crate::text::{chars_of, find_substring, string_of};
use crate::value::{
    JVal, JsonValue, deep_contains, has_key, is_empty, is_substring, json_eq, lemma_view_items,
    occurs_at, shallow_contains, values_equal, view_items, view_members,
};

verus! {

/// The views of the selected values.
pub open spec fn selection(values: Seq<JsonValue>) -> Seq<JVal> {
    values.map_values(|v: JsonValue| v@)
}

/// A rule whose regular expression does not compile cannot be evaluated on
/// a non-empty selection.
pub open spec fn pattern_fails(sel_len: nat, check: CheckRule) -> bool {
    sel_len > 0 && match check {
        CheckRule::Regex { pattern } => !pattern_compiles(pattern@),
        _ => false,
    }
}

/// Kinds whose failure is blamed on the values that fail the per-value
/// condition.
pub open spec fn blames_each(check: CheckRule) -> bool {
    match check {
        CheckRule::Empty | CheckRule::NonEmpty | CheckRule::NotEquals { .. }
        | CheckRule::ContainedBy { .. } | CheckRule::JsonbContainedBy { .. }
        | CheckRule::Regex { .. } | CheckRule::GreaterThan { .. } | CheckRule::LessThan { .. }
        | CheckRule::ArrayLength { .. } => true,
        _ => false,
    }
}

/// Kinds that need one matching value, and blame the whole selection when
/// there is none.
pub open spec fn blames_all_unless_matched(check: CheckRule) -> bool {
    match check {
        CheckRule::Equals { .. } | CheckRule::Contains { .. } | CheckRule::JsonbContains {
            ..
        } => true,
        _ => false,
    }
}

/// Whether position `i` of the selection is reported as invalid.
pub open spec fn index_invalid(sel: Seq<JVal>, check: CheckRule, i: int) -> bool {
    if blames_each(check) {
        match check {
            CheckRule::Regex { pattern } => pattern_compiles(pattern@) && !value_ok(check, sel[i]),
            _ => !value_ok(check, sel[i]),
        }
    } else if blames_all_unless_matched(check) {
        !(exists|j: int| 0 <= j < sel.len() && value_ok(check, #[trigger] sel[j]))
    } else {
        true
    }
}

/// `r` lists, in increasing order, exactly the positions of `sel` that are
/// reported as invalid.
pub open spec fn lists_invalid(r: Seq<usize>, sel: Seq<JVal>, check: CheckRule) -> bool {
    &&& forall|k: int| 0 <= k < r.len() ==> #[trigger] r[k] < sel.len()
    &&& forall|k: int, l: int| 0 <= k < l < r.len() ==> r[k] < r[l]
    &&& forall|i: int|
        0 <= i < sel.len() ==> (r.contains(i as usize) <==> #[trigger] index_invalid(sel, check, i))
}

/// Whether `v` meets the condition of `check`; `pattern` is the compiled
/// pattern of a `Regex` rule.
fn check_value(check: &CheckRule, v: &JsonValue, pattern: &Option<Pattern>) -> (r: bool)
    requires
        check matches CheckRule::Regex { pattern: p } ==> pattern matches Some(pt) && pt.source()
            == p@,
    ensures
        r == value_ok(*check, v@),
{
    match check {
        CheckRule::Empty => containment::is_empty_value(v),
        CheckRule::NonEmpty => !containment::is_empty_value(v),
        CheckRule::Equals { value } => values_equal(v, value),
        CheckRule::NotEquals { value } => !values_equal(v, value),
        CheckRule::Contains { value } => containment::contains(v, value),
        CheckRule::ContainedBy { value } => containment::contains(value, v),
        CheckRule::JsonbContains { value } => containment::jsonb_contains(v, value),
        CheckRule::JsonbContainedBy { value } => containment::jsonb_contains(value, v),
        CheckRule::JsonbExists { key } => match v {
            JsonValue::Object(o) => containment::find_member(o, key).is_some(),
            _ => false,
        },
        CheckRule::JsonbExistsAny { keys } => match v {
            JsonValue::Object(o) => {
                let ghost ks = key_views(keys@);
                let mut i: usize = 0;
                while i < keys.len()
                    invariant
                        *v == JsonValue::Object(*o),
                        *check == (CheckRule::JsonbExistsAny { keys: *keys }),
                        i <= keys.len(),
                        ks == key_views(keys@),
                        forall|j: int|
                            0 <= j < i ==> !has_key(view_members(o@), #[trigger] ks[j]),
                    decreases keys.len() - i,
                {
                    if containment::find_member(o, &keys[i]).is_some() {
                        assert(has_key(view_members(o@), ks[i as int]));
                        assert(v@ == JVal::Obj(view_members(o@)));
                        assert(has_any_key(view_members(o@), ks));
                        return true;
                    }
                    i = i + 1;
                }
                assert(v@ == JVal::Obj(view_members(o@)));
                assert(!has_any_key(view_members(o@), ks));
                false
            },
            _ => false,
        },
        CheckRule::JsonbExistsAll { keys } => match v {
            JsonValue::Object(o) => {
                let ghost ks = key_views(keys@);
                let mut i: usize = 0;
                while i < keys.len()
                    invariant
                        *v == JsonValue::Object(*o),
                        *check == (CheckRule::JsonbExistsAll { keys: *keys }),
                        i <= keys.len(),
                        ks == key_views(keys@),
                        forall|j: int|
                            0 <= j < i ==> has_key(view_members(o@), #[trigger] ks[j]),
                    decreases keys.len() - i,
                {
                    if containment::find_member(o, &keys[i]).is_none() {
                        assert(!has_key(view_members(o@), ks[i as int]));
                        assert(v@ == JVal::Obj(view_members(o@)));
                        assert(!has_all_keys(view_members(o@), ks));
                        return false;
                    }
                    i = i + 1;
                }
                assert(v@ == JVal::Obj(view_members(o@)));
                assert(has_all_keys(view_members(o@), ks));
                true
            },
            _ => false,
        },
        CheckRule::JsonbPathMatch { .. } => true,
        CheckRule::Regex { .. } => match v {
            JsonValue::String(s) => match pattern {
                Some(pt) => pattern_is_match(pt, s.as_str()),
                None => false,
            },
            _ => false,
        },
        CheckRule::GreaterThan { value } => match v {
            JsonValue::Number(n) => value.less_than(n),
            _ => false,
        },
        CheckRule::LessThan { value } => match v {
            JsonValue::Number(n) => n.less_than(value),
            _ => false,
        },
        CheckRule::ArrayLength { min, max } => match v {
            JsonValue::Array(a) => {
                proof {
                    lemma_view_items(a@);
                }
                let len = a.len();
                let min_ok = match min {
                    Some(m) => len >= *m,
                    None => true,
                };
                let max_ok = match max {
                    Some(m) => len <= *m,
                    None => true,
                };
                min_ok && max_ok
            },
            _ => false,
        },
    }
}

/// The compiled pattern of a `Regex` rule, or nothing for other kinds.
fn prepare_pattern(check: &CheckRule) -> (r: Result<Option<Pattern>, CheckError>)
    ensures
        match r {
            Ok(p) => check matches CheckRule::Regex { pattern } ==> p matches Some(pt)
                && pt.source() == pattern@ && pattern_compiles(pattern@),
            Err(e) => check matches CheckRule::Regex { pattern } && !pattern_compiles(pattern@)
                && e@ == crate::config::ErrorView::PatternInvalid(pattern@),
        },
{
    match check {
        CheckRule::Regex { pattern } => match compile_pattern(pattern) {
            Ok(pt) => Ok(Some(pt)),
            Err(_) => Err(CheckError::PatternInvalid { pattern: pattern.clone() }),
        },
        _ => Ok(None),
    }
}

/// The validation engine over a set of rules.
pub struct JsonChecker {
    pub config: Config,
}

impl JsonChecker {
    /// A checker over the rules of `config`.
    pub fn from_config(config: Config) -> (r: JsonChecker)
        ensures
            r.config == config,
    {
        JsonChecker { config }
    }

    /// Whether `container` shallowly contains `contained`.
    pub fn contains(&self, container: &JsonValue, contained: &JsonValue) -> (r: bool)
        ensures
            r == shallow_contains(container@, contained@),
    {
        containment::contains(container, contained)
    }

    /// Whether `left` structurally contains `right`.
    pub fn jsonb_contains(&self, left: &JsonValue, right: &JsonValue) -> (r: bool)
        ensures
            r == deep_contains(left@, right@),
    {
        containment::jsonb_contains(left, right)
    }

    /// Whether `value` is null, `""`, `[]` or `{}`.
    pub fn is_empty_value(&self, value: &JsonValue) -> (r: bool)
        ensures
            r == is_empty(value@),
    {
        containment::is_empty_value(value)
    }

    /// The verdict of `check` on the selected `values`: nothing selected
    /// passes only `Empty`; universal kinds need every value, the others one.
    /// Fails only when a `Regex` rule's pattern does not compile and there is
    /// something to match.
    pub fn apply_check(&self, values: &[JsonValue], check: &CheckRule) -> (r: Result<
        bool,
        CheckError,
    >)
        ensures
            r is Err <==> pattern_fails(values@.len(), *check),
            r matches Ok(b) ==> b == evaluate(selection(values@), *check),
            r matches Err(e) ==> e@ == crate::config::ErrorView::PatternInvalid(
                check->Regex_pattern@,
            ),
    {
        let ghost sel = selection(values@);
        if values.len() == 0 {
            return Ok(matches!(check, CheckRule::Empty));
        }
        let pattern = match prepare_pattern(check) {
            Ok(p) => p,
            Err(e) => return Err(e),
        };
        let universal = match check {
            CheckRule::Empty | CheckRule::NonEmpty | CheckRule::NotEquals { .. }
            | CheckRule::ContainedBy { .. } | CheckRule::JsonbContainedBy { .. } => true,
            _ => false,
        };
        assert(universal == is_universal(*check));
        let mut i: usize = 0;
        while i < values.len()
            invariant
                i <= values.len(),
                sel == selection(values@),
                universal == is_universal(*check),
                values.len() > 0,
                check matches CheckRule::Regex { pattern: p } ==> pattern matches Some(pt)
                    && pt.source() == p@ && pattern_compiles(p@),
                universal ==> forall|j: int| 0 <= j < i ==> value_ok(*check, #[trigger] sel[j]),
                !universal ==> forall|j: int|
                    0 <= j < i ==> !value_ok(*check, #[trigger] sel[j]),
            decreases values.len() - i,
        {
            let ok = check_value(check, &values[i], &pattern);
            assert(sel[i as int] == values@[i as int]@);
            if universal && !ok {
                return Ok(false);
            }
            if !universal && ok {
                return Ok(true);
            }
            i = i + 1;
        }
        Ok(universal)
    }

    /// The positions of the selected values blamed for a failure, in
    /// increasing order. Kinds with a per-value condition blame each value
    /// that fails it (none when a pattern does not compile); `Equals`,
    /// `Contains` and `JsonbContains` blame every value when none matches,
    /// and no value otherwise; the remaining kinds blame every value.
    pub fn find_invalid_value_indices(&self, values: &[JsonValue], check: &CheckRule) -> (r: Vec<
        usize,
    >)
        ensures
            r@ == invalid_list(selection(values@), *check),
            lists_invalid(r@, selection(values@), *check),
    {
        let ghost sel = selection(values@);
        let n = values.len();
        proof {
            assert(sel.len() == n);
            lemma_invalid_prefix_lists(sel, *check, sel.len());
        }
        let mut out: Vec<usize> = Vec::new();
        let each = match check {
            CheckRule::Empty | CheckRule::NonEmpty | CheckRule::NotEquals { .. }
            | CheckRule::ContainedBy { .. } | CheckRule::JsonbContainedBy { .. }
            | CheckRule::Regex { .. } | CheckRule::GreaterThan { .. } | CheckRule::LessThan { .. }
            | CheckRule::ArrayLength { .. } => true,
            _ => false,
        };
        assert(each == blames_each(*check));
        if each {
            let pattern = match prepare_pattern(check) {
                Ok(pt) => pt,
                Err(_) => {
                    proof {
                        lemma_invalid_prefix_none(sel, *check, sel.len());
                    }
                    return out;
                },
            };
            let mut i: usize = 0;
            while i < values.len()
                invariant
                    i <= values.len(),
                    sel == selection(values@),
                    blames_each(*check),
                    check matches CheckRule::Regex { pattern: q } ==> pattern matches Some(pt)
                        && pt.source() == q@ && pattern_compiles(q@),
                    out@ == invalid_prefix(sel, *check, i as nat),
                decreases values.len() - i,
            {
                let ok = check_value(check, &values[i], &pattern);
                assert(sel[i as int] == values@[i as int]@);
                if !ok {
                    out.push(i);
                }
                i = i + 1;
            }
            return out;
        }
        let any_match = match check {
            CheckRule::Equals { .. } | CheckRule::Contains { .. } | CheckRule::JsonbContains {
                ..
            } => true,
            _ => false,
        };
        assert(any_match == blames_all_unless_matched(*check));
        if any_match {
            let none: Option<Pattern> = None;
            let mut i: usize = 0;
            while i < values.len()
                invariant
                    i <= values.len(),
                    sel == selection(values@),
                    blames_all_unless_matched(*check),
                    !(check is Regex),
                    out@ == Seq::<usize>::empty(),
                    forall|j: int| 0 <= j < i ==> !value_ok(*check, #[trigger] sel[j]),
                decreases values.len() - i,
            {
                let ok = check_value(check, &values[i], &none);
                assert(sel[i as int] == values@[i as int]@);
                if ok {
                    assert(value_ok(*check, sel[i as int]));
                    proof {
                        lemma_invalid_prefix_none(sel, *check, sel.len());
                        lemma_invalid_prefix_lists(sel, *check, sel.len());
                    }
                    return out;
                }
                i = i + 1;
            }
        }
        let mut i: usize = 0;
        while i < values.len()
            invariant
                i <= values.len(),
                sel == selection(values@),
                !blames_each(*check),
                forall|j: int| 0 <= j < sel.len() ==> #[trigger] index_invalid(sel, *check, j),
                out@ == invalid_prefix(sel, *check, i as nat),
            decreases values.len() - i,
        {
            out.push(i);
            i = i + 1;
        }
        out
    }

    /// The path of the selected value at `index` in `json`. A query with a
    /// wildcard array segment `[*]` gives its path directly, with `[index]`
    /// put in place of every wildcard. Otherwise the value that the query
    /// selected at `index` is looked up by occurrence: the path is the one of
    /// its `index`-th structurally equal node, in document order, if there
    /// are that many.
    pub fn find_path_for_selected_value(
        &self,
        json: &JsonValue,
        jsonpath: &str,
        selected: &[JsonValue],
        index: usize,
    ) -> (r: Option<String>)
        ensures
            match r {
                Some(p) => located_path(json@, jsonpath@, selection(selected@), index as int)
                    == Some(p@),
                None => located_path(json@, jsonpath@, selection(selected@), index as int) is None,
            },
    {
        let query = chars_of(jsonpath);
        let star = vec!['[', '*', ']'];
        assert(star@ =~= wildcard());
        if find_substring(&star, &query) {
            let seg = index_segment_string(index);
            let seg_chars = chars_of(seg.as_str());
            let replaced = replace_chars(&query, &star, &seg_chars);
            return Some(string_of(&replaced));
        }
        if index < selected.len() {
            find_nth_occurrence_path(json, &selected[index], index)
        } else {
            None
        }
    }

    /// Evaluates `rule` on the values its query selected from `document`.
    /// A failing rule with a non-empty selection carries the blamed positions
    /// and, for each one that can be located, its path and value, keeping the
    /// first of equal (path, value) pairs. Fails only when the rule's pattern
    /// does not compile.
    pub fn check_rule(&self, rule: &Rule, document: &JsonValue, selected: &[JsonValue]) -> (r:
        Result<CheckResult, CheckError>)
        ensures
            match r {
                Ok(res) => !pattern_fails(selected@.len(), rule.check) && res.wf() && res@
                    == rule_outcome(rule.name@, rule.jsonpath@, rule.check, document@, selection(selected@)),
                Err(e) => pattern_fails(selected@.len(), rule.check) && e@ == ErrorView::PatternInvalid(
                    rule.check->Regex_pattern@,
                ),
            },
    {
        let ghost sel = selection(selected@);
        let passed = match self.apply_check(selected, &rule.check) {
            Ok(b) => b,
            Err(e) => return Err(e),
        };
        if passed || selected.len() == 0 {
            let res = CheckResult::new(rule.name.clone(), passed, None);
            assert(res@.located =~= Seq::<(Seq<char>, JVal)>::empty());
            assert(res@.invalid_indices =~= Seq::<usize>::empty());
            return Ok(res);
        }
        let idx = self.find_invalid_value_indices(selected, &rule.check);
        let mut paths: Vec<String> = Vec::new();
        let mut found: Vec<JsonValue> = Vec::new();
        let mut k: usize = 0;
        assert(idx@.subrange(0, 0) =~= Seq::<usize>::empty());
        assert(pairs_view(paths@, found@) =~= Seq::<(Seq<char>, JVal)>::empty());
        while k < idx.len()
            invariant
                k <= idx.len(),
                sel == selection(selected@),
                lists_invalid(idx@, sel, rule.check),
                paths.len() == found.len(),
                pairs_view(paths@, found@) == diagnostics(
                    document@,
                    rule.jsonpath@,
                    sel,
                    idx@.subrange(0, k as int),
                ),
            decreases idx.len() - k,
        {
            let index = idx[k];
            assert(idx@.subrange(0, k + 1).drop_last() =~= idx@.subrange(0, k as int));
            let ghost prev = pairs_view(paths@, found@);
            match self.find_path_for_selected_value(document, rule.jsonpath.as_str(), selected, index) {
                Some(p) => {
                    let ghost entry = (p@, sel[index as int]);
                    assert(sel[index as int] == selected@[index as int]@);
                    if !holds_pair(&paths, &found, &p, &selected[index]) {
                        paths.push(p);
                        found.push(selected[index].deep_copy());
                        assert(pairs_view(paths@, found@) =~= prev.push(entry));
                    }
                },
                None => {},
            }
            k = k + 1;
        }
        assert(idx@.subrange(0, k as int) =~= idx@);
        Ok(CheckResult::with_positions(rule.name.clone(), false, idx, paths, found))
    }

    /// Runs every rule on its input, in order. The input of a rule is the
    /// document and the values its query selected, or why they could not be
    /// had; such a failure, like a pattern that does not compile, turns into
    /// a failed result of that rule alone.
    pub fn run(&self, inputs: &Vec<Result<RuleInput, CheckError>>) -> (r: Vec<CheckResult>)
        requires
            inputs.len() == self.config.rules.len(),
        ensures
            r.len() == self.config.rules.len(),
            results_view(r@) == batch_results(self.config.rules@, inputs@),
    {
        let mut results: Vec<CheckResult> = Vec::new();
        let mut i: usize = 0;
        while i < inputs.len()
            invariant
                i <= inputs.len() == self.config.rules.len(),
                results.len() == i,
                forall|j: int|
                    0 <= j < i ==> (#[trigger] results@[j])@ == rule_result(
                        self.config.rules@[j],
                        inputs@[j],
                    ),
            decreases inputs.len() - i,
        {
            let rule = &self.config.rules[i];
            let res = match &inputs[i] {
                Ok(input) => match self.check_rule(rule, &input.document, input.selected.as_slice()) {
                    Ok(res) => res,
                    Err(e) => CheckResult::new(rule.name.clone(), false, Some(e)),
                },
                Err(e) => CheckResult::new(rule.name.clone(), false, Some(e.copy())),
            };
            assert(res@.located =~= rule_result(self.config.rules@[i as int], inputs@[i as int]).located);
            assert(res@.invalid_indices =~= rule_result(self.config.rules@[i as int], inputs@[i as int]).invalid_indices);
            results.push(res);
            i = i + 1;
        }
        assert(results_view(results@) =~= batch_results(self.config.rules@, inputs@));
        results
    }
}

/// Whether the pair (`p`, `v`) is already among the pairs of `paths` and
/// `values`.
fn holds_pair(paths: &Vec<String>, values: &Vec<JsonValue>, p: &String, v: &JsonValue) -> (r:
    bool)
    requires
        paths.len() == values.len(),
    ensures
        r == has_pair(pairs_view(paths@, values@), p@, v@),
{
    let ghost pv = pairs_view(paths@, values@);
    let mut i: usize = 0;
    while i < paths.len()
        invariant
            i <= paths.len() == values.len(),
            pv == pairs_view(paths@, values@),
            forall|j: int| 0 <= j < i ==> !(pv[j].0 == p@ && #[trigger] json_eq(pv[j].1, v@)),
        decreases paths.len() - i,
    {
        if paths[i] == *p && values_equal(&values[i], v) {
            assert(pv[i as int].0 == p@ && json_eq(pv[i as int].1, v@));
            return true;
        }
        i = i + 1;
    }
    false
}

/// What a rule runs on: its document and the values its query selected
/// there, in the order the query produced them.
pub struct RuleInput {
    pub document: JsonValue,
    pub selected: Vec<JsonValue>,
}

/// The path reported for the selected value at `index` (see
/// `JsonChecker::find_path_for_selected_value`).
pub open spec fn located_path(doc: JVal, query: Seq<char>, sel: Seq<JVal>, index: int) -> Option<
    Seq<char>,
> {
    if is_substring(wildcard(), query) {
        Some(replace_all(query, wildcard(), index_segment(index as nat)))
    } else if 0 <= index < sel.len() {
        let occ = occurrences(doc, sel[index], root_segments(), true);
        if index < occ.len() {
            Some(occ[index])
        } else {
            None
        }
    } else {
        None
    }
}

/// The (path, value) pairs located for the blamed positions `idx`, in
/// order, keeping the first of equal pairs.
pub open spec fn diagnostics(doc: JVal, query: Seq<char>, sel: Seq<JVal>, idx: Seq<usize>) -> Seq<
    (Seq<char>, JVal),
>
    decreases idx.len(),
{
    if idx.len() == 0 {
        Seq::empty()
    } else {
        let prev = diagnostics(doc, query, sel, idx.drop_last());
        let i = idx.last() as int;
        match located_path(doc, query, sel, i) {
            Some(p) => if 0 <= i < sel.len() && !has_pair(prev, p, sel[i]) {
                prev.push((p, sel[i]))
            } else {
                prev
            },
            None => prev,
        }
    }
}

/// `pairs` holds the path `p` with a value equal to `v`.
pub open spec fn has_pair(pairs: Seq<(Seq<char>, JVal)>, p: Seq<char>, v: JVal) -> bool {
    exists|k: int| 0 <= k < pairs.len() && pairs[k].0 == p && #[trigger] json_eq(pairs[k].1, v)
}

/// The result of a rule that could be evaluated on a selection.
pub open spec fn rule_outcome(
    name: Seq<char>,
    query: Seq<char>,
    check: CheckRule,
    doc: JVal,
    sel: Seq<JVal>,
) -> ResultView {
    if pattern_fails(sel.len(), check) {
        ResultView {
            rule_name: name,
            passed: false,
            error: Some(ErrorView::PatternInvalid(check->Regex_pattern@)),
            invalid_indices: Seq::empty(),
            located: Seq::empty(),
        }
    } else if evaluate(sel, check) || sel.len() == 0 {
        ResultView {
            rule_name: name,
            passed: evaluate(sel, check),
            error: None,
            invalid_indices: Seq::empty(),
            located: Seq::empty(),
        }
    } else {
        let idx = invalid_list(sel, check);
        ResultView {
            rule_name: name,
            passed: false,
            error: None,
            invalid_indices: idx,
            located: diagnostics(doc, query, sel, idx),
        }
    }
}

/// The result of a rule on its input.
pub open spec fn rule_result(rule: Rule, input: Result<RuleInput, CheckError>) -> ResultView {
    match input {
        Ok(inp) => rule_outcome(
            rule.name@,
            rule.jsonpath@,
            rule.check,
            inp.document@,
            selection(inp.selected@),
        ),
        Err(e) => ResultView {
            rule_name: rule.name@,
            passed: false,
            error: Some(e@),
            invalid_indices: Seq::empty(),
            located: Seq::empty(),
        },
    }
}

/// The results of a batch of rules, each on its own input.
pub open spec fn batch_results(rules: Seq<Rule>, inputs: Seq<Result<RuleInput, CheckError>>) -> Seq<
    ResultView,
> {
    Seq::new(rules.len(), |i: int| rule_result(rules[i], inputs[i]))
}

/// The views of a list of results.
pub open spec fn results_view(r: Seq<CheckResult>) -> Seq<ResultView> {
    r.map_values(|x: CheckResult| x@)
}

/// The positions below `n` that are reported as invalid, in increasing
/// order.
pub open spec fn invalid_prefix(sel: Seq<JVal>, check: CheckRule, n: nat) -> Seq<usize>
    decreases n,
{
    if n == 0 {
        Seq::empty()
    } else if index_invalid(sel, check, n - 1) {
        invalid_prefix(sel, check, (n - 1) as nat).push((n - 1) as usize)
    } else {
        invalid_prefix(sel, check, (n - 1) as nat)
    }
}

/// All positions of the selection that are reported as invalid, in
/// increasing order.
pub open spec fn invalid_list(sel: Seq<JVal>, check: CheckRule) -> Seq<usize> {
    invalid_prefix(sel, check, sel.len())
}

proof fn lemma_invalid_prefix_none(sel: Seq<JVal>, check: CheckRule, n: nat)
    requires
        forall|j: int| 0 <= j < n ==> !#[trigger] index_invalid(sel, check, j),
    ensures
        invalid_prefix(sel, check, n) == Seq::<usize>::empty(),
    decreases n,
{
    if n > 0 {
        lemma_invalid_prefix_none(sel, check, (n - 1) as nat);
    }
}

proof fn lemma_invalid_prefix_lists(sel: Seq<JVal>, check: CheckRule, n: nat)
    requires
        n <= sel.len(),
        sel.len() <= usize::MAX,
    ensures
        ({
            let r = invalid_prefix(sel, check, n);
            &&& forall|k: int| 0 <= k < r.len() ==> #[trigger] r[k] < n
            &&& forall|k: int, l: int| 0 <= k < l < r.len() ==> r[k] < r[l]
            &&& forall|i: int|
                0 <= i < n ==> (r.contains(i as usize) <==> #[trigger] index_invalid(sel, check, i))
        }),
    decreases n,
{
    if n > 0 {
        lemma_invalid_prefix_lists(sel, check, (n - 1) as nat);
        let prev = invalid_prefix(sel, check, (n - 1) as nat);
        let r = invalid_prefix(sel, check, n);
        assert forall|i: int| 0 <= i < n implies (r.contains(i as usize) <==> #[trigger] index_invalid(
            sel,
            check,
            i,
        )) by {
            if i < n - 1 {
                if prev.contains(i as usize) {
                    let k = choose|k: int| 0 <= k < prev.len() && prev[k] == i as usize;
                    assert(r[k] == i as usize);
                }
                if r.contains(i as usize) {
                    let k = choose|k: int| 0 <= k < r.len() && r[k] == i as usize;
                    if k < prev.len() {
                        assert(prev[k] == i as usize);
                    }
                }
            } else {
                if index_invalid(sel, check, i) {
                    assert(r[r.len() - 1] == i as usize);
                } else if r.contains(i as usize) {
                    let k = choose|k: int| 0 <= k < r.len() && r[k] == i as usize;
                    assert(prev[k] < n - 1);
                }
            }
        }
    }
}

} // verus!

verus! {

/// A rule whose regular expression does not compile, run on a non-empty
/// selection, fails with `PatternInvalid`; the results of the other rules in
/// the batch do not depend on it: they stay the same whatever rule stands in
/// its place, and the same when it is taken out of the batch.
pub proof fn lemma_pattern_failure_isolated(
    rules: Seq<Rule>,
    inputs: Seq<Result<RuleInput, CheckError>>,
    i: int,
    other: Rule,
)
    requires
        inputs.len() == rules.len(),
        0 <= i < rules.len(),
        rules[i].check is Regex,
        !pattern_compiles(rules[i].check->Regex_pattern@),
        inputs[i] matches Ok(inp) && inp.selected.len() > 0,
    ensures
        !batch_results(rules, inputs)[i].passed,
        batch_results(rules, inputs)[i].error == Some(
            ErrorView::PatternInvalid(rules[i].check->Regex_pattern@),
        ),
        forall|j: int|
            0 <= j < rules.len() && j != i ==> #[trigger] batch_results(rules, inputs)[j]
                == batch_results(rules.update(i, other), inputs)[j],
        forall|j: int|
            0 <= j < rules.len() && j != i ==> #[trigger] batch_results(rules, inputs)[j]
                == batch_results(rules.remove(i), inputs.remove(i))[if j < i {
                j
            } else {
                j - 1
            }],
{
    let inp = inputs[i]->Ok_0;
    assert(selection(inp.selected@).len() == inp.selected@.len());
    assert forall|j: int| 0 <= j < rules.len() && j != i implies #[trigger] batch_results(
        rules,
        inputs,
    )[j] == batch_results(rules.update(i, other), inputs)[j] by {
        assert(rules.update(i, other)[j] == rules[j]);
    }
    assert forall|j: int| 0 <= j < rules.len() && j != i implies #[trigger] batch_results(
        rules,
        inputs,
    )[j] == batch_results(rules.remove(i), inputs.remove(i))[if j < i {
        j
    } else {
        j - 1
    }] by {
        let jj = if j < i {
            j
        } else {
            j - 1
        };
        assert(rules.remove(i)[jj] == rules[j]);
        assert(inputs.remove(i)[jj] == inputs[j]);
    }
}

/// Running the same rules on the same inputs twice gives identical results.
pub proof fn lemma_run_idempotent(
    rules: Seq<Rule>,
    inputs: Seq<Result<RuleInput, CheckError>>,
    first: Seq<CheckResult>,
    second: Seq<CheckResult>,
)
    requires
        results_view(first) == batch_results(rules, inputs),
        results_view(second) == batch_results(rules, inputs),
    ensures
        results_view(first) == results_view(second),
{
}

} // verus!

verus! {

/// `replace_all` leaves a prefix alone when no occurrence of the pattern
/// starts inside it.
proof fn lemma_replace_after_prefix(a: Seq<char>, b: Seq<char>, pat: Seq<char>, rep: Seq<char>)
    requires
        pat.len() > 0,
        forall|p: int| 0 <= p < a.len() ==> !#[trigger] occurs_at(pat, a + b, p),
    ensures
        replace_all(a + b, pat, rep) == a + replace_all(b, pat, rep),
    decreases a.len(),
{
    if a.len() > 0 {
        let s = a + b;
        let a1 = a.subrange(1, a.len() as int);
        assert(!occurs_at(pat, s, 0));
        assert forall|p: int| 0 <= p < a1.len() implies !#[trigger] occurs_at(pat, a1 + b, p) by {
            assert(!occurs_at(pat, s, p + 1));
            if p + pat.len() <= (a1 + b).len() {
                assert((a1 + b).subrange(p, p + pat.len()) =~= s.subrange(p + 1, p + 1 + pat.len()));
            }
        }
        lemma_replace_after_prefix(a1, b, pat, rep);
        assert(s.subrange(1, s.len() as int) =~= a1 + b);
        if s.len() >= pat.len() {
            assert(s.subrange(0, pat.len() as int) != pat);
        }
        assert(s[0] == a[0]);
        assert(seq![a[0]] + (a1 + replace_all(b, pat, rep)) =~= a + replace_all(b, pat, rep));
    }
}

/// An element equal to a value without members or elements has no members
/// or elements either.
proof fn lemma_equal_to_leaf(x: JVal, v: JVal)
    requires
        json_eq(x, v),
        !(v is Arr),
        !(v is Obj),
    ensures
        !(x is Arr),
        !(x is Obj),
        occurrences(x, v, Seq::empty(), true).len() == 1,
{
}

/// The first `n` occurrences among elements can be read off any longer run
/// of elements.
proof fn lemma_item_occurrences_prefix(
    xs: Seq<JVal>,
    v: JVal,
    segs: Seq<Seq<char>>,
    m: nat,
    n: nat,
)
    requires
        m <= n <= xs.len(),
    ensures
        item_occurrences(xs, v, segs, true, m).len() <= item_occurrences(xs, v, segs, true, n).len(),
        forall|q: int|
            0 <= q < item_occurrences(xs, v, segs, true, m).len() ==> #[trigger] item_occurrences(
                xs,
                v,
                segs,
                true,
                n,
            )[q] == item_occurrences(xs, v, segs, true, m)[q],
    decreases n - m,
{
    if m < n {
        lemma_item_occurrences_prefix(xs, v, segs, m, (n - 1) as nat);
    }
}

/// The occurrences of a value without members or elements among a run of
/// elements that all equal it: one per position.
proof fn lemma_equal_run_occurrences(xs: Seq<JVal>, v: JVal, segs: Seq<Seq<char>>, m: nat)
    requires
        m <= xs.len(),
        !(v is Arr),
        !(v is Obj),
        forall|j: int| 0 <= j < m ==> #[trigger] json_eq(xs[j], v),
    ensures
        item_occurrences(xs, v, segs, true, m) == Seq::new(
            m,
            |j: int| join_path(index_child(segs, j as nat, true)),
        ),
    decreases m,
{
    if m > 0 {
        lemma_equal_run_occurrences(xs, v, segs, (m - 1) as nat);
        let x = xs[m - 1];
        assert(json_eq(x, v));
        lemma_equal_to_leaf(x, v);
        let s2 = index_child(segs, (m - 1) as nat, true);
        assert(occurrences(x, v, s2, true) =~= seq![join_path(s2)]);
        assert(item_occurrences(xs, v, segs, true, m) =~= Seq::new(
            m,
            |j: int| join_path(index_child(segs, j as nat, true)),
        ));
    }
}

/// For a document `{k: [x0, x1, ...]}` and the query `$.k[*]` (with no
/// wildcard inside `k`), putting position `i` in place of the wildcard gives
/// the same path as counting the occurrences of the value selected there,
/// provided that value has no members or elements and every element up to
/// position `i` equals it. Where an earlier element differs, counting finds
/// fewer occurrences before position `i` and the two paths part.
pub proof fn lemma_wildcard_path_agrees(k: Seq<char>, xs: Seq<JVal>, i: nat)
    requires
        i < xs.len(),
        !(xs[i as int] is Arr),
        !(xs[i as int] is Obj),
        forall|j: int| 0 <= j <= i ==> #[trigger] json_eq(xs[j], xs[i as int]),
        !is_substring(wildcard(), k),
    ensures
        ({
            let doc = JVal::Obj(seq![(k, JVal::Arr(xs))]);
            let query = seq!['$', '.'] + k + seq!['[', '*', ']'];
            let occ = occurrences(doc, xs[i as int], root_segments(), true);
            &&& i < occ.len()
            &&& occ[i as int] == replace_all(query, wildcard(), index_segment(i))
        }),
{
    let v = xs[i as int];
    let arr = JVal::Arr(xs);
    let o = seq![(k, arr)];
    let doc = JVal::Obj(o);
    let root = root_segments();
    let segs = root.push(k);
    // occurrence side
    lemma_equal_run_occurrences(xs, v, segs, i + 1);
    lemma_item_occurrences_prefix(xs, v, segs, i + 1, xs.len());
    assert(!json_eq(arr, v));
    assert(!json_eq(doc, v));
    assert(occurrences(arr, v, segs, true) =~= item_occurrences(xs, v, segs, true, xs.len()));
    assert(member_occurrences(o, v, root, true, 0) =~= Seq::<Seq<char>>::empty());
    assert(member_occurrences(o, v, root, true, 1) =~= occurrences(arr, v, segs, true));
    let occ = occurrences(doc, v, root, true);
    assert(occ =~= item_occurrences(xs, v, segs, true, xs.len()));
    let seg = index_segment(i);
    let full = index_child(segs, i, true);
    assert(item_occurrences(xs, v, segs, true, i + 1)[i as int] == join_path(full));
    assert(occ[i as int] == join_path(full));
    assert(full =~= seq![seq!['$'], k + seg]);
    assert(full.drop_last() =~= root);
    assert(join_path(root) == seq!['$']);
    assert(join_path(full) == join_path(root) + seq!['.'] + (k + seg));
    assert(join_path(full) =~= seq!['$', '.'] + k + seg);
    // replacement side
    let prefix = seq!['$', '.'] + k;
    let star = wildcard();
    let query = seq!['$', '.'] + k + seq!['[', '*', ']'];
    assert(query =~= prefix + star);
    assert forall|p: int| 0 <= p < prefix.len() implies !#[trigger] occurs_at(star, prefix + star, p) by {
        let s = prefix + star;
        if occurs_at(star, s, p) {
            assert(s.subrange(p, p + 3)[0] == '[');
            assert(s.subrange(p, p + 3)[1] == '*');
            assert(s.subrange(p, p + 3)[2] == ']');
            assert(s[p] == '[' && s[p + 1] == '*' && s[p + 2] == ']');
            if p + 3 <= prefix.len() {
                assert(p >= 2);
                assert(k.subrange(p - 2, p + 1) =~= s.subrange(p, p + 3));
                assert(occurs_at(star, k, p - 2));
            } else if p + 2 == prefix.len() {
                assert(s[p + 2] == '[');
            } else {
                assert(p + 1 == prefix.len());
                assert(s[p + 1] == '[');
            }
        }
    }
    lemma_replace_after_prefix(prefix, star, star, seg);
    assert(star.subrange(0, 3) =~= star);
    assert(star.subrange(3, 3).len() == 0);
    assert(replace_all(star.subrange(3, 3), star, seg) =~= Seq::<char>::empty());
    assert(replace_all(star, star, seg) =~= seg);
}

} // verus!
