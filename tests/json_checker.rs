use json_checker_rs::json_path_finder;
use json_checker_rs::path_finder::{
    find_invalid_paths, find_json_path, find_json_paths_matching, format_path_readable,
};
use json_checker_rs::value::values_equal;
use json_checker_rs::{
    CheckError, CheckResult, CheckRule, Config, JsonChecker, JsonNumber, JsonValue, Rule,
    RuleInput,
};

fn number_of(n: &serde_json::Number) -> JsonNumber {
    if let Some(u) = n.as_u64() {
        JsonNumber::from_u64(u)
    } else if let Some(i) = n.as_i64() {
        JsonNumber::from_i64(i)
    } else {
        float_number(n.as_f64().unwrap())
    }
}

fn float_number(f: f64) -> JsonNumber {
    let bits = f.to_bits();
    let neg = (bits >> 63) == 1;
    let e = ((bits >> 52) & 0x7ff) as i32;
    let m = bits & ((1u64 << 52) - 1);
    if e == 0 {
        JsonNumber::new(neg, m, -1074)
    } else {
        JsonNumber::new(neg, m | (1u64 << 52), e - 1075)
    }
}

fn from_serde(v: &serde_json::Value) -> JsonValue {
    match v {
        serde_json::Value::Null => JsonValue::Null,
        serde_json::Value::Bool(b) => JsonValue::Bool(*b),
        serde_json::Value::Number(n) => JsonValue::Number(number_of(n)),
        serde_json::Value::String(s) => JsonValue::String(s.clone()),
        serde_json::Value::Array(a) => JsonValue::Array(a.iter().map(from_serde).collect()),
        serde_json::Value::Object(o) => JsonValue::Object(
            o.iter().map(|(k, v)| (k.clone(), from_serde(v))).collect(),
        ),
    }
}

fn j(text: &str) -> JsonValue {
    from_serde(&serde_json::from_str(text).unwrap())
}

fn s(text: &str) -> JsonValue {
    JsonValue::String(text.to_string())
}

fn root() -> Vec<String> {
    vec!["$".to_string()]
}

fn create_test_checker() -> JsonChecker {
    JsonChecker::from_config(Config { rules: vec![] })
}

fn test_apply_check(checker: &JsonChecker, values: Vec<JsonValue>, check: &CheckRule) -> bool {
    checker.apply_check(&values, check).unwrap()
}

/// Selects with the path-query crate, as the application does.
fn select(doc_text: &str, query: &str) -> (JsonValue, Vec<JsonValue>) {
    let doc: serde_json::Value = serde_json::from_str(doc_text).unwrap();
    let selected = jsonpath_lib::select(&doc, query).unwrap();
    (from_serde(&doc), selected.into_iter().map(from_serde).collect())
}

fn rule(name: &str, query: &str, check: CheckRule) -> Rule {
    Rule {
        name: name.to_string(),
        json_file: "doc.json".to_string(),
        jsonpath: query.to_string(),
        check,
    }
}

fn same_results(a: &CheckResult, b: &CheckResult) -> bool {
    a.rule_name == b.rule_name
        && a.passed == b.passed
        && a.invalid_indices == b.invalid_indices
        && a.invalid_positions == b.invalid_positions
        && a.values_found.len() == b.values_found.len()
        && a.values_found.iter().zip(b.values_found.iter()).all(|(x, y)| values_equal(x, y))
        && format!("{:?}", a.error) == format!("{:?}", b.error)
}

// ---- path finding ----

#[test]
fn test_todo_md_example() {
    let json = j(r#"
    {
        "user": {
            "name": "Leo",
            "details": {
                "age": 30,
                "location": "Taiwan"
            }
        }
    }
    "#);
    let target = s("Taiwan");
    let result = json_path_finder::find_json_path(&json, &target, root());
    assert_eq!(result, Some("$.user.details.location".to_string()));
}

#[test]
fn test_find_name() {
    let json = j(r#"{"user": {"name": "Leo", "details": {"age": 30, "location": "Taiwan"}}}"#);
    let target = s("Leo");
    let result = json_path_finder::find_json_path(&json, &target, root());
    assert_eq!(result, Some("$.user.name".to_string()));
}

#[test]
fn test_find_number() {
    let json = j(r#"{"user": {"name": "Leo", "details": {"age": 30, "location": "Taiwan"}}}"#);
    let target = JsonValue::Number(JsonNumber::from_u64(30));
    let result = json_path_finder::find_json_path(&json, &target, root());
    assert_eq!(result, Some("$.user.details.age".to_string()));
}

#[test]
fn test_value_not_found() {
    let json = j(r#"{"name": "Leo"}"#);
    let target = s("NotFound");
    let result = json_path_finder::find_json_path(&json, &target, root());
    assert_eq!(result, None);
}

#[test]
fn test_array_indexing() {
    let json = j(r#"{"items": ["first", "second", "Taiwan"]}"#);
    let target = s("Taiwan");
    let result = json_path_finder::find_json_path(&json, &target, root());
    assert_eq!(result, Some("$.items.[2]".to_string()));
}

#[test]
fn test_find_json_path_simple() {
    let json = j(r#"{"name": "Leo"}"#);
    let path = find_json_path(&json, &s("Leo"), root());
    assert_eq!(path, Some("$.name".to_string()));
}

#[test]
fn test_find_json_path_nested() {
    let json = j(r#"{"user": {"details": {"location": "Taiwan"}}}"#);
    let path = find_json_path(&json, &s("Taiwan"), root());
    assert_eq!(path, Some("$.user.details.location".to_string()));
}

#[test]
fn test_find_json_path_array() {
    let json = j(r#"["first", "second", "third"]"#);
    let path = find_json_path(&json, &s("second"), root());
    assert_eq!(path, Some("$.[1]".to_string()));
}

#[test]
fn test_find_json_path_not_found() {
    let json = j(r#"{"name": "Leo"}"#);
    let path = find_json_path(&json, &s("NotFound"), root());
    assert_eq!(path, None);
}

#[test]
fn test_find_json_paths_matching() {
    let json = j(r#"{"numbers": [1, 2, 3, 4, 5], "nested": {"value": 10}}"#);
    let three = JsonNumber::from_i64(3);
    let paths = find_json_paths_matching(
        &json,
        |v: &JsonValue| matches!(v, JsonValue::Number(n) if three.less_than(n)),
        root(),
    );
    assert!(paths.contains(&"$.numbers.[3]".to_string()));
    assert!(paths.contains(&"$.numbers.[4]".to_string()));
    assert!(paths.contains(&"$.nested.value".to_string()));
}

#[test]
fn find_paths_in_document_order() {
    let json = j(r#"{"numbers": [1, 2, 3, 4, 5], "nested": {"value": 10}}"#);
    let three = JsonNumber::from_i64(3);
    let big = |v: &JsonValue| matches!(v, JsonValue::Number(n) if three.less_than(n));
    let paths = find_json_paths_matching(&json, big, root());
    assert_eq!(paths, vec!["$.numbers.[3]", "$.numbers.[4]", "$.nested.value"]);
    let not_big = |v: &JsonValue| !big(v);
    let small = find_invalid_paths(&json, not_big, root());
    assert_eq!(small, paths);
    let strings = find_json_paths_matching(&json, |v: &JsonValue| matches!(v, JsonValue::String(_)), root());
    assert!(strings.is_empty());
}

#[test]
fn test_format_path_readable() {
    assert_eq!(
        format_path_readable("$.user.details[0].name"),
        "user → details → item 0 → name"
    );
    assert_eq!(format_path_readable("$.simple"), "simple");
}

#[test]
fn find_json_path_root_match_and_multi_digit_index() {
    let json = j(r#"[0,1,2,3,4,5,6,7,8,9,10,11,"x"]"#);
    assert_eq!(find_json_path(&json, &s("x"), root()), Some("$.[12]".to_string()));
    assert_eq!(find_json_path(&json, &json, root()), Some("$".to_string()));
    assert_eq!(find_json_path(&j("1"), &j("1"), vec![]), Some("".to_string()));
}

#[test]
fn find_nth_occurrence_counts_in_document_order() {
    let json = j(r#"{"a": "x", "b": ["x", {"c": "x"}]}"#);
    let target = s("x");
    let checker = create_test_checker();
    let sel = vec![s("x"), s("x"), s("x"), s("x")];
    assert_eq!(
        checker.find_path_for_selected_value(&json, "$..*", &sel, 0),
        Some("$.a".to_string())
    );
    assert_eq!(
        checker.find_path_for_selected_value(&json, "$..*", &sel, 1),
        Some("$.b[0]".to_string())
    );
    assert_eq!(
        checker.find_path_for_selected_value(&json, "$..*", &sel, 2),
        Some("$.b[1].c".to_string())
    );
    assert_eq!(checker.find_path_for_selected_value(&json, "$..*", &sel, 3), None);
    assert_eq!(
        json_checker_rs::path_finder::find_nth_occurrence_path(&json, &target, 1),
        Some("$.b[0]".to_string())
    );
}

#[test]
fn wildcard_query_substitutes_every_wildcard() {
    let checker = create_test_checker();
    let json = j("{}");
    assert_eq!(
        checker.find_path_for_selected_value(&json, "$.a[*].b[*]", &[], 13),
        Some("$.a[13].b[13]".to_string())
    );
}

// ---- rule evaluation ----

#[test]
fn test_empty_check() {
    let checker = create_test_checker();
    let check = CheckRule::Empty;
    let empty_values = vec![j("null"), j(r#""""#), j("[]"), j("{}")];
    assert!(test_apply_check(&checker, empty_values, &check));
    let non_empty_values = vec![j(r#""test""#), j("[1, 2]"), j(r#"{"key": "value"}"#), j("42")];
    assert!(!test_apply_check(&checker, non_empty_values, &check));
    assert!(test_apply_check(&checker, vec![], &check));
}

#[test]
fn test_non_empty_check() {
    let checker = create_test_checker();
    let check = CheckRule::NonEmpty;
    let non_empty_values = vec![
        j(r#""test""#),
        j("[1, 2]"),
        j(r#"{"key": "value"}"#),
        j("42"),
        j("true"),
    ];
    assert!(test_apply_check(&checker, non_empty_values, &check));
    let empty_values = vec![j("null"), j(r#""""#), j("[]"), j("{}")];
    assert!(!test_apply_check(&checker, empty_values, &check));
    let mixed_values = vec![j(r#""test""#), j(r#""""#)];
    assert!(!test_apply_check(&checker, mixed_values, &check));
}

#[test]
fn test_equals_check() {
    let checker = create_test_checker();
    let check = CheckRule::Equals { value: s("admin") };
    assert!(test_apply_check(&checker, vec![s("admin"), s("user")], &check));
    assert!(!test_apply_check(&checker, vec![s("user"), s("guest")], &check));
    let number_check = CheckRule::Equals { value: j("42") };
    assert!(test_apply_check(&checker, vec![j("42")], &number_check));
}

#[test]
fn test_not_equals_check() {
    let checker = create_test_checker();
    let check = CheckRule::NotEquals { value: s("admin") };
    assert!(test_apply_check(&checker, vec![s("user"), s("guest")], &check));
    assert!(!test_apply_check(&checker, vec![s("admin"), s("user")], &check));
}

#[test]
fn test_contains_check() {
    let checker = create_test_checker();
    let array_check = CheckRule::Contains { value: s("search") };
    assert!(test_apply_check(&checker, vec![j(r#"["search", "auth", "api"]"#)], &array_check));
    assert!(!test_apply_check(&checker, vec![j(r#"["auth", "api"]"#)], &array_check));
    let string_check = CheckRule::Contains { value: s("test") };
    assert!(test_apply_check(&checker, vec![s("testing123")], &string_check));
    assert!(!test_apply_check(&checker, vec![s("example")], &string_check));
    let object_check = CheckRule::Contains { value: j(r#"{"name": "John"}"#) };
    let object_values = vec![j(r#"{"name": "John", "age": 30}"#)];
    assert!(test_apply_check(&checker, object_values, &object_check));
}

#[test]
fn test_contained_by_check() {
    let checker = create_test_checker();
    let check = CheckRule::ContainedBy { value: j(r#"["a", "b", "c", "d"]"#) };
    assert!(test_apply_check(&checker, vec![s("b")], &check));
    assert!(!test_apply_check(&checker, vec![s("z")], &check));
}

#[test]
fn test_jsonb_contains() {
    let checker = create_test_checker();
    let left = j(r#"{"a": 1, "b": 2}"#);
    let right = j(r#"{"a": 1}"#);
    assert!(checker.jsonb_contains(&left, &right));
    let left = j(r#"{"a": 1}"#);
    let right = j(r#"{"a": 1, "b": 2}"#);
    assert!(!checker.jsonb_contains(&left, &right));
    let check = CheckRule::JsonbContains { value: j(r#"{"database": {"host": "localhost"}}"#) };
    let values = vec![j(r#"{"database": {"host": "localhost", "port": 5432}}"#)];
    assert!(test_apply_check(&checker, values, &check));
}

#[test]
fn test_regex_check() {
    let checker = create_test_checker();
    let check = CheckRule::Regex {
        pattern: r"^[a-zA-Z0-9._%+-]+@[a-zA-Z0-9.-]+\.[a-zA-Z]{2,}$".to_string(),
    };
    assert!(test_apply_check(&checker, vec![s("user@example.com")], &check));
    assert!(!test_apply_check(&checker, vec![s("invalid-email")], &check));
}

#[test]
fn test_greater_than_check() {
    let checker = create_test_checker();
    let check = CheckRule::GreaterThan { value: float_number(18.0) };
    assert!(test_apply_check(&checker, vec![j("25")], &check));
    assert!(!test_apply_check(&checker, vec![j("15")], &check));
}

#[test]
fn test_less_than_check() {
    let checker = create_test_checker();
    let check = CheckRule::LessThan { value: float_number(100.0) };
    assert!(test_apply_check(&checker, vec![j("50")], &check));
    assert!(!test_apply_check(&checker, vec![j("150")], &check));
}

#[test]
fn test_array_length_check() {
    let checker = create_test_checker();
    let check = CheckRule::ArrayLength { min: Some(1), max: Some(5) };
    assert!(test_apply_check(&checker, vec![j("[1, 2, 3]")], &check));
    assert!(!test_apply_check(&checker, vec![j("[]")], &check));
}

#[test]
fn test_jsonb_exists_checks() {
    let checker = create_test_checker();
    let exists_check = CheckRule::JsonbExists { key: "email".to_string() };
    assert!(test_apply_check(&checker, vec![j(r#"{"email": "test@example.com"}"#)], &exists_check));
    assert!(!test_apply_check(&checker, vec![j(r#"{"name": "John"}"#)], &exists_check));
    let exists_all_check =
        CheckRule::JsonbExistsAll { keys: vec!["email".to_string(), "name".to_string()] };
    let with_all_keys = vec![j(r#"{"email": "test@example.com", "name": "John"}"#)];
    assert!(test_apply_check(&checker, with_all_keys, &exists_all_check));
    let with_some_keys = vec![j(r#"{"email": "test@example.com"}"#)];
    assert!(!test_apply_check(&checker, with_some_keys, &exists_all_check));
}

#[test]
fn test_jsonb_contained_by_check() {
    let checker = create_test_checker();
    let check = CheckRule::JsonbContainedBy { value: j(r#"{"a": 1, "b": 2, "c": 3}"#) };
    assert!(test_apply_check(&checker, vec![j(r#"{"a": 1}"#)], &check));
    assert!(!test_apply_check(&checker, vec![j(r#"{"a": 1, "b": 2, "d": 4}"#)], &check));
}

#[test]
fn test_jsonb_exists_any_check() {
    let checker = create_test_checker();
    let check = CheckRule::JsonbExistsAny { keys: vec!["email".to_string(), "phone".to_string()] };
    let with_email = vec![j(r#"{"email": "test@example.com", "name": "John"}"#)];
    assert!(test_apply_check(&checker, with_email, &check));
    let with_phone = vec![j(r#"{"phone": "123-456-7890", "name": "John"}"#)];
    assert!(test_apply_check(&checker, with_phone, &check));
    assert!(!test_apply_check(&checker, vec![j(r#"{"name": "John"}"#)], &check));
}

#[test]
fn test_jsonb_path_match_check() {
    let checker = create_test_checker();
    let check = CheckRule::JsonbPathMatch { path: "$.users[*].email".to_string() };
    let values = vec![j(r#"{"users": [{"email": "test@example.com"}]}"#)];
    assert!(test_apply_check(&checker, values, &check));
}

#[test]
fn test_edge_cases_and_comprehensive_coverage() {
    let checker = create_test_checker();
    assert!(test_apply_check(&checker, vec![], &CheckRule::Empty));
    assert!(!test_apply_check(&checker, vec![], &CheckRule::NonEmpty));
    let array_check = CheckRule::ArrayLength { min: None, max: Some(3) };
    assert!(test_apply_check(&checker, vec![j("[1, 2]")], &array_check));
    let regex_check = CheckRule::Regex { pattern: "test".to_string() };
    assert!(!test_apply_check(&checker, vec![j("42")], &regex_check));
    let gt_check = CheckRule::GreaterThan { value: float_number(10.0) };
    assert!(!test_apply_check(&checker, vec![s("not_a_number")], &gt_check));
}

#[test]
fn test_helper_functions() {
    let checker = create_test_checker();
    assert!(checker.contains(&j("[1, 2, 3]"), &j("2")));
    assert!(checker.contains(&s("hello world"), &s("world")));
    let obj_container = j(r#"{"a": 1, "b": 2, "c": 3}"#);
    let obj_contained = j(r#"{"a": 1, "b": 2}"#);
    assert!(checker.contains(&obj_container, &obj_contained));
    assert!(checker.is_empty_value(&j("null")));
    assert!(checker.is_empty_value(&j(r#""""#)));
    assert!(checker.is_empty_value(&j("[]")));
    assert!(checker.is_empty_value(&j("{}")));
    assert!(!checker.is_empty_value(&s("test")));
    assert!(!checker.is_empty_value(&j("42")));
    assert!(!checker.is_empty_value(&j("true")));
    assert!(!checker.is_empty_value(&j("false")));
}

// ---- further cases ----

#[test]
fn empty_selection_passes_only_empty() {
    let checker = create_test_checker();
    let kinds = vec![
        CheckRule::NonEmpty,
        CheckRule::Equals { value: j("1") },
        CheckRule::NotEquals { value: j("1") },
        CheckRule::Contains { value: j("1") },
        CheckRule::ContainedBy { value: j("[1]") },
        CheckRule::JsonbContains { value: j("1") },
        CheckRule::JsonbContainedBy { value: j("1") },
        CheckRule::JsonbExists { key: "k".to_string() },
        CheckRule::JsonbExistsAny { keys: vec!["k".to_string()] },
        CheckRule::JsonbExistsAll { keys: vec![] },
        CheckRule::JsonbPathMatch { path: "$".to_string() },
        CheckRule::Regex { pattern: "(".to_string() },
        CheckRule::GreaterThan { value: JsonNumber::from_i64(0) },
        CheckRule::LessThan { value: JsonNumber::from_i64(0) },
        CheckRule::ArrayLength { min: None, max: None },
    ];
    for k in &kinds {
        assert!(!test_apply_check(&checker, vec![], k));
    }
    assert!(test_apply_check(&checker, vec![], &CheckRule::Empty));
}

#[test]
fn emptiness_on_single_values() {
    let checker = create_test_checker();
    for text in ["null", "\"\"", "[]", "{}", "0", "false", "\"a\"", "[null]", "{\"a\":null}"] {
        let v = j(text);
        let empty = checker.is_empty_value(&v);
        let single = vec![j(text)];
        assert_eq!(test_apply_check(&checker, single, &CheckRule::Empty), empty);
        let single = vec![j(text)];
        assert_eq!(test_apply_check(&checker, single, &CheckRule::NonEmpty), !empty);
    }
}

#[test]
fn deep_containment_is_asymmetric() {
    let checker = create_test_checker();
    let a = j(r#"{"a":1,"b":2}"#);
    let b = j(r#"{"a":1}"#);
    assert!(checker.jsonb_contains(&a, &b));
    assert!(!checker.jsonb_contains(&b, &a));
}

#[test]
fn deep_containment_of_arrays_is_existential() {
    let checker = create_test_checker();
    assert!(checker.jsonb_contains(&j("[1,[2,3]]"), &j("[[3,2]]")));
    assert!(!checker.jsonb_contains(&j("[1,2]"), &j("[1,2,3]")));
    assert!(checker.jsonb_contains(&j("[1,2]"), &j("[2,2,1]")));
    assert!(!checker.jsonb_contains(&j("[1]"), &j("1")));
    assert!(checker.jsonb_contains(&j("\"x\""), &j("\"x\"")));
}

#[test]
fn shallow_containment_is_exact_per_element() {
    let checker = create_test_checker();
    assert!(!checker.contains(&j("[[1,2]]"), &j("[1]")));
    assert!(checker.contains(&j("[[1,2]]"), &j("[1,2]")));
    assert!(!checker.contains(&j(r#"{"a":{"b":1,"c":2}}"#), &j(r#"{"a":{"b":1}}"#)));
    assert!(checker.contains(&s("abc"), &s("")));
    assert!(!checker.contains(&s("ab"), &s("abc")));
    assert!(!checker.contains(&j("1"), &j("1")));
}

#[test]
fn numbers_compare_by_value() {
    let checker = create_test_checker();
    assert!(values_equal(&j("1"), &j("1.0")));
    assert!(values_equal(&j("-0.0"), &j("0")));
    assert!(!values_equal(&j("0.1"), &j("0.2")));
    let half = CheckRule::GreaterThan { value: float_number(0.5) };
    assert!(test_apply_check(&checker, vec![j("0.75")], &half));
    assert!(!test_apply_check(&checker, vec![j("0.25")], &half));
    assert!(!test_apply_check(&checker, vec![j("0.5")], &half));
    let neg = CheckRule::LessThan { value: JsonNumber::from_i64(-3) };
    assert!(test_apply_check(&checker, vec![j("-4")], &neg));
    assert!(!test_apply_check(&checker, vec![j("-2.5")], &neg));
    let big = CheckRule::GreaterThan { value: JsonNumber::from_u64(u64::MAX - 1) };
    assert!(test_apply_check(&checker, vec![j("18446744073709551615")], &big));
    assert!(!test_apply_check(&checker, vec![j("1e300")], &CheckRule::LessThan {
        value: float_number(1e299)
    }));
    let tiny = CheckRule::GreaterThan { value: JsonNumber::from_i64(0) };
    assert!(test_apply_check(&checker, vec![j("5e-324")], &tiny));
}

#[test]
fn numbers_outside_normal_form_compare_by_value() {
    let two = JsonValue::Number(JsonNumber { neg: false, mant: 2, exp: 0 });
    let also_two = JsonValue::Number(JsonNumber { neg: false, mant: 1, exp: 1 });
    assert!(values_equal(&two, &also_two));
    let zero = JsonValue::Number(JsonNumber { neg: true, mant: 0, exp: 5 });
    assert!(values_equal(&zero, &j("0")));
}

#[test]
fn result_constructors() {
    let r = CheckResult::new("r".to_string(), true, None);
    assert!(r.passed && r.invalid_indices.is_empty() && r.invalid_positions.is_empty());
    let r = CheckResult::with_positions(
        "r".to_string(),
        false,
        vec![2],
        vec!["$.a".to_string()],
        vec![j("1")],
    );
    assert!(!r.passed);
    assert_eq!(r.invalid_indices, vec![2]);
    assert_eq!(r.invalid_positions, vec!["$.a".to_string()]);
    assert!(r.error.is_none());
}

#[test]
fn number_normal_form() {
    let n = JsonNumber::new(false, 12, 0);
    assert_eq!((n.neg, n.mant, n.exp), (false, 3, 2));
    let z = JsonNumber::new(true, 0, 7);
    assert_eq!((z.neg, z.mant, z.exp), (false, 0, 0));
    let m = JsonNumber::from_i64(i64::MIN);
    assert_eq!((m.neg, m.mant, m.exp), (true, 1, 63));
}

#[test]
fn array_length_bounds_are_inclusive() {
    let checker = create_test_checker();
    let check = CheckRule::ArrayLength { min: Some(2), max: Some(3) };
    assert!(test_apply_check(&checker, vec![j("[1,2]")], &check));
    assert!(test_apply_check(&checker, vec![j("[1,2,3]")], &check));
    assert!(!test_apply_check(&checker, vec![j("[1,2,3,4]")], &check));
    assert!(!test_apply_check(&checker, vec![j(r#"{"a":1,"b":2}"#)], &check));
}

#[test]
fn invalid_pattern_is_an_error() {
    let checker = create_test_checker();
    let check = CheckRule::Regex { pattern: "([a-z".to_string() };
    match checker.apply_check(&[s("abc")], &check) {
        Err(CheckError::PatternInvalid { pattern }) => assert_eq!(pattern, "([a-z"),
        other => panic!("unexpected {:?}", other),
    }
    assert!(!checker.apply_check(&[], &check).unwrap());
}

#[test]
fn invalid_indices_per_kind() {
    let checker = create_test_checker();
    let values = vec![s(""), s("a"), j("null"), j("3")];
    assert_eq!(checker.find_invalid_value_indices(&values, &CheckRule::NonEmpty), vec![0, 2]);
    assert_eq!(checker.find_invalid_value_indices(&values, &CheckRule::Empty), vec![1, 3]);
    let eq = CheckRule::Equals { value: s("a") };
    assert_eq!(checker.find_invalid_value_indices(&values, &eq), Vec::<usize>::new());
    let eq_none = CheckRule::Equals { value: s("zzz") };
    assert_eq!(checker.find_invalid_value_indices(&values, &eq_none), vec![0, 1, 2, 3]);
    let key = CheckRule::JsonbExists { key: "k".to_string() };
    assert_eq!(checker.find_invalid_value_indices(&values, &key), vec![0, 1, 2, 3]);
    let bad = CheckRule::Regex { pattern: "(".to_string() };
    assert_eq!(checker.find_invalid_value_indices(&values, &bad), Vec::<usize>::new());
    let re = CheckRule::Regex { pattern: "^a$".to_string() };
    assert_eq!(checker.find_invalid_value_indices(&values, &re), vec![0, 2, 3]);
    let within = CheckRule::JsonbContainedBy { value: j(r#"["a", 3]"#) };
    assert_eq!(checker.find_invalid_value_indices(&values, &within), vec![0, 1, 2, 3]);
    let gt = CheckRule::GreaterThan { value: JsonNumber::from_i64(2) };
    assert_eq!(checker.find_invalid_value_indices(&values, &gt), vec![0, 1, 2]);
}

#[test]
fn users_email_scenario() {
    let text = r#"{"users":[{"name":"","email":"a@b.com"},{"name":"Lee","email":""}]}"#;
    let (doc, selected) = select(text, "$.users[*].email");
    let checker = create_test_checker();
    let r = rule("emails", "$.users[*].email", CheckRule::NonEmpty);
    let res = checker.check_rule(&r, &doc, &selected).unwrap();
    assert!(!res.passed);
    assert_eq!(res.invalid_indices, vec![1]);
    assert_eq!(res.invalid_positions, vec!["$.users[1].email".to_string()]);
    assert!(values_equal(&res.values_found[0], &s("")));
}

#[test]
fn whole_document_contained_by_scenario() {
    let (doc, selected) = select(r#"{"a":1,"b":2}"#, "$");
    assert_eq!(selected.len(), 1);
    let checker = create_test_checker();
    let r = rule("within", "$", CheckRule::JsonbContainedBy { value: j(r#"{"a":1,"b":2,"c":3}"#) });
    let res = checker.check_rule(&r, &doc, &selected).unwrap();
    assert!(res.passed);
    assert!(res.invalid_indices.is_empty());
}

#[test]
fn tags_equals_scenario() {
    let (doc, selected) = select(r#"{"tags":["x","y","x"]}"#, "$.tags[*]");
    assert_eq!(selected.len(), 3);
    let checker = create_test_checker();
    let r = rule("tags", "$.tags[*]", CheckRule::Equals { value: s("x") });
    let res = checker.check_rule(&r, &doc, &selected).unwrap();
    assert!(res.passed);
    assert!(res.invalid_positions.is_empty());
}

#[test]
fn failed_rule_deduplicates_located_pairs() {
    let (doc, selected) = select(r#"{"a":{"v":1},"b":{"v":1}}"#, "$..v");
    assert_eq!(selected.len(), 2);
    let checker = create_test_checker();
    let r = rule("any", "$..v", CheckRule::JsonbExists { key: "k".to_string() });
    let res = checker.check_rule(&r, &doc, &selected).unwrap();
    assert!(!res.passed);
    assert_eq!(res.invalid_indices, vec![0, 1]);
    // Index 0 is the first occurrence of 1, index 1 the second.
    assert_eq!(res.invalid_positions, vec!["$.a.v".to_string(), "$.b.v".to_string()]);
    let r = rule("eq", "$..v", CheckRule::Equals { value: j("2") });
    let res = checker.check_rule(&r, &doc, &selected).unwrap();
    assert_eq!(res.invalid_positions.len(), 2);
}

#[test]
fn wildcard_and_occurrence_paths_agree_on_repeated_values() {
    let text = r#"{"k":["v","v","v"]}"#;
    let (doc, selected) = select(text, "$.k[*]");
    let checker = create_test_checker();
    for i in 0..3 {
        let fast = checker.find_path_for_selected_value(&doc, "$.k[*]", &selected, i);
        let general = json_checker_rs::path_finder::find_nth_occurrence_path(&doc, &selected[i], i);
        assert_eq!(fast, Some(format!("$.k[{}]", i)));
        assert_eq!(fast, general);
    }
}

#[test]
fn wildcard_and_occurrence_paths_agree_on_single_element() {
    let (doc, selected) = select(r#"{"k":["x"]}"#, "$.k[*]");
    let checker = create_test_checker();
    let fast = checker.find_path_for_selected_value(&doc, "$.k[*]", &selected, 0);
    let general = json_checker_rs::path_finder::find_nth_occurrence_path(&doc, &selected[0], 0);
    assert_eq!(fast, Some("$.k[0]".to_string()));
    assert_eq!(general, Some("$.k[0]".to_string()));
}

#[test]
fn occurrence_path_writes_positions_after_the_step() {
    let text = r#"{"users":[{"name":"","email":"a@b.com"},{"name":"Lee","email":""}]}"#;
    let (doc, selected) = select(text, "$.users[*].email");
    let checker = create_test_checker();
    let fast = checker.find_path_for_selected_value(&doc, "$.users[*].email", &selected, 1);
    let general = json_checker_rs::path_finder::find_nth_occurrence_path(&doc, &selected[1], 1);
    assert_eq!(fast, Some("$.users[1].email".to_string()));
    assert_eq!(general, Some("$.users[1].email".to_string()));
    // A differing earlier element leaves counting short of the position.
    let (doc, selected) = select(r#"{"k":["x","y","x"]}"#, "$.k[*]");
    assert_eq!(
        json_checker_rs::path_finder::find_nth_occurrence_path(&doc, &selected[2], 2),
        None
    );
}

fn batch() -> (JsonChecker, Vec<Result<RuleInput, CheckError>>) {
    let text = r#"{"name":"abc","n":5}"#;
    let rules = vec![
        rule("bad pattern", "$.name", CheckRule::Regex { pattern: "([".to_string() }),
        rule("name", "$.name", CheckRule::Regex { pattern: "^a".to_string() }),
        rule("missing", "$.name", CheckRule::NonEmpty),
        rule("small", "$.n", CheckRule::LessThan { value: JsonNumber::from_i64(3) }),
    ];
    let mut inputs = Vec::new();
    for q in ["$.name", "$.name"] {
        let (document, selected) = select(text, q);
        inputs.push(Ok(RuleInput { document, selected }));
    }
    inputs.push(Err(CheckError::DocumentUnavailable { reason: "no such file".to_string() }));
    let (document, selected) = select(text, "$.n");
    inputs.push(Ok(RuleInput { document, selected }));
    (JsonChecker::from_config(Config { rules }), inputs)
}

#[test]
fn pattern_failure_stays_with_its_rule() {
    let (checker, inputs) = batch();
    let results = checker.run(&inputs);
    assert_eq!(results.len(), 4);
    assert!(!results[0].passed);
    assert!(matches!(&results[0].error, Some(CheckError::PatternInvalid { pattern }) if pattern == "(["));
    assert!(results[1].passed);
    assert!(results[1].error.is_none());
    assert!(!results[2].passed);
    assert!(matches!(&results[2].error, Some(CheckError::DocumentUnavailable { .. })));
    assert!(!results[3].passed);
    assert_eq!(results[3].invalid_indices, vec![0]);
    assert_eq!(results[3].invalid_positions, vec!["$.n".to_string()]);
    assert_eq!(results[3].rule_name, "small");
}

#[test]
fn running_twice_gives_identical_results() {
    let (checker, inputs) = batch();
    let first = checker.run(&inputs);
    let second = checker.run(&inputs);
    assert_eq!(first.len(), second.len());
    for (a, b) in first.iter().zip(second.iter()) {
        assert!(same_results(a, b));
    }
}

#[test]
fn deep_copy_keeps_the_value() {
    let v = j(r#"{"a":[1,{"b":null}],"c":"d"}"#);
    assert!(values_equal(&v, &v.deep_copy()));
    assert!(!values_equal(&v, &j(r#"{"a":[1,{"b":null}],"c":"e"}"#)));
    assert!(values_equal(&j(r#"{"a":1,"b":2}"#), &j(r#"{"b":2,"a":1}"#)));
    assert!(!values_equal(&j(r#"{"a":1,"b":2}"#), &j(r#"{"a":1,"c":2}"#)));
    assert!(!values_equal(&j("[1,2]"), &j("[2,1]")));
}
