//! Emptiness, shallow containment and structural containment of values.

use vstd::prelude::*;
use crate::number::JsonNumber;
use crate::value::{
    keys_unique, lemma_items_well_formed_at, lemma_json_eq_reflexive, lemma_lookup_unique,
    lemma_members_well_formed_at, items_well_formed, members_well_formed, well_formed,
    JVal, JsonValue, deep_contains, is_empty, lookup, shallow_contains, view_items, view_members,
    lemma_item_decreases, members_contained, items_matched, some_contains, lemma_member_decreases, lemma_view_items, lemma_view_members,
    values_equal, json_eq, some_equal,
};
use crate::text::{chars_of, find_substring};

verus! {

/// Whether the value is empty: null, `""`, `[]` or `{}`.
pub fn is_empty_value(v: &JsonValue) -> (r: bool)
    ensures
        r == is_empty(v@),
{
    proof {
        lemma_value_lengths(v);
    }
    match v {
        JsonValue::Null => true,
        JsonValue::String(s) => s.as_str().unicode_len() == 0,
        JsonValue::Array(a) => a.len() == 0,
        JsonValue::Object(o) => o.len() == 0,
        _ => false,
    }
}

proof fn lemma_value_lengths(v: &JsonValue)
    ensures
        v is Array ==> view_items(v->Array_0@).len() == v->Array_0.len(),
        v is Object ==> view_members(v->Object_0@).len() == v->Object_0.len(),
{
    if v is Array {
        lemma_view_items(v->Array_0@);
    }
    if v is Object {
        lemma_view_members(v->Object_0@);
    }
}

/// The position of the first member of `o` whose key is `k`.
pub fn find_member(o: &Vec<(String, JsonValue)>, k: &String) -> (r: Option<usize>)
    ensures
        match r {
            Some(i) => i < o.len() && o@[i as int].0@ == k@ && lookup(view_members(o@), k@) == Some(
                o@[i as int].1@,
            ),
            None => lookup(view_members(o@), k@) is None,
        },
{
    let ghost m = view_members(o@);
    proof {
        lemma_view_members(o@);
    }
    assert(m.skip(0) =~= m);
    let mut i: usize = 0;
    while i < o.len()
        invariant
            i <= o.len(),
            m == view_members(o@),
            m.len() == o.len(),
            forall|j: int| 0 <= j < o.len() ==> #[trigger] m[j] == (o@[j].0@, o@[j].1@),
            lookup(m, k@) == lookup(m.skip(i as int), k@),
        decreases o.len() - i,
    {
        let ghost rest = m.skip(i as int);
        assert(rest[0] == m[i as int]);
        if o[i].0 == *k {
            return Some(i);
        }
        assert(rest.skip(1) =~= m.skip(i + 1));
        i = i + 1;
    }
    assert(m.skip(i as int).len() == 0);
    None
}

/// Shallow containment: `container` holds `item` as an array element, as a
/// substring, or as a set of members with equal values.
pub fn contains(container: &JsonValue, item: &JsonValue) -> (r: bool)
    ensures
        r == shallow_contains(container@, item@),
{
    match container {
        JsonValue::Array(a) => {
            let ghost s = view_items(a@);
            proof {
                lemma_view_items(a@);
            }
            let mut i: usize = 0;
            while i < a.len()
                invariant
                    *container == JsonValue::Array(*a),
                    i <= a.len(),
                    s == view_items(a@),
                    s.len() == a.len(),
                    forall|j: int| 0 <= j < a.len() ==> #[trigger] s[j] == a@[j]@,
                    !some_equal(s, item@, i as nat),
                decreases a.len() - i,
            {
                if values_equal(&a[i], item) {
                    assert(some_equal(s, item@, (i + 1) as nat));
                    proof {
                        lemma_some_equal_grows(s, item@, (i + 1) as nat, s.len());
                    }
                    assert(container@ == JVal::Arr(s));
                    return true;
                }
                i = i + 1;
            }
            false
        },
        JsonValue::String(s) => match item {
            JsonValue::String(sub) => {
                let sv = chars_of(s.as_str());
                let subv = chars_of(sub.as_str());
                find_substring(&subv, &sv)
            },
            _ => false,
        },
        JsonValue::Object(o1) => match item {
            JsonValue::Object(o2) => {
                let ghost m1 = view_members(o1@);
                let ghost m2 = view_members(o2@);
                proof {
                    lemma_view_members(o2@);
                }
                let mut j: usize = 0;
                while j < o2.len()
                    invariant
                        *container == JsonValue::Object(*o1),
                        *item == JsonValue::Object(*o2),
                        j <= o2.len(),
                        m1 == view_members(o1@),
                        m2 == view_members(o2@),
                        m2.len() == o2.len(),
                        forall|q: int| 0 <= q < o2.len() ==> #[trigger] m2[q] == (o2@[q].0@, o2@[q].1@),
                        forall|q: int|
                            0 <= q < j ==> match #[trigger] lookup(m1, m2[q].0) {
                                Some(v1) => json_eq(v1, m2[q].1),
                                None => false,
                            },
                    decreases o2.len() - j,
                {
                    match find_member(o1, &o2[j].0) {
                        Some(i) => {
                            if !values_equal(&o1[i].1, &o2[j].1) {
                                proof {
                                    lemma_view_members(o1@);
                                }
                                assert(lookup(m1, m2[j as int].0) == Some(m1[i as int].1));
                                return false;
                            }
                        },
                        None => {
                            assert(lookup(m1, m2[j as int].0) is None);
                            return false;
                        },
                    }
                    j = j + 1;
                }
                true
            },
            _ => false,
        },
        _ => false,
    }
}

/// Structural containment `left ⊇ right`: objects member by member and
/// recursively, arrays by an existential match for every element of `right`,
/// any other pair by equality.
pub fn jsonb_contains(left: &JsonValue, right: &JsonValue) -> (r: bool)
    ensures
        r == deep_contains(left@, right@),
    decreases right,
{
    match (left, right) {
        (JsonValue::Object(lo), JsonValue::Object(ro)) => {
            let ghost ml = view_members(lo@);
            let ghost mr = view_members(ro@);
            proof {
                lemma_view_members(lo@);
                lemma_view_members(ro@);
            }
            let mut j: usize = 0;
            while j < ro.len()
                invariant
                    *left == JsonValue::Object(*lo),
                    *right == JsonValue::Object(*ro),
                    j <= ro.len(),
                    ml == view_members(lo@),
                    mr == view_members(ro@),
                    ml.len() == lo.len(),
                    mr.len() == ro.len(),
                    forall|q: int| 0 <= q < lo.len() ==> #[trigger] ml[q] == (lo@[q].0@, lo@[q].1@),
                    forall|q: int| 0 <= q < ro.len() ==> #[trigger] mr[q] == (ro@[q].0@, ro@[q].1@),
                    members_contained(ml, mr, j as nat),
                decreases ro.len() - j,
            {
                match find_member(lo, &ro[j].0) {
                    Some(i) => {
                        proof {
                            lemma_member_decreases(*right, j as int);
                        }
                        if !jsonb_contains(&lo[i].1, &ro[j].1) {
                            proof {
                                assert(left@ == JVal::Obj(ml) && right@ == JVal::Obj(mr));
                                if deep_contains(left@, right@) {
                                    lemma_members_contained_prefix(ml, mr, (j + 1) as nat, mr.len());
                                }
                            }
                            return false;
                        }
                    },
                    None => {
                        proof {
                            assert(left@ == JVal::Obj(ml) && right@ == JVal::Obj(mr));
                            if deep_contains(left@, right@) {
                                lemma_members_contained_prefix(ml, mr, (j + 1) as nat, mr.len());
                            }
                        }
                        return false;
                    },
                }
                j = j + 1;
            }
            assert(left@ == JVal::Obj(ml) && right@ == JVal::Obj(mr));
            true
        },
        (JsonValue::Array(ls), JsonValue::Array(rs)) => {
            let ghost sl = view_items(ls@);
            let ghost sr = view_items(rs@);
            proof {
                lemma_view_items(ls@);
                lemma_view_items(rs@);
            }
            let mut j: usize = 0;
            while j < rs.len()
                invariant
                    *left == JsonValue::Array(*ls),
                    *right == JsonValue::Array(*rs),
                    j <= rs.len(),
                    sl == view_items(ls@),
                    sr == view_items(rs@),
                    sl.len() == ls.len(),
                    sr.len() == rs.len(),
                    forall|q: int| 0 <= q < ls.len() ==> #[trigger] sl[q] == ls@[q]@,
                    forall|q: int| 0 <= q < rs.len() ==> #[trigger] sr[q] == rs@[q]@,
                    items_matched(sl, sr, j as nat),
                decreases rs.len() - j,
            {
                proof {
                    lemma_item_decreases(*right, j as int);
                }
                let mut found = false;
                let mut i: usize = 0;
                while i < ls.len()
                    invariant_except_break
                        !found,
                        !some_contains(sl, sr[j as int], i as nat),
                    invariant
                        *right == JsonValue::Array(*rs),
                        j < rs.len(),
                        i <= ls.len(),
                        sl == view_items(ls@),
                        sr == view_items(rs@),
                        sl.len() == ls.len(),
                        sr.len() == rs.len(),
                        forall|q: int| 0 <= q < ls.len() ==> #[trigger] sl[q] == ls@[q]@,
                        forall|q: int| 0 <= q < rs.len() ==> #[trigger] sr[q] == rs@[q]@,
                        decreases_to!(*right => rs@[j as int]),
                    ensures
                        found == some_contains(sl, sr[j as int], sl.len()),
                    decreases ls.len() - i,
                {
                    if jsonb_contains(&ls[i], &rs[j]) {
                        proof {
                            lemma_some_contains_grows(sl, sr[j as int], (i + 1) as nat, sl.len());
                        }
                        found = true;
                        break;
                    }
                    i = i + 1;
                }
                if !found {
                    proof {
                        assert(left@ == JVal::Arr(sl) && right@ == JVal::Arr(sr));
                        if deep_contains(left@, right@) {
                            lemma_items_matched_prefix(sl, sr, (j + 1) as nat, sr.len());
                        }
                    }
                    return false;
                }
                j = j + 1;
            }
            assert(left@ == JVal::Arr(sl) && right@ == JVal::Arr(sr));
            true
        },
        _ => values_equal(left, right),
    }
}

proof fn lemma_some_equal_grows(s: Seq<JVal>, x: JVal, n: nat, m: nat)
    requires
        n <= m <= s.len(),
        some_equal(s, x, n),
    ensures
        some_equal(s, x, m),
    decreases m - n,
{
    if n < m {
        lemma_some_equal_grows(s, x, n, (m - 1) as nat);
    }
}

/// A prefix of a contained run of members is contained.
proof fn lemma_members_contained_prefix(
    lo: Seq<(Seq<char>, JVal)>,
    ro: Seq<(Seq<char>, JVal)>,
    n: nat,
    m: nat,
)
    requires
        n <= m <= ro.len(),
        members_contained(lo, ro, m),
    ensures
        members_contained(lo, ro, n),
    decreases m - n,
{
    if n < m {
        lemma_members_contained_prefix(lo, ro, n, (m - 1) as nat);
    }
}

/// A prefix of a matched run of elements is matched.
proof fn lemma_items_matched_prefix(ls: Seq<JVal>, rs: Seq<JVal>, n: nat, m: nat)
    requires
        n <= m <= rs.len(),
        items_matched(ls, rs, m),
    ensures
        items_matched(ls, rs, n),
    decreases m - n,
{
    if n < m {
        lemma_items_matched_prefix(ls, rs, n, (m - 1) as nat);
    }
}

/// A match among the first `n` elements is a match among the first `m >= n`.
proof fn lemma_some_contains_grows(ls: Seq<JVal>, x: JVal, n: nat, m: nat)
    requires
        n <= m <= ls.len(),
        some_contains(ls, x, n),
    ensures
        some_contains(ls, x, m),
    decreases m - n,
{
    if n < m {
        lemma_some_contains_grows(ls, x, n, (m - 1) as nat);
    }
}

/// Structural containment is not symmetric: `{"a": 1, "b": 2}` contains
/// `{"a": 1}`, and not the other way round.
pub proof fn lemma_deep_contains_not_symmetric()
    ensures
        exists|a: JVal, b: JVal| deep_contains(a, b) && !deep_contains(b, a),
{
    let one = JVal::Num(JsonNumber { neg: false, mant: 1, exp: 0 });
    let two = JVal::Num(JsonNumber { neg: false, mant: 1, exp: 1 });
    let ka: Seq<char> = seq!['a'];
    let kb: Seq<char> = seq!['b'];
    assert(ka != kb) by {
        assert(ka[0] != kb[0]);
    }
    let big = seq![(ka, one), (kb, two)];
    let small = seq![(ka, one)];
    assert(lookup(big, ka) == Some(one));
    assert(small[0].0 != kb);
    assert(lookup(small.skip(1), kb) is None);
    assert(lookup(small, kb) is None);
    assert(members_contained(big, small, 1)) by {
        reveal_with_fuel(members_contained, 2);
    }
    assert(!members_contained(small, big, 2)) by {
        reveal_with_fuel(members_contained, 3);
    }
    assert(deep_contains(JVal::Obj(big), JVal::Obj(small)));
    assert(!deep_contains(JVal::Obj(small), JVal::Obj(big)));
}

/// Some element of `ls` structurally contains `x`.
pub open spec fn has_match(ls: Seq<JVal>, x: JVal) -> bool {
    exists|i: int| 0 <= i < ls.len() && #[trigger] deep_contains(ls[i], x)
}

/// Structural containment of arrays is an existential match per element of
/// the right side: position, order and length do not matter.
pub proof fn lemma_deep_contains_arrays(ls: Seq<JVal>, rs: Seq<JVal>)
    ensures
        deep_contains(JVal::Arr(ls), JVal::Arr(rs)) <==> forall|j: int|
            0 <= j < rs.len() ==> #[trigger] has_match(ls, rs[j]),
{
    lemma_items_matched_all(ls, rs, rs.len());
}

proof fn lemma_some_contains_exists(ls: Seq<JVal>, x: JVal, n: nat)
    requires
        n <= ls.len(),
    ensures
        some_contains(ls, x, n) <==> exists|i: int| 0 <= i < n && #[trigger] deep_contains(ls[i], x),
    decreases n,
{
    if n > 0 {
        lemma_some_contains_exists(ls, x, (n - 1) as nat);
        if some_contains(ls, x, n) && !deep_contains(ls[n - 1], x) {
            let i = choose|i: int| 0 <= i < n - 1 && #[trigger] deep_contains(ls[i], x);
            assert(0 <= i < n && deep_contains(ls[i], x));
        }
        if exists|i: int| 0 <= i < n && #[trigger] deep_contains(ls[i], x) {
            let i = choose|i: int| 0 <= i < n && #[trigger] deep_contains(ls[i], x);
            if i < n - 1 {
                assert(some_contains(ls, x, (n - 1) as nat));
            }
        }
    }
}

proof fn lemma_items_matched_all(ls: Seq<JVal>, rs: Seq<JVal>, n: nat)
    requires
        n <= rs.len(),
    ensures
        items_matched(ls, rs, n) <==> forall|j: int| 0 <= j < n ==> #[trigger] has_match(ls, rs[j]),
    decreases n,
{
    if n > 0 {
        lemma_items_matched_all(ls, rs, (n - 1) as nat);
        lemma_some_contains_exists(ls, rs[n - 1], ls.len());
        if forall|j: int| 0 <= j < n ==> #[trigger] has_match(ls, rs[j]) {
            assert(has_match(ls, rs[n - 1]));
        }
    }
}

/// Structural containment is reflexive on well-formed values.
pub proof fn lemma_deep_contains_reflexive(v: JVal)
    requires
        well_formed(v),
    ensures
        deep_contains(v, v),
    decreases v, 0nat,
{
    match v {
        JVal::Obj(o) => lemma_members_contained_reflexive(o, o.len()),
        JVal::Arr(s) => lemma_items_matched_reflexive(s, s.len()),
        _ => lemma_json_eq_reflexive(v),
    }
}

proof fn lemma_members_contained_reflexive(o: Seq<(Seq<char>, JVal)>, n: nat)
    requires
        n <= o.len(),
        keys_unique(o),
        members_well_formed(o, o.len()),
    ensures
        members_contained(o, o, n),
    decreases o, n,
{
    if n > 0 {
        lemma_members_contained_reflexive(o, (n - 1) as nat);
        lemma_members_well_formed_at(o, o.len(), n - 1);
        lemma_lookup_unique(o, n - 1);
        lemma_deep_contains_reflexive(o[n - 1].1);
    }
}

proof fn lemma_items_matched_reflexive(s: Seq<JVal>, n: nat)
    requires
        n <= s.len(),
        items_well_formed(s, s.len()),
    ensures
        items_matched(s, s, n),
    decreases s, n,
{
    if n > 0 {
        lemma_items_matched_reflexive(s, (n - 1) as nat);
        lemma_items_well_formed_at(s, s.len(), n - 1);
        lemma_deep_contains_reflexive(s[n - 1]);
        assert(some_contains(s, s[n - 1], n));
        lemma_some_contains_grows(s, s[n - 1], n, s.len());
    }
}

} // verus!
