//! The document model: a recursive JSON value and its mathematical view.

use vstd::prelude::*;
use vstd::std_specs::vec::axiom_vec_index_decreases;
use crate::number::{JsonNumber, num_same};

verus! {

/// A JSON value. Object members keep the order in which the document lists
/// them; in a document their keys are unique (see `well_formed`).
#[derive(Debug)]
pub enum JsonValue {
    Null,
    Bool(bool),
    Number(JsonNumber),
    String(String),
    Array(Vec<JsonValue>),
    Object(Vec<(String, JsonValue)>),
}

/// The mathematical view of a `JsonValue`.
pub enum JVal {
    Null,
    Bool(bool),
    Num(JsonNumber),
    Str(Seq<char>),
    Arr(Seq<JVal>),
    Obj(Seq<(Seq<char>, JVal)>),
}

pub open spec fn view_value(v: &JsonValue) -> JVal
    decreases v,
{
    match v {
        JsonValue::Null => JVal::Null,
        JsonValue::Bool(b) => JVal::Bool(*b),
        JsonValue::Number(n) => JVal::Num(*n),
        JsonValue::String(s) => JVal::Str(s@),
        JsonValue::Array(a) => JVal::Arr(view_items(a@)),
        JsonValue::Object(o) => JVal::Obj(view_members(o@)),
    }
}

pub open spec fn view_items(s: Seq<JsonValue>) -> Seq<JVal>
    decreases s,
{
    if s.len() == 0 {
        Seq::empty()
    } else {
        view_items(s.drop_last()).push(view_value(&s.last()))
    }
}

pub open spec fn view_members(s: Seq<(String, JsonValue)>) -> Seq<(Seq<char>, JVal)>
    decreases s,
{
    if s.len() == 0 {
        Seq::empty()
    } else {
        view_members(s.drop_last()).push((s.last().0@, view_value(&s.last().1)))
    }
}

impl View for JsonValue {
    type V = JVal;

    open spec fn view(&self) -> JVal {
        view_value(self)
    }
}

/// The value of the first member of `o` whose key is `k`.
pub open spec fn lookup(o: Seq<(Seq<char>, JVal)>, k: Seq<char>) -> Option<JVal>
    decreases o.len(),
{
    if o.len() == 0 {
        None
    } else if o[0].0 == k {
        Some(o[0].1)
    } else {
        lookup(o.skip(1), k)
    }
}

/// `o` has a member with key `k`.
pub open spec fn has_key(o: Seq<(Seq<char>, JVal)>, k: Seq<char>) -> bool {
    lookup(o, k) is Some
}

/// Structural equality: arrays element by element, objects as maps (the same
/// number of members, each key of `a` bound in `b` to an equal value, in any
/// order), numbers by value, anything else exactly.
pub open spec fn json_eq(a: JVal, b: JVal) -> bool
    decreases a, 0nat,
{
    match (a, b) {
        (JVal::Obj(ao), JVal::Obj(bo)) => ao.len() == bo.len() && members_eq(ao, bo, ao.len()),
        (JVal::Arr(xs), JVal::Arr(ys)) => xs.len() == ys.len() && items_eq(xs, ys, xs.len()),
        (JVal::Num(x), JVal::Num(y)) => num_same(x, y),
        _ => a == b,
    }
}

/// Each of the first `n` members of `ao` is bound in `bo` to an equal value.
pub open spec fn members_eq(ao: Seq<(Seq<char>, JVal)>, bo: Seq<(Seq<char>, JVal)>, n: nat) -> bool
    decreases ao, n,
{
    if n == 0 || n > ao.len() {
        n == 0
    } else {
        members_eq(ao, bo, (n - 1) as nat) && match lookup(bo, ao[n - 1].0) {
            Some(bv) => json_eq(ao[n - 1].1, bv),
            None => false,
        }
    }
}

/// The first `n` elements of `xs` and `ys` are pairwise equal.
pub open spec fn items_eq(xs: Seq<JVal>, ys: Seq<JVal>, n: nat) -> bool
    decreases xs, n,
{
    if n == 0 || n > xs.len() || n > ys.len() {
        n == 0
    } else {
        items_eq(xs, ys, (n - 1) as nat) && json_eq(xs[n - 1], ys[n - 1])
    }
}

pub proof fn lemma_members_eq_prefix(
    ao: Seq<(Seq<char>, JVal)>,
    bo: Seq<(Seq<char>, JVal)>,
    n: nat,
    m: nat,
)
    requires
        n <= m <= ao.len(),
        members_eq(ao, bo, m),
    ensures
        members_eq(ao, bo, n),
    decreases m - n,
{
    if n < m {
        lemma_members_eq_prefix(ao, bo, n, (m - 1) as nat);
    }
}

pub proof fn lemma_items_eq_prefix(xs: Seq<JVal>, ys: Seq<JVal>, n: nat, m: nat)
    requires
        n <= m <= xs.len(),
        m <= ys.len(),
        items_eq(xs, ys, m),
    ensures
        items_eq(xs, ys, n),
    decreases m - n,
{
    if n < m {
        lemma_items_eq_prefix(xs, ys, n, (m - 1) as nat);
    }
}

/// Null, an empty string, an empty array and an empty object are empty.
pub open spec fn is_empty(v: JVal) -> bool {
    match v {
        JVal::Null => true,
        JVal::Str(s) => s.len() == 0,
        JVal::Arr(s) => s.len() == 0,
        JVal::Obj(o) => o.len() == 0,
        _ => false,
    }
}

/// One of the first `n` elements of `s` equals `x`.
pub open spec fn some_equal(s: Seq<JVal>, x: JVal, n: nat) -> bool
    decreases n,
{
    if n == 0 || n > s.len() {
        false
    } else {
        some_equal(s, x, (n - 1) as nat) || json_eq(s[n - 1], x)
    }
}

/// `sub` occurs in `s` starting at position `i`.
pub open spec fn occurs_at(sub: Seq<char>, s: Seq<char>, i: int) -> bool {
    0 <= i && i + sub.len() <= s.len() && s.subrange(i, i + sub.len()) == sub
}

/// `sub` occurs in `s` as a contiguous run.
pub open spec fn is_substring(sub: Seq<char>, s: Seq<char>) -> bool {
    exists|i: int| #[trigger] occurs_at(sub, s, i)
}

/// Shallow containment: an array holds an element equal to `x`, a string holds
/// `x` as a substring, an object holds every member of the object `x` with
/// an equal value.
pub open spec fn shallow_contains(c: JVal, x: JVal) -> bool {
    match c {
        JVal::Arr(s) => some_equal(s, x, s.len()),
        JVal::Str(a) => match x {
            JVal::Str(b) => is_substring(b, a),
            _ => false,
        },
        JVal::Obj(o1) => match x {
            JVal::Obj(o2) => forall|j: int|
                0 <= j < o2.len() ==> match #[trigger] lookup(o1, o2[j].0) {
                    Some(v1) => json_eq(v1, o2[j].1),
                    None => false,
                },
            _ => false,
        },
        _ => false,
    }
}

/// Structural containment `l ⊇ r`: objects member-wise and recursively,
/// arrays by an existential match for every element of `r`, anything else by
/// equality (`json_eq`).
pub open spec fn deep_contains(l: JVal, r: JVal) -> bool
    decreases r, 0nat,
{
    match (l, r) {
        (JVal::Obj(lo), JVal::Obj(ro)) => members_contained(lo, ro, ro.len()),
        (JVal::Arr(ls), JVal::Arr(rs)) => items_matched(ls, rs, rs.len()),
        _ => json_eq(l, r),
    }
}

/// Each of the first `n` members of `ro` has a key in `lo` whose value
/// structurally contains the member's value.
pub open spec fn members_contained(
    lo: Seq<(Seq<char>, JVal)>,
    ro: Seq<(Seq<char>, JVal)>,
    n: nat,
) -> bool
    decreases ro, n,
{
    if n == 0 || n > ro.len() {
        n == 0
    } else {
        members_contained(lo, ro, (n - 1) as nat) && match lookup(lo, ro[n - 1].0) {
            Some(lv) => deep_contains(lv, ro[n - 1].1),
            None => false,
        }
    }
}

/// Each of the first `n` elements of `rs` is structurally contained in some
/// element of `ls`.
pub open spec fn items_matched(ls: Seq<JVal>, rs: Seq<JVal>, n: nat) -> bool
    decreases rs, n,
{
    if n == 0 || n > rs.len() {
        n == 0
    } else {
        items_matched(ls, rs, (n - 1) as nat) && some_contains(ls, rs[n - 1], ls.len())
    }
}

/// One of the first `n` elements of `ls` structurally contains `x`.
pub open spec fn some_contains(ls: Seq<JVal>, x: JVal, n: nat) -> bool
    decreases x, n,
{
    if n == 0 || n > ls.len() {
        false
    } else {
        some_contains(ls, x, (n - 1) as nat) || deep_contains(ls[n - 1], x)
    }
}

pub proof fn lemma_view_items(s: Seq<JsonValue>)
    ensures
        view_items(s).len() == s.len(),
        forall|i: int| 0 <= i < s.len() ==> #[trigger] view_items(s)[i] == s[i]@,
    decreases s.len(),
{
    if s.len() > 0 {
        lemma_view_items(s.drop_last());
    }
}

pub proof fn lemma_view_members(s: Seq<(String, JsonValue)>)
    ensures
        view_members(s).len() == s.len(),
        forall|i: int|
            0 <= i < s.len() ==> #[trigger] view_members(s)[i] == (s[i].0@, s[i].1@),
    decreases s.len(),
{
    if s.len() > 0 {
        lemma_view_members(s.drop_last());
    }
}

pub proof fn lemma_item_decreases(v: JsonValue, i: int)
    requires
        v is Array,
        0 <= i < v->Array_0.len(),
    ensures
        decreases_to!(v => v->Array_0[i]),
{
    axiom_vec_index_decreases(v->Array_0, i);
    assert(decreases_to!(v => v->Array_0));
}

pub proof fn lemma_member_decreases(v: JsonValue, i: int)
    requires
        v is Object,
        0 <= i < v->Object_0.len(),
    ensures
        decreases_to!(v => v->Object_0[i].1),
{
    axiom_vec_index_decreases(v->Object_0, i);
    assert(decreases_to!(v => v->Object_0));
    assert(decreases_to!(v->Object_0[i] => v->Object_0[i].1));
}

impl JsonValue {
    /// A copy of the value.
    pub fn deep_copy(&self) -> (r: JsonValue)
        ensures
            r@ == self@,
        decreases self,
    {
        match self {
            JsonValue::Null => JsonValue::Null,
            JsonValue::Bool(b) => JsonValue::Bool(*b),
            JsonValue::Number(n) => JsonValue::Number(*n),
            JsonValue::String(s) => JsonValue::String(s.clone()),
            JsonValue::Array(a) => {
                let mut out: Vec<JsonValue> = Vec::new();
                let mut i: usize = 0;
                while i < a.len()
                    invariant
                        *self == JsonValue::Array(*a),
                        i <= a.len(),
                        out.len() == i,
                        forall|j: int| 0 <= j < i ==> #[trigger] out@[j]@ == a@[j]@,
                    decreases a.len() - i,
                {
                    proof {
                        lemma_item_decreases(*self, i as int);
                    }
                    out.push(a[i].deep_copy());
                    i = i + 1;
                }
                proof {
                    lemma_view_items(a@);
                    lemma_view_items(out@);
                    assert(view_items(out@) =~= view_items(a@));
                }
                JsonValue::Array(out)
            },
            JsonValue::Object(o) => {
                let mut out: Vec<(String, JsonValue)> = Vec::new();
                let mut i: usize = 0;
                while i < o.len()
                    invariant
                        *self == JsonValue::Object(*o),
                        i <= o.len(),
                        out.len() == i,
                        forall|j: int|
                            0 <= j < i ==> (#[trigger] out@[j]).0@ == o@[j].0@ && out@[j].1@
                                == o@[j].1@,
                    decreases o.len() - i,
                {
                    proof {
                        lemma_member_decreases(*self, i as int);
                    }
                    out.push((o[i].0.clone(), o[i].1.deep_copy()));
                    i = i + 1;
                }
                proof {
                    lemma_view_members(o@);
                    lemma_view_members(out@);
                    assert(view_members(out@) =~= view_members(o@));
                }
                JsonValue::Object(out)
            },
        }
    }
}

/// Structural equality of two values (objects compared as maps).
pub fn values_equal(a: &JsonValue, b: &JsonValue) -> (r: bool)
    ensures
        r == json_eq(a@, b@),
    decreases a,
{
    match (a, b) {
        (JsonValue::Null, JsonValue::Null) => true,
        (JsonValue::Bool(x), JsonValue::Bool(y)) => *x == *y,
        (JsonValue::Number(x), JsonValue::Number(y)) => !x.less_than(y) && !y.less_than(x),
        (JsonValue::String(x), JsonValue::String(y)) => *x == *y,
        (JsonValue::Array(x), JsonValue::Array(y)) => {
            let ghost sx = view_items(x@);
            let ghost sy = view_items(y@);
            proof {
                lemma_view_items(x@);
                lemma_view_items(y@);
            }
            if x.len() != y.len() {
                assert(a@ == JVal::Arr(sx) && b@ == JVal::Arr(sy));
                return false;
            }
            let mut i: usize = 0;
            while i < x.len()
                invariant
                    *a == JsonValue::Array(*x),
                    *b == JsonValue::Array(*y),
                    i <= x.len() == y.len(),
                    sx == view_items(x@),
                    sy == view_items(y@),
                    sx.len() == x.len(),
                    sy.len() == y.len(),
                    forall|j: int| 0 <= j < x.len() ==> #[trigger] sx[j] == x@[j]@,
                    forall|j: int| 0 <= j < y.len() ==> #[trigger] sy[j] == y@[j]@,
                    items_eq(sx, sy, i as nat),
                decreases x.len() - i,
            {
                proof {
                    lemma_item_decreases(*a, i as int);
                }
                if !values_equal(&x[i], &y[i]) {
                    proof {
                        assert(a@ == JVal::Arr(sx) && b@ == JVal::Arr(sy));
                        if json_eq(a@, b@) {
                            lemma_items_eq_prefix(sx, sy, (i + 1) as nat, sx.len());
                        }
                    }
                    return false;
                }
                i = i + 1;
            }
            assert(a@ == JVal::Arr(sx) && b@ == JVal::Arr(sy));
            true
        },
        (JsonValue::Object(x), JsonValue::Object(y)) => {
            let ghost mx = view_members(x@);
            let ghost my = view_members(y@);
            proof {
                lemma_view_members(x@);
                lemma_view_members(y@);
            }
            if x.len() != y.len() {
                assert(a@ == JVal::Obj(mx) && b@ == JVal::Obj(my));
                return false;
            }
            let mut i: usize = 0;
            while i < x.len()
                invariant
                    *a == JsonValue::Object(*x),
                    *b == JsonValue::Object(*y),
                    i <= x.len() == y.len(),
                    mx == view_members(x@),
                    my == view_members(y@),
                    mx.len() == x.len(),
                    my.len() == y.len(),
                    forall|j: int| 0 <= j < x.len() ==> #[trigger] mx[j] == (x@[j].0@, x@[j].1@),
                    forall|j: int| 0 <= j < y.len() ==> #[trigger] my[j] == (y@[j].0@, y@[j].1@),
                    members_eq(mx, my, i as nat),
                decreases x.len() - i,
            {
                proof {
                    lemma_member_decreases(*a, i as int);
                }
                let same = match crate::containment::find_member(y, &x[i].0) {
                    Some(k) => values_equal(&x[i].1, &y[k].1),
                    None => false,
                };
                if !same {
                    proof {
                        assert(a@ == JVal::Obj(mx) && b@ == JVal::Obj(my));
                        if json_eq(a@, b@) {
                            lemma_members_eq_prefix(mx, my, (i + 1) as nat, mx.len());
                        }
                    }
                    return false;
                }
                i = i + 1;
            }
            assert(a@ == JVal::Obj(mx) && b@ == JVal::Obj(my));
            true
        },
        _ => false,
    }
}

/// No two members of `o` share a key.
pub open spec fn keys_unique(o: Seq<(Seq<char>, JVal)>) -> bool {
    forall|i: int, j: int| 0 <= i < j < o.len() ==> #[trigger] o[i].0 != #[trigger] o[j].0
}

/// A well-formed value: the keys of every object in it are unique.
pub open spec fn well_formed(v: JVal) -> bool
    decreases v, 0nat,
{
    match v {
        JVal::Obj(o) => keys_unique(o) && members_well_formed(o, o.len()),
        JVal::Arr(s) => items_well_formed(s, s.len()),
        _ => true,
    }
}

/// The values of the first `n` members of `o` are well formed.
pub open spec fn members_well_formed(o: Seq<(Seq<char>, JVal)>, n: nat) -> bool
    decreases o, n,
{
    if n == 0 || n > o.len() {
        n == 0
    } else {
        members_well_formed(o, (n - 1) as nat) && well_formed(o[n - 1].1)
    }
}

/// The first `n` elements of `s` are well formed.
pub open spec fn items_well_formed(s: Seq<JVal>, n: nat) -> bool
    decreases s, n,
{
    if n == 0 || n > s.len() {
        n == 0
    } else {
        items_well_formed(s, (n - 1) as nat) && well_formed(s[n - 1])
    }
}

/// With unique keys, looking up the key of a member finds that member.
pub proof fn lemma_lookup_unique(o: Seq<(Seq<char>, JVal)>, k: int)
    requires
        keys_unique(o),
        0 <= k < o.len(),
    ensures
        lookup(o, o[k].0) == Some(o[k].1),
    decreases o.len(),
{
    if k > 0 {
        let rest = o.skip(1);
        assert(o[0].0 != o[k].0);
        assert(rest[k - 1] == o[k]);
        assert forall|i: int, j: int| 0 <= i < j < rest.len() implies #[trigger] rest[i].0
            != #[trigger] rest[j].0 by {
            assert(rest[i] == o[i + 1] && rest[j] == o[j + 1]);
        }
        lemma_lookup_unique(rest, k - 1);
    }
}

/// Equality is reflexive on well-formed values.
pub proof fn lemma_json_eq_reflexive(v: JVal)
    requires
        well_formed(v),
    ensures
        json_eq(v, v),
    decreases v, 0nat,
{
    match v {
        JVal::Obj(o) => lemma_members_eq_reflexive(o, o.len()),
        JVal::Arr(s) => lemma_items_eq_reflexive(s, s.len()),
        _ => {},
    }
}

proof fn lemma_members_eq_reflexive(o: Seq<(Seq<char>, JVal)>, n: nat)
    requires
        n <= o.len(),
        keys_unique(o),
        members_well_formed(o, o.len()),
    ensures
        members_eq(o, o, n),
    decreases o, n,
{
    if n > 0 {
        lemma_members_eq_reflexive(o, (n - 1) as nat);
        lemma_members_well_formed_at(o, o.len(), n - 1);
        lemma_lookup_unique(o, n - 1);
        lemma_json_eq_reflexive(o[n - 1].1);
    }
}

proof fn lemma_items_eq_reflexive(s: Seq<JVal>, n: nat)
    requires
        n <= s.len(),
        items_well_formed(s, s.len()),
    ensures
        items_eq(s, s, n),
    decreases s, n,
{
    if n > 0 {
        lemma_items_eq_reflexive(s, (n - 1) as nat);
        lemma_items_well_formed_at(s, s.len(), n - 1);
        lemma_json_eq_reflexive(s[n - 1]);
    }
}

pub proof fn lemma_members_well_formed_at(o: Seq<(Seq<char>, JVal)>, n: nat, k: int)
    requires
        n <= o.len(),
        members_well_formed(o, n),
        0 <= k < n,
    ensures
        well_formed(o[k].1),
    decreases n,
{
    if k < n - 1 {
        lemma_members_well_formed_at(o, (n - 1) as nat, k);
    }
}

pub proof fn lemma_items_well_formed_at(s: Seq<JVal>, n: nat, k: int)
    requires
        n <= s.len(),
        items_well_formed(s, n),
        0 <= k < n,
    ensures
        well_formed(s[k]),
    decreases n,
{
    if k < n - 1 {
        lemma_items_well_formed_at(s, (n - 1) as nat, k);
    }
}

} // verus!
