//! Locating values inside a document by the paths that lead to them.

use vstd::prelude::*;
use crate::paths::{
    index_child, index_child_path, index_segment, index_segment_string, join_path, join_segments, replace_all, replace_chars,
    string_views,
};
use crate::text::{chars_of, string_of};
use crate::value::{
    JVal, JsonValue, lemma_item_decreases, lemma_member_decreases, lemma_view_items,
    json_eq, lemma_view_members, values_equal, view_items, view_members,
};

verus! {

/// The joined paths of every node of `v` equal to `t` (see `json_eq`), in
/// document order (a node before its children, object members in their
/// stored order, array elements by ascending position); `segs` is the path
/// of `v`, and `attach` says how array positions are written (see
/// `index_child`).
pub open spec fn occurrences(v: JVal, t: JVal, segs: Seq<Seq<char>>, attach: bool) -> Seq<
    Seq<char>,
>
    decreases v, 0nat,
{
    let here: Seq<Seq<char>> = if json_eq(v, t) {
        seq![join_path(segs)]
    } else {
        Seq::empty()
    };
    here + match v {
        JVal::Obj(o) => member_occurrences(o, t, segs, attach, o.len()),
        JVal::Arr(s) => item_occurrences(s, t, segs, attach, s.len()),
        _ => Seq::empty(),
    }
}

/// The occurrences of `t` below the first `n` members of `o`.
pub open spec fn member_occurrences(
    o: Seq<(Seq<char>, JVal)>,
    t: JVal,
    segs: Seq<Seq<char>>,
    attach: bool,
    n: nat,
) -> Seq<Seq<char>>
    decreases o, n,
{
    if n == 0 || n > o.len() {
        Seq::empty()
    } else {
        member_occurrences(o, t, segs, attach, (n - 1) as nat) + occurrences(
            o[n - 1].1,
            t,
            segs.push(o[n - 1].0),
            attach,
        )
    }
}

/// The occurrences of `t` below the first `n` elements of `s`.
pub open spec fn item_occurrences(
    s: Seq<JVal>,
    t: JVal,
    segs: Seq<Seq<char>>,
    attach: bool,
    n: nat,
) -> Seq<Seq<char>>
    decreases s, n,
{
    if n == 0 || n > s.len() {
        Seq::empty()
    } else {
        item_occurrences(s, t, segs, attach, (n - 1) as nat) + occurrences(
            s[n - 1],
            t,
            index_child(segs, (n - 1) as nat, attach),
            attach,
        )
    }
}

/// Appends to `found` the paths of every node of `value` equal to `target`,
/// in document order; `path` holds the segments of the path of `value`, and
/// `attach` says how array positions are written (see `index_child`).
pub fn find_all_paths_recursive(
    value: &JsonValue,
    target: &JsonValue,
    path: Vec<String>,
    attach: bool,
    found: &mut Vec<String>,
)
    ensures
        string_views(final(found)@) == string_views(old(found)@) + occurrences(
            value@,
            target@,
            string_views(path@),
            attach,
        ),
    decreases value,
{
    let ghost segs = string_views(path@);
    let ghost start = string_views(found@);
    if values_equal(value, target) {
        let p = join_segments(&path);
        found.push(p);
    }
    let ghost here = string_views(found@);
    assert(here =~= start + (if json_eq(value@, target@) {
        seq![join_path(segs)]
    } else {
        Seq::<Seq<char>>::empty()
    }));
    match value {
        JsonValue::Object(map) => {
            let ghost m = view_members(map@);
            proof {
                lemma_view_members(map@);
            }
            let mut i: usize = 0;
            while i < map.len()
                invariant
                    *value == JsonValue::Object(*map),
                    i <= map.len(),
                    m == view_members(map@),
                    m.len() == map.len(),
                    forall|q: int| 0 <= q < map.len() ==> #[trigger] m[q] == (map@[q].0@, map@[q].1@),
                    segs == string_views(path@),
                    string_views(found@) == here + member_occurrences(
                        m,
                        target@,
                        segs,
                        attach,
                        i as nat,
                    ),
                decreases map.len() - i,
            {
                let mut new_path = path.clone();
                new_path.push(map[i].0.clone());
                assert(string_views(new_path@) =~= segs.push(m[i as int].0));
                proof {
                    lemma_member_decreases(*value, i as int);
                }
                let ghost mid = string_views(found@);
                find_all_paths_recursive(&map[i].1, target, new_path, attach, found);
                assert(string_views(found@) =~= here + member_occurrences(
                    m,
                    target@,
                    segs,
                    attach,
                    (i + 1) as nat,
                ));
                i = i + 1;
            }
            assert(value@ == JVal::Obj(m));
        },
        JsonValue::Array(arr) => {
            let ghost s = view_items(arr@);
            proof {
                lemma_view_items(arr@);
            }
            let mut i: usize = 0;
            while i < arr.len()
                invariant
                    *value == JsonValue::Array(*arr),
                    i <= arr.len(),
                    s == view_items(arr@),
                    s.len() == arr.len(),
                    forall|q: int| 0 <= q < arr.len() ==> #[trigger] s[q] == arr@[q]@,
                    segs == string_views(path@),
                    string_views(found@) == here + item_occurrences(
                        s,
                        target@,
                        segs,
                        attach,
                        i as nat,
                    ),
                decreases arr.len() - i,
            {
                let new_path = index_child_path(&path, i, attach);
                proof {
                    lemma_item_decreases(*value, i as int);
                }
                find_all_paths_recursive(&arr[i], target, new_path, attach, found);
                assert(string_views(found@) =~= here + item_occurrences(
                    s,
                    target@,
                    segs,
                    attach,
                    (i + 1) as nat,
                ));
                i = i + 1;
            }
            assert(value@ == JVal::Arr(s));
        },
        _ => {},
    }
    assert(string_views(found@) =~= start + occurrences(value@, target@, segs, attach));
}

/// The joined paths of every node of `v` on which `f` answers `want`, in
/// document order; `segs` is the path of `v`.
pub open spec fn answering_paths<F: Fn(&JsonValue) -> bool>(
    v: JsonValue,
    f: F,
    want: bool,
    segs: Seq<Seq<char>>,
) -> Seq<Seq<char>>
    decreases v, 0nat,
{
    let here: Seq<Seq<char>> = if f.ensures((&v,), want) {
        seq![join_path(segs)]
    } else {
        Seq::empty()
    };
    here + match v {
        JsonValue::Object(o) => member_answers(o@, f, want, segs, o@.len()),
        JsonValue::Array(a) => item_answers(a@, f, want, segs, a@.len()),
        _ => Seq::empty(),
    }
}

/// `answering_paths` below the first `n` members of `o`.
pub open spec fn member_answers<F: Fn(&JsonValue) -> bool>(
    o: Seq<(String, JsonValue)>,
    f: F,
    want: bool,
    segs: Seq<Seq<char>>,
    n: nat,
) -> Seq<Seq<char>>
    decreases o, n,
{
    if n == 0 || n > o.len() {
        Seq::empty()
    } else {
        member_answers(o, f, want, segs, (n - 1) as nat) + answering_paths(
            o[n - 1].1,
            f,
            want,
            segs.push(o[n - 1].0@),
        )
    }
}

/// `answering_paths` below the first `n` elements of `a`.
pub open spec fn item_answers<F: Fn(&JsonValue) -> bool>(
    a: Seq<JsonValue>,
    f: F,
    want: bool,
    segs: Seq<Seq<char>>,
    n: nat,
) -> Seq<Seq<char>>
    decreases a, n,
{
    if n == 0 || n > a.len() {
        Seq::empty()
    } else {
        item_answers(a, f, want, segs, (n - 1) as nat) + answering_paths(
            a[n - 1],
            f,
            want,
            segs.push(index_segment((n - 1) as nat)),
        )
    }
}

/// `f` can be called on any value and answers each value one way only.
pub open spec fn answers_consistently<F: Fn(&JsonValue) -> bool>(f: F) -> bool {
    &&& forall|v: &JsonValue| #[trigger] f.requires((v,))
    &&& forall|v: &JsonValue| !(#[trigger] f.ensures((v,), true) && f.ensures((v,), false))
}

fn collect_answering<F: Fn(&JsonValue) -> bool + Copy>(
    value: &JsonValue,
    f: F,
    want: bool,
    path: Vec<String>,
    out: &mut Vec<String>,
)
    requires
        answers_consistently(f),
    ensures
        string_views(final(out)@) == string_views(old(out)@) + answering_paths(
            *value,
            f,
            want,
            string_views(path@),
        ),
    decreases value,
{
    let ghost segs = string_views(path@);
    let ghost start = string_views(out@);
    let answer = f(value);
    if answer == want {
        let p = join_segments(&path);
        out.push(p);
    }
    let ghost here = string_views(out@);
    assert(here =~= start + (if f.ensures((value,), want) {
        seq![join_path(segs)]
    } else {
        Seq::<Seq<char>>::empty()
    }));
    match value {
        JsonValue::Object(map) => {
            let mut i: usize = 0;
            while i < map.len()
                invariant
                    *value == JsonValue::Object(*map),
                    i <= map.len(),
                    answers_consistently(f),
                    segs == string_views(path@),
                    string_views(out@) == here + member_answers(map@, f, want, segs, i as nat),
                decreases map.len() - i,
            {
                let mut new_path = path.clone();
                new_path.push(map[i].0.clone());
                assert(string_views(new_path@) =~= segs.push(map@[i as int].0@));
                proof {
                    lemma_member_decreases(*value, i as int);
                }
                collect_answering(&map[i].1, f, want, new_path, out);
                assert(string_views(out@) =~= here + member_answers(
                    map@,
                    f,
                    want,
                    segs,
                    (i + 1) as nat,
                ));
                i = i + 1;
            }
        },
        JsonValue::Array(arr) => {
            let mut i: usize = 0;
            while i < arr.len()
                invariant
                    *value == JsonValue::Array(*arr),
                    i <= arr.len(),
                    answers_consistently(f),
                    segs == string_views(path@),
                    string_views(out@) == here + item_answers(arr@, f, want, segs, i as nat),
                decreases arr.len() - i,
            {
                let mut new_path = path.clone();
                new_path.push(index_segment_string(i));
                assert(string_views(new_path@) =~= segs.push(index_segment(i as nat)));
                proof {
                    lemma_item_decreases(*value, i as int);
                }
                collect_answering(&arr[i], f, want, new_path, out);
                assert(string_views(out@) =~= here + item_answers(
                    arr@,
                    f,
                    want,
                    segs,
                    (i + 1) as nat,
                ));
                i = i + 1;
            }
        },
        _ => {},
    }
    assert(string_views(out@) =~= start + answering_paths(*value, f, want, segs));
}

/// The paths of every node of `value` on which `predicate` holds, in
/// document order; `path` holds the segments of the path of `value`.
pub fn find_json_paths_matching<F: Fn(&JsonValue) -> bool + Copy>(
    value: &JsonValue,
    predicate: F,
    path: Vec<String>,
) -> (r: Vec<String>)
    requires
        answers_consistently(predicate),
    ensures
        string_views(r@) == answering_paths(*value, predicate, true, string_views(path@)),
{
    let mut out: Vec<String> = Vec::new();
    collect_answering(value, predicate, true, path, &mut out);
    assert(string_views(out@) =~= Seq::<Seq<char>>::empty() + string_views(out@));
    out
}

/// The paths of every node of `value` that fails `check_fn`, in document
/// order; `path` holds the segments of the path of `value`.
pub fn find_invalid_paths<F: Fn(&JsonValue) -> bool + Copy>(
    value: &JsonValue,
    check_fn: F,
    path: Vec<String>,
) -> (r: Vec<String>)
    requires
        answers_consistently(check_fn),
    ensures
        string_views(r@) == answering_paths(*value, check_fn, false, string_views(path@)),
{
    let mut out: Vec<String> = Vec::new();
    collect_answering(value, check_fn, false, path, &mut out);
    assert(string_views(out@) =~= Seq::<Seq<char>>::empty() + string_views(out@));
    out
}

/// The root path `$`, as segments.
pub open spec fn root_segments() -> Seq<Seq<char>> {
    seq![seq!['$']]
}

/// The path of the first node of `value` equal to `target`, in document
/// order, if there is one.
pub open spec fn first_occurrence(value: JVal, target: JVal, segs: Seq<Seq<char>>) -> Option<
    Seq<char>,
> {
    let occ = occurrences(value, target, segs, false);
    if occ.len() > 0 {
        Some(occ[0])
    } else {
        None
    }
}

/// The path of the first node of `value` equal to `target`, in document
/// order; `path` holds the segments of the path of `value` itself. Array
/// positions are segments of their own (`$.items.[2]`).
pub fn find_json_path(value: &JsonValue, target: &JsonValue, path: Vec<String>) -> (r: Option<
    String,
>)
    ensures
        match r {
            Some(p) => first_occurrence(value@, target@, string_views(path@)) == Some(p@),
            None => first_occurrence(value@, target@, string_views(path@)) is None,
        },
{
    let mut found: Vec<String> = Vec::new();
    find_all_paths_recursive(value, target, path, false, &mut found);
    assert(string_views(found@) =~= Seq::<Seq<char>>::empty() + string_views(found@));
    if found.len() > 0 {
        Some(found[0].clone())
    } else {
        None
    }
}

/// The `n`-th path (counting from zero) among the nodes of `json` equal to
/// `target`, in document order, starting from `$`. Array positions follow
/// the step before them, as in a query (`$.users[1].email`).
pub fn find_nth_occurrence_path(json: &JsonValue, target: &JsonValue, n: usize) -> (r: Option<
    String,
>)
    ensures
        ({
            let occ = occurrences(json@, target@, root_segments(), true);
            match r {
                Some(p) => n < occ.len() && p@ == occ[n as int],
                None => n >= occ.len(),
            }
        }),
{
    let mut found: Vec<String> = Vec::new();
    let mut root: Vec<String> = Vec::new();
    let dollar = vec!['$'];
    assert(dollar@ =~= seq!['$']);
    root.push(string_of(&dollar));
    assert(string_views(root@) =~= root_segments());
    find_all_paths_recursive(json, target, root, true, &mut found);
    assert(string_views(found@) =~= Seq::<Seq<char>>::empty() + string_views(found@));
    if n < found.len() {
        Some(found[n].clone())
    } else {
        None
    }
}

/// `[*]`, the wildcard array segment of a query.
pub open spec fn wildcard() -> Seq<char> {
    seq!['[', '*', ']']
}

/// A readable form of a path: the leading `$.` dropped, `[i]` written as
/// ` → item i`, and `.` written as ` → `.
pub open spec fn readable(path: Seq<char>) -> Seq<char> {
    let a = replace_all(path, seq!['$', '.'], Seq::empty());
    let b = replace_all(a, seq!['['], seq![' ', '→', ' ', 'i', 't', 'e', 'm', ' ']);
    let c = replace_all(b, seq![']'], Seq::empty());
    replace_all(c, seq!['.'], seq![' ', '→', ' '])
}

/// A readable form of a path, such as `user → details → item 0 → name` for
/// `$.user.details[0].name`.
pub fn format_path_readable(path: &str) -> (r: String)
    ensures
        r@ == readable(path@),
{
    let p = chars_of(path);
    let root_dot = vec!['$', '.'];
    let open = vec!['['];
    let item = vec![' ', '→', ' ', 'i', 't', 'e', 'm', ' '];
    let close = vec![']'];
    let dot = vec!['.'];
    let arrow = vec![' ', '→', ' '];
    let nothing: Vec<char> = Vec::new();
    assert(root_dot@ =~= seq!['$', '.']);
    assert(open@ =~= seq!['[']);
    assert(item@ =~= seq![' ', '→', ' ', 'i', 't', 'e', 'm', ' ']);
    assert(close@ =~= seq![']']);
    assert(dot@ =~= seq!['.']);
    assert(arrow@ =~= seq![' ', '→', ' ']);
    assert(nothing@ =~= Seq::<char>::empty());
    let a = replace_chars(&p, &root_dot, &nothing);
    let b = replace_chars(&a, &open, &item);
    let c = replace_chars(&b, &close, &nothing);
    let d = replace_chars(&c, &dot, &arrow);
    string_of(&d)
}

} // verus!
