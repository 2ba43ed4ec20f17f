//! Character-level helpers for strings.

use vstd::prelude::*;
use vstd::std_specs::iter::IteratorSpec;
use crate::value::{is_substring, occurs_at};

verus! {

/// The characters of `s`, in order.
pub(crate) fn chars_of(s: &str) -> (r: Vec<char>)
    ensures
        r@ == s@,
{
    broadcast use {vstd::string::axiom_spec_iter, vstd::string::next_postcondition};

    let mut it = s.chars();
    let mut out: Vec<char> = Vec::new();
    loop
        invariant
            out@ + it.remaining() == s@,
            it.decrease() is Some,
        ensures
            out@ == s@,
        decreases it.decrease()->0,
    {
        let ghost before = it.remaining();
        match it.next() {
            Some(c) => {
                out.push(c);
                assert(out@ + it.remaining() =~= s@) by {
                    assert(before =~= seq![c] + it.remaining());
                }
            },
            None => {
                assert(out@ =~= s@);
                break ;
            },
        }
    }
    out
}

/// Relies on `String`'s `FromIterator<char>`: the string of the characters of
/// `v`, in order.
#[verifier::external_body]
pub(crate) fn string_of(v: &Vec<char>) -> (r: String)
    ensures
        r@ == v@,
{
    v.iter().collect()
}

/// Whether `sub` occurs at position `i` of `s`.
pub fn matches_at(sub: &Vec<char>, s: &Vec<char>, i: usize) -> (r: bool)
    ensures
        r == occurs_at(sub@, s@, i as int),
{
    if sub.len() > s.len() || i > s.len() - sub.len() {
        return false;
    }
    let mut j: usize = 0;
    while j < sub.len()
        invariant
            i + sub.len() <= s.len(),
            j <= sub.len(),
            forall|k: int| 0 <= k < j ==> s@[i + k] == sub@[k],
        decreases sub.len() - j,
    {
        if s[i + j] != sub[j] {
            assert(s@.subrange(i as int, i + sub.len())[j as int] != sub@[j as int]);
            return false;
        }
        j = j + 1;
    }
    assert(s@.subrange(i as int, i + sub.len()) =~= sub@);
    true
}

/// Whether `sub` occurs in `s`.
pub fn find_substring(sub: &Vec<char>, s: &Vec<char>) -> (r: bool)
    ensures
        r == is_substring(sub@, s@),
{
    if sub.len() > s.len() {
        assert(forall|i: int| !#[trigger] occurs_at(sub@, s@, i));
        return false;
    }
    let last = s.len() - sub.len();
    let mut i: usize = 0;
    loop
        invariant
            last == s.len() - sub.len(),
            i <= last,
            forall|k: int| 0 <= k < i ==> !#[trigger] occurs_at(sub@, s@, k),
        ensures
            forall|k: int| 0 <= k <= last ==> !#[trigger] occurs_at(sub@, s@, k),
        decreases last - i,
    {
        if matches_at(sub, s, i) {
            return true;
        }
        if i == last {
            break;
        }
        i = i + 1;
    }
    assert(forall|k: int| !#[trigger] occurs_at(sub@, s@, k));
    false
}

} // verus!
