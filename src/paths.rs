//! Path text: decimal indices, joining segments, and pattern replacement.

use vstd::prelude::*;
use crate::text::{matches_at, string_of, chars_of};
use crate::value::occurs_at;

verus! {

/// The decimal digit for `d < 10`.
pub open spec fn digit_char(d: nat) -> char {
    if d == 0 {
        '0'
    } else if d == 1 {
        '1'
    } else if d == 2 {
        '2'
    } else if d == 3 {
        '3'
    } else if d == 4 {
        '4'
    } else if d == 5 {
        '5'
    } else if d == 6 {
        '6'
    } else if d == 7 {
        '7'
    } else if d == 8 {
        '8'
    } else {
        '9'
    }
}

/// The decimal notation of `n`, without leading zeros.
pub open spec fn decimal(n: nat) -> Seq<char>
    decreases n,
{
    if n < 10 {
        seq![digit_char(n)]
    } else {
        decimal(n / 10).push(digit_char(n % 10))
    }
}

/// The path segment of an array position: `[i]`.
pub open spec fn index_segment(i: nat) -> Seq<char> {
    seq!['['] + decimal(i) + seq![']']
}

/// Segments joined with `.` between them.
pub open spec fn join_path(segs: Seq<Seq<char>>) -> Seq<char>
    decreases segs.len(),
{
    if segs.len() == 0 {
        Seq::empty()
    } else if segs.len() == 1 {
        segs[0]
    } else {
        join_path(segs.drop_last()) + seq!['.'] + segs.last()
    }
}

/// Every occurrence of `pat` in `s`, from left to right and without
/// overlap, replaced by `rep`.
pub open spec fn replace_all(s: Seq<char>, pat: Seq<char>, rep: Seq<char>) -> Seq<char>
    decreases s.len(),
{
    if pat.len() == 0 || s.len() < pat.len() {
        s
    } else if s.subrange(0, pat.len() as int) == pat {
        rep + replace_all(s.subrange(pat.len() as int, s.len() as int), pat, rep)
    } else {
        seq![s[0]] + replace_all(s.subrange(1, s.len() as int), pat, rep)
    }
}

/// The segments of the path of the element at position `i` below the node
/// with segments `segs`: with `attach`, `[i]` is written straight after the
/// last segment (`$.a[1]`); otherwise it is a segment of its own, joined with
/// a dot (`$.a.[1]`).
pub open spec fn index_child(segs: Seq<Seq<char>>, i: nat, attach: bool) -> Seq<Seq<char>> {
    if attach && segs.len() > 0 {
        segs.drop_last().push(segs.last() + index_segment(i))
    } else {
        segs.push(index_segment(i))
    }
}

/// The views of a list of strings.
pub open spec fn string_views(v: Seq<String>) -> Seq<Seq<char>> {
    v.map_values(|s: String| s@)
}

fn digit(d: usize) -> (c: char)
    requires
        d < 10,
    ensures
        c == digit_char(d as nat),
{
    if d == 0 {
        '0'
    } else if d == 1 {
        '1'
    } else if d == 2 {
        '2'
    } else if d == 3 {
        '3'
    } else if d == 4 {
        '4'
    } else if d == 5 {
        '5'
    } else if d == 6 {
        '6'
    } else if d == 7 {
        '7'
    } else if d == 8 {
        '8'
    } else {
        '9'
    }
}

/// Appends the decimal notation of `n`.
fn push_decimal(out: &mut Vec<char>, n: usize)
    ensures
        final(out)@ == old(out)@ + decimal(n as nat),
    decreases n,
{
    if n >= 10 {
        push_decimal(out, n / 10);
    }
    out.push(digit(n % 10));
    proof {
        if n < 10 {
            assert(n % 10 == n);
        }
    }
    assert(final(out)@ =~= old(out)@ + decimal(n as nat));
}

/// The segment `[i]`.
pub fn index_segment_string(i: usize) -> (r: String)
    ensures
        r@ == index_segment(i as nat),
{
    let mut v: Vec<char> = Vec::new();
    v.push('[');
    push_decimal(&mut v, i);
    v.push(']');
    assert(v@ =~= index_segment(i as nat));
    string_of(&v)
}

/// The segments of the path of the element at position `i` (see
/// `index_child`).
pub fn index_child_path(path: &Vec<String>, i: usize, attach: bool) -> (r: Vec<String>)
    ensures
        string_views(r@) == index_child(string_views(path@), i as nat, attach),
{
    let seg = index_segment_string(i);
    let mut r = path.clone();
    assert(string_views(r@) =~= string_views(path@));
    if attach && r.len() > 0 {
        let ghost before = r@;
        match r.pop() {
            Some(last) => {
                let mut chars = chars_of(last.as_str());
                let seg_chars = chars_of(seg.as_str());
                let ghost start = chars@;
                let mut k: usize = 0;
                while k < seg_chars.len()
                    invariant
                        k <= seg_chars.len(),
                        chars@ == start + seg_chars@.subrange(0, k as int),
                    decreases seg_chars.len() - k,
                {
                    chars.push(seg_chars[k]);
                    k = k + 1;
                    assert(chars@ =~= start + seg_chars@.subrange(0, k as int));
                }
                assert(seg_chars@.subrange(0, k as int) =~= seg_chars@);
                r.push(string_of(&chars));
                assert(string_views(r@) =~= index_child(string_views(path@), i as nat, attach));
            },
            None => {},
        }
    } else {
        r.push(seg);
        assert(string_views(r@) =~= index_child(string_views(path@), i as nat, attach));
    }
    r
}

/// The segments joined with `.`.
pub fn join_segments(segs: &Vec<String>) -> (r: String)
    ensures
        r@ == join_path(string_views(segs@)),
{
    let ghost sv = string_views(segs@);
    if segs.len() == 0 {
        let v: Vec<char> = Vec::new();
        assert(v@ =~= join_path(sv));
        return string_of(&v);
    }
    let mut out = chars_of(segs[0].as_str());
    assert(sv.subrange(0, 1).len() == 1);
    assert(out@ == join_path(sv.subrange(0, 1)));
    let mut i: usize = 1;
    while i < segs.len()
        invariant
            1 <= i <= segs.len(),
            sv == string_views(segs@),
            out@ == join_path(sv.subrange(0, i as int)),
        decreases segs.len() - i,
    {
        let seg = chars_of(segs[i].as_str());
        let ghost before = out@;
        out.push('.');
        let mut k: usize = 0;
        while k < seg.len()
            invariant
                k <= seg.len(),
                out@ == before + seq!['.'] + seg@.subrange(0, k as int),
            decreases seg.len() - k,
        {
            out.push(seg[k]);
            k = k + 1;
            assert(out@ =~= before + seq!['.'] + seg@.subrange(0, k as int));
        }
        assert(sv.subrange(0, i + 1).drop_last() =~= sv.subrange(0, i as int));
        assert(seg@.subrange(0, k as int) =~= seg@);
        i = i + 1;
    }
    assert(sv.subrange(0, i as int) =~= sv);
    string_of(&out)
}

proof fn lemma_replace_step(s: Seq<char>, pat: Seq<char>, rep: Seq<char>, i: int)
    requires
        pat.len() > 0,
        0 <= i < s.len(),
    ensures
        ({
            let rest = s.subrange(i, s.len() as int);
            &&& occurs_at(pat, s, i) ==> replace_all(rest, pat, rep) == rep + replace_all(
                s.subrange(i + pat.len(), s.len() as int),
                pat,
                rep,
            )
            &&& !occurs_at(pat, s, i) ==> replace_all(rest, pat, rep) == seq![s[i]] + replace_all(
                s.subrange(i + 1, s.len() as int),
                pat,
                rep,
            )
        }),
{
    let rest = s.subrange(i, s.len() as int);
    if rest.len() >= pat.len() {
        assert(rest.subrange(0, pat.len() as int) =~= s.subrange(i, i + pat.len()));
        assert(rest.subrange(pat.len() as int, rest.len() as int) =~= s.subrange(
            i + pat.len(),
            s.len() as int,
        ));
    }
    assert(rest.subrange(1, rest.len() as int) =~= s.subrange(i + 1, s.len() as int));
}

/// `s` with every occurrence of `pat` replaced by `rep`.
pub fn replace_chars(s: &Vec<char>, pat: &Vec<char>, rep: &Vec<char>) -> (r: Vec<char>)
    requires
        pat.len() > 0,
    ensures
        r@ == replace_all(s@, pat@, rep@),
{
    let mut out: Vec<char> = Vec::new();
    let mut i: usize = 0;
    assert(s@.subrange(0, s@.len() as int) =~= s@);
    while i < s.len()
        invariant
            i <= s.len(),
            pat.len() > 0,
            out@ + replace_all(s@.subrange(i as int, s@.len() as int), pat@, rep@) == replace_all(
                s@,
                pat@,
                rep@,
            ),
        decreases s.len() - i,
    {
        proof {
            lemma_replace_step(s@, pat@, rep@, i as int);
        }
        let ghost before = out@;
        if matches_at(pat, s, i) {
            let mut k: usize = 0;
            while k < rep.len()
                invariant
                    k <= rep.len(),
                    out@ == before + rep@.subrange(0, k as int),
                decreases rep.len() - k,
            {
                out.push(rep[k]);
                k = k + 1;
                assert(out@ =~= before + rep@.subrange(0, k as int));
            }
            assert(rep@.subrange(0, k as int) =~= rep@);
            assert(out@ + replace_all(s@.subrange(i + pat.len(), s@.len() as int), pat@, rep@)
                =~= before + (rep@ + replace_all(
                s@.subrange(i + pat.len(), s@.len() as int),
                pat@,
                rep@,
            )));
            i = i + pat.len();
        } else {
            out.push(s[i]);
            assert(out@ + replace_all(s@.subrange(i + 1, s@.len() as int), pat@, rep@) =~= before
                + (seq![s@[i as int]] + replace_all(
                s@.subrange(i + 1, s@.len() as int),
                pat@,
                rep@,
            )));
            i = i + 1;
        }
    }
    assert(replace_all(s@.subrange(i as int, s@.len() as int), pat@, rep@) =~= Seq::empty());
    assert(out@ + Seq::<char>::empty() =~= out@);
    out
}

} // verus!
