//! Filtering lemmas and in-place filters for lists of strings.

use crate::str_map::{filter_by, lemma_filter_by_keeps, lemma_filter_by_origin};
use crate::text::{distinct, strs};
use vstd::prelude::*;

verus! {

/// Filtering by flags that agree with `f` is filtering by `f`.
pub proof fn lemma_filter_by_flags<A>(s: Seq<A>, keep: Seq<bool>, f: spec_fn(A) -> bool)
    requires
        keep.len() >= s.len(),
        forall|i: int| 0 <= i < s.len() ==> keep[i] == f(s[i]),
    ensures
        filter_by(s, keep) == s.filter(f),
    decreases s.len(),
{
    reveal(Seq::filter);
    if s.len() > 0 {
        lemma_filter_by_flags(s.drop_last(), keep, f);
        assert(keep[s.len() - 1] == f(s.last()));
    }
}

/// Membership in a filtered sequence.
pub proof fn lemma_filter_contains<A>(s: Seq<A>, f: spec_fn(A) -> bool, x: A)
    ensures
        s.filter(f).contains(x) <==> (s.contains(x) && f(x)),
    decreases s.len(),
{
    reveal(Seq::filter);
    if s.len() > 0 {
        lemma_filter_contains(s.drop_last(), f, x);
        if s.contains(x) && x != s.last() {
            let i = choose|i: int| 0 <= i < s.len() && s[i] == x;
            assert(s.drop_last()[i] == x);
        }
        if s.drop_last().contains(x) {
            let i = choose|i: int| 0 <= i < s.drop_last().len() && s.drop_last()[i] == x;
            assert(s[i] == x);
        }
        let sub = s.drop_last().filter(f);
        if f(s.last()) {
            let t = sub.push(s.last());
            assert(t[t.len() - 1] == s.last());
            if t.contains(x) && x != s.last() {
                let i = choose|i: int| 0 <= i < t.len() && t[i] == x;
                assert(sub[i] == x);
            }
            if sub.contains(x) {
                let i = choose|i: int| 0 <= i < sub.len() && sub[i] == x;
                assert(t[i] == x);
            }
        }
        assert(s[s.len() - 1] == s.last());
    }
}

/// Filtering keeps a sequence free of duplicates.
pub proof fn lemma_filter_distinct(s: Seq<Seq<char>>, f: spec_fn(Seq<char>) -> bool)
    requires
        distinct(s),
    ensures
        distinct(s.filter(f)),
    decreases s.len(),
{
    reveal(Seq::filter);
    if s.len() > 0 {
        let d = s.drop_last();
        assert(distinct(d)) by {
            assert forall|i: int, j: int| 0 <= i < j < d.len() implies d[i] != d[j] by {
                assert(d[i] == s[i] && d[j] == s[j]);
            }
        }
        lemma_filter_distinct(d, f);
        let sub = d.filter(f);
        if f(s.last()) {
            lemma_filter_contains(d, f, s.last());
            assert(!d.contains(s.last())) by {
                if d.contains(s.last()) {
                    let i = choose|i: int| 0 <= i < d.len() && d[i] == s.last();
                    assert(s[i] == s[s.len() - 1]);
                }
            }
            let t = sub.push(s.last());
            assert forall|i: int, j: int| 0 <= i < j < t.len() implies t[i] != t[j] by {
                if j == t.len() - 1 {
                    assert(sub.contains(t[i]));
                }
            }
        }
    }
}

/// Two filters in a row keep what both keep.
pub proof fn lemma_filter_filter<A>(s: Seq<A>, f: spec_fn(A) -> bool, g: spec_fn(A) -> bool, h: spec_fn(A) -> bool)
    requires
        forall|x: A| #[trigger] h(x) == (f(x) && g(x)),
    ensures
        s.filter(f).filter(g) == s.filter(h),
    decreases s.len(),
{
    reveal(Seq::filter);
    if s.len() > 0 {
        lemma_filter_filter(s.drop_last(), f, g, h);
        let sub = s.drop_last().filter(f);
        if f(s.last()) {
            assert(sub.push(s.last()).drop_last() =~= sub);
        }
    }
}

/// Filtering distributes over appending one element.
pub proof fn lemma_filter_push<A>(s: Seq<A>, f: spec_fn(A) -> bool, x: A)
    ensures
        s.push(x).filter(f) == (if f(x) { s.filter(f).push(x) } else { s.filter(f) }),
{
    reveal(Seq::filter);
    assert(s.push(x).drop_last() =~= s);
}

/// Keeps exactly the strings whose flag is set, in order.
pub fn retain_strings(v: &mut Vec<String>, keep: &Vec<bool>)
    requires
        keep.len() == old(v).len(),
    ensures
        strs(final(v)@) == filter_by(strs(old(v)@), keep@),
{
    let ghost ov = strs(v@);
    let mut src = Vec::new();
    std::mem::swap(&mut src, v);
    let n = src.len();
    let mut out: Vec<String> = Vec::new();
    let mut i: usize = 0;
    while i < n
        invariant
            0 <= i <= n,
            n == keep.len(),
            ov.len() == n,
            src.len() == n - i,
            forall|j: int| 0 <= j < n - i ==> #[trigger] src@[j]@ == ov[j + i],
            strs(out@) == filter_by(ov.take(i as int), keep@),
        decreases n - i,
    {
        let ghost before = src@;
        assert(before[0]@ == ov[i as int]);
        let e = src.remove(0);
        assert forall|j: int| 0 <= j < n - (i + 1) implies #[trigger] src@[j]@ == ov[j + (i + 1)] by {
            assert(src@[j] == before[j + 1]);
            assert(before[j + 1]@ == ov[(j + 1) + i]);
        }
        assert(ov.take(i + 1).drop_last() =~= ov.take(i as int));
        if keep[i] {
            proof {
                crate::text::lemma_strs_push(out@, e);
            }
            out.push(e);
            assert(strs(out@) =~= filter_by(ov.take(i + 1), keep@));
        }
        i = i + 1;
    }
    assert(ov.take(n as int) =~= ov);
    *v = out;
}

/// The code point of `c` after ASCII lower-casing.
pub open spec fn ascii_lower(c: char) -> u32 {
    if 'A' <= c && c <= 'Z' {
        ((c as u32) + 32) as u32
    } else {
        c as u32
    }
}

/// Equality up to ASCII case, as `str::eq_ignore_ascii_case` tests it.
pub open spec fn eq_ignore_ascii_case(a: Seq<char>, b: Seq<char>) -> bool {
    a.len() == b.len() && forall|i: int| 0 <= i < a.len() ==> ascii_lower(a[i]) == ascii_lower(b[i])
}

fn lower(c: char) -> (r: u32)
    ensures
        r == ascii_lower(c),
{
    if 'A' <= c && c <= 'Z' {
        (c as u32) + 32
    } else {
        c as u32
    }
}

/// Compares two strings ignoring ASCII case.
pub fn str_eq_ignore_ascii_case(a: &str, b: &str) -> (r: bool)
    ensures
        r == eq_ignore_ascii_case(a@, b@),
{
    let x = crate::text::chars_of(a);
    let y = crate::text::chars_of(b);
    if x.len() != y.len() {
        return false;
    }
    let mut i: usize = 0;
    while i < x.len()
        invariant
            x.len() == y.len(),
            x@ == a@,
            y@ == b@,
            0 <= i <= x.len(),
            forall|j: int| 0 <= j < i ==> ascii_lower(x@[j]) == ascii_lower(y@[j]),
        decreases x.len() - i,
    {
        if lower(x[i]) != lower(y[i]) {
            return false;
        }
        i = i + 1;
    }
    true
}

} // verus!
