//! Character-level string helpers shared by the protocol modules.
//!
//! Strings are reasoned about through their `Seq<char>` views.  The helpers
//! here implement the few `str` operations the protocol needs (trimming,
//! comma splitting, ordering, prefix tests) with contracts over those views.

use vstd::prelude::*;
use vstd::std_specs::iter::IteratorSpec;

verus! {

broadcast use vstd::string::group_string_axioms;

/// The views of a sequence of owned strings.
pub open spec fn strs(v: Seq<String>) -> Seq<Seq<char>> {
    v.map_values(|s: String| s@)
}

/// Unicode `White_Space`, the property that `char::is_whitespace` tests.
pub open spec fn is_ws(c: char) -> bool {
    let u: u32 = c as u32;
    (0x09 <= u && u <= 0x0D) || u == 0x20 || u == 0x85 || u == 0xA0 || u == 0x1680 || (0x2000
        <= u && u <= 0x200A) || u == 0x2028 || u == 0x2029 || u == 0x202F || u == 0x205F || u
        == 0x3000
}

/// `s` without leading whitespace.
pub open spec fn trim_start(s: Seq<char>) -> Seq<char>
    decreases s.len(),
{
    if s.len() > 0 && is_ws(s[0]) {
        trim_start(s.drop_first())
    } else {
        s
    }
}

/// `s` without trailing whitespace.
pub open spec fn trim_end(s: Seq<char>) -> Seq<char>
    decreases s.len(),
{
    if s.len() > 0 && is_ws(s.last()) {
        trim_end(s.drop_last())
    } else {
        s
    }
}

/// `s` without leading and trailing whitespace, as `str::trim` returns it.
pub open spec fn trim(s: Seq<char>) -> Seq<char> {
    trim_end(trim_start(s))
}

/// The pieces of `s` between occurrences of `sep`, as `str::split` yields them.
pub open spec fn split_on(s: Seq<char>, sep: char) -> Seq<Seq<char>>
    decreases s.len(),
{
    if s.len() == 0 {
        seq![Seq::<char>::empty()]
    } else {
        let rest = split_on(s.drop_last(), sep);
        if s.last() == sep {
            rest.push(Seq::<char>::empty())
        } else {
            rest.update(rest.len() - 1, rest.last().push(s.last()))
        }
    }
}

/// Keeps the non-empty trimmed pieces, in order.
pub open spec fn nonempty_trimmed(parts: Seq<Seq<char>>) -> Seq<Seq<char>>
    decreases parts.len(),
{
    if parts.len() == 0 {
        Seq::empty()
    } else {
        let rest = nonempty_trimmed(parts.drop_last());
        let t = trim(parts.last());
        if t.len() == 0 {
            rest
        } else {
            rest.push(t)
        }
    }
}

/// The tokens of a comma-separated header value: each piece trimmed, empty
/// pieces dropped.
pub open spec fn comma_tokens(s: Seq<char>) -> Seq<Seq<char>> {
    nonempty_trimmed(split_on(s, ','))
}

/// Lexicographic order by code point, which is the order of `str`'s `Ord`.
pub open spec fn seq_lt(a: Seq<char>, b: Seq<char>) -> bool
    decreases a.len(),
{
    if a.len() == 0 {
        b.len() > 0
    } else if b.len() == 0 {
        false
    } else if a[0] != b[0] {
        (a[0] as int) < (b[0] as int)
    } else {
        seq_lt(a.drop_first(), b.drop_first())
    }
}

/// The part of `s` before its first `.`, or all of `s` without one.
pub open spec fn prop_root(s: Seq<char>) -> Seq<char>
    decreases s.len(),
{
    if s.len() == 0 {
        s
    } else if s[0] == '.' {
        Seq::empty()
    } else {
        seq![s[0]] + prop_root(s.drop_first())
    }
}

pub proof fn lemma_seq_lt_irreflexive(a: Seq<char>)
    ensures
        !seq_lt(a, a),
    decreases a.len(),
{
    if a.len() > 0 {
        lemma_seq_lt_irreflexive(a.drop_first());
    }
}

pub proof fn lemma_seq_lt_transitive(a: Seq<char>, b: Seq<char>, c: Seq<char>)
    requires
        seq_lt(a, b),
        seq_lt(b, c),
    ensures
        seq_lt(a, c),
    decreases a.len(),
{
    if a.len() > 0 && b.len() > 0 && c.len() > 0 {
        if a[0] == b[0] && b[0] == c[0] {
            lemma_seq_lt_transitive(a.drop_first(), b.drop_first(), c.drop_first());
        }
    }
}

pub proof fn lemma_seq_lt_total(a: Seq<char>, b: Seq<char>)
    requires
        a != b,
    ensures
        seq_lt(a, b) || seq_lt(b, a),
    decreases a.len(),
{
    if a.len() > 0 && b.len() > 0 {
        if a[0] == b[0] {
            if a.drop_first() == b.drop_first() {
                assert(a =~= seq![a[0]] + a.drop_first());
                assert(b =~= seq![b[0]] + b.drop_first());
            }
            lemma_seq_lt_total(a.drop_first(), b.drop_first());
        } else {
            assert((a[0] as int) != (b[0] as int));
        }
    } else if a.len() == 0 && b.len() == 0 {
        assert(a =~= b);
    }
}

/// Collects the characters of `s` in order.
pub fn chars_of(s: &str) -> (out: Vec<char>)
    ensures
        out@ == s@,
{
    let mut out: Vec<char> = Vec::new();
    for c in it: s.chars()
        invariant
            out@ == it.seq().take(it.index() as int),
            it.seq() == s@,
    {
        out.push(c);
    }
    out
}

/// Appends one character, as `String::push` does.
#[verifier::external_body]
pub(crate) fn push_char(s: &mut String, c: char)
    ensures
        final(s)@ == old(s)@.push(c),
{
    s.push(c);
}

/// Builds a string from characters `chars[from..to]`.
pub fn string_from(chars: &Vec<char>, from: usize, to: usize) -> (out: String)
    requires
        from <= to <= chars.len(),
    ensures
        out@ == chars@.subrange(from as int, to as int),
{
    let mut out = String::new();
    let mut i = from;
    while i < to
        invariant
            from <= i <= to <= chars.len(),
            out@ == chars@.subrange(from as int, i as int),
        decreases to - i,
    {
        push_char(&mut out, chars[i]);
        assert(chars@.subrange(from as int, i + 1) =~= chars@.subrange(from as int, i as int).push(
            chars@[i as int],
        ));
        i = i + 1;
    }
    out
}

/// Copies `s` into a new `String`.
pub fn owned(s: &str) -> (out: String)
    ensures
        out@ == s@,
{
    s.to_owned()
}

/// Whether `c` is Unicode whitespace.
pub fn char_is_ws(c: char) -> (b: bool)
    ensures
        b == is_ws(c),
{
    let u: u32 = c as u32;
    (0x09 <= u && u <= 0x0D) || u == 0x20 || u == 0x85 || u == 0xA0 || u == 0x1680 || (0x2000
        <= u && u <= 0x200A) || u == 0x2028 || u == 0x2029 || u == 0x202F || u == 0x205F || u
        == 0x3000
}

/// Character-sequence equality.
pub fn chars_eq(a: &Vec<char>, b: &Vec<char>) -> (r: bool)
    ensures
        r == (a@ == b@),
{
    if a.len() != b.len() {
        return false;
    }
    let mut i: usize = 0;
    while i < a.len()
        invariant
            a.len() == b.len(),
            0 <= i <= a.len(),
            forall|j: int| 0 <= j < i ==> a@[j] == b@[j],
        decreases a.len() - i,
    {
        if a[i] != b[i] {
            return false;
        }
        i = i + 1;
    }
    assert(a@ =~= b@);
    true
}

/// String equality through views.
pub fn str_eq(a: &str, b: &str) -> (r: bool)
    ensures
        r == (a@ == b@),
{
    let x = chars_of(a);
    let y = chars_of(b);
    chars_eq(&x, &y)
}

proof fn lemma_seq_lt_from(a: Seq<char>, b: Seq<char>, i: int)
    requires
        0 <= i <= a.len(),
        i <= b.len(),
        forall|j: int| 0 <= j < i ==> a[j] == b[j],
    ensures
        seq_lt(a, b) == seq_lt(a.subrange(i, a.len() as int), b.subrange(i, b.len() as int)),
    decreases i,
{
    if i > 0 {
        assert(a.len() > 0 && b.len() > 0);
        assert(a[0] == b[0]);
        let a1 = a.drop_first();
        let b1 = b.drop_first();
        assert forall|j: int| 0 <= j < i - 1 implies a1[j] == b1[j] by {
            assert(a[j + 1] == b[j + 1]);
        }
        lemma_seq_lt_from(a1, b1, i - 1);
        assert(a1.subrange(i - 1, a1.len() as int) =~= a.subrange(i, a.len() as int));
        assert(b1.subrange(i - 1, b1.len() as int) =~= b.subrange(i, b.len() as int));
    } else {
        assert(a.subrange(0, a.len() as int) =~= a);
        assert(b.subrange(0, b.len() as int) =~= b);
    }
}

/// Strict lexicographic comparison of character sequences.
pub fn chars_lt(a: &Vec<char>, b: &Vec<char>) -> (r: bool)
    ensures
        r == seq_lt(a@, b@),
{
    let mut i: usize = 0;
    while i < a.len() && i < b.len()
        invariant
            0 <= i <= a.len(),
            i <= b.len(),
            forall|j: int| 0 <= j < i ==> a@[j] == b@[j],
        decreases a.len() - i,
    {
        if a[i] != b[i] {
            proof {
                lemma_seq_lt_from(a@, b@, i as int);
                let a1 = a@.subrange(i as int, a.len() as int);
                let b1 = b@.subrange(i as int, b.len() as int);
                assert(a1[0] == a@[i as int]);
                assert(b1[0] == b@[i as int]);
            }
            return a[i] < b[i];
        }
        i = i + 1;
    }
    proof {
        lemma_seq_lt_from(a@, b@, i as int);
    }
    i == a.len() && i < b.len()
}

/// Strict lexicographic comparison of strings.
pub fn str_lt(a: &str, b: &str) -> (r: bool)
    ensures
        r == seq_lt(a@, b@),
{
    let x = chars_of(a);
    let y = chars_of(b);
    chars_lt(&x, &y)
}


proof fn lemma_trim_start_range(s: Seq<char>, a: int)
    requires
        0 <= a <= s.len(),
        forall|j: int| 0 <= j < a ==> is_ws(s[j]),
        a < s.len() ==> !is_ws(s[a]),
    ensures
        trim_start(s) == s.subrange(a, s.len() as int),
    decreases a,
{
    if a == 0 {
        assert(s.subrange(0, s.len() as int) =~= s);
    } else {
        let t = s.drop_first();
        assert forall|j: int| 0 <= j < a - 1 implies is_ws(t[j]) by {
            assert(t[j] == s[j + 1]);
        }
        lemma_trim_start_range(t, a - 1);
        assert(t.subrange(a - 1, t.len() as int) =~= s.subrange(a, s.len() as int));
    }
}

proof fn lemma_trim_end_range(s: Seq<char>, b: int)
    requires
        0 <= b <= s.len(),
        forall|j: int| b <= j < s.len() ==> is_ws(s[j]),
        b > 0 ==> !is_ws(s[b - 1]),
    ensures
        trim_end(s) == s.subrange(0, b),
    decreases s.len() - b,
{
    if b == s.len() {
        assert(s.subrange(0, b) =~= s);
    } else {
        let t = s.drop_last();
        lemma_trim_end_range(t, b);
        assert(t.subrange(0, b) =~= s.subrange(0, b));
    }
}

/// The bounds of `chars[from..to]` once surrounding whitespace is removed.
pub fn trim_bounds(chars: &Vec<char>, from: usize, to: usize) -> (r: (usize, usize))
    requires
        from <= to <= chars.len(),
    ensures
        from <= r.0 <= r.1 <= to,
        chars@.subrange(r.0 as int, r.1 as int) == trim(chars@.subrange(from as int, to as int)),
{
    let ghost s = chars@.subrange(from as int, to as int);
    let mut a = from;
    while a < to && char_is_ws(chars[a])
        invariant
            from <= a <= to <= chars.len(),
            forall|j: int| from <= j < a ==> is_ws(chars@[j]),
        decreases to - a,
    {
        a = a + 1;
    }
    proof {
        lemma_trim_start_range(s, a - from);
        assert(s.subrange(a - from, s.len() as int) =~= chars@.subrange(a as int, to as int));
    }
    let mut b = to;
    while b > a && char_is_ws(chars[b - 1])
        invariant
            from <= a <= b <= to <= chars.len(),
            forall|j: int| b <= j < to ==> is_ws(chars@[j]),
        decreases b,
    {
        b = b - 1;
    }
    proof {
        let t = chars@.subrange(a as int, to as int);
        assert forall|j: int| b - a <= j < t.len() implies is_ws(t[j]) by {
            assert(t[j] == chars@[j + a]);
        }
        lemma_trim_end_range(t, b - a);
        assert(t.subrange(0, b - a) =~= chars@.subrange(a as int, b as int));
    }
    (a, b)
}

/// The trimmed copy of `s`.
pub fn trimmed(s: &str) -> (out: String)
    ensures
        out@ == trim(s@),
{
    let c = chars_of(s);
    let (a, b) = trim_bounds(&c, 0, c.len());
    assert(c@.subrange(0, c@.len() as int) =~= c@);
    string_from(&c, a, b)
}

pub proof fn lemma_split_on_nonempty(s: Seq<char>, sep: char)
    ensures
        split_on(s, sep).len() >= 1,
    decreases s.len(),
{
    if s.len() > 0 {
        lemma_split_on_nonempty(s.drop_last(), sep);
    }
}

/// The non-empty trimmed pieces of `s` between commas.
pub fn comma_tokens_of(s: &str) -> (out: Vec<String>)
    ensures
        strs(out@) == comma_tokens(s@),
{
    let c = chars_of(s);
    let n = c.len();
    let mut out: Vec<String> = Vec::new();
    let mut start: usize = 0;
    let mut i: usize = 0;
    assert(c@.take(0) =~= Seq::<char>::empty());
    assert(c@.subrange(0, 0) =~= Seq::<char>::empty());
    assert(split_on(c@.take(0), ',').drop_last().push(c@.subrange(0, 0)) =~= split_on(
        c@.take(0),
        ',',
    ));
    while i < n
        invariant
            n == c.len(),
            0 <= start <= i <= n,
            c@ == s@,
            split_on(c@.take(i as int), ',') == split_on(c@.take(start as int), ',').drop_last().push(
                c@.subrange(start as int, i as int),
            ),
            strs(out@) == nonempty_trimmed(split_on(c@.take(start as int), ',').drop_last()),
            start == 0 || c@[start - 1] == ',',
        decreases n - i,
    {
        let ghost prev = c@.take(i as int);
        assert(c@.take(i + 1).drop_last() =~= prev);
        assert(c@.take(i + 1).last() == c@[i as int]);
        proof {
            lemma_split_on_nonempty(prev, ',');
            lemma_split_on_nonempty(c@.take(start as int), ',');
        }
        if c[i] == ',' {
            let (a, b) = trim_bounds(&c, start, i);
            let ghost piece = c@.subrange(start as int, i as int);
            if a < b {
                let t = string_from(&c, a, b);
                out.push(t);
            }
            proof {
                let sp = split_on(c@.take(start as int), ',');
                let sq = split_on(c@.take(i + 1), ',');
                assert(sq == split_on(prev, ',').push(Seq::<char>::empty()));
                assert(sq.drop_last() =~= sp.drop_last().push(piece));
                assert(sq.drop_last().drop_last() =~= sp.drop_last());
                assert(sq.drop_last().last() == piece);
                assert(c@.subrange(i + 1, i + 1) =~= Seq::<char>::empty());
                assert(strs(out@) =~= nonempty_trimmed(sq.drop_last()));
                assert(sq =~= sq.drop_last().push(c@.subrange(i + 1, i + 1)));
            }
            start = i + 1;
        } else {
            proof {
                let sp = split_on(c@.take(start as int), ',');
                let r = split_on(prev, ',');
                assert(r.last() == c@.subrange(start as int, i as int));
                assert(c@.subrange(start as int, i + 1) =~= c@.subrange(start as int, i as int).push(
                    c@[i as int],
                ));
                assert(split_on(c@.take(i + 1), ',') =~= sp.drop_last().push(
                    c@.subrange(start as int, i + 1),
                ));
            }
        }
        i = i + 1;
    }
    let (a, b) = trim_bounds(&c, start, n);
    if a < b {
        let t = string_from(&c, a, b);
        out.push(t);
    }
    proof {
        let sp = split_on(c@.take(start as int), ',');
        let all = split_on(c@.take(n as int), ',');
        lemma_split_on_nonempty(c@.take(start as int), ',');
        assert(c@.take(n as int) =~= s@);
        assert(all.drop_last() =~= sp.drop_last());
        assert(all.last() == c@.subrange(start as int, n as int));
        assert(strs(out@) =~= nonempty_trimmed(all));
    }
    out
}


/// `s` with `x` appended unless it already occurs.
pub open spec fn push_unique(s: Seq<Seq<char>>, x: Seq<char>) -> Seq<Seq<char>> {
    if s.contains(x) {
        s
    } else {
        s.push(x)
    }
}

/// Whether `s` holds no element twice.
pub open spec fn distinct(s: Seq<Seq<char>>) -> bool {
    forall|i: int, j: int| 0 <= i < j < s.len() ==> s[i] != s[j]
}

pub proof fn lemma_strs_push(v: Seq<String>, x: String)
    ensures
        strs(v.push(x)) == strs(v).push(x@),
{
    assert(strs(v.push(x)) =~= strs(v).push(x@));
}

pub proof fn lemma_push_unique_distinct(s: Seq<Seq<char>>, x: Seq<char>)
    requires
        distinct(s),
    ensures
        distinct(push_unique(s, x)),
        push_unique(s, x).contains(x),
        forall|y: Seq<char>| push_unique(s, x).contains(y) <==> (s.contains(y) || y == x),
{
    if !s.contains(x) {
        let t = s.push(x);
        assert forall|i: int, j: int| 0 <= i < j < t.len() implies t[i] != t[j] by {
            if j == t.len() - 1 {
                assert(s.contains(t[i]));
            }
        }
        assert(t[t.len() - 1] == x);
        assert forall|y: Seq<char>| t.contains(y) <==> (s.contains(y) || y == x) by {
            if t.contains(y) && y != x {
                let i = choose|i: int| 0 <= i < t.len() && t[i] == y;
                assert(s[i] == y);
            }
            if s.contains(y) {
                let i = choose|i: int| 0 <= i < s.len() && s[i] == y;
                assert(t[i] == y);
            }
        }
    }
}

/// Whether `v` holds a string equal to `x`.
pub fn vec_contains_str(v: &Vec<String>, x: &str) -> (b: bool)
    ensures
        b == strs(v@).contains(x@),
{
    let mut i: usize = 0;
    while i < v.len()
        invariant
            0 <= i <= v.len(),
            forall|j: int| 0 <= j < i ==> strs(v@)[j] != x@,
        decreases v.len() - i,
    {
        if str_eq(v[i].as_str(), x) {
            assert(strs(v@)[i as int] == x@);
            return true;
        }
        i = i + 1;
    }
    assert forall|j: int| 0 <= j < strs(v@).len() implies strs(v@)[j] != x@ by {}
    false
}

/// Appends `x` unless an equal string is already present.
pub fn push_unique_string(v: &mut Vec<String>, x: String)
    ensures
        strs(final(v)@) == push_unique(strs(old(v)@), x@),
{
    if !vec_contains_str(v, x.as_str()) {
        proof {
            lemma_strs_push(v@, x);
        }
        v.push(x);
    }
}

/// Copies a list of strings.
pub fn copy_strings(v: &Vec<String>) -> (out: Vec<String>)
    ensures
        strs(out@) == strs(v@),
{
    let mut out: Vec<String> = Vec::new();
    let mut i: usize = 0;
    while i < v.len()
        invariant
            0 <= i <= v.len(),
            strs(out@) == strs(v@).take(i as int),
        decreases v.len() - i,
    {
        let s = v[i].clone();
        proof {
            lemma_strs_push(out@, s);
        }
        out.push(s);
        assert(strs(v@).take(i + 1) =~= strs(v@).take(i as int).push(v@[i as int]@));
        i = i + 1;
    }
    assert(strs(v@).take(v.len() as int) =~= strs(v@));
    out
}


/// Whether `v` holds a string equal to `x`.
pub fn slice_contains_str(v: &[String], x: &str) -> (b: bool)
    ensures
        b == strs(v@).contains(x@),
{
    let mut i: usize = 0;
    while i < v.len()
        invariant
            0 <= i <= v@.len(),
            forall|j: int| 0 <= j < i ==> strs(v@)[j] != x@,
        decreases v@.len() - i,
    {
        if str_eq(v[i].as_str(), x) {
            assert(strs(v@)[i as int] == x@);
            return true;
        }
        i = i + 1;
    }
    assert forall|j: int| 0 <= j < strs(v@).len() implies strs(v@)[j] != x@ by {}
    false
}


/// Whether prop path `p` lies under reset entry `r`: it is `r`, has root `r`,
/// or continues `r` with a `.`.
pub open spec fn under_reset(p: Seq<char>, r: Seq<char>) -> bool {
    p == r || prop_root(p) == r || (r.len() < p.len() && p.subrange(0, r.len() as int) == r
        && p[r.len() as int] == '.')
}

proof fn lemma_prop_root_prefix(s: Seq<char>, i: int)
    requires
        0 <= i <= s.len(),
        forall|j: int| 0 <= j < i ==> s[j] != '.',
        i < s.len() ==> s[i] == '.',
    ensures
        prop_root(s) == s.subrange(0, i),
    decreases i,
{
    if i == 0 {
        if s.len() == 0 {
            assert(s.subrange(0, 0) =~= s);
        } else {
            assert(s.subrange(0, 0) =~= Seq::<char>::empty());
        }
    } else {
        let t = s.drop_first();
        assert forall|j: int| 0 <= j < i - 1 implies t[j] != '.' by {
            assert(t[j] == s[j + 1]);
        }
        lemma_prop_root_prefix(t, i - 1);
        assert(s.subrange(0, i) =~= seq![s[0]] + t.subrange(0, i - 1));
    }
}

/// The position of the first `.` in `c`, or its length.
fn first_dot(c: &Vec<char>) -> (i: usize)
    ensures
        i <= c.len(),
        prop_root(c@) == c@.subrange(0, i as int),
{
    let mut i: usize = 0;
    while i < c.len() && c[i] != '.'
        invariant
            0 <= i <= c.len(),
            forall|j: int| 0 <= j < i ==> c@[j] != '.',
        decreases c.len() - i,
    {
        i = i + 1;
    }
    proof {
        lemma_prop_root_prefix(c@, i as int);
    }
    i
}

/// The top-level key of a dotted prop path.
pub fn prop_root_of(s: &str) -> (out: String)
    ensures
        out@ == prop_root(s@),
{
    let c = chars_of(s);
    let i = first_dot(&c);
    string_from(&c, 0, i)
}

/// Whether prop path `p` lies under reset entry `r`.
pub fn is_under_reset(p: &str, r: &str) -> (b: bool)
    ensures
        b == under_reset(p@, r@),
{
    let pc = chars_of(p);
    let rc = chars_of(r);
    if chars_eq(&pc, &rc) {
        return true;
    }
    let i = first_dot(&pc);
    let root = string_from(&pc, 0, i);
    if str_eq(root.as_str(), r) {
        return true;
    }
    if rc.len() < pc.len() {
        let head = string_from(&pc, 0, rc.len());
        if str_eq(head.as_str(), r) && pc[rc.len()] == '.' {
            return true;
        }
    }
    false
}

/// Appends every character of `t`.
pub fn push_str(s: &mut String, t: &str)
    ensures
        final(s)@ == old(s)@ + t@,
{
    let c = chars_of(t);
    let ghost start = s@;
    let mut i: usize = 0;
    while i < c.len()
        invariant
            0 <= i <= c.len(),
            c@ == t@,
            s@ == start + c@.take(i as int),
        decreases c.len() - i,
    {
        push_char(s, c[i]);
        assert(c@.take(i + 1) =~= c@.take(i as int).push(c@[i as int]));
        assert(start + c@.take(i + 1) =~= (start + c@.take(i as int)).push(c@[i as int]));
        i = i + 1;
    }
    assert(c@.take(c.len() as int) =~= c@);
}

/// The pieces of `s` between occurrences of `sep`, as `str::split` yields
/// them.
pub fn split_pieces_of(s: &str, sep: char) -> (out: Vec<String>)
    ensures
        strs(out@) == split_on(s@, sep),
{
    let c = chars_of(s);
    let n = c.len();
    let mut out: Vec<String> = Vec::new();
    let mut start: usize = 0;
    let mut i: usize = 0;
    assert(c@.take(0) =~= Seq::<char>::empty());
    assert(c@.subrange(0, 0) =~= Seq::<char>::empty());
    assert(split_on(c@.take(0), sep).drop_last().push(c@.subrange(0, 0)) =~= split_on(c@.take(0), sep));
    assert(strs(out@) =~= split_on(c@.take(0), sep).drop_last());
    while i < n
        invariant
            n == c.len(),
            0 <= start <= i <= n,
            c@ == s@,
            split_on(c@.take(i as int), sep) == split_on(c@.take(start as int), sep).drop_last().push(
                c@.subrange(start as int, i as int),
            ),
            strs(out@) == split_on(c@.take(start as int), sep).drop_last(),
        decreases n - i,
    {
        let ghost prev = c@.take(i as int);
        assert(c@.take(i + 1).drop_last() =~= prev);
        assert(c@.take(i + 1).last() == c@[i as int]);
        proof {
            lemma_split_on_nonempty(prev, sep);
            lemma_split_on_nonempty(c@.take(start as int), sep);
        }
        if c[i] == sep {
            let ghost piece = c@.subrange(start as int, i as int);
            let t = string_from(&c, start, i);
            let ghost before = out@;
            out.push(t);
            proof {
                lemma_strs_push(before, t);
                let sp = split_on(c@.take(start as int), sep);
                let sq = split_on(c@.take(i + 1), sep);
                assert(sq == split_on(prev, sep).push(Seq::<char>::empty()));
                assert(sq.drop_last() =~= sp.drop_last().push(piece));
                assert(c@.subrange(i + 1, i + 1) =~= Seq::<char>::empty());
                assert(strs(out@) =~= sq.drop_last());
                assert(sq =~= sq.drop_last().push(c@.subrange(i + 1, i + 1)));
            }
            start = i + 1;
        } else {
            proof {
                let sp = split_on(c@.take(start as int), sep);
                let r = split_on(prev, sep);
                assert(r.last() == c@.subrange(start as int, i as int));
                assert(c@.subrange(start as int, i + 1) =~= c@.subrange(start as int, i as int).push(c@[i as int]));
                assert(split_on(c@.take(i + 1), sep) =~= sp.drop_last().push(c@.subrange(start as int, i + 1)));
            }
        }
        i = i + 1;
    }
    let t = string_from(&c, start, n);
    let ghost before = out@;
    out.push(t);
    proof {
        lemma_strs_push(before, t);
        let sp = split_on(c@.take(start as int), sep);
        let all = split_on(c@.take(n as int), sep);
        lemma_split_on_nonempty(c@.take(start as int), sep);
        assert(c@.take(n as int) =~= s@);
        assert(all =~= sp.drop_last().push(c@.subrange(start as int, n as int)));
        assert(strs(out@) =~= all);
    }
    out
}

/// Whether `p` is a prefix of `s`.
/// An element of the first `i + 1` elements is one of the first `i` or the
/// element at `i`.
pub proof fn lemma_take_succ_contains<A>(s: Seq<A>, i: int, x: A)
    requires
        0 <= i < s.len(),
    ensures
        s.take(i + 1).contains(x) <==> (s.take(i).contains(x) || x == s[i]),
{
    if s.take(i + 1).contains(x) {
        let j = choose|j: int| 0 <= j < i + 1 && #[trigger] s.take(i + 1)[j] == x;
        if j < i {
            assert(s.take(i)[j] == x);
        }
    }
    if s.take(i).contains(x) {
        let j = choose|j: int| 0 <= j < i && #[trigger] s.take(i)[j] == x;
        assert(s.take(i + 1)[j] == x);
    }
    if x == s[i] {
        assert(s.take(i + 1)[i] == x);
    }
}

pub open spec fn has_prefix(s: Seq<char>, p: Seq<char>) -> bool {
    p.len() <= s.len() && s.subrange(0, p.len() as int) == p
}

/// `s` with every leading repetition of the non-empty `p` removed, as
/// `str::trim_start_matches` does.
pub open spec fn strip_all_prefix(s: Seq<char>, p: Seq<char>) -> Seq<char>
    decreases s.len(),
{
    if p.len() > 0 && has_prefix(s, p) {
        strip_all_prefix(s.subrange(p.len() as int, s.len() as int), p)
    } else {
        s
    }
}

/// Whether `chars[at..]` starts with `p`.
pub fn chars_have_prefix_at(chars: &Vec<char>, at: usize, p: &Vec<char>) -> (b: bool)
    requires
        at <= chars.len(),
    ensures
        b == has_prefix(chars@.subrange(at as int, chars@.len() as int), p@),
{
    let ghost rest = chars@.subrange(at as int, chars@.len() as int);
    if p.len() > chars.len() - at {
        return false;
    }
    let mut i: usize = 0;
    while i < p.len()
        invariant
            at + p.len() <= chars.len(),
            0 <= i <= p.len(),
            rest == chars@.subrange(at as int, chars@.len() as int),
            forall|j: int| 0 <= j < i ==> chars@[at + j] == p@[j],
        decreases p.len() - i,
    {
        if chars[at + i] != p[i] {
            assert(rest.subrange(0, p.len() as int)[i as int] != p@[i as int]);
            return false;
        }
        i = i + 1;
    }
    assert(rest.subrange(0, p.len() as int) =~= p@);
    true
}

/// `s` with every leading repetition of the non-empty `p` removed.
pub fn strip_all_prefix_of(s: &str, p: &str) -> (out: String)
    requires
        p@.len() > 0,
    ensures
        out@ == strip_all_prefix(s@, p@),
{
    let c = chars_of(s);
    let pc = chars_of(p);
    let mut at: usize = 0;
    assert(c@.subrange(0, c@.len() as int) =~= s@);
    while chars_have_prefix_at(&c, at, &pc)
        invariant
            at <= c.len(),
            c@ == s@,
            pc@ == p@,
            pc@.len() > 0,
            strip_all_prefix(c@.subrange(at as int, c@.len() as int), pc@) == strip_all_prefix(s@, p@),
        decreases c.len() - at,
    {
        let ghost rest = c@.subrange(at as int, c@.len() as int);
        assert(rest.subrange(pc@.len() as int, rest.len() as int) =~= c@.subrange(at + pc@.len(), c@.len() as int));
        at = at + pc.len();
    }
    string_from(&c, at, c.len())
}

/// Membership in a sequence with one element appended.
pub proof fn lemma_contains_push<A>(s: Seq<A>, y: A, x: A)
    ensures
        s.push(y).contains(x) <==> (s.contains(x) || x == y),
{
    if s.contains(x) {
        let i = choose|i: int| 0 <= i < s.len() && s[i] == x;
        assert(s.push(y)[i] == x);
    }
    if x == y {
        assert(s.push(y)[s.len() as int] == x);
    }
    if s.push(y).contains(x) {
        let i = choose|i: int| 0 <= i < s.push(y).len() && s.push(y)[i] == x;
        if i < s.len() {
            assert(s[i] == x);
        }
    }
}

} // verus!
