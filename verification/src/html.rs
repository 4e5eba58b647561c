//! The page object as embedded in the HTML of an initial visit.
//!
//! The JSON text is made safe for a `<script>` element or an attribute:
//! `<`, `>`, `&`, U+2028 and U+2029 are written as JSON `\u` escapes.  In
//! JSON text these characters only occur inside strings, where the escapes
//! denote the same characters, so the escaped text denotes the same value.

use crate::json::{json_text, json_text_of};
use crate::text::{chars_of, push_char, push_str};
use vstd::prelude::*;

verus! {

broadcast use vstd::string::group_string_axioms;

/// Whether `c` must not appear literally in script-embedded JSON.
pub open spec fn script_unsafe(c: char) -> bool {
    c == '<' || c == '>' || c == '&' || c == '\u{2028}' || c == '\u{2029}'
}

/// What `c` is written as in script-embedded JSON.
pub open spec fn script_escape(c: char) -> Seq<char> {
    if c == '<' {
        "\\u003C"@
    } else if c == '>' {
        "\\u003E"@
    } else if c == '&' {
        "\\u0026"@
    } else if c == '\u{2028}' {
        "\\u2028"@
    } else if c == '\u{2029}' {
        "\\u2029"@
    } else {
        seq![c]
    }
}

/// `s` with every unsafe character escaped.
pub open spec fn script_safe(s: Seq<char>) -> Seq<char>
    decreases s.len(),
{
    if s.len() == 0 {
        Seq::empty()
    } else {
        script_safe(s.drop_last()) + script_escape(s.last())
    }
}

proof fn lemma_escape_clean(c: char)
    ensures
        forall|i: int| 0 <= i < script_escape(c).len() ==> !script_unsafe(#[trigger] script_escape(c)[i]),
{
    reveal_strlit("\\u003C");
    reveal_strlit("\\u003E");
    reveal_strlit("\\u0026");
    reveal_strlit("\\u2028");
    reveal_strlit("\\u2029");
}

/// Script-safe text holds none of `<`, `>`, `&`, U+2028, U+2029.
pub proof fn lemma_script_safe_clean(s: Seq<char>)
    ensures
        forall|i: int| 0 <= i < script_safe(s).len() ==> !script_unsafe(#[trigger] script_safe(s)[i]),
    decreases s.len(),
{
    if s.len() > 0 {
        lemma_script_safe_clean(s.drop_last());
        lemma_escape_clean(s.last());
        let a = script_safe(s.drop_last());
        let b = script_escape(s.last());
        assert forall|i: int| 0 <= i < script_safe(s).len() implies !script_unsafe(#[trigger] script_safe(s)[i]) by {
            if i < a.len() {
                assert(script_safe(s)[i] == a[i]);
            } else {
                assert(script_safe(s)[i] == b[i - a.len()]);
            }
        }
    }
}

/// Text free of unsafe characters is left as it is.
pub proof fn lemma_script_safe_identity(s: Seq<char>)
    requires
        forall|i: int| 0 <= i < s.len() ==> !script_unsafe(#[trigger] s[i]),
    ensures
        script_safe(s) == s,
    decreases s.len(),
{
    if s.len() > 0 {
        assert forall|i: int| 0 <= i < s.drop_last().len() implies !script_unsafe(#[trigger] s.drop_last()[i]) by {
            assert(s.drop_last()[i] == s[i]);
        }
        lemma_script_safe_identity(s.drop_last());
        assert(!script_unsafe(s[s.len() - 1]));
        assert(s.drop_last().push(s.last()) =~= s);
        assert(script_safe(s) =~= s.drop_last() + seq![s.last()]);
    }
}

/// Escaping distributes over concatenation.
pub proof fn lemma_script_safe_concat(a: Seq<char>, b: Seq<char>)
    ensures
        script_safe(a + b) == script_safe(a) + script_safe(b),
    decreases b.len(),
{
    if b.len() == 0 {
        assert(a + b =~= a);
        assert(script_safe(b) =~= Seq::<char>::empty());
        assert(script_safe(a) + script_safe(b) =~= script_safe(a));
    } else {
        lemma_script_safe_concat(a, b.drop_last());
        assert((a + b).drop_last() =~= a + b.drop_last());
        assert((a + b).last() == b.last());
        assert(script_safe(a + b) =~= script_safe(a) + script_safe(b.drop_last()) + script_escape(b.last()));
    }
}

/// The character that the escape at the start of `t` denotes, when `t`
/// starts with one of the five `\u` escapes script embedding writes.
pub open spec fn leading_script_escape(t: Seq<char>) -> Option<char> {
    if t.len() >= 6 && t[0] == '\\' && t[1] == 'u' {
        let d = t.subrange(2, 6);
        if d == seq!['0', '0', '3', 'C'] {
            Some('<')
        } else if d == seq!['0', '0', '3', 'E'] {
            Some('>')
        } else if d == seq!['0', '0', '2', '6'] {
            Some('&')
        } else if d == seq!['2', '0', '2', '8'] {
            Some('\u{2028}')
        } else if d == seq!['2', '0', '2', '9'] {
            Some('\u{2029}')
        } else {
            None
        }
    } else {
        None
    }
}

/// JSON text read with the five script escapes decoded into the characters
/// they denote; every other escape pair (a backslash and the character
/// after it) is kept as it is.
pub open spec fn script_unescaped(t: Seq<char>) -> Seq<char>
    decreases t.len(),
{
    if t.len() == 0 {
        Seq::empty()
    } else if t[0] == '\\' && t.len() >= 2 {
        match leading_script_escape(t) {
            Some(c) => seq![c] + script_unescaped(t.skip(6)),
            None => t.take(2) + script_unescaped(t.skip(2)),
        }
    } else {
        seq![t[0]] + script_unescaped(t.skip(1))
    }
}

/// Whether every backslash of `t` starts an escape pair whose second
/// character is none of those script embedding escapes, as in JSON text,
/// where a backslash is always followed by one of `"\/bfnrtu`.
pub open spec fn escapes_well_formed(t: Seq<char>) -> bool
    decreases t.len(),
{
    if t.len() == 0 {
        true
    } else if t[0] == '\\' {
        t.len() >= 2 && !script_unsafe(t[1]) && escapes_well_formed(t.skip(2))
    } else {
        escapes_well_formed(t.skip(1))
    }
}

/// Escaping one character in front of `r`.
proof fn lemma_script_safe_cons(c: char, r: Seq<char>)
    ensures
        script_safe(seq![c] + r) == script_escape(c) + script_safe(r),
{
    lemma_script_safe_concat(seq![c], r);
    assert(seq![c].drop_last() =~= Seq::<char>::empty());
    assert(script_safe(Seq::<char>::empty()) =~= Seq::<char>::empty());
    assert(script_safe(seq![c]) =~= script_escape(c));
}

/// A prefix free of unsafe characters is left as it is.
proof fn lemma_script_safe_prefix(r: Seq<char>, k: int)
    requires
        0 <= k <= r.len(),
        forall|i: int| 0 <= i < k ==> !script_unsafe(#[trigger] r[i]),
    ensures
        script_safe(r) == r.take(k) + script_safe(r.skip(k)),
{
    assert(r =~= r.take(k) + r.skip(k));
    lemma_script_safe_concat(r.take(k), r.skip(k));
    assert forall|i: int| 0 <= i < r.take(k).len() implies !script_unsafe(#[trigger] r.take(k)[i]) by {
        assert(r.take(k)[i] == r[i]);
    }
    lemma_script_safe_identity(r.take(k));
}

/// The escape of an unsafe character is a backslash, `u` and four digits.
proof fn lemma_unsafe_escape(c: char)
    requires
        script_unsafe(c),
    ensures
        script_escape(c).len() == 6,
        script_escape(c)[0] == '\\',
        script_escape(c)[1] == 'u',
        leading_script_escape(script_escape(c)) == Some(c),
        forall|r: Seq<char>| #[trigger] leading_script_escape(script_escape(c) + r) == Some(c),
{
    reveal_strlit("\\u003C");
    reveal_strlit("\\u003E");
    reveal_strlit("\\u0026");
    reveal_strlit("\\u2028");
    reveal_strlit("\\u2029");
    let e = script_escape(c);
    assert(e.subrange(2, 6) =~= if c == '<' {
        seq!['0', '0', '3', 'C']
    } else if c == '>' {
        seq!['0', '0', '3', 'E']
    } else if c == '&' {
        seq!['0', '0', '2', '6']
    } else if c == '\u{2028}' {
        seq!['2', '0', '2', '8']
    } else {
        seq!['2', '0', '2', '9']
    });
    assert forall|r: Seq<char>| #[trigger] leading_script_escape(script_escape(c) + r) == Some(c) by {
        assert((e + r).subrange(2, 6) =~= e.subrange(2, 6));
    }
}

/// Well-formedness survives dropping characters that are not backslashes.
proof fn lemma_well_formed_skip(r: Seq<char>, k: int)
    requires
        0 <= k <= r.len(),
        forall|i: int| 0 <= i < k ==> r[i] != '\\',
        escapes_well_formed(r),
    ensures
        escapes_well_formed(r.skip(k)),
    decreases k,
{
    if k > 0 {
        assert(r.skip(1).len() == r.len() - 1);
        lemma_well_formed_skip(r.skip(1), k - 1);
        assert(r.skip(1).skip(k - 1) =~= r.skip(k));
    } else {
        assert(r.skip(0) =~= r);
    }
}

/// Behind an escape pair `\d` with `d` safe, the escaped text starts with
/// the same script escape as the text itself, if any; when it does, both
/// continue with the rest of the text, escaped or not, after those six
/// characters, which hold no backslash.
proof fn lemma_same_leading_escape(t: Seq<char>)
    requires
        t.len() >= 2,
        t[0] == '\\',
        !script_unsafe(t[1]),
    ensures
        script_safe(t) == seq!['\\', t[1]] + script_safe(t.skip(2)),
        leading_script_escape(script_safe(t)) == leading_script_escape(t),
        leading_script_escape(t) is Some ==> script_safe(t).skip(6) == script_safe(t.skip(6)) && forall|i: int|
            0 <= i < 4 ==> t.skip(2)[i] != '\\',
{
    let d = t[1];
    let r = t.skip(2);
    let s = script_safe(r);
    lemma_script_safe_prefix(t, 2);
    assert(t.take(2) =~= seq!['\\', d]);
    let tt = script_safe(t);
    assert(tt == seq!['\\', d] + s);
    if d != 'u' {
        return;
    }
    let m: int = if r.len() < 4 {
        r.len() as int
    } else {
        4
    };
    if forall|i: int| 0 <= i < m ==> !script_unsafe(#[trigger] r[i]) {
        if r.len() < 4 {
            lemma_script_safe_identity(r);
            assert(tt =~= t);
            assert(leading_script_escape(t) is None);
            return;
        }
        lemma_script_safe_prefix(r, 4);
        assert(tt.subrange(2, 6) =~= t.subrange(2, 6));
        if leading_script_escape(t) is Some {
            assert forall|i: int| 0 <= i < 4 implies r[i] != '\\' by {
                assert(r[i] == t.subrange(2, 6)[i]);
            }
            assert(tt.skip(6) =~= script_safe(r.skip(4)));
            assert(t.skip(6) =~= r.skip(4));
        }
    } else {
        let j: int = if script_unsafe(r[0]) {
            0
        } else if m > 1 && script_unsafe(r[1]) {
            1
        } else if m > 2 && script_unsafe(r[2]) {
            2
        } else {
            3
        };
        assert(0 <= j < m && script_unsafe(r[j]));
        assert(forall|i: int| 0 <= i < j ==> !script_unsafe(#[trigger] r[i]));
        lemma_script_safe_prefix(r, j);
        let rest = r.skip(j + 1);
        assert(r.skip(j) =~= seq![r[j]] + rest);
        lemma_script_safe_cons(r[j], rest);
        lemma_unsafe_escape(r[j]);
        assert(s[j] == '\\');
        assert(tt[2 + j] == '\\');
        if tt.len() >= 6 {
            assert(tt.subrange(2, 6)[j] == '\\');
        }
        if t.len() >= 6 {
            assert(t.subrange(2, 6)[j] == r[j]);
        }
    }
}

/// The script-safe JSON text denotes the same value as the text it was made
/// from, whatever that text was serialized from: read with the five `\u`
/// escapes decoded (which is how a JSON parser reads them inside strings,
/// the only place the escaped characters occur in JSON text), both texts
/// read the same.  (JSON text meets `escapes_well_formed`: a backslash in it
/// starts a string escape, followed by an ASCII character.)
pub proof fn law_script_safe_reads_the_same(t: Seq<char>)
    requires
        escapes_well_formed(t),
    ensures
        script_unescaped(script_safe(t)) == script_unescaped(t),
    decreases t.len(),
{
    if t.len() == 0 {
        return;
    }
    let c = t[0];
    let tt = script_safe(t);
    if c != '\\' {
        let r1 = t.skip(1);
        assert(t =~= seq![c] + r1);
        lemma_script_safe_cons(c, r1);
        law_script_safe_reads_the_same(r1);
        if script_unsafe(c) {
            lemma_unsafe_escape(c);
            assert(tt.skip(6) =~= script_safe(r1));
        } else {
            assert(tt[0] == c);
            assert(tt.skip(1) =~= script_safe(r1));
        }
        return;
    }
    let r = t.skip(2);
    law_script_safe_reads_the_same(r);
    lemma_same_leading_escape(t);
    assert(tt.take(2) =~= t.take(2));
    assert(tt.skip(2) =~= script_safe(r));
    if leading_script_escape(t) is Some {
        lemma_well_formed_skip(r, 4);
        assert(r.skip(4) =~= t.skip(6));
        law_script_safe_reads_the_same(t.skip(6));
    }
}

/// Escapes `text` for embedding in a `<script>` element or an attribute.
pub fn escape_script_text(text: &str) -> (out: String)
    ensures
        out@ == script_safe(text@),
{
    let chars = chars_of(text);
    let n = chars.len();
    let mut out = String::new();
    let mut i: usize = 0;
    while i < n
        invariant
            chars@ == text@,
            n == chars@.len(),
            0 <= i <= n,
            out@ == script_safe(chars@.take(i as int)),
        decreases n - i,
    {
        let c = chars[i];
        let ghost before = out@;
        if c == '<' {
            push_str(&mut out, "\\u003C");
        } else if c == '>' {
            push_str(&mut out, "\\u003E");
        } else if c == '&' {
            push_str(&mut out, "\\u0026");
        } else if c == '\u{2028}' {
            push_str(&mut out, "\\u2028");
        } else if c == '\u{2029}' {
            push_str(&mut out, "\\u2029");
        } else {
            push_char(&mut out, c);
            assert(before.push(c) =~= before + seq![c]);
        }
        assert(chars@.take(i + 1).drop_last() =~= chars@.take(i as int));
        assert(chars@.take(i + 1).last() == c);
        i = i + 1;
    }
    assert(chars@.take(n as int) =~= chars@);
    out
}

/// A page object that could not be serialized.
#[derive(Debug)]
pub struct SerializationError {
    message: String,
}

impl SerializationError {
    /// The description.
    pub closed spec fn message_view(&self) -> Seq<char> {
        self.message@
    }

    /// The description.
    pub fn message(&self) -> (r: &str)
        ensures
            r@ == self.message_view(),
    {
        self.message.as_str()
    }
}

/// Context passed to framework HTML response renderers.
#[derive(Clone, Debug, PartialEq, Eq)]
pub struct HtmlResponseContext {
    data_page: String,
}

impl HtmlResponseContext {
    /// The JSON-serialized page object.
    pub closed spec fn data_page_view(&self) -> Seq<char> {
        self.data_page@
    }

    /// A context holding `data_page` as it is; the caller makes sure it is
    /// safe for its HTML context.
    pub fn new(data_page: &str) -> (r: Self)
        ensures
            r.data_page_view() == data_page@,
    {
        HtmlResponseContext { data_page: crate::text::owned(data_page) }
    }

    /// The context for the JSON text of a page object: the text made
    /// script-safe.
    pub fn from_json_text(json: &str) -> (r: Self)
        ensures
            r.data_page_view() == script_safe(json@),
    {
        HtmlResponseContext { data_page: escape_script_text(json) }
    }

    /// The JSON-serialized page object.
    pub fn data_page(&self) -> (r: &str)
        ensures
            r@ == self.data_page_view(),
    {
        self.data_page.as_str()
    }
}

/// Serializes a page object into a script-safe HTML response context: its
/// JSON text, escaped; no `<`, `>`, `&`, U+2028 or U+2029 remains.  A JSON
/// value always serializes, so the result is `Ok`.
pub fn html_response_context(page: &serde_json::Value) -> (r: Result<
    HtmlResponseContext,
    SerializationError,
>)
    ensures
        r matches Ok(c) && c.data_page_view() == script_safe(json_text_of(*page)),
        r matches Ok(c) ==> forall|i: int|
            0 <= i < c.data_page_view().len() ==> !script_unsafe(#[trigger] c.data_page_view()[i]),
{
    match json_text(page) {
        Ok(text) => {
            let c = HtmlResponseContext::from_json_text(text.as_str());
            proof {
                lemma_script_safe_clean(text@);
            }
            Ok(c)
        },
        Err(detail) => {
            let mut message = "failed to serialize Inertia page: ".to_owned();
            push_str(&mut message, detail.as_str());
            Err(SerializationError { message })
        },
    }
}

} // verus!
