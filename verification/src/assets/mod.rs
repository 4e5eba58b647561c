//! Asset versions, tag rendering helpers, and HTTP caching rules shared by
//! the directory, embedded, and Vite asset sources.

pub mod directory;
pub mod embed_build;
pub mod embedded;
pub mod manifest;
pub mod vite;

use crate::text::{push_char, push_str, split_on, split_pieces_of, strip_all_prefix, strs, trim};
use sha2::Digest;
use vstd::string::StringSliceAdditionalSpecFns;
use vstd::prelude::*;

verus! {

broadcast use vstd::string::group_string_axioms;

/// The SHA-256 digest of `data`.
pub uninterp spec fn sha256(data: Seq<u8>) -> Seq<u8>;

/// Calls `sha2::Sha256::digest`: the 32-byte SHA-256 digest of `data`.
#[verifier::external_body]
pub(crate) fn sha256_digest(data: &[u8]) -> (r: Vec<u8>)
    ensures
        r@ == sha256(data@),
        r@.len() == 32,
{
    sha2::Sha256::digest(data).to_vec()
}

/// A scalar deployment version, kept in its string or number form.
#[derive(Debug)]
pub enum AssetVersion {
    /// A string deployment identifier.
    String(String),
    /// A numeric deployment identifier.
    Number(u64),
}

/// The decimal digits of `n`.
pub open spec fn decimal(n: nat) -> Seq<char>
    decreases n,
{
    if n < 10 {
        seq![digit_char(n)]
    } else {
        decimal(n / 10).push(digit_char(n % 10))
    }
}

/// The decimal digit for `d < 10`.
pub open spec fn digit_char(d: nat) -> char {
    if d == 0 {
        '0'
    } else if d == 1 {
        '1'
    } else if d == 2 {
        '2'
    } else if d == 3 {
        '3'
    } else if d == 4 {
        '4'
    } else if d == 5 {
        '5'
    } else if d == 6 {
        '6'
    } else if d == 7 {
        '7'
    } else if d == 8 {
        '8'
    } else {
        '9'
    }
}

fn digit(d: u64) -> (c: char)
    requires
        d < 10,
    ensures
        c == digit_char(d as nat),
{
    if d == 0 {
        '0'
    } else if d == 1 {
        '1'
    } else if d == 2 {
        '2'
    } else if d == 3 {
        '3'
    } else if d == 4 {
        '4'
    } else if d == 5 {
        '5'
    } else if d == 6 {
        '6'
    } else if d == 7 {
        '7'
    } else if d == 8 {
        '8'
    } else {
        '9'
    }
}

/// The decimal representation of `n`.
pub fn decimal_string(n: u64) -> (out: String)
    ensures
        out@ == decimal(n as nat),
    decreases n,
{
    if n < 10 {
        let mut out = String::new();
        push_char(&mut out, digit(n));
        assert(out@ =~= decimal(n as nat));
        out
    } else {
        let mut out = decimal_string(n / 10);
        push_char(&mut out, digit(n % 10));
        out
    }
}

/// The header form of a version: the string itself, or the number's
/// decimal digits.
pub open spec fn version_header(v: AssetVersion) -> Seq<char> {
    match v {
        AssetVersion::String(s) => s@,
        AssetVersion::Number(n) => decimal(n as nat),
    }
}

impl AssetVersion {
    /// A string version.
    pub fn from_string(value: String) -> (r: Self)
        ensures
            r == AssetVersion::String(value),
    {
        AssetVersion::String(value)
    }

    /// A numeric version.
    pub fn from_number(value: u64) -> (r: Self)
        ensures
            r == AssetVersion::Number(value),
    {
        AssetVersion::Number(value)
    }

    /// The value sent in the `X-Inertia-Version` header.
    pub fn header_value(&self) -> (r: String)
        ensures
            r@ == version_header(*self),
    {
        match self {
            AssetVersion::String(s) => s.clone(),
            AssetVersion::Number(n) => decimal_string(*n),
        }
    }
}

/// Request information available while rendering asset tags.
#[derive(Clone, Copy, Debug)]
pub struct AssetContext<'a> {
    nonce: Option<&'a str>,
}

impl<'a> AssetContext<'a> {
    /// The nonce this context carries.
    pub closed spec fn nonce_view(&self) -> Option<Seq<char>> {
        match self.nonce {
            Some(n) => Some(n@),
            None => None,
        }
    }

    /// A context with an optional CSP nonce.
    pub fn new(nonce: Option<&'a str>) -> (r: Self)
        ensures
            r.nonce_view() == match nonce {
                Some(n) => Some(n@),
                None => None,
            },
    {
        AssetContext { nonce }
    }

    /// The optional CSP nonce.
    pub fn nonce(&self) -> (r: Option<&str>)
        ensures
            match r {
                Some(n) => self.nonce_view() == Some(n@),
                None => self.nonce_view() is None,
            },
    {
        self.nonce
    }
}

impl<'a> Default for AssetContext<'a> {
    fn default() -> (r: Self)
        ensures
            r.nonce_view() is None,
    {
        AssetContext { nonce: None }
    }
}

/// An actionable application configuration failure.
#[derive(Debug)]
pub struct ConfigError {
    message: String,
}

impl ConfigError {
    /// A failure described by `message`.
    pub fn new(message: String) -> (r: Self)
        ensures
            r.message_view() == message@,
    {
        ConfigError { message }
    }

    /// The description.
    pub closed spec fn message_view(&self) -> Seq<char> {
        self.message@
    }

    /// The description.
    pub fn message(&self) -> (r: &str)
        ensures
            r@ == self.message_view(),
    {
        self.message.as_str()
    }
}

/// The escape of one character inside an HTML attribute value.
pub open spec fn attr_char(c: char) -> Seq<char> {
    if c == '&' {
        seq!['&', 'a', 'm', 'p', ';']
    } else if c == '"' {
        seq!['&', 'q', 'u', 'o', 't', ';']
    } else if c == '<' {
        seq!['&', 'l', 't', ';']
    } else if c == '>' {
        seq!['&', 'g', 't', ';']
    } else {
        seq![c]
    }
}

/// `s` escaped for an HTML attribute value: `&`, `"`, `<`, and `>` become
/// character references.
pub open spec fn attr_escaped(s: Seq<char>) -> Seq<char>
    decreases s.len(),
{
    if s.len() == 0 {
        Seq::empty()
    } else {
        attr_escaped(s.drop_last()) + attr_char(s.last())
    }
}

fn push_attr_char(out: &mut String, c: char)
    ensures
        final(out)@ == old(out)@ + attr_char(c),
{
    let ghost before = out@;
    if c == '&' {
        push_str(out, "&amp;");
        proof {
            reveal_strlit("&amp;");
        }
    } else if c == '"' {
        push_str(out, "&quot;");
        proof {
            reveal_strlit("&quot;");
        }
    } else if c == '<' {
        push_str(out, "&lt;");
        proof {
            reveal_strlit("&lt;");
        }
    } else if c == '>' {
        push_str(out, "&gt;");
        proof {
            reveal_strlit("&gt;");
        }
    } else {
        push_char(out, c);
    }
    assert(out@ =~= before + attr_char(c));
}

/// Escapes `value` for an HTML attribute.
pub fn escape_attribute(value: &str) -> (out: String)
    ensures
        out@ == attr_escaped(value@),
{
    let c = crate::text::chars_of(value);
    let mut out = String::new();
    let mut i: usize = 0;
    while i < c.len()
        invariant
            0 <= i <= c.len(),
            c@ == value@,
            out@ == attr_escaped(c@.take(i as int)),
        decreases c.len() - i,
    {
        assert(c@.take(i + 1).drop_last() =~= c@.take(i as int));
        push_attr_char(&mut out, c[i]);
        i = i + 1;
    }
    assert(c@.take(c.len() as int) =~= c@);
    out
}

/// The lower-case hexadecimal digit for `d < 16`.
pub open spec fn hex_digit(d: nat, upper: bool) -> char {
    if d < 10 {
        digit_char(d)
    } else if upper {
        if d == 10 {
            'A'
        } else if d == 11 {
            'B'
        } else if d == 12 {
            'C'
        } else if d == 13 {
            'D'
        } else if d == 14 {
            'E'
        } else {
            'F'
        }
    } else {
        if d == 10 {
            'a'
        } else if d == 11 {
            'b'
        } else if d == 12 {
            'c'
        } else if d == 13 {
            'd'
        } else if d == 14 {
            'e'
        } else {
            'f'
        }
    }
}

fn hex_char(d: u8, upper: bool) -> (c: char)
    requires
        d < 16,
    ensures
        c == hex_digit(d as nat, upper),
{
    if d < 10 {
        digit(d as u64)
    } else if upper {
        if d == 10 {
            'A'
        } else if d == 11 {
            'B'
        } else if d == 12 {
            'C'
        } else if d == 13 {
            'D'
        } else if d == 14 {
            'E'
        } else {
            'F'
        }
    } else {
        if d == 10 {
            'a'
        } else if d == 11 {
            'b'
        } else if d == 12 {
            'c'
        } else if d == 13 {
            'd'
        } else if d == 14 {
            'e'
        } else {
            'f'
        }
    }
}

/// Two hexadecimal digits for byte `b`.
pub open spec fn hex_byte(b: u8, upper: bool) -> Seq<char> {
    seq![hex_digit((b / 16) as nat, upper), hex_digit((b % 16) as nat, upper)]
}

/// The lower-case hexadecimal form of `bytes`.
pub open spec fn hex(bytes: Seq<u8>) -> Seq<char>
    decreases bytes.len(),
{
    if bytes.len() == 0 {
        Seq::empty()
    } else {
        hex(bytes.drop_last()) + hex_byte(bytes.last(), false)
    }
}

/// Writes the lower-case hexadecimal form of `bytes`.
pub fn hex_string(bytes: &[u8]) -> (out: String)
    ensures
        out@ == hex(bytes@),
{
    let mut out = String::new();
    let mut i: usize = 0;
    while i < bytes.len()
        invariant
            0 <= i <= bytes@.len(),
            out@ == hex(bytes@.take(i as int)),
        decreases bytes@.len() - i,
    {
        let b = bytes[i];
        assert(bytes@.take(i + 1).drop_last() =~= bytes@.take(i as int));
        let ghost before = out@;
        push_char(&mut out, hex_char(b / 16, false));
        push_char(&mut out, hex_char(b % 16, false));
        assert(out@ =~= before + hex_byte(b, false));
        i = i + 1;
    }
    assert(bytes@.take(bytes@.len() as int) =~= bytes@);
    out
}

/// A quoted hexadecimal entity tag for a digest: `"<hex>"`.
pub open spec fn quoted_hex(hash: Seq<u8>) -> Seq<char> {
    seq!['"'] + hex(hash) + seq!['"']
}

/// Formats a digest as a quoted hexadecimal entity tag.
pub fn format_etag(hash: &[u8]) -> (out: String)
    ensures
        out@ == quoted_hex(hash@),
{
    let mut out = String::new();
    push_char(&mut out, '"');
    let h = hex_string(hash);
    push_str(&mut out, h.as_str());
    push_char(&mut out, '"');
    assert(out@ =~= quoted_hex(hash@));
    out
}

/// The entity tag of a file's bytes: its quoted SHA-256 digest in hex.
pub fn content_etag(bytes: &[u8]) -> (out: String)
    ensures
        out@ == quoted_hex(sha256(bytes@)),
{
    let digest = sha256_digest(bytes);
    format_etag(digest.as_slice())
}

/// Whether an `If-None-Match` candidate names `etag`: `*`, or `etag` once
/// leading `W/` markers are removed.
pub open spec fn candidate_matches(candidate: Seq<char>, etag: Seq<char>) -> bool {
    candidate == seq!['*'] || strip_all_prefix(candidate, seq!['W', '/']) == etag
}

/// Whether some `If-None-Match` value lists a candidate matching `etag`.
/// Values that are not valid strings are `None` and list nothing.
pub open spec fn etag_listed(values: Seq<Option<String>>, etag: Seq<char>) -> bool {
    exists|i: int, j: int|
        0 <= i < values.len() && values[i] is Some && 0 <= j < split_on(values[i]->0@, ',').len()
            && candidate_matches(trim(#[trigger] split_on(values[i]->0@, ',')[j]), etag)
}

/// Whether a request's `If-None-Match` values match `etag`.
pub fn etag_matches(values: &[Option<String>], etag: &str) -> (b: bool)
    ensures
        b == etag_listed(values@, etag@),
{
    let n = values.len();
    let mut i: usize = 0;
    while i < n
        invariant
            n == values@.len(),
            0 <= i <= n,
            forall|a: int, j: int|
                0 <= a < i && values@[a] is Some && 0 <= j < split_on(values@[a]->0@, ',').len()
                    ==> !candidate_matches(trim(#[trigger] split_on(values@[a]->0@, ',')[j]), etag@),
        decreases n - i,
    {
        match &values[i] {
            Some(v) => {
                let pieces = split_pieces_of(v.as_str(), ',');
                let pn = pieces.len();
                let mut j: usize = 0;
                while j < pn
                    invariant
                        pn == pieces@.len(),
                        n == values@.len(),
                        0 <= i < n,
                        values@[i as int] == Some(*v),
                        strs(pieces@) == split_on(v@, ','),
                        0 <= j <= pn,
                        forall|l: int| 0 <= l < j ==> !candidate_matches(trim(#[trigger] split_on(v@, ',')[l]), etag@),
                    decreases pn - j,
                {
                    assert(strs(pieces@)[j as int] == pieces@[j as int]@);
                    let candidate = crate::text::trimmed(pieces[j].as_str());
                    let star = crate::text::str_eq(candidate.as_str(), "*");
                    proof {
                        reveal_strlit("W/");
                    }
                    let stripped = crate::text::strip_all_prefix_of(candidate.as_str(), "W/");
                    proof {
                        reveal_strlit("*");
                        reveal_strlit("W/");
                        assert("*"@ =~= seq!['*']);
                        assert("W/"@ =~= seq!['W', '/']);
                    }
                    if star || crate::text::str_eq(stripped.as_str(), etag) {
                        assert(candidate_matches(trim(split_on(values@[i as int]->0@, ',')[j as int]), etag@));
                        return true;
                    }
                    j = j + 1;
                }
            },
            None => {},
        }
        i = i + 1;
    }
    false
}

/// Whether `c` is an ASCII letter or digit.
pub open spec fn ascii_alnum(c: char) -> bool {
    ('0' <= c && c <= '9') || ('a' <= c && c <= 'z') || ('A' <= c && c <= 'Z')
}

/// Whether `c` separates the segments of a file stem: `.`, `-`, or `_`.
pub open spec fn stem_mark(c: char) -> bool {
    c == '.' || c == '-' || c == '_'
}

/// The pieces of `s` between stem marks.
pub open spec fn stem_segments(s: Seq<char>) -> Seq<Seq<char>>
    decreases s.len(),
{
    if s.len() == 0 {
        seq![Seq::<char>::empty()]
    } else {
        let rest = stem_segments(s.drop_last());
        if stem_mark(s.last()) {
            rest.push(Seq::<char>::empty())
        } else {
            rest.update(rest.len() - 1, rest.last().push(s.last()))
        }
    }
}

/// The part of a file name before its last `.`, or the whole name.
pub open spec fn file_stem(f: Seq<char>) -> Seq<char> {
    if f.contains('.') {
        f.subrange(0, last_index_of(f, '.'))
    } else {
        f
    }
}

/// The position of the last `c` in `s` (meaningful when `s` holds one).
pub open spec fn last_index_of(s: Seq<char>, c: char) -> int {
    choose|i: int| 0 <= i < s.len() && s[i] == c && forall|j: int| i < j < s.len() ==> s[j] != c
}

/// Whether a segment looks like a content hash: at least eight ASCII
/// letters or digits.
pub open spec fn hash_like(seg: Seq<char>) -> bool {
    seg.len() >= 8 && forall|i: int| 0 <= i < seg.len() ==> ascii_alnum(#[trigger] seg[i])
}

/// Whether a path's file name carries a content hash: after its extension
/// is removed, some segment after the first (segments being separated by
/// `.`, `-`, or `_`) is hash-like.
pub open spec fn content_addressed(path: Seq<char>) -> bool {
    let file = split_on(path, '/').last();
    let segs = stem_segments(file_stem(file));
    exists|k: int| 1 <= k < segs.len() && hash_like(#[trigger] segs[k])
}

proof fn lemma_stem_segments_nonempty(s: Seq<char>)
    ensures
        stem_segments(s).len() >= 1,
    decreases s.len(),
{
    if s.len() > 0 {
        lemma_stem_segments_nonempty(s.drop_last());
    }
}

/// The segments of `c` between stem marks.
fn stem_segments_of(c: &Vec<char>) -> (out: Vec<Vec<char>>)
    ensures
        out@.map_values(|v: Vec<char>| v@) == stem_segments(c@),
{
    let n = c.len();
    let mut out: Vec<Vec<char>> = Vec::new();
    let mut cur: Vec<char> = Vec::new();
    let mut i: usize = 0;
    assert(c@.take(0) =~= Seq::<char>::empty());
    assert(out@.map_values(|v: Vec<char>| v@).push(cur@) =~= stem_segments(c@.take(0)));
    while i < n
        invariant
            n == c.len(),
            0 <= i <= n,
            out@.map_values(|v: Vec<char>| v@).push(cur@) == stem_segments(c@.take(i as int)),
        decreases n - i,
    {
        let ghost prev = c@.take(i as int);
        assert(c@.take(i + 1).drop_last() =~= prev);
        proof {
            lemma_stem_segments_nonempty(prev);
        }
        let ch = c[i];
        if ch == '.' || ch == '-' || ch == '_' {
            let ghost o = out@;
            let done = cur;
            out.push(done);
            cur = Vec::new();
            assert(out@.map_values(|v: Vec<char>| v@) =~= o.map_values(|v: Vec<char>| v@).push(done@));
            assert(out@.map_values(|v: Vec<char>| v@).push(cur@) =~= stem_segments(c@.take(i + 1)));
        } else {
            let ghost before = cur@;
            cur.push(ch);
            assert(out@.map_values(|v: Vec<char>| v@).push(cur@) =~= stem_segments(c@.take(i + 1)));
        }
        i = i + 1;
    }
    let ghost o = out@;
    out.push(cur);
    assert(c@.take(n as int) =~= c@);
    assert(out@.map_values(|v: Vec<char>| v@) =~= o.map_values(|v: Vec<char>| v@).push(out@.last()@));
    out
}

fn is_hash_like(seg: &Vec<char>) -> (b: bool)
    ensures
        b == hash_like(seg@),
{
    if seg.len() < 8 {
        return false;
    }
    let mut i: usize = 0;
    while i < seg.len()
        invariant
            0 <= i <= seg.len(),
            forall|j: int| 0 <= j < i ==> ascii_alnum(#[trigger] seg@[j]),
        decreases seg.len() - i,
    {
        let ch = seg[i];
        if !(('0' <= ch && ch <= '9') || ('a' <= ch && ch <= 'z') || ('A' <= ch && ch <= 'Z')) {
            return false;
        }
        i = i + 1;
    }
    true
}

/// Whether a path's file name carries a content hash (see
/// `content_addressed`); such files are served with an immutable cache
/// policy.
pub fn is_content_addressed(path: &str) -> (b: bool)
    ensures
        b == content_addressed(path@),
{
    let pieces = split_pieces_of(path, '/');
    proof {
        crate::text::lemma_split_on_nonempty(path@, '/');
    }
    let last = pieces.len() - 1;
    assert(strs(pieces@)[last as int] == pieces@[last as int]@);
    let file = crate::text::chars_of(pieces[last].as_str());
    let ghost f = file@;
    assert(f == split_on(path@, '/').last());
    let mut end = file.len();
    let mut found = false;
    let mut i = file.len();
    while i > 0 && !found
        invariant
            0 <= i <= file.len(),
            f == file@,
            found ==> end < f.len() && f[end as int] == '.' && forall|j: int| end < j < f.len() ==> f[j] != '.',
            !found ==> end == f.len() && forall|j: int| i <= j < f.len() ==> f[j] != '.',
        decreases i,
    {
        if file[i - 1] == '.' {
            found = true;
            end = i - 1;
        }
        i = i - 1;
    }
    proof {
        if found {
            assert(f.contains('.'));
            let li = last_index_of(f, '.');
            assert(f[end as int] == '.' && forall|j: int| end < j < f.len() ==> f[j] != '.');
            assert(li == end) by {
                if li < end {
                    assert(f[end as int] != '.');
                }
                if li > end {
                    assert(f[li] != '.');
                }
            }
        } else {
            assert(!f.contains('.')) by {
                if f.contains('.') {
                    let j = choose|j: int| 0 <= j < f.len() && f[j] == '.';
                }
            }
        }
    }
    let stem = crate::text::string_from(&file, 0, end);
    let stem_chars = crate::text::chars_of(stem.as_str());
    assert(stem_chars@ == file_stem(f)) by {
        if !found {
            assert(f.subrange(0, f.len() as int) =~= f);
        }
    }
    let segs = stem_segments_of(&stem_chars);
    let ghost sv = segs@.map_values(|v: Vec<char>| v@);
    let mut k: usize = 1;
    while k < segs.len()
        invariant
            sv == segs@.map_values(|v: Vec<char>| v@),
            sv == stem_segments(file_stem(f)),
            f == split_on(path@, '/').last(),
            1 <= k <= segs@.len() || segs@.len() == 0,
            forall|j: int| 1 <= j < k && j < sv.len() ==> !hash_like(#[trigger] sv[j]),
        decreases segs.len() - k,
    {
        assert(sv[k as int] == segs@[k as int]@);
        if is_hash_like(&segs[k]) {
            assert(hash_like(stem_segments(file_stem(split_on(path@, '/').last()))[k as int]));
            return true;
        }
        k = k + 1;
    }
    false
}

/// The response `Cache-Control` for content-addressed files:
/// `public, max-age=31536000, immutable`.
pub open spec fn immutable_cache() -> Seq<char> {
    "public, max-age=31536000, immutable"@
}

/// `public, max-age=31536000, immutable`.
pub fn immutable_cache_control() -> (s: &'static str)
    ensures
        s@ == immutable_cache(),
{
    "public, max-age=31536000, immutable"
}

/// Whether a byte is left as is in an encoded URL path: an ASCII letter or
/// digit, or one of `/ - _ . ~`.
pub open spec fn url_safe(b: u8) -> bool {
    (48 <= b <= 57) || (65 <= b <= 90) || (97 <= b <= 122) || b == 47 || b == 45 || b == 95 || b == 46
        || b == 126
}

/// One byte of an encoded URL path: itself, or `%XX` in upper-case hex.
pub open spec fn url_byte(b: u8) -> Seq<char> {
    if url_safe(b) {
        seq![b as char]
    } else {
        seq!['%'] + hex_byte(b, true)
    }
}

/// The percent-encoding of a path's bytes.
pub open spec fn url_encoded(bytes: Seq<u8>) -> Seq<char>
    decreases bytes.len(),
{
    if bytes.len() == 0 {
        Seq::empty()
    } else {
        url_encoded(bytes.drop_last()) + url_byte(bytes.last())
    }
}

/// Percent-encodes the UTF-8 bytes of `path`, keeping ASCII letters and
/// digits and `/ - _ . ~`.
pub fn encode_url_path(path: &str) -> (out: String)
    ensures
        out@ == url_encoded(path.spec_bytes()),
{
    let bytes = path.as_bytes();
    let mut out = String::new();
    let mut i: usize = 0;
    while i < bytes.len()
        invariant
            0 <= i <= bytes@.len(),
            bytes@ == path.spec_bytes(),
            out@ == url_encoded(bytes@.take(i as int)),
        decreases bytes@.len() - i,
    {
        let b = bytes[i];
        assert(bytes@.take(i + 1).drop_last() =~= bytes@.take(i as int));
        let ghost before = out@;
        let safe = (48 <= b && b <= 57) || (65 <= b && b <= 90) || (97 <= b && b <= 122) || b == 47 || b
            == 45 || b == 95 || b == 46 || b == 126;
        if safe {
            push_char(&mut out, b as char);
        } else {
            push_char(&mut out, '%');
            push_char(&mut out, hex_char(b / 16, true));
            push_char(&mut out, hex_char(b % 16, true));
        }
        assert(out@ =~= before + url_byte(b));
        i = i + 1;
    }
    assert(bytes@.take(bytes@.len() as int) =~= bytes@);
    out
}

/// A response header an asset source sets.
#[derive(Clone, Copy, Debug, PartialEq, Eq, Structural)]
pub enum AssetHeader {
    AcceptRanges,
    Allow,
    CacheControl,
    ContentEncoding,
    ContentLength,
    ContentType,
    ETag,
    Vary,
}

/// The body of an asset response.
#[derive(Debug)]
pub enum AssetBody {
    /// No body.
    Empty,
    /// Bytes compiled into the executable.
    Static(&'static [u8]),
    /// Owned bytes.
    Bytes(Vec<u8>),
}

/// A response of an asset source.
#[derive(Debug)]
pub struct AssetResponse {
    /// The status code.
    pub status: u16,
    /// The headers, in the order they were set.
    pub headers: Vec<(AssetHeader, String)>,
    /// The body.
    pub body: AssetBody,
}

/// The abstract content of an [`AssetBody`].
pub enum AssetBodyView {
    Empty,
    Static(Seq<u8>),
    Bytes(Seq<u8>),
}

/// The abstract content of an [`AssetResponse`].
pub struct AssetResponseView {
    pub status: u16,
    pub headers: Seq<(AssetHeader, Seq<char>)>,
    pub body: AssetBodyView,
}

/// The views of header pairs.
pub open spec fn header_views(v: Seq<(AssetHeader, String)>) -> Seq<(AssetHeader, Seq<char>)> {
    v.map_values(|h: (AssetHeader, String)| (h.0, h.1@))
}

impl View for AssetResponse {
    type V = AssetResponseView;

    open spec fn view(&self) -> AssetResponseView {
        AssetResponseView {
            status: self.status,
            headers: header_views(self.headers@),
            body: match self.body {
                AssetBody::Empty => AssetBodyView::Empty,
                AssetBody::Static(b) => AssetBodyView::Static(b@),
                AssetBody::Bytes(b) => AssetBodyView::Bytes(b@),
            },
        }
    }
}

/// `GET, HEAD`.
pub open spec fn get_head() -> Seq<char> {
    "GET, HEAD"@
}

/// The answer to a method other than GET or HEAD: 405 with `Allow: GET,
/// HEAD` and no body.
pub open spec fn method_not_allowed_view() -> AssetResponseView {
    AssetResponseView {
        status: 405,
        headers: seq![(AssetHeader::Allow, get_head())],
        body: AssetBodyView::Empty,
    }
}

/// The answer to a method other than GET or HEAD.
pub fn method_not_allowed() -> (r: AssetResponse)
    ensures
        r@ == method_not_allowed_view(),
{
    let mut headers: Vec<(AssetHeader, String)> = Vec::new();
    headers.push((AssetHeader::Allow, "GET, HEAD".to_owned()));
    let r = AssetResponse { status: 405, headers, body: AssetBody::Empty };
    assert(r@.headers =~= seq![(AssetHeader::Allow, get_head())]);
    r
}

/// Appends a header.
pub fn push_header(headers: &mut Vec<(AssetHeader, String)>, name: AssetHeader, value: String)
    ensures
        header_views(final(headers)@) == header_views(old(headers)@).push((name, value@)),
{
    let ghost before = headers@;
    headers.push((name, value));
    assert(header_views(headers@) =~= header_views(before).push((name, value@)));
}

/// `If-None-Match: *` matches every entity tag.
pub proof fn law_wildcard_matches_any(etag: Seq<char>)
    ensures
        candidate_matches(seq!['*'], etag),
{
}

/// A weak validator `W/<etag>` matches the strong tag `<etag>` (entity
/// tags are compared weakly); tags never start with `W/` themselves.
pub proof fn law_weak_candidate_matches(etag: Seq<char>)
    requires
        !crate::text::has_prefix(etag, seq!['W', '/']),
    ensures
        candidate_matches(seq!['W', '/'] + etag, etag),
{
    let w = seq!['W', '/'];
    let c = w + etag;
    assert(c.subrange(0, 2) =~= w);
    assert(c.subrange(2, c.len() as int) =~= etag);
    assert(crate::text::strip_all_prefix(etag, w) == etag);
}

} // verus!
