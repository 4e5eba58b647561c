//! Encrypted, authenticated cookie transport for transient state.
//!
//! The state itself travels as a JSON payload; this module derives the key,
//! finds and opens the transient cookie of a request, and seals the payload
//! of a response.  Encryption is the `cookie` crate's private jar.

use crate::text::{owned, push_str, split_on, strs, trim};
use crate::transient::{StoredTransient, TransientData};
use sha2::Digest;
use vstd::prelude::*;

verus! {

broadcast use vstd::string::group_string_axioms;

/// The SHA-512 digest of `data`.
pub uninterp spec fn sha512(data: Seq<u8>) -> Seq<u8>;

/// Calls `sha2::Sha512::digest`: the result is the SHA-512 digest of `data`,
/// which is 64 bytes long.
#[verifier::external_body]
fn sha512_digest(data: &[u8]) -> (r: Vec<u8>)
    ensures
        r@ == sha512(data@),
        r@.len() == 64,
{
    sha2::Sha512::digest(data).to_vec()
}

/// Whether `i` is the position of the first `=` in `kv`.
pub open spec fn first_equals_at(kv: Seq<char>, i: int) -> bool {
    &&& 0 <= i < kv.len()
    &&& kv[i] == '='
    &&& forall|j: int| 0 <= j < i ==> kv[j] != '='
}

/// The name and value of a cookie as `Cookie::parse` reads them from
/// `text`: in the part before the first `;`, the text before the first `=`
/// and the text after it, both trimmed; nothing when there is no `=` or the
/// name is empty.
pub open spec fn cookie_pair(text: Seq<char>) -> Option<(Seq<char>, Seq<char>)> {
    let kv = split_on(text, ';')[0];
    if exists|i: int| first_equals_at(kv, i) {
        let i = choose|i: int| first_equals_at(kv, i);
        let name = trim(kv.take(i));
        if name.len() == 0 {
            None
        } else {
            Some((name, trim(kv.skip(i + 1))))
        }
    } else {
        None
    }
}

/// Calls `cookie::Cookie::parse` on `text` and takes the name and value of
/// what it parsed.  The source (`parse_inner` without decoding) reads them
/// as `cookie_pair` states, fails with `MissingPair` or `EmptyName` exactly
/// when that gives nothing, and reads the attributes after the first `;`
/// only into other fields.
#[verifier::external_body]
fn parse_cookie_pair(text: &str) -> (r: Option<(String, String)>)
    ensures
        match r {
            Some((n, v)) => cookie_pair(text@) == Some((n@, v@)),
            None => cookie_pair(text@) is None,
        },
{
    match cookie::Cookie::parse(text.to_owned()) {
        Ok(parsed) => Some((parsed.name().to_owned(), parsed.value().to_owned())),
        Err(_) => None,
    }
}

/// What a private jar under the 64-byte key material `key` decrypts from
/// the value `value` of a cookie named `name`, if it authenticates.  It is
/// a function of the three: AES-256-GCM with the value's nonce and the name
/// as associated data.
pub uninterp spec fn private_open(key: Seq<u8>, name: Seq<char>, value: Seq<char>) -> Option<Seq<char>>;

/// Calls `PrivateJar::decrypt` on `Cookie::new(name, value)`, in a private
/// jar under `Key::from(key)`, and takes the decrypted value: the result
/// is `private_open(key, name, value)`.  `Key::from` panics on fewer than
/// 64 bytes, which the `requires` rules out.
#[verifier::external_body]
fn private_open_value(key: &[u8], name: &str, value: &str) -> (r: Option<String>)
    requires
        key@.len() >= 64,
    ensures
        crate::request::context::opt_view(r) == private_open(key@, name@, value@),
{
    let key = cookie::Key::from(key);
    let jar = cookie::CookieJar::new();
    let cookie = cookie::Cookie::new(name.to_owned(), value.to_owned());
    jar.private(&key).decrypt(cookie).map(|opened| opened.value().to_owned())
}

/// A cookie's `SameSite` attribute.
#[derive(Clone, Copy, Debug, PartialEq, Eq, Structural)]
pub enum SameSiteMode {
    /// `SameSite=Strict`.
    Strict,
    /// `SameSite=Lax`.
    Lax,
    /// `SameSite=None`.
    Unrestricted,
}

/// How a `SameSite` attribute's value is written.
pub open spec fn same_site_text(mode: SameSiteMode) -> Seq<char> {
    match mode {
        SameSiteMode::Strict => "Strict"@,
        SameSiteMode::Lax => "Lax"@,
        SameSiteMode::Unrestricted => "None"@,
    }
}

/// Whether `c` belongs to the standard Base64 alphabet or is padding.
pub open spec fn base64_char(c: char) -> bool {
    ('A' <= c && c <= 'Z') || ('a' <= c && c <= 'z') || ('0' <= c && c <= '9') || c == '+' || c == '/' || c == '='
}

/// Whether `enc` is the padded standard Base64 text of a nonce (12 bytes),
/// the encrypted UTF-8 bytes of `value`, and a tag (16 bytes): Base64
/// characters only, four for every started three bytes.
pub open spec fn sealed_value(enc: Seq<char>, value: Seq<char>) -> bool {
    &&& enc.len() == 4 * ((vstd::utf8::encode_utf8(value).len() + 30) / 3)
    &&& forall|i: int| 0 <= i < enc.len() ==> base64_char(#[trigger] enc[i])
}

/// Whether `s` is how a `SameSite` attribute is written.
pub open spec fn same_site_word(s: Seq<char>) -> bool {
    s == "Strict"@ || s == "Lax"@ || s == "None"@
}

/// A `Set-Cookie` value as `Cookie`'s `Display` writes it for a cookie with
/// a name, a value, `HttpOnly` and `Secure` flags, a `SameSite` attribute
/// and a path, and nothing else.
pub open spec fn set_cookie_text(
    name: Seq<char>,
    value: Seq<char>,
    http_only: bool,
    same_site: Seq<char>,
    secure: bool,
    path: Seq<char>,
) -> Seq<char> {
    name + "="@ + value + (if http_only {
        "; HttpOnly"@
    } else {
        Seq::empty()
    }) + "; SameSite="@ + same_site + (if secure {
        "; Secure"@
    } else {
        Seq::empty()
    }) + "; Path="@ + path
}

/// Whether `text` is the `Set-Cookie` value of a cookie `name` holding
/// `value` sealed under `key` (so that it opens to `value` again), with the
/// given flags, `SameSite` attribute and `path`.
pub open spec fn sealed_set_cookie(
    text: Seq<char>,
    key: Seq<u8>,
    name: Seq<char>,
    value: Seq<char>,
    http_only: bool,
    same_site: SameSiteMode,
    secure: bool,
    path: Seq<char>,
) -> bool {
    exists|enc: Seq<char>|
        sealed_value(enc, value) && private_open(key, name, enc) == Some(value) && text == set_cookie_text(
            name,
            enc,
            http_only,
            same_site_text(same_site),
            secure,
            path,
        )
}

/// Builds the cookie `name=value` with `Cookie::build(..).path(path)
/// .http_only(http_only).secure(secure).same_site(same_site)`, adds it
/// encrypted under `Key::from(key)` to an empty jar with `PrivateJar::add`,
/// and renders the jar's first delta cookie with `to_string`.  The source
/// shows: the jar's delta then holds exactly that cookie; `add` replaces
/// the value by the padded standard Base64 of a random 12-byte nonce, the
/// encrypted value bytes and a 16-byte tag; and `Display` writes
/// `name=value`, then `; HttpOnly` when set, `; SameSite=` and the
/// attribute (`Strict`, `Lax` or `None`), `; Secure` when set, and
/// `; Path=` and the path.  `PrivateJar::decrypt` documents that a value
/// sealed by a private jar always authenticates and decrypts under the same
/// key, and `add` seals with the cookie's name as associated data, so the
/// sealed value opens to `value` under `key` and `name`.  `same_site` is
/// converted variant for variant to `cookie::SameSite`, whose `Display`
/// writes `Strict`, `Lax` or `None`.  Which nonce, and so which Base64
/// text, is not stated: it is random.  `Key::from` panics on fewer than 64
/// bytes, which the `requires` rules out.
#[verifier::external_body]
fn sealed_cookie(
    key: &[u8],
    name: &str,
    value: &str,
    path: &str,
    http_only: bool,
    secure: bool,
    same_site: SameSiteMode,
) -> (r: Option<String>)
    requires
        key@.len() >= 64,
    ensures
        r is Some,
        match r {
            Some(t) => sealed_set_cookie(t@, key@, name@, value@, http_only, same_site, secure, path@),
            None => false,
        },
{
    let same_site = match same_site {
        SameSiteMode::Strict => cookie::SameSite::Strict,
        SameSiteMode::Lax => cookie::SameSite::Lax,
        SameSiteMode::Unrestricted => cookie::SameSite::None,
    };
    let key = cookie::Key::from(key);
    let mut jar = cookie::CookieJar::new();
    let built = cookie::Cookie::build((name.to_owned(), value.to_owned())).path(path.to_owned()).http_only(
        http_only,
    ).secure(secure).same_site(same_site).build();
    jar.private_mut(&key).add(built);
    jar.delta().next().map(|delta| delta.to_string())
}

/// Whether `http::HeaderValue::from_str` accepts `s`: every byte is a tab
/// or at least 32 and not 127.
pub open spec fn header_value_ok(s: Seq<char>) -> bool {
    forall|i: int| 0 <= i < s.len() ==> (s[i] == '\t' || (' ' <= #[trigger] s[i] && s[i] != '\x7f'))
}

/// Calls `http::HeaderValue::from_str`: `Ok` exactly when every byte of `s`
/// is a tab or at least 32 and not 127 (bytes of multi-byte characters are
/// all at least 128), else the error's text.
#[verifier::external_body]
pub(crate) fn check_header_value(s: &str) -> (r: Result<(), String>)
    ensures
        r is Ok <==> header_value_ok(s@),
{
    match http::HeaderValue::from_str(s) {
        Ok(_) => Ok(()),
        Err(error) => Err(error.to_string()),
    }
}

proof fn lemma_header_ok_concat(a: Seq<char>, b: Seq<char>)
    requires
        header_value_ok(a),
        header_value_ok(b),
    ensures
        header_value_ok(a + b),
{
    assert forall|i: int| 0 <= i < (a + b).len() implies ((a + b)[i] == '\t' || (' ' <= #[trigger] (a + b)[i]
        && (a + b)[i] != '\x7f')) by {
        if i < a.len() {
            assert((a + b)[i] == a[i]);
        } else {
            assert((a + b)[i] == b[i - a.len()]);
        }
    }
}

/// The transient cookie's `Set-Cookie` value is a valid header value: its
/// name, attributes and path are printable ASCII, and Base64 text is too.
proof fn lemma_transient_set_cookie_ok(enc: Seq<char>, value: Seq<char>, site: Seq<char>)
    requires
        sealed_value(enc, value),
        same_site_word(site),
    ensures
        header_value_ok(set_cookie_text(transient_cookie_name(), enc, true, site, true, "/"@)),
{
    reveal_strlit("__Host-inertia_transient");
    reveal_strlit("=");
    reveal_strlit("; HttpOnly");
    reveal_strlit("; SameSite=");
    reveal_strlit("Strict");
    reveal_strlit("Lax");
    reveal_strlit("None");
    reveal_strlit("; Secure");
    reveal_strlit("; Path=");
    reveal_strlit("/");
    assert(header_value_ok(transient_cookie_name()));
    assert(header_value_ok("="@));
    assert(header_value_ok(enc));
    assert(header_value_ok("; HttpOnly"@));
    assert(header_value_ok("; SameSite="@));
    assert(header_value_ok(site));
    assert(header_value_ok("; Secure"@));
    assert(header_value_ok("; Path="@));
    assert(header_value_ok("/"@));
    let n = transient_cookie_name();
    lemma_header_ok_concat(n, "="@);
    lemma_header_ok_concat(n + "="@, enc);
    lemma_header_ok_concat(n + "="@ + enc, "; HttpOnly"@);
    lemma_header_ok_concat(n + "="@ + enc + "; HttpOnly"@, "; SameSite="@);
    lemma_header_ok_concat(n + "="@ + enc + "; HttpOnly"@ + "; SameSite="@, site);
    lemma_header_ok_concat(n + "="@ + enc + "; HttpOnly"@ + "; SameSite="@ + site, "; Secure"@);
    lemma_header_ok_concat(n + "="@ + enc + "; HttpOnly"@ + "; SameSite="@ + site + "; Secure"@, "; Path="@);
    lemma_header_ok_concat(n + "="@ + enc + "; HttpOnly"@ + "; SameSite="@ + site + "; Secure"@ + "; Path="@, "/"@);
}

/// The name of the transient cookie, `__Host-inertia_transient`.
pub open spec fn transient_cookie_name() -> Seq<char> {
    "__Host-inertia_transient"@
}

/// Builds `__Host-inertia_transient`.
pub fn transient_cookie_name_string() -> (out: String)
    ensures
        out@ == transient_cookie_name(),
{
    "__Host-inertia_transient".to_owned()
}

/// The candidate cookies of a `Cookie` header: its `;`-separated pieces,
/// trimmed.
pub open spec fn cookie_candidates(header: Seq<char>) -> Seq<Seq<char>> {
    split_on(header, ';').map_values(|p: Seq<char>| trim(p))
}

/// Splits a `Cookie` header into trimmed candidate cookies.
pub fn cookie_pieces(header: &str) -> (out: Vec<String>)
    ensures
        strs(out@) == cookie_candidates(header@),
{
    let pieces = crate::text::split_pieces_of(header, ';');
    let n = pieces.len();
    let mut out: Vec<String> = Vec::new();
    let mut i: usize = 0;
    while i < n
        invariant
            n == pieces@.len(),
            strs(pieces@) == split_on(header@, ';'),
            0 <= i <= n,
            out@.len() == i,
            forall|j: int| 0 <= j < i ==> (#[trigger] out@[j])@ == trim(pieces@[j]@),
        decreases n - i,
    {
        assert(strs(pieces@)[i as int] == pieces@[i as int]@);
        out.push(crate::text::trimmed(pieces[i].as_str()));
        i = i + 1;
    }
    assert(strs(out@) =~= cookie_candidates(header@)) by {
        assert forall|j: int| 0 <= j < n implies strs(out@)[j] == cookie_candidates(header@)[j] by {
            assert(strs(pieces@)[j] == pieces@[j]@);
        }
    }
    out
}

/// The value of the last of `cookies` that parses to a cookie named `name`.
pub open spec fn last_value_named(cookies: Seq<Seq<char>>, name: Seq<char>) -> Option<Seq<char>>
    decreases cookies.len(),
{
    if cookies.len() == 0 {
        None
    } else {
        match cookie_pair(cookies.last()) {
            Some(p) => if p.0 == name {
                Some(p.1)
            } else {
                last_value_named(cookies.drop_last(), name)
            },
            None => last_value_named(cookies.drop_last(), name),
        }
    }
}

/// The sealed value of the transient cookie in a `Cookie` header: a jar
/// keeps one cookie per name, the one added last.
pub open spec fn transient_value(header: Seq<char>) -> Option<Seq<char>> {
    last_value_named(cookie_candidates(header), transient_cookie_name())
}

/// What a request's `Cookie` header gives under `key`: the transient
/// cookie's value, opened.
pub open spec fn opened_payload(key: Seq<u8>, header: Seq<char>) -> Option<Seq<char>> {
    match transient_value(header) {
        Some(v) => private_open(key, transient_cookie_name(), v),
        None => None,
    }
}

/// Finds the sealed value of the transient cookie in a `Cookie` header.
pub fn transient_cookie_value(header: &str) -> (r: Option<String>)
    ensures
        crate::request::context::opt_view(r) == transient_value(header@),
{
    let pieces = cookie_pieces(header);
    let name = transient_cookie_name_string();
    let ghost cands = cookie_candidates(header@);
    let n = pieces.len();
    let mut found: Option<String> = None;
    let mut i: usize = 0;
    while i < n
        invariant
            n == pieces@.len(),
            strs(pieces@) == cands,
            name@ == transient_cookie_name(),
            0 <= i <= n,
            crate::request::context::opt_view(found) == last_value_named(cands.take(i as int), name@),
        decreases n - i,
    {
        assert(strs(pieces@)[i as int] == pieces@[i as int]@);
        assert(cands.take(i + 1).drop_last() =~= cands.take(i as int));
        assert(cands.take(i + 1).last() == pieces@[i as int]@);
        match parse_cookie_pair(pieces[i].as_str()) {
            Some((n2, v)) => {
                if crate::text::str_eq(n2.as_str(), name.as_str()) {
                    found = Some(v);
                }
            },
            None => {},
        }
        i = i + 1;
    }
    assert(cands.take(n as int) =~= cands);
    found
}

/// Text holding no `sep` is one piece.
proof fn lemma_split_on_absent(s: Seq<char>, sep: char)
    requires
        forall|i: int| 0 <= i < s.len() ==> s[i] != sep,
    ensures
        split_on(s, sep) == seq![s],
    decreases s.len(),
{
    if s.len() == 0 {
        assert(s =~= Seq::<char>::empty());
    } else {
        lemma_split_on_absent(s.drop_last(), sep);
        assert(s.drop_last().push(s.last()) =~= s);
        assert(seq![s.drop_last()].update(0, s.drop_last().push(s.last())) =~= seq![s]);
    }
}

/// Text that starts and ends with a non-whitespace character is its own
/// trim.
proof fn lemma_trim_solid(s: Seq<char>)
    requires
        s.len() > 0,
        !crate::text::is_ws(s[0]),
        !crate::text::is_ws(s.last()),
    ensures
        trim(s) == s,
{
    assert(crate::text::trim_start(s) == s);
    assert(crate::text::trim_end(s) == s);
}

/// The first piece of a split is the text before the first separator.
proof fn lemma_split_head(s: Seq<char>, sep: char, i: int)
    requires
        0 <= i < s.len(),
        s[i] == sep,
        forall|j: int| 0 <= j < i ==> s[j] != sep,
    ensures
        split_on(s, sep).len() >= 2,
        split_on(s, sep)[0] == s.take(i),
    decreases s.len(),
{
    if s.len() == i + 1 {
        assert(s.drop_last() =~= s.take(i));
        lemma_split_on_absent(s.take(i), sep);
    } else {
        lemma_split_head(s.drop_last(), sep, i);
        assert(s.drop_last().take(i) =~= s.take(i));
    }
}

/// A cookie pair `name=enc` whose sealed value `enc` opens under `key` to
/// `payload` is, as a `Cookie` header, opened by the transient store to
/// `payload`.
proof fn lemma_pair_opens(key: Seq<u8>, payload: Seq<char>, enc: Seq<char>)
    requires
        sealed_value(enc, payload),
        private_open(key, transient_cookie_name(), enc) == Some(payload),
    ensures
        opened_payload(key, transient_cookie_name() + "="@ + enc) == Some(payload),
{
    reveal_strlit("__Host-inertia_transient");
    reveal_strlit("=");
    let name = transient_cookie_name();
    let h = name + "="@ + enc;
    assert(enc.len() >= 40) by (nonlinear_arith)
        requires
            enc.len() == 4 * ((vstd::utf8::encode_utf8(payload).len() + 30) / 3),
    ;
    assert forall|i: int| 0 <= i < h.len() implies h[i] != ';' by {
        if i >= name.len() + 1 {
            assert(h[i] == enc[i - name.len() - 1]);
            assert(base64_char(enc[i - name.len() - 1]));
        }
    }
    lemma_split_on_absent(h, ';');
    assert(base64_char(enc[0]));
    assert(base64_char(enc.last()));
    assert(h.last() == enc.last());
    lemma_trim_solid(h);
    assert(cookie_candidates(h) =~= seq![h]);
    let kv = split_on(h, ';')[0];
    assert(kv == h);
    assert(first_equals_at(kv, name.len() as int));
    let i = choose|i: int| first_equals_at(kv, i);
    assert(i == name.len()) by {
        if i < name.len() {
            assert(kv[i] == name[i]);
        } else if i > name.len() {
            assert(kv[name.len() as int] == '=');
        }
    }
    assert(kv.take(i) =~= name);
    assert(kv.skip(i + 1) =~= enc);
    lemma_trim_solid(name);
    lemma_trim_solid(enc);
    assert(cookie_pair(h) == Some((name, enc)));
    assert(seq![h].drop_last() =~= Seq::<Seq<char>>::empty());
    assert(last_value_named(seq![h], name) == Some(enc));
}

/// A payload sealed for the transient cookie opens again: when a request
/// sends back, as its `Cookie` header, the cookie pair (the text before the
/// first `;`) of a `Set-Cookie` value that
/// [`CookieTransient::seal_payload`] made under `key`, the store with that
/// key opens it to the same payload.
pub proof fn law_sealed_payload_opens(text: Seq<char>, key: Seq<u8>, payload: Seq<char>)
    requires
        sealed_set_cookie(text, key, transient_cookie_name(), payload, true, SameSiteMode::Lax, true, "/"@),
    ensures
        opened_payload(key, split_on(text, ';')[0]) == Some(payload),
{
    reveal_strlit("__Host-inertia_transient");
    reveal_strlit("=");
    reveal_strlit("; HttpOnly");
    let site = "Lax"@;
    let enc = choose|enc: Seq<char>|
        sealed_value(enc, payload) && private_open(key, transient_cookie_name(), enc) == Some(payload)
            && text == set_cookie_text(transient_cookie_name(), enc, true, site, true, "/"@);
    let name = transient_cookie_name();
    let h = name + "="@ + enc;
    let rest = "; HttpOnly"@ + "; SameSite="@ + site + "; Secure"@ + "; Path="@ + "/"@;
    assert(text =~= h + rest);
    assert forall|j: int| 0 <= j < h.len() implies text[j] != ';' by {
        assert(text[j] == h[j]);
        if j >= name.len() + 1 {
            assert(h[j] == enc[j - name.len() - 1]);
            assert(base64_char(enc[j - name.len() - 1]));
        }
    }
    assert(text[h.len() as int] == ';');
    lemma_split_head(text, ';', h.len() as int);
    assert(text.take(h.len() as int) =~= h);
    lemma_pair_opens(key, payload, enc);
}

/// Why the cookie transport failed.
#[derive(Debug)]
pub struct CookieTransientError {
    message: String,
}

impl CookieTransientError {
    /// The description.
    pub closed spec fn message_view(&self) -> Seq<char> {
        self.message@
    }

    /// The description.
    pub fn message(&self) -> (r: &str)
        ensures
            r@ == self.message_view(),
    {
        self.message.as_str()
    }

    /// A payload that decrypted but did not parse.
    pub fn invalid_payload(detail: &str) -> (r: Self)
        ensures
            r.message_view() == "invalid encrypted transient payload: "@ + detail@,
    {
        let mut message = "invalid encrypted transient payload: ".to_owned();
        push_str(&mut message, detail);
        CookieTransientError { message }
    }

    /// Outgoing state that could not be serialized.
    pub fn serialize_failed(detail: &str) -> (r: Self)
        ensures
            r.message_view() == "failed to serialize transient payload: "@ + detail@,
    {
        let mut message = "failed to serialize transient payload: ".to_owned();
        push_str(&mut message, detail);
        CookieTransientError { message }
    }
}

/// Encrypted, authenticated cookie transient storage.
#[derive(Clone, Debug)]
pub struct CookieTransient {
    key: Vec<u8>,
}

impl CookieTransient {
    /// The encryption key material.
    pub closed spec fn key_view(&self) -> Seq<u8> {
        self.key@
    }

    /// The store for a secret: its key material is the SHA-512 digest of
    /// the secret (supply at least 32 random bytes).
    pub fn encrypted(secret: &[u8]) -> (r: Self)
        ensures
            r.key_view() == sha512(secret@),
            r.key_view().len() == 64,
    {
        CookieTransient { key: sha512_digest(secret) }
    }

    /// The decrypted payload of the transient cookie among the cookies of a
    /// request's `Cookie` header: the last candidate cookie named like the
    /// transient cookie, opened under this store's key; nothing when there
    /// is no header, no such cookie, or it does not authenticate.
    pub fn open_payload(&self, cookie_header: Option<&str>) -> (r: Option<String>)
        requires
            self.key_view().len() == 64,
        ensures
            cookie_header is None ==> r is None,
            cookie_header matches Some(h) ==> crate::request::context::opt_view(r) == opened_payload(
                self.key_view(),
                h@,
            ),
    {
        match cookie_header {
            None => None,
            Some(header) => {
                let name = transient_cookie_name_string();
                match transient_cookie_value(header) {
                    None => None,
                    Some(value) => private_open_value(self.key.as_slice(), name.as_str(), value.as_str()),
                }
            },
        }
    }

    /// The state a request loads from its opened payload: nothing stored
    /// when there is no payload, the parsed state, or the parse failure.
    pub fn load_outcome<V>(parsed: Option<Result<StoredTransient<V>, String>>) -> (r: Result<
        TransientData<V>,
        CookieTransientError,
    >)
        ensures
            match parsed {
                None => r matches Ok(d) && d.incoming_spec().flash.as_map() == Map::<Seq<char>, V>::empty()
                    && d.incoming_spec().errors is None && d.incoming_spec().old_input is None
                    && d.scope_view() == "cookie"@,
                Some(Ok(s)) => r matches Ok(d) && d.incoming_spec() == s && d.scope_view() == "cookie"@,
                Some(Err(e)) => r matches Err(x) && x.message_view() == "invalid encrypted transient payload: "@
                    + e@,
            },
            r matches Ok(d) ==> d.outgoing_spec().flash.as_map() == Map::<Seq<char>, V>::empty()
                && d.outgoing_spec().errors is None && d.outgoing_spec().old_input is None,
    {
        match parsed {
            None => Ok(TransientData::loaded(StoredTransient::new(), "cookie")),
            Some(Ok(stored)) => Ok(TransientData::loaded(stored, "cookie")),
            Some(Err(e)) => Err(CookieTransientError::invalid_payload(e.as_str())),
        }
    }

    /// The `Set-Cookie` header value carrying `payload` encrypted: the
    /// transient cookie's name, `=`, the sealed payload in Base64, and the
    /// attributes `HttpOnly`, `SameSite=Lax`, `Secure` and `Path=/`.  Such a
    /// value is always a valid header value, so sealing never fails.
    pub fn seal_payload(&self, payload: &str) -> (r: Result<String, CookieTransientError>)
        requires
            self.key_view().len() == 64,
        ensures
            r matches Ok(v) && header_value_ok(v@) && sealed_set_cookie(
                v@,
                self.key_view(),
                transient_cookie_name(),
                payload@,
                true,
                SameSiteMode::Lax,
                true,
                "/"@,
            ),
    {
        let name = transient_cookie_name_string();
        match sealed_cookie(self.key.as_slice(), name.as_str(), payload, "/", true, true, SameSiteMode::Lax) {
            None => Err(CookieTransientError { message: "encrypted cookie jar produced no commit".to_owned() }),
            Some(text) => {
                proof {
                    let site = same_site_text(SameSiteMode::Lax);
                    let enc = choose|enc: Seq<char>|
                        sealed_value(enc, payload@) && private_open(self.key_view(), name@, enc) == Some(
                            payload@,
                        ) && text@ == set_cookie_text(name@, enc, true, site, true, "/"@);
                    reveal_strlit("Lax");
                    lemma_transient_set_cookie_ok(enc, payload@, site);
                }
                match check_header_value(text.as_str()) {
                Ok(()) => Ok(text),
                Err(detail) => {
                    let mut message = "invalid transient Set-Cookie header: ".to_owned();
                    push_str(&mut message, detail.as_str());
                    Err(CookieTransientError { message })
                },
                }
            },
        }
    }
}

} // verus!
