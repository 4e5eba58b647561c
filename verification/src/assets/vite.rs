//! Asset tags and deployment versions for Vite builds.

use super::manifest::{
    all_keys, chunk_css, chunk_files, chunk_order, closed_from, dangling, dedup, files_of, in_css_of, reached_from,
    render_tags, resolve_graph, tag_markup, ManifestEntry,
};
use super::{attr_escaped, escape_attribute, hex, hex_string, sha256, sha256_digest, ConfigError};
use crate::str_map::StrMap;
use crate::text::{distinct, push_char, push_str, strs};
use vstd::prelude::*;

verus! {

broadcast use vstd::string::group_string_axioms;

/// `s` without its trailing `c` characters.
pub open spec fn strip_trailing(s: Seq<char>, c: char) -> Seq<char>
    decreases s.len(),
{
    if s.len() > 0 && s.last() == c {
        strip_trailing(s.drop_last(), c)
    } else {
        s
    }
}

/// `s` without its leading `c` characters.
pub open spec fn strip_leading(s: Seq<char>, c: char) -> Seq<char>
    decreases s.len(),
{
    if s.len() > 0 && s[0] == c {
        strip_leading(s.drop_first(), c)
    } else {
        s
    }
}

/// Removes the trailing `c` characters of `s`.
pub fn strip_trailing_of(s: &str, c: char) -> (out: String)
    ensures
        out@ == strip_trailing(s@, c),
{
    let chars = crate::text::chars_of(s);
    let mut end = chars.len();
    assert(chars@.subrange(0, end as int) =~= s@);
    while end > 0 && chars[end - 1] == c
        invariant
            0 <= end <= chars.len(),
            chars@ == s@,
            strip_trailing(chars@.subrange(0, end as int), c) == strip_trailing(s@, c),
        decreases end,
    {
        assert(chars@.subrange(0, end as int).drop_last() =~= chars@.subrange(0, end - 1));
        end = end - 1;
    }
    proof {
        if end == chars.len() {
            assert(chars@.subrange(0, end as int) =~= s@);
        }
    }
    crate::text::string_from(&chars, 0, end)
}

/// Removes the leading `c` characters of `s`.
pub fn strip_leading_of(s: &str, c: char) -> (out: String)
    ensures
        out@ == strip_leading(s@, c),
{
    let chars = crate::text::chars_of(s);
    let mut start: usize = 0;
    assert(chars@.subrange(0, chars@.len() as int) =~= s@);
    while start < chars.len() && chars[start] == c
        invariant
            0 <= start <= chars.len(),
            chars@ == s@,
            strip_leading(chars@.subrange(start as int, chars@.len() as int), c) == strip_leading(s@, c),
        decreases chars.len() - start,
    {
        assert(chars@.subrange(start as int, chars@.len() as int).drop_first() =~= chars@.subrange(
            start + 1,
            chars@.len() as int,
        ));
        start = start + 1;
    }
    crate::text::string_from(&chars, start, chars.len())
}

/// Whether `p` can prefix asset URLs in markup: absolute, and free of `"`,
/// `<`, `>`, and `&`.
pub open spec fn prefix_ok(p: Seq<char>) -> bool {
    p.len() > 0 && p[0] == '/' && !p.contains('"') && !p.contains('<') && !p.contains('>') && !p.contains('&')
}

fn is_prefix_ok(p: &str) -> (b: bool)
    ensures
        b == prefix_ok(p@),
{
    let c = crate::text::chars_of(p);
    if c.len() == 0 || c[0] != '/' {
        return false;
    }
    let mut i: usize = 0;
    while i < c.len()
        invariant
            0 <= i <= c.len(),
            c@ == p@,
            forall|j: int| 0 <= j < i ==> c@[j] != '"' && c@[j] != '<' && c@[j] != '>' && c@[j] != '&',
        decreases c.len() - i,
    {
        let ch = c[i];
        if ch == '"' || ch == '<' || ch == '>' || ch == '&' {
            assert(p@[i as int] == ch);
            return false;
        }
        i = i + 1;
    }
    true
}

/// The bytes hashed into a Vite deployment version: each file, then each
/// stylesheet, as UTF-8 followed by a zero byte.
pub open spec fn version_input(paths: Seq<Seq<char>>) -> Seq<u8>
    decreases paths.len(),
{
    if paths.len() == 0 {
        Seq::empty()
    } else {
        version_input(paths.drop_last()) + vstd::utf8::encode_utf8(paths.last()) + seq![0u8]
    }
}

/// The deployment version of a build: the lower-case hexadecimal SHA-256
/// digest of its files and stylesheets.
pub fn deployment_version(files: &Vec<String>, css: &Vec<String>) -> (out: String)
    ensures
        out@ == hex(sha256(version_input(strs(files@) + strs(css@)))),
{
    let ghost all = strs(files@) + strs(css@);
    let mut data: Vec<u8> = Vec::new();
    let mut i: usize = 0;
    assert(all.take(0) =~= Seq::<Seq<char>>::empty());
    let mut joined: Vec<&String> = Vec::new();
    let mut a: usize = 0;
    while a < files.len()
        invariant
            0 <= a <= files@.len(),
            joined@.len() == a,
            forall|j: int| 0 <= j < a ==> *joined@[j] == files@[j],
        decreases files@.len() - a,
    {
        joined.push(&files[a]);
        a = a + 1;
    }
    let mut b: usize = 0;
    while b < css.len()
        invariant
            0 <= b <= css@.len(),
            joined@.len() == files@.len() + b,
            forall|j: int| 0 <= j < files@.len() ==> *joined@[j] == files@[j],
            forall|j: int| 0 <= j < b ==> *joined@[files@.len() + j] == css@[j],
        decreases css@.len() - b,
    {
        joined.push(&css[b]);
        b = b + 1;
    }
    while i < joined.len()
        invariant
            joined@.len() == files@.len() + css@.len(),
            forall|j: int| 0 <= j < files@.len() ==> *joined@[j] == files@[j],
            forall|j: int| 0 <= j < css@.len() ==> *joined@[files@.len() + j] == css@[j],
            0 <= i <= files@.len() + css@.len(),
            all == strs(files@) + strs(css@),
            data@ == version_input(all.take(i as int)),
        decreases joined@.len() - i,
    {
        let path: &String = joined[i];
        assert(all[i as int] == path@) by {
            if i < files@.len() {
                assert(strs(files@)[i as int] == files@[i as int]@);
            } else {
                assert(strs(css@)[i - files@.len()] == css@[i - files@.len()]@);
            }
        }
        let bytes = path.as_str().as_bytes();
        let ghost before = data@;
        let mut b: usize = 0;
        while b < bytes.len()
            invariant
                0 <= b <= bytes@.len(),
                data@ == before + bytes@.take(b as int),
            decreases bytes@.len() - b,
        {
            data.push(bytes[b]);
            assert(bytes@.take(b + 1) =~= bytes@.take(b as int).push(bytes@[b as int]));
            b = b + 1;
        }
        data.push(0u8);
        assert(bytes@.take(bytes@.len() as int) =~= bytes@);
        assert(all.take(i + 1).drop_last() =~= all.take(i as int));
        assert(data@ =~= version_input(all.take(i + 1)));
        i = i + 1;
    }
    assert(all.take(all.len() as int) =~= all);
    let digest = sha256_digest(data.as_slice());
    hex_string(digest.as_slice())
}

/// The entry file of a manifest entry key.
fn entry_file(m: &StrMap<ManifestEntry>, key: &str) -> (r: Option<String>)
    ensures
        match r {
            Some(f) => m.has(key@) && f@ == m.at(key@).file@,
            None => !m.has(key@),
        },
{
    match m.get(key) {
        Some(e) => Some(e.file.clone()),
        None => None,
    }
}

/// What a production build loads for an entry, as a successful
/// `production_assets` finds it.
pub open spec fn production_ok(
    m: StrMap<ManifestEntry>,
    entry: Seq<char>,
    public_path: Seq<char>,
    tags: Seq<char>,
    version: Seq<char>,
) -> bool {
    exists|order: Seq<Seq<char>>, css: Seq<Seq<char>>|
        {
            &&& chunk_order(m, entry) == Ok::<Seq<Seq<char>>, Seq<char>>(order)
            &&& order.len() > 0 && order[0] == entry
            &&& distinct(order)
            &&& all_keys(m, order)
            &&& closed_from(m, order, 0)
            &&& reached_from(m, order, 0)
            &&& crate::str_map::sorted_keys(css)
            &&& (forall|x: Seq<char>| #[trigger] css.contains(x) <==> in_css_of(m, order, x))
            &&& tags == tag_markup(
                strip_trailing(public_path, '/'),
                css,
                files_of(m, order),
                m.at(entry).file@,
                false,
            )
            &&& version == hex(sha256(version_input(files_of(m, order) + css)))
        }
}

/// `s` with every `\` replaced by `/`.
pub open spec fn forward_slashes(s: Seq<char>) -> Seq<char> {
    s.map_values(|c: char| if c == '\\' { '/' } else { c })
}

/// Replaces every `\` by `/`.
pub fn forward_slashes_of(s: &str) -> (out: String)
    ensures
        out@ == forward_slashes(s@),
{
    let chars = crate::text::chars_of(s);
    let mut out = String::new();
    let mut i: usize = 0;
    while i < chars.len()
        invariant
            chars@ == s@,
            0 <= i <= chars@.len(),
            out@ == forward_slashes(s@.take(i as int)),
        decreases chars.len() - i,
    {
        let c = chars[i];
        let d = if c == '\\' { '/' } else { c };
        push_char(&mut out, d);
        assert(forward_slashes(s@.take(i + 1)) =~= forward_slashes(s@.take(i as int)).push(d));
        i = i + 1;
    }
    assert(s@.take(chars@.len() as int) =~= s@);
    out
}

/// The heading of every Vite configuration message.
pub open spec fn config_heading() -> Seq<char> {
    "inertia-core Vite configuration error\n\n"@
}

/// The manifest keys as a bulleted list, one `  - key` line each.
pub open spec fn bullets(keys: Seq<Seq<char>>) -> Seq<char>
    decreases keys.len(),
{
    if keys.len() == 0 {
        Seq::empty()
    } else if keys.len() == 1 {
        "  - "@ + keys[0]
    } else {
        bullets(keys.drop_last()) + "\n  - "@ + keys.last()
    }
}

/// The message for an entry that is not a manifest key.
pub open spec fn entry_missing_message(key: Seq<char>, manifest_path: Seq<char>, keys: Seq<Seq<char>>) -> Seq<char> {
    config_heading() + "Entry \""@ + key + "\" was not found in:\n"@ + manifest_path + "\n\nAvailable entries:\n"@
        + bullets(keys)
}

/// The message for an import that is not a manifest key.
pub open spec fn import_missing_message(key: Seq<char>) -> Seq<char> {
    config_heading() + "Manifest import \""@ + key + "\" was not found"@
}

/// The message for a public path that cannot prefix asset URLs.
pub open spec fn public_path_message(public_path: Seq<char>) -> Seq<char> {
    config_heading() + "Public path \""@ + public_path + "\" must be an absolute, HTML-safe URL path"@
}

/// Builds the bulleted list of manifest keys.
fn bullets_of(m: &StrMap<ManifestEntry>) -> (out: String)
    ensures
        out@ == bullets(m.keys()),
{
    let n = m.len();
    let mut out = String::new();
    let mut i: usize = 0;
    while i < n
        invariant
            n == m.keys().len(),
            0 <= i <= n,
            out@ == bullets(m.keys().take(i as int)),
        decreases n - i,
    {
        let k = m.key_at(i);
        if i > 0 {
            push_str(&mut out, "\n  - ");
        } else {
            push_str(&mut out, "  - ");
        }
        push_str(&mut out, k.as_str());
        proof {
            let t = m.keys().take(i + 1);
            assert(t.drop_last() =~= m.keys().take(i as int));
            assert(t.last() == k@);
            if i == 0 {
                assert(t.len() == 1 && t[0] == k@);
            }
        }
        i = i + 1;
    }
    assert(m.keys().take(n as int) =~= m.keys());
    out
}

/// The concatenation of the views of `parts`.
pub open spec fn concat_all(parts: Seq<&str>) -> Seq<char>
    decreases parts.len(),
{
    if parts.len() == 0 {
        Seq::empty()
    } else {
        concat_all(parts.drop_last()) + parts.last()@
    }
}

/// A configuration error: the common heading, then `parts`.
fn config_error(parts: &[&str]) -> (r: ConfigError)
    ensures
        r.message_view() == config_heading() + concat_all(parts@),
{
    let mut out = "inertia-core Vite configuration error\n\n".to_owned();
    let ghost start = out@;
    let mut i: usize = 0;
    while i < parts.len()
        invariant
            0 <= i <= parts@.len(),
            start == config_heading(),
            out@ == start + concat_all(parts@.take(i as int)),
        decreases parts.len() - i,
    {
        push_str(&mut out, parts[i]);
        assert(parts@.take(i + 1).drop_last() =~= parts@.take(i as int));
        i = i + 1;
    }
    assert(parts@.take(parts@.len() as int) =~= parts@);
    ConfigError::new(out)
}

/// The asset tags and deployment version of a Vite production build.
///
/// The entry's manifest key is `entry` with `\` turned into `/`.  Its
/// chunks are its own, then, depth first, those its chunks import (see
/// `resolve_graph`).  The tags link every stylesheet of those chunks in
/// increasing order, preload every emitted file but the entry's, and load
/// the entry's file as a module script, all under the public path without
/// its trailing slashes, with paths escaped for attributes.  Fails, in this
/// order, when the entry is not in the manifest (naming the manifest at
/// `manifest_path` and listing its keys), when an import is not, or when
/// the public path is not absolute and HTML-safe.
pub fn production_assets(
    m: &StrMap<ManifestEntry>,
    entry: &str,
    public_path: &str,
    manifest_path: &str,
) -> (r: Result<(String, String), ConfigError>)
    ensures
        match r {
            Ok((tags, version)) => production_ok(*m, forward_slashes(entry@), public_path@, tags@, version@),
            Err(e) => if !m.has(forward_slashes(entry@)) {
                e.message_view() == entry_missing_message(forward_slashes(entry@), manifest_path@, m.keys())
            } else if chunk_order(*m, forward_slashes(entry@)) is Err {
                e.message_view() == import_missing_message(chunk_order(*m, forward_slashes(entry@))->Err_0)
                    && dangling(*m, chunk_order(*m, forward_slashes(entry@))->Err_0)
            } else {
                !prefix_ok(strip_trailing(public_path@, '/')) && e.message_view() == public_path_message(public_path@)
            },
        },
        !m.has(forward_slashes(entry@)) || chunk_order(*m, forward_slashes(entry@)) is Err || !prefix_ok(
            strip_trailing(public_path@, '/'),
        ) ==> r is Err,
{
    let key = forward_slashes_of(entry);
    let ef = match entry_file(m, key.as_str()) {
        Some(f) => f,
        None => {
            let list = bullets_of(m);
            let e = config_error(
                &[
                    "Entry \"",
                    key.as_str(),
                    "\" was not found in:\n",
                    manifest_path,
                    "\n\nAvailable entries:\n",
                    list.as_str(),
                ],
            );
            proof {
                reveal_with_fuel(concat_all, 7);
            }
            assert(e.message_view() =~= entry_missing_message(key@, manifest_path@, m.keys()));
            return Err(e);
        },
    };
    let order = match resolve_graph(key.as_str(), m) {
        Ok(o) => o,
        Err(missing) => {
            let e = config_error(&["Manifest import \"", missing.as_str(), "\" was not found"]);
            proof {
                reveal_with_fuel(concat_all, 4);
            }
            assert(e.message_view() =~= import_missing_message(missing@));
            return Err(e);
        },
    };
    let files = chunk_files(m, &order, false);
    let css = chunk_css(m, &order);
    let prefix = strip_trailing_of(public_path, '/');
    if !is_prefix_ok(prefix.as_str()) {
        let e = config_error(&["Public path \"", public_path, "\" must be an absolute, HTML-safe URL path"]);
        proof {
            reveal_with_fuel(concat_all, 4);
        }
        assert(e.message_view() =~= public_path_message(public_path@));
        return Err(e);
    }
    let tags = render_tags(prefix.as_str(), &css, &files, ef.as_str(), false);
    let version = deployment_version(&files, &css);
    assert(production_ok(*m, key@, public_path@, tags@, version@));
    Ok((tags, version))
}

/// The tags of a Vite development server: its client and the entry, as
/// module scripts under the server URL.
pub open spec fn dev_markup(base: Seq<char>, entry: Seq<char>) -> Seq<char> {
    "<script type=\"module\" src=\""@ + attr_escaped(base) + "/@vite/client\"></script><script type=\"module\" src=\""@
        + attr_escaped(base) + "/"@ + attr_escaped(entry) + "\"></script>"@
}

/// How a URL parses: its scheme and whether it has an authority, or `None`
/// when it is not a URI.
pub uninterp spec fn parsed_uri(url: Seq<char>) -> Option<(Option<Seq<char>>, bool)>;

/// Calls `str::parse::<http::Uri>` on `url` and reads the scheme and
/// authority of the result; on failure, the error's text.
#[verifier::external_body]
fn parse_uri(url: &str) -> (r: Result<(Option<String>, bool), String>)
    ensures
        match r {
            Ok((scheme, authority)) => parsed_uri(url@) == Some(
                (
                    match scheme {
                        Some(s) => Some(s@),
                        None => None,
                    },
                    authority,
                ),
            ),
            Err(_) => parsed_uri(url@) is None,
        },
{
    match url.parse::<http::Uri>() {
        Ok(uri) => Ok((uri.scheme_str().map(str::to_owned), uri.authority().is_some())),
        Err(error) => Err(error.to_string()),
    }
}

/// Whether a development server URL is usable: an absolute `http` or
/// `https` URI with an authority.
pub open spec fn dev_url_ok(url: Seq<char>) -> bool {
    match parsed_uri(url) {
        Some((Some(scheme), authority)) => (scheme == "http"@ || scheme == "https"@) && authority,
        _ => false,
    }
}

/// The message for a development server URL that does not parse.
pub open spec fn dev_url_malformed_message(url: Seq<char>, detail: Seq<char>) -> Seq<char> {
    config_heading() + "VITE_DEV_SERVER_URL \""@ + url + "\" is malformed: "@ + detail
}

/// The message for a development server URL that is not absolute http(s).
pub open spec fn dev_url_relative_message(url: Seq<char>) -> Seq<char> {
    config_heading() + "VITE_DEV_SERVER_URL \""@ + url + "\" must be an absolute http:// or https:// URL"@
}

/// The tags of a Vite development server at `url` for entry `entry`: the
/// URL without trailing slashes and the entry without leading slashes,
/// escaped.  Fails when the URL does not parse, or is not an absolute
/// `http` or `https` URI.
pub fn dev_tags(url: &str, entry: &str) -> (r: Result<String, ConfigError>)
    ensures
        match r {
            Ok(tags) => dev_url_ok(url@) && tags@ == dev_markup(strip_trailing(url@, '/'), strip_leading(entry@, '/')),
            Err(e) => !dev_url_ok(url@) && if parsed_uri(url@) is None {
                exists|d: Seq<char>| e.message_view() == dev_url_malformed_message(url@, d)
            } else {
                e.message_view() == dev_url_relative_message(url@)
            },
        },
{
    let ok = match parse_uri(url) {
        Err(detail) => {
            let e = config_error(&["VITE_DEV_SERVER_URL \"", url, "\" is malformed: ", detail.as_str()]);
            proof {
                reveal_with_fuel(concat_all, 5);
            }
            assert(e.message_view() =~= dev_url_malformed_message(url@, detail@));
            return Err(e);
        },
        Ok((Some(scheme), authority)) => {
            proof {
                reveal_strlit("http");
                reveal_strlit("https");
            }
            (crate::text::str_eq(scheme.as_str(), "http") || crate::text::str_eq(scheme.as_str(), "https"))
                && authority
        },
        Ok((None, _)) => false,
    };
    if !ok {
        let e = config_error(&["VITE_DEV_SERVER_URL \"", url, "\" must be an absolute http:// or https:// URL"]);
        proof {
            reveal_with_fuel(concat_all, 4);
        }
        assert(e.message_view() =~= dev_url_relative_message(url@));
        return Err(e);
    }
    let base = escape_attribute(strip_trailing_of(url, '/').as_str());
    let e = escape_attribute(strip_leading_of(entry, '/').as_str());
    let mut out = String::new();
    push_str(&mut out, "<script type=\"module\" src=\"");
    push_str(&mut out, base.as_str());
    push_str(&mut out, "/@vite/client\"></script><script type=\"module\" src=\"");
    push_str(&mut out, base.as_str());
    push_str(&mut out, "/");
    push_str(&mut out, e.as_str());
    push_str(&mut out, "\"></script>");
    assert(out@ =~= dev_markup(strip_trailing(url@, '/'), strip_leading(entry@, '/')));
    Ok(out)
}

} // verus!
