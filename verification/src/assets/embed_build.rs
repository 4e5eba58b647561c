//! Decisions made when a frontend build is embedded: which manifest and
//! file paths are acceptable, which public paths are safe, which files are
//! hidden, which are worth compressing, and which content types are text.

use super::vite::{forward_slashes, forward_slashes_of, strip_trailing, strip_trailing_of};
use crate::lists::{eq_ignore_ascii_case, str_eq_ignore_ascii_case};
use crate::text::{chars_have_prefix_at, chars_of, has_prefix, owned, push_str, split_on, split_pieces_of, str_eq, strs};
use vstd::prelude::*;

verus! {

broadcast use vstd::string::group_string_axioms;

/// Whether a path segment is empty, `.` or `..`.
pub open spec fn bad_segment(seg: Seq<char>) -> bool {
    seg.len() == 0 || seg == seq!['.'] || seg == seq!['.', '.']
}

/// Whether `s` holds a NUL, CR or LF.
pub open spec fn has_line_break_or_nul(s: Seq<char>) -> bool {
    s.contains('\0') || s.contains('\r') || s.contains('\n')
}

/// Whether a forward-slashed path is absolute: it starts with `/` or with a
/// one-byte character and a drive colon.
pub open spec fn absolute_like(n: Seq<char>) -> bool {
    (n.len() > 0 && n[0] == '/') || (n.len() >= 2 && (n[0] as u32) < 128 && n[1] == ':')
}

/// What a relative manifest key or emitted path normalizes to: `\` becomes
/// `/`; refused when it holds NUL, CR or LF, is absolute, or has an empty,
/// `.` or `..` segment.
pub open spec fn normalized_relative(raw: Seq<char>, kind: Seq<char>) -> Result<Seq<char>, Seq<char>> {
    let n = forward_slashes(raw);
    if has_line_break_or_nul(raw) {
        Err(kind + " contains a forbidden NUL, CR, or LF character"@)
    } else if absolute_like(n) {
        Err(kind + " `"@ + raw + "` must be relative"@)
    } else if exists|k: int| 0 <= k < split_on(n, '/').len() && bad_segment(#[trigger] split_on(n, '/')[k]) {
        Err(kind + " `"@ + raw + "` contains an empty or traversal path segment"@)
    } else {
        Ok(n)
    }
}

fn contains_char(chars: &Vec<char>, c: char) -> (b: bool)
    ensures
        b == chars@.contains(c),
{
    let mut i: usize = 0;
    while i < chars.len()
        invariant
            0 <= i <= chars@.len(),
            forall|j: int| 0 <= j < i ==> chars@[j] != c,
        decreases chars.len() - i,
    {
        if chars[i] == c {
            return true;
        }
        i = i + 1;
    }
    false
}

fn is_bad_segment(seg: &str) -> (b: bool)
    ensures
        b == bad_segment(seg@),
{
    proof {
        reveal_strlit(".");
        reveal_strlit("..");
        assert("."@ =~= seq!['.']);
        assert(".."@ =~= seq!['.', '.']);
    }
    let c = chars_of(seg);
    c.len() == 0 || str_eq(seg, ".") || str_eq(seg, "..")
}

/// The index of a segment of `pieces` that is empty, `.` or `..`.
fn find_bad_segment(pieces: &Vec<String>) -> (r: bool)
    ensures
        r == exists|k: int| 0 <= k < pieces@.len() && bad_segment(#[trigger] strs(pieces@)[k]),
{
    let mut i: usize = 0;
    while i < pieces.len()
        invariant
            0 <= i <= pieces@.len(),
            forall|k: int| 0 <= k < i ==> !bad_segment(#[trigger] strs(pieces@)[k]),
        decreases pieces.len() - i,
    {
        assert(strs(pieces@)[i as int] == pieces@[i as int]@);
        if is_bad_segment(pieces[i].as_str()) {
            return true;
        }
        i = i + 1;
    }
    false
}

/// Normalizes a relative manifest key or emitted path (see
/// `normalized_relative`); `kind` names it in the error.
pub fn normalize_relative(raw: &str, kind: &str) -> (r: Result<String, String>)
    ensures
        match (r, normalized_relative(raw@, kind@)) {
            (Ok(a), Ok(b)) => a@ == b,
            (Err(a), Err(b)) => a@ == b,
            _ => false,
        },
{
    let raw_chars = chars_of(raw);
    if contains_char(&raw_chars, '\0') || contains_char(&raw_chars, '\r') || contains_char(&raw_chars, '\n') {
        let mut m = owned(kind);
        push_str(&mut m, " contains a forbidden NUL, CR, or LF character");
        return Err(m);
    }
    let n = forward_slashes_of(raw);
    let nc = chars_of(n.as_str());
    if (nc.len() > 0 && nc[0] == '/') || (nc.len() >= 2 && (nc[0] as u32) < 128 && nc[1] == ':') {
        let mut m = owned(kind);
        push_str(&mut m, " `");
        push_str(&mut m, raw);
        push_str(&mut m, "` must be relative");
        return Err(m);
    }
    let pieces = split_pieces_of(n.as_str(), '/');
    if find_bad_segment(&pieces) {
        let mut m = owned(kind);
        push_str(&mut m, " `");
        push_str(&mut m, raw);
        push_str(&mut m, "` contains an empty or traversal path segment");
        return Err(m);
    }
    Ok(n)
}

/// Whether a public-path character is refused outright.
pub open spec fn forbidden_public_char(c: char) -> bool {
    c == '\0' || c == '\r' || c == '\n' || c == '\\' || c == '"' || c == '\'' || c == '<' || c == '>' || c == '&'
        || c == '{' || c == '}' || c == '?' || c == '#'
}

/// Whether a character may appear in a public-path segment: an ASCII
/// letter or digit, `-`, `_`, `.`, `~` or `%`.
pub open spec fn segment_char(c: char) -> bool {
    ('a' <= c && c <= 'z') || ('A' <= c && c <= 'Z') || ('0' <= c && c <= '9') || c == '-' || c == '_' || c == '.'
        || c == '~' || c == '%'
}

/// Whether a public-path segment is acceptable.
pub open spec fn public_segment_ok(seg: Seq<char>) -> bool {
    !bad_segment(seg) && forall|i: int| 0 <= i < seg.len() ==> segment_char(#[trigger] seg[i])
}

/// Whether a normalized public path is safe to mount and to write into
/// markup.
pub open spec fn public_path_safe(n: Seq<char>) -> bool {
    &&& n.len() > 0 && n[0] == '/'
    &&& forall|i: int| 0 <= i < n.len() ==> !forbidden_public_char(#[trigger] n[i]) && (n[i] as u32) < 128
    &&& n != seq!['/'] ==> forall|k: int|
        0 <= k < split_on(n.drop_first(), '/').len() ==> public_segment_ok(
            #[trigger] split_on(n.drop_first(), '/')[k],
        )
}

/// What an embedded frontend's public path normalizes to: `/` stays, other
/// paths lose their trailing slashes; refused unless safe.
pub open spec fn normalized_public_path(raw: Seq<char>) -> Result<Seq<char>, Seq<char>> {
    let n = if raw == seq!['/'] {
        raw
    } else {
        strip_trailing(raw, '/')
    };
    if public_path_safe(n) {
        Ok(n)
    } else {
        Err("unsafe embedded frontend public_path `"@ + raw + "`"@)
    }
}

fn is_segment_char(c: char) -> (b: bool)
    ensures
        b == segment_char(c),
{
    ('a' <= c && c <= 'z') || ('A' <= c && c <= 'Z') || ('0' <= c && c <= '9') || c == '-' || c == '_' || c == '.'
        || c == '~' || c == '%'
}

fn is_public_segment_ok(seg: &str) -> (b: bool)
    ensures
        b == public_segment_ok(seg@),
{
    if is_bad_segment(seg) {
        return false;
    }
    let c = chars_of(seg);
    let mut i: usize = 0;
    while i < c.len()
        invariant
            c@ == seg@,
            0 <= i <= c@.len(),
            forall|j: int| 0 <= j < i ==> segment_char(#[trigger] c@[j]),
        decreases c.len() - i,
    {
        if !is_segment_char(c[i]) {
            return false;
        }
        i = i + 1;
    }
    true
}

fn is_public_path_safe(n: &str) -> (b: bool)
    ensures
        b == public_path_safe(n@),
{
    let c = chars_of(n);
    if c.len() == 0 || c[0] != '/' {
        return false;
    }
    let mut i: usize = 0;
    while i < c.len()
        invariant
            c@ == n@,
            0 <= i <= c@.len(),
            forall|j: int| 0 <= j < i ==> !forbidden_public_char(#[trigger] c@[j]) && (c@[j] as u32) < 128,
        decreases c.len() - i,
    {
        let ch = c[i];
        if ch == '\0' || ch == '\r' || ch == '\n' || ch == '\\' || ch == '"' || ch == '\'' || ch == '<' || ch == '>'
            || ch == '&' || ch == '{' || ch == '}' || ch == '?' || ch == '#' || (ch as u32) >= 128 {
            return false;
        }
        i = i + 1;
    }
    proof {
        reveal_strlit("/");
        assert("/"@ =~= seq!['/']);
    }
    if str_eq(n, "/") {
        return true;
    }
    assert(n@ != seq!['/']);
    let rest = crate::text::string_from(&c, 1, c.len());
    assert(rest@ =~= n@.drop_first());
    let pieces = split_pieces_of(rest.as_str(), '/');
    let mut k: usize = 0;
    while k < pieces.len()
        invariant
            strs(pieces@) == split_on(n@.drop_first(), '/'),
            n@ != seq!['/'],
            0 <= k <= pieces@.len(),
            forall|j: int| 0 <= j < k ==> public_segment_ok(#[trigger] split_on(n@.drop_first(), '/')[j]),
        decreases pieces.len() - k,
    {
        assert(strs(pieces@)[k as int] == pieces@[k as int]@);
        if !is_public_segment_ok(pieces[k].as_str()) {
            assert(!public_segment_ok(split_on(n@.drop_first(), '/')[k as int]));
            assert(n@ != seq!['/']);
            return false;
        }
        k = k + 1;
    }
    true
}

/// Normalizes and checks an embedded frontend's public path.
pub fn normalize_public_path(raw: &str) -> (r: Result<String, String>)
    ensures
        match (r, normalized_public_path(raw@)) {
            (Ok(a), Ok(b)) => a@ == b,
            (Err(a), Err(b)) => a@ == b,
            _ => false,
        },
{
    proof {
        reveal_strlit("/");
        assert("/"@ =~= seq!['/']);
    }
    let n = if str_eq(raw, "/") {
        owned(raw)
    } else {
        strip_trailing_of(raw, '/')
    };
    if is_public_path_safe(n.as_str()) {
        Ok(n)
    } else {
        let mut m = "unsafe embedded frontend public_path `".to_owned();
        push_str(&mut m, raw);
        push_str(&mut m, "`");
        Err(m)
    }
}

/// Whether a path names a hidden file or lies in a hidden directory: some
/// segment starts with `.` and is neither `.` nor `..`.
pub open spec fn hidden_path(path: Seq<char>) -> bool {
    exists|k: int|
        0 <= k < split_on(path, '/').len() && {
            let seg = #[trigger] split_on(path, '/')[k];
            seg.len() > 0 && seg[0] == '.' && seg != seq!['.'] && seg != seq!['.', '.']
        }
}

/// Whether a path is hidden.
pub fn is_hidden(path: &str) -> (b: bool)
    ensures
        b == hidden_path(path@),
{
    proof {
        reveal_strlit(".");
        reveal_strlit("..");
        assert("."@ =~= seq!['.']);
        assert(".."@ =~= seq!['.', '.']);
    }
    let pieces = split_pieces_of(path, '/');
    let mut i: usize = 0;
    while i < pieces.len()
        invariant
            strs(pieces@) == split_on(path@, '/'),
            "."@ == seq!['.'],
            ".."@ == seq!['.', '.'],
            0 <= i <= pieces@.len(),
            forall|k: int|
                0 <= k < i ==> {
                    let seg = #[trigger] split_on(path@, '/')[k];
                    !(seg.len() > 0 && seg[0] == '.' && seg != seq!['.'] && seg != seq!['.', '.'])
                },
        decreases pieces.len() - i,
    {
        assert(strs(pieces@)[i as int] == pieces@[i as int]@);
        let ghost seg = split_on(path@, '/')[i as int];
        let c = chars_of(pieces[i].as_str());
        assert(c@ == seg);
        if c.len() > 0 && c[0] == '.' && !str_eq(pieces[i].as_str(), ".") && !str_eq(pieces[i].as_str(), "..") {
            assert(seg.len() > 0 && seg[0] == '.' && seg != seq!['.'] && seg != seq!['.', '.']);
            return true;
        }
        i = i + 1;
    }
    false
}

/// Whether `s` ends with `p`.
pub open spec fn has_suffix(s: Seq<char>, p: Seq<char>) -> bool {
    p.len() <= s.len() && s.subrange(s.len() - p.len(), s.len() as int) == p
}

fn ends_with(s: &Vec<char>, p: &str) -> (b: bool)
    ensures
        b == has_suffix(s@, p@),
{
    let pc = chars_of(p);
    if pc.len() > s.len() {
        return false;
    }
    let at = s.len() - pc.len();
    let r = chars_have_prefix_at(s, at, &pc);
    proof {
        let rest = s@.subrange(at as int, s@.len() as int);
        assert(rest.subrange(0, pc@.len() as int) =~= s@.subrange(s@.len() - p@.len(), s@.len() as int));
    }
    r
}

/// Whether a media type (before any `;`) is text: `text/*`, a `+json` or
/// `+xml` type, JavaScript, JSON, XML or SVG.
pub open spec fn textual_content(content_type: Seq<char>) -> bool {
    let essence = split_on(content_type, ';')[0];
    has_prefix(essence, "text/"@) || has_suffix(essence, "+json"@) || has_suffix(essence, "+xml"@) || essence
        == "application/javascript"@ || essence == "application/json"@ || essence == "application/xml"@ || essence
        == "image/svg+xml"@
}

/// Whether a content type is text, so that Brotli compresses it in text
/// mode.
pub fn is_textual_content(content_type: &str) -> (b: bool)
    ensures
        b == textual_content(content_type@),
{
    let pieces = split_pieces_of(content_type, ';');
    proof {
        crate::text::lemma_split_on_nonempty(content_type@, ';');
    }
    assert(strs(pieces@)[0] == pieces@[0]@);
    let essence = pieces[0].as_str();
    let c = chars_of(essence);
    let text = chars_of("text/");
    proof {
        assert(c@.subrange(0, c@.len() as int) =~= c@);
    }
    chars_have_prefix_at(&c, 0, &text) || ends_with(&c, "+json") || ends_with(&c, "+xml") || str_eq(
        essence,
        "application/javascript",
    ) || str_eq(essence, "application/json") || str_eq(essence, "application/xml") || str_eq(
        essence,
        "image/svg+xml",
    )
}

/// The content type an embedded asset is served with: text types, and
/// JavaScript, JSON, XML and SVG, gain `; charset=utf-8`.
pub open spec fn served_content_type(essence: Seq<char>) -> Seq<char> {
    if has_prefix(essence, "text/"@) || essence == "application/javascript"@ || essence == "application/json"@
        || essence == "application/xml"@ || essence == "image/svg+xml"@ {
        essence + "; charset=utf-8"@
    } else {
        essence
    }
}

/// The content type an embedded asset is served with.
pub fn served_content_type_of(essence: &str) -> (out: String)
    ensures
        out@ == served_content_type(essence@),
{
    let c = chars_of(essence);
    let text = chars_of("text/");
    proof {
        assert(c@.subrange(0, c@.len() as int) =~= c@);
    }
    let mut out = owned(essence);
    if chars_have_prefix_at(&c, 0, &text) || str_eq(essence, "application/javascript") || str_eq(
        essence,
        "application/json",
    ) || str_eq(essence, "application/xml") || str_eq(essence, "image/svg+xml") {
        push_str(&mut out, "; charset=utf-8");
    }
    out
}

/// The extension of a path's file name, as `Path::extension` finds it: the
/// part after the last `.` of the last segment, unless that `.` starts the
/// name or the name is `..`.
pub open spec fn extension(path: Seq<char>) -> Option<Seq<char>> {
    let name = split_on(path, '/').last();
    let parts = split_on(name, '.');
    if name == seq!['.', '.'] || parts.len() < 2 || (parts.len() == 2 && parts[0].len() == 0) {
        None
    } else {
        Some(parts.last())
    }
}

/// File extensions whose content is already compressed.
pub open spec fn compressed_extensions() -> Seq<Seq<char>> {
    seq![
        "7z"@, "avif"@, "br"@, "bz2"@, "gif"@, "gz"@, "jpeg"@, "jpg"@, "mp3"@, "mp4"@, "ogg"@, "pdf"@, "png"@,
        "rar"@, "webm"@, "webp"@, "woff"@, "woff2"@, "xz"@, "zip"@, "zst"@,
    ]
}

/// Whether a file is worth Brotli-compressing: its extension (or the empty
/// one) is none of the already compressed formats, in any letter case.
pub open spec fn brotli_candidate(path: Seq<char>) -> bool {
    let ext = match extension(path) {
        Some(e) => e,
        None => Seq::empty(),
    };
    !exists|i: int| 0 <= i < compressed_extensions().len() && eq_ignore_ascii_case(
        ext,
        #[trigger] compressed_extensions()[i],
    )
}

fn file_extension(path: &str) -> (r: Option<String>)
    ensures
        match r {
            Some(e) => extension(path@) == Some(e@),
            None => extension(path@) is None,
        },
{
    let segments = split_pieces_of(path, '/');
    proof {
        crate::text::lemma_split_on_nonempty(path@, '/');
    }
    let last = segments.len() - 1;
    assert(strs(segments@)[last as int] == segments@[last as int]@);
    let name = segments[last].as_str();
    let parts = split_pieces_of(name, '.');
    proof {
        reveal_strlit("..");
        assert(".."@ =~= seq!['.', '.']);
        crate::text::lemma_split_on_nonempty(name@, '.');
    }
    assert(strs(parts@)[0] == parts@[0]@);
    let first_empty = chars_of(parts[0].as_str()).len() == 0;
    if str_eq(name, "..") || parts.len() < 2 || (parts.len() == 2 && first_empty) {
        None
    } else {
        let k = parts.len() - 1;
        assert(strs(parts@)[k as int] == parts@[k as int]@);
        proof {
            if parts.len() == 2 {
                assert(strs(parts@)[0].len() != 0);
            }
        }
        Some(owned(parts[k].as_str()))
    }
}

/// Whether a file is worth Brotli-compressing.
pub fn is_brotli_candidate(path: &str) -> (b: bool)
    ensures
        b == brotli_candidate(path@),
{
    let ext = match file_extension(path) {
        Some(e) => e,
        None => String::new(),
    };
    let list: [&str; 21] = [
        "7z",
        "avif",
        "br",
        "bz2",
        "gif",
        "gz",
        "jpeg",
        "jpg",
        "mp3",
        "mp4",
        "ogg",
        "pdf",
        "png",
        "rar",
        "webm",
        "webp",
        "woff",
        "woff2",
        "xz",
        "zip",
        "zst",
    ];
    assert(list@.map_values(|s: &str| s@) =~= compressed_extensions());
    let mut i: usize = 0;
    while i < 21
        invariant
            0 <= i <= 21,
            list@.len() == 21,
            list@.map_values(|s: &str| s@) == compressed_extensions(),
            ext@ == match extension(path@) {
                Some(e) => e,
                None => Seq::<char>::empty(),
            },
            forall|j: int| 0 <= j < i ==> !eq_ignore_ascii_case(ext@, #[trigger] compressed_extensions()[j]),
        decreases 21 - i,
    {
        assert(list@.map_values(|s: &str| s@)[i as int] == list@[i as int]@);
        if str_eq_ignore_ascii_case(ext.as_str(), list[i]) {
            return false;
        }
        i = i + 1;
    }
    true
}

} // verus!
