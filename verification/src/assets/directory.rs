//! Serving files beneath one canonical directory.
//!
//! The caller resolves a request path beneath the root and reads the file;
//! this module decides which paths may be resolved at all and what the
//! response is.

use super::{
    content_addressed, content_etag, decimal, decimal_string, etag_listed, etag_matches, header_views,
    immutable_cache, immutable_cache_control, is_content_addressed, method_not_allowed, method_not_allowed_view,
    push_header, quoted_hex, sha256, AssetBody, AssetBodyView, AssetHeader, AssetResponse, AssetResponseView,
};
use crate::text::{split_on, str_eq, strs};
use crate::visit::Method;
use vstd::prelude::*;

verus! {

broadcast use vstd::string::group_string_axioms;

/// The content type guessed from a path's extension, or
/// `application/octet-stream`.
pub uninterp spec fn guessed_mime(path: Seq<char>) -> Seq<char>;

/// Calls `mime_guess::from_path(path).first_or_octet_stream()`: the content
/// type registered for the path's extension, or `application/octet-stream`.
#[verifier::external_body]
fn guess_mime(path: &str) -> (r: String)
    ensures
        r@ == guessed_mime(path@),
{
    mime_guess::from_path(path).first_or_octet_stream().to_string()
}

/// Whether a request path may be resolved beneath the root: non-empty,
/// free of backslashes and NUL, relative, without `..` segments, and not
/// starting with a `.` segment; that is, every path component is a normal
/// name.
pub open spec fn relative_path_ok(path: Seq<char>) -> bool {
    &&& path.len() > 0
    &&& !path.contains('\\')
    &&& !path.contains('\0')
    &&& path[0] != '/'
    &&& split_on(path, '/')[0] != seq!['.']
    &&& forall|k: int| 0 <= k < split_on(path, '/').len() ==> #[trigger] split_on(path, '/')[k] != seq!['.', '.']
}

/// `no-cache`: the cache policy of directory files without a content hash.
pub open spec fn no_cache() -> Seq<char> {
    "no-cache"@
}

/// The response serving file bytes `content` at `path`: 304 with its entity
/// tag and cache policy when `If-None-Match` lists the tag; otherwise 200
/// with those, the guessed content type, and the length, and the bytes
/// unless the request is HEAD.
pub open spec fn file_response(path: Seq<char>, content: Seq<u8>, head: bool, if_none_match: Seq<Option<String>>) -> AssetResponseView {
    let etag = quoted_hex(sha256(content));
    let base = seq![
        (AssetHeader::ETag, etag),
        (AssetHeader::CacheControl, if content_addressed(path) { immutable_cache() } else { no_cache() }),
    ];
    if etag_listed(if_none_match, etag) {
        AssetResponseView { status: 304, headers: base, body: AssetBodyView::Empty }
    } else {
        AssetResponseView {
            status: 200,
            headers: base + seq![
                (AssetHeader::ContentType, guessed_mime(path)),
                (AssetHeader::ContentLength, decimal(content.len())),
            ],
            body: if head {
                AssetBodyView::Empty
            } else {
                AssetBodyView::Bytes(content)
            },
        }
    }
}

/// The pieces of `parts` that are not empty, in order.
pub open spec fn nonempty_pieces(parts: Seq<Seq<char>>) -> Seq<Seq<char>>
    decreases parts.len(),
{
    if parts.len() == 0 {
        Seq::empty()
    } else if parts.last().len() == 0 {
        nonempty_pieces(parts.drop_last())
    } else {
        nonempty_pieces(parts.drop_last()).push(parts.last())
    }
}

/// The components of a path: its `/`-separated pieces that are not empty.
pub open spec fn path_components(p: Seq<char>) -> Seq<Seq<char>> {
    nonempty_pieces(split_on(p, '/'))
}

/// Whether the absolute path `path` is `root` or lies beneath it: both are
/// absolute and the components of `root` begin those of `path`, the
/// comparison `Path::starts_with` makes on canonical paths.
pub open spec fn beneath(root: Seq<char>, path: Seq<char>) -> bool {
    let rc = path_components(root);
    let pc = path_components(path);
    &&& root.len() > 0 && root[0] == '/'
    &&& path.len() > 0 && path[0] == '/'
    &&& rc.len() <= pc.len()
    &&& pc.take(rc.len() as int) == rc
}

/// The components of a path.
fn components_of(p: &str) -> (r: Vec<String>)
    ensures
        strs(r@) == path_components(p@),
{
    let pieces = crate::text::split_pieces_of(p, '/');
    let ghost parts = split_on(p@, '/');
    let mut r: Vec<String> = Vec::new();
    let n = pieces.len();
    let mut i: usize = 0;
    while i < n
        invariant
            n == pieces@.len(),
            strs(pieces@) == parts,
            0 <= i <= n,
            strs(r@) == nonempty_pieces(parts.take(i as int)),
        decreases n - i,
    {
        assert(parts.take(i + 1).drop_last() =~= parts.take(i as int));
        assert(parts.take(i + 1).last() == pieces@[i as int]@);
        let piece = crate::text::owned(pieces[i].as_str());
        if crate::text::chars_of(piece.as_str()).len() > 0 {
            proof {
                crate::text::lemma_strs_push(r@, piece);
            }
            r.push(piece);
        }
        i = i + 1;
    }
    assert(parts.take(n as int) =~= parts);
    r
}

/// Files beneath one canonical directory.
#[derive(Clone, Debug)]
pub struct DirectoryAssetSource {
    root: String,
}

impl DirectoryAssetSource {
    /// The canonical root directory.
    pub closed spec fn root_view(&self) -> Seq<char> {
        self.root@
    }

    /// A source for the canonical directory `root`.
    pub fn from_canonical_root(root: String) -> (r: Self)
        ensures
            r.root_view() == root@,
    {
        DirectoryAssetSource { root }
    }

    /// The canonical root directory.
    pub fn root(&self) -> (r: &str)
        ensures
            r@ == self.root_view(),
    {
        self.root.as_str()
    }

    /// Whether the canonical path `resolved` is the root or lies beneath it.
    pub fn lies_beneath(&self, resolved: &str) -> (b: bool)
        ensures
            b == beneath(self.root_view(), resolved@),
    {
        let root_chars = crate::text::chars_of(self.root.as_str());
        let path_chars = crate::text::chars_of(resolved);
        if root_chars.len() == 0 || root_chars[0] != '/' || path_chars.len() == 0 || path_chars[0] != '/' {
            return false;
        }
        let rc = components_of(self.root.as_str());
        let pc = components_of(resolved);
        if rc.len() > pc.len() {
            assert(strs(rc@).len() == rc@.len() && strs(pc@).len() == pc@.len());
            return false;
        }
        let ghost rs = strs(rc@);
        let ghost ps = strs(pc@);
        let mut i: usize = 0;
        while i < rc.len()
            invariant
                rc@.len() <= pc@.len(),
                rs == strs(rc@),
                ps == strs(pc@),
                rs == path_components(self.root_view()),
                ps == path_components(resolved@),
                0 <= i <= rc@.len(),
                forall|j: int| 0 <= j < i ==> rs[j] == ps[j],
            decreases rc@.len() - i,
        {
            if !str_eq(rc[i].as_str(), pc[i].as_str()) {
                assert(ps.take(rs.len() as int)[i as int] != rs[i as int]);
                return false;
            }
            i = i + 1;
        }
        assert(ps.take(rs.len() as int) =~= rs);
        true
    }

    /// Serves one request for a file whose canonical path was resolved as
    /// `resolved` and whose bytes were read as `content`: the bytes are
    /// served only when the request path may be resolved and `resolved`
    /// lies beneath the root; otherwise as [`Self::respond`] with no
    /// content.  So no file outside the root is ever served.
    pub fn serve(
        &self,
        method: Method,
        path: &str,
        resolved: Option<&str>,
        content: Option<Vec<u8>>,
        if_none_match: &[Option<String>],
    ) -> (r: Option<AssetResponse>)
        ensures
            method != Method::Get && method != Method::Head ==> (r matches Some(x) && x@ == method_not_allowed_view()),
            method == Method::Get || method == Method::Head ==> match r {
                Some(x) => {
                    &&& relative_path_ok(path@)
                    &&& resolved matches Some(p) && beneath(self.root_view(), p@)
                    &&& content is Some
                    &&& x@ == file_response(path@, content->0@, method == Method::Head, if_none_match@)
                },
                None => !relative_path_ok(path@) || content is None || !(resolved matches Some(p) && beneath(
                    self.root_view(),
                    p@,
                )),
            },
    {
        let allowed = match resolved {
            Some(p) => self.lies_beneath(p),
            None => false,
        };
        let content = if allowed {
            content
        } else {
            None
        };
        self.respond(method, path, content, if_none_match)
    }

    /// Whether a request path may be resolved beneath the root.
    pub fn is_resolvable(path: &str) -> (b: bool)
        ensures
            b == relative_path_ok(path@),
    {
        let c = crate::text::chars_of(path);
        if c.len() == 0 || c[0] == '/' {
            return false;
        }
        let mut i: usize = 0;
        while i < c.len()
            invariant
                0 <= i <= c.len(),
                c@ == path@,
                forall|j: int| 0 <= j < i ==> c@[j] != '\\' && c@[j] != '\0',
            decreases c.len() - i,
        {
            if c[i] == '\\' || c[i] == '\0' {
                assert(path@[i as int] == c[i as int]);
                return false;
            }
            i = i + 1;
        }
        assert(!path@.contains('\\') && !path@.contains('\0')) by {
            if path@.contains('\\') {
                let j = choose|j: int| 0 <= j < path@.len() && path@[j] == '\\';
                assert(c@[j] == '\\');
            }
            if path@.contains('\0') {
                let j = choose|j: int| 0 <= j < path@.len() && path@[j] == '\0';
                assert(c@[j] == '\0');
            }
        }
        let pieces = crate::text::split_pieces_of(path, '/');
        proof {
            crate::text::lemma_split_on_nonempty(path@, '/');
            reveal_strlit(".");
            reveal_strlit("..");
            assert("."@ =~= seq!['.']);
            assert(".."@ =~= seq!['.', '.']);
        }
        assert(crate::text::strs(pieces@)[0] == pieces@[0]@);
        if str_eq(pieces[0].as_str(), ".") {
            return false;
        }
        let n = pieces.len();
        let mut k: usize = 0;
        while k < n
            invariant
                n == pieces@.len(),
                crate::text::strs(pieces@) == split_on(path@, '/'),
                0 <= k <= n,
                forall|j: int| 0 <= j < k ==> #[trigger] split_on(path@, '/')[j] != seq!['.', '.'],
            decreases n - k,
        {
            assert(crate::text::strs(pieces@)[k as int] == pieces@[k as int]@);
            proof {
                reveal_strlit("..");
                assert(".."@ =~= seq!['.', '.']);
            }
            if str_eq(pieces[k].as_str(), "..") {
                return false;
            }
            k = k + 1;
        }
        true
    }

    /// Serves one request: 405 for methods other than GET and HEAD; `None`
    /// for paths that may not be resolved or that name no regular file
    /// (`content` is `None`); otherwise the file response for `content`, the
    /// bytes of the file the path resolves to.
    pub fn respond(
        &self,
        method: Method,
        path: &str,
        content: Option<Vec<u8>>,
        if_none_match: &[Option<String>],
    ) -> (r: Option<AssetResponse>)
        ensures
            method != Method::Get && method != Method::Head ==> (r matches Some(x) && x@ == method_not_allowed_view()),
            method == Method::Get || method == Method::Head ==> match r {
                Some(x) => relative_path_ok(path@) && content is Some && x@ == file_response(
                    path@,
                    content->0@,
                    method == Method::Head,
                    if_none_match@,
                ),
                None => !relative_path_ok(path@) || content is None,
            },
    {
        if method != Method::Get && method != Method::Head {
            return Some(method_not_allowed());
        }
        if !Self::is_resolvable(path) {
            return None;
        }
        let bytes = match content {
            Some(b) => b,
            None => {
                return None;
            },
        };
        let etag = content_etag(bytes.as_slice());
        let mut headers: Vec<(AssetHeader, String)> = Vec::new();
        push_header(&mut headers, AssetHeader::ETag, etag.clone());
        let cache = if is_content_addressed(path) {
            immutable_cache_control()
        } else {
            "no-cache"
        };
        push_header(&mut headers, AssetHeader::CacheControl, cache.to_owned());
        if etag_matches(if_none_match, etag.as_str()) {
            let r = AssetResponse { status: 304, headers, body: AssetBody::Empty };
            assert(r@.headers =~= file_response(path@, bytes@, method == Method::Head, if_none_match@).headers);
            return Some(r);
        }
        push_header(&mut headers, AssetHeader::ContentType, guess_mime(path));
        push_header(&mut headers, AssetHeader::ContentLength, decimal_string(bytes.len() as u64));
        let body = if method == Method::Head {
            AssetBody::Empty
        } else {
            AssetBody::Bytes(bytes)
        };
        let r = AssetResponse { status: 200, headers, body };
        assert(r@.headers =~= file_response(path@, content->0@, method == Method::Head, if_none_match@).headers);
        Some(r)
    }
}

} // verus!
