//! A production frontend compiled into the executable, and the responses
//! that serve it.

use super::{
    etag_listed, etag_matches, header_views, immutable_cache, immutable_cache_control, method_not_allowed,
    method_not_allowed_view, push_header, AssetBody, AssetBodyView, AssetHeader, AssetResponse,
    AssetResponseView,
};
use crate::text::{seq_lt, split_on, str_eq, str_lt};
use crate::visit::Method;
use vstd::prelude::*;

verus! {

broadcast use vstd::string::group_string_axioms;

/// How an asset's bytes are stored in the executable.
#[derive(Clone, Copy, Debug, PartialEq, Eq, Structural)]
pub enum EmbeddedStorage {
    /// Stored exactly as emitted.
    Identity,
    /// Stored Brotli-compressed; expands to exactly `uncompressed_len` bytes.
    Brotli { uncompressed_len: usize },
}

/// One emitted frontend asset compiled into the executable.
#[derive(Clone, Copy, Debug)]
pub struct EmbeddedAsset {
    /// Percent-encoded, public-path-relative lookup path.
    pub path: &'static str,
    /// The stored bytes (see `storage`).
    pub bytes: &'static [u8],
    /// How the bytes are stored.
    pub storage: EmbeddedStorage,
    /// The response `Content-Type`.
    pub content_type: &'static str,
    /// The quoted entity tag.
    pub etag: &'static str,
    /// Whether the file name is recognized as content-addressed.
    pub immutable: bool,
    /// The `Content-Encoding` of a directly addressed precompressed file.
    pub encoding: Option<&'static str>,
}

/// The length of an asset's emitted bytes.
pub open spec fn emitted_len(a: EmbeddedAsset) -> nat {
    match a.storage {
        EmbeddedStorage::Identity => a.bytes@.len(),
        EmbeddedStorage::Brotli { uncompressed_len } => uncompressed_len as nat,
    }
}

impl EmbeddedAsset {
    /// The exact emitted length once storage is expanded.
    pub fn uncompressed_len(&self) -> (n: usize)
        ensures
            n == emitted_len(*self),
    {
        match self.storage {
            EmbeddedStorage::Identity => self.bytes.len(),
            EmbeddedStorage::Brotli { uncompressed_len } => uncompressed_len,
        }
    }

    /// Whether the executable stores this asset Brotli-compressed.
    pub fn is_storage_compressed(&self) -> (b: bool)
        ensures
            b == (self.storage is Brotli),
    {
        match self.storage {
            EmbeddedStorage::Brotli { .. } => true,
            EmbeddedStorage::Identity => false,
        }
    }
}

/// A complete production frontend compiled into the executable.
#[derive(Clone, Copy, Debug)]
pub struct EmbeddedFrontend {
    /// URL prefix under which adapters mount the asset source.
    pub public_path: &'static str,
    /// Vite manifest entry the tags were generated for.
    pub entry: &'static str,
    /// Deterministic deployment version.
    pub version: &'static str,
    /// Stylesheet, preload, and script markup.
    pub tags: &'static str,
    /// The assets, in strictly increasing path order.
    pub assets: &'static [EmbeddedAsset],
}

/// Whether the assets are in strictly increasing path order.
pub open spec fn assets_sorted(assets: Seq<EmbeddedAsset>) -> bool {
    forall|i: int, j: int| 0 <= i < j < assets.len() ==> seq_lt(assets[i].path@, assets[j].path@)
}

/// The part of a request path before its query.
pub open spec fn before_query(p: Seq<char>) -> Seq<char> {
    split_on(p, '?')[0]
}

/// A path with one leading `/` removed.
pub open spec fn without_leading_slash(p: Seq<char>) -> Seq<char> {
    if p.len() > 0 && p[0] == '/' {
        p.drop_first()
    } else {
        p
    }
}

/// Whether an asset lookup path is acceptable: non-empty, relative, free of
/// backslashes, and made of non-empty segments other than `.` and `..`.
pub open spec fn lookup_path_ok(p: Seq<char>) -> bool {
    &&& p.len() > 0
    &&& p[0] != '/'
    &&& !p.contains('\\')
    &&& forall|k: int|
        0 <= k < split_on(p, '/').len() ==> {
            let s = #[trigger] split_on(p, '/')[k];
            s.len() > 0 && s != seq!['.'] && s != seq!['.', '.']
        }
}

/// The lookup path of a request path: the path without its query and
/// without one leading `/`, when acceptable.
pub open spec fn lookup_path(request_path: Seq<char>) -> Option<Seq<char>> {
    let p = without_leading_slash(before_query(request_path));
    if lookup_path_ok(p) {
        Some(p)
    } else {
        None
    }
}

/// The position of the first `c` in `chars`, or its length.
fn first_index(chars: &Vec<char>, c: char) -> (i: usize)
    ensures
        i <= chars.len(),
        forall|j: int| 0 <= j < i ==> chars@[j] != c,
        i < chars.len() ==> chars@[i as int] == c,
{
    let mut i: usize = 0;
    while i < chars.len()
        invariant
            0 <= i <= chars.len(),
            forall|j: int| 0 <= j < i ==> chars@[j] != c,
        decreases chars.len() - i,
    {
        if chars[i] == c {
            return i;
        }
        i = i + 1;
    }
    i
}

proof fn lemma_split_len_one(s: Seq<char>, sep: char)
    requires
        forall|j: int| 0 <= j < s.len() ==> s[j] != sep,
    ensures
        split_on(s, sep).len() == 1,
        split_on(s, sep)[0] == s,
    decreases s.len(),
{
    if s.len() > 0 {
        lemma_split_len_one(s.drop_last(), sep);
        assert(s.drop_last().push(s.last()) =~= s);
    }
}

proof fn lemma_split_first(s: Seq<char>, sep: char, i: int)
    requires
        0 <= i <= s.len(),
        forall|j: int| 0 <= j < i ==> s[j] != sep,
        i < s.len() ==> s[i] == sep,
    ensures
        split_on(s, sep)[0] == s.subrange(0, i),
    decreases s.len(),
{
    if s.len() == 0 {
        assert(s.subrange(0, 0) =~= Seq::<char>::empty());
    } else if i == s.len() {
        lemma_split_len_one(s, sep);
        assert(s.subrange(0, i) =~= s);
    } else {
        let t = s.drop_last();
        crate::text::lemma_split_on_nonempty(t, sep);
        if i == t.len() {
            lemma_split_len_one(t, sep);
            assert(t =~= s.subrange(0, i));
        } else {
            lemma_split_first(t, sep, i);
            assert(t.subrange(0, i) =~= s.subrange(0, i));
            lemma_split_len_gt_one(t, sep, i);
        }
    }
}

proof fn lemma_split_len_gt_one(s: Seq<char>, sep: char, i: int)
    requires
        0 <= i < s.len(),
        s[i] == sep,
    ensures
        split_on(s, sep).len() > 1,
    decreases s.len(),
{
    crate::text::lemma_split_on_nonempty(s.drop_last(), sep);
    if i < s.len() - 1 {
        lemma_split_len_gt_one(s.drop_last(), sep, i);
    }
}

/// Whether a lookup path is acceptable (see `lookup_path_ok`).
fn is_lookup_path_ok(p: &str) -> (b: bool)
    ensures
        b == lookup_path_ok(p@),
{
    let c = crate::text::chars_of(p);
    if c.len() == 0 || c[0] == '/' {
        return false;
    }
    let bs = first_index(&c, '\\');
    if bs < c.len() {
        assert(p@.contains('\\'));
        return false;
    }
    let pieces = crate::text::split_pieces_of(p, '/');
    let n = pieces.len();
    let mut k: usize = 0;
    while k < n
        invariant
            n == pieces@.len(),
            crate::text::strs(pieces@) == split_on(p@, '/'),
            0 <= k <= n,
            forall|j: int|
                0 <= j < k ==> {
                    let s = #[trigger] split_on(p@, '/')[j];
                    s.len() > 0 && s != seq!['.'] && s != seq!['.', '.']
                },
        decreases n - k,
    {
        assert(crate::text::strs(pieces@)[k as int] == pieces@[k as int]@);
        let seg = pieces[k].as_str();
        assert(split_on(p@, '/')[k as int] == seg@);
        proof {
            reveal_strlit(".");
            reveal_strlit("..");
            reveal_strlit("");
            assert("."@ =~= seq!['.']);
            assert(".."@ =~= seq!['.', '.']);
            assert(""@ =~= Seq::<char>::empty());
        }
        if str_eq(seg, "") || str_eq(seg, ".") || str_eq(seg, "..") {
            return false;
        }
        proof {
            if seg@.len() == 0 {
                assert(seg@ =~= Seq::<char>::empty());
            }
        }
        k = k + 1;
    }
    assert(!p@.contains('\\')) by {
        if p@.contains('\\') {
            let j = choose|j: int| 0 <= j < p@.len() && p@[j] == '\\';
            assert(c@[j] == '\\');
        }
    }
    true
}

impl EmbeddedFrontend {
    /// Creates a frontend value.
    pub fn new(
        public_path: &'static str,
        entry: &'static str,
        version: &'static str,
        tags: &'static str,
        assets: &'static [EmbeddedAsset],
    ) -> (r: Self)
        ensures
            r.public_path == public_path,
            r.entry == entry,
            r.version == version,
            r.tags == tags,
            r.assets == assets,
    {
        EmbeddedFrontend { public_path, entry, version, tags, assets }
    }

    /// Finds an asset by exact lookup path, without decoding it: the query
    /// is dropped, one leading `/` is dropped, and paths with empty, `.`, or
    /// `..` segments or backslashes are refused.
    pub fn find(&self, request_path: &str) -> (r: Option<&'static EmbeddedAsset>)
        ensures
            match r {
                Some(a) => lookup_path(request_path@) == Some(a.path@) && self.assets@.contains(*a),
                None => lookup_path(request_path@) is None || !assets_sorted(self.assets@)
                    || forall|i: int| 0 <= i < self.assets@.len() ==> Some(self.assets@[i].path@) != lookup_path(
                    request_path@,
                ),
            },
    {
        let c = crate::text::chars_of(request_path);
        let q = first_index(&c, '?');
        proof {
            lemma_split_first(c@, '?', q as int);
        }
        let from: usize = if q > 0 && c[0] == '/' {
            1
        } else {
            0
        };
        let path = crate::text::string_from(&c, from, q);
        assert(path@ == without_leading_slash(before_query(request_path@))) by {
            if q > 0 && c@[0] == '/' {
                assert(c@.subrange(0, q as int).drop_first() =~= c@.subrange(1, q as int));
            }
        }
        if !is_lookup_path_ok(path.as_str()) {
            return None;
        }
        assert(lookup_path(request_path@) == Some(path@));
        let assets = self.assets;
        let mut lo: usize = 0;
        let mut hi: usize = assets.len();
        while lo < hi
            invariant
                assets@ == self.assets@,
                lookup_path(request_path@) == Some(path@),
                0 <= lo <= hi <= assets@.len(),
                assets_sorted(assets@) ==> forall|i: int|
                    0 <= i < assets@.len() && assets@[i].path@ == path@ ==> lo <= i < hi,
            decreases hi - lo,
        {
            let mid = lo + (hi - lo) / 2;
            let a = &assets[mid];
            if str_eq(a.path, path.as_str()) {
                assert(assets@.contains(*a));
                return Some(a);
            }
            if str_lt(a.path, path.as_str()) {
                proof {
                    assert forall|i: int| 0 <= i < assets@.len() && assets@[i].path@ == path@ && assets_sorted(assets@) implies mid < i by {
                        if i < mid {
                            crate::text::lemma_seq_lt_transitive(path@, a.path@, path@);
                            crate::text::lemma_seq_lt_irreflexive(path@);
                            assert(seq_lt(assets@[i].path@, assets@[mid as int].path@));
                        }
                    }
                }
                lo = mid + 1;
            } else {
                proof {
                    assert forall|i: int| 0 <= i < assets@.len() && assets@[i].path@ == path@ && assets_sorted(assets@) implies i < mid by {
                        if i > mid {
                            assert(seq_lt(assets@[mid as int].path@, assets@[i].path@));
                            crate::text::lemma_seq_lt_total(a.path@, path@);
                        }
                    }
                }
                hi = mid;
            }
        }
        None
    }
}

/// The Brotli decompression of `data`, or `None` when `data` is not a valid
/// Brotli stream.
pub uninterp spec fn brotli_output(data: Seq<u8>) -> Option<Seq<u8>>;

/// Calls `brotli_decompressor::BrotliDecompress` on `data`, collecting the
/// output: what it yields for this input, or `None` when it fails.
#[verifier::external_body]
pub(crate) fn brotli_decompress(data: &[u8]) -> (r: Option<Vec<u8>>)
    ensures
        match r {
            Some(v) => brotli_output(data@) == Some(v@),
            None => brotli_output(data@) is None,
        },
{
    let mut input = data;
    let mut output: Vec<u8> = Vec::new();
    match brotli_decompressor::BrotliDecompress(&mut input, &mut output) {
        Ok(()) => Some(output),
        Err(_) => None,
    }
}

/// `public, max-age=0, must-revalidate`: the cache policy of embedded files
/// without a content hash.
pub open spec fn revalidate_cache() -> Seq<char> {
    "public, max-age=0, must-revalidate"@
}

/// The headers every served embedded asset carries: its content type and
/// entity tag, `Accept-Ranges: bytes`, its cache policy, and, for a
/// precompressed file, its encoding with `Vary: Accept-Encoding`.
pub open spec fn asset_headers(a: EmbeddedAsset) -> Seq<(AssetHeader, Seq<char>)> {
    seq![
        (AssetHeader::ContentType, a.content_type@),
        (AssetHeader::ETag, a.etag@),
        (AssetHeader::AcceptRanges, "bytes"@),
        (AssetHeader::CacheControl, if a.immutable { immutable_cache() } else { revalidate_cache() }),
    ] + match a.encoding {
        Some(e) => seq![(AssetHeader::ContentEncoding, e@), (AssetHeader::Vary, "Accept-Encoding"@)],
        None => Seq::empty(),
    }
}

/// The response serving asset `a`: 304 with its headers when the request's
/// `If-None-Match` lists its entity tag; otherwise 200 with its headers and
/// its emitted length, and no body for HEAD, its stored bytes for identity
/// storage, or its expanded bytes, or 500 with nothing when they do not
/// expand to the declared length.
pub open spec fn asset_response(a: EmbeddedAsset, head: bool, if_none_match: Seq<Option<String>>) -> AssetResponseView {
    if etag_listed(if_none_match, a.etag@) {
        AssetResponseView { status: 304, headers: asset_headers(a), body: AssetBodyView::Empty }
    } else {
        let headers = asset_headers(a).push((AssetHeader::ContentLength, super::decimal(emitted_len(a))));
        if head {
            AssetResponseView { status: 200, headers, body: AssetBodyView::Empty }
        } else {
            match a.storage {
                EmbeddedStorage::Identity => AssetResponseView {
                    status: 200,
                    headers,
                    body: AssetBodyView::Static(a.bytes@),
                },
                EmbeddedStorage::Brotli { uncompressed_len } => match brotli_output(a.bytes@) {
                    Some(o) => if o.len() == uncompressed_len {
                        AssetResponseView { status: 200, headers, body: AssetBodyView::Bytes(o) }
                    } else {
                        AssetResponseView { status: 500, headers: Seq::empty(), body: AssetBodyView::Empty }
                    },
                    None => AssetResponseView { status: 500, headers: Seq::empty(), body: AssetBodyView::Empty },
                },
            }
        }
    }
}

/// 500 with no headers and no body.
fn server_error() -> (r: AssetResponse)
    ensures
        r@ == (AssetResponseView { status: 500, headers: Seq::empty(), body: AssetBodyView::Empty }),
{
    let r = AssetResponse { status: 500, headers: Vec::new(), body: AssetBody::Empty };
    assert(r@.headers =~= Seq::<(AssetHeader, Seq<char>)>::empty());
    r
}

/// Serves one request from the embedded frontend.
///
/// Methods other than GET and HEAD get 405; paths that name no asset get
/// `None`; an asset is served as `asset_response` says.
pub fn respond(
    frontend: &EmbeddedFrontend,
    method: Method,
    path: &str,
    if_none_match: &[Option<String>],
) -> (r: Option<AssetResponse>)
    ensures
        method != Method::Get && method != Method::Head ==> (r matches Some(x) && x@ == method_not_allowed_view()),
        method == Method::Get || method == Method::Head ==> match r {
            Some(x) => exists|a: EmbeddedAsset|
                frontend.assets@.contains(a) && lookup_path(path@) == Some(a.path@) && x@ == asset_response(
                    a,
                    method == Method::Head,
                    if_none_match@,
                ),
            None => lookup_path(path@) is None || !assets_sorted(frontend.assets@) || forall|i: int|
                0 <= i < frontend.assets@.len() ==> Some(frontend.assets@[i].path@) != lookup_path(path@),
        },
{
    if method != Method::Get && method != Method::Head {
        return Some(method_not_allowed());
    }
    let asset = match frontend.find(path) {
        Some(a) => a,
        None => {
            return None;
        },
    };
    let mut headers: Vec<(AssetHeader, String)> = Vec::new();
    push_header(&mut headers, AssetHeader::ContentType, asset.content_type.to_owned());
    push_header(&mut headers, AssetHeader::ETag, asset.etag.to_owned());
    push_header(&mut headers, AssetHeader::AcceptRanges, "bytes".to_owned());
    let cache = if asset.immutable {
        immutable_cache_control()
    } else {
        "public, max-age=0, must-revalidate"
    };
    push_header(&mut headers, AssetHeader::CacheControl, cache.to_owned());
    match asset.encoding {
        Some(e) => {
            push_header(&mut headers, AssetHeader::ContentEncoding, e.to_owned());
            push_header(&mut headers, AssetHeader::Vary, "Accept-Encoding".to_owned());
        },
        None => {},
    }
    assert(header_views(headers@) =~= asset_headers(*asset));
    if etag_matches(if_none_match, asset.etag) {
        return Some(AssetResponse { status: 304, headers, body: AssetBody::Empty });
    }
    push_header(&mut headers, AssetHeader::ContentLength, super::decimal_string(asset.uncompressed_len() as u64));
    let body = if method == Method::Head {
        AssetBody::Empty
    } else {
        match asset.storage {
            EmbeddedStorage::Identity => AssetBody::Static(asset.bytes),
            EmbeddedStorage::Brotli { uncompressed_len } => match brotli_decompress(asset.bytes) {
                Some(out) => {
                    if out.len() == uncompressed_len {
                        AssetBody::Bytes(out)
                    } else {
                        return Some(server_error());
                    }
                },
                None => {
                    return Some(server_error());
                },
            },
        }
    };
    Some(AssetResponse { status: 200, headers, body })
}

/// The tags of an embedded frontend for `entry`: stylesheet links, module
/// preloads for the other files (each once), and the entry's module script,
/// under the public path (nothing for `/`), with paths percent-encoded.
/// Fails with the first manifest key it cannot find.
pub fn manifest_tags(
    m: &crate::str_map::StrMap<super::manifest::ManifestEntry>,
    entry: &str,
    public_path: &str,
) -> (r: Result<String, String>)
    ensures
        match r {
            Ok(tags) => exists|order: Seq<Seq<char>>, css: Seq<Seq<char>>|
                {
                    &&& super::manifest::chunk_order(*m, entry@) == Ok::<Seq<Seq<char>>, Seq<char>>(order)
                    &&& order.len() > 0 && order[0] == entry@
                    &&& crate::text::distinct(order)
                    &&& super::manifest::all_keys(*m, order)
                    &&& super::manifest::closed_from(*m, order, 0)
                    &&& super::manifest::reached_from(*m, order, 0)
                    &&& crate::str_map::sorted_keys(css)
                    &&& (forall|x: Seq<char>| #[trigger] css.contains(x) <==> super::manifest::in_css_of(*m, order, x))
                    &&& tags@ == super::manifest::tag_markup(
                        if public_path@ == seq!['/'] {
                            Seq::empty()
                        } else {
                            public_path@
                        },
                        css,
                        super::manifest::dedup(super::manifest::files_of(*m, order)),
                        m.at(entry@).file@,
                        true,
                    )
                },
            Err(missing) => !m.has(missing@) && (missing@ == entry@ || super::manifest::dangling(*m, missing@))
                && super::manifest::chunk_order(*m, entry@) == Err::<Seq<Seq<char>>, Seq<char>>(missing@),
        },
{
    let order = match super::manifest::resolve_graph(entry, m) {
        Ok(o) => o,
        Err(missing) => {
            return Err(missing);
        },
    };
    let ef = match m.get(entry) {
        Some(e) => e.file.clone(),
        None => {
            return Err(entry.to_owned());
        },
    };
    let files = super::manifest::chunk_files(m, &order, true);
    let css = super::manifest::chunk_css(m, &order);
    proof {
        reveal_strlit("/");
        reveal_strlit("");
        assert("/"@ =~= seq!['/']);
        assert(""@ =~= Seq::<char>::empty());
    }
    let prefix: &str = if str_eq(public_path, "/") {
        ""
    } else {
        public_path
    };
    assert(prefix@ == if public_path@ == seq!['/'] { Seq::<char>::empty() } else { public_path@ });
    let tags = super::manifest::render_tags(prefix, &css, &files, ef.as_str(), true);
    Ok(tags)
}

/// The bytes hashed into an embedded deployment version: the format tag
/// `inertia-embed-v1`, the public path, and the entry, each followed by a
/// zero byte, then each file's logical path and bytes, each followed by a
/// zero byte.
pub open spec fn embedded_version_input(
    public_path: Seq<char>,
    entry: Seq<char>,
    files: Seq<(Seq<char>, Seq<u8>)>,
) -> Seq<u8>
    decreases files.len(),
{
    if files.len() == 0 {
        vstd::utf8::encode_utf8("inertia-embed-v1"@) + seq![0u8] + vstd::utf8::encode_utf8(public_path) + seq![0u8]
            + vstd::utf8::encode_utf8(entry) + seq![0u8]
    } else {
        embedded_version_input(public_path, entry, files.drop_last()) + vstd::utf8::encode_utf8(files.last().0)
            + seq![0u8] + files.last().1 + seq![0u8]
    }
}

fn append_bytes(data: &mut Vec<u8>, bytes: &[u8])
    ensures
        final(data)@ == old(data)@ + bytes@,
{
    let ghost before = data@;
    let mut b: usize = 0;
    while b < bytes.len()
        invariant
            0 <= b <= bytes@.len(),
            data@ == before + bytes@.take(b as int),
        decreases bytes@.len() - b,
    {
        data.push(bytes[b]);
        assert(bytes@.take(b + 1) =~= bytes@.take(b as int).push(bytes@[b as int]));
        b = b + 1;
    }
    assert(bytes@.take(bytes@.len() as int) =~= bytes@);
}

/// The deployment version of an embedded frontend:
/// `frontend-sha256-` and the hexadecimal SHA-256 digest of
/// `embedded_version_input`.
pub fn embedded_version(public_path: &str, entry: &str, files: &Vec<(String, Vec<u8>)>) -> (out: String)
    ensures
        out@ == "frontend-sha256-"@ + super::hex(
            super::sha256(
                embedded_version_input(public_path@, entry@, files@.map_values(|f: (String, Vec<u8>)| (f.0@, f.1@))),
            ),
        ),
{
    let ghost fv = files@.map_values(|f: (String, Vec<u8>)| (f.0@, f.1@));
    let mut data: Vec<u8> = Vec::new();
    append_bytes(&mut data, "inertia-embed-v1".as_bytes());
    data.push(0u8);
    append_bytes(&mut data, public_path.as_bytes());
    data.push(0u8);
    append_bytes(&mut data, entry.as_bytes());
    data.push(0u8);
    proof {
        reveal_strlit("inertia-embed-v1");
    }
    assert(data@ =~= embedded_version_input(public_path@, entry@, fv.take(0)));
    let mut i: usize = 0;
    while i < files.len()
        invariant
            0 <= i <= files@.len(),
            fv == files@.map_values(|f: (String, Vec<u8>)| (f.0@, f.1@)),
            data@ == embedded_version_input(public_path@, entry@, fv.take(i as int)),
        decreases files@.len() - i,
    {
        let ghost before = data@;
        append_bytes(&mut data, files[i].0.as_str().as_bytes());
        data.push(0u8);
        append_bytes(&mut data, files[i].1.as_slice());
        data.push(0u8);
        assert(fv.take(i + 1).drop_last() =~= fv.take(i as int));
        assert(data@ =~= embedded_version_input(public_path@, entry@, fv.take(i + 1)));
        i = i + 1;
    }
    assert(fv.take(files@.len() as int) =~= fv);
    let digest = super::sha256_digest(data.as_slice());
    let mut out = "frontend-sha256-".to_owned();
    let h = super::hex_string(digest.as_slice());
    crate::text::push_str(&mut out, h.as_str());
    proof {
        reveal_strlit("frontend-sha256-");
    }
    out
}

/// A lookup path never leaves the asset tree: it is relative, holds no
/// backslash, and has no empty, `.` or `..` segment; percent escapes are
/// not decoded, so the lookup matches the path exactly as requested.
pub proof fn law_lookup_stays_inside(request_path: Seq<char>, found: Seq<char>)
    requires
        lookup_path(request_path) == Some(found),
    ensures
        found.len() > 0 && found[0] != '/',
        !found.contains('\\'),
        forall|k: int|
            0 <= k < split_on(found, '/').len() ==> #[trigger] split_on(found, '/')[k] != seq!['.', '.'],
        found == without_leading_slash(before_query(request_path)),
{
}

/// A request whose `If-None-Match` lists the asset's entity tag is answered
/// 304 with the asset's headers and no body, for GET and HEAD alike.
pub proof fn law_revalidation_is_not_modified(a: EmbeddedAsset, head: bool, if_none_match: Seq<Option<String>>)
    requires
        etag_listed(if_none_match, a.etag@),
    ensures
        asset_response(a, head, if_none_match).status == 304,
        asset_response(a, head, if_none_match).headers == asset_headers(a),
        asset_response(a, head, if_none_match).body == AssetBodyView::Empty,
{
}

/// HEAD gets GET's status and headers and never a body, so it never
/// expands compressed storage.
pub proof fn law_head_mirrors_get_without_body(a: EmbeddedAsset, if_none_match: Seq<Option<String>>)
    requires
        asset_response(a, false, if_none_match).status != 500,
    ensures
        asset_response(a, true, if_none_match).status == asset_response(a, false, if_none_match).status,
        asset_response(a, true, if_none_match).headers == asset_response(a, false, if_none_match).headers,
        asset_response(a, true, if_none_match).body == AssetBodyView::Empty,
{
}

} // verus!
