use std::io::Write;
use inertia::assets::embedded::{embedded_version, manifest_tags, respond, EmbeddedAsset, EmbeddedFrontend, EmbeddedStorage};
use sha2::Digest;
use inertia::assets::manifest::ManifestEntry;
use inertia::assets::{AssetBody, AssetHeader};
use inertia::str_map::StrMap;
use inertia::visit::Method;

const JS: &str = "text/javascript; charset=utf-8";
const CSS: &str = "text/css; charset=utf-8";
const TEXT: &str = "text/plain; charset=utf-8";

fn asset(path: &'static str, bytes: &'static [u8], content_type: &'static str, immutable: bool) -> EmbeddedAsset {
    EmbeddedAsset {
        path,
        bytes,
        storage: EmbeddedStorage::Identity,
        content_type,
        etag: "\"sha256-test\"",
        immutable,
        encoding: None,
    }
}

static ASSETS: [EmbeddedAsset; 10] = [
    EmbeddedAsset {
        path: "assets/dynamic-abcdef12.js",
        bytes: b"export const dynamic = 1;",
        storage: EmbeddedStorage::Identity,
        content_type: JS,
        etag: "\"sha256-dynamic\"",
        immutable: true,
        encoding: None,
    },
    EmbeddedAsset {
        path: "assets/file%20name.txt",
        bytes: b"file name",
        storage: EmbeddedStorage::Identity,
        content_type: TEXT,
        etag: "\"sha256-file\"",
        immutable: false,
        encoding: None,
    },
    EmbeddedAsset {
        path: "assets/main-30f2a8d9.css",
        bytes: b"body{}",
        storage: EmbeddedStorage::Identity,
        content_type: CSS,
        etag: "\"sha256-maincss\"",
        immutable: true,
        encoding: None,
    },
    EmbeddedAsset {
        path: "assets/main-C6R2N8QK.js",
        bytes: b"import './shared.91a0f52c.js';",
        storage: EmbeddedStorage::Identity,
        content_type: JS,
        etag: "\"sha256-main\"",
        immutable: true,
        encoding: None,
    },
    EmbeddedAsset {
        path: "assets/nested-1234abcd.js",
        bytes: b"export const nested = 1;",
        storage: EmbeddedStorage::Identity,
        content_type: JS,
        etag: "\"sha256-nested\"",
        immutable: true,
        encoding: None,
    },
    EmbeddedAsset {
        path: "assets/remaining.txt",
        bytes: b"remaining",
        storage: EmbeddedStorage::Identity,
        content_type: TEXT,
        etag: "\"sha256-remaining\"",
        immutable: false,
        encoding: None,
    },
    EmbeddedAsset {
        path: "assets/shared.91a0f52c.js",
        bytes: b"export const shared = 1;",
        storage: EmbeddedStorage::Identity,
        content_type: JS,
        etag: "\"sha256-shared\"",
        immutable: true,
        encoding: None,
    },
    EmbeddedAsset {
        path: "assets/shared.css",
        bytes: b"p{}",
        storage: EmbeddedStorage::Identity,
        content_type: CSS,
        etag: "\"sha256-sharedcss\"",
        immutable: false,
        encoding: None,
    },
    EmbeddedAsset {
        path: "assets/theme%26print.css",
        bytes: b"@media print{}",
        storage: EmbeddedStorage::Identity,
        content_type: CSS,
        etag: "\"sha256-theme\"",
        immutable: false,
        encoding: None,
    },
    EmbeddedAsset {
        path: "images/pixel.bin",
        bytes: &[0xff, 0xfe, 0x00],
        storage: EmbeddedStorage::Identity,
        content_type: "application/octet-stream",
        etag: "\"sha256-pixel\"",
        immutable: false,
        encoding: None,
    },
];

fn entry(file: &str, css: &[&str], imports: &[&str]) -> ManifestEntry {
    ManifestEntry {
        file: file.to_owned(),
        css: css.iter().map(|c| c.to_string()).collect(),
        assets: Vec::new(),
        imports: imports.iter().map(|i| i.to_string()).collect(),
    }
}

/// The manifest graph of the fixture build: the entry imports a shared
/// chunk statically and a chunk dynamically; the shared chunk imports a
/// nested one and has two stylesheets.
fn manifest() -> StrMap<ManifestEntry> {
    let mut m = StrMap::new();
    m.insert(
        "src/main.ts".to_owned(),
        entry("assets/main-C6R2N8QK.js", &["assets/main-30f2a8d9.css"], &["_shared.js", "src/dynamic.ts"]),
    );
    m.insert(
        "_shared.js".to_owned(),
        entry("assets/shared.91a0f52c.js", &["assets/shared.css", "assets/theme&print.css"], &["_nested.js"]),
    );
    m.insert("_nested.js".to_owned(), entry("assets/nested-1234abcd.js", &[], &[]));
    m.insert("src/dynamic.ts".to_owned(), entry("assets/dynamic-abcdef12.js", &[], &[]));
    m
}

fn frontend(public_path: &'static str) -> EmbeddedFrontend {
    let tags = manifest_tags(&manifest(), "src/main.ts", public_path).unwrap();
    EmbeddedFrontend::new(public_path, "src/main.ts", "frontend-sha256-test", Box::leak(tags.into_boxed_str()), &ASSETS)
}

#[test]
fn manifest_graph_tags_are_ordered_encoded_and_escaped() {
    let front = frontend("/build");
    let complete = frontend("/assets");
    let tags = front.tags;
    let main_css = tags.find("/build/assets/main-30f2a8d9.css").unwrap();
    let shared_css = tags.find("/build/assets/shared.css").unwrap();
    let shared_js = tags.find("/build/assets/shared.91a0f52c.js").unwrap();
    let nested_js = tags.find("/build/assets/nested-1234abcd.js").unwrap();
    let dynamic_js = tags.find("/build/assets/dynamic-abcdef12.js").unwrap();
    let entry_js = tags.find("/build/assets/main-C6R2N8QK.js").unwrap();
    assert!(main_css < shared_css);
    assert!(shared_css < shared_js);
    assert!(shared_js < nested_js);
    assert!(nested_js < dynamic_js);
    assert!(dynamic_js < entry_js);
    assert!(tags.contains("/build/assets/theme%26print.css"));
    assert!(!tags.contains("theme&print.css"));
    assert!(complete.tags.contains("/assets/"));
}

#[test]
fn exact_lookup_rejects_traversal_and_does_not_decode_paths() {
    let front = frontend("/build");
    assert!(front.find("/assets/main-C6R2N8QK.js").is_some());
    assert!(front.find("assets/file%20name.txt?download=1").is_some());
    for path in [
        "",
        "/",
        "../assets/main-C6R2N8QK.js",
        "assets/../main-C6R2N8QK.js",
        "assets\\main-C6R2N8QK.js",
        "assets/%2e%2e/main-C6R2N8QK.js",
        "assets",
    ] {
        assert!(front.find(path).is_none(), "{path} must be rejected");
    }
}

#[test]
fn manifest_tags_have_exact_markup() {
    let tags = manifest_tags(&manifest(), "src/main.ts", "/").unwrap();
    let expected = [
        "<link rel=\"stylesheet\" href=\"/assets/main-30f2a8d9.css\">",
        "<link rel=\"stylesheet\" href=\"/assets/shared.css\">",
        "<link rel=\"stylesheet\" href=\"/assets/theme%26print.css\">",
        "<link rel=\"modulepreload\" href=\"/assets/shared.91a0f52c.js\">",
        "<link rel=\"modulepreload\" href=\"/assets/nested-1234abcd.js\">",
        "<link rel=\"modulepreload\" href=\"/assets/dynamic-abcdef12.js\">",
        "<script type=\"module\" src=\"/assets/main-C6R2N8QK.js\"></script>",
    ]
    .join("");
    assert_eq!(tags, expected);
}

#[test]
fn manifest_tags_report_the_missing_import() {
    let mut m = manifest();
    m.insert("_nested.js".to_owned(), entry("assets/nested-1234abcd.js", &[], &["_gone.js"]));
    assert_eq!(manifest_tags(&m, "src/main.ts", "/build").unwrap_err(), "_gone.js");
    assert_eq!(manifest_tags(&m, "src/absent.ts", "/build").unwrap_err(), "src/absent.ts");
}

#[test]
fn embedded_lookup_finds_every_listed_asset() {
    let front = frontend("/build");
    for a in ASSETS.iter() {
        assert!(front.find(a.path).is_some(), "{} must be embedded", a.path);
    }
    assert!(front.find("assets/source.js.map").is_none());
    assert!(std::str::from_utf8(front.find("images/pixel.bin").unwrap().bytes).is_err());
}

fn header<'a>(headers: &'a [(AssetHeader, String)], name: AssetHeader) -> Option<&'a str> {
    headers.iter().find(|(n, _)| *n == name).map(|(_, v)| v.as_str())
}

fn body(b: &AssetBody) -> &[u8] {
    match b {
        AssetBody::Empty => &[],
        AssetBody::Static(bytes) => bytes,
        AssetBody::Bytes(bytes) => bytes.as_slice(),
    }
}

#[test]
fn source_serves_get_head_etag_cache_and_method_responses() {
    let front = frontend("/build");
    let get = respond(&front, Method::Get, "assets/main-C6R2N8QK.js", &[]).unwrap();
    assert_eq!(get.status, 200);
    assert_eq!(header(&get.headers, AssetHeader::ContentType), Some(JS));
    assert_eq!(header(&get.headers, AssetHeader::CacheControl), Some("public, max-age=31536000, immutable"));
    assert_eq!(
        header(&get.headers, AssetHeader::ContentLength),
        Some(front.find("assets/main-C6R2N8QK.js").unwrap().uncompressed_len().to_string().as_str())
    );
    assert_eq!(body(&get.body), b"import './shared.91a0f52c.js';");

    let head = respond(&front, Method::Head, "assets/main-C6R2N8QK.js", &[]).unwrap();
    assert_eq!(head.status, 200);
    assert_eq!(header(&head.headers, AssetHeader::ETag), header(&get.headers, AssetHeader::ETag));
    assert!(matches!(head.body, AssetBody::Empty));

    let etag = header(&get.headers, AssetHeader::ETag).unwrap().to_owned();
    let not_modified = respond(&front, Method::Get, "assets/main-C6R2N8QK.js", &[Some(etag)]).unwrap();
    assert_eq!(not_modified.status, 304);
    assert!(header(&not_modified.headers, AssetHeader::ContentLength).is_none());
    assert!(matches!(not_modified.body, AssetBody::Empty));

    let method = respond(&front, Method::Post, "assets/main-C6R2N8QK.js", &[]).unwrap();
    assert_eq!(method.status, 405);
    assert!(front.version.starts_with("frontend-sha256-"));
    assert_eq!(front.public_path, "/build");
}

#[test]
fn unhashed_files_use_revalidation_cache_policy() {
    let front = frontend("/build");
    let response = respond(&front, Method::Get, "assets/shared.css", &[]).unwrap();
    assert_eq!(header(&response.headers, AssetHeader::CacheControl), Some("public, max-age=0, must-revalidate"));
}

static ENCODED_ASSETS: [EmbeddedAsset; 1] = [EmbeddedAsset {
    path: "assets/precompressed.js",
    bytes: b"encoded",
    storage: EmbeddedStorage::Identity,
    content_type: JS,
    etag: "\"encoded-etag\"",
    immutable: false,
    encoding: Some("br"),
}];

#[test]
fn explicit_content_encoding_preserves_vary_on_get_head_and_304() {
    let front = EmbeddedFrontend::new("/build", "src/main.ts", "encoded-version", "", &ENCODED_ASSETS);
    let get = respond(&front, Method::Get, "assets/precompressed.js", &[]).unwrap();
    assert_eq!(header(&get.headers, AssetHeader::ContentEncoding), Some("br"));
    assert_eq!(header(&get.headers, AssetHeader::Vary), Some("Accept-Encoding"));
    assert!(matches!(get.body, AssetBody::Static(b"encoded")));

    let head = respond(&front, Method::Head, "assets/precompressed.js", &[]).unwrap();
    assert_eq!(header(&head.headers, AssetHeader::ContentEncoding), Some("br"));
    assert_eq!(header(&head.headers, AssetHeader::Vary), Some("Accept-Encoding"));
    assert!(matches!(head.body, AssetBody::Empty));

    let etag = header(&get.headers, AssetHeader::ETag).unwrap().to_owned();
    let not_modified = respond(&front, Method::Get, "assets/precompressed.js", &[Some(etag)]).unwrap();
    assert_eq!(not_modified.status, 304);
    assert_eq!(header(&not_modified.headers, AssetHeader::ContentEncoding), Some("br"));
    assert_eq!(header(&not_modified.headers, AssetHeader::Vary), Some("Accept-Encoding"));
    assert!(matches!(not_modified.body, AssetBody::Empty));
}

static CORRUPT_ASSETS: [EmbeddedAsset; 1] = [EmbeddedAsset {
    path: "assets/corrupt.txt",
    bytes: b"not-brotli",
    storage: EmbeddedStorage::Brotli { uncompressed_len: 128 },
    content_type: TEXT,
    etag: "\"corrupt-etag\"",
    immutable: false,
    encoding: None,
}];

#[test]
fn head_and_not_modified_do_not_expand_executable_storage() {
    let front = EmbeddedFrontend::new("/build", "src/main.ts", "corrupt-version", "", &CORRUPT_ASSETS);
    let head = respond(&front, Method::Head, "assets/corrupt.txt", &[]).unwrap();
    assert_eq!(head.status, 200);
    assert_eq!(header(&head.headers, AssetHeader::ContentLength), Some("128"));

    let not_modified =
        respond(&front, Method::Get, "assets/corrupt.txt", &[Some(CORRUPT_ASSETS[0].etag.to_owned())]).unwrap();
    assert_eq!(not_modified.status, 304);

    let get = respond(&front, Method::Get, "assets/corrupt.txt", &[]).unwrap();
    assert_eq!(get.status, 500);
}

#[test]
fn weak_and_wildcard_validators_match() {
    let front = frontend("/build");
    let weak = respond(&front, Method::Get, "assets/shared.css", &[Some("W/\"sha256-sharedcss\"".to_owned())]).unwrap();
    assert_eq!(weak.status, 304);
    let any = respond(&front, Method::Get, "assets/shared.css", &[Some("\"other\", *".to_owned())]).unwrap();
    assert_eq!(any.status, 304);
    let other = respond(&front, Method::Get, "assets/shared.css", &[Some("\"other\"".to_owned()), None]).unwrap();
    assert_eq!(other.status, 200);
}

#[test]
fn unknown_paths_are_not_served() {
    let front = frontend("/build");
    assert!(respond(&front, Method::Get, "assets/missing.js", &[]).is_none());
    assert!(respond(&front, Method::Get, "../assets/main-C6R2N8QK.js", &[]).is_none());
}

#[test]
fn storage_lengths_of_identity_and_compressed_assets() {
    let a = asset("x.txt", b"x", TEXT, false);
    assert_eq!(a.uncompressed_len(), 1);
    assert!(!a.is_storage_compressed());
    assert_eq!(CORRUPT_ASSETS[0].uncompressed_len(), 128);
    assert!(CORRUPT_ASSETS[0].is_storage_compressed());
}

static BROTLI_ASSETS: [EmbeddedAsset; 2] = [
    EmbeddedAsset {
        path: "assets/empty.txt",
        bytes: &[0x06],
        storage: EmbeddedStorage::Brotli { uncompressed_len: 0 },
        content_type: TEXT,
        etag: "\"empty-etag\"",
        immutable: false,
        encoding: None,
    },
    EmbeddedAsset {
        path: "assets/hi.txt",
        bytes: &[0x10, 0x00, 0x10, b'h', b'i', 0x03],
        storage: EmbeddedStorage::Brotli { uncompressed_len: 2 },
        content_type: TEXT,
        etag: "\"hi-etag\"",
        immutable: false,
        encoding: None,
    },
];

#[test]
fn compressed_storage_is_served_expanded() {
    let front = EmbeddedFrontend::new("/build", "src/main.ts", "brotli-version", "", &BROTLI_ASSETS);
    let empty = respond(&front, Method::Get, "assets/empty.txt", &[]).unwrap();
    assert_eq!(empty.status, 200);
    assert_eq!(body(&empty.body), b"");
    assert_eq!(header(&empty.headers, AssetHeader::ContentLength), Some("0"));
    let hi = respond(&front, Method::Get, "assets/hi.txt", &[]).unwrap();
    assert_eq!(hi.status, 200);
    assert_eq!(body(&hi.body), b"hi");
    assert!(header(&hi.headers, AssetHeader::ContentEncoding).is_none());
}

#[test]
fn deployment_version_hashes_the_documented_byte_stream() {
    let files = vec![
        ("assets/app.js".to_owned(), b"console.log(1)".to_vec()),
        ("assets/theme&print.css".to_owned(), b"@media print{}".to_vec()),
    ];
    let mut hasher = sha2::Sha256::new();
    for field in ["inertia-embed-v1", "/build", "src/main.ts"] {
        hasher.update(field.as_bytes());
        hasher.update([0u8]);
    }
    for (path, bytes) in &files {
        hasher.update(path.as_bytes());
        hasher.update([0u8]);
        hasher.update(bytes);
        hasher.update([0u8]);
    }
    let hex: String = hasher.finalize().iter().map(|b| format!("{b:02x}")).collect();
    assert_eq!(embedded_version("/build", "src/main.ts", &files), format!("frontend-sha256-{hex}"));
}

#[test]
fn generated_metadata_is_sorted_complete_and_deterministic() {
    let front = frontend("/build");
    let copy = frontend("/build");
    assert_eq!(front.public_path, "/build");
    assert_eq!(front.entry, "src/main.ts");
    assert!(front.version.starts_with("frontend-sha256-"));
    assert_eq!(front.version, copy.version);
    assert_eq!(front.tags, copy.tags);
    assert!(front.assets.windows(2).all(|pair| pair[0].path < pair[1].path));
    for path in [
        "assets/main-C6R2N8QK.js",
        "assets/shared.91a0f52c.js",
        "assets/nested-1234abcd.js",
        "assets/dynamic-abcdef12.js",
        "assets/main-30f2a8d9.css",
        "assets/shared.css",
        "assets/theme%26print.css",
        "assets/file%20name.txt",
        "assets/remaining.txt",
        "images/pixel.bin",
    ] {
        assert!(front.find(path).is_some(), "{path} must be embedded");
    }
    assert!(front.find("assets/source.js.map").is_none());
    assert!(front.find(".hidden.txt").is_none());
    assert!(inertia::assets::embed_build::is_hidden(".hidden.txt"));
    assert!(std::str::from_utf8(front.find("images/pixel.bin").unwrap().bytes).is_err());
    let files = vec![("assets/app.js".to_owned(), b"1".to_vec())];
    assert_eq!(embedded_version("/build", "src/main.ts", &files), embedded_version("/build", "src/main.ts", &files));
}

fn brotli_compressed(data: &[u8]) -> Vec<u8> {
    let mut out = Vec::new();
    {
        let mut writer = brotli::CompressorWriter::new(&mut out, 4096, 11, 22);
        writer.write_all(data).unwrap();
    }
    out
}

#[test]
fn executable_storage_is_aggressively_compressed_but_http_bytes_are_original() {
    let path = "assets/repetitive-data.txt";
    let emitted: Vec<u8> = b"repetitive data ".iter().copied().cycle().take(4096).collect();
    let compressed: &'static [u8] = Box::leak(brotli_compressed(&emitted).into_boxed_slice());
    let assets: &'static [EmbeddedAsset] = Box::leak(Box::new([EmbeddedAsset {
        path: "assets/repetitive-data.txt",
        bytes: compressed,
        storage: EmbeddedStorage::Brotli { uncompressed_len: emitted.len() },
        content_type: TEXT,
        etag: "\"sha256-repetitive\"",
        immutable: false,
        encoding: None,
    }]));
    let front = EmbeddedFrontend::new("/build", "src/main.ts", "frontend-sha256-test", "", assets);
    let asset = front.find(path).unwrap();
    assert!(asset.is_storage_compressed());
    assert!(asset.bytes.len() < emitted.len());
    assert_eq!(asset.uncompressed_len(), emitted.len());

    let first = respond(&front, Method::Get, path, &[]).unwrap();
    assert_eq!(first.status, 200);
    assert_eq!(header(&first.headers, AssetHeader::ContentLength), Some(emitted.len().to_string().as_str()));
    assert!(header(&first.headers, AssetHeader::ContentEncoding).is_none());
    assert!(header(&first.headers, AssetHeader::Vary).is_none());
    assert_eq!(body(&first.body), emitted.as_slice());

    let second = respond(&front, Method::Get, path, &[]).unwrap();
    assert_eq!(body(&second.body), emitted.as_slice());
}
