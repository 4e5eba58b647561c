use sha2::Digest;
use inertia::assets::directory::DirectoryAssetSource;
use inertia::assets::{is_content_addressed, AssetBody, AssetHeader, AssetResponse};
use inertia::visit::Method;

const IMMUTABLE_CACHE: &str = "public, max-age=31536000, immutable";
const REVALIDATE_CACHE: &str = "no-cache";

/// The files of the fixture directory; directories and missing files have
/// no content.
fn read(path: &str) -> Option<Vec<u8>> {
    match path {
        "nested/app-12345678.js" => Some(b"export default 1".to_vec()),
        "plain.css" => Some(b"body{}".to_vec()),
        "remaining.txt" => Some(b"ordinary".to_vec()),
        _ => None,
    }
}

fn source() -> DirectoryAssetSource {
    DirectoryAssetSource::from_canonical_root("/srv/frontend".to_owned())
}

fn get(source: &DirectoryAssetSource, method: Method, path: &str, if_none_match: &[Option<String>]) -> Option<AssetResponse> {
    source.respond(method, path, read(path), if_none_match)
}

fn header<'a>(r: &'a AssetResponse, name: AssetHeader) -> Option<&'a str> {
    r.headers.iter().find(|(n, _)| *n == name).map(|(_, v)| v.as_str())
}

#[test]
fn get_returns_bytes_metadata_etag_and_immutable_cache_policy() {
    let response = get(&source(), Method::Get, "nested/app-12345678.js", &[]).unwrap();
    assert_eq!(response.status, 200);
    assert_eq!(header(&response, AssetHeader::ContentType), Some("text/javascript"));
    assert_eq!(header(&response, AssetHeader::ContentLength), Some("16"));
    assert_eq!(header(&response, AssetHeader::CacheControl), Some(IMMUTABLE_CACHE));
    assert!(header(&response, AssetHeader::ETag).unwrap().starts_with('"'));
    assert!(matches!(response.body, AssetBody::Bytes(bytes) if bytes == b"export default 1"));
}

#[test]
fn head_has_get_metadata_without_allocating_a_response_body() {
    let source = source();
    let get_response = get(&source, Method::Get, "plain.css", &[]).unwrap();
    let head = get(&source, Method::Head, "plain.css", &[]).unwrap();
    assert_eq!(head.status, 200);
    assert_eq!(header(&head, AssetHeader::ContentType), Some("text/css"));
    assert_eq!(header(&head, AssetHeader::ContentLength), Some("6"));
    assert_eq!(header(&head, AssetHeader::ETag), header(&get_response, AssetHeader::ETag));
    assert_eq!(header(&head, AssetHeader::CacheControl), Some(REVALIDATE_CACHE));
    assert!(matches!(head.body, AssetBody::Empty));
}

#[test]
fn ordinary_long_names_are_not_mistaken_for_content_hashes() {
    let response = get(&source(), Method::Get, "remaining.txt", &[]).unwrap();
    assert_eq!(header(&response, AssetHeader::CacheControl), Some(REVALIDATE_CACHE));
    assert!(!is_content_addressed("remaining.txt"));
    for path in ["app-C6R2N8QK.js", "app.30f2a8d9.js", "chunk_91a0f52c.css"] {
        assert!(is_content_addressed(path), "{path}");
    }
}

#[test]
fn matching_etag_returns_empty_not_modified_response() {
    let source = source();
    let initial = get(&source, Method::Get, "plain.css", &[]).unwrap();
    let etag = header(&initial, AssetHeader::ETag).unwrap().to_owned();
    let response = get(&source, Method::Get, "plain.css", &[Some(etag.clone())]).unwrap();
    assert_eq!(response.status, 304);
    assert_eq!(header(&response, AssetHeader::ETag), Some(etag.as_str()));
    assert!(matches!(response.body, AssetBody::Empty));
    assert!(header(&response, AssetHeader::ContentLength).is_none());
}

#[test]
fn missing_directories_and_traversal_are_not_exposed() {
    let source = source();
    for path in ["missing.js", "nested", "../secret", "nested/../../secret", "/absolute.js", r"nested\app-12345678.js"] {
        assert!(get(&source, Method::Get, path, &[]).is_none(), "{path} must not resolve");
    }
    // The path rules refuse traversal even when bytes would be there.
    for path in ["../secret", "nested/../../secret", "/absolute.js", r"nested\app-12345678.js", "./plain.css"] {
        assert!(source.respond(Method::Get, path, Some(b"secret".to_vec()), &[]).is_none(), "{path} must not resolve");
        assert!(!DirectoryAssetSource::is_resolvable(path), "{path}");
    }
    assert!(DirectoryAssetSource::is_resolvable("nested/app-12345678.js"));
}

#[test]
fn unsupported_methods_are_explicitly_rejected() {
    let response = get(&source(), Method::Post, "plain.css", &[]).unwrap();
    assert_eq!(response.status, 405);
    assert_eq!(header(&response, AssetHeader::Allow), Some("GET, HEAD"));
    assert!(matches!(response.body, AssetBody::Empty));
}

#[test]
fn directory_etag_is_the_quoted_sha256_of_the_content() {
    let response = get(&source(), Method::Get, "plain.css", &[]).unwrap();
    let digest = sha2::Sha256::digest(b"body{}");
    let hex: String = digest.iter().map(|b| format!("{b:02x}")).collect();
    assert_eq!(header(&response, AssetHeader::ETag), Some(format!("\"{hex}\"").as_str()));
    assert_eq!(inertia::assets::content_etag(b"body{}"), format!("\"{hex}\""));
    assert_eq!(source().root(), "/srv/frontend");
}

#[test]
fn content_hash_requires_a_distinct_hash_like_segment() {
    for path in ["assets/app-C6R2N8QK.js", "assets/app.30f2a8d9.js", "assets/chunk_91a0f52c.css"] {
        assert!(is_content_addressed(path), "{path}");
    }
    for path in ["remaining.txt", "assets/stylesheet.css", "images/pixel.bin"] {
        assert!(!is_content_addressed(path), "{path}");
    }
}

#[test]
fn guessed_content_types_depend_on_the_extension() {
    let source = source();
    let unknown = source.respond(Method::Get, "data.unknownext", Some(vec![1, 2]), &[]).unwrap();
    assert_eq!(header(&unknown, AssetHeader::ContentType), Some("application/octet-stream"));
    let png = source.respond(Method::Get, "logo.png", Some(vec![1]), &[]).unwrap();
    assert_eq!(header(&png, AssetHeader::ContentType), Some("image/png"));
}

#[test]
fn only_files_beneath_the_root_are_served() {
    let source = DirectoryAssetSource::from_canonical_root("/srv/public".to_owned());
    assert!(source.lies_beneath("/srv/public/app.js"));
    assert!(source.lies_beneath("/srv/public"));
    assert!(source.lies_beneath("/srv//public/a/"));
    assert!(!source.lies_beneath("/srv/publicity/app.js"));
    assert!(!source.lies_beneath("/etc/passwd"));
    assert!(!source.lies_beneath("relative/app.js"));
    let inside = source.serve(Method::Get, "app.js", Some("/srv/public/app.js"), Some(b"x".to_vec()), &[]);
    assert_eq!(inside.map(|r| r.status), Some(200));
    let outside = source.serve(Method::Get, "app.js", Some("/etc/app.js"), Some(b"x".to_vec()), &[]);
    assert!(outside.is_none());
    let unresolved = source.serve(Method::Get, "app.js", None, Some(b"x".to_vec()), &[]);
    assert!(unresolved.is_none());
}
