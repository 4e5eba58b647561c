use inertia::assets::manifest::ManifestEntry;
use inertia::assets::vite::{deployment_version, dev_tags, production_assets};
use inertia::page::metadata::PageMetadata;
use inertia::str_map::StrMap;
use sha2::Digest;

fn entry(file: &str, css: &[&str], imports: &[&str]) -> ManifestEntry {
    ManifestEntry {
        file: file.to_owned(),
        css: css.iter().map(|c| c.to_string()).collect(),
        assets: Vec::new(),
        imports: imports.iter().map(|i| i.to_string()).collect(),
    }
}

fn manifest() -> StrMap<ManifestEntry> {
    let mut m = StrMap::new();
    m.insert("src/app.ts".to_owned(), entry("assets/app-1a2b3c4d.js", &["assets/app.css"], &["_vendor.js"]));
    m.insert("_vendor.js".to_owned(), entry("assets/vendor-5e6f7a8b.js", &["assets/vendor.css"], &[]));
    m
}

fn hex(bytes: &[u8]) -> String {
    bytes.iter().map(|b| format!("{b:02x}")).collect()
}

#[test]
fn production_tags_and_version() {
    let (tags, version) = production_assets(&manifest(), "src/app.ts", "/build/", "public/assets.json").unwrap();
    let expected = [
        "<link rel=\"stylesheet\" href=\"/build/assets/app.css\">",
        "<link rel=\"stylesheet\" href=\"/build/assets/vendor.css\">",
        "<link rel=\"modulepreload\" href=\"/build/assets/vendor-5e6f7a8b.js\">",
        "<script type=\"module\" src=\"/build/assets/app-1a2b3c4d.js\"></script>",
    ]
    .join("");
    assert_eq!(tags, expected);
    let mut hasher = sha2::Sha256::new();
    for path in ["assets/app-1a2b3c4d.js", "assets/vendor-5e6f7a8b.js", "assets/app.css", "assets/vendor.css"] {
        hasher.update(path.as_bytes());
        hasher.update([0u8]);
    }
    assert_eq!(version, hex(&hasher.finalize()));
    assert_eq!(
        deployment_version(
            &vec!["assets/app-1a2b3c4d.js".to_owned(), "assets/vendor-5e6f7a8b.js".to_owned()],
            &vec!["assets/app.css".to_owned(), "assets/vendor.css".to_owned()]
        ),
        version
    );
}

#[test]
fn production_configuration_errors() {
    let missing = production_assets(&manifest(), "src/missing.ts", "/build", "public/assets.json").unwrap_err();
    assert_eq!(
        missing.message(),
        "inertia-core Vite configuration error\n\nEntry \"src/missing.ts\" was not found in:\npublic/assets.json\n\nAvailable entries:\n  - _vendor.js\n  - src/app.ts"
    );
    let relative = production_assets(&manifest(), "src/app.ts", "build", "m.json").unwrap_err();
    assert_eq!(
        relative.message(),
        "inertia-core Vite configuration error\n\nPublic path \"build\" must be an absolute, HTML-safe URL path"
    );
    assert!(production_assets(&manifest(), "src/app.ts", "/bu\"ild", "m.json").is_err());
    let mut broken = manifest();
    broken.insert("_vendor.js".to_owned(), entry("assets/vendor.js", &[], &["_gone.js"]));
    let error = production_assets(&broken, "src/app.ts", "build", "m.json").unwrap_err();
    assert_eq!(error.message(), "inertia-core Vite configuration error\n\nManifest import \"_gone.js\" was not found");
}

#[test]
fn entry_keys_use_forward_slashes() {
    let (tags, _) = production_assets(&manifest(), "src\\app.ts", "/static", "m.json").unwrap();
    assert!(tags.ends_with("<script type=\"module\" src=\"/static/assets/app-1a2b3c4d.js\"></script>"));
    // A root public path trims to nothing, which is not absolute.
    assert!(production_assets(&manifest(), "src/app.ts", "/", "m.json").is_err());
}

#[test]
fn development_tags_point_at_the_dev_server() {
    let tags = dev_tags("http://localhost:5173/", "/src/main.ts").unwrap();
    assert_eq!(
        tags,
        "<script type=\"module\" src=\"http://localhost:5173/@vite/client\"></script><script type=\"module\" src=\"http://localhost:5173/src/main.ts\"></script>"
    );
    assert_eq!(
        dev_tags("/relative", "src/main.ts").unwrap_err().message(),
        "inertia-core Vite configuration error\n\nVITE_DEV_SERVER_URL \"/relative\" must be an absolute http:// or https:// URL"
    );
    assert!(dev_tags("http://exa mple.com", "src/main.ts")
        .unwrap_err()
        .message()
        .starts_with("inertia-core Vite configuration error\n\nVITE_DEV_SERVER_URL \"http://exa mple.com\" is malformed: "));
    assert!(dev_tags("localhost:5173", "src/main.ts").is_err());
    assert!(dev_tags("ftp://host/", "src/main.ts").is_err());
    assert!(dev_tags("/relative", "src/main.ts").is_err());
    assert!(dev_tags("http://exa mple.com", "src/main.ts").is_err());
}

#[test]
fn directives_registered_twice_are_listed_once() {
    let metadata = PageMetadata::new().merge("posts").merge("posts").always("auth").always("auth");
    assert_eq!(metadata.merge_props(), ["posts"]);
    assert_eq!(metadata.always_props(), ["auth"]);
}
