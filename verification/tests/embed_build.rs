use inertia::assets::embed_build::{
    is_brotli_candidate, is_hidden, is_textual_content, normalize_public_path, normalize_relative, served_content_type_of,
};

#[test]
fn relative_paths_are_normalized_or_refused() {
    assert_eq!(normalize_relative("assets\\app.js", "emitted path"), Ok("assets/app.js".to_owned()));
    assert_eq!(normalize_relative("src/main.ts", "manifest key"), Ok("src/main.ts".to_owned()));
    assert_eq!(
        normalize_relative("a\nb", "emitted path"),
        Err("emitted path contains a forbidden NUL, CR, or LF character".to_owned())
    );
    assert_eq!(normalize_relative("/etc/passwd", "manifest key"), Err("manifest key `/etc/passwd` must be relative".to_owned()));
    assert_eq!(normalize_relative("C:\\x.js", "emitted path"), Err("emitted path `C:\\x.js` must be relative".to_owned()));
    assert_eq!(
        normalize_relative("assets/../x.js", "emitted path"),
        Err("emitted path `assets/../x.js` contains an empty or traversal path segment".to_owned())
    );
    assert!(normalize_relative("assets//x.js", "emitted path").is_err());
    assert!(normalize_relative("", "emitted path").is_err());
    assert_eq!(normalize_relative("éa:b", "key"), Ok("éa:b".to_owned()));
}

#[test]
fn public_paths_are_normalized_or_refused() {
    assert_eq!(normalize_public_path("/"), Ok("/".to_owned()));
    assert_eq!(normalize_public_path("/build/"), Ok("/build".to_owned()));
    assert_eq!(normalize_public_path("/static/v1.2~x%20"), Ok("/static/v1.2~x%20".to_owned()));
    for raw in ["build", "", "//", "/a//b", "/a/../b", "/a b", "/a?b", "/é", "/a\"b", "/{x}"] {
        assert_eq!(normalize_public_path(raw), Err(format!("unsafe embedded frontend public_path `{raw}`")), "{raw}");
    }
}

#[test]
fn hidden_files_and_directories() {
    assert!(is_hidden(".hidden.txt"));
    assert!(is_hidden("assets/.cache/x.js"));
    assert!(!is_hidden("assets/app.js"));
    assert!(!is_hidden("./assets/app.js"));
    assert!(!is_hidden("../assets/app.js"));
}

#[test]
fn textual_content_types() {
    assert!(is_textual_content("text/css; charset=utf-8"));
    assert!(is_textual_content("application/ld+json"));
    assert!(is_textual_content("image/svg+xml"));
    assert!(is_textual_content("application/javascript"));
    assert!(!is_textual_content("image/png"));
    assert!(!is_textual_content(" text/css"));
    assert_eq!(served_content_type_of("text/css"), "text/css; charset=utf-8");
    assert_eq!(served_content_type_of("application/json"), "application/json; charset=utf-8");
    assert_eq!(served_content_type_of("application/ld+json"), "application/ld+json");
    assert_eq!(served_content_type_of("image/png"), "image/png");
}

#[test]
fn already_compressed_formats_are_not_recompressed() {
    assert!(is_brotli_candidate("assets/app.js"));
    assert!(is_brotli_candidate("LICENSE"));
    assert!(is_brotli_candidate(".gz"));
    assert!(!is_brotli_candidate("images/photo.JPG"));
    assert!(!is_brotli_candidate("fonts/x.woff2"));
    assert!(!is_brotli_candidate("assets/prebuilt.js.br"));
    assert!(is_brotli_candidate("archive.tar"));
}
