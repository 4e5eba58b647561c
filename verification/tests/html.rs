use inertia::html::{escape_script_text, html_response_context, HtmlResponseContext};

fn object(entries: &[(&str, &str)]) -> serde_json::Value {
    let mut map = serde_json::Map::new();
    for (k, v) in entries {
        map.insert((*k).to_owned(), serde_json::Value::String((*v).to_owned()));
    }
    serde_json::Value::Object(map)
}

#[test]
fn script_safe_serializer_returns_bytes_without_changing_output() {
    let context = html_response_context(&object(&[("message", "safe")])).unwrap();
    assert_eq!(context.data_page(), r#"{"message":"safe"}"#);
}

#[test]
fn html_response_context_preserves_serialized_shape() {
    let context = html_response_context(&object(&[("component", "Home")])).unwrap();
    assert_eq!(context.data_page(), r#"{"component":"Home"}"#);
    assert_eq!(context, HtmlResponseContext::new(r#"{"component":"Home"}"#));
}

#[test]
fn unsafe_script_sequences_remain_escaped() {
    let context = html_response_context(&object(&[("unsafe", "</script><>&\u{2028}\u{2029}")])).unwrap();
    let page = context.data_page();
    assert!(!page.contains("</script>"));
    assert!(!page.contains('<'));
    assert!(!page.contains('>'));
    assert!(!page.contains('&'));
    assert!(!page.contains('\u{2028}'));
    assert!(!page.contains('\u{2029}'));
    assert!(page.contains(r"\u003C/script\u003E\u003C\u003E\u0026\u2028\u2029"));
}

#[test]
fn escaping_keeps_safe_text_and_denotes_the_same_json() {
    assert_eq!(escape_script_text("plain text é"), "plain text é");
    assert_eq!(escape_script_text("a<b>&c"), r"a\u003Cb\u003E\u0026c");
    let escaped = HtmlResponseContext::from_json_text(r#"{"k":"<&>"}"#);
    let reparsed: serde_json::Value = serde_json::from_str(escaped.data_page()).unwrap();
    assert_eq!(reparsed, object(&[("k", "<&>")]));
}

#[test]
fn manual_context_is_kept_verbatim() {
    let context = HtmlResponseContext::new("<raw>");
    assert_eq!(context.data_page(), "<raw>");
}

#[test]
fn script_safe_text_parses_back_to_the_same_value() {
    let value = object(&[("html", "</script><b>&amp;\u{2028}\u{2029}"), ("plain", "a\\u003Cb")]);
    let context = html_response_context(&value).unwrap();
    let parsed: serde_json::Value = serde_json::from_str(context.data_page()).unwrap();
    assert_eq!(parsed, value);
}
