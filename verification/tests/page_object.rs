use inertia::assets::AssetVersion;
use inertia::page::metadata::{OnceProp, PageMetadata, ScrollProps};
use inertia::page::model::Page;
use inertia::page::object::{page_json, page_response_context};
use inertia::page::shared::{insert_shared_prop_path, with_shared_props};
use inertia::props::policy::ScrollPage;
use inertia::str_map::StrMap;
use serde_json::Value;

fn json(text: &str) -> Value {
    serde_json::from_str(text).unwrap()
}

fn props_of(entries: &[(&str, &str)]) -> StrMap<Value> {
    let mut props = StrMap::new();
    for (key, text) in entries {
        props.insert((*key).to_owned(), json(text));
    }
    props
}

fn page_value(props: &StrMap<Value>, meta: &PageMetadata, version: Option<&AssetVersion>) -> Value {
    json(&page_json("Feed/Index", props, &StrMap::new(), "/feed", version, meta))
}

#[test]
fn page_serializes_v3_metadata() {
    let props = props_of(&[("errors", "{}"), ("posts", r#"[{"id":1}]"#)]);
    let meta = PageMetadata::new()
        .encrypt_history()
        .clear_history()
        .preserve_fragment()
        .merge("posts")
        .prepend("notifications")
        .deep_merge("conversations")
        .match_on("posts.id")
        .scroll("posts", ScrollProps::new("page", 1).next_page(2))
        .defer("analytics")
        .rescue("analytics")
        .share("auth")
        .once("plans");
    let version = AssetVersion::String("version-1".to_owned());
    let value = page_value(&props, &meta, Some(&version));

    assert_eq!(value["component"], "Feed/Index");
    assert_eq!(value["version"], "version-1");
    assert_eq!(value["encryptHistory"], true);
    assert_eq!(value["clearHistory"], true);
    assert_eq!(value["preserveFragment"], true);
    assert_eq!(value["mergeProps"], json(r#"["posts","posts.data"]"#));
    assert_eq!(value["prependProps"], json(r#"["notifications"]"#));
    assert_eq!(value["deepMergeProps"], json(r#"["conversations"]"#));
    assert_eq!(value["matchPropsOn"], json(r#"["posts.id"]"#));
    assert_eq!(value["scrollProps"]["posts"]["pageName"], "page");
    assert_eq!(value["scrollProps"]["posts"]["nextPage"], 2);
    assert_eq!(value["deferredProps"], json(r#"{"default":["analytics"]}"#));
    assert_eq!(value["rescuedProps"], json(r#"["analytics"]"#));
    assert_eq!(value["sharedProps"], json(r#"["auth"]"#));
    assert_eq!(value["onceProps"]["plans"], json(r#"{"prop":"plans","expiresAt":null}"#));
}

#[test]
fn page_json_writes_fields_in_wire_order() {
    let props = props_of(&[("errors", "{}")]);
    let text = page_json("Home", &props, &StrMap::new(), "/", None, &PageMetadata::new());
    assert_eq!(text, r#"{"component":"Home","props":{"errors":{}},"url":"/"}"#);
}

#[test]
fn unset_metadata_is_left_out() {
    let value = page_value(&props_of(&[]), &PageMetadata::new(), None);
    let object = value.as_object().unwrap();
    for key in [
        "version",
        "flash",
        "encryptHistory",
        "clearHistory",
        "preserveFragment",
        "mergeProps",
        "prependProps",
        "deepMergeProps",
        "matchPropsOn",
        "scrollProps",
        "deferredProps",
        "rescuedProps",
        "sharedProps",
        "onceProps",
    ] {
        assert!(!object.contains_key(key), "{key} should be left out");
    }
    assert_eq!(value["props"], json("{}"));
}

#[test]
fn numeric_versions_and_flash_serialize() {
    let mut flash = StrMap::new();
    flash.insert("notice".to_owned(), Value::String("saved".to_owned()));
    let text = page_json("A", &props_of(&[]), &flash, "/a", Some(&AssetVersion::Number(42)), &PageMetadata::new());
    let value = json(&text);
    assert_eq!(value["version"], 42);
    assert_eq!(value["flash"], json(r#"{"notice":"saved"}"#));
}

#[test]
fn once_with_custom_key_serializes_its_entry() {
    let meta = PageMetadata::new().once_with_key("billing", OnceProp::new("plans").expires_at(123));
    let value = page_value(&props_of(&[]), &meta, None);
    assert_eq!(value["onceProps"]["billing"], json(r#"{"prop":"plans","expiresAt":123}"#));
    assert!(value["onceProps"].get("plans").is_none());
}

#[test]
fn previous_pages_serialize_as_numbers_or_null() {
    let meta = PageMetadata::new().scroll("feed", ScrollProps::new("cursor", 3).previous_page(2));
    let value = page_value(&props_of(&[]), &meta, None);
    assert_eq!(
        value["scrollProps"]["feed"],
        json(r#"{"pageName":"cursor","previousPage":2,"nextPage":null,"currentPage":3}"#)
    );
}

#[test]
fn strings_are_escaped_as_serde_json_writes_them() {
    let text = page_json("Q\"\\\n\u{1}", &props_of(&[]), &StrMap::new(), "/é", None, &PageMetadata::new());
    assert_eq!(text, "{\"component\":\"Q\\\"\\\\\\n\\u0001\",\"props\":{},\"url\":\"/é\"}");
    assert_eq!(json(&text)["component"], "Q\"\\\n\u{1}");
}

#[test]
fn page_response_context_is_the_escaped_page_text() {
    let props = props_of(&[("html", r#""</script>""#)]);
    let context = page_response_context("A", &props, &StrMap::new(), "/", None, &PageMetadata::new());
    assert_eq!(context.data_page(), r#"{"component":"A","props":{"html":"\u003C/script\u003E"},"url":"/"}"#);
}

#[test]
fn scroll_pages_serialize_their_data_only() {
    let page = ScrollPage::new(vec![json("1"), json("2")], 3).next(4);
    assert_eq!(page.into_value(), json(r#"{"data":[1,2]}"#));
}

#[test]
fn route_local_shared_values_merge_before_global_values() {
    let mut props = props_of(&[]);
    let mut name = serde_json::Map::new();
    name.insert("name".to_owned(), Value::String("Route".to_owned()));
    assert!(insert_shared_prop_path(&mut props, "auth.user", Value::Object(name)));
    let mut global = serde_json::Map::new();
    global.insert("name".to_owned(), Value::String("Global".to_owned()));
    let (props, _) = with_shared_props(props, PageMetadata::new(), vec![("auth.user".to_owned(), Value::Object(global))]);
    assert_eq!(props.get("auth").unwrap()["user"]["name"], "Route");
}

#[test]
fn lazy_route_prop_roots_block_shared_props_even_when_omitted() {
    let props = props_of(&[("errors", "{}")]);
    let (props, meta) = with_shared_props(
        props,
        PageMetadata::new(),
        vec![("auth.user".to_owned(), json(r#"{"name":"Shared"}"#)), ("appName".to_owned(), json(r#""Demo""#))],
    );
    let value = page_value(&props, &meta, None);
    assert_eq!(value["props"]["auth"]["user"]["name"], "Shared");
    assert_eq!(value["props"]["appName"], "Demo");
    assert_eq!(value["sharedProps"], json(r#"["auth","appName"]"#));
}

#[test]
fn page_props_win_over_shared_props() {
    let props = props_of(&[("auth", r#"{"user":"page"}"#)]);
    let (props, meta) = with_shared_props(props, PageMetadata::new(), vec![("auth".to_owned(), json(r#""shared""#))]);
    assert_eq!(props.get("auth").unwrap(), &json(r#"{"user":"page"}"#));
    assert_eq!(props.get("errors").unwrap(), &json("{}"));
    assert!(meta.shared_props().is_empty());
}

#[test]
fn no_shared_props_leave_props_and_metadata_unchanged() {
    let (props, meta) = with_shared_props(props_of(&[]), PageMetadata::new(), Vec::new());
    assert_eq!(props.len(), 0);
    assert!(meta.shared_props().is_empty());
}

#[test]
fn dotted_shared_keys_nest_and_empty_roots_are_skipped() {
    let (props, meta) = with_shared_props(
        props_of(&[]),
        PageMetadata::new(),
        vec![(".x".to_owned(), json("1")), ("a.b.c".to_owned(), json("2"))],
    );
    assert_eq!(props.get("a").unwrap(), &json(r#"{"b":{"c":2}}"#));
    assert!(props.get("").is_none());
    assert_eq!(meta.shared_props(), ["a".to_owned()]);
}

#[test]
fn global_and_route_local_shared_props_insert_once() {
    let mut props = StrMap::new();
    let mut meta = PageMetadata::new();
    assert!(inertia::page::shared::insert_global_shared(&mut props, &mut meta, "app.name", json(r#""Demo""#)));
    assert_eq!(props.get("errors"), Some(&json("{}")));
    assert_eq!(props.get("app"), Some(&json(r#"{"name":"Demo"}"#)));
    assert!(!inertia::page::shared::insert_global_shared(&mut props, &mut meta, "app", json("1")));
    assert!(!inertia::page::shared::insert_global_shared(&mut props, &mut meta, "errors", json("1")));
    assert_eq!(meta.shared_props(), ["app".to_owned()]);

    let route_roots = vec!["user".to_owned()];
    let mut local = Vec::new();
    assert!(!inertia::page::shared::insert_shared(&mut props, &mut meta, &route_roots, &mut local, "user.id", json("1")));
    assert!(inertia::page::shared::insert_shared(&mut props, &mut meta, &route_roots, &mut local, "flags", json("[]")));
    assert_eq!(local, vec!["flags".to_owned()]);
    assert_eq!(meta.shared_props(), ["app".to_owned(), "flags".to_owned()]);
}

#[test]
fn pages_merge_shared_props_and_serialize() {
    let page = Page::from_parts("Dashboard", props_of(&[("user", r#""Ada""#)]), "/dashboard", Some("v1".to_owned()), PageMetadata::new())
        .with_shared_props(vec![("user".to_owned(), json(r#""Shared""#)), ("auth.id".to_owned(), json("7"))]);
    assert_eq!(page.component(), "Dashboard");
    assert_eq!(page.url(), "/dashboard");
    assert_eq!(page.asset_version().as_deref(), Some("v1"));
    let value = json(&page.to_json());
    assert_eq!(value["props"], json(r#"{"auth":{"id":7},"errors":{},"user":"Ada"}"#));
    assert_eq!(value["sharedProps"], json(r#"["auth"]"#));
    assert_eq!(value["version"], "v1");
    let numbered = Page::new("A", props_of(&[]), "/").version(AssetVersion::Number(3));
    assert_eq!(numbered.asset_version().as_deref(), Some("3"));
    assert!(numbered.html_context().data_page().contains(r#""version":3"#));
}

#[test]
fn page_metadata_clones_compare_and_default() {
    let meta = PageMetadata::new().merge("a").once("b").scroll("c", ScrollProps::new("page", 1)).defer("d");
    let copy = meta.clone();
    assert_eq!(copy, meta);
    assert_eq!(PageMetadata::default(), PageMetadata::new());
    assert_ne!(copy.clone().share("x"), meta);
}
