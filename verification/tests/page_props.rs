use std::cell::Cell;
use std::rc::Rc;

use inertia::assets::AssetVersion;
use inertia::page::metadata::{OnceProp, PageMetadata, ScrollProps};
use inertia::engine::plan_visit_page;
use inertia::guard::Inertia;
use inertia::page::dynamic::DynamicPage;
use inertia::page::model::{Page, PageDraft};
use inertia::props::pending::PendingProp;
use inertia::page::object::page_json;
use inertia::page::render::{finalize_visit_page, partial_reload_enabled, visit_page};
use inertia::transient::{StoredTransient, TransientData};
use inertia::visit::{Method, Visit};
use inertia::props::lazy::ScopedInertiaProps;
use inertia::request::context::{HeaderValues, RequestContext};
use inertia::request::selection::filter_props;
use inertia::str_map::StrMap;
use serde_json::Value;

type Resolver = Box<dyn Fn() -> Value>;

fn json(text: &str) -> Value {
    serde_json::from_str(text).unwrap()
}

fn context(inertia: bool, component: Option<&str>, data: Option<&str>, except: Option<&str>) -> RequestContext {
    let headers = HeaderValues {
        inertia: if inertia { Some("true".to_owned()) } else { None },
        partial_component: component.map(str::to_owned),
        partial_data: data.map(str::to_owned),
        partial_except: except.map(str::to_owned),
        ..HeaderValues::default()
    };
    RequestContext::from_header_values(&headers)
}

fn headers_context(headers: HeaderValues) -> RequestContext {
    RequestContext::from_header_values(&headers)
}

fn props(entries: &[(&str, &str)]) -> StrMap<Value> {
    let mut m = StrMap::new();
    for (k, v) in entries {
        m.insert((*k).to_owned(), json(v));
    }
    m
}

fn as_object(m: &StrMap<Value>) -> Value {
    let mut object = serde_json::Map::new();
    for i in 0..m.len() {
        object.insert(m.key_at(i).clone(), m.value_at(i).clone());
    }
    Value::Object(object)
}

fn counted(calls: &Rc<Cell<u32>>, value: &str) -> Resolver {
    let calls = Rc::clone(calls);
    let value = json(value);
    Box::new(move || {
        calls.set(calls.get() + 1);
        value.clone()
    })
}

fn constant(value: &str) -> Resolver {
    let value = json(value);
    Box::new(move || value.clone())
}

fn resolve(r: Resolver) -> Result<Value, ()> {
    Ok(r())
}

fn page(
    props: ScopedInertiaProps<Resolver>,
    component: &str,
    request: &RequestContext,
) -> (StrMap<Value>, PageMetadata) {
    let (values, metadata, _roots) =
        props.into_page_props(component, request, true, PageMetadata::new(), resolve).unwrap();
    (values, metadata)
}

#[test]
fn partial_data_filters_matching_component_props() {
    let request = context(true, Some("Events"), Some("events"), None);
    let mut p = props(&[("auth", r#"{"name":"Ada"}"#), ("events", "[1,2]"), ("categories", r#"["meetups"]"#)]);
    filter_props(&request, "Events", &mut p, &PageMetadata::new().always("auth"));
    assert_eq!(as_object(&p), json(r#"{"errors":{},"auth":{"name":"Ada"},"events":[1,2]}"#));
}

#[test]
fn partial_except_takes_precedence_over_partial_data() {
    let request = context(true, Some("Events"), Some("events"), Some("categories"));
    let mut p = props(&[("auth", r#"{"name":"Ada"}"#), ("events", "[1,2]"), ("categories", r#"["meetups"]"#)]);
    filter_props(&request, "Events", &mut p, &PageMetadata::new());
    assert_eq!(as_object(&p), json(r#"{"errors":{},"auth":{"name":"Ada"},"events":[1,2]}"#));
}

#[test]
fn partial_except_without_partial_data_excludes_listed_props() {
    let request = context(true, Some("Events"), None, Some("categories"));
    let mut p = props(&[("events", "[1,2]"), ("categories", r#"["meetups"]"#), ("filters", r#"{"open":true}"#)]);
    filter_props(&request, "Events", &mut p, &PageMetadata::new());
    assert_eq!(as_object(&p), json(r#"{"errors":{},"events":[1,2],"filters":{"open":true}}"#));
}

#[test]
fn partial_headers_are_ignored_for_different_components() {
    let request = context(true, Some("Events"), Some("events"), None);
    let mut p = props(&[("auth", r#"{"name":"Ada"}"#), ("events", "[1,2]")]);
    filter_props(&request, "Dashboard", &mut p, &PageMetadata::new());
    assert_eq!(as_object(&p), json(r#"{"errors":{},"auth":{"name":"Ada"},"events":[1,2]}"#));
}

#[test]
fn deferred_and_once_props_are_omitted_until_explicitly_requested() {
    let metadata = PageMetadata::new().defer("analytics").once("plans");
    let request = headers_context(HeaderValues {
        inertia: Some("true".to_owned()),
        except_once_props: Some("plans".to_owned()),
        ..HeaderValues::default()
    });
    let mut p = props(&[("analytics", r#"{"views":10}"#), ("plans", r#"["basic"]"#), ("user", r#"{"name":"Ada"}"#)]);
    filter_props(&request, "Dashboard", &mut p, &metadata);
    assert_eq!(as_object(&p), json(r#"{"errors":{},"user":{"name":"Ada"}}"#));

    let request = headers_context(HeaderValues {
        inertia: Some("true".to_owned()),
        partial_component: Some("Dashboard".to_owned()),
        partial_data: Some("analytics,plans".to_owned()),
        except_once_props: Some("plans".to_owned()),
        ..HeaderValues::default()
    });
    let mut p = props(&[("analytics", r#"{"views":10}"#), ("plans", r#"["basic"]"#), ("user", r#"{"name":"Ada"}"#)]);
    filter_props(&request, "Dashboard", &mut p, &metadata);
    assert_eq!(as_object(&p), json(r#"{"analytics":{"views":10},"errors":{},"plans":["basic"]}"#));
}

#[test]
fn request_reset_filters_merge_and_scroll_metadata() {
    let request = headers_context(HeaderValues {
        inertia: Some("true".to_owned()),
        partial_component: Some("Feed".to_owned()),
        partial_data: Some("posts".to_owned()),
        reset: Some("posts".to_owned()),
        ..HeaderValues::default()
    });
    let metadata = PageMetadata::new().scroll("posts", ScrollProps::new("page", 1).next_page(2)).match_on("posts.data.id");
    let mut p = props(&[("posts", r#"{"data":[1,2]}"#)]);
    filter_props(&request, "Feed", &mut p, &metadata);
    let response = metadata.into_response_metadata(&request, "Feed", Some(&p));
    assert_eq!(p.get("posts"), Some(&json(r#"{"data":[1,2]}"#)));
    assert!(response.merge_props().is_empty());
    assert!(response.match_props_on().is_empty());
    assert!(response.scroll_props().is_empty());
}

#[test]
fn reset_and_scroll_intent_are_ignored_when_partial_component_differs() {
    let request = headers_context(HeaderValues {
        inertia: Some("true".to_owned()),
        partial_component: Some("Other".to_owned()),
        partial_data: Some("posts".to_owned()),
        reset: Some("posts".to_owned()),
        infinite_scroll_merge_intent: Some("prepend".to_owned()),
        ..HeaderValues::default()
    });
    let metadata = PageMetadata::new().scroll("posts", ScrollProps::new("page", 1).next_page(2));
    let mut p = props(&[("posts", r#"{"data":[1,2]}"#)]);
    filter_props(&request, "Feed", &mut p, &metadata);
    let response = metadata.into_response_metadata(&request, "Feed", Some(&p));
    assert_eq!(p.get("posts"), Some(&json(r#"{"data":[1,2]}"#)));
    assert_eq!(response.merge_props(), ["posts.data"]);
    assert_eq!(response.scroll_props().get("posts").unwrap().next(), Some(2));
    assert!(response.prepend_props().is_empty());
}

#[test]
fn infinite_scroll_merge_intent_can_prepend_scroll_props() {
    let request = headers_context(HeaderValues {
        inertia: Some("true".to_owned()),
        partial_component: Some("Feed".to_owned()),
        partial_data: Some("posts".to_owned()),
        infinite_scroll_merge_intent: Some("prepend".to_owned()),
        ..HeaderValues::default()
    });
    let metadata = PageMetadata::new().scroll("posts", ScrollProps::new("page", 1).next_page(2));
    let mut p = props(&[("posts", r#"{"data":[1,2]}"#)]);
    filter_props(&request, "Feed", &mut p, &metadata);
    let response = metadata.into_response_metadata(&request, "Feed", Some(&p));
    assert_eq!(response.prepend_props(), ["posts.data"]);
    assert!(response.merge_props().is_empty());
    assert_eq!(response.scroll_props().get("posts").unwrap().next(), Some(2));
}

#[test]
fn lazy_props_are_only_resolved_when_included() {
    let calls = Rc::new(Cell::new(0));
    let scoped = ScopedInertiaProps::new()
        .value("user", constant(r#"{"name":"Ada"}"#))
        .lazy("stats", counted(&calls, r#"{"views":10}"#));
    let (values, _) = page(scoped, "Dashboard", &context(false, None, None, None));
    assert_eq!(calls.get(), 1);
    assert_eq!(values.get("stats"), Some(&json(r#"{"views":10}"#)));

    let calls = Rc::new(Cell::new(0));
    let scoped = ScopedInertiaProps::new()
        .value("user", constant(r#"{"name":"Ada"}"#))
        .lazy("stats", counted(&calls, r#"{"views":10}"#));
    let (values, _) = page(scoped, "Dashboard", &context(true, Some("Dashboard"), Some("user"), None));
    assert_eq!(calls.get(), 0);
    assert_eq!(values.get("user"), Some(&json(r#"{"name":"Ada"}"#)));
    assert!(values.get("stats").is_none());
}

#[test]
fn optional_props_resolve_only_when_explicitly_requested() {
    let calls = Rc::new(Cell::new(0));
    let scoped = ScopedInertiaProps::new().optional("audit", counted(&calls, r#"["created"]"#));
    let (values, _) = page(scoped, "Dashboard", &context(false, None, None, None));
    assert_eq!(calls.get(), 0);
    assert!(values.get("audit").is_none());

    let calls = Rc::new(Cell::new(0));
    let scoped = ScopedInertiaProps::new().optional("audit", counted(&calls, r#"["created"]"#));
    let (values, _) = page(scoped, "Dashboard", &context(true, Some("Dashboard"), Some("audit"), None));
    assert_eq!(calls.get(), 1);
    assert_eq!(values.get("audit"), Some(&json(r#"["created"]"#)));
}

#[test]
fn optional_props_respect_partial_except_precedence() {
    let calls = Rc::new(Cell::new(0));
    let scoped = ScopedInertiaProps::new().optional("audit", counted(&calls, r#"["created"]"#));
    let (values, _) = page(scoped, "Dashboard", &context(true, Some("Dashboard"), Some("audit"), Some("audit")));
    assert_eq!(calls.get(), 0);
    assert!(values.get("audit").is_none());
}

#[test]
fn lazy_errors_are_preserved_during_partial_reloads() {
    let calls = Rc::new(Cell::new(0));
    let scoped = ScopedInertiaProps::new()
        .value("user", constant(r#"{"name":"Ada"}"#))
        .lazy("errors", counted(&calls, r#"{"name":"Required"}"#))
        .lazy("stats", constant("10"));
    let (values, _) = page(scoped, "Form", &context(true, Some("Form"), Some("user"), None));
    assert_eq!(calls.get(), 1);
    assert_eq!(values.get("user"), Some(&json(r#"{"name":"Ada"}"#)));
    assert_eq!(values.get("errors"), Some(&json(r#"{"name":"Required"}"#)));
    assert!(values.get("stats").is_none());
}

#[test]
fn deferred_props_emit_metadata_and_resolve_only_when_requested() {
    let calls = Rc::new(Cell::new(0));
    let scoped = ScopedInertiaProps::new().defer_group("metrics", "analytics", counted(&calls, r#"{"views":10}"#));
    let (values, metadata) = page(scoped, "Dashboard", &context(false, None, None, None));
    assert_eq!(calls.get(), 0);
    assert!(values.get("analytics").is_none());
    let groups = metadata.deferred_props();
    assert_eq!(groups.len(), 1);
    assert_eq!(groups.key_at(0), "metrics");
    assert_eq!(groups.value_at(0), &vec!["analytics".to_owned()]);

    let calls = Rc::new(Cell::new(0));
    let scoped = ScopedInertiaProps::new().defer_group("metrics", "analytics", counted(&calls, r#"{"views":10}"#));
    let (values, metadata) = page(scoped, "Dashboard", &context(true, Some("Dashboard"), Some("analytics"), None));
    assert_eq!(calls.get(), 1);
    assert_eq!(values.get("analytics"), Some(&json(r#"{"views":10}"#)));
    assert!(metadata.deferred_props().is_empty());
}

#[test]
fn deferred_once_props_already_loaded_by_client_are_not_advertised() {
    let request = headers_context(HeaderValues {
        inertia: Some("true".to_owned()),
        except_once_props: Some("stats".to_owned()),
        ..HeaderValues::default()
    });
    let calls = Rc::new(Cell::new(0));
    let scoped = ScopedInertiaProps::new().defer_once("stats", counted(&calls, "10"));
    let (values, metadata) = page(scoped, "Dashboard", &request);
    assert_eq!(calls.get(), 0);
    assert!(values.get("stats").is_none());
    assert!(metadata.deferred_props().is_empty());
    let once = metadata.once_props().get("stats").unwrap();
    assert_eq!((once.prop(), once.expiration()), ("stats", None));
}

#[test]
fn always_lazy_props_survive_partial_reload_filtering() {
    let calls = Rc::new(Cell::new(0));
    let scoped = ScopedInertiaProps::new()
        .value("users", constant(r#"["Ada"]"#))
        .always("auth", counted(&calls, r#"{"user":{"name":"Ada"}}"#));
    let (values, _) = page(scoped, "Dashboard", &context(true, Some("Dashboard"), Some("users"), None));
    assert_eq!(calls.get(), 1);
    assert_eq!(values.get("users"), Some(&json(r#"["Ada"]"#)));
    assert_eq!(values.get("auth"), Some(&json(r#"{"user":{"name":"Ada"}}"#)));
}

#[test]
fn once_lazy_props_are_not_resolved_when_client_already_has_them() {
    let request = headers_context(HeaderValues {
        inertia: Some("true".to_owned()),
        except_once_props: Some("plans".to_owned()),
        ..HeaderValues::default()
    });
    let calls = Rc::new(Cell::new(0));
    let scoped = ScopedInertiaProps::new().once("plans", counted(&calls, r#"["basic"]"#));
    let (values, metadata) = page(scoped, "Billing", &request);
    assert_eq!(calls.get(), 0);
    assert!(values.get("plans").is_none());
    let once = metadata.once_props().get("plans").unwrap();
    assert_eq!((once.prop(), once.expiration()), ("plans", None));

    let request = headers_context(HeaderValues {
        inertia: Some("true".to_owned()),
        partial_component: Some("Billing".to_owned()),
        partial_data: Some("plans".to_owned()),
        except_once_props: Some("plans".to_owned()),
        ..HeaderValues::default()
    });
    let calls = Rc::new(Cell::new(0));
    let scoped = ScopedInertiaProps::new().once("plans", counted(&calls, r#"["basic"]"#));
    let (values, _) = page(scoped, "Billing", &request);
    assert_eq!(calls.get(), 1);
    assert_eq!(values.get("plans"), Some(&json(r#"["basic"]"#)));
}

#[test]
fn resolver_failures_stop_the_page() {
    let scoped: ScopedInertiaProps<Result<Value, &'static str>> =
        ScopedInertiaProps::new().value("ok", Ok(json("1"))).lazy("bad", Err("boom"));
    let result = scoped.into_page_props("Page", &context(false, None, None, None), true, PageMetadata::new(), |r| r);
    assert_eq!(result.err(), Some("boom"));
}

#[test]
fn with_capacity_agrees_with_new() {
    let request = context(false, None, None, None);
    let (a, ma) = page(ScopedInertiaProps::with_capacity(8), "Empty", &request);
    let (b, mb) = page(ScopedInertiaProps::new(), "Empty", &request);
    assert_eq!(a.len(), b.len());
    assert_eq!(a.get("errors"), b.get("errors"));
    assert_eq!(a.get("errors"), Some(&json("{}")));
    assert_eq!(ma.shared_props(), mb.shared_props());
}

#[test]
fn once_with_custom_key_omits_loaded_prop_until_requested() {
    let request = headers_context(HeaderValues {
        inertia: Some("true".to_owned()),
        except_once_props: Some("billing".to_owned()),
        ..HeaderValues::default()
    });
    let scoped = ScopedInertiaProps::new()
        .value("current_plan", constant(r#""basic""#))
        .value("plans", constant(r#"["basic","pro"]"#));
    let metadata = PageMetadata::new().once_with_key("billing", OnceProp::new("plans").expires_at(123));
    let (values, metadata, _roots) = scoped.into_page_props("Billing", &request, true, metadata, resolve).unwrap();
    let version = AssetVersion::String("version-1".to_owned());
    let value = json(&page_json("Billing", &values, &StrMap::new(), "/billing", Some(&version), &metadata));

    assert!(value["props"].get("plans").is_none());
    assert_eq!(value["onceProps"]["billing"], json(r#"{"prop":"plans","expiresAt":123}"#));
}

#[test]
fn lazy_props_can_borrow_values_for_immediate_rendering() {
    let request = context(false, None, None, None);
    let name = String::from("Ada");
    let by_name: Box<dyn Fn() -> Value + '_> = Box::new(|| Value::String(name.clone()));
    let upper: Box<dyn Fn() -> Value + '_> = Box::new(|| Value::String(name.to_uppercase()));
    let scoped = ScopedInertiaProps::new().value("name", by_name).lazy("upperName", upper);
    let (values, metadata, _roots) = scoped
        .into_page_props("Profile", &request, true, PageMetadata::new(), |r| Ok::<Value, ()>(r()))
        .unwrap();
    let page = Page::from_parts("Profile", values, "/profile", Some("version-1".to_owned()), metadata);
    let value = json(&page.to_json());
    assert_eq!(value["props"]["name"], "Ada");
    assert_eq!(value["props"]["upperName"], "ADA");
}

#[test]
fn page_equality_ignores_internal_route_prop_tracking() {
    let request = context(false, None, None, None);
    let scoped = ScopedInertiaProps::new().value("auth", constant(r#"{"user":{"name":"Ada"}}"#));
    let (values, metadata, _roots) = scoped.into_page_props("Users", &request, true, PageMetadata::new(), resolve).unwrap();
    let response = Page::from_parts("Users", values, "/users", Some("version-1".to_owned()), metadata);
    let manual = Page::from_parts(
        "Users",
        props(&[("errors", "{}"), ("auth", r#"{"user":{"name":"Ada"}}"#)]),
        "/users",
        Some("version-1".to_owned()),
        PageMetadata::new(),
    );
    assert_eq!(response.to_json(), manual.to_json());
}

#[test]
fn empty_shared_props_are_a_noop() {
    let page = Page::with_props_value("Empty", Value::Null, "/empty").with_shared_props(Vec::new());
    let value = json(&page.to_json());
    assert_eq!(value["props"], Value::Null);
    assert!(value.get("sharedProps").is_none());
}

#[test]
fn non_object_props_become_an_object_when_shared_props_arrive() {
    let page = Page::with_props_value("Empty", Value::Null, "/empty").with_shared_props(vec![("app".to_owned(), json("1"))]);
    let value = json(&page.to_json());
    assert_eq!(value["props"], json(r#"{"app":1,"errors":{}}"#));
    let object = Page::with_props_value("A", json(r#"{"b":2,"a":1}"#), "/").with_shared_props(vec![("a".to_owned(), json("9"))]);
    assert_eq!(json(&object.to_json())["props"], json(r#"{"a":1,"b":2,"errors":{}}"#));
}

fn feed_visit(method: Method) -> Visit {
    let headers = HeaderValues {
        inertia: Some("true".to_owned()),
        partial_component: Some("Feed".to_owned()),
        partial_data: Some("a".to_owned()),
        ..HeaderValues::default()
    };
    Visit::from_parts(&headers, method, Some("/feed"), None)
}

fn feed_page(method: Method) -> Value {
    let visit = feed_visit(method);
    let scoped = ScopedInertiaProps::new().value("a", constant("1")).value("b", constant("2"));
    let page = visit_page(&visit, "Feed", scoped, PageMetadata::new(), Vec::new(), None, StrMap::new(), None, resolve).unwrap();
    json(&page.to_json())
}

#[test]
fn partial_reloads_filter_props_on_get_visits_only() {
    let post = feed_page(Method::Post);
    assert_eq!(post["component"], "Feed");
    assert_eq!(post["url"], "/feed");
    assert_eq!(post["props"], json(r#"{"a":1,"b":2,"errors":{}}"#));
    let get = feed_page(Method::Get);
    assert_eq!(get["props"], json(r#"{"a":1,"errors":{}}"#));
    assert!(partial_reload_enabled(Method::Get));
    assert!(!partial_reload_enabled(Method::Post));
}

#[test]
fn planned_visit_pages_filter_partial_reloads_on_get_only() {
    use_plan(Method::Post, &["a", "b"]);
    use_plan(Method::Get, &["a"]);
}

fn use_plan(method: Method, expected: &[&str]) {
    let visit = feed_visit(method);
    let props = vec![PendingProp::value("a".to_owned(), 1u8), PendingProp::value("b".to_owned(), 2u8)];
    let (_metadata, selected, roots) = plan_visit_page(&visit, "Feed", false, false, false, props, None);
    let keys: Vec<&str> = selected.iter().map(|(prop, _)| prop.key()).collect();
    assert_eq!(keys, expected);
    assert_eq!(roots, vec!["a".to_owned(), "b".to_owned()]);
}

fn finalized_feed(method: Method) -> Value {
    let visit = feed_visit(method);
    let props = vec![PendingProp::value("a".to_owned(), 1u64), PendingProp::value("b".to_owned(), 2u64)];
    let shared = vec![PendingProp::value("auth".to_owned(), 3u64), PendingProp::value("a".to_owned(), 4u64)];
    let (page, rescued) = finalize_visit_page(
        &visit,
        "Feed",
        false,
        false,
        false,
        props,
        Some(shared),
        None,
        StrMap::new(),
        None,
        |n: u64| Ok::<Value, ()>(Value::from(n)),
    )
    .unwrap();
    assert!(rescued.is_empty());
    json(&page.to_json())
}

#[test]
fn finalized_pages_filter_partial_reloads_on_get_only() {
    let post = finalized_feed(Method::Post);
    assert_eq!(post["props"], json(r#"{"a":1,"auth":3,"b":2,"errors":{}}"#));
    assert_eq!(post["sharedProps"], json(r#"["auth"]"#));
    let get = finalized_feed(Method::Get);
    // Standard shared props are always sent, so `auth` survives the partial reload.
    assert_eq!(get["props"], json(r#"{"a":1,"auth":3,"errors":{}}"#));
    assert_eq!(get["url"], "/feed");
}

#[test]
fn visit_pages_carry_loaded_errors_old_input_and_flash() {
    let mut incoming = StrMap::new();
    incoming.insert("notice".to_owned(), json(r#""loaded""#));
    incoming.insert("kept".to_owned(), json("1"));
    let loaded = StoredTransient {
        flash: incoming,
        errors: Some(json(r#"{"email":"bad"}"#)),
        old_input: Some(json(r#"{"email":"x"}"#)),
    };
    let data = TransientData::loaded(loaded, "cookie");
    let mut flash = StrMap::new();
    flash.insert("notice".to_owned(), json(r#""handler""#));
    let visit = Visit::from_parts(&HeaderValues::default(), Method::Get, Some("/signup"), None);
    let scoped = ScopedInertiaProps::new().value("plan", constant(r#""basic""#));
    let page = visit_page(
        &visit,
        "Signup",
        scoped,
        PageMetadata::new(),
        vec![("auth.user".to_owned(), json(r#""Ada""#))],
        Some(&data),
        flash,
        Some(AssetVersion::String("v1".to_owned())),
        resolve,
    )
    .unwrap();
    let value = json(&page.to_json());
    assert_eq!(
        value["props"],
        json(r#"{"auth":{"user":"Ada"},"errors":{"email":"bad"},"oldInput":{"email":"x"},"plan":"basic"}"#)
    );
    assert_eq!(value["flash"], json(r#"{"kept":1,"notice":"handler"}"#));
    assert_eq!(value["sharedProps"], json(r#"["auth"]"#));
    assert_eq!(value["version"], "v1");
}

#[test]
fn dynamic_pages_carry_status_flags_and_flash() {
    let page = DynamicPage::new("Dashboard")
        .prop("count", json("3"))
        .status(201)
        .encrypt_history()
        .flash("notice", json(r#""saved""#))
        .flash("notice", json(r#""again""#));
    assert_eq!(page.status_code(), 201);
    let visit = Visit::from_parts(&HeaderValues::default(), Method::Get, Some("/dash"), None);
    let (page, rescued) = page.finalize(&visit, None, None, None, |v: Value| Ok::<Value, ()>(v)).unwrap();
    assert!(rescued.is_empty());
    let value = json(&page.to_json());
    assert_eq!(value["component"], "Dashboard");
    assert_eq!(value["props"], json(r#"{"count":3,"errors":{}}"#));
    assert_eq!(value["flash"], json(r#"{"notice":"again"}"#));
    assert_eq!(value["encryptHistory"], true);
}

#[test]
fn rendering_splits_object_props_and_wraps_other_values() {
    let inertia = Inertia::new(feed_visit(Method::Get));
    assert_eq!(inertia.visit().uri(), "/feed");
    let (page, _) = inertia.render("Feed", json(r#"{"b":2,"a":1}"#), None, None, None).unwrap();
    assert_eq!(json(&page.to_json())["props"], json(r#"{"a":1,"errors":{}}"#));
    let plain = Inertia::new(Visit::from_parts(&HeaderValues::default(), Method::Get, Some("/n"), None));
    let (page, _) = plain.render("Number", json("7"), None, None, None).unwrap();
    assert_eq!(json(&page.to_json())["props"], json(r#"{"errors":{},"value":7}"#));
    let started: DynamicPage<Value> = Inertia::page("Blank");
    assert_eq!(started.status_code(), 200);
}

#[test]
fn page_drafts_block_route_roots_and_remember_local_shared_roots() {
    let mut props = StrMap::new();
    props.insert("user".to_owned(), json(r#""ada""#));
    let mut draft = PageDraft::new(Page::new("Home", props, "/"), vec!["user".to_owned()]);
    assert!(draft.owns_prop_root("user.name"));
    assert!(!draft.insert_shared("user.name", json("1")));
    assert!(draft.insert_shared("nav.items", json("[1]")));
    assert!(draft.global_is_blocked("nav.other"));
    assert!(draft.global_is_blocked("user"));
    assert!(!draft.global_is_blocked("theme"));
    assert!(draft.insert_global_shared("theme", json(r#""dark""#)));
    assert!(!draft.insert_global_shared("theme", json(r#""light""#)));
    let value = json(&draft.finish().to_json());
    assert_eq!(value["props"], json(r#"{"errors":{},"nav":{"items":[1]},"theme":"dark","user":"ada"}"#));
    assert_eq!(value["sharedProps"], json(r#"["nav","theme"]"#));
}

#[test]
fn page_drafts_turn_other_props_into_an_object() {
    let mut draft = PageDraft::new(Page::with_props_value("Number", json("7"), "/n"), Vec::new());
    assert!(draft.insert_global_shared("auth", json("1")));
    let value = json(&draft.finish().to_json());
    assert_eq!(value["props"], json(r#"{"auth":1,"errors":{}}"#));
}

#[test]
fn builder_calls_agree_on_a_container_made_with_capacity() {
    let request = context(true, Some("Feed"), Some("a,c"), None);
    let build = |props: ScopedInertiaProps<Resolver>| {
        props.value("a", constant("1")).optional("b", constant("2")).defer("c", constant("3")).always("d", constant("4"))
    };
    let (a, ma) = page(build(ScopedInertiaProps::with_capacity(1)), "Feed", &request);
    let (b, mb) = page(build(ScopedInertiaProps::new()), "Feed", &request);
    assert_eq!(a, b);
    assert_eq!(a.len(), 4);
    assert_eq!(a.get("a"), Some(&json("1")));
    assert_eq!(a.get("b"), None);
    assert_eq!(a.get("c"), Some(&json("3")));
    assert_eq!(a.get("d"), Some(&json("4")));
    assert_eq!(ma, mb);
}
