use inertia::request::context::{HeaderValues, RequestContext};

fn some(s: &str) -> Option<String> {
    Some(s.to_owned())
}

#[test]
fn request_context_parses_inertia_headers() {
    let headers = HeaderValues {
        inertia: some("true"),
        version: some("abc"),
        partial_component: some("Users/Index"),
        partial_data: some("users, stats"),
        reset: some("users"),
        error_bag: some("createUser"),
        infinite_scroll_merge_intent: some("append"),
        except_once_props: some("plans,features"),
        purpose: some("prefetch"),
        cache_control: some("max-age=0, no-cache"),
        ..HeaderValues::default()
    };
    let context = RequestContext::from_header_values(&headers);

    assert!(context.is_inertia());
    assert_eq!(context.version(), Some("abc"));
    assert_eq!(context.partial_component(), Some("Users/Index"));
    assert_eq!(context.partial_data(), ["users", "stats"]);
    assert_eq!(context.reset(), ["users"]);
    assert_eq!(context.error_bag(), Some("createUser"));
    assert_eq!(context.infinite_scroll_merge_intent(), Some("append"));
    assert_eq!(context.except_once_props(), ["plans", "features"]);
    assert!(context.is_prefetch());
    assert!(context.is_reload());
}

#[test]
fn absent_headers_mean_a_plain_visit() {
    let context = RequestContext::from_header_values(&HeaderValues::default());
    assert!(!context.is_inertia());
    assert_eq!(context.version(), None);
    assert!(context.partial_data().is_empty());
    assert!(!context.is_prefetch());
    assert!(!context.is_reload());
    assert!(!context.partial_reload_matches("Users/Index"));
}

#[test]
fn only_the_exact_true_value_marks_an_inertia_visit() {
    let context = RequestContext::from_header_values(&HeaderValues { inertia: some("TRUE"), ..HeaderValues::default() });
    assert!(!context.is_inertia());
}
