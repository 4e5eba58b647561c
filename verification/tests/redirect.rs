use inertia::engine::version_mismatch;
use inertia::page::metadata::PageMetadata;
use inertia::request::context::{HeaderValues, RequestContext};
use inertia::engine::PendingKind;
use inertia::redirect::{
    check_transient_store, conflict_response, finalize_invalid_form, finalize_location, finalize_redirect,
    finalize_version_mismatch, redirect_response, CoreError, Location, Redirect, TargetHeader,
};
use inertia::str_map::StrMap;
use inertia::transient::{StoredTransient, TransientData};
use inertia::visit::Method;

fn loaded(entries: &[(&str, u32)], errors: Option<u32>) -> TransientData<u32> {
    let mut flash = StrMap::new();
    for (k, v) in entries {
        flash.insert((*k).to_owned(), *v);
    }
    TransientData::loaded(StoredTransient { flash, errors, old_input: None }, "memory")
}

fn flash_entries(m: &StrMap<u32>) -> Vec<(String, u32)> {
    (0..m.len()).map(|i| (m.key_at(i).clone(), *m.value_at(i))).collect()
}

#[test]
fn redirect_constructors_and_resolution() {
    let to = Redirect::<u32>::to("/users");
    assert_eq!(to.url(), "/users");
    assert_eq!(to.resolve(Some("/from")), "/users");
    let back = Redirect::<u32>::back();
    assert_eq!(back.url(), "/");
    assert_eq!(back.resolve(Some("/form")), "/form");
    assert_eq!(back.resolve(None), "/");
    let back_or = Redirect::<u32>::back_or("/dashboard");
    assert_eq!(back_or.resolve(None), "/dashboard");
    assert_eq!(back_or.resolve(Some("/x")), "/x");
    assert!(!Redirect::<u32>::new("/a").has_flash());
    assert!(Redirect::new("/a").flash("notice", 1u32).has_flash());
}

#[test]
fn redirects_are_method_aware() {
    let (get, _) = finalize_redirect(Redirect::<u32>::to("/users"), Method::Get, None, None);
    let get = get.unwrap();
    assert_eq!((get.status, get.header, get.target.as_str()), (302, TargetHeader::Location, "/users"));
    for method in [Method::Post, Method::Put, Method::Patch, Method::Delete] {
        let (r, _) = finalize_redirect(Redirect::<u32>::to("/users"), method, None, None);
        assert_eq!(r.unwrap().status, 303);
    }
}

#[test]
fn redirect_flash_is_added_on_top_of_reflashed_state() {
    let redirect = Redirect::back().flash("notice", 10u32).flash("extra", 11u32);
    let (r, data) = finalize_redirect(redirect, Method::Post, Some("/form"), Some(loaded(&[("notice", 1), ("kept", 2)], Some(5))));
    let r = r.unwrap();
    assert_eq!((r.status, r.target.as_str()), (303, "/form"));
    let next = data.unwrap().into_stored();
    assert_eq!(
        flash_entries(&next.flash),
        vec![("extra".to_owned(), 11), ("kept".to_owned(), 2), ("notice".to_owned(), 10)]
    );
    assert_eq!(next.errors, Some(5));
}

#[test]
fn locations_conflict_for_inertia_visits() {
    let location = Location::external("https://example.com/docs");
    let inertia = finalize_location(&location, true, Method::Post).unwrap();
    assert_eq!((inertia.status, inertia.header), (409, TargetHeader::InertiaLocation));
    let browser = finalize_location(&location, false, Method::Post).unwrap();
    assert_eq!((browser.status, browser.header), (303, TargetHeader::Location));
    let fragment = finalize_location(&Location::new("/docs#install"), true, Method::Get).unwrap();
    assert_eq!(fragment.header, TargetHeader::InertiaRedirect);
    assert_eq!(Location::new("/x").url(), "/x");
}

#[test]
fn invalid_targets_are_errors() {
    assert!(matches!(redirect_response(302, "http://exa mple.com/"), Err(CoreError::InvalidUri(_))));
    assert!(matches!(conflict_response("/a b"), Err(CoreError::InvalidUri(_))));
    assert!(matches!(redirect_response(302, "/caf\u{e9}"), Err(CoreError::InvalidUri(_))));
    assert!(matches!(redirect_response(302, "/ok"), Ok(_)));
}

#[test]
fn invalid_form_stores_errors_and_redirects_back() {
    let (r, data) = finalize_invalid_form(42u32, Some(7u32), "/users/create", loaded(&[("notice", 1)], Some(3)));
    let r = r.unwrap();
    assert_eq!((r.status, r.header, r.target.as_str()), (303, TargetHeader::Location, "/users/create"));
    let next = data.into_stored();
    assert_eq!(next.errors, Some(42));
    assert_eq!(next.old_input, Some(7));
    assert_eq!(flash_entries(&next.flash), vec![("notice".to_owned(), 1)]);
}

#[test]
fn version_mismatch_reloads_and_keeps_flash() {
    let (r, data) = finalize_version_mismatch("/feed?page=2", Some(loaded(&[("notice", 1)], None)));
    let r = r.unwrap();
    assert_eq!((r.status, r.header, r.target.as_str()), (409, TargetHeader::InertiaLocation, "/feed?page=2"));
    assert_eq!(flash_entries(&data.unwrap().into_stored().flash), vec![("notice".to_owned(), 1)]);
}

#[test]
fn transient_store_is_required_for_flash_and_validation() {
    assert!(matches!(check_transient_store(PendingKind::InvalidForm, false), Err(CoreError::MissingTransientStore)));
    assert!(check_transient_store(PendingKind::Redirect { has_flash: true }, false).is_err());
    assert!(check_transient_store(PendingKind::Page { has_flash: false }, false).is_ok());
    assert!(check_transient_store(PendingKind::Location, false).is_ok());
    assert!(check_transient_store(PendingKind::InvalidForm, true).is_ok());
    let error = CoreError::MissingTransientStore;
    assert_eq!(error.response_body(), error.message());
    assert_eq!(CoreError::InvalidUri("bad".to_owned()).response_body(), "failed to build Inertia response");
    assert_eq!(CoreError::InvalidHeader("x".to_owned()).message(), "invalid Inertia response header: x");
}

#[test]
fn only_inertia_get_visits_with_another_version_are_stale() {
    assert!(version_mismatch(Method::Get, true, Some("v2"), Some("v1")));
    assert!(version_mismatch(Method::Get, true, Some("v2"), None));
    assert!(!version_mismatch(Method::Get, true, Some("v2"), Some("v2")));
    assert!(!version_mismatch(Method::Post, true, Some("v2"), Some("v1")));
    assert!(!version_mismatch(Method::Get, false, Some("v2"), Some("v1")));
    assert!(!version_mismatch(Method::Get, true, None, Some("v1")));
}

#[test]
fn reset_props_lose_their_directives() {
    let request = RequestContext::from_header_values(&HeaderValues {
        inertia: Some("true".to_owned()),
        partial_component: Some("Feed".to_owned()),
        reset: Some("posts".to_owned()),
        ..HeaderValues::default()
    });
    let mut props: StrMap<u8> = StrMap::new();
    props.insert("posts".to_owned(), 1);
    props.insert("comments".to_owned(), 2);
    let metadata = PageMetadata::new().deep_merge("posts").deep_merge("comments").match_on("comments.id").defer("later");
    let response = metadata.into_response_metadata(&request, "Feed", Some(&props));
    assert_eq!(response.deep_merge_props(), ["comments"]);
    assert_eq!(response.match_props_on(), ["comments.id"]);
    assert_eq!(response.deferred_props().len(), 1);
}

#[test]
fn uri_and_transient_errors_carry_their_detail() {
    let error = redirect_response(302, "http://exa mple.com/").unwrap_err();
    assert!(error.message().starts_with("invalid Inertia URI reference: "));
    assert!(error.message().len() > "invalid Inertia URI reference: ".len());
    assert_eq!(
        CoreError::Transient("disk full".to_owned()).message(),
        "failed to load or commit Inertia transient state: disk full"
    );
    assert_eq!(CoreError::Transient("x".to_owned()).response_body(), "failed to build Inertia response");
}
