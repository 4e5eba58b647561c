//! Assembling the page a visit renders.
//!
//! The page's props are selected for the visit and resolved, shared props
//! are merged in, the errors and old input loaded for the request are
//! applied, and the flash loaded for the request is merged with the
//! handler's own.  A partial reload filters props on GET visits only.

use crate::assets::AssetVersion;
use crate::engine::{
    apply_transient_props, collect_resolved, merge_flash, opt_props, page_planned, plan_visit_page, resolved_collected,
    with_transient_props, Resolved,
};
use crate::json::{ensure_errors_prop, errors_key};
use crate::page::metadata::narrowed;
use crate::props::pending::PendingProp;
use crate::page::metadata::{PageMetadata, PageMetadataView};
use crate::page::model::{Page, PageProps};
use crate::page::shared::{shared_entries, shared_merged, with_shared_props};
use crate::props::lazy::{page_props_outcome, ScopedInertiaProps};
use crate::str_map::StrMap;
use crate::transient::TransientData;
use crate::visit::{Method, Visit};
use vstd::prelude::*;

verus! {

broadcast use vstd::string::group_string_axioms;

/// Whether `method` is GET, the only method whose partial reloads filter
/// props.
pub open spec fn is_get(method: Method) -> bool {
    method == Method::Get
}

/// Whether a partial reload may filter the props of a visit made with
/// `method`: only on GET visits; any other visit keeps all its props.
pub fn partial_reload_enabled(method: Method) -> (b: bool)
    ensures
        b == is_get(method),
{
    match method {
        Method::Get => true,
        _ => false,
    }
}

/// The errors loaded for the request, if any.
pub open spec fn loaded_errors(t: Option<&TransientData<serde_json::Value>>) -> Option<serde_json::Value> {
    match t {
        Some(d) => d.incoming_spec().errors,
        None => None,
    }
}

/// The old input loaded for the request, if any.
pub open spec fn loaded_old_input(t: Option<&TransientData<serde_json::Value>>) -> Option<serde_json::Value> {
    match t {
        Some(d) => d.incoming_spec().old_input,
        None => None,
    }
}

/// The flash loaded for the request (none without transient state).
pub open spec fn loaded_flash(t: Option<&TransientData<serde_json::Value>>) -> Map<Seq<char>, serde_json::Value> {
    match t {
        Some(d) => d.incoming_spec().flash.as_map(),
        None => Map::empty(),
    }
}

/// A copy of a string map of JSON values.
fn copy_values(m: &StrMap<serde_json::Value>) -> (r: StrMap<serde_json::Value>)
    ensures
        r.as_map() == m.as_map(),
{
    m.lemma_wf();
    let mut r: StrMap<serde_json::Value> = StrMap::new();
    let n = m.len();
    let mut i: usize = 0;
    while i < n
        invariant
            n == m.keys().len(),
            n == m.vals().len(),
            crate::str_map::sorted_keys(m.keys()),
            0 <= i <= n,
            r.keys() == m.keys().take(i as int),
            r.vals() == m.vals().take(i as int),
        decreases n - i,
    {
        proof {
            if i > 0 {
                let a = m.keys()[i - 1];
                let b = m.keys()[i as int];
                assert(crate::text::seq_lt(a, b));
                assert(r.keys().last() == a);
            }
        }
        let v = m.value_at(i).clone();
        r.push_last(crate::text::owned(m.key_at(i).as_str()), v);
        assert(m.keys().take(i + 1) =~= m.keys().take(i as int).push(m.keys()[i as int]));
        assert(m.vals().take(i + 1) =~= m.vals().take(i as int).push(m.vals()[i as int]));
        i = i + 1;
    }
    assert(m.keys().take(n as int) =~= m.keys());
    assert(m.vals().take(n as int) =~= m.vals());
    assert(r.as_map() =~= m.as_map());
    r
}

/// Clones an optional JSON value.
fn copy_option(o: Option<&serde_json::Value>) -> (r: Option<serde_json::Value>)
    ensures
        r == match o {
            Some(v) => Some(*v),
            None => None::<serde_json::Value>,
        },
{
    match o {
        Some(v) => Some(v.clone()),
        None => None,
    }
}

/// Whether `page` is what [`visit_page`] assembles: some outcome of
/// resolving the entries `es` (with resolvers `res`) for the visit, with
/// partial-reload filtering on GET visits only, whose props and metadata
/// then had `shared` merged in (see [`shared_merged`]) and the loaded
/// errors and old input applied; the flash is the loaded flash overridden
/// by `flash`, and the component, URL and version are the given ones.
pub open spec fn page_assembled<R, E, F: Fn(R) -> Result<serde_json::Value, E>>(
    es: Seq<crate::props::lazy::EntryView>,
    res: Seq<R>,
    component: Seq<char>,
    visit: Visit,
    metadata: PageMetadataView,
    resolve: F,
    shared: Seq<(Seq<char>, Seq<char>)>,
    transient: Option<&TransientData<serde_json::Value>>,
    flash: Map<Seq<char>, serde_json::Value>,
    version: Option<AssetVersion>,
    page: Page,
) -> bool {
    exists|values: StrMap<serde_json::Value>, md: PageMetadata, roots: Vec<String>, merged: StrMap<serde_json::Value>|
        {
            &&& #[trigger] page_props_outcome(
                es,
                res,
                component,
                visit@.context,
                is_get(visit@.method),
                metadata,
                resolve,
                Ok((values, md, roots)),
            )
            &&& #[trigger] shared_merged(values, md@, shared, merged, page.metadata_view())
            &&& page.props_spec() matches PageProps::Object(m) && m.as_map() == with_transient_props(
                merged.as_map(),
                loaded_errors(transient),
                loaded_old_input(transient),
            )
            &&& page.flash_spec().as_map() == loaded_flash(transient).union_prefer_right(flash)
            &&& page.component_view() == component
            &&& page.url_view() == visit@.uri
            &&& page.version_spec() == version
        }
}

/// Selects and resolves a visit's props (see
/// [`ScopedInertiaProps::into_page_props`]), with partial-reload filtering
/// enabled only for GET visits.
pub fn visit_page_props<R, E, F: Fn(R) -> Result<serde_json::Value, E>>(
    props: ScopedInertiaProps<R>,
    component: &str,
    visit: &Visit,
    metadata: PageMetadata,
    resolve: F,
) -> (r: Result<(StrMap<serde_json::Value>, PageMetadata, Vec<String>), E>)
    requires
        forall|x: R| call_requires(resolve, (x,)),
    ensures
        page_props_outcome(
            props.entries_view(),
            props.resolvers(),
            component@,
            visit@.context,
            is_get(visit@.method),
            metadata@,
            resolve,
            r,
        ),
{
    let enabled = partial_reload_enabled(visit.method());
    props.into_page_props(component, visit.context(), enabled, metadata, resolve)
}

/// Assembles the page a visit renders: its props are selected for the
/// visit (a partial reload filters on GET visits only) and resolved; the
/// shared props are merged in; the errors and old input loaded for the
/// request are applied; the flash is the loaded flash overridden by
/// `flash`; and the URL is the visit's.  A resolver failure is returned.
pub fn visit_page<R, E, F: Fn(R) -> Result<serde_json::Value, E>>(
    visit: &Visit,
    component: &str,
    props: ScopedInertiaProps<R>,
    metadata: PageMetadata,
    shared: Vec<(String, serde_json::Value)>,
    transient: Option<&TransientData<serde_json::Value>>,
    flash: StrMap<serde_json::Value>,
    version: Option<AssetVersion>,
    resolve: F,
) -> (r: Result<Page, E>)
    requires
        forall|x: R| call_requires(resolve, (x,)),
    ensures
        match r {
            Err(e) => page_props_outcome(
                props.entries_view(),
                props.resolvers(),
                component@,
                visit@.context,
                is_get(visit@.method),
                metadata@,
                resolve,
                Err(e),
            ),
            Ok(page) => page_assembled(
                props.entries_view(),
                props.resolvers(),
                component@,
                *visit,
                metadata@,
                resolve,
                shared_entries(shared@),
                transient,
                flash.as_map(),
                version,
                page,
            ),
        },
{
    let ghost es = props.entries_view();
    let ghost res = props.resolvers();
    let ghost shared0 = shared@;
    let ghost meta0 = metadata@;
    let ghost flash0 = flash.as_map();
    let outcome = visit_page_props(props, component, visit, metadata, resolve);
    let ghost o = outcome;
    assert(page_props_outcome(es, res, component@, visit@.context, is_get(visit@.method), meta0, resolve, o));
    match outcome {
        Err(e) => {
            assert(o == Err::<(StrMap<serde_json::Value>, PageMetadata, Vec<String>), E>(e));
            Err(e)
        },
        Ok(resolved) => {
            let ghost resolved0 = resolved;
            let (values, md, roots) = resolved;
            let ghost values0 = values;
            let ghost md0 = md;
            let ghost roots0 = roots;
            let (merged, md) = with_shared_props(values, md, shared);
            let ghost merged0 = merged;
            let mut props_out = merged;
            let (errors, old_input, incoming) = match transient {
                Some(data) => (copy_option(data.errors()), copy_option(data.old_input()), copy_values(data.incoming_flash())),
                None => (None, None, StrMap::new()),
            };
            assert(errors == loaded_errors(transient));
            assert(old_input == loaded_old_input(transient));
            assert(incoming.as_map() =~= loaded_flash(transient));
            apply_transient_props(&mut props_out, errors, old_input);
            let page_flash = merge_flash(incoming, flash);
            let mut page = Page::from_parts_version(component, props_out, visit.uri(), version, md);
            page.set_flash(page_flash);
            assert(shared_merged(values0, md0@, shared_entries(shared0), merged0, page.metadata_view()));
            assert(resolved0 == (values0, md0, roots0));
            assert(page_props_outcome(es, res, component@, visit@.context, is_get(visit@.method), meta0, resolve, Ok((values0, md0, roots0))));
            assert(page.props_spec() matches PageProps::Object(m) && m.as_map() == with_transient_props(
                merged0.as_map(),
                loaded_errors(transient),
                loaded_old_input(transient),
            ));
            assert(page.flash_spec().as_map() == loaded_flash(transient).union_prefer_right(flash0));
            assert(page_assembled(es, res, component@, *visit, meta0, resolve, shared_entries(shared0), transient, flash0, version, page));
            Ok(page)
        },
    }
}

/// Whether `after` is `before` with an `errors` prop ensured: an empty
/// object when there was none, every other prop unchanged.
pub open spec fn errors_ensured(before: StrMap<serde_json::Value>, after: StrMap<serde_json::Value>) -> bool {
    &&& after.as_map().dom() == before.as_map().dom().insert(errors_key())
    &&& forall|k: Seq<char>| before.has(k) ==> after.at(k) == before.at(k)
    &&& !before.has(errors_key()) ==> crate::json::json_text_of(after.at(errors_key())) == seq!['{', '}']
}

/// Whether `rs` are the resolutions of the selected candidates `selected`:
/// each candidate's key, what `resolve` returned for its resolver, whether
/// its failures are rescued, and whether it is a shared prop.
pub open spec fn resolutions_of<R, E, F: Fn(R) -> Result<serde_json::Value, E>>(
    selected: Seq<(PendingProp<R>, bool)>,
    rs: Seq<Resolved<E>>,
    resolve: F,
) -> bool {
    &&& rs.len() == selected.len()
    &&& forall|i: int|
        0 <= i < rs.len() ==> {
            &&& (#[trigger] rs[i]).0@ == selected[i].0.key_view()
            &&& rs[i].2 == selected[i].0.options_view().rescue
            &&& rs[i].3 == selected[i].1
            &&& call_ensures(resolve, (selected[i].0.resolver_spec(),), rs[i].1)
        }
}

/// Whether `r` is what [`finalize_visit_page`] gives: the page is planned
/// for the visit (a partial reload filters on GET visits only), the
/// selected props are resolved, and the resolutions collected; a failure
/// that is not rescued is returned.  Otherwise the `errors` prop is
/// ensured, the shared values are merged in, the loaded errors and old
/// input applied, and the metadata narrowed to the final props; the flash
/// is the loaded flash overridden by `flash`; the rescued failures are
/// returned beside the page.
pub open spec fn visit_page_finalized<R, E, F: Fn(R) -> Result<serde_json::Value, E>>(
    visit: Visit,
    component: Seq<char>,
    encrypt_history: bool,
    clear_history: bool,
    preserve_fragment: bool,
    props: Seq<PendingProp<R>>,
    shared: Seq<PendingProp<R>>,
    transient: Option<&TransientData<serde_json::Value>>,
    flash: Map<Seq<char>, serde_json::Value>,
    version: Option<AssetVersion>,
    resolve: F,
    r: Result<(Page, Vec<(String, E)>), E>,
) -> bool {
    match r {
        Err(e) => exists|planned: (PageMetadata, Vec<(PendingProp<R>, bool)>, Vec<String>), rs: Seq<Resolved<E>>|
            {
                &&& #[trigger] page_planned(
                    component,
                    encrypt_history,
                    clear_history,
                    preserve_fragment,
                    props,
                    shared,
                    visit@.context,
                    is_get(visit@.method),
                    planned,
                )
                &&& #[trigger] resolutions_of(planned.1@, rs, resolve)
                &&& resolved_collected(rs, planned.0@, Err(e))
            },
        Ok((page, rescued)) => exists|
            planned: (PageMetadata, Vec<(PendingProp<R>, bool)>, Vec<String>),
            rs: Seq<Resolved<E>>,
            values: StrMap<serde_json::Value>,
            shared_values: Vec<(String, serde_json::Value)>,
            md1: PageMetadata,
            with_errors: StrMap<serde_json::Value>,
            merged: StrMap<serde_json::Value>,
            md2: PageMetadataView,
        |
            {
                &&& #[trigger] page_planned(
                    component,
                    encrypt_history,
                    clear_history,
                    preserve_fragment,
                    props,
                    shared,
                    visit@.context,
                    is_get(visit@.method),
                    planned,
                )
                &&& #[trigger] resolutions_of(planned.1@, rs, resolve)
                &&& resolved_collected(rs, planned.0@, Ok((values, shared_values, md1, rescued)))
                &&& #[trigger] errors_ensured(values, with_errors)
                &&& #[trigger] shared_merged(with_errors, md1@, shared_entries(shared_values@), merged, md2)
                &&& page.props_spec() matches PageProps::Object(m) && m.as_map() == with_transient_props(
                    merged.as_map(),
                    loaded_errors(transient),
                    loaded_old_input(transient),
                ) && narrowed(md2, page.metadata_view(), visit@.context, component, m.keys())
                &&& page.flash_spec().as_map() == loaded_flash(transient).union_prefer_right(flash)
                &&& page.component_view() == component
                &&& page.url_view() == visit@.uri
                &&& page.version_spec() == version
            },
    }
}

/// Finalizes the page a visit renders from pending route and shared props,
/// as [`visit_page_finalized`] states: planning (partial reloads filter on
/// GET visits only), resolution, collection with rescue, the `errors` prop,
/// shared values, loaded errors, old input and flash, and metadata
/// narrowed to the final props.
pub fn finalize_visit_page<R, E, F: Fn(R) -> Result<serde_json::Value, E>>(
    visit: &Visit,
    component: &str,
    encrypt_history: bool,
    clear_history: bool,
    preserve_fragment: bool,
    props: Vec<PendingProp<R>>,
    shared: Option<Vec<PendingProp<R>>>,
    transient: Option<&TransientData<serde_json::Value>>,
    flash: StrMap<serde_json::Value>,
    version: Option<AssetVersion>,
    resolve: F,
) -> (r: Result<(Page, Vec<(String, E)>), E>)
    requires
        forall|x: R| call_requires(resolve, (x,)),
    ensures
        visit_page_finalized(
            *visit,
            component@,
            encrypt_history,
            clear_history,
            preserve_fragment,
            props@,
            opt_props(shared),
            transient,
            flash.as_map(),
            version,
            resolve,
            r,
        ),
{
    let ghost props0 = props@;
    let ghost shared0 = opt_props(shared);
    let ghost flash0 = flash.as_map();
    let planned = plan_visit_page(visit, component, encrypt_history, clear_history, preserve_fragment, props, shared);
    let ghost planned0 = planned;
    let (md0, selected, roots) = planned;
    let ghost sel = selected@;
    let mut rest = selected;
    let mut results: Vec<Resolved<E>> = Vec::new();
    let n = rest.len();
    let mut i: usize = 0;
    while i < n
        invariant
            n == sel.len(),
            0 <= i <= n,
            rest@ == sel.skip(i as int),
            results@.len() == i,
            forall|x: R| call_requires(resolve, (x,)),
            forall|j: int|
                0 <= j < i ==> {
                    &&& (#[trigger] results@[j]).0@ == sel[j].0.key_view()
                    &&& results@[j].2 == sel[j].0.options_view().rescue
                    &&& results@[j].3 == sel[j].1
                    &&& call_ensures(resolve, (sel[j].0.resolver_spec(),), results@[j].1)
                },
        decreases n - i,
    {
        assert(rest@[0] == sel[i as int]);
        let (prop, is_shared) = crate::engine::take_first_of(&mut rest);
        assert(sel.skip(i as int).drop_first() =~= sel.skip(i + 1));
        let (key, resolver, rescue) = prop.into_resolution();
        let value = resolve(resolver);
        results.push((key, value, rescue, is_shared));
        i = i + 1;
    }
    let ghost rs = results@;
    assert(resolutions_of(sel, rs, resolve));
    let collected = collect_resolved(results, md0);
    let ghost c0 = collected;
    match collected {
        Err(e) => {
            assert(c0 == Err::<(StrMap<serde_json::Value>, Vec<(String, serde_json::Value)>, PageMetadata, Vec<(String, E)>), E>(e));
            assert(page_planned(component@, encrypt_history, clear_history, preserve_fragment, props0, shared0, visit@.context, is_get(visit@.method), planned0));
            assert(resolutions_of(planned0.1@, rs, resolve));
            Err(e)
        },
        Ok(parts) => {
            let ghost parts0 = parts;
            let (values, shared_values, md1, rescued) = parts;
            let ghost values0 = values;
            let ghost shared_values0 = shared_values;
            let ghost md10 = md1;
            let mut with_errors = values;
            ensure_errors_prop(&mut with_errors);
            let ghost with_errors0 = with_errors;
            assert(with_errors0.as_map().dom() =~= values0.as_map().dom().insert(errors_key()));
            let (merged, md2) = with_shared_props(with_errors, md1, shared_values);
            let ghost merged0 = merged;
            let ghost md20 = md2@;
            let mut props_out = merged;
            let (errors, old_input, incoming) = match transient {
                Some(data) => (copy_option(data.errors()), copy_option(data.old_input()), copy_values(data.incoming_flash())),
                None => (None, None, StrMap::new()),
            };
            assert(incoming.as_map() =~= loaded_flash(transient));
            apply_transient_props(&mut props_out, errors, old_input);
            let md3 = md2.into_response_metadata(visit.context(), component, Some(&props_out));
            let ghost props_final = props_out;
            let page_flash = merge_flash(incoming, flash);
            let mut page = Page::from_parts_version(component, props_out, visit.uri(), version, md3);
            page.set_flash(page_flash);
            assert(page_planned(component@, encrypt_history, clear_history, preserve_fragment, props0, shared0, visit@.context, is_get(visit@.method), planned0));
            assert(resolutions_of(planned0.1@, rs, resolve));
            assert(parts0 == (values0, shared_values0, md10, rescued));
            assert(resolved_collected(rs, planned0.0@, Ok((values0, shared_values0, md10, rescued))));
            assert(errors_ensured(values0, with_errors0));
            assert(shared_merged(with_errors0, md10@, shared_entries(shared_values0@), merged0, md20));
            assert(page.props_spec() == PageProps::Object(props_final));
            assert(narrowed(md20, page.metadata_view(), visit@.context, component@, props_final.keys()));
            assert(page.flash_spec().as_map() == loaded_flash(transient).union_prefer_right(flash0));
            Ok((page, rescued))
        },
    }
}

} // verus!
