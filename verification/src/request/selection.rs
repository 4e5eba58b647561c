//! Request-dependent prop inclusion planning.
//!
//! Answers whether standard, optional, deferred, always, and once props
//! should be resolved for one request.

use super::context::{RequestContext, RequestContextView};
use crate::page::metadata::{once_excluded, PageMetadata, PageMetadataView};
use crate::text::{str_eq, strs};
use vstd::prelude::*;

verus! {

broadcast use vstd::string::group_string_axioms;

/// How a prop takes part in partial reloads.
#[derive(Clone, Copy, Debug, PartialEq, Eq)]
pub enum SelectionMode {
    /// Included unless a partial reload leaves it out.
    Standard,
    /// Included only when a partial reload names it.
    Optional,
}

/// Whether `prop` is included in the response.
///
/// `partial_matches` says whether partial reloading is enabled and the
/// partial-reload headers target the page's component.
pub open spec fn selects(
    ctx: RequestContextView,
    partial_matches: bool,
    m: PageMetadataView,
    prop: Seq<char>,
    mode: SelectionMode,
) -> bool {
    let explicitly_requested = partial_matches && ctx.partial_data.contains(prop);
    if prop == "errors"@ {
        true
    } else if m.is_deferred(prop) && !explicitly_requested {
        false
    } else if once_excluded(m, ctx, prop) && !explicitly_requested {
        false
    } else if m.always.contains(prop) {
        true
    } else {
        let included = if !partial_matches {
            true
        } else if ctx.partial_except.len() > 0 {
            !ctx.partial_except.contains(prop)
        } else if ctx.partial_data.len() > 0 {
            ctx.partial_data.contains(prop)
        } else {
            true
        };
        (mode == SelectionMode::Standard && included) || (mode == SelectionMode::Optional
            && explicitly_requested && included)
    }
}

/// A request together with whether partial reloading applies to it.
#[derive(Clone, Copy)]
pub struct EffectiveRequest<'request> {
    context: &'request RequestContext,
    partial_reload_enabled: bool,
}

impl<'request> EffectiveRequest<'request> {
    /// The request context.
    pub closed spec fn context_view(&self) -> RequestContextView {
        self.context@
    }

    /// Whether partial reloading is enabled for this request.
    pub closed spec fn partial_enabled(&self) -> bool {
        self.partial_reload_enabled
    }

    /// Pairs `context` with whether partial reloading is enabled.
    pub fn new(context: &'request RequestContext, partial_reload_enabled: bool) -> (r: Self)
        ensures
            r.context_view() == context@,
            r.partial_enabled() == partial_reload_enabled,
    {
        EffectiveRequest { context, partial_reload_enabled }
    }

    /// The request context.
    pub fn context(self) -> (r: &'request RequestContext)
        ensures
            r@ == self.context_view(),
    {
        self.context
    }

    /// Whether a partial reload applies to `component`.
    pub fn partial_reload_matches(self, component: &str) -> (b: bool)
        ensures
            b == (self.partial_enabled() && self.context_view().partial_reload_matches(component@)),
    {
        self.partial_reload_enabled && self.context.partial_reload_matches(component)
    }
}

/// The inclusion decisions for the props of one page.
pub struct SelectionPlan<'request, 'metadata> {
    request: EffectiveRequest<'request>,
    metadata: &'metadata PageMetadata,
    partial_matches: bool,
}

impl<'request, 'metadata> SelectionPlan<'request, 'metadata> {
    /// The request context the plan answers for.
    pub closed spec fn context_view(&self) -> RequestContextView {
        self.request.context_view()
    }

    /// The metadata the plan consults.
    pub closed spec fn metadata_view(&self) -> PageMetadataView {
        self.metadata@
    }

    /// Whether a partial reload applies to the page.
    pub closed spec fn partial_matches(&self) -> bool {
        self.partial_matches
    }

    /// Plans the selection for `component` under `metadata`.
    pub fn new(
        request: EffectiveRequest<'request>,
        component: &str,
        metadata: &'metadata PageMetadata,
    ) -> (r: Self)
        ensures
            r.context_view() == request.context_view(),
            r.metadata_view() == metadata@,
            r.partial_matches() == (request.partial_enabled()
                && request.context_view().partial_reload_matches(component@)),
    {
        SelectionPlan { partial_matches: request.partial_reload_matches(component), request, metadata }
    }

    /// Whether `prop` is included in the response.
    pub fn includes(&self, prop: &str, mode: SelectionMode) -> (b: bool)
        ensures
            b == selects(
                self.context_view(),
                self.partial_matches(),
                self.metadata_view(),
                prop@,
                mode,
            ),
    {
        if str_eq(prop, "errors") {
            return true;
        }
        let context = self.request.context();
        let explicitly_requested = self.partial_matches && context.partial_data_contains(prop);
        let m = self.metadata;
        m.lemma_wf();
        if !explicitly_requested && is_deferred(m, prop) {
            return false;
        }
        if !explicitly_requested && is_once_excluded(m, context, prop) {
            return false;
        }
        if crate::text::slice_contains_str(m.always_props(), prop) {
            return true;
        }
        let included = if !self.partial_matches {
            true
        } else if !context.partial_except_is_empty() {
            !context.partial_except_contains(prop)
        } else if !context.partial_data_is_empty() {
            context.partial_data_contains(prop)
        } else {
            true
        };
        (matches!(mode, SelectionMode::Standard) && included) || (matches!(
            mode,
            SelectionMode::Optional,
        ) && explicitly_requested && included)
    }
}

/// Whether some deferred group lists `prop`.
pub fn is_deferred(m: &PageMetadata, prop: &str) -> (b: bool)
    ensures
        b == m@.is_deferred(prop@),
{
    let groups = m.deferred_props();
    proof { groups.lemma_len(); }
    let n = groups.len();
    let mut g: usize = 0;
    while g < n
        invariant
            n == groups.keys().len(),
            groups.keys().len() == groups.vals().len(),
            crate::page::metadata::group_views(groups.vals()) == m@.deferred_vals,
            0 <= g <= n,
            forall|j: int| 0 <= j < g ==> !(#[trigger] m@.deferred_vals[j]).contains(prop@),
        decreases n - g,
    {
        let list = groups.value_at(g);
        if crate::text::vec_contains_str(list, prop) {
            assert(m@.deferred_vals[g as int] == strs(list@));
            return true;
        }
        assert(m@.deferred_vals[g as int] == strs(list@));
        g = g + 1;
    }
    false
}

/// Whether the client already holds a once value for `prop`.
pub fn is_once_excluded(m: &PageMetadata, context: &RequestContext, prop: &str) -> (b: bool)
    ensures
        b == once_excluded(m@, context@, prop@),
{
    let once = m.once_props();
    proof { once.lemma_len(); }
    let n = once.len();
    let mut i: usize = 0;
    while i < n
        invariant
            n == once.keys().len(),
            once.keys().len() == once.vals().len(),
            once.keys() == m@.once_keys,
            once.vals().map_values(|o: crate::page::metadata::OnceProp| o@) == m@.once_vals,
            0 <= i <= n,
            forall|j: int|
                0 <= j < i ==> !(#[trigger] m@.once_vals[j].prop == prop@ && context@.except_once.contains(
                    m@.once_keys[j],
                )),
        decreases n - i,
    {
        let entry = once.value_at(i);
        assert(m@.once_vals[i as int] == entry@);
        if str_eq(entry.prop(), prop) && context.once_prop_is_excluded(once.key_at(i).as_str()) {
            return true;
        }
        i = i + 1;
    }
    false
}

/// Whether the request selects standard prop `prop` of `component`, with
/// partial reloading enabled.
pub open spec fn selected_prop(
    ctx: RequestContextView,
    component: Seq<char>,
    m: PageMetadataView,
) -> spec_fn(Seq<char>) -> bool {
    |prop: Seq<char>| selects(ctx, ctx.partial_reload_matches(component), m, prop, SelectionMode::Standard)
}

/// Removes the props of `component` that the request does not select, and
/// adds an empty `errors` object when there is none.
pub fn filter_props(
    context: &RequestContext,
    component: &str,
    props: &mut crate::str_map::StrMap<serde_json::Value>,
    metadata: &PageMetadata,
)
    ensures
        forall|k: Seq<char>|
            #[trigger] final(props).has(k) <==> (k == crate::json::errors_key() || (old(props).has(k)
                && selected_prop(context@, component@, metadata@)(k))),
        forall|k: Seq<char>|
            k != crate::json::errors_key() && #[trigger] final(props).has(k) ==> final(props).at(k) == old(props).at(k),
        old(props).has(crate::json::errors_key()) ==> final(props).at(crate::json::errors_key()) == old(props).at(
            crate::json::errors_key(),
        ),
{
    let plan = SelectionPlan::new(EffectiveRequest::new(context, true), component, metadata);
    let ghost f = selected_prop(context@, component@, metadata@);
    props.lemma_wf();
    let ghost ok = props.keys();
    let ghost ov = props.vals();
    let ghost om = *props;
    let mut keep: Vec<bool> = Vec::new();
    let n = props.len();
    let mut i: usize = 0;
    while i < n
        invariant
            0 <= i <= n,
            n == ok.len(),
            props.keys() == ok,
            f == selected_prop(context@, component@, metadata@),
            plan.context_view() == context@,
            plan.metadata_view() == metadata@,
            plan.partial_matches() == context@.partial_reload_matches(component@),
            keep.len() == i,
            forall|j: int| 0 <= j < i ==> keep@[j] == f(ok[j]),
        decreases n - i,
    {
        let b = plan.includes(props.key_at(i).as_str(), SelectionMode::Standard);
        keep.push(b);
        i = i + 1;
    }
    props.retain_flags(&keep);
    props.lemma_wf();
    proof {
        props.lemma_len();
        crate::lists::lemma_filter_by_flags(ok, keep@, f);
        let nk = props.keys();
        let nv = props.vals();
        assert forall|k: Seq<char>| nk.contains(k) <==> (om.has(k) && f(k)) by {
            crate::lists::lemma_filter_contains(ok, f, k);
        }
        assert forall|k: Seq<char>| #![trigger nk.contains(k)] nk.contains(k) implies nv[nk.index_of(k)] == om.at(k) by {
            let x = nk.index_of(k);
            crate::str_map::lemma_filter_by_len_eq(ok, ov, keep@);
            crate::str_map::lemma_filter_by_origin2(ok, ov, keep@, x);
            let o = choose|o: int|
                0 <= o < ok.len() && keep@[o] && ok[o] == crate::str_map::filter_by(ok, keep@)[x] && ov[o]
                    == crate::str_map::filter_by(ov, keep@)[x];
            crate::str_map::lemma_sorted_index_of(ok, o);
        }
    }
    let ghost mid = *props;
    crate::json::ensure_errors_prop(props);
    proof {
        assert(f(crate::json::errors_key())) by {
            reveal_strlit("errors");
            assert(crate::json::errors_key() =~= "errors"@);
        }
        if om.has(crate::json::errors_key()) {
            assert(mid.keys().contains(crate::json::errors_key()));
        }
    }
}

/// The validation errors prop is included in every response.
pub proof fn law_errors_always_selected(
    ctx: RequestContextView,
    partial_matches: bool,
    m: PageMetadataView,
    mode: SelectionMode,
)
    ensures
        selects(ctx, partial_matches, m, "errors"@, mode),
{
}

/// In a partial reload of the page's component, a prop listed in
/// `X-Inertia-Partial-Except` is left out, even when it is also listed in
/// `X-Inertia-Partial-Data` (the except list takes precedence); only the
/// errors prop and always-props escape.
pub proof fn law_partial_except_wins(
    ctx: RequestContextView,
    m: PageMetadataView,
    prop: Seq<char>,
    mode: SelectionMode,
)
    requires
        ctx.partial_except.contains(prop),
        prop != "errors"@,
        !m.always.contains(prop),
    ensures
        !selects(ctx, true, m, prop, mode),
{
}

/// Partial-reload headers aimed at another component change nothing: the
/// selection is the one for the same request without them.
pub proof fn law_foreign_partial_headers_ignored(
    ctx: RequestContextView,
    m: PageMetadataView,
    prop: Seq<char>,
    mode: SelectionMode,
)
    ensures
        selects(ctx, false, m, prop, mode) == selects(
            RequestContextView { partial_component: None, partial_data: Seq::empty(), partial_except: Seq::empty(), ..ctx },
            false,
            m,
            prop,
            mode,
        ),
{
}

/// An optional prop is included only when a partial reload of the page's
/// component names it in `X-Inertia-Partial-Data`, or when it is an
/// always-prop.
pub proof fn law_optional_only_when_requested(
    ctx: RequestContextView,
    partial_matches: bool,
    m: PageMetadataView,
    prop: Seq<char>,
)
    requires
        prop != "errors"@,
        selects(ctx, partial_matches, m, prop, SelectionMode::Optional),
    ensures
        (partial_matches && ctx.partial_data.contains(prop)) || m.always.contains(prop),
{
}

/// A deferred prop, and a once-prop the client already holds, are left out
/// until a partial reload of the page's component asks for them.
pub proof fn law_deferred_and_loaded_once_wait_for_request(
    ctx: RequestContextView,
    partial_matches: bool,
    m: PageMetadataView,
    prop: Seq<char>,
    mode: SelectionMode,
)
    requires
        prop != "errors"@,
        m.is_deferred(prop) || once_excluded(m, ctx, prop),
        selects(ctx, partial_matches, m, prop, mode),
    ensures
        partial_matches && ctx.partial_data.contains(prop),
{
}

/// An always-prop that is neither deferred nor held by the client as a
/// once value survives every partial-reload filter.
pub proof fn law_always_survives_filtering(
    ctx: RequestContextView,
    partial_matches: bool,
    m: PageMetadataView,
    prop: Seq<char>,
    mode: SelectionMode,
)
    requires
        m.always.contains(prop),
        !m.is_deferred(prop),
        !once_excluded(m, ctx, prop),
    ensures
        selects(ctx, partial_matches, m, prop, mode),
{
}

} // verus!
