//! Route-local props resolved only when a request needs them.
//!
//! Entries stay in a vector, in insertion order.  Standard props are
//! included on full visits and matching partial reloads unless excluded;
//! optional props only when a partial reload names them; always props on
//! every matching partial reload; deferred props are announced in the
//! `deferredProps` metadata and resolved when a later partial reload asks
//! for them.

use crate::json::{ensure_errors_prop, errors_key};
use crate::page::metadata::{
    default_group, default_group_name, narrowed, OnceProp, OncePropView, PageMetadata,
    PageMetadataView,
};
use crate::request::context::RequestContext;
use crate::request::selection::{selects, EffectiveRequest, SelectionMode, SelectionPlan};
use crate::str_map::StrMap;
use crate::text::{owned, prop_root, prop_root_of, push_unique, push_unique_string, strs};
use vstd::prelude::*;

verus! {

broadcast use vstd::string::group_string_axioms;

/// How a route-local prop is loaded.
#[derive(Debug)]
pub enum PropMode {
    /// Included unless a partial reload leaves it out.
    Standard,
    /// Included only when a partial reload names it.
    Optional,
    /// Included on every matching partial reload.
    Always,
    /// Announced in deferred group `group` and resolved on request.
    Deferred { group: String },
}

/// The abstract content of a [`PropMode`].
pub enum PropModeView {
    Standard,
    Optional,
    Always,
    Deferred { group: Seq<char> },
}

impl View for PropMode {
    type V = PropModeView;

    open spec fn view(&self) -> PropModeView {
        match self {
            PropMode::Standard => PropModeView::Standard,
            PropMode::Optional => PropModeView::Optional,
            PropMode::Always => PropModeView::Always,
            PropMode::Deferred { group } => PropModeView::Deferred { group: group@ },
        }
    }
}

/// One route-local prop: key, load mode, and optional once metadata under
/// its once key.
#[derive(Debug)]
pub struct PropEntry<R> {
    key: String,
    mode: PropMode,
    once: Option<(String, OnceProp)>,
    resolver: R,
}

/// What a [`PropEntry`] holds besides its resolver.
pub struct EntryView {
    pub key: Seq<char>,
    pub mode: PropModeView,
    pub once: Option<(Seq<char>, OncePropView)>,
}

impl<R> PropEntry<R> {
    /// The entry's key, load mode and once policy.
    pub closed spec fn content(&self) -> EntryView {
        EntryView {
            key: self.key@,
            mode: self.mode@,
            once: match self.once {
                Some((k, o)) => Some((k@, o@)),
                None => None,
            },
        }
    }
}

impl<R> View for PropEntry<R> {
    type V = (EntryView, R);

    /// The entry's content with its resolver.
    closed spec fn view(&self) -> (EntryView, R) {
        (self.content(), self.resolver)
    }
}

/// The entries and resolvers of a container holding `es` and `rs` after
/// builder calls that append the entries and resolvers of `calls`, in order.
pub open spec fn after_calls<R>(es: Seq<EntryView>, rs: Seq<R>, calls: Seq<(EntryView, R)>) -> (
    Seq<EntryView>,
    Seq<R>,
) {
    (es + calls.map_values(|c: (EntryView, R)| c.0), rs + calls.map_values(|c: (EntryView, R)| c.1))
}

spec fn views_of<R>(v: Seq<PropEntry<R>>) -> Seq<EntryView> {
    v.map_values(|e: PropEntry<R>| e.content())
}

spec fn resolvers_of<R>(v: Seq<PropEntry<R>>) -> Seq<R> {
    v.map_values(|e: PropEntry<R>| e.resolver)
}

/// The selection mode of an entry.
pub open spec fn entry_mode(m: PropModeView) -> SelectionMode {
    match m {
        PropModeView::Optional => SelectionMode::Optional,
        _ => SelectionMode::Standard,
    }
}

/// `after` is `before` with the metadata of entry `e` recorded: always and
/// deferred membership, and its once metadata.
pub open spec fn entry_applied(before: PageMetadataView, after: PageMetadataView, e: EntryView) -> bool {
    &&& after == (PageMetadataView {
        always: match e.mode {
            PropModeView::Always => push_unique(before.always, e.key),
            _ => before.always,
        },
        deferred_keys: after.deferred_keys,
        deferred_vals: after.deferred_vals,
        once_keys: after.once_keys,
        once_vals: after.once_vals,
        ..before
    })
    &&& match e.mode {
        PropModeView::Deferred { group } => {
            &&& after.has_group(group)
            &&& after.group(group) == push_unique(before.group(group), e.key)
            &&& forall|x: Seq<char>| x != group ==> (after.has_group(x) <==> before.has_group(x))
            &&& forall|x: Seq<char>| x != group ==> after.group(x) == before.group(x)
        },
        _ => after.deferred_keys == before.deferred_keys && after.deferred_vals == before.deferred_vals,
    }
    &&& match e.once {
        Some((k, o)) => {
            &&& after.once_keys.contains(k)
            &&& after.once_at(k) == o
            &&& forall|x: Seq<char>| x != k ==> (after.once_keys.contains(x) <==> before.once_keys.contains(x))
            &&& forall|x: Seq<char>|
                x != k && before.once_keys.contains(x) ==> after.once_at(x) == before.once_at(x)
        },
        None => after.once_keys == before.once_keys && after.once_vals == before.once_vals,
    }
}

/// `chain` steps from `before` to `after` through the entries of `es`, one
/// entry's metadata at a time.
pub open spec fn applied_chain(
    chain: Seq<PageMetadataView>,
    before: PageMetadataView,
    after: PageMetadataView,
    es: Seq<EntryView>,
) -> bool {
    &&& chain.len() == es.len() + 1
    &&& chain[0] == before
    &&& chain[es.len() as int] == after
    &&& forall|i: int| 0 <= i < es.len() ==> entry_applied(#[trigger] chain[i], chain[i + 1], es[i])
}

/// `after` is `before` with the metadata of every entry of `es` recorded, in
/// order.
pub open spec fn entries_applied(before: PageMetadataView, after: PageMetadataView, es: Seq<EntryView>) -> bool {
    exists|chain: Seq<PageMetadataView>| applied_chain(chain, before, after, es)
}

/// The distinct top-level keys of `keys`, in order of first appearance.
pub open spec fn roots_of(keys: Seq<Seq<char>>) -> Seq<Seq<char>>
    decreases keys.len(),
{
    if keys.len() == 0 {
        Seq::empty()
    } else {
        push_unique(roots_of(keys.drop_last()), prop_root(keys.last()))
    }
}

/// The keys of the entries.
pub open spec fn entry_keys(es: Seq<EntryView>) -> Seq<Seq<char>> {
    es.map_values(|e: EntryView| e.key)
}

/// Whether entry `e` is resolved for a request under final metadata `m`.
pub open spec fn entry_selected(
    ctx: crate::request::context::RequestContextView,
    pm: bool,
    m: PageMetadataView,
    e: EntryView,
) -> bool {
    selects(ctx, pm, m, e.key, entry_mode(e.mode))
}

/// Whether some entry of `es` with key `k` is selected.
pub open spec fn selected_key(
    ctx: crate::request::context::RequestContextView,
    pm: bool,
    m: PageMetadataView,
    es: Seq<EntryView>,
    k: Seq<char>,
) -> bool {
    exists|i: int| 0 <= i < es.len() && entry_selected(ctx, pm, m, #[trigger] es[i]) && es[i].key == k
}

/// Route-local props with lazy evaluation.
#[derive(Debug)]
pub struct ScopedInertiaProps<R> {
    entries: Vec<PropEntry<R>>,
}

/// What [`ScopedInertiaProps::into_page_props`] gives for entries `es`
/// with resolvers `res`: on success, the metadata as the entries record it
/// and narrowed to the response, the route props' top-level keys, and a
/// prop object holding `errors` (an empty object unless an entry supplies
/// it) and the selected entries, each with what `resolve` returned; on
/// failure, what `resolve` returned for a selected entry.  A partial reload
/// filters only when `partial_reload_enabled`.
pub open spec fn page_props_outcome<R, E, F: Fn(R) -> Result<serde_json::Value, E>>(
    es: Seq<EntryView>,
    res: Seq<R>,
    component: Seq<char>,
    ctx: crate::request::context::RequestContextView,
    partial_reload_enabled: bool,
    metadata: PageMetadataView,
    resolve: F,
    r: Result<(StrMap<serde_json::Value>, PageMetadata, Vec<String>), E>,
) -> bool {
    let pmf = partial_reload_enabled && ctx.partial_reload_matches(component);
    match r {
        Ok((props, md, roots)) => exists|pm: PageMetadataView| {
            &&& entries_applied(metadata, pm, es)
            &&& narrowed(pm, md@, ctx, component, props.keys())
            &&& strs(roots@) == roots_of(entry_keys(es))
            &&& forall|k: Seq<char>|
                #[trigger] props.has(k) <==> (k == errors_key() || selected_key(ctx, pmf, pm, es, k))
            &&& !selected_key(ctx, pmf, pm, es, errors_key()) ==> crate::json::json_text_of(
                props.at(errors_key()),
            ) == seq!['{', '}']
            &&& forall|k: Seq<char>|
                #[trigger] selected_key(ctx, pmf, pm, es, k) ==> exists|i: int|
                    0 <= i < es.len() && entry_selected(ctx, pmf, pm, #[trigger] es[i]) && es[i].key == k
                        && !selected_later(ctx, pmf, pm, es, i, k)
                        && call_ensures(resolve, (res[i],), Ok(props.at(k)))
        },
        Err(e) => exists|pm: PageMetadataView, i: int|
            #![trigger entries_applied(metadata, pm, es), es[i]]
        {
            &&& entries_applied(metadata, pm, es)
            &&& 0 <= i < es.len()
            &&& entry_selected(ctx, pmf, pm, es[i])
            &&& call_ensures(resolve, (res[i],), Err(e))
        },
    }
}

impl<R> ScopedInertiaProps<R> {
    /// The entries, in insertion order.
    pub closed spec fn entries_view(&self) -> Seq<EntryView> {
        views_of(self.entries@)
    }

    /// The resolvers, aligned with `entries_view()`.
    pub closed spec fn resolvers(&self) -> Seq<R> {
        resolvers_of(self.entries@)
    }

    /// Creates an empty container.
    pub fn new() -> (r: Self)
        ensures
            r.entries_view() == Seq::<EntryView>::empty(),
            r.resolvers() == Seq::<R>::empty(),
    {
        let r = ScopedInertiaProps { entries: Vec::new() };
        assert(r.entries_view() =~= Seq::<EntryView>::empty());
        assert(r.resolvers() =~= Seq::<R>::empty());
        r
    }

    /// Creates an empty container with space for `capacity` entries.
    pub fn with_capacity(capacity: usize) -> (r: Self)
        ensures
            r.entries_view() == Seq::<EntryView>::empty(),
            r.resolvers() == Seq::<R>::empty(),
    {
        let r = ScopedInertiaProps { entries: Vec::with_capacity(capacity) };
        assert(r.entries_view() =~= Seq::<EntryView>::empty());
        assert(r.resolvers() =~= Seq::<R>::empty());
        r
    }

    /// Containers with the same entries and resolvers resolve the same
    /// props, calling the same resolvers.
    pub proof fn law_same_entries_same_props<E, F: Fn(R) -> Result<serde_json::Value, E>>(
        a: Self,
        b: Self,
        component: Seq<char>,
        ctx: crate::request::context::RequestContextView,
        partial_reload_enabled: bool,
        metadata: PageMetadataView,
        resolve: F,
        r: Result<(StrMap<serde_json::Value>, PageMetadata, Vec<String>), E>,
    )
        requires
            a.entries_view() == b.entries_view(),
            a.resolvers() == b.resolvers(),
        ensures
            page_props_outcome(a.entries_view(), a.resolvers(), component, ctx, partial_reload_enabled, metadata, resolve, r)
                == page_props_outcome(
                b.entries_view(),
                b.resolvers(),
                component,
                ctx,
                partial_reload_enabled,
                metadata,
                resolve,
                r,
            ),
    {
    }

    /// `with_capacity` only reserves storage: whatever builder calls follow
    /// (each builder appends one entry and its resolver, `calls` listing
    /// them in order), the container it made and the one `new` made resolve
    /// the same props, calling the same resolvers.
    pub proof fn law_with_capacity_agrees_with_new<E, F: Fn(R) -> Result<serde_json::Value, E>>(
        made_by_new: Self,
        made_with_capacity: Self,
        calls: Seq<(EntryView, R)>,
        component: Seq<char>,
        ctx: crate::request::context::RequestContextView,
        partial_reload_enabled: bool,
        metadata: PageMetadataView,
        resolve: F,
        r: Result<(StrMap<serde_json::Value>, PageMetadata, Vec<String>), E>,
    )
        requires
            made_by_new.entries_view() == Seq::<EntryView>::empty(),
            made_by_new.resolvers() == Seq::<R>::empty(),
            made_with_capacity.entries_view() == Seq::<EntryView>::empty(),
            made_with_capacity.resolvers() == Seq::<R>::empty(),
        ensures
            ({
                let (es_a, rs_a) = after_calls(made_by_new.entries_view(), made_by_new.resolvers(), calls);
                let (es_b, rs_b) = after_calls(
                    made_with_capacity.entries_view(),
                    made_with_capacity.resolvers(),
                    calls,
                );
                page_props_outcome(es_a, rs_a, component, ctx, partial_reload_enabled, metadata, resolve, r)
                    == page_props_outcome(es_b, rs_b, component, ctx, partial_reload_enabled, metadata, resolve, r)
            }),
    {
    }

    fn entry(self, key: String, mode: PropMode, once: Option<(String, OnceProp)>, resolver: R) -> (r: Self)
        ensures
            r.entries_view() == self.entries_view().push(
                EntryView {
                    key: key@,
                    mode: mode@,
                    once: match once {
                        Some((k, o)) => Some((k@, o@)),
                        None => None,
                    },
                },
            ),
            r.resolvers() == self.resolvers().push(resolver),
    {
        let mut entries = self.entries;
        let ghost before = entries@;
        let e = PropEntry { key, mode, once, resolver };
        entries.push(e);
        let r = ScopedInertiaProps { entries };
        assert(r.entries_view() =~= views_of(before).push(e.content()));
        assert(r.resolvers() =~= resolvers_of(before).push(e.resolver));
        r
    }

    /// Adds a standard prop whose value is already computed; it is still
    /// left out when a partial reload omits it.
    pub fn value(self, prop: &str, value: R) -> (r: Self)
        ensures
            r.entries_view() == self.entries_view().push(
                EntryView { key: prop@, mode: PropModeView::Standard, once: None },
            ),
            r.resolvers() == self.resolvers().push(value),
    {
        self.entry(owned(prop), PropMode::Standard, None, value)
    }

    /// Adds a standard lazy prop, resolved on full visits and on matching
    /// partial reloads that include it.
    pub fn lazy(self, prop: &str, resolver: R) -> (r: Self)
        ensures
            r.entries_view() == self.entries_view().push(
                EntryView { key: prop@, mode: PropModeView::Standard, once: None },
            ),
            r.resolvers() == self.resolvers().push(resolver),
    {
        self.entry(owned(prop), PropMode::Standard, None, resolver)
    }

    /// Adds a prop resolved only when explicitly requested.
    pub fn optional(self, prop: &str, resolver: R) -> (r: Self)
        ensures
            r.entries_view() == self.entries_view().push(
                EntryView { key: prop@, mode: PropModeView::Optional, once: None },
            ),
            r.resolvers() == self.resolvers().push(resolver),
    {
        self.entry(owned(prop), PropMode::Optional, None, resolver)
    }

    /// Adds a prop included even during partial reloads.
    pub fn always(self, prop: &str, resolver: R) -> (r: Self)
        ensures
            r.entries_view() == self.entries_view().push(
                EntryView { key: prop@, mode: PropModeView::Always, once: None },
            ),
            r.resolvers() == self.resolvers().push(resolver),
    {
        self.entry(owned(prop), PropMode::Always, None, resolver)
    }

    /// Adds a deferred prop in the `"default"` group.
    pub fn defer(self, prop: &str, resolver: R) -> (r: Self)
        ensures
            r.entries_view() == self.entries_view().push(
                EntryView { key: prop@, mode: PropModeView::Deferred { group: default_group() }, once: None },
            ),
            r.resolvers() == self.resolvers().push(resolver),
    {
        self.entry(owned(prop), PropMode::Deferred { group: default_group_name() }, None, resolver)
    }

    /// Adds a deferred prop in `group`.
    pub fn defer_group(self, group: &str, prop: &str, resolver: R) -> (r: Self)
        ensures
            r.entries_view() == self.entries_view().push(
                EntryView { key: prop@, mode: PropModeView::Deferred { group: group@ }, once: None },
            ),
            r.resolvers() == self.resolvers().push(resolver),
    {
        self.entry(owned(prop), PropMode::Deferred { group: owned(group) }, None, resolver)
    }

    /// Adds a standard lazy prop with once metadata under its own key.
    pub fn once(self, prop: &str, resolver: R) -> (r: Self)
        ensures
            r.entries_view() == self.entries_view().push(
                EntryView {
                    key: prop@,
                    mode: PropModeView::Standard,
                    once: Some((prop@, OncePropView { prop: prop@, expires_at: None })),
                },
            ),
            r.resolvers() == self.resolvers().push(resolver),
    {
        self.entry(owned(prop), PropMode::Standard, Some((owned(prop), OnceProp::new(prop))), resolver)
    }

    /// Adds a standard lazy prop for `once.prop()` with once metadata under
    /// a custom key.
    pub fn once_with_key(self, key: &str, once: OnceProp, resolver: R) -> (r: Self)
        ensures
            r.entries_view() == self.entries_view().push(
                EntryView { key: once@.prop, mode: PropModeView::Standard, once: Some((key@, once@)) },
            ),
            r.resolvers() == self.resolvers().push(resolver),
    {
        let prop = owned(once.prop());
        self.entry(prop, PropMode::Standard, Some((owned(key), once)), resolver)
    }

    /// Adds an optional prop with once metadata under its own key.
    pub fn optional_once(self, prop: &str, resolver: R) -> (r: Self)
        ensures
            r.entries_view() == self.entries_view().push(
                EntryView {
                    key: prop@,
                    mode: PropModeView::Optional,
                    once: Some((prop@, OncePropView { prop: prop@, expires_at: None })),
                },
            ),
            r.resolvers() == self.resolvers().push(resolver),
    {
        self.entry(owned(prop), PropMode::Optional, Some((owned(prop), OnceProp::new(prop))), resolver)
    }

    /// Adds a deferred prop in the `"default"` group with once metadata.
    pub fn defer_once(self, prop: &str, resolver: R) -> (r: Self)
        ensures
            r.entries_view() == self.entries_view().push(
                EntryView {
                    key: prop@,
                    mode: PropModeView::Deferred { group: default_group() },
                    once: Some((prop@, OncePropView { prop: prop@, expires_at: None })),
                },
            ),
            r.resolvers() == self.resolvers().push(resolver),
    {
        self.entry(
            owned(prop),
            PropMode::Deferred { group: default_group_name() },
            Some((owned(prop), OnceProp::new(prop))),
            resolver,
        )
    }

    /// Adds a deferred prop in `group` with once metadata.
    pub fn defer_group_once(self, group: &str, prop: &str, resolver: R) -> (r: Self)
        ensures
            r.entries_view() == self.entries_view().push(
                EntryView {
                    key: prop@,
                    mode: PropModeView::Deferred { group: group@ },
                    once: Some((prop@, OncePropView { prop: prop@, expires_at: None })),
                },
            ),
            r.resolvers() == self.resolvers().push(resolver),
    {
        self.entry(
            owned(prop),
            PropMode::Deferred { group: owned(group) },
            Some((owned(prop), OnceProp::new(prop))),
            resolver,
        )
    }
}

impl<R> PropEntry<R> {
    /// Records the entry's always, deferred, and once metadata.
    fn apply_metadata(&self, metadata: &mut PageMetadata)
        ensures
            entry_applied(old(metadata)@, final(metadata)@, self.content()),
    {
        let ghost m0 = metadata@;
        match &self.mode {
            PropMode::Always => metadata.add_always(self.key.clone()),
            PropMode::Deferred { group } => metadata.add_deferred(group.clone(), self.key.clone()),
            _ => {},
        }
        let ghost m1 = metadata@;
        match &self.once {
            Some((key, once)) => metadata.add_once(key.clone(), once.duplicate()),
            None => {},
        }
        proof {
            let m2 = metadata@;
            assert forall|x: Seq<char>| #![trigger m2.group(x)] true implies m2.group(x) == m1.group(x) by {}
            assert forall|x: Seq<char>| #![trigger m2.once_at(x)] true implies m1.once_at(x) == m0.once_at(x) by {}
        }
    }
}

/// Appends the top-level key of `key` to `roots` unless it is there.
pub fn push_root(roots: &mut Vec<String>, key: &str)
    ensures
        strs(final(roots)@) == push_unique(strs(old(roots)@), prop_root(key@)),
{
    push_unique_string(roots, prop_root_of(key));
}

proof fn lemma_roots_step(keys: Seq<Seq<char>>, i: int)
    requires
        0 <= i < keys.len(),
    ensures
        roots_of(keys.take(i + 1)) == push_unique(roots_of(keys.take(i)), prop_root(keys[i])),
{
    assert(keys.take(i + 1).drop_last() =~= keys.take(i));
}

impl<R> ScopedInertiaProps<R> {
    /// Records every entry's metadata, decides which entries a request
    /// resolves, and lists the route's top-level prop keys.
    ///
    /// Returns the metadata with every entry's always, deferred, and once
    /// metadata recorded; one flag per entry, set when the request selects
    /// it under that metadata; and the entries' distinct top-level keys in
    /// order of first appearance.
    pub fn plan(
        &self,
        component: &str,
        request: &RequestContext,
        partial_reload_enabled: bool,
        metadata: PageMetadata,
    ) -> (r: (PageMetadata, Vec<bool>, Vec<String>))
        ensures
            entries_applied(metadata@, r.0@, self.entries_view()),
            r.1@.len() == self.entries_view().len(),
            forall|i: int|
                0 <= i < self.entries_view().len() ==> r.1@[i] == entry_selected(
                    request@,
                    partial_reload_enabled && request@.partial_reload_matches(component@),
                    r.0@,
                    #[trigger] self.entries_view()[i],
                ),
            strs(r.2@) == roots_of(entry_keys(self.entries_view())),
    {
        let ghost es = self.entries_view();
        let n = self.entries.len();
        let mut m = metadata;
        let ghost mut chain: Seq<PageMetadataView> = seq![m@];
        let mut i: usize = 0;
        while i < n
            invariant
                n == self.entries@.len(),
                es == self.entries_view(),
                0 <= i <= n,
                chain.len() == i + 1,
                chain[0] == metadata@,
                chain[i as int] == m@,
                forall|j: int| 0 <= j < i ==> entry_applied(#[trigger] chain[j], chain[j + 1], es[j]),
            decreases n - i,
        {
            let ghost before = m@;
            self.entries[i].apply_metadata(&mut m);
            proof {
                assert(es[i as int] == self.entries@[i as int].content());
                chain = chain.push(m@);
            }
            i = i + 1;
        }
        assert(applied_chain(chain, metadata@, m@, es));
        let mut flags: Vec<bool> = Vec::with_capacity(n);
        let mut roots: Vec<String> = Vec::new();
        {
            let plan = SelectionPlan::new(EffectiveRequest::new(request, partial_reload_enabled), component, &m);
            let mut i: usize = 0;
            while i < n
                invariant
                    n == self.entries@.len(),
                    es == self.entries_view(),
                    0 <= i <= n,
                    plan.context_view() == request@,
                    plan.metadata_view() == m@,
                    plan.partial_matches() == (partial_reload_enabled && request@.partial_reload_matches(component@)),
                    flags@.len() == i,
                    forall|j: int| 0 <= j < i ==> flags@[j] == entry_selected(
                        request@,
                        partial_reload_enabled && request@.partial_reload_matches(component@),
                        m@,
                        #[trigger] es[j],
                    ),
                    strs(roots@) == roots_of(entry_keys(es).take(i as int)),
                decreases n - i,
            {
                let e = &self.entries[i];
                assert(es[i as int] == e.content());
                let mode = match &e.mode {
                    PropMode::Optional => SelectionMode::Optional,
                    _ => SelectionMode::Standard,
                };
                flags.push(plan.includes(e.key.as_str(), mode));
                proof {
                    lemma_roots_step(entry_keys(es), i as int);
                }
                push_root(&mut roots, e.key.as_str());
                i = i + 1;
            }
            assert(entry_keys(es).take(n as int) =~= entry_keys(es));
        }
        (m, flags, roots)
    }

    /// Resolves the entries a request selects into the response's prop
    /// object, adds an empty `errors` object when no entry supplies one, and
    /// narrows the metadata to the response.
    ///
    /// Entries are resolved in insertion order by calling `resolve` on their
    /// resolvers; the first failure is returned.  On success, the prop
    /// object holds exactly `errors` and the keys of the selected entries,
    /// each holding what `resolve` returned for a selected entry with that
    /// key (the last one, when several share it).
    pub fn into_page_props<E, F: Fn(R) -> Result<serde_json::Value, E>>(
        self,
        component: &str,
        request: &RequestContext,
        partial_reload_enabled: bool,
        metadata: PageMetadata,
        resolve: F,
    ) -> (r: Result<(StrMap<serde_json::Value>, PageMetadata, Vec<String>), E>)
        requires
            forall|x: R| call_requires(resolve, (x,)),
        ensures
            page_props_outcome(
                self.entries_view(),
                self.resolvers(),
                component@,
                request@,
                partial_reload_enabled,
                metadata@,
                resolve,
                r,
            ),
    {
        let ghost es = self.entries_view();
        let ghost res = self.resolvers();
        let ghost pmf = partial_reload_enabled && request@.partial_reload_matches(component@);
        let (m, flags, roots) = self.plan(component, request, partial_reload_enabled, metadata);
        let ghost pm = m@;
        proof {
            assert(views_of(self.entries@) =~= es);
            assert(resolvers_of(self.entries@) =~= res);
        }
        let resolved = resolve_flagged(self.entries, &flags, resolve);
        match resolved {
            Err((i, err)) => {
                assert(entry_selected(request@, pmf, pm, es[i as int]));
                assert(call_ensures(resolve, (res[i as int],), Err(err)));
                assert(entries_applied(metadata@, pm, es));
                Err(err)
            },
            Ok(props) => {
                let mut props = props;
                let ghost before = props;
                ensure_errors_prop(&mut props);
                let md = m.into_response_metadata(request, component, Some(&props));
                proof {
                    assert forall|k: Seq<char>|
                        #[trigger] selected_key(request@, pmf, pm, es, k) implies exists|i: int|
                            0 <= i < es.len() && entry_selected(request@, pmf, pm, #[trigger] es[i]) && es[i].key == k
                                && !selected_later(request@, pmf, pm, es, i, k)
                                && call_ensures(resolve, (res[i],), Ok(props.at(k))) by {
                        let j = choose|j: int| 0 <= j < es.len() && entry_selected(request@, pmf, pm, #[trigger] es[j]) && es[j].key == k;
                        assert(flags@[j] && entry_keys(es)[j] == k);
                        assert(before.has(k));
                        if k == errors_key() {
                            assert(props.keys() == before.keys() && props.vals() == before.vals());
                        }
                        let i = choose|i: int| 0 <= i < es.len() && flags@[i] && entry_keys(es)[i] == k
                            && last_flagged(entry_keys(es), flags@, i, es.len() as int)
                            && call_ensures(resolve, (res[i],), Ok(before.at(k)));
                        assert(entry_selected(request@, pmf, pm, es[i]) && es[i].key == k);
                        assert(!selected_later(request@, pmf, pm, es, i, k)) by {
                            if selected_later(request@, pmf, pm, es, i, k) {
                                let l = choose|l: int| i < l < es.len() && entry_selected(request@, pmf, pm, #[trigger] es[l]) && es[l].key == k;
                                assert(flags@[l] == entry_selected(request@, pmf, pm, es[l]));
                                assert(entry_keys(es)[l] == es[l].key);
                            }
                        }
                    }
                    assert forall|k: Seq<char>|
                        #[trigger] props.has(k) <==> (k == errors_key() || selected_key(request@, pmf, pm, es, k)) by {
                        if k != errors_key() && props.has(k) {
                            assert(before.has(k));
                            let j = choose|j: int| 0 <= j < es.len() && flags@[j] && entry_keys(es)[j] == k;
                            assert(entry_selected(request@, pmf, pm, es[j]) && es[j].key == k);
                        }
                        if selected_key(request@, pmf, pm, es, k) {
                            let j = choose|j: int| 0 <= j < es.len() && entry_selected(request@, pmf, pm, #[trigger] es[j]) && es[j].key == k;
                            assert(flags@[j] && entry_keys(es)[j] == k);
                        }
                    }
                }
                Ok((props, md, roots))
            },
        }
    }
}

/// Whether an entry after position `i` is selected under key `k`.
pub open spec fn selected_later(
    ctx: crate::request::context::RequestContextView,
    pmf: bool,
    pm: PageMetadataView,
    es: Seq<EntryView>,
    i: int,
    k: Seq<char>,
) -> bool {
    exists|l: int| i < l < es.len() && entry_selected(ctx, pmf, pm, #[trigger] es[l]) && es[l].key == k
}

/// Whether position `j` is the last flagged position before `end` holding
/// its key.
pub open spec fn last_flagged(keys: Seq<Seq<char>>, flags: Seq<bool>, j: int, end: int) -> bool {
    forall|l: int| j < l < end ==> !(flags[l] && #[trigger] keys[l] == keys[j])
}

/// Resolves the entries whose flag is set, in order, into a prop object;
/// on the first failure, returns its entry's position and error.
fn resolve_flagged<R, E, F: Fn(R) -> Result<serde_json::Value, E>>(
    entries: Vec<PropEntry<R>>,
    flags: &Vec<bool>,
    resolve: F,
) -> (r: Result<StrMap<serde_json::Value>, (usize, E)>)
    requires
        flags@.len() == entries@.len(),
        forall|x: R| call_requires(resolve, (x,)),
    ensures
        ({
            let keys = entry_keys(views_of(entries@));
            let res = resolvers_of(entries@);
            match r {
                Ok(props) => {
                    &&& forall|k: Seq<char>|
                        #[trigger] props.has(k) <==> exists|j: int| 0 <= j < keys.len() && flags@[j] && keys[j] == k
                    &&& forall|k: Seq<char>|
                        #[trigger] props.has(k) ==> exists|j: int|
                            0 <= j < keys.len() && flags@[j] && keys[j] == k && last_flagged(keys, flags@, j, keys.len() as int)
                                && call_ensures(resolve, (res[j],), Ok(props.at(k)))
                },
                Err((i, e)) => i < keys.len() && flags@[i as int] && call_ensures(resolve, (res[i as int],), Err(e)),
            }
        }),
{
    let ghost orig = entries@;
    let ghost keys = entry_keys(views_of(orig));
    let ghost res = resolvers_of(orig);
    let mut work = entries;
    let n = work.len();
    let mut props: StrMap<serde_json::Value> = StrMap::new();
    let mut i: usize = 0;
    while i < n
        invariant
            orig == entries@,
            n == orig.len(),
            keys.len() == n,
            res.len() == n,
            keys == entry_keys(views_of(orig)),
            res == resolvers_of(orig),
            flags@.len() == n,
            forall|x: R| call_requires(resolve, (x,)),
            0 <= i <= n,
            work@ == orig.subrange(i as int, n as int),
            forall|k: Seq<char>|
                #[trigger] props.has(k) <==> exists|j: int| 0 <= j < i && flags@[j] && keys[j] == k,
            forall|k: Seq<char>|
                #[trigger] props.has(k) ==> exists|j: int|
                    0 <= j < i && flags@[j] && keys[j] == k && last_flagged(keys, flags@, j, i as int) && call_ensures(
                        resolve,
                        (res[j],),
                        Ok(props.at(k)),
                    ),
        decreases n - i,
    {
        let e = work.remove(0);
        assert(e == orig[i as int]);
        assert(keys[i as int] == e.key@);
        assert(res[i as int] == e.resolver);
        if flags[i] {
            let ghost before = props;
            let key = e.key;
            let result = resolve(e.resolver);
            assert(call_ensures(resolve, (res[i as int],), result));
            match result {
                Ok(v) => {
                    let ghost kv = key@;
                    props.insert(key, v);
                    proof {
                        assert forall|k: Seq<char>| #[trigger] props.has(k) implies exists|j: int|
                            0 <= j < i + 1 && flags@[j] && keys[j] == k && last_flagged(keys, flags@, j, i + 1)
                                && call_ensures(resolve, (res[j],), Ok(props.at(k))) by {
                            if k != kv {
                                assert(before.has(k));
                                let j = choose|j: int|
                                    0 <= j < i && flags@[j] && keys[j] == k && last_flagged(keys, flags@, j, i as int)
                                        && call_ensures(resolve, (res[j],), Ok(before.at(k)));
                                assert(last_flagged(keys, flags@, j, i + 1));
                            } else {
                                assert(last_flagged(keys, flags@, i as int, i + 1));
                            }
                        }
                        assert forall|k: Seq<char>| (exists|j: int| 0 <= j < i + 1 && flags@[j] && keys[j] == k) implies #[trigger] props.has(k) by {
                            if k != kv {
                                let j = choose|j: int| 0 <= j < i + 1 && flags@[j] && keys[j] == k;
                                assert(j < i);
                            }
                        }
                    }
                },
                Err(err) => {
                    assert(call_ensures(resolve, (res[i as int],), Err(err)));
                    return Err((i, err));
                },
            }
        } else {
            proof {
                assert forall|k: Seq<char>| (exists|j: int| 0 <= j < i + 1 && flags@[j] && keys[j] == k) implies #[trigger] props.has(k) by {
                    let j = choose|j: int| 0 <= j < i + 1 && flags@[j] && keys[j] == k;
                    assert(j < i);
                }
                assert forall|k: Seq<char>| #[trigger] props.has(k) implies exists|j: int|
                    0 <= j < i + 1 && flags@[j] && keys[j] == k && last_flagged(keys, flags@, j, i + 1)
                        && call_ensures(resolve, (res[j],), Ok(props.at(k))) by {
                    let j = choose|j: int|
                        0 <= j < i && flags@[j] && keys[j] == k && last_flagged(keys, flags@, j, i as int)
                            && call_ensures(resolve, (res[j],), Ok(props.at(k)));
                    assert(last_flagged(keys, flags@, j, i + 1));
                }
            }
        }
        i = i + 1;
    }
    Ok(props)
}
} // verus!
