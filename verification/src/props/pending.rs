//! A prop waiting for resolution, and the page metadata its policies imply.

use super::policy::{
    dotted, join_dotted, LoadPolicy, LoadPolicyView, MergePolicy, MergePolicyView, OncePolicyView,
    Prop, PropOptions, PropOptionsView,
};
use crate::page::metadata::{
    scroll_target, OnceProp, OncePropView, PageMetadata, PageMetadataView, ScrollProps,
    ScrollPropsView,
};
use crate::request::selection::SelectionMode;
use crate::text::{push_unique, strs};
use vstd::prelude::*;

verus! {

broadcast use vstd::string::group_string_axioms;

/// `key` itself, or `"{key}.{path}"` for a nested path.
pub open spec fn qualify(key: Seq<char>, path: Option<Seq<char>>) -> Seq<char> {
    match path {
        Some(p) => dotted(key, p),
        None => key,
    }
}

/// `s` after adding each element of `xs` in turn, skipping those present.
pub open spec fn push_all_unique(s: Seq<Seq<char>>, xs: Seq<Seq<char>>) -> Seq<Seq<char>>
    decreases xs.len(),
{
    if xs.len() == 0 {
        s
    } else {
        push_unique(push_all_unique(s, xs.drop_last()), xs.last())
    }
}

proof fn lemma_push_all_single(s: Seq<Seq<char>>, x: Seq<char>)
    ensures
        push_all_unique(s, seq![x]) == push_unique(s, x),
        push_all_unique(s, Seq::empty()) == s,
{
    assert(seq![x].drop_last() =~= Seq::<Seq<char>>::empty());
    assert(push_all_unique(s, Seq::<Seq<char>>::empty()) == s);
}

/// The match path of an optional identity field, qualified by `key`.
pub open spec fn qualified_match(key: Seq<char>, m: Option<Seq<char>>) -> Seq<Seq<char>> {
    match m {
        Some(p) => seq![dotted(key, p)],
        None => Seq::empty(),
    }
}

/// The match paths a merge policy adds for prop `key`, in order.
pub open spec fn match_paths(key: Seq<char>, merge: Option<MergePolicyView>) -> Seq<Seq<char>> {
    match merge {
        Some(MergePolicyView::Append { path: _, match_on }) => qualified_match(key, match_on),
        Some(MergePolicyView::Prepend { path: _, match_on }) => qualified_match(key, match_on),
        Some(MergePolicyView::Deep { match_on }) => match_on.map_values(|p: Seq<char>| dotted(key, p)),
        Some(MergePolicyView::Scroll(s)) => qualified_match(key, s.match_on),
        None => Seq::empty(),
    }
}

/// The append-merge list after applying prop `key`'s merge policy.
pub open spec fn merge_after(m: PageMetadataView, key: Seq<char>, merge: Option<MergePolicyView>) -> Seq<
    Seq<char>,
> {
    match merge {
        Some(MergePolicyView::Append { path, match_on: _ }) => push_unique(m.merge, qualify(key, path)),
        Some(MergePolicyView::Scroll(_)) => if m.merge.contains(scroll_target(key)) || m.prepend.contains(
            scroll_target(key),
        ) {
            m.merge
        } else {
            m.merge.push(scroll_target(key))
        },
        _ => m.merge,
    }
}

/// The prepend-merge list after applying prop `key`'s merge policy.
pub open spec fn prepend_after(m: PageMetadataView, key: Seq<char>, merge: Option<MergePolicyView>) -> Seq<
    Seq<char>,
> {
    match merge {
        Some(MergePolicyView::Prepend { path, match_on: _ }) => push_unique(m.prepend, qualify(key, path)),
        _ => m.prepend,
    }
}

/// The deep-merge list after applying prop `key`'s merge policy.
pub open spec fn deep_after(m: PageMetadataView, key: Seq<char>, merge: Option<MergePolicyView>) -> Seq<
    Seq<char>,
> {
    match merge {
        Some(MergePolicyView::Deep { match_on: _ }) => push_unique(m.deep_merge, key),
        _ => m.deep_merge,
    }
}

/// The always list after applying prop `key`'s load policy.
pub open spec fn always_after(m: PageMetadataView, key: Seq<char>, load: LoadPolicyView) -> Seq<Seq<char>> {
    match load {
        LoadPolicyView::Always => push_unique(m.always, key),
        _ => m.always,
    }
}

/// The key under which a once policy is recorded: its custom key, else the
/// prop key.
pub open spec fn once_key(key: Seq<char>, o: OncePolicyView) -> Seq<char> {
    match o.key {
        Some(k) => k,
        None => key,
    }
}

/// The scroll metadata an infinite-scroll policy records.
pub open spec fn scroll_metadata(s: super::policy::ScrollPolicyView) -> ScrollPropsView {
    ScrollPropsView {
        page_name: s.page_name,
        previous_page: s.previous,
        next_page: s.next,
        current_page: s.current,
    }
}

/// `after` is `before` with the metadata of prop `key` under options `o`
/// recorded; once metadata only when `include_once`.
pub open spec fn metadata_applied(
    before: PageMetadataView,
    after: PageMetadataView,
    key: Seq<char>,
    o: PropOptionsView,
    include_once: bool,
) -> bool {
    &&& after == (PageMetadataView {
        always: always_after(before, key, o.load),
        merge: merge_after(before, key, o.merge),
        prepend: prepend_after(before, key, o.merge),
        deep_merge: deep_after(before, key, o.merge),
        match_on: push_all_unique(before.match_on, match_paths(key, o.merge)),
        scroll_keys: after.scroll_keys,
        scroll_vals: after.scroll_vals,
        deferred_keys: after.deferred_keys,
        deferred_vals: after.deferred_vals,
        once_keys: after.once_keys,
        once_vals: after.once_vals,
        ..before
    })
    &&& match o.load {
        LoadPolicyView::Deferred { group } => {
            &&& after.has_group(group)
            &&& after.group(group) == push_unique(before.group(group), key)
            &&& forall|x: Seq<char>| x != group ==> (after.has_group(x) <==> before.has_group(x))
            &&& forall|x: Seq<char>| x != group ==> after.group(x) == before.group(x)
        },
        _ => after.deferred_keys == before.deferred_keys && after.deferred_vals == before.deferred_vals,
    }
    &&& if include_once && o.once is Some {
        let k = once_key(key, o.once->0);
        &&& after.once_keys.contains(k)
        &&& after.once_at(k) == (OncePropView { prop: key, expires_at: o.once->0.expires_at })
        &&& forall|x: Seq<char>| x != k ==> (after.once_keys.contains(x) <==> before.once_keys.contains(x))
        &&& forall|x: Seq<char>|
            x != k && before.once_keys.contains(x) ==> after.once_at(x) == before.once_at(x)
    } else {
        after.once_keys == before.once_keys && after.once_vals == before.once_vals
    }
    &&& match o.merge {
        Some(MergePolicyView::Scroll(s)) => {
            &&& after.scroll_keys.contains(key)
            &&& after.scroll_at(key) == scroll_metadata(s)
            &&& forall|x: Seq<char>| x != key ==> (after.scroll_keys.contains(x) <==> before.scroll_keys.contains(x))
            &&& forall|x: Seq<char>|
                x != key && before.scroll_keys.contains(x) ==> after.scroll_at(x) == before.scroll_at(x)
        },
        _ => after.scroll_keys == before.scroll_keys && after.scroll_vals == before.scroll_vals,
    }
}

/// Whether a prop's once policy forces the client-cached value to refresh.
pub open spec fn fresh_once(o: PropOptionsView) -> bool {
    o.once matches Some(p) && p.fresh
}

/// `after` is `before` with the metadata of shared prop `key` recorded:
/// its own metadata (once metadata unless it is a fresh once prop), and, for
/// a standard or lazy prop, membership in the always list.
pub open spec fn shared_metadata_applied(
    before: PageMetadataView,
    after: PageMetadataView,
    key: Seq<char>,
    o: PropOptionsView,
) -> bool {
    &&& metadata_applied(
        before,
        PageMetadataView { always: always_after(before, key, o.load), ..after },
        key,
        o,
        !fresh_once(o),
    )
    &&& after.always == match o.load {
        LoadPolicyView::Standard | LoadPolicyView::Lazy => push_unique(before.always, key),
        _ => always_after(before, key, o.load),
    }
}

/// The selection mode of a prop under load policy `load`.
pub open spec fn mode_of(load: LoadPolicyView) -> SelectionMode {
    match load {
        LoadPolicyView::Optional => SelectionMode::Optional,
        _ => SelectionMode::Standard,
    }
}

/// Moves the metadata out of `m`, leaving empty metadata behind.
fn take_metadata(m: &mut PageMetadata) -> (r: PageMetadata)
    ensures
        r@ == old(m)@,
{
    let mut r = PageMetadata::new();
    std::mem::swap(&mut r, m);
    r
}

/// Builds `key`, or `"{key}.{path}"` for a nested path.
fn qualified(key: &str, path: &Option<String>) -> (out: String)
    ensures
        out@ == qualify(
            key@,
            match path {
                Some(p) => Some(p@),
                None => None,
            },
        ),
{
    match path {
        Some(p) => join_dotted(key, p.as_str()),
        None => key.to_owned(),
    }
}

/// A prop waiting for resolution: its key, its policies, and its resolver.
#[derive(Debug)]
pub struct PendingProp<R> {
    key: String,
    options: PropOptions,
    resolver: R,
}

impl<R> PendingProp<R> {
    /// The prop key.
    pub closed spec fn key_view(&self) -> Seq<char> {
        self.key@
    }

    /// The prop's policies.
    pub closed spec fn options_view(&self) -> PropOptionsView {
        self.options@
    }

    /// The value or resolver.
    pub closed spec fn resolver_spec(&self) -> R {
        self.resolver
    }

    /// Pairs a prop with its key.
    pub fn from_prop(key: String, prop: Prop<R>) -> (r: Self)
        ensures
            r.key_view() == key@,
            r.options_view() == prop.options_view(),
            r.resolver_spec() == prop.resolver_spec(),
    {
        let (resolver, options) = prop.into_parts();
        PendingProp { key, options, resolver }
    }

    /// A plain value under `key` with the standard policy.
    pub fn value(key: String, resolver: R) -> (r: Self)
        ensures
            r.key_view() == key@,
            r.options_view() == (PropOptionsView {
                load: LoadPolicyView::Standard,
                once: None,
                merge: None,
                rescue: false,
            }),
            r.resolver_spec() == resolver,
    {
        PendingProp { key, options: PropOptions::standard(), resolver }
    }

    /// The prop key.
    pub fn key(&self) -> (r: &str)
        ensures
            r@ == self.key_view(),
    {
        self.key.as_str()
    }

    /// The prop's policies.
    pub fn options(&self) -> (r: &PropOptions)
        ensures
            r@ == self.options_view(),
    {
        &self.options
    }

    /// Records the page metadata the prop's policies imply: always and
    /// deferred membership, once metadata (when `include_once`), and merge,
    /// deep-merge, match, and infinite-scroll directives.
    pub fn apply_metadata(&self, metadata: &mut PageMetadata, include_once: bool)
        ensures
            metadata_applied(old(metadata)@, final(metadata)@, self.key_view(), self.options_view(), include_once),
    {
        let ghost m0 = metadata@;
        let key = &self.key;
        match &self.options.load {
            LoadPolicy::Always => metadata.add_always(key.clone()),
            LoadPolicy::Deferred { group } => metadata.add_deferred(group.clone(), key.clone()),
            _ => {},
        }
        let ghost m1 = metadata@;
        if include_once {
            match &self.options.once {
                Some(once) => {
                    let once_key = match once.key() {
                        Some(k) => k.to_owned(),
                        None => key.clone(),
                    };
                    let mut value = OnceProp::new(key.as_str());
                    match once.expires_at_millis() {
                        Some(at) => {
                            value = value.expires_at(at);
                        },
                        None => {},
                    }
                    metadata.add_once(once_key, value);
                },
                None => {},
            }
        }
        let ghost m2 = metadata@;
        match &self.options.merge {
            Some(MergePolicy::Append { path, match_on }) => {
                let target = qualified(key.as_str(), path);
                let mut m = take_metadata(metadata);
                m = m.merge(target.as_str());
                match match_on {
                    Some(p) => {
                        let q = join_dotted(key.as_str(), p.as_str());
                        m = m.match_on(q.as_str());
                    },
                    None => {},
                }
                *metadata = m;
            },
            Some(MergePolicy::Prepend { path, match_on }) => {
                let target = qualified(key.as_str(), path);
                let mut m = take_metadata(metadata);
                m = m.prepend(target.as_str());
                match match_on {
                    Some(p) => {
                        let q = join_dotted(key.as_str(), p.as_str());
                        m = m.match_on(q.as_str());
                    },
                    None => {},
                }
                *metadata = m;
            },
            Some(MergePolicy::Deep { match_on }) => {
                let mut m = take_metadata(metadata);
                m = m.deep_merge(key.as_str());
                let ghost paths = strs(match_on@).map_values(|p: Seq<char>| dotted(key@, p));
                let mut i: usize = 0;
                while i < match_on.len()
                    invariant
                        0 <= i <= match_on.len(),
                        paths == strs(match_on@).map_values(|p: Seq<char>| dotted(key@, p)),
                        m@ == (PageMetadataView {
                            deep_merge: push_unique(m2.deep_merge, key@),
                            match_on: push_all_unique(m2.match_on, paths.take(i as int)),
                            ..m2
                        }),
                    decreases match_on.len() - i,
                {
                    let q = join_dotted(key.as_str(), match_on[i].as_str());
                    assert(paths.take(i + 1).drop_last() =~= paths.take(i as int));
                    m = m.match_on(q.as_str());
                    i = i + 1;
                }
                assert(paths.take(match_on.len() as int) =~= paths);
                assert(paths =~= match_paths(key@, self.options_view().merge));
                *metadata = m;
            },
            Some(MergePolicy::Scroll(policy)) => {
                let mut scroll = ScrollProps::new(policy.page_name(), policy.current());
                match policy.previous() {
                    Some(previous) => {
                        scroll = scroll.previous_page(previous);
                    },
                    None => {},
                }
                match policy.next() {
                    Some(next) => {
                        scroll = scroll.next_page(next);
                    },
                    None => {},
                }
                let mut m = take_metadata(metadata);
                m = m.scroll(key.as_str(), scroll);
                match policy.match_on() {
                    Some(p) => {
                        let q = join_dotted(key.as_str(), p);
                        m = m.match_on(q.as_str());
                    },
                    None => {},
                }
                *metadata = m;
            },
            None => {},
        }
        proof {
            let k = self.key_view();
            let o = self.options_view();
            let m3 = metadata@;
            assert(m3 == metadata@);
            match o.merge {
                Some(MergePolicyView::Append { path: _, match_on: Some(p) }) => lemma_push_all_single(m0.match_on, dotted(k, p)),
                Some(MergePolicyView::Prepend { path: _, match_on: Some(p) }) => lemma_push_all_single(m0.match_on, dotted(k, p)),
                Some(MergePolicyView::Scroll(sp)) => {
                    if sp.match_on is Some {
                        lemma_push_all_single(m0.match_on, dotted(k, sp.match_on->0));
                    }
                },
                _ => {},
            }
            assert(m1 == (PageMetadataView { always: always_after(m0, k, o.load), deferred_keys: m1.deferred_keys, deferred_vals: m1.deferred_vals, ..m0 }));
            assert(m2 == (PageMetadataView { once_keys: m2.once_keys, once_vals: m2.once_vals, ..m1 }));
            assert(m3.always == always_after(m0, k, o.load));
            assert(m3.merge == merge_after(m0, k, o.merge));
            assert(m3.prepend == prepend_after(m0, k, o.merge));
            assert(m3.deep_merge == deep_after(m0, k, o.merge));
            assert(m3.match_on == push_all_unique(m0.match_on, match_paths(k, o.merge)));
            assert(m3.deferred_keys == m2.deferred_keys && m3.deferred_vals == m2.deferred_vals);
            assert(m3.once_keys == m2.once_keys && m3.once_vals == m2.once_vals);
            assert(m2.scroll_keys == m0.scroll_keys && m2.scroll_vals == m0.scroll_vals);
            assert(m3.encrypt_history == m0.encrypt_history);
            assert(m3.rescued == m0.rescued);
            assert(m3.shared == m0.shared);
            assert(m1.once_keys == m0.once_keys && m1.once_vals == m0.once_vals);
            assert forall|x: Seq<char>| #![trigger m3.once_at(x)] true implies m3.once_at(x) == m2.once_at(x) && m1.once_at(x) == m0.once_at(x) by {}
            assert forall|x: Seq<char>| #![trigger m3.scroll_at(x)] true implies m2.scroll_at(x) == m0.scroll_at(x) by {}
            assert forall|x: Seq<char>| #![trigger m3.group(x)] true implies m3.group(x) == m1.group(x) by {}
        }
    }

    /// Records the metadata of a shared prop: its own metadata (once
    /// metadata unless it is a fresh once prop), and, for standard and lazy
    /// props, membership in the always list.
    pub fn apply_shared_metadata(&self, metadata: &mut PageMetadata)
        ensures
            shared_metadata_applied(old(metadata)@, final(metadata)@, self.key_view(), self.options_view()),
    {
        let ghost m0 = metadata@;
        let fresh = self.is_fresh_once();
        self.apply_metadata(metadata, !fresh);
        let ghost m1 = metadata@;
        match &self.options.load {
            LoadPolicy::Standard | LoadPolicy::Lazy => metadata.add_always(self.key.clone()),
            _ => {},
        }
        proof {
            let k = self.key_view();
            let o = self.options_view();
            let m2 = metadata@;
            assert(PageMetadataView { always: always_after(m0, k, o.load), ..m2 } == m1);
        }
    }

    /// How the prop takes part in partial reloads: optional props only when
    /// requested, every other prop as a standard one.
    pub fn mode(&self) -> (r: SelectionMode)
        ensures
            r == mode_of(self.options_view().load),
    {
        match &self.options.load {
            LoadPolicy::Optional => SelectionMode::Optional,
            _ => SelectionMode::Standard,
        }
    }

    /// Whether the prop's once policy forces a refresh.
    pub fn is_fresh_once(&self) -> (r: bool)
        ensures
            r == fresh_once(self.options_view()),
    {
        match &self.options.once {
            Some(once) => once.is_fresh(),
            None => false,
        }
    }

    /// Splits the prop into its key, its resolver, and whether resolver
    /// failures are rescued.
    pub fn into_resolution(self) -> (r: (String, R, bool))
        ensures
            r.0@ == self.key_view(),
            r.1 == self.resolver_spec(),
            r.2 == self.options_view().rescue,
    {
        (self.key, self.resolver, self.options.rescue)
    }
}

/// Holds a value or a prop until it is turned into a pending prop under a
/// key; it can be turned once.
#[derive(Debug)]
pub struct DynamicPropAdapter<T> {
    slot: Option<T>,
}

impl<T> DynamicPropAdapter<T> {
    /// What the adapter still holds.
    pub closed spec fn held(&self) -> Option<T> {
        self.slot
    }

    /// An adapter holding `value`.
    pub fn new(value: T) -> (r: Self)
        ensures
            r.held() == Some(value),
    {
        DynamicPropAdapter { slot: Some(value) }
    }

    /// Turns the held value into a plain prop under `key` with the standard
    /// policy; the adapter is then empty.
    pub fn value_prop(&mut self, key: String) -> (r: PendingProp<T>)
        requires
            old(self).held() is Some,
        ensures
            final(self).held() is None,
            r.key_view() == key@,
            r.options_view() == (PropOptionsView {
                load: LoadPolicyView::Standard,
                once: None,
                merge: None,
                rescue: false,
            }),
            r.resolver_spec() == old(self).held()->0,
    {
        let value = self.slot.take().unwrap();
        PendingProp::value(key, value)
    }
}

impl<R> DynamicPropAdapter<Prop<R>> {
    /// Turns the held prop into a pending prop under `key`, keeping its
    /// policies.
    pub fn into_pending_prop(self, key: String) -> (r: PendingProp<R>)
        requires
            self.held() is Some,
        ensures
            r.key_view() == key@,
            r.options_view() == self.held()->0.options_view(),
            r.resolver_spec() == self.held()->0.resolver_spec(),
    {
        let prop = self.slot.unwrap();
        PendingProp::from_prop(key, prop)
    }
}

} // verus!
