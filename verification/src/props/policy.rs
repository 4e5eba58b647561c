//! Composable protocol policies for one direct-response prop.

use crate::page::metadata::default_group_name;
use crate::text::{owned, push_char, strs};
use vstd::prelude::*;

verus! {

broadcast use vstd::string::group_string_axioms;

/// Determines when a prop is eligible for resolution.
#[derive(Debug)]
pub enum LoadPolicy {
    /// Ordinary eager field.
    Standard,
    /// Owned lazy resolver selected on normal visits.
    Lazy,
    /// Included even when a partial reload does not request it.
    Always,
    /// Included only when explicitly requested.
    Optional,
    /// Deferred into the named follow-up group.
    Deferred {
        /// Follow-up request group advertised to the client.
        group: String,
    },
}

/// The abstract content of a [`LoadPolicy`].
pub enum LoadPolicyView {
    Standard,
    Lazy,
    Always,
    Optional,
    Deferred { group: Seq<char> },
}

impl View for LoadPolicy {
    type V = LoadPolicyView;

    open spec fn view(&self) -> LoadPolicyView {
        match self {
            LoadPolicy::Standard => LoadPolicyView::Standard,
            LoadPolicy::Lazy => LoadPolicyView::Lazy,
            LoadPolicy::Always => LoadPolicyView::Always,
            LoadPolicy::Optional => LoadPolicyView::Optional,
            LoadPolicy::Deferred { group } => LoadPolicyView::Deferred { group: group@ },
        }
    }
}

/// The view of an optional string.
pub open spec fn opt_str(o: Option<String>) -> Option<Seq<char>> {
    match o {
        Some(s) => Some(s@),
        None => None,
    }
}

/// Client-side once-prop caching policy.
#[derive(Debug)]
pub struct OncePolicy {
    key: Option<String>,
    expires_at: Option<u64>,
    fresh: bool,
}

/// The abstract content of a [`OncePolicy`]; `expires_at` is in milliseconds
/// since the Unix epoch.
pub struct OncePolicyView {
    pub key: Option<Seq<char>>,
    pub expires_at: Option<u64>,
    pub fresh: bool,
}

impl View for OncePolicy {
    type V = OncePolicyView;

    closed spec fn view(&self) -> OncePolicyView {
        OncePolicyView { key: opt_str(self.key), expires_at: self.expires_at, fresh: self.fresh }
    }
}

impl OncePolicy {
    /// The policy with no custom key, no expiration, and no forced refresh.
    pub fn new() -> (r: Self)
        ensures
            r@ == (OncePolicyView { key: None, expires_at: None, fresh: false }),
    {
        OncePolicy { key: None, expires_at: None, fresh: false }
    }

    /// The custom once key, if any.
    pub fn key(&self) -> (r: Option<&str>)
        ensures
            match r {
                Some(s) => self@.key == Some(s@),
                None => self@.key is None,
            },
    {
        match &self.key {
            Some(k) => Some(k.as_str()),
            None => None,
        }
    }

    /// The expiration in milliseconds since the Unix epoch, if any.
    pub fn expires_at_millis(&self) -> (r: Option<u64>)
        ensures
            r == self@.expires_at,
    {
        self.expires_at
    }

    /// Whether the client-cached value is forced to refresh.
    pub fn is_fresh(&self) -> (r: bool)
        ensures
            r == self@.fresh,
    {
        self.fresh
    }
}

/// Infinite-scroll protocol policy.
#[derive(Debug)]
pub struct ScrollPolicy {
    page_name: String,
    current: u64,
    previous: Option<u64>,
    next: Option<u64>,
    match_on: Option<String>,
}

/// The abstract content of a [`ScrollPolicy`].
pub struct ScrollPolicyView {
    pub page_name: Seq<char>,
    pub current: u64,
    pub previous: Option<u64>,
    pub next: Option<u64>,
    pub match_on: Option<Seq<char>>,
}

impl View for ScrollPolicy {
    type V = ScrollPolicyView;

    closed spec fn view(&self) -> ScrollPolicyView {
        ScrollPolicyView {
            page_name: self.page_name@,
            current: self.current,
            previous: self.previous,
            next: self.next,
            match_on: opt_str(self.match_on),
        }
    }
}

fn copy_opt_string(o: &Option<String>) -> (r: Option<String>)
    ensures
        opt_str(r) == opt_str(*o),
{
    match o {
        Some(s) => Some(s.clone()),
        None => None,
    }
}

impl ScrollPolicy {
    /// The page query parameter.
    pub fn page_name(&self) -> (r: &str)
        ensures
            r@ == self@.page_name,
    {
        self.page_name.as_str()
    }

    /// The current page.
    pub fn current(&self) -> (r: u64)
        ensures
            r == self@.current,
    {
        self.current
    }

    /// The previous cursor, if any.
    pub fn previous(&self) -> (r: Option<u64>)
        ensures
            r == self@.previous,
    {
        self.previous
    }

    /// The next cursor, if any.
    pub fn next(&self) -> (r: Option<u64>)
        ensures
            r == self@.next,
    {
        self.next
    }

    /// The merge match path, if any.
    pub fn match_on(&self) -> (r: Option<&str>)
        ensures
            match r {
                Some(s) => self@.match_on == Some(s@),
                None => self@.match_on is None,
            },
    {
        match &self.match_on {
            Some(m) => Some(m.as_str()),
            None => None,
        }
    }

    /// A field-by-field copy.
    pub fn duplicate(&self) -> (r: Self)
        ensures
            r@ == self@,
    {
        ScrollPolicy {
            page_name: self.page_name.clone(),
            current: self.current,
            previous: self.previous,
            next: self.next,
            match_on: copy_opt_string(&self.match_on),
        }
    }
}

/// Merge behavior attached to a prop.
#[derive(Debug)]
#[allow(inconsistent_fields)]
pub enum MergePolicy {
    /// Append at an optional nested path.
    Append {
        /// Optional nested merge path.
        path: Option<String>,
        /// Optional identity field for matching existing values.
        match_on: Option<String>,
    },
    /// Prepend at an optional nested path.
    Prepend {
        /// Optional nested merge path.
        path: Option<String>,
        /// Optional identity field for matching existing values.
        match_on: Option<String>,
    },
    /// Deep merge with one or more matching paths.
    Deep {
        /// Identity paths used while recursively merging values.
        match_on: Vec<String>,
    },
    /// Infinite-scroll merge and pagination metadata.
    Scroll(ScrollPolicy),
}

/// The abstract content of a [`MergePolicy`].
#[allow(inconsistent_fields)]
pub enum MergePolicyView {
    Append { path: Option<Seq<char>>, match_on: Option<Seq<char>> },
    Prepend { path: Option<Seq<char>>, match_on: Option<Seq<char>> },
    Deep { match_on: Seq<Seq<char>> },
    Scroll(ScrollPolicyView),
}

impl View for MergePolicy {
    type V = MergePolicyView;

    open spec fn view(&self) -> MergePolicyView {
        match self {
            MergePolicy::Append { path, match_on } => MergePolicyView::Append {
                path: opt_str(*path),
                match_on: opt_str(*match_on),
            },
            MergePolicy::Prepend { path, match_on } => MergePolicyView::Prepend {
                path: opt_str(*path),
                match_on: opt_str(*match_on),
            },
            MergePolicy::Deep { match_on } => MergePolicyView::Deep { match_on: strs(match_on@) },
            MergePolicy::Scroll(p) => MergePolicyView::Scroll(p@),
        }
    }
}

/// Composable behavior for one direct-response prop.
#[derive(Debug)]
pub struct PropOptions {
    /// Loading policy.
    pub load: LoadPolicy,
    /// Optional once policy.
    pub once: Option<OncePolicy>,
    /// Optional merge policy.
    pub merge: Option<MergePolicy>,
    /// Whether resolver failures are rescued.
    pub rescue: bool,
}

/// The abstract content of a [`PropOptions`].
pub struct PropOptionsView {
    pub load: LoadPolicyView,
    pub once: Option<OncePolicyView>,
    pub merge: Option<MergePolicyView>,
    pub rescue: bool,
}

impl View for PropOptions {
    type V = PropOptionsView;

    open spec fn view(&self) -> PropOptionsView {
        PropOptionsView {
            load: self.load@,
            once: match self.once {
                Some(o) => Some(o@),
                None => None,
            },
            merge: match self.merge {
                Some(m) => Some(m@),
                None => None,
            },
            rescue: self.rescue,
        }
    }
}

/// The once policy after composing once semantics: the existing policy or a
/// fresh default one.
pub open spec fn once_or_default(o: Option<OncePolicyView>) -> OncePolicyView {
    match o {
        Some(p) => p,
        None => OncePolicyView { key: None, expires_at: None, fresh: false },
    }
}

/// The merge policy after adding a match path.
pub open spec fn with_match_on(m: Option<MergePolicyView>, path: Seq<char>) -> MergePolicyView {
    match m {
        Some(MergePolicyView::Append { path: p, match_on: _ }) => MergePolicyView::Append {
            path: p,
            match_on: Some(path),
        },
        Some(MergePolicyView::Prepend { path: p, match_on: _ }) => MergePolicyView::Prepend {
            path: p,
            match_on: Some(path),
        },
        Some(MergePolicyView::Deep { match_on }) => MergePolicyView::Deep {
            match_on: match_on.push(path),
        },
        Some(MergePolicyView::Scroll(s)) => MergePolicyView::Scroll(
            ScrollPolicyView { match_on: Some(path), ..s },
        ),
        None => MergePolicyView::Append { path: None, match_on: Some(path) },
    }
}

/// `"{a}.{b}"`.
pub open spec fn dotted(a: Seq<char>, b: Seq<char>) -> Seq<char> {
    a + seq!['.'] + b
}

/// Builds `"{a}.{b}"`.
pub fn join_dotted(a: &str, b: &str) -> (out: String)
    ensures
        out@ == dotted(a@, b@),
{
    let mut out = owned(a);
    push_char(&mut out, '.');
    let bc = crate::text::chars_of(b);
    let mut i: usize = 0;
    let ghost start = out@;
    while i < bc.len()
        invariant
            0 <= i <= bc.len(),
            bc@ == b@,
            start == a@ + seq!['.'],
            out@ == start + bc@.take(i as int),
        decreases bc.len() - i,
    {
        push_char(&mut out, bc[i]);
        assert(bc@.take(i + 1) =~= bc@.take(i as int).push(bc@[i as int]));
        assert(start + bc@.take(i + 1) =~= (start + bc@.take(i as int)).push(bc@[i as int]));
        i = i + 1;
    }
    assert(bc@.take(bc.len() as int) =~= bc@);
    out
}

impl PropOptions {
    /// Ordinary eager field with no once, merge, or rescue policy.
    pub fn standard() -> (r: Self)
        ensures
            r@ == (PropOptionsView {
                load: LoadPolicyView::Standard,
                once: None,
                merge: None,
                rescue: false,
            }),
    {
        PropOptions { load: LoadPolicy::Standard, once: None, merge: None, rescue: false }
    }

    /// Moves the prop into deferred group `group`.
    pub fn group(&mut self, group: &str)
        ensures
            final(self)@ == (PropOptionsView {
                load: LoadPolicyView::Deferred { group: group@ },
                ..old(self)@
            }),
    {
        self.load = LoadPolicy::Deferred { group: owned(group) };
    }

    /// Rescues resolver failures into `rescuedProps`.
    pub fn rescue(&mut self)
        ensures
            final(self)@ == (PropOptionsView { rescue: true, ..old(self)@ }),
    {
        self.rescue = true;
    }

    fn once_policy(&mut self) -> (r: OncePolicy)
        ensures
            r@ == once_or_default(old(self)@.once),
            final(self)@ == (PropOptionsView { once: None, ..old(self)@ }),
    {
        match self.once.take() {
            Some(p) => p,
            None => OncePolicy::new(),
        }
    }

    /// Composes once semantics with this prop.
    pub fn once(&mut self)
        ensures
            final(self)@ == (PropOptionsView { once: Some(once_or_default(old(self)@.once)), ..old(self)@ }),
    {
        let p = self.once_policy();
        self.once = Some(p);
    }

    /// Sets the once cache key.
    pub fn key(&mut self, key: &str)
        ensures
            final(self)@ == (PropOptionsView {
                once: Some(OncePolicyView { key: Some(key@), ..once_or_default(old(self)@.once) }),
                ..old(self)@
            }),
    {
        let p = self.once_policy();
        self.once = Some(OncePolicy { key: Some(owned(key)), ..p });
    }

    /// Sets the once expiration, in milliseconds since the Unix epoch.
    pub fn expires_at_millis(&mut self, at: Option<u64>)
        ensures
            final(self)@ == (PropOptionsView {
                once: Some(OncePolicyView { expires_at: at, ..once_or_default(old(self)@.once) }),
                ..old(self)@
            }),
    {
        let p = self.once_policy();
        self.once = Some(OncePolicy { expires_at: at, ..p });
    }

    /// Forces the client-cached once value to refresh when `fresh` is true.
    pub fn fresh_if(&mut self, fresh: bool)
        ensures
            final(self)@ == (PropOptionsView {
                once: Some(OncePolicyView { fresh, ..once_or_default(old(self)@.once) }),
                ..old(self)@
            }),
    {
        let p = self.once_policy();
        self.once = Some(OncePolicy { fresh, ..p });
    }

    /// Selects append merging, at the prop root or at a nested path.
    pub fn append_at(&mut self, path: Option<&str>)
        ensures
            final(self)@ == (PropOptionsView {
                merge: Some(MergePolicyView::Append {
                    path: match path {
                        Some(p) => Some(p@),
                        None => None,
                    },
                    match_on: None,
                }),
                ..old(self)@
            }),
    {
        let path = match path {
            Some(p) => Some(owned(p)),
            None => None,
        };
        self.merge = Some(MergePolicy::Append { path, match_on: None });
    }

    /// Selects prepend merging, at the prop root or at a nested path.
    pub fn prepend_at(&mut self, path: Option<&str>)
        ensures
            final(self)@ == (PropOptionsView {
                merge: Some(MergePolicyView::Prepend {
                    path: match path {
                        Some(p) => Some(p@),
                        None => None,
                    },
                    match_on: None,
                }),
                ..old(self)@
            }),
    {
        let path = match path {
            Some(p) => Some(owned(p)),
            None => None,
        };
        self.merge = Some(MergePolicy::Prepend { path, match_on: None });
    }

    /// Selects deep merging.
    pub fn deep(&mut self)
        ensures
            final(self)@ == (PropOptionsView {
                merge: Some(MergePolicyView::Deep { match_on: Seq::empty() }),
                ..old(self)@
            }),
    {
        let v: Vec<String> = Vec::new();
        assert(strs(v@) =~= Seq::<Seq<char>>::empty());
        self.merge = Some(MergePolicy::Deep { match_on: v });
    }

    /// Adds a merge match path; with no merge policy, selects append merging.
    pub fn match_on(&mut self, path: &str)
        ensures
            final(self)@ == (PropOptionsView {
                merge: Some(with_match_on(old(self)@.merge, path@)),
                ..old(self)@
            }),
    {
        let p = owned(path);
        let merged = match self.merge.take() {
            Some(MergePolicy::Append { path, match_on: _ }) => MergePolicy::Append {
                path,
                match_on: Some(p),
            },
            Some(MergePolicy::Prepend { path, match_on: _ }) => MergePolicy::Prepend {
                path,
                match_on: Some(p),
            },
            Some(MergePolicy::Deep { match_on }) => {
                let mut m = match_on;
                proof {
                    crate::text::lemma_strs_push(m@, p);
                }
                m.push(p);
                MergePolicy::Deep { match_on: m }
            },
            Some(MergePolicy::Scroll(policy)) => MergePolicy::Scroll(
                ScrollPolicy { match_on: Some(p), ..policy },
            ),
            None => MergePolicy::Append { path: None, match_on: Some(p) },
        };
        self.merge = Some(merged);
    }

    /// Adds a match key relative to a nested merge path: `"{path}.{key}"`.
    pub fn match_on_at(&mut self, path: &str, key: &str)
        ensures
            final(self)@ == (PropOptionsView {
                merge: Some(with_match_on(old(self)@.merge, dotted(path@, key@))),
                ..old(self)@
            }),
    {
        let joined = join_dotted(path, key);
        self.match_on(joined.as_str());
    }
}

/// One value or resolver plus composable protocol policies.
#[derive(Debug)]
pub struct Prop<R> {
    resolver: R,
    options: PropOptions,
}

impl<R> Prop<R> {
    /// The value or resolver.
    pub closed spec fn resolver_spec(&self) -> R {
        self.resolver
    }

    /// The configured policies.
    pub closed spec fn options_view(&self) -> PropOptionsView {
        self.options@
    }

    /// Wraps an already available value with the standard policy.
    pub fn immediate(value: R) -> (r: Self)
        ensures
            r.resolver_spec() == value,
            r.options_view() == (PropOptionsView {
                load: LoadPolicyView::Standard,
                once: None,
                merge: None,
                rescue: false,
            }),
    {
        Prop { resolver: value, options: PropOptions::standard() }
    }

    /// Wraps a resolver with explicit policies.
    pub fn with_options(resolver: R, options: PropOptions) -> (r: Self)
        ensures
            r.resolver_spec() == resolver,
            r.options_view() == options@,
    {
        Prop { resolver, options }
    }

    /// Changes the deferred group.
    pub fn group(self, group: &str) -> (r: Self)
        ensures
            r.resolver_spec() == self.resolver_spec(),
            r.options_view() == (PropOptionsView {
                load: LoadPolicyView::Deferred { group: group@ },
                ..self.options_view()
            }),
    {
        let mut p = self;
        p.options.group(group);
        p
    }

    /// Rescues resolver failures into `rescuedProps`.
    pub fn rescue(self) -> (r: Self)
        ensures
            r.resolver_spec() == self.resolver_spec(),
            r.options_view() == (PropOptionsView { rescue: true, ..self.options_view() }),
    {
        let mut p = self;
        p.options.rescue();
        p
    }

    /// Composes once semantics with this prop.
    pub fn once(self) -> (r: Self)
        ensures
            r.resolver_spec() == self.resolver_spec(),
            r.options_view() == (PropOptionsView {
                once: Some(once_or_default(self.options_view().once)),
                ..self.options_view()
            }),
    {
        let mut p = self;
        p.options.once();
        p
    }

    /// Sets the once cache key.
    pub fn key(self, key: &str) -> (r: Self)
        ensures
            r.resolver_spec() == self.resolver_spec(),
            r.options_view() == (PropOptionsView {
                once: Some(OncePolicyView { key: Some(key@), ..once_or_default(self.options_view().once) }),
                ..self.options_view()
            }),
    {
        let mut p = self;
        p.options.key(key);
        p
    }

    /// Sets an absolute once expiration in milliseconds since the Unix
    /// epoch (`None`: a time before the epoch, which carries no expiration).
    pub fn expires_at_millis(self, at: Option<u64>) -> (r: Self)
        ensures
            r.resolver_spec() == self.resolver_spec(),
            r.options_view() == (PropOptionsView {
                once: Some(OncePolicyView { expires_at: at, ..once_or_default(self.options_view().once) }),
                ..self.options_view()
            }),
    {
        let mut p = self;
        p.options.expires_at_millis(at);
        p
    }

    /// Forces the client-cached once value to refresh when `fresh` is true.
    pub fn fresh_if(self, fresh: bool) -> (r: Self)
        ensures
            r.resolver_spec() == self.resolver_spec(),
            r.options_view() == (PropOptionsView {
                once: Some(OncePolicyView { fresh, ..once_or_default(self.options_view().once) }),
                ..self.options_view()
            }),
    {
        let mut p = self;
        p.options.fresh_if(fresh);
        p
    }

    /// Selects append merging at the prop root.
    pub fn append(self) -> (r: Self)
        ensures
            r.resolver_spec() == self.resolver_spec(),
            r.options_view() == (PropOptionsView {
                merge: Some(MergePolicyView::Append { path: None, match_on: None }),
                ..self.options_view()
            }),
    {
        let mut p = self;
        p.options.append_at(None);
        p
    }

    /// Selects append merging at a nested path.
    pub fn append_at(self, path: &str) -> (r: Self)
        ensures
            r.resolver_spec() == self.resolver_spec(),
            r.options_view() == (PropOptionsView {
                merge: Some(MergePolicyView::Append { path: Some(path@), match_on: None }),
                ..self.options_view()
            }),
    {
        let mut p = self;
        p.options.append_at(Some(path));
        p
    }

    /// Selects prepend merging at the prop root.
    pub fn prepend(self) -> (r: Self)
        ensures
            r.resolver_spec() == self.resolver_spec(),
            r.options_view() == (PropOptionsView {
                merge: Some(MergePolicyView::Prepend { path: None, match_on: None }),
                ..self.options_view()
            }),
    {
        let mut p = self;
        p.options.prepend_at(None);
        p
    }

    /// Selects prepend merging at a nested path.
    pub fn prepend_at(self, path: &str) -> (r: Self)
        ensures
            r.resolver_spec() == self.resolver_spec(),
            r.options_view() == (PropOptionsView {
                merge: Some(MergePolicyView::Prepend { path: Some(path@), match_on: None }),
                ..self.options_view()
            }),
    {
        let mut p = self;
        p.options.prepend_at(Some(path));
        p
    }

    /// Selects deep merging.
    pub fn deep(self) -> (r: Self)
        ensures
            r.resolver_spec() == self.resolver_spec(),
            r.options_view() == (PropOptionsView {
                merge: Some(MergePolicyView::Deep { match_on: Seq::empty() }),
                ..self.options_view()
            }),
    {
        let mut p = self;
        p.options.deep();
        p
    }

    /// Adds a merge match path.
    pub fn match_on(self, path: &str) -> (r: Self)
        ensures
            r.resolver_spec() == self.resolver_spec(),
            r.options_view() == (PropOptionsView {
                merge: Some(with_match_on(self.options_view().merge, path@)),
                ..self.options_view()
            }),
    {
        let mut p = self;
        p.options.match_on(path);
        p
    }

    /// Adds a match key relative to a nested merge path.
    pub fn match_on_at(self, path: &str, key: &str) -> (r: Self)
        ensures
            r.resolver_spec() == self.resolver_spec(),
            r.options_view() == (PropOptionsView {
                merge: Some(with_match_on(self.options_view().merge, dotted(path@, key@))),
                ..self.options_view()
            }),
    {
        let mut p = self;
        p.options.match_on_at(path, key);
        p
    }

    /// Returns the configured policies.
    pub fn options(&self) -> (r: &PropOptions)
        ensures
            r@ == self.options_view(),
    {
        &self.options
    }

    /// Returns the value or resolver.
    pub fn resolver(&self) -> (r: &R)
        ensures
            *r == self.resolver_spec(),
    {
        &self.resolver
    }

    /// Splits the prop into its resolver and policies.
    pub fn into_parts(self) -> (r: (R, PropOptions))
        ensures
            r.0 == self.resolver_spec(),
            r.1@ == self.options_view(),
    {
        (self.resolver, self.options)
    }
}

/// Creates a prop included on every matching partial reload.
pub fn always<T>(value: T) -> (r: Prop<T>)
    ensures
        r.resolver_spec() == value,
        r.options_view() == (PropOptionsView {
            load: LoadPolicyView::Always,
            once: None,
            merge: None,
            rescue: false,
        }),
{
    Prop { resolver: value, options: PropOptions { load: LoadPolicy::Always, once: None, merge: None, rescue: false } }
}

/// Creates an immediate prop ready for merge policies.
pub fn merge<T>(value: T) -> (r: Prop<T>)
    ensures
        r.resolver_spec() == value,
        r.options_view() == (PropOptionsView {
            load: LoadPolicyView::Standard,
            once: None,
            merge: None,
            rescue: false,
        }),
{
    Prop::immediate(value)
}

/// The options of a resolver created by `lazy`, `optional`, `defer`, or
/// `once`: the given load policy, once semantics for `once`.
pub fn resolver_options(load: LoadPolicy, once: bool) -> (r: PropOptions)
    ensures
        r@ == (PropOptionsView {
            load: load@,
            once: if once { Some(OncePolicyView { key: None, expires_at: None, fresh: false }) } else { None },
            merge: None,
            rescue: false,
        }),
{
    PropOptions { load, once: if once { Some(OncePolicy::new()) } else { None }, merge: None, rescue: false }
}

/// The load policy of `defer`: the `"default"` deferred group.
pub fn default_deferred() -> (r: LoadPolicy)
    ensures
        r@ == (LoadPolicyView::Deferred { group: crate::page::metadata::default_group() }),
{
    LoadPolicy::Deferred { group: default_group_name() }
}

/// The key of a scroll page's items, `"data"`.
pub open spec fn data_key() -> Seq<char> {
    seq!['d', 'a', 't', 'a']
}

/// A normalized page used by the infinite-scroll helper.
#[derive(Debug)]
pub struct ScrollPage<T> {
    data: Vec<T>,
    policy: ScrollPolicy,
}

impl ScrollPage<serde_json::Value> {
    /// The JSON value of the page: the object `{"data":[...]}` of its
    /// items; the pagination policy is not part of it.
    pub fn into_value(self) -> (r: serde_json::Value)
        ensures
            crate::json::json_text_of(r) == crate::json::object_of(
                data_key(),
                crate::json::array_text(crate::json::texts_of(self.data_view())),
            ),
    {
        let mut key = String::new();
        push_char(&mut key, 'd');
        push_char(&mut key, 'a');
        push_char(&mut key, 't');
        push_char(&mut key, 'a');
        assert(key@ =~= data_key());
        let items = crate::json::json_array(self.data);
        crate::json::json_object_of(key, items)
    }
}

impl<T> ScrollPage<T> {
    /// The page items.
    pub closed spec fn data_view(&self) -> Seq<T> {
        self.data@
    }

    /// The pagination policy.
    pub closed spec fn policy_view(&self) -> ScrollPolicyView {
        self.policy@
    }

    /// Creates a normalized scroll page on query parameter `"page"`.
    pub fn new(data: Vec<T>, current: u64) -> (r: Self)
        ensures
            r.data_view() == data@,
            r.policy_view() == (ScrollPolicyView {
                page_name: seq!['p', 'a', 'g', 'e'],
                current,
                previous: None,
                next: None,
                match_on: None,
            }),
    {
        let mut name = String::new();
        push_char(&mut name, 'p');
        push_char(&mut name, 'a');
        push_char(&mut name, 'g');
        push_char(&mut name, 'e');
        assert(name@ =~= seq!['p', 'a', 'g', 'e']);
        ScrollPage {
            data,
            policy: ScrollPolicy { page_name: name, current, previous: None, next: None, match_on: None },
        }
    }

    /// Sets the previous cursor.
    pub fn previous(self, value: u64) -> (r: Self)
        ensures
            r.data_view() == self.data_view(),
            r.policy_view() == (ScrollPolicyView { previous: Some(value), ..self.policy_view() }),
    {
        ScrollPage { data: self.data, policy: ScrollPolicy { previous: Some(value), ..self.policy } }
    }

    /// Sets the next cursor.
    pub fn next(self, value: u64) -> (r: Self)
        ensures
            r.data_view() == self.data_view(),
            r.policy_view() == (ScrollPolicyView { next: Some(value), ..self.policy_view() }),
    {
        ScrollPage { data: self.data, policy: ScrollPolicy { next: Some(value), ..self.policy } }
    }

    /// Sets the page query parameter.
    pub fn page_name(self, value: &str) -> (r: Self)
        ensures
            r.data_view() == self.data_view(),
            r.policy_view() == (ScrollPolicyView { page_name: value@, ..self.policy_view() }),
    {
        ScrollPage { data: self.data, policy: ScrollPolicy { page_name: owned(value), ..self.policy } }
    }

    /// The page items.
    pub fn data(&self) -> (r: &Vec<T>)
        ensures
            r@ == self.data_view(),
    {
        &self.data
    }

    /// The pagination policy.
    pub fn policy(&self) -> (r: &ScrollPolicy)
        ensures
            r@ == self.policy_view(),
    {
        &self.policy
    }
}

/// Creates an immediate infinite-scroll prop carrying the page's policy.
pub fn scroll<T>(page: ScrollPage<T>) -> (r: Prop<ScrollPage<T>>)
    ensures
        r.resolver_spec() == page,
        r.options_view() == (PropOptionsView {
            load: LoadPolicyView::Standard,
            once: None,
            merge: Some(MergePolicyView::Scroll(page.policy_view())),
            rescue: false,
        }),
{
    let policy = page.policy.duplicate();
    Prop {
        resolver: page,
        options: PropOptions {
            load: LoadPolicy::Standard,
            once: None,
            merge: Some(MergePolicy::Scroll(policy)),
            rescue: false,
        },
    }
}

} // verus!
