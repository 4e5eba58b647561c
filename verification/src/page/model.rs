//! The page object a response carries.

use crate::assets::{version_header, AssetVersion};
use crate::html::{script_safe, HtmlResponseContext};
use crate::page::metadata::{PageMetadata, PageMetadataView};
use crate::json::{json_text_of, map_text, object_entries, object_text, texts_of};
use crate::page::object::{page_json_text, page_text};
use crate::page::shared::{shared_entries, shared_merged, with_shared_props};
use crate::str_map::StrMap;
use crate::text::{owned, prop_root, prop_root_of, push_unique, strs, vec_contains_str, push_unique_string};
use crate::json::errors_key;
use crate::page::shared::{insert_global_shared, shared_value_text};
use vstd::prelude::*;

verus! {

broadcast use vstd::string::group_string_axioms;

/// A page's props: a JSON object, as pages normally carry, or any other
/// JSON value a page was made with.
#[derive(Debug)]
pub enum PageProps {
    /// An object of props.
    Object(StrMap<serde_json::Value>),
    /// A props value that is not an object.
    Other(serde_json::Value),
}

/// The JSON text of a page's props.
pub open spec fn props_text(p: PageProps) -> Seq<char> {
    match p {
        PageProps::Object(m) => map_text(m),
        PageProps::Other(v) => json_text_of(v),
    }
}

/// Whether `base` is the prop object shared props are merged into: the
/// props themselves when they are an object, else an empty object.
pub open spec fn merge_base(p: PageProps, base: StrMap<serde_json::Value>) -> bool {
    match p {
        PageProps::Object(m) => base == m,
        PageProps::Other(_) => base.keys().len() == 0,
    }
}

/// The JSON text of an object with the given entries, in order.
pub open spec fn entries_text(entries: Seq<(String, serde_json::Value)>) -> Seq<char> {
    object_text(
        entries.map_values(|e: (String, serde_json::Value)| e.0@),
        texts_of(entries.map_values(|e: (String, serde_json::Value)| e.1)),
    )
}

/// An Inertia page object: component, props, flash, URL, asset version
/// and v3 metadata.
#[derive(Debug)]
pub struct Page {
    component: String,
    props: PageProps,
    flash: StrMap<serde_json::Value>,
    url: String,
    version: Option<AssetVersion>,
    metadata: PageMetadata,
}

impl Page {
    /// The component name.
    pub closed spec fn component_view(&self) -> Seq<char> {
        self.component@
    }

    /// The props.
    pub closed spec fn props_spec(&self) -> PageProps {
        self.props
    }

    /// The flash values.
    pub closed spec fn flash_spec(&self) -> StrMap<serde_json::Value> {
        self.flash
    }

    /// The URL.
    pub closed spec fn url_view(&self) -> Seq<char> {
        self.url@
    }

    /// The asset version.
    pub closed spec fn version_spec(&self) -> Option<AssetVersion> {
        self.version
    }

    /// The v3 metadata.
    pub closed spec fn metadata_view(&self) -> PageMetadataView {
        self.metadata@
    }

    /// The page's JSON text.
    pub open spec fn json_view(&self) -> Seq<char> {
        page_text(
            self.component_view(),
            props_text(self.props_spec()),
            self.flash_spec(),
            self.url_view(),
            self.version_spec(),
            self.metadata_view(),
        )
    }

    /// A page from explicit parts, with no flash.
    pub fn from_parts(
        component: &str,
        props: StrMap<serde_json::Value>,
        url: &str,
        version: Option<String>,
        metadata: PageMetadata,
    ) -> (r: Self)
        ensures
            r.component_view() == component@,
            r.props_spec() == PageProps::Object(props),
            r.flash_spec().keys().len() == 0,
            r.url_view() == url@,
            r.version_spec() == match version {
                Some(v) => Some(AssetVersion::String(v)),
                None => None,
            },
            r.metadata_view() == metadata@,
    {
        let version = match version {
            Some(v) => Some(AssetVersion::String(v)),
            None => None,
        };
        Page {
            component: owned(component),
            props: PageProps::Object(props),
            flash: StrMap::new(),
            url: owned(url),
            version,
            metadata,
        }
    }

    /// A page from explicit parts with an asset version of either form,
    /// with no flash.
    pub fn from_parts_version(
        component: &str,
        props: StrMap<serde_json::Value>,
        url: &str,
        version: Option<AssetVersion>,
        metadata: PageMetadata,
    ) -> (r: Self)
        ensures
            r.component_view() == component@,
            r.props_spec() == PageProps::Object(props),
            r.flash_spec().keys().len() == 0,
            r.url_view() == url@,
            r.version_spec() == version,
            r.metadata_view() == metadata@,
    {
        Page {
            component: owned(component),
            props: PageProps::Object(props),
            flash: StrMap::new(),
            url: owned(url),
            version,
            metadata,
        }
    }

    /// A minimal page whose props are a JSON value of any kind: an object's
    /// members become the prop object; another value is kept as it is.
    pub fn with_props_value(component: &str, props: serde_json::Value, url: &str) -> (r: Self)
        ensures
            props_text(r.props_spec()) == json_text_of(props),
            r.props_spec() matches PageProps::Other(v) ==> v == props,
            r.component_view() == component@,
            r.flash_spec().keys().len() == 0,
            r.url_view() == url@,
            r.version_spec() is None,
            r.metadata_view() == PageMetadataView::empty(),
    {
        let ghost original = props;
        let props = match object_entries(props) {
            Ok(entries) => PageProps::Object(map_of_entries(entries)),
            Err(other) => PageProps::Other(other),
        };
        Page {
            component: owned(component),
            props,
            flash: StrMap::new(),
            url: owned(url),
            version: None,
            metadata: PageMetadata::new(),
        }
    }

    /// A minimal page: no flash, no version, no metadata.
    pub fn new(component: &str, props: StrMap<serde_json::Value>, url: &str) -> (r: Self)
        ensures
            r.component_view() == component@,
            r.props_spec() == PageProps::Object(props),
            r.flash_spec().keys().len() == 0,
            r.url_view() == url@,
            r.version_spec() is None,
            r.metadata_view() == PageMetadataView::empty(),
    {
        Self::from_parts(component, props, url, None, PageMetadata::new())
    }

    /// The page with its asset version set.
    pub fn version(self, version: AssetVersion) -> (r: Self)
        ensures
            r.version_spec() == Some(version),
            r.component_view() == self.component_view(),
            r.props_spec() == self.props_spec(),
            r.flash_spec() == self.flash_spec(),
            r.url_view() == self.url_view(),
            r.metadata_view() == self.metadata_view(),
    {
        Page { version: Some(version), ..self }
    }

    /// The component name.
    pub fn component(&self) -> (r: &str)
        ensures
            r@ == self.component_view(),
    {
        self.component.as_str()
    }

    /// The props.
    pub fn props(&self) -> (r: &PageProps)
        ensures
            *r == self.props_spec(),
    {
        &self.props
    }

    /// The URL.
    pub fn url(&self) -> (r: &str)
        ensures
            r@ == self.url_view(),
    {
        self.url.as_str()
    }

    /// The asset version as the `X-Inertia-Version` header writes it.
    pub fn asset_version(&self) -> (r: Option<String>)
        ensures
            match self.version_spec() {
                Some(v) => r matches Some(s) && s@ == version_header(v),
                None => r is None,
            },
    {
        match &self.version {
            Some(v) => Some(v.header_value()),
            None => None,
        }
    }

    /// Sets the flash values carried to the client.
    pub fn set_flash(&mut self, flash: StrMap<serde_json::Value>)
        ensures
            final(self).flash_spec() == flash,
            final(self).component_view() == old(self).component_view(),
            final(self).props_spec() == old(self).props_spec(),
            final(self).url_view() == old(self).url_view(),
            final(self).version_spec() == old(self).version_spec(),
            final(self).metadata_view() == old(self).metadata_view(),
    {
        self.flash = flash;
    }

    /// Merges shared props into the page (see [`shared_merged`]): without
    /// shared props nothing changes; otherwise props that are not an object
    /// are replaced by an empty one first, page props win on a collision,
    /// dotted keys nest, and inserted top-level keys are listed in
    /// `sharedProps`.
    pub fn with_shared_props(self, shared: Vec<(String, serde_json::Value)>) -> (r: Self)
        ensures
            shared@.len() == 0 ==> r.props_spec() == self.props_spec() && r.metadata_view() == self.metadata_view(),
            shared@.len() > 0 ==> exists|base: StrMap<serde_json::Value>, merged: StrMap<serde_json::Value>|
                #![trigger merge_base(self.props_spec(), base), shared_merged(base, self.metadata_view(), shared_entries(shared@), merged, r.metadata_view())]
                {
                    &&& merge_base(self.props_spec(), base)
                    &&& shared_merged(base, self.metadata_view(), shared_entries(shared@), merged, r.metadata_view())
                    &&& r.props_spec() == PageProps::Object(merged)
                },
            r.component_view() == self.component_view(),
            r.flash_spec() == self.flash_spec(),
            r.url_view() == self.url_view(),
            r.version_spec() == self.version_spec(),
    {
        if shared.len() == 0 {
            return self;
        }
        let ghost entries = shared_entries(shared@);
        let ghost p0 = self.props_spec();
        let ghost m0 = self.metadata_view();
        let Page { component, props, flash, url, version, metadata } = self;
        let base = match props {
            PageProps::Object(m) => m,
            PageProps::Other(_) => StrMap::new(),
        };
        let ghost base0 = base;
        let (merged, metadata) = with_shared_props(base, metadata, shared);
        let ghost merged0 = merged;
        let r = Page { component, props: PageProps::Object(merged), flash, url, version, metadata };
        assert(merge_base(p0, base0));
        assert(shared_merged(base0, m0, entries, merged0, r.metadata_view()));
        r
    }

    /// The page's JSON text.
    pub fn to_json(&self) -> (r: String)
        ensures
            r@ == self.json_view(),
    {
        let props = props_json(&self.props);
        page_json_text(
            self.component.as_str(),
            props.as_str(),
            &self.flash,
            self.url.as_str(),
            match &self.version {
                Some(v) => Some(v),
                None => None,
            },
            &self.metadata,
        )
    }

    /// The HTML response context of the page: its JSON text made
    /// script-safe.
    pub fn html_context(&self) -> (r: HtmlResponseContext)
        ensures
            r.data_page_view() == script_safe(self.json_view()),
    {
        let text = self.to_json();
        HtmlResponseContext::from_json_text(text.as_str())
    }
}

/// The JSON text of a page's props.
pub fn props_json(p: &PageProps) -> (r: String)
    ensures
        r@ == props_text(*p),
{
    match p {
        PageProps::Object(m) => {
            let mut text = String::new();
            crate::json::push_value_map(&mut text, m);
            assert(text@ =~= map_text(*m));
            text
        },
        PageProps::Other(v) => match crate::json::json_text(v) {
            Ok(t) => t,
            Err(e) => e,
        },
    }
}

/// The string map of an object's entries, given in increasing key order.
fn map_of_entries(entries: Vec<(String, serde_json::Value)>) -> (r: StrMap<serde_json::Value>)
    requires
        crate::str_map::sorted_keys(entries@.map_values(|e: (String, serde_json::Value)| e.0@)),
    ensures
        map_text(r) == entries_text(entries@),
{
    let ghost all = entries@;
    let ghost keys = all.map_values(|e: (String, serde_json::Value)| e.0@);
    let ghost vals = all.map_values(|e: (String, serde_json::Value)| e.1);
    let mut rest = entries;
    let mut r: StrMap<serde_json::Value> = StrMap::new();
    let n = rest.len();
    let mut i: usize = 0;
    while i < n
        invariant
            n == all.len(),
            0 <= i <= n,
            rest@ == all.skip(i as int),
            crate::str_map::sorted_keys(keys),
            keys == all.map_values(|e: (String, serde_json::Value)| e.0@),
            vals == all.map_values(|e: (String, serde_json::Value)| e.1),
            r.keys() == keys.take(i as int),
            r.vals() == vals.take(i as int),
        decreases n - i,
    {
        let (k, v) = crate::engine::take_first_of(&mut rest);
        assert(all[i as int] == (k, v));
        proof {
            if i > 0 {
                let a = keys[i - 1];
                let b = keys[i as int];
                assert(crate::text::seq_lt(a, b));
                assert(r.keys().last() == a);
            }
        }
        r.push_last(k, v);
        assert(keys.take(i + 1) =~= keys.take(i as int).push(keys[i as int]));
        assert(vals.take(i + 1) =~= vals.take(i as int).push(vals[i as int]));
        assert(all.skip(i as int).drop_first() =~= all.skip(i + 1));
        i = i + 1;
    }
    assert(keys.take(n as int) =~= keys);
    assert(vals.take(n as int) =~= vals);
    assert(map_text(r) == entries_text(all)) by {
        reveal(map_text);
    }
    r
}

/// The prop object a shared prop is inserted into: the props when they
/// are an object, else an empty one.
pub open spec fn base_map(p: PageProps) -> Map<Seq<char>, serde_json::Value> {
    match p {
        PageProps::Object(m) => m.as_map(),
        PageProps::Other(_) => Map::empty(),
    }
}

/// Page `after` is page `before` with global shared prop `key` = `value`
/// inserted into its prop object (see
/// [`insert_global_shared`](crate::page::shared::insert_global_shared)):
/// the props become an object holding `errors`, the base members stay,
/// a fresh top-level key receives the value and is listed among the shared
/// props, and nothing else changes.
pub open spec fn global_shared_inserted(
    before: Page,
    after: Page,
    key: Seq<char>,
    value: serde_json::Value,
    inserted: bool,
) -> bool {
    let base = base_map(before.props_spec());
    let root = prop_root(key);
    &&& inserted == (root.len() > 0 && !base.dom().contains(root) && root != errors_key())
    &&& after.props_spec() is Object
    &&& after.props_spec()->Object_0.as_map().dom() == base.dom().insert(errors_key()).union(
        if inserted {
            set![root]
        } else {
            Set::empty()
        },
    )
    &&& forall|k: Seq<char>| #[trigger] base.dom().contains(k) ==> after.props_spec()->Object_0.at(k) == base[k]
    &&& (!base.dom().contains(errors_key()) && root != errors_key()) ==> json_text_of(
        after.props_spec()->Object_0.at(errors_key()),
    ) == seq!['{', '}']
    &&& inserted ==> json_text_of(after.props_spec()->Object_0.at(root)) == shared_value_text(
        key,
        json_text_of(value),
    )
    &&& after.metadata_view() == (if inserted {
        PageMetadataView { shared: push_unique(before.metadata_view().shared, root), ..before.metadata_view() }
    } else {
        before.metadata_view()
    })
    &&& after.component_view() == before.component_view()
    &&& after.flash_spec() == before.flash_spec()
    &&& after.url_view() == before.url_view()
    &&& after.version_spec() == before.version_spec()
}

/// A page under construction before shared props are merged: the page, the
/// top-level keys of its route props, and those of the route-local shared
/// props inserted so far.
pub struct PageDraft {
    page: Page,
    route_roots: Vec<String>,
    local_shared_roots: Vec<String>,
}

impl PageDraft {
    /// The page so far.
    pub closed spec fn page_spec(&self) -> Page {
        self.page
    }

    /// The route props' top-level keys.
    pub closed spec fn route_roots_view(&self) -> Seq<Seq<char>> {
        strs(self.route_roots@)
    }

    /// The top-level keys of route-local shared props inserted so far.
    pub closed spec fn local_roots_view(&self) -> Seq<Seq<char>> {
        strs(self.local_shared_roots@)
    }

    /// A draft of `page` whose route props have the top-level keys
    /// `route_roots`.
    pub fn new(page: Page, route_roots: Vec<String>) -> (r: Self)
        ensures
            r.page_spec() == page,
            r.route_roots_view() == strs(route_roots@),
            r.local_roots_view() == Seq::<Seq<char>>::empty(),
    {
        let r = PageDraft { page, route_roots, local_shared_roots: Vec::new() };
        assert(strs(r.local_shared_roots@) =~= Seq::<Seq<char>>::empty());
        r
    }

    /// Whether a route prop owns the top-level key of `key`.
    pub fn owns_prop_root(&self, key: &str) -> (b: bool)
        ensures
            b == self.route_roots_view().contains(prop_root(key@)),
    {
        let root = prop_root_of(key);
        vec_contains_str(&self.route_roots, root.as_str())
    }

    /// Whether a global shared prop under `key` is blocked: a route prop or
    /// a route-local shared prop owns its top-level key.
    pub fn global_is_blocked(&self, key: &str) -> (b: bool)
        ensures
            b == (self.route_roots_view().contains(prop_root(key@)) || self.local_roots_view().contains(
                prop_root(key@),
            )),
    {
        let root = prop_root_of(key);
        vec_contains_str(&self.route_roots, root.as_str()) || vec_contains_str(
            &self.local_shared_roots,
            root.as_str(),
        )
    }

    /// Inserts a global shared prop (see [`global_shared_inserted`]).
    pub fn insert_global_shared(&mut self, key: &str, value: serde_json::Value) -> (inserted: bool)
        ensures
            global_shared_inserted(old(self).page_spec(), final(self).page_spec(), key@, value, inserted),
            final(self).route_roots_view() == old(self).route_roots_view(),
            final(self).local_roots_view() == old(self).local_roots_view(),
    {
        let ghost before = self.page;
        let mut current = PageProps::Object(StrMap::new());
        std::mem::swap(&mut current, &mut self.page.props);
        let mut object = match current {
            PageProps::Object(m) => m,
            PageProps::Other(_) => StrMap::new(),
        };
        assert(object.as_map() =~= base_map(before.props));
        let mut meta = PageMetadata::new();
        std::mem::swap(&mut meta, &mut self.page.metadata);
        let ghost object0 = object;
        let inserted = insert_global_shared(&mut object, &mut meta, key, value);
        proof {
            assert forall|k: Seq<char>| #[trigger] base_map(before.props).dom().contains(k) implies object.at(k)
                == base_map(before.props)[k] by {
                assert(object0.has(k));
            }
        }
        self.page.props = PageProps::Object(object);
        self.page.metadata = meta;
        inserted
    }

    /// Inserts a route-local shared prop: nothing when a route prop owns
    /// its top-level key; otherwise as
    /// [`insert_global_shared`](PageDraft::insert_global_shared), and an
    /// inserted top-level key is remembered (once) so that it blocks global
    /// shared props.
    pub fn insert_shared(&mut self, key: &str, value: serde_json::Value) -> (inserted: bool)
        ensures
            old(self).route_roots_view().contains(prop_root(key@)) ==> !inserted && final(self).page_spec()
                == old(self).page_spec() && final(self).local_roots_view() == old(self).local_roots_view(),
            !old(self).route_roots_view().contains(prop_root(key@)) ==> {
                &&& global_shared_inserted(old(self).page_spec(), final(self).page_spec(), key@, value, inserted)
                &&& final(self).local_roots_view() == (if inserted {
                    push_unique(old(self).local_roots_view(), prop_root(key@))
                } else {
                    old(self).local_roots_view()
                })
            },
            final(self).route_roots_view() == old(self).route_roots_view(),
    {
        if self.owns_prop_root(key) {
            return false;
        }
        let root = prop_root_of(key);
        let inserted = self.insert_global_shared(key, value);
        if inserted {
            push_unique_string(&mut self.local_shared_roots, root);
        }
        inserted
    }

    /// The finished page.
    pub fn finish(self) -> (r: Page)
        ensures
            r == self.page_spec(),
    {
        self.page
    }
}

} // verus!
