//! An untyped page response assembled prop by prop, for small pages and
//! prototypes.

use crate::assets::AssetVersion;
use crate::engine::opt_props;
use crate::page::model::Page;
use crate::page::render::{finalize_visit_page, visit_page_finalized};
use crate::props::pending::PendingProp;
use crate::props::policy::{LoadPolicyView, PropOptionsView};
use crate::str_map::StrMap;
use crate::transient::TransientData;
use crate::visit::Visit;
use vstd::prelude::*;

verus! {

/// A page response under construction: its component, route props,
/// history flags, flash values and HTTP status.
pub struct DynamicPage<R> {
    component: String,
    props: Vec<PendingProp<R>>,
    encrypt_history: bool,
    clear_history: bool,
    preserve_fragment: bool,
    flash: StrMap<serde_json::Value>,
    status: u16,
}

/// The abstract content of a [`DynamicPage`].
pub struct DynamicPageView<R> {
    pub component: Seq<char>,
    pub props: Seq<PendingProp<R>>,
    pub encrypt_history: bool,
    pub clear_history: bool,
    pub preserve_fragment: bool,
    pub flash: Map<Seq<char>, serde_json::Value>,
    pub status: u16,
}

impl<R> View for DynamicPage<R> {
    type V = DynamicPageView<R>;

    closed spec fn view(&self) -> DynamicPageView<R> {
        DynamicPageView {
            component: self.component@,
            props: self.props@,
            encrypt_history: self.encrypt_history,
            clear_history: self.clear_history,
            preserve_fragment: self.preserve_fragment,
            flash: self.flash.as_map(),
            status: self.status,
        }
    }
}

/// A plain route prop under `key`, resolved by `resolver`, with the
/// standard policy.
pub open spec fn plain_prop<R>(p: PendingProp<R>, key: Seq<char>, resolver: R) -> bool {
    &&& p.key_view() == key
    &&& p.resolver_spec() == resolver
    &&& p.options_view() == (PropOptionsView {
        load: LoadPolicyView::Standard,
        once: None,
        merge: None,
        rescue: false,
    })
}

impl<R> DynamicPage<R> {
    /// A page for `component` with no props, no flags, no flash, status 200.
    pub fn new(component: &str) -> (r: Self)
        ensures
            r@ == (DynamicPageView::<R> {
                component: component@,
                props: Seq::empty(),
                encrypt_history: false,
                clear_history: false,
                preserve_fragment: false,
                flash: Map::empty(),
                status: 200,
            }),
    {
        let r = DynamicPage {
            component: component.to_owned(),
            props: Vec::new(),
            encrypt_history: false,
            clear_history: false,
            preserve_fragment: false,
            flash: StrMap::new(),
            status: 200,
        };
        assert(r.flash.as_map() =~= Map::empty());
        assert(r.props@ =~= Seq::<PendingProp<R>>::empty());
        r
    }

    /// Adds a plain route prop under `key`.
    pub fn prop(self, key: &str, resolver: R) -> (r: Self)
        ensures
            r@.props.len() == self@.props.len() + 1,
            r@.props.drop_last() == self@.props,
            plain_prop(r@.props.last(), key@, resolver),
            r@ == (DynamicPageView { props: r@.props, ..self@ }),
    {
        let p = PendingProp::value(key.to_owned(), resolver);
        let r = self.pending_prop(p);
        assert(r@.props.drop_last() =~= self@.props);
        r
    }

    /// Adds an already built prop.
    pub fn pending_prop(self, prop: PendingProp<R>) -> (r: Self)
        ensures
            r@ == (DynamicPageView { props: self@.props.push(prop), ..self@ }),
    {
        let mut props = self.props;
        props.push(prop);
        DynamicPage { props, ..self }
    }

    /// Sets the response status.
    pub fn status(self, status: u16) -> (r: Self)
        ensures
            r@ == (DynamicPageView { status, ..self@ }),
    {
        DynamicPage { status, ..self }
    }

    /// Clears encrypted browser history.
    pub fn clear_history(self) -> (r: Self)
        ensures
            r@ == (DynamicPageView { clear_history: true, ..self@ }),
    {
        DynamicPage { clear_history: true, ..self }
    }

    /// Encrypts browser history for this page.
    pub fn encrypt_history(self) -> (r: Self)
        ensures
            r@ == (DynamicPageView { encrypt_history: true, ..self@ }),
    {
        DynamicPage { encrypt_history: true, ..self }
    }

    /// Preserves the original URL fragment across a redirect.
    pub fn preserve_fragment(self) -> (r: Self)
        ensures
            r@ == (DynamicPageView { preserve_fragment: true, ..self@ }),
    {
        DynamicPage { preserve_fragment: true, ..self }
    }

    /// Attaches a flash value, replacing an earlier one under `key`.
    pub fn flash(self, key: &str, value: serde_json::Value) -> (r: Self)
        ensures
            r@ == (DynamicPageView { flash: self@.flash.insert(key@, value), ..self@ }),
    {
        let ghost before = self.flash.as_map();
        let mut flash = self.flash;
        flash.insert(key.to_owned(), value);
        assert(flash.as_map() =~= before.insert(key@, value));
        DynamicPage { flash, ..self }
    }

    /// The response status.
    pub fn status_code(&self) -> (s: u16)
        ensures
            s == self@.status,
    {
        self.status
    }

    /// Finalizes the page for `visit`: the route props and the shared props
    /// are selected, resolved and assembled as
    /// [`finalize_visit_page`](crate::page::render::finalize_visit_page) does.
    pub fn finalize<E, F: Fn(R) -> Result<serde_json::Value, E>>(
        self,
        visit: &Visit,
        shared: Option<Vec<PendingProp<R>>>,
        transient: Option<&TransientData<serde_json::Value>>,
        version: Option<AssetVersion>,
        resolve: F,
    ) -> (r: Result<(Page, Vec<(String, E)>), E>)
        requires
            forall|x: R| call_requires(resolve, (x,)),
        ensures
            visit_page_finalized(
                *visit,
                self@.component,
                self@.encrypt_history,
                self@.clear_history,
                self@.preserve_fragment,
                self@.props,
                opt_props(shared),
                transient,
                self@.flash,
                version,
                resolve,
                r,
            ),
    {
        finalize_visit_page(
            visit,
            self.component.as_str(),
            self.encrypt_history,
            self.clear_history,
            self.preserve_fragment,
            self.props,
            shared,
            transient,
            self.flash,
            version,
            resolve,
        )
    }
}

} // verus!
