//! The request-aware rendering façade a handler receives.

use crate::assets::AssetVersion;
use crate::engine::opt_props;
use crate::json::{is_object_text, json_text_of, object_entries, object_text, texts_of};
use crate::page::dynamic::{plain_prop, DynamicPage, DynamicPageView};
use crate::page::model::Page;
use crate::page::render::visit_page_finalized;
use crate::props::pending::PendingProp;
use crate::str_map::sorted_keys;
use crate::transient::TransientData;
use crate::visit::Visit;
use vstd::prelude::*;

verus! {

/// The rendering façade for one request: the parsed visit it renders for.
pub struct Inertia {
    visit: Visit,
}

/// The keys of object members.
pub open spec fn member_keys(entries: Seq<(String, serde_json::Value)>) -> Seq<Seq<char>> {
    entries.map_values(|e: (String, serde_json::Value)| e.0@)
}

/// The values of object members.
pub open spec fn member_values(entries: Seq<(String, serde_json::Value)>) -> Seq<serde_json::Value> {
    entries.map_values(|e: (String, serde_json::Value)| e.1)
}

/// `entries` are the members of the object `value`, in key order.
pub open spec fn members_of(value: serde_json::Value, entries: Seq<(String, serde_json::Value)>) -> bool {
    &&& sorted_keys(member_keys(entries))
    &&& json_text_of(value) == object_text(member_keys(entries), texts_of(member_values(entries)))
}

/// `props` are plain props, one per member of `entries`, in order, each
/// resolving to the member's value.
pub open spec fn member_props(
    entries: Seq<(String, serde_json::Value)>,
    props: Seq<PendingProp<serde_json::Value>>,
) -> bool {
    &&& props.len() == entries.len()
    &&& forall|i: int| 0 <= i < props.len() ==> plain_prop(#[trigger] props[i], entries[i].0@, entries[i].1)
}

/// The route props rendered from serialized props `value`: one plain prop
/// per member when it is an object, else the single prop `value`.
pub open spec fn rendered_props(value: serde_json::Value, props: Seq<PendingProp<serde_json::Value>>) -> bool {
    if is_object_text(json_text_of(value)) {
        exists|entries: Seq<(String, serde_json::Value)>| #[trigger] members_of(value, entries) && member_props(entries, props)
    } else {
        props.len() == 1 && plain_prop(props[0], "value"@, value)
    }
}

/// Hands each prop's value back as it is.
pub fn resolve_value(v: serde_json::Value) -> (r: Result<serde_json::Value, ()>)
    ensures
        r == Ok::<serde_json::Value, ()>(v),
{
    Ok(v)
}

impl Inertia {
    /// The visit this façade renders for.
    pub closed spec fn visit_spec(&self) -> Visit {
        self.visit
    }

    /// A façade for `visit`.
    pub fn new(visit: Visit) -> (r: Inertia)
        ensures
            r.visit_spec() == visit,
    {
        Inertia { visit }
    }

    /// The parsed visit.
    pub fn visit(&self) -> (r: &Visit)
        ensures
            *r == self.visit_spec(),
    {
        &self.visit
    }

    /// Starts an untyped page for `component`.
    pub fn page<R>(component: &str) -> (r: DynamicPage<R>)
        ensures
            r@ == (DynamicPageView::<R> {
                component: component@,
                props: Seq::empty(),
                encrypt_history: false,
                clear_history: false,
                preserve_fragment: false,
                flash: Map::empty(),
                status: 200,
            }),
    {
        DynamicPage::new(component)
    }

    /// Starts the page for `component` with serialized `props`: each member
    /// of an object becomes a plain route prop resolving to its value, in
    /// key order; any other value becomes the prop `value`.
    pub fn render_page(component: &str, props: serde_json::Value) -> (r: DynamicPage<serde_json::Value>)
        ensures
            rendered_props(props, r@.props),
            r@ == (DynamicPageView {
                component: component@,
                props: r@.props,
                encrypt_history: false,
                clear_history: false,
                preserve_fragment: false,
                flash: Map::empty(),
                status: 200,
            }),
    {
        let ghost value = props;
        let mut page: DynamicPage<serde_json::Value> = DynamicPage::new(component);
        match object_entries(props) {
            Ok(entries) => {
                let ghost es = entries@;
                proof {
                    reveal(object_text);
                }
                assert(is_object_text(json_text_of(value)));
                let n = entries.len();
                let mut rest = entries;
                let mut i: usize = 0;
                while i < n
                    invariant
                        n == es.len(),
                        0 <= i <= n,
                        rest@ == es.skip(i as int),
                        page@.status == 200,
                        page@.component == component@,
                        !page@.encrypt_history && !page@.clear_history && !page@.preserve_fragment,
                        page@.flash == Map::<Seq<char>, serde_json::Value>::empty(),
                        member_props(es.take(i as int), page@.props),
                    decreases n - i,
                {
                    assert(rest@[0] == es[i as int]);
                    let (key, v) = crate::engine::take_first_of(&mut rest);
                    assert(es.skip(i as int).drop_first() =~= es.skip(i + 1));
                    let ghost before = page@.props;
                    page = page.prop(key.as_str(), v);
                    proof {
                        assert(page@.props.drop_last() == before);
                        assert forall|j: int| 0 <= j < page@.props.len() implies plain_prop(
                            #[trigger] page@.props[j],
                            es.take(i + 1)[j].0@,
                            es.take(i + 1)[j].1,
                        ) by {
                            if j < before.len() {
                                assert(page@.props[j] == before[j]);
                            }
                        }
                    }
                    i = i + 1;
                }
                assert(es.take(n as int) =~= es);
                assert(members_of(value, es));
                assert(rendered_props(value, page@.props));
            },
            Err(other) => {
                page = page.prop("value", other);
                proof {
                    reveal_strlit("value");
                }
                assert(rendered_props(value, page@.props));
            },
        }
        page
    }

    /// Renders `component` with serialized `props` (see
    /// [`render_page`](Inertia::render_page)), finalized for this visit
    /// with the shared props, the loaded transient data and the asset
    /// version.
    pub fn render(
        &self,
        component: &str,
        props: serde_json::Value,
        shared: Option<Vec<PendingProp<serde_json::Value>>>,
        transient: Option<&TransientData<serde_json::Value>>,
        version: Option<AssetVersion>,
    ) -> (r: Result<(Page, Vec<(String, ())>), ()>)
        ensures
            exists|route: Seq<PendingProp<serde_json::Value>>|
                #[trigger] rendered_props(props, route) && visit_page_finalized(
                    self.visit_spec(),
                    component@,
                    false,
                    false,
                    false,
                    route,
                    opt_props(shared),
                    transient,
                    Map::empty(),
                    version,
                    resolve_value,
                    r,
                ),
    {
        let page = Inertia::render_page(component, props);
        let ghost route = page@.props;
        let r = page.finalize(&self.visit, shared, transient, version, resolve_value);
        assert(rendered_props(props, route));
        r
    }
}

} // verus!
