//! Parsed Inertia protocol request headers.

use super::header_list::HeaderList;
use crate::text::{comma_tokens, str_eq, strs};
use vstd::prelude::*;

verus! {

/// The raw values of the protocol headers a request carried, as strings.
///
/// Framework adapters fill this from their header maps; a header that is
/// absent, or whose value is not valid UTF-8, is `None`.
#[derive(Debug, Default)]
pub struct HeaderValues {
    /// `X-Inertia`
    pub inertia: Option<String>,
    /// `X-Inertia-Version`
    pub version: Option<String>,
    /// `X-Inertia-Partial-Component`
    pub partial_component: Option<String>,
    /// `X-Inertia-Partial-Data`
    pub partial_data: Option<String>,
    /// `X-Inertia-Partial-Except`
    pub partial_except: Option<String>,
    /// `X-Inertia-Reset`
    pub reset: Option<String>,
    /// `X-Inertia-Error-Bag`
    pub error_bag: Option<String>,
    /// `X-Inertia-Infinite-Scroll-Merge-Intent`
    pub infinite_scroll_merge_intent: Option<String>,
    /// `X-Inertia-Except-Once-Props`
    pub except_once_props: Option<String>,
    /// `Purpose`
    pub purpose: Option<String>,
    /// `Cache-Control`
    pub cache_control: Option<String>,
}

/// The view of an optional string.
pub open spec fn opt_view(o: Option<String>) -> Option<Seq<char>> {
    match o {
        Some(s) => Some(s@),
        None => None,
    }
}

/// The tokens of an optional comma-separated header.
pub open spec fn opt_tokens(o: Option<String>) -> Seq<Seq<char>> {
    match o {
        Some(s) => comma_tokens(s@),
        None => Seq::empty(),
    }
}

/// The protocol state of one request.
pub struct RequestContextView {
    pub inertia: bool,
    pub version: Option<Seq<char>>,
    pub partial_component: Option<Seq<char>>,
    pub partial_data: Seq<Seq<char>>,
    pub partial_except: Seq<Seq<char>>,
    pub reset: Seq<Seq<char>>,
    pub error_bag: Option<Seq<char>>,
    pub merge_intent: Option<Seq<char>>,
    pub except_once: Seq<Seq<char>>,
    pub prefetch: bool,
    pub reload: bool,
}

impl RequestContextView {
    /// Whether a partial reload targets `component`.
    pub open spec fn partial_reload_matches(self, component: Seq<char>) -> bool {
        self.partial_component == Some(component)
    }
}

/// What the protocol headers of a request mean.
pub open spec fn context_of(h: HeaderValues) -> RequestContextView {
    RequestContextView {
        inertia: h.inertia matches Some(v) && v@ == "true"@,
        version: opt_view(h.version),
        partial_component: opt_view(h.partial_component),
        partial_data: opt_tokens(h.partial_data),
        partial_except: opt_tokens(h.partial_except),
        reset: opt_tokens(h.reset),
        error_bag: opt_view(h.error_bag),
        merge_intent: opt_view(h.infinite_scroll_merge_intent),
        except_once: opt_tokens(h.except_once_props),
        prefetch: h.purpose matches Some(v) && v@ == "prefetch"@,
        reload: opt_tokens(h.cache_control).contains("no-cache"@),
    }
}

/// Parsed Inertia protocol headers of one request.
#[derive(Debug)]
pub struct RequestContext {
    inertia: bool,
    version: Option<String>,
    partial_component: Option<String>,
    partial_data: HeaderList,
    partial_except: HeaderList,
    reset: HeaderList,
    error_bag: Option<String>,
    merge_intent: Option<String>,
    except_once: HeaderList,
    prefetch: bool,
    reload: bool,
}

impl View for RequestContext {
    type V = RequestContextView;

    closed spec fn view(&self) -> RequestContextView {
        RequestContextView {
            inertia: self.inertia,
            version: opt_view(self.version),
            partial_component: opt_view(self.partial_component),
            partial_data: self.partial_data@,
            partial_except: self.partial_except@,
            reset: self.reset@,
            error_bag: opt_view(self.error_bag),
            merge_intent: opt_view(self.merge_intent),
            except_once: self.except_once@,
            prefetch: self.prefetch,
            reload: self.reload,
        }
    }
}

fn copy_opt(o: &Option<String>) -> (r: Option<String>)
    ensures
        opt_view(r) == opt_view(*o),
{
    match o {
        Some(s) => Some(s.clone()),
        None => None,
    }
}

fn as_opt_str(o: &Option<String>) -> (r: Option<&str>)
    ensures
        match r {
            Some(s) => opt_view(*o) == Some(s@),
            None => o.is_none(),
        },
{
    match o {
        Some(s) => Some(s.as_str()),
        None => None,
    }
}

fn equals_literal(o: &Option<String>, lit: &str) -> (b: bool)
    ensures
        b == (o matches Some(v) && v@ == lit@),
{
    match o {
        Some(v) => str_eq(v.as_str(), lit),
        None => false,
    }
}

impl Default for RequestContext {
    fn default() -> (r: Self)
        ensures
            r@ == context_of(HeaderValues {
                inertia: None,
                version: None,
                partial_component: None,
                partial_data: None,
                partial_except: None,
                reset: None,
                error_bag: None,
                infinite_scroll_merge_intent: None,
                except_once_props: None,
                purpose: None,
                cache_control: None,
            }),
    {
        RequestContext {
            inertia: false,
            version: None,
            partial_component: None,
            partial_data: HeaderList::default(),
            partial_except: HeaderList::default(),
            reset: HeaderList::default(),
            error_bag: None,
            merge_intent: None,
            except_once: HeaderList::default(),
            prefetch: false,
            reload: false,
        }
    }
}

impl RequestContext {
    /// Parses the protocol headers of a request.
    pub fn from_header_values(h: &HeaderValues) -> (r: Self)
        ensures
            r@ == context_of(*h),
    {
        let cache = HeaderList::parse(as_opt_str(&h.cache_control));
        RequestContext {
            inertia: equals_literal(&h.inertia, "true"),
            version: copy_opt(&h.version),
            partial_component: copy_opt(&h.partial_component),
            partial_data: HeaderList::parse(as_opt_str(&h.partial_data)),
            partial_except: HeaderList::parse(as_opt_str(&h.partial_except)),
            reset: HeaderList::parse(as_opt_str(&h.reset)),
            error_bag: copy_opt(&h.error_bag),
            merge_intent: copy_opt(&h.infinite_scroll_merge_intent),
            except_once: HeaderList::parse(as_opt_str(&h.except_once_props)),
            prefetch: equals_literal(&h.purpose, "prefetch"),
            reload: cache.contains("no-cache"),
        }
    }

    /// Whether this is an Inertia visit.
    pub fn is_inertia(&self) -> (b: bool)
        ensures
            b == self@.inertia,
    {
        self.inertia
    }

    /// The asset version the client holds.
    pub fn version(&self) -> (r: Option<&str>)
        ensures
            r matches Some(s) ==> self@.version == Some(s@),
            r is None <==> self@.version is None,
    {
        as_opt_str(&self.version)
    }

    /// The component a partial reload targets.
    pub fn partial_component(&self) -> (r: Option<&str>)
        ensures
            r matches Some(s) ==> self@.partial_component == Some(s@),
            r is None <==> self@.partial_component is None,
    {
        as_opt_str(&self.partial_component)
    }

    /// Requested partial props.
    pub fn partial_data(&self) -> (r: &[String])
        ensures
            strs(r@) == self@.partial_data,
    {
        self.partial_data.iter()
    }

    /// Excluded partial props.
    pub fn partial_except(&self) -> (r: &[String])
        ensures
            strs(r@) == self@.partial_except,
    {
        self.partial_except.iter()
    }

    /// Props whose merge state is reset.
    pub fn reset(&self) -> (r: &[String])
        ensures
            strs(r@) == self@.reset,
    {
        self.reset.iter()
    }

    /// Once keys the client already holds.
    pub fn except_once_props(&self) -> (r: &[String])
        ensures
            strs(r@) == self@.except_once,
    {
        self.except_once.iter()
    }

    /// The requested validation error bag.
    pub fn error_bag(&self) -> (r: Option<&str>)
        ensures
            r matches Some(s) ==> self@.error_bag == Some(s@),
            r is None <==> self@.error_bag is None,
    {
        as_opt_str(&self.error_bag)
    }

    /// The infinite-scroll merge intent.
    pub fn infinite_scroll_merge_intent(&self) -> (r: Option<&str>)
        ensures
            r matches Some(s) ==> self@.merge_intent == Some(s@),
            r is None <==> self@.merge_intent is None,
    {
        as_opt_str(&self.merge_intent)
    }

    /// Whether this is a prefetch visit.
    pub fn is_prefetch(&self) -> (b: bool)
        ensures
            b == self@.prefetch,
    {
        self.prefetch
    }

    /// Whether this is an explicit reload.
    pub fn is_reload(&self) -> (b: bool)
        ensures
            b == self@.reload,
    {
        self.reload
    }

    /// Whether a partial reload targets `component`.
    pub fn partial_reload_matches(&self, component: &str) -> (b: bool)
        ensures
            b == self@.partial_reload_matches(component@),
    {
        match &self.partial_component {
            Some(c) => str_eq(c.as_str(), component),
            None => false,
        }
    }

    /// Whether `prop` was requested by name.
    pub fn partial_data_contains(&self, prop: &str) -> (b: bool)
        ensures
            b == self@.partial_data.contains(prop@),
    {
        self.partial_data.contains(prop)
    }

    /// Whether no prop was requested by name.
    pub fn partial_data_is_empty(&self) -> (b: bool)
        ensures
            b == (self@.partial_data.len() == 0),
    {
        self.partial_data.is_empty()
    }

    /// Whether `prop` was excluded by name.
    pub fn partial_except_contains(&self, prop: &str) -> (b: bool)
        ensures
            b == self@.partial_except.contains(prop@),
    {
        self.partial_except.contains(prop)
    }

    /// Whether no prop was excluded by name.
    pub fn partial_except_is_empty(&self) -> (b: bool)
        ensures
            b == (self@.partial_except.len() == 0),
    {
        self.partial_except.is_empty()
    }

    /// Whether the client already holds the once value under `key`.
    pub fn once_prop_is_excluded(&self, key: &str) -> (b: bool)
        ensures
            b == self@.except_once.contains(key@),
    {
        self.except_once.contains(key)
    }
}

} // verus!
