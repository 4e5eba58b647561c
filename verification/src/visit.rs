//! Parsed visit information for protocol-aware handlers.

use crate::request::context::{HeaderValues, RequestContext, RequestContextView};
use crate::text::owned;
use vstd::prelude::*;

verus! {

broadcast use vstd::string::group_string_axioms;

/// An HTTP request method.
#[derive(Clone, Copy, Debug, PartialEq, Eq, Structural)]
pub enum Method {
    Get,
    Head,
    Post,
    Put,
    Patch,
    Delete,
    Options,
    Connect,
    Trace,
    /// Any extension method.
    Other,
}

/// Whether `m` writes state: POST, PUT, PATCH, or DELETE.
pub open spec fn writes(m: Method) -> bool {
    m == Method::Post || m == Method::Put || m == Method::Patch || m == Method::Delete
}

/// Whether `method` writes state: POST, PUT, PATCH, or DELETE.
pub fn is_write_method(method: Method) -> (b: bool)
    ensures
        b == writes(method),
{
    match method {
        Method::Post | Method::Put | Method::Patch | Method::Delete => true,
        _ => false,
    }
}

/// The status of a method-aware redirect: 303 See Other after a write,
/// 302 Found otherwise.
pub open spec fn redirect_status_of(m: Method) -> u16 {
    if writes(m) {
        303
    } else {
        302
    }
}

/// The status of a method-aware redirect: 303 See Other after a write,
/// 302 Found otherwise.
pub fn redirect_status(method: Method) -> (s: u16)
    ensures
        s == redirect_status_of(method),
{
    if is_write_method(method) {
        303
    } else {
        302
    }
}

/// Parsed Inertia visit information.
#[derive(Debug)]
pub struct Visit {
    context: RequestContext,
    method: Method,
    uri: String,
    referer: Option<String>,
}

/// The abstract content of a [`Visit`].
pub struct VisitView {
    pub context: RequestContextView,
    pub method: Method,
    pub uri: Seq<char>,
    pub referer: Option<Seq<char>>,
}

impl View for Visit {
    type V = VisitView;

    closed spec fn view(&self) -> VisitView {
        VisitView {
            context: self.context@,
            method: self.method,
            uri: self.uri@,
            referer: crate::request::context::opt_view(self.referer),
        }
    }
}

/// Whether a standard prop `name` of `component` is selected, ignoring
/// metadata: always outside a GET partial reload of `component`; otherwise
/// unless excluded, or, with no exclusion, when requested or when nothing is
/// requested.
pub open spec fn visit_selects(v: VisitView, component: Seq<char>, name: Seq<char>) -> bool {
    if v.method != Method::Get || !v.context.partial_reload_matches(component) {
        true
    } else if v.context.partial_except.len() > 0 {
        !v.context.partial_except.contains(name)
    } else if v.context.partial_data.len() > 0 {
        v.context.partial_data.contains(name)
    } else {
        true
    }
}

impl Visit {
    /// Builds a visit from a request's protocol headers, its method, its
    /// path and query (`"/"` when absent), and its `Referer` header.
    pub fn from_parts(
        headers: &HeaderValues,
        method: Method,
        path_and_query: Option<&str>,
        referer: Option<&str>,
    ) -> (r: Self)
        ensures
            r@.context == crate::request::context::context_of(*headers),
            r@.method == method,
            r@.uri == match path_and_query {
                Some(p) => p@,
                None => seq!['/'],
            },
            r@.referer == match referer {
                Some(s) => Some(s@),
                None => None,
            },
    {
        let uri = match path_and_query {
            Some(p) => owned(p),
            None => {
                let mut s = String::new();
                crate::text::push_char(&mut s, '/');
                assert(s@ =~= seq!['/']);
                s
            },
        };
        let referer = match referer {
            Some(s) => Some(owned(s)),
            None => None,
        };
        Visit { context: RequestContext::from_header_values(headers), method, uri, referer }
    }

    /// The parsed protocol headers.
    pub fn context(&self) -> (r: &RequestContext)
        ensures
            r@ == self@.context,
    {
        &self.context
    }

    /// The request method.
    pub fn method(&self) -> (r: Method)
        ensures
            r == self@.method,
    {
        self.method
    }

    /// The request path and query.
    pub fn uri(&self) -> (r: &str)
        ensures
            r@ == self@.uri,
    {
        self.uri.as_str()
    }

    /// The `Referer` header, if any.
    pub fn referer(&self) -> (r: Option<&str>)
        ensures
            match r {
                Some(s) => self@.referer == Some(s@),
                None => self@.referer is None,
            },
    {
        match &self.referer {
            Some(s) => Some(s.as_str()),
            None => None,
        }
    }

    /// Whether this request is an Inertia visit.
    pub fn is_inertia(&self) -> (b: bool)
        ensures
            b == self@.context.inertia,
    {
        self.context.is_inertia()
    }

    /// Whether partial reload headers are present.
    pub fn is_partial(&self) -> (b: bool)
        ensures
            b == self@.context.partial_component is Some,
    {
        self.context.partial_component().is_some()
    }

    /// Whether this is a prefetch visit.
    pub fn is_prefetch(&self) -> (b: bool)
        ensures
            b == self@.context.prefetch,
    {
        self.context.is_prefetch()
    }

    /// Whether this is an explicit reload.
    pub fn is_reload(&self) -> (b: bool)
        ensures
            b == self@.context.reload,
    {
        self.context.is_reload()
    }

    /// The request's asset version.
    pub fn version(&self) -> (r: Option<&str>)
        ensures
            match r {
                Some(s) => self@.context.version == Some(s@),
                None => self@.context.version is None,
            },
    {
        self.context.version()
    }

    /// The requested partial props.
    pub fn requested_props(&self) -> (r: &[String])
        ensures
            crate::text::strs(r@) == self@.context.partial_data,
    {
        self.context.partial_data()
    }

    /// The excluded partial props.
    pub fn excluded_props(&self) -> (r: &[String])
        ensures
            crate::text::strs(r@) == self@.context.partial_except,
    {
        self.context.partial_except()
    }

    /// The reset props.
    pub fn reset_props(&self) -> (r: &[String])
        ensures
            crate::text::strs(r@) == self@.context.reset,
    {
        self.context.reset()
    }

    /// The once props the client already holds.
    pub fn except_once_props(&self) -> (r: &[String])
        ensures
            crate::text::strs(r@) == self@.context.except_once,
    {
        self.context.except_once_props()
    }

    /// Whether a standard eager prop `name` of page `component` is selected
    /// for this visit.
    pub fn selects(&self, component: &str, name: &str) -> (b: bool)
        ensures
            b == visit_selects(self@, component@, name@),
    {
        if self.method != Method::Get || !self.context.partial_reload_matches(component) {
            return true;
        }
        if !self.context.partial_except_is_empty() {
            return !self.context.partial_except_contains(name);
        }
        if !self.context.partial_data_is_empty() {
            return self.context.partial_data_contains(name);
        }
        true
    }

    /// The requested validation error bag.
    pub fn error_bag(&self) -> (r: Option<&str>)
        ensures
            match r {
                Some(s) => self@.context.error_bag == Some(s@),
                None => self@.context.error_bag is None,
            },
    {
        self.context.error_bag()
    }
}

} // verus!
