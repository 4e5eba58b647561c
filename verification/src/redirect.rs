//! Redirects, external locations, and how non-page responses are finalized.

use crate::cookie_store::{check_header_value, header_value_ok};
use crate::str_map::StrMap;
use crate::text::{owned, push_str};
use crate::transient::{extended_with_clones, reflashed_slots, TransientData};
use crate::visit::{redirect_status, redirect_status_of, Method};
use vstd::prelude::*;

verus! {

broadcast use vstd::string::group_string_axioms;

/// A method-aware internal redirect, with flash values for the next request.
#[derive(Debug)]
pub struct Redirect<V> {
    url: String,
    back: bool,
    flash: StrMap<V>,
}

impl<V> Redirect<V> {
    /// The concrete destination, or the fallback of a redirect back.
    pub closed spec fn url_view(&self) -> Seq<char> {
        self.url@
    }

    /// Whether the redirect goes back to the referring page.
    pub closed spec fn is_back(&self) -> bool {
        self.back
    }

    /// The flash values.
    pub closed spec fn flash_map(&self) -> Map<Seq<char>, V> {
        self.flash.as_map()
    }

    /// Where the redirect goes for a request with `referer`.
    pub open spec fn destination(&self, referer: Option<Seq<char>>) -> Seq<char> {
        if self.is_back() && referer is Some {
            referer->0
        } else {
            self.url_view()
        }
    }

    /// A redirect to `url`.
    pub fn new(url: &str) -> (r: Self)
        ensures
            r.url_view() == url@,
            !r.is_back(),
            r.flash_map() == Map::<Seq<char>, V>::empty(),
    {
        let r = Redirect { url: owned(url), back: false, flash: StrMap::new() };
        assert(r.flash_map() =~= Map::<Seq<char>, V>::empty());
        r
    }

    /// A redirect to a concrete destination.
    pub fn to(url: &str) -> (r: Self)
        ensures
            r.url_view() == url@,
            !r.is_back(),
            r.flash_map() == Map::<Seq<char>, V>::empty(),
    {
        Self::new(url)
    }

    /// A redirect to the referring page, falling back to `/`.
    pub fn back() -> (r: Self)
        ensures
            r.url_view() == "/"@,
            r.is_back(),
            r.flash_map() == Map::<Seq<char>, V>::empty(),
    {
        Self::back_or("/")
    }

    /// A redirect to the referring page, falling back to `url`.
    pub fn back_or(url: &str) -> (r: Self)
        ensures
            r.url_view() == url@,
            r.is_back(),
            r.flash_map() == Map::<Seq<char>, V>::empty(),
    {
        let r = Redirect { url: owned(url), back: true, flash: StrMap::new() };
        assert(r.flash_map() =~= Map::<Seq<char>, V>::empty());
        r
    }

    /// The concrete destination, or the fallback of a redirect back.
    pub fn url(&self) -> (r: &str)
        ensures
            r@ == self.url_view(),
    {
        self.url.as_str()
    }

    /// Attaches a flash value, replacing one under the same key.
    pub fn flash(self, key: &str, value: V) -> (r: Self)
        ensures
            r.flash_map() == self.flash_map().insert(key@, value),
            r.url_view() == self.url_view(),
            r.is_back() == self.is_back(),
    {
        let mut r = self;
        let ghost before = r.flash.as_map();
        r.flash.insert(owned(key), value);
        assert(r.flash.as_map() =~= before.insert(key@, value));
        r
    }

    /// Whether any flash value is attached.
    pub fn has_flash(&self) -> (b: bool)
        ensures
            b == (self.flash_map().dom() != Set::<Seq<char>>::empty()),
    {
        let b = !self.flash.is_empty();
        proof {
            if b {
                assert(self.flash_map().dom().contains(self.flash.keys()[0]));
            } else {
                assert(self.flash_map().dom() =~= Set::<Seq<char>>::empty());
            }
        }
        b
    }

    /// The flash values.
    pub fn into_flash(self) -> (r: StrMap<V>)
        ensures
            r.as_map() == self.flash_map(),
    {
        self.flash
    }

    /// Where the redirect goes for a request with `referer`.
    pub fn resolve<'a>(&'a self, referer: Option<&'a str>) -> (r: &'a str)
        ensures
            r@ == self.destination(
                match referer {
                    Some(s) => Some(s@),
                    None => None,
                },
            ),
    {
        if self.back {
            match referer {
                Some(s) => s,
                None => self.url.as_str(),
            }
        } else {
            self.url.as_str()
        }
    }
}

/// An external location visit: a full page load of the URL.
#[derive(Clone, Debug)]
pub struct Location {
    url: String,
}

impl Location {
    /// The destination.
    pub closed spec fn url_view(&self) -> Seq<char> {
        self.url@
    }

    /// An external location visit to `url`.
    pub fn external(url: &str) -> (r: Self)
        ensures
            r.url_view() == url@,
    {
        Location { url: owned(url) }
    }

    /// An external location visit to `url`.
    pub fn new(url: &str) -> (r: Self)
        ensures
            r.url_view() == url@,
    {
        Self::external(url)
    }

    /// The destination.
    pub fn url(&self) -> (r: &str)
        ensures
            r@ == self.url_view(),
    {
        self.url.as_str()
    }
}

/// The RFC 3986 reading of `url` by `fluent_uri::UriRef::parse`: whether it
/// has a fragment, when it is a valid URI reference.
pub uninterp spec fn uri_reference(url: Seq<char>) -> Option<bool>;

/// Calls `fluent_uri::UriRef::parse`: whether the reference has a
/// fragment, or the parse error's text when `url` is no valid URI
/// reference (that text is not stated).
#[verifier::external_body]
fn parse_uri_reference(url: &str) -> (r: Result<bool, String>)
    ensures
        match r {
            Ok(f) => uri_reference(url@) == Some(f),
            Err(_) => uri_reference(url@) is None,
        },
{
    match fluent_uri::UriRef::parse(url) {
        Ok(parsed) => Ok(parsed.has_fragment()),
        Err(error) => Err(error.to_string()),
    }
}

/// Why a response could not be finalized.
#[derive(Debug)]
pub enum CoreError {
    /// A response header value could not be constructed.
    InvalidHeader(String),
    /// A redirect or location URL was not a valid URI reference; the
    /// parser's description.
    InvalidUri(String),
    /// Flash or redirected errors were used without a transient store.
    MissingTransientStore,
    /// Transient storage failed to load or commit; its description.
    Transient(String),
}

impl CoreError {
    /// A human-readable description.
    pub fn message(&self) -> (s: String)
        ensures
            s@ == match self {
                CoreError::InvalidHeader(d) => "invalid Inertia response header: "@ + d@,
                CoreError::InvalidUri(d) => "invalid Inertia URI reference: "@ + d@,
                CoreError::MissingTransientStore => "Inertia flash or redirected error state requires a transient store; configure InertiaAppBuilder::transient(...)"@,
                CoreError::Transient(d) => "failed to load or commit Inertia transient state: "@ + d@,
            },
    {
        match self {
            CoreError::InvalidHeader(d) => {
                let mut s = "invalid Inertia response header: ".to_owned();
                push_str(&mut s, d.as_str());
                s
            },
            CoreError::InvalidUri(d) => {
                let mut s = "invalid Inertia URI reference: ".to_owned();
                push_str(&mut s, d.as_str());
                s
            },
            CoreError::MissingTransientStore => "Inertia flash or redirected error state requires a transient store; configure InertiaAppBuilder::transient(...)".to_owned(),
            CoreError::Transient(d) => {
                let mut s = "failed to load or commit Inertia transient state: ".to_owned();
                push_str(&mut s, d.as_str());
                s
            },
        }
    }

    /// The body of the 500 response that reports the error: the description
    /// for a missing transient store, a fixed text otherwise.
    pub fn response_body(&self) -> (s: String)
        ensures
            s@ == match self {
                CoreError::MissingTransientStore => "Inertia flash or redirected error state requires a transient store; configure InertiaAppBuilder::transient(...)"@,
                _ => "failed to build Inertia response"@,
            },
    {
        match self {
            CoreError::MissingTransientStore => self.message(),
            _ => "failed to build Inertia response".to_owned(),
        }
    }
}

/// The header that carries a redirect's target.
#[derive(Clone, Copy, Debug, PartialEq, Eq, Structural)]
pub enum TargetHeader {
    /// `Location`.
    Location,
    /// `X-Inertia-Location`: the client makes a full page visit.
    InertiaLocation,
    /// `X-Inertia-Redirect`: the client follows it keeping the fragment.
    InertiaRedirect,
}

/// A finalized redirect-like response: its status and its one target
/// header.  `Vary: X-Inertia` is added to every such response.
#[derive(Debug)]
pub struct RedirectResponse {
    pub status: u16,
    pub header: TargetHeader,
    pub target: String,
}

/// What finalizing a redirect to `url` with `status` gives.
pub open spec fn redirect_to(status: u16, url: Seq<char>, r: Result<RedirectResponse, CoreError>) -> bool {
    match uri_reference(url) {
        None => r matches Err(CoreError::InvalidUri(_)),
        Some(_) => if header_value_ok(url) {
            r matches Ok(resp) && resp.status == status && resp.header == TargetHeader::Location
                && resp.target@ == url
        } else {
            r matches Err(CoreError::InvalidHeader(_))
        },
    }
}

/// What finalizing a 409 Conflict to `url` gives: the client is sent there
/// by `X-Inertia-Redirect` when `url` has a fragment, by
/// `X-Inertia-Location` otherwise.
pub open spec fn conflict_to(url: Seq<char>, r: Result<RedirectResponse, CoreError>) -> bool {
    match uri_reference(url) {
        None => r matches Err(CoreError::InvalidUri(_)),
        Some(fragment) => if header_value_ok(url) {
            r matches Ok(resp) && resp.status == 409 && resp.header == (if fragment {
                TargetHeader::InertiaRedirect
            } else {
                TargetHeader::InertiaLocation
            }) && resp.target@ == url
        } else {
            r matches Err(CoreError::InvalidHeader(_))
        },
    }
}

/// Checks `url` as a target: whether it has a fragment.
fn checked_target(url: &str) -> (r: Result<bool, CoreError>)
    ensures
        match uri_reference(url@) {
            None => r matches Err(CoreError::InvalidUri(_)),
            Some(f) => if header_value_ok(url@) {
                r == Ok::<bool, CoreError>(f)
            } else {
                r matches Err(CoreError::InvalidHeader(_))
            },
        },
{
    match parse_uri_reference(url) {
        Err(detail) => Err(CoreError::InvalidUri(detail)),
        Ok(fragment) => match check_header_value(url) {
            Ok(()) => Ok(fragment),
            Err(detail) => Err(CoreError::InvalidHeader(detail)),
        },
    }
}

/// A redirect to `url` with `status`.
pub fn redirect_response(status: u16, url: &str) -> (r: Result<RedirectResponse, CoreError>)
    ensures
        redirect_to(status, url@, r),
{
    match checked_target(url) {
        Ok(_) => Ok(RedirectResponse { status, header: TargetHeader::Location, target: owned(url) }),
        Err(e) => Err(e),
    }
}

/// A 409 Conflict that sends the client to `url`.
pub fn conflict_response(url: &str) -> (r: Result<RedirectResponse, CoreError>)
    ensures
        conflict_to(url@, r),
{
    match checked_target(url) {
        Ok(fragment) => {
            let header = if fragment {
                TargetHeader::InertiaRedirect
            } else {
                TargetHeader::InertiaLocation
            };
            Ok(RedirectResponse { status: 409, header, target: owned(url) })
        },
        Err(e) => Err(e),
    }
}

/// Finalizes a redirect: loaded transient state is carried over and the
/// redirect's flash values are added on top; the response goes to the
/// resolved destination, 303 after a write, 302 otherwise.
pub fn finalize_redirect<V: Clone>(
    redirect: Redirect<V>,
    method: Method,
    referer: Option<&str>,
    transient: Option<TransientData<V>>,
) -> (r: (Result<RedirectResponse, CoreError>, Option<TransientData<V>>))
    ensures
        redirect_to(
            redirect_status_of(method),
            redirect.destination(
                match referer {
                    Some(s) => Some(s@),
                    None => None,
                },
            ),
            r.0,
        ),
        transient is None <==> r.1 is None,
        transient matches Some(before) ==> r.1 matches Some(after) && exists|carried: Map<Seq<char>, V>|
            extended_with_clones(
                before.outgoing_spec().flash.as_map(),
                before.incoming_spec().flash.as_map(),
                carried,
            ) && after.outgoing_spec().flash.as_map() == carried.union_prefer_right(redirect.flash_map())
                && reflashed_slots(before, after) && after.incoming_spec() == before.incoming_spec()
                && after.scope_view() == before.scope_view(),
{
    let destination = owned(redirect.resolve(referer));
    let response = redirect_response(redirect_status(method), destination.as_str());
    let out = match transient {
        Some(data) => {
            let mut data = data;
            data.reflash();
            data.flash_all(redirect.into_flash());
            Some(data)
        },
        None => None,
    };
    (response, out)
}

/// Refuses a response that needs transient state when no store is
/// configured.
pub fn check_transient_store(kind: crate::engine::PendingKind, has_store: bool) -> (r: Result<(), CoreError>)
    ensures
        r is Err <==> (!has_store && match kind {
            crate::engine::PendingKind::Page { has_flash } => has_flash,
            crate::engine::PendingKind::Redirect { has_flash } => has_flash,
            crate::engine::PendingKind::Location => false,
            crate::engine::PendingKind::InvalidForm => true,
        }),
        r matches Err(e) ==> e is MissingTransientStore,
{
    if !has_store && crate::engine::requires_transient(kind) {
        Err(CoreError::MissingTransientStore)
    } else {
        Ok(())
    }
}

/// Finalizes an external location visit: a 409 Conflict that makes an
/// Inertia client navigate itself, or a method-aware redirect for a plain
/// browser request.  Transient state is left alone.
pub fn finalize_location(location: &Location, is_inertia: bool, method: Method) -> (r: Result<
    RedirectResponse,
    CoreError,
>)
    ensures
        is_inertia ==> conflict_to(location.url_view(), r),
        !is_inertia ==> redirect_to(redirect_status_of(method), location.url_view(), r),
{
    if is_inertia {
        conflict_response(location.url())
    } else {
        redirect_response(redirect_status(method), location.url())
    }
}

/// Finalizes a failed form validation: loaded state is carried over, the
/// errors (and old input, when the form opted in) are stored for the next
/// request, and the response is a 303 back to the form.
pub fn finalize_invalid_form<V: Clone>(
    errors: V,
    old_input: Option<V>,
    back: &str,
    transient: TransientData<V>,
) -> (r: (Result<RedirectResponse, CoreError>, TransientData<V>))
    ensures
        redirect_to(303, back@, r.0),
        extended_with_clones(
            transient.outgoing_spec().flash.as_map(),
            transient.incoming_spec().flash.as_map(),
            r.1.outgoing_spec().flash.as_map(),
        ),
        r.1.outgoing_spec().errors == Some(errors),
        old_input is Some ==> r.1.outgoing_spec().old_input == old_input,
        old_input is None && transient.outgoing_spec().old_input is Some ==> r.1.outgoing_spec().old_input
            == transient.outgoing_spec().old_input,
        old_input is None && transient.outgoing_spec().old_input is None ==> crate::transient::cloned_option(
            transient.incoming_spec().old_input,
            r.1.outgoing_spec().old_input,
        ),
        r.1.incoming_spec() == transient.incoming_spec(),
        r.1.scope_view() == transient.scope_view(),
{
    let mut data = transient;
    data.reflash();
    data.store_errors(errors);
    match old_input {
        Some(o) => data.store_old_input(o),
        None => {},
    }
    (redirect_response(303, back), data)
}

/// Answers an Inertia visit that holds a stale asset version: a 409
/// Conflict that reloads the visited URL, with loaded state carried over
/// so that nothing flashed is lost.
pub fn finalize_version_mismatch<V: Clone>(uri: &str, transient: Option<TransientData<V>>) -> (r: (
    Result<RedirectResponse, CoreError>,
    Option<TransientData<V>>,
))
    ensures
        conflict_to(uri@, r.0),
        transient is None <==> r.1 is None,
        transient matches Some(before) ==> r.1 matches Some(after) && extended_with_clones(
            before.outgoing_spec().flash.as_map(),
            before.incoming_spec().flash.as_map(),
            after.outgoing_spec().flash.as_map(),
        ) && reflashed_slots(before, after) && after.incoming_spec() == before.incoming_spec(),
{
    let response = conflict_response(uri);
    let out = match transient {
        Some(data) => {
            let mut data = data;
            data.reflash();
            Some(data)
        },
        None => None,
    };
    (response, out)
}

/// A redirect back goes to the referring page when the request names one
/// and to its fallback otherwise; any other redirect ignores the referrer.
pub proof fn law_back_resolution<V>(redirect: Redirect<V>, referer: Option<Seq<char>>)
    ensures
        redirect.is_back() && referer is Some ==> redirect.destination(referer) == referer->0,
        redirect.is_back() && referer is None ==> redirect.destination(referer) == redirect.url_view(),
        !redirect.is_back() ==> redirect.destination(referer) == redirect.url_view(),
{
}

/// An external location answers an Inertia visit with 409 Conflict and the
/// target in `X-Inertia-Location` (or `X-Inertia-Redirect` with a
/// fragment), never with a plain redirect the XHR would follow.
pub proof fn law_inertia_location_is_conflict(url: Seq<char>, r: Result<RedirectResponse, CoreError>)
    requires
        conflict_to(url, r),
        r is Ok,
    ensures
        r->Ok_0.status == 409,
        r->Ok_0.header != TargetHeader::Location,
        r->Ok_0.target@ == url,
{
}

} // verus!
