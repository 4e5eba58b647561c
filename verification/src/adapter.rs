//! Decisions of the Rocket integration: which request headers must be
//! text, whether the application can be installed, what a response hook
//! does, and how a rejected form is answered.

use crate::form::FormError;
use crate::text::{chars_have_prefix_at, chars_of, has_prefix, owned, push_str, str_eq};
use vstd::prelude::*;

verus! {

broadcast use vstd::string::group_string_axioms;

/// Whether a (lower-case) header name belongs to the Inertia protocol: an
/// `x-inertia` header, `accept`, `purpose` or `x-requested-with`.
pub open spec fn inertia_protocol_header(name: Seq<char>) -> bool {
    has_prefix(name, "x-inertia"@) || name == "accept"@ || name == "purpose"@ || name == "x-requested-with"@
}

/// Whether a (lower-case) header name belongs to the Inertia protocol, so
/// that a value that is not valid text rejects the request.
pub fn is_inertia_protocol_header(name: &str) -> (b: bool)
    ensures
        b == inertia_protocol_header(name@),
{
    let chars = chars_of(name);
    let prefix = chars_of("x-inertia");
    proof {
        assert(chars@.subrange(0, chars@.len() as int) =~= chars@);
    }
    chars_have_prefix_at(&chars, 0, &prefix) || str_eq(name, "accept") || str_eq(name, "purpose") || str_eq(
        name,
        "x-requested-with",
    )
}

/// Whether the asset public path can be mounted: it starts with `/` and
/// holds no `?` or `#`.
pub open spec fn mountable_public_path(path: Seq<char>) -> bool {
    path.len() > 0 && path[0] == '/' && !path.contains('?') && !path.contains('#')
}

/// Whether the asset public path can be mounted.
pub fn is_mountable_public_path(path: &str) -> (b: bool)
    ensures
        b == mountable_public_path(path@),
{
    let chars = chars_of(path);
    if chars.len() == 0 || chars[0] != '/' {
        return false;
    }
    let mut i: usize = 0;
    while i < chars.len()
        invariant
            chars@ == path@,
            0 <= i <= chars@.len(),
            forall|j: int| 0 <= j < i ==> chars@[j] != '?' && chars@[j] != '#',
        decreases chars.len() - i,
    {
        if chars[i] == '?' || chars[i] == '#' {
            assert(path@.contains(chars@[i as int]));
            return false;
        }
        i = i + 1;
    }
    true
}

/// Installs the application at ignition: refused when an application is
/// installed already, or when the asset public path cannot be mounted.
pub fn ignite_check(already_installed: bool, public_path: &str) -> (r: Result<(), String>)
    ensures
        already_installed ==> (r matches Err(m) && m@
            == "inertia-rocket is installed more than once; attach exactly one InertiaFairing"@),
        !already_installed && !mountable_public_path(public_path@) ==> (r matches Err(m) && m@
            == "invalid Inertia asset public path for Rocket: "@ + public_path@),
        r is Ok <==> !already_installed && mountable_public_path(public_path@),
{
    if already_installed {
        return Err("inertia-rocket is installed more than once; attach exactly one InertiaFairing".to_owned());
    }
    if !is_mountable_public_path(public_path) {
        let mut m = "invalid Inertia asset public path for Rocket: ".to_owned();
        push_str(&mut m, public_path);
        return Err(m);
    }
    Ok(())
}

/// Installs an application in Rocket.
#[derive(Debug)]
pub struct InertiaFairing<A> {
    app: A,
}

impl<A> InertiaFairing<A> {
    /// The installed application.
    pub closed spec fn app_spec(&self) -> A {
        self.app
    }

    /// An installation fairing for `app`.
    pub fn new(app: A) -> (r: Self)
        ensures
            r.app_spec() == app,
    {
        InertiaFairing { app }
    }

    /// The installed application.
    pub fn app(&self) -> (r: &A)
        ensures
            *r == self.app_spec(),
    {
        &self.app
    }
}

/// What the response hook does with a response.
#[derive(Clone, Copy, Debug, PartialEq, Eq, Structural)]
pub enum ResponseStep {
    /// Replace it with the response a request guard stored early.
    UseEarly,
    /// Finalize the pending Inertia response the handler stored.
    Finalize,
    /// Leave it alone: no Inertia response is involved.
    Keep,
}

/// The response hook's step: an early response wins, then a pending one.
pub fn response_step(has_early: bool, has_pending: bool) -> (s: ResponseStep)
    ensures
        s == (if has_early {
            ResponseStep::UseEarly
        } else if has_pending {
            ResponseStep::Finalize
        } else {
            ResponseStep::Keep
        }),
{
    if has_early {
        ResponseStep::UseEarly
    } else if has_pending {
        ResponseStep::Finalize
    } else {
        ResponseStep::Keep
    }
}

/// How a rejected form data guard answers.
#[derive(Clone, Copy, Debug, PartialEq, Eq, Structural)]
pub enum FormRejection {
    /// 400 with the decoding error.
    BadRequest,
    /// 415 with a hint about multipart bodies.
    UnsupportedMediaType,
    /// A redirect back with the errors in transient state.
    Validation,
}

/// The rejection kind of a form error.
pub fn form_rejection(error: &FormError) -> (r: FormRejection)
    ensures
        r == match error {
            FormError::BadRequest(_) => FormRejection::BadRequest,
            FormError::UnsupportedMediaType => FormRejection::UnsupportedMediaType,
            FormError::Validation(_) => FormRejection::Validation,
        },
{
    match error {
        FormError::BadRequest(_) => FormRejection::BadRequest,
        FormError::UnsupportedMediaType => FormRejection::UnsupportedMediaType,
        FormError::Validation(_) => FormRejection::Validation,
    }
}

/// The status a data guard fails with: 400, 415, or 500 for a validation
/// failure (whose redirect the response hook then produces).
pub fn rejection_status(kind: FormRejection) -> (s: u16)
    ensures
        s == match kind {
            FormRejection::BadRequest => 400u16,
            FormRejection::UnsupportedMediaType => 415u16,
            FormRejection::Validation => 500u16,
        },
{
    match kind {
        FormRejection::BadRequest => 400,
        FormRejection::UnsupportedMediaType => 415,
        FormRejection::Validation => 500,
    }
}

/// The description of a form error as the Rocket integration words it.
pub fn rejection_message(error: &FormError) -> (s: String)
    ensures
        s@ == match error {
            FormError::BadRequest(e) => "invalid Inertia form body: "@ + e@,
            FormError::UnsupportedMediaType => "InertiaForm supports application/json and application/x-www-form-urlencoded; use a separate multipart data guard for file uploads"@,
            FormError::Validation(_) => "Inertia form validation failed"@,
        },
{
    match error {
        FormError::BadRequest(e) => {
            let mut s = "invalid Inertia form body: ".to_owned();
            push_str(&mut s, e.as_str());
            s
        },
        FormError::UnsupportedMediaType => "InertiaForm supports application/json and application/x-www-form-urlencoded; use a separate multipart data guard for file uploads".to_owned(),
        FormError::Validation(_) => "Inertia form validation failed".to_owned(),
    }
}

/// The body a rejected form answers with, when it is no redirect: the
/// decoding error itself, or the multipart hint.
pub fn rejection_body(error: &FormError) -> (r: Option<String>)
    ensures
        match error {
            FormError::BadRequest(e) => r matches Some(b) && b@ == e@,
            FormError::UnsupportedMediaType => r matches Some(b) && b@
                == "InertiaForm supports JSON and URL-encoded bodies; multipart requires a separate data guard"@,
            FormError::Validation(_) => r is None,
        },
{
    match error {
        FormError::BadRequest(e) => Some(owned(e.as_str())),
        FormError::UnsupportedMediaType => Some(
            "InertiaForm supports JSON and URL-encoded bodies; multipart requires a separate data guard".to_owned(),
        ),
        FormError::Validation(_) => None,
    }
}

/// Why the request guard could not hand a handler its Inertia façade.
#[derive(Debug)]
pub enum GuardFailure {
    /// No application was installed by the fairing.
    NotInstalled,
    /// The request could not be converted at the framework boundary.
    BadRequest(String),
    /// The visit holds a stale asset version; the conflict response is
    /// stored for the response hook.
    VersionMismatch,
    /// Preparing the request failed; the error response is stored for the
    /// response hook.
    PrepareFailed,
}

/// The status and message the guard fails with.
pub fn guard_rejection(failure: &GuardFailure) -> (r: (u16, String))
    ensures
        match failure {
            GuardFailure::NotInstalled => r.0 == 500 && r.1@ == "inertia-rocket is not installed; attach InertiaFairing"@,
            GuardFailure::BadRequest(e) => r.0 == 400 && r.1@ == e@,
            GuardFailure::VersionMismatch => r.0 == 409 && r.1@ == "Inertia asset version mismatch"@,
            GuardFailure::PrepareFailed => r.0 == 500 && r.1@ == "failed to prepare Inertia request"@,
        },
{
    match failure {
        GuardFailure::NotInstalled => (500, "inertia-rocket is not installed; attach InertiaFairing".to_owned()),
        GuardFailure::BadRequest(e) => (400, owned(e.as_str())),
        GuardFailure::VersionMismatch => (409, "Inertia asset version mismatch".to_owned()),
        GuardFailure::PrepareFailed => (500, "failed to prepare Inertia request".to_owned()),
    }
}

} // verus!
