//! Redirect-based form extraction and validation.

use crate::json::{json_object, json_object_of, json_str, json_string_value, json_text_of, object_of, object_text};
use crate::str_map::StrMap;
use crate::text::{owned, push_str, split_on, trim};
use vstd::prelude::*;

verus! {

broadcast use vstd::string::group_string_axioms;

/// Field-to-message validation errors.
#[derive(Debug)]
pub struct Errors {
    fields: StrMap<String>,
}

/// The view of a field-to-message map.
pub open spec fn messages_of(m: StrMap<String>) -> Map<Seq<char>, Seq<char>> {
    Map::new(|k: Seq<char>| m.has(k), |k: Seq<char>| m.at(k)@)
}

impl View for Errors {
    type V = Map<Seq<char>, Seq<char>>;

    closed spec fn view(&self) -> Map<Seq<char>, Seq<char>> {
        messages_of(self.fields)
    }
}

impl Errors {
    /// No field errors.
    pub fn new() -> (r: Self)
        ensures
            r@ == Map::<Seq<char>, Seq<char>>::empty(),
    {
        let r = Errors { fields: StrMap::new() };
        assert(r@ =~= Map::<Seq<char>, Seq<char>>::empty());
        r
    }

    /// Inserts or replaces the error of `field`.
    pub fn add(&mut self, field: &str, message: &str)
        ensures
            final(self)@ == old(self)@.insert(field@, message@),
    {
        let ghost before = self@;
        self.fields.insert(owned(field), owned(message));
        assert(self@ =~= before.insert(field@, message@));
    }

    /// One field error.
    pub fn field(field: &str, message: &str) -> (r: Self)
        ensures
            r@ == Map::<Seq<char>, Seq<char>>::empty().insert(field@, message@),
    {
        let mut r = Errors::new();
        r.add(field, message);
        r
    }

    /// Whether no field error is present.
    pub fn is_empty(&self) -> (b: bool)
        ensures
            b == (self@.dom() == Set::<Seq<char>>::empty()),
    {
        let b = self.fields.is_empty();
        proof {
            if !b {
                let k = self.fields.keys()[0];
                assert(self@.dom().contains(k));
            } else {
                assert(self@.dom() =~= Set::<Seq<char>>::empty());
            }
        }
        b
    }

    /// The field-to-message entries, in increasing field order.
    pub closed spec fn entries(&self) -> StrMap<String> {
        self.fields
    }

    /// The field errors, in increasing field order.
    pub fn fields(&self) -> (r: &StrMap<String>)
        ensures
            messages_of(*r) == self@,
            *r == self.entries(),
    {
        &self.fields
    }
}

/// Validation state awaiting transport through a redirect back.
#[derive(Debug)]
pub struct PendingValidation {
    /// The field errors.
    pub errors: Errors,
    /// The error bag the errors are scoped under, if any.
    pub bag: Option<String>,
    /// Explicitly opted-in, redacted old input.
    pub old_input: Option<serde_json::Value>,
    /// Where the redirect goes.
    pub back: String,
}

/// The JSON object of field errors: each field with its message.
pub open spec fn errors_text(fields: StrMap<String>) -> Seq<char> {
    object_text(fields.keys(), fields.vals().map_values(|m: String| json_str(m@)))
}

impl PendingValidation {
    /// The errors as the JSON value stored for the next request: the
    /// object of field errors, scoped under the error bag when there is
    /// one (`{"bag":{...}}`).
    pub fn errors_value(&self) -> (r: serde_json::Value)
        ensures
            json_text_of(r) == match self.bag {
                Some(b) => object_of(b@, errors_text(self.errors.entries())),
                None => errors_text(self.errors.entries()),
            },
    {
        let fields = self.errors.fields();
        fields.lemma_wf();
        let mut values: StrMap<serde_json::Value> = StrMap::new();
        let n = fields.len();
        let mut i: usize = 0;
        while i < n
            invariant
                n == fields.keys().len(),
                n == fields.vals().len(),
                crate::str_map::sorted_keys(fields.keys()),
                0 <= i <= n,
                values.keys() == fields.keys().take(i as int),
                values.vals().len() == i,
                forall|j: int| 0 <= j < i ==> json_text_of(#[trigger] values.vals()[j]) == json_str(fields.vals()[j]@),
            decreases n - i,
        {
            let v = json_string_value(owned(fields.value_at(i).as_str()));
            proof {
                if i > 0 {
                    assert(values.keys().last() == fields.keys()[i - 1]);
                    let a = fields.keys()[i - 1];
                    let b = fields.keys()[i as int];
                    assert(crate::text::seq_lt(a, b));
                }
            }
            let ghost before = values.vals();
            let ghost msg = fields.vals()[i as int];
            assert(json_text_of(v) == json_str(msg@));
            values.push_last(owned(fields.key_at(i).as_str()), v);
            assert(values.vals() == before.push(v));
            assert(fields.keys().take(i + 1) =~= fields.keys().take(i as int).push(fields.keys()[i as int]));
            i = i + 1;
        }
        assert(values.keys() =~= fields.keys());
        assert(crate::json::texts_of(values.vals()) =~= fields.vals().map_values(|m: String| json_str(m@)));
        let object = json_object(values);
        assert(json_text_of(object) == errors_text(self.errors.entries())) by {
            reveal(crate::json::map_text);
        }
        match &self.bag {
            Some(b) => json_object_of(owned(b.as_str()), object),
            None => object,
        }
    }
}

/// Why a form could not be extracted or validated.
#[derive(Debug)]
pub enum FormError {
    /// The body could not be decoded.
    BadRequest(String),
    /// The content type needs another extractor.
    UnsupportedMediaType,
    /// Validation failed; the errors travel through a redirect.
    Validation(PendingValidation),
}

impl FormError {
    /// The validation failure to finalize as a redirect, if this is one.
    pub fn into_pending(self) -> (r: Option<PendingValidation>)
        ensures
            match self {
                FormError::Validation(p) => r == Some(p),
                _ => r is None,
            },
    {
        match self {
            FormError::Validation(p) => Some(p),
            _ => None,
        }
    }

    /// A human-readable description.
    pub fn message(&self) -> (s: String)
        ensures
            s@ == match self {
                FormError::BadRequest(e) => "invalid Inertia form body: "@ + e@,
                FormError::UnsupportedMediaType => "InertiaForm supports application/json and application/x-www-form-urlencoded; use a separate multipart extractor for file uploads"@,
                FormError::Validation(_) => "Inertia form validation failed"@,
            },
    {
        match self {
            FormError::BadRequest(e) => {
                let mut s = "invalid Inertia form body: ".to_owned();
                push_str(&mut s, e.as_str());
                s
            },
            FormError::UnsupportedMediaType => "InertiaForm supports application/json and application/x-www-form-urlencoded; use a separate multipart extractor for file uploads".to_owned(),
            FormError::Validation(_) => "Inertia form validation failed".to_owned(),
        }
    }
}

/// How a request body is decoded.
#[derive(Clone, Copy, Debug, PartialEq, Eq, Structural)]
pub enum BodyKind {
    /// `application/json`.
    Json,
    /// `application/x-www-form-urlencoded`.
    UrlEncoded,
    /// Anything else.
    Unsupported,
}

/// The media type of a `Content-Type` value: the part before the first `;`,
/// trimmed.
pub open spec fn media_type(content_type: Seq<char>) -> Seq<char> {
    trim(split_on(content_type, ';')[0])
}

/// How a body with `Content-Type` `content_type` (absent: empty) is decoded.
pub open spec fn body_kind_of(content_type: Seq<char>) -> BodyKind {
    let m = media_type(content_type);
    if m == "application/json"@ {
        BodyKind::Json
    } else if m == "application/x-www-form-urlencoded"@ {
        BodyKind::UrlEncoded
    } else {
        BodyKind::Unsupported
    }
}

/// How a body with the given `Content-Type` is decoded.
pub fn body_kind(content_type: Option<&str>) -> (k: BodyKind)
    ensures
        k == body_kind_of(
            match content_type {
                Some(c) => c@,
                None => Seq::empty(),
            },
        ),
{
    let ct: &str = match content_type {
        Some(c) => c,
        None => "",
    };
    proof {
        reveal_strlit("");
        assert(""@ =~= Seq::<char>::empty());
    }
    let pieces = crate::text::split_pieces_of(ct, ';');
    proof {
        crate::text::lemma_split_on_nonempty(ct@, ';');
    }
    assert(crate::text::strs(pieces@)[0] == pieces@[0]@);
    let m = crate::text::trimmed(pieces[0].as_str());
    if crate::text::str_eq(m.as_str(), "application/json") {
        BodyKind::Json
    } else if crate::text::str_eq(m.as_str(), "application/x-www-form-urlencoded") {
        BodyKind::UrlEncoded
    } else {
        BodyKind::Unsupported
    }
}

/// A parsed form plus where validation failures are sent.
#[derive(Debug)]
pub struct InertiaForm<T> {
    input: T,
    bag: Option<String>,
    back: String,
}

impl<T> InertiaForm<T> {
    /// The parsed value.
    pub closed spec fn input_spec(&self) -> T {
        self.input
    }

    /// The requested error bag.
    pub closed spec fn bag_view(&self) -> Option<Seq<char>> {
        crate::request::context::opt_view(self.bag)
    }

    /// Where a failed validation redirects.
    pub closed spec fn back_view(&self) -> Seq<char> {
        self.back@
    }

    /// A form for a decoded body: the requested error bag, and as the
    /// redirect target the `Referer` header, or else the request path.
    pub fn from_parts(input: T, error_bag: Option<&str>, referer: Option<&str>, path: &str) -> (r: Self)
        ensures
            r.input_spec() == input,
            r.bag_view() == match error_bag {
                Some(b) => Some(b@),
                None => None,
            },
            r.back_view() == match referer {
                Some(s) => s@,
                None => path@,
            },
    {
        let bag = match error_bag {
            Some(b) => Some(owned(b)),
            None => None,
        };
        let back = match referer {
            Some(s) => owned(s),
            None => owned(path),
        };
        InertiaForm { input, bag, back }
    }

    /// Builds a form from a body decoded as `kind` says: unsupported media
    /// types are refused, a decoding failure is a bad request carrying its
    /// message.
    pub fn from_decoded(
        kind: BodyKind,
        decoded: Result<T, String>,
        error_bag: Option<&str>,
        referer: Option<&str>,
        path: &str,
    ) -> (r: Result<Self, FormError>)
        ensures
            kind == BodyKind::Unsupported ==> r matches Err(FormError::UnsupportedMediaType),
            kind != BodyKind::Unsupported ==> match decoded {
                Err(e) => r matches Err(FormError::BadRequest(m)) && m@ == e@,
                Ok(v) => r matches Ok(f) && f.input_spec() == v && f.bag_view() == match error_bag {
                    Some(b) => Some(b@),
                    None => None,
                } && f.back_view() == match referer {
                    Some(s) => s@,
                    None => path@,
                },
            },
    {
        if kind == BodyKind::Unsupported {
            return Err(FormError::UnsupportedMediaType);
        }
        match decoded {
            Err(e) => Err(FormError::BadRequest(e)),
            Ok(v) => Ok(Self::from_parts(v, error_bag, referer, path)),
        }
    }

    /// The parsed value, without validation.
    pub fn into_inner(self) -> (r: T)
        ensures
            r == self.input_spec(),
    {
        self.input
    }

    /// Borrows the parsed value.
    pub fn input(&self) -> (r: &T)
        ensures
            *r == self.input_spec(),
    {
        &self.input
    }

    /// Applies application-defined validation: the value when `validate`
    /// accepts it, else a validation failure with its errors, the form's
    /// error bag, and its redirect target.
    pub fn validate_with<F: FnOnce(&T) -> Result<(), Errors>>(self, validate: F) -> (r: Result<T, FormError>)
        requires
            call_requires(validate, (&self.input_spec(),)),
        ensures
            match r {
                Ok(v) => v == self.input_spec() && exists|accepted: Result<(), Errors>|
                    accepted is Ok && call_ensures(validate, (&self.input_spec(),), accepted),
                Err(FormError::Validation(p)) => exists|e: Errors|
                    call_ensures(validate, (&self.input_spec(),), Err(e)) && p.errors == e
                        && crate::request::context::opt_view(p.bag) == self.bag_view() && p.back@ == self.back_view()
                        && p.old_input is None,
                Err(_) => false,
            },
    {
        let result = validate(&self.input);
        match result {
            Ok(()) => Ok(self.input),
            Err(errors) => Err(
                FormError::Validation(PendingValidation { errors, bag: self.bag, old_input: None, back: self.back }),
            ),
        }
    }
}

/// Local validation implemented by derives or application code.
pub trait Validate {
    /// Validates the value.
    fn validate(&self) -> Result<(), Errors>;

    /// The fallback error bag.
    fn error_bag() -> Option<&'static str> {
        None
    }

    /// Explicitly enabled, redacted old input.
    fn old_input(&self) -> Option<serde_json::Value> {
        None
    }
}

/// A typed form value that passed validation.
#[derive(Debug)]
pub struct Validated<T>(pub T);

impl<T> Validated<T> {
    /// The outcome of validating a form, given what validation returned: the
    /// value when it validated; else a validation failure carrying the
    /// errors, `old_input`, the form's error bag (or else `fallback`), and
    /// the form's redirect target.
    pub fn validation_outcome(
        form: InertiaForm<T>,
        result: Result<(), Errors>,
        old_input: Option<serde_json::Value>,
        fallback: Option<&str>,
    ) -> (r: Result<Self, FormError>)
        ensures
            result is Ok <==> r is Ok,
            r matches Ok(v) ==> v.0 == form.input_spec(),
            result matches Err(e) ==> r matches Err(FormError::Validation(p)) && p.errors == e
                && p.old_input == old_input && p.back@ == form.back_view()
                && crate::request::context::opt_view(p.bag) == (if form.bag_view() is Some {
                form.bag_view()
            } else {
                match fallback {
                    Some(b) => Some(b@),
                    None => None,
                }
            }),
    {
        match result {
            Ok(()) => Ok(Validated(form.input)),
            Err(errors) => {
                let bag = match form.bag {
                    Some(b) => Some(b),
                    None => match fallback {
                        Some(b) => Some(owned(b)),
                        None => None,
                    },
                };
                Err(FormError::Validation(PendingValidation { errors, bag, old_input, back: form.back }))
            },
        }
    }
}

impl<T: Validate> Validated<T> {
    /// Validates an already parsed form with `T::validate`; the outcome is
    /// [`Validated::validation_outcome`] of what it returned, with the
    /// value's old input (`T::old_input`) and `T::error_bag()` as the
    /// fallback bag.
    pub fn from_form(form: InertiaForm<T>) -> (r: Result<Self, FormError>)
        ensures
            match r {
                Ok(v) => v.0 == form.input_spec() && call_ensures(T::validate, (&form.input_spec(),), Ok(())),
                Err(FormError::Validation(p)) => {
                    &&& call_ensures(T::validate, (&form.input_spec(),), Err(p.errors))
                    &&& call_ensures(T::old_input, (&form.input_spec(),), p.old_input)
                    &&& p.back@ == form.back_view()
                    &&& form.bag_view() is Some ==> crate::request::context::opt_view(p.bag) == form.bag_view()
                    &&& form.bag_view() is None ==> exists|fallback: Option<&'static str>|
                        #[trigger] call_ensures(T::error_bag, (), fallback) && crate::request::context::opt_view(p.bag)
                            == match fallback {
                            Some(b) => Some(b@),
                            None => None,
                        }
                },
                Err(_) => false,
            },
    {
        let result = form.input.validate();
        let ghost res = result;
        match result {
            Ok(u) => {
                assert(res == Ok::<(), Errors>(u));
                assert(u == ());
                Self::validation_outcome(form, Ok(()), None, None)
            },
            Err(errors) => {
                let old_input = form.input.old_input();
                let fallback = T::error_bag();
                Self::validation_outcome(form, Err(errors), old_input, fallback)
            },
        }
    }
}

/// The old input of named field values: every value that serialized,
/// under its field name, a later field replacing an earlier one of the same
/// name.
pub open spec fn old_input_of<V, E>(fields: Seq<(String, Result<V, E>)>) -> Map<Seq<char>, V>
    decreases fields.len(),
{
    if fields.len() == 0 {
        Map::empty()
    } else {
        let rest = old_input_of(fields.drop_last());
        match fields.last().1 {
            Ok(v) => rest.insert(fields.last().0@, v),
            Err(_) => rest,
        }
    }
}

/// Collects the field values that serialized into the old input object;
/// fields whose serialization failed are left out.
pub fn serialize_old_input<V, E>(fields: Vec<(String, Result<V, E>)>) -> (r: StrMap<V>)
    ensures
        r.as_map() == old_input_of(fields@),
{
    let ghost all = fields@;
    let mut rest = fields;
    let mut out: StrMap<V> = StrMap::new();
    let n = rest.len();
    let mut i: usize = 0;
    assert(out.as_map() =~= old_input_of(all.take(0)));
    while i < n
        invariant
            n == all.len(),
            0 <= i <= n,
            rest@ == all.skip(i as int),
            out.as_map() =~= old_input_of(all.take(i as int)),
        decreases n - i,
    {
        let (name, value) = crate::engine::take_first_of(&mut rest);
        assert(all.take(i + 1).drop_last() =~= all.take(i as int));
        assert(all.take(i + 1).last() == all[i as int]);
        assert(all.skip(i as int).drop_first() =~= all.skip(i + 1));
        let ghost before = out.as_map();
        match value {
            Ok(v) => {
                let ghost k = name@;
                out.insert(name, v);
                assert(out.as_map() =~= before.insert(k, v));
            },
            Err(_) => {},
        }
        i = i + 1;
    }
    assert(all.take(n as int) =~= all);
    out
}

} // verus!
