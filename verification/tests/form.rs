use inertia::adapter::{form_rejection, rejection_body, rejection_message, rejection_status, FormRejection};
use inertia::form::{body_kind, BodyKind, Errors, FormError, InertiaForm, Validate, Validated};

#[derive(Debug, PartialEq)]
struct Signup {
    email: String,
}

impl Validate for Signup {
    fn validate(&self) -> Result<(), Errors> {
        if self.email.contains('@') {
            Ok(())
        } else {
            Err(Errors::field("email", "must be an email address"))
        }
    }

    fn error_bag() -> Option<&'static str> {
        Some("signup")
    }
}

fn form(email: &str, bag: Option<&str>) -> InertiaForm<Signup> {
    InertiaForm::from_parts(Signup { email: email.to_owned() }, bag, Some("/signup"), "/users")
}

#[test]
fn content_types_select_the_decoder() {
    assert_eq!(body_kind(Some("application/json")), BodyKind::Json);
    assert_eq!(body_kind(Some("application/json; charset=utf-8")), BodyKind::Json);
    assert_eq!(body_kind(Some(" application/x-www-form-urlencoded ;charset=utf-8")), BodyKind::UrlEncoded);
    assert_eq!(body_kind(Some("multipart/form-data; boundary=x")), BodyKind::Unsupported);
    assert_eq!(body_kind(Some("APPLICATION/JSON")), BodyKind::Unsupported);
    assert_eq!(body_kind(None), BodyKind::Unsupported);
}

#[test]
fn decoding_outcomes_become_form_errors() {
    let unsupported = InertiaForm::<u32>::from_decoded(BodyKind::Unsupported, Ok(1), None, None, "/p").unwrap_err();
    assert!(matches!(unsupported, FormError::UnsupportedMediaType));
    assert_eq!(
        unsupported.message(),
        "InertiaForm supports application/json and application/x-www-form-urlencoded; use a separate multipart extractor for file uploads"
    );
    let bad = InertiaForm::<u32>::from_decoded(BodyKind::Json, Err("EOF while parsing".to_owned()), None, None, "/p")
        .unwrap_err();
    assert_eq!(bad.message(), "invalid Inertia form body: EOF while parsing");
    let ok = InertiaForm::from_decoded(BodyKind::UrlEncoded, Ok(5u32), None, None, "/p").unwrap();
    assert_eq!(*ok.input(), 5);
    assert_eq!(ok.into_inner(), 5);
}

#[test]
fn validate_with_returns_the_value_or_pending_errors() {
    let accepted = form("a@b.c", None).validate_with(|s: &Signup| if s.email.is_empty() { Err(Errors::new()) } else { Ok(()) });
    assert_eq!(accepted.unwrap(), Signup { email: "a@b.c".to_owned() });

    let rejected = form("nope", Some("create"))
        .validate_with(|_: &Signup| Err(Errors::field("email", "taken")))
        .unwrap_err();
    assert_eq!(rejected.message(), "Inertia form validation failed");
    let pending = rejected.into_pending().unwrap();
    assert_eq!(pending.back, "/signup");
    assert_eq!(pending.bag.as_deref(), Some("create"));
    assert!(pending.old_input.is_none());
    assert!(!pending.errors.is_empty());
}

#[test]
fn validated_forms_fall_back_to_the_type_error_bag() {
    let ok = Validated::from_form(form("a@b.c", None)).unwrap();
    assert_eq!(ok.0.email, "a@b.c");
    let pending = Validated::from_form(form("nope", None)).unwrap_err().into_pending().unwrap();
    assert_eq!(pending.bag.as_deref(), Some("signup"));
    assert_eq!(pending.back, "/signup");
    let explicit = Validated::from_form(form("nope", Some("mine"))).unwrap_err().into_pending().unwrap();
    assert_eq!(explicit.bag.as_deref(), Some("mine"));
}

#[test]
fn redirect_target_falls_back_to_the_request_path() {
    let f = InertiaForm::from_parts(1u8, None, None, "/users");
    let pending = f.validate_with(|_: &u8| Err(Errors::new())).unwrap_err().into_pending().unwrap();
    assert_eq!(pending.back, "/users");
    assert!(pending.errors.is_empty());
}

#[test]
fn errors_map_fields_to_messages() {
    let mut errors = Errors::new();
    assert!(errors.is_empty());
    errors.add("name", "required");
    errors.add("email", "invalid");
    errors.add("name", "too short");
    assert!(!errors.is_empty());
    let fields = errors.fields();
    assert_eq!(fields.len(), 2);
    assert_eq!(fields.key_at(0), "email");
    assert_eq!(fields.get("name").map(|s| s.as_str()), Some("too short"));
}

#[test]
fn rocket_rejections_map_to_statuses_and_bodies() {
    let bad = FormError::BadRequest("trailing comma".to_owned());
    assert_eq!(form_rejection(&bad), FormRejection::BadRequest);
    assert_eq!(rejection_status(form_rejection(&bad)), 400);
    assert_eq!(rejection_body(&bad).as_deref(), Some("trailing comma"));
    assert_eq!(rejection_message(&bad), "invalid Inertia form body: trailing comma");

    let unsupported = FormError::UnsupportedMediaType;
    assert_eq!(rejection_status(form_rejection(&unsupported)), 415);
    assert_eq!(
        rejection_body(&unsupported).as_deref(),
        Some("InertiaForm supports JSON and URL-encoded bodies; multipart requires a separate data guard")
    );
    assert_eq!(
        rejection_message(&unsupported),
        "InertiaForm supports application/json and application/x-www-form-urlencoded; use a separate multipart data guard for file uploads"
    );

    let pending = form("nope", None).validate_with(|_: &Signup| Err(Errors::new())).unwrap_err();
    assert_eq!(rejection_status(form_rejection(&pending)), 500);
    assert!(rejection_body(&pending).is_none());
    assert_eq!(rejection_message(&pending), "Inertia form validation failed");
}

#[test]
fn old_input_keeps_only_serialized_fields() {
    let fields: Vec<(String, Result<u32, String>)> = vec![
        ("name".to_owned(), Ok(1)),
        ("password".to_owned(), Err("skipped".to_owned())),
        ("email".to_owned(), Ok(2)),
        ("name".to_owned(), Ok(3)),
    ];
    let input = inertia::form::serialize_old_input(fields);
    assert_eq!(input.len(), 2);
    assert_eq!(input.get("name"), Some(&3));
    assert_eq!(input.get("email"), Some(&2));
    assert_eq!(input.get("password"), None);
}

#[test]
fn validation_outcome_follows_the_validation_result() {
    let ok = Validated::validation_outcome(form("a@b", None), Ok(()), None, Some("fallback")).unwrap();
    assert_eq!(ok.0.email, "a@b");

    let failed = Validated::validation_outcome(
        form("nope", None),
        Err(Errors::field("email", "bad")),
        Some(serde_json::Value::Bool(true)),
        Some("fallback"),
    );
    let pending = failed.unwrap_err().into_pending().unwrap();
    assert_eq!(pending.bag.as_deref(), Some("fallback"));
    assert_eq!(pending.back, "/signup");
    assert_eq!(pending.old_input, Some(serde_json::Value::Bool(true)));
    assert_eq!(pending.errors.fields().get("email").map(String::as_str), Some("bad"));

    let scoped = Validated::validation_outcome(form("nope", Some("login")), Err(Errors::new()), None, Some("fallback"));
    assert_eq!(scoped.unwrap_err().into_pending().unwrap().bag.as_deref(), Some("login"));
}

#[test]
fn pending_errors_are_scoped_under_the_error_bag() {
    let pending = Validated::from_form(form("nope", Some("login"))).unwrap_err().into_pending().unwrap();
    let value = pending.errors_value();
    assert_eq!(value, serde_json::from_str::<serde_json::Value>(r#"{"login":{"email":"must be an email address"}}"#).unwrap());

    let unscoped = Validated::validation_outcome(form("nope", None), Err(Errors::field("a", "x\"y")), None, None)
        .unwrap_err()
        .into_pending()
        .unwrap();
    assert_eq!(serde_json::to_string(&unscoped.errors_value()).unwrap(), r#"{"a":"x\"y"}"#);
}

struct Profile {
    name: String,
}

impl Validate for Profile {
    fn validate(&self) -> Result<(), Errors> {
        Err(Errors::field("name", "taken"))
    }

    fn old_input(&self) -> Option<serde_json::Value> {
        Some(serde_json::Value::String(self.name.clone()))
    }
}

#[test]
fn failed_validation_carries_the_errors_old_input_and_no_bag() {
    let form = InertiaForm::from_parts(Profile { name: "ada".to_owned() }, None, None, "/profile");
    let pending = match Validated::from_form(form) {
        Err(error) => error.into_pending().unwrap(),
        Ok(_) => panic!("validation must fail"),
    };
    assert_eq!(pending.old_input, Some(serde_json::Value::String("ada".to_owned())));
    assert_eq!(pending.errors.fields().get("name").map(String::as_str), Some("taken"));
    assert_eq!(pending.bag, None);
    assert_eq!(pending.back, "/profile");
}
