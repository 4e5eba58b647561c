use inertia::cookie_store::{cookie_pieces, transient_cookie_value, CookieTransient, CookieTransientError};
use inertia::str_map::StrMap;
use inertia::transient::{StoredTransient, TransientData};

fn flash(entries: &[(&str, u32)]) -> StrMap<u32> {
    let mut m = StrMap::new();
    for (k, v) in entries {
        m.insert((*k).to_owned(), *v);
    }
    m
}

fn stored(entries: &[(&str, u32)], errors: Option<u32>, old_input: Option<u32>) -> StoredTransient<u32> {
    StoredTransient { flash: flash(entries), errors, old_input }
}

fn entries(m: &StrMap<u32>) -> Vec<(String, u32)> {
    (0..m.len()).map(|i| (m.key_at(i).clone(), *m.value_at(i))).collect()
}

#[test]
fn loaded_state_is_read_and_nothing_is_carried_over_by_default() {
    let data = TransientData::loaded(stored(&[("notice", 1)], Some(2), Some(3)), "memory");
    assert_eq!(data.scope(), "memory");
    assert_eq!(data.errors(), Some(&2));
    assert_eq!(data.old_input(), Some(&3));
    assert_eq!(entries(data.incoming_flash()), vec![("notice".to_owned(), 1)]);
    let next = data.into_stored();
    assert!(next.flash.is_empty());
    assert_eq!(next.errors, None);
    assert_eq!(next.old_input, None);
}

#[test]
fn reflash_carries_loaded_values_and_keeps_filled_slots() {
    let mut data = TransientData::loaded(stored(&[("a", 1), ("b", 2)], Some(7), Some(8)), "memory");
    data.flash_next_value("b".to_owned(), 20);
    data.flash_next_value("c".to_owned(), 30);
    data.store_errors(70);
    data.reflash();
    let next = data.into_stored();
    assert_eq!(entries(&next.flash), vec![("a".to_owned(), 1), ("b".to_owned(), 2), ("c".to_owned(), 30)]);
    assert_eq!(next.errors, Some(70));
    assert_eq!(next.old_input, Some(8));
}

#[test]
fn flash_all_overrides_reflashed_values() {
    let mut data = TransientData::loaded(stored(&[("a", 1)], None, None), "cookie");
    data.reflash();
    data.flash_all(flash(&[("a", 10), ("z", 26)]));
    let next = data.into_stored();
    assert_eq!(entries(&next.flash), vec![("a".to_owned(), 10), ("z".to_owned(), 26)]);
}

#[test]
fn the_next_request_reads_what_was_stored() {
    let mut data = TransientData::loaded(StoredTransient::new(), "memory");
    data.flash_next_value("notice".to_owned(), 5);
    data.store_errors(9);
    data.store_old_input(4);
    let next = TransientData::loaded(data.into_stored(), "memory");
    assert_eq!(entries(next.incoming_flash()), vec![("notice".to_owned(), 5)]);
    assert_eq!(next.errors(), Some(&9));
    assert_eq!(next.old_input(), Some(&4));
}

#[test]
fn cookie_header_is_split_into_trimmed_candidates() {
    assert_eq!(cookie_pieces("a=1; b=2;c=3 ;  "), vec!["a=1", "b=2", "c=3", ""]);
    assert_eq!(cookie_pieces(""), vec![""]);
}

#[test]
fn cookie_key_material_is_the_sha512_of_the_secret() {
    let store = CookieTransient::encrypted(b"0123456789abcdef0123456789abcdef");
    assert_eq!(store.open_payload(None), None);
    assert_eq!(store.open_payload(Some("other=1; unrelated=2")), None);
}

#[test]
fn sealed_payload_opens_with_the_same_key_only() {
    let store = CookieTransient::encrypted(b"0123456789abcdef0123456789abcdef");
    let other = CookieTransient::encrypted(b"fedcba9876543210fedcba9876543210");
    let set_cookie = store.seal_payload(r#"{"flash":{"notice":"saved"}}"#).unwrap();
    assert!(set_cookie.starts_with("__Host-inertia_transient="));
    assert!(set_cookie.contains("HttpOnly"));
    assert!(set_cookie.contains("Secure"));
    assert!(set_cookie.contains("SameSite=Lax"));
    assert!(set_cookie.contains("Path=/"));
    let pair = set_cookie.split(';').next().unwrap().to_owned();
    let header = format!("theme=dark; {pair}");
    assert_eq!(store.open_payload(Some(&header)).as_deref(), Some(r#"{"flash":{"notice":"saved"}}"#));
    assert_eq!(other.open_payload(Some(&header)), None);
}

#[test]
fn cookie_load_outcomes() {
    let empty = CookieTransient::load_outcome::<u32>(None).unwrap();
    assert_eq!(empty.scope(), "cookie");
    assert!(empty.incoming_flash().is_empty());
    let loaded = CookieTransient::load_outcome(Some(Ok(stored(&[("x", 1)], None, None)))).unwrap();
    assert_eq!(entries(loaded.incoming_flash()), vec![("x".to_owned(), 1)]);
    let failed = CookieTransient::load_outcome::<u32>(Some(Err("expected value".to_owned()))).unwrap_err();
    assert_eq!(failed.message(), "invalid encrypted transient payload: expected value");
}

#[test]
fn cookie_error_messages() {
    assert_eq!(
        CookieTransientError::serialize_failed("boom").message(),
        "failed to serialize transient payload: boom"
    );
    assert_eq!(CookieTransientError::invalid_payload("bad").message(), "invalid encrypted transient payload: bad");
}

#[test]
fn sealed_cookie_has_the_stated_shape() {
    let store = CookieTransient::encrypted(b"0123456789abcdef0123456789abcdef");
    let payload = "héllo";
    let text = store.seal_payload(payload).unwrap();
    let rest = text.strip_prefix("__Host-inertia_transient=").unwrap();
    let enc = rest.strip_suffix("; HttpOnly; SameSite=Lax; Secure; Path=/").unwrap();
    assert_eq!(enc.len(), 4 * ((payload.len() + 30) / 3));
    assert!(enc.chars().all(|c| c.is_ascii_alphanumeric() || c == '+' || c == '/' || c == '='));
}

#[test]
fn the_last_transient_cookie_in_a_header_wins() {
    assert_eq!(
        transient_cookie_value("__Host-inertia_transient=a; x=1; __Host-inertia_transient = b ").as_deref(),
        Some("b")
    );
    assert_eq!(transient_cookie_value("other=1; =2; novalue").as_deref(), None);
    assert_eq!(transient_cookie_value("__Host-inertia_transient=").as_deref(), Some(""));
}

#[test]
fn a_later_unopenable_transient_cookie_hides_an_earlier_one() {
    let store = CookieTransient::encrypted(b"0123456789abcdef0123456789abcdef");
    let set_cookie = store.seal_payload("payload").unwrap();
    let pair = set_cookie.split(';').next().unwrap().to_owned();
    let header = format!("{pair}; __Host-inertia_transient=garbage");
    assert_eq!(store.open_payload(Some(&header)), None);
    let header = format!("__Host-inertia_transient=garbage; {pair}");
    assert_eq!(store.open_payload(Some(&header)).as_deref(), Some("payload"));
}

#[test]
fn reflash_carries_json_values_themselves() {
    let mut incoming = StrMap::new();
    incoming.insert("notice".to_owned(), serde_json::Value::String("saved".to_owned()));
    let loaded = StoredTransient { flash: incoming, errors: Some(serde_json::Value::Bool(true)), old_input: None };
    let mut data = TransientData::loaded(loaded, "memory");
    data.reflash();
    let next = TransientData::loaded(data.into_stored(), "memory");
    assert_eq!(next.incoming_flash().get("notice"), Some(&serde_json::Value::String("saved".to_owned())));
    assert_eq!(next.errors(), Some(&serde_json::Value::Bool(true)));
}
