//! JSON values carried through the library, and the page's `errors` prop.

use crate::str_map::StrMap;
use crate::text::{push_char, push_str, strs};
use vstd::prelude::*;

verus! {

broadcast use vstd::string::group_string_axioms;

/// A JSON value; the library carries it without looking inside.
#[verifier::external_type_specification]
#[verifier::external_body]
pub struct ExJsonValue(serde_json::Value);

/// The JSON text that `serde_json::to_string` writes for a value.  It is a
/// function of the value alone.
pub uninterp spec fn json_text_of(value: serde_json::Value) -> Seq<char>;

/// Calls `serde_json::to_string` on a JSON value.  The text is
/// `json_text_of(*value)`.  The call succeeds on every value: `Value`'s
/// `Serialize` impl hands the serializer strings as map keys and finite or
/// `null` numbers, and the serializer writes into a `Vec`, which does not
/// fail; the error arm only converts the outside error type.
#[verifier::external_body]
pub(crate) fn json_text(value: &serde_json::Value) -> (r: Result<String, String>)
    ensures
        match r {
            Ok(t) => t@ == json_text_of(*value),
            Err(_) => false,
        },
{
    match serde_json::to_string(value) {
        Ok(text) => Ok(text),
        Err(error) => Err(error.to_string()),
    }
}

/// `Clone` on `serde_json::Value`, derived on the enum: the clone is the
/// same JSON value.
pub assume_specification[ <serde_json::Value as Clone>::clone ](value: &serde_json::Value) -> (r: serde_json::Value)
    ensures
        r == *value,
;

/// The key of the validation-errors prop, `"errors"`.
pub open spec fn errors_key() -> Seq<char> {
    seq!['e', 'r', 'r', 'o', 'r', 's']
}

/// Builds `"errors"`.
pub fn errors_key_string() -> (out: String)
    ensures
        out@ == errors_key(),
{
    let mut out = String::new();
    crate::text::push_char(&mut out, 'e');
    crate::text::push_char(&mut out, 'r');
    crate::text::push_char(&mut out, 'r');
    crate::text::push_char(&mut out, 'o');
    crate::text::push_char(&mut out, 'r');
    crate::text::push_char(&mut out, 's');
    assert(out@ =~= errors_key());
    out
}

/// Adds an empty `errors` object to a prop object that has none.
pub fn ensure_errors_prop(props: &mut StrMap<serde_json::Value>)
    ensures
        final(props).has(errors_key()),
        !old(props).has(errors_key()) ==> json_text_of(final(props).at(errors_key())) == seq!['{', '}'],
        old(props).has(errors_key()) ==> final(props).keys() == old(props).keys() && final(props).vals()
            == old(props).vals(),
        forall|x: Seq<char>| x != errors_key() ==> (final(props).has(x) <==> old(props).has(x)),
        forall|x: Seq<char>| x != errors_key() && old(props).has(x) ==> final(props).at(x) == old(props).at(x),
{
    let key = errors_key_string();
    if !props.contains_key(key.as_str()) {
        let empty = StrMap::new();
        let ghost e = empty;
        let value = json_object(empty);
        assert(json_text_of(value) == seq!['{', '}']) by {
            reveal(map_text);
            reveal(object_text);
            assert(member_texts(e.keys(), texts_of(e.vals())) =~= Seq::<Seq<char>>::empty());
            assert(seq!['{'] + Seq::<char>::empty() + seq!['}'] =~= seq!['{', '}']);
        }
        props.insert(key, value);
    }
}

/// The lowercase hexadecimal digit of `d < 16`.
pub open spec fn hex_digit(d: u32) -> char {
    if d < 10 {
        ((d + 48) as u8) as char
    } else {
        ((d + 87) as u8) as char
    }
}

/// How `serde_json` writes `c` inside a JSON string: `"` and `\` behind a
/// backslash, the controls with a short form as `\b`, `\t`, `\n`, `\f`,
/// `\r`, the other controls below U+0020 as `\u00` and two lowercase hex
/// digits, and every other character as it is.
pub open spec fn json_escape(c: char) -> Seq<char> {
    if c == '"' {
        seq!['\\', '"']
    } else if c == '\\' {
        seq!['\\', '\\']
    } else if c == '\x08' {
        seq!['\\', 'b']
    } else if c == '\t' {
        seq!['\\', 't']
    } else if c == '\n' {
        seq!['\\', 'n']
    } else if c == '\x0C' {
        seq!['\\', 'f']
    } else if c == '\r' {
        seq!['\\', 'r']
    } else if (c as u32) < 0x20 {
        seq!['\\', 'u', '0', '0', hex_digit((c as u32) / 16), hex_digit((c as u32) % 16)]
    } else {
        seq![c]
    }
}

/// The characters of `s`, escaped for a JSON string.
pub open spec fn json_escaped(s: Seq<char>) -> Seq<char>
    decreases s.len(),
{
    if s.len() == 0 {
        Seq::empty()
    } else {
        json_escaped(s.drop_last()) + json_escape(s.last())
    }
}

/// The JSON string literal of `s`.
#[verifier::opaque]
pub open spec fn json_str(s: Seq<char>) -> Seq<char> {
    seq!['"'] + json_escaped(s) + seq!['"']
}

/// JSON texts separated by commas.
pub open spec fn joined(items: Seq<Seq<char>>) -> Seq<char>
    decreases items.len(),
{
    if items.len() == 0 {
        Seq::empty()
    } else if items.len() == 1 {
        items[0]
    } else {
        joined(items.drop_last()) + seq![','] + items.last()
    }
}

/// The JSON array of the given element texts.
pub open spec fn array_text(items: Seq<Seq<char>>) -> Seq<char> {
    seq!['['] + joined(items) + seq![']']
}

/// The JSON array of the given strings.
#[verifier::opaque]
pub open spec fn str_array_text(items: Seq<Seq<char>>) -> Seq<char> {
    array_text(items.map_values(|s: Seq<char>| json_str(s)))
}

/// The members `"key":text` of a JSON object, in the given order.
pub open spec fn member_texts(keys: Seq<Seq<char>>, texts: Seq<Seq<char>>) -> Seq<Seq<char>> {
    Seq::new(keys.len(), |i: int| json_str(keys[i]) + seq![':'] + texts[i])
}

/// Whether a JSON text is an object's: it starts with `{`.
pub open spec fn is_object_text(t: Seq<char>) -> bool {
    t.len() > 0 && t[0] == '{'
}

/// The JSON object whose members are `keys` with `texts`, in that order.
#[verifier::opaque]
pub open spec fn object_text(keys: Seq<Seq<char>>, texts: Seq<Seq<char>>) -> Seq<char> {
    seq!['{'] + joined(member_texts(keys, texts)) + seq!['}']
}

/// The JSON texts of values.
pub open spec fn texts_of(values: Seq<serde_json::Value>) -> Seq<Seq<char>> {
    values.map_values(|v: serde_json::Value| json_text_of(v))
}

/// Appends the JSON string literal of `s`.
pub fn push_json_str(out: &mut String, s: &str)
    ensures
        final(out)@ == old(out)@ + json_str(s@),
{
    let value = json_string_value(crate::text::owned(s));
    match json_text(&value) {
        Ok(text) => push_str(out, text.as_str()),
        Err(_) => {},
    }
}

/// Appends JSON texts separated by commas.
pub fn push_joined(out: &mut String, texts: &Vec<String>)
    ensures
        final(out)@ == old(out)@ + joined(strs(texts@)),
{
    let ghost start = out@;
    let ghost t = strs(texts@);
    let n = texts.len();
    let mut i: usize = 0;
    assert(joined(t.take(0)) =~= Seq::<char>::empty());
    assert(start + Seq::<char>::empty() =~= start);
    while i < n
        invariant
            n == texts@.len(),
            t == strs(texts@),
            0 <= i <= n,
            out@ == start + joined(t.take(i as int)),
        decreases n - i,
    {
        let ghost before = out@;
        assert(t.take(i + 1).drop_last() =~= t.take(i as int));
        assert(t.take(i + 1).last() == texts@[i as int]@);
        if i > 0 {
            push_char(out, ',');
            push_str(out, texts[i].as_str());
            assert(out@ =~= start + (joined(t.take(i as int)) + seq![','] + texts@[i as int]@));
        } else {
            push_str(out, texts[i].as_str());
            assert(t.take(1)[0] == texts@[0]@);
            assert(out@ =~= start + joined(t.take(1)));
        }
        i = i + 1;
    }
    assert(t.take(n as int) =~= t);
}

/// Appends the JSON array of the given strings.
pub fn push_str_array(out: &mut String, items: &[String])
    ensures
        final(out)@ == old(out)@ + str_array_text(strs(items@)),
{
    let mut texts: Vec<String> = Vec::new();
    let n = items.len();
    let mut i: usize = 0;
    while i < n
        invariant
            n == items@.len(),
            0 <= i <= n,
            texts@.len() == i,
            forall|j: int| 0 <= j < i ==> (#[trigger] texts@[j])@ == json_str(items@[j]@),
        decreases n - i,
    {
        let mut text = String::new();
        push_json_str(&mut text, items[i].as_str());
        texts.push(text);
        i = i + 1;
    }
    assert(strs(texts@) =~= strs(items@).map_values(|s: Seq<char>| json_str(s)));
    let ghost start = out@;
    push_char(out, '[');
    push_joined(out, &texts);
    push_char(out, ']');
    assert(out@ =~= start + str_array_text(strs(items@))) by {
        reveal(str_array_text);
    }
}

/// Appends the JSON object whose members are the keys of `keys`, in order,
/// with `texts`.
pub fn push_object<T>(out: &mut String, keys: &StrMap<T>, texts: &Vec<String>)
    requires
        texts@.len() == keys.keys().len(),
    ensures
        final(out)@ == old(out)@ + object_text(keys.keys(), strs(texts@)),
{
    let mut members: Vec<String> = Vec::new();
    let n = texts.len();
    let mut i: usize = 0;
    while i < n
        invariant
            n == texts@.len(),
            n == keys.keys().len(),
            0 <= i <= n,
            members@.len() == i,
            forall|j: int| 0 <= j < i ==> (#[trigger] members@[j])@ == json_str(keys.keys()[j]) + seq![':'] + texts@[j]@,
        decreases n - i,
    {
        let mut m = String::new();
        push_json_str(&mut m, keys.key_at(i).as_str());
        push_char(&mut m, ':');
        push_str(&mut m, texts[i].as_str());
        members.push(m);
        i = i + 1;
    }
    assert(strs(members@) =~= member_texts(keys.keys(), strs(texts@))) by {
        reveal(json_str);
    }
    let ghost start = out@;
    push_char(out, '{');
    push_joined(out, &members);
    push_char(out, '}');
    assert(out@ =~= start + object_text(keys.keys(), strs(texts@))) by {
        reveal(object_text);
    }
}

/// The JSON texts of the values of `values`, in order.
pub fn value_texts(values: &StrMap<serde_json::Value>) -> (r: Vec<String>)
    ensures
        strs(r@) == texts_of(values.vals()),
{
    values.lemma_wf();
    let mut r: Vec<String> = Vec::new();
    let n = values.len();
    let mut i: usize = 0;
    while i < n
        invariant
            n == values.vals().len(),
            n == values.keys().len(),
            0 <= i <= n,
            r@.len() == i,
            forall|j: int| 0 <= j < i ==> (#[trigger] r@[j])@ == json_text_of(values.vals()[j]),
        decreases n - i,
    {
        let text = match json_text(values.value_at(i)) {
            Ok(t) => t,
            Err(e) => e,
        };
        r.push(text);
        i = i + 1;
    }
    assert(strs(r@) =~= texts_of(values.vals()));
    r
}

/// The JSON object text of a string map of JSON values.
#[verifier::opaque]
pub open spec fn map_text(m: StrMap<serde_json::Value>) -> Seq<char> {
    object_text(m.keys(), texts_of(m.vals()))
}

/// Appends the JSON object of a string map of JSON values.
pub fn push_value_map(out: &mut String, m: &StrMap<serde_json::Value>)
    ensures
        final(out)@ == old(out)@ + map_text(*m),
{
    m.lemma_wf();
    let texts = value_texts(m);
    assert(strs(texts@).len() == texts@.len());
    push_object(out, m, &texts);
    assert(out@ == old(out)@ + map_text(*m)) by {
        reveal(map_text);
    }
}

/// The JSON object holding the one member `key` with the JSON text `text`.
pub open spec fn object_of(key: Seq<char>, text: Seq<char>) -> Seq<char> {
    seq!['{'] + json_str(key) + seq![':'] + text + seq!['}']
}

/// The JSON object of the one member `key` with `value`.
pub(crate) fn json_object_of(key: String, value: serde_json::Value) -> (r: serde_json::Value)
    ensures
        json_text_of(r) == object_of(key@, json_text_of(value)),
{
    let ghost k = key@;
    let ghost t = json_text_of(value);
    let mut entries: StrMap<serde_json::Value> = StrMap::new();
    entries.push_last(key, value);
    let ghost e = entries;
    let r = json_object(entries);
    assert(json_text_of(r) == object_of(k, t)) by {
        reveal(map_text);
        reveal(object_text);
        assert(e.keys() =~= seq![k]);
        assert(texts_of(e.vals()) =~= seq![t]);
        assert(member_texts(e.keys(), texts_of(e.vals())) =~= seq![json_str(k) + seq![':'] + t]);
        assert(joined(seq![json_str(k) + seq![':'] + t]) == json_str(k) + seq![':'] + t);
        assert(seq!['{'] + (json_str(k) + seq![':'] + t) + seq!['}'] =~= object_of(k, t));
    }
    r
}

/// Calls `serde_json::Value::String`: a JSON string, which `to_string`
/// writes as the string's literal.
#[verifier::external_body]
pub(crate) fn json_string_value(s: String) -> (r: serde_json::Value)
    ensures
        json_text_of(r) == json_str(s@),
{
    serde_json::Value::String(s)
}

/// Calls `serde_json::Value::Object` on a `serde_json::Map` collected from
/// the entries of `entries`.  `to_string` writes its members in the map's
/// order: a `BTreeMap` orders string keys by their bytes, which for UTF-8
/// is the order of their characters that `StrMap` keeps (and with
/// `preserve_order` the map keeps the order of insertion, the same one).
#[verifier::external_body]
pub(crate) fn json_object(entries: StrMap<serde_json::Value>) -> (r: serde_json::Value)
    ensures
        json_text_of(r) == map_text(entries),
{
    serde_json::Value::Object(entries.into_entries().into_iter().collect())
}

/// Calls `serde_json::Value::Array`: a JSON array, which `to_string`
/// writes as `[`, the items' texts separated by commas, and `]`.
#[verifier::external_body]
pub(crate) fn json_array(items: Vec<serde_json::Value>) -> (r: serde_json::Value)
    ensures
        json_text_of(r) == array_text(texts_of(items@)),
{
    serde_json::Value::Array(items)
}

/// Calls `serde_json::Value`'s variants apart: an object's entries, in the
/// map's order (a `BTreeMap` orders string keys by their bytes, the order
/// of their characters, without repeats), or the value itself when it is
/// not an object.  `to_string` writes an object as its members in that
/// order, and any other value as `null`, `true`, `false`, a number, a
/// quoted string or a bracketed array: never starting with `{`.
#[verifier::external_body]
pub(crate) fn object_entries(value: serde_json::Value) -> (r: Result<
    Vec<(String, serde_json::Value)>,
    serde_json::Value,
>)
    ensures
        match r {
            Ok(entries) => crate::str_map::sorted_keys(entries@.map_values(|e: (String, serde_json::Value)| e.0@))
                && json_text_of(value) == object_text(
                entries@.map_values(|e: (String, serde_json::Value)| e.0@),
                texts_of(entries@.map_values(|e: (String, serde_json::Value)| e.1)),
            ),
            Err(other) => other == value && !is_object_text(json_text_of(value)),
        },
{
    match value {
        serde_json::Value::Object(map) => Ok(map.into_iter().collect()),
        other => Err(other),
    }
}

} // verus!
