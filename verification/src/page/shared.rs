//! Shared props merged into a page's prop object.
//!
//! Page props win on a key collision; a dotted key becomes nested objects
//! under its top-level key; and each top-level key a shared prop adds is
//! listed in the page's `sharedProps` metadata.

use crate::json::{ensure_errors_prop, errors_key, json_object_of, json_text_of, object_of};
use crate::page::metadata::{PageMetadata, PageMetadataView};
use crate::str_map::StrMap;
use crate::text::{chars_of, owned, prop_root, prop_root_of, push_unique, string_from};
use vstd::prelude::*;

verus! {

broadcast use vstd::string::group_string_axioms;

/// The top-level key of a path is a prefix of it, followed by a `.` when
/// it is shorter.
pub proof fn lemma_prop_root(s: Seq<char>)
    ensures
        prop_root(s).len() <= s.len(),
        prop_root(s) == s.take(prop_root(s).len() as int),
        prop_root(s).len() < s.len() ==> s[prop_root(s).len() as int] == '.',
    decreases s.len(),
{
    if s.len() > 0 && s[0] != '.' {
        lemma_prop_root(s.drop_first());
        assert(prop_root(s) =~= s.take(prop_root(s).len() as int));
    }
}

/// The part of a dotted path after its top-level key and the dot.
pub open spec fn path_rest(path: Seq<char>) -> Seq<char> {
    path.skip(prop_root(path).len() + 1int)
}

/// Nested objects along the keys of `path`, the innermost holding `text`:
/// `a.b` with `t` is `{"a":{"b":t}}`.
pub open spec fn path_text(path: Seq<char>, text: Seq<char>) -> Seq<char>
    decreases path.len(),
{
    if prop_root(path).len() >= path.len() {
        object_of(path, text)
    } else {
        proof {
            lemma_prop_root(path);
        }
        object_of(prop_root(path), path_text(path_rest(path), text))
    }
}

/// What a shared prop `key` with JSON text `text` puts under its top-level
/// key: the value itself, or for a dotted key the nested objects along the
/// rest of the path.
pub open spec fn shared_value_text(key: Seq<char>, text: Seq<char>) -> Seq<char> {
    if prop_root(key).len() >= key.len() {
        text
    } else {
        path_text(path_rest(key), text)
    }
}

/// `path` without its top-level key and dot.
fn rest_of(path: &str) -> (r: String)
    requires
        prop_root(path@).len() < path@.len(),
    ensures
        r@ == path_rest(path@),
{
    proof {
        lemma_prop_root(path@);
    }
    let chars = chars_of(path);
    let root = prop_root_of(path);
    let root_chars = chars_of(root.as_str());
    assert(root_chars@.len() == prop_root(path@).len());
    assert(root_chars.len() < chars.len());
    string_from(&chars, root_chars.len() + 1, chars.len())
}

/// Nests `value` in objects along the keys of `path`.
fn nest_path(path: &str, value: serde_json::Value) -> (r: serde_json::Value)
    ensures
        json_text_of(r) == path_text(path@, json_text_of(value)),
    decreases path@.len(),
{
    proof {
        lemma_prop_root(path@);
    }
    let root = prop_root_of(path);
    let root_len = chars_of(root.as_str()).len();
    let path_len = chars_of(path).len();
    if root_len >= path_len {
        json_object_of(owned(path), value)
    } else {
        let rest = rest_of(path);
        let inner = nest_path(rest.as_str(), value);
        json_object_of(root, inner)
    }
}

/// Inserts the shared prop `key` with `value` into `props` when its
/// top-level key is not empty and not yet present: under the top-level
/// key, the value itself, or for a dotted key the value nested along the
/// rest of the path.  Whether it was inserted is returned.
pub fn insert_shared_prop_path(props: &mut StrMap<serde_json::Value>, key: &str, value: serde_json::Value) -> (inserted: bool)
    ensures
        inserted == (prop_root(key@).len() > 0 && !old(props).has(prop_root(key@))),
        inserted ==> final(props).as_map().dom() == old(props).as_map().dom().insert(prop_root(key@)),
        inserted ==> json_text_of(final(props).at(prop_root(key@))) == shared_value_text(key@, json_text_of(value)),
        forall|k: Seq<char>| old(props).has(k) ==> final(props).at(k) == old(props).at(k),
        !inserted ==> *final(props) == *old(props),
{
    proof {
        lemma_prop_root(key@);
    }
    let root = prop_root_of(key);
    let root_len = chars_of(root.as_str()).len();
    if root_len == 0 || props.contains_key(root.as_str()) {
        return false;
    }
    let key_len = chars_of(key).len();
    let nested = if root_len >= key_len {
        value
    } else {
        let rest = rest_of(key);
        nest_path(rest.as_str(), value)
    };
    let ghost before = props.as_map();
    props.insert(root, nested);
    assert(props.as_map().dom() =~= before.dom().insert(prop_root(key@)));
    true
}

/// Shared props merged into a prop object whose keys were `keys0` (the
/// `errors` prop included): the roots listed after `roots0`, and the JSON
/// text each inserted top-level key holds.  A shared prop is skipped when
/// its top-level key is empty, was a key of the prop object, or was
/// inserted by an earlier shared prop.
pub open spec fn shared_merge(
    keys0: Set<Seq<char>>,
    roots0: Seq<Seq<char>>,
    entries: Seq<(Seq<char>, Seq<char>)>,
) -> (Seq<Seq<char>>, Map<Seq<char>, Seq<char>>)
    decreases entries.len(),
{
    if entries.len() == 0 {
        (roots0, Map::empty())
    } else {
        let (roots, texts) = shared_merge(keys0, roots0, entries.drop_last());
        let k = entries.last().0;
        let root = prop_root(k);
        if root.len() == 0 || keys0.contains(root) || texts.dom().contains(root) {
            (roots, texts)
        } else {
            (push_unique(roots, root), texts.insert(root, shared_value_text(k, entries.last().1)))
        }
    }
}

/// The keys and JSON texts of shared props.
pub open spec fn shared_entries(shared: Seq<(String, serde_json::Value)>) -> Seq<(Seq<char>, Seq<char>)> {
    shared.map_values(|p: (String, serde_json::Value)| (p.0@, json_text_of(p.1)))
}

/// Whether `props1` and `meta1` are `props0` and `meta0` with the shared
/// props `entries` merged: nothing changes without shared props;
/// otherwise the `errors` prop is ensured (an empty object when absent),
/// every prop keeps its value, and the shared props are inserted and their
/// top-level keys listed as [`shared_merge`] says.
pub open spec fn shared_merged(
    props0: StrMap<serde_json::Value>,
    meta0: PageMetadataView,
    entries: Seq<(Seq<char>, Seq<char>)>,
    props1: StrMap<serde_json::Value>,
    meta1: PageMetadataView,
) -> bool {
    if entries.len() == 0 {
        props1 == props0 && meta1 == meta0
    } else {
        let keys0 = props0.as_map().dom().insert(errors_key());
        let (roots, texts) = shared_merge(keys0, meta0.shared, entries);
        &&& props1.as_map().dom() == keys0.union(texts.dom())
        &&& forall|k: Seq<char>| props0.has(k) ==> props1.at(k) == props0.at(k)
        &&& !props0.has(errors_key()) ==> json_text_of(props1.at(errors_key())) == seq!['{', '}']
        &&& forall|k: Seq<char>| #[trigger] texts.dom().contains(k) ==> json_text_of(props1.at(k)) == texts[k]
        &&& meta1 == (PageMetadataView { shared: roots, ..meta0 })
    }
}

/// Merges shared props into a page's props and metadata.  Without shared
/// props nothing changes.  Otherwise the `errors` prop is ensured (an empty
/// object when absent), the props keep every value they had (page props
/// win), each shared prop whose top-level key is new is inserted (see
/// [`shared_merge`]), and each inserted top-level key is added to the
/// metadata's shared props.
pub fn with_shared_props(
    props: StrMap<serde_json::Value>,
    meta: PageMetadata,
    shared: Vec<(String, serde_json::Value)>,
) -> (r: (StrMap<serde_json::Value>, PageMetadata))
    ensures
        shared_merged(props, meta@, shared_entries(shared@), r.0, r.1@),
        shared@.len() == 0 ==> r == (props, meta),
{
    if shared.len() == 0 {
        return (props, meta);
    }
    let ghost entries = shared_entries(shared@);
    let mut props = props;
    let ghost orig = props;
    ensure_errors_prop(&mut props);
    let ghost keys0 = orig.as_map().dom().insert(errors_key());
    assert(props.as_map().dom() =~= keys0);
    let ghost after_errors = props;
    let mut meta = meta;
    let ghost meta0 = meta@;
    let mut rest = shared;
    let n = rest.len();
    let mut i: usize = 0;
    while i < n
        invariant
            n == entries.len(),
            0 <= i <= n,
            rest@.len() == n - i,
            forall|j: int| 0 <= j < rest@.len() ==> (rest@[j].0@, json_text_of(rest@[j].1)) == #[trigger] entries[i + j],
            ({
                let (roots, texts) = shared_merge(keys0, meta0.shared, entries.take(i as int));
                &&& props.as_map().dom() == keys0.union(texts.dom())
                &&& forall|k: Seq<char>| after_errors.has(k) ==> props.at(k) == after_errors.at(k)
                &&& forall|k: Seq<char>| #[trigger] texts.dom().contains(k) ==> !keys0.contains(k)
                &&& forall|k: Seq<char>| #[trigger] texts.dom().contains(k) ==> json_text_of(props.at(k)) == texts[k]
                &&& meta@ == (PageMetadataView { shared: roots, ..meta0 })
            }),
            after_errors.as_map().dom() == keys0,
        decreases n - i,
    {
        let ghost e = entries[i as int];
        assert((rest@[0].0@, json_text_of(rest@[0].1)) == entries[i + 0]);
        let ghost prev = rest@;
        let (key, value) = crate::engine::take_first_of(&mut rest);
        assert(forall|j: int| 0 <= j < rest@.len() ==> (rest@[j].0@, json_text_of(rest@[j].1)) == #[trigger] entries[i + 1 + j]) by {
            assert forall|j: int| 0 <= j < rest@.len() implies (rest@[j].0@, json_text_of(rest@[j].1)) == #[trigger] entries[i + 1 + j] by {
                assert(rest@[j] == prev[j + 1]);
                assert((prev[j + 1].0@, json_text_of(prev[j + 1].1)) == entries[i + (j + 1)]);
                assert(i + (j + 1) == i + 1 + j);
            }
        }
        let ghost (roots_b, texts_b) = shared_merge(keys0, meta0.shared, entries.take(i as int));
        assert(entries.take(i + 1).drop_last() =~= entries.take(i as int));
        assert(entries.take(i + 1).last() == e);
        let ghost before = props;
        let inserted = insert_shared_prop_path(&mut props, key.as_str(), value);
        if inserted {
            let root = prop_root_of(key.as_str());
            meta = meta.share(root.as_str());
        }
        proof {
            let (roots_a, texts_a) = shared_merge(keys0, meta0.shared, entries.take(i + 1));
            let root = prop_root(key@);
            assert(before.as_map().dom().contains(root) == before.has(root));
            assert(before.has(root) <==> (keys0.contains(root) || texts_b.dom().contains(root)));
            if inserted {
                assert(texts_a == texts_b.insert(root, shared_value_text(key@, json_text_of(value))));
                assert(roots_a == push_unique(roots_b, root));
                assert(props.as_map().dom() =~= keys0.union(texts_a.dom()));
                assert forall|k: Seq<char>| #[trigger] texts_a.dom().contains(k) implies json_text_of(props.at(k)) == texts_a[k] by {
                    if k != root {
                        assert(texts_b.dom().contains(k));
                        assert(before.as_map().dom().contains(k));
                        assert(before.has(k));
                    }
                }
                assert forall|k: Seq<char>| after_errors.has(k) implies props.at(k) == after_errors.at(k) by {
                    assert(after_errors.as_map().dom().contains(k));
                    assert(before.as_map().dom().contains(k));
                }
                assert(meta@ == (PageMetadataView { shared: roots_a, ..meta0 }));
            } else {
                assert(texts_a == texts_b);
                assert(roots_a == roots_b);
                assert(props.as_map().dom() == keys0.union(texts_a.dom()));
            }
        }
        i = i + 1;
    }
    assert(entries.take(n as int) =~= entries);
    (props, meta)
}

/// Inserts one global shared prop into a page under construction: the
/// `errors` prop is ensured first (an empty object when absent), the prop
/// is inserted as [`insert_shared_prop_path`] does, and when it was, its
/// top-level key is listed in the metadata's shared props.
pub fn insert_global_shared(
    props: &mut StrMap<serde_json::Value>,
    meta: &mut PageMetadata,
    key: &str,
    value: serde_json::Value,
) -> (inserted: bool)
    ensures
        inserted == (prop_root(key@).len() > 0 && !old(props).has(prop_root(key@)) && prop_root(key@)
            != errors_key()),
        final(props).has(errors_key()),
        !old(props).has(errors_key()) && prop_root(key@) != errors_key() ==> json_text_of(
            final(props).at(errors_key()),
        ) == seq!['{', '}'],
        forall|k: Seq<char>| old(props).has(k) ==> final(props).at(k) == old(props).at(k),
        final(props).as_map().dom() == old(props).as_map().dom().insert(errors_key()).union(
            if inserted {
                set![prop_root(key@)]
            } else {
                Set::empty()
            },
        ),
        inserted ==> json_text_of(final(props).at(prop_root(key@))) == shared_value_text(key@, json_text_of(value)),
        final(meta)@ == (if inserted {
            PageMetadataView { shared: push_unique(old(meta)@.shared, prop_root(key@)), ..old(meta)@ }
        } else {
            old(meta)@
        }),
{
    let ghost before = props.as_map();
    ensure_errors_prop(props);
    assert(props.as_map().dom() =~= before.dom().insert(errors_key()));
    let ghost mid = props.as_map();
    let inserted = insert_shared_prop_path(props, key, value);
    if inserted {
        let root = prop_root_of(key);
        let mut taken = PageMetadata::new();
        std::mem::swap(&mut taken, meta);
        *meta = taken.share(root.as_str());
        assert(props.as_map().dom() =~= mid.dom().insert(prop_root(key@)));
    }
    assert(props.as_map().dom() =~= before.dom().insert(errors_key()).union(
        if inserted {
            set![prop_root(key@)]
        } else {
            Set::empty()
        },
    ));
    assert(props.as_map().dom().contains(errors_key()));
    inserted
}

/// Inserts one route-local shared prop: nothing when its top-level key is
/// one of the route's own prop roots; otherwise as
/// [`insert_global_shared`], and an inserted top-level key is also recorded
/// in `local_roots` (once), where it blocks later global shared props.
pub fn insert_shared(
    props: &mut StrMap<serde_json::Value>,
    meta: &mut PageMetadata,
    route_roots: &Vec<String>,
    local_roots: &mut Vec<String>,
    key: &str,
    value: serde_json::Value,
) -> (inserted: bool)
    ensures
        crate::text::strs(route_roots@).contains(prop_root(key@)) ==> !inserted && *final(props) == *old(props)
            && final(meta)@ == old(meta)@ && final(local_roots)@ == old(local_roots)@,
        !crate::text::strs(route_roots@).contains(prop_root(key@)) ==> {
            &&& inserted == (prop_root(key@).len() > 0 && !old(props).has(prop_root(key@)) && prop_root(key@)
                != errors_key())
            &&& final(props).has(errors_key())
            &&& forall|k: Seq<char>| old(props).has(k) ==> final(props).at(k) == old(props).at(k)
            &&& inserted ==> json_text_of(final(props).at(prop_root(key@))) == shared_value_text(
                key@,
                json_text_of(value),
            )
            &&& final(meta)@ == (if inserted {
                PageMetadataView { shared: push_unique(old(meta)@.shared, prop_root(key@)), ..old(meta)@ }
            } else {
                old(meta)@
            })
            &&& crate::text::strs(final(local_roots)@) == (if inserted {
                push_unique(crate::text::strs(old(local_roots)@), prop_root(key@))
            } else {
                crate::text::strs(old(local_roots)@)
            })
        },
{
    let root = prop_root_of(key);
    if crate::text::vec_contains_str(route_roots, root.as_str()) {
        return false;
    }
    let inserted = insert_global_shared(props, meta, key, value);
    if inserted {
        crate::text::push_unique_string(local_roots, root);
    }
    inserted
}

} // verus!
