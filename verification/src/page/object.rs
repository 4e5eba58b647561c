//! The page object as JSON text, with the wire names and the order of its
//! fields: `component`, `props`, `flash`, `url`, `version`, the history
//! flags, and the v3 metadata lists and maps.  Empty lists and maps, unset
//! flags and an absent version are left out.

use crate::assets::{decimal, decimal_string, AssetVersion};
use crate::html::{script_safe, HtmlResponseContext};
use crate::json::{
    json_str, object_text, push_json_str, push_object, push_str_array, push_value_map, str_array_text, map_text,
};
use crate::page::metadata::{OncePropView, PageMetadata, PageMetadataView, ScrollPropsView};
use crate::str_map::StrMap;
use crate::text::{push_str, strs};
use vstd::prelude::*;

verus! {

broadcast use vstd::string::group_string_axioms;

/// A page number, or `null`.
pub open spec fn opt_number_text(o: Option<u64>) -> Seq<char> {
    match o {
        Some(n) => decimal(n as nat),
        None => "null"@,
    }
}

/// The JSON object of infinite-scroll metadata.
pub open spec fn scroll_text(s: ScrollPropsView) -> Seq<char> {
    "{\"pageName\":"@ + json_str(s.page_name) + ",\"previousPage\":"@ + opt_number_text(s.previous_page)
        + ",\"nextPage\":"@ + opt_number_text(s.next_page) + ",\"currentPage\":"@ + decimal(
        s.current_page as nat,
    ) + "}"@
}

/// The JSON object of once-prop metadata.
pub open spec fn once_text(o: OncePropView) -> Seq<char> {
    "{\"prop\":"@ + json_str(o.prop) + ",\"expiresAt\":"@ + opt_number_text(o.expires_at) + "}"@
}

/// The JSON text of an asset version: a string, or a number.
pub open spec fn version_text(v: AssetVersion) -> Seq<char> {
    match v {
        AssetVersion::String(s) => json_str(s@),
        AssetVersion::Number(n) => decimal(n as nat),
    }
}

/// `text` when `present`, else nothing.
pub open spec fn when(present: bool, text: Seq<char>) -> Seq<char> {
    if present {
        text
    } else {
        Seq::empty()
    }
}

/// The opening of a page object: component, props, flash (when any), url,
/// and version (when set).
pub open spec fn page_head_text(
    component: Seq<char>,
    props: Seq<char>,
    flash: StrMap<serde_json::Value>,
    url: Seq<char>,
    version: Option<AssetVersion>,
) -> Seq<char> {
    "{\"component\":"@ + json_str(component) + ",\"props\":"@ + props + when(
        flash.keys().len() > 0,
        ",\"flash\":"@ + map_text(flash),
    ) + ",\"url\":"@ + json_str(url) + match version {
        Some(v) => ",\"version\":"@ + version_text(v),
        None => Seq::empty(),
    }
}

/// The history flags that are set.
pub open spec fn flags_text(m: PageMetadataView) -> Seq<char> {
    when(m.encrypt_history, ",\"encryptHistory\":true"@) + when(m.clear_history, ",\"clearHistory\":true"@)
        + when(m.preserve_fragment, ",\"preserveFragment\":true"@)
}

/// A list field, when the list is not empty.
pub open spec fn list_field(name_colon: Seq<char>, items: Seq<Seq<char>>) -> Seq<char> {
    when(items.len() > 0, name_colon + str_array_text(items))
}

/// The merge lists that are not empty.
pub open spec fn merge_lists_text(m: PageMetadataView) -> Seq<char> {
    list_field(",\"mergeProps\":"@, m.merge) + list_field(",\"prependProps\":"@, m.prepend) + list_field(
        ",\"deepMergeProps\":"@,
        m.deep_merge,
    ) + list_field(",\"matchPropsOn\":"@, m.match_on)
}

/// The scroll metadata, when there is any.
pub open spec fn scroll_field(m: PageMetadataView) -> Seq<char> {
    when(
        m.scroll_keys.len() > 0,
        ",\"scrollProps\":"@ + object_text(m.scroll_keys, m.scroll_vals.map_values(|s: ScrollPropsView| scroll_text(s))),
    )
}

/// The deferred groups, when there are any.
pub open spec fn deferred_field(m: PageMetadataView) -> Seq<char> {
    when(
        m.deferred_keys.len() > 0,
        ",\"deferredProps\":"@ + object_text(
            m.deferred_keys,
            m.deferred_vals.map_values(|g: Seq<Seq<char>>| str_array_text(g)),
        ),
    )
}

/// The once metadata, when there is any.
pub open spec fn once_field(m: PageMetadataView) -> Seq<char> {
    when(
        m.once_keys.len() > 0,
        ",\"onceProps\":"@ + object_text(m.once_keys, m.once_vals.map_values(|o: OncePropView| once_text(o))),
    )
}

/// The v3 metadata of a page object, in field order.
pub open spec fn metadata_text(m: PageMetadataView) -> Seq<char> {
    flags_text(m) + merge_lists_text(m) + scroll_field(m) + deferred_field(m) + list_field(
        ",\"rescuedProps\":"@,
        m.rescued,
    ) + list_field(",\"sharedProps\":"@, m.shared) + once_field(m)
}

/// The JSON text of a page object whose props have the JSON text `props`.
pub open spec fn page_text(
    component: Seq<char>,
    props: Seq<char>,
    flash: StrMap<serde_json::Value>,
    url: Seq<char>,
    version: Option<AssetVersion>,
    m: PageMetadataView,
) -> Seq<char> {
    page_head_text(component, props, flash, url, version) + metadata_text(m) + "}"@
}

/// Appends a page number, or `null`.
fn push_opt_number(out: &mut String, o: Option<u64>)
    ensures
        final(out)@ == old(out)@ + opt_number_text(o),
{
    match o {
        Some(n) => {
            let d = decimal_string(n);
            push_str(out, d.as_str());
        },
        None => push_str(out, "null"),
    }
}

/// The JSON objects of the scroll metadata of `m`, in key order.
fn scroll_texts(m: &PageMetadata) -> (r: Vec<String>)
    ensures
        strs(r@) == m@.scroll_vals.map_values(|s: ScrollPropsView| scroll_text(s)),
{
    let map = m.scroll_props();
    map.lemma_wf();
    let mut r: Vec<String> = Vec::new();
    let n = map.len();
    let mut i: usize = 0;
    while i < n
        invariant
            n == map.vals().len(),
            n == map.keys().len(),
            map.vals().map_values(|s: crate::page::metadata::ScrollProps| s@) == m@.scroll_vals,
            0 <= i <= n,
            r@.len() == i,
            forall|j: int| 0 <= j < i ==> (#[trigger] r@[j])@ == scroll_text(m@.scroll_vals[j]),
        decreases n - i,
    {
        let s = map.value_at(i);
        let ghost v = m@.scroll_vals[i as int];
        assert(s@ == v);
        let mut t = String::new();
        push_str(&mut t, "{\"pageName\":");
        push_json_str(&mut t, s.page_name());
        push_str(&mut t, ",\"previousPage\":");
        push_opt_number(&mut t, s.previous());
        push_str(&mut t, ",\"nextPage\":");
        push_opt_number(&mut t, s.next());
        push_str(&mut t, ",\"currentPage\":");
        let d = decimal_string(s.current());
        push_str(&mut t, d.as_str());
        push_str(&mut t, "}");
        assert(t@ =~= scroll_text(v));
        r.push(t);
        i = i + 1;
    }
    assert(strs(r@) =~= m@.scroll_vals.map_values(|s: ScrollPropsView| scroll_text(s)));
    r
}

/// The JSON objects of the once metadata of `m`, in key order.
fn once_texts(m: &PageMetadata) -> (r: Vec<String>)
    ensures
        strs(r@) == m@.once_vals.map_values(|o: OncePropView| once_text(o)),
{
    let map = m.once_props();
    map.lemma_wf();
    let mut r: Vec<String> = Vec::new();
    let n = map.len();
    let mut i: usize = 0;
    while i < n
        invariant
            n == map.vals().len(),
            n == map.keys().len(),
            map.vals().map_values(|o: crate::page::metadata::OnceProp| o@) == m@.once_vals,
            0 <= i <= n,
            r@.len() == i,
            forall|j: int| 0 <= j < i ==> (#[trigger] r@[j])@ == once_text(m@.once_vals[j]),
        decreases n - i,
    {
        let o = map.value_at(i);
        let ghost v = m@.once_vals[i as int];
        assert(o@ == v);
        let mut t = String::new();
        push_str(&mut t, "{\"prop\":");
        push_json_str(&mut t, o.prop());
        push_str(&mut t, ",\"expiresAt\":");
        push_opt_number(&mut t, o.expiration());
        push_str(&mut t, "}");
        assert(t@ =~= once_text(v));
        r.push(t);
        i = i + 1;
    }
    assert(strs(r@) =~= m@.once_vals.map_values(|o: OncePropView| once_text(o)));
    r
}

/// The JSON arrays of the deferred groups of `m`, in group order.
fn deferred_texts(m: &PageMetadata) -> (r: Vec<String>)
    ensures
        strs(r@) == m@.deferred_vals.map_values(|g: Seq<Seq<char>>| str_array_text(g)),
{
    let map = m.deferred_props();
    map.lemma_wf();
    let mut r: Vec<String> = Vec::new();
    let n = map.len();
    let mut i: usize = 0;
    while i < n
        invariant
            n == map.vals().len(),
            n == map.keys().len(),
            crate::page::metadata::group_views(map.vals()) == m@.deferred_vals,
            0 <= i <= n,
            r@.len() == i,
            forall|j: int| 0 <= j < i ==> (#[trigger] r@[j])@ == str_array_text(m@.deferred_vals[j]),
        decreases n - i,
    {
        let g = map.value_at(i);
        assert(strs(g@) == m@.deferred_vals[i as int]);
        let mut t = String::new();
        push_str_array(&mut t, g.as_slice());
        assert(t@ =~= str_array_text(m@.deferred_vals[i as int]));
        r.push(t);
        i = i + 1;
    }
    assert(strs(r@) =~= m@.deferred_vals.map_values(|g: Seq<Seq<char>>| str_array_text(g)));
    r
}

/// Appends `,"name":` and the JSON array of `items` when there are any.
fn push_list_field(out: &mut String, name_colon: &str, items: &[String])
    ensures
        final(out)@ == old(out)@ + list_field(name_colon@, strs(items@)),
{
    let ghost start = out@;
    if items.len() > 0 {
        push_str(out, name_colon);
        push_str_array(out, items);
        assert(out@ =~= start + (name_colon@ + str_array_text(strs(items@))));
    } else {
        assert(out@ =~= start + Seq::<char>::empty());
    }
}

/// Appends `text` when `present`.
fn push_flag_field(out: &mut String, present: bool, text: &str)
    ensures
        final(out)@ == old(out)@ + when(present, text@),
{
    let ghost start = out@;
    if present {
        push_str(out, text);
    } else {
        assert(out@ =~= start + Seq::<char>::empty());
    }
}

/// Appends the opening of a page object.
fn push_page_head(
    out: &mut String,
    component: &str,
    props: &str,
    flash: &StrMap<serde_json::Value>,
    url: &str,
    version: Option<&AssetVersion>,
)
    ensures
        final(out)@ == old(out)@ + page_head_text(
            component@,
            props@,
            *flash,
            url@,
            match version {
                Some(v) => Some(*v),
                None => None,
            },
        ),
{
    let ghost g0 = out@;
    push_str(out, "{\"component\":");
    push_json_str(out, component);
    push_str(out, ",\"props\":");
    push_str(out, props);
    let ghost g1 = out@;
    if flash.len() > 0 {
        push_str(out, ",\"flash\":");
        push_value_map(out, flash);
    }
    assert(out@ =~= g1 + when(flash.keys().len() > 0, ",\"flash\":"@ + map_text(*flash)));
    push_str(out, ",\"url\":");
    push_json_str(out, url);
    let ghost g2 = out@;
    match version {
        Some(v) => {
            push_str(out, ",\"version\":");
            match v {
                AssetVersion::String(s) => push_json_str(out, s.as_str()),
                AssetVersion::Number(n) => {
                    let d = decimal_string(*n);
                    push_str(out, d.as_str());
                },
            }
            assert(out@ =~= g2 + (",\"version\":"@ + version_text(*v)));
        },
        None => {
            assert(out@ =~= g2 + Seq::<char>::empty());
        },
    }
    assert(out@ =~= g0 + page_head_text(
        component@,
        props@,
        *flash,
        url@,
        match version {
            Some(v) => Some(*v),
            None => None,
        },
    ));
}

/// Appends the set history flags.
fn push_flags(out: &mut String, meta: &PageMetadata)
    ensures
        final(out)@ == old(out)@ + flags_text(meta@),
{
    let ghost g0 = out@;
    let e = meta.encrypt_history_enabled();
    let c = meta.clear_history_enabled();
    let p = meta.preserve_fragment_enabled();
    push_flag_field(out, e, ",\"encryptHistory\":true");
    let ghost g1 = out@;
    push_flag_field(out, c, ",\"clearHistory\":true");
    let ghost g2 = out@;
    push_flag_field(out, p, ",\"preserveFragment\":true");
    let ghost w1 = when(e, ",\"encryptHistory\":true"@);
    let ghost w2 = when(c, ",\"clearHistory\":true"@);
    let ghost w3 = when(p, ",\"preserveFragment\":true"@);
    proof {
        vstd::seq_lib::lemma_concat_associative(g0, w1, w2);
        vstd::seq_lib::lemma_concat_associative(g0, w1 + w2, w3);
    }
}

/// Appends the non-empty merge lists.
fn push_merges(out: &mut String, meta: &PageMetadata)
    ensures
        final(out)@ == old(out)@ + merge_lists_text(meta@),
{
    let ghost g0 = out@;
    let ghost m = meta@;
    push_list_field(out, ",\"mergeProps\":", meta.merge_props());
    push_list_field(out, ",\"prependProps\":", meta.prepend_props());
    push_list_field(out, ",\"deepMergeProps\":", meta.deep_merge_props());
    push_list_field(out, ",\"matchPropsOn\":", meta.match_props_on());
    let ghost a = list_field(",\"mergeProps\":"@, m.merge);
    let ghost b = list_field(",\"prependProps\":"@, m.prepend);
    let ghost c = list_field(",\"deepMergeProps\":"@, m.deep_merge);
    let ghost d = list_field(",\"matchPropsOn\":"@, m.match_on);
    proof {
        vstd::seq_lib::lemma_concat_associative(g0, a, b);
        vstd::seq_lib::lemma_concat_associative(g0, a + b, c);
        vstd::seq_lib::lemma_concat_associative(g0, a + b + c, d);
    }
}

/// Appends the scroll metadata and the deferred groups, when there are any.
fn push_scroll_and_deferred(out: &mut String, meta: &PageMetadata)
    ensures
        final(out)@ == old(out)@ + scroll_field(meta@) + deferred_field(meta@),
{
    let ghost m = meta@;
    let ghost g3 = out@;
    let scroll = meta.scroll_props();
    scroll.lemma_wf();
    if scroll.len() > 0 {
        push_str(out, ",\"scrollProps\":");
        let texts = scroll_texts(meta);
        assert(strs(texts@).len() == texts@.len());
        push_object(out, scroll, &texts);
    }
    assert(out@ =~= g3 + scroll_field(m));
    let ghost g4 = out@;
    let deferred = meta.deferred_props();
    deferred.lemma_wf();
    if deferred.len() > 0 {
        push_str(out, ",\"deferredProps\":");
        let texts = deferred_texts(meta);
        assert(strs(texts@).len() == texts@.len());
        push_object(out, deferred, &texts);
    }
    assert(out@ =~= g4 + deferred_field(m));
    assert(out@ =~= g3 + scroll_field(m) + deferred_field(m));
}

/// Appends the non-empty rescued and shared lists and the once metadata.
fn push_tail_fields(out: &mut String, meta: &PageMetadata)
    ensures
        final(out)@ == old(out)@ + list_field(",\"rescuedProps\":"@, meta@.rescued) + list_field(
            ",\"sharedProps\":"@,
            meta@.shared,
        ) + once_field(meta@),
{
    let ghost m = meta@;
    let ghost g0 = out@;
    push_list_field(out, ",\"rescuedProps\":", meta.rescued_props());
    push_list_field(out, ",\"sharedProps\":", meta.shared_props());
    let ghost g5 = out@;
    let once = meta.once_props();
    once.lemma_wf();
    if once.len() > 0 {
        push_str(out, ",\"onceProps\":");
        let texts = once_texts(meta);
        assert(strs(texts@).len() == texts@.len());
        push_object(out, once, &texts);
    }
    assert(out@ =~= g5 + once_field(m));
}

/// The JSON text of a page object whose props have the JSON text `props`.
pub fn page_json_text(
    component: &str,
    props: &str,
    flash: &StrMap<serde_json::Value>,
    url: &str,
    version: Option<&AssetVersion>,
    meta: &PageMetadata,
) -> (r: String)
    ensures
        r@ == page_text(
            component@,
            props@,
            *flash,
            url@,
            match version {
                Some(v) => Some(*v),
                None => None,
            },
            meta@,
        ),
{
    let ghost m = meta@;
    let mut out = String::new();
    push_page_head(&mut out, component, props, flash, url, version);
    let ghost head = out@;
    push_flags(&mut out, meta);
    push_merges(&mut out, meta);
    push_scroll_and_deferred(&mut out, meta);
    push_tail_fields(&mut out, meta);
    proof {
        let f = flags_text(m);
        let mm = merge_lists_text(m);
        let sc = scroll_field(m);
        let d = deferred_field(m);
        let r = list_field(",\"rescuedProps\":"@, m.rescued);
        let sh = list_field(",\"sharedProps\":"@, m.shared);
        let o = once_field(m);
        vstd::seq_lib::lemma_concat_associative(head, f, mm);
        vstd::seq_lib::lemma_concat_associative(head, f + mm, sc);
        vstd::seq_lib::lemma_concat_associative(head, f + mm + sc, d);
        vstd::seq_lib::lemma_concat_associative(head, f + mm + sc + d, r);
        vstd::seq_lib::lemma_concat_associative(head, f + mm + sc + d + r, sh);
        vstd::seq_lib::lemma_concat_associative(head, f + mm + sc + d + r + sh, o);
        assert(out@ == head + metadata_text(m));
    }
    push_str(&mut out, "}");
    out
}

/// The JSON text of a page object: component, props, flash (when any),
/// url, version (when set), and the page metadata (see [`page_text`]).
pub fn page_json(
    component: &str,
    props: &StrMap<serde_json::Value>,
    flash: &StrMap<serde_json::Value>,
    url: &str,
    version: Option<&AssetVersion>,
    meta: &PageMetadata,
) -> (r: String)
    ensures
        r@ == page_text(
            component@,
            map_text(*props),
            *flash,
            url@,
            match version {
                Some(v) => Some(*v),
                None => None,
            },
            meta@,
        ),
{
    let mut text = String::new();
    push_value_map(&mut text, props);
    assert(text@ =~= map_text(*props));
    page_json_text(component, text.as_str(), flash, url, version, meta)
}

/// The HTML response context of a page object: its JSON text (see
/// [`page_text`]) made script-safe.
pub fn page_response_context(
    component: &str,
    props: &StrMap<serde_json::Value>,
    flash: &StrMap<serde_json::Value>,
    url: &str,
    version: Option<&AssetVersion>,
    meta: &PageMetadata,
) -> (r: HtmlResponseContext)
    ensures
        r.data_page_view() == script_safe(
            page_text(
                component@,
                map_text(*props),
                *flash,
                url@,
                match version {
                    Some(v) => Some(*v),
                    None => None,
                },
                meta@,
            ),
        ),
{
    let text = page_json(component, props, flash, url, version, meta);
    HtmlResponseContext::from_json_text(text.as_str())
}

} // verus!
