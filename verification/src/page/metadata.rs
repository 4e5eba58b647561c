//! Page-object metadata and protocol-specific merge directives.
//!
//! Every list kept here is free of duplicates: entries are only ever added
//! through `push_unique`.  The keyed collections are ordered string maps, so
//! their iteration order matches the serialized page object.

use crate::lists::{
    eq_ignore_ascii_case, lemma_filter_by_flags, lemma_filter_contains, lemma_filter_distinct,
    lemma_filter_filter, lemma_filter_push, retain_strings, str_eq_ignore_ascii_case,
};
use crate::request::context::{RequestContext, RequestContextView};
use crate::str_map::{
    filter_by, lemma_filter_by_keeps, lemma_filter_by_len_eq, lemma_filter_by_origin2,
    lemma_sorted_index_of, sorted_keys,
    StrMap,
};

use crate::text::{
    distinct, lemma_push_unique_distinct, owned, push_unique, push_unique_string, strs,
};
use crate::text::{is_under_reset, prop_root, prop_root_of, str_eq, under_reset};
use vstd::prelude::*;

verus! {

broadcast use vstd::string::group_string_axioms;

/// The merge target of an infinite-scroll prop: `"{prop}.data"`.
pub open spec fn scroll_target(prop: Seq<char>) -> Seq<char> {
    prop + seq!['.', 'd', 'a', 't', 'a']
}

/// Builds `"{prop}.data"`.
pub fn scroll_merge_target(prop: &str) -> (out: String)
    ensures
        out@ == scroll_target(prop@),
{
    let mut out = owned(prop);
    crate::text::push_char(&mut out, '.');
    crate::text::push_char(&mut out, 'd');
    crate::text::push_char(&mut out, 'a');
    crate::text::push_char(&mut out, 't');
    crate::text::push_char(&mut out, 'a');
    assert(out@ =~= scroll_target(prop@));
    out
}

pub proof fn lemma_scroll_target_injective(a: Seq<char>, b: Seq<char>)
    requires
        scroll_target(a) == scroll_target(b),
    ensures
        a == b,
{
    assert(scroll_target(a).len() == a.len() + 5);
    assert(a.len() == b.len());
    assert forall|i: int| 0 <= i < a.len() implies a[i] == b[i] by {
        assert(scroll_target(a)[i] == a[i]);
        assert(scroll_target(b)[i] == b[i]);
    }
    assert(a =~= b);
}

/// Whether the client already holds a once value for `prop`.
pub open spec fn once_excluded(m: PageMetadataView, ctx: RequestContextView, prop: Seq<char>) -> bool {
    exists|i: int|
        0 <= i < m.once_keys.len() && #[trigger] m.once_vals[i].prop == prop && ctx.except_once.contains(
            m.once_keys[i],
        )
}

/// Whether prop path `p`, or its top-level key, is a key of the response props.
pub open spec fn included(keys: Seq<Seq<char>>, p: Seq<char>) -> bool {
    keys.contains(p) || keys.contains(prop_root(p))
}

/// Whether a matching partial reload resets prop path `p`.
pub open spec fn reset_matches(ctx: RequestContextView, pm: bool, p: Seq<char>) -> bool {
    pm && exists|i: int| 0 <= i < ctx.reset.len() && under_reset(p, #[trigger] ctx.reset[i])
}

/// Merge directives that survive in a response: their prop is present and
/// not reset.
pub open spec fn live(keys: Seq<Seq<char>>, ctx: RequestContextView, pm: bool) -> spec_fn(
    Seq<char>,
) -> bool {
    |p: Seq<char>| included(keys, p) && !reset_matches(ctx, pm, p)
}

/// Deferred props still to be fetched: absent from the response and not
/// already held by the client as once values.
pub open spec fn pending(keys: Seq<Seq<char>>, m: PageMetadataView, ctx: RequestContextView) -> spec_fn(
    Seq<char>,
) -> bool {
    |p: Seq<char>| !included(keys, p) && !once_excluded(m, ctx, p)
}

/// Elements not in `s`.
pub open spec fn outside(s: Seq<Seq<char>>) -> spec_fn(Seq<char>) -> bool {
    |p: Seq<char>| !s.contains(p)
}

/// How a matching partial reload asks infinite-scroll targets to merge:
/// 1 prepend, 2 append, 0 unchanged.
pub open spec fn intent_mode(ctx: RequestContextView, pm: bool) -> int {
    if pm && ctx.merge_intent is Some {
        if eq_ignore_ascii_case(ctx.merge_intent->0, "prepend"@) {
            1
        } else if eq_ignore_ascii_case(ctx.merge_intent->0, "append"@) {
            2
        } else {
            0
        }
    } else {
        0
    }
}

/// The append-merge list after applying a scroll merge intent.
pub open spec fn merge_after_intent(
    merge: Seq<Seq<char>>,
    targets: Seq<Seq<char>>,
    mode: int,
) -> Seq<Seq<char>> {
    if mode == 1 {
        merge.filter(outside(targets))
    } else if mode == 2 {
        merge + targets.filter(outside(merge))
    } else {
        merge
    }
}

/// The prepend-merge list after applying a scroll merge intent.
pub open spec fn prepend_after_intent(
    prepend: Seq<Seq<char>>,
    targets: Seq<Seq<char>>,
    mode: int,
) -> Seq<Seq<char>> {
    if mode == 1 {
        prepend + targets.filter(outside(prepend))
    } else if mode == 2 {
        prepend.filter(outside(targets))
    } else {
        prepend
    }
}

/// The merge targets of scroll props.
pub open spec fn targets_of(keys: Seq<Seq<char>>) -> Seq<Seq<char>> {
    keys.map_values(|k: Seq<char>| scroll_target(k))
}

/// Whether `p` or its top-level key is a key of `props`.
pub fn is_included<V>(props: &StrMap<V>, p: &str) -> (b: bool)
    ensures
        b == included(props.keys(), p@),
{
    if props.contains_key(p) {
        return true;
    }
    let root = prop_root_of(p);
    props.contains_key(root.as_str())
}

/// Whether a matching partial reload resets `p`.
pub fn is_reset(context: &RequestContext, pm: bool, p: &str) -> (b: bool)
    ensures
        b == reset_matches(context@, pm, p@),
{
    if !pm {
        return false;
    }
    let resets = context.reset();
    let mut i: usize = 0;
    while i < resets.len()
        invariant
            pm,
            0 <= i <= resets@.len(),
            crate::text::strs(resets@) == context@.reset,
            forall|j: int| 0 <= j < i ==> !under_reset(p@, #[trigger] context@.reset[j]),
        decreases resets@.len() - i,
    {
        if is_under_reset(p, resets[i].as_str()) {
            assert(crate::text::strs(resets@)[i as int] == resets@[i as int]@);
            assert(under_reset(p@, context@.reset[i as int]));
            return true;
        }
        assert(context@.reset[i as int] == resets@[i as int]@);
        i = i + 1;
    }
    false
}

/// Keeps the strings of `v` that satisfy `live`.
pub fn retain_live<V>(v: &mut Vec<String>, props: &StrMap<V>, context: &RequestContext, pm: bool)
    ensures
        strs(final(v)@) == strs(old(v)@).filter(live(props.keys(), context@, pm)),
{
    let ghost f = live(props.keys(), context@, pm);
    let mut keep: Vec<bool> = Vec::new();
    let mut i: usize = 0;
    while i < v.len()
        invariant
            0 <= i <= v.len(),
            keep.len() == i,
            f == live(props.keys(), context@, pm),
            forall|j: int| 0 <= j < i ==> keep@[j] == f(strs(v@)[j]),
        decreases v.len() - i,
    {
        let k = is_included(props, v[i].as_str()) && !is_reset(context, pm, v[i].as_str());
        keep.push(k);
        i = i + 1;
    }
    let ghost before = strs(v@);
    retain_strings(v, &keep);
    proof {
        lemma_filter_by_flags(before, keep@, f);
    }
}

/// Keeps the strings of `v` that satisfy `pending`.
pub fn retain_pending<V>(v: &mut Vec<String>, props: &StrMap<V>, m: &PageMetadata, context: &RequestContext)
    ensures
        strs(final(v)@) == strs(old(v)@).filter(pending(props.keys(), m@, context@)),
{
    let ghost f = pending(props.keys(), m@, context@);
    let mut keep: Vec<bool> = Vec::new();
    let mut i: usize = 0;
    while i < v.len()
        invariant
            0 <= i <= v.len(),
            keep.len() == i,
            f == pending(props.keys(), m@, context@),
            forall|j: int| 0 <= j < i ==> keep@[j] == f(strs(v@)[j]),
        decreases v.len() - i,
    {
        let k = !is_included(props, v[i].as_str()) && !crate::request::selection::is_once_excluded(m, context, v[i].as_str());
        keep.push(k);
        i = i + 1;
    }
    let ghost before = strs(v@);
    retain_strings(v, &keep);
    proof {
        lemma_filter_by_flags(before, keep@, f);
    }
}

/// Removes every string equal to `x`.
pub fn retain_except(v: &mut Vec<String>, x: &str)
    ensures
        strs(final(v)@) == strs(old(v)@).filter(outside(seq![x@])),
{
    let ghost f = outside(seq![x@]);
    let mut keep: Vec<bool> = Vec::new();
    let mut i: usize = 0;
    while i < v.len()
        invariant
            0 <= i <= v.len(),
            keep.len() == i,
            f == outside(seq![x@]),
            forall|j: int| 0 <= j < i ==> keep@[j] == f(strs(v@)[j]),
        decreases v.len() - i,
    {
        let k = !str_eq(v[i].as_str(), x);
        proof {
            let p = strs(v@)[i as int];
            assert(seq![x@].contains(p) <==> p == x@) by {
                if seq![x@].contains(p) {
                    let j = choose|j: int| 0 <= j < 1 && seq![x@][j] == p;
                }
                if p == x@ {
                    assert(seq![x@][0] == p);
                }
            }
        }
        keep.push(k);
        i = i + 1;
    }
    let ghost before = strs(v@);
    retain_strings(v, &keep);
    proof {
        lemma_filter_by_flags(before, keep@, f);
    }
}

proof fn lemma_concat_contains(a: Seq<Seq<char>>, b: Seq<Seq<char>>, x: Seq<char>)
    ensures
        (a + b).contains(x) <==> (a.contains(x) || b.contains(x)),
{
    if (a + b).contains(x) {
        let i = choose|i: int| 0 <= i < (a + b).len() && (a + b)[i] == x;
        if i < a.len() {
            assert(a[i] == x);
        } else {
            assert(b[i - a.len()] == x);
        }
    }
    if a.contains(x) {
        let i = choose|i: int| 0 <= i < a.len() && a[i] == x;
        assert((a + b)[i] == x);
    }
    if b.contains(x) {
        let i = choose|i: int| 0 <= i < b.len() && b[i] == x;
        assert((a + b)[i + a.len()] == x);
    }
}

proof fn lemma_targets_distinct(keys: Seq<Seq<char>>)
    requires
        sorted_keys(keys),
    ensures
        distinct(targets_of(keys)),
{
    let t = targets_of(keys);
    assert forall|i: int, j: int| 0 <= i < j < t.len() implies t[i] != t[j] by {
        if t[i] == t[j] {
            lemma_scroll_target_injective(keys[i], keys[j]);
            crate::text::lemma_seq_lt_irreflexive(keys[i]);
        }
    }
}

/// Moves the scroll targets of `keys` out of `from` and onto the end of
/// `to` (where not already present), in key order.
fn move_targets(from: &mut Vec<String>, to: &mut Vec<String>, keys: &StrMap<ScrollProps>)
    requires
        distinct(strs(old(to)@)),
    ensures
        strs(final(from)@) == strs(old(from)@).filter(outside(targets_of(keys.keys()))),
        strs(final(to)@) == strs(old(to)@) + targets_of(keys.keys()).filter(outside(strs(old(to)@))),
        distinct(strs(final(to)@)),
{
    keys.lemma_wf();
    let ghost ts = targets_of(keys.keys());
    let ghost a0 = strs(from@);
    let ghost b0 = strs(to@);
    proof {
        lemma_targets_distinct(keys.keys());
        reveal(Seq::filter);
        assert(ts.take(0) =~= Seq::<Seq<char>>::empty());
        assert(a0.filter(outside(ts.take(0))) =~= a0) by {
            lemma_filter_identity(a0, outside(ts.take(0)));
        }
        assert(b0 + ts.take(0).filter(outside(b0)) =~= b0);
    }
    let n = keys.len();
    let mut t: usize = 0;
    while t < n
        invariant
            0 <= t <= n,
            n == keys.keys().len(),
            ts == targets_of(keys.keys()),
            ts.len() == n,
            distinct(ts),
            distinct(b0),
            strs(from@) == a0.filter(outside(ts.take(t as int))),
            strs(to@) == b0 + ts.take(t as int).filter(outside(b0)),
        decreases n - t,
    {
        let target = scroll_merge_target(keys.key_at(t).as_str());
        assert(target@ == ts[t as int]);
        assert(ts.take(t + 1) =~= ts.take(t as int).push(ts[t as int]));
        proof {
            let f = outside(ts.take(t as int));
            let g = outside(seq![target@]);
            let h = outside(ts.take(t + 1));
            assert forall|x: Seq<char>| #[trigger] h(x) == (f(x) && g(x)) by {
                lemma_concat_contains(ts.take(t as int), seq![target@], x);
                assert(ts.take(t as int) + seq![target@] =~= ts.take(t + 1));
                assert(seq![target@].contains(x) <==> x == target@) by {
                    if x == target@ {
                        assert(seq![target@][0] == x);
                    }
                }
            }
            lemma_filter_filter(a0, f, g, h);
        }
        retain_except(from, target.as_str());
        let present = crate::text::vec_contains_str(to, target.as_str());
        proof {
            let acc = ts.take(t as int).filter(outside(b0));
            assert(!ts.take(t as int).contains(target@)) by {
                if ts.take(t as int).contains(target@) {
                    let i = choose|i: int| 0 <= i < t && ts.take(t as int)[i] == target@;
                    assert(ts[i] == ts[t as int]);
                }
            }
            lemma_filter_contains(ts.take(t as int), outside(b0), target@);
            lemma_concat_contains(b0, acc, target@);
            lemma_filter_push(ts.take(t as int), outside(b0), target@);
        }
        if !present {
            proof {
                crate::text::lemma_strs_push(to@, target);
            }
            to.push(target);
            assert(strs(to@) =~= b0 + ts.take(t + 1).filter(outside(b0)));
        }
        t = t + 1;
    }
    proof {
        assert(ts.take(n as int) =~= ts);
        let added = ts.filter(outside(b0));
        lemma_filter_distinct(ts, outside(b0));
        let all = b0 + added;
        assert forall|i: int, j: int| 0 <= i < j < all.len() implies all[i] != all[j] by {
            if j >= b0.len() {
                if i < b0.len() {
                    lemma_filter_contains(ts, outside(b0), all[j]);
                    assert(added[j - b0.len()] == all[j]);
                    assert(added.contains(all[j]));
                    assert(b0.contains(all[i]));
                } else {
                    assert(all[i] == added[i - b0.len()]);
                    assert(all[j] == added[j - b0.len()]);
                }
            }
        }
    }
}

proof fn lemma_filter_identity(s: Seq<Seq<char>>, f: spec_fn(Seq<char>) -> bool)
    requires
        forall|x: Seq<char>| #[trigger] f(x),
    ensures
        s.filter(f) == s,
    decreases s.len(),
{
    reveal(Seq::filter);
    if s.len() > 0 {
        lemma_filter_identity(s.drop_last(), f);
        assert(s.drop_last().push(s.last()) =~= s);
    }
}

/// The name of the default deferred group, `"default"`.
pub open spec fn default_group() -> Seq<char> {
    seq!['d', 'e', 'f', 'a', 'u', 'l', 't']
}

/// Builds `"default"`.
pub fn default_group_name() -> (out: String)
    ensures
        out@ == default_group(),
{
    let mut out = String::new();
    crate::text::push_char(&mut out, 'd');
    crate::text::push_char(&mut out, 'e');
    crate::text::push_char(&mut out, 'f');
    crate::text::push_char(&mut out, 'a');
    crate::text::push_char(&mut out, 'u');
    crate::text::push_char(&mut out, 'l');
    crate::text::push_char(&mut out, 't');
    assert(out@ =~= default_group());
    out
}

/// Serialized pagination metadata for an infinite-scroll prop.
#[derive(Debug, PartialEq, Eq)]
pub struct ScrollProps {
    page_name: String,
    previous_page: Option<u64>,
    next_page: Option<u64>,
    current_page: u64,
}

/// The abstract content of a [`ScrollProps`].
pub struct ScrollPropsView {
    pub page_name: Seq<char>,
    pub previous_page: Option<u64>,
    pub next_page: Option<u64>,
    pub current_page: u64,
}

impl Clone for ScrollProps {
    /// The same pagination metadata.
    fn clone(&self) -> (r: Self)
        ensures
            r == *self,
    {
        ScrollProps {
            page_name: self.page_name.clone(),
            previous_page: self.previous_page,
            next_page: self.next_page,
            current_page: self.current_page,
        }
    }
}

impl View for ScrollProps {
    type V = ScrollPropsView;

    closed spec fn view(&self) -> ScrollPropsView {
        ScrollPropsView {
            page_name: self.page_name@,
            previous_page: self.previous_page,
            next_page: self.next_page,
            current_page: self.current_page,
        }
    }
}

impl ScrollProps {
    /// Creates scroll metadata for `page_name` at `current_page`.
    pub fn new(page_name: &str, current_page: u64) -> (r: Self)
        ensures
            r@ == (ScrollPropsView {
                page_name: page_name@,
                previous_page: None,
                next_page: None,
                current_page,
            }),
    {
        ScrollProps { page_name: owned(page_name), previous_page: None, next_page: None, current_page }
    }

    /// Sets the previous page number.
    pub fn previous_page(self, previous_page: u64) -> (r: Self)
        ensures
            r@ == (ScrollPropsView { previous_page: Some(previous_page), ..self@ }),
    {
        ScrollProps { previous_page: Some(previous_page), ..self }
    }

    /// Sets the next page number.
    pub fn next_page(self, next_page: u64) -> (r: Self)
        ensures
            r@ == (ScrollPropsView { next_page: Some(next_page), ..self@ }),
    {
        ScrollProps { next_page: Some(next_page), ..self }
    }

    /// Returns the query parameter name used for pagination.
    pub fn page_name(&self) -> (r: &str)
        ensures
            r@ == self@.page_name,
    {
        self.page_name.as_str()
    }

    /// Returns the previous page number, if any.
    pub fn previous(&self) -> (r: Option<u64>)
        ensures
            r == self@.previous_page,
    {
        self.previous_page
    }

    /// Returns the next page number, if any.
    pub fn next(&self) -> (r: Option<u64>)
        ensures
            r == self@.next_page,
    {
        self.next_page
    }

    /// Returns the current page number.
    pub fn current(&self) -> (r: u64)
        ensures
            r == self@.current_page,
    {
        self.current_page
    }
}

/// Metadata for a prop that should only be resolved once.
#[derive(Debug, PartialEq, Eq)]
pub struct OnceProp {
    prop: String,
    expires_at: Option<u64>,
}

/// The abstract content of a [`OnceProp`].
pub struct OncePropView {
    pub prop: Seq<char>,
    pub expires_at: Option<u64>,
}

impl Clone for OnceProp {
    /// The same once-prop metadata.
    fn clone(&self) -> (r: Self)
        ensures
            r == *self,
    {
        OnceProp { prop: self.prop.clone(), expires_at: self.expires_at }
    }
}

impl View for OnceProp {
    type V = OncePropView;

    closed spec fn view(&self) -> OncePropView {
        OncePropView { prop: self.prop@, expires_at: self.expires_at }
    }
}

impl OnceProp {
    /// Creates once-prop metadata for `prop`.
    pub fn new(prop: &str) -> (r: Self)
        ensures
            r@ == (OncePropView { prop: prop@, expires_at: None }),
    {
        OnceProp { prop: owned(prop), expires_at: None }
    }

    /// Creates once-prop metadata for an owned prop name.
    pub fn from_string(prop: String) -> (r: Self)
        ensures
            r@ == (OncePropView { prop: prop@, expires_at: None }),
    {
        OnceProp { prop, expires_at: None }
    }

    /// Sets the client-side expiration timestamp in milliseconds.
    pub fn expires_at(self, expires_at: u64) -> (r: Self)
        ensures
            r@ == (OncePropView { expires_at: Some(expires_at), ..self@ }),
    {
        OnceProp { expires_at: Some(expires_at), ..self }
    }

    /// Returns the prop name associated with this once key.
    pub fn prop(&self) -> (r: &str)
        ensures
            r@ == self@.prop,
    {
        self.prop.as_str()
    }

    /// Returns the optional expiration timestamp in milliseconds.
    pub fn expiration(&self) -> (r: Option<u64>)
        ensures
            r == self@.expires_at,
    {
        self.expires_at
    }

    /// A field-by-field copy.
    pub fn duplicate(&self) -> (r: Self)
        ensures
            r@ == self@,
    {
        OnceProp { prop: self.prop.clone(), expires_at: self.expires_at }
    }
}

/// Additional Inertia v3 page-object metadata.
#[derive(Debug, PartialEq, Eq)]
pub struct PageMetadata {
    encrypt_history: bool,
    clear_history: bool,
    preserve_fragment: bool,
    always_props: Vec<String>,
    merge_props: Vec<String>,
    prepend_props: Vec<String>,
    deep_merge_props: Vec<String>,
    match_props_on: Vec<String>,
    scroll_props: StrMap<ScrollProps>,
    deferred_props: StrMap<Vec<String>>,
    rescued_props: Vec<String>,
    shared_props: Vec<String>,
    once_props: StrMap<OnceProp>,
}

/// A copy of a list of strings.
fn copy_list(v: &Vec<String>) -> (r: Vec<String>)
    ensures
        r@ == v@,
{
    let r = v.clone();
    assert(r@ =~= v@) by {
        assert forall|i: int| 0 <= i < v@.len() implies r@[i] == v@[i] by {
            assert(cloned::<String>(v[i], r[i]));
        }
    }
    r
}

impl Clone for PageMetadata {
    /// The same metadata.
    fn clone(&self) -> (r: Self)
        ensures
            r@ == self@,
    {
        proof {
            use_type_invariant(self);
        }
        let scroll_props = self.scroll_props.clone();
        let deferred_props = self.deferred_props.clone();
        let once_props = self.once_props.clone();
        assert(deferred_props.vals().map_values(|v: Vec<String>| strs(v@)) =~= self.deferred_props.vals().map_values(
            |v: Vec<String>| strs(v@),
        )) by {
            assert forall|i: int| 0 <= i < self.deferred_props.vals().len() implies deferred_props.vals()[i]@
                == self.deferred_props.vals()[i]@ by {
                let a = self.deferred_props.vals()[i];
                let b = deferred_props.vals()[i];
                assert(cloned::<Vec<String>>(a, b));
                assert(b@ =~= a@) by {
                    assert forall|j: int| 0 <= j < a@.len() implies b@[j] == a@[j] by {
                        assert(cloned::<String>(a[j], b[j]));
                    }
                }
            }
        }
        assert(scroll_props.vals() =~= self.scroll_props.vals()) by {
            assert forall|i: int| 0 <= i < self.scroll_props.vals().len() implies scroll_props.vals()[i]
                == self.scroll_props.vals()[i] by {
                assert(cloned::<ScrollProps>(self.scroll_props.vals()[i], scroll_props.vals()[i]));
            }
        }
        assert(once_props.vals() =~= self.once_props.vals()) by {
            assert forall|i: int| 0 <= i < self.once_props.vals().len() implies once_props.vals()[i]
                == self.once_props.vals()[i] by {
                assert(cloned::<OnceProp>(self.once_props.vals()[i], once_props.vals()[i]));
            }
        }
        let r = PageMetadata {
            encrypt_history: self.encrypt_history,
            clear_history: self.clear_history,
            preserve_fragment: self.preserve_fragment,
            always_props: copy_list(&self.always_props),
            merge_props: copy_list(&self.merge_props),
            prepend_props: copy_list(&self.prepend_props),
            deep_merge_props: copy_list(&self.deep_merge_props),
            match_props_on: copy_list(&self.match_props_on),
            scroll_props,
            deferred_props,
            rescued_props: copy_list(&self.rescued_props),
            shared_props: copy_list(&self.shared_props),
            once_props,
        };
        assert(r@ =~= self@);
        r
    }
}

impl Default for PageMetadata {
    /// Empty page metadata, as [`PageMetadata::new`] makes it.
    fn default() -> (r: Self)
        ensures
            r@ == PageMetadataView::empty(),
    {
        PageMetadata::new()
    }
}

/// The abstract content of a [`PageMetadata`].
#[verifier::ext_equal]
pub struct PageMetadataView {
    pub encrypt_history: bool,
    pub clear_history: bool,
    pub preserve_fragment: bool,
    pub always: Seq<Seq<char>>,
    pub merge: Seq<Seq<char>>,
    pub prepend: Seq<Seq<char>>,
    pub deep_merge: Seq<Seq<char>>,
    pub match_on: Seq<Seq<char>>,
    /// Scroll prop keys, in increasing order.
    pub scroll_keys: Seq<Seq<char>>,
    pub scroll_vals: Seq<ScrollPropsView>,
    /// Deferred group names, in increasing order.
    pub deferred_keys: Seq<Seq<char>>,
    pub deferred_vals: Seq<Seq<Seq<char>>>,
    pub rescued: Seq<Seq<char>>,
    pub shared: Seq<Seq<char>>,
    /// Once keys, in increasing order.
    pub once_keys: Seq<Seq<char>>,
    pub once_vals: Seq<OncePropView>,
}

impl PageMetadataView {
    /// No list holds a prop twice.
    pub open spec fn lists_distinct(self) -> bool {
        &&& distinct(self.always)
        &&& distinct(self.merge)
        &&& distinct(self.prepend)
        &&& distinct(self.deep_merge)
        &&& distinct(self.match_on)
        &&& distinct(self.rescued)
        &&& distinct(self.shared)
        &&& forall|g: int| 0 <= g < self.deferred_vals.len() ==> distinct(#[trigger] self.deferred_vals[g])
    }

    /// The metadata with no directive.
    pub open spec fn empty() -> Self {
        PageMetadataView {
            encrypt_history: false,
            clear_history: false,
            preserve_fragment: false,
            always: Seq::empty(),
            merge: Seq::empty(),
            prepend: Seq::empty(),
            deep_merge: Seq::empty(),
            match_on: Seq::empty(),
            scroll_keys: Seq::empty(),
            scroll_vals: Seq::empty(),
            deferred_keys: Seq::empty(),
            deferred_vals: Seq::empty(),
            rescued: Seq::empty(),
            shared: Seq::empty(),
            once_keys: Seq::empty(),
            once_vals: Seq::empty(),
        }
    }

    /// Whether `prop` is listed in some deferred group.
    pub open spec fn is_deferred(self, prop: Seq<char>) -> bool {
        exists|g: int| 0 <= g < self.deferred_vals.len() && #[trigger] self.deferred_vals[g].contains(prop)
    }

    /// Whether group `group` is a deferred group.
    pub open spec fn has_group(self, group: Seq<char>) -> bool {
        self.deferred_keys.contains(group)
    }

    /// The props of deferred group `group` (empty when absent).
    pub open spec fn group(self, group: Seq<char>) -> Seq<Seq<char>> {
        if self.deferred_keys.contains(group) {
            self.deferred_vals[self.deferred_keys.index_of(group)]
        } else {
            Seq::empty()
        }
    }

    /// The once entry stored under `key`.
    pub open spec fn once_at(self, key: Seq<char>) -> OncePropView {
        self.once_vals[self.once_keys.index_of(key)]
    }

    /// The scroll entry stored under `key`.
    pub open spec fn scroll_at(self, key: Seq<char>) -> ScrollPropsView {
        self.scroll_vals[self.scroll_keys.index_of(key)]
    }
}

/// `after` is `before` narrowed to a response whose prop object has keys
/// `keys`: deferred groups keep only props still to be fetched (and
/// disappear when none is left); merge, prepend, deep-merge, match, and
/// scroll directives keep only live props; and a matching partial reload's
/// infinite-scroll merge intent moves the scroll targets between the append
/// and prepend lists.
pub open spec fn narrowed(
    before: PageMetadataView,
    after: PageMetadataView,
    ctx: RequestContextView,
    component: Seq<char>,
    keys: Seq<Seq<char>>,
) -> bool {
    let pm = ctx.partial_reload_matches(component);
    let lv = live(keys, ctx, pm);
    let sk = before.scroll_keys.filter(lv);
    let mode = intent_mode(ctx, pm);
    &&& after == (PageMetadataView {
        merge: merge_after_intent(before.merge.filter(lv), targets_of(sk), mode),
        prepend: prepend_after_intent(before.prepend.filter(lv), targets_of(sk), mode),
        deep_merge: before.deep_merge.filter(lv),
        match_on: before.match_on.filter(lv),
        scroll_keys: sk,
        scroll_vals: after.scroll_vals,
        deferred_keys: after.deferred_keys,
        deferred_vals: after.deferred_vals,
        ..before
    })
    &&& forall|k: Seq<char>|
        #![trigger after.scroll_at(k)]
        after.scroll_keys.contains(k) ==> after.scroll_at(k) == before.scroll_at(k)
    &&& forall|g: Seq<char>|
        #![trigger after.has_group(g)]
        after.has_group(g) <==> (before.has_group(g) && before.group(g).filter(pending(keys, before, ctx)).len()
            > 0)
    &&& forall|g: Seq<char>|
        #![trigger after.group(g)]
        after.has_group(g) ==> after.group(g) == before.group(g).filter(pending(keys, before, ctx))
}

/// The views of the deferred groups' prop lists.
pub open spec fn group_views(vals: Seq<Vec<String>>) -> Seq<Seq<Seq<char>>> {
    vals.map_values(|v: Vec<String>| strs(v@))
}

impl View for PageMetadata {
    type V = PageMetadataView;

    closed spec fn view(&self) -> PageMetadataView {
        PageMetadataView {
            encrypt_history: self.encrypt_history,
            clear_history: self.clear_history,
            preserve_fragment: self.preserve_fragment,
            always: strs(self.always_props@),
            merge: strs(self.merge_props@),
            prepend: strs(self.prepend_props@),
            deep_merge: strs(self.deep_merge_props@),
            match_on: strs(self.match_props_on@),
            scroll_keys: self.scroll_props.keys(),
            scroll_vals: self.scroll_props.vals().map_values(|s: ScrollProps| s@),
            deferred_keys: self.deferred_props.keys(),
            deferred_vals: group_views(self.deferred_props.vals()),
            rescued: strs(self.rescued_props@),
            shared: strs(self.shared_props@),
            once_keys: self.once_props.keys(),
            once_vals: self.once_props.vals().map_values(|o: OnceProp| o@),
        }
    }
}

impl PageMetadata {
    #[verifier::type_invariant]
    closed spec fn wf(&self) -> bool {
        self@.lists_distinct()
    }

    /// States the duplicate-freedom invariant for callers (no run-time work).
    pub fn lemma_wf(&self)
        ensures
            self@.lists_distinct(),
            self@.scroll_keys.len() == self@.scroll_vals.len(),
            self@.deferred_keys.len() == self@.deferred_vals.len(),
            self@.once_keys.len() == self@.once_vals.len(),
            crate::str_map::sorted_keys(self@.scroll_keys),
            crate::str_map::sorted_keys(self@.deferred_keys),
            crate::str_map::sorted_keys(self@.once_keys),
    {
        proof {
            use_type_invariant(self);
        }
        self.scroll_props.lemma_wf();
        self.deferred_props.lemma_wf();
        self.once_props.lemma_wf();
    }

    /// Creates empty page metadata.
    pub fn new() -> (r: Self)
        ensures
            r@ == PageMetadataView::empty(),
    {
        let r = PageMetadata {
            encrypt_history: false,
            clear_history: false,
            preserve_fragment: false,
            always_props: Vec::new(),
            merge_props: Vec::new(),
            prepend_props: Vec::new(),
            deep_merge_props: Vec::new(),
            match_props_on: Vec::new(),
            scroll_props: StrMap::new(),
            deferred_props: StrMap::new(),
            rescued_props: Vec::new(),
            shared_props: Vec::new(),
            once_props: StrMap::new(),
        };
        assert(r@ =~= PageMetadataView::empty());
        r
    }

    /// Marks the page's history state for encryption.
    pub fn encrypt_history(self) -> (r: Self)
        ensures
            r@ == (PageMetadataView { encrypt_history: true, ..self@ }),
    {
        proof {
            use_type_invariant(&self);
        }
        PageMetadata { encrypt_history: true, ..self }
    }

    /// Marks the response as clearing encrypted history state.
    pub fn clear_history(self) -> (r: Self)
        ensures
            r@ == (PageMetadataView { clear_history: true, ..self@ }),
    {
        proof {
            use_type_invariant(&self);
        }
        PageMetadata { clear_history: true, ..self }
    }

    /// Preserves the original URL fragment across a redirect.
    pub fn preserve_fragment(self) -> (r: Self)
        ensures
            r@ == (PageMetadataView { preserve_fragment: true, ..self@ }),
    {
        proof {
            use_type_invariant(&self);
        }
        PageMetadata { preserve_fragment: true, ..self }
    }

    /// Marks a prop key to always be included during partial reloads.
    pub fn always(self, prop: &str) -> (r: Self)
        ensures
            r@ == (PageMetadataView { always: push_unique(self@.always, prop@), ..self@ }),
    {
        let mut m = self;
        m.add_always(owned(prop));
        m
    }

    /// Marks a prop key for append-style merging.
    pub fn merge(self, prop: &str) -> (r: Self)
        ensures
            r@ == (PageMetadataView { merge: push_unique(self@.merge, prop@), ..self@ }),
    {
        proof {
            use_type_invariant(&self);
            lemma_push_unique_distinct(self@.merge, prop@);
        }
        let mut m = self;
        let mut list = Vec::new();
        std::mem::swap(&mut list, &mut m.merge_props);
        push_unique_string(&mut list, owned(prop));
        m.merge_props = list;
        m
    }

    /// Marks a prop key for prepend-style merging.
    pub fn prepend(self, prop: &str) -> (r: Self)
        ensures
            r@ == (PageMetadataView { prepend: push_unique(self@.prepend, prop@), ..self@ }),
    {
        proof {
            use_type_invariant(&self);
            lemma_push_unique_distinct(self@.prepend, prop@);
        }
        let mut m = self;
        let mut list = Vec::new();
        std::mem::swap(&mut list, &mut m.prepend_props);
        push_unique_string(&mut list, owned(prop));
        m.prepend_props = list;
        m
    }

    /// Marks a prop key for deep merging.
    pub fn deep_merge(self, prop: &str) -> (r: Self)
        ensures
            r@ == (PageMetadataView { deep_merge: push_unique(self@.deep_merge, prop@), ..self@ }),
    {
        proof {
            use_type_invariant(&self);
            lemma_push_unique_distinct(self@.deep_merge, prop@);
        }
        let mut m = self;
        let mut list = Vec::new();
        std::mem::swap(&mut list, &mut m.deep_merge_props);
        push_unique_string(&mut list, owned(prop));
        m.deep_merge_props = list;
        m
    }

    /// Adds a matching key used by merge metadata.
    pub fn match_on(self, prop: &str) -> (r: Self)
        ensures
            r@ == (PageMetadataView { match_on: push_unique(self@.match_on, prop@), ..self@ }),
    {
        proof {
            use_type_invariant(&self);
            lemma_push_unique_distinct(self@.match_on, prop@);
        }
        let mut m = self;
        let mut list = Vec::new();
        std::mem::swap(&mut list, &mut m.match_props_on);
        push_unique_string(&mut list, owned(prop));
        m.match_props_on = list;
        m
    }

    /// Marks a deferred prop as rescued.
    ///
    /// This only records the `rescuedProps` metadata; it does not catch
    /// errors while resolving prop values.
    pub fn rescue(self, prop: &str) -> (r: Self)
        ensures
            r@ == (PageMetadataView { rescued: push_unique(self@.rescued, prop@), ..self@ }),
    {
        proof {
            use_type_invariant(&self);
            lemma_push_unique_distinct(self@.rescued, prop@);
        }
        let mut m = self;
        let mut list = Vec::new();
        std::mem::swap(&mut list, &mut m.rescued_props);
        push_unique_string(&mut list, owned(prop));
        m.rescued_props = list;
        m
    }

    /// Marks a top-level prop as shared.
    ///
    /// This only records the `sharedProps` metadata; it does not register or
    /// merge global shared application state.
    pub fn share(self, prop: &str) -> (r: Self)
        ensures
            r@ == (PageMetadataView { shared: push_unique(self@.shared, prop@), ..self@ }),
    {
        proof {
            use_type_invariant(&self);
            lemma_push_unique_distinct(self@.shared, prop@);
        }
        let mut m = self;
        let mut list = Vec::new();
        std::mem::swap(&mut list, &mut m.shared_props);
        push_unique_string(&mut list, owned(prop));
        m.shared_props = list;
        m
    }

    /// Adds `prop` to the props that always survive partial reloads.
    pub fn add_always(&mut self, prop: String)
        ensures
            final(self)@ == (PageMetadataView { always: push_unique(old(self)@.always, prop@), ..old(self)@ }),
    {
        proof {
            use_type_invariant(&*self);
            lemma_push_unique_distinct(self@.always, prop@);
        }
        let mut list = Vec::new();
        std::mem::swap(&mut list, &mut self.always_props);
        push_unique_string(&mut list, prop);
        self.always_props = list;
    }

    /// Records once-prop metadata under `key`, replacing an earlier entry.
    pub fn add_once(&mut self, key: String, once: OnceProp)
        ensures
            final(self)@ == (PageMetadataView {
                once_keys: final(self)@.once_keys,
                once_vals: final(self)@.once_vals,
                ..old(self)@
            }),
            final(self)@.once_keys.contains(key@),
            final(self)@.once_at(key@) == once@,
            forall|x: Seq<char>| x != key@ ==> (final(self)@.once_keys.contains(x) <==> old(self)@.once_keys.contains(x)),
            forall|x: Seq<char>| x != key@ && old(self)@.once_keys.contains(x) ==> final(self)@.once_at(x) == old(self)@.once_at(x),
    {
        proof {
            use_type_invariant(&*self);
        }
        let ghost k = key@;
        let ghost ov = self@;
        let mut map = StrMap::new();
        std::mem::swap(&mut map, &mut self.once_props);
        let ghost before = map;
        map.insert(key, once);
        proof {
            before.lemma_len();
            map.lemma_len();
            assert forall|x: Seq<char>| x != k implies (map.keys().contains(x) <==> ov.once_keys.contains(x)) by {
                assert(map.has(x) == before.has(x));
            }
            assert forall|x: Seq<char>| x != k && ov.once_keys.contains(x) implies map.vals().map_values(|o: OnceProp| o@)[map.keys().index_of(x)] == ov.once_at(x) by {
                assert(map.at(x) == before.at(x));
            }
        }
        self.once_props = map;
    }

    /// Marks a prop as a once prop using the prop name as the once key.
    pub fn once(self, prop: &str) -> (r: Self)
        ensures
            r@ == (PageMetadataView { once_keys: r@.once_keys, once_vals: r@.once_vals, ..self@ }),
            r@.once_keys.contains(prop@),
            r@.once_at(prop@) == (OncePropView { prop: prop@, expires_at: None }),
            forall|x: Seq<char>| x != prop@ ==> (r@.once_keys.contains(x) <==> self@.once_keys.contains(x)),
            forall|x: Seq<char>| x != prop@ && self@.once_keys.contains(x) ==> r@.once_at(x) == self@.once_at(x),
    {
        let mut m = self;
        m.add_once(owned(prop), OnceProp::new(prop));
        m
    }

    /// Marks a prop as a once prop with an explicit once key.
    pub fn once_with_key(self, key: &str, once: OnceProp) -> (r: Self)
        ensures
            r@ == (PageMetadataView { once_keys: r@.once_keys, once_vals: r@.once_vals, ..self@ }),
            r@.once_keys.contains(key@),
            r@.once_at(key@) == once@,
            forall|x: Seq<char>| x != key@ ==> (r@.once_keys.contains(x) <==> self@.once_keys.contains(x)),
            forall|x: Seq<char>| x != key@ && self@.once_keys.contains(x) ==> r@.once_at(x) == self@.once_at(x),
    {
        let mut m = self;
        m.add_once(owned(key), once);
        m
    }

    /// Returns whether encrypted history is enabled.
    pub fn encrypt_history_enabled(&self) -> (r: bool)
        ensures
            r == self@.encrypt_history,
    {
        self.encrypt_history
    }

    /// Returns whether clear history is enabled.
    pub fn clear_history_enabled(&self) -> (r: bool)
        ensures
            r == self@.clear_history,
    {
        self.clear_history
    }

    /// Returns whether fragment preservation is enabled.
    pub fn preserve_fragment_enabled(&self) -> (r: bool)
        ensures
            r == self@.preserve_fragment,
    {
        self.preserve_fragment
    }

    /// Returns props that always survive partial-reload filtering.
    pub fn always_props(&self) -> (r: &[String])
        ensures
            strs(r@) == self@.always,
    {
        self.always_props.as_slice()
    }

    /// Returns append-merge prop keys.
    pub fn merge_props(&self) -> (r: &[String])
        ensures
            strs(r@) == self@.merge,
    {
        self.merge_props.as_slice()
    }

    /// Returns prepend-merge prop keys.
    pub fn prepend_props(&self) -> (r: &[String])
        ensures
            strs(r@) == self@.prepend,
    {
        self.prepend_props.as_slice()
    }

    /// Returns deep-merge prop keys.
    pub fn deep_merge_props(&self) -> (r: &[String])
        ensures
            strs(r@) == self@.deep_merge,
    {
        self.deep_merge_props.as_slice()
    }

    /// Returns merge matching keys.
    pub fn match_props_on(&self) -> (r: &[String])
        ensures
            strs(r@) == self@.match_on,
    {
        self.match_props_on.as_slice()
    }

    /// Returns rescued deferred prop keys.
    pub fn rescued_props(&self) -> (r: &[String])
        ensures
            strs(r@) == self@.rescued,
    {
        self.rescued_props.as_slice()
    }

    /// Returns shared prop keys.
    pub fn shared_props(&self) -> (r: &[String])
        ensures
            strs(r@) == self@.shared,
    {
        self.shared_props.as_slice()
    }

    /// Returns infinite-scroll prop metadata, ordered by prop key.
    pub fn scroll_props(&self) -> (r: &StrMap<ScrollProps>)
        ensures
            r.keys() == self@.scroll_keys,
            r.vals().map_values(|s: ScrollProps| s@) == self@.scroll_vals,
    {
        &self.scroll_props
    }

    /// Returns deferred prop groups, ordered by group name.
    pub fn deferred_props(&self) -> (r: &StrMap<Vec<String>>)
        ensures
            r.keys() == self@.deferred_keys,
            group_views(r.vals()) == self@.deferred_vals,
    {
        &self.deferred_props
    }

    /// Returns once-prop metadata, ordered by once key.
    pub fn once_props(&self) -> (r: &StrMap<OnceProp>)
        ensures
            r.keys() == self@.once_keys,
            r.vals().map_values(|o: OnceProp| o@) == self@.once_vals,
    {
        &self.once_props
    }

    /// Adds infinite-scroll metadata for a prop.
    ///
    /// The prop's `"{prop}.data"` target is added to the append-merge list
    /// unless it already appears in the append or prepend list.
    pub fn scroll(self, prop: &str, scroll: ScrollProps) -> (r: Self)
        ensures
            r@ == (PageMetadataView {
                merge: if self@.merge.contains(scroll_target(prop@)) || self@.prepend.contains(
                    scroll_target(prop@),
                ) {
                    self@.merge
                } else {
                    self@.merge.push(scroll_target(prop@))
                },
                scroll_keys: r@.scroll_keys,
                scroll_vals: r@.scroll_vals,
                ..self@
            }),
            r@.scroll_keys.contains(prop@),
            r@.scroll_at(prop@) == scroll@,
            forall|x: Seq<char>| x != prop@ ==> (r@.scroll_keys.contains(x) <==> self@.scroll_keys.contains(x)),
            forall|x: Seq<char>| x != prop@ && self@.scroll_keys.contains(x) ==> r@.scroll_at(x) == self@.scroll_at(x),
    {
        proof {
            use_type_invariant(&self);
        }
        let mut m = self;
        let target = scroll_merge_target(prop);
        let in_merge = crate::text::vec_contains_str(&m.merge_props, target.as_str());
        let in_prepend = crate::text::vec_contains_str(&m.prepend_props, target.as_str());
        if !in_merge && !in_prepend {
            proof {
                lemma_push_unique_distinct(m@.merge, target@);
            }
            let mut list = Vec::new();
            std::mem::swap(&mut list, &mut m.merge_props);
            push_unique_string(&mut list, target);
            m.merge_props = list;
        }
        let ghost mid = m@;
        let mut map = StrMap::new();
        std::mem::swap(&mut map, &mut m.scroll_props);
        let ghost before = map;
        let ghost k = prop@;
        let ghost sv = scroll@;
        map.insert(owned(prop), scroll);
        proof {
            before.lemma_len();
            map.lemma_len();
            assert forall|x: Seq<char>| x != k implies (map.keys().contains(x) <==> before.keys().contains(x)) by {
                assert(map.has(x) == before.has(x));
            }
            assert forall|x: Seq<char>| x != k && before.keys().contains(x) implies map.vals().map_values(|s: ScrollProps| s@)[map.keys().index_of(x)] == before.vals().map_values(|s: ScrollProps| s@)[before.keys().index_of(x)] by {
                assert(map.at(x) == before.at(x));
            }
            assert(map.vals().map_values(|s: ScrollProps| s@)[map.keys().index_of(k)] == sv);
        }
        m.scroll_props = map;
        m
    }

    /// Adds `prop` to deferred group `group`, creating the group if needed.
    pub fn add_deferred(&mut self, group: String, prop: String)
        ensures
            final(self)@ == (PageMetadataView {
                deferred_keys: final(self)@.deferred_keys,
                deferred_vals: final(self)@.deferred_vals,
                ..old(self)@
            }),
            final(self)@.has_group(group@),
            final(self)@.group(group@) == push_unique(old(self)@.group(group@), prop@),
            forall|x: Seq<char>| x != group@ ==> (final(self)@.has_group(x) <==> old(self)@.has_group(x)),
            forall|x: Seq<char>| x != group@ ==> final(self)@.group(x) == old(self)@.group(x),
    {
        proof {
            use_type_invariant(&*self);
        }
        self.deferred_props.lemma_wf();
        let ghost ov = self@;
        let ghost g = group@;
        let ghost p = prop@;
        let mut map = StrMap::new();
        std::mem::swap(&mut map, &mut self.deferred_props);
        let ghost before = map;
        let mut list = match map.remove(group.as_str()) {
            Some(l) => l,
            None => Vec::new(),
        };
        let ghost old_list = strs(list@);
        proof {
            before.lemma_len();
            if before.has(g) {
                assert(old_list == ov.group(g));
                let gi = before.keys().index_of(g);
                assert(ov.deferred_vals[gi] == old_list);
            } else {
                assert(old_list =~= ov.group(g));
            }
            lemma_push_unique_distinct(old_list, p);
        }
        push_unique_string(&mut list, prop);
        map.insert(group, list);
        map.lemma_wf();
        proof {
            map.lemma_len();
            let nv = group_views(map.vals());
            let nk = map.keys();
            assert forall|x: Seq<char>| x != g implies (nk.contains(x) <==> before.keys().contains(x)) by {
                assert(map.has(x) == before.has(x));
            }
            assert forall|x: Seq<char>| x != g && nk.contains(x) implies nv[nk.index_of(x)] == ov.group(x) by {
                assert(map.at(x) == before.at(x));
            }
            assert forall|i: int| 0 <= i < nv.len() implies distinct(#[trigger] nv[i]) by {
                let x = nk[i];
                crate::str_map::lemma_sorted_index_of(nk, i);
                if x != g {
                    assert(before.has(x));
                    let j = before.keys().index_of(x);
                    assert(map.at(x) == before.at(x));
                    assert(nv[i] == ov.deferred_vals[j]);
                }
            }
        }
        self.deferred_props = map;
        proof {
            assert forall|x: Seq<char>| x != g implies self@.group(x) == ov.group(x) by {
            }
        }
    }

    /// Marks a prop as deferred in `group`.
    ///
    /// This declares page-object metadata and omits the prop value until it is
    /// explicitly requested by a partial reload. It does not install a lazy or
    /// async resolver.
    pub fn defer_group(self, group: &str, prop: &str) -> (r: Self)
        ensures
            r@ == (PageMetadataView { deferred_keys: r@.deferred_keys, deferred_vals: r@.deferred_vals, ..self@ }),
            r@.has_group(group@),
            r@.group(group@) == push_unique(self@.group(group@), prop@),
            forall|x: Seq<char>| x != group@ ==> (r@.has_group(x) <==> self@.has_group(x)),
            forall|x: Seq<char>| x != group@ ==> r@.group(x) == self@.group(x),
    {
        let mut m = self;
        m.add_deferred(owned(group), owned(prop));
        m
    }

    /// Marks a prop as deferred in the default group.
    pub fn defer(self, prop: &str) -> (r: Self)
        ensures
            r@ == (PageMetadataView { deferred_keys: r@.deferred_keys, deferred_vals: r@.deferred_vals, ..self@ }),
            r@.has_group(default_group()),
            r@.group(default_group()) == push_unique(self@.group(default_group()), prop@),
            forall|x: Seq<char>| x != default_group() ==> (r@.has_group(x) <==> self@.has_group(x)),
            forall|x: Seq<char>| x != default_group() ==> r@.group(x) == self@.group(x),
    {
        let g = default_group_name();
        let mut m = self;
        m.add_deferred(g, owned(prop));
        m
    }

    /// Drops from every deferred group the props the response already holds
    /// or the client already has as once values, then drops empty groups.
    pub fn retain_pending_deferred<V>(&mut self, props: &StrMap<V>, context: &RequestContext)
        ensures
            final(self)@ == (PageMetadataView {
                deferred_keys: final(self)@.deferred_keys,
                deferred_vals: final(self)@.deferred_vals,
                ..old(self)@
            }),
            forall|g: Seq<char>|
                #![trigger final(self)@.has_group(g)]
                final(self)@.has_group(g) <==> (old(self)@.has_group(g) && old(self)@.group(g).filter(
                    pending(props.keys(), old(self)@, context@),
                ).len() > 0),
            forall|g: Seq<char>|
                #![trigger final(self)@.group(g)]
                final(self)@.has_group(g) ==> final(self)@.group(g) == old(self)@.group(g).filter(
                    pending(props.keys(), old(self)@, context@),
                ),
    {
        proof {
            use_type_invariant(&*self);
        }
        self.deferred_props.lemma_wf();
        let ghost ov = self@;
        let ghost f = pending(props.keys(), ov, context@);
        let mut map = StrMap::new();
        std::mem::swap(&mut map, &mut self.deferred_props);
        let ghost ok = map.keys();
        let ghost vals0 = map.vals();
        proof {
            map.lemma_len();
            assert(pending(props.keys(), self@, context@) =~= f) by {
                assert forall|p: Seq<char>| #[trigger] pending(props.keys(), self@, context@)(p) == f(p) by {
                    assert(once_excluded(self@, context@, p) == once_excluded(ov, context@, p));
                }
            }
        }
        let n = map.len();
        let mut i: usize = 0;
        while i < n
            invariant
                0 <= i <= n,
                n == ok.len(),
                map.keys() == ok,
                map.vals().len() == n,
                vals0.len() == n,
                group_views(vals0) == ov.deferred_vals,
                pending(props.keys(), self@, context@) == f,
                forall|j: int| 0 <= j < i ==> strs(#[trigger] map.vals()[j]@) == strs(vals0[j]@).filter(f),
                forall|j: int| i <= j < n ==> #[trigger] map.vals()[j] == vals0[j],
            decreases n - i,
        {
            proof {
                map.lemma_len();
            }
            let mut list = map.replace_value_at(i, Vec::new());
            retain_pending(&mut list, props, &*self, context);
            let _ = map.replace_value_at(i, list);
            i = i + 1;
        }
        let mut keep: Vec<bool> = Vec::new();
        let mut j: usize = 0;
        while j < n
            invariant
                0 <= j <= n,
                n == map.keys().len(),
                map.vals().len() == n,
                keep.len() == j,
                forall|k: int| 0 <= k < j ==> keep@[k] == (map.vals()[k]@.len() > 0),
            decreases n - j,
        {
            keep.push(map.value_at(j).len() > 0);
            j = j + 1;
        }
        let ghost mid = map.vals();
        map.retain_flags(&keep);
        map.lemma_wf();
        proof {
            map.lemma_len();
            let nk = map.keys();
            let nv = map.vals();
            lemma_filter_by_len_eq(ok, mid, keep@);
            assert forall|k: int| 0 <= k < nv.len() implies distinct(#[trigger] group_views(nv)[k]) by {
                lemma_filter_by_origin2(ok, mid, keep@, k);
                let o = choose|o: int| 0 <= o < ok.len() && keep@[o] && ok[o] == filter_by(ok, keep@)[k] && mid[o] == filter_by(mid, keep@)[k];
                assert(ov.deferred_vals[o] == strs(vals0[o]@));
                lemma_filter_distinct(strs(vals0[o]@), f);
            }
            assert forall|g: Seq<char>| #![trigger nk.contains(g)] nk.contains(g) <==> (ov.has_group(g)
                && ov.group(g).filter(f).len() > 0) by {
                if nk.contains(g) {
                    let k = nk.index_of(g);
                    lemma_filter_by_origin2(ok, mid, keep@, k);
                    let o = choose|o: int| 0 <= o < ok.len() && keep@[o] && ok[o] == filter_by(ok, keep@)[k] && mid[o] == filter_by(mid, keep@)[k];
                    lemma_sorted_index_of(ok, o);
                    assert(ov.group(g) == strs(vals0[o]@));
                }
                if ov.has_group(g) && ov.group(g).filter(f).len() > 0 {
                    let o = ok.index_of(g);
                    assert(ov.group(g) == strs(vals0[o]@));
                    assert(keep@[o]);
                    lemma_filter_by_keeps(ok, keep@, o);
                }
            }
            assert forall|g: Seq<char>| #![trigger nk.contains(g)] nk.contains(g) implies strs(nv[nk.index_of(g)]@) == ov.group(g).filter(f) by {
                let k = nk.index_of(g);
                lemma_filter_by_origin2(ok, mid, keep@, k);
                let o = choose|o: int| 0 <= o < ok.len() && keep@[o] && ok[o] == filter_by(ok, keep@)[k] && mid[o] == filter_by(mid, keep@)[k];
                lemma_sorted_index_of(ok, o);
                assert(ov.group(g) == strs(vals0[o]@));
            }
        }
        self.deferred_props = map;
    }

    /// Keeps, in the append, prepend, deep-merge, and match lists, only the
    /// props the response holds and a matching partial reload did not reset.
    pub fn retain_live_lists<V>(&mut self, props: &StrMap<V>, context: &RequestContext, pm: bool)
        ensures
            final(self)@ == (PageMetadataView {
                merge: old(self)@.merge.filter(live(props.keys(), context@, pm)),
                prepend: old(self)@.prepend.filter(live(props.keys(), context@, pm)),
                deep_merge: old(self)@.deep_merge.filter(live(props.keys(), context@, pm)),
                match_on: old(self)@.match_on.filter(live(props.keys(), context@, pm)),
                ..old(self)@
            }),
    {
        proof {
            use_type_invariant(&*self);
            let f = live(props.keys(), context@, pm);
            lemma_filter_distinct(self@.merge, f);
            lemma_filter_distinct(self@.prepend, f);
            lemma_filter_distinct(self@.deep_merge, f);
            lemma_filter_distinct(self@.match_on, f);
        }
        let mut list = Vec::new();
        std::mem::swap(&mut list, &mut self.merge_props);
        retain_live(&mut list, props, context, pm);
        self.merge_props = list;
        let mut list = Vec::new();
        std::mem::swap(&mut list, &mut self.prepend_props);
        retain_live(&mut list, props, context, pm);
        self.prepend_props = list;
        let mut list = Vec::new();
        std::mem::swap(&mut list, &mut self.deep_merge_props);
        retain_live(&mut list, props, context, pm);
        self.deep_merge_props = list;
        let mut list = Vec::new();
        std::mem::swap(&mut list, &mut self.match_props_on);
        retain_live(&mut list, props, context, pm);
        self.match_props_on = list;
    }

    /// Keeps only the scroll entries whose prop the response holds and a
    /// matching partial reload did not reset.
    pub fn retain_live_scroll<V>(&mut self, props: &StrMap<V>, context: &RequestContext, pm: bool)
        ensures
            final(self)@ == (PageMetadataView {
                scroll_keys: old(self)@.scroll_keys.filter(live(props.keys(), context@, pm)),
                scroll_vals: final(self)@.scroll_vals,
                ..old(self)@
            }),
            forall|k: Seq<char>|
                #![trigger final(self)@.scroll_at(k)]
                final(self)@.scroll_keys.contains(k) ==> final(self)@.scroll_at(k) == old(self)@.scroll_at(k),
    {
        proof {
            use_type_invariant(&*self);
        }
        self.scroll_props.lemma_wf();
        let ghost ov = self@;
        let ghost f = live(props.keys(), context@, pm);
        let mut map = StrMap::new();
        std::mem::swap(&mut map, &mut self.scroll_props);
        let ghost ok = map.keys();
        let ghost vals0 = map.vals();
        let mut keep: Vec<bool> = Vec::new();
        let n = map.len();
        let mut i: usize = 0;
        while i < n
            invariant
                0 <= i <= n,
                n == map.keys().len(),
                map.keys() == ok,
                f == live(props.keys(), context@, pm),
                keep.len() == i,
                forall|j: int| 0 <= j < i ==> keep@[j] == f(ok[j]),
            decreases n - i,
        {
            let k = map.key_at(i);
            let b = is_included(props, k.as_str()) && !is_reset(context, pm, k.as_str());
            keep.push(b);
            i = i + 1;
        }
        map.retain_flags(&keep);
        map.lemma_wf();
        proof {
            map.lemma_len();
            lemma_filter_by_flags(ok, keep@, f);
            let nk = map.keys();
            let nv = map.vals();
            assert forall|k: Seq<char>| #![trigger nk.contains(k)] nk.contains(k) implies nv.map_values(|s: ScrollProps| s@)[nk.index_of(k)] == ov.scroll_at(k) by {
                let x = nk.index_of(k);
                lemma_filter_by_len_eq(ok, vals0, keep@);
                lemma_filter_by_origin2(ok, vals0, keep@, x);
                let o = choose|o: int| 0 <= o < ok.len() && keep@[o] && ok[o] == filter_by(ok, keep@)[x] && vals0[o] == filter_by(vals0, keep@)[x];
                lemma_sorted_index_of(ok, o);
            }
        }
        self.scroll_props = map;
    }

    /// Applies an infinite-scroll merge intent to the scroll targets:
    /// `prepend` moves them to the prepend list, otherwise to the append list.
    pub fn apply_scroll_intent(&mut self, prepend: bool)
        ensures
            final(self)@ == (PageMetadataView {
                merge: merge_after_intent(
                    old(self)@.merge,
                    targets_of(old(self)@.scroll_keys),
                    if prepend { 1 } else { 2 },
                ),
                prepend: prepend_after_intent(
                    old(self)@.prepend,
                    targets_of(old(self)@.scroll_keys),
                    if prepend { 1 } else { 2 },
                ),
                ..old(self)@
            }),
    {
        proof {
            use_type_invariant(&*self);
        }
        let mut merge = Vec::new();
        std::mem::swap(&mut merge, &mut self.merge_props);
        let mut pre = Vec::new();
        std::mem::swap(&mut pre, &mut self.prepend_props);
        let ghost f = outside(targets_of(self.scroll_props.keys()));
        if prepend {
            move_targets(&mut merge, &mut pre, &self.scroll_props);
        } else {
            move_targets(&mut pre, &mut merge, &self.scroll_props);
        }
        proof {
            lemma_filter_distinct(strs(old(self).merge_props@), f);
            lemma_filter_distinct(strs(old(self).prepend_props@), f);
        }
        self.merge_props = merge;
        self.prepend_props = pre;
    }

    /// Narrows the metadata to one response.
    ///
    /// With `props` (the response's prop object) present: deferred groups
    /// keep only props still to be fetched; merge, prepend, deep-merge,
    /// match, and scroll directives keep only props the response holds and a
    /// matching partial reload did not reset; and a matching partial reload's
    /// infinite-scroll merge intent moves the scroll targets between the
    /// append and prepend lists.  Without `props`, the metadata is unchanged.
    pub fn into_response_metadata<V>(
        self,
        context: &RequestContext,
        component: &str,
        props: Option<&StrMap<V>>,
    ) -> (r: Self)
        ensures
            props is None ==> r@ == self@,
            props matches Some(p) ==> narrowed(self@, r@, context@, component@, p.keys()),
    {
        let props = match props {
            None => {
                return self;
            },
            Some(p) => p,
        };
        let pm = context.partial_reload_matches(component);
        let ghost keys = props.keys();
        let ghost s0 = self@;
        let mut m = self;
        m.retain_pending_deferred(props, context);
        let ghost s1 = m@;
        m.retain_live_lists(props, context, pm);
        m.retain_live_scroll(props, context, pm);
        let ghost s3 = m@;
        proof {
            assert forall|g: Seq<char>| #![trigger s3.has_group(g)] s3.has_group(g) <==> (s0.has_group(g) && s0.group(g).filter(
                        pending(keys, s0, context@),
                    ).len() > 0) by {
                assert(s3.has_group(g) == s1.has_group(g));
            }
            assert forall|g: Seq<char>| #![trigger s3.group(g)] s3.has_group(g) ==> s3.group(g) == s0.group(g).filter(
                        pending(keys, s0, context@),
                    ) by {
                assert(s3.has_group(g) == s1.has_group(g));
                assert(s3.group(g) == s1.group(g));
            }
        }
        if pm {
            match context.infinite_scroll_merge_intent() {
                Some(intent) => {
                    if str_eq_ignore_ascii_case(intent, "prepend") {
                        m.apply_scroll_intent(true);
                    } else if str_eq_ignore_ascii_case(intent, "append") {
                        m.apply_scroll_intent(false);
                    }
                },
                None => {},
            }
        }
        proof {
            let lv = live(keys, context@, pm);
            let sk = s0.scroll_keys.filter(lv);
            let mode = intent_mode(context@, pm);
            assert(m@.scroll_keys == sk);
            assert(m@.deep_merge == s0.deep_merge.filter(lv));
            assert(m@.merge == merge_after_intent(s0.merge.filter(lv), targets_of(sk), mode));
            assert(m@.prepend == prepend_after_intent(s0.prepend.filter(lv), targets_of(sk), mode));
            assert(m@.once_keys == s0.once_keys);
            assert(m@.deferred_keys == s3.deferred_keys);
            assert forall|g: Seq<char>| #![trigger m@.has_group(g)] m@.has_group(g) <==> (s0.has_group(g) && s0.group(g).filter(
                        pending(keys, s0, context@),
                    ).len() > 0) by {
                assert(m@.has_group(g) == s3.has_group(g));
            }
            assert forall|g: Seq<char>| #![trigger m@.group(g)] m@.has_group(g) ==> m@.group(g) == s0.group(g).filter(
                        pending(keys, s0, context@),
                    ) by {
                assert(m@.has_group(g) == s3.has_group(g));
                assert(m@.group(g) == s3.group(g));
            }
            assert forall|k: Seq<char>| #![trigger m@.scroll_at(k)] m@.scroll_keys.contains(k) implies m@.scroll_at(k) == s0.scroll_at(k) by {
                assert(m@.scroll_at(k) == s3.scroll_at(k));
            }
            assert(m@ == (PageMetadataView {
                    merge: merge_after_intent(s0.merge.filter(lv), targets_of(sk), mode),
                    prepend: prepend_after_intent(s0.prepend.filter(lv), targets_of(sk), mode),
                    deep_merge: s0.deep_merge.filter(lv),
                    match_on: s0.match_on.filter(lv),
                    scroll_keys: sk,
                    scroll_vals: m@.scroll_vals,
                    deferred_keys: m@.deferred_keys,
                    deferred_vals: m@.deferred_vals,
                    ..s0
                }));
        }
        m
    }
}

/// Registering a merge, prepend, deep-merge, match, always, rescued or
/// shared directive twice is registering it once; the prop is then listed.
pub proof fn law_directive_registration_idempotent(s: Seq<Seq<char>>, x: Seq<char>)
    ensures
        crate::text::push_unique(crate::text::push_unique(s, x), x) == crate::text::push_unique(s, x),
        crate::text::push_unique(s, x).contains(x),
{
    if !s.contains(x) {
        assert(s.push(x)[s.len() as int] == x);
    }
}


/// A prop that a matching partial reload resets, or that the response
/// does not hold, keeps no deep-merge, match or scroll directive.
pub proof fn law_reset_or_absent_props_lose_directives(
    before: PageMetadataView,
    after: PageMetadataView,
    ctx: RequestContextView,
    component: Seq<char>,
    keys: Seq<Seq<char>>,
    prop: Seq<char>,
)
    requires
        narrowed(before, after, ctx, component, keys),
        reset_matches(ctx, ctx.partial_reload_matches(component), prop) || !included(keys, prop),
    ensures
        !after.deep_merge.contains(prop),
        !after.match_on.contains(prop),
        !after.scroll_keys.contains(prop),
{
    let lv = live(keys, ctx, ctx.partial_reload_matches(component));
    crate::lists::lemma_filter_contains(before.deep_merge, lv, prop);
    crate::lists::lemma_filter_contains(before.match_on, lv, prop);
    crate::lists::lemma_filter_contains(before.scroll_keys, lv, prop);
}

/// A deferred group advertised by a response lists only props the response
/// does not hold.
pub proof fn law_included_props_are_not_advertised_as_deferred(
    before: PageMetadataView,
    after: PageMetadataView,
    ctx: RequestContextView,
    component: Seq<char>,
    keys: Seq<Seq<char>>,
    group: Seq<char>,
    prop: Seq<char>,
)
    requires
        narrowed(before, after, ctx, component, keys),
        after.has_group(group),
        included(keys, prop),
    ensures
        !after.group(group).contains(prop),
{
    crate::lists::lemma_filter_contains(before.group(group), pending(keys, before, ctx), prop);
}

} // verus!
