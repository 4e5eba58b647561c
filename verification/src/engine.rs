//! Request preparation and response finalization decisions.
//!
//! The framework adapter performs the I/O (loading and committing transient
//! state, awaiting resolvers, writing headers); the functions here decide
//! what it does.

use crate::json::{errors_key, errors_key_string};
use crate::page::metadata::{PageMetadata, PageMetadataView};
use crate::props::lazy::roots_of;
use crate::props::pending::{
    fresh_once, metadata_applied, mode_of, shared_metadata_applied, PendingProp,
};
use crate::props::policy::PropOptionsView;
use crate::request::context::{RequestContext, RequestContextView};
use crate::request::selection::{selects, EffectiveRequest, SelectionPlan};
use crate::str_map::StrMap;
use crate::text::{prop_root, prop_root_of, push_unique, slice_contains_str, strs, vec_contains_str};
use vstd::prelude::*;

verus! {

broadcast use vstd::string::group_string_axioms;

/// How a pending prop's metadata is recorded.
pub enum StepKind {
    /// A route prop: its own metadata, once metadata unless it is fresh.
    Route,
    /// A shared prop not blocked by a route prop.
    Shared,
    /// A selected fresh once prop: its metadata again, once metadata
    /// included.
    Fresh,
}

/// One metadata-recording step of page assembly.
pub struct PageStep {
    pub key: Seq<char>,
    pub options: PropOptionsView,
    pub kind: StepKind,
}

/// `after` is `before` with step `s` recorded.
pub open spec fn step_applied(before: PageMetadataView, after: PageMetadataView, s: PageStep) -> bool {
    match s.kind {
        StepKind::Route => metadata_applied(before, after, s.key, s.options, !fresh_once(s.options)),
        StepKind::Shared => shared_metadata_applied(before, after, s.key, s.options),
        StepKind::Fresh => metadata_applied(before, after, s.key, s.options, true),
    }
}

/// `chain` steps from `before` to `after` through `steps`.
pub open spec fn step_chain(
    chain: Seq<PageMetadataView>,
    before: PageMetadataView,
    after: PageMetadataView,
    steps: Seq<PageStep>,
) -> bool {
    &&& chain.len() == steps.len() + 1
    &&& chain[0] == before
    &&& chain[steps.len() as int] == after
    &&& forall|i: int| 0 <= i < steps.len() ==> step_applied(#[trigger] chain[i], chain[i + 1], steps[i])
}

/// `after` is `before` with every step of `steps` recorded, in order.
pub open spec fn steps_applied(before: PageMetadataView, after: PageMetadataView, steps: Seq<PageStep>) -> bool {
    exists|chain: Seq<PageMetadataView>| step_chain(chain, before, after, steps)
}

/// The step recording prop `p` as `kind`.
pub open spec fn step_of<R>(p: PendingProp<R>, kind: StepKind) -> PageStep {
    PageStep { key: p.key_view(), options: p.options_view(), kind }
}

/// The steps recording each prop of `props` as `kind`.
pub open spec fn steps_of<R>(props: Seq<PendingProp<R>>, kind: StepKind) -> Seq<PageStep> {
    props.map_values(|p: PendingProp<R>| step_of(p, kind))
}

/// The keys of `props`.
pub open spec fn keys_of<R>(props: Seq<PendingProp<R>>) -> Seq<Seq<char>> {
    props.map_values(|p: PendingProp<R>| p.key_view())
}

/// Shared props whose top-level key no route prop owns.
pub open spec fn unblocked<R>(roots: Seq<Seq<char>>) -> spec_fn(PendingProp<R>) -> bool {
    |p: PendingProp<R>| !roots.contains(prop_root(p.key_view()))
}

/// Each prop of `props` paired with `shared`.
pub open spec fn marked<R>(props: Seq<PendingProp<R>>, shared: bool) -> Seq<(PendingProp<R>, bool)> {
    props.map_values(|p: PendingProp<R>| (p, shared))
}

/// Route props marked `false`, then the unblocked shared props marked
/// `true`.
pub open spec fn candidates_of<R>(props: Seq<PendingProp<R>>, kept: Seq<PendingProp<R>>) -> Seq<(PendingProp<R>, bool)> {
    marked(props, false) + marked(kept, true)
}

/// Candidates the request selects under metadata `m`.
pub open spec fn chosen<R>(ctx: RequestContextView, pm: bool, m: PageMetadataView) -> spec_fn(
    (PendingProp<R>, bool),
) -> bool {
    |c: (PendingProp<R>, bool)| selects(ctx, pm, m, c.0.key_view(), mode_of(c.0.options_view().load))
}

/// Selected candidates whose once policy forces a refresh.
pub open spec fn fresh_candidate<R>() -> spec_fn((PendingProp<R>, bool)) -> bool {
    |c: (PendingProp<R>, bool)| fresh_once(c.0.options_view())
}

/// The steps re-recording fresh once props among `selected`.
pub open spec fn fresh_steps<R>(selected: Seq<(PendingProp<R>, bool)>) -> Seq<PageStep> {
    selected.filter(fresh_candidate()).map_values(|c: (PendingProp<R>, bool)| step_of(c.0, StepKind::Fresh))
}

/// The props of an optional list.
pub open spec fn opt_props<R>(o: Option<Vec<PendingProp<R>>>) -> Seq<PendingProp<R>> {
    match o {
        Some(v) => v@,
        None => Seq::empty(),
    }
}

/// Metadata carrying only the page-level history and fragment flags.
pub open spec fn flagged(encrypt: bool, clear: bool, preserve: bool) -> PageMetadataView {
    PageMetadataView {
        encrypt_history: encrypt,
        clear_history: clear,
        preserve_fragment: preserve,
        ..PageMetadataView::empty()
    }
}

proof fn lemma_steps_push<R>(props: Seq<PendingProp<R>>, kind: StepKind, i: int)
    requires
        0 <= i < props.len(),
    ensures
        steps_of(props.take(i + 1), kind) == steps_of(props.take(i), kind).push(step_of(props[i], kind)),
        keys_of(props.take(i + 1)) == keys_of(props.take(i)).push(props[i].key_view()),
{
    assert(steps_of(props.take(i + 1), kind) =~= steps_of(props.take(i), kind).push(step_of(props[i], kind)));
    assert(keys_of(props.take(i + 1)) =~= keys_of(props.take(i)).push(props[i].key_view()));
}

proof fn lemma_roots_push(keys: Seq<Seq<char>>, k: Seq<char>)
    ensures
        roots_of(keys.push(k)) == push_unique(roots_of(keys), prop_root(k)),
{
    assert(keys.push(k).drop_last() =~= keys);
}

proof fn lemma_chain_push(
    chain: Seq<PageMetadataView>,
    before: PageMetadataView,
    mid: PageMetadataView,
    after: PageMetadataView,
    steps: Seq<PageStep>,
    s: PageStep,
)
    requires
        step_chain(chain, before, mid, steps),
        step_applied(mid, after, s),
    ensures
        step_chain(chain.push(after), before, after, steps.push(s)),
{
    let c2 = chain.push(after);
    let s2 = steps.push(s);
    assert forall|i: int| 0 <= i < s2.len() implies step_applied(#[trigger] c2[i], c2[i + 1], s2[i]) by {
        if i < steps.len() {
            assert(c2[i] == chain[i] && c2[i + 1] == chain[i + 1] && s2[i] == steps[i]);
        }
    }
}

/// Moves the first element out of a vector.
pub fn take_first_of<T>(v: &mut Vec<T>) -> (r: T)
    requires
        old(v)@.len() > 0,
    ensures
        r == old(v)@[0],
        final(v)@ == old(v)@.drop_first(),
{
    v.remove(0)
}

/// Moves the first element out of a vector.
fn take_first<T>(v: &mut Vec<T>) -> (r: T)
    requires
        old(v)@.len() > 0,
    ensures
        r == old(v)@[0],
        final(v)@ == old(v)@.drop_first(),
{
    v.remove(0)
}

proof fn lemma_steps_concat(
    a: PageMetadataView,
    b: PageMetadataView,
    c: PageMetadataView,
    s1: Seq<PageStep>,
    s2: Seq<PageStep>,
)
    requires
        steps_applied(a, b, s1),
        steps_applied(b, c, s2),
    ensures
        steps_applied(a, c, s1 + s2),
{
    let c1 = choose|ch: Seq<PageMetadataView>| step_chain(ch, a, b, s1);
    let c2 = choose|ch: Seq<PageMetadataView>| step_chain(ch, b, c, s2);
    let ch = c1 + c2.drop_first();
    let s = s1 + s2;
    assert forall|i: int| 0 <= i < s.len() implies step_applied(#[trigger] ch[i], ch[i + 1], s[i]) by {
        if i < s1.len() {
            assert(ch[i] == c1[i] && ch[i + 1] == c1[i + 1] && s[i] == s1[i]);
        } else {
            let j = i - s1.len();
            assert(ch[i] == c2[j] && ch[i + 1] == c2[j + 1] && s[i] == s2[j]);
        }
    }
    assert(step_chain(ch, a, c, s));
}

/// Records each route prop's metadata, once metadata unless it is a fresh
/// once prop, and returns their distinct top-level keys.
fn record_route_props<R>(props: &Vec<PendingProp<R>>, m: &mut PageMetadata) -> (roots: Vec<String>)
    ensures
        strs(roots@) == roots_of(keys_of(props@)),
        steps_applied(old(m)@, final(m)@, steps_of(props@, StepKind::Route)),
{
    let ghost start = m@;
    let ghost orig = props@;
    let n = props.len();
    let mut roots: Vec<String> = Vec::new();
    let ghost mut chain: Seq<PageMetadataView> = seq![m@];
    assert(steps_of(orig.take(0), StepKind::Route) =~= Seq::<PageStep>::empty());
    assert(keys_of(orig.take(0)) =~= Seq::<Seq<char>>::empty());
    let mut i: usize = 0;
    while i < n
        invariant
            n == orig.len(),
            orig == props@,
            0 <= i <= n,
            strs(roots@) == roots_of(keys_of(orig.take(i as int))),
            step_chain(chain, start, m@, steps_of(orig.take(i as int), StepKind::Route)),
        decreases n - i,
    {
        let p = &props[i];
        proof {
            lemma_steps_push(orig, StepKind::Route, i as int);
            lemma_roots_push(keys_of(orig.take(i as int)), p.key_view());
        }
        push_unique_string_root(&mut roots, p.key());
        let ghost before = m@;
        let fresh = p.is_fresh_once();
        p.apply_metadata(m, !fresh);
        proof {
            lemma_chain_push(chain, start, before, m@, steps_of(orig.take(i as int), StepKind::Route), step_of(*p, StepKind::Route));
            chain = chain.push(m@);
        }
        i = i + 1;
    }
    assert(orig.take(n as int) =~= orig);
    roots
}

/// Moves the route props into the candidate list, marked `false`.
fn route_candidates<R>(props: Vec<PendingProp<R>>) -> (c: Vec<(PendingProp<R>, bool)>)
    ensures
        c@ == marked(props@, false),
{
    let ghost orig = props@;
    let n = props.len();
    let mut candidates: Vec<(PendingProp<R>, bool)> = Vec::new();
    let mut props = props;
    let mut j: usize = 0;
    while j < n
        invariant
            n == orig.len(),
            0 <= j <= n,
            props@ == orig.skip(j as int),
            candidates@ == marked(orig.take(j as int), false),
        decreases n - j,
    {
        let p = take_first(&mut props);
        assert(p == orig[j as int]);
        candidates.push((p, false));
assert(marked(orig.take(j + 1), false) =~= marked(orig.take(j as int), false).push((orig[j as int], false)));
        assert(orig.skip(j as int).drop_first() =~= orig.skip(j + 1));
        j = j + 1;
    }
    assert(orig.take(n as int) =~= orig);
    candidates
}

/// Appends the shared props whose top-level key is not among `roots` to
/// the candidates, marked `true`, recording their shared metadata.
fn add_shared_candidates<R>(
    candidates: &mut Vec<(PendingProp<R>, bool)>,
    shared: Vec<PendingProp<R>>,
    roots: &Vec<String>,
    m: &mut PageMetadata,
)
    ensures
        ({
            let kept = shared@.filter(unblocked(strs(roots@)));
            &&& final(candidates)@ == old(candidates)@ + marked(kept, true)
            &&& steps_applied(old(m)@, final(m)@, steps_of(kept, StepKind::Shared))
        }),
{
    let ghost start = m@;
    let ghost cands0 = candidates@;
    let ghost rv = strs(roots@);
    let ghost shared_orig = shared@;
    let mut shared_list = shared;
    let sn = shared_list.len();
    let ghost mut kept: Seq<PendingProp<R>> = Seq::empty();
    let ghost mut chain: Seq<PageMetadataView> = seq![m@];
    assert(shared_orig.take(0).filter(unblocked(rv)) =~= Seq::<PendingProp<R>>::empty()) by {
        reveal(Seq::filter);
    }
assert(cands0 + marked(kept, true) =~= cands0);
    assert(steps_of(kept, StepKind::Shared) =~= Seq::<PageStep>::empty());
    let mut k: usize = 0;
    while k < sn
        invariant
            sn == shared_orig.len(),
            0 <= k <= sn,
            shared_list@ == shared_orig.skip(k as int),
            rv == strs(roots@),
            kept == shared_orig.take(k as int).filter(unblocked(rv)),
            candidates@ == cands0 + marked(kept, true),
            step_chain(chain, start, m@, steps_of(kept, StepKind::Shared)),
        decreases sn - k,
    {
        let p = take_first(&mut shared_list);
        assert(p == shared_orig[k as int]);
        assert(shared_orig.take(k + 1) =~= shared_orig.take(k as int).push(p));
        proof {
            crate::lists::lemma_filter_push(shared_orig.take(k as int), unblocked::<R>(rv), p);
        }
        let root = prop_root_of(p.key());
        let blocked = vec_contains_str(roots, root.as_str());
        if !blocked {
            let ghost before = m@;
            p.apply_shared_metadata(m);
            proof {
                let steps = steps_of(kept, StepKind::Shared);
                lemma_chain_push(chain, start, before, m@, steps, step_of(p, StepKind::Shared));
                chain = chain.push(m@);
                assert(steps_of(kept.push(p), StepKind::Shared) =~= steps.push(step_of(p, StepKind::Shared)));
assert(cands0 + marked(kept.push(p), true) =~= (cands0 + marked(kept, true)).push((p, true)));
                kept = kept.push(p);
            }
            candidates.push((p, true));
        }
        assert(shared_orig.skip(k as int).drop_first() =~= shared_orig.skip(k + 1));
        k = k + 1;
    }
    assert(shared_orig.take(sn as int) =~= shared_orig);
}

/// Keeps the candidates the plan selects, in order.
fn select_candidates<R>(candidates: Vec<(PendingProp<R>, bool)>, plan: &SelectionPlan) -> (selected: Vec<
    (PendingProp<R>, bool),
>)
    ensures
        selected@ == candidates@.filter(chosen(plan.context_view(), plan.partial_matches(), plan.metadata_view())),
{
    let ghost all = candidates@;
    let ghost f = chosen::<R>(plan.context_view(), plan.partial_matches(), plan.metadata_view());
    let cn = candidates.len();
    let mut candidates = candidates;
    let mut selected: Vec<(PendingProp<R>, bool)> = Vec::new();
    assert(all.take(0).filter(f) =~= Seq::<(PendingProp<R>, bool)>::empty()) by {
        reveal(Seq::filter);
    }
    let mut c: usize = 0;
    while c < cn
        invariant
            cn == all.len(),
            0 <= c <= cn,
            candidates@ == all.skip(c as int),
            f == chosen::<R>(plan.context_view(), plan.partial_matches(), plan.metadata_view()),
            selected@ == all.take(c as int).filter(f),
        decreases cn - c,
    {
        let cand = take_first(&mut candidates);
        assert(cand == all[c as int]);
        assert(all.take(c + 1) =~= all.take(c as int).push(cand));
        proof {
            crate::lists::lemma_filter_push(all.take(c as int), f, cand);
        }
        let mode = cand.0.mode();
        if plan.includes(cand.0.key(), mode) {
            selected.push(cand);
        }
        assert(all.skip(c as int).drop_first() =~= all.skip(c + 1));
        c = c + 1;
    }
    assert(all.take(cn as int) =~= all);
    selected
}

/// Records once metadata again for the selected fresh once props.
fn record_fresh<R>(selected: &Vec<(PendingProp<R>, bool)>, m: &mut PageMetadata)
    ensures
        steps_applied(old(m)@, final(m)@, fresh_steps(selected@)),
{
    let ghost sel = selected@;
    let ghost start = m@;
    let ghost mut chain: Seq<PageMetadataView> = seq![m@];
    let ghost mut fsteps: Seq<PageStep> = Seq::empty();
    assert(sel.take(0).filter(fresh_candidate()) =~= Seq::<(PendingProp<R>, bool)>::empty()) by {
        reveal(Seq::filter);
    }
    assert(fsteps =~= sel.take(0).filter(fresh_candidate()).map_values(
        |c: (PendingProp<R>, bool)| step_of(c.0, StepKind::Fresh),
    ));
    let sl = selected.len();
    let mut f: usize = 0;
    while f < sl
        invariant
            sl == sel.len(),
            selected@ == sel,
            0 <= f <= sl,
            fsteps == sel.take(f as int).filter(fresh_candidate()).map_values(
                |c: (PendingProp<R>, bool)| step_of(c.0, StepKind::Fresh),
            ),
            step_chain(chain, start, m@, fsteps),
        decreases sl - f,
    {
        let cand = &selected[f];
        assert(sel.take(f + 1) =~= sel.take(f as int).push(*cand));
        proof {
            crate::lists::lemma_filter_push(sel.take(f as int), fresh_candidate::<R>(), *cand);
        }
        if cand.0.is_fresh_once() {
            let ghost before = m@;
            cand.0.apply_metadata(m, true);
            proof {
                lemma_chain_push(chain, start, before, m@, fsteps, step_of(cand.0, StepKind::Fresh));
                chain = chain.push(m@);
                let ff = sel.take(f as int).filter(fresh_candidate());
                assert(ff.push(*cand).map_values(|c: (PendingProp<R>, bool)| step_of(c.0, StepKind::Fresh))
                    =~= fsteps.push(step_of(cand.0, StepKind::Fresh)));
                fsteps = fsteps.push(step_of(cand.0, StepKind::Fresh));
            }
        }
        f = f + 1;
    }
    assert(sel.take(sl as int) =~= sel);
}

/// What [`plan_page`] gives: the route props' distinct top-level keys; the
/// metadata the route props and the unblocked shared props record, then
/// the selected fresh once props; and the candidates the request selects
/// under that metadata.  A partial reload filters only when
/// `partial_enabled`.
pub open spec fn page_planned<R>(
    component: Seq<char>,
    encrypt_history: bool,
    clear_history: bool,
    preserve_fragment: bool,
    props: Seq<PendingProp<R>>,
    shared: Seq<PendingProp<R>>,
    context: RequestContextView,
    partial_enabled: bool,
    r: (PageMetadata, Vec<(PendingProp<R>, bool)>, Vec<String>),
) -> bool {
    let roots = roots_of(keys_of(props));
    let kept = shared.filter(unblocked(roots));
    let pm = partial_enabled && context.partial_reload_matches(component);
    &&& strs(r.2@) == roots
    &&& exists|mid: PageMetadataView|
        #![trigger steps_applied(mid, r.0@, fresh_steps(r.1@))]
        {
            &&& steps_applied(
                flagged(encrypt_history, clear_history, preserve_fragment),
                mid,
                steps_of(props, StepKind::Route) + steps_of(kept, StepKind::Shared),
            )
            &&& r.1@ == candidates_of(props, kept).filter(chosen(context, pm, mid))
            &&& steps_applied(mid, r.0@, fresh_steps(r.1@))
        }
}

/// Plans a visit's page (see [`plan_page`]): a partial reload filters the
/// props of GET visits only; any other visit keeps all its props.
pub fn plan_visit_page<R>(
    visit: &crate::visit::Visit,
    component: &str,
    encrypt_history: bool,
    clear_history: bool,
    preserve_fragment: bool,
    props: Vec<PendingProp<R>>,
    shared: Option<Vec<PendingProp<R>>>,
) -> (r: (PageMetadata, Vec<(PendingProp<R>, bool)>, Vec<String>))
    ensures
        page_planned(
            component@,
            encrypt_history,
            clear_history,
            preserve_fragment,
            props@,
            opt_props(shared),
            visit@.context,
            crate::page::render::is_get(visit@.method),
            r,
        ),
{
    let enabled = crate::page::render::partial_reload_enabled(visit.method());
    plan_page(component, encrypt_history, clear_history, preserve_fragment, props, shared, visit.context(), enabled)
}

/// Assembles the metadata and the prop selection of a page before its
/// props are resolved.
///
/// Starting from metadata with only the page's history and fragment flags,
/// records each route prop's metadata (once metadata unless it is a fresh
/// once prop), then each shared prop whose top-level key no route prop owns
/// (see `PendingProp::apply_shared_metadata`).  The request then selects
/// among the route props (marked `false`) and those shared props (marked
/// `true`), in that order, under that metadata; finally the selected fresh
/// once props record their once metadata.  Also returns the route props'
/// distinct top-level keys.
pub fn plan_page<R>(
    component: &str,
    encrypt_history: bool,
    clear_history: bool,
    preserve_fragment: bool,
    props: Vec<PendingProp<R>>,
    shared: Option<Vec<PendingProp<R>>>,
    context: &RequestContext,
    partial_enabled: bool,
) -> (r: (PageMetadata, Vec<(PendingProp<R>, bool)>, Vec<String>))
    ensures
        page_planned(
            component@,
            encrypt_history,
            clear_history,
            preserve_fragment,
            props@,
            opt_props(shared),
            context@,
            partial_enabled,
            r,
        ),
{
    let ghost props0 = props@;
    let ghost shared0 = opt_props(shared);
    let mut m = flagged_metadata(encrypt_history, clear_history, preserve_fragment);
    let ghost start = m@;
    let roots = record_route_props(&props, &mut m);
    let ghost m1 = m@;
    let mut candidates = route_candidates(props);
    let shared_list = match shared {
        Some(s) => s,
        None => Vec::new(),
    };
    assert(shared_list@ == opt_props(shared));
    add_shared_candidates(&mut candidates, shared_list, &roots, &mut m);
    let ghost mid = m@;
    proof {
        let roots_v = roots_of(keys_of(props0));
        let kept = shared0.filter(unblocked(roots_v));
        lemma_steps_concat(start, m1, mid, steps_of(props0, StepKind::Route), steps_of(kept, StepKind::Shared));
    }
    let selected = {
        let plan = SelectionPlan::new(EffectiveRequest::new(context, partial_enabled), component, &m);
        select_candidates(candidates, &plan)
    };
    record_fresh(&selected, &mut m);
    proof {
        let roots_v = roots_of(keys_of(props0));
        let kept = shared0.filter(unblocked(roots_v));
        let pm = partial_enabled && context@.partial_reload_matches(component@);
        assert(candidates_of(props0, kept) == marked(props0, false) + marked(kept, true));
        assert(selected@ == candidates_of(props0, kept).filter(chosen(context@, pm, mid)));
        assert(steps_applied(flagged(encrypt_history, clear_history, preserve_fragment), mid,
            steps_of(props0, StepKind::Route) + steps_of(kept, StepKind::Shared)));
        assert(steps_applied(mid, m@, fresh_steps(selected@)));
        assert(strs(roots@) == roots_v);
        assert(exists|x: PageMetadataView|
            #![trigger steps_applied(x, m@, fresh_steps(selected@))]
            {
                &&& steps_applied(
                    flagged(encrypt_history, clear_history, preserve_fragment),
                    x,
                    steps_of(props0, StepKind::Route) + steps_of(kept, StepKind::Shared),
                )
                &&& selected@ == candidates_of(props0, kept).filter(chosen(context@, pm, x))
                &&& steps_applied(x, m@, fresh_steps(selected@))
            });
    }
    let r = (m, selected, roots);
    proof {
        let roots_v = roots_of(keys_of(props0));
        let kept = shared0.filter(unblocked(roots_v));
        let pm = partial_enabled && context@.partial_reload_matches(component@);
        assert(steps_applied(mid, r.0@, fresh_steps(r.1@)));
        assert(r.1@ == candidates_of(props0, kept).filter(chosen(context@, pm, mid)));
        assert(props0 == props@);
        assert(shared0 == opt_props(shared));
    }
    r
}

/// Empty metadata with the page's history and fragment flags.
fn flagged_metadata(encrypt_history: bool, clear_history: bool, preserve_fragment: bool) -> (m: PageMetadata)
    ensures
        m@ == flagged(encrypt_history, clear_history, preserve_fragment),
{
    let mut m = PageMetadata::new();
    if encrypt_history {
        m = m.encrypt_history();
    }
    if clear_history {
        m = m.clear_history();
    }
    if preserve_fragment {
        m = m.preserve_fragment();
    }
    m
}

/// Appends the top-level key of `key` to `roots` unless it is there.
fn push_unique_string_root(roots: &mut Vec<String>, key: &str)
    ensures
        strs(final(roots)@) == push_unique(strs(old(roots)@), prop_root(key@)),
{
    crate::text::push_unique_string(roots, prop_root_of(key));
}

/// What [`collect_resolved`] gives for the resolutions `rs` under
/// `metadata`: the first unrescued failure; or the route values (the last
/// one for each key), the shared values in order, the metadata with the
/// rescued keys added, and the rescued failures in order.
pub open spec fn resolved_collected<E>(
    rs: Seq<Resolved<E>>,
    metadata: PageMetadataView,
    r: Result<(StrMap<serde_json::Value>, Vec<(String, serde_json::Value)>, PageMetadata, Vec<(String, E)>), E>,
) -> bool {
    match r {
        Err(e) => exists|i: int|
            0 <= i < rs.len() && fatal(#[trigger] rs[i]) && rs[i].1 == Err::<serde_json::Value, E>(e)
                && forall|j: int| 0 <= j < i ==> !fatal(#[trigger] rs[j]),
        Ok((values, shared, md, rescued)) => {
            &&& forall|i: int| 0 <= i < rs.len() ==> !fatal(#[trigger] rs[i])
            &&& forall|k: Seq<char>|
                #[trigger] values.has(k) <==> exists|i: int|
                    0 <= i < rs.len() && ok_route(#[trigger] rs[i]) && rs[i].0@ == k
            &&& forall|k: Seq<char>|
                #[trigger] values.has(k) ==> exists|i: int|
                    0 <= i < rs.len() && ok_route(#[trigger] rs[i]) && rs[i].0@ == k && rs[i].1
                        == Ok::<serde_json::Value, E>(values.at(k)) && forall|j: int|
                        i < j < rs.len() ==> !(ok_route(#[trigger] rs[j]) && rs[j].0@ == k)
            &&& pair_views(shared@) == rs.filter(|x: Resolved<E>| ok_shared(x)).map_values(
                |x: Resolved<E>| key_value(x),
            )
            &&& pair_views(rescued@) == rs.filter(|x: Resolved<E>| rescued_failure(x)).map_values(
                |x: Resolved<E>| key_error(x),
            )
            &&& md@ == (PageMetadataView {
                rescued: crate::props::pending::push_all_unique(
                    metadata.rescued,
                    resolved_keys(rs.filter(|x: Resolved<E>| rescued_failure(x))),
                ),
                ..metadata
            })
        },
    }
}

/// One resolved prop: key, resolution, whether failures are rescued, and
/// whether it is a shared prop.
pub type Resolved<E> = (String, Result<serde_json::Value, E>, bool, bool);

/// A route prop that resolved.
pub open spec fn ok_route<E>(x: Resolved<E>) -> bool {
    x.1 is Ok && !x.3
}

/// A shared prop that resolved.
pub open spec fn ok_shared<E>(x: Resolved<E>) -> bool {
    x.1 is Ok && x.3
}

/// A failure that is rescued.
pub open spec fn rescued_failure<E>(x: Resolved<E>) -> bool {
    x.1 is Err && x.2
}

/// A failure that fails the page.
pub open spec fn fatal<E>(x: Resolved<E>) -> bool {
    x.1 is Err && !x.2
}

/// The key and value of a resolved prop.
pub open spec fn key_value<E>(x: Resolved<E>) -> (Seq<char>, serde_json::Value) {
    (x.0@, x.1->Ok_0)
}

/// The key and error of a failed prop.
pub open spec fn key_error<E>(x: Resolved<E>) -> (Seq<char>, E) {
    (x.0@, x.1->Err_0)
}

/// The views of key/value pairs.
pub open spec fn pair_views<T>(v: Seq<(String, T)>) -> Seq<(Seq<char>, T)> {
    v.map_values(|p: (String, T)| (p.0@, p.1))
}

/// The keys of resolved props.
pub open spec fn resolved_keys<E>(v: Seq<Resolved<E>>) -> Seq<Seq<char>> {
    v.map_values(|x: Resolved<E>| x.0@)
}

/// Sorts resolved props into the page: route values into the prop object
/// (a later value replacing an earlier one under the same key), shared
/// values into a list, in order, and rescued failures into a list whose keys
/// are added to the rescued-props metadata.  The first unrescued failure
/// fails the page.
pub fn collect_resolved<E>(results: Vec<Resolved<E>>, metadata: PageMetadata) -> (r: Result<
    (StrMap<serde_json::Value>, Vec<(String, serde_json::Value)>, PageMetadata, Vec<(String, E)>),
    E,
>)
    ensures
        resolved_collected(results@, metadata@, r),
{
    let ghost rs = results@;
    let ghost fs = |x: Resolved<E>| ok_shared(x);
    let ghost fr = |x: Resolved<E>| rescued_failure(x);
    let n = results.len();
    let mut work = results;
    let mut values: StrMap<serde_json::Value> = StrMap::new();
    let mut shared: Vec<(String, serde_json::Value)> = Vec::new();
    let mut rescued: Vec<(String, E)> = Vec::new();
    let mut m = metadata;
    proof {
        reveal(Seq::filter);
        assert(rs.take(0).filter(fs) =~= Seq::<Resolved<E>>::empty());
        assert(rs.take(0).filter(fr) =~= Seq::<Resolved<E>>::empty());
        assert(pair_views(shared@) =~= Seq::<(Seq<char>, serde_json::Value)>::empty());
        assert(pair_views(rescued@) =~= Seq::<(Seq<char>, E)>::empty());
    }
    let mut i: usize = 0;
    while i < n
        invariant
            rs == results@,
            n == rs.len(),
            0 <= i <= n,
            work@ == rs.skip(i as int),
            fs == (|x: Resolved<E>| ok_shared(x)),
            fr == (|x: Resolved<E>| rescued_failure(x)),
            forall|j: int| 0 <= j < i ==> !fatal(#[trigger] rs[j]),
            forall|k: Seq<char>|
                #[trigger] values.has(k) <==> exists|j: int| 0 <= j < i && ok_route(#[trigger] rs[j]) && rs[j].0@ == k,
            forall|k: Seq<char>|
                #[trigger] values.has(k) ==> exists|j: int|
                    0 <= j < i && ok_route(#[trigger] rs[j]) && rs[j].0@ == k && rs[j].1 == Ok::<
                        serde_json::Value,
                        E,
                    >(values.at(k)) && forall|l: int| j < l < i ==> !(ok_route(#[trigger] rs[l]) && rs[l].0@ == k),
            pair_views(shared@) == rs.take(i as int).filter(fs).map_values(|x: Resolved<E>| key_value(x)),
            pair_views(rescued@) == rs.take(i as int).filter(fr).map_values(|x: Resolved<E>| key_error(x)),
            m@ == (PageMetadataView {
                rescued: crate::props::pending::push_all_unique(
                    metadata@.rescued,
                    resolved_keys(rs.take(i as int).filter(fr)),
                ),
                ..metadata@
            }),
        decreases n - i,
    {
        let x = take_first(&mut work);
        assert(x == rs[i as int]);
        assert(rs.take(i + 1) =~= rs.take(i as int).push(x));
        assert(rs.skip(i as int).drop_first() =~= rs.skip(i + 1));
        proof {
            crate::lists::lemma_filter_push(rs.take(i as int), fs, x);
            crate::lists::lemma_filter_push(rs.take(i as int), fr, x);
        }
        let ghost sh0 = shared@;
        let ghost rc0 = rescued@;
        let ghost vals0 = values;
        let ghost m0 = m@;
        let (key, result, rescue, is_shared) = x;
        match result {
            Ok(value) => {
                if is_shared {
                    shared.push((key, value));
                    proof {
                        let f0 = rs.take(i as int).filter(fs);
                        assert(pair_views(shared@) =~= pair_views(sh0).push(key_value(x)));
                        assert(f0.push(x).map_values(|x: Resolved<E>| key_value(x)) =~= f0.map_values(|x: Resolved<E>| key_value(x)).push(key_value(x)));
                    }
                } else {
                    let ghost kv = key@;
                    values.insert(key, value);
                    proof {
                        assert forall|k: Seq<char>| #[trigger] values.has(k) implies exists|j: int|
                            0 <= j < i + 1 && ok_route(#[trigger] rs[j]) && rs[j].0@ == k && rs[j].1 == Ok::<
                                serde_json::Value,
                                E,
                            >(values.at(k)) && forall|l: int| j < l < i + 1 ==> !(ok_route(#[trigger] rs[l]) && rs[l].0@ == k) by {
                            if k != kv {
                                assert(vals0.has(k));
                                let j = choose|j: int|
                                    0 <= j < i && ok_route(#[trigger] rs[j]) && rs[j].0@ == k && rs[j].1 == Ok::<
                                        serde_json::Value,
                                        E,
                                    >(vals0.at(k)) && forall|l: int| j < l < i ==> !(ok_route(#[trigger] rs[l]) && rs[l].0@ == k);
                                assert forall|l: int| j < l < i + 1 implies !(ok_route(#[trigger] rs[l]) && rs[l].0@ == k) by {
                                    if l == i {
                                        assert(rs[l].0@ == kv);
                                    }
                                }
                            } else {
                                assert(ok_route(rs[i as int]) && rs[i as int].0@ == k);
                            }
                        }
                        assert forall|k: Seq<char>| (exists|j: int| 0 <= j < i + 1 && ok_route(#[trigger] rs[j]) && rs[j].0@ == k) implies #[trigger] values.has(k) by {
                            if k != kv {
                                let j = choose|j: int| 0 <= j < i + 1 && ok_route(#[trigger] rs[j]) && rs[j].0@ == k;
                                assert(j < i);
                            }
                        }
                    }
                }
            },
            Err(error) => {
                if rescue {
                    let mm = m.rescue(key.as_str());
                    m = mm;
                    rescued.push((key, error));
                    proof {
                        let f0 = rs.take(i as int).filter(fr);
                        assert(pair_views(rescued@) =~= pair_views(rc0).push(key_error(x)));
                        assert(f0.push(x).map_values(|x: Resolved<E>| key_error(x)) =~= f0.map_values(|x: Resolved<E>| key_error(x)).push(key_error(x)));
                        assert(resolved_keys(f0.push(x)) =~= resolved_keys(f0).push(x.0@));
                        assert(resolved_keys(f0.push(x)).drop_last() =~= resolved_keys(f0));
                    }
                } else {
                    assert(fatal(rs[i as int]));
                    assert(rs[i as int].1 == Err::<serde_json::Value, E>(error));
                    return Err(error);
                }
            },
        }
        proof {
            assert forall|k: Seq<char>| (exists|j: int| 0 <= j < i + 1 && ok_route(#[trigger] rs[j]) && rs[j].0@ == k) implies #[trigger] values.has(k) by {
                let j = choose|j: int| 0 <= j < i + 1 && ok_route(#[trigger] rs[j]) && rs[j].0@ == k;
                if j == i {
                    assert(ok_route(rs[i as int]));
                }
            }
        }
        i = i + 1;
    }
    assert(rs.take(n as int) =~= rs);
    Ok((values, shared, m, rescued))
}

/// What a handler's pending response is, as far as transient state goes.
#[derive(Clone, Copy, Debug)]
pub enum PendingKind {
    /// A page, with or without flash data.
    Page { has_flash: bool },
    /// An internal redirect, with or without flash data.
    Redirect { has_flash: bool },
    /// An external location visit.
    Location,
    /// A failed form validation.
    InvalidForm,
}

/// Whether finalizing the response loads transient state (when a store is
/// configured): every response but an external location visit.
pub fn uses_transient(kind: PendingKind) -> (b: bool)
    ensures
        b == !(kind is Location),
{
    match kind {
        PendingKind::Location => false,
        _ => true,
    }
}

/// Whether the response cannot be finalized without a transient store:
/// pages and redirects that carry flash data, and failed validations.
pub fn requires_transient(kind: PendingKind) -> (b: bool)
    ensures
        b == match kind {
            PendingKind::Page { has_flash } => has_flash,
            PendingKind::Redirect { has_flash } => has_flash,
            PendingKind::Location => false,
            PendingKind::InvalidForm => true,
        },
{
    match kind {
        PendingKind::Page { has_flash } => has_flash,
        PendingKind::Redirect { has_flash } => has_flash,
        PendingKind::Location => false,
        PendingKind::InvalidForm => true,
    }
}

/// Which header carries the target of a 409 Conflict response.
#[derive(Clone, Copy, Debug, PartialEq, Eq, Structural)]
pub enum ConflictHeader {
    /// `X-Inertia-Location`: a full page visit to the URL.
    Location,
    /// `X-Inertia-Redirect`: a redirect that keeps the URL's fragment.
    Redirect,
}

/// The conflict header for a target URL: `X-Inertia-Redirect` when the URL
/// has a fragment, `X-Inertia-Location` otherwise.
pub fn conflict_header(has_fragment: bool) -> (h: ConflictHeader)
    ensures
        h == (if has_fragment { ConflictHeader::Redirect } else { ConflictHeader::Location }),
{
    if has_fragment {
        ConflictHeader::Redirect
    } else {
        ConflictHeader::Location
    }
}

/// The status of the response to an external location visit: 409 Conflict
/// for an Inertia visit (the client then navigates itself), else a
/// method-aware redirect.
pub fn location_status(is_inertia: bool, method: crate::visit::Method) -> (s: u16)
    ensures
        s == (if is_inertia { 409 } else { crate::visit::redirect_status_of(method) }),
{
    if is_inertia {
        409
    } else {
        crate::visit::redirect_status(method)
    }
}

/// Whether a visit holds a stale asset version: an Inertia GET visit whose
/// version is not the configured one.
pub open spec fn stale_version(
    method: crate::visit::Method,
    is_inertia: bool,
    configured: Option<Seq<char>>,
    requested: Option<Seq<char>>,
) -> bool {
    method == crate::visit::Method::Get && is_inertia && match configured {
        Some(v) => requested != Some(v),
        None => false,
    }
}

/// Whether an Inertia GET visit holds an asset version other than the
/// configured one, so that the client must reload.
pub fn version_mismatch(
    method: crate::visit::Method,
    is_inertia: bool,
    configured: Option<&str>,
    requested: Option<&str>,
) -> (b: bool)
    ensures
        b == stale_version(
            method,
            is_inertia,
            match configured {
                Some(v) => Some(v@),
                None => None,
            },
            match requested {
                Some(q) => Some(q@),
                None => None,
            },
        ),
{
    if method != crate::visit::Method::Get || !is_inertia {
        return false;
    }
    match configured {
        None => false,
        Some(v) => match requested {
            Some(q) => !crate::text::str_eq(q, v),
            None => true,
        },
    }
}

/// `"X-Inertia"`.
pub open spec fn x_inertia() -> Seq<char> {
    seq!['X', '-', 'I', 'n', 'e', 'r', 't', 'i', 'a']
}

/// Whether some `Vary` header value lists `X-Inertia` (in any letter case)
/// among its comma-separated tokens.  Values that are not valid strings are
/// `None` and list nothing.
pub open spec fn varies_on_inertia(values: Seq<Option<String>>) -> bool {
    exists|i: int, j: int|
        0 <= i < values.len() && values[i] is Some && 0 <= j < crate::text::comma_tokens(values[i]->0@).len()
            && crate::lists::eq_ignore_ascii_case(
            #[trigger] crate::text::comma_tokens(values[i]->0@)[j],
            x_inertia(),
        )
}

/// Whether a response's `Vary` header values already list `X-Inertia`; when
/// they do not, the response gets `Vary: X-Inertia` appended.
pub fn has_inertia_vary(values: &[Option<String>]) -> (b: bool)
    ensures
        b == varies_on_inertia(values@),
{
    let n = values.len();
    let mut i: usize = 0;
    while i < n
        invariant
            n == values@.len(),
            0 <= i <= n,
            forall|a: int, j: int|
                0 <= a < i && values@[a] is Some && 0 <= j < crate::text::comma_tokens(values@[a]->0@).len()
                    ==> !crate::lists::eq_ignore_ascii_case(
                    #[trigger] crate::text::comma_tokens(values@[a]->0@)[j],
                    x_inertia(),
                ),
        decreases n - i,
    {
        match &values[i] {
            Some(v) => {
                let tokens = crate::text::comma_tokens_of(v.as_str());
                let tn = tokens.len();
                let mut j: usize = 0;
                while j < tn
                    invariant
                        tn == tokens@.len(),
                        n == values@.len(),
                        0 <= i < n,
                        values@[i as int] == Some(*v),
                        strs(tokens@) == crate::text::comma_tokens(v@),
                        0 <= j <= tn,
                        forall|l: int| 0 <= l < j ==> !crate::lists::eq_ignore_ascii_case(
                            #[trigger] crate::text::comma_tokens(v@)[l],
                            x_inertia(),
                        ),
                    decreases tn - j,
                {
                    assert(strs(tokens@)[j as int] == tokens@[j as int]@);
                    if crate::lists::str_eq_ignore_ascii_case(tokens[j].as_str(), "X-Inertia") {
                        proof {
                            reveal_strlit("X-Inertia");
                            assert(x_inertia() =~= "X-Inertia"@);
                            assert(values@[i as int] == Some(*v));
                            assert(crate::lists::eq_ignore_ascii_case(
                                crate::text::comma_tokens(values@[i as int]->0@)[j as int],
                                x_inertia(),
                            ));
                        }
                        return true;
                    }
                    proof {
                        reveal_strlit("X-Inertia");
                        assert(x_inertia() =~= "X-Inertia"@);
                    }
                    j = j + 1;
                }
            },
            None => {},
        }
        i = i + 1;
    }
    false
}

/// A prop object with transient request state: errors loaded for this
/// request replace `errors`, and old input loaded for it sets `oldInput`.
pub open spec fn with_transient_props(
    props: Map<Seq<char>, serde_json::Value>,
    errors: Option<serde_json::Value>,
    old_input: Option<serde_json::Value>,
) -> Map<Seq<char>, serde_json::Value> {
    let with_errors = match errors {
        Some(e) => props.insert(errors_key(), e),
        None => props,
    };
    match old_input {
        Some(o) => with_errors.insert(old_input_key(), o),
        None => with_errors,
    }
}

/// Adds transient request state to the prop object: errors loaded for this
/// request replace `errors`, and old input loaded for it sets `oldInput`.
pub fn apply_transient_props(
    values: &mut StrMap<serde_json::Value>,
    errors: Option<serde_json::Value>,
    old_input: Option<serde_json::Value>,
)
    ensures
        final(values).as_map() == with_transient_props(old(values).as_map(), errors, old_input),
{
    let ghost m0 = values.as_map();
    match errors {
        Some(e) => {
            values.insert(errors_key_string(), e);
        },
        None => {},
    }
    let ghost m1 = values.as_map();
    assert(m1 =~= match errors {
        Some(e) => m0.insert(errors_key(), e),
        None => m0,
    });
    match old_input {
        Some(o) => {
            values.insert(old_input_key_string(), o);
        },
        None => {},
    }
    assert(values.as_map() =~= match old_input {
        Some(o) => m1.insert(old_input_key(), o),
        None => m1,
    });
}

/// `"oldInput"`.
pub open spec fn old_input_key() -> Seq<char> {
    seq!['o', 'l', 'd', 'I', 'n', 'p', 'u', 't']
}

/// Builds `"oldInput"`.
pub fn old_input_key_string() -> (out: String)
    ensures
        out@ == old_input_key(),
{
    let out = "oldInput".to_owned();
    proof {
        reveal_strlit("oldInput");
    }
    assert(out@ =~= old_input_key());
    out
}

/// The page's flash data: the flash loaded for this request, overridden by
/// the handler's own flash values.
pub fn merge_flash<V>(incoming: StrMap<V>, flash: StrMap<V>) -> (r: StrMap<V>)
    ensures
        r.as_map() == incoming.as_map().union_prefer_right(flash.as_map()),
{
    let mut out = incoming;
    let ghost base = out.as_map();
    proof {
        flash.lemma_len();
    }
    flash.lemma_wf();
    let ghost fk = flash.keys();
    let ghost fv = flash.vals();
    let ghost fm = flash.as_map();
    let mut entries = flash.into_entries();
    let n = entries.len();
    let ghost all = entries@;
    let mut i: usize = 0;
    while i < n
        invariant
            n == fk.len(),
            fk.len() == fv.len(),
            all.len() == n,
            forall|j: int| 0 <= j < n ==> (#[trigger] all[j]).0@ == fk[j] && all[j].1 == fv[j],
            entries@ == all.skip(i as int),
            0 <= i <= n,
            crate::str_map::sorted_keys(fk),
            fm == flash.as_map(),
            fk == flash.keys(),
            fv == flash.vals(),
            out.as_map() =~= base.union_prefer_right(
                Map::new(
                    |k: Seq<char>| fk.take(i as int).contains(k),
                    |k: Seq<char>| flash.at(k),
                ),
            ),
        decreases n - i,
    {
        let (k, v) = take_first(&mut entries);
        assert(all.skip(i as int).drop_first() =~= all.skip(i + 1));
        proof {
            crate::str_map::lemma_sorted_index_of(fk, i as int);
        }
        assert(k@ == fk[i as int] && v == fv[i as int]);
        let ghost before = out.as_map();
        let ghost kk = k@;
        assert(flash.at(kk) == v);
        out.insert(k, v);
        assert(out.as_map() =~= before.insert(kk, v));
        proof {
            let m_next = Map::new(|k: Seq<char>| fk.take(i + 1).contains(k), |k: Seq<char>| flash.at(k));
            let m_prev = Map::new(|k: Seq<char>| fk.take(i as int).contains(k), |k: Seq<char>| flash.at(k));
            assert(before =~= base.union_prefer_right(m_prev));
            assert forall|x: Seq<char>| #[trigger] out.as_map().contains_key(x) == base.union_prefer_right(m_next).contains_key(x) by {
                crate::text::lemma_take_succ_contains(fk, i as int, x);
                assert(m_next.contains_key(x) == fk.take(i + 1).contains(x));
                assert(m_prev.contains_key(x) == fk.take(i as int).contains(x));
            }
            assert forall|x: Seq<char>| out.as_map().contains_key(x) implies #[trigger] out.as_map()[x] == base.union_prefer_right(m_next)[x] by {
                crate::text::lemma_take_succ_contains(fk, i as int, x);
                assert(m_next.contains_key(x) == fk.take(i + 1).contains(x));
                assert(m_prev.contains_key(x) == fk.take(i as int).contains(x));
                if m_next.contains_key(x) {
                    assert(m_next[x] == flash.at(x));
                }
                if m_prev.contains_key(x) {
                    assert(m_prev[x] == flash.at(x));
                }
            }
            assert(out.as_map() =~= base.union_prefer_right(m_next));
        }
        i = i + 1;
    }
    assert(fk.take(n as int) =~= fk);
    assert(out.as_map() =~= incoming.as_map().union_prefer_right(fm));
    out
}

/// Only an Inertia GET visit can hold a stale asset version: other methods,
/// plain browser visits, visits holding the configured version, and
/// applications without a version always proceed.
pub proof fn law_matching_visits_proceed(
    method: crate::visit::Method,
    is_inertia: bool,
    configured: Option<Seq<char>>,
    requested: Option<Seq<char>>,
)
    requires
        method != crate::visit::Method::Get || !is_inertia || configured is None || requested == configured,
    ensures
        !stale_version(method, is_inertia, configured, requested),
{
}

} // verus!
