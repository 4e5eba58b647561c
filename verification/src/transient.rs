//! Request-to-request flash and validation state.
//!
//! A request loads the state the previous response stored (`incoming`) and
//! prepares what the next request will see (`outgoing`).  Nothing loaded is
//! carried over unless the request reflashes it.

use crate::str_map::StrMap;
use crate::text::owned;
use vstd::prelude::*;

verus! {

broadcast use vstd::string::group_string_axioms;

/// Transient state as it travels between two requests.
#[derive(Debug)]
pub struct StoredTransient<V> {
    /// Flash values, by key.
    pub flash: StrMap<V>,
    /// Serialized validation errors.
    pub errors: Option<V>,
    /// Explicitly opted-in, redacted old input.
    pub old_input: Option<V>,
}

impl<V> StoredTransient<V> {
    /// Nothing stored.
    pub fn new() -> (r: Self)
        ensures
            r.flash.as_map() == Map::<Seq<char>, V>::empty(),
            r.errors is None,
            r.old_input is None,
    {
        let r = StoredTransient { flash: StrMap::new(), errors: None, old_input: None };
        assert(r.flash.as_map() =~= Map::<Seq<char>, V>::empty());
        r
    }
}

/// `b` is a clone of `a`, or both are absent.
pub open spec fn cloned_option<V: Clone>(a: Option<V>, b: Option<V>) -> bool {
    match a {
        Some(x) => b matches Some(y) && cloned(x, y),
        None => b is None,
    }
}

/// Clones an optional value.
fn clone_option<V: Clone>(o: &Option<V>) -> (r: Option<V>)
    ensures
        cloned_option(*o, r),
{
    match o {
        Some(x) => Some(x.clone()),
        None => None,
    }
}

/// `after` is `before` with every entry of `extra` inserted as a clone,
/// entries of `extra` winning over those of `before`.
pub open spec fn extended_with_clones<V: Clone>(
    before: Map<Seq<char>, V>,
    extra: Map<Seq<char>, V>,
    after: Map<Seq<char>, V>,
) -> bool {
    &&& after.dom() == before.dom().union(extra.dom())
    &&& forall|k: Seq<char>| #[trigger] extra.dom().contains(k) ==> cloned(extra[k], after[k])
    &&& forall|k: Seq<char>|
        !extra.dom().contains(k) && #[trigger] before.dom().contains(k) ==> after[k] == before[k]
}

/// Inserts a clone of every entry of `extra` into `target`.
fn extend_cloned<V: Clone>(target: &mut StrMap<V>, extra: &StrMap<V>)
    ensures
        extended_with_clones(old(target).as_map(), extra.as_map(), final(target).as_map()),
{
    extra.lemma_wf();
    let ghost base = target.as_map();
    let ghost ek = extra.keys();
    let n = extra.len();
    let mut i: usize = 0;
    while i < n
        invariant
            n == ek.len(),
            ek == extra.keys(),
            ek.len() == extra.vals().len(),
            crate::str_map::sorted_keys(ek),
            0 <= i <= n,
            forall|k: Seq<char>| target.has(k) <==> (base.dom().contains(k) || ek.take(i as int).contains(k)),
            forall|k: Seq<char>| #[trigger] ek.take(i as int).contains(k) ==> cloned(extra.at(k), target.at(k)),
            forall|k: Seq<char>|
                !ek.take(i as int).contains(k) && #[trigger] base.dom().contains(k) ==> target.at(k) == base[k],
        decreases n - i,
    {
        let key = owned(extra.key_at(i).as_str());
        let value = extra.value_at(i).clone();
        proof {
            crate::str_map::lemma_sorted_index_of(ek, i as int);
            assert(extra.at(key@) == extra.vals()[i as int]);
        }
        let ghost before = *target;
        target.insert(key, value);
        assert forall|k: Seq<char>| ek.take(i + 1).contains(k) <==> (ek.take(i as int).contains(k) || k == ek[i as int]) by {
            crate::text::lemma_take_succ_contains(ek, i as int, k);
        }
        assert forall|k: Seq<char>| #[trigger] ek.take(i + 1).contains(k) implies cloned(extra.at(k), target.at(k)) by {
            crate::text::lemma_take_succ_contains(ek, i as int, k);
            if k != ek[i as int] {
                assert(ek.take(i as int).contains(k));
                assert(before.at(k) == target.at(k));
            }
        }
        i = i + 1;
    }
    assert(ek.take(n as int) =~= ek);
    assert(target.as_map().dom() =~= base.dom().union(extra.as_map().dom()));
}

/// The outgoing errors and old input after a reflash: slots already filled
/// stay, empty ones receive clones of what was loaded.
pub open spec fn reflashed_slots<V: Clone>(before: TransientData<V>, after: TransientData<V>) -> bool {
    &&& before.outgoing_spec().errors is Some ==> after.outgoing_spec().errors == before.outgoing_spec().errors
    &&& before.outgoing_spec().errors is None ==> cloned_option(
        before.incoming_spec().errors,
        after.outgoing_spec().errors,
    )
    &&& before.outgoing_spec().old_input is Some ==> after.outgoing_spec().old_input
        == before.outgoing_spec().old_input
    &&& before.outgoing_spec().old_input is None ==> cloned_option(
        before.incoming_spec().old_input,
        after.outgoing_spec().old_input,
    )
}

/// Loaded and outgoing one-request transient state.
#[derive(Debug)]
pub struct TransientData<V> {
    incoming: StoredTransient<V>,
    outgoing: StoredTransient<V>,
    scope: String,
}

impl<V> TransientData<V> {
    /// What this request loaded.
    pub closed spec fn incoming_spec(&self) -> StoredTransient<V> {
        self.incoming
    }

    /// What the next request will see.
    pub closed spec fn outgoing_spec(&self) -> StoredTransient<V> {
        self.outgoing
    }

    /// The name of the store that loaded the state.
    pub closed spec fn scope_view(&self) -> Seq<char> {
        self.scope@
    }

    /// State loaded from `stored`, with nothing yet prepared for the next
    /// request.
    pub fn loaded(stored: StoredTransient<V>, scope: &str) -> (r: Self)
        ensures
            r.incoming_spec() == stored,
            r.outgoing_spec().flash.as_map() == Map::<Seq<char>, V>::empty(),
            r.outgoing_spec().errors is None,
            r.outgoing_spec().old_input is None,
            r.scope_view() == scope@,
    {
        TransientData { incoming: stored, outgoing: StoredTransient::new(), scope: owned(scope) }
    }

    /// The name of the store that loaded the state.
    pub fn scope(&self) -> (r: &str)
        ensures
            r@ == self.scope_view(),
    {
        self.scope.as_str()
    }

    /// The flash values loaded for this request.
    pub fn incoming_flash(&self) -> (r: &StrMap<V>)
        ensures
            *r == self.incoming_spec().flash,
    {
        &self.incoming.flash
    }

    /// Flashes `value` under `key` to the next request.
    pub fn flash_next_value(&mut self, key: String, value: V)
        ensures
            final(self).outgoing_spec().flash.as_map() == old(self).outgoing_spec().flash.as_map().insert(key@, value),
            final(self).outgoing_spec().errors == old(self).outgoing_spec().errors,
            final(self).outgoing_spec().old_input == old(self).outgoing_spec().old_input,
            final(self).incoming_spec() == old(self).incoming_spec(),
            final(self).scope_view() == old(self).scope_view(),
    {
        let ghost before = self.outgoing.flash.as_map();
        let ghost k = key@;
        self.outgoing.flash.insert(key, value);
        assert(self.outgoing.flash.as_map() =~= before.insert(k, value));
    }

    /// Flashes every entry of `flash` to the next request, replacing values
    /// under the same keys.
    pub fn flash_all(&mut self, flash: StrMap<V>)
        ensures
            final(self).outgoing_spec().flash.as_map() == old(self).outgoing_spec().flash.as_map().union_prefer_right(
                flash.as_map(),
            ),
            final(self).outgoing_spec().errors == old(self).outgoing_spec().errors,
            final(self).outgoing_spec().old_input == old(self).outgoing_spec().old_input,
            final(self).incoming_spec() == old(self).incoming_spec(),
            final(self).scope_view() == old(self).scope_view(),
    {
        let mut current = StrMap::new();
        std::mem::swap(&mut current, &mut self.outgoing.flash);
        self.outgoing.flash = crate::engine::merge_flash(current, flash);
    }

    /// Stores serialized validation errors for the next request.
    pub fn store_errors(&mut self, errors: V)
        ensures
            final(self).outgoing_spec().errors == Some(errors),
            final(self).outgoing_spec().flash == old(self).outgoing_spec().flash,
            final(self).outgoing_spec().old_input == old(self).outgoing_spec().old_input,
            final(self).incoming_spec() == old(self).incoming_spec(),
            final(self).scope_view() == old(self).scope_view(),
    {
        self.outgoing.errors = Some(errors);
    }

    /// The errors loaded for this request.
    pub fn errors(&self) -> (r: Option<&V>)
        ensures
            match self.incoming_spec().errors {
                Some(e) => r == Some(&e),
                None => r is None,
            },
    {
        match &self.incoming.errors {
            Some(e) => Some(e),
            None => None,
        }
    }

    /// Stores opted-in, redacted old input for the next request.
    pub fn store_old_input(&mut self, input: V)
        ensures
            final(self).outgoing_spec().old_input == Some(input),
            final(self).outgoing_spec().flash == old(self).outgoing_spec().flash,
            final(self).outgoing_spec().errors == old(self).outgoing_spec().errors,
            final(self).incoming_spec() == old(self).incoming_spec(),
            final(self).scope_view() == old(self).scope_view(),
    {
        self.outgoing.old_input = Some(input);
    }

    /// The old input loaded for this request.
    pub fn old_input(&self) -> (r: Option<&V>)
        ensures
            match self.incoming_spec().old_input {
                Some(o) => r == Some(&o),
                None => r is None,
            },
    {
        match &self.incoming.old_input {
            Some(o) => Some(o),
            None => None,
        }
    }

    /// Carries every loaded value over to the next request: loaded flash
    /// values replace outgoing ones under the same key, and loaded errors
    /// and old input fill outgoing slots that are still empty.
    pub fn reflash(&mut self)
        where V: Clone,
        ensures
            extended_with_clones(
                old(self).outgoing_spec().flash.as_map(),
                old(self).incoming_spec().flash.as_map(),
                final(self).outgoing_spec().flash.as_map(),
            ),
            reflashed_slots(*old(self), *final(self)),
            final(self).incoming_spec() == old(self).incoming_spec(),
            final(self).scope_view() == old(self).scope_view(),
    {
        extend_cloned(&mut self.outgoing.flash, &self.incoming.flash);
        if self.outgoing.errors.is_none() {
            self.outgoing.errors = clone_option(&self.incoming.errors);
        }
        if self.outgoing.old_input.is_none() {
            self.outgoing.old_input = clone_option(&self.incoming.old_input);
        }
    }

    /// The state prepared for the next request.
    pub fn into_stored(self) -> (r: StoredTransient<V>)
        ensures
            r == self.outgoing_spec(),
    {
        self.outgoing
    }
}

/// Reflashing loses nothing: every key loaded for this request, and every
/// key already flashed to the next one, is flashed to the next request,
/// loaded values as clones.
pub proof fn law_reflash_keeps_every_key<V: Clone>(
    before: Map<Seq<char>, V>,
    loaded: Map<Seq<char>, V>,
    after: Map<Seq<char>, V>,
    key: Seq<char>,
)
    requires
        extended_with_clones(before, loaded, after),
        before.dom().contains(key) || loaded.dom().contains(key),
    ensures
        after.dom().contains(key),
        loaded.dom().contains(key) ==> cloned(loaded[key], after[key]),
        !loaded.dom().contains(key) ==> after[key] == before[key],
{
    assert(after.dom().contains(key));
}

/// What one request flashes is what the next request loads: state stored
/// from a request's outgoing slots and loaded by the next request reads
/// back the same flash values, errors and old input.
pub proof fn law_next_request_reads_what_was_stored<V>(
    current: TransientData<V>,
    stored: StoredTransient<V>,
    next: TransientData<V>,
)
    requires
        stored == current.outgoing_spec(),
        next.incoming_spec() == stored,
    ensures
        next.incoming_spec().flash.as_map() == current.outgoing_spec().flash.as_map(),
        next.incoming_spec().errors == current.outgoing_spec().errors,
        next.incoming_spec().old_input == current.outgoing_spec().old_input,
{
}

/// Reflashing JSON state carries the loaded values themselves: the next
/// request's flash is the one already set, updated with every loaded entry,
/// and its errors and old input are those already set, or else those loaded.
pub proof fn law_reflash_carries_json_values(
    before: TransientData<serde_json::Value>,
    after: TransientData<serde_json::Value>,
)
    requires
        extended_with_clones(
            before.outgoing_spec().flash.as_map(),
            before.incoming_spec().flash.as_map(),
            after.outgoing_spec().flash.as_map(),
        ),
        reflashed_slots(before, after),
    ensures
        after.outgoing_spec().flash.as_map() == before.outgoing_spec().flash.as_map().union_prefer_right(
            before.incoming_spec().flash.as_map(),
        ),
        after.outgoing_spec().errors == (if before.outgoing_spec().errors is Some {
            before.outgoing_spec().errors
        } else {
            before.incoming_spec().errors
        }),
        after.outgoing_spec().old_input == (if before.outgoing_spec().old_input is Some {
            before.outgoing_spec().old_input
        } else {
            before.incoming_spec().old_input
        }),
{
    let b = before.outgoing_spec().flash.as_map();
    let l = before.incoming_spec().flash.as_map();
    let a = after.outgoing_spec().flash.as_map();
    assert forall|k: Seq<char>| #[trigger] l.dom().contains(k) implies a[k] == l[k] by {
        assert(cloned(l[k], a[k]));
    }
    assert(a =~= b.union_prefer_right(l));
}

} // verus!
