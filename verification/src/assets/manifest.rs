//! Vite manifest graphs: which files and stylesheets an entry needs, and the
//! tags that load them.

use crate::str_map::StrMap;
use super::{attr_escaped, escape_attribute, encode_url_path, url_encoded};
use crate::text::{distinct, owned, push_str, strs, vec_contains_str};
use vstd::prelude::*;

verus! {

broadcast use vstd::string::group_string_axioms;

/// One chunk of a Vite manifest.
#[derive(Debug)]
pub struct ManifestEntry {
    /// The emitted file.
    pub file: String,
    /// Stylesheets the chunk needs.
    pub css: Vec<String>,
    /// Other emitted files the chunk references.
    pub assets: Vec<String>,
    /// Manifest keys of the chunks it imports statically.
    pub imports: Vec<String>,
}

/// The imports of chunk `k`.
pub open spec fn imports_of(m: StrMap<ManifestEntry>, k: Seq<char>) -> Seq<Seq<char>> {
    strs(m.at(k).imports@)
}

/// Whether chunk `k` imports `x`.
pub open spec fn imported_by(m: StrMap<ManifestEntry>, k: Seq<char>, x: Seq<char>) -> bool {
    imports_of(m, k).contains(x)
}

/// Whether some chunk of the manifest imports `x`.
pub open spec fn dangling(m: StrMap<ManifestEntry>, x: Seq<char>) -> bool {
    exists|k: Seq<char>| m.has(k) && #[trigger] imported_by(m, k, x)
}

/// Every import of the chunks at positions `from..` of `v` occurs in `v`.
pub open spec fn closed_from(m: StrMap<ManifestEntry>, v: Seq<Seq<char>>, from: int) -> bool {
    forall|i: int, j: int|
        from <= i < v.len() && 0 <= j < imports_of(m, v[i]).len() ==> v.contains(
            #[trigger] imports_of(m, v[i])[j],
        )
}

/// Every chunk at positions after `from` in `v` is imported by a chunk
/// before it.
pub open spec fn reached_from(m: StrMap<ManifestEntry>, v: Seq<Seq<char>>, from: int) -> bool {
    forall|i: int| from < i < v.len() ==> #[trigger] reached_at(m, v, i)
}

/// The chunk at position `i` of `v` is imported by a chunk before it.
pub open spec fn reached_at(m: StrMap<ManifestEntry>, v: Seq<Seq<char>>, i: int) -> bool {
    exists|j: int| 0 <= j < i && #[trigger] imported_by(m, v[j], v[i])
}

/// Every element of `v` is a manifest key.
pub open spec fn all_keys(m: StrMap<ManifestEntry>, v: Seq<Seq<char>>) -> bool {
    forall|i: int| 0 <= i < v.len() ==> m.has(#[trigger] v[i])
}

proof fn lemma_reached_elem(m: StrMap<ManifestEntry>, v: Seq<Seq<char>>, from: int, i: int)
    requires
        reached_from(m, v, from),
        from < i < v.len(),
    ensures
        exists|j: int| 0 <= j < i && #[trigger] imported_by(m, v[j], v[i]),
{
    assert(reached_at(m, v, i));
}

proof fn lemma_visited_bound(m: StrMap<ManifestEntry>, v: Seq<Seq<char>>)
    requires
        distinct(v),
        all_keys(m, v),
    ensures
        v.len() <= m.keys().len(),
{
    assert(v.no_duplicates());
    v.unique_seq_to_set();
    m.keys().lemma_cardinality_of_set();
    assert(v.to_set().subset_of(m.keys().to_set()));
    vstd::set_lib::lemma_len_subset(v.to_set(), m.keys().to_set());
}

/// The depth-first preorder walk from chunk `key` after the chunks
/// `visited`: a chunk already visited adds nothing; a key that is not in
/// the manifest stops the walk; otherwise the chunk is appended and its
/// imports are walked in order.  `fuel` bounds the nesting; with more fuel
/// than there are manifest keys it never runs out.
pub open spec fn walk(
    m: StrMap<ManifestEntry>,
    key: Seq<char>,
    visited: Seq<Seq<char>>,
    fuel: nat,
) -> Result<Seq<Seq<char>>, Seq<char>>
    decreases fuel, 0nat,
{
    if visited.contains(key) {
        Ok(visited)
    } else if !m.has(key) {
        Err(key)
    } else if fuel == 0 {
        Ok(visited)
    } else {
        walk_all(m, imports_of(m, key), visited.push(key), (fuel - 1) as nat)
    }
}

/// The walks from `keys`, in order, each after the previous one.
pub open spec fn walk_all(
    m: StrMap<ManifestEntry>,
    keys: Seq<Seq<char>>,
    visited: Seq<Seq<char>>,
    fuel: nat,
) -> Result<Seq<Seq<char>>, Seq<char>>
    decreases fuel, keys.len() + 1,
{
    if keys.len() == 0 {
        Ok(visited)
    } else {
        match walk(m, keys[0], visited, fuel) {
            Err(e) => Err(e),
            Ok(v) => walk_all(m, keys.drop_first(), v, fuel),
        }
    }
}

/// The chunks an entry needs, in depth-first preorder, or the first key
/// the walk finds missing.
pub open spec fn chunk_order(m: StrMap<ManifestEntry>, entry: Seq<char>) -> Result<Seq<Seq<char>>, Seq<char>> {
    walk(m, entry, Seq::empty(), m.keys().len() + 1)
}

/// Visits chunk `key` and, depth first, the chunks it imports, appending
/// each newly visited key to `visited`.
fn visit(key: &str, m: &StrMap<ManifestEntry>, visited: &mut Vec<String>) -> (r: Result<(), String>)
    requires
        distinct(strs(old(visited)@)),
        all_keys(*m, strs(old(visited)@)),
    ensures
        strs(final(visited)@).subrange(0, old(visited)@.len() as int) == strs(old(visited)@),
        old(visited)@.len() <= final(visited)@.len(),
        distinct(strs(final(visited)@)),
        all_keys(*m, strs(final(visited)@)),
        r is Ok ==> strs(final(visited)@).contains(key@),
        r is Ok && !strs(old(visited)@).contains(key@) ==> strs(final(visited)@)[old(visited)@.len() as int]
            == key@,
        final(visited)@.len() > old(visited)@.len() ==> strs(final(visited)@)[old(visited)@.len() as int]
            == key@,
        r is Ok && strs(old(visited)@).contains(key@) ==> final(visited)@.len() == old(visited)@.len(),
        r is Ok ==> closed_from(*m, strs(final(visited)@), old(visited)@.len() as int),
        reached_from(*m, strs(final(visited)@), old(visited)@.len() as int),
        match r {
            Err(missing) => !m.has(missing@) && (missing@ == key@ || exists|i: int|
                0 <= i < final(visited)@.len() && #[trigger] imported_by(*m, strs(final(visited)@)[i], missing@)),
            Ok(()) => true,
        },
        forall|f: nat|
            f >= m.keys().len() - old(visited)@.len() + 1 ==> #[trigger] walk(*m, key@, strs(old(visited)@), f)
                == match r {
                Ok(()) => Ok::<Seq<Seq<char>>, Seq<char>>(strs(final(visited)@)),
                Err(missing) => Err::<Seq<Seq<char>>, Seq<char>>(missing@),
            },
    decreases m.keys().len() - old(visited)@.len(),
{
    let ghost v0 = strs(visited@);
    if vec_contains_str(visited, key) {
        assert(strs(visited@).subrange(0, visited@.len() as int) =~= strs(visited@));
        return Ok(());
    }
    let entry = match m.get(key) {
        Some(e) => e,
        None => {
            assert(strs(visited@).subrange(0, visited@.len() as int) =~= strs(visited@));
            return Err(owned(key));
        },
    };
    let ghost before = visited@;
    let k = owned(key);
    visited.push(k);
    proof {
        crate::text::lemma_strs_push(before, k);
        crate::text::lemma_push_unique_distinct(v0, key@);
        assert(strs(visited@) == v0.push(key@));
        assert forall|i: int| 0 <= i < strs(visited@).len() implies m.has(#[trigger] strs(visited@)[i]) by {
            if i < v0.len() {
                assert(strs(visited@)[i] == v0[i]);
            }
        }
    }
    let ghost base: int = v0.len() as int;
    let imports = &entry.imports;
    assert(imports_of(*m, key@) == strs(imports@));
    assert(strs(imports@).skip(0) =~= strs(imports@));
    let n = imports.len();
    let mut t: usize = 0;
    while t < n
        invariant
            n == imports@.len(),
            old(visited)@.len() == base,
            v0 == strs(old(visited)@),
            imports_of(*m, key@) == strs(imports@),
            base == v0.len(),
            strs(visited@).len() > base,
            strs(visited@).subrange(0, base as int) == v0,
            strs(visited@)[base as int] == key@,
            distinct(strs(visited@)),
            all_keys(*m, strs(visited@)),
            forall|s: int| 0 <= s < t ==> strs(visited@).contains(#[trigger] strs(imports@)[s]),
            closed_from(*m, strs(visited@), base + 1int),
            reached_from(*m, strs(visited@), base as int),
            0 <= t <= n,
            forall|g: nat|
                g >= m.keys().len() - base ==> #[trigger] walk_all(*m, strs(imports@), v0.push(key@), g) == walk_all(
                    *m,
                    strs(imports@).skip(t as int),
                    strs(visited@),
                    g,
                ),
        decreases n - t,
    {
        let ghost vb = strs(visited@);
        proof {
            lemma_visited_bound(*m, vb);
        }
        assert(strs(imports@)[t as int] == imports@[t as int]@);
        assert(visited@.len() == vb.len());
        assert(vb.len() > v0.len());
        let res = visit(imports[t].as_str(), m, visited);
        let ghost va = strs(visited@);
        proof {
            assert(va.subrange(0, vb.len() as int) == vb);
            assert forall|i: int| 0 <= i < vb.len() implies va[i] == vb[i] by {
                assert(va.subrange(0, vb.len() as int)[i] == va[i]);
            }
            assert(va.subrange(0, base as int) =~= v0) by {
                assert forall|i: int| 0 <= i < base implies va.subrange(0, base as int)[i] == v0[i] by {
                    assert(vb.subrange(0, base as int)[i] == vb[i]);
                }
            }
            assert forall|i: int| base < i < va.len() implies #[trigger] reached_at(*m, va, i) by {
                if i < vb.len() {
                    assert(va[i] == vb[i]);
                    assert(reached_at(*m, vb, i));
                    let j = choose|j: int| 0 <= j < i && #[trigger] imported_by(*m, vb[j], vb[i]);
                    assert(va[j] == vb[j]);
                    assert(imported_by(*m, va[j], va[i]));
                } else if i > vb.len() {
                    lemma_reached_elem(*m, va, vb.len() as int, i);
                } else {
                    assert(i == vb.len());
                    assert(va[i] == imports@[t as int]@);
                    assert(va[base as int] == vb[base as int]);
                    assert(va[base as int] == key@);
                    assert(imported_by(*m, va[base as int], va[i]));
                    assert(base < i);
                    assert(imported_by(*m, va[base as int], va[i])) by {
                        assert(imports_of(*m, key@)[t as int] == va[i]);
                    }
                }
            }
        }
        match res {
            Err(missing) => {
                proof {
                    if missing@ == imports@[t as int]@ {
                        assert(imported_by(*m, va[base as int], missing@)) by {
                            assert(imports_of(*m, key@)[t as int] == missing@);
                        }
                    }
                    assert forall|f: nat| f >= m.keys().len() - base + 1 implies #[trigger] walk(*m, key@, v0, f)
                        == Err::<Seq<Seq<char>>, Seq<char>>(missing@) by {
                        let g = (f - 1) as nat;
                        assert(walk(*m, strs(imports@)[t as int], vb, g) == Err::<Seq<Seq<char>>, Seq<char>>(missing@));
                        assert(strs(imports@).skip(t as int)[0] == strs(imports@)[t as int]);
                        assert(walk_all(*m, strs(imports@), v0.push(key@), g) == walk_all(
                            *m,
                            strs(imports@).skip(t as int),
                            vb,
                            g,
                        ));
                    }
                }
                return Err(missing);
            },
            Ok(()) => {
                proof {
                    assert forall|g: nat| g >= m.keys().len() - base implies #[trigger] walk_all(
                        *m,
                        strs(imports@),
                        v0.push(key@),
                        g,
                    ) == walk_all(*m, strs(imports@).skip(t + 1), va, g) by {
                        assert(walk(*m, strs(imports@)[t as int], vb, g) == Ok::<Seq<Seq<char>>, Seq<char>>(va));
                        assert(strs(imports@).skip(t as int)[0] == strs(imports@)[t as int]);
                        assert(strs(imports@).skip(t as int).drop_first() =~= strs(imports@).skip(t + 1));
                        assert(walk_all(*m, strs(imports@), v0.push(key@), g) == walk_all(
                            *m,
                            strs(imports@).skip(t as int),
                            vb,
                            g,
                        ));
                    }
                    assert forall|s: int| 0 <= s < t + 1 implies va.contains(#[trigger] strs(imports@)[s]) by {
                        if s < t {
                            let i = choose|i: int| 0 <= i < vb.len() && vb[i] == strs(imports@)[s];
                            assert(va[i] == strs(imports@)[s]);
                        }
                    }
                    assert forall|i: int, j: int|
                        base + 1 <= i < va.len() && 0 <= j < imports_of(*m, va[i]).len() implies va.contains(
                        #[trigger] imports_of(*m, va[i])[j],
                    ) by {
                        if i < vb.len() {
                            assert(va[i] == vb[i]);
                            let x = imports_of(*m, vb[i])[j];
                            if vb.contains(x) {
                                let w = choose|w: int| 0 <= w < vb.len() && vb[w] == x;
                                assert(va[w] == x);
                            }
                        }
                    }
                }
            },
        }
        t = t + 1;
    }
    proof {
        let vf = strs(visited@);
        assert(strs(imports@).skip(n as int) =~= Seq::<Seq<char>>::empty());
        assert forall|f: nat| f >= m.keys().len() - base + 1 implies #[trigger] walk(*m, key@, v0, f) == Ok::<
            Seq<Seq<char>>,
            Seq<char>,
        >(vf) by {
            let g = (f - 1) as nat;
            lemma_visited_bound(*m, v0);
            assert(!v0.contains(key@));
            assert(m.has(key@));
            assert(walk(*m, key@, v0, f) == walk_all(*m, imports_of(*m, key@), v0.push(key@), g));
            assert(walk_all(*m, strs(imports@), v0.push(key@), g) == walk_all(*m, strs(imports@).skip(n as int), vf, g));
            assert(walk_all(*m, strs(imports@).skip(n as int), vf, g) == Ok::<Seq<Seq<char>>, Seq<char>>(vf));
        }
        assert(vf.subrange(0, base as int) == v0);
        assert forall|i: int, j: int|
            base <= i < vf.len() && 0 <= j < imports_of(*m, vf[i]).len() implies vf.contains(
            #[trigger] imports_of(*m, vf[i])[j],
        ) by {
            if i == base {
                assert(imports_of(*m, vf[i])[j] == strs(imports@)[j]);
            }
        }
    }
    Ok(())
}

/// The chunks an entry needs: the entry first, then, depth first, the
/// chunks its chunks import, each once.  Fails with the first import that
/// is not a manifest key, or with the entry when it is not one.
pub fn resolve_graph(entry: &str, m: &StrMap<ManifestEntry>) -> (r: Result<Vec<String>, String>)
    ensures
        match r {
            Ok(order) => {
                let v = strs(order@);
                &&& v.len() > 0 && v[0] == entry@
                &&& distinct(v)
                &&& all_keys(*m, v)
                &&& closed_from(*m, v, 0)
                &&& reached_from(*m, v, 0)
            },
            Err(missing) => !m.has(missing@) && (missing@ == entry@ || dangling(*m, missing@)),
        },
        chunk_order(*m, entry@) == match r {
            Ok(order) => Ok::<Seq<Seq<char>>, Seq<char>>(strs(order@)),
            Err(missing) => Err::<Seq<Seq<char>>, Seq<char>>(missing@),
        },
{
    let mut visited: Vec<String> = Vec::new();
    assert(strs(visited@) =~= Seq::<Seq<char>>::empty());
    let res = visit(entry, m, &mut visited);
    assert(walk(*m, entry@, Seq::<Seq<char>>::empty(), m.keys().len() + 1) == match res {
        Ok(()) => Ok::<Seq<Seq<char>>, Seq<char>>(strs(visited@)),
        Err(missing) => Err::<Seq<Seq<char>>, Seq<char>>(missing@),
    });
    match res {
        Ok(()) => Ok(visited),
        Err(missing) => {
            proof {
                if missing@ != entry@ {
                    let i = choose|i: int|
                        0 <= i < visited@.len() && #[trigger] imported_by(*m, strs(visited@)[i], missing@);
                    assert(m.has(strs(visited@)[i]));
                }
            }
            Err(missing)
        },
    }
}

/// The emitted files of the chunks of `order`, in order.
pub open spec fn files_of(m: StrMap<ManifestEntry>, order: Seq<Seq<char>>) -> Seq<Seq<char>> {
    order.map_values(|k: Seq<char>| m.at(k).file@)
}

/// `s` without repeated elements, keeping first occurrences in order.
pub open spec fn dedup(s: Seq<Seq<char>>) -> Seq<Seq<char>>
    decreases s.len(),
{
    if s.len() == 0 {
        Seq::empty()
    } else {
        crate::text::push_unique(dedup(s.drop_last()), s.last())
    }
}

/// Whether stylesheet `x` belongs to some chunk of `order`.
pub open spec fn in_css_of(m: StrMap<ManifestEntry>, order: Seq<Seq<char>>, x: Seq<char>) -> bool {
    exists|i: int| 0 <= i < order.len() && #[trigger] strs(m.at(order[i]).css@).contains(x)
}

/// The emitted files of the chunks of `order`, in order; with `unique`,
/// each file once.
pub fn chunk_files(m: &StrMap<ManifestEntry>, order: &Vec<String>, unique: bool) -> (out: Vec<String>)
    requires
        all_keys(*m, strs(order@)),
    ensures
        strs(out@) == if unique {
            dedup(files_of(*m, strs(order@)))
        } else {
            files_of(*m, strs(order@))
        },
{
    let ghost ks = strs(order@);
    let mut out: Vec<String> = Vec::new();
    let mut i: usize = 0;
    assert(files_of(*m, ks).take(0) =~= Seq::<Seq<char>>::empty());
    while i < order.len()
        invariant
            0 <= i <= order@.len(),
            ks == strs(order@),
            all_keys(*m, ks),
            strs(out@) == if unique {
                dedup(files_of(*m, ks).take(i as int))
            } else {
                files_of(*m, ks).take(i as int)
            },
        decreases order@.len() - i,
    {
        assert(ks[i as int] == order@[i as int]@);
        let entry = match m.get(order[i].as_str()) {
            Some(e) => e,
            None => {
                assert(m.has(ks[i as int]));
                return out;
            },
        };
        let f = entry.file.clone();
        let ghost fs = files_of(*m, ks);
        assert(fs[i as int] == f@);
        assert(fs.take(i + 1) =~= fs.take(i as int).push(f@));
        assert(fs.take(i + 1).drop_last() =~= fs.take(i as int));
        if unique {
            crate::text::push_unique_string(&mut out, f);
        } else {
            let ghost before = out@;
            out.push(f);
            proof {
                crate::text::lemma_strs_push(before, f);
            }
        }
        i = i + 1;
    }
    assert(files_of(*m, ks).take(order@.len() as int) =~= files_of(*m, ks));
    out
}

/// The stylesheets of the chunks of `order`: each once, in increasing order.
pub fn chunk_css(m: &StrMap<ManifestEntry>, order: &Vec<String>) -> (out: Vec<String>)
    requires
        all_keys(*m, strs(order@)),
    ensures
        crate::str_map::sorted_keys(strs(out@)),
        forall|x: Seq<char>| #[trigger] strs(out@).contains(x) <==> in_css_of(*m, strs(order@), x),
{
    let ghost ks = strs(order@);
    let mut set: StrMap<bool> = StrMap::new();
    let mut i: usize = 0;
    while i < order.len()
        invariant
            0 <= i <= order@.len(),
            ks == strs(order@),
            all_keys(*m, ks),
            forall|x: Seq<char>|
                #[trigger] set.has(x) <==> exists|a: int| 0 <= a < i && #[trigger] strs(m.at(ks[a]).css@).contains(x),
        decreases order@.len() - i,
    {
        assert(ks[i as int] == order@[i as int]@);
        let entry = match m.get(order[i].as_str()) {
            Some(e) => e,
            None => {
                assert(m.has(ks[i as int]));
                return Vec::new();
            },
        };
        let css = &entry.css;
        let ghost cv = strs(css@);
        assert(cv == strs(m.at(ks[i as int]).css@));
        let mut c: usize = 0;
        while c < css.len()
            invariant
                0 <= c <= css@.len(),
                cv == strs(css@),
                ks == strs(order@),
                0 <= i < order@.len(),
                cv == strs(m.at(ks[i as int]).css@),
                forall|x: Seq<char>|
                    #[trigger] set.has(x) <==> (exists|a: int| 0 <= a < i && #[trigger] strs(m.at(ks[a]).css@).contains(x))
                        || cv.take(c as int).contains(x),
            decreases css@.len() - c,
        {
            let ghost before = set;
            assert(cv[c as int] == css@[c as int]@);
            set.insert(css[c].clone(), true);
            proof {
                assert(cv.take(c + 1) =~= cv.take(c as int).push(cv[c as int]));
                assert forall|x: Seq<char>| #[trigger] cv.take(c + 1).contains(x) <==> (cv.take(c as int).contains(x) || x == cv[c as int]) by {
                    crate::text::lemma_contains_push(cv.take(c as int), cv[c as int], x);
                }
            }
            c = c + 1;
        }
        proof {
            assert(cv.take(css@.len() as int) =~= cv);
            assert forall|x: Seq<char>|
                #[trigger] set.has(x) <==> exists|a: int| 0 <= a < i + 1 && #[trigger] strs(m.at(ks[a]).css@).contains(x) by {
                if cv.contains(x) {
                    assert(strs(m.at(ks[i as int]).css@).contains(x));
                }
                if exists|a: int| 0 <= a < i + 1 && #[trigger] strs(m.at(ks[a]).css@).contains(x) {
                    let a = choose|a: int| 0 <= a < i + 1 && #[trigger] strs(m.at(ks[a]).css@).contains(x);
                    if a == i {
                        assert(cv.contains(x));
                    }
                }
            }
        }
        i = i + 1;
    }
    set.lemma_wf();
    let ghost keys = set.keys();
    let entries = set.into_entries();
    let mut out: Vec<String> = Vec::new();
    let mut entries = entries;
    let n = entries.len();
    let ghost all = entries@;
    let mut j: usize = 0;
    while j < n
        invariant
            n == all.len(),
            all.len() == keys.len(),
            forall|a: int| 0 <= a < n ==> (#[trigger] all[a]).0@ == keys[a],
            entries@ == all.skip(j as int),
            0 <= j <= n,
            strs(out@) == keys.take(j as int),
        decreases n - j,
    {
        let (k, _) = crate::engine::take_first_of(&mut entries);
        assert(all.skip(j as int).drop_first() =~= all.skip(j + 1));
        let ghost before = out@;
        out.push(k);
        proof {
            crate::text::lemma_strs_push(before, k);
            assert(keys.take(j + 1) =~= keys.take(j as int).push(keys[j as int]));
        }
        j = j + 1;
    }
    assert(keys.take(n as int) =~= keys);
    proof {
        assert forall|x: Seq<char>| #[trigger] strs(out@).contains(x) <==> in_css_of(*m, ks, x) by {
            assert(set.has(x) == keys.contains(x));
        }
    }
    out
}

/// How a path appears in a tag: percent-encoded bytes, or escaped for an
/// HTML attribute.
pub open spec fn tag_path(p: Seq<char>, encoded: bool) -> Seq<char> {
    if encoded {
        url_encoded(vstd::utf8::encode_utf8(p))
    } else {
        attr_escaped(p)
    }
}

/// `<link rel="stylesheet" href="{prefix}/{path}">` for each stylesheet.
pub open spec fn stylesheet_links(prefix: Seq<char>, css: Seq<Seq<char>>, encoded: bool) -> Seq<char>
    decreases css.len(),
{
    if css.len() == 0 {
        Seq::empty()
    } else {
        stylesheet_links(prefix, css.drop_last(), encoded) + "<link rel=\"stylesheet\" href=\""@ + prefix
            + "/"@ + tag_path(css.last(), encoded) + "\">"@
    }
}

/// `<link rel="modulepreload" href="{prefix}/{path}">` for each file other
/// than `entry_file`.
pub open spec fn preload_links(prefix: Seq<char>, files: Seq<Seq<char>>, entry_file: Seq<char>, encoded: bool) -> Seq<
    char,
>
    decreases files.len(),
{
    if files.len() == 0 {
        Seq::empty()
    } else if files.last() == entry_file {
        preload_links(prefix, files.drop_last(), entry_file, encoded)
    } else {
        preload_links(prefix, files.drop_last(), entry_file, encoded) + "<link rel=\"modulepreload\" href=\""@
            + prefix + "/"@ + tag_path(files.last(), encoded) + "\">"@
    }
}

/// The markup that loads an entry: stylesheet links, module preloads for
/// the other files, and the entry's module script.
pub open spec fn tag_markup(
    prefix: Seq<char>,
    css: Seq<Seq<char>>,
    files: Seq<Seq<char>>,
    entry_file: Seq<char>,
    encoded: bool,
) -> Seq<char> {
    stylesheet_links(prefix, css, encoded) + preload_links(prefix, files, entry_file, encoded)
        + "<script type=\"module\" src=\""@ + prefix + "/"@ + tag_path(entry_file, encoded) + "\"></script>"@
}

fn tag_path_of(p: &str, encoded: bool) -> (out: String)
    ensures
        out@ == tag_path(p@, encoded),
{
    if encoded {
        encode_url_path(p)
    } else {
        escape_attribute(p)
    }
}

fn push_tag(out: &mut String, open: &str, prefix: &str, path: &str, close: &str, encoded: bool)
    ensures
        final(out)@ == old(out)@ + open@ + prefix@ + "/"@ + tag_path(path@, encoded) + close@,
{
    let ghost start = out@;
    push_str(out, open);
    push_str(out, prefix);
    push_str(out, "/");
    let p = tag_path_of(path, encoded);
    push_str(out, p.as_str());
    push_str(out, close);
    assert(out@ =~= start + open@ + prefix@ + "/"@ + tag_path(path@, encoded) + close@);
}

/// Renders the markup that loads an entry (see `tag_markup`).
pub fn render_tags(prefix: &str, css: &Vec<String>, files: &Vec<String>, entry_file: &str, encoded: bool) -> (out: String)
    ensures
        out@ == tag_markup(prefix@, strs(css@), strs(files@), entry_file@, encoded),
{
    let mut out = String::new();
    let mut i: usize = 0;
    assert(strs(css@).take(0) =~= Seq::<Seq<char>>::empty());
    while i < css.len()
        invariant
            0 <= i <= css@.len(),
            out@ == stylesheet_links(prefix@, strs(css@).take(i as int), encoded),
        decreases css@.len() - i,
    {
        assert(strs(css@).take(i + 1).drop_last() =~= strs(css@).take(i as int));
        assert(strs(css@)[i as int] == css@[i as int]@);
        push_tag(&mut out, "<link rel=\"stylesheet\" href=\"", prefix, css[i].as_str(), "\">", encoded);
        i = i + 1;
    }
    assert(strs(css@).take(css@.len() as int) =~= strs(css@));
    let ghost links = out@;
    let mut f: usize = 0;
    assert(strs(files@).take(0) =~= Seq::<Seq<char>>::empty());
    assert(out@ =~= links + preload_links(prefix@, strs(files@).take(0), entry_file@, encoded));
    while f < files.len()
        invariant
            0 <= f <= files@.len(),
            out@ == links + preload_links(prefix@, strs(files@).take(f as int), entry_file@, encoded),
        decreases files@.len() - f,
    {
        assert(strs(files@).take(f + 1).drop_last() =~= strs(files@).take(f as int));
        assert(strs(files@)[f as int] == files@[f as int]@);
        if !crate::text::str_eq(files[f].as_str(), entry_file) {
            let ghost before = out@;
            push_tag(&mut out, "<link rel=\"modulepreload\" href=\"", prefix, files[f].as_str(), "\">", encoded);
            assert(out@ =~= links + preload_links(prefix@, strs(files@).take(f + 1), entry_file@, encoded));
        }
        f = f + 1;
    }
    assert(strs(files@).take(files@.len() as int) =~= strs(files@));
    let ghost mid = out@;
    push_tag(&mut out, "<script type=\"module\" src=\"", prefix, entry_file, "\"></script>", encoded);
    assert(out@ =~= tag_markup(prefix@, strs(css@), strs(files@), entry_file@, encoded));
    out
}

/// The files an entry preloads are each listed once, and every file of the
/// entry's chunks is listed.
pub proof fn law_files_listed_once(s: Seq<Seq<char>>)
    ensures
        distinct(dedup(s)),
        forall|x: Seq<char>| s.contains(x) <==> #[trigger] dedup(s).contains(x),
    decreases s.len(),
{
    if s.len() > 0 {
        law_files_listed_once(s.drop_last());
        crate::text::lemma_push_unique_distinct(dedup(s.drop_last()), s.last());
        assert forall|x: Seq<char>| s.contains(x) <==> #[trigger] dedup(s).contains(x) by {
            crate::text::lemma_contains_push(dedup(s.drop_last()), s.last(), x);
            crate::text::lemma_contains_push(s.drop_last(), s.last(), x);
            assert(s.drop_last().push(s.last()) =~= s);
        }
    }
}

} // verus!
