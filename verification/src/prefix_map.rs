//! An ordered map from prefix names to namespace IRIs.
//!
//! Entries keep their first-declared position; a later declaration for the
//! same name overwrites the stored IRI in place (last write wins). The empty
//! name stands for the base IRI.

use vstd::prelude::*;
use crate::text::str_eq;

verus! {

/// The position of the first entry of `s` whose name is `k`, or `s.len()`.
pub open spec fn key_index(s: Seq<(Seq<char>, Seq<char>)>, k: Seq<char>) -> int
    decreases s.len(),
{
    if s.len() == 0 {
        0
    } else if s[0].0 == k {
        0
    } else {
        1 + key_index(s.drop_first(), k)
    }
}

/// The IRI bound to `k` in `s`, if any.
pub open spec fn seq_lookup(s: Seq<(Seq<char>, Seq<char>)>, k: Seq<char>) -> Option<Seq<char>> {
    if key_index(s, k) < s.len() {
        Some(s[key_index(s, k)].1)
    } else {
        None
    }
}

/// `s` after binding `k` to `v`: a fresh name is appended, a known name
/// keeps its position and gets the new IRI.
pub open spec fn spec_insert(
    s: Seq<(Seq<char>, Seq<char>)>,
    k: Seq<char>,
    v: Seq<char>,
) -> Seq<(Seq<char>, Seq<char>)> {
    if key_index(s, k) < s.len() {
        s.update(key_index(s, k), (k, v))
    } else {
        s.push((k, v))
    }
}


/// Names never repeat in the pair list.
pub open spec fn unique_names(s: Seq<(Seq<char>, Seq<char>)>) -> bool {
    forall|i: int, j: int|
        #![trigger s[i], s[j]]
        0 <= i < j < s.len() ==> s[i].0 != s[j].0
}

/// `m` with the pairs of `s` bound in order, later pairs winning.
pub open spec fn map_fold(
    m: Map<Seq<char>, Seq<char>>,
    s: Seq<(Seq<char>, Seq<char>)>,
) -> Map<Seq<char>, Seq<char>>
    decreases s.len(),
{
    if s.len() == 0 {
        m
    } else {
        map_fold(m.insert(s[0].0, s[0].1), s.drop_first())
    }
}

/// The bindings a pair list makes, later pairs winning. For a list with
/// unique names this does not depend on the list's order.
pub open spec fn pairs_to_map(s: Seq<(Seq<char>, Seq<char>)>) -> Map<Seq<char>, Seq<char>> {
    map_fold(Map::empty(), s)
}

/// Appending one pair binds it last.
pub proof fn lemma_map_fold_push(
    m: Map<Seq<char>, Seq<char>>,
    s: Seq<(Seq<char>, Seq<char>)>,
    p: (Seq<char>, Seq<char>),
)
    ensures
        map_fold(m, s.push(p)) =~= map_fold(m, s).insert(p.0, p.1),
    decreases s.len(),
{
    if s.len() == 0 {
        assert(s.push(p)[0] == p);
        assert(s.push(p).drop_first() =~= Seq::<(Seq<char>, Seq<char>)>::empty());
        assert(map_fold(m.insert(p.0, p.1), s.push(p).drop_first()) == m.insert(p.0, p.1));
        assert(map_fold(m, s.push(p)) == m.insert(p.0, p.1));
        assert(map_fold(m, s) == m);
    } else {
        assert(s.push(p)[0] == s[0]);
        assert(s.push(p).drop_first() =~= s.drop_first().push(p));
        lemma_map_fold_push(m.insert(s[0].0, s[0].1), s.drop_first(), p);
        assert(map_fold(m, s.push(p)) == map_fold(m.insert(s[0].0, s[0].1), s.drop_first().push(
            p,
        )));
        assert(map_fold(m, s).insert(p.0, p.1) == map_fold(
            m.insert(s[0].0, s[0].1),
            s.drop_first(),
        ).insert(p.0, p.1));
    }
}

/// A binding for a name no later pair holds can be made first or last.
pub proof fn lemma_map_fold_commute(
    m: Map<Seq<char>, Seq<char>>,
    s: Seq<(Seq<char>, Seq<char>)>,
    k: Seq<char>,
    v: Seq<char>,
)
    requires
        forall|i: int| 0 <= i < s.len() ==> (#[trigger] s[i]).0 != k,
    ensures
        map_fold(m.insert(k, v), s) =~= map_fold(m, s).insert(k, v),
    decreases s.len(),
{
    if s.len() > 0 {
        assert(s[0].0 != k);
        assert(m.insert(k, v).insert(s[0].0, s[0].1) =~= m.insert(s[0].0, s[0].1).insert(k, v));
        assert forall|i: int| 0 <= i < s.drop_first().len() implies (#[trigger] s.drop_first()[i]).0
            != k by {
            assert(s[i + 1].0 != k);
        }
        lemma_map_fold_commute(m.insert(s[0].0, s[0].1), s.drop_first(), k, v);
    }
}

/// Binding into a unique-named list keeps the names unique.
pub proof fn lemma_insert_unique(s: Seq<(Seq<char>, Seq<char>)>, k: Seq<char>, v: Seq<char>)
    requires
        unique_names(s),
    ensures
        unique_names(spec_insert(s, k, v)),
{
    lemma_key_index(s, k);
    let out = spec_insert(s, k, v);
    if key_index(s, k) < s.len() {
        let x = key_index(s, k);
        assert forall|a: int, b: int|
            #![trigger out[a], out[b]]
            0 <= a < b < out.len() implies out[a].0 != out[b].0 by {
            assert(s[a].0 != s[b].0);
            assert(s[x].0 == k);
            if a != x && b != x {
                assert(out[a] == s[a] && out[b] == s[b]);
            } else if a == x {
                assert(out[b] == s[b]);
            } else {
                assert(out[a] == s[a]);
            }
        }
    } else {
        assert forall|a: int, b: int|
            #![trigger out[a], out[b]]
            0 <= a < b < out.len() implies out[a].0 != out[b].0 by {
            if b < s.len() {
                assert(out[a] == s[a] && out[b] == s[b]);
                assert(s[a].0 != s[b].0);
            } else {
                assert(out[a] == s[a]);
                assert(s[a].0 != k);
            }
        }
    }
}

/// Binding a name into a unique-named list makes the same map as binding
/// it after the list.
pub proof fn lemma_map_fold_spec_insert(
    m: Map<Seq<char>, Seq<char>>,
    s: Seq<(Seq<char>, Seq<char>)>,
    k: Seq<char>,
    v: Seq<char>,
)
    requires
        unique_names(s),
    ensures
        map_fold(m, spec_insert(s, k, v)) =~= map_fold(m, s).insert(k, v),
    decreases s.len(),
{
    lemma_key_index(s, k);
    if key_index(s, k) >= s.len() {
        lemma_map_fold_push(m, s, (k, v));
    } else if key_index(s, k) == 0 {
        assert(s[0].0 == k);
        let out = spec_insert(s, k, v);
        assert(out[0] == (k, v));
        assert(out.drop_first() =~= s.drop_first());
        assert forall|i: int| 0 <= i < s.drop_first().len() implies (#[trigger] s.drop_first()[i]).0
            != k by {
            assert(s[0].0 != s[i + 1].0);
        }
        let rest = s.drop_first();
        lemma_map_fold_commute(m, rest, k, v);
        lemma_map_fold_commute(m, rest, k, s[0].1);
        assert(map_fold(m, out) == map_fold(m.insert(k, v), rest));
        assert(map_fold(m.insert(k, v), rest) == map_fold(m, rest).insert(k, v));
        assert(map_fold(m, s) == map_fold(m.insert(k, s[0].1), rest));
        assert(map_fold(m.insert(k, s[0].1), rest) == map_fold(m, rest).insert(k, s[0].1));
        assert(map_fold(m, rest).insert(k, s[0].1).insert(k, v) =~= map_fold(m, rest).insert(
            k,
            v,
        ));
    } else {
        assert(s[0].0 != k);
        let out = spec_insert(s, k, v);
        assert(out[0] == s[0]);
        assert forall|i: int, j: int|
            #![trigger s.drop_first()[i], s.drop_first()[j]]
            0 <= i < j < s.drop_first().len() implies s.drop_first()[i].0 != s.drop_first()[j].0 by {
            assert(s[i + 1].0 != s[j + 1].0);
        }
        lemma_key_index(s.drop_first(), k);
        assert(key_index(s, k) == 1 + key_index(s.drop_first(), k));
        assert(out.drop_first() =~= spec_insert(s.drop_first(), k, v));
        lemma_map_fold_spec_insert(m.insert(s[0].0, s[0].1), s.drop_first(), k, v);
    }
}

/// Folding a unique-named pair list binds the same map as laying its
/// bindings over the accumulator.
pub proof fn lemma_map_fold_union(m: Map<Seq<char>, Seq<char>>, s: Seq<(Seq<char>, Seq<char>)>)
    requires
        unique_names(s),
    ensures
        map_fold(m, s) =~= m.union_prefer_right(pairs_to_map(s)),
        forall|k: Seq<char>|
            pairs_to_map(s).dom().contains(k) ==> exists|i: int|
                0 <= i < s.len() && (#[trigger] s[i]).0 == k,
    decreases s.len(),
{
    if s.len() == 0 {
        assert(map_fold(m, s) == m);
        assert(pairs_to_map(s) == Map::<Seq<char>, Seq<char>>::empty());
        assert(m.union_prefer_right(Map::<Seq<char>, Seq<char>>::empty()) =~= m);
    } else {
        let p = s[0];
        let rest = s.drop_first();
        assert forall|i: int, j: int|
            #![trigger rest[i], rest[j]]
            0 <= i < j < rest.len() implies rest[i].0 != rest[j].0 by {
            assert(s[i + 1].0 != s[j + 1].0);
        }
        assert forall|i: int| 0 <= i < rest.len() implies (#[trigger] rest[i]).0 != p.0 by {
            assert(s[0].0 != s[i + 1].0);
        }
        lemma_map_fold_union(m.insert(p.0, p.1), rest);
        lemma_map_fold_union(Map::<Seq<char>, Seq<char>>::empty().insert(p.0, p.1), rest);
        assert(map_fold(m, s) == map_fold(m.insert(p.0, p.1), rest));
        assert(pairs_to_map(s) == map_fold(
            Map::<Seq<char>, Seq<char>>::empty().insert(p.0, p.1),
            rest,
        ));
        assert(pairs_to_map(s) =~= Map::<Seq<char>, Seq<char>>::empty().insert(
            p.0,
            p.1,
        ).union_prefer_right(pairs_to_map(rest)));
        assert forall|k: Seq<char>| pairs_to_map(s).dom().contains(k) implies exists|i: int|
            0 <= i < s.len() && (#[trigger] s[i]).0 == k by {
            if pairs_to_map(rest).dom().contains(k) {
                let w = choose|i: int| 0 <= i < rest.len() && (#[trigger] rest[i]).0 == k;
                assert(s[w + 1].0 == k);
            } else {
                assert(k == p.0);
                assert(s[0].0 == k);
            }
        }
        assert forall|k: Seq<char>|
            pairs_to_map(rest).dom().contains(k) implies k != p.0 by {
            let w = choose|i: int| 0 <= i < rest.len() && (#[trigger] rest[i]).0 == k;
            assert(rest[w].0 != p.0);
        }
        assert(map_fold(m.insert(p.0, p.1), rest) =~= m.insert(p.0, p.1).union_prefer_right(
            pairs_to_map(rest),
        ));
        assert(m.insert(p.0, p.1).union_prefer_right(pairs_to_map(rest))
            =~= m.union_prefer_right(pairs_to_map(s)));
    }
}

/// What `key_index` returns: the first position bound to `k`, or the length.
pub proof fn lemma_key_index(s: Seq<(Seq<char>, Seq<char>)>, k: Seq<char>)
    ensures
        0 <= key_index(s, k) <= s.len(),
        key_index(s, k) < s.len() ==> s[key_index(s, k)].0 == k,
        forall|j: int| 0 <= j < key_index(s, k) ==> s[j].0 != k,
    decreases s.len(),
{
    if s.len() > 0 && s[0].0 != k {
        lemma_key_index(s.drop_first(), k);
        assert forall|j: int| 0 <= j < key_index(s, k) implies s[j].0 != k by {
            if j > 0 {
                assert(s.drop_first()[j - 1].0 != k);
            }
        }
    }
}

/// An ordered prefix-name-to-IRI map with unique names.
#[derive(Debug)]
pub struct PrefixMap {
    pub entries: Vec<(String, String)>,
}

impl View for PrefixMap {
    type V = Seq<(Seq<char>, Seq<char>)>;

    open spec fn view(&self) -> Seq<(Seq<char>, Seq<char>)> {
        self.entries@.map_values(|p: (String, String)| (p.0@, p.1@))
    }
}

impl PrefixMap {
    /// Names never repeat.
    pub open spec fn wf(&self) -> bool {
        forall|i: int, j: int|
            #![trigger self@[i], self@[j]]
            0 <= i < j < self@.len() ==> self@[i].0 != self@[j].0
    }

    /// An empty map.
    pub fn new() -> (r: Self)
        ensures
            r@ =~= Seq::<(Seq<char>, Seq<char>)>::empty(),
            r.wf(),
    {
        PrefixMap { entries: Vec::new() }
    }

    /// How many names are bound.
    pub fn len(&self) -> (r: usize)
        ensures
            r == self@.len(),
    {
        self.entries.len()
    }

    /// Whether no name is bound.
    pub fn is_empty(&self) -> (r: bool)
        ensures
            r == (self@.len() == 0),
    {
        self.entries.is_empty()
    }

    /// The name and IRI stored at position `i`.
    pub fn pair_at(&self, i: usize) -> (r: (String, String))
        requires
            i < self@.len(),
        ensures
            (r.0@, r.1@) == self@[i as int],
    {
        let p = &self.entries[i];
        (p.0.clone(), p.1.clone())
    }

    /// The IRI bound to `name`, if any.
    pub fn get(&self, name: &str) -> (r: Option<String>)
        ensures
            match r {
                Some(iri) => seq_lookup(self@, name@) == Some(iri@),
                None => seq_lookup(self@, name@) is None,
            },
    {
        proof {
            lemma_key_index(self@, name@);
        }
        let n = self.entries.len();
        let mut i: usize = 0;
        while i < n
            invariant
                n == self@.len(),
                i <= n,
                forall|j: int| 0 <= j < i ==> (#[trigger] self@[j]).0 != name@,
            decreases n - i,
        {
            if str_eq(self.entries[i].0.as_str(), name) {
                proof {
                    lemma_key_index(self@, name@);
                    assert(self@[i as int].0 == name@);
                    if key_index(self@, name@) < i {
                        assert(self@[key_index(self@, name@)].0 != name@);
                        assert(false);
                    }
                    if key_index(self@, name@) > i {
                        lemma_key_index(self@, name@);
                        assert(false);
                    }
                }
                return Some(self.entries[i].1.clone());
            }
            i = i + 1;
        }
        proof {
            lemma_key_index(self@, name@);
            if key_index(self@, name@) < self@.len() {
                assert(self@[key_index(self@, name@)].0 == name@);
                assert(false);
            }
        }
        None
    }

    /// Binds `name` to `iri`: a fresh name is appended, a known name keeps
    /// its position and gets the new IRI.
    pub fn insert(&mut self, name: String, iri: String)
        requires
            old(self).wf(),
        ensures
            final(self).wf(),
            key_index(old(self)@, name@) < old(self)@.len() ==> final(self)@ =~= old(self)@.update(
                key_index(old(self)@, name@),
                (name@, iri@),
            ),
            key_index(old(self)@, name@) >= old(self)@.len() ==> final(self)@ =~= old(self)@.push(
                (name@, iri@),
            ),
            final(self)@ =~= spec_insert(old(self)@, name@, iri@),
            seq_lookup(final(self)@, name@) == Some(iri@),
    {
        proof {
            lemma_key_index(old(self)@, name@);
        }
        let n = self.entries.len();
        let mut i: usize = 0;
        while i < n
            invariant
                n == self@.len(),
                i <= n,
                *self == *old(self),
                old(self).wf(),
                forall|j: int| 0 <= j < i ==> (#[trigger] self@[j]).0 != name@,
            decreases n - i,
        {
            if str_eq(self.entries[i].0.as_str(), name.as_str()) {
                proof {
                    lemma_key_index(self@, name@);
                    assert(self@[i as int].0 == name@);
                    if key_index(self@, name@) < i {
                        assert(self@[key_index(self@, name@)].0 != name@);
                        assert(false);
                    }
                }
                let ghost prev = self@;
                self.entries.remove(i);
                self.entries.insert(i, (name, iri));
                proof {
                    assert(self@ =~= prev.update(i as int, (name@, iri@)));
                    lemma_key_index(prev, name@);
                    if key_index(prev, name@) < i {
                        assert(prev[key_index(prev, name@)].0 == name@);
                        assert(false);
                    }
                    if key_index(prev, name@) > i {
                        assert(prev[i as int].0 != name@);
                        assert(false);
                    }
                    assert(key_index(prev, name@) == i);
                    assert forall|a: int, b: int|
                        #![trigger self@[a], self@[b]]
                        0 <= a < b < self@.len() implies self@[a].0 != self@[b].0 by {
                        assert(prev[a] == old(self)@[a]);
                        assert(prev[b] == old(self)@[b]);
                        assert(old(self)@[a].0 != old(self)@[b].0);
                        assert(old(self)@[i as int].0 == name@);
                        if a != i && b != i {
                            assert(self@[a] == prev[a] && self@[b] == prev[b]);
                        } else if a == i {
                            assert(self@[b] == prev[b]);
                        } else {
                            assert(self@[a] == prev[a]);
                        }
                    }
                    lemma_key_index(self@, name@);
                    if key_index(self@, name@) < self@.len() {
                        if key_index(self@, name@) < i {
                            assert(prev[key_index(self@, name@)] == self@[key_index(self@, name@)]);
                            assert(false);
                        }
                    } else {
                        assert(self@[i as int].0 == name@);
                        assert(false);
                    }
                    if key_index(self@, name@) > i {
                        assert(self@[i as int].0 == name@);
                        assert(false);
                    }
                }
                return ;
            }
            i = i + 1;
        }
        let ghost prev = self@;
        self.entries.push((name, iri));
        proof {
            assert(self@ =~= prev.push((name@, iri@)));
            lemma_key_index(prev, name@);
            assert(key_index(prev, name@) >= prev.len());
            assert forall|a: int, b: int|
                #![trigger self@[a], self@[b]]
                0 <= a < b < self@.len() implies self@[a].0 != self@[b].0 by {
                if b < prev.len() {
                    assert(self@[a] == prev[a] && self@[b] == prev[b]);
                    assert(prev[a] == old(self)@[a] && prev[b] == old(self)@[b]);
                } else {
                    assert(self@[a] == prev[a]);
                    assert(prev[a] == old(self)@[a]);
                    assert(prev[a].0 != name@);
                }
            }
            lemma_key_index(self@, name@);
            assert(self@[prev.len() as int].0 == name@);
            if key_index(self@, name@) < prev.len() {
                assert(prev[key_index(self@, name@)] == self@[key_index(self@, name@)]);
                assert(false);
            }
            if key_index(self@, name@) >= self@.len() {
                assert(self@[prev.len() as int].0 != name@);
                assert(false);
            }
            assert(key_index(self@, name@) == prev.len());
            assert(self@[key_index(self@, name@)].0 == name@);
        }
    }
}

} // verus!
