//! Filtering triples by subject, predicate and object patterns.
//!
//! A pattern wrapped in angle brackets is used verbatim as an IRI, a
//! pattern that already looks like an absolute IRI is used as it stands,
//! and a pattern holding a colon has its left segment looked up in the
//! prefix map. An unknown prefix leaves the pattern unexpanded, so it
//! degrades to a non-match instead of erroring.

use vstd::prelude::*;
use crate::prefix_map::{seq_lookup, PrefixMap};
use crate::text::{chars_of, find_char, slice_starts_with, spec_find, starts_with, str_eq, string_of, subvec};
use crate::types::OwnedTriple;

verus! {

/// A pattern expanded against the prefix map: angle brackets stripped, an
/// absolute IRI kept, a known prefix replaced by its namespace, anything
/// else returned unchanged.
pub open spec fn spec_expand(name: Seq<char>, pm: Seq<(Seq<char>, Seq<char>)>) -> Seq<char> {
    if name.len() >= 2 && name[0] == '<' && name[name.len() - 1] == '>' {
        name.subrange(1, name.len() - 1)
    } else if starts_with(name, "http"@) {
        name
    } else {
        let c = spec_find(name, ':');
        if c < name.len() {
            match seq_lookup(pm, name.subrange(0, c)) {
                Some(ns) => ns + name.subrange(c + 1, name.len() as int),
                None => name,
            }
        } else {
            name
        }
    }
}

/// The criteria a triple is held against.
#[derive(Debug)]
pub struct TripleFilter {
    pub subject_filter: Option<String>,
    pub predicate_filter: Option<String>,
    pub object_filter: Option<String>,
}

/// Whether `t` meets every pattern of `f` that is set: subjects and
/// predicates must equal the expanded pattern, objects may equal either
/// the raw pattern (a literal) or the expanded one (an IRI).
pub open spec fn spec_matches(
    t: OwnedTriple,
    f: TripleFilter,
    pm: Seq<(Seq<char>, Seq<char>)>,
) -> bool {
    &&& (match f.subject_filter {
        Some(sf) => t.subject_value@ == spec_expand(sf@, pm),
        None => true,
    })
    &&& (match f.predicate_filter {
        Some(pf) => t.predicate@ == spec_expand(pf@, pm),
        None => true,
    })
    &&& (match f.object_filter {
        Some(of) => t.object_value@ == of@ || t.object_value@ == spec_expand(of@, pm),
        None => true,
    })
}

impl TripleFilter {
    /// A filter holding copies of the given patterns.
    pub fn new(
        subject_filter: Option<&str>,
        predicate_filter: Option<&str>,
        object_filter: Option<&str>,
    ) -> (r: Self)
        ensures
            (match (r.subject_filter, subject_filter) {
                (Some(a), Some(b)) => a@ == b@,
                (None, None) => true,
                _ => false,
            }),
            (match (r.predicate_filter, predicate_filter) {
                (Some(a), Some(b)) => a@ == b@,
                (None, None) => true,
                _ => false,
            }),
            (match (r.object_filter, object_filter) {
                (Some(a), Some(b)) => a@ == b@,
                (None, None) => true,
                _ => false,
            }),
    {
        TripleFilter {
            subject_filter: copy_pattern(subject_filter),
            predicate_filter: copy_pattern(predicate_filter),
            object_filter: copy_pattern(object_filter),
        }
    }

    /// Whether no pattern is set.
    pub open spec fn spec_is_empty(&self) -> bool {
        self.subject_filter is None && self.predicate_filter is None && self.object_filter is None
    }

    /// Whether no pattern is set.
    pub fn is_empty(&self) -> (r: bool)
        ensures
            r == self.spec_is_empty(),
    {
        self.subject_filter.is_none() && self.predicate_filter.is_none()
            && self.object_filter.is_none()
    }

    /// Expands a pattern against the prefix map.
    pub fn expand_prefixed_name(&self, name: &str, prefixes: &PrefixMap) -> (r: String)
        ensures
            r@ == spec_expand(name@, prefixes@),
    {
        let v = chars_of(name);
        let n = v.len();
        if n >= 2 && v[0] == '<' && v[n - 1] == '>' {
            let inner = subvec(v.as_slice(), 1, n - 1);
            return string_of(inner.as_slice());
        }
        let http = chars_of("http");
        if slice_starts_with(v.as_slice(), 0, http.as_slice()) {
            return string_of(v.as_slice());
        }
        proof {
            assert(v@.skip(0) =~= v@);
        }
        match find_char(v.as_slice(), 0, ':') {
            Some(c) => {
                let pref = subvec(v.as_slice(), 0, c);
                let pref_str = string_of(pref.as_slice());
                match prefixes.get(pref_str.as_str()) {
                    Some(ns) => {
                        let local = subvec(v.as_slice(), c + 1, n);
                        let local_str = string_of(local.as_slice());
                        let mut out = ns;
                        out.append(local_str.as_str());
                        out
                    },
                    None => string_of(v.as_slice()),
                }
            },
            None => string_of(v.as_slice()),
        }
    }

    /// Whether the subject of `t` meets the pattern.
    pub fn matches_subject(&self, triple: &OwnedTriple, filter: &str, prefixes: &PrefixMap) -> (r:
        bool)
        ensures
            r == (triple.subject_value@ == spec_expand(filter@, prefixes@)),
    {
        let expanded = self.expand_prefixed_name(filter, prefixes);
        str_eq(triple.subject_value.as_str(), expanded.as_str())
    }

    /// Whether the predicate of `t` meets the pattern.
    pub fn matches_predicate(&self, triple: &OwnedTriple, filter: &str, prefixes: &PrefixMap) -> (r:
        bool)
        ensures
            r == (triple.predicate@ == spec_expand(filter@, prefixes@)),
    {
        let expanded = self.expand_prefixed_name(filter, prefixes);
        str_eq(triple.predicate.as_str(), expanded.as_str())
    }

    /// Whether the object of `t` meets the pattern, first as a raw literal,
    /// then in expanded form.
    pub fn matches_object(&self, triple: &OwnedTriple, filter: &str, prefixes: &PrefixMap) -> (r:
        bool)
        ensures
            r == (triple.object_value@ == filter@ || triple.object_value@ == spec_expand(
                filter@,
                prefixes@,
            )),
    {
        if str_eq(triple.object_value.as_str(), filter) {
            return true;
        }
        let expanded = self.expand_prefixed_name(filter, prefixes);
        str_eq(triple.object_value.as_str(), expanded.as_str())
    }

    /// Whether `t` meets every pattern that is set.
    pub fn matches_triple(&self, triple: &OwnedTriple, prefixes: &PrefixMap) -> (r: bool)
        ensures
            r == spec_matches(*triple, *self, prefixes@),
    {
        match &self.subject_filter {
            Some(sf) => {
                if !self.matches_subject(triple, sf.as_str(), prefixes) {
                    return false;
                }
            },
            None => {},
        }
        match &self.predicate_filter {
            Some(pf) => {
                if !self.matches_predicate(triple, pf.as_str(), prefixes) {
                    return false;
                }
            },
            None => {},
        }
        match &self.object_filter {
            Some(of) => {
                if !self.matches_object(triple, of.as_str(), prefixes) {
                    return false;
                }
            },
            None => {},
        }
        true
    }

    /// Keeps the triples that meet every set pattern, in order. With no
    /// patterns set this is the identity: the input comes back unchanged,
    /// same order and same members.
    pub fn filter_triples(&self, triples: &[OwnedTriple], prefixes: &PrefixMap) -> (r: Vec<
        OwnedTriple,
    >)
        ensures
            self.spec_is_empty() ==> r@ =~= triples@,
            r@ =~= triples@.filter(
                (|t: OwnedTriple| spec_matches(t, *self, prefixes@)),
            ),
    {
        let ghost pred = (|t: OwnedTriple| spec_matches(t, *self, prefixes@));
        if self.is_empty() {
            let r = clone_triples(triples);
            proof {
                lemma_filter_all(triples@, pred);
            }
            return r;
        }
        let n = triples.len();
        let mut r: Vec<OwnedTriple> = Vec::new();
        let mut i: usize = 0;
        proof {
            reveal(Seq::filter);
            assert(triples@.subrange(0, 0) =~= Seq::<OwnedTriple>::empty());
            assert(r@ =~= triples@.subrange(0, 0).filter(pred));
        }
        while i < n
            invariant
                n == triples@.len(),
                i <= n,
                pred == (|t: OwnedTriple| spec_matches(t, *self, prefixes@)),
                r@ == triples@.subrange(0, i as int).filter(pred),
            decreases n - i,
        {
            let ghost prefix_old = triples@.subrange(0, i as int);
            let ghost prefix_new = triples@.subrange(0, i + 1);
            proof {
                reveal(Seq::filter);
                assert(prefix_new.drop_last() =~= prefix_old);
                assert(prefix_new.last() == triples@[i as int]);
            }
            if self.matches_triple(&triples[i], prefixes) {
                r.push(triples[i].clone());
                proof {
                    reveal(Seq::filter);
                    assert(pred(prefix_new.last()));
                    assert(prefix_new.filter(pred) == prefix_old.filter(pred).push(
                        prefix_new.last(),
                    ));
                    assert(r@ =~= prefix_new.filter(pred));
                }
            } else {
                proof {
                    reveal(Seq::filter);
                    assert(!pred(prefix_new.last()));
                    assert(prefix_new.filter(pred) == prefix_old.filter(pred));
                    assert(r@ =~= prefix_new.filter(pred));
                }
            }
            i = i + 1;
        }
        proof {
            assert(triples@.subrange(0, n as int) =~= triples@);
        }
        r
    }
}

/// Filtering with an always-true predicate keeps every element.
proof fn lemma_filter_all(s: Seq<OwnedTriple>, pred: spec_fn(OwnedTriple) -> bool)
    requires
        forall|i: int| 0 <= i < s.len() ==> pred(#[trigger] s[i]),
    ensures
        s.filter(pred) =~= s,
    decreases s.len(),
{
    reveal(Seq::filter);
    if s.len() > 0 {
        lemma_filter_all(s.drop_last(), pred);
        assert(s.last() == s[s.len() - 1]);
    }
}

/// A copy of an optional borrowed pattern.
fn copy_pattern(p: Option<&str>) -> (r: Option<String>)
    ensures
        (match (r, p) {
            (Some(a), Some(b)) => a@ == b@,
            (None, None) => true,
            _ => false,
        }),
{
    match p {
        Some(s) => Some(s.to_owned()),
        None => None,
    }
}

/// An element-wise copy of a triple slice.
fn clone_triples(triples: &[OwnedTriple]) -> (r: Vec<OwnedTriple>)
    ensures
        r@ =~= triples@,
{
    let n = triples.len();
    let mut r: Vec<OwnedTriple> = Vec::new();
    let mut i: usize = 0;
    while i < n
        invariant
            n == triples@.len(),
            i <= n,
            r@ == triples@.subrange(0, i as int),
        decreases n - i,
    {
        r.push(triples[i].clone());
        i = i + 1;
        proof {
            assert(r@ =~= triples@.subrange(0, i as int));
        }
    }
    proof {
        assert(r@ =~= triples@);
    }
    r
}

} // verus!
