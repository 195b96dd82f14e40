//! Resolving IRIs against declared prefixes, and terminal geometry probes.

use vstd::prelude::*;
use crate::prefix_map::{key_index, lemma_key_index, seq_lookup, PrefixMap};
use crate::text::{chars_of, lemma_spec_find, slice_starts_with, spec_find, starts_with, string_of, subvec};
use crate::filter::spec_expand;

verus! {

/// The position of the first map entry whose namespace is a prefix of
/// `uri`, or the map's length when none covers it.
pub open spec fn first_ns_match(s: Seq<(Seq<char>, Seq<char>)>, uri: Seq<char>) -> int
    decreases s.len(),
{
    if s.len() == 0 {
        0
    } else if starts_with(uri, s[0].1) {
        0
    } else {
        1 + first_ns_match(s.drop_first(), uri)
    }
}

/// What `first_ns_match` returns: the first covering entry, or the length.
pub proof fn lemma_first_ns_match(s: Seq<(Seq<char>, Seq<char>)>, uri: Seq<char>)
    ensures
        0 <= first_ns_match(s, uri) <= s.len(),
        first_ns_match(s, uri) < s.len() ==> starts_with(uri, s[first_ns_match(s, uri)].1),
        forall|j: int| 0 <= j < first_ns_match(s, uri) ==> !starts_with(uri, s[j].1),
    decreases s.len(),
{
    if s.len() > 0 && !starts_with(uri, s[0].1) {
        lemma_first_ns_match(s.drop_first(), uri);
        assert forall|j: int| 0 <= j < first_ns_match(s, uri) implies !starts_with(uri, s[j].1) by {
            if j > 0 {
                assert(!starts_with(uri, s.drop_first()[j - 1].1));
            }
        }
    }
}

/// `uri` shortened against the first covering prefix, `name:local`, or
/// wrapped in angle brackets when no declared namespace covers it.
pub open spec fn spec_resolve(uri: Seq<char>, pm: Option<Seq<(Seq<char>, Seq<char>)>>) -> Seq<
    char,
> {
    match pm {
        Some(s) => {
            let i = first_ns_match(s, uri);
            if i < s.len() {
                s[i].0 + ":"@ + uri.skip(s[i].1.len() as int)
            } else {
                "<"@ + uri + ">"@
            }
        },
        None => "<"@ + uri + ">"@,
    }
}

/// Shortens `uri` to `name:local` using the first declared namespace that
/// covers it, or shows `<uri>` when none does.
pub fn resolve_uri_with_prefixes(uri: &str, prefixes: Option<&PrefixMap>) -> (r: String)
    ensures
        r@ == spec_resolve(uri@, match prefixes {
            Some(pm) => Some(pm@),
            None => None,
        }),
{
    let u = chars_of(uri);
    match prefixes {
        Some(pm) => {
            proof {
                lemma_first_ns_match(pm@, uri@);
            }
            let n = pm.len();
            let mut i: usize = 0;
            while i < n
                invariant
                    prefixes == Some(pm),
                    n == pm@.len(),
                    i <= n,
                    u@ == uri@,
                    forall|j: int| 0 <= j < i ==> !starts_with(uri@, (#[trigger] pm@[j]).1),
                decreases n - i,
            {
                let p = pm.pair_at(i);
                let ns = chars_of(p.1.as_str());
                if slice_starts_with(u.as_slice(), 0, ns.as_slice()) {
                    proof {
                        lemma_first_ns_match(pm@, uri@);
                        assert(uri@.subrange(0, ns@.len() as int) == ns@);
                        assert(starts_with(uri@, pm@[i as int].1));
                        if first_ns_match(pm@, uri@) < i {
                            assert(false);
                        }
                        if first_ns_match(pm@, uri@) > i {
                            assert(!starts_with(uri@, pm@[i as int].1));
                            assert(false);
                        }
                    }
                    let local = subvec(u.as_slice(), ns.len(), u.len());
                    let local_str = string_of(local.as_slice());
                    let mut out = p.0;
                    out.append(":");
                    out.append(local_str.as_str());
                    proof {
                        lemma_first_ns_match(pm@, uri@);
                        assert(first_ns_match(pm@, uri@) == i);
                        assert(out@ =~= pm@[i as int].0 + ":"@ + uri@.skip(
                            pm@[i as int].1.len() as int,
                        ));
                        assert(out@ == spec_resolve(uri@, Some(pm@)));
                    }
                    return out;
                }
                i = i + 1;
            }
            proof {
                lemma_first_ns_match(pm@, uri@);
                if first_ns_match(pm@, uri@) < pm@.len() {
                    assert(false);
                }
            }
            let mut out = String::new();
            out.append("<");
            out.append(uri);
            out.append(">");
            proof {
                assert(out@ =~= "<"@ + uri@ + ">"@);
            }
            out
        },
        None => {
            let mut out = String::new();
            out.append("<");
            out.append(uri);
            out.append(">");
            proof {
                assert(out@ =~= "<"@ + uri@ + ">"@);
            }
            out
        },
    }
}

/// A namespace-shortened IRI expands back to the IRI it came from: if some
/// declared namespace covers `uri`, the prefix names are unique, the
/// chosen prefix name holds no colon, and the shortened form neither
/// starts with `http` nor is wrapped in angle brackets, then expanding the
/// shortened form against the same map recovers `uri` exactly.
pub proof fn lemma_resolve_roundtrip(uri: Seq<char>, pm: Seq<(Seq<char>, Seq<char>)>)
    requires
        forall|i: int, j: int|
            #![trigger pm[i], pm[j]]
            0 <= i < j < pm.len() ==> pm[i].0 != pm[j].0,
        first_ns_match(pm, uri) < pm.len(),
        spec_find(pm[first_ns_match(pm, uri)].0, ':') == pm[first_ns_match(pm, uri)].0.len(),
        !starts_with(spec_resolve(uri, Some(pm)), "http"@),
        !(spec_resolve(uri, Some(pm)).len() >= 2 && spec_resolve(uri, Some(pm))[0] == '<'
            && spec_resolve(uri, Some(pm))[spec_resolve(uri, Some(pm)).len() - 1] == '>'),
    ensures
        spec_expand(spec_resolve(uri, Some(pm)), pm) == uri,
{
    let i = first_ns_match(pm, uri);
    let name = pm[i].0;
    let ns = pm[i].1;
    let local = uri.skip(ns.len() as int);
    let compact = spec_resolve(uri, Some(pm));
    lemma_first_ns_match(pm, uri);
    assert(compact == name + ":"@ + local);
    reveal_strlit(":");
    assert(compact.len() == name.len() + 1 + local.len());
    assert(compact[name.len() as int] == ':');
    lemma_spec_find(name, ':');
    lemma_spec_find(compact, ':');
    let c = spec_find(compact, ':');
    if c < name.len() {
        assert(compact[c] == name[c]);
        assert(name[c] != ':');
        assert(false);
    }
    if c > name.len() {
        assert(compact[name.len() as int] != ':');
        assert(false);
    }
    assert(c == name.len());
    assert(compact.subrange(0, c) =~= name);
    lemma_key_index(pm, name);
    let k = key_index(pm, name);
    if k < pm.len() && k != i {
        assert(pm[k].0 == name);
        if k < i {
            assert(pm[k].0 != pm[i].0);
        } else {
            assert(pm[i].0 != pm[k].0);
        }
        assert(false);
    }
    if k >= pm.len() {
        assert(pm[i].0 != name);
        assert(false);
    }
    assert(seq_lookup(pm, name) == Some(ns));
    assert(compact.subrange(c + 1, compact.len() as int) =~= local);
    assert(starts_with(uri, ns));
    assert(uri.subrange(0, ns.len() as int) == ns);
    assert(ns + local =~= uri);
}

/// Relies on terminal_size::terminal_size: probes the ambient terminal,
/// yielding its column and row counts when it is one.
#[verifier::external_body]
fn probe_terminal_size() -> (r: Option<(u16, u16)>)
{
    terminal_size::terminal_size().map(
        |wh: (terminal_size::Width, terminal_size::Height)| ((wh.0).0, (wh.1).0),
    )
}

/// The height of the ambient terminal in rows, or 24 when it cannot be
/// detected.
pub fn get_terminal_height() -> usize {
    match probe_terminal_size() {
        Some(wh) => wh.1 as usize,
        None => 24,
    }
}

/// The width of the ambient terminal in columns, or 80 when it cannot be
/// detected.
pub fn get_terminal_width() -> usize {
    match probe_terminal_size() {
        Some(wh) => wh.0 as usize,
        None => 80,
    }
}

} // verus!
