//! Interpreting PROV-N statements as RDF triples.
//!
//! A two-pass scheme: the first pass collects `prefix` declarations, the
//! second interprets the whitelisted relation keywords into a type
//! assertion plus relation and attribute triples. Unknown keywords are
//! silently skipped.

use vstd::prelude::*;
use crate::prefix_map::{seq_lookup, spec_insert, PrefixMap};
use crate::text::{
    char_suffix_start,
    chars_of,
    find_char,
    lemma_char_suffix,
    slice_starts_with,
    spec_find,
    spec_lines,
    spec_split_char,
    spec_split_ws,
    spec_trim,
    spec_trim_char,
    split_char,
    split_lines,
    split_ws,
    starts_with,
    string_of,
    subvec,
    trim_char_vec,
};
use crate::parser::common::trim_to_vec;
use crate::types::{models_view, plain_model, ObjectType, OwnedTriple, SubjectType, TripleModel};

verus! {

/// The view of a list of string pairs.
pub open spec fn pairs_view(s: Seq<(String, String)>) -> Seq<(Seq<char>, Seq<char>)> {
    s.map_values(|p: (String, String)| (p.0@, p.1@))
}

/// The view of a list of strings.
pub open spec fn strs_view(s: Seq<String>) -> Seq<Seq<char>> {
    s.map_values(|x: String| x@)
}

/// The name and IRI declared by a PROV-N line `prefix name <iri>`: the
/// second and third whitespace-separated words, angle brackets trimmed
/// off the IRI.
pub open spec fn spec_parse_provn_prefix(line: Seq<char>) -> Option<(Seq<char>, Seq<char>)> {
    let t = spec_trim(line);
    if !starts_with(t, "prefix"@) {
        None
    } else {
        let parts = spec_split_ws(t);
        if parts.len() < 3 {
            None
        } else {
            Some((parts[1], spec_trim_char(spec_trim_char(parts[2], '<'), '>')))
        }
    }
}

/// Parses a PROV-N `prefix` declaration.
pub fn parse_provn_prefix(line: &[char]) -> (r: Option<(String, String)>)
    ensures
        match r {
            Some(p) => spec_parse_provn_prefix(line@) == Some((p.0@, p.1@)),
            None => spec_parse_provn_prefix(line@) is None,
        },
{
    let t = trim_to_vec(line);
    let pat = chars_of("prefix");
    if !slice_starts_with(t.as_slice(), 0, pat.as_slice()) {
        return None;
    }
    let parts = split_ws(t.as_slice());
    let ghost dv = parts.deep_view();
    if parts.len() < 3 {
        return None;
    }
    proof {
        assert(dv[1] == parts@[1].deep_view());
        assert(parts@[1].deep_view() =~= parts@[1]@);
        assert(dv[2] == parts@[2].deep_view());
        assert(parts@[2].deep_view() =~= parts@[2]@);
    }
    let name = string_of(parts[1].as_slice());
    let iri_vec = trim_char_vec(trim_char_vec(parts[2].as_slice(), '<').as_slice(), '>');
    Some((name, string_of(iri_vec.as_slice())))
}

/// A qualified name expanded against the prefix map: angle brackets
/// trimmed off a full IRI, a known prefix replaced by its namespace,
/// anything else unchanged.
pub open spec fn spec_expand_qname(q: Seq<char>, pm: Seq<(Seq<char>, Seq<char>)>) -> Seq<char> {
    if q.len() >= 1 && q[0] == '<' && q[q.len() - 1] == '>' {
        spec_trim_char(spec_trim_char(q, '<'), '>')
    } else {
        let c = spec_find(q, ':');
        if c < q.len() {
            match seq_lookup(pm, q.subrange(0, c)) {
                Some(ns) => ns + q.subrange(c + 1, q.len() as int),
                None => q,
            }
        } else {
            q
        }
    }
}

/// Expands a qualified name.
pub fn expand_qname(qname: &[char], prefixes: &PrefixMap) -> (r: String)
    ensures
        r@ == spec_expand_qname(qname@, prefixes@),
{
    let n = qname.len();
    if n >= 1 && qname[0] == '<' && qname[n - 1] == '>' {
        let inner = trim_char_vec(trim_char_vec(qname, '<').as_slice(), '>');
        return string_of(inner.as_slice());
    }
    proof {
        assert(qname@.skip(0) =~= qname@);
    }
    match find_char(qname, 0, ':') {
        Some(c) => {
            let pref = subvec(qname, 0, c);
            let pref_str = string_of(pref.as_slice());
            match prefixes.get(pref_str.as_str()) {
                Some(ns) => {
                    let local = subvec(qname, c + 1, n);
                    let local_str = string_of(local.as_slice());
                    let mut out = ns;
                    out.append(local_str.as_str());
                    out
                },
                None => string_of(qname),
            }
        },
        None => string_of(qname),
    }
}

/// The comma-separated arguments of a statement, commas inside square
/// brackets or double quotes not splitting; each piece trimmed, and a
/// trailing nonempty piece kept.
pub open spec fn spec_args_fold(
    s: Seq<char>,
    depth: int,
    inq: bool,
    cur: Seq<char>,
    parts: Seq<Seq<char>>,
) -> Seq<Seq<char>>
    decreases s.len(),
{
    if s.len() == 0 {
        if cur.len() > 0 {
            parts.push(spec_trim(cur))
        } else {
            parts
        }
    } else {
        let ch = s[0];
        if ch == '[' && !inq {
            spec_args_fold(s.drop_first(), depth + 1, inq, cur.push(ch), parts)
        } else if ch == ']' && !inq {
            spec_args_fold(s.drop_first(), depth - 1, inq, cur.push(ch), parts)
        } else if ch == '"' {
            spec_args_fold(s.drop_first(), depth, !inq, cur.push(ch), parts)
        } else if ch == ',' && depth == 0 && !inq {
            spec_args_fold(s.drop_first(), depth, inq, Seq::empty(), parts.push(spec_trim(cur)))
        } else {
            spec_args_fold(s.drop_first(), depth, inq, cur.push(ch), parts)
        }
    }
}

/// The arguments of one statement.
pub open spec fn spec_statement_args(s: Seq<char>) -> Seq<Seq<char>> {
    spec_args_fold(s, 0, false, Seq::empty(), Seq::empty())
}

/// Splits statement arguments at top-level commas.
pub fn parse_statement_args(args: &[char]) -> (r: Vec<String>)
    ensures
        strs_view(r@) == spec_statement_args(args@),
{
    let n = args.len();
    let mut parts: Vec<String> = Vec::new();
    let mut cur: Vec<char> = Vec::new();
    let mut depth: i128 = 0;
    let mut inq = false;
    let mut i: usize = 0;
    proof {
        assert(args@.skip(0) =~= args@);
        assert(strs_view(parts@) =~= Seq::<Seq<char>>::empty());
        assert(cur@ =~= Seq::<char>::empty());
    }
    while i < n
        invariant
            n == args@.len(),
            i <= n,
            -(i as int) <= depth <= i as int,
            spec_args_fold(args@.skip(i as int), depth as int, inq, cur@, strs_view(parts@))
                == spec_statement_args(args@),
        decreases n - i,
    {
        let ghost rem = args@.skip(i as int);
        let ghost parts0 = strs_view(parts@);
        let ghost cur0 = cur@;
        let ghost depth0 = depth as int;
        let ghost inq0 = inq;
        let c = args[i];
        proof {
            assert(rem[0] == args@[i as int]);
            assert(rem.drop_first() =~= args@.skip(i + 1));
        }
        if c == '[' && !inq {
            depth = depth + 1;
            cur.push(c);
        } else if c == ']' && !inq {
            depth = depth - 1;
            cur.push(c);
        } else if c == '"' {
            inq = !inq;
            cur.push(c);
        } else if c == ',' && depth == 0 && !inq {
            let piece_v = trim_to_vec(cur.as_slice());
            let piece = string_of(piece_v.as_slice());
            parts.push(piece);
            cur = Vec::new();
            proof {
                assert(strs_view(parts@) =~= parts0.push(spec_trim(cur0)));
                assert(cur@ =~= Seq::<char>::empty());
            }
        } else {
            cur.push(c);
        }
        i = i + 1;
        proof {
            assert(spec_args_fold(rem, depth0, inq0, cur0, parts0) == spec_args_fold(
                args@.skip(i as int),
                depth as int,
                inq,
                cur@,
                strs_view(parts@),
            ));
        }
    }
    proof {
        assert(args@.skip(n as int) =~= Seq::<char>::empty());
    }
    if cur.len() > 0 {
        let ghost parts0 = strs_view(parts@);
        let piece_v = trim_to_vec(cur.as_slice());
        let piece = string_of(piece_v.as_slice());
        parts.push(piece);
        proof {
            assert(strs_view(parts@) =~= parts0.push(spec_trim(cur@)));
        }
    }
    parts
}

/// One `name=value` attribute of an attribute list: the name expanded,
/// the value unquoted.
pub open spec fn spec_attr_pair(
    part: Seq<char>,
    pm: Seq<(Seq<char>, Seq<char>)>,
) -> Option<(Seq<char>, Seq<char>)> {
    let p = spec_trim(part);
    let e = spec_find(p, '=');
    if e < p.len() {
        Some(
            (
                spec_expand_qname(spec_trim(p.subrange(0, e)), pm),
                spec_trim_char(spec_trim(p.subrange(e + 1, p.len() as int)), '"'),
            ),
        )
    } else {
        None
    }
}

/// The attribute pairs found among comma-separated pieces.
pub open spec fn spec_collect_attrs(
    parts: Seq<Seq<char>>,
    pm: Seq<(Seq<char>, Seq<char>)>,
) -> Seq<(Seq<char>, Seq<char>)>
    decreases parts.len(),
{
    if parts.len() == 0 {
        Seq::empty()
    } else {
        match spec_attr_pair(parts[0], pm) {
            Some(p) => seq![p] + spec_collect_attrs(parts.drop_first(), pm),
            None => spec_collect_attrs(parts.drop_first(), pm),
        }
    }
}

/// The attributes of a bracketed list `[n1=v1, n2=v2, ...]`; anything
/// not of that shape yields none.
pub open spec fn spec_attributes(
    s: Seq<char>,
    pm: Seq<(Seq<char>, Seq<char>)>,
) -> Seq<(Seq<char>, Seq<char>)> {
    let t = spec_trim(s);
    if t.len() >= 1 && t[0] == '[' && t[t.len() - 1] == ']' {
        spec_collect_attrs(spec_split_char(t.subrange(1, t.len() - 1), ','), pm)
    } else {
        Seq::empty()
    }
}

/// Parses a bracketed attribute list.
pub fn parse_attributes(attrs: &[char], prefixes: &PrefixMap) -> (r: Vec<(String, String)>)
    ensures
        pairs_view(r@) == spec_attributes(attrs@, prefixes@),
{
    let t = trim_to_vec(attrs);
    let n = t.len();
    let mut out: Vec<(String, String)> = Vec::new();
    if !(n >= 1 && t[0] == '[' && t[n - 1] == ']') {
        proof {
            assert(pairs_view(out@) =~= spec_attributes(attrs@, prefixes@));
        }
        return out;
    }
    let content = subvec(t.as_slice(), 1, n - 1);
    let parts = split_char(content.as_slice(), ',');
    let ghost dv = parts.deep_view();
    let m = parts.len();
    let mut i: usize = 0;
    proof {
        assert(content@ =~= spec_trim(attrs@).subrange(1, spec_trim(attrs@).len() - 1));
        assert(dv.skip(0) =~= dv);
        assert(pairs_view(out@) =~= Seq::<(Seq<char>, Seq<char>)>::empty());
        assert(pairs_view(out@) + spec_collect_attrs(dv, prefixes@) =~= spec_collect_attrs(
            dv,
            prefixes@,
        ));
    }
    while i < m
        invariant
            m == parts@.len(),
            i <= m,
            dv == parts.deep_view(),
            spec_attributes(attrs@, prefixes@) == spec_collect_attrs(dv, prefixes@),
            spec_collect_attrs(dv, prefixes@) == pairs_view(out@) + spec_collect_attrs(
                dv.skip(i as int),
                prefixes@,
            ),
        decreases m - i,
    {
        let ghost rem = dv.skip(i as int);
        let ghost prev = pairs_view(out@);
        proof {
            assert(rem[0] == dv[i as int]);
            assert(dv[i as int] == parts@[i as int].deep_view());
            assert(parts@[i as int].deep_view() =~= parts@[i as int]@);
            assert(rem.drop_first() =~= dv.skip(i + 1));
        }
        let part = trim_to_vec(parts[i].as_slice());
        proof {
            assert(part@.skip(0) =~= part@);
        }
        let pl = part.len();
        match find_char(part.as_slice(), 0, '=') {
            Some(e) => {
                let name_v = trim_to_vec(subvec(part.as_slice(), 0, e).as_slice());
                let value_v = trim_char_vec(
                    trim_to_vec(subvec(part.as_slice(), e + 1, pl).as_slice()).as_slice(),
                    '"',
                );
                let expanded = expand_qname(name_v.as_slice(), prefixes);
                out.push((expanded, string_of(value_v.as_slice())));
                proof {
                    assert(pairs_view(out@) =~= prev.push(
                        spec_attr_pair(rem[0], prefixes@)->Some_0,
                    ));
                    assert(spec_collect_attrs(rem, prefixes@) == seq![
                        spec_attr_pair(rem[0], prefixes@)->Some_0,
                    ] + spec_collect_attrs(dv.skip(i + 1), prefixes@));
                    assert(prev + spec_collect_attrs(rem, prefixes@) =~= pairs_view(out@)
                        + spec_collect_attrs(dv.skip(i + 1), prefixes@));
                }
            },
            None => {
                proof {
                    assert(spec_attr_pair(rem[0], prefixes@) is None);
                }
            },
        }
        i = i + 1;
    }
    proof {
        assert(dv.skip(m as int) =~= Seq::<Seq<char>>::empty());
        assert(spec_collect_attrs(dv.skip(m as int), prefixes@) =~= Seq::<
            (Seq<char>, Seq<char>),
        >::empty());
        assert(pairs_view(out@) =~= pairs_view(out@) + spec_collect_attrs(
            dv.skip(m as int),
            prefixes@,
        ));
    }
    out
}

/// Builds one triple between plain terms.
pub fn create_triple(subject: &str, predicate: &str, object: &str, object_type: ObjectType) -> (r:
    OwnedTriple)
    requires
        !(object_type is Triple),
    ensures
        r.model() == plain_model(subject@, predicate@, object_type, object@),
        r.wf(),
        r.is_plain(),
{
    OwnedTriple {
        subject_type: SubjectType::NamedNode,
        subject_value: subject.to_owned(),
        predicate: predicate.to_owned(),
        object_type: object_type,
        object_value: object.to_owned(),
        object_datatype: None,
        object_language: None,
        graph: None,
        subject_triple: None,
        object_triple: None,
    }
}

/// Builds an `rdf:type` assertion.
pub fn create_type_triple(subject: &str, type_iri: &str) -> (r: OwnedTriple)
    ensures
        r.model() == plain_model(
            subject@,
            "http://www.w3.org/1999/02/22-rdf-syntax-ns#type"@,
            ObjectType::NamedNode,
            type_iri@,
        ),
        r.wf(),
        r.is_plain(),
{
    create_triple(
        subject,
        "http://www.w3.org/1999/02/22-rdf-syntax-ns#type",
        type_iri,
        ObjectType::NamedNode,
    )
}

/// The `rdf:type` predicate.
pub open spec fn rdf_type_iri() -> Seq<char> {
    "http://www.w3.org/1999/02/22-rdf-syntax-ns#type"@
}

/// What a node statement (`entity`, `activity`, `agent`) asserts: a type
/// triple for the expanded identifier, plus one literal triple per
/// attribute when an attribute list follows.
pub open spec fn spec_node_stmt(
    args: Seq<char>,
    pm: Seq<(Seq<char>, Seq<char>)>,
    type_iri: Seq<char>,
) -> Option<Seq<TripleModel>> {
    let parts = spec_statement_args(args);
    if parts.len() == 0 {
        None
    } else {
        let id = spec_expand_qname(parts[0], pm);
        let base = seq![plain_model(id, rdf_type_iri(), ObjectType::NamedNode, type_iri)];
        if parts.len() > 1 {
            Some(
                base + spec_attributes(parts[1], pm).map_values(
                    |a: (Seq<char>, Seq<char>)| plain_model(id, a.0, ObjectType::Literal, a.1),
                ),
            )
        } else {
            Some(base)
        }
    }
}

/// What a binary relation statement asserts: one triple between the two
/// expanded identifiers under the given predicate.
pub open spec fn spec_relation_stmt(
    args: Seq<char>,
    pm: Seq<(Seq<char>, Seq<char>)>,
    pred: Seq<char>,
) -> Option<Seq<TripleModel>> {
    let parts = spec_statement_args(args);
    if parts.len() < 2 {
        None
    } else {
        Some(
            seq![
                plain_model(
                    spec_expand_qname(parts[0], pm),
                    pred,
                    ObjectType::NamedNode,
                    spec_expand_qname(parts[1], pm),
                ),
            ],
        )
    }
}

/// What an `activity` statement asserts: the type triple, then start and
/// end time triples for arguments that are present and not `-`.
pub open spec fn spec_activity_stmt(args: Seq<char>, pm: Seq<(Seq<char>, Seq<char>)>) -> Option<
    Seq<TripleModel>,
> {
    let parts = spec_statement_args(args);
    if parts.len() == 0 {
        None
    } else {
        let id = spec_expand_qname(parts[0], pm);
        let base = seq![
            plain_model(id, rdf_type_iri(), ObjectType::NamedNode, "http://www.w3.org/ns/prov#Activity"@),
        ];
        let s1: Seq<TripleModel> = if parts.len() > 1 && parts[1].len() > 0 && parts[1] != "-"@ {
            seq![
                plain_model(
                    id,
                    "http://www.w3.org/ns/prov#startedAtTime"@,
                    ObjectType::Literal,
                    parts[1],
                ),
            ]
        } else {
            Seq::empty()
        };
        let s2: Seq<TripleModel> = if parts.len() > 2 && parts[2].len() > 0 && parts[2] != "-"@ {
            seq![
                plain_model(
                    id,
                    "http://www.w3.org/ns/prov#endedAtTime"@,
                    ObjectType::Literal,
                    parts[2],
                ),
            ]
        } else {
            Seq::empty()
        };
        Some(base + s1 + s2)
    }
}

/// Every triple in the list is well-formed and plain.
pub open spec fn all_plain(v: Seq<OwnedTriple>) -> bool {
    forall|i: int| 0 <= i < v.len() ==> (#[trigger] v[i]).wf() && v[i].is_plain()
}

/// Interprets a node statement.
fn node_statement(args: &[char], prefixes: &PrefixMap, type_iri: &str) -> (r: Option<Vec<OwnedTriple>>)
    ensures
        match r {
            Some(v) => spec_node_stmt(args@, prefixes@, type_iri@) == Some(models_view(v@))
                && all_plain(v@),
            None => spec_node_stmt(args@, prefixes@, type_iri@) is None,
        },
{
    let parts = parse_statement_args(args);
    let ghost pv = strs_view(parts@);
    if parts.len() == 0 {
        return None;
    }
    proof {
        assert(pv[0] == parts@[0]@);
    }
    let id = expand_qname(chars_of(parts[0].as_str()).as_slice(), prefixes);
    let mut out: Vec<OwnedTriple> = Vec::new();
    out.push(create_type_triple(id.as_str(), type_iri));
    let ghost base = seq![
        plain_model(spec_expand_qname(pv[0], prefixes@), rdf_type_iri(), ObjectType::NamedNode, type_iri@),
    ];
    proof {
        assert(models_view(out@) =~= base);
    }
    if parts.len() > 1 {
        proof {
            assert(pv[1] == parts@[1]@);
        }
        let attrs = parse_attributes(chars_of(parts[1].as_str()).as_slice(), prefixes);
        let ghost av = pairs_view(attrs@);
        let ghost mapped = spec_attributes(pv[1], prefixes@).map_values(
            |a: (Seq<char>, Seq<char>)| plain_model(
                spec_expand_qname(pv[0], prefixes@),
                a.0,
                ObjectType::Literal,
                a.1,
            ),
        );
        let m = attrs.len();
        let mut i: usize = 0;
        proof {
            assert(models_view(out@) =~= base + mapped.subrange(0, 0));
        }
        while i < m
            invariant
                m == attrs@.len(),
                i <= m,
                av == pairs_view(attrs@),
                av == spec_attributes(pv[1], prefixes@),
                mapped == av.map_values(
                    |a: (Seq<char>, Seq<char>)| plain_model(
                        spec_expand_qname(pv[0], prefixes@),
                        a.0,
                        ObjectType::Literal,
                        a.1,
                    ),
                ),
                id@ == spec_expand_qname(pv[0], prefixes@),
                base == seq![
                    plain_model(spec_expand_qname(pv[0], prefixes@), rdf_type_iri(), ObjectType::NamedNode, type_iri@),
                ],
                models_view(out@) == base + mapped.subrange(0, i as int),
                all_plain(out@),
            decreases m - i,
        {
            let ghost prev = models_view(out@);
            proof {
                assert(av[i as int] == (attrs@[i as int].0@, attrs@[i as int].1@));
            }
            let t = create_triple(
                id.as_str(),
                attrs[i].0.as_str(),
                attrs[i].1.as_str(),
                ObjectType::Literal,
            );
            out.push(t);
            i = i + 1;
            proof {
                assert(models_view(out@) =~= prev.push(mapped[i - 1]));
                assert(models_view(out@) =~= base + mapped.subrange(0, i as int));
            }
        }
        proof {
            assert(mapped.subrange(0, m as int) =~= mapped);
            assert(models_view(out@) =~= base + mapped);
        }
        Some(out)
    } else {
        Some(out)
    }
}

/// Interprets a binary relation statement.
fn relation_statement(args: &[char], prefixes: &PrefixMap, pred: &str) -> (r: Option<Vec<OwnedTriple>>)
    ensures
        match r {
            Some(v) => spec_relation_stmt(args@, prefixes@, pred@) == Some(models_view(v@))
                && all_plain(v@),
            None => spec_relation_stmt(args@, prefixes@, pred@) is None,
        },
{
    let parts = parse_statement_args(args);
    let ghost pv = strs_view(parts@);
    if parts.len() < 2 {
        return None;
    }
    proof {
        assert(pv[0] == parts@[0]@);
        assert(pv[1] == parts@[1]@);
    }
    let a = expand_qname(chars_of(parts[0].as_str()).as_slice(), prefixes);
    let b = expand_qname(chars_of(parts[1].as_str()).as_slice(), prefixes);
    let t = create_triple(a.as_str(), pred, b.as_str(), ObjectType::NamedNode);
    let mut out: Vec<OwnedTriple> = Vec::new();
    out.push(t);
    proof {
        assert(models_view(out@) =~= seq![
            plain_model(
                spec_expand_qname(pv[0], prefixes@),
                pred@,
                ObjectType::NamedNode,
                spec_expand_qname(pv[1], prefixes@),
            ),
        ]);
    }
    Some(out)
}

/// Interprets an `entity` statement.
pub fn parse_entity_statement(args: &[char], prefixes: &PrefixMap) -> (r: Option<Vec<OwnedTriple>>)
    ensures
        match r {
            Some(v) => spec_node_stmt(args@, prefixes@, "http://www.w3.org/ns/prov#Entity"@)
                == Some(models_view(v@)) && all_plain(v@),
            None => spec_node_stmt(args@, prefixes@, "http://www.w3.org/ns/prov#Entity"@) is None,
        },
{
    node_statement(args, prefixes, "http://www.w3.org/ns/prov#Entity")
}

/// Interprets an `agent` statement.
pub fn parse_agent_statement(args: &[char], prefixes: &PrefixMap) -> (r: Option<Vec<OwnedTriple>>)
    ensures
        match r {
            Some(v) => spec_node_stmt(args@, prefixes@, "http://www.w3.org/ns/prov#Agent"@)
                == Some(models_view(v@)) && all_plain(v@),
            None => spec_node_stmt(args@, prefixes@, "http://www.w3.org/ns/prov#Agent"@) is None,
        },
{
    node_statement(args, prefixes, "http://www.w3.org/ns/prov#Agent")
}

/// Interprets an `activity` statement.
pub fn parse_activity_statement(args: &[char], prefixes: &PrefixMap) -> (r: Option<Vec<OwnedTriple>>)
    ensures
        match r {
            Some(v) => spec_activity_stmt(args@, prefixes@) == Some(models_view(v@)) && all_plain(
                v@,
            ),
            None => spec_activity_stmt(args@, prefixes@) is None,
        },
{
    let parts = parse_statement_args(args);
    let ghost pv = strs_view(parts@);
    if parts.len() == 0 {
        return None;
    }
    proof {
        assert(pv[0] == parts@[0]@);
    }
    let id = expand_qname(chars_of(parts[0].as_str()).as_slice(), prefixes);
    let mut out: Vec<OwnedTriple> = Vec::new();
    out.push(create_type_triple(id.as_str(), "http://www.w3.org/ns/prov#Activity"));
    let ghost base = seq![
        plain_model(
            spec_expand_qname(pv[0], prefixes@),
            rdf_type_iri(),
            ObjectType::NamedNode,
            "http://www.w3.org/ns/prov#Activity"@,
        ),
    ];
    proof {
        assert(models_view(out@) =~= base);
    }
    if parts.len() > 1 && !parts[1].as_str().is_empty() && !crate::text::str_eq(
        parts[1].as_str(),
        "-",
    ) {
        proof {
            assert(pv[1] == parts@[1]@);
        }
        let ghost prev = models_view(out@);
        out.push(
            create_triple(
                id.as_str(),
                "http://www.w3.org/ns/prov#startedAtTime",
                parts[1].as_str(),
                ObjectType::Literal,
            ),
        );
        proof {
            assert(models_view(out@) =~= prev.push(
                plain_model(
                    spec_expand_qname(pv[0], prefixes@),
                    "http://www.w3.org/ns/prov#startedAtTime"@,
                    ObjectType::Literal,
                    pv[1],
                ),
            ));
        }
    }
    if parts.len() > 2 && !parts[2].as_str().is_empty() && !crate::text::str_eq(
        parts[2].as_str(),
        "-",
    ) {
        proof {
            assert(pv[2] == parts@[2]@);
        }
        let ghost prev = models_view(out@);
        out.push(
            create_triple(
                id.as_str(),
                "http://www.w3.org/ns/prov#endedAtTime",
                parts[2].as_str(),
                ObjectType::Literal,
            ),
        );
        proof {
            assert(models_view(out@) =~= prev.push(
                plain_model(
                    spec_expand_qname(pv[0], prefixes@),
                    "http://www.w3.org/ns/prov#endedAtTime"@,
                    ObjectType::Literal,
                    pv[2],
                ),
            ));
        }
    }
    proof {
        if parts@.len() > 1 {
            assert(pv[1] == parts@[1]@);
        }
        if parts@.len() > 2 {
            assert(pv[2] == parts@[2]@);
        }
        assert(models_view(out@) =~= spec_activity_stmt(args@, prefixes@)->Some_0);
    }
    Some(out)
}

/// Interprets a `wasGeneratedBy` statement.
pub fn parse_was_generated_by_statement(args: &[char], prefixes: &PrefixMap) -> (r: Option<
    Vec<OwnedTriple>,
>)
    ensures
        match r {
            Some(v) => spec_relation_stmt(args@, prefixes@, "http://www.w3.org/ns/prov#wasGeneratedBy"@)
                == Some(models_view(v@)) && all_plain(v@),
            None => spec_relation_stmt(args@, prefixes@, "http://www.w3.org/ns/prov#wasGeneratedBy"@) is None,
        },
{
    relation_statement(args, prefixes, "http://www.w3.org/ns/prov#wasGeneratedBy")
}

/// Interprets a `used` statement.
pub fn parse_used_statement(args: &[char], prefixes: &PrefixMap) -> (r: Option<Vec<OwnedTriple>>)
    ensures
        match r {
            Some(v) => spec_relation_stmt(args@, prefixes@, "http://www.w3.org/ns/prov#used"@)
                == Some(models_view(v@)) && all_plain(v@),
            None => spec_relation_stmt(args@, prefixes@, "http://www.w3.org/ns/prov#used"@) is None,
        },
{
    relation_statement(args, prefixes, "http://www.w3.org/ns/prov#used")
}

/// Interprets a `wasAssociatedWith` statement.
pub fn parse_was_associated_with_statement(args: &[char], prefixes: &PrefixMap) -> (r: Option<
    Vec<OwnedTriple>,
>)
    ensures
        match r {
            Some(v) => spec_relation_stmt(args@, prefixes@, "http://www.w3.org/ns/prov#wasAssociatedWith"@)
                == Some(models_view(v@)) && all_plain(v@),
            None => spec_relation_stmt(args@, prefixes@, "http://www.w3.org/ns/prov#wasAssociatedWith"@) is None,
        },
{
    relation_statement(args, prefixes, "http://www.w3.org/ns/prov#wasAssociatedWith")
}

/// Interprets a `wasAttributedTo` statement.
pub fn parse_was_attributed_to_statement(args: &[char], prefixes: &PrefixMap) -> (r: Option<
    Vec<OwnedTriple>,
>)
    ensures
        match r {
            Some(v) => spec_relation_stmt(args@, prefixes@, "http://www.w3.org/ns/prov#wasAttributedTo"@)
                == Some(models_view(v@)) && all_plain(v@),
            None => spec_relation_stmt(args@, prefixes@, "http://www.w3.org/ns/prov#wasAttributedTo"@) is None,
        },
{
    relation_statement(args, prefixes, "http://www.w3.org/ns/prov#wasAttributedTo")
}

/// Interprets a `wasDerivedFrom` statement.
pub fn parse_was_derived_from_statement(args: &[char], prefixes: &PrefixMap) -> (r: Option<
    Vec<OwnedTriple>,
>)
    ensures
        match r {
            Some(v) => spec_relation_stmt(args@, prefixes@, "http://www.w3.org/ns/prov#wasDerivedFrom"@)
                == Some(models_view(v@)) && all_plain(v@),
            None => spec_relation_stmt(args@, prefixes@, "http://www.w3.org/ns/prov#wasDerivedFrom"@) is None,
        },
{
    relation_statement(args, prefixes, "http://www.w3.org/ns/prov#wasDerivedFrom")
}

/// Interprets a `wasInformedBy` statement.
pub fn parse_was_informed_by_statement(args: &[char], prefixes: &PrefixMap) -> (r: Option<
    Vec<OwnedTriple>,
>)
    ensures
        match r {
            Some(v) => spec_relation_stmt(args@, prefixes@, "http://www.w3.org/ns/prov#wasInformedBy"@)
                == Some(models_view(v@)) && all_plain(v@),
            None => spec_relation_stmt(args@, prefixes@, "http://www.w3.org/ns/prov#wasInformedBy"@) is None,
        },
{
    relation_statement(args, prefixes, "http://www.w3.org/ns/prov#wasInformedBy")
}

/// Interprets an `actedOnBehalfOf` statement.
pub fn parse_acted_on_behalf_of_statement(args: &[char], prefixes: &PrefixMap) -> (r: Option<
    Vec<OwnedTriple>,
>)
    ensures
        match r {
            Some(v) => spec_relation_stmt(args@, prefixes@, "http://www.w3.org/ns/prov#actedOnBehalfOf"@)
                == Some(models_view(v@)) && all_plain(v@),
            None => spec_relation_stmt(args@, prefixes@, "http://www.w3.org/ns/prov#actedOnBehalfOf"@) is None,
        },
{
    relation_statement(args, prefixes, "http://www.w3.org/ns/prov#actedOnBehalfOf")
}

/// What one PROV-N statement asserts: the relation keyword before the
/// opening parenthesis picks the interpreter, an unknown keyword asserts
/// nothing, and a statement without a parenthesis is an error.
pub open spec fn spec_provn_statement(
    s: Seq<char>,
    pm: Seq<(Seq<char>, Seq<char>)>,
) -> Result<Option<Seq<TripleModel>>, ()> {
    let t0 = spec_trim(s);
    let t = t0.subrange(0, char_suffix_start(t0, ')'));
    let p = spec_find(t, '(');
    if p >= t.len() {
        Err(())
    } else {
        let rel = spec_trim(t.subrange(0, p));
        let args = spec_trim(t.subrange(p + 1, t.len() as int));
        if rel == "entity"@ {
            Ok(spec_node_stmt(args, pm, "http://www.w3.org/ns/prov#Entity"@))
        } else if rel == "activity"@ {
            Ok(spec_activity_stmt(args, pm))
        } else if rel == "agent"@ {
            Ok(spec_node_stmt(args, pm, "http://www.w3.org/ns/prov#Agent"@))
        } else if rel == "wasGeneratedBy"@ {
            Ok(spec_relation_stmt(args, pm, "http://www.w3.org/ns/prov#wasGeneratedBy"@))
        } else if rel == "used"@ {
            Ok(spec_relation_stmt(args, pm, "http://www.w3.org/ns/prov#used"@))
        } else if rel == "wasAssociatedWith"@ {
            Ok(spec_relation_stmt(args, pm, "http://www.w3.org/ns/prov#wasAssociatedWith"@))
        } else if rel == "wasAttributedTo"@ {
            Ok(spec_relation_stmt(args, pm, "http://www.w3.org/ns/prov#wasAttributedTo"@))
        } else if rel == "wasDerivedFrom"@ {
            Ok(spec_relation_stmt(args, pm, "http://www.w3.org/ns/prov#wasDerivedFrom"@))
        } else if rel == "wasInformedBy"@ {
            Ok(spec_relation_stmt(args, pm, "http://www.w3.org/ns/prov#wasInformedBy"@))
        } else if rel == "actedOnBehalfOf"@ {
            Ok(spec_relation_stmt(args, pm, "http://www.w3.org/ns/prov#actedOnBehalfOf"@))
        } else {
            Ok(None)
        }
    }
}

/// Interprets one PROV-N statement into triples.
pub fn parse_provn_statement(statement: &[char], prefixes: &PrefixMap) -> (r: Result<
    Option<Vec<OwnedTriple>>,
    String,
>)
    ensures
        match r {
            Ok(Some(v)) => spec_provn_statement(statement@, prefixes@) == Result::<
                Option<Seq<TripleModel>>,
                (),
            >::Ok(Some(models_view(v@))) && all_plain(v@),
            Ok(None) => spec_provn_statement(statement@, prefixes@) == Result::<
                Option<Seq<TripleModel>>,
                (),
            >::Ok(None),
            Err(_) => spec_provn_statement(statement@, prefixes@) is Err,
        },
{
    let t0 = trim_to_vec(statement);
    let n0 = t0.len();
    proof {
        lemma_char_suffix(t0@, ')');
    }
    let mut end: usize = n0;
    while end > 0 && t0[end - 1] == ')'
        invariant
            n0 == t0@.len(),
            end <= n0,
            forall|j: int| end <= j < n0 ==> t0@[j] == ')',
            end >= char_suffix_start(t0@, ')'),
        decreases end,
    {
        end = end - 1;
        proof {
            lemma_char_suffix(t0@, ')');
            if end < char_suffix_start(t0@, ')') {
                assert(t0@[char_suffix_start(t0@, ')') - 1] != ')');
                assert(false);
            }
        }
    }
    proof {
        lemma_char_suffix(t0@, ')');
        if end > char_suffix_start(t0@, ')') {
            assert(t0@[end - 1] == ')');
        }
        assert(end == char_suffix_start(t0@, ')'));
    }
    let t = subvec(t0.as_slice(), 0, end);
    proof {
        assert(t@.skip(0) =~= t@);
    }
    let p = match find_char(t.as_slice(), 0, '(') {
        Some(i) => i,
        None => {
            return Err(String::from_str("invalid statement: no argument list"));
        },
    };
    let rel_v = trim_to_vec(subvec(t.as_slice(), 0, p).as_slice());
    let rel = string_of(rel_v.as_slice());
    let tn = t.len();
    let args_v = trim_to_vec(subvec(t.as_slice(), p + 1, tn).as_slice());
    let r: Option<Vec<OwnedTriple>> = if crate::text::str_eq(rel.as_str(), "entity") {
        parse_entity_statement(args_v.as_slice(), prefixes)
    } else if crate::text::str_eq(rel.as_str(), "activity") {
        parse_activity_statement(args_v.as_slice(), prefixes)
    } else if crate::text::str_eq(rel.as_str(), "agent") {
        parse_agent_statement(args_v.as_slice(), prefixes)
    } else if crate::text::str_eq(rel.as_str(), "wasGeneratedBy") {
        parse_was_generated_by_statement(args_v.as_slice(), prefixes)
    } else if crate::text::str_eq(rel.as_str(), "used") {
        parse_used_statement(args_v.as_slice(), prefixes)
    } else if crate::text::str_eq(rel.as_str(), "wasAssociatedWith") {
        parse_was_associated_with_statement(args_v.as_slice(), prefixes)
    } else if crate::text::str_eq(rel.as_str(), "wasAttributedTo") {
        parse_was_attributed_to_statement(args_v.as_slice(), prefixes)
    } else if crate::text::str_eq(rel.as_str(), "wasDerivedFrom") {
        parse_was_derived_from_statement(args_v.as_slice(), prefixes)
    } else if crate::text::str_eq(rel.as_str(), "wasInformedBy") {
        parse_was_informed_by_statement(args_v.as_slice(), prefixes)
    } else if crate::text::str_eq(rel.as_str(), "actedOnBehalfOf") {
        parse_acted_on_behalf_of_statement(args_v.as_slice(), prefixes)
    } else {
        None
    };
    Ok(r)
}

/// The prefix map collected by the first pass over the lines.
pub open spec fn spec_provn_prefixes(
    lines: Seq<Seq<char>>,
    acc: Seq<(Seq<char>, Seq<char>)>,
) -> Seq<(Seq<char>, Seq<char>)>
    decreases lines.len(),
{
    if lines.len() == 0 {
        acc
    } else {
        let acc2 = match spec_parse_provn_prefix(lines[0]) {
            Some(p) => spec_insert(acc, p.0, p.1),
            None => acc,
        };
        spec_provn_prefixes(lines.drop_first(), acc2)
    }
}

/// Whether the second pass skips a line: blank lines, comments, document
/// markers and prefix declarations.
pub open spec fn spec_provn_skip(line: Seq<char>) -> bool {
    let t = spec_trim(line);
    ||| t.len() == 0
    ||| starts_with(t, "//"@)
    ||| starts_with(t, "document"@)
    ||| starts_with(t, "endDocument"@)
    ||| starts_with(t, "prefix"@)
}

/// The triples asserted by the statement lines, in order; the first
/// malformed statement is an error.
pub open spec fn spec_provn_body(
    lines: Seq<Seq<char>>,
    pm: Seq<(Seq<char>, Seq<char>)>,
) -> Result<Seq<TripleModel>, ()>
    decreases lines.len(),
{
    if lines.len() == 0 {
        Ok(Seq::empty())
    } else if spec_provn_skip(lines[0]) {
        spec_provn_body(lines.drop_first(), pm)
    } else {
        match spec_provn_statement(lines[0], pm) {
            Err(e) => Err(()),
            Ok(opt) => match spec_provn_body(lines.drop_first(), pm) {
                Err(e) => Err(()),
                Ok(rest) => match opt {
                    Some(v) => Ok(v + rest),
                    None => Ok(rest),
                },
            },
        }
    }
}


/// The triples the lenient pass asserts: statement lines interpreted in
/// order against the collected prefixes, skipped and malformed lines
/// contributing nothing.
pub open spec fn spec_provn_lenient_models(
    lines: Seq<Seq<char>>,
    pm: Seq<(Seq<char>, Seq<char>)>,
) -> Seq<TripleModel>
    decreases lines.len(),
{
    if lines.len() == 0 {
        Seq::empty()
    } else if spec_provn_skip(lines[0]) {
        spec_provn_lenient_models(lines.drop_first(), pm)
    } else {
        (match spec_provn_statement(lines[0], pm) {
            Ok(opt) => match opt {
                Some(v) => v,
                None => Seq::<TripleModel>::empty(),
            },
            Err(_) => Seq::<TripleModel>::empty(),
        }) + spec_provn_lenient_models(lines.drop_first(), pm)
    }
}

/// The 1-based lines of the malformed statements, in order, `idx` the
/// line number of the first line.
pub open spec fn spec_provn_failing_lines(
    lines: Seq<Seq<char>>,
    pm: Seq<(Seq<char>, Seq<char>)>,
    idx: int,
) -> Seq<int>
    decreases lines.len(),
{
    if lines.len() == 0 {
        Seq::empty()
    } else if spec_provn_skip(lines[0]) {
        spec_provn_failing_lines(lines.drop_first(), pm, idx + 1)
    } else {
        (if spec_provn_statement(lines[0], pm) is Err {
            seq![idx]
        } else {
            Seq::<int>::empty()
        }) + spec_provn_failing_lines(lines.drop_first(), pm, idx + 1)
    }
}

/// Parses PROV-N text: collects the declared prefixes, then interprets
/// every statement line; the first malformed statement is reported as an
/// error.
pub fn parse_for_estimation(input: &str) -> (r: Result<(Vec<OwnedTriple>, PrefixMap), String>)
    ensures
        match r {
            Ok(p) => p.1.wf() && p.1@ == spec_provn_prefixes(spec_lines(input@), Seq::empty())
                && spec_provn_body(spec_lines(input@), p.1@) == Result::<Seq<TripleModel>, ()>::Ok(
                models_view(p.0@),
            ) && all_plain(p.0@),
            Err(_) => spec_provn_body(
                spec_lines(input@),
                spec_provn_prefixes(spec_lines(input@), Seq::empty()),
            ) is Err,
        },
{
    let chars = chars_of(input);
    let lines = split_lines(chars.as_slice());
    let ghost lv = lines.deep_view();
    let n = lines.len();
    let mut prefixes = PrefixMap::new();
    let mut i: usize = 0;
    proof {
        assert(lv.skip(0) =~= lv);
    }
    while i < n
        invariant
            n == lv.len(),
            lv == lines.deep_view(),
            i <= n,
            prefixes.wf(),
            spec_provn_prefixes(lv, Seq::empty()) == spec_provn_prefixes(
                lv.skip(i as int),
                prefixes@,
            ),
        decreases n - i,
    {
        let ghost rem = lv.skip(i as int);
        let ghost pm0 = prefixes@;
        let line = &lines[i];
        proof {
            assert(line.deep_view() =~= line@);
            assert(rem[0] == lv[i as int]);
            assert(rem.drop_first() =~= lv.skip(i + 1));
        }
        match parse_provn_prefix(line.as_slice()) {
            Some(p) => {
                prefixes.insert(p.0, p.1);
            },
            None => {},
        }
        i = i + 1;
        proof {
            assert(spec_provn_prefixes(rem, pm0) == spec_provn_prefixes(
                lv.skip(i as int),
                prefixes@,
            ));
        }
    }
    proof {
        assert(lv.skip(n as int) =~= Seq::<Seq<char>>::empty());
    }
    let mut triples: Vec<OwnedTriple> = Vec::new();
    let mut k: usize = 0;
    proof {
        assert(lv.skip(0) =~= lv);
        assert(models_view(triples@) =~= Seq::<TripleModel>::empty());
    }
    while k < n
        invariant
            n == lv.len(),
            lv == lines.deep_view(),
            k <= n,
            prefixes.wf(),
            prefixes@ == spec_provn_prefixes(lv, Seq::empty()),
            lv == spec_lines(input@),
            all_plain(triples@),
            (match spec_provn_body(lv.skip(k as int), prefixes@) {
                Ok(rest) => spec_provn_body(lv, prefixes@) == Result::<Seq<TripleModel>, ()>::Ok(
                    models_view(triples@) + rest,
                ),
                Err(e) => spec_provn_body(lv, prefixes@) is Err,
            }),
        decreases n - k,
    {
        let ghost rem = lv.skip(k as int);
        let ghost prev = models_view(triples@);
        let line = &lines[k];
        proof {
            assert(line.deep_view() =~= line@);
            assert(rem[0] == lv[k as int]);
            assert(rem.drop_first() =~= lv.skip(k + 1));
        }
        let t = trim_to_vec(line.as_slice());
        let skip_line = t.len() == 0 || {
            let sl = t.as_slice();
            slice_starts_with(sl, 0, chars_of("//").as_slice()) || slice_starts_with(
                sl,
                0,
                chars_of("document").as_slice(),
            ) || slice_starts_with(sl, 0, chars_of("endDocument").as_slice())
                || slice_starts_with(sl, 0, chars_of("prefix").as_slice())
        };
        if !skip_line {
            proof {
                assert(!spec_provn_skip(rem[0]));
            }
            match parse_provn_statement(line.as_slice(), &prefixes) {
                Ok(Some(mut v)) => {
                    let ghost vv = models_view(v@);
                    let ghost wfv = v@;
                    triples.append(&mut v);
                    proof {
                        assert(models_view(triples@) =~= prev + vv);
                        assert forall|j: int|
                            0 <= j < triples@.len() implies (#[trigger] triples@[j]).wf()
                            && triples@[j].is_plain() by {
                            if j >= prev.len() {
                                assert(triples@[j] == wfv[j - prev.len()]);
                                assert(wfv[j - prev.len()].wf() && wfv[j - prev.len()].is_plain());
                            }
                        }
                        let next = spec_provn_body(lv.skip(k + 1), prefixes@);
                        match next {
                            Ok(rest2) => {
                                assert(spec_provn_body(rem, prefixes@) == Result::<
                                    Seq<TripleModel>,
                                    (),
                                >::Ok(vv + rest2));
                                assert(prev + (vv + rest2) =~= (prev + vv) + rest2);
                            },
                            Err(e2) => {
                                assert(spec_provn_body(rem, prefixes@) is Err);
                            },
                        }
                    }
                },
                Ok(None) => {
                    proof {
                        assert(spec_provn_statement(rem[0], prefixes@) == Result::<
                            Option<Seq<TripleModel>>,
                            (),
                        >::Ok(None));
                        assert(rem.drop_first() == lv.skip(k + 1));
                        let next = spec_provn_body(lv.skip(k + 1), prefixes@);
                        match next {
                            Ok(r2) => {
                                assert(spec_provn_body(rem, prefixes@) == Result::<
                                    Seq<TripleModel>,
                                    (),
                                >::Ok(r2));
                            },
                            Err(e2) => {
                                assert(spec_provn_body(rem, prefixes@) is Err);
                            },
                        }
                    }
                },
                Err(e) => {
                    proof {
                        assert(spec_provn_body(rem, prefixes@) is Err);
                        assert(spec_provn_body(lv, prefixes@) is Err);
                    }
                    return Err(e);
                },
            }
        } else {
            proof {
                assert(spec_provn_skip(rem[0]));
                assert(spec_provn_body(rem, prefixes@) == spec_provn_body(
                    lv.skip(k + 1),
                    prefixes@,
                ));
            }
        }
        k = k + 1;
    }
    proof {
        assert(lv.skip(n as int) =~= Seq::<Seq<char>>::empty());
        assert(spec_provn_body(lv.skip(n as int), prefixes@) == Result::<Seq<TripleModel>, ()>::Ok(
            Seq::<TripleModel>::empty(),
        ));
        assert(models_view(triples@) + Seq::<TripleModel>::empty() =~= models_view(triples@));
        assert(spec_lines(input@) == lv);
    }
    Ok((triples, prefixes))
}

} // verus!
