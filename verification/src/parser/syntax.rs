//! The bridge to the RDF grammar library: trusted declarations of its
//! parsed terms, and the conversion into the owned triple model.
//!
//! Grammar tokenizing itself is delegated; everything after the parsed
//! values come back is verified.

use vstd::prelude::*;
use crate::types::{opt_view, ObjectType, OwnedTriple, SubjectType};
use vstd::string::StringExecFns;

verus! {

/// The view of a list of scanned prefix pairs.
pub open spec fn prefix_pairs_view(s: Seq<(String, String)>) -> Seq<(Seq<char>, Seq<char>)> {
    s.map_values(|p: (String, String)| (p.0@, p.1@))
}

/// The view of an optional borrowed base IRI.
pub open spec fn opt_base_view(b: Option<&str>) -> Option<Seq<char>> {
    match b {
        Some(x) => Some(x@),
        None => None,
    }
}

/// What the Turtle grammar parser makes of a text under a base IRI: on
/// success its triple count and the map of consumed prefixes, else its
/// first syntax error's message. These parts depend on the text and base
/// alone; the triples are not named, because the parser draws fresh
/// random ids for anonymous blank nodes, and the prefixes are named only
/// as a map, because the parser hands its prefix list out of a hash map
/// in no input-determined order.
pub uninterp spec fn turtle_parse_of(input: Seq<char>, base: Option<Seq<char>>) -> Result<
    (int, Map<Seq<char>, Seq<char>>),
    Seq<char>,
>;

/// What the TriG grammar parser makes of a text under a base IRI: as for
/// Turtle, the quad count and prefix map or the first error.
pub uninterp spec fn trig_parse_of(input: Seq<char>, base: Option<Seq<char>>) -> Result<
    (int, Map<Seq<char>, Seq<char>>),
    Seq<char>,
>;

/// What the N-Triples grammar parser makes of a text.
pub uninterp spec fn ntriples_parse_of(input: Seq<char>) -> Result<Seq<oxrdf::Triple>, Seq<char>>;

/// What the N-Quads grammar parser makes of a text.
pub uninterp spec fn nquads_parse_of(input: Seq<char>) -> Result<Seq<oxrdf::Quad>, Seq<char>>;

/// The kind and text of a parsed triple's subject.
pub uninterp spec fn subject_of(t: oxrdf::Triple) -> (SubjectType, Seq<char>);

/// The IRI text of a parsed triple's predicate.
pub uninterp spec fn predicate_of(t: oxrdf::Triple) -> Seq<char>;

/// A parsed object term as a value: the texts of a named or blank node,
/// a literal's value, language and datatype, or the embedded triple
/// itself.
pub enum ObjectTermModel {
    NamedTerm(Seq<char>),
    BlankTerm(Seq<char>),
    LiteralTerm(Seq<char>, Option<Seq<char>>, Option<Seq<char>>),
    EmbeddedTerm(oxrdf::Triple),
}

/// What a parsed triple's object term holds.
pub uninterp spec fn object_term_of(t: oxrdf::Triple) -> ObjectTermModel;

/// The triple part of a parsed quad.
pub uninterp spec fn quad_triple_of(q: oxrdf::Quad) -> oxrdf::Triple;

/// The graph name of a parsed quad, or nothing for the default graph.
pub uninterp spec fn quad_graph_of(q: oxrdf::Quad) -> Option<Seq<char>>;

/// A parsed triple of the grammar library, carried opaquely.
#[verifier::external_type_specification]
#[verifier::external_body]
pub struct ExTriple(oxrdf::Triple);

/// A parsed quad of the grammar library, carried opaquely.
#[verifier::external_type_specification]
#[verifier::external_body]
pub struct ExQuad(oxrdf::Quad);

/// The object term of a parsed triple, split into plain parts; an
/// embedded triple is carried on opaquely.
pub enum ObjectParts {
    Named(String),
    Blank(String),
    LiteralParts(String, Option<String>, Option<String>),
    Embedded(oxrdf::Triple),
}

/// Relies on oxttl::TurtleParser: parses Turtle text into triples,
/// stopping at the first syntax error; also hands back the prefixes the
/// grammar parser consumed, each name once, in no particular order.
#[verifier::external_body]
pub fn turtle_syntax_parse(input: &str, base: Option<&str>) -> (r: Result<
    (Vec<oxrdf::Triple>, Vec<(String, String)>),
    String,
>)
    ensures
        match r {
            Ok(p) => crate::prefix_map::unique_names(prefix_pairs_view(p.1@)) && turtle_parse_of(
                input@,
                opt_base_view(base),
            ) == Result::<(int, Map<Seq<char>, Seq<char>>), Seq<char>>::Ok(
                (p.0@.len() as int, crate::prefix_map::pairs_to_map(prefix_pairs_view(p.1@))),
            ),
            Err(e) => turtle_parse_of(input@, opt_base_view(base)) == Result::<
                (int, Map<Seq<char>, Seq<char>>),
                Seq<char>,
            >::Err(e@),
        },
{
    let mut p = oxttl::TurtleParser::new();
    if let Some(b) = base {
        p = p.with_base_iri(b).map_err(|e| e.to_string())?;
    }
    let mut reader = p.for_slice(input.as_bytes());
    let mut triples = Vec::new();
    for t in &mut reader {
        triples.push(t.map_err(|e| e.to_string())?);
    }
    let prefixes = reader.prefixes().map(|(n, i)| (n.to_string(), i.to_string())).collect();
    Ok((triples, prefixes))
}

/// Relies on oxttl::TriGParser: parses TriG text into quads, stopping at
/// the first syntax error; also hands back the consumed prefixes, each
/// name once, in no particular order.
#[verifier::external_body]
pub fn trig_syntax_parse(input: &str, base: Option<&str>) -> (r: Result<
    (Vec<oxrdf::Quad>, Vec<(String, String)>),
    String,
>)
    ensures
        match r {
            Ok(p) => crate::prefix_map::unique_names(prefix_pairs_view(p.1@)) && trig_parse_of(
                input@,
                opt_base_view(base),
            ) == Result::<(int, Map<Seq<char>, Seq<char>>), Seq<char>>::Ok(
                (p.0@.len() as int, crate::prefix_map::pairs_to_map(prefix_pairs_view(p.1@))),
            ),
            Err(e) => trig_parse_of(input@, opt_base_view(base)) == Result::<
                (int, Map<Seq<char>, Seq<char>>),
                Seq<char>,
            >::Err(e@),
        },
{
    let mut p = oxttl::TriGParser::new();
    if let Some(b) = base {
        p = p.with_base_iri(b).map_err(|e| e.to_string())?;
    }
    let mut reader = p.for_slice(input.as_bytes());
    let mut quads = Vec::new();
    for q in &mut reader {
        quads.push(q.map_err(|e| e.to_string())?);
    }
    let prefixes = reader.prefixes().map(|(n, i)| (n.to_string(), i.to_string())).collect();
    Ok((quads, prefixes))
}

/// Relies on oxttl::NTriplesParser: parses N-Triples text into triples,
/// stopping at the first syntax error.
#[verifier::external_body]
pub fn ntriples_syntax_parse(input: &str) -> (r: Result<Vec<oxrdf::Triple>, String>)
    ensures
        match r {
            Ok(v) => ntriples_parse_of(input@) == Result::<Seq<oxrdf::Triple>, Seq<char>>::Ok(v@),
            Err(e) => ntriples_parse_of(input@) == Result::<Seq<oxrdf::Triple>, Seq<char>>::Err(
                e@,
            ),
        },
{
    let mut triples = Vec::new();
    for t in oxttl::NTriplesParser::new().for_slice(input.as_bytes()) {
        triples.push(t.map_err(|e| e.to_string())?);
    }
    Ok(triples)
}

/// Relies on oxttl::NQuadsParser: parses N-Quads text into quads,
/// stopping at the first syntax error.
#[verifier::external_body]
pub fn nquads_syntax_parse(input: &str) -> (r: Result<Vec<oxrdf::Quad>, String>)
    ensures
        match r {
            Ok(v) => nquads_parse_of(input@) == Result::<Seq<oxrdf::Quad>, Seq<char>>::Ok(v@),
            Err(e) => nquads_parse_of(input@) == Result::<Seq<oxrdf::Quad>, Seq<char>>::Err(e@),
        },
{
    let mut quads = Vec::new();
    for q in oxttl::NQuadsParser::new().for_slice(input.as_bytes()) {
        quads.push(q.map_err(|e| e.to_string())?);
    }
    Ok(quads)
}

/// Relies on oxrdf::Triple's subject field: a parsed subject is a named
/// node or a blank node, never an embedded triple.
#[verifier::external_body]
fn subject_parts(t: &oxrdf::Triple) -> (r: (SubjectType, String))
    ensures
        !(r.0 is Triple),
        (r.0, r.1@) == subject_of(*t),
{
    match &t.subject {
        oxrdf::NamedOrBlankNode::NamedNode(n) => (SubjectType::NamedNode, n.as_str().to_string()),
        oxrdf::NamedOrBlankNode::BlankNode(n) => (SubjectType::BlankNode, n.as_str().to_string()),
    }
}

/// Relies on oxrdf::Triple's predicate field: its IRI text.
#[verifier::external_body]
fn predicate_str(t: &oxrdf::Triple) -> (r: String)
    ensures
        r@ == predicate_of(*t),
{
    t.predicate.as_str().to_string()
}

/// The value a split object holds.
pub open spec fn obj_parts_view(p: ObjectParts) -> ObjectTermModel {
    match p {
        ObjectParts::Named(v) => ObjectTermModel::NamedTerm(v@),
        ObjectParts::Blank(v) => ObjectTermModel::BlankTerm(v@),
        ObjectParts::LiteralParts(v, l, d) => ObjectTermModel::LiteralTerm(
            v@,
            opt_view(l),
            opt_view(d),
        ),
        ObjectParts::Embedded(e) => ObjectTermModel::EmbeddedTerm(e),
    }
}

/// Relies on oxrdf::Triple's object field and oxrdf::Literal's
/// accessors: the object split into its kind and plain texts, a literal
/// as value, language and datatype.
#[verifier::external_body]
fn object_parts(t: &oxrdf::Triple) -> (r: ObjectParts)
    ensures
        obj_parts_view(r) == object_term_of(*t),
{
    match &t.object {
        oxrdf::Term::NamedNode(n) => ObjectParts::Named(n.as_str().to_string()),
        oxrdf::Term::BlankNode(n) => ObjectParts::Blank(n.as_str().to_string()),
        oxrdf::Term::Literal(l) => ObjectParts::LiteralParts(
            l.value().to_string(),
            l.language().map(|x| x.to_string()),
            Some(l.datatype().as_str().to_string()),
        ),
        oxrdf::Term::Triple(e) => ObjectParts::Embedded((**e).clone()),
    }
}

/// Relies on oxrdf::Quad's fields: the triple part of a quad.
#[verifier::external_body]
fn quad_triple_part(q: &oxrdf::Quad) -> (r: oxrdf::Triple)
    ensures
        r == quad_triple_of(*q),
{
    oxrdf::Triple {
        subject: q.subject.clone(),
        predicate: q.predicate.clone(),
        object: q.object.clone(),
    }
}

/// Relies on oxrdf::Quad's graph_name field: the graph IRI or blank node
/// id, or nothing for the default graph.
#[verifier::external_body]
fn quad_graph(q: &oxrdf::Quad) -> (r: Option<String>)
    ensures
        opt_view(r) == quad_graph_of(*q),
{
    match &q.graph_name {
        oxrdf::GraphName::NamedNode(n) => Some(n.as_str().to_string()),
        oxrdf::GraphName::BlankNode(n) => Some(n.as_str().to_string()),
        oxrdf::GraphName::DefaultGraph => None,
    }
}

/// How deep embedded triples are followed before the rest is flattened
/// to an empty literal; far beyond any real document's nesting.
pub const MAX_EMBEDDED_DEPTH: usize = 4096;

/// The display text of an embedded triple: its three term texts joined
/// by single spaces.
pub fn format_embedded_triple(triple: &OwnedTriple) -> (r: String)
    ensures
        r@ == triple.subject_value@ + " "@ + triple.predicate@ + " "@ + triple.object_value@,
{
    let mut out = String::new();
    out.append(triple.subject_value.as_str());
    out.append(" ");
    out.append(triple.predicate.as_str());
    out.append(" ");
    out.append(triple.object_value.as_str());
    proof {
        assert(out@ =~= triple.subject_value@ + " "@ + triple.predicate@ + " "@
            + triple.object_value@);
    }
    out
}

/// How a literal's language and datatype carry over: a language tag is
/// kept and suppresses the datatype; the `xsd:string` datatype is
/// dropped (a plain literal); any other datatype is kept.
pub open spec fn literal_fields_match(
    l: Option<Seq<char>>,
    d: Option<Seq<char>>,
    r: OwnedTriple,
) -> bool {
    match l {
        Some(lang) => opt_view(r.object_language) == Some(lang) && r.object_datatype is None,
        None => r.object_language is None && (match d {
            Some(dt) => if dt == "http://www.w3.org/2001/XMLSchema#string"@ {
                r.object_datatype is None
            } else {
                opt_view(r.object_datatype) == Some(dt)
            },
            None => r.object_datatype is None,
        }),
    }
}

/// How a non-embedded object term carries over into the owned fields.
pub open spec fn object_fields_match(m: ObjectTermModel, r: OwnedTriple) -> bool {
    match m {
        ObjectTermModel::NamedTerm(v) => r.object_type is NamedNode && r.object_value@ == v
            && r.object_datatype is None && r.object_language is None && r.object_triple is None,
        ObjectTermModel::BlankTerm(v) => r.object_type is BlankNode && r.object_value@ == v
            && r.object_datatype is None && r.object_language is None && r.object_triple is None,
        ObjectTermModel::LiteralTerm(v, l, d) => r.object_type is Literal && r.object_value@ == v
            && r.object_triple is None && literal_fields_match(l, d, r),
        ObjectTermModel::EmbeddedTerm(e) => false,
    }
}

/// The conversion relation, followed through `fuel` levels of embedded
/// triples: the owned triple's subject, predicate and object carry the
/// parsed triple's term values, an embedded object becomes a boxed owned
/// triple shown as `<< s p o >>`, and a level past the fuel is
/// unconstrained (the converter flattens there).
pub open spec fn converted_to_depth(t: oxrdf::Triple, r: OwnedTriple, fuel: nat) -> bool
    decreases fuel,
{
    &&& r.subject_type == subject_of(t).0
    &&& r.subject_value@ == subject_of(t).1
    &&& r.predicate@ == predicate_of(t)
    &&& r.subject_triple is None
    &&& (match object_term_of(t) {
        ObjectTermModel::EmbeddedTerm(inner) => fuel == 0 || (r.object_type is Triple && (
        match r.object_triple {
            Some(b) => converted_to_depth(inner, *b, (fuel - 1) as nat) && r.object_value@
                == "<< "@ + b.subject_value@ + " "@ + b.predicate@ + " "@ + b.object_value@
                + " >>"@,
            None => false,
        })),
        m => object_fields_match(m, r),
    })
}

/// Converts a parsed triple into the owned model: subject, predicate and
/// object carry the parsed term values, and embedded triples in object
/// position become boxed owned triples with a pre-formatted `<< s p o >>`
/// text, followed to the depth cap.
pub fn triple_to_owned(t: &oxrdf::Triple) -> (r: OwnedTriple)
    ensures
        r.wf(),
        r.graph is None,
        r.subject_triple is None,
        converted_to_depth(*t, r, MAX_EMBEDDED_DEPTH as nat),
{
    let mut levels: Vec<(SubjectType, String, String)> = Vec::new();
    let (parts, chain_g) = descend(t, &mut levels);
    let ghost chain = chain_g@;
    let ghost all_levels = levels@;
    let leaf_level = levels.pop();
    let mut current = build_leaf(leaf_level, parts);
    proof {
        assert(levels@ =~= all_levels.subrange(0, all_levels.len() - 1));
        let j = levels@.len() as int;
        assert(j == chain.len() - 1);
        assert(all_levels[j].0 == subject_of(chain[j]).0);
        if obj_parts_view(parts) == object_term_of(chain.last()) {
            assert(converted_to_depth(chain[j], current, (MAX_EMBEDDED_DEPTH - j) as nat));
        } else {
            assert(chain.len() == MAX_EMBEDDED_DEPTH + 1);
            assert((MAX_EMBEDDED_DEPTH - j) as nat == 0);
            assert(converted_to_depth(chain[j], current, (MAX_EMBEDDED_DEPTH - j) as nat));
        }
    }
    while levels.len() > 0
        invariant
            chain.len() >= 1,
            chain.len() <= MAX_EMBEDDED_DEPTH + 1,
            chain[0] == *t,
            levels@.len() < chain.len(),
            levels@ =~= all_levels.subrange(0, levels@.len() as int),
            all_levels.len() == chain.len(),
            forall|i: int|
                0 <= i < chain.len() ==> (#[trigger] all_levels[i]).0 == subject_of(chain[i]).0
                    && !(all_levels[i].0 is Triple) && all_levels[i].1@ == subject_of(chain[i]).1
                    && all_levels[i].2@ == predicate_of(chain[i]),
            forall|i: int|
                0 <= i < chain.len() - 1 ==> object_term_of(#[trigger] chain[i])
                    == ObjectTermModel::EmbeddedTerm(chain[i + 1]),
            current.wf(),
            current.graph is None,
            current.subject_triple is None,
            converted_to_depth(
                chain[levels@.len() as int],
                current,
                (MAX_EMBEDDED_DEPTH - levels@.len()) as nat,
            ),
        decreases levels@.len(),
    {
        let ghost j0 = levels@.len() as int;
        match levels.pop() {
            Some(level) => {
                let ghost j = levels@.len() as int;
                proof {
                    assert(j == j0 - 1);
                    assert(level == all_levels[j]);
                    assert(levels@ =~= all_levels.subrange(0, j));
                    assert(object_term_of(chain[j]) == ObjectTermModel::EmbeddedTerm(
                        chain[j + 1],
                    ));
                }
                let inner_text = format_embedded_triple(&current);
                let mut value = String::new();
                value.append("<< ");
                value.append(inner_text.as_str());
                value.append(" >>");
                proof {
                    assert(value@ =~= "<< "@ + current.subject_value@ + " "@ + current.predicate@
                        + " "@ + current.object_value@ + " >>"@);
                }
                current =
                OwnedTriple {
                    subject_type: level.0,
                    subject_value: level.1,
                    predicate: level.2,
                    object_type: ObjectType::Triple,
                    object_value: value,
                    object_datatype: None,
                    object_language: None,
                    graph: None,
                    subject_triple: None,
                    object_triple: Some(Box::new(current)),
                };
                proof {
                    assert(converted_to_depth(chain[j], current, (MAX_EMBEDDED_DEPTH - j) as nat));
                }
            },
            None => {
                proof {
                    assert(false);
                }
            },
        }
    }
    proof {
        assert(chain[0] == *t);
    }
    current
}

/// Walks down the chain of embedded objects, recording each level's
/// subject and predicate; the ghost result is the chain of parsed
/// triples visited. The returned parts are the first non-embedded object
/// found, or an empty literal when the nesting passes the depth cap.
fn descend(t: &oxrdf::Triple, levels: &mut Vec<(SubjectType, String, String)>) -> (r: (
    ObjectParts,
    Ghost<Seq<oxrdf::Triple>>,
))
    requires
        old(levels)@.len() == 0,
    ensures
        !(r.0 is Embedded),
        ({
            let chain = r.1@;
            &&& chain.len() == final(levels)@.len()
            &&& 1 <= chain.len() <= MAX_EMBEDDED_DEPTH + 1
            &&& chain[0] == *t
            &&& (forall|i: int|
                0 <= i < chain.len() ==> (#[trigger] final(levels)@[i]).0 == subject_of(
                    chain[i],
                ).0 && !(final(levels)@[i].0 is Triple) && final(levels)@[i].1@ == subject_of(
                    chain[i],
                ).1 && final(levels)@[i].2@ == predicate_of(chain[i]))
            &&& (forall|i: int|
                0 <= i < chain.len() - 1 ==> object_term_of(#[trigger] chain[i])
                    == ObjectTermModel::EmbeddedTerm(chain[i + 1]))
            &&& (obj_parts_view(r.0) == object_term_of(chain.last()) || (object_term_of(
                chain.last(),
            ) is EmbeddedTerm && chain.len() == MAX_EMBEDDED_DEPTH + 1))
        }),
{
    let mut cur = clone_triple(t);
    let ghost mut chain: Seq<oxrdf::Triple> = Seq::empty();
    let mut fuel: usize = MAX_EMBEDDED_DEPTH;
    loop
        invariant
            chain.len() == levels@.len(),
            chain.len() + fuel == MAX_EMBEDDED_DEPTH,
            chain.len() == 0 ==> cur == *t,
            chain.len() > 0 ==> chain[0] == *t,
            chain.len() > 0 ==> object_term_of(chain.last()) == ObjectTermModel::EmbeddedTerm(
                cur,
            ),
            forall|i: int|
                0 <= i < chain.len() ==> (#[trigger] levels@[i]).0 == subject_of(chain[i]).0 && !(
                levels@[i].0 is Triple) && levels@[i].1@ == subject_of(chain[i]).1
                    && levels@[i].2@ == predicate_of(chain[i]),
            forall|i: int|
                0 <= i < chain.len() - 1 ==> object_term_of(#[trigger] chain[i])
                    == ObjectTermModel::EmbeddedTerm(chain[i + 1]),
        decreases fuel,
    {
        let (st, sv) = subject_parts(&cur);
        let pred = predicate_str(&cur);
        levels.push((st, sv, pred));
        proof {
            chain = chain.push(cur);
        }
        match object_parts(&cur) {
            ObjectParts::Embedded(inner) => {
                if fuel == 0 {
                    // nesting beyond the cap is flattened
                    return (
                        ObjectParts::LiteralParts(String::new(), None, None),
                        Ghost(chain),
                    );
                }
                fuel = fuel - 1;
                cur = inner;
            },
            other => {
                proof {
                    assert(obj_parts_view(other) == object_term_of(chain.last()));
                }
                return (other, Ghost(chain));
            },
        }
    }
}

/// Relies on oxrdf::Triple's Clone: an owned copy of the parsed triple,
/// the same value.
#[verifier::external_body]
fn clone_triple(t: &oxrdf::Triple) -> (r: oxrdf::Triple)
    ensures
        r == *t,
{
    t.clone()
}

/// Builds the innermost owned triple from a recorded level and the plain
/// object parts. A literal keeps its language tag, or its datatype
/// unless that is `xsd:string`.
fn build_leaf(level: Option<(SubjectType, String, String)>, parts: ObjectParts) -> (r: OwnedTriple)
    requires
        !(parts is Embedded),
        (match level {
            Some(l) => !(l.0 is Triple),
            None => true,
        }),
    ensures
        r.wf(),
        r.graph is None,
        r.subject_triple is None,
        r.object_triple is None,
        (match level {
            Some(l) => r.subject_type == l.0 && r.subject_value@ == l.1@ && r.predicate@ == l.2@,
            None => true,
        }),
        object_fields_match(obj_parts_view(parts), r),
{
    let (st, sv, pred) = match level {
        Some(l) => l,
        None => (SubjectType::NamedNode, String::new(), String::new()),
    };
    let (ot, ov, dt, lang) = match parts {
        ObjectParts::Named(v) => (ObjectType::NamedNode, v, None, None),
        ObjectParts::Blank(v) => (ObjectType::BlankNode, v, None, None),
        ObjectParts::LiteralParts(v, l, d) => {
            match l {
                Some(language) => (ObjectType::Literal, v, None, Some(language)),
                None => {
                    match d {
                        Some(datatype) => {
                            if crate::text::str_eq(
                                datatype.as_str(),
                                "http://www.w3.org/2001/XMLSchema#string",
                            ) {
                                (ObjectType::Literal, v, None, None)
                            } else {
                                (ObjectType::Literal, v, Some(datatype), None)
                            }
                        },
                        None => (ObjectType::Literal, v, None, None),
                    }
                },
            }
        },
        ObjectParts::Embedded(_) => (ObjectType::Literal, String::new(), None, None),
    };
    OwnedTriple {
        subject_type: st,
        subject_value: sv,
        predicate: pred,
        object_type: ot,
        object_value: ov,
        object_datatype: dt,
        object_language: lang,
        graph: None,
        subject_triple: None,
        object_triple: None,
    }
}

/// Converts a parsed quad into the owned model, keeping its graph.
pub fn quad_to_owned(q: &oxrdf::Quad) -> (r: OwnedTriple)
    ensures
        r.wf(),
        r.subject_triple is None,
        opt_view(r.graph) == quad_graph_of(*q),
        converted_to_depth(quad_triple_of(*q), r, MAX_EMBEDDED_DEPTH as nat),
{
    let t = quad_triple_part(q);
    let mut owned = triple_to_owned(&t);
    owned.graph = quad_graph(q);
    owned
}

} // verus!
