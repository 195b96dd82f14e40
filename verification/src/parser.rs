//! Parsing: dialect adapters, prefix scanning, and statement recovery.

pub mod common;
pub mod provn;
pub mod robust;
pub mod syntax;

use vstd::prelude::*;
use crate::parser::syntax::{
    converted_to_depth,
    nquads_parse_of,
    ntriples_parse_of,
    quad_graph_of,
    quad_triple_of,
    trig_parse_of,
    turtle_parse_of,
    MAX_EMBEDDED_DEPTH,
};
use crate::prefix_map::PrefixMap;
use crate::text::{spec_lines, spec_trim};
use crate::types::{opt_view, InputFormat, OwnedTriple};

verus! {

/// Parses the input in the given dialect, strictly: the first syntax
/// error fails the whole parse. For the prefix-aware dialects the prefix
/// map is scanned from the raw lines; the line-oriented dialects have no
/// prefixes.
pub fn parse_for_estimation(input: &str, format: InputFormat) -> (r: Result<
    (Vec<OwnedTriple>, PrefixMap),
    String,
>)
    ensures
        format is Turtle ==> (r is Ok <==> turtle_parse_of(
            input@,
            Some("http://example.org/"@),
        ) is Ok),
        format is TriG ==> (r is Ok <==> trig_parse_of(input@, Some("http://example.org/"@)) is Ok),
        format is NTriples ==> (r is Ok <==> ntriples_parse_of(input@) is Ok),
        format is NQuads ==> (r is Ok <==> nquads_parse_of(input@) is Ok),
        format is ProvN ==> (r is Ok <==> crate::parser::provn::spec_provn_body(
            spec_lines(input@),
            crate::parser::provn::spec_provn_prefixes(spec_lines(input@), Seq::empty()),
        ) is Ok),
        match r {
            Ok(p) => {
                &&& p.1.wf()
                &&& (forall|i: int| 0 <= i < p.0@.len() ==> (#[trigger] p.0@[i]).wf())
                &&& (format is Turtle || format is TriG) ==> p.1@ == common::spec_extract(
                    spec_lines(input@),
                    Seq::empty(),
                )
                &&& (format is NTriples || format is NQuads) ==> p.1@.len() == 0
                &&& (format is Turtle || format is NTriples || format is ProvN) ==> (forall|i: int|
                    0 <= i < p.0@.len() ==> (#[trigger] p.0@[i]).graph is None)
                &&& format is Turtle ==> p.0@.len() == turtle_parse_of(
                    input@,
                    Some("http://example.org/"@),
                )->Ok_0.0
                &&& format is TriG ==> p.0@.len() == trig_parse_of(
                    input@,
                    Some("http://example.org/"@),
                )->Ok_0.0
                &&& format is NTriples ==> {
                    let parsed = ntriples_parse_of(input@)->Ok_0;
                    p.0@.len() == parsed.len() && (forall|i: int|
                        0 <= i < parsed.len() ==> converted_to_depth(
                            parsed[i],
                            #[trigger] p.0@[i],
                            MAX_EMBEDDED_DEPTH as nat,
                        ))
                }
                &&& format is NQuads ==> {
                    let parsed = nquads_parse_of(input@)->Ok_0;
                    p.0@.len() == parsed.len() && (forall|i: int|
                        0 <= i < parsed.len() ==> converted_to_depth(
                            quad_triple_of(parsed[i]),
                            #[trigger] p.0@[i],
                            MAX_EMBEDDED_DEPTH as nat,
                        ) && opt_view(p.0@[i].graph) == quad_graph_of(parsed[i]))
                }
                &&& format is ProvN ==> crate::parser::provn::spec_provn_body(
                    spec_lines(input@),
                    p.1@,
                ) == Result::<Seq<crate::types::TripleModel>, ()>::Ok(
                    crate::types::models_view(p.0@),
                )
            },
            Err(e) => {
                &&& format is Turtle ==> turtle_parse_of(input@, Some("http://example.org/"@))
                    == Result::<(int, Map<Seq<char>, Seq<char>>), Seq<char>>::Err(e@)
                &&& format is TriG ==> trig_parse_of(input@, Some("http://example.org/"@))
                    == Result::<(int, Map<Seq<char>, Seq<char>>), Seq<char>>::Err(e@)
                &&& format is NTriples ==> ntriples_parse_of(input@) == Result::<
                    Seq<oxrdf::Triple>,
                    Seq<char>,
                >::Err(e@)
                &&& format is NQuads ==> nquads_parse_of(input@) == Result::<
                    Seq<oxrdf::Quad>,
                    Seq<char>,
                >::Err(e@)
            },
        },
{
    match format {
        InputFormat::Turtle => {
            let prefixes = common::extract_prefixes(input);
            match syntax::turtle_syntax_parse(input, Some("http://example.org/")) {
                Ok(p) => Ok((convert_triple_batch(&p.0), prefixes)),
                Err(e) => Err(e),
            }
        },
        InputFormat::TriG => {
            let prefixes = common::extract_prefixes(input);
            match syntax::trig_syntax_parse(input, Some("http://example.org/")) {
                Ok(p) => Ok((convert_quad_batch(&p.0), prefixes)),
                Err(e) => Err(e),
            }
        },
        InputFormat::NTriples => {
            match syntax::ntriples_syntax_parse(input) {
                Ok(v) => Ok((convert_triple_batch(&v), PrefixMap::new())),
                Err(e) => Err(e),
            }
        },
        InputFormat::NQuads => {
            match syntax::nquads_syntax_parse(input) {
                Ok(v) => Ok((convert_quad_batch(&v), PrefixMap::new())),
                Err(e) => Err(e),
            }
        },
        InputFormat::ProvN => {
            match provn::parse_for_estimation(input) {
                Ok(p) => Ok((p.0, p.1)),
                Err(e) => Err(e),
            }
        },
    }
}

/// Parses the input with recovery when asked: lenient mode always
/// completes and accumulates its errors, strict mode succeeds exactly
/// when the dialect's grammar parse of the whole text does and surfaces
/// that parse's error otherwise.
pub fn parse_robust(input: &str, format: InputFormat, continue_on_error: bool) -> (r: Result<
    robust::ParseResult,
    String,
>)
    ensures
        continue_on_error ==> r is Ok,
        !continue_on_error && format is Turtle ==> (r is Ok <==> turtle_parse_of(
            input@,
            None,
        ) is Ok),
        !continue_on_error && format is TriG ==> (r is Ok <==> trig_parse_of(input@, None) is Ok),
        !continue_on_error && format is NTriples ==> (r is Ok <==> ntriples_parse_of(
            input@,
        ) is Ok),
        !continue_on_error && format is NQuads ==> (r is Ok <==> nquads_parse_of(input@) is Ok),
        !continue_on_error && format is ProvN ==> (r is Ok <==> provn::spec_provn_body(
            spec_lines(input@),
            provn::spec_provn_prefixes(spec_lines(input@), Seq::empty()),
        ) is Ok),
        match r {
            Ok(res) => {
                &&& res.wf()
                &&& !continue_on_error ==> res.errors@.len() == 0
                &&& !continue_on_error && format is Turtle ==> res.triples@.len()
                    == turtle_parse_of(input@, None)->Ok_0.0
                &&& !continue_on_error && format is TriG ==> res.triples@.len() == trig_parse_of(
                    input@,
                    None,
                )->Ok_0.0
                &&& !continue_on_error && format is NTriples ==> res.triples@.len()
                    == ntriples_parse_of(input@)->Ok_0.len()
                &&& !continue_on_error && format is NQuads ==> res.triples@.len()
                    == nquads_parse_of(input@)->Ok_0.len()
                &&& continue_on_error && format is NTriples ==> {
                    &&& res.triples@.len() == robust::yield_count(
                        spec_lines(input@),
                        (|l: Seq<char>| robust::nt_line_yields(l)),
                    )
                    &&& res.errors@.len() == robust::fail_count(
                        spec_lines(input@),
                        (|l: Seq<char>| robust::nt_line_yields(l)),
                    )
                    &&& (forall|i: int|
                        0 <= i < res.errors@.len() ==> 1 <= (#[trigger] res.errors@[i]).line
                            <= spec_lines(input@).len() && res.errors@[i].position == 1
                            && robust::is_candidate(spec_lines(input@)[res.errors@[i].line - 1])
                            && !robust::nt_line_yields(spec_lines(input@)[res.errors@[i].line - 1]))
                    &&& robust::errors_increasing(res.errors@)
                    &&& ({
                        let yl = robust::yielding_lines(
                            spec_lines(input@),
                            (|l: Seq<char>| robust::nt_line_yields(l)),
                        );
                        res.triples@.len() == yl.len() && (forall|i: int|
                            0 <= i < yl.len() ==> 0 <= #[trigger] yl[i] < spec_lines(input@).len()
                                && robust::is_candidate(spec_lines(input@)[yl[i]])
                                && robust::nt_line_yields(spec_lines(input@)[yl[i]]) && converted_to_depth(
                            ntriples_parse_of(spec_lines(input@)[yl[i]])->Ok_0.last(),
                            res.triples@[i],
                            MAX_EMBEDDED_DEPTH as nat,
                        ))
                    })
                }
                &&& continue_on_error && format is NQuads ==> {
                    &&& res.triples@.len() == robust::yield_count(
                        spec_lines(input@),
                        (|l: Seq<char>| robust::nq_line_yields(l)),
                    )
                    &&& res.errors@.len() == robust::fail_count(
                        spec_lines(input@),
                        (|l: Seq<char>| robust::nq_line_yields(l)),
                    )
                    &&& (forall|i: int|
                        0 <= i < res.errors@.len() ==> 1 <= (#[trigger] res.errors@[i]).line
                            <= spec_lines(input@).len() && res.errors@[i].position == 1
                            && robust::is_candidate(spec_lines(input@)[res.errors@[i].line - 1])
                            && !robust::nq_line_yields(spec_lines(input@)[res.errors@[i].line - 1]))
                    &&& robust::errors_increasing(res.errors@)
                    &&& ({
                        let yl = robust::yielding_lines(
                            spec_lines(input@),
                            (|l: Seq<char>| robust::nq_line_yields(l)),
                        );
                        res.triples@.len() == yl.len() && (forall|i: int|
                            0 <= i < yl.len() ==> 0 <= #[trigger] yl[i] < spec_lines(input@).len()
                                && robust::is_candidate(spec_lines(input@)[yl[i]])
                                && robust::nq_line_yields(spec_lines(input@)[yl[i]]) && converted_to_depth(
                            quad_triple_of(nquads_parse_of(spec_lines(input@)[yl[i]])->Ok_0.last()),
                            res.triples@[i],
                            MAX_EMBEDDED_DEPTH as nat,
                        ))
                    })
                }
                &&& continue_on_error && (format is Turtle || format is TriG || format is ProvN)
                    ==> {
                    &&& (forall|i: int|
                        0 <= i < res.errors@.len() ==> 1 <= (#[trigger] res.errors@[i]).line
                            <= spec_lines(input@).len() && res.errors@[i].position == 1)
                    &&& robust::errors_increasing(res.errors@)
                }
                &&& continue_on_error && format is Turtle ==> {
                    let decls = robust::spec_decls(spec_lines(input@));
                    let segs = robust::turtle_segments(spec_lines(input@), 1, Seq::empty()).0;
                    let trail = robust::turtle_segments(spec_lines(input@), 1, Seq::empty()).1;
                    let trail_active = spec_trim(trail).len() > 0 && spec_lines(input@).len() > 0;
                    &&& res.triples@.len() == robust::turtle_seg_triples(decls, segs) + (
                    if trail_active && turtle_parse_of(robust::frag_text(decls, trail), None) is Ok {
                        turtle_parse_of(robust::frag_text(decls, trail), None)->Ok_0.0
                    } else {
                        0int
                    })
                    &&& res.errors@.len() == robust::turtle_failing_lines(decls, segs).len() + (
                    if trail_active && turtle_parse_of(robust::frag_text(decls, trail), None) is Err {
                        1int
                    } else {
                        0int
                    })
                    &&& (forall|i: int|
                        0 <= i < robust::turtle_failing_lines(decls, segs).len() ==> (
                        #[trigger] res.errors@[i]).line == robust::turtle_failing_lines(
                            decls,
                            segs,
                        )[i])
                    &&& crate::prefix_map::pairs_to_map(res.prefixes@) == (if trail_active
                        && turtle_parse_of(robust::frag_text(decls, trail), None) is Ok {
                        robust::turtle_seg_prefixes(
                            Map::<Seq<char>, Seq<char>>::empty(),
                            decls,
                            segs,
                        ).union_prefer_right(
                            turtle_parse_of(robust::frag_text(decls, trail), None)->Ok_0.1,
                        )
                    } else {
                        robust::turtle_seg_prefixes(Map::<Seq<char>, Seq<char>>::empty(), decls, segs)
                    })
                }
                &&& continue_on_error && format is ProvN ==> {
                    &&& res.prefixes@ == provn::spec_provn_prefixes(
                        spec_lines(input@),
                        Seq::empty(),
                    )
                    &&& crate::types::models_view(res.triples@)
                        == provn::spec_provn_lenient_models(spec_lines(input@), res.prefixes@)
                    &&& res.errors@.map_values(|e: robust::ParseError| e.line as int)
                        == provn::spec_provn_failing_lines(spec_lines(input@), res.prefixes@, 1)
                }
                &&& continue_on_error && format is TriG ==> {
                    let decls = robust::spec_decls(spec_lines(input@));
                    let segs = robust::trig_segments(spec_lines(input@), 1, Seq::empty(), 0).0;
                    let trail = robust::trig_segments(spec_lines(input@), 1, Seq::empty(), 0).1;
                    let trail_active = spec_trim(trail).len() > 0 && spec_lines(input@).len() > 0;
                    &&& res.triples@.len() == robust::trig_seg_triples(decls, segs) + (
                    if trail_active && trig_parse_of(robust::frag_text(decls, trail), None) is Ok {
                        trig_parse_of(robust::frag_text(decls, trail), None)->Ok_0.0
                    } else {
                        0int
                    })
                    &&& res.errors@.len() == robust::trig_failing_lines(decls, segs).len() + (
                    if trail_active && trig_parse_of(robust::frag_text(decls, trail), None) is Err {
                        1int
                    } else {
                        0int
                    })
                    &&& (forall|i: int|
                        0 <= i < robust::trig_failing_lines(decls, segs).len() ==> (
                        #[trigger] res.errors@[i]).line == robust::trig_failing_lines(
                            decls,
                            segs,
                        )[i])
                    &&& crate::prefix_map::pairs_to_map(res.prefixes@) == (if trail_active
                        && trig_parse_of(robust::frag_text(decls, trail), None) is Ok {
                        robust::trig_seg_prefixes(
                            Map::<Seq<char>, Seq<char>>::empty(),
                            decls,
                            segs,
                        ).union_prefer_right(
                            trig_parse_of(robust::frag_text(decls, trail), None)->Ok_0.1,
                        )
                    } else {
                        robust::trig_seg_prefixes(Map::<Seq<char>, Seq<char>>::empty(), decls, segs)
                    })
                }
            },
            Err(e) => {
                &&& !continue_on_error
                &&& format is Turtle ==> turtle_parse_of(input@, None) == Result::<
                    (int, Map<Seq<char>, Seq<char>>),
                    Seq<char>,
                >::Err(e@)
                &&& format is TriG ==> trig_parse_of(input@, None) == Result::<
                    (int, Map<Seq<char>, Seq<char>>),
                    Seq<char>,
                >::Err(e@)
                &&& format is NTriples ==> ntriples_parse_of(input@) == Result::<
                    Seq<oxrdf::Triple>,
                    Seq<char>,
                >::Err(e@)
                &&& format is NQuads ==> nquads_parse_of(input@) == Result::<
                    Seq<oxrdf::Quad>,
                    Seq<char>,
                >::Err(e@)
            },
        },
{
    match format {
        InputFormat::Turtle => robust::parse_turtle_robust(input, continue_on_error),
        InputFormat::TriG => robust::parse_trig_robust(input, continue_on_error),
        InputFormat::NTriples => robust::parse_ntriples_robust(input, continue_on_error),
        InputFormat::NQuads => robust::parse_nquads_robust(input, continue_on_error),
        InputFormat::ProvN => robust::parse_provn_robust(input, continue_on_error),
    }
}

/// Converts a batch of parsed triples, one owned triple per parsed one,
/// in order.
fn convert_triple_batch(v: &Vec<oxrdf::Triple>) -> (r: Vec<OwnedTriple>)
    ensures
        r@.len() == v@.len(),
        forall|i: int|
            0 <= i < r@.len() ==> (#[trigger] r@[i]).wf() && r@[i].graph is None
                && converted_to_depth(v@[i], r@[i], MAX_EMBEDDED_DEPTH as nat),
{
    let n = v.len();
    let mut r: Vec<OwnedTriple> = Vec::new();
    let mut i: usize = 0;
    while i < n
        invariant
            n == v@.len(),
            i <= n,
            r@.len() == i,
            forall|j: int|
                0 <= j < r@.len() ==> (#[trigger] r@[j]).wf() && r@[j].graph is None
                    && converted_to_depth(v@[j], r@[j], MAX_EMBEDDED_DEPTH as nat),
        decreases n - i,
    {
        r.push(syntax::triple_to_owned(&v[i]));
        i = i + 1;
    }
    r
}

/// Converts a batch of parsed quads, one owned triple per parsed quad,
/// in order, each keeping its quad's graph.
fn convert_quad_batch(v: &Vec<oxrdf::Quad>) -> (r: Vec<OwnedTriple>)
    ensures
        r@.len() == v@.len(),
        forall|i: int|
            0 <= i < r@.len() ==> (#[trigger] r@[i]).wf() && opt_view(r@[i].graph)
                == quad_graph_of(v@[i]) && converted_to_depth(
                quad_triple_of(v@[i]),
                r@[i],
                MAX_EMBEDDED_DEPTH as nat,
            ),
{
    let n = v.len();
    let mut r: Vec<OwnedTriple> = Vec::new();
    let mut i: usize = 0;
    while i < n
        invariant
            n == v@.len(),
            i <= n,
            r@.len() == i,
            forall|j: int|
                0 <= j < r@.len() ==> (#[trigger] r@[j]).wf() && opt_view(r@[j].graph)
                    == quad_graph_of(v@[j]) && converted_to_depth(
                    quad_triple_of(v@[j]),
                    r@[j],
                    MAX_EMBEDDED_DEPTH as nat,
                ),
        decreases n - i,
    {
        r.push(syntax::quad_to_owned(&v[i]));
        i = i + 1;
    }
    r
}

} // verus!
