//! Statement-level error recovery.
//!
//! Strict mode hands the whole input to the grammar parser and stops at
//! its first error. Lenient mode isolates failures to the smallest unit:
//! line-oriented dialects parse each line independently, block-oriented
//! dialects accumulate lines until a statement boundary and parse each
//! fragment with the collected prefix declarations prepended, so one
//! malformed statement costs only itself.

use vstd::prelude::*;
use crate::prefix_map::PrefixMap;
use crate::parser::syntax::{
    converted_to_depth,
    nquads_parse_of,
    nquads_syntax_parse,
    ntriples_parse_of,
    ntriples_syntax_parse,
    prefix_pairs_view,
    quad_graph_of,
    quad_to_owned,
    quad_triple_of,
    trig_parse_of,
    trig_syntax_parse,
    triple_to_owned,
    turtle_parse_of,
    turtle_syntax_parse,
    MAX_EMBEDDED_DEPTH,
};
use crate::prefix_map::{
    lemma_insert_unique,
    lemma_map_fold_spec_insert,
    lemma_map_fold_union,
    map_fold,
    pairs_to_map,
    spec_insert,
    unique_names,
};
use crate::types::opt_view;
use crate::text::{
    chars_of,
    slice_starts_with,
    spec_lines,
    spec_trim,
    split_lines,
    string_of,
};
use crate::parser::common::{
    parse_base_declaration,
    parse_sparql_prefix,
    parse_turtle_prefix,
    spec_parse_base_declaration,
    spec_parse_sparql_prefix,
    spec_parse_turtle_prefix,
    trim_to_vec,
};
use crate::parser::provn;
use crate::types::OwnedTriple;
use vstd::string::StringExecFns;

verus! {

/// One recorded parse failure: the 1-based line it was detected on, a
/// column (always 1: positions are line-granular), and the parser's
/// message.
#[derive(Debug)]
pub struct ParseError {
    pub line: usize,
    pub position: usize,
    pub message: String,
}

/// What a parse call yields: the recovered triples in document order,
/// the prefix declarations seen, and every recorded failure.
#[derive(Debug)]
pub struct ParseResult {
    pub triples: Vec<OwnedTriple>,
    pub prefixes: PrefixMap,
    pub errors: Vec<ParseError>,
}

impl ParseResult {
    /// Every held triple is well-formed and the prefix names are unique.
    pub open spec fn wf(&self) -> bool {
        &&& self.prefixes.wf()
        &&& forall|i: int| 0 <= i < self.triples@.len() ==> (#[trigger] self.triples@[i]).wf()
    }

    /// An empty result.
    pub fn new() -> (r: Self)
        ensures
            r.wf(),
            r.triples@.len() == 0,
            r.prefixes@.len() == 0,
            r.errors@.len() == 0,
    {
        ParseResult { triples: Vec::new(), prefixes: PrefixMap::new(), errors: Vec::new() }
    }

    /// Whether any failure was recorded.
    pub fn has_errors(&self) -> (r: bool)
        ensures
            r == (self.errors@.len() != 0),
    {
        !self.errors.is_empty()
    }

    /// How many failures were recorded.
    pub fn error_count(&self) -> (r: usize)
        ensures
            r == self.errors@.len(),
    {
        self.errors.len()
    }

    /// How many triples were recovered.
    pub fn triple_count(&self) -> (r: usize)
        ensures
            r == self.triples@.len(),
    {
        self.triples.len()
    }
}

impl Default for ParseResult {
    /// An empty result.
    fn default() -> (r: Self)
        ensures
            r.wf(),
            r.triples@.len() == 0,
            r.prefixes@.len() == 0,
            r.errors@.len() == 0,
    {
        ParseResult::new()
    }
}

/// A line that parsing must account for: not blank and not a comment.
pub open spec fn is_candidate(line: Seq<char>) -> bool {
    spec_trim(line).len() > 0 && spec_trim(line)[0] != '#'
}

/// How many candidate lines there are.
pub open spec fn candidate_count(lines: Seq<Seq<char>>) -> int
    decreases lines.len(),
{
    if lines.len() == 0 {
        0
    } else {
        (if is_candidate(lines[0]) {
            1int
        } else {
            0int
        }) + candidate_count(lines.drop_first())
    }
}

/// Candidate lines number at most all lines.
pub proof fn lemma_candidate_count_bound(lines: Seq<Seq<char>>)
    ensures
        0 <= candidate_count(lines) <= lines.len(),
    decreases lines.len(),
{
    if lines.len() > 0 {
        lemma_candidate_count_bound(lines.drop_first());
    }
}

/// Whether a single N-Triples line parses to at least one triple.
pub open spec fn nt_line_yields(line: Seq<char>) -> bool {
    ntriples_parse_of(line) is Ok && ntriples_parse_of(line)->Ok_0.len() > 0
}

/// Whether a single N-Quads line parses to at least one quad.
pub open spec fn nq_line_yields(line: Seq<char>) -> bool {
    nquads_parse_of(line) is Ok && nquads_parse_of(line)->Ok_0.len() > 0
}

/// How many candidate lines parse.
pub open spec fn yield_count(lines: Seq<Seq<char>>, ok: spec_fn(Seq<char>) -> bool) -> int
    decreases lines.len(),
{
    if lines.len() == 0 {
        0
    } else {
        (if is_candidate(lines[0]) && ok(lines[0]) {
            1int
        } else {
            0int
        }) + yield_count(lines.drop_first(), ok)
    }
}

/// How many candidate lines fail to parse.
pub open spec fn fail_count(lines: Seq<Seq<char>>, ok: spec_fn(Seq<char>) -> bool) -> int
    decreases lines.len(),
{
    if lines.len() == 0 {
        0
    } else {
        (if is_candidate(lines[0]) && !ok(lines[0]) {
            1int
        } else {
            0int
        }) + fail_count(lines.drop_first(), ok)
    }
}

/// Parsed and failing candidate lines partition the candidates.
pub proof fn lemma_line_counts(lines: Seq<Seq<char>>, ok: spec_fn(Seq<char>) -> bool)
    ensures
        0 <= yield_count(lines, ok),
        0 <= fail_count(lines, ok),
        yield_count(lines, ok) + fail_count(lines, ok) == candidate_count(lines),
    decreases lines.len(),
{
    if lines.len() > 0 {
        lemma_line_counts(lines.drop_first(), ok);
    }
}

/// Indices moved up by `k`.
pub open spec fn shift_indices(s: Seq<int>, k: int) -> Seq<int> {
    s.map_values(|x: int| x + k)
}

/// The 0-based positions of the candidate lines that parse, in order.
pub open spec fn yielding_lines(lines: Seq<Seq<char>>, ok: spec_fn(Seq<char>) -> bool) -> Seq<int>
    decreases lines.len(),
{
    if lines.len() == 0 {
        Seq::empty()
    } else {
        let rest = shift_indices(yielding_lines(lines.drop_first(), ok), 1);
        if is_candidate(lines[0]) && ok(lines[0]) {
            seq![0int] + rest
        } else {
            rest
        }
    }
}


/// Lines the lenient block engines pass over without buffering: blank
/// lines, comments, and prefix or base declarations.
pub open spec fn recovery_skip(line: Seq<char>) -> bool {
    spec_trim(line).len() == 0 || spec_trim(line)[0] == '#' || is_prefix_decl(line)
}

/// The declaration text collected by the first pass: every prefix or
/// base declaration line, each with a newline, in document order.
pub open spec fn spec_decls(lines: Seq<Seq<char>>) -> Seq<char>
    decreases lines.len(),
{
    if lines.len() == 0 {
        Seq::empty()
    } else {
        (if is_prefix_decl(lines[0]) {
            lines[0] + "\n"@
        } else {
            Seq::<char>::empty()
        }) + spec_decls(lines.drop_first())
    }
}

/// The text handed to the grammar parser for one fragment: the collected
/// declarations, a blank line, and the buffered statement lines.
pub open spec fn frag_text(decls: Seq<char>, buf: Seq<char>) -> Seq<char> {
    decls + "\n"@ + buf
}

/// The Turtle fragmentation: statement lines accumulate into a buffer
/// that closes at a line whose trimmed text ends with a period. Yields
/// the closed fragments with their 1-based boundary lines, and the
/// trailing unterminated buffer.
pub open spec fn turtle_segments(lines: Seq<Seq<char>>, idx: int, buf: Seq<char>) -> (
    Seq<(Seq<char>, int)>,
    Seq<char>,
)
    decreases lines.len(),
{
    if lines.len() == 0 {
        (Seq::empty(), buf)
    } else {
        let l = lines[0];
        if recovery_skip(l) {
            turtle_segments(lines.drop_first(), idx + 1, buf)
        } else {
            let buf2 = buf + l + "\n"@;
            let t = spec_trim(l);
            if t[t.len() - 1] == '.' {
                let rest = turtle_segments(lines.drop_first(), idx + 1, Seq::empty());
                (seq![(buf2, idx)] + rest.0, rest.1)
            } else {
                turtle_segments(lines.drop_first(), idx + 1, buf2)
            }
        }
    }
}

/// How many occurrences of `c` stand in `s`.
pub open spec fn char_count(s: Seq<char>, c: char) -> int
    decreases s.len(),
{
    if s.len() == 0 {
        0
    } else {
        (if s[0] == c {
            1int
        } else {
            0int
        }) + char_count(s.drop_first(), c)
    }
}

/// A nesting depth grown without overflow; saturation is far beyond any
/// input that fits in memory.
pub open spec fn spec_depth_add(depth: int, inc: int) -> int {
    if depth <= i128::MAX - inc {
        depth + inc
    } else {
        depth
    }
}

/// A nesting depth shrunk without overflow.
pub open spec fn spec_depth_sub(depth: int, dec: int) -> int {
    if depth >= i128::MIN + 1 + dec {
        depth - dec
    } else {
        depth
    }
}

/// The TriG fragmentation: as for Turtle, with the brace nesting depth
/// carried along; a buffer closes only at the top nesting level, at a
/// line ending with a period or a closing brace.
pub open spec fn trig_segments(lines: Seq<Seq<char>>, idx: int, buf: Seq<char>, depth: int) -> (
    Seq<(Seq<char>, int)>,
    Seq<char>,
)
    decreases lines.len(),
{
    if lines.len() == 0 {
        (Seq::empty(), buf)
    } else {
        let l = lines[0];
        if recovery_skip(l) {
            trig_segments(lines.drop_first(), idx + 1, buf, depth)
        } else {
            let buf2 = buf + l + "\n"@;
            let t = spec_trim(l);
            let d2 = spec_depth_sub(
                spec_depth_add(depth, char_count(t, '{')),
                char_count(t, '}'),
            );
            if d2 == 0 && (t[t.len() - 1] == '.' || t[t.len() - 1] == '}') {
                let rest = trig_segments(lines.drop_first(), idx + 1, Seq::empty(), d2);
                (seq![(buf2, idx)] + rest.0, rest.1)
            } else {
                trig_segments(lines.drop_first(), idx + 1, buf2, d2)
            }
        }
    }
}

/// The total triple count of the fragments whose grammar parse succeeds.
pub open spec fn turtle_seg_triples(decls: Seq<char>, segs: Seq<(Seq<char>, int)>) -> int
    decreases segs.len(),
{
    if segs.len() == 0 {
        0
    } else {
        (match turtle_parse_of(frag_text(decls, segs[0].0), None) {
            Ok(p) => p.0,
            Err(_) => 0,
        }) + turtle_seg_triples(decls, segs.drop_first())
    }
}

/// The boundary lines of the fragments whose grammar parse fails, in
/// order.
pub open spec fn turtle_failing_lines(decls: Seq<char>, segs: Seq<(Seq<char>, int)>) -> Seq<int>
    decreases segs.len(),
{
    if segs.len() == 0 {
        Seq::empty()
    } else {
        (if turtle_parse_of(frag_text(decls, segs[0].0), None) is Err {
            seq![segs[0].1]
        } else {
            Seq::<int>::empty()
        }) + turtle_failing_lines(decls, segs.drop_first())
    }
}

/// The prefix bindings of the fragments whose grammar parse succeeds,
/// laid over `m` in fragment order.
pub open spec fn turtle_seg_prefixes(
    m: Map<Seq<char>, Seq<char>>,
    decls: Seq<char>,
    segs: Seq<(Seq<char>, int)>,
) -> Map<Seq<char>, Seq<char>>
    decreases segs.len(),
{
    if segs.len() == 0 {
        m
    } else {
        let m2 = match turtle_parse_of(frag_text(decls, segs[0].0), None) {
            Ok(p) => m.union_prefer_right(p.1),
            Err(_) => m,
        };
        turtle_seg_prefixes(m2, decls, segs.drop_first())
    }
}

/// As `turtle_seg_prefixes`, under the TriG grammar.
pub open spec fn trig_seg_prefixes(
    m: Map<Seq<char>, Seq<char>>,
    decls: Seq<char>,
    segs: Seq<(Seq<char>, int)>,
) -> Map<Seq<char>, Seq<char>>
    decreases segs.len(),
{
    if segs.len() == 0 {
        m
    } else {
        let m2 = match trig_parse_of(frag_text(decls, segs[0].0), None) {
            Ok(p) => m.union_prefer_right(p.1),
            Err(_) => m,
        };
        trig_seg_prefixes(m2, decls, segs.drop_first())
    }
}

/// As `turtle_seg_triples`, under the TriG grammar.
pub open spec fn trig_seg_triples(decls: Seq<char>, segs: Seq<(Seq<char>, int)>) -> int
    decreases segs.len(),
{
    if segs.len() == 0 {
        0
    } else {
        (match trig_parse_of(frag_text(decls, segs[0].0), None) {
            Ok(p) => p.0,
            Err(_) => 0,
        }) + trig_seg_triples(decls, segs.drop_first())
    }
}

/// As `turtle_failing_lines`, under the TriG grammar.
pub open spec fn trig_failing_lines(decls: Seq<char>, segs: Seq<(Seq<char>, int)>) -> Seq<int>
    decreases segs.len(),
{
    if segs.len() == 0 {
        Seq::empty()
    } else {
        (if trig_parse_of(frag_text(decls, segs[0].0), None) is Err {
            seq![segs[0].1]
        } else {
            Seq::<int>::empty()
        }) + trig_failing_lines(decls, segs.drop_first())
    }
}

/// Inserting a unique-named run of pairs binds the same map as folding
/// them after the accumulated entries.
pub proof fn lemma_insert_pairs_map(
    acc: Seq<(Seq<char>, Seq<char>)>,
    pv: Seq<(Seq<char>, Seq<char>)>,
)
    requires
        unique_names(acc),
    ensures
        pairs_to_map(spec_insert_pairs(acc, pv)) =~= map_fold(pairs_to_map(acc), pv),
    decreases pv.len(),
{
    if pv.len() > 0 {
        lemma_insert_unique(acc, pv[0].0, pv[0].1);
        lemma_insert_pairs_map(spec_insert(acc, pv[0].0, pv[0].1), pv.drop_first());
        lemma_map_fold_spec_insert(Map::empty(), acc, pv[0].0, pv[0].1);
        assert(pairs_to_map(spec_insert(acc, pv[0].0, pv[0].1)) == pairs_to_map(acc).insert(
            pv[0].0,
            pv[0].1,
        ));
        assert(map_fold(pairs_to_map(acc), pv) == map_fold(
            pairs_to_map(acc).insert(pv[0].0, pv[0].1),
            pv.drop_first(),
        ));
    }
}

/// The prefix map after binding a run of scanned pairs in order, later
/// pairs winning.
pub open spec fn spec_insert_pairs(
    acc: Seq<(Seq<char>, Seq<char>)>,
    pairs: Seq<(Seq<char>, Seq<char>)>,
) -> Seq<(Seq<char>, Seq<char>)>
    decreases pairs.len(),
{
    if pairs.len() == 0 {
        acc
    } else {
        spec_insert_pairs(spec_insert(acc, pairs[0].0, pairs[0].1), pairs.drop_first())
    }
}

/// A line that declares a prefix or base, in any of the Turtle
/// `@prefix`, SPARQL `PREFIX` and Turtle `@base` forms; such lines are
/// collected once and prepended to every fragment.
pub open spec fn is_prefix_decl(line: Seq<char>) -> bool {
    ||| spec_parse_turtle_prefix(line) is Some
    ||| spec_parse_sparql_prefix(line) is Some
    ||| spec_parse_base_declaration(line) is Some
}

/// Whether `line` declares a prefix or base.
fn prefix_decl_line(line: &[char]) -> (r: bool)
    ensures
        r == is_prefix_decl(line@),
{
    parse_turtle_prefix(line).is_some() || parse_sparql_prefix(line).is_some()
        || parse_base_declaration(line).is_some()
}

/// A line that ends a Turtle statement in lenient mode: a candidate
/// line, not a prefix declaration, whose trimmed text ends with a
/// period.
pub open spec fn is_turtle_boundary(line: Seq<char>) -> bool {
    let t = spec_trim(line);
    &&& t.len() > 0
    &&& t[0] != '#'
    &&& !is_prefix_decl(line)
    &&& t[t.len() - 1] == '.'
}

/// A line that can end a TriG statement in lenient mode: as for Turtle,
/// or ending with a closing brace; either only ends a statement when the
/// brace nesting has returned to the top level.
pub open spec fn is_trig_boundary(line: Seq<char>) -> bool {
    let t = spec_trim(line);
    &&& t.len() > 0
    &&& t[0] != '#'
    &&& !is_prefix_decl(line)
    &&& (t[t.len() - 1] == '.' || t[t.len() - 1] == '}')
}

/// Error records stand in document order.
pub open spec fn errors_increasing(errors: Seq<ParseError>) -> bool {
    forall|i: int, j: int|
        #![trigger errors[i], errors[j]]
        0 <= i < j < errors.len() ==> errors[i].line < errors[j].line
}

/// Converts a batch of parsed triples, one owned triple per parsed one,
/// in order.
fn convert_triples(v: &Vec<oxrdf::Triple>) -> (r: Vec<OwnedTriple>)
    ensures
        r@.len() == v@.len(),
        forall|i: int|
            0 <= i < r@.len() ==> (#[trigger] r@[i]).wf() && r@[i].graph is None
                && converted_to_depth(v@[i], r@[i], MAX_EMBEDDED_DEPTH as nat),
{
    let n = v.len();
    let mut r: Vec<OwnedTriple> = Vec::new();
    let mut i: usize = 0;
    while i < n
        invariant
            n == v@.len(),
            i <= n,
            r@.len() == i,
            forall|j: int|
                0 <= j < r@.len() ==> (#[trigger] r@[j]).wf() && r@[j].graph is None
                    && converted_to_depth(v@[j], r@[j], MAX_EMBEDDED_DEPTH as nat),
        decreases n - i,
    {
        r.push(triple_to_owned(&v[i]));
        i = i + 1;
    }
    r
}

/// Converts a batch of parsed quads, one owned triple per parsed quad,
/// in order, each keeping its quad's graph.
fn convert_quads(v: &Vec<oxrdf::Quad>) -> (r: Vec<OwnedTriple>)
    ensures
        r@.len() == v@.len(),
        forall|i: int|
            0 <= i < r@.len() ==> (#[trigger] r@[i]).wf() && opt_view(r@[i].graph)
                == quad_graph_of(v@[i]) && converted_to_depth(
                quad_triple_of(v@[i]),
                r@[i],
                MAX_EMBEDDED_DEPTH as nat,
            ),
{
    let n = v.len();
    let mut r: Vec<OwnedTriple> = Vec::new();
    let mut i: usize = 0;
    while i < n
        invariant
            n == v@.len(),
            i <= n,
            r@.len() == i,
            forall|j: int|
                0 <= j < r@.len() ==> (#[trigger] r@[j]).wf() && opt_view(r@[j].graph)
                    == quad_graph_of(v@[j]) && converted_to_depth(
                    quad_triple_of(v@[j]),
                    r@[j],
                    MAX_EMBEDDED_DEPTH as nat,
                ),
        decreases n - i,
    {
        r.push(quad_to_owned(&v[i]));
        i = i + 1;
    }
    r
}

/// Binds every scanned prefix pair, later pairs winning.
fn insert_pairs(pm: &mut PrefixMap, pairs: Vec<(String, String)>)
    requires
        old(pm).wf(),
    ensures
        final(pm).wf(),
        final(pm)@ == spec_insert_pairs(old(pm)@, prefix_pairs_view(pairs@)),
{
    let ghost pv = prefix_pairs_view(pairs@);
    let n = pairs.len();
    let mut i: usize = 0;
    proof {
        assert(pv.skip(0) =~= pv);
    }
    while i < n
        invariant
            n == pairs@.len(),
            pv == prefix_pairs_view(pairs@),
            i <= n,
            pm.wf(),
            spec_insert_pairs(old(pm)@, pv) == spec_insert_pairs(pm@, pv.skip(i as int)),
        decreases n - i,
    {
        let ghost rem = pv.skip(i as int);
        let ghost pm0 = pm@;
        proof {
            assert(rem[0] == pv[i as int]);
            assert(pv[i as int] == (pairs@[i as int].0@, pairs@[i as int].1@));
            assert(rem.drop_first() =~= pv.skip(i + 1));
        }
        let p = &pairs[i];
        pm.insert(p.0.clone(), p.1.clone());
        i = i + 1;
        proof {
            assert(spec_insert_pairs(pm0, rem) == spec_insert_pairs(pm@, pv.skip(i as int)));
        }
    }
    proof {
        assert(pv.skip(n as int) =~= Seq::<(Seq<char>, Seq<char>)>::empty());
    }
}

/// An error record for a line, with the parser's message appended to a
/// fixed note.
fn make_error(line: usize, note: &str, message: String) -> (r: ParseError)
    ensures
        r.line == line,
        r.position == 1,
{
    let mut m = String::new();
    m.append(note);
    m.append(message.as_str());
    ParseError { line: line, position: 1, message: m }
}

/// Parses one physical line as N-Triples; a line that holds no triple at
/// all is an error. Succeeds exactly when the grammar parser yields a
/// triple for the line, and converts the last one it yields.
pub fn try_parse_ntriples_line(line: &str) -> (r: Result<OwnedTriple, String>)
    ensures
        r is Ok <==> nt_line_yields(line@),
        match r {
            Ok(t) => t.wf() && t.graph is None && converted_to_depth(
                ntriples_parse_of(line@)->Ok_0.last(),
                t,
                MAX_EMBEDDED_DEPTH as nat,
            ),
            Err(_) => true,
        },
{
    match ntriples_syntax_parse(line) {
        Err(e) => Err(e),
        Ok(v) => {
            if v.len() == 0 {
                Err(String::from_str("no valid triple found in line"))
            } else {
                Ok(triple_to_owned(&v[v.len() - 1]))
            }
        },
    }
}

/// Parses one physical line as N-Quads; a line that holds no quad at all
/// is an error. Succeeds exactly when the grammar parser yields a quad
/// for the line, and converts the last one it yields.
pub fn try_parse_nquads_line(line: &str) -> (r: Result<OwnedTriple, String>)
    ensures
        r is Ok <==> nq_line_yields(line@),
        match r {
            Ok(t) => t.wf() && opt_view(t.graph) == quad_graph_of(
                nquads_parse_of(line@)->Ok_0.last(),
            ) && converted_to_depth(
                quad_triple_of(nquads_parse_of(line@)->Ok_0.last()),
                t,
                MAX_EMBEDDED_DEPTH as nat,
            ),
            Err(_) => true,
        },
{
    match nquads_syntax_parse(line) {
        Err(e) => Err(e),
        Ok(v) => {
            if v.len() == 0 {
                Err(String::from_str("no valid quad found in line"))
            } else {
                Ok(quad_to_owned(&v[v.len() - 1]))
            }
        },
    }
}

/// Parses N-Triples line by line: every candidate line yields exactly
/// one triple or one error recorded at its 1-based line number.
pub fn parse_ntriples_line_by_line(input: &str) -> (r: ParseResult)
    ensures
        r.wf(),
        r.prefixes@.len() == 0,
        r.triples@.len() + r.errors@.len() == candidate_count(spec_lines(input@)),
        r.triples@.len() == yield_count(spec_lines(input@), (|l: Seq<char>| nt_line_yields(l))),
        r.errors@.len() == fail_count(spec_lines(input@), (|l: Seq<char>| nt_line_yields(l))),
        forall|i: int|
            0 <= i < r.errors@.len() ==> 1 <= (#[trigger] r.errors@[i]).line <= spec_lines(
                input@,
            ).len() && r.errors@[i].position == 1 && is_candidate(
                spec_lines(input@)[r.errors@[i].line - 1],
            ) && !nt_line_yields(spec_lines(input@)[r.errors@[i].line - 1]),
        errors_increasing(r.errors@),
        ({
            let yl = yielding_lines(spec_lines(input@), (|l: Seq<char>| nt_line_yields(l)));
            &&& r.triples@.len() == yl.len()
            &&& (forall|i: int, j: int|
                #![trigger yl[i], yl[j]]
                0 <= i < j < yl.len() ==> yl[i] < yl[j])
            &&& (forall|i: int|
                0 <= i < yl.len() ==> 0 <= #[trigger] yl[i] < spec_lines(input@).len()
                    && is_candidate(spec_lines(input@)[yl[i]]) && nt_line_yields(
                    spec_lines(input@)[yl[i]],
                ) && converted_to_depth(
                        ntriples_parse_of(spec_lines(input@)[yl[i]])->Ok_0.last(),
                        r.triples@[i],
                        MAX_EMBEDDED_DEPTH as nat,
                    ))
        }),
{
    let chars = chars_of(input);
    let lines = split_lines(chars.as_slice());
    let ghost lv = lines.deep_view();
    let n = lines.len();
    let mut result = ParseResult::new();
    let ghost ok = (|l: Seq<char>| nt_line_yields(l));
    let ghost mut w: Seq<int> = Seq::empty();
    let mut k: usize = 0;
    proof {
        assert(lv.skip(0) =~= lv);
        lemma_candidate_count_bound(lv);
        lemma_line_counts(lv, ok);
        assert(yielding_lines(lv, ok) =~= w + shift_indices(
            yielding_lines(lv.skip(0), ok),
            0,
        ));
    }
    while k < n
        invariant
            n == lv.len(),
            lv == lines.deep_view(),
            lv == spec_lines(input@),
            ok == (|l: Seq<char>| nt_line_yields(l)),
            k <= n,
            result.wf(),
            result.prefixes@.len() == 0,
            result.triples@.len() + result.errors@.len() + candidate_count(lv.skip(k as int))
                == candidate_count(lv),
            result.triples@.len() + yield_count(lv.skip(k as int), ok) == yield_count(lv, ok),
            result.errors@.len() + fail_count(lv.skip(k as int), ok) == fail_count(lv, ok),
            yielding_lines(lv, ok) == w + shift_indices(
                yielding_lines(lv.skip(k as int), ok),
                k as int,
            ),
            result.triples@.len() == w.len(),
            forall|i: int, j: int| #![trigger w[i], w[j]] 0 <= i < j < w.len() ==> w[i] < w[j],
            forall|i: int|
                0 <= i < w.len() ==> 0 <= #[trigger] w[i] < k && is_candidate(lv[w[i]]) && nt_line_yields(
                    lv[w[i]],
                ) && converted_to_depth(
                    ntriples_parse_of(lv[w[i]])->Ok_0.last(),
                    result.triples@[i],
                    MAX_EMBEDDED_DEPTH as nat,
                ),
            forall|i: int|
                0 <= i < result.errors@.len() ==> 1 <= (#[trigger] result.errors@[i]).line
                    <= k && result.errors@[i].position == 1 && is_candidate(
                    lv[result.errors@[i].line - 1],
                ) && !nt_line_yields(lv[result.errors@[i].line - 1]),
            errors_increasing(result.errors@),
        decreases n - k,
    {
        let ghost rem = lv.skip(k as int);
        let line = &lines[k];
        proof {
            assert(line.deep_view() =~= line@);
            assert(rem[0] == lv[k as int]);
            assert(rem.drop_first() =~= lv.skip(k + 1));
            lemma_candidate_count_bound(lv.skip(k + 1));
            lemma_line_counts(lv.skip(k + 1), ok);
        }
        let t = trim_to_vec(line.as_slice());
        if t.len() == 0 || t[0] == '#' {
            proof {
                assert(!is_candidate(rem[0]));
            }
        } else {
            proof {
                assert(is_candidate(rem[0]));
            }
            let line_str = string_of(line.as_slice());
            match try_parse_ntriples_line(line_str.as_str()) {
                Ok(t) => {
                    proof {
                        assert(ok(rem[0]));
                    }
                    result.triples.push(t);
                    proof {
                        w = w.push(k as int);
                    }
                },
                Err(e) => {
                    proof {
                        assert(!ok(rem[0]));
                    }
                    result.errors.push(make_error(k + 1, "Parse error: ", e));
                },
            }
        }
        k = k + 1;
        proof {
            let tail = yielding_lines(lv.skip(k as int), ok);
            let head = yielding_lines(rem, ok);
            assert(shift_indices(shift_indices(tail, 1), k - 1) =~= shift_indices(tail, k as int));
            if is_candidate(rem[0]) && ok(rem[0]) {
                assert(head =~= seq![0int] + shift_indices(tail, 1));
                assert(shift_indices(head, k - 1) =~= seq![k - 1] + shift_indices(tail, k as int));
            } else {
                assert(head =~= shift_indices(tail, 1));
                assert(shift_indices(head, k - 1) =~= shift_indices(tail, k as int));
            }
            assert(yielding_lines(lv, ok) =~= w + shift_indices(tail, k as int));
        }
    }
    proof {
        assert(lv.skip(n as int) =~= Seq::<Seq<char>>::empty());
        assert(yielding_lines(lv, ok) =~= w);
    }
    result
}

/// Parses N-Quads line by line, as the N-Triples engine does.
pub fn parse_nquads_line_by_line(input: &str) -> (r: ParseResult)
    ensures
        r.wf(),
        r.prefixes@.len() == 0,
        r.triples@.len() + r.errors@.len() == candidate_count(spec_lines(input@)),
        r.triples@.len() == yield_count(spec_lines(input@), (|l: Seq<char>| nq_line_yields(l))),
        r.errors@.len() == fail_count(spec_lines(input@), (|l: Seq<char>| nq_line_yields(l))),
        forall|i: int|
            0 <= i < r.errors@.len() ==> 1 <= (#[trigger] r.errors@[i]).line <= spec_lines(
                input@,
            ).len() && r.errors@[i].position == 1 && is_candidate(
                spec_lines(input@)[r.errors@[i].line - 1],
            ) && !nq_line_yields(spec_lines(input@)[r.errors@[i].line - 1]),
        errors_increasing(r.errors@),
        ({
            let yl = yielding_lines(spec_lines(input@), (|l: Seq<char>| nq_line_yields(l)));
            &&& r.triples@.len() == yl.len()
            &&& (forall|i: int, j: int|
                #![trigger yl[i], yl[j]]
                0 <= i < j < yl.len() ==> yl[i] < yl[j])
            &&& (forall|i: int|
                0 <= i < yl.len() ==> 0 <= #[trigger] yl[i] < spec_lines(input@).len()
                    && is_candidate(spec_lines(input@)[yl[i]]) && nq_line_yields(
                    spec_lines(input@)[yl[i]],
                ) && converted_to_depth(
                        quad_triple_of(nquads_parse_of(spec_lines(input@)[yl[i]])->Ok_0.last()),
                        r.triples@[i],
                        MAX_EMBEDDED_DEPTH as nat,
                    ) && opt_view(r.triples@[i].graph) == quad_graph_of(
                        nquads_parse_of(spec_lines(input@)[yl[i]])->Ok_0.last(),
                    ))
        }),
{
    let chars = chars_of(input);
    let lines = split_lines(chars.as_slice());
    let ghost lv = lines.deep_view();
    let n = lines.len();
    let mut result = ParseResult::new();
    let ghost ok = (|l: Seq<char>| nq_line_yields(l));
    let ghost mut w: Seq<int> = Seq::empty();
    let mut k: usize = 0;
    proof {
        assert(lv.skip(0) =~= lv);
        lemma_candidate_count_bound(lv);
        lemma_line_counts(lv, ok);
        assert(yielding_lines(lv, ok) =~= w + shift_indices(
            yielding_lines(lv.skip(0), ok),
            0,
        ));
    }
    while k < n
        invariant
            n == lv.len(),
            lv == lines.deep_view(),
            lv == spec_lines(input@),
            ok == (|l: Seq<char>| nq_line_yields(l)),
            k <= n,
            result.wf(),
            result.prefixes@.len() == 0,
            result.triples@.len() + result.errors@.len() + candidate_count(lv.skip(k as int))
                == candidate_count(lv),
            result.triples@.len() + yield_count(lv.skip(k as int), ok) == yield_count(lv, ok),
            result.errors@.len() + fail_count(lv.skip(k as int), ok) == fail_count(lv, ok),
            yielding_lines(lv, ok) == w + shift_indices(
                yielding_lines(lv.skip(k as int), ok),
                k as int,
            ),
            result.triples@.len() == w.len(),
            forall|i: int, j: int| #![trigger w[i], w[j]] 0 <= i < j < w.len() ==> w[i] < w[j],
            forall|i: int|
                0 <= i < w.len() ==> 0 <= #[trigger] w[i] < k && is_candidate(lv[w[i]]) && nq_line_yields(
                    lv[w[i]],
                ) && converted_to_depth(
                    quad_triple_of(nquads_parse_of(lv[w[i]])->Ok_0.last()),
                    result.triples@[i],
                    MAX_EMBEDDED_DEPTH as nat,
                ) && opt_view(result.triples@[i].graph) == quad_graph_of(
                    nquads_parse_of(lv[w[i]])->Ok_0.last(),
                ),
            forall|i: int|
                0 <= i < result.errors@.len() ==> 1 <= (#[trigger] result.errors@[i]).line
                    <= k && result.errors@[i].position == 1 && is_candidate(
                    lv[result.errors@[i].line - 1],
                ) && !nq_line_yields(lv[result.errors@[i].line - 1]),
            errors_increasing(result.errors@),
        decreases n - k,
    {
        let ghost rem = lv.skip(k as int);
        let line = &lines[k];
        proof {
            assert(line.deep_view() =~= line@);
            assert(rem[0] == lv[k as int]);
            assert(rem.drop_first() =~= lv.skip(k + 1));
            lemma_candidate_count_bound(lv.skip(k + 1));
            lemma_line_counts(lv.skip(k + 1), ok);
        }
        let t = trim_to_vec(line.as_slice());
        if t.len() == 0 || t[0] == '#' {
            proof {
                assert(!is_candidate(rem[0]));
            }
        } else {
            proof {
                assert(is_candidate(rem[0]));
            }
            let line_str = string_of(line.as_slice());
            match try_parse_nquads_line(line_str.as_str()) {
                Ok(t) => {
                    proof {
                        assert(ok(rem[0]));
                    }
                    result.triples.push(t);
                    proof {
                        w = w.push(k as int);
                    }
                },
                Err(e) => {
                    proof {
                        assert(!ok(rem[0]));
                    }
                    result.errors.push(make_error(k + 1, "Parse error: ", e));
                },
            }
        }
        k = k + 1;
        proof {
            let tail = yielding_lines(lv.skip(k as int), ok);
            let head = yielding_lines(rem, ok);
            assert(shift_indices(shift_indices(tail, 1), k - 1) =~= shift_indices(tail, k as int));
            if is_candidate(rem[0]) && ok(rem[0]) {
                assert(head =~= seq![0int] + shift_indices(tail, 1));
                assert(shift_indices(head, k - 1) =~= seq![k - 1] + shift_indices(tail, k as int));
            } else {
                assert(head =~= shift_indices(tail, 1));
                assert(shift_indices(head, k - 1) =~= shift_indices(tail, k as int));
            }
            assert(yielding_lines(lv, ok) =~= w + shift_indices(tail, k as int));
        }
    }
    proof {
        assert(lv.skip(n as int) =~= Seq::<Seq<char>>::empty());
        assert(yielding_lines(lv, ok) =~= w);
    }
    result
}

/// Parses N-Triples input: strict mode hands the whole text to the
/// grammar parser and succeeds exactly when it does; lenient mode
/// recovers per line and never fails as a whole.
pub fn parse_ntriples_robust(input: &str, continue_on_error: bool) -> (r: Result<
    ParseResult,
    String,
>)
    ensures
        continue_on_error ==> r is Ok,
        !continue_on_error ==> (r is Ok <==> ntriples_parse_of(input@) is Ok),
        match r {
            Ok(res) => {
                &&& res.wf()
                &&& res.prefixes@.len() == 0
                &&& !continue_on_error ==> res.errors@.len() == 0 && res.triples@.len()
                    == ntriples_parse_of(input@)->Ok_0.len()
                &&& continue_on_error ==> {
                    &&& res.triples@.len() == yield_count(
                        spec_lines(input@),
                        (|l: Seq<char>| nt_line_yields(l)),
                    )
                    &&& res.errors@.len() == fail_count(
                        spec_lines(input@),
                        (|l: Seq<char>| nt_line_yields(l)),
                    )
                    &&& (forall|i: int|
                        0 <= i < res.errors@.len() ==> 1 <= (#[trigger] res.errors@[i]).line
                            <= spec_lines(input@).len() && res.errors@[i].position == 1
                            && is_candidate(spec_lines(input@)[res.errors@[i].line - 1])
                            && !nt_line_yields(spec_lines(input@)[res.errors@[i].line - 1]))
                    &&& errors_increasing(res.errors@)
                    &&& ({
                        let yl = yielding_lines(spec_lines(input@), (|l: Seq<char>| nt_line_yields(l)));
                        res.triples@.len() == yl.len() && (forall|i: int, j: int|
                            #![trigger yl[i], yl[j]]
                            0 <= i < j < yl.len() ==> yl[i] < yl[j]) && (forall|i: int|
                            0 <= i < yl.len() ==> 0 <= #[trigger] yl[i] < spec_lines(input@).len()
                                && is_candidate(spec_lines(input@)[yl[i]]) && nt_line_yields(
                                spec_lines(input@)[yl[i]],
                            ) && converted_to_depth(
                            ntriples_parse_of(spec_lines(input@)[yl[i]])->Ok_0.last(),
                            res.triples@[i],
                            MAX_EMBEDDED_DEPTH as nat,
                        ))
                    })
                }
            },
            Err(e) => !continue_on_error && ntriples_parse_of(input@) == Result::<
                Seq<oxrdf::Triple>,
                Seq<char>,
            >::Err(e@),
        },
{
    if continue_on_error {
        Ok(parse_ntriples_line_by_line(input))
    } else {
        match ntriples_syntax_parse(input) {
            Ok(v) => {
                let mut result = ParseResult::new();
                result.triples = convert_triples(&v);
                Ok(result)
            },
            Err(e) => Err(e),
        }
    }
}

/// Parses N-Quads input: strict mode hands the whole text to the
/// grammar parser and succeeds exactly when it does; lenient mode
/// recovers per line and never fails as a whole.
pub fn parse_nquads_robust(input: &str, continue_on_error: bool) -> (r: Result<
    ParseResult,
    String,
>)
    ensures
        continue_on_error ==> r is Ok,
        !continue_on_error ==> (r is Ok <==> nquads_parse_of(input@) is Ok),
        match r {
            Ok(res) => {
                &&& res.wf()
                &&& res.prefixes@.len() == 0
                &&& !continue_on_error ==> res.errors@.len() == 0 && res.triples@.len()
                    == nquads_parse_of(input@)->Ok_0.len()
                &&& continue_on_error ==> {
                    &&& res.triples@.len() == yield_count(
                        spec_lines(input@),
                        (|l: Seq<char>| nq_line_yields(l)),
                    )
                    &&& res.errors@.len() == fail_count(
                        spec_lines(input@),
                        (|l: Seq<char>| nq_line_yields(l)),
                    )
                    &&& (forall|i: int|
                        0 <= i < res.errors@.len() ==> 1 <= (#[trigger] res.errors@[i]).line
                            <= spec_lines(input@).len() && res.errors@[i].position == 1
                            && is_candidate(spec_lines(input@)[res.errors@[i].line - 1])
                            && !nq_line_yields(spec_lines(input@)[res.errors@[i].line - 1]))
                    &&& errors_increasing(res.errors@)
                    &&& ({
                        let yl = yielding_lines(spec_lines(input@), (|l: Seq<char>| nq_line_yields(l)));
                        res.triples@.len() == yl.len() && (forall|i: int, j: int|
                            #![trigger yl[i], yl[j]]
                            0 <= i < j < yl.len() ==> yl[i] < yl[j]) && (forall|i: int|
                            0 <= i < yl.len() ==> 0 <= #[trigger] yl[i] < spec_lines(input@).len()
                                && is_candidate(spec_lines(input@)[yl[i]]) && nq_line_yields(
                                spec_lines(input@)[yl[i]],
                            ) && converted_to_depth(
                            quad_triple_of(nquads_parse_of(spec_lines(input@)[yl[i]])->Ok_0.last()),
                            res.triples@[i],
                            MAX_EMBEDDED_DEPTH as nat,
                        ) && opt_view(res.triples@[i].graph) == quad_graph_of(
                            nquads_parse_of(spec_lines(input@)[yl[i]])->Ok_0.last(),
                        ))
                    })
                }
            },
            Err(e) => !continue_on_error && nquads_parse_of(input@) == Result::<
                Seq<oxrdf::Quad>,
                Seq<char>,
            >::Err(e@),
        },
{
    if continue_on_error {
        Ok(parse_nquads_line_by_line(input))
    } else {
        match nquads_syntax_parse(input) {
            Ok(v) => {
                let mut result = ParseResult::new();
                result.triples = convert_quads(&v);
                Ok(result)
            },
            Err(e) => Err(e),
        }
    }
}

/// Parses one accumulated Turtle fragment, the collected prefix
/// declarations prepended by the caller. Succeeds exactly when the
/// grammar parse of the fragment does, with as many triples as it found.
pub fn try_parse_turtle_fragment(input: &str) -> (r: Result<
    (Vec<OwnedTriple>, Vec<(String, String)>),
    String,
>)
    ensures
        r is Ok <==> turtle_parse_of(input@, None) is Ok,
        match r {
            Ok(p) => p.0@.len() == turtle_parse_of(input@, None)->Ok_0.0
                && pairs_to_map(prefix_pairs_view(p.1@)) == turtle_parse_of(input@, None)->Ok_0.1
                && unique_names(prefix_pairs_view(p.1@)) && (forall|
                i: int,
            | 0 <= i < p.0@.len() ==> (#[trigger] p.0@[i]).wf()),
            Err(e) => turtle_parse_of(input@, None) == Result::<
                (int, Map<Seq<char>, Seq<char>>),
                Seq<char>,
            >::Err(e@),
        },
{
    match turtle_syntax_parse(input, None) {
        Ok(p) => Ok((convert_triples(&p.0), p.1)),
        Err(e) => Err(e),
    }
}

/// Parses one accumulated TriG fragment. Succeeds exactly when the
/// grammar parse of the fragment does, with as many triples as it found.
pub fn try_parse_trig_fragment(input: &str) -> (r: Result<
    (Vec<OwnedTriple>, Vec<(String, String)>),
    String,
>)
    ensures
        r is Ok <==> trig_parse_of(input@, None) is Ok,
        match r {
            Ok(p) => p.0@.len() == trig_parse_of(input@, None)->Ok_0.0 && pairs_to_map(
                prefix_pairs_view(p.1@),
            ) == trig_parse_of(input@, None)->Ok_0.1 && unique_names(prefix_pairs_view(p.1@)) && (
            forall|i: int| 0 <= i < p.0@.len() ==> (#[trigger] p.0@[i]).wf()),
            Err(e) => trig_parse_of(input@, None) == Result::<
                (int, Map<Seq<char>, Seq<char>>),
                Seq<char>,
            >::Err(e@),
        },
{
    match trig_syntax_parse(input, None) {
        Ok(p) => Ok((convert_quads(&p.0), p.1)),
        Err(e) => Err(e),
    }
}

/// Appends recovered triples, keeping every held triple well-formed.
fn append_triples(dst: &mut Vec<OwnedTriple>, src: Vec<OwnedTriple>)
    requires
        forall|i: int| 0 <= i < old(dst)@.len() ==> (#[trigger] old(dst)@[i]).wf(),
        forall|i: int| 0 <= i < src@.len() ==> (#[trigger] src@[i]).wf(),
    ensures
        final(dst)@ == old(dst)@ + src@,
        final(dst)@.len() == old(dst)@.len() + src@.len(),
        forall|i: int| 0 <= i < final(dst)@.len() ==> (#[trigger] final(dst)@[i]).wf(),
{
    let ghost d0 = dst@;
    let mut s = src;
    dst.append(&mut s);
    proof {
        assert forall|i: int| 0 <= i < dst@.len() implies (#[trigger] dst@[i]).wf() by {
            if i < d0.len() {
                assert(dst@[i] == d0[i]);
            } else {
                assert(dst@[i] == src@[i - d0.len()]);
            }
        }
    }
}

/// How many times `c` occurs in `v`.
fn count_char(v: &[char], c: char) -> (r: usize)
    ensures
        r <= v@.len(),
        r == char_count(v@, c),
{
    proof {
        lemma_char_count(v@, c);
    }
    let n = v.len();
    let mut count: usize = 0;
    let mut i: usize = 0;
    proof {
        assert(v@.skip(0) =~= v@);
    }
    while i < n
        invariant
            n == v@.len(),
            i <= n,
            count <= i,
            count + char_count(v@.skip(i as int), c) == char_count(v@, c),
        decreases n - i,
    {
        let ghost rem = v@.skip(i as int);
        proof {
            assert(rem[0] == v@[i as int]);
            assert(rem.drop_first() =~= v@.skip(i + 1));
        }
        if v[i] == c {
            count = count + 1;
        }
        i = i + 1;
    }
    proof {
        assert(v@.skip(n as int) =~= Seq::<char>::empty());
    }
    count
}

/// A character occurs between zero and length many times.
pub proof fn lemma_char_count(s: Seq<char>, c: char)
    ensures
        0 <= char_count(s, c) <= s.len(),
    decreases s.len(),
{
    if s.len() > 0 {
        lemma_char_count(s.drop_first(), c);
    }
}

/// Grows a nesting depth without ever overflowing; saturation is far
/// beyond any input that fits in memory.
fn depth_add(depth: i128, inc: usize) -> (r: i128)
    requires
        depth > i128::MIN,
    ensures
        r > i128::MIN,
        r as int == spec_depth_add(depth as int, inc as int),
{
    if depth <= i128::MAX - (inc as i128) {
        depth + (inc as i128)
    } else {
        depth
    }
}

/// Shrinks a nesting depth without ever overflowing.
fn depth_sub(depth: i128, dec: usize) -> (r: i128)
    requires
        depth > i128::MIN,
    ensures
        r > i128::MIN,
        r as int == spec_depth_sub(depth as int, dec as int),
{
    if depth >= i128::MIN + 1 + (dec as i128) {
        depth - (dec as i128)
    } else {
        depth
    }
}

/// Parses Turtle line by line with recovery: prefix and base
/// declarations, in all three forms, are collected first so every
/// fragment keeps the active prefixes; statements end at a line whose
/// trimmed text ends with a period; a fragment's triples and prefixes
/// merge whole on success — the trailing unterminated fragment included
/// — and a failed fragment is recorded at its boundary line and dropped
/// whole.
pub fn parse_turtle_line_by_line(input: &str) -> (r: ParseResult)
    ensures
        r.wf(),
        forall|i: int|
            0 <= i < r.errors@.len() ==> 1 <= (#[trigger] r.errors@[i]).line <= spec_lines(
                input@,
            ).len() && r.errors@[i].position == 1 && (is_turtle_boundary(
                spec_lines(input@)[r.errors@[i].line - 1],
            ) || r.errors@[i].line == spec_lines(input@).len()),
        errors_increasing(r.errors@),
        ({
            let lv = spec_lines(input@);
            let decls = spec_decls(lv);
            let segs = turtle_segments(lv, 1, Seq::empty()).0;
            let trail = turtle_segments(lv, 1, Seq::empty()).1;
            let trail_active = spec_trim(trail).len() > 0 && lv.len() > 0;
            &&& r.triples@.len() == turtle_seg_triples(decls, segs) + (if trail_active
                && turtle_parse_of(frag_text(decls, trail), None) is Ok {
                turtle_parse_of(frag_text(decls, trail), None)->Ok_0.0
            } else {
                0int
            })
            &&& r.errors@.len() == turtle_failing_lines(decls, segs).len() + (if trail_active
                && turtle_parse_of(frag_text(decls, trail), None) is Err {
                1int
            } else {
                0int
            })
            &&& (forall|i: int|
                0 <= i < turtle_failing_lines(decls, segs).len() ==> (#[trigger] r.errors@[i]).line
                    == turtle_failing_lines(decls, segs)[i])
            &&& (trail_active && turtle_parse_of(frag_text(decls, trail), None) is Err
                ==> r.errors@[r.errors@.len() - 1].line == lv.len())
            &&& pairs_to_map(r.prefixes@) == (if trail_active && turtle_parse_of(
                frag_text(decls, trail),
                None,
            ) is Ok {
                turtle_seg_prefixes(
                    Map::<Seq<char>, Seq<char>>::empty(),
                    decls,
                    segs,
                ).union_prefer_right(turtle_parse_of(frag_text(decls, trail), None)->Ok_0.1)
            } else {
                turtle_seg_prefixes(Map::<Seq<char>, Seq<char>>::empty(), decls, segs)
            })
        }),
{
    let chars = chars_of(input);
    let lines = split_lines(chars.as_slice());
    let ghost lv = lines.deep_view();
    let ghost gdecls = spec_decls(lv);
    let n = lines.len();
    let mut prefix_decls = String::new();
    let mut i: usize = 0;
    proof {
        assert(lv.skip(0) =~= lv);
    }
    while i < n
        invariant
            n == lv.len(),
            lv == lines.deep_view(),
            gdecls == spec_decls(lv),
            i <= n,
            prefix_decls@ + spec_decls(lv.skip(i as int)) == gdecls,
        decreases n - i,
    {
        let ghost rem = lv.skip(i as int);
        proof {
            assert(lines[i as int].deep_view() =~= lines@[i as int]@);
            assert(rem[0] == lv[i as int]);
            assert(rem.drop_first() =~= lv.skip(i + 1));
        }
        let ghost before = prefix_decls@;
        if prefix_decl_line(lines[i].as_slice()) {
            let line_str = string_of(lines[i].as_slice());
            prefix_decls.append(line_str.as_str());
            prefix_decls.append("\n");
            proof {
                assert(prefix_decls@ =~= before + (rem[0] + "\n"@));
            }
        }
        i = i + 1;
        proof {
            assert(prefix_decls@ + spec_decls(lv.skip(i as int)) =~= before + spec_decls(rem));
        }
    }
    proof {
        assert(lv.skip(n as int) =~= Seq::<Seq<char>>::empty());
        assert(prefix_decls@ =~= gdecls);
    }
    let ghost segs_full = turtle_segments(lv, 1, Seq::empty()).0;
    let mut result = ParseResult::new();
    let mut current = String::new();
    let ghost mut buf_start: int = 0;
    let mut k: usize = 0;
    proof {
        assert(current@ =~= Seq::<char>::empty());
        assert(result.errors@.map_values(|e: ParseError| e.line as int) =~= Seq::<int>::empty());
        assert(result.prefixes@ =~= Seq::<(Seq<char>, Seq<char>)>::empty());
        assert(pairs_to_map(result.prefixes@) == Map::<Seq<char>, Seq<char>>::empty());
    }
    while k < n
        invariant
            n == lv.len(),
            lv == lines.deep_view(),
            n == spec_lines(input@).len(),
            lv == spec_lines(input@),
            gdecls == spec_decls(lv),
            prefix_decls@ == gdecls,
            segs_full == turtle_segments(lv, 1, Seq::empty()).0,
            k <= n,
            result.wf(),
            turtle_segments(lv, 1, Seq::empty()) == (
                segs_full,
                turtle_segments(lv.skip(k as int), k + 1, current@).1,
            ),
            segs_full == segs_full.subrange(
                0,
                segs_full.len() - turtle_segments(lv.skip(k as int), k + 1, current@).0.len(),
            ) + turtle_segments(lv.skip(k as int), k + 1, current@).0,
            turtle_seg_triples(gdecls, segs_full) == result.triples@.len() + turtle_seg_triples(
                gdecls,
                turtle_segments(lv.skip(k as int), k + 1, current@).0,
            ),
            turtle_failing_lines(gdecls, segs_full) == result.errors@.map_values(
                |e: ParseError| e.line as int,
            ) + turtle_failing_lines(
                gdecls,
                turtle_segments(lv.skip(k as int), k + 1, current@).0,
            ),
            turtle_seg_prefixes(Map::<Seq<char>, Seq<char>>::empty(), gdecls, segs_full)
                == turtle_seg_prefixes(
                pairs_to_map(result.prefixes@),
                gdecls,
                turtle_segments(lv.skip(k as int), k + 1, current@).0,
            ),
            current@.len() > 0 ==> 0 <= buf_start < k && (forall|j: int|
                0 <= j < result.errors@.len() ==> (#[trigger] result.errors@[j]).line
                    <= buf_start),
            forall|j: int|
                0 <= j < result.errors@.len() ==> 1 <= (#[trigger] result.errors@[j]).line <= k
                    && result.errors@[j].position == 1 && is_turtle_boundary(
                    spec_lines(input@)[result.errors@[j].line - 1],
                ),
            errors_increasing(result.errors@),
        decreases n - k,
    {
        let ghost rem = lv.skip(k as int);
        let ghost buf0 = current@;
        let ghost fold0 = turtle_segments(rem, k + 1, buf0);
        proof {
            assert(lines[k as int].deep_view() =~= lines@[k as int]@);
            assert(lines.deep_view()[k as int] == lines@[k as int].deep_view());
            assert(rem[0] == lv[k as int]);
            assert(rem.drop_first() =~= lv.skip(k + 1));
        }
        let t = trim_to_vec(lines[k].as_slice());
        if t.len() == 0 || t[0] == '#' {
            proof {
                assert(recovery_skip(rem[0]));
                assert(fold0 == turtle_segments(lv.skip(k + 1), k + 2, current@));
            }
        } else if prefix_decl_line(lines[k].as_slice()) {
            proof {
                assert(recovery_skip(rem[0]));
                assert(fold0 == turtle_segments(lv.skip(k + 1), k + 2, current@));
            }
        } else {
            proof {
                assert(!recovery_skip(rem[0]));
            }
            if current.as_str().is_empty() {
                proof {
                    buf_start = k as int;
                }
            }
            let line_str = string_of(lines[k].as_slice());
            current.append(line_str.as_str());
            current.append("\n");
            let ghost buf2 = buf0 + rem[0] + "\n"@;
            proof {
                assert(current@ =~= buf2);
            }
            if t[t.len() - 1] == '.' {
                proof {
                    assert(fold0 == (
                        seq![(buf2, k + 1 as int)] + turtle_segments(
                            lv.skip(k + 1),
                            k + 2,
                            Seq::empty(),
                        ).0,
                        turtle_segments(lv.skip(k + 1), k + 2, Seq::empty()).1,
                    ));
                }
                let mut full = String::new();
                full.append(prefix_decls.as_str());
                full.append("\n");
                full.append(current.as_str());
                let ghost rest_segs = turtle_segments(lv.skip(k + 1), k + 2, Seq::empty()).0;
                proof {
                    assert(full@ =~= frag_text(gdecls, buf2));
                    assert(fold0.0.len() > 0);
                    assert(fold0.0[0] == (buf2, k + 1 as int));
                    assert(fold0.0.drop_first() =~= rest_segs);
                }
                let ghost lines0 = result.errors@.map_values(|e: ParseError| e.line as int);
                let ghost pm0 = pairs_to_map(result.prefixes@);
                match try_parse_turtle_fragment(full.as_str()) {
                    Ok(p) => {
                        append_triples(&mut result.triples, p.0);
                        let ghost entries0 = result.prefixes@;
                        let ghost pv = prefix_pairs_view(p.1@);
                        insert_pairs(&mut result.prefixes, p.1);
                        proof {
                            assert(unique_names(entries0));
                            lemma_insert_pairs_map(entries0, pv);
                            lemma_map_fold_union(pm0, pv);
                            assert(pairs_to_map(result.prefixes@) =~= pm0.union_prefer_right(
                                pairs_to_map(pv),
                            ));
                            assert(pairs_to_map(result.prefixes@) == pm0.union_prefer_right(
                                turtle_parse_of(frag_text(gdecls, buf2), None)->Ok_0.1,
                            ));
                            assert(turtle_seg_prefixes(pm0, gdecls, fold0.0)
                                == turtle_seg_prefixes(
                                pairs_to_map(result.prefixes@),
                                gdecls,
                                rest_segs,
                            ));
                            assert(turtle_parse_of(frag_text(gdecls, buf2), None) is Ok);
                            assert(turtle_seg_triples(gdecls, fold0.0) == turtle_parse_of(
                                frag_text(gdecls, buf2),
                                None,
                            )->Ok_0.0 + turtle_seg_triples(gdecls, rest_segs));
                            assert(turtle_failing_lines(gdecls, fold0.0) =~= turtle_failing_lines(
                                gdecls,
                                rest_segs,
                            ));
                        }
                    },
                    Err(e) => {
                        result.errors.push(make_error(k + 1, "Parse error: ", e));
                        proof {
                            assert(turtle_parse_of(frag_text(gdecls, buf2), None) is Err);
                            assert(turtle_seg_prefixes(pm0, gdecls, fold0.0)
                                == turtle_seg_prefixes(pm0, gdecls, rest_segs));
                            assert(turtle_seg_triples(gdecls, fold0.0) == turtle_seg_triples(
                                gdecls,
                                rest_segs,
                            ));
                            assert(result.errors@.map_values(|e2: ParseError| e2.line as int)
                                =~= lines0.push(k + 1 as int));
                            assert(turtle_failing_lines(gdecls, fold0.0) =~= seq![k + 1 as int]
                                + turtle_failing_lines(gdecls, rest_segs));
                            assert(lines0 + turtle_failing_lines(gdecls, fold0.0) =~= (lines0.push(
                                k + 1 as int,
                            )) + turtle_failing_lines(gdecls, rest_segs));
                        }
                    },
                }
                current = String::new();
                proof {
                    assert(current@ =~= Seq::<char>::empty());
                }
            } else {
                proof {
                    assert(fold0 == turtle_segments(lv.skip(k + 1), k + 2, buf2));
                }
            }
        }
        k = k + 1;
        proof {
            let foldk = turtle_segments(lv.skip(k as int), k + 1, current@);
            assert(segs_full =~= segs_full.subrange(
                0,
                segs_full.len() - foldk.0.len(),
            ) + foldk.0);
        }
    }
    proof {
        assert(lv.skip(n as int) =~= Seq::<Seq<char>>::empty());
        assert(turtle_segments(lv.skip(n as int), n + 1, current@).0 =~= Seq::<
            (Seq<char>, int),
        >::empty());
        assert(turtle_segments(lv, 1, Seq::empty()).1 == current@);
        assert(turtle_failing_lines(gdecls, segs_full) =~= result.errors@.map_values(
            |e: ParseError| e.line as int,
        ));
    }
    let current_chars = chars_of(current.as_str());
    let tc = trim_to_vec(current_chars.as_slice());
    if tc.len() > 0 && n > 0 {
        let mut full = String::new();
        full.append(prefix_decls.as_str());
        full.append("\n");
        full.append(current.as_str());
        proof {
            assert(full@ =~= frag_text(gdecls, current@));
        }
        match try_parse_turtle_fragment(full.as_str()) {
            Ok(p) => {
                append_triples(&mut result.triples, p.0);
                let ghost entries0 = result.prefixes@;
                let ghost pm0 = pairs_to_map(result.prefixes@);
                let ghost pv = prefix_pairs_view(p.1@);
                insert_pairs(&mut result.prefixes, p.1);
                proof {
                    assert(unique_names(entries0));
                    lemma_insert_pairs_map(entries0, pv);
                    lemma_map_fold_union(pm0, pv);
                    assert(pairs_to_map(result.prefixes@) =~= pm0.union_prefer_right(
                        pairs_to_map(pv),
                    ));
                }
            },
            Err(e) => {
                proof {
                    assert(current@.len() > 0);
                }
                result.errors.push(make_error(n, "Parse error in final statement: ", e));
            },
        }
    }
    result
}

/// Parses TriG line by line with recovery: as the Turtle engine, with
/// brace nesting tracked: a statement ends only at the top nesting
/// level, at a line ending with a period or with a closing brace.
pub fn parse_trig_line_by_line(input: &str) -> (r: ParseResult)
    ensures
        r.wf(),
        forall|i: int|
            0 <= i < r.errors@.len() ==> 1 <= (#[trigger] r.errors@[i]).line <= spec_lines(
                input@,
            ).len() && r.errors@[i].position == 1 && (is_trig_boundary(
                spec_lines(input@)[r.errors@[i].line - 1],
            ) || r.errors@[i].line == spec_lines(input@).len()),
        errors_increasing(r.errors@),
        ({
            let lv = spec_lines(input@);
            let decls = spec_decls(lv);
            let segs = trig_segments(lv, 1, Seq::empty(), 0).0;
            let trail = trig_segments(lv, 1, Seq::empty(), 0).1;
            let trail_active = spec_trim(trail).len() > 0 && lv.len() > 0;
            &&& r.triples@.len() == trig_seg_triples(decls, segs) + (if trail_active
                && trig_parse_of(frag_text(decls, trail), None) is Ok {
                trig_parse_of(frag_text(decls, trail), None)->Ok_0.0
            } else {
                0int
            })
            &&& r.errors@.len() == trig_failing_lines(decls, segs).len() + (if trail_active
                && trig_parse_of(frag_text(decls, trail), None) is Err {
                1int
            } else {
                0int
            })
            &&& (forall|i: int|
                0 <= i < trig_failing_lines(decls, segs).len() ==> (#[trigger] r.errors@[i]).line
                    == trig_failing_lines(decls, segs)[i])
            &&& (trail_active && trig_parse_of(frag_text(decls, trail), None) is Err
                ==> r.errors@[r.errors@.len() - 1].line == lv.len())
            &&& pairs_to_map(r.prefixes@) == (if trail_active && trig_parse_of(
                frag_text(decls, trail),
                None,
            ) is Ok {
                trig_seg_prefixes(
                    Map::<Seq<char>, Seq<char>>::empty(),
                    decls,
                    segs,
                ).union_prefer_right(trig_parse_of(frag_text(decls, trail), None)->Ok_0.1)
            } else {
                trig_seg_prefixes(Map::<Seq<char>, Seq<char>>::empty(), decls, segs)
            })
        }),
{
    let chars = chars_of(input);
    let lines = split_lines(chars.as_slice());
    let ghost lv = lines.deep_view();
    let ghost gdecls = spec_decls(lv);
    let n = lines.len();
    let mut prefix_decls = String::new();
    let mut i: usize = 0;
    proof {
        assert(lv.skip(0) =~= lv);
    }
    while i < n
        invariant
            n == lv.len(),
            lv == lines.deep_view(),
            gdecls == spec_decls(lv),
            i <= n,
            prefix_decls@ + spec_decls(lv.skip(i as int)) == gdecls,
        decreases n - i,
    {
        let ghost rem = lv.skip(i as int);
        proof {
            assert(lines[i as int].deep_view() =~= lines@[i as int]@);
            assert(rem[0] == lv[i as int]);
            assert(rem.drop_first() =~= lv.skip(i + 1));
        }
        let ghost before = prefix_decls@;
        if prefix_decl_line(lines[i].as_slice()) {
            let line_str = string_of(lines[i].as_slice());
            prefix_decls.append(line_str.as_str());
            prefix_decls.append("\n");
            proof {
                assert(prefix_decls@ =~= before + (rem[0] + "\n"@));
            }
        }
        i = i + 1;
        proof {
            assert(prefix_decls@ + spec_decls(lv.skip(i as int)) =~= before + spec_decls(rem));
        }
    }
    proof {
        assert(lv.skip(n as int) =~= Seq::<Seq<char>>::empty());
        assert(prefix_decls@ =~= gdecls);
    }
    let ghost segs_full = trig_segments(lv, 1, Seq::empty(), 0).0;
    let mut result = ParseResult::new();
    let mut current = String::new();
    let ghost mut buf_start: int = 0;
    let mut depth: i128 = 0;
    let mut k: usize = 0;
    proof {
        assert(current@ =~= Seq::<char>::empty());
        assert(result.errors@.map_values(|e: ParseError| e.line as int) =~= Seq::<int>::empty());
        assert(result.prefixes@ =~= Seq::<(Seq<char>, Seq<char>)>::empty());
        assert(pairs_to_map(result.prefixes@) == Map::<Seq<char>, Seq<char>>::empty());
    }
    while k < n
        invariant
            n == lv.len(),
            lv == lines.deep_view(),
            n == spec_lines(input@).len(),
            lv == spec_lines(input@),
            gdecls == spec_decls(lv),
            prefix_decls@ == gdecls,
            segs_full == trig_segments(lv, 1, Seq::empty(), 0).0,
            k <= n,
            depth > i128::MIN,
            result.wf(),
            trig_segments(lv, 1, Seq::empty(), 0) == (
                segs_full,
                trig_segments(lv.skip(k as int), k + 1, current@, depth as int).1,
            ),
            trig_seg_triples(gdecls, segs_full) == result.triples@.len() + trig_seg_triples(
                gdecls,
                trig_segments(lv.skip(k as int), k + 1, current@, depth as int).0,
            ),
            trig_failing_lines(gdecls, segs_full) == result.errors@.map_values(
                |e: ParseError| e.line as int,
            ) + trig_failing_lines(
                gdecls,
                trig_segments(lv.skip(k as int), k + 1, current@, depth as int).0,
            ),
            trig_seg_prefixes(Map::<Seq<char>, Seq<char>>::empty(), gdecls, segs_full)
                == trig_seg_prefixes(
                pairs_to_map(result.prefixes@),
                gdecls,
                trig_segments(lv.skip(k as int), k + 1, current@, depth as int).0,
            ),
            current@.len() > 0 ==> 0 <= buf_start < k && (forall|j: int|
                0 <= j < result.errors@.len() ==> (#[trigger] result.errors@[j]).line
                    <= buf_start),
            forall|j: int|
                0 <= j < result.errors@.len() ==> 1 <= (#[trigger] result.errors@[j]).line <= k
                    && result.errors@[j].position == 1 && is_trig_boundary(
                    spec_lines(input@)[result.errors@[j].line - 1],
                ),
            errors_increasing(result.errors@),
        decreases n - k,
    {
        let ghost rem = lv.skip(k as int);
        let ghost buf0 = current@;
        let ghost depth0 = depth as int;
        let ghost fold0 = trig_segments(rem, k + 1, buf0, depth0);
        proof {
            assert(lines[k as int].deep_view() =~= lines@[k as int]@);
            assert(lines.deep_view()[k as int] == lines@[k as int].deep_view());
            assert(rem[0] == lv[k as int]);
            assert(rem.drop_first() =~= lv.skip(k + 1));
        }
        let t = trim_to_vec(lines[k].as_slice());
        if t.len() == 0 || t[0] == '#' {
            proof {
                assert(recovery_skip(rem[0]));
                assert(fold0 == trig_segments(lv.skip(k + 1), k + 2, current@, depth as int));
            }
        } else if prefix_decl_line(lines[k].as_slice()) {
            proof {
                assert(recovery_skip(rem[0]));
                assert(fold0 == trig_segments(lv.skip(k + 1), k + 2, current@, depth as int));
            }
        } else {
            proof {
                assert(!recovery_skip(rem[0]));
            }
            if current.as_str().is_empty() {
                proof {
                    buf_start = k as int;
                }
            }
            let line_str = string_of(lines[k].as_slice());
            current.append(line_str.as_str());
            current.append("\n");
            let ghost buf2 = buf0 + rem[0] + "\n"@;
            proof {
                assert(current@ =~= buf2);
            }
            depth = depth_add(depth, count_char(t.as_slice(), '{'));
            depth = depth_sub(depth, count_char(t.as_slice(), '}'));
            let ghost d2 = spec_depth_sub(
                spec_depth_add(depth0, char_count(spec_trim(rem[0]), '{')),
                char_count(spec_trim(rem[0]), '}'),
            );
            proof {
                assert(depth as int == d2);
            }
            let ends_period = t[t.len() - 1] == '.' && depth == 0;
            let ends_block = t[t.len() - 1] == '}' && depth == 0;
            if ends_period || ends_block {
                proof {
                    assert(fold0 == (
                        seq![(buf2, k + 1 as int)] + trig_segments(
                            lv.skip(k + 1),
                            k + 2,
                            Seq::empty(),
                            d2,
                        ).0,
                        trig_segments(lv.skip(k + 1), k + 2, Seq::empty(), d2).1,
                    ));
                }
                let mut full = String::new();
                full.append(prefix_decls.as_str());
                full.append("\n");
                full.append(current.as_str());
                let ghost rest_segs = trig_segments(lv.skip(k + 1), k + 2, Seq::empty(), d2).0;
                proof {
                    assert(full@ =~= frag_text(gdecls, buf2));
                    assert(fold0.0.len() > 0);
                    assert(fold0.0[0] == (buf2, k + 1 as int));
                    assert(fold0.0.drop_first() =~= rest_segs);
                }
                let ghost lines0 = result.errors@.map_values(|e: ParseError| e.line as int);
                let ghost pm0 = pairs_to_map(result.prefixes@);
                match try_parse_trig_fragment(full.as_str()) {
                    Ok(p) => {
                        append_triples(&mut result.triples, p.0);
                        let ghost entries0 = result.prefixes@;
                        let ghost pv = prefix_pairs_view(p.1@);
                        insert_pairs(&mut result.prefixes, p.1);
                        proof {
                            assert(unique_names(entries0));
                            lemma_insert_pairs_map(entries0, pv);
                            lemma_map_fold_union(pm0, pv);
                            assert(pairs_to_map(result.prefixes@) =~= pm0.union_prefer_right(
                                pairs_to_map(pv),
                            ));
                            assert(pairs_to_map(result.prefixes@) == pm0.union_prefer_right(
                                trig_parse_of(frag_text(gdecls, buf2), None)->Ok_0.1,
                            ));
                            assert(trig_seg_prefixes(pm0, gdecls, fold0.0) == trig_seg_prefixes(
                                pairs_to_map(result.prefixes@),
                                gdecls,
                                rest_segs,
                            ));
                            assert(trig_parse_of(frag_text(gdecls, buf2), None) is Ok);
                            assert(trig_seg_triples(gdecls, fold0.0) == trig_parse_of(
                                frag_text(gdecls, buf2),
                                None,
                            )->Ok_0.0 + trig_seg_triples(gdecls, rest_segs));
                            assert(trig_failing_lines(gdecls, fold0.0) =~= trig_failing_lines(
                                gdecls,
                                rest_segs,
                            ));
                        }
                    },
                    Err(e) => {
                        result.errors.push(make_error(k + 1, "Parse error: ", e));
                        proof {
                            assert(trig_parse_of(frag_text(gdecls, buf2), None) is Err);
                            assert(trig_seg_prefixes(pm0, gdecls, fold0.0) == trig_seg_prefixes(
                                pm0,
                                gdecls,
                                rest_segs,
                            ));
                            assert(trig_seg_triples(gdecls, fold0.0) == trig_seg_triples(
                                gdecls,
                                rest_segs,
                            ));
                            assert(result.errors@.map_values(|e2: ParseError| e2.line as int)
                                =~= lines0.push(k + 1 as int));
                            assert(trig_failing_lines(gdecls, fold0.0) =~= seq![k + 1 as int]
                                + trig_failing_lines(gdecls, rest_segs));
                            assert(lines0 + trig_failing_lines(gdecls, fold0.0) =~= (lines0.push(
                                k + 1 as int,
                            )) + trig_failing_lines(gdecls, rest_segs));
                        }
                    },
                }
                current = String::new();
                proof {
                    assert(current@ =~= Seq::<char>::empty());
                }
            } else {
                proof {
                    assert(fold0 == trig_segments(lv.skip(k + 1), k + 2, buf2, d2));
                }
            }
        }
        k = k + 1;
    }
    proof {
        assert(lv.skip(n as int) =~= Seq::<Seq<char>>::empty());
        assert(trig_segments(lv.skip(n as int), n + 1, current@, depth as int).0 =~= Seq::<
            (Seq<char>, int),
        >::empty());
        assert(trig_segments(lv, 1, Seq::empty(), 0).1 == current@);
        assert(trig_failing_lines(gdecls, segs_full) =~= result.errors@.map_values(
            |e: ParseError| e.line as int,
        ));
    }
    let current_chars = chars_of(current.as_str());
    let tc = trim_to_vec(current_chars.as_slice());
    if tc.len() > 0 && n > 0 {
        let mut full = String::new();
        full.append(prefix_decls.as_str());
        full.append("\n");
        full.append(current.as_str());
        proof {
            assert(full@ =~= frag_text(gdecls, current@));
        }
        match try_parse_trig_fragment(full.as_str()) {
            Ok(p) => {
                append_triples(&mut result.triples, p.0);
                let ghost entries0 = result.prefixes@;
                let ghost pm0 = pairs_to_map(result.prefixes@);
                let ghost pv = prefix_pairs_view(p.1@);
                insert_pairs(&mut result.prefixes, p.1);
                proof {
                    assert(unique_names(entries0));
                    lemma_insert_pairs_map(entries0, pv);
                    lemma_map_fold_union(pm0, pv);
                    assert(pairs_to_map(result.prefixes@) =~= pm0.union_prefer_right(
                        pairs_to_map(pv),
                    ));
                }
            },
            Err(e) => {
                proof {
                    assert(current@.len() > 0);
                }
                result.errors.push(make_error(n, "Parse error in final statement: ", e));
            },
        }
    }
    result
}

/// Parses Turtle input: strict mode hands the whole text to the grammar
/// parser and succeeds exactly when it does; lenient mode recovers per
/// statement and never fails as a whole.
pub fn parse_turtle_robust(input: &str, continue_on_error: bool) -> (r: Result<
    ParseResult,
    String,
>)
    ensures
        continue_on_error ==> r is Ok,
        !continue_on_error ==> (r is Ok <==> turtle_parse_of(input@, None) is Ok),
        match r {
            Ok(res) => {
                &&& res.wf()
                &&& !continue_on_error ==> res.errors@.len() == 0 && res.triples@.len()
                    == turtle_parse_of(input@, None)->Ok_0.0 && pairs_to_map(res.prefixes@)
                    == turtle_parse_of(input@, None)->Ok_0.1
                &&& continue_on_error ==> {
                    &&& (forall|i: int|
                        0 <= i < res.errors@.len() ==> 1 <= (#[trigger] res.errors@[i]).line
                            <= spec_lines(input@).len() && res.errors@[i].position == 1 && (
                        is_turtle_boundary(spec_lines(input@)[res.errors@[i].line - 1])
                            || res.errors@[i].line == spec_lines(input@).len()))
                    &&& errors_increasing(res.errors@)
                    &&& ({
                        let decls = spec_decls(spec_lines(input@));
                        let segs = turtle_segments(spec_lines(input@), 1, Seq::empty()).0;
                        let trail = turtle_segments(spec_lines(input@), 1, Seq::empty()).1;
                        let trail_active = spec_trim(trail).len() > 0 && spec_lines(
                            input@,
                        ).len() > 0;
                        &&& res.triples@.len() == turtle_seg_triples(decls, segs) + (if trail_active
                            && turtle_parse_of(frag_text(decls, trail), None) is Ok {
                            turtle_parse_of(frag_text(decls, trail), None)->Ok_0.0
                        } else {
                            0int
                        })
                        &&& res.errors@.len() == turtle_failing_lines(decls, segs).len() + (if trail_active
                            && turtle_parse_of(frag_text(decls, trail), None) is Err {
                            1int
                        } else {
                            0int
                        })
                        &&& (forall|i: int|
                            0 <= i < turtle_failing_lines(decls, segs).len() ==> (#[trigger] res.errors@[i]).line
                                == turtle_failing_lines(decls, segs)[i])
                        &&& pairs_to_map(res.prefixes@) == (if trail_active && turtle_parse_of(
                            frag_text(decls, trail),
                            None,
                        ) is Ok {
                            turtle_seg_prefixes(
                                Map::<Seq<char>, Seq<char>>::empty(),
                                decls,
                                segs,
                            ).union_prefer_right(turtle_parse_of(frag_text(decls, trail), None)->Ok_0.1)
                        } else {
                            turtle_seg_prefixes(Map::<Seq<char>, Seq<char>>::empty(), decls, segs)
                        })
                    })
                }
            },
            Err(e) => !continue_on_error && turtle_parse_of(input@, None) == Result::<
                (int, Map<Seq<char>, Seq<char>>),
                Seq<char>,
            >::Err(e@),
        },
{
    if continue_on_error {
        Ok(parse_turtle_line_by_line(input))
    } else {
        match turtle_syntax_parse(input, None) {
            Ok(p) => {
                let mut result = ParseResult::new();
                result.triples = convert_triples(&p.0);
                let ghost pv = prefix_pairs_view(p.1@);
                proof {
                    assert(result.prefixes@ =~= Seq::<(Seq<char>, Seq<char>)>::empty());
                }
                insert_pairs(&mut result.prefixes, p.1);
                proof {
                    assert(unique_names(Seq::<(Seq<char>, Seq<char>)>::empty()));
                    lemma_insert_pairs_map(Seq::empty(), pv);
                    assert(map_fold(
                        Map::<Seq<char>, Seq<char>>::empty(),
                        Seq::<(Seq<char>, Seq<char>)>::empty(),
                    ) == Map::<Seq<char>, Seq<char>>::empty());
                    assert(pairs_to_map(Seq::<(Seq<char>, Seq<char>)>::empty()) == Map::<
                        Seq<char>,
                        Seq<char>,
                    >::empty());
                    assert(pairs_to_map(result.prefixes@) =~= map_fold(
                        Map::<Seq<char>, Seq<char>>::empty(),
                        pv,
                    ));
                }
                Ok(result)
            },
            Err(e) => Err(e),
        }
    }
}

/// Parses TriG input: strict mode hands the whole text to the grammar
/// parser and succeeds exactly when it does; lenient mode recovers per
/// statement and never fails as a whole.
pub fn parse_trig_robust(input: &str, continue_on_error: bool) -> (r: Result<ParseResult, String>)
    ensures
        continue_on_error ==> r is Ok,
        !continue_on_error ==> (r is Ok <==> trig_parse_of(input@, None) is Ok),
        match r {
            Ok(res) => {
                &&& res.wf()
                &&& !continue_on_error ==> res.errors@.len() == 0 && res.triples@.len()
                    == trig_parse_of(input@, None)->Ok_0.0 && pairs_to_map(res.prefixes@)
                    == trig_parse_of(input@, None)->Ok_0.1
                &&& continue_on_error ==> {
                    &&& (forall|i: int|
                        0 <= i < res.errors@.len() ==> 1 <= (#[trigger] res.errors@[i]).line
                            <= spec_lines(input@).len() && res.errors@[i].position == 1 && (
                        is_trig_boundary(spec_lines(input@)[res.errors@[i].line - 1])
                            || res.errors@[i].line == spec_lines(input@).len()))
                    &&& errors_increasing(res.errors@)
                    &&& ({
                        let decls = spec_decls(spec_lines(input@));
                        let segs = trig_segments(spec_lines(input@), 1, Seq::empty(), 0).0;
                        let trail = trig_segments(spec_lines(input@), 1, Seq::empty(), 0).1;
                        let trail_active = spec_trim(trail).len() > 0 && spec_lines(
                            input@,
                        ).len() > 0;
                        &&& res.triples@.len() == trig_seg_triples(decls, segs) + (if trail_active
                            && trig_parse_of(frag_text(decls, trail), None) is Ok {
                            trig_parse_of(frag_text(decls, trail), None)->Ok_0.0
                        } else {
                            0int
                        })
                        &&& res.errors@.len() == trig_failing_lines(decls, segs).len() + (if trail_active
                            && trig_parse_of(frag_text(decls, trail), None) is Err {
                            1int
                        } else {
                            0int
                        })
                        &&& (forall|i: int|
                            0 <= i < trig_failing_lines(decls, segs).len() ==> (#[trigger] res.errors@[i]).line
                                == trig_failing_lines(decls, segs)[i])
                        &&& pairs_to_map(res.prefixes@) == (if trail_active && trig_parse_of(
                            frag_text(decls, trail),
                            None,
                        ) is Ok {
                            trig_seg_prefixes(
                                Map::<Seq<char>, Seq<char>>::empty(),
                                decls,
                                segs,
                            ).union_prefer_right(trig_parse_of(frag_text(decls, trail), None)->Ok_0.1)
                        } else {
                            trig_seg_prefixes(Map::<Seq<char>, Seq<char>>::empty(), decls, segs)
                        })
                    })
                }
            },
            Err(e) => !continue_on_error && trig_parse_of(input@, None) == Result::<
                (int, Map<Seq<char>, Seq<char>>),
                Seq<char>,
            >::Err(e@),
        },
{
    if continue_on_error {
        Ok(parse_trig_line_by_line(input))
    } else {
        match trig_syntax_parse(input, None) {
            Ok(p) => {
                let mut result = ParseResult::new();
                result.triples = convert_quads(&p.0);
                let ghost pv = prefix_pairs_view(p.1@);
                proof {
                    assert(result.prefixes@ =~= Seq::<(Seq<char>, Seq<char>)>::empty());
                }
                insert_pairs(&mut result.prefixes, p.1);
                proof {
                    assert(unique_names(Seq::<(Seq<char>, Seq<char>)>::empty()));
                    lemma_insert_pairs_map(Seq::empty(), pv);
                    assert(map_fold(
                        Map::<Seq<char>, Seq<char>>::empty(),
                        Seq::<(Seq<char>, Seq<char>)>::empty(),
                    ) == Map::<Seq<char>, Seq<char>>::empty());
                    assert(pairs_to_map(Seq::<(Seq<char>, Seq<char>)>::empty()) == Map::<
                        Seq<char>,
                        Seq<char>,
                    >::empty());
                    assert(pairs_to_map(result.prefixes@) =~= map_fold(
                        Map::<Seq<char>, Seq<char>>::empty(),
                        pv,
                    ));
                }
                Ok(result)
            },
            Err(e) => Err(e),
        }
    }
}

/// Parses PROV-N input: strict mode stops at the first malformed
/// statement, lenient mode records it at its line and goes on.
pub fn parse_provn_robust(input: &str, continue_on_error: bool) -> (r: Result<ParseResult, String>)
    ensures
        continue_on_error ==> r is Ok,
        !continue_on_error ==> (r is Ok <==> provn::spec_provn_body(
            spec_lines(input@),
            provn::spec_provn_prefixes(spec_lines(input@), Seq::empty()),
        ) is Ok),
        match r {
            Ok(res) => {
                &&& res.wf()
                &&& !continue_on_error ==> res.errors@.len() == 0 && res.prefixes@
                    == provn::spec_provn_prefixes(spec_lines(input@), Seq::empty())
                    && provn::spec_provn_body(spec_lines(input@), res.prefixes@) == Result::<
                    Seq<crate::types::TripleModel>,
                    (),
                >::Ok(crate::types::models_view(res.triples@))
                &&& continue_on_error ==> {
                    &&& (forall|i: int|
                        0 <= i < res.errors@.len() ==> 1 <= (#[trigger] res.errors@[i]).line
                            <= spec_lines(input@).len() && res.errors@[i].position == 1)
                    &&& errors_increasing(res.errors@)
                    &&& res.prefixes@ == provn::spec_provn_prefixes(
                        spec_lines(input@),
                        Seq::empty(),
                    )
                    &&& crate::types::models_view(res.triples@)
                        == provn::spec_provn_lenient_models(spec_lines(input@), res.prefixes@)
                    &&& res.errors@.map_values(|e: ParseError| e.line as int)
                        == provn::spec_provn_failing_lines(spec_lines(input@), res.prefixes@, 1)
                }
            },
            Err(_) => !continue_on_error,
        },
{
    if !continue_on_error {
        match provn::parse_for_estimation(input) {
            Ok(p) => {
                let mut result = ParseResult::new();
                result.triples = copy_all_wf(p.0);
                result.prefixes = p.1;
                Ok(result)
            },
            Err(e) => Err(e),
        }
    } else {
        let chars = chars_of(input);
        let lines = split_lines(chars.as_slice());
        let ghost lv = lines.deep_view();
        let n = lines.len();
        let mut prefixes = PrefixMap::new();
        let mut i: usize = 0;
        proof {
            assert(lv.skip(0) =~= lv);
        }
        while i < n
            invariant
                n == lv.len(),
                lv == lines.deep_view(),
                i <= n,
                prefixes.wf(),
                provn::spec_provn_prefixes(lv, Seq::empty()) == provn::spec_provn_prefixes(
                    lv.skip(i as int),
                    prefixes@,
                ),
            decreases n - i,
        {
            let ghost rem = lv.skip(i as int);
            let ghost pm0 = prefixes@;
            proof {
                assert(lines[i as int].deep_view() =~= lines@[i as int]@);
                assert(rem[0] == lv[i as int]);
                assert(rem.drop_first() =~= lv.skip(i + 1));
            }
            match provn::parse_provn_prefix(lines[i].as_slice()) {
                Some(p) => {
                    prefixes.insert(p.0, p.1);
                },
                None => {},
            }
            i = i + 1;
            proof {
                assert(provn::spec_provn_prefixes(rem, pm0) == provn::spec_provn_prefixes(
                    lv.skip(i as int),
                    prefixes@,
                ));
            }
        }
        proof {
            assert(lv.skip(n as int) =~= Seq::<Seq<char>>::empty());
        }
        let mut result = ParseResult::new();
        result.prefixes = prefixes;
        let ghost pmv = result.prefixes@;
        let pat_comment = chars_of("//");
        let pat_document = chars_of("document");
        let pat_end = chars_of("endDocument");
        let pat_prefix = chars_of("prefix");
        let mut k: usize = 0;
        proof {
            assert(crate::types::models_view(result.triples@) =~= Seq::<
                crate::types::TripleModel,
            >::empty());
            assert(result.errors@.map_values(|e: ParseError| e.line as int) =~= Seq::<
                int,
            >::empty());
        }
        while k < n
            invariant
                n == lv.len(),
                lv == lines.deep_view(),
                n == spec_lines(input@).len(),
                lv == spec_lines(input@),
                pat_comment@ == "//"@,
                pat_document@ == "document"@,
                pat_end@ == "endDocument"@,
                pat_prefix@ == "prefix"@,
                k <= n,
                result.wf(),
                result.prefixes@ == pmv,
                pmv == provn::spec_provn_prefixes(lv, Seq::empty()),
                provn::spec_provn_lenient_models(lv, pmv) == crate::types::models_view(
                    result.triples@,
                ) + provn::spec_provn_lenient_models(lv.skip(k as int), pmv),
                provn::spec_provn_failing_lines(lv, pmv, 1) == result.errors@.map_values(
                    |e: ParseError| e.line as int,
                ) + provn::spec_provn_failing_lines(lv.skip(k as int), pmv, k + 1),
                forall|j: int|
                    0 <= j < result.errors@.len() ==> 1 <= (#[trigger] result.errors@[j]).line
                        <= k && result.errors@[j].position == 1,
                errors_increasing(result.errors@),
            decreases n - k,
        {
            let ghost rem = lv.skip(k as int);
            let ghost prev = crate::types::models_view(result.triples@);
            let ghost lines0 = result.errors@.map_values(|e: ParseError| e.line as int);
            proof {
                assert(lines[k as int].deep_view() =~= lines@[k as int]@);
                assert(rem[0] == lv[k as int]);
                assert(rem.drop_first() =~= lv.skip(k + 1));
            }
            let t = trim_to_vec(lines[k].as_slice());
            let sl = t.as_slice();
            let skip_line = t.len() == 0 || slice_starts_with(sl, 0, pat_comment.as_slice())
                || slice_starts_with(sl, 0, pat_document.as_slice()) || slice_starts_with(
                sl,
                0,
                pat_end.as_slice(),
            ) || slice_starts_with(sl, 0, pat_prefix.as_slice());
            if !skip_line {
                proof {
                    assert(!provn::spec_provn_skip(rem[0]));
                }
                match provn::parse_provn_statement(lines[k].as_slice(), &result.prefixes) {
                    Ok(Some(v)) => {
                        let ghost vv = crate::types::models_view(v@);
                        append_triples(&mut result.triples, v);
                        proof {
                            assert(crate::types::models_view(result.triples@) =~= prev + vv);
                            assert(provn::spec_provn_lenient_models(rem, pmv) == vv
                                + provn::spec_provn_lenient_models(lv.skip(k + 1), pmv));
                            assert(prev + provn::spec_provn_lenient_models(rem, pmv) =~= (prev
                                + vv) + provn::spec_provn_lenient_models(lv.skip(k + 1), pmv));
                        }
                    },
                    Ok(None) => {
                        proof {
                            assert(provn::spec_provn_lenient_models(rem, pmv)
                                =~= provn::spec_provn_lenient_models(lv.skip(k + 1), pmv));
                        }
                    },
                    Err(e) => {
                        result.errors.push(make_error(k + 1, "Parse error: ", e));
                        proof {
                            assert(result.errors@.map_values(|e2: ParseError| e2.line as int)
                                =~= lines0.push(k + 1 as int));
                            assert(provn::spec_provn_failing_lines(rem, pmv, k + 1) =~= seq![
                                k + 1 as int,
                            ] + provn::spec_provn_failing_lines(lv.skip(k + 1), pmv, k + 2));
                            assert(lines0 + provn::spec_provn_failing_lines(rem, pmv, k + 1)
                                =~= (lines0.push(k + 1 as int))
                                + provn::spec_provn_failing_lines(lv.skip(k + 1), pmv, k + 2));
                        }
                    },
                }
            } else {
                proof {
                    assert(provn::spec_provn_skip(rem[0]));
                }
            }
            k = k + 1;
        }
        proof {
            assert(lv.skip(n as int) =~= Seq::<Seq<char>>::empty());
            assert(provn::spec_provn_lenient_models(lv.skip(n as int), pmv) =~= Seq::<
                crate::types::TripleModel,
            >::empty());
            assert(provn::spec_provn_failing_lines(lv.skip(n as int), pmv, n + 1) =~= Seq::<
                int,
            >::empty());
            assert(crate::types::models_view(result.triples@)
                =~= provn::spec_provn_lenient_models(lv, pmv));
            assert(result.errors@.map_values(|e: ParseError| e.line as int)
                =~= provn::spec_provn_failing_lines(lv, pmv, 1));
        }
        Ok(result)
    }
}

/// Takes over a triple list known to be well-formed.
fn copy_all_wf(v: Vec<OwnedTriple>) -> (r: Vec<OwnedTriple>)
    requires
        forall|i: int| 0 <= i < v@.len() ==> (#[trigger] v@[i]).wf() && v@[i].is_plain(),
    ensures
        r@ == v@,
        forall|i: int| 0 <= i < r@.len() ==> (#[trigger] r@[i]).wf(),
{
    v
}

} // verus!
